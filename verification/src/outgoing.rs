//! What the data plane makes of a packet from the device, and how it probes its
//! peers.

use crate::bytes::{be32_bytes, same_array, u32_bytes};
use crate::common::{NodeId, VirtualIp};
use crate::dataplane::{
    frame_asked, DataPeer, DataPeerView, DataPlane, DataPlaneView, Outbound, SendError,
};
use crate::defense::{
    build_icmp_frag_needed, clamp_defined, clamp_is_defined, clamp_mss, clamped_packet,
    frag_needed, quoted_len,
};
use crate::discovery::{agrees_with_bytes, discovery_kind, flood_kind, DiscoveryConfig};
use crate::ethernet::{
    broadcast_mac, ethernet_ip_payload, ethernet_macs, ip_in_frame, is_broadcast_mac,
    is_multicast_mac, lively_macs, multicast_mac, Mac, MacTableEntry,
};
use crate::metrics::{
    aged, flooded, known, lost_by_all, packet_dropped, PeerView, PingRecord, RegistryView,
};
use crate::net::SocketAddr;
use crate::packet::{
    ip_head, read_ip_head, v4_destination, v4_header_len, v4_header_ok, IpHead,
};
use crate::path::PathInfo;
use crate::policy::{packet_verdict, TrafficAction, TrafficDirection, TrafficPolicy};
use crate::proto::DataPacketType;
use crate::table::{at, distinct, has_key, lookup, put, viewed, viewed_lookup, Entry, Table};
use crate::tun::TunDeviceMode;
use vstd::prelude::*;

verus! {

/// Nanoseconds after which a ping counts as lost.
pub const PING_TIMEOUT: u64 = 2_000_000_000;

/// A peer that a packet goes to.
#[derive(Debug, Clone, Copy)]
pub struct PacketTarget {
    pub node_id: NodeId,
    pub flood: bool,
}

/// What is to be done about a packet from the device.
#[derive(Debug)]
pub enum TunStep {
    /// It is too large to go on; the sender is told so by a packet to the device.
    Answer(Vec<u8>),
    /// It is too large to go on, and too short to be answered.
    TooLarge,
    /// It is not let out.
    Refused,
    /// It goes to some peers.
    Route { packet_type: DataPacketType, targets: Vec<PacketTarget>, flood: bool },
}

/// A way to a peer that is to be probed.
#[derive(Debug, Clone, Copy)]
pub struct Probe {
    pub node_id: NodeId,
    pub addr: SocketAddr,
    pub is_active: bool,
}

/// A packet is too large for the device and must not be cut up.
pub open spec fn must_shrink(p: Seq<u8>, mtu: u16) -> bool {
    p.len() > mtu && p.len() >= 20 && p[0] / 16 == 4 && (p[6] / 64) % 2 == 1
}

/// A packet can be handled: where segment sizes are to be capped in it, they lie
/// within it.
pub open spec fn tun_packet_ok(p: Seq<u8>, mode: TunDeviceMode, mtu: u16) -> bool {
    mode == TunDeviceMode::Tun && !must_shrink(p, mtu) ==> clamp_defined(p, mtu as nat)
}

/// A packet after its segment sizes were capped.
pub open spec fn capped(p: Seq<u8>, mode: TunDeviceMode, mtu: u16) -> Seq<u8> {
    if mode == TunDeviceMode::Tun {
        clamped_packet(p, mtu as nat)
    } else {
        p
    }
}

/// How a packet travels.
pub open spec fn travels_as(
    p: Seq<u8>,
    mode: TunDeviceMode,
    config: DiscoveryConfig,
) -> DataPacketType {
    match mode {
        TunDeviceMode::Tun => match discovery_kind(ip_head(p), p, config) {
            Some(t) => t,
            None => DataPacketType::IPv4,
        },
        TunDeviceMode::Tap => DataPacketType::Ethernet,
    }
}

/// The policy lets a packet of the device out.
pub open spec fn let_out(
    policy: TrafficPolicy,
    mode: TunDeviceMode,
    direction: TrafficDirection,
    p: Seq<u8>,
) -> bool {
    match mode {
        TunDeviceMode::Tun => packet_verdict(policy, direction, p) == TrafficAction::Allow,
        TunDeviceMode::Tap => ip_in_frame(p) is Some ==> packet_verdict(
            policy,
            direction,
            ip_in_frame(p)->0,
        ) == TrafficAction::Allow,
    }
}

/// Every peer.
pub open spec fn all_peers(peers: Seq<Entry<NodeId, DataPeerView>>) -> Seq<PacketTarget> {
    Seq::new(
        peers.len(),
        |i: int| PacketTarget { node_id: peers[i].value.info.node_id, flood: true },
    )
}

/// The first peer with a virtual address.
pub open spec fn peer_at_ip(
    peers: Seq<Entry<NodeId, DataPeerView>>,
    ip: Seq<u8>,
    i: int,
) -> bool {
    &&& 0 <= i < peers.len()
    &&& peers[i].value.info.virtual_ip.0@ == ip
    &&& forall|j: int| 0 <= j < i ==> (#[trigger] peers[j]).value.info.virtual_ip.0@ != ip
}

/// Some peer has the virtual address.
pub open spec fn some_peer_at_ip(peers: Seq<Entry<NodeId, DataPeerView>>, ip: Seq<u8>) -> bool {
    exists|i: int|
        0 <= i < peers.len() && (#[trigger] peers[i]).value.info.virtual_ip.0@ == ip
}

/// Where an IP packet goes: to all peers where it is flooded, or else to the
/// peer that has the destination, if one has.
pub open spec fn l3_targets(
    peers: Seq<Entry<NodeId, DataPeerView>>,
    t: DataPacketType,
    p: Seq<u8>,
    targets: Seq<PacketTarget>,
) -> bool {
    if t == DataPacketType::Broadcast || t == DataPacketType::Multicast {
        targets == all_peers(peers)
    } else if v4_destination(p) is Some && some_peer_at_ip(peers, v4_destination(p)->0) {
        exists|i: int| #[trigger]
            peer_at_ip(peers, v4_destination(p)->0, i) && targets == seq![
                PacketTarget { node_id: peers[i].value.info.node_id, flood: false },
            ]
    } else {
        targets == Seq::<PacketTarget>::empty()
    }
}

/// A frame goes to one peer: the one that its destination is behind.
pub open spec fn known_behind(
    peers: Seq<Entry<NodeId, DataPeerView>>,
    macs: Seq<Entry<Mac, MacTableEntry>>,
    mac: Mac,
    node: NodeId,
) -> bool {
    &&& !broadcast_mac(mac.0@)
    &&& !multicast_mac(mac.0@)
    &&& lookup(macs, mac) is Some
    &&& lookup(macs, mac)->0.node_id == node
    &&& has_key(peers, node)
}

/// Where an Ethernet frame goes: to the peer that its destination is behind, or
/// to all peers where that is not known or where it stands for several stations.
pub open spec fn l2_targets(
    peers: Seq<Entry<NodeId, DataPeerView>>,
    macs: Seq<Entry<Mac, MacTableEntry>>,
    frame: Seq<u8>,
    targets: Seq<PacketTarget>,
) -> bool {
    if frame.len() < 14 {
        targets == Seq::<PacketTarget>::empty()
    } else {
        exists|mac: Mac|
            #![trigger lookup(macs, mac)]
            mac.0@ == frame.subrange(0, 6) && if known_behind(
                peers,
                macs,
                mac,
                lookup(macs, mac)->0.node_id,
            ) {
                targets == seq![
                    PacketTarget { node_id: lookup(macs, mac)->0.node_id, flood: false },
                ]
            } else {
                targets == all_peers(peers)
            }
    }
}

/// Some target is one of a flood.
pub open spec fn any_flood(targets: Seq<PacketTarget>) -> bool {
    exists|i: int| 0 <= i < targets.len() && (#[trigger] targets[i]).flood
}

/// The addresses that are known once a frame was looked at.
pub open spec fn macs_after(
    macs: Seq<Entry<Mac, MacTableEntry>>,
    mode: TunDeviceMode,
    now: u64,
) -> Seq<Entry<Mac, MacTableEntry>> {
    match mode {
        TunDeviceMode::Tun => macs,
        TunDeviceMode::Tap => lively_macs(macs, now),
    }
}

/// What becomes of a packet from the device.
pub open spec fn tun_handled(
    before: DataPlane,
    after: DataPlane,
    mode: TunDeviceMode,
    packet: Seq<u8>,
    left: Seq<u8>,
    now: u64,
    step: TunStep,
) -> bool {
    let sent = capped(packet, mode, before.tun_mtu);
    if mode == TunDeviceMode::Tun && must_shrink(packet, before.tun_mtu) {
        &&& after@ == before@
        &&& left == packet
        &&& if packet.len() < quoted_len(packet) {
            step is TooLarge
        } else {
            step is Answer && step->Answer_0@ == frag_needed(packet, before.tun_mtu)
        }
    } else if !let_out(before.traffic_policy, mode, TrafficDirection::Outbound, sent) {
        &&& left == sent
        &&& step is Refused
        &&& after@ == (DataPlaneView {
            metrics: packet_dropped(before@.metrics, None),
            ..before@
        })
    } else {
        let t = travels_as(sent, mode, before.discovery.config);
        let macs = macs_after(before@.macs, mode, now);
        &&& left == sent
        &&& after@ == (DataPlaneView { macs, ..before@ })
        &&& step is Route
        &&& step->packet_type == t
        &&& step->flood == any_flood(step->targets@)
        &&& match mode {
            TunDeviceMode::Tun => l3_targets(before@.peers, t, sent, step->targets@),
            TunDeviceMode::Tap => l2_targets(before@.peers, macs, sent, step->targets@),
        }
    }
}

/// The destination of a packet is the one that its header holds, if that is sound
/// and no authentication header follows it.
pub open spec fn destination_by_bytes(p: Seq<u8>) -> bool {
    &&& !v4_header_ok(p) ==> v4_destination(p) is None
    &&& v4_header_ok(p) && p[9] != 51 ==> v4_destination(p) == Some(p.subrange(16, 20))
}

/// How a packet of the device travels, and where its destination is, go by its
/// bytes.
pub open spec fn routed_by_bytes(config: DiscoveryConfig, p: Seq<u8>, step: TunStep) -> bool {
    step is Route ==> {
        &&& exists|kind: Option<DataPacketType>| #[trigger]
            agrees_with_bytes(kind, p, config) && step->packet_type == match kind {
                Some(t) => t,
                None => DataPacketType::IPv4,
            }
        &&& step->packet_type != DataPacketType::Broadcast && step->packet_type
            != DataPacketType::Multicast ==> destination_by_bytes(p)
    }
}

/// The ways to all peers.
pub open spec fn all_probes(peers: Seq<Entry<NodeId, DataPeerView>>) -> Seq<Probe>
    decreases peers.len(),
{
    if peers.len() == 0 {
        Seq::empty()
    } else {
        all_probes(peers.drop_last()) + probes_of(peers.last().value)
    }
}

/// The ways to a peer.
pub open spec fn probes_of(p: DataPeerView) -> Seq<Probe> {
    Seq::new(
        p.paths.len(),
        |i: int|
            Probe {
                node_id: p.info.node_id,
                addr: p.paths[i].addr,
                is_active: p.paths[i].addr == p.paths[p.active as int].addr,
            },
    )
}

/// What is known once a ping was noted.
pub open spec fn ping_noted(v: DataPlaneView, probe: Probe, now: u64) -> DataPlaneView {
    let p = known(v.metrics.peers, probe.node_id);
    DataPlaneView {
        metrics: RegistryView {
            peers: v.metrics.peers.insert(
                probe.node_id,
                PeerView {
                    pending: put(
                        p.pending,
                        v.next_ping_seq,
                        PingRecord { addr: probe.addr, sent_at: now, is_active: probe.is_active },
                    ),
                    ..p
                },
            ),
            ..v.metrics
        },
        next_ping_seq: v.next_ping_seq.wrapping_add(1),
        ..v
    }
}

impl DataPlane {
    fn every_peer(&self) -> (r: Vec<PacketTarget>)
        ensures
            r@ == all_peers(self@.peers),
    {
        let mut r: Vec<PacketTarget> = Vec::new();
        let n: usize = self.peers.len();
        let ghost whole = all_peers(self@.peers);
        assert(r@ =~= whole.subrange(0, 0));
        for i in 0..n
            invariant
                n == self.peers.entries().len(),
                whole == all_peers(self@.peers),
                r@ == whole.subrange(0, i as int),
        {
            r.push(PacketTarget { node_id: self.peers.nth(i).value.info.node_id, flood: true });
            assert(r@ =~= whole.subrange(0, i + 1));
        }
        assert(whole.subrange(0, n as int) =~= whole);
        r
    }

    fn select_l3_targets(&self, packet_type: DataPacketType, payload: &[u8]) -> (r: Vec<
        PacketTarget,
    >)
        ensures
            l3_targets(self@.peers, packet_type, payload@, r@),
            packet_type != DataPacketType::Broadcast && packet_type != DataPacketType::Multicast
                ==> destination_by_bytes(payload@),
    {
        if packet_type == DataPacketType::Broadcast || packet_type == DataPacketType::Multicast {
            return self.every_peer();
        }
        let mut r: Vec<PacketTarget> = Vec::new();
        let dest: [u8; 4] = match read_ip_head(payload) {
            Some(IpHead::V4 { destination, .. }) => destination,
            _ => {
                return r;
            },
        };
        let n: usize = self.peers.len();
        for i in 0..n
            invariant
                n == self.peers.entries().len(),
                r@.len() == 0,
                v4_destination(payload@) == Some(dest@),
                destination_by_bytes(payload@),
                packet_type != DataPacketType::Broadcast,
                packet_type != DataPacketType::Multicast,
                forall|j: int|
                    0 <= j < i ==> (#[trigger] self@.peers[j]).value.info.virtual_ip.0@ != dest@,
        {
            let info = &self.peers.nth(i).value.info;
            if same_array(&info.virtual_ip.0, &dest) {
                r.push(PacketTarget { node_id: info.node_id, flood: false });
                proof {
                    assert(self@.peers[i as int].value.info.virtual_ip.0@ == dest@);
                    assert(peer_at_ip(self@.peers, dest@, i as int));
                    assert(r@ =~= seq![
                        PacketTarget {
                            node_id: self@.peers[i as int].value.info.node_id,
                            flood: false,
                        },
                    ]);
                }
                return r;
            }
            assert(self@.peers[i as int].value.info.virtual_ip.0@ != dest@) by {
                if info.virtual_ip.0@ == dest@ {
                    assert(info.virtual_ip.0 =~= dest);
                }
            }
        }
        assert(r@ =~= Seq::<PacketTarget>::empty());
        r
    }

    /// Where an Ethernet frame goes.
    pub fn select_l2_targets(&mut self, frame: &[u8], now: u64) -> (r: Vec<PacketTarget>)
        requires
            old(self).wf(),
        ensures
            final(self).wf(),
            final(self).same_setup(*old(self)),
            final(self).same_queue(*old(self)),
            final(self)@ == (DataPlaneView {
                macs: lively_macs(old(self)@.macs, now),
                ..old(self)@
            }),
            l2_targets(old(self)@.peers, final(self)@.macs, frame@, r@),
    {
        self.mac_table.prune(now);
        let dst = match ethernet_macs(frame) {
            Some((dst, _)) => dst,
            None => {
                let none: Vec<PacketTarget> = Vec::new();
                assert(none@ =~= Seq::<PacketTarget>::empty());
                return none;
            },
        };
        let flood = is_broadcast_mac(&dst) || is_multicast_mac(&dst);
        assert(dst.0@ == frame@.subrange(0, 6));
        if !flood {
            if let Some(node_id) = self.mac_table.peer_of(&dst) {
                if self.find_peer(&node_id).is_some() {
                    let mut r: Vec<PacketTarget> = Vec::new();
                    r.push(PacketTarget { node_id, flood: false });
                    proof {
                        assert(r@ =~= seq![PacketTarget { node_id, flood: false }]);
                        assert(known_behind(self@.peers, self@.macs, dst, node_id));
                    }
                    return r;
                }
            }
        }
        assert(lookup(self@.macs, dst) is Some || lookup(self@.macs, dst) is None);
        self.every_peer()
    }

    /// Whether the policy lets a packet of the device pass.
    pub fn policy_allows(
        &self,
        mode: TunDeviceMode,
        direction: TrafficDirection,
        packet: &[u8],
    ) -> (r: bool)
        requires
            self.wf(),
        ensures
            r == let_out(self.traffic_policy, mode, direction, packet@),
    {
        match mode {
            TunDeviceMode::Tun => self.traffic_policy.allows(direction, packet),
            TunDeviceMode::Tap => match ethernet_ip_payload(packet) {
                Some(ip) => self.traffic_policy.allows(direction, ip),
                None => true,
            },
        }
    }

    /// Whether a packet from the device can be handled.
    pub fn can_take(&self, mode: TunDeviceMode, packet: &[u8]) -> (r: bool)
        ensures
            r == tun_packet_ok(packet@, mode, self.tun_mtu),
    {
        match mode {
            TunDeviceMode::Tun => {
                is_stuck(packet, self.tun_mtu) || clamp_is_defined(packet, mtu_size(self.tun_mtu))
            },
            TunDeviceMode::Tap => true,
        }
    }

    /// Takes a packet from the device, and tells where it goes.
    pub fn take_from_tun(&mut self, mode: TunDeviceMode, payload: &mut [u8], now: u64) -> (step:
        TunStep)
        requires
            old(self).wf(),
            tun_packet_ok(old(payload)@, mode, old(self).tun_mtu),
        ensures
            final(self).wf(),
            final(self).same_setup(*old(self)),
            final(self).same_queue(*old(self)),
            tun_handled(
                *old(self),
                *final(self),
                mode,
                old(payload)@,
                final(payload)@,
                now,
                step,
            ),
            mode == TunDeviceMode::Tun ==> routed_by_bytes(
                old(self).discovery.config,
                final(payload)@,
                step,
            ),
    {
        let ghost start = payload@;
        let packet_type: DataPacketType = match mode {
            TunDeviceMode::Tun => {
                if is_stuck(&*payload, self.tun_mtu) {
                    return match build_icmp_frag_needed(&*payload, self.tun_mtu) {
                        Some(answer) => TunStep::Answer(answer),
                        None => TunStep::TooLarge,
                    };
                }
                let _ = clamp_mss(payload, mtu_size(self.tun_mtu));
                match self.discovery.classify_managed_packet(&*payload) {
                    Some(t) => t,
                    None => DataPacketType::IPv4,
                }
            },
            TunDeviceMode::Tap => DataPacketType::Ethernet,
        };
        let ghost sent = payload@;
        assert(sent == capped(start, mode, self.tun_mtu));
        if !self.policy_allows(mode, TrafficDirection::Outbound, &*payload) {
            self.metrics.mark_packet_drop(None);
            return TunStep::Refused;
        }
        let targets = match mode {
            TunDeviceMode::Tun => self.select_l3_targets(packet_type, &*payload),
            TunDeviceMode::Tap => self.select_l2_targets(&*payload, now),
        };
        let flood = has_flood(&targets);
        TunStep::Route { packet_type, targets, flood }
    }

    /// Whether one more packet may be flooded now. This goes by the clock.
    pub fn may_flood(&self) -> (r: bool) {
        self.discovery.allow_broadcast()
    }

    /// Whether a packet goes on, given whether one more may be flooded. One that
    /// is flooded is counted.
    pub fn goes_on(&mut self, packet_type: DataPacketType, flood: bool, allowed: bool) -> (r: bool)
        requires
            old(self).wf(),
        ensures
            final(self).wf(),
            final(self).same_setup(*old(self)),
            final(self).same_queue(*old(self)),
            r == (!flood || allowed),
            final(self)@ == if flood && allowed {
                DataPlaneView { metrics: flooded(old(self)@.metrics, packet_type), ..old(self)@ }
            } else {
                old(self)@
            },
    {
        if flood && !allowed {
            return false;
        }
        if flood {
            self.metrics.mark_discovery_packet(packet_type);
        }
        true
    }

    /// Makes the frame to one of the peers that a packet goes to. What cannot be
    /// made counts as dropped.
    pub fn send_to_target(
        &mut self,
        target: &PacketTarget,
        packet_type: DataPacketType,
        payload: &[u8],
    ) -> (r: Result<Outbound, SendError>)
        requires
            old(self).wf(),
        ensures
            final(self).wf(),
            final(self).same_setup(*old(self)),
            exists|mid: DataPlane| #[trigger]
                frame_asked(
                    *old(self),
                    mid,
                    target.node_id,
                    packet_type,
                    payload@,
                    None,
                    target.flood,
                    r,
                ) && final(self).same_queue(mid) && final(self)@ == if r is Ok {
                    mid@
                } else {
                    DataPlaneView { metrics: packet_dropped(mid@.metrics, None), ..mid@ }
                },
    {
        let r = self.send_to_peer(target.node_id, packet_type, payload, None, target.flood);
        let ghost mid = *self;
        assert(frame_asked(
            *old(self),
            mid,
            target.node_id,
            packet_type,
            payload@,
            None,
            target.flood,
            r,
        ));
        if r.is_err() {
            self.note_drop();
        }
        r
    }

    /// The pings that were lost: those that were not answered in time. Without a
    /// room none is looked at.
    pub fn lost_pings(&mut self, now: u64) -> (r: Vec<(NodeId, SocketAddr)>)
        requires
            old(self).wf(),
        ensures
            final(self).wf(),
            final(self).same_setup(*old(self)),
            final(self).same_queue(*old(self)),
            old(self)@.room is None ==> r@.len() == 0 && final(self)@ == old(self)@,
            old(self)@.room is Some ==> r@ == lost_by_all(
                old(self).metrics.peers.entries(),
                now,
                PING_TIMEOUT,
            ) && final(self)@ == (DataPlaneView {
                metrics: RegistryView {
                    peers: old(self)@.metrics.peers.map_values(
                        |v: PeerView| aged(v, now, PING_TIMEOUT),
                    ),
                    ..old(self)@.metrics
                },
                ..old(self)@
            }),
    {
        if self.room_id.is_none() {
            return Vec::new();
        }
        self.metrics.check_ping_timeouts(PING_TIMEOUT, now)
    }

    /// The ways that are to be probed. Without a room there are none.
    pub fn probes(&self) -> (r: Vec<Probe>)
        requires
            self.wf(),
        ensures
            r@ == if self@.room is Some {
                all_probes(self@.peers)
            } else {
                Seq::empty()
            },
    {
        let mut r: Vec<Probe> = Vec::new();
        if self.room_id.is_none() {
            assert(r@ =~= Seq::<Probe>::empty());
            return r;
        }
        let n: usize = self.peers.len();
        let ghost peers = self@.peers;
        assert(peers.subrange(0, 0) =~= Seq::<Entry<NodeId, DataPeerView>>::empty());
        for i in 0..n
            invariant
                self.wf(),
                n == self.peers.entries().len(),
                peers == self@.peers,
                r@ == all_probes(peers.subrange(0, i as int)),
        {
            let peer = &self.peers.nth(i).value;
            assert(crate::dataplane::peer_ok(self.peers.entries()[i as int]));
            let ghost before = r@;
            let ghost more = probes_of(peer@);
            assert(peers.subrange(0, i + 1).drop_last() =~= peers.subrange(0, i as int));
            assert(peers.subrange(0, i + 1).last().value == peer@);
            let active = peer.path_manager.active_addr();
            let m: usize = peer.path_manager.paths.len();
            assert(r@ =~= before + more.subrange(0, 0));
            for k in 0..m
                invariant
                    m == peer.path_manager.paths@.len(),
                    peer.path_manager.wf(),
                    active == peer.path_manager.paths@[peer.path_manager.active_index as int].addr,
                    more == probes_of(peer@),
                    r@ == before + more.subrange(0, k as int),
            {
                let addr = peer.path_manager.paths[k].addr;
                r.push(Probe { node_id: peer.info.node_id, addr, is_active: addr == active });
                assert(r@ =~= before + more.subrange(0, k + 1));
            }
            assert(more.subrange(0, m as int) =~= more);
        }
        assert(peers.subrange(0, n as int) =~= peers);
        r
    }

    /// Makes a ping over one way, and notes that it was sent.
    pub fn send_ping(&mut self, probe: &Probe, now: u64) -> (r: Result<Outbound, SendError>)
        requires
            old(self).wf(),
        ensures
            final(self).wf(),
            final(self).same_setup(*old(self)),
            exists|mid: DataPlane|
                mid@ == ping_noted(old(self)@, *probe, now) && mid.same_queue(*old(self))
                    && mid.same_setup(*old(self)) && #[trigger] frame_asked(
                    mid,
                    *final(self),
                    probe.node_id,
                    DataPacketType::Ping,
                    be32_bytes(old(self).next_ping_seq),
                    Some(probe.addr),
                    false,
                    r,
                ),
    {
        let seq: u32 = self.next_ping_seq;
        self.next_ping_seq = self.next_ping_seq.wrapping_add(1);
        self.metrics.record_ping_sent(probe.node_id, seq, probe.addr, probe.is_active, now);
        let ghost mid = *self;
        assert(mid@ =~= ping_noted(old(self)@, *probe, now));
        let payload = u32_bytes(seq);
        let r = self.send_to_peer(
            probe.node_id,
            DataPacketType::Ping,
            payload.as_slice(),
            Some(probe.addr),
            false,
        );
        assert(frame_asked(
            mid,
            *self,
            probe.node_id,
            DataPacketType::Ping,
            be32_bytes(seq),
            Some(probe.addr),
            false,
            r,
        ));
        r
    }
}

fn mtu_size(mtu: u16) -> (r: usize)
    ensures
        r == mtu,
{
    mtu as usize
}

fn is_stuck(packet: &[u8], mtu: u16) -> (r: bool)
    ensures
        r == must_shrink(packet@, mtu),
{
    let n: usize = packet.len();
    n > mtu as usize && n >= 20 && packet[0] / 16 == 4 && (packet[6] / 64) % 2 == 1
}

fn has_flood(targets: &Vec<PacketTarget>) -> (r: bool)
    ensures
        r == any_flood(targets@),
{
    let n: usize = targets.len();
    for i in 0..n
        invariant
            n == targets@.len(),
            forall|j: int| 0 <= j < i ==> !(#[trigger] targets@[j]).flood,
    {
        if targets[i].flood {
            assert(targets@[i as int].flood);
            return true;
        }
    }
    false
}

/// Each peer is filed under its own node, once.
pub open spec fn each_filed_once(peers: Seq<Entry<NodeId, DataPeerView>>) -> bool {
    &&& distinct(peers)
    &&& forall|i: int| 0 <= i < peers.len() ==> (#[trigger] peers[i]).key
        == peers[i].value.info.node_id
}

/// A node is among the targets.
pub open spec fn is_target(targets: Seq<PacketTarget>, id: NodeId) -> bool {
    exists|j: int| 0 <= j < targets.len() && (#[trigger] targets[j]).node_id == id
}

/// Each peer is the target of a flood once, and nobody else is.
pub open spec fn floods_all(
    peers: Seq<Entry<NodeId, DataPeerView>>,
    targets: Seq<PacketTarget>,
) -> bool {
    &&& targets.len() == peers.len()
    &&& forall|j: int| 0 <= j < targets.len() ==> (#[trigger] targets[j]).flood
    &&& forall|i: int| 0 <= i < peers.len() ==> is_target(targets, (#[trigger] peers[i]).key)
    &&& forall|j: int, k: int|
        0 <= j < k < targets.len() ==> (#[trigger] targets[j]).node_id != (
        #[trigger] targets[k]).node_id
}

proof fn all_peers_floods_all(peers: Seq<Entry<NodeId, DataPeerView>>)
    requires
        each_filed_once(peers),
    ensures
        floods_all(peers, all_peers(peers)),
{
    let targets = all_peers(peers);
    assert(targets.len() == peers.len());
    assert forall|j: int| 0 <= j < targets.len() implies (
    #[trigger] targets[j]).flood && targets[j].node_id == peers[j].key by {
        assert(peers[j].key == peers[j].value.info.node_id);
    }
    assert forall|i: int| 0 <= i < peers.len() implies is_target(
        targets,
        (#[trigger] peers[i]).key,
    ) by {
        assert(targets[i].node_id == peers[i].key);
    }
    assert forall|j: int, k: int| 0 <= j < k < targets.len() implies (#[trigger] targets[j]).node_id
        != (#[trigger] targets[k]).node_id by {
        assert(peers[j].key != peers[k].key);
    }
}

/// A packet that travels as a broadcast or a multicast goes to every peer, to each
/// once, as part of a flood.
pub proof fn broadcasts_go_to_every_peer(
    before: DataPlane,
    after: DataPlane,
    packet: Seq<u8>,
    left: Seq<u8>,
    now: u64,
    step: TunStep,
)
    requires
        each_filed_once(before@.peers),
        tun_handled(before, after, TunDeviceMode::Tun, packet, left, now, step),
        step is Route,
        step->packet_type == DataPacketType::Broadcast || step->packet_type
            == DataPacketType::Multicast,
    ensures
        floods_all(before@.peers, step->targets@),
        step->flood == (before@.peers.len() > 0),
{
    all_peers_floods_all(before@.peers);
    if before@.peers.len() > 0 {
        assert(step->targets@[0].flood);
    }
}

/// An IPv4 packet to a multicast address, to the address of all hosts or to the
/// last address of the sender's network goes to every peer, where such packets are
/// to be flooded.
pub proof fn group_packets_are_flooded(
    before: DataPlane,
    after: DataPlane,
    packet: Seq<u8>,
    left: Seq<u8>,
    now: u64,
    step: TunStep,
)
    requires
        each_filed_once(before@.peers),
        tun_handled(before, after, TunDeviceMode::Tun, packet, left, now, step),
        routed_by_bytes(before.discovery.config, left, step),
        step is Route,
        v4_header_ok(left),
        left[9] != 51,
        ({
            let c = before.discovery.config;
            ||| c.multicast && 224 <= left[16] <= 239
            ||| c.broadcast && left[16] == 255 && left[17] == 255 && left[18] == 255 && left[19]
                == 255
            ||| c.subnet_broadcast && left[16] == left[12] && left[17] == left[13] && left[18]
                == left[14] && left[19] == 255
            ||| c.subnet_broadcast && left[16] == left[12] && left[17] == left[13] && left[18]
                == 255 && left[19] == 255
        }),
    ensures
        floods_all(before@.peers, step->targets@),
        left[16] != left[12] && 224 <= left[16] <= 239 && before.discovery.config.multicast
            ==> step->packet_type == DataPacketType::Multicast,
        before.discovery.config.broadcast && left[16] == 255 && left[17] == 255 && left[18] == 255
            && left[19] == 255 ==> step->packet_type == DataPacketType::Broadcast,
{
    let kind = choose|kind: Option<DataPacketType>| #[trigger]
        agrees_with_bytes(kind, left, before.discovery.config) && step->packet_type == match kind {
            Some(t) => t,
            None => DataPacketType::IPv4,
        };
    let s = left.subrange(12, 16);
    let d = left.subrange(16, 20);
    assert(d[0] == left[16] && d[1] == left[17] && d[2] == left[18] && d[3] == left[19]);
    assert(s[0] == left[12] && s[1] == left[13] && s[2] == left[14] && s[3] == left[15]);
    if d[0] == 255 && d[1] == 255 && d[2] == 255 && d[3] == 255 {
        assert(d =~= seq![255u8, 255u8, 255u8, 255u8]);
    }
    assert(kind is Some);
    assert(kind->0 == DataPacketType::Broadcast || kind->0 == DataPacketType::Multicast);
    broadcasts_go_to_every_peer(before, after, packet, left, now, step);
}

/// An IPv4 packet to a single address goes to the peer that has the address, and to
/// nobody else; where no peer has it, it goes nowhere.
pub proof fn single_packets_go_to_their_peer(
    before: DataPlane,
    after: DataPlane,
    packet: Seq<u8>,
    left: Seq<u8>,
    now: u64,
    step: TunStep,
)
    requires
        each_filed_once(before@.peers),
        tun_handled(before, after, TunDeviceMode::Tun, packet, left, now, step),
        routed_by_bytes(before.discovery.config, left, step),
        step is Route,
        v4_header_ok(left),
        left[9] != 51,
        left[19] != 255,
        left[16] < 224 || left[16] > 239,
    ensures
        step->packet_type == DataPacketType::IPv4,
        !step->flood,
        step->targets@.len() <= 1,
        step->targets@.len() == 1 <==> exists|i: int|
            0 <= i < before@.peers.len() && (#[trigger] before@.peers[i]).value.info.virtual_ip.0@
                == left.subrange(16, 20),
        step->targets@.len() == 1 ==> !step->targets@[0].flood && exists|i: int|
            0 <= i < before@.peers.len() && (#[trigger] before@.peers[i]).value.info.virtual_ip.0@
                == left.subrange(16, 20) && before@.peers[i].key == step->targets@[0].node_id,
{
    let kind = choose|kind: Option<DataPacketType>| #[trigger]
        agrees_with_bytes(kind, left, before.discovery.config) && step->packet_type == match kind {
            Some(t) => t,
            None => DataPacketType::IPv4,
        };
    let s = left.subrange(12, 16);
    let d = left.subrange(16, 20);
    assert(d[0] == left[16] && d[3] == left[19]);
    assert(kind is None) by {
        if d == seq![255u8, 255u8, 255u8, 255u8] {
            assert(d[3] == 255);
        }
        if d == seq![224u8, 0u8, 0u8, 251u8] {
            assert(d[0] == 224);
        }
        if d == seq![239u8, 255u8, 255u8, 250u8] {
            assert(d[0] == 239);
        }
    }
    let peers = before@.peers;
    if some_peer_at_ip(peers, d) {
        let i = choose|i: int| #[trigger]
            peer_at_ip(peers, d, i) && step->targets@ == seq![
                PacketTarget { node_id: peers[i].value.info.node_id, flood: false },
            ];
        assert(peers[i].key == peers[i].value.info.node_id);
    }
}

/// What is no IPv4 packet goes nowhere.
pub proof fn other_packets_go_nowhere(
    before: DataPlane,
    after: DataPlane,
    packet: Seq<u8>,
    left: Seq<u8>,
    now: u64,
    step: TunStep,
)
    requires
        tun_handled(before, after, TunDeviceMode::Tun, packet, left, now, step),
        routed_by_bytes(before.discovery.config, left, step),
        step is Route,
        left.len() < 20 || left[0] / 16 != 4 || left[0] % 16 < 5 || left.len() < 4 * (left[0] % 16),
    ensures
        step->targets@.len() == 0,
        !step->flood,
{
    let kind = choose|kind: Option<DataPacketType>| #[trigger]
        agrees_with_bytes(kind, left, before.discovery.config) && step->packet_type == match kind {
            Some(t) => t,
            None => DataPacketType::IPv4,
        };
    assert(!v4_header_ok(left));
    assert(kind is None);
}

/// A packet that the policy forbids goes nowhere and counts as dropped; one that is
/// too large for the device and must not be cut up is answered, and goes nowhere
/// either; the rest goes on.
pub proof fn only_allowed_packets_go_on(
    before: DataPlane,
    after: DataPlane,
    mode: TunDeviceMode,
    packet: Seq<u8>,
    left: Seq<u8>,
    now: u64,
    step: TunStep,
)
    requires
        tun_handled(before, after, mode, packet, left, now, step),
    ensures
        step is Answer || step is TooLarge <==> mode == TunDeviceMode::Tun && packet.len()
            > before.tun_mtu && packet.len() >= 20 && packet[0] / 16 == 4 && packet[6] / 64 % 2 == 1,
        step is Route && mode == TunDeviceMode::Tun ==> packet_verdict(
            before.traffic_policy,
            TrafficDirection::Outbound,
            left,
        ) == TrafficAction::Allow,
        step is Refused && mode == TunDeviceMode::Tun ==> packet_verdict(
            before.traffic_policy,
            TrafficDirection::Outbound,
            left,
        ) == TrafficAction::Deny,
        step is Route && mode == TunDeviceMode::Tap && left.len() >= 14 && ((left[12] == 8 && left[13]
            == 0) || (left[12] == 0x86 && left[13] == 0xdd)) ==> packet_verdict(
            before.traffic_policy,
            TrafficDirection::Outbound,
            left.subrange(14, left.len() as int),
        ) == TrafficAction::Allow,
        step is Refused && mode == TunDeviceMode::Tap ==> left.len() >= 14 && ((left[12] == 8
            && left[13] == 0) || (left[12] == 0x86 && left[13] == 0xdd)) && packet_verdict(
            before.traffic_policy,
            TrafficDirection::Outbound,
            left.subrange(14, left.len() as int),
        ) == TrafficAction::Deny,
        mode == TunDeviceMode::Tap ==> left == packet,
        step is Refused ==> after@.metrics.packet_drops == before@.metrics.packet_drops.wrapping_add(
            1,
        ) && after@.metrics.peers == before@.metrics.peers,
        !(step is Refused) ==> after@.metrics == before@.metrics,
        after@.peers == before@.peers && after@.room == before@.room && after@.next_packet_id
            == before@.next_packet_id && after@.next_ping_seq == before@.next_ping_seq,
{
    if packet.len() >= 20 {
        assert((packet[6] / 64) % 2 == 1 <==> packet[6] / 64 % 2 == 1);
    }
}

/// An Ethernet frame to several stations goes to every peer; one to a single
/// station goes to the peer that it was last seen behind, if that was no more than
/// five minutes ago and the peer is still there, and to every peer otherwise. What
/// is too short to be a frame goes nowhere.
pub proof fn frames_are_switched(
    before: DataPlane,
    after: DataPlane,
    packet: Seq<u8>,
    left: Seq<u8>,
    now: u64,
    step: TunStep,
    mac: Mac,
)
    requires
        each_filed_once(before@.peers),
        distinct(before@.macs),
        tun_handled(before, after, TunDeviceMode::Tap, packet, left, now, step),
        step is Route,
        left.len() >= 14 ==> mac.0@ == left.subrange(0, 6),
    ensures
        step->packet_type == DataPacketType::Ethernet,
        left.len() < 14 ==> step->targets@.len() == 0,
        left.len() >= 14 && left[0] % 2 == 1 ==> floods_all(before@.peers, step->targets@),
        left.len() >= 14 && left[0] % 2 == 0 ==> {
            let seen = lookup(before@.macs, mac);
            if seen is Some && now - seen->0.last_seen <= 300_000_000_000 && has_key(
                before@.peers,
                seen->0.node_id,
            ) {
                step->targets@ == seq![
                    PacketTarget { node_id: seen->0.node_id, flood: false },
                ]
            } else {
                floods_all(before@.peers, step->targets@)
            }
        },
{
    all_peers_floods_all(before@.peers);
    if left.len() >= 14 {
        let macs = lively_macs(before@.macs, now);
        let m = choose|m: Mac|
            #![trigger lookup(macs, m)]
            m.0@ == left.subrange(0, 6) && if known_behind(
                before@.peers,
                macs,
                m,
                lookup(macs, m)->0.node_id,
            ) {
                step->targets@ == seq![
                    PacketTarget { node_id: lookup(macs, m)->0.node_id, flood: false },
                ]
            } else {
                step->targets@ == all_peers(before@.peers)
            };
        assert(m.0 =~= mac.0);
        assert(m == mac);
        assert(left.subrange(0, 6)[0] == left[0]);
        crate::ethernet::lively_addresses_stay(before@.macs, now, mac);
    }
}

proof fn probes_found(
    peers: Seq<Entry<NodeId, DataPeerView>>,
    i: int,
    k: int,
)
    requires
        0 <= i < peers.len(),
        0 <= k < peers[i].value.paths.len(),
    ensures
        all_probes(peers).contains(
            Probe {
                node_id: peers[i].value.info.node_id,
                addr: peers[i].value.paths[k].addr,
                is_active: peers[i].value.paths[k].addr
                    == peers[i].value.paths[peers[i].value.active as int].addr,
            },
        ),
    decreases peers.len(),
{
    let last = peers.len() - 1;
    let before = all_probes(peers.drop_last());
    let mine = probes_of(peers.last().value);
    let all = all_probes(peers);
    let p = Probe {
        node_id: peers[i].value.info.node_id,
        addr: peers[i].value.paths[k].addr,
        is_active: peers[i].value.paths[k].addr
            == peers[i].value.paths[peers[i].value.active as int].addr,
    };
    if i == last {
        assert(mine[k] == p);
        assert(all[before.len() + k] == p);
    } else {
        probes_found(peers.drop_last(), i, k);
        let j = before.index_of(p);
        assert(all[j] == p);
    }
}

/// Every way to every peer is probed, and a probe says whether it is of the way in
/// use.
pub proof fn every_way_is_probed(v: DataPlaneView, i: int, k: int)
    requires
        0 <= i < v.peers.len(),
        0 <= k < v.peers[i].value.paths.len(),
    ensures
        exists|j: int|
            {
                &&& 0 <= j < all_probes(v.peers).len()
                &&& (#[trigger] all_probes(v.peers)[j]).node_id == v.peers[i].value.info.node_id
                &&& all_probes(v.peers)[j].addr == v.peers[i].value.paths[k].addr
                &&& all_probes(v.peers)[j].is_active == (v.peers[i].value.paths[k].addr
                    == v.peers[i].value.paths[v.peers[i].value.active as int].addr)
            },
{
    probes_found(v.peers, i, k);
    let p = Probe {
        node_id: v.peers[i].value.info.node_id,
        addr: v.peers[i].value.paths[k].addr,
        is_active: v.peers[i].value.paths[k].addr
            == v.peers[i].value.paths[v.peers[i].value.active as int].addr,
    };
    assert(all_probes(v.peers)[all_probes(v.peers).index_of(p)] == p);
}

/// A ping that was sent waits for its answer under its number, with the address
/// and the time, and the next one gets the next number.
pub proof fn a_ping_waits_for_its_answer(v: DataPlaneView, probe: Probe, now: u64)
    requires
        distinct(known(v.metrics.peers, probe.node_id).pending),
    ensures
        ({
            let w = ping_noted(v, probe, now);
            let ping = lookup(w.metrics.peers[probe.node_id].pending, v.next_ping_seq);
            &&& w.metrics.peers.dom().contains(probe.node_id)
            &&& ping is Some
            &&& ping->0.addr == probe.addr
            &&& ping->0.sent_at == now
            &&& ping->0.is_active == probe.is_active
            &&& w.next_ping_seq == v.next_ping_seq.wrapping_add(1)
            &&& w.peers == v.peers && w.room == v.room && w.macs == v.macs && w.seen == v.seen
            &&& w.metrics.packet_drops == v.metrics.packet_drops
        }),
{
    let p = known(v.metrics.peers, probe.node_id);
    crate::table::put_is_insert(
        p.pending,
        v.next_ping_seq,
        PingRecord { addr: probe.addr, sent_at: now, is_active: probe.is_active },
    );
}

} // verus!
