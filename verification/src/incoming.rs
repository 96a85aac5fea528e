//! What the data plane makes of a frame that comes in.

use crate::bytes::{be32_of, read_u32};
use crate::common::{NodeId, PacketId, RoomId};
use crate::crypto::{
    accepted_is_stale, advanced, authentic, is_fresh, message_in, nonce_bytes, openable, opens_to,
    refusal_is_final, sealable, sealed, Cipher,
};
use crate::dataplane::{
    direct_path_noted, frame_asked, frame_for, frame_made, header_for, kind_of, over_relay,
    peer_ok, peers_stay_ok, send_fault, way_kind, DataPeer, DataPeerView, DataPlane, DataPlaneView,
    Outbound, SendError,
};
use crate::ethernet::{
    ethernet_ip_payload, ethernet_macs, ip_in_frame, mac_learned, Mac, MacTableEntry,
};
use crate::flood::{
    accepted_lately, in_time, is_new, new_unless_accepted_lately, noted, seen_after, Seen,
};
use crate::metrics::{
    after_pong, known, packet_dropped, path_hit, pong_answer, PathKind, PeerView, RegistryView,
};
use crate::net::SocketAddr;
use crate::path::{with_path, PathMetrics};
use crate::policy::{packet_verdict, TrafficAction, TrafficDirection, TrafficPolicy};
use crate::proto::{
    header_bytes, header_reads, header_round_trip, DataHeader, DataPacketType, DATA_HEADER_SIZE,
    PROTOCOL_VERSION,
};
use crate::table::{
    at, at_is, distinct, has_key, lookup, put, put_is_insert, update_is_put, viewed, viewed_lookup,
    viewed_put, Entry, Table,
};
use vstd::prelude::*;
use vstd::slice::slice_subrange;

verus! {

/// What is to be done about a frame that came in.
#[derive(Debug)]
pub enum Incoming {
    /// It is not for this node, came before, or is from a stranger.
    Ignored,
    /// It asks for an answer, which is ready, or could not be made.
    Answer(Result<Outbound, SendError>),
    /// It answers a ping that was sent to an address, so many milliseconds ago.
    Measured { addr: SocketAddr, rtt_ms: u32 },
    /// It answers nothing that is waited for.
    Unexpected,
    /// It is not let in.
    Refused,
    /// The first bytes of the payload are a packet for the device.
    Deliver { len: usize },
}

/// The frame was not sealed by the peer, or came before.
#[derive(Debug, Clone, Copy, PartialEq, Eq)]
pub enum IncomingError {
    Decrypt,
}

/// A header says that its frame goes to all.
pub open spec fn is_flood(h: DataHeader) -> bool {
    match h.packet_type {
        DataPacketType::Broadcast | DataPacketType::Multicast => true,
        DataPacketType::Ethernet => h.ttl > 0,
        _ => false,
    }
}

pub fn header_is_flood(header: &DataHeader) -> (r: bool)
    ensures
        r == is_flood(*header),
{
    match header.packet_type {
        DataPacketType::Broadcast | DataPacketType::Multicast => true,
        DataPacketType::Ethernet => header.ttl > 0,
        _ => false,
    }
}

/// A frame in the room that comes from another node and is for this one: sent to
/// it, or flooded with a number and a way left to go.
pub open spec fn header_fits(local: NodeId, room: RoomId, h: DataHeader) -> bool {
    &&& h.version == PROTOCOL_VERSION
    &&& h.room_id == room
    &&& h.src_node != local
    &&& h.origin_node != local
    &&& if is_flood(h) {
        h.ttl != 0 && h.packet_id.0 != 0
    } else {
        h.dst_node == local
    }
}

/// A frame is taken: it fits, and if it is flooded, it was not met of late.
pub open spec fn header_taken(local: NodeId, v: DataPlaneView, h: DataHeader, now: u64) -> bool {
    &&& v.room is Some
    &&& header_fits(local, v.room->0, h)
    &&& is_flood(h) ==> is_new(v.seen, h.origin_node, h.packet_id, now)
}

/// What is known once a header was looked at. A frame that is not taken counts
/// as dropped, unless there is no room.
pub open spec fn header_seen(
    local: NodeId,
    v: DataPlaneView,
    h: DataHeader,
    now: u64,
) -> DataPlaneView {
    if v.room is None {
        v
    } else {
        DataPlaneView {
            metrics: if header_taken(local, v, h, now) {
                v.metrics
            } else {
                packet_dropped(v.metrics, Some(h.src_node))
            },
            seen: if header_fits(local, v.room->0, h) && is_flood(h) {
                noted(v.seen, h.origin_node, h.packet_id, now)
            } else {
                v.seen
            },
            ..v
        }
    }
}

/// The payload can be opened: there is no key, or it was sealed under it and the
/// header, with a counter that was not used.
pub open spec fn opens(cipher: Option<Cipher>, h: DataHeader, payload: Seq<u8>) -> bool {
    match cipher {
        Some(c) => is_fresh(c.window, h.nonce) && openable(payload.len()) && authentic(
            c.key@,
            h.nonce,
            header_bytes(h),
            payload,
        ),
        None => true,
    }
}

/// What is in the payload.
pub open spec fn opened(
    cipher: Option<Cipher>,
    h: DataHeader,
    payload: Seq<u8>,
    packet: Seq<u8>,
) -> bool {
    match cipher {
        Some(c) => packet.len() == payload.len() - 16 && opens_to(
            packet,
            c.key@,
            h.nonce,
            header_bytes(h),
            payload,
        ),
        None => packet == payload,
    }
}

/// A key after a frame was opened with it.
pub open spec fn used(cipher: Option<Cipher>, nonce: u64) -> Option<Cipher> {
    match cipher {
        Some(c) => Some(Cipher { key: c.key, window: advanced(c.window, nonce) }),
        None => None,
    }
}

/// What is known once a frame of a peer was opened: its counter is used up, and
/// the peer may be reached where the frame came from.
pub open spec fn heard(
    v: DataPlaneView,
    h: DataHeader,
    addr: SocketAddr,
    now: u64,
) -> DataPlaneView {
    let p = lookup(v.peers, h.src_node)->0;
    DataPlaneView {
        metrics: path_hit(v.metrics, h.src_node, kind_of(p.paths, addr)),
        peers: put(
            v.peers,
            h.src_node,
            DataPeerView {
                cipher: used(p.cipher, h.nonce),
                paths: with_path(p.paths, addr, false, now),
                ..p
            },
        ),
        ..v
    }
}

/// The policy lets a packet of a kind pass. Frames of the overlay itself always
/// pass, and so do Ethernet frames that hold no IP packet.
pub open spec fn passes(
    policy: TrafficPolicy,
    t: DataPacketType,
    direction: TrafficDirection,
    packet: Seq<u8>,
) -> bool {
    match t {
        DataPacketType::IPv4
        | DataPacketType::IPv6
        | DataPacketType::Broadcast
        | DataPacketType::Multicast
        | DataPacketType::Discovery => packet_verdict(policy, direction, packet)
            == TrafficAction::Allow,
        DataPacketType::Ethernet => ip_in_frame(packet) is Some ==> packet_verdict(
            policy,
            direction,
            ip_in_frame(packet)->0,
        ) == TrafficAction::Allow,
        _ => true,
    }
}

/// What is known once an answer to a ping came.
pub open spec fn pong_taken(v: DataPlaneView, node: NodeId, seq: u32, now: u64) -> DataPlaneView {
    let p = known(v.metrics.peers, node);
    DataPlaneView {
        metrics: RegistryView {
            peers: v.metrics.peers.insert(node, after_pong(p, seq, now)),
            ..v.metrics
        },
        ..v
    }
}

/// What is known once a packet came over an address: a direct way counts as
/// answered, the source of an Ethernet frame is behind the peer, and a packet
/// that is not let in counts as dropped.
pub open spec fn packet_taken(
    before: DataPlaneView,
    after: DataPlaneView,
    h: DataHeader,
    packet: Seq<u8>,
    addr: SocketAddr,
    direct: PathMetrics,
    allowed: bool,
    now: u64,
) -> bool {
    let p = lookup(before.peers, h.src_node)->0;
    &&& after.metrics == if allowed {
        before.metrics
    } else {
        packet_dropped(before.metrics, Some(h.src_node))
    }
    &&& if h.packet_type == DataPacketType::Ethernet && packet.len() >= 14 {
        exists|mac: Mac|
            mac.0@ == packet.subrange(6, 12) && #[trigger] mac_learned(
                before.macs,
                after.macs,
                mac,
                h.src_node,
                now,
            )
    } else {
        after.macs == before.macs
    }
    &&& direct_path_unless_relay(
        before,
        DataPlaneView { metrics: before.metrics, macs: before.macs, ..after },
        h.src_node,
        addr,
        direct,
        now,
    )
}

/// A packet over a direct way counts as an answer over it.
pub open spec fn direct_path_unless_relay(
    before: DataPlaneView,
    after: DataPlaneView,
    node: NodeId,
    addr: SocketAddr,
    direct: PathMetrics,
    now: u64,
) -> bool {
    if over_relay(lookup(before.peers, node)->0.paths, addr) {
        after == before
    } else {
        direct_path_noted(before, after, node, addr, direct, None, now)
    }
}

/// What becomes of a packet of a peer.
pub open spec fn packet_handled(
    mid: DataPlane,
    after: DataPlane,
    h: DataHeader,
    packet: Seq<u8>,
    addr: SocketAddr,
    direct: PathMetrics,
    now: u64,
    r: Incoming,
) -> bool {
    match h.packet_type {
        DataPacketType::Ping => r is Answer && frame_asked(
            mid,
            after,
            h.src_node,
            DataPacketType::Pong,
            packet,
            Some(addr),
            false,
            r->Answer_0,
        ),
        DataPacketType::Pong => {
            let seq = be32_of(packet.subrange(0, 4)) as u32;
            let answered = pong_answer(known(mid@.metrics.peers, h.src_node), seq, now);
            &&& after.same_queue(mid)
            &&& if packet.len() >= 4 {
                &&& after@ == pong_taken(mid@, h.src_node, seq, now)
                &&& match answered {
                    Some((a, rtt)) => r == (Incoming::Measured { addr: a, rtt_ms: rtt }),
                    None => r is Unexpected,
                }
            } else {
                after@ == mid@ && r is Unexpected
            }
        },
        _ => {
            let allowed = passes(
                mid.traffic_policy,
                h.packet_type,
                TrafficDirection::Inbound,
                packet,
            );
            &&& after.same_queue(mid)
            &&& packet_taken(mid@, after@, h, packet, addr, direct, allowed, now)
            &&& if allowed {
                r is Deliver && r->len == packet.len()
            } else {
                r is Refused
            }
        },
    }
}

/// What becomes of a frame.
pub open spec fn frame_handled(
    before: DataPlane,
    after: DataPlane,
    h: DataHeader,
    payload: Seq<u8>,
    left: Seq<u8>,
    addr: SocketAddr,
    direct: PathMetrics,
    now: u64,
    r: Result<Incoming, IncomingError>,
) -> bool {
    let looked = header_seen(before.local_node_id, before@, h, now);
    let p = lookup(before@.peers, h.src_node);
    if !header_taken(before.local_node_id, before@, h, now) || p is None {
        r is Ok && r->Ok_0 is Ignored && after@ == looked && after.same_queue(before) && left
            == payload
    } else if !opens(p->0.cipher, h, payload) {
        r is Err && after@ == looked && after.same_queue(before) && left == payload
    } else {
        &&& r is Ok
        &&& left.len() == payload.len()
        &&& exists|mid: DataPlane, len: int|
            #![trigger packet_handled(mid, after, h, left.subrange(0, len), addr, direct, now, r->Ok_0)]
            {
                &&& 0 <= len <= left.len()
                &&& mid@ == heard(looked, h, addr, now)
                &&& mid.same_setup(before)
                &&& mid.same_queue(before)
                &&& opened(p->0.cipher, h, payload, left.subrange(0, len))
                &&& packet_handled(
                    mid,
                    after,
                    h,
                    left.subrange(0, len),
                    addr,
                    direct,
                    now,
                    r->Ok_0,
                )
            }
    }
}

impl DataPlane {
    /// Whether a frame with this header is taken.
    pub fn validate_incoming_header(&mut self, header: &DataHeader, now: u64) -> (r: bool)
        requires
            old(self).wf(),
        ensures
            final(self).wf(),
            final(self).same_setup(*old(self)),
            final(self).same_queue(*old(self)),
            r == header_taken(old(self).local_node_id, old(self)@, *header, now),
            final(self)@ == header_seen(old(self).local_node_id, old(self)@, *header, now),
    {
        let room_id = match self.room_id {
            Some(r) => r,
            None => {
                return false;
            },
        };
        let ghost v = self@;
        if header.version != PROTOCOL_VERSION || header.room_id != room_id {
            self.metrics.mark_packet_drop(Some(header.src_node));
            assert(self@ =~= header_seen(self.local_node_id, v, *header, now));
            return false;
        }
        if header.src_node == self.local_node_id || header.origin_node == self.local_node_id {
            self.metrics.mark_packet_drop(Some(header.src_node));
            assert(self@ =~= header_seen(self.local_node_id, v, *header, now));
            return false;
        }
        let flood = header_is_flood(header);
        if !flood && header.dst_node != self.local_node_id {
            self.metrics.mark_packet_drop(Some(header.src_node));
            assert(self@ =~= header_seen(self.local_node_id, v, *header, now));
            return false;
        }
        if flood {
            if header.ttl == 0 || header.packet_id.0 == 0 {
                self.metrics.mark_packet_drop(Some(header.src_node));
                assert(self@ =~= header_seen(self.local_node_id, v, *header, now));
                return false;
            }
            if !self.seen_flood.insert_if_new(header.origin_node, header.packet_id, now) {
                self.metrics.mark_packet_drop(Some(header.src_node));
                assert(self@ =~= header_seen(self.local_node_id, v, *header, now));
                return false;
            }
        }
        assert(self@ =~= header_seen(self.local_node_id, v, *header, now));
        true
    }

    /// Whether the policy lets a packet of a kind pass.
    pub fn policy_allows_packet_type(
        &self,
        packet_type: DataPacketType,
        direction: TrafficDirection,
        packet: &[u8],
    ) -> (r: bool)
        requires
            self.wf(),
        ensures
            r == passes(self.traffic_policy, packet_type, direction, packet@),
    {
        match packet_type {
            DataPacketType::IPv4
            | DataPacketType::IPv6
            | DataPacketType::Broadcast
            | DataPacketType::Multicast
            | DataPacketType::Discovery => self.traffic_policy.allows(direction, packet),
            DataPacketType::Ethernet => match ethernet_ip_payload(packet) {
                Some(ip) => self.traffic_policy.allows(direction, ip),
                None => true,
            },
            _ => true,
        }
    }

    /// Notes which peer an Ethernet address is behind.
    pub fn learn_mac(&mut self, mac: Mac, node_id: NodeId, now: u64)
        requires
            old(self).wf(),
        ensures
            final(self).wf(),
            final(self).same_setup(*old(self)),
            final(self).same_queue(*old(self)),
            final(self)@ == (DataPlaneView { macs: final(self)@.macs, ..old(self)@ }),
            mac_learned(old(self)@.macs, final(self)@.macs, mac, node_id, now),
    {
        self.mac_table.learn(mac, node_id, now);
    }

    /// Opens the payload of a frame where it stands, and tells how long what was
    /// in it is. The peer is at hand.
    fn open_frame(&mut self, i: usize, header: &DataHeader, payload: &mut [u8]) -> (r: Result<
        usize,
        IncomingError,
    >)
        requires
            old(self).wf(),
            i < old(self).peers.entries().len(),
            old(self).peers.entries()[i as int].key == header.src_node,
            lookup(old(self)@.peers, header.src_node) == Some(
                old(self).peers.entries()[i as int].value@,
            ),
        ensures
            final(self).wf(),
            final(self).same_setup(*old(self)),
            final(self).same_queue(*old(self)),
            final(payload)@.len() == old(payload)@.len(),
            ({
                let p = lookup(old(self)@.peers, header.src_node)->0;
                match r {
                    Ok(len) => {
                        &&& opens(p.cipher, *header, old(payload)@)
                        &&& len <= old(payload)@.len()
                        &&& opened(
                            p.cipher,
                            *header,
                            old(payload)@,
                            final(payload)@.subrange(0, len as int),
                        )
                        &&& final(self)@ == (DataPlaneView {
                            peers: put(
                                old(self)@.peers,
                                header.src_node,
                                DataPeerView { cipher: used(p.cipher, header.nonce), ..p },
                            ),
                            ..old(self)@
                        })
                        &&& final(self).peers.entries().len() == old(self).peers.entries().len()
                        &&& final(self).peers.entries()[i as int].key == header.src_node
                    },
                    Err(_) => {
                        &&& !opens(p.cipher, *header, old(payload)@)
                        &&& final(payload)@ == old(payload)@
                        &&& final(self)@ == old(self)@
                    },
                }
            }),
    {
        let ghost before = self.peers.entries();
        let ghost was = before[i as int].value;
        let ghost start = payload@;
        proof {
            self.peers_are_distinct();
            assert(peer_ok(before[i as int]));
        }
        let mut head: [u8; 148] = [0u8; 148];
        let _ = header.encode_into(&mut head);
        assert(head@ =~= header_bytes(*header));
        let n: usize = payload.len();
        let r: Result<usize, IncomingError> = {
            let peer = self.peers.value_mut(i);
            match &mut peer.cipher {
                Some(c) => match c.decrypt_in_place(header.nonce, head.as_slice(), payload) {
                    Ok(len) => Ok(len),
                    Err(_) => Err(IncomingError::Decrypt),
                },
                None => {
                    assert(payload@.subrange(0, n as int) =~= payload@);
                    Ok(n)
                },
            }
        };
        proof {
            let v = self.peers.entries()[i as int].value;
            update_is_put(before, i as int, v);
            viewed_put(before, header.src_node, v);
            peers_stay_ok(before, header.src_node, v);
            if r is Ok {
                assert(v@ =~= (DataPeerView { cipher: used(was.cipher, header.nonce), ..was@ }));
            } else {
                assert(v@ =~= was@);
                assert(viewed(self.peers.entries()) =~= viewed(before));
                assert(self@ =~= old(self)@);
            }
        }
        r
    }

    /// Notes that a frame of a peer came from an address. The peer is at hand.
    fn note_heard(&mut self, i: usize, node: NodeId, addr: SocketAddr, now: u64)
        requires
            old(self).wf(),
            i < old(self).peers.entries().len(),
            old(self).peers.entries()[i as int].key == node,
        ensures
            final(self).wf(),
            final(self).same_setup(*old(self)),
            final(self).same_queue(*old(self)),
            ({
                let p = lookup(old(self)@.peers, node)->0;
                &&& final(self)@ == (DataPlaneView {
                    metrics: path_hit(old(self)@.metrics, node, kind_of(p.paths, addr)),
                    peers: put(
                        old(self)@.peers,
                        node,
                        DataPeerView { paths: with_path(p.paths, addr, false, now), ..p },
                    ),
                    ..old(self)@
                })
                &&& final(self).peers.entries().len() == old(self).peers.entries().len()
                &&& final(self).peers.entries()[i as int].key == node
                &&& lookup(final(self)@.peers, node) == Some(
                    final(self).peers.entries()[i as int].value@,
                )
            }),
    {
        let ghost before = self.peers.entries();
        let ghost was = before[i as int].value@;
        proof {
            self.peers_are_distinct();
            assert(peer_ok(before[i as int]));
            at_is(before, i as int);
            viewed_lookup(before, node);
        }
        let kind = way_kind(&self.peers.nth(i).value.path_manager, &addr);
        self.metrics.mark_path_hit(node, kind);
        {
            let peer = self.peers.value_mut(i);
            let _ = peer.path_manager.add_or_update_path(addr, false, now);
        }
        proof {
            let v = self.peers.entries()[i as int].value;
            update_is_put(before, i as int, v);
            viewed_put(before, node, v);
            peers_stay_ok(before, node, v);
            assert(v@ =~= (DataPeerView { paths: with_path(was.paths, addr, false, now), ..was }));
            put_is_insert(before, node, v);
            at_is(self.peers.entries(), i as int);
            viewed_lookup(self.peers.entries(), node);
        }
    }

    /// Takes a packet of a peer in. The peer is at hand.
    fn take_packet(
        &mut self,
        i: usize,
        header: &DataHeader,
        packet: &[u8],
        addr: SocketAddr,
        direct: PathMetrics,
        now: u64,
    ) -> (allowed: bool)
        requires
            old(self).wf(),
            i < old(self).peers.entries().len(),
            old(self).peers.entries()[i as int].key == header.src_node,
            lookup(old(self)@.peers, header.src_node) == Some(
                old(self).peers.entries()[i as int].value@,
            ),
        ensures
            final(self).wf(),
            final(self).same_setup(*old(self)),
            final(self).same_queue(*old(self)),
            allowed == passes(
                old(self).traffic_policy,
                header.packet_type,
                TrafficDirection::Inbound,
                packet@,
            ),
            packet_taken(
                old(self)@,
                final(self)@,
                *header,
                packet@,
                addr,
                direct,
                allowed,
                now,
            ),
    {
        let ghost v0 = self@;
        let relay = match way_kind(&self.peers.nth(i).value.path_manager, &addr) {
            PathKind::Relay => true,
            PathKind::Direct => false,
        };
        if !relay {
            self.set_direct_path(header.src_node, addr, direct, None, now);
        }
        let ghost v1 = self@;
        let ghost mut source: Mac = arbitrary();
        if header.packet_type == DataPacketType::Ethernet {
            if let Some((_, src_mac)) = ethernet_macs(packet) {
                self.learn_mac(src_mac, header.src_node, now);
                proof {
                    source = src_mac;
                }
            }
        }
        let allowed = self.policy_allows_packet_type(
            header.packet_type,
            TrafficDirection::Inbound,
            packet,
        );
        if !allowed {
            self.metrics.mark_packet_drop(Some(header.src_node));
        }
        proof {
            let rest = DataPlaneView { metrics: v0.metrics, macs: v0.macs, ..self@ };
            assert(rest =~= v1);
            if header.packet_type == DataPacketType::Ethernet && packet@.len() >= 14 {
                assert(source.0@ == packet@.subrange(6, 12));
                assert(mac_learned(v0.macs, self@.macs, source, header.src_node, now));
            }
        }
        allowed
    }

    /// Takes a frame in that came from an address. `direct` are the measurements
    /// that the way from there has once it counts as answered.
    pub fn handle_incoming_frame(
        &mut self,
        header: &DataHeader,
        payload: &mut [u8],
        addr: SocketAddr,
        direct: PathMetrics,
        now: u64,
    ) -> (r: Result<Incoming, IncomingError>)
        requires
            old(self).wf(),
        ensures
            final(self).wf(),
            final(self).same_setup(*old(self)),
            frame_handled(
                *old(self),
                *final(self),
                *header,
                old(payload)@,
                final(payload)@,
                addr,
                direct,
                now,
                r,
            ),
    {
        let ghost start = *self;
        if !self.validate_incoming_header(header, now) {
            return Ok(Incoming::Ignored);
        }
        let i = match self.find_peer(&header.src_node) {
            Some(i) => i,
            None => {
                return Ok(Incoming::Ignored);
            },
        };
        let ghost looked = *self;
        let ghost p = lookup(self@.peers, header.src_node)->0;
        let len = match self.open_frame(i, header, payload) {
            Ok(len) => len,
            Err(e) => {
                return Err(e);
            },
        };
        proof {
            looked.peers_are_distinct();
            put_is_insert(
                looked@.peers,
                header.src_node,
                DataPeerView { cipher: used(p.cipher, header.nonce), ..p },
            );
        }
        let ghost between = *self;
        self.note_heard(i, header.src_node, addr, now);
        let ghost mid = *self;
        proof {
            put_over(
                looked@.peers,
                header.src_node,
                DataPeerView { cipher: used(p.cipher, header.nonce), ..p },
                DataPeerView {
                    cipher: used(p.cipher, header.nonce),
                    paths: with_path(p.paths, addr, false, now),
                    ..p
                },
            );
            assert(mid@ =~= heard(looked@, *header, addr, now));
        }
        let packet = slice_subrange(&*payload, 0, len);
        let ghost pv = payload@.subrange(0, len as int);
        let r = match header.packet_type {
            DataPacketType::Ping => Incoming::Answer(
                self.send_to_peer(header.src_node, DataPacketType::Pong, packet, Some(addr), false),
            ),
            DataPacketType::Pong => {
                if len >= 4 {
                    let seq: u32 = read_u32(packet, 0);
                    assert(seq == be32_of(pv.subrange(0, 4))) by {
                        assert(packet@.subrange(0, 4) =~= pv.subrange(0, 4));
                    }
                    let answered = self.metrics.record_pong_received(header.src_node, seq, now);
                    assert(self@ =~= pong_taken(mid@, header.src_node, seq, now));
                    match answered {
                        Some((a, rtt)) => Incoming::Measured { addr: a, rtt_ms: rtt },
                        None => Incoming::Unexpected,
                    }
                } else {
                    Incoming::Unexpected
                }
            },
            _ => {
                if self.take_packet(i, header, packet, addr, direct, now) {
                    Incoming::Deliver { len }
                } else {
                    Incoming::Refused
                }
            },
        };
        proof {
            assert(packet_handled(mid, *self, *header, pv, addr, direct, now, r));
        }
        Ok(r)
    }
}

/// What was put twice is what was put last.
proof fn put_over(
    s: Seq<Entry<NodeId, DataPeerView>>,
    k: NodeId,
    v: DataPeerView,
    w: DataPeerView,
)
    requires
        distinct(s),
        has_key(s, k),
    ensures
        put(put(s, k, v), k, w) == put(s, k, w),
{
    put_is_insert(s, k, v);
    let i = at(s, k);
    assert(s[i].key == k);
    let t = put(s, k, v);
    assert(t[i].key == k);
    at_is(t, i);
    assert(put(t, k, w) =~= put(s, k, w));
}

/// What one node sends another arrives there as it was sent: a frame that is
/// taken, from a peer that has the same key and under a counter that was not
/// used, is opened, and its payload is what is handled then. A packet is handed
/// to the device whole, unless the policy there refuses it.
pub proof fn what_is_sent_arrives(
    from: DataPlane,
    sent: DataPlane,
    packet_type: DataPacketType,
    payload: Seq<u8>,
    target: Option<SocketAddr>,
    flood: bool,
    out: Outbound,
    to: DataPlane,
    after: DataPlane,
    h: DataHeader,
    left: Seq<u8>,
    addr: SocketAddr,
    direct: PathMetrics,
    now: u64,
    r: Result<Incoming, IncomingError>,
)
    requires
        send_fault(from, to.local_node_id, payload.len()) is None,
        frame_made(from, sent, to.local_node_id, packet_type, payload, target, flood, out),
        header_reads(h, sent.slab.bytes(out.desc.slot as int).subrange(0, out.desc.len as int)),
        frame_handled(
            to,
            after,
            h,
            sent.slab.bytes(out.desc.slot as int).subrange(0, out.desc.len as int).subrange(
                DATA_HEADER_SIZE as int,
                out.desc.len as int,
            ),
            left,
            addr,
            direct,
            now,
            r,
        ),
        header_taken(to.local_node_id, to@, h, now),
        has_key(to@.peers, from.local_node_id),
        ({
            let there = lookup(from@.peers, to.local_node_id)->0;
            let back = lookup(to@.peers, from.local_node_id)->0;
            match there.cipher {
                Some(c) => back.cipher is Some && back.cipher->0.key@ == c.key@ && is_fresh(
                    back.cipher->0.window,
                    there.next_nonce,
                ),
                None => back.cipher is None,
            }
        }),
    ensures
        h.packet_type == packet_type,
        h.src_node == from.local_node_id,
        r is Ok,
        exists|mid: DataPlane| #[trigger]
            packet_handled(mid, after, h, payload, addr, direct, now, r->Ok_0),
        packet_type != DataPacketType::Ping && packet_type != DataPacketType::Pong ==> {
            ||| r->Ok_0 is Refused && !passes(
                to.traffic_policy,
                packet_type,
                TrafficDirection::Inbound,
                payload,
            )
            ||| r->Ok_0 is Deliver && r->Ok_0->len == payload.len() && left.subrange(
                0,
                payload.len() as int,
            ) == payload
        },
{
    let p = lookup(from@.peers, to.local_node_id)->0;
    let q = lookup(to@.peers, from.local_node_id);
    let made = header_for(
        from.local_node_id,
        from@.room->0,
        p,
        packet_type,
        flood,
        from.next_packet_id,
        payload.len(),
    );
    let frame = frame_for(made, p, payload);
    let bytes = sent.slab.bytes(out.desc.slot as int).subrange(0, out.desc.len as int);
    let rest = frame.subrange(DATA_HEADER_SIZE as int, frame.len() as int);
    let body = bytes.subrange(DATA_HEADER_SIZE as int, out.desc.len as int);
    assert(header_bytes(made).len() == DATA_HEADER_SIZE);
    assert(frame =~= header_bytes(made) + rest);
    header_round_trip(made, rest, h);
    assert(h == made);
    assert(body =~= frame.subrange(DATA_HEADER_SIZE as int, frame.len() as int));
    if let Some(c) = p.cipher {
        let s = sealed(c.key@, nonce_bytes(h.nonce), header_bytes(h), payload);
        assert(body =~= s);
        assert(message_in(payload, c.key@, h.nonce, header_bytes(h), body));
        assert(q->0.cipher->0.key@ == c.key@);
    } else {
        assert(body =~= payload);
    }
    assert(opens(q->0.cipher, h, body));
    let (mid, len) = choose|mid: DataPlane, len: int|
        #![trigger packet_handled(mid, after, h, left.subrange(0, len), addr, direct, now, r->Ok_0)]
        {
            &&& 0 <= len <= left.len()
            &&& mid@ == heard(
                header_seen(to.local_node_id, to@, h, now),
                h,
                addr,
                now,
            )
            &&& mid.same_setup(to)
            &&& mid.same_queue(to)
            &&& opened(q->0.cipher, h, body, left.subrange(0, len))
            &&& packet_handled(
                mid,
                after,
                h,
                left.subrange(0, len),
                addr,
                direct,
                now,
                r->Ok_0,
            )
        };
    assert(left.subrange(0, len) == payload);
    assert(packet_handled(mid, after, h, payload, addr, direct, now, r->Ok_0));
    assert(payload.len() == len);
}

/// A flooded packet is taken once: as long as it is remembered, a frame with its
/// number is dropped.
pub proof fn flooded_packets_are_taken_once(
    local: NodeId,
    v: DataPlaneView,
    h: DataHeader,
    i: int,
    now: u64,
)
    requires
        is_flood(h),
        v.seen.len() <= crate::flood::SEEN_FLOOD_CAPACITY,
        0 <= i < v.seen.len(),
        v.seen[i].origin == h.origin_node,
        v.seen[i].packet_id == h.packet_id,
        !crate::flood::outdated(v.seen[i], now),
    ensures
        !header_taken(local, v, h, now),
{
    crate::flood::seen_is_not_new(v.seen, i, now);
}

/// A frame is opened once: from then on its counter is used, and stays used
/// whatever else is opened.
pub proof fn frames_open_once(cipher: Cipher, h: DataHeader, payload: Seq<u8>, other: DataHeader)
    ensures
        is_fresh(cipher.window, h.nonce) ==> !opens(used(Some(cipher), h.nonce), h, payload),
        !is_fresh(cipher.window, h.nonce) && is_fresh(cipher.window, other.nonce) ==> !opens(
            used(Some(cipher), other.nonce),
            h,
            payload,
        ),
{
    if is_fresh(cipher.window, h.nonce) {
        accepted_is_stale(cipher.window, h.nonce);
    } else if is_fresh(cipher.window, other.nonce) {
        refusal_is_final(cipher.window, h.nonce, other.nonce);
    }
}

/// Rooms do not mix: a frame of another room is left as it is and changes
/// nothing but the count of what was dropped.
pub proof fn rooms_do_not_mix(
    before: DataPlane,
    after: DataPlane,
    h: DataHeader,
    payload: Seq<u8>,
    left: Seq<u8>,
    addr: SocketAddr,
    direct: PathMetrics,
    now: u64,
    r: Result<Incoming, IncomingError>,
)
    requires
        frame_handled(before, after, h, payload, left, addr, direct, now, r),
        before@.room != Some(h.room_id),
    ensures
        r is Ok && r->Ok_0 is Ignored,
        left == payload,
        after.same_queue(before),
        after@ == (DataPlaneView { metrics: after@.metrics, ..before@ }),
{
}

/// Over a run of flooded frames with a clock that never goes back, a frame is
/// taken exactly when there is a room, the frame is of the current version and of
/// the room, came from another node and was sent by another, and is for this
/// node: sent to it, or flooded with a way left to go and a number that was not
/// accepted within the last thirty seconds with fewer than 4096 accepted since. A
/// flooded frame that fits goes on with the run.
pub proof fn frames_are_taken_by_these_rules(
    local: NodeId,
    v: DataPlaneView,
    h: DataHeader,
    run: Seq<Seen>,
    now: u64,
)
    requires
        in_time(run, now),
        v.seen == seen_after(run),
    ensures
        header_taken(local, v, h, now) <==> {
            &&& v.room == Some(h.room_id)
            &&& h.version == PROTOCOL_VERSION
            &&& h.src_node != local
            &&& h.origin_node != local
            &&& if is_flood(h) {
                &&& h.ttl > 0
                &&& h.packet_id.0 != 0
                &&& !accepted_lately(run, h.origin_node, h.packet_id, now)
            } else {
                h.dst_node == local
            }
        },
        header_seen(local, v, h, now).seen == if v.room is Some && header_fits(
            local,
            v.room->0,
            h,
        ) && is_flood(h) {
            seen_after(
                run.push(Seen { origin: h.origin_node, packet_id: h.packet_id, seen_at: now }),
            )
        } else {
            seen_after(run)
        },
{
    new_unless_accepted_lately(run, h.origin_node, h.packet_id, now);
    let longer = run.push(Seen { origin: h.origin_node, packet_id: h.packet_id, seen_at: now });
    assert(longer.drop_last() =~= run);
    assert(longer.last().seen_at == now);
}

/// Packets to all and to groups are flooded, and Ethernet frames that have a way left
/// to go; nothing else is.
pub proof fn these_frames_are_flooded(h: DataHeader)
    ensures
        h.packet_type == DataPacketType::Broadcast ==> is_flood(h),
        h.packet_type == DataPacketType::Multicast ==> is_flood(h),
        h.packet_type == DataPacketType::Ethernet ==> (is_flood(h) <==> h.ttl >= 1),
        h.packet_type != DataPacketType::Broadcast && h.packet_type != DataPacketType::Multicast
            && h.packet_type != DataPacketType::Ethernet ==> !is_flood(h),
{
}

/// A frame that is not taken counts as dropped, for who sent it; one that is taken
/// does not.
pub proof fn frames_that_are_not_taken_count_as_dropped(
    local: NodeId,
    v: DataPlaneView,
    h: DataHeader,
    now: u64,
)
    requires
        v.room is Some,
        v.metrics.packet_drops < u64::MAX,
        known(v.metrics.peers, h.src_node).packet_drops < u64::MAX,
    ensures
        ({
            let w = header_seen(local, v, h, now);
            &&& header_taken(local, v, h, now) ==> w.metrics == v.metrics
            &&& !header_taken(local, v, h, now) ==> w.metrics.packet_drops
                == v.metrics.packet_drops + 1 && w.metrics.peers[h.src_node].packet_drops
                == known(v.metrics.peers, h.src_node).packet_drops + 1
            &&& w.peers == v.peers && w.macs == v.macs && w.room == v.room
        }),
{
}

/// Whoever a frame came from is heard of: the address that it came by is one of the
/// ways to it, its number is used, and the packet counts for it. Nobody else is
/// concerned.
pub proof fn who_is_heard_of_can_be_reached(
    v: DataPlaneView,
    h: DataHeader,
    addr: SocketAddr,
    now: u64,
    other: NodeId,
)
    requires
        distinct(v.peers),
        has_key(v.peers, h.src_node),
        other != h.src_node,
    ensures
        ({
            let w = heard(v, h, addr, now);
            let p = lookup(v.peers, h.src_node)->0;
            let q = lookup(w.peers, h.src_node)->0;
            &&& exists|i: int| 0 <= i < q.paths.len() && (#[trigger] q.paths[i]).addr == addr
            &&& forall|i: int| 0 <= i < p.paths.len() ==> #[trigger] q.paths[i] == p.paths[i]
            &&& q.cipher is Some <==> p.cipher is Some
            &&& p.cipher is Some ==> q.cipher->0.key == p.cipher->0.key && q.cipher->0.window
                == advanced(p.cipher->0.window, h.nonce)
            &&& q.next_nonce == p.next_nonce && q.info == p.info && q.active == p.active
            &&& lookup(w.peers, other) == lookup(v.peers, other)
            &&& known(w.metrics.peers, other) == known(v.metrics.peers, other)
            &&& w.seen == v.seen && w.macs == v.macs && w.room == v.room && w.next_packet_id
                == v.next_packet_id
        }),
{
    let p = lookup(v.peers, h.src_node)->0;
    let more = with_path(p.paths, addr, false, now);
    put_is_insert(
        v.peers,
        h.src_node,
        DataPeerView { cipher: used(p.cipher, h.nonce), paths: more, ..p },
    );
    let w = heard(v, h, addr, now);
    let q = lookup(w.peers, h.src_node)->0;
    assert(q.paths == more);
    if crate::path::has_path(p.paths, addr) {
        let i = choose|i: int| 0 <= i < p.paths.len() && (#[trigger] p.paths[i]).addr == addr;
        assert(q.paths[i].addr == addr);
    } else {
        assert(q.paths[p.paths.len() as int].addr == addr);
    }
    match kind_of(p.paths, addr) {
        PathKind::Direct => {
            assert(known(w.metrics.peers, other) == known(v.metrics.peers, other));
        },
        PathKind::Relay => {
            assert(known(w.metrics.peers, other) == known(v.metrics.peers, other));
        },
    }
}

/// A ping is answered by a pong with the same payload, to where it came from; whether
/// the answer can be made is told.
pub proof fn pings_are_answered(
    mid: DataPlane,
    after: DataPlane,
    h: DataHeader,
    packet: Seq<u8>,
    addr: SocketAddr,
    direct: PathMetrics,
    now: u64,
    r: Incoming,
)
    requires
        packet_handled(mid, after, h, packet, addr, direct, now, r),
        h.packet_type == DataPacketType::Ping,
    ensures
        r is Answer,
        frame_asked(
            mid,
            after,
            h.src_node,
            DataPacketType::Pong,
            packet,
            Some(addr),
            false,
            r->Answer_0,
        ),
        r->Answer_0 is Ok <==> has_key(mid@.peers, h.src_node) && packet.len() <= 1436 && mid@.room
            is Some && mid.slab.free_slots().len() > 0,
        r->Answer_0 is Ok ==> r->Answer_0->Ok_0.target == addr,
{
}

/// A pong measures the ping with the number in its first four bytes, if that is waited
/// for; it is not waited for any longer then. Any other pong is unexpected.
pub proof fn pongs_measure_their_ping(
    mid: DataPlane,
    after: DataPlane,
    h: DataHeader,
    packet: Seq<u8>,
    addr: SocketAddr,
    direct: PathMetrics,
    now: u64,
    r: Incoming,
    seq: u32,
)
    requires
        packet_handled(mid, after, h, packet, addr, direct, now, r),
        h.packet_type == DataPacketType::Pong,
        packet.len() >= 4 ==> seq == packet[0] * 16_777_216 + packet[1] * 65_536 + packet[2] * 256
            + packet[3],
        distinct(known(mid@.metrics.peers, h.src_node).pending),
    ensures
        ({
            let ping = lookup(known(mid@.metrics.peers, h.src_node).pending, seq);
            &&& packet.len() >= 4 && ping is Some ==> r is Measured && r->Measured_addr
                == ping->0.addr && lookup(after@.metrics.peers[h.src_node].pending, seq) is None
                && after@.metrics.peers[h.src_node].last_rtt_ms == Some(r->rtt_ms)
            &&& packet.len() < 4 || ping is None ==> r is Unexpected
            &&& after@.peers == mid@.peers && after@.macs == mid@.macs
            &&& after.same_queue(mid)
        }),
{
    let p = known(mid@.metrics.peers, h.src_node);
    if packet.len() >= 4 {
        let four = packet.subrange(0, 4);
        assert(four[0] == packet[0] && four[1] == packet[1] && four[2] == packet[2] && four[3]
            == packet[3]);
        assert(be32_of(four) == seq);
        crate::table::cut_is_remove(p.pending, seq);
    }
}

/// Any other packet is delivered whole if the policy lets it in, and is refused and
/// counted as dropped otherwise. Of an Ethernet frame it is known then behind which
/// peer its sender is; a way that is not over the relay was heard of.
pub proof fn packets_are_delivered_by_the_policy(
    mid: DataPlane,
    after: DataPlane,
    h: DataHeader,
    packet: Seq<u8>,
    addr: SocketAddr,
    direct: PathMetrics,
    now: u64,
    r: Incoming,
)
    requires
        packet_handled(mid, after, h, packet, addr, direct, now, r),
        h.packet_type != DataPacketType::Ping,
        h.packet_type != DataPacketType::Pong,
        distinct(mid@.peers),
        distinct(mid@.macs),
        mid@.macs.len() < 4096,
        has_key(mid@.peers, h.src_node),
        mid@.metrics.packet_drops < u64::MAX,
    ensures
        r is Deliver || r is Refused,
        r is Deliver ==> r->len == packet.len() && after@.metrics == mid@.metrics,
        r is Refused ==> after@.metrics.packet_drops == mid@.metrics.packet_drops + 1,
        h.packet_type == DataPacketType::Keepalive ==> r is Deliver,
        h.packet_type == DataPacketType::IPv4 || h.packet_type == DataPacketType::IPv6
            || h.packet_type == DataPacketType::Broadcast || h.packet_type
            == DataPacketType::Multicast || h.packet_type == DataPacketType::Discovery ==> (
        r is Deliver <==> packet_verdict(mid.traffic_policy, TrafficDirection::Inbound, packet)
            == TrafficAction::Allow),
        h.packet_type == DataPacketType::Ethernet && packet.len() >= 14 && ((packet[12] == 8
            && packet[13] == 0) || (packet[12] == 0x86 && packet[13] == 0xdd)) ==> (r is Deliver
            <==> packet_verdict(
            mid.traffic_policy,
            TrafficDirection::Inbound,
            packet.subrange(14, packet.len() as int),
        ) == TrafficAction::Allow),
        h.packet_type == DataPacketType::Ethernet && !(packet.len() >= 14 && ((packet[12] == 8
            && packet[13] == 0) || (packet[12] == 0x86 && packet[13] == 0xdd))) ==> r is Deliver,
        h.packet_type == DataPacketType::Ethernet && packet.len() >= 14 ==> exists|mac: Mac|
            mac.0@ == packet.subrange(6, 12) && (#[trigger] lookup(after@.macs, mac)) is Some
                && lookup(after@.macs, mac)->0.node_id == h.src_node && lookup(
                after@.macs,
                mac,
            )->0.last_seen == now,
        h.packet_type != DataPacketType::Ethernet ==> after@.macs == mid@.macs,
        !over_relay(lookup(mid@.peers, h.src_node)->0.paths, addr) ==> exists|i: int|
            0 <= i < lookup(after@.peers, h.src_node)->0.paths.len() && (#[trigger] lookup(
                after@.peers,
                h.src_node,
            )->0.paths[i]).addr == addr && lookup(after@.peers, h.src_node)->0.paths[i].last_success
                == now,
        over_relay(lookup(mid@.peers, h.src_node)->0.paths, addr) ==> after@.peers == mid@.peers,
{
    if h.packet_type == DataPacketType::Ethernet && packet.len() >= 14 {
        let mac = choose|mac: Mac|
            mac.0@ == packet.subrange(6, 12) && #[trigger] mac_learned(
                mid@.macs,
                after@.macs,
                mac,
                h.src_node,
                now,
            );
        crate::ethernet::an_address_moves_with_its_station(
            mid@.macs,
            after@.macs,
            mac,
            h.src_node,
            now,
            mac,
        );
        assert(lookup(after@.macs, mac) is Some);
    }
    let w = DataPlaneView { metrics: mid@.metrics, macs: mid@.macs, ..after@ };
    if !over_relay(lookup(mid@.peers, h.src_node)->0.paths, addr) {
        let p = lookup(mid@.peers, h.src_node)->0;
        let q = choose|q: DataPeerView| #[trigger]
            crate::dataplane::direct_path_set(p, q, addr, direct, None, now) && w == (
            DataPlaneView { peers: put(mid@.peers, h.src_node, q), ..mid@ });
        crate::dataplane::a_direct_way_is_kept_with_its_key(
            mid@,
            w,
            h.src_node,
            addr,
            direct,
            None,
            now,
            h.src_node,
        );
    }
}

} // verus!
