//! The data plane: the peers of a room, how they are reached, and how a frame to
//! one of them is made.

use crate::bytes::put_bytes;
use crate::common::{NodeId, PacketId, RoomId, SessionId};
use crate::crypto::{nonce_bytes, sealable, sealed, Cipher};
use crate::discovery::DiscoveryManager;
use crate::ethernet::{lively_macs, mac_told, macs_without, L2TableEntry, Mac, MacTable, MacTableEntry};
use crate::flood::{Seen, SeenFloodPackets};
use crate::metrics::{packet_dropped, path_hit, MetricsRegistry, PathKind, RegistryView};
use crate::net::SocketAddr;
use crate::path::{
    best_index, first_metrics, has_path, path_at, recorded, with_path, PathInfo, PathManager,
    PathMetrics,
};
use crate::policy::{TrafficAction, TrafficPolicy};
use crate::proto::{
    header_bytes, views, DataHeader, DataPacketType, PeerInfo, PeerInfoView, DATA_HEADER_SIZE,
    PROTOCOL_VERSION,
};
use crate::qos::{bounded_push, classify_packet, packet_class, QosScheduler, TrafficClass};
use crate::slab::{given_back, PacketDesc, PacketSlab, DEFAULT_FRAME_CAP};
use crate::table::{
    at, at_is, cut, distinct, has_key, lookup, put, put_is_insert, update_is_put, viewed,
    viewed_cut, viewed_lookup, viewed_put, Entry, Table,
};
use vstd::prelude::*;
use vstd::slice::slice_subrange;

verus! {

/// How far a flooded packet goes.
pub const FLOOD_TTL: u8 = 1;

/// Bytes that sealing adds.
pub const AEAD_TAG_LEN: usize = 16;

/// Bytes that fit a frame.
pub const MAX_DATAPLANE_PAYLOAD: usize = DEFAULT_FRAME_CAP - DATA_HEADER_SIZE - AEAD_TAG_LEN;

pub struct DataPeer {
    pub info: PeerInfo,
    pub path_manager: PathManager,
    pub cipher: Option<Cipher>,
    pub session_id: SessionId,
    pub next_nonce: u64,
}

/// What is known of a peer.
#[verifier::ext_equal]
pub struct DataPeerView {
    pub info: PeerInfoView,
    pub paths: Seq<PathInfo>,
    pub active: usize,
    pub cipher: Option<Cipher>,
    pub session_id: SessionId,
    pub next_nonce: u64,
}

impl View for DataPeer {
    type V = DataPeerView;

    open spec fn view(&self) -> DataPeerView {
        DataPeerView {
            info: self.info@,
            paths: self.path_manager.paths@,
            active: self.path_manager.active_index,
            cipher: self.cipher,
            session_id: self.session_id,
            next_nonce: self.next_nonce,
        }
    }
}

impl DataPeer {
    pub fn new(
        info: PeerInfo,
        path_manager: PathManager,
        cipher: Option<Cipher>,
        session_id: SessionId,
        next_nonce: u64,
    ) -> (p: DataPeer)
        ensures
            p == (DataPeer { info, path_manager, cipher, session_id, next_nonce }),
    {
        DataPeer { info, path_manager, cipher, session_id, next_nonce }
    }
}

pub struct DataPlane {
    pub local_node_id: NodeId,
    pub room_id: Option<RoomId>,
    pub peers: Table<NodeId, DataPeer>,
    pub discovery: DiscoveryManager,
    pub metrics: MetricsRegistry,
    pub slab: PacketSlab<DEFAULT_FRAME_CAP>,
    pub scheduler: QosScheduler<PacketDesc>,
    pub next_packet_id: u64,
    pub next_ping_seq: u32,
    pub seen_flood: SeenFloodPackets,
    pub mac_table: MacTable,
    pub traffic_policy: TrafficPolicy,
    pub started: bool,
    pub tun_mtu: u16,
}

/// What the data plane knows.
#[verifier::ext_equal]
pub struct DataPlaneView {
    pub room: Option<RoomId>,
    pub peers: Seq<Entry<NodeId, DataPeerView>>,
    pub metrics: RegistryView,
    pub seen: Seq<Seen>,
    pub macs: Seq<Entry<Mac, MacTableEntry>>,
    pub next_packet_id: u64,
    pub next_ping_seq: u32,
}

impl View for DataPlane {
    type V = DataPlaneView;

    open spec fn view(&self) -> DataPlaneView {
        DataPlaneView {
            room: self.room_id,
            peers: viewed(self.peers.entries()),
            metrics: self.metrics@,
            seen: self.seen_flood.order@,
            macs: self.mac_table.entries(),
            next_packet_id: self.next_packet_id,
            next_ping_seq: self.next_ping_seq,
        }
    }
}

/// A frame that is ready to be sent.
#[derive(Debug, Clone, Copy)]
pub struct Outbound {
    pub desc: PacketDesc,
    pub target: SocketAddr,
}

/// Why a frame could not be made.
#[derive(Debug, Clone, Copy, PartialEq, Eq)]
pub enum SendError {
    UnknownPeer,
    TooLarge,
    NoRoom,
    Exhausted,
}

/// A peer is in order: it is filed under its own node and can be reached.
pub open spec fn peer_ok(e: Entry<NodeId, DataPeer>) -> bool {
    e.key == e.value.info.node_id && e.value.path_manager.wf()
}

/// The first way with the address goes over a relay.
pub open spec fn over_relay(paths: Seq<PathInfo>, addr: SocketAddr) -> bool {
    exists|i: int| #[trigger] path_at(paths, addr, i) && paths[i].is_relay
}

/// The kind of way that an address stands for.
pub open spec fn kind_of(paths: Seq<PathInfo>, addr: SocketAddr) -> PathKind {
    if over_relay(paths, addr) {
        PathKind::Relay
    } else {
        PathKind::Direct
    }
}

/// A peer after an answer of it came over a direct way.
pub open spec fn direct_path_set(
    before: DataPeerView,
    after: DataPeerView,
    addr: SocketAddr,
    metrics: PathMetrics,
    cipher: Option<Cipher>,
    now: u64,
) -> bool {
    &&& recorded(
        with_path(before.paths, addr, false, now),
        after.paths,
        addr,
        metrics,
        Some(now),
    )
    &&& best_index(after.paths, now, after.active as int)
    &&& after == (DataPeerView {
        paths: after.paths,
        active: after.active,
        cipher: if cipher is Some {
            cipher
        } else {
            before.cipher
        },
        ..before
    })
}

/// A peer after a probe of one of its ways: `heard` is when it was answered, if
/// it was.
pub open spec fn path_probed(
    before: DataPeerView,
    after: DataPeerView,
    addr: SocketAddr,
    metrics: PathMetrics,
    heard: Option<u64>,
    now: u64,
) -> bool {
    &&& recorded(before.paths, after.paths, addr, metrics, heard)
    &&& best_index(after.paths, now, after.active as int)
    &&& after == (DataPeerView { paths: after.paths, active: after.active, ..before })
}

/// How a peer is changed by a probe, if it is there.
pub open spec fn probe_noted(
    before: DataPlaneView,
    after: DataPlaneView,
    node: NodeId,
    addr: SocketAddr,
    metrics: PathMetrics,
    heard: Option<u64>,
    now: u64,
) -> bool {
    match lookup(before.peers, node) {
        Some(p) => exists|q: DataPeerView| #[trigger]
            path_probed(p, q, addr, metrics, heard, now) && after == (DataPlaneView {
                peers: put(before.peers, node, q),
                ..before
            }),
        None => after == before,
    }
}

/// How a peer is changed by an answer over a direct way, if it is there.
pub open spec fn direct_path_noted(
    before: DataPlaneView,
    after: DataPlaneView,
    node: NodeId,
    addr: SocketAddr,
    metrics: PathMetrics,
    cipher: Option<Cipher>,
    now: u64,
) -> bool {
    match lookup(before.peers, node) {
        Some(p) => exists|q: DataPeerView| #[trigger]
            direct_path_set(p, q, addr, metrics, cipher, now) && after == (DataPlaneView {
                peers: put(before.peers, node, q),
                ..before
            }),
        None => after == before,
    }
}

/// The header of a frame to a peer.
pub open spec fn header_for(
    local: NodeId,
    room: RoomId,
    p: DataPeerView,
    packet_type: DataPacketType,
    flood: bool,
    next_packet_id: u64,
    payload_len: nat,
) -> DataHeader {
    DataHeader {
        version: PROTOCOL_VERSION,
        flags: 0,
        packet_type,
        reserved: 0,
        ttl: if flood {
            FLOOD_TTL
        } else {
            0
        },
        room_id: room,
        src_node: local,
        dst_node: p.info.node_id,
        origin_node: local,
        session_id: p.session_id,
        nonce: p.next_nonce,
        packet_id: PacketId(
            if flood {
                next_packet_id
            } else {
                0
            },
        ),
        payload_len: (if p.cipher is Some {
            payload_len + AEAD_TAG_LEN
        } else {
            payload_len as int
        }) as u16,
    }
}

/// A frame to a peer: the header, and the payload, sealed under the header where
/// there is a key.
pub open spec fn frame_for(h: DataHeader, p: DataPeerView, payload: Seq<u8>) -> Seq<u8> {
    header_bytes(h) + (match p.cipher {
        Some(c) => sealed(c.key@, nonce_bytes(p.next_nonce), header_bytes(h), payload),
        None => payload,
    })
}

/// The class of a buffer that holds a packet of a class.
pub open spec fn slab_class(c: TrafficClass) -> crate::slab::TrafficClass {
    match c {
        TrafficClass::Control => crate::slab::TrafficClass::Control,
        TrafficClass::Realtime => crate::slab::TrafficClass::Realtime,
        TrafficClass::Interactive => crate::slab::TrafficClass::Interactive,
        TrafficClass::Bulk => crate::slab::TrafficClass::Bulk,
    }
}

/// The class of a buffer that holds a packet of a class.
pub fn map_class(class: TrafficClass) -> (r: crate::slab::TrafficClass)
    ensures
        r == slab_class(class),
{
    match class {
        TrafficClass::Control => crate::slab::TrafficClass::Control,
        TrafficClass::Realtime => crate::slab::TrafficClass::Realtime,
        TrafficClass::Interactive => crate::slab::TrafficClass::Interactive,
        TrafficClass::Bulk => crate::slab::TrafficClass::Bulk,
    }
}

/// Why a frame to a peer cannot be made, if it cannot.
pub open spec fn send_fault(s: DataPlane, node: NodeId, len: nat) -> Option<SendError> {
    if !has_key(s@.peers, node) {
        Some(SendError::UnknownPeer)
    } else if len > MAX_DATAPLANE_PAYLOAD {
        Some(SendError::TooLarge)
    } else if s@.room is None {
        Some(SendError::NoRoom)
    } else if s.slab.free_slots().len() == 0 {
        Some(SendError::Exhausted)
    } else {
        None
    }
}

/// One more item waits in its class.
pub open spec fn waits(
    before: QosScheduler<PacketDesc>,
    after: QosScheduler<PacketDesc>,
    class: TrafficClass,
    desc: PacketDesc,
) -> bool {
    &&& after.capacity() == before.capacity()
    &&& after.queue(class) == if class == TrafficClass::Bulk {
        bounded_push(before.queue(class), before.capacity(), desc)
    } else {
        before.queue(class).push(desc)
    }
    &&& forall|c: TrafficClass| c != class ==> #[trigger] after.queue(c) == before.queue(c)
}

/// What is known once a frame to a peer was made: its counter is used up, and so
/// is the number of a packet that is flooded.
pub open spec fn after_send(
    v: DataPlaneView,
    node: NodeId,
    target: SocketAddr,
    flood: bool,
) -> DataPlaneView {
    let p = lookup(v.peers, node)->0;
    DataPlaneView {
        peers: put(
            v.peers,
            node,
            DataPeerView { next_nonce: p.next_nonce.wrapping_add(1), ..p },
        ),
        metrics: path_hit(v.metrics, node, kind_of(p.paths, target)),
        next_packet_id: if flood {
            v.next_packet_id.wrapping_add(1)
        } else {
            v.next_packet_id
        },
        ..v
    }
}

/// A frame to a peer stands in a buffer and goes to the address asked for, or
/// else by the way in use.
pub open spec fn frame_made(
    before: DataPlane,
    after: DataPlane,
    node: NodeId,
    packet_type: DataPacketType,
    payload: Seq<u8>,
    target: Option<SocketAddr>,
    flood: bool,
    out: Outbound,
) -> bool {
    let p = lookup(before@.peers, node)->0;
    let free = before.slab.free_slots();
    let class = packet_class(packet_type, payload);
    let h = header_for(
        before.local_node_id,
        before@.room->0,
        p,
        packet_type,
        flood,
        before.next_packet_id,
        payload.len(),
    );
    let frame = frame_for(h, p, payload);
    &&& out.target == match target {
        Some(a) => a,
        None => p.paths[p.active as int].addr,
    }
    &&& out.desc == (PacketDesc {
        slot: free[0],
        data_offset: 0,
        payload_offset: DATA_HEADER_SIZE,
        len: frame.len() as usize,
        class: slab_class(class),
    })
    &&& frame.len() == DATA_HEADER_SIZE + h.payload_len
    &&& frame.len() <= DEFAULT_FRAME_CAP
    &&& out.desc.slot < after.slab.capacity()
    &&& after.slab.capacity() == before.slab.capacity()
    &&& after.slab.room() == before.slab.room()
    &&& after.slab.free_slots() == free.subrange(1, free.len() as int)
    &&& forall|k: int|
        0 <= k < before.slab.capacity() && k != free[0] ==> #[trigger] after.slab.bytes(k)
            == before.slab.bytes(k)
    &&& after.slab.bytes(free[0] as int).subrange(0, frame.len() as int) == frame
    &&& waits(before.scheduler, after.scheduler, class, out.desc)
    &&& after@ == after_send(before@, node, out.target, flood)
}

/// How a request for a frame to a peer turns out.
pub open spec fn frame_asked(
    before: DataPlane,
    after: DataPlane,
    node: NodeId,
    packet_type: DataPacketType,
    payload: Seq<u8>,
    target: Option<SocketAddr>,
    flood: bool,
    r: Result<Outbound, SendError>,
) -> bool {
    match send_fault(before, node, payload.len()) {
        Some(e) => {
            &&& r == Err::<Outbound, SendError>(e)
            &&& after@ == before@
            &&& after.slab.free_slots() == before.slab.free_slots()
            &&& after.slab.capacity() == before.slab.capacity()
            &&& after.slab.room() == before.slab.room()
            &&& forall|k: int| #[trigger] after.slab.bytes(k) == before.slab.bytes(k)
            &&& after.scheduler == before.scheduler
        },
        None => r is Ok && frame_made(
            before,
            after,
            node,
            packet_type,
            payload,
            target,
            flood,
            r->Ok_0,
        ),
    }
}

impl DataPlane {
    pub open spec fn wf(self) -> bool {
        &&& self.peers.wf()
        &&& self.metrics.wf()
        &&& self.slab.wf()
        &&& self.seen_flood.wf()
        &&& self.mac_table.wf()
        &&& self.traffic_policy.wf()
        &&& forall|i: int| 0 <= i < self.peers.entries().len() ==> peer_ok(
            #[trigger] self.peers.entries()[i],
        )
    }

    /// What traffic leaves alone.
    pub open spec fn same_setup(self, other: DataPlane) -> bool {
        &&& self.local_node_id == other.local_node_id
        &&& self.discovery == other.discovery
        &&& self.traffic_policy == other.traffic_policy
        &&& self.started == other.started
        &&& self.tun_mtu == other.tun_mtu
    }

    /// Buffers and queue are as they were.
    pub open spec fn same_queue(self, other: DataPlane) -> bool {
        self.slab == other.slab && self.scheduler == other.scheduler
    }

    /// A data plane without a room and without peers.
    pub fn new(
        local_node_id: NodeId,
        discovery: DiscoveryManager,
        metrics: MetricsRegistry,
        tun_mtu: u16,
    ) -> (d: DataPlane)
        requires
            metrics.wf(),
        ensures
            d.wf(),
            d.local_node_id == local_node_id,
            d.discovery == discovery,
            d.tun_mtu == tun_mtu,
            !d.started,
            d.traffic_policy.enabled,
            d.traffic_policy.default_action == TrafficAction::Allow,
            d.traffic_policy.rules@.len() == 0,
            d.slab.capacity() == 4096,
            d.slab.free_slots() == Seq::new(4096, |i: int| i as u32),
            d.scheduler.capacity() == 2048,
            forall|c: TrafficClass| #[trigger]
                d.scheduler.queue(c) == Seq::<PacketDesc>::empty(),
            d@ == (DataPlaneView {
                room: None,
                peers: Seq::empty(),
                metrics: metrics@,
                seen: Seq::empty(),
                macs: Seq::empty(),
                next_packet_id: 1,
                next_ping_seq: 0,
            }),
    {
        let d = DataPlane {
            local_node_id,
            room_id: None,
            peers: Table::new(),
            discovery,
            metrics,
            slab: PacketSlab::default_pool(4096),
            scheduler: QosScheduler::new(2048),
            next_packet_id: 1,
            next_ping_seq: 0,
            seen_flood: SeenFloodPackets::new(),
            mac_table: MacTable::new(),
            traffic_policy: TrafficPolicy::default(),
            started: false,
            tun_mtu,
        };
        assert(d@.peers =~= Seq::<Entry<NodeId, DataPeerView>>::empty());
        d
    }

    /// Whether the loops are to be started, which they are once.
    pub fn start(&mut self) -> (first: bool)
        ensures
            first == !old(self).started,
            *final(self) == (DataPlane { started: true, ..*old(self) }),
    {
        let first = !self.started;
        self.started = true;
        first
    }

    pub fn set_room_id(&mut self, room_id: Option<RoomId>)
        ensures
            *final(self) == (DataPlane { room_id, ..*old(self) }),
    {
        self.room_id = room_id;
    }

    pub fn set_traffic_policy(&mut self, policy: TrafficPolicy)
        ensures
            *final(self) == (DataPlane { traffic_policy: policy, ..*old(self) }),
    {
        self.traffic_policy = policy;
    }

    pub fn traffic_policy(&self) -> (p: &TrafficPolicy)
        ensures
            *p == self.traffic_policy,
    {
        &self.traffic_policy
    }

    /// What is told of the Ethernet addresses that are known.
    pub fn l2_table_snapshot(&mut self, now: u64) -> (r: Vec<L2TableEntry>)
        requires
            old(self).wf(),
        ensures
            final(self).wf(),
            final(self).same_setup(*old(self)),
            final(self).same_queue(*old(self)),
            final(self)@ == (DataPlaneView {
                macs: lively_macs(old(self)@.macs, now),
                ..old(self)@
            }),
            views(r@) == Seq::new(
                final(self)@.macs.len(),
                |i: int| mac_told(final(self)@.macs[i], now),
            ),
    {
        let r = self.mac_table.snapshot(now);
        assert(views(r@) =~= Seq::new(self@.macs.len(), |i: int| mac_told(self@.macs[i], now)));
        r
    }

    pub(crate) proof fn peers_are_distinct(self)
        requires
            self.wf(),
        ensures
            distinct(self.peers.entries()),
            distinct(self@.peers),
    {
        self.peers.keys_distinct();
        if self.peers.entries().len() > 0 {
            viewed_lookup(self.peers.entries(), self.peers.entries()[0].key);
        }
    }

    pub(crate) fn find_peer(&self, node: &NodeId) -> (r: Option<usize>)
        requires
            self.wf(),
        ensures
            r is Some <==> has_key(self@.peers, *node),
            r is Some ==> {
                let i = r->0 as int;
                &&& i < self.peers.entries().len()
                &&& peer_ok(self.peers.entries()[i])
                &&& self.peers.entries()[i].key == *node
                &&& lookup(self@.peers, *node) == Some(self.peers.entries()[i].value@)
                &&& at(self@.peers, *node) == i
            },
            r is None ==> lookup(self@.peers, *node) is None,
    {
        proof {
            self.peers_are_distinct();
            viewed_lookup(self.peers.entries(), *node);
        }
        let r = self.peers.find(node);
        assert(r is Some ==> peer_ok(self.peers.entries()[r->0 as int]));
        r
    }

    /// Takes in what is said of a peer. How it is reached stays, if it is known
    /// already.
    pub fn upsert_peer(&mut self, peer: DataPeer)
        requires
            old(self).wf(),
            peer.path_manager.wf(),
        ensures
            final(self).wf(),
            final(self).same_setup(*old(self)),
            final(self).same_queue(*old(self)),
            final(self)@ == with_peer(old(self)@, peer@),
    {
        let node = peer.info.node_id;
        proof {
            self.peers_are_distinct();
        }
        let ghost before = self.peers.entries();
        match self.find_peer(&node) {
            Some(i) => {
                {
                    let known = self.peers.value_mut(i);
                    known.info = peer.info;
                }
                proof {
                    let after = self.peers.entries();
                    let v = after[i as int].value;
                    update_is_put(before, i as int, v);
                    viewed_put(before, node, v);
                    peers_stay_ok(before, node, v);
                    assert(v@ =~= (DataPeerView { info: peer.info@, ..before[i as int].value@ }));
                }
            },
            None => {
                proof {
                    viewed_put(before, node, peer);
                    peers_stay_ok(before, node, peer);
                }
                self.peers.insert(node, peer);
            },
        }
    }

    /// Forgets a peer, and the addresses behind it.
    pub fn remove_peer(&mut self, node_id: &NodeId)
        requires
            old(self).wf(),
        ensures
            final(self).wf(),
            final(self).same_setup(*old(self)),
            final(self).same_queue(*old(self)),
            final(self)@ == without_peer(old(self)@, *node_id),
    {
        let ghost before = self.peers.entries();
        proof {
            self.peers_are_distinct();
            viewed_cut(before, *node_id);
        }
        let _ = self.peers.remove(node_id);
        self.mac_table.remove_node(node_id);
        proof {
            let after = self.peers.entries();
            assert forall|i: int| 0 <= i < after.len() implies peer_ok(#[trigger] after[i]) by {
                if has_key(before, *node_id) {
                    let p = at(before, *node_id);
                    assert(before[p].key == *node_id);
                    if i == p {
                        assert(after[i] == before[before.len() - 1]);
                    } else {
                        assert(after[i] == before[i]);
                    }
                } else {
                    assert(after[i] == before[i]);
                }
            }
        }
    }

    /// Forgets all peers and addresses.
    pub fn clear_peers(&mut self)
        requires
            old(self).wf(),
        ensures
            final(self).wf(),
            final(self).same_setup(*old(self)),
            final(self).same_queue(*old(self)),
            final(self)@ == without_peers(old(self)@),
    {
        self.peers.clear();
        self.mac_table.clear();
        assert(self@.peers =~= Seq::<Entry<NodeId, DataPeerView>>::empty());
    }

    /// What a way to a peer was measured with, or what is taken for it before it
    /// is measured.
    pub fn path_metrics(&self, node: &NodeId, addr: &SocketAddr) -> (r: Option<PathMetrics>)
        requires
            self.wf(),
        ensures
            measured_on(self@, *node, *addr, r),
    {
        match self.find_peer(node) {
            Some(i) => {
                let pm = &self.peers.nth(i).value.path_manager;
                match pm.position(addr) {
                    Some(k) => Some(pm.paths[k].metrics),
                    None => Some(PathInfo::new(*addr, false, 0).metrics),
                }
            },
            None => None,
        }
    }

    /// Takes in that a peer answered over a direct way, with the measurements
    /// that this leaves the way with, and the key for it, if there is a new one.
    pub fn set_direct_path(
        &mut self,
        node_id: NodeId,
        addr: SocketAddr,
        metrics: PathMetrics,
        cipher: Option<Cipher>,
        now: u64,
    )
        requires
            old(self).wf(),
        ensures
            final(self).wf(),
            final(self).same_setup(*old(self)),
            final(self).same_queue(*old(self)),
            direct_path_noted(old(self)@, final(self)@, node_id, addr, metrics, cipher, now),
    {
        proof {
            self.peers_are_distinct();
        }
        if let Some(i) = self.find_peer(&node_id) {
            let ghost before = self.peers.entries();
            let ghost was = before[i as int].value@;
            let ghost given = cipher;
            {
                let peer = self.peers.value_mut(i);
                let _ = peer.path_manager.add_or_update_path(addr, false, now);
                peer.path_manager.record_success(addr, metrics, now);
                if let Some(c) = cipher {
                    peer.cipher = Some(c);
                }
            }
            proof {
                let v = self.peers.entries()[i as int].value;
                update_is_put(before, i as int, v);
                viewed_put(before, node_id, v);
                peers_stay_ok(before, node_id, v);
                assert(direct_path_set(was, v@, addr, metrics, given, now));
            }
        }
    }

    /// Takes in that a peer may be reached at an address.
    pub fn add_peer_candidate(&mut self, node_id: NodeId, addr: SocketAddr, now: u64)
        requires
            old(self).wf(),
        ensures
            final(self).wf(),
            final(self).same_setup(*old(self)),
            final(self).same_queue(*old(self)),
            final(self)@ == candidate_added(old(self)@, node_id, addr, now),
    {
        proof {
            self.peers_are_distinct();
        }
        if let Some(i) = self.find_peer(&node_id) {
            let ghost before = self.peers.entries();
            {
                let peer = self.peers.value_mut(i);
                let _ = peer.path_manager.add_or_update_path(addr, false, now);
            }
            proof {
                let v = self.peers.entries()[i as int].value;
                update_is_put(before, i as int, v);
                viewed_put(before, node_id, v);
                peers_stay_ok(before, node_id, v);
                let was = before[i as int].value@;
                assert(v@ =~= (DataPeerView {
                    paths: with_path(was.paths, addr, false, now),
                    ..was
                }));
            }
        }
    }

    /// Takes in that a probe of a way was answered, with the measurements that
    /// this leaves the way with.
    pub fn record_path_success(
        &mut self,
        node_id: NodeId,
        addr: SocketAddr,
        metrics: PathMetrics,
        now: u64,
    )
        requires
            old(self).wf(),
        ensures
            final(self).wf(),
            final(self).same_setup(*old(self)),
            final(self).same_queue(*old(self)),
            probe_noted(old(self)@, final(self)@, node_id, addr, metrics, Some(now), now),
    {
        proof {
            self.peers_are_distinct();
        }
        if let Some(i) = self.find_peer(&node_id) {
            let ghost before = self.peers.entries();
            let ghost was = before[i as int].value@;
            {
                let peer = self.peers.value_mut(i);
                peer.path_manager.record_success(addr, metrics, now);
            }
            proof {
                let v = self.peers.entries()[i as int].value;
                update_is_put(before, i as int, v);
                viewed_put(before, node_id, v);
                peers_stay_ok(before, node_id, v);
                assert(path_probed(was, v@, addr, metrics, Some(now), now));
            }
        }
    }

    /// Takes in that a probe of a way was not answered, with the measurements
    /// that this leaves the way with.
    pub fn record_path_failure(
        &mut self,
        node_id: NodeId,
        addr: SocketAddr,
        metrics: PathMetrics,
        now: u64,
    )
        requires
            old(self).wf(),
        ensures
            final(self).wf(),
            final(self).same_setup(*old(self)),
            final(self).same_queue(*old(self)),
            probe_noted(old(self)@, final(self)@, node_id, addr, metrics, None, now),
    {
        proof {
            self.peers_are_distinct();
        }
        if let Some(i) = self.find_peer(&node_id) {
            let ghost before = self.peers.entries();
            let ghost was = before[i as int].value@;
            {
                let peer = self.peers.value_mut(i);
                peer.path_manager.record_failure(addr, metrics, now);
            }
            proof {
                let v = self.peers.entries()[i as int].value;
                update_is_put(before, i as int, v);
                viewed_put(before, node_id, v);
                peers_stay_ok(before, node_id, v);
                assert(path_probed(was, v@, addr, metrics, None, now));
            }
        }
    }

    /// Makes a frame to a peer. It is given back once it went out.
    pub fn send_to_peer(
        &mut self,
        node: NodeId,
        packet_type: DataPacketType,
        payload: &[u8],
        target_override: Option<SocketAddr>,
        flood: bool,
    ) -> (r: Result<Outbound, SendError>)
        requires
            old(self).wf(),
        ensures
            final(self).wf(),
            final(self).same_setup(*old(self)),
            frame_asked(
                *old(self),
                *final(self),
                node,
                packet_type,
                payload@,
                target_override,
                flood,
                r,
            ),
    {
        proof {
            self.peers_are_distinct();
        }
        let i = match self.find_peer(&node) {
            Some(i) => i,
            None => {
                return Err(SendError::UnknownPeer);
            },
        };
        let n: usize = payload.len();
        if n > MAX_DATAPLANE_PAYLOAD {
            return Err(SendError::TooLarge);
        }
        let room_id = match self.room_id {
            Some(r) => r,
            None => {
                return Err(SendError::NoRoom);
            },
        };
        let ghost start = *self;
        let ghost before = self.peers.entries();
        let ghost p = before[i as int].value@;
        let mut desc = match self.slab.acquire() {
            Some(d) => d,
            None => {
                return Err(SendError::Exhausted);
            },
        };
        let class = classify_packet(packet_type, payload);
        desc.class = map_class(class);
        desc.data_offset = 0;
        desc.payload_offset = DATA_HEADER_SIZE;
        let (sealing, target, kind): (bool, SocketAddr, PathKind) = {
            let peer = &self.peers.nth(i).value;
            let target = match target_override {
                Some(a) => a,
                None => peer.path_manager.active_addr(),
            };
            (peer.cipher.is_some(), target, way_kind(&peer.path_manager, &target))
        };
        let payload_len: usize = if sealing {
            n + AEAD_TAG_LEN
        } else {
            n
        };
        let header = DataHeader {
            version: PROTOCOL_VERSION,
            flags: 0,
            packet_type,
            reserved: 0,
            ttl: if flood {
                FLOOD_TTL
            } else {
                0
            },
            room_id,
            src_node: self.local_node_id,
            dst_node: node,
            origin_node: self.local_node_id,
            session_id: self.peers.nth(i).value.session_id,
            nonce: self.peers.nth(i).value.next_nonce,
            packet_id: PacketId(
                if flood {
                    self.next_packet_id
                } else {
                    0
                },
            ),
            payload_len: payload_len as u16,
        };
        proof {
            assert(header == header_for(
                start.local_node_id,
                room_id,
                p,
                packet_type,
                flood,
                start.next_packet_id,
                payload@.len(),
            ));
        }
        let frame = write_frame(&header, &self.peers.nth(i).value.cipher, payload);
        let len: usize = frame.len();
        {
            let slot = self.slab.with_slot_mut(desc);
            for k in 0..len
                invariant
                    len == frame@.len(),
                    len <= DEFAULT_FRAME_CAP,
                    slot@.len() == DEFAULT_FRAME_CAP,
                    forall|j: int| 0 <= j < k ==> #[trigger] slot@[j] == frame@[j],
            {
                slot[k] = frame[k];
            }
        }
        assert(self.slab.bytes(desc.slot as int).subrange(0, len as int) =~= frame@);
        desc.len = len;
        {
            let peer = self.peers.value_mut(i);
            peer.next_nonce = peer.next_nonce.wrapping_add(1);
        }
        proof {
            let v = self.peers.entries()[i as int].value;
            update_is_put(before, i as int, v);
            viewed_put(before, node, v);
            peers_stay_ok(before, node, v);
            assert(v@ =~= (DataPeerView { next_nonce: p.next_nonce.wrapping_add(1), ..p }));
        }
        if flood {
            self.next_packet_id = self.next_packet_id.wrapping_add(1);
        }
        self.scheduler.push(class, desc);
        self.metrics.mark_path_hit(node, kind);
        let out = Outbound { desc, target };
        proof {
            assert(self@ =~= after_send(start@, node, target, flood));
            assert(frame_made(
                *old(self),
                *self,
                node,
                packet_type,
                payload@,
                target_override,
                flood,
                out,
            ));
        }
        Ok(out)
    }

    /// The bytes of a frame that is ready to be sent.
    pub fn frame_bytes(&self, desc: &PacketDesc) -> (s: &[u8])
        requires
            desc.slot < self.slab.capacity(),
            desc.len <= DEFAULT_FRAME_CAP,
        ensures
            s@ == self.slab.bytes(desc.slot as int).subrange(0, desc.len as int),
    {
        let all = self.slab.get_slot_slice(desc);
        slice_subrange(all, 0, desc.len)
    }

    /// Notes that a frame went out: the first in the queue leaves it, and the
    /// buffer is free again.
    pub fn frame_sent(&mut self, desc: PacketDesc)
        requires
            old(self).wf(),
            desc.slot < old(self).slab.capacity(),
        ensures
            final(self).wf(),
            final(self).same_setup(*old(self)),
            final(self)@ == old(self)@,
            final(self).slab.capacity() == old(self).slab.capacity(),
            final(self).slab.room() == old(self).slab.room(),
            forall|k: int| #[trigger] final(self).slab.bytes(k) == old(self).slab.bytes(k),
            final(self).slab.free_slots() == given_back(
                old(self).slab.free_slots(),
                old(self).slab.capacity(),
                desc.slot,
            ),
            taken_from(old(self).scheduler, final(self).scheduler),
    {
        let _ = self.scheduler.pop();
        self.slab.release(desc);
    }

    /// Counts a packet that could not be sent.
    pub fn note_drop(&mut self)
        requires
            old(self).wf(),
        ensures
            final(self).wf(),
            final(self).same_setup(*old(self)),
            final(self).same_queue(*old(self)),
            final(self)@ == (DataPlaneView {
                metrics: packet_dropped(old(self)@.metrics, None),
                ..old(self)@
            }),
    {
        self.metrics.mark_packet_drop(None);
    }
}

/// The first item of a queue left it.
pub open spec fn taken_from(
    before: QosScheduler<PacketDesc>,
    after: QosScheduler<PacketDesc>,
) -> bool {
    let c = before.next_class();
    &&& after.capacity() == before.capacity()
    &&& after.queue(c) == if before.queue(c).len() > 0 {
        before.queue(c).subrange(1, before.queue(c).len() as int)
    } else {
        before.queue(c)
    }
    &&& forall|d: TrafficClass| d != c ==> #[trigger] after.queue(d) == before.queue(d)
}

/// What is known once a peer may be reached at one more address.
pub open spec fn candidate_added(
    v: DataPlaneView,
    node: NodeId,
    addr: SocketAddr,
    now: u64,
) -> DataPlaneView {
    match lookup(v.peers, node) {
        Some(p) => DataPlaneView {
            peers: put(
                v.peers,
                node,
                DataPeerView { paths: with_path(p.paths, addr, false, now), ..p },
            ),
            ..v
        },
        None => v,
    }
}

/// The kind of way that an address stands for.
pub(crate) fn way_kind(paths: &PathManager, addr: &SocketAddr) -> (k: PathKind)
    ensures
        k == kind_of(paths.paths@, *addr),
{
    match paths.position(addr) {
        Some(i) => {
            if paths.paths[i].is_relay {
                assert(path_at(paths.paths@, *addr, i as int));
                PathKind::Relay
            } else {
                proof {
                    first_is_one(paths.paths@, *addr, i as int);
                }
                PathKind::Direct
            }
        },
        None => PathKind::Direct,
    }
}

/// There is one first way with an address.
pub(crate) proof fn first_is_one(paths: Seq<PathInfo>, addr: SocketAddr, i: int)
    requires
        path_at(paths, addr, i),
    ensures
        forall|j: int| #[trigger] path_at(paths, addr, j) ==> j == i,
        over_relay(paths, addr) == paths[i].is_relay,
{
    assert forall|j: int| #[trigger] path_at(paths, addr, j) implies j == i by {
        if j < i {
            assert(paths[j].addr == addr);
        } else if i < j {
            assert(paths[i].addr == addr);
        }
    }
}

pub(crate) proof fn peers_stay_ok(before: Seq<Entry<NodeId, DataPeer>>, k: NodeId, v: DataPeer)
    requires
        forall|i: int| 0 <= i < before.len() ==> peer_ok(#[trigger] before[i]),
        v.info.node_id == k,
        v.path_manager.wf(),
    ensures
        forall|i: int|
            0 <= i < put(before, k, v).len() ==> peer_ok(#[trigger] put(before, k, v)[i]),
{
    let after = put(before, k, v);
    assert forall|i: int| 0 <= i < after.len() implies peer_ok(#[trigger] after[i]) by {
        if i < before.len() {
            assert(peer_ok(before[i]));
        }
    }
}

/// The bytes of a frame with a header whose payload is as long as it says.
fn write_frame(header: &DataHeader, cipher: &Option<Cipher>, payload: &[u8]) -> (frame: Vec<u8>)
    requires
        payload@.len() <= MAX_DATAPLANE_PAYLOAD,
    ensures
        frame@ == header_bytes(*header) + (match *cipher {
            Some(c) => sealed(
                c.key@,
                nonce_bytes(header.nonce),
                header_bytes(*header),
                payload@,
            ),
            None => payload@,
        }),
        frame@.len() == DATA_HEADER_SIZE + payload@.len() + (if cipher is Some {
            AEAD_TAG_LEN as int
        } else {
            0
        }),
{
    let mut head: [u8; 148] = [0u8; 148];
    let ghost blank = head@;
    let _ = header.encode_into(&mut head);
    assert(head@ =~= header_bytes(*header));
    let mut frame: Vec<u8> = Vec::new();
    crate::bytes::push_all(&mut frame, head.as_slice());
    assert(frame@ =~= header_bytes(*header));
    match cipher {
        Some(c) => {
            let mut body: Vec<u8> = Vec::new();
            crate::bytes::push_all(&mut body, payload);
            let tag: [u8; 16] = [0u8; 16];
            crate::bytes::push_all(&mut body, tag.as_slice());
            let n: usize = payload.len();
            assert(body@.subrange(0, n as int) =~= payload@);
            assert(sealable(n as nat));
            let _ = c.encrypt_in_place(header.nonce, head.as_slice(), body.as_mut_slice(), n);
            let ghost s = sealed(
                c.key@,
                nonce_bytes(header.nonce),
                header_bytes(*header),
                payload@,
            );
            assert(body@ =~= s);
            crate::bytes::push_all(&mut frame, body.as_slice());
        },
        None => {
            crate::bytes::push_all(&mut frame, payload);
        },
    }
    frame
}

/// What is sent to a peer goes to it in the room, says who sent it, and has the next
/// number of the peer; if it is flooded it goes one hop, under the next number of a
/// flooded packet. The payload follows the header of 148 bytes: sealed with the key
/// of the peer under this number, which makes it 16 bytes longer, or as it is
/// where there is no key.
pub proof fn frames_say_whose_they_are(
    before: DataPlane,
    after: DataPlane,
    node: NodeId,
    packet_type: DataPacketType,
    payload: Seq<u8>,
    target: Option<SocketAddr>,
    flood: bool,
    r: Result<Outbound, SendError>,
)
    requires
        before.wf(),
        frame_asked(before, after, node, packet_type, payload, target, flood, r),
        r is Ok,
    ensures
        ({
            let p = lookup(before@.peers, node)->0;
            let out = r->Ok_0;
            let bytes = after.slab.bytes(out.desc.slot as int).subrange(0, out.desc.len as int);
            exists|h: DataHeader|
                {
                    &&& bytes.subrange(0, 148) == #[trigger] header_bytes(h)
                    &&& h.version == PROTOCOL_VERSION
                    &&& h.packet_type == packet_type
                    &&& before@.room == Some(h.room_id)
                    &&& h.src_node == before.local_node_id
                    &&& h.origin_node == before.local_node_id
                    &&& h.dst_node == node
                    &&& h.session_id == p.session_id
                    &&& h.nonce == p.next_nonce
                    &&& h.ttl == (if flood {
                        1int
                    } else {
                        0
                    })
                    &&& h.packet_id.0 == (if flood {
                        before.next_packet_id
                    } else {
                        0
                    })
                    &&& p.cipher is None ==> h.payload_len == payload.len() && bytes.subrange(
                        148,
                        bytes.len() as int,
                    ) == payload
                    &&& p.cipher is Some ==> h.payload_len == payload.len() + 16 && bytes.subrange(
                        148,
                        bytes.len() as int,
                    ) == sealed(
                        p.cipher->0.key@,
                        nonce_bytes(h.nonce),
                        bytes.subrange(0, 148),
                        payload,
                    )
                    &&& bytes.len() == 148 + h.payload_len
                }
        }),
        ({
            let p = lookup(before@.peers, node)->0;
            &&& target is Some ==> r->Ok_0.target == target->0
            &&& target is None ==> r->Ok_0.target == p.paths[p.active as int].addr
        }),
{
    let p = lookup(before@.peers, node)->0;
    let out = r->Ok_0;
    let h = header_for(
        before.local_node_id,
        before@.room->0,
        p,
        packet_type,
        flood,
        before.next_packet_id,
        payload.len(),
    );
    let frame = frame_for(h, p, payload);
    let bytes = after.slab.bytes(out.desc.slot as int).subrange(0, out.desc.len as int);
    assert(bytes == frame);
    assert(header_bytes(h).len() == 148);
    assert(bytes.subrange(0, 148) =~= header_bytes(h));
    let body = match p.cipher {
        Some(c) => sealed(c.key@, nonce_bytes(p.next_nonce), header_bytes(h), payload),
        None => payload,
    };
    assert(bytes.subrange(148, bytes.len() as int) =~= body);
    before.peers_are_distinct();
    viewed_lookup(before.peers.entries(), node);
    let i = at(before.peers.entries(), node);
    assert(before.peers.entries()[i].key == node);
    assert(peer_ok(before.peers.entries()[i]));
    assert(h.dst_node == node);
}

/// No number is used twice: after a frame the peer has the next one, and so have
/// flooded packets after a flooded one. Nothing else changes for any peer.
pub proof fn numbers_are_used_once(
    before: DataPlane,
    after: DataPlane,
    node: NodeId,
    packet_type: DataPacketType,
    payload: Seq<u8>,
    target: Option<SocketAddr>,
    flood: bool,
    r: Result<Outbound, SendError>,
    other: NodeId,
)
    requires
        before.wf(),
        frame_asked(before, after, node, packet_type, payload, target, flood, r),
        r is Ok,
        other != node,
        lookup(before@.peers, node)->0.next_nonce < u64::MAX,
        before@.next_packet_id < u64::MAX,
    ensures
        lookup(after@.peers, node)->0.next_nonce == lookup(before@.peers, node)->0.next_nonce + 1,
        lookup(after@.peers, node)->0.cipher == lookup(before@.peers, node)->0.cipher,
        lookup(after@.peers, node)->0.paths == lookup(before@.peers, node)->0.paths,
        lookup(after@.peers, other) == lookup(before@.peers, other),
        flood ==> after@.next_packet_id == before@.next_packet_id + 1,
        !flood ==> after@.next_packet_id == before@.next_packet_id,
        after@.next_ping_seq == before@.next_ping_seq,
        after@.room == before@.room && after@.macs == before@.macs && after@.seen == before@.seen,
{
    before.peers_are_distinct();
    let p = lookup(before@.peers, node)->0;
    put_is_insert(
        before@.peers,
        node,
        DataPeerView { next_nonce: p.next_nonce.wrapping_add(1), ..p },
    );
}

/// A frame is made exactly if the peer is known, the payload is at most 1436 bytes
/// long, there is a room and a buffer is free; otherwise nothing changes, and the
/// first of these that is missing is told.
pub proof fn frames_are_made_where_they_can_be(
    before: DataPlane,
    after: DataPlane,
    node: NodeId,
    packet_type: DataPacketType,
    payload: Seq<u8>,
    target: Option<SocketAddr>,
    flood: bool,
    r: Result<Outbound, SendError>,
)
    requires
        frame_asked(before, after, node, packet_type, payload, target, flood, r),
    ensures
        r is Ok <==> has_key(before@.peers, node) && payload.len() <= 1436 && before@.room is Some
            && before.slab.free_slots().len() > 0,
        r is Err ==> after@ == before@ && after.scheduler == before.scheduler,
        r == Err::<Outbound, SendError>(SendError::UnknownPeer) <==> !has_key(before@.peers, node),
        r == Err::<Outbound, SendError>(SendError::TooLarge) <==> has_key(before@.peers, node)
            && payload.len() > 1436,
        r == Err::<Outbound, SendError>(SendError::NoRoom) <==> has_key(before@.peers, node)
            && payload.len() <= 1436 && before@.room is None,
{
}

/// A frame waits behind those of its class that were made before it, and takes the
/// buffer that was free for longest.
pub proof fn frames_wait_their_turn(
    before: DataPlane,
    after: DataPlane,
    node: NodeId,
    packet_type: DataPacketType,
    payload: Seq<u8>,
    target: Option<SocketAddr>,
    flood: bool,
    r: Result<Outbound, SendError>,
)
    requires
        frame_asked(before, after, node, packet_type, payload, target, flood, r),
        r is Ok,
    ensures
        ({
            let class = packet_class(packet_type, payload);
            let was = before.scheduler.queue(class);
            let is = after.scheduler.queue(class);
            &&& is.last() == r->Ok_0.desc
            &&& class != TrafficClass::Bulk ==> is == was.push(r->Ok_0.desc)
            &&& class == TrafficClass::Bulk && was.len() < before.scheduler.capacity() ==> is
                == was.push(r->Ok_0.desc)
            &&& forall|c: TrafficClass|
                c != class ==> #[trigger] after.scheduler.queue(c) == before.scheduler.queue(c)
            &&& r->Ok_0.desc.slot == before.slab.free_slots()[0]
            &&& !after.slab.free_slots().contains(before.slab.free_slots()[0])
                || !before.slab.free_slots().no_duplicates()
        }),
{
    let free = before.slab.free_slots();
    let rest = after.slab.free_slots();
    if free.no_duplicates() && rest.contains(free[0]) {
        let k = rest.index_of(free[0]);
        assert(rest[k] == free[k + 1]);
    }
}

/// A packet counts as sent over the relay if the way by its address leads over it,
/// and as sent directly otherwise; an address that no way has is a direct one.
pub proof fn ways_over_the_relay_are_told(paths: Seq<PathInfo>, addr: SocketAddr, i: int)
    ensures
        (forall|j: int| 0 <= j < paths.len() ==> (#[trigger] paths[j]).addr != addr) ==> kind_of(
            paths,
            addr,
        ) == PathKind::Direct,
        0 <= i < paths.len() && paths[i].addr == addr && (forall|j: int|
            0 <= j < i ==> (#[trigger] paths[j]).addr != addr) ==> kind_of(paths, addr) == (
        if paths[i].is_relay {
            PathKind::Relay
        } else {
            PathKind::Direct
        }),
{
    if 0 <= i < paths.len() && paths[i].addr == addr && (forall|j: int|
        0 <= j < i ==> (#[trigger] paths[j]).addr != addr) {
        assert(path_at(paths, addr, i));
        first_is_one(paths, addr, i);
    }
}

/// A direct way that was found is known then and was heard of at the time; the key
/// that came with it is used from then on, and without one the old key stays.
pub proof fn a_direct_way_is_kept_with_its_key(
    before: DataPlaneView,
    after: DataPlaneView,
    node: NodeId,
    addr: SocketAddr,
    metrics: PathMetrics,
    cipher: Option<Cipher>,
    now: u64,
    other: NodeId,
)
    requires
        distinct(before.peers),
        has_key(before.peers, node),
        direct_path_noted(before, after, node, addr, metrics, cipher, now),
    ensures
        ({
            let p = lookup(before.peers, node)->0;
            let q = lookup(after.peers, node)->0;
            &&& cipher is Some ==> q.cipher == cipher
            &&& cipher is None ==> q.cipher == p.cipher
            &&& q.next_nonce == p.next_nonce && q.session_id == p.session_id && q.info == p.info
            &&& exists|i: int|
                0 <= i < q.paths.len() && (#[trigger] q.paths[i]).addr == addr
                    && q.paths[i].last_success == now && q.paths[i].metrics == metrics
            &&& other != node ==> lookup(after.peers, other) == lookup(before.peers, other)
            &&& after.room == before.room && after.metrics == before.metrics && after.macs
                == before.macs && after.next_packet_id == before.next_packet_id
        }),
{
    let p = lookup(before.peers, node)->0;
    let q = choose|q: DataPeerView| #[trigger]
        direct_path_set(p, q, addr, metrics, cipher, now) && after == (DataPlaneView {
            peers: put(before.peers, node, q),
            ..before
        });
    put_is_insert(before.peers, node, q);
    let more = with_path(p.paths, addr, false, now);
    assert(has_path(more, addr)) by {
        if !has_path(p.paths, addr) {
            assert(more[p.paths.len() as int].addr == addr);
        }
    }
    crate::path::a_probe_changes_its_way_only(more, q.paths, addr, metrics, Some(now));
    let i = choose|i: int| #[trigger]
        path_at(more, addr, i) && q.paths == more.update(
            i,
            PathInfo { metrics, last_success: now, ..more[i] },
        );
    assert(q.paths[i].addr == addr);
}

/// A way that a peer offers is added to its ways; nothing else changes, neither for
/// it nor for anybody else.
pub proof fn offered_ways_are_added(
    v: DataPlaneView,
    node: NodeId,
    addr: SocketAddr,
    now: u64,
    other: NodeId,
)
    requires
        distinct(v.peers),
        has_key(v.peers, node),
        other != node,
    ensures
        ({
            let w = candidate_added(v, node, addr, now);
            let p = lookup(v.peers, node)->0;
            let q = lookup(w.peers, node)->0;
            &&& q.active == p.active && q.cipher == p.cipher && q.next_nonce == p.next_nonce
            &&& q.info == p.info && q.session_id == p.session_id
            &&& has_path(q.paths, addr)
            &&& q.paths.len() <= p.paths.len() + 1
            &&& forall|i: int| 0 <= i < p.paths.len() ==> #[trigger] q.paths[i] == p.paths[i]
            &&& q.paths.len() > p.paths.len() ==> !q.paths.last().is_relay
            &&& lookup(w.peers, other) == lookup(v.peers, other)
            &&& w.metrics == v.metrics && w.room == v.room
        }),
{
    let p = lookup(v.peers, node)->0;
    let more = with_path(p.paths, addr, false, now);
    put_is_insert(v.peers, node, DataPeerView { paths: more, ..p });
    if !has_path(p.paths, addr) {
        assert(more[p.paths.len() as int].addr == addr);
    }
}

/// The class that a frame is sent under keeps its name.
pub proof fn classes_keep_their_rank(a: TrafficClass, b: TrafficClass)
    ensures
        slab_class(a) == slab_class(b) ==> a == b,
        slab_class(TrafficClass::Control) == crate::slab::TrafficClass::Control,
        slab_class(TrafficClass::Realtime) == crate::slab::TrafficClass::Realtime,
        slab_class(TrafficClass::Interactive) == crate::slab::TrafficClass::Interactive,
        slab_class(TrafficClass::Bulk) == crate::slab::TrafficClass::Bulk,
{
}

/// The peers with one added, or told anew.
pub open spec fn with_peer(v: DataPlaneView, peer: DataPeerView) -> DataPlaneView {
    DataPlaneView {
        peers: put(
            v.peers,
            peer.info.node_id,
            match lookup(v.peers, peer.info.node_id) {
                Some(known) => DataPeerView { info: peer.info, ..known },
                None => peer,
            },
        ),
        ..v
    }
}

/// The peers without one, and the stations without those behind it.
pub open spec fn without_peer(v: DataPlaneView, id: NodeId) -> DataPlaneView {
    DataPlaneView { peers: cut(v.peers, id), macs: macs_without(v.macs, id), ..v }
}

/// No peer is left, and no station.
pub open spec fn without_peers(v: DataPlaneView) -> DataPlaneView {
    DataPlaneView { peers: Seq::empty(), macs: Seq::empty(), ..v }
}

/// What was measured on the way to a peer by an address.
pub open spec fn measured_on(
    v: DataPlaneView,
    node: NodeId,
    addr: SocketAddr,
    r: Option<PathMetrics>,
) -> bool {
    match lookup(v.peers, node) {
        Some(p) => {
            &&& r is Some
            &&& has_path(p.paths, addr) ==> exists|i: int| #[trigger]
                path_at(p.paths, addr, i) && r->0 == p.paths[i].metrics
            &&& !has_path(p.paths, addr) ==> r->0 == first_metrics(false)
        },
        None => r is None,
    }
}

/// A peer that is added is there; of one that was there only what is told of it changes, not
/// its key, its ways or its numbers. A peer that is taken away is gone, with the stations
/// behind it. The others stay.
pub proof fn peers_come_and_go_one_by_one(
    v: DataPlaneView,
    peer: DataPeerView,
    other: NodeId,
    e: Entry<Mac, MacTableEntry>,
)
    requires
        distinct(v.peers),
        other != peer.info.node_id,
    ensures
        ({
            let id = peer.info.node_id;
            let w = with_peer(v, peer);
            let u = without_peer(v, id);
            let was = lookup(v.peers, id);
            let is = lookup(w.peers, id)->0;
            &&& has_key(w.peers, id)
            &&& is.info == peer.info
            &&& was is None ==> is == peer
            &&& was is Some ==> is.cipher == was->0.cipher && is.paths == was->0.paths && is.active
                == was->0.active && is.next_nonce == was->0.next_nonce && is.session_id
                == was->0.session_id
            &&& lookup(w.peers, other) == lookup(v.peers, other)
            &&& !has_key(u.peers, id)
            &&& lookup(u.peers, other) == lookup(v.peers, other)
            &&& u.macs.contains(e) <==> v.macs.contains(e) && e.value.node_id != id
            &&& w.macs == v.macs && w.room == v.room && u.room == v.room && u.metrics == v.metrics
            &&& without_peers(v).peers.len() == 0 && without_peers(v).macs.len() == 0
            &&& without_peers(v).room == v.room && without_peers(v).metrics == v.metrics
        }),
{
    let id = peer.info.node_id;
    put_is_insert(
        v.peers,
        id,
        match lookup(v.peers, id) {
            Some(known) => DataPeerView { info: peer.info, ..known },
            None => peer,
        },
    );
    crate::table::cut_is_remove(v.peers, id);
    assert(lookup(cut(v.peers, id), other) == lookup(v.peers, other));
    crate::ethernet::only_its_addresses_go_with_a_peer(v.macs, id, e);
}

/// What was measured on a way is told of the first way by the address; of a way that is not
/// known, what is taken for granted of a direct one; of an unknown peer, nothing.
pub proof fn measurements_are_those_of_the_way(
    v: DataPlaneView,
    node: NodeId,
    addr: SocketAddr,
    r: Option<PathMetrics>,
    i: int,
)
    requires
        measured_on(v, node, addr, r),
    ensures
        r is Some <==> has_key(v.peers, node),
        ({
            let paths = lookup(v.peers, node)->0.paths;
            &&& r is Some && 0 <= i < paths.len() && paths[i].addr == addr && (forall|j: int|
                0 <= j < i ==> (#[trigger] paths[j]).addr != addr) ==> r->0 == paths[i].metrics
            &&& r is Some && (forall|j: int|
                0 <= j < paths.len() ==> (#[trigger] paths[j]).addr != addr) ==> r->0.loss_bits == 0
                && r->0.jitter_bits == 0
        }),
{
    let paths = lookup(v.peers, node)->0.paths;
    if r is Some && 0 <= i < paths.len() && paths[i].addr == addr && (forall|j: int|
        0 <= j < i ==> (#[trigger] paths[j]).addr != addr) {
        assert(path_at(paths, addr, i));
        assert(has_path(paths, addr));
        first_is_one(paths, addr, i);
    }
}

/// A frame that was sent is the first of the highest class that waits; the others keep their
/// places.
pub proof fn sent_frames_leave_the_queue(
    before: QosScheduler<PacketDesc>,
    after: QosScheduler<PacketDesc>,
    c: TrafficClass,
)
    requires
        taken_from(before, after),
    ensures
        before.queue(TrafficClass::Control).len() > 0 ==> after.queue(TrafficClass::Control).len()
            == before.queue(TrafficClass::Control).len() - 1 && (c != TrafficClass::Control
            ==> after.queue(c) == before.queue(c)),
        before.queue(TrafficClass::Control).len() == 0 && before.queue(TrafficClass::Realtime).len()
            > 0 ==> after.queue(TrafficClass::Realtime).len() == before.queue(
            TrafficClass::Realtime,
        ).len() - 1 && (c != TrafficClass::Realtime ==> after.queue(c) == before.queue(c)),
        before.queue(TrafficClass::Control).len() == 0 && before.queue(TrafficClass::Realtime).len()
            == 0 && before.queue(TrafficClass::Interactive).len() > 0 ==> after.queue(
            TrafficClass::Interactive,
        ).len() == before.queue(TrafficClass::Interactive).len() - 1,
        after.capacity() == before.capacity(),
        forall|k: int|
            0 <= k < after.queue(c).len() ==> before.queue(c).contains(#[trigger] after.queue(c)[k]),
{
    assert forall|k: int| 0 <= k < after.queue(c).len() implies before.queue(c).contains(
        #[trigger] after.queue(c)[k],
    ) by {
        if after.queue(c).len() < before.queue(c).len() {
            assert(after.queue(c)[k] == before.queue(c)[k + 1]);
        } else {
            assert(after.queue(c)[k] == before.queue(c)[k]);
        }
    }
}

/// A probe concerns the peer that it was meant for, whose key and numbers stay; of an unknown
/// peer nothing is noted.
pub proof fn probes_concern_one_peer(
    before: DataPlaneView,
    after: DataPlaneView,
    node: NodeId,
    addr: SocketAddr,
    metrics: PathMetrics,
    heard: Option<u64>,
    now: u64,
    other: NodeId,
)
    requires
        distinct(before.peers),
        other != node,
        probe_noted(before, after, node, addr, metrics, heard, now),
    ensures
        !has_key(before.peers, node) ==> after == before,
        lookup(after.peers, other) == lookup(before.peers, other),
        has_key(before.peers, node) ==> ({
            let p = lookup(before.peers, node)->0;
            let q = lookup(after.peers, node);
            &&& q is Some
            &&& q->0.info == p.info
            &&& q->0.cipher == p.cipher
            &&& q->0.session_id == p.session_id
            &&& q->0.next_nonce == p.next_nonce
        }),
        after.room == before.room && after.macs == before.macs && after.metrics == before.metrics,
{
    if has_key(before.peers, node) {
        let p = lookup(before.peers, node)->0;
        let q = choose|q: DataPeerView| #[trigger]
            path_probed(p, q, addr, metrics, heard, now) && after == (DataPlaneView {
                peers: put(before.peers, node, q),
                ..before
            });
        put_is_insert(before.peers, node, q);
    }
}

} // verus!
