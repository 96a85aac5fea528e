//! The edge: what it knows of its room, its peers and its supernode, and how
//! entering and leaving a room changes it.

use crate::common::{dotted, nat_type_name, NatType, NodeId, RoomId, SessionId, VirtualIp};
use crate::config::{BackendConfig, VirtualLanConfig};
use crate::crypto::{derive_public_key, x25519_public, NoiseSession};
use crate::dataplane::{DataPeer, DataPeerView, DataPlane, DataPlaneView};
use crate::discovery::{discovery_routes, DiscoveryManager};
use crate::endpoints::{
    backend_request_label, normalize_supernodes, normalize_tun_mtu, others, requested_mode, without_repeats,
};
use crate::invite::copy_texts;
use crate::metrics::{blank_registry, MetricsRegistry, PortMappingMetrics, RegistryView};
use crate::nat_probe::{
    external_addr, merge_mapped_candidate, merged_candidates, preferred_external_addr,
    NatFingerprint,
};
use crate::net::{addr_text, parsed_net, Ipv4Net, SocketAddr};
use crate::path::{new_path, PathInfo, PathManager};
use crate::policy::TrafficPolicy;
use crate::port_mapping::{protocol_label, PortMappingSnapshot};
use crate::proto::{
    copy_candidates, copy_peer, views, Candidate, CandidateKind, CandidateSource, ControlFrame,
    FrameView, OutView, Outgoing, PeerInfo, PeerInfoView,
};
use crate::supernode::networks_of;
use crate::table::{
    at, at_is, cut, cut_is_remove, distinct, has_key, lookup, put, put_is_insert, update_is_put,
    viewed, viewed_cut, viewed_lookup, viewed_put, Entry, Table,
};
use crate::text::{hex_text, opt_text, same_text, texts};
use crate::tun::{device_mode_label, mode_label, mtu_floor, TunDeviceMode};
use vstd::prelude::*;

verus! {

/// What is known of a peer. Its key is kept by the data plane; here it is only
/// noted that there is one.
pub struct PeerState {
    pub info: PeerInfo,
    pub candidates: Vec<Candidate>,
    pub direct_addr: Option<SocketAddr>,
    pub keyed: bool,
    pub session_id: SessionId,
    pub handshake: Option<NoiseSession>,
    pub pending_session_key: Option<[u8; 32]>,
}

/// What is known of a peer.
#[verifier::ext_equal]
pub struct PeerStateView {
    pub info: PeerInfoView,
    pub candidates: Seq<Candidate>,
    pub direct_addr: Option<SocketAddr>,
    pub keyed: bool,
    pub session_id: SessionId,
    pub session: Option<NoiseSession>,
    pub pending_session_key: Option<[u8; 32]>,
}

impl View for PeerState {
    type V = PeerStateView;

    open spec fn view(&self) -> PeerStateView {
        PeerStateView {
            info: self.info@,
            candidates: self.candidates@,
            direct_addr: self.direct_addr,
            keyed: self.keyed,
            session_id: self.session_id,
            session: self.handshake,
            pending_session_key: self.pending_session_key,
        }
    }
}

/// A peer that nothing has been heard of yet.
pub open spec fn fresh_peer(info: PeerInfoView) -> PeerStateView {
    PeerStateView {
        info,
        candidates: Seq::empty(),
        direct_addr: None,
        keyed: false,
        session_id: SessionId(0),
        session: None,
        pending_session_key: None,
    }
}

/// A peer that nothing has been heard of yet.
pub fn build_peer_state(peer: PeerInfo) -> (p: PeerState)
    ensures
        p@ == fresh_peer(peer@),
        p.info == peer,
{
    let p = PeerState {
        info: peer,
        candidates: Vec::new(),
        direct_addr: None,
        keyed: false,
        session_id: SessionId(0),
        handshake: None,
        pending_session_key: None,
    };
    assert(p@ =~= fresh_peer(peer@));
    p
}

/// What is told of a running edge; times are in nanoseconds.
#[derive(Debug)]
pub struct RuntimeState {
    pub supernode_addr: String,
    pub nat_type: String,
    pub tun_name: Option<String>,
    pub virtual_ip: Option<String>,
    pub route_cidr: Option<String>,
    pub route_installed: bool,
    pub discovery_routes_installed: bool,
    pub discovery_route_errors: Vec<String>,
    pub supernode_reachable: bool,
    pub backend_requested: String,
    pub backend_active: String,
    pub backend_degraded: bool,
    pub effective_mtu: u16,
    pub supernodes: Vec<String>,
    pub virtual_interface_preference_requested: bool,
    pub virtual_interface_preference_supported: bool,
    pub virtual_interface_preference_applied: bool,
    pub virtual_interface_preference_error: Option<String>,
    pub last_supernode_activity_at: Option<u64>,
    pub port_mapping_acquired: bool,
    pub port_mapping_protocol: Option<String>,
    pub port_mapping_external_addr: Option<String>,
    pub port_mapping_lease_expires_at: Option<u64>,
    pub last_error: Option<String>,
}

/// What is told of a running edge.
#[verifier::ext_equal]
pub struct RuntimeView {
    pub supernode_addr: Seq<char>,
    pub nat_type: Seq<char>,
    pub tun_name: Option<Seq<char>>,
    pub virtual_ip: Option<Seq<char>>,
    pub route_cidr: Option<Seq<char>>,
    pub route_installed: bool,
    pub discovery_routes_installed: bool,
    pub discovery_route_errors: Seq<Seq<char>>,
    pub supernode_reachable: bool,
    pub backend_requested: Seq<char>,
    pub backend_active: Seq<char>,
    pub backend_degraded: bool,
    pub effective_mtu: u16,
    pub supernodes: Seq<Seq<char>>,
    pub virtual_interface_preference_requested: bool,
    pub virtual_interface_preference_supported: bool,
    pub virtual_interface_preference_applied: bool,
    pub virtual_interface_preference_error: Option<Seq<char>>,
    pub last_supernode_activity_at: Option<u64>,
    pub port_mapping_acquired: bool,
    pub port_mapping_protocol: Option<Seq<char>>,
    pub port_mapping_external_addr: Option<Seq<char>>,
    pub port_mapping_lease_expires_at: Option<u64>,
    pub last_error: Option<Seq<char>>,
}

impl View for RuntimeState {
    type V = RuntimeView;

    open spec fn view(&self) -> RuntimeView {
        RuntimeView {
            supernode_addr: self.supernode_addr@,
            nat_type: self.nat_type@,
            tun_name: opt_text(self.tun_name),
            virtual_ip: opt_text(self.virtual_ip),
            route_cidr: opt_text(self.route_cidr),
            route_installed: self.route_installed,
            discovery_routes_installed: self.discovery_routes_installed,
            discovery_route_errors: texts(self.discovery_route_errors@),
            supernode_reachable: self.supernode_reachable,
            backend_requested: self.backend_requested@,
            backend_active: self.backend_active@,
            backend_degraded: self.backend_degraded,
            effective_mtu: self.effective_mtu,
            supernodes: texts(self.supernodes@),
            virtual_interface_preference_requested: self.virtual_interface_preference_requested,
            virtual_interface_preference_supported: self.virtual_interface_preference_supported,
            virtual_interface_preference_applied: self.virtual_interface_preference_applied,
            virtual_interface_preference_error: opt_text(self.virtual_interface_preference_error),
            last_supernode_activity_at: self.last_supernode_activity_at,
            port_mapping_acquired: self.port_mapping_acquired,
            port_mapping_protocol: opt_text(self.port_mapping_protocol),
            port_mapping_external_addr: opt_text(self.port_mapping_external_addr),
            port_mapping_lease_expires_at: self.port_mapping_lease_expires_at,
            last_error: opt_text(self.last_error),
        }
    }
}

/// Nothing is known yet.
pub open spec fn blank_runtime() -> RuntimeView {
    RuntimeView {
        supernode_addr: Seq::empty(),
        nat_type: Seq::empty(),
        tun_name: None,
        virtual_ip: None,
        route_cidr: None,
        route_installed: false,
        discovery_routes_installed: false,
        discovery_route_errors: Seq::empty(),
        supernode_reachable: false,
        backend_requested: Seq::empty(),
        backend_active: Seq::empty(),
        backend_degraded: false,
        effective_mtu: 0,
        supernodes: Seq::empty(),
        virtual_interface_preference_requested: false,
        virtual_interface_preference_supported: false,
        virtual_interface_preference_applied: false,
        virtual_interface_preference_error: None,
        last_supernode_activity_at: None,
        port_mapping_acquired: false,
        port_mapping_protocol: None,
        port_mapping_external_addr: None,
        port_mapping_lease_expires_at: None,
        last_error: None,
    }
}

impl Default for RuntimeState {
    fn default() -> (r: RuntimeState)
        ensures
            r@ == blank_runtime(),
    {
        let r = RuntimeState {
            supernode_addr: String::new(),
            nat_type: String::new(),
            tun_name: None,
            virtual_ip: None,
            route_cidr: None,
            route_installed: false,
            discovery_routes_installed: false,
            discovery_route_errors: Vec::new(),
            supernode_reachable: false,
            backend_requested: String::new(),
            backend_active: String::new(),
            backend_degraded: false,
            effective_mtu: 0,
            supernodes: Vec::new(),
            virtual_interface_preference_requested: false,
            virtual_interface_preference_supported: false,
            virtual_interface_preference_applied: false,
            virtual_interface_preference_error: None,
            last_supernode_activity_at: None,
            port_mapping_acquired: false,
            port_mapping_protocol: None,
            port_mapping_external_addr: None,
            port_mapping_lease_expires_at: None,
            last_error: None,
        };
        assert(r@ =~= blank_runtime());
        r
    }
}

pub struct Edge {
    pub node_id: NodeId,
    pub private_key: [u8; 32],
    pub nickname: String,
    pub tun_name: String,
    pub supernodes: Vec<SocketAddr>,
    pub stun_servers: Vec<String>,
    pub tun_mtu: u16,
    pub backend: BackendConfig,
    pub virtual_lan: VirtualLanConfig,
    pub supernode_addr: SocketAddr,
    pub peers: Table<NodeId, PeerState>,
    pub room_id: Option<RoomId>,
    pub runtime: RuntimeState,
    pub dataplane: DataPlane,
    pub active_invite: Option<String>,
    pub pending_create: bool,
    pub pending_join: bool,
    pub pending_rooms: bool,
    pub pending_room_name: Option<String>,
    pub nat: NatFingerprint,
    pub base_candidates: Vec<Candidate>,
    pub advertised: Vec<Candidate>,
    pub last_activity: u64,
    pub reconnecting: bool,
    pub spent_keys: Vec<[u8; 32]>,
}

/// What an edge knows.
#[verifier::ext_equal]
pub struct EdgeView {
    pub supernode: SocketAddr,
    pub peers: Seq<Entry<NodeId, PeerStateView>>,
    pub room: Option<RoomId>,
    pub runtime: RuntimeView,
    pub data: DataPlaneView,
    pub invite: Option<Seq<char>>,
    pub pending_create: bool,
    pub pending_join: bool,
    pub pending_rooms: bool,
    pub pending_room_name: Option<Seq<char>>,
    pub nat_type: NatType,
    pub public_addrs: Seq<SocketAddr>,
    pub base: Seq<Candidate>,
    pub advertised: Seq<Candidate>,
    pub last_activity: u64,
    pub reconnecting: bool,
    pub spent: Seq<[u8; 32]>,
}

impl View for Edge {
    type V = EdgeView;

    open spec fn view(&self) -> EdgeView {
        EdgeView {
            supernode: self.supernode_addr,
            peers: viewed(self.peers.entries()),
            room: self.room_id,
            runtime: self.runtime@,
            data: self.dataplane@,
            invite: opt_text(self.active_invite),
            pending_create: self.pending_create,
            pending_join: self.pending_join,
            pending_rooms: self.pending_rooms,
            pending_room_name: opt_text(self.pending_room_name),
            nat_type: self.nat.nat_type,
            public_addrs: self.nat.public_addrs@,
            base: self.base_candidates@,
            advertised: self.advertised@,
            last_activity: self.last_activity,
            reconnecting: self.reconnecting,
            spent: self.spent_keys@,
        }
    }
}

/// The peers that the edge knows are those that the data plane knows.
pub open spec fn same_peers(
    peers: Seq<Entry<NodeId, PeerStateView>>,
    data: Seq<Entry<NodeId, DataPeerView>>,
) -> bool {
    forall|id: NodeId| #[trigger] has_key(peers, id) <==> has_key(data, id)
}

/// A handshake that this node began waits for its answer.
pub open spec fn awaits_answer(session: Option<NoiseSession>) -> bool {
    session is Some ==> session->0@.initiator && session->0@.messages == 1
}

/// A peer is filed under its own node, and a handshake with it waits for its
/// answer.
pub open spec fn well_filed(e: Entry<NodeId, PeerState>) -> bool {
    e.key == e.value.info.node_id && awaits_answer(e.value.handshake)
}

/// Each peer is filed under its own node, and a handshake with it waits for its
/// answer.
pub open spec fn filed(peers: Seq<Entry<NodeId, PeerState>>) -> bool {
    forall|i: int| 0 <= i < peers.len() ==> well_filed(#[trigger] peers[i])
}

/// Every key in use is one of those that were taken up.
pub open spec fn keys_spent(
    data: Seq<Entry<NodeId, DataPeerView>>,
    spent: Seq<[u8; 32]>,
) -> bool {
    forall|id: NodeId|
        has_key(data, id) && (#[trigger] lookup(data, id))->0.cipher is Some ==> spent.contains(
            lookup(data, id)->0.cipher->0.key,
        )
}

pub(crate) proof fn put_keeps_spent(
    data: Seq<Entry<NodeId, DataPeerView>>,
    spent: Seq<[u8; 32]>,
    id: NodeId,
    d: DataPeerView,
)
    requires
        distinct(data),
        keys_spent(data, spent),
        d.cipher is Some ==> spent.contains(d.cipher->0.key),
    ensures
        keys_spent(put(data, id, d), spent),
{
    put_is_insert(data, id, d);
    let after = put(data, id, d);
    assert forall|o: NodeId|
        has_key(after, o) && (#[trigger] lookup(after, o))->0.cipher is Some implies spent.contains(
        lookup(after, o)->0.cipher->0.key,
    ) by {
        if o != id {
            assert(lookup(after, o) == lookup(data, o));
        }
    }
}

pub(crate) proof fn cut_keeps_spent(
    data: Seq<Entry<NodeId, DataPeerView>>,
    spent: Seq<[u8; 32]>,
    id: NodeId,
)
    requires
        distinct(data),
        keys_spent(data, spent),
    ensures
        keys_spent(cut(data, id), spent),
{
    cut_is_remove(data, id);
    let after = cut(data, id);
    assert forall|o: NodeId|
        has_key(after, o) && (#[trigger] lookup(after, o))->0.cipher is Some implies spent.contains(
        lookup(after, o)->0.cipher->0.key,
    ) by {
        if o != id {
            assert(lookup(after, o) == lookup(data, o));
        }
    }
}

/// A room that was entered: what the device and the routes turned out to be.
#[derive(Debug)]
pub struct Activation {
    pub room_id: RoomId,
    pub assigned_ip: VirtualIp,
    pub virtual_cidr: String,
    pub interface_name: String,
    pub active_mode: TunDeviceMode,
    pub effective_mtu: u16,
    pub preference_supported: bool,
    pub preference_applied: bool,
    pub preference_error: Option<String>,
    pub discovery_route_errors: Vec<String>,
}

/// The routes that a room uses, and the interface that they go over.
#[derive(Debug)]
pub struct RoutesInUse {
    pub interface: String,
    pub networks: Vec<Ipv4Net>,
}

/// A text for a route that does not read as a network.
pub open spec fn bad_route_text(cidr: Seq<char>) -> Seq<char> {
    "invalid LAN discovery route CIDR: "@ + cidr
}

/// The texts for those of some routes that do not read as networks.
pub open spec fn bad_routes(list: Seq<Seq<char>>) -> Seq<Seq<char>>
    decreases list.len(),
{
    if list.len() == 0 {
        Seq::empty()
    } else if parsed_net(list.last()) is None {
        bad_routes(list.drop_last()).push(bad_route_text(list.last()))
    } else {
        bad_routes(list.drop_last())
    }
}

/// A runtime once a room was entered.
pub open spec fn entered(r: RuntimeView, a: Activation, requested: Seq<char>, wanted: bool) -> RuntimeView {
    let installed = a.discovery_route_errors@.len() == 0;
    RuntimeView {
        virtual_ip: Some(dotted(a.assigned_ip.0@)),
        tun_name: Some(a.interface_name@),
        route_cidr: Some(a.virtual_cidr@),
        route_installed: true,
        discovery_routes_installed: installed,
        discovery_route_errors: texts(a.discovery_route_errors@),
        backend_requested: requested,
        backend_active: mode_label(a.active_mode),
        effective_mtu: a.effective_mtu,
        virtual_interface_preference_requested: wanted,
        virtual_interface_preference_supported: a.preference_supported,
        virtual_interface_preference_applied: a.preference_applied,
        virtual_interface_preference_error: opt_text(a.preference_error),
        last_error: if r.backend_degraded {
            if r.last_error is None {
                Some("requested TAP/L2 backend degraded to TUN"@)
            } else {
                r.last_error
            }
        } else if a.preference_error is Some {
            opt_text(a.preference_error)
        } else if installed {
            None
        } else {
            r.last_error
        },
        ..r
    }
}

/// A runtime once a room was left.
pub open spec fn exited(r: RuntimeView) -> RuntimeView {
    RuntimeView {
        virtual_ip: None,
        tun_name: None,
        route_cidr: None,
        route_installed: false,
        discovery_routes_installed: false,
        discovery_route_errors: Seq::empty(),
        virtual_interface_preference_applied: false,
        virtual_interface_preference_error: None,
        last_error: None,
        ..r
    }
}

/// An edge once its room was left: it knows no peers any more.
pub open spec fn left_behind(v: EdgeView) -> EdgeView {
    EdgeView {
        peers: Seq::empty(),
        room: None,
        data: DataPlaneView { room: None, peers: Seq::empty(), macs: Seq::empty(), ..v.data },
        runtime: exited(v.runtime),
        invite: None,
        ..v
    }
}

/// The text of a room's identifier.
pub open spec fn room_text(room: RoomId) -> Seq<char> {
    hex_text(room.0@)
}

/// A room stands in the way of another one.
pub open spec fn other_room(v: EdgeView, room: RoomId) -> bool {
    v.room is Some && v.room->0 != room
}

/// The message with which a node registers.
pub open spec fn registration(
    e: Edge,
    external: Option<SocketAddr>,
    networks: Seq<Seq<char>>,
) -> FrameView {
    FrameView::RegisterNode {
        node_id: e.node_id,
        nat_type: e.nat.nat_type,
        external_addr: external,
        public_key: x25519_public(e.private_key@),
        candidates: e.advertised@,
        nickname: e.nickname@,
        local_networks: networks,
    }
}

/// What is known once a port mapping changed.
pub open spec fn mapping_told(v: EdgeView, s: PortMappingSnapshot, now: u64) -> RuntimeView {
    RuntimeView {
        port_mapping_acquired: s.acquired,
        port_mapping_protocol: match s.protocol {
            Some(p) => Some(protocol_label(p)),
            None => None,
        },
        port_mapping_external_addr: match s.external_addr {
            Some(a) => Some(addr_text(a)),
            None => None,
        },
        port_mapping_lease_expires_at: match s.lease_remaining {
            Some(lease) => Some((now + lease) as u64),
            None => None,
        },
        ..v.runtime
    }
}

/// The mapping that the counters tell of is the one that the runtime tells of.
pub open spec fn counters_agree(m: PortMappingMetrics, r: RuntimeView) -> bool {
    &&& m.acquired == r.port_mapping_acquired
    &&& opt_text(m.protocol) == r.port_mapping_protocol
    &&& opt_text(m.external_addr) == r.port_mapping_external_addr
    &&& m.lease_expires_at == r.port_mapping_lease_expires_at
}

impl RuntimeState {
    /// Takes in that a room was entered.
    fn enter(&mut self, a: Activation, requested: String, wanted: bool)
        ensures
            final(self)@ == entered(old(self)@, a, requested@, wanted),
    {
        let ghost given = a;
        let installed = a.discovery_route_errors.len() == 0;
        let error = crate::invite::copy_opt(&a.preference_error);
        self.virtual_ip = Some(a.assigned_ip.to_text());
        self.tun_name = Some(a.interface_name);
        self.route_cidr = Some(a.virtual_cidr);
        self.route_installed = true;
        self.discovery_routes_installed = installed;
        self.discovery_route_errors = a.discovery_route_errors;
        self.backend_requested = requested;
        self.backend_active = device_mode_label(a.active_mode).to_string();
        self.effective_mtu = a.effective_mtu;
        self.virtual_interface_preference_requested = wanted;
        self.virtual_interface_preference_supported = a.preference_supported;
        self.virtual_interface_preference_applied = a.preference_applied;
        self.virtual_interface_preference_error = a.preference_error;
        if self.backend_degraded {
            if self.last_error.is_none() {
                self.last_error = Some("requested TAP/L2 backend degraded to TUN".to_string());
            }
        } else if error.is_some() {
            self.last_error = error;
        } else if installed {
            self.last_error = None;
        }
    }

    /// Takes in a device that was made.
    fn tell_device(
        &mut self,
        mode: TunDeviceMode,
        degraded: bool,
        effective_mtu: u16,
        warning: Option<String>,
    )
        ensures
            final(self)@ == with_device(
                old(self)@,
                mode,
                degraded,
                effective_mtu,
                opt_text(warning),
            ),
    {
        self.backend_active = device_mode_label(mode).to_string();
        self.backend_degraded = degraded;
        self.effective_mtu = effective_mtu;
        self.last_error = warning;
    }

    /// Takes in the state of the port mapping.
    fn tell_mapping(
        &mut self,
        acquired: bool,
        protocol: Option<String>,
        external_addr: Option<String>,
        lease_expires_at: Option<u64>,
    )
        ensures
            final(self)@ == (RuntimeView {
                port_mapping_acquired: acquired,
                port_mapping_protocol: opt_text(protocol),
                port_mapping_external_addr: opt_text(external_addr),
                port_mapping_lease_expires_at: lease_expires_at,
                ..old(self)@
            }),
    {
        self.port_mapping_acquired = acquired;
        self.port_mapping_protocol = protocol;
        self.port_mapping_external_addr = external_addr;
        self.port_mapping_lease_expires_at = lease_expires_at;
    }
}

impl Edge {
    pub open spec fn wf(self) -> bool {
        &&& self.peers.wf()
        &&& self.dataplane.wf()
        &&& self.dataplane.room_id == self.room_id
        &&& same_peers(self@.peers, self@.data.peers)
        &&& filed(self.peers.entries())
        &&& keys_spent(self@.data.peers, self.spent_keys@)
    }

    /// What events leave alone.
    pub open spec fn same_setup(self, other: Edge) -> bool {
        &&& self.node_id == other.node_id
        &&& self.private_key == other.private_key
        &&& self.nickname == other.nickname
        &&& self.tun_name == other.tun_name
        &&& self.supernodes == other.supernodes
        &&& self.stun_servers == other.stun_servers
        &&& self.tun_mtu == other.tun_mtu
        &&& self.backend == other.backend
        &&& self.virtual_lan == other.virtual_lan
        &&& self.dataplane.same_setup(other.dataplane)
        &&& self.dataplane.same_queue(other.dataplane)
    }

    /// An edge that has no room. `device` says which device is there already, if
    /// one is, and what fits through it.
    pub fn new(
        node_id: NodeId,
        private_key: [u8; 32],
        nickname: String,
        supernode_addr: SocketAddr,
        supernodes: &Vec<SocketAddr>,
        tun_name: String,
        stun_servers: Vec<String>,
        tun_mtu: u16,
        discovery: DiscoveryManager,
        backend: BackendConfig,
        virtual_lan: VirtualLanConfig,
        traffic_policy: TrafficPolicy,
        device: Option<(TunDeviceMode, u16)>,
        preference_supported: bool,
        now: u64,
    ) -> (e: Edge)
        requires
            traffic_policy.wf(),
        ensures
            e.wf(),
            e.node_id == node_id,
            e.private_key == private_key,
            e.nickname == nickname,
            e.tun_name == tun_name,
            e.stun_servers == stun_servers,
            e.tun_mtu == mtu_floor(tun_mtu),
            e.backend == backend,
            e.virtual_lan == virtual_lan,
            e.dataplane.local_node_id == node_id,
            e.dataplane.discovery == discovery,
            e.dataplane.tun_mtu == mtu_floor(tun_mtu),
            e.dataplane.traffic_policy == traffic_policy,
            !e.dataplane.started,
            e.dataplane.slab.free_slots() == Seq::new(4096, |i: int| i as u32),
            e@.data == (DataPlaneView {
                room: None,
                peers: Seq::empty(),
                metrics: blank_registry(),
                seen: Seq::empty(),
                macs: Seq::empty(),
                next_packet_id: 1,
                next_ping_seq: 0,
            }),
            e@.nat_type == NatType::Unknown,
            e@.public_addrs.len() == 0,
            e.supernodes@ == without_repeats(
                seq![supernode_addr] + others(supernodes@, supernode_addr),
            ),
            e@.supernode == supernode_addr,
            e@.peers == Seq::<Entry<NodeId, PeerStateView>>::empty(),
            e@.room is None,
            e@.invite is None,
            !e@.pending_create && !e@.pending_join && !e@.pending_rooms,
            e@.pending_room_name is None,
            e@.advertised.len() == 0,
            e@.base.len() == 0,
            e@.last_activity == now,
            !e@.reconnecting,
            e@.spent.len() == 0,
            e@.runtime == (RuntimeView {
                supernode_addr: addr_text(supernode_addr),
                supernodes: Seq::new(e.supernodes@.len(), |i: int| addr_text(e.supernodes@[i])),
                nat_type: "Unknown"@,
                backend_requested: mode_label(requested_mode(backend)),
                backend_active: match device {
                    Some((mode, _)) => mode_label(mode),
                    None => Seq::empty(),
                },
                effective_mtu: match device {
                    Some((_, mtu)) => mtu,
                    None => mtu_floor(tun_mtu),
                },
                virtual_interface_preference_requested: virtual_lan.prefer_virtual_interface,
                virtual_interface_preference_supported: preference_supported,
                ..blank_runtime()
            }),
    {
        let mtu: u16 = normalize_tun_mtu(tun_mtu);
        let nodes = normalize_supernodes(supernode_addr, supernodes);
        let told = addr_texts(&nodes);
        let (backend_active, effective_mtu): (String, u16) = match device {
            Some((mode, m)) => (device_mode_label(mode).to_string(), m),
            None => (String::new(), mtu),
        };
        let runtime = RuntimeState {
            supernode_addr: supernode_addr.to_text(),
            supernodes: told,
            nat_type: "Unknown".to_string(),
            backend_requested: backend_request_label(&backend).to_string(),
            backend_active,
            effective_mtu,
            virtual_interface_preference_requested: virtual_lan.prefer_virtual_interface,
            virtual_interface_preference_supported: preference_supported,
            tun_name: None,
            virtual_ip: None,
            route_cidr: None,
            route_installed: false,
            discovery_routes_installed: false,
            discovery_route_errors: Vec::new(),
            supernode_reachable: false,
            backend_degraded: false,
            virtual_interface_preference_applied: false,
            virtual_interface_preference_error: None,
            last_supernode_activity_at: None,
            port_mapping_acquired: false,
            port_mapping_protocol: None,
            port_mapping_external_addr: None,
            port_mapping_lease_expires_at: None,
            last_error: None,
        };
        let mut dataplane = DataPlane::new(node_id, discovery, MetricsRegistry::new(), mtu);
        dataplane.set_traffic_policy(traffic_policy);
        let e = Edge {
            node_id,
            private_key,
            nickname,
            tun_name,
            supernodes: nodes,
            stun_servers,
            tun_mtu: mtu,
            backend,
            virtual_lan,
            supernode_addr,
            peers: Table::new(),
            room_id: None,
            runtime,
            dataplane,
            active_invite: None,
            pending_create: false,
            pending_join: false,
            pending_rooms: false,
            pending_room_name: None,
            nat: crate::nat_probe::unknown_fingerprint(),
            base_candidates: Vec::new(),
            advertised: Vec::new(),
            last_activity: now,
            reconnecting: false,
            spent_keys: Vec::new(),
        };
        proof {
            assert(e@.peers =~= Seq::<Entry<NodeId, PeerStateView>>::empty());
            assert(texts(e.runtime.discovery_route_errors@) =~= Seq::<Seq<char>>::empty());
            assert(e@.runtime =~= (RuntimeView {
                supernode_addr: addr_text(supernode_addr),
                supernodes: Seq::new(e.supernodes@.len(), |i: int| addr_text(e.supernodes@[i])),
                nat_type: "Unknown"@,
                backend_requested: mode_label(requested_mode(backend)),
                backend_active: match device {
                    Some((mode, _)) => mode_label(mode),
                    None => Seq::empty(),
                },
                effective_mtu: match device {
                    Some((_, mtu)) => mtu,
                    None => mtu_floor(tun_mtu),
                },
                virtual_interface_preference_requested: virtual_lan.prefer_virtual_interface,
                virtual_interface_preference_supported: preference_supported,
                ..blank_runtime()
            }));
        }
        e
    }

    /// Why a room cannot be entered, if it cannot: there is another one.
    pub fn activation_refusal(&self, joined_room: RoomId) -> (r: Option<String>)
        ensures
            r is Some <==> other_room(self@, joined_room),
            r is Some ==> r->0@ == "already in room "@ + room_text(self@.room->0)
                + ", leave it before joining or creating another room"@,
    {
        match self.room_id {
            Some(active) => {
                if active == joined_room {
                    None
                } else {
                    Some(
                        "already in room ".to_string().concat(active.to_text().as_str()).concat(
                            ", leave it before joining or creating another room",
                        ),
                    )
                }
            },
            None => None,
        }
    }

    /// Takes in that a device was made for a room.
    pub fn device_created(
        &mut self,
        mode: TunDeviceMode,
        degraded: bool,
        effective_mtu: u16,
        warning: Option<String>,
    )
        requires
            old(self).wf(),
        ensures
            final(self).wf(),
            final(self).same_setup(*old(self)),
            final(self)@ == device_told(
                old(self)@,
                mode,
                degraded,
                effective_mtu,
                opt_text(warning),
            ),
    {
        self.runtime.tell_device(mode, degraded, effective_mtu, warning);
    }

    /// Takes in that a room was entered.
    pub fn room_activated(&mut self, a: Activation)
        requires
            old(self).wf(),
            !other_room(old(self)@, a.room_id),
        ensures
            final(self).wf(),
            final(self).same_setup(*old(self)),
            final(self)@ == activated(*old(self), a),
    {
        let requested = backend_request_label(&self.backend).to_string();
        let wanted = self.virtual_lan.prefer_virtual_interface;
        self.room_id = Some(a.room_id);
        self.dataplane.set_room_id(Some(a.room_id));
        self.runtime.enter(a, requested, wanted);
    }

    /// The routes that the room uses, and that go when it is left.
    pub fn routes_in_use(&self) -> (r: Option<RoutesInUse>)
        ensures
            r is Some <==> self@.runtime.route_cidr is Some && self@.runtime.tun_name is Some,
            r is Some ==> r->0.interface@ == self@.runtime.tun_name->0 && r->0.networks@
                == networks_of(seq![self@.runtime.route_cidr->0]) + networks_of(
                discovery_routes(self.dataplane.discovery.config),
            ),
    {
        match (&self.runtime.route_cidr, &self.runtime.tun_name) {
            (Some(cidr), Some(name)) => {
                let mut networks: Vec<Ipv4Net> = Vec::new();
                let ghost one = seq![cidr@];
                assert(one.drop_last() =~= Seq::<Seq<char>>::empty());
                assert(networks_of(one.drop_last()) =~= Seq::<Ipv4Net>::empty());
                if let Some(net) = Ipv4Net::parse(cidr.as_str()) {
                    networks.push(net);
                }
                assert(networks@ =~= networks_of(one));
                let mut more = self.discovery_networks();
                networks.append(&mut more);
                Some(RoutesInUse { interface: name.clone(), networks })
            },
            _ => None,
        }
    }

    /// The networks that discovery traffic is routed by.
    pub fn discovery_networks(&self) -> (r: Vec<Ipv4Net>)
        ensures
            r@ == networks_of(discovery_routes(self.dataplane.discovery.config)),
            forall|i: int| 0 <= i < r@.len() ==> (#[trigger] r@[i]).wf(),
    {
        let list = self.dataplane.discovery.route_cidrs();
        let ghost all = discovery_routes(self.dataplane.discovery.config);
        let n: usize = list.len();
        let mut r: Vec<Ipv4Net> = Vec::new();
        assert(all.subrange(0, 0) =~= Seq::<Seq<char>>::empty());
        for i in 0..n
            invariant
                n == list@.len(),
                all == crate::discovery::str_views(list@),
                r@ == networks_of(all.subrange(0, i as int)),
                forall|i: int| 0 <= i < r@.len() ==> (#[trigger] r@[i]).wf(),
        {
            assert(all.subrange(0, i + 1).drop_last() =~= all.subrange(0, i as int));
            assert(all.subrange(0, i + 1).last() == list@[i as int]@);
            if let Some(net) = Ipv4Net::parse(list[i]) {
                r.push(net);
            }
        }
        assert(all.subrange(0, n as int) =~= all);
        r
    }

    /// What is wrong with the networks that discovery traffic is routed by.
    pub fn discovery_route_faults(&self) -> (r: Vec<String>)
        ensures
            texts(r@) == bad_routes(discovery_routes(self.dataplane.discovery.config)),
    {
        let list = self.dataplane.discovery.route_cidrs();
        let ghost all = discovery_routes(self.dataplane.discovery.config);
        let n: usize = list.len();
        let mut r: Vec<String> = Vec::new();
        assert(all.subrange(0, 0) =~= Seq::<Seq<char>>::empty());
        assert(texts(r@) =~= Seq::<Seq<char>>::empty());
        for i in 0..n
            invariant
                n == list@.len(),
                all == crate::discovery::str_views(list@),
                texts(r@) == bad_routes(all.subrange(0, i as int)),
        {
            assert(all.subrange(0, i + 1).drop_last() =~= all.subrange(0, i as int));
            assert(all.subrange(0, i + 1).last() == list@[i as int]@);
            let ghost before = texts(r@);
            if Ipv4Net::parse(list[i]).is_none() {
                let s = "invalid LAN discovery route CIDR: ".to_string().concat(list[i]);
                let ghost sv = s@;
                r.push(s);
                assert(texts(r@) =~= before.push(sv));
            }
        }
        assert(all.subrange(0, n as int) =~= all);
        r
    }

    /// Takes in that the room was left.
    pub fn room_left(&mut self)
        requires
            old(self).wf(),
        ensures
            final(self).wf(),
            final(self).same_setup(*old(self)),
            final(self)@ == left_behind(old(self)@),
    {
        self.active_invite = None;
        self.peers.clear();
        self.room_id = None;
        self.dataplane.clear_peers();
        self.dataplane.set_room_id(None);
        self.runtime.virtual_ip = None;
        self.runtime.tun_name = None;
        self.runtime.route_cidr = None;
        self.runtime.route_installed = false;
        self.runtime.discovery_routes_installed = false;
        self.runtime.discovery_route_errors = Vec::new();
        self.runtime.virtual_interface_preference_applied = false;
        self.runtime.virtual_interface_preference_error = None;
        self.runtime.last_error = None;
        proof {
            assert(self@.peers =~= Seq::<Entry<NodeId, PeerStateView>>::empty());
            assert(texts(self.runtime.discovery_route_errors@) =~= Seq::<Seq<char>>::empty());
            assert(self@ =~= left_behind(old(self)@));
        }
    }

    /// The message with which the node registers.
    pub fn register_frame(&self, external: Option<SocketAddr>, local_networks: Vec<String>) -> (f:
        ControlFrame)
        ensures
            f@ == registration(*self, external, texts(local_networks@)),
    {
        ControlFrame::RegisterNode {
            node_id: self.node_id,
            nat_type: self.nat.nat_type,
            external_addr: external,
            public_key: derive_public_key(&self.private_key),
            candidates: copy_candidates(self.advertised.as_slice()),
            nickname: self.nickname.clone(),
            local_networks,
        }
    }

    /// Takes in what is known of the translator in front of the host and of the
    /// addresses that it may be reached at, and gives the message with which the
    /// node registers.
    pub fn start_registration(
        &mut self,
        fingerprint: NatFingerprint,
        base_candidates: Vec<Candidate>,
        mapping: &PortMappingSnapshot,
        local_networks: Vec<String>,
    ) -> (o: Outgoing)
        requires
            old(self).wf(),
        ensures
            final(self).wf(),
            final(self).same_setup(*old(self)),
            registration_started(
                *old(self),
                *final(self),
                fingerprint,
                base_candidates@,
                *mapping,
                texts(local_networks@),
                o@,
            ),
    {
        self.runtime.nat_type = fingerprint.nat_type.to_text();
        self.advertised = merge_mapped_candidate(base_candidates.as_slice(), mapping);
        self.base_candidates = base_candidates;
        self.nat = fingerprint;
        let external = preferred_external_addr(&self.nat, self.advertised.as_slice());
        Outgoing {
            target: self.supernode_addr,
            frame: self.register_frame(external, local_networks),
            required: true,
        }
    }

    /// Takes in the state of the port mapping.
    pub fn apply_port_mapping_snapshot(&mut self, snapshot: &PortMappingSnapshot, now: u64)
        requires
            old(self).wf(),
            snapshot.lease_remaining is Some ==> now + snapshot.lease_remaining->0 <= u64::MAX,
        ensures
            final(self).wf(),
            final(self).same_setup(*old(self)),
            final(self)@ == (EdgeView {
                runtime: mapping_told(old(self)@, *snapshot, now),
                data: DataPlaneView {
                    metrics: RegistryView {
                        port_mapping: final(self)@.data.metrics.port_mapping,
                        ..old(self)@.data.metrics
                    },
                    ..old(self)@.data
                },
                ..old(self)@
            }),
            counters_agree(final(self)@.data.metrics.port_mapping, final(self)@.runtime),
    {
        let protocol: Option<String> = match snapshot.protocol {
            Some(p) => Some(p.label().to_string()),
            None => None,
        };
        let external: Option<String> = match &snapshot.external_addr {
            Some(a) => Some(a.to_text()),
            None => None,
        };
        let lease: Option<u64> = match snapshot.lease_remaining {
            Some(l) => Some(now + l),
            None => None,
        };
        let protocol2 = crate::invite::copy_opt(&protocol);
        let external2 = crate::invite::copy_opt(&external);
        self.runtime.tell_mapping(snapshot.acquired, protocol, external, lease);
        self.dataplane.metrics.set_port_mapping_status(
            snapshot.acquired,
            protocol2,
            external2,
            lease,
        );
    }

    /// Takes in that the port mapping changed, and gives the message with which
    /// the node registers anew if its addresses changed.
    pub fn mapping_changed(
        &mut self,
        snapshot: &PortMappingSnapshot,
        local_networks: Vec<String>,
        now: u64,
    ) -> (o: Option<Outgoing>)
        requires
            old(self).wf(),
            snapshot.lease_remaining is Some ==> now + snapshot.lease_remaining->0 <= u64::MAX,
        ensures
            final(self).wf(),
            final(self).same_setup(*old(self)),
            mapping_followed(
                *old(self),
                *final(self),
                *snapshot,
                texts(local_networks@),
                now,
                o,
            ),
    {
        self.apply_port_mapping_snapshot(snapshot, now);
        let merged = merge_mapped_candidate(self.base_candidates.as_slice(), snapshot);
        if same_candidates(&merged, &self.advertised) {
            return None;
        }
        self.advertised = merged;
        let external = preferred_external_addr(&self.nat, self.advertised.as_slice());
        Some(
            Outgoing {
                target: self.supernode_addr,
                frame: self.register_frame(external, local_networks),
                required: false,
            },
        )
    }

    /// The addresses at which peers are reached directly.
    pub fn direct_addrs(&self) -> (r: Vec<SocketAddr>)
        ensures
            r@ == direct_of(self@.peers),
    {
        let mut r: Vec<SocketAddr> = Vec::new();
        let n: usize = self.peers.len();
        let ghost all = self@.peers;
        assert(all.subrange(0, 0) =~= Seq::<Entry<NodeId, PeerStateView>>::empty());
        for i in 0..n
            invariant
                n == self.peers.entries().len(),
                all == self@.peers,
                r@ == direct_of(all.subrange(0, i as int)),
        {
            assert(all.subrange(0, i + 1).drop_last() =~= all.subrange(0, i as int));
            assert(all.subrange(0, i + 1).last() == all[i as int]);
            if let Some(a) = self.peers.nth(i).value.direct_addr {
                r.push(a);
            }
        }
        assert(all.subrange(0, n as int) =~= all);
        r
    }
}

/// The addresses at which peers are reached directly, in the order of the table.
pub open spec fn direct_of(peers: Seq<Entry<NodeId, PeerStateView>>) -> Seq<SocketAddr>
    decreases peers.len(),
{
    if peers.len() == 0 {
        Seq::empty()
    } else {
        let before = direct_of(peers.drop_last());
        match peers.last().value.direct_addr {
            Some(a) => before.push(a),
            None => before,
        }
    }
}

/// The text for a route that could not be added.
pub fn discovery_route_failure(cidr: &str, interface: &str, error: &str) -> (s: String)
    ensures
        s@ == "failed to add LAN discovery route "@ + cidr@ + " via "@ + interface@ + ": "@
            + error@,
{
    "failed to add LAN discovery route ".to_string().concat(cidr).concat(" via ").concat(
        interface,
    ).concat(": ").concat(error)
}

/// The text for an interface that could not be preferred.
pub fn preference_failure(interface: &str, error: &str) -> (s: String)
    ensures
        s@ == "failed to prefer virtual LAN interface "@ + interface@ + ": "@ + error@,
{
    "failed to prefer virtual LAN interface ".to_string().concat(interface).concat(": ").concat(
        error,
    )
}

fn addr_texts(list: &Vec<SocketAddr>) -> (r: Vec<String>)
    ensures
        texts(r@) == Seq::new(list@.len(), |i: int| addr_text(list@[i])),
{
    let mut r: Vec<String> = Vec::new();
    let n: usize = list.len();
    let ghost whole = Seq::new(list@.len(), |i: int| addr_text(list@[i]));
    assert(texts(r@) =~= whole.subrange(0, 0));
    for i in 0..n
        invariant
            n == list@.len(),
            whole == Seq::new(list@.len(), |i: int| addr_text(list@[i])),
            texts(r@) == whole.subrange(0, i as int),
    {
        let ghost before = texts(r@);
        r.push(list[i].to_text());
        assert(texts(r@) =~= before.push(whole[i as int]));
        assert(texts(r@) =~= whole.subrange(0, i + 1));
    }
    assert(whole.subrange(0, n as int) =~= whole);
    r
}

fn same_candidates(a: &Vec<Candidate>, b: &Vec<Candidate>) -> (r: bool)
    ensures
        r == (a@ == b@),
{
    let n: usize = a.len();
    if n != b.len() {
        return false;
    }
    for i in 0..n
        invariant
            n == a@.len(),
            n == b@.len(),
            forall|k: int| 0 <= k < i ==> #[trigger] a@[k] == b@[k],
    {
        if a[i] != b[i] {
            assert(a@[i as int] != b@[i as int]);
            return false;
        }
    }
    assert(a@ =~= b@);
    true
}

/// After a room was left, nothing of it is known any more: no room, no peer, no
/// address behind one, no invitation.
pub proof fn leaving_forgets(v: EdgeView, id: NodeId)
    ensures
        left_behind(v).room is None,
        left_behind(v).data.room is None,
        !has_key(left_behind(v).peers, id),
        !has_key(left_behind(v).data.peers, id),
        left_behind(v).data.macs.len() == 0,
        left_behind(v).invite is None,
        left_behind(left_behind(v)) == left_behind(v),
{
    assert(left_behind(left_behind(v)) =~= left_behind(v));
}

/// What is told of a node that entered a room is what was set up for it: its address, the
/// interface, the network. Routes that could not be set up are told; an error that was
/// told before goes only when everything is in place.
pub proof fn entering_is_told(r: RuntimeView, a: Activation, requested: Seq<char>, wanted: bool)
    ensures
        ({
            let w = entered(r, a, requested, wanted);
            &&& w.virtual_ip == Some(dotted(a.assigned_ip.0@))
            &&& w.tun_name == Some(a.interface_name@)
            &&& w.route_cidr == Some(a.virtual_cidr@)
            &&& w.route_installed
            &&& w.discovery_routes_installed <==> a.discovery_route_errors@.len() == 0
            &&& w.effective_mtu == a.effective_mtu
            &&& w.backend_requested == requested
            &&& w.backend_degraded == r.backend_degraded
            &&& w.supernode_addr == r.supernode_addr
            &&& w.last_error is None ==> a.discovery_route_errors@.len() == 0 && a.preference_error
                is None && !r.backend_degraded || r.last_error is None
            &&& !r.backend_degraded && a.preference_error is None && a.discovery_route_errors@.len()
                == 0 ==> w.last_error is None
            &&& !r.backend_degraded && a.preference_error is Some ==> w.last_error == Some(
                a.preference_error->0@,
            )
            &&& r.backend_degraded && r.last_error is Some ==> w.last_error == r.last_error
            &&& r.backend_degraded && r.last_error is None ==> w.last_error == Some(
                "requested TAP/L2 backend degraded to TUN"@,
            )
            &&& !r.backend_degraded && a.preference_error is None && a.discovery_route_errors@.len()
                > 0 ==> w.last_error == r.last_error
        }),
{
}

/// Of a node that left its room neither address, interface, network nor error are told;
/// what the machine and the supernode are like still is.
pub proof fn leaving_is_not_told_as_trouble(r: RuntimeView)
    ensures
        ({
            let w = exited(r);
            &&& w.virtual_ip is None && w.tun_name is None && w.route_cidr is None
            &&& !w.route_installed && !w.discovery_routes_installed
            &&& w.discovery_route_errors.len() == 0
            &&& w.last_error is None
            &&& w.supernode_addr == r.supernode_addr && w.supernode_reachable
                == r.supernode_reachable
            &&& w.nat_type == r.nat_type && w.backend_active == r.backend_active
                && w.effective_mtu == r.effective_mtu
            &&& w.port_mapping_acquired == r.port_mapping_acquired
        }),
{
}

/// A node registers as itself: with its public key, its name, its candidates and its
/// networks.
pub proof fn nodes_register_as_themselves(
    e: Edge,
    external: Option<SocketAddr>,
    networks: Seq<Seq<char>>,
)
    ensures
        ({
            let f = registration(e, external, networks);
            &&& f is RegisterNode
            &&& f->RegisterNode_node_id == e.node_id
            &&& f->public_key == x25519_public(e.private_key@)
            &&& f->RegisterNode_candidates == e.advertised@
            &&& f->nickname == e.nickname@
            &&& f->local_networks == networks
            &&& f->external_addr == external
            &&& f->nat_type == e.nat.nat_type
        }),
{
}

/// A mapping is told as it was granted, with the time at which it ends.
pub proof fn mappings_are_told(v: EdgeView, s: PortMappingSnapshot, now: u64)
    requires
        s.lease_remaining is Some ==> now + s.lease_remaining->0 <= u64::MAX,
    ensures
        mapping_told(v, s, now).port_mapping_acquired == s.acquired,
        s.lease_remaining is Some ==> mapping_told(v, s, now).port_mapping_lease_expires_at is Some
            && mapping_told(v, s, now).port_mapping_lease_expires_at->0 - now
            == s.lease_remaining->0,
        s.lease_remaining is None ==> mapping_told(v, s, now).port_mapping_lease_expires_at is None,
        s.external_addr is Some ==> mapping_told(v, s, now).port_mapping_external_addr == Some(
            addr_text(s.external_addr->0),
        ),
        s.external_addr is None ==> mapping_told(v, s, now).port_mapping_external_addr is None,
        s.protocol is None ==> mapping_told(v, s, now).port_mapping_protocol is None,
        mapping_told(v, s, now).last_error == v.runtime.last_error,
        mapping_told(v, s, now).virtual_ip == v.runtime.virtual_ip,
{
}

/// Exactly the peers that are reached directly have their addresses listed.
pub proof fn direct_peers_are_listed(peers: Seq<Entry<NodeId, PeerStateView>>, a: SocketAddr)
    ensures
        direct_of(peers).contains(a) <==> exists|i: int|
            0 <= i < peers.len() && (#[trigger] peers[i]).value.direct_addr == Some(a),
    decreases peers.len(),
{
    if peers.len() > 0 {
        let short = peers.drop_last();
        direct_peers_are_listed(short, a);
        let before = direct_of(short);
        let all = direct_of(peers);
        if all.contains(a) {
            let k = all.index_of(a);
            if k < before.len() {
                assert(before[k] == a);
                let i = choose|i: int|
                    0 <= i < short.len() && (#[trigger] short[i]).value.direct_addr == Some(a);
                assert(peers[i].value.direct_addr == Some(a));
            } else {
                assert(peers[peers.len() - 1].value.direct_addr == Some(a));
            }
        }
        if exists|i: int| 0 <= i < peers.len() && (#[trigger] peers[i]).value.direct_addr == Some(a) {
            let i = choose|i: int|
                0 <= i < peers.len() && (#[trigger] peers[i]).value.direct_addr == Some(a);
            if i < short.len() {
                assert(short[i].value.direct_addr == Some(a));
                assert(all[before.index_of(a)] == a);
            } else {
                assert(all[all.len() - 1] == a);
            }
        }
    }
}

/// Every route that is no network is told, and no other.
pub proof fn bad_routes_are_told(list: Seq<Seq<char>>)
    ensures
        bad_routes(list).len() == 0 <==> forall|i: int|
            0 <= i < list.len() ==> parsed_net(#[trigger] list[i]) is Some,
        bad_routes(list).len() <= list.len(),
    decreases list.len(),
{
    if list.len() > 0 {
        let short = list.drop_last();
        bad_routes_are_told(short);
        if bad_routes(list).len() == 0 {
            assert forall|i: int| 0 <= i < list.len() implies parsed_net(#[trigger] list[i]) is Some by {
                if i < short.len() {
                    assert(short[i] == list[i]);
                }
            }
        } else if forall|i: int| 0 <= i < list.len() ==> parsed_net(#[trigger] list[i]) is Some {
            assert(parsed_net(list[list.len() - 1]) is Some);
            assert forall|i: int| 0 <= i < short.len() implies parsed_net(#[trigger] short[i]) is Some by {
                assert(short[i] == list[i]);
            }
        }
    }
}

/// What is told after a device was made.
pub open spec fn with_device(
    r: RuntimeView,
    mode: TunDeviceMode,
    degraded: bool,
    effective_mtu: u16,
    warning: Option<Seq<char>>,
) -> RuntimeView {
    RuntimeView {
        backend_active: mode_label(mode),
        backend_degraded: degraded,
        effective_mtu,
        last_error: warning,
        ..r
    }
}

/// What is known after a device was made.
pub open spec fn device_told(
    v: EdgeView,
    mode: TunDeviceMode,
    degraded: bool,
    effective_mtu: u16,
    warning: Option<Seq<char>>,
) -> EdgeView {
    EdgeView { runtime: with_device(v.runtime, mode, degraded, effective_mtu, warning), ..v }
}

/// What is known after a room was entered.
pub open spec fn activated(e: Edge, a: Activation) -> EdgeView {
    EdgeView {
        room: Some(a.room_id),
        data: DataPlaneView { room: Some(a.room_id), ..e@.data },
        runtime: entered(
            e@.runtime,
            a,
            mode_label(requested_mode(e.backend)),
            e.virtual_lan.prefer_virtual_interface,
        ),
        ..e@
    }
}

/// How a node registers when it starts.
pub open spec fn registration_started(
    before: Edge,
    after: Edge,
    fingerprint: NatFingerprint,
    base: Seq<Candidate>,
    mapping: PortMappingSnapshot,
    networks: Seq<Seq<char>>,
    out: OutView,
) -> bool {
    &&& after@ == (EdgeView {
        nat_type: fingerprint.nat_type,
        public_addrs: fingerprint.public_addrs@,
        base,
        advertised: merged_candidates(base, mapping),
        runtime: RuntimeView {
            nat_type: nat_type_name(fingerprint.nat_type),
            ..before@.runtime
        },
        ..before@
    })
    &&& out == (OutView {
        target: before@.supernode,
        frame: registration(
            after,
            external_addr(fingerprint.public_addrs@, merged_candidates(base, mapping)),
            networks,
        ),
        required: true,
    })
}

/// How a node follows a mapping that changed.
pub open spec fn mapping_followed(
    before: Edge,
    after: Edge,
    snapshot: PortMappingSnapshot,
    networks: Seq<Seq<char>>,
    now: u64,
    o: Option<Outgoing>,
) -> bool {
    let merged = merged_candidates(before@.base, snapshot);
    &&& after@ == (EdgeView {
        runtime: mapping_told(before@, snapshot, now),
        data: DataPlaneView {
            metrics: RegistryView {
                port_mapping: after@.data.metrics.port_mapping,
                ..before@.data.metrics
            },
            ..before@.data
        },
        advertised: merged,
        ..before@
    })
    &&& counters_agree(after@.data.metrics.port_mapping, after@.runtime)
    &&& match o {
        Some(out) => merged != before@.advertised && out@ == (OutView {
            target: before@.supernode,
            frame: registration(
                after,
                external_addr(before@.public_addrs, merged),
                networks,
            ),
            required: false,
        }),
        None => merged == before@.advertised,
    }
}

/// A room that was entered is the room of the node and of its data; the peers stay, and so
/// does who the supernode is.
pub proof fn an_entered_room_is_the_room(e: Edge, a: Activation)
    ensures
        activated(e, a).room == Some(a.room_id),
        activated(e, a).data.room == Some(a.room_id),
        activated(e, a).peers == e@.peers,
        activated(e, a).data.peers == e@.data.peers,
        activated(e, a).supernode == e@.supernode,
        activated(e, a).invite == e@.invite,
        activated(e, a).runtime.virtual_ip == Some(dotted(a.assigned_ip.0@)),
        activated(e, a).runtime.virtual_interface_preference_requested
            == e.virtual_lan.prefer_virtual_interface,
{
}

/// A device is told as it is: by its kind, its MTU and whether it is less than was asked for;
/// a warning is the error that is told, and without one none is.
pub proof fn devices_are_told_as_they_are(
    v: EdgeView,
    mode: TunDeviceMode,
    degraded: bool,
    effective_mtu: u16,
    warning: Option<Seq<char>>,
)
    ensures
        ({
            let w = device_told(v, mode, degraded, effective_mtu, warning).runtime;
            &&& mode == TunDeviceMode::Tap ==> w.backend_active == "tap"@
            &&& mode == TunDeviceMode::Tun ==> w.backend_active == "tun"@
            &&& w.backend_degraded == degraded
            &&& w.effective_mtu == effective_mtu
            &&& w.last_error == warning
            &&& w.backend_requested == v.runtime.backend_requested
            &&& w.virtual_ip == v.runtime.virtual_ip
        }),
        device_told(v, mode, degraded, effective_mtu, warning).room == v.room,
{
}

/// A node registers with its supernode, by what it found out of its translator: with its
/// candidates and the outside address that goes first.
pub proof fn a_node_registers_with_what_it_found(
    before: Edge,
    after: Edge,
    fingerprint: NatFingerprint,
    base: Seq<Candidate>,
    mapping: PortMappingSnapshot,
    networks: Seq<Seq<char>>,
    out: OutView,
)
    requires
        registration_started(before, after, fingerprint, base, mapping, networks, out),
    ensures
        out.target == before@.supernode,
        out.required,
        out.frame is RegisterNode,
        out.frame->RegisterNode_node_id == after.node_id,
        out.frame->RegisterNode_candidates == after@.advertised,
        out.frame->local_networks == networks,
        out.frame->external_addr == external_addr(fingerprint.public_addrs@, after@.advertised),
        after@.nat_type == fingerprint.nat_type,
        after@.public_addrs == fingerprint.public_addrs@,
        after@.base == base,
        after@.peers == before@.peers && after@.room == before@.room,
{
}

/// A mapping that changes what a node offers is told to the supernode; one that does not is
/// not.
pub proof fn changes_of_a_mapping_are_told(
    before: Edge,
    after: Edge,
    snapshot: PortMappingSnapshot,
    networks: Seq<Seq<char>>,
    now: u64,
    o: Option<Outgoing>,
)
    requires
        mapping_followed(before, after, snapshot, networks, now, o),
    ensures
        o is Some <==> after@.advertised != before@.advertised,
        o is Some ==> o->0.target == before@.supernode && o->0.frame@ is RegisterNode
            && o->0.frame@->RegisterNode_candidates == after@.advertised
            && o->0.frame@->external_addr == external_addr(before@.public_addrs, after@.advertised),
        after@.base == before@.base,
        after@.runtime.port_mapping_acquired == snapshot.acquired,
        after@.data.metrics.port_mapping.acquired == snapshot.acquired,
        after@.peers == before@.peers && after@.room == before@.room,
{
}

} // verus!
