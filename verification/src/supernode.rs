//! The supernode: who is registered, which rooms there are, and what is answered
//! to each control frame.

use crate::common::{NatType, NodeId, RoomId, VirtualIp};
use crate::config::{random_bytes, supernode_defaults, SupernodeConfig};
use crate::invite::{
    b64_text, copy_opt, copy_texts, ed25519_signature, invite_wire, with_signature, InviteData,
    InviteView,
};
use crate::net::{
    ipv4_nets_overlap, net_end, net_in_range, net_start, net_text, nets_overlap, parsed_net, Ipv4Net,
    SocketAddr,
};
use crate::proto::{
    copy_candidates, copy_peer, views, Candidate, ControlFrame, DataHeader, FrameView, OutView,
    Outgoing, PeerAction, PeerInfo, PeerInfoView, RoomDescription, RoomDescriptionView,
    DATA_HEADER_SIZE,
};
use crate::room::{
    address_for, address_refused, addresses_distinct, allocation, cidr_reads_back, filed, host_ip, is_subnet,
    owner_gets_first_host, reusable, room_for_one, with_member, without_member, Member, MemberRole,
    MemberView, Room, RoomAddressPool, RoomError, RoomView,
};
use crate::slab::{PacketDesc, PacketSlab, DEFAULT_FRAME_CAP};
use crate::table::{
    at, at_is, cut, cut_is_remove, distinct, has_key, lookup, put, put_is_insert, update_is_put,
    viewed, viewed_cut, viewed_lookup, viewed_put, AssocVec, Entry, Key, Table,
};
use crate::text::{
    decimal, hex_bytes, hex_decode, hex_encode, hex_text, is_hex_text, opt_text, push_decimal,
    same_text, texts, trim, trimmed,
};
use vstd::prelude::*;

verus! {

/// A registered node; the time is in nanoseconds.
#[derive(Debug)]
pub struct NodeInfo {
    pub node_id: NodeId,
    pub addr: SocketAddr,
    pub nat_type: NatType,
    pub external_addr: Option<SocketAddr>,
    pub public_key: [u8; 32],
    pub candidates: Vec<Candidate>,
    pub nickname: String,
    pub local_networks: Vec<Ipv4Net>,
    pub last_seen: u64,
}

/// What is known of a node.
#[verifier::ext_equal]
pub struct NodeView {
    pub node_id: NodeId,
    pub addr: SocketAddr,
    pub nat_type: NatType,
    pub external_addr: Option<SocketAddr>,
    pub public_key: Seq<u8>,
    pub candidates: Seq<Candidate>,
    pub nickname: Seq<char>,
    pub local_networks: Seq<Ipv4Net>,
    pub last_seen: u64,
}

impl View for NodeInfo {
    type V = NodeView;

    open spec fn view(&self) -> NodeView {
        NodeView {
            node_id: self.node_id,
            addr: self.addr,
            nat_type: self.nat_type,
            external_addr: self.external_addr,
            public_key: self.public_key@,
            candidates: self.candidates@,
            nickname: self.nickname@,
            local_networks: self.local_networks@,
            last_seen: self.last_seen,
        }
    }
}

/// The members of a room are in order: no two have one address.
pub open spec fn sound(room: Room) -> bool {
    room.wf() && addresses_distinct(room@.members)
}

pub struct Supernode {
    pub nodes: Table<NodeId, NodeInfo>,
    pub addr_to_node: Table<SocketAddr, NodeId>,
    pub rooms: Table<RoomId, Room>,
    pub invite_signing_key: [u8; 32],
    pub slab: PacketSlab<DEFAULT_FRAME_CAP>,
    pub config: SupernodeConfig,
    pub address_pool: RoomAddressPool,
}

/// Who is registered and which rooms there are.
#[verifier::ext_equal]
pub struct SupernodeView {
    pub nodes: Seq<Entry<NodeId, NodeView>>,
    pub addrs: Seq<Entry<SocketAddr, NodeId>>,
    pub rooms: Seq<Entry<RoomId, RoomView>>,
}

impl View for Supernode {
    type V = SupernodeView;

    open spec fn view(&self) -> SupernodeView {
        SupernodeView {
            nodes: viewed(self.nodes.entries()),
            addrs: self.addr_to_node.entries(),
            rooms: viewed(self.rooms.entries()),
        }
    }
}

/// Why a control frame could not be served.
#[derive(Debug, PartialEq, Eq)]
pub enum SupernodeError {
    Room(RoomError),
    NoLocalAddress,
}

/// The chance that goes into a new room.
#[derive(Debug, Clone, Copy)]
pub struct RoomSeed {
    pub room_id: [u8; 16],
    pub token: [u8; 16],
}

/// The networks that a list of texts reads as; what reads as none is left out.
pub open spec fn networks_of(list: Seq<Seq<char>>) -> Seq<Ipv4Net>
    decreases list.len(),
{
    if list.len() == 0 {
        Seq::empty()
    } else {
        let before = networks_of(list.drop_last());
        match parsed_net(list.last()) {
            Some(n) => before.push(n),
            None => before,
        }
    }
}

/// The members of a room, but for one node, that are registered, in the order
/// of the room.
pub open spec fn present(
    members: Seq<Entry<NodeId, MemberView>>,
    nodes: Seq<Entry<NodeId, NodeView>>,
    skip: NodeId,
) -> Seq<NodeId>
    decreases members.len(),
{
    if members.len() == 0 {
        Seq::empty()
    } else {
        let before = present(members.drop_last(), nodes, skip);
        let id = members.last().value.node_id;
        if id != skip && has_key(nodes, id) {
            before.push(id)
        } else {
            before
        }
    }
}

/// The registered nodes that share a room with a node, room by room.
pub open spec fn room_mates(
    rooms: Seq<Entry<RoomId, RoomView>>,
    nodes: Seq<Entry<NodeId, NodeView>>,
    node: NodeId,
) -> Seq<NodeId>
    decreases rooms.len(),
{
    if rooms.len() == 0 {
        Seq::empty()
    } else {
        room_mates(rooms.drop_last(), nodes, node) + (if has_key(
            rooms.last().value.members,
            node,
        ) {
            present(rooms.last().value.members, nodes, node)
        } else {
            Seq::empty()
        })
    }
}

/// Where a registered node is reached.
pub open spec fn addr_of(nodes: Seq<Entry<NodeId, NodeView>>, id: NodeId) -> SocketAddr {
    lookup(nodes, id)->0.addr
}

/// One frame to each of some nodes.
pub open spec fn to_each(
    nodes: Seq<Entry<NodeId, NodeView>>,
    ids: Seq<NodeId>,
    frame: FrameView,
    required: bool,
) -> Seq<OutView> {
    Seq::new(ids.len(), |i: int| OutView { target: addr_of(nodes, ids[i]), frame, required })
}

/// One frame to one address.
pub open spec fn to_one(target: SocketAddr, frame: FrameView, required: bool) -> Seq<OutView> {
    seq![OutView { target, frame, required }]
}

/// A key of zeros, which stands for one that is not known.
pub open spec fn no_key() -> Seq<u8> {
    Seq::new(32, |i: int| 0u8)
}

/// The public key of a node.
pub open spec fn key_of(nodes: Seq<Entry<NodeId, NodeView>>, id: NodeId) -> Seq<u8> {
    match lookup(nodes, id) {
        Some(n) => n.public_key,
        None => no_key(),
    }
}

/// A member as the others see it.
pub open spec fn peer_of(nodes: Seq<Entry<NodeId, NodeView>>, m: MemberView) -> PeerInfoView {
    PeerInfoView {
        node_id: m.node_id,
        virtual_ip: m.virtual_ip,
        nickname: m.nickname,
        public_key: key_of(nodes, m.node_id),
    }
}

/// The members of a room as the others see them.
pub open spec fn peers_of(
    nodes: Seq<Entry<NodeId, NodeView>>,
    members: Seq<Entry<NodeId, MemberView>>,
) -> Seq<PeerInfoView> {
    Seq::new(members.len(), |i: int| peer_of(nodes, members[i].value))
}

/// The requests by which a node and each of some others are told to reach for
/// one another.
pub open spec fn introductions(
    nodes: Seq<Entry<NodeId, NodeView>>,
    ids: Seq<NodeId>,
    node: NodeId,
    candidates: Seq<Candidate>,
    addr: SocketAddr,
) -> Seq<OutView>
    decreases ids.len(),
{
    if ids.len() == 0 {
        Seq::empty()
    } else {
        introductions(nodes, ids.drop_last(), node, candidates, addr).push(
            OutView {
                target: addr_of(nodes, ids.last()),
                frame: FrameView::PunchRequest { target: node, candidates },
                required: true,
            },
        ).push(
            OutView {
                target: addr,
                frame: FrameView::PunchRequest {
                    target: ids.last(),
                    candidates: lookup(nodes, ids.last())->0.candidates,
                },
                required: true,
            },
        )
    }
}

/// The networks that a node has at home.
pub open spec fn home_networks(nodes: Seq<Entry<NodeId, NodeView>>, id: NodeId) -> Seq<Ipv4Net> {
    match lookup(nodes, id) {
        Some(n) => n.local_networks,
        None => Seq::empty(),
    }
}

/// The network of a room has an address in common with one of some networks.
pub open spec fn conflicts(cidr: Seq<char>, local: Seq<Ipv4Net>) -> bool {
    parsed_net(cidr) is Some && exists|i: int|
        0 <= i < local.len() && nets_overlap(parsed_net(cidr)->0, #[trigger] local[i])
}

/// The address under which the supernode is to be found.
pub open spec fn public_text(config: SupernodeConfig, local: Seq<char>) -> Seq<char> {
    match config.public_addr {
        Some(a) => if trimmed(a@).len() > 0 {
            a@
        } else {
            local
        },
        None => local,
    }
}

/// The address under which the supernode is to be found is configured.
pub open spec fn has_public(config: SupernodeConfig) -> bool {
    config.public_addr is Some && trimmed(config.public_addr->0@).len() > 0
}

/// The invitation to a new room, as it is signed.
pub open spec fn invitation(
    s: Supernode,
    primary: Seq<char>,
    room: RoomView,
    key: Seq<u8>,
) -> InviteView {
    let plain = InviteView {
        version: 2,
        primary_supernode: primary,
        fallback_supernodes: texts(s.config.peers@),
        supernode_addr: primary,
        room_id: room.room_id.0@,
        room_pub_key: key,
        virtual_cidr: Some(room.virtual_cidr),
        token: Some(room.join_token),
        expires_at: None,
        signature: None,
    };
    with_signature(
        plain,
        Some(ed25519_signature(s.invite_signing_key@, invite_wire(plain))),
    )
}

pub(crate) proof fn present_registered(
    members: Seq<Entry<NodeId, MemberView>>,
    nodes: Seq<Entry<NodeId, NodeView>>,
    skip: NodeId,
)
    ensures
        forall|i: int|
            0 <= i < present(members, nodes, skip).len() ==> has_key(
                nodes,
                #[trigger] present(members, nodes, skip)[i],
            ) && present(members, nodes, skip)[i] != skip,
    decreases members.len(),
{
    if members.len() > 0 {
        present_registered(members.drop_last(), nodes, skip);
        let before = present(members.drop_last(), nodes, skip);
        let all = present(members, nodes, skip);
        assert forall|i: int| 0 <= i < all.len() implies has_key(nodes, #[trigger] all[i]) && all[i]
            != skip by {
            if i < before.len() {
                assert(all[i] == before[i]);
            }
        }
    }
}

proof fn room_mates_registered(
    rooms: Seq<Entry<RoomId, RoomView>>,
    nodes: Seq<Entry<NodeId, NodeView>>,
    node: NodeId,
)
    ensures
        forall|i: int|
            0 <= i < room_mates(rooms, nodes, node).len() ==> has_key(
                nodes,
                #[trigger] room_mates(rooms, nodes, node)[i],
            ),
    decreases rooms.len(),
{
    if rooms.len() > 0 {
        let front = room_mates(rooms.drop_last(), nodes, node);
        room_mates_registered(rooms.drop_last(), nodes, node);
        present_registered(rooms.last().value.members, nodes, node);
        let all = room_mates(rooms, nodes, node);
        assert forall|i: int| 0 <= i < all.len() implies has_key(nodes, #[trigger] all[i]) by {
            if i < front.len() {
                assert(all[i] == front[i]);
            } else {
                assert(all[i] == present(rooms.last().value.members, nodes, node)[i
                    - front.len()]);
            }
        }
    }
}

fn parse_local_networks(networks: &Vec<String>) -> (r: Vec<Ipv4Net>)
    ensures
        r@ == networks_of(texts(networks@)),
        forall|i: int| 0 <= i < r@.len() ==> (#[trigger] r@[i]).wf(),
{
    let mut r: Vec<Ipv4Net> = Vec::new();
    let n: usize = networks.len();
    let ghost all = texts(networks@);
    assert(all.subrange(0, 0) =~= Seq::<Seq<char>>::empty());
    for i in 0..n
        invariant
            n == networks@.len(),
            all == texts(networks@),
            r@ == networks_of(all.subrange(0, i as int)),
            forall|k: int| 0 <= k < r@.len() ==> (#[trigger] r@[k]).wf(),
    {
        assert(all.subrange(0, i + 1).drop_last() =~= all.subrange(0, i as int));
        assert(all.subrange(0, i + 1).last() == networks@[i as int]@);
        if let Some(net) = Ipv4Net::parse(networks[i].as_str()) {
            r.push(net);
        }
    }
    assert(all.subrange(0, n as int) =~= all);
    r
}

/// Whether the network of a room has an address in common with one of some
/// networks.
pub fn room_subnet_conflicts(room_virtual_cidr: &str, local_networks: &[Ipv4Net]) -> (r: bool)
    requires
        forall|i: int| 0 <= i < local_networks@.len() ==> (#[trigger] local_networks@[i]).wf(),
    ensures
        r == conflicts(room_virtual_cidr@, local_networks@),
{
    let net = match Ipv4Net::parse(room_virtual_cidr) {
        Some(net) => net,
        None => {
            return false;
        },
    };
    let n: usize = local_networks.len();
    for i in 0..n
        invariant
            n == local_networks@.len(),
            net.wf(),
            parsed_net(room_virtual_cidr@) == Some(net),
            forall|k: int| 0 <= k < local_networks@.len() ==> (#[trigger] local_networks@[k]).wf(),
            forall|k: int| 0 <= k < i ==> !nets_overlap(net, #[trigger] local_networks@[k]),
    {
        if ipv4_nets_overlap(&net, &local_networks[i]) {
            assert(nets_overlap(parsed_net(room_virtual_cidr@)->0, local_networks@[i as int]));
            return true;
        }
    }
    false
}

fn push_out(out: &mut Vec<Outgoing>, target: SocketAddr, frame: ControlFrame, required: bool)
    ensures
        views(final(out)@) == views(old(out)@).push(OutView { target, frame: frame@, required }),
{
    let ghost start = views(out@);
    let ghost v = OutView { target, frame: frame@, required };
    out.push(Outgoing { target, frame, required });
    assert(views(out@) =~= start.push(v));
}

fn one_out(target: SocketAddr, frame: ControlFrame, required: bool) -> (out: Vec<Outgoing>)
    ensures
        views(out@) == to_one(target, frame@, required),
{
    let mut out: Vec<Outgoing> = Vec::new();
    let ghost fv = frame@;
    assert(views(out@) =~= Seq::<OutView>::empty());
    push_out(&mut out, target, frame, required);
    assert(views(out@) =~= to_one(target, fv, required));
    out
}

/// What comes of setting up a supernode with a configuration: nobody is
/// registered with it, and all its buffers are free. It fails where the pool of
/// addresses cannot be read or cannot be cut into rooms.
pub open spec fn set_up(config: SupernodeConfig, r: Result<Supernode, RoomError>) -> bool {
    match r {
        Ok(s) => {
            &&& s.wf()
            &&& s@ == (SupernodeView {
                nodes: Seq::empty(),
                addrs: Seq::empty(),
                rooms: Seq::empty(),
            })
            &&& s.config == config
            &&& parsed_net(config.address_pool@) == Some(s.address_pool.pool)
            &&& s.address_pool.room_prefix_len == config.room_prefix_len
            &&& s.address_pool.allocations.entries@.len() == 0
            &&& s.slab.capacity() == 4096
            &&& s.slab.free_slots().len() == 4096
        },
        Err(e) => {
            &&& e is InvalidAddressPool
            &&& match parsed_net(config.address_pool@) {
                None => e->InvalidAddressPool_0@ == config.address_pool@,
                Some(net) => (config.room_prefix_len < net.prefix || config.room_prefix_len
                    > 30) && e->InvalidAddressPool_0@ == net_text(net)
                    + " with room prefix "@ + decimal(config.room_prefix_len as nat),
            }
        },
    }
}

impl Supernode {
    /// Tables, rooms, pool and buffers are sound.
    pub open spec fn wf(self) -> bool {
        &&& self.nodes.wf()
        &&& self.addr_to_node.wf()
        &&& self.rooms.wf()
        &&& self.address_pool.wf()
        &&& self.slab.wf()
        &&& forall|i: int|
            0 <= i < self.rooms.entries().len() ==> sound((#[trigger] self.rooms.entries()[i]).value)
        &&& forall|i: int, k: int|
            0 <= i < self.nodes.entries().len() && 0 <= k
                < self.nodes.entries()[i].value.local_networks@.len()
                ==> (#[trigger] self.nodes.entries()[i].value.local_networks@[k]).wf()
    }

    /// What control frames leave alone.
    pub open spec fn same_setup(self, other: Supernode) -> bool {
        &&& self.config == other.config
        &&& self.invite_signing_key == other.invite_signing_key
        &&& self.slab == other.slab
    }

    /// A supernode with a given signing key.
    pub fn with_key(config: SupernodeConfig, invite_signing_key: [u8; 32]) -> (r: Result<
        Supernode,
        RoomError,
    >)
        ensures
            set_up(config, r),
            r is Ok ==> r->Ok_0.invite_signing_key == invite_signing_key,
    {
        let address_pool = match RoomAddressPool::new(
            config.address_pool.as_str(),
            config.room_prefix_len,
        ) {
            Ok(p) => p,
            Err(e) => {
                return Err(e);
            },
        };
        let s = Supernode {
            nodes: Table::new(),
            addr_to_node: Table::new(),
            rooms: Table::new(),
            invite_signing_key,
            slab: PacketSlab::default_pool(4096),
            config,
            address_pool,
        };
        assert(s@.nodes =~= Seq::empty());
        assert(s@.rooms =~= Seq::empty());
        Ok(s)
    }

    /// A supernode with a random signing key.
    pub fn new_with_config(config: SupernodeConfig) -> (r: Result<Supernode, RoomError>)
        ensures
            set_up(config, r),
            r is Ok <==> parsed_net(config.address_pool@) is Some && parsed_net(
                config.address_pool@,
            )->0.prefix <= config.room_prefix_len <= 30,
    {
        Self::with_key(config, random_bytes())
    }

    /// A supernode with the default configuration and a random signing key.
    pub fn new() -> (r: Result<Supernode, RoomError>)
        ensures
            exists|config: SupernodeConfig|
                supernode_defaults(config) && #[trigger] set_up(config, r),
    {
        Self::new_with_config(SupernodeConfig::default())
    }

    pub(crate) proof fn keys_are_distinct(self)
        requires
            self.wf(),
        ensures
            distinct(self.nodes.entries()),
            distinct(self.addr_to_node.entries()),
            distinct(self.rooms.entries()),
            distinct(self@.nodes),
            distinct(self@.rooms),
    {
        self.nodes.keys_distinct();
        self.addr_to_node.keys_distinct();
        self.rooms.keys_distinct();
        if self.nodes.entries().len() > 0 {
            viewed_lookup(self.nodes.entries(), self.nodes.entries()[0].key);
        }
        if self.rooms.entries().len() > 0 {
            viewed_lookup(self.rooms.entries(), self.rooms.entries()[0].key);
        }
    }

    pub(crate) fn node(&self, id: &NodeId) -> (r: Option<&NodeInfo>)
        requires
            self.wf(),
        ensures
            match r {
                Some(n) => lookup(self@.nodes, *id) == Some(n@) && has_key(self@.nodes, *id)
                    && forall|k: int|
                    0 <= k < n.local_networks@.len() ==> (#[trigger] n.local_networks@[k]).wf(),
                None => lookup(self@.nodes, *id) is None && !has_key(self@.nodes, *id),
            },
    {
        proof {
            self.keys_are_distinct();
            viewed_lookup(self.nodes.entries(), *id);
        }
        match self.nodes.find(id) {
            Some(i) => {
                let e = self.nodes.nth(i);
                assert(e.value == self.nodes.entries()[i as int].value);
                Some(&e.value)
            },
            None => None,
        }
    }

    pub(crate) fn sender(&self, addr: &SocketAddr) -> (r: Option<NodeId>)
        requires
            self.wf(),
        ensures
            r == lookup(self@.addrs, *addr),
    {
        match self.addr_to_node.get(addr) {
            Some(id) => Some(*id),
            None => None,
        }
    }

    pub(crate) fn present_members(&self, members: &AssocVec<NodeId, Member>, skip: &NodeId) -> (r: Vec<NodeId>)
        requires
            self.wf(),
        ensures
            r@ == present(viewed(members.entries@), self@.nodes, *skip),
    {
        let mut r: Vec<NodeId> = Vec::new();
        let n: usize = members.entries.len();
        let ghost all = viewed(members.entries@);
        assert(all.subrange(0, 0) =~= Seq::<Entry<NodeId, MemberView>>::empty());
        for i in 0..n
            invariant
                n == members.entries@.len(),
                all == viewed(members.entries@),
                self.wf(),
                r@ == present(all.subrange(0, i as int), self@.nodes, *skip),
        {
            let id = members.entries[i].value.node_id;
            assert(all.subrange(0, i + 1).drop_last() =~= all.subrange(0, i as int));
            assert(all.subrange(0, i + 1).last().value.node_id == id);
            if id != *skip && self.node(&id).is_some() {
                r.push(id);
            }
        }
        assert(all.subrange(0, n as int) =~= all);
        r
    }

    /// A member as the others see it.
    pub fn peer_info_for_member(&self, member: &Member) -> (p: PeerInfo)
        requires
            self.wf(),
        ensures
            p@ == peer_of(self@.nodes, member@),
    {
        let public_key: [u8; 32] = match self.node(&member.node_id) {
            Some(n) => n.public_key,
            None => [0u8; 32],
        };
        proof {
            if !has_key(self@.nodes, member.node_id) {
                assert(public_key@ =~= no_key());
            }
        }
        PeerInfo {
            node_id: member.node_id,
            virtual_ip: member.virtual_ip,
            nickname: member.nickname.clone(),
            public_key,
        }
    }

    fn push_punches(
        &self,
        out: &mut Vec<Outgoing>,
        ids: &Vec<NodeId>,
        target: NodeId,
        candidates: &Vec<Candidate>,
    )
        requires
            self.wf(),
            forall|i: int| 0 <= i < ids@.len() ==> has_key(self@.nodes, #[trigger] ids@[i]),
        ensures
            views(final(out)@) == views(old(out)@) + to_each(
                self@.nodes,
                ids@,
                FrameView::PunchRequest { target, candidates: candidates@ },
                false,
            ),
    {
        let ghost start = views(out@);
        let ghost frame = FrameView::PunchRequest { target, candidates: candidates@ };
        let ghost whole = to_each(self@.nodes, ids@, frame, false);
        let n: usize = ids.len();
        assert(start =~= start + whole.subrange(0, 0));
        for i in 0..n
            invariant
                n == ids@.len(),
                n == whole.len(),
                self.wf(),
                frame == (FrameView::PunchRequest { target, candidates: candidates@ }),
                whole == to_each(self@.nodes, ids@, frame, false),
                forall|k: int| 0 <= k < ids@.len() ==> has_key(self@.nodes, #[trigger] ids@[k]),
                views(out@) == start + whole.subrange(0, i as int),
        {
            let id = ids[i];
            assert(has_key(self@.nodes, ids@[i as int]));
            if let Some(n) = self.node(&id) {
                push_out(
                    out,
                    n.addr,
                    ControlFrame::PunchRequest {
                        target,
                        candidates: copy_candidates(candidates.as_slice()),
                    },
                    false,
                );
                assert(views(out@) =~= start + whole.subrange(0, i + 1));
            }
        }
        assert(whole.subrange(0, n as int) =~= whole);
    }

    pub(crate) fn push_updates(
        &self,
        out: &mut Vec<Outgoing>,
        ids: &Vec<NodeId>,
        peer: &PeerInfo,
        action: PeerAction,
        required: bool,
    )
        requires
            self.wf(),
            forall|i: int| 0 <= i < ids@.len() ==> has_key(self@.nodes, #[trigger] ids@[i]),
        ensures
            views(final(out)@) == views(old(out)@) + to_each(
                self@.nodes,
                ids@,
                FrameView::PeerUpdate { peer: peer@, action },
                required,
            ),
    {
        let ghost start = views(out@);
        let ghost frame = FrameView::PeerUpdate { peer: peer@, action };
        let ghost whole = to_each(self@.nodes, ids@, frame, required);
        let n: usize = ids.len();
        assert(start =~= start + whole.subrange(0, 0));
        for i in 0..n
            invariant
                n == ids@.len(),
                n == whole.len(),
                self.wf(),
                frame == (FrameView::PeerUpdate { peer: peer@, action }),
                whole == to_each(self@.nodes, ids@, frame, required),
                forall|k: int| 0 <= k < ids@.len() ==> has_key(self@.nodes, #[trigger] ids@[k]),
                views(out@) == start + whole.subrange(0, i as int),
        {
            let id = ids[i];
            assert(has_key(self@.nodes, ids@[i as int]));
            if let Some(n) = self.node(&id) {
                push_out(
                    out,
                    n.addr,
                    ControlFrame::PeerUpdate { peer: copy_peer(peer), action },
                    required,
                );
                assert(views(out@) =~= start + whole.subrange(0, i + 1));
            }
        }
        assert(whole.subrange(0, n as int) =~= whole);
    }

    /// Registers a node under the address that it writes from, and asks its room
    /// mates to reach for it.
    pub fn register_node(
        &mut self,
        node_id: NodeId,
        nat_type: NatType,
        external_addr: Option<SocketAddr>,
        public_key: [u8; 32],
        candidates: Vec<Candidate>,
        nickname: String,
        local_networks: &Vec<String>,
        addr: SocketAddr,
        now: u64,
    ) -> (out: Vec<Outgoing>)
        requires
            old(self).wf(),
        ensures
            final(self).wf(),
            final(self).same_setup(*old(self)),
            final(self).address_pool == old(self).address_pool,
            final(self)@ == registered(
                old(self)@,
                NodeView {
                    node_id,
                    addr,
                    nat_type,
                    external_addr,
                    public_key: public_key@,
                    candidates: candidates@,
                    nickname: nickname@,
                    local_networks: networks_of(texts(local_networks@)),
                    last_seen: now,
                },
            ),
            views(out@) == register_replies(final(self)@, node_id, addr, candidates@),
    {
        let ghost before = self.nodes.entries();
        proof {
            self.keys_are_distinct();
        }
        let nets = parse_local_networks(local_networks);
        let kept = copy_candidates(candidates.as_slice());
        let info = NodeInfo {
            node_id,
            addr,
            nat_type,
            external_addr,
            public_key,
            candidates: kept,
            nickname,
            local_networks: nets,
            last_seen: now,
        };
        let ghost iv = info;
        proof {
            viewed_put(before, node_id, info);
            put_is_insert(before, node_id, info);
        }
        self.nodes.insert(node_id, info);
        self.addr_to_node.insert(addr, node_id);
        proof {
            let after = self.nodes.entries();
            assert forall|i: int, k: int|
                0 <= i < after.len() && 0 <= k < after[i].value.local_networks@.len() implies (
            #[trigger] after[i].value.local_networks@[k]).wf() by {
                if has_key(before, node_id) && i == at(before, node_id) {
                    assert(after[i].value == iv);
                } else if i < before.len() {
                    assert(after[i] == before[i]);
                    assert(before[i].value.local_networks@[k].wf());
                } else {
                    assert(after[i].value == iv);
                }
            }
        }
        let mut out = one_out(addr, ControlFrame::RegisterOk, true);
        let mut mates: Vec<NodeId> = Vec::new();
        let n: usize = self.rooms.len();
        let ghost rooms = self@.rooms;
        assert(rooms.subrange(0, 0) =~= Seq::<Entry<RoomId, RoomView>>::empty());
        for i in 0..n
            invariant
                n == rooms.len(),
                self.wf(),
                rooms == self@.rooms,
                mates@ == room_mates(rooms.subrange(0, i as int), self@.nodes, node_id),
        {
            let room = &self.rooms.nth(i).value;
            assert(rooms.subrange(0, i + 1).drop_last() =~= rooms.subrange(0, i as int));
            assert(rooms.subrange(0, i + 1).last().value == room@);
            assert(room.wf());
            proof {
                viewed_lookup(room.members.entries@, node_id);
            }
            if room.members.contains_key(&node_id) {
                let mut more = self.present_members(&room.members, &node_id);
                mates.append(&mut more);
            }
            assert(mates@ =~= room_mates(rooms.subrange(0, i + 1), self@.nodes, node_id));
        }
        assert(rooms.subrange(0, n as int) =~= rooms);
        proof {
            room_mates_registered(rooms, self@.nodes, node_id);
        }
        self.push_punches(&mut out, &mates, node_id, &candidates);
        out
    }

    /// Opens a room for the node that writes from an address, and invites to it.
    pub fn create_room(
        &mut self,
        name: String,
        addr: SocketAddr,
        seed: RoomSeed,
        local_addr: Option<String>,
    ) -> (r: Result<Vec<Outgoing>, SupernodeError>)
        requires
            old(self).wf(),
        ensures
            final(self).wf(),
            final(self).same_setup(*old(self)),
            create_served(
                *old(self),
                *final(self),
                name@,
                addr,
                seed,
                opt_text(local_addr),
                r,
            ),
    {
        let node = match self.sender(&addr) {
            Some(id) => id,
            None => {
                return Ok(
                    one_out(
                        addr,
                        ControlFrame::Error {
                            code: 400,
                            message: "node not registered".to_string(),
                        },
                        true,
                    ),
                );
            },
        };
        let room_id = RoomId(seed.room_id);
        let join_token = hex_encode(seed.token.as_slice());
        let ghost start = *self;
        let (avoid, nickname, public_key): (Vec<Ipv4Net>, String, [u8; 32]) = match self.node(
            &node,
        ) {
            Some(n) => (copy_nets(&n.local_networks), n.nickname.clone(), n.public_key),
            None => (Vec::new(), "Owner".to_string(), [0u8; 32]),
        };
        proof {
            if !has_key(start@.nodes, node) {
                assert(public_key@ =~= no_key());
                assert(avoid@ =~= Seq::<Ipv4Net>::empty());
            }
        }
        let ghost pool_before = self.address_pool;
        let net = match self.address_pool.allocate_with_avoidance(room_id, avoid.as_slice()) {
            Ok(net) => net,
            Err(e) => {
                return Err(SupernodeError::Room(e));
            },
        };
        proof {
            put_is_insert(pool_before.allocations.entries@, room_id, net);
            assert(lookup(self.address_pool.allocations.entries@, room_id) == Some(net));
            let i = at(self.address_pool.allocations.entries@, room_id);
            assert(self.address_pool.allocations.entries@[i].key == room_id);
            assert(crate::room::is_subnet(
                self.address_pool.pool,
                self.address_pool.room_prefix_len,
                self.address_pool.allocations.entries@[i].value,
            ));
            assert(net.prefix <= 30);
        }
        let virtual_cidr = net.to_text();
        let mut room = Room::new(
            room_id,
            name,
            node,
            virtual_cidr.clone(),
            join_token.clone(),
        );
        let ghost fresh = room@;
        let ghost nick = nickname@;
        let assigned_ip = match room.add_or_reuse_member(node, nickname, MemberRole::Owner) {
            Ok(ip) => ip,
            Err(e) => {
                proof {
                    assert(reusable(fresh, node) is None);
                    assert(parsed_net(fresh.virtual_cidr) == Some(net));
                    room_for_one(net);
                    assert(crate::room::host_free(fresh, net, 1));
                    assert(false);
                }
                return Err(SupernodeError::Room(e));
            },
        };
        proof {
            assert(reusable(fresh, node) is None);
            assert(parsed_net(fresh.virtual_cidr) == Some(net));
            owner_gets_first_host(fresh, net, node, assigned_ip);
            self.keys_are_distinct();
            viewed_put(self.rooms.entries(), room_id, room);
            put_is_insert(self.rooms.entries(), room_id, room);
        }
        let ghost rv = room;
        let ghost rooms_before = self.rooms.entries();
        self.rooms.insert(room_id, room);
        proof {
            rooms_stay_sound(rooms_before, room_id, rv);
        }
        let primary = match self.public_supernode_addr(local_addr) {
            Some(a) => a,
            None => {
                return Err(SupernodeError::NoLocalAddress);
            },
        };
        let mut invite = InviteData {
            version: 2,
            primary_supernode: primary.clone(),
            fallback_supernodes: copy_texts(&self.config.peers),
            supernode_addr: primary,
            room_id,
            room_pub_key: public_key,
            virtual_cidr: Some(virtual_cidr.clone()),
            token: Some(join_token),
            expires_at: None,
            signature: None,
        };
        let ghost plain = invite@;
        assert(with_signature(plain, None) =~= plain);
        invite.sign(&self.invite_signing_key);
        let invite_code = invite.encode();
        proof {
            assert(invite@ =~= invitation(*self, primary@, rv@, public_key@));
        }
        Ok(
            one_out(
                addr,
                ControlFrame::RoomCreated { room_id, assigned_ip, virtual_cidr, invite_code },
                true,
            ),
        )
    }

    /// The address under which the supernode is to be found: the configured one,
    /// unless it is blank, or else its own.
    pub fn public_supernode_addr(&self, local_addr: Option<String>) -> (r: Option<String>)
        ensures
            r is None <==> !has_public(self.config) && local_addr is None,
            r is Some ==> r->0@ == public_text(self.config, local_addr->0@),
    {
        if let Some(a) = &self.config.public_addr {
            let t = trim(a.as_str());
            if !t.as_str().is_empty() {
                return Some(a.clone());
            }
        }
        local_addr
    }
}

impl Supernode {
    /// Sees to it that a room is there, for a node that asks for it, and tells
    /// where it stands. A room that is missing is set up anew.
    fn open_room(
        &mut self,
        room_id: RoomId,
        token: &Option<String>,
        room_name: &Option<String>,
        node: NodeId,
    ) -> (i: usize)
        requires
            old(self).wf(),
        ensures
            final(self).wf(),
            final(self).same_setup(*old(self)),
            room_opened(
                *old(self),
                *final(self),
                room_id,
                opt_text(*token),
                opt_text(*room_name),
                node,
            ),
            i < final(self).rooms.entries().len(),
            final(self).rooms.entries()[i as int].key == room_id,
            has_key(final(self)@.rooms, room_id),
            at(final(self)@.rooms, room_id) == i,
            lookup(final(self)@.rooms, room_id) == Some(
                final(self).rooms.entries()[i as int].value@,
            ),
    {
        proof {
            self.keys_are_distinct();
            viewed_lookup(self.rooms.entries(), room_id);
        }
        if let Some(i) = self.rooms.find(&room_id) {
            return i;
        }
        let name = match room_name {
            Some(n) => n.clone(),
            None => "Restored-".to_string().concat(room_id.to_text().as_str()),
        };
        let ghost pool = self.address_pool;
        let given = self.address_pool.allocate(room_id);
        proof {
            if given is Ok {
                put_is_insert(pool.allocations.entries@, room_id, given->Ok_0);
            }
            assert(allocation(pool, self.address_pool, room_id, Seq::<Ipv4Net>::empty(), given));
        }
        let virtual_cidr = match &given {
            Ok(net) => net.to_text(),
            Err(_) => "192.168.255.0/24".to_string(),
        };
        let join_token = match token {
            Some(t) => t.clone(),
            None => String::new(),
        };
        let room = Room::new(room_id, name, node, virtual_cidr, join_token);
        let ghost before = self.rooms.entries();
        assert(room@.members =~= Seq::<Entry<NodeId, MemberView>>::empty());
        proof {
            viewed_put(before, room_id, room);
            put_is_insert(before, room_id, room);
            rooms_stay_sound(before, room_id, room);
        }
        self.rooms.insert(room_id, room);
        proof {
            self.keys_are_distinct();
            viewed_lookup(self.rooms.entries(), room_id);
            at_is(self.rooms.entries(), before.len() as int);
        }
        self.rooms.len() - 1
    }

    /// Lets the node that writes from an address into a room, and introduces it
    /// to those that are there.
    pub fn join_room(
        &mut self,
        room_id: RoomId,
        token: Option<String>,
        room_name: Option<String>,
        addr: SocketAddr,
    ) -> (r: Result<Vec<Outgoing>, SupernodeError>)
        requires
            old(self).wf(),
        ensures
            final(self).wf(),
            final(self).same_setup(*old(self)),
            join_served(
                *old(self),
                *final(self),
                room_id,
                opt_text(token),
                opt_text(room_name),
                addr,
                r,
            ),
    {
        let node = match self.sender(&addr) {
            Some(id) => id,
            None => {
                return Ok(
                    one_out(
                        addr,
                        ControlFrame::JoinReject { reason: "node not registered".to_string() },
                        true,
                    ),
                );
            },
        };
        let i = self.open_room(room_id, &token, &room_name, node);
        let ghost mid = *self;
        let given = match token {
            Some(t) => t,
            None => String::new(),
        };
        proof {
            self.keys_are_distinct();
        }
        assert(self.rooms.entries()[i as int].value.wf());
        let ghost room = self.rooms.entries()[i as int].value@;
        if !same_text(self.rooms.nth(i).value.join_token.as_str(), given.as_str()) {
            return Ok(
                one_out(
                    addr,
                    ControlFrame::JoinReject { reason: "invalid invite token".to_string() },
                    true,
                ),
            );
        }
        let (homes, known_nick): (Vec<Ipv4Net>, Option<String>) = match self.node(&node) {
            Some(n) => (copy_nets(&n.local_networks), Some(n.nickname.clone())),
            None => (Vec::new(), None),
        };
        proof {
            if !has_key(mid@.nodes, node) {
                assert(homes@ =~= Seq::<Ipv4Net>::empty());
            }
        }
        if room_subnet_conflicts(self.rooms.nth(i).value.virtual_cidr.as_str(), homes.as_slice()) {
            return Ok(
                one_out(
                    addr,
                    ControlFrame::JoinReject {
                        reason: "room subnet conflicts with a local network on this device".to_string(),
                    },
                    true,
                ),
            );
        }
        proof {
            viewed_lookup(self.rooms.entries()[i as int].value.members.entries@, node);
        }
        let existing: Option<VirtualIp> = match self.rooms.nth(i).value.members.get(&node) {
            Some(m) => Some(m.virtual_ip),
            None => None,
        };
        let assigned_ip = match existing {
            Some(ip) => ip,
            None => {
                let nickname = match known_nick {
                    Some(n) => n,
                    None => {
                        let mut s = "Peer".to_string();
                        let count: u64 = self.rooms.nth(i).value.members.entries.len() as u64;
                        push_next(&mut s, count);
                        s
                    },
                };
                let ghost nick = nickname@;
                let ghost before = self.rooms.entries();
                let res = {
                    let r = self.rooms.value_mut(i);
                    r.add_or_reuse_member(node, nickname, MemberRole::Guest)
                };
                proof {
                    let after = self.rooms.entries();
                    let v = after[i as int].value;
                    update_is_put(before, i as int, v);
                    viewed_put(before, room_id, v);
                    rooms_stay_sound(before, room_id, v);
                    self.keys_are_distinct();
                    viewed_lookup(after, room_id);
                    at_is(after, i as int);
                }
                match res {
                    Ok(ip) => ip,
                    Err(e) => {
                        proof {
                            same_put(viewed(before), room_id);
                            assert(self@ =~= mid@);
                            assert(address_refused(room, node, MemberRole::Guest, e));
                            assert(join_answered(
                                mid@,
                                self@,
                                room_id,
                                opt_text(token),
                                node,
                                addr,
                                Err::<Vec<Outgoing>, SupernodeError>(SupernodeError::Room(e)),
                            ));
                        }
                        return Err(SupernodeError::Room(e));
                    },
                }
            },
        };
        let ghost joined = self.rooms.entries()[i as int].value@;
        proof {
            self.keys_are_distinct();
            viewed_lookup(self.rooms.entries(), room_id);
            at_is(self.rooms.entries(), i as int);
        }
        assert(self.rooms.entries()[i as int].value.wf());
        proof {
            if existing is None {
                put_is_insert(
                    room.members,
                    node,
                    MemberView {
                        node_id: node,
                        virtual_ip: assigned_ip,
                        nickname: nickname_of(
                            mid@.nodes,
                            node,
                            "Peer"@ + decimal((room.members.len() + 1) as nat),
                        ),
                        role: MemberRole::Guest,
                    },
                );
            }
        }
        let out = self.welcome(i, room_id, node, assigned_ip, addr);
        proof {
            assert(join_answered(
                mid@,
                self@,
                room_id,
                opt_text(token),
                node,
                addr,
                Ok::<Vec<Outgoing>, SupernodeError>(out),
            ));
        }
        Ok(out)
    }

    /// What a node that is a member now is sent, and the others about it.
    fn welcome(
        &self,
        i: usize,
        room_id: RoomId,
        node: NodeId,
        assigned_ip: VirtualIp,
        addr: SocketAddr,
    ) -> (out: Vec<Outgoing>)
        requires
            self.wf(),
            i < self.rooms.entries().len(),
            has_key(self.rooms.entries()[i as int].value@.members, node),
        ensures
            views(out@) == welcome_frames(
                self@.nodes,
                self.rooms.entries()[i as int].value@,
                room_id,
                node,
                assigned_ip,
                addr,
            ),
    {
        let room = &self.rooms.nth(i).value;
        assert(room.wf());
        let ghost rv = room@;
        let ghost nodes = self@.nodes;
        let mut out = one_out(
            addr,
            ControlFrame::JoinAccept {
                room_id,
                assigned_ip,
                virtual_cidr: room.virtual_cidr.clone(),
                room_name: Some(room.name.clone()),
            },
            true,
        );
        let peers = self.peers_in(&room.members);
        push_out(&mut out, addr, ControlFrame::PeerList { peers }, true);
        let ids = self.present_members(&room.members, &node);
        proof {
            present_registered(rv.members, nodes, node);
            viewed_lookup(room.members.entries@, node);
        }
        if let Some(m) = room.members.get(&node) {
            let joined = self.peer_info_for_member(m);
            let ghost start = views(out@);
            self.push_updates(&mut out, &ids, &joined, PeerAction::Add, true);
            if let Some(n) = self.node(&node) {
                self.push_introductions(&mut out, &ids, node, &n.candidates, addr);
            } else {
                assert(views(out@) =~= views(out@) + Seq::<OutView>::empty());
            }
        }
        assert(views(out@) =~= welcome_frames(nodes, rv, room_id, node, assigned_ip, addr));
        out
    }

    fn peers_in(&self, members: &AssocVec<NodeId, Member>) -> (r: Vec<PeerInfo>)
        requires
            self.wf(),
        ensures
            views(r@) == peers_of(self@.nodes, viewed(members.entries@)),
    {
        let mut r: Vec<PeerInfo> = Vec::new();
        let n: usize = members.entries.len();
        let ghost whole = peers_of(self@.nodes, viewed(members.entries@));
        assert(views(r@) =~= whole.subrange(0, 0));
        for i in 0..n
            invariant
                n == members.entries@.len(),
                self.wf(),
                whole == peers_of(self@.nodes, viewed(members.entries@)),
                views(r@) == whole.subrange(0, i as int),
        {
            let ghost before = views(r@);
            let p = self.peer_info_for_member(&members.entries[i].value);
            let ghost pv = p@;
            r.push(p);
            assert(views(r@) =~= before.push(pv));
            assert(views(r@) =~= whole.subrange(0, i + 1));
        }
        assert(whole.subrange(0, n as int) =~= whole);
        r
    }

    fn push_introductions(
        &self,
        out: &mut Vec<Outgoing>,
        ids: &Vec<NodeId>,
        node: NodeId,
        candidates: &Vec<Candidate>,
        addr: SocketAddr,
    )
        requires
            self.wf(),
            forall|i: int| 0 <= i < ids@.len() ==> has_key(self@.nodes, #[trigger] ids@[i]),
        ensures
            views(final(out)@) == views(old(out)@) + introductions(
                self@.nodes,
                ids@,
                node,
                candidates@,
                addr,
            ),
    {
        let ghost start = views(out@);
        let n: usize = ids.len();
        assert(ids@.subrange(0, 0) =~= Seq::<NodeId>::empty());
        assert(start =~= start + introductions(
            self@.nodes,
            ids@.subrange(0, 0),
            node,
            candidates@,
            addr,
        ));
        for i in 0..n
            invariant
                n == ids@.len(),
                self.wf(),
                forall|k: int| 0 <= k < ids@.len() ==> has_key(self@.nodes, #[trigger] ids@[k]),
                views(out@) == start + introductions(
                    self@.nodes,
                    ids@.subrange(0, i as int),
                    node,
                    candidates@,
                    addr,
                ),
        {
            let id = ids[i];
            let ghost front = ids@.subrange(0, i as int);
            let ghost longer = ids@.subrange(0, i + 1);
            assert(longer.drop_last() =~= front);
            assert(longer.last() == id);
            assert(has_key(self@.nodes, ids@[i as int]));
            if let Some(peer) = self.node(&id) {
                push_out(
                    out,
                    peer.addr,
                    ControlFrame::PunchRequest {
                        target: node,
                        candidates: copy_candidates(candidates.as_slice()),
                    },
                    true,
                );
                push_out(
                    out,
                    addr,
                    ControlFrame::PunchRequest {
                        target: id,
                        candidates: copy_candidates(peer.candidates.as_slice()),
                    },
                    true,
                );
                assert(views(out@) =~= start + introductions(
                    self@.nodes,
                    longer,
                    node,
                    candidates@,
                    addr,
                ));
            }
        }
        assert(ids@.subrange(0, n as int) =~= ids@);
    }

    /// Takes the node that writes from an address out of a room. The others are
    /// told, and a room that nobody is left in is closed.
    pub fn leave_room(&mut self, room_id: RoomId, addr: SocketAddr) -> (out: Vec<Outgoing>)
        requires
            old(self).wf(),
        ensures
            final(self).wf(),
            final(self).same_setup(*old(self)),
            left_room(*old(self), *final(self), room_id, addr, views(out@)),
    {
        let mut out: Vec<Outgoing> = Vec::new();
        assert(views(out@) =~= Seq::<OutView>::empty());
        let node = match self.sender(&addr) {
            Some(id) => id,
            None => {
                return out;
            },
        };
        proof {
            self.keys_are_distinct();
            viewed_lookup(self.rooms.entries(), room_id);
        }
        let i = match self.rooms.find(&room_id) {
            Some(i) => i,
            None => {
                return out;
            },
        };
        let ghost before = self.rooms.entries();
        let ghost nodes = self@.nodes;
        let ghost was = before[i as int].value@;
        assert(before[i as int].value.wf());
        proof {
            viewed_lookup(before[i as int].value.members.entries@, node);
        }
        let removed: Option<PeerInfo> = match self.rooms.nth(i).value.members.get(&node) {
            Some(m) => Some(self.peer_info_for_member(m)),
            None => None,
        };
        {
            let room = self.rooms.value_mut(i);
            room.remove_member(&node);
        }
        proof {
            let v = self.rooms.entries()[i as int].value;
            update_is_put(before, i as int, v);
            viewed_put(before, room_id, v);
            rooms_stay_sound(before, room_id, v);
            put_is_insert(before, room_id, v);
        }
        let ghost left = self.rooms.entries()[i as int].value@;
        if let Some(peer) = &removed {
            let ids = self.present_members(&self.rooms.nth(i).value.members, &node);
            proof {
                present_registered(left.members, nodes, node);
            }
            self.push_updates(&mut out, &ids, peer, PeerAction::Remove, true);
            assert(views(out@) =~= to_each(
                nodes,
                present(left.members, nodes, node),
                FrameView::PeerUpdate { peer: peer@, action: PeerAction::Remove },
                true,
            ));
        }
        if self.rooms.nth(i).value.members.entries.len() == 0 {
            let ghost mid = self.rooms.entries();
            proof {
                self.keys_are_distinct();
                viewed_cut(mid, room_id);
                cut_is_remove(mid, room_id);
            }
            let _ = self.rooms.remove(&room_id);
            self.address_pool.release(&room_id);
            proof {
                rooms_sound_after_cut(mid, room_id);
            }
        }
        out
    }

    /// What each room is listed as, in the order of the table.
    pub fn list_rooms(&self) -> (r: Vec<RoomDescription>)
        requires
            self.wf(),
        ensures
            views(r@) == room_list(self@.rooms),
    {
        let mut r: Vec<RoomDescription> = Vec::new();
        let n: usize = self.rooms.len();
        let ghost whole = room_list(self@.rooms);
        assert(views(r@) =~= whole.subrange(0, 0));
        for i in 0..n
            invariant
                n == self.rooms.entries().len(),
                whole == room_list(self@.rooms),
                views(r@) == whole.subrange(0, i as int),
        {
            let room = &self.rooms.nth(i).value;
            let ghost before = views(r@);
            r.push(
                RoomDescription {
                    room_id: room.room_id,
                    name: room.name.clone(),
                    member_count: room.members.entries.len(),
                },
            );
            assert(views(r@) =~= before.push(whole[i as int]));
            assert(views(r@) =~= whole.subrange(0, i + 1));
        }
        assert(whole.subrange(0, n as int) =~= whole);
        r
    }

    /// Serves a control frame that came from an address, given the chance for a
    /// new room and the own address of the supernode, if it is known.
    pub fn handle_control(
        &mut self,
        frame: ControlFrame,
        addr: SocketAddr,
        now: u64,
        seed: RoomSeed,
        local_addr: Option<String>,
    ) -> (r: Result<Vec<Outgoing>, SupernodeError>)
        requires
            old(self).wf(),
        ensures
            final(self).wf(),
            final(self).same_setup(*old(self)),
            control_served(
                *old(self),
                *final(self),
                frame@,
                addr,
                now,
                seed,
                opt_text(local_addr),
                r,
            ),
    {
        match frame {
            ControlFrame::RegisterNode {
                node_id,
                nat_type,
                external_addr,
                public_key,
                candidates,
                nickname,
                local_networks,
            } => Ok(
                self.register_node(
                    node_id,
                    nat_type,
                    external_addr,
                    public_key,
                    candidates,
                    nickname,
                    &local_networks,
                    addr,
                    now,
                ),
            ),
            ControlFrame::CreateRoom { name } => self.create_room(name, addr, seed, local_addr),
            ControlFrame::JoinRoom { room_id, token, room_name } => self.join_room(
                room_id,
                token,
                room_name,
                addr,
            ),
            ControlFrame::LeaveRoom { room_id } => Ok(self.leave_room(room_id, addr)),
            ControlFrame::Heartbeat => Ok(one_out(addr, ControlFrame::Heartbeat, false)),
            ControlFrame::QueryRooms => {
                let rooms = self.list_rooms();
                Ok(one_out(addr, ControlFrame::RoomsList { rooms }, false))
            },
            _ => {
                let out: Vec<Outgoing> = Vec::new();
                assert(views(out@) =~= Seq::<OutView>::empty());
                Ok(out)
            },
        }
    }

    /// Serves a control frame with fresh chance for a new room.
    pub fn serve(&mut self, frame: ControlFrame, addr: SocketAddr, now: u64, local_addr: Option<
        String,
    >) -> (r: Result<Vec<Outgoing>, SupernodeError>)
        requires
            old(self).wf(),
        ensures
            final(self).wf(),
            final(self).same_setup(*old(self)),
            exists|seed: RoomSeed| #[trigger]
                control_served(
                    *old(self),
                    *final(self),
                    frame@,
                    addr,
                    now,
                    seed,
                    opt_text(local_addr),
                    r,
                ),
    {
        let b = random_bytes();
        let seed = RoomSeed {
            room_id: crate::bytes::read_array(b.as_slice(), 0),
            token: crate::bytes::read_array(b.as_slice(), 16),
        };
        self.handle_control(frame, addr, now, seed, local_addr)
    }
}

/// Appends the number after one.
fn push_next(out: &mut String, n: u64)
    ensures
        final(out)@ == old(out)@ + decimal((n + 1) as nat),
{
    if n == u64::MAX {
        out.append("18446744073709551616");
        proof {
            big_decimal();
        }
    } else {
        push_decimal(out, n + 1);
    }
}

proof fn big_decimal()
    ensures
        decimal(18446744073709551616) == "18446744073709551616"@,
{
    reveal_with_fuel(decimal, 21);
    reveal_strlit("18446744073709551616");
    assert(decimal(18446744073709551616) =~= "18446744073709551616"@);
}

proof fn same_put(s: Seq<Entry<RoomId, RoomView>>, k: RoomId)
    requires
        has_key(s, k),
    ensures
        put(s, k, s[at(s, k)].value) == s,
{
    let i = at(s, k);
    assert(s[i].key == k);
    assert(put(s, k, s[i].value) =~= s);
}

pub(crate) proof fn rooms_sound_after_cut(before: Seq<Entry<RoomId, Room>>, k: RoomId)
    requires
        forall|i: int| 0 <= i < before.len() ==> sound((#[trigger] before[i]).value),
    ensures
        forall|i: int| 0 <= i < cut(before, k).len() ==> sound((#[trigger] cut(before, k)[i]).value),
{
    let after = cut(before, k);
    assert forall|i: int| 0 <= i < after.len() implies sound((#[trigger] after[i]).value) by {
        if has_key(before, k) {
            let p = at(before, k);
            assert(before[p].key == k);
            if i == p {
                assert(after[i] == before[before.len() - 1]);
            } else {
                assert(after[i] == before[i]);
            }
        }
    }
}

/// What each room is listed as.
pub open spec fn room_list(rooms: Seq<Entry<RoomId, RoomView>>) -> Seq<RoomDescriptionView> {
    Seq::new(
        rooms.len(),
        |i: int|
            RoomDescriptionView {
                room_id: rooms[i].value.room_id,
                name: rooms[i].value.name,
                member_count: rooms[i].value.members.len(),
            },
    )
}

/// A refusal to let a node in.
pub open spec fn rejection(reason: Seq<char>) -> FrameView {
    FrameView::JoinReject { reason }
}

/// The room that is asked for is there: it was there, or it was set up with the
/// subnet that the pool gave it, or a makeshift one where the pool had none.
pub open spec fn room_opened(
    before: Supernode,
    after: Supernode,
    room_id: RoomId,
    token: Option<Seq<char>>,
    room_name: Option<Seq<char>>,
    node: NodeId,
) -> bool {
    if has_key(before@.rooms, room_id) {
        after@ == before@ && after.address_pool == before.address_pool
    } else {
        let got = lookup(after.address_pool.allocations.entries@, room_id);
        &&& exists|r: Result<Ipv4Net, RoomError>| #[trigger]
            allocation(before.address_pool, after.address_pool, room_id, Seq::empty(), r) && (r
                is Ok ==> got == Some(r->Ok_0)) && (r is Err ==> got is None)
        &&& after@ == (SupernodeView {
            rooms: put(
                before@.rooms,
                room_id,
                RoomView {
                    room_id,
                    name: match room_name {
                        Some(n) => n,
                        None => "Restored-"@ + hex_text(room_id.0@),
                    },
                    owner: node,
                    virtual_cidr: match got {
                        Some(net) => net_text(net),
                        None => "192.168.255.0/24"@,
                    },
                    join_token: match token {
                        Some(t) => t,
                        None => Seq::empty(),
                    },
                    members: Seq::empty(),
                    leases: Seq::empty(),
                },
            ),
            ..before@
        })
    }
}

/// What a node that is a member now is sent, and the others about it.
pub open spec fn welcome_frames(
    nodes: Seq<Entry<NodeId, NodeView>>,
    room: RoomView,
    room_id: RoomId,
    node: NodeId,
    ip: VirtualIp,
    addr: SocketAddr,
) -> Seq<OutView> {
    let ids = present(room.members, nodes, node);
    to_one(
        addr,
        FrameView::JoinAccept {
            room_id,
            assigned_ip: ip,
            virtual_cidr: room.virtual_cidr,
            room_name: Some(room.name),
        },
        true,
    ) + to_one(addr, FrameView::PeerList { peers: peers_of(nodes, room.members) }, true) + to_each(
        nodes,
        ids,
        FrameView::PeerUpdate {
            peer: peer_of(nodes, lookup(room.members, node)->0),
            action: PeerAction::Add,
        },
        true,
    ) + (match lookup(nodes, node) {
        Some(n) => introductions(nodes, ids, node, n.candidates, addr),
        None => Seq::empty(),
    })
}

/// How a node that asks to be let into a room which is there is answered. A
/// wrong token or a network that the node has at home already is refused; a
/// member stays what it is; a newcomer gets an address if one is to be had.
pub open spec fn join_answered(
    before: SupernodeView,
    after: SupernodeView,
    room_id: RoomId,
    token: Option<Seq<char>>,
    node: NodeId,
    addr: SocketAddr,
    r: Result<Vec<Outgoing>, SupernodeError>,
) -> bool {
    let room = lookup(before.rooms, room_id)->0;
    let given = match token {
        Some(t) => t,
        None => Seq::empty(),
    };
    if room.join_token != given {
        &&& after == before
        &&& r is Ok
        &&& views(r->Ok_0@) == to_one(addr, rejection("invalid invite token"@), true)
    } else if conflicts(room.virtual_cidr, home_networks(before.nodes, node)) {
        &&& after == before
        &&& r is Ok
        &&& views(r->Ok_0@) == to_one(
            addr,
            rejection("room subnet conflicts with a local network on this device"@),
            true,
        )
    } else if has_key(room.members, node) {
        &&& after == before
        &&& r is Ok
        &&& views(r->Ok_0@) == welcome_frames(
            before.nodes,
            room,
            room_id,
            node,
            lookup(room.members, node)->0.virtual_ip,
            addr,
        )
    } else {
        match r {
            Ok(out) => exists|ip: VirtualIp| #[trigger]
                address_for(room, node, MemberRole::Guest, ip) && {
                    let joined = with_member(
                        room,
                        MemberView {
                            node_id: node,
                            virtual_ip: ip,
                            nickname: nickname_of(
                                before.nodes,
                                node,
                                "Peer"@ + decimal((room.members.len() + 1) as nat),
                            ),
                            role: MemberRole::Guest,
                        },
                    );
                    &&& after == (SupernodeView {
                        rooms: put(before.rooms, room_id, joined),
                        ..before
                    })
                    &&& views(out@) == welcome_frames(
                        before.nodes,
                        joined,
                        room_id,
                        node,
                        ip,
                        addr,
                    )
                },
            Err(e) => {
                &&& after == before
                &&& e is Room
                &&& address_refused(room, node, MemberRole::Guest, e->Room_0)
            },
        }
    }
}

/// How a node leaves a room.
pub open spec fn left_room(
    before: Supernode,
    after: Supernode,
    room_id: RoomId,
    addr: SocketAddr,
    out: Seq<OutView>,
) -> bool {
    let node = lookup(before@.addrs, addr);
    let room = lookup(before@.rooms, room_id);
    if node is None || room is None {
        &&& after@ == before@
        &&& after.address_pool == before.address_pool
        &&& out == Seq::<OutView>::empty()
    } else {
        let left = without_member(room->0, node->0);
        let nodes = before@.nodes;
        let kept = put(before@.rooms, room_id, left);
        &&& out == if has_key(room->0.members, node->0) {
            to_each(
                nodes,
                present(left.members, nodes, node->0),
                FrameView::PeerUpdate {
                    peer: peer_of(nodes, lookup(room->0.members, node->0)->0),
                    action: PeerAction::Remove,
                },
                true,
            )
        } else {
            Seq::empty()
        }
        &&& if left.members.len() == 0 {
            &&& after@ == (SupernodeView { rooms: cut(kept, room_id), ..before@ })
            &&& after.address_pool.pool == before.address_pool.pool
            &&& after.address_pool.room_prefix_len == before.address_pool.room_prefix_len
            &&& after.address_pool.allocations.entries@ == cut(
                before.address_pool.allocations.entries@,
                room_id,
            )
        } else {
            &&& after@ == (SupernodeView { rooms: kept, ..before@ })
            &&& after.address_pool == before.address_pool
        }
    }
}

/// How a request for a new room is served. Only a registered node may have one.
pub open spec fn create_served(
    before: Supernode,
    after: Supernode,
    name: Seq<char>,
    addr: SocketAddr,
    seed: RoomSeed,
    local: Option<Seq<char>>,
    r: Result<Vec<Outgoing>, SupernodeError>,
) -> bool {
    match lookup(before@.addrs, addr) {
        None => {
            &&& r is Ok
            &&& views(r->Ok_0@) == to_one(
                addr,
                FrameView::Error { code: 400, message: "node not registered"@ },
                true,
            )
            &&& after@ == before@
            &&& after.address_pool == before.address_pool
        },
        Some(node) => room_created(before, after, node, name, addr, seed, local, r),
    }
}

/// How a request to be let into a room is served. Only a registered node gets
/// past the door, and a room that is missing is set up first.
pub open spec fn join_served(
    before: Supernode,
    after: Supernode,
    room_id: RoomId,
    token: Option<Seq<char>>,
    room_name: Option<Seq<char>>,
    addr: SocketAddr,
    r: Result<Vec<Outgoing>, SupernodeError>,
) -> bool {
    match lookup(before@.addrs, addr) {
        None => {
            &&& r is Ok
            &&& views(r->Ok_0@) == to_one(addr, rejection("node not registered"@), true)
            &&& after@ == before@
            &&& after.address_pool == before.address_pool
        },
        Some(node) => exists|mid: Supernode| #[trigger]
            room_opened(before, mid, room_id, token, room_name, node) && after.address_pool
                == mid.address_pool && join_answered(mid@, after@, room_id, token, node, addr, r),
    }
}

/// How a control frame is served.
pub open spec fn control_served(
    before: Supernode,
    after: Supernode,
    frame: FrameView,
    addr: SocketAddr,
    now: u64,
    seed: RoomSeed,
    local: Option<Seq<char>>,
    r: Result<Vec<Outgoing>, SupernodeError>,
) -> bool {
    match frame {
        FrameView::RegisterNode {
            node_id,
            nat_type,
            external_addr,
            public_key,
            candidates,
            nickname,
            local_networks,
        } => {
            &&& r is Ok
            &&& after.address_pool == before.address_pool
            &&& after@ == registered(
                before@,
                NodeView {
                    node_id,
                    addr,
                    nat_type,
                    external_addr,
                    public_key,
                    candidates,
                    nickname,
                    local_networks: networks_of(local_networks),
                    last_seen: now,
                },
            )
            &&& views(r->Ok_0@) == register_replies(after@, node_id, addr, candidates)
        },
        FrameView::CreateRoom { name } => create_served(
            before,
            after,
            name,
            addr,
            seed,
            local,
            r,
        ),
        FrameView::JoinRoom { room_id, token, room_name } => join_served(
            before,
            after,
            room_id,
            token,
            room_name,
            addr,
            r,
        ),
        FrameView::LeaveRoom { room_id } => r is Ok && left_room(
            before,
            after,
            room_id,
            addr,
            views(r->Ok_0@),
        ),
        FrameView::Heartbeat => {
            &&& r is Ok
            &&& views(r->Ok_0@) == to_one(addr, FrameView::Heartbeat, false)
            &&& after@ == before@
            &&& after.address_pool == before.address_pool
        },
        FrameView::QueryRooms => {
            &&& r is Ok
            &&& views(r->Ok_0@) == to_one(
                addr,
                FrameView::RoomsList { rooms: room_list(before@.rooms) },
                false,
            )
            &&& after@ == before@
            &&& after.address_pool == before.address_pool
        },
        _ => {
            &&& r is Ok
            &&& views(r->Ok_0@) == Seq::<OutView>::empty()
            &&& after@ == before@
            &&& after.address_pool == before.address_pool
        },
    }
}

/// In every room the members have addresses of their own.
pub proof fn members_have_own_addresses(s: Supernode)
    requires
        s.wf(),
    ensures
        forall|i: int|
            0 <= i < s@.rooms.len() ==> addresses_distinct((#[trigger] s@.rooms[i]).value.members),
{
    assert forall|i: int| 0 <= i < s@.rooms.len() implies addresses_distinct(
        (#[trigger] s@.rooms[i]).value.members,
    ) by {
        assert(sound(s.rooms.entries()[i].value));
    }
}

/// Whoever comes to a room with a wrong token is turned away, and nothing
/// changes.
pub proof fn wrong_token_is_turned_away(
    before: Supernode,
    after: Supernode,
    room_id: RoomId,
    token: Option<Seq<char>>,
    room_name: Option<Seq<char>>,
    addr: SocketAddr,
    r: Result<Vec<Outgoing>, SupernodeError>,
)
    requires
        join_served(before, after, room_id, token, room_name, addr, r),
        has_key(before@.addrs, addr),
        has_key(before@.rooms, room_id),
        lookup(before@.rooms, room_id)->0.join_token != (match token {
            Some(t) => t,
            None => Seq::empty(),
        }),
    ensures
        after@ == before@,
        after.address_pool == before.address_pool,
        r is Ok,
        views(r->Ok_0@) == to_one(addr, rejection("invalid invite token"@), true),
{
}

/// A member that comes to its room again stays what it is, and is told the
/// address that it has.
pub proof fn coming_again_changes_nothing(
    before: SupernodeView,
    after: SupernodeView,
    room_id: RoomId,
    token: Option<Seq<char>>,
    node: NodeId,
    addr: SocketAddr,
    r: Result<Vec<Outgoing>, SupernodeError>,
)
    requires
        join_answered(before, after, room_id, token, node, addr, r),
        has_key(lookup(before.rooms, room_id)->0.members, node),
    ensures
        after == before,
        r is Ok,
        ({
            let room = lookup(before.rooms, room_id)->0;
            let given = match token {
                Some(t) => t,
                None => Seq::empty(),
            };
            room.join_token == given && !conflicts(
                room.virtual_cidr,
                home_networks(before.nodes, node),
            ) ==> views(r->Ok_0@)[0] == (OutView {
                target: addr,
                frame: FrameView::JoinAccept {
                    room_id,
                    assigned_ip: lookup(room.members, node)->0.virtual_ip,
                    virtual_cidr: room.virtual_cidr,
                    room_name: Some(room.name),
                },
                required: true,
            })
        }),
{
}

/// A newcomer that is let in is a member then, at the address that it is told.
pub proof fn who_is_let_in_is_a_member(
    before: SupernodeView,
    after: SupernodeView,
    room_id: RoomId,
    token: Option<Seq<char>>,
    node: NodeId,
    addr: SocketAddr,
    r: Result<Vec<Outgoing>, SupernodeError>,
)
    requires
        distinct(before.rooms),
        distinct(lookup(before.rooms, room_id)->0.members),
        join_answered(before, after, room_id, token, node, addr, r),
        r is Ok,
        views(r->Ok_0@)[0].frame is JoinAccept,
        has_key(before.rooms, room_id),
    ensures
        has_key(lookup(after.rooms, room_id)->0.members, node),
        lookup(lookup(after.rooms, room_id)->0.members, node)->0.virtual_ip == views(
            r->Ok_0@,
        )[0].frame->JoinAccept_assigned_ip,
{
    let room = lookup(before.rooms, room_id)->0;
    if !has_key(room.members, node) && !(views(r->Ok_0@)[0].frame is JoinReject) {
        let ip = choose|ip: VirtualIp| #[trigger]
            address_for(room, node, MemberRole::Guest, ip) && {
                let joined = with_member(
                    room,
                    MemberView {
                        node_id: node,
                        virtual_ip: ip,
                        nickname: nickname_of(
                            before.nodes,
                            node,
                            "Peer"@ + decimal((room.members.len() + 1) as nat),
                        ),
                        role: MemberRole::Guest,
                    },
                );
                &&& after == (SupernodeView { rooms: put(before.rooms, room_id, joined), ..before })
                &&& views(r->Ok_0@) == welcome_frames(
                    before.nodes,
                    joined,
                    room_id,
                    node,
                    ip,
                    addr,
                )
            };
        let m = MemberView {
            node_id: node,
            virtual_ip: ip,
            nickname: nickname_of(
                before.nodes,
                node,
                "Peer"@ + decimal((room.members.len() + 1) as nat),
            ),
            role: MemberRole::Guest,
        };
        put_is_insert(room.members, node, m);
        put_is_insert(before.rooms, room_id, with_member(room, m));
    }
}

/// Rooms stay sound when one is put among them.
proof fn rooms_stay_sound(before: Seq<Entry<RoomId, Room>>, k: RoomId, room: Room)
    requires
        sound(room),
        forall|i: int| 0 <= i < before.len() ==> sound((#[trigger] before[i]).value),
    ensures
        forall|i: int|
            0 <= i < put(before, k, room).len() ==> sound((#[trigger] put(before, k, room)[i]).value),
{
    let after = put(before, k, room);
    assert forall|i: int| 0 <= i < after.len() implies sound((#[trigger] after[i]).value) by {
        if i < before.len() {
            assert(sound(before[i].value));
        }
    }
}

fn copy_nets(v: &Vec<Ipv4Net>) -> (r: Vec<Ipv4Net>)
    ensures
        r@ == v@,
{
    let mut r: Vec<Ipv4Net> = Vec::new();
    let n: usize = v.len();
    for i in 0..n
        invariant
            n == v@.len(),
            r@ == v@.subrange(0, i as int),
    {
        r.push(v[i]);
        assert(r@ =~= v@.subrange(0, i + 1));
    }
    assert(v@.subrange(0, n as int) =~= v@);
    r
}

/// The state after a node registered.
pub open spec fn registered(v: SupernodeView, info: NodeView) -> SupernodeView {
    SupernodeView {
        nodes: put(v.nodes, info.node_id, info),
        addrs: put(v.addrs, info.addr, info.node_id),
        rooms: v.rooms,
    }
}

/// What is sent when a node has registered.
pub open spec fn register_replies(
    v: SupernodeView,
    node: NodeId,
    addr: SocketAddr,
    candidates: Seq<Candidate>,
) -> Seq<OutView> {
    to_one(addr, FrameView::RegisterOk, true) + to_each(
        v.nodes,
        room_mates(v.rooms, v.nodes, node),
        FrameView::PunchRequest { target: node, candidates },
        false,
    )
}

/// How a registered node is called in a room of its own.
pub open spec fn nickname_of(
    nodes: Seq<Entry<NodeId, NodeView>>,
    id: NodeId,
    otherwise: Seq<char>,
) -> Seq<char> {
    match lookup(nodes, id) {
        Some(n) => n.nickname,
        None => otherwise,
    }
}

/// A room that a node just opened, with a network and an address for the node.
pub open spec fn opened_room(
    before: Supernode,
    node: NodeId,
    name: Seq<char>,
    seed: RoomSeed,
    net: Ipv4Net,
    ip: VirtualIp,
) -> RoomView {
    with_member(
        RoomView {
            room_id: RoomId(seed.room_id),
            name,
            owner: node,
            virtual_cidr: net_text(net),
            join_token: hex_text(seed.token@),
            members: Seq::empty(),
            leases: Seq::empty(),
        },
        MemberView {
            node_id: node,
            virtual_ip: ip,
            nickname: nickname_of(before@.nodes, node, "Owner"@),
            role: MemberRole::Owner,
        },
    )
}

/// How a request for a room is answered: the pool gives the room a subnet that
/// has no address in common with the networks of the node, the node becomes its
/// owner with the first address, and the invitation goes out.
pub open spec fn room_created(
    before: Supernode,
    after: Supernode,
    node: NodeId,
    name: Seq<char>,
    addr: SocketAddr,
    seed: RoomSeed,
    local: Option<Seq<char>>,
    r: Result<Vec<Outgoing>, SupernodeError>,
) -> bool {
    let room_id = RoomId(seed.room_id);
    let nodes = before@.nodes;
    let avoid = home_networks(nodes, node);
    let got = lookup(after.address_pool.allocations.entries@, room_id);
    match r {
        Err(SupernodeError::Room(e)) => {
            &&& allocation(before.address_pool, after.address_pool, room_id, avoid, Err(e))
            &&& after@ == before@
        },
        _ => {
            &&& got is Some
            &&& allocation(before.address_pool, after.address_pool, room_id, avoid, Ok(got->0))
            &&& exists|ip: VirtualIp| #[trigger]
                ip.0@ == host_ip(got->0, 1) && {
                    let room = opened_room(before, node, name, seed, got->0, ip);
                    let primary = public_text(before.config, local->0);
                    &&& after@ == (SupernodeView {
                        rooms: put(before@.rooms, room_id, room),
                        ..before@
                    })
                    &&& r is Err <==> !has_public(before.config) && local is None
                    &&& r is Err ==> r->Err_0 is NoLocalAddress
                    &&& r is Ok ==> views(r->Ok_0@) == to_one(
                        addr,
                        FrameView::RoomCreated {
                            room_id,
                            assigned_ip: ip,
                            virtual_cidr: net_text(got->0),
                            invite_code: b64_text(
                                invite_wire(
                                    invitation(before, primary, room, key_of(nodes, node)),
                                ),
                            ),
                        },
                        true,
                    )
                }
        },
    }
}

pub(crate) proof fn present_is(
    members: Seq<Entry<NodeId, MemberView>>,
    nodes: Seq<Entry<NodeId, NodeView>>,
    skip: NodeId,
    id: NodeId,
)
    requires
        filed(members),
    ensures
        present(members, nodes, skip).contains(id) <==> has_key(members, id) && id != skip
            && has_key(nodes, id),
    decreases members.len(),
{
    if members.len() > 0 {
        let short = members.drop_last();
        let last = members.len() - 1;
        assert(filed(short)) by {
            assert forall|i: int| 0 <= i < short.len() implies (#[trigger] short[i]).key
                == short[i].value.node_id by {
                assert(short[i] == members[i]);
            }
        }
        present_is(short, nodes, skip, id);
        let before = present(short, nodes, skip);
        let all = present(members, nodes, skip);
        assert(members[last].key == members[last].value.node_id);
        if all.contains(id) {
            let j = all.index_of(id);
            if j < before.len() {
                assert(before[j] == id);
                let i = at(short, id);
                assert(short[i].key == id);
                assert(members[i].key == id);
            } else {
                assert(members[last].key == id);
            }
        }
        if has_key(members, id) && id != skip && has_key(nodes, id) {
            let i = at(members, id);
            assert(members[i].key == id);
            if i < last {
                assert(short[i].key == id);
                assert(all[before.index_of(id)] == id);
            } else {
                assert(all[all.len() - 1] == id);
            }
        }
    }
}

proof fn present_once(
    members: Seq<Entry<NodeId, MemberView>>,
    nodes: Seq<Entry<NodeId, NodeView>>,
    skip: NodeId,
)
    requires
        filed(members),
        distinct(members),
    ensures
        present(members, nodes, skip).no_duplicates(),
    decreases members.len(),
{
    if members.len() > 0 {
        let short = members.drop_last();
        let last = members.len() - 1;
        assert(filed(short) && distinct(short)) by {
            assert forall|i: int| 0 <= i < short.len() implies (#[trigger] short[i]).key
                == short[i].value.node_id by {
                assert(short[i] == members[i]);
            }
            assert forall|i: int, j: int|
                0 <= i < short.len() && 0 <= j < short.len() && i != j implies #[trigger] short[i].key
                != #[trigger] short[j].key by {
                assert(members[i].key != members[j].key);
            }
        }
        present_once(short, nodes, skip);
        let before = present(short, nodes, skip);
        let id = members.last().value.node_id;
        present_is(short, nodes, skip, id);
        assert(members[last].key == id);
        if has_key(short, id) {
            let i = at(short, id);
            assert(short[i].key == id);
            assert(members[i].key == members[last].key);
        }
        assert(!before.contains(id));
        let all = present(members, nodes, skip);
        assert forall|i: int, j: int| 0 <= i < all.len() && 0 <= j < all.len() && i != j implies all[i]
            != all[j] by {
            if i < before.len() && j < before.len() {
                assert(before[i] != before[j]);
            } else if i < before.len() {
                assert(before.contains(before[i]));
            } else if j < before.len() {
                assert(before.contains(before[j]));
            }
        }
    }
}

proof fn introductions_at(
    nodes: Seq<Entry<NodeId, NodeView>>,
    ids: Seq<NodeId>,
    node: NodeId,
    candidates: Seq<Candidate>,
    addr: SocketAddr,
)
    ensures
        introductions(nodes, ids, node, candidates, addr).len() == 2 * ids.len(),
        forall|i: int|
            #![trigger ids[i]]
            0 <= i < ids.len() ==> introductions(nodes, ids, node, candidates, addr)[2 * i] == (
            OutView {
                target: lookup(nodes, ids[i])->0.addr,
                frame: FrameView::PunchRequest { target: node, candidates },
                required: true,
            }) && introductions(nodes, ids, node, candidates, addr)[2 * i + 1] == (OutView {
                target: addr,
                frame: FrameView::PunchRequest {
                    target: ids[i],
                    candidates: lookup(nodes, ids[i])->0.candidates,
                },
                required: true,
            }),
    decreases ids.len(),
{
    if ids.len() > 0 {
        let short = ids.drop_last();
        introductions_at(nodes, short, node, candidates, addr);
        assert forall|i: int|
            #![trigger ids[i]]
            0 <= i < ids.len() implies introductions(nodes, ids, node, candidates, addr)[2 * i] == (
        OutView {
            target: lookup(nodes, ids[i])->0.addr,
            frame: FrameView::PunchRequest { target: node, candidates },
            required: true,
        }) && introductions(nodes, ids, node, candidates, addr)[2 * i + 1] == (OutView {
            target: addr,
            frame: FrameView::PunchRequest {
                target: ids[i],
                candidates: lookup(nodes, ids[i])->0.candidates,
            },
            required: true,
        }) by {
            if i < short.len() {
                assert(short[i] == ids[i]);
            }
        }
    }
}

/// A frame is among those that are sent to an address.
pub open spec fn is_sent(out: Seq<OutView>, target: SocketAddr, frame: FrameView) -> bool {
    exists|j: int|
        0 <= j < out.len() && (#[trigger] out[j]).target == target && out[j].frame == frame
}

/// A frame of an accepted request tells the truth: a node that is to be reached
/// for is a registered member, and is to be found where it said; what is told of
/// a peer is what is known of it.
pub open spec fn tells_the_truth(
    nodes: Seq<Entry<NodeId, NodeView>>,
    room: RoomView,
    node: NodeId,
    addr: SocketAddr,
    o: OutView,
) -> bool {
    match o.frame {
        FrameView::PunchRequest { target, candidates } => {
            &&& has_key(nodes, target)
            &&& has_key(room.members, target)
            &&& candidates == lookup(nodes, target)->0.candidates
            &&& target != node ==> o.target == addr
            &&& target == node ==> exists|id: NodeId|
                id != node && #[trigger] has_key(nodes, id) && has_key(room.members, id) && o.target
                    == lookup(nodes, id)->0.addr
        },
        FrameView::PeerUpdate { peer, action } => {
            &&& action == PeerAction::Add
            &&& peer.node_id == node
            &&& peer.virtual_ip == lookup(room.members, node)->0.virtual_ip
            &&& peer.nickname == lookup(room.members, node)->0.nickname
            &&& has_key(nodes, node) ==> peer.public_key == lookup(nodes, node)->0.public_key
            &&& exists|id: NodeId|
                id != node && #[trigger] has_key(nodes, id) && has_key(room.members, id) && o.target
                    == lookup(nodes, id)->0.addr
        },
        FrameView::PeerList { peers } => {
            &&& o.target == addr
            &&& peers.len() == room.members.len()
            &&& forall|i: int|
                0 <= i < peers.len() ==> (#[trigger] peers[i]).node_id == room.members[i].key
                    && peers[i].virtual_ip == room.members[i].value.virtual_ip && peers[i].nickname
                    == room.members[i].value.nickname && (has_key(nodes, room.members[i].key)
                    ==> peers[i].public_key == lookup(nodes, room.members[i].key)->0.public_key)
        },
        FrameView::JoinAccept { room_id, assigned_ip, virtual_cidr, room_name } => {
            &&& o.target == addr
            &&& assigned_ip == lookup(room.members, node)->0.virtual_ip
            &&& virtual_cidr == room.virtual_cidr
            &&& room_name == Some(room.name)
        },
        _ => false,
    }
}

proof fn welcomes_tell_the_truth(
    nodes: Seq<Entry<NodeId, NodeView>>,
    room: RoomView,
    room_id: RoomId,
    node: NodeId,
    addr: SocketAddr,
)
    requires
        distinct(room.members),
        filed(room.members),
        has_key(room.members, node),
        has_key(nodes, node),
    ensures
        ({
            let ip = lookup(room.members, node)->0.virtual_ip;
            let out = welcome_frames(nodes, room, room_id, node, ip, addr);
            let ids = present(room.members, nodes, node);
            &&& out.len() == 2 + 3 * ids.len()
            &&& forall|j: int|
                0 <= j < out.len() ==> tells_the_truth(nodes, room, node, addr, #[trigger] out[j])
            &&& forall|i: int| 0 <= i < ids.len() ==> {
                let id = #[trigger] ids[i];
                &&& is_sent(
                    out,
                    addr,
                    FrameView::PunchRequest {
                        target: id,
                        candidates: lookup(nodes, id)->0.candidates,
                    },
                )
                &&& is_sent(
                    out,
                    lookup(nodes, id)->0.addr,
                    FrameView::PunchRequest {
                        target: node,
                        candidates: lookup(nodes, node)->0.candidates,
                    },
                )
                &&& is_sent(
                    out,
                    lookup(nodes, id)->0.addr,
                    FrameView::PeerUpdate {
                        peer: PeerInfoView {
                            node_id: node,
                            virtual_ip: ip,
                            nickname: lookup(room.members, node)->0.nickname,
                            public_key: lookup(nodes, node)->0.public_key,
                        },
                        action: PeerAction::Add,
                    },
                )
            }
        }),
{
    let ip = lookup(room.members, node)->0.virtual_ip;
    let out = welcome_frames(nodes, room, room_id, node, ip, addr);
    let ids = present(room.members, nodes, node);
    let n = ids.len() as int;
    let candidates = lookup(nodes, node)->0.candidates;
    let intro = introductions(nodes, ids, node, candidates, addr);
    introductions_at(nodes, ids, node, candidates, addr);
    let me = lookup(room.members, node)->0;
    assert(room.members[at(room.members, node)].key == node);
    assert(me.node_id == node);
    let update = FrameView::PeerUpdate {
        peer: PeerInfoView {
            node_id: node,
            virtual_ip: ip,
            nickname: me.nickname,
            public_key: lookup(nodes, node)->0.public_key,
        },
        action: PeerAction::Add,
    };
    assert forall|i: int| 0 <= i < n implies out[2 + i] == (OutView {
        target: lookup(nodes, #[trigger] ids[i])->0.addr,
        frame: update,
        required: true,
    }) && out[2 + n + 2 * i] == intro[2 * i] && out[2 + n + 2 * i + 1] == intro[2 * i + 1] by {}
    assert forall|j: int| 0 <= j < out.len() implies tells_the_truth(
        nodes,
        room,
        node,
        addr,
        #[trigger] out[j],
    ) by {
        if j == 1 {
            let peers = peers_of(nodes, room.members);
            assert forall|i: int| 0 <= i < peers.len() implies (#[trigger] peers[i]).node_id
                == room.members[i].key && peers[i].virtual_ip == room.members[i].value.virtual_ip
                && peers[i].nickname == room.members[i].value.nickname && (has_key(
                nodes,
                room.members[i].key,
            ) ==> peers[i].public_key == lookup(nodes, room.members[i].key)->0.public_key) by {
                assert(room.members[i].key == room.members[i].value.node_id);
            }
        } else if 2 <= j < 2 + n {
            let id = ids[j - 2];
            present_is(room.members, nodes, node, id);
            assert(ids.contains(id));
        } else if j >= 2 + n {
            let k = (j - 2 - n) / 2;
            let id = ids[k];
            present_is(room.members, nodes, node, id);
            assert(ids.contains(id));
        }
    }
    assert forall|i: int| 0 <= i < ids.len() implies {
        let id = #[trigger] ids[i];
        &&& is_sent(
            out,
            addr,
            FrameView::PunchRequest { target: id, candidates: lookup(nodes, id)->0.candidates },
        )
        &&& is_sent(
            out,
            lookup(nodes, id)->0.addr,
            FrameView::PunchRequest { target: node, candidates },
        )
        &&& is_sent(out, lookup(nodes, id)->0.addr, update)
    } by {
        let a = out[2 + i];
        let b = out[2 + n + 2 * i];
        let c = out[2 + n + 2 * i + 1];
        assert(b == intro[2 * i]);
        assert(c == intro[2 * i + 1]);
    }
}

/// Whoever is let into a room and those who are there are told of one another:
/// the newcomer is told where each other registered member is to be found, with
/// the candidates that this member registered, each of them is told where the
/// newcomer is to be found, and is told who came. Nothing else is sent but the
/// acceptance and the list of the members. In the list of others each stands
/// once.
pub proof fn those_in_a_room_are_introduced(
    before: Supernode,
    after: Supernode,
    room_id: RoomId,
    token: Option<Seq<char>>,
    room_name: Option<Seq<char>>,
    addr: SocketAddr,
    r: Result<Vec<Outgoing>, SupernodeError>,
    others: Seq<NodeId>,
)
    requires
        before.wf(),
        after.wf(),
        join_served(before, after, room_id, token, room_name, addr, r),
        r is Ok,
        has_key(before@.addrs, addr),
        has_key(before@.nodes, lookup(before@.addrs, addr)->0),
        views(r->Ok_0@).len() > 0,
        views(r->Ok_0@)[0].frame is JoinAccept,
        others.no_duplicates(),
        forall|id: NodeId| #[trigger]
            others.contains(id) <==> id != lookup(before@.addrs, addr)->0 && has_key(
                before@.nodes,
                id,
            ) && has_key(lookup(after@.rooms, room_id)->0.members, id),
    ensures
        ({
            let out = views(r->Ok_0@);
            let node = lookup(before@.addrs, addr)->0;
            let nodes = before@.nodes;
            let room = lookup(after@.rooms, room_id)->0;
            &&& after@.nodes == nodes
            &&& out.len() == 2 + 3 * others.len()
            &&& out[0].frame->JoinAccept_room_id == room_id
            &&& forall|j: int|
                0 <= j < out.len() ==> tells_the_truth(nodes, room, node, addr, #[trigger] out[j])
            &&& forall|id: NodeId| #[trigger]
                others.contains(id) ==> is_sent(
                    out,
                    addr,
                    FrameView::PunchRequest {
                        target: id,
                        candidates: lookup(nodes, id)->0.candidates,
                    },
                ) && is_sent(
                    out,
                    lookup(nodes, id)->0.addr,
                    FrameView::PunchRequest {
                        target: node,
                        candidates: lookup(nodes, node)->0.candidates,
                    },
                ) && is_sent(
                    out,
                    lookup(nodes, id)->0.addr,
                    FrameView::PeerUpdate {
                        peer: PeerInfoView {
                            node_id: node,
                            virtual_ip: lookup(room.members, node)->0.virtual_ip,
                            nickname: lookup(room.members, node)->0.nickname,
                            public_key: lookup(nodes, node)->0.public_key,
                        },
                        action: PeerAction::Add,
                    },
                )
        }),
{
    let out = views(r->Ok_0@);
    let node = lookup(before@.addrs, addr)->0;
    let nodes = before@.nodes;
    let room = lookup(after@.rooms, room_id)->0;
    let mid = choose|mid: Supernode| #[trigger]
        room_opened(before, mid, room_id, token, room_name, node) && after.address_pool
            == mid.address_pool && join_answered(mid@, after@, room_id, token, node, addr, r);
    before.keys_are_distinct();
    after.keys_are_distinct();
    if !has_key(before@.rooms, room_id) {
        let fresh = lookup(mid@.rooms, room_id)->0;
        let i = before@.rooms.len() as int;
        assert(mid@.rooms[i].key == room_id);
        put_is_insert(before@.rooms, room_id, mid@.rooms[i].value);
        assert(mid@.rooms == put(before@.rooms, room_id, mid@.rooms[i].value));
    }
    assert(has_key(mid@.rooms, room_id));
    let ip = out[0].frame->JoinAccept_assigned_ip;
    let was = lookup(mid@.rooms, room_id)->0;
    if has_key(was.members, node) {
        assert(out == welcome_frames(nodes, room, room_id, node, ip, addr));
    } else {
        let got = choose|ip: VirtualIp| #[trigger]
            address_for(was, node, MemberRole::Guest, ip) && {
                let joined = with_member(
                    was,
                    MemberView {
                        node_id: node,
                        virtual_ip: ip,
                        nickname: nickname_of(
                            mid@.nodes,
                            node,
                            "Peer"@ + decimal((was.members.len() + 1) as nat),
                        ),
                        role: MemberRole::Guest,
                    },
                );
                &&& after@ == (SupernodeView { rooms: put(mid@.rooms, room_id, joined), ..mid@ })
                &&& views(r->Ok_0@) == welcome_frames(
                    mid@.nodes,
                    joined,
                    room_id,
                    node,
                    ip,
                    addr,
                )
            };
        let m = MemberView {
            node_id: node,
            virtual_ip: got,
            nickname: nickname_of(
                mid@.nodes,
                node,
                "Peer"@ + decimal((was.members.len() + 1) as nat),
            ),
            role: MemberRole::Guest,
        };
        let joined = with_member(was, m);
        put_is_insert(mid@.rooms, room_id, joined);
        assert(room == joined);
        let k = was.members.len() as int;
        assert(room.members[k].key == node);
        assert(room.members[k].value == m);
        assert(has_key(room.members, node));
        assert(out == welcome_frames(nodes, room, room_id, node, got, addr));
    }
    assert(has_key(after@.rooms, room_id));
    let p = at(after@.rooms, room_id);
    assert(after@.rooms[p].key == room_id);
    assert(sound(after.rooms.entries()[p].value));
    let whole = after.rooms.entries()[p].value;
    assert(room == whole@);
    viewed_lookup(whole.members.entries@, node);
    assert(ip == lookup(room.members, node)->0.virtual_ip) by {
        if !has_key(was.members, node) {
            let k = was.members.len() as int;
            at_is(room.members, k);
        }
    }
    welcomes_tell_the_truth(nodes, room, room_id, node, addr);
    let ids = present(room.members, nodes, node);
    present_once(room.members, nodes, node);
    assert forall|id: NodeId| ids.contains(id) <==> others.contains(id) by {
        present_is(room.members, nodes, node, id);
    }
    assert(ids.to_set() =~= others.to_set()) by {
        assert forall|id: NodeId| ids.to_set().contains(id) <==> others.to_set().contains(id) by {
            assert(ids.contains(id) <==> others.contains(id));
        }
    }
    ids.unique_seq_to_set();
    others.unique_seq_to_set();
    assert forall|id: NodeId| #[trigger] others.contains(id) implies is_sent(
        out,
        addr,
        FrameView::PunchRequest { target: id, candidates: lookup(nodes, id)->0.candidates },
    ) && is_sent(
        out,
        lookup(nodes, id)->0.addr,
        FrameView::PunchRequest { target: node, candidates: lookup(nodes, node)->0.candidates },
    ) && is_sent(
        out,
        lookup(nodes, id)->0.addr,
        FrameView::PeerUpdate {
            peer: PeerInfoView {
                node_id: node,
                virtual_ip: lookup(room.members, node)->0.virtual_ip,
                nickname: lookup(room.members, node)->0.nickname,
                public_key: lookup(nodes, node)->0.public_key,
            },
            action: PeerAction::Add,
        },
    ) by {
        assert(ids.contains(id));
        let i = ids.index_of(id);
        assert(ids[i] == id);
    }
}

/// Whoever registers is found under its node and under its address, with all that it
/// said; nobody else is touched, and no room is.
pub proof fn registering_concerns_one(v: SupernodeView, info: NodeView, other: NodeId, addr: SocketAddr)
    requires
        distinct(v.nodes),
        distinct(v.addrs),
    ensures
        ({
            let w = registered(v, info);
            &&& lookup(w.nodes, info.node_id) == Some(info)
            &&& lookup(w.addrs, info.addr) == Some(info.node_id)
            &&& other != info.node_id ==> lookup(w.nodes, other) == lookup(v.nodes, other)
            &&& addr != info.addr ==> lookup(w.addrs, addr) == lookup(v.addrs, addr)
            &&& w.rooms == v.rooms
        }),
{
    put_is_insert(v.nodes, info.node_id, info);
    put_is_insert(v.addrs, info.addr, info.node_id);
}

proof fn room_mates_are(
    rooms: Seq<Entry<RoomId, RoomView>>,
    nodes: Seq<Entry<NodeId, NodeView>>,
    node: NodeId,
    id: NodeId,
)
    requires
        forall|i: int| 0 <= i < rooms.len() ==> filed((#[trigger] rooms[i]).value.members),
    ensures
        room_mates(rooms, nodes, node).contains(id) <==> id != node && has_key(nodes, id) && (
        exists|i: int|
            0 <= i < rooms.len() && has_key((#[trigger] rooms[i]).value.members, node) && has_key(
                rooms[i].value.members,
                id,
            )),
    decreases rooms.len(),
{
    if rooms.len() > 0 {
        let short = rooms.drop_last();
        let last = rooms.len() - 1;
        assert forall|i: int| 0 <= i < short.len() implies filed(
            (#[trigger] short[i]).value.members,
        ) by {
            assert(filed(rooms[i].value.members));
        }
        room_mates_are(short, nodes, node, id);
        let before = room_mates(short, nodes, node);
        let mine = if has_key(rooms[last].value.members, node) {
            present(rooms[last].value.members, nodes, node)
        } else {
            Seq::empty()
        };
        let all = room_mates(rooms, nodes, node);
        assert(all == before + mine);
        assert(filed(rooms[last].value.members));
        present_is(rooms[last].value.members, nodes, node, id);
        if all.contains(id) {
            let k = all.index_of(id);
            if k < before.len() {
                assert(before[k] == id);
                let i = choose|i: int|
                    0 <= i < short.len() && has_key((#[trigger] short[i]).value.members, node)
                        && has_key(short[i].value.members, id);
                assert(rooms[i] == short[i]);
            } else {
                assert(mine[k - before.len()] == id);
                assert(mine.contains(id));
            }
        }
        if id != node && has_key(nodes, id) && (exists|i: int|
            0 <= i < rooms.len() && has_key((#[trigger] rooms[i]).value.members, node) && has_key(
                rooms[i].value.members,
                id,
            )) {
            let i = choose|i: int|
                0 <= i < rooms.len() && has_key((#[trigger] rooms[i]).value.members, node)
                    && has_key(rooms[i].value.members, id);
            if i < last {
                assert(short[i] == rooms[i]);
                let k = before.index_of(id);
                assert(all[k] == id);
            } else {
                let k = mine.index_of(id);
                assert(all[before.len() + k] == id);
            }
        }
    }
}

/// Whoever registers is told so, and each registered node that it shares a room with
/// is told where to find it now; nobody else is told anything.
pub proof fn room_mates_learn_where_a_node_is(
    v: SupernodeView,
    node: NodeId,
    addr: SocketAddr,
    candidates: Seq<Candidate>,
    id: NodeId,
)
    requires
        forall|i: int| 0 <= i < v.rooms.len() ==> filed((#[trigger] v.rooms[i]).value.members),
    ensures
        ({
            let out = register_replies(v, node, addr, candidates);
            &&& out.len() > 0
            &&& out[0].target == addr
            &&& out[0].frame == FrameView::RegisterOk
            &&& (id != node && has_key(v.nodes, id) && exists|i: int|
                0 <= i < v.rooms.len() && has_key((#[trigger] v.rooms[i]).value.members, node)
                    && has_key(v.rooms[i].value.members, id)) ==> is_sent(
                out,
                lookup(v.nodes, id)->0.addr,
                FrameView::PunchRequest { target: node, candidates },
            )
            &&& forall|j: int|
                1 <= j < out.len() ==> (#[trigger] out[j]).frame == (FrameView::PunchRequest {
                    target: node,
                    candidates,
                }) && exists|mate: NodeId| #[trigger]
                    has_key(v.nodes, mate) && mate != node && out[j].target == lookup(
                        v.nodes,
                        mate,
                    )->0.addr
        }),
{
    let out = register_replies(v, node, addr, candidates);
    let ids = room_mates(v.rooms, v.nodes, node);
    room_mates_are(v.rooms, v.nodes, node, id);
    if ids.contains(id) {
        let k = ids.index_of(id);
        assert(out[1 + k].target == lookup(v.nodes, id)->0.addr);
    }
    assert forall|j: int| 1 <= j < out.len() implies (#[trigger] out[j]).frame == (
    FrameView::PunchRequest { target: node, candidates }) && exists|mate: NodeId| #[trigger]
        has_key(v.nodes, mate) && mate != node && out[j].target == lookup(v.nodes, mate)->0.addr by {
        let mate = ids[j - 1];
        room_mates_are(v.rooms, v.nodes, node, mate);
        assert(ids.contains(mate));
        assert(has_key(v.nodes, mate));
    }
}

/// Whoever leaves a room is no member of it any longer; the registered ones that stay
/// are told that it left. The room is closed, and its subnet is free again, if nobody
/// stays; otherwise it keeps the lease. Other rooms are not touched.
pub proof fn leaving_concerns_one_room(
    before: Supernode,
    after: Supernode,
    room_id: RoomId,
    addr: SocketAddr,
    out: Seq<OutView>,
    id: NodeId,
    other: RoomId,
)
    requires
        before.wf(),
        left_room(before, after, room_id, addr, out),
        has_key(before@.addrs, addr),
        has_key(before@.rooms, room_id),
        other != room_id,
    ensures
        ({
            let node = lookup(before@.addrs, addr)->0;
            let was = lookup(before@.rooms, room_id)->0;
            let is = lookup(after@.rooms, room_id);
            &&& after@.nodes == before@.nodes
            &&& lookup(after@.rooms, other) == lookup(before@.rooms, other)
            &&& is is Some ==> !has_key(is->0.members, node) && is->0.leases == was.leases
                && is->0.join_token == was.join_token && is->0.owner == was.owner
            &&& id != node && has_key(was.members, id) ==> is is Some && lookup(is->0.members, id)
                == lookup(was.members, id)
            &&& is is None ==> lookup(after.address_pool.allocations.entries@, room_id) is None
            &&& lookup(after.address_pool.allocations.entries@, other) == lookup(
                before.address_pool.allocations.entries@,
                other,
            )
            &&& id != node && has_key(was.members, id) && has_key(before@.nodes, id) && has_key(
                was.members,
                node,
            ) ==> is_sent(
                out,
                lookup(before@.nodes, id)->0.addr,
                FrameView::PeerUpdate {
                    peer: peer_of(before@.nodes, lookup(was.members, node)->0),
                    action: PeerAction::Remove,
                },
            )
            &&& !has_key(was.members, node) ==> out.len() == 0
            &&& forall|j: int|
                0 <= j < out.len() ==> (#[trigger] out[j]).frame is PeerUpdate
                    && out[j].frame->action == PeerAction::Remove
                    && out[j].frame->PeerUpdate_peer.node_id == lookup(was.members, node)->0.node_id
        }),
{
    let node = lookup(before@.addrs, addr)->0;
    let was = lookup(before@.rooms, room_id)->0;
    before.keys_are_distinct();
    let p = at(before@.rooms, room_id);
    assert(before@.rooms[p].key == room_id);
    let whole = before.rooms.entries()[p].value;
    assert(sound(whole));
    assert(was == whole@);
    viewed_lookup(whole.members.entries@, node);
    cut_is_remove(was.members, node);
    let left = without_member(was, node);
    put_is_insert(before@.rooms, room_id, left);
    let kept = put(before@.rooms, room_id, left);
    cut_is_remove(kept, room_id);
    assert(lookup(kept, other) == lookup(before@.rooms, other));
    assert(lookup(cut(kept, room_id), other) == lookup(kept, other));
    cut_is_remove(before.address_pool.allocations.entries@, room_id);
    assert(lookup(cut(before.address_pool.allocations.entries@, room_id), other) == lookup(
        before.address_pool.allocations.entries@,
        other,
    ));
    if id != node && has_key(was.members, id) {
        assert(lookup(cut(was.members, node), id) == lookup(was.members, id));
        let q = at(left.members, id);
        assert(left.members[q].key == id);
    }
    assert(filed(left.members)) by {
        assert forall|i: int| 0 <= i < left.members.len() implies (#[trigger] left.members[i]).key
            == left.members[i].value.node_id by {
            if has_key(was.members, node) {
                let q = at(was.members, node);
                assert(was.members[q].key == node);
                if i == q {
                    assert(left.members[i] == was.members[was.members.len() - 1]);
                } else {
                    assert(left.members[i] == was.members[i]);
                }
            }
        }
    }
    if id != node && has_key(was.members, id) && has_key(before@.nodes, id) && has_key(
        was.members,
        node,
    ) {
        present_is(left.members, before@.nodes, node, id);
        let ids = present(left.members, before@.nodes, node);
        let k = ids.index_of(id);
        assert(out[k].target == lookup(before@.nodes, id)->0.addr);
    }
}

/// A new room has the node that asked for it as its only member and as its owner, at
/// the first address of a network that no other room has; nothing else changes. The
/// answer names the room, the address and the network, and holds an invitation to
/// this room, with its token, which is signed.
pub proof fn a_new_room_belongs_to_who_asked_for_it(
    before: Supernode,
    after: Supernode,
    name: Seq<char>,
    addr: SocketAddr,
    seed: RoomSeed,
    local: Option<Seq<char>>,
    r: Result<Vec<Outgoing>, SupernodeError>,
    other: RoomId,
)
    requires
        before.wf(),
        create_served(before, after, name, addr, seed, local, r),
        has_key(before@.addrs, addr),
        r is Ok,
        other.0 != seed.room_id,
    ensures
        ({
            let node = lookup(before@.addrs, addr)->0;
            let room_id = RoomId(seed.room_id);
            let room = lookup(after@.rooms, room_id)->0;
            let net = lookup(after.address_pool.allocations.entries@, room_id)->0;
            let out = views(r->Ok_0@);
            &&& after@.nodes == before@.nodes && after@.addrs == before@.addrs
            &&& lookup(after@.rooms, other) == lookup(before@.rooms, other)
            &&& has_key(after@.rooms, room_id)
            &&& room.room_id == room_id && room.name == name && room.owner == node
            &&& room.virtual_cidr == net_text(net)
            &&& room.join_token == hex_text(seed.token@)
            &&& room.members.len() == 1 && room.leases.len() == 1
            &&& room.members[0].key == node
            &&& room.members[0].value.role == MemberRole::Owner
            &&& has_key(before@.nodes, node) ==> room.members[0].value.nickname == lookup(
                before@.nodes,
                node,
            )->0.nickname
            &&& crate::bytes::be32_of(room.members[0].value.virtual_ip.0@) == net_start(net) + 1
            &&& room.leases[0].key == node && room.leases[0].value
                == room.members[0].value.virtual_ip
            &&& out.len() == 1 && out[0].target == addr
            &&& exists|invite: InviteView|
                out[0].frame == (FrameView::RoomCreated {
                    room_id,
                    assigned_ip: room.members[0].value.virtual_ip,
                    virtual_cidr: room.virtual_cidr,
                    invite_code: b64_text(#[trigger] invite_wire(invite)),
                }) && invite.version == 2 && invite.room_id == seed.room_id@ && invite.token == Some(
                    room.join_token,
                ) && invite.virtual_cidr == Some(room.virtual_cidr) && invite.expires_at is None
                    && invite.signature is Some && invite.primary_supernode
                    == invite.supernode_addr && (has_key(before@.nodes, node)
                    ==> invite.room_pub_key == lookup(before@.nodes, node)->0.public_key)
                    && invite.primary_supernode == (if before.config.public_addr is Some && trimmed(
                    before.config.public_addr->0@,
                ).len() > 0 {
                    before.config.public_addr->0@
                } else {
                    local->0
                })
        }),
{
    let node = lookup(before@.addrs, addr)->0;
    let room_id = RoomId(seed.room_id);
    let got = lookup(after.address_pool.allocations.entries@, room_id);
    before.keys_are_distinct();
    let primary = public_text(before.config, local->0);
    let ip = choose|ip: VirtualIp| #[trigger]
        ip.0@ == host_ip(got->0, 1) && {
            let room = opened_room(before, node, name, seed, got->0, ip);
            let primary = public_text(before.config, local->0);
            &&& after@ == (SupernodeView { rooms: put(before@.rooms, room_id, room), ..before@ })
            &&& r is Err <==> !has_public(before.config) && local is None
            &&& r is Err ==> r->Err_0 is NoLocalAddress
            &&& r is Ok ==> views(r->Ok_0@) == to_one(
                addr,
                FrameView::RoomCreated {
                    room_id,
                    assigned_ip: ip,
                    virtual_cidr: net_text(got->0),
                    invite_code: b64_text(
                        invite_wire(
                            invitation(before, primary, room, key_of(before@.nodes, node)),
                        ),
                    ),
                },
                true,
            )
        };
    let room = opened_room(before, node, name, seed, got->0, ip);
    put_is_insert(before@.rooms, room_id, room);
    let none = Seq::<Entry<NodeId, MemberView>>::empty();
    let free = Seq::<Entry<NodeId, VirtualIp>>::empty();
    assert(!has_key(none, node));
    assert(!has_key(free, node));
    let entries = after.address_pool.allocations.entries@;
    let p = at(entries, room_id);
    assert(entries[p].key == room_id);
    assert(is_subnet(
        after.address_pool.pool,
        after.address_pool.room_prefix_len,
        entries[p].value,
    ));
    let net = got->0;
    assert(net.prefix <= 30);
    room_for_one(net);
    net_in_range(net);
    crate::bytes::be32_round_trip((net_start(net) + 1) as u32);
    let invite = invitation(before, primary, room, key_of(before@.nodes, node));
    assert(views(r->Ok_0@)[0].frame->invite_code == b64_text(invite_wire(invite)));
}

/// A node with a network at home that has an address in common with that of a room is
/// not let in, and nothing changes; with the right token and without such a network
/// every member is let in, and every other node is unless there is no address for it.
pub proof fn the_right_token_lets_in(
    before: SupernodeView,
    after: SupernodeView,
    room_id: RoomId,
    token: Option<Seq<char>>,
    node: NodeId,
    addr: SocketAddr,
    r: Result<Vec<Outgoing>, SupernodeError>,
    net: Ipv4Net,
)
    requires
        join_answered(before, after, room_id, token, node, addr, r),
        parsed_net(lookup(before.rooms, room_id)->0.virtual_cidr) == Some(net),
        lookup(before.rooms, room_id)->0.join_token == (match token {
            Some(t) => t,
            None => Seq::empty(),
        }),
        has_key(before.nodes, node),
    ensures
        ({
            let room = lookup(before.rooms, room_id)->0;
            let home = lookup(before.nodes, node)->0.local_networks;
            let out = views(r->Ok_0@);
            let clash = exists|i: int|
                0 <= i < home.len() && net_start(#[trigger] home[i]) <= net_end(net) && net_start(
                    net,
                ) <= net_end(home[i]);
            &&& clash ==> after == before && r is Ok && out.len() == 1 && out[0].target == addr
                && out[0].frame is JoinReject && out[0].frame->reason
                == "room subnet conflicts with a local network on this device"@
            &&& !clash && has_key(room.members, node) ==> r is Ok && out.len() > 0
                && out[0].frame is JoinAccept
            &&& !clash && r is Ok ==> out.len() > 0 && out[0].frame is JoinAccept
            &&& r is Err ==> after == before && !has_key(room.members, node) && reusable(room, node)
                is None
        }),
{
    let room = lookup(before.rooms, room_id)->0;
    let home = lookup(before.nodes, node)->0.local_networks;
    assert(home_networks(before.nodes, node) == home);
    if exists|i: int|
        0 <= i < home.len() && net_start(#[trigger] home[i]) <= net_end(net) && net_start(net)
            <= net_end(home[i]) {
        let i = choose|i: int|
            0 <= i < home.len() && net_start(#[trigger] home[i]) <= net_end(net) && net_start(net)
                <= net_end(home[i]);
        assert(nets_overlap(net, home[i]));
        assert(conflicts(room.virtual_cidr, home));
    } else {
        assert(!conflicts(room.virtual_cidr, home)) by {
            if conflicts(room.virtual_cidr, home) {
                let i = choose|i: int| 0 <= i < home.len() && nets_overlap(net, #[trigger] home[i]);
                assert(net_start(home[i]) <= net_end(net));
            }
        }
    }
}

/// A newcomer becomes an ordinary member, under the name that it registered with.
pub proof fn newcomers_are_guests(
    before: SupernodeView,
    after: SupernodeView,
    room_id: RoomId,
    token: Option<Seq<char>>,
    node: NodeId,
    addr: SocketAddr,
    r: Result<Vec<Outgoing>, SupernodeError>,
    other: NodeId,
)
    requires
        distinct(before.rooms),
        distinct(lookup(before.rooms, room_id)->0.members),
        join_answered(before, after, room_id, token, node, addr, r),
        r is Ok,
        views(r->Ok_0@)[0].frame is JoinAccept,
        has_key(before.rooms, room_id),
        !has_key(lookup(before.rooms, room_id)->0.members, node),
        has_key(before.nodes, node),
        other != node,
    ensures
        ({
            let was = lookup(before.rooms, room_id)->0;
            let is = lookup(after.rooms, room_id)->0;
            let m = lookup(is.members, node);
            &&& m is Some
            &&& m->0.node_id == node
            &&& m->0.role == MemberRole::Guest
            &&& m->0.nickname == lookup(before.nodes, node)->0.nickname
            &&& lookup(is.members, other) == lookup(was.members, other)
            &&& is.owner == was.owner && is.join_token == was.join_token && is.name == was.name
            &&& is.members.len() == was.members.len() + 1
        }),
{
    let was = lookup(before.rooms, room_id)->0;
    let got = choose|ip: VirtualIp| #[trigger]
        address_for(was, node, MemberRole::Guest, ip) && {
            let joined = with_member(
                was,
                MemberView {
                    node_id: node,
                    virtual_ip: ip,
                    nickname: nickname_of(
                        before.nodes,
                        node,
                        "Peer"@ + decimal((was.members.len() + 1) as nat),
                    ),
                    role: MemberRole::Guest,
                },
            );
            &&& after == (SupernodeView { rooms: put(before.rooms, room_id, joined), ..before })
            &&& views(r->Ok_0@) == welcome_frames(before.nodes, joined, room_id, node, ip, addr)
        };
    let m = MemberView {
        node_id: node,
        virtual_ip: got,
        nickname: nickname_of(
            before.nodes,
            node,
            "Peer"@ + decimal((was.members.len() + 1) as nat),
        ),
        role: MemberRole::Guest,
    };
    put_is_insert(was.members, node, m);
    put_is_insert(before.rooms, room_id, with_member(was, m));
}

/// A room that is asked for and missing is set up: it has the name and the token that
/// were given, nobody is in it yet, and who asked for it owns it. A room that is there
/// stays as it is.
pub proof fn missing_rooms_are_set_up_anew(
    before: Supernode,
    after: Supernode,
    room_id: RoomId,
    token: Option<Seq<char>>,
    name: Option<Seq<char>>,
    node: NodeId,
    other: RoomId,
)
    requires
        before.wf(),
        room_opened(before, after, room_id, token, name, node),
        other != room_id,
    ensures
        has_key(after@.rooms, room_id),
        after@.nodes == before@.nodes,
        after@.addrs == before@.addrs,
        lookup(after@.rooms, other) == lookup(before@.rooms, other),
        has_key(before@.rooms, room_id) ==> after@ == before@,
        !has_key(before@.rooms, room_id) ==> {
            let room = lookup(after@.rooms, room_id)->0;
            let got = lookup(after.address_pool.allocations.entries@, room_id);
            &&& room.room_id == room_id && room.owner == node
            &&& room.members.len() == 0 && room.leases.len() == 0
            &&& name is Some ==> room.name == name->0
            &&& name is None ==> room.name == "Restored-"@ + hex_text(room_id.0@)
            &&& token is Some ==> room.join_token == token->0
            &&& token is None ==> room.join_token.len() == 0
            &&& got is Some ==> room.virtual_cidr == net_text(got->0)
            &&& got is None ==> room.virtual_cidr == "192.168.255.0/24"@
        },
{
    before.keys_are_distinct();
    if !has_key(before@.rooms, room_id) {
        let i = before@.rooms.len() as int;
        assert(after@.rooms[i].key == room_id);
        put_is_insert(before@.rooms, room_id, after@.rooms[i].value);
    }
}

/// Every room is listed, with the number of its members.
pub proof fn every_room_is_listed(rooms: Seq<Entry<RoomId, RoomView>>, i: int)
    requires
        0 <= i < rooms.len(),
    ensures
        room_list(rooms).len() == rooms.len(),
        room_list(rooms)[i].room_id == rooms[i].value.room_id,
        room_list(rooms)[i].name == rooms[i].value.name,
        room_list(rooms)[i].member_count == rooms[i].value.members.len(),
{
}

proof fn networks_are(list: Seq<Seq<char>>, net: Ipv4Net)
    ensures
        networks_of(list).contains(net) <==> exists|i: int|
            0 <= i < list.len() && parsed_net(#[trigger] list[i]) == Some(net),
    decreases list.len(),
{
    if list.len() > 0 {
        let short = list.drop_last();
        networks_are(short, net);
        let before = networks_of(short);
        let all = networks_of(list);
        if all.contains(net) {
            let k = all.index_of(net);
            if k < before.len() {
                assert(before[k] == net);
                let i = choose|i: int|
                    0 <= i < short.len() && parsed_net(#[trigger] short[i]) == Some(net);
                assert(list[i] == short[i]);
            } else {
                assert(parsed_net(list[list.len() - 1]) == Some(net));
            }
        }
        if exists|i: int| 0 <= i < list.len() && parsed_net(#[trigger] list[i]) == Some(net) {
            let i = choose|i: int|
                0 <= i < list.len() && parsed_net(#[trigger] list[i]) == Some(net);
            if i < short.len() {
                assert(short[i] == list[i]);
                assert(all[before.index_of(net)] == net);
            } else {
                assert(all[all.len() - 1] == net);
            }
        }
    }
}

/// The networks that a node has at home are those that it told of; what is no network
/// is left out.
pub proof fn networks_at_home_are_those_told(list: Seq<Seq<char>>, net: Ipv4Net)
    ensures
        networks_of(list).contains(net) <==> exists|i: int|
            0 <= i < list.len() && parsed_net(#[trigger] list[i]) == Some(net),
{
    networks_are(list, net);
}

/// A sign of life is answered with one, to where it came from, and so is the question for the
/// rooms; neither changes anything. A node that registers is known by where it wrote from and
/// when.
pub proof fn frames_are_answered_by_their_kind(
    before: Supernode,
    after: Supernode,
    frame: FrameView,
    addr: SocketAddr,
    now: u64,
    seed: RoomSeed,
    local: Option<Seq<char>>,
    r: Result<Vec<Outgoing>, SupernodeError>,
)
    requires
        before.wf(),
        control_served(before, after, frame, addr, now, seed, local, r),
    ensures
        frame is Heartbeat ==> r is Ok && after@ == before@ && views(r->Ok_0@).len() == 1 && views(
            r->Ok_0@,
        )[0].target == addr && views(r->Ok_0@)[0].frame is Heartbeat,
        frame is QueryRooms ==> r is Ok && after@ == before@ && views(r->Ok_0@).len() == 1 && views(
            r->Ok_0@,
        )[0].target == addr && views(r->Ok_0@)[0].frame is RoomsList,
        frame is RegisterNode ==> r is Ok && after@.rooms == before@.rooms && lookup(
            after@.addrs,
            addr,
        ) == Some(frame->RegisterNode_node_id) && ({
            let n = lookup(after@.nodes, frame->RegisterNode_node_id);
            &&& n is Some
            &&& n->0.addr == addr
            &&& n->0.last_seen == now
            &&& n->0.nat_type == frame->RegisterNode_nat_type
            &&& n->0.external_addr == frame->RegisterNode_external_addr
            &&& n->0.public_key == frame->RegisterNode_public_key
            &&& n->0.candidates == frame->RegisterNode_candidates
            &&& n->0.nickname == frame->RegisterNode_nickname
        }),
        frame is LeaveRoom ==> r is Ok,
{
    if frame is RegisterNode {
        let info = NodeView {
            node_id: frame->RegisterNode_node_id,
            addr,
            nat_type: frame->RegisterNode_nat_type,
            external_addr: frame->RegisterNode_external_addr,
            public_key: frame->RegisterNode_public_key,
            candidates: frame->RegisterNode_candidates,
            nickname: frame->RegisterNode_nickname,
            local_networks: networks_of(frame->RegisterNode_local_networks),
            last_seen: now,
        };
        before.keys_are_distinct();
        assert(after@ == registered(before@, info));
        registering_concerns_one(before@, info, info.node_id, addr);
    }
}

/// A supernode starts with no nodes and no rooms. It starts where its pool is a network that
/// is no smaller than a room's, and rooms have room for a member; else it is told what is wrong
/// with the pool.
pub proof fn a_new_supernode_is_empty(config: SupernodeConfig, r: Result<Supernode, RoomError>)
    requires
        set_up(config, r),
    ensures
        r is Ok ==> r->Ok_0@.nodes.len() == 0 && r->Ok_0@.rooms.len() == 0 && r->Ok_0@.addrs.len()
            == 0 && r->Ok_0.config == config,
        parsed_net(config.address_pool@) is None ==> r is Err,
        parsed_net(config.address_pool@) is Some && parsed_net(config.address_pool@)->0.prefix
            <= config.room_prefix_len <= 30 ==> r is Ok,
        r is Err ==> r->Err_0 is InvalidAddressPool,
{
}

} // verus!
