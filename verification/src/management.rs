//! The management interface of the supernode: who may use it, and what it
//! answers.

use crate::bytes::read_array;
use crate::common::{nat_type_name, NodeId, RoomId};
use crate::invite::copy_texts;
use crate::net::addr_text;
use crate::proto::views;
use crate::room::{Room, RoomView};
use crate::supernode::{NodeInfo, NodeView, Supernode, SupernodeView};
use crate::table::{
    at, cut, distinct, has_key, lookup, viewed, viewed_cut, viewed_lookup, Entry,
};
use crate::text::{hex_bytes, hex_decode, hex_text, is_hex_text, same_text, texts, trim, trimmed};
use vstd::prelude::*;

verus! {

/// What a request carries to show that it may be made.
#[derive(Debug)]
pub struct Credentials {
    /// The `Authorization` header, if it is there and is plain text.
    pub authorization: Option<String>,
    /// The `x-r2n-admin-token` header, if it is there and is plain text.
    pub admin_token: Option<String>,
}

/// Why a request is refused.
#[derive(Debug, Clone, Copy, PartialEq, Eq)]
pub enum ManagementError {
    Unauthorized,
    BadRequest,
}

#[derive(Debug)]
pub struct RoomSummary {
    pub room_id: String,
    pub name: String,
    pub virtual_cidr: String,
    pub members: usize,
    pub leases: usize,
}

/// What is told of a room.
#[verifier::ext_equal]
pub struct RoomSummaryView {
    pub room_id: Seq<char>,
    pub name: Seq<char>,
    pub virtual_cidr: Seq<char>,
    pub members: nat,
    pub leases: nat,
}

impl View for RoomSummary {
    type V = RoomSummaryView;

    open spec fn view(&self) -> RoomSummaryView {
        RoomSummaryView {
            room_id: self.room_id@,
            name: self.name@,
            virtual_cidr: self.virtual_cidr@,
            members: self.members as nat,
            leases: self.leases as nat,
        }
    }
}

#[derive(Debug)]
pub struct NodeSummary {
    pub node_id: String,
    pub addr: String,
    pub nat_type: String,
    pub nickname: String,
    pub candidates: usize,
    pub last_seen_secs: u64,
}

/// What is told of a node.
#[verifier::ext_equal]
pub struct NodeSummaryView {
    pub node_id: Seq<char>,
    pub addr: Seq<char>,
    pub nat_type: Seq<char>,
    pub nickname: Seq<char>,
    pub candidates: nat,
    pub last_seen_secs: u64,
}

impl View for NodeSummary {
    type V = NodeSummaryView;

    open spec fn view(&self) -> NodeSummaryView {
        NodeSummaryView {
            node_id: self.node_id@,
            addr: self.addr@,
            nat_type: self.nat_type@,
            nickname: self.nickname@,
            candidates: self.candidates as nat,
            last_seen_secs: self.last_seen_secs,
        }
    }
}

/// How many rooms and nodes there are.
#[derive(Debug, Clone, Copy, PartialEq, Eq, Structural)]
pub struct Stats {
    pub rooms: usize,
    pub nodes: usize,
}

#[derive(Debug)]
pub struct Federation {
    pub federation_id: String,
    pub peers: Vec<String>,
}

/// A request shows the token, which is not blank, in one header or the other.
pub open spec fn shows_token(c: Credentials, token: Seq<char>) -> bool {
    &&& trimmed(token).len() > 0
    &&& {
        ||| (c.authorization is Some && c.authorization->0@ == "Bearer "@ + token)
        ||| (c.admin_token is Some && c.admin_token->0@ == token)
    }
}

/// What is told of a room.
pub open spec fn room_summary(r: RoomView) -> RoomSummaryView {
    RoomSummaryView {
        room_id: hex_text(r.room_id.0@),
        name: r.name,
        virtual_cidr: r.virtual_cidr,
        members: r.members.len(),
        leases: r.leases.len(),
    }
}

/// What is told of a node; times are in nanoseconds.
pub open spec fn node_summary(n: NodeView, now: u64) -> NodeSummaryView {
    NodeSummaryView {
        node_id: hex_text(n.node_id.0@),
        addr: addr_text(n.addr),
        nat_type: nat_type_name(n.nat_type),
        nickname: n.nickname,
        candidates: n.candidates.len(),
        last_seen_secs: if now >= n.last_seen {
            ((now - n.last_seen) as int / 1_000_000_000) as u64
        } else {
            0
        },
    }
}

/// A text names a node: it is an identifier in hexadecimal digits.
pub open spec fn names_node(text: Seq<char>) -> bool {
    is_hex_text(text) && hex_bytes(text).len() == 32
}

/// A request may be made.
pub fn authorized(credentials: &Credentials, token: &str) -> (r: bool)
    ensures
        r == shows_token(*credentials, token@),
{
    let t = trim(token);
    if t.as_str().is_empty() {
        return false;
    }
    let bearer = "Bearer ".to_string().concat(token);
    if let Some(a) = &credentials.authorization {
        if same_text(a.as_str(), bearer.as_str()) {
            return true;
        }
    }
    match &credentials.admin_token {
        Some(a) => same_text(a.as_str(), token),
        None => false,
    }
}

impl Supernode {
    /// What is told of the rooms, to those who may ask.
    pub fn management_rooms(&self, credentials: &Credentials) -> (r: Result<
        Vec<RoomSummary>,
        ManagementError,
    >)
        ensures
            rooms_told(self@, self.config.admin_token@, *credentials, r),
    {
        if !authorized(credentials, self.config.admin_token.as_str()) {
            return Err(ManagementError::Unauthorized);
        }
        let mut list: Vec<RoomSummary> = Vec::new();
        let n: usize = self.rooms.len();
        let ghost whole = Seq::new(
            self@.rooms.len(),
            |i: int| room_summary(self@.rooms[i].value),
        );
        assert(views(list@) =~= whole.subrange(0, 0));
        for i in 0..n
            invariant
                n == self.rooms.entries().len(),
                whole == Seq::new(
                    self@.rooms.len(),
                    |i: int| room_summary(self@.rooms[i].value),
                ),
                views(list@) == whole.subrange(0, i as int),
        {
            let room = &self.rooms.nth(i).value;
            let ghost before = views(list@);
            list.push(
                RoomSummary {
                    room_id: room.room_id.to_text(),
                    name: room.name.clone(),
                    virtual_cidr: room.virtual_cidr.clone(),
                    members: room.members.entries.len(),
                    leases: room.ip_leases.entries.len(),
                },
            );
            assert(views(list@) =~= before.push(whole[i as int]));
            assert(views(list@) =~= whole.subrange(0, i + 1));
        }
        assert(whole.subrange(0, n as int) =~= whole);
        Ok(list)
    }

    /// What is told of the nodes, to those who may ask.
    pub fn management_nodes(&self, credentials: &Credentials, now: u64) -> (r: Result<
        Vec<NodeSummary>,
        ManagementError,
    >)
        ensures
            nodes_told(self@, self.config.admin_token@, *credentials, now, r),
    {
        if !authorized(credentials, self.config.admin_token.as_str()) {
            return Err(ManagementError::Unauthorized);
        }
        let mut list: Vec<NodeSummary> = Vec::new();
        let n: usize = self.nodes.len();
        let ghost whole = Seq::new(
            self@.nodes.len(),
            |i: int| node_summary(self@.nodes[i].value, now),
        );
        assert(views(list@) =~= whole.subrange(0, 0));
        for i in 0..n
            invariant
                n == self.nodes.entries().len(),
                whole == Seq::new(
                    self@.nodes.len(),
                    |i: int| node_summary(self@.nodes[i].value, now),
                ),
                views(list@) == whole.subrange(0, i as int),
        {
            let node = &self.nodes.nth(i).value;
            let ghost before = views(list@);
            let last_seen_secs: u64 = if now >= node.last_seen {
                (now - node.last_seen) / 1_000_000_000
            } else {
                0
            };
            list.push(
                NodeSummary {
                    node_id: node.node_id.to_text(),
                    addr: node.addr.to_text(),
                    nat_type: node.nat_type.to_text(),
                    nickname: node.nickname.clone(),
                    candidates: node.candidates.len(),
                    last_seen_secs,
                },
            );
            assert(views(list@) =~= before.push(whole[i as int]));
            assert(views(list@) =~= whole.subrange(0, i + 1));
        }
        assert(whole.subrange(0, n as int) =~= whole);
        Ok(list)
    }

    /// How many rooms and nodes there are, for those who may ask.
    pub fn management_stats(&self, credentials: &Credentials) -> (r: Result<Stats, ManagementError>)
        ensures
            stats_told(self@, self.config.admin_token@, *credentials, r),
    {
        if !authorized(credentials, self.config.admin_token.as_str()) {
            return Err(ManagementError::Unauthorized);
        }
        Ok(Stats { rooms: self.rooms.len(), nodes: self.nodes.len() })
    }

    /// The federation that the supernode is part of, for those who may ask.
    pub fn management_federation(&self, credentials: &Credentials) -> (r: Result<
        Federation,
        ManagementError,
    >)
        ensures
            federation_told(
                self.config.admin_token@,
                self.config.federation_id@,
                texts(self.config.peers@),
                *credentials,
                r,
            ),
    {
        if !authorized(credentials, self.config.admin_token.as_str()) {
            return Err(ManagementError::Unauthorized);
        }
        Ok(
            Federation {
                federation_id: self.config.federation_id.clone(),
                peers: copy_texts(&self.config.peers),
            },
        )
    }

    /// Strikes a node off the register, for those who may ask, and tells whether
    /// it was on it.
    pub fn management_kick_node(&mut self, credentials: &Credentials, node_id: &str) -> (r: Result<
        bool,
        ManagementError,
    >)
        requires
            old(self).wf(),
        ensures
            final(self).wf(),
            final(self).same_setup(*old(self)),
            final(self).address_pool == old(self).address_pool,
            kicked(
                old(self)@,
                final(self)@,
                old(self).config.admin_token@,
                *credentials,
                node_id@,
                r,
            ),
    {
        if !authorized(credentials, self.config.admin_token.as_str()) {
            return Err(ManagementError::Unauthorized);
        }
        let bytes = match hex_decode(node_id) {
            Ok(b) => b,
            Err(_) => {
                return Err(ManagementError::BadRequest);
            },
        };
        if bytes.len() != 32 {
            return Err(ManagementError::BadRequest);
        }
        let id = NodeId(read_array::<32>(bytes.as_slice(), 0));
        assert(id.0@ =~= bytes@);
        let ghost nodes = self.nodes.entries();
        proof {
            self.keys_are_distinct();
            viewed_cut(nodes, id);
            viewed_lookup(nodes, id);
        }
        let removed = self.nodes.remove(&id).is_some();
        proof {
            let after = self.nodes.entries();
            assert forall|k: int, m: int|
                0 <= k < after.len() && 0 <= m < after[k].value.local_networks@.len() implies (
            #[trigger] after[k].value.local_networks@[m]).wf() by {
                let q = if has_key(nodes, id) && k == at(nodes, id) {
                    nodes.len() - 1
                } else {
                    k
                };
                assert(after[k] == nodes[q]);
                assert(nodes[q].value.local_networks@[m].wf());
            }
            assert(removed == has_key(old(self)@.nodes, id));
        }
        Ok(removed)
    }
}

/// Only who shows the token is let in, in either of two headers; where there is no
/// token to show, nobody is.
pub proof fn only_the_token_lets_in(c: Credentials, token: Seq<char>)
    ensures
        trimmed(token).len() == 0 ==> !shows_token(c, token),
        trimmed(token).len() > 0 && c.admin_token is Some && c.admin_token->0@ == token
            ==> shows_token(c, token),
        trimmed(token).len() > 0 && c.authorization is Some && c.authorization->0@ == "Bearer "@
            + token ==> shows_token(c, token),
        shows_token(c, token) && (c.admin_token is None || c.admin_token->0@ != token)
            ==> c.authorization is Some && c.authorization->0@.len() == 7 + token.len()
            && c.authorization->0@.subrange(7, 7int + token.len()) == token,
        c.admin_token is None && c.authorization is None ==> !shows_token(c, token),
{
    reveal_strlit("Bearer ");
    if c.authorization is Some && c.authorization->0@ == "Bearer "@ + token {
        assert(c.authorization->0@.subrange(7, 7int + token.len()) =~= token);
    }
}

/// What is told of a room and of a node is counted right, and the time since a node
/// was heard of is in whole seconds, rounded down.
pub proof fn summaries_count_right(r: RoomView, n: NodeView, now: u64)
    ensures
        room_summary(r).members == r.members.len(),
        room_summary(r).leases == r.leases.len(),
        room_summary(r).name == r.name,
        room_summary(r).virtual_cidr == r.virtual_cidr,
        hex_bytes(room_summary(r).room_id) == r.room_id.0@,
        hex_bytes(node_summary(n, now).node_id) == n.node_id.0@,
        node_summary(n, now).candidates == n.candidates.len(),
        node_summary(n, now).nickname == n.nickname,
        now >= n.last_seen ==> node_summary(n, now).last_seen_secs * 1_000_000_000 <= now
            - n.last_seen < (node_summary(n, now).last_seen_secs + 1) * 1_000_000_000,
        now < n.last_seen ==> node_summary(n, now).last_seen_secs == 0,
{
    crate::text::hex_text_round_trip(r.room_id.0@);
    crate::text::hex_text_round_trip(n.node_id.0@);
}

/// Which rooms are told of to whom.
pub open spec fn rooms_told(
    v: SupernodeView,
    token: Seq<char>,
    c: Credentials,
    r: Result<Vec<RoomSummary>, ManagementError>,
) -> bool {
    match r {
        Ok(list) => {
            &&& shows_token(c, token)
            &&& views(list@) == Seq::new(
                v.rooms.len(),
                |i: int| room_summary(v.rooms[i].value),
            )
        },
        Err(e) => e is Unauthorized && !shows_token(c, token),
    }
}

/// Which nodes are told of to whom.
pub open spec fn nodes_told(
    v: SupernodeView,
    token: Seq<char>,
    c: Credentials,
    now: u64,
    r: Result<Vec<NodeSummary>, ManagementError>,
) -> bool {
    match r {
        Ok(list) => {
            &&& shows_token(c, token)
            &&& views(list@) == Seq::new(
                v.nodes.len(),
                |i: int| node_summary(v.nodes[i].value, now),
            )
        },
        Err(e) => e is Unauthorized && !shows_token(c, token),
    }
}

/// How many rooms and nodes there are, and who is told.
pub open spec fn stats_told(
    v: SupernodeView,
    token: Seq<char>,
    c: Credentials,
    r: Result<Stats, ManagementError>,
) -> bool {
    match r {
        Ok(stats) => {
            &&& shows_token(c, token)
            &&& stats.rooms == v.rooms.len()
            &&& stats.nodes == v.nodes.len()
        },
        Err(e) => e is Unauthorized && !shows_token(c, token),
    }
}

/// What the supernode belongs to, and who is told.
pub open spec fn federation_told(
    token: Seq<char>,
    id: Seq<char>,
    peers: Seq<Seq<char>>,
    c: Credentials,
    r: Result<Federation, ManagementError>,
) -> bool {
    match r {
        Ok(f) => {
            &&& shows_token(c, token)
            &&& f.federation_id@ == id
            &&& texts(f.peers@) == peers
        },
        Err(e) => e is Unauthorized && !shows_token(c, token),
    }
}

/// What comes of asking that a node be dropped.
pub open spec fn kicked(
    before: SupernodeView,
    after: SupernodeView,
    token: Seq<char>,
    c: Credentials,
    text: Seq<char>,
    r: Result<bool, ManagementError>,
) -> bool {
    match r {
        Err(ManagementError::Unauthorized) => {
            &&& !shows_token(c, token)
            &&& after == before
        },
        Err(ManagementError::BadRequest) => {
            &&& shows_token(c, token)
            &&& !names_node(text)
            &&& after == before
        },
        Ok(removed) => {
            &&& shows_token(c, token)
            &&& names_node(text)
            &&& exists|id: NodeId|
                #![trigger has_key(before.nodes, id)]
                id.0@ == hex_bytes(text) && removed == has_key(before.nodes, id) && after == (
                SupernodeView { nodes: cut(before.nodes, id), ..before })
        },
    }
}

/// Whoever shows no token is told nothing and changes nothing.
pub proof fn nothing_is_told_without_a_token(
    v: SupernodeView,
    token: Seq<char>,
    c: Credentials,
    now: u64,
    after: SupernodeView,
    id: Seq<char>,
    peers: Seq<Seq<char>>,
    text: Seq<char>,
    rooms: Result<Vec<RoomSummary>, ManagementError>,
    nodes: Result<Vec<NodeSummary>, ManagementError>,
    stats: Result<Stats, ManagementError>,
    federation: Result<Federation, ManagementError>,
    kick: Result<bool, ManagementError>,
)
    requires
        rooms_told(v, token, c, rooms),
        nodes_told(v, token, c, now, nodes),
        stats_told(v, token, c, stats),
        federation_told(token, id, peers, c, federation),
        kicked(v, after, token, c, text, kick),
        trimmed(token).len() == 0 || (c.admin_token is None
            || c.admin_token->0@ != token) && (c.authorization is None
            || c.authorization->0@ != "Bearer "@ + token),
    ensures
        rooms is Err && rooms->Err_0 is Unauthorized,
        nodes is Err && nodes->Err_0 is Unauthorized,
        stats is Err && stats->Err_0 is Unauthorized,
        federation is Err && federation->Err_0 is Unauthorized,
        kick is Err && kick->Err_0 is Unauthorized,
        after == v,
{
}

/// Whoever shows the token is told of every room and every node.
pub proof fn the_token_opens_everything(
    v: SupernodeView,
    token: Seq<char>,
    c: Credentials,
    now: u64,
    rooms: Result<Vec<RoomSummary>, ManagementError>,
    nodes: Result<Vec<NodeSummary>, ManagementError>,
    stats: Result<Stats, ManagementError>,
    i: int,
)
    requires
        rooms_told(v, token, c, rooms),
        nodes_told(v, token, c, now, nodes),
        stats_told(v, token, c, stats),
        trimmed(token).len() > 0,
        c.admin_token is Some && c.admin_token->0@ == token,
    ensures
        rooms is Ok && rooms->Ok_0@.len() == v.rooms.len(),
        nodes is Ok && nodes->Ok_0@.len() == v.nodes.len(),
        stats is Ok && stats->Ok_0.rooms == v.rooms.len() && stats->Ok_0.nodes == v.nodes.len(),
        0 <= i < v.rooms.len() ==> views(rooms->Ok_0@)[i].name == v.rooms[i].value.name
            && views(rooms->Ok_0@)[i].members == v.rooms[i].value.members.len(),
        0 <= i < v.nodes.len() ==> views(nodes->Ok_0@)[i].nickname == v.nodes[i].value.nickname,
{
    assert(views(rooms->Ok_0@).len() == rooms->Ok_0@.len());
    assert(views(nodes->Ok_0@).len() == nodes->Ok_0@.len());
}

/// A node that is kicked is registered no longer, and whether it was is told; the others and
/// the rooms stay. A text that names no node is refused.
pub proof fn kicking_concerns_one(
    before: SupernodeView,
    after: SupernodeView,
    token: Seq<char>,
    c: Credentials,
    text: Seq<char>,
    r: Result<bool, ManagementError>,
    id: NodeId,
    other: NodeId,
)
    requires
        distinct(before.nodes),
        kicked(before, after, token, c, text, r),
        id.0@ == hex_bytes(text),
        other != id,
    ensures
        r is Ok ==> !has_key(after.nodes, id) && lookup(after.nodes, other) == lookup(
            before.nodes,
            other,
        ),
        r is Ok ==> r->Ok_0 == has_key(before.nodes, id),
        after.rooms == before.rooms && after.addrs == before.addrs,
        r is Err ==> after == before,
        r is Ok ==> is_hex_text(text) && text.len() == 64,
        r is Err && r->Err_0 is BadRequest ==> !(is_hex_text(text) && text.len() == 64),
{
    if r is Ok {
        let n = choose|n: NodeId|
            #![trigger has_key(before.nodes, n)]
            n.0@ == hex_bytes(text) && r->Ok_0 == has_key(before.nodes, n) && after == (
            SupernodeView { nodes: cut(before.nodes, n), ..before });
        assert(n.0 =~= id.0);
        assert(n == id);
        crate::table::cut_is_remove(before.nodes, id);
        assert(lookup(cut(before.nodes, id), other) == lookup(before.nodes, other));
    }
}

} // verus!
