//! Rooms, their members and leases, and the pool that rooms get subnets from.

use crate::bytes::{be32_back, be32_bytes, be32_of, be32_round_trip, u32_bytes};
use crate::common::{NodeId, RoomId, VirtualIp};
use crate::net::{
    block, block_divides, block_positive, block_whole, ipv4_nets_overlap, net_end, net_in_range,
    net_start, net_text, nets_overlap, parsed_net, Ipv4Net,
};
use crate::table::{
    at, at_is, cut, cut_is_remove, distinct, has_key, lookup, put, put_is_insert, viewed,
    viewed_cut, viewed_lookup, viewed_put, AssocVec, Entry, Key,
};
use crate::text::{decimal, push_decimal};
use vstd::prelude::*;

verus! {

#[derive(Debug, Clone, Copy, PartialEq, Eq, Structural)]
pub enum MemberRole {
    Owner,
    Admin,
    Guest,
}

#[derive(Debug)]
pub struct Member {
    pub node_id: NodeId,
    pub virtual_ip: VirtualIp,
    pub nickname: String,
    pub role: MemberRole,
}

#[derive(Debug, PartialEq, Eq)]
pub enum RoomError {
    InvalidCidr(String),
    AddressPoolExhausted,
    InvalidAddressPool(String),
}

/// The message of a room error.
pub open spec fn room_error_text(e: RoomError) -> Seq<char> {
    match e {
        RoomError::InvalidCidr(s) => "invalid virtual CIDR: "@ + s@,
        RoomError::AddressPoolExhausted => "room address pool is exhausted"@,
        RoomError::InvalidAddressPool(s) => "invalid address pool: "@ + s@,
    }
}

impl RoomError {
    /// The message of the error.
    pub fn to_text(&self) -> (s: String)
        ensures
            s@ == room_error_text(*self),
    {
        match self {
            RoomError::InvalidCidr(t) => "invalid virtual CIDR: ".to_string().concat(t.as_str()),
            RoomError::AddressPoolExhausted => "room address pool is exhausted".to_string(),
            RoomError::InvalidAddressPool(t) => "invalid address pool: ".to_string().concat(
                t.as_str(),
            ),
        }
    }
}

pub struct Room {
    pub room_id: RoomId,
    pub name: String,
    pub owner: NodeId,
    pub virtual_cidr: String,
    pub join_token: String,
    pub members: AssocVec<NodeId, Member>,
    pub ip_leases: AssocVec<NodeId, VirtualIp>,
}

/// What a member is.
#[verifier::ext_equal]
pub struct MemberView {
    pub node_id: NodeId,
    pub virtual_ip: VirtualIp,
    pub nickname: Seq<char>,
    pub role: MemberRole,
}

impl View for Member {
    type V = MemberView;

    open spec fn view(&self) -> MemberView {
        MemberView {
            node_id: self.node_id,
            virtual_ip: self.virtual_ip,
            nickname: self.nickname@,
            role: self.role,
        }
    }
}

/// What a room is.
#[verifier::ext_equal]
pub struct RoomView {
    pub room_id: RoomId,
    pub name: Seq<char>,
    pub owner: NodeId,
    pub virtual_cidr: Seq<char>,
    pub join_token: Seq<char>,
    pub members: Seq<Entry<NodeId, MemberView>>,
    pub leases: Seq<Entry<NodeId, VirtualIp>>,
}

impl View for Room {
    type V = RoomView;

    open spec fn view(&self) -> RoomView {
        RoomView {
            room_id: self.room_id,
            name: self.name@,
            owner: self.owner,
            virtual_cidr: self.virtual_cidr@,
            join_token: self.join_token@,
            members: viewed(self.members.entries@),
            leases: self.ip_leases.entries@,
        }
    }
}

/// Some member other than `node` has the address.
pub open spec fn held_by_other(
    members: Seq<Entry<NodeId, MemberView>>,
    node: NodeId,
    ip: Seq<u8>,
) -> bool {
    exists|i: int|
        0 <= i < members.len() && #[trigger] members[i].value.node_id != node
            && members[i].value.virtual_ip.0@ == ip
}

/// Some member has the address.
pub open spec fn held(members: Seq<Entry<NodeId, MemberView>>, ip: Seq<u8>) -> bool {
    exists|i: int| 0 <= i < members.len() && (#[trigger] members[i]).value.virtual_ip.0@ == ip
}

/// Some node has a lease on the address.
pub open spec fn leased(leases: Seq<Entry<NodeId, VirtualIp>>, ip: Seq<u8>) -> bool {
    exists|i: int| 0 <= i < leases.len() && (#[trigger] leases[i]).value.0@ == ip
}

/// The lease of a node that it can have back.
pub open spec fn reusable(room: RoomView, node: NodeId) -> Option<VirtualIp> {
    match lookup(room.leases, node) {
        Some(ip) => if held_by_other(room.members, node, ip.0@) {
            None
        } else {
            Some(ip)
        },
        None => None,
    }
}

/// The host number from which a role is served.
pub open spec fn first_host(role: MemberRole) -> int {
    if role == MemberRole::Owner {
        1
    } else {
        2
    }
}

/// A host of the network lies before its last address.
pub open spec fn host_in(net: Ipv4Net, host: int) -> bool {
    net_start(net) + host < net_end(net)
}

/// The address bytes of a host of the network.
pub open spec fn host_ip(net: Ipv4Net, host: int) -> Seq<u8> {
    be32_bytes((net_start(net) + host) as u32)
}

/// Neither a member nor a lease has the address of the host.
pub open spec fn host_free(room: RoomView, net: Ipv4Net, host: int) -> bool {
    !held(room.members, host_ip(net, host)) && !leased(room.leases, host_ip(net, host))
}

/// The lowest free host for a role.
pub open spec fn lowest_free(room: RoomView, net: Ipv4Net, role: MemberRole, host: int) -> bool {
    &&& first_host(role) <= host
    &&& host_in(net, host)
    &&& host_free(room, net, host)
    &&& forall|g: int| first_host(role) <= g < host ==> !#[trigger] host_free(room, net, g)
}

/// No host is free for a role.
pub open spec fn none_free(room: RoomView, net: Ipv4Net, role: MemberRole) -> bool {
    forall|g: int|
        first_host(role) <= g && host_in(net, g) ==> !#[trigger] host_free(room, net, g)
}

/// What a node asking for an address gets: its lease, if nobody else took it;
/// otherwise the lowest free host of the network.
pub open spec fn address_for(room: RoomView, node: NodeId, role: MemberRole, ip: VirtualIp) -> bool {
    match reusable(room, node) {
        Some(old_ip) => ip == old_ip,
        None => exists|host: int|
            parsed_net(room.virtual_cidr) is Some && lowest_free(
                room,
                parsed_net(room.virtual_cidr)->0,
                role,
                host,
            ) && ip.0@ == #[trigger] host_ip(parsed_net(room.virtual_cidr)->0, host),
    }
}

/// Why a node asking for an address gets none.
pub open spec fn address_refused(
    room: RoomView,
    node: NodeId,
    role: MemberRole,
    e: RoomError,
) -> bool {
    &&& reusable(room, node) is None
    &&& match parsed_net(room.virtual_cidr) {
        None => e is InvalidCidr && e->InvalidCidr_0@ == room.virtual_cidr,
        Some(net) => e is AddressPoolExhausted && none_free(room, net, role),
    }
}

/// The network of a room reads back as the one it was written from.
pub open spec fn cidr_reads_back(cidr: Seq<char>) -> bool {
    forall|n: Ipv4Net| n.wf() && cidr == #[trigger] net_text(n) ==> parsed_net(cidr) == Some(n)
}

/// No two members have one address.
pub open spec fn addresses_distinct(members: Seq<Entry<NodeId, MemberView>>) -> bool {
    forall|i: int, j: int|
        0 <= i < members.len() && 0 <= j < members.len() && i != j ==> (
        #[trigger] members[i]).value.virtual_ip != (#[trigger] members[j]).value.virtual_ip
}

/// Each member is filed under its own node.
pub open spec fn filed(members: Seq<Entry<NodeId, MemberView>>) -> bool {
    forall|i: int|
        0 <= i < members.len() ==> (#[trigger] members[i]).key == members[i].value.node_id
}

/// A room after a node became a member with an address.
pub open spec fn with_member(room: RoomView, m: MemberView) -> RoomView {
    RoomView {
        members: put(room.members, m.node_id, m),
        leases: put(room.leases, m.node_id, m.virtual_ip),
        ..room
    }
}

/// A room after a node left it. The lease stays.
pub open spec fn without_member(room: RoomView, node: NodeId) -> RoomView {
    RoomView { members: cut(room.members, node), ..room }
}

proof fn filed_after_put(members: Seq<Entry<NodeId, MemberView>>, m: MemberView)
    requires
        distinct(members),
        filed(members),
    ensures
        filed(put(members, m.node_id, m)),
{
    let after = put(members, m.node_id, m);
    assert forall|i: int| 0 <= i < after.len() implies (#[trigger] after[i]).key
        == after[i].value.node_id by {
        if i < members.len() {
            assert(members[i].key == members[i].value.node_id);
        }
    }
}

proof fn kept_after_cut(members: Seq<Entry<NodeId, MemberView>>, node: NodeId)
    requires
        distinct(members),
        filed(members),
    ensures
        filed(cut(members, node)),
        addresses_distinct(members) ==> addresses_distinct(cut(members, node)),
        forall|ip: Seq<u8>|
            held_by_other(cut(members, node), node, ip) ==> #[trigger] held_by_other(
                members,
                node,
                ip,
            ),
{
    let after = cut(members, node);
    if has_key(members, node) {
        let p = at(members, node);
        let last = members.len() - 1;
        assert(members[p].key == node);
        assert forall|i: int| 0 <= i < after.len() implies (#[trigger] after[i]).key
            == after[i].value.node_id by {
            if i == p {
                assert(after[i] == members[last]);
            } else {
                assert(after[i] == members[i]);
            }
        }
        if addresses_distinct(members) {
            assert forall|i: int, j: int|
                0 <= i < after.len() && 0 <= j < after.len() && i != j implies (
            #[trigger] after[i]).value.virtual_ip != (#[trigger] after[j]).value.virtual_ip by {
                let a = if i == p {
                    last
                } else {
                    i
                };
                let b = if j == p {
                    last
                } else {
                    j
                };
                assert(after[i] == members[a]);
                assert(after[j] == members[b]);
            }
        }
        assert forall|ip: Seq<u8>| held_by_other(after, node, ip) implies #[trigger] held_by_other(
            members,
            node,
            ip,
        ) by {
            let i = choose|i: int|
                0 <= i < after.len() && #[trigger] after[i].value.node_id != node
                    && after[i].value.virtual_ip.0@ == ip;
            let a = if i == p {
                last
            } else {
                i
            };
            assert(after[i] == members[a]);
            assert(members[a].value.node_id != node);
        }
    }
}

impl Room {
    /// Keys are distinct and each member is filed under its own node.
    pub open spec fn wf(self) -> bool {
        &&& self.members.wf()
        &&& self.ip_leases.wf()
        &&& filed(self@.members)
    }

    /// A room without members.
    pub fn new(
        room_id: RoomId,
        name: String,
        owner: NodeId,
        virtual_cidr: String,
        join_token: String,
    ) -> (r: Room)
        ensures
            r.wf(),
            r@ == (RoomView {
                room_id,
                name: name@,
                owner,
                virtual_cidr: virtual_cidr@,
                join_token: join_token@,
                members: Seq::empty(),
                leases: Seq::empty(),
            }),
    {
        let r = Room {
            room_id,
            name,
            owner,
            virtual_cidr,
            join_token,
            members: AssocVec::new(),
            ip_leases: AssocVec::new(),
        };
        assert(r@.members =~= Seq::empty());
        r
    }

    /// Files a member and leases its address to it.
    pub fn add_member(&mut self, member: Member)
        requires
            old(self).wf(),
        ensures
            final(self).wf(),
            final(self)@ == with_member(old(self)@, member@),
    {
        let node = member.node_id;
        let ip = member.virtual_ip;
        proof {
            viewed_put(self.members.entries@, node, member);
            viewed_lookup(self.members.entries@, node);
            filed_after_put(self@.members, member@);
        }
        self.ip_leases.insert(node, ip);
        self.members.insert(node, member);
    }

    /// Gives a node its address, the one it had before if that is still its
    /// own, and makes it a member. Without an address nothing changes.
    pub fn add_or_reuse_member(&mut self, node_id: NodeId, nickname: String, role: MemberRole) -> (r:
        Result<VirtualIp, RoomError>)
        requires
            old(self).wf(),
        ensures
            final(self).wf(),
            match r {
                Ok(ip) => {
                    &&& address_for(old(self)@, node_id, role, ip)
                    &&& final(self)@ == with_member(
                        old(self)@,
                        (MemberView { node_id, virtual_ip: ip, nickname: nickname@, role }),
                    )
                },
                Err(e) => {
                    &&& address_refused(old(self)@, node_id, role, e)
                    &&& final(self)@ == old(self)@
                },
            },
            reusable(old(self)@, node_id) is None ==> cidr_reads_back(old(self)@.virtual_cidr),
            addresses_distinct(old(self)@.members) ==> addresses_distinct(final(self)@.members),
    {
        let ghost before = self@;
        let virtual_ip = match self.allocate_ip(node_id, role) {
            Ok(ip) => ip,
            Err(e) => {
                return Err(e);
            },
        };
        let ghost mid = self@;
        let ghost m = MemberView { node_id, virtual_ip, nickname: nickname@, role };
        self.add_member(Member { node_id, virtual_ip, nickname, role });
        proof {
            put_twice(before.leases, node_id, virtual_ip);
            assert(self@.leases =~= put(before.leases, node_id, virtual_ip));
            viewed_lookup(old(self).members.entries@, node_id);
            if addresses_distinct(before.members) {
                stays_distinct(before, role, m);
            }
        }
        Ok(virtual_ip)
    }

    /// Takes a node off the members. Its lease stays.
    pub fn remove_member(&mut self, node_id: &NodeId)
        requires
            old(self).wf(),
        ensures
            final(self).wf(),
            final(self)@ == without_member(old(self)@, *node_id),
            addresses_distinct(old(self)@.members) ==> addresses_distinct(final(self)@.members),
    {
        proof {
            viewed_cut(self.members.entries@, *node_id);
            viewed_lookup(self.members.entries@, *node_id);
            kept_after_cut(self@.members, *node_id);
        }
        let _ = self.members.remove(node_id);
    }

    fn allocate_ip(&mut self, node_id: NodeId, role: MemberRole) -> (r: Result<
        VirtualIp,
        RoomError,
    >)
        requires
            old(self).wf(),
        ensures
            final(self).wf(),
            match r {
                Ok(ip) => {
                    &&& address_for(old(self)@, node_id, role, ip)
                    &&& final(self)@ == (RoomView {
                        leases: if reusable(old(self)@, node_id) is Some {
                            old(self)@.leases
                        } else {
                            put(old(self)@.leases, node_id, ip)
                        },
                        ..old(self)@
                    })
                    &&& reusable(old(self)@, node_id) is Some ==> lookup(
                        old(self)@.leases,
                        node_id,
                    ) == Some(ip)
                },
                Err(e) => {
                    &&& address_refused(old(self)@, node_id, role, e)
                    &&& final(self)@ == old(self)@
                },
            },
            reusable(old(self)@, node_id) is None ==> cidr_reads_back(old(self)@.virtual_cidr),
    {
        let lease: Option<VirtualIp> = match self.ip_leases.get(&node_id) {
            Some(ip) => Some(*ip),
            None => None,
        };
        if let Some(ip) = lease {
            if !self.held_by_another(&node_id, &ip) {
                return Ok(ip);
            }
        }
        let net = match Ipv4Net::parse(self.virtual_cidr.as_str()) {
            Some(net) => net,
            None => {
                return Err(RoomError::InvalidCidr(self.virtual_cidr.clone()));
            },
        };
        let start: u64 = net.network() as u64;
        let end: u64 = net.broadcast() as u64;
        let first: u64 = if role == MemberRole::Owner {
            1
        } else {
            2
        };
        let ghost room = self@;
        let mut host: u64 = first;
        while start + host < end
            invariant
                self.wf(),
                room == self@,
                *self == *old(self),
                net.wf(),
                parsed_net(room.virtual_cidr) == Some(net),
                cidr_reads_back(room.virtual_cidr),
                start == net_start(net),
                end == net_end(net),
                start <= 0xffff_ffff,
                end <= 0xffff_ffff,
                first == first_host(role),
                first <= host,
                host <= 0x1_0000_0002,
                reusable(room, node_id) is None,
                forall|g: int| first <= g < host ==> !#[trigger] host_free(room, net, g),
            decreases end - host,
        {
            let candidate = VirtualIp(u32_bytes((start + host) as u32));
            assert(candidate.0@ == host_ip(net, host as int));
            if !self.is_used(&candidate) {
                assert(lowest_free(room, net, role, host as int));
                assert(candidate.0@ == host_ip(parsed_net(room.virtual_cidr)->0, host as int));
                assert(address_for(room, node_id, role, candidate));
                self.ip_leases.insert(node_id, candidate);
                return Ok(candidate);
            }
            host += 1;
        }
        assert(none_free(room, net, role));
        Err(RoomError::AddressPoolExhausted)
    }

    fn held_by_another(&self, node_id: &NodeId, ip: &VirtualIp) -> (r: bool)
        ensures
            r == held_by_other(self@.members, *node_id, ip.0@),
    {
        let n: usize = self.members.entries.len();
        let ghost all = self@.members;
        for i in 0..n
            invariant
                n == all.len(),
                n == self.members.entries@.len(),
                all == viewed(self.members.entries@),
                forall|k: int|
                    0 <= k < i ==> (#[trigger] all[k]).value.node_id == *node_id
                        || all[k].value.virtual_ip.0@ != ip.0@,
        {
            let m = &self.members.entries[i].value;
            assert(all[i as int].value == m@);
            if m.node_id != *node_id && m.virtual_ip == *ip {
                assert(all[i as int].value.node_id != *node_id);
                return true;
            }
            proof {
                if m.virtual_ip.0@ == ip.0@ {
                    assert(m.virtual_ip.0 =~= ip.0);
                }
            }
        }
        false
    }

    fn is_used(&self, ip: &VirtualIp) -> (r: bool)
        ensures
            r == (held(self@.members, ip.0@) || leased(self@.leases, ip.0@)),
    {
        let n: usize = self.members.entries.len();
        let ghost all = self@.members;
        for i in 0..n
            invariant
                n == all.len(),
                n == self.members.entries@.len(),
                all == viewed(self.members.entries@),
                forall|k: int| 0 <= k < i ==> (#[trigger] all[k]).value.virtual_ip.0@ != ip.0@,
        {
            let m = &self.members.entries[i].value;
            assert(all[i as int].value == m@);
            if m.virtual_ip == *ip {
                assert(all[i as int].value.virtual_ip.0@ == ip.0@);
                return true;
            }
            proof {
                if m.virtual_ip.0@ == ip.0@ {
                    assert(m.virtual_ip.0 =~= ip.0);
                }
            }
        }
        let n2: usize = self.ip_leases.entries.len();
        for i in 0..n2
            invariant
                n2 == self.ip_leases.entries@.len(),
                !held(self@.members, ip.0@),
                forall|k: int|
                    0 <= k < i ==> (#[trigger] self.ip_leases.entries@[k]).value.0@ != ip.0@,
        {
            let l = &self.ip_leases.entries[i].value;
            if *l == *ip {
                assert(self.ip_leases.entries@[i as int].value.0@ == ip.0@);
                return true;
            }
            proof {
                if l.0@ == ip.0@ {
                    assert(l.0 =~= ip.0);
                }
            }
        }
        false
    }
}

proof fn put_twice<V>(s: Seq<Entry<NodeId, V>>, k: NodeId, v: V)
    requires
        distinct(s),
    ensures
        put(put(s, k, v), k, v) == put(s, k, v),
        lookup(s, k) == Some(v) ==> put(s, k, v) == s,
{
    put_is_insert(s, k, v);
    let t = put(s, k, v);
    let p = at(t, k);
    assert(t[p].key == k);
    assert(t[p].value == v);
    assert(t.update(p, Entry { key: k, value: v }) =~= t);
    if lookup(s, k) == Some(v) {
        let q = at(s, k);
        assert(s[q].key == k);
        assert(s.update(q, Entry { key: k, value: v }) =~= s);
    }
}

/// Members keep distinct addresses when a node gets one.
proof fn stays_distinct(room: RoomView, role: MemberRole, m: MemberView)
    requires
        distinct(room.members),
        filed(room.members),
        addresses_distinct(room.members),
        address_for(room, m.node_id, role, m.virtual_ip),
    ensures
        addresses_distinct(put(room.members, m.node_id, m)),
{
    let node = m.node_id;
    let s = room.members;
    let a = put(s, node, m);
    let p = if has_key(s, node) {
        at(s, node)
    } else {
        s.len() as int
    };
    if has_key(s, node) {
        assert(s[p].key == node);
    }
    assert forall|i: int| 0 <= i < s.len() && i != p implies (#[trigger] s[i]).value.virtual_ip
        != m.virtual_ip by {
        assert(s[i].key == s[i].value.node_id);
        assert(s[i].key != node);
        assert(s[i].value.node_id != node);
        if s[i].value.virtual_ip == m.virtual_ip {
            match reusable(room, node) {
                Some(ip) => {
                    assert(held_by_other(s, node, ip.0@));
                },
                None => {
                    let host = choose|host: int|
                        parsed_net(room.virtual_cidr) is Some && lowest_free(
                            room,
                            parsed_net(room.virtual_cidr)->0,
                            role,
                            host,
                        ) && m.virtual_ip.0@ == #[trigger] host_ip(
                            parsed_net(room.virtual_cidr)->0,
                            host,
                        );
                    assert(held(s, m.virtual_ip.0@));
                },
            }
        }
    }
    assert forall|i: int, j: int| 0 <= i < a.len() && 0 <= j < a.len() && i != j implies (
    #[trigger] a[i]).value.virtual_ip != (#[trigger] a[j]).value.virtual_ip by {
        if i == p {
            assert(a[j] == s[j]);
        } else if j == p {
            assert(a[i] == s[i]);
        } else {
            assert(a[i] == s[i]);
            assert(a[j] == s[j]);
        }
    }
}

/// A node that left and comes back gets the address it had, unless a member has
/// taken it meanwhile: with its lease still there and nobody else on its
/// address, leaving and asking again gives the same address, whatever its role.
pub proof fn lease_is_kept(
    room: RoomView,
    node: NodeId,
    ip: VirtualIp,
    role: MemberRole,
    again: VirtualIp,
)
    requires
        distinct(room.members),
        filed(room.members),
        lookup(room.leases, node) == Some(ip),
        !held_by_other(room.members, node, ip.0@),
        address_for(without_member(room, node), node, role, again),
    ensures
        again == ip,
{
    kept_after_cut(room.members, node);
}

/// The first owner of a room that reads as a network of at least four addresses
/// gets its first host.
pub proof fn owner_gets_first_host(room: RoomView, net: Ipv4Net, node: NodeId, ip: VirtualIp)
    requires
        room.members.len() == 0,
        room.leases.len() == 0,
        parsed_net(room.virtual_cidr) == Some(net),
        net.prefix <= 30,
        address_for(room, node, MemberRole::Owner, ip),
    ensures
        ip.0@ == host_ip(net, 1),
{
    room_for_one(net);
    assert(host_free(room, net, 1));
    let host = choose|host: int|
        parsed_net(room.virtual_cidr) is Some && lowest_free(
            room,
            parsed_net(room.virtual_cidr)->0,
            MemberRole::Owner,
            host,
        ) && ip.0@ == #[trigger] host_ip(parsed_net(room.virtual_cidr)->0, host);
    if host > 1 {
        assert(!host_free(room, net, 1));
    }
}

/// A network of at least four addresses has a first host.
pub proof fn room_for_one(net: Ipv4Net)
    requires
        net.prefix <= 30,
    ensures
        host_in(net, 1),
{
    let k = block_divides(net.prefix as int, 30);
    assert(block(30) == 4) by {
        reveal_with_fuel(block, 4);
    }
    assert(k * 4 >= 4) by (nonlinear_arith)
        requires
            k >= 1,
    ;
}

/// Rooms that share an address pool, each with a subnet of its own.
pub struct RoomAddressPool {
    pub pool: Ipv4Net,
    pub room_prefix_len: u8,
    pub allocations: AssocVec<RoomId, Ipv4Net>,
}

/// How many rooms a pool has room for.
pub open spec fn room_count(pool: Ipv4Net, prefix: u8) -> int {
    block(pool.prefix as int) as int / block(prefix as int) as int
}

/// The subnet at a place in the pool.
pub open spec fn subnet(pool: Ipv4Net, prefix: u8, index: int) -> Ipv4Net {
    Ipv4Net { addr: (net_start(pool) + index * block(prefix as int)) as u32, prefix }
}

/// The network is one of the subnets of the pool.
pub open spec fn is_subnet(pool: Ipv4Net, prefix: u8, net: Ipv4Net) -> bool {
    exists|index: int|
        0 <= index < room_count(pool, prefix) && net == #[trigger] subnet(pool, prefix, index)
}

/// The pool that homes have their own networks in.
pub open spec fn is_home_pool(pool: Ipv4Net, prefix: u8) -> bool {
    net_start(pool) == 0xc0a8_0000 && pool.prefix == 16 && prefix == 24
}

/// Which subnet is tried in which turn. In the pool that homes use, the ones
/// that home routers like best come last.
pub open spec fn candidate_index(home: bool, turn: int) -> int {
    if !home {
        turn
    } else if turn < 56 {
        200 + turn
    } else if turn < 83 {
        turn - 52
    } else if turn < 251 {
        turn - 51
    } else if turn < 255 {
        turn - 251
    } else {
        31
    }
}

/// The subnet of a turn.
pub open spec fn candidate(pool: Ipv4Net, prefix: u8, turn: int) -> Ipv4Net {
    subnet(pool, prefix, candidate_index(is_home_pool(pool, prefix), turn))
}

/// Some room has the subnet.
pub open spec fn taken(allocations: Seq<Entry<RoomId, Ipv4Net>>, net: Ipv4Net) -> bool {
    exists|i: int| 0 <= i < allocations.len() && (#[trigger] allocations[i]).value == net
}

/// Some network to be avoided overlaps the subnet.
pub open spec fn blocked(avoid: Seq<Ipv4Net>, net: Ipv4Net) -> bool {
    exists|i: int| 0 <= i < avoid.len() && nets_overlap(#[trigger] avoid[i], net)
}

/// The subnet of a turn can be handed out.
pub open spec fn available(
    p: RoomAddressPool,
    avoid: Seq<Ipv4Net>,
    turn: int,
) -> bool {
    let c = candidate(p.pool, p.room_prefix_len, turn);
    !taken(p.allocations.entries@, c) && !blocked(avoid, c)
}

/// Every turn of the pool that homes use tries another of its 256 subnets.
proof fn home_turns(turn: int, other: int)
    requires
        0 <= turn < 256,
        0 <= other < 256,
    ensures
        0 <= candidate_index(true, turn) < 256,
        turn != other ==> candidate_index(true, turn) != candidate_index(true, other),
{
}

/// Facts about the subnets of a pool.
proof fn subnet_facts(pool: Ipv4Net, prefix: u8, index: int)
    requires
        pool.wf(),
        pool.prefix <= prefix <= 32,
        0 <= index < room_count(pool, prefix),
    ensures
        room_count(pool, prefix) * block(prefix as int) == block(pool.prefix as int),
        subnet(pool, prefix, index).addr == net_start(pool) + index * block(prefix as int),
        net_start(subnet(pool, prefix, index)) == net_start(pool) + index * block(prefix as int),
        net_end(subnet(pool, prefix, index)) <= net_end(pool),
        net_start(pool) <= net_start(subnet(pool, prefix, index)),
{
    let b = block(prefix as int) as int;
    let whole = block(pool.prefix as int) as int;
    let k = block_divides(pool.prefix as int, prefix as int) as int;
    block_positive(prefix as int);
    assert(whole == k * b);
    vstd::arithmetic::div_mod::lemma_div_multiples_vanish(k, b);
    assert(k * b == b * k) by (nonlinear_arith);
    assert(room_count(pool, prefix) == k);
    net_in_range(pool);
    assert(0 <= index * b <= whole - b) by (nonlinear_arith)
        requires
            0 <= index,
            index + 1 <= k,
            whole == k * b,
            b >= 1,
    ;
    let a = net_start(pool) + index * b;
    assert(net_start(pool) % whole == 0);
    let q = net_start(pool) / whole;
    vstd::arithmetic::div_mod::lemma_fundamental_div_mod(net_start(pool), whole);
    assert(net_start(pool) == whole * q);
    assert(a == (k * q + index) * b) by (nonlinear_arith)
        requires
            a == whole * q + index * b,
            whole == k * b,
    ;
    vstd::arithmetic::div_mod::lemma_mod_multiples_basic(k * q + index, b);
    assert(a % b == 0);
}

/// Two different subnets of a pool have no address in common.
proof fn subnets_apart(pool: Ipv4Net, prefix: u8, i: int, j: int)
    requires
        pool.wf(),
        pool.prefix <= prefix <= 32,
        0 <= i < room_count(pool, prefix),
        0 <= j < room_count(pool, prefix),
        i != j,
    ensures
        !nets_overlap(subnet(pool, prefix, i), subnet(pool, prefix, j)),
        subnet(pool, prefix, i) != subnet(pool, prefix, j),
{
    subnet_facts(pool, prefix, i);
    subnet_facts(pool, prefix, j);
    let b = block(prefix as int) as int;
    block_positive(prefix as int);
    if i < j {
        assert(i * b + b <= j * b) by (nonlinear_arith)
            requires
                i + 1 <= j,
                b >= 1,
        ;
    } else {
        assert(j * b + b <= i * b) by (nonlinear_arith)
            requires
                j + 1 <= i,
                b >= 1,
        ;
    }
}

proof fn candidate_in_range(pool: Ipv4Net, prefix: u8, turn: int)
    requires
        pool.wf(),
        pool.prefix <= prefix <= 32,
        0 <= turn < room_count(pool, prefix),
    ensures
        0 <= candidate_index(is_home_pool(pool, prefix), turn) < room_count(pool, prefix),
{
    if is_home_pool(pool, prefix) {
        assert(room_count(pool, prefix) == 256) by {
            reveal_with_fuel(block, 18);
            assert(block(24) == 256);
            assert(block(16) == 65536);
            let whole = block(16) as int;
            let part = block(24) as int;
            assert(whole / part == 256) by (nonlinear_arith)
                requires
                    whole == 65536,
                    part == 256,
            ;
        }
        home_turns(turn, turn);
    }
}

impl RoomAddressPool {
    /// The pool is one, rooms fit into it, and every room has a subnet of it
    /// that no other room has.
    pub open spec fn wf(self) -> bool {
        &&& self.pool.wf()
        &&& self.pool.prefix <= self.room_prefix_len <= 30
        &&& self.allocations.wf()
        &&& forall|i: int|
            0 <= i < self.allocations.entries@.len() ==> is_subnet(
                self.pool,
                self.room_prefix_len,
                (#[trigger] self.allocations.entries@[i]).value,
            )
        &&& forall|i: int, j: int|
            0 <= i < self.allocations.entries@.len() && 0 <= j < self.allocations.entries@.len()
                && i != j ==> (#[trigger] self.allocations.entries@[i]).value != (
            #[trigger] self.allocations.entries@[j]).value
    }

    pub fn new(pool: &str, room_prefix_len: u8) -> (r: Result<RoomAddressPool, RoomError>)
        ensures
            match r {
                Ok(p) => {
                    &&& p.wf()
                    &&& parsed_net(pool@) == Some(p.pool)
                    &&& p.room_prefix_len == room_prefix_len
                    &&& p.allocations.entries@.len() == 0
                },
                Err(e) => {
                    &&& e is InvalidAddressPool
                    &&& match parsed_net(pool@) {
                        None => e->InvalidAddressPool_0@ == pool@,
                        Some(net) => (room_prefix_len < net.prefix || room_prefix_len > 30)
                            && e->InvalidAddressPool_0@ == net_text(net) + " with room prefix "@
                            + decimal(room_prefix_len as nat),
                    }
                },
            },
            parsed_net(pool@) is Some && parsed_net(pool@)->0.prefix <= room_prefix_len <= 30
                ==> r is Ok,
            forall|n: Ipv4Net|
                n.wf() && pool@ == #[trigger] net_text(n) ==> parsed_net(pool@) == Some(n),
    {
        let net = match Ipv4Net::parse(pool) {
            Some(net) => net,
            None => {
                return Err(RoomError::InvalidAddressPool(pool.to_string()));
            },
        };
        if room_prefix_len < net.prefix || room_prefix_len > 30 {
            let mut text = net.to_text();
            text.append(" with room prefix ");
            push_decimal(&mut text, room_prefix_len as u64);
            return Err(RoomError::InvalidAddressPool(text));
        }
        Ok(RoomAddressPool { pool: net, room_prefix_len, allocations: AssocVec::new() })
    }

    /// Gives a room its subnet.
    pub fn allocate(&mut self, room_id: RoomId) -> (r: Result<Ipv4Net, RoomError>)
        requires
            old(self).wf(),
        ensures
            allocation(*old(self), *final(self), room_id, Seq::<Ipv4Net>::empty(), r),
    {
        let none: [Ipv4Net; 0] = [];
        assert(none@ =~= Seq::<Ipv4Net>::empty());
        self.allocate_with_avoidance(room_id, none.as_slice())
    }

    /// Gives a room its subnet: the one it has, or the first in turn that no
    /// room has and that overlaps no network to be avoided.
    pub fn allocate_with_avoidance(&mut self, room_id: RoomId, avoid: &[Ipv4Net]) -> (r: Result<
        Ipv4Net,
        RoomError,
    >)
        requires
            old(self).wf(),
            forall|i: int| 0 <= i < avoid@.len() ==> (#[trigger] avoid@[i]).wf(),
        ensures
            allocation(*old(self), *final(self), room_id, avoid@, r),
    {
        if let Some(existing) = self.allocations.get(&room_id) {
            return Ok(*existing);
        }
        let size: u64 = self.room_size(self.room_prefix_len);
        let count: u64 = self.room_size(self.pool.prefix) / size;
        let base: u64 = self.pool.network() as u64;
        let home: bool = base == 0xc0a8_0000 && self.pool.prefix == 16 && self.room_prefix_len
            == 24;
        let ghost pool = self.pool;
        let ghost prefix = self.room_prefix_len;
        let mut turn: u64 = 0;
        while turn < count
            invariant
                self.wf(),
                *self == *old(self),
                pool == self.pool,
                prefix == self.room_prefix_len,
                size == block(prefix as int),
                1 <= size,
                count == room_count(pool, prefix),
                base == net_start(pool),
                home == is_home_pool(pool, prefix),
                turn <= count,
                lookup(self.allocations.entries@, room_id) is None,
                forall|i: int| 0 <= i < avoid@.len() ==> (#[trigger] avoid@[i]).wf(),
                forall|t: int| 0 <= t < turn ==> !#[trigger] available(*self, avoid@, t),
            decreases count - turn,
        {
            let index: u64 = index_of_turn(home, turn);
            proof {
                candidate_in_range(pool, prefix, turn as int);
                subnet_facts(pool, prefix, index as int);
                net_in_range(pool);
                block_whole();
                let k = block_divides(0, pool.prefix as int);
                assert(index * size <= net_end(pool) - net_start(pool)) by {
                    assert(net_end(subnet(pool, prefix, index as int)) <= net_end(pool));
                }
            }
            let c = Ipv4Net { addr: (base + index * size) as u32, prefix: self.room_prefix_len };
            assert(c == candidate(pool, prefix, turn as int));
            if !self.is_taken(&c) && !is_blocked(avoid, &c) {
                let ghost before = *self;
                self.allocations.insert(room_id, c);
                proof {
                    pool_grows(before, *self, room_id, index as int);
                    assert(available(before, avoid@, turn as int));
                }
                return Ok(c);
            }
            turn += 1;
        }
        Err(RoomError::AddressPoolExhausted)
    }

    /// Takes the subnet of a room back.
    pub fn release(&mut self, room_id: &RoomId)
        requires
            old(self).wf(),
        ensures
            final(self).wf(),
            final(self).pool == old(self).pool,
            final(self).room_prefix_len == old(self).room_prefix_len,
            final(self).allocations.entries@ == cut(old(self).allocations.entries@, *room_id),
            lookup(final(self).allocations.entries@, *room_id) is None,
    {
        let ghost before = self.allocations.entries@;
        proof {
            cut_is_remove(before, *room_id);
        }
        let _ = self.allocations.remove(room_id);
        proof {
            let after = self.allocations.entries@;
            if has_key(before, *room_id) {
                let p = at(before, *room_id);
                let last = before.len() - 1;
                assert forall|i: int| 0 <= i < after.len() implies is_subnet(
                    self.pool,
                    self.room_prefix_len,
                    (#[trigger] after[i]).value,
                ) by {
                    let a = if i == p {
                        last
                    } else {
                        i
                    };
                    assert(after[i] == before[a]);
                }
                assert forall|i: int, j: int|
                    0 <= i < after.len() && 0 <= j < after.len() && i != j implies (
                #[trigger] after[i]).value != (#[trigger] after[j]).value by {
                    let a = if i == p {
                        last
                    } else {
                        i
                    };
                    let b = if j == p {
                        last
                    } else {
                        j
                    };
                    assert(after[i] == before[a]);
                    assert(after[j] == before[b]);
                }
            }
        }
    }

    fn room_size(&self, prefix: u8) -> (n: u64)
        requires
            prefix <= 32,
        ensures
            n == block(prefix as int),
            1 <= n <= 0x1_0000_0000,
    {
        crate::net::block_size(prefix)
    }

    fn is_taken(&self, net: &Ipv4Net) -> (r: bool)
        ensures
            r == taken(self.allocations.entries@, *net),
    {
        let n: usize = self.allocations.entries.len();
        for i in 0..n
            invariant
                n == self.allocations.entries@.len(),
                forall|k: int| 0 <= k < i ==> (#[trigger] self.allocations.entries@[k]).value != *net,
        {
            if self.allocations.entries[i].value == *net {
                assert(self.allocations.entries@[i as int].value == *net);
                return true;
            }
        }
        false
    }
}

/// How a pool answers a room that asks for a subnet.
pub open spec fn allocation(
    before: RoomAddressPool,
    after: RoomAddressPool,
    room: RoomId,
    avoid: Seq<Ipv4Net>,
    r: Result<Ipv4Net, RoomError>,
) -> bool {
    let count = room_count(before.pool, before.room_prefix_len);
    let had = lookup(before.allocations.entries@, room);
    &&& after.wf()
    &&& after.pool == before.pool
    &&& after.room_prefix_len == before.room_prefix_len
    &&& match r {
        Ok(net) => {
            ||| (had == Some(net) && after.allocations.entries@ == before.allocations.entries@)
            ||| (had is None && after.allocations.entries@ == put(
                before.allocations.entries@,
                room,
                net,
            ) && exists|turn: int|
                0 <= turn < count && net == candidate(before.pool, before.room_prefix_len, turn)
                    && #[trigger] available(before, avoid, turn) && forall|t: int|
                    0 <= t < turn ==> !#[trigger] available(before, avoid, t))
        },
        Err(e) => {
            &&& e is AddressPoolExhausted
            &&& had is None
            &&& after.allocations.entries@ == before.allocations.entries@
            &&& forall|t: int| 0 <= t < count ==> !#[trigger] available(before, avoid, t)
        },
    }
}

fn index_of_turn(home: bool, turn: u64) -> (index: u64)
    ensures
        index == candidate_index(home, turn as int),
{
    if !home {
        turn
    } else if turn < 56 {
        200 + turn
    } else if turn < 83 {
        turn - 52
    } else if turn < 251 {
        turn - 51
    } else if turn < 255 {
        turn - 251
    } else {
        31
    }
}

fn is_blocked(avoid: &[Ipv4Net], net: &Ipv4Net) -> (r: bool)
    requires
        net.wf(),
        forall|i: int| 0 <= i < avoid@.len() ==> (#[trigger] avoid@[i]).wf(),
    ensures
        r == blocked(avoid@, *net),
{
    let n: usize = avoid.len();
    for i in 0..n
        invariant
            n == avoid@.len(),
            net.wf(),
            forall|k: int| 0 <= k < avoid@.len() ==> (#[trigger] avoid@[k]).wf(),
            forall|k: int| 0 <= k < i ==> !nets_overlap(#[trigger] avoid@[k], *net),
    {
        if ipv4_nets_overlap(&avoid[i], net) {
            return true;
        }
    }
    false
}

proof fn pool_grows(before: RoomAddressPool, after: RoomAddressPool, room: RoomId, index: int)
    requires
        before.wf(),
        lookup(before.allocations.entries@, room) is None,
        0 <= index < room_count(before.pool, before.room_prefix_len),
        !taken(
            before.allocations.entries@,
            subnet(before.pool, before.room_prefix_len, index),
        ),
        after.pool == before.pool,
        after.room_prefix_len == before.room_prefix_len,
        after.allocations.wf(),
        after.allocations.entries@ == put(
            before.allocations.entries@,
            room,
            subnet(before.pool, before.room_prefix_len, index),
        ),
    ensures
        after.wf(),
{
    let s = before.allocations.entries@;
    let t = after.allocations.entries@;
    let c = subnet(before.pool, before.room_prefix_len, index);
    assert(t == s.push(Entry { key: room, value: c }));
    assert forall|i: int| 0 <= i < t.len() implies is_subnet(
        after.pool,
        after.room_prefix_len,
        (#[trigger] t[i]).value,
    ) by {
        if i < s.len() {
            assert(t[i] == s[i]);
        } else {
            assert(t[i].value == c);
        }
    }
    assert forall|i: int, j: int| 0 <= i < t.len() && 0 <= j < t.len() && i != j implies (
    #[trigger] t[i]).value != (#[trigger] t[j]).value by {
        if i < s.len() {
            assert(t[i] == s[i]);
        }
        if j < s.len() {
            assert(t[j] == s[j]);
        }
    }
}

/// Rooms have subnets of their own: no two rooms of a pool have an address in
/// common, and all addresses are the pool's.
pub proof fn rooms_are_apart(p: RoomAddressPool, a: RoomId, b: RoomId)
    requires
        p.wf(),
        lookup(p.allocations.entries@, a) is Some,
        lookup(p.allocations.entries@, b) is Some,
        a != b,
    ensures
        !nets_overlap(
            lookup(p.allocations.entries@, a)->0,
            lookup(p.allocations.entries@, b)->0,
        ),
        net_start(p.pool) <= net_start(lookup(p.allocations.entries@, a)->0),
        net_end(lookup(p.allocations.entries@, a)->0) <= net_end(p.pool),
{
    let s = p.allocations.entries@;
    let i = at(s, a);
    let j = at(s, b);
    assert(s[i].key == a);
    assert(s[j].key == b);
    assert(s[i].value != s[j].value);
    assert(is_subnet(p.pool, p.room_prefix_len, s[i].value));
    assert(is_subnet(p.pool, p.room_prefix_len, s[j].value));
    let x = choose|x: int|
        0 <= x < room_count(p.pool, p.room_prefix_len) && s[i].value == #[trigger] subnet(
            p.pool,
            p.room_prefix_len,
            x,
        );
    let y = choose|y: int|
        0 <= y < room_count(p.pool, p.room_prefix_len) && s[j].value == #[trigger] subnet(
            p.pool,
            p.room_prefix_len,
            y,
        );
    assert(x != y);
    subnets_apart(p.pool, p.room_prefix_len, x, y);
    subnet_facts(p.pool, p.room_prefix_len, x);
}

/// Asking again gives the same subnet and changes nothing.
pub proof fn allocating_again_is_idle(
    before: RoomAddressPool,
    mid: RoomAddressPool,
    after: RoomAddressPool,
    room: RoomId,
    avoid: Seq<Ipv4Net>,
    again: Seq<Ipv4Net>,
    first: Result<Ipv4Net, RoomError>,
    second: Result<Ipv4Net, RoomError>,
)
    requires
        before.wf(),
        allocation(before, mid, room, avoid, first),
        first is Ok,
        allocation(mid, after, room, again, second),
    ensures
        second is Ok,
        second->Ok_0 == first->Ok_0,
        after.allocations.entries@ == mid.allocations.entries@,
{
    put_is_insert(before.allocations.entries@, room, first->Ok_0);
}

/// A new subnet overlaps none of the networks to be avoided.
pub proof fn new_subnet_avoids(
    before: RoomAddressPool,
    after: RoomAddressPool,
    room: RoomId,
    avoid: Seq<Ipv4Net>,
    net: Ipv4Net,
    i: int,
)
    requires
        allocation(before, after, room, avoid, Ok(net)),
        lookup(before.allocations.entries@, room) is None,
        0 <= i < avoid.len(),
    ensures
        !nets_overlap(avoid[i], net),
{
}

/// A subnet that was handed out and released can be handed out again: in the
/// pool as it was before, the same turn is available.
pub proof fn released_subnet_is_available(
    before: RoomAddressPool,
    mid: RoomAddressPool,
    after: RoomAddressPool,
    room: RoomId,
    avoid: Seq<Ipv4Net>,
    net: Ipv4Net,
    turn: int,
)
    requires
        before.wf(),
        lookup(before.allocations.entries@, room) is None,
        allocation(before, mid, room, avoid, Ok(net)),
        after.pool == mid.pool,
        after.room_prefix_len == mid.room_prefix_len,
        after.allocations.entries@ == cut(mid.allocations.entries@, room),
    ensures
        after.allocations.entries@ == before.allocations.entries@,
        available(after, avoid, turn) == available(before, avoid, turn),
{
    let s = before.allocations.entries@;
    let t = mid.allocations.entries@;
    assert(t == s.push(Entry { key: room, value: net }));
    at_is(t, s.len() as int);
    assert(cut(t, room) =~= s);
}

impl Default for RoomAddressPool {
    /// The pool `192.168.0.0/16` with rooms of 256 addresses.
    fn default() -> (p: RoomAddressPool)
        ensures
            p.wf(),
            p.pool == (Ipv4Net { addr: 0xc0a8_0000, prefix: 16 }),
            p.room_prefix_len == 24,
            p.allocations.entries@.len() == 0,
    {
        RoomAddressPool {
            pool: Ipv4Net { addr: 0xc0a8_0000, prefix: 16 },
            room_prefix_len: 24,
            allocations: AssocVec::new(),
        }
    }
}

/// The address of a member as a number.
pub open spec fn number_of(ip: VirtualIp) -> int {
    ip.0@[0] * 16_777_216 + ip.0@[1] * 65_536 + ip.0@[2] * 256 + ip.0@[3]
}

proof fn numbers_are_hosts(net: Ipv4Net, host: int, ip: VirtualIp)
    requires
        net.prefix <= 32,
        0 <= host,
        host_in(net, host),
        ip.0@ == host_ip(net, host),
    ensures
        number_of(ip) == net_start(net) + host,
{
    net_in_range(net);
    be32_round_trip((net_start(net) + host) as u32);
}

/// Whoever comes into a room for the first time gets the lowest address that nobody
/// has and nobody had before: it lies in the network of the room, is not the last
/// one of it, and for all but the owner at least two above the first. Every address
/// below it from there on is taken.
pub proof fn newcomers_get_the_lowest_free_address(
    room: RoomView,
    net: Ipv4Net,
    node: NodeId,
    role: MemberRole,
    ip: VirtualIp,
    other: VirtualIp,
)
    requires
        net.wf(),
        parsed_net(room.virtual_cidr) == Some(net),
        !has_key(room.leases, node),
        address_for(room, node, role, ip),
    ensures
        net_start(net) + (if role == MemberRole::Owner {
            1int
        } else {
            2
        }) <= number_of(ip) < net_end(net),
        forall|i: int| 0 <= i < room.members.len() ==> (#[trigger] room.members[i]).value.virtual_ip
            != ip,
        forall|i: int| 0 <= i < room.leases.len() ==> (#[trigger] room.leases[i]).value != ip,
        net_start(net) + (if role == MemberRole::Owner {
            1int
        } else {
            2
        }) <= number_of(other) < number_of(ip) ==> (exists|i: int|
            0 <= i < room.members.len() && (#[trigger] room.members[i]).value.virtual_ip == other)
            || (exists|i: int| 0 <= i < room.leases.len() && (#[trigger] room.leases[i]).value
            == other),
{
    let host = choose|host: int|
        parsed_net(room.virtual_cidr) is Some && lowest_free(room, net, role, host) && ip.0@
            == #[trigger] host_ip(net, host);
    numbers_are_hosts(net, host, ip);
    net_in_range(net);
    let h = number_of(other) - net_start(net);
    if first_host(role) <= h < host {
        assert(!host_free(room, net, h));
        be32_back(other.0@);
        assert(be32_of(other.0@) == number_of(other));
        assert(other.0@ == host_ip(net, h));
        if held(room.members, other.0@) {
            let i = choose|i: int|
                0 <= i < room.members.len() && (#[trigger] room.members[i]).value.virtual_ip.0@
                    == other.0@;
            assert(room.members[i].value.virtual_ip.0 =~= other.0);
            assert(room.members[i].value.virtual_ip == other);
        } else {
            let i = choose|i: int|
                0 <= i < room.leases.len() && (#[trigger] room.leases[i]).value.0@ == other.0@;
            assert(room.leases[i].value.0 =~= other.0);
            assert(room.leases[i].value == other);
        }
    }
}

/// A node is turned away for want of an address only if every address for its kind
/// of member is taken.
pub proof fn nobody_is_turned_away_from_a_room_with_space(
    room: RoomView,
    net: Ipv4Net,
    node: NodeId,
    role: MemberRole,
    e: RoomError,
    other: VirtualIp,
)
    requires
        net.wf(),
        parsed_net(room.virtual_cidr) == Some(net),
        address_refused(room, node, role, e),
        net_start(net) + (if role == MemberRole::Owner {
            1int
        } else {
            2
        }) <= number_of(other) < net_end(net),
    ensures
        e is AddressPoolExhausted,
        (exists|i: int|
            0 <= i < room.members.len() && (#[trigger] room.members[i]).value.virtual_ip == other)
            || (exists|i: int| 0 <= i < room.leases.len() && (#[trigger] room.leases[i]).value
            == other),
{
    net_in_range(net);
    let h = number_of(other) - net_start(net);
    be32_back(other.0@);
    assert(be32_of(other.0@) == number_of(other));
    assert(host_in(net, h));
    assert(!host_free(room, net, h));
    assert(other.0@ == host_ip(net, h));
    if held(room.members, other.0@) {
        let i = choose|i: int|
            0 <= i < room.members.len() && (#[trigger] room.members[i]).value.virtual_ip.0@
                == other.0@;
        assert(room.members[i].value.virtual_ip.0 =~= other.0);
        assert(room.members[i].value.virtual_ip == other);
    } else {
        let i = choose|i: int|
            0 <= i < room.leases.len() && (#[trigger] room.leases[i]).value.0@ == other.0@;
        assert(room.leases[i].value.0 =~= other.0);
        assert(room.leases[i].value == other);
    }
}

/// Whoever becomes a member is one, with its address leased to it, and the others
/// stay what they are; whoever leaves is none, but keeps its lease.
pub proof fn coming_and_going_concern_one(room: RoomView, m: MemberView, other: NodeId)
    requires
        distinct(room.members),
        distinct(room.leases),
        other != m.node_id,
    ensures
        ({
            let with = with_member(room, m);
            let without = without_member(room, m.node_id);
            &&& lookup(with.members, m.node_id) == Some(m)
            &&& lookup(with.leases, m.node_id) == Some(m.virtual_ip)
            &&& lookup(with.members, other) == lookup(room.members, other)
            &&& lookup(with.leases, other) == lookup(room.leases, other)
            &&& !has_key(without.members, m.node_id)
            &&& lookup(without.members, other) == lookup(room.members, other)
            &&& without.leases == room.leases
            &&& with.name == room.name && with.owner == room.owner && with.join_token
                == room.join_token && with.virtual_cidr == room.virtual_cidr
            &&& without.name == room.name && without.owner == room.owner && without.join_token
                == room.join_token && without.virtual_cidr == room.virtual_cidr
        }),
{
    put_is_insert(room.members, m.node_id, m);
    put_is_insert(room.leases, m.node_id, m.virtual_ip);
    cut_is_remove(room.members, m.node_id);
    assert(lookup(cut(room.members, m.node_id), other) == lookup(room.members, other));
}

/// No room has the network, and none that is to be avoided has an address of it.
pub open spec fn can_be_given(
    p: RoomAddressPool,
    avoid: Seq<Ipv4Net>,
    net: Ipv4Net,
) -> bool {
    &&& forall|i: int|
        0 <= i < p.allocations.entries@.len() ==> (#[trigger] p.allocations.entries@[i]).value
            != net
    &&& forall|i: int|
        0 <= i < avoid.len() ==> net_end(#[trigger] avoid[i]) < net_start(net) || net_end(net)
            < net_start(avoid[i])
}

proof fn available_can_be_given(p: RoomAddressPool, avoid: Seq<Ipv4Net>, turn: int)
    ensures
        available(p, avoid, turn) == can_be_given(
            p,
            avoid,
            candidate(p.pool, p.room_prefix_len, turn),
        ),
{
    let c = candidate(p.pool, p.room_prefix_len, turn);
    let all = p.allocations.entries@;
    if can_be_given(p, avoid, c) {
        if taken(all, c) {
            let i = choose|i: int| 0 <= i < all.len() && (#[trigger] all[i]).value == c;
            assert(all[i].value != c);
        }
        if blocked(avoid, c) {
            let i = choose|i: int| 0 <= i < avoid.len() && nets_overlap(#[trigger] avoid[i], c);
            assert(net_end(avoid[i]) < net_start(c) || net_end(c) < net_start(avoid[i]));
        }
    }
}

/// A pool gives its lowest subnet that it can give: every one below is some room's,
/// or has an address of a network to be avoided.
pub proof fn subnets_are_given_from_below(
    before: RoomAddressPool,
    after: RoomAddressPool,
    room: RoomId,
    avoid: Seq<Ipv4Net>,
    net: Ipv4Net,
    lower: int,
)
    requires
        before.wf(),
        !(before.pool.addr / 65_536 == 0xc0a8 && before.pool.prefix == 16 && before.room_prefix_len
            == 24),
        allocation(before, after, room, avoid, Ok(net)),
        lookup(before.allocations.entries@, room) is None,
        0 <= lower,
        net_start(before.pool) + lower * block(before.room_prefix_len as int) < net.addr,
    ensures
        net.prefix == before.room_prefix_len,
        can_be_given(before, avoid, net),
        !can_be_given(
            before,
            avoid,
            Ipv4Net {
                addr: (net_start(before.pool) + lower * block(before.room_prefix_len as int)) as u32,
                prefix: before.room_prefix_len,
            },
        ),
        lookup(after.allocations.entries@, room) == Some(net),
{
    let pool = before.pool;
    let prefix = before.room_prefix_len;
    let size = block(prefix as int) as int;
    block_positive(prefix as int);
    assert(!is_home_pool(pool, prefix)) by {
        if is_home_pool(pool, prefix) {
            block_sixteen();
        }
    }
    let turn = choose|turn: int|
        0 <= turn < room_count(pool, prefix) && net == candidate(pool, prefix, turn)
            && #[trigger] available(before, avoid, turn) && forall|t: int|
            0 <= t < turn ==> !#[trigger] available(before, avoid, t);
    subnet_facts(pool, prefix, turn);
    assert(lower < turn) by (nonlinear_arith)
        requires
            lower * size < turn * size,
            size >= 1,
    ;
    available_can_be_given(before, avoid, turn);
    assert(!available(before, avoid, lower));
    available_can_be_given(before, avoid, lower);
    put_is_insert(before.allocations.entries@, room, net);
}

proof fn block_sixteen()
    ensures
        block(16) == 65_536,
        block(24) == 256,
{
    reveal_with_fuel(block, 18);
    assert(block(24) == 256);
    assert(block(16) == 65_536);
}

/// The network `192.168.x.0/24`.
pub open spec fn home_net(x: int) -> Ipv4Net {
    Ipv4Net { addr: (0xc0a8_0000 + 256 * x) as u32, prefix: 24 }
}

/// In the pool that homes have their networks in, those from 200 on are given
/// first, then those from 4 on but for 31, then the first four, and 31 last; each
/// time from below.
pub proof fn networks_of_homes_are_given_last(
    before: RoomAddressPool,
    after: RoomAddressPool,
    room: RoomId,
    avoid: Seq<Ipv4Net>,
    net: Ipv4Net,
    x: int,
    y: int,
)
    requires
        before.wf(),
        net_start(before.pool) == 0xc0a8_0000,
        before.pool.prefix == 16,
        before.room_prefix_len == 24,
        allocation(before, after, room, avoid, Ok(net)),
        lookup(before.allocations.entries@, room) is None,
        0 <= x < 256,
        0 <= y < 256,
        net == home_net(x),
        ({
            ||| x >= 200 && 200 <= y < x
            ||| x < 200 && y >= 200
            ||| 4 <= x < 200 && x != 31 && 4 <= y < x && y != 31
            ||| (x < 4 || x == 31) && 4 <= y && y != 31
            ||| x < 4 && y < x
            ||| x == 31 && y != 31
        }),
    ensures
        can_be_given(before, avoid, home_net(x)),
        !can_be_given(before, avoid, home_net(y)),
{
    let pool = before.pool;
    block_sixteen();
    let turn = choose|turn: int|
        0 <= turn < room_count(pool, 24) && net == candidate(pool, 24, turn) && #[trigger] available(
            before,
            avoid,
            turn,
        ) && forall|t: int| 0 <= t < turn ==> !#[trigger] available(before, avoid, t);
    assert(room_count(pool, 24) == 256) by {
        let whole = block(16) as int;
        let part = block(24) as int;
        assert(whole / part == 256) by (nonlinear_arith)
            requires
                whole == 65_536,
                part == 256,
        ;
    }
    let t = if y >= 200 {
        y - 200
    } else if 4 <= y < 31 {
        y + 52
    } else if 32 <= y {
        y + 51
    } else if y < 4 {
        y + 251
    } else {
        255
    };
    assert(candidate_index(true, t) == y);
    assert(candidate(pool, 24, t) == home_net(y));
    candidate_in_range(pool, 24, turn);
    let i = candidate_index(true, turn);
    assert(net.addr == 0xc0a8_0000 + 256 * i);
    assert(i == x);
    assert(t < turn);
    assert(!available(before, avoid, t));
    available_can_be_given(before, avoid, t);
    available_can_be_given(before, avoid, turn);
}

/// A pool that gives nothing has nothing to give.
pub proof fn a_pool_gives_as_long_as_it_can(
    before: RoomAddressPool,
    after: RoomAddressPool,
    room: RoomId,
    avoid: Seq<Ipv4Net>,
    e: RoomError,
    turn: int,
)
    requires
        allocation(before, after, room, avoid, Err(e)),
        0 <= turn < room_count(before.pool, before.room_prefix_len),
    ensures
        e is AddressPoolExhausted,
        !has_key(before.allocations.entries@, room),
        !can_be_given(
            before,
            avoid,
            candidate(before.pool, before.room_prefix_len, turn),
        ),
{
    assert(!available(before, avoid, turn));
    available_can_be_given(before, avoid, turn);
}

} // verus!
