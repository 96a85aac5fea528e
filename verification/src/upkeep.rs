//! What the supernode does beside control frames: it keeps track of who is
//! still there, relays data, and drops those that have gone silent.

use crate::common::{NodeId, RoomId, VirtualIp};
use crate::net::SocketAddr;
use crate::proto::{
    views, ControlFrame, DataHeader, FrameView, OutView, Outgoing, PeerAction, PeerInfo,
    PeerInfoView, DATA_HEADER_SIZE,
};
use crate::room::{filed, without_member, Member, MemberView, Room, RoomView};
use crate::slab::{given_back, PacketDesc, DEFAULT_FRAME_CAP};
use crate::supernode::{
    is_sent, present, present_is, present_registered, rooms_sound_after_cut, sound, to_each, NodeInfo,
    NodeView, Supernode, SupernodeView,
};
use crate::table::{
    at, at_is, cut, cut_is_remove, distinct, has_key, lookup, put, put_is_insert, update_is_put,
    viewed, viewed_cut, viewed_lookup, viewed_put, Entry, Table,
};
use vstd::prelude::*;

verus! {

/// Seconds after which a silent node is dropped.
pub const NODE_TIMEOUT_SECS: u64 = 120;

/// A node has been silent for too long; times are in nanoseconds.
pub open spec fn silent(last_seen: u64, now: u64) -> bool {
    now >= last_seen && (now - last_seen) as int / 1_000_000_000 > NODE_TIMEOUT_SECS
}

/// The nodes that have been silent for too long, in the order of the table.
pub open spec fn silent_nodes(nodes: Seq<Entry<NodeId, NodeView>>, now: u64) -> Seq<NodeId>
    decreases nodes.len(),
{
    if nodes.len() == 0 {
        Seq::empty()
    } else {
        let before = silent_nodes(nodes.drop_last(), now);
        if silent(nodes.last().value.last_seen, now) {
            before.push(nodes.last().key)
        } else {
            before
        }
    }
}

/// The rooms without one node.
pub open spec fn all_without(rooms: Seq<Entry<RoomId, RoomView>>, id: NodeId) -> Seq<
    Entry<RoomId, RoomView>,
> {
    Seq::new(
        rooms.len(),
        |i: int| Entry { key: rooms[i].key, value: without_member(rooms[i].value, id) },
    )
}

/// The rooms that nobody is in.
pub open spec fn empty_rooms(rooms: Seq<Entry<RoomId, RoomView>>) -> Seq<RoomId>
    decreases rooms.len(),
{
    if rooms.len() == 0 {
        Seq::empty()
    } else {
        let before = empty_rooms(rooms.drop_last());
        if rooms.last().value.members.len() == 0 {
            before.push(rooms.last().key)
        } else {
            before
        }
    }
}

/// What is left of the rooms once some are closed, one after the other.
pub open spec fn closed_rooms(rooms: Seq<Entry<RoomId, RoomView>>, ids: Seq<RoomId>) -> Seq<
    Entry<RoomId, RoomView>,
>
    decreases ids.len(),
{
    if ids.len() == 0 {
        rooms
    } else {
        cut(closed_rooms(rooms, ids.drop_last()), ids.last())
    }
}

/// How the others hear of a node that was dropped.
pub open spec fn farewell(n: NodeView) -> FrameView {
    FrameView::PeerUpdate {
        peer: PeerInfoView {
            node_id: n.node_id,
            virtual_ip: VirtualIp([0, 0, 0, 0]),
            nickname: n.nickname,
            public_key: n.public_key,
        },
        action: PeerAction::Remove,
    }
}

/// What is sent when a node is dropped: in each of its rooms, to each member
/// that is registered still.
pub open spec fn farewells(
    rooms: Seq<Entry<RoomId, RoomView>>,
    nodes: Seq<Entry<NodeId, NodeView>>,
    id: NodeId,
    frame: FrameView,
) -> Seq<OutView>
    decreases rooms.len(),
{
    if rooms.len() == 0 {
        Seq::empty()
    } else {
        let before = farewells(rooms.drop_last(), nodes, id, frame);
        let members = rooms.last().value.members;
        if has_key(members, id) {
            before + to_each(nodes, present(cut(members, id), nodes, id), frame, false)
        } else {
            before
        }
    }
}

/// What is left once a node is dropped. Rooms that nobody is left in are closed.
pub open spec fn dropped(s: SupernodeView, id: NodeId) -> SupernodeView {
    match lookup(s.nodes, id) {
        Some(n) => {
            let rooms = all_without(s.rooms, id);
            SupernodeView {
                nodes: cut(s.nodes, id),
                addrs: cut(s.addrs, n.addr),
                rooms: closed_rooms(rooms, empty_rooms(rooms)),
            }
        },
        None => s,
    }
}

/// What is sent when a node is dropped.
pub open spec fn dropped_frames(s: SupernodeView, id: NodeId) -> Seq<OutView> {
    match lookup(s.nodes, id) {
        Some(n) => farewells(
            s.rooms,
            cut(s.nodes, id),
            id,
            farewell(NodeView { node_id: id, ..n }),
        ),
        None => Seq::empty(),
    }
}

/// What is left once some nodes are dropped, one after the other.
pub open spec fn all_dropped(s: SupernodeView, ids: Seq<NodeId>) -> SupernodeView
    decreases ids.len(),
{
    if ids.len() == 0 {
        s
    } else {
        dropped(all_dropped(s, ids.drop_last()), ids.last())
    }
}

/// What is sent when some nodes are dropped, one after the other.
pub open spec fn all_dropped_frames(s: SupernodeView, ids: Seq<NodeId>) -> Seq<OutView>
    decreases ids.len(),
{
    if ids.len() == 0 {
        Seq::empty()
    } else {
        all_dropped_frames(s, ids.drop_last()) + dropped_frames(
            all_dropped(s, ids.drop_last()),
            ids.last(),
        )
    }
}

/// What is known once the node behind an address was heard of.
pub open spec fn touched(s: SupernodeView, addr: SocketAddr, now: u64) -> SupernodeView {
    match lookup(s.addrs, addr) {
        Some(id) => match lookup(s.nodes, id) {
            Some(n) => SupernodeView {
                nodes: put(s.nodes, id, NodeView { last_seen: now, ..n }),
                ..s
            },
            None => s,
        },
        None => s,
    }
}

/// What becomes of a data frame at the supernode.
#[derive(Debug, Clone, Copy, PartialEq, Eq)]
pub enum RelayStep {
    /// The frame stands in a buffer and goes out; the buffer is given back then.
    Forward { desc: PacketDesc, len: usize, target: SocketAddr },
    UnknownTarget,
    NoBuffer,
    TooLarge,
}

impl Supernode {
    /// Notes that the node behind an address was heard of.
    pub fn touch(&mut self, addr: &SocketAddr, now: u64)
        requires
            old(self).wf(),
        ensures
            final(self).wf(),
            final(self).same_setup(*old(self)),
            final(self).address_pool == old(self).address_pool,
            final(self)@ == touched(old(self)@, *addr, now),
    {
        proof {
            self.keys_are_distinct();
        }
        if let Some(id) = self.sender(addr) {
            proof {
                viewed_lookup(self.nodes.entries(), id);
            }
            if let Some(i) = self.nodes.find(&id) {
                let ghost before = self.nodes.entries();
                {
                    let n = self.nodes.value_mut(i);
                    n.last_seen = now;
                }
                proof {
                    let after = self.nodes.entries();
                    update_is_put(before, i as int, after[i as int].value);
                    viewed_put(before, id, after[i as int].value);
                    assert forall|k: int, m: int|
                        0 <= k < after.len() && 0 <= m
                            < after[k].value.local_networks@.len() implies (
                    #[trigger] after[k].value.local_networks@[m]).wf() by {
                        assert(after[k].value.local_networks == before[k].value.local_networks);
                        assert(before[k].value.local_networks@[m].wf());
                    }
                    assert(after[i as int].value@ =~= (NodeView {
                        last_seen: now,
                        ..before[i as int].value@
                    }));
                }
            }
        }
    }

    /// Takes a data frame in for the node it is meant for. Only a frame for a
    /// registered node takes up a buffer.
    pub fn relay(&mut self, header: &DataHeader, frame: &[u8]) -> (step: RelayStep)
        requires
            old(self).wf(),
            DATA_HEADER_SIZE + header.payload_len <= frame@.len(),
        ensures
            final(self).wf(),
            final(self)@ == old(self)@,
            final(self).address_pool == old(self).address_pool,
            final(self).config == old(self).config,
            final(self).invite_signing_key == old(self).invite_signing_key,
            relayed(*old(self), *final(self), *header, frame@, step),
    {
        let len: usize = header.frame_len();
        let target = match self.node(&header.dst_node) {
            Some(n) => n.addr,
            None => {
                return RelayStep::UnknownTarget;
            },
        };
        let desc = match self.slab.acquire() {
            Some(d) => d,
            None => {
                return RelayStep::NoBuffer;
            },
        };
        if len > DEFAULT_FRAME_CAP {
            proof {
                old(self).slab.free_fits();
            }
            self.slab.release(desc);
            return RelayStep::TooLarge;
        }
        {
            let slot = self.slab.with_slot_mut(desc);
            for i in 0..len
                invariant
                    len <= DEFAULT_FRAME_CAP,
                    len <= frame@.len(),
                    slot@.len() == DEFAULT_FRAME_CAP,
                    forall|k: int| 0 <= k < i ==> #[trigger] slot@[k] == frame@[k],
            {
                slot[i] = frame[i];
            }
        }
        assert(self.slab.bytes(desc.slot as int).subrange(0, len as int) =~= frame@.subrange(
            0,
            len as int,
        ));
        RelayStep::Forward { desc, len, target }
    }

    /// Gives the buffer of a frame that went out back.
    pub fn relayed_frame_sent(&mut self, desc: PacketDesc)
        requires
            old(self).wf(),
            desc.slot < old(self).slab.capacity(),
        ensures
            final(self).wf(),
            final(self)@ == old(self)@,
            final(self).address_pool == old(self).address_pool,
            final(self).config == old(self).config,
            final(self).invite_signing_key == old(self).invite_signing_key,
            same_buffers(*old(self), *final(self), -1),
            final(self).slab.free_slots() == given_back(
                old(self).slab.free_slots(),
                old(self).slab.capacity(),
                desc.slot,
            ),
    {
        self.slab.release(desc);
    }

    /// The nodes that have been silent for too long.
    pub fn silent_nodes(&self, now: u64) -> (r: Vec<NodeId>)
        requires
            self.wf(),
        ensures
            r@ == silent_nodes(self@.nodes, now),
    {
        let mut r: Vec<NodeId> = Vec::new();
        let n: usize = self.nodes.len();
        let ghost all = self@.nodes;
        assert(all.subrange(0, 0) =~= Seq::<Entry<NodeId, NodeView>>::empty());
        for i in 0..n
            invariant
                n == self.nodes.entries().len(),
                all == self@.nodes,
                r@ == silent_nodes(all.subrange(0, i as int), now),
        {
            let e = self.nodes.nth(i);
            assert(all.subrange(0, i + 1).drop_last() =~= all.subrange(0, i as int));
            assert(all.subrange(0, i + 1).last() == all[i as int]);
            if now >= e.value.last_seen && (now - e.value.last_seen) / 1_000_000_000
                > NODE_TIMEOUT_SECS {
                r.push(e.key);
            }
        }
        assert(all.subrange(0, n as int) =~= all);
        r
    }

    /// Takes a node out of every room, and tells the members that stay.
    fn take_out(&mut self, id: NodeId, peer: &PeerInfo) -> (out: Vec<Outgoing>)
        requires
            old(self).wf(),
        ensures
            final(self).wf(),
            final(self).same_setup(*old(self)),
            final(self).address_pool == old(self).address_pool,
            final(self)@.nodes == old(self)@.nodes,
            final(self)@.addrs == old(self)@.addrs,
            final(self)@.rooms == all_without(old(self)@.rooms, id),
            views(out@) == farewells(
                old(self)@.rooms,
                old(self)@.nodes,
                id,
                FrameView::PeerUpdate { peer: peer@, action: PeerAction::Remove },
            ),
    {
        let mut out: Vec<Outgoing> = Vec::new();
        let ghost frame = FrameView::PeerUpdate { peer: peer@, action: PeerAction::Remove };
        let ghost start = self.rooms.entries();
        let ghost rooms = self@.rooms;
        let ghost nodes = self@.nodes;
        let n: usize = self.rooms.len();
        assert(rooms.subrange(0, 0) =~= Seq::<Entry<RoomId, RoomView>>::empty());
        assert(views(out@) =~= Seq::<OutView>::empty());
        for i in 0..n
            invariant
                self.wf(),
                self.same_setup(*old(self)),
                self.address_pool == old(self).address_pool,
                self.nodes == old(self).nodes,
                self.addr_to_node == old(self).addr_to_node,
                nodes == self@.nodes,
                rooms == viewed(start),
                frame == (FrameView::PeerUpdate { peer: peer@, action: PeerAction::Remove }),
                n == start.len(),
                self.rooms.entries().len() == n,
                forall|k: int|
                    0 <= k < n ==> (#[trigger] self.rooms.entries()[k]).key == start[k].key,
                forall|k: int|
                    0 <= k < i ==> (#[trigger] self.rooms.entries()[k]).value@ == without_member(
                        start[k].value@,
                        id,
                    ),
                forall|k: int| i <= k < n ==> #[trigger] self.rooms.entries()[k] == start[k],
                views(out@) == farewells(rooms.subrange(0, i as int), nodes, id, frame),
        {
            let ghost before = self.rooms.entries();
            let ghost longer = rooms.subrange(0, i + 1);
            assert(longer.drop_last() =~= rooms.subrange(0, i as int));
            assert(longer.last() == rooms[i as int]);
            assert(before[i as int] == start[i as int]);
            assert(before[i as int].value.wf());
            proof {
                viewed_lookup(before[i as int].value.members.entries@, id);
            }
            let was = self.rooms.nth(i).value.members.contains_key(&id);
            {
                let room = self.rooms.value_mut(i);
                room.remove_member(&id);
            }
            let ghost after = self.rooms.entries();
            assert forall|k: int| 0 <= k < after.len() implies sound((#[trigger] after[k]).value) by {
                if k != i {
                    assert(after[k] == before[k]);
                }
            }
            if was {
                let ids = self.present_members(&self.rooms.nth(i).value.members, &id);
                proof {
                    present_registered(cut(rooms[i as int].value.members, id), nodes, id);
                }
                self.push_updates(&mut out, &ids, peer, PeerAction::Remove, false);
            }
        }
        assert(rooms.subrange(0, n as int) =~= rooms);
        assert(self@.rooms =~= all_without(rooms, id));
        out
    }

    /// Closes the rooms that nobody is in.
    fn close_empty_rooms(&mut self)
        requires
            old(self).wf(),
        ensures
            final(self).wf(),
            final(self).same_setup(*old(self)),
            final(self).address_pool == old(self).address_pool,
            final(self)@.nodes == old(self)@.nodes,
            final(self)@.addrs == old(self)@.addrs,
            final(self)@.rooms == closed_rooms(old(self)@.rooms, empty_rooms(old(self)@.rooms)),
    {
        let ghost rooms = self@.rooms;
        let mut ids: Vec<RoomId> = Vec::new();
        let n: usize = self.rooms.len();
        assert(rooms.subrange(0, 0) =~= Seq::<Entry<RoomId, RoomView>>::empty());
        for i in 0..n
            invariant
                n == self.rooms.entries().len(),
                rooms == self@.rooms,
                ids@ == empty_rooms(rooms.subrange(0, i as int)),
        {
            let e = self.rooms.nth(i);
            assert(rooms.subrange(0, i + 1).drop_last() =~= rooms.subrange(0, i as int));
            assert(rooms.subrange(0, i + 1).last() == rooms[i as int]);
            if e.value.members.entries.len() == 0 {
                ids.push(e.key);
            }
        }
        assert(rooms.subrange(0, n as int) =~= rooms);
        let m: usize = ids.len();
        assert(ids@.subrange(0, 0) =~= Seq::<RoomId>::empty());
        for i in 0..m
            invariant
                self.wf(),
                self.same_setup(*old(self)),
                self.address_pool == old(self).address_pool,
                self.nodes == old(self).nodes,
                self.addr_to_node == old(self).addr_to_node,
                m == ids@.len(),
                self@.rooms == closed_rooms(rooms, ids@.subrange(0, i as int)),
        {
            let id = ids[i];
            let ghost before = self.rooms.entries();
            proof {
                self.keys_are_distinct();
                viewed_cut(before, id);
                rooms_sound_after_cut(before, id);
            }
            assert(ids@.subrange(0, i + 1).drop_last() =~= ids@.subrange(0, i as int));
            assert(ids@.subrange(0, i + 1).last() == id);
            let _ = self.rooms.remove(&id);
        }
        assert(ids@.subrange(0, m as int) =~= ids@);
    }

    /// Drops a node: it is registered no longer and a member of no room.
    pub fn drop_node(&mut self, id: NodeId) -> (out: Vec<Outgoing>)
        requires
            old(self).wf(),
        ensures
            final(self).wf(),
            final(self).same_setup(*old(self)),
            final(self).address_pool == old(self).address_pool,
            final(self)@ == dropped(old(self)@, id),
            views(out@) == dropped_frames(old(self)@, id),
    {
        let (peer, addr): (PeerInfo, SocketAddr) = match self.node(&id) {
            Some(n) => (
                PeerInfo {
                    node_id: id,
                    virtual_ip: VirtualIp([0, 0, 0, 0]),
                    nickname: n.nickname.clone(),
                    public_key: n.public_key,
                },
                n.addr,
            ),
            None => {
                let out: Vec<Outgoing> = Vec::new();
                assert(views(out@) =~= Seq::<OutView>::empty());
                return out;
            },
        };
        let ghost nodes = self.nodes.entries();
        proof {
            self.keys_are_distinct();
            viewed_cut(nodes, id);
        }
        let _ = self.nodes.remove(&id);
        let _ = self.addr_to_node.remove(&addr);
        proof {
            let after = self.nodes.entries();
            let p = at(nodes, id);
            viewed_lookup(nodes, id);
            assert(nodes[p].key == id);
            assert forall|k: int, m: int|
                0 <= k < after.len() && 0 <= m < after[k].value.local_networks@.len() implies (
            #[trigger] after[k].value.local_networks@[m]).wf() by {
                let q = if k == p {
                    nodes.len() - 1
                } else {
                    k
                };
                assert(after[k] == nodes[q]);
                assert(nodes[q].value.local_networks@[m].wf());
            }
        }
        let out = self.take_out(id, &peer);
        self.close_empty_rooms();
        proof {
            let n = lookup(old(self)@.nodes, id)->0;
            assert(farewell(NodeView { node_id: id, ..n }) == FrameView::PeerUpdate {
                peer: peer@,
                action: PeerAction::Remove,
            });
            assert(self@ =~= dropped(old(self)@, id));
        }
        out
    }

    /// Drops every node that has been silent for too long.
    pub fn sweep(&mut self, now: u64) -> (out: Vec<Outgoing>)
        requires
            old(self).wf(),
        ensures
            final(self).wf(),
            final(self).same_setup(*old(self)),
            final(self).address_pool == old(self).address_pool,
            final(self)@ == all_dropped(old(self)@, silent_nodes(old(self)@.nodes, now)),
            views(out@) == all_dropped_frames(
                old(self)@,
                silent_nodes(old(self)@.nodes, now),
            ),
    {
        let ids = self.silent_nodes(now);
        let mut out: Vec<Outgoing> = Vec::new();
        let ghost start = self@;
        let n: usize = ids.len();
        assert(ids@.subrange(0, 0) =~= Seq::<NodeId>::empty());
        assert(views(out@) =~= Seq::<OutView>::empty());
        for i in 0..n
            invariant
                n == ids@.len(),
                self.wf(),
                self.same_setup(*old(self)),
                self.address_pool == old(self).address_pool,
                self@ == all_dropped(start, ids@.subrange(0, i as int)),
                views(out@) == all_dropped_frames(start, ids@.subrange(0, i as int)),
        {
            let ghost before = views(out@);
            assert(ids@.subrange(0, i + 1).drop_last() =~= ids@.subrange(0, i as int));
            assert(ids@.subrange(0, i + 1).last() == ids@[i as int]);
            let mut more = self.drop_node(ids[i]);
            let ghost mv = views(more@);
            out.append(&mut more);
            assert(views(out@) =~= before + mv);
        }
        assert(ids@.subrange(0, n as int) =~= ids@);
        out
    }
}

/// There are as many buffers as before, and all but one hold what they held.
pub open spec fn same_buffers(before: Supernode, after: Supernode, but: int) -> bool {
    &&& after.slab.capacity() == before.slab.capacity()
    &&& after.slab.room() == before.slab.room()
    &&& forall|k: int|
        0 <= k < before.slab.capacity() && k != but ==> #[trigger] after.slab.bytes(k)
            == before.slab.bytes(k)
}

/// What becomes of a data frame: it goes to the registered node that it is meant
/// for, if there is a free buffer and the frame fits it.
pub open spec fn relayed(
    before: Supernode,
    after: Supernode,
    header: DataHeader,
    frame: Seq<u8>,
    step: RelayStep,
) -> bool {
    let len = DATA_HEADER_SIZE + header.payload_len;
    let free = before.slab.free_slots();
    match lookup(before@.nodes, header.dst_node) {
        None => step is UnknownTarget && after.slab == before.slab,
        Some(n) => if free.len() == 0 {
            &&& step is NoBuffer
            &&& after.slab.free_slots() == free
            &&& same_buffers(before, after, -1)
        } else if len > DEFAULT_FRAME_CAP {
            &&& step is TooLarge
            &&& after.slab.free_slots() == free.subrange(1, free.len() as int).push(free[0])
            &&& same_buffers(before, after, -1)
        } else {
            &&& step is Forward
            &&& step->desc.slot == free[0]
            &&& step->desc.slot < after.slab.capacity()
            &&& step->len == len
            &&& step->target == n.addr
            &&& same_buffers(before, after, free[0] as int)
            &&& after.slab.free_slots() == free.subrange(1, free.len() as int)
            &&& after.slab.bytes(free[0] as int).subrange(0, len as int) == frame.subrange(
                0,
                len as int,
            )
        },
    }
}

/// A node that was dropped is registered no longer, and is a member of no room.
pub proof fn dropped_is_gone(s: SupernodeView, id: NodeId)
    requires
        distinct(s.nodes),
        distinct(s.rooms),
        forall|i: int| 0 <= i < s.rooms.len() ==> distinct((#[trigger] s.rooms[i]).value.members),
        has_key(s.nodes, id),
    ensures
        !has_key(dropped(s, id).nodes, id),
        forall|i: int|
            0 <= i < dropped(s, id).rooms.len() ==> !has_key(
                (#[trigger] dropped(s, id).rooms[i]).value.members,
                id,
            ),
{
    cut_is_remove(s.nodes, id);
    let rooms = all_without(s.rooms, id);
    assert forall|i: int| 0 <= i < rooms.len() implies !has_key(
        (#[trigger] rooms[i]).value.members,
        id,
    ) by {
        assert(distinct(s.rooms[i].value.members));
        cut_is_remove(s.rooms[i].value.members, id);
    }
    closed_are_among(rooms, empty_rooms(rooms));
    let left = dropped(s, id).rooms;
    assert forall|i: int| 0 <= i < left.len() implies !has_key(
        (#[trigger] left[i]).value.members,
        id,
    ) by {
        assert(rooms.contains(left[i]));
    }
}

proof fn closed_are_among(rooms: Seq<Entry<RoomId, RoomView>>, ids: Seq<RoomId>)
    ensures
        forall|i: int|
            0 <= i < closed_rooms(rooms, ids).len() ==> rooms.contains(
                #[trigger] closed_rooms(rooms, ids)[i],
            ),
    decreases ids.len(),
{
    if ids.len() > 0 {
        closed_are_among(rooms, ids.drop_last());
        let before = closed_rooms(rooms, ids.drop_last());
        let after = closed_rooms(rooms, ids);
        assert forall|i: int| 0 <= i < after.len() implies rooms.contains(#[trigger] after[i]) by {
            if has_key(before, ids.last()) {
                let p = at(before, ids.last());
                assert(before[p].key == ids.last());
                if i == p {
                    assert(after[i] == before[before.len() - 1]);
                } else {
                    assert(after[i] == before[i]);
                }
            }
        }
    } else {
        assert forall|i: int| 0 <= i < rooms.len() implies rooms.contains(#[trigger] rooms[i]) by {}
    }
}

/// A node is among some nodes and has been silent for too long.
spec fn is_silent(nodes: Seq<Entry<NodeId, NodeView>>, id: NodeId, now: u64) -> bool {
    exists|j: int|
        0 <= j < nodes.len() && (#[trigger] nodes[j]).key == id && silent(
            nodes[j].value.last_seen,
            now,
        )
}

/// A node that was heard of within the last two minutes is not swept away.
pub proof fn heard_nodes_stay(nodes: Seq<Entry<NodeId, NodeView>>, id: NodeId, now: u64)
    requires
        distinct(nodes),
        has_key(nodes, id),
        !silent(lookup(nodes, id)->0.last_seen, now),
    ensures
        !silent_nodes(nodes, now).contains(id),
    decreases nodes.len(),
{
    silent_are_among(nodes, now);
    let all = silent_nodes(nodes, now);
    if all.contains(id) {
        let i = choose|i: int| 0 <= i < all.len() && all[i] == id;
        assert(is_silent(nodes, all[i], now));
        let j = choose|j: int|
            0 <= j < nodes.len() && (#[trigger] nodes[j]).key == id && silent(
                nodes[j].value.last_seen,
                now,
            );
        at_is(nodes, j);
    }
}

proof fn silent_are_among(nodes: Seq<Entry<NodeId, NodeView>>, now: u64)
    ensures
        forall|i: int|
            0 <= i < silent_nodes(nodes, now).len() ==> is_silent(
                nodes,
                #[trigger] silent_nodes(nodes, now)[i],
                now,
            ),
    decreases nodes.len(),
{
    if nodes.len() > 0 {
        let front = nodes.drop_last();
        silent_are_among(front, now);
        let before = silent_nodes(front, now);
        let all = silent_nodes(nodes, now);
        assert forall|i: int| 0 <= i < all.len() implies is_silent(
            nodes,
            #[trigger] all[i],
            now,
        ) by {
            if i < before.len() {
                assert(all[i] == before[i]);
                assert(is_silent(front, before[i], now));
                let j = choose|j: int|
                    0 <= j < front.len() && (#[trigger] front[j]).key == before[i] && silent(
                        front[j].value.last_seen,
                        now,
                    );
                assert(nodes[j] == front[j]);
            } else {
                assert(nodes[nodes.len() - 1].key == all[i]);
            }
        }
    }
}

proof fn silent_are_found(nodes: Seq<Entry<NodeId, NodeView>>, i: int, now: u64)
    requires
        0 <= i < nodes.len(),
        silent(nodes[i].value.last_seen, now),
    ensures
        silent_nodes(nodes, now).contains(nodes[i].key),
    decreases nodes.len(),
{
    let front = nodes.drop_last();
    let before = silent_nodes(front, now);
    let all = silent_nodes(nodes, now);
    if i < front.len() {
        assert(front[i] == nodes[i]);
        silent_are_found(front, i, now);
        let k = before.index_of(nodes[i].key);
        assert(all[k] == nodes[i].key);
    } else {
        assert(all[all.len() - 1] == nodes[i].key);
    }
}

/// Exactly those nodes are swept away of which nothing was heard for 121 seconds or
/// longer; whole seconds count, and 120 are still borne with.
pub proof fn two_minutes_are_borne_with(
    nodes: Seq<Entry<NodeId, NodeView>>,
    id: NodeId,
    now: u64,
)
    requires
        distinct(nodes),
        has_key(nodes, id),
    ensures
        silent_nodes(nodes, now).contains(id) <==> now - lookup(nodes, id)->0.last_seen
            >= 121_000_000_000,
{
    let i = at(nodes, id);
    assert(nodes[i].key == id);
    let gone = lookup(nodes, id)->0.last_seen;
    if now - gone >= 121_000_000_000 {
        assert((now - gone) as int / 1_000_000_000 >= 121);
        silent_are_found(nodes, i, now);
    } else {
        assert(!silent(gone, now));
        heard_nodes_stay(nodes, id, now);
    }
}

proof fn closed_lookup(rooms: Seq<Entry<RoomId, RoomView>>, ids: Seq<RoomId>, k: RoomId)
    requires
        distinct(rooms),
    ensures
        distinct(closed_rooms(rooms, ids)),
        ids.contains(k) ==> lookup(closed_rooms(rooms, ids), k) is None,
        !ids.contains(k) ==> lookup(closed_rooms(rooms, ids), k) == lookup(rooms, k),
    decreases ids.len(),
{
    if ids.len() > 0 {
        let front = ids.drop_last();
        closed_lookup(rooms, front, k);
        let before = closed_rooms(rooms, front);
        cut_is_remove(before, ids.last());
        if ids.contains(k) {
            let i = ids.index_of(k);
            if i < front.len() {
                assert(front[i] == k);
                assert(front.contains(k));
            }
            if k != ids.last() {
                assert(lookup(cut(before, ids.last()), k) == lookup(before, k));
            }
        } else {
            assert(ids[ids.len() - 1] == ids.last());
            if front.contains(k) {
                assert(ids[front.index_of(k)] == k);
            }
            assert(lookup(cut(before, ids.last()), k) == lookup(before, k));
        }
    }
}

proof fn empty_rooms_are(rooms: Seq<Entry<RoomId, RoomView>>, k: RoomId)
    requires
        distinct(rooms),
    ensures
        empty_rooms(rooms).contains(k) <==> has_key(rooms, k) && lookup(
            rooms,
            k,
        )->0.members.len() == 0,
    decreases rooms.len(),
{
    empty_rooms_among(rooms, k);
    if has_key(rooms, k) && lookup(rooms, k)->0.members.len() == 0 {
        let i = at(rooms, k);
        assert(rooms[i].key == k);
        empty_room_found(rooms, i);
    }
    if empty_rooms(rooms).contains(k) {
        let i = choose|i: int|
            0 <= i < rooms.len() && (#[trigger] rooms[i]).key == k && rooms[i].value.members.len()
                == 0;
        at_is(rooms, i);
    }
}

proof fn empty_rooms_among(rooms: Seq<Entry<RoomId, RoomView>>, k: RoomId)
    ensures
        empty_rooms(rooms).contains(k) ==> exists|i: int|
            0 <= i < rooms.len() && (#[trigger] rooms[i]).key == k && rooms[i].value.members.len()
                == 0,
    decreases rooms.len(),
{
    if rooms.len() > 0 && empty_rooms(rooms).contains(k) {
        let front = rooms.drop_last();
        let before = empty_rooms(front);
        let all = empty_rooms(rooms);
        empty_rooms_among(front, k);
        let j = all.index_of(k);
        if j < before.len() {
            assert(before[j] == k);
            assert(before.contains(k));
            let i = choose|i: int|
                0 <= i < front.len() && (#[trigger] front[i]).key == k
                    && front[i].value.members.len() == 0;
            assert(rooms[i] == front[i]);
        } else {
            assert(rooms[rooms.len() - 1].key == k);
        }
    }
}

proof fn empty_room_found(rooms: Seq<Entry<RoomId, RoomView>>, i: int)
    requires
        0 <= i < rooms.len(),
        rooms[i].value.members.len() == 0,
    ensures
        empty_rooms(rooms).contains(rooms[i].key),
    decreases rooms.len(),
{
    let front = rooms.drop_last();
    let before = empty_rooms(front);
    let all = empty_rooms(rooms);
    if i < front.len() {
        assert(front[i] == rooms[i]);
        empty_room_found(front, i);
        assert(all[before.index_of(rooms[i].key)] == rooms[i].key);
    } else {
        assert(all[all.len() - 1] == rooms[i].key);
    }
}

/// With a node that is dropped its address is forgotten and it leaves its rooms;
/// other nodes and addresses stay. A room with members left keeps them and its
/// leases, and is otherwise what it was; a room that nobody is left in is closed.
pub proof fn only_what_a_node_had_goes_with_it(
    s: SupernodeView,
    id: NodeId,
    other: NodeId,
    addr: SocketAddr,
    room: RoomId,
)
    requires
        distinct(s.nodes),
        distinct(s.addrs),
        distinct(s.rooms),
        has_key(s.nodes, id),
        has_key(s.rooms, room),
        distinct(lookup(s.rooms, room)->0.members),
    ensures
        ({
            let t = dropped(s, id);
            let was = lookup(s.rooms, room)->0;
            let is = lookup(t.rooms, room);
            &&& other != id ==> lookup(t.nodes, other) == lookup(s.nodes, other)
            &&& addr != lookup(s.nodes, id)->0.addr ==> lookup(t.addrs, addr) == lookup(
                s.addrs,
                addr,
            )
            &&& lookup(t.addrs, lookup(s.nodes, id)->0.addr) is None
            &&& other != id && has_key(was.members, other) ==> is is Some && lookup(
                is->0.members,
                other,
            ) == lookup(was.members, other)
            &&& is is Some ==> is->0.room_id == was.room_id && is->0.name == was.name && is->0.owner
                == was.owner && is->0.virtual_cidr == was.virtual_cidr && is->0.join_token
                == was.join_token && is->0.leases == was.leases && is->0.members.len() > 0
                && !has_key(is->0.members, id)
            &&& is is None <==> was.members.len() == 0 || (was.members.len() == 1 && has_key(
                was.members,
                id,
            ))
        }),
{
    let n = lookup(s.nodes, id)->0;
    let rooms = all_without(s.rooms, id);
    let was = lookup(s.rooms, room)->0;
    cut_is_remove(s.nodes, id);
    cut_is_remove(s.addrs, n.addr);
    assert forall|i: int, j: int|
        0 <= i < rooms.len() && 0 <= j < rooms.len() && i != j implies #[trigger] rooms[i].key
        != #[trigger] rooms[j].key by {
        assert(s.rooms[i].key != s.rooms[j].key);
    }
    let p = at(s.rooms, room);
    assert(s.rooms[p].key == room);
    assert(rooms[p].key == room);
    at_is(rooms, p);
    assert(lookup(rooms, room) == Some(without_member(was, id)));
    empty_rooms_are(rooms, room);
    closed_lookup(rooms, empty_rooms(rooms), room);
    cut_is_remove(was.members, id);
    if other != id && has_key(was.members, other) {
        assert(lookup(cut(was.members, id), other) == lookup(was.members, other));
        let left = cut(was.members, id);
        assert(has_key(left, other));
        let q = at(left, other);
        assert(left[q].key == other);
    }
    if has_key(was.members, id) {
        let q = at(was.members, id);
        assert(was.members[q].key == id);
    }
    assert(lookup(dropped(s, id).addrs, n.addr) is None);
}

proof fn farewells_reach(
    rooms: Seq<Entry<RoomId, RoomView>>,
    nodes: Seq<Entry<NodeId, NodeView>>,
    id: NodeId,
    frame: FrameView,
    i: int,
    other: NodeId,
)
    requires
        0 <= i < rooms.len(),
        has_key(rooms[i].value.members, id),
        has_key(rooms[i].value.members, other),
        distinct(rooms[i].value.members),
        filed(rooms[i].value.members),
        other != id,
        has_key(nodes, other),
    ensures
        is_sent(farewells(rooms, nodes, id, frame), lookup(nodes, other)->0.addr, frame),
    decreases rooms.len(),
{
    let front = rooms.drop_last();
    let before = farewells(front, nodes, id, frame);
    let all = farewells(rooms, nodes, id, frame);
    if i < front.len() {
        assert(front[i] == rooms[i]);
        farewells_reach(front, nodes, id, frame, i, other);
        let j = choose|j: int|
            0 <= j < before.len() && (#[trigger] before[j]).target == lookup(nodes, other)->0.addr
                && before[j].frame == frame;
        assert(all[j] == before[j]);
    } else {
        let members = rooms[i].value.members;
        let left = cut(members, id);
        cut_is_remove(members, id);
        filed_without(members, id);
        assert(lookup(left, other) == lookup(members, other));
        present_is(left, nodes, id, other);
        let ids = present(left, nodes, id);
        let k = ids.index_of(other);
        assert(ids[k] == other);
        let last = to_each(nodes, ids, frame, false);
        assert(last[k].target == lookup(nodes, other)->0.addr);
        assert(all == before + last);
        assert(all[before.len() + k] == last[k]);
    }
}

proof fn filed_without(members: Seq<Entry<NodeId, MemberView>>, id: NodeId)
    requires
        filed(members),
    ensures
        filed(cut(members, id)),
{
    let left = cut(members, id);
    assert forall|i: int| 0 <= i < left.len() implies (#[trigger] left[i]).key
        == left[i].value.node_id by {
        if has_key(members, id) {
            let p = at(members, id);
            assert(members[p].key == id);
            if i == p {
                assert(left[i] == members[members.len() - 1]);
            } else {
                assert(left[i] == members[i]);
            }
        }
    }
}

proof fn farewells_say(
    rooms: Seq<Entry<RoomId, RoomView>>,
    nodes: Seq<Entry<NodeId, NodeView>>,
    id: NodeId,
    frame: FrameView,
)
    ensures
        forall|j: int|
            0 <= j < farewells(rooms, nodes, id, frame).len() ==> (#[trigger] farewells(
                rooms,
                nodes,
                id,
                frame,
            )[j]).frame == frame && is_address_of_one(
                nodes,
                farewells(rooms, nodes, id, frame)[j].target,
            ),
    decreases rooms.len(),
{
    if rooms.len() > 0 {
        let front = rooms.drop_last();
        farewells_say(front, nodes, id, frame);
        let before = farewells(front, nodes, id, frame);
        let all = farewells(rooms, nodes, id, frame);
        let members = rooms.last().value.members;
        let ids = present(cut(members, id), nodes, id);
        present_registered(cut(members, id), nodes, id);
        assert forall|j: int| 0 <= j < all.len() implies (#[trigger] all[j]).frame == frame
            && is_address_of_one(nodes, all[j].target) by {
            if j < before.len() {
                assert(all[j] == before[j]);
            } else {
                let k = j - before.len();
                assert(has_key(nodes, ids[k]));
                assert(all[j].target == lookup(nodes, ids[k])->0.addr);
            }
        }
    }
}

/// Some registered node is reached at the address.
pub open spec fn is_address_of_one(nodes: Seq<Entry<NodeId, NodeView>>, addr: SocketAddr) -> bool {
    exists|id: NodeId| #[trigger] has_key(nodes, id) && lookup(nodes, id)->0.addr == addr
}

/// Everybody who is registered and was in a room with a node that is dropped is
/// told that it has gone. Nothing else is sent, and nobody else is told.
pub proof fn room_mates_are_told_who_has_gone(
    s: SupernodeView,
    id: NodeId,
    room: int,
    other: NodeId,
)
    requires
        distinct(s.nodes),
        has_key(s.nodes, id),
        0 <= room < s.rooms.len(),
        has_key(s.rooms[room].value.members, id),
        has_key(s.rooms[room].value.members, other),
        distinct(s.rooms[room].value.members),
        filed(s.rooms[room].value.members),
        other != id,
        has_key(s.nodes, other),
    ensures
        exists|j: int|
            {
                let o = #[trigger] dropped_frames(s, id)[j];
                &&& 0 <= j < dropped_frames(s, id).len()
                &&& o.target == lookup(s.nodes, other)->0.addr
                &&& o.frame is PeerUpdate
                &&& o.frame->PeerUpdate_peer.node_id == id
                &&& o.frame->action == PeerAction::Remove
            },
        forall|j: int|
            0 <= j < dropped_frames(s, id).len() ==> {
                let o = #[trigger] dropped_frames(s, id)[j];
                &&& o.frame is PeerUpdate
                &&& o.frame->action == PeerAction::Remove
                &&& o.frame->PeerUpdate_peer.node_id == id
                &&& o.frame->PeerUpdate_peer.virtual_ip == VirtualIp([0, 0, 0, 0])
                &&& o.frame->PeerUpdate_peer.nickname == lookup(s.nodes, id)->0.nickname
                &&& o.frame->PeerUpdate_peer.public_key == lookup(s.nodes, id)->0.public_key
                &&& is_address_of_one(cut(s.nodes, id), o.target)
            },
{
    let n = lookup(s.nodes, id)->0;
    let nodes = cut(s.nodes, id);
    let frame = farewell(NodeView { node_id: id, ..n });
    cut_is_remove(s.nodes, id);
    assert(lookup(nodes, other) == lookup(s.nodes, other));
    farewells_reach(s.rooms, nodes, id, frame, room, other);
    farewells_say(s.rooms, nodes, id, frame);
    let out = dropped_frames(s, id);
    let j = choose|j: int|
        0 <= j < out.len() && (#[trigger] out[j]).target == lookup(nodes, other)->0.addr
            && out[j].frame == frame;
    assert(out[j].frame == frame);
}

/// When the silent ones are swept away, exactly they are registered no longer.
pub proof fn sweeping_spares_the_others(s: SupernodeView, ids: Seq<NodeId>, id: NodeId)
    requires
        distinct(s.nodes),
    ensures
        distinct(all_dropped(s, ids).nodes),
        ids.contains(id) ==> !has_key(all_dropped(s, ids).nodes, id),
        !ids.contains(id) ==> lookup(all_dropped(s, ids).nodes, id) == lookup(s.nodes, id),
    decreases ids.len(),
{
    if ids.len() > 0 {
        let front = ids.drop_last();
        sweeping_spares_the_others(s, front, id);
        let before = all_dropped(s, front);
        cut_is_remove(before.nodes, ids.last());
        if ids.contains(id) {
            let i = ids.index_of(id);
            if i < front.len() {
                assert(front[i] == id);
                assert(front.contains(id));
            }
            if id != ids.last() {
                assert(lookup(cut(before.nodes, ids.last()), id) == lookup(before.nodes, id));
            }
        } else {
            assert(ids[ids.len() - 1] == ids.last());
            if front.contains(id) {
                assert(ids[front.index_of(id)] == id);
            }
            assert(lookup(cut(before.nodes, ids.last()), id) == lookup(before.nodes, id));
        }
    }
}

/// Whoever writes is heard of then; nothing else is known of it than before, and
/// nothing else of anybody.
pub proof fn writing_is_being_heard(s: SupernodeView, addr: SocketAddr, now: u64, other: NodeId)
    requires
        distinct(s.nodes),
    ensures
        ({
            let t = touched(s, addr, now);
            let id = lookup(s.addrs, addr);
            &&& t.addrs == s.addrs
            &&& t.rooms == s.rooms
            &&& id is Some && has_key(s.nodes, id->0) ==> lookup(t.nodes, id->0) == Some(
                NodeView {
                    node_id: lookup(s.nodes, id->0)->0.node_id,
                    addr: lookup(s.nodes, id->0)->0.addr,
                    nat_type: lookup(s.nodes, id->0)->0.nat_type,
                    external_addr: lookup(s.nodes, id->0)->0.external_addr,
                    public_key: lookup(s.nodes, id->0)->0.public_key,
                    candidates: lookup(s.nodes, id->0)->0.candidates,
                    nickname: lookup(s.nodes, id->0)->0.nickname,
                    local_networks: lookup(s.nodes, id->0)->0.local_networks,
                    last_seen: now,
                },
            )
            &&& id is None || id->0 != other ==> lookup(t.nodes, other) == lookup(s.nodes, other)
        }),
{
    match lookup(s.addrs, addr) {
        Some(id) => {
            match lookup(s.nodes, id) {
                Some(n) => {
                    put_is_insert(s.nodes, id, NodeView { last_seen: now, ..n });
                },
                None => {},
            }
        },
        None => {},
    }
}

/// A frame is passed on to where its destination is reached, byte for byte, its
/// header included, if the destination is registered, a buffer is free and the
/// frame fits into it: 1600 bytes with the 148 of the header. Otherwise nothing
/// is passed on.
pub proof fn frames_are_passed_on_unchanged(
    before: Supernode,
    after: Supernode,
    header: DataHeader,
    frame: Seq<u8>,
    step: RelayStep,
)
    requires
        relayed(before, after, header, frame, step),
    ensures
        step is Forward <==> has_key(before@.nodes, header.dst_node)
            && before.slab.free_slots().len() > 0 && header.payload_len <= 1452,
        step is Forward ==> step->target == lookup(before@.nodes, header.dst_node)->0.addr
            && step->len == 148 + header.payload_len && forall|i: int|
            0 <= i < step->len ==> #[trigger] after.slab.bytes(step->desc.slot as int).subrange(
                0,
                step->len as int,
            )[i] == frame.subrange(0, step->len as int)[i],
        step is UnknownTarget <==> !has_key(before@.nodes, header.dst_node),
        step is NoBuffer ==> before.slab.free_slots().len() == 0,
{
}

} // verus!
