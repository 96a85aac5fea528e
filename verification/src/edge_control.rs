//! What the edge makes of the control frames that come in.

use crate::bytes::read_array;
use crate::common::{dotted, NodeId, RoomId, SessionId, VirtualIp};
use crate::crypto::{Cipher, NoiseSession, ReplayWindow};
use crate::dataplane::{
    candidate_added, direct_path_noted, DataPeer, DataPeerView, DataPlane, DataPlaneView,
};
use crate::edge::{
    build_peer_state, cut_keeps_spent, filed, fresh_peer, put_keeps_spent, same_peers, well_filed, Edge,
    EdgeView, PeerState, PeerStateView, RuntimeView,
};
use crate::endpoints::{invite_names, normal_invite, normalize_invite_code};
use crate::invite::InviteView;
use crate::metrics::{handshake_counted, RegistryView};
use crate::net::SocketAddr;
use crate::path::{new_path, PathInfo, PathManager, PathMetrics};
use crate::proto::{
    copy_candidates, copy_peer, views, Candidate, ControlFrame, FrameView, OutView, Outgoing,
    PeerAction, PeerInfo, PeerInfoView, RoomDescription, RoomDescriptionView,
};
use crate::rendezvous::{all_pairs, build_candidate_pairs, scores_fit, CandidatePair};
use crate::sort::by_rank;
use crate::table::{
    at, at_is, cut, cut_is_remove, distinct, has_key, lookup, put, put_is_insert, update_is_put,
    viewed, viewed_cut, viewed_lookup, viewed_put, Entry, Table,
};
use crate::text::{hex_text, opt_text};
use vstd::prelude::*;
use vstd::slice::slice_subrange;

verus! {

/// What somebody waits for.
#[derive(Debug, Clone, Copy, PartialEq, Eq, Structural)]
pub enum Waiting {
    Create,
    Join,
    Rooms,
}

/// What somebody who waits is told.
#[derive(Debug)]
pub enum Reply {
    Created { room_id: RoomId, assigned_ip: VirtualIp, virtual_cidr: String, invite_code: String },
    Joined { room_id: RoomId, assigned_ip: VirtualIp, virtual_cidr: String },
    Rooms(Vec<RoomDescription>),
    Failed(String),
}

/// What somebody who waits is told.
#[verifier::ext_equal]
pub enum ReplyView {
    Created {
        room_id: RoomId,
        assigned_ip: VirtualIp,
        virtual_cidr: Seq<char>,
        invite_code: Seq<char>,
    },
    Joined { room_id: RoomId, assigned_ip: VirtualIp, virtual_cidr: Seq<char> },
    Rooms(Seq<RoomDescriptionView>),
    Failed(Seq<char>),
}

impl View for Reply {
    type V = ReplyView;

    open spec fn view(&self) -> ReplyView {
        match *self {
            Reply::Created { room_id, assigned_ip, virtual_cidr, invite_code } =>
                ReplyView::Created {
                room_id,
                assigned_ip,
                virtual_cidr: virtual_cidr@,
                invite_code: invite_code@,
            },
            Reply::Joined { room_id, assigned_ip, virtual_cidr } => ReplyView::Joined {
                room_id,
                assigned_ip,
                virtual_cidr: virtual_cidr@,
            },
            Reply::Rooms(rooms) => ReplyView::Rooms(views(rooms@)),
            Reply::Failed(reason) => ReplyView::Failed(reason@),
        }
    }
}

#[derive(Debug)]
pub struct Answer {
    pub to: Waiting,
    pub reply: Reply,
}

/// An answer to somebody who waits.
#[verifier::ext_equal]
pub struct AnswerView {
    pub to: Waiting,
    pub reply: ReplyView,
}

impl View for Answer {
    type V = AnswerView;

    open spec fn view(&self) -> AnswerView {
        AnswerView { to: self.to, reply: self.reply@ }
    }
}

/// A room to be remembered.
#[derive(Debug)]
pub struct HistoryNote {
    pub room_id: String,
    pub name: String,
    pub invite_code: String,
}

/// What is to be done about a control frame.
#[derive(Debug)]
pub enum ControlStep {
    /// All was done; these answers are due.
    Done(Vec<Answer>),
    /// A room that was created is to be entered.
    EnterCreated {
        room_id: RoomId,
        assigned_ip: VirtualIp,
        virtual_cidr: String,
        invite_code: String,
    },
    /// A room that was joined is to be entered.
    EnterJoined {
        room_id: RoomId,
        assigned_ip: VirtualIp,
        virtual_cidr: String,
        room_name: Option<String>,
    },
    /// A peer is to be reached for.
    Punch { target: NodeId, candidates: Vec<Candidate> },
    /// A handshake is to go on.
    Shake { from: NodeId, payload: Vec<u8> },
}

/// Somebody waits for this.
pub open spec fn awaited(v: EdgeView, to: Waiting) -> bool {
    match to {
        Waiting::Create => v.pending_create,
        Waiting::Join => v.pending_join,
        Waiting::Rooms => v.pending_rooms,
    }
}

/// Nobody waits for this any more.
pub open spec fn satisfied(v: EdgeView, to: Waiting) -> EdgeView {
    match to {
        Waiting::Create => EdgeView { pending_create: false, ..v },
        Waiting::Join => EdgeView { pending_join: false, ..v },
        Waiting::Rooms => EdgeView { pending_rooms: false, ..v },
    }
}

/// The answer to whoever waits for it.
pub open spec fn answers(v: EdgeView, to: Waiting, reply: ReplyView) -> Seq<AnswerView> {
    if awaited(v, to) {
        seq![AnswerView { to, reply }]
    } else {
        Seq::empty()
    }
}

/// An edge with an error to tell of.
pub open spec fn troubled(v: EdgeView, error: Seq<char>) -> EdgeView {
    EdgeView { runtime: RuntimeView { last_error: Some(error), ..v.runtime }, ..v }
}

/// A peer as the data plane first knows it: over the supernode, without a key.
pub open spec fn relayed_peer(info: PeerInfoView, supernode: SocketAddr, now: u64) -> DataPeerView {
    DataPeerView {
        info,
        paths: seq![new_path(supernode, true, now)],
        active: 0,
        cipher: None,
        session_id: SessionId(0),
        next_nonce: 1,
    }
}

/// An edge that heard of a peer. Of itself it need not hear.
pub open spec fn met(v: EdgeView, me: NodeId, info: PeerInfoView, now: u64) -> EdgeView {
    if info.node_id == me {
        v
    } else {
        EdgeView {
            peers: put(
                v.peers,
                info.node_id,
                match lookup(v.peers, info.node_id) {
                    Some(p) => PeerStateView { info, ..p },
                    None => fresh_peer(info),
                },
            ),
            data: DataPlaneView {
                peers: put(
                    v.data.peers,
                    info.node_id,
                    match lookup(v.data.peers, info.node_id) {
                        Some(p) => DataPeerView { info, ..p },
                        None => relayed_peer(info, v.supernode, now),
                    },
                ),
                ..v.data
            },
            ..v
        }
    }
}

/// An edge that heard of some peers.
pub open spec fn met_all(v: EdgeView, me: NodeId, list: Seq<PeerInfoView>, now: u64) -> EdgeView
    decreases list.len(),
{
    if list.len() == 0 {
        v
    } else {
        met(met_all(v, me, list.drop_last(), now), me, list.last(), now)
    }
}

/// An edge that forgot a peer.
pub open spec fn parted(v: EdgeView, id: NodeId) -> EdgeView {
    EdgeView {
        peers: cut(v.peers, id),
        data: DataPlaneView {
            peers: cut(v.data.peers, id),
            macs: crate::ethernet::macs_without(v.data.macs, id),
            ..v.data
        },
        ..v
    }
}

/// An edge that forgot some peers.
pub open spec fn parted_all(v: EdgeView, ids: Seq<NodeId>) -> EdgeView
    decreases ids.len(),
{
    if ids.len() == 0 {
        v
    } else {
        parted(parted_all(v, ids.drop_last()), ids.last())
    }
}

/// A node is on a list of peers, and is not this one.
pub open spec fn on_list(list: Seq<PeerInfoView>, me: NodeId, id: NodeId) -> bool {
    id != me && exists|i: int| 0 <= i < list.len() && (#[trigger] list[i]).node_id == id
}

/// The peers that are not on a list.
pub open spec fn unlisted(
    peers: Seq<Entry<NodeId, PeerStateView>>,
    list: Seq<PeerInfoView>,
    me: NodeId,
) -> Seq<NodeId>
    decreases peers.len(),
{
    if peers.len() == 0 {
        Seq::empty()
    } else {
        let before = unlisted(peers.drop_last(), list, me);
        if on_list(list, me, peers.last().key) {
            before
        } else {
            before.push(peers.last().key)
        }
    }
}

/// An edge whose room has exactly the peers of a list.
pub open spec fn peers_set(v: EdgeView, me: NodeId, list: Seq<PeerInfoView>, now: u64) -> EdgeView {
    let known = met_all(v, me, list, now);
    parted_all(known, unlisted(known.peers, list, me))
}

/// What becomes of a control frame.
pub open spec fn control_handled(
    before: Edge,
    after: EdgeView,
    frame: FrameView,
    now: u64,
    step: ControlStep,
) -> bool {
    let v = before@;
    match frame {
        FrameView::RoomCreated { room_id, assigned_ip, virtual_cidr, invite_code } => {
            &&& after == v
            &&& step is EnterCreated
            &&& step->EnterCreated_room_id == room_id
            &&& step->EnterCreated_assigned_ip == assigned_ip
            &&& step->EnterCreated_virtual_cidr@ == virtual_cidr
            &&& step->invite_code@ == invite_code
        },
        FrameView::JoinAccept { room_id, assigned_ip, virtual_cidr, room_name } => {
            &&& after == v
            &&& step is EnterJoined
            &&& step->EnterJoined_room_id == room_id
            &&& step->EnterJoined_assigned_ip == assigned_ip
            &&& step->EnterJoined_virtual_cidr@ == virtual_cidr
            &&& opt_text(step->room_name) == room_name
        },
        FrameView::JoinReject { reason } => {
            let told = troubled(EdgeView { invite: None, ..v }, reason);
            &&& after == satisfied(told, Waiting::Join)
            &&& step is Done
            &&& views(step->Done_0@) == answers(v, Waiting::Join, ReplyView::Failed(reason))
        },
        FrameView::PeerList { peers } => {
            &&& after == peers_set(v, before.node_id, peers, now)
            &&& step is Done
            &&& step->Done_0@.len() == 0
        },
        FrameView::PeerUpdate { peer, action } => {
            &&& after == match action {
                PeerAction::Add | PeerAction::Update => met(v, before.node_id, peer, now),
                PeerAction::Remove => parted(v, peer.node_id),
            }
            &&& step is Done
            &&& step->Done_0@.len() == 0
        },
        FrameView::PunchRequest { target, candidates } => {
            &&& after == v
            &&& step is Punch
            &&& step->target == target
            &&& step->candidates@ == candidates
        },
        FrameView::Handshake { from, payload } => {
            &&& after == v
            &&& step is Shake
            &&& step->from == from
            &&& step->payload@ == payload
        },
        FrameView::Error { message, .. } => {
            &&& after == satisfied(
                satisfied(troubled(v, message), Waiting::Create),
                Waiting::Join,
            )
            &&& step is Done
            &&& views(step->Done_0@) == answers(v, Waiting::Create, ReplyView::Failed(message))
                + answers(v, Waiting::Join, ReplyView::Failed(message))
        },
        FrameView::RoomsList { rooms } => {
            &&& after == satisfied(v, Waiting::Rooms)
            &&& step is Done
            &&& views(step->Done_0@) == answers(v, Waiting::Rooms, ReplyView::Rooms(rooms))
        },
        _ => after == v && step is Done && step->Done_0@.len() == 0,
    }
}

impl Edge {
    pub(crate) proof fn peers_are_distinct(self)
        requires
            self.wf(),
        ensures
            distinct(self.peers.entries()),
            distinct(self@.peers),
            distinct(self@.data.peers),
    {
        self.peers.keys_distinct();
        self.dataplane.peers_are_distinct();
        if self.peers.entries().len() > 0 {
            viewed_lookup(self.peers.entries(), self.peers.entries()[0].key);
        }
    }

    pub(crate) fn find_peer(&self, node: &NodeId) -> (r: Option<usize>)
        requires
            self.wf(),
        ensures
            r is Some <==> has_key(self@.peers, *node),
            r is Some ==> {
                let i = r->0 as int;
                &&& i < self.peers.entries().len()
                &&& self.peers.entries()[i].key == *node
                &&& self.peers.entries()[i].value.info.node_id == *node
                &&& lookup(self@.peers, *node) == Some(self.peers.entries()[i].value@)
            },
            r is None ==> lookup(self@.peers, *node) is None,
    {
        proof {
            self.peers_are_distinct();
            viewed_lookup(self.peers.entries(), *node);
        }
        self.peers.find(node)
    }

    /// Takes in that something came from an address.
    pub fn note_activity(&mut self, addr: &SocketAddr, now: u64)
        requires
            old(self).wf(),
        ensures
            final(self).wf(),
            final(self).same_setup(*old(self)),
            final(self)@ == activity_noted(old(self)@, *addr, now),
    {
        if *addr == self.supernode_addr {
            self.last_activity = now;
            self.runtime.supernode_reachable = true;
            self.runtime.last_supernode_activity_at = Some(now);
        }
    }

    /// The answer to whoever waits for it, if anybody does.
    pub(crate) fn answer(&mut self, to: Waiting, reply: Reply) -> (r: Vec<Answer>)
        requires
            old(self).wf(),
        ensures
            final(self).wf(),
            final(self).same_setup(*old(self)),
            final(self)@ == satisfied(old(self)@, to),
            views(r@) == answers(old(self)@, to, reply@),
    {
        let mut r: Vec<Answer> = Vec::new();
        let waits = match to {
            Waiting::Create => self.pending_create,
            Waiting::Join => self.pending_join,
            Waiting::Rooms => self.pending_rooms,
        };
        match to {
            Waiting::Create => {
                self.pending_create = false;
            },
            Waiting::Join => {
                self.pending_join = false;
            },
            Waiting::Rooms => {
                self.pending_rooms = false;
            },
        }
        if waits {
            r.push(Answer { to, reply });
        }
        assert(views(r@) =~= answers(old(self)@, to, reply@));
        r
    }

    fn meet(&mut self, peer: &PeerInfo, now: u64)
        requires
            old(self).wf(),
        ensures
            final(self).wf(),
            final(self).same_setup(*old(self)),
            final(self)@ == met(old(self)@, old(self).node_id, peer@, now),
    {
        if peer.node_id == self.node_id {
            return;
        }
        let ghost me = self@;
        proof {
            self.peers_are_distinct();
        }
        file_peer(&mut self.peers, peer);
        let fresh = DataPeer::new(
            copy_peer(peer),
            PathManager::new(self.supernode_addr, now),
            None,
            SessionId(0),
            1,
        );
        assert(fresh@ =~= relayed_peer(peer@, self.supernode_addr, now));
        self.dataplane.upsert_peer(fresh);
        proof {
            let told = match lookup(me.peers, peer.node_id) {
                Some(p) => PeerStateView { info: peer@, ..p },
                None => fresh_peer(peer@),
            };
            let known = match lookup(me.data.peers, peer.node_id) {
                Some(p) => DataPeerView { info: peer@, ..p },
                None => relayed_peer(peer@, self.supernode_addr, now),
            };
            put_keeps_same(me.peers, me.data.peers, peer.node_id, told, known);
            put_keeps_spent(me.data.peers, me.spent, peer.node_id, known);
        }
    }

    fn part(&mut self, id: &NodeId)
        requires
            old(self).wf(),
        ensures
            final(self).wf(),
            final(self).same_setup(*old(self)),
            final(self)@ == parted(old(self)@, *id),
    {
        let ghost me = self@;
        proof {
            self.peers_are_distinct();
            cut_keeps_same(me.peers, me.data.peers, *id);
            cut_keeps_spent(me.data.peers, me.spent, *id);
        }
        unfile_peer(&mut self.peers, id);
        self.dataplane.remove_peer(id);
    }

    fn set_peers(&mut self, list: &Vec<PeerInfo>, now: u64)
        requires
            old(self).wf(),
        ensures
            final(self).wf(),
            final(self).same_setup(*old(self)),
            final(self)@ == peers_set(old(self)@, old(self).node_id, views(list@), now),
    {
        let ghost start = self@;
        let ghost all = views(list@);
        let n: usize = list.len();
        assert(all.subrange(0, 0) =~= Seq::<PeerInfoView>::empty());
        for i in 0..n
            invariant
                self.wf(),
                self.same_setup(*old(self)),
                n == list@.len(),
                all == views(list@),
                self@ == met_all(start, old(self).node_id, all.subrange(0, i as int), now),
        {
            assert(all.subrange(0, i + 1).drop_last() =~= all.subrange(0, i as int));
            assert(all.subrange(0, i + 1).last() == list@[i as int]@);
            self.meet(&list[i], now);
        }
        assert(all.subrange(0, n as int) =~= all);
        let ghost known = self@;
        let ids = self.not_on(list);
        let m: usize = ids.len();
        assert(ids@.subrange(0, 0) =~= Seq::<NodeId>::empty());
        for i in 0..m
            invariant
                self.wf(),
                self.same_setup(*old(self)),
                m == ids@.len(),
                self@ == parted_all(known, ids@.subrange(0, i as int)),
        {
            assert(ids@.subrange(0, i + 1).drop_last() =~= ids@.subrange(0, i as int));
            assert(ids@.subrange(0, i + 1).last() == ids@[i as int]);
            let id = ids[i];
            self.part(&id);
        }
        assert(ids@.subrange(0, m as int) =~= ids@);
    }

    fn not_on(&self, list: &Vec<PeerInfo>) -> (r: Vec<NodeId>)
        ensures
            r@ == unlisted(self@.peers, views(list@), self.node_id),
    {
        let mut r: Vec<NodeId> = Vec::new();
        let n: usize = self.peers.len();
        let ghost all = self@.peers;
        assert(all.subrange(0, 0) =~= Seq::<Entry<NodeId, PeerStateView>>::empty());
        for i in 0..n
            invariant
                n == self.peers.entries().len(),
                all == self@.peers,
                r@ == unlisted(all.subrange(0, i as int), views(list@), self.node_id),
        {
            let id = self.peers.nth(i).key;
            assert(all.subrange(0, i + 1).drop_last() =~= all.subrange(0, i as int));
            assert(all.subrange(0, i + 1).last() == all[i as int]);
            if !self.is_listed(list, &id) {
                r.push(id);
            }
        }
        assert(all.subrange(0, n as int) =~= all);
        r
    }

    fn is_listed(&self, list: &Vec<PeerInfo>, id: &NodeId) -> (r: bool)
        ensures
            r == on_list(views(list@), self.node_id, *id),
    {
        if *id == self.node_id {
            return false;
        }
        let n: usize = list.len();
        for i in 0..n
            invariant
                n == list@.len(),
                *id != self.node_id,
                forall|k: int| 0 <= k < i ==> (#[trigger] views(list@)[k]).node_id != *id,
        {
            if list[i].node_id == *id {
                assert(views(list@)[i as int].node_id == *id);
                return true;
            }
        }
        false
    }

    fn join_rejected(&mut self, reason: String) -> (r: Vec<Answer>)
        requires
            old(self).wf(),
        ensures
            final(self).wf(),
            final(self).same_setup(*old(self)),
            final(self)@ == satisfied(
                troubled(EdgeView { invite: None, ..old(self)@ }, reason@),
                Waiting::Join,
            ),
            views(r@) == answers(old(self)@, Waiting::Join, ReplyView::Failed(reason@)),
    {
        self.active_invite = None;
        self.runtime.last_error = Some(reason.clone());
        self.answer(Waiting::Join, Reply::Failed(reason))
    }

    fn error_told(&mut self, message: String) -> (r: Vec<Answer>)
        requires
            old(self).wf(),
        ensures
            final(self).wf(),
            final(self).same_setup(*old(self)),
            final(self)@ == satisfied(
                satisfied(troubled(old(self)@, message@), Waiting::Create),
                Waiting::Join,
            ),
            views(r@) == answers(old(self)@, Waiting::Create, ReplyView::Failed(message@))
                + answers(old(self)@, Waiting::Join, ReplyView::Failed(message@)),
    {
        self.trouble(message.clone());
        let due = self.answer(Waiting::Create, Reply::Failed(message.clone()));
        let more = self.answer(Waiting::Join, Reply::Failed(message));
        both(due, more)
    }

    pub(crate) fn trouble(&mut self, error: String)
        requires
            old(self).wf(),
        ensures
            final(self).wf(),
            final(self).same_setup(*old(self)),
            final(self)@ == troubled(old(self)@, error@),
    {
        self.runtime.last_error = Some(error);
    }

    /// Takes a control frame in. Where something outside has to be done first,
    /// the frame is handed back.
    pub fn control_step(&mut self, frame: ControlFrame, now: u64) -> (step: ControlStep)
        requires
            old(self).wf(),
        ensures
            final(self).wf(),
            final(self).same_setup(*old(self)),
            control_handled(*old(self), final(self)@, frame@, now, step),
    {
        match frame {
            ControlFrame::RoomCreated { room_id, assigned_ip, virtual_cidr, invite_code } =>
                ControlStep::EnterCreated { room_id, assigned_ip, virtual_cidr, invite_code },
            ControlFrame::JoinAccept { room_id, assigned_ip, virtual_cidr, room_name } =>
                ControlStep::EnterJoined { room_id, assigned_ip, virtual_cidr, room_name },
            ControlFrame::JoinReject { reason } => ControlStep::Done(self.join_rejected(reason)),
            ControlFrame::PeerList { peers } => {
                self.set_peers(&peers, now);
                ControlStep::Done(Vec::new())
            },
            ControlFrame::PeerUpdate { peer, action } => {
                match action {
                    PeerAction::Add | PeerAction::Update => {
                        self.meet(&peer, now);
                    },
                    PeerAction::Remove => {
                        self.part(&peer.node_id);
                    },
                }
                ControlStep::Done(Vec::new())
            },
            ControlFrame::PunchRequest { target, candidates } => ControlStep::Punch {
                target,
                candidates,
            },
            ControlFrame::Handshake { from, payload } => ControlStep::Shake { from, payload },
            ControlFrame::Error { message, .. } => ControlStep::Done(self.error_told(message)),
            ControlFrame::RoomsList { rooms } => ControlStep::Done(
                self.answer(Waiting::Rooms, Reply::Rooms(rooms)),
            ),
            _ => ControlStep::Done(Vec::new()),
        }
    }

    /// Takes in that a room could not be entered.
    pub fn activation_failed(&mut self, to: Waiting, error: &str) -> (r: Vec<Answer>)
        requires
            old(self).wf(),
        ensures
            final(self).wf(),
            final(self).same_setup(*old(self)),
            final(self)@ == satisfied(troubled(old(self)@, error@), to),
            views(r@) == answers(
                old(self)@,
                to,
                ReplyView::Failed(
                    (if to == Waiting::Create {
                        "failed to activate created room: "@
                    } else {
                        "failed to activate joined room: "@
                    }) + error@,
                ),
            ),
    {
        self.trouble(error.to_string());
        let reason = match to {
            Waiting::Create => "failed to activate created room: ".to_string().concat(error),
            _ => "failed to activate joined room: ".to_string().concat(error),
        };
        self.answer(to, Reply::Failed(reason))
    }

    /// Takes in that the room that was created was entered.
    pub fn created_room_entered(
        &mut self,
        room_id: RoomId,
        assigned_ip: VirtualIp,
        virtual_cidr: String,
        invite_code: &str,
    ) -> (r: (HistoryNote, Vec<Answer>))
        requires
            old(self).wf(),
        ensures
            final(self).wf(),
            final(self).same_setup(*old(self)),
            created_entered(
                old(self)@,
                final(self)@,
                room_id,
                assigned_ip,
                virtual_cidr@,
                invite_code@,
                r.0,
                views(r.1@),
            ),
    {
        let code = normalize_invite_code(invite_code, self.supernode_addr);
        self.active_invite = Some(code.clone());
        let name = match self.pending_room_name.take() {
            Some(n) => n,
            None => "Room-".to_string().concat(room_id.to_text().as_str()),
        };
        let note = HistoryNote { room_id: room_id.to_text(), name, invite_code: code.clone() };
        let due = self.answer(
            Waiting::Create,
            Reply::Created { room_id, assigned_ip, virtual_cidr, invite_code: code },
        );
        (note, due)
    }

    /// Takes in that the room that was joined was entered.
    pub fn joined_room_entered(
        &mut self,
        room_id: RoomId,
        assigned_ip: VirtualIp,
        virtual_cidr: String,
        room_name: Option<String>,
    ) -> (r: (Option<HistoryNote>, Vec<Answer>))
        requires
            old(self).wf(),
        ensures
            final(self).wf(),
            final(self).same_setup(*old(self)),
            joined_entered(
                old(self)@,
                final(self)@,
                room_id,
                assigned_ip,
                virtual_cidr@,
                opt_text(room_name),
                r.0,
                views(r.1@),
            ),
    {
        let name = match room_name {
            Some(n) => n,
            None => "Room-".to_string().concat(room_id.to_text().as_str()),
        };
        let note: Option<HistoryNote> = match &self.active_invite {
            Some(code) => Some(
                HistoryNote { room_id: room_id.to_text(), name, invite_code: code.clone() },
            ),
            None => None,
        };
        let due = self.answer(Waiting::Join, Reply::Joined { room_id, assigned_ip, virtual_cidr });
        (note, due)
    }
}

fn both(due: Vec<Answer>, rest: Vec<Answer>) -> (r: Vec<Answer>)
    ensures
        views(r@) == views(due@) + views(rest@),
{
    let mut r = due;
    let mut more = rest;
    r.append(&mut more);
    assert(views(r@) =~= views(due@) + views(rest@));
    r
}

/// Files what is said of a peer.
fn file_peer(peers: &mut Table<NodeId, PeerState>, peer: &PeerInfo)
    requires
        old(peers).wf(),
        filed(old(peers).entries()),
    ensures
        final(peers).wf(),
        filed(final(peers).entries()),
        viewed(final(peers).entries()) == put(
            viewed(old(peers).entries()),
            peer.node_id,
            match lookup(viewed(old(peers).entries()), peer.node_id) {
                Some(p) => PeerStateView { info: peer@, ..p },
                None => fresh_peer(peer@),
            },
        ),
{
    let id = peer.node_id;
    let ghost before = peers.entries();
    proof {
        peers.keys_distinct();
        viewed_lookup(before, id);
    }
    match peers.find(&id) {
        Some(i) => {
            {
                let p = peers.value_mut(i);
                p.info = copy_peer(peer);
            }
            proof {
                let v = peers.entries()[i as int].value;
                update_is_put(before, i as int, v);
                viewed_put(before, id, v);
                assert(v@ =~= (PeerStateView { info: peer@, ..before[i as int].value@ }));
                assert(v@.info.node_id == peer@.node_id);
            }
        },
        None => {
            let p = build_peer_state(copy_peer(peer));
            proof {
                viewed_put(before, id, p);
                assert(p@.info.node_id == peer@.node_id);
            }
            peers.insert(id, p);
        },
    }
}

fn unfile_peer(peers: &mut Table<NodeId, PeerState>, id: &NodeId)
    requires
        old(peers).wf(),
        filed(old(peers).entries()),
    ensures
        final(peers).wf(),
        filed(final(peers).entries()),
        viewed(final(peers).entries()) == cut(viewed(old(peers).entries()), *id),
{
    let ghost before = peers.entries();
    proof {
        peers.keys_distinct();
        viewed_cut(before, *id);
    }
    let _ = peers.remove(id);
    proof {
        let after = peers.entries();
        assert forall|i: int| 0 <= i < after.len() implies well_filed(#[trigger] after[i]) by {
            if has_key(before, *id) {
                let p = at(before, *id);
                assert(before[p].key == *id);
                if i == p {
                    assert(after[i] == before[before.len() - 1]);
                } else {
                    assert(after[i] == before[i]);
                }
            } else {
                assert(after[i] == before[i]);
            }
        }
    }
}

pub(crate) proof fn put_keeps_same(
    peers: Seq<Entry<NodeId, PeerStateView>>,
    data: Seq<Entry<NodeId, DataPeerView>>,
    id: NodeId,
    p: PeerStateView,
    d: DataPeerView,
)
    requires
        distinct(peers),
        distinct(data),
        same_peers(peers, data),
    ensures
        same_peers(put(peers, id, p), put(data, id, d)),
{
    put_is_insert(peers, id, p);
    put_is_insert(data, id, d);
    assert forall|o: NodeId| #[trigger] has_key(put(peers, id, p), o) <==> has_key(
        put(data, id, d),
        o,
    ) by {
        if o != id {
            assert(lookup(put(peers, id, p), o) == lookup(peers, o));
            assert(lookup(put(data, id, d), o) == lookup(data, o));
            assert(has_key(peers, o) <==> has_key(data, o));
        }
    }
}

proof fn cut_keeps_same(
    peers: Seq<Entry<NodeId, PeerStateView>>,
    data: Seq<Entry<NodeId, DataPeerView>>,
    id: NodeId,
)
    requires
        distinct(peers),
        distinct(data),
        same_peers(peers, data),
    ensures
        same_peers(cut(peers, id), cut(data, id)),
{
    cut_is_remove(peers, id);
    cut_is_remove(data, id);
    assert forall|o: NodeId| #[trigger] has_key(cut(peers, id), o) <==> has_key(
        cut(data, id),
        o,
    ) by {
        if o != id {
            assert(lookup(cut(peers, id), o) == lookup(peers, o));
            assert(lookup(cut(data, id), o) == lookup(data, o));
            assert(has_key(peers, o) <==> has_key(data, o));
        }
    }
}

proof fn met_all_keys(v: EdgeView, me: NodeId, list: Seq<PeerInfoView>, now: u64, id: NodeId)
    requires
        distinct(v.peers),
    ensures
        distinct(met_all(v, me, list, now).peers),
        has_key(met_all(v, me, list, now).peers, id) <==> has_key(v.peers, id) || on_list(
            list,
            me,
            id,
        ),
    decreases list.len(),
{
    if list.len() > 0 {
        let short = list.drop_last();
        let before = met_all(v, me, short, now);
        let info = list.last();
        met_all_keys(v, me, short, now, id);
        if info.node_id != me {
            let p = match lookup(before.peers, info.node_id) {
                Some(p) => PeerStateView { info, ..p },
                None => fresh_peer(info),
            };
            put_is_insert(before.peers, info.node_id, p);
            if id != info.node_id {
                assert(lookup(put(before.peers, info.node_id, p), id) == lookup(before.peers, id));
            }
        }
        if on_list(list, me, id) {
            let i = choose|i: int| 0 <= i < list.len() && (#[trigger] list[i]).node_id == id;
            if i < short.len() {
                assert(short[i].node_id == id);
            }
        }
        if on_list(short, me, id) {
            let i = choose|i: int| 0 <= i < short.len() && (#[trigger] short[i]).node_id == id;
            assert(list[i].node_id == id);
        }
    }
}

proof fn parted_all_keys(v: EdgeView, ids: Seq<NodeId>, id: NodeId)
    requires
        distinct(v.peers),
    ensures
        distinct(parted_all(v, ids).peers),
        has_key(parted_all(v, ids).peers, id) <==> has_key(v.peers, id) && !ids.contains(id),
    decreases ids.len(),
{
    if ids.len() > 0 {
        let short = ids.drop_last();
        let before = parted_all(v, short);
        parted_all_keys(v, short, id);
        cut_is_remove(before.peers, ids.last());
        if id != ids.last() {
            assert(lookup(cut(before.peers, ids.last()), id) == lookup(before.peers, id));
        }
        if short.contains(id) {
            assert(ids[short.index_of(id)] == id);
        }
        if ids.contains(id) && id != ids.last() {
            assert(short[ids.index_of(id)] == id);
        }
        if id == ids.last() {
            assert(ids[ids.len() - 1] == id);
        }
    }
}

proof fn unlisted_keys(
    peers: Seq<Entry<NodeId, PeerStateView>>,
    list: Seq<PeerInfoView>,
    me: NodeId,
    id: NodeId,
)
    ensures
        unlisted(peers, list, me).contains(id) <==> has_key(peers, id) && !on_list(list, me, id),
    decreases peers.len(),
{
    if peers.len() > 0 {
        let short = peers.drop_last();
        let before = unlisted(short, list, me);
        let all = unlisted(peers, list, me);
        unlisted_keys(short, list, me, id);
        if has_key(peers, id) {
            let i = at(peers, id);
            assert(peers[i].key == id);
            if i < short.len() {
                assert(short[i].key == id);
            }
        }
        if has_key(short, id) {
            assert(peers[at(short, id)].key == id);
        }
        assert(peers[peers.len() - 1] == peers.last());
        if before.contains(id) {
            assert(all[before.index_of(id)] == id);
        }
        if all.contains(id) {
            let i = all.index_of(id);
            if i < before.len() {
                assert(before[i] == id);
            }
        }
        if peers.last().key == id && !on_list(list, me, id) {
            assert(all[all.len() - 1] == id);
        }
    }
}

/// A list of peers sets the peers: those that are known then are those of the
/// list, without the node itself.
pub proof fn peers_are_those_listed(
    v: EdgeView,
    me: NodeId,
    list: Seq<PeerInfoView>,
    now: u64,
    id: NodeId,
)
    requires
        distinct(v.peers),
    ensures
        has_key(peers_set(v, me, list, now).peers, id) <==> on_list(list, me, id),
{
    let known = met_all(v, me, list, now);
    met_all_keys(v, me, list, now, id);
    unlisted_keys(known.peers, list, me, id);
    parted_all_keys(known, unlisted(known.peers, list, me), id);
}

/// A peer that is new is reached over the supernode, without a key, and its frames are
/// numbered from one on; of a peer that is known only what is told of it changes. No
/// other peer is touched, and nobody is a peer of itself.
pub proof fn new_peers_are_reached_over_the_supernode(
    v: EdgeView,
    me: NodeId,
    info: PeerInfoView,
    now: u64,
    other: NodeId,
)
    requires
        distinct(v.peers),
        distinct(v.data.peers),
        other != info.node_id,
    ensures
        ({
            let w = met(v, me, info, now);
            let id = info.node_id;
            let p = lookup(w.peers, id);
            let d = lookup(w.data.peers, id);
            &&& id == me ==> w == v
            &&& id != me ==> p is Some && d is Some && p->0.info == info && d->0.info == info
            &&& id != me && !has_key(v.peers, id) ==> !p->0.keyed && p->0.direct_addr is None
                && p->0.candidates.len() == 0 && p->0.session is None && p->0.pending_session_key
                is None
            &&& id != me && !has_key(v.data.peers, id) ==> d->0.cipher is None && d->0.next_nonce
                == 1 && d->0.paths.len() == 1 && d->0.active == 0 && d->0.paths[0].addr
                == v.supernode && d->0.paths[0].is_relay && d->0.paths[0].last_success == now
            &&& id != me && has_key(v.peers, id) ==> p->0.keyed == lookup(v.peers, id)->0.keyed
                && p->0.candidates == lookup(v.peers, id)->0.candidates && p->0.session == lookup(
                v.peers,
                id,
            )->0.session
            &&& id != me && has_key(v.data.peers, id) ==> d->0.cipher == lookup(
                v.data.peers,
                id,
            )->0.cipher && d->0.paths == lookup(v.data.peers, id)->0.paths && d->0.next_nonce
                == lookup(v.data.peers, id)->0.next_nonce && d->0.active == lookup(
                v.data.peers,
                id,
            )->0.active
            &&& lookup(w.peers, other) == lookup(v.peers, other)
            &&& lookup(w.data.peers, other) == lookup(v.data.peers, other)
            &&& w.room == v.room && w.supernode == v.supernode && w.runtime == v.runtime
            &&& w.data.macs == v.data.macs && w.data.metrics == v.data.metrics
        }),
{
    let id = info.node_id;
    let p = match lookup(v.peers, id) {
        Some(p) => PeerStateView { info, ..p },
        None => fresh_peer(info),
    };
    let d = match lookup(v.data.peers, id) {
        Some(p) => DataPeerView { info, ..p },
        None => relayed_peer(info, v.supernode, now),
    };
    put_is_insert(v.peers, id, p);
    put_is_insert(v.data.peers, id, d);
}

/// A peer that went is none any longer, and no station is behind it; the others stay.
pub proof fn a_peer_that_went_is_none(v: EdgeView, id: NodeId, other: NodeId)
    requires
        distinct(v.peers),
        distinct(v.data.peers),
        other != id,
    ensures
        ({
            let w = parted(v, id);
            &&& !has_key(w.peers, id)
            &&& !has_key(w.data.peers, id)
            &&& lookup(w.peers, other) == lookup(v.peers, other)
            &&& lookup(w.data.peers, other) == lookup(v.data.peers, other)
            &&& forall|i: int|
                0 <= i < w.data.macs.len() ==> (#[trigger] w.data.macs[i]).value.node_id != id
            &&& w.room == v.room && w.supernode == v.supernode && w.data.metrics == v.data.metrics
        }),
{
    cut_is_remove(v.peers, id);
    cut_is_remove(v.data.peers, id);
    let w = parted(v, id);
    assert(lookup(cut(v.peers, id), other) == lookup(v.peers, other));
    assert(lookup(cut(v.data.peers, id), other) == lookup(v.data.peers, other));
    assert forall|i: int| 0 <= i < w.data.macs.len() implies (
    #[trigger] w.data.macs[i]).value.node_id != id by {
        let e = w.data.macs[i];
        crate::ethernet::only_its_addresses_go_with_a_peer(v.data.macs, id, e);
        assert(w.data.macs.contains(e));
    }
}

/// Whoever waits is answered once, and does not wait any longer then; whoever does not
/// wait is not answered.
pub proof fn who_waits_is_answered_once(v: EdgeView, to: Waiting, reply: ReplyView, again: ReplyView)
    ensures
        to == Waiting::Create && v.pending_create || to == Waiting::Join && v.pending_join || to
            == Waiting::Rooms && v.pending_rooms ==> answers(v, to, reply).len() == 1 && answers(
            v,
            to,
            reply,
        )[0].to == to && answers(v, to, reply)[0].reply == reply,
        to == Waiting::Create && !v.pending_create || to == Waiting::Join && !v.pending_join || to
            == Waiting::Rooms && !v.pending_rooms ==> answers(v, to, reply).len() == 0,
        answers(satisfied(v, to), to, again).len() == 0,
        to != Waiting::Create ==> satisfied(v, to).pending_create == v.pending_create,
        to != Waiting::Join ==> satisfied(v, to).pending_join == v.pending_join,
        to != Waiting::Rooms ==> satisfied(v, to).pending_rooms == v.pending_rooms,
        satisfied(v, to).peers == v.peers && satisfied(v, to).room == v.room,
{
}

/// A rejection ends the wait to be let in, with its reason; an error ends this wait and
/// that for a new room; a list of rooms ends the wait for it.
pub proof fn refusals_end_the_wait(
    before: Edge,
    after: EdgeView,
    frame: FrameView,
    now: u64,
    step: ControlStep,
)
    requires
        control_handled(before, after, frame, now, step),
    ensures
        frame is JoinReject ==> {
            &&& step is Done
            &&& !after.pending_join
            &&& after.pending_create == before@.pending_create
            &&& after.invite is None
            &&& after.runtime.last_error == Some(frame->reason)
            &&& step->Done_0@.len() == (if before@.pending_join {
                1int
            } else {
                0
            })
            &&& before@.pending_join ==> views(step->Done_0@)[0] == (AnswerView {
                to: Waiting::Join,
                reply: ReplyView::Failed(frame->reason),
            })
        },
        frame is Error ==> {
            &&& step is Done
            &&& !after.pending_join
            &&& !after.pending_create
            &&& after.invite == before@.invite
            &&& after.runtime.last_error == Some(frame->message)
            &&& before@.pending_create ==> step->Done_0@.len() > 0 && views(step->Done_0@)[0] == (
            AnswerView { to: Waiting::Create, reply: ReplyView::Failed(frame->message) })
            &&& before@.pending_join ==> step->Done_0@.len() > 0 && views(
                step->Done_0@,
            )[step->Done_0@.len() - 1] == (AnswerView {
                to: Waiting::Join,
                reply: ReplyView::Failed(frame->message),
            })
            &&& !before@.pending_join && !before@.pending_create ==> step->Done_0@.len() == 0
        },
        frame is RoomsList ==> {
            &&& step is Done
            &&& !after.pending_rooms
            &&& after.pending_join == before@.pending_join
            &&& before@.pending_rooms ==> step->Done_0@.len() == 1 && views(step->Done_0@)[0] == (
            AnswerView { to: Waiting::Rooms, reply: ReplyView::Rooms(frame->rooms) })
            &&& !before@.pending_rooms ==> step->Done_0@.len() == 0
        },
        frame is JoinReject || frame is Error || frame is RoomsList ==> after.peers == before@.peers
            && after.room == before@.room && after.data == before@.data,
{
    assert(step is Done ==> views(step->Done_0@).len() == step->Done_0@.len());
}

/// A room is entered, a peer is reached for and a handshake goes on as the supernode
/// says; by themselves these frames change nothing. Who came and who went is taken
/// note of.
pub proof fn the_supernode_is_followed(
    before: Edge,
    after: EdgeView,
    frame: FrameView,
    now: u64,
    step: ControlStep,
)
    requires
        control_handled(before, after, frame, now, step),
        distinct(before@.peers),
        distinct(before@.data.peers),
    ensures
        frame is RoomCreated ==> step is EnterCreated && after == before@
            && step->EnterCreated_assigned_ip == frame->RoomCreated_assigned_ip
            && step->invite_code@ == frame->invite_code,
        frame is JoinAccept ==> step is EnterJoined && after == before@
            && step->EnterJoined_assigned_ip == frame->JoinAccept_assigned_ip
            && step->EnterJoined_room_id == frame->JoinAccept_room_id,
        frame is PunchRequest ==> step is Punch && after == before@ && step->target
            == frame->PunchRequest_target && step->candidates@ == frame->PunchRequest_candidates,
        frame is Handshake ==> step is Shake && after == before@ && step->payload@
            == frame->payload,
        frame is Heartbeat || frame is RegisterOk ==> step is Done && after == before@
            && step->Done_0@.len() == 0,
        frame is PeerUpdate && frame->action == PeerAction::Remove ==> !has_key(
            after.peers,
            frame->PeerUpdate_peer.node_id,
        ) && !has_key(after.data.peers, frame->PeerUpdate_peer.node_id),
        frame is PeerUpdate && frame->action != PeerAction::Remove
            && frame->PeerUpdate_peer.node_id != before.node_id ==> has_key(
            after.peers,
            frame->PeerUpdate_peer.node_id,
        ) && lookup(after.peers, frame->PeerUpdate_peer.node_id)->0.info == frame->PeerUpdate_peer
            && has_key(after.data.peers, frame->PeerUpdate_peer.node_id),
{
    if frame is PeerUpdate {
        let id = frame->PeerUpdate_peer.node_id;
        cut_is_remove(before@.peers, id);
        cut_is_remove(before@.data.peers, id);
        let info = frame->PeerUpdate_peer;
        let p = match lookup(before@.peers, id) {
            Some(p) => PeerStateView { info, ..p },
            None => fresh_peer(info),
        };
        let d = match lookup(before@.data.peers, id) {
            Some(p) => DataPeerView { info, ..p },
            None => relayed_peer(info, before@.supernode, now),
        };
        put_is_insert(before@.peers, id, p);
        put_is_insert(before@.data.peers, id, d);
    }
}

/// What is known after something came from an address.
pub open spec fn activity_noted(v: EdgeView, addr: SocketAddr, now: u64) -> EdgeView {
    if addr == v.supernode {
        EdgeView {
            last_activity: now,
            runtime: RuntimeView {
                supernode_reachable: true,
                last_supernode_activity_at: Some(now),
                ..v.runtime
            },
            ..v
        }
    } else {
        v
    }
}

/// What comes of entering a room that was created.
pub open spec fn created_entered(
    v: EdgeView,
    after: EdgeView,
    room_id: RoomId,
    assigned_ip: VirtualIp,
    virtual_cidr: Seq<char>,
    invite_code: Seq<char>,
    note: HistoryNote,
    due: Seq<AnswerView>,
) -> bool {
    let code = note.invite_code@;
    &&& exists|read: Option<InviteView>, named: Option<SocketAddr>| #[trigger]
        invite_names(invite_code, read, named) && code == normal_invite(
            invite_code,
            read,
            named,
            v.supernode,
        )
    &&& after == satisfied(
        EdgeView { invite: Some(code), pending_room_name: None, ..v },
        Waiting::Create,
    )
    &&& note.room_id@ == hex_text(room_id.0@)
    &&& note.name@ == match v.pending_room_name {
        Some(name) => name,
        None => "Room-"@ + hex_text(room_id.0@),
    }
    &&& due == answers(
        v,
        Waiting::Create,
        ReplyView::Created { room_id, assigned_ip, virtual_cidr, invite_code: code },
    )
}

/// What comes of entering a room that was joined.
pub open spec fn joined_entered(
    v: EdgeView,
    after: EdgeView,
    room_id: RoomId,
    assigned_ip: VirtualIp,
    virtual_cidr: Seq<char>,
    room_name: Option<Seq<char>>,
    note: Option<HistoryNote>,
    due: Seq<AnswerView>,
) -> bool {
    &&& after == satisfied(v, Waiting::Join)
    &&& note is Some <==> v.invite is Some
    &&& note is Some ==> {
        &&& note->0.room_id@ == hex_text(room_id.0@)
        &&& note->0.name@ == match room_name {
            Some(name) => name,
            None => "Room-"@ + hex_text(room_id.0@),
        }
        &&& note->0.invite_code@ == v.invite->0
    }
    &&& due == answers(
        v,
        Waiting::Join,
        ReplyView::Joined { room_id, assigned_ip, virtual_cidr },
    )
}

/// Only what comes from the supernode is a sign of its life.
pub proof fn the_supernode_gives_its_own_signs(v: EdgeView, addr: SocketAddr, now: u64)
    ensures
        addr != v.supernode ==> activity_noted(v, addr, now) == v,
        addr == v.supernode ==> {
            let w = activity_noted(v, addr, now);
            &&& w.last_activity == now
            &&& w.runtime.supernode_reachable
            &&& w.runtime.last_supernode_activity_at == Some(now)
            &&& w.runtime.last_error == v.runtime.last_error
            &&& w.room == v.room && w.peers == v.peers && w.supernode == v.supernode
        },
{
}

/// Whoever waited for a new room is told of it, with an invitation that can be handed on;
/// the room goes into the history under the name that was asked for, and is waited for no
/// longer.
pub proof fn a_new_room_is_told(
    v: EdgeView,
    after: EdgeView,
    room_id: RoomId,
    assigned_ip: VirtualIp,
    virtual_cidr: Seq<char>,
    invite_code: Seq<char>,
    note: HistoryNote,
    due: Seq<AnswerView>,
)
    requires
        created_entered(
            v,
            after,
            room_id,
            assigned_ip,
            virtual_cidr,
            invite_code,
            note,
            due,
        ),
    ensures
        !after.pending_create,
        after.pending_room_name is None,
        after.invite == Some(note.invite_code@),
        after.room == v.room && after.peers == v.peers && after.pending_join == v.pending_join,
        v.pending_room_name is Some ==> note.name@ == v.pending_room_name->0,
        v.pending_room_name is None ==> note.name@ == "Room-"@ + note.room_id@,
        crate::text::hex_bytes(note.room_id@) == room_id.0@,
        v.pending_create ==> due.len() == 1 && due[0].to == Waiting::Create && due[0].reply == (
        ReplyView::Created { room_id, assigned_ip, virtual_cidr, invite_code: note.invite_code@ }),
        !v.pending_create ==> due.len() == 0,
{
    crate::text::hex_text_round_trip(room_id.0@);
}

/// Whoever waited to be let into a room is told so; the room goes into the history with the
/// invitation that led to it.
pub proof fn being_let_in_is_told(
    v: EdgeView,
    after: EdgeView,
    room_id: RoomId,
    assigned_ip: VirtualIp,
    virtual_cidr: Seq<char>,
    room_name: Option<Seq<char>>,
    note: Option<HistoryNote>,
    due: Seq<AnswerView>,
)
    requires
        joined_entered(
            v,
            after,
            room_id,
            assigned_ip,
            virtual_cidr,
            room_name,
            note,
            due,
        ),
    ensures
        !after.pending_join,
        after.invite == v.invite,
        after.pending_create == v.pending_create,
        v.invite is None ==> note is None,
        v.invite is Some ==> note is Some && note->0.invite_code@ == v.invite->0
            && crate::text::hex_bytes(note->0.room_id@) == room_id.0@,
        note is Some && room_name is Some ==> note->0.name@ == room_name->0,
        note is Some && room_name is None ==> note->0.name@ == "Room-"@ + note->0.room_id@,
        v.pending_join ==> due.len() == 1 && due[0].to == Waiting::Join && due[0].reply == (
        ReplyView::Joined { room_id, assigned_ip, virtual_cidr }),
        !v.pending_join ==> due.len() == 0,
{
    crate::text::hex_text_round_trip(room_id.0@);
}

} // verus!
