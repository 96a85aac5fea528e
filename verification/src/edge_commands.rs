//! What the edge does when it is asked to, and how it keeps its connection to a
//! supernode.

use crate::address::addr_reads;
use crate::common::{NodeId, RoomId, VirtualIp};
use crate::crypto::x25519_public;
use crate::edge::{left_behind, registration, room_text, Edge, EdgeView, RuntimeState, RuntimeView};
use crate::edge_control::{
    answers, satisfied, Answer, AnswerView, Reply, ReplyView, Waiting,
};
use crate::endpoints::{
    invite_names, invite_reads, is_next, next_supernode_after, normal_invite, readdressed,
    resolve_supernode_addr, resolved,
};
use crate::history::{name_by_invite, name_for_invite, HistoryItem};
use crate::invite::{b64_text, invite_wire, primary_of, InviteData, InviteView};
use crate::nat_probe::{external_addr, preferred_external_addr};
use crate::net::{addr_text, net_text, SocketAddr};
use crate::proto::{
    views, Candidate, CandidateKind, CandidateSource, ControlFrame, FrameView, OutView, Outgoing,
};
use crate::room::host_ip;
use crate::supernode::{
    invitation, key_of, opened_room, public_text, room_created, to_one, RoomSeed, Supernode,
    SupernodeError,
};
use crate::table::{distinct, has_key, lookup, put, put_is_insert};
use crate::text::{opt_text, same_text, texts};
use vstd::prelude::*;

verus! {

/// Nanoseconds without a sign of life after which a supernode is taken for lost.
pub const SUPERNODE_TIMEOUT: u64 = 25_000_000_000;

/// What comes of a command.
#[derive(Debug)]
pub enum CommandStep {
    /// The command is refused, with a reason.
    Refused(String),
    /// A message is sent, and its answer waited for.
    Sent(Outgoing),
}

/// What is told of a supernode that is lost.
pub open spec fn lost_text() -> Seq<char> {
    "Supernode heartbeat timed out; trying to reconnect"@
}

/// A room that stands for none.
pub open spec fn is_no_room(r: RoomId) -> bool {
    forall|i: int| 0 <= i < 16 ==> #[trigger] r.0@[i] == 0
}

/// How a request for a room is met.
pub open spec fn create_asked(
    v: EdgeView,
    after: EdgeView,
    name: Seq<char>,
    step: CommandStep,
) -> bool {
    if v.room is Some {
        &&& after == v
        &&& step is Refused
        &&& step->Refused_0@ == "already in room "@ + room_text(v.room->0)
            + ", leave it before creating a new room"@
    } else if v.pending_create {
        &&& after == v
        &&& step is Refused
        &&& step->Refused_0@ == "another room creation is already in progress"@
    } else {
        &&& after == (EdgeView { pending_create: true, pending_room_name: Some(name), ..v })
        &&& step is Sent
        &&& step->Sent_0@ == (OutView {
            target: v.supernode,
            frame: FrameView::CreateRoom { name },
            required: true,
        })
    }
}

/// How a request to join a room is met, given what the invitation reads as and
/// what its address reads as.
pub open spec fn join_asked(
    v: EdgeView,
    after: EdgeView,
    invite: Seq<char>,
    read: Option<InviteView>,
    named: Option<SocketAddr>,
    room_name: Option<Seq<char>>,
    step: CommandStep,
) -> bool {
    if v.room is Some {
        &&& after == v
        &&& step is Refused
        &&& step->Refused_0@ == "already in room "@ + room_text(v.room->0)
            + ", leave it before joining another room"@
    } else if v.pending_join {
        &&& after == v
        &&& step is Refused
        &&& step->Refused_0@ == "another join operation is already in progress"@
    } else if read is None {
        after == v && step is Refused && step->Refused_0@ == "invalid invite code"@
    } else if named is None {
        &&& after == v
        &&& step is Refused
        &&& step->Refused_0@ == "invite contains an invalid supernode address"@
    } else {
        &&& after == (EdgeView { pending_join: true, invite: Some(invite), ..v })
        &&& step is Sent
        &&& step->Sent_0.target == resolved(named->0, v.supernode)
        &&& step->Sent_0.required
        &&& asks_to_join(step->Sent_0.frame@, read->0, room_name)
    }
}

/// A frame asks to be let into the room of an invitation.
pub open spec fn asks_to_join(
    frame: FrameView,
    invite: InviteView,
    room_name: Option<Seq<char>>,
) -> bool {
    match frame {
        FrameView::JoinRoom { room_id, token, room_name: name } => room_id.0@ == invite.room_id
            && token == invite.token && name == room_name,
        _ => false,
    }
}

/// The first candidate that a node may be reached at from outside: one of a port
/// mapping, or one that a server saw.
pub open spec fn outside_addr(candidates: Seq<Candidate>) -> Option<SocketAddr>
    decreases candidates.len(),
{
    if candidates.len() == 0 {
        None
    } else if candidates[0].source == CandidateSource::PortMapping || candidates[0].kind
        == CandidateKind::ServerReflexive {
        Some(candidates[0].addr)
    } else {
        outside_addr(candidates.subrange(1, candidates.len() as int))
    }
}

/// What is told of the supernode after a look at the clock.
pub open spec fn watched(r: RuntimeView, reachable: bool, room_active: bool) -> RuntimeView {
    RuntimeView {
        supernode_reachable: reachable,
        last_error: if !reachable && r.last_error is None && room_active {
            Some(lost_text())
        } else if reachable && r.last_error == Some(lost_text()) {
            None
        } else {
            r.last_error
        },
        ..r
    }
}

/// The supernode showed a sign of life of late.
pub open spec fn alive(v: EdgeView, now: u64) -> bool {
    now - v.last_activity <= SUPERNODE_TIMEOUT
}

/// An edge after a look at the clock: where the supernode of its room is lost, it
/// turns to the next one.
pub open spec fn watch_kept(v: EdgeView, after: EdgeView, supernodes: Seq<SocketAddr>, now: u64) -> bool {
    let reachable = alive(v, now);
    let told = watched(v.runtime, reachable, v.room is Some);
    if v.room is None || reachable {
        after == (EdgeView { runtime: told, reconnecting: false, ..v })
    } else {
        &&& is_next(v.supernode, supernodes, after.supernode)
        &&& after == (EdgeView {
            supernode: after.supernode,
            reconnecting: true,
            runtime: if after.supernode != v.supernode {
                RuntimeView {
                    supernode_addr: addr_text(after.supernode),
                    last_error: Some(
                        "Supernode heartbeat timed out; trying fallback "@ + addr_text(
                            after.supernode,
                        ),
                    ),
                    ..told
                }
            } else {
                told
            },
            ..v
        })
    }
}

/// What is sent after a look at the clock: where the supernode is lost, the node
/// registers anew, and asks to be let into its room again if it has an
/// invitation that reads as one.
pub open spec fn watch_frames(
    before: Edge,
    after: Edge,
    read: Option<InviteView>,
    history: Seq<HistoryItem>,
    networks: Seq<Seq<char>>,
    now: u64,
    out: Seq<OutView>,
) -> bool {
    let v = before@;
    if v.room is None || alive(v, now) {
        out == Seq::<OutView>::empty()
    } else {
        let again = OutView {
            target: after@.supernode,
            frame: registration(after, outside_addr(v.advertised), networks),
            required: false,
        };
        if v.invite is Some && read is Some {
            &&& out.len() == 2
            &&& out[0] == again
            &&& out[1].target == after@.supernode
            &&& !out[1].required
            &&& asks_to_join(out[1].frame, read->0, name_by_invite(history, v.invite->0))
        } else {
            out == seq![again]
        }
    }
}

fn find_outside(candidates: &[Candidate]) -> (r: Option<SocketAddr>)
    ensures
        r == outside_addr(candidates@),
{
    let n: usize = candidates.len();
    assert(candidates@.subrange(0, n as int) =~= candidates@);
    for i in 0..n
        invariant
            n == candidates@.len(),
            outside_addr(candidates@) == outside_addr(candidates@.subrange(i as int, n as int)),
    {
        let ghost rest = candidates@.subrange(i as int, n as int);
        assert(rest[0] == candidates@[i as int]);
        assert(rest.subrange(1, rest.len() as int) =~= candidates@.subrange(i + 1, n as int));
        if candidates[i].source == CandidateSource::PortMapping || candidates[i].kind
            == CandidateKind::ServerReflexive {
            return Some(candidates[i].addr);
        }
    }
    None
}

fn no_room(r: &RoomId) -> (b: bool)
    ensures
        b == is_no_room(*r),
{
    for i in 0..16usize
        invariant
            forall|k: int| 0 <= k < i ==> #[trigger] r.0@[k] == 0,
    {
        if r.0[i] != 0 {
            assert(r.0@[i as int] != 0);
            return false;
        }
    }
    true
}

impl RuntimeState {
    fn watch(&mut self, reachable: bool, room_active: bool)
        ensures
            final(self)@ == watched(old(self)@, reachable, room_active),
    {
        let said = match &self.last_error {
            Some(e) => same_text(
                e.as_str(),
                "Supernode heartbeat timed out; trying to reconnect",
            ),
            None => false,
        };
        self.supernode_reachable = reachable;
        if !reachable && self.last_error.is_none() && room_active {
            self.last_error = Some(
                "Supernode heartbeat timed out; trying to reconnect".to_string(),
            );
        } else if reachable && said {
            self.last_error = None;
        }
    }
}

impl Edge {
    /// Asks for a room of this name.
    pub fn ask_create(&mut self, name: String) -> (step: CommandStep)
        requires
            old(self).wf(),
        ensures
            final(self).wf(),
            final(self).same_setup(*old(self)),
            create_asked(old(self)@, final(self)@, name@, step),
    {
        if let Some(active) = self.room_id {
            return CommandStep::Refused(
                "already in room ".to_string().concat(active.to_text().as_str()).concat(
                    ", leave it before creating a new room",
                ),
            );
        }
        if self.pending_create {
            return CommandStep::Refused(
                "another room creation is already in progress".to_string(),
            );
        }
        self.pending_create = true;
        self.pending_room_name = Some(name.clone());
        CommandStep::Sent(
            Outgoing {
                target: self.supernode_addr,
                frame: ControlFrame::CreateRoom { name },
                required: true,
            },
        )
    }

    /// Takes in that the request for a room could not be sent.
    pub fn create_unsent(&mut self, error: &str) -> (r: Vec<Answer>)
        requires
            old(self).wf(),
        ensures
            final(self).wf(),
            final(self).same_setup(*old(self)),
            final(self)@ == satisfied(
                EdgeView { pending_room_name: None, ..old(self)@ },
                Waiting::Create,
            ),
            views(r@) == answers(
                old(self)@,
                Waiting::Create,
                ReplyView::Failed("failed to send create request: "@ + error@),
            ),
    {
        self.pending_room_name = None;
        self.answer(
            Waiting::Create,
            Reply::Failed("failed to send create request: ".to_string().concat(error)),
        )
    }

    /// Asks to be let into the room of an invitation. `room_name` is what the
    /// room is remembered as.
    pub fn ask_join(&mut self, invite: String, room_name: Option<String>) -> (step: CommandStep)
        requires
            old(self).wf(),
        ensures
            final(self).wf(),
            final(self).same_setup(*old(self)),
            exists|read: Option<InviteView>, named: Option<SocketAddr>| #[trigger]
                invite_names(invite@, read, named) && join_asked(
                    old(self)@,
                    final(self)@,
                    invite@,
                    read,
                    named,
                    opt_text(room_name),
                    step,
                ),
    {
        let data = InviteData::decode(invite.as_str());
        let ghost read = invite_of(data);
        assert(invite_reads(invite@, read));
        let target: Option<SocketAddr> = match &data {
            Some(d) => match resolve_supernode_addr(
                d.primary_supernode_addr(),
                self.supernode_addr,
            ) {
                Ok(a) => Some(a),
                Err(_) => None,
            },
            None => None,
        };
        let ghost named: Option<SocketAddr> = if target is Some {
            Some(
                choose|named: SocketAddr| #[trigger]
                    addr_reads(primary_of(read->0), Some(named)) && target->0 == resolved(
                        named,
                        self.supernode_addr,
                    ),
            )
        } else {
            None
        };
        assert(invite_names(invite@, read, named));
        if let Some(active) = self.room_id {
            return CommandStep::Refused(
                "already in room ".to_string().concat(active.to_text().as_str()).concat(
                    ", leave it before joining another room",
                ),
            );
        }
        if self.pending_join {
            return CommandStep::Refused(
                "another join operation is already in progress".to_string(),
            );
        }
        let data = match data {
            Some(d) => d,
            None => {
                return CommandStep::Refused("invalid invite code".to_string());
            },
        };
        let target = match target {
            Some(a) => a,
            None => {
                return CommandStep::Refused(
                    "invite contains an invalid supernode address".to_string(),
                );
            },
        };
        self.pending_join = true;
        self.active_invite = Some(invite);
        CommandStep::Sent(
            Outgoing {
                target,
                frame: ControlFrame::JoinRoom {
                    room_id: data.room_id,
                    token: data.token,
                    room_name,
                },
                required: true,
            },
        )
    }

    /// Takes in that the request to be let in could not be sent.
    pub fn join_unsent(&mut self, error: &str) -> (r: Vec<Answer>)
        requires
            old(self).wf(),
        ensures
            final(self).wf(),
            final(self).same_setup(*old(self)),
            final(self)@ == satisfied(EdgeView { invite: None, ..old(self)@ }, Waiting::Join),
            views(r@) == answers(
                old(self)@,
                Waiting::Join,
                ReplyView::Failed("failed to send join request: "@ + error@),
            ),
    {
        self.active_invite = None;
        self.answer(
            Waiting::Join,
            Reply::Failed("failed to send join request: ".to_string().concat(error)),
        )
    }

    /// Asks which rooms there are.
    pub fn ask_rooms(&mut self) -> (step: CommandStep)
        requires
            old(self).wf(),
        ensures
            final(self).wf(),
            final(self).same_setup(*old(self)),
            rooms_asked(old(self)@, final(self)@, step),
    {
        if self.pending_rooms {
            return CommandStep::Refused("another rooms query is already in progress".to_string());
        }
        self.pending_rooms = true;
        CommandStep::Sent(
            Outgoing {
                target: self.supernode_addr,
                frame: ControlFrame::QueryRooms,
                required: true,
            },
        )
    }

    /// Takes in that the question for rooms could not be sent.
    pub fn rooms_unsent(&mut self, error: &str) -> (r: Vec<Answer>)
        requires
            old(self).wf(),
        ensures
            final(self).wf(),
            final(self).same_setup(*old(self)),
            final(self)@ == satisfied(old(self)@, Waiting::Rooms),
            views(r@) == answers(
                old(self)@,
                Waiting::Rooms,
                ReplyView::Failed("failed to send query request: "@ + error@),
            ),
    {
        self.answer(
            Waiting::Rooms,
            Reply::Failed("failed to send query request: ".to_string().concat(error)),
        )
    }

    /// Leaves the room, and says so to the supernode, whether there is a room or
    /// not.
    pub fn leave_room(&mut self) -> (o: Outgoing)
        requires
            old(self).wf(),
        ensures
            final(self).wf(),
            final(self).same_setup(*old(self)),
            final(self)@ == left_behind(old(self)@),
            leaving_said(old(self)@, o@),
    {
        let room_id = match self.room_id {
            Some(r) => r,
            None => RoomId([0u8; 16]),
        };
        let o = Outgoing {
            target: self.supernode_addr,
            frame: ControlFrame::LeaveRoom { room_id },
            required: false,
        };
        self.room_left();
        o
    }

    /// Leaves the room before the edge ends, and says so to the supernode if there
    /// is a room.
    pub fn stop(&mut self) -> (o: Option<Outgoing>)
        requires
            old(self).wf(),
        ensures
            final(self).wf(),
            final(self).same_setup(*old(self)),
            final(self)@ == left_behind(old(self)@),
            says_goodbye(old(self)@, o),
    {
        let o: Option<Outgoing> = match self.room_id {
            Some(r) => {
                if no_room(&r) {
                    None
                } else {
                    Some(
                        Outgoing {
                            target: self.supernode_addr,
                            frame: ControlFrame::LeaveRoom { room_id: r },
                            required: false,
                        },
                    )
                }
            },
            None => None,
        };
        self.room_left();
        o
    }

    /// Turns to another supernode: leaves the room, and gives the messages to the
    /// old supernode, if there is a room, and to the new one.
    pub fn switch_supernode(&mut self, addr: SocketAddr, local_networks: Vec<String>) -> (r: (
        Option<Outgoing>,
        Outgoing,
    ))
        requires
            old(self).wf(),
        ensures
            final(self).wf(),
            final(self).same_setup(*old(self)),
            final(self)@ == switched(old(self)@, addr),
            says_goodbye(old(self)@, r.0),
            r.1@ == (OutView {
                target: addr,
                frame: registration(
                    *final(self),
                    external_addr(old(self)@.public_addrs, old(self)@.advertised),
                    texts(local_networks@),
                ),
                required: true,
            }),
    {
        let goodbye = self.stop();
        self.supernode_addr = addr;
        self.runtime.supernode_addr = addr.to_text();
        self.runtime.last_error = None;
        let external = preferred_external_addr(&self.nat, self.advertised.as_slice());
        let o = Outgoing {
            target: addr,
            frame: self.register_frame(external, local_networks),
            required: true,
        };
        (goodbye, o)
    }

    /// Looks at the clock: tells whether the supernode is there, and turns to the
    /// next one if it is lost while there is a room.
    pub fn watch(&mut self, history: &Vec<HistoryItem>, local_networks: Vec<String>, now: u64) -> (out:
        Vec<Outgoing>)
        requires
            old(self).wf(),
        ensures
            final(self).wf(),
            final(self).same_setup(*old(self)),
            watch_kept(old(self)@, final(self)@, old(self).supernodes@, now),
            old(self)@.invite is None ==> watch_frames(
                *old(self),
                *final(self),
                None,
                history@,
                texts(local_networks@),
                now,
                views(out@),
            ),
            old(self)@.invite is Some ==> exists|read: Option<InviteView>| #[trigger]
                invite_reads(old(self)@.invite->0, read) && watch_frames(
                    *old(self),
                    *final(self),
                    read,
                    history@,
                    texts(local_networks@),
                    now,
                    views(out@),
                ),
    {
        let reachable = now <= self.last_activity || now - self.last_activity
            <= SUPERNODE_TIMEOUT;
        let mut out: Vec<Outgoing> = Vec::new();
        assert(views(out@) =~= Seq::<OutView>::empty());
        let ghost start = *self;
        let data: Option<InviteData> = match &self.active_invite {
            Some(code) => InviteData::decode(code.as_str()),
            None => None,
        };
        let ghost read = invite_of(data);
        assert(start@.invite is Some ==> invite_reads(start@.invite->0, read));
        self.tell_reachable(reachable);
        if self.room_id.is_none() || reachable {
            self.reconnecting = false;
            return out;
        }
        let target = next_supernode_after(self.supernode_addr, &self.supernodes);
        self.turn_to(target);
        let external = find_outside(self.advertised.as_slice());
        out.push(
            Outgoing {
                target,
                frame: self.register_frame(external, local_networks),
                required: false,
            },
        );
        let ghost again = OutView {
            target,
            frame: registration(*self, outside_addr(start@.advertised), texts(local_networks@)),
            required: false,
        };
        assert(views(out@) =~= seq![again]);
        if let Some(code) = &self.active_invite {
            if let Some(d) = data {
                let room_name = name_for_invite(history, code.as_str());
                let frame = ControlFrame::JoinRoom {
                    room_id: d.room_id,
                    token: d.token,
                    room_name,
                };
                assert(asks_to_join(
                    frame@,
                    read->0,
                    name_by_invite(history@, start@.invite->0),
                ));
                let ghost fv = frame@;
                out.push(Outgoing { target, frame, required: false });
                assert(views(out@) =~= seq![
                    again,
                    OutView { target, frame: fv, required: false },
                ]);
            }
        }
        out
    }

    fn tell_reachable(&mut self, reachable: bool)
        requires
            old(self).wf(),
        ensures
            final(self).wf(),
            final(self).same_setup(*old(self)),
            final(self)@ == (EdgeView {
                runtime: watched(old(self)@.runtime, reachable, old(self)@.room is Some),
                ..old(self)@
            }),
            final(self).active_invite == old(self).active_invite,
            final(self).supernodes == old(self).supernodes,
    {
        let room_active = self.room_id.is_some();
        self.runtime.watch(reachable, room_active);
    }

    fn turn_to(&mut self, target: SocketAddr)
        requires
            old(self).wf(),
        ensures
            final(self).wf(),
            final(self).same_setup(*old(self)),
            final(self)@ == (EdgeView {
                supernode: target,
                reconnecting: true,
                runtime: if target != old(self)@.supernode {
                    RuntimeView {
                        supernode_addr: addr_text(target),
                        last_error: Some(
                            "Supernode heartbeat timed out; trying fallback "@ + addr_text(target),
                        ),
                        ..old(self)@.runtime
                    }
                } else {
                    old(self)@.runtime
                },
                ..old(self)@
            }),
            final(self).active_invite == old(self).active_invite,
            final(self).supernodes == old(self).supernodes,
    {
        self.reconnecting = true;
        if target != self.supernode_addr {
            self.supernode_addr = target;
            self.runtime.supernode_addr = target.to_text();
            self.runtime.last_error = Some(
                "Supernode heartbeat timed out; trying fallback ".to_string().concat(
                    target.to_text().as_str(),
                ),
            );
        }
    }
}

/// What an invitation says.
pub open spec fn invite_of(d: Option<InviteData>) -> Option<InviteView> {
    match d {
        Some(d) => Some(d@),
        None => None,
    }
}

/// The supernode is told that the node leaves, if there is a room.
pub open spec fn says_goodbye(v: EdgeView, o: Option<Outgoing>) -> bool {
    if v.room is Some && !is_no_room(v.room->0) {
        o is Some && o->0@ == (OutView {
            target: v.supernode,
            frame: FrameView::LeaveRoom { room_id: v.room->0 },
            required: false,
        })
    } else {
        o is None
    }
}

/// An edge that turned to another supernode.
pub open spec fn switched(v: EdgeView, addr: SocketAddr) -> EdgeView {
    let left = left_behind(v);
    EdgeView {
        supernode: addr,
        runtime: RuntimeView { supernode_addr: addr_text(addr), last_error: None, ..left.runtime },
        ..left
    }
}

/// An edge keeps to its room while it looks for another supernode: the watch
/// never ends a room or forgets a peer.
pub proof fn watching_keeps_the_room(
    v: EdgeView,
    after: EdgeView,
    supernodes: Seq<SocketAddr>,
    now: u64,
)
    requires
        watch_kept(v, after, supernodes, now),
    ensures
        after.room == v.room,
        after.peers == v.peers,
        after.data == v.data,
        after.invite == v.invite,
        alive(v, now) ==> after.supernode == v.supernode,
{
}

/// An invitation leads to its room: whoever asks to be let in with the code of a
/// room that was opened, as the supernode gave it out or as the owner's edge
/// hands it on, names that room and brings its token.
pub proof fn invitations_lead_to_their_room(
    before: Supernode,
    after: Supernode,
    owner: NodeId,
    name: Seq<char>,
    addr: SocketAddr,
    seed: RoomSeed,
    local: Option<Seq<char>>,
    r: Result<Vec<Outgoing>, SupernodeError>,
    code: Seq<char>,
    first: Option<InviteView>,
    named: Option<SocketAddr>,
    supernode: SocketAddr,
    handed_on: Seq<char>,
    read: Option<InviteView>,
    frame: FrameView,
    room_name: Option<Seq<char>>,
)
    requires
        distinct(before@.rooms),
        room_created(before, after, owner, name, addr, seed, local, r),
        r is Ok,
        views(r->Ok_0@)[0].frame matches FrameView::RoomCreated { invite_code, .. } && invite_code
            == code,
        invite_names(code, first, named),
        handed_on == code || handed_on == normal_invite(code, first, named, supernode),
        invite_reads(handed_on, read),
        read is Some ==> asks_to_join(frame, read->0, room_name),
    ensures
        read is Some,
        frame matches FrameView::JoinRoom { room_id, token, .. } && room_id == RoomId(seed.room_id)
            && has_key(after@.rooms, room_id) && token == Some(
            lookup(after@.rooms, room_id)->0.join_token,
        ),
{
    let room_id = RoomId(seed.room_id);
    let got = lookup(after.address_pool.allocations.entries@, room_id);
    let ip = choose|ip: VirtualIp| #[trigger]
        ip.0@ == host_ip(got->0, 1) && after@.rooms == put(
            before@.rooms,
            room_id,
            opened_room(before, owner, name, seed, got->0, ip),
        ) && views(r->Ok_0@)[0].frame == (FrameView::RoomCreated {
            room_id,
            assigned_ip: ip,
            virtual_cidr: net_text(got->0),
            invite_code: b64_text(
                invite_wire(
                    invitation(
                        before,
                        public_text(before.config, local->0),
                        opened_room(before, owner, name, seed, got->0, ip),
                        key_of(before@.nodes, owner),
                    ),
                ),
            ),
        });
    let room = opened_room(before, owner, name, seed, got->0, ip);
    let w = invitation(
        before,
        public_text(before.config, local->0),
        room,
        key_of(before@.nodes, owner),
    );
    assert(code == b64_text(invite_wire(w)));
    assert(first == Some(w));
    put_is_insert(before@.rooms, room_id, room);
    if handed_on != code {
        let again = readdressed(w, addr_text(resolved(named->0, supernode)));
        assert(handed_on == b64_text(invite_wire(again)));
    }
    if let FrameView::JoinRoom { room_id: asked, .. } = frame {
        assert(asked.0@ == seed.room_id@);
        assert(asked.0 =~= seed.room_id);
    }
}

/// A new room is asked for unless there is one, or one is being asked for already; the
/// supernode is asked by the name that was given. A refusal changes nothing.
pub proof fn one_room_is_asked_for_at_a_time(
    v: EdgeView,
    after: EdgeView,
    name: Seq<char>,
    step: CommandStep,
)
    requires
        create_asked(v, after, name, step),
    ensures
        step is Refused <==> v.room is Some || v.pending_create,
        step is Refused ==> after == v,
        step is Sent ==> {
            &&& after.pending_create
            &&& after.pending_room_name == Some(name)
            &&& step->Sent_0.target == v.supernode
            &&& step->Sent_0.frame@ == (FrameView::CreateRoom { name })
            &&& after.room == v.room && after.peers == v.peers && after.pending_join
                == v.pending_join
        },
        v.room is None && v.pending_create ==> step->Refused_0@
            == "another room creation is already in progress"@,
{
}

/// Who has an invitation asks the supernode that it names to be let into its room, with
/// its token, unless there is a room already, the wait to be let in is on, or the
/// invitation says nothing.
pub proof fn invitations_are_followed(
    v: EdgeView,
    after: EdgeView,
    invite: Seq<char>,
    read: Option<InviteView>,
    named: Option<SocketAddr>,
    room_name: Option<Seq<char>>,
    step: CommandStep,
)
    requires
        join_asked(v, after, invite, read, named, room_name, step),
    ensures
        step is Sent <==> v.room is None && !v.pending_join && read is Some && named is Some,
        step is Refused ==> after == v,
        step is Sent ==> {
            &&& after.pending_join
            &&& after.invite == Some(invite)
            &&& after.pending_create == v.pending_create && after.room == v.room
            &&& step->Sent_0.frame@ is JoinRoom
            &&& step->Sent_0.frame@->JoinRoom_room_id.0@ == read->0.room_id
            &&& step->Sent_0.frame@->JoinRoom_token == read->0.token
            &&& step->Sent_0.frame@->JoinRoom_room_name == room_name
            &&& !crate::net::unspecified(named->0.ip) ==> step->Sent_0.target == named->0
            &&& crate::net::unspecified(named->0.ip) ==> step->Sent_0.target.ip == v.supernode.ip
        },
        v.room is None && !v.pending_join && read is None ==> step->Refused_0@
            == "invalid invite code"@,
        v.room is None && v.pending_join ==> step->Refused_0@
            == "another join operation is already in progress"@,
        v.room is None && !v.pending_join && read is Some && named is None ==> step->Refused_0@
            == "invite contains an invalid supernode address"@,
{
}

/// The outside address of a node is that of its first way from outside: a port that is
/// mapped, or what a server saw.
pub proof fn the_first_way_from_outside_counts(candidates: Seq<Candidate>, i: int)
    requires
        0 <= i <= candidates.len(),
        forall|j: int|
            0 <= j < i ==> (#[trigger] candidates[j]).source != CandidateSource::PortMapping
                && candidates[j].kind != CandidateKind::ServerReflexive,
        i < candidates.len() ==> candidates[i].source == CandidateSource::PortMapping
            || candidates[i].kind == CandidateKind::ServerReflexive,
    ensures
        i < candidates.len() ==> outside_addr(candidates) == Some(candidates[i].addr),
        i == candidates.len() ==> outside_addr(candidates) is None,
    decreases candidates.len(),
{
    if candidates.len() > 0 && i > 0 {
        assert(candidates[0].source != CandidateSource::PortMapping);
        let rest = candidates.subrange(1, candidates.len() as int);
        assert forall|j: int| 0 <= j < i - 1 implies (#[trigger] rest[j]).source
            != CandidateSource::PortMapping && rest[j].kind != CandidateKind::ServerReflexive by {
            assert(candidates[j + 1].source != CandidateSource::PortMapping);
        }
        the_first_way_from_outside_counts(rest, i - 1);
    }
}

/// A supernode that was not heard of for more than 25 seconds counts as lost while there
/// is a room: the next one takes its place, and the node reconnects. Before that, and
/// without a room, the supernode stays.
pub proof fn a_lost_supernode_is_replaced(
    v: EdgeView,
    after: EdgeView,
    supernodes: Seq<SocketAddr>,
    now: u64,
)
    requires
        watch_kept(v, after, supernodes, now),
    ensures
        after.reconnecting <==> v.room is Some && now - v.last_activity > 25_000_000_000,
        !after.reconnecting ==> after.supernode == v.supernode,
        after.reconnecting ==> is_next(v.supernode, supernodes, after.supernode),
        after.reconnecting && after.supernode != v.supernode ==> after.runtime.supernode_addr
            == addr_text(after.supernode) && after.runtime.last_error == Some(
            "Supernode heartbeat timed out; trying fallback "@ + addr_text(after.supernode),
        ),
        after.runtime.supernode_reachable <==> now - v.last_activity <= 25_000_000_000,
{
}

/// While a supernode is lost, the node registers with the one that took its place, and
/// asks to be let into its room again, if it holds an invitation to it.
pub proof fn a_lost_room_is_asked_for_again(
    before: Edge,
    after: Edge,
    read: Option<InviteView>,
    history: Seq<HistoryItem>,
    networks: Seq<Seq<char>>,
    now: u64,
    out: Seq<OutView>,
)
    requires
        watch_frames(before, after, read, history, networks, now, out),
    ensures
        before@.room is None || now - before@.last_activity <= 25_000_000_000 ==> out.len() == 0,
        before@.room is Some && now - before@.last_activity > 25_000_000_000 ==> {
            &&& out.len() == (if before@.invite is Some && read is Some {
                2int
            } else {
                1
            })
            &&& out[0].target == after@.supernode
            &&& out[0].frame is RegisterNode
            &&& out[0].frame->RegisterNode_node_id == after.node_id
            &&& out[0].frame->RegisterNode_candidates == after.advertised@
            &&& before@.invite is Some && read is Some ==> out[1].target == after@.supernode
                && out[1].frame is JoinRoom && out[1].frame->JoinRoom_room_id.0@ == read->0.room_id
                && out[1].frame->JoinRoom_token == read->0.token
        },
{
}

/// That a supernode is lost is told while there is a room and nothing else is wrong; once
/// it is heard of again this is not told any longer. Other errors stay.
pub proof fn a_loss_is_told_until_it_is_over(r: RuntimeView, reachable: bool, room_active: bool)
    ensures
        ({
            let lost = "Supernode heartbeat timed out; trying to reconnect"@;
            let w = watched(r, reachable, room_active);
            &&& w.supernode_reachable == reachable
            &&& !reachable && room_active && r.last_error is None ==> w.last_error == Some(lost)
            &&& !reachable && !room_active ==> w.last_error == r.last_error
            &&& reachable && r.last_error == Some(lost) ==> w.last_error is None
            &&& r.last_error is Some && r.last_error != Some(lost) ==> w.last_error == r.last_error
            &&& reachable && r.last_error is None ==> w.last_error is None
            &&& w.virtual_ip == r.virtual_ip && w.supernode_addr == r.supernode_addr
        }),
{
}

/// Who leaves says so to the supernode, if it is in a room; with another supernode
/// nothing of the room is left.
pub proof fn leaving_is_told(
    v: EdgeView,
    o: Option<Outgoing>,
    addr: SocketAddr,
    room: RoomId,
    i: int,
)
    requires
        says_goodbye(v, o),
        0 <= i < 16,
    ensures
        v.room is None ==> o is None,
        v.room == Some(room) && room.0@[i] != 0 ==> o is Some && o->0.target == v.supernode
            && o->0.frame@ == (FrameView::LeaveRoom { room_id: room }),
        o is Some ==> v.room is Some,
        switched(v, addr).supernode == addr,
        switched(v, addr).room is None,
        switched(v, addr).peers.len() == 0,
        switched(v, addr).data.peers.len() == 0,
        switched(v, addr).runtime.supernode_addr == addr_text(addr),
        switched(v, addr).runtime.last_error is None,
        switched(v, addr).runtime.virtual_ip is None,
{
    if v.room == Some(room) && room.0@[i] != 0 {
        assert(!is_no_room(room));
    }
}

/// How the rooms are asked for.
pub open spec fn rooms_asked(v: EdgeView, after: EdgeView, step: CommandStep) -> bool {
    if v.pending_rooms {
        &&& after == v
        &&& step is Refused
        &&& step->Refused_0@ == "another rooms query is already in progress"@
    } else {
        &&& after == (EdgeView { pending_rooms: true, ..v })
        &&& step is Sent
        &&& step->Sent_0@ == (OutView {
            target: v.supernode,
            frame: FrameView::QueryRooms,
            required: true,
        })
    }
}

/// What is said on leaving a room.
pub open spec fn leaving_said(v: EdgeView, o: OutView) -> bool {
    &&& o.target == v.supernode
    &&& !o.required
    &&& match o.frame {
        FrameView::LeaveRoom { room_id } => match v.room {
            Some(r) => room_id == r,
            None => is_no_room(room_id),
        },
        _ => false,
    }
}

/// The rooms are asked for once at a time, of the supernode; who leaves a room names it.
pub proof fn rooms_are_asked_for_once_at_a_time(
    v: EdgeView,
    after: EdgeView,
    step: CommandStep,
    left: OutView,
)
    requires
        rooms_asked(v, after, step),
        leaving_said(v, left),
    ensures
        step is Sent <==> !v.pending_rooms,
        after.pending_rooms,
        step is Sent ==> step->Sent_0.target == v.supernode && step->Sent_0.frame@
            == FrameView::QueryRooms,
        after.room == v.room && after.peers == v.peers && after.pending_join == v.pending_join
            && after.pending_create == v.pending_create,
        left.target == v.supernode,
        v.room is Some ==> left.frame == (FrameView::LeaveRoom { room_id: v.room->0 }),
{
}

} // verus!
