//! How the edge reaches for a peer, and how they agree on a key.

use crate::bytes::{push_all, read_array, same_array};
use crate::common::NodeId;
use crate::config::random_bytes;
use crate::crypto::{
    key_bytes, opening_payload, opens_with, read_by_sender, x25519_public, Cipher, CryptoError,
    NoiseSession, ReplayWindow, SessionView,
};
use crate::dataplane::{
    candidate_added, direct_path_noted, direct_path_set, DataPeerView, DataPlane, DataPlaneView,
};
use crate::edge::{
    awaits_answer, filed, keys_spent, put_keeps_spent, same_peers, well_filed, Edge, EdgeView,
    PeerState, PeerStateView,
};
use crate::metrics::{handshake_counted, RegistryView};
use crate::net::SocketAddr;
use crate::path::PathMetrics;
use crate::proto::{Candidate, ControlFrame, FrameView, OutView, Outgoing};
use crate::rendezvous::{all_pairs, build_candidate_pairs, scores_fit, CandidatePair};
use crate::sort::by_rank;
use crate::table::{
    at, at_is, distinct, has_key, lookup, put, put_is_insert, update_is_put, viewed, viewed_lookup,
    viewed_put, Entry, Table,
};
use vstd::prelude::*;
use vstd::slice::slice_subrange;

verus! {

/// How many addresses a handshake is tried at, at most.
pub const MAX_PUNCH_PAIRS: usize = 16;

/// Milliseconds to wait before each round in which a handshake is sent.
pub const BURST_DELAYS_MS: [u64; 7] = [0, 20, 30, 50, 100, 200, 400];

/// A handshake that is to be sent to some addresses, in bursts.
#[derive(Debug)]
pub struct Burst {
    pub targets: Vec<SocketAddr>,
    pub payload: Vec<u8>,
}

/// What was read of a message of a handshake: what it carried, the answer to it,
/// if one was made, and whether the handshake is done.
#[derive(Debug)]
pub struct ShakeRead {
    pub carried: Vec<u8>,
    pub reply: Option<Vec<u8>>,
    pub finished: bool,
}

/// What came of a message of a handshake: the answer to it, the key, whether the
/// handshake is done, and whether it goes on.
#[derive(Debug)]
pub struct ShakeOutcome {
    pub response: Option<Vec<u8>>,
    pub key: Option<[u8; 32]>,
    pub finished: bool,
    pub goes_on: bool,
}

/// What comes of a message, given what was read of it, if it could be read. A
/// handshake that this node began ends with the key that it sent; one that the
/// other side began carries its key, and is answered. With a message that cannot
/// be read the handshake is over.
pub open spec fn outcome_of(
    began: bool,
    pending: Option<[u8; 32]>,
    read: Option<ShakeRead>,
    o: ShakeOutcome,
) -> bool {
    match read {
        None => o.response is None && o.key is None && !o.finished && !o.goes_on,
        Some(r) => {
            &&& o.finished == r.finished
            &&& o.goes_on == !r.finished
            &&& if began {
                &&& o.response is None
                &&& o.key == if r.finished {
                    pending
                } else {
                    None
                }
            } else {
                &&& o.response == r.reply
                &&& o.key is Some <==> r.carried@.len() >= 32
                &&& o.key is Some ==> o.key->0@ == r.carried@.subrange(0, 32)
            }
        },
    }
}

/// What comes of a message, given what was read of it, if it could be read.
pub fn settle(began: bool, pending: Option<[u8; 32]>, read: Option<ShakeRead>) -> (o: ShakeOutcome)
    ensures
        outcome_of(began, pending, read, o),
{
    match read {
        None => ShakeOutcome { response: None, key: None, finished: false, goes_on: false },
        Some(r) => {
            let key: Option<[u8; 32]> = if began {
                if r.finished {
                    pending
                } else {
                    None
                }
            } else if r.carried.len() >= 32 {
                Some(read_array(r.carried.as_slice(), 0))
            } else {
                None
            };
            ShakeOutcome {
                response: if began {
                    None
                } else {
                    r.reply
                },
                key,
                finished: r.finished,
                goes_on: !r.finished,
            }
        },
    }
}

/// The addresses at which a handshake is tried: those of the best pairs.
pub open spec fn punch_targets(pairs: Seq<CandidatePair>) -> Seq<SocketAddr>
    decreases pairs.len(),
{
    if pairs.len() == 0 {
        Seq::empty()
    } else {
        let before = punch_targets(pairs.drop_last());
        if pairs.last().score > 0 && before.len() < MAX_PUNCH_PAIRS {
            before.push(pairs.last().remote.addr)
        } else {
            before
        }
    }
}

/// A data plane that was told where a peer may be reached.
pub open spec fn candidates_added(
    v: DataPlaneView,
    node: NodeId,
    candidates: Seq<Candidate>,
    now: u64,
) -> DataPlaneView
    decreases candidates.len(),
{
    if candidates.len() == 0 {
        v
    } else {
        candidate_added(
            candidates_added(v, node, candidates.drop_last(), now),
            node,
            candidates.last().addr,
            now,
        )
    }
}

/// What becomes of a request to reach for a peer, given the handshake that was
/// begun, if it could be begun: the handshake and the message that opens it.
pub open spec fn punched(
    v: EdgeView,
    after: EdgeView,
    target: NodeId,
    candidates: Seq<Candidate>,
    opening: Option<(NoiseSession, Seq<u8>)>,
    session_key: [u8; 32],
    now: u64,
    r: Option<Burst>,
) -> bool {
    match lookup(v.peers, target) {
        None => after == v && r is None,
        Some(p) => {
            let data = candidates_added(v.data, target, candidates, now);
            match opening {
                None => {
                    &&& r is None
                    &&& after == (EdgeView {
                        peers: put(v.peers, target, PeerStateView { candidates, ..p }),
                        data: DataPlaneView {
                            metrics: handshake_counted(data.metrics, target, false),
                            ..data
                        },
                        ..v
                    })
                },
                Some((session, payload)) => {
                    &&& r is Some
                    &&& r->0.payload@ == payload
                    &&& r->0.targets@ == punch_targets(
                        by_rank(all_pairs(v.advertised, candidates)),
                    )
                    &&& after == (EdgeView {
                        peers: put(
                            v.peers,
                            target,
                            PeerStateView {
                                candidates,
                                session: Some(session),
                                pending_session_key: Some(session_key),
                                ..p
                            },
                        ),
                        data,
                        ..v
                    })
                },
            }
        },
    }
}

/// What becomes of a handshake that came to an end with a key: the key takes the
/// place of the one in use, unless it was taken up before.
pub open spec fn key_taken(
    v: EdgeView,
    after: EdgeView,
    from: NodeId,
    key: Option<[u8; 32]>,
    finished: bool,
    addr: SocketAddr,
    direct: PathMetrics,
    now: u64,
) -> bool {
    let p = lookup(v.peers, from);
    if key is Some && finished && p is Some && !v.spent.contains(key->0) {
        exists|data: DataPlaneView, cipher: Cipher|
            {
                &&& cipher.key == key->0
                &&& cipher.window == (ReplayWindow { last_nonce: 0, bitmap: 0 })
                &&& #[trigger] direct_path_noted(
                    v.data,
                    data,
                    from,
                    addr,
                    direct,
                    Some(cipher),
                    now,
                )
                &&& after == (EdgeView {
                    peers: put(
                        v.peers,
                        from,
                        PeerStateView { keyed: true, direct_addr: Some(addr), ..p->0 },
                    ),
                    data: DataPlaneView {
                        metrics: handshake_counted(data.metrics, from, true),
                        ..data
                    },
                    spent: v.spent.push(key->0),
                    ..v
                })
            }
    } else {
        after == v
    }
}

/// The answer to a message that opens a handshake with the side that has a
/// private key: the message by which the handshake that read it comes to its end.
/// Whoever sent the first message can read it, and finds nothing in it.
pub open spec fn answers_opening(
    private_key: Seq<u8>,
    message: Seq<u8>,
    reply: Seq<u8>,
) -> bool {
    let session = NoiseSession::waiting(private_key).having_read(message);
    &&& read_by_sender(session, reply, Seq::empty())
    &&& exists|after: NoiseSession|
        after@.finished() && reply == #[trigger] session.message_to(after, Seq::empty())
}

/// The public key of the side that a message came from, as the handshake that
/// reads it has it: the one that waits for an answer, or else a new one.
pub open spec fn sender_of(
    session: Option<NoiseSession>,
    private_key: Seq<u8>,
    message: Seq<u8>,
) -> Option<Seq<u8>> {
    match session {
        Some(s) => s@.remote_key,
        None => NoiseSession::waiting(private_key).having_read(message)@.remote_key,
    }
}

/// What is read of a message of a peer with a public key, given the handshake that
/// waits for an answer, if one does. Only a message of the side with that key is
/// read. An answer is read by the handshake that waits, which it ends; it is not
/// answered in turn. A message that opens a handshake is read with the private
/// key of this node and answered, which ends the handshake on this side.
pub open spec fn read_of(
    session: Option<NoiseSession>,
    private_key: Seq<u8>,
    public_key: Seq<u8>,
    message: Seq<u8>,
    read: Option<ShakeRead>,
) -> bool {
    let found = match session {
        Some(s) => s.answer(message),
        None => opening_payload(private_key, message),
    };
    &&& read is Some <==> found is Some && found->0.len() <= 128 && sender_of(
        session,
        private_key,
        message,
    ) == Some(public_key)
    &&& read is Some ==> {
        &&& read->0.carried@ == found->0
        &&& read->0.finished
        &&& if session is Some {
            read->0.reply is None
        } else {
            &&& read->0.reply is Some
            &&& read->0.reply->0@.len() == 48
            &&& answers_opening(private_key, message, read->0.reply->0@)
        }
    }
}

/// A message of a handshake came to the node with a private key: the handshake
/// with the peer is over, with what was read of the message.
pub open spec fn shaken(
    v: EdgeView,
    after: EdgeView,
    from: NodeId,
    private_key: Seq<u8>,
    message: Seq<u8>,
    outcome: ShakeOutcome,
) -> bool {
    match lookup(v.peers, from) {
        None => after == v && outcome_of(false, None, None, outcome),
        Some(p) => {
            &&& after == (EdgeView {
                peers: put(v.peers, from, PeerStateView { session: None, ..p }),
                ..v
            })
            &&& exists|read: Option<ShakeRead>| #[trigger]
                outcome_of(p.session is Some, p.pending_session_key, read, outcome) && read_of(
                    p.session,
                    private_key,
                    p.info.public_key,
                    message,
                    read,
                )
        },
    }
}

/// The handshake that was begun, and the message that opens it.
pub open spec fn opening_of(opening: Option<(NoiseSession, Vec<u8>)>) -> Option<
    (NoiseSession, Seq<u8>),
> {
    match opening {
        Some((session, payload)) => Some((session, payload@)),
        None => None,
    }
}

/// A handshake that was begun with the side that has a public key, and waits for
/// its answer: its message carries a payload to that side.
pub open spec fn begun_with(
    session: NoiseSession,
    message: Seq<u8>,
    private_key: Seq<u8>,
    public_key: Seq<u8>,
    payload: Seq<u8>,
) -> bool {
    &&& session@ == (SessionView {
        initiator: true,
        local_key: private_key,
        remote_key: Some(public_key),
        messages: 1,
    })
    &&& message.len() == 128
    &&& message == NoiseSession::begun(private_key, public_key).message_to(session, payload)
    &&& session.follows(NoiseSession::begun(private_key, public_key), payload)
    &&& opens_with(message, public_key, x25519_public(private_key), payload)
}

/// Puts a peer back after some of it changed.
proof fn peer_changed(
    before: Seq<Entry<NodeId, PeerState>>,
    after: Seq<Entry<NodeId, PeerState>>,
    i: int,
    id: NodeId,
)
    requires
        distinct(before),
        filed(before),
        0 <= i < before.len(),
        before[i].key == id,
        after == before.update(i, Entry { key: id, value: after[i].value }),
        after[i].value.info == before[i].value.info,
        awaits_answer(after[i].value.handshake),
    ensures
        filed(after),
        viewed(after) == put(viewed(before), id, after[i].value@),
        forall|o: NodeId| #[trigger] has_key(viewed(after), o) <==> has_key(viewed(before), o),
{
    let v = after[i].value;
    update_is_put(before, i, v);
    viewed_put(before, id, v);
    at_is(before, i);
    viewed_lookup(before, id);
    put_is_insert(viewed(before), id, v@);
    assert forall|o: NodeId| #[trigger] has_key(viewed(after), o) <==> has_key(
        viewed(before),
        o,
    ) by {
        if o != id {
            assert(lookup(viewed(after), o) == lookup(viewed(before), o));
        }
    }
    assert forall|k: int| 0 <= k < after.len() implies well_filed(#[trigger] after[k]) by {
        if k != i {
            assert(after[k] == before[k]);
        } else {
            assert(well_filed(before[i]));
        }
    }
}

/// The peers of the data plane are the same before and after an answer over a
/// direct way.
proof fn direct_path_keeps_peers(
    v: DataPlaneView,
    w: DataPlaneView,
    node: NodeId,
    addr: SocketAddr,
    m: PathMetrics,
    cipher: Option<Cipher>,
    now: u64,
)
    requires
        distinct(v.peers),
        direct_path_noted(v, w, node, addr, m, cipher, now),
    ensures
        forall|o: NodeId| #[trigger] has_key(w.peers, o) <==> has_key(v.peers, o),
{
    if has_key(v.peers, node) {
        let p = lookup(v.peers, node)->0;
        let q = choose|q: DataPeerView| #[trigger]
            direct_path_set(p, q, addr, m, cipher, now) && w == (DataPlaneView {
                peers: put(v.peers, node, q),
                ..v
            });
        put_is_insert(v.peers, node, q);
        assert forall|o: NodeId| #[trigger] has_key(w.peers, o) <==> has_key(v.peers, o) by {
            if o != node {
                assert(lookup(w.peers, o) == lookup(v.peers, o));
            }
        }
    }
}

/// A key that comes into use is one of those that were taken up.
proof fn new_key_is_spent(
    v: DataPlaneView,
    w: DataPlaneView,
    spent: Seq<[u8; 32]>,
    node: NodeId,
    addr: SocketAddr,
    m: PathMetrics,
    cipher: Cipher,
    now: u64,
)
    requires
        distinct(v.peers),
        keys_spent(v.peers, spent),
        direct_path_noted(v, w, node, addr, m, Some(cipher), now),
    ensures
        keys_spent(w.peers, spent.push(cipher.key)),
{
    let more = spent.push(cipher.key);
    assert(more[spent.len() as int] == cipher.key);
    assert forall|id: NodeId|
        has_key(v.peers, id) && (#[trigger] lookup(v.peers, id))->0.cipher is Some implies more.contains(
        lookup(v.peers, id)->0.cipher->0.key,
    ) by {
        let k = lookup(v.peers, id)->0.cipher->0.key;
        assert(more[spent.index_of(k)] == k);
    }
    if has_key(v.peers, node) {
        let p = lookup(v.peers, node)->0;
        let q = choose|q: DataPeerView| #[trigger]
            direct_path_set(p, q, addr, m, Some(cipher), now) && w == (DataPlaneView {
                peers: put(v.peers, node, q),
                ..v
            });
        put_keeps_spent(v.peers, more, node, q);
    }
}

proof fn candidate_keeps_spent(
    v: DataPlaneView,
    spent: Seq<[u8; 32]>,
    node: NodeId,
    addr: SocketAddr,
    now: u64,
)
    requires
        distinct(v.peers),
        keys_spent(v.peers, spent),
    ensures
        keys_spent(candidate_added(v, node, addr, now).peers, spent),
{
    if has_key(v.peers, node) {
        let p = lookup(v.peers, node)->0;
        let q = DataPeerView { paths: crate::path::with_path(p.paths, addr, false, now), ..p };
        put_keeps_spent(v.peers, spent, node, q);
    }
}

proof fn candidate_keeps_peers(v: DataPlaneView, node: NodeId, addr: SocketAddr, now: u64)
    requires
        distinct(v.peers),
    ensures
        forall|o: NodeId| #[trigger]
            has_key(candidate_added(v, node, addr, now).peers, o) <==> has_key(v.peers, o),
{
    let w = candidate_added(v, node, addr, now);
    if has_key(v.peers, node) {
        let p = lookup(v.peers, node)->0;
        let q = DataPeerView { paths: crate::path::with_path(p.paths, addr, false, now), ..p };
        put_is_insert(v.peers, node, q);
        assert forall|o: NodeId| #[trigger] has_key(w.peers, o) <==> has_key(v.peers, o) by {
            if o != node {
                assert(lookup(w.peers, o) == lookup(v.peers, o));
            }
        }
    }
}

/// Writes the answer that a handshake calls for, if it is the turn of this side.
fn write_reply(session: &mut NoiseSession) -> (r: Option<Vec<u8>>)
    ensures
        r is Some <==> old(session)@.may_write(),
        r is Some ==> r->0@.len() == old(session)@.overhead() && r->0@ == old(session).message_to(
            *final(session),
            Seq::empty(),
        ),
        r is Some && old(session)@.messages == 1 ==> read_by_sender(
            *old(session),
            r->0@,
            Seq::empty(),
        ),
        final(session)@ == if r is Some {
            old(session)@.moved_on()
        } else {
            old(session)@
        },
{
    let none: [u8; 0] = [];
    assert(none@ =~= Seq::<u8>::empty());
    let mut message: [u8; 128] = [0u8; 128];
    match session.write_message(none.as_slice(), &mut message) {
        Ok(used) => {
            let mut reply: Vec<u8> = Vec::new();
            push_all(&mut reply, slice_subrange(message.as_slice(), 0, used));
            Some(reply)
        },
        Err(_) => None,
    }
}

/// Reads a message with a handshake that waits for it: one that this node began,
/// or a new one. A message of another side than the one with the public key is as
/// good as none. The handshake is handed back if it is not over.
fn hear(session: NoiseSession, began: bool, public_key: &[u8; 32], message: &[u8]) -> (r: (
    Option<ShakeRead>,
    Option<NoiseSession>,
))
    requires
        began ==> awaits_answer(Some(session)),
        !began ==> session == NoiseSession::waiting(session@.local_key) && !session@.initiator
            && session@.messages == 0,
    ensures
        read_of(
            if began {
                Some(session)
            } else {
                None
            },
            session@.local_key,
            public_key@,
            message@,
            r.0,
        ),
        r.1 is None,
{
    let ghost start = session;
    let mut session = session;
    let mut output: [u8; 128] = [0u8; 128];
    match session.read_message(message, &mut output) {
        Ok(size) => {
            let ghost told = session;
            assert(told == start.having_read(message@));
            if !session.is_with(public_key) {
                return (None, None);
            }
            let mut carried: Vec<u8> = Vec::new();
            push_all(&mut carried, slice_subrange(output.as_slice(), 0, size));
            let reply = if began {
                None
            } else {
                write_reply(&mut session)
            };
            proof {
                if !began {
                    assert(told == NoiseSession::waiting(start@.local_key).having_read(message@));
                    assert(reply->0@ == told.message_to(session, Seq::empty()));
                    assert(answers_opening(start@.local_key, message@, reply->0@));
                }
            }
            let finished = session.is_handshake_finished();
            let left = if finished {
                let _ = session.into_transport_mode();
                None
            } else {
                Some(session)
            };
            (Some(ShakeRead { carried, reply, finished }), left)
        },
        Err(_) => (None, None),
    }
}

fn select_targets(pairs: &Vec<CandidatePair>) -> (r: Vec<SocketAddr>)
    ensures
        r@ == punch_targets(pairs@),
{
    let mut r: Vec<SocketAddr> = Vec::new();
    let n: usize = pairs.len();
    assert(pairs@.subrange(0, 0) =~= Seq::<CandidatePair>::empty());
    for i in 0..n
        invariant
            n == pairs@.len(),
            r@ == punch_targets(pairs@.subrange(0, i as int)),
    {
        assert(pairs@.subrange(0, i + 1).drop_last() =~= pairs@.subrange(0, i as int));
        assert(pairs@.subrange(0, i + 1).last() == pairs@[i as int]);
        if pairs[i].score > 0 && r.len() < MAX_PUNCH_PAIRS {
            r.push(pairs[i].remote.addr);
        }
    }
    assert(pairs@.subrange(0, n as int) =~= pairs@);
    r
}

impl Edge {
    /// Begins a handshake with a peer that is at hand: the session, and the
    /// message that opens it, which carries a key to the peer.
    fn open_session(&self, i: usize, session_key: &[u8; 32]) -> (r: Option<(NoiseSession, Vec<u8>)>)
        requires
            i < self.peers.entries().len(),
        ensures
            r is Some,
            begun_with(
                (r->0).0,
                (r->0).1@,
                self.private_key@,
                self.peers.entries()[i as int].value.info.public_key@,
                session_key@,
            ),
    {
        proof {
            let remote = self.peers.entries()[i as int].value.info.public_key@;
            assert(key_bytes(self.private_key@) =~= self.private_key@);
            assert(key_bytes(remote) =~= remote);
        }
        let remote = self.peers.nth(i).value.info.public_key;
        let mut session = match NoiseSession::initiator(
            self.private_key.as_slice(),
            remote.as_slice(),
        ) {
            Ok(s) => s,
            Err(_) => {
                return None;
            },
        };
        let mut message: [u8; 128] = [0u8; 128];
        match session.write_message(session_key.as_slice(), &mut message) {
            Ok(used) => {
                let mut payload: Vec<u8> = Vec::new();
                push_all(&mut payload, slice_subrange(message.as_slice(), 0, used));
                Some((session, payload))
            },
            Err(_) => None,
        }
    }

    /// Tells the data plane where a peer may be reached.
    fn offer_candidates(&mut self, target: NodeId, candidates: &Vec<Candidate>, now: u64)
        requires
            old(self).wf(),
        ensures
            final(self).wf(),
            final(self).same_setup(*old(self)),
            final(self).peers == old(self).peers,
            final(self)@ == (EdgeView {
                data: candidates_added(old(self)@.data, target, candidates@, now),
                ..old(self)@
            }),
    {
        let n: usize = candidates.len();
        let ghost all = candidates@;
        let ghost start = *self;
        assert(all.subrange(0, 0) =~= Seq::<Candidate>::empty());
        for i in 0..n
            invariant
                self.wf(),
                self.same_setup(start),
                self.peers == start.peers,
                n == all.len(),
                all == candidates@,
                self@ == (EdgeView {
                    data: candidates_added(start@.data, target, all.subrange(0, i as int), now),
                    ..start@
                }),
        {
            let ghost before = self@.data;
            assert(all.subrange(0, i + 1).drop_last() =~= all.subrange(0, i as int));
            assert(all.subrange(0, i + 1).last() == all[i as int]);
            proof {
                self.dataplane.peers_are_distinct();
                candidate_keeps_peers(before, target, all[i as int].addr, now);
                candidate_keeps_spent(before, self.spent_keys@, target, all[i as int].addr, now);
            }
            self.dataplane.add_peer_candidate(target, candidates[i].addr, now);
            assert(same_peers(self@.peers, self@.data.peers));
        }
        assert(all.subrange(0, n as int) =~= all);
    }

    /// Takes in a request to reach for a peer, given the handshake that was begun
    /// with it, if it could be begun.
    pub fn punch_with(
        &mut self,
        target: NodeId,
        candidates: Vec<Candidate>,
        opening: Option<(NoiseSession, Vec<u8>)>,
        session_key: [u8; 32],
        now: u64,
    ) -> (r: Option<Burst>)
        requires
            old(self).wf(),
            scores_fit(old(self)@.advertised, candidates@),
            opening is Some ==> awaits_answer(Some((opening->0).0)),
        ensures
            final(self).wf(),
            final(self).same_setup(*old(self)),
            punched(
                old(self)@,
                final(self)@,
                target,
                candidates@,
                opening_of(opening),
                session_key,
                now,
                r,
            ),
    {
        let i = match self.find_peer(&target) {
            Some(i) => i,
            None => {
                return None;
            },
        };
        let pairs = build_candidate_pairs(self.advertised.as_slice(), candidates.as_slice());
        let targets = select_targets(&pairs);
        self.offer_candidates(target, &candidates, now);
        let ghost before = self.peers.entries();
        let ghost mid = *self;
        proof {
            self.peers_are_distinct();
        }
        match opening {
            Some((session, payload)) => {
                {
                    let p = self.peers.value_mut(i);
                    p.candidates = candidates;
                    p.handshake = Some(session);
                    p.pending_session_key = Some(session_key);
                }
                proof {
                    peer_changed(before, self.peers.entries(), i as int, target);
                    assert(self.peers.entries()[i as int].value@ =~= (PeerStateView {
                        candidates: candidates@,
                        session: Some(session),
                        pending_session_key: Some(session_key),
                        ..before[i as int].value@
                    }));
                    assert(same_peers(self@.peers, self@.data.peers));
                }
                Some(Burst { targets, payload })
            },
            None => {
                {
                    let p = self.peers.value_mut(i);
                    p.candidates = candidates;
                }
                self.dataplane.metrics.mark_handshake(target, false);
                proof {
                    peer_changed(before, self.peers.entries(), i as int, target);
                    assert(self.peers.entries()[i as int].value@ =~= (PeerStateView {
                        candidates: candidates@,
                        ..before[i as int].value@
                    }));
                    assert(same_peers(self@.peers, self@.data.peers));
                }
                None
            },
        }
    }

    /// Reaches for a peer: begins a handshake with it, and tells where it is to
    /// be sent. The message that opens it carries a key to the peer; the key, and
    /// with it the message, is random.
    pub fn punch(&mut self, target: NodeId, candidates: Vec<Candidate>, now: u64) -> (r: Option<
        Burst,
    >)
        requires
            old(self).wf(),
            scores_fit(old(self)@.advertised, candidates@),
        ensures
            final(self).wf(),
            final(self).same_setup(*old(self)),
            exists|session: NoiseSession, opening: Seq<u8>, session_key: [u8; 32]|
                {
                    &&& #[trigger] punched(
                        old(self)@,
                        final(self)@,
                        target,
                        candidates@,
                        Some((session, opening)),
                        session_key,
                        now,
                        r,
                    )
                    &&& has_key(old(self)@.peers, target) ==> begun_with(
                        session,
                        opening,
                        old(self).private_key@,
                        lookup(old(self)@.peers, target)->0.info.public_key,
                        session_key@,
                    )
                },
    {
        let session_key = random_bytes();
        let opening: Option<(NoiseSession, Vec<u8>)> = match self.find_peer(&target) {
            Some(i) => self.open_session(i, &session_key),
            None => None,
        };
        let ghost first = opening_of(opening)->0;
        let r = self.punch_with(target, candidates, opening, session_key, now);
        assert(punched(
            old(self)@,
            self@,
            target,
            candidates@,
            Some((first.0, first.1)),
            session_key,
            now,
            r,
        ));
        r
    }

    /// Reads a message of a handshake that a peer which is at hand sent, and goes
    /// on with the handshake.
    fn shake(&mut self, i: usize, from: NodeId, payload: &[u8]) -> (outcome: ShakeOutcome)
        requires
            old(self).wf(),
            i < old(self).peers.entries().len(),
            old(self).peers.entries()[i as int].key == from,
            lookup(old(self)@.peers, from) == Some(old(self).peers.entries()[i as int].value@),
        ensures
            final(self).wf(),
            final(self).same_setup(*old(self)),
            shaken(
                old(self)@,
                final(self)@,
                from,
                old(self).private_key@,
                payload@,
                outcome,
            ),
    {
        let ghost before = self.peers.entries();
        let ghost was = before[i as int].value@;
        proof {
            self.peers_are_distinct();
        }
        let pending = self.peers.nth(i).value.pending_session_key;
        let public_key = self.peers.nth(i).value.info.public_key;
        let taken = {
            let p = self.peers.value_mut(i);
            p.handshake.take()
        };
        let began = taken.is_some();
        let begun = match taken {
            Some(session) => Ok(session),
            None => NoiseSession::responder(self.private_key.as_slice()),
        };
        proof {
            assert(well_filed(before[i as int]));
            assert(key_bytes(self.private_key@) =~= self.private_key@);
        }
        let (read, left) = match begun {
            Ok(session) => hear(session, began, &public_key, payload),
            Err(_) => {
                self.dataplane.metrics.mark_handshake(from, false);
                (None, None)
            },
        };
        let ghost seen = read;
        let outcome = settle(began, pending, read);
        {
            let p = self.peers.value_mut(i);
            p.handshake = left;
        }
        proof {
            assert(outcome_of(was.session is Some, was.pending_session_key, seen, outcome));
            assert(read_of(was.session, self.private_key@, was.info.public_key, payload@, seen));
            let after = self.peers.entries();
            assert(after =~= before.update(i as int, Entry { key: from, value: after[i as int].value }));
            peer_changed(before, after, i as int, from);
            assert(after[i as int].value@ =~= (PeerStateView { session: None, ..was }));
            assert(same_peers(self@.peers, self@.data.peers));
            assert(self@.peers == put(
                old(self)@.peers,
                from,
                PeerStateView { session: None, ..was },
            ));
        }
        outcome
    }

    /// Whether a key was taken up before.
    fn is_spent(&self, key: &[u8; 32]) -> (r: bool)
        ensures
            r == self@.spent.contains(*key),
    {
        let n: usize = self.spent_keys.len();
        for i in 0..n
            invariant
                n == self.spent_keys@.len(),
                forall|k: int| 0 <= k < i ==> #[trigger] self.spent_keys@[k] != *key,
        {
            if same_array(&self.spent_keys[i], key) {
                assert(self.spent_keys@[i as int] == *key);
                return true;
            }
        }
        false
    }

    /// Takes up the key that a handshake ended with, in place of the one in use. A
    /// key that was taken up before is not: a message that comes again must not
    /// start the counters anew. `direct` are the measurements that the way has once
    /// it counts as answered.
    pub fn take_key(
        &mut self,
        from: NodeId,
        key: Option<[u8; 32]>,
        finished: bool,
        addr: SocketAddr,
        direct: PathMetrics,
        now: u64,
    )
        requires
            old(self).wf(),
        ensures
            final(self).wf(),
            final(self).same_setup(*old(self)),
            key_taken(old(self)@, final(self)@, from, key, finished, addr, direct, now),
    {
        if !finished {
            return;
        }
        let key = match key {
            Some(k) => k,
            None => {
                return;
            },
        };
        let i = match self.find_peer(&from) {
            Some(i) => i,
            None => {
                return;
            },
        };
        if self.is_spent(&key) {
            return;
        }
        let ghost start = self@;
        let ghost before = self.peers.entries();
        proof {
            self.peers_are_distinct();
        }
        let cipher = Cipher::new(key.as_slice());
        let ghost cv = cipher;
        assert(cv.key =~= key);
        self.spent_keys.push(key);
        {
            let p = self.peers.value_mut(i);
            p.keyed = true;
            p.direct_addr = Some(addr);
        }
        proof {
            peer_changed(before, self.peers.entries(), i as int, from);
            assert(self.peers.entries()[i as int].value@ =~= (PeerStateView {
                keyed: true,
                direct_addr: Some(addr),
                ..before[i as int].value@
            }));
        }
        self.dataplane.set_direct_path(from, addr, direct, Some(cipher), now);
        let ghost data = self@.data;
        proof {
            direct_path_keeps_peers(start.data, data, from, addr, direct, Some(cv), now);
            assert(self.spent_keys@ == start.spent.push(key));
            new_key_is_spent(start.data, data, start.spent, from, addr, direct, cv, now);
            assert(same_peers(self@.peers, self@.data.peers));
        }
        self.dataplane.metrics.mark_handshake(from, true);
        proof {
            assert(direct_path_noted(start.data, data, from, addr, direct, Some(cv), now));
            assert(data.room == start.data.room);
        }
    }

    /// Takes in a message of a handshake that came from an address, and gives the
    /// answer to it, if there is one.
    pub fn handshake(
        &mut self,
        from: NodeId,
        payload: &[u8],
        addr: SocketAddr,
        direct: PathMetrics,
        now: u64,
    ) -> (r: Option<Outgoing>)
        requires
            old(self).wf(),
        ensures
            final(self).wf(),
            final(self).same_setup(*old(self)),
            exists|mid: EdgeView, outcome: ShakeOutcome|
                #![trigger shaken(old(self)@, mid, from, old(self).private_key@, payload@, outcome)]
                {
                    &&& shaken(
                        old(self)@,
                        mid,
                        from,
                        old(self).private_key@,
                        payload@,
                        outcome,
                    )
                    &&& key_taken(
                        mid,
                        final(self)@,
                        from,
                        outcome.key,
                        outcome.finished,
                        addr,
                        direct,
                        now,
                    )
                    &&& match (outcome.response, r) {
                        (Some(b), Some(o)) => o@ == (OutView {
                            target: addr,
                            frame: FrameView::Handshake { from: old(self).node_id, payload: b@ },
                            required: false,
                        }),
                        (None, None) => true,
                        _ => false,
                    }
                },
    {
        let outcome = match self.find_peer(&from) {
            Some(i) => self.shake(i, from, payload),
            None => settle(false, None, None),
        };
        let ghost mid = self@;
        let ghost result = outcome;
        assert(shaken(old(self)@, mid, from, old(self).private_key@, payload@, result));
        self.take_key(from, outcome.key, outcome.finished, addr, direct, now);
        match outcome.response {
            Some(b) => Some(
                Outgoing {
                    target: addr,
                    frame: ControlFrame::Handshake { from: self.node_id, payload: b },
                    required: false,
                },
            ),
            None => None,
        }
    }
}

/// The side that answers comes to the key that it was sent: it reads the message
/// that carries it with the private key that its public one belongs to, and knows
/// the sender for the peer that it is.
pub proof fn the_side_that_answers_has_the_key(
    opening: Seq<u8>,
    session_key: [u8; 32],
    private_key: Seq<u8>,
    sender: Seq<u8>,
    pending: Option<[u8; 32]>,
    read: Option<ShakeRead>,
    outcome: ShakeOutcome,
)
    requires
        private_key.len() == 32,
        opens_with(opening, x25519_public(private_key), sender, session_key@),
        read_of(None, private_key, sender, opening, read),
        outcome_of(false, pending, read, outcome),
    ensures
        outcome.key is Some && outcome.key->0@ == session_key@,
        outcome.finished,
        outcome.response is Some,
        answers_opening(private_key, opening, outcome.response->0@),
{
    assert(session_key@.subrange(0, 32) =~= session_key@);
}

/// The side that began comes to the key that it sent as soon as the answer to its
/// message can be read, and does not answer in turn.
pub proof fn the_side_that_began_has_the_key(
    session: NoiseSession,
    session_key: [u8; 32],
    private_key: Seq<u8>,
    public_key: Seq<u8>,
    answer: Seq<u8>,
    read: Option<ShakeRead>,
    outcome: ShakeOutcome,
)
    requires
        session.answer(answer) is Some,
        session.answer(answer)->0.len() <= 128,
        session@.remote_key == Some(public_key),
        read_of(Some(session), private_key, public_key, answer, read),
        outcome_of(true, Some(session_key), read, outcome),
    ensures
        outcome.key == Some(session_key),
        outcome.finished,
        outcome.response is None,
{
}

/// Two nodes agree on a key: one reaches for the other with a message that carries
/// a key, the other reads it and answers, and the first one reads the answer. Both
/// have the key then, and both are done.
pub proof fn both_sides_have_the_key(
    session: NoiseSession,
    opening: Seq<u8>,
    session_key: [u8; 32],
    first_key: Seq<u8>,
    second_key: Seq<u8>,
    pending: Option<[u8; 32]>,
    second_read: Option<ShakeRead>,
    second: ShakeOutcome,
    first_read: Option<ShakeRead>,
    first: ShakeOutcome,
)
    requires
        first_key.len() == 32,
        second_key.len() == 32,
        begun_with(session, opening, first_key, x25519_public(second_key), session_key@),
        read_of(None, second_key, x25519_public(first_key), opening, second_read),
        outcome_of(false, pending, second_read, second),
        second.response is Some ==> read_of(
            Some(session),
            first_key,
            x25519_public(second_key),
            second.response->0@,
            first_read,
        ),
        outcome_of(true, Some(session_key), first_read, first),
    ensures
        second.finished && second.key is Some && second.key->0@ == session_key@,
        second.response is Some,
        first.finished && first.key == Some(session_key),
        first.response is None,
{
    the_side_that_answers_has_the_key(
        opening,
        session_key,
        second_key,
        x25519_public(first_key),
        pending,
        second_read,
        second,
    );
    let reply = second.response->0@;
    assert(session.follows(
        NoiseSession::begun(first_key, x25519_public(second_key)),
        session_key@,
    ));
    assert(session.answer(reply) == Some(Seq::<u8>::empty()));
}

/// A key comes into use with a peer only by a message of the side that has the
/// public key of that peer: whatever is sent in its name by another side changes
/// nothing but that a handshake which waited for it is over.
pub proof fn keys_come_from_the_peer(
    v: EdgeView,
    mid: EdgeView,
    after: EdgeView,
    from: NodeId,
    private_key: Seq<u8>,
    message: Seq<u8>,
    outcome: ShakeOutcome,
    addr: SocketAddr,
    direct: PathMetrics,
    now: u64,
)
    requires
        has_key(v.peers, from),
        shaken(v, mid, from, private_key, message, outcome),
        key_taken(mid, after, from, outcome.key, outcome.finished, addr, direct, now),
        ({
            let p = lookup(v.peers, from)->0;
            sender_of(p.session, private_key, message) != Some(p.info.public_key)
        }),
    ensures
        after == mid,
        outcome.response is None,
        after == (EdgeView {
            peers: put(
                v.peers,
                from,
                PeerStateView { session: None, ..lookup(v.peers, from)->0 },
            ),
            ..v
        }),
{
}

/// A handshake that ends with the key in use changes nothing.
pub proof fn the_key_in_use_stays(
    e: Edge,
    after: EdgeView,
    from: NodeId,
    key: [u8; 32],
    finished: bool,
    addr: SocketAddr,
    direct: PathMetrics,
    now: u64,
)
    requires
        e.wf(),
        has_key(e@.data.peers, from),
        lookup(e@.data.peers, from)->0.cipher is Some,
        lookup(e@.data.peers, from)->0.cipher->0.key == key,
        key_taken(e@, after, from, Some(key), finished, addr, direct, now),
    ensures
        after == e@,
{
}

/// A handshake that ends with a new key puts it in the place of the old one, with
/// counters of its own: what goes to the peer from then on is sealed under it.
pub proof fn a_new_key_replaces_the_old(
    v: EdgeView,
    after: EdgeView,
    from: NodeId,
    key: [u8; 32],
    addr: SocketAddr,
    direct: PathMetrics,
    now: u64,
)
    requires
        distinct(v.data.peers),
        has_key(v.peers, from),
        has_key(v.data.peers, from),
        !v.spent.contains(key),
        key_taken(v, after, from, Some(key), true, addr, direct, now),
    ensures
        has_key(after.data.peers, from),
        lookup(after.data.peers, from)->0.cipher == Some(
            Cipher { key, window: ReplayWindow { last_nonce: 0, bitmap: 0 } },
        ),
        after.spent == v.spent.push(key),
{
    let (data, cipher) = choose|data: DataPlaneView, cipher: Cipher|
        {
            &&& cipher.key == key
            &&& cipher.window == (ReplayWindow { last_nonce: 0, bitmap: 0 })
            &&& #[trigger] direct_path_noted(
                v.data,
                data,
                from,
                addr,
                direct,
                Some(cipher),
                now,
            )
            &&& after.spent == v.spent.push(key)
            &&& after.data.peers == data.peers
        };
    let p = lookup(v.data.peers, from)->0;
    let q = choose|q: DataPeerView| #[trigger]
        direct_path_set(p, q, addr, direct, Some(cipher), now) && data == (DataPlaneView {
            peers: put(v.data.peers, from, q),
            ..v.data
        });
    put_is_insert(v.data.peers, from, q);
}

/// A key that was taken up once never comes back: a message that brings it again
/// changes nothing, and no key that was taken up is ever forgotten.
pub proof fn no_key_comes_back(
    v: EdgeView,
    after: EdgeView,
    from: NodeId,
    key: Option<[u8; 32]>,
    finished: bool,
    addr: SocketAddr,
    direct: PathMetrics,
    now: u64,
    old_key: [u8; 32],
)
    requires
        v.spent.contains(old_key),
        key_taken(v, after, from, key, finished, addr, direct, now),
    ensures
        key == Some(old_key) ==> after == v,
        after.spent.contains(old_key),
{
    let i = v.spent.index_of(old_key);
    if key is Some {
        assert(v.spent.push(key->0)[i] == old_key);
    }
}

/// Some pair that scores leads to the address.
pub open spec fn scores_at(pairs: Seq<CandidatePair>, addr: SocketAddr) -> bool {
    exists|m: int|
        0 <= m < pairs.len() && (#[trigger] pairs[m]).score > 0 && pairs[m].remote.addr == addr
}

/// Of the pairs at most sixteen are tried, by the address of the other side: those that
/// score at all, the first ones first. Nothing else is.
pub proof fn the_first_sixteen_pairs_are_tried(pairs: Seq<CandidatePair>, i: int)
    ensures
        punch_targets(pairs).len() <= 16,
        pairs.len() <= 16 && 0 <= i < pairs.len() && pairs[i].score > 0 ==> punch_targets(
            pairs,
        ).contains(pairs[i].remote.addr),
        (forall|k: int| 0 <= k < pairs.len() ==> (#[trigger] pairs[k]).score > 0) ==> punch_targets(
            pairs,
        ).len() == (if pairs.len() < 16 {
            pairs.len() as int
        } else {
            16
        }) && forall|k: int|
            0 <= k < punch_targets(pairs).len() ==> #[trigger] punch_targets(pairs)[k]
                == pairs[k].remote.addr,
        punch_targets(pairs).len() <= pairs.len(),
        forall|k: int|
            0 <= k < punch_targets(pairs).len() ==> scores_at(
                pairs,
                #[trigger] punch_targets(pairs)[k],
            ),
    decreases pairs.len(),
{
    if pairs.len() > 0 {
        let short = pairs.drop_last();
        let before = punch_targets(short);
        let all = punch_targets(pairs);
        the_first_sixteen_pairs_are_tried(short, i);
        assert forall|k: int| 0 <= k < all.len() implies scores_at(pairs, #[trigger] all[k]) by {
            if k < before.len() {
                assert(scores_at(short, before[k]));
                let m = choose|m: int|
                    0 <= m < short.len() && (#[trigger] short[m]).score > 0
                        && short[m].remote.addr == before[k];
                assert(pairs[m] == short[m]);
            } else {
                assert(pairs[pairs.len() - 1].remote.addr == all[k]);
            }
        }
        if pairs.len() <= 16 && 0 <= i < pairs.len() && pairs[i].score > 0 {
            let a = pairs[i].remote.addr;
            if i < short.len() {
                assert(short[i] == pairs[i]);
                let k = before.index_of(a);
                assert(all[k] == a);
            } else {
                assert(all[all.len() - 1] == a);
            }
        }
        if forall|k: int| 0 <= k < pairs.len() ==> (#[trigger] pairs[k]).score > 0 {
            assert forall|k: int| 0 <= k < short.len() implies (#[trigger] short[k]).score > 0 by {
                assert(pairs[k].score > 0);
            }
            assert(pairs[pairs.len() - 1].score > 0);
            assert forall|k: int| 0 <= k < all.len() implies #[trigger] all[k]
                == pairs[k].remote.addr by {
                if k < before.len() {
                    assert(all[k] == before[k]);
                    assert(short[k] == pairs[k]);
                }
            }
        }
    }
}

/// A peer that is to be reached for is sent the opening of a handshake on the ways that
/// fit best; its candidates are known then, and the key of the handshake waits for the
/// answer. Without an opening this counts as a failure; an unknown node is not reached
/// for.
pub proof fn peers_are_reached_for(
    v: EdgeView,
    after: EdgeView,
    target: NodeId,
    candidates: Seq<Candidate>,
    opening: Option<(NoiseSession, Seq<u8>)>,
    session_key: [u8; 32],
    now: u64,
    r: Option<Burst>,
    other: NodeId,
)
    requires
        distinct(v.peers),
        punched(v, after, target, candidates, opening, session_key, now, r),
        other != target,
    ensures
        r is Some <==> has_key(v.peers, target) && opening is Some,
        !has_key(v.peers, target) ==> after == v,
        has_key(v.peers, target) ==> lookup(after.peers, target) is Some && lookup(
            after.peers,
            target,
        )->0.candidates == candidates,
        lookup(after.peers, other) == lookup(v.peers, other),
        r is Some ==> r->0.targets@.len() <= 16 && lookup(after.peers, target)->0.pending_session_key
            == Some(session_key),
        has_key(v.peers, target) && opening is None ==> lookup(
            after.peers,
            target,
        )->0.pending_session_key == lookup(v.peers, target)->0.pending_session_key,
        after.room == v.room && after.supernode == v.supernode && after.advertised == v.advertised,
{
    if has_key(v.peers, target) {
        let p = lookup(v.peers, target)->0;
        put_is_insert(v.peers, target, PeerStateView { candidates, ..p });
        if opening is Some {
            let (session, payload) = opening->0;
            put_is_insert(
                v.peers,
                target,
                PeerStateView {
                    candidates,
                    session: Some(session),
                    pending_session_key: Some(session_key),
                    ..p
                },
            );
            the_first_sixteen_pairs_are_tried(by_rank(all_pairs(v.advertised, candidates)), 0);
        }
    }
}

/// A key that a handshake came to is used for the frames of the peer from then on, whose
/// numbers are all new to it, and the address of the handshake is a direct way to the
/// peer. Without a key, before the end of the handshake or for an unknown node nothing
/// changes.
pub proof fn a_finished_handshake_gives_its_key(
    v: EdgeView,
    after: EdgeView,
    from: NodeId,
    key: Option<[u8; 32]>,
    finished: bool,
    addr: SocketAddr,
    direct: PathMetrics,
    now: u64,
    other: NodeId,
)
    requires
        distinct(v.peers),
        distinct(v.data.peers),
        same_peers(v.peers, v.data.peers),
        key_taken(v, after, from, key, finished, addr, direct, now),
        other != from,
    ensures
        key is None || !finished || !has_key(v.peers, from) ==> after == v,
        key is Some && finished && has_key(v.peers, from) && !v.spent.contains(key->0) ==> {
            let p = lookup(after.peers, from)->0;
            let d = lookup(after.data.peers, from)->0;
            &&& p.keyed
            &&& p.direct_addr == Some(addr)
            &&& p.info == lookup(v.peers, from)->0.info
            &&& d.cipher is Some
            &&& d.cipher->0.key == key->0
            &&& d.cipher->0.window.last_nonce == 0 && d.cipher->0.window.bitmap == 0
            &&& exists|i: int|
                0 <= i < d.paths.len() && (#[trigger] d.paths[i]).addr == addr
                    && d.paths[i].last_success == now
            &&& after.spent.contains(key->0)
            &&& lookup(after.peers, other) == lookup(v.peers, other)
            &&& lookup(after.data.peers, other) == lookup(v.data.peers, other)
            &&& after.data.metrics.handshake_successes
                == v.data.metrics.handshake_successes.wrapping_add(1)
        },
{
    if key is Some && finished && has_key(v.peers, from) && !v.spent.contains(key->0) {
        let p = lookup(v.peers, from)->0;
        let (data, cipher) = choose|data: DataPlaneView, cipher: Cipher|
            {
                &&& cipher.key == key->0
                &&& cipher.window == (ReplayWindow { last_nonce: 0, bitmap: 0 })
                &&& #[trigger] direct_path_noted(
                    v.data,
                    data,
                    from,
                    addr,
                    direct,
                    Some(cipher),
                    now,
                )
                &&& after == (EdgeView {
                    peers: put(
                        v.peers,
                        from,
                        PeerStateView { keyed: true, direct_addr: Some(addr), ..p },
                    ),
                    data: DataPlaneView {
                        metrics: handshake_counted(data.metrics, from, true),
                        ..data
                    },
                    spent: v.spent.push(key->0),
                    ..v
                })
            };
        put_is_insert(
            v.peers,
            from,
            PeerStateView { keyed: true, direct_addr: Some(addr), ..p },
        );
        assert(has_key(v.data.peers, from));
        crate::dataplane::a_direct_way_is_kept_with_its_key(
            v.data,
            data,
            from,
            addr,
            direct,
            Some(cipher),
            now,
            other,
        );
        assert(after.spent[v.spent.len() as int] == key->0);
    }
}

/// What a handshake comes to: a message that says nothing ends it without anything; the
/// side that began has its own key once it is over, the other side the key that was
/// carried to it, and only this one answers.
pub proof fn one_side_brings_the_key(
    began: bool,
    pending: Option<[u8; 32]>,
    read: Option<ShakeRead>,
    o: ShakeOutcome,
)
    requires
        outcome_of(began, pending, read, o),
    ensures
        read is None ==> o.key is None && o.response is None && !o.finished,
        read is Some ==> o.finished == read->0.finished && o.goes_on == !read->0.finished,
        read is Some && began && read->0.finished ==> o.key == pending,
        read is Some && began ==> o.response is None,
        read is Some && began && !read->0.finished ==> o.key is None,
        read is Some && !began && read->0.carried@.len() < 32 ==> o.key is None,
        read is Some && !began && read->0.carried@.len() >= 32 ==> o.key is Some && forall|i: int|
            0 <= i < 32 ==> #[trigger] o.key->0@[i] == read->0.carried@[i],
        read is Some && !began ==> o.response == read->0.reply,
{
    if read is Some && !began && read->0.carried@.len() >= 32 {
        assert forall|i: int| 0 <= i < 32 implies #[trigger] o.key->0@[i] == read->0.carried@[i] by {
            assert(read->0.carried@.subrange(0, 32)[i] == read->0.carried@[i]);
        }
    }
}

} // verus!
