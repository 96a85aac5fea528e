//! Which flooded packets have been seen of late, so that none is taken twice.

use crate::common::{NodeId, PacketId};
use std::collections::VecDeque;
use vstd::prelude::*;

verus! {

/// Nanoseconds for which a flooded packet is remembered.
pub const SEEN_FLOOD_WINDOW: u64 = 30_000_000_000;

/// How many flooded packets are remembered at most.
pub const SEEN_FLOOD_CAPACITY: usize = 4096;

/// A flooded packet and when it was seen.
#[derive(Debug, Clone, Copy)]
pub struct Seen {
    pub origin: NodeId,
    pub packet_id: PacketId,
    pub seen_at: u64,
}

/// A packet is remembered.
pub open spec fn remembered(s: Seq<Seen>, origin: NodeId, packet_id: PacketId) -> bool {
    exists|i: int|
        0 <= i < s.len() && (#[trigger] s[i]).origin == origin && s[i].packet_id == packet_id
}

/// A packet was seen too long ago to be remembered.
pub open spec fn outdated(e: Seen, now: u64) -> bool {
    now - e.seen_at > SEEN_FLOOD_WINDOW
}

/// What is left once the outdated packets at the front are forgotten.
pub open spec fn without_outdated(s: Seq<Seen>, now: u64) -> Seq<Seen>
    decreases s.len(),
{
    if s.len() > 0 && outdated(s[0], now) {
        without_outdated(s.subrange(1, s.len() as int), now)
    } else {
        s
    }
}

/// What is left of the packets: the newest ones, as many as are remembered at
/// most, without the outdated ones at the front.
pub open spec fn pruned(s: Seq<Seen>, now: u64) -> Seq<Seen> {
    if s.len() > SEEN_FLOOD_CAPACITY {
        without_outdated(s.subrange(s.len() - SEEN_FLOOD_CAPACITY, s.len() as int), now)
    } else {
        without_outdated(s, now)
    }
}

/// The packets that are remembered once one more was met.
pub open spec fn noted(s: Seq<Seen>, origin: NodeId, packet_id: PacketId, now: u64) -> Seq<Seen> {
    let kept = pruned(s, now);
    if remembered(kept, origin, packet_id) {
        kept
    } else {
        pruned(kept.push(Seen { origin, packet_id, seen_at: now }), now)
    }
}

/// A packet that is met is new.
pub open spec fn is_new(s: Seq<Seen>, origin: NodeId, packet_id: PacketId, now: u64) -> bool {
    !remembered(pruned(s, now), origin, packet_id)
}

/// The flooded packets seen of late, oldest first.
pub struct SeenFloodPackets {
    pub order: VecDeque<Seen>,
}

impl SeenFloodPackets {
    /// No more packets are remembered than may be, and none twice.
    pub open spec fn wf(self) -> bool {
        self.order@.len() <= SEEN_FLOOD_CAPACITY && each_once(self.order@)
    }

    pub fn new() -> (s: SeenFloodPackets)
        ensures
            s.wf(),
            s.order@ == Seq::<Seen>::empty(),
    {
        SeenFloodPackets { order: VecDeque::new() }
    }

    /// Whether a packet is met for the first time. It is remembered then.
    pub fn insert_if_new(&mut self, origin: NodeId, packet_id: PacketId, now: u64) -> (r: bool)
        requires
            old(self).wf(),
        ensures
            final(self).wf(),
            r == is_new(old(self).order@, origin, packet_id, now),
            final(self).order@ == noted(old(self).order@, origin, packet_id, now),
    {
        proof {
            pruning_keeps_order(self.order@, now);
        }
        self.prune(now);
        if self.contains(&origin, &packet_id) {
            return false;
        }
        let ghost kept = self.order@;
        self.order.push_back(Seen { origin, packet_id, seen_at: now });
        proof {
            let longer = kept.push(Seen { origin, packet_id, seen_at: now });
            assert(each_once(longer)) by {
                assert forall|i: int, j: int| 0 <= i < j < longer.len() implies !(
                longer[i].origin == longer[j].origin && longer[i].packet_id
                    == longer[j].packet_id) by {
                    if j == kept.len() {
                        assert(longer[i] == kept[i]);
                    } else {
                        assert(longer[i] == kept[i]);
                        assert(longer[j] == kept[j]);
                    }
                }
            }
            pruning_keeps_order(longer, now);
        }
        self.prune(now);
        true
    }

    fn contains(&self, origin: &NodeId, packet_id: &PacketId) -> (r: bool)
        ensures
            r == remembered(self.order@, *origin, *packet_id),
    {
        let n: usize = self.order.len();
        for i in 0..n
            invariant
                n == self.order@.len(),
                forall|k: int|
                    0 <= k < i ==> !((#[trigger] self.order@[k]).origin == *origin
                        && self.order@[k].packet_id == *packet_id),
        {
            let e = self.order[i];
            if e.origin == *origin && e.packet_id.0 == packet_id.0 {
                assert(self.order@[i as int].packet_id == *packet_id);
                return true;
            }
        }
        false
    }

    fn prune(&mut self, now: u64)
        ensures
            final(self).order@ == pruned(old(self).order@, now),
    {
        let ghost start = self.order@;
        assert(start.subrange(0, start.len() as int) =~= start);
        while self.order.len() > SEEN_FLOOD_CAPACITY
            invariant
                self.order@.len() <= start.len(),
                self.order@ == start.subrange(start.len() - self.order@.len(), start.len() as int),
                self.order@.len() >= SEEN_FLOOD_CAPACITY || self.order@.len() == start.len(),
            decreases self.order@.len(),
        {
            let ghost before = self.order@;
            let _ = self.order.pop_front();
            assert(self.order@ =~= before.subrange(1, before.len() as int));
            assert(self.order@ =~= start.subrange(
                start.len() - self.order@.len(),
                start.len() as int,
            ));
        }
        let ghost newest = self.order@;
        while self.order.len() > 0
            invariant
                without_outdated(self.order@, now) == without_outdated(newest, now),
            ensures
                self.order@ == without_outdated(newest, now),
            decreases self.order@.len(),
        {
            let e = self.order[0];
            if now <= e.seen_at || now - e.seen_at <= SEEN_FLOOD_WINDOW {
                break;
            }
            let ghost before = self.order@;
            let _ = self.order.pop_front();
            assert(self.order@ =~= before.subrange(1, before.len() as int));
        }
    }
}

/// No packet stands in the list twice.
pub open spec fn each_once(s: Seq<Seen>) -> bool {
    forall|i: int, j: int|
        0 <= i < j < s.len() ==> !((#[trigger] s[i]).origin == (#[trigger] s[j]).origin
            && s[i].packet_id == s[j].packet_id)
}

proof fn without_outdated_is_suffix(s: Seq<Seen>, now: u64)
    ensures
        without_outdated(s, now).len() <= s.len(),
        without_outdated(s, now) == s.subrange(
            s.len() - without_outdated(s, now).len(),
            s.len() as int,
        ),
        forall|i: int|
            0 <= i < s.len() - without_outdated(s, now).len() ==> outdated(#[trigger] s[i], now),
    decreases s.len(),
{
    if s.len() > 0 && outdated(s[0], now) {
        let rest = s.subrange(1, s.len() as int);
        without_outdated_is_suffix(rest, now);
        let left = without_outdated(rest, now);
        assert(left =~= s.subrange(s.len() - left.len(), s.len() as int));
        assert forall|i: int| 0 <= i < s.len() - left.len() implies outdated(
            #[trigger] s[i],
            now,
        ) by {
            if i > 0 {
                assert(s[i] == rest[i - 1]);
            }
        }
    } else {
        assert(s.subrange(0, s.len() as int) =~= s);
    }
}

proof fn pruning_keeps_order(s: Seq<Seen>, now: u64)
    requires
        each_once(s),
    ensures
        each_once(pruned(s, now)),
        pruned(s, now).len() <= SEEN_FLOOD_CAPACITY,
{
    let newest = if s.len() > SEEN_FLOOD_CAPACITY {
        s.subrange(s.len() - SEEN_FLOOD_CAPACITY, s.len() as int)
    } else {
        s
    };
    without_outdated_is_suffix(newest, now);
    let left = pruned(s, now);
    assert forall|i: int, j: int| 0 <= i < j < left.len() implies !(left[i].origin
        == left[j].origin && left[i].packet_id == left[j].packet_id) by {
        let off = s.len() - left.len();
        assert(left[i] == s[off + i]);
        assert(left[j] == s[off + j]);
    }
}

/// A packet that was seen within the window is not taken again, as long as no
/// more packets are remembered than may be.
pub proof fn seen_is_not_new(s: Seq<Seen>, i: int, now: u64)
    requires
        s.len() <= SEEN_FLOOD_CAPACITY,
        0 <= i < s.len(),
        !outdated(s[i], now),
    ensures
        !is_new(s, s[i].origin, s[i].packet_id, now),
{
    without_outdated_is_suffix(s, now);
    let left = without_outdated(s, now);
    let off = s.len() - left.len();
    assert(i >= off);
    assert(left[i - off] == s[i]);
}

/// A packet that was just met is remembered, whether it was new or not.
pub proof fn met_is_remembered(s: Seq<Seen>, origin: NodeId, packet_id: PacketId, now: u64)
    ensures
        remembered(noted(s, origin, packet_id, now), origin, packet_id),
{
    let kept = pruned(s, now);
    if !remembered(kept, origin, packet_id) {
        let newer = Seen { origin, packet_id, seen_at: now };
        let longer = kept.push(newer);
        let newest = if longer.len() > SEEN_FLOOD_CAPACITY {
            longer.subrange(longer.len() - SEEN_FLOOD_CAPACITY, longer.len() as int)
        } else {
            longer
        };
        without_outdated_is_suffix(newest, now);
        let left = pruned(longer, now);
        assert(newest[newest.len() - 1] == newer);
        assert(left.len() > 0);
        assert(left[left.len() - 1] == newer);
    }
}

/// What is remembered after a run: packets that were met one after the other,
/// each at its time.
pub open spec fn seen_after(run: Seq<Seen>) -> Seq<Seen>
    decreases run.len(),
{
    if run.len() == 0 {
        Seq::empty()
    } else {
        let e = run.last();
        noted(seen_after(run.drop_last()), e.origin, e.packet_id, e.seen_at)
    }
}

/// The packets of a run that were new when they were met.
pub open spec fn accepted(run: Seq<Seen>) -> Seq<Seen>
    decreases run.len(),
{
    if run.len() == 0 {
        Seq::empty()
    } else {
        let before = accepted(run.drop_last());
        let e = run.last();
        if is_new(seen_after(run.drop_last()), e.origin, e.packet_id, e.seen_at) {
            before.push(e)
        } else {
            before
        }
    }
}

/// The clock never goes back in a run, and none of it lies ahead.
pub open spec fn in_time(run: Seq<Seen>, now: u64) -> bool {
    &&& forall|i: int, j: int|
        0 <= i <= j < run.len() ==> (#[trigger] run[i]).seen_at <= (#[trigger] run[j]).seen_at
    &&& forall|i: int| 0 <= i < run.len() ==> (#[trigger] run[i]).seen_at <= now
}

/// A packet was accepted within the window, and since then fewer were than are
/// remembered.
pub open spec fn accepted_lately(
    run: Seq<Seen>,
    origin: NodeId,
    packet_id: PacketId,
    now: u64,
) -> bool {
    exists|i: int|
        {
            &&& 0 <= i < accepted(run).len()
            &&& (#[trigger] accepted(run)[i]).origin == origin
            &&& accepted(run)[i].packet_id == packet_id
            &&& now - accepted(run)[i].seen_at <= SEEN_FLOOD_WINDOW
            &&& accepted(run).len() - 1 - i < SEEN_FLOOD_CAPACITY
        }
}

/// The last packets of a list are remembered, and those before them are outdated
/// or too many.
spec fn holds_last(s: Seq<Seen>, all: Seq<Seen>, now: u64) -> bool {
    &&& s.len() <= all.len()
    &&& s.len() <= SEEN_FLOOD_CAPACITY
    &&& s == all.subrange(all.len() - s.len(), all.len() as int)
    &&& forall|i: int|
        0 <= i < all.len() - s.len() ==> outdated(#[trigger] all[i], now) || all.len() - 1 - i
            >= SEEN_FLOOD_CAPACITY
}

proof fn pruning_holds_last(s: Seq<Seen>, all: Seq<Seen>, before: u64, now: u64)
    requires
        holds_last(s, all, before),
        before <= now,
    ensures
        holds_last(pruned(s, now), all, now),
{
    without_outdated_is_suffix(s, now);
    let left = pruned(s, now);
    let off = all.len() - s.len();
    assert(left =~= all.subrange(all.len() - left.len(), all.len() as int));
    assert forall|i: int| 0 <= i < all.len() - left.len() implies outdated(#[trigger] all[i], now)
        || all.len() - 1 - i >= SEEN_FLOOD_CAPACITY by {
        if i >= off {
            assert(s[i - off] == all[i]);
        }
    }
}

proof fn adding_holds_last(s: Seq<Seen>, all: Seq<Seen>, e: Seen, now: u64)
    requires
        holds_last(s, all, now),
    ensures
        holds_last(pruned(s.push(e), now), all.push(e), now),
{
    let longer = s.push(e);
    let more = all.push(e);
    let newest = if longer.len() > SEEN_FLOOD_CAPACITY {
        longer.subrange(longer.len() - SEEN_FLOOD_CAPACITY, longer.len() as int)
    } else {
        longer
    };
    without_outdated_is_suffix(newest, now);
    let left = pruned(longer, now);
    let off = more.len() - newest.len();
    assert(newest =~= more.subrange(off, more.len() as int));
    assert(left =~= more.subrange(more.len() - left.len(), more.len() as int));
    assert forall|i: int| 0 <= i < more.len() - left.len() implies outdated(
        #[trigger] more[i],
        now,
    ) || more.len() - 1 - i >= SEEN_FLOOD_CAPACITY by {
        if i >= off {
            assert(newest[i - off] == more[i]);
        } else if i < all.len() - s.len() {
            assert(more[i] == all[i]);
        }
    }
}

proof fn run_holds_last(run: Seq<Seen>, now: u64)
    requires
        in_time(run, now),
    ensures
        holds_last(seen_after(run), accepted(run), now),
        in_time(accepted(run), now),
    decreases run.len(),
{
    if run.len() > 0 {
        let e = run.last();
        let short = run.drop_last();
        assert(in_time(short, e.seen_at)) by {
            assert forall|i: int| 0 <= i < short.len() implies (#[trigger] short[i]).seen_at
                <= e.seen_at by {
                assert(run[i].seen_at <= run[run.len() - 1].seen_at);
            }
            assert forall|i: int, j: int| 0 <= i <= j < short.len() implies (
            #[trigger] short[i]).seen_at <= (#[trigger] short[j]).seen_at by {
                assert(run[i].seen_at <= run[j].seen_at);
            }
        }
        run_holds_last(short, e.seen_at);
        let s = seen_after(short);
        let all = accepted(short);
        pruning_holds_last(s, all, e.seen_at, e.seen_at);
        let kept = pruned(s, e.seen_at);
        if is_new(s, e.origin, e.packet_id, e.seen_at) {
            assert(e == Seen { origin: e.origin, packet_id: e.packet_id, seen_at: e.seen_at });
            adding_holds_last(kept, all, e, e.seen_at);
        }
        assert(run[run.len() - 1].seen_at <= now);
        assert(holds_last(seen_after(run), accepted(run), e.seen_at));
    } else {
        assert(seen_after(run) =~= accepted(run).subrange(0, 0));
    }
}

/// Over a run with a clock that never goes back, a flooded packet is new exactly
/// when it was not accepted within the last thirty seconds with fewer than 4096
/// accepted since.
pub proof fn new_unless_accepted_lately(
    run: Seq<Seen>,
    origin: NodeId,
    packet_id: PacketId,
    now: u64,
)
    requires
        in_time(run, now),
    ensures
        is_new(seen_after(run), origin, packet_id, now) <==> !accepted_lately(
            run,
            origin,
            packet_id,
            now,
        ),
{
    run_holds_last(run, now);
    let s = seen_after(run);
    let all = accepted(run);
    pruning_holds_last(s, all, now, now);
    without_outdated_is_suffix(s, now);
    let kept = pruned(s, now);
    let off = all.len() - kept.len();
    if remembered(kept, origin, packet_id) {
        let i = choose|i: int|
            0 <= i < kept.len() && (#[trigger] kept[i]).origin == origin && kept[i].packet_id
                == packet_id;
        first_is_not_outdated(s, now);
        assert(kept[i] == all[off + i]);
        assert(kept[0] == all[off]);
        assert(all[off].seen_at <= all[off + i].seen_at);
        assert(accepted(run)[off + i].origin == origin);
    }
    if accepted_lately(run, origin, packet_id, now) {
        let i = choose|i: int|
            {
                &&& 0 <= i < all.len()
                &&& (#[trigger] all[i]).origin == origin
                &&& all[i].packet_id == packet_id
                &&& now - all[i].seen_at <= SEEN_FLOOD_WINDOW
                &&& all.len() - 1 - i < SEEN_FLOOD_CAPACITY
            };
        assert(i >= off);
        assert(kept[i - off] == all[i]);
    }
}

proof fn first_is_not_outdated(s: Seq<Seen>, now: u64)
    ensures
        without_outdated(s, now).len() > 0 ==> !outdated(without_outdated(s, now)[0], now),
    decreases s.len(),
{
    if s.len() > 0 && outdated(s[0], now) {
        first_is_not_outdated(s.subrange(1, s.len() as int), now);
    }
}

/// A flooded packet is met as new again only after thirty seconds: of at most 4096 that
/// are remembered, one that was met within this time is not new.
pub proof fn packets_are_remembered_for_thirty_seconds(
    s: Seq<Seen>,
    i: int,
    origin: NodeId,
    packet_id: PacketId,
    now: u64,
)
    requires
        s.len() <= 4096,
    ensures
        0 <= i < s.len() && s[i].origin == origin && s[i].packet_id == packet_id && now
            - s[i].seen_at <= 30_000_000_000 ==> !is_new(s, origin, packet_id, now),
        (forall|k: int|
            0 <= k < s.len() ==> (#[trigger] s[k]).origin != origin || s[k].packet_id != packet_id)
            ==> is_new(s, origin, packet_id, now),
        (forall|k: int| 0 <= k < s.len() ==> now - (#[trigger] s[k]).seen_at > 30_000_000_000)
            ==> is_new(s, origin, packet_id, now),
{
    without_outdated_is_suffix(s, now);
    let left = pruned(s, now);
    if 0 <= i < s.len() && s[i].origin == origin && s[i].packet_id == packet_id && now
        - s[i].seen_at <= 30_000_000_000 {
        seen_is_not_new(s, i, now);
    }
    if remembered(left, origin, packet_id) {
        let k = choose|k: int|
            0 <= k < left.len() && (#[trigger] left[k]).origin == origin && left[k].packet_id
                == packet_id;
        let j = k + s.len() - left.len();
        assert(left[k] == s[j]);
        first_is_not_outdated(s, now);
        assert(s[j].origin == origin);
        if forall|k: int| 0 <= k < s.len() ==> now - (#[trigger] s[k]).seen_at > 30_000_000_000 {
            let first = s[s.len() - left.len()];
            assert(left[0] == first);
            assert(now - first.seen_at > 30_000_000_000);
        }
    }
}

} // verus!
