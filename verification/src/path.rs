//! The ways by which a peer is reached, and which one is in use.
//!
//! How good a way is comes as a key that orders like the score it stands for:
//! the lower the better. The measurements behind a score are kept with the way,
//! in the form in which they were handed in.

use crate::net::SocketAddr;
use vstd::prelude::*;

verus! {

/// The bits of the single precision numbers that a way has been measured with.
#[derive(Debug, Clone, Copy, PartialEq, Eq, Structural)]
pub struct PathMetrics {
    pub rtt_bits: u32,
    pub jitter_bits: u32,
    pub loss_bits: u32,
    pub score_key: u32,
}

/// What a way is taken to be like before it was measured: no jitter and no loss,
/// over a relay 100 milliseconds and with the penalty of a relay a score of 180,
/// otherwise 200 milliseconds and a score of 200.
pub open spec fn first_metrics(is_relay: bool) -> PathMetrics {
    if is_relay {
        PathMetrics { rtt_bits: 0x42c8_0000, jitter_bits: 0, loss_bits: 0, score_key: 0x4334_0000 }
    } else {
        PathMetrics { rtt_bits: 0x4348_0000, jitter_bits: 0, loss_bits: 0, score_key: 0x4348_0000 }
    }
}

/// The key of the greatest number; a way that scores it is never taken.
pub const WORST_KEY: u32 = 0x7f7f_ffff;

/// Nanoseconds for which a way counts as alive after it was last heard of.
pub const RECENT: u64 = 5_000_000_000;

#[derive(Debug, Clone, Copy)]
pub struct PathInfo {
    pub addr: SocketAddr,
    pub is_relay: bool,
    pub metrics: PathMetrics,
    pub last_success: u64,
}

/// A way that nothing is known of yet.
pub open spec fn new_path(addr: SocketAddr, is_relay: bool, now: u64) -> PathInfo {
    PathInfo {
        addr,
        is_relay,
        metrics: first_metrics(is_relay),
        last_success: now,
    }
}

impl PathInfo {
    pub fn new(addr: SocketAddr, is_relay: bool, now: u64) -> (p: PathInfo)
        ensures
            p == new_path(addr, is_relay, now),
    {
        PathInfo {
            addr,
            is_relay,
            metrics: if is_relay {
                PathMetrics {
                    rtt_bits: 0x42c8_0000,
                    jitter_bits: 0,
                    loss_bits: 0,
                    score_key: 0x4334_0000,
                }
            } else {
                PathMetrics {
                    rtt_bits: 0x4348_0000,
                    jitter_bits: 0,
                    loss_bits: 0,
                    score_key: 0x4348_0000,
                }
            },
            last_success: now,
        }
    }
}

/// A way that was heard of within the last five seconds.
pub open spec fn recent(p: PathInfo, now: u64) -> bool {
    now - p.last_success < RECENT
}

/// A way that can be taken.
pub open spec fn usable(p: PathInfo, now: u64) -> bool {
    recent(p, now) && p.metrics.score_key < WORST_KEY
}

/// The way to take: the first of the best ones that can be taken, or else the
/// first of all.
pub open spec fn best_index(paths: Seq<PathInfo>, now: u64, i: int) -> bool {
    if exists|j: int| 0 <= j < paths.len() && usable(#[trigger] paths[j], now) {
        &&& 0 <= i < paths.len()
        &&& usable(paths[i], now)
        &&& forall|j: int|
            0 <= j < paths.len() && usable(#[trigger] paths[j], now) ==> paths[i].metrics.score_key
                <= paths[j].metrics.score_key
        &&& forall|j: int|
            0 <= j < i && usable(#[trigger] paths[j], now) ==> paths[i].metrics.score_key
                < paths[j].metrics.score_key
    } else {
        i == 0
    }
}

/// Some way has the address.
pub open spec fn has_path(paths: Seq<PathInfo>, addr: SocketAddr) -> bool {
    exists|i: int| 0 <= i < paths.len() && (#[trigger] paths[i]).addr == addr
}

/// The first way with the address.
pub open spec fn path_at(paths: Seq<PathInfo>, addr: SocketAddr, i: int) -> bool {
    &&& 0 <= i < paths.len()
    &&& paths[i].addr == addr
    &&& forall|j: int| 0 <= j < i ==> (#[trigger] paths[j]).addr != addr
}

/// The ways with a new one behind them, unless its address is there already.
pub open spec fn with_path(
    paths: Seq<PathInfo>,
    addr: SocketAddr,
    is_relay: bool,
    now: u64,
) -> Seq<PathInfo> {
    if has_path(paths, addr) {
        paths
    } else {
        paths.push(new_path(addr, is_relay, now))
    }
}

pub struct PathManager {
    pub paths: Vec<PathInfo>,
    pub active_index: usize,
}

impl PathManager {
    /// There is a way in use.
    pub open spec fn wf(self) -> bool {
        self.active_index < self.paths@.len()
    }

    /// The relay is the one way at first.
    pub fn new(relay_addr: SocketAddr, now: u64) -> (m: PathManager)
        ensures
            m.wf(),
            m.paths@ == seq![new_path(relay_addr, true, now)],
            m.active_index == 0,
    {
        let mut paths: Vec<PathInfo> = Vec::new();
        paths.push(PathInfo::new(relay_addr, true, now));
        assert(paths@ =~= seq![new_path(relay_addr, true, now)]);
        PathManager { paths, active_index: 0 }
    }

    pub fn active_addr(&self) -> (a: SocketAddr)
        requires
            self.wf(),
        ensures
            a == self.paths@[self.active_index as int].addr,
    {
        self.paths[self.active_index].addr
    }

    pub fn is_active_relay(&self) -> (r: bool)
        requires
            self.wf(),
        ensures
            r == self.paths@[self.active_index as int].is_relay,
    {
        self.paths[self.active_index].is_relay
    }

    /// Where the first way with the address stands.
    pub fn position(&self, addr: &SocketAddr) -> (r: Option<usize>)
        ensures
            r is Some <==> has_path(self.paths@, *addr),
            r is Some ==> path_at(self.paths@, *addr, r->0 as int),
    {
        let n: usize = self.paths.len();
        for i in 0..n
            invariant
                n == self.paths@.len(),
                forall|k: int| 0 <= k < i ==> (#[trigger] self.paths@[k]).addr != *addr,
        {
            if self.paths[i].addr == *addr {
                assert(self.paths@[i as int].addr == *addr);
                return Some(i);
            }
        }
        None
    }

    /// Sees to it that there is a way with the address, and tells where it
    /// stands. A way that is there stays as it is.
    pub fn add_or_update_path(&mut self, addr: SocketAddr, is_relay: bool, now: u64) -> (i: usize)
        ensures
            final(self).paths@ == with_path(old(self).paths@, addr, is_relay, now),
            final(self).active_index == old(self).active_index,
            path_at(final(self).paths@, addr, i as int),
            old(self).wf() ==> final(self).wf(),
    {
        match self.position(&addr) {
            Some(i) => i,
            None => {
                self.paths.push(PathInfo::new(addr, is_relay, now));
                self.paths.len() - 1
            },
        }
    }

    /// Takes in what an answer over a way showed: the new measurements of the
    /// first way with the address, which was heard of now. Then the way to take
    /// is chosen anew.
    pub fn record_success(&mut self, addr: SocketAddr, metrics: PathMetrics, now: u64)
        requires
            old(self).wf(),
        ensures
            final(self).wf(),
            recorded(old(self).paths@, final(self).paths@, addr, metrics, Some(now)),
            best_index(final(self).paths@, now, final(self).active_index as int),
    {
        if let Some(i) = self.position(&addr) {
            let p = self.paths[i];
            self.paths[i] = PathInfo { metrics, last_success: now, ..p };
            assert(path_at(old(self).paths@, addr, i as int));
        }
        self.reevaluate(now);
    }

    /// Takes in that a way gave no answer: the new measurements of the first way
    /// with the address. Then the way to take is chosen anew.
    pub fn record_failure(&mut self, addr: SocketAddr, metrics: PathMetrics, now: u64)
        requires
            old(self).wf(),
        ensures
            final(self).wf(),
            recorded(old(self).paths@, final(self).paths@, addr, metrics, None),
            best_index(final(self).paths@, now, final(self).active_index as int),
    {
        if let Some(i) = self.position(&addr) {
            let p = self.paths[i];
            self.paths[i] = PathInfo { metrics, ..p };
            assert(path_at(old(self).paths@, addr, i as int));
        }
        self.reevaluate(now);
    }

    fn reevaluate(&mut self, now: u64)
        requires
            old(self).wf(),
        ensures
            final(self).wf(),
            final(self).paths@ == old(self).paths@,
            best_index(final(self).paths@, now, final(self).active_index as int),
    {
        let n: usize = self.paths.len();
        let mut best: usize = 0;
        let mut best_key: u32 = WORST_KEY;
        let ghost paths = self.paths@;
        for i in 0..n
            invariant
                n == paths.len(),
                paths == self.paths@,
                n > 0,
                best < n,
                best_key == WORST_KEY ==> best == 0 && forall|j: int|
                    0 <= j < i ==> !usable(#[trigger] paths[j], now),
                best_key < WORST_KEY ==> {
                    &&& best < i
                    &&& usable(paths[best as int], now)
                    &&& paths[best as int].metrics.score_key == best_key
                    &&& forall|j: int|
                        0 <= j < i && usable(#[trigger] paths[j], now) ==> best_key
                            <= paths[j].metrics.score_key
                    &&& forall|j: int|
                        0 <= j < best && usable(#[trigger] paths[j], now) ==> best_key
                            < paths[j].metrics.score_key
                },
                best_key <= WORST_KEY,
        {
            let p = &self.paths[i];
            let fresh = now <= p.last_success || now - p.last_success < RECENT;
            if fresh && p.metrics.score_key < best_key {
                best_key = p.metrics.score_key;
                best = i;
            }
        }
        self.active_index = best;
    }
}

/// How the outcome of a probe changes the ways.
pub open spec fn recorded(
    before: Seq<PathInfo>,
    after: Seq<PathInfo>,
    addr: SocketAddr,
    metrics: PathMetrics,
    heard: Option<u64>,
) -> bool {
    if has_path(before, addr) {
        exists|i: int| #[trigger]
            path_at(before, addr, i) && after == before.update(
                i,
                PathInfo {
                    metrics,
                    last_success: match heard {
                        Some(t) => t,
                        None => before[i].last_success,
                    },
                    ..before[i]
                },
            )
    } else {
        after == before
    }
}

/// The way in use was heard of within the last five seconds and scores best among
/// such ways, as soon as there is one that scores better than the worst; the first
/// way, which goes over the relay, is in use where there is none.
pub proof fn silent_ways_are_not_taken(paths: Seq<PathInfo>, now: u64, i: int)
    requires
        best_index(paths, now, i),
    ensures
        (exists|j: int|
            0 <= j < paths.len() && now - (#[trigger] paths[j]).last_success < 5_000_000_000
                && paths[j].metrics.score_key < 0x7f7f_ffff) ==> {
            &&& 0 <= i < paths.len()
            &&& now - paths[i].last_success < 5_000_000_000
            &&& paths[i].metrics.score_key < 0x7f7f_ffff
        },
        forall|j: int|
            0 <= j < paths.len() && now - (#[trigger] paths[j]).last_success < 5_000_000_000
                && paths[j].metrics.score_key < 0x7f7f_ffff ==> paths[i].metrics.score_key
                <= paths[j].metrics.score_key,
        (forall|j: int|
            0 <= j < paths.len() ==> now - (#[trigger] paths[j]).last_success >= 5_000_000_000
                || paths[j].metrics.score_key >= 0x7f7f_ffff) ==> i == 0,
{
    if exists|j: int|
        0 <= j < paths.len() && now - (#[trigger] paths[j]).last_success < 5_000_000_000
            && paths[j].metrics.score_key < 0x7f7f_ffff {
        let j = choose|j: int|
            0 <= j < paths.len() && now - (#[trigger] paths[j]).last_success < 5_000_000_000
                && paths[j].metrics.score_key < 0x7f7f_ffff;
        assert(usable(paths[j], now));
    }
    assert forall|j: int|
        0 <= j < paths.len() && now - (#[trigger] paths[j]).last_success < 5_000_000_000
            && paths[j].metrics.score_key < 0x7f7f_ffff implies paths[i].metrics.score_key
        <= paths[j].metrics.score_key by {
        assert(usable(paths[j], now));
    }
}

/// Of two ways that are heard of at one time the one with the lower score is used:
/// a way that scores worse than another recent one never is.
pub proof fn worse_ways_are_not_taken(paths: Seq<PathInfo>, now: u64, i: int, j: int)
    requires
        best_index(paths, now, i),
        0 <= j < paths.len(),
        paths[j].last_success <= now,
        now - paths[j].last_success < 5_000_000_000,
        paths[j].metrics.score_key < 0x7f7f_ffff,
    ensures
        0 <= i < paths.len(),
        paths[i].metrics.score_key <= paths[j].metrics.score_key,
        paths[i].metrics.score_key == paths[j].metrics.score_key ==> i <= j,
{
    assert(usable(paths[j], now));
}

/// The outcome of a probe changes one way at most: one with the address, which
/// gets the new measurements, and counts as heard of at the time of the answer, if
/// there was one. No way comes or goes.
pub proof fn a_probe_changes_its_way_only(
    before: Seq<PathInfo>,
    after: Seq<PathInfo>,
    addr: SocketAddr,
    metrics: PathMetrics,
    heard: Option<u64>,
)
    requires
        recorded(before, after, addr, metrics, heard),
    ensures
        after.len() == before.len(),
        forall|j: int|
            0 <= j < before.len() ==> {
                &&& (#[trigger] after[j]).addr == before[j].addr
                &&& after[j].is_relay == before[j].is_relay
                &&& before[j].addr != addr ==> after[j] == before[j]
                &&& heard is None ==> after[j].last_success == before[j].last_success
            },
        (exists|j: int| 0 <= j < before.len() && (#[trigger] before[j]).addr == addr)
            ==> exists|j: int|
            {
                &&& 0 <= j < after.len()
                &&& (#[trigger] after[j]).addr == addr
                &&& after[j].metrics == metrics
                &&& heard is Some ==> after[j].last_success == heard->0
                &&& forall|k: int| 0 <= k < before.len() && k != j ==> after[k] == before[k]
                &&& forall|k: int| 0 <= k < j ==> (#[trigger] before[k]).addr != addr
            },
{
    if has_path(before, addr) {
        let i = choose|i: int| #[trigger]
            path_at(before, addr, i) && after == before.update(
                i,
                PathInfo {
                    metrics,
                    last_success: match heard {
                        Some(t) => t,
                        None => before[i].last_success,
                    },
                    ..before[i]
                },
            );
        assert(after[i].addr == addr);
    }
}

/// A way is added once: whoever is offered an address twice knows it once, and the
/// ways that were there stay in their places.
pub proof fn ways_are_added_once(paths: Seq<PathInfo>, addr: SocketAddr, relay: bool, now: u64)
    ensures
        ({
            let more = with_path(paths, addr, relay, now);
            let known = exists|j: int| 0 <= j < paths.len() && (#[trigger] paths[j]).addr == addr;
            &&& known ==> more == paths
            &&& !known ==> more.len() == paths.len() + 1 && more.last().addr == addr
                && more.last().is_relay == relay && more.last().last_success == now
            &&& forall|j: int| 0 <= j < paths.len() ==> #[trigger] more[j] == paths[j]
            &&& with_path(more, addr, relay, now) == more
        }),
{
    let more = with_path(paths, addr, relay, now);
    if !has_path(paths, addr) {
        assert(more[paths.len() as int].addr == addr);
    }
}

/// Before anything is measured the relay is the better way.
pub proof fn the_relay_is_better_at_first(a: SocketAddr, b: SocketAddr, now: u64)
    ensures
        new_path(a, true, now).metrics.score_key < new_path(b, false, now).metrics.score_key,
        new_path(b, false, now).metrics.score_key < 0x7f7f_ffff,
        new_path(a, true, now).addr == a && new_path(a, true, now).is_relay,
        new_path(b, false, now).addr == b && !new_path(b, false, now).is_relay,
        new_path(a, true, now).last_success == now && new_path(b, false, now).last_success == now,
{
}

} // verus!
