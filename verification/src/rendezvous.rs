//! Which ways towards a peer are tried, and which one is kept.

use crate::common::NodeId;
use crate::net::SocketAddr;
use crate::proto::{Candidate, CandidateKind};
use crate::sort::{by_rank, by_rank_keeps_items, by_rank_orders, sort_by_rank, Ranked};
use vstd::prelude::*;

verus! {

#[derive(Debug, Clone, Copy)]
pub struct CandidatePair {
    pub local: Candidate,
    pub remote: Candidate,
    pub score: u32,
}

/// How a way towards a peer has done so far; the round trip time is in
/// nanoseconds.
#[derive(Debug, Clone, Copy)]
pub struct PathScore {
    pub addr: SocketAddr,
    pub rtt: Option<u64>,
    pub loss_basis_points: u16,
    pub relay: bool,
}

#[derive(Debug, Clone, Copy)]
pub struct PathUpgrade {
    pub peer: NodeId,
    pub preferred: SocketAddr,
    pub relay_fallback: Option<SocketAddr>,
}

/// What a pair of candidates is worth beyond their own priorities.
pub open spec fn bonus(left: CandidateKind, right: CandidateKind) -> u32 {
    match (left, right) {
        (CandidateKind::HostLan, CandidateKind::HostLan) => 40,
        (CandidateKind::HostIpv6, CandidateKind::HostIpv6) => 30,
        (CandidateKind::ServerReflexive, CandidateKind::ServerReflexive) => 20,
        (CandidateKind::Relay, CandidateKind::Relay) => 0,
        _ => 10,
    }
}

fn locality_bonus(left: &Candidate, right: &Candidate) -> (b: u32)
    ensures
        b == bonus(left.kind, right.kind),
        b <= 40,
{
    match (left.kind, right.kind) {
        (CandidateKind::HostLan, CandidateKind::HostLan) => 40,
        (CandidateKind::HostIpv6, CandidateKind::HostIpv6) => 30,
        (CandidateKind::ServerReflexive, CandidateKind::ServerReflexive) => 20,
        (CandidateKind::Relay, CandidateKind::Relay) => 0,
        _ => 10,
    }
}

/// The sum of the priorities and the bonus.
pub open spec fn pair_score(left: Candidate, right: Candidate) -> int {
    left.priority + right.priority + bonus(left.kind, right.kind)
}

/// A local and a remote candidate with their score.
pub open spec fn pair_of(left: Candidate, right: Candidate) -> CandidatePair {
    CandidatePair { local: left, remote: right, score: pair_score(left, right) as u32 }
}

/// Each local candidate with each remote one, in the order of both lists.
pub open spec fn all_pairs(local: Seq<Candidate>, remote: Seq<Candidate>) -> Seq<CandidatePair> {
    Seq::new(
        local.len() * remote.len(),
        |i: int| pair_of(local[i / remote.len() as int], remote[i % remote.len() as int]),
    )
}

impl Ranked for CandidatePair {
    open spec fn rank(self) -> u64 {
        self.score as u64
    }

    fn rank_value(&self) -> (r: u64) {
        self.score as u64
    }
}

/// No score is too big for its number.
pub open spec fn scores_fit(local: Seq<Candidate>, remote: Seq<Candidate>) -> bool {
    forall|i: int, j: int|
        0 <= i < local.len() && 0 <= j < remote.len() ==> pair_score(
            #[trigger] local[i],
            #[trigger] remote[j],
        ) <= u32::MAX
}

/// Whether no score is too big for its number.
pub fn scores_do_fit(local: &[Candidate], remote: &[Candidate]) -> (r: bool)
    ensures
        r == scores_fit(local@, remote@),
{
    let n: usize = local.len();
    let m: usize = remote.len();
    for i in 0..n
        invariant
            n == local@.len(),
            m == remote@.len(),
            forall|a: int, b: int|
                0 <= a < i && 0 <= b < m ==> pair_score(
                    #[trigger] local@[a],
                    #[trigger] remote@[b],
                ) <= u32::MAX,
    {
        for j in 0..m
            invariant
                i < n,
                n == local@.len(),
                m == remote@.len(),
                forall|b: int|
                    0 <= b < j ==> pair_score(local@[i as int], #[trigger] remote@[b])
                        <= u32::MAX,
        {
            let total: u64 = local[i].priority as u64 + remote[j].priority as u64 + locality_bonus(
                &local[i],
                &remote[j],
            ) as u64;
            if total > 0xffff_ffff {
                assert(pair_score(local@[i as int], remote@[j as int]) > u32::MAX);
                return false;
            }
        }
    }
    true
}

/// All pairs of candidates, the best first; equally good ones in the order of
/// the lists.
pub fn build_candidate_pairs(local: &[Candidate], remote: &[Candidate]) -> (r: Vec<CandidatePair>)
    requires
        scores_fit(local@, remote@),
    ensures
        r@ == by_rank(all_pairs(local@, remote@)),
{
    let mut pairs: Vec<CandidatePair> = Vec::new();
    let n: usize = local.len();
    let m: usize = remote.len();
    let ghost target = all_pairs(local@, remote@);
    assert(0 * m == 0);
    for i in 0..n
        invariant
            n == local@.len(),
            m == remote@.len(),
            scores_fit(local@, remote@),
            target == all_pairs(local@, remote@),
            pairs@.len() == i * m,
            forall|k: int| 0 <= k < i * m ==> #[trigger] pairs@[k] == target[k],
    {
        assert(i * m + m <= n * m) by (nonlinear_arith)
            requires
                i + 1 <= n,
        ;
        for j in 0..m
            invariant
                n == local@.len(),
                m == remote@.len(),
                i < n,
                i * m + m <= n * m,
                scores_fit(local@, remote@),
                target == all_pairs(local@, remote@),
                pairs@.len() == i * m + j,
                forall|k: int| 0 <= k < i * m + j ==> #[trigger] pairs@[k] == target[k],
        {
            let score: u32 = local[i].priority + remote[j].priority + locality_bonus(
                &local[i],
                &remote[j],
            );
            proof {
                let k = i * m + j;
                vstd::arithmetic::div_mod::lemma_fundamental_div_mod_converse(
                    k,
                    m as int,
                    i as int,
                    j as int,
                );
                assert(i * m == m * i) by (nonlinear_arith);
            }
            pairs.push(CandidatePair { local: local[i], remote: remote[j], score });
        }
        assert((i + 1) * m == i * m + m) by (nonlinear_arith);
    }
    assert(pairs@ =~= target);
    sort_by_rank(pairs)
}

/// Of two ways the better one is direct, and then the quicker one; an unknown
/// time counts as 999 milliseconds.
pub open spec fn better(a: PathScore, b: PathScore) -> bool {
    (!a.relay && b.relay) || (a.relay == b.relay && assumed_rtt(a) < assumed_rtt(b))
}

/// The time of a way, or what is taken for it.
pub open spec fn assumed_rtt(p: PathScore) -> u64 {
    match p.rtt {
        Some(t) => t,
        None => 999_000_000,
    }
}

/// The first way that no other is better than.
pub open spec fn best_at(paths: Seq<PathScore>, i: int) -> bool {
    &&& 0 <= i < paths.len()
    &&& forall|j: int| 0 <= j < paths.len() ==> !better(#[trigger] paths[j], paths[i])
    &&& forall|j: int| 0 <= j < i ==> better(paths[i], #[trigger] paths[j])
}

fn rtt_or_default(p: &PathScore) -> (t: u64)
    ensures
        t == assumed_rtt(*p),
{
    match p.rtt {
        Some(t) => t,
        None => 999_000_000,
    }
}

/// The way to move to: the first of the best ones.
pub fn choose_upgrade(
    peer: NodeId,
    relay_fallback: Option<SocketAddr>,
    scored_paths: &[PathScore],
) -> (r: Option<PathUpgrade>)
    ensures
        r is None <==> scored_paths@.len() == 0,
        r is Some ==> exists|i: int| #[trigger]
            best_at(scored_paths@, i) && r->0 == (PathUpgrade {
                peer,
                preferred: scored_paths@[i].addr,
                relay_fallback,
            }),
{
    let n: usize = scored_paths.len();
    if n == 0 {
        return None;
    }
    let mut best: usize = 0;
    let mut i: usize = 1;
    while i < n
        invariant
            n == scored_paths@.len(),
            1 <= i <= n,
            best < i,
            forall|j: int|
                0 <= j < i ==> !better(#[trigger] scored_paths@[j], scored_paths@[best as int]),
            forall|j: int|
                0 <= j < best ==> better(scored_paths@[best as int], #[trigger] scored_paths@[j]),
        decreases n - i,
    {
        let a = &scored_paths[i];
        let b = &scored_paths[best];
        let is_better = (!a.relay && b.relay) || (a.relay == b.relay && rtt_or_default(a)
            < rtt_or_default(b));
        if is_better {
            best = i;
        }
        i += 1;
    }
    assert(best_at(scored_paths@, best as int));
    Some(PathUpgrade { peer, preferred: scored_paths[best].addr, relay_fallback })
}

/// Every candidate of one side is paired with every one of the other, and the
/// pairs come in the order of their scores, highest first.
pub proof fn all_pairs_are_tried_best_first(
    local: Seq<Candidate>,
    remote: Seq<Candidate>,
    i: int,
    j: int,
)
    requires
        scores_fit(local, remote),
        0 <= i < local.len(),
        0 <= j < remote.len(),
    ensures
        by_rank(all_pairs(local, remote)).len() == local.len() * remote.len(),
        exists|k: int|
            0 <= k < by_rank(all_pairs(local, remote)).len() && (#[trigger] by_rank(
                all_pairs(local, remote),
            )[k]).local == local[i] && by_rank(all_pairs(local, remote))[k].remote == remote[j]
                && by_rank(all_pairs(local, remote))[k].score == pair_score(local[i], remote[j]),
        forall|k: int, l: int|
            0 <= k < l < by_rank(all_pairs(local, remote)).len() ==> (#[trigger] by_rank(
                all_pairs(local, remote),
            )[k]).score >= (#[trigger] by_rank(all_pairs(local, remote))[l]).score,
{
    let all = all_pairs(local, remote);
    let n = remote.len() as int;
    let k = i * n + j;
    assert(0 <= k < local.len() * n && k / n == i && k % n == j) by (nonlinear_arith)
        requires
            k == i * n + j,
            0 <= i < local.len(),
            0 <= j < n,
    ;
    assert(all[k] == pair_of(local[i], remote[j]));
    by_rank_orders(all);
    by_rank_keeps_items(all, all[k]);
    assert(all.contains(all[k]));
    let sorted = by_rank(all);
    let m = sorted.index_of(all[k]);
    assert(sorted[m] == all[k]);
    assert forall|k: int, l: int| 0 <= k < l < sorted.len() implies (#[trigger] sorted[k]).score >= (
    #[trigger] sorted[l]).score by {
        assert(sorted[k].rank() >= sorted[l].rank());
    }
}

/// A pair scores what both candidates do by themselves, and more the closer they
/// are: two on a local network gain most, then two with version 6, then two that
/// a server saw, then what does not match; two relays gain nothing. Which side is
/// which makes no difference.
pub proof fn closer_pairs_score_higher(a: Candidate, b: Candidate)
    ensures
        pair_score(a, b) == pair_score(b, a),
        a.priority + b.priority <= pair_score(a, b) <= a.priority + b.priority + 40,
        a.kind == CandidateKind::HostLan && b.kind == CandidateKind::HostLan ==> pair_score(a, b)
            == a.priority + b.priority + 40,
        a.kind == CandidateKind::HostIpv6 && b.kind == CandidateKind::HostIpv6 ==> pair_score(a, b)
            == a.priority + b.priority + 30,
        a.kind == CandidateKind::ServerReflexive && b.kind == CandidateKind::ServerReflexive
            ==> pair_score(a, b) == a.priority + b.priority + 20,
        a.kind == CandidateKind::Relay && b.kind == CandidateKind::Relay ==> pair_score(a, b)
            == a.priority + b.priority,
        a.kind != b.kind || a.kind == CandidateKind::PortPredicted ==> pair_score(a, b) == a.priority
            + b.priority + 10,
{
}

/// A way without a relay is preferred to one with a relay; among either, none is
/// quicker than the one that is moved to, where a way that was not measured counts
/// as one of 999 milliseconds; of equally good ones it is the first.
pub proof fn the_best_way_is_moved_to(paths: Seq<PathScore>, i: int, j: int)
    requires
        best_at(paths, i),
        0 <= j < paths.len(),
    ensures
        !paths[j].relay ==> !paths[i].relay,
        paths[j].relay == paths[i].relay ==> {
            let rtt = |p: PathScore|
                match p.rtt {
                    Some(t) => t as int,
                    None => 999_000_000int,
                };
            rtt(paths[i]) <= rtt(paths[j]) && (j < i ==> rtt(paths[i]) < rtt(paths[j]))
        },
{
    assert(!better(paths[j], paths[i]));
    if j < i {
        assert(better(paths[i], paths[j]));
    }
}

/// There is a best way among any.
pub proof fn some_way_is_best(paths: Seq<PathScore>) -> (i: int)
    requires
        paths.len() > 0,
    ensures
        best_at(paths, i),
    decreases paths.len(),
{
    if paths.len() == 1 {
        0
    } else {
        let short = paths.drop_last();
        let i = some_way_is_best(short);
        let last = paths.len() - 1;
        if better(paths[last], paths[i]) {
            assert forall|j: int| 0 <= j < last implies better(paths[last], #[trigger] paths[j]) by {
                assert(!better(short[j], short[i]));
            }
            last
        } else {
            assert forall|j: int| 0 <= j < paths.len() implies !better(#[trigger] paths[j], paths[i]) by {
                if j < last {
                    assert(!better(short[j], short[i]));
                }
            }
            assert forall|j: int| 0 <= j < i implies better(paths[i], #[trigger] paths[j]) by {
                assert(better(short[i], short[j]));
            }
            i
        }
    }
}

} // verus!
