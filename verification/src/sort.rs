//! Stable ordering by rank, and sorted lists of texts without repeats.

use crate::text::{chars_of, texts};
use vstd::prelude::*;

verus! {

/// What can be ordered by a number, highest first.
pub trait Ranked: Sized {
    spec fn rank(self) -> u64;

    fn rank_value(&self) -> (r: u64)
        ensures
            r == self.rank(),
    ;
}

/// Highest rank first.
pub open spec fn descending<T: Ranked>(s: Seq<T>) -> bool {
    forall|i: int, j: int|
        0 <= i < j < s.len() ==> (#[trigger] s[i]).rank() >= (#[trigger] s[j]).rank()
}

/// How many items at the front have at least this rank.
pub open spec fn place<T: Ranked>(s: Seq<T>, rank: u64) -> int
    decreases s.len(),
{
    if s.len() == 0 || s[0].rank() < rank {
        0
    } else {
        1 + place(s.subrange(1, s.len() as int), rank)
    }
}

/// The items with one more put behind those of at least its rank.
pub open spec fn ranked_insert<T: Ranked>(s: Seq<T>, x: T) -> Seq<T> {
    s.insert(place(s, x.rank()), x)
}

/// The items by rank, highest first; items of one rank keep their order.
pub open spec fn by_rank<T: Ranked>(s: Seq<T>) -> Seq<T>
    decreases s.len(),
{
    if s.len() == 0 {
        s
    } else {
        ranked_insert(by_rank(s.drop_last()), s.last())
    }
}

proof fn place_in_range<T: Ranked>(s: Seq<T>, rank: u64)
    ensures
        0 <= place(s, rank) <= s.len(),
        forall|i: int| 0 <= i < place(s, rank) ==> (#[trigger] s[i]).rank() >= rank,
        place(s, rank) < s.len() ==> s[place(s, rank)].rank() < rank,
    decreases s.len(),
{
    if s.len() == 0 || s[0].rank() < rank {
    } else {
        let rest = s.subrange(1, s.len() as int);
        place_in_range(rest, rank);
        assert forall|i: int| 0 <= i < place(s, rank) implies (#[trigger] s[i]).rank() >= rank by {
            if i > 0 {
                assert(s[i] == rest[i - 1]);
            }
        }
    }
}

/// Ordering keeps every item, as often as it was there, and puts higher ranks
/// first.
pub proof fn by_rank_orders<T: Ranked>(s: Seq<T>)
    ensures
        by_rank(s).len() == s.len(),
        by_rank(s).to_multiset() == s.to_multiset(),
        descending(by_rank(s)),
    decreases s.len(),
{
    broadcast use vstd::seq_lib::group_to_multiset_ensures;

    if s.len() > 0 {
        let front = s.drop_last();
        let x = s.last();
        by_rank_orders(front);
        let b = by_rank(front);
        let p = place(b, x.rank());
        place_in_range(b, x.rank());
        let r = b.insert(p, x);
        assert(s =~= front.push(x));
        assert forall|i: int, j: int| 0 <= i < j < r.len() implies (#[trigger] r[i]).rank() >= (
        #[trigger] r[j]).rank() by {
            let bi = if i < p {
                i
            } else {
                i - 1
            };
            let bj = if j < p {
                j
            } else {
                j - 1
            };
            if i == p {
                assert(r[j] == b[bj]);
                if bj > p {
                    assert(b[p].rank() >= b[bj].rank());
                }
            } else if j == p {
                assert(r[i] == b[bi]);
            } else {
                assert(r[i] == b[bi]);
                assert(r[j] == b[bj]);
            }
        }
    }
}

fn place_of<T: Ranked>(v: &Vec<T>, rank: u64) -> (p: usize)
    ensures
        p == place(v@, rank),
        p <= v@.len(),
{
    let n: usize = v.len();
    let mut i: usize = 0;
    assert(v@.subrange(0, n as int) =~= v@);
    while i < n && v[i].rank_value() >= rank
        invariant
            n == v@.len(),
            i <= n,
            place(v@, rank) == i + place(v@.subrange(i as int, n as int), rank),
        decreases n - i,
    {
        assert(v@.subrange(i as int, n as int).subrange(1, n - i) =~= v@.subrange(
            i + 1,
            n as int,
        ));
        i += 1;
    }
    proof {
        place_in_range(v@, rank);
    }
    i
}

/// Orders items by rank, highest first; items of one rank keep their order.
pub fn sort_by_rank<T: Ranked>(items: Vec<T>) -> (r: Vec<T>)
    ensures
        r@ == by_rank(items@),
{
    let mut out: Vec<T> = Vec::new();
    let ghost all = items@;
    assert(all.subrange(0, 0) =~= Seq::<T>::empty());
    let mut rest = items;
    let n: usize = rest.len();
    let mut i: usize = 0;
    while i < n
        invariant
            n == all.len(),
            i <= n,
            rest@ == all.subrange(i as int, n as int),
            out@ == by_rank(all.subrange(0, i as int)),
        decreases n - i,
    {
        let x = rest.remove(0);
        assert(rest@ =~= all.subrange(i + 1, n as int));
        let p = place_of(&out, x.rank_value());
        assert(all.subrange(0, i + 1).drop_last() =~= all.subrange(0, i as int));
        out.insert(p, x);
        i += 1;
    }
    assert(all.subrange(0, n as int) =~= all);
    out
}

/// One text comes before another: character by character, a text that the
/// other continues first.
pub open spec fn text_before(a: Seq<char>, b: Seq<char>) -> bool
    decreases a.len(),
{
    if b.len() == 0 {
        false
    } else if a.len() == 0 {
        true
    } else if a[0] != b[0] {
        a[0] < b[0]
    } else {
        text_before(a.subrange(1, a.len() as int), b.subrange(1, b.len() as int))
    }
}

/// Each text comes before the next ones.
pub open spec fn texts_ascending(s: Seq<Seq<char>>) -> bool {
    forall|i: int, j: int| 0 <= i < j < s.len() ==> text_before(#[trigger] s[i], #[trigger] s[j])
}

/// Whether a text comes before another, equals it, or comes after it.
#[derive(PartialEq, Eq, Structural, Clone, Copy)]
pub enum TextOrder {
    Before,
    Same,
    After,
}

proof fn text_before_total(a: Seq<char>, b: Seq<char>)
    ensures
        a != b ==> text_before(a, b) || text_before(b, a),
        !(text_before(a, b) && text_before(b, a)),
        text_before(a, b) ==> a != b,
    decreases a.len(),
{
    if a.len() > 0 && b.len() > 0 && a[0] == b[0] {
        let x = a.subrange(1, a.len() as int);
        let y = b.subrange(1, b.len() as int);
        text_before_total(x, y);
        if x == y {
            assert(a =~= seq![a[0]] + x);
            assert(b =~= seq![b[0]] + y);
        }
    } else if a.len() == 0 && b.len() == 0 {
        assert(a =~= b);
    }
}

proof fn text_before_chain(a: Seq<char>, b: Seq<char>, c: Seq<char>)
    requires
        text_before(a, b),
        text_before(b, c),
    ensures
        text_before(a, c),
    decreases a.len(),
{
    if a.len() > 0 && b.len() > 0 && c.len() > 0 && a[0] == b[0] && b[0] == c[0] {
        text_before_chain(
            a.subrange(1, a.len() as int),
            b.subrange(1, b.len() as int),
            c.subrange(1, c.len() as int),
        );
    }
}

fn order_texts(a: &str, b: &str) -> (r: TextOrder)
    ensures
        r == TextOrder::Before <==> text_before(a@, b@),
        r == TextOrder::Same <==> a@ == b@,
        r == TextOrder::After <==> text_before(b@, a@),
{
    let x = chars_of(a);
    let y = chars_of(b);
    let n: usize = x.len();
    let m: usize = y.len();
    let mut i: usize = 0;
    assert(x@.subrange(0, n as int) =~= a@);
    assert(y@.subrange(0, m as int) =~= b@);
    proof {
        text_before_total(a@, b@);
    }
    while i < n && i < m
        invariant
            n == x@.len(),
            m == y@.len(),
            x@ == a@,
            y@ == b@,
            i <= n,
            i <= m,
            text_before(a@, b@) == text_before(
                x@.subrange(i as int, n as int),
                y@.subrange(i as int, m as int),
            ),
            text_before(b@, a@) == text_before(
                y@.subrange(i as int, m as int),
                x@.subrange(i as int, n as int),
            ),
            a@ == b@ <==> x@.subrange(i as int, n as int) == y@.subrange(i as int, m as int),
            a@ != b@ ==> text_before(a@, b@) || text_before(b@, a@),
            !(text_before(a@, b@) && text_before(b@, a@)),
            text_before(a@, b@) ==> a@ != b@,
        decreases n - i,
    {
        let ghost p = x@.subrange(i as int, n as int);
        let ghost q = y@.subrange(i as int, m as int);
        if x[i] != y[i] {
            assert(p[0] != q[0]);
            if x[i] < y[i] {
                return TextOrder::Before;
            } else {
                return TextOrder::After;
            }
        }
        assert(p.subrange(1, p.len() as int) =~= x@.subrange(i + 1, n as int));
        assert(q.subrange(1, q.len() as int) =~= y@.subrange(i + 1, m as int));
        assert(p =~= seq![p[0]] + p.subrange(1, p.len() as int));
        assert(q =~= seq![q[0]] + q.subrange(1, q.len() as int));
        i += 1;
    }
    if i < m {
        TextOrder::Before
    } else if i < n {
        TextOrder::After
    } else {
        assert(x@.subrange(i as int, n as int) =~= y@.subrange(i as int, m as int));
        TextOrder::Same
    }
}

/// The list with a text added where it belongs, unless it is there.
pub fn insert_text(list: &mut Vec<String>, s: String)
    requires
        texts_ascending(texts(old(list)@)),
    ensures
        texts_ascending(texts(final(list)@)),
        forall|t: Seq<char>|
            #[trigger] texts(final(list)@).contains(t) <==> texts(old(list)@).contains(t) || t
                == s@,
{
    let ghost before = texts(list@);
    let n: usize = list.len();
    let mut i: usize = 0;
    while i < n
        invariant
            n == list@.len(),
            i <= n,
            before == texts(list@),
            texts_ascending(before),
            forall|k: int| 0 <= k < i ==> text_before(#[trigger] before[k], s@),
            *list == *old(list),
        ensures
            i < n ==> text_before(s@, before[i as int]),
        decreases n - i,
    {
        match order_texts(list[i].as_str(), s.as_str()) {
            TextOrder::Before => {
                assert(before[i as int] == list@[i as int]@);
                i += 1;
            },
            TextOrder::Same => {
                assert(before[i as int] == s@);
                assert(before.contains(s@));
                return ;
            },
            TextOrder::After => {
                assert(before[i as int] == list@[i as int]@);
                break ;
            },
        }
    }
    let ghost t = s@;
    list.insert(i, s);
    proof {
        let after = texts(list@);
        assert(after =~= before.insert(i as int, t));
        assert forall|a: int, b: int| 0 <= a < b < after.len() implies text_before(
            #[trigger] after[a],
            #[trigger] after[b],
        ) by {
            let x = if a < i {
                a
            } else {
                a - 1
            };
            let y = if b < i {
                b
            } else {
                b - 1
            };
            if a == i {
                assert(after[b] == before[y]);
                if y > i {
                    text_before_chain(t, before[i as int], before[y]);
                }
            } else if b == i {
                assert(after[a] == before[x]);
            } else {
                assert(after[a] == before[x]);
                assert(after[b] == before[y]);
            }
        }
        assert forall|u: Seq<char>| #[trigger] after.contains(u) <==> before.contains(u) || u
            == t by {
            if after.contains(u) {
                let k = choose|k: int| 0 <= k < after.len() && after[k] == u;
                if k < i {
                    assert(before[k] == u);
                } else if k > i {
                    assert(before[k - 1] == u);
                }
            }
            if before.contains(u) {
                let k = choose|k: int| 0 <= k < before.len() && before[k] == u;
                if k < i {
                    assert(after[k] == u);
                } else {
                    assert(after[k + 1] == u);
                }
            }
            if u == t {
                assert(after[i as int] == t);
            }
        }
    }
}

/// The texts of a list in order, each once.
pub fn sorted_unique(list: &Vec<String>) -> (r: Vec<String>)
    ensures
        texts_ascending(texts(r@)),
        forall|t: Seq<char>|
            #[trigger] texts(r@).contains(t) <==> texts(list@).contains(t),
{
    let mut r: Vec<String> = Vec::new();
    let n: usize = list.len();
    let ghost all = texts(list@);
    for i in 0..n
        invariant
            n == list@.len(),
            all == texts(list@),
            texts_ascending(texts(r@)),
            forall|t: Seq<char>|
                #[trigger] texts(r@).contains(t) <==> all.subrange(0, i as int).contains(t),
    {
        let ghost before = texts(r@);
        insert_text(&mut r, list[i].clone());
        proof {
            let front = all.subrange(0, i as int);
            let longer = all.subrange(0, i + 1);
            assert forall|t: Seq<char>| #[trigger] texts(r@).contains(t) <==> longer.contains(t) by {
                if longer.contains(t) {
                    let k = choose|k: int| 0 <= k < longer.len() && longer[k] == t;
                    if k < i {
                        assert(front[k] == t);
                        assert(front.contains(t));
                        assert(before.contains(t));
                    }
                }
                if texts(r@).contains(t) {
                    if before.contains(t) {
                        assert(front.contains(t));
                        let k = choose|k: int| 0 <= k < front.len() && front[k] == t;
                        assert(longer[k] == t);
                    } else {
                        assert(longer[i as int] == t);
                    }
                }
            }
        }
    }
    assert(all.subrange(0, n as int) =~= all);
    r
}

/// Ordering drops no item and makes none up.
pub proof fn by_rank_keeps_items<T: Ranked>(s: Seq<T>, x: T)
    ensures
        by_rank(s).contains(x) <==> s.contains(x),
{
    broadcast use vstd::seq_lib::group_to_multiset_ensures;

    by_rank_orders(s);
    assert(by_rank(s).contains(x) <==> by_rank(s).to_multiset().count(x) > 0);
    assert(s.contains(x) <==> s.to_multiset().count(x) > 0);
}

/// Items of one rank stay in the order that they came in.
pub proof fn by_rank_is_stable<T: Ranked>(s: Seq<T>, rank: u64)
    ensures
        by_rank(s).filter(|x: T| x.rank() == rank) == s.filter(|x: T| x.rank() == rank),
    decreases s.len(),
{
    let p = |x: T| x.rank() == rank;
    if s.len() > 0 {
        let short = s.drop_last();
        let last = s.last();
        by_rank_is_stable(short, rank);
        by_rank_orders(short);
        let before = by_rank(short);
        place_in_range(before, last.rank());
        let k = place(before, last.rank());
        let front = before.subrange(0, k);
        let back = before.subrange(k, before.len() as int);
        assert(before =~= front + back);
        assert(by_rank(s) =~= front.push(last) + back);
        assert(s =~= short.push(last));
        Seq::filter_distributes_over_add(front, back, p);
        Seq::filter_distributes_over_add(front.push(last), back, p);
        front.lemma_filter_push(last, p);
        short.lemma_filter_push(last, p);
        if last.rank() == rank {
            assert forall|i: int| 0 <= i < back.len() implies !p(#[trigger] back[i]) by {
                assert(back[i] == before[k + i]);
                assert(before[k].rank() >= before[k + i].rank());
            }
            back.lemma_all_neg_filter_empty(p);
            assert(back.filter(p) =~= Seq::<T>::empty());
            assert(front.filter(p) + back.filter(p) =~= front.filter(p));
            assert(front.push(last).filter(p) + back.filter(p) =~= front.filter(p).push(last));
        }
    }
}

/// What is in order stays as it is.
pub proof fn by_rank_leaves_order_alone<T: Ranked>(s: Seq<T>)
    requires
        descending(s),
    ensures
        by_rank(s) == s,
    decreases s.len(),
{
    if s.len() > 0 {
        let short = s.drop_last();
        assert forall|i: int, j: int| 0 <= i < j < short.len() implies (#[trigger] short[i]).rank()
            >= (#[trigger] short[j]).rank() by {
            assert(s[i].rank() >= s[j].rank());
        }
        by_rank_leaves_order_alone(short);
        place_in_range(short, s.last().rank());
        let k = place(short, s.last().rank());
        if k < short.len() {
            assert(s[k].rank() >= s[s.len() - 1].rank());
        }
        assert(short.insert(k, s.last()) =~= s);
    }
}

/// Of two texts the one comes first that has the smaller character where they
/// first differ, or that ends where the other goes on.
pub proof fn texts_are_told_apart_where_they_differ(a: Seq<char>, b: Seq<char>, n: int)
    requires
        0 <= n <= a.len(),
        n < b.len(),
        forall|i: int| 0 <= i < n ==> a[i] == b[i],
        n < a.len() ==> a[n] != b[n],
    ensures
        text_before(a, b) <==> n == a.len() || a[n] < b[n],
    decreases n,
{
    if n > 0 {
        let x = a.subrange(1, a.len() as int);
        let y = b.subrange(1, b.len() as int);
        assert(a[0] == b[0]);
        assert forall|i: int| 0 <= i < n - 1 implies x[i] == y[i] by {
            assert(a[i + 1] == b[i + 1]);
        }
        texts_are_told_apart_where_they_differ(x, y, n - 1);
    }
}

} // verus!
