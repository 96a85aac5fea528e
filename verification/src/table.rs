//! Keyed collections: an association list, and a table whose lookups go
//! through a concurrent hash index.

use crate::bytes::{be32_bytes, be32_round_trip, push_all, same_array, u32_bytes};
use crate::common::{NodeId, RoomId};
use dashmap::DashMap;
use vstd::prelude::*;

verus! {

/// What can be a key: a value that bytes identify.
pub trait Key: Copy {
    /// The bytes that identify the key.
    spec fn key_seq(self) -> Seq<u8>;

    fn key_bytes(&self) -> (b: Vec<u8>)
        ensures
            b@ == self.key_seq(),
    ;

    fn same(&self, other: &Self) -> (r: bool)
        ensures
            r == (*self == *other),
    ;

    proof fn key_injective(a: Self, b: Self)
        ensures
            a.key_seq() == b.key_seq() ==> a == b,
    ;
}

impl Key for NodeId {
    open spec fn key_seq(self) -> Seq<u8> {
        self.0@
    }

    fn key_bytes(&self) -> (b: Vec<u8>) {
        let mut v: Vec<u8> = Vec::new();
        push_all(&mut v, self.0.as_slice());
        assert(v@ =~= self.0@);
        v
    }

    fn same(&self, other: &Self) -> (r: bool) {
        same_array(&self.0, &other.0)
    }

    proof fn key_injective(a: Self, b: Self) {
        if a.0@ == b.0@ {
            assert(a.0 =~= b.0);
        }
    }
}

impl Key for RoomId {
    open spec fn key_seq(self) -> Seq<u8> {
        self.0@
    }

    fn key_bytes(&self) -> (b: Vec<u8>) {
        let mut v: Vec<u8> = Vec::new();
        push_all(&mut v, self.0.as_slice());
        assert(v@ =~= self.0@);
        v
    }

    fn same(&self, other: &Self) -> (r: bool) {
        same_array(&self.0, &other.0)
    }

    proof fn key_injective(a: Self, b: Self) {
        if a.0@ == b.0@ {
            assert(a.0 =~= b.0);
        }
    }
}

impl Key for u32 {
    open spec fn key_seq(self) -> Seq<u8> {
        be32_bytes(self)
    }

    fn key_bytes(&self) -> (b: Vec<u8>) {
        let mut v: Vec<u8> = Vec::new();
        let a = u32_bytes(*self);
        push_all(&mut v, a.as_slice());
        assert(v@ =~= be32_bytes(*self));
        v
    }

    fn same(&self, other: &Self) -> (r: bool) {
        *self == *other
    }

    proof fn key_injective(a: Self, b: Self) {
        be32_round_trip(a);
        be32_round_trip(b);
    }
}

/// A key and what it stands for.
pub struct Entry<K, V> {
    pub key: K,
    pub value: V,
}

/// No two entries have one key.
pub open spec fn distinct<K, V>(s: Seq<Entry<K, V>>) -> bool {
    forall|i: int, j: int|
        0 <= i < s.len() && 0 <= j < s.len() && i != j ==> #[trigger] s[i].key != #[trigger] s[j].key
}

/// Some entry has the key.
pub open spec fn has_key<K, V>(s: Seq<Entry<K, V>>, k: K) -> bool {
    exists|i: int| 0 <= i < s.len() && #[trigger] s[i].key == k
}

/// Where an entry with the key stands.
pub open spec fn at<K, V>(s: Seq<Entry<K, V>>, k: K) -> int {
    choose|i: int| 0 <= i < s.len() && #[trigger] s[i].key == k
}

/// What the key stands for.
pub open spec fn lookup<K, V>(s: Seq<Entry<K, V>>, k: K) -> Option<V> {
    if has_key(s, k) {
        Some(s[at(s, k)].value)
    } else {
        None
    }
}

/// The entries with one added, or replaced where the key was there already.
pub open spec fn put<K, V>(s: Seq<Entry<K, V>>, k: K, v: V) -> Seq<Entry<K, V>> {
    if has_key(s, k) {
        s.update(at(s, k), Entry { key: k, value: v })
    } else {
        s.push(Entry { key: k, value: v })
    }
}

/// The entries without the one of a key; the last one takes its place.
pub open spec fn cut<K, V>(s: Seq<Entry<K, V>>, k: K) -> Seq<Entry<K, V>> {
    if has_key(s, k) {
        s.update(at(s, k), s.last()).drop_last()
    } else {
        s
    }
}

/// The entries as a map.
pub open spec fn as_map<K, V>(s: Seq<Entry<K, V>>) -> Map<K, V> {
    Map::new(|k: K| has_key(s, k), |k: K| s[at(s, k)].value)
}

pub proof fn at_is<K, V>(s: Seq<Entry<K, V>>, i: int)
    requires
        distinct(s),
        0 <= i < s.len(),
    ensures
        has_key(s, s[i].key),
        at(s, s[i].key) == i,
{
    let k = s[i].key;
    assert(has_key(s, k));
    let j = at(s, k);
    assert(0 <= j < s.len() && s[j].key == k);
}

/// Adding an entry is adding to the map.
pub proof fn put_is_insert<K, V>(s: Seq<Entry<K, V>>, k: K, v: V)
    requires
        distinct(s),
    ensures
        distinct(put(s, k, v)),
        has_key(put(s, k, v), k),
        lookup(put(s, k, v), k) == Some(v),
        as_map(put(s, k, v)) == as_map(s).insert(k, v),
        forall|o: K| o != k ==> #[trigger] lookup(put(s, k, v), o) == lookup(s, o),
{
    let t = put(s, k, v);
    let p = if has_key(s, k) {
        at(s, k)
    } else {
        s.len() as int
    };
    if has_key(s, k) {
        assert(s[p].key == k);
    }
    assert forall|i: int, j: int| 0 <= i < t.len() && 0 <= j < t.len() && i != j implies
        #[trigger] t[i].key != #[trigger] t[j].key by {
        if i == p {
            if j < s.len() {
                assert(s[j].key == t[j].key);
            }
        } else if j == p {
            assert(s[i].key == t[i].key);
        } else {
            assert(s[i].key == t[i].key);
            assert(s[j].key == t[j].key);
        }
    }
    at_is(t, p);
    assert forall|o: K| o != k implies #[trigger] lookup(t, o) == lookup(s, o) && has_key(t, o) == has_key(
        s,
        o,
    ) by {
        if has_key(s, o) {
            let i = at(s, o);
            assert(t[i].key == o);
            at_is(t, i);
        }
        if has_key(t, o) {
            let i = at(t, o);
            assert(t[i].key == o);
            assert(i != p);
            assert(s[i].key == o);
            at_is(s, i);
        }
    }
    assert forall|o: K| #[trigger] as_map(t).dom().contains(o) == as_map(s).insert(
        k,
        v,
    ).dom().contains(o) by {
        if o != k {
            assert(lookup(t, o) == lookup(s, o));
        }
    }
    assert forall|o: K| #[trigger] as_map(t).dom().contains(o) implies as_map(t)[o] == as_map(
        s,
    ).insert(k, v)[o] by {
        if o != k {
            assert(lookup(t, o) == lookup(s, o));
        }
    }
    assert(as_map(t) =~= as_map(s).insert(k, v));
}

/// Dropping an entry is removing from the map.
pub proof fn cut_is_remove<K, V>(s: Seq<Entry<K, V>>, k: K)
    requires
        distinct(s),
    ensures
        distinct(cut(s, k)),
        !has_key(cut(s, k), k),
        as_map(cut(s, k)) == as_map(s).remove(k),
        forall|o: K| o != k ==> #[trigger] lookup(cut(s, k), o) == lookup(s, o),
{
    let t = cut(s, k);
    if has_key(s, k) {
        let p = at(s, k);
        let last = s.len() - 1;
        assert(s[p].key == k);
        assert forall|i: int, j: int| 0 <= i < t.len() && 0 <= j < t.len() && i != j implies
            #[trigger] t[i].key != #[trigger] t[j].key by {
            let a = if i == p {
                last
            } else {
                i
            };
            let b = if j == p {
                last
            } else {
                j
            };
            assert(t[i].key == s[a].key);
            assert(t[j].key == s[b].key);
        }
        assert(!has_key(t, k)) by {
            if has_key(t, k) {
                let i = at(t, k);
                assert(t[i].key == k);
                let a = if i == p {
                    last
                } else {
                    i
                };
                assert(s[a].key == k);
            }
        }
        assert forall|o: K| o != k implies #[trigger] lookup(t, o) == lookup(s, o) && has_key(t, o)
            == has_key(s, o) by {
            if has_key(s, o) {
                let i = at(s, o);
                assert(s[i].key == o);
                let a = if i == last {
                    p
                } else {
                    i
                };
                assert(i != p);
                assert(t[a] == s[i]);
                assert(t[a].key == o);
                at_is(t, a);
            }
            if has_key(t, o) {
                let i = at(t, o);
                assert(t[i].key == o);
                let a = if i == p {
                    last
                } else {
                    i
                };
                assert(s[a] == t[i]);
                assert(s[a].key == o);
                at_is(s, a);
            }
        }
        assert forall|o: K| #[trigger] as_map(t).dom().contains(o) == as_map(s).remove(
            k,
        ).dom().contains(o) by {
            if o != k {
                assert(lookup(t, o) == lookup(s, o));
            }
        }
        assert forall|o: K| #[trigger] as_map(t).dom().contains(o) implies as_map(t)[o] == as_map(
            s,
        ).remove(k)[o] by {
            if o != k {
                assert(lookup(t, o) == lookup(s, o));
            }
        }
        assert(as_map(t) =~= as_map(s).remove(k));
    } else {
        assert(as_map(t) =~= as_map(s).remove(k));
    }
}

/// Changing the value of an entry where it stands is putting it again.
pub proof fn update_is_put<K, V>(s: Seq<Entry<K, V>>, i: int, v: V)
    requires
        distinct(s),
        0 <= i < s.len(),
    ensures
        s.update(i, Entry { key: s[i].key, value: v }) == put(s, s[i].key, v),
{
    at_is(s, i);
}

/// The entries by what their values say.
pub open spec fn viewed<K, V: View>(s: Seq<Entry<K, V>>) -> Seq<Entry<K, V::V>> {
    Seq::new(s.len(), |i: int| Entry { key: s[i].key, value: s[i].value@ })
}

/// Looking up, adding and dropping entries is the same on entries and on what
/// they say.
pub proof fn viewed_lookup<K, V: View>(s: Seq<Entry<K, V>>, k: K)
    requires
        distinct(s),
    ensures
        distinct(viewed(s)),
        has_key(viewed(s), k) == has_key(s, k),
        has_key(s, k) ==> at(viewed(s), k) == at(s, k),
        lookup(viewed(s), k) == match lookup(s, k) {
            Some(v) => Some(v@),
            None => None,
        },
{
    let t = viewed(s);
    assert forall|i: int, j: int| 0 <= i < t.len() && 0 <= j < t.len() && i != j implies
        #[trigger] t[i].key != #[trigger] t[j].key by {
        assert(t[i].key == s[i].key);
        assert(t[j].key == s[j].key);
    }
    if has_key(s, k) {
        let i = at(s, k);
        assert(s[i].key == k);
        assert(t[i].key == k);
        at_is(t, i);
    }
    if has_key(t, k) {
        let i = at(t, k);
        assert(t[i].key == k);
        assert(s[i].key == k);
    }
}

pub proof fn viewed_put<K, V: View>(s: Seq<Entry<K, V>>, k: K, v: V)
    requires
        distinct(s),
    ensures
        viewed(put(s, k, v)) == put(viewed(s), k, v@),
        distinct(viewed(put(s, k, v))),
{
    viewed_lookup(s, k);
    put_is_insert(s, k, v);
    viewed_lookup(put(s, k, v), k);
    assert(viewed(put(s, k, v)) =~= put(viewed(s), k, v@));
}

pub proof fn viewed_cut<K, V: View>(s: Seq<Entry<K, V>>, k: K)
    requires
        distinct(s),
    ensures
        viewed(cut(s, k)) == cut(viewed(s), k),
{
    viewed_lookup(s, k);
    if has_key(s, k) {
        let i = at(s, k);
        assert(s[i].key == k);
        assert(viewed(cut(s, k)) =~= cut(viewed(s), k));
    }
}

/// A list of entries with distinct keys.
pub struct AssocVec<K, V> {
    pub entries: Vec<Entry<K, V>>,
}

impl<K: Key, V> AssocVec<K, V> {
    pub open spec fn wf(self) -> bool {
        distinct(self.entries@)
    }

    /// What each key stands for.
    pub open spec fn view(self) -> Map<K, V> {
        as_map(self.entries@)
    }

    pub fn new() -> (t: AssocVec<K, V>)
        ensures
            t.wf(),
            t.entries@ == Seq::<Entry<K, V>>::empty(),
            t@ == Map::<K, V>::empty(),
    {
        let t = AssocVec { entries: Vec::new() };
        assert(t@ =~= Map::<K, V>::empty());
        t
    }

    pub fn find(&self, key: &K) -> (r: Option<usize>)
        requires
            self.wf(),
        ensures
            r is Some <==> has_key(self.entries@, *key),
            r is Some ==> r->0 < self.entries@.len() && r->0 == at(self.entries@, *key)
                && self.entries@[r->0 as int].key == *key,
    {
        let n: usize = self.entries.len();
        for i in 0..n
            invariant
                n == self.entries@.len(),
                self.wf(),
                forall|j: int| 0 <= j < i ==> #[trigger] self.entries@[j].key != *key,
        {
            if self.entries[i].key.same(key) {
                proof {
                    at_is(self.entries@, i as int);
                }
                return Some(i);
            }
        }
        None
    }

    pub fn get(&self, key: &K) -> (r: Option<&V>)
        requires
            self.wf(),
        ensures
            match r {
                Some(v) => lookup(self.entries@, *key) == Some(*v),
                None => lookup(self.entries@, *key) is None,
            },
    {
        match self.find(key) {
            Some(i) => Some(&self.entries[i].value),
            None => None,
        }
    }

    pub fn contains_key(&self, key: &K) -> (r: bool)
        requires
            self.wf(),
        ensures
            r == has_key(self.entries@, *key),
    {
        match self.find(key) {
            Some(_) => true,
            None => false,
        }
    }

    pub fn insert(&mut self, key: K, value: V)
        requires
            old(self).wf(),
        ensures
            final(self).wf(),
            final(self).entries@ == put(old(self).entries@, key, value),
            final(self)@ == old(self)@.insert(key, value),
    {
        proof {
            put_is_insert(self.entries@, key, value);
        }
        match self.find(&key) {
            Some(i) => {
                self.entries[i] = Entry { key, value };
            },
            None => {
                self.entries.push(Entry { key, value });
            },
        }
    }

    pub fn remove(&mut self, key: &K) -> (r: Option<V>)
        requires
            old(self).wf(),
        ensures
            final(self).wf(),
            r == lookup(old(self).entries@, *key),
            final(self).entries@ == cut(old(self).entries@, *key),
            final(self)@ == old(self)@.remove(*key),
    {
        proof {
            cut_is_remove(self.entries@, *key);
        }
        match self.find(key) {
            Some(i) => Some(self.entries.swap_remove(i).value),
            None => None,
        }
    }
}

/// The concurrent hash map of the `dashmap` crate.
#[verifier::external_type_specification]
#[verifier::external_body]
#[verifier::reject_recursive_types(K)]
#[verifier::reject_recursive_types(V)]
#[verifier::reject_recursive_types(S)]
pub struct ExDashMap<K, V, S>(dashmap::DashMap<K, V, S>);

/// What an index holds: for each byte string the slot it leads to.
pub uninterp spec fn slots(m: DashMap<Vec<u8>, u64>) -> Map<Seq<u8>, u64>;

/// `DashMap::new`: an index that holds nothing.
#[verifier::external_body]
fn index_new() -> (m: DashMap<Vec<u8>, u64>)
    ensures
        forall|b: Seq<u8>| !#[trigger] slots(m).dom().contains(b),
{
    DashMap::new()
}

/// `DashMap::insert`: the key leads to the slot from now on, whatever it led to
/// before; the other keys stay.
#[verifier::external_body]
fn index_insert(m: &mut DashMap<Vec<u8>, u64>, key: Vec<u8>, slot: u64)
    ensures
        slots(*final(m)) == slots(*old(m)).insert(key@, slot),
{
    m.insert(key, slot);
}

/// `DashMap::remove`: the key leads nowhere from now on; the other keys stay.
#[verifier::external_body]
fn index_remove(m: &mut DashMap<Vec<u8>, u64>, key: &Vec<u8>)
    ensures
        slots(*final(m)) == slots(*old(m)).remove(key@),
{
    m.remove(key);
}

/// `DashMap::get`: the slot that the key leads to, if it is there.
#[verifier::external_body]
fn index_get(m: &DashMap<Vec<u8>, u64>, key: &Vec<u8>) -> (r: Option<u64>)
    ensures
        r is Some <==> slots(*m).dom().contains(key@),
        r is Some ==> r->0 == slots(*m)[key@],
{
    m.get(key).map(|slot| *slot)
}

/// Entries with distinct keys, found through a hash index.
pub struct Table<K, V> {
    index: DashMap<Vec<u8>, u64>,
    list: Vec<Entry<K, V>>,
}

impl<K: Key, V> Table<K, V> {
    /// The entries in the order of the table.
    pub closed spec fn entries(self) -> Seq<Entry<K, V>> {
        self.list@
    }

    /// Keys are distinct and the index leads from each to its entry.
    pub closed spec fn wf(self) -> bool {
        &&& distinct(self.list@)
        &&& forall|i: int|
            0 <= i < self.list@.len() ==> slots(self.index).dom().contains(
                (#[trigger] self.list@[i]).key.key_seq(),
            ) && slots(self.index)[self.list@[i].key.key_seq()] == i
        &&& forall|b: Seq<u8>| #[trigger]
            slots(self.index).dom().contains(b) ==> slots(self.index)[b] < self.list@.len()
                && self.list@[slots(self.index)[b] as int].key.key_seq() == b
    }

    /// What each key stands for.
    pub open spec fn view(self) -> Map<K, V> {
        as_map(self.entries())
    }

    pub proof fn keys_distinct(self)
        requires
            self.wf(),
        ensures
            distinct(self.entries()),
    {
    }

    pub fn new() -> (t: Table<K, V>)
        ensures
            t.wf(),
            t.entries() == Seq::<Entry<K, V>>::empty(),
            t@ == Map::<K, V>::empty(),
    {
        let t = Table { index: index_new(), list: Vec::new() };
        assert(t@ =~= Map::<K, V>::empty());
        t
    }

    pub fn len(&self) -> (n: usize)
        ensures
            n == self.entries().len(),
    {
        self.list.len()
    }

    /// The entry at a place in the order of the table.
    pub fn nth(&self, i: usize) -> (e: &Entry<K, V>)
        requires
            i < self.entries().len(),
        ensures
            *e == self.entries()[i as int],
    {
        &self.list[i]
    }

    /// Where the entry of a key stands in the order of the table.
    pub fn find(&self, key: &K) -> (r: Option<usize>)
        requires
            self.wf(),
        ensures
            r is Some <==> has_key(self.entries(), *key),
            r is Some ==> r->0 < self.entries().len() && r->0 == at(self.entries(), *key)
                && self.entries()[r->0 as int].key == *key,
    {
        let b = key.key_bytes();
        match index_get(&self.index, &b) {
            Some(slot) => {
                proof {
                    K::key_injective(self.list@[slot as int].key, *key);
                    at_is(self.list@, slot as int);
                }
                assert(slot < self.list.len());
                Some(slot as usize)
            },
            None => {
                assert(!has_key(self.list@, *key)) by {
                    if has_key(self.list@, *key) {
                        let i = at(self.list@, *key);
                        assert(self.list@[i].key == *key);
                    }
                }
                None
            },
        }
    }

    pub fn get(&self, key: &K) -> (r: Option<&V>)
        requires
            self.wf(),
        ensures
            match r {
                Some(v) => lookup(self.entries(), *key) == Some(*v),
                None => lookup(self.entries(), *key) is None,
            },
    {
        match self.find(key) {
            Some(i) => Some(&self.list[i].value),
            None => None,
        }
    }

    pub fn contains_key(&self, key: &K) -> (r: bool)
        requires
            self.wf(),
        ensures
            r == has_key(self.entries(), *key),
    {
        match self.find(key) {
            Some(_) => true,
            None => false,
        }
    }

    /// The value of the entry at a place, to be changed where it stands.
    pub fn value_mut(&mut self, i: usize) -> (v: &mut V)
        requires
            old(self).wf(),
            i < old(self).entries().len(),
        ensures
            *v == old(self).entries()[i as int].value,
            final(self).wf(),
            final(self).entries() == old(self).entries().update(
                i as int,
                Entry { key: old(self).entries()[i as int].key, value: *final(v) },
            ),
    {
        &mut self.list[i].value
    }

    pub fn insert(&mut self, key: K, value: V)
        requires
            old(self).wf(),
        ensures
            final(self).wf(),
            final(self).entries() == put(old(self).entries(), key, value),
            final(self)@ == old(self)@.insert(key, value),
    {
        let ghost before = *self;
        proof {
            put_is_insert(self.list@, key, value);
        }
        match self.find(&key) {
            Some(i) => {
                self.list[i] = Entry { key, value };
                assert forall|j: int| 0 <= j < self.list@.len() implies slots(
                    self.index,
                ).dom().contains((#[trigger] self.list@[j]).key.key_seq()) && slots(
                    self.index,
                )[self.list@[j].key.key_seq()] == j by {
                    assert(before.list@[j].key == self.list@[j].key);
                }
                assert forall|b: Seq<u8>| #[trigger] slots(self.index).dom().contains(b) implies
                    slots(self.index)[b] < self.list@.len() && self.list@[slots(
                    self.index,
                )[b] as int].key.key_seq() == b by {
                    assert(before.list@[slots(self.index)[b] as int].key == self.list@[slots(
                        self.index,
                    )[b] as int].key);
                }
            },
            None => {
                let n: u64 = self.list.len() as u64;
                let b = key.key_bytes();
                index_insert(&mut self.index, b, n);
                self.list.push(Entry { key, value });
                assert forall|j: int| 0 <= j < self.list@.len() implies slots(
                    self.index,
                ).dom().contains((#[trigger] self.list@[j]).key.key_seq()) && slots(
                    self.index,
                )[self.list@[j].key.key_seq()] == j by {
                    if j < n {
                        assert(before.list@[j] == self.list@[j]);
                        K::key_injective(self.list@[j].key, key);
                        assert(self.list@[j].key != key);
                    }
                }
                assert forall|c: Seq<u8>| #[trigger] slots(self.index).dom().contains(c) implies
                    slots(self.index)[c] < self.list@.len() && self.list@[slots(
                    self.index,
                )[c] as int].key.key_seq() == c by {
                    if c != key.key_seq() {
                        assert(slots(before.index).dom().contains(c));
                    }
                }
            },
        }
    }

    pub fn remove(&mut self, key: &K) -> (r: Option<V>)
        requires
            old(self).wf(),
        ensures
            final(self).wf(),
            r == lookup(old(self).entries(), *key),
            final(self).entries() == cut(old(self).entries(), *key),
            final(self)@ == old(self)@.remove(*key),
    {
        let ghost before = *self;
        proof {
            cut_is_remove(self.list@, *key);
        }
        match self.find(key) {
            Some(i) => {
                let last: usize = self.list.len() - 1;
                let b = key.key_bytes();
                if i != last {
                    let moved = self.list[last].key.key_bytes();
                    index_insert(&mut self.index, moved, i as u64);
                }
                index_remove(&mut self.index, &b);
                let gone = self.list.swap_remove(i);
                assert forall|j: int| 0 <= j < self.list@.len() implies slots(
                    self.index,
                ).dom().contains((#[trigger] self.list@[j]).key.key_seq()) && slots(
                    self.index,
                )[self.list@[j].key.key_seq()] == j by {
                    let a = if j == i {
                        last as int
                    } else {
                        j
                    };
                    assert(self.list@[j] == before.list@[a]);
                    assert(before.list@[a].key != before.list@[i as int].key);
                    K::key_injective(before.list@[a].key, *key);
                    if a != last {
                        assert(before.list@[a].key != before.list@[last as int].key);
                        K::key_injective(before.list@[a].key, before.list@[last as int].key);
                    }
                }
                assert forall|c: Seq<u8>| #[trigger] slots(self.index).dom().contains(c) implies
                    slots(self.index)[c] < self.list@.len() && self.list@[slots(
                    self.index,
                )[c] as int].key.key_seq() == c by {
                    if i != last && c == before.list@[last as int].key.key_seq() {
                    } else {
                        assert(slots(before.index).dom().contains(c));
                        let s = slots(before.index)[c] as int;
                        assert(before.list@[s].key.key_seq() == c);
                        assert(s != i);
                        assert(s != last);
                    }
                }
                Some(gone.value)
            },
            None => None,
        }
    }

    /// Forgets every entry.
    pub fn clear(&mut self)
        ensures
            final(self).wf(),
            final(self).entries() == Seq::<Entry<K, V>>::empty(),
            final(self)@ == Map::<K, V>::empty(),
    {
        self.index = index_new();
        self.list = Vec::new();
        assert(self@ =~= Map::<K, V>::empty());
    }
}

} // verus!
