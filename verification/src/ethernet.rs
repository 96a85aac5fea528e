//! Ethernet frames, and which peer an address was last seen behind.

use crate::bytes::{be16, push_all, read_array, read_u16, same_array};
use crate::common::NodeId;
use crate::proto::views;
use crate::table::{
    at, at_is, cut, distinct, has_key, lookup, put, put_is_insert, update_is_put, Entry, Key, Table,
};
use crate::text::{digit, digit_char};
use vstd::prelude::*;
use vstd::slice::slice_subrange;

verus! {

/// How many addresses are known at most.
pub const MAC_TABLE_MAX_ENTRIES: usize = 4096;

/// Nanoseconds after which an address that was not seen is forgotten.
pub const MAC_TABLE_MAX_AGE: u64 = 300_000_000_000;

/// An Ethernet address.
#[derive(Debug, Clone, Copy)]
pub struct Mac(pub [u8; 6]);

impl Key for Mac {
    open spec fn key_seq(self) -> Seq<u8> {
        self.0@
    }

    fn key_bytes(&self) -> (b: Vec<u8>) {
        let mut v: Vec<u8> = Vec::new();
        push_all(&mut v, self.0.as_slice());
        assert(v@ =~= self.0@);
        v
    }

    fn same(&self, other: &Self) -> (r: bool) {
        same_array(&self.0, &other.0)
    }

    proof fn key_injective(a: Self, b: Self) {
        if a.0@ == b.0@ {
            assert(a.0 =~= b.0);
        }
    }
}

/// The peer behind an address; times are in nanoseconds.
#[derive(Debug, Clone, Copy)]
pub struct MacTableEntry {
    pub node_id: NodeId,
    pub learned_at: u64,
    pub last_seen: u64,
}

/// What is told of an address.
#[derive(Debug)]
pub struct L2TableEntry {
    pub mac: String,
    pub node_id: NodeId,
    pub learned_for_secs: u64,
    pub idle_for_secs: u64,
}

/// What is told of an address.
#[verifier::ext_equal]
pub struct L2TableView {
    pub mac: Seq<char>,
    pub node_id: NodeId,
    pub learned_for_secs: u64,
    pub idle_for_secs: u64,
}

impl View for L2TableEntry {
    type V = L2TableView;

    open spec fn view(&self) -> L2TableView {
        L2TableView {
            mac: self.mac@,
            node_id: self.node_id,
            learned_for_secs: self.learned_for_secs,
            idle_for_secs: self.idle_for_secs,
        }
    }
}

/// A byte in two hexadecimal digits.
pub open spec fn two_digits(b: u8) -> Seq<char> {
    seq![digit_char((b / 16) as int), digit_char((b % 16) as int)]
}

/// Bytes in pairs of hexadecimal digits, with colons between them.
pub open spec fn colon_text(s: Seq<u8>) -> Seq<char>
    decreases s.len(),
{
    if s.len() == 0 {
        Seq::empty()
    } else if s.len() == 1 {
        two_digits(s[0])
    } else {
        colon_text(s.drop_last()) + seq![':'] + two_digits(s.last())
    }
}

/// The address in the usual notation.
pub fn format_mac(mac: &Mac) -> (s: String)
    ensures
        s@ == colon_text(mac.0@),
{
    let mut s = String::new();
    let ghost all = mac.0@;
    for i in 0..6usize
        invariant
            all == mac.0@,
            all.len() == 6,
            s@ == colon_text(all.subrange(0, i as int)),
    {
        let ghost longer = all.subrange(0, i + 1);
        assert(longer.drop_last() =~= all.subrange(0, i as int));
        assert(longer.last() == all[i as int]);
        let ghost before = s@;
        let b: u8 = mac.0[i];
        if i > 0 {
            s.push(':');
        } else {
            assert(all.subrange(0, 0).len() == 0);
        }
        s.push(digit(b / 16));
        s.push(digit(b % 16));
        assert(s@ =~= colon_text(longer));
    }
    assert(all.subrange(0, 6) =~= all);
    s
}

/// The addresses of a frame: its destination and its source.
pub fn ethernet_macs(frame: &[u8]) -> (r: Option<(Mac, Mac)>)
    ensures
        match r {
            Some((dst, src)) => frame@.len() >= 14 && dst.0@ == frame@.subrange(0, 6) && src.0@
                == frame@.subrange(6, 12),
            None => frame@.len() < 14,
        },
{
    if frame.len() < 14 {
        return None;
    }
    Some((Mac(read_array(frame, 0)), Mac(read_array(frame, 6))))
}

/// Where the IP packet in a frame begins, if it holds one.
pub open spec fn ip_in_frame(frame: Seq<u8>) -> Option<Seq<u8>> {
    if frame.len() >= 14 && (be16(frame[12], frame[13]) == 0x0800 || be16(frame[12], frame[13])
        == 0x86dd) {
        Some(frame.subrange(14, frame.len() as int))
    } else {
        None
    }
}

/// The IP packet in a frame.
pub fn ethernet_ip_payload(frame: &[u8]) -> (r: Option<&[u8]>)
    ensures
        match r {
            Some(p) => ip_in_frame(frame@) == Some(p@),
            None => ip_in_frame(frame@) is None,
        },
{
    let n: usize = frame.len();
    if n < 14 {
        return None;
    }
    let kind: u16 = read_u16(frame, 12);
    if kind == 0x0800 || kind == 0x86dd {
        Some(slice_subrange(frame, 14, n))
    } else {
        None
    }
}

/// An address that stands for all stations.
pub open spec fn broadcast_mac(m: Seq<u8>) -> bool {
    forall|i: int| 0 <= i < 6 ==> #[trigger] m[i] == 0xff
}

/// An address that stands for several stations.
pub open spec fn multicast_mac(m: Seq<u8>) -> bool {
    m[0] % 2 == 1
}

pub fn is_broadcast_mac(mac: &Mac) -> (r: bool)
    ensures
        r == broadcast_mac(mac.0@),
{
    let m = mac.0;
    let r = m[0] == 0xff && m[1] == 0xff && m[2] == 0xff && m[3] == 0xff && m[4] == 0xff && m[5]
        == 0xff;
    proof {
        if r {
            assert forall|i: int| 0 <= i < 6 implies #[trigger] m@[i] == 0xff by {
                assert(m@[0] == 0xff && m@[1] == 0xff && m@[2] == 0xff);
                assert(m@[3] == 0xff && m@[4] == 0xff && m@[5] == 0xff);
                assert(i == 0 || i == 1 || i == 2 || i == 3 || i == 4 || i == 5);
            }
        }
    }
    r
}

pub fn is_multicast_mac(mac: &Mac) -> (r: bool)
    ensures
        r == multicast_mac(mac.0@),
{
    mac.0[0] % 2 == 1
}

/// An address was seen recently enough to be known still.
pub open spec fn lively(e: MacTableEntry, now: u64) -> bool {
    now - e.last_seen <= MAC_TABLE_MAX_AGE
}

/// The addresses that are known still, in their order.
pub open spec fn lively_macs(s: Seq<Entry<Mac, MacTableEntry>>, now: u64) -> Seq<
    Entry<Mac, MacTableEntry>,
>
    decreases s.len(),
{
    if s.len() == 0 {
        Seq::empty()
    } else {
        let before = lively_macs(s.drop_last(), now);
        if lively(s.last().value, now) {
            before.push(s.last())
        } else {
            before
        }
    }
}

/// The addresses that are not behind one peer, in their order.
pub open spec fn macs_without(s: Seq<Entry<Mac, MacTableEntry>>, node: NodeId) -> Seq<
    Entry<Mac, MacTableEntry>,
>
    decreases s.len(),
{
    if s.len() == 0 {
        Seq::empty()
    } else {
        let before = macs_without(s.drop_last(), node);
        if s.last().value.node_id != node {
            before.push(s.last())
        } else {
            before
        }
    }
}

/// The addresses after one was seen behind a peer.
pub open spec fn mac_seen(
    s: Seq<Entry<Mac, MacTableEntry>>,
    mac: Mac,
    node_id: NodeId,
    now: u64,
) -> Seq<Entry<Mac, MacTableEntry>> {
    put(
        s,
        mac,
        match lookup(s, mac) {
            Some(e) => MacTableEntry { node_id, last_seen: now, ..e },
            None => MacTableEntry { node_id, learned_at: now, last_seen: now },
        },
    )
}

/// The first of the addresses that were not seen for longest.
pub open spec fn oldest_at(s: Seq<Entry<Mac, MacTableEntry>>, i: int) -> bool {
    &&& 0 <= i < s.len()
    &&& forall|j: int| 0 <= j < s.len() ==> s[i].value.last_seen <= (#[trigger] s[j]).value.last_seen
    &&& forall|j: int| 0 <= j < i ==> s[i].value.last_seen < (#[trigger] s[j]).value.last_seen
}

/// How the addresses change when one is seen behind a peer: those that are out of
/// date are forgotten first, and where there are too many then, the one that was
/// not seen for longest goes.
pub open spec fn mac_learned(
    before: Seq<Entry<Mac, MacTableEntry>>,
    after: Seq<Entry<Mac, MacTableEntry>>,
    mac: Mac,
    node_id: NodeId,
    now: u64,
) -> bool {
    let seen = mac_seen(lively_macs(before, now), mac, node_id, now);
    if seen.len() > MAC_TABLE_MAX_ENTRIES {
        exists|i: int| #[trigger] oldest_at(seen, i) && after == cut(seen, seen[i].key)
    } else {
        after == seen
    }
}

/// What is told of an address.
pub open spec fn mac_told(e: Entry<Mac, MacTableEntry>, now: u64) -> L2TableView {
    L2TableView {
        mac: colon_text(e.key.0@),
        node_id: e.value.node_id,
        learned_for_secs: secs_since(e.value.learned_at, now),
        idle_for_secs: secs_since(e.value.last_seen, now),
    }
}

/// Whole seconds from one time to another, or none.
pub open spec fn secs_since(then: u64, now: u64) -> u64 {
    if now > then {
        ((now - then) as int / 1_000_000_000) as u64
    } else {
        0
    }
}

fn seconds_since(past: u64, now: u64) -> (r: u64)
    ensures
        r == secs_since(past, now),
{
    if now > past {
        (now - past) / 1_000_000_000
    } else {
        0
    }
}

/// Which peer an address was last seen behind.
pub struct MacTable {
    pub macs: Table<Mac, MacTableEntry>,
}

impl MacTable {
    pub open spec fn wf(self) -> bool {
        self.macs.wf()
    }

    pub open spec fn entries(self) -> Seq<Entry<Mac, MacTableEntry>> {
        self.macs.entries()
    }

    pub fn new() -> (t: MacTable)
        ensures
            t.wf(),
            t.entries() == Seq::<Entry<Mac, MacTableEntry>>::empty(),
    {
        MacTable { macs: Table::new() }
    }

    pub fn clear(&mut self)
        ensures
            final(self).wf(),
            final(self).entries() == Seq::<Entry<Mac, MacTableEntry>>::empty(),
    {
        self.macs.clear();
    }

    /// The peer behind an address.
    pub fn peer_of(&self, mac: &Mac) -> (r: Option<NodeId>)
        requires
            self.wf(),
        ensures
            r == match lookup(self.entries(), *mac) {
                Some(e) => Some(e.node_id),
                None => None,
            },
    {
        match self.macs.get(mac) {
            Some(e) => Some(e.node_id),
            None => None,
        }
    }

    /// Forgets the addresses that were not seen for too long.
    pub fn prune(&mut self, now: u64)
        requires
            old(self).wf(),
        ensures
            final(self).wf(),
            final(self).entries() == lively_macs(old(self).entries(), now),
    {
        let mut kept: Table<Mac, MacTableEntry> = Table::new();
        let n: usize = self.macs.len();
        let ghost all = self.macs.entries();
        proof {
            self.macs.keys_distinct();
        }
        assert(all.subrange(0, 0) =~= Seq::<Entry<Mac, MacTableEntry>>::empty());
        for i in 0..n
            invariant
                n == all.len(),
                distinct(all),
                all == self.macs.entries(),
                kept.wf(),
                kept.entries() == lively_macs(all.subrange(0, i as int), now),
        {
            let e = self.macs.nth(i);
            let ghost front = all.subrange(0, i as int);
            assert(all.subrange(0, i + 1).drop_last() =~= front);
            assert(all.subrange(0, i + 1).last() == all[i as int]);
            proof {
                lively_are_among(front, now);
                not_yet_there(kept.entries(), front, all, i as int);
            }
            if now <= e.value.last_seen || now - e.value.last_seen <= MAC_TABLE_MAX_AGE {
                kept.insert(e.key, e.value);
                assert(kept.entries() =~= lively_macs(front, now).push(all[i as int]));
            }
        }
        assert(all.subrange(0, n as int) =~= all);
        self.macs = kept;
    }

    /// Forgets the addresses behind a peer.
    pub fn remove_node(&mut self, node: &NodeId)
        requires
            old(self).wf(),
        ensures
            final(self).wf(),
            final(self).entries() == macs_without(old(self).entries(), *node),
    {
        let mut kept: Table<Mac, MacTableEntry> = Table::new();
        let n: usize = self.macs.len();
        let ghost all = self.macs.entries();
        proof {
            self.macs.keys_distinct();
        }
        assert(all.subrange(0, 0) =~= Seq::<Entry<Mac, MacTableEntry>>::empty());
        for i in 0..n
            invariant
                n == all.len(),
                distinct(all),
                all == self.macs.entries(),
                kept.wf(),
                kept.entries() == macs_without(all.subrange(0, i as int), *node),
        {
            let e = self.macs.nth(i);
            let ghost front = all.subrange(0, i as int);
            assert(all.subrange(0, i + 1).drop_last() =~= front);
            assert(all.subrange(0, i + 1).last() == all[i as int]);
            proof {
                others_are_among(front, *node);
                not_yet_there(kept.entries(), front, all, i as int);
            }
            if e.value.node_id != *node {
                kept.insert(e.key, e.value);
                assert(kept.entries() =~= macs_without(front, *node).push(all[i as int]));
            }
        }
        assert(all.subrange(0, n as int) =~= all);
        self.macs = kept;
    }

    /// Notes that an address was seen behind a peer.
    pub fn learn(&mut self, mac: Mac, node_id: NodeId, now: u64)
        requires
            old(self).wf(),
        ensures
            final(self).wf(),
            mac_learned(old(self).entries(), final(self).entries(), mac, node_id, now),
    {
        self.prune(now);
        let value = match self.macs.get(&mac) {
            Some(e) => MacTableEntry { node_id, learned_at: e.learned_at, last_seen: now },
            None => MacTableEntry { node_id, learned_at: now, last_seen: now },
        };
        self.macs.insert(mac, value);
        if self.macs.len() > MAC_TABLE_MAX_ENTRIES {
            let i = self.oldest();
            let gone = self.macs.nth(i).key;
            let ghost seen = self.macs.entries();
            assert(oldest_at(seen, i as int));
            let _ = self.macs.remove(&gone);
        }
    }

    fn oldest(&self) -> (r: usize)
        requires
            self.entries().len() > 0,
        ensures
            oldest_at(self.entries(), r as int),
    {
        let n: usize = self.macs.len();
        let mut best: usize = 0;
        for i in 1..n
            invariant
                n == self.entries().len(),
                n > 0,
                best < i,
                forall|j: int|
                    0 <= j < i ==> self.entries()[best as int].value.last_seen <= (
                    #[trigger] self.entries()[j]).value.last_seen,
                forall|j: int|
                    0 <= j < best ==> self.entries()[best as int].value.last_seen < (
                    #[trigger] self.entries()[j]).value.last_seen,
        {
            if self.macs.nth(i).value.last_seen < self.macs.nth(best).value.last_seen {
                best = i;
            }
        }
        best
    }

    /// What is told of the addresses that are known still.
    pub fn snapshot(&mut self, now: u64) -> (r: Vec<L2TableEntry>)
        requires
            old(self).wf(),
        ensures
            final(self).wf(),
            final(self).entries() == lively_macs(old(self).entries(), now),
            views(r@) == Seq::new(
                final(self).entries().len(),
                |i: int| mac_told(final(self).entries()[i], now),
            ),
    {
        self.prune(now);
        let mut r: Vec<L2TableEntry> = Vec::new();
        let n: usize = self.macs.len();
        let ghost whole = Seq::new(
            self.entries().len(),
            |i: int| mac_told(self.entries()[i], now),
        );
        assert(views(r@) =~= whole.subrange(0, 0));
        for i in 0..n
            invariant
                n == self.entries().len(),
                whole == Seq::new(
                    self.entries().len(),
                    |i: int| mac_told(self.entries()[i], now),
                ),
                views(r@) == whole.subrange(0, i as int),
        {
            let e = self.macs.nth(i);
            let ghost before = views(r@);
            r.push(
                L2TableEntry {
                    mac: format_mac(&e.key),
                    node_id: e.value.node_id,
                    learned_for_secs: seconds_since(e.value.learned_at, now),
                    idle_for_secs: seconds_since(e.value.last_seen, now),
                },
            );
            assert(views(r@) =~= before.push(whole[i as int]));
            assert(views(r@) =~= whole.subrange(0, i + 1));
        }
        assert(whole.subrange(0, n as int) =~= whole);
        r
    }
}

/// Each entry of one list is one of another.
spec fn among(part: Seq<Entry<Mac, MacTableEntry>>, all: Seq<Entry<Mac, MacTableEntry>>) -> bool {
    forall|i: int| 0 <= i < part.len() ==> all.contains(#[trigger] part[i])
}

proof fn lively_are_among(s: Seq<Entry<Mac, MacTableEntry>>, now: u64)
    ensures
        among(lively_macs(s, now), s),
        forall|i: int|
            0 <= i < lively_macs(s, now).len() ==> lively(
                (#[trigger] lively_macs(s, now)[i]).value,
                now,
            ),
    decreases s.len(),
{
    if s.len() > 0 {
        lively_are_among(s.drop_last(), now);
        longer_among(lively_macs(s.drop_last(), now), s);
        let before = lively_macs(s.drop_last(), now);
        let all = lively_macs(s, now);
        assert forall|i: int| 0 <= i < all.len() implies s.contains(#[trigger] all[i]) && lively(
            all[i].value,
            now,
        ) by {
            if i < before.len() {
                assert(all[i] == before[i]);
            } else {
                assert(s[s.len() - 1] == all[i]);
            }
        }
    }
}

proof fn others_are_among(s: Seq<Entry<Mac, MacTableEntry>>, node: NodeId)
    ensures
        among(macs_without(s, node), s),
        forall|i: int|
            0 <= i < macs_without(s, node).len() ==> (#[trigger] macs_without(
                s,
                node,
            )[i]).value.node_id != node,
    decreases s.len(),
{
    if s.len() > 0 {
        others_are_among(s.drop_last(), node);
        longer_among(macs_without(s.drop_last(), node), s);
        let before = macs_without(s.drop_last(), node);
        let all = macs_without(s, node);
        assert forall|i: int| 0 <= i < all.len() implies s.contains(#[trigger] all[i])
            && all[i].value.node_id != node by {
            if i < before.len() {
                assert(all[i] == before[i]);
            } else {
                assert(s[s.len() - 1] == all[i]);
            }
        }
    }
}

proof fn longer_among(part: Seq<Entry<Mac, MacTableEntry>>, s: Seq<Entry<Mac, MacTableEntry>>)
    requires
        s.len() > 0,
        among(part, s.drop_last()),
    ensures
        among(part, s),
{
    assert forall|i: int| 0 <= i < part.len() implies s.contains(#[trigger] part[i]) by {
        assert(s.drop_last().contains(part[i]));
        let j = choose|j: int| 0 <= j < s.len() - 1 && s.drop_last()[j] == part[i];
        assert(s[j] == part[i]);
    }
}

/// An entry that stands behind the front of a list is not in a part of the front.
proof fn not_yet_there(
    part: Seq<Entry<Mac, MacTableEntry>>,
    front: Seq<Entry<Mac, MacTableEntry>>,
    all: Seq<Entry<Mac, MacTableEntry>>,
    i: int,
)
    requires
        distinct(all),
        0 <= i < all.len(),
        front == all.subrange(0, i),
        among(part, front),
    ensures
        !has_key(part, all[i].key),
{
    if has_key(part, all[i].key) {
        let j = at(part, all[i].key);
        assert(part[j].key == all[i].key);
        assert(front.contains(part[j]));
        let k = choose|k: int| 0 <= k < front.len() && front[k] == part[j];
        assert(all[k].key == all[i].key);
    }
}

/// An address that is behind a peer is forgotten with the peer.
pub proof fn removed_peer_has_no_macs(s: Seq<Entry<Mac, MacTableEntry>>, node: NodeId, mac: Mac)
    ensures
        lookup(macs_without(s, node), mac) is Some ==> lookup(
            macs_without(s, node),
            mac,
        )->0.node_id != node,
{
    others_are_among(s, node);
    let left = macs_without(s, node);
    if has_key(left, mac) {
        let i = at(left, mac);
        assert(left[i].key == mac);
    }
}

/// An address that was just seen behind a peer is found there, unless there are
/// too many.
pub proof fn learned_mac_is_found(
    s: Seq<Entry<Mac, MacTableEntry>>,
    after: Seq<Entry<Mac, MacTableEntry>>,
    mac: Mac,
    node: NodeId,
    now: u64,
)
    requires
        distinct(lively_macs(s, now)),
        lively_macs(s, now).len() < MAC_TABLE_MAX_ENTRIES,
        mac_learned(s, after, mac, node, now),
    ensures
        lookup(after, mac) is Some,
        lookup(after, mac)->0.node_id == node,
{
    let kept = lively_macs(s, now);
    put_is_insert(
        kept,
        mac,
        match lookup(kept, mac) {
            Some(e) => MacTableEntry { node_id: node, last_seen: now, ..e },
            None => MacTableEntry { node_id: node, learned_at: now, last_seen: now },
        },
    );
}

proof fn lively_contains(s: Seq<Entry<Mac, MacTableEntry>>, now: u64, e: Entry<Mac, MacTableEntry>)
    ensures
        lively_macs(s, now).contains(e) <==> s.contains(e) && now - e.value.last_seen
            <= 300_000_000_000,
    decreases s.len(),
{
    if s.len() > 0 {
        let short = s.drop_last();
        let before = lively_macs(short, now);
        let all = lively_macs(s, now);
        lively_contains(short, now, e);
        if all.contains(e) {
            let i = all.index_of(e);
            if i < before.len() {
                assert(before[i] == e);
                assert(s[short.index_of(e)] == e);
            } else {
                assert(s[s.len() - 1] == e);
            }
        }
        if s.contains(e) && now - e.value.last_seen <= 300_000_000_000 {
            let i = s.index_of(e);
            if i < short.len() {
                assert(short[i] == e);
                assert(all[before.index_of(e)] == e);
            } else {
                assert(all[all.len() - 1] == e);
            }
        }
    }
}

proof fn lively_stay_distinct(s: Seq<Entry<Mac, MacTableEntry>>, now: u64)
    requires
        distinct(s),
    ensures
        distinct(lively_macs(s, now)),
    decreases s.len(),
{
    if s.len() > 0 {
        let short = s.drop_last();
        lively_stay_distinct(short, now);
        let before = lively_macs(short, now);
        let all = lively_macs(s, now);
        assert forall|i: int, j: int| 0 <= i < all.len() && 0 <= j < all.len() && i != j implies (
        #[trigger] all[i]).key != (#[trigger] all[j]).key by {
            if i < before.len() {
                lively_contains(short, now, before[i]);
                assert(before.contains(before[i]));
            }
            if j < before.len() {
                lively_contains(short, now, before[j]);
                assert(before.contains(before[j]));
            }
            if i < before.len() && j < before.len() {
                assert(before[i].key != before[j].key);
            } else if i < before.len() {
                let a = short.index_of(before[i]);
                assert(s[a].key != s[s.len() - 1].key);
            } else {
                let b = short.index_of(before[j]);
                assert(s[b].key != s[s.len() - 1].key);
            }
        }
    }
}

/// An address is known as long as it was seen within the last five minutes, and no
/// longer.
pub proof fn lively_addresses_stay(s: Seq<Entry<Mac, MacTableEntry>>, now: u64, mac: Mac)
    requires
        distinct(s),
    ensures
        lookup(lively_macs(s, now), mac) == (if lookup(s, mac) is Some && now - lookup(
            s,
            mac,
        )->0.last_seen <= 300_000_000_000 {
            lookup(s, mac)
        } else {
            None
        }),
        distinct(lively_macs(s, now)),
{
    let all = lively_macs(s, now);
    lively_stay_distinct(s, now);
    if has_key(s, mac) {
        let i = at(s, mac);
        let e = s[i];
        assert(s[i].key == mac);
        lively_contains(s, now, e);
        assert(s.contains(e));
        if now - e.value.last_seen <= 300_000_000_000 {
            let j = all.index_of(e);
            assert(all[j].key == mac);
            crate::table::at_is(all, j);
        }
    }
    if has_key(all, mac) {
        let j = at(all, mac);
        let e = all[j];
        assert(all[j].key == mac);
        assert(all.contains(e));
        lively_contains(s, now, e);
        let i = s.index_of(e);
        assert(s[i].key == mac);
        crate::table::at_is(s, i);
    }
}

/// An address that is seen behind a peer is known to be behind it, whatever was
/// known before; when it was first seen stays. Others that were seen within the
/// last five minutes stay known, as long as there are no more than 4096.
pub proof fn an_address_moves_with_its_station(
    before: Seq<Entry<Mac, MacTableEntry>>,
    after: Seq<Entry<Mac, MacTableEntry>>,
    mac: Mac,
    node: NodeId,
    now: u64,
    other: Mac,
)
    requires
        distinct(before),
        before.len() < 4096,
        mac_learned(before, after, mac, node, now),
    ensures
        lookup(after, mac) is Some,
        lookup(after, mac)->0.node_id == node,
        lookup(after, mac)->0.last_seen == now,
        lookup(before, mac) is Some && now - lookup(before, mac)->0.last_seen <= 300_000_000_000
            ==> lookup(after, mac)->0.learned_at == lookup(before, mac)->0.learned_at,
        lookup(before, mac) is None ==> lookup(after, mac)->0.learned_at == now,
        other != mac ==> lookup(after, other) == (if lookup(before, other) is Some && now - lookup(
            before,
            other,
        )->0.last_seen <= 300_000_000_000 {
            lookup(before, other)
        } else {
            None
        }),
{
    let kept = lively_macs(before, now);
    lively_addresses_stay(before, now, mac);
    lively_addresses_stay(before, now, other);
    lively_are_few(before, now);
    let e = match lookup(kept, mac) {
        Some(e) => MacTableEntry { node_id: node, last_seen: now, ..e },
        None => MacTableEntry { node_id: node, learned_at: now, last_seen: now },
    };
    crate::table::put_is_insert(kept, mac, e);
}

proof fn lively_are_few(s: Seq<Entry<Mac, MacTableEntry>>, now: u64)
    ensures
        lively_macs(s, now).len() <= s.len(),
    decreases s.len(),
{
    if s.len() > 0 {
        lively_are_few(s.drop_last(), now);
    }
}

/// No more than 4096 addresses are known after one was seen, if no more were
/// before; where one has to go, it is one that was not seen for longest.
pub proof fn addresses_stay_few(
    before: Seq<Entry<Mac, MacTableEntry>>,
    after: Seq<Entry<Mac, MacTableEntry>>,
    mac: Mac,
    node: NodeId,
    now: u64,
)
    requires
        distinct(before),
        before.len() <= 4096,
        mac_learned(before, after, mac, node, now),
    ensures
        after.len() <= 4096,
{
    lively_are_few(before, now);
    let seen = mac_seen(lively_macs(before, now), mac, node, now);
    if seen.len() > MAC_TABLE_MAX_ENTRIES {
        let i = choose|i: int| #[trigger] oldest_at(seen, i) && after == cut(seen, seen[i].key);
        assert(has_key(seen, seen[i].key));
    }
}

/// A frame holds an IP packet if its type says so: 0x0800 for version 4, 0x86dd for
/// version 6. The packet follows the fourteen bytes of the header.
pub proof fn frames_tell_what_they_hold(frame: Seq<u8>)
    ensures
        frame.len() < 14 ==> ip_in_frame(frame) is None,
        frame.len() >= 14 ==> (ip_in_frame(frame) is Some <==> (frame[12] == 8 && frame[13] == 0)
            || (frame[12] == 0x86 && frame[13] == 0xdd)),
        ip_in_frame(frame) is Some ==> ip_in_frame(frame)->0.len() == frame.len() - 14
            && forall|i: int|
            0 <= i < frame.len() - 14 ==> #[trigger] ip_in_frame(frame)->0[i] == frame[i + 14],
{
}

/// The address of all stations is one of those that stand for several.
pub proof fn all_stations_are_several(m: Seq<u8>)
    requires
        m.len() == 6,
    ensures
        broadcast_mac(m) ==> multicast_mac(m),
        multicast_mac(m) <==> m[0] % 2 == 1,
        broadcast_mac(m) <==> m =~= seq![255u8, 255u8, 255u8, 255u8, 255u8, 255u8],
{
    if broadcast_mac(m) {
        assert(m[0] == 0xff);
    }
    if m =~= seq![255u8, 255u8, 255u8, 255u8, 255u8, 255u8] {
        assert forall|i: int| 0 <= i < 6 implies #[trigger] m[i] == 0xff by {}
    }
}

proof fn others_contains(s: Seq<Entry<Mac, MacTableEntry>>, node: NodeId, e: Entry<Mac, MacTableEntry>)
    ensures
        macs_without(s, node).contains(e) <==> s.contains(e) && e.value.node_id != node,
    decreases s.len(),
{
    if s.len() > 0 {
        let short = s.drop_last();
        let before = macs_without(short, node);
        let all = macs_without(s, node);
        others_contains(short, node, e);
        if all.contains(e) {
            let i = all.index_of(e);
            if i < before.len() {
                assert(before[i] == e);
                assert(s[short.index_of(e)] == e);
            } else {
                assert(s[s.len() - 1] == e);
            }
        }
        if s.contains(e) && e.value.node_id != node {
            let i = s.index_of(e);
            if i < short.len() {
                assert(short[i] == e);
                assert(all[before.index_of(e)] == e);
            } else {
                assert(all[all.len() - 1] == e);
            }
        }
    }
}

/// With a peer exactly the addresses behind it are forgotten.
pub proof fn only_its_addresses_go_with_a_peer(
    s: Seq<Entry<Mac, MacTableEntry>>,
    node: NodeId,
    e: Entry<Mac, MacTableEntry>,
)
    ensures
        macs_without(s, node).contains(e) <==> s.contains(e) && e.value.node_id != node,
{
    others_contains(s, node, e);
}

/// Times are told in whole seconds, rounded down.
pub proof fn times_are_told_in_seconds(e: Entry<Mac, MacTableEntry>, now: u64)
    requires
        e.value.learned_at <= now,
        e.value.last_seen <= now,
    ensures
        mac_told(e, now).node_id == e.value.node_id,
        mac_told(e, now).learned_for_secs * 1_000_000_000 <= now - e.value.learned_at < (mac_told(
            e,
            now,
        ).learned_for_secs + 1) * 1_000_000_000,
        mac_told(e, now).idle_for_secs * 1_000_000_000 <= now - e.value.last_seen < (mac_told(
            e,
            now,
        ).idle_for_secs + 1) * 1_000_000_000,
{
}

} // verus!
