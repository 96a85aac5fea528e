//! Counters of what happened, for the node and for each peer.

use crate::common::{NatType, NodeId};
use crate::net::SocketAddr;
use crate::proto::DataPacketType;
use crate::table::{
    as_map, at, at_is, distinct, has_key, lookup, put, put_is_insert, update_is_put, AssocVec,
    Entry, Key, Table,
};
use crate::text::opt_text;
use std::collections::VecDeque;
use vstd::prelude::*;

verus! {

#[derive(Debug, Clone, Copy, PartialEq, Eq, Structural)]
pub enum PathKind {
    Direct,
    Relay,
}

/// A ping that was not answered yet; the time is in nanoseconds.
#[derive(Debug, Clone, Copy)]
pub struct PingRecord {
    pub addr: SocketAddr,
    pub sent_at: u64,
    pub is_active: bool,
}

/// The counters of a peer.
pub struct PeerCounters {
    pub path: PathKind,
    pub last_rtt_ms: Option<u32>,
    pub relay_hits: u64,
    pub direct_hits: u64,
    pub handshake_successes: u64,
    pub handshake_failures: u64,
    pub packet_drops: u64,
    pub pending_pings: AssocVec<u32, PingRecord>,
    pub ping_window: VecDeque<bool>,
}

/// What the counters of a peer say.
#[verifier::ext_equal]
pub struct PeerView {
    pub path: PathKind,
    pub last_rtt_ms: Option<u32>,
    pub relay_hits: u64,
    pub direct_hits: u64,
    pub handshake_successes: u64,
    pub handshake_failures: u64,
    pub packet_drops: u64,
    pub pending: Seq<Entry<u32, PingRecord>>,
    pub window: Seq<bool>,
}

impl View for PeerCounters {
    type V = PeerView;

    open spec fn view(&self) -> PeerView {
        PeerView {
            path: self.path,
            last_rtt_ms: self.last_rtt_ms,
            relay_hits: self.relay_hits,
            direct_hits: self.direct_hits,
            handshake_successes: self.handshake_successes,
            handshake_failures: self.handshake_failures,
            packet_drops: self.packet_drops,
            pending: self.pending_pings.entries@,
            window: self.ping_window@,
        }
    }
}

/// A peer of which nothing happened yet; it is taken to be reached by relay.
pub open spec fn blank_peer() -> PeerView {
    PeerView {
        path: PathKind::Relay,
        last_rtt_ms: None,
        relay_hits: 0,
        direct_hits: 0,
        handshake_successes: 0,
        handshake_failures: 0,
        packet_drops: 0,
        pending: Seq::empty(),
        window: Seq::empty(),
    }
}

/// What is known of a peer, which may be nothing.
pub open spec fn known(peers: Map<NodeId, PeerView>, peer: NodeId) -> PeerView {
    if peers.dom().contains(peer) {
        peers[peer]
    } else {
        blank_peer()
    }
}

/// The outcomes of the last twenty probes with one more behind them.
pub open spec fn window_push(w: Seq<bool>, ok: bool) -> Seq<bool> {
    if w.len() >= 20 {
        w.push(ok).subrange(1, w.push(ok).len() as int)
    } else {
        w.push(ok)
    }
}

/// A ping that has waited for longer than the timeout.
pub open spec fn expired(r: PingRecord, now: u64, timeout: u64) -> bool {
    now - r.sent_at > timeout
}

/// The pings that have not expired, in their order.
pub open spec fn still_pending(
    s: Seq<Entry<u32, PingRecord>>,
    now: u64,
    timeout: u64,
) -> Seq<Entry<u32, PingRecord>>
    decreases s.len(),
{
    if s.len() == 0 {
        s
    } else {
        let before = still_pending(s.drop_last(), now, timeout);
        if expired(s.last().value, now, timeout) {
            before
        } else {
            before.push(s.last())
        }
    }
}

/// The outcomes after the pings that have expired: a failure for each that
/// tested the way in use.
pub open spec fn window_after(
    w: Seq<bool>,
    s: Seq<Entry<u32, PingRecord>>,
    now: u64,
    timeout: u64,
) -> Seq<bool>
    decreases s.len(),
{
    if s.len() == 0 {
        w
    } else {
        let before = window_after(w, s.drop_last(), now, timeout);
        if expired(s.last().value, now, timeout) && s.last().value.is_active {
            window_push(before, false)
        } else {
            before
        }
    }
}

/// The addresses that the pings which have expired were sent to.
pub open spec fn lost(
    peer: NodeId,
    s: Seq<Entry<u32, PingRecord>>,
    now: u64,
    timeout: u64,
) -> Seq<(NodeId, SocketAddr)>
    decreases s.len(),
{
    if s.len() == 0 {
        Seq::empty()
    } else {
        let before = lost(peer, s.drop_last(), now, timeout);
        if expired(s.last().value, now, timeout) {
            before.push((peer, s.last().value.addr))
        } else {
            before
        }
    }
}

/// A peer after its expired pings were dealt with.
pub open spec fn aged(v: PeerView, now: u64, timeout: u64) -> PeerView {
    PeerView {
        pending: still_pending(v.pending, now, timeout),
        window: window_after(v.window, v.pending, now, timeout),
        ..v
    }
}

/// The peers of a table as a map of what their counters say.
pub open spec fn peer_map(s: Seq<Entry<NodeId, PeerCounters>>) -> Map<NodeId, PeerView> {
    Map::new(|k: NodeId| has_key(s, k), |k: NodeId| s[at(s, k)].value@)
}

/// The expired pings of all peers, in the order of the table.
pub open spec fn lost_by_all(
    s: Seq<Entry<NodeId, PeerCounters>>,
    now: u64,
    timeout: u64,
) -> Seq<(NodeId, SocketAddr)>
    decreases s.len(),
{
    if s.len() == 0 {
        Seq::empty()
    } else {
        lost_by_all(s.drop_last(), now, timeout) + lost(
            s.last().key,
            s.last().value@.pending,
            now,
            timeout,
        )
    }
}

/// What is told of the port mapping; the time is in nanoseconds.
#[derive(Debug)]
pub struct PortMappingMetrics {
    pub acquired: bool,
    pub protocol: Option<String>,
    pub external_addr: Option<String>,
    pub lease_expires_at: Option<u64>,
}

pub struct MetricsRegistry {
    pub handshake_successes: u64,
    pub handshake_failures: u64,
    pub relay_packets: u64,
    pub direct_packets: u64,
    pub packet_drops: u64,
    pub broadcast_packets: u64,
    pub multicast_packets: u64,
    pub l2_flood_packets: u64,
    pub port_mapping: PortMappingMetrics,
    pub peers: Table<NodeId, PeerCounters>,
}

/// What a registry says.
#[verifier::ext_equal]
pub struct RegistryView {
    pub handshake_successes: u64,
    pub handshake_failures: u64,
    pub relay_packets: u64,
    pub direct_packets: u64,
    pub packet_drops: u64,
    pub broadcast_packets: u64,
    pub multicast_packets: u64,
    pub l2_flood_packets: u64,
    pub port_mapping: PortMappingMetrics,
    pub peers: Map<NodeId, PeerView>,
}

impl View for MetricsRegistry {
    type V = RegistryView;

    open spec fn view(&self) -> RegistryView {
        RegistryView {
            handshake_successes: self.handshake_successes,
            handshake_failures: self.handshake_failures,
            relay_packets: self.relay_packets,
            direct_packets: self.direct_packets,
            packet_drops: self.packet_drops,
            broadcast_packets: self.broadcast_packets,
            multicast_packets: self.multicast_packets,
            l2_flood_packets: self.l2_flood_packets,
            port_mapping: self.port_mapping,
            peers: peer_map(self.peers.entries()),
        }
    }
}

/// How a peer has done; the share of lost probes is `window_failures` out of
/// `window_len`, and nothing where no probe was made.
#[derive(Debug, Clone, Copy)]
pub struct PeerPathMetrics {
    pub peer: NodeId,
    pub path: PathKind,
    pub last_rtt_ms: Option<u32>,
    pub relay_hits: u64,
    pub direct_hits: u64,
    pub handshake_successes: u64,
    pub handshake_failures: u64,
    pub packet_drops: u64,
    pub window_failures: u32,
    pub window_len: u32,
}

#[derive(Debug)]
pub struct MetricsSnapshot {
    pub handshake_successes: u64,
    pub handshake_failures: u64,
    pub relay_packets: u64,
    pub direct_packets: u64,
    pub packet_drops: u64,
    pub broadcast_packets: u64,
    pub multicast_packets: u64,
    pub l2_flood_packets: u64,
    pub port_mapping_acquired: bool,
    pub port_mapping_protocol: Option<String>,
    pub port_mapping_external_addr: Option<String>,
    pub port_mapping_lease_remaining_secs: Option<u64>,
    pub peers: Vec<PeerPathMetrics>,
}

/// How many probes of a list failed.
pub open spec fn failures(w: Seq<bool>) -> nat
    decreases w.len(),
{
    if w.len() == 0 {
        0
    } else {
        failures(w.drop_last()) + if w.last() {
            0nat
        } else {
            1nat
        }
    }
}

/// What is told of a peer.
pub open spec fn peer_told(peer: NodeId, v: PeerView) -> PeerPathMetrics {
    PeerPathMetrics {
        peer,
        path: v.path,
        last_rtt_ms: v.last_rtt_ms,
        relay_hits: v.relay_hits,
        direct_hits: v.direct_hits,
        handshake_successes: v.handshake_successes,
        handshake_failures: v.handshake_failures,
        packet_drops: v.packet_drops,
        window_failures: failures(v.window) as u32,
        window_len: v.window.len() as u32,
    }
}

proof fn map_after_put(s: Seq<Entry<NodeId, PeerCounters>>, k: NodeId, v: PeerCounters)
    requires
        distinct(s),
    ensures
        peer_map(put(s, k, v)) == peer_map(s).insert(k, v@),
{
    put_is_insert(s, k, v);
    let t = put(s, k, v);
    assert forall|o: NodeId| #[trigger] peer_map(t).dom().contains(o) == peer_map(s).insert(
        k,
        v@,
    ).dom().contains(o) by {
        if o != k {
            assert(lookup(t, o) == lookup(s, o));
        }
    }
    assert forall|o: NodeId| #[trigger] peer_map(t).dom().contains(o) implies peer_map(t)[o]
        == peer_map(s).insert(k, v@)[o] by {
        if o != k {
            assert(lookup(t, o) == lookup(s, o));
        }
    }
    assert(peer_map(t) =~= peer_map(s).insert(k, v@));
}

impl PeerCounters {
    /// Pending pings have distinct numbers, and at most twenty outcomes count.
    pub open spec fn wf(self) -> bool {
        self.pending_pings.wf() && self.ping_window@.len() <= 20
    }

    fn new() -> (c: PeerCounters)
        ensures
            c.wf(),
            c@ == blank_peer(),
    {
        let c = PeerCounters {
            path: PathKind::Relay,
            last_rtt_ms: None,
            relay_hits: 0,
            direct_hits: 0,
            handshake_successes: 0,
            handshake_failures: 0,
            packet_drops: 0,
            pending_pings: AssocVec::new(),
            ping_window: VecDeque::new(),
        };
        assert(c@ =~= blank_peer());
        c
    }

    fn push_outcome(&mut self, ok: bool)
        requires
            old(self).wf(),
        ensures
            final(self).wf(),
            final(self)@ == (PeerView { window: window_push(old(self)@.window, ok), ..old(self)@ }),
    {
        self.ping_window.push_back(ok);
        if self.ping_window.len() > 20 {
            let _ = self.ping_window.pop_front();
        }
        assert(self@ =~= (PeerView { window: window_push(old(self)@.window, ok), ..old(self)@ }));
    }

    /// Deals with the pings that have expired.
    fn age(&mut self, peer: NodeId, now: u64, timeout: u64, out: &mut Vec<(NodeId, SocketAddr)>)
        requires
            old(self).wf(),
        ensures
            final(self).wf(),
            final(self)@ == aged(old(self)@, now, timeout),
            final(out)@ == old(out)@ + lost(peer, old(self)@.pending, now, timeout),
    {
        let ghost before = self@;
        let ghost all = self.pending_pings.entries@;
        let ghost start = out@;
        let n: usize = self.pending_pings.entries.len();
        let mut kept: AssocVec<u32, PingRecord> = AssocVec::new();
        assert(all.subrange(0, 0) =~= Seq::<Entry<u32, PingRecord>>::empty());
        assert(out@ =~= start + lost(peer, all.subrange(0, 0), now, timeout));
        for i in 0..n
            invariant
                n == all.len(),
                distinct(all),
                self.wf(),
                self.pending_pings.entries@ == all,
                self@ == (PeerView {
                    window: window_after(before.window, all.subrange(0, i as int), now, timeout),
                    ..before
                }),
                before.pending == all,
                kept.wf(),
                kept.entries@ == still_pending(all.subrange(0, i as int), now, timeout),
                forall|j: int|
                    0 <= j < kept.entries@.len() ==> exists|k: int|
                        0 <= k < i && (#[trigger] kept.entries@[j]).key == (#[trigger] all[k]).key,
                out@ == start + lost(peer, all.subrange(0, i as int), now, timeout),
        {
            let key = self.pending_pings.entries[i].key;
            let r = self.pending_pings.entries[i].value;
            let ghost front = all.subrange(0, i as int);
            let ghost longer = all.subrange(0, i + 1);
            assert(longer.drop_last() =~= front);
            assert(longer.last() == all[i as int]);
            if now > r.sent_at && now - r.sent_at > timeout {
                if r.is_active {
                    self.push_outcome(false);
                }
                out.push((peer, r.addr));
                assert(out@ =~= start + lost(peer, longer, now, timeout));
            } else {
                let ghost was = kept.entries@;
                assert(!has_key(was, key)) by {
                    if has_key(was, key) {
                        let j = at(was, key);
                        assert(was[j].key == key);
                        let k = choose|k: int|
                            0 <= k < i && was[j].key == (#[trigger] all[k]).key;
                        assert(all[k].key != all[i as int].key);
                    }
                }
                kept.insert(key, r);
                assert(kept.entries@ =~= was.push(all[i as int]));
                assert forall|j: int| 0 <= j < kept.entries@.len() implies exists|k: int|
                    0 <= k < i + 1 && (#[trigger] kept.entries@[j]).key == (
                    #[trigger] all[k]).key by {
                    if j < was.len() {
                        assert(kept.entries@[j] == was[j]);
                    } else {
                        assert(kept.entries@[j].key == all[i as int].key);
                    }
                }
                assert(out@ =~= start + lost(peer, longer, now, timeout));
            }
        }
        assert(all.subrange(0, n as int) =~= all);
        self.pending_pings = kept;
        assert(self@ =~= aged(before, now, timeout));
    }

    fn failure_count(&self) -> (n: u32)
        requires
            self.wf(),
        ensures
            n == failures(self.ping_window@),
    {
        let len: usize = self.ping_window.len();
        let mut n: u32 = 0;
        assert(self.ping_window@.subrange(0, 0) =~= Seq::<bool>::empty());
        for i in 0..len
            invariant
                len == self.ping_window@.len(),
                len <= 20,
                n <= i,
                n == failures(self.ping_window@.subrange(0, i as int)),
        {
            assert(self.ping_window@.subrange(0, i + 1).drop_last()
                =~= self.ping_window@.subrange(0, i as int));
            if !self.ping_window[i] {
                n += 1;
            }
        }
        assert(self.ping_window@.subrange(0, len as int) =~= self.ping_window@);
        n
    }
}

/// The counters that a registry keeps for each peer and in all.
pub enum Counter {
    HandshakeSuccesses,
    HandshakeFailures,
    Direct,
    Relay,
    Drops,
}

/// How many values a counter takes before it begins anew.
pub open spec fn counter_range() -> nat {
    0x1_0000_0000_0000_0000
}

/// A counter of a peer.
pub open spec fn counter_of(v: PeerView, c: Counter) -> nat {
    match c {
        Counter::HandshakeSuccesses => v.handshake_successes as nat,
        Counter::HandshakeFailures => v.handshake_failures as nat,
        Counter::Direct => v.direct_hits as nat,
        Counter::Relay => v.relay_hits as nat,
        Counter::Drops => v.packet_drops as nat,
    }
}

/// A counter in all.
pub open spec fn total_of(v: RegistryView, c: Counter) -> nat {
    match c {
        Counter::HandshakeSuccesses => v.handshake_successes as nat,
        Counter::HandshakeFailures => v.handshake_failures as nat,
        Counter::Direct => v.direct_packets as nat,
        Counter::Relay => v.relay_packets as nat,
        Counter::Drops => v.packet_drops as nat,
    }
}

/// The sum of a counter over all peers.
pub open spec fn tally(s: Seq<Entry<NodeId, PeerCounters>>, c: Counter) -> nat
    decreases s.len(),
{
    if s.len() == 0 {
        0
    } else {
        tally(s.drop_last(), c) + counter_of(s.last().value@, c)
    }
}

/// The sum of a counter over the peers that a snapshot tells of.
pub open spec fn told_tally(s: Seq<PeerPathMetrics>, c: Counter) -> nat
    decreases s.len(),
{
    if s.len() == 0 {
        0
    } else {
        let p = s.last();
        told_tally(s.drop_last(), c) + match c {
            Counter::HandshakeSuccesses => p.handshake_successes as nat,
            Counter::HandshakeFailures => p.handshake_failures as nat,
            Counter::Direct => p.direct_hits as nat,
            Counter::Relay => p.relay_hits as nat,
            Counter::Drops => p.packet_drops as nat,
        }
    }
}

proof fn tally_after_update(
    s: Seq<Entry<NodeId, PeerCounters>>,
    i: int,
    e: Entry<NodeId, PeerCounters>,
    c: Counter,
)
    requires
        0 <= i < s.len(),
    ensures
        tally(s.update(i, e), c) + counter_of(s[i].value@, c) == tally(s, c) + counter_of(
            e.value@,
            c,
        ),
    decreases s.len(),
{
    let t = s.update(i, e);
    if i == s.len() - 1 {
        assert(t.drop_last() =~= s.drop_last());
    } else {
        tally_after_update(s.drop_last(), i, e, c);
        assert(t.drop_last() =~= s.drop_last().update(i, e));
    }
}

/// How all the sums change when one peer does.
proof fn tallies_after_update(
    s: Seq<Entry<NodeId, PeerCounters>>,
    i: int,
    e: Entry<NodeId, PeerCounters>,
)
    requires
        0 <= i < s.len(),
    ensures
        forall|c: Counter| #[trigger]
            tally(s.update(i, e), c) + counter_of(s[i].value@, c) == tally(s, c) + counter_of(
                e.value@,
                c,
            ),
{
    assert forall|c: Counter| #[trigger]
        tally(s.update(i, e), c) + counter_of(s[i].value@, c) == tally(s, c) + counter_of(
            e.value@,
            c,
        ) by {
        tally_after_update(s, i, e, c);
    }
}

/// A peer of which nothing happened yet adds nothing.
proof fn tallies_after_blank(
    s: Seq<Entry<NodeId, PeerCounters>>,
    e: Entry<NodeId, PeerCounters>,
)
    requires
        e.value@ == blank_peer(),
    ensures
        forall|c: Counter| #[trigger] tally(s.push(e), c) == tally(s, c),
{
    assert forall|c: Counter| #[trigger] tally(s.push(e), c) == tally(s, c) by {
        assert(s.push(e).drop_last() =~= s);
    }
}

proof fn told_tally_is_tally(
    told: Seq<PeerPathMetrics>,
    s: Seq<Entry<NodeId, PeerCounters>>,
    c: Counter,
)
    requires
        told.len() == s.len(),
        forall|i: int|
            0 <= i < s.len() ==> #[trigger] told[i] == peer_told(s[i].key, s[i].value@),
    ensures
        told_tally(told, c) == tally(s, c),
    decreases s.len(),
{
    if s.len() > 0 {
        assert(told[s.len() - 1] == peer_told(s.last().key, s.last().value@));
        assert forall|i: int| 0 <= i < s.len() - 1 implies #[trigger] told.drop_last()[i]
            == peer_told(s.drop_last()[i].key, s.drop_last()[i].value@) by {
            assert(told[i] == peer_told(s[i].key, s[i].value@));
        }
        told_tally_is_tally(told.drop_last(), s.drop_last(), c);
    }
}

proof fn failures_are_probes(w: Seq<bool>)
    ensures
        failures(w) <= w.len(),
    decreases w.len(),
{
    if w.len() > 0 {
        failures_are_probes(w.drop_last());
    }
}

/// What is known where nothing happened yet.
pub open spec fn blank_registry() -> RegistryView {
    RegistryView {
        handshake_successes: 0,
        handshake_failures: 0,
        relay_packets: 0,
        direct_packets: 0,
        packet_drops: 0,
        broadcast_packets: 0,
        multicast_packets: 0,
        l2_flood_packets: 0,
        port_mapping: PortMappingMetrics {
            acquired: false,
            protocol: None,
            external_addr: None,
            lease_expires_at: None,
        },
        peers: Map::empty(),
    }
}

impl MetricsRegistry {
    /// The peers are in order, and the handshakes and packets in all are the sums
    /// over the peers, as far as a counter reaches.
    pub open spec fn wf(self) -> bool {
        &&& self.peers.wf()
        &&& forall|i: int|
            0 <= i < self.peers.entries().len() ==> (#[trigger] self.peers.entries()[i]).value.wf()
        &&& self.totals_agree()
    }

    /// The handshakes and packets in all are the sums over the peers, as far as a
    /// counter reaches.
    pub open spec fn totals_agree(self) -> bool {
        forall|c: Counter|
            !(c is Drops) ==> total_of(self@, c) == #[trigger] tally(self.peers.entries(), c)
                % counter_range()
    }

    /// No more drops are put down to peers than there were.
    pub open spec fn drops_covered(self) -> bool {
        tally(self.peers.entries(), Counter::Drops) <= self@.packet_drops
    }

    /// A registry of which nothing happened yet.
    pub fn new() -> (m: MetricsRegistry)
        ensures
            m.wf(),
            m@ == blank_registry(),
            m.drops_covered(),
            m.peers.entries().len() == 0,
    {
        let m = MetricsRegistry {
            handshake_successes: 0,
            handshake_failures: 0,
            relay_packets: 0,
            direct_packets: 0,
            packet_drops: 0,
            broadcast_packets: 0,
            multicast_packets: 0,
            l2_flood_packets: 0,
            port_mapping: PortMappingMetrics {
                acquired: false,
                protocol: None,
                external_addr: None,
                lease_expires_at: None,
            },
            peers: Table::new(),
        };
        assert(m@.peers =~= Map::<NodeId, PeerView>::empty());
        m
    }

    /// Sees to it that a peer has counters and tells where they stand.
    fn ensure_peer(&mut self, peer: NodeId) -> (i: usize)
        requires
            old(self).wf(),
        ensures
            final(self).wf(),
            final(self)@ == (RegistryView {
                peers: old(self)@.peers.insert(peer, known(old(self)@.peers, peer)),
                ..old(self)@
            }),
            i < final(self).peers.entries().len(),
            final(self).peers.entries()[i as int].key == peer,
            final(self).peers.entries()[i as int].value@ == known(old(self)@.peers, peer),
            forall|c: Counter| #[trigger]
                tally(final(self).peers.entries(), c) == tally(old(self).peers.entries(), c),
    {
        let ghost before = self.peers.entries();
        proof {
            self.peers.keys_distinct();
        }
        match self.peers.find(&peer) {
            Some(i) => {
                assert(self@ =~= (RegistryView {
                    peers: old(self)@.peers.insert(peer, known(old(self)@.peers, peer)),
                    ..old(self)@
                })) by {
                    assert(peer_map(before) =~= peer_map(before).insert(
                        peer,
                        known(peer_map(before), peer),
                    ));
                }
                i
            },
            None => {
                let c = PeerCounters::new();
                let ghost cv = c;
                self.peers.insert(peer, c);
                proof {
                    map_after_put(before, peer, cv);
                    tallies_after_blank(before, Entry { key: peer, value: cv });
                }
                assert(self@ =~= (RegistryView {
                    peers: old(self)@.peers.insert(peer, known(old(self)@.peers, peer)),
                    ..old(self)@
                }));
                self.peers.len() - 1
            },
        }
    }

    /// Counts a handshake with a peer.
    pub fn mark_handshake(&mut self, peer: NodeId, success: bool)
        requires
            old(self).wf(),
        ensures
            final(self).wf(),
            final(self)@ == handshake_counted(old(self)@, peer, success),
            old(self).drops_covered() ==> final(self).drops_covered(),
    {
        let i = self.ensure_peer(peer);
        let ghost mid = self.peers.entries();
        proof {
            self.peers.keys_distinct();
        }
        let c = self.peers.value_mut(i);
        if success {
            self.handshake_successes = self.handshake_successes.wrapping_add(1);
            c.handshake_successes = c.handshake_successes.wrapping_add(1);
        } else {
            self.handshake_failures = self.handshake_failures.wrapping_add(1);
            c.handshake_failures = c.handshake_failures.wrapping_add(1);
        }
        proof {
            let v = self.peers.entries()[i as int].value;
            update_is_put(mid, i as int, v);
            map_after_put(mid, peer, v);
            tallies_after_update(mid, i as int, self.peers.entries()[i as int]);
        }
    }

    /// Counts a packet and remembers by which way it went.
    pub fn mark_path_hit(&mut self, peer: NodeId, path: PathKind)
        requires
            old(self).wf(),
        ensures
            final(self).wf(),
            final(self)@ == path_hit(old(self)@, peer, path),
            old(self).drops_covered() ==> final(self).drops_covered(),
    {
        let i = self.ensure_peer(peer);
        let ghost mid = self.peers.entries();
        proof {
            self.peers.keys_distinct();
        }
        let c = self.peers.value_mut(i);
        c.path = path;
        match path {
            PathKind::Direct => {
                self.direct_packets = self.direct_packets.wrapping_add(1);
                c.direct_hits = c.direct_hits.wrapping_add(1);
            },
            PathKind::Relay => {
                self.relay_packets = self.relay_packets.wrapping_add(1);
                c.relay_hits = c.relay_hits.wrapping_add(1);
            },
        }
        proof {
            let v = self.peers.entries()[i as int].value;
            update_is_put(mid, i as int, v);
            map_after_put(mid, peer, v);
            tallies_after_update(mid, i as int, self.peers.entries()[i as int]);
            assert(self@ =~= path_hit(old(self)@, peer, path));
        }
    }

    /// Counts a packet that was dropped, and whose it was if that is known.
    pub fn mark_packet_drop(&mut self, peer: Option<NodeId>)
        requires
            old(self).wf(),
        ensures
            final(self).wf(),
            final(self)@ == packet_dropped(old(self)@, peer),
            old(self).drops_covered() && old(self)@.packet_drops < u64::MAX
                ==> final(self).drops_covered(),
    {
        self.packet_drops = self.packet_drops.wrapping_add(1);
        if let Some(peer) = peer {
            let i = self.ensure_peer(peer);
            let ghost mid = self.peers.entries();
            proof {
                self.peers.keys_distinct();
            }
            let c = self.peers.value_mut(i);
            c.packet_drops = c.packet_drops.wrapping_add(1);
            proof {
                let v = self.peers.entries()[i as int].value;
                update_is_put(mid, i as int, v);
                map_after_put(mid, peer, v);
            tallies_after_update(mid, i as int, self.peers.entries()[i as int]);
            }
        }
        assert(self@ =~= packet_dropped(old(self)@, peer));
    }

    /// Counts a packet that is flooded.
    pub fn mark_discovery_packet(&mut self, packet_type: DataPacketType)
        requires
            old(self).wf(),
        ensures
            final(self).wf(),
            final(self)@ == flooded(old(self)@, packet_type),
            old(self).drops_covered() ==> final(self).drops_covered(),
    {
        match packet_type {
            DataPacketType::Broadcast => {
                self.broadcast_packets = self.broadcast_packets.wrapping_add(1);
            },
            DataPacketType::Multicast => {
                self.multicast_packets = self.multicast_packets.wrapping_add(1);
            },
            DataPacketType::Ethernet => {
                self.l2_flood_packets = self.l2_flood_packets.wrapping_add(1);
            },
            _ => {},
        }
        assert(self@ =~= flooded(old(self)@, packet_type));
    }

    /// Remembers the round trip time of a peer.
    pub fn update_rtt(&mut self, peer: NodeId, rtt_ms: Option<u32>)
        requires
            old(self).wf(),
        ensures
            final(self).wf(),
            final(self)@ == (RegistryView {
                peers: old(self)@.peers.insert(
                    peer,
                    PeerView { last_rtt_ms: rtt_ms, ..known(old(self)@.peers, peer) },
                ),
                ..old(self)@
            }),
            old(self).drops_covered() ==> final(self).drops_covered(),
    {
        let i = self.ensure_peer(peer);
        let ghost mid = self.peers.entries();
        proof {
            self.peers.keys_distinct();
        }
        let c = self.peers.value_mut(i);
        c.last_rtt_ms = rtt_ms;
        proof {
            let v = self.peers.entries()[i as int].value;
            update_is_put(mid, i as int, v);
            map_after_put(mid, peer, v);
            tallies_after_update(mid, i as int, self.peers.entries()[i as int]);
        }
    }

    /// Remembers what is told of the port mapping.
    pub fn set_port_mapping_status(
        &mut self,
        acquired: bool,
        protocol: Option<String>,
        external_addr: Option<String>,
        lease_expires_at: Option<u64>,
    )
        requires
            old(self).wf(),
        ensures
            final(self).wf(),
            final(self)@ == (RegistryView {
                port_mapping: PortMappingMetrics {
                    acquired,
                    protocol,
                    external_addr,
                    lease_expires_at,
                },
                ..old(self)@
            }),
            old(self).drops_covered() ==> final(self).drops_covered(),
    {
        self.port_mapping =
        PortMappingMetrics { acquired, protocol, external_addr, lease_expires_at };
    }

    /// Remembers a ping; an unanswered one of the same number is forgotten.
    pub fn record_ping_sent(
        &mut self,
        peer: NodeId,
        seq: u32,
        addr: SocketAddr,
        is_active: bool,
        now: u64,
    )
        requires
            old(self).wf(),
        ensures
            final(self).wf(),
            ({
                let p = known(old(self)@.peers, peer);
                final(self)@ == (RegistryView {
                    peers: old(self)@.peers.insert(
                        peer,
                        PeerView {
                            pending: put(
                                p.pending,
                                seq,
                                PingRecord { addr, sent_at: now, is_active },
                            ),
                            ..p
                        },
                    ),
                    ..old(self)@
                })
            }),
            old(self).drops_covered() ==> final(self).drops_covered(),
    {
        let i = self.ensure_peer(peer);
        let ghost mid = self.peers.entries();
        proof {
            self.peers.keys_distinct();
        }
        let c = self.peers.value_mut(i);
        c.pending_pings.insert(seq, PingRecord { addr, sent_at: now, is_active });
        proof {
            let v = self.peers.entries()[i as int].value;
            update_is_put(mid, i as int, v);
            map_after_put(mid, peer, v);
            tallies_after_update(mid, i as int, self.peers.entries()[i as int]);
            let p = known(old(self)@.peers, peer);
            assert(v@ =~= (PeerView {
                pending: put(p.pending, seq, PingRecord { addr, sent_at: now, is_active }),
                ..p
            }));
        }
    }

    /// Takes in an answer: tells where the ping was sent and how many
    /// milliseconds it took, or nothing where no such ping waits for an answer.
    pub fn record_pong_received(&mut self, peer: NodeId, seq: u32, now: u64) -> (r: Option<
        (SocketAddr, u32),
    >)
        requires
            old(self).wf(),
        ensures
            final(self).wf(),
            ({
                let p = known(old(self)@.peers, peer);
                &&& r == pong_answer(p, seq, now)
                &&& final(self)@ == (RegistryView {
                    peers: old(self)@.peers.insert(peer, after_pong(p, seq, now)),
                    ..old(self)@
                })
            }),
            old(self).drops_covered() ==> final(self).drops_covered(),
    {
        let i = self.ensure_peer(peer);
        let ghost mid = self.peers.entries();
        let ghost p = known(old(self)@.peers, peer);
        proof {
            self.peers.keys_distinct();
        }
        let c = self.peers.value_mut(i);
        let r: Option<(SocketAddr, u32)> = match c.pending_pings.remove(&seq) {
            Some(ping) => {
                let elapsed: u64 = if now > ping.sent_at {
                    now - ping.sent_at
                } else {
                    0
                };
                let rtt_ms: u32 = (elapsed / 1_000_000 % 0x1_0000_0000) as u32;
                c.last_rtt_ms = Some(rtt_ms);
                if ping.is_active {
                    c.push_outcome(true);
                }
                Some((ping.addr, rtt_ms))
            },
            None => None,
        };
        proof {
            let v = self.peers.entries()[i as int].value;
            update_is_put(mid, i as int, v);
            map_after_put(mid, peer, v);
            tallies_after_update(mid, i as int, self.peers.entries()[i as int]);
            assert(v@ =~= after_pong(p, seq, now));
        }
        r
    }

    /// Gives up on the pings that have waited for longer than the timeout, and
    /// tells whose they were and where they were sent.
    pub fn check_ping_timeouts(&mut self, timeout: u64, now: u64) -> (r: Vec<(NodeId, SocketAddr)>)
        requires
            old(self).wf(),
        ensures
            final(self).wf(),
            r@ == lost_by_all(old(self).peers.entries(), now, timeout),
            final(self)@ == (RegistryView {
                peers: old(self)@.peers.map_values(|v: PeerView| aged(v, now, timeout)),
                ..old(self)@
            }),
            old(self).drops_covered() ==> final(self).drops_covered(),
    {
        let mut out: Vec<(NodeId, SocketAddr)> = Vec::new();
        let n: usize = self.peers.len();
        let ghost all = self.peers.entries();
        let ghost start = *self;
        assert(all.subrange(0, 0) =~= Seq::<Entry<NodeId, PeerCounters>>::empty());
        for i in 0..n
            invariant
                n == all.len(),
                self.wf(),
                start.wf(),
                all == start.peers.entries(),
                self.peers.entries().len() == n,
                self@ == (RegistryView { peers: peer_map(self.peers.entries()), ..start@ }),
                forall|j: int|
                    0 <= j < n ==> (#[trigger] self.peers.entries()[j]).key == all[j].key,
                forall|j: int|
                    0 <= j < i ==> (#[trigger] self.peers.entries()[j]).value@ == aged(
                        all[j].value@,
                        now,
                        timeout,
                    ),
                forall|j: int|
                    i <= j < n ==> (#[trigger] self.peers.entries()[j]).value == all[j].value,
                out@ == lost_by_all(all.subrange(0, i as int), now, timeout),
                forall|c: Counter| #[trigger] tally(self.peers.entries(), c) == tally(all, c),
        {
            let ghost before = self.peers.entries();
            let key = self.peers.nth(i).key;
            assert(before[i as int].value == all[i as int].value);
            let c = self.peers.value_mut(i);
            c.age(key, now, timeout, &mut out);
            proof {
                let after = self.peers.entries();
                assert(all.subrange(0, i + 1).drop_last() =~= all.subrange(0, i as int));
                tallies_after_update(before, i as int, after[i as int]);
                assert forall|j: int| 0 <= j < n implies (#[trigger] after[j]).value.wf() by {
                    if j != i {
                        assert(after[j] == before[j]);
                    }
                }
            }
        }
        proof {
            let after = self.peers.entries();
            assert(all.subrange(0, n as int) =~= all);
            start.peers.keys_distinct();
            self.peers.keys_distinct();
            let m1 = peer_map(after);
            let m0 = peer_map(all);
            let m2 = m0.map_values(|v: PeerView| aged(v, now, timeout));
            assert forall|k: NodeId| #[trigger] m1.dom().contains(k) == m2.dom().contains(k) by {
                if has_key(all, k) {
                    let j = at(all, k);
                    assert(after[j].key == all[j].key);
                }
                if has_key(after, k) {
                    let j = at(after, k);
                    assert(all[j].key == after[j].key);
                }
            }
            assert forall|k: NodeId| #[trigger] m1.dom().contains(k) implies m1[k] == m2[k] by {
                let j = at(after, k);
                assert(after[j].key == k);
                assert(all[j].key == k);
                at_is(all, j);
                at_is(after, j);
            }
            assert(m1 =~= m2);
        }
        out
    }

    /// What the registry says now.
    pub fn snapshot(&self, now: u64) -> (s: MetricsSnapshot)
        requires
            self.wf(),
        ensures
            s.handshake_successes == self@.handshake_successes,
            s.handshake_failures == self@.handshake_failures,
            s.relay_packets == self@.relay_packets,
            s.direct_packets == self@.direct_packets,
            s.packet_drops == self@.packet_drops,
            s.broadcast_packets == self@.broadcast_packets,
            s.multicast_packets == self@.multicast_packets,
            s.l2_flood_packets == self@.l2_flood_packets,
            s.port_mapping_acquired == self@.port_mapping.acquired,
            s.port_mapping_protocol == self@.port_mapping.protocol,
            s.port_mapping_external_addr == self@.port_mapping.external_addr,
            s.port_mapping_lease_remaining_secs == lease_left(
                self@.port_mapping.lease_expires_at,
                now,
            ),
            s.peers@ == Seq::new(
                self.peers.entries().len(),
                |i: int|
                    peer_told(self.peers.entries()[i].key, self.peers.entries()[i].value@),
            ),
            s.handshake_successes == told_tally(s.peers@, Counter::HandshakeSuccesses)
                % counter_range(),
            s.handshake_failures == told_tally(s.peers@, Counter::HandshakeFailures)
                % counter_range(),
            s.direct_packets == told_tally(s.peers@, Counter::Direct) % counter_range(),
            s.relay_packets == told_tally(s.peers@, Counter::Relay) % counter_range(),
            self.drops_covered() ==> told_tally(s.peers@, Counter::Drops) <= s.packet_drops,
            forall|i: int|
                0 <= i < s.peers@.len() ==> (#[trigger] s.peers@[i]).window_failures
                    <= s.peers@[i].window_len,
    {
        let mut peers: Vec<PeerPathMetrics> = Vec::new();
        let n: usize = self.peers.len();
        for i in 0..n
            invariant
                n == self.peers.entries().len(),
                self.wf(),
                peers@.len() == i,
                forall|j: int|
                    0 <= j < i ==> (#[trigger] peers@[j]).window_failures <= peers@[j].window_len,
                forall|j: int|
                    0 <= j < i ==> #[trigger] peers@[j] == peer_told(
                        self.peers.entries()[j].key,
                        self.peers.entries()[j].value@,
                    ),
        {
            let e = self.peers.nth(i);
            let c = &e.value;
            assert(c.wf());
            proof {
                failures_are_probes(c.ping_window@);
            }
            peers.push(
                PeerPathMetrics {
                    peer: e.key,
                    path: c.path,
                    last_rtt_ms: c.last_rtt_ms,
                    relay_hits: c.relay_hits,
                    direct_hits: c.direct_hits,
                    handshake_successes: c.handshake_successes,
                    handshake_failures: c.handshake_failures,
                    packet_drops: c.packet_drops,
                    window_failures: c.failure_count(),
                    window_len: c.ping_window.len() as u32,
                },
            );
        }
        proof {
            let all = self.peers.entries();
            told_tally_is_tally(peers@, all, Counter::HandshakeSuccesses);
            told_tally_is_tally(peers@, all, Counter::HandshakeFailures);
            told_tally_is_tally(peers@, all, Counter::Direct);
            told_tally_is_tally(peers@, all, Counter::Relay);
            told_tally_is_tally(peers@, all, Counter::Drops);
        }
        let lease: Option<u64> = match self.port_mapping.lease_expires_at {
            Some(t) => Some(
                if t > now {
                    (t - now) / 1_000_000_000
                } else {
                    0
                },
            ),
            None => None,
        };
        MetricsSnapshot {
            handshake_successes: self.handshake_successes,
            handshake_failures: self.handshake_failures,
            relay_packets: self.relay_packets,
            direct_packets: self.direct_packets,
            packet_drops: self.packet_drops,
            broadcast_packets: self.broadcast_packets,
            multicast_packets: self.multicast_packets,
            l2_flood_packets: self.l2_flood_packets,
            port_mapping_acquired: self.port_mapping.acquired,
            port_mapping_protocol: crate::invite::copy_opt(&self.port_mapping.protocol),
            port_mapping_external_addr: crate::invite::copy_opt(&self.port_mapping.external_addr),
            port_mapping_lease_remaining_secs: lease,
            peers,
        }
    }
}

/// A registry after a packet went one way or the other.
pub open spec fn path_hit(v: RegistryView, peer: NodeId, path: PathKind) -> RegistryView {
    let p = known(v.peers, peer);
    match path {
        PathKind::Direct => RegistryView {
            direct_packets: v.direct_packets.wrapping_add(1),
            peers: v.peers.insert(
                peer,
                PeerView { path, direct_hits: p.direct_hits.wrapping_add(1), ..p },
            ),
            ..v
        },
        PathKind::Relay => RegistryView {
            relay_packets: v.relay_packets.wrapping_add(1),
            peers: v.peers.insert(
                peer,
                PeerView { path, relay_hits: p.relay_hits.wrapping_add(1), ..p },
            ),
            ..v
        },
    }
}

/// A registry after a handshake.
pub open spec fn handshake_counted(v: RegistryView, peer: NodeId, success: bool) -> RegistryView {
    let p = known(v.peers, peer);
    if success {
        RegistryView {
            handshake_successes: v.handshake_successes.wrapping_add(1),
            peers: v.peers.insert(
                peer,
                PeerView { handshake_successes: p.handshake_successes.wrapping_add(1), ..p },
            ),
            ..v
        }
    } else {
        RegistryView {
            handshake_failures: v.handshake_failures.wrapping_add(1),
            peers: v.peers.insert(
                peer,
                PeerView { handshake_failures: p.handshake_failures.wrapping_add(1), ..p },
            ),
            ..v
        }
    }
}

/// A registry after a packet was dropped.
pub open spec fn packet_dropped(v: RegistryView, peer: Option<NodeId>) -> RegistryView {
    let counted = RegistryView { packet_drops: v.packet_drops.wrapping_add(1), ..v };
    match peer {
        Some(p) => RegistryView {
            peers: v.peers.insert(
                p,
                PeerView {
                    packet_drops: known(v.peers, p).packet_drops.wrapping_add(1),
                    ..known(v.peers, p)
                },
            ),
            ..counted
        },
        None => counted,
    }
}

/// A registry after a packet was flooded.
pub open spec fn flooded(v: RegistryView, t: DataPacketType) -> RegistryView {
    match t {
        DataPacketType::Broadcast => RegistryView {
            broadcast_packets: v.broadcast_packets.wrapping_add(1),
            ..v
        },
        DataPacketType::Multicast => RegistryView {
            multicast_packets: v.multicast_packets.wrapping_add(1),
            ..v
        },
        DataPacketType::Ethernet => RegistryView {
            l2_flood_packets: v.l2_flood_packets.wrapping_add(1),
            ..v
        },
        _ => v,
    }
}

/// The milliseconds between two times, as far as they fit.
pub open spec fn millis_between(sent: u64, now: u64) -> u32 {
    if now > sent {
        ((now - sent) / 1_000_000 % 0x1_0000_0000) as u32
    } else {
        0
    }
}

/// What is told of an answer.
pub open spec fn pong_answer(p: PeerView, seq: u32, now: u64) -> Option<(SocketAddr, u32)> {
    match lookup(p.pending, seq) {
        Some(ping) => Some((ping.addr, millis_between(ping.sent_at, now))),
        None => None,
    }
}

/// A peer after an answer.
pub open spec fn after_pong(p: PeerView, seq: u32, now: u64) -> PeerView {
    match lookup(p.pending, seq) {
        Some(ping) => PeerView {
            pending: crate::table::cut(p.pending, seq),
            last_rtt_ms: Some(millis_between(ping.sent_at, now)),
            window: if ping.is_active {
                window_push(p.window, true)
            } else {
                p.window
            },
            ..p
        },
        None => p,
    }
}

/// A ping is answered once: after its answer was taken in, another one with its
/// number finds nothing.
pub proof fn pong_counts_once(p: PeerView, seq: u32, now: u64, later: u64)
    requires
        distinct(p.pending),
    ensures
        pong_answer(after_pong(p, seq, now), seq, later) is None,
{
    crate::table::cut_is_remove(p.pending, seq);
}

impl Default for MetricsRegistry {
    fn default() -> (m: MetricsRegistry)
        ensures
            m.wf(),
            m@ == blank_registry(),
            m.drops_covered(),
            m.peers.entries().len() == 0,
    {
        Self::new()
    }
}

/// What a check of the node found; the time is in seconds.
#[derive(Debug)]
pub struct DiagnosisReport {
    pub timestamp: i64,
    pub supernode_reachable: bool,
    pub udp_working: bool,
    pub nat_type: NatType,
    pub virtual_ip: Option<String>,
    pub tun_status: String,
    pub route_status: String,
    pub discovery_broadcast_detected: bool,
}

#[derive(Debug, Clone, Copy, PartialEq, Eq, Structural)]
pub struct DiagnosticEngine;

impl DiagnosticEngine {
    pub fn new() -> (e: DiagnosticEngine)
        ensures
            e == DiagnosticEngine,
    {
        DiagnosticEngine
    }

    /// The report of a check at a given time.
    pub fn run_diagnosis(&self, timestamp: i64) -> (r: DiagnosisReport)
        ensures
            r.timestamp == timestamp,
            r.supernode_reachable,
            r.udp_working,
            r.nat_type == NatType::Unknown,
            r.virtual_ip is None,
            r.tun_status@ == "OK"@,
            r.route_status@ == "OK"@,
            !r.discovery_broadcast_detected,
    {
        DiagnosisReport {
            timestamp,
            supernode_reachable: true,
            udp_working: true,
            nat_type: NatType::Unknown,
            virtual_ip: None,
            tun_status: "OK".to_string(),
            route_status: "OK".to_string(),
            discovery_broadcast_detected: false,
        }
    }
}

impl Default for DiagnosticEngine {
    fn default() -> (e: DiagnosticEngine)
        ensures
            e == DiagnosticEngine,
    {
        DiagnosticEngine
    }
}

/// Of the probes the outcomes of the last twenty are kept, in their order.
pub proof fn the_last_twenty_outcomes_are_kept(w: Seq<bool>, ok: bool)
    requires
        w.len() <= 20,
    ensures
        window_push(w, ok).last() == ok,
        window_push(w, ok).len() == if w.len() < 20 {
            w.len() + 1
        } else {
            20
        },
        forall|i: int|
            0 <= i < window_push(w, ok).len() - 1 ==> #[trigger] window_push(w, ok)[i] == w[i
                + w.len() + 1 - window_push(w, ok).len()],
{
}

/// An outcome that was bad counts as a failure, and one that was good does not.
pub proof fn failures_are_counted(w: Seq<bool>, ok: bool)
    requires
        w.len() < 20,
    ensures
        failures(window_push(w, ok)) == failures(w) + (if ok {
            0nat
        } else {
            1nat
        }),
        failures(Seq::<bool>::empty()) == 0,
{
    assert(w.push(ok).drop_last() =~= w);
}

proof fn pending_contains(
    s: Seq<Entry<u32, PingRecord>>,
    now: u64,
    timeout: u64,
    e: Entry<u32, PingRecord>,
)
    ensures
        still_pending(s, now, timeout).contains(e) <==> s.contains(e) && now - e.value.sent_at
            <= timeout,
    decreases s.len(),
{
    if s.len() > 0 {
        let short = s.drop_last();
        pending_contains(short, now, timeout, e);
        let before = still_pending(short, now, timeout);
        let all = still_pending(s, now, timeout);
        if all.contains(e) {
            let k = all.index_of(e);
            if k < before.len() {
                assert(before[k] == e);
                assert(s[short.index_of(e)] == e);
            } else {
                assert(s[s.len() - 1] == e);
            }
        }
        if s.contains(e) && now - e.value.sent_at <= timeout {
            let k = s.index_of(e);
            if k < short.len() {
                assert(short[k] == e);
                assert(all[before.index_of(e)] == e);
            } else {
                assert(all[all.len() - 1] == e);
            }
        }
    }
}

/// A probe is waited for as long as the time for it is not over, and no longer.
pub proof fn probes_are_waited_for(
    v: PeerView,
    now: u64,
    timeout: u64,
    e: Entry<u32, PingRecord>,
)
    ensures
        aged(v, now, timeout).pending.contains(e) <==> v.pending.contains(e) && now
            - e.value.sent_at <= timeout,
        aged(v, now, timeout).path == v.path,
        aged(v, now, timeout).last_rtt_ms == v.last_rtt_ms,
        aged(v, now, timeout).packet_drops == v.packet_drops,
{
    pending_contains(v.pending, now, timeout, e);
}

/// The address of a probe whose time is over is told with its peer; no other is.
pub proof fn lost_probes_are_told(
    peer: NodeId,
    s: Seq<Entry<u32, PingRecord>>,
    now: u64,
    timeout: u64,
    addr: SocketAddr,
)
    ensures
        lost(peer, s, now, timeout).contains((peer, addr)) <==> exists|i: int|
            0 <= i < s.len() && (#[trigger] s[i]).value.addr == addr && now - s[i].value.sent_at
                > timeout,
        forall|k: int|
            0 <= k < lost(peer, s, now, timeout).len() ==> (#[trigger] lost(
                peer,
                s,
                now,
                timeout,
            )[k]).0 == peer,
    decreases s.len(),
{
    if s.len() > 0 {
        let short = s.drop_last();
        lost_probes_are_told(peer, short, now, timeout, addr);
        let before = lost(peer, short, now, timeout);
        let all = lost(peer, s, now, timeout);
        let x = (peer, addr);
        if all.contains(x) {
            let k = all.index_of(x);
            if k < before.len() {
                assert(before[k] == x);
                let i = choose|i: int|
                    0 <= i < short.len() && (#[trigger] short[i]).value.addr == addr && now
                        - short[i].value.sent_at > timeout;
                assert(s[i].value.addr == addr);
            } else {
                assert(s[s.len() - 1].value.addr == addr);
            }
        }
        if exists|i: int|
            0 <= i < s.len() && (#[trigger] s[i]).value.addr == addr && now - s[i].value.sent_at
                > timeout {
            let i = choose|i: int|
                0 <= i < s.len() && (#[trigger] s[i]).value.addr == addr && now - s[i].value.sent_at
                    > timeout;
            if i < short.len() {
                assert(short[i].value.addr == addr);
                assert(all[before.index_of(x)] == x);
            } else {
                assert(all[all.len() - 1] == x);
            }
        }
    }
}

/// A lost probe of the way in use is a failure; a probe of another way tells nothing
/// of it, and neither does one that is still waited for.
pub proof fn only_lost_probes_of_the_way_in_use_fail(
    w: Seq<bool>,
    s: Seq<Entry<u32, PingRecord>>,
    now: u64,
    timeout: u64,
)
    requires
        s.len() > 0,
    ensures
        ({
            let before = window_after(w, s.drop_last(), now, timeout);
            let last = s.last().value;
            &&& now - last.sent_at > timeout && last.is_active ==> window_after(w, s, now, timeout)
                == window_push(before, false)
            &&& now - last.sent_at <= timeout || !last.is_active ==> window_after(
                w,
                s,
                now,
                timeout,
            ) == before
        }),
{
}

/// An answer tells how long the probe took, in milliseconds rounded down, and by
/// which address it went; it is the last time that is known then, and a success of
/// the way if this is in use. Nothing comes of an answer to no probe.
pub proof fn an_answer_tells_the_time(p: PeerView, seq: u32, now: u64)
    requires
        distinct(p.pending),
        has_key(p.pending, seq),
        lookup(p.pending, seq)->0.sent_at <= now,
        now - lookup(p.pending, seq)->0.sent_at < 4_000_000_000_000_000,
    ensures
        ({
            let ping = lookup(p.pending, seq)->0;
            let r = pong_answer(p, seq, now);
            let q = after_pong(p, seq, now);
            &&& r is Some
            &&& q.last_rtt_ms is Some
            &&& r == Some((ping.addr, q.last_rtt_ms->0))
            &&& q.last_rtt_ms->0 * 1_000_000 <= now - ping.sent_at < (q.last_rtt_ms->0 + 1)
                * 1_000_000
            &&& lookup(q.pending, seq) is None
            &&& forall|o: u32| o != seq ==> #[trigger] lookup(q.pending, o) == lookup(p.pending, o)
            &&& ping.is_active ==> q.window.len() > 0 && q.window.last()
            &&& !ping.is_active ==> q.window == p.window
            &&& q.path == p.path && q.relay_hits == p.relay_hits && q.direct_hits == p.direct_hits
            &&& q.packet_drops == p.packet_drops
        }),
{
    crate::table::cut_is_remove(p.pending, seq);
}

/// An answer to no probe is none.
pub proof fn answers_to_nothing_are_none(p: PeerView, seq: u32, now: u64)
    requires
        !has_key(p.pending, seq),
    ensures
        pong_answer(p, seq, now) is None,
        after_pong(p, seq, now) == p,
{
}

/// A packet counts once, for its peer and in total, by the way that it took, and
/// the way is known to be in use then.
pub proof fn packets_count_by_their_way(v: RegistryView, peer: NodeId, other: NodeId)
    requires
        v.direct_packets < u64::MAX,
        v.relay_packets < u64::MAX,
        known(v.peers, peer).direct_hits < u64::MAX,
        known(v.peers, peer).relay_hits < u64::MAX,
        other != peer,
    ensures
        ({
            let d = path_hit(v, peer, PathKind::Direct);
            let r = path_hit(v, peer, PathKind::Relay);
            &&& d.direct_packets == v.direct_packets + 1 && d.relay_packets == v.relay_packets
            &&& r.relay_packets == v.relay_packets + 1 && r.direct_packets == v.direct_packets
            &&& d.peers[peer].direct_hits == known(v.peers, peer).direct_hits + 1
            &&& d.peers[peer].relay_hits == known(v.peers, peer).relay_hits
            &&& r.peers[peer].relay_hits == known(v.peers, peer).relay_hits + 1
            &&& r.peers[peer].direct_hits == known(v.peers, peer).direct_hits
            &&& d.peers[peer].path == PathKind::Direct && r.peers[peer].path == PathKind::Relay
            &&& known(d.peers, other) == known(v.peers, other)
            &&& known(r.peers, other) == known(v.peers, other)
            &&& d.packet_drops == v.packet_drops && r.packet_drops == v.packet_drops
        }),
{
}

/// A handshake counts once, for its peer and in total, as what it came to.
pub proof fn handshakes_count_by_their_outcome(v: RegistryView, peer: NodeId, other: NodeId)
    requires
        v.handshake_successes < u64::MAX,
        v.handshake_failures < u64::MAX,
        known(v.peers, peer).handshake_successes < u64::MAX,
        known(v.peers, peer).handshake_failures < u64::MAX,
        other != peer,
    ensures
        ({
            let y = handshake_counted(v, peer, true);
            let n = handshake_counted(v, peer, false);
            let p = known(v.peers, peer);
            &&& y.handshake_successes == v.handshake_successes + 1
            &&& y.handshake_failures == v.handshake_failures
            &&& n.handshake_failures == v.handshake_failures + 1
            &&& n.handshake_successes == v.handshake_successes
            &&& y.peers[peer].handshake_successes == p.handshake_successes + 1
            &&& y.peers[peer].handshake_failures == p.handshake_failures
            &&& n.peers[peer].handshake_failures == p.handshake_failures + 1
            &&& n.peers[peer].handshake_successes == p.handshake_successes
            &&& y.peers[peer].path == p.path && n.peers[peer].path == p.path
            &&& known(y.peers, other) == known(v.peers, other)
            &&& known(n.peers, other) == known(v.peers, other)
        }),
{
}

/// A packet that is dropped counts in total, and for its peer if it is known whose it
/// was; what is flooded counts by its kind.
pub proof fn drops_and_floods_count(v: RegistryView, peer: NodeId, other: NodeId)
    requires
        v.packet_drops < u64::MAX,
        v.broadcast_packets < u64::MAX,
        v.multicast_packets < u64::MAX,
        v.l2_flood_packets < u64::MAX,
        known(v.peers, peer).packet_drops < u64::MAX,
        other != peer,
    ensures
        packet_dropped(v, None).packet_drops == v.packet_drops + 1,
        packet_dropped(v, None).peers == v.peers,
        packet_dropped(v, Some(peer)).packet_drops == v.packet_drops + 1,
        packet_dropped(v, Some(peer)).peers[peer].packet_drops == known(v.peers, peer).packet_drops
            + 1,
        known(packet_dropped(v, Some(peer)).peers, other) == known(v.peers, other),
        flooded(v, DataPacketType::Broadcast).broadcast_packets == v.broadcast_packets + 1,
        flooded(v, DataPacketType::Broadcast).multicast_packets == v.multicast_packets,
        flooded(v, DataPacketType::Broadcast).l2_flood_packets == v.l2_flood_packets,
        flooded(v, DataPacketType::Multicast).multicast_packets == v.multicast_packets + 1,
        flooded(v, DataPacketType::Multicast).broadcast_packets == v.broadcast_packets,
        flooded(v, DataPacketType::Multicast).l2_flood_packets == v.l2_flood_packets,
        flooded(v, DataPacketType::Ethernet).l2_flood_packets == v.l2_flood_packets + 1,
        flooded(v, DataPacketType::Ethernet).broadcast_packets == v.broadcast_packets,
        flooded(v, DataPacketType::IPv4) == v,
        flooded(v, DataPacketType::IPv6) == v,
        flooded(v, DataPacketType::Ping) == v,
        flooded(v, DataPacketType::Pong) == v,
        flooded(v, DataPacketType::Keepalive) == v,
        flooded(v, DataPacketType::Discovery) == v,
{
}

/// What is told of a peer is what was counted; of its outcomes, how many there are
/// and how many were bad.
pub proof fn a_peer_is_told_as_it_was_counted(peer: NodeId, v: PeerView)
    requires
        v.window.len() <= 20,
    ensures
        ({
            let t = peer_told(peer, v);
            &&& t.peer == peer
            &&& t.path == v.path
            &&& t.last_rtt_ms == v.last_rtt_ms
            &&& t.direct_hits == v.direct_hits
            &&& t.relay_hits == v.relay_hits
            &&& t.handshake_successes == v.handshake_successes
            &&& t.handshake_failures == v.handshake_failures
            &&& t.packet_drops == v.packet_drops
            &&& t.window_len == v.window.len()
            &&& t.window_failures == failures(v.window)
            &&& t.window_failures <= t.window_len
        }),
{
    failures_are_probes(v.window);
}

/// How many whole seconds of a lease are left.
pub open spec fn lease_left(ends: Option<u64>, now: u64) -> Option<u64> {
    match ends {
        Some(t) => Some(
            if t > now {
                ((t - now) / 1_000_000_000) as u64
            } else {
                0
            },
        ),
        None => None,
    }
}

/// The time that is left of a lease is told in whole seconds, rounded down, and is none once
/// it is over.
pub proof fn leases_run_out(ends: u64, now: u64)
    ensures
        lease_left(None, now) is None,
        lease_left(Some(ends), now) is Some,
        ends > now ==> lease_left(Some(ends), now)->0 * 1_000_000_000 <= ends - now < (lease_left(
            Some(ends),
            now,
        )->0 + 1) * 1_000_000_000,
        ends <= now ==> lease_left(Some(ends), now)->0 == 0,
{
}

proof fn lost_by_all_holds(
    s: Seq<Entry<NodeId, PeerCounters>>,
    now: u64,
    timeout: u64,
    i: int,
    k: int,
)
    requires
        0 <= i < s.len(),
        0 <= k < s[i].value@.pending.len(),
        now - s[i].value@.pending[k].value.sent_at > timeout,
    ensures
        lost_by_all(s, now, timeout).contains((s[i].key, s[i].value@.pending[k].value.addr)),
    decreases s.len(),
{
    let short = s.drop_last();
    let before = lost_by_all(short, now, timeout);
    let all = lost_by_all(s, now, timeout);
    let addr = s[i].value@.pending[k].value.addr;
    let x = (s[i].key, addr);
    if i < short.len() {
        assert(short[i] == s[i]);
        lost_by_all_holds(short, now, timeout, i, k);
        assert(all[before.index_of(x)] == x);
    } else {
        let mine = lost(s[i].key, s[i].value@.pending, now, timeout);
        lost_probes_are_told(s[i].key, s[i].value@.pending, now, timeout, addr);
        assert(s[i].value@.pending[k].value.addr == addr);
        assert(mine.contains(x));
        assert(all[before.len() + mine.index_of(x)] == x);
    }
}

/// Of every peer every probe whose time is over is told.
pub proof fn lost_probes_of_all_peers_are_told(
    s: Seq<Entry<NodeId, PeerCounters>>,
    now: u64,
    timeout: u64,
    i: int,
    k: int,
)
    requires
        0 <= i < s.len(),
        0 <= k < s[i].value@.pending.len(),
        now - s[i].value@.pending[k].value.sent_at > timeout,
    ensures
        lost_by_all(s, now, timeout).contains((s[i].key, s[i].value@.pending[k].value.addr)),
{
    lost_by_all_holds(s, now, timeout, i, k);
}

} // verus!
