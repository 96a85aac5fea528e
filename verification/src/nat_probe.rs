//! What observations of the public address say of the translator in front of a
//! node, and the candidates that a node offers.

use crate::common::NatType;
use crate::net::{IpAddr, SocketAddr};
use crate::port_mapping::{mapped_candidate, PortMappingSnapshot};
use crate::proto::{Candidate, CandidateKind, CandidateSource};
use crate::sort::{
    by_rank, by_rank_keeps_items, by_rank_leaves_order_alone, by_rank_orders, descending,
    sort_by_rank, Ranked,
};
use vstd::prelude::*;

verus! {

/// What is known of the translator; the lifetime is in nanoseconds.
#[derive(Debug)]
pub struct NatFingerprint {
    pub nat_type: NatType,
    pub public_addrs: Vec<SocketAddr>,
    pub endpoint_independent_mapping: bool,
    pub port_preserving: bool,
    pub port_delta_pattern: Option<i32>,
    pub binding_lifetime: u64,
    pub hairpin_supported: bool,
    pub udp_restricted: bool,
}

/// An answer of a server: the public address it saw and the time it took.
#[derive(Debug, Clone, Copy)]
pub struct Observation {
    pub addr: SocketAddr,
    pub rtt: u64,
}

impl Ranked for Observation {
    open spec fn rank(self) -> u64 {
        (u64::MAX - self.rtt) as u64
    }

    fn rank_value(&self) -> (r: u64) {
        u64::MAX - self.rtt
    }
}

/// Two observations are needed; a translator that always shows one address is a
/// cone, any other is symmetric.
pub open spec fn nat_type_from(addrs: Seq<SocketAddr>) -> NatType {
    if addrs.len() < 2 {
        NatType::Unknown
    } else if forall|i: int| 0 <= i < addrs.len() ==> #[trigger] addrs[i] == addrs[0] {
        NatType::Cone
    } else {
        NatType::Symmetric
    }
}

fn all_same(addrs: &[SocketAddr]) -> (r: bool)
    ensures
        r == (forall|i: int| 0 <= i < addrs@.len() ==> #[trigger] addrs@[i] == addrs@[0]),
{
    let n: usize = addrs.len();
    for i in 0..n
        invariant
            n == addrs@.len(),
            forall|k: int| 0 <= k < i ==> #[trigger] addrs@[k] == addrs@[0],
    {
        if addrs[i] != addrs[0] {
            assert(addrs@[i as int] != addrs@[0]);
            return false;
        }
    }
    true
}

/// The type of the translator.
pub fn infer_nat_type(public_addrs: &[SocketAddr]) -> (t: NatType)
    ensures
        t == nat_type_from(public_addrs@),
{
    if public_addrs.len() < 2 {
        return NatType::Unknown;
    }
    if all_same(public_addrs) {
        NatType::Cone
    } else {
        NatType::Symmetric
    }
}

/// A port by its number, lowest first.
#[derive(Debug, Clone, Copy)]
pub struct PortNumber(pub u16);

impl Ranked for PortNumber {
    open spec fn rank(self) -> u64 {
        (65535 - self.0) as u64
    }

    fn rank_value(&self) -> (r: u64) {
        (65535 - self.0) as u64
    }
}

/// The ports of a list of addresses.
pub open spec fn ports_of(addrs: Seq<SocketAddr>) -> Seq<PortNumber> {
    Seq::new(addrs.len(), |i: int| PortNumber(addrs[i].port))
}

/// The step between ports, in order: every port is this far above the one
/// before it.
pub open spec fn steps_by(ports: Seq<PortNumber>, delta: int) -> bool {
    forall|i: int|
        0 <= i < ports.len() - 1 ==> (#[trigger] ports[i + 1]).0 - ports[i].0 == delta
}

/// The step by which the translator hands out ports: between one and sixteen,
/// the same between all ports in order.
pub open spec fn port_step(addrs: Seq<SocketAddr>) -> Option<i32> {
    let sorted = by_rank(ports_of(addrs));
    if addrs.len() < 2 {
        None
    } else {
        let delta = sorted[1].0 - sorted[0].0;
        if 1 <= delta <= 16 && steps_by(sorted, delta) {
            Some(delta as i32)
        } else {
            None
        }
    }
}

/// The step by which the translator hands out ports, if it has one.
pub fn infer_port_delta_pattern(public_addrs: &[SocketAddr]) -> (r: Option<i32>)
    ensures
        r == port_step(public_addrs@),
{
    let n: usize = public_addrs.len();
    if n < 2 {
        return None;
    }
    let mut ports: Vec<PortNumber> = Vec::new();
    for i in 0..n
        invariant
            n == public_addrs@.len(),
            ports@.len() == i,
            forall|k: int| 0 <= k < i ==> #[trigger] ports@[k] == PortNumber(public_addrs@[k].port),
    {
        ports.push(PortNumber(public_addrs[i].port));
    }
    assert(ports@ =~= ports_of(public_addrs@));
    let sorted = sort_by_rank(ports);
    proof {
        by_rank_orders(ports_of(public_addrs@));
    }
    let delta: i32 = sorted[1].0 as i32 - sorted[0].0 as i32;
    if delta < 1 || delta > 16 {
        return None;
    }
    let mut i: usize = 1;
    while i < n
        invariant
            n == sorted@.len(),
            n == public_addrs@.len(),
            sorted@ == by_rank(ports_of(public_addrs@)),
            delta == sorted@[1].0 - sorted@[0].0,
            1 <= i <= n,
            2 <= n,
            1 <= delta <= 16,
            forall|k: int|
                0 <= k < i - 1 ==> (#[trigger] sorted@[k + 1]).0 - sorted@[k].0 == delta,
        decreases n - i,
    {
        if sorted[i].0 as i32 - sorted[i - 1].0 as i32 != delta {
            assert(!steps_by(sorted@, delta as int)) by {
                let k = i - 1;
                assert(sorted@[k + 1].0 - sorted@[k].0 != delta);
            }
            return None;
        }
        i += 1;
    }
    assert(steps_by(sorted@, delta as int));
    Some(delta)
}

/// The address of a port, if it is one.
pub open spec fn port_addr(ip: IpAddr, port: int) -> SocketAddr {
    SocketAddr { ip, port: port as u16, flowinfo: 0, scope_id: 0 }
}

/// A number that can be a port.
pub open spec fn is_port(p: int) -> bool {
    0 < p <= 65535
}

/// The first `n` ports in steps from the highest one, as far as they are ports.
pub open spec fn forward(ip: IpAddr, top: int, step: int, n: nat) -> Seq<SocketAddr>
    decreases n,
{
    if n == 0 {
        Seq::empty()
    } else {
        let before = forward(ip, top, step, (n - 1) as nat);
        if is_port(top + step * n) {
            before.push(port_addr(ip, top + step * n))
        } else {
            before
        }
    }
}

/// The neighbours of the highest port, from eight below up to `d` steps away,
/// put behind those that are there already.
pub open spec fn neighbours(ip: IpAddr, top: int, found: Seq<SocketAddr>, d: int) -> Seq<SocketAddr>
    decreases d + 9,
{
    if d < -8 {
        found
    } else {
        let before = neighbours(ip, top, found, d - 1);
        let a = port_addr(ip, top + d);
        if d != 0 && is_port(top + d) && !before.contains(a) {
            before.push(a)
        } else {
            before
        }
    }
}

/// The last of the addresses with the highest port.
pub open spec fn highest_port(addrs: Seq<SocketAddr>, i: int) -> bool {
    &&& 0 <= i < addrs.len()
    &&& forall|j: int| 0 <= j < addrs.len() ==> (#[trigger] addrs[j]).port <= addrs[i].port
    &&& forall|j: int| i < j < addrs.len() ==> (#[trigger] addrs[j]).port < addrs[i].port
}

/// The ports that a symmetric translator is likely to hand out next.
pub open spec fn predictions(a: SocketAddr, step: int) -> Seq<SocketAddr> {
    neighbours(a.ip, a.port as int, forward(a.ip, a.port as int, step, 8), 8)
}

fn has_addr(list: &Vec<SocketAddr>, a: &SocketAddr) -> (r: bool)
    ensures
        r == list@.contains(*a),
{
    let n: usize = list.len();
    for i in 0..n
        invariant
            n == list@.len(),
            forall|k: int| 0 <= k < i ==> #[trigger] list@[k] != *a,
    {
        if list[i] == *a {
            assert(list@[i as int] == *a);
            return true;
        }
    }
    false
}

/// The addresses are those to try behind a translator of which something is known.
pub open spec fn predicted_from(fp: NatFingerprint, r: Seq<SocketAddr>) -> bool {
    exists|i: int| #[trigger]
        highest_port(fp.public_addrs@, i) && r == predictions(
            fp.public_addrs@[i],
            match fp.port_delta_pattern {
                Some(d) => d as int,
                None => 1,
            },
        )
}

/// The addresses to try behind a symmetric translator: the next eight ports in
/// its step, then the neighbours of the last one. There are none behind any
/// other translator, nor without an observation.
pub fn predict_from_fingerprint(fp: &NatFingerprint) -> (r: Option<Vec<SocketAddr>>)
    ensures
        r is Some <==> fp.nat_type == NatType::Symmetric && fp.public_addrs@.len() > 0,
        r is Some ==> predicted_from(*fp, r->0@),
        r is Some ==> exists|i: int| #[trigger]
            highest_port(fp.public_addrs@, i) && r->0@ == predictions(
                fp.public_addrs@[i],
                match fp.port_delta_pattern {
                    Some(d) => d as int,
                    None => 1,
                },
            ),
{
    if fp.nat_type != NatType::Symmetric {
        return None;
    }
    let n: usize = fp.public_addrs.len();
    if n == 0 {
        return None;
    }
    let mut last: usize = 0;
    let mut k: usize = 1;
    while k < n
        invariant
            n == fp.public_addrs@.len(),
            1 <= k <= n,
            last < k,
            forall|j: int|
                0 <= j < k ==> (#[trigger] fp.public_addrs@[j]).port
                    <= fp.public_addrs@[last as int].port,
            forall|j: int|
                last < j < k ==> (#[trigger] fp.public_addrs@[j]).port
                    < fp.public_addrs@[last as int].port,
        decreases n - k,
    {
        if fp.public_addrs[k].port >= fp.public_addrs[last].port {
            last = k;
        }
        k += 1;
    }
    assert(highest_port(fp.public_addrs@, last as int));
    let ip = fp.public_addrs[last].ip;
    let top: i64 = fp.public_addrs[last].port as i64;
    let delta: i64 = match fp.port_delta_pattern {
        Some(d) => d as i64,
        None => 1,
    };
    let mut predicted: Vec<SocketAddr> = Vec::new();
    let mut i: i64 = 1;
    while i <= 8
        invariant
            1 <= i <= 9,
            0 <= top <= 65535,
            -0x8000_0000 <= delta <= 0x7fff_ffff,
            predicted@ == forward(ip, top as int, delta as int, (i - 1) as nat),
        decreases 9 - i,
    {
        assert(-0x8000_0000 * 8 <= delta * i <= 0x7fff_ffff * 8) by (nonlinear_arith)
            requires
                1 <= i <= 8,
                -0x8000_0000 <= delta <= 0x7fff_ffff,
        ;
        let p: i64 = top + delta * i;
        if p > 0 && p <= 65535 {
            predicted.push(SocketAddr::new(ip, p as u16));
        }
        i += 1;
    }
    let ghost found = predicted@;
    let mut d: i64 = -8;
    while d <= 8
        invariant
            -8 <= d <= 9,
            0 <= top <= 65535,
            predicted@ == neighbours(ip, top as int, found, d - 1),
        decreases 9 - d,
    {
        let p: i64 = top + d;
        if d != 0 && p > 0 && p <= 65535 {
            let addr = SocketAddr::new(ip, p as u16);
            if !has_addr(&predicted, &addr) {
                predicted.push(addr);
            }
        }
        d += 1;
    }
    Some(predicted)
}

/// The quickest observations, at most five, quickest first.
pub open spec fn quickest(obs: Seq<Observation>) -> Seq<SocketAddr> {
    let sorted = by_rank(obs);
    Seq::new(
        if sorted.len() < 5 {
            sorted.len()
        } else {
            5
        },
        |i: int| sorted[i].addr,
    )
}

/// The fingerprint that a list of public addresses gives.
pub open spec fn fingerprint_is(fp: NatFingerprint, addrs: Seq<SocketAddr>, local_port: u16) -> bool {
    &&& fp.public_addrs@ == addrs
    &&& fp.nat_type == nat_type_from(addrs)
    &&& fp.endpoint_independent_mapping == (forall|i: int|
        0 <= i < addrs.len() ==> #[trigger] addrs[i] == addrs[0])
    &&& fp.port_preserving == (addrs.len() > 0 && addrs[0].port == local_port)
    &&& fp.port_delta_pattern == port_step(addrs)
    &&& fp.binding_lifetime == 30_000_000_000
    &&& !fp.hairpin_supported
    &&& !fp.udp_restricted
}

/// What the answers of the servers say of the translator: the five quickest
/// count.
pub fn fingerprint(observations: Vec<Observation>, local_port: u16) -> (fp: NatFingerprint)
    ensures
        fingerprint_is(fp, quickest(observations@), local_port),
{
    let ghost target = quickest(observations@);
    let sorted = sort_by_rank(observations);
    let n: usize = if sorted.len() < 5 {
        sorted.len()
    } else {
        5
    };
    let mut public_addrs: Vec<SocketAddr> = Vec::new();
    for i in 0..n
        invariant
            n == target.len(),
            n <= sorted@.len(),
            public_addrs@.len() == i,
            forall|k: int| 0 <= k < n ==> #[trigger] target[k] == sorted@[k].addr,
            forall|k: int| 0 <= k < i ==> #[trigger] public_addrs@[k] == target[k],
    {
        public_addrs.push(sorted[i].addr);
    }
    assert(public_addrs@ =~= target);
    let nat_type = infer_nat_type(public_addrs.as_slice());
    let endpoint_independent_mapping = all_same(public_addrs.as_slice());
    let port_preserving = public_addrs.len() > 0 && public_addrs[0].port == local_port;
    let port_delta_pattern = infer_port_delta_pattern(public_addrs.as_slice());
    NatFingerprint {
        nat_type,
        public_addrs,
        endpoint_independent_mapping,
        port_preserving,
        port_delta_pattern,
        binding_lifetime: 30_000_000_000,
        hairpin_supported: false,
        udp_restricted: false,
    }
}

/// The fingerprint that stands in when no server could be asked.
pub fn unknown_fingerprint() -> (fp: NatFingerprint)
    ensures
        fp.nat_type == NatType::Unknown,
        fp.public_addrs@.len() == 0,
        !fp.endpoint_independent_mapping,
        !fp.port_preserving,
        fp.port_delta_pattern is None,
        fp.binding_lifetime == 30_000_000_000,
        !fp.hairpin_supported,
        !fp.udp_restricted,
{
    NatFingerprint {
        nat_type: NatType::Unknown,
        public_addrs: Vec::new(),
        endpoint_independent_mapping: false,
        port_preserving: false,
        port_delta_pattern: None,
        binding_lifetime: 30_000_000_000,
        hairpin_supported: false,
        udp_restricted: false,
    }
}

impl Ranked for Candidate {
    open spec fn rank(self) -> u64 {
        self.priority as u64
    }

    fn rank_value(&self) -> (r: u64) {
        self.priority as u64
    }
}

/// Two candidates that are one: same address, same kind.
pub open spec fn same_way(a: Candidate, b: Candidate) -> bool {
    a.addr == b.addr && a.kind == b.kind
}

/// The candidates without those that repeat the one kept before them.
pub open spec fn without_repeats(s: Seq<Candidate>) -> Seq<Candidate>
    decreases s.len(),
{
    if s.len() == 0 {
        s
    } else {
        let before = without_repeats(s.drop_last());
        if before.len() > 0 && same_way(s.last(), before.last()) {
            before
        } else {
            before.push(s.last())
        }
    }
}

fn drop_repeats(list: &Vec<Candidate>) -> (r: Vec<Candidate>)
    ensures
        r@ == without_repeats(list@),
{
    let mut r: Vec<Candidate> = Vec::new();
    let n: usize = list.len();
    assert(list@.subrange(0, 0) =~= Seq::<Candidate>::empty());
    for i in 0..n
        invariant
            n == list@.len(),
            r@ == without_repeats(list@.subrange(0, i as int)),
    {
        let c = list[i];
        assert(list@.subrange(0, i + 1).drop_last() =~= list@.subrange(0, i as int));
        let m: usize = r.len();
        if m > 0 && c.addr == r[m - 1].addr && c.kind == r[m - 1].kind {
        } else {
            r.push(c);
        }
    }
    assert(list@.subrange(0, n as int) =~= list@);
    r
}

/// Candidates in the order in which they are offered: by priority, without
/// repeats.
pub open spec fn offered(s: Seq<Candidate>) -> Seq<Candidate> {
    without_repeats(by_rank(s))
}

/// The candidates that no port mapping gave.
pub open spec fn unmapped(s: Seq<Candidate>) -> Seq<Candidate>
    decreases s.len(),
{
    if s.len() == 0 {
        s
    } else {
        let before = unmapped(s.drop_last());
        if s.last().source != CandidateSource::PortMapping {
            before.push(s.last())
        } else {
            before
        }
    }
}

/// The candidates with the one of the current port mapping.
pub open spec fn merged_candidates(
    base: Seq<Candidate>,
    snapshot: PortMappingSnapshot,
) -> Seq<Candidate> {
    offered(
        match mapped_candidate(snapshot) {
            Some(c) => unmapped(base).push(c),
            None => unmapped(base),
        },
    )
}

/// Replaces the candidate of the port mapping by the current one.
pub fn merge_mapped_candidate(base_candidates: &[Candidate], snapshot: &PortMappingSnapshot) -> (r:
    Vec<Candidate>)
    ensures
        r@ == merged_candidates(base_candidates@, *snapshot),
{
    let mut candidates: Vec<Candidate> = Vec::new();
    let n: usize = base_candidates.len();
    assert(base_candidates@.subrange(0, 0) =~= Seq::<Candidate>::empty());
    for i in 0..n
        invariant
            n == base_candidates@.len(),
            candidates@ == unmapped(base_candidates@.subrange(0, i as int)),
    {
        let c = base_candidates[i];
        assert(base_candidates@.subrange(0, i + 1).drop_last() =~= base_candidates@.subrange(
            0,
            i as int,
        ));
        if c.source != CandidateSource::PortMapping {
            candidates.push(c);
        }
    }
    assert(base_candidates@.subrange(0, n as int) =~= base_candidates@);
    if let Some(c) = snapshot.as_candidate() {
        candidates.push(c);
    }
    let sorted = sort_by_rank(candidates);
    drop_repeats(&sorted)
}

/// The repeats that are left out are of candidates that stay.
proof fn repeats_keep_values(s: Seq<Candidate>)
    ensures
        forall|i: int|
            0 <= i < without_repeats(s).len() ==> s.contains(#[trigger] without_repeats(s)[i]),
        s.len() > 0 ==> without_repeats(s).len() > 0 && same_way(
            s.last(),
            without_repeats(s).last(),
        ),
    decreases s.len(),
{
    if s.len() > 0 {
        let front = s.drop_last();
        repeats_keep_values(front);
        let w = without_repeats(s);
        let b = without_repeats(front);
        assert forall|i: int| 0 <= i < w.len() implies s.contains(#[trigger] w[i]) by {
            if i < b.len() {
                assert(w[i] == b[i]);
                assert(front.contains(b[i]));
                let k = choose|k: int| 0 <= k < front.len() && front[k] == b[i];
                assert(s[k] == w[i]);
            } else {
                assert(s[s.len() - 1] == w[i]);
            }
        }
    }
}

proof fn unmapped_has_no_mapping(s: Seq<Candidate>)
    ensures
        forall|i: int|
            0 <= i < unmapped(s).len() ==> (#[trigger] unmapped(s)[i]).source
                != CandidateSource::PortMapping,
    decreases s.len(),
{
    if s.len() > 0 {
        unmapped_has_no_mapping(s.drop_last());
    }
}

/// After merging, every candidate of a port mapping is the current one: an
/// older mapping is never offered.
pub proof fn only_current_mapping_is_offered(
    base: Seq<Candidate>,
    snapshot: PortMappingSnapshot,
    i: int,
)
    requires
        0 <= i < merged_candidates(base, snapshot).len(),
        merged_candidates(base, snapshot)[i].source == CandidateSource::PortMapping,
    ensures
        mapped_candidate(snapshot) == Some(merged_candidates(base, snapshot)[i]),
{
    broadcast use vstd::seq_lib::group_to_multiset_ensures;

    let all = match mapped_candidate(snapshot) {
        Some(c) => unmapped(base).push(c),
        None => unmapped(base),
    };
    let c = merged_candidates(base, snapshot)[i];
    unmapped_has_no_mapping(base);
    by_rank_orders(all);
    repeats_keep_values(by_rank(all));
    assert(by_rank(all).contains(c));
    assert(by_rank(all).to_multiset().count(c) > 0);
    assert(all.to_multiset().count(c) > 0);
    assert(all.contains(c));
    let k = choose|k: int| 0 <= k < all.len() && all[k] == c;
    if k < unmapped(base).len() {
        assert(all[k] == unmapped(base)[k]);
    }
}

/// The address of the first candidate that a port mapping gave.
pub open spec fn first_mapped(s: Seq<Candidate>) -> Option<SocketAddr>
    decreases s.len(),
{
    if s.len() == 0 {
        None
    } else if s[0].source == CandidateSource::PortMapping {
        Some(s[0].addr)
    } else {
        first_mapped(s.subrange(1, s.len() as int))
    }
}

/// The address by which a node is best reached from outside: that of its port
/// mapping, or else the first that a server saw.
pub open spec fn external_addr(
    public_addrs: Seq<SocketAddr>,
    candidates: Seq<Candidate>,
) -> Option<SocketAddr> {
    match first_mapped(candidates) {
        Some(a) => Some(a),
        None => if public_addrs.len() > 0 {
            Some(public_addrs[0])
        } else {
            None
        },
    }
}

/// The address by which a node is best reached from outside.
pub fn preferred_external_addr(fingerprint: &NatFingerprint, candidates: &[Candidate]) -> (r: Option<
    SocketAddr,
>)
    ensures
        r == external_addr(fingerprint.public_addrs@, candidates@),
{
    let n: usize = candidates.len();
    assert(candidates@.subrange(0, n as int) =~= candidates@);
    for i in 0..n
        invariant
            n == candidates@.len(),
            first_mapped(candidates@) == first_mapped(candidates@.subrange(i as int, n as int)),
    {
        let ghost rest = candidates@.subrange(i as int, n as int);
        assert(rest[0] == candidates@[i as int]);
        if candidates[i].source == CandidateSource::PortMapping {
            return Some(candidates[i].addr);
        }
        assert(rest.subrange(1, rest.len() as int) =~= candidates@.subrange(i + 1, n as int));
    }
    if fingerprint.public_addrs.len() > 0 {
        Some(fingerprint.public_addrs[0])
    } else {
        None
    }
}

/// An address that leads nowhere but home.
pub open spec fn is_loopback_ip(ip: IpAddr) -> bool {
    match ip {
        IpAddr::V4(o) => o@[0] == 127,
        IpAddr::V6(o) => o@[15] == 1 && forall|i: int| 0 <= i < 15 ==> #[trigger] o@[i] == 0,
    }
}

fn loopback_ip(ip: &IpAddr) -> (r: bool)
    ensures
        r == is_loopback_ip(*ip),
{
    match ip {
        IpAddr::V4(o) => o[0] == 127,
        IpAddr::V6(o) => {
            for i in 0usize..15
                invariant
                    *ip == IpAddr::V6(*o),
                    forall|k: int| 0 <= k < i ==> #[trigger] o@[k] == 0,
            {
                if o[i] != 0 {
                    assert(o@[i as int] != 0);
                    return false;
                }
            }
            o[15] == 1
        },
    }
}

/// The candidate of a local address.
pub open spec fn host_candidate(ip: IpAddr, port: u16) -> Candidate {
    Candidate {
        kind: if ip is V6 {
            CandidateKind::HostIpv6
        } else {
            CandidateKind::HostLan
        },
        source: CandidateSource::LocalInterface,
        addr: SocketAddr { ip, port, flowinfo: 0, scope_id: 0 },
        priority: 100,
        rtt_hint_ms: None,
    }
}

/// The candidates of the local addresses that lead anywhere.
pub open spec fn host_candidates(ips: Seq<IpAddr>, port: u16) -> Seq<Candidate>
    decreases ips.len(),
{
    if ips.len() == 0 {
        Seq::empty()
    } else {
        let before = host_candidates(ips.drop_last(), port);
        if is_loopback_ip(ips.last()) {
            before
        } else {
            before.push(host_candidate(ips.last(), port))
        }
    }
}

/// Candidates of one sort for a list of addresses.
pub open spec fn plain_candidates(
    kind: CandidateKind,
    source: CandidateSource,
    addrs: Seq<SocketAddr>,
    priority: u32,
) -> Seq<Candidate> {
    Seq::new(
        addrs.len(),
        |i: int| Candidate { kind, source, addr: addrs[i], priority, rtt_hint_ms: None },
    )
}

/// The candidates of a node: its local addresses, those that servers saw, and
/// those that are predicted.
pub open spec fn gathered(
    ips: Seq<IpAddr>,
    port: u16,
    public_addrs: Seq<SocketAddr>,
    predicted: Seq<SocketAddr>,
) -> Seq<Candidate> {
    host_candidates(ips, port) + plain_candidates(
        CandidateKind::ServerReflexive,
        CandidateSource::StunPrimary,
        public_addrs,
        80,
    ) + plain_candidates(
        CandidateKind::PortPredicted,
        CandidateSource::PortPrediction,
        predicted,
        50,
    )
}

fn push_plain(
    out: &mut Vec<Candidate>,
    kind: CandidateKind,
    source: CandidateSource,
    addrs: &Vec<SocketAddr>,
    priority: u32,
)
    ensures
        final(out)@ == old(out)@ + plain_candidates(kind, source, addrs@, priority),
{
    let ghost start = out@;
    let n: usize = addrs.len();
    for i in 0..n
        invariant
            n == addrs@.len(),
            out@ == start + plain_candidates(kind, source, addrs@, priority).subrange(
                0,
                i as int,
            ),
    {
        out.push(Candidate { kind, source, addr: addrs[i], priority, rtt_hint_ms: None });
        assert(out@ =~= start + plain_candidates(kind, source, addrs@, priority).subrange(
            0,
            i + 1,
        ));
    }
    assert(plain_candidates(kind, source, addrs@, priority).subrange(0, n as int)
        =~= plain_candidates(kind, source, addrs@, priority));
}

/// The candidates that a node offers: what its interfaces and the fingerprint
/// of its translator give, in the order of their priorities.
pub fn collect_candidates(interface_ips: &[IpAddr], local_port: u16, fp: &NatFingerprint) -> (r: Vec<
    Candidate,
>)
    ensures
        fp.nat_type == NatType::Symmetric && fp.public_addrs@.len() > 0 ==> exists|i: int| #[trigger]
            highest_port(fp.public_addrs@, i) && r@ == offered(
                gathered(
                    interface_ips@,
                    local_port,
                    fp.public_addrs@,
                    predictions(
                        fp.public_addrs@[i],
                        match fp.port_delta_pattern {
                            Some(d) => d as int,
                            None => 1,
                        },
                    ),
                ),
            ),
        !(fp.nat_type == NatType::Symmetric && fp.public_addrs@.len() > 0) ==> r@ == offered(
            gathered(interface_ips@, local_port, fp.public_addrs@, Seq::empty()),
        ),
{
    let mut candidates: Vec<Candidate> = Vec::new();
    let n: usize = interface_ips.len();
    assert(interface_ips@.subrange(0, 0) =~= Seq::<IpAddr>::empty());
    for i in 0..n
        invariant
            n == interface_ips@.len(),
            candidates@ == host_candidates(interface_ips@.subrange(0, i as int), local_port),
    {
        let ip = interface_ips[i];
        assert(interface_ips@.subrange(0, i + 1).drop_last() =~= interface_ips@.subrange(
            0,
            i as int,
        ));
        if !loopback_ip(&ip) {
            let kind = match ip {
                IpAddr::V6(_) => CandidateKind::HostIpv6,
                IpAddr::V4(_) => CandidateKind::HostLan,
            };
            candidates.push(
                Candidate {
                    kind,
                    source: CandidateSource::LocalInterface,
                    addr: SocketAddr::new(ip, local_port),
                    priority: 100,
                    rtt_hint_ms: None,
                },
            );
        }
    }
    assert(interface_ips@.subrange(0, n as int) =~= interface_ips@);
    push_plain(
        &mut candidates,
        CandidateKind::ServerReflexive,
        CandidateSource::StunPrimary,
        &fp.public_addrs,
        80,
    );
    match predict_from_fingerprint(fp) {
        Some(predicted) => {
            push_plain(
                &mut candidates,
                CandidateKind::PortPredicted,
                CandidateSource::PortPrediction,
                &predicted,
                50,
            );
        },
        None => {
            assert(candidates@ =~= gathered(
                interface_ips@,
                local_port,
                fp.public_addrs@,
                Seq::empty(),
            ));
        },
    }
    let sorted = sort_by_rank(candidates);
    drop_repeats(&sorted)
}

proof fn forward_places(ip: IpAddr, top: int, step: int, n: nat)
    requires
        step > 0,
        top > 0,
        top + 8 * step <= 65535,
        n <= 8,
    ensures
        forward(ip, top, step, n).len() == n,
        forall|k: int|
            1 <= k <= n ==> (#[trigger] forward(ip, top, step, n)[k - 1]).port == top + step * k
                && forward(ip, top, step, n)[k - 1].ip == ip,
    decreases n,
{
    if n > 0 {
        forward_places(ip, top, step, (n - 1) as nat);
        assert(0 < step * n <= 8 * step) by (nonlinear_arith)
            requires
                step > 0,
                0 < n <= 8,
        ;
        let before = forward(ip, top, step, (n - 1) as nat);
        assert forall|k: int| 1 <= k <= n implies (#[trigger] forward(ip, top, step, n)[k - 1]).port
            == top + step * k && forward(ip, top, step, n)[k - 1].ip == ip by {
            if k < n {
                assert(forward(ip, top, step, n)[k - 1] == before[k - 1]);
            }
        }
    }
}

proof fn neighbours_keep(ip: IpAddr, top: int, found: Seq<SocketAddr>, d: int)
    requires
        d <= 8,
    ensures
        neighbours(ip, top, found, d).len() >= found.len(),
        forall|k: int|
            0 <= k < found.len() ==> #[trigger] neighbours(ip, top, found, d)[k] == found[k],
        forall|k: int|
            found.len() <= k < neighbours(ip, top, found, d).len() ==> {
                let a = #[trigger] neighbours(ip, top, found, d)[k];
                a.ip == ip && a.port != top && top - 8 <= a.port <= top + d
            },
        forall|p: int|
            top - 8 <= p <= top + d && p != top && 0 < p <= 65535 ==> neighbours(
                ip,
                top,
                found,
                d,
            ).contains(#[trigger] port_addr(ip, p)),
    decreases d + 9,
{
    if d >= -8 {
        neighbours_keep(ip, top, found, d - 1);
        let before = neighbours(ip, top, found, d - 1);
        let all = neighbours(ip, top, found, d);
        assert forall|k: int| 0 <= k < found.len() implies #[trigger] all[k] == found[k] by {
            assert(before[k] == found[k]);
        }
        assert forall|k: int| found.len() <= k < all.len() implies {
            let a = #[trigger] all[k];
            a.ip == ip && a.port != top && top - 8 <= a.port <= top + d
        } by {
            if k < before.len() {
                assert(all[k] == before[k]);
            }
        }
        assert forall|p: int| top - 8 <= p <= top + d && p != top && 0 < p <= 65535 implies all.contains(
            #[trigger] port_addr(ip, p),
        ) by {
            let a = port_addr(ip, p);
            if p <= top + d - 1 {
                assert(before.contains(a));
                assert(all[before.index_of(a)] == a);
            } else if before.contains(a) {
                assert(all[before.index_of(a)] == a);
            } else {
                assert(all[all.len() - 1] == a);
            }
        }
    }
}

/// The first eight predictions are the next eight ports in the step above the
/// highest one seen, in order, wherever these are ports: so with a step that goes
/// up they lie above every port seen. Behind them stand the neighbours of the
/// highest port, up to eight ports away, each of which is predicted.
pub proof fn predictions_go_on_in_the_step(addrs: Seq<SocketAddr>, i: int, step: int)
    requires
        highest_port(addrs, i),
        addrs[i].port > 0,
        step > 0,
        addrs[i].port + 8 * step <= 65535,
    ensures
        predictions(addrs[i], step).len() >= 8,
        forall|k: int|
            1 <= k <= 8 ==> {
                let p = #[trigger] predictions(addrs[i], step)[k - 1];
                &&& p.ip == addrs[i].ip
                &&& p.port == addrs[i].port + k * step
                &&& forall|j: int| 0 <= j < addrs.len() ==> p.port > (#[trigger] addrs[j]).port
            },
        forall|k: int|
            8 <= k < predictions(addrs[i], step).len() ==> {
                let p = #[trigger] predictions(addrs[i], step)[k];
                &&& p.ip == addrs[i].ip
                &&& p.port != addrs[i].port
                &&& addrs[i].port - 8 <= p.port <= addrs[i].port + 8
            },
        forall|j: int|
            0 <= j < addrs.len() ==> (#[trigger] addrs[j]).port <= addrs[i].port,
{
    let a = addrs[i];
    let front = forward(a.ip, a.port as int, step, 8);
    let all = predictions(a, step);
    forward_places(a.ip, a.port as int, step, 8);
    neighbours_keep(a.ip, a.port as int, front, 8);
    assert forall|k: int| 1 <= k <= 8 implies {
        let p = #[trigger] all[k - 1];
        &&& p.ip == addrs[i].ip
        &&& p.port == addrs[i].port + k * step
        &&& forall|j: int| 0 <= j < addrs.len() ==> p.port > (#[trigger] addrs[j]).port
    } by {
        assert(all[k - 1] == front[k - 1]);
        assert(step * k == k * step) by (nonlinear_arith);
        assert(k * step > 0) by (nonlinear_arith)
            requires
                k >= 1,
                step > 0,
        ;
    }
}

/// Every port up to eight away from the highest one seen is predicted, whatever
/// the step is, but for that one itself.
pub proof fn neighbouring_ports_are_predicted(addrs: Seq<SocketAddr>, i: int, step: int, port: u16)
    requires
        highest_port(addrs, i),
        port > 0,
        port != addrs[i].port,
        addrs[i].port - 8 <= port <= addrs[i].port + 8,
    ensures
        exists|k: int|
            0 <= k < predictions(addrs[i], step).len() && (#[trigger] predictions(
                addrs[i],
                step,
            )[k]).port == port && predictions(addrs[i], step)[k].ip == addrs[i].ip,
{
    let a = addrs[i];
    let front = forward(a.ip, a.port as int, step, 8);
    let all = predictions(a, step);
    neighbours_keep(a.ip, a.port as int, front, 8);
    let p = port_addr(a.ip, port as int);
    assert(all.contains(p));
    assert(all[all.index_of(p)].port == port);
}

/// The first eight addresses to try lie above every port that was seen, a step
/// apart: the step that was found, or one.
pub proof fn ports_are_predicted_upwards(fp: NatFingerprint, r: Seq<SocketAddr>, k: int, j: int)
    requires
        predicted_from(fp, r),
        forall|i: int|
            0 <= i < fp.public_addrs@.len() ==> 0 < (#[trigger] fp.public_addrs@[i]).port < 65000,
        fp.port_delta_pattern is Some ==> 1 <= fp.port_delta_pattern->0 <= 16,
        1 <= k <= 8,
        0 <= j < fp.public_addrs@.len(),
    ensures
        r.len() >= 8,
        r[k - 1].port > fp.public_addrs@[j].port,
        k < 8 ==> r[k].port - r[k - 1].port == (match fp.port_delta_pattern {
            Some(d) => d as int,
            None => 1,
        }),
        exists|i: int|
            0 <= i < fp.public_addrs@.len() && r[k - 1].ip == (#[trigger] fp.public_addrs@[i]).ip
                && r[k - 1].port - fp.public_addrs@[i].port == k * (match fp.port_delta_pattern {
                Some(d) => d as int,
                None => 1,
            }),
{
    let step = match fp.port_delta_pattern {
        Some(d) => d as int,
        None => 1,
    };
    let i = choose|i: int| #[trigger]
        highest_port(fp.public_addrs@, i) && r == predictions(
            fp.public_addrs@[i],
            match fp.port_delta_pattern {
                Some(d) => d as int,
                None => 1,
            },
        );
    predictions_go_on_in_the_step(fp.public_addrs@, i, step);
    let top = fp.public_addrs@[i].port as int;
    assert(r[k - 1].port == top + step * k);
    assert(step * k >= 1 && step * k == k * step) by (nonlinear_arith)
        requires
            step >= 1,
            k >= 1,
    ;
    if k < 8 {
        assert(r[(k + 1) - 1].port == top + step * (k + 1));
        assert(step * (k + 1) - step * k == step) by (nonlinear_arith);
    }
    assert(fp.public_addrs@[j].port <= fp.public_addrs@[i].port);
}

/// A translator that shows every server the same address is a cone, one that shows
/// two of them different ones is symmetric; one answer tells nothing.
pub proof fn two_addresses_tell_the_kind(addrs: Seq<SocketAddr>, i: int, j: int)
    ensures
        addrs.len() < 2 ==> nat_type_from(addrs) == NatType::Unknown,
        0 <= i < addrs.len() && 0 <= j < addrs.len() && addrs[i] != addrs[j] ==> nat_type_from(addrs)
            == NatType::Symmetric,
        nat_type_from(addrs) == NatType::Symmetric ==> exists|k: int|
            0 <= k < addrs.len() && #[trigger] addrs[k] != addrs[0],
        addrs.len() >= 2 && (forall|k: int|
            0 <= k < addrs.len() ==> #[trigger] addrs[k] == addrs[0]) ==> nat_type_from(addrs)
            == NatType::Cone,
{
    if 0 <= i < addrs.len() && 0 <= j < addrs.len() && addrs[i] != addrs[j] {
        if forall|k: int| 0 <= k < addrs.len() ==> #[trigger] addrs[k] == addrs[0] {
            assert(addrs[i] == addrs[0]);
            assert(addrs[j] == addrs[0]);
        }
    }
}

/// What is said of a translator hangs together: one that shows every server the
/// same address maps by the sender alone, one that does not is symmetric and has
/// no such mapping.
pub proof fn a_fingerprint_hangs_together(fp: NatFingerprint, addrs: Seq<SocketAddr>, port: u16)
    requires
        fingerprint_is(fp, addrs, port),
    ensures
        fp.public_addrs@ == addrs,
        fp.nat_type == NatType::Cone ==> fp.endpoint_independent_mapping,
        fp.nat_type == NatType::Symmetric ==> !fp.endpoint_independent_mapping,
        fp.nat_type == NatType::Unknown <==> addrs.len() < 2,
        addrs.len() == 0 ==> !fp.port_preserving && fp.port_delta_pattern is None,
        addrs.len() > 0 ==> (fp.port_preserving <==> addrs[0].port == port),
        fp.port_delta_pattern is Some ==> 1 <= fp.port_delta_pattern->0 <= 16,
        fp.binding_lifetime == 30_000_000_000,
{
}

/// Ports that rise by one number from one answer to the next are recognized, if
/// the number is at most sixteen; others are not.
pub proof fn rising_ports_are_recognized(addrs: Seq<SocketAddr>, d: int)
    requires
        addrs.len() >= 2,
        d >= 0,
        forall|i: int|
            0 <= i < addrs.len() - 1 ==> (#[trigger] addrs[i + 1]).port - addrs[i].port == d,
    ensures
        1 <= d <= 16 ==> port_step(addrs) == Some(d as i32),
        d == 0 || d > 16 ==> port_step(addrs) is None,
{
    let ports = ports_of(addrs);
    assert forall|i: int, j: int| 0 <= i < j < ports.len() implies (#[trigger] ports[i]).rank() >= (
    #[trigger] ports[j]).rank() by {
        rises(addrs, d, i, j);
    }
    by_rank_leaves_order_alone(ports);
    assert(addrs[0int + 1].port - addrs[0].port == d);
    assert forall|i: int| 0 <= i < ports.len() - 1 implies (#[trigger] ports[i + 1]).0 - ports[i].0
        == d by {
        assert(addrs[i + 1].port - addrs[i].port == d);
    }
}

proof fn rises(addrs: Seq<SocketAddr>, d: int, i: int, j: int)
    requires
        d >= 0,
        0 <= i <= j < addrs.len(),
        forall|i: int|
            0 <= i < addrs.len() - 1 ==> (#[trigger] addrs[i + 1]).port - addrs[i].port == d,
    ensures
        addrs[i].port <= addrs[j].port,
    decreases j - i,
{
    if i < j {
        rises(addrs, d, i, j - 1);
        assert(addrs[(j - 1) + 1].port - addrs[j - 1].port == d);
    }
}

/// Where a step is found, every port that was seen is followed by another one a
/// step above it, but for the highest.
pub proof fn a_step_leads_from_port_to_port(addrs: Seq<SocketAddr>, i: int)
    requires
        port_step(addrs) is Some,
        0 <= i < addrs.len(),
    ensures
        1 <= port_step(addrs)->0 <= 16,
        (exists|j: int|
            0 <= j < addrs.len() && (#[trigger] addrs[j]).port == addrs[i].port + port_step(addrs)->0)
            || (forall|j: int| 0 <= j < addrs.len() ==> (#[trigger] addrs[j]).port <= addrs[i].port),
{
    let ports = ports_of(addrs);
    let sorted = by_rank(ports);
    let d = port_step(addrs)->0 as int;
    by_rank_orders(ports);
    by_rank_keeps_items(ports, ports[i]);
    assert(ports.contains(ports[i]));
    let k = sorted.index_of(ports[i]);
    assert(sorted[k] == ports[i]);
    if k < sorted.len() - 1 {
        let next = sorted[k + 1];
        assert(next.0 - sorted[k].0 == d);
        by_rank_keeps_items(ports, next);
        assert(sorted.contains(next));
        let j = ports.index_of(next);
        assert(ports[j] == next);
        assert(addrs[j].port == next.0);
    } else {
        assert forall|j: int| 0 <= j < addrs.len() implies (#[trigger] addrs[j]).port
            <= addrs[i].port by {
            by_rank_keeps_items(ports, ports[j]);
            assert(ports.contains(ports[j]));
            let l = sorted.index_of(ports[j]);
            assert(sorted[l] == ports[j]);
            if l < k {
                assert(sorted[l].rank() >= sorted[k].rank());
            }
        }
    }
}

/// Of the answers the five that took least time count, the quickest first; those
/// that are left out took no less.
pub proof fn the_quickest_answers_count(obs: Seq<Observation>) -> (kept: Seq<Observation>)
    ensures
        quickest(obs).len() == kept.len(),
        kept.len() == obs.len() || (kept.len() == 5 && obs.len() > 5),
        forall|i: int|
            0 <= i < kept.len() ==> obs.contains(#[trigger] kept[i]) && quickest(obs)[i]
                == kept[i].addr,
        forall|i: int, j: int|
            0 <= i < j < kept.len() ==> (#[trigger] kept[i]).rtt <= (#[trigger] kept[j]).rtt,
        forall|o: Observation, i: int|
            #![trigger obs.contains(o), kept[i]]
            obs.contains(o) && !kept.contains(o) && 0 <= i < kept.len() ==> kept[i].rtt <= o.rtt,
{
    let sorted = by_rank(obs);
    by_rank_orders(obs);
    let n = if sorted.len() < 5 {
        sorted.len() as int
    } else {
        5
    };
    let kept = sorted.subrange(0, n);
    assert forall|i: int| 0 <= i < kept.len() implies obs.contains(#[trigger] kept[i])
        && quickest(obs)[i] == kept[i].addr by {
        by_rank_keeps_items(obs, kept[i]);
        assert(kept[i] == sorted[i]);
        assert(sorted.contains(sorted[i]));
    }
    assert forall|i: int, j: int| 0 <= i < j < kept.len() implies (#[trigger] kept[i]).rtt <= (
    #[trigger] kept[j]).rtt by {
        assert(sorted[i].rank() >= sorted[j].rank());
    }
    assert forall|o: Observation, i: int|
        #![trigger obs.contains(o), kept[i]]
        obs.contains(o) && !kept.contains(o) && 0 <= i < kept.len() implies kept[i].rtt <= o.rtt by {
        by_rank_keeps_items(obs, o);
        let l = sorted.index_of(o);
        assert(sorted[l] == o);
        if l < n {
            assert(kept[l] == o);
        }
        assert(sorted[i].rank() >= sorted[l].rank());
    }
    kept
}

proof fn first_mapped_at(s: Seq<Candidate>, i: int)
    requires
        0 <= i <= s.len(),
        forall|j: int| 0 <= j < i ==> (#[trigger] s[j]).source != CandidateSource::PortMapping,
        i < s.len() ==> s[i].source == CandidateSource::PortMapping,
    ensures
        i < s.len() ==> first_mapped(s) == Some(s[i].addr),
        i == s.len() ==> first_mapped(s) is None,
    decreases s.len(),
{
    if s.len() > 0 && i > 0 {
        assert(s[0].source != CandidateSource::PortMapping);
        let rest = s.subrange(1, s.len() as int);
        assert forall|j: int| 0 <= j < i - 1 implies (#[trigger] rest[j]).source
            != CandidateSource::PortMapping by {
            assert(s[j + 1].source != CandidateSource::PortMapping);
        }
        first_mapped_at(rest, i - 1);
    }
}

/// A node says that it is to be found where a port is mapped for it; without a
/// mapping, where the quickest server saw it.
pub proof fn a_mapping_goes_before_what_servers_saw(
    public_addrs: Seq<SocketAddr>,
    s: Seq<Candidate>,
    i: int,
)
    requires
        0 <= i <= s.len(),
        forall|j: int| 0 <= j < i ==> (#[trigger] s[j]).source != CandidateSource::PortMapping,
        i < s.len() ==> s[i].source == CandidateSource::PortMapping,
    ensures
        i < s.len() ==> external_addr(public_addrs, s) == Some(s[i].addr),
        i == s.len() && public_addrs.len() > 0 ==> external_addr(public_addrs, s) == Some(
            public_addrs[0],
        ),
        i == s.len() && public_addrs.len() == 0 ==> external_addr(public_addrs, s) is None,
{
    first_mapped_at(s, i);
}

proof fn repeats_are_offered(s: Seq<Candidate>, i: int)
    requires
        0 <= i < s.len(),
    ensures
        exists|k: int|
            0 <= k < without_repeats(s).len() && (#[trigger] without_repeats(s)[k]).addr == s[i].addr
                && without_repeats(s)[k].kind == s[i].kind,
    decreases s.len(),
{
    let short = s.drop_last();
    let before = without_repeats(short);
    let all = without_repeats(s);
    if i < short.len() {
        repeats_are_offered(short, i);
        let k = choose|k: int|
            0 <= k < before.len() && (#[trigger] before[k]).addr == short[i].addr && before[k].kind
                == short[i].kind;
        assert(all[k] == before[k]);
    } else {
        let last = all[all.len() - 1];
        repeats_keep_values(s);
        assert(last.addr == s[i].addr && last.kind == s[i].kind);
    }
}

proof fn repeats_stay_in_order(s: Seq<Candidate>)
    requires
        descending(s),
    ensures
        descending(without_repeats(s)),
    decreases s.len(),
{
    if s.len() > 0 {
        let short = s.drop_last();
        assert forall|i: int, j: int| 0 <= i < j < short.len() implies (#[trigger] short[i]).rank()
            >= (#[trigger] short[j]).rank() by {
            assert(s[i].rank() >= s[j].rank());
        }
        repeats_stay_in_order(short);
        repeats_keep_values(short);
        let before = without_repeats(short);
        let all = without_repeats(s);
        assert forall|i: int, j: int| 0 <= i < j < all.len() implies (#[trigger] all[i]).rank() >= (
        #[trigger] all[j]).rank() by {
            if j < before.len() {
                assert(before[i].rank() >= before[j].rank());
            } else {
                let k = short.index_of(before[i]);
                assert(short.contains(before[i]));
                assert(s[k] == before[i]);
                assert(s[k].rank() >= s[s.len() - 1].rank());
            }
        }
    }
}

proof fn way_is_offered(s: Seq<Candidate>, i: int)
    requires
        0 <= i < s.len(),
    ensures
        exists|k: int|
            0 <= k < offered(s).len() && (#[trigger] offered(s)[k]).addr == s[i].addr && offered(
                s,
            )[k].kind == s[i].kind,
{
    let sorted = by_rank(s);
    by_rank_keeps_items(s, s[i]);
    assert(s.contains(s[i]));
    let m = sorted.index_of(s[i]);
    assert(sorted[m] == s[i]);
    repeats_are_offered(sorted, m);
    let all = offered(s);
    let k = choose|k: int|
        0 <= k < without_repeats(sorted).len() && (#[trigger] without_repeats(sorted)[k]).addr
            == sorted[m].addr && without_repeats(sorted)[k].kind == sorted[m].kind;
    assert(all[k].addr == s[i].addr);
}

/// What is offered is what was found: every way that was found is offered, nothing
/// is made up, and ways of higher priority come first.
pub proof fn every_way_found_is_offered(s: Seq<Candidate>, i: int)
    requires
        0 <= i < s.len(),
    ensures
        exists|k: int|
            0 <= k < offered(s).len() && (#[trigger] offered(s)[k]).addr == s[i].addr && offered(
                s,
            )[k].kind == s[i].kind,
        forall|k: int| 0 <= k < offered(s).len() ==> s.contains(#[trigger] offered(s)[k]),
        forall|k: int, l: int|
            0 <= k < l < offered(s).len() ==> (#[trigger] offered(s)[k]).priority >= (
            #[trigger] offered(s)[l]).priority,
{
    let all = offered(s);
    let sorted = by_rank(s);
    assert(exists|k: int|
        0 <= k < all.len() && (#[trigger] all[k]).addr == s[i].addr && all[k].kind == s[i].kind) by {
        way_is_offered(s, i);
    }
    by_rank_orders(s);
    repeats_keep_values(sorted);
    repeats_stay_in_order(sorted);
    assert forall|k: int| 0 <= k < all.len() implies s.contains(#[trigger] all[k]) by {
        by_rank_keeps_items(s, all[k]);
    }
    assert forall|k: int, l: int| 0 <= k < l < all.len() implies (#[trigger] all[k]).priority >= (
    #[trigger] all[l]).priority by {
        assert(all[k].rank() >= all[l].rank());
    }
}

proof fn repeats_do_not_follow(s: Seq<Candidate>)
    ensures
        forall|k: int, l: int|
            0 <= k && l == k + 1 && l < without_repeats(s).len() ==> (#[trigger] without_repeats(
                s,
            )[k]).addr != (#[trigger] without_repeats(s)[l]).addr || without_repeats(s)[k].kind
                != without_repeats(s)[l].kind,
    decreases s.len(),
{
    if s.len() > 0 {
        let short = s.drop_last();
        repeats_do_not_follow(short);
        let before = without_repeats(short);
        let all = without_repeats(s);
        assert forall|k: int, l: int| 0 <= k && l == k + 1 && l < all.len() implies (
        #[trigger] all[k]).addr != (#[trigger] all[l]).addr || all[k].kind != all[l].kind by {
            if l < before.len() {
                assert(all[k] == before[k]);
                assert(all[l] == before[l]);
            }
        }
    }
}

/// No way is offered twice in a row.
pub proof fn no_way_follows_itself(s: Seq<Candidate>)
    ensures
        forall|k: int, l: int|
            0 <= k && l == k + 1 && l < offered(s).len() ==> (#[trigger] offered(s)[k]).addr != (
            #[trigger] offered(s)[l]).addr || offered(s)[k].kind != offered(s)[l].kind,
{
    repeats_do_not_follow(by_rank(s));
}

proof fn unmapped_keeps(s: Seq<Candidate>, c: Candidate)
    ensures
        unmapped(s).contains(c) <==> s.contains(c) && c.source != CandidateSource::PortMapping,
    decreases s.len(),
{
    if s.len() > 0 {
        let short = s.drop_last();
        unmapped_keeps(short, c);
        let before = unmapped(short);
        let all = unmapped(s);
        if all.contains(c) {
            let k = all.index_of(c);
            if k < before.len() {
                assert(before[k] == c);
                assert(s[short.index_of(c)] == c);
            } else {
                assert(s[s.len() - 1] == c);
            }
        }
        if s.contains(c) && c.source != CandidateSource::PortMapping {
            let k = s.index_of(c);
            if k < short.len() {
                assert(short[k] == c);
                assert(all[before.index_of(c)] == c);
            } else {
                assert(all[all.len() - 1] == c);
            }
        }
    }
}

/// A port that is mapped is offered as what a server would see, with a priority
/// of ninety, beside all that was offered before but older mappings.
pub proof fn a_mapped_port_is_offered(
    base: Seq<Candidate>,
    snapshot: PortMappingSnapshot,
    c: Candidate,
)
    requires
        base.contains(c),
        c.source != CandidateSource::PortMapping,
    ensures
        exists|k: int|
            0 <= k < merged_candidates(base, snapshot).len() && (#[trigger] merged_candidates(
                base,
                snapshot,
            )[k]).addr == c.addr && merged_candidates(base, snapshot)[k].kind == c.kind,
        snapshot.acquired && snapshot.external_addr is Some ==> exists|k: int|
            0 <= k < merged_candidates(base, snapshot).len() && (#[trigger] merged_candidates(
                base,
                snapshot,
            )[k]).addr == snapshot.external_addr->0 && merged_candidates(base, snapshot)[k].kind
                == CandidateKind::ServerReflexive && merged_candidates(base, snapshot)[k].priority
                >= 90,
{
    let all = match mapped_candidate(snapshot) {
        Some(m) => unmapped(base).push(m),
        None => unmapped(base),
    };
    unmapped_keeps(base, c);
    let i = unmapped(base).index_of(c);
    assert(all[i] == c);
    way_is_offered(all, i);
    let merged = merged_candidates(base, snapshot);
    assert(merged == offered(all));
    let k = choose|k: int|
        0 <= k < offered(all).len() && (#[trigger] offered(all)[k]).addr == all[i].addr && offered(
            all,
        )[k].kind == all[i].kind;
    assert(merged[k].addr == c.addr);
    if snapshot.acquired && snapshot.external_addr is Some {
        let m = mapped_candidate(snapshot)->0;
        let n = all.len() - 1;
        assert(all[n] == m);
        mapping_is_offered_high(all, n);
        let k = choose|k: int|
            0 <= k < offered(all).len() && (#[trigger] offered(all)[k]).addr == all[n].addr
                && offered(all)[k].kind == all[n].kind && offered(all)[k].priority
                >= all[n].priority;
        assert(merged[k].addr == m.addr);
    }
}

proof fn high_repeats(s: Seq<Candidate>, i: int)
    requires
        0 <= i < s.len(),
        descending(s),
    ensures
        exists|k: int|
            0 <= k < without_repeats(s).len() && (#[trigger] without_repeats(s)[k]).addr == s[i].addr
                && without_repeats(s)[k].kind == s[i].kind && without_repeats(s)[k].priority
                >= s[i].priority,
    decreases s.len(),
{
    let short = s.drop_last();
    let before = without_repeats(short);
    let all = without_repeats(s);
    if i < short.len() {
        assert forall|i: int, j: int| 0 <= i < j < short.len() implies (#[trigger] short[i]).rank()
            >= (#[trigger] short[j]).rank() by {
            assert(s[i].rank() >= s[j].rank());
        }
        high_repeats(short, i);
        let k = choose|k: int|
            0 <= k < before.len() && (#[trigger] before[k]).addr == short[i].addr && before[k].kind
                == short[i].kind && before[k].priority >= short[i].priority;
        assert(all[k] == before[k]);
    } else {
        let last = all[all.len() - 1];
        repeats_keep_values(s);
        assert(s.contains(last));
        let m = s.index_of(last);
        if m < s.len() - 1 {
            assert(s[m].rank() >= s[s.len() - 1].rank());
        }
        assert(last.addr == s[i].addr && last.kind == s[i].kind);
    }
}

proof fn mapping_is_offered_high(s: Seq<Candidate>, i: int)
    requires
        0 <= i < s.len(),
    ensures
        exists|k: int|
            0 <= k < offered(s).len() && (#[trigger] offered(s)[k]).addr == s[i].addr && offered(
                s,
            )[k].kind == s[i].kind && offered(s)[k].priority >= s[i].priority,
{
    let sorted = by_rank(s);
    by_rank_orders(s);
    by_rank_keeps_items(s, s[i]);
    assert(s.contains(s[i]));
    let m = sorted.index_of(s[i]);
    assert(sorted[m] == s[i]);
    high_repeats(sorted, m);
    let all = offered(s);
    let k = choose|k: int|
        0 <= k < without_repeats(sorted).len() && (#[trigger] without_repeats(sorted)[k]).addr
            == sorted[m].addr && without_repeats(sorted)[k].kind == sorted[m].kind
            && without_repeats(sorted)[k].priority >= sorted[m].priority;
    assert(all[k].addr == s[i].addr);
}

proof fn hosts_are(ips: Seq<IpAddr>, port: u16, i: int)
    requires
        0 <= i < ips.len(),
        !is_loopback_ip(ips[i]),
    ensures
        host_candidates(ips, port).contains(host_candidate(ips[i], port)),
    decreases ips.len(),
{
    let short = ips.drop_last();
    let before = host_candidates(short, port);
    let all = host_candidates(ips, port);
    let c = host_candidate(ips[i], port);
    if i < short.len() {
        assert(short[i] == ips[i]);
        hosts_are(short, port, i);
        let k = before.index_of(c);
        assert(all[k] == c);
    } else {
        assert(all[all.len() - 1] == c);
    }
}

proof fn hosts_are_own(ips: Seq<IpAddr>, port: u16)
    ensures
        forall|k: int|
            0 <= k < host_candidates(ips, port).len() ==> {
                let c = #[trigger] host_candidates(ips, port)[k];
                &&& ips.contains(c.addr.ip)
                &&& !is_loopback_ip(c.addr.ip)
                &&& c == host_candidate(c.addr.ip, port)
            },
    decreases ips.len(),
{
    if ips.len() > 0 {
        let short = ips.drop_last();
        hosts_are_own(short, port);
        let before = host_candidates(short, port);
        let all = host_candidates(ips, port);
        assert forall|k: int| 0 <= k < all.len() implies {
            let c = #[trigger] all[k];
            &&& ips.contains(c.addr.ip)
            &&& !is_loopback_ip(c.addr.ip)
            &&& c == host_candidate(c.addr.ip, port)
        } by {
            if k < before.len() {
                let c = before[k];
                assert(all[k] == c);
                let m = short.index_of(c.addr.ip);
                assert(ips[m] == c.addr.ip);
            } else {
                assert(ips[ips.len() - 1] == all[k].addr.ip);
            }
        }
    }
}

/// What a node has to offer: its own addresses, but for those that only it can
/// use, those that servers saw, and those that were predicted, in the order of
/// their promise.
pub proof fn own_addresses_promise_most(
    ips: Seq<IpAddr>,
    port: u16,
    seen: Seq<SocketAddr>,
    predicted: Seq<SocketAddr>,
    i: int,
)
    ensures
        0 <= i < ips.len() && (ips[i] is V4 && ips[i]->V4_0@[0] != 127) ==> exists|k: int|
            {
                let c = #[trigger] gathered(ips, port, seen, predicted)[k];
                &&& 0 <= k < gathered(ips, port, seen, predicted).len()
                &&& c.addr.ip == ips[i]
                &&& c.addr.port == port
                &&& c.kind == CandidateKind::HostLan
                &&& c.priority == 100
            },
        0 <= i < ips.len() && (ips[i] is V6 && ips[i]->V6_0@[0] != 0) ==> exists|k: int|
            {
                let c = #[trigger] gathered(ips, port, seen, predicted)[k];
                &&& 0 <= k < gathered(ips, port, seen, predicted).len()
                &&& c.addr.ip == ips[i]
                &&& c.addr.port == port
                &&& c.kind == CandidateKind::HostIpv6
                &&& c.priority == 100
            },
        0 <= i < seen.len() ==> exists|k: int|
            {
                let c = #[trigger] gathered(ips, port, seen, predicted)[k];
                &&& 0 <= k < gathered(ips, port, seen, predicted).len()
                &&& c.addr == seen[i]
                &&& c.kind == CandidateKind::ServerReflexive
                &&& c.source == CandidateSource::StunPrimary
                &&& c.priority == 80
            },
        0 <= i < predicted.len() ==> exists|k: int|
            {
                let c = #[trigger] gathered(ips, port, seen, predicted)[k];
                &&& 0 <= k < gathered(ips, port, seen, predicted).len()
                &&& c.addr == predicted[i]
                &&& c.kind == CandidateKind::PortPredicted
                &&& c.source == CandidateSource::PortPrediction
                &&& c.priority == 50
            },
        forall|k: int|
            0 <= k < gathered(ips, port, seen, predicted).len() ==> {
                let c = #[trigger] gathered(ips, port, seen, predicted)[k];
                ||| c.source == CandidateSource::LocalInterface && ips.contains(c.addr.ip)
                    && c.addr.port == port && !(c.addr.ip is V4 && c.addr.ip->V4_0@[0] == 127)
                ||| c.source == CandidateSource::StunPrimary && seen.contains(c.addr)
                ||| c.source == CandidateSource::PortPrediction && predicted.contains(c.addr)
            },
{
    let all = gathered(ips, port, seen, predicted);
    let hosts = host_candidates(ips, port);
    hosts_are_own(ips, port);
    if 0 <= i < ips.len() && !is_loopback_ip(ips[i]) {
        hosts_are(ips, port, i);
        let k = hosts.index_of(host_candidate(ips[i], port));
        assert(all[k] == hosts[k]);
    }
    if 0 <= i < seen.len() {
        assert(all[hosts.len() + i].addr == seen[i]);
    }
    if 0 <= i < predicted.len() {
        assert(all[hosts.len() + seen.len() + i].addr == predicted[i]);
    }
    assert forall|k: int| 0 <= k < all.len() implies {
        let c = #[trigger] all[k];
        ||| c.source == CandidateSource::LocalInterface && ips.contains(c.addr.ip) && c.addr.port
            == port && !(c.addr.ip is V4 && c.addr.ip->V4_0@[0] == 127)
        ||| c.source == CandidateSource::StunPrimary && seen.contains(c.addr)
        ||| c.source == CandidateSource::PortPrediction && predicted.contains(c.addr)
    } by {
        if k < hosts.len() {
            assert(all[k] == hosts[k]);
        } else if k < hosts.len() + seen.len() {
            assert(all[k].addr == seen[k - hosts.len()]);
        } else {
            assert(all[k].addr == predicted[k - hosts.len() - seen.len()]);
        }
    }
}

} // verus!
