//! Transport addresses and IPv4 networks.

use crate::bytes::{be32_bytes, be32_of, same_array, u32_bytes};
use crate::common::{dotted, push_dotted, VirtualIp};
use crate::table::Key;
use crate::text::{decimal, hexadecimal, push_decimal, push_hexadecimal};
use vstd::arithmetic::div_mod::{lemma_div_multiples_vanish, lemma_fundamental_div_mod};
use vstd::arithmetic::power2::pow2;
use vstd::prelude::*;

verus! {

/// An IP address.
#[derive(Debug, Clone, Copy, Eq, Hash)]
pub enum IpAddr {
    V4([u8; 4]),
    V6([u8; 16]),
}

/// Where datagrams come from and go to. The flow information and the scope of
/// an IPv6 address are zero for an IPv4 one.
#[derive(Debug, Clone, Copy, Eq, Hash)]
pub struct SocketAddr {
    pub ip: IpAddr,
    pub port: u16,
    pub flowinfo: u32,
    pub scope_id: u32,
}

impl PartialEq for IpAddr {
    fn eq(&self, other: &Self) -> (r: bool) {
        match (self, other) {
            (IpAddr::V4(a), IpAddr::V4(b)) => same_array(a, b),
            (IpAddr::V6(a), IpAddr::V6(b)) => same_array(a, b),
            _ => false,
        }
    }
}

impl vstd::std_specs::cmp::PartialEqSpecImpl for IpAddr {
    open spec fn obeys_eq_spec() -> bool {
        true
    }

    open spec fn eq_spec(&self, other: &Self) -> bool {
        *self == *other
    }
}

impl PartialEq for SocketAddr {
    fn eq(&self, other: &Self) -> (r: bool) {
        self.ip == other.ip && self.port == other.port && self.flowinfo == other.flowinfo
            && self.scope_id == other.scope_id
    }
}

impl vstd::std_specs::cmp::PartialEqSpecImpl for SocketAddr {
    open spec fn obeys_eq_spec() -> bool {
        true
    }

    open spec fn eq_spec(&self, other: &Self) -> bool {
        *self == *other
    }
}

/// Every byte of the address is zero.
pub open spec fn unspecified(ip: IpAddr) -> bool {
    match ip {
        IpAddr::V4(o) => forall|i: int| 0 <= i < 4 ==> o@[i] == 0,
        IpAddr::V6(o) => forall|i: int| 0 <= i < 16 ==> o@[i] == 0,
    }
}

impl IpAddr {
    pub fn is_unspecified(&self) -> (r: bool)
        ensures
            r == unspecified(*self),
    {
        match self {
            IpAddr::V4(o) => {
                let zero: [u8; 4] = [0; 4];
                let r = same_array(o, &zero);
                assert(r == (forall|i: int| 0 <= i < 4 ==> o@[i] == 0)) by {
                    if forall|i: int| 0 <= i < 4 ==> o@[i] == 0 {
                        assert(*o =~= zero);
                    }
                    if r {
                        assert(forall|i: int| 0 <= i < 4 ==> zero@[i] == 0);
                    }
                }
                r
            },
            IpAddr::V6(o) => {
                let zero: [u8; 16] = [0; 16];
                let r = same_array(o, &zero);
                assert(r == (forall|i: int| 0 <= i < 16 ==> o@[i] == 0)) by {
                    if forall|i: int| 0 <= i < 16 ==> o@[i] == 0 {
                        assert(*o =~= zero);
                    }
                    if r {
                        assert(forall|i: int| 0 <= i < 16 ==> zero@[i] == 0);
                    }
                }
                r
            },
        }
    }
}

/// The IPv4 address and port.
pub open spec fn v4_addr(o: [u8; 4], port: u16) -> SocketAddr {
    SocketAddr { ip: IpAddr::V4(o), port, flowinfo: 0, scope_id: 0 }
}

impl SocketAddr {
    /// An address without flow information or scope.
    pub fn new(ip: IpAddr, port: u16) -> (r: SocketAddr)
        ensures
            r == (SocketAddr { ip, port, flowinfo: 0, scope_id: 0 }),
    {
        SocketAddr { ip, port, flowinfo: 0, scope_id: 0 }
    }

    pub fn is_ipv4(&self) -> (r: bool)
        ensures
            r == (self.ip is V4),
    {
        match self.ip {
            IpAddr::V4(_) => true,
            IpAddr::V6(_) => false,
        }
    }
}

/// The eight groups of an IPv6 address.
pub open spec fn group(o: Seq<u8>, i: int) -> int {
    o[2 * i] * 256 + o[2 * i + 1]
}

/// How many groups from `i` on are zero without a break.
pub open spec fn zero_run(o: Seq<u8>, i: int) -> int
    decreases 8 - i,
{
    if 0 <= i < 8 && group(o, i) == 0 {
        1 + zero_run(o, i + 1)
    } else {
        0
    }
}

/// The first place from `i` on at which a longest run of zero groups begins
/// that is longer than `best` groups, or else `found`.
pub open spec fn longest_run(o: Seq<u8>, i: int, found: int, best: int) -> int
    decreases 8 - i,
{
    if 0 <= i < 8 {
        if zero_run(o, i) > best {
            longest_run(o, i + 1, i, zero_run(o, i))
        } else {
            longest_run(o, i + 1, found, best)
        }
    } else {
        found
    }
}

/// Where the compressed part of the address begins: the first longest run of at
/// least two zero groups, or behind the address if there is none.
pub open spec fn compressed_at(o: Seq<u8>) -> int {
    longest_run(o, 0, 8, 1)
}

/// The groups from `i` up to `end`, with colons between them.
pub open spec fn groups_text(o: Seq<u8>, i: int, end: int) -> Seq<char>
    decreases end - i,
{
    if i >= end {
        Seq::empty()
    } else if i + 1 == end {
        hexadecimal(group(o, i) as nat)
    } else {
        hexadecimal(group(o, i) as nat) + seq![':'] + groups_text(o, i + 1, end)
    }
}

/// An IPv4 address inside an IPv6 one.
pub open spec fn v4_mapped(o: Seq<u8>) -> bool {
    &&& forall|i: int| 0 <= i < 10 ==> o[i] == 0
    &&& o[10] == 255
    &&& o[11] == 255
}

/// The canonical text of an IPv6 address (RFC 5952).
pub open spec fn ipv6_text(o: Seq<u8>) -> Seq<char> {
    if v4_mapped(o) {
        "::ffff:"@ + dotted(o.subrange(12, 16))
    } else {
        let at = compressed_at(o);
        if at >= 8 {
            groups_text(o, 0, 8)
        } else {
            groups_text(o, 0, at) + "::"@ + groups_text(o, at + zero_run(o, at), 8)
        }
    }
}

/// The text of an IP address.
pub open spec fn ip_text(ip: IpAddr) -> Seq<char> {
    match ip {
        IpAddr::V4(o) => dotted(o@),
        IpAddr::V6(o) => ipv6_text(o@),
    }
}

/// The text of an address and port; an IPv6 address stands in brackets, with its
/// scope unless that is zero.
pub open spec fn addr_text(a: SocketAddr) -> Seq<char> {
    match a.ip {
        IpAddr::V4(o) => dotted(o@) + seq![':'] + decimal(a.port as nat),
        IpAddr::V6(o) => seq!['['] + ipv6_text(o@) + (if a.scope_id == 0 {
            Seq::empty()
        } else {
            seq!['%'] + decimal(a.scope_id as nat)
        }) + "]:"@ + decimal(a.port as nat),
    }
}

fn group_value(o: &[u8; 16], i: usize) -> (g: u16)
    requires
        i < 8,
    ensures
        g == group(o@, i as int),
{
    o[2 * i] as u16 * 256 + o[2 * i + 1] as u16
}

fn run_len(o: &[u8; 16], i: usize) -> (n: usize)
    requires
        i <= 8,
    ensures
        n == zero_run(o@, i as int),
        n <= 8 - i,
    decreases 8 - i,
{
    if i < 8 && group_value(o, i) == 0 {
        1 + run_len(o, i + 1)
    } else {
        0
    }
}

fn run_start(o: &[u8; 16]) -> (at: usize)
    ensures
        at == compressed_at(o@),
        at <= 8,
{
    let mut found: usize = 8;
    let mut best: usize = 1;
    let mut i: usize = 0;
    while i < 8
        invariant
            i <= 8,
            found <= 8,
            best <= 8,
            longest_run(o@, i as int, found as int, best as int) == compressed_at(o@),
        decreases 8 - i,
    {
        let n = run_len(o, i);
        if n > best {
            found = i;
            best = n;
        }
        i += 1;
    }
    found
}

fn push_groups(out: &mut String, o: &[u8; 16], i: usize, end: usize)
    requires
        end <= 8,
    ensures
        final(out)@ == old(out)@ + groups_text(o@, i as int, end as int),
    decreases end - i,
{
    let ghost start = out@;
    if i < end {
        push_hexadecimal(out, group_value(o, i));
        if i + 1 < end {
            out.push(':');
            push_groups(out, o, i + 1, end);
        }
    }
    assert(out@ =~= start + groups_text(o@, i as int, end as int));
}

fn is_v4_mapped(o: &[u8; 16]) -> (r: bool)
    ensures
        r == v4_mapped(o@),
{
    for i in 0usize..10
        invariant
            forall|k: int| 0 <= k < i ==> #[trigger] o@[k] == 0,
    {
        if o[i] != 0 {
            return false;
        }
    }
    o[10] == 255 && o[11] == 255
}

/// Appends the canonical text of an IP address.
pub fn push_ip(out: &mut String, ip: &IpAddr)
    ensures
        final(out)@ == old(out)@ + ip_text(*ip),
{
    let ghost start = out@;
    match ip {
        IpAddr::V4(o) => {
            push_dotted(out, o);
        },
        IpAddr::V6(o) => {
            if is_v4_mapped(o) {
                out.append("::ffff:");
                let v4: [u8; 4] = [o[12], o[13], o[14], o[15]];
                assert(v4@ =~= o@.subrange(12, 16));
                push_dotted(out, &v4);
                assert(out@ =~= start + ip_text(*ip));
            } else {
                let at = run_start(o);
                if at >= 8 {
                    push_groups(out, o, 0, 8);
                } else {
                    push_groups(out, o, 0, at);
                    out.append("::");
                    let n = run_len(o, at);
                    push_groups(out, o, at + n, 8);
                    assert(out@ =~= start + ip_text(*ip));
                }
            }
        },
    }
}

impl IpAddr {
    pub fn to_text(&self) -> (s: String)
        ensures
            s@ == ip_text(*self),
    {
        let mut s = String::new();
        push_ip(&mut s, self);
        assert(s@ =~= ip_text(*self));
        s
    }
}

impl SocketAddr {
    pub fn to_text(&self) -> (s: String)
        ensures
            s@ == addr_text(*self),
    {
        let mut s = String::new();
        match self.ip {
            IpAddr::V4(o) => {
                push_dotted(&mut s, &o);
                s.push(':');
                push_decimal(&mut s, self.port as u64);
                assert(s@ =~= addr_text(*self));
            },
            IpAddr::V6(o) => {
                s.push('[');
                push_ip(&mut s, &self.ip);
                if self.scope_id != 0 {
                    s.push('%');
                    push_decimal(&mut s, self.scope_id as u64);
                }
                s.append("]:");
                push_decimal(&mut s, self.port as u64);
                assert(s@ =~= addr_text(*self));
            },
        }
        s
    }
}

/// The bytes that identify an address.
pub open spec fn addr_bytes(a: SocketAddr) -> Seq<u8> {
    (match a.ip {
        IpAddr::V4(o) => seq![4u8] + o@,
        IpAddr::V6(o) => seq![6u8] + o@,
    }) + be32_bytes(a.flowinfo) + be32_bytes(a.scope_id) + be32_bytes(a.port as u32)
}

impl Key for SocketAddr {
    open spec fn key_seq(self) -> Seq<u8> {
        addr_bytes(self)
    }

    fn key_bytes(&self) -> (b: Vec<u8>) {
        let mut v: Vec<u8> = Vec::new();
        match self.ip {
            IpAddr::V4(o) => {
                v.push(4);
                crate::bytes::push_all(&mut v, o.as_slice());
                assert(v@ =~= seq![4u8] + o@);
            },
            IpAddr::V6(o) => {
                v.push(6);
                crate::bytes::push_all(&mut v, o.as_slice());
                assert(v@ =~= seq![6u8] + o@);
            },
        }
        let f = u32_bytes(self.flowinfo);
        let s = u32_bytes(self.scope_id);
        let p = u32_bytes(self.port as u32);
        crate::bytes::push_all(&mut v, f.as_slice());
        crate::bytes::push_all(&mut v, s.as_slice());
        crate::bytes::push_all(&mut v, p.as_slice());
        v
    }

    fn same(&self, other: &Self) -> (r: bool) {
        *self == *other
    }

    proof fn key_injective(a: Self, b: Self) {
        crate::bytes::be32_round_trip(a.flowinfo);
        crate::bytes::be32_round_trip(a.scope_id);
        crate::bytes::be32_round_trip(a.port as u32);
        crate::bytes::be32_round_trip(b.flowinfo);
        crate::bytes::be32_round_trip(b.scope_id);
        crate::bytes::be32_round_trip(b.port as u32);
        let x = addr_bytes(a);
        let y = addr_bytes(b);
        if x == y {
            assert(x[0] == y[0]);
            let n: int = if a.ip is V4 {
                5
            } else {
                17
            };
            assert(x.subrange(n, n + 4) =~= be32_bytes(a.flowinfo));
            assert(y.subrange(n, n + 4) =~= be32_bytes(b.flowinfo));
            assert(x.subrange(n + 4, n + 8) =~= be32_bytes(a.scope_id));
            assert(y.subrange(n + 4, n + 8) =~= be32_bytes(b.scope_id));
            assert(x.subrange(n + 8, n + 12) =~= be32_bytes(a.port as u32));
            assert(y.subrange(n + 8, n + 12) =~= be32_bytes(b.port as u32));
            match (a.ip, b.ip) {
                (IpAddr::V4(o), IpAddr::V4(q)) => {
                    assert(x.subrange(1, 5) =~= o@);
                    assert(y.subrange(1, 5) =~= q@);
                    assert(o =~= q);
                },
                (IpAddr::V6(o), IpAddr::V6(q)) => {
                    assert(x.subrange(1, 17) =~= o@);
                    assert(y.subrange(1, 17) =~= q@);
                    assert(o =~= q);
                },
                _ => {},
            }
        }
    }
}

/// How many addresses a network of this prefix length has.
pub open spec fn block(prefix: int) -> nat
    decreases 32 - prefix,
{
    if prefix >= 32 {
        1
    } else {
        2 * block(prefix + 1)
    }
}

/// An IPv4 network, kept with the address it was written with.
#[derive(Debug, Clone, Copy, PartialEq, Eq, Structural)]
pub struct Ipv4Net {
    pub addr: u32,
    pub prefix: u8,
}

/// The first address of the network.
pub open spec fn net_start(n: Ipv4Net) -> int {
    n.addr - n.addr as int % block(n.prefix as int) as int
}

/// The last address of the network.
pub open spec fn net_end(n: Ipv4Net) -> int {
    net_start(n) + block(n.prefix as int) - 1
}

/// Some address belongs to both networks.
pub open spec fn nets_overlap(a: Ipv4Net, b: Ipv4Net) -> bool {
    net_start(a) <= net_end(b) && net_start(b) <= net_end(a)
}

/// The network as text: the address it was written with and the prefix length.
pub open spec fn net_text(n: Ipv4Net) -> Seq<char> {
    dotted(be32_bytes(n.addr)) + seq!['/'] + decimal(n.prefix as nat)
}

/// What a text reads as, taken as an IPv4 network.
pub uninterp spec fn parsed_net(s: Seq<char>) -> Option<Ipv4Net>;

/// `ipnet::Ipv4Net::from_str`: what it reads depends on the text alone; a
/// network that it reads has a prefix length of at most 32; and it reads back
/// the dotted address, slash and prefix length that a network is written with.
#[verifier::external_body]
fn ipnet_parse(s: &str) -> (r: Option<Ipv4Net>)
    ensures
        r == parsed_net(s@),
        r is Some ==> r->0.prefix <= 32,
        forall|n: Ipv4Net| n.prefix <= 32 && s@ == #[trigger] net_text(n) ==> r == Some(n),
{
    let net = s.parse::<ipnet::Ipv4Net>().ok()?;
    Some(Ipv4Net { addr: u32::from(net.addr()), prefix: net.prefix_len() })
}

pub proof fn block_positive(p: int)
    ensures
        block(p) >= 1,
    decreases 32 - p,
{
    if p < 32 {
        block_positive(p + 1);
    }
}

/// A shorter prefix makes a network that is a whole number of longer ones.
pub proof fn block_divides(p: int, q: int) -> (k: nat)
    requires
        p <= q <= 32,
    ensures
        block(p) == k * block(q),
        k >= 1,
    decreases q - p,
{
    if p == q {
        assert(block(p) == 1 * block(q));
        1
    } else {
        let k = block_divides(p + 1, q);
        assert(2 * (k * block(q)) == (2 * k) * block(q)) by (nonlinear_arith);
        2 * k
    }
}

pub proof fn block_whole()
    ensures
        block(0) == 0x1_0000_0000,
{
    reveal_with_fuel(block, 33);
}

/// The addresses of a network are addresses.
pub proof fn net_in_range(n: Ipv4Net)
    requires
        n.prefix <= 32,
    ensures
        0 <= net_start(n) <= n.addr <= net_end(n) <= 0xffff_ffff,
        net_start(n) % (block(n.prefix as int) as int) == 0,
{
    let b = block(n.prefix as int) as int;
    block_positive(n.prefix as int);
    block_whole();
    let k = block_divides(0, n.prefix as int);
    let q = n.addr as int / b;
    lemma_fundamental_div_mod(n.addr as int, b);
    assert(net_start(n) == b * q);
    assert(b * q == q * b) by (nonlinear_arith);
    assert(q < k) by (nonlinear_arith)
        requires
            b * q <= n.addr,
            n.addr < k * b,
            b > 0,
    ;
    assert((q + 1) * b <= k * b) by (nonlinear_arith)
        requires
            q + 1 <= k,
            b > 0,
    ;
    assert((q + 1) * b == q * b + b) by (nonlinear_arith);
    vstd::arithmetic::div_mod::lemma_mod_multiples_basic(q, b);
    assert(0 <= q) by (nonlinear_arith)
        requires
            q == n.addr as int / b,
            b > 0,
            n.addr >= 0,
    ;
    assert(0 <= q * b) by (nonlinear_arith)
        requires
            q >= 0,
            b > 0,
    ;
}

pub fn block_size(prefix: u8) -> (b: u64)
    requires
        prefix <= 32,
    ensures
        b == block(prefix as int),
        1 <= b <= 0x1_0000_0000,
{
    let mut p: u8 = 32;
    let mut b: u64 = 1;
    proof {
        block_whole();
    }
    while p > prefix
        invariant
            prefix <= p <= 32,
            b == block(p as int),
            b <= 0x1_0000_0000,
        decreases p,
    {
        proof {
            let k = block_divides(0, p - 1);
            block_whole();
            block_positive(p - 1);
            assert(block(p - 1) <= k * block(p - 1)) by (nonlinear_arith)
                requires
                    k >= 1,
            ;
        }
        p -= 1;
        b = b * 2;
    }
    proof {
        block_positive(prefix as int);
    }
    b
}

impl Ipv4Net {
    pub open spec fn wf(self) -> bool {
        self.prefix <= 32
    }

    /// Reads a network from its text.
    pub fn parse(s: &str) -> (r: Option<Ipv4Net>)
        ensures
            r == parsed_net(s@),
            r is Some ==> r->0.wf(),
            forall|n: Ipv4Net| n.wf() && s@ == #[trigger] net_text(n) ==> r == Some(n),
    {
        ipnet_parse(s)
    }

    /// The first address.
    pub fn network(&self) -> (a: u32)
        requires
            self.wf(),
        ensures
            a == net_start(*self),
    {
        proof {
            net_in_range(*self);
        }
        let b = block_size(self.prefix);
        (self.addr as u64 - self.addr as u64 % b) as u32
    }

    /// The last address.
    pub fn broadcast(&self) -> (a: u32)
        requires
            self.wf(),
        ensures
            a == net_end(*self),
    {
        proof {
            net_in_range(*self);
        }
        let b = block_size(self.prefix);
        (self.addr as u64 - self.addr as u64 % b + (b - 1)) as u32
    }

    pub fn contains(&self, a: u32) -> (r: bool)
        requires
            self.wf(),
        ensures
            r == (net_start(*self) <= a <= net_end(*self)),
    {
        self.network() <= a && a <= self.broadcast()
    }

    pub fn to_text(&self) -> (s: String)
        ensures
            s@ == net_text(*self),
    {
        let mut s = String::new();
        let o = u32_bytes(self.addr);
        push_dotted(&mut s, &o);
        s.push('/');
        push_decimal(&mut s, self.prefix as u64);
        assert(s@ =~= net_text(*self));
        s
    }
}

/// Whether some address belongs to both networks.
pub fn ipv4_nets_overlap(a: &Ipv4Net, b: &Ipv4Net) -> (r: bool)
    requires
        a.wf(),
        b.wf(),
    ensures
        r == nets_overlap(*a, *b),
{
    a.network() <= b.broadcast() && b.network() <= a.broadcast()
}

/// A network of a prefix length has two to the power of the remaining bits
/// addresses.
pub proof fn block_is_a_power(p: int)
    requires
        0 <= p <= 32,
    ensures
        block(p) == pow2((32 - p) as nat),
    decreases 32 - p,
{
    if p == 32 {
        vstd::arithmetic::power2::lemma2_to64();
    } else {
        block_is_a_power(p + 1);
        vstd::arithmetic::power2::lemma_pow2_unfold((32 - p) as nat);
    }
}

/// An address lies in a network exactly when it agrees with it in the bits of the
/// prefix.
pub proof fn addresses_belong_by_their_prefix(n: Ipv4Net, x: int)
    requires
        n.prefix <= 32,
        0 <= x <= 0xffff_ffff,
    ensures
        net_start(n) <= x <= net_end(n) <==> x / pow2((32 - n.prefix) as nat) as int
            == n.addr as int / pow2((32 - n.prefix) as nat) as int,
{
    let b = pow2((32 - n.prefix) as nat) as int;
    block_is_a_power(n.prefix as int);
    block_positive(n.prefix as int);
    let q = n.addr as int / b;
    let r = x / b;
    lemma_fundamental_div_mod(n.addr as int, b);
    lemma_fundamental_div_mod(x, b);
    assert(net_start(n) == b * q);
    assert(0 <= x % b < b);
    if r < q {
        assert(b * r + b <= b * q) by (nonlinear_arith)
            requires
                r + 1 <= q,
                b > 0,
        ;
    } else if r > q {
        assert(b * q + b <= b * r) by (nonlinear_arith)
            requires
                q + 1 <= r,
                b > 0,
        ;
    }
}

/// Two networks overlap exactly when some address lies in both, and it does not
/// matter which of them comes first.
pub proof fn overlapping_networks_share_an_address(a: Ipv4Net, b: Ipv4Net)
    requires
        a.prefix <= 32,
        b.prefix <= 32,
    ensures
        nets_overlap(a, b) <==> exists|x: int|
            {
                &&& 0 <= x <= 0xffff_ffff
                &&& #[trigger] (x / pow2((32 - a.prefix) as nat) as int) == a.addr as int / pow2(
                    (32 - a.prefix) as nat,
                ) as int
                &&& x / pow2((32 - b.prefix) as nat) as int == b.addr as int / pow2(
                    (32 - b.prefix) as nat,
                ) as int
            },
        nets_overlap(a, b) <==> nets_overlap(b, a),
        nets_overlap(a, a),
{
    net_in_range(a);
    net_in_range(b);
    if nets_overlap(a, b) {
        let x = if net_start(a) <= net_start(b) {
            net_start(b)
        } else {
            net_start(a)
        };
        addresses_belong_by_their_prefix(a, x);
        addresses_belong_by_their_prefix(b, x);
        assert(x / pow2((32 - a.prefix) as nat) as int == a.addr as int / pow2(
            (32 - a.prefix) as nat,
        ) as int);
    }
    if exists|x: int|
        {
            &&& 0 <= x <= 0xffff_ffff
            &&& #[trigger] (x / pow2((32 - a.prefix) as nat) as int) == a.addr as int / pow2(
                (32 - a.prefix) as nat,
            ) as int
            &&& x / pow2((32 - b.prefix) as nat) as int == b.addr as int / pow2(
                (32 - b.prefix) as nat,
            ) as int
        } {
        let x = choose|x: int|
            {
                &&& 0 <= x <= 0xffff_ffff
                &&& #[trigger] (x / pow2((32 - a.prefix) as nat) as int) == a.addr as int / pow2(
                    (32 - a.prefix) as nat,
                ) as int
                &&& x / pow2((32 - b.prefix) as nat) as int == b.addr as int / pow2(
                    (32 - b.prefix) as nat,
                ) as int
            };
        addresses_belong_by_their_prefix(a, x);
        addresses_belong_by_their_prefix(b, x);
    }
}

} // verus!
