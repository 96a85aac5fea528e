//! Reading the text of an address and port.

use crate::common::dotted;
use crate::net::{addr_text, IpAddr, SocketAddr};
use crate::text::{
    all_digits, chars_of, decimal, digit_char, digits_value, hex_value, number, parse_number,
    split_at_char, split_on, unsigned_digits,
};
use vstd::prelude::*;
use vstd::slice::slice_subrange;

verus! {

/// What a text reads as, taken as a number in decimal digits and nothing else.
pub open spec fn digits_number(s: Seq<char>, max: nat) -> Option<nat> {
    if all_digits(s) && digits_value(s) <= max {
        Some(digits_value(s))
    } else {
        None
    }
}

/// One of the four numbers of an address: up to three digits, without a zero in
/// front.
pub open spec fn octet_read(s: Seq<char>) -> Option<nat> {
    if s.len() <= 3 && (s.len() == 1 || s[0] != '0') {
        digits_number(s, 255)
    } else {
        None
    }
}

/// Four numbers with dots between them.
pub open spec fn dotted_read(s: Seq<char>) -> Option<Seq<u8>> {
    let p = split_at_char(s, '.');
    if p.len() == 4 && octet_read(p[0]) is Some && octet_read(p[1]) is Some && octet_read(
        p[2],
    ) is Some && octet_read(p[3]) is Some {
        Some(
            seq![
                octet_read(p[0])->0 as u8,
                octet_read(p[1])->0 as u8,
                octet_read(p[2])->0 as u8,
                octet_read(p[3])->0 as u8,
            ],
        )
    } else {
        None
    }
}

/// The value of hexadecimal digits.
pub open spec fn hex_number(s: Seq<char>) -> nat
    decreases s.len(),
{
    if s.len() == 0 {
        0
    } else {
        hex_number(s.drop_last()) * 16 + (match hex_value(s.last()) {
            Some(d) => d as nat,
            None => 0,
        })
    }
}

/// Every character is a hexadecimal digit.
pub open spec fn all_hex(s: Seq<char>) -> bool {
    forall|i: int| 0 <= i < s.len() ==> hex_value(#[trigger] s[i]) is Some
}

/// One of the groups of an address: up to four hexadecimal digits.
pub open spec fn group_read(s: Seq<char>) -> Option<nat> {
    if 1 <= s.len() <= 4 && all_hex(s) {
        Some(hex_number(s))
    } else {
        None
    }
}

/// Each of some texts is a group.
pub open spec fn all_groups(p: Seq<Seq<char>>) -> bool {
    forall|i: int| 0 <= i < p.len() ==> group_read(#[trigger] p[i]) is Some
}

/// The values of some groups.
pub open spec fn group_values(p: Seq<Seq<char>>) -> Seq<u16> {
    Seq::new(p.len(), |i: int| group_read(p[i])->0 as u16)
}

/// Groups with colons between them. The last two may be written as four numbers
/// with dots, where that is allowed.
pub open spec fn groups_read(s: Seq<char>, dots: bool) -> Option<Seq<u16>> {
    let p = split_at_char(s, ':');
    if s.len() == 0 {
        Some(Seq::empty())
    } else if dots && dotted_read(p.last()) is Some {
        let o = dotted_read(p.last())->0;
        if all_groups(p.drop_last()) {
            Some(
                group_values(p.drop_last()).push((o[0] * 256 + o[1]) as u16).push(
                    (o[2] * 256 + o[3]) as u16,
                ),
            )
        } else {
            None
        }
    } else if all_groups(p) {
        Some(group_values(p))
    } else {
        None
    }
}

/// Where the first of two colons in a row stands, from a place on.
pub open spec fn double_colon(s: Seq<char>, from: int) -> Option<int>
    decreases s.len() - from,
{
    if from < 0 || from + 1 >= s.len() {
        None
    } else if s[from] == ':' && s[from + 1] == ':' {
        Some(from)
    } else {
        double_colon(s, from + 1)
    }
}

/// The eight groups of an address. Two colons in a row stand for one group of
/// zeros or more.
pub open spec fn v6_read(s: Seq<char>) -> Option<Seq<u16>> {
    match double_colon(s, 0) {
        Some(i) => {
            let head = groups_read(s.subrange(0, i), false);
            let tail = groups_read(s.subrange(i + 2, s.len() as int), true);
            if head is Some && tail is Some && head->0.len() + tail->0.len() <= 7 {
                Some(
                    head->0 + Seq::new(
                        (8 - head->0.len() - tail->0.len()) as nat,
                        |k: int| 0u16,
                    ) + tail->0,
                )
            } else {
                None
            }
        },
        None => match groups_read(s, true) {
            Some(g) => if g.len() == 8 {
                Some(g)
            } else {
                None
            },
            None => None,
        },
    }
}

/// Where a character first stands, from a place on.
pub open spec fn first_of(s: Seq<char>, c: char, from: int) -> Option<int>
    decreases s.len() - from,
{
    if from < 0 || from >= s.len() {
        None
    } else if s[from] == c {
        Some(from)
    } else {
        first_of(s, c, from + 1)
    }
}

/// The address and port of a text of version four.
pub open spec fn v4_part(s: Seq<char>) -> Option<(Seq<u8>, nat)> {
    match first_of(s, ':', 0) {
        Some(i) => match (
            dotted_read(s.subrange(0, i)),
            digits_number(s.subrange(i + 1, s.len() as int), 65535),
        ) {
            (Some(o), Some(p)) => Some((o, p)),
            _ => None,
        },
        None => None,
    }
}

/// The scope behind an address of version six: none counts as zero.
pub open spec fn scope_read(inner: Seq<char>) -> Option<nat> {
    match first_of(inner, '%', 0) {
        Some(k) => digits_number(inner.subrange(k + 1, inner.len() as int), 0xffff_ffff),
        None => Some(0),
    }
}

/// The address in front of a scope.
pub open spec fn before_scope(inner: Seq<char>) -> Seq<char> {
    match first_of(inner, '%', 0) {
        Some(k) => inner.subrange(0, k),
        None => inner,
    }
}

/// The address, scope and port of a text of version six: the address stands in
/// brackets.
pub open spec fn v6_part(s: Seq<char>) -> Option<(Seq<u16>, nat, nat)> {
    match first_of(s, ']', 0) {
        Some(j) => {
            let inner = s.subrange(1, j);
            if j >= 1 && s[0] == '[' && j + 1 < s.len() && s[j + 1] == ':' {
                match (
                    v6_read(before_scope(inner)),
                    scope_read(inner),
                    digits_number(s.subrange(j + 2, s.len() as int), 65535),
                ) {
                    (Some(g), Some(scope), Some(p)) => Some((g, scope, p)),
                    _ => None,
                }
            } else {
                None
            }
        },
        None => None,
    }
}

/// The bytes of groups.
pub open spec fn group_bytes(g: Seq<u16>) -> Seq<u8> {
    Seq::new(
        2 * g.len(),
        |i: int|
            if i % 2 == 0 {
                (g[i / 2] / 256) as u8
            } else {
                (g[i / 2] % 256) as u8
            },
    )
}

/// What a text reads as, taken as an address and port.
pub open spec fn addr_reads(s: Seq<char>, a: Option<SocketAddr>) -> bool {
    match v4_part(s) {
        Some((o, p)) => {
            &&& a is Some
            &&& a->0.ip is V4
            &&& a->0.ip->V4_0@ == o
            &&& a->0.port == p
            &&& a->0.flowinfo == 0
            &&& a->0.scope_id == 0
        },
        None => match v6_part(s) {
            Some((g, scope, p)) => {
                &&& a is Some
                &&& a->0.ip is V6
                &&& a->0.ip->V6_0@ == group_bytes(g)
                &&& a->0.port == p
                &&& a->0.flowinfo == 0
                &&& a->0.scope_id == scope
            },
            None => a is None,
        },
    }
}

fn parse_digits(s: &[char], max: u64) -> (r: Option<u64>)
    requires
        max <= 0xffff_ffff,
    ensures
        match r {
            Some(v) => digits_number(s@, max as nat) == Some(v as nat),
            None => digits_number(s@, max as nat) is None,
        },
{
    if s.len() > 0 && s[0] == '+' {
        assert(!('0' <= s@[0]));
        return None;
    }
    parse_number(s, max)
}

fn parse_octet(s: &[char]) -> (r: Option<u8>)
    ensures
        match r {
            Some(v) => octet_read(s@) == Some(v as nat),
            None => octet_read(s@) is None,
        },
{
    let n: usize = s.len();
    if n == 0 || n > 3 || (n != 1 && s[0] == '0') {
        return None;
    }
    match parse_digits(s, 255) {
        Some(v) => Some(v as u8),
        None => None,
    }
}

fn parse_dotted(s: &[char]) -> (r: Option<[u8; 4]>)
    ensures
        match r {
            Some(o) => dotted_read(s@) == Some(o@),
            None => dotted_read(s@) is None,
        },
{
    let p = split_on(s, '.');
    if p.len() != 4 {
        return None;
    }
    let ghost parts = split_at_char(s@, '.');
    assert(p@[0]@ == parts[0] && p@[1]@ == parts[1] && p@[2]@ == parts[2] && p@[3]@ == parts[3]);
    match (
        parse_octet(p[0].as_slice()),
        parse_octet(p[1].as_slice()),
        parse_octet(p[2].as_slice()),
        parse_octet(p[3].as_slice()),
    ) {
        (Some(a), Some(b), Some(c), Some(d)) => {
            let o: [u8; 4] = [a, b, c, d];
            assert(o@ =~= seq![a, b, c, d]);
            Some(o)
        },
        _ => None,
    }
}

fn hex_digit(c: char) -> (r: Option<u16>)
    ensures
        match r {
            Some(v) => hex_value(c) == Some(v as int) && v < 16,
            None => hex_value(c) is None,
        },
{
    if '0' <= c && c <= '9' {
        Some((c as u32 - 48) as u16)
    } else if 'a' <= c && c <= 'f' {
        Some((c as u32 - 87) as u16)
    } else if 'A' <= c && c <= 'F' {
        Some((c as u32 - 55) as u16)
    } else {
        None
    }
}

fn parse_group(s: &[char]) -> (r: Option<u16>)
    ensures
        match r {
            Some(v) => group_read(s@) == Some(v as nat),
            None => group_read(s@) is None,
        },
{
    let n: usize = s.len();
    if n == 0 || n > 4 {
        return None;
    }
    let mut v: u32 = 0;
    assert(s@.subrange(0, 0) =~= Seq::<char>::empty());
    for i in 0..n
        invariant
            n == s@.len(),
            1 <= n <= 4,
            v == hex_number(s@.subrange(0, i as int)),
            i == 0 ==> v == 0,
            i == 1 ==> v < 16,
            i == 2 ==> v < 256,
            i == 3 ==> v < 4096,
            i == 4 ==> v < 65536,
            forall|k: int| 0 <= k < i ==> hex_value(#[trigger] s@[k]) is Some,
    {
        assert(s@.subrange(0, i + 1).drop_last() =~= s@.subrange(0, i as int));
        assert(s@.subrange(0, i + 1).last() == s@[i as int]);
        match hex_digit(s[i]) {
            Some(d) => {
                v = v * 16 + d as u32;
            },
            None => {
                assert(hex_value(s@[i as int]) is None);
                return None;
            },
        }
    }
    assert(s@.subrange(0, n as int) =~= s@);
    Some(v as u16)
}

/// Reads the first of some texts as groups.
fn parse_all(p: &Vec<Vec<char>>, n: usize) -> (r: Option<Vec<u16>>)
    requires
        n <= p@.len(),
    ensures
        ({
            let texts = Seq::new(n as nat, |i: int| p@[i]@);
            match r {
                Some(v) => all_groups(texts) && v@ == group_values(texts),
                None => !all_groups(texts),
            }
        }),
{
    let ghost texts = Seq::new(n as nat, |i: int| p@[i]@);
    let mut v: Vec<u16> = Vec::new();
    for i in 0..n
        invariant
            n <= p@.len(),
            texts == Seq::new(n as nat, |i: int| p@[i]@),
            v@.len() == i,
            forall|k: int|
                0 <= k < i ==> group_read(#[trigger] texts[k]) is Some && v@[k] as nat
                    == group_read(texts[k])->0,
    {
        assert(texts[i as int] == p@[i as int]@);
        match parse_group(p[i].as_slice()) {
            Some(g) => {
                v.push(g);
            },
            None => {
                return None;
            },
        }
    }
    assert(v@ =~= group_values(texts));
    Some(v)
}

fn parse_groups(s: &[char], dots: bool) -> (r: Option<Vec<u16>>)
    ensures
        match r {
            Some(v) => groups_read(s@, dots) == Some(v@),
            None => groups_read(s@, dots) is None,
        },
{
    if s.len() == 0 {
        let none: Vec<u16> = Vec::new();
        assert(none@ =~= Seq::<u16>::empty());
        return Some(none);
    }
    let p = split_on(s, ':');
    let ghost parts = split_at_char(s@, ':');
    let n: usize = p.len();
    assert(p@[n - 1]@ == parts.last());
    if dots {
        if let Some(o) = parse_dotted(p[n - 1].as_slice()) {
            assert(Seq::new((n - 1) as nat, |i: int| p@[i]@) =~= parts.drop_last());
            return match parse_all(&p, n - 1) {
                Some(v) => {
                    let mut v = v;
                    v.push(o[0] as u16 * 256 + o[1] as u16);
                    v.push(o[2] as u16 * 256 + o[3] as u16);
                    Some(v)
                },
                None => None,
            };
        }
    }
    assert(Seq::new(n as nat, |i: int| p@[i]@) =~= parts);
    parse_all(&p, n)
}

fn find_double(s: &[char]) -> (r: Option<usize>)
    ensures
        match r {
            Some(i) => double_colon(s@, 0) == Some(i as int) && i + 2 <= s@.len(),
            None => double_colon(s@, 0) is None,
        },
{
    let n: usize = s.len();
    let mut i: usize = 0;
    while i < n && i + 1 < n
        invariant
            n == s@.len(),
            i <= n,
            double_colon(s@, 0) == double_colon(s@, i as int),
        decreases n - i,
    {
        if s[i] == ':' && s[i + 1] == ':' {
            return Some(i);
        }
        i = i + 1;
    }
    None
}

fn find_char(s: &[char], c: char) -> (r: Option<usize>)
    ensures
        match r {
            Some(i) => first_of(s@, c, 0) == Some(i as int) && i < s@.len(),
            None => first_of(s@, c, 0) is None,
        },
{
    let n: usize = s.len();
    let mut i: usize = 0;
    while i < n
        invariant
            n == s@.len(),
            i <= n,
            first_of(s@, c, 0) == first_of(s@, c, i as int),
        decreases n - i,
    {
        if s[i] == c {
            return Some(i);
        }
        i = i + 1;
    }
    None
}

fn parse_v6(s: &[char]) -> (r: Option<Vec<u16>>)
    ensures
        match r {
            Some(v) => v6_read(s@) == Some(v@) && v@.len() == 8,
            None => v6_read(s@) is None,
        },
{
    let n: usize = s.len();
    match find_double(s) {
        Some(i) => {
            let head = match parse_groups(slice_subrange(s, 0, i), false) {
                Some(h) => h,
                None => {
                    return None;
                },
            };
            let tail = match parse_groups(slice_subrange(s, i + 2, n), true) {
                Some(t) => t,
                None => {
                    return None;
                },
            };
            let h: usize = head.len();
            let t: usize = tail.len();
            if h > 7 || t > 7 || h + t > 7 {
                return None;
            }
            let ghost hv = head@;
            let ghost tv = tail@;
            let ghost zeros = Seq::new((8 - hv.len() - tv.len()) as nat, |k: int| 0u16);
            let mut v = head;
            let fill: usize = 8 - h - t;
            for k in 0..fill
                invariant
                    v@ == hv + Seq::new(k as nat, |k: int| 0u16),
            {
                v.push(0);
                assert(v@ =~= hv + Seq::new((k + 1) as nat, |k: int| 0u16));
            }
            let mut rest = tail;
            v.append(&mut rest);
            assert(v@ =~= hv + zeros + tv);
            Some(v)
        },
        None => match parse_groups(s, true) {
            Some(g) => {
                if g.len() == 8 {
                    Some(g)
                } else {
                    None
                }
            },
            None => None,
        },
    }
}

fn to_bytes(g: &Vec<u16>) -> (o: [u8; 16])
    requires
        g@.len() == 8,
    ensures
        o@ == group_bytes(g@),
{
    let mut o: [u8; 16] = [0u8; 16];
    for i in 0..8usize
        invariant
            g@.len() == 8,
            forall|k: int|
                0 <= k < 2 * i ==> #[trigger] o@[k] == (if k % 2 == 0 {
                    (g@[k / 2] / 256) as u8
                } else {
                    (g@[k / 2] % 256) as u8
                }),
    {
        o[2 * i] = (g[i] / 256) as u8;
        o[2 * i + 1] = (g[i] % 256) as u8;
    }
    assert(o@ =~= group_bytes(g@));
    o
}

fn parse_v4_part(s: &[char]) -> (r: Option<([u8; 4], u16)>)
    ensures
        match r {
            Some((o, p)) => v4_part(s@) == Some((o@, p as nat)),
            None => v4_part(s@) is None,
        },
{
    let n: usize = s.len();
    let i = match find_char(s, ':') {
        Some(i) => i,
        None => {
            return None;
        },
    };
    match (
        parse_dotted(slice_subrange(s, 0, i)),
        parse_digits(slice_subrange(s, i + 1, n), 65535),
    ) {
        (Some(o), Some(p)) => Some((o, p as u16)),
        _ => None,
    }
}

fn parse_v6_part(s: &[char]) -> (r: Option<([u8; 16], u32, u16)>)
    ensures
        match r {
            Some((o, scope, p)) => match v6_part(s@) {
                Some((g, sc, po)) => o@ == group_bytes(g) && scope == sc && p == po,
                None => false,
            },
            None => v6_part(s@) is None,
        },
{
    let n: usize = s.len();
    let j = match find_char(s, ']') {
        Some(j) => j,
        None => {
            return None;
        },
    };
    if j < 1 || s[0] != '[' || n - j <= 1 || s[j + 1] != ':' {
        return None;
    }
    let inner = slice_subrange(s, 1, j);
    let m: usize = inner.len();
    let (ip, scope): (&[char], Option<u64>) = match find_char(inner, '%') {
        Some(k) => (
            slice_subrange(inner, 0, k),
            parse_digits(slice_subrange(inner, k + 1, m), 0xffff_ffff),
        ),
        None => (inner, Some(0)),
    };
    match (parse_v6(ip), scope, parse_digits(slice_subrange(s, j + 2, n), 65535)) {
        (Some(g), Some(scope), Some(p)) => Some((to_bytes(&g), scope as u32, p as u16)),
        _ => None,
    }
}

impl SocketAddr {
    /// Reads an address and port.
    pub fn parse(s: &str) -> (r: Option<SocketAddr>)
        ensures
            addr_reads(s@, r),
    {
        let all = chars_of(s);
        if let Some((o, port)) = parse_v4_part(all.as_slice()) {
            return Some(SocketAddr { ip: IpAddr::V4(o), port, flowinfo: 0, scope_id: 0 });
        }
        match parse_v6_part(all.as_slice()) {
            Some((o, scope_id, port)) => Some(
                SocketAddr { ip: IpAddr::V6(o), port, flowinfo: 0, scope_id },
            ),
            None => None,
        }
    }
}

/// A number that was written is read back; it starts with no zero, unless it is one.
pub proof fn decimal_reads(n: nat)
    ensures
        all_digits(decimal(n)),
        digits_value(decimal(n)) == n,
        n > 0 ==> decimal(n)[0] != '0',
        n < 10 ==> decimal(n).len() == 1,
        n < 100 ==> decimal(n).len() <= 2,
        n < 1000 ==> decimal(n).len() <= 3,
    decreases n,
{
    if n < 10 {
        assert(decimal(n) =~= seq![digit_char(n as int)]);
        assert(decimal(n).drop_last() =~= Seq::<char>::empty());
        assert(digits_value(decimal(n).drop_last()) == 0);
        assert(decimal(n).last() == digit_char(n as int));
    } else {
        decimal_reads(n / 10);
        let before = decimal(n / 10);
        let all = decimal(n);
        assert(all.drop_last() =~= before);
        assert(all.last() == digit_char((n % 10) as int));
        assert forall|i: int| 0 <= i < all.len() implies '0' <= #[trigger] all[i] && all[i]
            <= '9' by {
            if i < before.len() {
                assert(all[i] == before[i]);
            }
        }
        assert(all[0] == before[0]);
    }
}

/// A text has no such character.
spec fn lacks(s: Seq<char>, c: char) -> bool {
    forall|i: int| 0 <= i < s.len() ==> #[trigger] s[i] != c
}

proof fn split_without(s: Seq<char>, c: char)
    requires
        lacks(s, c),
    ensures
        split_at_char(s, c) == seq![s],
    decreases s.len(),
{
    if s.len() == 0 {
        assert(s =~= Seq::<char>::empty());
        assert(split_at_char(s, c) =~= seq![s]);
    } else {
        split_without(s.drop_last(), c);
        assert(s.drop_last().push(s.last()) =~= s);
        assert(split_at_char(s, c) =~= seq![s]);
    }
}

proof fn split_behind(a: Seq<char>, c: char, b: Seq<char>)
    requires
        lacks(b, c),
    ensures
        split_at_char(a + seq![c] + b, c) == split_at_char(a, c).push(b),
    decreases b.len(),
{
    let all = a + seq![c] + b;
    if b.len() == 0 {
        assert(b =~= Seq::<char>::empty());
        assert(all.drop_last() =~= a);
        assert(split_at_char(all, c) =~= split_at_char(a, c).push(b));
    } else {
        let front = b.drop_last();
        split_behind(a, c, front);
        assert(all.drop_last() =~= a + seq![c] + front);
        assert(all.last() == b.last());
        assert(front.push(b.last()) =~= b);
        assert(split_at_char(all, c) =~= split_at_char(a, c).push(b));
    }
}

proof fn first_behind(a: Seq<char>, c: char, b: Seq<char>, from: int)
    requires
        lacks(a, c),
        0 <= from <= a.len(),
    ensures
        first_of(a + seq![c] + b, c, from) == Some(a.len() as int),
    decreases a.len() - from,
{
    let all = a + seq![c] + b;
    if from < a.len() {
        assert(all[from] == a[from]);
        first_behind(a, c, b, from + 1);
    } else {
        assert(all[from] == c);
    }
}

/// An address of version four and its port are read as they were written.
pub proof fn written_v4_is_read(a: SocketAddr)
    requires
        a.ip is V4,
        a.flowinfo == 0,
        a.scope_id == 0,
    ensures
        addr_reads(addr_text(a), Some(a)),
{
    let o = a.ip->V4_0@;
    let (d0, d1) = (decimal(o[0] as nat), decimal(o[1] as nat));
    let (d2, d3) = (decimal(o[2] as nat), decimal(o[3] as nat));
    let port = decimal(a.port as nat);
    decimal_reads(o[0] as nat);
    decimal_reads(o[1] as nat);
    decimal_reads(o[2] as nat);
    decimal_reads(o[3] as nat);
    decimal_reads(a.port as nat);
    let host = dotted(o);
    split_without(d0, '.');
    split_behind(d0, '.', d1);
    let two = d0 + seq!['.'] + d1;
    split_behind(two, '.', d2);
    let three = two + seq!['.'] + d2;
    split_behind(three, '.', d3);
    assert(host =~= three + seq!['.'] + d3);
    let parts = split_at_char(host, '.');
    assert(parts =~= seq![d0, d1, d2, d3]);
    assert(dotted_read(host)->0 =~= o);
    assert(lacks(host, ':'));
    first_behind(host, ':', port, 0);
    let all = addr_text(a);
    assert(all =~= host + seq![':'] + port);
    assert(all.subrange(0, host.len() as int) =~= host);
    assert(all.subrange(host.len() as int + 1, all.len() as int) =~= port);
}

proof fn digits_write_back(s: Seq<char>)
    requires
        all_digits(s),
        s.len() == 1 || s[0] != '0',
    ensures
        decimal(digits_value(s)) == s,
        s.len() > 1 ==> digits_value(s) >= 10,
        digits_value(s) == 0 ==> s.len() == 1,
    decreases s.len(),
{
    let d = s.last();
    let front = s.drop_last();
    assert('0' <= s[s.len() - 1] && s[s.len() - 1] <= '9');
    assert(digit_char(d as int - 48) == d);
    if s.len() == 1 {
        assert(front =~= Seq::<char>::empty());
        assert(digits_value(front) == 0);
        assert(digits_value(s) == digits_value(front) * 10 + (d as int - 48) as nat);
        assert(decimal(digits_value(s)) =~= s);
    } else {
        assert forall|i: int| 0 <= i < front.len() implies '0' <= #[trigger] front[i] && front[i]
            <= '9' by {
            assert(front[i] == s[i]);
        }
        assert(front[0] == s[0]);
        digits_write_back(front);
        let v = digits_value(front);
        let n = digits_value(s);
        assert(n == v * 10 + (d as int - 48));
        if v == 0 {
            assert(front.len() == 1);
            assert(digits_value(front) == front[0] as int - 48) by {
                assert(front.drop_last() =~= Seq::<char>::empty());
                assert(front.last() == front[0]);
            }
        }
        assert(n >= 10);
        assert(n / 10 == v && n % 10 == d as int - 48);
        assert(decimal(n) == decimal(v).push(d));
        assert(front.push(d) =~= s);
    }
}

/// A part of a dotted address is a number up to 255, written as numbers are: without zeros
/// in front.
pub proof fn parts_of_addresses_are_plain_numbers(s: Seq<char>, v: nat)
    ensures
        octet_read(s) == Some(v) ==> v <= 255 && s == decimal(v),
        v <= 255 ==> octet_read(decimal(v)) == Some(v),
        v > 255 ==> octet_read(decimal(v)) is None,
{
    decimal_reads(v);
    if octet_read(s) == Some(v) {
        digits_write_back(s);
    }
    if v <= 255 {
        if v == 0 {
            assert(decimal(v).len() == 1);
        }
    }
}

/// A group of an address of version 6 has one to four digits and is below 65536.
pub proof fn groups_have_at_most_four_digits(s: Seq<char>)
    ensures
        group_read(s) is Some ==> 1 <= s.len() <= 4 && group_read(s)->0 < 65536,
        s.len() == 0 || s.len() > 4 ==> group_read(s) is None,
{
    if group_read(s) is Some {
        hex_is_bounded(s);
    }
}

proof fn hex_is_bounded(s: Seq<char>)
    requires
        s.len() <= 4,
        all_hex(s),
    ensures
        s.len() == 0 ==> hex_number(s) == 0,
        s.len() == 1 ==> hex_number(s) < 16,
        s.len() == 2 ==> hex_number(s) < 256,
        s.len() == 3 ==> hex_number(s) < 4096,
        s.len() == 4 ==> hex_number(s) < 65536,
    decreases s.len(),
{
    if s.len() > 0 {
        let front = s.drop_last();
        assert forall|i: int| 0 <= i < front.len() implies hex_value(#[trigger] front[i]) is Some by {
            assert(front[i] == s[i]);
        }
        hex_is_bounded(front);
        assert(hex_value(s[s.len() - 1]) is Some);
    }
}

/// An address of version 6 has eight groups; where two colons meet, zeros stand for those that
/// are missing, one at least.
pub proof fn addresses_have_eight_groups(s: Seq<char>)
    ensures
        v6_read(s) is Some ==> v6_read(s)->0.len() == 8,
        double_colon(s, 0) is None && groups_read(s, true) is Some && groups_read(s, true)->0.len()
            == 8 ==> v6_read(s) == groups_read(s, true),
        double_colon(s, 0) is None && (groups_read(s, true) is None || groups_read(s, true)->0.len()
            != 8) ==> v6_read(s) is None,
{
}

/// An address with a port is read where both are sound; the port is below 65536.
pub proof fn addresses_are_read_with_their_port(s: Seq<char>, a: Option<SocketAddr>)
    requires
        addr_reads(s, a),
    ensures
        a is Some <==> v4_part(s) is Some || v6_part(s) is Some,
        a is Some && a->0.ip is V4 ==> a->0.flowinfo == 0 && a->0.scope_id == 0,
        a is Some ==> s.contains(':'),
{
    if v4_part(s) is Some {
        first_is_there(s, ':', 0);
    } else if v6_part(s) is Some {
        let j = first_of(s, ']', 0)->0;
        first_is_there(s, ']', 0);
        assert(s[j + 1] == ':');
    }
}

proof fn first_is_there(s: Seq<char>, c: char, from: int)
    ensures
        first_of(s, c, from) is Some ==> from <= first_of(s, c, from)->0 < s.len() && s[first_of(
            s,
            c,
            from,
        )->0] == c && s.contains(c) && forall|k: int|
            from <= k < first_of(s, c, from)->0 ==> #[trigger] s[k] != c,
        from >= 0 && first_of(s, c, from) is None ==> forall|k: int|
            from <= k < s.len() ==> #[trigger] s[k] != c,
    decreases s.len() - from,
{
    if 0 <= from < s.len() && s[from] != c {
        first_is_there(s, c, from + 1);
    }
}

} // verus!
