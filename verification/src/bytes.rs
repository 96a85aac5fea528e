//! Big endian integers and byte ranges.

use vstd::prelude::*;

verus! {

/// The number that two bytes stand for, high byte first.
pub open spec fn be16(hi: u8, lo: u8) -> int {
    hi * 256 + lo
}

/// The two bytes of a number, high byte first.
pub open spec fn be16_bytes(x: u16) -> Seq<u8> {
    seq![(x / 256) as u8, (x % 256) as u8]
}

/// The number that four bytes stand for, high byte first.
pub open spec fn be32_of(s: Seq<u8>) -> int {
    be16(s[0], s[1]) * 0x1_0000 + be16(s[2], s[3])
}

/// The four bytes of a number, high byte first.
pub open spec fn be32_bytes(x: u32) -> Seq<u8> {
    be16_bytes((x / 0x1_0000) as u16) + be16_bytes((x % 0x1_0000) as u16)
}

/// The number that eight bytes stand for, high byte first.
pub open spec fn be64_of(s: Seq<u8>) -> int {
    be32_of(s.subrange(0, 4)) * 0x1_0000_0000 + be32_of(s.subrange(4, 8))
}

/// The eight bytes of a number, high byte first.
pub open spec fn be64_bytes(x: u64) -> Seq<u8> {
    be32_bytes((x / 0x1_0000_0000) as u32) + be32_bytes((x % 0x1_0000_0000) as u32)
}

pub proof fn be16_round_trip(x: u16)
    ensures
        be16_bytes(x).len() == 2,
        be16(be16_bytes(x)[0], be16_bytes(x)[1]) == x,
{
}

pub proof fn be16_back(s: Seq<u8>)
    requires
        s.len() == 2,
    ensures
        0 <= be16(s[0], s[1]) < 0x1_0000,
        be16_bytes(be16(s[0], s[1]) as u16) == s,
{
    assert(be16_bytes(be16(s[0], s[1]) as u16) =~= s);
}

pub proof fn be32_round_trip(x: u32)
    ensures
        be32_bytes(x).len() == 4,
        be32_of(be32_bytes(x)) == x,
{
    be16_round_trip((x / 0x1_0000) as u16);
    be16_round_trip((x % 0x1_0000) as u16);
}

pub proof fn be32_back(s: Seq<u8>)
    requires
        s.len() == 4,
    ensures
        0 <= be32_of(s) < 0x1_0000_0000,
        be32_bytes(be32_of(s) as u32) == s,
{
    be16_back(s.subrange(0, 2));
    be16_back(s.subrange(2, 4));
    let x = be32_of(s) as u32;
    assert((x / 0x1_0000) as u16 == be16(s[0], s[1]));
    assert((x % 0x1_0000) as u16 == be16(s[2], s[3]));
    assert(be32_bytes(x) =~= s);
}

pub proof fn be64_round_trip(x: u64)
    ensures
        be64_bytes(x).len() == 8,
        be64_of(be64_bytes(x)) == x,
{
    let hi = (x / 0x1_0000_0000) as u32;
    let lo = (x % 0x1_0000_0000) as u32;
    be32_round_trip(hi);
    be32_round_trip(lo);
    assert(be64_bytes(x).subrange(0, 4) =~= be32_bytes(hi));
    assert(be64_bytes(x).subrange(4, 8) =~= be32_bytes(lo));
}

pub proof fn be64_back(s: Seq<u8>)
    requires
        s.len() == 8,
    ensures
        0 <= be64_of(s) < 0x1_0000_0000_0000_0000,
        be64_bytes(be64_of(s) as u64) == s,
{
    be32_back(s.subrange(0, 4));
    be32_back(s.subrange(4, 8));
    let x = be64_of(s) as u64;
    assert((x / 0x1_0000_0000) as u32 == be32_of(s.subrange(0, 4)));
    assert((x % 0x1_0000_0000) as u32 == be32_of(s.subrange(4, 8)));
    assert(be64_bytes(x) =~= s);
}

/// The bytes with `src` written over those from `off` on.
pub open spec fn overlay(buf: Seq<u8>, off: int, src: Seq<u8>) -> Seq<u8> {
    Seq::new(
        buf.len(),
        |k: int|
            if off <= k < off + src.len() {
                src[k - off]
            } else {
                buf[k]
            },
    )
}

/// Writes `src` over the bytes of `buf` from `off` on.
pub fn put_bytes(buf: &mut [u8], off: usize, src: &[u8])
    requires
        off + src@.len() <= old(buf)@.len(),
    ensures
        final(buf)@ == overlay(old(buf)@, off as int, src@),
{
    let ghost start = buf@;
    let total: usize = buf.len();
    let n: usize = src.len();
    for i in 0..n
        invariant
            n == src@.len(),
            total == start.len(),
            off + n <= total,
            buf@ == overlay(start, off as int, src@.subrange(0, i as int)),
    {
        buf[off + i] = src[i];
        assert(buf@ =~= overlay(start, off as int, src@.subrange(0, i + 1)));
    }
    assert(src@.subrange(0, n as int) =~= src@);
    assert(buf@ =~= overlay(start, off as int, src@));
}

/// Writes `src` behind the `off` bytes of `target` that have replaced the front
/// of `start`.
pub(crate) fn put_next(
    buf: &mut [u8],
    off: usize,
    src: &[u8],
    Ghost(start): Ghost<Seq<u8>>,
    Ghost(target): Ghost<Seq<u8>>,
) -> (end: usize)
    requires
        off + src@.len() <= target.len() <= start.len(),
        old(buf)@.len() == start.len(),
        forall|k: int| 0 <= k < off ==> #[trigger] old(buf)@[k] == target[k],
        forall|k: int| off <= k < start.len() ==> #[trigger] old(buf)@[k] == start[k],
        forall|k: int| off <= k < off + src@.len() ==> #[trigger] target[k] == src@[k - off],
    ensures
        end == off + src@.len(),
        final(buf)@.len() == start.len(),
        forall|k: int| 0 <= k < end ==> #[trigger] final(buf)@[k] == target[k],
        forall|k: int| end <= k < start.len() ==> #[trigger] final(buf)@[k] == start[k],
{
    put_bytes(buf, off, src);
    assert(buf.len() == buf@.len());
    off + src.len()
}

pub fn u16_bytes(x: u16) -> (b: [u8; 2])
    ensures
        b@ == be16_bytes(x),
{
    let b: [u8; 2] = [(x / 256) as u8, (x % 256) as u8];
    assert(b@ =~= be16_bytes(x));
    b
}

pub fn u32_bytes(x: u32) -> (b: [u8; 4])
    ensures
        b@ == be32_bytes(x),
{
    let hi = u16_bytes((x / 0x1_0000) as u16);
    let lo = u16_bytes((x % 0x1_0000) as u16);
    let b: [u8; 4] = [hi[0], hi[1], lo[0], lo[1]];
    assert(b@ =~= be32_bytes(x));
    b
}

pub fn u64_bytes(x: u64) -> (b: [u8; 8])
    ensures
        b@ == be64_bytes(x),
{
    let hi = u32_bytes((x / 0x1_0000_0000) as u32);
    let lo = u32_bytes((x % 0x1_0000_0000) as u32);
    let b: [u8; 8] = [hi[0], hi[1], hi[2], hi[3], lo[0], lo[1], lo[2], lo[3]];
    assert(b@ =~= be64_bytes(x));
    b
}

pub fn read_u16(s: &[u8], off: usize) -> (x: u16)
    requires
        off + 2 <= s@.len(),
    ensures
        x == be16(s@[off as int], s@[off + 1]),
{
    s[off] as u16 * 256 + s[off + 1] as u16
}

pub fn read_u32(s: &[u8], off: usize) -> (x: u32)
    requires
        off + 4 <= s@.len(),
    ensures
        x == be32_of(s@.subrange(off as int, off + 4)),
{
    assert(s.len() == s@.len());
    read_u16(s, off) as u32 * 0x1_0000 + read_u16(s, off + 2) as u32
}

pub fn read_u64(s: &[u8], off: usize) -> (x: u64)
    requires
        off + 8 <= s@.len(),
    ensures
        x == be64_of(s@.subrange(off as int, off + 8)),
{
    assert(s@.subrange(off as int, off + 8).subrange(0, 4) =~= s@.subrange(off as int, off + 4));
    assert(s@.subrange(off as int, off + 8).subrange(4, 8) =~= s@.subrange(off + 4, off + 8));
    assert(s.len() == s@.len());
    read_u32(s, off) as u64 * 0x1_0000_0000 + read_u32(s, off + 4) as u64
}

/// Appends bytes.
pub fn push_all(v: &mut Vec<u8>, s: &[u8])
    ensures
        final(v)@ == old(v)@ + s@,
{
    let ghost start = v@;
    let n: usize = s.len();
    for i in 0..n
        invariant
            n == s@.len(),
            v@ == start + s@.subrange(0, i as int),
    {
        v.push(s[i]);
        assert(v@ =~= start + s@.subrange(0, i + 1));
    }
    assert(s@.subrange(0, n as int) =~= s@);
}

/// Copies as many bytes as the array holds.
pub fn read_array<const N: usize>(s: &[u8], off: usize) -> (a: [u8; N])
    requires
        off + N <= s@.len(),
    ensures
        a@ == s@.subrange(off as int, off + N),
{
    let total: usize = s.len();
    let mut a: [u8; N] = [0u8; N];
    for i in 0..N
        invariant
            total == s@.len(),
            off + N <= total,
            forall|k: int| 0 <= k < i ==> #[trigger] a@[k] == s@[off + k],
    {
        a[i] = s[off + i];
    }
    assert(a@ =~= s@.subrange(off as int, off + N));
    a
}

/// Same bytes.
pub fn same_array<const N: usize>(a: &[u8; N], b: &[u8; N]) -> (r: bool)
    ensures
        r == (*a == *b),
{
    for i in 0..N
        invariant
            forall|k: int| 0 <= k < i ==> #[trigger] a@[k] == b@[k],
    {
        if a[i] != b[i] {
            return false;
        }
    }
    assert(*a =~= *b);
    true
}

/// Same bytes.
pub fn same_bytes(a: &[u8], b: &[u8]) -> (r: bool)
    ensures
        r == (a@ == b@),
{
    if a.len() != b.len() {
        return false;
    }
    let n: usize = a.len();
    for i in 0..n
        invariant
            n == a@.len(),
            n == b@.len(),
            forall|k: int| 0 <= k < i ==> #[trigger] a@[k] == b@[k],
    {
        if a[i] != b[i] {
            return false;
        }
    }
    assert(a@ =~= b@);
    true
}

/// Numbers are written and read high byte first.
pub proof fn the_high_byte_comes_first(s: Seq<u8>, x: u32)
    requires
        s.len() >= 8,
    ensures
        be16(s[0], s[1]) == 256 * s[0] + s[1],
        be32_of(s) == 16_777_216 * s[0] + 65_536 * s[1] + 256 * s[2] + s[3],
        be32_bytes(x)[0] == x / 16_777_216,
        be32_bytes(x)[1] == x / 65_536 % 256,
        be32_bytes(x)[2] == x / 256 % 256,
        be32_bytes(x)[3] == x % 256,
        be64_of(s) == be32_of(s.subrange(0, 4)) * 0x1_0000_0000 + be32_of(s.subrange(4, 8)),
{
}

} // verus!
