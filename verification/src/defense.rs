//! Packet repairs that keep tunnelled traffic within the path MTU: clamping the
//! segment size that TCP announces and telling a sender to fragment.

use crate::bytes::{
    be16, be16_bytes, be16_round_trip, overlay, push_all, put_bytes, read_u16,
    u16_bytes,
};
use vstd::arithmetic::div_mod::{lemma_fundamental_div_mod, lemma_mod_multiples_vanish};
use vstd::prelude::*;
use vstd::slice::slice_subrange;

verus! {

/// The sum of the big endian 16-bit words from `i` on; an odd last byte counts
/// as the high byte of a word.
pub open spec fn words_from(s: Seq<u8>, i: int) -> nat
    decreases s.len() - i,
{
    if i < 0 || i >= s.len() {
        0
    } else if i + 1 == s.len() {
        (s[i] * 256) as nat
    } else {
        (be16(s[i], s[i + 1]) + words_from(s, i + 2)) as nat
    }
}

/// A sum with its carries added back in until it fits 16 bits.
pub open spec fn folded(n: nat) -> nat {
    if n == 0 {
        0
    } else {
        ((n - 1) % 65535 + 1) as nat
    }
}

/// The internet checksum of a word sum.
pub open spec fn checksum_of(sum: nat) -> u16 {
    (65535 - folded(sum)) as u16
}

proof fn fold_step(n: nat)
    requires
        n >= 65536,
    ensures
        folded(n % 65536 + n / 65536) == folded(n),
        0 < n % 65536 + n / 65536 < n,
{
    let q = (n / 65536) as int;
    let r = (n % 65536) as int;
    lemma_fundamental_div_mod(n as int, 65536);
    assert(n == 65536 * q + r);
    lemma_mod_multiples_vanish(q, r + q - 1, 65535);
    assert(n - 1 == 65535 * q + (r + q - 1));
}

/// Adding the checksum to the sum it was computed from gives all ones, which is
/// how a receiver tells that nothing was damaged.
pub proof fn checksum_verifies(sum: nat)
    ensures
        folded(sum + checksum_of(sum) as nat) == 65535,
{
    if sum > 0 {
        let q = ((sum - 1) / 65535) as int;
        let r = ((sum - 1) % 65535) as int;
        lemma_fundamental_div_mod(sum - 1, 65535);
        assert(sum == 65535 * q + r + 1);
        let total = sum + checksum_of(sum) as nat;
        assert(total - 1 == 65535 * q + 65534);
        lemma_mod_multiples_vanish(q, 65534, 65535);
    }
}

proof fn words_bound(s: Seq<u8>, i: int)
    requires
        0 <= i,
    ensures
        words_from(s, i) <= if i < s.len() {
            (s.len() - i) * 65535
        } else {
            0
        },
    decreases s.len() - i,
{
    if i + 1 < s.len() {
        words_bound(s, i + 2);
    }
}

/// Adds the words of a segment to a sum and folds the result.
fn folded_sum(start: u128, s: &[u8]) -> (r: u16)
    requires
        start <= 0xffff_ffff_ffff,
    ensures
        r == folded((start + words_from(s@, 0)) as nat),
{
    let n: usize = s.len();
    let mut sum: u128 = start;
    let mut i: usize = 0;
    proof {
        words_bound(s@, 0);
    }
    while n - i > 1
        invariant
            n == s@.len(),
            i <= n,
            start <= 0xffff_ffff_ffff,
            sum + words_from(s@, i as int) == start + words_from(s@, 0),
            start + words_from(s@, 0) <= 0xffff_ffff_ffff + n * 65535,
        decreases n - i,
    {
        sum = sum + (s[i] as u128 * 256 + s[i + 1] as u128);
        i += 2;
    }
    if i < n {
        sum = sum + s[i] as u128 * 256;
    }
    assert(sum == start + words_from(s@, 0));
    while sum >= 65536
        invariant
            folded(sum as nat) == folded((start + words_from(s@, 0)) as nat),
        decreases sum,
    {
        proof {
            fold_step(sum as nat);
        }
        sum = sum % 65536 + sum / 65536;
    }
    sum as u16
}

/// Length in bytes that an IPv4 header claims.
pub open spec fn header_len(p: Seq<u8>) -> int {
    (p[0] % 16) * 4
}

/// The TCP segment of an IPv4 packet.
pub open spec fn segment(p: Seq<u8>) -> Seq<u8> {
    p.subrange(header_len(p), p.len() as int)
}

/// An IPv4 packet that opens a TCP connection and carries options.
pub open spec fn opens_with_options(p: Seq<u8>) -> bool {
    &&& p.len() >= 40
    &&& p[0] / 16 == 4
    &&& p.len() >= header_len(p) + 20
    &&& p[9] == 6
    &&& option_end(segment(p)) > 20
    &&& (segment(p)[13] / 2) % 2 == 1
}

/// Where the options of a TCP segment end, by its own account.
pub open spec fn option_end(seg: Seq<u8>) -> int {
    (seg[12] / 16) * 4
}

/// Where the values of the maximum segment size options lie that a walk over
/// the options from `i` on comes to.
pub open spec fn mss_fields(seg: Seq<u8>, i: int) -> Seq<int>
    decreases option_end(seg) - i,
{
    let end = option_end(seg);
    if i < 0 || i >= end || i + 1 >= seg.len() || seg[i] == 0 {
        Seq::empty()
    } else if seg[i] == 1 {
        mss_fields(seg, i + 1)
    } else if seg[i + 1] < 2 || i + seg[i + 1] > end {
        Seq::empty()
    } else if seg[i] == 2 && seg[i + 1] == 4 {
        seq![i + 2] + mss_fields(seg, i + 4)
    } else {
        mss_fields(seg, i + seg[i + 1])
    }
}

/// The segment size that a path of this MTU has room for.
pub open spec fn mss_limit(p: Seq<u8>, mtu: nat) -> u16 {
    let room = mtu - (header_len(p) + 20);
    if room < 0 {
        0
    } else {
        (room % 65536) as u16
    }
}

/// The segment size that stands at `at`.
pub open spec fn mss_at(seg: Seq<u8>, at: int) -> int {
    be16(seg[at], seg[at + 1])
}

/// Some announced segment size is over the limit.
pub open spec fn some_over(seg: Seq<u8>, fields: Seq<int>, max: u16) -> bool {
    exists|j: int| 0 <= j < fields.len() && mss_at(seg, #[trigger] fields[j]) > max
}

/// The segment with each announced size brought down to the limit.
pub open spec fn clamp_fields(seg: Seq<u8>, fields: Seq<int>, max: u16) -> Seq<u8>
    decreases fields.len(),
{
    if fields.len() == 0 {
        seg
    } else {
        let before = clamp_fields(seg, fields.drop_last(), max);
        if mss_at(seg, fields.last()) > max {
            overlay(before, fields.last(), be16_bytes(max))
        } else {
            before
        }
    }
}

/// The sum that a TCP checksum is computed from, over a segment whose own
/// checksum field counts as zero.
pub open spec fn tcp_sum(ip: Seq<u8>, seg: Seq<u8>) -> nat {
    let cleared = overlay(seg, 16, seq![0u8, 0u8]);
    (be16(ip[12], ip[13]) + be16(ip[14], ip[15]) + be16(ip[16], ip[17]) + be16(ip[18], ip[19]) + 6
        + seg.len() % 0x1_0000_0000 + words_from(cleared, 0)) as nat
}

/// The segment with its checksum brought up to date.
pub open spec fn with_tcp_checksum(ip: Seq<u8>, seg: Seq<u8>) -> Seq<u8> {
    overlay(seg, 16, be16_bytes(checksum_of(tcp_sum(ip, seg))))
}

/// The walk over the options reads no value that the packet does not hold, and
/// where a value changes the header holds the addresses that the checksum needs.
pub open spec fn clamp_defined(p: Seq<u8>, mtu: nat) -> bool {
    opens_with_options(p) ==> {
        let fields = mss_fields(segment(p), 20);
        &&& forall|j: int| 0 <= j < fields.len() ==> #[trigger] fields[j] + 2 <= segment(p).len()
        &&& some_over(segment(p), fields, mss_limit(p, mtu)) ==> header_len(p) >= 20
    }
}

/// Whether clamping changes the packet.
pub open spec fn needs_clamp(p: Seq<u8>, mtu: nat) -> bool {
    opens_with_options(p) && some_over(
        segment(p),
        mss_fields(segment(p), 20),
        mss_limit(p, mtu),
    )
}

/// The packet after clamping.
pub open spec fn clamped_packet(p: Seq<u8>, mtu: nat) -> Seq<u8> {
    if needs_clamp(p, mtu) {
        let ip = p.subrange(0, header_len(p));
        let seg = clamp_fields(segment(p), mss_fields(segment(p), 20), mss_limit(p, mtu));
        ip + with_tcp_checksum(ip, seg)
    } else {
        p
    }
}

/// Every field that the walk from `i` on comes to lies behind it, and the
/// fields do not touch one another.
pub open spec fn spaced(fields: Seq<int>, i: int) -> bool {
    &&& forall|j: int| 0 <= j < fields.len() ==> #[trigger] fields[j] >= i + 2
    &&& forall|j: int, k: int|
        0 <= j < k < fields.len() ==> #[trigger] fields[j] + 4 <= #[trigger] fields[k]
}

/// One of the fields covers the byte at `k`.
pub open spec fn covered(fields: Seq<int>, k: int) -> bool {
    exists|j: int| 0 <= j < fields.len() && (#[trigger] fields[j] == k || fields[j] + 1 == k)
}

proof fn fields_spaced(seg: Seq<u8>, i: int)
    requires
        0 <= i,
    ensures
        spaced(mss_fields(seg, i), i),
    decreases option_end(seg) - i,
{
    let end = option_end(seg);
    if i >= end || i + 1 >= seg.len() || seg[i] == 0 {
    } else if seg[i] == 1 {
        fields_spaced(seg, i + 1);
    } else if seg[i + 1] < 2 || i + seg[i + 1] > end {
    } else if seg[i] == 2 && seg[i + 1] == 4 {
        fields_spaced(seg, i + 4);
        let rest = mss_fields(seg, i + 4);
        assert forall|j: int, k: int|
            0 <= j < k < mss_fields(seg, i).len() implies #[trigger] mss_fields(seg, i)[j] + 4
            <= #[trigger] mss_fields(seg, i)[k] by {
            assert(mss_fields(seg, i)[k] == rest[k - 1]);
            if j > 0 {
                assert(mss_fields(seg, i)[j] == rest[j - 1]);
            }
        }
        assert forall|j: int| 0 <= j < mss_fields(seg, i).len() implies #[trigger] mss_fields(
            seg,
            i,
        )[j] >= i + 2 by {
            if j > 0 {
                assert(mss_fields(seg, i)[j] == rest[j - 1]);
            }
        }
    } else {
        fields_spaced(seg, i + seg[i + 1]);
    }
}

/// Bytes that no over-long field covers stay; the fields that do end up at the
/// limit.
proof fn clamp_fields_bytes(seg: Seq<u8>, fields: Seq<int>, max: u16)
    requires
        spaced(fields, 18),
        forall|j: int| 0 <= j < fields.len() ==> #[trigger] fields[j] + 2 <= seg.len(),
    ensures
        clamp_fields(seg, fields, max).len() == seg.len(),
        forall|k: int|
            0 <= k < seg.len() && !covered(fields, k) ==> #[trigger] clamp_fields(
                seg,
                fields,
                max,
            )[k] == seg[k],
        forall|j: int|
            0 <= j < fields.len() ==> mss_at(
                clamp_fields(seg, fields, max),
                #[trigger] fields[j],
            ) == if mss_at(seg, fields[j]) > max {
                max as int
            } else {
                mss_at(seg, fields[j])
            },
    decreases fields.len(),
{
    if fields.len() > 0 {
        let front = fields.drop_last();
        assert forall|j: int, k: int| 0 <= j < k < front.len() implies #[trigger] front[j] + 4
            <= #[trigger] front[k] by {
            assert(fields[j] + 4 <= fields[k]);
        }
        assert forall|j: int| 0 <= j < front.len() implies #[trigger] front[j] >= 20 && front[j] + 2
            <= seg.len() by {
            assert(fields[j] >= 20);
        }
        clamp_fields_bytes(seg, front, max);
        let before = clamp_fields(seg, front, max);
        let after = clamp_fields(seg, fields, max);
        let at = fields.last();
        assert(at == fields[fields.len() - 1]);
        be16_round_trip(max);
        assert forall|k: int| 0 <= k < seg.len() && !covered(fields, k) implies #[trigger] after[k]
            == seg[k] by {
            assert(!covered(front, k)) by {
                if covered(front, k) {
                    let j = choose|j: int|
                        0 <= j < front.len() && (#[trigger] front[j] == k || front[j] + 1 == k);
                    assert(fields[j] == front[j]);
                }
            }
            assert(before[k] == seg[k]);
            assert(at != k && at + 1 != k);
        }
        assert forall|j: int| 0 <= j < fields.len() implies mss_at(after, #[trigger] fields[j])
            == if mss_at(seg, fields[j]) > max {
            max as int
        } else {
            mss_at(seg, fields[j])
        } by {
            if j < front.len() {
                assert(front[j] == fields[j]);
                assert(fields[j] + 4 <= fields[fields.len() - 1]);
                assert(after[fields[j]] == before[fields[j]]);
                assert(after[fields[j] + 1] == before[fields[j] + 1]);
            } else {
                assert forall|m: int| 0 <= m < front.len() implies #[trigger] front[m] + 4 <= at by {
                    assert(fields[m] + 4 <= fields[fields.len() - 1]);
                }
                assert(!covered(front, at));
                assert(!covered(front, at + 1));
                assert(before[at] == seg[at]);
                assert(before[at + 1] == seg[at + 1]);
            }
        }
    }
}

/// Two segments agree from `i` on, but for the bytes of some fields.
pub open spec fn agree_off_fields(a: Seq<u8>, b: Seq<u8>, fields: Seq<int>, i: int) -> bool {
    forall|k: int| i <= k < a.len() && !covered(fields, k) ==> #[trigger] a[k] == b[k]
}

/// A segment that agrees with another on everything but segment size values
/// and the checksum has its values in the same places.
proof fn same_fields(a: Seq<u8>, b: Seq<u8>, i: int)
    requires
        20 <= i,
        a.len() == b.len(),
        a.len() >= 20,
        a[12] == b[12],
        agree_off_fields(a, b, mss_fields(a, i), i),
    ensures
        mss_fields(b, i) == mss_fields(a, i),
    decreases option_end(a) - i,
{
    let end = option_end(a);
    let fields = mss_fields(a, i);
    fields_spaced(a, i);
    if i >= end || i + 1 >= a.len() {
    } else {
        assert(!covered(fields, i));
        assert(!covered(fields, i + 1));
        assert(a[i] == b[i]);
        assert(a[i + 1] == b[i + 1]);
        if a[i] == 0 {
        } else if a[i] == 1 {
            same_fields(a, b, i + 1);
        } else if a[i + 1] < 2 || i + a[i + 1] > end {
        } else if a[i] == 2 && a[i + 1] == 4 {
            let rest = mss_fields(a, i + 4);
            assert forall|k: int| i + 4 <= k < a.len() && !covered(rest, k) implies #[trigger] a[k]
                == b[k] by {
                if covered(fields, k) {
                    let j = choose|j: int|
                        0 <= j < fields.len() && (#[trigger] fields[j] == k || fields[j] + 1 == k);
                    assert(j > 0);
                    assert(rest[j - 1] == fields[j]);
                }
            }
            same_fields(a, b, i + 4);
        } else {
            same_fields(a, b, i + a[i + 1]);
        }
    }
}

/// Without a size over the limit nothing changes.
proof fn clamp_nothing(seg: Seq<u8>, fields: Seq<int>, max: u16)
    requires
        !some_over(seg, fields, max),
    ensures
        clamp_fields(seg, fields, max) == seg,
    decreases fields.len(),
{
    if fields.len() > 0 {
        assert(fields.last() == fields[fields.len() - 1]);
        assert(!some_over(seg, fields.drop_last(), max)) by {
            if some_over(seg, fields.drop_last(), max) {
                let j = choose|j: int|
                    0 <= j < fields.drop_last().len() && mss_at(
                        seg,
                        #[trigger] fields.drop_last()[j],
                    ) > max;
                assert(fields[j] == fields.drop_last()[j]);
            }
        }
        clamp_nothing(seg, fields.drop_last(), max);
    }
}

/// What clamping promises of a packet that it changes: the length, the
/// addresses, the ports and all other bytes but the checksum stay; the options
/// stay where they are; no announced segment size is over the limit any more
/// and none was raised; and the new checksum is valid.
pub proof fn clamping_caps_every_mss(p: Seq<u8>, mtu: nat)
    requires
        clamp_defined(p, mtu),
        needs_clamp(p, mtu),
    ensures
        ({
            let q = clamped_packet(p, mtu);
            let fields = mss_fields(segment(p), 20);
            &&& q.len() == p.len()
            &&& q.subrange(0, header_len(p)) == p.subrange(0, header_len(p))
            &&& header_len(q) == header_len(p)
            &&& opens_with_options(q)
            &&& mss_limit(q, mtu) == mss_limit(p, mtu)
            &&& mss_fields(segment(q), 20) == fields
            &&& forall|j: int|
                0 <= j < fields.len() ==> mss_at(segment(q), #[trigger] fields[j]) <= mss_limit(
                    p,
                    mtu,
                ) && mss_at(segment(q), fields[j]) <= mss_at(segment(p), fields[j])
            &&& folded(
                tcp_sum(q, segment(q)) + be16(segment(q)[16], segment(q)[17]) as nat,
            ) == 65535
        }),
{
    let q = clamped_packet(p, mtu);
    let h = header_len(p);
    let ip = p.subrange(0, h);
    let max = mss_limit(p, mtu);
    let old_seg = segment(p);
    let fields = mss_fields(old_seg, 20);
    let mid = clamp_fields(old_seg, fields, max);
    fields_spaced(old_seg, 20);
    clamp_fields_bytes(old_seg, fields, max);
    let sum = tcp_sum(ip, mid);
    be16_round_trip(checksum_of(sum));
    let seg = with_tcp_checksum(ip, mid);
    assert(q.subrange(0, h) =~= ip);
    assert(q[0] == p[0]);
    assert(q[9] == ip[9]);
    assert(segment(q) =~= seg);
    assert(!covered(fields, 12));
    assert(!covered(fields, 13));
    assert(seg[12] == old_seg[12]);
    assert(seg[13] == old_seg[13]);
    assert(agree_off_fields(old_seg, seg, fields, 20));
    same_fields(old_seg, seg, 20);
    assert forall|j: int| 0 <= j < fields.len() implies mss_at(seg, #[trigger] fields[j]) == mss_at(
        mid,
        fields[j],
    ) by {
        assert(fields[j] >= 22);
    }
    assert(overlay(seg, 16, seq![0u8, 0u8]) =~= overlay(mid, 16, seq![0u8, 0u8]));
    assert(tcp_sum(q, seg) == sum);
    checksum_verifies(sum);
}

/// Clamping is done once: a clamped packet needs no further clamping.
pub proof fn clamping_is_idempotent(p: Seq<u8>, mtu: nat)
    requires
        clamp_defined(p, mtu),
    ensures
        !needs_clamp(clamped_packet(p, mtu), mtu),
        clamped_packet(clamped_packet(p, mtu), mtu) == clamped_packet(p, mtu),
{
    if needs_clamp(p, mtu) {
        clamping_caps_every_mss(p, mtu);
    }
}

/// Length in bytes that the first byte of an IPv4 header claims.
fn claimed_len(first: u8) -> (r: usize)
    ensures
        r == (first % 16) * 4,
        r <= 60,
{
    (first % 16) as usize * 4
}

/// Brings the checksum of a TCP segment up to date.
pub fn recompute_tcp_checksum(ip: &[u8], seg: &mut [u8])
    requires
        ip@.len() >= 20,
        old(seg)@.len() >= 18,
    ensures
        final(seg)@ == with_tcp_checksum(ip@, old(seg)@),
{
    let ghost start = seg@;
    seg[16] = 0;
    seg[17] = 0;
    assert(seg@ =~= overlay(start, 16, seq![0u8, 0u8]));
    let n: usize = seg.len();
    let pseudo: u128 = read_u16(ip, 12) as u128 + read_u16(ip, 14) as u128 + read_u16(
        ip,
        16,
    ) as u128 + read_u16(ip, 18) as u128 + 6 + (n as u128) % 0x1_0000_0000;
    let sum = folded_sum(pseudo, seg);
    let check = u16_bytes(65535 - sum);
    put_bytes(seg, 16, check.as_slice());
    assert(seg@ =~= with_tcp_checksum(ip@, start));
}

/// Lowers every maximum segment size that a TCP packet which opens a connection
/// announces to what a path of `safe_payload_mtu` has room for, and brings the
/// checksum up to date. Tells whether anything changed.
pub fn clamp_mss(packet: &mut [u8], safe_payload_mtu: usize) -> (clamped: bool)
    requires
        clamp_defined(old(packet)@, safe_payload_mtu as nat),
    ensures
        clamped == needs_clamp(old(packet)@, safe_payload_mtu as nat),
        final(packet)@ == clamped_packet(old(packet)@, safe_payload_mtu as nat),
{
    let ghost p = packet@;
    let len: usize = packet.len();
    if len < 40 {
        return false;
    }
    if packet[0] / 16 != 4 {
        return false;
    }
    let ihl: usize = claimed_len(packet[0]);
    if len < ihl + 20 {
        return false;
    }
    if packet[9] != 6 {
        return false;
    }
    let end: usize = (packet[ihl + 12] / 16) as usize * 4;
    assert(segment(p)[12] == p[ihl + 12]);
    assert(segment(p)[13] == p[ihl + 13]);
    if end <= 20 || (packet[ihl + 13] / 2) % 2 != 1 {
        return false;
    }
    let ghost seg = segment(p);
    let seg_len: usize = len - ihl;
    let room: usize = if safe_payload_mtu < ihl + 20 {
        0
    } else {
        safe_payload_mtu - (ihl + 20)
    };
    let max: u16 = (room % 65536) as u16;
    let limit = u16_bytes(max);
    let mut clamped = false;
    let mut i: usize = 20;
    let ghost mut done: Seq<int> = Seq::empty();
    let ghost fields = mss_fields(seg, 20);
    assert(max == mss_limit(p, safe_payload_mtu as nat));
    assert(done + mss_fields(seg, 20) =~= fields);
    assert(p =~= p.subrange(0, ihl as int) + seg);
    proof {
        fields_spaced(seg, 20);
    }
    if i + 1 >= seg_len {
        assert(mss_fields(seg, 20) =~= Seq::empty());
        assert(done =~= fields);
    }
    while i < end && i + 1 < seg_len
        invariant
            p.len() == len,
            p[0] / 16 == 4,
            ihl == header_len(p),
            ihl <= 60,
            ihl + 20 <= len,
            seg_len == len - ihl,
            seg == segment(p),
            seg.len() == seg_len,
            end == option_end(seg),
            end <= 60,
            max == mss_limit(p, safe_payload_mtu as nat),
            limit@ == be16_bytes(max),
            20 <= i <= end,
            fields == mss_fields(seg, 20),
            fields == done + mss_fields(seg, i as int),
            spaced(fields, 20),
            forall|j: int| 0 <= j < fields.len() ==> #[trigger] fields[j] + 2 <= seg.len(),
            forall|j: int| 0 <= j < done.len() ==> #[trigger] done[j] + 2 <= i,
            packet@ == p.subrange(0, ihl as int) + clamp_fields(seg, done, max),
            clamp_fields(seg, done, max).len() == seg_len,
            forall|k: int|
                i <= k < seg_len ==> #[trigger] clamp_fields(seg, done, max)[k] == seg[k],
            clamped == some_over(seg, done, max),
            i >= end || i + 1 >= seg_len ==> done == fields,
        ensures
            packet@ == p.subrange(0, ihl as int) + clamp_fields(seg, done, max),
            clamped == some_over(seg, done, max),
            done == fields,
        decreases end - i,
    {
        let kind = packet[ihl + i];
        assert(kind == seg[i as int]);
        if kind == 0 {
            assert(mss_fields(seg, i as int) =~= Seq::empty());
            assert(done =~= fields);
            break;
        }
        if kind == 1 {
            i += 1;
        } else {
            let opt_len: usize = packet[ihl + i + 1] as usize;
            assert(opt_len == seg[i + 1]);
            if opt_len < 2 || i + opt_len > end {
                assert(mss_fields(seg, i as int) =~= Seq::empty());
                assert(done =~= fields);
                break;
            }
            if kind == 2 && opt_len == 4 {
                let ghost before = done;
                proof {
                    done = done.push(i + 2);
                    assert(fields =~= done + mss_fields(seg, i + 4));
                    assert(fields[before.len() as int] == i + 2);
                    assert(done.drop_last() =~= before);
                }
                let mss = read_u16(packet, ihl + i + 2);
                assert(packet@[ihl + i + 2] == seg[i + 2]);
                assert(packet@[ihl + i + 3] == seg[i + 3]);
                assert(mss == mss_at(seg, i + 2));
                if mss > max {
                    let ghost cur = clamp_fields(seg, before, max);
                    put_bytes(packet, ihl + i + 2, limit.as_slice());
                    assert(packet@ =~= p.subrange(0, ihl as int) + overlay(
                        cur,
                        i + 2,
                        be16_bytes(max),
                    ));
                    clamped = true;
                    assert(done[before.len() as int] == i + 2);
                    assert(some_over(seg, done, max));
                } else {
                    assert(some_over(seg, done, max) == some_over(seg, before, max)) by {
                        if some_over(seg, done, max) {
                            let j = choose|j: int|
                                0 <= j < done.len() && mss_at(seg, #[trigger] done[j]) > max;
                            assert(j < before.len());
                            assert(before[j] == done[j]);
                        }
                        if some_over(seg, before, max) {
                            let j = choose|j: int|
                                0 <= j < before.len() && mss_at(seg, #[trigger] before[j]) > max;
                            assert(done[j] == before[j]);
                        }
                    }
                }
            }
            i += opt_len;
        }
        if !(i < end && i + 1 < seg_len) {
            assert(mss_fields(seg, i as int) =~= Seq::empty());
            assert(done =~= fields);
        }
    }
    if clamped {
        let ghost mid = clamp_fields(seg, fields, max);
        assert(some_over(seg, fields, max));
        let ghost front = p.subrange(0, ihl as int);
        let (ip, tcp) = packet.split_at_mut(ihl);
        assert(ip@ =~= p.subrange(0, ihl as int));
        assert(tcp@ =~= mid);
        recompute_tcp_checksum(ip, tcp);
        assert(packet@ =~= front + with_tcp_checksum(front, mid));
    } else {
        proof {
            clamp_nothing(seg, fields, max);
        }
    }
    clamped
}

/// Whether a packet can be clamped: see `clamp_defined`.
pub fn clamp_is_defined(packet: &[u8], safe_payload_mtu: usize) -> (r: bool)
    ensures
        r == clamp_defined(packet@, safe_payload_mtu as nat),
{
    let ghost p = packet@;
    let len: usize = packet.len();
    if len < 40 || packet[0] / 16 != 4 {
        return true;
    }
    let ihl: usize = claimed_len(packet[0]);
    if len < ihl + 20 || packet[9] != 6 {
        return true;
    }
    let ghost seg = segment(p);
    let end: usize = (packet[ihl + 12] / 16) as usize * 4;
    assert(seg[12] == p[ihl + 12]);
    assert(seg[13] == p[ihl + 13]);
    if end <= 20 || (packet[ihl + 13] / 2) % 2 != 1 {
        return true;
    }
    let seg_len: usize = len - ihl;
    let room: usize = if safe_payload_mtu < ihl + 20 {
        0
    } else {
        safe_payload_mtu - (ihl + 20)
    };
    let max: u16 = (room % 65536) as u16;
    let ghost fields = mss_fields(seg, 20);
    let ghost mut done: Seq<int> = Seq::empty();
    assert(done + mss_fields(seg, 20) =~= fields);
    let mut over = false;
    let mut i: usize = 20;
    let mut walking = true;
    while walking
        invariant
            p == packet@,
            p.len() == len,
            opens_with_options(p),
            ihl == header_len(p),
            ihl <= 60,
            seg_len == len - ihl,
            seg == segment(p),
            seg.len() == seg_len,
            end == option_end(seg),
            end <= 60,
            max == mss_limit(p, safe_payload_mtu as nat),
            20 <= i <= end,
            fields == mss_fields(seg, 20),
            fields == done + (if walking {
                mss_fields(seg, i as int)
            } else {
                Seq::empty()
            }),
            forall|j: int| 0 <= j < done.len() ==> #[trigger] done[j] + 2 <= seg.len(),
            over == some_over(seg, done, max),
        decreases end - i, if walking { 1int } else { 0int },
    {
        if i >= end || i + 1 >= seg_len {
            walking = false;
        } else {
            let kind = packet[ihl + i];
            assert(kind == seg[i as int]);
            if kind == 0 {
                walking = false;
            } else if kind == 1 {
                i += 1;
            } else {
                let opt_len: usize = packet[ihl + i + 1] as usize;
                assert(opt_len == seg[i + 1]);
                if opt_len < 2 || i + opt_len > end {
                    walking = false;
                } else {
                    if kind == 2 && opt_len == 4 {
                        let ghost before = done;
                        proof {
                            done = done.push(i + 2);
                            assert(fields =~= done + mss_fields(seg, i + 4));
                            assert(fields[before.len() as int] == i + 2);
                        }
                        if i + 4 > seg_len {
                            return false;
                        }
                        assert(p[ihl + i + 2] == seg[i + 2]);
                        assert(p[ihl + i + 3] == seg[i + 3]);
                        if read_u16(packet, ihl + i + 2) > max {
                            over = true;
                            assert(done[before.len() as int] == i + 2);
                        } else {
                            assert(some_over(seg, done, max) == some_over(seg, before, max)) by {
                                if some_over(seg, done, max) {
                                    let j = choose|j: int|
                                        0 <= j < done.len() && mss_at(seg, #[trigger] done[j])
                                            > max;
                                    assert(before[j] == done[j]);
                                }
                                if some_over(seg, before, max) {
                                    let j = choose|j: int|
                                        0 <= j < before.len() && mss_at(seg, #[trigger] before[j])
                                            > max;
                                    assert(done[j] == before[j]);
                                }
                            }
                        }
                    }
                    i += opt_len;
                }
            }
        }
    }
    assert(done =~= fields);
    !over || ihl >= 20
}

/// Bytes of the offending packet that an ICMP error quotes.
pub open spec fn quoted_len(original: Seq<u8>) -> int {
    header_len(original) + 8
}

/// The outer header of the reply: from the receiver back to the sender.
pub open spec fn reply_header(original: Seq<u8>, check: u16) -> Seq<u8> {
    seq![0x45u8, 0u8] + be16_bytes((28 + quoted_len(original)) as u16) + seq![
        0u8,
        0u8,
        0u8,
        0u8,
        64u8,
        1u8,
    ] + be16_bytes(check) + original.subrange(16, 20) + original.subrange(12, 16)
}

/// The ICMP message: destination unreachable, fragmentation needed, with the
/// MTU of the next hop and the front of the offending packet.
pub open spec fn reply_message(original: Seq<u8>, mtu: u16, check: u16) -> Seq<u8> {
    seq![3u8, 4u8] + be16_bytes(check) + seq![0u8, 0u8] + be16_bytes(mtu) + original.subrange(
        0,
        quoted_len(original),
    )
}

/// The packet that tells the sender of `original` to fragment.
pub open spec fn frag_needed(original: Seq<u8>, mtu: u16) -> Seq<u8> {
    reply_header(
        original,
        checksum_of(words_from(reply_header(original, 0), 0)),
    ) + reply_message(original, mtu, checksum_of(words_from(reply_message(original, mtu, 0), 0)))
}

pub(crate) proof fn words_split(s: Seq<u8>, at: int, b: Seq<u8>, i: int)
    requires
        0 <= i,
        i % 2 == 0,
        at % 2 == 0,
        0 <= at,
        at + 2 <= s.len(),
        b.len() == 2,
        s[at] == 0,
        s[at + 1] == 0,
    ensures
        words_from(overlay(s, at, b), i) == words_from(s, i) + if i <= at {
            be16(b[0], b[1])
        } else {
            0
        },
    decreases s.len() - i,
{
    if i + 1 < s.len() {
        words_split(s, at, b, i + 2);
    }
}

/// Both checksums of the reply are valid.
pub proof fn frag_needed_checksums_verify(original: Seq<u8>, mtu: u16)
    requires
        original.len() >= 20,
        original.len() >= quoted_len(original),
    ensures
        folded(words_from(frag_needed(original, mtu).subrange(0, 20), 0)) == 65535,
        folded(
            words_from(
                frag_needed(original, mtu).subrange(20, 28 + quoted_len(original)),
                0,
            ),
        ) == 65535,
{
    let blank = reply_header(original, 0);
    let sum = words_from(blank, 0);
    let check = checksum_of(sum);
    be16_round_trip(check);
    be16_round_trip(0);
    let outer = reply_header(original, check);
    assert(outer =~= overlay(blank, 10, be16_bytes(check)));
    words_split(blank, 10, be16_bytes(check), 0);
    checksum_verifies(sum);
    let blank2 = reply_message(original, mtu, 0);
    let sum2 = words_from(blank2, 0);
    let check2 = checksum_of(sum2);
    be16_round_trip(check2);
    be16_round_trip(mtu);
    let inner = reply_message(original, mtu, check2);
    assert(inner =~= overlay(blank2, 2, be16_bytes(check2)));
    words_split(blank2, 2, be16_bytes(check2), 0);
    checksum_verifies(sum2);
    assert(frag_needed(original, mtu).subrange(0, 20) =~= outer);
    assert(frag_needed(original, mtu).subrange(20, 28 + quoted_len(original)) =~= inner);
}

/// The internet checksum of some bytes.
pub fn ip_checksum(data: &[u8]) -> (r: u16)
    ensures
        r == checksum_of(words_from(data@, 0)),
{
    65535 - folded_sum(0, data)
}

fn reply_header_bytes(original: &[u8], check: u16) -> (v: Vec<u8>)
    requires
        original@.len() >= 20,
    ensures
        v@ == reply_header(original@, check),
{
    let mut v: Vec<u8> = Vec::new();
    let total = u16_bytes((28 + claimed_len(original[0]) + 8) as u16);
    let c = u16_bytes(check);
    let a1: [u8; 2] = [0x45, 0];
    let a2: [u8; 6] = [0, 0, 0, 0, 64, 1];
    push_all(&mut v, a1.as_slice());
    push_all(&mut v, total.as_slice());
    push_all(&mut v, a2.as_slice());
    push_all(&mut v, c.as_slice());
    push_all(&mut v, slice_subrange(original, 16, 20));
    push_all(&mut v, slice_subrange(original, 12, 16));
    assert(v@ =~= reply_header(original@, check));
    v
}

fn reply_message_bytes(original: &[u8], mtu: u16, check: u16) -> (v: Vec<u8>)
    requires
        original@.len() >= 1,
        original@.len() >= quoted_len(original@),
    ensures
        v@ == reply_message(original@, mtu, check),
{
    let mut v: Vec<u8> = Vec::new();
    let quoted: usize = claimed_len(original[0]) + 8;
    let c = u16_bytes(check);
    let m = u16_bytes(mtu);
    let a1: [u8; 2] = [3, 4];
    let a2: [u8; 2] = [0, 0];
    push_all(&mut v, a1.as_slice());
    push_all(&mut v, c.as_slice());
    push_all(&mut v, a2.as_slice());
    push_all(&mut v, m.as_slice());
    push_all(&mut v, slice_subrange(original, 0, quoted));
    assert(v@ =~= reply_message(original@, mtu, check));
    v
}

/// Builds the reply that tells the sender of an IPv4 packet to fragment. There
/// is none when the packet is too short to be quoted.
pub fn build_icmp_frag_needed(original_ipv4: &[u8], next_hop_mtu: u16) -> (r: Option<Vec<u8>>)
    requires
        original_ipv4@.len() >= 1,
        original_ipv4@.len() >= quoted_len(original_ipv4@) ==> original_ipv4@.len() >= 20,
    ensures
        r is None <==> original_ipv4@.len() < quoted_len(original_ipv4@),
        r is Some ==> r->0@ == frag_needed(original_ipv4@, next_hop_mtu),
{
    let quoted: usize = claimed_len(original_ipv4[0]) + 8;
    if original_ipv4.len() < quoted {
        return None;
    }
    let blank = reply_header_bytes(original_ipv4, 0);
    let mut pkt = reply_header_bytes(original_ipv4, ip_checksum(blank.as_slice()));
    let blank2 = reply_message_bytes(original_ipv4, next_hop_mtu, 0);
    let inner = reply_message_bytes(original_ipv4, next_hop_mtu, ip_checksum(blank2.as_slice()));
    push_all(&mut pkt, inner.as_slice());
    Some(pkt)
}

/// The words of two texts of bytes, the first of even length, add up to those of the
/// whole; a word is two bytes, high byte first, and a last byte alone is the high one.
pub proof fn words_add_up(a: Seq<u8>, b: Seq<u8>, i: int)
    requires
        a.len() % 2 == 0,
        0 <= i <= a.len(),
        i % 2 == 0,
    ensures
        words_from(a + b, i) == words_from(a, i) + words_from(b, 0),
        b.len() == 2 ==> words_from(b, 0) == 256 * b[0] + b[1],
        b.len() == 1 ==> words_from(b, 0) == 256 * b[0],
        b.len() == 0 ==> words_from(b, 0) == 0,
    decreases a.len() - i,
{
    reveal_with_fuel(words_from, 3);
    if i < a.len() {
        words_add_up(a, b, i + 2);
        assert((a + b)[i] == a[i] && (a + b)[i + 1] == a[i + 1]);
    } else {
        words_behind(a, b, 0);
    }
}

proof fn words_behind(a: Seq<u8>, b: Seq<u8>, i: int)
    requires
        0 <= i,
    ensures
        words_from(a + b, a.len() + i) == words_from(b, i),
    decreases b.len() - i,
{
    if i < b.len() {
        assert((a + b)[a.len() + i] == b[i]);
        if i + 1 < b.len() {
            assert((a + b)[a.len() + i + 1] == b[i + 1]);
            words_behind(a, b, i + 2);
        }
    }
}

/// A checksum makes a sum whole: the sum with it folds to all ones, and folding keeps the
/// remainder by 65535.
pub proof fn checksums_make_sums_whole(sum: nat)
    ensures
        folded(sum) <= 65535,
        folded(sum) % 65535 == sum % 65535,
        folded(sum) == 0 <==> sum == 0,
        checksum_of(sum) + folded(sum) == 65535,
{
}

/// Only the first segment of a connection over IPv4 that brings options announces a size:
/// one with the flag for it.
pub proof fn only_first_segments_announce(p: Seq<u8>, mtu: nat)
    requires
        p.len() >= 20,
    ensures
        needs_clamp(p, mtu) ==> p[0] / 16 == 4 && p[9] == 6 && p.len() >= 4 * (p[0] % 16) + 20,
        needs_clamp(p, mtu) ==> (p[4 * (p[0] % 16) + 13] / 2) % 2 == 1,
        !needs_clamp(p, mtu) ==> clamped_packet(p, mtu) == p,
        mtu >= 4 * (p[0] % 16) + 20 && mtu < 65536 ==> mss_limit(p, mtu) == mtu - 4 * (p[0] % 16)
            - 20,
        mtu < 4 * (p[0] % 16) + 20 ==> mss_limit(p, mtu) == 0,
{
}

/// The options of a segment are walked one by one: the filler is one byte long, every other
/// as long as it says, and the list of them ends where it says. The announced size is
/// the option of kind two and length four.
pub proof fn options_are_walked_one_by_one(seg: Seq<u8>, i: int)
    requires
        0 <= i,
        i + 1 < seg.len(),
        i < 4 * (seg[12] / 16),
    ensures
        seg[i] == 0 ==> mss_fields(seg, i).len() == 0,
        seg[i] == 1 ==> mss_fields(seg, i) == mss_fields(seg, i + 1),
        seg[i] == 2 && seg[i + 1] == 4 && i + 4 <= 4 * (seg[12] / 16) ==> mss_fields(seg, i).len()
            > 0 && mss_fields(seg, i)[0] == i + 2 && mss_fields(seg, i).subrange(
            1,
            mss_fields(seg, i).len() as int,
        ) == mss_fields(seg, i + 4),
        seg[i] > 1 && !(seg[i] == 2 && seg[i + 1] == 4) && seg[i + 1] >= 2 && i + seg[i + 1] <= 4 * (
        seg[12] / 16) ==> mss_fields(seg, i) == mss_fields(seg, i + seg[i + 1]),
        seg[i] > 1 && (seg[i + 1] < 2 || i + seg[i + 1] > 4 * (seg[12] / 16)) ==> mss_fields(
            seg,
            i,
        ).len() == 0,
{
    if seg[i] == 2 && seg[i + 1] == 4 && i + 4 <= 4 * (seg[12] / 16) {
        let all = mss_fields(seg, i);
        assert(all == seq![i + 2] + mss_fields(seg, i + 4));
        assert(all.subrange(1, all.len() as int) =~= mss_fields(seg, i + 4));
    }
}

/// The answer to a packet that is too large goes back to its sender, from whom it was sent
/// to: a message that it has to be cut up, with the size that fits, and the start of the
/// packet.
pub proof fn too_large_packets_are_answered(original: Seq<u8>, mtu: u16)
    requires
        original.len() >= 20,
        original.len() >= 4 * (original[0] % 16) + 8,
    ensures
        ({
            let r = frag_needed(original, mtu);
            let n = 4 * (original[0] % 16) + 8;
            &&& r.len() == 28 + n
            &&& r[0] == 0x45
            &&& 256 * r[2] + r[3] == r.len()
            &&& r[8] == 64
            &&& r[9] == 1
            &&& r.subrange(12, 16) == original.subrange(16, 20)
            &&& r.subrange(16, 20) == original.subrange(12, 16)
            &&& r[20] == 3
            &&& r[21] == 4
            &&& 256 * r[26] + r[27] == mtu
            &&& r.subrange(28, 28 + n) == original.subrange(0, n)
        }),
{
    let n = quoted_len(original);
    let check = checksum_of(words_from(reply_header(original, 0), 0));
    let h = reply_header(original, check);
    let m = reply_message(
        original,
        mtu,
        checksum_of(words_from(reply_message(original, mtu, 0), 0)),
    );
    let r = frag_needed(original, mtu);
    be16_round_trip((28 + n) as u16);
    be16_round_trip(mtu);
    assert(r == h + m);
    assert(h.len() == 20);
    assert(m.len() == 8 + n);
    assert(h[2] == be16_bytes((28 + n) as u16)[0]);
    assert(h[3] == be16_bytes((28 + n) as u16)[1]);
    assert(r[2] == h[2] && r[3] == h[3]);
    assert(r[26] == m[6] && r[27] == m[7]);
    assert(m[6] == be16_bytes(mtu)[0] && m[7] == be16_bytes(mtu)[1]);
    assert(r.subrange(12, 16) =~= original.subrange(16, 20));
    assert(r.subrange(16, 20) =~= original.subrange(12, 16));
    assert(r.subrange(28, 28 + n) =~= original.subrange(0, n));
}

} // verus!
