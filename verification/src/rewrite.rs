//! Redirecting IPv4 packets to another destination.

use crate::bytes::{
    be16, be16_bytes, be16_round_trip, overlay, put_bytes, read_array, same_array, u16_bytes,
};
use crate::defense::{checksum_of, checksum_verifies, folded, words_from, words_split};
use crate::packet::{v4_header_len, v4_header_ok};
use crate::proto::DataPacketType;
use vstd::prelude::*;
use vstd::slice::slice_subrange;

verus! {

/// What the redirection reads of an IPv4 header.
#[derive(Debug, Clone, Copy)]
pub struct V4Fields {
    pub header_len: usize,
    pub source: [u8; 4],
    pub destination: [u8; 4],
    pub protocol: u8,
}

/// The words of a UDP datagram and its pseudo header, without the checksum. The
/// length is the one that the datagram claims.
pub open spec fn udp_sum(source: Seq<u8>, destination: Seq<u8>, udp: Seq<u8>) -> nat {
    (words_from(source, 0) + words_from(destination, 0) + 17 + 2 * be16(udp[4], udp[5]) + be16(
        udp[0],
        udp[1],
    ) + be16(udp[2], udp[3]) + words_from(udp.subrange(8, udp.len() as int), 0)) as nat
}

/// The checksum of a UDP datagram, which is never zero.
pub open spec fn udp_checksum(source: Seq<u8>, destination: Seq<u8>, udp: Seq<u8>) -> u16 {
    let c = checksum_of(udp_sum(source, destination, udp));
    if c == 0 {
        0xffff
    } else {
        c
    }
}

/// A TCP segment whose header is whole, and which is not too long.
pub open spec fn tcp_ok(tcp: Seq<u8>) -> bool {
    20 <= tcp.len() <= 0xffff && 20 <= (tcp[12] / 16) * 4 <= tcp.len()
}

/// The checksum of a TCP segment.
pub open spec fn tcp_checksum(source: Seq<u8>, destination: Seq<u8>, tcp: Seq<u8>) -> u16 {
    checksum_of(
        words_from(source, 0) + words_from(destination, 0) + 6 + tcp.len() + words_from(
            overlay(tcp, 16, seq![0u8, 0u8]),
            0,
        ),
    )
}

/// An IPv4 header with another destination and a blank checksum. The bit that
/// has no meaning is cleared.
pub open spec fn blank_header(header: Seq<u8>, destination: Seq<u8>) -> Seq<u8> {
    overlay(
        overlay(header.update(6, (header[6] % 128) as u8), 10, seq![0u8, 0u8]),
        16,
        destination,
    )
}

/// `etherparse::Ipv4HeaderSlice::from_slice` and the readings of the slice: a
/// header is taken if it is whole and does not contradict itself, and its fields
/// stand where the format has them.
#[verifier::external_body]
fn read_v4_fields(packet: &[u8]) -> (r: Option<V4Fields>)
    ensures
        r is Some <==> v4_header_ok(packet@),
        r is Some ==> r->0.header_len == v4_header_len(packet@) && r->0.source@
            == packet@.subrange(12, 16) && r->0.destination@ == packet@.subrange(16, 20)
            && r->0.protocol == packet@[9],
{
    let h = etherparse::Ipv4HeaderSlice::from_slice(packet).ok()?;
    Some(
        V4Fields {
            header_len: h.slice().len(),
            source: h.source(),
            destination: h.destination(),
            protocol: h.protocol(),
        },
    )
}

/// `etherparse::UdpHeader::calc_checksum_ipv4_raw`, of the header that
/// `UdpHeaderSlice::from_slice` reads: there is a checksum if the header is whole
/// and the datagram is not too long for a length field. It is the internet
/// checksum over the pseudo header, the header and the payload, with zero
/// replaced.
#[verifier::external_body]
fn compute_udp_checksum(udp: &[u8], source: [u8; 4], destination: [u8; 4]) -> (r: Option<u16>)
    ensures
        r is Some <==> 8 <= udp@.len() <= 0xffff,
        r is Some ==> r->0 == udp_checksum(source@, destination@, udp@),
{
    let h = etherparse::UdpHeaderSlice::from_slice(udp).ok()?.to_header();
    h.calc_checksum_ipv4_raw(source, destination, &udp[8..]).ok()
}

/// `etherparse::TcpHeaderSlice::calc_checksum_ipv4_raw`, of the header that
/// `TcpHeaderSlice::from_slice` reads: there is a checksum if the header is whole
/// and the segment is not too long for a length field. It is the internet
/// checksum over the pseudo header, the header without its checksum and the
/// payload.
#[verifier::external_body]
fn compute_tcp_checksum(tcp: &[u8], source: [u8; 4], destination: [u8; 4]) -> (r: Option<u16>)
    ensures
        r is Some <==> tcp_ok(tcp@),
        r is Some ==> r->0 == tcp_checksum(source@, destination@, tcp@),
{
    let h = etherparse::TcpHeaderSlice::from_slice(tcp).ok()?;
    h.calc_checksum_ipv4_raw(source, destination, &tcp[h.slice().len()..]).ok()
}

/// `etherparse::Ipv4Header::calc_header_checksum`, of the header that
/// `Ipv4HeaderSlice::to_header` gives, with another destination: the internet
/// checksum over the header without its checksum. There is one for every header
/// that can be read.
#[verifier::external_body]
fn compute_header_checksum(packet: &[u8], destination: [u8; 4]) -> (r: Option<u16>)
    ensures
        r is Some <==> v4_header_ok(packet@),
        r is Some ==> r->0 == checksum_of(
            words_from(
                blank_header(packet@.subrange(0, v4_header_len(packet@)), destination@),
                0,
            ),
        ),
{
    let mut h = etherparse::Ipv4HeaderSlice::from_slice(packet).ok()?.to_header();
    h.destination = destination;
    h.calc_header_checksum().ok()
}

/// A packet whose transport keeps a checksum over the destination has a header
/// for it that can be read.
pub open spec fn transport_ok(p: Seq<u8>) -> bool {
    let body = p.subrange(v4_header_len(p), p.len() as int);
    if p[9] == 17 {
        8 <= body.len() <= 0xffff
    } else if p[9] == 6 {
        tcp_ok(body)
    } else {
        true
    }
}

/// A packet redirected: the destination is replaced, and the checksums that
/// cover it are brought up to date.
pub open spec fn redirected(p: Seq<u8>, destination: Seq<u8>) -> Seq<u8> {
    let n = v4_header_len(p);
    let source = p.subrange(12, 16);
    let moved = overlay(p, 16, destination);
    let body = p.subrange(n, p.len() as int);
    let summed = if p[9] == 17 {
        overlay(moved, n + 6, be16_bytes(udp_checksum(source, destination, body)))
    } else if p[9] == 6 {
        overlay(moved, n + 16, be16_bytes(tcp_checksum(source, destination, body)))
    } else {
        moved
    };
    overlay(
        summed,
        10,
        be16_bytes(checksum_of(words_from(blank_header(p.subrange(0, n), destination), 0))),
    )
}

/// Redirects a packet. A packet that is not IPv4 is left alone; one whose
/// transport header cannot be read has its destination replaced and nothing
/// else.
pub fn rewrite_ipv4_destination(packet: &mut [u8], local_ipv4: [u8; 4]) -> (r: Option<()>)
    ensures
        r is Some <==> v4_header_ok(old(packet)@) && (old(packet)@.subrange(16, 20) == local_ipv4@
            || transport_ok(old(packet)@)),
        final(packet)@ == if !v4_header_ok(old(packet)@) || old(packet)@.subrange(16, 20)
            == local_ipv4@ {
            old(packet)@
        } else if transport_ok(old(packet)@) {
            redirected(old(packet)@, local_ipv4@)
        } else {
            overlay(old(packet)@, 16, local_ipv4@)
        },
{
    let ghost p = packet@;
    let fields = match read_v4_fields(&*packet) {
        Some(f) => f,
        None => {
            return None;
        },
    };
    if same_array(&fields.destination, &local_ipv4) {
        return Some(());
    }
    assert(p.subrange(16, 20) != local_ipv4@) by {
        if fields.destination@ == local_ipv4@ {
            assert(fields.destination =~= local_ipv4);
        }
    }
    let total: usize = packet.len();
    assert(total == p.len());
    let n: usize = fields.header_len;
    let ghost body = p.subrange(n as int, total as int);
    let check: u16 = match compute_header_checksum(&*packet, local_ipv4) {
        Some(c) => c,
        None => {
            return None;
        },
    };
    put_bytes(packet, 16, local_ipv4.as_slice());
    let ghost moved = packet@;
    assert(moved.len() == p.len());
    assert(moved.subrange(n as int, total as int) =~= body);
    if fields.protocol == 17 {
        match compute_udp_checksum(
            slice_subrange(&*packet, n, total),
            fields.source,
            local_ipv4,
        ) {
            Some(c) => {
                let b = u16_bytes(c);
                put_bytes(packet, n + 6, b.as_slice());
            },
            None => {
                return None;
            },
        }
    } else if fields.protocol == 6 {
        match compute_tcp_checksum(
            slice_subrange(&*packet, n, total),
            fields.source,
            local_ipv4,
        ) {
            Some(c) => {
                let b = u16_bytes(c);
                put_bytes(packet, n + 16, b.as_slice());
            },
            None => {
                return None;
            },
        }
    }
    let b = u16_bytes(check);
    put_bytes(packet, 10, b.as_slice());
    Some(())
}

/// What is written to a device in place of a packet: where the device takes no
/// broadcasts, one is redirected to the address of the device.
pub open spec fn for_device(
    p: Seq<u8>,
    t: DataPacketType,
    local: Option<[u8; 4]>,
    redirects: bool,
) -> Seq<u8> {
    if redirects && t == DataPacketType::Broadcast && local is Some {
        let to = local->0@;
        if !v4_header_ok(p) || p.subrange(16, 20) == to {
            p
        } else if transport_ok(p) {
            redirected(p, to)
        } else {
            overlay(p, 16, to)
        }
    } else {
        p
    }
}

/// Makes a packet ready for a device, which may need broadcasts to be redirected
/// to its own address.
pub fn prepare_packet_for_local_tun(
    packet: &mut [u8],
    packet_type: DataPacketType,
    local_ipv4: Option<[u8; 4]>,
    redirects: bool,
)
    ensures
        final(packet)@ == for_device(old(packet)@, packet_type, local_ipv4, redirects),
{
    if redirects && packet_type == DataPacketType::Broadcast {
        if let Some(local) = local_ipv4 {
            let _ = rewrite_ipv4_destination(packet, local);
        }
    }
}

/// A packet that was redirected has the new destination, and the checksum of its
/// header is valid, unless the bit without meaning was set.
pub proof fn redirected_header_is_valid(p: Seq<u8>, destination: Seq<u8>)
    requires
        v4_header_ok(p),
        transport_ok(p),
        destination.len() == 4,
        p[6] < 128,
    ensures
        ({
            let q = redirected(p, destination);
            let n = v4_header_len(p);
            &&& q.len() == p.len()
            &&& q.subrange(16, 20) == destination
            &&& folded(words_from(q.subrange(0, n), 0)) == 65535
        }),
{
    let q = redirected(p, destination);
    let n = v4_header_len(p);
    let blank = blank_header(p.subrange(0, n), destination);
    let sum = words_from(blank, 0);
    let check = checksum_of(sum);
    be16_round_trip(check);
    assert(q.subrange(16, 20) =~= destination);
    assert(q.subrange(0, n) =~= overlay(blank, 10, be16_bytes(check)));
    words_split(blank, 10, be16_bytes(check), 0);
    checksum_verifies(sum);
}

/// What a checksum of UDP or TCP covers: the addresses, the protocol, the length and the
/// whole segment but for the checksum itself; with the checksum the sum is all ones.
pub proof fn transport_checksums_cover_the_addresses(
    source: Seq<u8>,
    destination: Seq<u8>,
    udp: Seq<u8>,
    tcp: Seq<u8>,
)
    requires
        source.len() == 4,
        destination.len() == 4,
        udp.len() >= 8,
        tcp.len() >= 20,
    ensures
        udp_sum(source, destination, udp) == 256 * source[0] + source[1] + 256 * source[2]
            + source[3] + 256 * destination[0] + destination[1] + 256 * destination[2]
            + destination[3] + 17 + 2 * (256 * udp[4] + udp[5]) + 256 * udp[0] + udp[1] + 256
            * udp[2] + udp[3] + words_from(udp.subrange(8, udp.len() as int), 0),
        folded(
            (udp_sum(source, destination, udp) + udp_checksum(source, destination, udp)) as nat,
        ) == 65535,
        udp_checksum(source, destination, udp) != 0,
        folded(
            (words_from(source, 0) + words_from(destination, 0) + 6 + tcp.len() + words_from(
                overlay(tcp, 16, seq![0u8, 0u8]),
                0,
            ) + tcp_checksum(source, destination, tcp)) as nat,
        ) == 65535,
{
    reveal_with_fuel(words_from, 3);
    let sum = udp_sum(source, destination, udp);
    checksum_verifies(sum);
    crate::defense::checksums_make_sums_whole(sum);
    checksum_verifies(
        (words_from(source, 0) + words_from(destination, 0) + 6 + tcp.len() + words_from(
            overlay(tcp, 16, seq![0u8, 0u8]),
            0,
        )) as nat,
    );
}

/// A packet is changed for the device only where it is a broadcast and the device wants
/// such packets for itself: then it has the address of the device as its destination.
/// Every byte but the destination and the checksums stays.
pub proof fn only_broadcasts_are_redirected(
    p: Seq<u8>,
    t: DataPacketType,
    local: Option<[u8; 4]>,
    redirects: bool,
    i: int,
)
    ensures
        ({
            let q = for_device(p, t, local, redirects);
            let n = v4_header_len(p);
            &&& q.len() == p.len()
            &&& !redirects || t != DataPacketType::Broadcast || local is None ==> q == p
            &&& redirects && t == DataPacketType::Broadcast && local is Some && v4_header_ok(p)
                ==> q.subrange(16, 20) == local->0@
            &&& !v4_header_ok(p) ==> q == p
            &&& 0 <= i < p.len() && i != 10 && i != 11 && !(16 <= i < 20) && !(p[9] == 17 && n + 6
                <= i < n + 8) && !(p[9] == 6 && n + 16 <= i < n + 18) ==> q[i] == p[i]
        }),
{
    let q = for_device(p, t, local, redirects);
    if redirects && t == DataPacketType::Broadcast && local is Some && v4_header_ok(p) {
        let to = local->0@;
        if p.subrange(16, 20) != to {
            if transport_ok(p) {
                let body = p.subrange(v4_header_len(p), p.len() as int);
                be16_round_trip(udp_checksum(p.subrange(12, 16), to, body));
            }
            assert(q.subrange(16, 20) =~= to);
        }
    }
}

} // verus!
