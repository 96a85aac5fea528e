//! What IP packets say of themselves.

use crate::bytes::{be16, read_array};
use crate::net::IpAddr;
use etherparse::InternetSlice::{Ipv4, Ipv6};
use etherparse::SlicedPacket;
use etherparse::TransportSlice::{Icmpv4, Icmpv6, Tcp, Udp};
use vstd::prelude::*;

verus! {

/// The head of an IP packet and where its payload begins.
#[derive(Debug, Clone, Copy)]
pub enum IpHead {
    V4 { source: [u8; 4], destination: [u8; 4], protocol: u8, payload_at: usize },
    V6 { protocol: u8, payload_at: usize },
}

/// The transport that an IP packet carries, with its ports where it has any.
#[derive(Debug, Clone, Copy, PartialEq, Eq, Structural)]
pub enum Transport {
    Tcp { source: u16, destination: u16 },
    Udp { source: u16, destination: u16 },
    IcmpV4,
    IcmpV6,
    Other,
}

/// The addresses of an IP packet and the transport that it carries.
#[derive(Debug, Clone, Copy)]
pub struct IpParts {
    pub src: IpAddr,
    pub dst: IpAddr,
    pub transport: Transport,
}

/// Length in bytes that an IPv4 header claims.
pub open spec fn v4_header_len(s: Seq<u8>) -> int {
    (s[0] % 16) * 4
}

/// An IPv4 header that is whole and does not contradict itself.
pub open spec fn v4_header_ok(s: Seq<u8>) -> bool {
    &&& s.len() >= 20
    &&& s[0] / 16 == 4
    &&& 20 <= v4_header_len(s) <= s.len()
    &&& be16(s[2], s[3]) >= v4_header_len(s)
}

/// An IPv4 packet that is a part of a larger one.
pub open spec fn is_fragment(s: Seq<u8>) -> bool {
    s[6] % 64 != 0 || s[7] != 0
}

/// An IPv4 packet without an authentication header that carries no ICMP message.
pub open spec fn is_plain_v4(s: Seq<u8>) -> bool {
    v4_header_ok(s) && s[9] != 51 && (is_fragment(s) || (s[9] != 1 && s[9] != 58))
}

/// The transport of a plain IPv4 packet, if its header is whole. That of a
/// fragment is not looked at.
pub open spec fn plain_transport(s: Seq<u8>) -> Option<Transport> {
    let hl = v4_header_len(s);
    let left = s.len() - hl;
    let source = be16(s[hl], s[hl + 1]) as u16;
    let destination = be16(s[hl + 2], s[hl + 3]) as u16;
    if is_fragment(s) {
        Some(Transport::Other)
    } else if s[9] == 17 {
        if left >= 8 {
            Some(Transport::Udp { source, destination })
        } else {
            None
        }
    } else if s[9] == 6 {
        if left >= 20 && 20 <= (s[hl + 12] / 16) * 4 <= left {
            Some(Transport::Tcp { source, destination })
        } else {
            None
        }
    } else {
        Some(Transport::Other)
    }
}

/// What the first bytes of a packet read as, taken as an IP header.
pub uninterp spec fn ip_head(s: Seq<u8>) -> Option<IpHead>;

/// What a packet reads as, taken as an IP packet with its transport header.
pub uninterp spec fn ip_parts(s: Seq<u8>) -> Option<IpParts>;

/// `etherparse::IpHeader::from_slice`: what it reads depends on the bytes alone.
/// It reads nothing but versions 4 and 6. Of version 4 it reads nothing where
/// the header is cut short or contradicts itself; otherwise addresses and
/// protocol are those of the header, and the payload follows the header, unless
/// the protocol is that of an authentication header, which is skipped as well
/// or, if it is broken, spoils the packet.
#[verifier::external_body]
pub(crate) fn read_ip_head(data: &[u8]) -> (r: Option<IpHead>)
    ensures
        r == ip_head(data@),
        r is Some ==> data@.len() > 0 && (data@[0] / 16 == 4 <==> r->0 is V4),
        r is Some && r->0 is V4 ==> v4_header_ok(data@) && r->0->V4_source@ == data@.subrange(
            12,
            16,
        ) && r->0->destination@ == data@.subrange(16, 20) && r->0->V4_protocol == data@[9]
            && v4_header_len(data@) <= r->0->V4_payload_at <= data@.len(),
        v4_header_ok(data@) && data@[9] != 51 ==> r is Some && r->0->V4_payload_at
            == v4_header_len(data@),
        r is Some && r->0 is V6 ==> 40 <= r->0->V6_payload_at <= data@.len(),
{
    let (head, _, rest) = etherparse::IpHeader::from_slice(data).ok()?;
    let payload_at = data.len() - rest.len();
    Some(match head {
        etherparse::IpHeader::Version4(h, _) => IpHead::V4 {
            source: h.source, destination: h.destination, protocol: h.protocol, payload_at,
        },
        etherparse::IpHeader::Version6(h, _) => IpHead::V6 { protocol: h.next_header, payload_at },
    })
}

/// `etherparse::SlicedPacket::from_ip`: what it reads depends on the bytes
/// alone. It reads nothing but versions 4 and 6. The addresses are those that
/// the IP header holds. An IPv4 packet without an authentication header is read
/// if its header and that of its transport are whole, and the ports stand where
/// the formats have them; of ICMP messages nothing is said.
#[verifier::external_body]
pub(crate) fn read_ip_parts(data: &[u8]) -> (r: Option<IpParts>)
    ensures
        r == ip_parts(data@),
        r is Some ==> data@.len() > 0 && (data@[0] / 16 == 4 || data@[0] / 16 == 6),
        is_plain_v4(data@) ==> (r is Some <==> plain_transport(data@) is Some),
        is_plain_v4(data@) && r is Some ==> r->0.transport == plain_transport(data@)->0,
        r is Some && data@[0] / 16 == 4 ==> v4_header_ok(data@) && r->0.src is V4 && r->0.dst is V4
            && r->0.src->V4_0@ == data@.subrange(12, 16) && r->0.dst->V4_0@ == data@.subrange(
            16,
            20,
        ),
        r is Some && data@[0] / 16 != 4 ==> data@.len() >= 40 && r->0.src is V6 && r->0.dst is V6
            && r->0.src->V6_0@ == data@.subrange(8, 24) && r->0.dst->V6_0@ == data@.subrange(
            24,
            40,
        ),
{
    let p = SlicedPacket::from_ip(data).ok()?;
    let (src, dst) = match p.ip? {
        Ipv4(h, _) => (IpAddr::V4(h.source()), IpAddr::V4(h.destination())),
        Ipv6(h, _) => (IpAddr::V6(h.source()), IpAddr::V6(h.destination()))
    };
    let transport = match p.transport {
        Some(Tcp(t)) => Transport::Tcp {
            source: t.source_port(), destination: t.destination_port() },
        Some(Udp(u)) => Transport::Udp {
            source: u.source_port(), destination: u.destination_port() },
        Some(Icmpv4(_)) => Transport::IcmpV4,
        Some(Icmpv6(_)) => Transport::IcmpV6, _ => Transport::Other
    };
    Some(IpParts { src, dst, transport })
}

/// The destination of an IPv4 packet.
pub open spec fn v4_destination(s: Seq<u8>) -> Option<Seq<u8>> {
    match ip_head(s) {
        Some(IpHead::V4 { destination, .. }) => Some(destination@),
        _ => None,
    }
}

/// What a plain packet carries is told by its header and what follows it: the ports are
/// the first four bytes behind it. A part of a larger packet shows no ports.
pub proof fn ports_follow_the_header(s: Seq<u8>, at: int)
    requires
        v4_header_ok(s),
        at == 4 * (s[0] % 16),
    ensures
        s[6] % 64 != 0 || s[7] != 0 ==> plain_transport(s) == Some(Transport::Other),
        s[6] % 64 == 0 && s[7] == 0 && s[9] == 17 && at + 8 <= s.len() ==> plain_transport(s) is Some
            && plain_transport(s)->0 is Udp && plain_transport(s)->0->Udp_source == 256 * s[at] + s[at
            + 1] && plain_transport(s)->0->Udp_destination == 256 * s[at + 2] + s[at + 3],
        s[6] % 64 == 0 && s[7] == 0 && s[9] == 17 && at + 8 > s.len() ==> plain_transport(s) is None,
        s[6] % 64 == 0 && s[7] == 0 && s[9] == 6 && at + 20 <= s.len() && 20 <= 4 * (s[at + 12] / 16)
            <= s.len() - at ==> plain_transport(s) is Some && plain_transport(s)->0 is Tcp
            && plain_transport(s)->0->Tcp_source == 256 * s[at] + s[at + 1]
            && plain_transport(s)->0->Tcp_destination == 256 * s[at + 2] + s[at + 3],
        s[6] % 64 == 0 && s[7] == 0 && s[9] == 6 && at + 20 > s.len() ==> plain_transport(s) is None,
{
}

/// A header is sound if it is whole, of version 4, and neither it nor the packet is shorter
/// than it says.
pub proof fn sound_headers_are_whole(s: Seq<u8>)
    ensures
        v4_header_ok(s) <==> s.len() >= 20 && s[0] / 16 == 4 && s[0] % 16 >= 5 && 4 * (s[0] % 16)
            <= s.len() && 4 * (s[0] % 16) <= 256 * s[2] + s[3],
{
}

} // verus!
