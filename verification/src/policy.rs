//! The packet filter: an ordered list of rules, of which the first that fits
//! decides.

use crate::net::{net_end, net_start, IpAddr, Ipv4Net};
use crate::bytes::{be32_of, read_u32};
use crate::packet::{
    ip_parts, is_plain_v4, plain_transport, read_ip_parts, IpParts, Transport,
};
use vstd::arithmetic::power2::pow2;
use vstd::prelude::*;

verus! {

#[derive(Debug, Clone, Copy, PartialEq, Eq, Structural)]
pub enum TrafficAction {
    Allow,
    Deny,
}

impl Default for TrafficAction {
    fn default() -> (a: TrafficAction)
        ensures
            a == TrafficAction::Allow,
    {
        TrafficAction::Allow
    }
}

#[derive(Debug, Clone, Copy, PartialEq, Eq, Structural)]
pub enum TrafficDirection {
    Inbound,
    Outbound,
    Both,
}

impl TrafficDirection {
    /// A rule for both directions fits every packet.
    pub fn matches(self, actual: TrafficDirection) -> (r: bool)
        ensures
            r == direction_fits(self, actual),
    {
        self == TrafficDirection::Both || self == actual
    }
}

/// A rule for both directions fits every packet.
pub open spec fn direction_fits(rule: TrafficDirection, actual: TrafficDirection) -> bool {
    rule == TrafficDirection::Both || rule == actual
}

#[derive(Debug, Clone, Copy, PartialEq, Eq, Structural)]
pub enum TrafficProtocol {
    Any,
    Tcp,
    Udp,
    Icmp,
}

#[derive(Debug, Clone, Copy, PartialEq, Eq, Structural)]
pub struct PortRange {
    pub start: u16,
    pub end: u16,
}

impl PortRange {
    /// Both ends belong to the range.
    pub fn contains(self, port: u16) -> (r: bool)
        ensures
            r == (self.start <= port <= self.end),
    {
        self.start <= port && port <= self.end
    }
}

/// An IPv6 network.
#[derive(Debug, Clone, Copy)]
pub struct Ipv6Net {
    pub addr: [u8; 16],
    pub prefix: u8,
}

/// A network of either family.
#[derive(Debug, Clone, Copy)]
pub enum IpNet {
    V4(Ipv4Net),
    V6(Ipv6Net),
}

/// How many values the low bits of a byte take behind its `bits` high ones.
pub open spec fn low_values(bits: int) -> int {
    if bits == 1 {
        128
    } else if bits == 2 {
        64
    } else if bits == 3 {
        32
    } else if bits == 4 {
        16
    } else if bits == 5 {
        8
    } else if bits == 6 {
        4
    } else if bits == 7 {
        2
    } else {
        256
    }
}

/// Two addresses agree in their first `prefix` bits.
pub open spec fn prefix_agrees(a: Seq<u8>, b: Seq<u8>, prefix: int) -> bool {
    let whole = prefix / 8;
    &&& forall|i: int| 0 <= i < whole ==> #[trigger] a[i] == b[i]
    &&& prefix % 8 != 0 ==> a[whole] as int / low_values(prefix % 8) == b[whole] as int
        / low_values(prefix % 8)
}

/// The address belongs to the network.
pub open spec fn net_contains(net: IpNet, ip: IpAddr) -> bool {
    match (net, ip) {
        (IpNet::V4(n), IpAddr::V4(o)) => net_start(n) <= be32_of(o@) <= net_end(n),
        (IpNet::V6(n), IpAddr::V6(o)) => prefix_agrees(n.addr@, o@, n.prefix as int),
        _ => false,
    }
}

fn low_value_count(bits: u8) -> (r: u8)
    requires
        1 <= bits <= 7,
    ensures
        r == low_values(bits as int),
        r > 0,
{
    if bits == 1 {
        128
    } else if bits == 2 {
        64
    } else if bits == 3 {
        32
    } else if bits == 4 {
        16
    } else if bits == 5 {
        8
    } else if bits == 6 {
        4
    } else {
        2
    }
}

fn prefixes_agree(a: &[u8; 16], b: &[u8; 16], prefix: u8) -> (r: bool)
    requires
        prefix <= 128,
    ensures
        r == prefix_agrees(a@, b@, prefix as int),
{
    let whole: usize = (prefix / 8) as usize;
    for i in 0..whole
        invariant
            whole == prefix / 8,
            whole <= 16,
            forall|k: int| 0 <= k < i ==> #[trigger] a@[k] == b@[k],
    {
        if a[i] != b[i] {
            assert(a@[i as int] != b@[i as int]);
            return false;
        }
    }
    let bits: u8 = prefix % 8;
    if bits == 0 {
        return true;
    }
    let low = low_value_count(bits);
    a[whole] / low == b[whole] / low
}

impl IpNet {
    pub open spec fn wf(self) -> bool {
        match self {
            IpNet::V4(n) => n.wf(),
            IpNet::V6(n) => n.prefix <= 128,
        }
    }

    pub fn contains(&self, ip: &IpAddr) -> (r: bool)
        requires
            self.wf(),
        ensures
            r == net_contains(*self, *ip),
    {
        match (self, ip) {
            (IpNet::V4(n), IpAddr::V4(o)) => {
                assert(o@.subrange(0, 4) =~= o@);
                n.contains(read_u32(o.as_slice(), 0))
            },
            (IpNet::V6(n), IpAddr::V6(o)) => prefixes_agree(&n.addr, o, n.prefix),
            _ => false,
        }
    }
}

#[derive(Debug)]
pub struct TrafficRule {
    pub id: String,
    pub enabled: bool,
    pub action: TrafficAction,
    pub direction: TrafficDirection,
    pub src_cidr: Option<IpNet>,
    pub dst_cidr: Option<IpNet>,
    pub protocol: TrafficProtocol,
    pub src_ports: Vec<PortRange>,
    pub dst_ports: Vec<PortRange>,
    pub description: Option<String>,
}

#[derive(Debug)]
pub struct TrafficPolicy {
    pub enabled: bool,
    pub default_action: TrafficAction,
    pub rules: Vec<TrafficRule>,
}

#[derive(Debug, Clone, Copy)]
pub struct PacketMeta {
    pub src: IpAddr,
    pub dst: IpAddr,
    pub protocol: TrafficProtocol,
    pub src_port: Option<u16>,
    pub dst_port: Option<u16>,
}

#[derive(Debug, Clone, Copy, PartialEq, Eq, Structural)]
pub enum PolicyError {
    UnsupportedPacket,
}

impl PolicyError {
    /// The message of the error.
    pub fn to_text(&self) -> (s: String)
        ensures
            s@ == "unsupported or malformed packet"@,
    {
        "unsupported or malformed packet".to_string()
    }
}

impl Default for TrafficPolicy {
    /// Everything is allowed.
    fn default() -> (p: TrafficPolicy)
        ensures
            p.enabled,
            p.default_action == TrafficAction::Allow,
            p.rules@.len() == 0,
    {
        TrafficPolicy { enabled: true, default_action: TrafficAction::Allow, rules: Vec::new() }
    }
}

/// An optional network that is missing or holds the address.
pub open spec fn side_fits(net: Option<IpNet>, ip: IpAddr) -> bool {
    net is Some ==> net_contains(net->0, ip)
}

/// A list of port ranges that is empty or holds the port.
pub open spec fn ports_fit(ranges: Seq<PortRange>, port: Option<u16>) -> bool {
    ranges.len() == 0 || (port is Some && exists|i: int|
        0 <= i < ranges.len() && (#[trigger] ranges[i]).start <= port->0 <= ranges[i].end)
}

/// A rule fits a packet: it is on, and everything it asks for is there.
pub open spec fn rule_fits(rule: TrafficRule, direction: TrafficDirection, meta: PacketMeta) -> bool {
    &&& rule.enabled
    &&& direction_fits(rule.direction, direction)
    &&& rule.protocol == TrafficProtocol::Any || rule.protocol == meta.protocol
    &&& side_fits(rule.src_cidr, meta.src)
    &&& side_fits(rule.dst_cidr, meta.dst)
    &&& ports_fit(rule.src_ports@, meta.src_port)
    &&& ports_fit(rule.dst_ports@, meta.dst_port)
}

/// What the first rule that fits says, or else the default.
pub open spec fn ruling(
    rules: Seq<TrafficRule>,
    default_action: TrafficAction,
    direction: TrafficDirection,
    meta: PacketMeta,
) -> TrafficAction
    decreases rules.len(),
{
    if rules.len() == 0 {
        default_action
    } else if rule_fits(rules[0], direction, meta) {
        rules[0].action
    } else {
        ruling(rules.subrange(1, rules.len() as int), default_action, direction, meta)
    }
}

/// What a policy makes of a packet whose fields were read, or could not be.
pub open spec fn verdict(
    p: TrafficPolicy,
    direction: TrafficDirection,
    meta: Option<PacketMeta>,
) -> TrafficAction {
    if !p.enabled {
        TrafficAction::Allow
    } else {
        match meta {
            None => p.default_action,
            Some(m) => ruling(p.rules@, p.default_action, direction, m),
        }
    }
}

/// What rules call a transport, and its ports.
pub open spec fn called(t: Transport) -> (TrafficProtocol, Option<u16>, Option<u16>) {
    match t {
        Transport::Tcp { source, destination } => (
            TrafficProtocol::Tcp,
            Some(source),
            Some(destination),
        ),
        Transport::Udp { source, destination } => (
            TrafficProtocol::Udp,
            Some(source),
            Some(destination),
        ),
        Transport::IcmpV4 | Transport::IcmpV6 => (
            TrafficProtocol::Icmp,
            None::<u16>,
            None::<u16>,
        ),
        Transport::Other => (TrafficProtocol::Any, None::<u16>, None::<u16>),
    }
}

/// The fields are those of a plain IPv4 packet: its addresses, and its transport
/// with the ports.
pub open spec fn plain_meta(m: PacketMeta, packet: Seq<u8>) -> bool {
    &&& m.src is V4 && m.src->V4_0@ == packet.subrange(12, 16)
    &&& m.dst is V4 && m.dst->V4_0@ == packet.subrange(16, 20)
    &&& (m.protocol, m.src_port, m.dst_port) == called(plain_transport(packet)->0)
}

/// The fields of a packet by what it reads as.
pub open spec fn meta_of(parts: Option<IpParts>) -> Option<PacketMeta> {
    match parts {
        None => None,
        Some(p) => {
            let (protocol, src_port, dst_port) = called(p.transport);
            Some(PacketMeta { src: p.src, dst: p.dst, protocol, src_port, dst_port })
        },
    }
}

/// What a policy makes of a packet.
pub open spec fn packet_verdict(
    p: TrafficPolicy,
    direction: TrafficDirection,
    packet: Seq<u8>,
) -> TrafficAction {
    verdict(p, direction, meta_of(ip_parts(packet)))
}

/// The first rule that fits decides, whatever stands behind it.
pub proof fn first_fit_decides(
    rules: Seq<TrafficRule>,
    default_action: TrafficAction,
    direction: TrafficDirection,
    meta: PacketMeta,
    i: int,
)
    requires
        0 <= i < rules.len(),
        rule_fits(rules[i], direction, meta),
        forall|j: int| 0 <= j < i ==> !rule_fits(#[trigger] rules[j], direction, meta),
    ensures
        ruling(rules, default_action, direction, meta) == rules[i].action,
    decreases i,
{
    if i > 0 {
        assert(!rule_fits(rules[0], direction, meta));
        let rest = rules.subrange(1, rules.len() as int);
        assert forall|j: int| 0 <= j < i - 1 implies !rule_fits(
            #[trigger] rest[j],
            direction,
            meta,
        ) by {
            assert(rest[j] == rules[j + 1]);
        }
        first_fit_decides(rest, default_action, direction, meta, i - 1);
    }
}

/// Without a rule that fits, the default decides.
pub proof fn no_fit_is_default(
    rules: Seq<TrafficRule>,
    default_action: TrafficAction,
    direction: TrafficDirection,
    meta: PacketMeta,
)
    requires
        forall|j: int| 0 <= j < rules.len() ==> !rule_fits(#[trigger] rules[j], direction, meta),
    ensures
        ruling(rules, default_action, direction, meta) == default_action,
    decreases rules.len(),
{
    if rules.len() > 0 {
        assert(!rule_fits(rules[0], direction, meta));
        let rest = rules.subrange(1, rules.len() as int);
        assert forall|j: int| 0 <= j < rest.len() implies !rule_fits(
            #[trigger] rest[j],
            direction,
            meta,
        ) by {
            assert(rest[j] == rules[j + 1]);
        }
        no_fit_is_default(rest, default_action, direction, meta);
    }
}

fn any_contains(ranges: &Vec<PortRange>, port: u16) -> (r: bool)
    ensures
        r == exists|i: int|
            0 <= i < ranges@.len() && (#[trigger] ranges@[i]).start <= port <= ranges@[i].end,
{
    let n: usize = ranges.len();
    for i in 0..n
        invariant
            n == ranges@.len(),
            forall|k: int|
                0 <= k < i ==> !((#[trigger] ranges@[k]).start <= port <= ranges@[k].end),
    {
        if ranges[i].contains(port) {
            return true;
        }
    }
    false
}

fn ports_match(ranges: &Vec<PortRange>, port: Option<u16>) -> (r: bool)
    ensures
        r == ports_fit(ranges@, port),
{
    if ranges.len() == 0 {
        return true;
    }
    match port {
        None => false,
        Some(p) => any_contains(ranges, p),
    }
}

impl TrafficRule {
    /// The networks of the rule are networks.
    pub open spec fn wf(self) -> bool {
        &&& self.src_cidr is Some ==> self.src_cidr->0.wf()
        &&& self.dst_cidr is Some ==> self.dst_cidr->0.wf()
    }

    pub fn matches(&self, direction: TrafficDirection, meta: &PacketMeta) -> (r: bool)
        requires
            self.wf(),
        ensures
            r == rule_fits(*self, direction, *meta),
    {
        if !self.enabled || !self.direction.matches(direction) {
            return false;
        }
        if self.protocol != TrafficProtocol::Any && self.protocol != meta.protocol {
            return false;
        }
        if let Some(cidr) = &self.src_cidr {
            if !cidr.contains(&meta.src) {
                return false;
            }
        }
        if let Some(cidr) = &self.dst_cidr {
            if !cidr.contains(&meta.dst) {
                return false;
            }
        }
        ports_match(&self.src_ports, meta.src_port) && ports_match(&self.dst_ports, meta.dst_port)
    }
}

impl TrafficPolicy {
    /// The networks of the rules are networks.
    pub open spec fn wf(self) -> bool {
        forall|i: int| 0 <= i < self.rules@.len() ==> (#[trigger] self.rules@[i]).wf()
    }

    /// What the policy makes of a packet.
    pub fn decision(&self, direction: TrafficDirection, packet: &[u8]) -> (a: TrafficAction)
        requires
            self.wf(),
        ensures
            a == packet_verdict(*self, direction, packet@),
            is_plain_v4(packet@) && plain_transport(packet@) is None ==> a == verdict(
                *self,
                direction,
                None,
            ),
            self.enabled && is_plain_v4(packet@) && plain_transport(packet@) is Some ==> exists|
                m: PacketMeta,
            | #[trigger]
                plain_meta(m, packet@) && a == verdict(*self, direction, Some(m)),
    {
        if !self.enabled {
            return TrafficAction::Allow;
        }
        match packet_meta(packet) {
            Ok(meta) => self.decision_for_meta(direction, &meta),
            Err(_) => self.default_action,
        }
    }

    /// What the policy makes of a packet whose fields were read.
    pub fn decision_for_meta(&self, direction: TrafficDirection, meta: &PacketMeta) -> (a:
        TrafficAction)
        requires
            self.wf(),
        ensures
            a == verdict(*self, direction, Some(*meta)),
    {
        if !self.enabled {
            return TrafficAction::Allow;
        }
        let n: usize = self.rules.len();
        assert(self.rules@.subrange(0, n as int) =~= self.rules@);
        for i in 0..n
            invariant
                n == self.rules@.len(),
                self.wf(),
                ruling(self.rules@, self.default_action, direction, *meta) == ruling(
                    self.rules@.subrange(i as int, n as int),
                    self.default_action,
                    direction,
                    *meta,
                ),
                self.enabled,
        {
            let ghost rest = self.rules@.subrange(i as int, n as int);
            assert(rest[0] == self.rules@[i as int]);
            if self.rules[i].matches(direction, meta) {
                return self.rules[i].action;
            }
            assert(rest.subrange(1, rest.len() as int) =~= self.rules@.subrange(i + 1, n as int));
        }
        self.default_action
    }

    /// Whether the policy lets a packet through.
    pub fn allows(&self, direction: TrafficDirection, packet: &[u8]) -> (r: bool)
        requires
            self.wf(),
        ensures
            r == (packet_verdict(*self, direction, packet@) == TrafficAction::Allow),
    {
        self.decision(direction, packet) == TrafficAction::Allow
    }
}

/// Reads the fields of a packet that rules speak of.
pub fn packet_meta(packet: &[u8]) -> (r: Result<PacketMeta, PolicyError>)
    ensures
        match r {
            Ok(m) => meta_of(ip_parts(packet@)) == Some(m),
            Err(e) => meta_of(ip_parts(packet@)) is None && e == PolicyError::UnsupportedPacket,
        },
        is_plain_v4(packet@) ==> (r is Ok <==> plain_transport(packet@) is Some),
        is_plain_v4(packet@) && r is Ok ==> plain_meta(r->Ok_0, packet@),
{
    match read_ip_parts(packet) {
        Some(parts) => {
            let (protocol, src_port, dst_port) = transport_meta(&parts.transport);
            Ok(PacketMeta { src: parts.src, dst: parts.dst, protocol, src_port, dst_port })
        },
        None => Err(PolicyError::UnsupportedPacket),
    }
}

/// What rules call a transport, and its ports.
pub fn transport_meta(t: &Transport) -> (r: (TrafficProtocol, Option<u16>, Option<u16>))
    ensures
        r == called(*t),
{
    match t {
        Transport::Tcp { source, destination } => (
            TrafficProtocol::Tcp,
            Some(*source),
            Some(*destination),
        ),
        Transport::Udp { source, destination } => (
            TrafficProtocol::Udp,
            Some(*source),
            Some(*destination),
        ),
        Transport::IcmpV4 | Transport::IcmpV6 => (TrafficProtocol::Icmp, None, None),
        Transport::Other => (TrafficProtocol::Any, None, None),
    }
}

/// A bit of a byte, counted from its front.
pub open spec fn byte_bit(x: u8, j: int) -> int {
    x as int / (pow2((7 - j) as nat) as int) % 2
}

/// A bit of an address, counted from its front.
pub open spec fn bit_at(a: Seq<u8>, i: int) -> int {
    byte_bit(a[i / 8], i % 8)
}

proof fn front_bits(x: u8, y: u8, r: int)
    requires
        0 <= r <= 8,
    ensures
        x as int / (pow2((8 - r) as nat) as int) == y as int / (pow2((8 - r) as nat) as int)
            <==> forall|j: int| 0 <= j < r ==> #[trigger] byte_bit(x, j) == byte_bit(y, j),
    decreases r,
{
    vstd::arithmetic::power2::lemma2_to64();
    if r > 0 {
        front_bits(x, y, r - 1);
        let d = pow2((8 - r) as nat) as int;
        vstd::arithmetic::power2::lemma_pow2_unfold((9 - r) as nat);
        vstd::arithmetic::power2::lemma_pow2_pos((8 - r) as nat);
        assert(pow2((8 - (r - 1)) as nat) == 2 * d);
        vstd::arithmetic::div_mod::lemma_div_denominator(x as int, d, 2);
        vstd::arithmetic::div_mod::lemma_div_denominator(y as int, d, 2);
        assert(d * 2 == 2 * d);
        let p = x as int / d;
        let q = y as int / d;
        assert(p == q <==> p / 2 == q / 2 && p % 2 == q % 2);
        assert(byte_bit(x, r - 1) == p % 2);
        assert(byte_bit(y, r - 1) == q % 2);
    } else {
        assert(x as int / 256 == 0);
        assert(y as int / 256 == 0);
    }
}

proof fn high_bits(x: u8, y: u8, r: int)
    requires
        1 <= r <= 7,
    ensures
        x as int / low_values(r) == y as int / low_values(r) <==> forall|j: int|
            0 <= j < r ==> #[trigger] byte_bit(x, j) == byte_bit(y, j),
{
    vstd::arithmetic::power2::lemma2_to64();
    front_bits(x, y, r);
    assert(low_values(r) == pow2((8 - r) as nat));
}

proof fn same_byte(x: u8, y: u8)
    requires
        forall|j: int| 0 <= j < 8 ==> #[trigger] byte_bit(x, j) == byte_bit(y, j),
    ensures
        x == y,
{
    vstd::arithmetic::power2::lemma2_to64();
    front_bits(x, y, 8);
    assert(pow2((8 - 8) as nat) == 1);
}

/// An IPv6 network holds exactly the addresses that agree with it in every bit of
/// its prefix.
pub proof fn prefixes_agree_bit_by_bit(a: Seq<u8>, b: Seq<u8>, prefix: int)
    requires
        a.len() == 16,
        b.len() == 16,
        0 <= prefix <= 128,
    ensures
        prefix_agrees(a, b, prefix) <==> forall|i: int|
            0 <= i < prefix ==> #[trigger] bit_at(a, i) == bit_at(b, i),
{
    let whole = prefix / 8;
    let r = prefix % 8;
    if prefix_agrees(a, b, prefix) {
        assert forall|i: int| 0 <= i < prefix implies #[trigger] bit_at(a, i) == bit_at(b, i) by {
            if i / 8 < whole {
                assert(a[i / 8] == b[i / 8]);
            } else {
                assert(i / 8 == whole);
                high_bits(a[whole], b[whole], r);
                assert(byte_bit(a[whole], i % 8) == byte_bit(b[whole], i % 8));
            }
        }
    }
    if forall|i: int| 0 <= i < prefix ==> #[trigger] bit_at(a, i) == bit_at(b, i) {
        assert forall|k: int| 0 <= k < whole implies #[trigger] a[k] == b[k] by {
            assert forall|j: int| 0 <= j < 8 implies #[trigger] byte_bit(a[k], j) == byte_bit(
                b[k],
                j,
            ) by {
                let i = 8 * k + j;
                assert(i / 8 == k && i % 8 == j);
                assert(bit_at(a, i) == bit_at(b, i));
            }
            same_byte(a[k], b[k]);
        }
        if r != 0 {
            assert forall|j: int| 0 <= j < r implies #[trigger] byte_bit(a[whole], j) == byte_bit(
                b[whole],
                j,
            ) by {
                let i = 8 * whole + j;
                assert(i / 8 == whole && i % 8 == j);
                assert(bit_at(a, i) == bit_at(b, i));
            }
            high_bits(a[whole], b[whole], r);
        }
    }
}

/// A network holds the addresses of its own family that agree with it in the bits
/// of its prefix, and no others.
pub proof fn networks_hold_what_agrees(net: IpNet, ip: IpAddr)
    requires
        net.wf(),
    ensures
        net is V4 && ip is V6 ==> !net_contains(net, ip),
        net is V6 && ip is V4 ==> !net_contains(net, ip),
        net is V4 && ip is V4 ==> (net_contains(net, ip) <==> be32_of(ip->V4_0@) / pow2(
            (32 - net->V4_0.prefix) as nat,
        ) as int == net->V4_0.addr as int / pow2((32 - net->V4_0.prefix) as nat) as int),
        net is V6 && ip is V6 ==> (net_contains(net, ip) <==> forall|i: int|
            0 <= i < net->V6_0.prefix ==> #[trigger] bit_at(net->V6_0.addr@, i) == bit_at(
                ip->V6_0@,
                i,
            )),
{
    if let (IpNet::V4(n), IpAddr::V4(o)) = (net, ip) {
        assert(0 <= be32_of(o@) <= 0xffff_ffff);
        crate::net::addresses_belong_by_their_prefix(n, be32_of(o@));
    }
    if let (IpNet::V6(n), IpAddr::V6(o)) = (net, ip) {
        prefixes_agree_bit_by_bit(n.addr@, o@, n.prefix as int);
    }
}

/// A rule that fits a packet asks for nothing that the packet lacks: it is on, it
/// is for the direction, for the protocol or for any, its networks hold the
/// addresses and its port ranges the ports. A rule that asks for nothing fits.
pub proof fn a_rule_fits_by_every_field(
    rule: TrafficRule,
    direction: TrafficDirection,
    meta: PacketMeta,
)
    ensures
        !rule.enabled ==> !rule_fits(rule, direction, meta),
        rule.direction != TrafficDirection::Both && rule.direction != direction ==> !rule_fits(
            rule,
            direction,
            meta,
        ),
        rule.protocol != TrafficProtocol::Any && rule.protocol != meta.protocol ==> !rule_fits(
            rule,
            direction,
            meta,
        ),
        rule.src_cidr is Some && !net_contains(rule.src_cidr->0, meta.src) ==> !rule_fits(
            rule,
            direction,
            meta,
        ),
        rule.dst_cidr is Some && !net_contains(rule.dst_cidr->0, meta.dst) ==> !rule_fits(
            rule,
            direction,
            meta,
        ),
        rule.src_ports@.len() > 0 && (meta.src_port is None || forall|i: int|
            0 <= i < rule.src_ports@.len() ==> meta.src_port->0 < (
            #[trigger] rule.src_ports@[i]).start || meta.src_port->0 > rule.src_ports@[i].end)
            ==> !rule_fits(rule, direction, meta),
        rule.dst_ports@.len() > 0 && (meta.dst_port is None || forall|i: int|
            0 <= i < rule.dst_ports@.len() ==> meta.dst_port->0 < (
            #[trigger] rule.dst_ports@[i]).start || meta.dst_port->0 > rule.dst_ports@[i].end)
            ==> !rule_fits(rule, direction, meta),
        rule.enabled && (rule.direction == TrafficDirection::Both || rule.direction == direction) && (
        rule.protocol == TrafficProtocol::Any || rule.protocol == meta.protocol) && (rule.src_cidr
            is Some ==> net_contains(rule.src_cidr->0, meta.src)) && (rule.dst_cidr is Some
            ==> net_contains(rule.dst_cidr->0, meta.dst)) && (rule.src_ports@.len() > 0
            ==> meta.src_port is Some && exists|i: int|
            0 <= i < rule.src_ports@.len() && (#[trigger] rule.src_ports@[i]).start
                <= meta.src_port->0 <= rule.src_ports@[i].end) && (rule.dst_ports@.len() > 0
            ==> meta.dst_port is Some && exists|i: int|
            0 <= i < rule.dst_ports@.len() && (#[trigger] rule.dst_ports@[i]).start
                <= meta.dst_port->0 <= rule.dst_ports@[i].end) ==> rule_fits(rule, direction, meta),
{
}

/// Where every rule is off, for the other direction, for another protocol, or asks
/// for a network or a port that the packet does not have, the default decides. A
/// policy that is off lets everything pass.
pub proof fn rules_for_other_packets_do_not_decide(
    p: TrafficPolicy,
    direction: TrafficDirection,
    meta: PacketMeta,
)
    requires
        forall|j: int|
            0 <= j < p.rules@.len() ==> {
                let rule = #[trigger] p.rules@[j];
                ||| !rule.enabled
                ||| rule.direction != TrafficDirection::Both && rule.direction != direction
                ||| rule.protocol != TrafficProtocol::Any && rule.protocol != meta.protocol
                ||| rule.src_cidr is Some && !net_contains(rule.src_cidr->0, meta.src)
                ||| rule.dst_cidr is Some && !net_contains(rule.dst_cidr->0, meta.dst)
                ||| rule.src_ports@.len() > 0 && (meta.src_port is None || forall|i: int|
                    0 <= i < rule.src_ports@.len() ==> meta.src_port->0 < (
                    #[trigger] rule.src_ports@[i]).start || meta.src_port->0
                        > rule.src_ports@[i].end)
                ||| rule.dst_ports@.len() > 0 && (meta.dst_port is None || forall|i: int|
                    0 <= i < rule.dst_ports@.len() ==> meta.dst_port->0 < (
                    #[trigger] rule.dst_ports@[i]).start || meta.dst_port->0
                        > rule.dst_ports@[i].end)
            },
    ensures
        p.enabled ==> verdict(p, direction, Some(meta)) == p.default_action,
        !p.enabled ==> verdict(p, direction, Some(meta)) == TrafficAction::Allow,
{
    assert forall|j: int| 0 <= j < p.rules@.len() implies !rule_fits(
        #[trigger] p.rules@[j],
        direction,
        meta,
    ) by {
        a_rule_fits_by_every_field(p.rules@[j], direction, meta);
    }
    no_fit_is_default(p.rules@, p.default_action, direction, meta);
}

/// The first rule that fits decides over a packet that could be read; over one
/// that could not be read the default does; and a policy that is off lets
/// everything pass.
pub proof fn the_verdict_is_that_of_the_first_rule(
    p: TrafficPolicy,
    direction: TrafficDirection,
    meta: Option<PacketMeta>,
    i: int,
)
    ensures
        !p.enabled ==> verdict(p, direction, meta) == TrafficAction::Allow,
        p.enabled && meta is None ==> verdict(p, direction, meta) == p.default_action,
        p.enabled && meta is Some && 0 <= i < p.rules@.len() && rule_fits(
            p.rules@[i],
            direction,
            meta->0,
        ) && (forall|j: int|
            0 <= j < i ==> !rule_fits(#[trigger] p.rules@[j], direction, meta->0)) ==> verdict(
            p,
            direction,
            meta,
        ) == p.rules@[i].action,
{
    if p.enabled && meta is Some && 0 <= i < p.rules@.len() && rule_fits(
        p.rules@[i],
        direction,
        meta->0,
    ) && (forall|j: int|
        0 <= j < i ==> !rule_fits(#[trigger] p.rules@[j], direction, meta->0)) {
        first_fit_decides(p.rules@, p.default_action, direction, meta->0, i);
    }
}

/// What rules go by is what the packet holds: the addresses that were read, the
/// ports of a TCP segment or a UDP datagram, and no ports of anything else.
pub proof fn rules_go_by_the_packet(parts: IpParts)
    ensures
        meta_of(None) is None,
        meta_of(Some(parts)) is Some,
        ({
            let m = meta_of(Some(parts))->0;
            &&& m.src == parts.src
            &&& m.dst == parts.dst
            &&& parts.transport is Tcp ==> m.protocol == TrafficProtocol::Tcp && m.src_port == Some(
                parts.transport->Tcp_source,
            ) && m.dst_port == Some(parts.transport->Tcp_destination)
            &&& parts.transport is Udp ==> m.protocol == TrafficProtocol::Udp && m.src_port == Some(
                parts.transport->Udp_source,
            ) && m.dst_port == Some(parts.transport->Udp_destination)
            &&& parts.transport is IcmpV4 || parts.transport is IcmpV6 ==> m.protocol
                == TrafficProtocol::Icmp && m.src_port is None && m.dst_port is None
            &&& parts.transport is Other ==> m.protocol == TrafficProtocol::Any && m.src_port
                is None && m.dst_port is None
        }),
{
}

/// The addresses of a plain packet are the bytes of its header: the sender at twelve, the
/// receiver at sixteen.
pub proof fn addresses_stand_in_the_header(m: PacketMeta, packet: Seq<u8>, i: int)
    requires
        plain_meta(m, packet),
        packet.len() >= 20,
        0 <= i < 4,
    ensures
        m.src is V4 && m.src->V4_0@[i] == packet[12 + i],
        m.dst is V4 && m.dst->V4_0@[i] == packet[16 + i],
{
    assert(packet.subrange(12, 16)[i] == packet[12 + i]);
    assert(packet.subrange(16, 20)[i] == packet[16 + i]);
}

} // verus!
