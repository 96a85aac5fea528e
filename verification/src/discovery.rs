//! LAN discovery traffic: which packets are flooded and how many.

use crate::bytes::{be16, read_u16, same_array};
use crate::packet::{ip_head, read_ip_head, v4_header_ok, IpHead};
use crate::proto::DataPacketType;
use ratelimit::Ratelimiter;
use vstd::prelude::*;

verus! {

#[derive(Debug, Clone, Copy, PartialEq, Eq, Structural)]
pub struct DiscoveryConfig {
    pub broadcast: bool,
    pub subnet_broadcast: bool,
    pub multicast: bool,
    pub mdns: bool,
    pub ssdp: bool,
    pub netbios: bool,
    pub rate_limit_pps: u32,
}

/// Everything but NetBIOS, a hundred packets a second.
pub open spec fn default_discovery() -> DiscoveryConfig {
    DiscoveryConfig {
        broadcast: true,
        subnet_broadcast: true,
        multicast: true,
        mdns: true,
        ssdp: true,
        netbios: false,
        rate_limit_pps: 100,
    }
}

impl Default for DiscoveryConfig {
    fn default() -> (c: DiscoveryConfig)
        ensures
            c == default_discovery(),
    {
        DiscoveryConfig {
            broadcast: true,
            subnet_broadcast: true,
            multicast: true,
            mdns: true,
            ssdp: true,
            netbios: false,
            rate_limit_pps: 100,
        }
    }
}

/// The token bucket of the `ratelimit` crate.
#[verifier::external_type_specification]
#[verifier::external_body]
pub struct ExRatelimiter(ratelimit::Ratelimiter);

/// How many tokens a bucket gets each second, which is as many as it holds.
pub uninterp spec fn rate_of(l: Ratelimiter) -> nat;

/// `Ratelimiter::builder` and `build`: a full bucket of `pps` tokens that gets
/// as many again each second. Building one cannot fail, since the bucket holds
/// what it is refilled with. What the bucket grants depends on the clock, so
/// nothing is claimed of it.
#[verifier::external_body]
fn limiter_new(pps: u64) -> (l: Ratelimiter)
    requires
        pps >= 1,
    ensures
        rate_of(l) == pps,
{
    Ratelimiter::builder(pps, core::time::Duration::from_secs(1))
        .max_tokens(pps)
        .initial_available(pps)
        .build()
        .unwrap()
}

/// `Ratelimiter::try_wait`: whether a token was there to be taken. That depends
/// on the clock, so nothing is claimed of it.
#[verifier::external_body]
fn limiter_try(l: &Ratelimiter) -> (r: bool) {
    l.try_wait().is_ok()
}

/// The UDP port that an IPv4 packet is sent to.
pub open spec fn udp_port(s: Seq<u8>) -> Option<int> {
    let hl = (s[0] % 16) * 4;
    if s.len() < 20 || s[0] / 16 != 4 || hl < 20 || s.len() < hl + 4 || s[9] != 17 {
        None
    } else {
        Some(be16(s[hl + 2], s[hl + 3]))
    }
}

/// The address of all hosts.
pub open spec fn is_limited_broadcast(d: Seq<u8>) -> bool {
    d == seq![255u8, 255u8, 255u8, 255u8]
}

/// The last address of the sender's network, taken as one of 256 or of 65536
/// addresses.
pub open spec fn is_subnet_broadcast(s: Seq<u8>, d: Seq<u8>) -> bool {
    ||| (d[3] == 255 && d[0] == s[0] && d[1] == s[1] && d[2] == s[2])
    ||| (d[2] == 255 && d[3] == 255 && d[0] == s[0] && d[1] == s[1])
}

/// How an IPv4 packet is flooded, if it is, by its source, its destination and
/// the UDP port that it is sent to.
pub open spec fn flood_kind(
    s: Seq<u8>,
    d: Seq<u8>,
    port: Option<int>,
    config: DiscoveryConfig,
) -> Option<DataPacketType> {
    let to_all = is_limited_broadcast(d) || is_subnet_broadcast(s, d);
    if config.mdns && d == seq![224u8, 0u8, 0u8, 251u8] && port == Some(5353int) {
        Some(DataPacketType::Multicast)
    } else if config.ssdp && d == seq![239u8, 255u8, 255u8, 250u8] && port == Some(1900int) {
        Some(DataPacketType::Multicast)
    } else if config.netbios && to_all && (port == Some(137int) || port == Some(138int)) {
        Some(DataPacketType::Broadcast)
    } else if config.broadcast && is_limited_broadcast(d) {
        Some(DataPacketType::Broadcast)
    } else if config.subnet_broadcast && is_subnet_broadcast(s, d) {
        Some(DataPacketType::Broadcast)
    } else if config.multicast && 224 <= d[0] <= 239 {
        Some(DataPacketType::Multicast)
    } else {
        None
    }
}

/// How a packet is flooded, if it is, by what its header reads as.
pub open spec fn discovery_kind(
    head: Option<IpHead>,
    data: Seq<u8>,
    config: DiscoveryConfig,
) -> Option<DataPacketType> {
    match head {
        Some(IpHead::V4 { source, destination, .. }) => flood_kind(
            source@,
            destination@,
            udp_port(data),
            config,
        ),
        _ => None,
    }
}

/// What is said of a packet agrees with its bytes: one without a sound IPv4
/// header is not flooded, and one without an authentication header is judged by
/// the addresses that the header holds.
pub open spec fn agrees_with_bytes(
    r: Option<DataPacketType>,
    data: Seq<u8>,
    config: DiscoveryConfig,
) -> bool {
    &&& !v4_header_ok(data) ==> r is None
    &&& v4_header_ok(data) && data[9] != 51 ==> r == flood_kind(
        data.subrange(12, 16),
        data.subrange(16, 20),
        udp_port(data),
        config,
    )
}

fn udp_destination_port(data: &[u8]) -> (r: Option<u16>)
    ensures
        match r {
            Some(p) => udp_port(data@) == Some(p as int),
            None => udp_port(data@) is None,
        },
{
    if data.len() < 20 || data[0] / 16 != 4 {
        return None;
    }
    let hl: usize = (data[0] % 16) as usize * 4;
    if hl < 20 || data.len() < hl + 4 || data[9] != 17 {
        return None;
    }
    Some(read_u16(data, hl + 2))
}

/// How a packet whose header was read is flooded, if it is.
pub fn kind_of_head(head: &Option<IpHead>, data: &[u8], config: &DiscoveryConfig) -> (r: Option<
    DataPacketType,
>)
    ensures
        r == discovery_kind(*head, data@, *config),
{
    match head {
        Some(IpHead::V4 { source, destination, .. }) => {
            let d = destination;
            let s = source;
            let port = udp_destination_port(data);
            let all: [u8; 4] = [255, 255, 255, 255];
            let mdns: [u8; 4] = [224, 0, 0, 251];
            let ssdp: [u8; 4] = [239, 255, 255, 250];
            let limited = same_array(d, &all);
            let is_mdns = same_array(d, &mdns);
            let is_ssdp = same_array(d, &ssdp);
            proof {
                assert(all@ =~= seq![255u8, 255u8, 255u8, 255u8]);
                assert(mdns@ =~= seq![224u8, 0u8, 0u8, 251u8]);
                assert(ssdp@ =~= seq![239u8, 255u8, 255u8, 250u8]);
                if d@ == all@ {
                    assert(*d =~= all);
                }
                if d@ == mdns@ {
                    assert(*d =~= mdns);
                }
                if d@ == ssdp@ {
                    assert(*d =~= ssdp);
                }
            }
            let subnet = (d[3] == 255 && d[0] == s[0] && d[1] == s[1] && d[2] == s[2]) || (d[2]
                == 255 && d[3] == 255 && d[0] == s[0] && d[1] == s[1]);
            let (is_5353, is_1900, is_netbios): (bool, bool, bool) = match port {
                Some(p) => (p == 5353, p == 1900, p == 137 || p == 138),
                None => (false, false, false),
            };
            if config.mdns && is_mdns && is_5353 {
                return Some(DataPacketType::Multicast);
            }
            if config.ssdp && is_ssdp && is_1900 {
                return Some(DataPacketType::Multicast);
            }
            if config.netbios && (limited || subnet) && is_netbios {
                return Some(DataPacketType::Broadcast);
            }
            if config.broadcast && limited {
                return Some(DataPacketType::Broadcast);
            }
            if config.subnet_broadcast && subnet {
                return Some(DataPacketType::Broadcast);
            }
            if config.multicast && d[0] >= 224 && d[0] <= 239 {
                return Some(DataPacketType::Multicast);
            }
            None
        },
        _ => None,
    }
}

/// The networks that discovery traffic is routed by.
pub open spec fn discovery_routes(c: DiscoveryConfig) -> Seq<Seq<char>> {
    (if c.multicast || c.mdns || c.ssdp {
        seq!["224.0.0.0/4"@]
    } else {
        Seq::empty()
    }) + (if c.broadcast || c.netbios {
        seq!["255.255.255.255/32"@]
    } else {
        Seq::empty()
    })
}

/// The views of a list of texts.
pub open spec fn str_views(v: Seq<&str>) -> Seq<Seq<char>> {
    Seq::new(v.len(), |i: int| v[i]@)
}

pub struct DiscoveryManager {
    pub config: DiscoveryConfig,
    pub limiter: Ratelimiter,
}

impl DiscoveryManager {
    pub fn new() -> (m: DiscoveryManager)
        ensures
            m.config == default_discovery(),
            rate_of(m.limiter) == 100,
    {
        Self::with_config(DiscoveryConfig::default())
    }

    /// Floods what the configuration names, at its rate or one packet a second.
    pub fn with_config(config: DiscoveryConfig) -> (m: DiscoveryManager)
        ensures
            m.config == config,
            rate_of(m.limiter) == if config.rate_limit_pps < 1 {
                1
            } else {
                config.rate_limit_pps as nat
            },
    {
        let pps: u64 = if config.rate_limit_pps < 1 {
            1
        } else {
            config.rate_limit_pps as u64
        };
        DiscoveryManager { config, limiter: limiter_new(pps) }
    }

    /// Whether one more packet may be flooded now.
    pub fn allow_broadcast(&self) -> (r: bool) {
        limiter_try(&self.limiter)
    }

    /// How a packet is flooded, if it is, by default.
    pub fn classify_packet(data: &[u8]) -> (r: Option<DataPacketType>)
        ensures
            r == discovery_kind(ip_head(data@), data@, default_discovery()),
            agrees_with_bytes(r, data@, default_discovery()),
    {
        Self::classify_packet_with_config(data, &DiscoveryConfig::default())
    }

    /// How a packet is flooded, if it is, by the configuration in force.
    pub fn classify_managed_packet(&self, data: &[u8]) -> (r: Option<DataPacketType>)
        ensures
            r == discovery_kind(ip_head(data@), data@, self.config),
            agrees_with_bytes(r, data@, self.config),
    {
        Self::classify_packet_with_config(data, &self.config)
    }

    /// How a packet is flooded, if it is.
    pub fn classify_packet_with_config(data: &[u8], config: &DiscoveryConfig) -> (r: Option<
        DataPacketType,
    >)
        ensures
            r == discovery_kind(ip_head(data@), data@, *config),
            agrees_with_bytes(r, data@, *config),
    {
        let head = read_ip_head(data);
        kind_of_head(&head, data, config)
    }

    /// The networks that discovery traffic is routed by.
    pub fn route_cidrs(&self) -> (r: Vec<&'static str>)
        ensures
            str_views(r@) == discovery_routes(self.config),
    {
        let mut routes: Vec<&'static str> = Vec::new();
        if self.config.multicast || self.config.mdns || self.config.ssdp {
            routes.push("224.0.0.0/4");
        }
        if self.config.broadcast || self.config.netbios {
            routes.push("255.255.255.255/32");
        }
        assert(str_views(routes@) =~= discovery_routes(self.config));
        routes
    }
}

impl Default for DiscoveryManager {
    fn default() -> (m: DiscoveryManager)
        ensures
            m.config == default_discovery(),
            rate_of(m.limiter) == 100,
    {
        Self::new()
    }
}

/// Only broadcast and multicast packets are flooded as such: a packet whose
/// destination is neither is never taken for one.
pub proof fn unicast_is_not_flooded(
    source: [u8; 4],
    destination: [u8; 4],
    protocol: u8,
    payload_at: usize,
    data: Seq<u8>,
    config: DiscoveryConfig,
)
    requires
        !is_limited_broadcast(destination@),
        !is_subnet_broadcast(source@, destination@),
        !(224 <= destination@[0] <= 239),
    ensures
        discovery_kind(
            Some(IpHead::V4 { source, destination, protocol, payload_at }),
            data,
            config,
        ) is None,
{
}

/// What a version 4 packet travels as follows from where it goes and which kinds
/// are to be passed on: a packet to all or to the sender's network is a broadcast,
/// one to a group a multicast. Where no kind is passed on, none is anything but an
/// ordinary packet.
pub proof fn each_kind_has_its_switch(
    s: Seq<u8>,
    d: Seq<u8>,
    port: Option<int>,
    c: DiscoveryConfig,
)
    requires
        s.len() == 4,
        d.len() == 4,
    ensures
        flood_kind(s, d, port, c) == Some(DataPacketType::Multicast) ==> 224 <= d[0] <= 239 && (
        c.multicast || (c.mdns && port == Some(5353int) && d[0] == 224 && d[1] == 0 && d[2] == 0
            && d[3] == 251) || (c.ssdp && port == Some(1900int) && d[0] == 239 && d[1] == 255
            && d[2] == 255 && d[3] == 250)),
        flood_kind(s, d, port, c) == Some(DataPacketType::Broadcast) ==> d[3] == 255 && (c.broadcast
            || c.subnet_broadcast || (c.netbios && (port == Some(137int) || port == Some(138int)))),
        flood_kind(s, d, port, c) is Some ==> flood_kind(s, d, port, c)
            == Some(DataPacketType::Multicast) || flood_kind(s, d, port, c)
            == Some(DataPacketType::Broadcast),
        c.broadcast && d[0] == 255 && d[1] == 255 && d[2] == 255 && d[3] == 255 ==> flood_kind(
            s,
            d,
            port,
            c,
        ) == Some(DataPacketType::Broadcast),
        c.subnet_broadcast && d[0] == s[0] && d[1] == s[1] && d[2] == s[2] && d[3] == 255 && d[0]
            < 224 ==> flood_kind(s, d, port, c) == Some(DataPacketType::Broadcast),
        c.subnet_broadcast && d[0] == s[0] && d[1] == s[1] && d[2] == 255 && d[3] == 255 && d[0]
            < 224 ==> flood_kind(s, d, port, c) == Some(DataPacketType::Broadcast),
        c.multicast && 224 <= d[0] <= 239 && d[3] != 255 ==> flood_kind(s, d, port, c)
            == Some(DataPacketType::Multicast),
        c.mdns && port == Some(5353int) && d[0] == 224 && d[1] == 0 && d[2] == 0 && d[3] == 251
            ==> flood_kind(s, d, port, c) == Some(DataPacketType::Multicast),
        c.ssdp && port == Some(1900int) && d[0] == 239 && d[1] == 255 && d[2] == 255 && d[3] == 250
            ==> flood_kind(s, d, port, c) == Some(DataPacketType::Multicast),
        c.netbios && (port == Some(137int) || port == Some(138int)) && d[0] == 255 && d[1] == 255
            && d[2] == 255 && d[3] == 255 ==> flood_kind(s, d, port, c)
            == Some(DataPacketType::Broadcast),
        c.netbios && (port == Some(137int) || port == Some(138int)) && d[0] == s[0] && d[1] == s[1]
            && d[3] == 255 && (d[2] == s[2] || d[2] == 255) ==> flood_kind(s, d, port, c)
            == Some(DataPacketType::Broadcast),
        !c.broadcast && !c.subnet_broadcast && !c.multicast && port != Some(5353int) && port != Some(
            1900int,
        ) && port != Some(137int) && port != Some(138int) ==> flood_kind(s, d, port, c) is None,
        !c.broadcast && !c.subnet_broadcast && !c.multicast && !c.mdns && !c.ssdp && !c.netbios
            ==> flood_kind(s, d, port, c) is None,
        c.broadcast && !c.subnet_broadcast && !c.netbios && flood_kind(s, d, port, c) == Some(
            DataPacketType::Broadcast,
        ) ==> d[0] == 255 && d[1] == 255 && d[2] == 255,
        !c.broadcast && c.subnet_broadcast && flood_kind(s, d, port, c) == Some(
            DataPacketType::Broadcast,
        ) && !c.netbios ==> d[0] == s[0] && d[1] == s[1],
{
    if d[0] == 255 && d[1] == 255 && d[2] == 255 && d[3] == 255 {
        assert(d =~= seq![255u8, 255u8, 255u8, 255u8]);
    }
    if d[0] == 224 && d[1] == 0 && d[2] == 0 && d[3] == 251 {
        assert(d =~= seq![224u8, 0u8, 0u8, 251u8]);
    }
    if d[0] == 239 && d[1] == 255 && d[2] == 255 && d[3] == 250 {
        assert(d =~= seq![239u8, 255u8, 255u8, 250u8]);
    }
}

/// The port that a datagram goes to stands in the third and fourth byte behind
/// the header, whose length its first byte tells; nothing else has one.
pub proof fn ports_stand_behind_the_header(p: Seq<u8>, at: int)
    requires
        p.len() >= 20,
        p[0] / 16 == 4,
        at == 4 * (p[0] % 16),
        20 <= at,
    ensures
        p[9] == 17 && at + 4 <= p.len() ==> udp_port(p) == Some(256 * p[at + 2] + p[at + 3]),
        p[9] != 17 || at + 4 > p.len() ==> udp_port(p) is None,
{
}

/// There is a route for packets to groups as soon as any of them are passed on,
/// and one for packets to all; without any there is none.
pub proof fn routes_follow_the_switches(c: DiscoveryConfig)
    ensures
        discovery_routes(c).contains("224.0.0.0/4"@) <==> c.multicast || c.mdns || c.ssdp,
        discovery_routes(c).contains("255.255.255.255/32"@) <==> c.broadcast || c.netbios,
        discovery_routes(c).len() == (if c.multicast || c.mdns || c.ssdp {
            1int
        } else {
            0
        }) + (if c.broadcast || c.netbios {
            1int
        } else {
            0
        }),
{
    reveal_strlit("224.0.0.0/4");
    reveal_strlit("255.255.255.255/32");
    assert("224.0.0.0/4"@.len() != "255.255.255.255/32"@.len());
    let r = discovery_routes(c);
    if c.multicast || c.mdns || c.ssdp {
        assert(r[0] == "224.0.0.0/4"@);
    }
    if c.broadcast || c.netbios {
        assert(r[r.len() - 1] == "255.255.255.255/32"@);
    }
}

} // verus!
