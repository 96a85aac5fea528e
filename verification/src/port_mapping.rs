//! Port mappings on the gateway: which protocol is tried next, how long a
//! mapping is kept and what is told of it.

use crate::net::{addr_text, IpAddr, SocketAddr};
use crate::proto::{Candidate, CandidateKind, CandidateSource};
use crate::text::opt_text;
use vstd::prelude::*;

verus! {

/// Seconds for which a mapping is asked for.
pub const REQUESTED_LEASE_SECS: u32 = 3600;

/// Nanoseconds between attempts while there is no mapping.
pub const RETRY_INTERVAL: u64 = 60_000_000_000;

/// Nanoseconds below which a mapping is not renewed early.
pub const MIN_RENEW_INTERVAL: u64 = 30_000_000_000;

/// Nanoseconds of a second.
pub const SECOND: u64 = 1_000_000_000;

#[derive(Debug, Clone, Copy, PartialEq, Eq, Structural)]
pub enum PortMappingProtocol {
    UpnpIgd,
    NatPmp,
    Pcp,
}

/// The name of a mapping protocol.
pub open spec fn protocol_label(p: PortMappingProtocol) -> Seq<char> {
    match p {
        PortMappingProtocol::UpnpIgd => "UPnP IGD"@,
        PortMappingProtocol::NatPmp => "NAT-PMP"@,
        PortMappingProtocol::Pcp => "PCP"@,
    }
}

impl PortMappingProtocol {
    pub fn label(self) -> (s: &'static str)
        ensures
            s@ == protocol_label(self),
    {
        match self {
            PortMappingProtocol::UpnpIgd => "UPnP IGD",
            PortMappingProtocol::NatPmp => "NAT-PMP",
            PortMappingProtocol::Pcp => "PCP",
        }
    }
}

/// What is known of the mapping; the lease is in nanoseconds.
#[derive(Debug, Clone, Copy)]
pub struct PortMappingSnapshot {
    pub acquired: bool,
    pub protocol: Option<PortMappingProtocol>,
    pub external_addr: Option<SocketAddr>,
    pub lease_remaining: Option<u64>,
}

#[derive(Debug)]
pub struct PortMappingSnapshotView {
    pub acquired: bool,
    pub protocol: Option<String>,
    pub external_addr: Option<String>,
    pub lease_remaining_secs: Option<u64>,
}

impl Default for PortMappingSnapshot {
    /// No mapping.
    fn default() -> (s: PortMappingSnapshot)
        ensures
            s == no_mapping(),
    {
        PortMappingSnapshot {
            acquired: false,
            protocol: None,
            external_addr: None,
            lease_remaining: None,
        }
    }
}

/// No mapping.
pub open spec fn no_mapping() -> PortMappingSnapshot {
    PortMappingSnapshot {
        acquired: false,
        protocol: None,
        external_addr: None,
        lease_remaining: None,
    }
}

/// The candidate that a mapping gives.
pub open spec fn mapped_candidate(s: PortMappingSnapshot) -> Option<Candidate> {
    if s.acquired && s.external_addr is Some {
        Some(
            Candidate {
                kind: CandidateKind::ServerReflexive,
                source: CandidateSource::PortMapping,
                addr: s.external_addr->0,
                priority: 90,
                rtt_hint_ms: None,
            },
        )
    } else {
        None
    }
}

impl PortMappingSnapshot {
    /// The candidate that the mapping gives, if there is one.
    pub fn as_candidate(&self) -> (r: Option<Candidate>)
        ensures
            r == mapped_candidate(*self),
    {
        if !self.acquired {
            return None;
        }
        match self.external_addr {
            Some(addr) => Some(
                Candidate {
                    kind: CandidateKind::ServerReflexive,
                    source: CandidateSource::PortMapping,
                    addr,
                    priority: 90,
                    rtt_hint_ms: None,
                },
            ),
            None => None,
        }
    }

    /// The mapping in words.
    pub fn view(&self) -> (v: PortMappingSnapshotView)
        ensures
            v.acquired == self.acquired,
            opt_text(v.protocol) == match self.protocol {
                Some(p) => Some(protocol_label(p)),
                None => None,
            },
            opt_text(v.external_addr) == match self.external_addr {
                Some(a) => Some(addr_text(a)),
                None => None,
            },
            v.lease_remaining_secs == match self.lease_remaining {
                Some(t) => Some((t / SECOND) as u64),
                None => None,
            },
    {
        PortMappingSnapshotView {
            acquired: self.acquired,
            protocol: match self.protocol {
                Some(p) => Some(p.label().to_string()),
                None => None,
            },
            external_addr: match &self.external_addr {
                Some(a) => Some(a.to_text()),
                None => None,
            },
            lease_remaining_secs: match self.lease_remaining {
                Some(t) => Some(t / SECOND),
                None => None,
            },
        }
    }
}

/// A mapping that the gateway granted, and the time at which it ends.
#[derive(Debug, Clone, Copy)]
pub struct ActiveMapping {
    pub protocol: PortMappingProtocol,
    pub external_addr: SocketAddr,
    pub expires_at: u64,
}

/// The nanoseconds left of a mapping.
pub open spec fn remaining(m: ActiveMapping, now: u64) -> u64 {
    if m.expires_at > now {
        (m.expires_at - now) as u64
    } else {
        0
    }
}

/// How long to wait before a mapping is renewed: half of what is left, but
/// thirty seconds where that is less, and no longer than what is left, which
/// counts as at least a second.
pub open spec fn renewal_wait(left: u64) -> u64 {
    if left / 2 >= MIN_RENEW_INTERVAL {
        (left / 2) as u64
    } else if left < SECOND {
        SECOND
    } else if left < MIN_RENEW_INTERVAL {
        left
    } else {
        MIN_RENEW_INTERVAL
    }
}

/// What a mapping is told as.
pub open spec fn snapshot_of(m: Option<ActiveMapping>, now: u64) -> PortMappingSnapshot {
    match m {
        Some(a) => PortMappingSnapshot {
            acquired: true,
            protocol: Some(a.protocol),
            external_addr: Some(a.external_addr),
            lease_remaining: Some(remaining(a, now)),
        },
        None => no_mapping(),
    }
}

impl ActiveMapping {
    fn time_left(&self, now: u64) -> (t: u64)
        ensures
            t == remaining(*self, now),
    {
        if self.expires_at > now {
            self.expires_at - now
        } else {
            0
        }
    }

    /// How long to wait before the mapping is renewed.
    pub fn renewal_delay(&self, now: u64) -> (t: u64)
        ensures
            t == renewal_wait(remaining(*self, now)),
    {
        let left = self.time_left(now);
        let half: u64 = left / 2;
        if half < MIN_RENEW_INTERVAL {
            let wanted: u64 = if left < SECOND {
                SECOND
            } else {
                left
            };
            if wanted < MIN_RENEW_INTERVAL {
                wanted
            } else {
                MIN_RENEW_INTERVAL
            }
        } else {
            half
        }
    }

    /// What the mapping is told as.
    pub fn snapshot(&self, now: u64) -> (s: PortMappingSnapshot)
        ensures
            s == snapshot_of(Some(*self), now),
    {
        PortMappingSnapshot {
            acquired: true,
            protocol: Some(self.protocol),
            external_addr: Some(self.external_addr),
            lease_remaining: Some(self.time_left(now)),
        }
    }
}

/// A mapping is renewed no later than its end, whenever a second or more is left
/// of it, and the wait is never shorter than a second.
pub proof fn renewal_comes_in_time(left: u64)
    ensures
        renewal_wait(left) >= SECOND,
        left >= SECOND ==> renewal_wait(left) <= left,
{
}

/// What the refresh of a mapping does next.
#[derive(Debug, Clone, Copy)]
pub enum RefreshStep {
    Try(PortMappingProtocol),
    Keep(Option<ActiveMapping>),
}

/// Where a refresh begins, and where it goes when a protocol has failed.
pub open spec fn protocol_after(failed: Option<PortMappingProtocol>) -> Option<PortMappingProtocol> {
    match failed {
        None => Some(PortMappingProtocol::UpnpIgd),
        Some(PortMappingProtocol::UpnpIgd) => Some(PortMappingProtocol::NatPmp),
        Some(PortMappingProtocol::NatPmp) => Some(PortMappingProtocol::Pcp),
        Some(PortMappingProtocol::Pcp) => None,
    }
}

/// A mapping that has not ended.
pub open spec fn unexpired(m: Option<ActiveMapping>, now: u64) -> Option<ActiveMapping> {
    match m {
        Some(a) => if a.expires_at > now {
            Some(a)
        } else {
            None
        },
        None => None,
    }
}

/// The mappings of one UDP port.
pub struct PortMappingManager {
    pub local_ip: [u8; 4],
    pub gateway: [u8; 4],
    pub local_port: u16,
    pub active: Option<ActiveMapping>,
    pub first_refresh_done: bool,
}

/// Why there can be no mappings at all.
#[derive(Debug, Clone, Copy, PartialEq, Eq, Structural)]
pub enum PortMappingError {
    ZeroPort,
}

/// The first address of a list that is not a loopback address.
pub open spec fn first_usable(addrs: Seq<[u8; 4]>) -> Option<[u8; 4]>
    decreases addrs.len(),
{
    if addrs.len() == 0 {
        None
    } else if addrs[0]@[0] != 127 {
        Some(addrs[0])
    } else {
        first_usable(addrs.subrange(1, addrs.len() as int))
    }
}

impl PortMappingManager {
    /// Sets out from the default interface and gateway of the machine, as far as
    /// they are known. Without a usable IPv4 address on the interface or with
    /// another gateway than an IPv4 one there are no mappings.
    pub fn discover(
        local_port: u16,
        interface_addrs: Option<&[[u8; 4]]>,
        gateway: Option<IpAddr>,
    ) -> (r: Result<Option<PortMappingManager>, PortMappingError>)
        ensures
            local_port == 0 ==> r == Err::<Option<PortMappingManager>, PortMappingError>(
                PortMappingError::ZeroPort,
            ),
            local_port != 0 ==> r is Ok,
            r is Ok ==> (r->Ok_0 is Some <==> interface_addrs is Some && first_usable(
                interface_addrs->0@,
            ) is Some && gateway is Some && gateway->0 is V4),
            r is Ok && r->Ok_0 is Some ==> r->Ok_0->0 == (PortMappingManager {
                local_ip: first_usable(interface_addrs->0@)->0,
                gateway: gateway->0->V4_0,
                local_port,
                active: None,
                first_refresh_done: false,
            }),
    {
        if local_port == 0 {
            return Err(PortMappingError::ZeroPort);
        }
        let addrs = match interface_addrs {
            Some(a) => a,
            None => {
                return Ok(None);
            },
        };
        let n: usize = addrs.len();
        let mut local_ip: Option<[u8; 4]> = None;
        let mut i: usize = 0;
        assert(addrs@.subrange(0, n as int) =~= addrs@);
        while i < n && local_ip.is_none()
            invariant
                n == addrs@.len(),
                i <= n,
                local_ip is None ==> first_usable(addrs@) == first_usable(
                    addrs@.subrange(i as int, n as int),
                ),
                local_ip is Some ==> local_ip == first_usable(addrs@),
            decreases n - i,
        {
            let ghost rest = addrs@.subrange(i as int, n as int);
            assert(rest[0] == addrs@[i as int]);
            assert(rest.subrange(1, rest.len() as int) =~= addrs@.subrange(i + 1, n as int));
            if addrs[i][0] != 127 {
                local_ip = Some(addrs[i]);
            }
            i += 1;
        }
        let local_ip = match local_ip {
            Some(ip) => ip,
            None => {
                return Ok(None);
            },
        };
        match gateway {
            Some(IpAddr::V4(gateway)) => Ok(
                Some(
                    PortMappingManager {
                        local_ip,
                        gateway,
                        local_port,
                        active: None,
                        first_refresh_done: false,
                    },
                ),
            ),
            _ => Ok(None),
        }
    }

    /// The address that mappings lead to.
    pub fn local_addr(&self) -> (a: SocketAddr)
        ensures
            a == crate::net::v4_addr(self.local_ip, self.local_port),
    {
        SocketAddr::new(IpAddr::V4(self.local_ip), self.local_port)
    }

    /// What the mapping is told as.
    pub fn snapshot(&self, now: u64) -> (s: PortMappingSnapshot)
        ensures
            s == snapshot_of(self.active, now),
    {
        match &self.active {
            Some(m) => m.snapshot(now),
            None => PortMappingSnapshot::default(),
        }
    }

    /// The outside port to ask a protocol for: the one it granted last, or else
    /// the local one.
    pub fn preferred_port(&self, protocol: PortMappingProtocol) -> (p: u16)
        ensures
            p == port_to_ask(*self, protocol),
    {
        match &self.active {
            Some(m) => if m.protocol == protocol {
                m.external_addr.port
            } else {
                self.local_port
            },
            None => self.local_port,
        }
    }

    /// The outside address and port to ask PCP for: those it granted last.
    pub fn preferred_pcp(&self) -> (r: Option<([u8; 4], u16)>)
        ensures
            r is Some <==> self.active is Some && self.active->0.protocol
                == PortMappingProtocol::Pcp && self.active->0.external_addr.ip is V4
                && self.active->0.external_addr.port != 0,
            r is Some ==> r->0 == (
                self.active->0.external_addr.ip->V4_0,
                self.active->0.external_addr.port,
            ),
    {
        match &self.active {
            Some(m) => {
                if m.protocol == PortMappingProtocol::Pcp && m.external_addr.port != 0 {
                    match m.external_addr.ip {
                        IpAddr::V4(o) => Some((o, m.external_addr.port)),
                        IpAddr::V6(_) => None,
                    }
                } else {
                    None
                }
            },
            None => None,
        }
    }

    /// What to do after a protocol was tried, or first of all: keep what was
    /// granted; otherwise try the next protocol; after the last one keep the
    /// mapping there was, unless it has ended.
    pub fn refresh_step(
        &self,
        tried: Option<PortMappingProtocol>,
        granted: Option<ActiveMapping>,
        now: u64,
    ) -> (s: RefreshStep)
        ensures
            s == refresh_decided(self.active, tried, granted, now),
    {
        match tried {
            None => RefreshStep::Try(PortMappingProtocol::UpnpIgd),
            Some(p) => match granted {
                Some(m) => RefreshStep::Keep(Some(m)),
                None => match p {
                    PortMappingProtocol::UpnpIgd => RefreshStep::Try(PortMappingProtocol::NatPmp),
                    PortMappingProtocol::NatPmp => RefreshStep::Try(PortMappingProtocol::Pcp),
                    PortMappingProtocol::Pcp => RefreshStep::Keep(
                        match self.active {
                            Some(m) => if m.expires_at > now {
                                Some(m)
                            } else {
                                None
                            },
                            None => None,
                        },
                    ),
                },
            },
        }
    }

    /// Ends a refresh with what is kept.
    pub fn finish_refresh(&mut self, kept: Option<ActiveMapping>, now: u64) -> (s:
        PortMappingSnapshot)
        ensures
            *final(self) == (PortMappingManager {
                active: kept,
                first_refresh_done: true,
                ..*old(self)
            }),
            s == snapshot_of(kept, now),
    {
        self.active = kept;
        self.first_refresh_done = true;
        self.snapshot(now)
    }

    /// Whether a failed refresh is worth a warning: it is the first one, or
    /// there was a mapping.
    pub fn failure_is_news(&self) -> (r: bool)
        ensures
            r == (!self.first_refresh_done || self.active is Some),
    {
        !self.first_refresh_done || self.active.is_some()
    }

    /// How long to wait before the next refresh.
    pub fn next_refresh(&self, now: u64) -> (t: u64)
        ensures
            t == next_wait(self.active, now),
    {
        match &self.active {
            Some(m) => m.renewal_delay(now),
            None => RETRY_INTERVAL,
        }
    }
}

/// A mapping granted for some seconds from now on.
pub fn granted_mapping(
    protocol: PortMappingProtocol,
    external_ip: [u8; 4],
    external_port: u16,
    lifetime_secs: u32,
    now: u64,
) -> (m: ActiveMapping)
    requires
        now + lifetime_secs * SECOND <= u64::MAX,
    ensures
        m == granted_until(protocol, external_ip, external_port, lifetime_secs, now),
{
    ActiveMapping {
        protocol,
        external_addr: SocketAddr::new(IpAddr::V4(external_ip), external_port),
        expires_at: now + lifetime_secs as u64 * SECOND,
    }
}

/// What to do after a protocol was tried, or first of all.
pub open spec fn refresh_decided(
    active: Option<ActiveMapping>,
    tried: Option<PortMappingProtocol>,
    granted: Option<ActiveMapping>,
    now: u64,
) -> RefreshStep {
    if tried is Some && granted is Some {
        RefreshStep::Keep(granted)
    } else {
        match protocol_after(tried) {
            Some(p) => RefreshStep::Try(p),
            None => RefreshStep::Keep(unexpired(active, now)),
        }
    }
}

/// How long to wait before the next refresh.
pub open spec fn next_wait(active: Option<ActiveMapping>, now: u64) -> u64 {
    match active {
        Some(m) => renewal_wait(remaining(m, now)),
        None => RETRY_INTERVAL,
    }
}

/// The outside port to ask a protocol for.
pub open spec fn port_to_ask(m: PortMappingManager, protocol: PortMappingProtocol) -> u16 {
    if m.active is Some && m.active->0.protocol == protocol {
        m.active->0.external_addr.port
    } else {
        m.local_port
    }
}

/// A mapping granted for some seconds from now on.
pub open spec fn granted_until(
    protocol: PortMappingProtocol,
    external_ip: [u8; 4],
    external_port: u16,
    lifetime_secs: u32,
    now: u64,
) -> ActiveMapping {
    ActiveMapping {
        protocol,
        external_addr: crate::net::v4_addr(external_ip, external_port),
        expires_at: (now + lifetime_secs * SECOND) as u64,
    }
}

/// The protocols are asked one after the other, each once, until one grants a
/// mapping, which is kept. Where none does, the mapping that there was is kept to its
/// end.
pub proof fn protocols_are_asked_in_turn(
    active: Option<ActiveMapping>,
    granted: ActiveMapping,
    tried: PortMappingProtocol,
    now: u64,
)
    ensures
        refresh_decided(active, None, None, now) == RefreshStep::Try(PortMappingProtocol::UpnpIgd),
        refresh_decided(active, Some(PortMappingProtocol::UpnpIgd), None, now) == RefreshStep::Try(
            PortMappingProtocol::NatPmp,
        ),
        refresh_decided(active, Some(PortMappingProtocol::NatPmp), None, now) == RefreshStep::Try(
            PortMappingProtocol::Pcp,
        ),
        refresh_decided(active, Some(tried), Some(granted), now) == RefreshStep::Keep(Some(granted)),
        active is Some && active->0.expires_at > now ==> refresh_decided(
            active,
            Some(PortMappingProtocol::Pcp),
            None,
            now,
        ) == RefreshStep::Keep(active),
        active is None || active->0.expires_at <= now ==> refresh_decided(
            active,
            Some(PortMappingProtocol::Pcp),
            None,
            now,
        ) == RefreshStep::Keep(None),
{
}

/// A mapping is renewed when half of its time is over, but not before thirty seconds
/// are; one with less time left is renewed at its end, or after a second where that is
/// closer. Without a mapping the next attempt comes after a minute.
pub proof fn mappings_are_renewed_at_half_time(m: ActiveMapping, now: u64)
    ensures
        next_wait(None, now) == 60_000_000_000,
        m.expires_at >= now + 60_000_000_000 ==> next_wait(Some(m), now) == (m.expires_at - now) / 2,
        now + 30_000_000_000 <= m.expires_at < now + 60_000_000_000 ==> next_wait(Some(m), now)
            == 30_000_000_000,
        now + 1_000_000_000 <= m.expires_at < now + 30_000_000_000 ==> next_wait(Some(m), now)
            == m.expires_at - now,
        m.expires_at < now + 1_000_000_000 ==> next_wait(Some(m), now) == 1_000_000_000,
{
}

/// A protocol is asked for the port that it granted last; one that granted nothing, for
/// the local one.
pub proof fn the_same_port_is_asked_for_again(
    m: PortMappingManager,
    protocol: PortMappingProtocol,
)
    ensures
        m.active is None ==> port_to_ask(m, protocol) == m.local_port,
        m.active is Some && m.active->0.protocol == protocol ==> port_to_ask(m, protocol)
            == m.active->0.external_addr.port,
        m.active is Some && m.active->0.protocol != protocol ==> port_to_ask(m, protocol)
            == m.local_port,
{
}

/// What is told of a mapping is what was granted: it leads from the address and the port
/// that the router named, and the time that is left shrinks to nothing as the time
/// goes on.
pub proof fn a_granted_mapping_is_told(
    protocol: PortMappingProtocol,
    ip: [u8; 4],
    port: u16,
    secs: u32,
    now: u64,
    later: u64,
)
    requires
        now + secs * 1_000_000_000 <= u64::MAX,
        now <= later,
    ensures
        ({
            let m = granted_until(protocol, ip, port, secs, now);
            let s = snapshot_of(Some(m), later);
            &&& s.acquired
            &&& s.protocol == Some(protocol)
            &&& s.external_addr is Some
            &&& s.external_addr->0.ip == IpAddr::V4(ip)
            &&& s.external_addr->0.port == port
            &&& s.lease_remaining is Some
            &&& later <= now + secs * 1_000_000_000 ==> s.lease_remaining->0 == now + secs
                * 1_000_000_000 - later
            &&& later > now + secs * 1_000_000_000 ==> s.lease_remaining->0 == 0
            &&& mapped_candidate(s) is Some
            &&& mapped_candidate(s)->0.addr == s.external_addr->0
            &&& mapped_candidate(s)->0.kind == CandidateKind::ServerReflexive
            &&& mapped_candidate(s)->0.priority == 90
        }),
        !snapshot_of(None, later).acquired,
        mapped_candidate(snapshot_of(None, later)) is None,
{
}

/// The first address that others can use is the local one.
pub proof fn loopback_addresses_are_passed_over(addrs: Seq<[u8; 4]>, i: int)
    requires
        0 <= i <= addrs.len(),
        forall|j: int| 0 <= j < i ==> (#[trigger] addrs[j])@[0] == 127,
        i < addrs.len() ==> addrs[i]@[0] != 127,
    ensures
        i < addrs.len() ==> first_usable(addrs) == Some(addrs[i]),
        i == addrs.len() ==> first_usable(addrs) is None,
    decreases addrs.len(),
{
    if addrs.len() > 0 && i > 0 {
        assert(addrs[0]@[0] == 127);
        let rest = addrs.subrange(1, addrs.len() as int);
        assert forall|j: int| 0 <= j < i - 1 implies (#[trigger] rest[j])@[0] == 127 by {
            assert(addrs[j + 1]@[0] == 127);
        }
        loopback_addresses_are_passed_over(rest, i - 1);
    }
}

/// Every protocol goes by its usual name.
pub proof fn protocols_have_their_names()
    ensures
        protocol_label(PortMappingProtocol::UpnpIgd) == "UPnP IGD"@,
        protocol_label(PortMappingProtocol::NatPmp) == "NAT-PMP"@,
        protocol_label(PortMappingProtocol::Pcp) == "PCP"@,
{
}

} // verus!
