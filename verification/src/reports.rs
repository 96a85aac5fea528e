//! What a local client is told of a running edge.

use crate::common::{dotted, NodeId};
use crate::edge::{Edge, EdgeView, PeerState, PeerStateView, RuntimeState, RuntimeView};
use crate::ethernet::secs_since;
use crate::metrics::{failures, peer_map, peer_told, MetricsRegistry, PeerPathMetrics, PeerView};
use crate::proto::views;
use crate::table::{at, at_is, distinct, has_key, viewed, Entry};
use crate::text::hex_text;
use vstd::prelude::*;

verus! {

/// The least that has to fit through the device.
pub const GOOD_MTU: u16 = 1280;

/// How an edge is doing.
#[derive(Debug)]
pub struct StatusReport {
    pub node_id: String,
    pub room_id: String,
    pub status: &'static str,
    pub route_status: &'static str,
    pub last_supernode_activity_secs: Option<u64>,
    pub port_mapping_lease_remaining_secs: u64,
    pub peer_count: usize,
}

/// What is told of a peer. Of the probes of late so many were lost.
#[derive(Debug)]
pub struct PeerReport {
    pub node_id: String,
    pub virtual_ip: String,
    pub nickname: String,
    pub connection: &'static str,
    pub rtt_ms: Option<u32>,
    pub lost: u32,
    pub probes: u32,
}

/// What is told of a peer.
#[verifier::ext_equal]
pub struct PeerReportView {
    pub node_id: Seq<char>,
    pub virtual_ip: Seq<char>,
    pub nickname: Seq<char>,
    pub connection: Seq<char>,
    pub rtt_ms: Option<u32>,
    pub lost: u32,
    pub probes: u32,
}

impl View for PeerReport {
    type V = PeerReportView;

    open spec fn view(&self) -> PeerReportView {
        PeerReportView {
            node_id: self.node_id@,
            virtual_ip: self.virtual_ip@,
            nickname: self.nickname@,
            connection: self.connection@,
            rtt_ms: self.rtt_ms,
            lost: self.lost,
            probes: self.probes,
        }
    }
}

/// How things stand, in words.
pub open spec fn status_words(
    reachable: bool,
    in_room: bool,
    device: bool,
    routed: bool,
) -> Seq<char> {
    if !reachable {
        if in_room {
            "Supernode Unreachable"@
        } else {
            "Waiting for supernode"@
        }
    } else if device && routed {
        "Connected"@
    } else if in_room {
        "Degraded"@
    } else {
        "Disconnected"@
    }
}

/// How things stand, in words.
pub fn status_text(reachable: bool, in_room: bool, device: bool, routed: bool) -> (s: &'static str)
    ensures
        s@ == status_words(reachable, in_room, device, routed),
{
    if !reachable {
        if in_room {
            "Supernode Unreachable"
        } else {
            "Waiting for supernode"
        }
    } else if device && routed {
        "Connected"
    } else if in_room {
        "Degraded"
    } else {
        "Disconnected"
    }
}

/// What is told of a peer, given what was measured of it, if anything was.
pub open spec fn peer_report(p: PeerStateView, m: Option<PeerView>) -> PeerReportView {
    PeerReportView {
        node_id: hex_text(p.info.node_id.0@),
        virtual_ip: dotted(p.info.virtual_ip.0@),
        nickname: p.info.nickname,
        connection: if p.direct_addr is Some {
            "Direct"@
        } else {
            "Relay"@
        },
        rtt_ms: match m {
            Some(v) => v.last_rtt_ms,
            None => None,
        },
        lost: match m {
            Some(v) => failures(v.window) as u32,
            None => 0,
        },
        probes: match m {
            Some(v) => v.window.len() as u32,
            None => 0,
        },
    }
}

/// What was measured of a peer.
pub open spec fn measured(peers: Map<NodeId, PeerView>, id: NodeId) -> Option<PeerView> {
    if peers.dom().contains(id) {
        Some(peers[id])
    } else {
        None
    }
}

fn seconds(past: u64, now: u64) -> (r: u64)
    ensures
        r == secs_since(past, now),
{
    if now > past {
        (now - past) / 1_000_000_000
    } else {
        0
    }
}

impl RuntimeState {
    /// Datagrams come through: the supernode is there, or was.
    pub fn udp_working(&self) -> (r: bool)
        ensures
            r == (self@.supernode_reachable || self@.last_supernode_activity_at is Some),
    {
        self.supernode_reachable || self.last_supernode_activity_at.is_some()
    }

    /// Enough fits through the device.
    pub fn mtu_ok(&self) -> (r: bool)
        ensures
            r == (self@.effective_mtu >= GOOD_MTU),
    {
        self.effective_mtu >= GOOD_MTU
    }

    /// Seconds since the supernode gave a sign of life.
    pub fn activity_secs(&self, now: u64) -> (r: Option<u64>)
        ensures
            r == match self@.last_supernode_activity_at {
                Some(t) => Some(secs_since(t, now)),
                None => None,
            },
    {
        match self.last_supernode_activity_at {
            Some(t) => Some(seconds(t, now)),
            None => None,
        }
    }

    /// Seconds for which the port mapping holds.
    pub fn lease_secs(&self, now: u64) -> (r: u64)
        ensures
            r == match self@.port_mapping_lease_expires_at {
                Some(t) => secs_since(now, t),
                None => 0,
            },
    {
        match self.port_mapping_lease_expires_at {
            Some(t) => seconds(now, t),
            None => 0,
        }
    }
}

impl Edge {
    /// The text of the room, or nothing.
    pub fn room_text(&self) -> (s: String)
        ensures
            s@ == match self@.room {
                Some(r) => hex_text(r.0@),
                None => Seq::empty(),
            },
    {
        match &self.room_id {
            Some(r) => r.to_text(),
            None => String::new(),
        }
    }

    /// How the edge is doing, given whether there is a device.
    pub fn status_report(&self, device: bool, now: u64) -> (r: StatusReport)
        ensures
            r.node_id@ == hex_text(self.node_id.0@),
            r.room_id@ == (match self@.room {
                Some(r) => hex_text(r.0@),
                None => Seq::empty(),
            }),
            r.status@ == status_words(
                self@.runtime.supernode_reachable,
                self@.room is Some,
                device,
                self@.runtime.route_installed,
            ),
            r.route_status@ == (if self@.runtime.route_installed {
                "Installed"@
            } else {
                "Not Installed"@
            }),
            r.last_supernode_activity_secs == (match self@.runtime.last_supernode_activity_at {
                Some(t) => Some(secs_since(t, now)),
                None => None,
            }),
            r.port_mapping_lease_remaining_secs == (match self@.runtime.port_mapping_lease_expires_at {
                Some(t) => secs_since(now, t),
                None => 0,
            }),
            r.peer_count == self@.peers.len(),
    {
        StatusReport {
            node_id: self.node_id.to_text(),
            room_id: self.room_text(),
            status: status_text(
                self.runtime.supernode_reachable,
                self.room_id.is_some(),
                device,
                self.runtime.route_installed,
            ),
            route_status: if self.runtime.route_installed {
                "Installed"
            } else {
                "Not Installed"
            },
            last_supernode_activity_secs: self.runtime.activity_secs(now),
            port_mapping_lease_remaining_secs: self.runtime.lease_secs(now),
            peer_count: self.peers.len(),
        }
    }

    /// What is told of the peers.
    pub fn peers_report(&self, now: u64) -> (r: Vec<PeerReport>)
        requires
            self.wf(),
        ensures
            views(r@) == Seq::new(
                self@.peers.len(),
                |i: int|
                    peer_report(
                        self@.peers[i].value,
                        measured(self@.data.metrics.peers, self@.peers[i].value.info.node_id),
                    ),
            ),
    {
        let all = self.dataplane.metrics.snapshot(now).peers;
        let mut r: Vec<PeerReport> = Vec::new();
        let n: usize = self.peers.len();
        let ghost whole = Seq::new(
            self@.peers.len(),
            |i: int|
                peer_report(
                    self@.peers[i].value,
                    measured(self@.data.metrics.peers, self@.peers[i].value.info.node_id),
                ),
        );
        assert(views(r@) =~= whole.subrange(0, 0));
        for i in 0..n
            invariant
                self.wf(),
                n == self.peers.entries().len(),
                all@ == Seq::new(
                    self.dataplane.metrics.peers.entries().len(),
                    |i: int|
                        peer_told(
                            self.dataplane.metrics.peers.entries()[i].key,
                            self.dataplane.metrics.peers.entries()[i].value@,
                        ),
                ),
                whole == Seq::new(
                    self@.peers.len(),
                    |i: int|
                        peer_report(
                            self@.peers[i].value,
                            measured(self@.data.metrics.peers, self@.peers[i].value.info.node_id),
                        ),
                ),
                views(r@) == whole.subrange(0, i as int),
        {
            let p = &self.peers.nth(i).value;
            let ghost before = views(r@);
            let (rtt_ms, lost, probes): (Option<u32>, u32, u32) = match find_measured(
                &self.dataplane.metrics,
                &all,
                &p.info.node_id,
            ) {
                Some(m) => (m.last_rtt_ms, m.window_failures, m.window_len),
                None => (None, 0, 0),
            };
            r.push(
                PeerReport {
                    node_id: p.info.node_id.to_text(),
                    virtual_ip: p.info.virtual_ip.to_text(),
                    nickname: p.info.nickname.clone(),
                    connection: if p.direct_addr.is_some() {
                        "Direct"
                    } else {
                        "Relay"
                    },
                    rtt_ms,
                    lost,
                    probes,
                },
            );
            assert(views(r@) =~= before.push(whole[i as int]));
            assert(views(r@) =~= whole.subrange(0, i + 1));
        }
        assert(whole.subrange(0, n as int) =~= whole);
        r
    }
}

fn find_measured(metrics: &MetricsRegistry, all: &Vec<PeerPathMetrics>, id: &NodeId) -> (r: Option<
    PeerPathMetrics,
>)
    requires
        metrics.wf(),
        all@ == Seq::new(
            metrics.peers.entries().len(),
            |i: int| peer_told(metrics.peers.entries()[i].key, metrics.peers.entries()[i].value@),
        ),
    ensures
        r == match measured(metrics@.peers, *id) {
            Some(v) => Some(peer_told(*id, v)),
            None => None,
        },
{
    let n: usize = all.len();
    let ghost entries = metrics.peers.entries();
    proof {
        metrics.peers.keys_distinct();
    }
    for i in 0..n
        invariant
            n == all@.len(),
            n == entries.len(),
            distinct(entries),
            metrics@.peers == peer_map(entries),
            all@ == Seq::new(n as nat, |i: int| peer_told(entries[i].key, entries[i].value@)),
            forall|k: int| 0 <= k < i ==> #[trigger] entries[k].key != *id,
    {
        assert(all@[i as int] == peer_told(entries[i as int].key, entries[i as int].value@));
        if all[i].peer == *id {
            proof {
                at_is(entries, i as int);
            }
            return Some(all[i]);
        }
    }
    None
}

/// How a node says that it is: connected only if the supernode is there, and device and
/// route are; without the supernode it says what it waits for.
pub proof fn connected_is_said_where_it_is_true(
    reachable: bool,
    in_room: bool,
    device: bool,
    routed: bool,
)
    ensures
        status_words(reachable, in_room, device, routed) == "Connected"@ <==> reachable && device
            && routed,
        !reachable && in_room ==> status_words(reachable, in_room, device, routed)
            == "Supernode Unreachable"@,
        !reachable && !in_room ==> status_words(reachable, in_room, device, routed)
            == "Waiting for supernode"@,
        reachable && in_room && !(device && routed) ==> status_words(
            reachable,
            in_room,
            device,
            routed,
        ) == "Degraded"@,
        reachable && !in_room && !(device && routed) ==> status_words(
            reachable,
            in_room,
            device,
            routed,
        ) == "Disconnected"@,
{
    reveal_strlit("Connected");
    reveal_strlit("Supernode Unreachable");
    reveal_strlit("Waiting for supernode");
    reveal_strlit("Degraded");
    reveal_strlit("Disconnected");
    assert("Connected"@.len() == 9);
    assert("Supernode Unreachable"@.len() == 21);
    assert("Waiting for supernode"@.len() == 21);
    assert("Degraded"@.len() == 8);
    assert("Disconnected"@.len() == 12);
}

/// What is told of a peer: who it is, whether it is reached directly, how long a probe
/// took last, how many probes there were and how many were lost.
pub proof fn peers_are_told_as_they_are(p: PeerStateView, m: Option<PeerView>)
    requires
        m is Some ==> m->0.window.len() <= 20,
    ensures
        ({
            let r = peer_report(p, m);
            &&& crate::text::hex_bytes(r.node_id) == p.info.node_id.0@
            &&& r.virtual_ip == dotted(p.info.virtual_ip.0@)
            &&& r.nickname == p.info.nickname
            &&& p.direct_addr is Some ==> r.connection == "Direct"@
            &&& p.direct_addr is None ==> r.connection == "Relay"@
            &&& m is Some ==> r.rtt_ms == m->0.last_rtt_ms && r.probes == m->0.window.len()
                && r.lost == failures(m->0.window) && r.lost <= r.probes
            &&& m is None ==> r.rtt_ms is None && r.probes == 0 && r.lost == 0
        }),
{
    crate::text::hex_text_round_trip(p.info.node_id.0@);
    if m is Some {
        crate::metrics::a_peer_is_told_as_it_was_counted(p.info.node_id, m->0);
    }
}

} // verus!
