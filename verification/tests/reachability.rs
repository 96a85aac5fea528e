use r2n::common::{NatType, NodeId};
use r2n::nat_probe::{
    collect_candidates, fingerprint, infer_nat_type, infer_port_delta_pattern,
    merge_mapped_candidate, predict_from_fingerprint, preferred_external_addr,
    unknown_fingerprint, NatFingerprint, Observation,
};
use r2n::net::{IpAddr, SocketAddr};
use r2n::path::{PathManager, PathMetrics};
use r2n::port_mapping::{
    granted_mapping, ActiveMapping, PortMappingManager, PortMappingProtocol, PortMappingSnapshot,
    RefreshStep,
};
use r2n::proto::{Candidate, CandidateKind, CandidateSource};
use r2n::rendezvous::{build_candidate_pairs, choose_upgrade, scores_do_fit, PathScore};
use r2n::stun::{binding_request, public_address};
use r2n::transport::nat_type_of;

const SECOND: u64 = 1_000_000_000;

fn at(octets: [u8; 4], port: u16) -> SocketAddr {
    SocketAddr::new(IpAddr::V4(octets), port)
}

#[test]
fn infer_nat_type_requires_two_observations() {
    let addr = at([1, 2, 3, 4], 12345);
    assert!(matches!(infer_nat_type(&[]), NatType::Unknown));
    assert!(matches!(infer_nat_type(&[addr]), NatType::Unknown));
}

#[test]
fn infer_nat_type_distinguishes_cone_and_symmetric() {
    let addr1 = at([1, 2, 3, 4], 12345);
    let addr2 = at([1, 2, 3, 4], 12345);
    let addr3 = at([1, 2, 3, 4], 23456);
    assert!(matches!(infer_nat_type(&[addr1, addr2]), NatType::Cone));
    assert!(matches!(
        infer_nat_type(&[addr1, addr3]),
        NatType::Symmetric
    ));
}

#[test]
fn merge_mapped_candidate_replaces_previous_mapping_entry() {
    let base = vec![
        Candidate {
            kind: CandidateKind::HostLan,
            source: CandidateSource::LocalInterface,
            addr: at([192, 168, 0, 10], 4000),
            priority: 100,
            rtt_hint_ms: None,
        },
        Candidate {
            kind: CandidateKind::ServerReflexive,
            source: CandidateSource::PortMapping,
            addr: at([1, 1, 1, 1], 5000),
            priority: 90,
            rtt_hint_ms: None,
        },
    ];
    let snapshot = PortMappingSnapshot {
        acquired: true,
        protocol: Some(PortMappingProtocol::UpnpIgd),
        external_addr: Some(at([8, 8, 8, 8], 6000)),
        lease_remaining: Some(120 * SECOND),
    };

    let merged = merge_mapped_candidate(&base, &snapshot);
    let mapped: Vec<_> = merged
        .iter()
        .filter(|candidate| candidate.source == CandidateSource::PortMapping)
        .collect();

    assert_eq!(mapped.len(), 1);
    assert_eq!(mapped[0].addr, snapshot.external_addr.unwrap());
    let fp = unknown_fingerprint();
    assert_eq!(preferred_external_addr(&fp, &merged), snapshot.external_addr);
    assert_eq!(preferred_external_addr(&fp, &base[..1]), None);
}

#[test]
fn test_infer_port_delta_pattern_success() {
    let ip = [1, 2, 3, 4];
    let addrs = vec![at(ip, 50000), at(ip, 50002), at(ip, 50004)];
    let pattern = infer_port_delta_pattern(&addrs);
    assert_eq!(pattern, Some(2));
}

#[test]
fn test_infer_port_delta_pattern_unsorted_success() {
    let ip = [1, 2, 3, 4];
    let addrs = vec![at(ip, 50004), at(ip, 50000), at(ip, 50002)];
    let pattern = infer_port_delta_pattern(&addrs);
    assert_eq!(pattern, Some(2));
}

#[test]
fn test_infer_port_delta_pattern_too_large() {
    let ip = [1, 2, 3, 4];
    let addrs = vec![at(ip, 50000), at(ip, 50100)];
    let pattern = infer_port_delta_pattern(&addrs);
    assert_eq!(pattern, None);
}

#[test]
fn test_predict_from_fingerprint_fallback() {
    let ip = [1, 2, 3, 4];
    let fp = NatFingerprint {
        nat_type: NatType::Symmetric,
        public_addrs: vec![at(ip, 50000), at(ip, 50005)],
        endpoint_independent_mapping: false,
        port_preserving: false,
        port_delta_pattern: None,
        binding_lifetime: 30 * SECOND,
        hairpin_supported: false,
        udp_restricted: false,
    };

    let predicted = predict_from_fingerprint(&fp).unwrap();
    assert!(predicted.contains(&at(ip, 50006)));
    assert!(predicted.contains(&at(ip, 50007)));
    assert!(predicted.contains(&at(ip, 49997)));
}

#[test]
fn a_fingerprint_sums_up_the_answers() {
    let seen = vec![
        Observation { addr: at([1, 2, 3, 4], 4000), rtt: 5 },
        Observation { addr: at([1, 2, 3, 4], 4000), rtt: 2 },
    ];
    let fp = fingerprint(seen, 4000);
    assert!(matches!(fp.nat_type, NatType::Cone));
    assert!(fp.endpoint_independent_mapping);
    assert!(fp.port_preserving);
    let none = fingerprint(vec![], 4000);
    assert!(matches!(none.nat_type, NatType::Unknown));
    assert!(none.public_addrs.is_empty());
}

#[test]
fn candidates_come_from_interfaces_and_servers() {
    let fp = fingerprint(
        vec![
            Observation { addr: at([9, 9, 9, 9], 4000), rtt: 2 },
            Observation { addr: at([9, 9, 9, 9], 4000), rtt: 3 },
        ],
        4000,
    );
    let list = collect_candidates(&[IpAddr::V4([192, 168, 1, 2])], 4000, &fp);
    assert!(list.iter().any(|c| c.addr == at([192, 168, 1, 2], 4000)));
    assert!(list.iter().any(|c| c.addr == at([9, 9, 9, 9], 4000)));
}

#[test]
fn snapshot_view_exposes_expected_fields() {
    let snapshot = PortMappingSnapshot {
        acquired: true,
        protocol: Some(PortMappingProtocol::NatPmp),
        external_addr: Some(at([203, 0, 113, 10], 45678)),
        lease_remaining: Some(321 * SECOND),
    };

    let view = snapshot.view();
    assert!(view.acquired);
    assert_eq!(view.protocol.as_deref(), Some("NAT-PMP"));
    assert_eq!(view.external_addr.as_deref(), Some("203.0.113.10:45678"));
    assert_eq!(view.lease_remaining_secs, Some(321));
}

#[test]
fn protocols_have_their_names() {
    assert_eq!(PortMappingProtocol::UpnpIgd.label(), "UPnP IGD");
    assert_eq!(PortMappingProtocol::NatPmp.label(), "NAT-PMP");
    assert_eq!(PortMappingProtocol::Pcp.label(), "PCP");
}

#[test]
fn a_mapping_is_renewed_before_it_ends() {
    let m = granted_mapping(PortMappingProtocol::Pcp, [1, 2, 3, 4], 5, 600, 0);
    let delay = m.renewal_delay(0);
    assert!(delay > 0);
    assert!(delay < 600 * SECOND);
    assert!(m.snapshot(0).acquired);
    assert_eq!(m.snapshot(0).external_addr, Some(at([1, 2, 3, 4], 5)));
}

#[test]
fn protocols_are_tried_in_turn() {
    let manager = PortMappingManager {
        local_ip: [192, 168, 1, 2],
        gateway: [192, 168, 1, 1],
        local_port: 4000,
        active: None,
        first_refresh_done: false,
    };
    let first = manager.refresh_step(None, None, 0);
    assert!(matches!(first, RefreshStep::Try(PortMappingProtocol::UpnpIgd)));
    let next = manager.refresh_step(Some(PortMappingProtocol::UpnpIgd), None, 0);
    assert!(matches!(next, RefreshStep::Try(_)));
    let granted: ActiveMapping = granted_mapping(PortMappingProtocol::UpnpIgd, [1, 2, 3, 4], 5, 600, 0);
    let done = manager.refresh_step(Some(PortMappingProtocol::UpnpIgd), Some(granted), 0);
    assert!(!matches!(done, RefreshStep::Try(_)));
    assert_eq!(manager.local_addr(), at([192, 168, 1, 2], 4000));
}

fn lan(octets: [u8; 4], port: u16) -> Candidate {
    Candidate {
        kind: CandidateKind::HostLan,
        source: CandidateSource::LocalInterface,
        addr: at(octets, port),
        priority: 100,
        rtt_hint_ms: None,
    }
}

#[test]
fn prefer_lan_pairs() {
    let local = vec![lan([10, 0, 0, 2], 4000)];
    let remote = vec![lan([10, 0, 0, 3], 4001)];

    let pairs = build_candidate_pairs(&local, &remote);
    assert_eq!(pairs.first().expect("pair").score, 240);
}

#[test]
fn pairs_come_best_first() {
    let mut weak = lan([10, 0, 0, 4], 1);
    weak.kind = CandidateKind::Relay;
    weak.priority = 1;
    let pairs = build_candidate_pairs(&[lan([10, 0, 0, 2], 1)], &[weak, lan([10, 0, 0, 3], 1)]);
    let scores: Vec<u32> = pairs.iter().map(|p| p.score).collect();
    assert_eq!(scores, vec![240, 111]);
    let mut huge = lan([10, 0, 0, 5], 1);
    huge.priority = u32::MAX;
    assert!(!scores_do_fit(&[huge], &[huge]));
    assert!(scores_do_fit(&[weak], &[weak]));
}

#[test]
fn a_direct_way_is_preferred_to_a_relay() {
    let score = |addr, rtt, relay| PathScore { addr, rtt, loss_basis_points: 0, relay };
    let direct = at([1, 1, 1, 1], 1);
    let relay = at([2, 2, 2, 2], 2);
    let up = choose_upgrade(
        NodeId([1; 32]),
        Some(relay),
        &[score(relay, Some(1), true), score(direct, Some(900), false)],
    )
    .unwrap();
    assert_eq!(up.preferred, direct);
    assert_eq!(up.relay_fallback, Some(relay));
    assert!(choose_upgrade(NodeId([1; 32]), None, &[]).is_none());
}

#[test]
fn the_best_way_that_answered_of_late_is_taken() {
    let relay = at([2, 2, 2, 2], 2);
    let direct = at([1, 1, 1, 1], 1);
    let mut m = PathManager::new(relay, 0);
    assert!(m.is_active_relay());
    m.add_or_update_path(direct, false, 0);
    let good = PathMetrics { rtt_bits: 1, jitter_bits: 0, loss_bits: 0, score_key: 10 };
    m.record_success(direct, good, SECOND);
    assert_eq!(m.active_addr(), direct);
    let bad = PathMetrics { score_key: 0x7f7f_ffff, ..good };
    m.record_failure(direct, bad, SECOND);
    assert_eq!(m.active_addr(), relay);
    m.record_success(direct, good, 20 * SECOND);
    assert_eq!(m.active_addr(), direct);
}

#[test]
fn a_server_answer_tells_the_public_address() {
    let request = binding_request().unwrap();
    assert!(request.len() >= 20);
    assert_eq!(request[..2], [0, 1]);
    assert_eq!(public_address(&request), None);
    // A binding success that maps to 192.0.2.1:32853.
    let mut answer = vec![0x01, 0x01, 0x00, 0x0c, 0x21, 0x12, 0xa4, 0x42];
    answer.extend_from_slice(&request[8..20]);
    answer.extend_from_slice(&[0x00, 0x20, 0x00, 0x08, 0x00, 0x01, 0xa1, 0x47, 0xe1, 0x12, 0xa6, 0x43]);
    assert_eq!(public_address(&answer), Some(at([192, 0, 2, 1], 32853)));
    assert_eq!(public_address(&[]), None);
}

#[test]
fn two_observations_tell_the_translator() {
    let (a, b) = (at([192, 0, 2, 1], 1), at([192, 0, 2, 1], 2));
    assert!(matches!(nat_type_of(&[a, a, b]), NatType::Cone));
    assert!(matches!(nat_type_of(&[a, b]), NatType::Symmetric));
    assert!(matches!(nat_type_of(&[a]), NatType::Unknown));
}
