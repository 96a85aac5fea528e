use r2n::common::NodeId;
use r2n::metrics::{DiagnosticEngine, MetricsRegistry, PathKind};
use r2n::net::{IpAddr, SocketAddr};
use r2n::proto::DataPacketType;

fn dummy_addr() -> SocketAddr {
    SocketAddr::new(IpAddr::V4([127, 0, 0, 1]), 8080)
}

#[test]
fn metrics_registry_tracks_peer_activity() {
    let mut registry = MetricsRegistry::new();
    let peer = NodeId([7u8; 32]);
    registry.mark_handshake(peer, true);
    registry.mark_path_hit(peer, PathKind::Direct);
    registry.mark_packet_drop(Some(peer));
    registry.update_rtt(peer, Some(42));

    let snapshot = registry.snapshot(0);
    assert_eq!(snapshot.handshake_successes, 1);
    assert_eq!(snapshot.direct_packets, 1);
    assert_eq!(snapshot.packet_drops, 1);
    assert_eq!(snapshot.broadcast_packets, 0);
    assert_eq!(snapshot.peers.len(), 1);
    assert_eq!(snapshot.peers[0].last_rtt_ms, Some(42));
    assert_eq!(snapshot.peers[0].window_failures, 0);

    // Test ping/pong tracking and packet loss rate
    registry.record_ping_sent(peer, 1, dummy_addr(), true, 1_000);
    registry.record_ping_sent(peer, 2, dummy_addr(), true, 1_000);
    registry.record_pong_received(peer, 1, 2_000);
    registry.check_ping_timeouts(0, 3_000);

    let snapshot2 = registry.snapshot(3_000);
    let rate = snapshot2.peers[0].window_failures as f32 / snapshot2.peers[0].window_len as f32;
    assert_eq!(rate, 0.5);
}

#[test]
fn metrics_registry_tracks_discovery_packets() {
    let mut registry = MetricsRegistry::new();

    registry.mark_discovery_packet(DataPacketType::Broadcast);
    registry.mark_discovery_packet(DataPacketType::Multicast);
    registry.mark_discovery_packet(DataPacketType::Ethernet);
    registry.mark_discovery_packet(DataPacketType::IPv4);

    let snapshot = registry.snapshot(0);
    assert_eq!(snapshot.broadcast_packets, 1);
    assert_eq!(snapshot.multicast_packets, 1);
    assert_eq!(snapshot.l2_flood_packets, 1);
}

#[test]
fn a_pong_counts_once_and_tells_where_the_ping_went() {
    let mut registry = MetricsRegistry::new();
    let peer = NodeId([7u8; 32]);
    registry.record_ping_sent(peer, 9, dummy_addr(), true, 5_000_000);
    assert_eq!(
        registry.record_pong_received(peer, 9, 47_000_000),
        Some((dummy_addr(), 42))
    );
    assert_eq!(registry.record_pong_received(peer, 9, 47_000_000), None);
    assert_eq!(registry.record_pong_received(NodeId([8; 32]), 9, 47_000_000), None);
}

#[test]
fn lost_pings_are_told_with_their_addresses() {
    let mut registry = MetricsRegistry::new();
    let peer = NodeId([7u8; 32]);
    registry.record_ping_sent(peer, 1, dummy_addr(), false, 0);
    assert!(registry.check_ping_timeouts(2_000_000_000, 2_000_000_000).is_empty());
    assert_eq!(
        registry.check_ping_timeouts(2_000_000_000, 2_000_000_001),
        vec![(peer, dummy_addr())]
    );
    assert_eq!(registry.snapshot(0).peers[0].window_len, 0);
}

#[test]
fn port_mapping_lease_is_told_in_seconds() {
    let mut registry = MetricsRegistry::new();
    registry.set_port_mapping_status(
        true,
        Some("PCP".to_string()),
        Some("1.2.3.4:5".to_string()),
        Some(10_500_000_000),
    );
    let s = registry.snapshot(1_000_000_000);
    assert!(s.port_mapping_acquired);
    assert_eq!(s.port_mapping_lease_remaining_secs, Some(9));
    assert_eq!(registry.snapshot(20_000_000_000).port_mapping_lease_remaining_secs, Some(0));
}

#[test]
fn a_diagnosis_carries_its_time() {
    assert_eq!(DiagnosticEngine::new().run_diagnosis(1234).timestamp, 1234);
}

#[test]
fn totals_are_the_sums_over_the_peers() {
    let mut registry = MetricsRegistry::new();
    for i in 0..7u8 {
        let peer = NodeId([i % 3; 32]);
        registry.mark_handshake(peer, i % 2 == 0);
        registry.mark_path_hit(peer, if i < 5 { PathKind::Direct } else { PathKind::Relay });
        registry.mark_packet_drop(if i < 4 { Some(peer) } else { None });
    }
    registry.update_rtt(NodeId([9; 32]), Some(1));
    let s = registry.snapshot(0);
    assert_eq!(s.peers.len(), 4);
    assert_eq!(s.handshake_successes, s.peers.iter().map(|p| p.handshake_successes).sum::<u64>());
    assert_eq!(s.handshake_failures, s.peers.iter().map(|p| p.handshake_failures).sum::<u64>());
    assert_eq!(s.direct_packets, s.peers.iter().map(|p| p.direct_hits).sum::<u64>());
    assert_eq!(s.relay_packets, s.peers.iter().map(|p| p.relay_hits).sum::<u64>());
    assert_eq!((s.packet_drops, s.peers.iter().map(|p| p.packet_drops).sum::<u64>()), (7, 4));
}
