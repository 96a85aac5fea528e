use r2n::discovery::{DiscoveryConfig, DiscoveryManager};
use r2n::proto::DataPacketType;

fn make_mock_ipv4(src: [u8; 4], dest: [u8; 4], udp_dst_port: Option<u16>) -> Vec<u8> {
    let len = if udp_dst_port.is_some() { 28 } else { 20 };
    let mut pkt = vec![0u8; len];
    pkt[0] = 0x45; // Version 4, IHL 5
    pkt[2] = 0x00;
    pkt[3] = len as u8;
    pkt[8] = 64; // TTL
    pkt[9] = 17; // Protocol UDP
    pkt[12..16].copy_from_slice(&src);
    pkt[16..20].copy_from_slice(&dest);
    if let Some(port) = udp_dst_port {
        pkt[22..24].copy_from_slice(&port.to_be_bytes());
    }
    pkt
}

#[test]
fn test_classify_packet() {
    // Standard broadcast
    let pkt = make_mock_ipv4([10, 77, 0, 5], [255, 255, 255, 255], None);
    assert_eq!(
        DiscoveryManager::classify_packet(&pkt),
        Some(DataPacketType::Broadcast)
    );

    // Subnet broadcast /24
    let pkt = make_mock_ipv4([10, 77, 0, 5], [10, 77, 0, 255], None);
    assert_eq!(
        DiscoveryManager::classify_packet(&pkt),
        Some(DataPacketType::Broadcast)
    );

    // Subnet broadcast /16
    let pkt = make_mock_ipv4([10, 77, 0, 5], [10, 77, 255, 255], None);
    assert_eq!(
        DiscoveryManager::classify_packet(&pkt),
        Some(DataPacketType::Broadcast)
    );

    // Multicast
    let pkt = make_mock_ipv4([10, 77, 0, 5], [224, 0, 0, 251], None);
    assert_eq!(
        DiscoveryManager::classify_packet(&pkt),
        Some(DataPacketType::Multicast)
    );

    // Regular unicast
    let pkt = make_mock_ipv4([10, 77, 0, 5], [10, 77, 0, 6], None);
    assert_eq!(DiscoveryManager::classify_packet(&pkt), None);
}

#[test]
fn test_specific_discovery_protocols_can_be_enabled_without_generic_multicast() {
    let config = DiscoveryConfig {
        multicast: false,
        ..DiscoveryConfig::default()
    };

    let mdns = make_mock_ipv4([10, 77, 0, 5], [224, 0, 0, 251], Some(5353));
    assert_eq!(
        DiscoveryManager::classify_packet_with_config(&mdns, &config),
        Some(DataPacketType::Multicast)
    );

    let ssdp = make_mock_ipv4([10, 77, 0, 5], [239, 255, 255, 250], Some(1900));
    assert_eq!(
        DiscoveryManager::classify_packet_with_config(&ssdp, &config),
        Some(DataPacketType::Multicast)
    );

    let unknown_multicast = make_mock_ipv4([10, 77, 0, 5], [239, 1, 2, 3], Some(9999));
    assert_eq!(
        DiscoveryManager::classify_packet_with_config(&unknown_multicast, &config),
        None
    );
}

#[test]
fn test_netbios_can_be_enabled_without_generic_broadcast() {
    let config = DiscoveryConfig {
        broadcast: false,
        subnet_broadcast: false,
        netbios: true,
        ..DiscoveryConfig::default()
    };

    let netbios = make_mock_ipv4([10, 77, 0, 5], [255, 255, 255, 255], Some(137));
    assert_eq!(
        DiscoveryManager::classify_packet_with_config(&netbios, &config),
        Some(DataPacketType::Broadcast)
    );

    let other_broadcast = make_mock_ipv4([10, 77, 0, 5], [255, 255, 255, 255], Some(9999));
    assert_eq!(
        DiscoveryManager::classify_packet_with_config(&other_broadcast, &config),
        None
    );
}

#[test]
fn routes_follow_the_configuration() {
    assert_eq!(
        DiscoveryManager::new().route_cidrs(),
        vec!["224.0.0.0/4", "255.255.255.255/32"]
    );
    let none = DiscoveryConfig {
        broadcast: false,
        multicast: false,
        mdns: false,
        ssdp: false,
        netbios: false,
        ..DiscoveryConfig::default()
    };
    assert!(DiscoveryManager::with_config(none).route_cidrs().is_empty());
}

#[test]
fn the_rate_is_bounded() {
    let config = DiscoveryConfig { rate_limit_pps: 3, ..DiscoveryConfig::default() };
    let manager = DiscoveryManager::with_config(config);
    let let_through = (0..50).filter(|_| manager.allow_broadcast()).count();
    assert!(let_through >= 1);
    assert!(let_through < 50);
}

#[test]
fn bytes_that_are_no_packet_are_not_flooded() {
    assert_eq!(DiscoveryManager::classify_packet(&[]), None);
    assert_eq!(DiscoveryManager::classify_packet(&[0x45; 10]), None);
}
