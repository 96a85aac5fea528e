use r2n::common::{NodeId, PacketId, RoomId, SessionId, VirtualIp};
use r2n::crypto::Cipher;
use r2n::dataplane::{DataPeer, DataPlane, SendError, FLOOD_TTL, MAX_DATAPLANE_PAYLOAD};
use r2n::discovery::DiscoveryManager;
use r2n::ethernet::{format_mac, Mac};
use r2n::incoming::{Incoming, IncomingError};
use r2n::metrics::MetricsRegistry;
use r2n::net::{IpAddr, SocketAddr};
use r2n::outgoing::{PacketTarget, TunStep};
use r2n::path::{PathManager, PathMetrics};
use r2n::policy::{
    TrafficAction, TrafficDirection, TrafficPolicy, TrafficProtocol, TrafficRule,
};
use r2n::proto::{DataHeader, DataPacketType, PeerInfo, DATA_HEADER_SIZE, PROTOCOL_VERSION};
use r2n::rewrite::{prepare_packet_for_local_tun, rewrite_ipv4_destination};
use r2n::tun::TunDeviceMode;

const SECOND: u64 = 1_000_000_000;

fn at(port: u16) -> SocketAddr {
    SocketAddr::new(IpAddr::V4([127, 0, 0, 1]), port)
}

fn direct() -> PathMetrics {
    PathMetrics { rtt_bits: 0x4120_0000, jitter_bits: 0, loss_bits: 0, score_key: 0x4120_0000 }
}

fn test_dataplane(local_id: NodeId, room_id: RoomId) -> DataPlane {
    let mut dataplane =
        DataPlane::new(local_id, DiscoveryManager::new(), MetricsRegistry::new(), 1280);
    dataplane.set_room_id(Some(room_id));
    dataplane
}

fn peer(node_id: NodeId, virtual_ip: [u8; 4], cipher: Option<Cipher>) -> DataPeer {
    let peer_info = PeerInfo {
        node_id,
        public_key: [0; 32],
        virtual_ip: VirtualIp(virtual_ip),
        nickname: "test_peer".to_string(),
    };
    DataPeer::new(peer_info, PathManager::new(at(9999), 0), cipher, SessionId(0), 0)
}

fn add_test_peer(dataplane: &mut DataPlane, node_id: NodeId, virtual_ip: [u8; 4]) {
    dataplane.upsert_peer(peer(node_id, virtual_ip, None));
}

fn test_header(
    packet_type: DataPacketType,
    room_id: RoomId,
    src_node: NodeId,
    dst_node: NodeId,
) -> DataHeader {
    DataHeader {
        version: PROTOCOL_VERSION,
        flags: 0,
        packet_type,
        reserved: 0,
        ttl: 0,
        room_id,
        src_node,
        dst_node,
        origin_node: src_node,
        session_id: SessionId(0),
        nonce: 0,
        packet_id: PacketId(0),
        payload_len: 0,
    }
}

fn ethernet_frame(dst: [u8; 6], src: [u8; 6]) -> [u8; 14] {
    let mut frame = [0u8; 14];
    frame[0..6].copy_from_slice(&dst);
    frame[6..12].copy_from_slice(&src);
    frame[12..14].copy_from_slice(&[0x08, 0x00]);
    frame
}

fn build_ipv4_udp_packet(src: [u8; 4], dst: [u8; 4], payload: &[u8]) -> Vec<u8> {
    let udp = etherparse::UdpHeader::without_ipv4_checksum(39082, 39082, payload.len()).unwrap();
    let mut ipv4 = etherparse::Ipv4Header::new(
        (8 + payload.len()) as u16,
        64,
        etherparse::ip_number::UDP,
        src,
        dst,
    );
    ipv4.header_checksum = ipv4.calc_header_checksum().unwrap();

    let mut udp = udp;
    udp.checksum = udp.calc_checksum_ipv4(&ipv4, payload).unwrap();

    let mut bytes = Vec::new();
    ipv4.write_raw(&mut bytes).unwrap();
    bytes.extend_from_slice(&udp.to_bytes());
    bytes.extend_from_slice(payload);
    bytes
}

#[test]
fn rewrite_ipv4_destination_updates_ip_and_udp_checksum() {
    let mut packet = build_ipv4_udp_packet(
        [10, 77, 0, 2],
        [10, 77, 0, 255],
        br#"{"kind":"r2n-discovery"}"#,
    );

    rewrite_ipv4_destination(&mut packet, [10, 77, 0, 1]).unwrap();

    let ipv4 = etherparse::Ipv4HeaderSlice::from_slice(&packet).unwrap();
    assert_eq!(ipv4.destination(), [10, 77, 0, 1]);

    let udp_offset = ipv4.slice().len();
    let udp = etherparse::UdpHeaderSlice::from_slice(&packet[udp_offset..]).unwrap();
    let payload = &packet[udp_offset + 8..];
    let expected_udp_checksum = udp
        .to_header()
        .calc_checksum_ipv4_raw(ipv4.source(), ipv4.destination(), payload)
        .unwrap();
    assert_eq!(udp.checksum(), expected_udp_checksum);

    let expected_ip_checksum = ipv4.to_header().calc_header_checksum().unwrap();
    assert_eq!(ipv4.header_checksum(), expected_ip_checksum);
}

#[test]
fn rewriting_updates_the_checksum_of_a_segment() {
    let tcp = etherparse::TcpHeader::new(1000, 2000, 7, 100);
    let mut ipv4 = etherparse::Ipv4Header::new(
        23,
        64,
        etherparse::ip_number::TCP,
        [10, 77, 0, 2],
        [10, 77, 0, 255],
    );
    ipv4.header_checksum = ipv4.calc_header_checksum().unwrap();
    let mut packet = Vec::new();
    ipv4.write_raw(&mut packet).unwrap();
    tcp.write(&mut packet).unwrap();
    packet.extend_from_slice(b"abc");
    rewrite_ipv4_destination(&mut packet, [10, 77, 0, 1]).unwrap();
    let seen = etherparse::TcpHeaderSlice::from_slice(&packet[20..]).unwrap();
    let expected = seen
        .calc_checksum_ipv4_raw([10, 77, 0, 2], [10, 77, 0, 1], b"abc")
        .unwrap();
    assert_eq!(seen.checksum(), expected);
    assert_ne!(seen.checksum(), 0);
}

#[test]
fn what_cannot_be_rewritten_is_told() {
    let mut short = [0x45u8; 10];
    assert!(rewrite_ipv4_destination(&mut short, [1, 2, 3, 4]).is_none());
    assert_eq!(short, [0x45u8; 10]);
    let mut packet = build_ipv4_udp_packet([10, 77, 0, 2], [10, 77, 0, 255], b"x");
    let kept = packet.clone();
    assert!(rewrite_ipv4_destination(&mut packet, [10, 77, 0, 255]).is_some());
    assert_eq!(packet, kept);
    packet.truncate(24);
    assert!(rewrite_ipv4_destination(&mut packet, [10, 77, 0, 1]).is_none());
    assert_eq!(packet[16..20], [10, 77, 0, 1]);
}

#[test]
fn only_broadcasts_are_redirected_and_only_where_needed() {
    let start = build_ipv4_udp_packet([10, 77, 0, 2], [10, 77, 0, 255], b"x");
    let mut p = start.clone();
    prepare_packet_for_local_tun(&mut p, DataPacketType::Broadcast, Some([10, 77, 0, 1]), false);
    assert_eq!(p, start);
    prepare_packet_for_local_tun(&mut p, DataPacketType::IPv4, Some([10, 77, 0, 1]), true);
    assert_eq!(p, start);
    prepare_packet_for_local_tun(&mut p, DataPacketType::Broadcast, Some([10, 77, 0, 1]), true);
    assert_eq!(p[16..20], [10, 77, 0, 1]);
}

#[test]
fn test_peer_reflexive_candidate_learning() {
    let local_id = NodeId([1; 32]);
    let remote_id = NodeId([2; 32]);
    let room_id = RoomId([1; 16]);
    let mut dataplane =
        DataPlane::new(local_id, DiscoveryManager::new(), MetricsRegistry::new(), 1400);
    dataplane.set_room_id(Some(room_id));
    add_test_peer(&mut dataplane, remote_id, [10, 77, 0, 2]);

    let reflexive_addr = at(12345);
    let header = test_header(DataPacketType::Ping, room_id, remote_id, local_id);

    let mut payload = [];
    let done = dataplane
        .handle_incoming_frame(&header, &mut payload, reflexive_addr, direct(), 0)
        .unwrap();
    assert!(matches!(done, Incoming::Answer(Ok(_))));

    let learned = dataplane
        .peers
        .get(&remote_id)
        .unwrap()
        .path_manager
        .paths
        .iter()
        .any(|p| p.addr == reflexive_addr);
    assert!(learned, "Should have learned reflexive candidate");
}

#[test]
fn incoming_header_validation_drops_wrong_room_dst_origin_and_duplicates() {
    let local_id = NodeId([1; 32]);
    let remote_id = NodeId([2; 32]);
    let other_id = NodeId([3; 32]);
    let room_id = RoomId([9; 16]);
    let mut dataplane = test_dataplane(local_id, room_id);

    let mut wrong_room = test_header(DataPacketType::IPv4, RoomId([8; 16]), remote_id, local_id);
    assert!(!dataplane.validate_incoming_header(&wrong_room, 0));

    let wrong_dst = test_header(DataPacketType::IPv4, room_id, remote_id, other_id);
    assert!(!dataplane.validate_incoming_header(&wrong_dst, 0));

    let mut origin_self = test_header(DataPacketType::IPv4, room_id, remote_id, local_id);
    origin_self.origin_node = local_id;
    assert!(!dataplane.validate_incoming_header(&origin_self, 0));

    let mut flood = test_header(DataPacketType::Broadcast, room_id, remote_id, local_id);
    flood.ttl = FLOOD_TTL;
    flood.packet_id = PacketId(77);
    assert!(dataplane.validate_incoming_header(&flood, 0));
    assert!(!dataplane.validate_incoming_header(&flood, 0));

    wrong_room.version = PROTOCOL_VERSION.wrapping_sub(1);
    wrong_room.room_id = room_id;
    assert!(!dataplane.validate_incoming_header(&wrong_room, 0));
    assert_eq!(dataplane.metrics.snapshot(0).packet_drops, 5);
}

#[test]
fn flood_packet_types_require_ttl_and_packet_id() {
    let local_id = NodeId([1; 32]);
    let remote_id = NodeId([2; 32]);
    let room_id = RoomId([9; 16]);
    let mut dataplane = test_dataplane(local_id, room_id);

    let mut no_ttl = test_header(DataPacketType::Multicast, room_id, remote_id, local_id);
    no_ttl.packet_id = PacketId(88);
    assert!(!dataplane.validate_incoming_header(&no_ttl, 0));

    let mut no_packet_id = test_header(DataPacketType::Broadcast, room_id, remote_id, local_id);
    no_packet_id.ttl = FLOOD_TTL;
    assert!(!dataplane.validate_incoming_header(&no_packet_id, 0));

    let ethernet_unicast = test_header(DataPacketType::Ethernet, room_id, remote_id, local_id);
    assert!(dataplane.validate_incoming_header(&ethernet_unicast, 0));
}

#[test]
fn a_flooded_packet_is_taken_again_once_forgotten() {
    let mut dataplane = test_dataplane(NodeId([1; 32]), RoomId([9; 16]));
    let mut flood =
        test_header(DataPacketType::Broadcast, RoomId([9; 16]), NodeId([2; 32]), NodeId([1; 32]));
    flood.ttl = FLOOD_TTL;
    flood.packet_id = PacketId(77);
    assert!(dataplane.validate_incoming_header(&flood, 0));
    assert!(!dataplane.validate_incoming_header(&flood, 30 * SECOND));
    assert!(dataplane.validate_incoming_header(&flood, 30 * SECOND + 1));
}

#[test]
fn a_flooded_packet_is_taken_again_once_many_came_since() {
    let mut dataplane = test_dataplane(NodeId([1; 32]), RoomId([9; 16]));
    let mut flood =
        test_header(DataPacketType::Broadcast, RoomId([9; 16]), NodeId([2; 32]), NodeId([1; 32]));
    flood.ttl = FLOOD_TTL;
    for id in 1..=4096u64 {
        flood.packet_id = PacketId(id);
        assert!(dataplane.validate_incoming_header(&flood, id));
    }
    flood.packet_id = PacketId(1);
    assert!(!dataplane.validate_incoming_header(&flood, 4097));
    flood.packet_id = PacketId(5000);
    assert!(dataplane.validate_incoming_header(&flood, 4098));
    flood.packet_id = PacketId(1);
    assert!(dataplane.validate_incoming_header(&flood, 4099));
}

#[test]
fn l2_switching_selects_flood_and_known_unicast_targets() {
    let local_id = NodeId([1; 32]);
    let peer_a = NodeId([2; 32]);
    let peer_b = NodeId([3; 32]);
    let room_id = RoomId([9; 16]);
    let mut dataplane = test_dataplane(local_id, room_id);
    add_test_peer(&mut dataplane, peer_a, [10, 77, 0, 2]);
    add_test_peer(&mut dataplane, peer_b, [10, 77, 0, 3]);

    let src_mac = [0x02, 0, 0, 0, 0, 1];
    let known_mac = [0x02, 0, 0, 0, 0, 2];
    let unknown_mac = [0x02, 0, 0, 0, 0, 99];

    let broadcast = ethernet_frame([0xff; 6], src_mac);
    let broadcast_targets = dataplane.select_l2_targets(&broadcast, 0);
    assert_eq!(broadcast_targets.len(), 2);
    assert!(broadcast_targets.iter().all(|target| target.flood));

    let multicast = ethernet_frame([0x01, 0x00, 0x5e, 0, 0, 1], src_mac);
    let multicast_targets = dataplane.select_l2_targets(&multicast, 0);
    assert_eq!(multicast_targets.len(), 2);
    assert!(multicast_targets.iter().all(|target| target.flood));

    let unknown = ethernet_frame(unknown_mac, src_mac);
    let unknown_targets = dataplane.select_l2_targets(&unknown, 0);
    assert_eq!(unknown_targets.len(), 2);
    assert!(unknown_targets.iter().all(|target| target.flood));

    dataplane.learn_mac(Mac(known_mac), peer_a, 0);
    let known = ethernet_frame(known_mac, src_mac);
    let known_targets = dataplane.select_l2_targets(&known, 0);
    assert_eq!(known_targets.len(), 1);
    assert!(!known_targets[0].flood);
    assert_eq!(known_targets[0].node_id, peer_a);

    dataplane.remove_peer(&peer_a);
    assert!(dataplane.mac_table.peer_of(&Mac(known_mac)).is_none());
}

#[test]
fn addresses_are_forgotten_when_they_are_not_seen() {
    let mut dataplane = test_dataplane(NodeId([1; 32]), RoomId([9; 16]));
    dataplane.learn_mac(Mac([2, 0, 0, 0, 0, 0xab]), NodeId([2; 32]), SECOND);
    let told = dataplane.l2_table_snapshot(11 * SECOND);
    assert_eq!(told.len(), 1);
    assert_eq!(told[0].mac, "02:00:00:00:00:ab");
    assert_eq!((told[0].learned_for_secs, told[0].idle_for_secs), (10, 10));
    assert_eq!(dataplane.l2_table_snapshot(301 * SECOND).len(), 1);
    assert!(dataplane.l2_table_snapshot(301 * SECOND + 1).is_empty());
    assert_eq!(format_mac(&Mac([0xff; 6])), "ff:ff:ff:ff:ff:ff");
}

#[test]
fn a_full_table_gives_up_its_oldest_address() {
    let mut dataplane = test_dataplane(NodeId([1; 32]), RoomId([9; 16]));
    for i in 0..4097u32 {
        let b = i.to_be_bytes();
        dataplane.learn_mac(Mac([2, 0, b[0], b[1], b[2], b[3]]), NodeId([2; 32]), 1 + i as u64);
    }
    assert_eq!(dataplane.mac_table.macs.len(), 4096);
    assert!(dataplane.mac_table.peer_of(&Mac([2, 0, 0, 0, 0, 0])).is_none());
    assert!(dataplane.mac_table.peer_of(&Mac([2, 0, 0, 0, 0, 1])).is_some());
}

fn pair() -> (DataPlane, DataPlane) {
    let room = RoomId([9; 16]);
    let (a, b) = (NodeId([1; 32]), NodeId([2; 32]));
    let mut left = test_dataplane(a, room);
    let mut right = test_dataplane(b, room);
    left.upsert_peer(peer(b, [10, 77, 0, 2], Some(Cipher::new(&[5; 32]))));
    right.upsert_peer(peer(a, [10, 77, 0, 1], Some(Cipher::new(&[5; 32]))));
    left.peers.value_mut(0).next_nonce = 1;
    (left, right)
}

fn receive(right: &mut DataPlane, frame: &[u8]) -> (Result<Incoming, IncomingError>, Vec<u8>) {
    let header = DataHeader::decode(frame).unwrap();
    let mut payload = frame[DATA_HEADER_SIZE..].to_vec();
    let done = right.handle_incoming_frame(&header, &mut payload, at(5000), direct(), 0);
    (done, payload)
}

#[test]
fn a_packet_comes_out_as_it_went_in_and_only_once() {
    let (mut left, mut right) = pair();
    let packet = build_ipv4_udp_packet([10, 77, 0, 1], [10, 77, 0, 2], b"hello");
    let out = left
        .send_to_peer(NodeId([2; 32]), DataPacketType::IPv4, &packet, None, false)
        .unwrap();
    assert_eq!(out.target, at(9999));
    let frame = left.frame_bytes(&out.desc).to_vec();
    assert_eq!(frame.len(), DATA_HEADER_SIZE + packet.len() + 16);
    left.frame_sent(out.desc);
    assert_eq!(left.slab.available(), 4096);

    let (done, payload) = receive(&mut right, &frame);
    match done {
        Ok(Incoming::Deliver { len }) => assert_eq!(&payload[..len], &packet[..]),
        other => panic!("unexpected: {other:?}"),
    }
    let (again, _) = receive(&mut right, &frame);
    assert!(matches!(again, Err(IncomingError::Decrypt)));
    let mut forged = frame;
    forged[7] = 1;
    let (changed, _) = receive(&mut right, &forged);
    assert!(matches!(changed, Err(IncomingError::Decrypt)));
}

#[test]
fn pings_are_answered_and_measured() {
    let (mut left, mut right) = pair();
    let probes = left.probes();
    assert_eq!(probes.len(), 1);
    assert!(probes[0].is_active);
    let out = left.send_ping(&probes[0], 1_000_000).unwrap();
    let frame = left.frame_bytes(&out.desc).to_vec();
    let (done, _) = receive(&mut right, &frame);
    let answer = match done {
        Ok(Incoming::Answer(Ok(out))) => out,
        other => panic!("unexpected: {other:?}"),
    };
    assert_eq!(answer.target, at(5000));
    let reply = right.frame_bytes(&answer.desc).to_vec();
    let header = DataHeader::decode(&reply).unwrap();
    assert_eq!(header.packet_type, DataPacketType::Pong);
    left.peers.value_mut(0).cipher = None;
    let mut plain = 0u32.to_be_bytes().to_vec();
    let measured = left
        .handle_incoming_frame(&header, &mut plain, at(9999), direct(), 8_000_000)
        .unwrap();
    match measured {
        Incoming::Measured { addr, rtt_ms } => assert_eq!((addr, rtt_ms), (at(9999), 7)),
        other => panic!("unexpected: {other:?}"),
    }
    let mut again = 0u32.to_be_bytes().to_vec();
    let second = left
        .handle_incoming_frame(&header, &mut again, at(9999), direct(), 8_000_000)
        .unwrap();
    assert!(matches!(second, Incoming::Unexpected));
}

#[test]
fn lost_pings_are_told() {
    let (mut left, _) = pair();
    let probes = left.probes();
    left.send_ping(&probes[0], 0).unwrap();
    assert!(left.lost_pings(2 * SECOND).is_empty());
    assert_eq!(left.lost_pings(2 * SECOND + 1), vec![(NodeId([2; 32]), at(9999))]);
    left.set_room_id(None);
    assert!(left.probes().is_empty());
    assert!(left.lost_pings(9 * SECOND).is_empty());
}

#[test]
fn frames_that_cannot_be_made_are_told() {
    let (mut left, _) = pair();
    let to = NodeId([2; 32]);
    let send = |d: &mut DataPlane, to, p: &[u8]| {
        d.send_to_peer(to, DataPacketType::IPv4, p, None, false).err()
    };
    assert_eq!(send(&mut left, NodeId([7; 32]), &[0; 4]), Some(SendError::UnknownPeer));
    assert_eq!(
        send(&mut left, to, &[0; MAX_DATAPLANE_PAYLOAD + 1]),
        Some(SendError::TooLarge)
    );
    assert_eq!(send(&mut left, to, &[0; MAX_DATAPLANE_PAYLOAD]), None);
    while left.slab.available() > 0 {
        assert_eq!(send(&mut left, to, &[0; 4]), None);
    }
    assert_eq!(send(&mut left, to, &[0; 4]), Some(SendError::Exhausted));
    left.set_room_id(None);
    assert_eq!(send(&mut left, to, &[0; 4]), Some(SendError::NoRoom));
}

#[test]
fn packets_of_the_device_find_their_peer() {
    let (mut left, _) = pair();
    let mut packet = build_ipv4_udp_packet([10, 77, 0, 1], [10, 77, 0, 2], b"hello");
    assert!(left.can_take(TunDeviceMode::Tun, &packet));
    match left.take_from_tun(TunDeviceMode::Tun, &mut packet, 0) {
        TunStep::Route { packet_type, targets, flood } => {
            assert_eq!(packet_type, DataPacketType::IPv4);
            assert!(!flood);
            assert_eq!(targets.len(), 1);
            assert_eq!(targets[0].node_id, NodeId([2; 32]));
        }
        other => panic!("unexpected: {other:?}"),
    }
    let mut stray = build_ipv4_udp_packet([10, 77, 0, 1], [10, 77, 0, 9], b"hello");
    match left.take_from_tun(TunDeviceMode::Tun, &mut stray, 0) {
        TunStep::Route { targets, .. } => assert!(targets.is_empty()),
        other => panic!("unexpected: {other:?}"),
    }
    let mut all = build_ipv4_udp_packet([10, 77, 0, 1], [255, 255, 255, 255], b"hello");
    match left.take_from_tun(TunDeviceMode::Tun, &mut all, 0) {
        TunStep::Route { packet_type, targets, flood } => {
            assert_eq!(packet_type, DataPacketType::Broadcast);
            assert!(flood);
            assert_eq!(targets.len(), 1);
            assert!(!left.goes_on(packet_type, flood, false));
            assert!(left.goes_on(packet_type, flood, true));
            assert_eq!(left.metrics.snapshot(0).broadcast_packets, 1);
        }
        other => panic!("unexpected: {other:?}"),
    }
}

#[test]
fn large_packets_are_answered() {
    let (mut left, _) = pair();
    let mut packet = build_ipv4_udp_packet([10, 77, 0, 1], [10, 77, 0, 2], &[0; 1300]);
    packet[6] = 0x40;
    match left.take_from_tun(TunDeviceMode::Tun, &mut packet, 0) {
        TunStep::Answer(answer) => {
            assert_eq!(answer[9], 1);
            assert_eq!((answer[20], answer[21]), (3, 4));
            assert_eq!(u16::from_be_bytes([answer[26], answer[27]]), 1280);
        }
        other => panic!("unexpected: {other:?}"),
    }
}

fn deny_all() -> TrafficPolicy {
    TrafficPolicy {
        rules: vec![TrafficRule {
            id: "deny-all".to_string(),
            enabled: true,
            action: TrafficAction::Deny,
            direction: TrafficDirection::Both,
            src_cidr: None,
            dst_cidr: None,
            protocol: TrafficProtocol::Any,
            src_ports: Vec::new(),
            dst_ports: Vec::new(),
            description: None,
        }],
        ..TrafficPolicy::default()
    }
}

#[test]
fn the_policy_holds_both_ways() {
    let (mut left, mut right) = pair();
    let packet = build_ipv4_udp_packet([10, 77, 0, 1], [10, 77, 0, 2], b"hello");
    let out = left
        .send_to_peer(NodeId([2; 32]), DataPacketType::IPv4, &packet, None, false)
        .unwrap();
    let frame = left.frame_bytes(&out.desc).to_vec();
    right.set_traffic_policy(deny_all());
    let (done, _) = receive(&mut right, &frame);
    assert!(matches!(done, Ok(Incoming::Refused)));
    assert_eq!(right.metrics.snapshot(0).packet_drops, 1);
    left.set_traffic_policy(deny_all());
    let mut p = packet;
    assert!(matches!(left.take_from_tun(TunDeviceMode::Tun, &mut p, 0), TunStep::Refused));
    assert_eq!(left.traffic_policy().rules.len(), 1);
}

#[test]
fn rules_are_added_once_and_removed_by_name() {
    let (mut left, _) = pair();
    let rule = || deny_all().rules.remove(0);
    assert!(left.add_rule(rule()).is_ok());
    assert_eq!(left.add_rule(rule()), Err("rule id already exists: deny-all".to_string()));
    left.enable_rules(false);
    assert!(!left.traffic_policy().enabled);
    assert!(!left.remove_rule("other"));
    assert!(left.remove_rule("deny-all"));
    assert!(left.traffic_policy().rules.is_empty());
}

#[test]
fn a_failed_send_counts_as_dropped() {
    let (mut left, _) = pair();
    let target = PacketTarget { node_id: NodeId([7; 32]), flood: false };
    assert!(left.send_to_target(&target, DataPacketType::IPv4, &[0; 4]).is_err());
    assert_eq!(left.metrics.snapshot(0).packet_drops, 1);
    let flood = PacketTarget { node_id: NodeId([2; 32]), flood: true };
    let out = left.send_to_target(&flood, DataPacketType::Broadcast, &[0; 4]).unwrap();
    let header = DataHeader::decode(left.frame_bytes(&out.desc)).unwrap();
    assert_eq!((header.ttl, header.packet_id), (1, PacketId(1)));
    assert_eq!(left.next_packet_id, 2);
}

#[test]
fn what_is_known_of_a_peer_stays_when_it_is_named_again() {
    let (mut left, _) = pair();
    let node = NodeId([2; 32]);
    left.add_peer_candidate(node, at(1), 0);
    left.set_direct_path(node, at(1), direct(), None, SECOND);
    assert_eq!(left.path_metrics(&node, &at(1)), Some(direct()));
    assert_eq!(left.path_metrics(&NodeId([7; 32]), &at(1)), None);
    let mut again = peer(node, [10, 77, 0, 9], None);
    again.info.nickname = "new".to_string();
    left.upsert_peer(again);
    let p = left.peers.get(&node).unwrap();
    assert_eq!(p.info.nickname, "new");
    assert_eq!(p.path_manager.active_addr(), at(1));
    assert!(p.cipher.is_some());
    assert!(left.start());
    assert!(!left.start());
    left.clear_peers();
    assert_eq!(left.peers.len(), 0);
}
