use r2n::net::{IpAddr, Ipv4Net};
use r2n::policy::{
    IpNet, Ipv6Net, PolicyError, PortRange, TrafficAction, TrafficDirection, TrafficPolicy,
    TrafficProtocol, TrafficRule, packet_meta,
};

fn udp_packet(src: [u8; 4], dst: [u8; 4], src_port: u16, dst_port: u16) -> Vec<u8> {
    let payload = b"policy";
    let mut ipv4 = etherparse::Ipv4Header::new(
        (8 + payload.len()) as u16,
        64,
        etherparse::ip_number::UDP,
        src,
        dst,
    );
    ipv4.header_checksum = ipv4.calc_header_checksum().unwrap();
    let mut udp =
        etherparse::UdpHeader::without_ipv4_checksum(src_port, dst_port, payload.len()).unwrap();
    udp.checksum = udp.calc_checksum_ipv4(&ipv4, payload).unwrap();

    let mut bytes = Vec::new();
    ipv4.write_raw(&mut bytes).unwrap();
    bytes.extend_from_slice(&udp.to_bytes());
    bytes.extend_from_slice(payload);
    bytes
}

fn v4(text: &str) -> Option<IpNet> {
    Some(IpNet::V4(Ipv4Net::parse(text).unwrap()))
}

fn deny_all() -> TrafficRule {
    TrafficRule {
        id: "deny-all".to_string(),
        enabled: true,
        action: TrafficAction::Deny,
        direction: TrafficDirection::Both,
        src_cidr: None,
        dst_cidr: None,
        protocol: TrafficProtocol::Any,
        src_ports: Vec::new(),
        dst_ports: Vec::new(),
        description: None,
    }
}

#[test]
fn default_policy_allows() {
    let policy = TrafficPolicy::default();
    let packet = udp_packet([10, 66, 1, 2], [10, 66, 1, 3], 4000, 5000);
    assert!(policy.allows(TrafficDirection::Outbound, &packet));
}

#[test]
fn deny_rule_matches_cidr_protocol_and_port() {
    let policy = TrafficPolicy {
        rules: vec![TrafficRule {
            id: "deny-discovery-port".to_string(),
            enabled: true,
            action: TrafficAction::Deny,
            direction: TrafficDirection::Outbound,
            src_cidr: v4("10.66.0.0/16"),
            dst_cidr: v4("10.66.1.0/24"),
            protocol: TrafficProtocol::Udp,
            src_ports: Vec::new(),
            dst_ports: vec![PortRange {
                start: 5000,
                end: 5001,
            }],
            description: None,
        }],
        ..TrafficPolicy::default()
    };
    let packet = udp_packet([10, 66, 1, 2], [10, 66, 1, 3], 4000, 5000);
    assert_eq!(
        policy.decision(TrafficDirection::Outbound, &packet),
        TrafficAction::Deny
    );
    assert!(policy.allows(TrafficDirection::Inbound, &packet));
    let other_port = udp_packet([10, 66, 1, 2], [10, 66, 1, 3], 4000, 5002);
    assert!(policy.allows(TrafficDirection::Outbound, &other_port));
    let other_net = udp_packet([10, 66, 1, 2], [10, 66, 2, 3], 4000, 5000);
    assert!(policy.allows(TrafficDirection::Outbound, &other_net));
}

#[test]
fn disabled_policy_ignores_deny_rules() {
    let mut policy = TrafficPolicy {
        rules: vec![deny_all()],
        ..TrafficPolicy::default()
    };
    policy.enabled = false;
    let packet = udp_packet([10, 66, 1, 2], [10, 66, 1, 3], 4000, 5000);
    assert!(policy.allows(TrafficDirection::Inbound, &packet));
}

#[test]
fn the_first_rule_that_fits_decides() {
    let mut allow = deny_all();
    allow.action = TrafficAction::Allow;
    allow.protocol = TrafficProtocol::Udp;
    let policy = TrafficPolicy {
        rules: vec![allow, deny_all()],
        ..TrafficPolicy::default()
    };
    let packet = udp_packet([10, 66, 1, 2], [10, 66, 1, 3], 1, 2);
    assert!(policy.allows(TrafficDirection::Inbound, &packet));
    let mut first_off = policy;
    first_off.rules[0].enabled = false;
    assert!(!first_off.allows(TrafficDirection::Inbound, &packet));
}

#[test]
fn what_is_no_packet_gets_the_default() {
    assert!(matches!(packet_meta(&[1, 2, 3]), Err(PolicyError::UnsupportedPacket)));
    let policy = TrafficPolicy {
        default_action: TrafficAction::Deny,
        ..TrafficPolicy::default()
    };
    assert!(!policy.allows(TrafficDirection::Inbound, &[1, 2, 3]));
}

#[test]
fn fields_of_a_packet_are_read() {
    let packet = udp_packet([10, 66, 1, 2], [10, 66, 1, 3], 4000, 5000);
    let meta = packet_meta(&packet).unwrap();
    assert_eq!(meta.src, IpAddr::V4([10, 66, 1, 2]));
    assert_eq!(meta.dst, IpAddr::V4([10, 66, 1, 3]));
    assert_eq!(meta.protocol, TrafficProtocol::Udp);
    assert_eq!(meta.src_port, Some(4000));
    assert_eq!(meta.dst_port, Some(5000));
}

#[test]
fn networks_hold_their_addresses() {
    let net = IpNet::V4(Ipv4Net::parse("10.66.1.0/24").unwrap());
    assert!(net.contains(&IpAddr::V4([10, 66, 1, 255])));
    assert!(!net.contains(&IpAddr::V4([10, 66, 2, 0])));
    assert!(!net.contains(&IpAddr::V6([0; 16])));
    let mut addr = [0u8; 16];
    addr[0] = 0xfd;
    let v6 = IpNet::V6(Ipv6Net { addr, prefix: 8 });
    let mut inside = addr;
    inside[15] = 9;
    assert!(v6.contains(&IpAddr::V6(inside)));
    inside[0] = 0xfe;
    assert!(!v6.contains(&IpAddr::V6(inside)));
}

#[test]
fn directions_and_ranges_match() {
    assert!(TrafficDirection::Both.matches(TrafficDirection::Inbound));
    assert!(TrafficDirection::Inbound.matches(TrafficDirection::Inbound));
    assert!(!TrafficDirection::Inbound.matches(TrafficDirection::Outbound));
    let r = PortRange { start: 5, end: 7 };
    assert!(r.contains(5) && r.contains(7) && !r.contains(8) && !r.contains(4));
}
