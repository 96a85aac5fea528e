use r2n::proto::DataPacketType;
use r2n::qos::{classify_packet, QosScheduler, TrafficClass};

#[test]
fn priority_order_respects_classes() {
    let mut scheduler = QosScheduler::new(8);
    scheduler.push(TrafficClass::Bulk, 1);
    scheduler.push(TrafficClass::Realtime, 2);
    scheduler.push(TrafficClass::Control, 3);
    assert_eq!(scheduler.pop(), Some(3));
    assert_eq!(scheduler.pop(), Some(2));
    assert_eq!(scheduler.pop(), Some(1));
}

#[test]
fn items_of_a_class_leave_in_order() {
    let mut scheduler = QosScheduler::new(8);
    for k in 0..5 {
        scheduler.push(TrafficClass::Interactive, k);
    }
    for k in 0..5 {
        assert_eq!(scheduler.pop(), Some(k));
    }
    assert_eq!(scheduler.pop(), None);
}

#[test]
fn bulk_gives_up_its_oldest_items() {
    let mut scheduler = QosScheduler::new(2);
    for k in 0..5 {
        scheduler.push(TrafficClass::Bulk, k);
    }
    assert_eq!(scheduler.pop(), Some(3));
    assert_eq!(scheduler.pop(), Some(4));
    assert_eq!(scheduler.pop(), None);

    let mut none = QosScheduler::new(0);
    none.push(TrafficClass::Bulk, 1);
    none.push(TrafficClass::Bulk, 2);
    assert_eq!(none.pop(), Some(2));
    assert_eq!(none.pop(), None);
}

fn ipv4(protocol: u8, payload: &[u8]) -> Vec<u8> {
    let mut pkt = vec![0u8; 20];
    pkt[0] = 0x45;
    let len = (20 + payload.len()) as u16;
    pkt[2..4].copy_from_slice(&len.to_be_bytes());
    pkt[9] = protocol;
    pkt.extend_from_slice(payload);
    pkt
}

#[test]
fn packets_are_classed_by_what_they_carry() {
    assert_eq!(
        classify_packet(DataPacketType::Ping, &[]),
        TrafficClass::Control
    );
    assert_eq!(
        classify_packet(DataPacketType::Ethernet, &[]),
        TrafficClass::Realtime
    );
    let t = DataPacketType::IPv4;
    assert_eq!(classify_packet(t, &ipv4(1, &[0; 8])), TrafficClass::Control);
    assert_eq!(classify_packet(t, &ipv4(58, &[0; 8])), TrafficClass::Control);
    assert_eq!(classify_packet(t, &ipv4(17, &[0; 492])), TrafficClass::Realtime);
    assert_eq!(classify_packet(t, &ipv4(17, &[0; 493])), TrafficClass::Interactive);
    assert_eq!(classify_packet(t, &ipv4(6, &[0; 20])), TrafficClass::Bulk);
    let mut syn = [0u8; 20];
    syn[13] = 2;
    assert_eq!(classify_packet(t, &ipv4(6, &syn)), TrafficClass::Interactive);
    assert_eq!(classify_packet(t, &ipv4(6, &syn[..13])), TrafficClass::Bulk);
    assert_eq!(classify_packet(t, &ipv4(47, &[])), TrafficClass::Interactive);
    assert_eq!(classify_packet(t, &[]), TrafficClass::Realtime);
    assert_eq!(classify_packet(t, &[0x15; 40]), TrafficClass::Realtime);
}

#[test]
fn ipv6_packets_are_classed_too() {
    let mut pkt = vec![0u8; 40];
    pkt[0] = 0x60;
    pkt[5] = 8;
    pkt[6] = 58;
    pkt.extend_from_slice(&[0; 8]);
    assert_eq!(
        classify_packet(DataPacketType::IPv6, &pkt),
        TrafficClass::Control
    );
}
