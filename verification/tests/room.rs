use r2n::common::{NodeId, RoomId, VirtualIp};
use r2n::net::Ipv4Net;
use r2n::room::{Member, MemberRole, Room, RoomAddressPool, RoomError};

fn room(cidr: &str) -> Room {
    Room::new(
        RoomId([1; 16]),
        "room".to_string(),
        NodeId([1; 32]),
        cidr.to_string(),
        "token".to_string(),
    )
}

#[test]
fn room_reuses_lease_after_member_leaves() {
    let mut room = room("192.168.7.0/24");
    let peer = NodeId([2; 32]);
    let ip = room
        .add_or_reuse_member(peer, "peer".to_string(), MemberRole::Guest)
        .unwrap();
    assert_eq!(ip, VirtualIp([192, 168, 7, 2]));
    room.remove_member(&peer);
    let reused = room
        .add_or_reuse_member(peer, "peer".to_string(), MemberRole::Guest)
        .unwrap();
    assert_eq!(reused, ip);
}

#[test]
fn owners_start_at_one_and_guests_at_two() {
    let mut room = room("10.0.0.0/24");
    let owner = room
        .add_or_reuse_member(NodeId([1; 32]), "o".to_string(), MemberRole::Owner)
        .unwrap();
    assert_eq!(owner, VirtualIp([10, 0, 0, 1]));
    for k in 2u8..6 {
        let ip = room
            .add_or_reuse_member(NodeId([k; 32]), "g".to_string(), MemberRole::Guest)
            .unwrap();
        assert_eq!(ip, VirtualIp([10, 0, 0, k]));
    }
    room.remove_member(&NodeId([3; 32]));
    // The lease of the member that left is not handed to another one.
    let next = room
        .add_or_reuse_member(NodeId([9; 32]), "g".to_string(), MemberRole::Guest)
        .unwrap();
    assert_eq!(next, VirtualIp([10, 0, 0, 6]));
}

#[test]
fn a_lease_that_another_member_took_is_not_reused() {
    let mut room = room("10.0.0.0/24");
    let peer = NodeId([2; 32]);
    room.add_or_reuse_member(peer, "p".to_string(), MemberRole::Guest)
        .unwrap();
    room.remove_member(&peer);
    room.add_member(Member {
        node_id: NodeId([7; 32]),
        virtual_ip: VirtualIp([10, 0, 0, 2]),
        nickname: "x".to_string(),
        role: MemberRole::Admin,
    });
    let ip = room
        .add_or_reuse_member(peer, "p".to_string(), MemberRole::Guest)
        .unwrap();
    assert_eq!(ip, VirtualIp([10, 0, 0, 3]));
}

#[test]
fn room_errors_are_told() {
    let mut bad = room("not a network");
    let err = bad
        .add_or_reuse_member(NodeId([2; 32]), "p".to_string(), MemberRole::Guest)
        .unwrap_err();
    assert_eq!(err, RoomError::InvalidCidr("not a network".to_string()));
    assert_eq!(err.to_text(), "invalid virtual CIDR: not a network");

    // Two hosts lie between network and broadcast address.
    let mut tiny = room("10.0.0.0/30");
    assert!(tiny
        .add_or_reuse_member(NodeId([1; 32]), "o".to_string(), MemberRole::Owner)
        .is_ok());
    assert!(tiny
        .add_or_reuse_member(NodeId([2; 32]), "g".to_string(), MemberRole::Guest)
        .is_ok());
    let full = tiny
        .add_or_reuse_member(NodeId([3; 32]), "g".to_string(), MemberRole::Guest)
        .unwrap_err();
    assert_eq!(full, RoomError::AddressPoolExhausted);
    assert_eq!(full.to_text(), "room address pool is exhausted");
}

#[test]
fn address_pool_allocates_distinct_room_subnets_and_releases() {
    let mut pool = RoomAddressPool::new("192.168.0.0/16", 24).unwrap();
    let a = RoomId([1; 16]);
    let b = RoomId([2; 16]);
    assert_eq!(pool.allocate(a).unwrap().to_text(), "192.168.200.0/24");
    assert_eq!(pool.allocate(b).unwrap().to_text(), "192.168.201.0/24");
    pool.release(&a);
    let c = RoomId([3; 16]);
    assert_eq!(pool.allocate(c).unwrap().to_text(), "192.168.200.0/24");
}

#[test]
fn address_pool_avoids_conflicting_local_networks() {
    let mut pool = RoomAddressPool::new("192.168.0.0/16", 24).unwrap();
    let room_id = RoomId([9; 16]);
    let avoid = [
        Ipv4Net::parse("192.168.200.0/24").unwrap(),
        Ipv4Net::parse("192.168.201.0/24").unwrap(),
    ];
    assert_eq!(
        pool.allocate_with_avoidance(room_id, &avoid)
            .unwrap()
            .to_text(),
        "192.168.202.0/24"
    );
}

#[test]
fn home_pool_tries_every_subnet_once() {
    let mut pool = RoomAddressPool::default();
    let mut order = Vec::new();
    for k in 0u16..256 {
        let mut id = [0u8; 16];
        id[0] = (k >> 8) as u8;
        id[1] = k as u8;
        let net = pool.allocate(RoomId(id)).unwrap();
        order.push((net.addr >> 8) & 0xff);
    }
    assert_eq!(order[..3], [200, 201, 202]);
    assert_eq!(order[55..58], [255, 4, 5]);
    assert_eq!(order[82..84], [30, 32]);
    assert_eq!(order[250..], [199, 0, 1, 2, 3, 31]);
    let mut sorted = order.clone();
    sorted.sort();
    sorted.dedup();
    assert_eq!(sorted.len(), 256);
    let err = pool.allocate(RoomId([0xee; 16])).unwrap_err();
    assert_eq!(err, RoomError::AddressPoolExhausted);
}

#[test]
fn allocating_again_gives_the_same_subnet() {
    let mut pool = RoomAddressPool::new("10.0.0.0/8", 16).unwrap();
    let a = RoomId([1; 16]);
    let first = pool.allocate(a).unwrap();
    assert_eq!(first.to_text(), "10.0.0.0/16");
    assert_eq!(pool.allocate(a).unwrap(), first);
    assert_eq!(pool.allocate(RoomId([2; 16])).unwrap().to_text(), "10.1.0.0/16");
}

#[test]
fn address_pool_errors_are_told() {
    let err = RoomAddressPool::new("nonsense", 24).err().unwrap();
    assert_eq!(err.to_text(), "invalid address pool: nonsense");
    let err = RoomAddressPool::new("192.168.3.0/24", 16).err().unwrap();
    assert_eq!(
        err.to_text(),
        "invalid address pool: 192.168.3.0/24 with room prefix 16"
    );
    assert!(RoomAddressPool::new("192.168.0.0/16", 31).is_err());
    assert!(RoomAddressPool::new("192.168.0.0/16", 30).is_ok());
}

#[test]
fn networks_know_their_bounds() {
    let net = Ipv4Net::parse("10.20.30.40/20").unwrap();
    assert_eq!(net.network().to_be_bytes(), [10, 20, 16, 0]);
    assert_eq!(net.broadcast().to_be_bytes(), [10, 20, 31, 255]);
    assert_eq!(net.to_text(), "10.20.30.40/20");
    let all = Ipv4Net::parse("0.0.0.0/0").unwrap();
    assert_eq!(all.network(), 0);
    assert_eq!(all.broadcast(), u32::MAX);
    let one = Ipv4Net::parse("1.2.3.4/32").unwrap();
    assert!(one.contains(one.addr));
    assert!(!one.contains(one.addr + 1));
    assert!(Ipv4Net::parse("1.2.3.4").is_none());
    assert!(Ipv4Net::parse("1.2.3.4/33").is_none());
    assert!(Ipv4Net::parse("1.2.3.256/8").is_none());
}
