use r2n::common::{NatType, NodeId, PacketId, RoomId, SessionId, VirtualIp};
use r2n::config::SupernodeConfig;
use r2n::invite::{verifying_key, InviteData};
use r2n::management::{authorized, Credentials, ManagementError};
use r2n::net::{IpAddr, SocketAddr};
use r2n::proto::{
    Candidate, CandidateKind, CandidateSource, ControlFrame, DataHeader, DataPacketType, Outgoing,
    PeerAction, DATA_HEADER_SIZE, PROTOCOL_VERSION,
};
use r2n::supernode::{RoomSeed, Supernode, SupernodeError};
use r2n::transport::{classify_datagram, Datagram};
use r2n::upkeep::RelayStep;

const SECOND: u64 = 1_000_000_000;

fn at(port: u16) -> SocketAddr {
    SocketAddr::new(IpAddr::V4([127, 0, 0, 1]), port)
}

fn own() -> Option<String> {
    Some("127.0.0.1:7777".to_string())
}

fn dummy_candidate(addr: SocketAddr) -> Candidate {
    Candidate {
        kind: CandidateKind::ServerReflexive,
        source: CandidateSource::StunPrimary,
        addr,
        priority: 100,
        rtt_hint_ms: None,
    }
}

fn supernode() -> Supernode {
    Supernode::with_key(SupernodeConfig::with_token("secret".to_string()), [7; 32]).unwrap()
}

fn register(s: &mut Supernode, id: u8, addr: SocketAddr, name: &str, networks: &[&str]) -> Vec<Outgoing> {
    register_with_key(s, id, [id; 32], addr, name, networks)
}

fn register_with_key(
    s: &mut Supernode,
    id: u8,
    public_key: [u8; 32],
    addr: SocketAddr,
    name: &str,
    networks: &[&str],
) -> Vec<Outgoing> {
    s.serve(
        ControlFrame::RegisterNode {
            node_id: NodeId([id; 32]),
            nat_type: NatType::Cone,
            external_addr: Some(addr),
            public_key,
            candidates: vec![dummy_candidate(addr)],
            nickname: name.to_string(),
            local_networks: networks.iter().map(|n| n.to_string()).collect(),
        },
        addr,
        0,
        own(),
    )
    .unwrap()
}

fn create(s: &mut Supernode, addr: SocketAddr, name: &str) -> (RoomId, VirtualIp, String, String) {
    let out = s
        .serve(ControlFrame::CreateRoom { name: name.to_string() }, addr, 0, own())
        .unwrap();
    assert_eq!(out.len(), 1);
    assert_eq!(out[0].target, addr);
    match &out[0].frame {
        ControlFrame::RoomCreated { room_id, assigned_ip, virtual_cidr, invite_code } => {
            (*room_id, *assigned_ip, virtual_cidr.clone(), invite_code.clone())
        }
        other => panic!("unexpected frame: {other:?}"),
    }
}

fn join(s: &mut Supernode, addr: SocketAddr, room_id: RoomId, token: Option<String>) -> Vec<Outgoing> {
    s.serve(ControlFrame::JoinRoom { room_id, token, room_name: None }, addr, 0, own())
        .unwrap()
}

#[test]
fn create_and_join_room_roundtrip() {
    let mut s = supernode();
    let owner = at(1001);
    let out = register_with_key(&mut s, 1, [9; 32], owner, "Owner", &["192.168.200.0/24"]);
    assert!(matches!(out[0].frame, ControlFrame::RegisterOk));

    let (room_id, assigned_ip, _, invite_code) = create(&mut s, owner, "test-room");
    assert_eq!(assigned_ip, VirtualIp([192, 168, 201, 1]));

    let invite = InviteData::decode(&invite_code).expect("decode invite");
    assert_eq!(invite.room_id, room_id);
    assert_eq!(invite.supernode_addr, "127.0.0.1:7777");
    assert!(invite.token.is_some());
    assert!(invite.verify(&verifying_key(&[7; 32])));

    let guest = at(1002);
    let out = register_with_key(&mut s, 2, [8; 32], guest, "Guest", &[]);
    assert!(matches!(out[0].frame, ControlFrame::RegisterOk));

    let out = join(&mut s, guest, room_id, invite.token.clone());
    let mut saw_join_accept = false;
    let mut saw_peer_list = false;
    for o in &out {
        match &o.frame {
            ControlFrame::JoinAccept { assigned_ip, virtual_cidr, .. } => {
                saw_join_accept = true;
                assert_eq!(o.target, guest);
                assert_eq!(*assigned_ip, VirtualIp([192, 168, 201, 2]));
                assert_eq!(virtual_cidr, "192.168.201.0/24");
            }
            ControlFrame::PeerList { peers } => {
                saw_peer_list = true;
                assert_eq!(peers.len(), 2);
            }
            _ => {}
        }
    }
    assert!(saw_join_accept);
    assert!(saw_peer_list);
    assert!(out.iter().any(|o| o.target == owner
        && matches!(&o.frame, ControlFrame::PeerUpdate { action: PeerAction::Add, .. })));
    assert_eq!(
        out.iter().filter(|o| matches!(o.frame, ControlFrame::PunchRequest { .. })).count(),
        2
    );
}

fn data_frame(payload: &[u8], dst: u8) -> (DataHeader, Vec<u8>) {
    let header = DataHeader {
        version: PROTOCOL_VERSION,
        flags: 0,
        packet_type: DataPacketType::IPv4,
        reserved: 0,
        ttl: 0,
        room_id: RoomId([1u8; 16]),
        src_node: NodeId([3u8; 32]),
        dst_node: NodeId([dst; 32]),
        origin_node: NodeId([3u8; 32]),
        session_id: SessionId(1),
        nonce: 1,
        packet_id: PacketId(0),
        payload_len: payload.len() as u16,
    };
    let mut frame = vec![0u8; DATA_HEADER_SIZE + payload.len()];
    header
        .encode_into(&mut frame[..DATA_HEADER_SIZE])
        .expect("encode header");
    frame[DATA_HEADER_SIZE..].copy_from_slice(payload);
    (header, frame)
}

#[test]
fn relay_forwards_raw_frames() {
    let mut s = supernode();
    for (id, addr) in [(3u8, at(1003)), (4u8, at(1004))] {
        let out = register(&mut s, id, addr, "Relay", &[]);
        assert!(matches!(out[0].frame, ControlFrame::RegisterOk));
    }

    let payload = b"relay-test";
    let (_, frame) = data_frame(payload, 4);
    let header = match classify_datagram(&frame).unwrap() {
        Datagram::Data(view) => view.header,
        other => panic!("unexpected packet: {other:?}"),
    };
    let (desc, len) = match s.relay(&header, &frame) {
        RelayStep::Forward { desc, len, target } => {
            assert_eq!(target, at(1004));
            (desc, len)
        }
        other => panic!("unexpected: {other:?}"),
    };
    let sent = s.slab.get_slot_slice(&desc)[..len].to_vec();
    match classify_datagram(&sent).unwrap() {
        Datagram::Data(view) => {
            assert_eq!(view.header.src_node, NodeId([3u8; 32]));
            assert_eq!(view.header.dst_node, NodeId([4u8; 32]));
            assert_eq!(&sent[view.payload_range], payload);
        }
        other => panic!("unexpected packet: {other:?}"),
    }
    let free = s.slab.available();
    s.relayed_frame_sent(desc);
    assert_eq!(s.slab.available(), free + 1);
}

#[test]
fn frames_without_a_target_or_a_fitting_buffer_are_dropped() {
    let mut s = supernode();
    register(&mut s, 4, at(1004), "Relay", &[]);
    let (stranger, frame) = data_frame(b"x", 9);
    assert_eq!(s.relay(&stranger, &frame), RelayStep::UnknownTarget);
    let (large, frame) = data_frame(&[0; 1453], 4);
    let free = s.slab.available();
    assert_eq!(s.relay(&large, &frame), RelayStep::TooLarge);
    assert_eq!(s.slab.available(), free);
    let (small, frame) = data_frame(b"x", 4);
    for _ in 0..free {
        assert!(matches!(s.relay(&small, &frame), RelayStep::Forward { .. }));
    }
    assert_eq!(s.relay(&small, &frame), RelayStep::NoBuffer);
}

#[test]
fn join_rejects_conflicting_local_network() {
    let mut s = supernode();
    register(&mut s, 5, at(1005), "Owner", &[]);
    let (room_id, _, _, invite_code) = create(&mut s, at(1005), "conflict-room");
    let invite = InviteData::decode(&invite_code).expect("decode invite");
    assert_eq!(invite.virtual_cidr.as_deref(), Some("192.168.200.0/24"));

    register(&mut s, 6, at(1006), "Guest", &["192.168.200.0/24"]);
    let out = join(&mut s, at(1006), room_id, invite.token);
    match &out[0].frame {
        ControlFrame::JoinReject { reason } => {
            assert!(reason.contains("conflicts with a local network"));
        }
        other => panic!("unexpected frame: {other:?}"),
    }
}

#[test]
fn strangers_and_wrong_tokens_are_turned_away() {
    let mut s = supernode();
    let out = s
        .serve(ControlFrame::CreateRoom { name: "r".to_string() }, at(1), 0, own())
        .unwrap();
    assert!(matches!(&out[0].frame, ControlFrame::Error { code: 400, .. }));
    let out = join(&mut s, at(1), RoomId([9; 16]), None);
    assert!(matches!(&out[0].frame, ControlFrame::JoinReject { reason } if reason == "node not registered"));
    register(&mut s, 1, at(1), "Owner", &[]);
    register(&mut s, 2, at(2), "Guest", &[]);
    let (room_id, ..) = create(&mut s, at(1), "r");
    let out = join(&mut s, at(2), room_id, Some("wrong".to_string()));
    assert!(matches!(&out[0].frame, ControlFrame::JoinReject { reason } if reason == "invalid invite token"));
    assert_eq!(s.list_rooms()[0].member_count, 1);
}

#[test]
fn a_member_that_comes_again_keeps_its_address() {
    let mut s = supernode();
    register(&mut s, 1, at(1), "Owner", &[]);
    register(&mut s, 2, at(2), "Guest", &[]);
    let (room_id, _, _, code) = create(&mut s, at(1), "r");
    let token = InviteData::decode(&code).unwrap().token;
    let ip = |out: &[Outgoing]| match &out[0].frame {
        ControlFrame::JoinAccept { assigned_ip, .. } => *assigned_ip,
        other => panic!("unexpected frame: {other:?}"),
    };
    let first = join(&mut s, at(2), room_id, token.clone());
    let again = join(&mut s, at(2), room_id, token.clone());
    assert_eq!(ip(&first), ip(&again));
    s.serve(ControlFrame::LeaveRoom { room_id }, at(2), 0, own()).unwrap();
    let back = join(&mut s, at(2), room_id, token);
    assert_eq!(ip(&first), ip(&back));
    assert_eq!(s.list_rooms()[0].member_count, 2);
}

#[test]
fn a_missing_room_is_set_up_anew() {
    let mut s = supernode();
    register(&mut s, 2, at(2), "Guest", &[]);
    let out = join(&mut s, at(2), RoomId([3; 16]), Some("t".to_string()));
    match &out[0].frame {
        ControlFrame::JoinAccept { room_name, assigned_ip, .. } => {
            assert_eq!(room_name.as_deref(), Some(format!("Restored-{}", "03".repeat(16)).as_str()));
            assert_eq!(*assigned_ip, VirtualIp([192, 168, 200, 2]));
        }
        other => panic!("unexpected frame: {other:?}"),
    }
    register(&mut s, 1, at(1), "Other", &[]);
    let out = join(&mut s, at(1), RoomId([3; 16]), None);
    assert!(matches!(&out[0].frame, ControlFrame::JoinReject { .. }));
}

#[test]
fn leaving_tells_the_others_and_closes_empty_rooms() {
    let mut s = supernode();
    register(&mut s, 1, at(1), "Owner", &[]);
    register(&mut s, 2, at(2), "Guest", &[]);
    let (room_id, _, cidr, code) = create(&mut s, at(1), "r");
    let token = InviteData::decode(&code).unwrap().token;
    join(&mut s, at(2), room_id, token);
    let out = s.leave_room(room_id, at(2));
    assert_eq!(out.len(), 1);
    assert_eq!(out[0].target, at(1));
    assert!(matches!(&out[0].frame, ControlFrame::PeerUpdate { action: PeerAction::Remove, .. }));
    assert!(s.leave_room(room_id, at(1)).is_empty());
    assert!(s.list_rooms().is_empty());
    let (_, _, again, _) = create(&mut s, at(1), "r2");
    assert_eq!(cidr, again);
}

#[test]
fn rooms_are_listed_and_heartbeats_returned() {
    let mut s = supernode();
    register(&mut s, 1, at(1), "Owner", &[]);
    create(&mut s, at(1), "one");
    let out = s.serve(ControlFrame::QueryRooms, at(1), 0, own()).unwrap();
    match &out[0].frame {
        ControlFrame::RoomsList { rooms } => {
            assert_eq!((rooms[0].name.as_str(), rooms[0].member_count), ("one", 1));
        }
        other => panic!("unexpected frame: {other:?}"),
    }
    let out = s.serve(ControlFrame::Heartbeat, at(9), 0, own()).unwrap();
    assert!(matches!(out[0].frame, ControlFrame::Heartbeat));
    assert!(s.serve(ControlFrame::RegisterOk, at(9), 0, own()).unwrap().is_empty());
}

#[test]
fn a_room_needs_an_address_to_invite_to() {
    let mut s = supernode();
    register(&mut s, 1, at(1), "Owner", &[]);
    let seed = RoomSeed { room_id: [1; 16], token: [2; 16] };
    let r = s.create_room("r".to_string(), at(1), seed, None);
    assert!(matches!(r, Err(SupernodeError::NoLocalAddress)));
    s.config.public_addr = Some("example.org:7777".to_string());
    let seed = RoomSeed { room_id: [3; 16], token: [2; 16] };
    let out = s.create_room("r".to_string(), at(1), seed, None).unwrap();
    match &out[0].frame {
        ControlFrame::RoomCreated { room_id, invite_code, .. } => {
            assert_eq!(*room_id, RoomId([3; 16]));
            let invite = InviteData::decode(invite_code).unwrap();
            assert_eq!(invite.primary_supernode, "example.org:7777");
            assert_eq!(invite.token, Some("02".repeat(16)));
        }
        other => panic!("unexpected frame: {other:?}"),
    }
}

#[test]
fn registering_again_asks_room_mates_to_reach_out() {
    let mut s = supernode();
    register(&mut s, 1, at(1), "Owner", &[]);
    register(&mut s, 2, at(2), "Guest", &[]);
    let (room_id, _, _, code) = create(&mut s, at(1), "r");
    join(&mut s, at(2), room_id, InviteData::decode(&code).unwrap().token);
    let out = register(&mut s, 2, at(22), "Guest", &[]);
    assert_eq!(out.len(), 2);
    assert_eq!(out[1].target, at(1));
    assert!(matches!(&out[1].frame, ControlFrame::PunchRequest { target, .. } if *target == NodeId([2; 32])));
}

#[test]
fn silent_nodes_are_swept_away() {
    let mut s = supernode();
    register(&mut s, 1, at(1), "Owner", &[]);
    register(&mut s, 2, at(2), "Guest", &[]);
    let (room_id, _, _, code) = create(&mut s, at(1), "r");
    join(&mut s, at(2), room_id, InviteData::decode(&code).unwrap().token);
    s.touch(&at(1), 100 * SECOND);
    assert!(s.sweep(120 * SECOND + 999_999_999).is_empty());
    let out = s.sweep(121 * SECOND);
    assert_eq!(out.len(), 1);
    assert_eq!(out[0].target, at(1));
    match &out[0].frame {
        ControlFrame::PeerUpdate { peer, action } => {
            assert_eq!(*action, PeerAction::Remove);
            assert_eq!(peer.node_id, NodeId([2; 32]));
            assert_eq!(peer.virtual_ip, VirtualIp([0, 0, 0, 0]));
        }
        other => panic!("unexpected frame: {other:?}"),
    }
    assert_eq!(s.list_rooms()[0].member_count, 1);
    assert!(s.sweep(400 * SECOND).is_empty());
    assert!(s.list_rooms().is_empty());
    assert_eq!(s.nodes.len(), 0);
}

fn bearer(token: &str) -> Credentials {
    Credentials { authorization: Some(format!("Bearer {token}")), admin_token: None }
}

#[test]
fn management_takes_the_token_in_either_header() {
    assert!(authorized(&bearer("secret"), "secret"));
    let header = Credentials { authorization: None, admin_token: Some("secret".to_string()) };
    assert!(authorized(&header, "secret"));
    assert!(!authorized(&bearer("other"), "secret"));
    assert!(!authorized(&bearer("  "), "  "));
    let none = Credentials { authorization: None, admin_token: None };
    assert!(!authorized(&none, "secret"));
}

#[test]
fn management_tells_of_rooms_and_nodes() {
    let mut s = supernode();
    register(&mut s, 1, at(1), "Owner", &[]);
    create(&mut s, at(1), "one");
    let c = bearer("secret");
    let rooms = s.management_rooms(&c).unwrap();
    assert_eq!((rooms[0].name.as_str(), rooms[0].members, rooms[0].leases), ("one", 1, 1));
    assert_eq!(rooms[0].virtual_cidr, "192.168.200.0/24");
    let nodes = s.management_nodes(&c, 5 * SECOND).unwrap();
    assert_eq!(nodes[0].addr, "127.0.0.1:1");
    assert_eq!((nodes[0].nat_type.as_str(), nodes[0].last_seen_secs), ("Cone", 5));
    let stats = s.management_stats(&c).unwrap();
    assert_eq!((stats.rooms, stats.nodes), (1, 1));
    assert_eq!(s.management_federation(&c).unwrap().peers, s.config.peers);
    let wrong = bearer("x");
    assert!(matches!(s.management_rooms(&wrong), Err(ManagementError::Unauthorized)));
    assert!(matches!(s.management_nodes(&wrong, 0), Err(ManagementError::Unauthorized)));
    assert!(matches!(s.management_stats(&wrong), Err(ManagementError::Unauthorized)));
    assert!(matches!(s.management_federation(&wrong), Err(ManagementError::Unauthorized)));
}

#[test]
fn management_strikes_nodes_off() {
    let mut s = supernode();
    register(&mut s, 1, at(1), "Owner", &[]);
    let c = bearer("secret");
    assert_eq!(s.management_kick_node(&bearer("x"), "00"), Err(ManagementError::Unauthorized));
    assert_eq!(s.management_kick_node(&c, "zz"), Err(ManagementError::BadRequest));
    assert_eq!(s.management_kick_node(&c, "00"), Err(ManagementError::BadRequest));
    assert_eq!(s.management_kick_node(&c, &"01".repeat(32)), Ok(true));
    assert_eq!(s.management_kick_node(&c, &"01".repeat(32)), Ok(false));
}
