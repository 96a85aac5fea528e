use r2n::common::{NatType, NodeId, RoomId, VirtualIp};
use r2n::config::{BackendConfig, SupernodeConfig, VirtualLanConfig};
use r2n::crypto::derive_public_key;
use r2n::discovery::DiscoveryManager;
use r2n::edge::{Activation, Edge};
use r2n::edge_commands::CommandStep;
use r2n::edge_control::{ControlStep, Reply, Waiting};
use r2n::edge_handshake::{settle, ShakeRead};
use r2n::endpoints::{
    collect_local_networks, next_supernode_after, normalize_invite_code, normalize_supernodes,
    resolve_supernode_addr, Interface,
};
use r2n::history::{add_to_history, name_for_invite, ordered_history, HistoryItem};
use r2n::invite::InviteData;
use r2n::ipc::{delete_history, rename_history};
use r2n::nat_probe::unknown_fingerprint;
use r2n::net::{IpAddr, Ipv4Net, SocketAddr};
use r2n::path::PathMetrics;
use r2n::policy::TrafficPolicy;
use r2n::port_mapping::{PortMappingProtocol, PortMappingSnapshot};
use r2n::proto::{
    Candidate, CandidateKind, CandidateSource, ControlFrame, PeerAction, PeerInfo, RoomDescription,
};
use r2n::reports::status_text;
use r2n::supernode::Supernode;
use r2n::tun::TunDeviceMode;

const SECOND: u64 = 1_000_000_000;

fn at(octets: [u8; 4], port: u16) -> SocketAddr {
    SocketAddr::new(IpAddr::V4(octets), port)
}

fn fallback() -> SocketAddr {
    at([139, 196, 85, 193], 7777)
}

#[test]
fn resolve_supernode_addr_rewrites_unspecified_ip() {
    let resolved = resolve_supernode_addr("0.0.0.0:7777", fallback()).expect("resolve");
    assert_eq!(resolved, fallback());
    let port = resolve_supernode_addr("[::]:0", fallback()).unwrap();
    assert_eq!(port, fallback());
    let other = at([1, 2, 3, 4], 9);
    assert_eq!(resolve_supernode_addr("1.2.3.4:9", fallback()), Ok(other));
    assert!(resolve_supernode_addr("example.org:9", fallback()).is_err());
}

fn invite() -> InviteData {
    InviteData {
        version: InviteData::VERSION,
        primary_supernode: "0.0.0.0:7777".to_string(),
        fallback_supernodes: Vec::new(),
        supernode_addr: "0.0.0.0:7777".to_string(),
        room_id: RoomId([5u8; 16]),
        room_pub_key: [9u8; 32],
        virtual_cidr: Some("10.66.1.0/24".to_string()),
        token: Some("token-1".to_string()),
        expires_at: None,
        signature: None,
    }
}

#[test]
fn normalize_invite_code_rewrites_unspecified_supernode() {
    let code = invite().encode();
    let normalized = normalize_invite_code(&code, fallback());
    let decoded = InviteData::decode(&normalized).expect("decode");
    assert_eq!(decoded.supernode_addr, fallback().to_text());
    assert_eq!(decoded.primary_supernode, fallback().to_text());
    let mut named = invite();
    named.primary_supernode = "example.org:7777".to_string();
    assert_eq!(normalize_invite_code(&named.encode(), fallback()), named.encode());
    assert_eq!(normalize_invite_code("junk", fallback()), "junk");
}

#[test]
fn supernodes_are_taken_in_a_circle() {
    let (a, b, c) = (at([1; 4], 1), at([2; 4], 2), at([3; 4], 3));
    assert_eq!(normalize_supernodes(a, &vec![b, b, a, c]), vec![a, b, c]);
    assert_eq!(next_supernode_after(a, &vec![a]), a);
    assert_eq!(next_supernode_after(a, &vec![a, b]), b);
    assert_eq!(next_supernode_after(b, &vec![a, b]), a);
    assert_eq!(next_supernode_after(c, &vec![a, b]), a);
}

fn interface(name: &str, nets: &[&str]) -> Interface {
    Interface {
        name: name.to_string(),
        up: true,
        loopback: false,
        tun: false,
        ipv4: nets.iter().map(|n| Ipv4Net::parse(n).unwrap()).collect(),
    }
}

#[test]
fn local_networks_are_those_of_real_interfaces() {
    let mut down = interface("eth9", &["10.9.0.1/24"]);
    down.up = false;
    let list = vec![
        interface("eth1", &["192.168.1.5/24", "169.254.3.3/16"]),
        interface("eth0", &["10.0.0.2/8", "192.168.1.5/24", "127.0.0.1/8"]),
        interface("r2n0", &["10.77.0.1/24"]),
        down,
    ];
    assert_eq!(collect_local_networks(&list, "r2n0"), vec!["10.0.0.2/8", "192.168.1.5/24"]);
}

fn edge_of(id: u8, key: u8) -> Edge {
    Edge::new(
        NodeId([id; 32]),
        [key; 32],
        "nick".to_string(),
        fallback(),
        &vec![at([2; 4], 2)],
        "r2n0".to_string(),
        vec![],
        1000,
        DiscoveryManager::new(),
        BackendConfig::default(),
        VirtualLanConfig::default(),
        TrafficPolicy::default(),
        None,
        false,
        0,
    )
}

fn edge() -> Edge {
    edge_of(1, 11)
}

fn activation(room: RoomId) -> Activation {
    Activation {
        room_id: room,
        assigned_ip: VirtualIp([10, 66, 1, 2]),
        virtual_cidr: "10.66.1.0/24".to_string(),
        interface_name: "r2n0".to_string(),
        active_mode: TunDeviceMode::Tun,
        effective_mtu: 1280,
        preference_supported: false,
        preference_applied: false,
        preference_error: None,
        discovery_route_errors: vec![],
    }
}

fn peer_info(id: u8, key: [u8; 32]) -> PeerInfo {
    PeerInfo {
        node_id: NodeId([id; 32]),
        virtual_ip: VirtualIp([10, 66, 1, id]),
        nickname: format!("p{id}"),
        public_key: key,
    }
}

#[test]
fn an_edge_starts_without_a_room() {
    let e = edge();
    assert_eq!(e.tun_mtu, 1280);
    assert_eq!(e.supernodes, vec![fallback(), at([2; 4], 2)]);
    assert_eq!(e.runtime.nat_type, "Unknown");
    assert_eq!(e.runtime.backend_requested, "tun");
    assert_eq!(e.runtime.supernode_addr, "139.196.85.193:7777");
    assert_eq!(e.status_report(false, 0).status, "Waiting for supernode");
    assert!(e.routes_in_use().is_none());
}

#[test]
fn a_room_is_entered_and_left() {
    let mut e = edge();
    let room = RoomId([5; 16]);
    assert!(e.activation_refusal(room).is_none());
    e.device_created(TunDeviceMode::Tun, false, 1280, None);
    e.room_activated(activation(room));
    assert_eq!(e.dataplane.room_id, Some(room));
    assert_eq!(e.runtime.virtual_ip.as_deref(), Some("10.66.1.2"));
    assert!(e.runtime.route_installed && e.runtime.discovery_routes_installed);
    assert!(e.activation_refusal(room).is_none());
    assert_eq!(
        e.activation_refusal(RoomId([6; 16])).unwrap(),
        format!("already in room {}, leave it before joining or creating another room", "05".repeat(16))
    );
    let routes = e.routes_in_use().unwrap();
    assert_eq!(routes.interface, "r2n0");
    let texts: Vec<String> = routes.networks.iter().map(|n| n.to_text()).collect();
    assert_eq!(texts, vec!["10.66.1.0/24", "224.0.0.0/4", "255.255.255.255/32"]);
    assert!(e.discovery_route_faults().is_empty());
    let out = e.leave_room();
    assert_eq!(out.target, fallback());
    assert!(matches!(out.frame, ControlFrame::LeaveRoom { room_id } if room_id == room));
    assert!(e.room_id.is_none() && e.dataplane.room_id.is_none());
    assert!(e.runtime.virtual_ip.is_none() && !e.runtime.route_installed);
}

#[test]
fn errors_on_entering_are_told() {
    let mut e = edge();
    e.device_created(TunDeviceMode::Tun, true, 1280, None);
    e.room_activated(activation(RoomId([5; 16])));
    assert_eq!(
        e.runtime.last_error.as_deref(),
        Some("requested TAP/L2 backend degraded to TUN")
    );
    let mut e = edge();
    let mut a = activation(RoomId([5; 16]));
    a.preference_error = Some("pref".to_string());
    e.room_activated(a);
    assert_eq!(e.runtime.last_error.as_deref(), Some("pref"));
    let mut a = activation(RoomId([5; 16]));
    a.discovery_route_errors = vec!["route".to_string()];
    e.room_activated(a);
    assert_eq!(e.runtime.last_error.as_deref(), Some("pref"));
    assert!(!e.runtime.discovery_routes_installed);
    e.room_activated(activation(RoomId([5; 16])));
    assert!(e.runtime.last_error.is_none());
}

#[test]
fn creating_a_room_is_asked_for_once() {
    let mut e = edge();
    match e.ask_create("home".to_string()) {
        CommandStep::Sent(o) => {
            assert!(matches!(&o.frame, ControlFrame::CreateRoom { name } if name == "home"));
        }
        other => panic!("unexpected: {other:?}"),
    }
    assert!(matches!(
        e.ask_create("home".to_string()),
        CommandStep::Refused(t) if t == "another room creation is already in progress"
    ));
    let step = e.control_step(
        ControlFrame::RoomCreated {
            room_id: RoomId([5; 16]),
            assigned_ip: VirtualIp([10, 66, 1, 1]),
            virtual_cidr: "10.66.1.0/24".to_string(),
            invite_code: invite().encode(),
        },
        0,
    );
    let code = match step {
        ControlStep::EnterCreated { invite_code, .. } => invite_code,
        other => panic!("unexpected: {other:?}"),
    };
    e.room_activated(activation(RoomId([5; 16])));
    let (note, answers) = e.created_room_entered(
        RoomId([5; 16]),
        VirtualIp([10, 66, 1, 1]),
        "10.66.1.0/24".to_string(),
        &code,
    );
    assert_eq!(note.name, "home");
    assert_eq!(answers.len(), 1);
    assert_eq!(answers[0].to, Waiting::Create);
    assert!(matches!(&answers[0].reply, Reply::Created { invite_code, .. } if *invite_code == note.invite_code));
    assert!(matches!(
        e.ask_create("x".to_string()),
        CommandStep::Refused(t) if t.starts_with("already in room 0505")
    ));
    assert!(matches!(
        e.ask_join("x".to_string(), None),
        CommandStep::Refused(t) if t.ends_with("leave it before joining another room")
    ));
}

#[test]
fn requests_that_could_not_be_sent_are_answered() {
    let mut e = edge();
    e.ask_create("home".to_string());
    let due = e.create_unsent("down");
    assert!(matches!(&due[0].reply, Reply::Failed(t) if t == "failed to send create request: down"));
    assert!(e.create_unsent("down").is_empty());
    e.ask_join(invite().encode(), None);
    let due = e.join_unsent("down");
    assert!(matches!(&due[0].reply, Reply::Failed(t) if t == "failed to send join request: down"));
    assert!(e.active_invite.is_none());
    assert!(matches!(e.ask_rooms(), CommandStep::Sent(_)));
    assert!(matches!(e.ask_rooms(), CommandStep::Refused(_)));
    let due = e.rooms_unsent("down");
    assert!(matches!(&due[0].reply, Reply::Failed(t) if t == "failed to send query request: down"));
    let due = e.activation_failed(Waiting::Join, "no device");
    assert!(due.is_empty());
    assert_eq!(e.runtime.last_error.as_deref(), Some("no device"));
}

#[test]
fn joining_goes_to_the_supernode_of_the_invitation() {
    let mut e = edge();
    assert!(matches!(
        e.ask_join("junk".to_string(), None),
        CommandStep::Refused(t) if t == "invalid invite code"
    ));
    let mut code = invite();
    code.primary_supernode = "0.0.0.0:9000".to_string();
    let code = code.encode();
    let mut named = invite();
    named.primary_supernode = "example.org:7777".to_string();
    assert!(matches!(
        e.ask_join(named.encode(), None),
        CommandStep::Refused(t) if t == "invite contains an invalid supernode address"
    ));
    match e.ask_join(code.clone(), Some("old".to_string())) {
        CommandStep::Sent(o) => {
            assert_eq!(o.target, at([139, 196, 85, 193], 9000));
            match o.frame {
                ControlFrame::JoinRoom { room_id, token, room_name } => {
                    assert_eq!(room_id, RoomId([5; 16]));
                    assert_eq!(token.as_deref(), Some("token-1"));
                    assert_eq!(room_name.as_deref(), Some("old"));
                }
                other => panic!("unexpected: {other:?}"),
            }
        }
        other => panic!("unexpected: {other:?}"),
    }
    assert!(matches!(
        e.ask_join(code, None),
        CommandStep::Refused(t) if t == "another join operation is already in progress"
    ));
    let (note, due) = e.joined_room_entered(
        RoomId([5; 16]),
        VirtualIp([10, 66, 1, 2]),
        "10.66.1.0/24".to_string(),
        None,
    );
    assert_eq!(note.unwrap().name, format!("Room-{}", "05".repeat(16)));
    assert!(matches!(&due[0].reply, Reply::Joined { .. }));
}

#[test]
fn the_invitation_to_a_new_room_is_let_in() {
    let config = SupernodeConfig::with_token("secret".to_string());
    let mut s = Supernode::with_key(config, [7; 32]).unwrap();
    let here = fallback();
    let mut owner = edge_of(1, 11);
    let mut guest = edge_of(2, 12);
    let none = PortMappingSnapshot::default();
    for (e, port) in [(&mut owner, 1), (&mut guest, 2)] {
        let o = e.start_registration(unknown_fingerprint(), vec![], &none, vec![]);
        assert_eq!(o.target, here);
        s.serve(o.frame, at([10; 4], port), 0, Some("0.0.0.0:7777".to_string())).unwrap();
    }
    let CommandStep::Sent(ask) = owner.ask_create("den".to_string()) else { panic!() };
    let out = s.serve(ask.frame, at([10; 4], 1), 0, Some("0.0.0.0:7777".to_string())).unwrap();
    let ControlFrame::RoomCreated { room_id, assigned_ip, virtual_cidr, invite_code } = &out[0].frame
    else {
        panic!()
    };
    let (note, _) =
        owner.created_room_entered(*room_id, *assigned_ip, virtual_cidr.clone(), invite_code);
    assert_eq!(note.name, "den");
    let CommandStep::Sent(ask) = guest.ask_join(note.invite_code, None) else { panic!() };
    assert_eq!(ask.target, here);
    let out = s.serve(ask.frame, at([10; 4], 2), 0, None).unwrap();
    assert!(matches!(&out[0].frame, ControlFrame::JoinAccept { room_id: r, .. } if r == room_id));
}

#[test]
fn refusals_and_errors_reach_those_who_wait() {
    let mut e = edge();
    e.ask_join(invite().encode(), None);
    match e.control_step(ControlFrame::JoinReject { reason: "no".to_string() }, 0) {
        ControlStep::Done(due) => {
            assert_eq!(due.len(), 1);
            assert!(matches!(&due[0].reply, Reply::Failed(t) if t == "no"));
        }
        other => panic!("unexpected: {other:?}"),
    }
    assert!(e.active_invite.is_none());
    assert_eq!(e.runtime.last_error.as_deref(), Some("no"));
    e.ask_create("a".to_string());
    e.ask_join(invite().encode(), None);
    match e.control_step(ControlFrame::Error { code: 1, message: "bad".to_string() }, 0) {
        ControlStep::Done(due) => assert_eq!(due.len(), 2),
        other => panic!("unexpected: {other:?}"),
    }
    e.ask_rooms();
    let rooms = vec![RoomDescription {
        room_id: RoomId([1; 16]),
        name: "r".to_string(),
        member_count: 2,
    }];
    match e.control_step(ControlFrame::RoomsList { rooms }, 0) {
        ControlStep::Done(due) => {
            assert!(matches!(&due[0].reply, Reply::Rooms(list) if list[0].member_count == 2));
        }
        other => panic!("unexpected: {other:?}"),
    }
}

#[test]
fn the_peer_list_sets_the_peers() {
    let mut e = edge();
    let list = |ids: &[u8]| ControlFrame::PeerList {
        peers: ids.iter().map(|i| peer_info(*i, [0; 32])).collect(),
    };
    e.control_step(list(&[1, 2, 3]), 0);
    assert_eq!((e.peers.len(), e.dataplane.peers.len()), (2, 2));
    e.control_step(list(&[3, 4]), 0);
    let mut ids: Vec<u8> = (0..e.peers.len()).map(|i| e.peers.nth(i).key.0[0]).collect();
    ids.sort();
    assert_eq!(ids, vec![3, 4]);
    assert_eq!(e.dataplane.peers.len(), 2);
    let update = |id, action| ControlFrame::PeerUpdate { peer: peer_info(id, [0; 32]), action };
    e.control_step(update(5, PeerAction::Add), 0);
    e.control_step(update(3, PeerAction::Remove), 0);
    e.control_step(update(1, PeerAction::Add), 0);
    assert_eq!((e.peers.len(), e.dataplane.peers.len()), (2, 2));
    let told = e.peers_report(0);
    assert!(told.iter().all(|p| p.connection == "Relay" && p.rtt_ms.is_none()));
}

fn candidate(port: u16) -> Candidate {
    Candidate {
        kind: CandidateKind::HostLan,
        source: CandidateSource::LocalInterface,
        addr: at([10, 0, 0, 9], port),
        priority: 100,
        rtt_hint_ms: None,
    }
}

fn direct() -> PathMetrics {
    PathMetrics { rtt_bits: 0x4120_0000, jitter_bits: 0, loss_bits: 0, score_key: 0x4120_0000 }
}

#[test]
fn two_edges_agree_on_a_key() {
    let mut a = edge_of(1, 11);
    let mut b = edge_of(2, 12);
    a.control_step(
        ControlFrame::PeerList { peers: vec![peer_info(2, derive_public_key(&[12; 32]))] },
        0,
    );
    b.control_step(
        ControlFrame::PeerList { peers: vec![peer_info(1, derive_public_key(&[11; 32]))] },
        0,
    );
    a.start_registration(unknown_fingerprint(), vec![candidate(1)], &PortMappingSnapshot::default(), vec![]);
    assert!(a.punch(NodeId([7; 32]), vec![candidate(2)], 0).is_none());
    let burst = a.punch(NodeId([2; 32]), vec![candidate(2), candidate(3)], 0).unwrap();
    assert_eq!(burst.targets, vec![at([10, 0, 0, 9], 2), at([10, 0, 0, 9], 3)]);
    let from_a = at([10, 0, 0, 9], 1);
    let reply = b.handshake(NodeId([1; 32]), &burst.payload, from_a, direct(), SECOND).unwrap();
    assert_eq!(reply.target, from_a);
    let payload = match reply.frame {
        ControlFrame::Handshake { from, payload } => {
            assert_eq!(from, NodeId([2; 32]));
            payload
        }
        other => panic!("unexpected: {other:?}"),
    };
    let from_b = at([10, 0, 0, 9], 2);
    assert!(a.handshake(NodeId([2; 32]), &payload, from_b, direct(), SECOND).is_none());
    let key_a = a.dataplane.peers.get(&NodeId([2; 32])).unwrap().cipher.as_ref().unwrap().key;
    let key_b = b.dataplane.peers.get(&NodeId([1; 32])).unwrap().cipher.as_ref().unwrap().key;
    assert_eq!(key_a, key_b);
    assert_eq!(a.direct_addrs(), vec![from_b]);
    assert_eq!(a.dataplane.metrics.snapshot(0).handshake_successes, 1);
    assert_eq!(b.peers_report(0)[0].connection, "Direct");

    assert!(b.handshake(NodeId([9; 32]), &payload, from_b, direct(), SECOND).is_none());
}

#[test]
fn a_handshake_that_cannot_be_read_leads_nowhere() {
    let mut b = edge_of(2, 12);
    b.control_step(
        ControlFrame::PeerList { peers: vec![peer_info(1, derive_public_key(&[11; 32]))] },
        0,
    );
    assert!(b.handshake(NodeId([1; 32]), &[0; 50], fallback(), direct(), 0).is_none());
    assert!(b.dataplane.peers.get(&NodeId([1; 32])).unwrap().cipher.is_none());
}

fn key_of(e: &Edge, id: u8) -> [u8; 32] {
    e.dataplane.peers.get(&NodeId([id; 32])).unwrap().cipher.as_ref().unwrap().key
}

#[test]
fn a_new_handshake_brings_a_new_key_and_no_old_one_comes_back() {
    let mut a = edge_of(1, 11);
    let mut b = edge_of(2, 12);
    let list = |id, key: u8| ControlFrame::PeerList {
        peers: vec![peer_info(id, derive_public_key(&[key; 32]))],
    };
    a.control_step(list(2, 12), 0);
    b.control_step(list(1, 11), 0);
    let (from_a, from_b) = (at([10, 0, 0, 9], 1), at([10, 0, 0, 9], 2));
    let mut keys = Vec::new();
    let mut openings = Vec::new();
    for _ in 0..2 {
        let burst = a.punch(NodeId([2; 32]), vec![candidate(2)], 0).unwrap();
        assert_eq!(burst.payload.len(), 128);
        let reply = b.handshake(NodeId([1; 32]), &burst.payload, from_a, direct(), 0).unwrap();
        let ControlFrame::Handshake { payload, .. } = reply.frame else { panic!() };
        assert_eq!(payload.len(), 48);
        a.handshake(NodeId([2; 32]), &payload, from_b, direct(), 0);
        assert_eq!(key_of(&a, 2), key_of(&b, 1));
        keys.push(key_of(&a, 2));
        openings.push(burst.payload);
    }
    assert_ne!(keys[0], keys[1]);
    for opening in &openings {
        assert!(b.handshake(NodeId([1; 32]), opening, from_a, direct(), 0).is_some());
        assert_eq!(key_of(&b, 1), keys[1]);
    }
    assert_eq!(b.dataplane.metrics.snapshot(0).handshake_successes, 2);
    b.control_step(
        ControlFrame::PeerUpdate { peer: peer_info(1, [0; 32]), action: PeerAction::Remove },
        0,
    );
    b.control_step(list(1, 11), 0);
    b.handshake(NodeId([1; 32]), &openings[0], from_a, direct(), 0);
    assert!(b.dataplane.peers.get(&NodeId([1; 32])).unwrap().cipher.is_none());
    b.take_key(NodeId([1; 32]), Some([9; 32]), true, from_a, direct(), 0);
    assert_eq!(key_of(&b, 1), [9; 32]);
    b.take_key(NodeId([1; 32]), Some([8; 32]), false, from_a, direct(), 0);
    assert_eq!(key_of(&b, 1), [9; 32]);
}

#[test]
fn nobody_else_can_set_a_key_in_the_name_of_a_peer() {
    let mut b = edge_of(2, 12);
    let mut stranger = edge_of(1, 13);
    b.control_step(
        ControlFrame::PeerList { peers: vec![peer_info(1, derive_public_key(&[11; 32]))] },
        0,
    );
    stranger.control_step(
        ControlFrame::PeerList { peers: vec![peer_info(2, derive_public_key(&[12; 32]))] },
        0,
    );
    let burst = stranger.punch(NodeId([2; 32]), vec![candidate(2)], 0).unwrap();
    let from = at([10, 0, 0, 9], 1);
    assert!(b.handshake(NodeId([1; 32]), &burst.payload, from, direct(), 0).is_none());
    assert!(b.dataplane.peers.get(&NodeId([1; 32])).unwrap().cipher.is_none());
    assert!(b.direct_addrs().is_empty());
}

fn read(carried: usize, finished: bool) -> Option<ShakeRead> {
    Some(ShakeRead { carried: vec![7; carried], reply: Some(vec![1, 2]), finished })
}

#[test]
fn the_side_that_began_ends_with_the_key_it_sent() {
    let done = settle(true, Some([9; 32]), read(0, true));
    assert_eq!((done.response, done.key), (None, Some([9; 32])));
    assert!(done.finished && !done.goes_on);
    let open = settle(true, Some([9; 32]), read(40, false));
    assert_eq!((open.response, open.key), (None, None));
    assert!(!open.finished && open.goes_on);
}

#[test]
fn the_side_that_answers_takes_the_key_it_is_sent() {
    let done = settle(false, Some([9; 32]), read(33, true));
    assert_eq!((done.response, done.key), (Some(vec![1, 2]), Some([7; 32])));
    assert!(done.finished && !done.goes_on);
    let short = settle(false, Some([9; 32]), read(31, true));
    assert_eq!((short.response, short.key), (Some(vec![1, 2]), None));
    let unread = settle(false, Some([9; 32]), None);
    assert_eq!((unread.response, unread.key), (None, None));
    assert!(!unread.finished && !unread.goes_on);
}

#[test]
fn registration_says_where_the_node_is() {
    let mut e = edge();
    let mapping = PortMappingSnapshot {
        acquired: true,
        protocol: Some(PortMappingProtocol::Pcp),
        external_addr: Some(at([9; 4], 9)),
        lease_remaining: Some(60 * SECOND),
    };
    let o = e.start_registration(unknown_fingerprint(), vec![candidate(1)], &mapping, vec!["10.0.0.0/8".to_string()]);
    match o.frame {
        ControlFrame::RegisterNode { node_id, nat_type, external_addr, public_key, candidates, nickname, local_networks } => {
            assert_eq!(node_id, NodeId([1; 32]));
            assert!(matches!(nat_type, NatType::Unknown));
            assert_eq!(external_addr, Some(at([9; 4], 9)));
            assert_eq!(public_key, derive_public_key(&[11; 32]));
            assert_eq!(candidates.len(), 2);
            assert_eq!(nickname, "nick");
            assert_eq!(local_networks, vec!["10.0.0.0/8"]);
        }
        other => panic!("unexpected: {other:?}"),
    }
    assert!(e.mapping_changed(&mapping, vec![], SECOND).is_none());
    assert_eq!(e.runtime.port_mapping_protocol.as_deref(), Some("PCP"));
    assert_eq!(e.runtime.lease_secs(SECOND), 60);
    let gone = PortMappingSnapshot::default();
    let o = e.mapping_changed(&gone, vec![], SECOND).unwrap();
    assert!(matches!(&o.frame, ControlFrame::RegisterNode { candidates, .. } if candidates.len() == 1));
}

#[test]
fn a_lost_supernode_is_replaced_while_there_is_a_room() {
    let mut e = edge();
    assert!(e.watch(&vec![], vec![], 26 * SECOND).is_empty());
    assert!(!e.runtime.supernode_reachable);
    assert!(e.runtime.last_error.is_none());
    e.ask_join(invite().encode(), None);
    e.room_activated(activation(RoomId([5; 16])));
    e.note_activity(&fallback(), 30 * SECOND);
    assert!(e.watch(&vec![], vec![], 55 * SECOND).is_empty());
    assert!(e.runtime.supernode_reachable);
    let history = vec![HistoryItem {
        room_id: "r".to_string(),
        name: "home".to_string(),
        invite_code: invite().encode(),
        last_joined: 1,
    }];
    let out = e.watch(&history, vec![], 55 * SECOND + 1);
    assert_eq!(out.len(), 2);
    assert_eq!(out[0].target, at([2; 4], 2));
    assert!(matches!(&out[0].frame, ControlFrame::RegisterNode { .. }));
    assert!(matches!(&out[1].frame, ControlFrame::JoinRoom { room_name: Some(n), .. } if n == "home"));
    assert_eq!(e.supernode_addr, at([2; 4], 2));
    assert_eq!(
        e.runtime.last_error.as_deref(),
        Some("Supernode heartbeat timed out; trying fallback 2.2.2.2:2")
    );
    e.note_activity(&fallback(), 56 * SECOND);
    assert!(!e.runtime.supernode_reachable);
    e.note_activity(&at([2; 4], 2), 56 * SECOND);
    assert!(e.runtime.supernode_reachable);
}

#[test]
fn switching_leaves_the_room_and_registers_elsewhere() {
    let mut e = edge();
    e.room_activated(activation(RoomId([5; 16])));
    let (goodbye, hello) = e.switch_supernode(at([4; 4], 4), vec![]);
    assert!(matches!(goodbye.unwrap().frame, ControlFrame::LeaveRoom { .. }));
    assert_eq!(hello.target, at([4; 4], 4));
    assert_eq!(e.runtime.supernode_addr, "4.4.4.4:4");
    assert!(e.room_id.is_none());
    assert!(e.stop().is_none());
}

#[test]
fn status_is_told_in_words() {
    assert_eq!(status_text(false, true, true, true), "Supernode Unreachable");
    assert_eq!(status_text(false, false, true, true), "Waiting for supernode");
    assert_eq!(status_text(true, true, true, true), "Connected");
    assert_eq!(status_text(true, true, false, true), "Degraded");
    assert_eq!(status_text(true, false, false, true), "Disconnected");
}

fn item(room: &str, when: u64) -> HistoryItem {
    HistoryItem {
        room_id: room.to_string(),
        name: format!("name-{room}"),
        invite_code: format!("code-{room}"),
        last_joined: when,
    }
}

#[test]
fn history_is_kept_latest_first() {
    let list = add_to_history(
        vec![item("a", 1), item("b", 5)],
        "a".to_string(),
        "new".to_string(),
        "code".to_string(),
        9,
    );
    let ids: Vec<&str> = list.iter().map(|i| i.room_id.as_str()).collect();
    assert_eq!(ids, vec!["a", "b"]);
    assert_eq!(list[0].name, "new");
    let many = ordered_history((0..30).map(|i| item(&i.to_string(), i)).collect());
    assert_eq!(many.len(), 20);
    assert_eq!(many[0].last_joined, 29);
    assert_eq!(name_for_invite(&many, "code-15").as_deref(), Some("name-15"));
    assert_eq!(name_for_invite(&many, "code-1"), None);
}

#[test]
fn history_is_edited_by_room() {
    assert!(delete_history(vec![item("a", 1)], "b").is_none());
    assert!(delete_history(vec![item("a", 1)], "a").unwrap().is_empty());
    assert!(rename_history(vec![item("a", 1)], "b", "x".to_string()).is_none());
    let list = rename_history(vec![item("a", 1), item("b", 2)], "a", "x".to_string()).unwrap();
    assert_eq!(list[1].name, "x");
    assert_eq!(list[0].name, "name-b");
}
