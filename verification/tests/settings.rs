use r2n::cli::{
    apply_overrides, boot_wait, parse_port_ranges, pick_invite, response_timeout, timeout_text,
    with_primary, Commands, PickError, PortRangeError, RoomCommands, RulesCommands, SupernodeCommands,
};
use r2n::common::NodeId;
use r2n::config::{
    default_stun_servers, key_from_text, key_to_text, BackendConfig, BackendMode, EdgeConfig,
    SharedConfigFile, SupernodeConfig,
};
use r2n::endpoints::{backend_request_label, device_fallback, normalize_tun_mtu};
use r2n::ipc::{
    answered_invites, ipc_path, read_answer, read_line, read_request, Request, RequestFields,
};
use r2n::net::{IpAddr, SocketAddr};
use r2n::policy::PortRange;
use r2n::tun::{TunDeviceMode, MIN_TUN_MTU};

#[test]
fn edge_config_defaults_virtual_lan_discovery() {
    let config = EdgeConfig::default();
    assert!(config.discovery.broadcast);
    assert!(config.discovery.subnet_broadcast);
    assert!(config.discovery.multicast);
    assert!(config.discovery.mdns);
    assert!(config.discovery.ssdp);
    assert!(!config.discovery.netbios);
    assert_eq!(config.discovery.rate_limit_pps, 100);
    assert_eq!(config.backend.mode, BackendMode::Tun);
    assert!(!config.backend.desktop_l2_enhanced);
    assert!(config.virtual_lan.prefer_virtual_interface);
}

#[test]
fn edge_and_supernode_save_merge_into_shared_file() {
    let mut edge = EdgeConfig::default();
    edge.default_supernode = "203.0.113.10:7777".to_string();
    let file = SharedConfigFile::default().with_edge(edge);

    let mut supernode = SupernodeConfig::default();
    supernode.listen_port = 9000;
    let file = file.with_supernode(supernode);

    assert!(file.edge.is_some());
    assert!(file.supernode.is_some());
    let again = SharedConfigFile { edge: file.edge, supernode: file.supernode };
    assert_eq!(again.edge.as_ref().unwrap().default_supernode, "203.0.113.10:7777");
    let loaded_supernode = again.supernode_config(None).unwrap();
    assert_eq!(loaded_supernode.listen_port, 9000);
}

#[test]
fn edge_save_preserves_existing_supernode_section() {
    let mut supernode = SupernodeConfig::default();
    supernode.management_bind = "127.0.0.1:9001".to_string();
    let file = SharedConfigFile::default().with_supernode(supernode);

    let mut edge = EdgeConfig::default();
    edge.default_tun_name = "r2n-test".to_string();
    let file = file.with_edge(edge);

    let loaded_supernode = file.supernode_config(None).unwrap();
    assert_eq!(loaded_supernode.management_bind, "127.0.0.1:9001");
}

#[test]
fn a_fresh_identity_is_drawn_each_time() {
    let a = EdgeConfig::default();
    let b = EdgeConfig::default();
    assert_ne!(a.node_id, b.node_id);
    assert_ne!(a.private_key, b.private_key);
    assert_ne!(SupernodeConfig::default().admin_token, SupernodeConfig::default().admin_token);
    assert!(!default_stun_servers().is_empty());
}

#[test]
fn the_default_supernode_is_listed_first() {
    let mut config = EdgeConfig::with_identity(NodeId([1; 32]), [2; 32]);
    config.default_supernode = "a:1".to_string();
    config.supernodes = vec!["b:2".to_string()];
    config.normalize();
    assert!(config.supernodes.contains(&"a:1".to_string()));
    assert!(config.supernodes.contains(&"b:2".to_string()));
}

#[test]
fn keys_are_written_in_hexadecimal() {
    let key = [0x1fu8; 32];
    let text = key_to_text(&key);
    assert_eq!(text, "1f".repeat(32));
    assert_eq!(key_from_text(&text), Ok(key));
    assert!(key_from_text("1f").is_err());
    assert_eq!(
        key_from_text(&"zz".repeat(32)).unwrap_err().to_text(),
        "Invalid character 'z' at position 0"
    );
    assert_eq!(key_from_text("1f1").unwrap_err().to_text(), "Odd number of digits");
    assert_eq!(key_from_text("1f").unwrap_err().to_text(), "Private key must be 32 bytes");
}

#[test]
fn normalize_tun_mtu_enforces_floor_without_lowering_higher_values() {
    assert_eq!(normalize_tun_mtu(MIN_TUN_MTU - 80), MIN_TUN_MTU);
    assert_eq!(normalize_tun_mtu(MIN_TUN_MTU), MIN_TUN_MTU);
    assert_eq!(normalize_tun_mtu(1400), 1400);
}

#[test]
fn backend_request_label_reflects_tap_and_l2_enhanced_modes() {
    let tun = BackendConfig::default();
    assert_eq!(backend_request_label(&tun), "tun");

    let tap = BackendConfig {
        mode: BackendMode::Tap,
        desktop_l2_enhanced: false,
    };
    assert_eq!(backend_request_label(&tap), "tap");

    let enhanced = BackendConfig {
        mode: BackendMode::Tun,
        desktop_l2_enhanced: true,
    };
    assert_eq!(backend_request_label(&enhanced), "tap");
}

#[test]
fn a_tap_device_falls_back_to_tun() {
    assert!(device_fallback(TunDeviceMode::Tun, "x").is_none());
    let (mode, warning) = device_fallback(TunDeviceMode::Tap, "no driver").unwrap();
    assert_eq!(mode, TunDeviceMode::Tun);
    assert_eq!(
        warning,
        "requested TAP/L2 backend is unavailable: no driver; falling back to TUN"
    );
}

#[test]
fn clients_find_the_edge() {
    assert_eq!(ipc_path(Some(" /run/x.sock ".to_string()), None), "/run/x.sock");
    assert_eq!(ipc_path(Some("  ".to_string()), Some("ann".to_string())), "/tmp/r2n_ipc_ann.sock");
    assert_eq!(ipc_path(None, None), "/tmp/r2n_ipc_default.sock");
}

fn no_fields() -> RequestFields {
    RequestFields { name: None, invite: None, room_id: None, supernode: None, id: None, enabled: None }
}

#[test]
fn requests_are_read_as_they_were_written() {
    let all = vec![
        Request::Create { name: "n".to_string() },
        Request::Join { invite: "i".to_string() },
        Request::Leave,
        Request::DeleteHistory { room_id: "r".to_string() },
        Request::RenameHistory { room_id: "r".to_string(), name: "n".to_string() },
        Request::RulesEnable { enabled: false },
        Request::RulesRemove { id: "x".to_string() },
        Request::Routes,
    ];
    for r in all {
        let back = read_request(r.word(), r.fields()).unwrap();
        assert_eq!(format!("{back:?}"), format!("{r:?}"));
    }
}

#[test]
fn missing_fields_have_their_defaults() {
    assert!(matches!(
        read_request("create", no_fields()),
        Some(Request::Create { name }) if name == "Room"
    ));
    assert!(matches!(
        read_request("join", no_fields()),
        Some(Request::Join { invite }) if invite.is_empty()
    ));
    assert!(matches!(
        read_request("rules_enable", no_fields()),
        Some(Request::RulesEnable { enabled: true })
    ));
    assert!(matches!(read_request("rules", no_fields()), Some(Request::RulesList)));
    assert!(read_request("nothing", no_fields()).is_none());
}

#[test]
fn commands_ask_for_what_they_name() {
    let word = |c: Commands| c.request().map(|r| r.word());
    assert_eq!(word(Commands::Doctor), Some("diagnose"));
    assert_eq!(word(Commands::Room { action: RoomCommands::List }), Some("peers"));
    assert_eq!(
        word(Commands::Room { action: RoomCommands::Join { invite: None, index: None } }),
        None
    );
    assert_eq!(
        word(Commands::Supernode { action: SupernodeCommands::Switch { addr: "a".to_string() } }),
        Some("switch_supernode")
    );
    assert!(matches!(
        Commands::Rules { action: RulesCommands::Disable }.request(),
        Some(Request::RulesEnable { enabled: false })
    ));
    assert_eq!(word(Commands::Daemon { supernode: None, tun: None }), None);
}

#[test]
fn invitations_are_picked_from_the_history() {
    let history = vec![Some("first".to_string()), None];
    assert_eq!(pick_invite(Some(1), None, &history), Ok("first".to_string()));
    assert_eq!(pick_invite(Some(2), None, &history), Err(PickError::NoInvite));
    assert_eq!(pick_invite(Some(0), None, &history), Err(PickError::NoSuchIndex));
    assert_eq!(pick_invite(Some(3), None, &history), Err(PickError::NoSuchIndex));
    assert_eq!(pick_invite(None, Some("x".to_string()), &history), Ok("x".to_string()));
    assert_eq!(pick_invite(None, None, &history), Err(PickError::Unspecified));
}

#[test]
fn port_lists_are_read() {
    assert_eq!(parse_port_ranges(None), Ok(vec![]));
    assert_eq!(
        parse_port_ranges(Some(" 80, 1000-2000 ,,443".to_string())),
        Ok(vec![
            PortRange { start: 80, end: 80 },
            PortRange { start: 1000, end: 2000 },
            PortRange { start: 443, end: 443 },
        ])
    );
    assert_eq!(
        parse_port_ranges(Some("80,9-8".to_string())),
        Err(PortRangeError::Reversed("9-8".to_string()))
    );
    assert_eq!(
        parse_port_ranges(Some("80,70000".to_string())),
        Err(PortRangeError::NotANumber("70000".to_string()))
    );
    assert_eq!(
        parse_port_ranges(Some("1-2-3".to_string())),
        Err(PortRangeError::NotANumber("2-3".to_string()))
    );
}

#[test]
fn answers_are_waited_for() {
    assert_eq!((response_timeout(false), response_timeout(true)), (30, 40));
    assert_eq!(timeout_text(false), "daemon did not answer within 30 seconds");
    assert!(timeout_text(true).starts_with("daemon started but did not answer the first command within 40 seconds;"));
}

#[test]
fn the_command_line_goes_over_the_configuration() {
    let mut config = EdgeConfig::with_identity(NodeId([1; 32]), [2; 32]);
    config.default_supernode = "a:1".to_string();
    config.supernodes = vec!["a:1".to_string()];
    assert!(!apply_overrides(&mut config, None, None));
    assert!(!apply_overrides(&mut config, Some("a:1".to_string()), None));
    assert!(apply_overrides(&mut config, Some("b:2".to_string()), Some("t0".to_string())));
    assert_eq!(config.default_supernode, "b:2");
    assert_eq!(config.default_tun_name, "t0");
    assert_eq!(config.supernodes, vec!["b:2".to_string(), "a:1".to_string()]);
    let a = SocketAddr::new(IpAddr::V4([1, 1, 1, 1]), 1);
    let b = SocketAddr::new(IpAddr::V4([2, 2, 2, 2]), 2);
    assert_eq!(with_primary(vec![a], b), vec![b, a]);
    assert_eq!(with_primary(vec![a, b], b), vec![a, b]);
}

#[test]
fn a_line_is_read_as_a_request() {
    assert!(matches!(
        read_line("{\"command\":\"create\",\"name\":\"den\"}\n"),
        Some(Request::Create { name }) if name == "den"
    ));
    assert!(matches!(
        read_line("{\"command\":\"create\",\"name\":7}"),
        Some(Request::Create { name }) if name == "Room"
    ));
    assert!(matches!(
        read_line(" {\"enabled\": false, \"command\": \"rules_enable\"}"),
        Some(Request::RulesEnable { enabled: false })
    ));
    assert!(matches!(
        read_line("{\"command\":\"update_history_name\",\"room_id\":\"r\",\"name\":\"n\"}"),
        Some(Request::RenameHistory { room_id, name }) if room_id == "r" && name == "n"
    ));
    for line in ["", "create", "{\"command\":\"dance\"}", "{\"command\":3}", "[\"create\"]", "{\"command\""] {
        assert!(read_line(line).is_none());
    }
}

#[test]
fn an_answer_tells_whether_it_was_done() {
    assert_eq!(read_answer("{\"status\":\"ok\"}\n"), Ok(()));
    assert_eq!(read_answer("{\"peers\":[]}"), Ok(()));
    assert_eq!(
        read_answer("{\"status\":\"error\",\"error\":\"rule not found\"}"),
        Err("rule not found".to_string())
    );
    assert_eq!(
        read_answer("{\"status\":\"error\"}"),
        Err("local daemon command failed".to_string())
    );
    assert!(read_answer("").unwrap_err().starts_with("EOF while parsing a value"));
    let list = "{\"history\":[{\"invite_code\":\"a\"},{\"name\":\"b\"}]}";
    assert_eq!(answered_invites(list), Some(vec![Some("a".to_string()), None]));
    assert_eq!(answered_invites("{\"status\":\"ok\"}"), None);
}

#[test]
fn a_client_looks_for_a_new_edge_fifteen_times() {
    assert_eq!(boot_wait(0), Some(200));
    assert_eq!(boot_wait(14), Some(200));
    assert_eq!(boot_wait(15), None);
}
