use r2n::common::{InviteCode, NatType, NodeId, RoomId, VirtualIp};
use r2n::net::{ipv4_nets_overlap, IpAddr, Ipv4Net, SocketAddr};
use r2n::route::{add_result, build_route, remove_result, RouteError, SystemReply};
use r2n::sort::sorted_unique;
use r2n::text::{parse_number, push_decimal, same_text, trim};

#[test]
fn build_destination_network() {
    let network = Ipv4Net::parse("10.77.0.0/24").expect("cidr");
    assert_eq!(network.network(), u32::from_be_bytes([10, 77, 0, 0]));
    assert_eq!(network.prefix, 24);
}

#[test]
fn routes_go_to_the_network_over_the_interface() {
    let net = Ipv4Net::parse("10.77.3.9/16").unwrap();
    let plan = build_route(&net, "r2n0", Some(7), true).unwrap();
    assert_eq!(plan.destination, u32::from_be_bytes([10, 77, 0, 0]));
    assert_eq!((plan.prefix, plan.interface_index, plan.metric), (16, 7, Some(5)));
    assert_eq!(build_route(&net, "r2n0", Some(7), false).unwrap().metric, None);
    let err = build_route(&net, "r2n0", None, true).unwrap_err();
    assert_eq!(err.to_text(), "Route manipulation failed: unknown interface: r2n0");
}

#[test]
fn routes_that_are_there_or_gone_are_as_good() {
    assert_eq!(add_result(SystemReply::AlreadyExists("there".to_string())), Ok(()));
    assert_eq!(remove_result(SystemReply::NotFound("gone".to_string())), Ok(()));
    assert_eq!(
        add_result(SystemReply::NotFound("gone".to_string())).unwrap_err().to_text(),
        "IO error: gone"
    );
    assert_eq!(
        remove_result(SystemReply::AlreadyExists("there".to_string())).unwrap_err().to_text(),
        "IO error: there"
    );
    assert_eq!(
        add_result(SystemReply::Failed("busy".to_string())),
        Err(RouteError::Io("busy".to_string()))
    );
    assert_eq!(
        remove_result(SystemReply::Failed("busy".to_string())).unwrap_err().to_text(),
        "IO error: busy"
    );
}

#[test]
fn networks_read_and_print() {
    let net = Ipv4Net::parse("192.168.7.9/24").unwrap();
    assert_eq!(net.to_text(), "192.168.7.9/24");
    assert_eq!(net.network(), u32::from_be_bytes([192, 168, 7, 0]));
    assert_eq!(net.broadcast(), u32::from_be_bytes([192, 168, 7, 255]));
    assert!(net.contains(u32::from_be_bytes([192, 168, 7, 1])));
    assert!(!net.contains(u32::from_be_bytes([192, 168, 8, 1])));
    assert!(Ipv4Net::parse("192.168.7.9/33").is_none());
    assert!(Ipv4Net::parse("192.168.7.9").is_none());
    assert!(Ipv4Net::parse("x").is_none());
}

#[test]
fn networks_overlap_when_they_share_an_address() {
    let n = |s: &str| Ipv4Net::parse(s).unwrap();
    assert!(ipv4_nets_overlap(&n("10.0.0.0/8"), &n("10.200.0.0/24")));
    assert!(!ipv4_nets_overlap(&n("10.0.0.0/24"), &n("10.0.1.0/24")));
    assert!(ipv4_nets_overlap(&n("0.0.0.0/0"), &n("1.2.3.4/32")));
}

fn v6(groups: [u16; 8]) -> IpAddr {
    let mut o = [0u8; 16];
    for (i, g) in groups.iter().enumerate() {
        o[2 * i..2 * i + 2].copy_from_slice(&g.to_be_bytes());
    }
    IpAddr::V6(o)
}

#[test]
fn addresses_print_as_usual() {
    assert_eq!(SocketAddr::new(IpAddr::V4([127, 0, 0, 1]), 80).to_text(), "127.0.0.1:80");
    assert_eq!(v6([0x2001, 0xdb8, 0, 0, 0, 0, 0, 1]).to_text(), "2001:db8::1");
    assert_eq!(v6([0; 8]).to_text(), "::");
    assert_eq!(v6([0, 0, 0, 0, 0, 0xffff, 0x0102, 0x0304]).to_text(), "::ffff:1.2.3.4");
    assert_eq!(v6([1, 0, 2, 0, 0, 3, 4, 5]).to_text(), "1:0:2::3:4:5");
    let mut a = SocketAddr::new(v6([0xfe80, 0, 0, 0, 0, 0, 0, 1]), 9);
    assert_eq!(a.to_text(), "[fe80::1]:9");
    a.scope_id = 3;
    assert_eq!(a.to_text(), "[fe80::1%3]:9");
}

#[test]
fn unspecified_addresses_are_told() {
    assert!(IpAddr::V4([0; 4]).is_unspecified());
    assert!(IpAddr::V6([0; 16]).is_unspecified());
    assert!(!IpAddr::V4([0, 0, 0, 1]).is_unspecified());
}

#[test]
fn identifiers_print() {
    assert_eq!(NodeId([0xab; 32]).to_text(), "ab".repeat(32));
    assert_eq!(RoomId([1; 16]).to_text(), "01".repeat(16));
    assert_eq!(VirtualIp([10, 0, 0, 255]).to_text(), "10.0.0.255");
    assert_eq!(NatType::Symmetric.to_text(), "Symmetric");
    assert_eq!(InviteCode("abc".to_string()).to_text(), "abc");
}

#[test]
fn texts_are_trimmed_sorted_and_counted() {
    assert_eq!(trim(" \t a b \n"), "a b");
    assert_eq!(trim("\u{3000}x\u{a0}"), "x");
    let list = vec!["b".to_string(), "a".to_string(), "b".to_string(), "ab".to_string()];
    assert_eq!(sorted_unique(&list), vec!["a", "ab", "b"]);
    let mut s = String::from("n=");
    push_decimal(&mut s, 18446744073709551615);
    assert_eq!(s, "n=18446744073709551615");
    assert!(same_text("a", "a") && !same_text("a", "A"));
    let chars = |s: &str| s.chars().collect::<Vec<char>>();
    assert_eq!(parse_number(&chars("65535"), 65535), Some(65535));
    assert_eq!(parse_number(&chars("+7"), 65535), Some(7));
    assert_eq!(parse_number(&chars("65536"), 65535), None);
    assert_eq!(parse_number(&chars(""), 65535), None);
    assert_eq!(parse_number(&chars("1a"), 65535), None);
}

#[test]
fn addresses_are_read() {
    let read = |s: &str| SocketAddr::parse(s).map(|a| a.to_text());
    let same = |s: &str| assert_eq!(read(s).as_deref(), Some(s));
    same("127.0.0.1:80");
    same("255.255.255.255:65535");
    same("[::]:0");
    same("[2001:db8::1]:443");
    same("[1:2:3:4:5:6:7:8]:9");
    same("[fe80::1%3]:9");
    same("[::ffff:1.2.3.4]:5");
    assert_eq!(read("1.2.3.4:00080").as_deref(), Some("1.2.3.4:80"));
    assert_eq!(read("[1:2:3:4:5:6:7::]:9").as_deref(), Some("[1:2:3:4:5:6:7:0]:9"));
    assert_eq!(read("[1:2:3:4:5:6:1.2.3.4]:9").as_deref(), Some("[1:2:3:4:5:6:102:304]:9"));
    assert_eq!(read("[::ABCD]:9").as_deref(), Some("[::abcd]:9"));
    for bad in [
        "", ":", "1.2.3.4", "1.2.3:80", "1.2.3.4.5:80", "256.1.1.1:80", "01.2.3.4:80", "1.2.3.4:",
        "1.2.3.4:65536", "1.2.3.4:+80", " 1.2.3.4:80", "::1:80", "[::1]", "[::1]80", "[1::2::3]:4",
        "[1:2:3:4:5:6:7:8::]:9", "[12345::]:9", "[:1]:9", "[1:]:9", "[:::]:9", "[1.2.3.4::]:9",
        "[1:2:3:4:5:6:7]:9", "[::1%]:9", "[::1%x]:9", "[::g]:9", "localhost:80", "]:80", "[]:80",
    ] {
        assert_eq!(read(bad), None, "{bad}");
    }
}
