use r2n::defense::{
    build_icmp_frag_needed, clamp_is_defined, clamp_mss, ip_checksum, recompute_tcp_checksum,
};

// Helper to compute IPv4 header checksum
fn calculate_ipv4_checksum(hdr: &mut [u8]) {
    hdr[10] = 0;
    hdr[11] = 0;
    let cksum = ip_checksum(hdr);
    hdr[10..12].copy_from_slice(&cksum.to_be_bytes());
}

fn syn_packet(flags: u8, mss: u16) -> Vec<u8> {
    let mut pkt = vec![0u8; 44];
    pkt[0] = 0x45;
    pkt[2..4].copy_from_slice(&44u16.to_be_bytes());
    pkt[9] = 6;
    pkt[12..16].copy_from_slice(&[10, 0, 0, 1]);
    pkt[16..20].copy_from_slice(&[10, 0, 0, 2]);
    calculate_ipv4_checksum(&mut pkt[0..20]);
    {
        let (ip, tcp) = pkt.split_at_mut(20);
        tcp[12] = 0x60;
        tcp[13] = flags;
        tcp[20] = 2;
        tcp[21] = 4;
        tcp[22..24].copy_from_slice(&mss.to_be_bytes());
        recompute_tcp_checksum(ip, tcp);
    }
    pkt
}

#[test]
fn test_clamp_mss_ipv4_tcp_syn() {
    let mut pkt = syn_packet(0x02, 1460);

    // Clamp MSS to 1280 (minimum effective MTU) -> max MSS = 1280 - 40 = 1240
    let clamped = clamp_mss(&mut pkt, 1280);
    assert!(clamped);

    // Verify MSS is clamped to 1240
    let clamped_mss = u16::from_be_bytes([pkt[42], pkt[43]]);
    assert_eq!(clamped_mss, 1240);

    // Verify TCP checksum matches recomputed checksum
    let original_cksum = u16::from_be_bytes([pkt[36], pkt[37]]);
    {
        let (ip, tcp) = pkt.split_at_mut(20);
        recompute_tcp_checksum(ip, tcp);
    }
    let recomputed_cksum = u16::from_be_bytes([pkt[36], pkt[37]]);
    assert_eq!(original_cksum, recomputed_cksum);
}

#[test]
fn test_clamp_mss_ipv4_tcp_syn_smaller() {
    let mut pkt = syn_packet(0x02, 1000); // Already smaller than 1240
    let clamped = clamp_mss(&mut pkt, 1280);
    assert!(!clamped);

    let current_mss = u16::from_be_bytes([pkt[42], pkt[43]]);
    assert_eq!(current_mss, 1000);
}

#[test]
fn test_clamp_mss_non_syn() {
    let mut pkt = syn_packet(0x10, 1460); // ACK flag only (no SYN)
    let clamped = clamp_mss(&mut pkt, 1280);
    assert!(!clamped);
}

#[test]
fn clamping_twice_changes_nothing_more() {
    let mut pkt = syn_packet(0x02, 1460);
    assert!(clamp_mss(&mut pkt, 1280));
    let once = pkt.clone();
    assert!(!clamp_mss(&mut pkt, 1280));
    assert_eq!(pkt, once);
}

#[test]
fn clamping_walks_over_other_options() {
    // NOP, window scale (3 bytes), then the segment size.
    let mut pkt = vec![0u8; 48];
    pkt[0] = 0x45;
    pkt[9] = 6;
    let tcp = &mut pkt[20..];
    tcp[12] = 0x70;
    tcp[13] = 0x12;
    tcp[20] = 1;
    tcp[21..24].copy_from_slice(&[3, 3, 7]);
    tcp[24..28].copy_from_slice(&[2, 4, 0xff, 0xff]);
    assert!(clamp_is_defined(&pkt, 1400));
    assert!(clamp_mss(&mut pkt, 1400));
    assert_eq!(pkt[44..48], [2, 4, 0x05, 0x50]);
    assert_eq!(pkt[40..44], [1, 3, 3, 7]);
}

#[test]
fn clamping_stops_at_the_end_of_options() {
    let mut pkt = syn_packet(0x02, 1460);
    pkt[40] = 0;
    assert!(!clamp_mss(&mut pkt, 1280));
    let mut short = vec![0x45u8; 39];
    assert!(!clamp_mss(&mut short, 1280));
    let mut v6 = syn_packet(0x02, 1460);
    v6[0] = 0x65;
    assert!(!clamp_mss(&mut v6, 1280));
}

#[test]
fn clamping_is_not_defined_on_a_cut_option() {
    // Two more options are promised than the packet holds.
    let mut pkt = syn_packet(0x02, 1460);
    pkt.truncate(42);
    pkt[32] = 0x60;
    assert!(!clamp_is_defined(&pkt, 1280));
    assert!(clamp_is_defined(&syn_packet(0x02, 1460), 1280));
    assert!(clamp_is_defined(&[], 1280));
}

#[test]
fn test_build_icmp_frag_needed() {
    // Construct original IPv4 packet with DF set
    let mut original = vec![0u8; 100];
    original[0] = 0x45;
    original[2..4].copy_from_slice(&100u16.to_be_bytes());
    original[6] = 0x40; // Don't Fragment flag (0x4000)
    original[9] = 17; // UDP Protocol
    original[12..16].copy_from_slice(&[10, 0, 0, 1]); // Source IP
    original[16..20].copy_from_slice(&[10, 0, 0, 2]); // Dest IP
    calculate_ipv4_checksum(&mut original[0..20]);
    // Dummy payload
    original[20..28].copy_from_slice(&[1, 2, 3, 4, 5, 6, 7, 8]);

    let next_hop_mtu = 1280u16;
    let icmp_opt = build_icmp_frag_needed(&original, next_hop_mtu);
    assert!(icmp_opt.is_some());
    let icmp_pkt = icmp_opt.unwrap();

    // ICMP packet total length: 20 (IP) + 8 (ICMP Header) + 28 (original IP + 8 payload bytes) = 56 bytes
    assert_eq!(icmp_pkt.len(), 56);

    // Verify Outer IP header of ICMP response
    assert_eq!(icmp_pkt[0], 0x45);
    assert_eq!(icmp_pkt[9], 1); // Protocol = 1 (ICMP)
    assert_eq!(&icmp_pkt[12..16], &[10, 0, 0, 2]); // Source IP is now original Dest
    assert_eq!(&icmp_pkt[16..20], &[10, 0, 0, 1]); // Dest IP is now original Source

    // Verify ICMP Header fields
    assert_eq!(icmp_pkt[20], 3); // Type = 3 (Destination Unreachable)
    assert_eq!(icmp_pkt[21], 4); // Code = 4 (Fragmentation Needed and DF set)

    // Verify Next-Hop MTU is correct
    let mtu = u16::from_be_bytes([icmp_pkt[26], icmp_pkt[27]]);
    assert_eq!(mtu, next_hop_mtu);

    // Verify original IP header is nested starting at offset 28
    assert_eq!(icmp_pkt[28], 0x45);
    assert_eq!(&icmp_pkt[40..44], &[10, 0, 0, 1]); // Nested original source IP
}

#[test]
fn frag_needed_checksums_are_valid() {
    let mut original = vec![0u8; 40];
    original[0] = 0x45;
    original[12..16].copy_from_slice(&[10, 1, 2, 3]);
    original[16..20].copy_from_slice(&[10, 4, 5, 6]);
    original[20..28].copy_from_slice(&[9, 8, 7, 6, 5, 4, 3, 2]);
    let pkt = build_icmp_frag_needed(&original, 1400).unwrap();
    assert_eq!(ip_checksum(&pkt[..20]), 0);
    assert_eq!(ip_checksum(&pkt[20..]), 0);
    assert_eq!(pkt[8], 64);
    assert_eq!(pkt[2..4], [0, 56]);
}

#[test]
fn frag_needed_wants_eight_bytes_behind_the_header() {
    let mut original = vec![0u8; 27];
    original[0] = 0x45;
    assert!(build_icmp_frag_needed(&original, 1280).is_none());
    original.push(0);
    assert!(build_icmp_frag_needed(&original, 1280).is_some());
}

#[test]
fn checksum_of_known_words() {
    assert_eq!(ip_checksum(&[]), 0xffff);
    assert_eq!(ip_checksum(&[0x12, 0x34]), !0x1234);
    assert_eq!(ip_checksum(&[0xff, 0xff, 0x00, 0x01]), 0xfffe);
    assert_eq!(ip_checksum(&[0x01]), !0x0100);
}
