//! Adapting IP packets to the tunnel.

use ipv8plus::compat::checksum::{
    checksum, icmp_checksum, ip_header_checksum, ones_complement_sum, tcp_checksum_v4, tcp_checksum_v6,
};
use ipv8plus::compat::icmp::{
    generate_frag_needed_v4, generate_packet_too_big_v6, generate_time_exceeded_v4, generate_time_exceeded_v6,
};
use ipv8plus::compat::ip::{
    ip_version, ipv4_df_set, ipv4_dst, ipv4_ihl, ipv4_proto, ipv4_src, ipv4_ttl, ipv6_hop_limit, ipv6_next_header,
    ipv6_src, l4_offset,
};
use ipv8plus::compat::mss::{clamp_mss, read_mss};
use ipv8plus::compat::ttl::{decrement_ttl, is_multicast_or_broadcast};
use ipv8plus::compat::{process_inbound, process_outbound, Outcome};

const LOCALHOST: [u8; 16] = [0, 0, 0, 0, 0, 0, 0, 0, 0, 0, 0, 0, 0, 0, 0, 1];

fn v6(groups: [u16; 8]) -> [u8; 16] {
    let mut a = [0u8; 16];
    for (i, g) in groups.iter().enumerate() {
        a[2 * i..2 * i + 2].copy_from_slice(&g.to_be_bytes());
    }
    a
}

#[test]
fn ip_header_checksum_self_consistent() {
    let mut h = [
        0x45, 0x00, 0x00, 0x73, 0x00, 0x00, 0x40, 0x00, 0x40, 0x11, 0x00, 0x00, 0xc0, 0xa8,
        0x00, 0x01, 0xc0, 0xa8, 0x00, 0xc7,
    ];
    let cs = ip_header_checksum(&mut h);
    h[10] = (cs >> 8) as u8;
    h[11] = cs as u8;
    assert_eq!(checksum(&h), 0);
}

#[test]
fn checksum_changes_when_byte_changes() {
    let mut a = [0x45u8, 0, 0, 40, 0, 0, 0, 0, 64, 6, 0, 0, 10, 0, 0, 1, 10, 0, 0, 2];
    let c1 = ip_header_checksum(&mut a);
    a[0] ^= 0x01;
    let c2 = ip_header_checksum(&mut a);
    assert_ne!(c1, c2);
}

#[test]
fn icmp_checksum_self_consistent() {
    let mut icmp = vec![
        8u8, 0, 0, 0, 0, 1, 0, 1, b'a', b'b', b'c', b'd', b'e', b'f', b'g', b'h',
    ];
    let cs = icmp_checksum(&mut icmp);
    icmp[2] = (cs >> 8) as u8;
    icmp[3] = cs as u8;
    assert_eq!(checksum(&icmp), 0);
}

#[test]
fn tcp_checksum_v4_self_consistent() {
    let mut pkt = vec![0u8; 40];

    pkt[0] = 0x45;
    pkt[1] = 0x00;
    pkt[2..4].copy_from_slice(&40u16.to_be_bytes());
    pkt[8] = 64;
    pkt[9] = 6;
    pkt[12..16].copy_from_slice(&[10, 0, 0, 1]);
    pkt[16..20].copy_from_slice(&[10, 0, 0, 2]);

    pkt[20..22].copy_from_slice(&1234u16.to_be_bytes());
    pkt[22..24].copy_from_slice(&80u16.to_be_bytes());
    pkt[24..28].copy_from_slice(&1u32.to_be_bytes());
    pkt[28..32].copy_from_slice(&0u32.to_be_bytes());
    pkt[32] = 5 << 4;
    pkt[33] = 0x02;
    pkt[34..36].copy_from_slice(&65535u16.to_be_bytes());

    let cs = tcp_checksum_v4(&pkt, 20);
    pkt[36] = (cs >> 8) as u8;
    pkt[37] = cs as u8;

    let mut pseudo = [0u8; 12];
    pseudo[0..4].copy_from_slice(&pkt[12..16]);
    pseudo[4..8].copy_from_slice(&pkt[16..20]);
    pseudo[9] = 6;
    pseudo[10..12].copy_from_slice(&20u16.to_be_bytes());
    let sum = ones_complement_sum(&pseudo) as u32
        + ones_complement_sum(&pkt[20..]) as u32;
    let folded = ((sum & 0xffff) + (sum >> 16)) as u16;
    assert_eq!(folded, 0xffff);
}

#[test]
fn tcp_checksum_v6_with_extension_header_uses_tcp_proto() {
    let mut pkt = vec![0u8; 68];
    pkt[0] = 0x60;
    pkt[4..6].copy_from_slice(&28u16.to_be_bytes());
    pkt[6] = 0;
    pkt[7] = 64;
    pkt[8..24].copy_from_slice(&[0x20u8, 1, 0x0d, 0xb8, 0, 0, 0, 0, 0, 0, 0, 0, 0, 0, 0, 1]);
    pkt[24..40].copy_from_slice(&[0x20u8, 1, 0x0d, 0xb8, 0, 0, 0, 0, 0, 0, 0, 0, 0, 0, 0, 2]);

    pkt[40] = 6;
    pkt[41] = 0;

    pkt[48..50].copy_from_slice(&1234u16.to_be_bytes());
    pkt[50..52].copy_from_slice(&80u16.to_be_bytes());
    pkt[52..56].copy_from_slice(&1u32.to_be_bytes());
    pkt[60] = 5 << 4;
    pkt[61] = 0x02;
    pkt[62..64].copy_from_slice(&65535u16.to_be_bytes());
    let cs = tcp_checksum_v6(&pkt, 48);
    pkt[64] = (cs >> 8) as u8;
    pkt[65] = cs as u8;

    let mut pseudo = [0u8; 40];
    pseudo[0..16].copy_from_slice(&pkt[8..24]);
    pseudo[16..32].copy_from_slice(&pkt[24..40]);
    pseudo[32..36].copy_from_slice(&20u32.to_be_bytes());
    pseudo[39] = 6;
    let sum = ones_complement_sum(&pseudo) as u32
        + ones_complement_sum(&pkt[48..]) as u32;
    let folded = ((sum & 0xffff) + (sum >> 16)) as u16;
    assert_eq!(folded, 0xffff);
}

fn make_ipv4_echo(ttl: u8) -> Vec<u8> {
    let mut p = vec![0u8; 28];
    p[0] = 0x45;
    p[2..4].copy_from_slice(&28u16.to_be_bytes());
    p[8] = ttl;
    p[9] = 1;
    p[12..16].copy_from_slice(&[10, 0, 0, 1]);
    p[16..20].copy_from_slice(&[10, 0, 0, 2]);
    p[20] = 8;
    p[21] = 0;
    p
}

#[test]
fn time_exceeded_v4_structure() {
    let orig = make_ipv4_echo(1);
    let pkt = generate_time_exceeded_v4(&orig, [10, 0, 0, 1]).unwrap();

    assert_eq!(pkt[0] >> 4, 4);
    assert_eq!(pkt[9], 1);

    assert_eq!(pkt[20], 11);
    assert_eq!(pkt[21], 0);

    assert_eq!(&pkt[28..48], &orig[..20]);

    let icmp_data = &pkt[20..];
    assert_eq!(ones_complement_sum(icmp_data), 0xffff);
}

#[test]
fn frag_needed_v4_mtu_field() {
    let orig = make_ipv4_echo(64);
    let pkt = generate_frag_needed_v4(&orig, [10, 0, 0, 1], 1392).unwrap();
    assert_eq!(pkt[20], 3);
    assert_eq!(pkt[21], 4);
    let mtu = u16::from_be_bytes([pkt[26], pkt[27]]);
    assert_eq!(mtu, 1392);
}

#[test]
fn time_exceeded_v6_structure() {
    let mut orig = vec![0u8; 48];
    orig[0] = 0x60;
    orig[4..6].copy_from_slice(&8u16.to_be_bytes());
    orig[6] = 58;
    orig[7] = 1;
    orig[8..24].copy_from_slice(&LOCALHOST);
    orig[24..40].copy_from_slice(&[0u8; 16]);
    let pkt = generate_time_exceeded_v6(&orig, LOCALHOST).unwrap();
    assert_eq!(pkt[0] >> 4, 6);
    assert_eq!(pkt[6], 58);
    assert_eq!(pkt[40], 3);
    assert_eq!(pkt[41], 0);

    assert_eq!(&pkt[48..88], &orig[..40]);

    let mut sum = {
        let mut pseudo = [0u8; 40];
        pseudo[0..16].copy_from_slice(&pkt[8..24]);
        pseudo[16..32].copy_from_slice(&pkt[24..40]);
        pseudo[32..36].copy_from_slice(&((pkt.len() - 40) as u32).to_be_bytes());
        pseudo[39] = 58;
        ones_complement_sum(&pseudo) as u32
            + ones_complement_sum(&pkt[40..]) as u32
    };
    while sum >> 16 != 0 {
        sum = (sum & 0xffff) + (sum >> 16);
    }
    assert_eq!(sum as u16, 0xffff, "ICMPv6 校验和必须覆盖伪首部");
}

#[test]
fn packet_too_big_v6_mtu_and_checksum() {
    let mut orig = vec![0u8; 60];
    orig[0] = 0x60;
    orig[4..6].copy_from_slice(&20u16.to_be_bytes());
    orig[6] = 6;
    orig[7] = 64;
    orig[8..24].copy_from_slice(&v6([0x2001, 0xdb8, 0, 0, 0, 0, 0, 1]));
    orig[24..40].copy_from_slice(&v6([0x2001, 0xdb8, 0, 0, 0, 0, 0, 2]));
    let our = v6([0x2001, 0xdb8, 0, 0, 0, 0, 0, 0xfe]);
    let pkt = generate_packet_too_big_v6(&orig, our, 1392).unwrap();
    assert_eq!(pkt[40], 2);
    assert_eq!(u32::from_be_bytes(pkt[44..48].try_into().unwrap()), 1392);

    let mut sum = {
        let mut pseudo = [0u8; 40];
        pseudo[0..16].copy_from_slice(&pkt[8..24]);
        pseudo[16..32].copy_from_slice(&pkt[24..40]);
        pseudo[32..36].copy_from_slice(&((pkt.len() - 40) as u32).to_be_bytes());
        pseudo[39] = 58;
        ones_complement_sum(&pseudo) as u32
            + ones_complement_sum(&pkt[40..]) as u32
    };
    while sum >> 16 != 0 {
        sum = (sum & 0xffff) + (sum >> 16);
    }
    assert_eq!(sum as u16, 0xffff);

    assert_eq!(&pkt[8..24], &our);
}

#[test]
fn malformed_returns_none() {
    assert!(generate_time_exceeded_v4(&[], [0; 4]).is_none());
    assert!(generate_frag_needed_v4(&[0x45], [0; 4], 1000).is_none());
    assert!(generate_time_exceeded_v6(&[0x60], [0u8; 16]).is_none());
}

#[test]
fn ipv4_basic_fields() {
    let mut p = vec![0u8; 20];
    p[0] = 0x45;
    p[8] = 64;
    p[9] = 6;
    p[12..16].copy_from_slice(&[10, 0, 0, 1]);
    p[16..20].copy_from_slice(&[10, 0, 0, 2]);
    assert_eq!(ip_version(&p), 4);
    assert_eq!(ipv4_ihl(&p), 20);
    assert_eq!(ipv4_ttl(&p), 64);
    assert_eq!(ipv4_proto(&p), 6);
    assert_eq!(ipv4_src(&p), Some([10, 0, 0, 1]));
    assert_eq!(ipv4_dst(&p), Some([10, 0, 0, 2]));
}

#[test]
fn ipv4_df_bit() {
    let mut p = vec![0u8; 20];
    p[0] = 0x45;
    p[6] = 0x40;
    assert!(ipv4_df_set(&p));
    p[6] = 0x00;
    assert!(!ipv4_df_set(&p));
}

#[test]
fn ipv6_basic_fields() {
    let mut p = vec![0u8; 40];
    p[0] = 0x60;
    p[6] = 6;
    p[7] = 64;
    p[8..24].copy_from_slice(&LOCALHOST);
    p[24..40].copy_from_slice(&[0u8; 16]);
    assert_eq!(ip_version(&p), 6);
    assert_eq!(ipv6_hop_limit(&p), 64);
    assert_eq!(ipv6_next_header(&p), 6);
    assert_eq!(ipv6_src(&p), Some(LOCALHOST));
}

#[test]
fn malformed_packets_safe() {
    assert_eq!(ip_version(&[]), 0);
    assert_eq!(ipv4_ihl(&[0x45]), 0);
    assert_eq!(l4_offset(&[0x45]), (0, 0));
    assert_eq!(ipv6_src(&[0x60]), None);
}

#[test]
fn outbound_ttl_zero_generates_icmp() {
    let mut p = vec![0u8; 28];
    p[0] = 0x45;
    p[2..4].copy_from_slice(&28u16.to_be_bytes());
    p[8] = 1;
    p[9] = 1;
    p[12..16].copy_from_slice(&[10, 0, 0, 1]);
    p[16..20].copy_from_slice(&[10, 0, 0, 2]);
    p[20] = 8;
    let outcome = process_outbound(
        &mut p,
        1392,
        None,
        [10, 0, 0, 1],
        None,
    );
    match outcome {
        Outcome::InjectIcmp(icmp) => {
            assert_eq!(icmp[20], 11);
        }
        _ => panic!("应返回 InjectIcmp"),
    }
}

#[test]
fn outbound_df_oversize_generates_frag_needed() {
    let mut p = vec![0u8; 1500];
    p[0] = 0x45;
    p[2..4].copy_from_slice(&1500u16.to_be_bytes());
    p[6] = 0x40;
    p[8] = 64;
    p[9] = 6;
    p[12..16].copy_from_slice(&[10, 0, 0, 1]);
    p[16..20].copy_from_slice(&[10, 0, 0, 2]);
    let outcome = process_outbound(
        &mut p,
        1392,
        None,
        [10, 0, 0, 1],
        None,
    );
    match outcome {
        Outcome::InjectIcmp(icmp) => {
            assert_eq!(icmp[20], 3);
            assert_eq!(icmp[21], 4);

            assert_eq!(u16::from_be_bytes([icmp[26], icmp[27]]), 1392);
        }
        _ => panic!("应返回 InjectIcmp"),
    }
}

#[test]
fn outbound_normal_packet_forwards() {
    let mut p = vec![0u8; 40];
    p[0] = 0x45;
    p[2..4].copy_from_slice(&40u16.to_be_bytes());
    p[8] = 64;
    p[9] = 6;
    p[12..16].copy_from_slice(&[10, 0, 0, 1]);
    p[16..20].copy_from_slice(&[10, 0, 0, 2]);
    let outcome = process_outbound(
        &mut p,
        1392,
        None,
        [10, 0, 0, 1],
        None,
    );
    assert!(matches!(outcome, Outcome::Forward));
    assert_eq!(ipv4_ttl(&p), 63);
}

#[test]
fn multicast_forwards_unchanged() {
    let mut p = vec![0u8; 28];
    p[0] = 0x45;
    p[2..4].copy_from_slice(&28u16.to_be_bytes());
    p[8] = 64;
    p[9] = 17;
    p[12..16].copy_from_slice(&[10, 0, 0, 1]);
    p[16..20].copy_from_slice(&[239, 255, 0, 1]);
    let before = p.clone();
    let outcome = process_outbound(
        &mut p,
        1392,
        None,
        [10, 0, 0, 1],
        None,
    );
    assert!(matches!(outcome, Outcome::Forward));
    assert_eq!(p, before, "组播包内容必须逐字节不变");
    assert_eq!(p[8], 64, "组播 TTL 不应扣减");
}

#[test]
fn multicast_ttl1_is_not_blackholed() {
    let mut p = vec![0u8; 28];
    p[0] = 0x45;
    p[2..4].copy_from_slice(&28u16.to_be_bytes());
    p[8] = 1;
    p[9] = 17;
    p[12..16].copy_from_slice(&[10, 0, 0, 1]);
    p[16..20].copy_from_slice(&[224, 0, 0, 251]);
    let outcome = process_outbound(
        &mut p,
        1392,
        None,
        [10, 0, 0, 1],
        None,
    );
    assert!(matches!(outcome, Outcome::Forward));
    assert_eq!(p[8], 1);
}

#[test]
fn broadcast_forwards_unchanged() {
    let mut p = vec![0u8; 28];
    p[0] = 0x45;
    p[2..4].copy_from_slice(&28u16.to_be_bytes());
    p[8] = 1;
    p[9] = 17;
    p[12..16].copy_from_slice(&[10, 0, 0, 1]);
    p[16..20].copy_from_slice(&[255, 255, 255, 255]);
    let before = p.clone();
    let outcome = process_outbound(
        &mut p,
        1392,
        None,
        [10, 0, 0, 1],
        None,
    );
    assert!(matches!(outcome, Outcome::Forward));
    assert_eq!(p, before);
}

#[test]
fn v6_ttl_zero_without_addr6_drops() {
    let mut p = vec![0u8; 48];
    p[0] = 0x60;
    p[6] = 58;
    p[7] = 1;
    p[8..24].copy_from_slice(&LOCALHOST);
    p[24..40].copy_from_slice(&v6([0x2001, 0xdb8, 0, 0, 0, 0, 0, 1]));
    let outcome = process_outbound(
        &mut p,
        1392,
        None,
        [10, 0, 0, 1],
        None,
    );
    assert!(matches!(outcome, Outcome::Drop));
}

#[test]
fn v6_ttl_zero_with_addr6_injects() {
    let mut p = vec![0u8; 48];
    p[0] = 0x60;
    p[6] = 58;
    p[7] = 1;
    p[8..24].copy_from_slice(&LOCALHOST);
    p[24..40].copy_from_slice(&v6([0x2001, 0xdb8, 0, 0, 0, 0, 0, 1]));
    let our = v6([0x2001, 0xdb8, 0, 0, 0, 0, 0, 0xfe]);
    let outcome = process_outbound(
        &mut p,
        1392,
        None,
        [10, 0, 0, 1],
        Some(our),
    );
    match outcome {
        Outcome::InjectIcmp(icmp) => {
            assert_eq!(icmp[40], 3);
            assert_eq!(&icmp[8..24], &our, "源地址必须是配置的 v6 地址");
        }
        _ => panic!("应返回 InjectIcmp"),
    }
}

fn make_v4_syn_packet(mss: u16) -> Vec<u8> {
    let mut p = vec![0u8; 44];
    p[0] = 0x45;
    p[2..4].copy_from_slice(&44u16.to_be_bytes());
    p[8] = 64;
    p[9] = 6;
    p[12..16].copy_from_slice(&[10, 0, 0, 1]);
    p[16..20].copy_from_slice(&[10, 0, 0, 2]);
    p[20..22].copy_from_slice(&1234u16.to_be_bytes());
    p[22..24].copy_from_slice(&80u16.to_be_bytes());
    p[32] = 6 << 4;
    p[33] = 0x02;
    p[34..36].copy_from_slice(&65535u16.to_be_bytes());
    p[40] = 2;
    p[41] = 4;
    p[42..44].copy_from_slice(&mss.to_be_bytes());
    p
}

#[test]
fn explicit_mss_target_is_not_double_subtracted() {
    let mut p = make_v4_syn_packet(1460);
    let outcome = process_outbound(
        &mut p,
        1392,
        Some(1200),
        [10, 0, 0, 1],
        None,
    );
    assert!(matches!(outcome, Outcome::Forward));
    assert_eq!(read_mss(&p), Some(1200));
}

#[test]
fn explicit_mss_does_not_change_pmtu_threshold() {
    let mut p = vec![0u8; 1400];
    p[0] = 0x45;
    p[2..4].copy_from_slice(&1400u16.to_be_bytes());
    p[6] = 0x40;
    p[8] = 64;
    p[9] = 6;
    p[12..16].copy_from_slice(&[10, 0, 0, 1]);
    p[16..20].copy_from_slice(&[10, 0, 0, 2]);
    let outcome = process_outbound(
        &mut p,
        1392,
        Some(1200),
        [10, 0, 0, 1],
        None,
    );
    assert!(matches!(outcome, Outcome::InjectIcmp(_)));
}

#[test]
fn inbound_explicit_mss_target() {
    let mut p = make_v4_syn_packet(1460);
    p[33] = 0x12;
    process_inbound(&mut p, 1392, Some(1234));
    assert_eq!(read_mss(&p), Some(1234));
}

#[test]
fn inbound_auto_mss() {
    let mut p = make_v4_syn_packet(1460);
    p[33] = 0x12;
    process_inbound(&mut p, 1392, None);
    assert_eq!(read_mss(&p), Some(1352));
}

#[test]
fn bench_perf_hot_path() {

    let mut p = vec![0u8; 28];
    p[0] = 0x45;
    p[2..4].copy_from_slice(&28u16.to_be_bytes());
    p[8] = 64;
    p[9] = 17;
    p[12..16].copy_from_slice(&[10, 0, 0, 1]);
    p[16..20].copy_from_slice(&[10, 0, 0, 2]);

    let n: u32 = 1_000_000;

    for _ in 0..10_000 {
        p[8] = 64;
        let _ = process_outbound(
            &mut p,
            1392,
            None,
            [10, 0, 0, 1],
            None,
        );
    }
    let start = std::time::Instant::now();
    for _ in 0..n {
        p[8] = 64;
        let _ = process_outbound(
            &mut p,
            1392,
            None,
            [10, 0, 0, 1],
            None,
        );
    }
    let elapsed = start.elapsed();
    let ns_per_pkt = elapsed.as_nanos() as f64 / n as f64;
    println!("process_outbound: {ns_per_pkt:.1} ns/包（{n} 包，{elapsed:?}）");

}

fn make_ipv4_syn(mss: u16) -> Vec<u8> {
    let mut p = vec![0u8; 44];

    p[0] = 0x45;
    p[2..4].copy_from_slice(&44u16.to_be_bytes());
    p[8] = 64;
    p[9] = 6;
    p[12..16].copy_from_slice(&[10, 0, 0, 1]);
    p[16..20].copy_from_slice(&[10, 0, 0, 2]);

    p[20..22].copy_from_slice(&1234u16.to_be_bytes());
    p[22..24].copy_from_slice(&80u16.to_be_bytes());
    p[24..28].copy_from_slice(&1u32.to_be_bytes());
    p[28..32].copy_from_slice(&0u32.to_be_bytes());
    p[32] = 6 << 4;
    p[33] = 0x02;
    p[34..36].copy_from_slice(&65535u16.to_be_bytes());

    p[40] = 2;
    p[41] = 4;
    p[42..44].copy_from_slice(&mss.to_be_bytes());
    p
}

#[test]
fn clamp_ipv4_syn_mss() {
    let mut p = make_ipv4_syn(1460);
    assert!(clamp_mss(&mut p, 1352));
    assert_eq!(read_mss(&p), Some(1352));

    assert_eq!(ones_complement_sum(&p[..20]), 0xffff);

    let mut pseudo = [0u8; 12];
    pseudo[0..4].copy_from_slice(&p[12..16]);
    pseudo[4..8].copy_from_slice(&p[16..20]);
    pseudo[9] = 6;
    pseudo[10..12].copy_from_slice(&24u16.to_be_bytes());
    let sum = ones_complement_sum(&pseudo) as u32
        + ones_complement_sum(&p[20..]) as u32;
    let folded = ((sum & 0xffff) + (sum >> 16)) as u16;
    assert_eq!(folded, 0xffff);
}

#[test]
fn no_clamp_when_already_smaller() {
    let mut p = make_ipv4_syn(1000);
    assert!(clamp_mss(&mut p, 1352));
    assert_eq!(read_mss(&p), Some(1000));
}

#[test]
fn non_syn_not_clamped() {
    let mut p = make_ipv4_syn(1460);
    p[33] = 0x10;
    assert!(!clamp_mss(&mut p, 1352));
    assert_eq!(read_mss(&p), Some(1460));
}

#[test]
fn syn_ack_clamped() {
    let mut p = make_ipv4_syn(1460);
    p[33] = 0x02 | 0x10;
    assert!(clamp_mss(&mut p, 1352));
    assert_eq!(read_mss(&p), Some(1352));
}

#[test]
fn ipv6_syn_clamped() {
    let mut p = vec![0u8; 64];
    p[0] = 0x60;
    p[4..6].copy_from_slice(&24u16.to_be_bytes());
    p[6] = 6;
    p[7] = 64;

    p[8..24].copy_from_slice(&LOCALHOST);
    p[24..40].copy_from_slice(&[0u8; 16]);

    p[40..42].copy_from_slice(&1234u16.to_be_bytes());
    p[42..44].copy_from_slice(&80u16.to_be_bytes());
    p[44..48].copy_from_slice(&1u32.to_be_bytes());
    p[48..52].copy_from_slice(&0u32.to_be_bytes());
    p[52] = 6 << 4;
    p[53] = 0x02;
    p[54..56].copy_from_slice(&65535u16.to_be_bytes());

    p[60] = 2;
    p[61] = 4;
    p[62..64].copy_from_slice(&1440u16.to_be_bytes());
    assert!(clamp_mss(&mut p, 1332));
    assert_eq!(read_mss(&p), Some(1332));

    let mut pseudo = [0u8; 40];
    pseudo[0..16].copy_from_slice(&p[8..24]);
    pseudo[16..32].copy_from_slice(&p[24..40]);
    pseudo[32..36].copy_from_slice(&24u32.to_be_bytes());
    pseudo[39] = 6;
    let sum = ones_complement_sum(&pseudo) as u32
        + ones_complement_sum(&p[40..]) as u32;
    let folded = ((sum & 0xffff) + (sum >> 16)) as u16;
    assert_eq!(folded, 0xffff);
}

#[test]
fn no_mss_option_returns_false() {
    let mut p = vec![0u8; 40];
    p[0] = 0x45;
    p[2..4].copy_from_slice(&40u16.to_be_bytes());
    p[8] = 64;
    p[9] = 6;
    p[12..16].copy_from_slice(&[10, 0, 0, 1]);
    p[16..20].copy_from_slice(&[10, 0, 0, 2]);
    p[20..22].copy_from_slice(&1234u16.to_be_bytes());
    p[22..24].copy_from_slice(&80u16.to_be_bytes());
    p[32] = 5 << 4;
    p[33] = 0x02;
    assert!(!clamp_mss(&mut p, 1352));
}

#[test]
fn decrement_ipv4_ttl() {
    let mut p = vec![0u8; 20];
    p[0] = 0x45;
    p[8] = 64;
    p[9] = 6;
    p[12..16].copy_from_slice(&[10, 0, 0, 1]);
    p[16..20].copy_from_slice(&[10, 0, 0, 2]);
    assert!(decrement_ttl(&mut p));
    assert_eq!(ipv4_ttl(&p), 63);

    let cs = ip_header_checksum(&mut p);
    p[10] = (cs >> 8) as u8;
    p[11] = cs as u8;
    assert_eq!(checksum(&p[..20]), 0);
}

#[test]
fn ttl_one_becomes_zero() {
    let mut p = vec![0u8; 20];
    p[0] = 0x45;
    p[8] = 1;
    assert!(!decrement_ttl(&mut p));
    assert_eq!(ipv4_ttl(&p), 0);
}

#[test]
fn ipv6_hop_limit_decrement() {
    let mut p = vec![0u8; 40];
    p[0] = 0x60;
    p[7] = 64;
    assert!(decrement_ttl(&mut p));
    assert_eq!(ipv6_hop_limit(&p), 63);
}

#[test]
fn multicast_detection() {
    let mut p = vec![0u8; 20];
    p[0] = 0x45;

    p[16..20].copy_from_slice(&[239, 255, 0, 1]);
    assert!(is_multicast_or_broadcast(&p));

    p[16..20].copy_from_slice(&[8, 8, 8, 8]);
    assert!(!is_multicast_or_broadcast(&p));

    p[16..20].copy_from_slice(&[255, 255, 255, 255]);
    assert!(is_multicast_or_broadcast(&p));
}

#[test]
fn ipv6_multicast() {
    let mut p = vec![0u8; 40];
    p[0] = 0x60;

    let mc = v6([0xff02, 0, 0, 0, 0, 0, 0, 1]);
    p[24..40].copy_from_slice(&mc);
    assert!(is_multicast_or_broadcast(&p));
}
