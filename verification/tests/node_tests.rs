//! The node: roaming, arguments, slots, socket addresses, kept certificates.

use ipv8plus::cert::{cert_from_bytes, cert_to_bytes, verify_key_from_seed, CertAuthority};
use ipv8plus::codec::header::IPv8Address;
use ipv8plus::node::args::{Addresses, ArgError, Config};
use ipv8plus::node::config::parse_args_from;
use ipv8plus::node::enroll::{cache_bytes, load_cert_cache};
use ipv8plus::node::roam::{
    inner_dscp, is_strong_roam_credential, Attempt, Sched, Transport, ROAM_MIN_INTERVAL,
};
use ipv8plus::node::slots::{SlotTable, ADDR_CAP};
use ipv8plus::node::sock::{decode_sockaddr, encode_sockaddr, SockAddr, AF_INET, AF_INET6};
use ipv8plus::node::ticker::IpAddr;

const NOW: u64 = 1_000_000;

fn addr(n: u32) -> IPv8Address {
    IPv8Address::new(0xFB14_0000, n, 1, 0, 1)
}

#[test]
fn cert_bytes_roundtrip() {
    let ca = CertAuthority::from_seed([0xC4u8; 32]);
    let cert = ca.issue(addr(7), [0xAB; 32], 1234567890);
    let back = cert_from_bytes(&cert_to_bytes(&cert)).expect("往返必须成功");
    assert_eq!(back, cert);
}

#[test]
fn cache_hit_then_tamper_miss() {
    let ca = CertAuthority::from_seed([0xC4u8; 32]);
    let seed = [0xA1u8; 32];
    let vk = verify_key_from_seed(seed);
    let cert = ca.issue(addr(7), vk, 5_000);
    let mut raw = cache_bytes(&ca.public_key(), &cert);
    let (host, _trust) = load_cert_cache(&raw, addr(7), seed, 4_999).expect("应命中");
    assert_eq!(host.cert, cert);
    assert!(load_cert_cache(&raw, addr(7), seed, 5_001).is_none());
    let n = raw.len();
    raw[n - 1] ^= 0x01;
    assert!(load_cert_cache(&raw, addr(7), seed, 4_999).is_none());
}

#[test]
fn cache_identity_mismatch_rejected() {
    let ca = CertAuthority::from_seed([0xC4u8; 32]);
    let seed = [0xA1u8; 32];
    let cert = ca.issue(addr(7), verify_key_from_seed(seed), 5_000);
    let raw = cache_bytes(&ca.public_key(), &cert);
    assert!(load_cert_cache(&raw, addr(7), [0xB2u8; 32], 4_999).is_none());
    assert!(load_cert_cache(&raw, addr(8), seed, 4_999).is_none());
    let rogue = CertAuthority::from_seed([0x99u8; 32]);
    let forged = rogue.issue(addr(7), verify_key_from_seed(seed), 5_000);
    let raw = cache_bytes(&ca.public_key(), &forged);
    assert!(load_cert_cache(&raw, addr(7), seed, 4_999).is_none());
}

fn tunnel_frame(ftype: u8) -> Vec<u8> {
    let mut f = vec![0x01, ftype];
    f.extend_from_slice(&[0u8; 8]);
    f
}

#[test]
fn roam_credential_delivered_is_strong_even_for_garbage_frame() {
    assert!(is_strong_roam_credential(&[0xff, 0x00], false, true));
}

#[test]
fn roam_credential_auth_init_resp_is_strong() {
    let f = tunnel_frame(4);
    assert!(is_strong_roam_credential(&f, true, false));
}

#[test]
fn roam_credential_plaintext_init_resp_is_weak() {
    let f = tunnel_frame(0);
    assert!(!is_strong_roam_credential(&f, true, false));
}

#[test]
fn roam_credential_handshake_resp_frame_is_weak() {
    let f = tunnel_frame(1);
    assert!(!is_strong_roam_credential(&f, true, false));
    assert!(!is_strong_roam_credential(&f, false, false));
}

#[test]
fn roam_credential_data_without_outcome_is_weak() {
    let f = tunnel_frame(2);
    assert!(!is_strong_roam_credential(&f, false, false));
}

#[test]
fn roam_credential_short_and_garbage_frames_are_weak() {
    assert!(!is_strong_roam_credential(&[], true, false));
    assert!(!is_strong_roam_credential(&[0x01], true, false));
    assert!(!is_strong_roam_credential(&[0x00, 0x04], true, false));
}

fn roam_sched(dest: SockAddr) -> Sched {
    Sched::new(dest, None, false)
}

fn host(last: u8, port: u16) -> SockAddr {
    SockAddr::V4 { ip: [10, 0, 0, last], port }
}

#[test]
fn unauth_first_frame_learns_immediately_under_learn_peer() {
    let a = host(1, 100);
    let b = host(2, 200);
    let mut sc = roam_sched(a);
    sc.attempt = Some(Attempt { frame: vec![1, 2], started: 5, dest: a });
    let mut learned = false;
    let msg = sc.unauth_refresh(b, &mut learned, true, NOW).expect("首帧必须放行").message("peer");
    assert!(msg.starts_with("[learn-peer]"), "实际 {msg}");
    assert_eq!(sc.transport, Transport::Tunnel(b));
    assert_eq!(sc.main, b);
    assert_eq!(sc.attempt.unwrap().dest, b, "握手尝试目的地必须随入口联动");
    assert!(learned);
}

#[test]
fn unauth_roam_rate_limited_within_window() {
    let a = host(1, 100);
    let b = host(2, 200);
    let mut sc = roam_sched(a);
    let mut learned = true;
    sc.last_unauth_roam = Some(NOW);
    assert!(
        sc.unauth_refresh(b, &mut learned, false, NOW).is_none(),
        "限速窗口内的漫游现学必须拒绝"
    );
    assert_eq!(sc.transport, Transport::Tunnel(a), "入口不得被改走");
    assert!(learned, "拒绝路径也要保持已学标志");
}

#[test]
fn unauth_roam_allowed_after_window_with_reset() {
    let a = host(1, 100);
    let b = host(2, 200);
    let mut sc = roam_sched(a);
    let mut learned = true;
    sc.last_unauth_roam = Some(NOW - ROAM_MIN_INTERVAL);
    let msg = sc.unauth_refresh(b, &mut learned, false, NOW).expect("窗口外必须放行").message("peer");
    assert!(msg.starts_with("[migration]"), "实际 {msg}");
    assert_eq!(sc.transport, Transport::Tunnel(b));

    assert!(sc.last_unauth_roam.is_some());
}

#[test]
fn unauth_no_first_frame_privilege_without_learn_peer() {
    let a = host(1, 100);
    let b = host(2, 200);
    let mut sc = roam_sched(a);
    sc.last_unauth_roam = Some(NOW);
    let mut learned = false;
    assert!(sc.unauth_refresh(b, &mut learned, false, NOW).is_none());
    assert_eq!(sc.transport, Transport::Tunnel(a));

    sc.last_unauth_roam = Some(NOW - ROAM_MIN_INTERVAL);
    let msg = sc.unauth_refresh(b, &mut learned, false, NOW).expect("窗口外放行").message("peer");
    assert!(msg.starts_with("[migration]"), "不得冒充 learn-peer 引导：{msg}");
}

#[test]
fn unauth_same_address_no_op_marks_learned() {
    let a = host(1, 100);
    let mut sc = roam_sched(a);
    let mut learned = false;
    assert!(sc.unauth_refresh(a, &mut learned, true, NOW).is_none());
    assert!(learned, "同址空转也要置已学，避免反复判定");
}

fn p4_argv(extra: &[&str]) -> Vec<String> {
    let mut v: Vec<String> = [
        "--self",
        "fb140000000000010001000001000000",
        "--peer-addr",
        "fb140000000000010001000002000000",
        "--peer-ip",
        "192.168.1.12",
        "--dll",
        "(test)",
    ]
    .iter()
    .map(|s| s.to_string())
    .collect();
    v.extend(extra.iter().map(|s| s.to_string()));
    v
}

fn addresses() -> Addresses {
    Addresses {
        peer_ip: Ok(IpAddr::V4([192, 168, 1, 12])),
        tun_ip: Err("no address".to_string()),
        alt_ip: Ok(IpAddr::V4([192, 168, 1, 13])),
        hook: Err("no address".to_string()),
    }
}

fn parse(argv: &Vec<String>) -> Result<Config, ArgError> {
    parse_args_from(argv, &addresses(), &None)
}

#[test]
fn p4_parse_defaults_off() {
    let c = parse(&p4_argv(&[])).expect("最小参数必须可解析");
    assert!(!c.tuning.mp && !c.fec);
    assert_eq!(c.tuning.fec_k, 4, "默认组大小 4");
}

#[test]
fn p4_parse_mp_requires_alt() {
    assert!(parse(&p4_argv(&["--mp"])).is_err());

    let c = parse(&p4_argv(&[
        "--mp",
        "--alt-ip",
        "192.168.1.13",
        "--alt-port",
        "45701",
    ]))
    .expect("mp+alt 合法");
    assert!(c.tuning.mp);
}

#[test]
fn p4_parse_mp_fallback_mutex() {
    assert!(parse(&p4_argv(&[
        "--mp",
        "--fallback",
        "--alt-ip",
        "192.168.1.13",
        "--alt-port",
        "45701",
    ]))
    .is_err());
}

#[test]
fn p4_parse_fec_k_bounds() {
    assert!(parse(&p4_argv(&["--fec", "--fec-k", "1"])).is_err());
    assert!(parse(&p4_argv(&["--fec", "--fec-k", "17"])).is_err());
    assert!(parse(&p4_argv(&["--fec", "--fec-k", "abc"])).is_err());
    assert!(parse(&p4_argv(&["--fec", "--fec-k", "16"]))
        .expect("上界合法")
        .tuning
        .fec_k
        == 16);
    assert!(parse(&p4_argv(&["--fec", "--fec-k", "2"]))
        .expect("下界合法")
        .tuning
        .fec_k
        == 2);
}

#[test]
fn inner_dscp_v4_v6_and_garbage() {
    assert_eq!(inner_dscp(&[0x45, 184]), Some(46));
    assert_eq!(inner_dscp(&[0x45, 0x03]), Some(0), "低 2 位 ECN 不算 DSCP");

    assert_eq!(inner_dscp(&[0x6B, 0x80]), Some(46));
    assert_eq!(inner_dscp(&[0x60, 0x00]), Some(0));

    assert_eq!(inner_dscp(&[0x45]), None);
    assert_eq!(inner_dscp(&[]), None);
    assert_eq!(inner_dscp(&[0x30, 0x00]), None);
}

#[test]
fn mp_entry_set_blocks_flip_flop() {
    let main = host(1, 100);
    let alt = host(2, 200);
    let mut sc = roam_sched(main);
    sc.mp = true;
    sc.alt = Some(alt);

    assert!(!sc.strong_refresh(alt, NOW));
    assert_eq!(sc.transport, Transport::Tunnel(main));
    let mut learned = true;
    assert!(sc.unauth_refresh(alt, &mut learned, false, NOW).is_none());
    assert_eq!(sc.transport, Transport::Tunnel(main));

    for _ in 0..3 {
        assert!(!sc.strong_refresh(alt, NOW) && !sc.strong_refresh(main, NOW));
    }
    assert_eq!(sc.transport, Transport::Tunnel(main));

    let roam = host(3, 300);
    assert!(sc.strong_refresh(roam, NOW), "集合外地址必须触发迁移");
    assert_eq!(sc.transport, Transport::Tunnel(roam));
}

#[test]
fn mp_off_keeps_phase3_behavior() {
    let main = host(1, 100);
    let alt = host(2, 200);
    let mut sc = roam_sched(main);
    sc.alt = Some(alt);

    assert!(sc.strong_refresh(alt, NOW));
    assert_eq!(sc.transport, Transport::Tunnel(alt));
}

#[test]
fn strong_refresh_unlimited_and_resets_weak_window() {
    let a = host(1, 100);
    let b = host(2, 200);
    let c = host(3, 300);
    let mut sc = roam_sched(a);
    sc.last_unauth_roam = Some(NOW);
    assert!(sc.strong_refresh(b, NOW), "强凭据刷新不受弱凭据限速窗约束");
    assert_eq!(sc.transport, Transport::Tunnel(b));

    let mut learned = true;
    assert!(sc.unauth_refresh(c, &mut learned, false, NOW).is_none());
}

#[test]
fn strong_refresh_no_change_is_pure_noop() {
    let a = host(1, 100);
    let mut sc = roam_sched(a);
    assert!(!sc.strong_refresh(a, NOW), "同址刷新必须返回 false");
    assert!(sc.last_unauth_roam.is_none(), "空转不得重置弱凭据限速窗");
}

#[test]
fn plain_udp_transport_always_treated_as_needing_update() {
    let a = host(1, 100);
    let mut sc = roam_sched(a);
    sc.transport = Transport::PlainUdp(a);
    let mut learned = true;
    let msg = sc.unauth_refresh(a, &mut learned, false, NOW).expect("必须放行").message("peer");
    assert!(msg.starts_with("[migration]"));
    assert_eq!(sc.transport, Transport::Tunnel(a), "放行即转回隧道模式");
}

#[test]
fn slot_table_alloc_covers_all_then_free_reuses() {
    let mut t = SlotTable::new(4);
    let mut slots = Vec::new();
    for _ in 0..4 {
        slots.push(t.allocate().expect("前 4 次必须有槽"));
    }
    assert!(t.allocate().is_none(), "全占用后 alloc 必须返回 None");

    t.free(slots[2]);
    assert_eq!(t.allocate().expect("回收后立即可用"), 2);
    assert!(t.allocate().is_none());
}

#[test]
fn slot_table_slots_do_not_duplicate_under_contention_shape() {
    let mut t = SlotTable::new(8);
    let a = t.allocate().unwrap();
    let b = t.allocate().unwrap();
    t.free(a);
    let c = t.allocate().unwrap();
    assert_eq!(c, a, "线性扫描优先复用最低位空槽");
    assert_ne!(b, c);
    t.free(b);
    t.free(c);
    assert_eq!(t.allocate(), Some(0));
    assert_eq!(t.allocate(), Some(1));
}

#[test]
fn sockaddr_v4_roundtrip() {
    let addr: SockAddr = SockAddr::V4 { ip: [203, 0, 113, 7], port: 45700 };
    let mut buf = [0u8; ADDR_CAP];
    let len = encode_sockaddr(&addr, &mut buf);
    assert_eq!(len, 16);
    assert_eq!(u16::from_ne_bytes([buf[0], buf[1]]), AF_INET);
    assert_eq!(decode_sockaddr(&buf[..len as usize]), Some(addr));
}

#[test]
fn sockaddr_v6_roundtrip() {
    let addr: SockAddr = SockAddr::V6 { ip6: [0x20, 1, 0x0d, 0xb8, 0, 0, 0, 0, 0, 0, 0, 0, 0, 0, 0, 1], port: 443, flowinfo: 0, scope_id: 0 };
    let mut buf = [0u8; ADDR_CAP];
    let len = encode_sockaddr(&addr, &mut buf);
    assert_eq!(len, 28);
    assert_eq!(u16::from_ne_bytes([buf[0], buf[1]]), AF_INET6);
    assert_eq!(decode_sockaddr(&buf[..len as usize]), Some(addr));
}

#[test]
fn sockaddr_port_is_network_order() {
    let addr: SockAddr = SockAddr::V4 { ip: [10, 0, 0, 1], port: 45700 };
    let mut buf = [0u8; ADDR_CAP];
    encode_sockaddr(&addr, &mut buf);

    assert_eq!(&buf[2..4], &[0xB2, 0x84]);
}

#[test]
fn sockaddr_decode_rejects_garbage() {
    assert!(decode_sockaddr(&[]).is_none());
    assert!(decode_sockaddr(&[0, 0, 0, 80]).is_none());
    let mut weird = [0u8; ADDR_CAP];
    weird[0] = 99;
    weird[1] = 0;
    assert!(decode_sockaddr(&weird).is_none());
}

#[test]
fn would_block_does_not_lose_slot_state() {
    let mut t = SlotTable::new(1);
    assert_eq!(t.allocate(), Some(0));
    assert!(t.allocate().is_none());
    assert!(t.allocate().is_none());
    t.free(0);
    assert_eq!(t.allocate(), Some(0));
}
