//! Packets and frames on their way through the node.

use ipv8plus::fec::tx::FecTx;
use ipv8plus::fec::{DATA_FRAME_TYPE, DATA_MIN_FRAME, FEC_FRAME_TYPE, TUNNEL_VERSION};
use ipv8plus::node::args::{Addresses, Config, RioMode};
use ipv8plus::node::config::parse_args_from;
use ipv8plus::node::outbound::{bind_addr, io_mode, keep_passed, sock_addr, trust_source, tun_fits, TrustSource};
use ipv8plus::node::plane::{is_echo, make_up, punch_knock, Delivery, Inbound, Injector, Moved, Plane};
use ipv8plus::node::roam::{RoamKind, Transport};
use ipv8plus::node::sock::SockAddr;
use ipv8plus::node::ticker::IpAddr;

const PEER: SockAddr = SockAddr::V4 { ip: [192, 0, 2, 7], port: 45700 };
const ALT: SockAddr = SockAddr::V4 { ip: [192, 0, 2, 8], port: 5001 };
const OTHER: SockAddr = SockAddr::V4 { ip: [198, 51, 100, 1], port: 7 };

fn config(extra: &[&str]) -> Config {
    let base = [
        "node",
        "--self",
        "fb140000000000010001000001000000",
        "--peer-addr",
        "fb140000000000010001000002000000",
        "--peer-ip",
        "192.0.2.7",
        "--dll",
        "w.dll",
    ];
    let argv: Vec<String> = base.iter().chain(extra.iter()).map(|s| s.to_string()).collect();
    let ips = Addresses {
        peer_ip: Ok(IpAddr::V4([192, 0, 2, 7])),
        tun_ip: Ok([10, 0, 0, 1]),
        alt_ip: Ok(IpAddr::V4([192, 0, 2, 8])),
        hook: Err("none".to_string()),
    };
    parse_args_from(&argv, &ips, &None).unwrap()
}

fn plane(extra: &[&str]) -> Plane {
    Plane::new(&config(extra))
}

/// A data frame with a counter.
fn data_frame(counter: u64, len: usize, fill: u8) -> Vec<u8> {
    let mut f = vec![fill; len];
    f[0] = TUNNEL_VERSION;
    f[1] = DATA_FRAME_TYPE;
    f[2..10].copy_from_slice(&[9, 8, 7, 6, 5, 4, 3, 2]);
    f[len - 24..len - 16].copy_from_slice(&counter.to_be_bytes());
    f
}

#[test]
fn plane_of_a_config() {
    let p = plane(&["--fec", "--mp", "--alt-ip", "192.0.2.8", "--alt-port", "5001", "--compat"]);
    assert!(p.fec.is_some() && p.compat && p.has_tun && !p.is_initiator && !p.learn);
    assert_eq!(p.effective_mtu, 1392);
    assert_eq!(p.targets(), vec![PEER, ALT]);
    assert_eq!(plane(&[]).targets(), vec![PEER]);
    assert!(plane(&["--learn-peer"]).learn);
    let seed = "1".repeat(64);
    let punch = ["--punch", "--resolver", "r", "--ed-seed", seed.as_str()];
    assert!(plane(&punch).learn);
    assert!(!plane(&["--punch", "--resolver", "r", "--ed-seed", &seed, "--initiate"]).learn);
}

#[test]
fn addresses_of_a_config() {
    assert_eq!(bind_addr(&config(&[])), SockAddr::V4 { ip: [0; 4], port: 45700 });
    let v6 = IpAddr::V6([1; 16]);
    assert_eq!(sock_addr(&v6, 9), SockAddr::V6 { ip6: [1; 16], port: 9, flowinfo: 0, scope_id: 0 });
    assert!(tun_fits(&config(&[])));
    assert!(!tun_fits(&config(&["--tun-prefix", "10"])));
    assert!(tun_fits(&config(&["--tun-prefix", "10", "--tun-ip", "10.0.0.1"])));
    assert_eq!(io_mode(&config(&["--l2"])), RioMode::L2);
    assert_eq!(io_mode(&config(&["--rio", "on"])), RioMode::On);
}

#[test]
fn certificate_comes_from_the_zone_first() {
    let seed = "2".repeat(64);
    assert_eq!(trust_source(&config(&[])), TrustSource::Nowhere);
    let both = ["--auth", "--ed-seed", seed.as_str(), "--ca-seed", seed.as_str(), "--zone", "z"];
    assert_eq!(trust_source(&config(&both)), TrustSource::Zone);
    assert_eq!(trust_source(&config(&both[..5])), TrustSource::Seed);
    let mut none = config(&both[..5]);
    none.trust.ca_seed = None;
    assert_eq!(trust_source(&none), TrustSource::Missing);
}

#[test]
fn knock_is_ignored() {
    let mut p = plane(&["--learn-peer", "--fec"]);
    let mut learned = false;
    assert_eq!(&punch_knock(), b"IP8PUNCH");
    assert_eq!(p.receive(&punch_knock(), OTHER, &mut learned, 5), Inbound::Nothing);
    assert!(!learned);
    assert_eq!(p.sched.dest(), PEER);
}

#[test]
fn first_frame_teaches_the_entry() {
    let mut p = plane(&["--learn-peer"]);
    let mut learned = false;
    let r = p.receive(&[TUNNEL_VERSION, 0, 0], OTHER, &mut learned, 5);
    assert_eq!(r, Inbound::Frame { rebuilt: None, learned: Some(RoamKind::FirstFrame) });
    assert!(learned);
    assert_eq!(p.sched.dest(), OTHER);
    let again = p.receive(&[TUNNEL_VERSION, 0, 0], PEER, &mut learned, 50_000);
    assert_eq!(again, Inbound::Frame { rebuilt: None, learned: None });
    assert_eq!(p.sched.dest(), OTHER);
}

#[test]
fn plain_packets_pass_where_they_are_taken() {
    let ip = [0x45u8, 0, 0, 20, 0, 0, 0, 0, 64, 17, 0, 0, 10, 0, 0, 1, 10, 0, 0, 2];
    let mut learned = false;
    assert_eq!(plane(&["--fallback"]).receive(&ip, OTHER, &mut learned, 0), Inbound::Plain);
    assert_eq!(
        plane(&[]).receive(&ip, OTHER, &mut learned, 0),
        Inbound::Frame { rebuilt: None, learned: None }
    );
    let short = [0x60u8];
    assert_eq!(plane(&["--fallback"]).receive(&short, OTHER, &mut learned, 0), Inbound::Plain);
}

#[test]
fn lost_frame_is_rebuilt_on_the_way_in() {
    let a = data_frame(1, 80, 0x11);
    let b = data_frame(2, 90, 0x22);
    let mut tx = FecTx::new(2).unwrap();
    assert_eq!(tx.push(&a, [9, 8, 7, 6, 5, 4, 3, 2]).unwrap(), None);
    let rec = tx.push(&b, [9, 8, 7, 6, 5, 4, 3, 2]).unwrap().unwrap();
    assert_eq!(rec[1], FEC_FRAME_TYPE);

    let mut p = plane(&["--fec", "--fec-k", "2"]);
    let mut learned = false;
    assert_eq!(p.receive(&a, PEER, &mut learned, 0), Inbound::Frame { rebuilt: None, learned: None });
    assert_eq!(p.receive(&rec, PEER, &mut learned, 0), Inbound::Frame { rebuilt: Some(b.clone()), learned: None });
    assert_eq!(p.receive(&rec, PEER, &mut learned, 0), Inbound::Nothing);

    let mut whole = plane(&["--fec", "--fec-k", "2"]);
    whole.receive(&a, PEER, &mut learned, 0);
    whole.receive(&b, PEER, &mut learned, 0);
    assert_eq!(whole.receive(&rec, PEER, &mut learned, 0), Inbound::Nothing);
}

#[test]
fn marked_packets_are_protected_on_the_way_out() {
    let mut marked = vec![0u8; 20];
    marked[0] = 0x45;
    marked[1] = 46 << 2;
    let mut plain = marked.clone();
    plain[1] = 0;
    let a = data_frame(1, 80, 0x11);
    let b = data_frame(2, 90, 0x22);

    let mut p = plane(&["--fec", "--fec-k", "2"]);
    let out = p.protect(&vec![marked.clone(), marked.clone()], vec![Some(vec![a.clone()]), Some(vec![b.clone()])]);
    assert_eq!(out.len(), 3);
    assert_eq!(out[0], a);
    assert_eq!(out[1][1], FEC_FRAME_TYPE);
    assert_eq!(&out[1][2..10], &[9, 8, 7, 6, 5, 4, 3, 2]);
    assert_eq!(out[2], b);

    let mut q = plane(&["--fec", "--fec-k", "2"]);
    let out = q.protect(&vec![plain.clone(), plain], vec![Some(vec![a.clone()]), Some(vec![b.clone()])]);
    assert_eq!(out, vec![a.clone(), b.clone()]);

    let mut off = plane(&[]);
    let out = off.protect(&vec![marked.clone(), marked], vec![None, Some(vec![b.clone(), a.clone()])]);
    assert_eq!(out, vec![b, a]);
    assert_eq!(DATA_MIN_FRAME, 74);
}

#[test]
fn entry_follows_where_the_peer_may_move() {
    let mut fixed = plane(&[]);
    let mut learned = false;
    assert_eq!(fixed.after_engine(&[TUNNEL_VERSION, 2], OTHER, &mut learned, false, true, 0), Moved::No);
    assert_eq!(fixed.sched.dest(), PEER);

    let mut p = plane(&["--migrate"]);
    assert_eq!(p.after_engine(&[TUNNEL_VERSION, 2], OTHER, &mut learned, false, false, 0), Moved::No);
    assert_eq!(p.after_engine(&[TUNNEL_VERSION, 2], OTHER, &mut learned, false, true, 0), Moved::Strong);
    assert_eq!(p.sched.transport, Transport::Tunnel(OTHER));
    assert_eq!(p.after_engine(&[TUNNEL_VERSION, 2], OTHER, &mut learned, false, true, 0), Moved::No);
    assert_eq!(p.after_engine(&[TUNNEL_VERSION, 0], PEER, &mut learned, true, false, 9_999), Moved::No);
    assert_eq!(p.after_engine(&[TUNNEL_VERSION, 0], PEER, &mut learned, true, false, 10_000), Moved::Weak);
    assert_eq!(p.sched.dest(), PEER);
}

#[test]
fn made_up_packets_come_back() {
    let p = make_up(20, 0x01020304);
    assert_eq!(p.len(), 20);
    assert_eq!(&p[..9], &[0x49, 0x50, 0x38, 0x4e, 0x54, 1, 2, 3, 4]);
    assert!(p[9..].iter().all(|b| *b == 0xa5));
    assert_eq!(make_up(3, 0).len(), 16);
    assert!(is_echo(&p));
    let mut bad = p.clone();
    bad[19] = 0;
    assert!(!is_echo(&bad));
    assert!(!is_echo(&p[..8]));

    let mut init = plane(&["--no-tun", "--initiate"]);
    assert_eq!(init.deliver(&p), Delivery::EchoOk(1));
    assert_eq!(init.deliver(&bad), Delivery::EchoBad);
    assert_eq!(init.deliver(&p), Delivery::EchoOk(2));
    assert_eq!((init.echo_ok, init.echo_bad), (2, 1));
    assert_eq!(plane(&["--no-tun"]).deliver(&p), Delivery::SendBack);
    assert_eq!(plane(&[]).deliver(&p), Delivery::WriteTun);
}

#[test]
fn packets_are_made_up_in_time() {
    let mut i = Injector { seq: u32::MAX, next_send: 100 };
    assert_eq!(i.poll(false, 64, 200), None);
    assert_eq!(i.poll(true, 64, 99), None);
    let p = i.poll(true, 64, 100).unwrap();
    assert_eq!(&p[5..9], &[0xff; 4]);
    assert_eq!(i, Injector { seq: 0, next_send: 5_100 });
}

#[test]
fn packets_pass_by_verdict() {
    let batch = vec![vec![1u8], vec![2], vec![3]];
    assert_eq!(keep_passed(batch, &vec![true, false, true]), vec![vec![1u8], vec![3]]);
}

#[test]
fn batch_is_adapted() {
    let mut ok = vec![0u8; 24];
    ok[0] = 0x45;
    ok[3] = 24;
    ok[8] = 64;
    ok[9] = 17;
    ok[12..16].copy_from_slice(&[10, 0, 0, 1]);
    ok[16..20].copy_from_slice(&[10, 0, 0, 2]);
    let mut last = ok.clone();
    last[8] = 1;
    let p = plane(&["--compat"]);
    let (on, errors) = p.adapt_batch(vec![ok.clone(), last.clone()]);
    assert_eq!(on.len(), 1);
    assert_eq!(on[0][8], 63);
    assert_eq!(errors.len(), 1);
    assert_eq!((errors[0][9], errors[0][20], errors[0][21]), (1, 11, 0));
    assert_eq!(&errors[0][12..16], &[100, 64, 0, 1]);
    assert_eq!(&errors[0][16..20], &[10, 0, 0, 1]);
    let (same, none) = plane(&[]).adapt_batch(vec![ok.clone(), last.clone()]);
    assert_eq!(same, vec![ok, last]);
    assert!(none.is_empty());
}

#[test]
fn segment_size_is_clamped_on_the_way_in() {
    let mut syn = vec![0u8; 44];
    syn[0] = 0x45;
    syn[3] = 44;
    syn[8] = 64;
    syn[9] = 6;
    syn[32] = 0x60;
    syn[33] = 0x02;
    syn[40..44].copy_from_slice(&[2, 4, 0x05, 0xb4]);
    let mut a = syn.clone();
    plane(&["--compat", "--mss-clamp", "1200"]).adapt(&mut a);
    assert_eq!(&a[42..44], &1200u16.to_be_bytes());
    let mut b = syn.clone();
    plane(&["--mss-clamp", "1200"]).adapt(&mut b);
    assert_eq!(b, syn);
}
