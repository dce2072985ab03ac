//! The command line of the node.

use ipv8plus::cli::{arg_value, has_flag, parse_seed};
use ipv8plus::codec::header::AddrParseError;
use ipv8plus::node::args::{Addresses, ArgError, CipherSuite, Config, RioMode, HOOK_PORT};
use ipv8plus::node::config::{loopback, parse_args_from};
use ipv8plus::node::sock::SockAddr;
use ipv8plus::node::ticker::IpAddr;

const SELF: &str = "fb140000000000010001000001000000";
const PEER: &str = "fb140000000000010001000002000000";

fn words(list: &[&str]) -> Vec<String> {
    list.iter().map(|s| s.to_string()).collect()
}

fn argv(extra: &[&str]) -> Vec<String> {
    let mut v = words(&["node", "--self", SELF, "--peer-addr", PEER, "--peer-ip", "192.0.2.7", "--dll", "w.dll"]);
    v.extend(words(extra));
    v
}

fn addresses() -> Addresses {
    Addresses {
        peer_ip: Ok(IpAddr::V4([192, 0, 2, 7])),
        tun_ip: Ok([10, 1, 2, 3]),
        alt_ip: Ok(IpAddr::V4([192, 0, 2, 8])),
        hook: Ok(SockAddr::V4 { ip: [127, 0, 0, 1], port: 9 }),
    }
}

fn parsed(extra: &[&str]) -> Result<Config, ArgError> {
    parse_args_from(&argv(extra), &addresses(), &None)
}

fn fault(extra: &[&str]) -> ArgError {
    parsed(extra).unwrap_err()
}

#[test]
fn first_occurrence_of_a_flag_counts() {
    let v = words(&["--a", "1", "--b", "--a", "2", "--c"]);
    assert!(has_flag(&v, "--b"));
    assert!(!has_flag(&v, "--d"));
    assert_eq!(arg_value(&v, "--a"), Some("1".to_string()));
    assert_eq!(arg_value(&v, "--c"), None);
    assert_eq!(arg_value(&v, "--d"), None);
}

#[test]
fn seed_is_64_hex_digits() {
    let s = "0123456789abcdefABCDEF".to_string() + &"0".repeat(42);
    let k = parse_seed(&s).unwrap();
    assert_eq!(&k[..11], &[0x01, 0x23, 0x45, 0x67, 0x89, 0xab, 0xcd, 0xef, 0xab, 0xcd, 0xef]);
    assert_eq!(&k[11..], &[0u8; 21]);
    assert_eq!(parse_seed(&s[1..]), None);
    assert_eq!(parse_seed(&("g".to_string() + &s[1..])), None);
    assert_eq!(parse_seed(&(s + "00")), None);
}

#[test]
fn defaults_of_the_command_line() {
    let c = parsed(&[]).unwrap();
    assert_eq!(c.net.self_addr.to_canonical_string(), SELF);
    assert_eq!(c.net.peer_addr.to_canonical_string(), PEER);
    assert_eq!(c.net.peer_ip, IpAddr::V4([192, 0, 2, 7]));
    assert_eq!(c.net.nt_size, 64);
    assert_eq!(c.net.tun_ip, [100, 64, 0, 1]);
    assert_eq!(c.net.netmask, [255, 192, 0, 0]);
    assert_eq!((c.net.udp_port, c.net.peer_port), (45700, 45700));
    assert_eq!(c.net.adapter_name, "IPv8Plus");
    assert_eq!((c.net.mtu, c.net.tun_mtu), (1432, 1432));
    assert_eq!(c.net.alt, None);
    assert_eq!(c.net.dll_path, "w.dll");
    assert_eq!(c.trust.shards, 1);
    assert!(!c.trust.auth && !c.trust.punch);
    assert_eq!(c.tuning.hook, None);
    assert_eq!((c.tuning.hook_timeout_ms, c.tuning.hook_payload), (50, 128));
    assert!(!c.tuning.hook_default_drop);
    assert_eq!(c.tuning.cipher, CipherSuite::ChaCha20Poly1305);
    assert_eq!(c.tuning.rio_mode, RioMode::Auto);
    assert_eq!(c.tuning.mss_clamp, None);
    assert!(!c.initiate && !c.no_tun && !c.learn_peer && !c.compat && !c.migrate && !c.l2);
}

#[test]
fn values_of_the_command_line() {
    let c = parsed(&[
        "--tun-ip", "10.1.2.3", "--tun-prefix", "10", "--udp-port", "5000", "--mtu", "1400", "--tun-mtu", "1380",
        "--alt-ip", "192.0.2.8", "--alt-port", "5001", "--adapter-name", "card", "--nt-size", "100", "--mss-clamp",
        "1200", "--cipher", "AES", "--rio", "Off", "--hook", "--hook-policy", "DROP", "--shards", "8", "--initiate",
    ])
    .unwrap();
    assert_eq!(c.net.tun_ip, [10, 1, 2, 3]);
    assert_eq!(c.net.netmask, [255, 255, 255, 0]);
    assert_eq!((c.net.udp_port, c.net.peer_port), (5000, 5000));
    assert_eq!((c.net.mtu, c.net.tun_mtu), (1400, 1380));
    assert_eq!(c.net.alt, Some((IpAddr::V4([192, 0, 2, 8]), 5001)));
    assert_eq!(c.net.adapter_name, "card");
    assert_eq!(c.net.nt_size, 100);
    assert_eq!(c.tuning.mss_clamp, Some(1200));
    assert_eq!(c.tuning.cipher, CipherSuite::Aes256Gcm);
    assert_eq!(c.tuning.rio_mode, RioMode::Off);
    assert!(c.tuning.hook_default_drop);
    assert_eq!(c.trust.shards, 8);
    assert!(c.initiate);
}

#[test]
fn hook_is_of_this_host() {
    let c = parsed(&["--hook", "127.0.0.1:9"]).unwrap();
    assert_eq!(c.tuning.hook, Some(SockAddr::V4 { ip: [127, 0, 0, 1], port: 9 }));
    let last = parsed(&["--hook"]).unwrap();
    assert_eq!(last.tuning.hook, Some(SockAddr::V4 { ip: [127, 0, 0, 1], port: HOOK_PORT }));
    let mut far = addresses();
    far.hook = Ok(SockAddr::V4 { ip: [192, 0, 2, 1], port: 9 });
    let e = parse_args_from(&argv(&["--hook", "192.0.2.1:9"]), &far, &None).unwrap_err();
    assert_eq!(e, ArgError::HookLoopback);
    let mut one = [0u8; 16];
    one[15] = 1;
    assert!(loopback(&SockAddr::V6 { ip6: one, port: 1, flowinfo: 0, scope_id: 0 }));
    assert!(!loopback(&SockAddr::V6 { ip6: [0; 16], port: 1, flowinfo: 0, scope_id: 0 }));
}

#[test]
fn required_arguments_are_missed() {
    let none = parse_args_from(&words(&["node"]), &addresses(), &None).unwrap_err();
    assert_eq!(none, ArgError::Missing("--self"));
    assert_eq!(none.message(), "缺少 --self");
    let no_peer = parse_args_from(&words(&["node", "--self", SELF]), &addresses(), &None).unwrap_err();
    assert_eq!(no_peer, ArgError::Missing("--peer-addr"));
    let no_ip = parse_args_from(&words(&["--self", SELF, "--peer-addr", PEER]), &addresses(), &None).unwrap_err();
    assert_eq!(no_ip, ArgError::Missing("--peer-ip"));
}

#[test]
fn bad_addresses_are_named() {
    let e = parse_args_from(&words(&["--self", "fb14"]), &addresses(), &None).unwrap_err();
    assert_eq!(e, ArgError::BadAddress("--self", AddrParseError::Format));
    let e = parse_args_from(&words(&["--self", "fb140000000000010001000001000001"]), &addresses(), &None).unwrap_err();
    assert_eq!(e, ArgError::BadAddress("--self", AddrParseError::ReservedNonZero));
    let mut bad = addresses();
    bad.peer_ip = Err("invalid".to_string());
    let e = parse_args_from(&argv(&[]), &bad, &None).unwrap_err();
    assert_eq!(e, ArgError::BadIp("--peer-ip", "invalid".to_string()));
    assert_eq!(e.message(), "--peer-ip: invalid");
}

#[test]
fn driver_library_is_found_or_missed() {
    let bare = words(&["--self", SELF, "--peer-addr", PEER, "--peer-ip", "192.0.2.7"]);
    assert_eq!(parse_args_from(&bare, &addresses(), &None).unwrap_err(), ArgError::NoDll);
    let beside = Some("beside.dll".to_string());
    assert_eq!(parse_args_from(&bare, &addresses(), &beside).unwrap().net.dll_path, "beside.dll");
    let mut off = bare.clone();
    off.push("--no-tun".to_string());
    assert_eq!(parse_args_from(&off, &addresses(), &None).unwrap().net.dll_path, "(unused-no-tun)");
}

#[test]
fn every_fault_has_an_input() {
    assert_eq!(fault(&["--udp-port", "x"]), ArgError::NotNumber("--udp-port"));
    assert_eq!(fault(&["--tun-prefix", "256"]).message(), "--tun-prefix 非 0-255 数字");
    assert_eq!(fault(&["--udp-port", "65536"]).message(), "--udp-port 非数字");
    assert_eq!(fault(&["--mtu", "1279"]), ArgError::MtuRange);
    assert_eq!(fault(&["--mtu", "65536"]), ArgError::MtuRange);
    assert_eq!(fault(&["--alt-ip", "192.0.2.8"]), ArgError::AltPair);
    assert_eq!(fault(&["--ed-seed", "12"]), ArgError::BadSeed("--ed-seed"));
    assert_eq!(fault(&["--shards", "65"]), ArgError::ShardsRange(65));
    assert_eq!(fault(&["--shards", "0"]).message(), "--shards 必须在 1..=64，收到 0");
    assert_eq!(fault(&["--punch"]), ArgError::PunchResolver);
    assert_eq!(fault(&["--punch", "--resolver", "u"]), ArgError::PunchSeed);
    assert_eq!(fault(&["--cert-cache", "f"]), ArgError::CacheZone);
    assert_eq!(fault(&["--auth"]), ArgError::AuthSeed);
    let seed = "a".repeat(64);
    assert_eq!(fault(&["--auth", "--ed-seed", &seed]), ArgError::AuthTrust);
    assert_eq!(fault(&["--hook-policy", "maybe"]), ArgError::HookPolicy("maybe".to_string()));
    assert_eq!(fault(&["--cipher", "rot13"]), ArgError::Cipher("rot13".to_string()));
    assert_eq!(fault(&["--cipher", "rot13"]).message(), "--cipher 只接受 chacha|aes，收到 rot13");
    assert_eq!(fault(&["--rio", "x"]), ArgError::Rio("x".to_string()));
    assert_eq!(fault(&["--mp"]), ArgError::MpAlt);
    let alt = ["--mp", "--fallback", "--alt-ip", "192.0.2.8", "--alt-port", "1"];
    assert_eq!(fault(&alt), ArgError::MpFallback);
    assert_eq!(fault(&["--fec-k", "17"]), ArgError::FecK(17));
    assert_eq!(fault(&["--fec-k", "1"]).message(), "--fec-k 必须在 2..=16，收到 1");
}

#[test]
fn auth_takes_a_zone_or_an_authority() {
    let seed = "a".repeat(64);
    let by_zone = parsed(&["--auth", "--ed-seed", &seed, "--zone", "z", "--cert-cache", "f"]).unwrap();
    assert_eq!(by_zone.trust.zone, Some("z".to_string()));
    assert_eq!(by_zone.trust.ed_seed, Some([0xaa; 32]));
    let by_seed = parsed(&["--auth", "--ed-seed", &seed, "--ca-seed", &seed]).unwrap();
    assert_eq!(by_seed.trust.ca_seed, Some([0xaa; 32]));
}
