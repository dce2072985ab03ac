//! What holds throughout the library, on concrete values.

use ed25519_dalek::{Signer, SigningKey};
use ipv8plus::cert::{
    binding_given, cert_binding_ok, cert_from_bytes, cert_pubkey_from_wire, cert_to_bytes, cert_verdict, provision,
    verify_key_from_seed, CertAuthority, CertError, TrustAnchor, NO_EXPIRY,
};
use ipv8plus::codec::decode::{decode, DecodeError};
use ipv8plus::codec::encode::{encode, EncodeError};
use ipv8plus::codec::fragment::{fragment_packet, FragmentError, FragmentInfo};
use ipv8plus::codec::header::{read_address, AddrParseError, ExtType, ExtensionHeader, IPv8Address, IPv8Header};
use ipv8plus::codec::layouts::{agent_card_message, route_trace_message, TraceSigInput};
use ipv8plus::codec::reassembly::{Reassembler, ReassemblyError};
use ipv8plus::compat::checksum::ones_complement_sum;
use ipv8plus::compat::icmp::{generate_frag_needed_v4, generate_packet_too_big_v6};
use ipv8plus::compat::mss::{clamp_mss, read_mss};
use ipv8plus::compat::{process_outbound, Outcome};
use ipv8plus::ffi::{ipv8_base_header_size, ipv8_decode, ipv8_encode};
use ipv8plus::firewall::{gen_rule_id, Direction, Protocol, Rule, RuleSet};
use ipv8plus::pop::{join, RESOLVE_DOMAIN, ROTATE_DOMAIN};
use ipv8plus::text::{is_before, lower_is, parse_number, unhex};
use ipv8plus::zone::{check_claims, ZoneError, ZoneServer, DEFAULT_TOKEN_TTL_SECS};

const NOW: u64 = 1_700_000_000;

fn addr(n: u32) -> IPv8Address {
    IPv8Address::new(0xfb14_0000, n, 2, 3, 4)
}

fn packet(len: usize) -> Vec<u8> {
    let payload: Vec<u8> = (0..len).map(|i| (i * 7) as u8).collect();
    encode(&IPv8Header::new(addr(1), addr(2), len as u16), &payload).unwrap()
}

#[test]
fn address_text_and_bytes_round_trip() {
    let a = addr(0x0102_0304);
    assert_eq!(a.to_canonical_string(), "fb140000010203040002000304000000");
    assert_eq!(IPv8Address::from_canonical_str("FB140000010203040002000304000000"), Ok(a));
    assert_eq!(read_address(&a.to_bytes()), a);
    assert_eq!(IPv8Address::from_canonical_str("fb14"), Err(AddrParseError::Format));
    let reserved = "fb140000010203040002000304000001";
    assert_eq!(IPv8Address::from_canonical_str(reserved), Err(AddrParseError::ReservedNonZero));
}

#[test]
fn reserved_bytes_are_not_looked_at() {
    let p = packet(5);
    let want = decode(&p).unwrap().header;
    for i in [20, 21, 22, 36, 37, 38, 39] {
        let mut q = p.clone();
        q[i] = 0x5a;
        let got = decode(&q).unwrap().header;
        assert_eq!((got.src_addr, got.dst_addr), (want.src_addr, want.dst_addr));
    }
}

#[test]
fn reserved_flags_are_kept_but_not_sent() {
    let mut p = packet(5);
    p[1] = 0x80;
    let d = decode(&p).unwrap();
    assert_eq!(d.header.flags, 0x8000);
    assert_eq!(encode(&d.header, d.payload), Err(EncodeError::ReservedBits));
}

#[test]
fn decoded_packets_are_encoded_as_they_were() {
    let mut p = packet(9);
    let n = p.len();
    p.extend_from_slice(&[1, 2, 3]);
    let d = decode(&p).unwrap();
    assert_eq!(encode(&d.header, d.payload).unwrap(), &p[..n]);
}

#[test]
fn decode_faults_have_inputs() {
    let p = packet(4);
    assert_eq!(decode(&p[..39]).unwrap_err(), DecodeError::TooShort(39));
    let mut q = p.clone();
    q[0] = 0x71;
    assert_eq!(decode(&q).unwrap_err(), DecodeError::BadVersion(7));
    let mut q = p.clone();
    q[3] = 0xff;
    q[4] = 0xff;
    assert_eq!(decode(&q).unwrap_err(), DecodeError::PayloadTooLong(65535));
    let e = DecodeError::PayloadBeyondBuffer { need: 4, have: 3 };
    assert_eq!(decode(&p[..43]).unwrap_err(), e);
    let mut q = p.clone();
    q[2] = 0x40;
    assert_eq!(decode(&q).unwrap_err(), DecodeError::FlagMismatch);
    q[6] = 1;
    assert_eq!(decode(&q[..40]).unwrap_err(), DecodeError::ExtHeaderTruncated);
    q[40] = 0;
    q[41] = 0;
    assert_eq!(decode(&q).unwrap_err(), DecodeError::ExtLenZero);
}

#[test]
fn fragments_meet_again_in_any_order() {
    let p = packet(3000);
    let frags = fragment_packet(&p, 1000, 77).unwrap();
    assert!(frags.len() > 2);
    assert!(frags.iter().all(|f| f.len() <= 1000));
    let mut r = Reassembler::new();
    let mut whole = None;
    for f in frags.iter().rev() {
        let d = decode(f).unwrap();
        assert!(whole.is_none());
        whole = r.insert(&d.header, d.payload, 5).unwrap();
    }
    assert_eq!(whole, Some(p));
    assert_eq!(r.active_groups(), 0);
    let again = fragment_packet(&frags[0], 500, 78);
    assert_eq!(again, Err(FragmentError::AlreadyFragmented));
}

#[test]
fn fragment_header_is_read_back() {
    let f = FragmentInfo { id: 0x01020304, offset: 8191, more: true };
    let e = f.to_ext();
    assert_eq!(e.ext_type, ExtType::Fragment);
    assert_eq!(FragmentInfo::parse(&e), Some(f));
    let other = ExtensionHeader::new(ExtType::RouteTrace, vec![0; 8]).unwrap();
    assert_eq!(FragmentInfo::parse(&other), None);
}

#[test]
fn reassembly_faults_have_inputs() {
    let frags = fragment_packet(&packet(3000), 1000, 77).unwrap();
    let first = decode(&frags[0]).unwrap();
    let mut r = Reassembler::new();
    assert_eq!(r.insert(&first.header, first.payload, 0), Ok(None));
    assert_eq!(r.insert(&first.header, first.payload, 0), Err(ReassemblyError::Overlap));
    let mut r = Reassembler::new();
    assert_eq!(r.insert(&first.header, &first.payload[..7], 0), Err(ReassemblyError::Misaligned));
    let mut r = Reassembler::new();
    r.insert(&first.header, first.payload, 0).unwrap();
    assert_eq!(r.active_groups(), 1);
    r.reap(30_001);
    assert_eq!(r.active_groups(), 0);
}

#[test]
fn signed_messages_tell_their_fields_apart() {
    let (a, b, hops) = (addr(1), addr(2), [addr(3)]);
    let input = |flags: u16| TraceSigInput {
        src_addr: &a,
        dst_addr: &b,
        min_compat_ver: 8,
        flags,
        payload_len: 5,
        init_hop_limit: 64,
        src_pubkey: &[7; 32],
        hops: &hops,
    };
    let trace = route_trace_message(&input(0));
    assert_ne!(trace, route_trace_message(&input(1)));
    let card = agent_card_message(1, &[0; 16], 9, &[7; 32]);
    assert_ne!(card, agent_card_message(1, &[0; 16], 10, &[7; 32]));
    assert!(!trace.starts_with(&card[..16]));
    assert_ne!(join(ROTATE_DOMAIN, b"a", b"b"), join(RESOLVE_DOMAIN, b"a", b"b"));
    assert_ne!(join(ROTATE_DOMAIN, b"ab", b"c"), join(ROTATE_DOMAIN, b"ac", b"b"));
}

#[test]
fn plain_interface_round_trips() {
    assert_eq!(ipv8_base_header_size(), 40);
    let buf = ipv8_encode(1, 2, 3, 4, 5, 6, 7, 8, 9, 10, 3, 9, b"xyz").unwrap();
    let d = ipv8_decode(&buf).unwrap();
    assert_eq!((d.flags, d.hop_limit, d.payload_len, d.next_header), (3, 9, 3, 0));
    assert!(ipv8_encode(1, 2, 3, 4, 5, 6, 7, 8, 9, 10, 0xff80, 9, b"").is_none());
}

fn syn(mss: u16) -> Vec<u8> {
    let mut p = vec![0u8; 44];
    p[0] = 0x45;
    p[3] = 44;
    p[8] = 64;
    p[9] = 6;
    p[12..16].copy_from_slice(&[10, 0, 0, 1]);
    p[16..20].copy_from_slice(&[10, 0, 0, 2]);
    p[32] = 0x60;
    p[33] = 0x02;
    p[40] = 2;
    p[41] = 4;
    p[42..44].copy_from_slice(&mss.to_be_bytes());
    p
}

/// The sum over a segment with its pseudo header.
fn covered(p: &[u8]) -> u16 {
    let mut all = p[12..20].to_vec();
    all.extend_from_slice(&[0, 6, 0, (p.len() - 20) as u8]);
    all.extend_from_slice(&p[20..]);
    ones_complement_sum(&all)
}

#[test]
fn clamping_takes_the_lesser_size_and_keeps_checksums() {
    let mut p = syn(1460);
    assert!(clamp_mss(&mut p, 1200));
    assert_eq!(read_mss(&p), Some(1200));
    assert_eq!(ones_complement_sum(&p[..20]), 0xffff);
    assert_eq!(covered(&p), 0xffff);
    let mut q = syn(900);
    assert!(clamp_mss(&mut q, 1200));
    assert_eq!(q, syn(900));
    let mut r = syn(1460);
    r[33] = 0x10;
    let before = r.clone();
    assert!(!clamp_mss(&mut r, 1200));
    assert_eq!(r, before);
}

#[test]
fn multicast_passes_byte_for_byte() {
    let mut p = syn(1460);
    p[16] = 224;
    p[8] = 0;
    let before = p.clone();
    assert_eq!(process_outbound(&mut p, 20, Some(500), [9; 4], None), Outcome::Forward);
    assert_eq!(p, before);
}

#[test]
fn reports_have_right_checksums() {
    let offending = syn(1460);
    let r = generate_frag_needed_v4(&offending, [9, 9, 9, 9], 1400).unwrap();
    assert_eq!(ones_complement_sum(&r[..20]), 0xffff);
    assert_eq!(ones_complement_sum(&r[20..]), 0xffff);
    assert_eq!(&r[12..20], &[9, 9, 9, 9, 10, 0, 0, 1]);
    let mut six = vec![0u8; 48];
    six[0] = 0x60;
    six[5] = 8;
    six[6] = 17;
    six[7] = 64;
    six[8..24].copy_from_slice(&[0x20; 16]);
    let r = generate_packet_too_big_v6(&six, [0x30; 16], 1280).unwrap();
    let mut all = r[8..40].to_vec();
    all.extend_from_slice(&((r.len() - 40) as u32).to_be_bytes());
    all.extend_from_slice(&[0, 0, 0, 58]);
    all.extend_from_slice(&r[40..]);
    assert_eq!(ones_complement_sum(&all), 0xffff);
    assert_eq!(&r[24..40], &[0x20; 16]);
    let mut late = six.clone();
    late[7] = 1;
    assert_eq!(process_outbound(&mut late, 1400, None, [9; 4], None), Outcome::Drop);
}

#[test]
fn counted_hop_keeps_the_checksum() {
    let mut p = syn(400);
    assert_eq!(process_outbound(&mut p, 1400, None, [9; 4], None), Outcome::Forward);
    assert_eq!(p[8], 63);
    assert_eq!(ones_complement_sum(&p[..20]), 0xffff);
}

#[test]
fn certificates_bind_until_they_expire() {
    let ca = CertAuthority::from_seed([1; 32]);
    let h = provision(&ca, addr(5), [2; 32], NOW);
    let wire = cert_to_bytes(&h.cert);
    assert_eq!(wire.len(), 120);
    assert_eq!(cert_from_bytes(&wire), Some(h.cert.clone()));
    let key = verify_key_from_seed([2; 32]);
    assert_eq!(cert_pubkey_from_wire(&wire), Some(key));
    assert!(cert_binding_ok(&ca.public_key(), &wire, &addr(5), &key, NOW));
    assert!(!cert_binding_ok(&ca.public_key(), &wire, &addr(5), &key, NOW + 1));
    assert!(!cert_binding_ok(&ca.public_key(), &wire, &addr(6), &key, NOW));
    assert!(!cert_binding_ok(&ca.public_key(), &wire, &addr(5), &[3; 32], NOW));
    assert!(!cert_binding_ok(&key, &wire, &addr(5), &key, NOW));
    assert!(binding_given(true, &wire, &addr(5), &key, NOW));
    assert!(!binding_given(false, &wire, &addr(5), &key, NOW));
    let anchor = TrustAnchor::from_bytes(ca.public_key()).unwrap();
    assert_eq!(anchor.verify(&h.cert, NOW), Ok(()));
    assert_eq!(anchor.verify(&h.cert, NOW + 1), Err(CertError::Expired));
    let mut forged = h.cert.clone();
    forged.not_after = NO_EXPIRY;
    assert_eq!(anchor.verify(&forged, NOW), Err(CertError::BadSignature));
    assert_eq!(cert_verdict(true, NO_EXPIRY, u64::MAX), Ok(()));
    let none = { let mut b = [0u8; 32]; b[0] = 2; b };
    assert!(TrustAnchor::from_bytes(none).is_none());
}

#[test]
fn signatures_are_those_of_the_crate() {
    let sk = SigningKey::from_bytes(&[9; 32]);
    assert_eq!(verify_key_from_seed([9; 32]), sk.verifying_key().to_bytes());
    assert_eq!(ZoneServer::pop_sign(&[9; 32], b"m"), sk.sign(b"m").to_bytes());
}

#[test]
fn issued_token_holds_for_a_day() {
    let z = ZoneServer::from_seeds([1; 32], [2; 32]);
    let t = z.issue_jwt("abc", NOW, DEFAULT_TOKEN_TTL_SECS).unwrap();
    let exp = NOW + DEFAULT_TOKEN_TTL_SECS;
    assert_eq!(z.verify_token_claims(&t, exp), Ok(("abc".to_string(), exp)));
    assert_eq!(z.verify_token(&t, exp + 1), Err(ZoneError::TokenExpired { exp, now: exp + 1 }));
    let other = ZoneServer::from_seeds([1; 32], [3; 32]);
    assert_eq!(other.verify_token(&t, NOW), Err(ZoneError::BadToken));
    let odd = z.issue_jwt("a\"b\\c\n中", NOW, 5).unwrap();
    assert_eq!(z.verify_token(&odd, NOW), Ok("a\"b\\c\n中".to_string()));
    assert_eq!(t.split('.').next(), Some("eyJhbGciOiJIUzI1NiIsInR5cCI6IkpXVCJ9"));
    assert_eq!(check_claims(None, Some("a".to_string()), 0), Err(ZoneError::BadToken));
    assert_eq!(check_claims(Some(1), None, 0), Err(ZoneError::BadToken));
}

#[test]
fn generated_servers_differ() {
    assert_ne!(ZoneServer::generate().trust_anchor(), ZoneServer::generate().trust_anchor());
}

#[test]
fn zone_decisions_given_the_checks() {
    let mut z = ZoneServer::from_seeds([1; 32], [2; 32]);
    let text = addr(1).to_canonical_string();
    assert_eq!(z.let_in("zz", &[0; 32], 64, true, true), Err(ZoneError::BadAddress));
    assert_eq!(z.let_in(&text, &[0; 31], 64, true, true), Err(ZoneError::BadKeyLength));
    assert_eq!(z.let_in(&text, &[0; 32], 63, true, true), Err(ZoneError::BadKeyLength));
    assert_eq!(z.let_in(&text, &[0; 32], 64, false, true), Err(ZoneError::BadKeyLength));
    assert_eq!(z.let_in(&text, &[0; 32], 64, true, false), Err(ZoneError::BadProof));
    assert_eq!(z.let_in(&text, &[0; 32], 64, true, true), Ok(addr(1)));
    let token = |s: &str| Ok((s.to_string(), 9));
    let rot = |z: &ZoneServer, t, ok| z.let_rotate(t, &text, &[0; 32], 64, true, ok);
    assert_eq!(rot(&z, token("x"), true), Err(ZoneError::TokenMismatch));
    assert_eq!(rot(&z, Err(ZoneError::BadToken), true), Err(ZoneError::BadToken));
    assert_eq!(rot(&z, token(&text), false), Err(ZoneError::BadProof));
    assert_eq!(rot(&z, token(&text), true), Err(ZoneError::NotRegistered { addr: addr(1) }));
    let k = verify_key_from_seed([5; 32]);
    let proof = ZoneServer::pop_sign(&[5; 32], &ZoneServer::register_msg(&text, &k));
    z.register(&text, &k, &proof, 9, NOW).unwrap();
    assert!(z.is_registered(addr(1)) && !z.is_registered(addr(2)));
    assert_eq!(rot(&z, token(&text), true), Ok(addr(1)));
    assert_eq!(
        z.let_in(&text, &[0; 32], 64, true, true),
        Err(ZoneError::AlreadyRegistered { addr: addr(1) })
    );
}

fn rule(id: &str, enabled: bool) -> Rule {
    Rule {
        id: id.to_string(),
        name: String::new(),
        protocol: Protocol::Any,
        port_start: 0,
        port_end: 65535,
        source_pattern: "*".to_string(),
        target_addr: String::new(),
        target_port: 0,
        enabled,
        direction: Direction::Inbound,
        comment: String::new(),
    }
}

#[test]
fn rules_come_and_go() {
    let mut s = RuleSet::default();
    s.add(rule("a", true));
    s.add(rule("b", false));
    assert_eq!((s.stats().total, s.stats().active, s.stats().disabled), (2, 1, 1));
    assert_eq!(s.active_rules().len(), 1);
    assert!(s.match_rule(6, 80, &addr(1)).is_some());
    assert!(s.toggle("a"));
    assert!(s.match_rule(6, 80, &addr(1)).is_none());
    assert!(s.toggle("a"));
    assert!(s.rules[0].enabled);
    assert!(!s.toggle("c"));
    assert!(s.remove("a"));
    assert!(!s.remove("a"));
    assert_eq!(s.rules.len(), 1);
    assert_eq!(Protocol::parse("UDP"), Protocol::Udp);
    assert_eq!(Protocol::parse("47"), Protocol::Custom(47));
    assert_eq!(Protocol::parse("nonsense"), Protocol::Any);
    assert_ne!(gen_rule_id(1), gen_rule_id(2));
}

#[test]
fn texts_are_read() {
    assert_eq!(unhex("00fF"), Some(vec![0, 255]));
    assert_eq!(unhex("0"), None);
    assert_eq!(parse_number("255", 255), Some(255));
    assert_eq!(parse_number("256", 255), None);
    assert_eq!(parse_number("+7", 255), Some(7));
    assert_eq!(parse_number("", 255), None);
    assert!(lower_is("AbC", "abc"));
    assert!(is_before("a", "b") && is_before("a", "ab") && !is_before("b", "a"));
}
