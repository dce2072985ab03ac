//! Slots, frames of the local network, socket addresses, the driver library
//! and enrolment.

use ipv8plus::cert::{verify_key_from_seed, CertAuthority};
use ipv8plus::codec::header::IPv8Address;
use ipv8plus::node::args::RioMode;
use ipv8plus::node::dll::{dll_name, hash_tag, is_intact, is_old, tag_of_digest};
use ipv8plus::node::enroll::{cached_cert, enroll_reply, enroll_request, load_cert_cache, EnrollError};
use ipv8plus::node::lan::{
    build_frame, destination, parse_bindings, parse_frame, request_header, Binding, LanError, FRAME_MAX,
};
use ipv8plus::node::slots::{
    checked_region, classify, context_of_send, drain, io_ways, plan_send, regions, Completion, Done, IoWay, Region,
    RioPacket, SendError, SlotTable, ADDR_CAP, SLOT_CAP,
};
use ipv8plus::node::sock::{decode_sockaddr, encode_sockaddr, map_for_socket, same_sock, SockAddr};
use ipv8plus::zone::{ZoneServer, DEFAULT_VALIDITY_SECS};

const PEER: SockAddr = SockAddr::V4 { ip: [192, 0, 2, 7], port: 0x1234 };

#[test]
fn buffer_is_measured() {
    assert_eq!(checked_region(2), Some(2 * 65_507 + 2 * 32));
    assert_eq!(checked_region(usize::MAX / 100), None);
    let (data, addr) = regions(2, 10, 20);
    assert_eq!(data, vec![Region { offset: 0, length: 10 }, Region { offset: 65_507, length: 10 }]);
    assert_eq!(addr, vec![Region { offset: 131_014, length: 20 }, Region { offset: 131_046, length: 20 }]);
}

#[test]
fn completions_are_told_apart() {
    let mut region = [0u8; ADDR_CAP];
    encode_sockaddr(&PEER, &mut region);
    assert_eq!(context_of_send(5), 0x8000_0000_0000_0005);
    assert_eq!(classify(context_of_send(5), 0, 9, &region), Completion::Sent { slot: 5 });
    let p = RioPacket { slot: 3, len: 9, from: PEER };
    assert_eq!(classify(3, 0, 9, &region), Completion::Packet(p));
    assert_eq!(classify(3, 1, 9, &region), Completion::Repost { slot: 3 });
    assert_eq!(classify(3, 0, 0, &region), Completion::Repost { slot: 3 });
    assert_eq!(classify(3, 0, 65_508, &region), Completion::Repost { slot: 3 });
    assert_eq!(classify(3, 0, 9, &[0u8; ADDR_CAP]), Completion::Repost { slot: 3 });
}

#[test]
fn send_fills_a_slot() {
    let n = 2;
    let mut table = SlotTable::new(n);
    let mut buf = vec![0xeeu8; n * SLOT_CAP + n * ADDR_CAP];
    let p = plan_send(&mut table, &mut buf, n, &[1, 2, 3], &PEER).unwrap();
    assert_eq!((p.slot, p.context), (0, 0x8000_0000_0000_0000));
    let q = plan_send(&mut table, &mut buf, n, &[4, 5], &PEER).unwrap();
    assert_eq!(q.slot, 1);
    assert_eq!(&buf[..4], &[1, 2, 3, 0xee]);
    assert_eq!(&buf[SLOT_CAP..SLOT_CAP + 3], &[4, 5, 0xee]);
    assert_eq!(q.data, Region { offset: SLOT_CAP as u32, length: 2 });
    assert_eq!(q.addr.length, 16);
    assert_eq!(decode_sockaddr(&buf[q.addr.offset as usize..]), Some(PEER));
    assert_eq!(plan_send(&mut table, &mut buf, n, &[6], &PEER), Err(SendError::Busy));
    let long = vec![0u8; SLOT_CAP + 1];
    assert_eq!(plan_send(&mut table, &mut buf, n, &long, &PEER), Err(SendError::TooLong(SLOT_CAP + 1)));
}

#[test]
fn done_requests_are_handled() {
    let n = 2;
    let mut table = SlotTable::new(4);
    for i in 0..4 {
        assert_eq!(table.allocate(), Some(i));
    }
    let mut buf = vec![0u8; n * SLOT_CAP + n * ADDR_CAP];
    encode_sockaddr(&PEER, &mut buf[n * SLOT_CAP + ADDR_CAP..]);
    let done = vec![
        Done { context: context_of_send(2), status: 0, bytes: 1 },
        Done { context: 1, status: 0, bytes: 7 },
        Done { context: 0, status: 5, bytes: 7 },
    ];
    let (packets, again) = drain(&mut table, &done, &buf, n);
    assert_eq!(packets, vec![RioPacket { slot: 1, len: 7, from: PEER }]);
    assert_eq!(again, vec![0]);
    assert_eq!(table.allocate(), Some(2));
    assert_eq!(table.allocate(), None);
    assert_eq!(table.len(), 4);
}

#[test]
fn ways_are_tried_in_order() {
    let full = IoWay::Rio { recv: 256, send: 128 };
    let small = IoWay::Rio { recv: 64, send: 32 };
    assert_eq!(io_ways(RioMode::Auto), vec![full, small, IoWay::Std]);
    assert_eq!(io_ways(RioMode::On), vec![full, small]);
    assert_eq!(io_ways(RioMode::Off), vec![IoWay::Std]);
    assert_eq!(io_ways(RioMode::L2), vec![IoWay::L2]);
}

#[test]
fn lan_frame_carries_its_payload() {
    let f = build_frame(0x01020304, &[1, 2, 3, 4, 5, 6], b"hello").unwrap();
    assert_eq!(&f[..12], &[0x14, 0xfb, 0, 0, 4, 3, 2, 1, 0, 0, 0, 0]);
    assert_eq!(&f[12..18], &[1, 2, 3, 4, 5, 6]);
    assert_eq!(&f[18..26], &[0, 0, 0, 0, 0, 0, 0xfb, 0x14]);
    assert_eq!(&f[26..], b"hello");
    let asked = request_header(0x01020304);
    assert_eq!(asked, [0x14, 0xfb, 0, 0, 4, 3, 2, 1, 0, 0, 0, 0, 0, 0, 0, 0]);
    let came = [&[7u8; 16][..], &f[12..]].concat();
    assert_eq!(parse_frame(&came).unwrap(), (b"hello".to_vec(), [0u8; 6]));
}

#[test]
fn lan_faults_have_inputs() {
    let long = vec![0u8; FRAME_MAX - 13];
    assert_eq!(build_frame(1, &[0; 6], &long), Err(LanError::TooLong(1501)));
    assert!(build_frame(1, &[0; 6], &long[1..]).is_ok());
    assert_eq!(parse_frame(&[0u8; 29]), Err(LanError::TooShort));
    assert_eq!(parse_frame(&[0u8; 30]), Err(LanError::EtherType));
}

#[test]
fn bound_cards_are_listed() {
    let mut t = vec![0u8; 400];
    t[180 + 4] = 9;
    t[180 + 12] = 1;
    t[180 + 16..180 + 22].copy_from_slice(&[1, 2, 3, 4, 5, 6]);
    assert_eq!(parse_bindings(&t), vec![Binding { if_index: 9, mac: [1, 2, 3, 4, 5, 6] }]);
    assert!(parse_bindings(&t[..359]).is_empty());
    assert_eq!(destination(Some([7; 6])), [7; 6]);
    assert_eq!(destination(None), [0xff; 6]);
}

#[test]
fn addresses_of_sockets() {
    let v6 = SockAddr::V6 { ip6: [3; 16], port: 9, flowinfo: 0, scope_id: 0 };
    assert!(same_sock(&PEER, &PEER) && same_sock(&v6, &v6) && !same_sock(&PEER, &v6));
    let mut out = [0xffu8; 32];
    assert_eq!(encode_sockaddr(&v6, &mut out), 28);
    assert_eq!(&out[..8], &[23, 0, 0, 9, 0, 0, 0, 0]);
    assert_eq!(out[28], 0xff);
    assert_eq!(decode_sockaddr(&out), Some(v6));
    assert_eq!(map_for_socket(PEER, false), PEER);
    assert_eq!(map_for_socket(v6, true), v6);
    assert!(map_for_socket(PEER, true).is_v6());
}

#[test]
fn library_is_tagged_by_its_digest() {
    assert_eq!(hash_tag(b"abc"), "ba7816bf");
    assert_eq!(tag_of_digest(&[0x1f; 32]), "1f1f1f1f");
    assert_eq!(dll_name("ba7816bf"), "wintun-ba7816bf.dll");
    assert!(is_intact(b"abc", b"abc"));
    assert!(!is_intact(b"abd", b"abc"));
    assert!(!is_intact(b"abcd", b"abc"));
    assert!(is_old("wintun-00000000.dll", "wintun-ba7816bf.dll"));
    assert!(!is_old("wintun-ba7816bf.dll", "wintun-ba7816bf.dll"));
    assert!(!is_old("other.dll", "wintun-ba7816bf.dll"));
    assert!(!is_old("wintun-1.txt", "wintun-ba7816bf.dll"));
}

#[test]
fn enrolment_gives_a_usable_certificate() {
    let addr = IPv8Address::new(64500, 3, 1, 0, 1);
    let seed = [0x31u8; 32];
    let req = enroll_request(&addr, &seed);
    assert_eq!(req.addr_text, addr.to_canonical_string());
    assert_eq!(req.ed_pub, verify_key_from_seed(seed));
    assert_eq!(req.label, "ipv8-node");
    let mut zone = ZoneServer::from_seeds([1; 32], [2; 32]);
    let issued = zone.register(&req.addr_text, &req.ed_pub, &req.proof, DEFAULT_VALIDITY_SECS, 1_000).unwrap();
    let c = &issued.cert;
    let got = enroll_reply(addr, seed, &zone.trust_anchor(), &c.verify_key, c.not_after, &c.ca_sig).unwrap();
    assert_eq!(got.host.cert, issued.cert);
    assert!(got.trust.verify(&got.host.cert, 2_000).is_ok());
    assert_eq!(got.cache.len(), 157);
    assert_eq!(&got.cache[..5], &[0x49, 0x50, 0x38, 0x43, 1]);
    let (ca, kept) = cached_cert(&got.cache).unwrap();
    assert_eq!((ca, kept), (zone.trust_anchor(), issued.cert.clone()));
    let (host, _) = load_cert_cache(&got.cache, addr, seed, 2_000).unwrap();
    assert_eq!(host.cert, issued.cert);
    assert!(load_cert_cache(&got.cache, addr, [0x32; 32], 2_000).is_none());
    let other = IPv8Address::new(64500, 4, 1, 0, 1);
    assert!(load_cert_cache(&got.cache, other, seed, 2_000).is_none());
}

#[test]
fn enrolment_faults_have_inputs() {
    let addr = IPv8Address::new(64500, 3, 1, 0, 1);
    let ca = CertAuthority::from_seed([1; 32]).public_key();
    let reply = |a: &[u8], k: &[u8], s: &[u8]| enroll_reply(addr, [3; 32], a, k, 9, s).err();
    assert_eq!(reply(&ca[1..], &[0; 32], &[0; 64]), Some(EnrollError::AnchorLength));
    assert_eq!(reply(&ca, &[0; 31], &[0; 64]), Some(EnrollError::KeyLength));
    assert_eq!(reply(&ca, &[0; 32], &[0; 63]), Some(EnrollError::SignatureLength));
    let mut none = [0u8; 32];
    none[0] = 2;
    assert_eq!(reply(&none, &[0; 32], &[0; 64]), Some(EnrollError::BadAnchor));
    assert_eq!(reply(&ca, &[0; 32], &[0; 64]), None);
}
