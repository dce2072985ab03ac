//! Fragments and their reassembly.

use ipv8plus::codec::decode::decode;
use ipv8plus::codec::encode::encode;
use ipv8plus::codec::flags;
use ipv8plus::codec::fragment::{fragment_packet, FragmentError, FragmentInfo, DEFAULT_MTU};
use ipv8plus::codec::header::{ExtType, ExtensionHeader, IPv8Address, IPv8Header};
use ipv8plus::codec::reassembly::{Reassembler, ReassemblyError};

fn addr(n: u8) -> IPv8Address {
    IPv8Address::new(1, n as u32, 0, 0, 0)
}

fn big_packet(payload_len: usize) -> Vec<u8> {
    let hdr = IPv8Header::new(addr(1), addr(2), payload_len as u16);
    encode(&hdr, &vec![0xABu8; payload_len]).unwrap()
}

#[test]
fn no_fragment_when_fits() {
    let pkt = big_packet(1000);
    let frags = fragment_packet(&pkt, DEFAULT_MTU, 42).unwrap();
    assert_eq!(frags.len(), 1);
    assert_eq!(frags[0], pkt);
}

#[test]
fn fragment_then_reassemble() {
    let pkt = big_packet(5000);
    let frags = fragment_packet(&pkt, DEFAULT_MTU, 777).unwrap();
    assert!(frags.len() >= 4, "5040B/1432 → 至少 4 片，实际 {}", frags.len());
    let mut r = Reassembler::new();
    let mut out = None;
    for f in &frags {
        let d = decode(f).unwrap();
        assert_ne!(d.header.flags & flags::FRAGMENT, 0, "每片必须 F=1");
        let fr = FragmentInfo::parse(d.header.ext_headers.first().unwrap()).unwrap();
        assert_eq!(fr.id, 777);
        out = r.insert(&d.header, d.payload, 0).unwrap();
    }
    assert_eq!(out.as_deref(), Some(&pkt[..]), "重组结果必须逐字节等于原包");
    assert_eq!(r.active_groups(), 0);
}

#[test]
fn out_of_order_and_interleaved() {
    let pkt = big_packet(3000);
    let frags = fragment_packet(&pkt, 800, 1).unwrap();
    let mut r = Reassembler::new();

    let mut out = None;
    for f in frags.iter().rev() {
        let d = decode(f).unwrap();
        out = r.insert(&d.header, d.payload, 0).unwrap();
    }
    assert_eq!(out.as_deref(), Some(&pkt[..]));
}

#[test]
fn overlap_and_misalign_rejected() {
    let pkt = big_packet(2000);
    let frags = fragment_packet(&pkt, 800, 9).unwrap();
    let mut r = Reassembler::new();
    let d0 = decode(&frags[0]).unwrap();
    assert!(r.insert(&d0.header, d0.payload, 0).unwrap().is_none());
    assert_eq!(
        r.insert(&d0.header, d0.payload, 0).err(),
        Some(ReassemblyError::Overlap),
        "完全重复片拒绝"
    );

    assert_eq!(r.active_groups(), 1);

    let mut hdr = IPv8Header::new(addr(1), addr(2), 7);
    hdr.flags |= flags::FRAGMENT;
    hdr.attach_ext_headers(vec![FragmentInfo { id: 5, offset: 0, more: true }.to_ext()]);
    let bad = encode(&hdr, b"1234567").unwrap();
    let d = decode(&bad).unwrap();
    assert_eq!(
        Reassembler::new().insert(&d.header, d.payload, 0).err(),
        Some(ReassemblyError::Misaligned)
    );
}

#[test]
fn flag_mismatch_rejected() {
    let pkt = big_packet(2000);
    let frags = fragment_packet(&pkt, 800, 11).unwrap();
    let mut d = decode(&frags[0]).unwrap();
    d.header.flags &= !flags::FRAGMENT;
    assert_eq!(
        Reassembler::new().insert(&d.header, d.payload, 0).err(),
        Some(ReassemblyError::FlagMismatch)
    );
}

#[test]
fn group_limit_and_timeout() {
    let pkt = big_packet(2000);
    let frags = fragment_packet(&pkt, 1432, 123).unwrap();
    let mut r = Reassembler::new();
    let d = decode(&frags[0]).unwrap();
    r.insert(&d.header, d.payload, 0).unwrap();
    assert_eq!(r.active_groups(), 1);

    r.reap(1_000);
    assert_eq!(r.active_groups(), 1, "未超时不应回收");
}

#[test]
fn mtu_too_small_errors() {
    let pkt = big_packet(100);
    assert_eq!(
        fragment_packet(&pkt, 50, 1).err(),
        Some(FragmentError::MtuTooSmall(50))
    );
}

#[test]
fn refragment_rejected() {
    let pkt = big_packet(2000);
    let frags = fragment_packet(&pkt, 800, 1).unwrap();
    assert!(matches!(
        fragment_packet(&frags[0], 800, 2),
        Err(FragmentError::AlreadyFragmented)
    ));
}

#[test]
fn ext_headers_survive_first_fragment_only() {
    let src = addr(1);
    let mut hdr = IPv8Header::new(src, addr(2), 3000);
    hdr.attach_ext_headers(vec![ExtensionHeader::new(ExtType::SemanticTag, vec![0xCD; 8]).unwrap()]);
    let pkt = encode(&hdr, &vec![0u8; 3000]).unwrap();
    let frags = fragment_packet(&pkt, 1432, 88).unwrap();
    let d0 = decode(&frags[0]).unwrap();
    assert_eq!(d0.header.ext_headers.len(), 2, "首片: Fragment+SemanticTag");
    assert_eq!(d0.header.ext_headers[0].ext_type, ExtType::Fragment);
    assert_eq!(d0.header.ext_headers[1].ext_type, ExtType::SemanticTag);
    let d1 = decode(&frags[1]).unwrap();
    assert_eq!(d1.header.ext_headers.len(), 1, "后续片仅 Fragment");

    let mut r = Reassembler::new();
    let mut out = None;
    for f in &frags {
        let d = decode(f).unwrap();
        out = r.insert(&d.header, d.payload, 0).unwrap();
    }
    assert_eq!(out.as_deref(), Some(&pkt[..]));
}

fn fragment(id: u32, offset: u16, more: bool, len: u16) -> IPv8Header {
    let mut h = IPv8Header::new(addr(1), addr(2), len);
    h.flags |= flags::FRAGMENT;
    h.attach_ext_headers(vec![FragmentInfo { id, offset, more }.to_ext()]);
    h
}

#[test]
fn partial_overlap_is_refused() {
    let mut r = Reassembler::new();
    assert_eq!(r.insert(&fragment(9, 1, true, 16), &[1u8; 16], 0), Ok(None));
    // Inside the one that waits, over its beginning, at its beginning, around it.
    assert_eq!(r.insert(&fragment(9, 2, true, 8), &[2u8; 8], 0), Err(ReassemblyError::Overlap));
    assert_eq!(r.insert(&fragment(9, 0, true, 16), &[2u8; 16], 0), Err(ReassemblyError::Overlap));
    assert_eq!(r.insert(&fragment(9, 1, false, 16), &[2u8; 16], 0), Err(ReassemblyError::Overlap));
    assert_eq!(r.insert(&fragment(9, 0, true, 32), &[2u8; 32], 0), Err(ReassemblyError::Overlap));
    assert_eq!(r.insert(&fragment(9, 1, false, 65_464), &vec![2u8; 65_464], 0), Err(ReassemblyError::Oversize));
    // What was refused left nothing behind.
    assert_eq!(r.insert(&fragment(9, 3, false, 8), &[3u8; 8], 0), Ok(None));
    // With the length known, a fragment that does not fit it is refused for that.
    assert_eq!(r.insert(&fragment(9, 1, true, 32), &[2u8; 32], 0), Err(ReassemblyError::BeyondTotal));
    assert_eq!(r.insert(&fragment(9, 1, false, 16), &[2u8; 16], 0), Err(ReassemblyError::BeyondTotal));
    assert_eq!(r.insert(&fragment(9, 1, true, 16), &[2u8; 16], 0), Err(ReassemblyError::Overlap));
    let whole = r.insert(&fragment(9, 0, true, 8), &[0u8; 8], 0).unwrap().unwrap();
    let d = decode(&whole).unwrap();
    assert_eq!(d.payload, [[0u8; 8], [1u8; 8], [1u8; 8], [3u8; 8]].concat());
    assert_eq!(r.active_groups(), 0);
}

#[test]
fn reserved_flags_are_not_passed_on() {
    let mut r = Reassembler::new();
    let mut h = IPv8Header::new(addr(1), addr(2), 8);
    h.flags = 0x00A0;
    h.attach_ext_headers(vec![FragmentInfo { id: 1, offset: 0, more: false }.to_ext()]);
    let whole = r.insert(&h, &[0u8; 8], 0).unwrap().unwrap();
    assert_eq!(whole, encode(&IPv8Header::new(addr(1), addr(2), 8), &[0u8; 8]).unwrap());
}

#[test]
fn packet_that_is_too_long_is_refused() {
    let mut r = Reassembler::new();
    let mut h = fragment(4, 0, true, 65_456);
    let long = ExtensionHeader::new(ExtType::SemanticTag, vec![0; 64]).unwrap();
    h.attach_ext_headers(vec![FragmentInfo { id: 4, offset: 0, more: true }.to_ext(), long]);
    assert_eq!(r.insert(&h, &vec![0u8; 65_456], 0), Ok(None));
    let last = fragment(4, 8182, false, 8);
    assert_eq!(r.insert(&last, &[0u8; 8], 0), Err(ReassemblyError::Oversize));
    assert_eq!(r.active_groups(), 0);
}
