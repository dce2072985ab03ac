//! The packet format: layout, checks, versions.

use ipv8plus::codec::compat::{classify, InnerProto};
use ipv8plus::codec::decode::{decode, DecodeError};
use ipv8plus::codec::encode::{encode, encode_header, EncodeError};
use ipv8plus::codec::flags;
use ipv8plus::codec::header::{
    AddrParseError, ExtType, ExtensionHeader, Flags, IPv8Address, IPv8Header, MAX_PAYLOAD_LEN,
};
use ipv8plus::codec::version::{negotiate_local, Negotiation};

fn addr_full() -> IPv8Address {
    IPv8Address::new(0x0102_0304, 0x0A0B_0C0D, 0x1122, 0x3344, 0x02)
}

fn addr_min() -> IPv8Address {
    IPv8Address::new(0, 1, 0, 0, 0)
}

#[test]
fn wire_format_fixture() {
    let mut hdr = IPv8Header::new(addr_full(), addr_min(), 4);
    hdr.hop_limit = 64;
    let pkt = encode(&hdr, &[0xDE, 0xAD, 0xBE, 0xEF]).unwrap();

    assert_eq!(pkt.len(), 44);
    let expect: [u8; 40] = [
        0x80, 0x00, 0x00,
        0x00, 0x04,
        0x40,
        0x00,

        0x01, 0x02, 0x03, 0x04, 0x0A, 0x0B, 0x0C, 0x0D, 0x11, 0x22, 0x33, 0x44, 0x02, 0x00, 0x00, 0x00,

        0x00, 0x00, 0x00, 0x00, 0x00, 0x00, 0x00, 0x01, 0x00, 0x00, 0x00, 0x00, 0x00, 0x00, 0x00, 0x00,
        0x00,
    ];
    assert_eq!(&pkt[..40], &expect[..]);
    assert_eq!(&pkt[40..], &[0xDE, 0xAD, 0xBE, 0xEF]);
}

#[test]
fn roundtrip_no_ext() {
    let hdr = IPv8Header::new(addr_full(), addr_min(), 3);
    let pkt = encode(&hdr, b"abc").unwrap();
    let d = decode(&pkt).unwrap();
    assert_eq!(d.header, hdr);
    assert_eq!(d.payload, b"abc");
}

#[test]
fn roundtrip_ext_chain_reordered() {
    let mut hdr = IPv8Header::new(addr_full(), addr_min(), 2);
    hdr.attach_ext_headers(vec![
        ExtensionHeader::new(ExtType::IdentityToken, vec![0xAA; 16]).unwrap(),
        ExtensionHeader::new(ExtType::Fragment, vec![0xBB; 8]).unwrap(),
    ]);
    let pkt = encode(&hdr, b"hi").unwrap();
    let d = decode(&pkt).unwrap();
    assert_eq!(d.header, hdr);
    assert_eq!(d.header.ext_headers.len(), 2);

    assert_eq!(d.header.next_header, ExtType::IdentityToken.wire());
    assert_eq!(pkt[40], 6, "IdentityToken 环内指针应指向 Fragment");
    assert_eq!(d.payload, b"hi");
}

#[test]
fn flags_helpers() {
    let f: u16 = 0x50;
    assert!(Flags::is_encrypted(flags::ENCRYPTED));
    assert!(Flags::is_fragment(flags::FRAGMENT));
    assert!(Flags::has_extension(flags::HAS_EXTENSION));
    assert_eq!(Flags::qos_level(0x0D), 13);
    assert!(!Flags::reserved_ok(f | 0x0080));
    assert!(Flags::reserved_ok(flags::ENCRYPTED | flags::FRAGMENT | 7));
}

#[test]
fn payload_len_constraint() {
    let hdr = IPv8Header::new(addr_min(), addr_min(), MAX_PAYLOAD_LEN);
    let payload = vec![0u8; MAX_PAYLOAD_LEN as usize];
    let pkt = encode(&hdr, &payload).unwrap();
    assert_eq!(pkt.len(), 40 + 65467);
    let d = decode(&pkt).unwrap();
    assert_eq!(d.header.payload_len, MAX_PAYLOAD_LEN);

    let bad = IPv8Header::new(addr_min(), addr_min(), MAX_PAYLOAD_LEN + 1);
    assert_eq!(
        encode_header(&bad, &mut Vec::new()),
        Err(EncodeError::PayloadTooLong(65468))
    );
}

#[test]
fn encode_rejects_inconsistency() {
    let hdr = IPv8Header::new(addr_min(), addr_min(), 10);
    assert!(matches!(
        encode(&hdr, b"short"),
        Err(EncodeError::PayloadLengthMismatch { .. })
    ));

    let mut bad = IPv8Header::new(addr_min(), addr_min(), 0);
    bad.flags = 0x0080;
    assert_eq!(encode_header(&bad, &mut Vec::new()), Err(EncodeError::ReservedBits));

    let mut stale = IPv8Header::new(addr_min(), addr_min(), 0);
    stale.attach_ext_headers(vec![ExtensionHeader::new(ExtType::AgentCard, vec![1; 8]).unwrap()]);
    stale.next_header = 0;
    assert!(matches!(
        encode_header(&stale, &mut Vec::new()),
        Err(EncodeError::NextHeaderMismatch { .. })
    ));
}

#[test]
fn decode_rejects_malformed() {
    assert_eq!(decode(&[0u8; 39]), Err(DecodeError::TooShort(39)));

    let mut pkt = encode(&IPv8Header::new(addr_min(), addr_min(), 0), &[]).unwrap();
    pkt[0] = 0x60;
    assert_eq!(decode(&pkt), Err(DecodeError::BadVersion(6)));

    let mut pkt = encode(&IPv8Header::new(addr_min(), addr_min(), 0), &[]).unwrap();
    pkt[20] = 0xFF;
    let d = decode(&pkt).unwrap();
    assert_eq!(d.header.src_addr.reserved, [0; 3]);

    let mut pkt = encode(&IPv8Header::new(addr_min(), addr_min(), 0), &[]).unwrap();
    pkt[39] = 0x01;
    assert!(decode(&pkt).is_ok());

    let mut pkt = encode(&IPv8Header::new(addr_min(), addr_min(), 0), &[]).unwrap();
    pkt[1] |= 0xFF;
    assert!(decode(&pkt).is_ok());

    let mut pkt = Vec::new();
    encode_header(&IPv8Header::new(addr_min(), addr_min(), 100), &mut pkt).unwrap();
    assert_eq!(
        decode(&pkt),
        Err(DecodeError::PayloadBeyondBuffer { need: 100, have: 0 })
    );

    let mut pkt = encode(&IPv8Header::new(addr_min(), addr_min(), 2), b"ok").unwrap();
    pkt[6] = 200;
    pkt[2] |= 0x40;
    pkt.splice(40..40, [0u8, 2u8]);
    pkt.splice(42..42, std::iter::repeat_n(0xAB, 16));
    let d = decode(&pkt).unwrap();
    assert_eq!(d.header.ext_headers.len(), 1);
    assert_eq!(d.header.ext_headers[0].ext_type, ExtType::Unknown(200));
    assert_eq!(d.payload, b"ok", "未知头被跳过后载荷偏移必须正确");

    let re = encode(&d.header, d.payload).unwrap();
    assert_eq!(re, pkt);

    let mut hdr = IPv8Header::new(addr_min(), addr_min(), 0);
    hdr.attach_ext_headers(vec![ExtensionHeader::new(ExtType::IdentityToken, vec![0; 8]).unwrap()]);
    let mut pkt = encode(&hdr, &[]).unwrap();
    pkt[40] = 1;
    assert_eq!(decode(&pkt), Err(DecodeError::ExtChainCycle));

    let mut pkt2 = encode(&hdr, &[]).unwrap();
    pkt2[41] = 0;
    assert_eq!(decode(&pkt2), Err(DecodeError::ExtLenZero));

    let mut pkt3 = encode(&hdr, &[]).unwrap();
    pkt3[2] &= !0x40;
    assert_eq!(decode(&pkt3), Err(DecodeError::FlagMismatch));
}

#[test]
fn version_negotiation() {
    let mut hdr = IPv8Header::new(addr_min(), addr_min(), 0);
    assert_eq!(negotiate_local(&hdr), Negotiation::Degrade { their_min_compat: 0 });
    hdr.min_compat_ver = 8;
    assert_eq!(negotiate_local(&hdr), Negotiation::Full);
    hdr.min_compat_ver = 9;
    assert_eq!(
        negotiate_local(&hdr),
        Negotiation::Incompatible { their_min_compat: 9, local: 8 }
    );
}

#[test]
fn address_canonical_text() {
    let a = IPv8Address::new(0x0102_0304, 0x0A0B_0C0D, 0x1122, 0x3344, 0x02);

    assert_eq!(a.to_canonical_string(), "010203040a0b0c0d1122334402000000");
    let zero = IPv8Address::new(0, 0, 0, 0, 0);
    assert_eq!(zero.to_canonical_string(), "0".repeat(32));

    let back = IPv8Address::from_canonical_str("010203040A0B0C0D1122334402000000").unwrap();
    assert_eq!(back, a);

    assert_eq!(IPv8Address::from_canonical_str("0102"), Err(AddrParseError::Format));
    assert_eq!(
        IPv8Address::from_canonical_str(&format!("{}g00000", "0".repeat(25))),
        Err(AddrParseError::Format)
    );
    assert_eq!(
        IPv8Address::from_canonical_str("010203040a0b0c0d1122334402ff0000"),
        Err(AddrParseError::ReservedNonZero)
    );
}

#[test]
fn compat_classification() {
    assert_eq!(classify(&[0x45, 0, 0, 0]), Some(InnerProto::IPv4));
    assert_eq!(classify(&[0x60, 0, 0, 0]), Some(InnerProto::IPv6));
    assert_eq!(classify(&[0x00]), Some(InnerProto::Other));
    assert_eq!(classify(&[]), None);
}

#[test]
fn property_roundtrip_random() {
    let mut state: u64 = 0x1234_5678_9ABC_DEF0;
    let mut next = move || {
        state = state.wrapping_mul(6364136223846793005).wrapping_add(1442695040888963407);
        (state >> 33) as u32
    };
    for _ in 0..1000 {
        let src = IPv8Address::new(next(), next(), next() as u16, next() as u16, next() as u8);
        let dst = IPv8Address::new(next(), next(), next() as u16, next() as u16, next() as u8);
        let plen = (next() % 1392) as u16;
        let mut hdr = IPv8Header::new(src, dst, plen);
        hdr.flags = (next() % 16) as u16
            | if next() % 2 == 0 { flags::ENCRYPTED } else { 0 }
            | if next() % 3 == 0 { flags::FRAGMENT } else { 0 };
        hdr.hop_limit = next() as u8;
        if next() % 4 == 0 {
            let types = [ExtType::IdentityToken, ExtType::SemanticTag, ExtType::AgentCard];
            let n = 1 + (next() % 3) as usize;
            let exts: Vec<_> = types[..n.min(types.len())]
                .iter()
                .map(|t| ExtensionHeader::new(*t, vec![next() as u8; 8]).unwrap())
                .collect();
            hdr.attach_ext_headers(exts);
        }
        let payload: Vec<u8> = (0..plen as usize).map(|_| next() as u8).collect();
        let pkt = encode(&hdr, &payload).unwrap();
        let d = decode(&pkt).unwrap();
        assert_eq!(d.header, hdr, "往返不一致: {hdr:?}");
        assert_eq!(d.payload, &payload[..]);
    }
}

#[test]
fn property_decode_never_panics() {
    let good = {
        let mut hdr = IPv8Header::new(addr_full(), addr_min(), 8);
        hdr.attach_ext_headers(vec![ExtensionHeader::new(ExtType::RouteTrace, vec![7; 24]).unwrap()]);
        encode(&hdr, b"payload!").unwrap()
    };

    for i in 0..good.len() {
        let _ = decode(&good[..i]);
    }

    for i in 0..good.len() {
        for bit in 0..8 {
            let mut corrupted = good.clone();
            corrupted[i] ^= 1 << bit;
            let _ = decode(&corrupted);
        }
    }
}
