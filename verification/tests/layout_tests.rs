//! Extension headers with a fixed layout.

use ipv8plus::codec::decode::decode;
use ipv8plus::codec::encode::encode;
use ipv8plus::codec::header::{ExtType, ExtensionHeader, IPv8Address, IPv8Header};
use ipv8plus::codec::layouts::{
    agent_card_message, route_trace_message, AgentCardSummary, LayoutError, QosReservation, RouteTrace, TraceSigInput,
};
use ipv8plus::codec::tags::SemanticTags;

fn addr(n: u32) -> IPv8Address {
    IPv8Address::new(0xfb14, n, 1, 0x2a, 1)
}

#[test]
fn qos_roundtrip_and_offsets() {
    let q = QosReservation { rate_kibs: 0x12_3456, burst_size: 0xABCD, queue_hint: 7 };
    let p = q.to_payload().unwrap();
    assert_eq!(p.len(), QosReservation::PAYLOAD_LEN);

    assert_eq!(&p[0..3], &[0x12, 0x34, 0x56]);
    assert_eq!(&p[3..5], &[0xAB, 0xCD]);
    assert_eq!(p[5], 7);
    assert_eq!(&p[6..8], &[0, 0], "保留位发送置 0");
    assert_eq!(QosReservation::from_payload(&p).unwrap(), q);
}

#[test]
fn qos_rate_overflow_rejected() {
    let q = QosReservation { rate_kibs: 1 << 24, burst_size: 0, queue_hint: 0 };
    assert_eq!(q.to_payload().err(), Some(LayoutError::RateTooLarge));
}

#[test]
fn qos_reserved_bits_ignored_on_receive() {
    let mut p = vec![0u8; 8];
    p[6] = 0xFF;
    let q = QosReservation::from_payload(&p).unwrap();
    assert_eq!(q.rate_kibs, 0);
}

#[test]
fn routetrace_roundtrip_payload_multiple_of_8() {
    let rt = RouteTrace {
        src_pubkey: [0xA1; 32],
        path_sig: [0xB2; 64],
        init_hop_limit: 64,
        hops: vec![addr(2), addr(3), addr(4)],
    };
    let p = rt.to_payload().unwrap();
    assert_eq!(p.len(), 104 + 48);
    assert_eq!(p.len() % 8, 0, "ExtLen 单位 8B 必须整除");
    assert_eq!(p[96], 3, "HopCount 偏移 96");
    assert_eq!(p[97], 64, "InitHopLimit 偏移 97");
    assert_eq!(RouteTrace::from_payload(&p).unwrap(), rt);

    assert!(ExtensionHeader::new(ExtType::RouteTrace, p.clone()).is_some());
}

#[test]
fn routetrace_strict_length_checks() {
    let rt = RouteTrace {
        src_pubkey: [0u8; 32],
        path_sig: [0u8; 64],
        init_hop_limit: 64,
        hops: vec![addr(9)],
    };
    let mut p = rt.to_payload().unwrap();
    p.truncate(104 + 16 - 1);
    assert_eq!(RouteTrace::from_payload(&p).err(), Some(LayoutError::BadLen));
    p = rt.to_payload().unwrap();
    p.extend_from_slice(&[0u8; 16]);
    assert_eq!(RouteTrace::from_payload(&p).err(), Some(LayoutError::BadLen));
}

#[test]
fn routetrace_hop_bounds() {
    let empty = RouteTrace {
        src_pubkey: [0; 32],
        path_sig: [0; 64],
        init_hop_limit: 64,
        hops: vec![],
    };
    assert_eq!(empty.to_payload().err(), Some(LayoutError::EmptyHops));
    let many = RouteTrace {
        src_pubkey: [0; 32],
        path_sig: [0; 64],
        init_hop_limit: 64,
        hops: (0..65).map(|i| addr(i + 1)).collect(),
    };
    assert_eq!(many.to_payload().err(), Some(LayoutError::TooManyHops));
}

#[test]
fn routetrace_survives_full_wire_roundtrip() {
    let rt = RouteTrace {
        src_pubkey: [0xC3; 32],
        path_sig: [0xD7; 64],
        init_hop_limit: 64,
        hops: vec![addr(20), addr(30)],
    };
    let mut hdr = IPv8Header::new(addr(1), addr(30), 8);
    hdr.attach_ext_headers(vec![
        ExtensionHeader::new(ExtType::RouteTrace, rt.to_payload().unwrap()).unwrap(),
        ExtensionHeader::new(ExtType::IdentityToken, vec![0xEE; 8]).unwrap(),
    ]);
    let pkt = encode(&hdr, b"payload!").unwrap();
    assert_eq!(pkt[6], ExtType::RouteTrace.wire(), "RouteTrace 必须居链首");
    let d = decode(&pkt).unwrap();
    assert_eq!(d.header, hdr);
    let back = RouteTrace::from_payload(&d.header.ext_headers[0].payload).unwrap();
    assert_eq!(back, rt);
}

#[test]
fn signed_message_covers_all_frozen_fields() {
    let (a, b, c, d) = (addr(1), addr(2), addr(3), addr(4));
    let pk = [0xA1u8; 32];
    let hops = [c, d];
    let base_in = TraceSigInput {
        src_addr: &a,
        dst_addr: &b,
        min_compat_ver: 0,
        flags: 0x40,
        payload_len: 16,
        init_hop_limit: 64,
        src_pubkey: &pk,
        hops: &hops,
    };
    let base = route_trace_message(&base_in);
    assert!(base.starts_with(b"ipv8plus-routetrace"), "域分隔前缀");

    let evil = [0xB2u8; 32];
    assert_ne!(route_trace_message(&TraceSigInput { src_pubkey: &evil, ..base_in }), base);

    assert_ne!(route_trace_message(&TraceSigInput { min_compat_ver: 1, ..base_in }), base);
    assert_ne!(route_trace_message(&TraceSigInput { flags: 0x41, ..base_in }), base);
    assert_ne!(route_trace_message(&TraceSigInput { payload_len: 17, ..base_in }), base);
    assert_ne!(route_trace_message(&TraceSigInput { init_hop_limit: 63, ..base_in }), base);

    assert_ne!(
        route_trace_message(&TraceSigInput { src_addr: &b, dst_addr: &a, ..base_in }),
        base,
        "src/dst 互换未检出"
    );
    let rev = [d, c];
    assert_ne!(route_trace_message(&TraceSigInput { hops: &rev[..], ..base_in }), base, "跳序篡改未检出");
    assert_ne!(route_trace_message(&TraceSigInput { hops: &hops[..1], ..base_in }), base, "截短一跳未检出");
}

fn card() -> AgentCardSummary {
    AgentCardSummary {
        version: 1,
        card_hash: [0xA5; 16],
        not_after: 0x0102_0304_0506_0708,
        agent_pubkey: [0xB4; 32],
        card_sig: [0xC7; 64],
    }
}

#[test]
fn agentcard_roundtrip_and_offsets() {
    let c = card();
    let p = c.to_payload();
    assert_eq!(p.len(), AgentCardSummary::PAYLOAD_LEN);
    assert!(p.len().is_multiple_of(8));

    assert_eq!(p[0], 1);
    assert_eq!(&p[1..8], &[0u8; 7], "保留位发送置 0");
    assert_eq!(&p[8..24], &[0xA5; 16]);
    assert_eq!(&p[24..32], &[0x01, 0x02, 0x03, 0x04, 0x05, 0x06, 0x07, 0x08]);
    assert_eq!(&p[32..64], &[0xB4; 32]);
    assert_eq!(&p[64..128], &[0xC7; 64]);
    assert_eq!(AgentCardSummary::from_payload(&p).unwrap(), c);
}

#[test]
fn agentcard_strict_length() {
    let p = card().to_payload();
    assert_eq!(AgentCardSummary::from_payload(&p[..127]).err(), Some(LayoutError::BadLen));
    let mut long = p.clone();
    long.extend_from_slice(&[0u8; 8]);
    assert_eq!(AgentCardSummary::from_payload(&long).err(), Some(LayoutError::BadLen));
}

#[test]
fn agentcard_reserved_ignored_on_receive() {
    let mut p = card().to_payload();
    p[3] = 0xFF;
    assert_eq!(AgentCardSummary::from_payload(&p).unwrap(), card());
}

#[test]
fn agentcard_message_domain_and_sensitivity() {
    let c = card();
    let base = agent_card_message(c.version, &c.card_hash, c.not_after, &c.agent_pubkey);
    assert!(base.starts_with(b"ipv8plus-agentcard"), "域分隔前缀");

    assert_ne!(agent_card_message(2, &c.card_hash, c.not_after, &c.agent_pubkey), base);
    assert_ne!(agent_card_message(c.version, &[0x00; 16], c.not_after, &c.agent_pubkey), base);
    assert_ne!(agent_card_message(c.version, &c.card_hash, c.not_after - 1, &c.agent_pubkey), base);
    assert_ne!(agent_card_message(c.version, &c.card_hash, c.not_after, &[0x99; 32]), base);
}

#[test]
fn semantictags_roundtrip_and_padding() {
    let tags = vec!["ocr", "image-gen", "v2-api"];
    let p = SemanticTags::encode(&tags).unwrap();
    assert!(p.len().is_multiple_of(8), "8B 对齐才能进 ExtensionHeader");
    assert_eq!(&p[..8], b"ocr\x1fimag", "US 单字节分隔");
    assert_eq!(SemanticTags::decode(&p).unwrap(), tags);

    let t8 = vec!["abcdefgh"];
    let p8 = SemanticTags::encode(&t8).unwrap();
    assert_eq!(p8.len(), 8);
    assert_eq!(SemanticTags::decode(&p8).unwrap(), t8);
}

#[test]
fn semantictags_reject_bad_chars_and_shape() {
    for bad in ["OCR", "-lead", "trail-", "", "has space", "标", &"x".repeat(49)] {
        assert_eq!(
            SemanticTags::encode(&[bad]).err(),
            Some(LayoutError::BadTag),
            "标签 {bad:?} 必须被拒"
        );
    }

    assert!(SemanticTags::encode(&["a1-b2"]).is_ok());
}

#[test]
fn semantictags_bounds() {
    let many: Vec<&str> = (0..33).map(|i| if i % 2 == 0 { "aa" } else { "bb" }).collect();

    assert_eq!(SemanticTags::encode(&many).err(), Some(LayoutError::TooManyTags));
    let empty: Vec<&str> = vec![];
    assert_eq!(SemanticTags::encode(&empty).err(), Some(LayoutError::EmptyTags));

    let big = "x".repeat(48);
    let manybig: Vec<&str> = (0..32).map(|_| big.as_str()).collect();
    assert_eq!(SemanticTags::encode(&manybig).err(), Some(LayoutError::TagsTooLong));
}

#[test]
fn semantictags_decode_rejects_garbage_keeps_packet_semantics() {
    let bad = [0xFFu8; 8];
    assert!(SemanticTags::decode(&bad).is_err());

    assert_eq!(SemanticTags::decode(&[]).err(), Some(LayoutError::EmptyTags));
}

#[test]
fn agentcard_and_semantictags_survive_wire_chain() {
    let c = card();
    let tags = SemanticTags::encode(&["ocr", "summarize"]).unwrap();
    let mut hdr = IPv8Header::new(addr(1), addr(2), 8);
    hdr.attach_ext_headers(vec![
        ExtensionHeader::new(ExtType::AgentCard, c.to_payload()).unwrap(),
        ExtensionHeader::new(ExtType::SemanticTag, tags).unwrap(),
    ]);
    let pkt = encode(&hdr, b"payload!").unwrap();
    let d = decode(&pkt).unwrap();
    assert_eq!(d.header, hdr);
    assert_eq!(AgentCardSummary::from_payload(&d.header.ext_headers[0].payload).unwrap(), c);
    assert_eq!(
        SemanticTags::decode(&d.header.ext_headers[1].payload).unwrap(),
        vec!["ocr".to_string(), "summarize".to_string()]
    );
}
