//! The fields of headers, each written and read on its own.

use ipv8plus::cert::{provision, CertAuthority, HostIdentity};
use ipv8plus::codec::compat::{min_inner_header_len, InnerProto};
use ipv8plus::codec::header::{ExtType, ExtensionHeader, IPv8Address, IPv8Header};
use ipv8plus::codec::version::{negotiate, Negotiation};
use ipv8plus::compat::checksum::{icmpv6_checksum, tcp_checksum_v4, tcp_checksum_v6, tcp_checksum_v6_with_proto};
use ipv8plus::compat::ip::{
    ipv4_dst, ipv4_src, ipv4_ttl, ipv6_dst, ipv6_hop_limit, ipv6_src, l4_offset, set_ipv4_dst, set_ipv4_src,
    set_ipv4_ttl, set_ipv6_dst, set_ipv6_hop_limit, set_ipv6_src,
};
use ipv8plus::firewall::{default_direction, default_enabled, Direction};

#[test]
fn v4_fields_are_written_alone() {
    let mut p = [0u8; 20];
    p[0] = 0x45;
    set_ipv4_ttl(&mut p, 63);
    set_ipv4_src(&mut p, [10, 0, 0, 1]);
    set_ipv4_dst(&mut p, [10, 0, 0, 2]);
    assert_eq!(p, [0x45, 0, 0, 0, 0, 0, 0, 0, 63, 0, 0, 0, 10, 0, 0, 1, 10, 0, 0, 2]);
    assert_eq!(ipv4_ttl(&p), 63);
    assert_eq!(ipv4_src(&p), Some([10, 0, 0, 1]));
    assert_eq!(ipv4_dst(&p), Some([10, 0, 0, 2]));
}

#[test]
fn short_v4_packet_is_left_alone() {
    let mut p = [7u8; 15];
    set_ipv4_src(&mut p, [1, 2, 3, 4]);
    set_ipv4_dst(&mut p, [1, 2, 3, 4]);
    assert_eq!(p, [7u8; 15]);
    let mut q = [7u8; 8];
    set_ipv4_ttl(&mut q, 1);
    assert_eq!(q, [7u8; 8]);
    assert_eq!(ipv4_src(&p), None);
}

#[test]
fn v6_fields_are_written_alone() {
    let mut p = [0u8; 40];
    p[0] = 0x60;
    set_ipv6_hop_limit(&mut p, 64);
    set_ipv6_src(&mut p, [1; 16]);
    set_ipv6_dst(&mut p, [2; 16]);
    assert_eq!(&p[..8], &[0x60, 0, 0, 0, 0, 0, 0, 64]);
    assert_eq!(&p[8..24], &[1; 16]);
    assert_eq!(&p[24..], &[2; 16]);
    assert_eq!(ipv6_hop_limit(&p), 64);
    assert_eq!(ipv6_src(&p), Some([1; 16]));
    assert_eq!(ipv6_dst(&p), Some([2; 16]));
    let mut short = [0u8; 39];
    set_ipv6_dst(&mut short, [2; 16]);
    assert_eq!(short, [0u8; 39]);
    assert_eq!(ipv6_dst(&short), None);
}

#[test]
fn extension_headers_are_skipped() {
    // Hop-by-hop options of 16 bytes, a fragment header, authentication of 16
    // bytes, then UDP.
    let mut p = vec![0u8; 40 + 16 + 8 + 16 + 8];
    p[0] = 0x60;
    p[6] = 0;
    p[40] = 44;
    p[41] = 1;
    p[56] = 51;
    p[64] = 17;
    p[65] = 2;
    assert_eq!(l4_offset(&p), (17, 80));
    assert_eq!(l4_offset(&p[..79]), (0, 0));
}

#[test]
fn control_message_is_summed() {
    // An echo request from ::1 to ::1 with identifier 0 and sequence 0.
    let mut p = [0u8; 48];
    p[0] = 0x60;
    p[23] = 1;
    p[39] = 1;
    p[40] = 128;
    p[42] = 0xAB;
    p[43] = 0xCD;
    // 1 + 1 + 8 + 58 + 0x8000 = 0x8044
    assert_eq!(icmpv6_checksum(&mut p), !0x8044u16);
    assert_eq!(&p[42..44], &[0, 0]);
    let mut short = [9u8; 43];
    assert_eq!(icmpv6_checksum(&mut short), 0);
    assert_eq!(short, [9u8; 43]);
}

#[test]
fn segment_is_summed_with_its_protocol() {
    let mut p = [0u8; 60];
    p[0] = 0x60;
    p[23] = 1;
    p[39] = 1;
    // 1 + 1 + 20 + 6 = 28; another protocol number changes the sum by as much.
    assert_eq!(tcp_checksum_v6(&p, 40), !28u16);
    assert_eq!(tcp_checksum_v6_with_proto(&p, 40, 6), !28u16);
    assert_eq!(tcp_checksum_v6_with_proto(&p, 40, 8), !30u16);
    assert_eq!(tcp_checksum_v6_with_proto(&p[..59], 40, 6), 0);
    // Too short for an IPv6 header, and an offset past every packet.
    assert_eq!(tcp_checksum_v6(&[0u8; 20], 0), 0);
    assert_eq!(tcp_checksum_v6(&[0u8; 39], 19), 0);
    assert_eq!(tcp_checksum_v6(&p, usize::MAX), 0);
    assert_eq!(tcp_checksum_v4(&p, usize::MAX), 0);
}

#[test]
fn extension_header_is_measured() {
    let e = ExtensionHeader::new(ExtType::RouteTrace, vec![0; 24]).unwrap();
    assert_eq!(e.ext_len(), 3);
    assert_eq!(e.wire_size(), 26);
    assert!(ExtensionHeader::new(ExtType::End, vec![0; 8]).is_none());
    assert!(ExtensionHeader::new(ExtType::RouteTrace, vec![]).is_none());
    assert!(ExtensionHeader::new(ExtType::RouteTrace, vec![0; 2040]).is_some());
    assert!(ExtensionHeader::new(ExtType::RouteTrace, vec![0; 2048]).is_none());
    assert_eq!(ExtType::from_u8(6), ExtType::Fragment);
    assert_eq!(ExtType::from_u8(7), ExtType::Unknown(7));
}

#[test]
fn shortest_headers() {
    assert_eq!(min_inner_header_len(InnerProto::IPv4), 20);
    assert_eq!(min_inner_header_len(InnerProto::IPv6), 40);
    assert_eq!(min_inner_header_len(InnerProto::Other), 0);
}

#[test]
fn version_is_negotiated_with_any() {
    let a = IPv8Address::new(1, 2, 3, 4, 5);
    let mut h = IPv8Header::new(a, a, 0);
    h.min_compat_ver = 3;
    assert_eq!(negotiate(&h, 3), Negotiation::Full);
    assert_eq!(negotiate(&h, 4), Negotiation::Degrade { their_min_compat: 3 });
    assert_eq!(negotiate(&h, 2), Negotiation::Incompatible { their_min_compat: 3, local: 2 });
}

#[test]
fn identity_keeps_a_foreign_certificate() {
    let a = IPv8Address::new(1, 2, 3, 4, 5);
    let cert = provision(&CertAuthority::from_seed([1; 32]), a, [2; 32], 77).cert;
    let h = HostIdentity::with_cert(a, [2; 32], cert);
    assert_eq!(h.addr, a);
    assert_eq!(h.ed_seed, [2; 32]);
    assert_eq!(h.cert.not_after, 77);
}

#[test]
fn rules_have_defaults() {
    assert!(default_enabled());
    assert!(matches!(default_direction(), Direction::Inbound));
}
