//! The plain interface.

use ipv8plus::ffi::{ipv8_decode, ipv8_encode};

#[test]
fn ffi_roundtrip() {
    let payload = b"hello ipv8+";
    let buf = ipv8_encode(1, 2, 3, 4, 5, 6, 7, 8, 9, 10, 0x10, 64, payload).unwrap();
    assert_eq!(buf.len(), 40 + payload.len());
    let d = ipv8_decode(&buf).unwrap();
    assert_eq!((d.src_asn, d.src_host, d.src_dev, d.src_cap, d.src_sec), (1, 2, 3, 4, 5));
    assert_eq!((d.dst_asn, d.dst_host, d.dst_dev, d.dst_cap, d.dst_sec), (6, 7, 8, 9, 10));
    assert_eq!(d.flags, 0x10);
    assert_eq!(d.payload_len as usize, payload.len());
    assert_eq!(d.hop_limit, 64);
}

#[test]
fn ffi_rejects_bad_input() {
    assert!(ipv8_decode(&[]).is_none());
    assert!(ipv8_decode(&[0u8; 40]).is_none());
}
