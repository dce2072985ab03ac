//! Packets without extensions, field by field, for callers over a C interface.

use vstd::prelude::*;
use crate::codec::decode;
use crate::codec::encode;
use crate::codec::formats;
use crate::codec::header;
use crate::codec::header::{IPv8Address, IPv8Header, BASE_HEADER_SIZE};

verus! {

/// The base fields of a packet.
#[derive(Debug, Clone, Copy, PartialEq, Eq, Structural)]
pub struct Ipv8Decoded {
    pub src_asn: u32,
    pub src_host: u32,
    pub src_dev: u16,
    pub src_cap: u16,
    pub src_sec: u8,
    pub dst_asn: u32,
    pub dst_host: u32,
    pub dst_dev: u16,
    pub dst_cap: u16,
    pub dst_sec: u8,
    pub flags: u16,
    pub payload_len: u16,
    pub hop_limit: u8,
    pub next_header: u8,
}

/// The base fields of a header.
pub open spec fn fields_of(h: header::HeaderView) -> Ipv8Decoded {
    Ipv8Decoded {
        src_asn: h.src.asn,
        src_host: h.src.host_id,
        src_dev: h.src.device_id,
        src_cap: h.src.cap_tag,
        src_sec: h.src.sec_level,
        dst_asn: h.dst.asn,
        dst_host: h.dst.host_id,
        dst_dev: h.dst.device_id,
        dst_cap: h.dst.cap_tag,
        dst_sec: h.dst.sec_level,
        flags: h.flags,
        payload_len: h.payload_len,
        hop_limit: h.hop_limit,
        next_header: h.next_header,
    }
}

/// A header of this version without extensions.
pub open spec fn plain_header(src: IPv8Address, dst: IPv8Address, flags: u16, hop_limit: u8, len: u16) -> header::HeaderView {
    header::HeaderView {
        version: header::VERSION,
        min_compat_ver: 0,
        flags,
        payload_len: len,
        hop_limit,
        next_header: 0,
        src,
        dst,
        exts: Seq::empty(),
    }
}

/// Writes a packet without extensions; `None` where it cannot be written.
pub fn ipv8_encode(
    src_asn: u32,
    src_host: u32,
    src_dev: u16,
    src_cap: u16,
    src_sec: u8,
    dst_asn: u32,
    dst_host: u32,
    dst_dev: u16,
    dst_cap: u16,
    dst_sec: u8,
    flags: u16,
    hop_limit: u8,
    payload: &[u8],
) -> (r: Option<Vec<u8>>)
    ensures
        ({
            let src = header::address(src_asn, src_host, src_dev, src_cap, src_sec);
            let dst = header::address(dst_asn, dst_host, dst_dev, dst_cap, dst_sec);
            let h = plain_header(src, dst, flags, hop_limit, payload@.len() as u16);
            let ok = payload@.len() <= 0xffff && encode::packet_error(h, payload@) is None;
            match r {
                Some(b) => ok && b@ == encode::header_wire(h) + payload@,
                None => !ok,
            }
        }),
{
    if payload.len() > 0xffff {
        return None;
    }
    let src = IPv8Address::new(src_asn, src_host, src_dev, src_cap, src_sec);
    let dst = IPv8Address::new(dst_asn, dst_host, dst_dev, dst_cap, dst_sec);
    let mut hdr = IPv8Header::new(src, dst, payload.len() as u16);
    hdr.flags = flags;
    hdr.hop_limit = hop_limit;
    match encode::encode(&hdr, payload) {
        Ok(b) => Some(b),
        Err(_) => None,
    }
}

/// Reads the base fields of a packet; `None` where the bytes are no packet.
pub fn ipv8_decode(buf: &[u8]) -> (r: Option<Ipv8Decoded>)
    ensures
        r == match decode::parse(buf@) {
            Ok(p) => Some(fields_of(p.header)),
            Err(_) => None,
        },
{
    match decode::decode(buf) {
        Ok(d) => Some(
            Ipv8Decoded {
                src_asn: d.header.src_addr.asn,
                src_host: d.header.src_addr.host_id,
                src_dev: d.header.src_addr.device_id,
                src_cap: d.header.src_addr.cap_tag,
                src_sec: d.header.src_addr.sec_level,
                dst_asn: d.header.dst_addr.asn,
                dst_host: d.header.dst_addr.host_id,
                dst_dev: d.header.dst_addr.device_id,
                dst_cap: d.header.dst_addr.cap_tag,
                dst_sec: d.header.dst_addr.sec_level,
                flags: d.header.flags,
                payload_len: d.header.payload_len,
                hop_limit: d.header.hop_limit,
                next_header: d.header.next_header,
            },
        ),
        Err(_) => None,
    }
}

/// The length of a header without extensions.
pub fn ipv8_base_header_size() -> (n: u32)
    ensures
        n == BASE_HEADER_SIZE,
{
    BASE_HEADER_SIZE as u32
}

/// The fields that a packet was written from are the fields that are read
/// back from it.
pub proof fn fields_round_trip(src: IPv8Address, dst: IPv8Address, flags: u16, hop_limit: u8, payload: Seq<u8>)
    requires
        payload.len() <= 0xffff,
        encode::packet_error(plain_header(src, dst, flags, hop_limit, payload.len() as u16), payload) is None,
    ensures
        ({
            let h = plain_header(src, dst, flags, hop_limit, payload.len() as u16);
            let d = decode::parse(encode::header_wire(h) + payload);
            d is Ok && fields_of(d->Ok_0.header) == fields_of(h)
        }),
{
    let h = plain_header(src, dst, flags, hop_limit, payload.len() as u16);
    crate::codec::laws::decode_of_encode(h, payload, Seq::empty());
    assert(encode::header_wire(h) + payload + Seq::<u8>::empty() =~= encode::header_wire(h) + payload);
}

/// The fields of a packet that was decoded are those of its bytes.
pub proof fn fields_of_bytes(b: Seq<u8>)
    requires
        decode::parse(b) is Ok,
    ensures
        ({
            let f = fields_of(decode::parse(b)->Ok_0.header);
            &&& f.flags == formats::two(b, 1)
            &&& f.payload_len == formats::two(b, 3)
            &&& f.hop_limit == b[5]
            &&& f.next_header == b[6]
            &&& f.src_asn == formats::four(b, 7)
            &&& f.src_host == formats::four(b, 11)
            &&& f.src_dev == formats::two(b, 15)
            &&& f.src_cap == formats::two(b, 17)
            &&& f.src_sec == b[19]
            &&& f.dst_asn == formats::four(b, 23)
            &&& f.dst_host == formats::four(b, 27)
            &&& f.dst_dev == formats::two(b, 31)
            &&& f.dst_cap == formats::two(b, 33)
            &&& f.dst_sec == b[35]
        }),
{
    formats::decoded_header(b);
}

/// The header that is made of fields has these fields, the eighth version, and no
/// extensions.
pub proof fn header_of_fields(src: IPv8Address, dst: IPv8Address, flags: u16, hop_limit: u8, len: u16)
    ensures
        ({
            let h = plain_header(src, dst, flags, hop_limit, len);
            &&& h.version == 8
            &&& h.min_compat_ver == 0
            &&& h.flags == flags
            &&& h.payload_len == len
            &&& h.hop_limit == hop_limit
            &&& h.next_header == 0
            &&& h.src == src
            &&& h.dst == dst
            &&& h.exts.len() == 0
        }),
{
}

} // verus!
