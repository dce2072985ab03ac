//! Which byte of a packet means what.

use vstd::prelude::*;
use crate::codec::compat;
use crate::codec::compat::InnerProto;
use crate::codec::decode;
use crate::codec::decode::DecodeError;
use crate::codec::encode;
use crate::codec::fragment;
use crate::codec::fragment::{FragmentError, FragmentInfo};
use crate::codec::header;
use crate::codec::header::{ExtType, IPv8Address};
use crate::codec::laws;
use crate::codec::layouts;
use crate::codec::layouts::{LayoutError, QosReservation};
use crate::codec::tags;
use crate::codec::version;
use crate::codec::version::Negotiation;
use crate::wire;

verus! {

/// The number that two bytes are, the high one first.
pub open spec fn two(s: Seq<u8>, i: int) -> int {
    s[i] * 256 + s[i + 1]
}

/// The number that four bytes are, the high one first.
pub open spec fn four(s: Seq<u8>, i: int) -> int {
    s[i] * 0x100_0000 + s[i + 1] * 0x1_0000 + s[i + 2] * 0x100 + s[i + 3]
}

/// The number that eight bytes are, the high one first.
pub open spec fn eight(s: Seq<u8>, i: int) -> int {
    four(s, i) * 0x1_0000_0000 + four(s, i + 4)
}

/// Numbers stand with the high byte first.
pub proof fn numbers_are_written(a: u16, b: u32, c: u64)
    ensures
        wire::be16(a).len() == 2 && two(wire::be16(a), 0) == a,
        wire::be32(b).len() == 4 && four(wire::be32(b), 0) == b,
        wire::be64(c).len() == 8 && eight(wire::be64(c), 0) == c,
{
    let h = (c / 0x1_0000_0000) as u32;
    let l = (c % 0x1_0000_0000) as u32;
    four_bytes(b);
    four_bytes(h);
    four_bytes(l);
    assert(wire::be64(c) =~= wire::be32(h) + wire::be32(l));
    assert(four(wire::be64(c), 0) == four(wire::be32(h), 0));
    assert(four(wire::be64(c), 4) == four(wire::be32(l), 0));
}

/// Four bytes of a number.
proof fn four_bytes(b: u32)
    ensures
        wire::be32(b).len() == 4 && four(wire::be32(b), 0) == b,
{
    let w = wire::be32(b);
    assert(w[0] == (b / 0x1_0000) / 0x100 && w[1] == (b / 0x1_0000) % 0x100);
    assert(w[2] == (b % 0x1_0000) / 0x100 && w[3] == (b % 0x1_0000) % 0x100);
}

/// Numbers are read as they are written.
pub proof fn numbers_are_read(s: Seq<u8>, i: int)
    ensures
        wire::be16_at(s, i) == two(s, i),
        wire::be32_at(s, i) == four(s, i),
        wire::be64_at(s, i) == eight(s, i),
        wire::le16_at(s, i) == s[i] + s[i + 1] * 256,
        wire::le32_at(s, i) == s[i] + s[i + 1] * 0x100 + s[i + 2] * 0x1_0000 + s[i + 3] * 0x100_0000,
{
}

/// An address on the wire: the network, the host, the device, the capability tag,
/// the security level, and three bytes of zero.
pub proof fn address_format(a: IPv8Address)
    ensures
        a.wire().len() == 16,
        four(a.wire(), 0) == a.asn,
        four(a.wire(), 4) == a.host_id,
        two(a.wire(), 8) == a.device_id,
        two(a.wire(), 10) == a.cap_tag,
        a.wire()[12] == a.sec_level,
        a.wire()[13] == 0 && a.wire()[14] == 0 && a.wire()[15] == 0,
        a.wf() ==> a.bytes() == a.wire(),
{
    four_bytes(a.asn);
    four_bytes(a.host_id);
    let w = a.wire();
    assert(four(w, 0) == four(wire::be32(a.asn), 0));
    assert(four(w, 4) == four(wire::be32(a.host_id), 0));
}

/// An address that was read has the parts that its bytes say.
pub proof fn address_is_read(b: Seq<u8>)
    ensures
        header::address_of_wire(b).asn == four(b, 0),
        header::address_of_wire(b).host_id == four(b, 4),
        header::address_of_wire(b).device_id == two(b, 8),
        header::address_of_wire(b).cap_tag == two(b, 10),
        header::address_of_wire(b).sec_level == b[12],
{
}

/// The base header on the wire: version and least version, flags, length of the
/// payload, hops left, type of the first extension, source, destination, a byte of
/// zero.
pub proof fn header_format(h: header::HeaderView)
    requires
        h.min_compat_ver <= 15,
    ensures
        encode::header_wire(h).len() >= 40,
        encode::header_wire(h)[0] == 0x80 + h.min_compat_ver,
        two(encode::header_wire(h), 1) == h.flags,
        two(encode::header_wire(h), 3) == h.payload_len,
        encode::header_wire(h)[5] == h.hop_limit,
        encode::header_wire(h)[6] == h.next_header,
        encode::header_wire(h).subrange(7, 23) == h.src.wire(),
        encode::header_wire(h).subrange(23, 39) == h.dst.wire(),
        encode::header_wire(h)[39] == 0,
        h.exts.len() == 0 ==> encode::header_wire(h).len() == 40,
{
    address_format(h.src);
    address_format(h.dst);
    let w = encode::header_wire(h);
    assert(w.subrange(7, 23) =~= h.src.wire());
    assert(w.subrange(23, 39) =~= h.dst.wire());
}

/// An extension header on the wire: the type of the next one, a count of 8-byte
/// units, and as many bytes.
pub proof fn extension_format(exts: Seq<header::ExtView>, i: int)
    requires
        0 <= i < exts.len(),
        exts[i].payload.len() <= 2040,
    ensures
        ({
            let w = encode::ext_wire(exts, i);
            &&& w.len() == 2 + exts[i].payload.len()
            &&& i + 1 < exts.len() ==> w[0] == exts[i + 1].ext_type.number()
            &&& i + 1 == exts.len() ==> w[0] == 0
            &&& w[1] == exts[i].payload.len() / 8
            &&& w.subrange(2, w.len() as int) == exts[i].payload
        }),
{
    let w = encode::ext_wire(exts, i);
    assert(w.subrange(2, w.len() as int) =~= exts[i].payload);
}

/// The types of extension headers.
pub proof fn extension_types(v: u8)
    ensures
        ExtType::End.number() == 0,
        ExtType::IdentityToken.number() == 1,
        ExtType::SemanticTag.number() == 2,
        ExtType::QoSReservation.number() == 3,
        ExtType::AgentCard.number() == 4,
        ExtType::RouteTrace.number() == 5,
        ExtType::Fragment.number() == 6,
        ExtType::Unknown(v).number() == v,
        ExtType::of_number(v).number() == v,
        v > 6 ==> ExtType::of_number(v) == ExtType::Unknown(v),
        v <= 6 ==> ExtType::of_number(v) !is Unknown,
{
}

/// What a receiver reads in the base header.
pub proof fn decoded_header(b: Seq<u8>)
    requires
        decode::parse(b) is Ok,
    ensures
        ({
            let p = decode::parse(b)->Ok_0;
            let h = p.header;
            &&& b.len() >= 40
            &&& b[0] / 16 == 8
            &&& h.version == 8
            &&& h.min_compat_ver == b[0] % 16
            &&& h.flags == two(b, 1)
            &&& h.payload_len == two(b, 3)
            &&& h.hop_limit == b[5]
            &&& h.next_header == b[6]
            &&& h.src.asn == four(b, 7) && h.src.host_id == four(b, 11) && h.src.device_id == two(b, 15)
            &&& h.src.cap_tag == two(b, 17) && h.src.sec_level == b[19]
            &&& h.dst.asn == four(b, 23) && h.dst.host_id == four(b, 27) && h.dst.device_id == two(b, 31)
            &&& h.dst.cap_tag == two(b, 33) && h.dst.sec_level == b[35]
            &&& p.payload.len() == two(b, 3) <= 65467
            &&& b[6] == 0 ==> h.exts.len() == 0 && p.payload == b.subrange(40, 40 + two(b, 3))
        }),
{
    let s = b.subrange(7, 23);
    let d = b.subrange(23, 39);
    assert(forall|k: int| 0 <= k < 16 ==> s[k] == b[7 + k] && d[k] == b[23 + k]);
    address_is_read(s);
    address_is_read(d);
    assert(four(s, 0) == four(b, 7) && four(s, 4) == four(b, 11) && two(s, 8) == two(b, 15) && two(s, 10) == two(b, 17));
    assert(four(d, 0) == four(b, 23) && four(d, 4) == four(b, 27) && two(d, 8) == two(b, 31) && two(d, 10) == two(b, 33));
    laws::decoded_is_sound(b);
}

/// What a receiver reads in the first extension header.
pub proof fn decoded_extension(b: Seq<u8>)
    requires
        decode::parse(b) is Ok,
        b[6] != 0,
    ensures
        ({
            let p = decode::parse(b)->Ok_0;
            let h = p.header;
            &&& h.exts.len() > 0
            &&& h.exts[0].ext_type.number() == b[6]
            &&& b[41] > 0
            &&& 42 + b[41] * 8 <= b.len()
            &&& h.exts[0].payload == b.subrange(42, 42 + b[41] * 8)
            &&& b[40] == 0 ==> h.exts.len() == 1 && p.payload == b.subrange(
                42 + b[41] * 8,
                42 + b[41] * 8 + two(b, 3),
            )
            &&& b[40] != 0 ==> h.exts.len() > 1 && h.exts[1].ext_type.number() == b[40]
        }),
{
    let e = decode::parse_chain(b, 40, b[6], Seq::empty());
    assert(e is Ok);
    let end = 40 + 2 + b[41] * 8;
    let ext = header::ExtView { ext_type: ExtType::of_number(b[6]), payload: b.subrange(42, end) };
    if b[40] != 0 {
        let rest = decode::parse_chain(b, end, b[40], Seq::<u8>::empty().push(b[6]));
        assert(e == decode::prepend(seq![ext], rest));
        let (more, _) = rest->Ok_0;
        second_extension(b, end, b[40], Seq::<u8>::empty().push(b[6]));
        assert((seq![ext] + more)[0] == ext);
        assert((seq![ext] + more)[1] == more[0]);
    }
}

/// A chain that was read begins with an extension of the type that was announced.
proof fn second_extension(b: Seq<u8>, at: int, ty: u8, seen: Seq<u8>)
    requires
        decode::parse_chain(b, at, ty, seen) is Ok,
    ensures
        decode::parse_chain(b, at, ty, seen)->Ok_0.0.len() > 0,
        decode::parse_chain(b, at, ty, seen)->Ok_0.0[0].ext_type.number() == ty,
{
    let end = at + 2 + b[at + 1] * 8;
    let ext = header::ExtView { ext_type: ExtType::of_number(ty), payload: b.subrange(at + 2, end) };
    if b[at] != 0 {
        let rest = decode::parse_chain(b, end, b[at], seen.push(ty));
        let (more, _) = rest->Ok_0;
        assert((seq![ext] + more)[0] == ext);
    }
}

/// What a receiver refuses in the base header, and how.
pub proof fn refused_header(b: Seq<u8>)
    requires
        b.len() <= usize::MAX,
    ensures
        b.len() < 40 ==> decode::parse(b) == Err::<decode::Packet, DecodeError>(DecodeError::TooShort(b.len() as usize)),
        b.len() >= 40 && b[0] / 16 != 8 ==> decode::parse(b) == Err::<decode::Packet, DecodeError>(
            DecodeError::BadVersion(b[0] / 16),
        ),
        b.len() >= 40 && b[0] / 16 == 8 && two(b, 3) > 65467 ==> decode::parse(b) == Err::<decode::Packet, DecodeError>(
            DecodeError::PayloadTooLong(two(b, 3) as u16),
        ),
        b.len() >= 40 && b[0] / 16 == 8 && two(b, 3) <= 65467 && b[6] == 0 && b[2] / 64 % 2 == 0 ==> decode::parse(b) is Ok
            == (40 + two(b, 3) <= b.len()),
        b.len() >= 40 && b[0] / 16 == 8 && two(b, 3) <= 65467 && b[6] == 0 && b[2] / 64 % 2 == 1 ==> decode::parse(b)
            == Err::<decode::Packet, DecodeError>(DecodeError::FlagMismatch),
        b.len() >= 40 && b[0] / 16 == 8 && two(b, 3) <= 65467 && b[6] != 0 && b.len() < 42 ==> decode::parse(b)
            == Err::<decode::Packet, DecodeError>(DecodeError::ExtHeaderTruncated),
        b.len() >= 42 && b[0] / 16 == 8 && two(b, 3) <= 65467 && b[6] != 0 && b[41] == 0 ==> decode::parse(b)
            == Err::<decode::Packet, DecodeError>(DecodeError::ExtLenZero),
{
    if b.len() >= 40 {
        let f = wire::be16_at(b, 1);
        let lo = b[2];
        let hi = b[1];
        assert((f & 0x40 != 0) == (lo / 64 % 2 == 1)) by (bit_vector)
            requires
                f == hi * 256 + lo,
        ;
        assert(!Seq::<u8>::empty().contains(b[6]));
    }
}

/// What can be encoded: the eighth version, a least version of four bits, no
/// reserved flag, no more than 65467 bytes of payload, 64 extensions and 65507
/// bytes in all, with the first type and the flag that the chain asks for.
pub proof fn encodable(h: header::HeaderView, payload: Seq<u8>)
    ensures
        encode::packet_error(h, payload) is None <==> {
            &&& h.version == 8
            &&& h.min_compat_ver <= 15
            &&& h.flags & 0xFF80 == 0
            &&& payload.len() == h.payload_len
            &&& h.payload_len <= 65467
            &&& h.exts.len() <= 64
            &&& encode::header_wire(h).len() + payload.len() <= 65507
            &&& h.exts.len() == 0 ==> h.next_header == 0 && h.flags & 0x40 == 0
            &&& h.exts.len() > 0 ==> h.next_header == h.exts[0].ext_type.number() && h.flags & 0x40 != 0
            &&& h.src.wf()
            &&& h.dst.wf()
        },
{
    encode::header_wire_len(h);
}

/// Hanging a chain on a header sets the type of the first extension and the flag,
/// and nothing else.
pub proof fn attached_chain(h: header::HeaderView, exts: Seq<header::ExtView>)
    ensures
        ({
            let g = h.with_exts(exts);
            &&& g.exts == exts
            &&& exts.len() == 0 ==> g.next_header == 0 && g.flags & 0x40 == 0
            &&& exts.len() > 0 ==> g.next_header == exts[0].ext_type.number() && g.flags & 0x40 != 0
            &&& g.flags & 0xFFBF == h.flags & 0xFFBF
            &&& g.version == h.version && g.min_compat_ver == h.min_compat_ver
            &&& g.payload_len == h.payload_len && g.hop_limit == h.hop_limit
            &&& g.src == h.src && g.dst == h.dst
        }),
{
    let f = h.flags;
    assert((f | 0x40) & 0x40 != 0 && (f & !0x40u16) & 0x40 == 0) by (bit_vector);
    assert((f | 0x40) & 0xFFBF == f & 0xFFBF && (f & !0x40u16) & 0xFFBF == f & 0xFFBF) by (bit_vector);
}

/// A resource reservation: the rate in three bytes, the burst in two, the queue in
/// one, and two of zero.
pub proof fn reservation_format(q: QosReservation)
    requires
        q.rate_kibs < 0x100_0000,
    ensures
        ({
            let w = layouts::qos_wire(q);
            &&& w.len() == 8
            &&& w[0] * 0x1_0000 + w[1] * 0x100 + w[2] == q.rate_kibs
            &&& two(w, 3) == q.burst_size
            &&& w[5] == q.queue_hint
            &&& w[6] == 0 && w[7] == 0
        }),
{
    four_bytes(q.rate_kibs);
    let w = layouts::qos_wire(q);
    let r = wire::be32(q.rate_kibs);
    assert(w[0] == r[1] && w[1] == r[2] && w[2] == r[3]);
    assert(r[0] == 0);
}

/// A route trace: the key of the source, the signature, the number of hops, the
/// hops left at the start, six bytes of zero, and the hops.
pub proof fn trace_format(t: layouts::RouteTraceView, i: int)
    requires
        t.src_pubkey.len() == 32,
        t.path_sig.len() == 64,
        0 <= i < t.hops.len() <= 64,
    ensures
        ({
            let w = layouts::trace_wire(t);
            &&& w.len() == 104 + 16 * t.hops.len()
            &&& w.subrange(0, 32) == t.src_pubkey
            &&& w.subrange(32, 96) == t.path_sig
            &&& w[96] == t.hops.len()
            &&& w[97] == t.init_hop_limit
            &&& forall|k: int| 98 <= k < 104 ==> w[k] == 0
            &&& w.subrange(104 + 16 * i, 104 + 16 * i + 16) == t.hops[i].bytes()
        }),
{
    let w = layouts::trace_wire(t);
    layouts::hop_at(t.hops, i);
    assert(w.subrange(0, 32) =~= t.src_pubkey);
    assert(w.subrange(32, 96) =~= t.path_sig);
    assert(w.subrange(104 + 16 * i, 104 + 16 * i + 16) =~= layouts::hops_wire(t.hops).subrange(16 * i, 16 * i + 16));
}

/// What the source of a route trace signs.
pub proof fn trace_signature_format(t: layouts::TraceSigView)
    requires
        t.src_pubkey.len() == 32,
        t.hops.len() <= 64,
    ensures
        ({
            let m = layouts::trace_message(t);
            &&& m.len() == 91 + 16 * t.hops.len()
            &&& m.subrange(19, 51) == t.src_pubkey
            &&& m[51] == 0x80 + t.min_compat_ver % 16
            &&& two(m, 52) == t.flags
            &&& two(m, 54) == t.payload_len
            &&& m[56] == t.init_hop_limit
            &&& m[57] == 5
            &&& m.subrange(58, 74) == t.src.bytes()
            &&& m.subrange(74, 90) == t.dst.bytes()
            &&& m[90] == t.hops.len()
            &&& m.subrange(91, m.len() as int) == layouts::hops_wire(t.hops)
            &&& vstd::utf8::encode_utf8("ipv8plus-routetrace"@) == m.subrange(0, 19)
        }),
{
    header::address_wire_len(t.src);
    header::address_wire_len(t.dst);
    let m = layouts::trace_message(t);
    assert(m.subrange(19, 51) =~= t.src_pubkey);
    assert(m.subrange(58, 74) =~= t.src.bytes());
    assert(m.subrange(74, 90) =~= t.dst.bytes());
    assert(m.subrange(91, m.len() as int) =~= layouts::hops_wire(t.hops));
    reveal_strlit("ipv8plus-routetrace");
    vstd::utf8::is_ascii_chars_encode_utf8("ipv8plus-routetrace"@);
    assert(vstd::utf8::encode_utf8("ipv8plus-routetrace"@) =~= m.subrange(0, 19));
}

/// A card digest: the version, seven bytes of zero, the hash, the time at which it
/// expires, the key, the signature.
pub proof fn card_format(c: layouts::CardSummaryView)
    requires
        c.card_hash.len() == 16,
        c.agent_pubkey.len() == 32,
        c.card_sig.len() == 64,
    ensures
        ({
            let w = layouts::card_wire(c);
            &&& w.len() == 128
            &&& w[0] == c.version
            &&& forall|k: int| 1 <= k < 8 ==> w[k] == 0
            &&& w.subrange(8, 24) == c.card_hash
            &&& eight(w, 24) == c.not_after
            &&& w.subrange(32, 64) == c.agent_pubkey
            &&& w.subrange(64, 128) == c.card_sig
        }),
{
    let w = layouts::card_wire(c);
    numbers_are_written(0, 0, c.not_after);
    assert(w.subrange(8, 24) =~= c.card_hash);
    assert(w.subrange(32, 64) =~= c.agent_pubkey);
    assert(w.subrange(64, 128) =~= c.card_sig);
    assert(forall|k: int| 0 <= k < 8 ==> w[24 + k] == wire::be64(c.not_after)[k]);
}

/// What an agent signs of its card.
pub proof fn card_signature_format(version: u8, hash: Seq<u8>, not_after: u64, key: Seq<u8>)
    requires
        hash.len() == 16,
        key.len() == 32,
    ensures
        ({
            let m = layouts::card_message(version, hash, not_after, key);
            &&& m.len() == 75
            &&& vstd::utf8::encode_utf8("ipv8plus-agentcard"@) == m.subrange(0, 18)
            &&& m[18] == version
            &&& m.subrange(19, 35) == hash
            &&& eight(m, 35) == not_after
            &&& m.subrange(43, 75) == key
        }),
{
    let m = layouts::card_message(version, hash, not_after, key);
    numbers_are_written(0, 0, not_after);
    assert(m.subrange(19, 35) =~= hash);
    assert(m.subrange(43, 75) =~= key);
    assert(forall|k: int| 0 <= k < 8 ==> m[35 + k] == wire::be64(not_after)[k]);
    reveal_strlit("ipv8plus-agentcard");
    vstd::utf8::is_ascii_chars_encode_utf8("ipv8plus-agentcard"@);
    assert(vstd::utf8::encode_utf8("ipv8plus-agentcard"@) =~= m.subrange(0, 18));
}

/// Which tags can be written: one to 32 of them, each of one to 48 small letters,
/// digits and hyphens with no hyphen at its ends, 1536 bytes in all with the
/// separators.
pub proof fn writable_tags(t: Seq<Seq<char>>)
    ensures
        tags::tags_wire(t) is Ok <==> {
            &&& 1 <= t.len() <= 32
            &&& forall|i: int|
                0 <= i < t.len() ==> 1 <= (#[trigger] t[i]).len() <= 48 && t[i][0] != '-' && t[i][t[i].len() - 1] != '-'
                    && forall|k: int|
                    0 <= k < t[i].len() ==> 'a' <= (#[trigger] t[i][k]) <= 'z' || '0' <= t[i][k] <= '9' || t[i][k] == '-'
            &&& tags::joined(t, t.len()).len() <= 1536
        },
        tags::tags_wire(t) matches Ok(w) ==> {
            &&& w.len() % 8 == 0
            &&& tags::joined(t, t.len()).len() <= w.len() < tags::joined(t, t.len()).len() + 8
        },
{
    if 1 <= t.len() <= 32 {
        if tags::all_tags(t) {
            assert forall|i: int| 0 <= i < t.len() implies 1 <= (#[trigger] t[i]).len() <= 48 && t[i][0] != '-' && t[i][t[i].len()
                - 1] != '-' && forall|k: int|
                0 <= k < t[i].len() ==> 'a' <= (#[trigger] t[i][k]) <= 'z' || '0' <= t[i][k] <= '9' || t[i][k] == '-' by {
                assert(tags::is_tag(t[i]));
                assert forall|k: int| 0 <= k < t[i].len() implies 'a' <= (#[trigger] t[i][k]) <= 'z' || '0' <= t[i][k] <= '9'
                    || t[i][k] == '-' by {
                    assert(tags::tag_char(t[i][k]));
                }
            }
        }
    }
}

/// Tags stand one after another with the byte 0x1F between them.
pub proof fn tags_format(t: Seq<Seq<char>>, n: nat)
    requires
        n + 1 < t.len(),
    ensures
        ({
            let w = tags::joined(t, n + 2);
            let v = tags::joined(t, n + 1);
            &&& w.len() == v.len() + 1 + t[n as int + 1].len()
            &&& w.subrange(0, v.len() as int) == v
            &&& w[v.len() as int] == 0x1F
            &&& forall|k: int| 0 <= k < t[n as int + 1].len() ==> w[v.len() + 1 + k] == (#[trigger] t[n as int + 1][k]) as u8
        }),
        tags::joined(t, 1).len() == t[0].len(),
        forall|k: int| 0 <= k < t[0].len() ==> tags::joined(t, 1)[k] == (#[trigger] t[0][k]) as u8,
{
    let w = tags::joined(t, n + 2);
    let v = tags::joined(t, n + 1);
    assert(w == v + seq![0x1Fu8] + tags::ascii(t[n as int + 1]));
    assert(w.subrange(0, v.len() as int) =~= v);
    assert forall|k: int| 0 <= k < t[n as int + 1].len() implies w[v.len() + 1 + k] == (#[trigger] t[n as int + 1][k]) as u8 by {
        assert(w[v.len() + 1 + k] == tags::ascii(t[n as int + 1])[k]);
    }
}

/// A fragment mark: the identification, the offset in units of 8 bytes with the
/// bit for more, and two bytes of zero.
#[verifier::spinoff_prover]
#[verifier::rlimit(60)]
pub proof fn fragment_format(f: FragmentInfo)
    requires
        f.offset < 0x2000,
    ensures
        ({
            let e = fragment::fragment_ext(f);
            &&& e.ext_type.number() == 6
            &&& e.payload.len() == 8
            &&& four(e.payload, 0) == f.id
            &&& two(e.payload, 4) / 8 == f.offset
            &&& (two(e.payload, 4) / 4 % 2 == 1) == f.more
            &&& two(e.payload, 4) % 4 == 0
            &&& e.payload[6] == 0 && e.payload[7] == 0
        }),
{
    let p = fragment::fragment_ext(f).payload;
    four_bytes(f.id);
    assert(four(p, 0) == four(wire::be32(f.id), 0));
    let o = fragment::offset_word(f.offset, f.more);
    offset_word_reads(f.offset, f.more);
    assert(two(p, 4) == o) by {
        assert(p[4] == wire::be16(o)[0] && p[5] == wire::be16(o)[1]);
    }
}

/// The number that holds an offset and the bit for more.
proof fn offset_word_reads(offset: u16, more: bool)
    requires
        offset < 0x2000,
    ensures
        fragment::offset_word(offset, more) / 8 == offset,
        (fragment::offset_word(offset, more) / 4 % 2 == 1) == more,
        fragment::offset_word(offset, more) % 4 == 0,
{
}

/// A fragment mark that was read says what its bytes say.
#[verifier::spinoff_prover]
#[verifier::rlimit(60)]
pub proof fn fragment_is_read(e: header::ExtView)
    ensures
        fragment::fragment_of(e) is Some == (e.ext_type == ExtType::Fragment && e.payload.len() == 8),
        fragment::fragment_of(e) matches Some(f) ==> {
            &&& f.id == four(e.payload, 0)
            &&& f.offset == two(e.payload, 4) / 8
            &&& f.more == (two(e.payload, 4) / 4 % 2 == 1)
        },
{
}

/// Which packets are cut: those that are too long, hold something, and leave room
/// for 8 bytes beside the headers; a packet that is a fragment is not.
pub proof fn what_is_cut(b: Seq<u8>, max_len: usize, id: u32)
    ensures
        decode::parse(b) matches Err(e) ==> fragment::fragments(b, max_len, id) == Err::<Seq<Seq<u8>>, FragmentError>(
            FragmentError::NotAValidPacket(e),
        ),
        decode::parse(b) matches Ok(p) ==> {
            let r = fragment::fragments(b, max_len, id);
            let whole = encode::header_wire(p.header).len();
            &&& (exists|i: int| 0 <= i < p.header.exts.len() && (#[trigger] p.header.exts[i]).ext_type == ExtType::Fragment)
                ==> r == Err::<Seq<Seq<u8>>, FragmentError>(FragmentError::AlreadyFragmented)
            &&& r == Err::<Seq<Seq<u8>>, FragmentError>(FragmentError::AlreadyFragmented) ==> exists|i: int|
                0 <= i < p.header.exts.len() && (#[trigger] p.header.exts[i]).ext_type == ExtType::Fragment
            &&& r == Err::<Seq<Seq<u8>>, FragmentError>(FragmentError::MtuTooSmall(max_len)) ==> max_len < whole + 10 + 8
                && max_len < b.len()
            &&& max_len < whole + 10 + 8 && max_len < b.len() ==> r is Err
        },
{
    if let Ok(p) = decode::parse(b) {
        encode::header_wire_len(p.header);
    }
}

/// How two versions get along.
pub proof fn versions_get_along(theirs: u8, local: u8)
    ensures
        theirs == local ==> version::negotiation(theirs, local) == Negotiation::Full,
        theirs < local ==> version::negotiation(theirs, local) == (Negotiation::Degrade { their_min_compat: theirs }),
        theirs > local ==> version::negotiation(theirs, local) == (Negotiation::Incompatible {
            their_min_compat: theirs,
            local,
        }),
        version::LOCAL_VERSION == 8,
{
}

/// A payload is of IPv4 or IPv6 by the high half of its first byte.
pub proof fn inner_protocols(b: u8)
    ensures
        0x40 <= b <= 0x4F <==> compat::proto_of(b) == InnerProto::IPv4,
        0x60 <= b <= 0x6F <==> compat::proto_of(b) == InnerProto::IPv6,
{
}

/// Which route traces are read.
pub proof fn traces_are_read(p: Seq<u8>)
    ensures
        layouts::trace_of_wire(p) is Ok <==> p.len() >= 104 && 1 <= p[96] <= 64 && p.len() == 104 + 16 * p[96],
        layouts::trace_of_wire(p) matches Ok(t) ==> {
            &&& t.src_pubkey == p.subrange(0, 32)
            &&& t.path_sig == p.subrange(32, 96)
            &&& t.init_hop_limit == p[97]
            &&& t.hops.len() == p[96]
        },
        layouts::trace_of_wire(p) matches Err(e) ==> e == LayoutError::BadLen || e == LayoutError::EmptyHops || e
            == LayoutError::TooManyHops,
{
}

/// A resource reservation that was read says what its bytes say.
pub proof fn reservation_is_read(p: Seq<u8>)
    ensures
        layouts::qos_of_wire(p).rate_kibs == p[0] * 0x1_0000 + p[1] * 0x100 + p[2],
        layouts::qos_of_wire(p).burst_size == two(p, 3),
        layouts::qos_of_wire(p).queue_hint == p[5],
{
}

/// A card digest that was read says what its bytes say.
pub proof fn card_is_read(p: Seq<u8>)
    ensures
        layouts::card_of_wire(p).version == p[0],
        layouts::card_of_wire(p).card_hash == p.subrange(8, 24),
        layouts::card_of_wire(p).not_after == eight(p, 24),
        layouts::card_of_wire(p).agent_pubkey == p.subrange(32, 64),
        layouts::card_of_wire(p).card_sig == p.subrange(64, 128),
{
    numbers_are_read(p, 24);
}

/// Which tags are read: from 1 to 1536 bytes, no more than 32 of them, each as it
/// could be written.
pub proof fn tags_are_read(p: Seq<u8>)
    requires
        tags::tags_of_wire(p) is Ok,
    ensures
        1 <= p.len() <= 1536,
        ({
            let t = tags::tags_of_wire(p)->Ok_0;
            &&& t.len() <= 32
            &&& forall|i: int|
                0 <= i < t.len() ==> 1 <= (#[trigger] t[i]).len() <= 48 && t[i][0] != '-' && t[i][t[i].len() - 1] != '-'
                    && forall|k: int|
                    0 <= k < t[i].len() ==> 'a' <= (#[trigger] t[i][k]) <= 'z' || '0' <= t[i][k] <= '9' || t[i][k] == '-'
        }),
{
    let t = tags::tags_of_wire(p)->Ok_0;
    assert forall|i: int| 0 <= i < t.len() implies 1 <= (#[trigger] t[i]).len() <= 48 && t[i][0] != '-' && t[i][t[i].len() - 1]
        != '-' && forall|k: int|
        0 <= k < t[i].len() ==> 'a' <= (#[trigger] t[i][k]) <= 'z' || '0' <= t[i][k] <= '9' || t[i][k] == '-' by {
        assert(tags::is_tag(t[i]));
        assert forall|k: int| 0 <= k < t[i].len() implies 'a' <= (#[trigger] t[i][k]) <= 'z' || '0' <= t[i][k] <= '9'
            || t[i][k] == '-' by {
            assert(tags::tag_char(t[i][k]));
        }
    }
}

/// Which extension headers can be: those of a type, with from 8 to 2040 bytes in
/// units of 8.
pub proof fn extensions_that_can_be(e: header::ExtView)
    ensures
        e.valid() <==> e.ext_type != ExtType::End && e.payload.len() % 8 == 0 && 8 <= e.payload.len() <= 2040,
        e.size() == 2 + e.payload.len(),
{
}

/// Which texts are addresses: 32 hexadecimal digits, of which the last six are
/// zero.
pub proof fn texts_that_are_addresses(t: Seq<char>)
    ensures
        t.len() != 32 ==> header::address_of_text(t) == Err::<IPv8Address, header::AddrParseError>(
            header::AddrParseError::Format,
        ),
        header::address_of_text(t) matches Ok(a) ==> {
            let b = crate::text::hex_bytes(t);
            &&& t.len() == 32 && crate::text::all_hex(t)
            &&& b[13] == 0 && b[14] == 0 && b[15] == 0
            &&& a.asn == four(b, 0) && a.host_id == four(b, 4) && a.device_id == two(b, 8) && a.cap_tag == two(b, 10)
            &&& a.sec_level == b[12]
        },
        t.len() == 32 && crate::text::all_hex(t) && header::address_of_text(t) is Err ==> {
            let b = crate::text::hex_bytes(t);
            b[13] != 0 || b[14] != 0 || b[15] != 0
        },
{
    if t.len() == 32 {
        let b = crate::text::hex_bytes(t);
        let z = b.subrange(13, 16);
        assert(z[0] == b[13] && z[1] == b[14] && z[2] == b[15]);
        if b[13] == 0 && b[14] == 0 && b[15] == 0 {
            assert(z =~= wire::zeros(3));
        }
        address_is_read(b);
    }
}

/// What is kept of a header is what it holds.
pub proof fn header_holds(h: header::IPv8Header, e: header::ExtensionHeader)
    ensures
        h@.version == h.version && h@.min_compat_ver == h.min_compat_ver,
        h@.flags == h.flags && h@.payload_len == h.payload_len,
        h@.hop_limit == h.hop_limit && h@.next_header == h.next_header,
        h@.src == h.src_addr && h@.dst == h.dst_addr,
        h@.exts.len() == h.ext_headers@.len(),
        forall|i: int| 0 <= i < h.ext_headers@.len() ==> #[trigger] h@.exts[i] == h.ext_headers@[i]@,
        e@.ext_type == e.ext_type && e@.payload == e.payload@,
{
}

/// How a header is refused that cannot be encoded: the first of its faults is
/// told.
pub proof fn refused_encoding(h: header::HeaderView)
    requires
        h.exts.len() <= usize::MAX,
    ensures
        ({
            let e = encode::encode_error(h);
            &&& h.version != 8 ==> e == Some(encode::EncodeError::BadVersion(h.version))
            &&& h.version == 8 && h.min_compat_ver > 15 ==> e == Some(encode::EncodeError::FieldOverflow("min_compat_ver"))
            &&& h.version == 8 && h.min_compat_ver <= 15 ==> {
                &&& h.flags & 0xFF80 != 0 ==> e == Some(encode::EncodeError::ReservedBits)
                &&& h.flags & 0xFF80 == 0 && h.payload_len > 65467 ==> e == Some(
                    encode::EncodeError::PayloadTooLong(h.payload_len),
                )
                &&& h.flags & 0xFF80 == 0 && h.payload_len <= 65467 && h.exts.len() > 64 ==> e == Some(
                    encode::EncodeError::TooManyExtHeaders(h.exts.len() as usize),
                )
                &&& h.flags & 0xFF80 == 0 && h.payload_len <= 65467 && h.exts.len() <= 64 && encode::header_wire(h).len()
                    + h.payload_len > 65507 ==> e == Some(encode::EncodeError::PacketTooLong)
            }
        }),
        ({
            let e = encode::encode_error(h);
            h.version == 8 && h.min_compat_ver <= 15 && h.flags & 0xFF80 == 0 && h.payload_len <= 65467 && h.exts.len() <= 64
                && encode::header_wire(h).len() + h.payload_len <= 65507 ==> {
                &&& h.exts.len() == 0 && h.next_header != 0 ==> e == Some(
                    encode::EncodeError::NextHeaderMismatch { expect: 0, got: h.next_header },
                )
                &&& h.exts.len() > 0 && h.next_header != h.exts[0].ext_type.number() ==> e == Some(
                    encode::EncodeError::NextHeaderMismatch { expect: h.exts[0].ext_type.number(), got: h.next_header },
                )
                &&& h.exts.len() == 0 && h.next_header == 0 && h.flags & 0x40 != 0 ==> e == Some(
                    encode::EncodeError::FlagMismatch("HAS_EXTENSION"),
                )
            }
        }),
{
    encode::header_wire_len(h);
}

/// How a payload is refused that is not as long as its header says.
pub proof fn refused_payload(h: header::HeaderView, payload: Seq<u8>)
    requires
        payload.len() <= usize::MAX,
    ensures
        payload.len() != h.payload_len ==> encode::packet_error(h, payload) == Some(
            encode::EncodeError::PayloadLengthMismatch { header: h.payload_len as usize, actual: payload.len() as usize },
        ),
        payload.len() == h.payload_len ==> encode::packet_error(h, payload) == encode::encode_error(h),
{
}

/// How a packet without extensions is refused whose payload is not there: what it
/// needs and what there is are told.
pub proof fn refused_short_payload(b: Seq<u8>)
    requires
        40 <= b.len() < 40 + two(b, 3),
        b[0] / 16 == 8,
        two(b, 3) <= 65467,
        b[6] == 0,
        b[2] / 64 % 2 == 0,
    ensures
        decode::parse(b) == Err::<decode::Packet, DecodeError>(
            DecodeError::PayloadBeyondBuffer { need: two(b, 3) as usize, have: (b.len() - 40) as usize },
        ),
{
    let f = wire::be16_at(b, 1);
    let lo = b[2];
    let hi = b[1];
    assert((f & 0x40 != 0) == (lo / 64 % 2 == 1)) by (bit_vector)
        requires
            f == hi * 256 + lo,
    ;
}

/// How a route trace is refused.
pub proof fn refused_traces(t: layouts::RouteTraceView, p: Seq<u8>)
    ensures
        t.hops.len() == 0 ==> layouts::trace_error(t) == Some(LayoutError::EmptyHops),
        t.hops.len() > 64 ==> layouts::trace_error(t) == Some(LayoutError::TooManyHops),
        1 <= t.hops.len() <= 64 ==> layouts::trace_error(t) is None,
        p.len() < 104 ==> layouts::trace_of_wire(p) == Err::<layouts::RouteTraceView, LayoutError>(LayoutError::BadLen),
        p.len() >= 104 && p[96] == 0 ==> layouts::trace_of_wire(p) == Err::<layouts::RouteTraceView, LayoutError>(
            LayoutError::EmptyHops,
        ),
        p.len() >= 104 && p[96] > 64 ==> layouts::trace_of_wire(p) == Err::<layouts::RouteTraceView, LayoutError>(
            LayoutError::TooManyHops,
        ),
{
}

/// How tags are refused.
pub proof fn refused_tags(t: Seq<Seq<char>>, p: Seq<u8>)
    ensures
        t.len() == 0 ==> tags::tags_wire(t) == Err::<Seq<u8>, LayoutError>(LayoutError::EmptyTags),
        t.len() > 32 ==> tags::tags_wire(t) == Err::<Seq<u8>, LayoutError>(LayoutError::TooManyTags),
        p.len() == 0 ==> tags::tags_of_wire(p) == Err::<Seq<Seq<char>>, LayoutError>(LayoutError::EmptyTags),
        p.len() > 1536 ==> tags::tags_of_wire(p) == Err::<Seq<Seq<char>>, LayoutError>(LayoutError::TagsTooLong),
{
}

} // verus!
