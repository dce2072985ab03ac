//! Laws of the packet format: what was written is read back, and what was read
//! is written again.

use vstd::prelude::*;
use crate::codec::decode;
use crate::codec::decode::DecodeError;
use crate::codec::encode;
use crate::codec::flags;
use crate::codec::header;
use crate::codec::header::ExtType;
use crate::codec::header::{BASE_HEADER_SIZE, MAX_EXT_CHAIN, MAX_PACKET_LEN, MAX_PAYLOAD_LEN, VERSION};
use crate::wire;

verus! {

/// Whether a chain is one that the wire can carry: every header is valid, its
/// type is the one that its number stands for, and no type occurs twice.
pub open spec fn sound_chain(exts: Seq<header::ExtView>) -> bool {
    &&& forall|i: int| 0 <= i < exts.len() ==> (#[trigger] exts[i]).valid() && exts[i].ext_type.canonical()
    &&& forall|i: int, j: int|
        0 <= i < j < exts.len() ==> (#[trigger] exts[i]).ext_type.number() != (#[trigger] exts[j]).ext_type.number()
}

/// The type numbers of the first `n` headers of a chain.
pub open spec fn type_numbers(exts: Seq<header::ExtView>, n: nat) -> Seq<u8> {
    Seq::new(n, |i: int| exts[i].ext_type.number())
}

/// Where each header of a chain stands in the bytes of the chain.
proof fn chain_wire_at(exts: Seq<header::ExtView>, n: nat, i: nat)
    requires
        i < n,
    ensures
        encode::chain_size(exts, i + 1) <= encode::chain_wire(exts, n).len(),
        encode::chain_wire(exts, n).subrange(
            encode::chain_size(exts, i) as int,
            encode::chain_size(exts, i + 1) as int,
        ) == encode::ext_wire(exts, i as int),
    decreases n,
{
    encode::chain_wire_len(exts, n);
    encode::chain_wire_len(exts, (n - 1) as nat);
    encode::chain_size_monotonic(exts, i + 1, n);
    let w = encode::chain_wire(exts, n);
    let v = encode::chain_wire(exts, (n - 1) as nat);
    let from = encode::chain_size(exts, i) as int;
    let to = encode::chain_size(exts, i + 1) as int;
    if i + 1 == n {
        assert(w.subrange(from, to) =~= encode::ext_wire(exts, i as int));
    } else {
        chain_wire_at(exts, (n - 1) as nat, i);
        assert(w.subrange(from, to) =~= v.subrange(from, to));
    }
}

/// Reading the chain of a written packet from its `i`th header on.
proof fn chain_round_trip(buf: Seq<u8>, exts: Seq<header::ExtView>, i: nat)
    requires
        sound_chain(exts),
        i < exts.len() <= MAX_EXT_CHAIN,
        BASE_HEADER_SIZE + encode::chain_size(exts, exts.len()) <= buf.len(),
        buf.subrange(
            BASE_HEADER_SIZE as int,
            BASE_HEADER_SIZE + encode::chain_size(exts, exts.len()),
        ) == encode::chain_wire(exts, exts.len()),
    ensures
        decode::parse_chain(
            buf,
            BASE_HEADER_SIZE + encode::chain_size(exts, i),
            exts[i as int].ext_type.number(),
            type_numbers(exts, i),
        ) == Ok::<(Seq<header::ExtView>, int), DecodeError>(
            (
                exts.subrange(i as int, exts.len() as int),
                BASE_HEADER_SIZE + encode::chain_size(exts, exts.len()) as int,
            ),
        ),
    decreases exts.len() - i,
{
    let n = exts.len();
    let at = BASE_HEADER_SIZE + encode::chain_size(exts, i);
    let ext = exts[i as int];
    let seen = type_numbers(exts, i);
    let ty = ext.ext_type.number();
    let chain = buf.subrange(BASE_HEADER_SIZE as int, BASE_HEADER_SIZE + encode::chain_size(exts, n));
    chain_wire_at(exts, n, i);
    encode::chain_size_monotonic(exts, i + 1, n);
    let from = encode::chain_size(exts, i) as int;
    let to = encode::chain_size(exts, i + 1) as int;
    let piece = chain.subrange(from, to);
    assert(piece == encode::ext_wire(exts, i as int));
    assert(buf[at] == piece[0]);
    assert(buf[at + 1] == piece[1]);
    assert(ext.valid() && ext.ext_type.canonical());
    assert(buf[at + 1] * 8 == ext.payload.len());
    assert(buf.subrange(at + 2, at + 2 + ext.payload.len()) =~= ext.payload) by {
        assert forall|k: int| 0 <= k < ext.payload.len() implies buf[at + 2 + k] == ext.payload[k] by {
            assert(buf[at + 2 + k] == piece[2 + k]);
        }
    }
    assert(!seen.contains(ty)) by {
        if seen.contains(ty) {
            let j = choose|j: int| 0 <= j < seen.len() && seen[j] == ty;
            assert(exts[j].ext_type.number() != exts[i as int].ext_type.number());
        }
    }
    if i + 1 == n {
        assert(exts.subrange(i as int, n as int) =~= seq![ext]);
    } else {
        assert(exts[i as int + 1].valid());
        chain_round_trip(buf, exts, i + 1);
        assert(seen.push(ty) =~= type_numbers(exts, i + 1));
        assert(seq![ext] + exts.subrange(i as int + 1, n as int) =~= exts.subrange(i as int, n as int));
    }
}

/// The base header of a written packet, read back.
proof fn base_round_trip(buf: Seq<u8>, h: header::HeaderView)
    requires
        buf.len() >= BASE_HEADER_SIZE,
        buf.subrange(0, BASE_HEADER_SIZE as int) == encode::base_wire(h),
        h.version == VERSION,
        h.min_compat_ver <= 15,
        h.src.wf(),
        h.dst.wf(),
    ensures
        decode::header_of(buf, h.exts) == h,
{
    let b = buf.subrange(0, BASE_HEADER_SIZE as int);
    header::address_wire_len(h.src);
    header::address_wire_len(h.dst);
    assert(forall|i: int| 0 <= i < 40 ==> buf[i] == b[i]);
    let f = encode::fixed_wire(h);
    assert(f.len() == 7);
    assert(forall|i: int| 0 <= i < 7 ==> b[i] == f[i]);
    assert(buf[0] == f[0] && buf[5] == f[5] && buf[6] == f[6]);
    assert(buf.subrange(1, 3) =~= wire::be16(h.flags));
    assert(buf.subrange(3, 5) =~= wire::be16(h.payload_len));
    wire::be16_round_trip(h.flags, buf, 1);
    wire::be16_round_trip(h.payload_len, buf, 3);
    assert(buf.subrange(7, 23) =~= h.src.wire());
    assert(buf.subrange(23, 39) =~= h.dst.wire());
    header::address_wire_round_trip(h.src);
    header::address_wire_round_trip(h.dst);
}

/// The chain of a written packet, read back.
proof fn exts_round_trip(buf: Seq<u8>, h: header::HeaderView)
    requires
        encode::encode_error(h) is None,
        sound_chain(h.exts),
        buf.len() >= BASE_HEADER_SIZE + encode::chain_size(h.exts, h.exts.len()),
        buf[6] == h.next_header,
        buf.subrange(
            BASE_HEADER_SIZE as int,
            BASE_HEADER_SIZE + encode::chain_size(h.exts, h.exts.len()),
        ) == encode::chain_wire(h.exts, h.exts.len()),
    ensures
        decode::parse_exts(buf) == Ok::<(Seq<header::ExtView>, int), DecodeError>(
            (h.exts, BASE_HEADER_SIZE + encode::chain_size(h.exts, h.exts.len())),
        ),
{
    let n = h.exts.len();
    if n == 0 {
        assert(h.exts =~= Seq::empty());
    } else {
        assert(h.exts[0].valid());
        chain_round_trip(buf, h.exts, 0);
        assert(type_numbers(h.exts, 0) =~= Seq::empty());
        assert(h.exts.subrange(0, n as int) =~= h.exts);
    }
}

/// Decoding gives back what was encoded: the header with its chain and the
/// payload, whatever follows the packet in the buffer.
pub proof fn decode_of_encode(h: header::HeaderView, payload: Seq<u8>, tail: Seq<u8>)
    requires
        encode::packet_error(h, payload) is None,
        sound_chain(h.exts),
    ensures
        decode::parse(encode::header_wire(h) + payload + tail) == Ok::<decode::Packet, DecodeError>(
            decode::Packet { header: h, payload },
        ),
{
    let n = h.exts.len();
    let w = encode::header_wire(h);
    let buf = w + payload + tail;
    encode::header_wire_len(h);
    encode::chain_wire_len(h.exts, n);
    assert(buf.subrange(0, BASE_HEADER_SIZE as int) =~= encode::base_wire(h));
    base_round_trip(buf, h);
    let end = BASE_HEADER_SIZE + encode::chain_size(h.exts, n);
    assert(buf.subrange(BASE_HEADER_SIZE as int, end as int) =~= encode::chain_wire(h.exts, n));
    assert(decode::header_of(buf, h.exts).next_header == buf[6]);
    exts_round_trip(buf, h);
    assert(buf.subrange(end as int, end + h.payload_len) =~= payload);
}

/// What a successful reading of a chain says of the bytes.
proof fn parsed_chain_wire(buf: Seq<u8>, at: int, ty: u8, seen: Seq<u8>)
    requires
        0 <= at <= buf.len(),
        ty != 0,
        decode::parse_chain(buf, at, ty, seen) is Ok,
    ensures
        ({
            let (exts, end) = decode::parse_chain(buf, at, ty, seen)->Ok_0;
            &&& sound_chain(exts)
            &&& 0 < exts.len() <= MAX_EXT_CHAIN - seen.len()
            &&& exts[0].ext_type.number() == ty
            &&& forall|i: int| 0 <= i < exts.len() ==> !seen.contains((#[trigger] exts[i]).ext_type.number())
            &&& at <= end <= buf.len()
            &&& end == at + encode::chain_size(exts, exts.len())
            &&& encode::chain_wire(exts, exts.len()) == buf.subrange(at, end)
        }),
    decreases MAX_EXT_CHAIN - seen.len(),
{
    let (exts, end) = decode::parse_chain(buf, at, ty, seen)->Ok_0;
    let mid = at + 2 + buf[at + 1] * 8;
    let ext = header::ExtView { ext_type: ExtType::of_number(ty), payload: buf.subrange(at + 2, mid) };
    assert(exts[0] == ext);
    assert(ext.valid() && ext.ext_type.canonical());
    assert((ext.payload.len() / 8 % 256) as u8 == buf[at + 1]);
    if buf[at] == 0 {
        assert(exts =~= seq![ext]);
        assert(encode::chain_size(exts, 1) == encode::chain_size(exts, 0) + ext.size());
        assert(encode::chain_wire(exts, 0) =~= Seq::empty());
        assert(encode::chain_wire(exts, 1) =~= encode::ext_wire(exts, 0));
        assert(encode::ext_wire(exts, 0) =~= buf.subrange(at, end));
    } else {
        let rest = decode::parse_chain(buf, mid, buf[at], seen.push(ty))->Ok_0.0;
        parsed_chain_wire(buf, mid, buf[at], seen.push(ty));
        assert(exts =~= seq![ext] + rest);
        assert(forall|i: int| 0 <= i < rest.len() ==> exts[i + 1] == #[trigger] rest[i]);
        assert forall|i: int| 0 <= i < exts.len() implies (#[trigger] exts[i]).valid() && exts[i].ext_type.canonical()
            && !seen.contains(exts[i].ext_type.number()) by {
            if i > 0 {
                assert(exts[i] == rest[i - 1]);
                let m = rest[i - 1].ext_type.number();
                if seen.contains(m) {
                    let j = choose|j: int| 0 <= j < seen.len() && seen[j] == m;
                    assert(seen.push(ty)[j] == m);
                    assert(seen.push(ty).contains(m));
                }
            }
        }
        assert forall|i: int, j: int| 0 <= i < j < exts.len() implies (#[trigger] exts[i]).ext_type.number() != (
        #[trigger] exts[j]).ext_type.number() by {
            assert(exts[j] == rest[j - 1]);
            if i == 0 {
                assert(!seen.push(ty).contains(rest[j - 1].ext_type.number()));
                assert(seen.push(ty)[seen.len() as int] == ty);
            } else {
                assert(exts[i] == rest[i - 1]);
            }
        }
        chain_cons(ext, rest, rest.len());
        assert(encode::ext_wire(exts, 0) =~= buf.subrange(at, mid));
        assert(encode::chain_wire(exts, exts.len()) =~= buf.subrange(at, mid) + buf.subrange(mid, end));
        assert(encode::chain_wire(exts, exts.len()) =~= buf.subrange(at, end));
    }
}

/// A chain with a header put before it.
pub proof fn chain_cons(ext: header::ExtView, rest: Seq<header::ExtView>, n: nat)
    requires
        n <= rest.len(),
    ensures
        encode::chain_size(seq![ext] + rest, n + 1) == ext.size() + encode::chain_size(rest, n),
        encode::chain_wire(seq![ext] + rest, n + 1) == encode::ext_wire(seq![ext] + rest, 0) + encode::chain_wire(rest, n),
    decreases n,
{
    let all = seq![ext] + rest;
    if n == 0 {
        assert(encode::chain_size(all, 1) == encode::chain_size(all, 0) + all[0].size());
        assert(encode::chain_wire(all, 0) =~= Seq::empty());
        assert(encode::chain_wire(rest, 0) =~= Seq::empty());
        assert(encode::chain_wire(all, 1) =~= encode::ext_wire(all, 0));
    } else {
        chain_cons(ext, rest, (n - 1) as nat);
        assert(all[n as int] == rest[n - 1]);
        assert(encode::ext_wire(all, n as int) =~= encode::ext_wire(rest, n - 1)) by {
            if n + 1 < all.len() {
                assert(all[n as int + 1] == rest[n as int]);
            }
        }
        assert(encode::chain_wire(all, n + 1) =~= encode::ext_wire(all, 0) + encode::chain_wire(rest, n));
    }
}

/// A decoded packet keeps the rules of the format: its chain is sound, its
/// addresses are well formed, its lengths fit, and the payload is as long as
/// the header says.
pub proof fn decoded_is_sound(buf: Seq<u8>)
    requires
        decode::parse(buf) is Ok,
    ensures
        ({
            let p = decode::parse(buf)->Ok_0;
            &&& sound_chain(p.header.exts)
            &&& p.header.exts.len() <= MAX_EXT_CHAIN
            &&& p.header.version == VERSION
            &&& p.header.min_compat_ver <= 15
            &&& p.header.next_header == header::first_type(p.header.exts)
            &&& (p.header.flags & flags::HAS_EXTENSION != 0) == (p.header.exts.len() != 0)
            &&& p.header.src.wf() && p.header.dst.wf()
            &&& p.payload.len() == p.header.payload_len <= MAX_PAYLOAD_LEN
            &&& encode::header_wire(p.header).len() + p.payload.len() <= MAX_PACKET_LEN
            &&& encode::header_wire(p.header).len() + p.payload.len() <= buf.len()
            &&& p.payload == buf.subrange(
                encode::header_wire(p.header).len() as int,
                (encode::header_wire(p.header).len() + p.payload.len()) as int,
            )
        }),
{
    let p = decode::parse(buf)->Ok_0;
    let h = p.header;
    if buf[6] != 0 {
        parsed_chain_wire(buf, BASE_HEADER_SIZE as int, buf[6], Seq::empty());
    } else {
        assert(h.exts =~= Seq::empty());
    }
    encode::header_wire_len(h);
    assert(h.src.reserved@ =~= seq![0u8, 0u8, 0u8]);
    assert(h.dst.reserved@ =~= seq![0u8, 0u8, 0u8]);
}

/// A decoded packet can be encoded again, unless a reserved flag was set.
pub proof fn encode_of_decode_succeeds(buf: Seq<u8>)
    requires
        decode::parse(buf) is Ok,
    ensures
        ({
            let p = decode::parse(buf)->Ok_0;
            encode::packet_error(p.header, p.payload) == if p.header.flags & flags::RESERVED_MASK == 0 {
                None::<encode::EncodeError>
            } else {
                Some(encode::EncodeError::ReservedBits)
            }
        }),
{
    decoded_is_sound(buf);
    encode::header_wire_len(decode::parse(buf)->Ok_0.header);
}

/// Encoding a decoded packet gives back its bytes, where the bits that a
/// receiver does not look at were zero.
pub proof fn encode_of_decode(buf: Seq<u8>)
    requires
        decode::parse(buf) is Ok,
        buf[39] == 0,
        buf.subrange(20, 23) == wire::zeros(3),
        buf.subrange(36, 39) == wire::zeros(3),
    ensures
        ({
            let p = decode::parse(buf)->Ok_0;
            let w = encode::header_wire(p.header) + p.payload;
            w.len() <= buf.len() && w == buf.subrange(0, w.len() as int)
        }),
{
    decoded_is_sound(buf);
    let p = decode::parse(buf)->Ok_0;
    let h = p.header;
    let n = h.exts.len();
    encode::header_wire_len(h);
    encode::chain_wire_len(h.exts, n);
    wire::be16_at_bytes(buf, 1);
    wire::be16_at_bytes(buf, 3);
    let s = buf.subrange(7, 23);
    let d = buf.subrange(23, 39);
    assert(s.subrange(13, 16) =~= buf.subrange(20, 23));
    assert(d.subrange(13, 16) =~= buf.subrange(36, 39));
    header::address_of_wire_bytes(s);
    header::address_of_wire_bytes(d);
    assert(encode::fixed_wire(h) =~= buf.subrange(0, 7)) by {
        assert(buf[0] == (VERSION * 16 + h.min_compat_ver) as u8);
        assert(buf.subrange(1, 3)[0] == buf[1] && buf.subrange(1, 3)[1] == buf[2]);
        assert(buf.subrange(3, 5)[0] == buf[3] && buf.subrange(3, 5)[1] == buf[4]);
    }
    assert(encode::base_wire(h) =~= buf.subrange(0, 7) + s + d + seq![buf[39]]);
    assert(encode::base_wire(h) =~= buf.subrange(0, BASE_HEADER_SIZE as int));
    let end = BASE_HEADER_SIZE + encode::chain_size(h.exts, n);
    assert(encode::chain_wire(h.exts, n) =~= buf.subrange(BASE_HEADER_SIZE as int, end as int)) by {
        if buf[6] != 0 {
            parsed_chain_wire(buf, BASE_HEADER_SIZE as int, buf[6], Seq::empty());
        }
    }
    let w = encode::header_wire(h) + p.payload;
    assert(w =~= buf.subrange(0, w.len() as int));
}

/// Reading a chain depends on the bytes after the base header only.
proof fn chain_frame(a: Seq<u8>, b: Seq<u8>, at: int, ty: u8, seen: Seq<u8>)
    requires
        a.len() == b.len(),
        BASE_HEADER_SIZE <= at,
        forall|i: int| BASE_HEADER_SIZE <= i < a.len() ==> a[i] == b[i],
    ensures
        decode::parse_chain(a, at, ty, seen) == decode::parse_chain(b, at, ty, seen),
    decreases MAX_EXT_CHAIN - seen.len(),
{
    if !seen.contains(ty) && at + 2 <= a.len() && a[at + 1] != 0 && seen.len() < MAX_EXT_CHAIN {
        let end = at + 2 + a[at + 1] * 8;
        if end <= a.len() {
            assert(a.subrange(at + 2, end) =~= b.subrange(at + 2, end));
            if a[at] != 0 {
                chain_frame(a, b, end, a[at], seen.push(ty));
            }
        }
    }
}

/// A receiver does not look at the padding byte and the reserved bytes of the
/// addresses.
pub proof fn reserved_bytes_ignored(buf: Seq<u8>, i: int, x: u8)
    requires
        20 <= i < 23 || 36 <= i < 40,
        i < buf.len(),
    ensures
        decode::parse(buf.update(i, x)) == decode::parse(buf),
{
    if buf.len() >= BASE_HEADER_SIZE {
        let b = buf.update(i, x);
        chain_frame(buf, b, BASE_HEADER_SIZE as int, buf[6], Seq::empty());
        assert(wire::be16_at(b, 1) == wire::be16_at(buf, 1));
        assert(wire::be16_at(b, 3) == wire::be16_at(buf, 3));
        let s = buf.subrange(7, 23);
        let t = b.subrange(7, 23);
        assert(forall|k: int| 0 <= k < 13 ==> s[k] == t[k]);
        assert(header::address_of_wire(s) == header::address_of_wire(t));
        let d = buf.subrange(23, 39);
        let e = b.subrange(23, 39);
        assert(forall|k: int| 0 <= k < 13 ==> d[k] == e[k]);
        assert(header::address_of_wire(d) == header::address_of_wire(e));
        match decode::parse_exts(buf) {
            Ok((exts, end)) => {
                if buf[6] != 0 {
                    parsed_chain_wire(buf, BASE_HEADER_SIZE as int, buf[6], Seq::empty());
                }
                let n = wire::be16_at(buf, 3);
                if end + n <= buf.len() {
                    assert(b.subrange(end, end + n) =~= buf.subrange(end, end + n));
                }
            },
            Err(_) => {},
        }
    }
}

/// A receiver keeps reserved flags but does not look at them: setting any of
/// them changes the flags of the decoded header and nothing else.
pub proof fn reserved_flags_ignored(buf: Seq<u8>, bits: u16)
    requires
        buf.len() >= BASE_HEADER_SIZE,
        bits & flags::RESERVED_MASK == bits,
    ensures
        ({
            let f = wire::be16_at(buf, 1) | bits;
            let b = buf.update(1, wire::be16(f)[0]).update(2, wire::be16(f)[1]);
            decode::parse(b) == match decode::parse(buf) {
                Ok(p) => Ok::<decode::Packet, DecodeError>(
                    decode::Packet { header: header::HeaderView { flags: f, ..p.header }, ..p },
                ),
                Err(e) => Err(e),
            }
        }),
{
    let g = wire::be16_at(buf, 1);
    let f = g | bits;
    let b = buf.update(1, wire::be16(f)[0]).update(2, wire::be16(f)[1]);
    assert((f & 0x40 != 0) == (g & 0x40 != 0)) by (bit_vector)
        requires
            f == g | bits,
            bits & 0xFF80 == bits,
    ;
    assert(b.subrange(1, 3) =~= wire::be16(f));
    wire::be16_round_trip(f, b, 1);
    chain_frame(buf, b, BASE_HEADER_SIZE as int, buf[6], Seq::empty());
    assert(wire::be16_at(b, 3) == wire::be16_at(buf, 3));
    assert(b.subrange(7, 23) =~= buf.subrange(7, 23));
    assert(b.subrange(23, 39) =~= buf.subrange(23, 39));
    match decode::parse_exts(buf) {
        Ok((exts, end)) => {
            if buf[6] != 0 {
                parsed_chain_wire(buf, BASE_HEADER_SIZE as int, buf[6], Seq::empty());
            }
            let n = wire::be16_at(buf, 3);
            if end + n <= buf.len() {
                assert(b.subrange(end, end + n) =~= buf.subrange(end, end + n));
            }
        },
        Err(_) => {},
    }
}

} // verus!
