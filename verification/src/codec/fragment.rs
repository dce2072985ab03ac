//! Fragmentation to an MTU and reassembly.
//!
//! A fragment is a packet with the fragment mark whose extension chain begins
//! with a Fragment header; the first fragment carries the chain of the whole
//! packet after it. All fragments of a packet share its addresses and an
//! identification.

use vstd::prelude::*;
use crate::codec::decode;
use crate::codec::decode::DecodeError;
use crate::codec::encode;
use crate::codec::encode::EncodeError;
use crate::codec::flags;
use crate::codec::header;
use crate::codec::header::{ExtType, ExtensionHeader, IPv8Header, BASE_HEADER_SIZE};
use crate::wire;

verus! {

/// Packet size on an Ethernet path: 1500 less 68 bytes of encapsulation.
pub const DEFAULT_MTU: usize = 1432;

/// Bytes of a Fragment header on the wire.
pub const FRAG_EXT_WIRE: usize = 10;

/// Greatest number of packets under reassembly.
pub const MAX_GROUPS: usize = 64;

/// Greatest payload of a reassembled packet.
pub const MAX_GROUP_BYTES: usize = 65467;

/// Milliseconds after which an incomplete packet is given up.
pub const REASSEMBLY_TIMEOUT: u64 = 30_000;

/// The content of a Fragment header.
#[derive(Debug, Clone, Copy, PartialEq, Eq, Structural)]
pub struct FragmentInfo {
    pub id: u32,
    /// Where the payload of the fragment begins, in units of 8 bytes.
    pub offset: u16,
    /// Whether more fragments follow.
    pub more: bool,
}

/// The 16 bits that hold offset (13 bits) and more mark.
pub open spec fn offset_word(offset: u16, more: bool) -> u16 {
    (offset % 0x2000 * 8 + if more {
        4int
    } else {
        0
    }) as u16
}

/// A Fragment header: identification (32 bits), offset (13), reserved (2 bits
/// around the more mark), 16 reserved bits.
pub open spec fn fragment_ext(f: FragmentInfo) -> header::ExtView {
    header::ExtView {
        ext_type: ExtType::Fragment,
        payload: wire::be32(f.id) + wire::be16(offset_word(f.offset, f.more)) + wire::zeros(2),
    }
}

/// The content of an extension header, where it is a Fragment header.
pub open spec fn fragment_of(e: header::ExtView) -> Option<FragmentInfo> {
    if e.ext_type != ExtType::Fragment || e.payload.len() != 8 {
        None
    } else {
        let word = wire::be16_at(e.payload, 4);
        Some(FragmentInfo { id: wire::be32_at(e.payload, 0), offset: word / 8, more: word / 4 % 2 == 1 })
    }
}

/// A Fragment header says what it was made of, where the offset fits 13 bits.
pub proof fn fragment_ext_round_trip(f: FragmentInfo)
    requires
        f.offset < 0x2000,
    ensures
        fragment_of(fragment_ext(f)) == Some(f),
        fragment_ext(f).valid(),
        fragment_ext(f).payload.len() == 8,
{
    let p = fragment_ext(f).payload;
    assert(p.subrange(0, 4) =~= wire::be32(f.id));
    assert(p.subrange(4, 6) =~= wire::be16(offset_word(f.offset, f.more)));
    wire::be32_round_trip(f.id, p, 0);
    wire::be16_round_trip(offset_word(f.offset, f.more), p, 4);
}

impl FragmentInfo {
    /// The Fragment header with this content.
    pub fn to_ext(self) -> (e: ExtensionHeader)
        ensures
            e@ == fragment_ext(self),
    {
        let mut p: Vec<u8> = Vec::new();
        wire::put_be32(&mut p, self.id);
        let mark: u16 = if self.more {
            4
        } else {
            0
        };
        wire::put_be16(&mut p, self.offset % 0x2000 * 8 + mark);
        wire::put_zeros(&mut p, 2);
        assert(p@ =~= fragment_ext(self).payload);
        ExtensionHeader { ext_type: ExtType::Fragment, payload: p }
    }

    /// The content of a Fragment header; `None` for a header of another type
    /// or length.
    pub fn parse(ext: &ExtensionHeader) -> (r: Option<Self>)
        ensures
            r == fragment_of(ext@),
    {
        if ext.ext_type != ExtType::Fragment || ext.payload.len() != 8 {
            return None;
        }
        let word: u16 = wire::get_be16(ext.payload.as_slice(), 4);
        Some(
            FragmentInfo {
                id: wire::get_be32(ext.payload.as_slice(), 0),
                offset: word / 8,
                more: word / 4 % 2 == 1,
            },
        )
    }
}

/// Why a packet is not fragmented.
#[derive(Debug, Clone, PartialEq, Eq, Structural)]
pub enum FragmentError {
    /// The input is not a packet, or its headers cannot be written.
    NotAValidPacket(DecodeError),
    /// The input is a fragment.
    AlreadyFragmented,
    /// PayloadLen is not the length of the payload.
    LengthMismatch,
    /// No fragment fits.
    MtuTooSmall(usize),
}

/// The name that a failure to write the headers of a fragment gets.
pub open spec fn as_decode_error(e: EncodeError) -> DecodeError {
    match e {
        EncodeError::PayloadTooLong(n) => DecodeError::PayloadTooLong(n),
        _ => DecodeError::TooShort(0),
    }
}

/// Whether a chain holds a Fragment header.
pub open spec fn has_fragment(exts: Seq<header::ExtView>) -> bool {
    exists|i: int| 0 <= i < exts.len() && (#[trigger] exts[i]).ext_type == ExtType::Fragment
}

/// Payload bytes per fragment: what the MTU leaves next to the headers of the
/// first fragment, rounded down to a multiple of 8.
pub open spec fn chunk_size(max_len: nat, exts: Seq<header::ExtView>) -> nat {
    let used = BASE_HEADER_SIZE + FRAG_EXT_WIRE + encode::chain_size(exts, exts.len());
    if max_len <= used {
        0
    } else {
        ((max_len - used) - (max_len - used) % 8) as nat
    }
}

/// Number of fragments of a payload.
pub open spec fn chunk_count(len: nat, chunk: nat) -> nat {
    (len + chunk - 1) as nat / chunk
}

/// Where the `i`th fragment ends.
pub open spec fn chunk_end(len: nat, chunk: nat, i: nat) -> nat {
    if (i + 1) * chunk < len {
        (i + 1) * chunk
    } else {
        len
    }
}

/// The chain of the `i`th fragment.
pub open spec fn fragment_chain(exts: Seq<header::ExtView>, id: u32, len: nat, chunk: nat, i: nat) -> Seq<header::ExtView> {
    seq![fragment_ext(FragmentInfo { id, offset: (i * chunk / 8) as u16, more: (i + 1) * chunk < len })] + if i == 0 {
        exts
    } else {
        Seq::empty()
    }
}

/// The header of the `i`th fragment.
pub open spec fn fragment_header(h: header::HeaderView, id: u32, len: nat, chunk: nat, i: nat) -> header::HeaderView {
    let bare = header::HeaderView {
        flags: h.flags & !(flags::HAS_EXTENSION | flags::FRAGMENT),
        payload_len: (chunk_end(len, chunk, i) - i * chunk) as u16,
        ..h
    };
    let f = bare.with_exts(fragment_chain(h.exts, id, len, chunk, i));
    header::HeaderView { flags: f.flags | flags::FRAGMENT, ..f }
}

/// The payload of the `i`th fragment.
pub open spec fn fragment_payload(payload: Seq<u8>, chunk: nat, i: nat) -> Seq<u8> {
    payload.subrange((i * chunk) as int, chunk_end(payload.len(), chunk, i) as int)
}

/// The `i`th fragment of a packet.
pub open spec fn fragment_wire(p: decode::Packet, id: u32, chunk: nat, i: nat) -> Seq<u8> {
    encode::header_wire(fragment_header(p.header, id, p.payload.len(), chunk, i)) + fragment_payload(p.payload, chunk, i)
}

/// What [`fragment_packet`] gives: the packet itself where it fits, otherwise
/// its fragments in order.
pub open spec fn fragments(packet: Seq<u8>, max_len: usize, id: u32) -> Result<Seq<Seq<u8>>, FragmentError> {
    match decode::parse(packet) {
        Err(e) => Err(FragmentError::NotAValidPacket(e)),
        Ok(p) => {
            let chunk = chunk_size(max_len as nat, p.header.exts);
            let len = p.payload.len();
            if has_fragment(p.header.exts) {
                Err(FragmentError::AlreadyFragmented)
            } else if packet.len() <= max_len {
                Ok(seq![packet])
            } else if chunk < 8 {
                Err(FragmentError::MtuTooSmall(max_len))
            } else if len == 0 {
                Ok(Seq::empty())
            } else {
                match encode::encode_error(fragment_header(p.header, id, len, chunk, 0)) {
                    Some(e) => Err(FragmentError::NotAValidPacket(as_decode_error(e))),
                    None => Ok(Seq::new(chunk_count(len, chunk), |i: int| fragment_wire(p, id, chunk, i as nat))),
                }
            }
        },
    }
}

/// The last fragment begins inside the payload, and all of them cover it.
pub proof fn chunk_count_bounds(len: nat, chunk: nat)
    requires
        len > 0,
        chunk > 0,
    ensures
        chunk_count(len, chunk) >= 1,
        (chunk_count(len, chunk) - 1) * chunk < len <= chunk_count(len, chunk) * chunk,
        chunk_count(len, chunk) <= len,
{
    let q = chunk_count(len, chunk);
    let a = (len + chunk - 1) as nat;
    vstd::arithmetic::div_mod::lemma_fundamental_div_mod(a as int, chunk as int);
    assert(chunk * q <= a < chunk * q + chunk);
    assert((q - 1) * chunk == chunk * q - chunk) by (nonlinear_arith);
    assert(q * chunk == chunk * q) by (nonlinear_arith);
    assert(q >= 1) by (nonlinear_arith)
        requires
            chunk > 0,
            chunk * q >= 1,
    ;
    assert(q <= len) by (nonlinear_arith)
        requires
            (q - 1) * chunk < len,
            chunk >= 1,
            q >= 1,
    ;
}

/// Every fragment before the last begins and ends inside the payload.
pub proof fn chunk_bounds(len: nat, chunk: nat, i: nat)
    requires
        len > 0,
        chunk > 0,
        i < chunk_count(len, chunk),
    ensures
        i * chunk < len,
        i * chunk < chunk_end(len, chunk, i) <= len,
        chunk_end(len, chunk, i) - i * chunk <= chunk,
        (i + 1) * chunk == i * chunk + chunk,
        ((i + 1) * chunk < len) == (i + 1 < chunk_count(len, chunk)),
{
    chunk_count_bounds(len, chunk);
    let n = chunk_count(len, chunk);
    assert(i * chunk <= (n - 1) * chunk) by (nonlinear_arith)
        requires
            i <= n - 1,
    ;
    assert((i + 1) * chunk == i * chunk + chunk) by (nonlinear_arith);
    if i + 1 < n {
        assert((i + 1) * chunk <= (n - 1) * chunk) by (nonlinear_arith)
            requires
                i + 1 <= n - 1,
        ;
    }
}

/// If the headers of the first fragment can be written, so can those of the
/// others.
pub proof fn later_headers_fit(h: header::HeaderView, id: u32, len: nat, chunk: nat, i: nat)
    requires
        len > 0,
        len <= 65467,
        chunk >= 8,
        i < chunk_count(len, chunk),
        encode::encode_error(fragment_header(h, id, len, chunk, 0)) is None,
    ensures
        encode::encode_error(fragment_header(h, id, len, chunk, i)) is None,
{
    if i > 0 {
        let h0 = fragment_header(h, id, len, chunk, 0);
        let hi = fragment_header(h, id, len, chunk, i);
        chunk_bounds(len, chunk, i);
        chunk_bounds(len, chunk, 0);
        assert(1 < chunk_count(len, chunk));
        assert(hi.exts.len() == 1);
        assert(h0.exts[0].ext_type.number() == hi.exts[0].ext_type.number());
        assert(encode::chain_size(hi.exts, 1) == encode::chain_size(hi.exts, 0) + hi.exts[0].size());
        assert(encode::chain_size(h0.exts, 1) == encode::chain_size(h0.exts, 0) + h0.exts[0].size());
        encode::chain_size_monotonic(h0.exts, 1, h0.exts.len());
        assert(h0.payload_len == chunk);
        assert(hi.payload_len <= chunk);
        assert(h0.flags == hi.flags);
    }
}

/// Whether a chain holds a Fragment header.
fn holds_fragment(exts: &Vec<ExtensionHeader>) -> (r: bool)
    ensures
        r == has_fragment(header::ext_views(exts@)),
{
    let ghost views = header::ext_views(exts@);
    let mut i: usize = 0;
    while i < exts.len()
        invariant
            i <= exts.len(),
            views == header::ext_views(exts@),
            forall|j: int| 0 <= j < i ==> (#[trigger] views[j]).ext_type != ExtType::Fragment,
        decreases exts.len() - i,
    {
        assert(views[i as int] == exts@[i as int]@);
        if exts[i].ext_type == ExtType::Fragment {
            return true;
        }
        i = i + 1;
    }
    false
}

/// Appends copies of extension headers.
pub fn append_exts(chain: &mut Vec<ExtensionHeader>, exts: &Vec<ExtensionHeader>, from: usize)
    requires
        from <= exts.len(),
    ensures
        header::ext_views(final(chain)@) == header::ext_views(old(chain)@) + header::ext_views(exts@).subrange(
            from as int,
            exts@.len() as int,
        ),
{
    let ghost before = header::ext_views(chain@);
    let ghost views = header::ext_views(exts@);
    let mut i: usize = from;
    assert(before + views.subrange(from as int, i as int) =~= before);
    while i < exts.len()
        invariant
            from <= i <= exts.len(),
            views == header::ext_views(exts@),
            header::ext_views(chain@) == before + views.subrange(from as int, i as int),
        decreases exts.len() - i,
    {
        let ghost part = header::ext_views(chain@);
        chain.push(exts[i].copy());
        assert(header::ext_views(chain@) =~= part.push(views[i as int]));
        i = i + 1;
        assert(header::ext_views(chain@) =~= before + views.subrange(from as int, i as int));
    }
}

/// The decoding error that stands for a failure to write a header.
fn decode_err_from_encode(e: &EncodeError) -> (r: DecodeError)
    ensures
        r == as_decode_error(*e),
{
    match e {
        EncodeError::PayloadTooLong(n) => DecodeError::PayloadTooLong(*n),
        _ => DecodeError::TooShort(0),
    }
}

/// Splits a packet into fragments of at most `max_len` bytes, with
/// identification `id`. A packet that fits is given back as it is.
pub fn fragment_packet(packet: &[u8], max_len: usize, id: u32) -> (r: Result<Vec<Vec<u8>>, FragmentError>)
    ensures
        match r {
            Ok(v) => fragments(packet@, max_len, id) == Ok::<Seq<Seq<u8>>, FragmentError>(wire::contents(v@)),
            Err(e) => fragments(packet@, max_len, id) == Err::<Seq<Seq<u8>>, FragmentError>(e),
        },
{
    let d = match decode::decode(packet) {
        Ok(d) => d,
        Err(e) => {
            return Err(FragmentError::NotAValidPacket(e));
        },
    };
    let ghost p = d@;
    proof {
        crate::codec::laws::decoded_is_sound(packet@);
    }
    if holds_fragment(&d.header.ext_headers) {
        return Err(FragmentError::AlreadyFragmented);
    }
    let mut out: Vec<Vec<u8>> = Vec::new();
    if packet.len() <= max_len {
        out.push(vstd::slice::slice_to_vec(packet));
        assert(wire::contents(out@) =~= seq![packet@]);
        return Ok(out);
    }
    proof {
        encode::header_wire_len(p.header);
    }
    let exts_len: usize = match encode::chain_size_within(&d.header.ext_headers, 65507) {
        Some(n) => n,
        None => 0,
    };
    let used: usize = BASE_HEADER_SIZE + FRAG_EXT_WIRE + exts_len;
    let budget: usize = if max_len <= used {
        0
    } else {
        max_len - used
    };
    let chunk: usize = budget - budget % 8;
    assert(chunk == chunk_size(max_len as nat, p.header.exts));
    if chunk < 8 {
        return Err(FragmentError::MtuTooSmall(max_len));
    }
    let len: usize = d.payload.len();
    if len == 0 {
        assert(wire::contents(out@) =~= Seq::empty());
        return Ok(out);
    }
    match split(&d, id, chunk) {
        Ok(v) => Ok(v),
        Err(e) => Err(FragmentError::NotAValidPacket(decode_err_from_encode(&e))),
    }
}

/// The `i`th fragment of a packet, which begins at index `pos` of its payload.
fn fragment_at(d: &decode::Decoded<'_>, id: u32, chunk: usize, pos: usize, Ghost(i): Ghost<nat>) -> (r: Result<
    Vec<u8>,
    EncodeError,
>)
    requires
        0 < d@.payload.len() <= 65467,
        chunk >= 8,
        i < chunk_count(d@.payload.len(), chunk as nat),
        pos == i * chunk,
    ensures
        match r {
            Ok(v) => {
                &&& encode::encode_error(fragment_header(d@.header, id, d@.payload.len(), chunk as nat, i)) is None
                &&& v@ == fragment_wire(d@, id, chunk as nat, i)
            },
            Err(e) => encode::encode_error(fragment_header(d@.header, id, d@.payload.len(), chunk as nat, i)) == Some(e),
        },
{
    let ghost p = d@;
    let len: usize = d.payload.len();
    proof {
        chunk_bounds(len as nat, chunk as nat, i);
    }
    let left: usize = len - pos;
    let take: usize = if chunk < left {
        chunk
    } else {
        left
    };
    let more: bool = take < left;
    let info = FragmentInfo { id, offset: (pos / 8) as u16, more };
    let mut chain: Vec<ExtensionHeader> = Vec::new();
    chain.push(info.to_ext());
    assert(header::ext_views(chain@) =~= seq![fragment_ext(info)]);
    if pos == 0 {
        assert(i == 0) by (nonlinear_arith)
            requires
                i * chunk == 0,
                chunk > 0,
        ;
        append_exts(&mut chain, &d.header.ext_headers, 0);
        assert(p.header.exts.subrange(0, p.header.exts.len() as int) =~= p.header.exts);
    } else {
        assert(i != 0) by (nonlinear_arith)
            requires
                i * chunk != 0,
        ;
    }
    assert(header::ext_views(chain@) =~= fragment_chain(p.header.exts, id, len as nat, chunk as nat, i));
    let mut hdr = IPv8Header {
        version: d.header.version,
        min_compat_ver: d.header.min_compat_ver,
        flags: d.header.flags & !(flags::HAS_EXTENSION | flags::FRAGMENT),
        payload_len: take as u16,
        hop_limit: d.header.hop_limit,
        next_header: 0,
        src_addr: d.header.src_addr,
        dst_addr: d.header.dst_addr,
        ext_headers: Vec::new(),
    };
    hdr.attach_ext_headers(chain);
    hdr.flags = hdr.flags | flags::FRAGMENT;
    assert(hdr@ == fragment_header(p.header, id, len as nat, chunk as nat, i));
    let mut buf: Vec<u8> = Vec::new();
    match encode::encode_header(&hdr, &mut buf) {
        Ok(_) => {},
        Err(e) => {
            return Err(e);
        },
    }
    let part = vstd::slice::slice_subrange(d.payload, pos, pos + take);
    wire::put_bytes(&mut buf, part);
    assert(buf@ =~= fragment_wire(p, id, chunk as nat, i));
    Ok(buf)
}

/// All fragments of a packet with `chunk` bytes of payload each.
fn split(d: &decode::Decoded<'_>, id: u32, chunk: usize) -> (r: Result<Vec<Vec<u8>>, EncodeError>)
    requires
        0 < d@.payload.len() <= 65467,
        chunk >= 8,
    ensures
        match r {
            Ok(v) => {
                &&& encode::encode_error(fragment_header(d@.header, id, d@.payload.len(), chunk as nat, 0)) is None
                &&& wire::contents(v@) == Seq::new(
                    chunk_count(d@.payload.len(), chunk as nat),
                    |j: int| fragment_wire(d@, id, chunk as nat, j as nat),
                )
            },
            Err(e) => encode::encode_error(fragment_header(d@.header, id, d@.payload.len(), chunk as nat, 0)) == Some(e),
        },
{
    let ghost p = d@;
    let len: usize = d.payload.len();
    let mut out: Vec<Vec<u8>> = Vec::new();
    let ghost n = chunk_count(len as nat, chunk as nat);
    let ghost mut i: nat = 0;
    let mut pos: usize = 0;
    proof {
        chunk_count_bounds(len as nat, chunk as nat);
        assert(0 * chunk == 0) by (nonlinear_arith);
        assert(wire::contents(out@) =~= Seq::new(0, |j: int| fragment_wire(p, id, chunk as nat, j as nat)));
    }
    while pos < len
        invariant
            p == d@,
            len == p.payload.len(),
            0 < len <= 65467,
            chunk >= 8,
            n == chunk_count(len as nat, chunk as nat),
            i <= n,
            pos == if i < n {
                i * chunk
            } else {
                len as int
            },
            pos <= len,
            i > 0 ==> encode::encode_error(fragment_header(p.header, id, len as nat, chunk as nat, 0)) is None,
            pos >= len ==> i > 0,
            wire::contents(out@) == Seq::new(i, |j: int| fragment_wire(p, id, chunk as nat, j as nat)),
        decreases len - pos,
    {
        proof {
            chunk_bounds(len as nat, chunk as nat, i);
        }
        match fragment_at(d, id, chunk, pos, Ghost(i)) {
            Ok(v) => {
                let ghost before = wire::contents(out@);
                out.push(v);
                assert(wire::contents(out@) =~= before.push(v@));
            },
            Err(e) => {
                proof {
                    if i > 0 {
                        later_headers_fit(p.header, id, len as nat, chunk as nat, i);
                    }
                }
                return Err(e);
            },
        }
        pos = if chunk < len - pos {
            pos + chunk
        } else {
            len
        };
        proof {
            i = i + 1;
            assert(wire::contents(out@) =~= Seq::new(i, |j: int| fragment_wire(p, id, chunk as nat, j as nat)));
        }
    }
    proof {
        if i < n {
            chunk_bounds(len as nat, chunk as nat, i);
        }
    }
    Ok(out)
}

} // verus!
