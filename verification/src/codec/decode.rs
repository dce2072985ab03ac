//! From bytes to a header.
//!
//! A receiver does not look at reserved flags, the padding byte and the
//! reserved bytes of an address, and skips extension headers of a type that it
//! does not know.

use vstd::prelude::*;
use crate::codec::encode;
use crate::codec::flags;
use crate::codec::header;
use crate::codec::header::{ExtType, ExtensionHeader, Flags, IPv8Header};
use crate::codec::header::{BASE_HEADER_SIZE, MAX_EXT_CHAIN, MAX_PACKET_LEN, MAX_PAYLOAD_LEN, VERSION};
use crate::codec::laws;
use crate::wire;

verus! {

/// Why bytes are not a packet.
#[derive(Debug, Clone, PartialEq, Eq, Structural)]
pub enum DecodeError {
    /// Fewer bytes than a base header.
    TooShort(usize),
    BadVersion(u8),
    PayloadTooLong(u16),
    /// PayloadLen goes past the end of the buffer.
    PayloadBeyondBuffer { need: usize, have: usize },
    /// Headers and payload exceed the greatest packet.
    PacketTooLong,
    /// The extension chain is cut off.
    ExtHeaderTruncated,
    TooManyExtHeaders,
    /// A length field of zero.
    ExtLenZero,
    /// A type occurs twice in the chain.
    ExtChainCycle,
    /// The extension mark does not match the chain.
    FlagMismatch,
}

/// A decoded packet; the payload borrows from the buffer.
#[derive(Debug, PartialEq, Eq)]
pub struct Decoded<'a> {
    pub header: IPv8Header,
    pub payload: &'a [u8],
}

/// A decoded packet as a mathematical value.
pub ghost struct Packet {
    pub header: header::HeaderView,
    pub payload: Seq<u8>,
}

impl<'a> View for Decoded<'a> {
    type V = Packet;

    open spec fn view(&self) -> Packet {
        Packet { header: self.header@, payload: self.payload@ }
    }
}

/// The rest of an extension chain, from a header of type `ty` at index `at`
/// on, with the index where it ends. `seen` holds the types before it.
pub open spec fn parse_chain(buf: Seq<u8>, at: int, ty: u8, seen: Seq<u8>) -> Result<(Seq<header::ExtView>, int), DecodeError>
    decreases MAX_EXT_CHAIN - seen.len(),
{
    let end = at + 2 + buf[at + 1] * 8;
    if seen.contains(ty) {
        Err(DecodeError::ExtChainCycle)
    } else if at + 2 > buf.len() {
        Err(DecodeError::ExtHeaderTruncated)
    } else if buf[at + 1] == 0 {
        Err(DecodeError::ExtLenZero)
    } else if end > buf.len() {
        Err(DecodeError::ExtHeaderTruncated)
    } else if seen.len() >= MAX_EXT_CHAIN {
        Err(DecodeError::TooManyExtHeaders)
    } else {
        let ext = header::ExtView { ext_type: ExtType::of_number(ty), payload: buf.subrange(at + 2, end) };
        if buf[at] == 0 {
            Ok((seq![ext], end))
        } else {
            prepend(seq![ext], parse_chain(buf, end, buf[at], seen.push(ty)))
        }
    }
}

/// A chain with more headers before it.
pub open spec fn prepend(front: Seq<header::ExtView>, rest: Result<(Seq<header::ExtView>, int), DecodeError>) -> Result<
    (Seq<header::ExtView>, int),
    DecodeError,
> {
    match rest {
        Ok((exts, end)) => Ok((front + exts, end)),
        Err(e) => Err(e),
    }
}

/// The whole extension chain of a packet, with the index where it ends.
pub open spec fn parse_exts(buf: Seq<u8>) -> Result<(Seq<header::ExtView>, int), DecodeError> {
    if buf[6] == 0 {
        Ok((Seq::empty(), BASE_HEADER_SIZE as int))
    } else {
        parse_chain(buf, BASE_HEADER_SIZE as int, buf[6], Seq::empty())
    }
}

/// The header that the base header and a chain make up.
pub open spec fn header_of(buf: Seq<u8>, exts: Seq<header::ExtView>) -> header::HeaderView {
    header::HeaderView {
        version: buf[0] / 16,
        min_compat_ver: buf[0] % 16,
        flags: wire::be16_at(buf, 1),
        payload_len: wire::be16_at(buf, 3),
        hop_limit: buf[5],
        next_header: buf[6],
        src: header::address_of_wire(buf.subrange(7, 23)),
        dst: header::address_of_wire(buf.subrange(23, 39)),
        exts,
    }
}

/// What bytes stand for: a packet, or the reason why they are none.
pub open spec fn parse(buf: Seq<u8>) -> Result<Packet, DecodeError> {
    if buf.len() < BASE_HEADER_SIZE {
        Err(DecodeError::TooShort(buf.len() as usize))
    } else if buf[0] / 16 != VERSION {
        Err(DecodeError::BadVersion(buf[0] / 16))
    } else if wire::be16_at(buf, 3) > MAX_PAYLOAD_LEN {
        Err(DecodeError::PayloadTooLong(wire::be16_at(buf, 3)))
    } else {
        match parse_exts(buf) {
            Err(e) => Err(e),
            Ok((exts, end)) => {
                let h = header_of(buf, exts);
                if (h.flags & flags::HAS_EXTENSION != 0) != (exts.len() != 0) {
                    Err(DecodeError::FlagMismatch)
                } else if end + h.payload_len > buf.len() {
                    Err(DecodeError::PayloadBeyondBuffer { need: h.payload_len as usize, have: (buf.len() - end) as usize })
                } else if end + h.payload_len > MAX_PACKET_LEN {
                    Err(DecodeError::PacketTooLong)
                } else {
                    Ok(Packet { header: h, payload: buf.subrange(end, end + h.payload_len) })
                }
            },
        }
    }
}

/// Whether `ty` is among `seen`.
fn has_seen(seen: &Vec<u8>, ty: u8) -> (r: bool)
    ensures
        r == seen@.contains(ty),
{
    let mut i: usize = 0;
    while i < seen.len()
        invariant
            i <= seen.len(),
            forall|j: int| 0 <= j < i ==> seen@[j] != ty,
        decreases seen.len() - i,
    {
        if seen[i] == ty {
            return true;
        }
        i = i + 1;
    }
    false
}

/// Reads an extension chain that begins with type `first` after the base
/// header; gives the headers and the index where the chain ends.
fn decode_chain(buf: &[u8], first: u8) -> (r: Result<(Vec<ExtensionHeader>, usize), DecodeError>)
    requires
        buf.len() >= BASE_HEADER_SIZE,
    ensures
        match r {
            Ok((exts, end)) => {
                &&& parse_chain(buf@, BASE_HEADER_SIZE as int, first, Seq::empty()) == Ok::<
                    (Seq<header::ExtView>, int),
                    DecodeError,
                >((header::ext_views(exts@), end as int))
                &&& BASE_HEADER_SIZE <= end <= buf.len()
                &&& exts@.len() > 0
            },
            Err(e) => parse_chain(buf@, BASE_HEADER_SIZE as int, first, Seq::empty()) == Err::<
                (Seq<header::ExtView>, int),
                DecodeError,
            >(e),
        },
{
    let ghost whole = parse_chain(buf@, BASE_HEADER_SIZE as int, first, Seq::empty());
    let mut exts: Vec<ExtensionHeader> = Vec::new();
    let mut seen: Vec<u8> = Vec::new();
    let mut cur_type: u8 = first;
    let mut cursor: usize = BASE_HEADER_SIZE;
    assert(whole == prepend(header::ext_views(exts@), parse_chain(buf@, cursor as int, cur_type, seen@))) by {
        assert(seen@ =~= Seq::empty());
        match whole {
            Ok((x, _)) => {
                assert(header::ext_views(exts@) + x =~= x);
            },
            Err(_) => {},
        }
    }
    loop
        invariant
            whole == parse_chain(buf@, BASE_HEADER_SIZE as int, first, Seq::empty()),
            whole == prepend(header::ext_views(exts@), parse_chain(buf@, cursor as int, cur_type, seen@)),
            BASE_HEADER_SIZE <= cursor <= buf.len(),
            seen@.len() <= MAX_EXT_CHAIN,
        decreases MAX_EXT_CHAIN - seen@.len(),
    {
        if has_seen(&seen, cur_type) {
            return Err(DecodeError::ExtChainCycle);
        }
        if buf.len() - cursor < 2 {
            return Err(DecodeError::ExtHeaderTruncated);
        }
        let next: u8 = buf[cursor];
        let ext_len: u8 = buf[cursor + 1];
        if ext_len == 0 {
            return Err(DecodeError::ExtLenZero);
        }
        let plen: usize = ext_len as usize * 8;
        if buf.len() - cursor - 2 < plen {
            return Err(DecodeError::ExtHeaderTruncated);
        }
        if seen.len() >= MAX_EXT_CHAIN {
            return Err(DecodeError::TooManyExtHeaders);
        }
        let end: usize = cursor + 2 + plen;
        let payload = wire::copy_range(buf, cursor + 2, end);
        let ghost before = header::ext_views(exts@);
        let ghost ext = header::ExtView { ext_type: ExtType::of_number(cur_type), payload: buf@.subrange(cursor + 2, end as int) };
        exts.push(ExtensionHeader { ext_type: ExtType::from_u8(cur_type), payload });
        assert(header::ext_views(exts@) =~= before + seq![ext]);
        if next == 0 {
            return Ok((exts, end));
        }
        proof {
            match parse_chain(buf@, end as int, next, seen@.push(cur_type)) {
                Ok((x, _)) => {
                    assert(before + (seq![ext] + x) =~= header::ext_views(exts@) + x);
                },
                Err(_) => {},
            }
        }
        seen.push(cur_type);
        cursor = end;
        cur_type = next;
    }
}

/// Reads a packet at the start of a buffer.
pub fn decode(buf: &[u8]) -> (r: Result<Decoded<'_>, DecodeError>)
    ensures
        match r {
            Ok(d) => parse(buf@) == Ok::<Packet, DecodeError>(d@) && d@.header.readable(),
            Err(e) => parse(buf@) == Err::<Packet, DecodeError>(e),
        },
{
    if buf.len() < BASE_HEADER_SIZE {
        return Err(DecodeError::TooShort(buf.len()));
    }
    let version: u8 = buf[0] / 16;
    let min_compat_ver: u8 = buf[0] % 16;
    if version != VERSION {
        return Err(DecodeError::BadVersion(version));
    }
    let flags: u16 = wire::get_be16(buf, 1);
    let payload_len: u16 = wire::get_be16(buf, 3);
    if payload_len > MAX_PAYLOAD_LEN {
        return Err(DecodeError::PayloadTooLong(payload_len));
    }
    let hop_limit: u8 = buf[5];
    let next_header: u8 = buf[6];
    let src_addr = header::read_address(vstd::slice::slice_subrange(buf, 7, 23));
    let dst_addr = header::read_address(vstd::slice::slice_subrange(buf, 23, 39));
    let (ext_headers, cursor): (Vec<ExtensionHeader>, usize) = if next_header != 0 {
        match decode_chain(buf, next_header) {
            Ok((exts, end)) => (exts, end),
            Err(e) => {
                return Err(e);
            },
        }
    } else {
        (Vec::new(), BASE_HEADER_SIZE)
    };
    assert(parse_exts(buf@) == Ok::<(Seq<header::ExtView>, int), DecodeError>(
        (header::ext_views(ext_headers@), cursor as int),
    )) by {
        if next_header == 0 {
            assert(header::ext_views(ext_headers@) =~= Seq::empty());
        }
    }
    if Flags::has_extension(flags) != (ext_headers.len() != 0) {
        return Err(DecodeError::FlagMismatch);
    }
    let have: usize = buf.len() - cursor;
    if payload_len as usize > have {
        return Err(DecodeError::PayloadBeyondBuffer { need: payload_len as usize, have });
    }
    if cursor + payload_len as usize > MAX_PACKET_LEN {
        return Err(DecodeError::PacketTooLong);
    }
    let payload = vstd::slice::slice_subrange(buf, cursor, cursor + payload_len as usize);
    let header = IPv8Header {
        version,
        min_compat_ver,
        flags,
        payload_len,
        hop_limit,
        next_header,
        src_addr,
        dst_addr,
        ext_headers,
    };
    proof {
        laws::decoded_is_sound(buf@);
    }
    Ok(Decoded { header, payload })
}

} // verus!
