//! From a header to bytes.

use vstd::prelude::*;
use crate::codec::flags;
use crate::codec::header;
use crate::codec::header::{ExtType, ExtensionHeader, Flags, IPv8Header};
use crate::codec::header::{BASE_HEADER_SIZE, MAX_EXT_CHAIN, MAX_PACKET_LEN, MAX_PAYLOAD_LEN, VERSION};
use crate::wire;

verus! {

/// Why a header cannot be written.
#[derive(Debug, Clone, PartialEq, Eq)]
pub enum EncodeError {
    BadVersion(u8),
    /// A field does not fit its bits.
    FieldOverflow(&'static str),
    /// A reserved flag is set.
    ReservedBits,
    PayloadTooLong(u16),
    /// PayloadLen is not the length of the payload.
    PayloadLengthMismatch { header: usize, actual: usize },
    TooManyExtHeaders(usize),
    /// Headers and payload exceed the greatest packet.
    PacketTooLong,
    /// The pointer is not the type of the first extension header.
    NextHeaderMismatch { expect: u8, got: u8 },
    /// A mark does not match the extension chain.
    FlagMismatch(&'static str),
    /// The reserved bytes of an address are not zero.
    AddressReserved,
}

/// Bytes that the first `n` headers of a chain take.
pub open spec fn chain_size(exts: Seq<header::ExtView>, n: nat) -> nat
    decreases n,
{
    if n == 0 {
        0
    } else {
        chain_size(exts, (n - 1) as nat) + exts[n - 1].size()
    }
}

/// One extension header on the wire: the type of the one that follows it (0
/// at the end), its length in units of 8 bytes, its payload.
pub open spec fn ext_wire(exts: Seq<header::ExtView>, i: int) -> Seq<u8> {
    let next = if i + 1 < exts.len() {
        exts[i + 1].ext_type.number()
    } else {
        0
    };
    seq![next, (exts[i].payload.len() / 8 % 256) as u8] + exts[i].payload
}

/// The first `n` headers of a chain on the wire.
pub open spec fn chain_wire(exts: Seq<header::ExtView>, n: nat) -> Seq<u8>
    decreases n,
{
    if n == 0 {
        Seq::empty()
    } else {
        chain_wire(exts, (n - 1) as nat) + ext_wire(exts, n - 1)
    }
}

/// The first seven bytes of a header.
pub open spec fn fixed_wire(h: header::HeaderView) -> Seq<u8> {
    seq![(VERSION * 16 + h.min_compat_ver) as u8] + wire::be16(h.flags) + wire::be16(h.payload_len) + seq![
        h.hop_limit,
        h.next_header,
    ]
}

/// The 40 bytes of a base header.
pub open spec fn base_wire(h: header::HeaderView) -> Seq<u8> {
    fixed_wire(h) + h.src.wire() + h.dst.wire() + seq![0u8]
}

/// A header with its chain, on the wire.
pub open spec fn header_wire(h: header::HeaderView) -> Seq<u8> {
    base_wire(h) + chain_wire(h.exts, h.exts.len())
}

/// Why a header cannot be written, in the order in which the reasons are
/// looked for; `None` where it can.
pub open spec fn encode_error(h: header::HeaderView) -> Option<EncodeError> {
    if h.version != VERSION {
        Some(EncodeError::BadVersion(h.version))
    } else if h.min_compat_ver > 15 {
        Some(EncodeError::FieldOverflow("min_compat_ver"))
    } else if h.flags & flags::RESERVED_MASK != 0 {
        Some(EncodeError::ReservedBits)
    } else if h.payload_len > MAX_PAYLOAD_LEN {
        Some(EncodeError::PayloadTooLong(h.payload_len))
    } else if h.exts.len() > MAX_EXT_CHAIN {
        Some(EncodeError::TooManyExtHeaders(h.exts.len() as usize))
    } else if BASE_HEADER_SIZE + chain_size(h.exts, h.exts.len()) + h.payload_len > MAX_PACKET_LEN {
        Some(EncodeError::PacketTooLong)
    } else if h.next_header != header::first_type(h.exts) {
        Some(EncodeError::NextHeaderMismatch { expect: header::first_type(h.exts), got: h.next_header })
    } else if (h.flags & flags::HAS_EXTENSION != 0) != (h.exts.len() != 0) {
        Some(EncodeError::FlagMismatch("HAS_EXTENSION"))
    } else if !h.src.wf() || !h.dst.wf() {
        Some(EncodeError::AddressReserved)
    } else {
        None
    }
}

/// What a refused header leaves behind in the output: nothing, or, where an
/// address was at fault, the 40 bytes of the base header with zeros from the
/// first such address on.
pub open spec fn refused_wire(h: header::HeaderView) -> Seq<u8> {
    if encode_error(h) == Some(EncodeError::AddressReserved) {
        if h.src.wf() {
            fixed_wire(h) + h.src.wire() + wire::zeros(17)
        } else {
            fixed_wire(h) + wire::zeros(33)
        }
    } else {
        Seq::empty()
    }
}

/// Why a header and a payload cannot be written as a packet.
pub open spec fn packet_error(h: header::HeaderView, payload: Seq<u8>) -> Option<EncodeError> {
    if payload.len() != h.payload_len {
        Some(EncodeError::PayloadLengthMismatch { header: h.payload_len as usize, actual: payload.len() as usize })
    } else {
        encode_error(h)
    }
}

/// The wire bytes of a chain are as many as its size.
pub proof fn chain_wire_len(exts: Seq<header::ExtView>, n: nat)
    ensures
        chain_wire(exts, n).len() == chain_size(exts, n),
    decreases n,
{
    if n > 0 {
        chain_wire_len(exts, (n - 1) as nat);
    }
}

/// A longer part of a chain is no smaller.
pub proof fn chain_size_monotonic(exts: Seq<header::ExtView>, m: nat, n: nat)
    requires
        m <= n,
    ensures
        chain_size(exts, m) <= chain_size(exts, n),
    decreases n,
{
    if m < n {
        chain_size_monotonic(exts, m, (n - 1) as nat);
    }
}

/// A header takes 40 bytes and those of its chain.
pub proof fn header_wire_len(h: header::HeaderView)
    ensures
        base_wire(h).len() == BASE_HEADER_SIZE,
        header_wire(h).len() == BASE_HEADER_SIZE + chain_size(h.exts, h.exts.len()),
{
    header::address_wire_len(h.src);
    header::address_wire_len(h.dst);
    chain_wire_len(h.exts, h.exts.len());
}

/// The bytes that a chain takes on the wire, where they are at most `limit`.
pub fn chain_size_within(exts: &Vec<ExtensionHeader>, limit: usize) -> (r: Option<usize>)
    ensures
        match r {
            Some(n) => n == chain_size(header::ext_views(exts@), exts@.len()) && n <= limit,
            None => chain_size(header::ext_views(exts@), exts@.len()) > limit,
        },
{
    let ghost views = header::ext_views(exts@);
    let mut total: usize = 0;
    let mut i: usize = 0;
    while i < exts.len()
        invariant
            i <= exts.len(),
            views == header::ext_views(exts@),
            total == chain_size(views, i as nat),
            total <= limit,
        decreases exts.len() - i,
    {
        let n: usize = exts[i].payload.len();
        assert(views[i as int] == exts@[i as int]@);
        assert(chain_size(views, (i + 1) as nat) == total + 2 + n);
        let left: usize = limit - total;
        if left < 2 || n > left - 2 {
            proof {
                chain_size_monotonic(views, (i + 1) as nat, exts@.len());
            }
            return None;
        }
        total = total + 2 + n;
        i = i + 1;
    }
    Some(total)
}

/// Appends the base header and the extension chain, with the pointers of the
/// chain set, and gives the number of bytes.
pub fn encode_header(hdr: &IPv8Header, out: &mut Vec<u8>) -> (r: Result<usize, EncodeError>)
    ensures
        match r {
            Ok(n) => {
                &&& encode_error(hdr@) is None
                &&& final(out)@ == old(out)@ + header_wire(hdr@)
                &&& n == header_wire(hdr@).len()
            },
            Err(e) => {
                &&& encode_error(hdr@) == Some(e)
                &&& final(out)@ == old(out)@ + refused_wire(hdr@)
            },
        },
{
    proof {
        assert(old(out)@ + Seq::<u8>::empty() =~= old(out)@);
    }
    if hdr.version != VERSION {
        return Err(EncodeError::BadVersion(hdr.version));
    }
    if hdr.min_compat_ver > 15 {
        return Err(EncodeError::FieldOverflow("min_compat_ver"));
    }
    if !Flags::reserved_ok(hdr.flags) {
        return Err(EncodeError::ReservedBits);
    }
    if hdr.payload_len > MAX_PAYLOAD_LEN {
        return Err(EncodeError::PayloadTooLong(hdr.payload_len));
    }
    if hdr.ext_headers.len() > MAX_EXT_CHAIN {
        return Err(EncodeError::TooManyExtHeaders(hdr.ext_headers.len()));
    }
    let limit: usize = MAX_PACKET_LEN - BASE_HEADER_SIZE - hdr.payload_len as usize;
    let total: usize = match chain_size_within(&hdr.ext_headers, limit) {
        Some(n) => n,
        None => {
            return Err(EncodeError::PacketTooLong);
        },
    };
    let first: u8 = if hdr.ext_headers.len() == 0 {
        0
    } else {
        hdr.ext_headers[0].ext_type.wire()
    };
    if hdr.next_header != first {
        return Err(EncodeError::NextHeaderMismatch { expect: first, got: hdr.next_header });
    }
    if Flags::has_extension(hdr.flags) != (hdr.ext_headers.len() != 0) {
        return Err(EncodeError::FlagMismatch("HAS_EXTENSION"));
    }
    out.push(VERSION * 16 + hdr.min_compat_ver);
    wire::put_be16(out, hdr.flags);
    wire::put_be16(out, hdr.payload_len);
    out.push(hdr.hop_limit);
    out.push(hdr.next_header);
    assert(out@ =~= old(out)@ + fixed_wire(hdr@));
    if !hdr.src_addr.write_to(out) {
        wire::put_zeros(out, 33);
        assert(out@ =~= old(out)@ + refused_wire(hdr@));
        return Err(EncodeError::AddressReserved);
    }
    if !hdr.dst_addr.write_to(out) {
        wire::put_zeros(out, 17);
        assert(out@ =~= old(out)@ + refused_wire(hdr@));
        return Err(EncodeError::AddressReserved);
    }
    out.push(0);
    assert(out@ =~= old(out)@ + base_wire(hdr@));
    put_chain(out, &hdr.ext_headers);
    proof {
        assert(out@ =~= old(out)@ + header_wire(hdr@));
        header_wire_len(hdr@);
    }
    Ok(BASE_HEADER_SIZE + total)
}

/// Appends a chain: each header points to the type of the next one.
fn put_chain(out: &mut Vec<u8>, exts: &Vec<ExtensionHeader>)
    ensures
        final(out)@ == old(out)@ + chain_wire(header::ext_views(exts@), exts@.len()),
{
    let ghost views = header::ext_views(exts@);
    assert(out@ =~= old(out)@ + chain_wire(views, 0));
    let mut i: usize = 0;
    while i < exts.len()
        invariant
            i <= exts.len(),
            views == header::ext_views(exts@),
            out@ == old(out)@ + chain_wire(views, i as nat),
        decreases exts.len() - i,
    {
        let ghost before = out@;
        let next: u8 = if exts.len() - i > 1 {
            exts[i + 1].ext_type.wire()
        } else {
            ExtType::End.wire()
        };
        out.push(next);
        out.push(exts[i].ext_len());
        wire::put_bytes(out, exts[i].payload.as_slice());
        i = i + 1;
        proof {
            assert(views[i - 1] == exts@[i - 1]@);
            assert(out@ =~= before + ext_wire(views, i - 1));
            assert(out@ =~= old(out)@ + chain_wire(views, i as nat));
        }
    }
}

/// The packet of a header and a payload.
pub fn encode(hdr: &IPv8Header, payload: &[u8]) -> (r: Result<Vec<u8>, EncodeError>)
    ensures
        match r {
            Ok(p) => packet_error(hdr@, payload@) is None && p@ == header_wire(hdr@) + payload@,
            Err(e) => packet_error(hdr@, payload@) == Some(e),
        },
{
    if payload.len() != hdr.payload_len as usize {
        return Err(EncodeError::PayloadLengthMismatch { header: hdr.payload_len as usize, actual: payload.len() });
    }
    let mut out: Vec<u8> = Vec::new();
    match encode_header(hdr, &mut out) {
        Ok(_) => {},
        Err(e) => {
            return Err(e);
        },
    }
    wire::put_bytes(&mut out, payload);
    assert(out@ =~= header_wire(hdr@) + payload@);
    Ok(out)
}

} // verus!
