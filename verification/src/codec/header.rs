//! Addresses, extension headers and the 40-byte base header.

use vstd::prelude::*;
use crate::codec::flags;
use crate::text;
use crate::wire;

verus! {

/// Length of the base header in bytes.
pub const BASE_HEADER_SIZE: usize = 40;

/// Upper bound of PayloadLen: 65535 less the IPv4 header (20), the UDP header
/// (8) and the base header (40).
pub const MAX_PAYLOAD_LEN: u16 = 65467;

/// Upper bound of a whole packet: 65535 less the IPv4 and UDP headers.
pub const MAX_PACKET_LEN: usize = 65507;

/// Protocol version.
pub const VERSION: u8 = 0x8;

/// Greatest number of extension headers in a chain.
pub const MAX_EXT_CHAIN: usize = 64;

/// An IPv8+ address of 128 bits.
///
/// On the wire, big-endian: ASN (0-3), HostID (4-7), DeviceID (8-9), CapTag
/// (10-11), SecLevel (12) and three reserved bytes (13-15), which are zero.
#[derive(Debug, Clone, Copy, PartialEq, Eq, Hash)]
pub struct IPv8Address {
    pub asn: u32,
    pub host_id: u32,
    pub device_id: u16,
    pub cap_tag: u16,
    pub sec_level: u8,
    pub reserved: [u8; 3],
}

/// The address with these fields and zero reserved bytes.
pub open spec fn address(asn: u32, host_id: u32, device_id: u16, cap_tag: u16, sec_level: u8) -> IPv8Address {
    IPv8Address { asn, host_id, device_id, cap_tag, sec_level, reserved: [0u8, 0u8, 0u8] }
}

/// The address that 16 wire bytes stand for; the reserved bytes are not read.
pub open spec fn address_of_wire(b: Seq<u8>) -> IPv8Address {
    address(wire::be32_at(b, 0), wire::be32_at(b, 4), wire::be16_at(b, 8), wire::be16_at(b, 10), b[12])
}

/// What a canonical text stands for: 32 hexadecimal digits in either case, no
/// separators, the last six of them zero.
pub open spec fn address_of_text(t: Seq<char>) -> Result<IPv8Address, AddrParseError> {
    if t.len() != 32 || !text::all_hex(t) {
        Err(AddrParseError::Format)
    } else {
        let b = text::hex_bytes(t);
        if b.subrange(13, 16) != wire::zeros(3) {
            Err(AddrParseError::ReservedNonZero)
        } else {
            Ok(address_of_wire(b))
        }
    }
}

impl IPv8Address {
    /// Number of bytes of an address on the wire.
    pub const WIRE_SIZE: usize = 16;

    /// Whether the reserved bytes are zero, as every constructor leaves them.
    pub open spec fn wf(self) -> bool {
        self.reserved@ == seq![0u8, 0u8, 0u8]
    }

    /// The 16 bytes of a well-formed address on the wire.
    pub open spec fn wire(self) -> Seq<u8> {
        wire::be32(self.asn) + wire::be32(self.host_id) + wire::be16(self.device_id) + wire::be16(self.cap_tag)
            + seq![self.sec_level] + wire::zeros(3)
    }

    /// The bytes that [`IPv8Address::to_bytes`] gives: all zero where the
    /// reserved bytes are not.
    pub open spec fn bytes(self) -> Seq<u8> {
        if self.wf() {
            self.wire()
        } else {
            wire::zeros(16)
        }
    }

    /// The address with these fields. The reserved bytes are zero.
    pub fn new(asn: u32, host_id: u32, device_id: u16, cap_tag: u16, sec_level: u8) -> (a: Self)
        ensures
            a == address(asn, host_id, device_id, cap_tag, sec_level),
            a.wf(),
    {
        let a = IPv8Address { asn, host_id, device_id, cap_tag, sec_level, reserved: [0, 0, 0] };
        assert(a.reserved@ =~= seq![0u8, 0u8, 0u8]);
        a
    }

    /// The canonical text: the 16 bytes as 32 lower-case hexadecimal digits.
    pub fn to_canonical_string(&self) -> (s: String)
        ensures
            s@ == text::hex_text(self.bytes()),
    {
        let b = self.to_bytes();
        text::hex_string(b.as_slice())
    }

    /// The 16 wire bytes.
    pub fn to_bytes(&self) -> (b: [u8; 16])
        ensures
            b@ == self.bytes(),
    {
        let mut v: Vec<u8> = Vec::new();
        if !self.write_to(&mut v) {
            wire::put_zeros(&mut v, 16);
        }
        proof {
            address_wire_len(*self);
            assert(v@ =~= self.bytes());
        }
        wire::array16(v.as_slice())
    }

    /// Parses a canonical text, in either case.
    pub fn from_canonical_str(s: &str) -> (r: Result<Self, AddrParseError>)
        ensures
            r == address_of_text(s@),
    {
        let b = match text::unhex(s) {
            Some(b) => b,
            None => {
                return Err(AddrParseError::Format);
            },
        };
        if b.len() != 16 {
            return Err(AddrParseError::Format);
        }
        if b[13] != 0 || b[14] != 0 || b[15] != 0 {
            proof {
                let z = b@.subrange(13, 16);
                assert(z[0] == b@[13] && z[1] == b@[14] && z[2] == b@[15]);
                assert(z != wire::zeros(3)) by {
                    assert(wire::zeros(3)[0] == 0 && wire::zeros(3)[1] == 0 && wire::zeros(3)[2] == 0);
                }
            }
            return Err(AddrParseError::ReservedNonZero);
        }
        assert(b@.subrange(13, 16) =~= wire::zeros(3));
        Ok(read_address(b.as_slice()))
    }

    /// Appends the 16 wire bytes and gives `true`, or gives `false` and
    /// leaves `out` as it is where the reserved bytes are not zero.
    pub fn write_to(&self, out: &mut Vec<u8>) -> (ok: bool)
        ensures
            ok == self.wf(),
            final(out)@ == if ok {
                old(out)@ + self.wire()
            } else {
                old(out)@
            },
    {
        if self.reserved[0] != 0 || self.reserved[1] != 0 || self.reserved[2] != 0 {
            return false;
        }
        assert(self.reserved@ =~= seq![0u8, 0u8, 0u8]);
        wire::put_be32(out, self.asn);
        wire::put_be32(out, self.host_id);
        wire::put_be16(out, self.device_id);
        wire::put_be16(out, self.cap_tag);
        out.push(self.sec_level);
        wire::put_zeros(out, 3);
        assert(out@ =~= old(out)@ + self.wire());
        true
    }
}

/// Reads an address from 16 wire bytes, whatever the reserved ones hold.
pub fn read_address(b: &[u8]) -> (a: IPv8Address)
    requires
        b.len() >= 16,
    ensures
        a == address_of_wire(b@),
        a.wf(),
{
    IPv8Address::new(wire::get_be32(b, 0), wire::get_be32(b, 4), wire::get_be16(b, 8), wire::get_be16(b, 10), b[12])
}

/// Whether two addresses are the same.
pub fn same_address(a: &IPv8Address, b: &IPv8Address) -> (r: bool)
    ensures
        r == (a == b),
{
    let r = a.asn == b.asn && a.host_id == b.host_id && a.device_id == b.device_id && a.cap_tag == b.cap_tag
        && a.sec_level == b.sec_level && a.reserved[0] == b.reserved[0] && a.reserved[1] == b.reserved[1]
        && a.reserved[2] == b.reserved[2];
    proof {
        if r {
            assert(a.reserved =~= b.reserved);
        }
    }
    r
}

/// An address takes 16 bytes on the wire.
pub proof fn address_wire_len(a: IPv8Address)
    ensures
        a.wire().len() == 16,
        a.bytes().len() == 16,
{
}

/// The last three wire bytes are zero.
pub proof fn address_wire_tail(a: IPv8Address)
    ensures
        a.wire().subrange(13, 16) == wire::zeros(3),
{
    assert(a.wire().subrange(13, 16) =~= wire::zeros(3));
}

/// The wire bytes of a well-formed address stand for it.
pub proof fn address_wire_round_trip(a: IPv8Address)
    requires
        a.wf(),
    ensures
        address_of_wire(a.wire()) == a,
{
    let w = a.wire();
    assert(w.subrange(0, 4) =~= wire::be32(a.asn));
    assert(w.subrange(4, 8) =~= wire::be32(a.host_id));
    assert(w.subrange(8, 10) =~= wire::be16(a.device_id));
    assert(w.subrange(10, 12) =~= wire::be16(a.cap_tag));
    wire::be32_round_trip(a.asn, w, 0);
    wire::be32_round_trip(a.host_id, w, 4);
    wire::be16_round_trip(a.device_id, w, 8);
    wire::be16_round_trip(a.cap_tag, w, 10);
    assert(a.reserved =~= [0u8, 0u8, 0u8]);
}

/// Sixteen bytes whose reserved ones are zero are the wire bytes of the
/// address that they stand for.
pub proof fn address_of_wire_bytes(b: Seq<u8>)
    requires
        b.len() == 16,
        b.subrange(13, 16) == wire::zeros(3),
    ensures
        address_of_wire(b).wf(),
        address_of_wire(b).wire() == b,
{
    wire::be32_at_bytes(b, 0);
    wire::be32_at_bytes(b, 4);
    wire::be16_at_bytes(b, 8);
    wire::be16_at_bytes(b, 10);
    let a = address_of_wire(b);
    assert(a.reserved@ =~= seq![0u8, 0u8, 0u8]);
    assert(a.wire() =~= b.subrange(0, 4) + b.subrange(4, 8) + b.subrange(8, 10) + b.subrange(10, 12) + seq![b[12]]
        + b.subrange(13, 16));
    assert(a.wire() =~= b);
}

/// Different well-formed addresses have different wire bytes.
pub proof fn address_wire_injective(a: IPv8Address, b: IPv8Address)
    requires
        a.wf(),
        b.wf(),
        a.wire() == b.wire(),
    ensures
        a == b,
{
    address_wire_round_trip(a);
    address_wire_round_trip(b);
}

/// The canonical text of a well-formed address, in upper or lower case or any
/// mix of both, parses to that address.
pub proof fn address_text_round_trip(a: IPv8Address, t: Seq<char>)
    requires
        a.wf(),
        text::same_ignoring_case(t, text::hex_text(a.bytes())),
    ensures
        address_of_text(t) == Ok::<IPv8Address, AddrParseError>(a),
{
    text::hex_round_trip(a.wire(), t);
    address_wire_len(a);
    let b = text::hex_bytes(t);
    assert(b == a.wire());
    assert(address_of_wire(b) == a) by {
        address_wire_round_trip(a);
    }
    assert(b.subrange(13, 16) == wire::zeros(3)) by {
        address_wire_tail(a);
    }
}

/// Why a text is not an address.
#[derive(Debug, Clone, Copy, PartialEq, Eq, Structural)]
pub enum AddrParseError {
    /// Not 32 hexadecimal digits.
    Format,
    /// A reserved digit is not zero.
    ReservedNonZero,
}

/// The same as [`IPv8Address::from_canonical_str`].
impl core::str::FromStr for IPv8Address {
    type Err = AddrParseError;

    fn from_str(s: &str) -> Result<Self, Self::Err> {
        IPv8Address::from_canonical_str(s)
    }
}

/// Questions about the Flags field.
pub struct Flags;

impl Flags {
    /// The QoS level, bits 0-3.
    pub fn qos_level(flags: u16) -> (r: u8)
        ensures
            r == flags % 16,
    {
        (flags % 16) as u8
    }

    /// Whether the payload is encrypted.
    pub fn is_encrypted(flags: u16) -> (r: bool)
        ensures
            r == (flags & flags::ENCRYPTED != 0),
    {
        flags & flags::ENCRYPTED != 0
    }

    /// Whether the packet is a fragment.
    pub fn is_fragment(flags: u16) -> (r: bool)
        ensures
            r == (flags & flags::FRAGMENT != 0),
    {
        flags & flags::FRAGMENT != 0
    }

    /// Whether an extension chain is present.
    pub fn has_extension(flags: u16) -> (r: bool)
        ensures
            r == (flags & flags::HAS_EXTENSION != 0),
    {
        flags & flags::HAS_EXTENSION != 0
    }

    /// Whether the reserved bits are zero.
    pub fn reserved_ok(flags: u16) -> (r: bool)
        ensures
            r == (flags & flags::RESERVED_MASK == 0),
    {
        flags & flags::RESERVED_MASK == 0
    }
}

/// The type of an extension header: numbers 1-6 are assigned, 0 ends a chain.
#[derive(Debug, Clone, Copy, PartialEq, Eq, Structural)]
pub enum ExtType {
    /// No header: the end of a chain.
    End,
    /// Identity token.
    IdentityToken,
    /// Capability tags.
    SemanticTag,
    /// Resource reservation.
    QoSReservation,
    /// Agent card digest.
    AgentCard,
    /// Source route with a path signature.
    RouteTrace,
    /// Fragment information.
    Fragment,
    /// Any other number; a receiver skips such a header by its length.
    Unknown(u8),
}

impl ExtType {
    /// The number of a type on the wire.
    pub open spec fn number(self) -> u8 {
        match self {
            ExtType::End => 0,
            ExtType::IdentityToken => 1,
            ExtType::SemanticTag => 2,
            ExtType::QoSReservation => 3,
            ExtType::AgentCard => 4,
            ExtType::RouteTrace => 5,
            ExtType::Fragment => 6,
            ExtType::Unknown(v) => v,
        }
    }

    /// The type of a number.
    pub open spec fn of_number(v: u8) -> ExtType {
        if v == 0 {
            ExtType::End
        } else if v == 1 {
            ExtType::IdentityToken
        } else if v == 2 {
            ExtType::SemanticTag
        } else if v == 3 {
            ExtType::QoSReservation
        } else if v == 4 {
            ExtType::AgentCard
        } else if v == 5 {
            ExtType::RouteTrace
        } else if v == 6 {
            ExtType::Fragment
        } else {
            ExtType::Unknown(v)
        }
    }

    /// Whether this is the value that [`ExtType::from_u8`] gives for its number.
    pub open spec fn canonical(self) -> bool {
        ExtType::of_number(self.number()) == self
    }

    /// The number of this type on the wire.
    pub fn wire(self) -> (v: u8)
        ensures
            v == self.number(),
    {
        match self {
            ExtType::End => 0,
            ExtType::IdentityToken => 1,
            ExtType::SemanticTag => 2,
            ExtType::QoSReservation => 3,
            ExtType::AgentCard => 4,
            ExtType::RouteTrace => 5,
            ExtType::Fragment => 6,
            ExtType::Unknown(v) => v,
        }
    }

    /// The type of a number. Numbers that are not assigned give `Unknown`.
    pub fn from_u8(v: u8) -> (t: Self)
        ensures
            t == ExtType::of_number(v),
            t.number() == v,
    {
        match v {
            0 => ExtType::End,
            1 => ExtType::IdentityToken,
            2 => ExtType::SemanticTag,
            3 => ExtType::QoSReservation,
            4 => ExtType::AgentCard,
            5 => ExtType::RouteTrace,
            6 => ExtType::Fragment,
            other => ExtType::Unknown(other),
        }
    }
}

/// One extension header: its type and its payload. The pointer to the next
/// header and the length field exist on the wire only.
#[derive(Debug, Clone, PartialEq, Eq)]
pub struct ExtensionHeader {
    pub ext_type: ExtType,
    /// A positive multiple of 8 bytes, at most 255 times 8.
    pub payload: Vec<u8>,
}

/// An extension header as a mathematical value.
pub ghost struct ExtView {
    pub ext_type: ExtType,
    pub payload: Seq<u8>,
}

impl View for ExtensionHeader {
    type V = ExtView;

    open spec fn view(&self) -> ExtView {
        ExtView { ext_type: self.ext_type, payload: self.payload@ }
    }
}

/// The views of a list of extension headers.
pub open spec fn ext_views(s: Seq<ExtensionHeader>) -> Seq<ExtView> {
    s.map_values(|e: ExtensionHeader| e@)
}

/// Whether a payload has a length that the length field can state.
pub open spec fn ext_len_ok(n: nat) -> bool {
    n % 8 == 0 && 8 <= n <= 255 * 8
}

impl ExtView {
    /// Whether [`ExtensionHeader::new`] makes this value.
    pub open spec fn valid(self) -> bool {
        self.ext_type != ExtType::End && ext_len_ok(self.payload.len())
    }

    /// Bytes that this header takes on the wire.
    pub open spec fn size(self) -> nat {
        2 + self.payload.len()
    }
}

impl ExtensionHeader {
    /// The extension header of this type and payload, or `None` where the
    /// type is the end mark or the length is not a positive multiple of 8
    /// up to 255 times 8.
    pub fn new(ext_type: ExtType, payload: Vec<u8>) -> (r: Option<Self>)
        ensures
            match r {
                Some(e) => e@ == (ExtView { ext_type, payload: payload@ }) && e@.valid(),
                None => !(ExtView { ext_type, payload: payload@ }).valid(),
            },
    {
        if let ExtType::End = ext_type {
            return None;
        }
        if payload.len() % 8 != 0 || payload.len() / 8 == 0 || payload.len() / 8 > 255 {
            return None;
        }
        Some(ExtensionHeader { ext_type, payload })
    }

    /// The length field: the payload length in units of 8 bytes.
    pub fn ext_len(&self) -> (r: u8)
        ensures
            r == self@.payload.len() / 8 % 256,
    {
        (self.payload.len() / 8 % 256) as u8
    }

    /// Bytes that this header takes on the wire.
    pub fn wire_size(&self) -> (r: usize)
        requires
            self@.size() <= usize::MAX,
        ensures
            r == self@.size(),
    {
        2 + self.payload.len()
    }

    /// A copy of this header.
    pub fn copy(&self) -> (r: Self)
        ensures
            r@ == self@,
    {
        ExtensionHeader { ext_type: self.ext_type, payload: vstd::slice::slice_to_vec(self.payload.as_slice()) }
    }
}

/// A base header with its extension chain.
#[derive(Debug, Clone, PartialEq, Eq)]
pub struct IPv8Header {
    /// Protocol version, 4 bits.
    pub version: u8,
    /// Least version that the sender is compatible with, 4 bits.
    pub min_compat_ver: u8,
    /// QoS level and the marks of [`flags`].
    pub flags: u16,
    /// Length of the payload, without headers.
    pub payload_len: u16,
    /// Hops left.
    pub hop_limit: u8,
    /// Type of the first extension header, 0 for none.
    pub next_header: u8,
    pub src_addr: IPv8Address,
    pub dst_addr: IPv8Address,
    /// The extension chain.
    pub ext_headers: Vec<ExtensionHeader>,
}

/// A header as a mathematical value.
pub ghost struct HeaderView {
    pub version: u8,
    pub min_compat_ver: u8,
    pub flags: u16,
    pub payload_len: u16,
    pub hop_limit: u8,
    pub next_header: u8,
    pub src: IPv8Address,
    pub dst: IPv8Address,
    pub exts: Seq<ExtView>,
}

impl View for IPv8Header {
    type V = HeaderView;

    open spec fn view(&self) -> HeaderView {
        HeaderView {
            version: self.version,
            min_compat_ver: self.min_compat_ver,
            flags: self.flags,
            payload_len: self.payload_len,
            hop_limit: self.hop_limit,
            next_header: self.next_header,
            src: self.src_addr,
            dst: self.dst_addr,
            exts: ext_views(self.ext_headers@),
        }
    }
}

/// The type number of the first header of a chain, 0 for an empty one.
pub open spec fn first_type(exts: Seq<ExtView>) -> u8 {
    if exts.len() == 0 {
        0
    } else {
        exts[0].ext_type.number()
    }
}

/// The flags with the extension mark set as the chain asks.
pub open spec fn ext_flag(flags: u16, exts: Seq<ExtView>) -> u16 {
    if exts.len() == 0 {
        flags & !flags::HAS_EXTENSION
    } else {
        flags | flags::HAS_EXTENSION
    }
}

impl HeaderView {
    /// Whether this is a header as a receiver reads one: of this version, with
    /// fields that fit, a chain that is not too long and well-formed addresses.
    pub open spec fn readable(self) -> bool {
        &&& self.version == VERSION
        &&& self.min_compat_ver <= 15
        &&& self.exts.len() <= MAX_EXT_CHAIN
        &&& self.src.wf()
        &&& self.dst.wf()
    }

    /// This header with its chain replaced, and the pointer and the mark that
    /// go with it.
    pub open spec fn with_exts(self, exts: Seq<ExtView>) -> HeaderView {
        HeaderView { next_header: first_type(exts), flags: ext_flag(self.flags, exts), exts, ..self }
    }
}

impl IPv8Header {
    /// A header without extensions, with hop limit 64.
    pub fn new(src_addr: IPv8Address, dst_addr: IPv8Address, payload_len: u16) -> (h: Self)
        ensures
            h@ == (HeaderView {
                version: VERSION,
                min_compat_ver: 0,
                flags: 0,
                payload_len,
                hop_limit: 64,
                next_header: 0,
                src: src_addr,
                dst: dst_addr,
                exts: Seq::empty(),
            }),
    {
        let h = IPv8Header {
            version: VERSION,
            min_compat_ver: 0,
            flags: 0,
            payload_len,
            hop_limit: 64,
            next_header: 0,
            src_addr,
            dst_addr,
            ext_headers: Vec::new(),
        };
        assert(h@.exts =~= Seq::empty());
        h
    }

    /// Replaces the extension chain, and sets the pointer to its first header
    /// and the extension mark to match.
    pub fn attach_ext_headers(&mut self, ext_headers: Vec<ExtensionHeader>)
        ensures
            final(self)@ == old(self)@.with_exts(ext_views(ext_headers@)),
    {
        if ext_headers.len() == 0 {
            self.next_header = 0;
            self.flags = self.flags & !flags::HAS_EXTENSION;
        } else {
            self.next_header = ext_headers[0].ext_type.wire();
            self.flags = self.flags | flags::HAS_EXTENSION;
        }
        self.ext_headers = ext_headers;
    }
}

/// Which headers a receiver reads: of the eighth version, with a least version of
/// four bits, a chain of at most 64 extensions and addresses whose reserved bytes
/// are nought.
pub proof fn readable_headers(h: HeaderView)
    requires
        h.readable(),
    ensures
        h.version == 8,
        h.min_compat_ver < 16,
        h.exts.len() <= 64,
        h.src.wf(),
        h.dst.wf(),
{
}

} // verus!
