//! Frames on a local network.

use vstd::prelude::*;
use crate::wire;

verus! {

/// Bytes of an Ethernet header.
pub const ETH_HEADER_LEN: usize = 14;

/// Bytes that the driver puts before a frame that came.
pub const FRAME_HDR_LEN: usize = 16;

/// The longest Ethernet frame.
pub const FRAME_MAX: usize = 1514;

/// Bytes of an entry of the driver's table of cards.
pub const BINDING_SIZE: usize = 180;

/// What the driver expects first.
pub const MAGIC: u32 = 0xfb14;

/// Everyone.
pub open spec fn broadcast() -> Seq<u8> {
    seq![0xffu8, 0xffu8, 0xffu8, 0xffu8, 0xffu8, 0xffu8]
}

/// Why bytes are no frame.
#[derive(Debug, Clone, Copy, PartialEq, Eq, Structural)]
pub enum LanError {
    /// The payload is longer than a frame can hold.
    TooLong(usize),
    /// The bytes are fewer than the headers.
    TooShort,
    /// The frame is of another protocol.
    EtherType,
}

/// The driver's header: magic, card, and so many zeros.
pub open spec fn driver_header(if_index: u32, reserved: nat) -> Seq<u8> {
    wire::le32(MAGIC) + wire::le32(if_index) + wire::zeros(reserved)
}

/// A frame as the driver takes it, behind a header of 12 bytes. The driver fills
/// in the source.
pub open spec fn frame_wire(if_index: u32, dst: Seq<u8>, payload: Seq<u8>) -> Seq<u8> {
    driver_header(if_index, 4) + dst + wire::zeros(6) + seq![0xfbu8, 0x14u8] + payload
}

/// A frame for `dst` on a card.
pub fn build_frame(if_index: u32, dst: &[u8; 6], payload: &[u8]) -> (r: Result<Vec<u8>, LanError>)
    ensures
        match r {
            Ok(f) => payload@.len() <= FRAME_MAX - ETH_HEADER_LEN && f@ == frame_wire(if_index, dst@, payload@),
            Err(e) => payload@.len() > FRAME_MAX - ETH_HEADER_LEN && e == LanError::TooLong(payload@.len() as usize),
        },
{
    if payload.len() > FRAME_MAX - ETH_HEADER_LEN {
        return Err(LanError::TooLong(payload.len()));
    }
    let mut f = header(if_index, 4);
    wire::put_bytes(&mut f, dst.as_slice());
    wire::put_zeros(&mut f, 6);
    let ghost before = f@;
    f.push(0xfb);
    f.push(0x14);
    assert(f@ =~= before + seq![0xfbu8, 0x14u8]);
    wire::put_bytes(&mut f, payload);
    Ok(f)
}

/// The driver's header with so many zeros.
fn header(if_index: u32, reserved: usize) -> (h: Vec<u8>)
    ensures
        h@ == driver_header(if_index, reserved as nat),
{
    let mut h: Vec<u8> = Vec::new();
    wire::put_le32(&mut h, MAGIC);
    wire::put_le32(&mut h, if_index);
    wire::put_zeros(&mut h, reserved);
    assert(h@ =~= driver_header(if_index, reserved as nat));
    h
}

/// The header with which a frame is asked for, of 16 bytes.
pub fn request_header(if_index: u32) -> (h: Vec<u8>)
    ensures
        h@ == driver_header(if_index, 8),
{
    header(if_index, 8)
}

/// Why bytes from the driver are no frame of ours.
pub open spec fn frame_error(b: Seq<u8>) -> Option<LanError> {
    if b.len() < FRAME_HDR_LEN + ETH_HEADER_LEN {
        Some(LanError::TooShort)
    } else if b[28] != 0xfb || b[29] != 0x14 {
        Some(LanError::EtherType)
    } else {
        None
    }
}

/// The payload and the source of a frame from the driver.
pub fn parse_frame(b: &[u8]) -> (r: Result<(Vec<u8>, [u8; 6]), LanError>)
    ensures
        match r {
            Ok((p, src)) => frame_error(b@) is None && p@ == b@.subrange(30, b@.len() as int) && src@ == b@.subrange(22, 28),
            Err(e) => frame_error(b@) == Some(e),
        },
{
    if b.len() < FRAME_HDR_LEN + ETH_HEADER_LEN {
        return Err(LanError::TooShort);
    }
    if b[28] != 0xfb || b[29] != 0x14 {
        return Err(LanError::EtherType);
    }
    let src: [u8; 6] = [b[22], b[23], b[24], b[25], b[26], b[27]];
    assert(src@ =~= b@.subrange(22, 28));
    Ok((wire::copy_range(b, 30, b.len()), src))
}

/// A frame carries its payload unchanged: what stands behind the driver's header
/// is read back, behind the header that the receiving driver puts before it,
/// whatever that holds.
pub proof fn frame_carries_payload(if_index: u32, dst: Seq<u8>, payload: Seq<u8>, put: Seq<u8>)
    requires
        dst.len() == 6,
        put.len() == FRAME_HDR_LEN,
    ensures
        ({
            let sent = frame_wire(if_index, dst, payload);
            let f = put + sent.subrange(12, sent.len() as int);
            &&& sent.subrange(12, 18) == dst
            &&& frame_error(f) is None
            &&& f.subrange(30, f.len() as int) == payload
        }),
{
    let sent = frame_wire(if_index, dst, payload);
    let f = put + sent.subrange(12, sent.len() as int);
    assert(sent.subrange(12, 18) =~= dst);
    assert(f.subrange(30, f.len() as int) =~= payload);
}

/// A network card that the driver is bound to.
#[derive(Debug, Clone, Copy, PartialEq, Eq)]
pub struct Binding {
    pub if_index: u32,
    pub mac: [u8; 6],
}

/// Whether entry `i` of the driver's table is a bound card.
pub open spec fn is_bound(b: Seq<u8>, i: int) -> bool {
    b[i * 180 + 12] != 0
}

/// Whether a card is what entry `i` of the driver's table says.
pub open spec fn is_entry(b: Seq<u8>, i: int, c: Binding) -> bool {
    c.if_index == wire::le32_at(b, i * 180 + 4) && c.mac@ == b.subrange(i * 180 + 16, i * 180 + 22)
}

/// The bound cards among the first `n` entries of the driver's table, as
/// indices.
pub open spec fn bound_entries(b: Seq<u8>, n: int) -> Seq<int>
    decreases n,
{
    if n <= 0 {
        Seq::empty()
    } else if is_bound(b, n - 1) {
        bound_entries(b, n - 1).push(n - 1)
    } else {
        bound_entries(b, n - 1)
    }
}

/// The bound cards of the driver's table.
pub fn parse_bindings(b: &[u8]) -> (r: Vec<Binding>)
    ensures
        ({
            let e = bound_entries(b@, b@.len() as int / 180);
            r@.len() == e.len() && forall|k: int| 0 <= k < e.len() ==> is_entry(b@, e[k], #[trigger] r@[k])
        }),
{
    let n: usize = b.len() / BINDING_SIZE;
    let mut r: Vec<Binding> = Vec::new();
    let mut i: usize = 0;
    while i < n
        invariant
            i <= n,
            n == b.len() / 180,
            ({
                let e = bound_entries(b@, i as int);
                r@.len() == e.len() && forall|k: int| 0 <= k < e.len() ==> is_entry(b@, e[k], #[trigger] r@[k])
            }),
        decreases n - i,
    {
        let at: usize = i * BINDING_SIZE;
        if b[at + 12] != 0 {
            let mac: [u8; 6] = [b[at + 16], b[at + 17], b[at + 18], b[at + 19], b[at + 20], b[at + 21]];
            assert(mac@ =~= b@.subrange(at + 16, at + 22));
            let ghost before = r@;
            r.push(Binding { if_index: wire::get_le32(b, at + 4), mac });
            proof {
                let e = bound_entries(b@, i + 1);
                assert forall|k: int| 0 <= k < e.len() implies is_entry(b@, e[k], #[trigger] r@[k]) by {
                    if k < before.len() {
                        assert(r@[k] == before[k]);
                    }
                }
            }
        }
        i = i + 1;
    }
    r
}

/// Whom to send to: the peer, or everyone where it is not known.
pub fn destination(peer: Option<[u8; 6]>) -> (mac: [u8; 6])
    ensures
        mac@ == match peer {
            Some(m) => m@,
            None => broadcast(),
        },
{
    match peer {
        Some(m) => m,
        None => {
            let m: [u8; 6] = [0xff, 0xff, 0xff, 0xff, 0xff, 0xff];
            assert(m@ =~= broadcast());
            m
        },
    }
}

/// A frame for the driver: a mark and the number of the interface, low byte first,
/// four bytes of zero, and the frame itself: destination, six bytes of zero, the
/// type 0xfb14, and the payload.
pub proof fn frame_format(if_index: u32, dst: Seq<u8>, payload: Seq<u8>)
    requires
        dst.len() == 6,
    ensures
        ({
            let f = frame_wire(if_index, dst, payload);
            &&& f.len() == 26 + payload.len()
            &&& f[0] == 0x14 && f[1] == 0xfb && f[2] == 0 && f[3] == 0
            &&& wire::le32_at(f, 4) == if_index
            &&& forall|i: int| 8 <= i < 12 ==> f[i] == 0
            &&& f.subrange(12, 18) == dst
            &&& forall|i: int| 18 <= i < 24 ==> f[i] == 0
            &&& f[24] == 0xfb && f[25] == 0x14
            &&& f.subrange(26, f.len() as int) == payload
        }),
{
    let f = frame_wire(if_index, dst, payload);
    assert(f.subrange(4, 8) =~= wire::le32(if_index));
    wire::le32_round_trip(if_index, f, 4);
    assert(f.subrange(12, 18) =~= dst);
    assert(f.subrange(26, f.len() as int) =~= payload);
}

/// Which frames are taken: those of at least 30 bytes with the type 0xfb14.
pub proof fn taken_frames(b: Seq<u8>)
    ensures
        frame_error(b) is None <==> b.len() >= 30 && b[28] == 0xfb && b[29] == 0x14,
        b.len() < 30 ==> frame_error(b) == Some(LanError::TooShort),
{
}

/// Which bindings are listed: those of 180 bytes each whose state is not zero, in
/// their order, each with its own number and address.
pub proof fn listed_bindings(b: Seq<u8>, n: int, c: Binding)
    requires
        0 <= n,
    ensures
        bound_entries(b, n + 1) == if b[n * 180 + 12] != 0 {
            bound_entries(b, n).push(n)
        } else {
            bound_entries(b, n)
        },
        bound_entries(b, 0).len() == 0,
        is_entry(b, n, c) ==> c.if_index == b[n * 180 + 4] + b[n * 180 + 5] * 0x100 + b[n * 180 + 6] * 0x1_0000 + b[n * 180
            + 7] * 0x100_0000 && c.mac@ == b.subrange(n * 180 + 16, n * 180 + 22),
{
    crate::codec::formats::numbers_are_read(b, n * 180 + 4);
}

} // verus!
