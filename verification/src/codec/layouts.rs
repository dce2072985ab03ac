//! Payloads of extension headers: resource reservation, route trace, agent
//! card digest and capability tags.

use vstd::prelude::*;
use crate::codec::header;
use crate::codec::header::{ExtType, IPv8Address, VERSION};
use crate::wire;

verus! {

/// Why a payload cannot be written or read.
#[derive(Debug, Clone, Copy, PartialEq, Eq, Structural)]
pub enum LayoutError {
    /// The length is not the one of the layout.
    BadLen,
    /// The rate does not fit 24 bits.
    RateTooLarge,
    /// No hops.
    EmptyHops,
    /// More than 64 hops.
    TooManyHops,
    /// No tags.
    EmptyTags,
    /// More than 32 tags.
    TooManyTags,
    /// A tag is empty, too long, has another character than `a-z`, `0-9` and
    /// `-`, or begins or ends with `-`.
    BadTag,
    /// The tags take more than 1536 bytes.
    TagsTooLong,
}

/// A rate reservation.
#[derive(Debug, Clone, Copy, PartialEq, Eq, Structural)]
pub struct QosReservation {
    /// Token bucket rate in KiB/s, 24 bits.
    pub rate_kibs: u32,
    pub burst_size: u16,
    /// Suggested queue class.
    pub queue_hint: u8,
}

/// A reservation on the wire: rate (0-2), burst (3-4), hint (5), reserved (6-7).
pub open spec fn qos_wire(q: QosReservation) -> Seq<u8> {
    wire::be32(q.rate_kibs).subrange(1, 4) + wire::be16(q.burst_size) + seq![q.queue_hint] + wire::zeros(2)
}

/// The reservation that 8 bytes stand for.
pub open spec fn qos_of_wire(p: Seq<u8>) -> QosReservation {
    QosReservation {
        rate_kibs: (p[0] * 0x1_0000 + p[1] * 0x100 + p[2]) as u32,
        burst_size: wire::be16_at(p, 3),
        queue_hint: p[5],
    }
}

/// Reading a reservation gives back what was written.
pub proof fn qos_round_trip(q: QosReservation)
    requires
        q.rate_kibs < 0x100_0000,
    ensures
        qos_wire(q).len() == 8,
        qos_of_wire(qos_wire(q)) == q,
{
    let p = qos_wire(q);
    assert(p.subrange(3, 5) =~= wire::be16(q.burst_size));
    wire::be16_round_trip(q.burst_size, p, 3);
    let b = wire::be32(q.rate_kibs);
    assert(p[0] == b[1] && p[1] == b[2] && p[2] == b[3]);
}

impl QosReservation {
    /// Length of the payload.
    pub const PAYLOAD_LEN: usize = 8;

    /// The payload of this reservation.
    pub fn to_payload(&self) -> (r: Result<Vec<u8>, LayoutError>)
        ensures
            match r {
                Ok(p) => self.rate_kibs < 0x100_0000 && p@ == qos_wire(*self),
                Err(e) => self.rate_kibs >= 0x100_0000 && e == LayoutError::RateTooLarge,
            },
    {
        if self.rate_kibs >= 0x100_0000 {
            return Err(LayoutError::RateTooLarge);
        }
        let mut p: Vec<u8> = Vec::new();
        let mut rate: Vec<u8> = Vec::new();
        wire::put_be32(&mut rate, self.rate_kibs);
        p.push(rate[1]);
        p.push(rate[2]);
        p.push(rate[3]);
        wire::put_be16(&mut p, self.burst_size);
        p.push(self.queue_hint);
        wire::put_zeros(&mut p, 2);
        assert(p@ =~= qos_wire(*self));
        Ok(p)
    }

    /// Reads a payload; the reserved bytes are not looked at.
    pub fn from_payload(p: &[u8]) -> (r: Result<Self, LayoutError>)
        ensures
            r == if p@.len() != 8 {
                Err(LayoutError::BadLen)
            } else {
                Ok(qos_of_wire(p@))
            },
    {
        if p.len() != 8 {
            return Err(LayoutError::BadLen);
        }
        Ok(
            QosReservation {
                rate_kibs: p[0] as u32 * 0x1_0000 + p[1] as u32 * 0x100 + p[2] as u32,
                burst_size: wire::get_be16(p, 3),
                queue_hint: p[5],
            },
        )
    }
}

/// A source route with a signature over the path.
#[derive(Debug, Clone, PartialEq, Eq)]
pub struct RouteTrace {
    /// Public key of the source.
    pub src_pubkey: [u8; 32],
    /// Signature of [`route_trace_message`].
    pub path_sig: [u8; 64],
    /// The hop limit with which the source sent the packet.
    pub init_hop_limit: u8,
    /// The hops from the source to the destination.
    pub hops: Vec<IPv8Address>,
}

/// A route trace as a mathematical value.
pub ghost struct RouteTraceView {
    pub src_pubkey: Seq<u8>,
    pub path_sig: Seq<u8>,
    pub init_hop_limit: u8,
    pub hops: Seq<IPv8Address>,
}

impl View for RouteTrace {
    type V = RouteTraceView;

    open spec fn view(&self) -> RouteTraceView {
        RouteTraceView {
            src_pubkey: self.src_pubkey@,
            path_sig: self.path_sig@,
            init_hop_limit: self.init_hop_limit,
            hops: self.hops@,
        }
    }
}

/// Addresses on the wire, one after the other.
pub open spec fn hops_wire(hops: Seq<IPv8Address>) -> Seq<u8> {
    Seq::new(16 * hops.len(), |i: int| hops[i / 16].bytes()[i % 16])
}

/// A route trace on the wire: public key (0-31), signature (32-95), number of
/// hops (96), initial hop limit (97), reserved (98-103), the hops.
pub open spec fn trace_wire(t: RouteTraceView) -> Seq<u8> {
    t.src_pubkey + t.path_sig + seq![t.hops.len() as u8, t.init_hop_limit] + wire::zeros(6) + hops_wire(t.hops)
}

/// Why a route trace cannot be written.
pub open spec fn trace_error(t: RouteTraceView) -> Option<LayoutError> {
    if t.hops.len() == 0 {
        Some(LayoutError::EmptyHops)
    } else if t.hops.len() > 64 {
        Some(LayoutError::TooManyHops)
    } else {
        None
    }
}

/// What a payload stands for as a route trace.
pub open spec fn trace_of_wire(p: Seq<u8>) -> Result<RouteTraceView, LayoutError> {
    if p.len() < 104 {
        Err(LayoutError::BadLen)
    } else if p[96] == 0 {
        Err(LayoutError::EmptyHops)
    } else if p[96] > 64 {
        Err(LayoutError::TooManyHops)
    } else if p.len() != 104 + 16 * p[96] {
        Err(LayoutError::BadLen)
    } else {
        Ok(
            RouteTraceView {
                src_pubkey: p.subrange(0, 32),
                path_sig: p.subrange(32, 96),
                init_hop_limit: p[97],
                hops: Seq::new(
                    p[96] as nat,
                    |i: int| header::address_of_wire(p.subrange(104 + 16 * i, 104 + 16 * i + 16)),
                ),
            },
        )
    }
}

/// The bytes of one address among several.
pub proof fn hop_at(hops: Seq<IPv8Address>, i: int)
    requires
        0 <= i < hops.len(),
    ensures
        hops_wire(hops).subrange(16 * i, 16 * i + 16) == hops[i].bytes(),
{
    header::address_wire_len(hops[i]);
    let s = hops_wire(hops).subrange(16 * i, 16 * i + 16);
    assert forall|k: int| 0 <= k < 16 implies s[k] == hops[i].bytes()[k] by {
        assert((16 * i + k) / 16 == i && (16 * i + k) % 16 == k);
    }
    assert(s =~= hops[i].bytes());
}

/// Reading a route trace gives back what was written.
pub proof fn trace_round_trip(t: RouteTraceView)
    requires
        trace_error(t) is None,
        t.src_pubkey.len() == 32,
        t.path_sig.len() == 64,
        forall|i: int| 0 <= i < t.hops.len() ==> (#[trigger] t.hops[i]).wf(),
    ensures
        trace_of_wire(trace_wire(t)) == Ok::<RouteTraceView, LayoutError>(t),
        trace_wire(t).len() % 8 == 0,
{
    let p = trace_wire(t);
    let n = t.hops.len();
    assert(p.len() == 104 + 16 * n);
    assert(p[96] == n && p[97] == t.init_hop_limit);
    assert(p.subrange(0, 32) =~= t.src_pubkey);
    assert(p.subrange(32, 96) =~= t.path_sig);
    let back = trace_of_wire(p)->Ok_0;
    assert(back.hops =~= t.hops) by {
        assert forall|i: int| 0 <= i < n implies back.hops[i] == t.hops[i] by {
            hop_at(t.hops, i);
            assert(p.subrange(104 + 16 * i, 104 + 16 * i + 16) =~= hops_wire(t.hops).subrange(16 * i, 16 * i + 16));
            header::address_wire_round_trip(t.hops[i]);
        }
    }
}

impl RouteTrace {
    /// Length of the fixed part of the payload.
    pub const HEADER_LEN: usize = 104;

    /// The payload of this route trace.
    pub fn to_payload(&self) -> (r: Result<Vec<u8>, LayoutError>)
        ensures
            match r {
                Ok(p) => trace_error(self@) is None && p@ == trace_wire(self@),
                Err(e) => trace_error(self@) == Some(e),
            },
    {
        if self.hops.len() == 0 {
            return Err(LayoutError::EmptyHops);
        }
        if self.hops.len() > 64 {
            return Err(LayoutError::TooManyHops);
        }
        let mut p: Vec<u8> = Vec::new();
        wire::put_bytes(&mut p, self.src_pubkey.as_slice());
        wire::put_bytes(&mut p, self.path_sig.as_slice());
        p.push(self.hops.len() as u8);
        p.push(self.init_hop_limit);
        wire::put_zeros(&mut p, 6);
        put_hops(&mut p, self.hops.as_slice());
        assert(p@ =~= trace_wire(self@));
        Ok(p)
    }

    /// Reads a payload of the exact length; the reserved bytes are not looked
    /// at.
    pub fn from_payload(p: &[u8]) -> (r: Result<Self, LayoutError>)
        ensures
            match r {
                Ok(t) => trace_of_wire(p@) == Ok::<RouteTraceView, LayoutError>(t@),
                Err(e) => trace_of_wire(p@) == Err::<RouteTraceView, LayoutError>(e),
            },
    {
        if p.len() < 104 {
            return Err(LayoutError::BadLen);
        }
        let n: usize = p[96] as usize;
        if n == 0 {
            return Err(LayoutError::EmptyHops);
        }
        if n > 64 {
            return Err(LayoutError::TooManyHops);
        }
        if p.len() != 104 + 16 * n {
            return Err(LayoutError::BadLen);
        }
        let mut hops: Vec<IPv8Address> = Vec::new();
        let mut i: usize = 0;
        while i < n
            invariant
                i <= n <= 64,
                p@.len() == 104 + 16 * n,
                hops@.len() == i,
                forall|k: int|
                    0 <= k < i ==> #[trigger] hops@[k] == header::address_of_wire(p@.subrange(104 + 16 * k, 104 + 16 * k + 16)),
            decreases n - i,
        {
            hops.push(header::read_address(vstd::slice::slice_subrange(p, 104 + 16 * i, 104 + 16 * i + 16)));
            i = i + 1;
        }
        let t = RouteTrace {
            src_pubkey: wire::array32(p),
            path_sig: wire::array64(vstd::slice::slice_subrange(p, 32, 96)),
            init_hop_limit: p[97],
            hops,
        };
        proof {
            let s = p@.subrange(32, 96);
            assert(s.subrange(0, 64) =~= s);
            assert(t@.hops =~= trace_of_wire(p@)->Ok_0.hops);
        }
        Ok(t)
    }
}

/// Appends addresses, one after the other.
fn put_hops(out: &mut Vec<u8>, hops: &[IPv8Address])
    ensures
        final(out)@ == old(out)@ + hops_wire(hops@),
{
    let mut i: usize = 0;
    assert(out@ =~= old(out)@ + hops_wire(hops@.subrange(0, 0)));
    while i < hops.len()
        invariant
            i <= hops.len(),
            out@ == old(out)@ + hops_wire(hops@.subrange(0, i as int)),
        decreases hops.len() - i,
    {
        let ghost before = out@;
        let b = hops[i].to_bytes();
        wire::put_bytes(out, b.as_slice());
        i = i + 1;
        proof {
            header::address_wire_len(hops@[i - 1]);
            let a = hops_wire(hops@.subrange(0, i - 1));
            let c = hops_wire(hops@.subrange(0, i as int));
            assert forall|k: int| 0 <= k < 16 * i implies c[k] == (a + b@)[k] by {
                if k >= 16 * (i - 1) {
                    assert(k / 16 == i - 1 && k % 16 == k - 16 * (i - 1));
                }
            }
            assert(c =~= a + b@);
            assert(out@ =~= old(out)@ + c);
        }
    }
    assert(hops@.subrange(0, i as int) =~= hops@);
}

/// What a path signature covers.
#[derive(Debug, Clone, Copy)]
pub struct TraceSigInput<'a> {
    pub src_addr: &'a IPv8Address,
    pub dst_addr: &'a IPv8Address,
    pub min_compat_ver: u8,
    pub flags: u16,
    pub payload_len: u16,
    pub init_hop_limit: u8,
    pub src_pubkey: &'a [u8; 32],
    pub hops: &'a [IPv8Address],
}

/// What a path signature covers, as a mathematical value.
pub ghost struct TraceSigView {
    pub src: IPv8Address,
    pub dst: IPv8Address,
    pub min_compat_ver: u8,
    pub flags: u16,
    pub payload_len: u16,
    pub init_hop_limit: u8,
    pub src_pubkey: Seq<u8>,
    pub hops: Seq<IPv8Address>,
}

impl<'a> View for TraceSigInput<'a> {
    type V = TraceSigView;

    open spec fn view(&self) -> TraceSigView {
        TraceSigView {
            src: *self.src_addr,
            dst: *self.dst_addr,
            min_compat_ver: self.min_compat_ver,
            flags: self.flags,
            payload_len: self.payload_len,
            init_hop_limit: self.init_hop_limit,
            src_pubkey: self.src_pubkey@,
            hops: self.hops@,
        }
    }
}

/// `ipv8plus-routetrace`, the domain of path signatures.
pub open spec fn route_trace_domain() -> Seq<u8> {
    seq![105u8, 112, 118, 56, 112, 108, 117, 115, 45, 114, 111, 117, 116, 101, 116, 114, 97, 99, 101]
}

/// `ipv8plus-agentcard`, the domain of card signatures.
pub open spec fn agent_card_domain() -> Seq<u8> {
    seq![105u8, 112, 118, 56, 112, 108, 117, 115, 45, 97, 103, 101, 110, 116, 99, 97, 114, 100]
}

/// The message that a path signature signs: domain, public key, the first
/// seven bytes of the base header with the initial hop limit and the type of
/// the trace, source, destination, number of hops, hops.
pub open spec fn trace_message(i: TraceSigView) -> Seq<u8> {
    route_trace_domain() + i.src_pubkey + seq![(VERSION * 16 + i.min_compat_ver % 16) as u8] + wire::be16(i.flags)
        + wire::be16(i.payload_len) + seq![i.init_hop_limit, ExtType::RouteTrace.number()] + i.src.bytes() + i.dst.bytes()
        + seq![(i.hops.len() % 256) as u8] + hops_wire(i.hops)
}

/// Whether every address of a list is well formed.
pub open spec fn all_wf(hops: Seq<IPv8Address>) -> bool {
    forall|i: int| 0 <= i < hops.len() ==> (#[trigger] hops[i]).wf()
}

/// Addresses are determined by their bytes.
pub proof fn hops_wire_injective(a: Seq<IPv8Address>, b: Seq<IPv8Address>)
    requires
        all_wf(a),
        all_wf(b),
        hops_wire(a) == hops_wire(b),
    ensures
        a == b,
{
    assert(hops_wire(a).len() == 16 * a.len() && hops_wire(b).len() == 16 * b.len());
    assert forall|i: int| 0 <= i < a.len() implies a[i] == b[i] by {
        hop_at(a, i);
        hop_at(b, i);
        header::address_wire_injective(a[i], b[i]);
    }
    assert(a =~= b);
}

/// The parts of a path message.
proof fn trace_message_parts(i: TraceSigView)
    requires
        i.src_pubkey.len() == 32,
    ensures
        ({
            let m = trace_message(i);
            &&& m.len() == 91 + 16 * i.hops.len()
            &&& m.subrange(19, 51) == i.src_pubkey
            &&& m[51] == VERSION * 16 + i.min_compat_ver % 16
            &&& m.subrange(52, 54) == wire::be16(i.flags)
            &&& m.subrange(54, 56) == wire::be16(i.payload_len)
            &&& m[56] == i.init_hop_limit
            &&& m.subrange(58, 74) == i.src.bytes()
            &&& m.subrange(74, 90) == i.dst.bytes()
            &&& m.subrange(91, m.len() as int) == hops_wire(i.hops)
        }),
{
    header::address_wire_len(i.src);
    header::address_wire_len(i.dst);
    let m = trace_message(i);
    assert(m.subrange(19, 51) =~= i.src_pubkey);
    assert(m.subrange(52, 54) =~= wire::be16(i.flags));
    assert(m.subrange(54, 56) =~= wire::be16(i.payload_len));
    assert(m.subrange(58, 74) =~= i.src.bytes());
    assert(m.subrange(74, 90) =~= i.dst.bytes());
    assert(m.subrange(91, m.len() as int) =~= hops_wire(i.hops));
}

/// A path message determines everything that the signature covers: changing
/// any of it changes the message.
pub proof fn trace_message_injective(a: TraceSigView, b: TraceSigView)
    requires
        a.src_pubkey.len() == 32,
        b.src_pubkey.len() == 32,
        a.min_compat_ver < 16,
        b.min_compat_ver < 16,
        a.src.wf() && a.dst.wf() && all_wf(a.hops),
        b.src.wf() && b.dst.wf() && all_wf(b.hops),
        trace_message(a) == trace_message(b),
    ensures
        a == b,
{
    trace_message_parts(a);
    trace_message_parts(b);
    let m = trace_message(a);
    wire::be16_round_trip(a.flags, m, 52);
    wire::be16_round_trip(b.flags, m, 52);
    wire::be16_round_trip(a.payload_len, m, 54);
    wire::be16_round_trip(b.payload_len, m, 54);
    header::address_wire_injective(a.src, b.src);
    header::address_wire_injective(a.dst, b.dst);
    hops_wire_injective(a.hops, b.hops);
}

/// The domain of path signatures.
fn put_route_trace_domain(m: &mut Vec<u8>)
    ensures
        final(m)@ == old(m)@ + route_trace_domain(),
{
    let d: [u8; 19] = [105, 112, 118, 56, 112, 108, 117, 115, 45, 114, 111, 117, 116, 101, 116, 114, 97, 99, 101];
    assert(d@ =~= route_trace_domain());
    wire::put_bytes(m, d.as_slice());
}

/// The message that a path signature signs.
pub fn route_trace_message(i: &TraceSigInput<'_>) -> (m: Vec<u8>)
    ensures
        m@ == trace_message(i@),
{
    let mut m: Vec<u8> = Vec::new();
    put_route_trace_domain(&mut m);
    wire::put_bytes(&mut m, i.src_pubkey.as_slice());
    m.push(VERSION * 16 + i.min_compat_ver % 16);
    wire::put_be16(&mut m, i.flags);
    wire::put_be16(&mut m, i.payload_len);
    m.push(i.init_hop_limit);
    m.push(ExtType::RouteTrace.wire());
    let s = i.src_addr.to_bytes();
    wire::put_bytes(&mut m, s.as_slice());
    let d = i.dst_addr.to_bytes();
    wire::put_bytes(&mut m, d.as_slice());
    m.push((i.hops.len() % 256) as u8);
    put_hops(&mut m, i.hops);
    assert(m@ =~= trace_message(i@));
    m
}

/// The digest of an agent card, signed by the agent.
#[derive(Debug, Clone, Copy, PartialEq, Eq)]
pub struct AgentCardSummary {
    /// Card format.
    pub version: u8,
    /// The first 16 bytes of the SHA-256 of the card.
    pub card_hash: [u8; 16],
    /// When the card expires, in seconds since the epoch.
    pub not_after: u64,
    pub agent_pubkey: [u8; 32],
    /// Signature of [`agent_card_message`].
    pub card_sig: [u8; 64],
}

/// A card digest as a mathematical value.
pub ghost struct CardSummaryView {
    pub version: u8,
    pub card_hash: Seq<u8>,
    pub not_after: u64,
    pub agent_pubkey: Seq<u8>,
    pub card_sig: Seq<u8>,
}

impl View for AgentCardSummary {
    type V = CardSummaryView;

    open spec fn view(&self) -> CardSummaryView {
        CardSummaryView {
            version: self.version,
            card_hash: self.card_hash@,
            not_after: self.not_after,
            agent_pubkey: self.agent_pubkey@,
            card_sig: self.card_sig@,
        }
    }
}

/// A card digest on the wire: version (0), reserved (1-7), hash (8-23), expiry
/// (24-31), public key (32-63), signature (64-127).
pub open spec fn card_wire(c: CardSummaryView) -> Seq<u8> {
    seq![c.version] + wire::zeros(7) + c.card_hash + wire::be64(c.not_after) + c.agent_pubkey + c.card_sig
}

/// The card digest that 128 bytes stand for.
pub open spec fn card_of_wire(p: Seq<u8>) -> CardSummaryView {
    CardSummaryView {
        version: p[0],
        card_hash: p.subrange(8, 24),
        not_after: wire::be64_at(p, 24),
        agent_pubkey: p.subrange(32, 64),
        card_sig: p.subrange(64, 128),
    }
}

/// Reading a card digest gives back what was written.
pub proof fn card_round_trip(c: CardSummaryView)
    requires
        c.card_hash.len() == 16,
        c.agent_pubkey.len() == 32,
        c.card_sig.len() == 64,
    ensures
        card_wire(c).len() == 128,
        card_of_wire(card_wire(c)) == c,
{
    let p = card_wire(c);
    assert(p.subrange(8, 24) =~= c.card_hash);
    assert(p.subrange(24, 32) =~= wire::be64(c.not_after));
    assert(p.subrange(32, 64) =~= c.agent_pubkey);
    assert(p.subrange(64, 128) =~= c.card_sig);
    wire::be64_round_trip(c.not_after, p, 24);
}

impl AgentCardSummary {
    /// Length of the payload.
    pub const PAYLOAD_LEN: usize = 128;

    /// The payload of this digest.
    pub fn to_payload(&self) -> (p: Vec<u8>)
        ensures
            p@ == card_wire(self@),
    {
        let mut p: Vec<u8> = Vec::new();
        p.push(self.version);
        wire::put_zeros(&mut p, 7);
        wire::put_bytes(&mut p, self.card_hash.as_slice());
        wire::put_be64(&mut p, self.not_after);
        wire::put_bytes(&mut p, self.agent_pubkey.as_slice());
        wire::put_bytes(&mut p, self.card_sig.as_slice());
        assert(p@ =~= card_wire(self@));
        p
    }

    /// Reads a payload of 128 bytes; the reserved bytes are not looked at.
    pub fn from_payload(p: &[u8]) -> (r: Result<Self, LayoutError>)
        ensures
            match r {
                Ok(c) => p@.len() == 128 && c@ == card_of_wire(p@),
                Err(e) => p@.len() != 128 && e == LayoutError::BadLen,
            },
    {
        if p.len() != 128 {
            return Err(LayoutError::BadLen);
        }
        let c = AgentCardSummary {
            version: p[0],
            card_hash: wire::array16(vstd::slice::slice_subrange(p, 8, 24)),
            not_after: wire::get_be64(p, 24),
            agent_pubkey: wire::array32(vstd::slice::slice_subrange(p, 32, 64)),
            card_sig: wire::array64(vstd::slice::slice_subrange(p, 64, 128)),
        };
        proof {
            assert(p@.subrange(8, 24).subrange(0, 16) =~= p@.subrange(8, 24));
            assert(p@.subrange(32, 64).subrange(0, 32) =~= p@.subrange(32, 64));
            assert(p@.subrange(64, 128).subrange(0, 64) =~= p@.subrange(64, 128));
        }
        Ok(c)
    }
}

/// The message that a card signature signs: domain, version, hash, expiry,
/// public key.
pub open spec fn card_message(version: u8, card_hash: Seq<u8>, not_after: u64, agent_pubkey: Seq<u8>) -> Seq<u8> {
    agent_card_domain() + seq![version] + card_hash + wire::be64(not_after) + agent_pubkey
}

/// A card message determines what the signature covers.
pub proof fn card_message_injective(v1: u8, h1: Seq<u8>, t1: u64, k1: Seq<u8>, v2: u8, h2: Seq<u8>, t2: u64, k2: Seq<u8>)
    requires
        h1.len() == 16 && k1.len() == 32,
        h2.len() == 16 && k2.len() == 32,
        card_message(v1, h1, t1, k1) == card_message(v2, h2, t2, k2),
    ensures
        v1 == v2 && h1 == h2 && t1 == t2 && k1 == k2,
{
    let m = card_message(v1, h1, t1, k1);
    let w = card_message(v2, h2, t2, k2);
    assert(m[18] == v1 && w[18] == v2);
    assert(m.subrange(19, 35) =~= h1 && w.subrange(19, 35) =~= h2);
    assert(m.subrange(35, 43) =~= wire::be64(t1) && w.subrange(35, 43) =~= wire::be64(t2));
    assert(m.subrange(43, 75) =~= k1 && w.subrange(43, 75) =~= k2);
    wire::be64_round_trip(t1, m, 35);
    wire::be64_round_trip(t2, w, 35);
}

/// No path message is a card message: the domains differ.
pub proof fn signature_domains_differ(i: TraceSigView, version: u8, card_hash: Seq<u8>, not_after: u64, agent_pubkey: Seq<u8>)
    ensures
        trace_message(i) != card_message(version, card_hash, not_after, agent_pubkey),
{
    assert(trace_message(i)[9] == 114);
    assert(card_message(version, card_hash, not_after, agent_pubkey)[9] == 97);
}

/// The message that a card signature signs.
pub fn agent_card_message(version: u8, card_hash: &[u8; 16], not_after: u64, agent_pubkey: &[u8; 32]) -> (m: Vec<u8>)
    ensures
        m@ == card_message(version, card_hash@, not_after, agent_pubkey@),
{
    let d: [u8; 18] = [105, 112, 118, 56, 112, 108, 117, 115, 45, 97, 103, 101, 110, 116, 99, 97, 114, 100];
    assert(d@ =~= agent_card_domain());
    let mut m: Vec<u8> = Vec::new();
    wire::put_bytes(&mut m, d.as_slice());
    m.push(version);
    wire::put_bytes(&mut m, card_hash.as_slice());
    wire::put_be64(&mut m, not_after);
    wire::put_bytes(&mut m, agent_pubkey.as_slice());
    assert(m@ =~= card_message(version, card_hash@, not_after, agent_pubkey@));
    m
}

} // verus!
