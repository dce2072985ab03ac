//! Laws of what becomes of a packet, told by the bytes of the packet.

use vstd::prelude::*;
use crate::compat;
use crate::compat::checksum;
use crate::compat::icmp;
use crate::compat::ip;
use crate::compat::laws;
use crate::compat::mss;
use crate::compat::ttl;
use crate::wire;

verus! {

/// An IPv4 packet with all of its shortest header.
pub open spec fn is_v4(p: Seq<u8>) -> bool {
    p.len() >= 20 && 64 <= p[0] < 80
}

/// An IPv6 packet with all of its header.
pub open spec fn is_v6(p: Seq<u8>) -> bool {
    p.len() >= 40 && 96 <= p[0] < 112
}

/// An IPv4 packet to one receiver.
pub open spec fn unicast_v4(p: Seq<u8>) -> bool {
    is_v4(p) && !(224 <= p[16] <= 239) && !(p[19] == 255 && p[16] > 0)
}

/// An IPv6 packet to one receiver.
pub open spec fn unicast_v6(p: Seq<u8>) -> bool {
    is_v6(p) && p[24] != 0xff
}

/// Whether an IPv4 packet has the mark that forbids its fragmentation.
pub open spec fn marked(p: Seq<u8>) -> bool {
    p[6] % 128 >= 64
}

/// What is not IP, and what goes to many receivers, passes byte for byte.
pub proof fn others_pass_unchanged(p: Seq<u8>, mtu: usize, asked: Option<u16>, our4: Seq<u8>, our6: Option<Seq<u8>>)
    requires
        p.len() == 0 || p[0] < 64 || (80 <= p[0] < 96) || p[0] >= 112 || (is_v4(p) && !unicast_v4(p)) || (is_v6(p)
            && !unicast_v6(p)),
    ensures
        compat::outbound(p, mtu, asked, our4, our6) == (p, compat::Verdict::Forward),
{
}

/// An IP packet that is shorter than its header is dropped.
pub proof fn cut_packets_are_dropped(p: Seq<u8>, mtu: usize, asked: Option<u16>, our4: Seq<u8>, our6: Option<Seq<u8>>)
    requires
        (0 < p.len() < 20 && 64 <= p[0] < 80) || (0 < p.len() < 40 && 96 <= p[0] < 112),
    ensures
        compat::outbound(p, mtu, asked, our4, our6) == (p, compat::Verdict::Drop),
{
}

/// What counting a hop changes of an IPv4 packet: the hop count and the
/// checksum.
proof fn hop_changes_v4(p: Seq<u8>)
    requires
        is_v4(p),
        p[8] > 0,
    ensures
        ({
            let q = ttl::one_hop_less(p).0;
            &&& q.len() == p.len()
            &&& q[8] == p[8] - 1
            &&& forall|i: int| 0 <= i < p.len() && i != 8 && i != 10 && i != 11 ==> #[trigger] q[i] == p[i]
        }),
{
}

/// What clamping leaves alone.
proof fn clamp_frame(p: Seq<u8>, target: u16)
    ensures
        mss::clamped(p, target).len() == p.len(),
        is_v4(p) && ip::ihl(p) > 0 ==> forall|i: int|
            0 <= i < 20 && i != 10 && i != 11 ==> #[trigger] mss::clamped(p, target)[i] == p[i],
        is_v4(p) && ip::ihl(p) == 0 ==> mss::clamped(p, target) == p,
        is_v6(p) ==> forall|i: int| 0 <= i < 40 ==> #[trigger] mss::clamped(p, target)[i] == p[i],
{
    if mss::clamped(p, target) != p {
        laws::clamp_changes(p, target);
        mss::transport_bounds(p);
    }
}

/// An IPv4 packet to one receiver with at least two hops left goes on, with one
/// hop less, unless it is longer than the MTU and must not be fragmented: a
/// packet that may be fragmented goes on whatever its length. But for the
/// checksum its header is left alone.
#[verifier::spinoff_prover]
#[verifier::rlimit(80)]
pub proof fn fragmentable_packet_goes_on(
    p: Seq<u8>,
    mtu: usize,
    asked: Option<u16>,
    our4: Seq<u8>,
    our6: Option<Seq<u8>>,
)
    requires
        unicast_v4(p),
        p[8] >= 2,
        !marked(p) || p.len() <= mtu,
    ensures
        ({
            let (q, v) = compat::outbound(p, mtu, asked, our4, our6);
            &&& v == compat::Verdict::Forward
            &&& q.len() == p.len()
            &&& q[8] == p[8] - 1
            &&& forall|i: int| 0 <= i < 20 && i != 8 && i != 10 && i != 11 ==> #[trigger] q[i] == p[i]
            &&& p[9] != 6 ==> forall|i: int| 20 <= i < p.len() ==> #[trigger] q[i] == p[i]
        }),
{
    hop_changes_v4(p);
    let h = ttl::one_hop_less(p).0;
    assert(h[6] == p[6] && h[9] == p[9] && h[0] == p[0]);
    let t = compat::mss_target(p, mtu, asked);
    clamp_frame(h, t);
    if p[9] != 6 {
        assert(mss::clamped(h, t) == h);
    }
}

/// What an error message over IPv4 is made of: who it is from and for, its kind,
/// its four bytes, and the beginning of the packet that it is about.
proof fn report_v4_parts(q: Seq<u8>, our: Seq<u8>, kind: u8, code: u8, rest: Seq<u8>)
    requires
        is_v4(q),
        our.len() == 4,
        rest.len() == 4,
    ensures
        ({
            let r = icmp::report_v4(q, our, kind, code, rest);
            let e = r->Some_0;
            &&& r is Some
            &&& e.len() == 28 + icmp::quote_v4(q).len()
            &&& e[0] == 0x45 && e[9] == 1 && e[8] == 64
            &&& e.subrange(12, 16) == our
            &&& e.subrange(16, 20) == q.subrange(12, 16)
            &&& e[20] == kind && e[21] == code
            &&& e.subrange(24, 28) == rest
            &&& checksum::tail(e, 28) == icmp::quote_v4(q)
        }),
{
    let m = icmp::message(kind, code, rest, icmp::quote_v4(q));
    let h = icmp::header_v4(m.len(), our, q.subrange(12, 16));
    let e = icmp::report_v4(q, our, kind, code, rest)->Some_0;
    assert(h.len() == 20);
    assert(e.subrange(12, 16) =~= our);
    assert(e.subrange(16, 20) =~= q.subrange(12, 16));
    assert(e.subrange(24, 28) =~= rest);
    assert(checksum::tail(e, 28) =~= icmp::quote_v4(q));
}

/// Whether an ICMP message tells the sender of `p` an error of a kind, and
/// quotes the beginning of the packet: of its header all but the hop count and
/// the checksum, which the hop has changed.
pub open spec fn tells_v4(e: Seq<u8>, p: Seq<u8>, our: Seq<u8>, kind: u8, code: u8) -> bool {
    &&& e.len() >= 28 + 20
    &&& e[0] == 0x45 && e[8] == 64 && e[9] == 1
    &&& e[2] * 256 + e[3] == e.len()
    &&& e.subrange(12, 16) == our
    &&& e.subrange(16, 20) == p.subrange(12, 16)
    &&& e[20] == kind
    &&& e[21] == code
    &&& forall|i: int| 0 <= i < 20 && i != 8 && i != 10 && i != 11 ==> e[28 + i] == #[trigger] p[i]
    &&& p[0] == 0x45 && p.len() >= 28 ==> e.len() == 56 && forall|i: int| 20 <= i < 28 ==> e[28 + i] == #[trigger] p[i]
}

/// A message about a packet after its hop was counted tells its sender.
proof fn report_tells_v4(p: Seq<u8>, q: Seq<u8>, our: Seq<u8>, kind: u8, code: u8, rest: Seq<u8>)
    requires
        is_v4(p),
        p.len() == q.len(),
        forall|i: int| 0 <= i < p.len() && i != 8 && i != 10 && i != 11 ==> #[trigger] q[i] == p[i],
        ip::ihl(p) > 0,
        our.len() == 4,
        rest.len() == 4,
    ensures
        icmp::report_v4(q, our, kind, code, rest) is Some,
        tells_v4(icmp::report_v4(q, our, kind, code, rest)->Some_0, p, our, kind, code),
        icmp::report_v4(q, our, kind, code, rest)->Some_0.subrange(24, 28) == rest,
{
    assert(q[0] == p[0]);
    report_v4_parts(q, our, kind, code, rest);
    let e = icmp::report_v4(q, our, kind, code, rest)->Some_0;
    let quote = icmp::quote_v4(q);
    assert(quote.len() >= 20);
    assert(q.subrange(12, 16) =~= p.subrange(12, 16));
    assert forall|i: int| 0 <= i < quote.len() implies e[28 + i] == #[trigger] q[i] by {
        assert(checksum::tail(e, 28)[i] == quote[i]);
    }
    if p[0] == 0x45 && p.len() >= 28 {
        assert(quote.len() == 28);
    }
}

/// What becomes of a packet that must not be fragmented and is too long.
#[verifier::spinoff_prover]
#[verifier::rlimit(80)]
proof fn too_long_v4(p: Seq<u8>, mtu: usize, asked: Option<u16>, our4: Seq<u8>, our6: Option<Seq<u8>>)
    requires
        unicast_v4(p),
        p[8] >= 2,
        marked(p),
        p.len() > mtu,
    ensures
        compat::outbound(p, mtu, asked, our4, our6).1 == compat::reported(
            icmp::report_v4(ttl::one_hop_less(p).0, our4, 3, 4, wire::zeros(2) + wire::be16(compat::low16(mtu))),
        ),
{
    hop_changes_v4(p);
    assert(ttl::one_hop_less(p).0[6] == p[6]);
}

/// An IPv4 packet to one receiver that is longer than the MTU and must not be
/// fragmented, with at least two hops left, is reported as such: the message
/// states the MTU.
#[verifier::spinoff_prover]
#[verifier::rlimit(80)]
pub proof fn unfragmentable_packet_is_reported(
    p: Seq<u8>,
    mtu: usize,
    asked: Option<u16>,
    our4: Seq<u8>,
    our6: Option<Seq<u8>>,
)
    requires
        unicast_v4(p),
        p[0] % 16 >= 5,
        p.len() >= p[0] % 16 * 4,
        p[8] >= 2,
        marked(p),
        p.len() > mtu,
        our4.len() == 4,
    ensures
        ({
            let (q, v) = compat::outbound(p, mtu, asked, our4, our6);
            &&& v matches compat::Verdict::Report(e)
            &&& tells_v4(e, p, our4, 3, 4)
            &&& e[24] == 0 && e[25] == 0 && e[26] * 256 + e[27] == mtu % 65536
        }),
{
    hop_changes_v4(p);
    too_long_v4(p, mtu, asked, our4, our6);
    let q = ttl::one_hop_less(p).0;
    let rest = wire::zeros(2) + wire::be16(compat::low16(mtu));
    report_tells_v4(p, q, our4, 3, 4, rest);
    let e = icmp::report_v4(q, our4, 3, 4, rest)->Some_0;
    let s = e.subrange(24, 28);
    assert(s[0] == e[24] && s[1] == e[25] && s[2] == e[26] && s[3] == e[27]);
}

/// An IPv4 packet to one receiver whose last hop this is is reported as expired,
/// whatever its length.
#[verifier::spinoff_prover]
#[verifier::rlimit(80)]
pub proof fn expired_packet_is_reported(
    p: Seq<u8>,
    mtu: usize,
    asked: Option<u16>,
    our4: Seq<u8>,
    our6: Option<Seq<u8>>,
)
    requires
        unicast_v4(p),
        p[0] % 16 >= 5,
        p.len() >= p[0] % 16 * 4,
        p[8] <= 1,
        our4.len() == 4,
    ensures
        compat::outbound(p, mtu, asked, our4, our6).1 matches compat::Verdict::Report(e) && tells_v4(e, p, our4, 11, 0),
{
    if p[8] == 1 {
        hop_changes_v4(p);
    }
    report_tells_v4(p, ttl::one_hop_less(p).0, our4, 11, 0, wire::zeros(4));
}

/// An error of an IPv4 packet is reported for these two reasons alone: its hops
/// are used up, or it must not be fragmented and is too long.
#[verifier::spinoff_prover]
#[verifier::rlimit(80)]
pub proof fn report_has_a_reason(p: Seq<u8>, mtu: usize, asked: Option<u16>, our4: Seq<u8>, our6: Option<Seq<u8>>)
    requires
        is_v4(p),
        !(compat::outbound(p, mtu, asked, our4, our6).1 is Forward),
    ensures
        unicast_v4(p),
        p[8] <= 1 || (marked(p) && p.len() > mtu),
{
    if p[8] >= 2 {
        hop_changes_v4(p);
        assert(ttl::one_hop_less(p).0[6] == p[6]);
    }
}

/// Whether an ICMPv6 message tells the sender of `p` an error of a kind.
pub open spec fn tells_v6(e: Seq<u8>, p: Seq<u8>, our: Seq<u8>, kind: u8) -> bool {
    &&& e.len() == 48 + (if p.len() < 48 {
        p.len()
    } else {
        48
    })
    &&& e[0] == 0x60 && e[6] == 58 && e[7] == 64
    &&& e[4] * 256 + e[5] == e.len() - 40
    &&& e.subrange(8, 24) == our
    &&& e.subrange(24, 40) == p.subrange(8, 24)
    &&& e[40] == kind
    &&& e[41] == 0
    &&& forall|i: int| 0 <= i < p.len() && i < 48 && i != 7 ==> e[48 + i] == #[trigger] p[i]
}

/// A message about a packet after its hop was counted tells its sender.
proof fn report_tells_v6(p: Seq<u8>, q: Seq<u8>, our: Seq<u8>, kind: u8, rest: Seq<u8>)
    requires
        is_v6(p),
        p.len() == q.len(),
        forall|i: int| 0 <= i < p.len() && i != 7 ==> #[trigger] q[i] == p[i],
        our.len() == 16,
        rest.len() == 4,
    ensures
        icmp::report_v6(q, our, kind, 0, rest) is Some,
        tells_v6(icmp::report_v6(q, our, kind, 0, rest)->Some_0, p, our, kind),
        icmp::report_v6(q, our, kind, 0, rest)->Some_0.subrange(44, 48) == rest,
{
    assert(q[0] == p[0]);
    let quote = icmp::quote_v6(q);
    let m = icmp::message(kind, 0, rest, quote);
    let h = icmp::header_v6(m.len(), our, q.subrange(8, 24));
    let e = icmp::report_v6(q, our, kind, 0, rest)->Some_0;
    assert(h.len() == 40);
    assert(q.subrange(8, 24) =~= p.subrange(8, 24));
    assert(e.subrange(8, 24) =~= our);
    assert(e.subrange(24, 40) =~= p.subrange(8, 24));
    assert(e.subrange(44, 48) =~= rest);
    assert forall|i: int| 0 <= i < p.len() && i < 48 && i != 7 implies e[48 + i] == #[trigger] p[i] by {
        assert((h + m)[48 + i] == quote[i]);
        assert(q[i] == p[i]);
    }
}

/// What becomes of an IPv6 packet to one receiver. With at least two hops left
/// and not longer than the MTU it goes on, with one hop less and the rest of its
/// header as it was. Otherwise its sender is told that its hops are used up, or
/// how long it may be, where there is an address to tell it from, and it is
/// dropped in silence where there is none.
#[verifier::spinoff_prover]
#[verifier::rlimit(80)]
pub proof fn v6_packet_is_treated(p: Seq<u8>, mtu: usize, asked: Option<u16>, our4: Seq<u8>, our6: Option<Seq<u8>>)
    requires
        unicast_v6(p),
        our6 matches Some(a) ==> a.len() == 16,
    ensures
        ({
            let (q, v) = compat::outbound(p, mtu, asked, our4, our6);
            if p[7] >= 2 && p.len() <= mtu {
                &&& v == compat::Verdict::Forward
                &&& q.len() == p.len()
                &&& q[7] == p[7] - 1
                &&& forall|i: int| 0 <= i < 40 && i != 7 ==> #[trigger] q[i] == p[i]
            } else if our6 is None {
                v == compat::Verdict::Drop
            } else if p[7] <= 1 {
                v matches compat::Verdict::Report(e) && tells_v6(e, p, our6->0, 3)
            } else {
                &&& v matches compat::Verdict::Report(e)
                &&& tells_v6(e, p, our6->0, 2)
                &&& e[44] * 0x100_0000 + e[45] * 0x1_0000 + e[46] * 0x100 + e[47] == (mtu + 0) % 0x1_0000_0000
            }
        }),
{
    let q = ttl::one_hop_less(p).0;
    clamp_frame(q, compat::mss_target(p, mtu, asked));
    if our6 is Some {
        report_tells_v6(p, q, our6->0, 3, wire::zeros(4));
        let rest = wire::be32(compat::low32(mtu));
        report_tells_v6(p, q, our6->0, 2, rest);
        let e = icmp::report_v6(q, our6->0, 2, 0, rest)->Some_0;
        let s = e.subrange(44, 48);
        assert(s[0] == e[44] && s[1] == e[45] && s[2] == e[46] && s[3] == e[47]);
    }
}

/// Whether an option at `b` stands right behind one at `a` that is not the end
/// and does not state a segment size.
pub open spec fn follows(p: Seq<u8>, a: int, b: int) -> bool {
    if p[a] == 1 {
        b == a + 1
    } else {
        p[a] != 0 && !(p[a] == 2 && p[a + 1] == 4) && p[a + 1] > 0 && b == a + p[a + 1]
    }
}

/// Whether `s` are the places of TCP options, one behind the other, the last of
/// them the first that states a segment size.
pub open spec fn leads_to_mss(p: Seq<u8>, s: Seq<int>) -> bool
    decreases s.len(),
{
    &&& s.len() > 0
    &&& s[0] >= 0
    &&& if s.len() == 1 {
        p[s[0]] == 2 && p[s[0] + 1] == 4
    } else {
        follows(p, s[0], s[1]) && leads_to_mss(p, s.drop_first())
    }
}

/// The first option that states a segment size is found, behind whatever other
/// options and fillers there are.
pub proof fn first_mss_option_is_found(p: Seq<u8>, s: Seq<int>, end: int)
    requires
        leads_to_mss(p, s),
        s.last() + 4 <= end,
    ensures
        mss::find_mss(p, s[0], end) == Some(s.last() + 2),
        s[0] <= s.last(),
    decreases s.len(),
{
    if s.len() > 1 {
        first_mss_option_is_found(p, s.drop_first(), end);
        assert(s.drop_first().last() == s.last());
    }
}

/// The places of options depend on the bytes of the options alone.
proof fn places_frame(p: Seq<u8>, h: Seq<u8>, s: Seq<int>)
    requires
        leads_to_mss(p, s),
        forall|i: int| s[0] <= i <= s.last() + 1 ==> #[trigger] h[i] == p[i],
    ensures
        leads_to_mss(h, s),
    decreases s.len(),
{
    first_mss_option_is_found(p, s, s.last() + 4);
    if s.len() > 1 {
        let t = s.drop_first();
        first_mss_option_is_found(p, t, s.last() + 4);
        assert(t.last() == s.last() && t[0] == s[1]);
        places_frame(p, h, t);
        assert(h[s[0]] == p[s[0]] && h[s[0] + 1] == p[s[0] + 1]);
    }
}

/// What clamping does to a TCP packet over IPv4 that opens a connection.
#[verifier::spinoff_prover]
#[verifier::rlimit(80)]
proof fn clamps_v4(h: Seq<u8>, s: Seq<int>, t: u16)
    requires
        h.len() >= 40,
        h[0] == 0x45,
        h[9] == 6,
        h[32] / 16 * 4 >= 20,
        h.len() >= 20 + h[32] / 16 * 4,
        h[33] / 2 % 2 == 1,
        leads_to_mss(h, s),
        s[0] == 40,
        s.last() + 4 <= 20 + h[32] / 16 * 4,
    ensures
        ({
            let q = mss::clamped(h, t);
            let at = s.last() + 2;
            let stated = h[at] * 256 + h[at + 1];
            &&& 42 <= at && at + 2 <= h.len()
            &&& q.len() == h.len()
            &&& q[at] * 256 + q[at + 1] == if stated < t {
                stated
            } else {
                t + 0
            }
            &&& forall|i: int|
                20 <= i < h.len() && i != at && i != at + 1 && i != 36 && i != 37 ==> #[trigger] q[i] == h[i]
        }),
{
    let end = 20 + h[32] / 16 * 4;
    first_mss_option_is_found(h, s, end);
    let at = s.last() + 2;
    assert(ip::transport(h) == (6u8, 20int));
    assert(mss::mss_at(h) == Some(at));
    assert(mss::is_syn(h));
    assert(wire::be16_at(h, at) == h[at] * 256 + h[at + 1]);
    if wire::be16_at(h, at) > t {
        laws::clamp_changes(h, t);
        let q = mss::clamped(h, t);
        let b = q.subrange(at, at + 2);
        assert(b[0] == q[at] && b[1] == q[at + 1]);
    }
}

/// What goes on of an IPv4 packet that is not reported.
#[verifier::spinoff_prover]
#[verifier::rlimit(80)]
proof fn goes_on_v4(p: Seq<u8>, mtu: usize, asked: Option<u16>, our4: Seq<u8>, our6: Option<Seq<u8>>)
    requires
        unicast_v4(p),
        p[8] >= 2,
        !marked(p) || p.len() <= mtu,
    ensures
        compat::outbound(p, mtu, asked, our4, our6) == (
            mss::clamped(ttl::one_hop_less(p).0, compat::mss_target(p, mtu, asked)),
            compat::Verdict::Forward,
        ),
{
    hop_changes_v4(p);
    assert(ttl::one_hop_less(p).0[6] == p[6]);
}

/// What clamping does to such a packet after its hop was counted.
#[verifier::spinoff_prover]
#[verifier::rlimit(80)]
proof fn clamps_after_hop(p: Seq<u8>, s: Seq<int>, t: u16)
    requires
        is_v4(p),
        p[8] >= 2,
        p[9] == 6,
        p[0] == 0x45,
        p.len() >= 40,
        p[32] / 16 * 4 >= 20,
        p.len() >= 20 + p[32] / 16 * 4,
        p[33] / 2 % 2 == 1,
        leads_to_mss(p, s),
        s[0] == 40,
        s.last() + 4 <= 20 + p[32] / 16 * 4,
    ensures
        ({
            let q = mss::clamped(ttl::one_hop_less(p).0, t);
            let at = s.last() + 2;
            let stated = p[at] * 256 + p[at + 1];
            &&& q[at] * 256 + q[at + 1] == if stated < t {
                stated
            } else {
                t + 0
            }
            &&& forall|i: int|
                20 <= i < p.len() && i != at && i != at + 1 && i != 36 && i != 37 ==> #[trigger] q[i] == p[i]
        }),
{
    hop_changes_v4(p);
    let h = ttl::one_hop_less(p).0;
    first_mss_option_is_found(p, s, 20 + p[32] / 16 * 4);
    places_frame(p, h, s);
    assert(h[0] == p[0] && h[9] == p[9] && h[32] == p[32] && h[33] == p[33]);
    clamps_v4(h, s, t);
    let at = s.last() + 2;
    assert(h[at] == p[at] && h[at + 1] == p[at + 1]);
    let q = mss::clamped(h, t);
    assert forall|i: int| 20 <= i < p.len() && i != at && i != at + 1 && i != 36 && i != 37 implies #[trigger] q[i]
        == p[i] by {
        assert(q[i] == h[i]);
    }
}

/// A TCP packet over IPv4 that opens a connection states after its hop into the
/// tunnel, at the same place, the lesser of what it stated and what fits: the
/// size that was asked for, or what the MTU leaves next to 40 bytes of headers.
/// `s` are the places of its options.
#[verifier::spinoff_prover]
#[verifier::rlimit(80)]
pub proof fn opening_packet_is_clamped(
    p: Seq<u8>,
    s: Seq<int>,
    mtu: usize,
    asked: Option<u16>,
    our4: Seq<u8>,
    our6: Option<Seq<u8>>,
)
    requires
        unicast_v4(p),
        p[8] >= 2,
        p[9] == 6,
        !marked(p) || p.len() <= mtu,
        p[0] == 0x45,
        p.len() >= 40,
        p[32] / 16 * 4 >= 20,
        p.len() >= 20 + p[32] / 16 * 4,
        p[33] / 2 % 2 == 1,
        leads_to_mss(p, s),
        s[0] == 40,
        s.last() + 4 <= 20 + p[32] / 16 * 4,
        asked is None ==> 40 <= mtu < 65576,
    ensures
        ({
            let q = compat::outbound(p, mtu, asked, our4, our6).0;
            let at = s.last() + 2;
            let stated = p[at] * 256 + p[at + 1];
            let most = match asked {
                Some(n) => n as int,
                None => mtu - 40,
            };
            &&& q[at] * 256 + q[at + 1] == if stated < most {
                stated
            } else {
                most
            }
            &&& forall|i: int|
                20 <= i < p.len() && i != at && i != at + 1 && i != 36 && i != 37 ==> #[trigger] q[i] == p[i]
        }),
{
    goes_on_v4(p, mtu, asked, our4, our6);
    clamps_after_hop(p, s, compat::mss_target(p, mtu, asked));
}

/// A packet out of the tunnel keeps its hop count and its addresses.
pub proof fn inbound_keeps_the_header(p: Seq<u8>, mtu: usize, asked: Option<u16>)
    ensures
        ({
            let q = mss::clamped(p, compat::mss_target(p, mtu, asked));
            &&& q.len() == p.len()
            &&& is_v4(p) ==> forall|i: int| 0 <= i < 20 && i != 10 && i != 11 ==> #[trigger] q[i] == p[i]
            &&& is_v6(p) ==> forall|i: int| 0 <= i < 40 ==> #[trigger] q[i] == p[i]
        }),
{
    clamp_frame(p, compat::mss_target(p, mtu, asked));
}

/// The greatest segment that fits: what is asked for, or the MTU without the
/// headers of IP and TCP.
pub proof fn greatest_segment(p: Seq<u8>, mtu: usize, asked: Option<u16>)
    requires
        mtu <= 65535,
    ensures
        asked matches Some(n) ==> compat::mss_target(p, mtu, asked) == n,
        asked is None && is_v4(p) && mtu >= 40 ==> compat::mss_target(p, mtu, asked) == mtu - 40,
        asked is None && is_v4(p) && mtu < 40 ==> compat::mss_target(p, mtu, asked) == 0,
        asked is None && is_v6(p) && mtu >= 60 ==> compat::mss_target(p, mtu, asked) == mtu - 60,
        asked is None && is_v6(p) && mtu < 60 ==> compat::mss_target(p, mtu, asked) == 0,
{
}

} // verus!
