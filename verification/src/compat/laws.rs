//! Laws of packet handling.

use vstd::prelude::*;
use crate::compat;
use crate::compat::checksum;
use crate::compat::icmp;
use crate::compat::ip;
use crate::compat::mss;
use crate::compat::ttl;
use crate::wire;

verus! {

/// Multicast and broadcast pass byte for byte, whatever their hop count and
/// their length.
pub proof fn multicast_passes_unchanged(
    p: Seq<u8>,
    mtu: usize,
    asked: Option<u16>,
    our4: Seq<u8>,
    our6: Option<Seq<u8>>,
)
    requires
        ttl::to_many(p),
    ensures
        compat::outbound(p, mtu, asked, our4, our6) == (p, compat::Verdict::Forward),
{
}

/// Without an IPv6 address of its own a tunnel reports no error of an IPv6
/// packet.
pub proof fn no_report_without_address(p: Seq<u8>, mtu: usize, asked: Option<u16>, our4: Seq<u8>)
    requires
        ip::version(p) == 6,
    ensures
        !(compat::outbound(p, mtu, asked, our4, None).1 is Report),
{
}

/// Skipping depends on the bytes that are skipped only.
proof fn skip_frame(p: Seq<u8>, r: Seq<u8>, next: u8, off: int, n: nat)
    requires
        p.len() == r.len(),
        40 <= off <= p.len(),
        ip::skip_extensions(p, next, off, n).0 == 6,
        forall|i: int| 40 <= i < ip::skip_extensions(p, next, off, n).1 ==> p[i] == r[i],
    ensures
        ip::skip_extensions(r, next, off, n) == ip::skip_extensions(p, next, off, n),
    decreases n,
{
    ip::skip_bounds(p, next, off, n);
    if n > 0 {
        if next == 0 || next == 43 || next == 60 {
            let end = off + (p[off + 1] + 1) * 8;
            ip::skip_bounds(p, p[off], end, (n - 1) as nat);
            assert(p[off] == r[off] && p[off + 1] == r[off + 1]);
            skip_frame(p, r, p[off], end, (n - 1) as nat);
        } else if next == 44 {
            ip::skip_bounds(p, p[off], off + 8, (n - 1) as nat);
            assert(p[off] == r[off]);
            skip_frame(p, r, p[off], off + 8, (n - 1) as nat);
        } else if next == 51 {
            let end = off + (p[off + 1] + 2) * 4;
            ip::skip_bounds(p, p[off], end, (n - 1) as nat);
            assert(p[off] == r[off] && p[off + 1] == r[off + 1]);
            skip_frame(p, r, p[off], end, (n - 1) as nat);
        }
    }
}

/// Finding an option depends on the bytes before its value only.
proof fn find_frame(p: Seq<u8>, r: Seq<u8>, pos: int, end: int)
    requires
        0 <= pos,
        mss::find_mss(p, pos, end) is Some,
        forall|i: int| pos <= i < mss::find_mss(p, pos, end)->Some_0 ==> p[i] == r[i],
    ensures
        mss::find_mss(r, pos, end) == mss::find_mss(p, pos, end),
    decreases end - pos,
{
    mss::find_mss_bounds(p, pos, end);
    assert(p[pos] == r[pos] && p[pos + 1] == r[pos + 1]);
    if p[pos] == 1 {
        find_frame(p, r, pos + 1, end);
    } else if !(p[pos] == 2 && p[pos + 1] == 4) {
        find_frame(p, r, pos + p[pos + 1], end);
    }
}

/// What clamping changes where it changes something: the value of the option
/// and the checksums.
pub proof fn clamp_changes(p: Seq<u8>, target: u16)
    requires
        mss::is_syn(p),
        mss::mss_at(p) is Some,
        wire::be16_at(p, mss::mss_at(p)->Some_0) > target,
    ensures
        ({
            let at = mss::mss_at(p)->Some_0;
            let off = ip::transport(p).1;
            let r = mss::clamped(p, target);
            &&& off + 22 <= at && at + 2 <= p.len()
            &&& r.len() == p.len()
            &&& r.subrange(at, at + 2) == wire::be16(target)
            &&& forall|i: int|
                0 <= i < p.len() && i != at && i != at + 1 && i != off + 16 && i != off + 17 && !(ip::version(p) == 4 && (i
                    == 10 || i == 11)) ==> #[trigger] r[i] == p[i]
        }),
{
    let at = mss::mss_at(p)->Some_0;
    let off = ip::transport(p).1;
    mss::transport_bounds(p);
    mss::find_mss_bounds(p, off + 20, mss::tcp_end(p)->Some_0);
    let q = checksum::with16(p, at, target);
    assert(q[0] == p[0]);
    let r = mss::clamped(p, target);
    assert(r == mss::with_sums(q, off));
    assert(r.subrange(at, at + 2) =~= wire::be16(target));
}

/// A packet that opens a connection states after clamping the lesser of what
/// it stated and the target.
pub proof fn clamped_mss_is_minimum(p: Seq<u8>, target: u16)
    requires
        mss::is_syn(p),
        mss::stated_mss(p) is Some,
    ensures
        mss::stated_mss(mss::clamped(p, target)) == Some(
            if mss::stated_mss(p)->Some_0 > target {
                target
            } else {
                mss::stated_mss(p)->Some_0
            },
        ),
{
    let at = mss::mss_at(p)->Some_0;
    if wire::be16_at(p, at) > target {
        let off = ip::transport(p).1;
        let r = mss::clamped(p, target);
        clamp_changes(p, target);
        mss::transport_bounds(p);
        assert(r[0] == p[0]);
        if ip::version(p) == 6 {
            assert(r[6] == p[6]);
            skip_frame(p, r, p[6], 40, 8);
        } else {
            assert(r[9] == p[9]);
        }
        assert(ip::transport(r) == ip::transport(p));
        assert(r[off + 12] == p[off + 12]);
        find_frame(p, r, off + 20, mss::tcp_end(p)->Some_0);
        wire::be16_round_trip(target, r, at);
    }
}

/// A packet that does not open a connection is not clamped.
pub proof fn only_opening_packets_are_clamped(p: Seq<u8>, target: u16)
    requires
        !mss::is_syn(p) || mss::stated_mss(p) is None || mss::stated_mss(p)->Some_0 <= target,
    ensures
        mss::clamped(p, target) == p,
{
}

/// Writing a word into the tail of a packet is to write it into the packet.
proof fn tail_with16(p: Seq<u8>, off: int, at: int, v: u16)
    requires
        0 <= off,
        0 <= at,
        off + at + 1 < p.len(),
    ensures
        checksum::tail(checksum::with16(p, off + at, v), off) == checksum::with16(checksum::tail(p, off), at, v),
{
    assert(checksum::tail(checksum::with16(p, off + at, v), off) =~= checksum::with16(checksum::tail(p, off), at, v));
}

/// The checksum of a TCP segment over IPv4, once written, is consistent.
proof fn tcp_v4_consistent(q: Seq<u8>, off: int)
    requires
        20 <= off,
        off + 20 <= q.len(),
    ensures
        ({
            let r = checksum::with16(q, off + 16, checksum::tcp_sum_v4(q, off));
            checksum::folded(checksum::covered_v4(r, off)) == 0xFFFF
        }),
{
    let r = checksum::with16(q, off + 16, checksum::tcp_sum_v4(q, off));
    let base = checksum::word_sum(checksum::pseudo_v4(q, (q.len() - off) as nat));
    assert(checksum::pseudo_v4(r, (r.len() - off) as nat) =~= checksum::pseudo_v4(q, (q.len() - off) as nat));
    checksum::checksum_is_consistent_with(base, checksum::tail(q, off), 8);
    tail_with16(q, off, 16, checksum::tcp_sum_v4(q, off));
}

/// The checksum of a TCP segment over IPv6, once written, is consistent.
proof fn tcp_v6_consistent(q: Seq<u8>, off: int)
    requires
        40 <= off,
        off + 20 <= q.len(),
    ensures
        ({
            let r = checksum::with16(q, off + 16, checksum::l4_sum_v6(q, off, 6));
            checksum::folded(checksum::covered_v6(r, off, 6)) == 0xFFFF
        }),
{
    let r = checksum::with16(q, off + 16, checksum::l4_sum_v6(q, off, 6));
    let base = checksum::word_sum(checksum::pseudo_v6(q, (q.len() - off) as nat, 6));
    assert(checksum::pseudo_v6(r, (r.len() - off) as nat, 6) =~= checksum::pseudo_v6(q, (q.len() - off) as nat, 6));
    checksum::checksum_is_consistent_with(base, checksum::tail(q, off), 8);
    tail_with16(q, off, 16, checksum::l4_sum_v6(q, off, 6));
}

/// Where clamping changes a packet, its checksums are right afterwards: that
/// of an IPv4 header, and that of the segment with its pseudo header.
pub proof fn clamping_keeps_checksums(p: Seq<u8>, target: u16)
    requires
        mss::is_syn(p),
        mss::stated_mss(p) is Some,
        mss::stated_mss(p)->Some_0 > target,
    ensures
        ({
            let off = ip::transport(p).1;
            let r = mss::clamped(p, target);
            if ip::version(p) == 4 {
                &&& checksum::folded(checksum::word_sum(r.subrange(0, off))) == 0xFFFF
                &&& checksum::folded(checksum::covered_v4(r, off)) == 0xFFFF
            } else {
                checksum::folded(checksum::covered_v6(r, off, 6)) == 0xFFFF
            }
        }),
{
    let at = mss::mss_at(p)->Some_0;
    let off = ip::transport(p).1;
    clamp_changes(p, target);
    mss::transport_bounds(p);
    let q = checksum::with16(p, at, target);
    assert(q[0] == p[0]);
    let r = mss::clamped(p, target);
    assert(r == mss::with_sums(q, off));
    if ip::version(p) == 4 {
        let c = checksum::complement(checksum::word_sum(checksum::with16(q, 10, 0).subrange(0, off)));
        let s = checksum::with16(q, 10, c);
        tcp_v4_consistent(s, off);
        checksum::checksum_is_consistent(q.subrange(0, off), 5);
        assert(checksum::with16(q, 10, 0).subrange(0, off) =~= checksum::with16(q.subrange(0, off), 10, 0));
        assert(r.subrange(0, off) =~= checksum::with16(q.subrange(0, off), 10, c));
    } else {
        tcp_v6_consistent(q, off);
    }
}

/// After a hop is counted the checksum of an IPv4 header is right.
pub proof fn hop_count_keeps_checksum(p: Seq<u8>)
    requires
        ip::ihl(p) > 0,
        p[8] > 0,
    ensures
        ({
            let q = ttl::one_hop_less(p).0;
            &&& q[8] == p[8] - 1
            &&& checksum::folded(checksum::word_sum(q.subrange(0, ip::ihl(p) as int))) == 0xFFFF
        }),
{
    let n = ip::ihl(p) as int;
    let d = p.update(8, (p[8] - 1) as u8);
    assert(d[0] == p[0]);
    let c = checksum::complement(checksum::word_sum(checksum::with16(d, 10, 0).subrange(0, n)));
    let q = ttl::one_hop_less(p).0;
    assert(q == checksum::with16(d, 10, c));
    checksum::checksum_is_consistent(d.subrange(0, n), 5);
    assert(checksum::with16(d, 10, 0).subrange(0, n) =~= checksum::with16(d.subrange(0, n), 10, 0));
    assert(q.subrange(0, n) =~= checksum::with16(d.subrange(0, n), 10, c));
}

/// An error message over IPv4 has right checksums, in its header and in the
/// message, and goes to the sender of the packet.
pub proof fn report_v4_is_consistent(offending: Seq<u8>, our: Seq<u8>, kind: u8, code: u8, rest: Seq<u8>)
    requires
        icmp::report_v4(offending, our, kind, code, rest) is Some,
        our.len() == 4,
        rest.len() == 4,
    ensures
        ({
            let r = icmp::report_v4(offending, our, kind, code, rest)->Some_0;
            &&& r.len() >= 28
            &&& checksum::folded(checksum::word_sum(r.subrange(0, 20))) == 0xFFFF
            &&& checksum::folded(checksum::word_sum(checksum::tail(r, 20))) == 0xFFFF
            &&& r.subrange(12, 16) == our
            &&& r.subrange(16, 20) == offending.subrange(12, 16)
        }),
{
    let m = icmp::message(kind, code, rest, icmp::quote_v4(offending));
    let h = icmp::header_v4(m.len(), our, offending.subrange(12, 16));
    let r = icmp::report_v4(offending, our, kind, code, rest)->Some_0;
    assert(h.len() == 20);
    assert(checksum::with16(h, 10, 0) =~= h);
    assert(checksum::with16(m, 2, 0) =~= m);
    checksum::checksum_is_consistent(h, 5);
    checksum::checksum_is_consistent(m, 1);
    assert(r.subrange(0, 20) =~= checksum::with16(h, 10, checksum::complement(checksum::word_sum(h))));
    assert(checksum::tail(r, 20) =~= checksum::with16(m, 2, checksum::complement(checksum::word_sum(m))));
    assert(r.subrange(12, 16) =~= our);
    assert(r.subrange(16, 20) =~= offending.subrange(12, 16));
}

/// The pseudo header of a packet lies in its first 40 bytes and its length.
proof fn same_pseudo_v6(p: Seq<u8>, r: Seq<u8>)
    requires
        p.len() == r.len() >= 40,
        forall|i: int| 0 <= i < 40 ==> p[i] == r[i],
    ensures
        checksum::pseudo_sum_v6(r, 40, 58) == checksum::pseudo_sum_v6(p, 40, 58),
{
    assert(checksum::pseudo_v6(r, (r.len() - 40) as nat, 58) =~= checksum::pseudo_v6(p, (p.len() - 40) as nat, 58));
}

/// An error message over IPv6 has a right checksum, which covers the pseudo
/// header, and goes to the sender of the packet.
pub proof fn report_v6_is_consistent(offending: Seq<u8>, our: Seq<u8>, kind: u8, code: u8, rest: Seq<u8>)
    requires
        icmp::report_v6(offending, our, kind, code, rest) is Some,
        our.len() == 16,
        rest.len() == 4,
    ensures
        ({
            let r = icmp::report_v6(offending, our, kind, code, rest)->Some_0;
            &&& r.len() >= 48
            &&& checksum::folded(checksum::covered_v6(r, 40, 58)) == 0xFFFF
            &&& r.subrange(8, 24) == our
            &&& r.subrange(24, 40) == offending.subrange(8, 24)
        }),
{
    let m = icmp::message(kind, code, rest, icmp::quote_v6(offending));
    let p = icmp::header_v6(m.len(), our, offending.subrange(8, 24)) + m;
    let r = icmp::report_v6(offending, our, kind, code, rest)->Some_0;
    let c = checksum::control_sum_v6(p);
    assert(r == checksum::with16(p, 42, c));
    let base = checksum::pseudo_sum_v6(p, 40, 58);
    same_pseudo_v6(p, r);
    tail_with16(p, 40, 2, 0);
    tail_with16(p, 40, 2, c);
    checksum::checksum_is_consistent_with(base, checksum::tail(p, 40), 1);
    assert(r.subrange(8, 24) =~= our);
    assert(r.subrange(24, 40) =~= offending.subrange(8, 24));
}

} // verus!
