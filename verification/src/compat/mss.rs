//! Clamping of the TCP maximum segment size.

use vstd::prelude::*;
use crate::compat::checksum;
use crate::compat::ip;
use crate::wire;

verus! {

/// Where the value of the first MSS option stands among the TCP options from
/// `pos` to `end`.
pub open spec fn find_mss(p: Seq<u8>, pos: int, end: int) -> Option<int>
    decreases end - pos,
{
    if pos >= end || p[pos] == 0 {
        None
    } else if p[pos] == 1 {
        find_mss(p, pos + 1, end)
    } else if pos + 1 >= end || p[pos + 1] == 0 || pos + p[pos + 1] > end {
        None
    } else if p[pos] == 2 && p[pos + 1] == 4 {
        Some(pos + 2)
    } else {
        find_mss(p, pos + p[pos + 1], end)
    }
}

/// Where the TCP header of a packet ends, where all of it is there.
pub open spec fn tcp_end(p: Seq<u8>) -> Option<int> {
    let (proto, off) = ip::transport(p);
    let n = p[off + 12] / 16 * 4;
    if proto != 6 || p.len() < off + 20 || n < 20 || p.len() < off + n {
        None
    } else {
        Some(off + n)
    }
}

/// Where the value of the MSS option of a packet stands.
pub open spec fn mss_at(p: Seq<u8>) -> Option<int> {
    match tcp_end(p) {
        Some(end) => find_mss(p, ip::transport(p).1 + 20, end),
        None => None,
    }
}

/// The MSS that a packet states.
pub open spec fn stated_mss(p: Seq<u8>) -> Option<u16> {
    match mss_at(p) {
        Some(at) => Some(wire::be16_at(p, at)),
        None => None,
    }
}

/// Whether a packet opens a TCP connection.
pub open spec fn is_syn(p: Seq<u8>) -> bool {
    tcp_end(p) is Some && p[ip::transport(p).1 + 13] / 2 % 2 == 1
}

/// A packet with the checksums of its headers set anew.
pub open spec fn with_sums(p: Seq<u8>, off: int) -> Seq<u8> {
    if ip::version(p) == 4 {
        let q = checksum::with16(
            p,
            10,
            checksum::complement(checksum::word_sum(checksum::with16(p, 10, 0).subrange(0, off))),
        );
        checksum::with16(q, off + 16, checksum::tcp_sum_v4(q, off))
    } else {
        checksum::with16(p, off + 16, checksum::l4_sum_v6(p, off, 6))
    }
}

/// A packet with its MSS option clamped: lowered to `target` where it opens a
/// connection and states more.
pub open spec fn clamped(p: Seq<u8>, target: u16) -> Seq<u8> {
    match mss_at(p) {
        Some(at) => if is_syn(p) && wire::be16_at(p, at) > target {
            with_sums(checksum::with16(p, at, target), ip::transport(p).1)
        } else {
            p
        },
        None => p,
    }
}

/// Where an MSS option is found.
pub proof fn find_mss_bounds(p: Seq<u8>, pos: int, end: int)
    requires
        0 <= pos,
    ensures
        find_mss(p, pos, end) matches Some(at) ==> pos + 2 <= at && at + 2 <= end,
    decreases end - pos,
{
    if pos < end && p[pos] != 0 {
        if p[pos] == 1 {
            find_mss_bounds(p, pos + 1, end);
        } else if pos + 1 < end && p[pos + 1] != 0 && pos + p[pos + 1] <= end && !(p[pos] == 2 && p[pos + 1] == 4) {
            find_mss_bounds(p, pos + p[pos + 1], end);
        }
    }
}

/// What the transport header of a TCP packet is and where.
pub proof fn transport_bounds(p: Seq<u8>)
    requires
        ip::transport(p).0 == 6,
    ensures
        ip::version(p) == 4 || ip::version(p) == 6,
        ip::version(p) == 4 ==> 20 <= ip::transport(p).1 == ip::ihl(p) <= p.len(),
        ip::version(p) == 6 ==> 40 <= ip::transport(p).1 <= p.len(),
{
    if ip::version(p) == 6 && p.len() >= 40 {
        ip::skip_bounds(p, p[6], 40, 8);
    }
}

/// Finds the TCP header of a packet: where it begins and where it ends.
fn tcp_header(packet: &[u8]) -> (r: Option<(usize, usize)>)
    ensures
        match r {
            Some((off, end)) => {
                &&& tcp_end(packet@) == Some(end as int)
                &&& off == ip::transport(packet@).1
                &&& off + 20 <= end <= packet@.len()
            },
            None => tcp_end(packet@) is None,
        },
{
    let (proto, off): (u8, usize) = ip::l4_offset(packet);
    if proto != 6 || packet.len() - off < ip::TCP_MIN_HDR {
        return None;
    }
    let n: usize = (packet[off + 12] / 16) as usize * 4;
    if n < ip::TCP_MIN_HDR || packet.len() - off < n {
        return None;
    }
    Some((off, off + n))
}

/// Where the value of the first MSS option stands.
fn find_option(packet: &[u8], from: usize, end: usize) -> (r: Option<usize>)
    requires
        from <= end <= packet.len(),
    ensures
        match r {
            Some(at) => find_mss(packet@, from as int, end as int) == Some(at as int) && from + 2 <= at && at + 2 <= end,
            None => find_mss(packet@, from as int, end as int) is None,
        },
{
    let mut pos: usize = from;
    while pos < end
        invariant
            from <= pos <= end <= packet.len(),
            find_mss(packet@, pos as int, end as int) == find_mss(packet@, from as int, end as int),
        decreases end - pos,
    {
        let kind: u8 = packet[pos];
        if kind == 0 {
            return None;
        }
        if kind == 1 {
            pos = pos + 1;
        } else {
            if end - pos <= 1 {
                return None;
            }
            let len: usize = packet[pos + 1] as usize;
            if len == 0 || len > end - pos {
                return None;
            }
            if kind == 2 && len == 4 {
                return Some(pos + 2);
            }
            pos = pos + len;
        }
    }
    None
}

/// Lowers the MSS option of a packet that opens a TCP connection to
/// `target_mss`, and sets the checksums anew where it does. Tells whether the
/// packet opens a connection and has such an option.
pub fn clamp_mss(packet: &mut [u8], target_mss: u16) -> (r: bool)
    ensures
        final(packet)@ == clamped(old(packet)@, target_mss),
        r == (is_syn(old(packet)@) && mss_at(old(packet)@) is Some),
{
    let (off, end): (usize, usize) = match tcp_header(packet) {
        Some(x) => x,
        None => {
            return false;
        },
    };
    if packet[off + 13] / 2 % 2 == 0 {
        return false;
    }
    let at: usize = match find_option(packet, off + 20, end) {
        Some(at) => at,
        None => {
            return false;
        },
    };
    if wire::get_be16(packet, at) > target_mss {
        let ghost p = packet@;
        packet[at] = (target_mss / 256) as u8;
        packet[at + 1] = (target_mss % 256) as u8;
        proof {
            assert(packet@ =~= checksum::with16(p, at as int, target_mss));
            transport_bounds(p);
            assert(ip::version(packet@) == ip::version(p));
            assert(packet@[0] == p[0]);
        }
        recompute_checksums(packet, off);
    }
    true
}

/// Sets the checksums of the headers of a TCP packet.
fn recompute_checksums(packet: &mut [u8], l4_off: usize)
    requires
        ip::version(old(packet)@) == 4 || ip::version(old(packet)@) == 6,
        ip::version(old(packet)@) == 4 ==> l4_off >= 20,
        ip::version(old(packet)@) == 6 ==> l4_off >= 40,
        l4_off + 20 <= old(packet)@.len(),
    ensures
        final(packet)@ == with_sums(old(packet)@, l4_off as int),
{
    let ghost p = packet@;
    let n: usize = packet.len();
    if ip::ip_version(packet) == 4 {
        packet[10] = 0;
        packet[11] = 0;
        assert(packet@ =~= checksum::with16(p, 10, 0));
        let cs: u16 = checksum::checksum(vstd::slice::slice_subrange(packet, 0, l4_off));
        packet[10] = (cs / 256) as u8;
        packet[11] = (cs % 256) as u8;
        assert(packet@ =~= checksum::with16(p, 10, cs));
        let ghost q = packet@;
        let tcp: u16 = checksum::tcp_checksum_v4(packet, l4_off);
        packet[l4_off + 16] = (tcp / 256) as u8;
        packet[l4_off + 17] = (tcp % 256) as u8;
        assert(packet@ =~= checksum::with16(q, l4_off + 16, tcp));
    } else {
        let tcp: u16 = checksum::tcp_checksum_v6(packet, l4_off);
        packet[l4_off + 16] = (tcp / 256) as u8;
        packet[l4_off + 17] = (tcp % 256) as u8;
        assert(packet@ =~= checksum::with16(p, l4_off + 16, tcp));
    }
}

/// The MSS option of a TCP packet.
pub fn read_mss(packet: &[u8]) -> (r: Option<u16>)
    ensures
        r == stated_mss(packet@),
{
    match tcp_header(packet) {
        Some((off, end)) => match find_option(packet, off + 20, end) {
            Some(at) => Some(wire::get_be16(packet, at)),
            None => None,
        },
        None => None,
    }
}

} // verus!
