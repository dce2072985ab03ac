//! Fields of IPv4 and IPv6 headers.
//!
//! Reading a field of a packet that is too short gives 0 or `None`; writing
//! one changes nothing.

use vstd::prelude::*;
use crate::wire;

verus! {

/// Length of the shortest IPv4 header.
pub const IPV4_MIN_HDR: usize = 20;

/// Length of an IPv6 header.
pub const IPV6_HDR: usize = 40;

/// Length of the shortest TCP header.
pub const TCP_MIN_HDR: usize = 20;

/// Length of a UDP header.
pub const UDP_HDR: usize = 8;

/// The byte at an index, 0 behind the end.
pub open spec fn field(p: Seq<u8>, i: int) -> u8 {
    if i < p.len() {
        p[i]
    } else {
        0
    }
}

/// The version that the first byte states, 0 for no bytes.
pub open spec fn version(p: Seq<u8>) -> u8 {
    field(p, 0) / 16
}

/// The length of an IPv4 header, 0 where it is none or cut off.
pub open spec fn ihl(p: Seq<u8>) -> nat {
    let n = (p[0] % 16 * 4) as nat;
    if version(p) != 4 || p.len() < 20 || n < 20 || p.len() < n {
        0
    } else {
        n
    }
}

/// Some bytes of a packet replaced, where it reaches that far.
pub open spec fn replaced(p: Seq<u8>, at: int, b: Seq<u8>) -> Seq<u8> {
    if p.len() < at + b.len() {
        p
    } else {
        p.subrange(0, at) + b + p.subrange(at + b.len(), p.len() as int)
    }
}

/// Some bytes of a packet, where it reaches that far.
pub open spec fn part(p: Seq<u8>, from: int, to: int) -> Option<Seq<u8>> {
    if p.len() < to {
        None
    } else {
        Some(p.subrange(from, to))
    }
}

/// The version of a packet.
pub fn ip_version(p: &[u8]) -> (r: u8)
    ensures
        r == version(p@),
{
    if p.len() == 0 {
        0
    } else {
        p[0] / 16
    }
}

/// The length of an IPv4 header.
pub fn ipv4_ihl(p: &[u8]) -> (r: usize)
    ensures
        r == ihl(p@),
{
    if ip_version(p) != 4 || p.len() < IPV4_MIN_HDR {
        return 0;
    }
    let n: usize = (p[0] % 16) as usize * 4;
    if n < IPV4_MIN_HDR || p.len() < n {
        0
    } else {
        n
    }
}

/// The time to live of an IPv4 packet.
pub fn ipv4_ttl(p: &[u8]) -> (r: u8)
    ensures
        r == field(p@, 8),
{
    if p.len() < 9 {
        0
    } else {
        p[8]
    }
}

/// Sets the time to live of an IPv4 packet.
pub fn set_ipv4_ttl(p: &mut [u8], ttl: u8)
    ensures
        final(p)@ == if old(p)@.len() >= 9 {
            old(p)@.update(8, ttl)
        } else {
            old(p)@
        },
{
    if p.len() >= 9 {
        p[8] = ttl;
    }
}

/// The protocol of an IPv4 packet.
pub fn ipv4_proto(p: &[u8]) -> (r: u8)
    ensures
        r == field(p@, 9),
{
    if p.len() < 10 {
        0
    } else {
        p[9]
    }
}

/// The source of an IPv4 packet.
pub fn ipv4_src(p: &[u8]) -> (r: Option<[u8; 4]>)
    ensures
        match r {
            Some(a) => part(p@, 12, 16) == Some(a@),
            None => part(p@, 12, 16) is None,
        },
{
    if p.len() < 16 {
        return None;
    }
    let a: [u8; 4] = [p[12], p[13], p[14], p[15]];
    assert(a@ =~= p@.subrange(12, 16));
    Some(a)
}

/// The destination of an IPv4 packet.
pub fn ipv4_dst(p: &[u8]) -> (r: Option<[u8; 4]>)
    ensures
        match r {
            Some(a) => part(p@, 16, 20) == Some(a@),
            None => part(p@, 16, 20) is None,
        },
{
    if p.len() < 20 {
        return None;
    }
    let a: [u8; 4] = [p[16], p[17], p[18], p[19]];
    assert(a@ =~= p@.subrange(16, 20));
    Some(a)
}

/// Writes bytes at an index, where the packet reaches that far.
fn put(p: &mut [u8], at: usize, b: &[u8])
    requires
        at + b.len() <= usize::MAX,
    ensures
        final(p)@ == replaced(old(p)@, at as int, b@),
{
    if p.len() < at + b.len() {
        return ;
    }
    let mut i: usize = 0;
    while i < b.len()
        invariant
            i <= b.len(),
            at + b.len() <= old(p)@.len(),
            p@.len() == old(p)@.len(),
            forall|j: int|
                0 <= j < p@.len() ==> #[trigger] p@[j] == if at <= j < at + i {
                    b@[j - at]
                } else {
                    old(p)@[j]
                },
            at + b.len() <= usize::MAX,
        decreases b.len() - i,
    {
        p[at + i] = b[i];
        i = i + 1;
    }
    assert(p@ =~= replaced(old(p)@, at as int, b@));
}

/// Sets the source of an IPv4 packet.
pub fn set_ipv4_src(p: &mut [u8], addr: [u8; 4])
    ensures
        final(p)@ == replaced(old(p)@, 12, addr@),
{
    put(p, 12, addr.as_slice());
}

/// Sets the destination of an IPv4 packet.
pub fn set_ipv4_dst(p: &mut [u8], addr: [u8; 4])
    ensures
        final(p)@ == replaced(old(p)@, 16, addr@),
{
    put(p, 16, addr.as_slice());
}

/// Whether an IPv4 packet must not be fragmented.
pub open spec fn dont_fragment(p: Seq<u8>) -> bool {
    field(p, 6) / 64 % 2 == 1
}

/// Whether an IPv4 packet must not be fragmented.
pub fn ipv4_df_set(p: &[u8]) -> (r: bool)
    ensures
        r == dont_fragment(p@),
{
    if p.len() < 7 {
        return false;
    }
    p[6] / 64 % 2 == 1
}

/// The hop limit of an IPv6 packet.
pub fn ipv6_hop_limit(p: &[u8]) -> (r: u8)
    ensures
        r == field(p@, 7),
{
    if p.len() < 8 {
        0
    } else {
        p[7]
    }
}

/// Sets the hop limit of an IPv6 packet.
pub fn set_ipv6_hop_limit(p: &mut [u8], hl: u8)
    ensures
        final(p)@ == if old(p)@.len() >= 8 {
            old(p)@.update(7, hl)
        } else {
            old(p)@
        },
{
    if p.len() >= 8 {
        p[7] = hl;
    }
}

/// The type of what follows an IPv6 header.
pub fn ipv6_next_header(p: &[u8]) -> (r: u8)
    ensures
        r == field(p@, 6),
{
    if p.len() < 7 {
        0
    } else {
        p[6]
    }
}

/// The source of an IPv6 packet.
pub fn ipv6_src(p: &[u8]) -> (r: Option<[u8; 16]>)
    ensures
        match r {
            Some(a) => part(p@, 8, 24) == Some(a@),
            None => part(p@, 8, 24) is None,
        },
{
    if p.len() < 24 {
        return None;
    }
    let a = wire::array16(vstd::slice::slice_subrange(p, 8, 24));
    assert(a@ =~= p@.subrange(8, 24));
    Some(a)
}

/// The destination of an IPv6 packet.
pub fn ipv6_dst(p: &[u8]) -> (r: Option<[u8; 16]>)
    ensures
        match r {
            Some(a) => part(p@, 24, 40) == Some(a@),
            None => part(p@, 24, 40) is None,
        },
{
    if p.len() < 40 {
        return None;
    }
    let a = wire::array16(vstd::slice::slice_subrange(p, 24, 40));
    assert(a@ =~= p@.subrange(24, 40));
    Some(a)
}

/// Sets the source of an IPv6 packet.
pub fn set_ipv6_src(p: &mut [u8], addr: [u8; 16])
    ensures
        final(p)@ == replaced(old(p)@, 8, addr@),
{
    put(p, 8, addr.as_slice());
}

/// Sets the destination of an IPv6 packet.
pub fn set_ipv6_dst(p: &mut [u8], addr: [u8; 16])
    ensures
        final(p)@ == replaced(old(p)@, 24, addr@),
{
    put(p, 24, addr.as_slice());
}

/// Skips up to `n` extension headers of an IPv6 packet from index `off` on,
/// the first of type `next`: gives the type and the index of what follows
/// them, or zeros where one of them is cut off.
pub open spec fn skip_extensions(p: Seq<u8>, next: u8, off: int, n: nat) -> (u8, int)
    decreases n,
{
    if n == 0 {
        (next, off)
    } else if next == 0 || next == 43 || next == 60 {
        // Hop-by-hop options, routing, destination options.
        let end = off + (p[off + 1] + 1) * 8;
        if off + 2 > p.len() || end > p.len() {
            (0, 0)
        } else {
            skip_extensions(p, p[off], end, (n - 1) as nat)
        }
    } else if next == 44 {
        // Fragment.
        if off + 8 > p.len() {
            (0, 0)
        } else {
            skip_extensions(p, p[off], off + 8, (n - 1) as nat)
        }
    } else if next == 51 {
        // Authentication.
        let end = off + (p[off + 1] + 2) * 4;
        if off + 2 > p.len() || end > p.len() {
            (0, 0)
        } else {
            skip_extensions(p, p[off], end, (n - 1) as nat)
        }
    } else {
        (next, off)
    }
}

/// The transport protocol of a packet and where its header begins; zeros
/// where they cannot be found.
pub open spec fn transport(p: Seq<u8>) -> (u8, int) {
    if version(p) == 4 {
        if ihl(p) == 0 {
            (0, 0)
        } else {
            (p[9], ihl(p) as int)
        }
    } else if version(p) == 6 && p.len() >= 40 {
        skip_extensions(p, p[6], 40, 8)
    } else {
        (0, 0)
    }
}

/// What skipping gives lies in the packet.
pub proof fn skip_bounds(p: Seq<u8>, next: u8, off: int, n: nat)
    requires
        40 <= off <= p.len(),
    ensures
        skip_extensions(p, next, off, n) == (0u8, 0int) || off <= skip_extensions(p, next, off, n).1 <= p.len(),
    decreases n,
{
    if n > 0 {
        if next == 0 || next == 43 || next == 60 {
            let end = off + (p[off + 1] + 1) * 8;
            if off + 2 <= p.len() && end <= p.len() {
                skip_bounds(p, p[off], end, (n - 1) as nat);
            }
        } else if next == 44 {
            if off + 8 <= p.len() {
                skip_bounds(p, p[off], off + 8, (n - 1) as nat);
            }
        } else if next == 51 {
            let end = off + (p[off + 1] + 2) * 4;
            if off + 2 <= p.len() && end <= p.len() {
                skip_bounds(p, p[off], end, (n - 1) as nat);
            }
        }
    }
}

/// The transport protocol of a packet and where its header begins; zeros
/// where they cannot be found.
pub fn l4_offset(p: &[u8]) -> (r: (u8, usize))
    ensures
        (r.0, r.1 as int) == transport(p@),
        r.1 <= p@.len(),
{
    let v: u8 = ip_version(p);
    if v == 4 {
        let n: usize = ipv4_ihl(p);
        if n == 0 {
            return (0, 0);
        }
        return (ipv4_proto(p), n);
    }
    if v != 6 || p.len() < IPV6_HDR {
        return (0, 0);
    }
    let mut next: u8 = ipv6_next_header(p);
    let mut off: usize = IPV6_HDR;
    let mut left: usize = 8;
    while left > 0
        invariant
            left <= 8,
            40 <= off <= p.len(),
            skip_extensions(p@, next, off as int, left as nat) == skip_extensions(p@, p@[6], 40, 8),
            transport(p@) == skip_extensions(p@, p@[6], 40, 8),
        decreases left,
    {
        let room: usize = p.len() - off;
        if next == 0 || next == 43 || next == 60 {
            if room < 2 {
                return (0, 0);
            }
            let hlen: usize = (p[off + 1] as usize + 1) * 8;
            if room < hlen {
                return (0, 0);
            }
            next = p[off];
            off = off + hlen;
        } else if next == 44 {
            if room < 8 {
                return (0, 0);
            }
            next = p[off];
            off = off + 8;
        } else if next == 51 {
            if room < 2 {
                return (0, 0);
            }
            let hlen: usize = (p[off + 1] as usize + 2) * 4;
            if room < hlen {
                return (0, 0);
            }
            next = p[off];
            off = off + hlen;
        } else {
            return (next, off);
        }
        left = left - 1;
    }
    (next, off)
}

/// A part of a packet is there where the packet is long enough; writing one changes
/// these bytes alone, and nothing in a packet that is too short.
pub proof fn parts_of_a_packet(p: Seq<u8>, from: int, b: Seq<u8>)
    requires
        0 <= from,
    ensures
        p.len() < from + b.len() ==> part(p, from, from + b.len()) is None && replaced(p, from, b) == p,
        p.len() >= from + b.len() ==> {
            let q = replaced(p, from, b);
            &&& part(p, from, from + b.len()) == Some(p.subrange(from, from + b.len()))
            &&& q.len() == p.len()
            &&& part(q, from, from + b.len()) == Some(b)
            &&& forall|i: int| 0 <= i < p.len() && !(from <= i < from + b.len()) ==> q[i] == p[i]
        },
{
    if p.len() >= from + b.len() {
        let q = replaced(p, from, b);
        assert(q.subrange(from, from + b.len()) =~= b);
    }
}

/// Where the payload of a packet begins, and what it is: after the header of IPv4,
/// which says how long it is; after the header of IPv6, where no extension stands
/// before it.
pub proof fn where_the_payload_is(p: Seq<u8>)
    ensures
        p.len() >= 20 && p[0] / 16 == 4 && p[0] % 16 >= 5 && p.len() >= p[0] % 16 * 4 ==> transport(p) == (
            p[9],
            p[0] % 16 * 4,
        ),
        p.len() >= 20 && p[0] / 16 == 4 && (p[0] % 16 < 5 || p.len() < p[0] % 16 * 4) ==> transport(p) == (0u8, 0int),
        p.len() >= 40 && p[0] / 16 == 6 && (p[6] == 6 || p[6] == 17 || p[6] == 58) ==> transport(p) == (p[6], 40int),
        p.len() >= 48 && p[0] / 16 == 6 && p[6] == 44 && (p[40] == 6 || p[40] == 17) ==> transport(p) == (p[40], 48int),
        p.len() >= 48 && p[0] / 16 == 6 && (p[6] == 0 || p[6] == 43 || p[6] == 60) && p[41] == 0 && (p[40] == 6 || p[40]
            == 17) ==> transport(p) == (p[40], 48int),
{
    reveal_with_fuel(skip_extensions, 3);
}

} // verus!
