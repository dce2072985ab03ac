//! The hop count of a packet, and multicast.

use vstd::prelude::*;
use crate::compat::checksum;
use crate::compat::ip;

verus! {

/// An IPv4 packet with its header checksum set; where its stated header goes
/// past its end, the checksum is 0.
pub open spec fn with_header_sum(p: Seq<u8>) -> Seq<u8> {
    let n = checksum::stated_ihl(p);
    checksum::with16(
        p,
        10,
        if p.len() < n {
            0
        } else {
            checksum::complement(checksum::word_sum(checksum::with16(p, 10, 0).subrange(0, n as int)))
        },
    )
}

/// A packet with one hop less, and whether there are any left.
pub open spec fn one_hop_less(p: Seq<u8>) -> (Seq<u8>, bool) {
    if ip::version(p) == 4 {
        if p.len() < 20 || p[8] == 0 {
            (p, false)
        } else {
            (with_header_sum(p.update(8, (p[8] - 1) as u8)), p[8] > 1)
        }
    } else if ip::version(p) == 6 {
        if p.len() < 40 || p[7] == 0 {
            (p, false)
        } else {
            (p.update(7, (p[7] - 1) as u8), p[7] > 1)
        }
    } else {
        (p, false)
    }
}

/// Counts one hop of a packet and sets the checksum of an IPv4 header anew;
/// tells whether any hops are left.
pub fn decrement_ttl(p: &mut [u8]) -> (r: bool)
    ensures
        (final(p)@, r) == one_hop_less(old(p)@),
{
    let v: u8 = ip::ip_version(p);
    if v == 4 {
        if p.len() < ip::IPV4_MIN_HDR {
            return false;
        }
        let ttl: u8 = ip::ipv4_ttl(p);
        if ttl == 0 {
            return false;
        }
        ip::set_ipv4_ttl(p, ttl - 1);
        let ghost q = p@;
        let cs: u16 = checksum::ip_header_checksum(p);
        p[10] = (cs / 256) as u8;
        p[11] = (cs % 256) as u8;
        assert(p@ =~= with_header_sum(q));
        ttl > 1
    } else if v == 6 {
        if p.len() < ip::IPV6_HDR {
            return false;
        }
        let hl: u8 = ip::ipv6_hop_limit(p);
        if hl == 0 {
            return false;
        }
        ip::set_ipv6_hop_limit(p, hl - 1);
        hl > 1
    } else {
        false
    }
}

/// Whether a packet goes to many receivers: to 224.0.0.0/4, to an address that
/// ends in 255 and does not begin with 0, or to ff00::/8.
pub open spec fn to_many(p: Seq<u8>) -> bool {
    if ip::version(p) == 4 {
        p.len() >= 20 && (p[16] / 16 == 14 || (p[19] == 255 && p[16] != 0))
    } else if ip::version(p) == 6 {
        p.len() >= 40 && p[24] == 255
    } else {
        false
    }
}

/// Whether a packet goes to a multicast or broadcast address.
pub fn is_multicast_or_broadcast(p: &[u8]) -> (r: bool)
    ensures
        r == to_many(p@),
{
    let v: u8 = ip::ip_version(p);
    if v == 4 {
        match ip::ipv4_dst(p) {
            Some(o) => {
                assert(o@[0] == p@[16] && o@[3] == p@[19]);
                o[0] / 16 == 14 || (o[3] == 255 && o[0] != 0)
            },
            None => false,
        }
    } else if v == 6 {
        match ip::ipv6_dst(p) {
            Some(o) => {
                assert(o@[0] == p@[24]);
                o[0] == 255
            },
            None => false,
        }
    } else {
        false
    }
}

} // verus!
