//! Error messages of a router: time exceeded and packet too big.

use vstd::prelude::*;
use crate::compat::checksum;
use crate::compat::ip;
use crate::wire;

verus! {

/// How much of an IPv4 packet an error message quotes: its header and 8 bytes.
pub open spec fn quote_v4(offending: Seq<u8>) -> Seq<u8> {
    let n = ip::ihl(offending) + 8;
    if offending.len() < n {
        offending
    } else {
        offending.subrange(0, n as int)
    }
}

/// How much of an IPv6 packet an error message quotes: its header and 8 bytes.
pub open spec fn quote_v6(offending: Seq<u8>) -> Seq<u8> {
    if offending.len() < 48 {
        offending
    } else {
        offending.subrange(0, 48)
    }
}

/// An error message without its checksum: type, code, four bytes, the quote.
pub open spec fn message(kind: u8, code: u8, rest: Seq<u8>, quote: Seq<u8>) -> Seq<u8> {
    seq![kind, code, 0u8, 0u8] + rest + quote
}

/// An IPv4 header without options and checksum for a message of a length.
pub open spec fn header_v4(len: nat, src: Seq<u8>, dst: Seq<u8>) -> Seq<u8> {
    seq![0x45u8, 0u8] + wire::be16((20 + len) as u16) + wire::zeros(4) + seq![64u8, 1u8, 0u8, 0u8] + src + dst
}

/// An IPv6 header for a message of a length.
pub open spec fn header_v6(len: nat, src: Seq<u8>, dst: Seq<u8>) -> Seq<u8> {
    seq![0x60u8, 0u8, 0u8, 0u8] + wire::be16(len as u16) + seq![58u8, 64u8] + src + dst
}

/// The IPv4 packet that reports an error to the sender of `offending`.
pub open spec fn report_v4(offending: Seq<u8>, our: Seq<u8>, kind: u8, code: u8, rest: Seq<u8>) -> Option<Seq<u8>> {
    if ip::version(offending) != 4 || offending.len() < 20 {
        None
    } else {
        let m = message(kind, code, rest, quote_v4(offending));
        let h = header_v4(m.len(), our, offending.subrange(12, 16));
        Some(
            checksum::with16(h, 10, checksum::complement(checksum::word_sum(h))) + checksum::with16(
                m,
                2,
                checksum::complement(checksum::word_sum(m)),
            ),
        )
    }
}

/// The IPv6 packet that reports an error to the sender of `offending`.
pub open spec fn report_v6(offending: Seq<u8>, our: Seq<u8>, kind: u8, code: u8, rest: Seq<u8>) -> Option<Seq<u8>> {
    if ip::version(offending) != 6 || offending.len() < 40 {
        None
    } else {
        let m = message(kind, code, rest, quote_v6(offending));
        let p = header_v6(m.len(), our, offending.subrange(8, 24)) + m;
        Some(checksum::with16(p, 42, checksum::control_sum_v6(p)))
    }
}

/// A message with its checksum set.
fn summed_message(kind: u8, code: u8, rest: &[u8], quote: &[u8]) -> (m: Vec<u8>)
    requires
        rest.len() == 4,
    ensures
        m@ == checksum::with16(
            message(kind, code, rest@, quote@),
            2,
            checksum::complement(checksum::word_sum(message(kind, code, rest@, quote@))),
        ),
{
    let mut m: Vec<u8> = Vec::new();
    m.push(kind);
    m.push(code);
    m.push(0);
    m.push(0);
    wire::put_bytes(&mut m, rest);
    wire::put_bytes(&mut m, quote);
    assert(m@ =~= message(kind, code, rest@, quote@));
    let ghost q = m@;
    let cs: u16 = checksum::checksum(m.as_slice());
    m[2] = (cs / 256) as u8;
    m[3] = (cs % 256) as u8;
    assert(m@ =~= checksum::with16(q, 2, cs));
    m
}

/// Reports an error of an IPv4 packet.
#[verifier::rlimit(30)]
fn make_report_v4(offending: &[u8], our_addr: [u8; 4], kind: u8, code: u8, rest: &[u8]) -> (r: Option<Vec<u8>>)
    requires
        rest.len() == 4,
    ensures
        match r {
            Some(v) => report_v4(offending@, our_addr@, kind, code, rest@) == Some(v@),
            None => report_v4(offending@, our_addr@, kind, code, rest@) is None,
        },
{
    if ip::ip_version(offending) != 4 || offending.len() < ip::IPV4_MIN_HDR {
        return None;
    }
    let n: usize = ip::ipv4_ihl(offending);
    let end: usize = if offending.len() < n + 8 {
        offending.len()
    } else {
        n + 8
    };
    let quote = vstd::slice::slice_subrange(offending, 0, end);
    assert(quote@ =~= quote_v4(offending@));
    let m = summed_message(kind, code, rest, quote);
    let mut p: Vec<u8> = Vec::new();
    p.push(0x45);
    p.push(0);
    wire::put_be16(&mut p, (20 + m.len()) as u16);
    wire::put_zeros(&mut p, 4);
    p.push(64);
    p.push(1);
    p.push(0);
    p.push(0);
    wire::put_bytes(&mut p, our_addr.as_slice());
    wire::put_bytes(&mut p, vstd::slice::slice_subrange(offending, 12, 16));
    assert(p@ =~= header_v4(m@.len(), our_addr@, offending@.subrange(12, 16)));
    let ghost h = p@;
    let cs: u16 = checksum::checksum(p.as_slice());
    p[10] = (cs / 256) as u8;
    p[11] = (cs % 256) as u8;
    assert(p@ =~= checksum::with16(h, 10, cs));
    wire::put_bytes(&mut p, m.as_slice());
    Some(p)
}

/// Reports an error of an IPv6 packet.
#[verifier::rlimit(30)]
fn make_report_v6(offending: &[u8], our_addr: [u8; 16], kind: u8, code: u8, rest: &[u8]) -> (r: Option<Vec<u8>>)
    requires
        rest.len() == 4,
    ensures
        match r {
            Some(v) => report_v6(offending@, our_addr@, kind, code, rest@) == Some(v@),
            None => report_v6(offending@, our_addr@, kind, code, rest@) is None,
        },
{
    if ip::ip_version(offending) != 6 || offending.len() < ip::IPV6_HDR {
        return None;
    }
    let end: usize = if offending.len() < 48 {
        offending.len()
    } else {
        48
    };
    let quote = vstd::slice::slice_subrange(offending, 0, end);
    assert(quote@ =~= quote_v6(offending@));
    let ghost m = message(kind, code, rest@, quote@);
    let mut p: Vec<u8> = Vec::new();
    p.push(0x60);
    p.push(0);
    p.push(0);
    p.push(0);
    wire::put_be16(&mut p, (8 + quote.len()) as u16);
    p.push(58);
    p.push(64);
    wire::put_bytes(&mut p, our_addr.as_slice());
    wire::put_bytes(&mut p, vstd::slice::slice_subrange(offending, 8, 24));
    p.push(kind);
    p.push(code);
    p.push(0);
    p.push(0);
    wire::put_bytes(&mut p, rest);
    wire::put_bytes(&mut p, quote);
    assert(p@ =~= header_v6(m.len(), our_addr@, offending@.subrange(8, 24)) + m);
    let ghost q = p@;
    let cs: u16 = control_sum(&mut p);
    p[42] = (cs / 256) as u8;
    p[43] = (cs % 256) as u8;
    assert(p@ =~= checksum::with16(q, 42, cs));
    Some(p)
}

/// The checksum of the message of an IPv6 packet.
fn control_sum(p: &mut Vec<u8>) -> (cs: u16)
    requires
        old(p)@.len() >= 44,
    ensures
        final(p)@ == checksum::with16(old(p)@, 42, 0),
        cs == checksum::control_sum_v6(old(p)@),
{
    checksum::icmpv6_checksum(p.as_mut_slice())
}

/// Tells the sender of an IPv4 packet that its hops are used up.
pub fn generate_time_exceeded_v4(offending: &[u8], our_addr: [u8; 4]) -> (r: Option<Vec<u8>>)
    ensures
        match r {
            Some(v) => report_v4(offending@, our_addr@, 11, 0, wire::zeros(4)) == Some(v@),
            None => report_v4(offending@, our_addr@, 11, 0, wire::zeros(4)) is None,
        },
{
    let rest: [u8; 4] = [0, 0, 0, 0];
    assert(rest@ =~= wire::zeros(4));
    make_report_v4(offending, our_addr, 11, 0, rest.as_slice())
}

/// Tells the sender of an IPv4 packet that it must be fragmented to `mtu`.
pub fn generate_frag_needed_v4(offending: &[u8], our_addr: [u8; 4], mtu: u16) -> (r: Option<Vec<u8>>)
    ensures
        match r {
            Some(v) => report_v4(offending@, our_addr@, 3, 4, wire::zeros(2) + wire::be16(mtu)) == Some(v@),
            None => report_v4(offending@, our_addr@, 3, 4, wire::zeros(2) + wire::be16(mtu)) is None,
        },
{
    let mut rest: Vec<u8> = Vec::new();
    wire::put_zeros(&mut rest, 2);
    wire::put_be16(&mut rest, mtu);
    assert(rest@ =~= wire::zeros(2) + wire::be16(mtu));
    make_report_v4(offending, our_addr, 3, 4, rest.as_slice())
}

/// Tells the sender of an IPv6 packet that its hops are used up.
pub fn generate_time_exceeded_v6(offending: &[u8], our_addr: [u8; 16]) -> (r: Option<Vec<u8>>)
    ensures
        match r {
            Some(v) => report_v6(offending@, our_addr@, 3, 0, wire::zeros(4)) == Some(v@),
            None => report_v6(offending@, our_addr@, 3, 0, wire::zeros(4)) is None,
        },
{
    let rest: [u8; 4] = [0, 0, 0, 0];
    assert(rest@ =~= wire::zeros(4));
    make_report_v6(offending, our_addr, 3, 0, rest.as_slice())
}

/// Tells the sender of an IPv6 packet that it exceeds `mtu`.
pub fn generate_packet_too_big_v6(offending: &[u8], our_addr: [u8; 16], mtu: u32) -> (r: Option<Vec<u8>>)
    ensures
        match r {
            Some(v) => report_v6(offending@, our_addr@, 2, 0, wire::be32(mtu)) == Some(v@),
            None => report_v6(offending@, our_addr@, 2, 0, wire::be32(mtu)) is None,
        },
{
    let mut rest: Vec<u8> = Vec::new();
    wire::put_be32(&mut rest, mtu);
    assert(rest@ =~= wire::be32(mtu));
    make_report_v6(offending, our_addr, 2, 0, rest.as_slice())
}

} // verus!
