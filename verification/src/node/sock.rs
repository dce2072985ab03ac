//! Socket addresses, and their native bytes.

use vstd::prelude::*;
use crate::wire;

verus! {

/// The number of the IPv4 family.
pub const AF_INET: u16 = 2;

/// The number of the IPv6 family.
pub const AF_INET6: u16 = 23;

/// A socket address.
#[derive(Debug, Clone, Copy, PartialEq, Eq)]
pub enum SockAddr {
    V4 { ip: [u8; 4], port: u16 },
    V6 { ip6: [u8; 16], port: u16, flowinfo: u32, scope_id: u32 },
}

impl SockAddr {
    /// The port.
    pub open spec fn port_of(self) -> u16 {
        match self {
            SockAddr::V4 { ip: _, port } => port,
            SockAddr::V6 { ip6: _, port, flowinfo: _, scope_id: _ } => port,
        }
    }

    /// Whether this is an IPv6 address.
    pub fn is_v6(&self) -> (r: bool)
        ensures
            r == (*self is V6),
    {
        match self {
            SockAddr::V4 { .. } => false,
            SockAddr::V6 { .. } => true,
        }
    }
}

/// Whether two socket addresses are the same.
pub fn same_sock(a: &SockAddr, b: &SockAddr) -> (r: bool)
    ensures
        r == (*a == *b),
{
    match (a, b) {
        (SockAddr::V4 { ip: i, port: p }, SockAddr::V4 { ip: j, port: q }) => {
            let r = *p == *q && wire::same_bytes(i.as_slice(), j.as_slice());
            proof {
                if r {
                    assert(*i =~= *j);
                }
            }
            r
        },
        (
            SockAddr::V6 { ip6: i, port: p, flowinfo: f, scope_id: s },
            SockAddr::V6 { ip6: j, port: q, flowinfo: g, scope_id: t },
        ) => {
            let r = *p == *q && *f == *g && *s == *t && wire::same_bytes(i.as_slice(), j.as_slice());
            proof {
                if r {
                    assert(*i =~= *j);
                }
            }
            r
        },
        _ => false,
    }
}

/// A socket address as native bytes. The flow and the scope of an IPv6 address
/// are not written.
pub open spec fn sock_wire(a: SockAddr) -> Seq<u8> {
    match a {
        SockAddr::V4 { ip, port } => wire::le16(AF_INET) + wire::be16(port) + ip@ + wire::zeros(8),
        SockAddr::V6 { ip6, port, flowinfo: _, scope_id: _ } => wire::le16(AF_INET6) + wire::be16(port) + wire::zeros(4)
            + ip6@ + wire::zeros(4),
    }
}

/// Whether native bytes are an IPv4 address.
pub open spec fn is_v4_wire(b: Seq<u8>) -> bool {
    b.len() >= 8 && wire::le16_at(b, 0) == AF_INET
}

/// Whether native bytes are an IPv6 address.
pub open spec fn is_v6_wire(b: Seq<u8>) -> bool {
    b.len() >= 24 && wire::le16_at(b, 0) == AF_INET6
}

/// Whether a socket address is what native bytes stand for.
pub open spec fn reads_as(b: Seq<u8>, a: SockAddr) -> bool {
    match a {
        SockAddr::V4 { ip, port } => is_v4_wire(b) && port == wire::be16_at(b, 2) && ip@ == b.subrange(4, 8),
        SockAddr::V6 { ip6, port, flowinfo, scope_id } => is_v6_wire(b) && port == wire::be16_at(b, 2) && ip6@
            == b.subrange(8, 24) && flowinfo == 0 && scope_id == 0,
    }
}

/// Writes bytes at the beginning of others.
fn put_front(out: &mut [u8], w: &Vec<u8>)
    requires
        w@.len() <= old(out)@.len(),
    ensures
        final(out)@ == w@ + old(out)@.subrange(w@.len() as int, old(out)@.len() as int),
{
    let mut i: usize = 0;
    while i < w.len()
        invariant
            i <= w.len(),
            w@.len() <= out@.len(),
            out@.len() == old(out)@.len(),
            forall|j: int| 0 <= j < i ==> #[trigger] out@[j] == w@[j],
            forall|j: int| i <= j < out@.len() ==> #[trigger] out@[j] == old(out)@[j],
        decreases w.len() - i,
    {
        out[i] = w[i];
        i = i + 1;
    }
    assert(out@ =~= w@ + old(out)@.subrange(w@.len() as int, old(out)@.len() as int));
}

/// Writes a socket address as native bytes; gives their number.
pub fn encode_sockaddr(addr: &SockAddr, out: &mut [u8]) -> (n: u32)
    requires
        old(out)@.len() >= 28,
    ensures
        n == sock_wire(*addr).len(),
        final(out)@ == sock_wire(*addr) + old(out)@.subrange(n as int, old(out)@.len() as int),
{
    let mut w: Vec<u8> = Vec::new();
    match addr {
        SockAddr::V4 { ip, port } => {
            wire::put_le16(&mut w, AF_INET);
            wire::put_be16(&mut w, *port);
            wire::put_bytes(&mut w, ip.as_slice());
            wire::put_zeros(&mut w, 8);
            assert(w@ =~= sock_wire(*addr));
            put_front(out, &w);
            16
        },
        SockAddr::V6 { ip6, port, .. } => {
            wire::put_le16(&mut w, AF_INET6);
            wire::put_be16(&mut w, *port);
            wire::put_zeros(&mut w, 4);
            wire::put_bytes(&mut w, ip6.as_slice());
            wire::put_zeros(&mut w, 4);
            assert(w@ =~= sock_wire(*addr));
            put_front(out, &w);
            28
        },
    }
}

/// Reads a socket address from native bytes; `None` where the family is
/// another or the bytes are too few.
pub fn decode_sockaddr(b: &[u8]) -> (r: Option<SockAddr>)
    ensures
        match r {
            Some(a) => reads_as(b@, a),
            None => !is_v4_wire(b@) && !is_v6_wire(b@),
        },
{
    if b.len() < 4 {
        return None;
    }
    let family: u16 = wire::get_le16(b, 0);
    let port: u16 = wire::get_be16(b, 2);
    if family == AF_INET && b.len() >= 8 {
        let ip: [u8; 4] = [b[4], b[5], b[6], b[7]];
        assert(ip@ =~= b@.subrange(4, 8));
        Some(SockAddr::V4 { ip, port })
    } else if family == AF_INET6 && b.len() >= 24 {
        let ip6 = wire::array16(vstd::slice::slice_subrange(b, 8, 24));
        assert(ip6@ =~= b@.subrange(8, 24));
        Some(SockAddr::V6 { ip6, port, flowinfo: 0, scope_id: 0 })
    } else {
        None
    }
}

/// A socket address without flow and scope that was written is read back,
/// whatever follows it.
pub proof fn sockaddr_round_trip(a: SockAddr, tail: Seq<u8>, b: SockAddr)
    requires
        a matches SockAddr::V6 { ip6: _, port: _, flowinfo, scope_id } ==> flowinfo == 0 && scope_id == 0,
        reads_as(sock_wire(a) + tail, b),
    ensures
        a == b,
{
    let w = sock_wire(a) + tail;
    assert(w.subrange(0, 2) =~= wire::le16(
        match a {
            SockAddr::V4 { .. } => AF_INET,
            SockAddr::V6 { .. } => AF_INET6,
        },
    ));
    assert(w.subrange(2, 4) =~= wire::be16(a.port_of()));
    wire::be16_round_trip(a.port_of(), w, 2);
    match a {
        SockAddr::V4 { ip, port: _ } => {
            wire::le16_round_trip(AF_INET, w, 0);
            assert(w.subrange(4, 8) =~= ip@);
            match b {
                SockAddr::V4 { ip: j, port: _ } => {
                    assert(ip =~= j);
                },
                _ => {},
            }
        },
        SockAddr::V6 { ip6: ip, port: _, flowinfo: _, scope_id: _ } => {
            wire::le16_round_trip(AF_INET6, w, 0);
            assert(w.subrange(8, 24) =~= ip@);
            match b {
                SockAddr::V6 { ip6: j, port: _, flowinfo: _, scope_id: _ } => {
                    assert(ip =~= j);
                },
                _ => {},
            }
        },
    }
}

/// An IPv4 address as an IPv6 one, for a socket of that family.
pub open spec fn mapped(a: SockAddr, local_v6: bool) -> SockAddr {
    match a {
        SockAddr::V4 { ip, port } => if local_v6 {
            SockAddr::V6 { ip6: mapped_ip(ip), port, flowinfo: 0, scope_id: 0 }
        } else {
            a
        },
        _ => a,
    }
}

/// The IPv6 form of an IPv4 host.
pub open spec fn mapped_ip(ip: [u8; 4]) -> [u8; 16] {
    [0u8, 0u8, 0u8, 0u8, 0u8, 0u8, 0u8, 0u8, 0u8, 0u8, 0xffu8, 0xffu8, ip@[0], ip@[1], ip@[2], ip@[3]]
}

/// An address as a socket can reach it: an IPv4 one in its IPv6 form where the
/// socket is of that family.
pub fn map_for_socket(a: SockAddr, local_v6: bool) -> (r: SockAddr)
    ensures
        r == mapped(a, local_v6),
{
    match a {
        SockAddr::V4 { ip, port } => if local_v6 {
            let m: [u8; 16] = [0, 0, 0, 0, 0, 0, 0, 0, 0, 0, 0xff, 0xff, ip[0], ip[1], ip[2], ip[3]];
            assert(m =~= mapped_ip(ip));
            SockAddr::V6 { ip6: m, port, flowinfo: 0, scope_id: 0 }
        } else {
            a
        },
        _ => a,
    }
}

/// A socket address as bytes: the family, low byte first, the port, high byte
/// first, and the address, with zeros where nothing is said.
pub proof fn sockaddr_format(a: SockAddr)
    ensures
        a matches SockAddr::V4 { ip, port } ==> {
            let w = sock_wire(a);
            &&& w.len() == 16
            &&& w[0] == 2 && w[1] == 0
            &&& w[2] * 256 + w[3] == port
            &&& w.subrange(4, 8) == ip@
            &&& forall|i: int| 8 <= i < 16 ==> w[i] == 0
        },
        a matches SockAddr::V6 { ip6, port, flowinfo: _, scope_id: _ } ==> {
            let w = sock_wire(a);
            &&& w.len() == 28
            &&& w[0] == 23 && w[1] == 0
            &&& w[2] * 256 + w[3] == port
            &&& w.subrange(8, 24) == ip6@
            &&& forall|i: int| 4 <= i < 8 ==> w[i] == 0
            &&& forall|i: int| 24 <= i < 28 ==> w[i] == 0
        },
{
    let w = sock_wire(a);
    match a {
        SockAddr::V4 { ip, port } => {
            assert(w.subrange(4, 8) =~= ip@);
        },
        SockAddr::V6 { ip6, port, flowinfo: _, scope_id: _ } => {
            assert(w.subrange(8, 24) =~= ip6@);
        },
    }
}

/// What is read as a socket address: at least 8 bytes of the one family, at least
/// 24 of the other.
pub proof fn sockaddr_is_read(b: Seq<u8>, a: SockAddr)
    requires
        reads_as(b, a),
    ensures
        b.len() >= 8,
        a is V4 <==> b[0] == 2 && b[1] == 0,
        a is V6 <==> b[0] == 23 && b[1] == 0,
        a.port_of() == b[2] * 256 + b[3],
        a matches SockAddr::V4 { ip, port: _ } ==> ip@ == b.subrange(4, 8),
        a matches SockAddr::V6 { ip6, port: _, flowinfo: _, scope_id: _ } ==> b.len() >= 24 && ip6@ == b.subrange(8, 24),
{
}

/// An IPv4 address for a socket of IPv6 is that address after ten bytes of zero and
/// two of ones; otherwise an address stays as it is.
pub proof fn address_for_a_socket(a: SockAddr, local_v6: bool)
    ensures
        !local_v6 || a is V6 ==> mapped(a, local_v6) == a,
        local_v6 ==> (a matches SockAddr::V4 { ip, port } ==> {
            &&& mapped(a, local_v6) is V6
            &&& mapped(a, local_v6).port_of() == port
            &&& forall|i: int| 0 <= i < 10 ==> mapped(a, local_v6)->ip6@[i] == 0
            &&& mapped(a, local_v6)->ip6@[10] == 0xff && mapped(a, local_v6)->ip6@[11] == 0xff
            &&& mapped(a, local_v6)->ip6@.subrange(12, 16) == ip@
        }),
{
    if local_v6 {
        match a {
            SockAddr::V4 { ip, port } => {
                assert(mapped_ip(ip)@.subrange(12, 16) =~= ip@);
            },
            _ => {},
        }
    }
}

} // verus!
