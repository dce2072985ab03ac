//! Which protocol a payload carries.

use vstd::prelude::*;

verus! {

/// The protocol of an inner packet.
#[derive(Debug, Clone, Copy, PartialEq, Eq, Structural)]
pub enum InnerProto {
    IPv4,
    IPv6,
    /// Not an IP packet.
    Other,
}

/// The protocol that the upper half of a first byte stands for.
pub open spec fn proto_of(first: u8) -> InnerProto {
    if first / 16 == 4 {
        InnerProto::IPv4
    } else if first / 16 == 6 {
        InnerProto::IPv6
    } else {
        InnerProto::Other
    }
}

/// The protocol of a payload; `None` where it is empty.
pub fn classify(payload: &[u8]) -> (r: Option<InnerProto>)
    ensures
        r == if payload@.len() == 0 {
            None
        } else {
            Some(proto_of(payload@[0]))
        },
{
    if payload.len() == 0 {
        return None;
    }
    let v: u8 = payload[0] / 16;
    Some(
        if v == 4 {
            InnerProto::IPv4
        } else if v == 6 {
            InnerProto::IPv6
        } else {
            InnerProto::Other
        },
    )
}

/// Length of the shortest header of a protocol.
pub fn min_inner_header_len(proto: InnerProto) -> (r: usize)
    ensures
        r == match proto {
            InnerProto::IPv4 => 20usize,
            InnerProto::IPv6 => 40usize,
            InnerProto::Other => 0usize,
        },
{
    match proto {
        InnerProto::IPv4 => 20,
        InnerProto::IPv6 => 40,
        InnerProto::Other => 0,
    }
}

} // verus!
