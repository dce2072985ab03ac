//! Version negotiation.

use vstd::prelude::*;
use crate::codec::header::{IPv8Header, VERSION};

verus! {

/// The version of this implementation.
pub const LOCAL_VERSION: u8 = VERSION;

/// What two versions lead to.
#[derive(Debug, Clone, Copy, PartialEq, Eq, Structural)]
pub enum Negotiation {
    /// The peer asks for the local version.
    Full,
    /// The peer is content with less.
    Degrade { their_min_compat: u8 },
    /// The peer asks for more.
    Incompatible { their_min_compat: u8, local: u8 },
}

/// What a peer that asks for at least `min_compat` gets from `local`.
pub open spec fn negotiation(min_compat: u8, local: u8) -> Negotiation {
    if min_compat > local {
        Negotiation::Incompatible { their_min_compat: min_compat, local }
    } else if min_compat < local {
        Negotiation::Degrade { their_min_compat: min_compat }
    } else {
        Negotiation::Full
    }
}

/// Negotiates with the sender of a header.
pub fn negotiate(hdr: &IPv8Header, local_version: u8) -> (r: Negotiation)
    ensures
        r == negotiation(hdr@.min_compat_ver, local_version),
{
    if hdr.min_compat_ver > local_version {
        Negotiation::Incompatible { their_min_compat: hdr.min_compat_ver, local: local_version }
    } else if hdr.min_compat_ver < local_version {
        Negotiation::Degrade { their_min_compat: hdr.min_compat_ver }
    } else {
        Negotiation::Full
    }
}

/// Negotiates on behalf of this implementation.
pub fn negotiate_local(hdr: &IPv8Header) -> (r: Negotiation)
    ensures
        r == negotiation(hdr@.min_compat_ver, LOCAL_VERSION),
{
    negotiate(hdr, LOCAL_VERSION)
}

} // verus!
