//! Bits of the 16-bit Flags field.

use vstd::prelude::*;

verus! {

/// Bits 0-3: the QoS level.
pub const QOS_LEVEL_MASK: u16 = 0x000F;

/// Bit 4: the payload is encrypted.
pub const ENCRYPTED: u16 = 0x0010;

/// Bit 5: the packet is a fragment.
pub const FRAGMENT: u16 = 0x0020;

/// Bit 6: an extension chain is present.
pub const HAS_EXTENSION: u16 = 0x0040;

/// Bits 7-15: reserved, sent as zero.
pub const RESERVED_MASK: u16 = 0xFF80;

} // verus!
