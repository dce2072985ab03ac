//! Forward error correction for tunnel frames: one recovery frame for every
//! group of `k` data frames, from which any one of them can be rebuilt.

use vstd::prelude::*;
use crate::wire;

pub mod laws;
pub mod rx;
pub mod tx;

verus! {

/// Length of the header of a tunnel frame.
pub const FRAME_HEADER_SIZE: usize = 10;

/// Length of the shortest data frame.
pub const DATA_MIN_FRAME: usize = 74;

/// Least and greatest size of a group.
pub const FEC_MIN_K: usize = 2;

pub const FEC_MAX_K: usize = 16;

/// Data frames that a receiver keeps by default.
pub const DEFAULT_RX_CACHE: usize = 256;

/// Groups that a receiver remembers.
pub const MAX_SEEN_GROUPS: usize = 128;

/// Where the counter of a data frame begins, from its end.
pub const COUNTER_FROM_END: usize = 24;

/// Length of the fixed part of a recovery frame after its header.
pub const RECOVERY_FIXED_BODY: usize = 12;

/// Version byte of a tunnel frame.
pub const TUNNEL_VERSION: u8 = 0x01;

/// Type byte of a data frame.
pub const DATA_FRAME_TYPE: u8 = 2;

/// Type byte of a recovery frame.
pub const FEC_FRAME_TYPE: u8 = 6;

/// Why a frame is refused.
#[derive(Debug, Clone, PartialEq, Eq, Structural)]
pub enum FecError {
    /// The frame is too short for a data frame.
    TooShort(usize),
    /// The size of a group is not 2 to 16.
    BadK(usize),
    /// A recovery frame is cut off.
    BodyTooShort { need: usize, got: usize },
    /// The parity is not as long as the longest member.
    XorLenMismatch { expect: usize, got: usize },
    /// A member is too short.
    BadMemberLen(usize),
    /// A frame is not what it should be.
    SanityCheck,
}

/// The counter of a data frame.
pub open spec fn counter_of(frame: Seq<u8>) -> u64 {
    wire::be64_at(frame, frame.len() - COUNTER_FROM_END)
}

/// Byte `i` of a frame that is followed by zeros.
pub open spec fn byte_at(frame: Seq<u8>, i: int) -> u8 {
    if i < frame.len() {
        frame[i]
    } else {
        0
    }
}

/// The exclusive or of bytes `i` of some frames.
pub open spec fn xor_byte(frames: Seq<Seq<u8>>, i: int) -> u8
    decreases frames.len(),
{
    if frames.len() == 0 {
        0
    } else {
        xor_byte(frames.drop_last(), i) ^ byte_at(frames.last(), i)
    }
}

/// The length of the longest of some frames.
pub open spec fn longest(frames: Seq<Seq<u8>>) -> nat
    decreases frames.len(),
{
    if frames.len() == 0 {
        0
    } else if frames.last().len() > longest(frames.drop_last()) {
        frames.last().len()
    } else {
        longest(frames.drop_last())
    }
}

/// The exclusive or of some frames, each followed by zeros.
pub open spec fn parity(frames: Seq<Seq<u8>>) -> Seq<u8> {
    Seq::new(longest(frames), |i: int| xor_byte(frames, i))
}

/// The counter of a data frame.
pub fn data_counter(frame: &[u8]) -> (r: Result<u64, FecError>)
    ensures
        r == if frame@.len() < DATA_MIN_FRAME {
            Err(FecError::TooShort(frame@.len() as usize))
        } else {
            Ok(counter_of(frame@))
        },
{
    if frame.len() < DATA_MIN_FRAME {
        return Err(FecError::TooShort(frame.len()));
    }
    Ok(wire::get_be64(frame, frame.len() - COUNTER_FROM_END))
}

/// Replaces each byte of `acc` by its exclusive or with the byte of `other` at
/// the same place, as far as `other` goes.
pub fn xor_into(acc: &mut [u8], other: &[u8])
    ensures
        final(acc)@ == Seq::new(
            old(acc)@.len(),
            |i: int|
                if i < other@.len() {
                    old(acc)@[i] ^ other@[i]
                } else {
                    old(acc)@[i]
                },
        ),
{
    let n: usize = if acc.len() < other.len() {
        acc.len()
    } else {
        other.len()
    };
    let mut i: usize = 0;
    while i < n
        invariant
            i <= n,
            acc@.len() == old(acc)@.len(),
            n <= acc@.len(),
            n <= other@.len(),
            forall|j: int| 0 <= j < i ==> #[trigger] acc@[j] == old(acc)@[j] ^ other@[j],
            forall|j: int| i <= j < acc@.len() ==> #[trigger] acc@[j] == old(acc)@[j],
        decreases n - i,
    {
        acc[i] = acc[i] ^ other[i];
        i = i + 1;
    }
    assert(acc@ =~= Seq::new(
        old(acc)@.len(),
        |i: int|
            if i < other@.len() {
                old(acc)@[i] ^ other@[i]
            } else {
                old(acc)@[i]
            },
    ));
}

} // verus!
