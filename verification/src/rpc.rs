//! What the services answer to requests that fail.

use vstd::prelude::*;

verus! {

/// Why a request fails.
#[derive(Debug, Clone, Copy, PartialEq, Eq, Structural)]
pub enum Code {
    InvalidArgument,
    NotFound,
    AlreadyExists,
    FailedPrecondition,
    Unauthenticated,
}

/// The answer to a request that fails.
#[derive(Debug, Clone, PartialEq, Eq)]
pub struct Status {
    pub code: Code,
    pub message: String,
}

impl Status {
    /// Whether this is the answer with a code and a text.
    pub open spec fn says(self, code: Code, message: Seq<char>) -> bool {
        self.code == code && self.message@ == message
    }
}

/// Seconds in so many milliseconds, as far as they fit.
pub open spec fn secs32(ms: u64) -> u32 {
    if ms / 1000 > u32::MAX {
        u32::MAX
    } else {
        (ms / 1000) as u32
    }
}

/// Seconds in so many milliseconds, as far as they fit.
pub fn secs(ms: u64) -> (s: u32)
    ensures
        s == secs32(ms),
{
    if ms / 1000 > u32::MAX as u64 {
        u32::MAX
    } else {
        (ms / 1000) as u32
    }
}

/// A level of service that was asked for: 15 at most.
pub open spec fn level(n: u32) -> u8 {
    if n > 15 {
        15
    } else {
        n as u8
    }
}

/// A level of service that was asked for: 15 at most.
pub fn clamp_level(n: u32) -> (r: u8)
    ensures
        r == level(n),
{
    if n > 15 {
        15
    } else {
        n as u8
    }
}

/// Milliseconds are told in whole seconds, as far as these can be told, and a
/// service class is 15 at most.
pub proof fn told_numbers(ms: u64, n: u32)
    ensures
        ms < 1000 * 0x1_0000_0000 ==> secs32(ms) * 1000 <= ms < secs32(ms) * 1000 + 1000,
        ms >= 1000 * 0x1_0000_0000 ==> secs32(ms) == 0xFFFF_FFFF,
        n <= 15 ==> level(n) == n,
        n > 15 ==> level(n) == 15,
{
}

/// A status says its code and its message.
pub proof fn what_a_status_says(s: Status, code: Code, message: Seq<char>)
    ensures
        s.says(code, message) <==> s.code == code && s.message@ == message,
{
}

} // verus!
