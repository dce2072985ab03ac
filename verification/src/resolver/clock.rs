//! Two readings of the same moment: of the clock that times are kept in, and
//! of the time of day.

use vstd::prelude::*;

verus! {

/// The same moment on both clocks, in milliseconds; the time of day counts
/// from the epoch.
#[derive(Debug, Clone, Copy, PartialEq, Eq, Structural)]
pub struct TimeBase {
    pub instant: u64,
    pub system: u64,
}

/// How far back a time of day is followed: an hour.
pub const MAX_BACK: u64 = 3_600_000;

impl TimeBase {
    /// The time of day of a time; the epoch where that is before it.
    pub open spec fn day_time(self, t: u64) -> int {
        if self.system + t < self.instant {
            0
        } else {
            self.system + t - self.instant
        }
    }

    /// The time at a time of day, up to an hour back.
    pub open spec fn clock_time(self, t: u64) -> int {
        if t >= self.system {
            self.instant + (t - self.system)
        } else {
            let back = if self.system - t > MAX_BACK {
                MAX_BACK as int
            } else {
                self.system - t
            };
            if back > self.instant {
                self.instant as int
            } else {
                self.instant - back
            }
        }
    }

    /// Both clocks, read at the same moment.
    pub fn now(system: u64, instant: u64) -> (r: Self)
        ensures
            r == (TimeBase { instant, system }),
    {
        TimeBase { instant, system }
    }

    /// The time of day of a time.
    pub fn to_system(&self, t: u64) -> (r: u64)
        requires
            self.day_time(t) <= u64::MAX,
        ensures
            r == self.day_time(t),
    {
        if t >= self.instant {
            self.system + (t - self.instant)
        } else {
            self.system.saturating_sub(self.instant - t)
        }
    }

    /// The time at a time of day, up to an hour back.
    pub fn to_instant(&self, t: u64) -> (r: u64)
        requires
            self.clock_time(t) <= u64::MAX,
        ensures
            r == self.clock_time(t),
    {
        if t >= self.system {
            self.instant + (t - self.system)
        } else {
            let d: u64 = self.system - t;
            let back: u64 = if d > MAX_BACK {
                MAX_BACK
            } else {
                d
            };
            if back > self.instant {
                self.instant
            } else {
                self.instant - back
            }
        }
    }

    /// The second of the day time of a time: 0 where it is before the epoch,
    /// half of all numbers where it is too far ahead.
    pub open spec fn day_secs(self, t: u64) -> u64 {
        if self.system + t < self.instant {
            0
        } else if self.system + t - self.instant > u64::MAX {
            u64::MAX / 2
        } else {
            ((self.system + t - self.instant) / 1000) as u64
        }
    }

    /// The time at the start of a second of the time of day; the last that the
    /// clock has where it is later, and none where it is before the first.
    pub open spec fn time_of_secs(self, secs: u64) -> Option<u64> {
        let t = self.instant + secs * 1000 - self.system;
        if t < 0 {
            None
        } else if t > u64::MAX {
            Some(u64::MAX)
        } else {
            Some(t as u64)
        }
    }

    /// The second of the day time of a time.
    pub fn instant_to_system_secs(&self, t: u64) -> (r: u64)
        ensures
            r == self.day_secs(t),
    {
        if t >= self.instant {
            match self.system.checked_add(t - self.instant) {
                Some(s) => s / 1000,
                None => u64::MAX / 2,
            }
        } else {
            match self.system.checked_sub(self.instant - t) {
                Some(s) => s / 1000,
                None => 0,
            }
        }
    }

    /// The time at the start of a second of the time of day.
    pub fn system_secs_to_instant(&self, secs: u64) -> (r: Option<u64>)
        ensures
            r == self.time_of_secs(secs),
    {
        let t: i128 = self.instant as i128 + secs as i128 * 1000 - self.system as i128;
        if t < 0 {
            None
        } else if t > u64::MAX as i128 {
            Some(u64::MAX)
        } else {
            Some(t as u64)
        }
    }
}

/// A time comes back from its time of day as it was, but for what lies more
/// than an hour back.
pub proof fn time_round_trip(b: TimeBase, t: u64)
    requires
        b.instant <= b.system + t,
        b.day_time(t) <= u64::MAX,
        b.instant <= t + MAX_BACK,
    ensures
        b.clock_time(b.day_time(t) as u64) == t,
{
}

/// A time comes back from its second as the start of that second.
pub proof fn secs_round_trip(b: TimeBase, t: u64)
    requires
        b.instant <= b.system + t,
        b.system + t - b.instant <= u64::MAX,
        (b.system + t - b.instant) % 1000 <= t,
    ensures
        b.time_of_secs(b.day_secs(t)) == Some((t - (b.system + t - b.instant) % 1000) as u64),
{
}

/// The time of day goes with the clock: the moment of both readings is the same
/// moment, and as long passes by one as by the other; what is before the epoch is
/// the epoch.
pub proof fn day_goes_with_the_clock(b: TimeBase, t: u64, u: u64)
    ensures
        b.day_time(b.instant) == b.system,
        b.instant <= b.system + t && t <= u ==> b.day_time(u) - b.day_time(t) == u - t,
        b.day_time(t) >= 0,
        b.system + t < b.instant ==> b.day_time(t) == 0,
        b.instant <= b.system + t && b.day_time(t) <= u64::MAX ==> b.day_secs(t) * 1000 <= b.day_time(t) < b.day_secs(t)
            * 1000 + 1000,
{
}

/// The clock goes with the time of day, and back by an hour at most; what would be
/// before the clock began is the moment of the readings.
pub proof fn clock_goes_with_the_day(b: TimeBase, t: u64, u: u64)
    ensures
        b.clock_time(b.system) == b.instant,
        b.system <= t <= u ==> b.clock_time(u) - b.clock_time(t) == u - t,
        t < b.system && b.system - t <= 3_600_000 && b.system - t <= b.instant ==> b.instant - b.clock_time(t) == b.system
            - t,
        t < b.system && b.system - t > 3_600_000 && b.instant >= 3_600_000 ==> b.instant - b.clock_time(t) == 3_600_000,
        t < b.system && b.instant < b.system - t && b.instant < 3_600_000 ==> b.clock_time(t) == b.instant,
{
}

/// A second of the day is a second of the clock.
pub proof fn seconds_go_with_the_clock(b: TimeBase, secs: u64)
    ensures
        b.time_of_secs(secs) is Some == (b.system <= b.instant + secs * 1000),
        b.time_of_secs(secs) matches Some(t) ==> t < u64::MAX ==> t - b.instant == secs * 1000 - b.system,
{
}

} // verus!
