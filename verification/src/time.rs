//! Monotonic instants and durations, in whole nanoseconds.
//!
//! The library never reads a clock: whoever calls it says what time it is.

use vstd::prelude::*;

verus! {

pub const NANOS_PER_MILLI: u64 = 1_000_000;

pub const NANOS_PER_SEC: u64 = 1_000_000_000;

/// A length of time.
#[derive(Debug, Clone, Copy, PartialEq, Eq, Structural)]
pub struct Duration {
    pub nanos: u64,
}

/// A reading of a monotonic clock, counted from a start that the program
/// chooses.
#[derive(Debug, Clone, Copy, PartialEq, Eq, Structural)]
pub struct Instant {
    pub nanos: u64,
}

impl Duration {
    pub fn from_millis(ms: u64) -> (d: Self)
        requires
            ms * NANOS_PER_MILLI <= u64::MAX,
        ensures
            d.nanos == ms * NANOS_PER_MILLI,
    {
        Duration { nanos: ms * NANOS_PER_MILLI }
    }

    /// A number of seconds, or the longest duration if that is shorter.
    pub fn from_secs(s: u64) -> (d: Self)
        ensures
            d.nanos == seconds(s),
    {
        if s <= u64::MAX / NANOS_PER_SEC {
            Duration { nanos: s * NANOS_PER_SEC }
        } else {
            Duration { nanos: u64::MAX }
        }
    }
}

/// The nanoseconds of a number of seconds, as far as a duration can tell: more
/// than five hundred years are the longest duration.
pub open spec fn seconds(s: u64) -> u64 {
    if s * NANOS_PER_SEC <= u64::MAX {
        (s * NANOS_PER_SEC) as u64
    } else {
        u64::MAX
    }
}

/// The time from `earlier` to `now`; nothing if `earlier` lies ahead.
pub open spec fn elapsed(earlier: Instant, now: Instant) -> nat {
    if now.nanos >= earlier.nanos {
        (now.nanos - earlier.nanos) as nat
    } else {
        0
    }
}

impl Instant {
    /// The time since `earlier`; nothing if `earlier` lies ahead.
    pub fn saturating_duration_since(&self, earlier: Instant) -> (d: Duration)
        ensures
            d.nanos == elapsed(earlier, *self),
    {
        Duration { nanos: self.nanos.saturating_sub(earlier.nanos) }
    }

    /// `d` later.
    pub fn plus(&self, d: Duration) -> (t: Instant)
        requires
            self.nanos + d.nanos <= u64::MAX,
        ensures
            t.nanos == self.nanos + d.nanos,
    {
        Instant { nanos: self.nanos + d.nanos }
    }
}

/// A second has a thousand million nanoseconds; more of them than can be counted
/// are as many as can be.
pub proof fn lemma_seconds(s: u64)
    ensures
        s <= 18_446_744_073 ==> seconds(s) == s * 1_000_000_000,
        s > 18_446_744_073 ==> seconds(s) == u64::MAX,
        NANOS_PER_MILLI == 1_000_000,
{
}

} // verus!
