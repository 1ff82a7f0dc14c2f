//! How often, and after what pause, a helper process is started again.

use vstd::prelude::*;
use crate::time;
use crate::time::{Duration, Instant};

verus! {

/// Failures within a window of time.
#[derive(Debug, Clone, Copy, PartialEq, Eq, Structural)]
pub struct RestartPolicy {
    pub attempts: u32,
    pub window_start: Instant,
    pub max_attempts: u32,
    pub window: Duration,
}

/// Two to the power of the attempt, but of five at the most.
pub open spec fn growth(attempt: u32) -> int {
    if attempt == 0 {
        1
    } else if attempt == 1 {
        2
    } else if attempt == 2 {
        4
    } else if attempt == 3 {
        8
    } else if attempt == 4 {
        16
    } else {
        32
    }
}

/// The pause before the next attempt, in milliseconds.
pub fn backoff_ms(base_ms: u16, attempt: u32) -> (ms: u64)
    ensures
        ms == base_ms * growth(attempt),
{
    let factor: u64 = if attempt == 0 {
        1
    } else if attempt == 1 {
        2
    } else if attempt == 2 {
        4
    } else if attempt == 3 {
        8
    } else if attempt == 4 {
        16
    } else {
        32
    };
    assert(base_ms * factor <= 0x1_0000 * 32) by (nonlinear_arith)
        requires
            base_ms <= 0xFFFF,
            factor <= 32,
    ;
    base_ms as u64 * factor
}

impl RestartPolicy {
    pub fn new(max_attempts: u32, window: Duration, now: Instant) -> (p: Self)
        ensures
            p == (RestartPolicy { attempts: 0, window_start: now, max_attempts, window }),
    {
        RestartPolicy { attempts: 0, window_start: now, max_attempts, window }
    }

    /// The counts after one more failure: they start over once the window has
    /// passed.
    pub open spec fn failed(self, now: Instant) -> RestartPolicy {
        let expired = time::elapsed(self.window_start, now) > self.window.nanos;
        let base = if expired {
            0
        } else {
            self.attempts as int
        };
        RestartPolicy {
            attempts: if base < u32::MAX {
                (base + 1) as u32
            } else {
                u32::MAX
            },
            window_start: if expired {
                now
            } else {
                self.window_start
            },
            ..self
        }
    }

    pub open spec fn exhausted(self) -> bool {
        self.attempts > self.max_attempts
    }

    /// Counts a failure. `false` if it is one too many within the window.
    pub fn record_failure(&mut self, now: Instant) -> (retry: bool)
        ensures
            *final(self) == old(self).failed(now),
            retry == !old(self).failed(now).exhausted(),
    {
        if now.saturating_duration_since(self.window_start).nanos > self.window.nanos {
            self.attempts = 0;
            self.window_start = now;
        }
        if self.attempts < u32::MAX {
            self.attempts = self.attempts + 1;
        }
        self.attempts <= self.max_attempts
    }
}

/// A policy after failures at the given times.
pub open spec fn after_failures(p: RestartPolicy, times: Seq<Instant>) -> RestartPolicy
    decreases times.len(),
{
    if times.len() == 0 {
        p
    } else {
        after_failures(p, times.drop_last()).failed(times.last())
    }
}

/// As long as the window does not pass, each failure counts, and the policy
/// gives up at the failure after the last permitted one.
pub proof fn lemma_gives_up(p: RestartPolicy, times: Seq<Instant>)
    requires
        p.attempts == 0,
        times.len() < u32::MAX,
        forall|i: int|
            0 <= i < times.len() ==> time::elapsed(p.window_start, #[trigger] times[i])
                <= p.window.nanos,
    ensures
        after_failures(p, times).attempts == times.len(),
        after_failures(p, times).window_start == p.window_start,
        after_failures(p, times).window == p.window,
        after_failures(p, times).max_attempts == p.max_attempts,
        after_failures(p, times).exhausted() <==> times.len() > p.max_attempts,
    decreases times.len(),
{
    if times.len() > 0 {
        let before = times.drop_last();
        assert forall|i: int| 0 <= i < before.len() implies time::elapsed(
            p.window_start,
            #[trigger] before[i],
        ) <= p.window.nanos by {
            assert(before[i] == times[i]);
        }
        lemma_gives_up(p, before);
        assert(times[times.len() - 1] == times.last());
    }
}

/// The pause doubles with each failure, from the base on, until it has doubled
/// five times; then it stays.
pub proof fn lemma_pause_doubles(attempt: u32)
    ensures
        growth(0) == 1,
        attempt < 5 ==> growth((attempt + 1) as u32) == 2 * growth(attempt),
        attempt >= 5 ==> growth(attempt) == 32,
{
}

/// One failure: within the window it is one more than before; once the window
/// has passed it is the first of a new window, which starts with it. Another try
/// is due as long as there were no more failures than are permitted.
pub proof fn lemma_failure_counts(p: RestartPolicy, now: Instant)
    requires
        p.attempts < u32::MAX,
        p.window_start.nanos <= now.nanos,
    ensures
        now.nanos - p.window_start.nanos <= p.window.nanos ==> p.failed(now).attempts == p.attempts
            + 1 && p.failed(now).window_start == p.window_start,
        now.nanos - p.window_start.nanos > p.window.nanos ==> p.failed(now).attempts == 1 && p.failed(
            now,
        ).window_start == now,
        p.failed(now).max_attempts == p.max_attempts,
        p.failed(now).window == p.window,
        p.failed(now).exhausted() <==> p.failed(now).attempts > p.max_attempts,
{
}

} // verus!
