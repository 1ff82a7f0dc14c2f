//! Latency tiers and watchdog thresholds of each task class.

use vstd::prelude::*;
use crate::time::Duration;
use crate::timestamp::Millis;

verus! {

#[derive(Debug, Clone, Copy, PartialEq, Eq, Structural)]
pub enum TaskClass {
    /// Fine manipulation with tools.
    B,
    /// Coarse pick and place.
    C,
    /// Indoor locomotion.
    D,
    /// Outdoor locomotion.
    E,
}

/// Upper bounds of the tiers; a latency at the last bound or above suspends.
#[derive(Debug, Clone, Copy, PartialEq, Eq, Structural)]
pub struct TierThresholdsMs {
    pub tier0_max: Millis,
    pub tier1_max: Millis,
    pub tier2_max: Millis,
    pub tier3_max: Millis,
}

/// The four bounds of a class, in milliseconds.
pub open spec fn bounds_ms(class: TaskClass) -> (int, int, int, int) {
    match class {
        TaskClass::B => (40, 80, 120, 150),
        TaskClass::C => (80, 150, 220, 300),
        TaskClass::D => (100, 250, 400, 500),
        TaskClass::E => (200, 400, 700, 1000),
    }
}

pub open spec fn blackout_ms(class: TaskClass) -> int {
    match class {
        TaskClass::B => 200,
        TaskClass::C => 300,
        TaskClass::D => 400,
        TaskClass::E => 500,
    }
}

impl TaskClass {
    pub fn thresholds(self) -> (th: TierThresholdsMs)
        ensures
            th.tier0_max.micros == bounds_ms(self).0 * 1000,
            th.tier1_max.micros == bounds_ms(self).1 * 1000,
            th.tier2_max.micros == bounds_ms(self).2 * 1000,
            th.tier3_max.micros == bounds_ms(self).3 * 1000,
            th.tier0_max.micros < th.tier1_max.micros < th.tier2_max.micros
                < th.tier3_max.micros,
    {
        let (a, b, c, d): (i32, i32, i32, i32) = match self {
            TaskClass::B => (40, 80, 120, 150),
            TaskClass::C => (80, 150, 220, 300),
            TaskClass::D => (100, 250, 400, 500),
            TaskClass::E => (200, 400, 700, 1000),
        };
        TierThresholdsMs {
            tier0_max: Millis::from_ms(a),
            tier1_max: Millis::from_ms(b),
            tier2_max: Millis::from_ms(c),
            tier3_max: Millis::from_ms(d),
        }
    }

    /// How long the command stream may be silent before the watchdog trips.
    pub fn watchdog_blackout_ms(self) -> (m: Millis)
        ensures
            m.micros == blackout_ms(self) * 1000,
    {
        let ms: i32 = match self {
            TaskClass::B => 200,
            TaskClass::C => 300,
            TaskClass::D => 400,
            TaskClass::E => 500,
        };
        Millis::from_ms(ms)
    }
}

/// Latency must fall this far below the first bound before operation resumes.
pub const RESUME_HYSTERESIS_MS: i32 = 20;

/// Latency must stay there this long before operation resumes.
pub const RESUME_STABILITY_WINDOW_S: u64 = 2;

/// The stability window as a duration.
pub fn resume_stability_window() -> (d: Duration)
    ensures
        d.nanos == RESUME_STABILITY_WINDOW_S * 1_000_000_000,
{
    Duration::from_secs(RESUME_STABILITY_WINDOW_S)
}

pub open spec fn tier_name_of(tier: u8) -> Seq<char> {
    if tier == 0 {
        "NOMINAL"@
    } else if tier == 1 {
        "DEGRADED"@
    } else if tier == 2 {
        "CAUTIONARY"@
    } else if tier == 3 {
        "CRITICAL"@
    } else {
        "SUSPENDED"@
    }
}

/// The name of a tier.
pub fn tier_name(tier: u8) -> (name: &'static str)
    ensures
        name@ == tier_name_of(tier),
{
    match tier {
        0 => "NOMINAL",
        1 => "DEGRADED",
        2 => "CAUTIONARY",
        3 => "CRITICAL",
        _ => "SUSPENDED",
    }
}

/// The tier of a latency: the first whose bound lies above it.
pub open spec fn tier_of(class: TaskClass, micros: int) -> u8 {
    let (b0, b1, b2, b3) = bounds_ms(class);
    if micros < b0 * 1000 {
        0
    } else if micros < b1 * 1000 {
        1
    } else if micros < b2 * 1000 {
        2
    } else if micros < b3 * 1000 {
        3
    } else {
        4
    }
}

pub fn tier_for_latency(task_class: TaskClass, latency_ms: Millis) -> (tier: u8)
    ensures
        tier == tier_of(task_class, latency_ms.micros as int),
{
    let th = task_class.thresholds();
    let l: i64 = latency_ms.micros;
    if l < th.tier0_max.micros {
        0
    } else if l < th.tier1_max.micros {
        1
    } else if l < th.tier2_max.micros {
        2
    } else if l < th.tier3_max.micros {
        3
    } else {
        4
    }
}

/// More latency never means a better tier.
pub proof fn lemma_tier_monotone(class: TaskClass, a: int, b: int)
    requires
        a <= b,
    ensures
        tier_of(class, a) <= tier_of(class, b),
{
}

/// The table of tiers: which latencies, in microseconds, belong to which tier
/// of which class. Each row says where the tiers after the first begin.
pub proof fn lemma_tier_table(micros: int)
    ensures
        tier_of(TaskClass::B, micros) == 0 <==> micros < 40_000,
        tier_of(TaskClass::B, micros) == 1 <==> 40_000 <= micros < 80_000,
        tier_of(TaskClass::B, micros) == 2 <==> 80_000 <= micros < 120_000,
        tier_of(TaskClass::B, micros) == 3 <==> 120_000 <= micros < 150_000,
        tier_of(TaskClass::B, micros) == 4 <==> 150_000 <= micros,
        tier_of(TaskClass::C, micros) == 0 <==> micros < 80_000,
        tier_of(TaskClass::C, micros) == 1 <==> 80_000 <= micros < 150_000,
        tier_of(TaskClass::C, micros) == 2 <==> 150_000 <= micros < 220_000,
        tier_of(TaskClass::C, micros) == 3 <==> 220_000 <= micros < 300_000,
        tier_of(TaskClass::C, micros) == 4 <==> 300_000 <= micros,
        tier_of(TaskClass::D, micros) == 0 <==> micros < 100_000,
        tier_of(TaskClass::D, micros) == 1 <==> 100_000 <= micros < 250_000,
        tier_of(TaskClass::D, micros) == 2 <==> 250_000 <= micros < 400_000,
        tier_of(TaskClass::D, micros) == 3 <==> 400_000 <= micros < 500_000,
        tier_of(TaskClass::D, micros) == 4 <==> 500_000 <= micros,
        tier_of(TaskClass::E, micros) == 0 <==> micros < 200_000,
        tier_of(TaskClass::E, micros) == 1 <==> 200_000 <= micros < 400_000,
        tier_of(TaskClass::E, micros) == 2 <==> 400_000 <= micros < 700_000,
        tier_of(TaskClass::E, micros) == 3 <==> 700_000 <= micros < 1_000_000,
        tier_of(TaskClass::E, micros) == 4 <==> 1_000_000 <= micros,
{
}

/// What each tier is called.
pub proof fn lemma_tier_names(tier: u8)
    ensures
        tier_name_of(0) == "NOMINAL"@,
        tier_name_of(1) == "DEGRADED"@,
        tier_name_of(2) == "CAUTIONARY"@,
        tier_name_of(3) == "CRITICAL"@,
        tier >= 4 ==> tier_name_of(tier) == "SUSPENDED"@,
{
}

/// How long each class may hear nothing.
pub proof fn lemma_blackouts()
    ensures
        blackout_ms(TaskClass::B) == 200,
        blackout_ms(TaskClass::C) == 300,
        blackout_ms(TaskClass::D) == 400,
        blackout_ms(TaskClass::E) == 500,
{
}

/// The bounds of a class grow from tier to tier, and no bound of one class is
/// above that of the next.
pub proof fn lemma_bounds_grow()
    ensures
        bounds_ms(TaskClass::B) == (40int, 80int, 120int, 150int),
        bounds_ms(TaskClass::C) == (80int, 150int, 220int, 300int),
        bounds_ms(TaskClass::D) == (100int, 250int, 400int, 500int),
        bounds_ms(TaskClass::E) == (200int, 400int, 700int, 1000int),
{
}

} // verus!
