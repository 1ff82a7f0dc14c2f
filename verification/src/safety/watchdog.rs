//! The watchdog: trips when the command stream has been silent too long.

use vstd::prelude::*;
use super::tiers::TaskClass;
use crate::time::{Duration, Instant};
use crate::timestamp::Millis;

verus! {

#[derive(Debug, Clone, Copy, PartialEq, Eq, Structural)]
pub struct WatchdogTrigger {
    pub at: Instant,
    /// How long the silence had lasted.
    pub blackout: Duration,
}

pub struct Watchdog {
    threshold_ms: Millis,
    last_heartbeat: Instant,
    triggered: bool,
    pub trigger_events: Vec<WatchdogTrigger>,
}

/// A watchdog as a mathematical value.
pub struct WatchdogView {
    pub threshold_micros: int,
    pub last_heartbeat: Instant,
    pub triggered: bool,
    pub events: Seq<WatchdogTrigger>,
}

impl View for Watchdog {
    type V = WatchdogView;

    closed spec fn view(&self) -> WatchdogView {
        WatchdogView {
            threshold_micros: self.threshold_ms.micros as int,
            last_heartbeat: self.last_heartbeat,
            triggered: self.triggered,
            events: self.trigger_events@,
        }
    }
}

impl WatchdogView {
    /// Heard at `now`, and never triggered.
    pub open spec fn fresh(task_class: TaskClass, now: Instant) -> WatchdogView {
        WatchdogView {
            threshold_micros: super::tiers::blackout_ms(task_class) * 1000,
            last_heartbeat: now,
            triggered: false,
            events: Seq::empty(),
        }
    }

    /// Has the silence lasted at least as long as the threshold?
    pub open spec fn overdue(self, now: Instant) -> bool {
        crate::time::elapsed(self.last_heartbeat, now) >= self.threshold_micros * 1000
    }

    /// What a poll does: trips if it had not tripped and is overdue.
    pub open spec fn checked(self, now: Instant) -> WatchdogView {
        if !self.triggered && self.overdue(now) {
            WatchdogView {
                triggered: true,
                events: self.events.push(
                    WatchdogTrigger {
                        at: now,
                        blackout: Duration {
                            nanos: crate::time::elapsed(self.last_heartbeat, now) as u64,
                        },
                    },
                ),
                ..self
            }
        } else {
            self
        }
    }
}

impl Watchdog {
    /// The threshold is one of the task classes'.
    pub closed spec fn wf(&self) -> bool {
        0 < self.threshold_ms.micros <= 1_000_000
    }

    pub fn new(task_class: TaskClass, now: Instant) -> (w: Self)
        ensures
            w.wf(),
            w@ == WatchdogView::fresh(task_class, now),
    {
        Watchdog {
            threshold_ms: task_class.watchdog_blackout_ms(),
            last_heartbeat: now,
            triggered: false,
            trigger_events: Vec::new(),
        }
    }

    pub fn threshold_ms(&self) -> (m: Millis)
        ensures
            m.micros == self@.threshold_micros,
    {
        self.threshold_ms
    }

    pub fn is_triggered(&self) -> (b: bool)
        ensures
            b == self@.triggered,
    {
        self.triggered
    }

    /// Call on every received command or heartbeat.
    pub fn heartbeat(&mut self, now: Instant)
        ensures
            final(self).wf() == old(self).wf(),
            final(self)@ == (WatchdogView { last_heartbeat: now, ..old(self)@ }),
    {
        self.last_heartbeat = now;
    }

    /// Polls. `true` exactly when this very call trips the watchdog, so that a
    /// caller reacts once per blackout.
    pub fn check(&mut self, now: Instant) -> (tripped: bool)
        requires
            old(self).wf(),
        ensures
            final(self).wf(),
            tripped == (!old(self)@.triggered && old(self)@.overdue(now)),
            final(self)@ == old(self)@.checked(now),
    {
        if self.triggered {
            return false;
        }
        let blackout = now.saturating_duration_since(self.last_heartbeat);
        if blackout.nanos >= self.threshold_ms.micros as u64 * 1000 {
            self.triggered = true;
            self.trigger_events.push(WatchdogTrigger { at: now, blackout });
            return true;
        }
        false
    }

    /// Clears the watchdog by an explicit act.
    pub fn clear(&mut self, now: Instant)
        ensures
            final(self).wf() == old(self).wf(),
            final(self)@ == (WatchdogView { triggered: false, last_heartbeat: now, ..old(self)@ }),
    {
        self.triggered = false;
        self.last_heartbeat = now;
    }
}

/// Once tripped, neither heartbeats nor polls clear the watchdog, and it
/// reports no second trip: it stays tripped until it is cleared.
pub proof fn lemma_trips_once(w: WatchdogView, beat: Instant, now: Instant)
    requires
        w.triggered,
    ensures
        w.checked(now) == w,
        ({
            let after = WatchdogView { last_heartbeat: beat, ..w };
            after.checked(now) == after
        }),
{
}

/// A heartbeat within the threshold keeps the watchdog from tripping.
pub proof fn lemma_heartbeat_keeps(w: WatchdogView, beat: Instant, now: Instant)
    requires
        !w.triggered,
        crate::time::elapsed(beat, now) < w.threshold_micros * 1000,
    ensures
        !(WatchdogView { last_heartbeat: beat, ..w }).checked(now).triggered,
{
}

/// The watchdog trips exactly when the silence has reached the threshold of its
/// class, and puts on record when that was and how long it had lasted.
pub proof fn lemma_trips_at_threshold(w: WatchdogView, now: Instant)
    requires
        !w.triggered,
        w.last_heartbeat.nanos <= now.nanos,
    ensures
        w.checked(now).triggered <==> now.nanos - w.last_heartbeat.nanos >= w.threshold_micros
            * 1000,
        w.checked(now).last_heartbeat == w.last_heartbeat,
        w.checked(now).threshold_micros == w.threshold_micros,
        !w.checked(now).triggered ==> w.checked(now).events == w.events,
        w.checked(now).triggered ==> {
            &&& w.checked(now).events.len() == w.events.len() + 1
            &&& w.checked(now).events.drop_last() == w.events
            &&& w.checked(now).events.last().at == now
            &&& w.checked(now).events.last().blackout.nanos == now.nanos - w.last_heartbeat.nanos
        },
{
    if w.checked(now).triggered {
        assert(w.checked(now).events.drop_last() =~= w.events);
    }
}

/// The thresholds of the four classes, in microseconds; a fresh watchdog has not
/// tripped, and counts the silence from its start.
pub proof fn lemma_fresh_watchdog(now: Instant)
    ensures
        WatchdogView::fresh(TaskClass::B, now).threshold_micros == 200_000,
        WatchdogView::fresh(TaskClass::C, now).threshold_micros == 300_000,
        WatchdogView::fresh(TaskClass::D, now).threshold_micros == 400_000,
        WatchdogView::fresh(TaskClass::E, now).threshold_micros == 500_000,
        forall|class: TaskClass|
            {
                &&& !(#[trigger] WatchdogView::fresh(class, now)).triggered
                &&& WatchdogView::fresh(class, now).last_heartbeat == now
                &&& WatchdogView::fresh(class, now).events.len() == 0
            },
{
}

} // verus!
