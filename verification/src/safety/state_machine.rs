//! The latency-driven tier machine, with the interlock that guards the way
//! back out of suspension.

use vstd::prelude::*;
use super::tiers::{
    resume_stability_window, tier_for_latency, TaskClass, RESUME_HYSTERESIS_MS,
    RESUME_STABILITY_WINDOW_S,
};
use super::tiers;
use crate::time;
use crate::time::Instant;
use crate::timestamp::Millis;

verus! {

#[derive(Debug, Clone, Copy, PartialEq, Eq, Structural)]
pub enum TransitionTrigger {
    Init,
    Latency,
    Resume,
}

#[derive(Debug, Clone, Copy, PartialEq, Eq, Structural)]
pub struct TierTransition {
    pub at: Instant,
    pub old_tier: u8,
    pub new_tier: u8,
    pub trigger: TransitionTrigger,
}

pub struct SafetyStateMachine {
    task_class: TaskClass,
    tier: u8,
    suspended: bool,
    deadman_reset_requested: bool,
    stable_since: Option<Instant>,
    pub transitions: Vec<TierTransition>,
}

/// A tier machine as a mathematical value.
pub struct MachineView {
    pub task_class: TaskClass,
    pub tier: u8,
    pub suspended: bool,
    pub reset_requested: bool,
    pub stable_since: Option<Instant>,
    pub transitions: Seq<TierTransition>,
}

impl View for SafetyStateMachine {
    type V = MachineView;

    closed spec fn view(&self) -> MachineView {
        MachineView {
            task_class: self.task_class,
            tier: self.tier,
            suspended: self.suspended,
            reset_requested: self.deadman_reset_requested,
            stable_since: self.stable_since,
            transitions: self.transitions@,
        }
    }
}

/// Latency at or above this does not count as recovered.
pub open spec fn resume_ceiling(class: TaskClass) -> int {
    (tiers::bounds_ms(class).0 - RESUME_HYSTERESIS_MS) * 1000
}

impl MachineView {
    /// At the best tier, with nothing but the start on record.
    pub open spec fn fresh(task_class: TaskClass, now: Instant) -> MachineView {
        MachineView {
            task_class,
            tier: 0,
            suspended: false,
            reset_requested: false,
            stable_since: None,
            transitions: seq![
                TierTransition {
                    at: now,
                    old_tier: 0,
                    new_tier: 0,
                    trigger: TransitionTrigger::Init,
                },
            ],
        }
    }

    /// Suspended exactly in the highest tier.
    pub open spec fn wf(self) -> bool {
        &&& self.tier <= 4
        &&& self.suspended <==> self.tier == 4
        &&& self.stable_since is Some ==> self.suspended
    }

    pub open spec fn moved(self, new_tier: u8, trigger: TransitionTrigger, now: Instant) -> MachineView {
        MachineView {
            tier: new_tier,
            transitions: self.transitions.push(
                TierTransition { at: now, old_tier: self.tier, new_tier, trigger },
            ),
            ..self
        }
    }

    /// Since when latency has been recovered, if `now` it is.
    pub open spec fn recovered_since(self, now: Instant) -> Instant {
        match self.stable_since {
            Some(t) => t,
            None => now,
        }
    }

    /// May operation resume on a recovered sample at `now`?
    pub open spec fn may_resume(self, now: Instant) -> bool {
        self.reset_requested && time::elapsed(self.recovered_since(now), now)
            >= RESUME_STABILITY_WINDOW_S * 1_000_000_000
    }

    /// What one latency sample does.
    pub open spec fn sampled(self, micros: int, now: Instant) -> MachineView {
        if self.suspended {
            if micros >= resume_ceiling(self.task_class) {
                MachineView { stable_since: None, ..self }
            } else if self.may_resume(now) {
                (MachineView {
                    suspended: false,
                    reset_requested: false,
                    stable_since: None,
                    ..self
                }).moved(0, TransitionTrigger::Resume, now)
            } else {
                MachineView { stable_since: Some(self.recovered_since(now)), ..self }
            }
        } else {
            let new_tier = tiers::tier_of(self.task_class, micros);
            let m = if new_tier != self.tier {
                self.moved(new_tier, TransitionTrigger::Latency, now)
            } else {
                self
            };
            if new_tier == 4 {
                MachineView { suspended: true, stable_since: None, ..m }
            } else {
                m
            }
        }
    }
}

impl SafetyStateMachine {
    pub fn new(task_class: TaskClass, now: Instant) -> (m: Self)
        ensures
            m@.wf(),
            m@ == MachineView::fresh(task_class, now),
    {
        let mut transitions: Vec<TierTransition> = Vec::new();
        transitions.push(
            TierTransition {
                at: now,
                old_tier: 0,
                new_tier: 0,
                trigger: TransitionTrigger::Init,
            },
        );
        proof {
            assert(transitions@ =~= seq![
                TierTransition {
                    at: now,
                    old_tier: 0,
                    new_tier: 0,
                    trigger: TransitionTrigger::Init,
                },
            ]);
        }
        SafetyStateMachine {
            task_class,
            tier: 0,
            suspended: false,
            deadman_reset_requested: false,
            stable_since: None,
            transitions,
        }
    }

    pub fn task_class(&self) -> (c: TaskClass)
        ensures
            c == self@.task_class,
    {
        self.task_class
    }

    pub fn tier(&self) -> (t: u8)
        ensures
            t == self@.tier,
    {
        self.tier
    }

    pub fn is_suspended(&self) -> (b: bool)
        ensures
            b == self@.suspended,
    {
        self.suspended
    }

    /// The operator asks to resume. Takes effect only once latency has been
    /// recovered for long enough too.
    pub fn request_deadman_reset(&mut self)
        ensures
            final(self)@ == (MachineView { reset_requested: true, ..old(self)@ }),
            old(self)@.wf() ==> final(self)@.wf(),
    {
        self.deadman_reset_requested = true;
    }

    pub fn on_rtt_sample(&mut self, rtt_ms: Millis, now: Instant)
        ensures
            final(self)@ == old(self)@.sampled(rtt_ms.micros as int, now),
            old(self)@.wf() ==> final(self)@.wf(),
    {
        if self.suspended {
            self.evaluate_resume(rtt_ms, now);
            return;
        }
        let new_tier: u8 = tier_for_latency(self.task_class, rtt_ms);
        if new_tier != self.tier {
            self.transition(new_tier, TransitionTrigger::Latency, now);
        }
        if new_tier == 4 {
            self.suspended = true;
            self.stable_since = None;
        }
    }

    fn evaluate_resume(&mut self, rtt_ms: Millis, now: Instant)
        requires
            old(self)@.suspended,
        ensures
            final(self)@ == old(self)@.sampled(rtt_ms.micros as int, now),
            old(self)@.wf() ==> final(self)@.wf(),
    {
        let th = self.task_class.thresholds();
        let ceiling: i64 = th.tier0_max.micros - RESUME_HYSTERESIS_MS as i64 * 1000;
        if rtt_ms.micros >= ceiling {
            self.stable_since = None;
            return;
        }
        let since: Instant = match self.stable_since {
            Some(t) => t,
            None => now,
        };
        self.stable_since = Some(since);
        let stable_for = now.saturating_duration_since(since);
        if stable_for.nanos >= resume_stability_window().nanos && self.deadman_reset_requested {
            self.suspended = false;
            self.deadman_reset_requested = false;
            self.stable_since = None;
            self.transition(0, TransitionTrigger::Resume, now);
        }
    }

    fn transition(&mut self, new_tier: u8, trigger: TransitionTrigger, now: Instant)
        ensures
            final(self)@ == old(self)@.moved(new_tier, trigger, now),
    {
        let old_tier: u8 = self.tier;
        self.tier = new_tier;
        self.transitions.push(TierTransition { at: now, old_tier, new_tier, trigger });
    }
}

/// Suspension ends only on the operator's request, on a recovered sample, and
/// after latency has been recovered for the whole stability window.
pub proof fn lemma_resume_interlock(m: MachineView, micros: int, now: Instant)
    requires
        m.suspended,
        !m.sampled(micros, now).suspended,
    ensures
        m.reset_requested,
        micros < resume_ceiling(m.task_class),
        m.stable_since matches Some(t) && time::elapsed(t, now) >= RESUME_STABILITY_WINDOW_S
            * 1_000_000_000,
        m.sampled(micros, now).tier == 0,
        !m.sampled(micros, now).reset_requested,
{
}

/// A machine after a history of samples.
pub open spec fn after_samples(m: MachineView, samples: Seq<(int, Instant)>) -> MachineView
    decreases samples.len(),
{
    if samples.len() == 0 {
        m
    } else {
        let last = samples.last();
        after_samples(m, samples.drop_last()).sampled(last.0, last.1)
    }
}

/// While the machine counts latency as recovered since some time, every sample
/// from then on was below the ceiling, and the first of them came at that time.
proof fn lemma_stable_means_recovered(m: MachineView, samples: Seq<(int, Instant)>)
    requires
        m.stable_since is None,
    ensures
        after_samples(m, samples).task_class == m.task_class,
        after_samples(m, samples).stable_since is Some ==> after_samples(m, samples).suspended,
        after_samples(m, samples).stable_since matches Some(t) ==> exists|k: int|
            0 <= k < samples.len() && (#[trigger] samples[k]).1 == t && forall|i: int|
                k <= i < samples.len() ==> (#[trigger] samples[i]).0 < resume_ceiling(m.task_class),
    decreases samples.len(),
{
    if samples.len() > 0 {
        let before = samples.drop_last();
        let prev = after_samples(m, before);
        let n = samples.len() - 1;
        lemma_stable_means_recovered(m, before);
        if let Some(t) = after_samples(m, samples).stable_since {
            if prev.stable_since is Some {
                let k = choose|k: int|
                    0 <= k < before.len() && (#[trigger] before[k]).1 == t && forall|i: int|
                        k <= i < before.len() ==> (#[trigger] before[i]).0 < resume_ceiling(
                            m.task_class,
                        );
                assert(samples[k].1 == t);
                assert forall|i: int| k <= i < samples.len() implies (#[trigger] samples[i]).0
                    < resume_ceiling(m.task_class) by {
                    if i < n {
                        assert(before[i] == samples[i]);
                    }
                }
            } else {
                assert(samples[n].1 == t);
            }
        }
    }
}

/// Over a whole history: when a sample ends a suspension, the samples of the
/// last stability window were all recovered ones. There is a sample at least
/// the window's length before, from which on not one reached the ceiling.
pub proof fn lemma_resume_needs_stable_window(m: MachineView, samples: Seq<(int, Instant)>)
    requires
        m.stable_since is None,
        samples.len() > 0,
        after_samples(m, samples.drop_last()).suspended,
        !after_samples(m, samples).suspended,
    ensures
        exists|k: int|
            0 <= k < samples.len() && time::elapsed((#[trigger] samples[k]).1, samples.last().1)
                >= RESUME_STABILITY_WINDOW_S * 1_000_000_000 && forall|i: int|
                k <= i < samples.len() ==> (#[trigger] samples[i]).0 < resume_ceiling(m.task_class),
{
    let before = samples.drop_last();
    let prev = after_samples(m, before);
    lemma_stable_means_recovered(m, before);
    let last = samples.last();
    lemma_resume_interlock(prev, last.0, last.1);
    let t = prev.stable_since->0;
    let k = choose|k: int|
        0 <= k < before.len() && (#[trigger] before[k]).1 == t && forall|i: int|
            k <= i < before.len() ==> (#[trigger] before[i]).0 < resume_ceiling(m.task_class);
    assert(samples[k].1 == t);
    assert forall|i: int| k <= i < samples.len() implies (#[trigger] samples[i]).0
        < resume_ceiling(m.task_class) by {
        if i < before.len() {
            assert(before[i] == samples[i]);
        }
    }
}

/// Samples alone never end a suspension: without the operator's request the
/// machine stays suspended however good the latency and however long.
pub proof fn lemma_no_resume_without_request(m: MachineView, samples: Seq<(int, Instant)>)
    requires
        m.suspended,
        !m.reset_requested,
    ensures
        after_samples(m, samples).suspended,
        !after_samples(m, samples).reset_requested,
    decreases samples.len(),
{
    if samples.len() > 0 {
        lemma_no_resume_without_request(m, samples.drop_last());
    }
}

/// What can happen to a tier machine.
pub enum MachineEvent {
    Sample { micros: int, now: Instant },
    ResetRequest,
}

/// A machine after a history of events.
pub open spec fn after_events(m: MachineView, events: Seq<MachineEvent>) -> MachineView
    decreases events.len(),
{
    if events.len() == 0 {
        m
    } else {
        let before = after_events(m, events.drop_last());
        match events.last() {
            MachineEvent::Sample { micros, now } => before.sampled(micros, now),
            MachineEvent::ResetRequest => MachineView { reset_requested: true, ..before },
        }
    }
}

/// A transition may follow one that ended in `tier`: it begins there and leads
/// elsewhere, out of the highest tier by resuming only, and then to the lowest.
pub open spec fn may_follow(tier: u8, t: TierTransition) -> bool {
    &&& t.old_tier == tier
    &&& match t.trigger {
        TransitionTrigger::Init => false,
        TransitionTrigger::Latency => t.old_tier != t.new_tier && t.old_tier != 4,
        TransitionTrigger::Resume => t.old_tier == 4 && t.new_tier == 0,
    }
}

/// Transition `i` follows on the one before.
pub open spec fn linked(transitions: Seq<TierTransition>, i: int) -> bool {
    may_follow(transitions[i - 1].new_tier, transitions[i])
}

/// The transitions on record form a chain from the start to `tier`.
pub open spec fn chained(transitions: Seq<TierTransition>, tier: u8) -> bool {
    &&& transitions.len() > 0
    &&& transitions[0].trigger == TransitionTrigger::Init
    &&& transitions[0].old_tier == 0 && transitions[0].new_tier == 0
    &&& transitions.last().new_tier == tier
    &&& forall|i: int| 1 <= i < transitions.len() ==> #[trigger] linked(transitions, i)
}

proof fn lemma_chain_grows(transitions: Seq<TierTransition>, tier: u8, t: TierTransition)
    requires
        chained(transitions, tier),
        may_follow(tier, t),
    ensures
        chained(transitions.push(t), t.new_tier),
{
    let more = transitions.push(t);
    assert forall|i: int| 1 <= i < more.len() implies #[trigger] linked(more, i) by {
        if i < transitions.len() {
            assert(linked(transitions, i));
        }
    }
}

/// Over a whole history: the transitions on record lead from the start to the
/// tier that the machine is in, without a gap. Each of them changes the tier,
/// the highest tier is left by resuming only, and resuming leads to the lowest.
pub proof fn lemma_transitions_chained(
    task_class: TaskClass,
    start: Instant,
    events: Seq<MachineEvent>,
)
    ensures
        after_events(MachineView::fresh(task_class, start), events).wf(),
        chained(
            after_events(MachineView::fresh(task_class, start), events).transitions,
            after_events(MachineView::fresh(task_class, start), events).tier,
        ),
    decreases events.len(),
{
    let fresh = MachineView::fresh(task_class, start);
    if events.len() > 0 {
        lemma_transitions_chained(task_class, start, events.drop_last());
        let before = after_events(fresh, events.drop_last());
        match events.last() {
            MachineEvent::Sample { micros, now } => {
                let tier = before.sampled(micros, now).tier;
                if tier != before.tier {
                    let trigger = if before.suspended {
                        TransitionTrigger::Resume
                    } else {
                        TransitionTrigger::Latency
                    };
                    lemma_chain_grows(
                        before.transitions,
                        before.tier,
                        TierTransition { at: now, old_tier: before.tier, new_tier: tier, trigger },
                    );
                }
            },
            MachineEvent::ResetRequest => {},
        }
    }
}

/// The latency from which on a class is in each tier but the first, and the
/// latency below which it counts as recovered, in microseconds.
pub open spec fn limits(class: TaskClass) -> (int, int, int, int, int) {
    match class {
        TaskClass::B => (40_000, 80_000, 120_000, 150_000, 20_000),
        TaskClass::C => (80_000, 150_000, 220_000, 300_000, 60_000),
        TaskClass::D => (100_000, 250_000, 400_000, 500_000, 80_000),
        TaskClass::E => (200_000, 400_000, 700_000, 1_000_000, 180_000),
    }
}

/// While the machine is not suspended, the tier after a sample is that of the
/// sample's latency, whatever it was before: it falls as readily as it rises. A
/// change is put on record once, and what suspends is the highest tier alone.
pub proof fn lemma_tier_follows_latency(m: MachineView, micros: int, now: Instant)
    requires
        !m.suspended,
    ensures
        ({
            let after = m.sampled(micros, now);
            let (b0, b1, b2, b3, _) = limits(m.task_class);
            &&& after.tier <= 4
            &&& after.tier == 0 <==> micros < b0
            &&& after.tier <= 1 <==> micros < b1
            &&& after.tier <= 2 <==> micros < b2
            &&& after.tier <= 3 <==> micros < b3
            &&& after.suspended <==> micros >= b3
            &&& after.task_class == m.task_class
            &&& after.reset_requested == m.reset_requested
            &&& after.tier == m.tier ==> after.transitions == m.transitions
            &&& after.tier != m.tier ==> {
                &&& after.transitions.len() == m.transitions.len() + 1
                &&& after.transitions.drop_last() == m.transitions
                &&& after.transitions.last().at == now
                &&& after.transitions.last().old_tier == m.tier
                &&& after.transitions.last().new_tier == after.tier
                &&& after.transitions.last().trigger == TransitionTrigger::Latency
            }
        }),
{
    let after = m.sampled(micros, now);
    if after.tier != m.tier {
        assert(after.transitions.drop_last() =~= m.transitions);
    }
}

/// Two machines of one class that are not suspended agree on the tier after the
/// same sample: nothing of their past counts.
pub proof fn lemma_past_does_not_count(
    m: MachineView,
    other: MachineView,
    micros: int,
    now: Instant,
    later: Instant,
)
    requires
        !m.suspended,
        !other.suspended,
        m.task_class == other.task_class,
    ensures
        m.sampled(micros, now).tier == other.sampled(micros, later).tier,
        m.sampled(micros, now).suspended == other.sampled(micros, later).suspended,
{
}

/// What a sample does to a suspended machine. One that is not recovered makes
/// the wait start over. A recovered one starts the wait, or leaves it running
/// from where it began. Once the wait has lasted two seconds and the operator
/// has asked, it resumes in the best tier, and the request is used up. In every
/// other case the machine stays as it is.
pub proof fn lemma_suspended_sample(m: MachineView, micros: int, now: Instant)
    requires
        m.suspended,
    ensures
        ({
            let after = m.sampled(micros, now);
            let ceiling = limits(m.task_class).4;
            let waited = m.stable_since is Some && now.nanos >= m.stable_since->0.nanos
                + 2_000_000_000;
            if micros < ceiling && waited && m.reset_requested {
                &&& !after.suspended
                &&& after.tier == 0
                &&& !after.reset_requested
                &&& after.stable_since is None
                &&& after.transitions.len() == m.transitions.len() + 1
                &&& after.transitions.drop_last() == m.transitions
                &&& after.transitions.last().at == now
                &&& after.transitions.last().old_tier == m.tier
                &&& after.transitions.last().new_tier == 0
                &&& after.transitions.last().trigger == TransitionTrigger::Resume
            } else {
                &&& after.suspended
                &&& after.tier == m.tier
                &&& after.reset_requested == m.reset_requested
                &&& after.transitions == m.transitions
                &&& micros >= ceiling ==> after.stable_since is None
                &&& micros < ceiling && m.stable_since is None ==> after.stable_since == Some(now)
                &&& micros < ceiling && m.stable_since is Some ==> after.stable_since
                    == m.stable_since
            }
        }),
{
    let after = m.sampled(micros, now);
    if !after.suspended {
        assert(after.transitions.drop_last() =~= m.transitions);
    }
}

} // verus!
