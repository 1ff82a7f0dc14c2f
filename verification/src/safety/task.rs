//! One safety decision per tick: the tier machine, the watchdog and the
//! explicit stop, put together.

use vstd::prelude::*;
use super::arbitration::{arbitrate, ArbitrationInputs, ControlSource};
use super::arbitration;
use super::state_machine::SafetyStateMachine;
use super::state_machine;
use super::tiers::TaskClass;
use super::tiers;
use super::watchdog::Watchdog;
use super::watchdog;
use crate::time::Instant;
use crate::timestamp::Millis;

verus! {

pub struct SafetyTask {
    pub state_machine: SafetyStateMachine,
    pub watchdog: Watchdog,
    explicit_estop: bool,
    pub deadman_held: bool,
    pub command_fresh: bool,
}

/// A safety task as a mathematical value.
pub struct TaskView {
    pub machine: state_machine::MachineView,
    pub watchdog: watchdog::WatchdogView,
    pub explicit_estop: bool,
    pub deadman_held: bool,
    pub command_fresh: bool,
}

impl View for SafetyTask {
    type V = TaskView;

    closed spec fn view(&self) -> TaskView {
        TaskView {
            machine: self.state_machine@,
            watchdog: self.watchdog@,
            explicit_estop: self.explicit_estop,
            deadman_held: self.deadman_held,
            command_fresh: self.command_fresh,
        }
    }
}

impl TaskView {
    /// Not stopped, and nobody at the controls.
    pub open spec fn fresh(task_class: TaskClass, now: Instant) -> TaskView {
        TaskView {
            machine: state_machine::MachineView::fresh(task_class, now),
            watchdog: watchdog::WatchdogView::fresh(task_class, now),
            explicit_estop: false,
            deadman_held: false,
            command_fresh: false,
        }
    }

    pub open spec fn estopped(self) -> bool {
        self.explicit_estop || self.watchdog.triggered
    }

    /// Received activity on the command channel, with a latency sample if
    /// there is one.
    pub open spec fn active(self, rtt: Option<Millis>, now: Instant) -> TaskView {
        TaskView {
            watchdog: watchdog::WatchdogView { last_heartbeat: now, ..self.watchdog },
            machine: match rtt {
                Some(m) => self.machine.sampled(m.micros as int, now),
                None => self.machine,
            },
            ..self
        }
    }

    /// After an explicit clear.
    pub open spec fn cleared(self, now: Instant) -> TaskView {
        TaskView {
            explicit_estop: false,
            watchdog: watchdog::WatchdogView {
                triggered: false,
                last_heartbeat: now,
                ..self.watchdog
            },
            ..self
        }
    }

    /// After the watchdog was polled.
    pub open spec fn polled(self, now: Instant) -> TaskView {
        TaskView { watchdog: self.watchdog.checked(now), ..self }
    }

    /// Who commands the actuators.
    pub open spec fn source(self) -> ControlSource {
        arbitration::winner(
            ArbitrationInputs {
                estop_latched: self.estopped(),
                safe_parking_requested: false,
                suspended: self.machine.suspended,
                resume_dwell_exceeded: false,
                teleop_ready: self.deadman_held && self.command_fresh && !self.machine.suspended
                    && self.machine.tier <= 3,
                autonomy_goal_asserted: false,
            },
        )
    }
}

impl SafetyTask {
    pub closed spec fn wf(&self) -> bool {
        self.state_machine@.wf() && self.watchdog.wf()
    }

    pub fn new(task_class: TaskClass, now: Instant) -> (t: Self)
        ensures
            t.wf(),
            t@ == TaskView::fresh(task_class, now),
    {
        SafetyTask {
            state_machine: SafetyStateMachine::new(task_class, now),
            watchdog: Watchdog::new(task_class, now),
            explicit_estop: false,
            deadman_held: false,
            command_fresh: false,
        }
    }

    /// Call on every received command-channel datagram.
    pub fn on_channel_b_activity(&mut self, rtt_ms: Option<Millis>, now: Instant)
        requires
            old(self).wf(),
        ensures
            final(self).wf(),
            final(self)@ == old(self)@.active(rtt_ms, now),
    {
        self.watchdog.heartbeat(now);
        match rtt_ms {
            Some(rtt) => self.state_machine.on_rtt_sample(rtt, now),
            None => {},
        }
    }

    /// The operator's stop, or giving up on the robot's driver.
    pub fn trigger_explicit_estop(&mut self)
        ensures
            final(self).wf() == old(self).wf(),
            final(self)@ == (TaskView { explicit_estop: true, ..old(self)@ }),
    {
        self.explicit_estop = true;
    }

    /// An explicit clear; nothing else clears a stop.
    pub fn clear_explicit_estop(&mut self, now: Instant)
        ensures
            final(self).wf() == old(self).wf(),
            final(self)@ == old(self)@.cleared(now),
    {
        self.explicit_estop = false;
        self.watchdog.clear(now);
    }

    /// The operator holds, or no longer holds, the deadman switch and sends
    /// fresh commands.
    pub fn set_teleop(&mut self, deadman_held: bool, command_fresh: bool)
        ensures
            final(self).wf() == old(self).wf(),
            final(self)@ == (TaskView { deadman_held, command_fresh, ..old(self)@ }),
    {
        self.deadman_held = deadman_held;
        self.command_fresh = command_fresh;
    }

    pub fn is_estopped(&self) -> (b: bool)
        ensures
            b == self@.estopped(),
    {
        self.explicit_estop || self.watchdog.is_triggered()
    }

    /// Polls the watchdog and returns who commands the actuators this tick.
    pub fn tick(&mut self, now: Instant) -> (source: ControlSource)
        requires
            old(self).wf(),
        ensures
            final(self).wf(),
            final(self)@ == old(self)@.polled(now),
            source == old(self)@.polled(now).source(),
    {
        let _tripped: bool = self.watchdog.check(now);
        let inputs = ArbitrationInputs {
            estop_latched: self.is_estopped(),
            safe_parking_requested: false,
            suspended: self.state_machine.is_suspended(),
            resume_dwell_exceeded: false,
            teleop_ready: self.deadman_held && self.command_fresh
                && !self.state_machine.is_suspended() && self.state_machine.tier() <= 3,
            autonomy_goal_asserted: false,
        };
        arbitrate(inputs)
    }
}

/// A stop is latched: activity, polling and operator input keep it, and while
/// it holds every tick answers with a stop.
pub proof fn lemma_estop_latched(
    t: TaskView,
    rtt: Option<Millis>,
    now: Instant,
    deadman_held: bool,
    command_fresh: bool,
)
    requires
        t.estopped(),
    ensures
        t.active(rtt, now).estopped(),
        t.polled(now).estopped(),
        (TaskView { deadman_held, command_fresh, ..t }).estopped(),
        t.polled(now).source() == ControlSource::EStop,
{
}

/// A silence of at least the blackout threshold stops the robot, whatever the
/// operator holds.
pub proof fn lemma_blackout_stops(t: TaskView, now: Instant)
    requires
        t.watchdog.overdue(now),
    ensures
        t.polled(now).estopped(),
        t.polled(now).source() == ControlSource::EStop,
{
}

/// Full teleoperation needs the deadman switch, a fresh command, no stop and no
/// suspension.
pub proof fn lemma_teleop_needs(t: TaskView)
    requires
        t.source() == ControlSource::FullTeleoperation,
    ensures
        t.deadman_held,
        t.command_fresh,
        !t.estopped(),
        !t.machine.suspended,
{
}

/// Who commands the actuators, out of what was reported: a stop, by whomever it
/// was caused, beats everything; a suspended machine holds still; the operator
/// drives while the deadman switch is held and commands are fresh; and without
/// either of these the robot holds still.
pub proof fn lemma_source(t: TaskView)
    requires
        t.machine.wf(),
    ensures
        t.source() == ControlSource::EStop <==> t.explicit_estop || t.watchdog.triggered,
        t.source() == ControlSource::FullTeleoperation <==> !t.explicit_estop
            && !t.watchdog.triggered && !t.machine.suspended && t.deadman_held && t.command_fresh,
        t.source() == ControlSource::ActiveImpedanceHold <==> !t.explicit_estop
            && !t.watchdog.triggered && (t.machine.suspended || !t.deadman_held
            || !t.command_fresh),
{
}

/// Activity on the command channel, with or without a latency sample, restarts
/// the watchdog's count and does nothing else to the stop or the operator's
/// state. A sample reaches the tier machine; without one the machine is left
/// alone.
pub proof fn lemma_activity(t: TaskView, rtt: Option<Millis>, now: Instant)
    ensures
        t.active(rtt, now).watchdog.last_heartbeat == now,
        t.active(rtt, now).watchdog.triggered == t.watchdog.triggered,
        t.active(rtt, now).watchdog.threshold_micros == t.watchdog.threshold_micros,
        t.active(rtt, now).explicit_estop == t.explicit_estop,
        t.active(rtt, now).deadman_held == t.deadman_held,
        t.active(rtt, now).command_fresh == t.command_fresh,
        rtt is None ==> t.active(rtt, now).machine == t.machine,
        rtt matches Some(m) ==> t.active(rtt, now).machine == t.machine.sampled(
            m.micros as int,
            now,
        ),
{
}

/// A clear ends a stop of either cause and starts the watchdog's count anew, so
/// that the robot is not stopped again before a whole silence has passed.
pub proof fn lemma_clear_ends_stop(t: TaskView, now: Instant, later: Instant)
    requires
        now.nanos <= later.nanos,
        later.nanos - now.nanos < t.watchdog.threshold_micros * 1000,
    ensures
        !t.cleared(now).estopped(),
        !t.cleared(now).polled(later).estopped(),
        t.cleared(now).machine == t.machine,
        t.cleared(now).deadman_held == t.deadman_held,
        t.cleared(now).command_fresh == t.command_fresh,
{
}

/// Polling stops the robot exactly when the silence has lasted as long as the
/// threshold, and touches nothing but the watchdog.
pub proof fn lemma_poll(t: TaskView, now: Instant)
    requires
        t.watchdog.last_heartbeat.nanos <= now.nanos,
    ensures
        t.polled(now).estopped() <==> t.explicit_estop || t.watchdog.triggered || now.nanos
            - t.watchdog.last_heartbeat.nanos >= t.watchdog.threshold_micros * 1000,
        t.polled(now).explicit_estop == t.explicit_estop,
        t.polled(now).machine == t.machine,
        t.polled(now).deadman_held == t.deadman_held,
        t.polled(now).command_fresh == t.command_fresh,
{
}

} // verus!
