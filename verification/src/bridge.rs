//! The robot's driver process: the commands it takes, the events it reports,
//! and how it is supervised.

use vstd::prelude::*;
use crate::channel_b::TelemetryData;
use crate::input::AttitudeAxis;
use crate::restart;
use crate::restart::{backoff_ms, RestartPolicy};
use crate::time;
use crate::time::{Duration, Instant};

verus! {

/// A command to the driver. Velocities and angles are in hundredths.
#[derive(Debug, Clone, Copy, PartialEq, Eq, Structural)]
pub enum BridgeCommand {
    Move { x: i32, y: i32, seq: u64 },
    Turn { step: i32, seq: u64 },
    Attitude { axis: AttitudeAxis, data: i32, seq: u64 },
    Action { id: u8, seq: u64 },
    Motor { id: u8, angle: i32, seq: u64 },
    /// Millimetres from the base.
    Arm { x: i16, z: i16, seq: u64 },
    /// 0 to 255.
    Claw { pos: u8, seq: u64 },
    Stop { seq: u64 },
    Heartbeat { seq: u64 },
    Query { seq: u64 },
    Estop { seq: u64 },
    EstopClear { seq: u64 },
}

impl BridgeCommand {
    pub open spec fn number(self) -> u64 {
        match self {
            BridgeCommand::Move { seq, .. } => seq,
            BridgeCommand::Turn { seq, .. } => seq,
            BridgeCommand::Attitude { seq, .. } => seq,
            BridgeCommand::Action { seq, .. } => seq,
            BridgeCommand::Motor { seq, .. } => seq,
            BridgeCommand::Arm { seq, .. } => seq,
            BridgeCommand::Claw { seq, .. } => seq,
            BridgeCommand::Stop { seq } => seq,
            BridgeCommand::Heartbeat { seq } => seq,
            BridgeCommand::Query { seq } => seq,
            BridgeCommand::Estop { seq } => seq,
            BridgeCommand::EstopClear { seq } => seq,
        }
    }

    /// Does the command move the robot?
    pub open spec fn moves(self) -> bool {
        match self {
            BridgeCommand::Move { .. } => true,
            BridgeCommand::Turn { .. } => true,
            BridgeCommand::Attitude { .. } => true,
            BridgeCommand::Action { .. } => true,
            BridgeCommand::Motor { .. } => true,
            BridgeCommand::Arm { .. } => true,
            BridgeCommand::Claw { .. } => true,
            _ => false,
        }
    }

    pub fn seq(&self) -> (n: u64)
        ensures
            n == self.number(),
    {
        match self {
            BridgeCommand::Move { seq, .. } => *seq,
            BridgeCommand::Turn { seq, .. } => *seq,
            BridgeCommand::Attitude { seq, .. } => *seq,
            BridgeCommand::Action { seq, .. } => *seq,
            BridgeCommand::Motor { seq, .. } => *seq,
            BridgeCommand::Arm { seq, .. } => *seq,
            BridgeCommand::Claw { seq, .. } => *seq,
            BridgeCommand::Stop { seq } => *seq,
            BridgeCommand::Heartbeat { seq } => *seq,
            BridgeCommand::Query { seq } => *seq,
            BridgeCommand::Estop { seq } => *seq,
            BridgeCommand::EstopClear { seq } => *seq,
        }
    }
}

/// What the driver reports.
#[derive(Debug)]
pub enum BridgeEvent {
    Ack { seq: Option<u64>, ok: bool, error: Option<String> },
    Telemetry(TelemetryData),
    Status { state: String, detail: Option<String> },
    Log { level: String, msg: String },
}

/// What the supervisor reports.
#[derive(Debug)]
pub enum SupervisorEvent {
    FromBridge(BridgeEvent),
    /// The driver ended unexpectedly. `will_retry` is false once it ended more
    /// often than is permitted within the window; `GaveUp` then follows at once.
    ProcessDied { attempt: u32, will_retry: bool },
    GaveUp,
}

#[derive(Debug)]
pub struct BridgeConfig {
    pub python_bin: String,
    pub script_path: String,
    pub extra_args: Vec<String>,
    pub max_restart_attempts: u32,
    pub restart_window: Duration,
}

impl Default for BridgeConfig {
    fn default() -> (c: Self)
        ensures
            c.python_bin@ == "python3"@,
            c.script_path@ == "xgo_bridge/xgo_bridge.py"@,
            c.extra_args@.len() == 0,
            c.max_restart_attempts == 3,
            c.restart_window.nanos == 60_000_000_000,
    {
        BridgeConfig {
            python_bin: String::from_str("python3"),
            script_path: String::from_str("xgo_bridge/xgo_bridge.py"),
            extra_args: Vec::new(),
            max_restart_attempts: 3,
            restart_window: Duration::from_secs(60),
        }
    }
}

/// What happens to the driver process.
#[derive(Debug, Clone, Copy, PartialEq, Eq, Structural)]
pub enum ProcessEvent {
    SpawnFailed,
    WriteFailed,
    OutputEnded,
    ReadFailed,
    Exited,
    /// Nobody can send commands any more: a deliberate shutdown.
    CommandsClosed,
}

/// What the supervisor does then.
#[derive(Debug, Clone, Copy, PartialEq, Eq, Structural)]
pub enum SupervisorStep {
    /// Make sure that the process is gone, if there is one; report; pause; start
    /// it again.
    Retry { kill: bool, attempt: u32, pause_ms: u64 },
    /// Make sure that it is gone; report; stop.
    GiveUp { kill: bool },
    /// End the process and stop.
    ShutDown,
}

/// What is reported with a step, in this order, by a supervisor whose counts are
/// `p` after it.
pub open spec fn reported(step: SupervisorStep, p: RestartPolicy) -> Seq<SupervisorEvent> {
    match step {
        SupervisorStep::Retry { attempt, .. } => seq![
            SupervisorEvent::ProcessDied { attempt, will_retry: true },
        ],
        SupervisorStep::GiveUp { .. } => seq![
            SupervisorEvent::ProcessDied { attempt: p.attempts, will_retry: false },
            SupervisorEvent::GaveUp,
        ],
        SupervisorStep::ShutDown => Seq::empty(),
    }
}

/// The reports that go with a step.
pub fn reports(step: SupervisorStep, policy: &RestartPolicy) -> (events: Vec<SupervisorEvent>)
    ensures
        events@ == reported(step, *policy),
{
    let mut events: Vec<SupervisorEvent> = Vec::new();
    match step {
        SupervisorStep::Retry { attempt, .. } => {
            events.push(SupervisorEvent::ProcessDied { attempt, will_retry: true });
        },
        SupervisorStep::GiveUp { .. } => {
            events.push(
                SupervisorEvent::ProcessDied { attempt: policy.attempts, will_retry: false },
            );
            events.push(SupervisorEvent::GaveUp);
        },
        SupervisorStep::ShutDown => {},
    }
    proof {
        assert(events@ =~= reported(step, *policy));
    }
    events
}

pub open spec fn supervised(p: RestartPolicy, event: ProcessEvent, now: Instant) -> SupervisorStep {
    let kill = event != ProcessEvent::SpawnFailed;
    let next = p.failed(now);
    if event == ProcessEvent::CommandsClosed {
        SupervisorStep::ShutDown
    } else if next.exhausted() {
        SupervisorStep::GiveUp { kill }
    } else {
        SupervisorStep::Retry {
            kill,
            attempt: next.attempts,
            pause_ms: (200 * restart::growth(next.attempts)) as u64,
        }
    }
}

/// The pause before attempt `attempt`, in milliseconds.
pub fn backoff_for(attempt: u32) -> (ms: u64)
    ensures
        ms == 200 * restart::growth(attempt),
{
    backoff_ms(200, attempt)
}

/// Decides what to do when something happens to the driver process.
pub fn supervise(policy: &mut RestartPolicy, event: ProcessEvent, now: Instant) -> (step:
    SupervisorStep)
    ensures
        step == supervised(*old(policy), event, now),
        *final(policy) == if event == ProcessEvent::CommandsClosed {
            *old(policy)
        } else {
            old(policy).failed(now)
        },
{
    if event == ProcessEvent::CommandsClosed {
        return SupervisorStep::ShutDown;
    }
    let kill: bool = event != ProcessEvent::SpawnFailed;
    if policy.record_failure(now) {
        SupervisorStep::Retry {
            kill,
            attempt: policy.attempts,
            pause_ms: backoff_for(policy.attempts),
        }
    } else {
        SupervisorStep::GiveUp { kill }
    }
}

/// Every failure is reported under its number within the window. Up to the last
/// permitted one it is said that another attempt follows. The one after that is
/// reported as the last, and right behind it that no more is tried.
pub proof fn lemma_failures_reported(p: RestartPolicy, event: ProcessEvent, now: Instant)
    requires
        event != ProcessEvent::CommandsClosed,
        p.attempts < u32::MAX,
        time::elapsed(p.window_start, now) <= p.window.nanos,
    ensures
        ({
            let next = p.failed(now);
            let step = supervised(p, event, now);
            &&& next.attempts == p.attempts + 1
            &&& p.attempts < p.max_attempts ==> reported(step, next) == seq![
                SupervisorEvent::ProcessDied { attempt: next.attempts, will_retry: true },
            ]
            &&& p.attempts >= p.max_attempts ==> step is GiveUp && reported(step, next) == seq![
                SupervisorEvent::ProcessDied { attempt: next.attempts, will_retry: false },
                SupervisorEvent::GaveUp,
            ]
        }),
{
}

/// What the supervisor does. A deliberate shutdown is not a failure and ends the
/// driver. Every other event is one: the driver is started again after a pause
/// that doubles, from four tenths of a second on, as long as it has not failed
/// too often, and given up otherwise. A process that could not be started needs
/// not be ended.
pub proof fn lemma_supervision(p: RestartPolicy, event: ProcessEvent, now: Instant)
    requires
        p.attempts < u32::MAX,
        p.window_start.nanos <= now.nanos,
        now.nanos - p.window_start.nanos <= p.window.nanos,
    ensures
        supervised(p, ProcessEvent::CommandsClosed, now) == SupervisorStep::ShutDown,
        event != ProcessEvent::CommandsClosed && p.attempts >= p.max_attempts ==> supervised(
            p,
            event,
            now,
        ) == (SupervisorStep::GiveUp { kill: event != ProcessEvent::SpawnFailed }),
        event != ProcessEvent::CommandsClosed && p.attempts < p.max_attempts ==> {
            &&& supervised(p, event, now) is Retry
            &&& supervised(p, event, now)->attempt == p.attempts + 1
            &&& supervised(p, event, now)->Retry_kill == (event != ProcessEvent::SpawnFailed)
            &&& p.attempts == 0 ==> supervised(p, event, now)->pause_ms == 400
            &&& p.attempts == 1 ==> supervised(p, event, now)->pause_ms == 800
            &&& p.attempts == 2 ==> supervised(p, event, now)->pause_ms == 1600
            &&& p.attempts == 3 ==> supervised(p, event, now)->pause_ms == 3200
            &&& p.attempts >= 4 ==> supervised(p, event, now)->pause_ms == 6400
        },
{
}

} // verus!
