//! The ladder of control sources: on each tick exactly one of them may command
//! the actuators.

use vstd::prelude::*;

verus! {

/// In order of priority, highest first.
#[derive(Debug, Clone, Copy, PartialEq, Eq, Structural)]
pub enum ControlSource {
    /// Watchdog blackout or explicit stop; cleared only by a human act.
    EStop,
    /// Requested, or the wait to resume has lasted too long.
    EmergencySafeParking,
    /// Suspended, or nothing else is admitted.
    ActiveImpedanceHold,
    /// Deadman held, latest command fresh, latency acceptable.
    FullTeleoperation,
    /// No teleoperation, but a goal is asserted.
    SemiAutonomous,
}

#[derive(Debug, Clone, Copy, PartialEq, Eq, Structural)]
pub struct ArbitrationInputs {
    pub estop_latched: bool,
    pub safe_parking_requested: bool,
    /// The latency tier has suspended operation.
    pub suspended: bool,
    /// The wait to resume has lasted too long; matters only while suspended.
    pub resume_dwell_exceeded: bool,
    /// Deadman held, latest command fresh, latency acceptable.
    pub teleop_ready: bool,
    pub autonomy_goal_asserted: bool,
}

impl Default for ArbitrationInputs {
    fn default() -> (i: Self)
        ensures
            i == (ArbitrationInputs {
                estop_latched: false,
                safe_parking_requested: false,
                suspended: false,
                resume_dwell_exceeded: false,
                teleop_ready: false,
                autonomy_goal_asserted: false,
            }),
    {
        ArbitrationInputs {
            estop_latched: false,
            safe_parking_requested: false,
            suspended: false,
            resume_dwell_exceeded: false,
            teleop_ready: false,
            autonomy_goal_asserted: false,
        }
    }
}

/// Does `source` ask for control? Holding asks whenever operation is
/// suspended.
pub open spec fn admitted(source: ControlSource, i: ArbitrationInputs) -> bool {
    match source {
        ControlSource::EStop => i.estop_latched,
        ControlSource::EmergencySafeParking => i.safe_parking_requested || (i.suspended
            && i.resume_dwell_exceeded),
        ControlSource::ActiveImpedanceHold => i.suspended,
        ControlSource::FullTeleoperation => i.teleop_ready,
        ControlSource::SemiAutonomous => i.autonomy_goal_asserted,
    }
}

/// Place on the ladder, the highest priority first.
pub open spec fn rung(source: ControlSource) -> int {
    match source {
        ControlSource::EStop => 1,
        ControlSource::EmergencySafeParking => 2,
        ControlSource::ActiveImpedanceHold => 3,
        ControlSource::FullTeleoperation => 4,
        ControlSource::SemiAutonomous => 5,
    }
}

/// The highest admitted source; holding still if there is none.
pub open spec fn winner(i: ArbitrationInputs) -> ControlSource {
    if admitted(ControlSource::EStop, i) {
        ControlSource::EStop
    } else if admitted(ControlSource::EmergencySafeParking, i) {
        ControlSource::EmergencySafeParking
    } else if admitted(ControlSource::ActiveImpedanceHold, i) {
        ControlSource::ActiveImpedanceHold
    } else if admitted(ControlSource::FullTeleoperation, i) {
        ControlSource::FullTeleoperation
    } else if admitted(ControlSource::SemiAutonomous, i) {
        ControlSource::SemiAutonomous
    } else {
        ControlSource::ActiveImpedanceHold
    }
}

pub fn arbitrate(inputs: ArbitrationInputs) -> (source: ControlSource)
    ensures
        source == winner(inputs),
{
    if inputs.estop_latched {
        return ControlSource::EStop;
    }
    if inputs.safe_parking_requested || (inputs.suspended && inputs.resume_dwell_exceeded) {
        return ControlSource::EmergencySafeParking;
    }
    if inputs.suspended {
        return ControlSource::ActiveImpedanceHold;
    }
    if inputs.teleop_ready {
        return ControlSource::FullTeleoperation;
    }
    if inputs.autonomy_goal_asserted {
        return ControlSource::SemiAutonomous;
    }
    ControlSource::ActiveImpedanceHold
}

/// No source is ever outranked by a lower one: whatever is admitted stands at
/// or below the winner, and the winner is admitted unless nothing is.
pub proof fn lemma_ladder(i: ArbitrationInputs, other: ControlSource)
    ensures
        admitted(other, i) ==> rung(winner(i)) <= rung(other) && admitted(winner(i), i),
        !admitted(winner(i), i) ==> winner(i) == ControlSource::ActiveImpedanceHold,
{
}

/// A latched stop wins whatever else is asked for, and nothing else does.
pub proof fn lemma_estop_wins(i: ArbitrationInputs)
    ensures
        i.estop_latched <==> winner(i) == ControlSource::EStop,
{
}

/// Who wins, for every combination of what is asked for: a latched stop before
/// all else; then parking, if it was asked for or the wait to resume has lasted
/// too long; then holding, while operation is suspended; then the operator; then
/// a goal; and holding again where nothing is asked for.
pub proof fn lemma_who_wins(i: ArbitrationInputs)
    ensures
        i.estop_latched ==> winner(i) == ControlSource::EStop,
        !i.estop_latched && i.safe_parking_requested ==> winner(i)
            == ControlSource::EmergencySafeParking,
        !i.estop_latched && i.suspended && i.resume_dwell_exceeded ==> winner(i)
            == ControlSource::EmergencySafeParking,
        !i.estop_latched && !i.safe_parking_requested && i.suspended && !i.resume_dwell_exceeded
            ==> winner(i) == ControlSource::ActiveImpedanceHold,
        !i.estop_latched && !i.safe_parking_requested && !i.suspended && i.teleop_ready
            ==> winner(i) == ControlSource::FullTeleoperation,
        !i.estop_latched && !i.safe_parking_requested && !i.suspended && !i.teleop_ready
            && i.autonomy_goal_asserted ==> winner(i) == ControlSource::SemiAutonomous,
        !i.estop_latched && !i.safe_parking_requested && !i.suspended && !i.teleop_ready
            && !i.autonomy_goal_asserted ==> winner(i) == ControlSource::ActiveImpedanceHold,
{
}

} // verus!
