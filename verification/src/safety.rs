//! Latency tiers, the watchdog, and who may command the actuators.

pub mod arbitration;
pub mod state_machine;
pub mod task;
pub mod tiers;
pub mod watchdog;

pub use arbitration::{arbitrate, ArbitrationInputs, ControlSource};
pub use state_machine::{SafetyStateMachine, TierTransition, TransitionTrigger};
pub use task::SafetyTask;
pub use tiers::{tier_for_latency, TaskClass, TierThresholdsMs};
pub use watchdog::{Watchdog, WatchdogTrigger};
