//! Latency tiers, watchdog, resume interlock, arbitration.

use roboprotocol::safety::{
    arbitrate, tier_for_latency, ArbitrationInputs, ControlSource, SafetyStateMachine, SafetyTask,
    TaskClass, Watchdog,
};
use roboprotocol::time::{Duration, Instant};
use roboprotocol::timestamp::Millis;

fn at(ms: u64) -> Instant {
    Instant { nanos: 1_000_000_000 }.plus(Duration::from_millis(ms))
}

fn ms(ms: i32) -> Millis {
    Millis::from_ms(ms)
}

#[test]
fn ladder_priority_holds_over_every_input_combination() {
    for bits in 0u8..64 {
        let inputs = ArbitrationInputs {
            estop_latched: bits & 0b00_0001 != 0,
            safe_parking_requested: bits & 0b00_0010 != 0,
            suspended: bits & 0b00_0100 != 0,
            resume_dwell_exceeded: bits & 0b00_1000 != 0,
            teleop_ready: bits & 0b01_0000 != 0,
            autonomy_goal_asserted: bits & 0b10_0000 != 0,
        };
        let got = arbitrate(inputs);

        if inputs.estop_latched {
            assert_eq!(got, ControlSource::EStop, "{inputs:?}");
            continue;
        }
        if inputs.safe_parking_requested || (inputs.suspended && inputs.resume_dwell_exceeded) {
            assert_eq!(got, ControlSource::EmergencySafeParking, "{inputs:?}");
            continue;
        }
        if inputs.suspended {
            assert_eq!(got, ControlSource::ActiveImpedanceHold, "{inputs:?}");
            continue;
        }
        if inputs.teleop_ready {
            assert_eq!(got, ControlSource::FullTeleoperation, "{inputs:?}");
            continue;
        }
        if inputs.autonomy_goal_asserted {
            assert_eq!(got, ControlSource::SemiAutonomous, "{inputs:?}");
            continue;
        }
        assert_eq!(got, ControlSource::ActiveImpedanceHold, "{inputs:?}");
    }
}

#[test]
fn estop_always_wins_regardless_of_everything_else() {
    let inputs = ArbitrationInputs {
        estop_latched: true,
        safe_parking_requested: true,
        suspended: true,
        resume_dwell_exceeded: true,
        teleop_ready: true,
        autonomy_goal_asserted: true,
    };
    assert_eq!(arbitrate(inputs), ControlSource::EStop);
}

#[test]
fn teleop_ready_outranks_autonomy_goal() {
    let inputs = ArbitrationInputs {
        teleop_ready: true,
        autonomy_goal_asserted: true,
        ..Default::default()
    };
    assert_eq!(arbitrate(inputs), ControlSource::FullTeleoperation);
}

#[test]
fn escalates_to_suspended_and_requires_full_resume_handshake() {
    let t0 = at(0);
    let mut sm = SafetyStateMachine::new(TaskClass::D, t0);
    assert_eq!(sm.tier(), 0);

    // Class D suspends at 500 ms.
    sm.on_rtt_sample(ms(600), t0);
    assert_eq!(sm.tier(), 4);
    assert!(sm.is_suspended());

    // Latency recovers, but no reset was asked for: no resumption, however
    // long it stays low.
    sm.on_rtt_sample(ms(10), at(100));
    sm.on_rtt_sample(ms(10), at(5000));
    assert!(sm.is_suspended(), "must not auto-resume without an explicit deadman reset");

    // A reset well past the stable window resumes on the next sample.
    sm.request_deadman_reset();
    sm.on_rtt_sample(ms(10), at(5001));
    assert!(
        !sm.is_suspended(),
        "2s+ of already-accrued stability plus the reset request should resume"
    );
    assert_eq!(sm.tier(), 0);
}

#[test]
fn resume_stability_window_is_measured_from_when_latency_first_recovers() {
    let t0 = at(0);
    let mut sm = SafetyStateMachine::new(TaskClass::D, t0);
    sm.on_rtt_sample(ms(600), t0); // suspend

    sm.request_deadman_reset();
    sm.on_rtt_sample(ms(10), at(100)); // stability clock starts
    assert!(sm.is_suspended());

    sm.on_rtt_sample(ms(10), at(1900)); // ~1.8s stable, not enough
    assert!(sm.is_suspended(), "1.8s of stability is not enough");

    sm.on_rtt_sample(ms(10), at(2200)); // ~2.1s stable
    assert!(
        !sm.is_suspended(),
        "2s+ of stability since recovery plus the reset request should resume"
    );
    assert_eq!(sm.tier(), 0);
}

#[test]
fn each_transition_starts_where_the_last_one_ended() {
    let mut sm = SafetyStateMachine::new(TaskClass::D, at(0));
    for (i, rtt) in [10, 120, 60, 300, 600, 10, 10, 40, 220, 700].into_iter().enumerate() {
        sm.request_deadman_reset();
        sm.on_rtt_sample(ms(rtt), at(3000 * i as u64));
    }
    assert_eq!(sm.transitions[0].at, at(0));
    assert_eq!(sm.transitions[0].old_tier, sm.transitions[0].new_tier);
    for pair in sm.transitions.windows(2) {
        assert_eq!(pair[1].old_tier, pair[0].new_tier);
        assert_ne!(pair[1].old_tier, pair[1].new_tier);
        assert!(pair[0].at.nanos <= pair[1].at.nanos);
    }
    assert!(sm.transitions.len() > 4);
    assert_eq!(sm.transitions.last().unwrap().new_tier, sm.tier());
}

#[test]
fn hysteresis_resets_stability_window_if_latency_spikes_again() {
    let t0 = at(0);
    let mut sm = SafetyStateMachine::new(TaskClass::D, t0);
    sm.on_rtt_sample(ms(600), t0);
    sm.request_deadman_reset();

    sm.on_rtt_sample(ms(10), at(100));
    // Above the resume ceiling of 80 ms the clock starts again.
    sm.on_rtt_sample(ms(90), at(1500));
    sm.on_rtt_sample(ms(10), at(3400)); // only ~1.9s stable since the spike
    assert!(sm.is_suspended());
}

#[test]
fn class_d_boundary_values_match_requirements_table() {
    // <100 / 100-250 / 250-400 / 400-500 / >=500
    assert_eq!(tier_for_latency(TaskClass::D, ms(0)), 0);
    assert_eq!(tier_for_latency(TaskClass::D, Millis { micros: 99_999 }), 0);
    assert_eq!(tier_for_latency(TaskClass::D, ms(100)), 1);
    assert_eq!(tier_for_latency(TaskClass::D, Millis { micros: 249_999 }), 1);
    assert_eq!(tier_for_latency(TaskClass::D, ms(250)), 2);
    assert_eq!(tier_for_latency(TaskClass::D, Millis { micros: 399_999 }), 2);
    assert_eq!(tier_for_latency(TaskClass::D, ms(400)), 3);
    assert_eq!(tier_for_latency(TaskClass::D, Millis { micros: 499_999 }), 3);
    assert_eq!(tier_for_latency(TaskClass::D, ms(500)), 4);
    assert_eq!(tier_for_latency(TaskClass::D, ms(10_000)), 4);
}

#[test]
fn all_classes_watchdog_blackout_matches_requirements_table() {
    assert_eq!(TaskClass::B.watchdog_blackout_ms(), ms(200));
    assert_eq!(TaskClass::C.watchdog_blackout_ms(), ms(300));
    assert_eq!(TaskClass::D.watchdog_blackout_ms(), ms(400));
    assert_eq!(TaskClass::E.watchdog_blackout_ms(), ms(500));
}

#[test]
fn tier_boundaries_are_monotonic_for_every_class() {
    for class in [TaskClass::B, TaskClass::C, TaskClass::D, TaskClass::E] {
        let th = class.thresholds();
        assert!(th.tier0_max.micros < th.tier1_max.micros);
        assert!(th.tier1_max.micros < th.tier2_max.micros);
        assert!(th.tier2_max.micros < th.tier3_max.micros);
    }
}

#[test]
fn trips_exactly_at_class_blackout_threshold() {
    let mut wd = Watchdog::new(TaskClass::D, at(0)); // 400ms threshold
    assert!(!wd.check(at(399)));
    assert!(!wd.is_triggered());
    assert!(wd.check(at(400)));
    assert!(wd.is_triggered());
}

#[test]
fn heartbeat_resets_the_blackout_timer() {
    let mut wd = Watchdog::new(TaskClass::B, at(0)); // 200ms threshold
    wd.heartbeat(at(150));
    assert!(!wd.check(at(340)), "only 190ms since last heartbeat");
    wd.heartbeat(at(340));
    assert!(!wd.check(at(530)));
    assert!(wd.check(at(541)));
}

#[test]
fn trigger_is_edge_not_level_and_clear_rearms() {
    let mut wd = Watchdog::new(TaskClass::E, at(0)); // 500ms threshold
    assert!(wd.check(at(600)));
    assert!(!wd.check(at(700)), "already triggered -- no repeat edge");
    assert_eq!(wd.trigger_events.len(), 1);

    wd.clear(at(700));
    assert!(!wd.is_triggered());
    assert!(!wd.check(at(1000)));
    assert!(wd.check(at(1201)));
    assert_eq!(wd.trigger_events.len(), 2);
    assert_eq!(wd.trigger_events[1].blackout, Duration::from_millis(501));
}

#[test]
fn watchdog_blackout_forces_estop_source_regardless_of_teleop_state() {
    let t0 = at(0);
    let mut task = SafetyTask::new(TaskClass::D, t0); // 400ms watchdog
    task.deadman_held = true;
    task.command_fresh = true;

    assert_eq!(task.tick(t0), ControlSource::FullTeleoperation);
    assert_eq!(task.tick(at(401)), ControlSource::EStop);
}

#[test]
fn explicit_estop_latches_until_cleared() {
    let t0 = at(0);
    let mut task = SafetyTask::new(TaskClass::D, t0);
    task.deadman_held = true;
    task.command_fresh = true;
    task.on_channel_b_activity(Some(ms(10)), t0);

    task.trigger_explicit_estop();
    assert_eq!(task.tick(at(1)), ControlSource::EStop);
    task.on_channel_b_activity(Some(ms(10)), at(2));
    assert_eq!(task.tick(at(2)), ControlSource::EStop, "must not clear itself on fresh activity");

    task.clear_explicit_estop(at(3));
    task.on_channel_b_activity(Some(ms(10)), at(3));
    assert_eq!(task.tick(at(3)), ControlSource::FullTeleoperation);
}

#[test]
fn suspended_tier_holds_instead_of_teleop_even_with_deadman_and_fresh_command() {
    let t0 = at(0);
    let mut task = SafetyTask::new(TaskClass::D, t0);
    task.deadman_held = true;
    task.command_fresh = true;
    task.on_channel_b_activity(Some(ms(600)), t0); // Class D suspends at 500ms
    assert_eq!(task.tick(t0), ControlSource::ActiveImpedanceHold);
}

#[test]
fn without_the_deadman_nothing_drives() {
    let mut task = SafetyTask::new(TaskClass::D, at(0));
    task.set_teleop(false, true);
    assert_eq!(task.tick(at(1)), ControlSource::ActiveImpedanceHold);
    task.set_teleop(true, true);
    assert_eq!(task.tick(at(2)), ControlSource::FullTeleoperation);
}
