//! Framing, negotiation, sizing, timing.

use roboprotocol::action_trigger::{ActionTrigger, TriggerDedup};
use roboprotocol::camera_control::{CameraControl, CameraControlDedup};
use roboprotocol::datagram::{tag, untag, DATAGRAM_TAG_CHANNEL_A};
use roboprotocol::estop::{EstopDatagram, ESTOP_DATAGRAM_MAGIC};
use roboprotocol::hello::{
    capability_bits, local_hello_capabilities, missing_required_capabilities, negotiate,
    quantization_tier_bits, task_class_bits, HelloCapabilities, IncompatibleVersion,
    ProtocolVersion,
};
use roboprotocol::safety::TaskClass;
use roboprotocol::sizing::{
    application_payload_bytes, default_plan_datagrams, fixed_overhead_bytes, plan_datagrams,
    validate_haptic_tier, wire_bytes, QuantizationTier, FIXED_OVERHEAD_BYTES,
    SINGLE_DATAGRAM_BUDGET_BYTES, WIRE_OVERHEAD_BYTES,
};
use roboprotocol::timestamp::{
    compute_rtt_ms, estimate_clock_offset_us, one_way_delay_ms, Millis,
};

#[test]
fn first_trigger_is_always_accepted() {
    let mut dedup = TriggerDedup::new();
    assert!(dedup.accept(ActionTrigger { action_id: 2, trigger_seq: 1 }));
}

#[test]
fn duplicate_trigger_seq_is_rejected() {
    let mut dedup = TriggerDedup::new();
    assert!(dedup.accept(ActionTrigger { action_id: 2, trigger_seq: 5 }));
    assert!(
        !dedup.accept(ActionTrigger { action_id: 2, trigger_seq: 5 }),
        "must not fire the same trigger twice"
    );
}

#[test]
fn out_of_order_older_trigger_seq_is_rejected() {
    let mut dedup = TriggerDedup::new();
    assert!(dedup.accept(ActionTrigger { action_id: 12, trigger_seq: 9 }));
    assert!(
        !dedup.accept(ActionTrigger { action_id: 2, trigger_seq: 3 }),
        "an older trigger_seq must not re-fire after a newer one applied"
    );
}

#[test]
fn distinct_increasing_triggers_all_fire() {
    let mut dedup = TriggerDedup::new();
    assert!(dedup.accept(ActionTrigger { action_id: 2, trigger_seq: 1 }));
    assert!(dedup.accept(ActionTrigger { action_id: 12, trigger_seq: 2 }));
    assert!(
        dedup.accept(ActionTrigger { action_id: 2, trigger_seq: 3 }),
        "same action_id repeated with a fresh trigger_seq is still a new event"
    );
}

fn control(control_seq: u64) -> CameraControl {
    CameraControl {
        brightness_bits: 0.0f32.to_bits(),
        contrast_bits: 1.0f32.to_bits(),
        ev_bits: 0.0f32.to_bits(),
        shutter_us: 0,
        control_seq,
    }
}

#[test]
fn first_control_is_always_accepted() {
    let mut dedup = CameraControlDedup::new();
    assert!(dedup.accept(control(1)));
}

#[test]
fn duplicate_control_seq_is_rejected() {
    let mut dedup = CameraControlDedup::new();
    assert!(dedup.accept(control(5)));
    assert!(!dedup.accept(control(5)), "must not re-apply the same control_seq twice");
}

#[test]
fn out_of_order_older_control_seq_is_rejected() {
    let mut dedup = CameraControlDedup::new();
    assert!(dedup.accept(control(9)));
    assert!(
        !dedup.accept(control(3)),
        "an older control_seq must not re-apply after a newer one applied"
    );
}

#[test]
fn tag_and_untag_round_trip() {
    let payload = [1u8, 2, 3, 4];
    let tagged = tag(DATAGRAM_TAG_CHANNEL_A, &payload);
    let (t, rest) = untag(&tagged).unwrap();
    assert_eq!(t, DATAGRAM_TAG_CHANNEL_A);
    assert_eq!(rest, &payload);
}

#[test]
fn untag_empty_datagram_returns_none() {
    assert_eq!(untag(&[]), None);
}

#[test]
fn a_tag_alone_has_an_empty_payload() {
    assert_eq!(untag(&[7]), Some((7, vec![])));
}

#[test]
fn estop_datagram_round_trips() {
    let d = EstopDatagram { latched: true, seq: 99 };
    assert_eq!(EstopDatagram::decode(&d.encode()), Some(d));

    let d2 = EstopDatagram { latched: false, seq: 0 };
    assert_eq!(EstopDatagram::decode(&d2.encode()), Some(d2));
}

#[test]
fn rejects_wrong_magic_or_short_buffer() {
    let mut bytes = EstopDatagram { latched: false, seq: 1 }.encode().to_vec();
    bytes[0] = 0x00;
    assert_eq!(EstopDatagram::decode(&bytes), None);
    assert_eq!(EstopDatagram::decode(&[ESTOP_DATAGRAM_MAGIC, 1, 2, 3]), None);
}

#[test]
fn estop_bytes_are_magic_flag_and_big_endian_number() {
    let d = EstopDatagram { latched: true, seq: 0x0102_0304_0506_0708 };
    assert_eq!(d.encode(), vec![0xE5, 1, 1, 2, 3, 4, 5, 6, 7, 8]);
    let mut longer = d.encode();
    longer[1] = 7;
    longer.push(0xAA);
    assert_eq!(EstopDatagram::decode(&longer), Some(d), "any flag but zero latches");
}

fn caps(
    major: u8,
    minor: u8,
    bitmask: u64,
    classes: u8,
    tiers: u8,
    rate: u16,
) -> HelloCapabilities {
    HelloCapabilities {
        protocol_version: ProtocolVersion::new(major, minor),
        capability_bitmask: bitmask,
        supported_task_classes: classes,
        supported_quantization_tiers: tiers,
        max_control_rate_hz: rate,
    }
}

#[test]
fn version_round_trips_through_the_wire_encoding() {
    let v = ProtocolVersion::new(1, 3);
    assert_eq!(v.encode(), 0x0103);
    assert_eq!(ProtocolVersion::decode(0x0103), v);
}

#[test]
fn same_major_different_minor_negotiates_the_lower_minor() {
    let local = caps(
        1,
        3,
        capability_bits::TDPA_SUPPORT,
        task_class_bits::CLASS_D,
        quantization_tier_bits::STANDARD,
        1000,
    );
    let peer = caps(
        1,
        0,
        capability_bits::TDPA_SUPPORT,
        task_class_bits::CLASS_D,
        quantization_tier_bits::STANDARD,
        100,
    );
    let session = negotiate(&local, &peer).unwrap();
    assert_eq!(session.version, ProtocolVersion::new(1, 0));
    assert_eq!(session.max_control_rate_hz, 100);
}

#[test]
fn no_shared_major_version_is_rejected_before_actuation() {
    let local = caps(2, 0, 0, 0, 0, 0);
    let peer = caps(1, 5, 0, 0, 0, 0);
    let err = negotiate(&local, &peer).unwrap_err();
    assert_eq!(err, IncompatibleVersion { local_major: 2, peer_major: 1 });
}

#[test]
fn capability_and_task_class_and_tier_sets_intersect() {
    let local = caps(
        1,
        0,
        capability_bits::TDPA_SUPPORT | capability_bits::FLEXFEC_SUPPORT,
        task_class_bits::CLASS_B | task_class_bits::CLASS_D,
        quantization_tier_bits::FULL | quantization_tier_bits::STANDARD,
        1000,
    );
    let peer = caps(
        1,
        0,
        capability_bits::FLEXFEC_SUPPORT | capability_bits::ROS2_BRIDGE,
        task_class_bits::CLASS_D | task_class_bits::CLASS_E,
        quantization_tier_bits::STANDARD | quantization_tier_bits::COMPACT,
        50,
    );
    let session = negotiate(&local, &peer).unwrap();
    assert_eq!(session.capability_bitmask, capability_bits::FLEXFEC_SUPPORT);
    assert_eq!(session.task_classes, task_class_bits::CLASS_D);
    assert_eq!(session.quantization_tiers, quantization_tier_bits::STANDARD);
}

#[test]
fn missing_required_capability_is_reported_for_full_teleop_refusal() {
    let local = caps(
        1,
        0,
        capability_bits::TDPA_SUPPORT,
        task_class_bits::CLASS_B,
        quantization_tier_bits::STANDARD,
        1000,
    );
    // A robot without force sensing never advertises TDPA.
    let peer =
        caps(1, 0, 0, task_class_bits::CLASS_B, quantization_tier_bits::STANDARD, 1000);
    let session = negotiate(&local, &peer).unwrap();
    let missing = missing_required_capabilities(capability_bits::TDPA_SUPPORT, &session);
    assert_eq!(missing, Some(capability_bits::TDPA_SUPPORT));
}

#[test]
fn no_missing_capability_when_both_sides_advertise_it() {
    let local = caps(
        1,
        0,
        capability_bits::TDPA_SUPPORT,
        task_class_bits::CLASS_B,
        quantization_tier_bits::STANDARD,
        1000,
    );
    let peer = caps(
        1,
        0,
        capability_bits::TDPA_SUPPORT,
        task_class_bits::CLASS_B,
        quantization_tier_bits::STANDARD,
        1000,
    );
    let session = negotiate(&local, &peer).unwrap();
    assert_eq!(missing_required_capabilities(capability_bits::TDPA_SUPPORT, &session), None);
}

#[test]
fn both_programs_offers_agree_whatever_the_task_class() {
    let robot = local_hello_capabilities(TaskClass::B);
    let operator = local_hello_capabilities(TaskClass::E);
    let there = negotiate(&robot, &operator).unwrap();
    let back = negotiate(&operator, &robot).unwrap();
    assert_eq!(there, back);
    assert_eq!(there.task_classes, 0);
    assert_eq!(there.quantization_tiers, quantization_tier_bits::STANDARD);
    assert_eq!(there.max_control_rate_hz, 50);
}

#[test]
fn xgo_lite_12_joints_fits_single_datagram_at_every_tier() {
    for tier in [QuantizationTier::Compact, QuantizationTier::Standard, QuantizationTier::Full] {
        let plans = default_plan_datagrams(12, tier, false).unwrap();
        assert_eq!(plans.len(), 1, "{tier:?} should not need splitting for 12 fields");
        assert!(plans[0].app_bytes <= SINGLE_DATAGRAM_BUDGET_BYTES);
    }
}

#[test]
fn haptic_below_standard_tier_is_rejected() {
    let err = validate_haptic_tier(QuantizationTier::Compact).unwrap_err();
    assert_eq!(err.tier, QuantizationTier::Compact);
    assert!(default_plan_datagrams(6, QuantizationTier::Compact, true).is_err());
}

#[test]
fn haptic_at_or_above_standard_tier_is_allowed() {
    assert!(validate_haptic_tier(QuantizationTier::Standard).is_ok());
    assert!(validate_haptic_tier(QuantizationTier::Full).is_ok());
}

#[test]
fn full_body_50_dof_splits_by_body_region_at_full_tier() {
    // The real budget would hold all fifty fields; a tiny one forces a split.
    let plans = plan_datagrams(50, QuantizationTier::Full, false, 120).unwrap();
    assert!(plans.len() > 1, "expected a split across multiple datagrams");
    let total: u32 = plans.iter().map(|p| p.num_fields).sum();
    assert_eq!(total, 50, "split must not drop or duplicate fields");
    for p in &plans {
        assert!(p.app_bytes <= 120, "each split datagram must respect the budget");
    }
}

#[test]
fn overhead_matches_simulator_constants() {
    assert_eq!(FIXED_OVERHEAD_BYTES, 60); // 8 + 8 + 32 + 12
    assert_eq!(fixed_overhead_bytes(true), 68); // + 8 TDPA
    assert_eq!(SINGLE_DATAGRAM_BUDGET_BYTES, 1200);
    assert_eq!(WIRE_OVERHEAD_BYTES, 53); // 20 + 8 + 9 + 16
}

#[test]
fn payload_and_wire_sizes_add_up() {
    assert_eq!(application_payload_bytes(12, QuantizationTier::Standard, false), 84);
    assert_eq!(application_payload_bytes(12, QuantizationTier::Full, true), 116);
    assert_eq!(wire_bytes(84), 137);
}

#[test]
fn rtt_with_zero_peer_processing_time_is_just_round_trip() {
    // Sent at 0, received and echoed at 5000 us, back at 15000 us.
    assert_eq!(compute_rtt_ms(0, 5_000, 5_000, 15_000), Millis::from_ms(15));
}

#[test]
fn rtt_subtracts_peer_side_processing_delay() {
    // A round trip of 20 ms, of which the peer took 3 ms to reply.
    assert_eq!(compute_rtt_ms(0, 8_000, 11_000, 20_000), Millis::from_ms(17));
}

#[test]
fn one_way_delay_may_be_negative() {
    assert_eq!(one_way_delay_ms(5_000, 12_500), Millis { micros: 7_500 });
    assert_eq!(one_way_delay_ms(12_500, 5_000), Millis { micros: -7_500 });
}

#[test]
fn estimate_clock_offset_recovers_a_known_offset_despite_jitter() {
    let true_offset: i64 = 50_000; // 50ms, local ahead of remote
    let jitters: [i64; 9] = [-3000, 2000, -1000, 500, 0, 4000, -2000, 1500, -500];
    let samples: Vec<(u64, u64)> = jitters
        .iter()
        .enumerate()
        .map(|(i, &j)| {
            let remote = 1_000_000_000u64 + i as u64 * 1000;
            let local = (remote as i64 + true_offset + j) as u64;
            (local, remote)
        })
        .collect();
    let estimated = estimate_clock_offset_us(&samples);
    assert!(
        (estimated - true_offset).abs() <= 3000,
        "estimated={estimated} true={true_offset}"
    );
}

#[test]
fn estimate_clock_offset_of_empty_samples_is_zero() {
    assert_eq!(estimate_clock_offset_us(&[]), 0);
}

#[test]
fn estimate_clock_offset_is_the_median() {
    assert_eq!(estimate_clock_offset_us(&[(10, 0), (1000, 0), (20, 0)]), 20);
}
