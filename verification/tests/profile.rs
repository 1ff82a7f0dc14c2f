//! Profiles, layouts and the packing of commands.

use roboprotocol::command::{
    continuous_scale, dequantize, position_scale, quantize, CartesianCommand,
    VelocityAttitudeCommand,
};
use roboprotocol::profile::{
    derive_command_layout, derive_layout, BaseType, BodyRegionDescriptor, CommandBlock,
    CommandShape, JointDescriptor, RobotProfile,
};
use roboprotocol::sizing::QuantizationTier;
use roboprotocol::xgo_profile::{xgo_lite_v2_camera, xgo_lite_v2_profile, ARM_REGION_ID};

fn joint(min_limit: f32, max_limit: f32, max_velocity: f32, region_id: u8) -> JointDescriptor {
    JointDescriptor {
        min_limit_bits: min_limit.to_bits(),
        max_limit_bits: max_limit.to_bits(),
        max_velocity_bits: max_velocity.to_bits(),
        has_torque_sensing: false,
        region_id,
    }
}

/// Twelve leg joints across four regions.
fn sample_profile() -> RobotProfile {
    let mut joints = Vec::new();
    for region in 0..4u8 {
        for _ in 0..3 {
            joints.push(joint(-65.0, 93.0, 300.0, region));
        }
    }
    RobotProfile {
        dof_count: 12,
        joints,
        regions: (0..4u8)
            .map(|r| BodyRegionDescriptor {
                region_id: r,
                name: format!("leg_{r}"),
                joint_start: r as u16 * 3,
                joint_count: 3,
                has_force_torque_sensor: false,
                command_shape: CommandShape::Kinematic,
            })
            .collect(),
        base_type: BaseType::Stationary,
    }
}

/// Four leg regions that share one velocity block, and an arm.
fn xgo_like_profile() -> RobotProfile {
    let mut profile = sample_profile();
    for region in &mut profile.regions {
        region.command_shape = CommandShape::VelocityAttitude;
    }
    profile.joints.extend((0..3).map(|_| joint(-90.0, 90.0, 600.0, 4)));
    profile.dof_count = 15;
    profile.regions.push(BodyRegionDescriptor {
        region_id: 4,
        name: "arm".to_string(),
        joint_start: 12,
        joint_count: 3,
        has_force_torque_sensor: false,
        command_shape: CommandShape::CartesianEndEffector,
    });
    profile.base_type = BaseType::QuadrupedLegs;
    profile
}

#[test]
fn layout_is_deterministic_given_the_same_inputs() {
    let profile = sample_profile();
    let a = derive_layout(&profile, &[], QuantizationTier::Standard);
    let b = derive_layout(&profile, &[], QuantizationTier::Standard);
    assert_eq!(a, b);
    assert_eq!(a.len(), 12);
    assert_eq!(a[0].byte_offset, 0);
    assert_eq!(a[1].byte_offset, 2); // two bytes a field
    assert_eq!(a[11].byte_offset, 22);
}

#[test]
fn region_filter_only_includes_selected_regions_in_wire_order() {
    let profile = sample_profile();
    let layout = derive_layout(&profile, &[0, 2], QuantizationTier::Full);
    assert_eq!(layout.len(), 6); // regions 0 and 2, 3 joints each
    assert_eq!(layout[0].joint_index, 0); // first joint of region 0
    assert_eq!(layout[3].joint_index, 6); // first joint of region 2
}

#[test]
fn profile_hash_is_stable_and_change_sensitive() {
    let profile = sample_profile();
    let h1 = profile.profile_hash();
    let h2 = sample_profile().profile_hash();
    assert_eq!(h1, h2, "identical profiles must hash identically for SESSION_ACCEPT caching");

    let mut mutated = sample_profile();
    let limit = f32::from_bits(mutated.joints[0].max_limit_bits) + 1.0;
    mutated.joints[0].max_limit_bits = limit.to_bits();
    assert_ne!(h1, mutated.profile_hash(), "changed joint limits must invalidate the cache");
}

#[test]
fn command_shape_change_invalidates_the_profile_hash() {
    let kinematic = sample_profile();
    let mut hybrid = sample_profile();
    hybrid.regions[0].command_shape = CommandShape::VelocityAttitude;
    assert_ne!(kinematic.profile_hash(), hybrid.profile_hash());
}

#[test]
fn region_names_count_in_the_profile_hash() {
    let mut renamed = sample_profile();
    renamed.regions[0].name = "other".to_string();
    assert_ne!(renamed.profile_hash(), sample_profile().profile_hash());
    let empty = RobotProfile {
        dof_count: 0,
        joints: vec![],
        regions: vec![],
        base_type: BaseType::Stationary,
    };
    // Three zero bytes.
    assert_eq!(empty.profile_hash(), 0xd94d_1218_6c0f_2fb7);
}

#[test]
fn velocity_attitude_regions_collapse_into_one_shared_block() {
    let profile = xgo_like_profile();
    let blocks = derive_command_layout(&profile, &[], QuantizationTier::Standard);

    let va_blocks: Vec<_> =
        blocks.iter().filter(|b| matches!(b, CommandBlock::VelocityAttitude { .. })).collect();
    assert_eq!(
        va_blocks.len(),
        1,
        "4 VelocityAttitude leg regions must collapse into exactly one block"
    );

    let cartesian_blocks: Vec<_> =
        blocks.iter().filter(|b| matches!(b, CommandBlock::CartesianEndEffector { .. })).collect();
    assert_eq!(cartesian_blocks.len(), 1, "the arm region gets its own independent block");
}

#[test]
fn command_layout_is_deterministic_and_non_overlapping() {
    let profile = xgo_like_profile();
    let a = derive_command_layout(&profile, &[], QuantizationTier::Standard);
    let b = derive_command_layout(&profile, &[], QuantizationTier::Standard);
    assert_eq!(a, b);

    let CommandBlock::VelocityAttitude { byte_offset: va_off, byte_len: va_len } = a[0] else {
        panic!("expected VelocityAttitude block first, got {:?}", a[0]);
    };
    assert_eq!(va_off, 0);
    assert_eq!(va_len, 6 * QuantizationTier::Standard.bytes_per_field());

    let CommandBlock::CartesianEndEffector { byte_offset: c_off, byte_len: c_len, .. } = a[1]
    else {
        panic!("expected CartesianEndEffector block second, got {:?}", a[1]);
    };
    assert_eq!(c_off, va_off + va_len, "no gap/overlap between blocks");
    assert_eq!(c_len, 4 * QuantizationTier::Standard.bytes_per_field());
}

#[test]
fn kinematic_blocks_follow_each_other() {
    let blocks = derive_command_layout(&sample_profile(), &[1, 3], QuantizationTier::Full);
    assert_eq!(blocks.len(), 2);
    let CommandBlock::Kinematic { region_id, joint_offsets } = &blocks[1] else {
        panic!("expected a kinematic block, got {:?}", blocks[1]);
    };
    assert_eq!(*region_id, 3);
    assert_eq!(joint_offsets.len(), 3);
    assert_eq!(joint_offsets[0].joint_index, 9);
    assert_eq!(joint_offsets[0].byte_offset, 12);
    assert_eq!(joint_offsets[2].byte_offset, 20);
}

fn number(bits: u32) -> f32 {
    f32::from_bits(bits)
}

fn velocity(
    vx: f32,
    vy: f32,
    turn: f32,
    roll: f32,
    pitch: f32,
    yaw: f32,
) -> VelocityAttitudeCommand {
    VelocityAttitudeCommand {
        vx: vx.to_bits(),
        vy: vy.to_bits(),
        turn: turn.to_bits(),
        roll: roll.to_bits(),
        pitch: pitch.to_bits(),
        yaw: yaw.to_bits(),
    }
}

fn arm(x: f32, y: f32, z: f32, gripper: u8) -> CartesianCommand {
    CartesianCommand { x: x.to_bits(), y: y.to_bits(), z: z.to_bits(), gripper }
}

#[test]
fn velocity_attitude_command_round_trips() {
    let cmd = velocity(15.0, -12.0, 60.0, 1.5, -2.25, 0.0);
    let bytes = cmd.pack_standard();
    assert_eq!(bytes.len(), 12);
    let round_tripped = VelocityAttitudeCommand::unpack_standard(&bytes).unwrap();
    assert_eq!(round_tripped, cmd);
    assert_eq!(bytes[8..10], (-225i16).to_be_bytes());
}

#[test]
fn cartesian_command_round_trips_with_unused_axis_zeroed() {
    let cmd = arm(40.0, 0.0, -10.0, 200);
    let bytes = cmd.pack_standard();
    assert_eq!(bytes.len(), 8);
    let round_tripped = CartesianCommand::unpack_standard(&bytes).unwrap();
    assert_eq!(round_tripped, cmd);
}

#[test]
fn velocity_attitude_command_round_trips_at_every_tier() {
    let cmd = velocity(15.0, -12.0, 60.0, 1.5, -2.25, 0.0);

    let full = cmd.pack(QuantizationTier::Full);
    assert_eq!(full.len(), 6 * 4);
    assert_eq!(
        VelocityAttitudeCommand::unpack(&full, QuantizationTier::Full).unwrap(),
        cmd,
        "Full tier is exact, no quantization error"
    );
    assert_eq!(full[0..4], 15.0f32.to_be_bytes());
    assert_eq!(full[16..20], (-2.25f32).to_be_bytes());

    let compact = cmd.pack(QuantizationTier::Compact);
    assert_eq!(compact.len(), 6);
    let round_tripped =
        VelocityAttitudeCommand::unpack(&compact, QuantizationTier::Compact).unwrap();
    // Whole units only: what is whole stays, what is not is within one.
    assert_eq!(number(round_tripped.vx), 15.0);
    assert_eq!(number(round_tripped.vy), -12.0);
    assert_eq!(number(round_tripped.turn), 60.0);
    assert!((number(round_tripped.roll) - 1.5).abs() <= 1.0);
    assert!((number(round_tripped.pitch) - (-2.25)).abs() <= 1.0);
}

#[test]
fn velocity_attitude_compact_tier_does_not_clip_a_real_turn_command() {
    let cmd = velocity(0.0, 0.0, 60.0, 0.0, 0.0, 0.0);
    let bytes = cmd.pack(QuantizationTier::Compact);
    let round_tripped =
        VelocityAttitudeCommand::unpack(&bytes, QuantizationTier::Compact).unwrap();
    assert_eq!(
        number(round_tripped.turn),
        60.0,
        "a real, in-range command must not silently clip"
    );
}

#[test]
fn cartesian_command_round_trips_at_every_tier() {
    let cmd = arm(40.0, 0.0, -10.0, 200);

    let full = cmd.pack(QuantizationTier::Full);
    assert_eq!(full.len(), 4 * 4);
    assert_eq!(CartesianCommand::unpack(&full, QuantizationTier::Full).unwrap(), cmd);
    assert_eq!(full[12..16], 200.0f32.to_be_bytes());

    let compact = cmd.pack(QuantizationTier::Compact);
    assert_eq!(compact.len(), 4);
    let round_tripped = CartesianCommand::unpack(&compact, QuantizationTier::Compact).unwrap();
    assert!(
        (number(round_tripped.x) - 40.0).abs() <= 2.0,
        "Compact position precision is 2mm/LSB"
    );
    assert!((number(round_tripped.z) - (-10.0)).abs() <= 2.0);
    assert_eq!(round_tripped.gripper, 200, "gripper is always exact, every tier");
}

#[test]
fn cartesian_compact_tier_does_not_clip_this_robots_own_arm_reach() {
    // A reach of 155 mm does not fit a signed byte at one millimetre a step.
    let cmd = arm(155.0, 0.0, -95.0, 255);
    let bytes = cmd.pack(QuantizationTier::Compact);
    let round_tripped = CartesianCommand::unpack(&bytes, QuantizationTier::Compact).unwrap();
    assert!(
        (number(round_tripped.x) - 155.0).abs() <= 2.0,
        "this robot's own max reach must not clip at Compact tier"
    );
    assert!((number(round_tripped.z) - (-95.0)).abs() <= 2.0);
    assert_eq!(round_tripped.gripper, 255);
}

#[test]
fn standard_tier_wrapper_is_byte_identical_to_pack_with_standard_tier() {
    let cmd = velocity(1.0, 2.0, 3.0, 4.0, 5.0, 6.0);
    assert_eq!(cmd.pack_standard(), cmd.pack(QuantizationTier::Standard));

    let target = arm(1.0, 2.0, 3.0, 4);
    assert_eq!(target.pack_standard(), target.pack(QuantizationTier::Standard));
}

#[test]
fn values_beyond_a_tier_are_clamped() {
    let tier = QuantizationTier::Compact;
    let bytes = velocity(300.0, -300.0, 0.0, 0.0, 0.0, 0.0).pack(tier);
    assert_eq!(bytes[0], 127);
    assert_eq!(bytes[1] as i8, -128);
    assert!(VelocityAttitudeCommand::unpack(&bytes[..5], tier).is_none());
    assert!(CartesianCommand::unpack(&bytes[..3], tier).is_none());
    let back = VelocityAttitudeCommand::unpack(&bytes, tier).unwrap();
    assert_eq!((number(back.vx), number(back.vy)), (127.0, -128.0));
}

#[test]
fn values_come_back_within_half_a_step() {
    let cmd = velocity(1.234, -1.235, 0.006, 12.3456, -0.004, 0.999);
    let back = VelocityAttitudeCommand::unpack_standard(&cmd.pack_standard()).unwrap();
    assert_eq!(back, velocity(1.23, -1.24, 0.01, 12.35, 0.0, 1.0));
    let target = arm(40.6, -0.5, 1.0, 7);
    let back = CartesianCommand::unpack_standard(&target.pack_standard()).unwrap();
    assert_eq!(back, arm(41.0, -1.0, 1.0, 7));
}

/// Numbers of every size and sign, and those that are none.
fn numbers() -> Vec<f32> {
    let mut v = vec![
        0.0,
        -0.0,
        0.005,
        -0.005,
        0.015,
        0.49999997,
        0.5,
        1.005,
        2.675,
        327.67,
        327.68,
        -327.68,
        1e9,
        -3e38,
        f32::MAX,
        f32::MIN_POSITIVE,
        1e-45,
        f32::INFINITY,
        f32::NEG_INFINITY,
        f32::NAN,
    ];
    let mut bits: u32 = 12345;
    for _ in 0..4000 {
        bits = bits.wrapping_mul(1_664_525).wrapping_add(1_013_904_223);
        v.push(f32::from_bits(bits));
        // The same digits, near one.
        v.push(f32::from_bits(0x3A00_0000 + bits % 0x0A00_0000));
        v.push(-f32::from_bits(0x3A00_0000 + bits / 3 % 0x0A00_0000));
    }
    v
}

#[test]
fn numbers_are_packed_as_floating_point_arithmetic_has_it() {
    for v in numbers() {
        let cmd = velocity(v, 0.0, 0.0, 0.0, 0.0, 0.0);
        let standard = cmd.pack_standard();
        let q = (v * 100.0).round().clamp(i16::MIN as f32, i16::MAX as f32) as i16;
        assert_eq!(standard[..2], q.to_be_bytes(), "{v:e}");
        let back = VelocityAttitudeCommand::unpack_standard(&standard).unwrap();
        assert_eq!(back.vx, (q as f32 / 100.0).to_bits(), "{v:e}");

        let compact = cmd.pack(QuantizationTier::Compact);
        let q = v.round().clamp(i8::MIN as f32, i8::MAX as f32) as i8;
        assert_eq!(compact[0], q as u8, "{v:e}");

        let target = arm(v, 0.0, 0.0, 9);
        let compact = target.pack(QuantizationTier::Compact);
        let q = (v * 0.5).round().clamp(i8::MIN as f32, i8::MAX as f32) as i8;
        assert_eq!(compact[0], q as u8, "{v:e}");
        let back = CartesianCommand::unpack(&compact, QuantizationTier::Compact).unwrap();
        assert_eq!(back.x, (q as f32 / 0.5).to_bits(), "{v:e}");

        let full = target.pack(QuantizationTier::Full);
        assert_eq!(full[..4], v.to_be_bytes(), "{v:e}");
        assert_eq!(CartesianCommand::unpack(&full, QuantizationTier::Full).unwrap(), target);
    }
}

#[test]
fn every_reading_comes_back() {
    let scale = continuous_scale(QuantizationTier::Standard);
    for reading in i16::MIN..=i16::MAX {
        let bits = dequantize(reading as i32, scale);
        assert_eq!(bits, (reading as f32 / 100.0).to_bits());
        assert_eq!(quantize(bits, scale), reading as i32);
    }
    let step = position_scale(QuantizationTier::Compact);
    assert_eq!(quantize(155.0f32.to_bits(), step), 78);
    assert_eq!(number(dequantize(78, step)), 156.0);
    assert_eq!(quantize(f32::MAX.to_bits(), scale), i32::MAX);
    assert_eq!(quantize(f32::MIN.to_bits(), scale), i32::MIN);
}

#[test]
fn sr1_applies_only_to_biped_legs() {
    assert!(BaseType::BipedLegs.requires_dynamic_balance_override());
    for other in [
        BaseType::Stationary,
        BaseType::WheeledStandard,
        BaseType::WheeledHolonomic,
        BaseType::QuadrupedLegs,
        BaseType::Other,
    ] {
        assert!(
            !other.requires_dynamic_balance_override(),
            "{other:?} must not require the balance override"
        );
    }
}

#[test]
fn only_wheeled_standard_has_no_meaningful_lateral_velocity() {
    assert!(!BaseType::WheeledStandard.lateral_velocity_meaningful());
    for other in [
        BaseType::Stationary,
        BaseType::WheeledHolonomic,
        BaseType::BipedLegs,
        BaseType::QuadrupedLegs,
        BaseType::Other,
    ] {
        assert!(
            other.lateral_velocity_meaningful(),
            "{other:?} should not be treated as unable to strafe"
        );
    }
}

#[test]
fn base_type_change_invalidates_the_profile_hash() {
    let mut wheeled = sample_profile();
    wheeled.base_type = BaseType::WheeledStandard;
    let mut biped = sample_profile();
    biped.base_type = BaseType::BipedLegs;
    assert_ne!(wheeled.profile_hash(), biped.profile_hash());
}

#[test]
fn profile_has_fifteen_joints_across_four_leg_regions_plus_arm() {
    let profile = xgo_lite_v2_profile();
    assert_eq!(profile.dof_count, 15);
    assert_eq!(profile.joints.len(), 15);
    assert_eq!(profile.regions.len(), 5);
    for region in 0..4u8 {
        let count = profile.joints.iter().filter(|j| j.region_id == region).count();
        assert_eq!(
            count, 3,
            "leg region {region} should have exactly 3 joints (lower/middle/upper)"
        );
    }
    let arm_count = profile.joints.iter().filter(|j| j.region_id == ARM_REGION_ID).count();
    assert_eq!(arm_count, 3, "arm region should have exactly 3 joints");
}

#[test]
fn no_haptic_or_torque_sensing_on_this_hardware() {
    let profile = xgo_lite_v2_profile();
    assert!(profile.joints.iter().all(|j| !j.has_torque_sensing));
    assert!(profile.regions.iter().all(|r| !r.has_force_torque_sensor));
}

#[test]
fn legs_are_velocity_attitude_and_arm_is_cartesian() {
    let profile = xgo_lite_v2_profile();
    for region in 0..4u8 {
        let r = profile.regions.iter().find(|r| r.region_id == region).unwrap();
        assert_eq!(r.command_shape, CommandShape::VelocityAttitude, "leg region {region}");
    }
    let arm = profile.regions.iter().find(|r| r.region_id == ARM_REGION_ID).unwrap();
    assert_eq!(arm.command_shape, CommandShape::CartesianEndEffector);
}

#[test]
fn base_type_is_quadruped_so_sr1_is_a_documented_no_op() {
    let profile = xgo_lite_v2_profile();
    assert_eq!(profile.base_type, BaseType::QuadrupedLegs);
    assert!(!profile.base_type.requires_dynamic_balance_override());
    assert!(
        profile.base_type.lateral_velocity_meaningful(),
        "a quadruped can strafe, unlike WheeledStandard"
    );
}

#[test]
fn joint_limits_are_the_vendors() {
    let profile = xgo_lite_v2_profile();
    let limits: Vec<(f32, f32)> = profile
        .joints
        .iter()
        .map(|j| (f32::from_bits(j.min_limit_bits), f32::from_bits(j.max_limit_bits)))
        .collect();
    assert_eq!(limits[0], (-65.0, 73.0));
    assert_eq!(limits[4], (-66.0, 93.0));
    assert_eq!(limits[11], (-31.0, 31.0));
    assert_eq!(limits[14], (-90.0, 90.0));
    assert!(profile.joints.iter().all(|j| f32::from_bits(j.max_velocity_bits) == 600.0));
    assert_eq!(profile.regions[2].name, "leg_rear_right");
    assert_eq!(profile.regions[4].joint_start, 12);
    let camera = xgo_lite_v2_camera();
    assert_eq!((camera.resolution_w, camera.resolution_h, camera.max_fps), (640, 480, 30));
    assert_eq!((camera.min_bitrate_kbps, camera.max_bitrate_kbps), (500, 4000));
}
