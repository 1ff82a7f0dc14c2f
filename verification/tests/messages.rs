//! The messages, as the FlatBuffers crate reads and writes them by itself.

use flatbuffers::{FlatBufferBuilder, Follow, ForwardsUOffset, Table, Vector};
use roboprotocol::action_trigger::ActionTrigger;
use roboprotocol::action_trigger_handler::{decode_action_trigger, encode_action_trigger};
use roboprotocol::camera_control::CameraControl;
use roboprotocol::camera_control_handler::{decode_camera_control, encode_camera_control};
use roboprotocol::channel_b::{
    decode_channel_b_frame, encode_channel_b_frame, ChannelBCategory, ChannelBFrameData,
    TelemetryData, TeleopCommand, ALL_REGIONS,
};
use roboprotocol::hello::{
    capability_bits, quantization_tier_bits, task_class_bits, HelloCapabilities, ProtocolVersion,
};
use roboprotocol::hello_handler::{decode_hello, encode_hello, DecodeError};
use roboprotocol::profile::{BaseType, CommandShape};
use roboprotocol::session_handler::{
    decode_session_accept, decode_session_describe, encode_session_accept_full,
    encode_session_describe,
};
use roboprotocol::sizing::SINGLE_DATAGRAM_BUDGET_BYTES;
use roboprotocol::xgo_profile::{xgo_lite_v2_camera, xgo_lite_v2_profile};

fn root(bytes: &[u8]) -> Table<'_> {
    ForwardsUOffset::<Table>::follow(bytes, 0)
}

fn tables<'a>(t: &Table<'a>, slot: u16) -> Vector<'a, ForwardsUOffset<Table<'a>>> {
    t.get::<ForwardsUOffset<Vector<ForwardsUOffset<Table>>>>(slot, None).unwrap()
}

#[test]
fn action_trigger_encodes_to_a_parseable_flatbuffer() {
    let trigger = ActionTrigger { action_id: 2, trigger_seq: 7 };
    let bytes = encode_action_trigger(&trigger);
    let decoded = root(&bytes);
    assert_eq!(decoded.get::<u8>(4, Some(0)), Some(2));
    assert_eq!(decoded.get::<u64>(6, Some(0)), Some(7));
}

#[test]
fn camera_control_encodes_to_a_parseable_flatbuffer() {
    let control = CameraControl {
        brightness_bits: (-0.3f32).to_bits(),
        contrast_bits: 1.5f32.to_bits(),
        ev_bits: 1.0f32.to_bits(),
        shutter_us: 12000,
        control_seq: 6,
    };
    let bytes = encode_camera_control(&control);
    let decoded = root(&bytes);
    assert_eq!(decoded.get::<f32>(4, Some(0.0)), Some(-0.3));
    assert_eq!(decoded.get::<f32>(6, Some(0.0)), Some(1.5));
    assert_eq!(decoded.get::<f32>(8, Some(0.0)), Some(1.0));
    assert_eq!(decoded.get::<u32>(10, Some(0)), Some(12000));
    assert_eq!(decoded.get::<u64>(12, Some(0)), Some(6));
}

#[test]
fn decodes_a_well_formed_action_trigger() {
    let mut b = FlatBufferBuilder::new();
    let start = b.start_table();
    b.push_slot::<u64>(6, 3, 0);
    b.push_slot::<u8>(4, 12, 0);
    let offset = b.end_table(start);
    b.finish(offset, None);
    let trigger = decode_action_trigger(b.finished_data()).unwrap();
    assert_eq!(trigger.action_id, 12);
    assert_eq!(trigger.trigger_seq, 3);
}

#[test]
fn decodes_a_well_formed_camera_control() {
    let mut b = FlatBufferBuilder::new();
    let start = b.start_table();
    b.push_slot::<u64>(12, 4, 0);
    b.push_slot::<u32>(10, 8000, 0);
    b.push_slot::<f32>(8, -0.5, 0.0);
    b.push_slot::<f32>(6, 1.3, 0.0);
    b.push_slot::<f32>(4, 0.2, 0.0);
    let offset = b.end_table(start);
    b.finish(offset, None);
    let control = decode_camera_control(b.finished_data()).unwrap();
    assert_eq!(f32::from_bits(control.brightness_bits), 0.2);
    assert_eq!(f32::from_bits(control.contrast_bits), 1.3);
    assert_eq!(f32::from_bits(control.ev_bits), -0.5);
    assert_eq!(control.shutter_us, 8000);
    assert_eq!(control.control_seq, 4);
}

fn command() -> TeleopCommand {
    TeleopCommand {
        vx: 1200,
        vy: -300,
        turn: 2000,
        attitude_r: 150,
        attitude_p: -225,
        attitude_y: 0,
        arm_x: 40,
        arm_z: -10,
        claw: 200,
    }
}

#[test]
fn channel_b_frame_round_trips_through_flatbuffers() {
    let frame = ChannelBFrameData {
        timestamp: 123456789,
        seq: 42,
        tick_id: 7,
        category: ChannelBCategory::Command,
        region_id: ALL_REGIONS,
        fields: command().pack(),
    };
    let bytes = encode_channel_b_frame(&frame);
    let decoded = decode_channel_b_frame(&bytes).unwrap();
    assert_eq!(decoded.timestamp, 123456789);
    assert_eq!(decoded.seq, 42);
    assert_eq!(decoded.tick_id, 7);
    assert_eq!(decoded.category, ChannelBCategory::Command);
    assert_eq!(decoded.region_id, ALL_REGIONS);
    assert_eq!(root(&bytes).get::<u64>(6, Some(0)), Some(42));

    let round_tripped = TeleopCommand::unpack(&decoded.fields).unwrap();
    assert_eq!(round_tripped.vx as f32 / 100.0, 12.0);
    assert_eq!(round_tripped.vy as f32 / 100.0, -3.0);
    assert_eq!(round_tripped.turn as f32 / 100.0, 20.0);
    assert_eq!(round_tripped.attitude_r as f32 / 100.0, 1.5);
    assert_eq!(round_tripped.attitude_p as f32 / 100.0, -2.25);
    assert_eq!(round_tripped.arm_x, 40);
    assert_eq!(round_tripped.arm_z, -10);
    assert_eq!(round_tripped.claw, 200);
}

#[test]
fn teleop_command_round_trips_and_matches_robot_edges_byte_layout() {
    let bytes = command().pack();
    assert_eq!(bytes.len(), 20, "VelocityAttitudeCommand (12B) + CartesianCommand (8B)");
    assert_eq!(bytes[0..2], 1200i16.to_be_bytes());
    assert_eq!(bytes[12..14], 40i16.to_be_bytes());

    let round_tripped = TeleopCommand::unpack(&bytes).unwrap();
    assert_eq!(round_tripped.vx as f32 / 100.0, 12.0);
    assert_eq!(round_tripped.vy as f32 / 100.0, -3.0);
    assert_eq!(round_tripped.turn as f32 / 100.0, 20.0);
    assert_eq!(round_tripped.attitude_r as f32 / 100.0, 1.5);
    assert_eq!(round_tripped.attitude_p as f32 / 100.0, -2.25);
    assert_eq!(round_tripped.arm_x, 40);
    assert_eq!(round_tripped.arm_z, -10);
    assert_eq!(round_tripped.claw, 200);
    assert!(TeleopCommand::unpack(&bytes[..19]).is_none());
}

#[test]
fn channel_b_frame_stays_well_under_the_single_datagram_budget() {
    let cmd = TeleopCommand {
        vx: 0,
        vy: 0,
        turn: 0,
        attitude_r: 0,
        attitude_p: 0,
        attitude_y: 0,
        arm_x: 0,
        arm_z: 0,
        claw: 0,
    };
    let frame = ChannelBFrameData {
        timestamp: 0,
        seq: 0,
        tick_id: 0,
        category: ChannelBCategory::Command,
        region_id: ALL_REGIONS,
        fields: cmd.pack(),
    };
    let bytes = encode_channel_b_frame(&frame);
    assert!(bytes.len() < SINGLE_DATAGRAM_BUDGET_BYTES as usize);
}

#[test]
fn telemetry_data_round_trips_for_the_xgo_lite_15_dof_case() {
    let angles: Vec<f32> = (0..15).map(|i| i as f32 * 1.5 - 10.0).collect();
    let motors: Vec<i16> = angles.iter().map(|a| (a * 100.0).round() as i16).collect();
    let telemetry = TelemetryData { battery: 73, roll: -58, pitch: 260, yaw: 1469, motors };
    let bytes = telemetry.pack();
    let decoded = TelemetryData::unpack(&bytes).unwrap();
    assert_eq!(decoded.battery, 73);
    assert_eq!(decoded.roll as f32 / 100.0, -0.58);
    assert_eq!(decoded.pitch as f32 / 100.0, 2.6);
    assert_eq!(decoded.yaw as f32 / 100.0, 14.69);
    assert_eq!(decoded.motors.len(), 15);
    for (a, b) in decoded.motors.iter().zip(angles.iter()) {
        assert!((*a as f32 / 100.0 - b).abs() < 0.01);
    }
    assert!(TelemetryData::unpack(&bytes[..bytes.len() - 1]).is_none());
}

#[test]
fn hello_round_trips_through_flatbuffers() {
    let caps = HelloCapabilities {
        protocol_version: ProtocolVersion::new(1, 0),
        capability_bitmask: capability_bits::FLEXFEC_SUPPORT,
        supported_task_classes: task_class_bits::CLASS_D,
        supported_quantization_tiers: quantization_tier_bits::STANDARD,
        max_control_rate_hz: 100,
    };
    let bytes = encode_hello(&caps);
    let decoded = decode_hello(&bytes).unwrap();
    assert_eq!(decoded.protocol_version, caps.protocol_version);
    assert_eq!(decoded.capability_bitmask, caps.capability_bitmask);
    assert_eq!(decoded.supported_task_classes, caps.supported_task_classes);
    assert_eq!(decoded.supported_quantization_tiers, caps.supported_quantization_tiers);
    assert_eq!(decoded.max_control_rate_hz, caps.max_control_rate_hz);
    assert_eq!(root(&bytes).get::<u16>(4, Some(0)), Some(0x0100));
}

#[test]
fn session_describe_round_trips_profile_shape() {
    let profile = xgo_lite_v2_profile();
    let cameras = vec![xgo_lite_v2_camera()];
    let bytes = encode_session_describe("xgo_lite_v2", &profile, &cameras);

    let describe = root(&bytes);
    assert_eq!(describe.get::<ForwardsUOffset<&str>>(4, None), Some("xgo_lite_v2"));
    assert_eq!(describe.get::<u64>(6, Some(0)), Some(profile.profile_hash()));
    let fb_profile = describe.get::<ForwardsUOffset<Table>>(8, None).unwrap();
    assert_eq!(fb_profile.get::<u16>(4, Some(0)), Some(15));
    assert_eq!(tables(&fb_profile, 6).len(), 15);
    assert_eq!(tables(&fb_profile, 8).len(), 5);
    assert_eq!(tables(&describe, 10).len(), 1);

    let decoded = decode_session_describe(&bytes).unwrap();
    assert_eq!(decoded.robot_id, "xgo_lite_v2");
    assert_eq!(decoded.profile_hash, profile.profile_hash());
    assert_eq!(decoded.profile.dof_count, 15);
    assert_eq!(decoded.profile.joints, profile.joints);
    assert_eq!(decoded.cameras.len(), 1);
    assert_eq!(decoded.cameras[0].label, "front");

    // The legs cross the wire as one shape, the arm as another.
    for region in decoded.profile.regions.iter().take(4) {
        assert_eq!(region.command_shape, CommandShape::VelocityAttitude);
    }
    assert_eq!(decoded.profile.regions[4].command_shape, CommandShape::CartesianEndEffector);
    assert_eq!(decoded.profile.base_type, BaseType::QuadrupedLegs);
    assert_eq!(decoded.profile.profile_hash(), profile.profile_hash());
}

#[test]
fn an_answer_takes_everything_that_is_offered() {
    let profile = xgo_lite_v2_profile();
    let bytes = encode_session_describe("xgo", &profile, &vec![xgo_lite_v2_camera()]);
    let info = decode_session_describe(&bytes).unwrap();
    let answer = decode_session_accept(&encode_session_accept_full(&info, true)).unwrap();
    assert_eq!(answer.profile_hash, profile.profile_hash());
    assert!(answer.cached);
    assert_eq!(answer.selected_regions, vec![0, 1, 2, 3, 4]);
    assert_eq!(answer.selected_cameras, vec![0]);
}

#[test]
fn bytes_that_are_no_message_are_errors() {
    for bytes in [&[][..], &[1, 2, 3][..], &[0xFF; 40][..], &[4, 0, 0, 0, 0xFF, 0xFF, 0xFF, 0x7F]] {
        assert_eq!(decode_hello(bytes), Err(DecodeError::Malformed));
        assert_eq!(decode_action_trigger(bytes), Err(DecodeError::Malformed));
        assert_eq!(decode_camera_control(bytes), Err(DecodeError::Malformed));
        assert!(decode_channel_b_frame(bytes).is_err());
        assert!(decode_session_describe(bytes).is_err());
        assert!(decode_session_accept(bytes).is_err());
    }
}

#[test]
fn a_description_without_a_profile_is_an_error_of_its_own() {
    let mut b = FlatBufferBuilder::new();
    let start = b.start_table();
    b.push_slot::<u64>(6, 1, 0);
    let offset = b.end_table(start);
    b.finish(offset, None);
    assert!(matches!(
        decode_session_describe(b.finished_data()),
        Err(DecodeError::MissingRobotProfile)
    ));
}

#[test]
fn absent_fields_read_as_their_defaults() {
    let mut b = FlatBufferBuilder::new();
    let start = b.start_table();
    let offset = b.end_table(start);
    b.finish(offset, None);
    let frame = decode_channel_b_frame(b.finished_data()).unwrap();
    assert_eq!((frame.timestamp, frame.seq, frame.tick_id, frame.region_id), (0, 0, 0, 0));
    assert_eq!(frame.category, ChannelBCategory::Command);
    assert!(frame.fields.is_empty());
}
