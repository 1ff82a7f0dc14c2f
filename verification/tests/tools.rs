//! What the tools print.

use roboprotocol::action_trigger::ActionTrigger;
use roboprotocol::action_trigger_handler::encode_action_trigger;
use roboprotocol::camera_control::CameraControl;
use roboprotocol::camera_control_handler::encode_camera_control;
use roboprotocol::channel_b::{
    encode_channel_b_frame, ChannelBCategory, ChannelBFrameData, TelemetryData, TeleopCommand,
    ALL_REGIONS,
};
use roboprotocol::input::{log_text, TeleopInput};
use roboprotocol::recording::{encode_record, RecordHeader};
use roboprotocol::replay_decode::{
    camera_line, csv_field, decode_segment, flatbuffers_vtable_size, header_line, parse_dump, Dump,
    Row,
};
use roboprotocol::zenoh_monitor::{
    decode_telemetry, default_key, sample_line, summary_line, summary_part, totals_line, TopicStats,
};

#[test]
fn decodes_a_37_byte_sample() {
    // battery 100, roll 1.50, pitch -2.00, yaw 90.00, 15 joints of 12.34 deg
    let mut b = vec![100u8];
    b.extend_from_slice(&150i16.to_be_bytes());
    b.extend_from_slice(&(-200i16).to_be_bytes());
    b.extend_from_slice(&9000i16.to_be_bytes());
    for _ in 0..15 {
        b.extend_from_slice(&1234i16.to_be_bytes());
    }
    assert_eq!(b.len(), 37);
    let s = decode_telemetry(&b).unwrap();
    assert!(s.contains("battery=100%"));
    assert!(s.contains("roll=1.5 pitch=-2.0 yaw=90.0"));
    assert!(s.contains("joints[15]="));
    assert!(s.contains("12.3"));
}

#[test]
fn rejects_short_or_odd_payloads() {
    assert!(decode_telemetry(&[1, 2, 3]).is_none());
    assert!(decode_telemetry(&[0u8; 8]).is_none());
}

#[test]
fn printed_angles_are_those_of_single_precision_numbers() {
    for n in (-32768i32..=32767).step_by(37) {
        let mut b = vec![0u8; 7];
        b[1..3].copy_from_slice(&(n as i16).to_be_bytes());
        let expected = format!(
            "battery=0%  roll={:.1} pitch=0.0 yaw=0.0  joints[0]=[]",
            n as f32 / 100.0
        );
        assert_eq!(decode_telemetry(&b), Some(expected));
    }
}

#[test]
fn a_topic_is_printed_once_unless_all_are_asked_for() {
    let mut stats = TopicStats::default();
    assert!(stats.record(3));
    assert!(!stats.record(4));
    assert_eq!((stats.total, stats.window, stats.last_bytes), (2, 2, 4));
    assert_eq!(stats.take_window(), 2);
    assert_eq!((stats.total, stats.window), (2, 0));

    let stamp = format!("{:>7.1}", 1.25f32);
    assert_eq!(
        sample_line(&stamp, "robotele/x/autonomy_goal", &[1, 0xAB], true, false).unwrap(),
        "[t+    1.2s] robotele/x/autonomy_goal  2 B  01 ab  (new topic; further samples are only \
         counted, use --all to print each)"
    );
    assert!(sample_line(&stamp, "robotele/x/autonomy_goal", &[1], false, false).is_none());
    assert_eq!(
        sample_line(&stamp, "a/b", &[7; 20], false, true).unwrap(),
        "[t+    1.2s] a/b  20 B  07 07 07 07 07 07 07 07 07 07 07 07 07 07 07 07"
    );
    assert_eq!(
        sample_line(&stamp, "robotele/x/telemetry", &[1], false, false).unwrap(),
        "[t+    1.2s] robotele/x/telemetry  1 B  (unrecognized telemetry layout)"
    );
    assert_eq!(totals_line("a/b", &stats), "  a/b: 2 samples (last 4 B)");
    assert_eq!(default_key("xgo_real"), "robotele/xgo_real/**");
}

#[test]
fn summaries_name_the_last_part_of_a_topic() {
    let part = summary_part("robotele/x/telemetry", "10.0", 42);
    assert_eq!(part, "telemetry 10.0/s (42 total)");
    let parts = vec![part, summary_part("plain", "0.5", 1)];
    assert_eq!(
        summary_line("    5.0", 2, &parts),
        "[t+    5.0s] peers=2  telemetry 10.0/s (42 total) | plain 0.5/s (1 total)"
    );
    assert_eq!(
        summary_line("    5.0", 0, &vec![]),
        "[t+    5.0s] peers=0  no samples yet  -- NO PEERS: check the robot IP/port and that \
         robot-edge is the BabyROS build"
    );
}

fn segment(payloads: &[Vec<u8>]) -> Vec<u8> {
    let mut out = vec![];
    for (i, p) in payloads.iter().enumerate() {
        encode_record(
            RecordHeader { capture_us: 1000 + i as u64, control_source: 3 },
            p,
            &mut out,
        );
    }
    out
}

fn frame(category: ChannelBCategory, fields: Vec<u8>) -> Vec<u8> {
    encode_channel_b_frame(&ChannelBFrameData {
        timestamp: 5,
        seq: 8,
        tick_id: 9,
        category,
        region_id: ALL_REGIONS,
        fields,
    })
}

fn lines(dump: Dump, buf: &[u8]) -> Vec<String> {
    decode_segment(dump, buf)
        .into_iter()
        .map(|row| match row {
            Row::Line(line) => line,
            Row::Camera { capture_us, control } => camera_line(
                capture_us,
                &control,
                &f32::from_bits(control.brightness_bits).to_string(),
                &f32::from_bits(control.contrast_bits).to_string(),
                &f32::from_bits(control.ev_bits).to_string(),
            ),
        })
        .collect()
}

#[test]
fn commands_are_dumped_with_their_arm_part() {
    let cmd = TeleopCommand {
        vx: 100,
        vy: 0,
        turn: 0,
        attitude_r: 0,
        attitude_p: 0,
        attitude_y: 0,
        arm_x: 80,
        arm_z: -7,
        claw: 128,
    };
    let buf = segment(&[
        frame(ChannelBCategory::Command, cmd.pack()),
        frame(ChannelBCategory::Telemetry, cmd.pack()),
        frame(ChannelBCategory::Command, vec![1, 2, 3]),
        vec![1, 2],
    ]);
    assert_eq!(header_line(Dump::Command), "capture_us,arm_x,arm_z,claw");
    assert_eq!(lines(Dump::Command, &buf), vec!["1000,80,-7,128"]);
}

#[test]
fn a_row_needs_only_the_fields_that_it_prints() {
    let cmd = TeleopCommand {
        vx: 0,
        vy: 0,
        turn: 0,
        attitude_r: 0,
        attitude_p: 0,
        attitude_y: 0,
        arm_x: 80,
        arm_z: -7,
        claw: 128,
    };
    // The number of the tick lies where no number can be read.
    let damaged = |mut bytes: Vec<u8>| {
        let root = u32::from_le_bytes(bytes[0..4].try_into().unwrap()) as i64;
        let at = root as usize;
        let vtable = (root - i32::from_le_bytes(bytes[at..at + 4].try_into().unwrap()) as i64) as usize;
        bytes[vtable + 8..vtable + 10].copy_from_slice(&0xFFF0u16.to_le_bytes());
        bytes
    };
    let t = TelemetryData { battery: 80, roll: 150, pitch: -5, yaw: 9000, motors: vec![] };
    let whole = segment(&[
        frame(ChannelBCategory::Command, cmd.pack()),
        frame(ChannelBCategory::Telemetry, t.pack()),
    ]);
    let broken = segment(&[
        damaged(frame(ChannelBCategory::Command, cmd.pack())),
        damaged(frame(ChannelBCategory::Telemetry, t.pack())),
    ]);
    assert_eq!(lines(Dump::Command, &whole), vec!["1000,80,-7,128"]);
    assert_eq!(lines(Dump::Command, &broken), vec!["1000,80,-7,128"]);
    assert_eq!(lines(Dump::Telemetry, &whole), vec!["1001,8,9,255,80,1.5,-0.05,90,"]);
    assert!(lines(Dump::Telemetry, &broken).is_empty());
}

#[test]
fn telemetry_is_dumped_as_single_precision_numbers_print() {
    let motors: Vec<i16> = (-32768i32..=32767).step_by(113).map(|n| n as i16).collect();
    let t = TelemetryData { battery: 80, roll: 150, pitch: -5, yaw: 9000, motors };
    let buf = segment(&[frame(ChannelBCategory::Telemetry, t.pack())]);
    let angles: Vec<String> =
        t.motors.iter().map(|m| (*m as f32 / 100.0).to_string()).collect();
    assert_eq!(
        lines(Dump::Telemetry, &buf),
        vec![format!("1000,8,9,255,80,1.5,-0.05,90,{}", angles.join(";"))]
    );
}

#[test]
fn force_feedback_is_dumped_as_bytes() {
    let buf = segment(&[
        frame(ChannelBCategory::Haptic, vec![0x0F, 0xA0]),
        frame(ChannelBCategory::Haptic, vec![]),
    ]);
    assert_eq!(lines(Dump::Haptic, &buf), vec!["1000,8,9,255,0fa0", "1001,8,9,255,"]);
}

#[test]
fn key_presses_are_quoted_where_needed() {
    let held = log_text(TeleopInput::Move { vx: 1_000_000, vy: -500_000 });
    let buf = segment(&[held.into_bytes(), b"Quit".to_vec(), vec![b'a', 0xFF, b'b']]);
    assert_eq!(
        lines(Dump::KeyPress, &buf),
        vec!["1000,\"Move { vx: 1.0, vy: -0.5 }\"", "1001,Quit", "1002,a\u{FFFD}b"]
    );
    assert_eq!(csv_field("plain"), "plain");
    assert_eq!(csv_field("say \"hi\""), "\"say \"\"hi\"\"\"");
    assert_eq!(csv_field("two\nlines"), "\"two\nlines\"");
    assert_eq!(csv_field(""), "");
}

#[test]
fn triggers_and_camera_controls_are_told_apart() {
    let trigger = encode_action_trigger(&ActionTrigger { action_id: 12, trigger_seq: 3 });
    let control = encode_camera_control(&CameraControl {
        brightness_bits: 0,
        contrast_bits: 1.5f32.to_bits(),
        ev_bits: (-0.5f32).to_bits(),
        shutter_us: 0,
        control_seq: 1,
    });
    assert_eq!(flatbuffers_vtable_size(&trigger), Some(8));
    assert_eq!(flatbuffers_vtable_size(&control), Some(14));
    assert_eq!(flatbuffers_vtable_size(&[1, 2, 3]), None);
    assert_eq!(flatbuffers_vtable_size(&[4, 0, 0, 0, 0, 0, 0, 0x80]), None);
    let buf = segment(&[trigger, control]);
    assert_eq!(
        lines(Dump::ActionTrigger, &buf),
        vec!["1000,action_trigger,12,3,,,,,", "1001,camera_control,,,0,1.5,-0.5,0,1"]
    );
}

#[test]
fn dumps_are_named() {
    assert_eq!(parse_dump("command"), Some(Dump::Command));
    assert_eq!(parse_dump("action-trigger"), Some(Dump::ActionTrigger));
    assert_eq!(parse_dump("key-press"), Some(Dump::KeyPress));
    assert_eq!(parse_dump("Command"), None);
}
