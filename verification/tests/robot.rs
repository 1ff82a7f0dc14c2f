//! The robot's side: its session, driver, camera and message bus.

use roboprotocol::action::Action;
use roboprotocol::action_trigger::{ActionTrigger, ACTION_TRIGGER_STREAM_ID};
use roboprotocol::action_trigger_handler::encode_action_trigger;
use roboprotocol::bridge::{
    backoff_for, reports, supervise, BridgeCommand, BridgeConfig, BridgeEvent, ProcessEvent,
    SupervisorEvent, SupervisorStep,
};
use roboprotocol::camera_control::{CameraControl, CAMERA_CONTROL_STREAM_ID};
use roboprotocol::camera_control_handler::encode_camera_control;
use roboprotocol::capture::{
    admit_controls, build_args, on_capture_event, CaptureConfig, CaptureEvent, CaptureStep,
};
use roboprotocol::channel_b::{
    decode_channel_b_frame, encode_channel_b_frame, ChannelBCategory, ChannelBFrameData,
    TelemetryData, TeleopCommand, ALL_REGIONS,
};
use roboprotocol::datagram::{tag, untag, DATAGRAM_TAG_CHANNEL_A, DATAGRAM_TAG_CHANNEL_B};
use roboprotocol::estop::{EstopDatagram, ESTOP_STREAM_ID};
use roboprotocol::hello::local_hello_capabilities;
use roboprotocol::hello_handler::{encode_hello, DecodeError};
use roboprotocol::input::AttitudeAxis;
use roboprotocol::options::{bridge_args, parse_task_class};
use roboprotocol::restart::RestartPolicy;
use roboprotocol::safety::{ControlSource, TaskClass};
use roboprotocol::session::{Phase, Session};
use roboprotocol::session_handler::{decode_session_describe, encode_session_accept_full};
use roboprotocol::time::{Duration, Instant};
use roboprotocol::xgo_profile::{xgo_lite_v2_camera, xgo_lite_v2_profile};
use roboprotocol::zenoh_bridge::{
    autonomy_goal_topic, command_topic, encode_command, telemetry_topic, AutonomyGoal, CommandSink,
    TelemetrySink,
};

fn at(ms: u64) -> Instant {
    Instant { nanos: 1_000_000_000 }.plus(Duration::from_millis(ms))
}

fn cmd(vx: f32) -> TeleopCommand {
    TeleopCommand {
        vx: (vx * 100.0).round() as i32,
        vy: 0,
        turn: 0,
        attitude_r: 0,
        attitude_p: 0,
        attitude_y: 0,
        arm_x: 10,
        arm_z: -20,
        claw: 128,
    }
}

fn f32_at(bytes: &[u8], i: usize) -> f32 {
    f32::from_be_bytes([bytes[i], bytes[i + 1], bytes[i + 2], bytes[i + 3]])
}

fn i16_at(bytes: &[u8], i: usize) -> i16 {
    i16::from_be_bytes([bytes[i], bytes[i + 1]])
}

#[test]
fn command_layout_is_30_bytes_with_source_first() {
    let b = encode_command(ControlSource::FullTeleoperation, &cmd(0.5));
    assert_eq!(b.len(), 30);
    assert_eq!(b[0], 3);
    assert_eq!(f32_at(&b, 1), 0.5);
    assert_eq!(i16_at(&b, 25), 10);
    assert_eq!(i16_at(&b, 27), -20);
    assert_eq!(b[29], 128);
}

#[test]
fn unchanged_commands_are_throttled_but_changes_and_repeats_go_out() {
    let mut sink = CommandSink::new();
    let teleop = ControlSource::FullTeleoperation;
    let first = sink.publish(at(0), teleop, &cmd(0.5), true);
    assert_eq!(first.unwrap()[0], 3);
    assert!(
        sink.publish(at(20), teleop, &cmd(0.5), true).is_none(),
        "identical command within the repeat window must not be re-sent"
    );

    assert!(sink.publish(at(40), teleop, &cmd(0.6), true).is_some()); // changed
    let stopped = sink.publish(at(60), ControlSource::EStop, &cmd(0.6), true); // source changed
    assert_eq!(stopped.unwrap()[0], 0);
    assert!(sink.publish(at(400), ControlSource::EStop, &cmd(0.6), true).is_some()); // repeat
}

#[test]
fn a_full_channel_drops_the_sample_and_retries_next_tick() {
    let mut sink = CommandSink::new();
    let teleop = ControlSource::FullTeleoperation;
    let first = sink.publish(at(0), teleop, &cmd(0.1), true); // fills the channel
    assert!(sink.publish(at(10), teleop, &cmd(0.2), false).is_none()); // dropped (full)
    assert_eq!(f32_at(&first.unwrap(), 1), 0.1);
    let retried = sink.publish(at(20), teleop, &cmd(0.2), true); // retried
    assert_eq!(f32_at(&retried.unwrap(), 1), 0.2);
}

#[test]
fn velocities_are_published_as_single_precision_numbers() {
    for n in [-32768, -12345, -1, 0, 1, 7, 33, 100, 32767, 1 << 24, i32::MAX, i32::MIN + 1] {
        let command = TeleopCommand { vx: n, ..cmd(0.0) };
        let b = encode_command(ControlSource::EStop, &command);
        assert_eq!(f32_at(&b, 1), (n as f64 / 100.0) as f32);
    }
}

#[test]
fn topics_are_the_robots_own() {
    assert_eq!(telemetry_topic("x"), "robotele/x/telemetry");
    assert_eq!(command_topic("x"), "robotele/x/command");
    assert_eq!(autonomy_goal_topic("x"), "robotele/x/autonomy_goal");
}

#[test]
fn an_autonomy_goal_lapses() {
    let mut goal = AutonomyGoal::new();
    assert!(!goal.asserted(at(0)));
    goal.mark_seen(at(10));
    assert!(goal.asserted(at(10)));
    assert!(goal.asserted(at(509)));
    assert!(!goal.asserted(at(510)));
    goal.mark_seen(at(600));
    assert!(goal.asserted(at(700)));
}

#[test]
fn fresh_telemetry_displaces_what_waits() {
    let sample = |battery: u8| TelemetryData { battery, roll: 0, pitch: 0, yaw: 0, motors: vec![] };
    let mut sink = TelemetrySink::new();
    assert!(sink.take().is_none());
    assert!(sink.publish(sample(1)).is_none());
    assert_eq!(sink.publish(sample(2)).unwrap().battery, 1);
    assert_eq!(sink.publish(sample(3)).unwrap().battery, 2);
    assert_eq!(sink.take().unwrap().battery, 3);
    assert!(sink.take().is_none());
}

fn session(has_camera: bool) -> Session {
    Session::new(
        TaskClass::D,
        "xgo".to_string(),
        xgo_lite_v2_profile(),
        vec![xgo_lite_v2_camera()],
        has_camera,
        at(0),
    )
}

fn greet(s: &mut Session) -> Vec<u8> {
    let hello = encode_hello(&local_hello_capabilities(TaskClass::D));
    let (actions, error) = s.on_stream_data(0, &hello, at(1), 1);
    assert!(error.is_none());
    let Action::StreamSend { stream_id: 1, bytes } = &actions[0] else {
        panic!("expected a description, got {actions:?}");
    };
    s.on_describe_sent();
    bytes.clone()
}

fn operating(has_camera: bool) -> Session {
    let mut s = session(has_camera);
    let description = greet(&mut s);
    let info = decode_session_describe(&description).unwrap();
    let accept = encode_session_accept_full(&info, false);
    let (_, error) = s.on_stream_data(1, &accept, at(2), 2);
    assert!(error.is_none());
    assert_eq!(s.phase(), Phase::Operating);
    assert!(s.can_count());
    s
}

fn command_datagram(seq: u64, timestamp: u64, command: &TeleopCommand) -> Vec<u8> {
    let frame = encode_channel_b_frame(&ChannelBFrameData {
        timestamp,
        seq,
        tick_id: 0,
        category: ChannelBCategory::Command,
        region_id: ALL_REGIONS,
        fields: command.pack(),
    });
    tag(DATAGRAM_TAG_CHANNEL_B, &frame)
}

fn drives(actions: &[Action]) -> Vec<BridgeCommand> {
    actions
        .iter()
        .filter_map(|a| match a {
            Action::Drive(c) => Some(*c),
            _ => None,
        })
        .collect()
}

#[test]
fn a_session_is_greeted_described_and_accepted() {
    let mut s = session(false);
    assert!(s.hello_due(false).is_none());
    assert!(s.hello_due(true).is_some());
    s.on_hello_sent();
    assert!(s.hello_due(true).is_none());
    let description = greet(&mut s);
    let info = decode_session_describe(&description).unwrap();
    assert_eq!(info.robot_id, "xgo");
    assert_eq!(info.profile_hash, xgo_lite_v2_profile().profile_hash());
    assert_ne!(s.phase(), Phase::Operating);
}

#[test]
fn bytes_that_are_no_greeting_are_an_error() {
    let mut s = session(false);
    let (actions, error) = s.on_stream_data(0, &[1, 2, 3], at(1), 1);
    assert!(actions.is_empty());
    assert_eq!(error, Some(DecodeError::Malformed));
    assert_eq!(s.phase(), Phase::AwaitingHello);
}

#[test]
fn nothing_moves_before_the_session_operates() {
    let mut s = session(false);
    let actions = s.on_datagram(&command_datagram(1, 1, &cmd(1.0)), at(5), 5_000);
    assert!(actions.is_empty());
}

#[test]
fn a_command_drives_the_robot_and_is_logged() {
    let mut s = operating(false);
    let actions = s.on_datagram(&command_datagram(1, 1, &cmd(2.5)), at(10), 10_000);
    let commands = drives(&actions);
    assert!(commands
        .iter()
        .any(|c| matches!(c, BridgeCommand::Move { x: 250, y: 0, .. })));
    assert!(commands
        .iter()
        .any(|c| matches!(c, BridgeCommand::Arm { .. })));
    let numbers: Vec<u64> = commands.iter().map(|c| c.seq()).collect();
    assert!(numbers.windows(2).all(|w| w[1] == w[0] + 1), "{numbers:?}");
    assert!(actions.iter().any(|a| matches!(a, Action::Store { .. })));
}

#[test]
fn a_stop_on_any_path_stops_the_robot_until_it_is_cleared() {
    let mut s = operating(false);
    let stop = EstopDatagram { latched: true, seq: 1 }.encode();
    s.on_datagram(&stop, at(10), 10_000);
    assert!(s.is_estopped());
    let actions = s.on_datagram(&command_datagram(1, 1, &cmd(2.5)), at(11), 11_000);
    assert!(drives(&actions).iter().all(|c| !matches!(c, BridgeCommand::Move { .. })));

    let clear = EstopDatagram { latched: false, seq: 2 }.encode();
    s.on_stream_data(ESTOP_STREAM_ID, &clear, at(12), 12_000);
    assert!(!s.is_estopped());
}

#[test]
fn silence_stops_the_robot() {
    let mut s = operating(false);
    s.on_datagram(&command_datagram(1, 1, &cmd(1.0)), at(10), 10_000);
    assert!(!s.is_estopped());
    let actions = s.on_tick(true, at(500), 500_000);
    assert!(s.is_estopped());
    assert!(drives(&actions).iter().any(|c| matches!(c, BridgeCommand::Estop { .. })));
    let told = actions.iter().any(|a| match a {
        Action::DatagramSend { bytes } => EstopDatagram::decode(bytes).is_some_and(|d| d.latched),
        _ => false,
    });
    assert!(told, "{actions:?}");
}

#[test]
fn a_trigger_fires_once() {
    let mut s = operating(false);
    s.on_datagram(&command_datagram(1, 1, &cmd(0.0)), at(10), 10_000);
    let trigger = encode_action_trigger(&ActionTrigger { action_id: 12, trigger_seq: 1 });
    let (first, _) = s.on_stream_data(ACTION_TRIGGER_STREAM_ID, &trigger, at(11), 11_000);
    assert!(drives(&first).iter().any(|c| matches!(c, BridgeCommand::Action { id: 12, .. })));
    let (second, _) = s.on_stream_data(ACTION_TRIGGER_STREAM_ID, &trigger, at(12), 12_000);
    assert!(drives(&second).is_empty());

    // Sitting down takes a while, and a robot that sits is not moved.
    let actions = s.on_datagram(&command_datagram(2, 2, &cmd(2.0)), at(20), 20_000);
    assert!(drives(&actions).iter().all(|c| !matches!(c, BridgeCommand::Move { .. })));
}

#[test]
fn a_sitting_robot_is_not_moved_and_keeps_its_posture() {
    let mut s = operating(false);
    let idle = TeleopCommand { attitude_r: 300, attitude_p: -200, attitude_y: 100, ..cmd(0.0) };
    s.on_datagram(&command_datagram(1, 1, &idle), at(10), 10_000);
    let trigger = encode_action_trigger(&ActionTrigger { action_id: 12, trigger_seq: 1 });
    s.on_stream_data(ACTION_TRIGGER_STREAM_ID, &trigger, at(11), 11_000);

    let mut last = Vec::new();
    for i in 0..60u64 {
        let ms = 20 + i * 50;
        last = drives(&s.on_datagram(&command_datagram(2 + i, 2 + i, &idle), at(ms), ms * 1000));
        if ms < 2511 {
            assert!(last.iter().all(|c| matches!(c, BridgeCommand::Claw { .. })), "{last:?}");
        }
    }
    assert_eq!(last.len(), 5, "{last:?}");
    assert!(matches!(
        last[0],
        BridgeCommand::Attitude { axis: AttitudeAxis::Roll, data: 300, .. }
    ));
    assert!(matches!(
        last[1],
        BridgeCommand::Attitude { axis: AttitudeAxis::Pitch, data: -200, .. }
    ));
    assert!(matches!(
        last[2],
        BridgeCommand::Attitude { axis: AttitudeAxis::Yaw, data: 100, .. }
    ));
    assert!(matches!(last[3], BridgeCommand::Arm { x: 10, z: -20, .. }));
    assert!(matches!(last[4], BridgeCommand::Claw { pos: 128, .. }));

    // Asked to move, it gets up and moves.
    let up = drives(&s.on_datagram(&command_datagram(90, 90, &cmd(2.0)), at(3000), 3_000_000));
    assert!(up.iter().any(|c| matches!(c, BridgeCommand::Move { x: 200, .. })), "{up:?}");
    assert!(up.iter().any(|c| matches!(c, BridgeCommand::Turn { step: 0, .. })), "{up:?}");
    let idle_again = drives(&s.on_datagram(&command_datagram(91, 91, &idle), at(3010), 3_010_000));
    assert!(idle_again.iter().any(|c| matches!(c, BridgeCommand::Move { x: 0, .. })));
}

fn control(brightness: f32, shutter_us: u32, control_seq: u64) -> CameraControl {
    CameraControl {
        brightness_bits: brightness.to_bits(),
        contrast_bits: 5.0f32.to_bits(),
        ev_bits: f32::NAN.to_bits(),
        shutter_us,
        control_seq,
    }
}

#[test]
fn camera_controls_are_admitted_within_range() {
    let c = admit_controls(&control(-3.0, 500_000, 1));
    assert_eq!(f32::from_bits(c.brightness_bits), -1.0);
    assert_eq!(f32::from_bits(c.contrast_bits), 2.0);
    assert_eq!(c.shutter_us, 100_000);
    let inside = admit_controls(&control(0.25, 8000, 2));
    assert_eq!(f32::from_bits(inside.brightness_bits), 0.25);
    assert_eq!(inside.shutter_us, 8000);

    let mut s = operating(true);
    let bytes = encode_camera_control(&control(0.25, 8000, 1));
    let (actions, _) = s.on_stream_data(CAMERA_CONTROL_STREAM_ID, &bytes, at(10), 10_000);
    assert!(actions.iter().any(|a| matches!(a, Action::ApplyCamera(_))));
    let mut blind = operating(false);
    let (actions, _) = blind.on_stream_data(CAMERA_CONTROL_STREAM_ID, &bytes, at(10), 10_000);
    assert!(!actions.iter().any(|a| matches!(a, Action::ApplyCamera(_))));
}

#[test]
fn telemetry_goes_out_with_a_tick() {
    let mut s = operating(false);
    s.on_bridge_event(SupervisorEvent::FromBridge(BridgeEvent::Telemetry(TelemetryData {
        battery: 66,
        roll: 1,
        pitch: 2,
        yaw: 3,
        motors: vec![4],
    })));
    let actions = s.on_tick(true, at(20), 20_000);
    let sent = actions.iter().find_map(|a| match a {
        Action::DatagramSend { bytes } => match untag(bytes) {
            Some((DATAGRAM_TAG_CHANNEL_B, payload)) => decode_channel_b_frame(&payload).ok(),
            _ => None,
        },
        _ => None,
    });
    let frame = sent.unwrap();
    assert_eq!(frame.category, ChannelBCategory::Telemetry);
    assert_eq!(frame.timestamp, 20_000);
    assert_eq!(TelemetryData::unpack(&frame.fields).unwrap().battery, 66);
}

#[test]
fn a_driver_that_dies_stops_the_robot() {
    let mut s = operating(false);
    s.on_bridge_event(SupervisorEvent::ProcessDied { attempt: 1, will_retry: true });
    assert!(s.is_estopped());
}

#[test]
fn video_goes_out_in_tagged_chunks_once_operating() {
    let nal = vec![0x65; 2000];
    assert!(session(true).on_video_nal(1, &nal).is_empty());
    let actions = operating(true).on_video_nal(1, &nal);
    assert_eq!(actions.len(), 2);
    for a in &actions {
        let Action::DatagramSend { bytes } = a else {
            panic!("expected a datagram, got {a:?}");
        };
        assert_eq!(bytes[0], DATAGRAM_TAG_CHANNEL_A);
    }
}

#[test]
fn the_driver_is_started_again_with_growing_pauses() {
    assert_eq!(backoff_for(1), 400);
    let mut policy = RestartPolicy::new(3, Duration::from_secs(60), at(0));
    for attempt in 1..=3 {
        let step = supervise(&mut policy, ProcessEvent::OutputEnded, at(attempt));
        assert_eq!(
            step,
            SupervisorStep::Retry {
                kill: true,
                attempt: attempt as u32,
                pause_ms: backoff_for(attempt as u32)
            }
        );
    }
    let step = supervise(&mut policy, ProcessEvent::SpawnFailed, at(10));
    assert_eq!(step, SupervisorStep::GiveUp { kill: false });
    let told = reports(step, &policy);
    assert_eq!(told.len(), 2, "{told:?}");
    assert!(matches!(told[0], SupervisorEvent::ProcessDied { attempt: 4, will_retry: false }));
    assert!(matches!(told[1], SupervisorEvent::GaveUp));
    assert!(reports(SupervisorStep::ShutDown, &policy).is_empty());
    let retry = SupervisorStep::Retry { kill: true, attempt: 2, pause_ms: 800 };
    let told = reports(retry, &policy);
    assert_eq!(told.len(), 1, "{told:?}");
    assert!(matches!(told[0], SupervisorEvent::ProcessDied { attempt: 2, will_retry: true }));
    let step = supervise(&mut policy, ProcessEvent::CommandsClosed, at(11));
    assert_eq!(step, SupervisorStep::ShutDown);
    let config = BridgeConfig::default();
    assert_eq!((config.max_restart_attempts, config.python_bin.as_str()), (3, "python3"));
    assert_eq!(bridge_args(true, "/dev/tty", "400"), vec!["--stub"]);
    assert_eq!(
        bridge_args(false, "/dev/tty", "400"),
        vec!["--port", "/dev/tty", "--watchdog-ms", "400"]
    );
}

#[test]
fn failures_that_lie_far_apart_do_not_add_up() {
    let mut policy = RestartPolicy::new(1, Duration::from_secs(60), at(0));
    assert!(policy.record_failure(at(1)));
    assert!(policy.record_failure(at(120_000)));
    assert!(!policy.record_failure(at(120_001)));
}

#[test]
fn other_image_controls_restart_the_camera_without_a_failure() {
    let mut policy = RestartPolicy::new(1, Duration::from_secs(60), at(0));
    let step = on_capture_event(&mut policy, CaptureEvent::ControlsChanged, at(1));
    assert_eq!(step, CaptureStep::Restart);
    let step = on_capture_event(&mut policy, CaptureEvent::OutputEnded, at(2));
    assert!(matches!(step, CaptureStep::Retry { kill: true, .. }));
    let step = on_capture_event(&mut policy, CaptureEvent::ReadFailed, at(3));
    assert_eq!(step, CaptureStep::GiveUp { kill: true });
    let step = on_capture_event(&mut policy, CaptureEvent::ReceiverGone, at(4));
    assert_eq!(step, CaptureStep::ShutDown);
}

#[test]
fn camera_arguments() {
    let args = build_args(&CaptureConfig::default(), "0.5", "1", "0", 0).join(" ");
    assert!(args.contains("--width 640 --height 480 --framerate 30"), "{args}");
    assert!(args.contains("--brightness 0.5 --contrast 1 --ev 0"), "{args}");
    assert!(!args.contains("--shutter"));
    let fixed = build_args(&CaptureConfig::default(), "0", "1", "0", 8000).join(" ");
    assert!(fixed.contains("--shutter 8000"), "{fixed}");
}

#[test]
fn task_classes_are_named() {
    assert_eq!(parse_task_class("B"), Some(TaskClass::B));
    assert_eq!(parse_task_class("E"), Some(TaskClass::E));
    assert_eq!(parse_task_class("d"), None);
}
