//! The operator's side: inputs, the session, and what is displayed; and the
//! monitor that only watches.

use roboprotocol::action::{Action, CloseReason};
use roboprotocol::action_trigger_handler::decode_action_trigger;
use roboprotocol::camera_control_handler::decode_camera_control;
use roboprotocol::channel_b::{
    decode_channel_b_frame, encode_channel_b_frame, ChannelBCategory, ChannelBFrameData,
    TelemetryData, TeleopCommand, ALL_REGIONS,
};
use roboprotocol::client::tick::{ClosedStep, ReconnectEvent, ReconnectStep, TickReport};
use roboprotocol::client::{Client, Phase, VideoBackend};
use roboprotocol::client_state::min_safe_arm_x;
use roboprotocol::datagram::{tag, untag, DATAGRAM_TAG_CHANNEL_A, DATAGRAM_TAG_CHANNEL_B};
use roboprotocol::estop::{EstopDatagram, ESTOP_STREAM_ID};
use roboprotocol::gamepad::{Axis, Button, PadEvent, PadState, StickXMode};
use roboprotocol::gateway;
use roboprotocol::hello::{local_hello_capabilities, ProtocolVersion};
use roboprotocol::hello_handler::encode_hello;
use roboprotocol::input::{key_input, log_text, AttitudeAxis, CameraParam, Key, TeleopInput};
use roboprotocol::options::{check_operator, parse_video_backend, OptionsError};
use roboprotocol::picture::{CodecFailure, Picture, UnitDecoder};
use roboprotocol::playback::{escape_filter_value, ffplay_args};
use roboprotocol::recorder::Category;
use roboprotocol::safety::TaskClass;
use roboprotocol::session::Session;
use roboprotocol::session_cache::{check_and_record_profile, has_line, ticket_file_name};
use roboprotocol::session_handler::{decode_session_accept, encode_session_describe};
use roboprotocol::time::{Duration, Instant};
use roboprotocol::ui::{
    battery_color, channel_rows, command_panel, disconnected_screen, estop_banner, fmt_rate,
    header_line, leg_label, push_setting, recording_span, rtt_color, status_line, telemetry_panel, Attitude,
    ConnPhase, HudState, RateCounter, TelemetryPanel, Tone,
};
use roboprotocol::video::chunk_nal;
use roboprotocol::xgo_profile::{xgo_lite_v2_camera, xgo_lite_v2_profile};

fn at(ms: u64) -> Instant {
    Instant { nanos: 1_000_000_000 }.plus(Duration::from_millis(ms))
}

#[test]
fn escapes_colons_and_backslashes_for_the_filtergraph() {
    assert_eq!(escape_filter_value("plain"), "plain");
    assert_eq!(escape_filter_value("has:colon"), "has\\:colon");
    assert_eq!(escape_filter_value(r"has\backslash"), r"has\\backslash");
    assert_eq!(escape_filter_value(r"C:\Users\a"), r"C\:\\Users\\a");
}

#[test]
fn the_player_burns_in_the_overlay_only_if_asked() {
    assert!(!ffplay_args(None).contains(&"-vf".to_string()));
    let args = ffplay_args(Some("/tmp/a:b"));
    assert_eq!(args[args.len() - 2], "-vf");
    assert!(args[args.len() - 1].contains("/tmp/a\\:b"), "{args:?}");
}

fn hud_with_motors(n: usize) -> HudState {
    let mut hud = HudState::new("127.0.0.1:4433".to_string(), 50, at(0));
    hud.motors = (0..n).map(|i| i as i16 * 150 - 1000).collect();
    hud.battery = Some(80);
    hud.attitude = Some(Attitude { roll: 120, pitch: -50, yaw: 330 });
    hud
}

/// Everything on the panel, line by line.
fn content(panel: &TelemetryPanel) -> String {
    let mut out = format!(
        "{}\n{}\n{}\n{}\n",
        panel.battery.text, panel.rtt.text, panel.last_received.text, panel.attitude
    );
    for (i, leg) in panel.legs.iter().enumerate() {
        out.push_str(&format!("{} {leg}\n", leg_label(i)));
    }
    if let Some(arm) = &panel.arm {
        out.push_str(arm);
    }
    out
}

#[test]
fn renders_12_motor_leg_grid_without_panicking() {
    let hud = hud_with_motors(12);
    let content = content(&telemetry_panel(&hud, at(0)));
    assert!(content.contains("FL"), "expected FL leg label, got:\n{content}");
    assert!(content.contains("RL"), "expected RL leg label, got:\n{content}");
}

#[test]
fn renders_15_motor_leg_grid_plus_arm_line_without_panicking() {
    let hud = hud_with_motors(15);
    let content = content(&telemetry_panel(&hud, at(0)));
    assert!(content.contains("arm:"), "expected an arm summary line, got:\n{content}");
    assert!(content.contains("FL L -10.0 M  -8.5 U  -7.0"), "{content}");
    assert!(content.contains("arm: 8.0 / 9.5 / 11.0"), "{content}");
}

#[test]
fn renders_summary_only_when_motors_below_12_without_panicking() {
    let hud = hud_with_motors(0);
    let panel = telemetry_panel(&hud, at(0));
    assert!(panel.legs.is_empty());
    assert!(panel.arm.is_none());
    assert_eq!(panel.attitude, "roll/pitch/yaw: 1.2 / -0.5 / 3.3");
    assert_eq!((panel.battery.text.as_str(), panel.battery.tone), ("80%", Tone::Good));
}

#[test]
fn colours_follow_the_thresholds() {
    assert_eq!(battery_color(50), Tone::Good);
    assert_eq!(battery_color(49), Tone::Warning);
    assert_eq!(battery_color(19), Tone::Bad);
    assert_eq!(rtt_color(49_999), Tone::Good);
    assert_eq!(rtt_color(50_000), Tone::Warning);
    assert_eq!(rtt_color(150_000), Tone::Bad);
}

#[test]
fn rates_count_what_lies_in_the_window() {
    let mut counter = RateCounter::new(Duration::from_secs(1));
    counter.record(at(0), 100);
    counter.record(at(500), 200);
    assert_eq!(counter.totals(at(600)), (2, 300));
    assert_eq!(counter.totals(at(1200)), (1, 200));
    // What is pruned on the way never lay in a later window.
    for i in 0..50 {
        counter.record(at(2000 + 100 * i), 10);
        let within = (i + 1).min(11);
        assert_eq!(counter.totals(at(2000 + 100 * i)), (within, 10 * within));
    }
    assert_eq!(fmt_rate(512), "512 B/s");
    assert_eq!(fmt_rate(2048), "2.0 KB/s");
    assert_eq!(fmt_rate(1_572_864), "1.5 MB/s");
    assert_eq!(fmt_rate(u64::MAX), "17592186044416.0 MB/s");
}

#[test]
fn the_display_says_what_is_known() {
    let mut hud = hud_with_motors(0);
    assert!(header_line(&hud, at(0)).contains("127.0.0.1:4433"));
    assert!(estop_banner(&hud).text.contains("armed"));
    hud.estopped = true;
    assert_eq!(estop_banner(&hud).tone, Tone::Alarm);
    assert_eq!(recording_span(&hud, at(0)).text, "rec: off ('r' to start)");
    hud.recording_active = true;
    hud.recording_started_at = Some(at(0));
    hud.recording_dropped = 3;
    assert_eq!(recording_span(&hud, at(5000)).text, "\u{25cf} REC 5s (3 dropped)");
    hud.disconnected_at = Some(at(0));
    hud.reconnect_attempts = 2;
    let screen = disconnected_screen(&hud, at(4000));
    assert_eq!(
        screen.lost,
        "Lost contact with (unknown) 4s ago -- robot state is no longer known."
    );
    assert_eq!(screen.last_known, "Last known: battery 80%, estop LATCHED");
    assert_eq!(screen.attempt, "Reconnecting... (attempt 2)");
    hud.rtt_us = Some(12_345);
    assert!(status_line(&hud).contains("rtt=12.3ms estop=true battery=80% rpy=1.2/-0.5/3.3"));
    let (video, command, telemetry) = channel_rows(&hud, at(0));
    assert_eq!(video.seq, "--");
    assert_eq!(command.note, "target 50Hz");
    assert_eq!(telemetry.note, "no data yet");
}

#[test]
fn keys_mean_inputs() {
    assert_eq!(key_input(Key::Char('e')), Some(TeleopInput::Estop));
    assert_eq!(key_input(Key::Left), Some(TeleopInput::Turn { turn: 60_000_000 }));
    assert_eq!(key_input(Key::Esc), Some(TeleopInput::Quit));
    assert_eq!(key_input(Key::Char(' ')), Some(TeleopInput::Move { vx: 0, vy: 0 }));
    assert_eq!(key_input(Key::Char('?')), None);
    assert_eq!(key_input(Key::Other), None);
    assert_eq!(
        log_text(TeleopInput::AttitudeNudge { axis: AttitudeAxis::Pitch, delta: 2_000_000 }),
        "AttitudeNudge { axis: 'p', delta: 2.0 }"
    );
    assert_eq!(log_text(TeleopInput::Action(12)), "Action(12)");
}

#[test]
fn the_gamepad_repeats_while_it_is_held() {
    let mut pad = PadState::default();
    assert!(pad.send_refresh().is_empty());
    pad.handle_event(PadEvent::AxisChanged { axis: Axis::LeftStickY, value: 1_000_000 });
    let sent = pad.send_refresh();
    assert!(sent.contains(&TeleopInput::Move { vx: 15_000_000, vy: 0 }), "{sent:?}");
    pad.handle_event(PadEvent::AxisChanged { axis: Axis::LeftStickY, value: 100_000 });
    assert!(pad.send_refresh().is_empty(), "inside the dead zone");
    assert_eq!(pad.arm_step(), 10);
    pad.handle_button_press(Button::LeftTrigger2);
    assert_eq!(pad.arm_step(), 2);
    assert_eq!(StickXMode::Turn.label(), "turn");
}

fn client(video: Option<VideoBackend>, overlay: bool, demo_action: Option<u8>) -> Client {
    Client::new(
        TaskClass::D,
        "10.0.0.1:4433".to_string(),
        50,
        video,
        overlay,
        demo_action,
        Duration::from_millis(400),
        at(0),
    )
}

fn hello() -> Vec<u8> {
    encode_hello(&local_hello_capabilities(TaskClass::D))
}

fn describe() -> Vec<u8> {
    encode_session_describe("xgo", &xgo_lite_v2_profile(), &vec![xgo_lite_v2_camera()])
}

fn operating(mut c: Client) -> Client {
    assert!(c.on_stream_data(0, &hello(), "").is_empty());
    c.on_stream_data(1, &describe(), "");
    assert_eq!(c.phase, Phase::Operating);
    c
}

const QUIET: TickReport = TickReport {
    gamepad_connected: false,
    stick_mode: StickXMode::Turn,
    recording_dropped: 0,
};

fn sent_command(actions: &[Action]) -> Option<(u64, TeleopCommand)> {
    actions.iter().find_map(|a| match a {
        Action::DatagramSend { bytes } => {
            let (t, payload) = untag(bytes)?;
            if t != DATAGRAM_TAG_CHANNEL_B {
                return None;
            }
            let frame = decode_channel_b_frame(&payload).ok()?;
            Some((frame.seq, TeleopCommand::unpack(&frame.fields)?))
        }
        _ => None,
    })
}

#[test]
fn a_description_is_answered_and_remembered() {
    let mut c = client(None, false, None);
    assert!(c.hello_due(true).is_some());
    assert!(c.on_stream_data(1, &describe(), "").is_empty(), "no greeting yet");
    c.on_stream_data(0, &hello(), "");
    let actions = c.on_stream_data(1, &describe(), "");
    let Action::SaveProfiles { text } = &actions[0] else {
        panic!("expected the list of profiles, got {actions:?}");
    };
    let Action::StreamSend { stream_id: 1, bytes } = &actions[1] else {
        panic!("expected an answer, got {actions:?}");
    };
    let answer = decode_session_accept(bytes).unwrap();
    assert!(!answer.cached);
    assert_eq!(answer.selected_regions, vec![0, 1, 2, 3, 4]);
    assert_eq!(c.hud.camera_shape.as_deref(), Some("640x480 H264 @30fps"));

    let mut again = client(None, false, None);
    again.on_stream_data(0, &hello(), text);
    let actions = again.on_stream_data(1, &describe(), text);
    assert_eq!(actions.len(), 1, "a known profile is not saved again");
    let Action::StreamSend { bytes, .. } = &actions[0] else {
        panic!("expected an answer, got {actions:?}");
    };
    assert!(decode_session_accept(bytes).unwrap().cached);
}

#[test]
fn incompatible_versions_close_the_connection() {
    let mut caps = local_hello_capabilities(TaskClass::D);
    caps.protocol_version = ProtocolVersion::new(9, 0);
    let mut c = client(None, false, None);
    let actions = c.on_stream_data(0, &encode_hello(&caps), "");
    assert!(matches!(actions[0], Action::Close { reason: CloseReason::HelloIncompatible }));
    assert_eq!(CloseReason::HelloIncompatible.code(), 1);
    assert_eq!(CloseReason::HelloIncompatible.text(), "HELLO_INCOMPATIBLE");
}

#[test]
fn movement_that_is_not_refreshed_stops() {
    let mut c = operating(client(None, false, None));
    c.on_input(TeleopInput::Move { vx: 15_000_000, vy: 0 }, at(100), 100_000);
    let (first, command) = sent_command(&c.on_tick(QUIET, at(120), 120_000)).unwrap();
    assert_eq!(command.vx, 1500);
    let (second, command) = sent_command(&c.on_tick(QUIET, at(499), 499_000)).unwrap();
    assert_eq!(command.vx, 1500);
    let (third, command) = sent_command(&c.on_tick(QUIET, at(500), 500_000)).unwrap();
    assert_eq!(command.vx, 0);
    assert_eq!((second, third), (first + 1, first + 2));
}

#[test]
fn an_action_stops_movement_and_is_numbered() {
    let mut c = operating(client(None, false, None));
    c.on_input(TeleopInput::Move { vx: 15_000_000, vy: 0 }, at(100), 100_000);
    let triggers: Vec<u64> = [2u8, 12]
        .iter()
        .map(|id| {
            let actions = c.on_input(TeleopInput::Action(*id), at(110), 110_000);
            let sent = actions.iter().find_map(|a| match a {
                Action::StreamSend { bytes, .. } => decode_action_trigger(bytes).ok(),
                _ => None,
            });
            assert_eq!(sent.unwrap().action_id, *id);
            sent.unwrap().trigger_seq
        })
        .collect();
    assert_eq!(triggers, vec![1, 2]);
    assert!(!c.last_command.is_moving());
    c.on_action_sent(2, at(120));
    assert!(command_panel(&c.hud, at(1120)).stand_sent.contains("1.0s ago"));
}

#[test]
fn a_stop_goes_out_on_both_paths_in_every_phase() {
    let mut c = client(None, false, None);
    let actions = c.on_input(TeleopInput::Estop, at(1), 1_000);
    let stream = actions
        .iter()
        .any(|a| matches!(a, Action::StreamSend { stream_id: ESTOP_STREAM_ID, .. }));
    let datagram = actions.iter().any(|a| match a {
        Action::DatagramSend { bytes } => EstopDatagram::decode(bytes).is_some_and(|d| d.latched),
        _ => false,
    });
    assert!(stream && datagram, "{actions:?}");
}

#[test]
fn the_arm_stays_clear_of_the_robot() {
    assert_eq!(min_safe_arm_x(0), 70);
    assert_eq!(min_safe_arm_x(35), 30);
    assert_eq!(min_safe_arm_x(-50), 70);
    let mut c = operating(client(None, false, None));
    for _ in 0..40 {
        c.on_input(TeleopInput::ArmNudge { dx: -10, dz: -10 }, at(1), 1_000);
        assert!(c.last_command.arm_x >= min_safe_arm_x(c.last_command.arm_z));
    }
    assert_eq!(c.last_command.arm_z, -95);
}

#[test]
fn camera_controls_are_sent_and_shown() {
    let mut c = operating(client(Some(VideoBackend::Ffplay), true, None));
    let input = TeleopInput::CameraNudge { param: CameraParam::Brightness, delta: 300_000 };
    let actions = c.on_input(input, at(1), 1_000);
    let control = actions
        .iter()
        .find_map(|a| match a {
            Action::StreamSend { bytes, .. } => decode_camera_control(bytes).ok(),
            _ => None,
        })
        .unwrap();
    assert_eq!(f32::from_bits(control.brightness_bits), 0.3);
    assert_eq!(f32::from_bits(control.contrast_bits), 1.0);
    assert_eq!(control.control_seq, 1);
    assert!(actions.iter().any(|a| matches!(a, Action::ShowOverlay { .. })));
}

#[test]
fn recording_is_switched_for_four_categories() {
    let mut c = client(None, false, None);
    let actions = c.on_input(TeleopInput::ToggleRecording, at(1), 1_000);
    let switched: Vec<Category> = actions
        .iter()
        .filter_map(|a| match a {
            Action::SetRecording { category, active: true } => Some(*category),
            _ => None,
        })
        .collect();
    assert_eq!(
        switched,
        vec![
            Category::VideoA,
            Category::ChannelBCommand,
            Category::ChannelBTelemetry,
            Category::KeyPress
        ]
    );
    c.on_input(TeleopInput::ToggleRecording, at(2), 2_000);
    assert!(!c.hud.recording_active);
}

#[test]
fn inputs_are_logged_before_they_are_applied() {
    let mut c = client(None, false, None);
    let (actions, quit) = c.dispatch_teleop_input(TeleopInput::Quit, at(1), 1_000);
    assert!(quit);
    let Action::Store { category: Category::KeyPress, record } = &actions[0] else {
        panic!("expected the log first, got {actions:?}");
    };
    assert_eq!(record.payload, b"Quit");
    assert!(actions
        .iter()
        .any(|a| matches!(a, Action::Close { reason: CloseReason::OperatorQuit })));
}

fn telemetry_datagram(timestamp: u64) -> Vec<u8> {
    let frame = encode_channel_b_frame(&ChannelBFrameData {
        timestamp,
        seq: 3,
        tick_id: 0,
        category: ChannelBCategory::Telemetry,
        region_id: ALL_REGIONS,
        fields: TelemetryData { battery: 55, roll: 10, pitch: 20, yaw: 30, motors: vec![7; 15] }
            .pack(),
    });
    tag(DATAGRAM_TAG_CHANNEL_B, &frame)
}

#[test]
fn telemetry_is_displayed_once_operating() {
    let mut early = client(None, false, None);
    assert!(early.on_datagram(&telemetry_datagram(1), at(1), 1_000).is_empty());
    let mut c = operating(client(None, false, None));
    c.on_datagram(&telemetry_datagram(1_000), at(5), 6_500);
    assert_eq!(c.hud.battery, Some(55));
    assert_eq!(c.hud.rtt_us, Some(5_500));
    assert_eq!(c.hud.motors.len(), 15);
    assert_eq!(c.hud.telemetry_last_seq, Some(3));
}

#[test]
fn video_is_shown_and_logged() {
    let mut c = operating(client(Some(VideoBackend::Native), false, None));
    let mut shown = vec![];
    for chunk in chunk_nal(1, &[0x67, 1, 2, 3]) {
        shown.extend(c.on_datagram(&tag(DATAGRAM_TAG_CHANNEL_A, &chunk), at(1), 1_000));
    }
    assert!(matches!(shown[0], Action::Store { category: Category::VideoA, .. }));
    assert!(matches!(&shown[1], Action::ShowVideo { bytes, is_critical: true }
        if bytes == &vec![0, 0, 0, 1, 0x67, 1, 2, 3]));
}

#[test]
fn a_scripted_action_is_fired_once() {
    let mut c = operating(client(None, false, Some(2)));
    let first = c.on_tick(QUIET, at(20), 20_000);
    assert!(first.iter().any(|a| matches!(a, Action::StreamSend { .. })));
    let second = c.on_tick(QUIET, at(40), 40_000);
    assert!(!second.iter().any(|a| matches!(a, Action::StreamSend { .. })));
}

#[test]
fn a_lost_connection_is_taken_up_again() {
    let mut c = operating(client(None, false, None));
    assert_eq!(c.on_closed(false, at(10)), ClosedStep::Reconnect);
    c.on_reconnect_attempt();
    assert_eq!(c.hud.reconnect_attempts, 1);
    assert_eq!(c.on_reconnect_event(ReconnectEvent::Connected), ReconnectStep::Resume);
    assert_eq!(c.phase, Phase::AwaitingHello);
    assert!(c.hud.robot_id.is_none());
}

#[test]
fn the_two_ends_come_to_terms() {
    let mut robot = Session::new(
        TaskClass::B,
        "xgo".to_string(),
        xgo_lite_v2_profile(),
        Vec::new(),
        false,
        at(0),
    );
    let mut console = client(None, false, None);
    let from_console = console.hello_due(true).unwrap();
    let from_robot = robot.hello_due(true).unwrap();
    assert!(console.on_stream_data(0, &from_robot, "").is_empty());
    let (told, error) = robot.on_stream_data(0, &from_console, at(1), 1);
    assert!(error.is_none());
    let Action::StreamSend { stream_id: 1, bytes } = &told[0] else {
        panic!("expected a description, got {told:?}");
    };
    let answered = console.on_stream_data(1, bytes, "");
    assert_eq!(console.phase, Phase::Operating);
    assert_eq!(console.hud.robot_id.as_deref(), Some("xgo"));
    let Some(Action::StreamSend { stream_id: 1, bytes }) = answered.last() else {
        panic!("expected an answer, got {answered:?}");
    };
    let (asked, error) = robot.on_stream_data(1, bytes, at(2), 2);
    assert!(asked.is_empty() && error.is_none());
    assert_eq!(robot.phase(), roboprotocol::session::Phase::Operating);
}

#[test]
fn the_displayed_phase_is_that_of_the_session() {
    let mut c = client(None, false, None);
    assert_eq!(c.hud.phase, ConnPhase::AwaitingHello);
    c.on_stream_data(0, &hello(), "");
    assert_eq!(c.phase, Phase::AwaitingSessionDescribe);
    assert_eq!(c.hud.phase, ConnPhase::AwaitingSessionDescribe);
    c.on_stream_data(1, &describe(), "");
    assert_eq!(c.hud.phase, ConnPhase::Operating);
    c.on_closed(false, at(10));
    assert_eq!(c.hud.phase, ConnPhase::Closed);
    c.on_reconnect_event(ReconnectEvent::Connected);
    assert_eq!(c.hud.phase, ConnPhase::AwaitingHello);
}

#[test]
fn tickets_and_profiles_are_remembered() {
    assert_eq!(ticket_file_name("10.0.0.1:4433"), "10_0_0_1_4433.ticket");
    let (hit, updated) = check_and_record_profile("", "xgo", 42);
    assert!(!hit);
    let list = updated.unwrap();
    let (hit, updated) = check_and_record_profile(&list, "xgo", 42);
    assert!(hit && updated.is_none());
    let (hit, _) = check_and_record_profile(&list, "xgo", 43);
    assert!(!hit);
    assert!(has_line("a\nb\n", "b"));
    assert!(!has_line("ab\n", "b"));
    let mut c = client(None, false, None);
    assert!(c.ticket_changed(&[1, 2]));
    assert!(!c.ticket_changed(&[1, 2]));
    assert!(c.ticket_changed(&[3]));
}

#[test]
fn options_that_do_not_go_together() {
    let extra = vec![Category::ChannelBHaptic];
    let none = vec![];
    let (ffplay, native) = (VideoBackend::Ffplay, VideoBackend::Native);
    assert_eq!(
        check_operator(&extra, false, false, false, ffplay),
        Err(OptionsError::RecordWithoutDirectory)
    );
    assert_eq!(
        check_operator(&none, false, false, true, ffplay),
        Err(OptionsError::OverlayWithoutVideo)
    );
    assert_eq!(
        check_operator(&none, false, true, true, native),
        Err(OptionsError::OverlayNeedsFfplay)
    );
    assert_eq!(check_operator(&extra, true, true, true, ffplay), Ok(()));
    assert_eq!(parse_video_backend("native"), Some(native));
    assert_eq!(parse_video_backend("vlc"), None);
}

#[test]
fn the_monitor_watches_and_never_commands() {
    let mut m = gateway::Client::new(TaskClass::D);
    assert!(m.hello_due(true).is_some());
    let gateway::Step::Tell(status) = m.on_stream_data(0, &hello()) else {
        panic!("expected a status");
    };
    assert_eq!(status.stage.name(), "awaiting_session_describe");
    assert!(m.hello_due(true).is_none());
    let gateway::Step::Accept { bytes, status } = m.on_stream_data(1, &describe()) else {
        panic!("expected an answer");
    };
    assert!(!decode_session_accept(&bytes).unwrap().cached);
    assert_eq!(status.stage.name(), "operating");
    assert_eq!(status.robot_id.as_deref(), Some("xgo"));
    assert_eq!(status.camera.as_deref(), Some("640x480 H264 @30fps"));

    let gateway::Step::Telemetry(t) = m.on_datagram(&telemetry_datagram(1_000), 3_000) else {
        panic!("expected telemetry");
    };
    assert_eq!((t.data.battery, t.seq, t.rtt_us), (55, 3, Some(2_000)));
    let stop = EstopDatagram { latched: true, seq: 1 }.encode();
    let gateway::Step::Tell(status) = m.on_datagram(&stop, 1) else {
        panic!("expected a status");
    };
    assert!(status.estopped);
    let idle = gateway::idle_status(gateway::Stage::Disconnected);
    assert_eq!((idle.stage.name(), idle.estopped), ("disconnected", false));
}

#[test]
fn pictures_are_handed_on_at_most_so_often() {
    let mut throttle = gateway::BroadcastThrottle::new();
    assert!(throttle.due(at(0)));
    throttle.sent(at(0));
    assert!(!throttle.due(at(65)));
    assert!(throttle.due(at(66)));

    let mut log = gateway::DecodeLog::new(at(0));
    assert_eq!(log.record(gateway::Decoded::Picture, at(10)), None);
    assert_eq!(log.record(gateway::Decoded::Failed, at(20)), None);
    assert_eq!(log.record(gateway::Decoded::Nothing, at(5000)), Some((1, 1)));
    assert_eq!(log.record(gateway::Decoded::Picture, at(10_000)), None);
}

/// A stream of units that each complete a picture of one shade.
fn stream(width: usize, height: usize, shades: &[u8]) -> Vec<Vec<u8>> {
    let mut encoder = openh264::encoder::Encoder::new().unwrap();
    let mut units = Vec::new();
    for shade in shades {
        let mut planes = vec![*shade; width * height];
        planes.extend(vec![128u8; width * height / 2]);
        let yuv = openh264::formats::YUVBuffer::from_vec(planes, width, height);
        units.push(encoder.encode(&yuv).unwrap().to_vec());
    }
    units
}

#[test]
fn units_become_pictures() {
    let units = stream(64, 48, &[200, 100]);
    let mut decoder = UnitDecoder::new().unwrap();
    for (unit, shade) in units.iter().zip([200u8, 100]) {
        let picture = decoder.decode(unit).unwrap().expect("each unit completes a picture");
        assert_eq!((picture.width, picture.height), (64, 48));
        assert_eq!(picture.rgb.len(), 64 * 48 * 3);
        assert!(picture.rgb.iter().all(|v| v.abs_diff(shade) <= 6), "{:?}", &picture.rgb[..12]);
    }
    // Without the picture that it refers to, the second unit is worth nothing.
    let mut late = UnitDecoder::new().unwrap();
    assert_eq!(late.decode(&units[1]), Err(CodecFailure));
}

fn grey(width: u32, height: u32) -> Picture {
    Picture { rgb: vec![127; width as usize * height as usize * 3], width, height }
}

#[test]
fn a_picture_becomes_a_jpeg_file() {
    let jpeg = grey(40, 30).encode_jpeg(75).unwrap();
    assert_eq!(jpeg[..3], [0xFF, 0xD8, 0xFF]);
    assert_eq!(jpeg[jpeg.len() - 2..], [0xFF, 0xD9]);
    let back = image::load_from_memory(&jpeg).unwrap().to_rgb8();
    assert_eq!(back.dimensions(), (40, 30));
    assert!(back.pixels().all(|p| p.0.iter().all(|v| v.abs_diff(127) <= 3)));
    assert_eq!(grey(40, 30).encode_jpeg(75), Some(jpeg));
    assert_eq!(grey(0, 30).encode_jpeg(75), None);
    assert_eq!(grey(1, 65_536).encode_jpeg(75), None);
    assert!(grey(1, 65_535).encode_jpeg(75).is_some());
}

#[test]
fn every_unit_is_decoded_and_only_encoding_waits() {
    let units = stream(64, 48, &[10, 60, 110, 160, 210]);
    let mut decoder = UnitDecoder::new().unwrap();
    let mut feed = gateway::VideoFeed::new(at(0));
    let mut sent = Vec::new();
    for (i, unit) in units.iter().enumerate() {
        let (jpeg, summary) = feed.on_unit(&mut decoder, unit, at(30 * i as u64));
        assert_eq!(summary, None);
        if let Some(jpeg) = jpeg {
            assert_eq!(jpeg[..2], [0xFF, 0xD8]);
            sent.push(i);
        }
    }
    // At 0 and at 90: those at 30, 60 and 120 come too soon.
    assert_eq!(sent, [0, 3]);
    assert_eq!((feed.log.ok_count, feed.log.err_count), (5, 0));
    assert_eq!(feed.throttle.last, Some(at(90)));

    // A broken unit is counted, and told of when the time has come.
    let (jpeg, summary) = feed.on_unit(&mut decoder, &[0, 0, 0, 1, 0x65, 0xFF, 0x12], at(200));
    assert_eq!((jpeg, summary), (None, None));
    assert_eq!(feed.log.err_count, 1);
    let (jpeg, summary) = feed.on_decoded(Ok(None), at(5000));
    assert_eq!((jpeg, summary), (None, Some((5, 1))));
    assert_eq!((feed.log.ok_count, feed.log.err_count), (0, 0));
}

#[test]
fn what_is_decoded_is_handed_on_when_due() {
    let mut feed = gateway::VideoFeed::new(at(0));
    let picture = grey(16, 16);
    let expected = picture.encode_jpeg(gateway::JPEG_QUALITY);
    assert!(expected.is_some());
    assert_eq!(feed.on_decoded(Ok(Some(picture.clone())), at(0)), (expected.clone(), None));
    assert_eq!(feed.on_decoded(Ok(Some(picture.clone())), at(65)), (None, None));
    assert_eq!(feed.on_decoded(Ok(Some(picture.clone())), at(66)), (expected, None));
    assert_eq!(feed.on_decoded(Err(CodecFailure), at(67)), (None, None));
    // A picture that cannot be encoded leaves the interval as it was.
    assert_eq!(feed.on_decoded(Ok(Some(grey(0, 0))), at(140)), (None, None));
    assert_eq!(feed.throttle.last, Some(at(66)));
    assert_eq!(feed.on_decoded(Ok(Some(picture)), at(5000)).1, Some((5, 1)));
}

#[test]
fn settings_are_shown_whatever_their_size() {
    for v in [0, 1_500_000, -250_000, 49_999, 33_554_433_000_000, i64::MAX, i64::MIN] {
        let mut shown = String::new();
        push_setting(&mut shown, v);
        assert_eq!(shown, format!("{:.1}", (v as f64 / 1e6) as f32), "{v}");
    }
    // A round trip time of any length is told in milliseconds.
    let mut hud = hud_with_motors(12);
    for us in [12_345, 2_000_000_000_000_000_000, u64::MAX] {
        hud.rtt_us = Some(us);
        let shown = format!("{:.1} ms", us as f64 / 1000.0);
        assert_eq!(telemetry_panel(&hud, at(0)).rtt.text, shown);
    }
}
