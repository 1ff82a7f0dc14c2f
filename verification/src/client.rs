//! The operator's side of a session: what it does with what it receives, with
//! the operator's inputs, and with the passing of time.

pub mod receive;
pub mod tick;

use vstd::prelude::*;
use crate::action;
use crate::action::{append, ask, just, nothing, Action, ActionView, CloseReason};
use crate::action_trigger;
use crate::action_trigger::{ActionTrigger, ACTION_TRIGGER_STREAM_ID};
use crate::action_trigger_handler;
use crate::action_trigger_handler::encode_action_trigger;
use crate::camera_control::{CameraControl, CAMERA_CONTROL_STREAM_ID};
use crate::camera_control_handler;
use crate::camera_control_handler::encode_camera_control;
use crate::channel_a;
use crate::channel_a::ChannelAReceiver;
use crate::channel_b;
use crate::channel_b::{
    decode_channel_b_frame, encode_channel_b_frame, ChannelBCategory, ChannelBFrameData,
    TelemetryData, ALL_REGIONS,
};
use crate::client_state::{CameraControlState, HeldCommand};
use crate::datagram;
use crate::datagram::{DATAGRAM_TAG_CHANNEL_A, DATAGRAM_TAG_CHANNEL_B};
use crate::estop::{EstopDatagram, ESTOP_DATAGRAM_MAGIC, ESTOP_STREAM_ID};
use crate::fixed;
use crate::gamepad::StickXMode;
use crate::hello;
use crate::hello::{local_hello_capabilities, negotiate};
use crate::hello_handler;
use crate::hello_handler::{decode_hello, encode_hello};
use crate::input;
use crate::input::{log_text, TeleopInput};
use crate::profile;
use crate::profile::{CameraDescriptor, Codec};
use crate::recorder::{Category, Record};
use crate::recording::CONTROL_SOURCE_SENTINEL;
use crate::safety::TaskClass;
use crate::session_cache;
use crate::session_cache::check_and_record_profile;
use crate::session_handler;
use crate::session_handler::{
    decode_session_describe, encode_session_accept_full, SessionDescribeInfo,
};
use crate::text;
use crate::text::push_decimal;
use crate::time;
use crate::time::{Duration, Instant};
use crate::ui;
use crate::ui::{push_setting, push_shutter, Attitude, ConnPhase, HudState};
use crate::video;
use crate::video::nal_is_critical;
use crate::wire::same_bytes;

verus! {

/// What shows the video.
#[derive(Debug, Clone, Copy, PartialEq, Eq, Structural)]
pub enum VideoBackend {
    Ffplay,
    Native,
}

/// How far the session has come.
#[derive(Debug, Clone, Copy, PartialEq, Eq, Structural)]
pub enum Phase {
    AwaitingHello,
    AwaitingSessionDescribe,
    Operating,
}

/// The operator's session.
pub struct Client {
    pub task_class: TaskClass,
    pub phase: Phase,
    pub session_info: Option<SessionDescribeInfo>,
    pub video_rx: ChannelAReceiver,
    /// What shows the video, if it is shown at all.
    pub video: Option<VideoBackend>,
    /// Whether the camera controls are written into the picture.
    pub overlay: bool,
    pub channel_b_seq: u64,
    pub estop_seq: u64,
    pub next_trigger_seq: u64,
    pub next_camera_control_seq: u64,
    pub camera_controls: CameraControlState,
    pub last_command: HeldCommand,
    pub estopped: bool,
    pub hud: HudState,
    /// An action to fire once the session operates.
    pub demo_action: Option<u8>,
    pub last_move_input_at: Option<Instant>,
    pub move_stale: Duration,
    pub last_saved_session: Option<Vec<u8>>,
}

/// The phase as it is displayed, as long as there is a connection.
pub open spec fn shown_phase(phase: Phase) -> ConnPhase {
    match phase {
        Phase::AwaitingHello => ConnPhase::AwaitingHello,
        Phase::AwaitingSessionDescribe => ConnPhase::AwaitingSessionDescribe,
        Phase::Operating => ConnPhase::Operating,
    }
}

/// A message that fires a trigger.
pub open spec fn fires(bytes: Seq<u8>, trigger: ActionTrigger) -> bool {
    action_trigger_handler::trigger_ok(bytes) && action_trigger_handler::trigger_in(bytes)
        == trigger
}

/// The camera controls as they are sent.
pub open spec fn control_of(c: CameraControlState, seq: u64) -> CameraControl {
    CameraControl {
        brightness_bits: fixed::f32_pattern(c.brightness as int) as u32,
        contrast_bits: fixed::f32_pattern(c.contrast as int) as u32,
        ev_bits: fixed::f32_pattern(c.ev as int) as u32,
        shutter_us: c.shutter_us,
        control_seq: seq,
    }
}

/// A message that sets the camera controls.
pub open spec fn controls(bytes: Seq<u8>, control: CameraControl) -> bool {
    camera_control_handler::control_ok(bytes) && camera_control_handler::control_in(bytes)
        == camera_control_handler::as_stored(control)
}

/// A frame that carries the held command.
pub open spec fn commands(bytes: Seq<u8>, h: HeldCommand, seq: u64, now_us: u64) -> bool {
    channel_b::frame_ok(bytes) && channel_b::frame_in(bytes) == (channel_b::FrameView {
        timestamp: now_us,
        seq,
        tick_id: 0,
        category: ChannelBCategory::Command,
        region_id: ALL_REGIONS,
        fields: h.sent().bytes(),
    })
}

/// A record of what was sent or received; this side never arbitrates.
pub open spec fn stored(category: Category, now_us: u64, payload: Seq<u8>) -> ActionView {
    ActionView::Store {
        category,
        capture_us: now_us,
        control_source: CONTROL_SOURCE_SENTINEL,
        payload,
    }
}

/// The text that is written into the picture.
pub open spec fn overlay_text(c: CameraControlState) -> Seq<char> {
    "brightness "@ + ui::setting_text(c.brightness) + "  contrast "@ + ui::setting_text(c.contrast)
        + "  EV "@ + ui::setting_text(c.ev) + "  shutter "@ + ui::shutter_text(c.shutter_us)
}

pub open spec fn codec_name(codec: Codec) -> Seq<char> {
    match codec {
        Codec::H265 => "H265"@,
        Codec::Av1 => "Av1"@,
        Codec::H264 => "H264"@,
    }
}

/// A camera's size, codec and frame rate.
pub open spec fn shape_text(c: profile::CameraView) -> Seq<char> {
    text::decimal(c.resolution_w as nat) + "x"@ + text::decimal(c.resolution_h as nat) + " "@
        + codec_name(c.codec) + " @"@ + text::decimal(c.max_fps as nat) + "fps"@
}

pub fn camera_shape(c: &CameraDescriptor) -> (out: String)
    ensures
        out@ == shape_text(c@),
{
    let mut out = String::new();
    push_decimal(&mut out, c.resolution_w as u64);
    proof {
        assert(out@ =~= text::decimal(c.resolution_w as nat));
    }
    out.append("x");
    push_decimal(&mut out, c.resolution_h as u64);
    out.append(" ");
    match c.codec {
        Codec::H265 => out.append("H265"),
        Codec::Av1 => out.append("Av1"),
        Codec::H264 => out.append("H264"),
    }
    out.append(" @");
    push_decimal(&mut out, c.max_fps as u64);
    out.append("fps");
    out
}

/// The log category of a frame.
pub open spec fn category_for(category: ChannelBCategory) -> Category {
    match category {
        ChannelBCategory::Command => Category::ChannelBCommand,
        ChannelBCategory::Telemetry => Category::ChannelBTelemetry,
        ChannelBCategory::Haptic => Category::ChannelBHaptic,
    }
}

pub fn recording_category_for(category: ChannelBCategory) -> (c: Category)
    ensures
        c == category_for(category),
{
    match category {
        ChannelBCategory::Command => Category::ChannelBCommand,
        ChannelBCategory::Telemetry => Category::ChannelBTelemetry,
        ChannelBCategory::Haptic => Category::ChannelBHaptic,
    }
}

/// The message that answers a description: everything it offers is taken.
pub open spec fn accepts(bytes: Seq<u8>, d: session_handler::DescribeView, cached: bool) -> bool {
    &&& session_handler::accept_ok(bytes)
    &&& session_handler::accept_in(bytes) == (session_handler::AcceptView {
        profile_hash: d.profile_hash,
        cached,
        selected_regions: Seq::new(
            d.profile.regions.len(),
            |i: int| d.profile.regions[i].region_id,
        ),
        selected_cameras: Seq::new(d.cameras.len(), |i: int| d.cameras[i].camera_id),
    })
    &&& session_handler::accept_tiers(bytes) == seq![(0u8, 2u8), (1u8, 2u8), (2u8, 2u8)]
}

impl Client {
    /// What is displayed as held is what is held, and it is within its ranges. As
    /// long as there is a connection, the phase displayed is the client's.
    pub open spec fn wf(self) -> bool {
        &&& self.video_rx.wf()
        &&& self.last_command.in_range()
        &&& self.camera_controls.in_range()
        &&& self.hud.held == self.last_command
        &&& self.hud.camera == self.camera_controls
        &&& self.hud.estopped == self.estopped
        &&& self.hud.phase == ConnPhase::Closed || self.hud.phase == shown_phase(self.phase)
    }

    /// The sequence numbers do not run out within one step.
    pub open spec fn has_room(self) -> bool {
        &&& self.channel_b_seq < u64::MAX
        &&& self.estop_seq < u64::MAX
        &&& self.next_trigger_seq < u64::MAX
        &&& self.next_camera_control_seq < u64::MAX
    }

    pub open spec fn holding(self, h: HeldCommand) -> Client {
        Client { last_command: h, hud: HudState { held: h, ..self.hud }, ..self }
    }

    pub open spec fn showing(self, c: CameraControlState) -> Client {
        Client { camera_controls: c, hud: HudState { camera: c, ..self.hud }, ..self }
    }

    pub open spec fn told(self, latched: bool) -> Client {
        Client { estopped: latched, hud: HudState { estopped: latched, ..self.hud }, ..self }
    }

    pub open spec fn next_trigger(self, action_id: u8) -> ActionTrigger {
        ActionTrigger { action_id, trigger_seq: (self.next_trigger_seq + 1) as u64 }
    }

    /// After an action was asked for: the robot is to stand still first.
    pub open spec fn triggered(self) -> Client {
        if self.phase == Phase::Operating {
            Client {
                next_trigger_seq: (self.next_trigger_seq + 1) as u64,
                ..self.holding(self.last_command.standing_still())
            }
        } else {
            self
        }
    }

    /// What an action asks for. `bytes` is the trigger.
    pub open spec fn trigger_actions(self, bytes: Seq<u8>, now_us: u64) -> Seq<ActionView> {
        if self.phase == Phase::Operating {
            seq![
                stored(Category::ActionTriggerC, now_us, bytes),
                ActionView::StreamSend { stream_id: ACTION_TRIGGER_STREAM_ID, bytes },
            ]
        } else {
            Seq::empty()
        }
    }

    pub open spec fn next_control(self) -> CameraControl {
        control_of(self.camera_controls, (self.next_camera_control_seq + 1) as u64)
    }

    /// After the camera controls were changed to `c` and sent.
    pub open spec fn camera_changed(self, c: CameraControlState) -> Client {
        Client {
            next_camera_control_seq: if self.phase == Phase::Operating {
                (self.next_camera_control_seq + 1) as u64
            } else {
                self.next_camera_control_seq
            },
            ..self.showing(c)
        }
    }

    /// What changed camera controls ask for: the picture's text, and, while the
    /// session operates, a message. `bytes` is that message.
    pub open spec fn camera_actions(
        self,
        c: CameraControlState,
        bytes: Seq<u8>,
        now_us: u64,
    ) -> Seq<ActionView> {
        (if self.overlay {
            seq![ActionView::ShowOverlay { text: overlay_text(c) }]
        } else {
            Seq::empty()
        }) + (if self.phase == Phase::Operating {
            seq![
                stored(Category::ActionTriggerC, now_us, bytes),
                ActionView::StreamSend { stream_id: CAMERA_CONTROL_STREAM_ID, bytes },
            ]
        } else {
            Seq::empty()
        })
    }

    pub open spec fn next_estop(self, latched: bool) -> EstopDatagram {
        EstopDatagram { latched, seq: (self.estop_seq + 1) as u64 }
    }

    /// A stop or a clear goes out twice: at once, and reliably.
    pub open spec fn estop_actions(self, latched: bool) -> Seq<ActionView> {
        let bytes = self.next_estop(latched).bytes();
        seq![
            ActionView::DatagramSend { bytes },
            ActionView::StreamSend { stream_id: ESTOP_STREAM_ID, bytes },
        ]
    }

    pub open spec fn recording_toggled(self, now: Instant) -> Client {
        let on = !self.hud.recording_active;
        Client {
            hud: HudState {
                recording_active: on,
                recording_started_at: if on {
                    Some(now)
                } else {
                    None
                },
                ..self.hud
            },
            ..self
        }
    }

    /// After an input.
    pub open spec fn applied(self, input: TeleopInput, now: Instant) -> Client {
        let h = self.last_command;
        match input {
            TeleopInput::Move { vx, vy } => Client {
                last_move_input_at: Some(now),
                ..self.holding(HeldCommand { vx, vy, ..h })
            },
            TeleopInput::Turn { turn } => Client {
                last_move_input_at: Some(now),
                ..self.holding(HeldCommand { turn, ..h })
            },
            TeleopInput::Action(_) => self.triggered(),
            TeleopInput::ArmNudge { dx, dz } => self.holding(h.arm_nudged(dx, dz)),
            TeleopInput::AttitudeNudge { axis, delta } => self.holding(
                h.attitude_nudged(axis, delta),
            ),
            TeleopInput::AttitudeReset => self.holding(h.level()),
            TeleopInput::NeutralPose => self.holding(h.neutral_pose()),
            TeleopInput::CameraNudge { param, delta } => self.camera_changed(
                self.camera_controls.nudged(param, delta),
            ),
            TeleopInput::CameraReset => self.camera_changed(CameraControlState::neutral()),
            TeleopInput::ClawNudge { delta } => self.holding(h.claw_nudged(delta)),
            TeleopInput::Estop => Client { estop_seq: (self.estop_seq + 1) as u64, ..self },
            TeleopInput::EstopClear => Client { estop_seq: (self.estop_seq + 1) as u64, ..self },
            TeleopInput::EstopToggle => Client { estop_seq: (self.estop_seq + 1) as u64, ..self },
            TeleopInput::ToggleRecording => self.recording_toggled(now),
            TeleopInput::SaveFrame => self,
            TeleopInput::Quit => self,
        }
    }

    /// Is `bytes` the message that an input leads to, if it leads to one?
    pub open spec fn says(self, input: TeleopInput, bytes: Seq<u8>) -> bool {
        match input {
            TeleopInput::Action(id) => fires(bytes, self.next_trigger(id)),
            TeleopInput::CameraNudge { param, delta } => controls(
                bytes,
                self.showing(self.camera_controls.nudged(param, delta)).next_control(),
            ),
            TeleopInput::CameraReset => controls(
                bytes,
                self.showing(CameraControlState::neutral()).next_control(),
            ),
            _ => true,
        }
    }

    /// What an input asks for, before the display is drawn again.
    pub open spec fn asked(self, input: TeleopInput, bytes: Seq<u8>, now_us: u64) -> Seq<
        ActionView,
    > {
        match input {
            TeleopInput::Action(_) => self.trigger_actions(bytes, now_us),
            TeleopInput::CameraNudge { param, delta } => self.camera_actions(
                self.camera_controls.nudged(param, delta),
                bytes,
                now_us,
            ),
            TeleopInput::CameraReset => self.camera_actions(
                CameraControlState::neutral(),
                bytes,
                now_us,
            ),
            TeleopInput::Estop => self.estop_actions(true),
            TeleopInput::EstopClear => self.estop_actions(false),
            TeleopInput::EstopToggle => self.estop_actions(!self.estopped),
            TeleopInput::ToggleRecording => recording_actions(!self.hud.recording_active),
            TeleopInput::SaveFrame => if self.video == Some(VideoBackend::Native) {
                seq![ActionView::SaveFrame]
            } else {
                Seq::empty()
            },
            _ => Seq::empty(),
        }
    }

    /// A session that has just begun.
    pub fn new(
        task_class: TaskClass,
        peer: String,
        tick_hz: u32,
        video: Option<VideoBackend>,
        overlay: bool,
        demo_action: Option<u8>,
        move_stale: Duration,
        now: Instant,
    ) -> (c: Self)
        ensures
            c.wf(),
            c.task_class == task_class,
            c.phase == Phase::AwaitingHello,
            c.hud.is_fresh(peer@, tick_hz, now),
            c.session_info is None,
            c.video_rx.pending() == channel_a::Pending::empty(),
            c.video == video && c.overlay == overlay,
            c.channel_b_seq == 0 && c.estop_seq == 0 && c.next_trigger_seq == 0
                && c.next_camera_control_seq == 0,
            c.last_command == HeldCommand::neutral(),
            c.camera_controls == CameraControlState::neutral(),
            !c.estopped,
            c.demo_action == demo_action && c.move_stale == move_stale,
            c.last_move_input_at is None && c.last_saved_session is None,
    {
        Client {
            task_class,
            phase: Phase::AwaitingHello,
            session_info: None,
            video_rx: ChannelAReceiver::new(),
            video,
            overlay,
            channel_b_seq: 0,
            estop_seq: 0,
            next_trigger_seq: 0,
            next_camera_control_seq: 0,
            camera_controls: CameraControlState::new(),
            last_command: HeldCommand::new(),
            estopped: false,
            hud: HudState::new(peer, tick_hz, now),
            demo_action,
            last_move_input_at: None,
            move_stale,
            last_saved_session: None,
        }
    }

    /// The greeting, for as long as it was not answered.
    pub fn hello_due(&self, can_send: bool) -> (r: Option<Vec<u8>>)
        ensures
            match r {
                Some(bytes) => can_send && self.phase == Phase::AwaitingHello
                    && hello_handler::hello_ok(bytes@) && hello_handler::hello_in(bytes@)
                    == hello::local_offer(self.task_class),
                None => !can_send || self.phase != Phase::AwaitingHello,
            },
    {
        if can_send && self.phase == Phase::AwaitingHello {
            let caps = local_hello_capabilities(self.task_class);
            Some(encode_hello(&caps))
        } else {
            None
        }
    }

    /// Is this resumption ticket another one than was saved last?
    pub fn ticket_changed(&mut self, session: &[u8]) -> (changed: bool)
        ensures
            changed == !(old(self).last_saved_session matches Some(v) && v@ == session@),
            final(self).last_saved_session matches Some(v) && v@ == session@,
            *final(self) == (Client {
                last_saved_session: final(self).last_saved_session,
                ..*old(self)
            }),
    {
        let same: bool = match &self.last_saved_session {
            Some(last) => same_bytes(last.as_slice(), session),
            None => false,
        };
        if !same {
            self.last_saved_session = Some(action::copied(session));
        }
        !same
    }

    /// Sends an action. A velocity that is still held would set the robot in
    /// motion again at once, so it is given up first.
    pub fn send_action_trigger(&mut self, action_id: u8, now_us: u64) -> (actions: Vec<Action>)
        requires
            old(self).wf(),
            old(self).has_room(),
        ensures
            final(self).wf(),
            *final(self) == old(self).triggered(),
            exists|bytes: Seq<u8>|
                #[trigger] fires(bytes, old(self).next_trigger(action_id)) && action::views(
                    actions@,
                ) == old(self).trigger_actions(bytes, now_us),
    {
        let trigger = ActionTrigger { action_id, trigger_seq: self.next_trigger_seq + 1 };
        let bytes: Vec<u8> = encode_action_trigger(&trigger);
        let ghost sent = bytes@;
        let mut actions = nothing();
        if self.phase == Phase::Operating {
            self.last_command.stop_moving();
            self.hud.held = self.last_command;
            self.next_trigger_seq = trigger.trigger_seq;
            actions = store_and_send(
                Category::ActionTriggerC,
                ACTION_TRIGGER_STREAM_ID,
                bytes,
                now_us,
            );
        }
        proof {
            assert(fires(sent, old(self).next_trigger(action_id)));
            assert(action::views(actions@) =~= old(self).trigger_actions(sent, now_us));
        }
        actions
    }

    /// An action was taken for sending.
    pub fn on_action_sent(&mut self, action_id: u8, now: Instant)
        ensures
            old(self).wf() ==> final(self).wf(),
            *final(self) == (Client {
                hud: HudState {
                    stand: if action_id == old(self).hud.stand.id {
                        ui::sent_slot(old(self).hud.stand, old(self).channel_b_seq, now)
                    } else {
                        old(self).hud.stand
                    },
                    sit: if action_id != old(self).hud.stand.id && action_id == old(
                        self,
                    ).hud.sit.id {
                        ui::sent_slot(old(self).hud.sit, old(self).channel_b_seq, now)
                    } else {
                        old(self).hud.sit
                    },
                    ..old(self).hud
                },
                ..*old(self)
            }),
    {
        let tick: u64 = self.channel_b_seq;
        self.hud.record_action_sent(action_id, tick, now);
    }

    /// Shows the camera controls: on the display, and in the picture.
    pub fn sync_camera_hud_and_overlay(&mut self) -> (actions: Vec<Action>)
        ensures
            *final(self) == old(self).showing(old(self).camera_controls),
            action::views(actions@) == if old(self).overlay {
                seq![ActionView::ShowOverlay { text: overlay_text(old(self).camera_controls) }]
            } else {
                Seq::empty()
            },
    {
        self.hud.camera = self.camera_controls;
        if !self.overlay {
            return nothing();
        }
        let c = self.camera_controls;
        let mut text = String::from_str("brightness ");
        push_setting(&mut text, c.brightness);
        text.append("  contrast ");
        push_setting(&mut text, c.contrast);
        text.append("  EV ");
        push_setting(&mut text, c.ev);
        text.append("  shutter ");
        push_shutter(&mut text, c.shutter_us);
        just(Action::ShowOverlay { text })
    }

    /// Sends the camera controls.
    pub fn send_camera_control(&mut self, now_us: u64) -> (actions: Vec<Action>)
        requires
            old(self).wf(),
            old(self).has_room(),
        ensures
            final(self).wf(),
            *final(self) == old(self).camera_changed(old(self).camera_controls),
            exists|bytes: Seq<u8>|
                #[trigger] controls(bytes, old(self).next_control()) && action::views(actions@)
                    == if old(self).phase == Phase::Operating {
                    seq![
                        stored(Category::ActionTriggerC, now_us, bytes),
                        ActionView::StreamSend { stream_id: CAMERA_CONTROL_STREAM_ID, bytes },
                    ]
                } else {
                    Seq::empty()
                },
    {
        let (brightness_bits, contrast_bits, ev_bits) = self.camera_controls.patterns();
        let control = CameraControl {
            brightness_bits,
            contrast_bits,
            ev_bits,
            shutter_us: self.camera_controls.shutter_us,
            control_seq: self.next_camera_control_seq + 1,
        };
        proof {
            assert(control == self.next_control());
        }
        let bytes: Vec<u8> = encode_camera_control(&control);
        let ghost sent = bytes@;
        proof {
            assert(controls(sent, old(self).next_control()));
        }
        if self.phase == Phase::Operating {
            self.next_camera_control_seq = control.control_seq;
            store_and_send(Category::ActionTriggerC, CAMERA_CONTROL_STREAM_ID, bytes, now_us)
        } else {
            nothing()
        }
    }

    fn change_camera(&mut self, c: CameraControlState, now_us: u64) -> (actions: Vec<Action>)
        requires
            old(self).wf(),
            old(self).has_room(),
            c.in_range(),
        ensures
            final(self).wf(),
            *final(self) == old(self).camera_changed(c),
            exists|bytes: Seq<u8>|
                #[trigger] controls(bytes, old(self).showing(c).next_control()) && action::views(
                    actions@,
                ) == old(self).camera_actions(c, bytes, now_us),
    {
        self.camera_controls = c;
        let mut actions = self.sync_camera_hud_and_overlay();
        let ghost mid = *self;
        let mut more = self.send_camera_control(now_us);
        proof {
            assert(mid == old(self).showing(c));
            let bytes = choose|bytes: Seq<u8>| #[trigger]
                controls(bytes, mid.next_control()) && action::views(more@) == if mid.phase
                    == Phase::Operating {
                    seq![
                        stored(Category::ActionTriggerC, now_us, bytes),
                        ActionView::StreamSend { stream_id: CAMERA_CONTROL_STREAM_ID, bytes },
                    ]
                } else {
                    Seq::empty()
                };
            assert(controls(bytes, old(self).showing(c).next_control()));
        }
        append(&mut actions, &mut more);
        actions
    }

    fn send_estop(&mut self, latched: bool) -> (actions: Vec<Action>)
        requires
            old(self).has_room(),
        ensures
            *final(self) == (Client { estop_seq: (old(self).estop_seq + 1) as u64, ..*old(self) }),
            action::views(actions@) == old(self).estop_actions(latched),
    {
        self.estop_seq = self.estop_seq + 1;
        let d = EstopDatagram { latched, seq: self.estop_seq };
        let mut actions = just(Action::DatagramSend { bytes: d.encode() });
        ask(&mut actions, Action::StreamSend { stream_id: ESTOP_STREAM_ID, bytes: d.encode() });
        proof {
            assert(action::views(actions@) =~= old(self).estop_actions(latched));
        }
        actions
    }

    fn toggle_recording(&mut self, now: Instant) -> (actions: Vec<Action>)
        ensures
            *final(self) == old(self).recording_toggled(now),
            action::views(actions@) == recording_actions(!old(self).hud.recording_active),
    {
        let active: bool = !self.hud.recording_active;
        self.hud.recording_active = active;
        self.hud.recording_started_at = if active {
            Some(now)
        } else {
            None
        };
        let mut actions = just(Action::SetRecording { category: Category::VideoA, active });
        ask(&mut actions, Action::SetRecording { category: Category::ChannelBCommand, active });
        ask(&mut actions, Action::SetRecording { category: Category::ChannelBTelemetry, active });
        ask(&mut actions, Action::SetRecording { category: Category::KeyPress, active });
        proof {
            assert(action::views(actions@) =~= recording_actions(active));
        }
        actions
    }

    /// Inputs that only change what is held.
    fn hold_input(&mut self, input: TeleopInput, now: Instant)
        requires
            old(self).wf(),
            holds_only(input),
        ensures
            final(self).wf(),
            *final(self) == old(self).applied(input, now),
    {
        match input {
            TeleopInput::Move { vx, vy } => {
                self.last_command.vx = vx;
                self.last_command.vy = vy;
                self.last_move_input_at = Some(now);
            },
            TeleopInput::Turn { turn } => {
                self.last_command.turn = turn;
                self.last_move_input_at = Some(now);
            },
            TeleopInput::ArmNudge { dx, dz } => self.last_command.nudge_arm(dx, dz),
            TeleopInput::AttitudeNudge { axis, delta } => self.last_command.nudge_attitude(
                axis,
                delta,
            ),
            TeleopInput::AttitudeReset => self.last_command.reset_attitude(),
            TeleopInput::NeutralPose => self.last_command.reset_pose(),
            TeleopInput::ClawNudge { delta } => self.last_command.nudge_claw(delta),
            _ => {},
        }
        self.hud.held = self.last_command;
    }

    /// An input of the operator.
    pub fn on_input(&mut self, input: TeleopInput, now: Instant, now_us: u64) -> (actions: Vec<
        Action,
    >)
        requires
            old(self).wf(),
            old(self).has_room(),
        ensures
            final(self).wf(),
            *final(self) == old(self).applied(input, now),
            exists|bytes: Seq<u8>|
                #[trigger] old(self).says(input, bytes) && action::views(actions@) == old(
                    self,
                ).asked(input, bytes, now_us).push(ActionView::Render),
    {
        let ghost before = *self;
        let ghost mut bytes: Seq<u8> = Seq::empty();
        let mut actions: Vec<Action>;
        match input {
            TeleopInput::Action(id) => {
                actions = self.send_action_trigger(id, now_us);
                proof {
                    bytes = choose|b: Seq<u8>| #[trigger]
                        fires(b, before.next_trigger(id)) && action::views(actions@)
                            == before.trigger_actions(b, now_us);
                }
            },
            TeleopInput::CameraNudge { param, delta } => {
                let mut c = self.camera_controls;
                c.nudge(param, delta);
                actions = self.change_camera(c, now_us);
                proof {
                    bytes = choose|b: Seq<u8>| #[trigger]
                        controls(b, before.showing(c).next_control()) && action::views(actions@)
                            == before.camera_actions(c, b, now_us);
                }
            },
            TeleopInput::CameraReset => {
                let c = CameraControlState::new();
                actions = self.change_camera(c, now_us);
                proof {
                    bytes = choose|b: Seq<u8>| #[trigger]
                        controls(b, before.showing(c).next_control()) && action::views(actions@)
                            == before.camera_actions(c, b, now_us);
                }
            },
            TeleopInput::Estop => {
                actions = self.send_estop(true);
            },
            TeleopInput::EstopClear => {
                actions = self.send_estop(false);
            },
            TeleopInput::EstopToggle => {
                let latched: bool = !self.estopped;
                actions = self.send_estop(latched);
            },
            TeleopInput::ToggleRecording => {
                actions = self.toggle_recording(now);
            },
            TeleopInput::SaveFrame => {
                actions = if self.video == Some(VideoBackend::Native) {
                    just(Action::SaveFrame)
                } else {
                    nothing()
                };
            },
            TeleopInput::Quit => {
                actions = nothing();
            },
            _ => {
                self.hold_input(input, now);
                actions = nothing();
            },
        }
        proof {
            assert(before.says(input, bytes));
            assert(action::views(actions@) == before.asked(input, bytes, now_us));
        }
        ask(&mut actions, Action::Render);
        actions
    }

    /// An input, wherever it came from: it is logged, and it is carried out. The
    /// flag says that the operator quits.
    pub fn dispatch_teleop_input(&mut self, input: TeleopInput, now: Instant, now_us: u64) -> (r: (
        Vec<Action>,
        bool,
    ))
        requires
            old(self).wf(),
            old(self).has_room(),
        ensures
            final(self).wf(),
            *final(self) == old(self).applied(input, now),
            r.1 == (input == TeleopInput::Quit),
            exists|bytes: Seq<u8>|
                #[trigger] old(self).says(input, bytes) && action::views(r.0@) == seq![
                    key_record(input, now_us),
                ] + if input == TeleopInput::Quit {
                    seq![ActionView::Close { reason: CloseReason::OperatorQuit }]
                } else {
                    old(self).asked(input, bytes, now_us).push(ActionView::Render)
                },
    {
        let line = log_text(input);
        let record = Record {
            capture_us: now_us,
            control_source: CONTROL_SOURCE_SENTINEL,
            payload: line.as_str().as_bytes_vec(),
        };
        let mut actions = just(Action::Store { category: Category::KeyPress, record });
        if input == TeleopInput::Quit {
            ask(&mut actions, Action::Close { reason: CloseReason::OperatorQuit });
            proof {
                assert(old(self).says(input, Seq::empty()));
                assert(action::views(actions@) =~= seq![key_record(input, now_us)] + seq![
                    ActionView::Close { reason: CloseReason::OperatorQuit },
                ]);
            }
            return (actions, true);
        }
        let mut more = self.on_input(input, now, now_us);
        append(&mut actions, &mut more);
        (actions, false)
    }
}

/// The log entry of an input.
pub open spec fn key_record(input: TeleopInput, now_us: u64) -> ActionView {
    stored(Category::KeyPress, now_us, vstd::utf8::encode_utf8(input::log_line(input)))
}

/// Does an input only change the held command?
pub open spec fn holds_only(input: TeleopInput) -> bool {
    match input {
        TeleopInput::Move { .. } => true,
        TeleopInput::Turn { .. } => true,
        TeleopInput::ArmNudge { .. } => true,
        TeleopInput::AttitudeNudge { .. } => true,
        TeleopInput::AttitudeReset => true,
        TeleopInput::NeutralPose => true,
        TeleopInput::ClawNudge { .. } => true,
        _ => false,
    }
}

/// What is recorded when the operator switches recording on.
pub open spec fn recording_actions(active: bool) -> Seq<ActionView> {
    seq![
        ActionView::SetRecording { category: Category::VideoA, active },
        ActionView::SetRecording { category: Category::ChannelBCommand, active },
        ActionView::SetRecording { category: Category::ChannelBTelemetry, active },
        ActionView::SetRecording { category: Category::KeyPress, active },
    ]
}

fn store_and_send(category: Category, stream_id: u64, bytes: Vec<u8>, now_us: u64) -> (actions: Vec<
    Action,
>)
    ensures
        action::views(actions@) == seq![
            stored(category, now_us, bytes@),
            ActionView::StreamSend { stream_id, bytes: bytes@ },
        ],
{
    let record = Record {
        capture_us: now_us,
        control_source: CONTROL_SOURCE_SENTINEL,
        payload: action::copied(bytes.as_slice()),
    };
    let mut actions = just(Action::Store { category, record });
    ask(&mut actions, Action::StreamSend { stream_id, bytes });
    proof {
        assert(action::views(actions@) =~= seq![
            stored(category, now_us, bytes@),
            ActionView::StreamSend { stream_id, bytes: bytes@ },
        ]);
    }
    actions
}

/// Every trigger is later than the ones before, so the robot does not take it
/// for a repetition.
pub proof fn lemma_triggers_increase(c: Client, first: u8, second: u8)
    requires
        c.phase == Phase::Operating,
        c.next_trigger_seq < u64::MAX - 1,
    ensures
        action_trigger::is_later(
            Some(c.next_trigger(first).trigger_seq),
            c.triggered().next_trigger(second).trigger_seq,
        ),
{
}

/// An action never goes out together with a movement: what is held stands
/// still from then on.
pub proof fn lemma_action_stops_movement(c: Client, id: u8, now: Instant)
    requires
        c.phase == Phase::Operating,
    ensures
        c.applied(TeleopInput::Action(id), now).last_command == c.last_command.standing_still(),
{
}

/// A stop can be asked for in every phase, and the toggle asks for what is not
/// the case.
pub proof fn lemma_stop_always_goes_out(c: Client, bytes: Seq<u8>, now_us: u64)
    ensures
        c.asked(TeleopInput::Estop, bytes, now_us) == c.estop_actions(true),
        c.asked(TeleopInput::EstopToggle, bytes, now_us) == c.asked(
            if c.estopped {
                TeleopInput::EstopClear
            } else {
                TeleopInput::Estop
            },
            bytes,
            now_us,
        ),
{
}

/// Recording that is switched twice is as it was.
pub proof fn lemma_toggle_twice(c: Client, t1: Instant, t2: Instant)
    ensures
        c.recording_toggled(t1).recording_toggled(t2).hud.recording_active
            == c.hud.recording_active,
{
}

/// What the movement keys do: the velocities that were asked for are held from
/// then on, forwards and sideways by the one key and the turn by the other, each
/// without touching the rest; and the time of the key is noted.
pub proof fn lemma_movement_keys(c: Client, vx: i64, vy: i64, turn: i64, now: Instant)
    ensures
        ({
            let moved = c.applied(TeleopInput::Move { vx, vy }, now);
            let turned = c.applied(TeleopInput::Turn { turn }, now);
            let h = c.last_command;
            &&& moved.last_command == (HeldCommand { vx, vy, ..h })
            &&& turned.last_command == (HeldCommand { turn, ..h })
            &&& moved.hud.held == moved.last_command
            &&& turned.hud.held == turned.last_command
            &&& moved.last_move_input_at == Some(now)
            &&& turned.last_move_input_at == Some(now)
            &&& moved.camera_controls == c.camera_controls
            &&& moved.phase == c.phase
            &&& moved.estop_seq == c.estop_seq
            &&& moved.next_trigger_seq == c.next_trigger_seq
        }),
{
}

/// What the arm keys do, as long as the arm may go there: it moves by just what
/// was asked for, what is displayed follows, and movement is not refreshed.
pub proof fn lemma_arm_keys(c: Client, dx: i16, dz: i16, delta: i8, now: Instant)
    requires
        c.last_command.in_range(),
        -80 <= c.last_command.arm_x + dx <= 155,
        -95 <= c.last_command.arm_z + dz <= 155,
        c.last_command.arm_x + dx >= crate::client_state::safe_x(c.last_command.arm_z + dz),
        0 <= c.last_command.claw + delta <= 255,
    ensures
        ({
            let reached = c.applied(TeleopInput::ArmNudge { dx, dz }, now);
            let gripped = c.applied(TeleopInput::ClawNudge { delta }, now);
            let h = c.last_command;
            &&& reached.last_command.arm_x == h.arm_x + dx
            &&& reached.last_command.arm_z == h.arm_z + dz
            &&& reached.last_command == (HeldCommand {
                arm_x: reached.last_command.arm_x,
                arm_z: reached.last_command.arm_z,
                ..h
            })
            &&& reached.hud.held == reached.last_command
            &&& reached.last_move_input_at == c.last_move_input_at
            &&& gripped.last_command.claw == h.claw + delta
            &&& gripped.last_command == (HeldCommand { claw: gripped.last_command.claw, ..h })
            &&& gripped.hud.held == gripped.last_command
        }),
{
    crate::client_state::lemma_arm_goes_where_nudged(c.last_command, dx, dz);
    crate::client_state::lemma_claw_goes_where_nudged(c.last_command, delta);
}

/// What the attitude keys do, as long as the body may lean that far: it leans
/// about the one axis by just what was asked for.
pub proof fn lemma_attitude_keys(c: Client, delta: i64, now: Instant)
    requires
        c.last_command.in_range(),
    ensures
        ({
            let h = c.last_command;
            let rolled = c.applied(
                TeleopInput::AttitudeNudge { axis: input::AttitudeAxis::Roll, delta },
                now,
            ).last_command;
            let pitched = c.applied(
                TeleopInput::AttitudeNudge { axis: input::AttitudeAxis::Pitch, delta },
                now,
            ).last_command;
            let yawed = c.applied(
                TeleopInput::AttitudeNudge { axis: input::AttitudeAxis::Yaw, delta },
                now,
            ).last_command;
            &&& -20_000_000 <= h.attitude_r + delta <= 20_000_000 ==> rolled == (HeldCommand {
                attitude_r: (h.attitude_r + delta) as i64,
                ..h
            })
            &&& -10_000_000 <= h.attitude_p + delta <= 10_000_000 ==> pitched == (HeldCommand {
                attitude_p: (h.attitude_p + delta) as i64,
                ..h
            })
            &&& -12_000_000 <= h.attitude_y + delta <= 12_000_000 ==> yawed == (HeldCommand {
                attitude_y: (h.attitude_y + delta) as i64,
                ..h
            })
            &&& c.applied(TeleopInput::AttitudeReset, now).last_command == (HeldCommand {
                attitude_r: 0,
                attitude_p: 0,
                attitude_y: 0,
                ..h
            })
            &&& c.applied(TeleopInput::NeutralPose, now).last_command == (HeldCommand {
                attitude_r: 0,
                attitude_p: 0,
                attitude_y: 0,
                arm_x: 0,
                arm_z: 0,
                claw: 128,
                ..h
            })
        }),
{
}

/// What the stop keys do, in every phase: the message goes out as a datagram and
/// on the fifth stream, under the next number, and says stop, clear, or what is
/// not the case. What is displayed waits for the robot's own word.
pub proof fn lemma_stop_keys(c: Client, bytes: Seq<u8>, now: Instant, now_us: u64)
    requires
        c.has_room(),
    ensures
        ({
            let seq = (c.estop_seq + 1) as u64;
            let stop = (EstopDatagram { latched: true, seq }).bytes();
            let clear = (EstopDatagram { latched: false, seq }).bytes();
            &&& c.asked(TeleopInput::Estop, bytes, now_us) == seq![
                ActionView::DatagramSend { bytes: stop },
                ActionView::StreamSend { stream_id: 5, bytes: stop },
            ]
            &&& c.asked(TeleopInput::EstopClear, bytes, now_us) == seq![
                ActionView::DatagramSend { bytes: clear },
                ActionView::StreamSend { stream_id: 5, bytes: clear },
            ]
            &&& c.estopped ==> c.asked(TeleopInput::EstopToggle, bytes, now_us) == seq![
                ActionView::DatagramSend { bytes: clear },
                ActionView::StreamSend { stream_id: 5, bytes: clear },
            ]
            &&& !c.estopped ==> c.asked(TeleopInput::EstopToggle, bytes, now_us) == seq![
                ActionView::DatagramSend { bytes: stop },
                ActionView::StreamSend { stream_id: 5, bytes: stop },
            ]
            &&& c.applied(TeleopInput::Estop, now) == (Client { estop_seq: seq, ..c })
            &&& c.applied(TeleopInput::EstopClear, now) == (Client { estop_seq: seq, ..c })
            &&& c.applied(TeleopInput::EstopToggle, now) == (Client { estop_seq: seq, ..c })
        }),
{
}

/// What an action key does while the session operates: the trigger for that very
/// action goes out on the fourth stream under the next number, after it was
/// logged, and movement is given up. Before the session operates it does
/// nothing.
pub proof fn lemma_action_keys(c: Client, id: u8, bytes: Seq<u8>, now: Instant, now_us: u64)
    requires
        c.has_room(),
        c.says(TeleopInput::Action(id), bytes),
    ensures
        ({
            let next = c.applied(TeleopInput::Action(id), now);
            let asked = c.asked(TeleopInput::Action(id), bytes, now_us);
            let trigger = action_trigger_handler::trigger_in(bytes);
            &&& action_trigger_handler::trigger_ok(bytes)
            &&& trigger.action_id == id
            &&& trigger.trigger_seq == c.next_trigger_seq + 1
            &&& c.phase == Phase::Operating ==> {
                &&& asked == seq![
                    ActionView::Store {
                        category: Category::ActionTriggerC,
                        capture_us: now_us,
                        control_source: 0xFF,
                        payload: bytes,
                    },
                    ActionView::StreamSend { stream_id: 4, bytes },
                ]
                &&& next.next_trigger_seq == c.next_trigger_seq + 1
                &&& next.last_command == (HeldCommand { vx: 0, vy: 0, turn: 0, ..c.last_command })
                &&& next.hud.held == next.last_command
            }
            &&& c.phase != Phase::Operating ==> asked.len() == 0 && next == c
        }),
{
}

/// What the camera keys do: the setting is held and displayed at once; while the
/// session operates all four go out on the eighth stream under the next number,
/// after they were logged; and the picture's text follows where there is one.
pub proof fn lemma_camera_keys(
    c: Client,
    param: input::CameraParam,
    delta: i64,
    bytes: Seq<u8>,
    now: Instant,
    now_us: u64,
)
    requires
        c.has_room(),
        c.camera_controls.in_range(),
        c.says(TeleopInput::CameraNudge { param, delta }, bytes),
    ensures
        ({
            let key = TeleopInput::CameraNudge { param, delta };
            let next = c.applied(key, now);
            let asked = c.asked(key, bytes, now_us);
            let held = next.camera_controls;
            let sent = camera_control_handler::control_in(bytes);
            let n = asked.len() as int;
            &&& next.hud.camera == held
            &&& next.last_command == c.last_command
            &&& sent == camera_control_handler::as_stored(
                CameraControl {
                    brightness_bits: fixed::f32_pattern(held.brightness as int) as u32,
                    contrast_bits: fixed::f32_pattern(held.contrast as int) as u32,
                    ev_bits: fixed::f32_pattern(held.ev as int) as u32,
                    shutter_us: held.shutter_us,
                    control_seq: (c.next_camera_control_seq + 1) as u64,
                },
            )
            &&& param is Brightness && -1_000_000 <= c.camera_controls.brightness + delta
                <= 1_000_000 ==> held.brightness == c.camera_controls.brightness + delta
            &&& param is Contrast && 0 <= c.camera_controls.contrast + delta <= 2_000_000
                ==> held.contrast == c.camera_controls.contrast + delta
            &&& param is Ev && -4_000_000 <= c.camera_controls.ev + delta <= 4_000_000 ==> held.ev
                == c.camera_controls.ev + delta
            &&& c.phase == Phase::Operating ==> {
                &&& next.next_camera_control_seq == c.next_camera_control_seq + 1
                &&& n >= 2
                &&& asked[n - 2] == ActionView::Store {
                    category: Category::ActionTriggerC,
                    capture_us: now_us,
                    control_source: 0xFF,
                    payload: bytes,
                }
                &&& asked[n - 1] == ActionView::StreamSend { stream_id: 8, bytes }
            }
            &&& c.phase != Phase::Operating ==> next.next_camera_control_seq
                == c.next_camera_control_seq && n <= 1
            &&& c.overlay ==> n >= 1 && asked[0] is ShowOverlay
        }),
{
}

/// What the recording key does: it starts or stops the log of the video, of
/// commands, of telemetry and of keys, all four together, and notes when a log
/// was started. What the keys for a picture and for leaving do: a picture is
/// saved where the library shows the video itself, and nothing else changes.
pub proof fn lemma_recording_key(c: Client, bytes: Seq<u8>, now: Instant, now_us: u64)
    ensures
        ({
            let next = c.applied(TeleopInput::ToggleRecording, now);
            let asked = c.asked(TeleopInput::ToggleRecording, bytes, now_us);
            let on = !c.hud.recording_active;
            &&& next.hud.recording_active == on
            &&& on ==> next.hud.recording_started_at == Some(now)
            &&& !on ==> next.hud.recording_started_at is None
            &&& next.last_command == c.last_command
            &&& asked.len() == 4
            &&& asked[0] == ActionView::SetRecording { category: Category::VideoA, active: on }
            &&& asked[1] == ActionView::SetRecording {
                category: Category::ChannelBCommand,
                active: on,
            }
            &&& asked[2] == ActionView::SetRecording {
                category: Category::ChannelBTelemetry,
                active: on,
            }
            &&& asked[3] == ActionView::SetRecording { category: Category::KeyPress, active: on }
            &&& c.applied(TeleopInput::SaveFrame, now) == c
            &&& c.applied(TeleopInput::Quit, now) == c
            &&& c.video == Some(VideoBackend::Native) ==> c.asked(
                TeleopInput::SaveFrame,
                bytes,
                now_us,
            ) == seq![ActionView::SaveFrame]
            &&& c.video != Some(VideoBackend::Native) ==> c.asked(
                TeleopInput::SaveFrame,
                bytes,
                now_us,
            ).len() == 0
        }),
{
}

/// Each kind of frame is logged under its own category.
pub proof fn lemma_frames_are_logged_apart()
    ensures
        category_for(ChannelBCategory::Command) == Category::ChannelBCommand,
        category_for(ChannelBCategory::Telemetry) == Category::ChannelBTelemetry,
        category_for(ChannelBCategory::Haptic) == Category::ChannelBHaptic,
{
}

/// What is sent with a tick is the held command, as a command frame of the whole
/// robot, under the tick's number and time.
pub proof fn lemma_command_frame(bytes: Seq<u8>, h: HeldCommand, seq: u64, now_us: u64)
    requires
        commands(bytes, h, seq, now_us),
    ensures
        channel_b::frame_ok(bytes),
        channel_b::frame_in(bytes).timestamp == now_us,
        channel_b::frame_in(bytes).seq == seq,
        channel_b::frame_in(bytes).category == ChannelBCategory::Command,
        channel_b::frame_in(bytes).region_id == 0xFF,
        channel_b::frame_in(bytes).fields == h.sent().bytes(),
{
}

} // verus!
