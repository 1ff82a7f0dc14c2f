//! The robot's side of a session: what it does with what it receives, with the
//! passing of time, and with what its driver reports.

use vstd::prelude::*;
use crate::action;
use crate::action::{append, ask, copied, nothing, Action, ActionView, CloseReason};
use crate::action_trigger;
use crate::action_trigger::{ActionTrigger, TriggerDedup, ACTION_TRIGGER_STREAM_ID};
use crate::action_trigger_handler;
use crate::action_trigger_handler::decode_action_trigger;
use crate::bridge::{BridgeCommand, BridgeEvent, SupervisorEvent};
use crate::camera_control::{CameraControl, CameraControlDedup, CAMERA_CONTROL_STREAM_ID};
use crate::camera_control_handler;
use crate::camera_control_handler::decode_camera_control;
use crate::capture;
use crate::capture::admit_controls;
use crate::channel_b;
use crate::channel_b::{
    decode_channel_b_frame, encode_channel_b_frame, ChannelBCategory, ChannelBFrameData,
    TelemetryData, TeleopCommand, ALL_REGIONS,
};
use crate::datagram;
use crate::datagram::{DATAGRAM_TAG_CHANNEL_A, DATAGRAM_TAG_CHANNEL_B};
use crate::estop::{EstopDatagram, ESTOP_DATAGRAM_MAGIC, ESTOP_STREAM_ID};
use crate::fb::MAX_BUFFER;
use crate::hello;
use crate::hello::{local_hello_capabilities, negotiate};
use crate::hello_handler;
use crate::hello_handler::{decode_hello, encode_hello, DecodeError};
use crate::input::AttitudeAxis;
use crate::profile;
use crate::profile::{CameraDescriptor, RobotProfile};
use crate::recorder::{Category, Record};
use crate::recording;
use crate::recording::{control_source_byte, CONTROL_SOURCE_SENTINEL};
use crate::safety::task;
use crate::safety::{ControlSource, SafetyTask, TaskClass};
use crate::session_handler;
use crate::session_handler::{decode_session_accept, encode_session_describe};
use crate::time::{Duration, Instant};
use crate::video;
use crate::video::chunk_nal;

verus! {

/// How far the session has come.
#[derive(Debug, Clone, Copy, PartialEq, Eq, Structural)]
pub enum Phase {
    AwaitingHello,
    AwaitingSessionAccept,
    Operating,
}

/// The driver is asked for telemetry once in this many ticks.
pub const TELEMETRY_QUERY_EVERY_N_TICKS: u64 = 50;

pub const STAND_ACTION_ID: u8 = 2;

pub const SIT_ACTION_ID: u8 = 12;

/// While the robot stands up or sits down, movement is withheld this long.
pub const ACTION_SETTLE_MS: u64 = 2500;

/// One session.
pub struct Session {
    task_class: TaskClass,
    robot_id: String,
    profile: RobotProfile,
    cameras: Vec<CameraDescriptor>,
    safety: SafetyTask,
    has_camera: bool,
    camera_control_dedup: CameraControlDedup,
    trigger_dedup: TriggerDedup,
    phase: Phase,
    channel_b_seq: u64,
    estop_seq: u64,
    hello_sent: bool,
    session_describe_sent: bool,
    estop_stream_primed: bool,
    last_reported_estop_latched: Option<bool>,
    bridge_estop_active: bool,
    tick_count: u64,
    latest_telemetry: Option<TelemetryData>,
    action_settle_until: Option<Instant>,
    sitting: bool,
}

/// A session as a mathematical value.
pub struct SessionView {
    pub task_class: TaskClass,
    pub robot_id: Seq<char>,
    pub profile: RobotProfile,
    pub cameras: Seq<CameraDescriptor>,
    pub safety: task::TaskView,
    pub has_camera: bool,
    pub last_control: Option<u64>,
    pub last_trigger: Option<u64>,
    pub phase: Phase,
    pub channel_b_seq: u64,
    pub estop_seq: u64,
    pub hello_sent: bool,
    pub describe_sent: bool,
    pub estop_primed: bool,
    pub reported_latched: Option<bool>,
    pub driver_stopped: bool,
    pub tick_count: u64,
    /// The newest telemetry, as it is sent.
    pub telemetry: Option<Seq<u8>>,
    pub settle_until: Option<Instant>,
    pub sitting: bool,
}

impl View for Session {
    type V = SessionView;

    closed spec fn view(&self) -> SessionView {
        SessionView {
            task_class: self.task_class,
            robot_id: self.robot_id@,
            profile: self.profile,
            cameras: self.cameras@,
            safety: self.safety@,
            has_camera: self.has_camera,
            last_control: self.camera_control_dedup.last(),
            last_trigger: self.trigger_dedup.last(),
            phase: self.phase,
            channel_b_seq: self.channel_b_seq,
            estop_seq: self.estop_seq,
            hello_sent: self.hello_sent,
            describe_sent: self.session_describe_sent,
            estop_primed: self.estop_stream_primed,
            reported_latched: self.last_reported_estop_latched,
            driver_stopped: self.bridge_estop_active,
            tick_count: self.tick_count,
            telemetry: match self.latest_telemetry {
                Some(t) => Some(t.bytes()),
                None => None,
            },
            settle_until: self.action_settle_until,
            sitting: self.sitting,
        }
    }
}

/// Commands to the driver, in order.
pub open spec fn drives(commands: Seq<BridgeCommand>) -> Seq<ActionView> {
    Seq::new(commands.len(), |i: int| ActionView::Drive(commands[i]))
}

/// A message that describes the robot.
pub open spec fn describes(bytes: Seq<u8>, s: SessionView) -> bool {
    session_handler::describes(bytes, s.robot_id, s.profile, s.cameras)
}

/// A frame with the newest telemetry, or with none.
pub open spec fn reports(bytes: Seq<u8>, s: SessionView, seq: u64, now_us: u64) -> bool {
    channel_b::frame_ok(bytes) && channel_b::frame_in(bytes) == (channel_b::FrameView {
        timestamp: now_us,
        seq,
        tick_id: 0,
        category: ChannelBCategory::Telemetry,
        region_id: ALL_REGIONS,
        fields: match s.telemetry {
            Some(t) => t,
            None => Seq::empty(),
        },
    })
}

impl SessionView {
    /// Where a HELLO is awaited, the robot is described by `bytes`. Nothing else
    /// that arrives on a stream is answered with a description.
    pub open spec fn answers(self, stream_id: u64, bytes: Seq<u8>) -> bool {
        stream_id == 0 && self.phase == Phase::AwaitingHello ==> describes(bytes, self)
    }

    /// The sequence numbers do not run out within one step.
    pub open spec fn has_room(self) -> bool {
        &&& self.channel_b_seq <= u64::MAX - 16
        &&& self.estop_seq < u64::MAX
        &&& self.tick_count < u64::MAX
    }

    pub open spec fn with_seq(self, by: int) -> SessionView {
        SessionView { channel_b_seq: (self.channel_b_seq + by) as u64, ..self }
    }

    pub open spec fn stopped(self) -> SessionView {
        SessionView { safety: task::TaskView { explicit_estop: true, ..self.safety }, ..self }
    }

    pub open spec fn cleared(self, now: Instant) -> SessionView {
        SessionView { safety: self.safety.cleared(now), ..self }
    }

    /// What an emergency-stop message does to the latch.
    pub open spec fn told(self, d: EstopDatagram, now: Instant) -> SessionView {
        if d.latched {
            self.stopped()
        } else {
            self.cleared(now)
        }
    }

    pub open spec fn active(self, now: Instant) -> SessionView {
        SessionView { safety: self.safety.active(None, now), ..self }
    }

    pub open spec fn polled(self, now: Instant) -> SessionView {
        SessionView { safety: self.safety.polled(now), ..self }
    }

    pub open spec fn settling(self, now: Instant) -> bool {
        self.settle_until matches Some(until) && now.nanos < until.nanos
    }

    /// The driver commands of an operator's command under full teleoperation.
    /// While the robot gets up or down only the claw is driven. While it sits
    /// and the operator asks for no movement, movement is withheld and nothing
    /// else is.
    #[verifier::opaque]
    pub open spec fn full_commands(self, cmd: TeleopCommand, now: Instant) -> Seq<BridgeCommand> {
        let idle = cmd.vx == 0 && cmd.vy == 0 && cmd.turn == 0;
        let n = self.channel_b_seq;
        let held = self.settling(now);
        let a = if held || (self.sitting && idle) {
            Seq::empty()
        } else {
            seq![
                BridgeCommand::Move { x: cmd.vx, y: cmd.vy, seq: (n + 1) as u64 },
                BridgeCommand::Turn { step: cmd.turn, seq: (n + 2) as u64 },
            ]
        };
        let m = n + a.len();
        let b = if held {
            Seq::empty()
        } else {
            seq![
                BridgeCommand::Attitude {
                    axis: AttitudeAxis::Roll,
                    data: cmd.attitude_r,
                    seq: (m + 1) as u64,
                },
                BridgeCommand::Attitude {
                    axis: AttitudeAxis::Pitch,
                    data: cmd.attitude_p,
                    seq: (m + 2) as u64,
                },
                BridgeCommand::Attitude {
                    axis: AttitudeAxis::Yaw,
                    data: cmd.attitude_y,
                    seq: (m + 3) as u64,
                },
                BridgeCommand::Arm { x: cmd.arm_x, z: cmd.arm_z, seq: (m + 4) as u64 },
            ]
        };
        a + b + seq![
            BridgeCommand::Claw { pos: cmd.claw, seq: (m + b.len() + 1) as u64 },
        ]
    }

    /// The driver commands of an operator's command under a control source.
    pub open spec fn commands(
        self,
        source: ControlSource,
        cmd: TeleopCommand,
        now: Instant,
    ) -> Seq<BridgeCommand> {
        match source {
            ControlSource::FullTeleoperation => self.full_commands(cmd, now),
            ControlSource::SemiAutonomous => Seq::empty(),
            _ => seq![BridgeCommand::Stop { seq: (self.channel_b_seq + 1) as u64 }],
        }
    }

    /// After an operator's command was passed on, or not.
    pub open spec fn dispatched(self, cmd: TeleopCommand, now: Instant) -> SessionView {
        let s = self.polled(now);
        let source = s.safety.source();
        let next = s.with_seq(s.commands(source, cmd, now).len() as int);
        if source == ControlSource::FullTeleoperation {
            SessionView {
                settle_until: if s.settling(now) {
                    s.settle_until
                } else {
                    None
                },
                sitting: s.sitting && cmd.vx == 0 && cmd.vy == 0 && cmd.turn == 0,
                ..next
            }
        } else {
            next
        }
    }

    /// After an action trigger, and what it asks for. A trigger fires once, and
    /// only under full teleoperation.
    pub open spec fn triggered(self, trigger: ActionTrigger, now: Instant) -> (
        SessionView,
        Seq<ActionView>,
    ) {
        if !action_trigger::is_later(self.last_trigger, trigger.trigger_seq) {
            (self, Seq::empty())
        } else {
            let s = (SessionView {
                last_trigger: Some(trigger.trigger_seq),
                ..self
            }).polled(now);
            if s.safety.source() != ControlSource::FullTeleoperation {
                (s, Seq::empty())
            } else {
                let gait = trigger.action_id == STAND_ACTION_ID || trigger.action_id
                    == SIT_ACTION_ID;
                (
                    SessionView {
                        settle_until: if gait {
                            Some(
                                Instant { nanos: (now.nanos + ACTION_SETTLE_MS * 1_000_000) as u64 },
                            )
                        } else {
                            s.settle_until
                        },
                        sitting: if gait {
                            trigger.action_id == SIT_ACTION_ID
                        } else {
                            s.sitting
                        },
                        ..s.with_seq(1)
                    },
                    seq![
                        ActionView::Drive(
                            BridgeCommand::Action {
                                id: trigger.action_id,
                                seq: (s.channel_b_seq + 1) as u64,
                            },
                        ),
                    ],
                )
            }
        }
    }

    /// After a camera control, and what it asks for. A control is applied once.
    pub open spec fn camera_set(self, control: CameraControl) -> (SessionView, Seq<ActionView>) {
        if !action_trigger::is_later(self.last_control, control.control_seq) {
            (self, Seq::empty())
        } else {
            (
                SessionView { last_control: Some(control.control_seq), ..self },
                if self.has_camera {
                    seq![ActionView::ApplyCamera(capture::admitted(control))]
                } else {
                    Seq::empty()
                },
            )
        }
    }

    pub open spec fn stored_control(self, data: Seq<u8>, now_us: u64) -> ActionView {
        ActionView::Store {
            category: Category::ActionTriggerC,
            capture_us: now_us,
            control_source: CONTROL_SOURCE_SENTINEL,
            payload: data,
        }
    }

    /// After data on the greeting stream. `bytes` describes the robot.
    pub open spec fn greeted(self, data: Seq<u8>, bytes: Seq<u8>) -> (
        SessionView,
        Seq<ActionView>,
        Option<DecodeError>,
    ) {
        if !hello_handler::hello_ok(data) {
            (self, Seq::empty(), Some(DecodeError::Malformed))
        } else if hello::negotiation(
            hello::local_offer(self.task_class),
            hello_handler::hello_in(data),
        ) is Ok {
            (
                SessionView { phase: Phase::AwaitingSessionAccept, ..self },
                if self.describe_sent {
                    Seq::empty()
                } else {
                    seq![ActionView::StreamSend { stream_id: 1, bytes }]
                },
                None,
            )
        } else {
            (self, seq![ActionView::Close { reason: CloseReason::HelloIncompatible }], None)
        }
    }

    /// After stream data: the session, what it asks for, and the error that
    /// ends it, if there is one.
    pub open spec fn streamed(
        self,
        stream_id: u64,
        data: Seq<u8>,
        bytes: Seq<u8>,
        now: Instant,
        now_us: u64,
    ) -> (SessionView, Seq<ActionView>, Option<DecodeError>) {
        if stream_id == 0 && self.phase == Phase::AwaitingHello {
            self.greeted(data, bytes)
        } else if stream_id == 1 && self.phase == Phase::AwaitingSessionAccept {
            if session_handler::accept_ok(data) {
                (SessionView { phase: Phase::Operating, ..self }, Seq::empty(), None)
            } else {
                (self, Seq::empty(), Some(DecodeError::Malformed))
            }
        } else if stream_id == ESTOP_STREAM_ID {
            match EstopDatagram::parse(data) {
                Some(d) => (self.told(d, now), Seq::empty(), None),
                None => (self, Seq::empty(), None),
            }
        } else if stream_id == ACTION_TRIGGER_STREAM_ID && self.phase == Phase::Operating {
            let stored = seq![self.stored_control(data, now_us)];
            if action_trigger_handler::trigger_ok(data) {
                let next = self.triggered(action_trigger_handler::trigger_in(data), now);
                (next.0, stored + next.1, None)
            } else {
                (self, stored, Some(DecodeError::Malformed))
            }
        } else if stream_id == CAMERA_CONTROL_STREAM_ID && self.phase == Phase::Operating {
            let stored = seq![self.stored_control(data, now_us)];
            if camera_control_handler::control_ok(data) {
                let next = self.camera_set(camera_control_handler::control_in(data));
                (next.0, stored + next.1, None)
            } else {
                (self, stored, Some(DecodeError::Malformed))
            }
        } else {
            (self, Seq::empty(), None)
        }
    }

    /// Is this datagram an operator's command that counts?
    pub open spec fn is_command(self, data: Seq<u8>) -> bool {
        &&& self.phase == Phase::Operating
        &&& data.len() > 0
        &&& data[0] == DATAGRAM_TAG_CHANNEL_B
        &&& channel_b::frame_ok(payload_of(data))
        &&& channel_b::frame_in(payload_of(data)).category == ChannelBCategory::Command
    }

    /// The session while the operator is at the controls.
    pub open spec fn attended(self, now: Instant) -> SessionView {
        let s = self.active(now);
        SessionView {
            safety: task::TaskView { deadman_held: true, command_fresh: true, ..s.safety },
            ..s
        }
    }

    /// After a datagram, and what it asks for.
    pub open spec fn received(self, data: Seq<u8>, now: Instant, now_us: u64) -> (
        SessionView,
        Seq<ActionView>,
    ) {
        if data.len() > 0 && data[0] == ESTOP_DATAGRAM_MAGIC {
            match EstopDatagram::parse(data) {
                Some(d) => (self.told(d, now).active(now), Seq::empty()),
                None => (self, Seq::empty()),
            }
        } else if !self.is_command(data) {
            (self, Seq::empty())
        } else {
            let s = self.attended(now);
            let fields = channel_b::frame_in(payload_of(data)).fields;
            if fields.len() < 20 {
                (s, Seq::empty())
            } else {
                let cmd = TeleopCommand::of_bytes(fields);
                let polled = s.polled(now);
                let source = polled.safety.source();
                (
                    s.dispatched(cmd, now),
                    drives(polled.commands(source, cmd, now)).push(
                        ActionView::Store {
                            category: Category::ChannelBCommand,
                            capture_us: now_us,
                            control_source: recording::source_byte(source),
                            payload: payload_of(data),
                        },
                    ),
                )
            }
        }
    }

    /// The stop datagram of a tick.
    pub open spec fn beacon(self, now: Instant) -> EstopDatagram {
        EstopDatagram {
            latched: self.polled(now).safety.estopped(),
            seq: (self.estop_seq + 1) as u64,
        }
    }

    /// After a report of the driver's supervisor.
    pub open spec fn driver_reported(self, event: SupervisorEvent) -> SessionView {
        match event {
            SupervisorEvent::FromBridge(BridgeEvent::Telemetry(t)) => SessionView {
                telemetry: Some(t.bytes()),
                ..self
            },
            SupervisorEvent::FromBridge(_) => self,
            SupervisorEvent::ProcessDied { .. } => self.stopped(),
            SupervisorEvent::GaveUp => self.stopped(),
        }
    }

    /// The driver commands of a tick.
    pub open spec fn tick_commands(self, source: ControlSource) -> Seq<BridgeCommand> {
        driver_commands(self.channel_b_seq, self.driver_stopped, self.tick_count + 1, source)
    }

    /// After a tick.
    pub open spec fn ticked(self, established: bool, now: Instant) -> SessionView {
        let s = self.polled(now);
        let source = s.safety.source();
        let commands = self.tick_commands(source);
        SessionView {
            tick_count: (s.tick_count + 1) as u64,
            estop_primed: s.estop_primed || established,
            estop_seq: (s.estop_seq + 1) as u64,
            driver_stopped: source == ControlSource::EStop,
            ..s.with_seq(
                commands.len() as int + (if s.phase == Phase::Operating {
                    1int
                } else {
                    0int
                }),
            )
        }
    }

    /// What a tick asks for. `frame` is the telemetry frame.
    pub open spec fn tick_actions(
        self,
        established: bool,
        frame: Seq<u8>,
        now: Instant,
        now_us: u64,
    ) -> Seq<ActionView> {
        let source = self.polled(now).safety.source();
        stop_actions(self.estop_primed, established, self.reported_latched, self.beacon(now))
            + drives(self.tick_commands(source)) + frame_actions(
            self.phase == Phase::Operating,
            frame,
            source,
            now_us,
        )
    }

    /// The number of the telemetry frame of a tick.
    pub open spec fn frame_seq(self, now: Instant) -> u64 {
        (self.channel_b_seq + self.tick_commands(self.polled(now).safety.source()).len() + 1) as u64
    }
}

/// What a tick does about the stop state: it goes out as a datagram always, and
/// on its reliable stream when it was not reported yet.
#[verifier::opaque]
pub open spec fn stop_actions(
    primed: bool,
    established: bool,
    reported: Option<bool>,
    d: EstopDatagram,
) -> Seq<ActionView> {
    (if !primed && established {
        seq![ActionView::PrioritizeEstop]
    } else {
        Seq::empty()
    }) + seq![ActionView::DatagramSend { bytes: d.bytes() }] + (if (primed || established)
        && reported != Some(d.latched) {
        seq![ActionView::StreamSend { stream_id: ESTOP_STREAM_ID, bytes: d.bytes() }]
    } else {
        Seq::empty()
    })
}

/// What a tick does with the telemetry frame.
#[verifier::opaque]
pub open spec fn frame_actions(
    operating: bool,
    frame: Seq<u8>,
    source: ControlSource,
    now_us: u64,
) -> Seq<ActionView> {
    if operating {
        seq![
            ActionView::Store {
                category: Category::ChannelBTelemetry,
                capture_us: now_us,
                control_source: recording::source_byte(source),
                payload: frame,
            },
            ActionView::DatagramSend { bytes: datagram::tagged(DATAGRAM_TAG_CHANNEL_B, frame) },
        ]
    } else {
        Seq::empty()
    }
}

/// What the driver is told on tick number `tick`: a heartbeat; a stop for as
/// long as the robot is stopped, one clear when it no longer is; now and then a
/// query. The commands are numbered from `n + 1` on.
#[verifier::opaque]
pub open spec fn driver_commands(
    n: u64,
    driver_stopped: bool,
    tick: int,
    source: ControlSource,
) -> Seq<BridgeCommand> {
    let a = seq![BridgeCommand::Heartbeat { seq: (n + 1) as u64 }];
    let b = if source == ControlSource::EStop {
        seq![BridgeCommand::Estop { seq: (n + 2) as u64 }]
    } else if driver_stopped {
        seq![BridgeCommand::EstopClear { seq: (n + 2) as u64 }]
    } else {
        Seq::empty()
    };
    let c = if tick % TELEMETRY_QUERY_EVERY_N_TICKS as int == 0 {
        seq![BridgeCommand::Query { seq: (n + 2 + b.len()) as u64 }]
    } else {
        Seq::empty()
    };
    a + b + c
}

/// A datagram without its tag.
pub open spec fn payload_of(data: Seq<u8>) -> Seq<u8> {
    data.subrange(1, data.len() as int)
}

/// Appends a command to the driver.
fn drive(actions: &mut Vec<Action>, command: BridgeCommand)
    ensures
        action::views(final(actions)@) == action::views(old(actions)@).push(
            ActionView::Drive(command),
        ),
{
    ask(actions, Action::Drive(command));
}

proof fn lemma_no_drives()
    ensures
        drives(Seq::empty()) == Seq::<ActionView>::empty(),
{
    assert(drives(Seq::empty()) =~= Seq::<ActionView>::empty());
}

proof fn lemma_driver_commands(n: u64, driver_stopped: bool, tick: int, source: ControlSource)
    ensures
        1 <= driver_commands(n, driver_stopped, tick, source).len() <= 3,
{
    reveal(driver_commands);
}

impl Session {
    pub closed spec fn wf(&self) -> bool {
        &&& self.safety.wf()
        &&& session_handler::describe_bound(self.robot_id@, self.profile, self.cameras@)
            <= MAX_BUFFER
        &&& self@.telemetry matches Some(t) ==> t.len() + 512 <= MAX_BUFFER
    }

    /// A session that has just begun.
    pub fn new(
        task_class: TaskClass,
        robot_id: String,
        profile: RobotProfile,
        cameras: Vec<CameraDescriptor>,
        has_camera: bool,
        now: Instant,
    ) -> (s: Self)
        requires
            session_handler::describe_bound(robot_id@, profile, cameras@) <= MAX_BUFFER,
        ensures
            s.wf(),
            s@ == (SessionView {
                task_class,
                robot_id: robot_id@,
                profile,
                cameras: cameras@,
                safety: task::TaskView::fresh(task_class, now),
                has_camera,
                last_control: None,
                last_trigger: None,
                phase: Phase::AwaitingHello,
                channel_b_seq: 0,
                estop_seq: 0,
                hello_sent: false,
                describe_sent: false,
                estop_primed: false,
                reported_latched: None,
                driver_stopped: false,
                tick_count: 0,
                telemetry: None,
                settle_until: None,
                sitting: false,
            }),
    {
        Session {
            task_class,
            robot_id,
            profile,
            cameras,
            safety: SafetyTask::new(task_class, now),
            has_camera,
            camera_control_dedup: CameraControlDedup::new(),
            trigger_dedup: TriggerDedup::new(),
            phase: Phase::AwaitingHello,
            channel_b_seq: 0,
            estop_seq: 0,
            hello_sent: false,
            session_describe_sent: false,
            estop_stream_primed: false,
            last_reported_estop_latched: None,
            bridge_estop_active: false,
            tick_count: 0,
            latest_telemetry: None,
            action_settle_until: None,
            sitting: false,
        }
    }

    pub fn phase(&self) -> (p: Phase)
        ensures
            p == self@.phase,
    {
        self.phase
    }

    /// Can the counters take another event? They last for longer than any
    /// session does.
    pub fn can_count(&self) -> (b: bool)
        ensures
            b == self@.has_room(),
    {
        self.channel_b_seq <= u64::MAX - 16 && self.estop_seq < u64::MAX && self.tick_count
            < u64::MAX
    }

    pub fn is_estopped(&self) -> (b: bool)
        ensures
            b == self@.safety.estopped(),
    {
        self.safety.is_estopped()
    }

    /// The greeting, as long as it was not sent.
    pub fn hello_due(&self, established: bool) -> (r: Option<Vec<u8>>)
        ensures
            match r {
                Some(bytes) => established && !self@.hello_sent && hello_handler::hello_ok(bytes@)
                    && hello_handler::hello_in(bytes@) == hello::local_offer(self@.task_class),
                None => !established || self@.hello_sent,
            },
    {
        if established && !self.hello_sent {
            let caps = local_hello_capabilities(self.task_class);
            Some(encode_hello(&caps))
        } else {
            None
        }
    }

    /// The greeting was taken for sending.
    pub fn on_hello_sent(&mut self)
        ensures
            old(self).wf() ==> final(self).wf(),
            final(self)@ == (SessionView { hello_sent: true, ..old(self)@ }),
    {
        self.hello_sent = true;
    }

    /// The description was taken for sending.
    pub fn on_describe_sent(&mut self)
        ensures
            old(self).wf() ==> final(self).wf(),
            final(self)@ == (SessionView { describe_sent: true, ..old(self)@ }),
    {
        self.session_describe_sent = true;
    }

    /// The stop state was taken for sending on the reliable stream.
    pub fn on_estop_reported(&mut self, latched: bool)
        ensures
            old(self).wf() ==> final(self).wf(),
            final(self)@ == (SessionView { reported_latched: Some(latched), ..old(self)@ }),
    {
        self.last_reported_estop_latched = Some(latched);
    }

    fn next_seq(&mut self) -> (n: u64)
        requires
            old(self)@.channel_b_seq < u64::MAX,
        ensures
            old(self).wf() ==> final(self).wf(),
            final(self)@ == old(self)@.with_seq(1),
            n == old(self)@.channel_b_seq + 1,
    {
        self.channel_b_seq = self.channel_b_seq + 1;
        self.channel_b_seq
    }

    fn on_estop_message(&mut self, d: EstopDatagram, now: Instant)
        requires
            old(self).wf(),
        ensures
            final(self).wf(),
            final(self)@ == old(self)@.told(d, now),
    {
        if d.latched {
            self.safety.trigger_explicit_estop();
        } else {
            self.safety.clear_explicit_estop(now);
        }
    }

    /// Data on a stream.
    pub fn on_stream_data(&mut self, stream_id: u64, data: &[u8], now: Instant, now_us: u64) -> (r:
        (Vec<Action>, Option<DecodeError>))
        requires
            old(self).wf(),
            old(self)@.has_room(),
            now.nanos <= u64::MAX - ACTION_SETTLE_MS * 1_000_000,
        ensures
            final(self).wf(),
            exists|bytes: Seq<u8>|
                #[trigger] old(self)@.answers(stream_id, bytes) && {
                    let next = old(self)@.streamed(stream_id, data@, bytes, now, now_us);
                    final(self)@ == next.0 && action::views(r.0@) == next.1 && r.1 == next.2
                },
    {
        if stream_id == 0 && self.phase == Phase::AwaitingHello {
            let describe: Vec<u8> = encode_session_describe(
                self.robot_id.as_str(),
                &self.profile,
                &self.cameras,
            );
            proof {
                assert(self@.answers(stream_id, describe@));
            }
            return self.on_hello(data, describe);
        }
        proof {
            assert(self@.answers(stream_id, Seq::empty()));
        }
        if stream_id == 1 && self.phase == Phase::AwaitingSessionAccept {
            return match decode_session_accept(data) {
                Ok(_) => {
                    self.phase = Phase::Operating;
                    (nothing(), None)
                },
                Err(e) => (nothing(), Some(e)),
            };
        }
        if stream_id == ESTOP_STREAM_ID {
            if let Some(d) = EstopDatagram::decode(data) {
                self.on_estop_message(d, now);
            }
            return (nothing(), None);
        }
        if stream_id == ACTION_TRIGGER_STREAM_ID && self.phase == Phase::Operating {
            let mut actions = store_control(data, now_us);
            return match decode_action_trigger(data) {
                Ok(trigger) => {
                    let mut more = self.on_action_trigger(trigger, now);
                    append(&mut actions, &mut more);
                    (actions, None)
                },
                Err(e) => (actions, Some(e)),
            };
        }
        if stream_id == CAMERA_CONTROL_STREAM_ID && self.phase == Phase::Operating {
            let mut actions = store_control(data, now_us);
            return match decode_camera_control(data) {
                Ok(control) => {
                    let mut more = self.on_camera_control(control);
                    append(&mut actions, &mut more);
                    (actions, None)
                },
                Err(e) => (actions, Some(e)),
            };
        }
        (nothing(), None)
    }

    fn on_hello(&mut self, data: &[u8], describe: Vec<u8>) -> (r: (Vec<Action>, Option<DecodeError>))
        requires
            old(self).wf(),
        ensures
            final(self).wf(),
            final(self)@ == old(self)@.greeted(data@, describe@).0,
            action::views(r.0@) == old(self)@.greeted(data@, describe@).1,
            r.1 == old(self)@.greeted(data@, describe@).2,
    {
        let mut actions = nothing();
        let peer = match decode_hello(data) {
            Ok(p) => p,
            Err(e) => {
                return (actions, Some(e));
            },
        };
        let local = local_hello_capabilities(self.task_class);
        match negotiate(&local, &peer) {
            Ok(_) => {
                self.phase = Phase::AwaitingSessionAccept;
                if !self.session_describe_sent {
                    ask(&mut actions, Action::StreamSend { stream_id: 1, bytes: describe });
                }
            },
            Err(_) => {
                ask(&mut actions, Action::Close { reason: CloseReason::HelloIncompatible });
            },
        }
        (actions, None)
    }

    /// Fires a trigger at most once, and only under full teleoperation.
    pub fn on_action_trigger(&mut self, trigger: ActionTrigger, now: Instant) -> (actions: Vec<
        Action,
    >)
        requires
            old(self).wf(),
            old(self)@.has_room(),
            now.nanos <= u64::MAX - ACTION_SETTLE_MS * 1_000_000,
        ensures
            final(self).wf(),
            final(self)@ == old(self)@.triggered(trigger, now).0,
            action::views(actions@) == old(self)@.triggered(trigger, now).1,
    {
        let mut actions = nothing();
        if !self.trigger_dedup.accept(trigger) {
            return actions;
        }
        if self.safety.tick(now) != ControlSource::FullTeleoperation {
            return actions;
        }
        let seq: u64 = self.next_seq();
        drive(&mut actions, BridgeCommand::Action { id: trigger.action_id, seq });
        if trigger.action_id == STAND_ACTION_ID || trigger.action_id == SIT_ACTION_ID {
            self.action_settle_until = Some(now.plus(Duration::from_millis(ACTION_SETTLE_MS)));
            self.sitting = trigger.action_id == SIT_ACTION_ID;
        }
        actions
    }

    /// Applies a camera control at most once; it moves nothing, so the control
    /// source does not matter.
    pub fn on_camera_control(&mut self, control: CameraControl) -> (actions: Vec<Action>)
        requires
            old(self).wf(),
        ensures
            final(self).wf(),
            final(self)@ == old(self)@.camera_set(control).0,
            action::views(actions@) == old(self)@.camera_set(control).1,
    {
        let mut actions = nothing();
        if self.camera_control_dedup.accept(control) && self.has_camera {
            ask(&mut actions, Action::ApplyCamera(admit_controls(&control)));
        }
        actions
    }

    /// A datagram.
    pub fn on_datagram(&mut self, data: &[u8], now: Instant, now_us: u64) -> (actions: Vec<Action>)
        requires
            old(self).wf(),
            old(self)@.has_room(),
        ensures
            final(self).wf(),
            final(self)@ == old(self)@.received(data@, now, now_us).0,
            action::views(actions@) == old(self)@.received(data@, now, now_us).1,
    {
        if data.len() > 0 && data[0] == ESTOP_DATAGRAM_MAGIC {
            if let Some(d) = EstopDatagram::decode(data) {
                self.on_estop_message(d, now);
                self.safety.on_channel_b_activity(None, now);
            }
            return nothing();
        }
        if self.phase != Phase::Operating {
            return nothing();
        }
        let (tag, payload) = match datagram::untag(data) {
            Some(t) => t,
            None => {
                return nothing();
            },
        };
        proof {
            assert(data@[0] == tag);
            assert(payload@ =~= payload_of(data@));
        }
        if tag != DATAGRAM_TAG_CHANNEL_B {
            return nothing();
        }
        let frame = match decode_channel_b_frame(payload.as_slice()) {
            Ok(f) => f,
            Err(_) => {
                return nothing();
            },
        };
        if frame.category != ChannelBCategory::Command {
            return nothing();
        }
        self.safety.on_channel_b_activity(None, now);
        self.safety.set_teleop(true, true);
        let cmd = match TeleopCommand::unpack(frame.fields.as_slice()) {
            Some(c) => c,
            None => {
                return nothing();
            },
        };
        let (source, mut actions) = self.dispatch_teleop_command(&cmd, now);
        let record = Record {
            capture_us: now_us,
            control_source: control_source_byte(source),
            payload,
        };
        ask(&mut actions, Action::Store { category: Category::ChannelBCommand, record });
        actions
    }

    /// Passes an operator's command on to the driver, as far as the control
    /// source lets it.
    pub fn dispatch_teleop_command(&mut self, cmd: &TeleopCommand, now: Instant) -> (r: (
        ControlSource,
        Vec<Action>,
    ))
        requires
            old(self).wf(),
            old(self)@.has_room(),
        ensures
            final(self).wf(),
            final(self)@ == old(self)@.dispatched(*cmd, now),
            r.0 == old(self)@.polled(now).safety.source(),
            action::views(r.1@) == drives(old(self)@.polled(now).commands(r.0, *cmd, now)),
    {
        let source = self.safety.tick(now);
        let actions: Vec<Action> = match source {
            ControlSource::FullTeleoperation => self.dispatch_full(cmd, now),
            ControlSource::SemiAutonomous => {
                proof {
                    lemma_no_drives();
                }
                nothing()
            },
            _ => self.dispatch_stop(),
        };
        (source, actions)
    }

    fn dispatch_stop(&mut self) -> (actions: Vec<Action>)
        requires
            old(self).wf(),
            old(self)@.channel_b_seq < u64::MAX,
        ensures
            final(self).wf(),
            final(self)@ == old(self)@.with_seq(1),
            action::views(actions@) == drives(
                seq![BridgeCommand::Stop { seq: (old(self)@.channel_b_seq + 1) as u64 }],
            ),
    {
        let mut actions = nothing();
        let seq: u64 = self.next_seq();
        drive(&mut actions, BridgeCommand::Stop { seq });
        proof {
            assert(action::views(actions@) =~= drives(seq![BridgeCommand::Stop { seq }]));
        }
        actions
    }

    fn dispatch_full(&mut self, cmd: &TeleopCommand, now: Instant) -> (actions: Vec<Action>)
        requires
            old(self).wf(),
            old(self)@.has_room(),
        ensures
            final(self).wf(),
            action::views(actions@) == drives(old(self)@.full_commands(*cmd, now)),
            final(self)@ == (SessionView {
                settle_until: if old(self)@.settling(now) {
                    old(self)@.settle_until
                } else {
                    None
                },
                sitting: old(self)@.sitting && cmd.vx == 0 && cmd.vy == 0 && cmd.turn == 0,
                ..old(self)@.with_seq(old(self)@.full_commands(*cmd, now).len() as int)
            }),
    {
        let settling: bool = match self.action_settle_until {
            Some(until) => now.nanos < until.nanos,
            None => false,
        };
        if !settling {
            self.action_settle_until = None;
        }
        let is_idle: bool = cmd.vx == 0 && cmd.vy == 0 && cmd.turn == 0;
        if !is_idle {
            self.sitting = false;
        }
        let mut actions = nothing();
        if !settling && !self.sitting {
            let move_seq: u64 = self.next_seq();
            drive(&mut actions, BridgeCommand::Move { x: cmd.vx, y: cmd.vy, seq: move_seq });
            let turn_seq: u64 = self.next_seq();
            drive(&mut actions, BridgeCommand::Turn { step: cmd.turn, seq: turn_seq });
        }
        if !settling {
            let roll_seq: u64 = self.next_seq();
            drive(
                &mut actions,
                BridgeCommand::Attitude {
                    axis: AttitudeAxis::Roll,
                    data: cmd.attitude_r,
                    seq: roll_seq,
                },
            );
            let pitch_seq: u64 = self.next_seq();
            drive(
                &mut actions,
                BridgeCommand::Attitude {
                    axis: AttitudeAxis::Pitch,
                    data: cmd.attitude_p,
                    seq: pitch_seq,
                },
            );
            let yaw_seq: u64 = self.next_seq();
            drive(
                &mut actions,
                BridgeCommand::Attitude {
                    axis: AttitudeAxis::Yaw,
                    data: cmd.attitude_y,
                    seq: yaw_seq,
                },
            );
            let arm_seq: u64 = self.next_seq();
            drive(
                &mut actions,
                BridgeCommand::Arm { x: cmd.arm_x, z: cmd.arm_z, seq: arm_seq },
            );
        }
        let claw_seq: u64 = self.next_seq();
        drive(&mut actions, BridgeCommand::Claw { pos: cmd.claw, seq: claw_seq });
        proof {
            reveal(SessionView::full_commands);
            assert(action::views(actions@) =~= drives(old(self)@.full_commands(*cmd, now)));
        }
        actions
    }

    /// The regular tick.
    pub fn on_tick(&mut self, established: bool, now: Instant, now_us: u64) -> (actions: Vec<Action>)
        requires
            old(self).wf(),
            old(self)@.has_room(),
        ensures
            final(self).wf(),
            final(self)@ == old(self)@.ticked(established, now),
            exists|frame: Seq<u8>|
                #[trigger] reports(frame, old(self)@, old(self)@.frame_seq(now), now_us)
                    && action::views(actions@) == old(self)@.tick_actions(
                    established,
                    frame,
                    now,
                    now_us,
                ),
    {
        let ghost before = self@;
        self.tick_count = self.tick_count + 1;
        let source = self.safety.tick(now);
        proof {
            assert(source == before.polled(now).safety.source());
        }
        let mut actions = self.tick_stop(established);
        proof {
            lemma_driver_commands(
                before.channel_b_seq,
                before.driver_stopped,
                before.tick_count + 1,
                source,
            );
        }
        let mut driver = self.tick_driver(source);
        append(&mut actions, &mut driver);
        let ghost mid = self@;
        let mut report = self.tick_frame(source, now_us);
        proof {
            let frame = choose|frame: Seq<u8>| #[trigger]
                reports(frame, mid, (mid.channel_b_seq + 1) as u64, now_us) && action::views(
                    report@,
                ) == frame_actions(mid.phase == Phase::Operating, frame, source, now_us);
            assert(reports(frame, before, before.frame_seq(now), now_us));
        }
        append(&mut actions, &mut report);
        actions
    }

    /// The newest telemetry goes out, while the session operates.
    fn tick_frame(&mut self, source: ControlSource, now_us: u64) -> (actions: Vec<Action>)
        requires
            old(self).wf(),
            old(self)@.channel_b_seq < u64::MAX,
        ensures
            final(self).wf(),
            final(self)@ == old(self)@.with_seq(
                if old(self)@.phase == Phase::Operating {
                    1
                } else {
                    0
                },
            ),
            exists|frame: Seq<u8>|
                #[trigger] reports(frame, old(self)@, (old(self)@.channel_b_seq + 1) as u64, now_us)
                    && action::views(actions@) == frame_actions(
                    old(self)@.phase == Phase::Operating,
                    frame,
                    source,
                    now_us,
                ),
    {
        let seq: u64 = self.channel_b_seq + 1;
        let bytes: Vec<u8> = self.telemetry_frame(seq, now_us);
        let ghost frame = bytes@;
        let mut actions = nothing();
        if self.phase == Phase::Operating {
            self.channel_b_seq = seq;
            let tagged: Vec<u8> = datagram::tag(DATAGRAM_TAG_CHANNEL_B, bytes.as_slice());
            let record = Record {
                capture_us: now_us,
                control_source: control_source_byte(source),
                payload: bytes,
            };
            ask(&mut actions, Action::Store { category: Category::ChannelBTelemetry, record });
            ask(&mut actions, Action::DatagramSend { bytes: tagged });
        }
        proof {
            assert(reports(frame, old(self)@, (old(self)@.channel_b_seq + 1) as u64, now_us));
            reveal(frame_actions);
            assert(action::views(actions@) =~= frame_actions(
                old(self)@.phase == Phase::Operating,
                frame,
                source,
                now_us,
            ));
        }
        actions
    }

    /// The stop state goes out.
    fn tick_stop(&mut self, established: bool) -> (actions: Vec<Action>)
        requires
            old(self).wf(),
            old(self)@.estop_seq < u64::MAX,
        ensures
            final(self).wf(),
            final(self)@ == (SessionView {
                estop_primed: old(self)@.estop_primed || established,
                estop_seq: (old(self)@.estop_seq + 1) as u64,
                ..old(self)@
            }),
            action::views(actions@) == stop_actions(
                old(self)@.estop_primed,
                established,
                old(self)@.reported_latched,
                EstopDatagram {
                    latched: old(self)@.safety.estopped(),
                    seq: (old(self)@.estop_seq + 1) as u64,
                },
            ),
    {
        let latched: bool = self.safety.is_estopped();
        let mut actions = nothing();
        if !self.estop_stream_primed && established {
            ask(&mut actions, Action::PrioritizeEstop);
            self.estop_stream_primed = true;
        }
        self.estop_seq = self.estop_seq + 1;
        let d = EstopDatagram { latched, seq: self.estop_seq };
        ask(&mut actions, Action::DatagramSend { bytes: d.encode() });
        let report: bool = match self.last_reported_estop_latched {
            Some(last) => last != latched,
            None => true,
        };
        if self.estop_stream_primed && report {
            ask(
                &mut actions,
                Action::StreamSend { stream_id: ESTOP_STREAM_ID, bytes: d.encode() },
            );
        }
        proof {
            reveal(stop_actions);
            assert(action::views(actions@) =~= stop_actions(
                old(self)@.estop_primed,
                established,
                old(self)@.reported_latched,
                d,
            ));
        }
        actions
    }

    /// The commands that keep the driver informed, once per tick.
    fn tick_driver(&mut self, source: ControlSource) -> (actions: Vec<Action>)
        requires
            old(self).wf(),
            old(self)@.channel_b_seq <= u64::MAX - 16,
        ensures
            final(self).wf(),
            ({
                let commands = driver_commands(
                    old(self)@.channel_b_seq,
                    old(self)@.driver_stopped,
                    old(self)@.tick_count as int,
                    source,
                );
                &&& action::views(actions@) == drives(commands)
                &&& final(self)@ == (SessionView {
                    driver_stopped: source == ControlSource::EStop,
                    ..old(self)@.with_seq(commands.len() as int)
                })
            }),
    {
        let mut actions = nothing();
        let heartbeat_seq: u64 = self.next_seq();
        drive(&mut actions, BridgeCommand::Heartbeat { seq: heartbeat_seq });
        if source == ControlSource::EStop {
            self.bridge_estop_active = true;
            let estop_seq: u64 = self.next_seq();
            drive(&mut actions, BridgeCommand::Estop { seq: estop_seq });
        } else if self.bridge_estop_active {
            self.bridge_estop_active = false;
            let clear_seq: u64 = self.next_seq();
            drive(&mut actions, BridgeCommand::EstopClear { seq: clear_seq });
        }
        if self.tick_count % TELEMETRY_QUERY_EVERY_N_TICKS == 0 {
            let query_seq: u64 = self.next_seq();
            drive(&mut actions, BridgeCommand::Query { seq: query_seq });
        }
        proof {
            reveal(driver_commands);
            assert(action::views(actions@) =~= drives(
                driver_commands(
                    old(self)@.channel_b_seq,
                    old(self)@.driver_stopped,
                    old(self)@.tick_count as int,
                    source,
                ),
            ));
        }
        actions
    }

    fn telemetry_frame(&self, seq: u64, now_us: u64) -> (bytes: Vec<u8>)
        requires
            self.wf(),
        ensures
            reports(bytes@, self@, seq, now_us),
    {
        let fields: Vec<u8> = match &self.latest_telemetry {
            Some(t) => t.pack(),
            None => Vec::new(),
        };
        let frame = ChannelBFrameData {
            timestamp: now_us,
            seq,
            tick_id: 0,
            category: ChannelBCategory::Telemetry,
            region_id: ALL_REGIONS,
            fields,
        };
        encode_channel_b_frame(&frame)
    }

    /// A NAL of the camera: while the session operates, it is sent in chunks.
    pub fn on_video_nal(&self, nal_id: u32, nal: &[u8]) -> (actions: Vec<Action>)
        requires
            nal@.len() + video::MAX_CHUNK_PAYLOAD <= usize::MAX,
        ensures
            action::views(actions@) == if self@.phase == Phase::Operating {
                Seq::new(
                    video::chunk_count(nal@.len()),
                    |i: int|
                        ActionView::DatagramSend {
                            bytes: datagram::tagged(
                                DATAGRAM_TAG_CHANNEL_A,
                                video::chunk_header(nal_id, nal@, i).bytes() + video::chunk_payload(
                                    nal@,
                                    i,
                                ),
                            ),
                        },
                )
            } else {
                Seq::empty()
            },
    {
        let mut actions = nothing();
        if self.phase != Phase::Operating {
            return actions;
        }
        let chunks: Vec<Vec<u8>> = chunk_nal(nal_id, nal);
        let mut i: usize = 0;
        while i < chunks.len()
            invariant
                i <= chunks@.len(),
                chunks@.len() == video::chunk_count(nal@.len()),
                forall|j: int|
                    0 <= j < chunks@.len() ==> (#[trigger] chunks@[j])@ == video::chunk_header(
                        nal_id,
                        nal@,
                        j,
                    ).bytes() + video::chunk_payload(nal@, j),
                action::views(actions@) =~= Seq::new(
                    i as nat,
                    |j: int|
                        ActionView::DatagramSend {
                            bytes: datagram::tagged(
                                DATAGRAM_TAG_CHANNEL_A,
                                video::chunk_header(nal_id, nal@, j).bytes() + video::chunk_payload(
                                    nal@,
                                    j,
                                ),
                            ),
                        },
                ),
            decreases chunks@.len() - i,
        {
            let bytes: Vec<u8> = datagram::tag(DATAGRAM_TAG_CHANNEL_A, chunks[i].as_slice());
            ask(&mut actions, Action::DatagramSend { bytes });
            i = i + 1;
        }
        actions
    }

    /// A report of the driver's supervisor: telemetry is kept, and a driver that
    /// ended stops the robot.
    pub fn on_bridge_event(&mut self, event: SupervisorEvent)
        requires
            old(self).wf(),
            event matches SupervisorEvent::FromBridge(BridgeEvent::Telemetry(t))
                ==> t.bytes().len() + 512 <= MAX_BUFFER,
        ensures
            final(self).wf(),
            final(self)@ == old(self)@.driver_reported(event),
            final(self)@ == match event {
                SupervisorEvent::FromBridge(BridgeEvent::Telemetry(t)) => SessionView {
                    telemetry: Some(t.bytes()),
                    ..old(self)@
                },
                SupervisorEvent::FromBridge(_) => old(self)@,
                SupervisorEvent::ProcessDied { .. } => old(self)@.stopped(),
                SupervisorEvent::GaveUp => old(self)@.stopped(),
            },
    {
        match event {
            SupervisorEvent::FromBridge(ev) => {
                match ev {
                    BridgeEvent::Telemetry(t) => {
                        self.latest_telemetry = Some(t);
                    },
                    _ => {},
                }
            },
            SupervisorEvent::ProcessDied { .. } => {
                self.safety.trigger_explicit_estop();
            },
            SupervisorEvent::GaveUp => {
                self.safety.trigger_explicit_estop();
            },
        }
    }
}

fn store_control(data: &[u8], now_us: u64) -> (actions: Vec<Action>)
    ensures
        action::views(actions@) == seq![
            ActionView::Store {
                category: Category::ActionTriggerC,
                capture_us: now_us,
                control_source: CONTROL_SOURCE_SENTINEL,
                payload: data@,
            },
        ],
{
    let mut actions = nothing();
    let record = Record {
        capture_us: now_us,
        control_source: CONTROL_SOURCE_SENTINEL,
        payload: copied(data),
    };
    ask(&mut actions, Action::Store { category: Category::ActionTriggerC, record });
    proof {
        assert(action::views(actions@) =~= seq![
            ActionView::Store {
                category: Category::ActionTriggerC,
                capture_us: now_us,
                control_source: CONTROL_SOURCE_SENTINEL,
                payload: data@,
            },
        ]);
    }
    actions
}

/// Before the session is accepted, no datagram but an emergency stop does
/// anything.
pub proof fn lemma_nothing_before_accept(
    s: SessionView,
    data: Seq<u8>,
    now: Instant,
    now_us: u64,
)
    requires
        s.phase != Phase::Operating,
        data.len() == 0 || data[0] != ESTOP_DATAGRAM_MAGIC,
    ensures
        s.received(data, now, now_us) == (s, Seq::<ActionView>::empty()),
{
}

/// A datagram moves the robot only under full teleoperation: the operator is at
/// the controls, and the robot is neither stopped nor suspended.
pub proof fn lemma_datagram_moves_only_teleop(
    s: SessionView,
    data: Seq<u8>,
    now: Instant,
    now_us: u64,
    i: int,
)
    requires
        0 <= i < s.received(data, now, now_us).1.len(),
        s.received(data, now, now_us).1[i] matches ActionView::Drive(c) && c.moves(),
    ensures
        s.phase == Phase::Operating,
        !s.safety.estopped(),
        !s.safety.machine.suspended,
        s.attended(now).polled(now).safety.source() == ControlSource::FullTeleoperation,
{
    let polled = s.attended(now).polled(now);
    let source = polled.safety.source();
    let cmd = TeleopCommand::of_bytes(channel_b::frame_in(payload_of(data)).fields);
    let commands = polled.commands(source, cmd, now);
    assert(s.received(data, now, now_us).1[i] == drives(commands)[i]);
    task::lemma_teleop_needs(polled.safety);
}

/// A trigger moves the robot only under full teleoperation, and only if it is
/// later than every trigger before.
pub proof fn lemma_trigger_moves_only_teleop(s: SessionView, trigger: ActionTrigger, now: Instant)
    requires
        s.triggered(trigger, now).1.len() > 0,
    ensures
        action_trigger::is_later(s.last_trigger, trigger.trigger_seq),
        s.triggered(trigger, now).0.last_trigger == Some(trigger.trigger_seq),
        s.polled(now).safety.source() == ControlSource::FullTeleoperation,
        !s.safety.estopped(),
        s.triggered(trigger, now).1.len() == 1,
{
    task::lemma_teleop_needs(s.polled(now).safety);
}

/// While the robot is stopped, every tick says so to the operator and to the
/// driver.
pub proof fn lemma_stop_is_repeated(
    s: SessionView,
    established: bool,
    frame: Seq<u8>,
    now: Instant,
    now_us: u64,
)
    requires
        s.safety.estopped(),
        s.has_room(),
    ensures
        s.ticked(established, now).safety.estopped(),
        s.ticked(established, now).driver_stopped,
        s.tick_actions(established, frame, now, now_us).contains(
            ActionView::DatagramSend {
                bytes: (EstopDatagram { latched: true, seq: (s.estop_seq + 1) as u64 }).bytes(),
            },
        ),
        s.tick_actions(established, frame, now, now_us).contains(
            ActionView::Drive(BridgeCommand::Estop { seq: (s.channel_b_seq + 2) as u64 }),
        ),
{
    reveal(stop_actions);
    reveal(driver_commands);
    let source = s.polled(now).safety.source();
    assert(source == ControlSource::EStop);
    let stops = stop_actions(s.estop_primed, established, s.reported_latched, s.beacon(now));
    let all = s.tick_actions(established, frame, now, now_us);
    let at = if !s.estop_primed && established {
        1int
    } else {
        0int
    };
    assert(stops[at] == ActionView::DatagramSend { bytes: s.beacon(now).bytes() });
    assert(all[at] == stops[at]);
    let commands = s.tick_commands(source);
    assert(commands[1] == BridgeCommand::Estop { seq: (s.channel_b_seq + 2) as u64 });
    assert(drives(commands)[1] == ActionView::Drive(commands[1]));
    assert(all[stops.len() as int + 1] == drives(commands)[1]);
}

/// The driver is told once that the stop is over: at the first tick without
/// one, and not again.
pub proof fn lemma_clear_is_told_once(s: SessionView, established: bool, now: Instant)
    requires
        s.polled(now).safety.source() != ControlSource::EStop,
        s.has_room(),
    ensures
        s.driver_stopped ==> s.tick_commands(s.polled(now).safety.source()).contains(
            BridgeCommand::EstopClear { seq: (s.channel_b_seq + 2) as u64 },
        ),
        !s.ticked(established, now).driver_stopped,
        !s.driver_stopped ==> forall|i: int|
            0 <= i < s.tick_commands(s.polled(now).safety.source()).len() ==> !(
            #[trigger] s.tick_commands(s.polled(now).safety.source())[i] is EstopClear),
{
    reveal(driver_commands);
    let commands = s.tick_commands(s.polled(now).safety.source());
    if s.driver_stopped {
        assert(commands[1] == BridgeCommand::EstopClear { seq: (s.channel_b_seq + 2) as u64 });
    }
}

/// A robot that sits is left sitting until the operator asks for movement: an
/// idle command makes it neither move nor turn, and its posture, arm and claw
/// are driven all the same. While it is getting up or down only the claw is.
pub proof fn lemma_sitting_is_held(s: SessionView, cmd: TeleopCommand, now: Instant, i: int)
    requires
        (s.sitting && cmd.vx == 0 && cmd.vy == 0 && cmd.turn == 0) || s.settling(now),
        0 <= i < s.full_commands(cmd, now).len(),
    ensures
        !(s.full_commands(cmd, now)[i] is Move) && !(s.full_commands(cmd, now)[i] is Turn),
        s.settling(now) ==> s.full_commands(cmd, now)[i] is Claw,
        !s.settling(now) ==> s.full_commands(cmd, now) == seq![
            BridgeCommand::Attitude {
                axis: AttitudeAxis::Roll,
                data: cmd.attitude_r,
                seq: (s.channel_b_seq + 1) as u64,
            },
            BridgeCommand::Attitude {
                axis: AttitudeAxis::Pitch,
                data: cmd.attitude_p,
                seq: (s.channel_b_seq + 2) as u64,
            },
            BridgeCommand::Attitude {
                axis: AttitudeAxis::Yaw,
                data: cmd.attitude_y,
                seq: (s.channel_b_seq + 3) as u64,
            },
            BridgeCommand::Arm {
                x: cmd.arm_x,
                z: cmd.arm_z,
                seq: (s.channel_b_seq + 4) as u64,
            },
            BridgeCommand::Claw { pos: cmd.claw, seq: (s.channel_b_seq + 5) as u64 },
        ],
        s.sitting && s.polled(now).safety.source() == ControlSource::FullTeleoperation
            && cmd.vx == 0 && cmd.vy == 0 && cmd.turn == 0 ==> s.dispatched(cmd, now).sitting,
{
    reveal(SessionView::full_commands);
    assert(Seq::<BridgeCommand>::empty() + s.full_commands(cmd, now) =~= s.full_commands(
        cmd,
        now,
    ));
}

/// The commands to the driver are numbered one after the other.
pub proof fn lemma_commands_numbered(s: SessionView, cmd: TeleopCommand, now: Instant, i: int)
    requires
        s.has_room(),
        0 <= i < s.full_commands(cmd, now).len(),
    ensures
        s.full_commands(cmd, now)[i].number() == s.channel_b_seq + 1 + i,
        s.full_commands(cmd, now).len() <= 7,
{
    reveal(SessionView::full_commands);
}

/// A stop that a message asked for lasts through every datagram that does not
/// clear it.
pub proof fn lemma_stop_lasts(s: SessionView, data: Seq<u8>, now: Instant, now_us: u64)
    requires
        s.safety.estopped(),
        EstopDatagram::parse(data) matches Some(d) ==> d.latched,
    ensures
        s.received(data, now, now_us).0.safety.estopped(),
{
}

/// What full teleoperation means: outside of getting up and down, and unless the
/// robot sits and is asked for no movement, it moves forwards and sideways by
/// the command's two velocities, turns by its turn, leans by its three angles,
/// and takes its arm and claw where the command says. Each part of the command
/// reaches the driver command that is named after it, and no other.
pub proof fn lemma_teleop_does_what_is_asked(s: SessionView, cmd: TeleopCommand, now: Instant)
    requires
        s.settle_until matches Some(until) ==> until.nanos <= now.nanos,
        !s.sitting || cmd.vx != 0 || cmd.vy != 0 || cmd.turn != 0,
    ensures
        ({
            let c = s.full_commands(cmd, now);
            let n = s.channel_b_seq;
            &&& c.len() == 7
            &&& c[0] == BridgeCommand::Move { x: cmd.vx, y: cmd.vy, seq: (n + 1) as u64 }
            &&& c[1] == BridgeCommand::Turn { step: cmd.turn, seq: (n + 2) as u64 }
            &&& c[2] == BridgeCommand::Attitude {
                axis: AttitudeAxis::Roll,
                data: cmd.attitude_r,
                seq: (n + 3) as u64,
            }
            &&& c[3] == BridgeCommand::Attitude {
                axis: AttitudeAxis::Pitch,
                data: cmd.attitude_p,
                seq: (n + 4) as u64,
            }
            &&& c[4] == BridgeCommand::Attitude {
                axis: AttitudeAxis::Yaw,
                data: cmd.attitude_y,
                seq: (n + 5) as u64,
            }
            &&& c[5] == BridgeCommand::Arm { x: cmd.arm_x, z: cmd.arm_z, seq: (n + 6) as u64 }
            &&& c[6] == BridgeCommand::Claw { pos: cmd.claw, seq: (n + 7) as u64 }
        }),
{
    reveal(SessionView::full_commands);
}

/// While the robot gets up or down, the claw goes where the command says and
/// nothing else is driven.
pub proof fn lemma_settling_drives_the_claw(s: SessionView, cmd: TeleopCommand, now: Instant)
    requires
        s.settle_until matches Some(until) && now.nanos < until.nanos,
    ensures
        s.full_commands(cmd, now).len() == 1,
        s.full_commands(cmd, now)[0] == (BridgeCommand::Claw {
            pos: cmd.claw,
            seq: (s.channel_b_seq + 1) as u64,
        }),
{
    reveal(SessionView::full_commands);
}

/// What counts as a command is on the second channel, carries a command frame,
/// and comes while the session operates.
pub open spec fn is_command_datagram(data: Seq<u8>) -> bool {
    &&& data.len() > 0
    &&& data[0] == 0x01
    &&& channel_b::frame_ok(data.subrange(1, data.len() as int))
    &&& channel_b::frame_in(data.subrange(1, data.len() as int)).category
        == ChannelBCategory::Command
}

/// From the datagram to the driver: a command that comes while the session
/// operates and the robot is neither stopped nor suspended is carried out, part
/// by part, and then logged as it came, under the operator's control.
pub proof fn lemma_command_datagram_is_carried_out(
    s: SessionView,
    data: Seq<u8>,
    now: Instant,
    now_us: u64,
)
    requires
        s.phase == Phase::Operating,
        !s.safety.explicit_estop,
        !s.safety.watchdog.triggered,
        s.safety.watchdog.threshold_micros > 0,
        s.safety.machine.wf(),
        !s.safety.machine.suspended,
        s.settle_until matches Some(until) ==> until.nanos <= now.nanos,
        !s.sitting,
        is_command_datagram(data),
        channel_b::frame_in(data.subrange(1, data.len() as int)).fields.len() >= 20,
    ensures
        ({
            let payload = data.subrange(1, data.len() as int);
            let cmd = TeleopCommand::of_bytes(channel_b::frame_in(payload).fields);
            let (next, actions) = s.received(data, now, now_us);
            let n = s.channel_b_seq;
            &&& actions.len() == 8
            &&& actions[0] == ActionView::Drive(
                BridgeCommand::Move { x: cmd.vx, y: cmd.vy, seq: (n + 1) as u64 },
            )
            &&& actions[1] == ActionView::Drive(
                BridgeCommand::Turn { step: cmd.turn, seq: (n + 2) as u64 },
            )
            &&& actions[2] == ActionView::Drive(
                BridgeCommand::Attitude {
                    axis: AttitudeAxis::Roll,
                    data: cmd.attitude_r,
                    seq: (n + 3) as u64,
                },
            )
            &&& actions[3] == ActionView::Drive(
                BridgeCommand::Attitude {
                    axis: AttitudeAxis::Pitch,
                    data: cmd.attitude_p,
                    seq: (n + 4) as u64,
                },
            )
            &&& actions[4] == ActionView::Drive(
                BridgeCommand::Attitude {
                    axis: AttitudeAxis::Yaw,
                    data: cmd.attitude_y,
                    seq: (n + 5) as u64,
                },
            )
            &&& actions[5] == ActionView::Drive(
                BridgeCommand::Arm { x: cmd.arm_x, z: cmd.arm_z, seq: (n + 6) as u64 },
            )
            &&& actions[6] == ActionView::Drive(
                BridgeCommand::Claw { pos: cmd.claw, seq: (n + 7) as u64 },
            )
            &&& actions[7] == ActionView::Store {
                category: Category::ChannelBCommand,
                capture_us: now_us,
                control_source: 3,
                payload,
            }
            &&& next.channel_b_seq == (n + 7) as u64
            &&& next.safety.deadman_held
            &&& next.safety.command_fresh
            &&& next.safety.watchdog.last_heartbeat == now
            &&& !next.sitting
            &&& next.settle_until is None
            &&& next.phase == s.phase
        }),
{
    reveal(SessionView::full_commands);
    let attended = s.attended(now);
    let polled = attended.polled(now);
    task::lemma_source(polled.safety);
    assert(polled.safety.source() == ControlSource::FullTeleoperation);
}

/// A command that comes while the robot is stopped, or suspended, makes the
/// driver stop and is logged; it moves nothing. It still shows that the operator
/// is there.
pub proof fn lemma_command_datagram_while_held(
    s: SessionView,
    data: Seq<u8>,
    now: Instant,
    now_us: u64,
)
    requires
        s.phase == Phase::Operating,
        s.safety.explicit_estop || s.safety.watchdog.triggered || s.safety.machine.suspended,
        s.safety.watchdog.threshold_micros > 0,
        s.safety.machine.wf(),
        is_command_datagram(data),
        channel_b::frame_in(data.subrange(1, data.len() as int)).fields.len() >= 20,
    ensures
        ({
            let payload = data.subrange(1, data.len() as int);
            let (next, actions) = s.received(data, now, now_us);
            let stopped = s.safety.explicit_estop || s.safety.watchdog.triggered;
            &&& actions.len() == 2
            &&& actions[0] == ActionView::Drive(
                BridgeCommand::Stop { seq: (s.channel_b_seq + 1) as u64 },
            )
            &&& actions[1] == ActionView::Store {
                category: Category::ChannelBCommand,
                capture_us: now_us,
                control_source: if stopped {
                    0
                } else {
                    2
                },
                payload,
            }
            &&& next.channel_b_seq == (s.channel_b_seq + 1) as u64
            &&& next.sitting == s.sitting
            &&& next.settle_until == s.settle_until
            &&& next.safety.watchdog.last_heartbeat == now
            &&& next.safety.explicit_estop == s.safety.explicit_estop
            &&& next.safety.watchdog.triggered == s.safety.watchdog.triggered
        }),
{
    let polled = s.attended(now).polled(now);
    task::lemma_source(polled.safety);
}

/// A frame that is no command, or comes on another channel, does nothing; a
/// command that is too short only shows that the operator is there.
pub proof fn lemma_other_datagrams(s: SessionView, data: Seq<u8>, now: Instant, now_us: u64)
    requires
        data.len() == 0 || data[0] != 0xE5,
    ensures
        !is_command_datagram(data) ==> s.received(data, now, now_us) == (s, Seq::<
            ActionView,
        >::empty()),
        is_command_datagram(data) && s.phase == Phase::Operating && channel_b::frame_in(
            data.subrange(1, data.len() as int),
        ).fields.len() < 20 ==> {
            let (next, actions) = s.received(data, now, now_us);
            &&& actions.len() == 0
            &&& next.safety.deadman_held
            &&& next.safety.command_fresh
            &&& next.safety.watchdog.last_heartbeat == now
            &&& next.channel_b_seq == s.channel_b_seq
        },
{
}

/// A stop datagram works in every phase. One that says the robot is stopped
/// stops it; one that says otherwise ends the stop, whatever had caused it.
/// Either one shows that the operator is there. One that cannot be read does
/// nothing.
pub proof fn lemma_stop_datagram(s: SessionView, d: EstopDatagram, now: Instant, now_us: u64)
    ensures
        ({
            let (next, actions) = s.received(d.bytes(), now, now_us);
            &&& actions.len() == 0
            &&& next.safety.estopped() == (d.latched)
            &&& next.safety.watchdog.last_heartbeat == now
            &&& d.latched ==> next.safety.explicit_estop
            &&& next.phase == s.phase
            &&& next.safety.machine == s.safety.machine
            &&& next.safety.deadman_held == s.safety.deadman_held
            &&& next.sitting == s.sitting
            &&& next.channel_b_seq == s.channel_b_seq
        }),
{
    d.lemma_round_trip(Seq::empty());
    assert(d.bytes() + Seq::<u8>::empty() =~= d.bytes());
    assert(d.bytes()[0] == ESTOP_DATAGRAM_MAGIC);
}

/// The same on the reliable stream, which is the fifth one.
pub proof fn lemma_stop_stream(
    s: SessionView,
    d: EstopDatagram,
    described: Seq<u8>,
    now: Instant,
    now_us: u64,
)
    ensures
        ({
            let (next, actions, error) = s.streamed(5, d.bytes(), described, now, now_us);
            &&& actions.len() == 0
            &&& error is None
            &&& next.safety.estopped() == d.latched
            &&& d.latched ==> next.safety.explicit_estop
            &&& next.phase == s.phase
            &&& next.safety.machine == s.safety.machine
        }),
{
    d.lemma_round_trip(Seq::empty());
    assert(d.bytes() + Seq::<u8>::empty() =~= d.bytes());
}

/// How a session comes about. A greeting that can be agreed with is answered on
/// stream one with a description, once; one that cannot be ends the connection;
/// an acceptance on stream one starts operation. Nothing else does.
pub proof fn lemma_session_comes_about(
    s: SessionView,
    data: Seq<u8>,
    described: Seq<u8>,
    stream_id: u64,
    now: Instant,
    now_us: u64,
)
    ensures
        s.phase == Phase::AwaitingHello && hello_handler::hello_ok(data) ==> {
            let (next, actions, error) = s.streamed(0, data, described, now, now_us);
            let agreed = hello::negotiation(
                hello::local_offer(s.task_class),
                hello_handler::hello_in(data),
            ) is Ok;
            &&& error is None
            &&& agreed ==> next.phase == Phase::AwaitingSessionAccept
            &&& agreed && !s.describe_sent ==> actions == seq![
                ActionView::StreamSend { stream_id: 1, bytes: described },
            ]
            &&& agreed && s.describe_sent ==> actions.len() == 0
            &&& !agreed ==> next == s && actions == seq![
                ActionView::Close { reason: CloseReason::HelloIncompatible },
            ]
        },
        s.phase == Phase::AwaitingHello && !hello_handler::hello_ok(data) ==> {
            let (next, actions, error) = s.streamed(0, data, described, now, now_us);
            error is Some && next == s && actions.len() == 0
        },
        s.phase == Phase::AwaitingSessionAccept && session_handler::accept_ok(data) ==> {
            let (next, actions, error) = s.streamed(1, data, described, now, now_us);
            next.phase == Phase::Operating && error is None && actions.len() == 0
        },
        s.phase == Phase::AwaitingSessionAccept && !session_handler::accept_ok(data) ==> {
            let (next, actions, error) = s.streamed(1, data, described, now, now_us);
            error is Some && next == s && actions.len() == 0
        },
        s.streamed(stream_id, data, described, now, now_us).0.phase != s.phase ==> (stream_id == 0
            && s.phase == Phase::AwaitingHello) || (stream_id == 1 && s.phase
            == Phase::AwaitingSessionAccept),
{
}

/// A trigger that is later than all before, under full teleoperation, makes the
/// driver do that very action, once. Standing up and sitting down withhold
/// movement for two and a half seconds, and decide whether the robot sits; no
/// other action does either.
pub proof fn lemma_trigger_is_carried_out(s: SessionView, trigger: ActionTrigger, now: Instant)
    requires
        s.last_trigger matches Some(last) ==> trigger.trigger_seq > last,
        s.polled(now).safety.source() == ControlSource::FullTeleoperation,
        now.nanos <= u64::MAX - 2_500_000_000,
    ensures
        ({
            let (next, actions) = s.triggered(trigger, now);
            &&& actions == seq![
                ActionView::Drive(
                    BridgeCommand::Action {
                        id: trigger.action_id,
                        seq: (s.channel_b_seq + 1) as u64,
                    },
                ),
            ]
            &&& next.channel_b_seq == (s.channel_b_seq + 1) as u64
            &&& next.last_trigger == Some(trigger.trigger_seq)
            &&& trigger.action_id == 12 ==> next.sitting
            &&& trigger.action_id == 2 ==> !next.sitting
            &&& trigger.action_id == 2 || trigger.action_id == 12 ==> next.settle_until == Some(
                Instant { nanos: (now.nanos + 2_500_000_000) as u64 },
            )
            &&& trigger.action_id != 2 && trigger.action_id != 12 ==> next.settle_until
                == s.settle_until && next.sitting == s.sitting
        }),
{
}

/// A trigger that came before does nothing at all; one that finds the robot not
/// under full teleoperation is used up without an action.
pub proof fn lemma_trigger_is_refused(s: SessionView, trigger: ActionTrigger, now: Instant)
    ensures
        s.last_trigger matches Some(last) && trigger.trigger_seq <= last ==> s.triggered(
            trigger,
            now,
        ) == (s, Seq::<ActionView>::empty()),
        (s.last_trigger matches Some(last) ==> trigger.trigger_seq > last) && s.polled(
            now,
        ).safety.source() != ControlSource::FullTeleoperation ==> {
            let (next, actions) = s.triggered(trigger, now);
            &&& actions.len() == 0
            &&& next.last_trigger == Some(trigger.trigger_seq)
            &&& next.sitting == s.sitting
            &&& next.settle_until == s.settle_until
            &&& next.channel_b_seq == s.channel_b_seq
        },
{
}

/// A camera control that is later than all before reaches the camera, if there
/// is one, whether or not the robot is stopped; one that came before does
/// nothing.
pub proof fn lemma_camera_control_is_applied(s: SessionView, control: CameraControl)
    ensures
        (s.last_control matches Some(last) ==> control.control_seq > last) ==> {
            let (next, actions) = s.camera_set(control);
            &&& next == (SessionView { last_control: Some(control.control_seq), ..s })
            &&& s.has_camera ==> actions == seq![
                ActionView::ApplyCamera(capture::admitted(control)),
            ]
            &&& !s.has_camera ==> actions.len() == 0
        },
        s.last_control matches Some(last) && control.control_seq <= last ==> s.camera_set(control)
            == (s, Seq::<ActionView>::empty()),
{
}

/// Triggers come on stream four and camera controls on stream eight, while the
/// session operates. What comes there is logged as it came, before it is looked
/// at, even where it cannot be read.
pub proof fn lemma_control_streams(
    s: SessionView,
    data: Seq<u8>,
    described: Seq<u8>,
    now: Instant,
    now_us: u64,
)
    requires
        s.phase == Phase::Operating,
    ensures
        ({
            let stored = ActionView::Store {
                category: Category::ActionTriggerC,
                capture_us: now_us,
                control_source: 0xFF,
                payload: data,
            };
            let (a, did, error) = s.streamed(ACTION_TRIGGER_STREAM_ID, data, described, now, now_us);
            let (b, done, wrong) = s.streamed(
                CAMERA_CONTROL_STREAM_ID,
                data,
                described,
                now,
                now_us,
            );
            &&& did.len() > 0 && did[0] == stored
            &&& done.len() > 0 && done[0] == stored
            &&& error is None <==> action_trigger_handler::trigger_ok(data)
            &&& wrong is None <==> camera_control_handler::control_ok(data)
            &&& error is Some ==> a == s && did.len() == 1
            &&& wrong is Some ==> b == s && done.len() == 1
            &&& error is None ==> {
                let t = s.triggered(action_trigger_handler::trigger_in(data), now);
                a == t.0 && did.subrange(1, did.len() as int) == t.1
            }
            &&& wrong is None ==> {
                let c = s.camera_set(camera_control_handler::control_in(data));
                b == c.0 && done.subrange(1, done.len() as int) == c.1
            }
        }),
{
    let (a, did, error) = s.streamed(ACTION_TRIGGER_STREAM_ID, data, described, now, now_us);
    let (b, done, wrong) = s.streamed(CAMERA_CONTROL_STREAM_ID, data, described, now, now_us);
    if error is None {
        let t = s.triggered(action_trigger_handler::trigger_in(data), now);
        assert(did.subrange(1, did.len() as int) =~= t.1);
    }
    if wrong is None {
        let c = s.camera_set(camera_control_handler::control_in(data));
        assert(done.subrange(1, done.len() as int) =~= c.1);
    }
}

/// What every tick tells the driver: that the robot's end is alive, always; to
/// stop, exactly while the robot is stopped; that the stop is over, at the first
/// tick after it; and once in fifty ticks, to report.
pub proof fn lemma_tick_tells_the_driver(s: SessionView, now: Instant)
    ensures
        ({
            let stopped = s.polled(now).safety.source() == ControlSource::EStop;
            let c = s.tick_commands(s.polled(now).safety.source());
            let asked = (s.tick_count + 1) % 50 == 0;
            let told = stopped || s.driver_stopped;
            let n = s.channel_b_seq;
            &&& c.len() == 1 + (if told {
                1int
            } else {
                0int
            }) + (if asked {
                1int
            } else {
                0int
            })
            &&& c[0] == BridgeCommand::Heartbeat { seq: (n + 1) as u64 }
            &&& stopped ==> c[1] == BridgeCommand::Estop { seq: (n + 2) as u64 }
            &&& !stopped && s.driver_stopped ==> c[1] == BridgeCommand::EstopClear {
                seq: (n + 2) as u64,
            }
            &&& asked && told ==> c[2] == BridgeCommand::Query { seq: (n + 3) as u64 }
            &&& asked && !told ==> c[1] == BridgeCommand::Query { seq: (n + 2) as u64 }
        }),
{
    reveal(driver_commands);
}

/// What every tick does to the session: it counts; it notes whether the driver
/// is stopped; the numbers of its commands and of its frame are used up; and
/// nothing else changes but the watchdog.
pub proof fn lemma_tick_counts(s: SessionView, established: bool, now: Instant)
    requires
        s.has_room(),
    ensures
        ({
            let next = s.ticked(established, now);
            let source = s.polled(now).safety.source();
            &&& next.tick_count == s.tick_count + 1
            &&& next.estop_seq == s.estop_seq + 1
            &&& next.estop_primed == (s.estop_primed || established)
            &&& next.driver_stopped == (source == ControlSource::EStop)
            &&& s.phase == Phase::Operating ==> next.channel_b_seq == s.channel_b_seq
                + s.tick_commands(source).len() + 1
            &&& s.phase != Phase::Operating ==> next.channel_b_seq == s.channel_b_seq
                + s.tick_commands(source).len()
            &&& next.phase == s.phase
            &&& next.sitting == s.sitting
            &&& next.settle_until == s.settle_until
            &&& next.telemetry == s.telemetry
            &&& next.reported_latched == s.reported_latched
            &&& next.safety.machine == s.safety.machine
            &&& next.safety.explicit_estop == s.safety.explicit_estop
            &&& next.safety.watchdog.last_heartbeat == s.safety.watchdog.last_heartbeat
        }),
{
    lemma_driver_commands(
        s.channel_b_seq,
        s.driver_stopped,
        s.tick_count + 1,
        s.polled(now).safety.source(),
    );
}

/// What every tick sends: the state of the stop as a datagram, always; on its
/// stream too, once that has its priority and whenever it was not reported yet;
/// and while the session operates a telemetry frame, logged and then sent under
/// its tag. Before the session operates no telemetry goes out.
pub proof fn lemma_tick_sends(
    s: SessionView,
    established: bool,
    frame: Seq<u8>,
    now: Instant,
    now_us: u64,
)
    requires
        s.has_room(),
    ensures
        ({
            let all = s.tick_actions(established, frame, now, now_us);
            let latched = s.polled(now).safety.estopped();
            let beacon = (EstopDatagram { latched, seq: (s.estop_seq + 1) as u64 }).bytes();
            let first = !s.estop_primed && established;
            let at: int = if first {
                1
            } else {
                0
            };
            let n = all.len() as int;
            &&& first ==> all[0] == ActionView::PrioritizeEstop
            &&& all[at] == ActionView::DatagramSend { bytes: beacon }
            &&& (s.estop_primed || established) && s.reported_latched != Some(latched) ==> all[at
                + 1] == ActionView::StreamSend { stream_id: 5, bytes: beacon }
            &&& !((s.estop_primed || established) && s.reported_latched != Some(latched)) ==> all[at
                + 1] == ActionView::Drive(
                BridgeCommand::Heartbeat { seq: (s.channel_b_seq + 1) as u64 },
            )
            &&& s.phase == Phase::Operating ==> {
                &&& n >= 2
                &&& all[n - 2] == ActionView::Store {
                    category: Category::ChannelBTelemetry,
                    capture_us: now_us,
                    control_source: recording::source_byte(s.polled(now).safety.source()),
                    payload: frame,
                }
                &&& all[n - 1] == ActionView::DatagramSend { bytes: seq![0x01u8] + frame }
            }
            &&& s.phase != Phase::Operating ==> all[n - 1] is Drive
        }),
{
    reveal(stop_actions);
    reveal(driver_commands);
    reveal(frame_actions);
    let source = s.polled(now).safety.source();
    let stops = stop_actions(s.estop_primed, established, s.reported_latched, s.beacon(now));
    let commands = drives(s.tick_commands(source));
    lemma_driver_commands(s.channel_b_seq, s.driver_stopped, s.tick_count + 1, source);
    let all = s.tick_actions(established, frame, now, now_us);
    assert(commands[0] == ActionView::Drive(s.tick_commands(source)[0]));
    assert(commands[commands.len() - 1] is Drive);
    assert(all[stops.len() as int] == commands[0]);
    assert(all[stops.len() + commands.len() - 1] == commands[commands.len() - 1]);
}

/// What a report of the driver does: telemetry is kept as it is, to be sent with
/// the next tick; a driver that ended, or was given up, stops the robot; anything
/// else is only heard.
pub proof fn lemma_driver_reports(s: SessionView, event: SupervisorEvent)
    ensures
        event matches SupervisorEvent::FromBridge(BridgeEvent::Telemetry(t))
            ==> s.driver_reported(event) == (SessionView { telemetry: Some(t.bytes()), ..s }),
        event is ProcessDied || event is GaveUp ==> s.driver_reported(event).safety.explicit_estop
            && s.driver_reported(event).safety.estopped() && s.driver_reported(event).telemetry
            == s.telemetry && s.driver_reported(event).phase == s.phase,
        event matches SupervisorEvent::FromBridge(e) && !(e is Telemetry) ==> s.driver_reported(
            event,
        ) == s,
{
}

/// What goes out with a tick is the newest telemetry, or none while there is
/// none, under the tick's number and time.
pub proof fn lemma_telemetry_goes_out(frame: Seq<u8>, s: SessionView, seq: u64, now_us: u64)
    requires
        reports(frame, s, seq, now_us),
    ensures
        channel_b::frame_ok(frame),
        channel_b::frame_in(frame).timestamp == now_us,
        channel_b::frame_in(frame).seq == seq,
        channel_b::frame_in(frame).category == ChannelBCategory::Telemetry,
        channel_b::frame_in(frame).region_id == 0xFF,
        s.telemetry matches Some(t) ==> channel_b::frame_in(frame).fields == t,
        s.telemetry is None ==> channel_b::frame_in(frame).fields.len() == 0,
{
}

} // verus!
