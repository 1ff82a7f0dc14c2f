//! What the operator's side does with the passing of time, and when the
//! connection is lost.

use vstd::prelude::*;
use super::{Client, Phase};
use super::{
    action, append, ask, channel_b, datagram, encode_channel_b_frame, just, nothing, time, Action,
    ActionView, Category, ChannelBCategory, ChannelBFrameData, ConnPhase, Duration, HeldCommand,
    HudState, Instant, Record, StickXMode, TeleopInput, ALL_REGIONS, CONTROL_SOURCE_SENTINEL,
    DATAGRAM_TAG_CHANNEL_B,
};
use crate::channel_b::TeleopCommand;

verus! {

/// How long a resumed connection has to come about.
pub const RESUME_ESTABLISH_TIMEOUT_MS: u64 = 1500;

/// The pause after a connection attempt that failed at once.
pub const RECONNECT_ERROR_BACKOFF_MS: u64 = 500;

/// What the gamepad and the recorder report at a tick.
#[derive(Debug, Clone, Copy, PartialEq, Eq, Structural)]
pub struct TickReport {
    pub gamepad_connected: bool,
    pub stick_mode: StickXMode,
    pub recording_dropped: u64,
}

impl Client {
    /// Has nothing refreshed the movement for too long?
    pub open spec fn stale(self, now: Instant) -> bool {
        self.last_move_input_at matches Some(last) && time::elapsed(last, now)
            >= self.move_stale.nanos
    }

    /// The state when the frame of a tick is made, but for that frame: reports
    /// are taken in, stale movement is stopped, a scripted action is fired.
    pub open spec fn tick_prepared(self, report: TickReport, now: Instant) -> Client {
        let a = Client {
            hud: HudState {
                gamepad_connected: report.gamepad_connected,
                gamepad_stick_mode: report.stick_mode,
                recording_dropped: report.recording_dropped,
                ..self.hud
            },
            ..self
        };
        let b = if self.stale(now) {
            a.holding(a.last_command.standing_still())
        } else {
            a
        };
        Client {
            demo_action: None,
            ..if self.demo_action is Some {
                b.triggered()
            } else {
                b
            }
        }
    }

    /// After a tick.
    pub open spec fn ticked(
        self,
        after: Client,
        report: TickReport,
        frame: Seq<u8>,
        now: Instant,
    ) -> bool {
        let p = self.tick_prepared(report, now);
        &&& after.hud.command_rate@ == self.hud.command_rate@.recorded(now, frame.len() as usize)
        &&& after == (Client {
            channel_b_seq: (self.channel_b_seq + 1) as u64,
            hud: HudState {
                command_rate: after.hud.command_rate,
                command_last_seq: (self.channel_b_seq + 1) as u64,
                ..p.hud
            },
            ..p
        })
    }

    /// Is this the message of the scripted action, if there is one?
    pub open spec fn demo_message(self, trigger: Seq<u8>) -> bool {
        self.demo_action matches Some(id) ==> super::fires(trigger, self.next_trigger(id))
    }

    pub open spec fn demo_actions(self, trigger: Seq<u8>, now_us: u64) -> Seq<ActionView> {
        if self.demo_action is Some {
            self.trigger_actions(trigger, now_us)
        } else {
            Seq::empty()
        }
    }

    /// What a tick asks for. `trigger` is the scripted action's message, `frame`
    /// carries the held command.
    pub open spec fn tick_actions(
        self,
        trigger: Seq<u8>,
        frame: Seq<u8>,
        now_us: u64,
    ) -> Seq<ActionView> {
        self.demo_actions(trigger, now_us) + seq![
            super::stored(Category::ChannelBCommand, now_us, frame),
            ActionView::DatagramSend { bytes: datagram::tagged(DATAGRAM_TAG_CHANNEL_B, frame) },
        ]
    }

    /// Are these the messages of a tick?
    pub open spec fn tick_messages(
        self,
        trigger: Seq<u8>,
        frame: Seq<u8>,
        report: TickReport,
        now: Instant,
        now_us: u64,
    ) -> bool {
        &&& self.demo_message(trigger)
        &&& super::commands(
            frame,
            self.tick_prepared(report, now).last_command,
            (self.channel_b_seq + 1) as u64,
            now_us,
        )
    }

    /// The regular tick: the held command goes out, once the session operates.
    pub fn on_tick(&mut self, report: TickReport, now: Instant, now_us: u64) -> (actions: Vec<Action>)
        requires
            old(self).wf(),
            old(self).has_room(),
        ensures
            final(self).wf(),
            old(self).phase != Phase::Operating ==> *final(self) == *old(self) && action::views(
                actions@,
            ) == Seq::<ActionView>::empty(),
            old(self).phase == Phase::Operating ==> exists|trigger: Seq<u8>, frame: Seq<u8>|
                #[trigger] old(self).tick_messages(trigger, frame, report, now, now_us)
                    && old(self).ticked(*final(self), report, frame, now) && action::views(actions@)
                    == old(self).tick_actions(trigger, frame, now_us),
    {
        if self.phase != Phase::Operating {
            return nothing();
        }
        let ghost before = *self;
        let mut actions = self.prepare_tick(report, now, now_us);
        let ghost prepared = *self;
        let ghost first = action::views(actions@);
        let mut more = self.send_command(now, now_us);
        proof {
            let trigger = choose|b: Seq<u8>| #[trigger]
                before.demo_message(b) && first == before.demo_actions(b, now_us);
            let frame = choose|frame: Seq<u8>| #[trigger]
                super::commands(
                    frame,
                    prepared.last_command,
                    (prepared.channel_b_seq + 1) as u64,
                    now_us,
                ) && sent_command(*self, prepared, frame, now) && action::views(more@)
                    == frame_actions(frame, now_us);
            assert(before.tick_messages(trigger, frame, report, now, now_us));
            assert(before.ticked(*self, report, frame, now));
            assert(first + frame_actions(frame, now_us) == before.tick_actions(
                trigger,
                frame,
                now_us,
            ));
        }
        append(&mut actions, &mut more);
        actions
    }

    /// Takes in the reports, stops stale movement and fires a scripted action.
    fn prepare_tick(&mut self, report: TickReport, now: Instant, now_us: u64) -> (actions: Vec<
        Action,
    >)
        requires
            old(self).wf(),
            old(self).has_room(),
        ensures
            final(self).wf(),
            *final(self) == old(self).tick_prepared(report, now),
            exists|trigger: Seq<u8>|
                #[trigger] old(self).demo_message(trigger) && action::views(actions@) == old(
                    self,
                ).demo_actions(trigger, now_us),
    {
        self.hud.gamepad_connected = report.gamepad_connected;
        self.hud.gamepad_stick_mode = report.stick_mode;
        self.hud.recording_dropped = report.recording_dropped;
        if let Some(last) = self.last_move_input_at {
            let idle = now.saturating_duration_since(last);
            if idle.nanos >= self.move_stale.nanos && self.last_command.is_moving() {
                self.last_command.stop_moving();
                self.hud.held = self.last_command;
            }
        }
        let demo: Option<u8> = self.demo_action;
        self.demo_action = None;
        let ghost at = *self;
        match demo {
            Some(id) => {
                let sent = self.send_action_trigger(id, now_us);
                proof {
                    let trigger = choose|b: Seq<u8>| #[trigger]
                        super::fires(b, at.next_trigger(id)) && action::views(sent@)
                            == at.trigger_actions(b, now_us);
                    assert(old(self).demo_message(trigger));
                }
                sent
            },
            None => {
                proof {
                    assert(old(self).demo_message(Seq::empty()));
                }
                nothing()
            },
        }
    }

    fn send_command(&mut self, now: Instant, now_us: u64) -> (actions: Vec<Action>)
        requires
            old(self).wf(),
            old(self).channel_b_seq < u64::MAX,
        ensures
            final(self).wf(),
            exists|frame: Seq<u8>|
                #[trigger] super::commands(
                    frame,
                    old(self).last_command,
                    (old(self).channel_b_seq + 1) as u64,
                    now_us,
                ) && sent_command(*final(self), *old(self), frame, now) && action::views(actions@)
                    == frame_actions(frame, now_us),
    {
        self.channel_b_seq = self.channel_b_seq + 1;
        let fields: Vec<u8> = self.last_command.to_wire().pack();
        let data = ChannelBFrameData {
            timestamp: now_us,
            seq: self.channel_b_seq,
            tick_id: 0,
            category: ChannelBCategory::Command,
            region_id: ALL_REGIONS,
            fields,
        };
        let bytes: Vec<u8> = encode_channel_b_frame(&data);
        let ghost frame = bytes@;
        let len: usize = bytes.len();
        let tagged: Vec<u8> = datagram::tag(DATAGRAM_TAG_CHANNEL_B, bytes.as_slice());
        let record = Record {
            capture_us: now_us,
            control_source: CONTROL_SOURCE_SENTINEL,
            payload: bytes,
        };
        let mut actions = just(Action::Store { category: Category::ChannelBCommand, record });
        ask(&mut actions, Action::DatagramSend { bytes: tagged });
        self.hud.command_rate.record(now, len);
        self.hud.command_last_seq = self.channel_b_seq;
        proof {
            assert(super::commands(
                frame,
                old(self).last_command,
                (old(self).channel_b_seq + 1) as u64,
                now_us,
            ));
            assert(action::views(actions@) =~= frame_actions(frame, now_us));
        }
        actions
    }
}

spec fn sent_command(after: Client, before: Client, frame: Seq<u8>, now: Instant) -> bool {
    &&& after.hud.command_rate@ == before.hud.command_rate@.recorded(now, frame.len() as usize)
    &&& after == (Client {
        channel_b_seq: (before.channel_b_seq + 1) as u64,
        hud: HudState {
            command_rate: after.hud.command_rate,
            command_last_seq: (before.channel_b_seq + 1) as u64,
            ..before.hud
        },
        ..before
    })
}

spec fn frame_actions(frame: Seq<u8>, now_us: u64) -> Seq<ActionView> {
    seq![
        super::stored(Category::ChannelBCommand, now_us, frame),
        ActionView::DatagramSend { bytes: datagram::tagged(DATAGRAM_TAG_CHANNEL_B, frame) },
    ]
}

/// What is left to do when the connection is gone.
#[derive(Debug, Clone, Copy, PartialEq, Eq, Structural)]
pub enum ClosedStep {
    /// Nobody watches: end the program.
    Exit,
    /// Keep trying until there is a connection or the operator gives up.
    Reconnect,
}

/// What happens while a connection is sought.
#[derive(Debug, Clone, Copy, PartialEq, Eq, Structural)]
pub enum ReconnectEvent {
    Connected,
    AttemptFailed,
    /// A key, or that no more keys will come.
    Input(Option<TeleopInput>),
    /// Anything that the gamepad sends.
    GamepadInput,
    /// The pause after a failure is over.
    PauseOver,
}

/// What to do then.
#[derive(Debug, Clone, Copy, PartialEq, Eq, Structural)]
pub enum ReconnectStep {
    Resume,
    Pause { ms: u64 },
    GiveUp,
    TryAgain,
}

/// Only the operator ends the search, and only a connection does so with
/// success.
pub open spec fn reconnect_decision(event: ReconnectEvent) -> ReconnectStep {
    match event {
        ReconnectEvent::Connected => ReconnectStep::Resume,
        ReconnectEvent::AttemptFailed => ReconnectStep::Pause { ms: RECONNECT_ERROR_BACKOFF_MS },
        ReconnectEvent::Input(input) => if input is None || input == Some(TeleopInput::Quit) {
            ReconnectStep::GiveUp
        } else {
            ReconnectStep::TryAgain
        },
        ReconnectEvent::GamepadInput => ReconnectStep::TryAgain,
        ReconnectEvent::PauseOver => ReconnectStep::TryAgain,
    }
}

/// What to do about a resumed connection.
#[derive(Debug, Clone, Copy, PartialEq, Eq, Structural)]
pub enum ResumeStep {
    Use,
    Wait,
    /// Forget the ticket and connect afresh.
    EvictAndRetry,
}

pub open spec fn resume_decision(
    offered_ticket: bool,
    established: bool,
    closed: bool,
    timed_out: bool,
) -> ResumeStep {
    if !offered_ticket || established {
        ResumeStep::Use
    } else if closed || timed_out {
        ResumeStep::EvictAndRetry
    } else {
        ResumeStep::Wait
    }
}

/// A connection without a ticket is used as it is. One with a ticket has to
/// come about in time.
pub fn resume_step(offered_ticket: bool, established: bool, closed: bool, timed_out: bool) -> (step:
    ResumeStep)
    ensures
        step == resume_decision(offered_ticket, established, closed, timed_out),
{
    if !offered_ticket || established {
        ResumeStep::Use
    } else if closed || timed_out {
        ResumeStep::EvictAndRetry
    } else {
        ResumeStep::Wait
    }
}

impl Client {
    /// The connection is gone.
    pub fn on_closed(&mut self, headless: bool, now: Instant) -> (step: ClosedStep)
        ensures
            old(self).wf() ==> final(self).wf(),
            *final(self) == (Client {
                hud: HudState {
                    phase: ConnPhase::Closed,
                    disconnected_at: Some(now),
                    reconnect_attempts: 0,
                    ..old(self).hud
                },
                ..*old(self)
            }),
            step == if headless {
                ClosedStep::Exit
            } else {
                ClosedStep::Reconnect
            },
    {
        self.hud.phase = ConnPhase::Closed;
        self.hud.disconnected_at = Some(now);
        self.hud.reconnect_attempts = 0;
        if headless {
            ClosedStep::Exit
        } else {
            ClosedStep::Reconnect
        }
    }

    /// Another attempt begins.
    pub fn on_reconnect_attempt(&mut self)
        ensures
            old(self).wf() ==> final(self).wf(),
            *final(self) == (Client {
                hud: HudState {
                    reconnect_attempts: if old(self).hud.reconnect_attempts < u32::MAX {
                        (old(self).hud.reconnect_attempts + 1) as u32
                    } else {
                        u32::MAX
                    },
                    ..old(self).hud
                },
                ..*old(self)
            }),
    {
        if self.hud.reconnect_attempts < u32::MAX {
            self.hud.reconnect_attempts = self.hud.reconnect_attempts + 1;
        }
    }

    /// Something happened while a connection is sought. With a connection the
    /// session starts over; what is held stays held.
    pub fn on_reconnect_event(&mut self, event: ReconnectEvent) -> (step: ReconnectStep)
        ensures
            old(self).wf() ==> final(self).wf(),
            step == reconnect_decision(event),
            *final(self) == if event == ReconnectEvent::Connected {
                Client {
                    phase: Phase::AwaitingHello,
                    session_info: None,
                    hud: HudState {
                        phase: ConnPhase::AwaitingHello,
                        robot_id: None,
                        dof_count: None,
                        camera_shape: None,
                        disconnected_at: None,
                        ..old(self).hud
                    },
                    ..*old(self)
                }
            } else {
                *old(self)
            },
    {
        match event {
            ReconnectEvent::Connected => {
                self.phase = Phase::AwaitingHello;
                self.session_info = None;
                self.hud.phase = ConnPhase::AwaitingHello;
                self.hud.robot_id = None;
                self.hud.dof_count = None;
                self.hud.camera_shape = None;
                self.hud.disconnected_at = None;
                ReconnectStep::Resume
            },
            ReconnectEvent::AttemptFailed => ReconnectStep::Pause {
                ms: RECONNECT_ERROR_BACKOFF_MS,
            },
            ReconnectEvent::Input(input) => {
                match input {
                    Some(TeleopInput::Quit) => ReconnectStep::GiveUp,
                    None => ReconnectStep::GiveUp,
                    _ => ReconnectStep::TryAgain,
                }
            },
            ReconnectEvent::GamepadInput => ReconnectStep::TryAgain,
            ReconnectEvent::PauseOver => ReconnectStep::TryAgain,
        }
    }
}

/// A key that is no longer held stops the robot: once the movement is stale,
/// the command that goes out has no velocity.
pub proof fn lemma_stale_movement_stops(c: Client, report: TickReport, now: Instant)
    requires
        c.stale(now),
    ensures
        ({
            let h = c.tick_prepared(report, now).last_command;
            h.vx == 0 && h.vy == 0 && h.turn == 0
        }),
{
}

/// A movement that is still being refreshed is sent as it is held.
pub proof fn lemma_fresh_movement_kept(c: Client, report: TickReport, now: Instant)
    requires
        !c.stale(now),
        c.demo_action is None,
    ensures
        c.tick_prepared(report, now).last_command == c.last_command,
{
}

/// What the robot reads from a frame of a tick is the command that is held,
/// moved into the wire's range.
pub proof fn lemma_command_reaches_robot(frame: Seq<u8>, h: HeldCommand, seq: u64, now_us: u64)
    requires
        super::commands(frame, h, seq, now_us),
    ensures
        channel_b::frame_in(frame).fields.len() == 20,
        TeleopCommand::of_bytes(channel_b::frame_in(frame).fields) == h.sent().clamped(),
{
    h.sent().lemma_round_trip();
}

/// Movement is stale exactly when no movement key has come for as long as the
/// client waits for one. Then velocities are given up, and only they; before
/// that the held command goes out as it is. A scripted action gives them up
/// too.
pub proof fn lemma_what_a_tick_sends(c: Client, report: TickReport, now: Instant)
    ensures
        ({
            let sent = c.tick_prepared(report, now).last_command;
            let waited = c.last_move_input_at is Some && now.nanos
                >= c.last_move_input_at->0.nanos && now.nanos - c.last_move_input_at->0.nanos
                >= c.move_stale.nanos;
            let stopped = HeldCommand { vx: 0, vy: 0, turn: 0, ..c.last_command };
            &&& waited ==> sent == stopped
            &&& !waited && c.demo_action is None && (c.move_stale.nanos > 0
                || c.last_move_input_at is None) ==> sent == c.last_command
            &&& c.demo_action is Some && c.phase == Phase::Operating ==> sent == stopped
            &&& c.hud.held == c.last_command ==> c.tick_prepared(report, now).hud.held == sent
            &&& c.tick_prepared(report, now).demo_action is None
            &&& c.tick_prepared(report, now).hud.gamepad_connected == report.gamepad_connected
            &&& c.tick_prepared(report, now).hud.gamepad_stick_mode == report.stick_mode
            &&& c.tick_prepared(report, now).hud.recording_dropped == report.recording_dropped
            &&& c.tick_prepared(report, now).estop_seq == c.estop_seq
            &&& c.tick_prepared(report, now).camera_controls == c.camera_controls
        }),
{
}

/// What a tick does with its frame: it is logged as it is and then sent under
/// the tag of the second channel; a scripted action goes before it, on the
/// fourth stream.
pub proof fn lemma_tick_logs_and_sends(c: Client, trigger: Seq<u8>, frame: Seq<u8>, now_us: u64)
    requires
        c.phase == Phase::Operating,
    ensures
        ({
            let asked = c.tick_actions(trigger, frame, now_us);
            let n = asked.len() as int;
            &&& n >= 2
            &&& asked[n - 2] == ActionView::Store {
                category: Category::ChannelBCommand,
                capture_us: now_us,
                control_source: 0xFF,
                payload: frame,
            }
            &&& asked[n - 1] == ActionView::DatagramSend { bytes: seq![0x01u8] + frame }
            &&& c.demo_action is None ==> n == 2
            &&& c.demo_action is Some ==> n == 4 && asked[1] == (ActionView::StreamSend {
                stream_id: 4,
                bytes: trigger,
            })
        }),
{
}

/// From the console's held command to the robot's driver: the frame of a tick,
/// tagged, makes a robot that operates and is neither stopped, suspended, sitting
/// nor getting up or down do what is held. It moves forwards, sideways and turns
/// by what is held to the nearest hundredth, as far as the wire carries it, and
/// its arm and claw go where they are held.
pub proof fn lemma_held_command_drives_robot(
    frame: Seq<u8>,
    h: HeldCommand,
    seq: u64,
    sent_us: u64,
    robot: crate::session::SessionView,
    now: Instant,
    now_us: u64,
)
    requires
        super::commands(frame, h, seq, sent_us),
        h.in_range(),
        -327_000_000 <= h.vx <= 327_000_000,
        -327_000_000 <= h.vy <= 327_000_000,
        -327_000_000 <= h.turn <= 327_000_000,
        robot.phase == crate::session::Phase::Operating,
        !robot.safety.explicit_estop,
        !robot.safety.watchdog.triggered,
        robot.safety.watchdog.threshold_micros > 0,
        robot.safety.machine.wf(),
        !robot.safety.machine.suspended,
        robot.settle_until is None,
        !robot.sitting,
    ensures
        ({
            let actions = robot.received(seq![0x01u8] + frame, now, now_us).1;
            let c = |i: int| actions[i]->Drive_0;
            &&& actions.len() == 8
            &&& actions[0] is Drive && c(0) is Move
            &&& -5_000 <= c(0)->Move_x * 10_000 - h.vx <= 5_000
            &&& -5_000 <= c(0)->Move_y * 10_000 - h.vy <= 5_000
            &&& actions[1] is Drive && c(1) is Turn
            &&& -5_000 <= c(1)->step * 10_000 - h.turn <= 5_000
            &&& actions[2] is Drive && c(2) is Attitude && c(2)->axis
                == crate::input::AttitudeAxis::Roll
            &&& -5_000 <= c(2)->data * 10_000 - h.attitude_r <= 5_000
            &&& actions[3] is Drive && c(3) is Attitude && c(3)->axis
                == crate::input::AttitudeAxis::Pitch
            &&& -5_000 <= c(3)->data * 10_000 - h.attitude_p <= 5_000
            &&& actions[4] is Drive && c(4) is Attitude && c(4)->axis
                == crate::input::AttitudeAxis::Yaw
            &&& -5_000 <= c(4)->data * 10_000 - h.attitude_y <= 5_000
            &&& actions[5] is Drive && c(5) is Arm && c(5)->Arm_x == h.arm_x && c(5)->Arm_z
                == h.arm_z
            &&& actions[6] is Drive && c(6) is Claw && c(6)->pos == h.claw
        }),
{
    let data = seq![0x01u8] + frame;
    assert(data.subrange(1, data.len() as int) =~= frame);
    lemma_command_reaches_robot(frame, h, seq, sent_us);
    crate::client_state::lemma_sent_is_held(h);
    crate::session::lemma_command_datagram_is_carried_out(robot, data, now, now_us);
}

/// What happens while a connection is sought: with one, the session goes on;
/// after a failure there is a pause; the key for leaving, or the end of all keys,
/// gives up; everything else tries again.
pub proof fn lemma_reconnect_decisions(input: TeleopInput)
    ensures
        reconnect_decision(ReconnectEvent::Connected) == ReconnectStep::Resume,
        reconnect_decision(ReconnectEvent::AttemptFailed) is Pause,
        reconnect_decision(ReconnectEvent::Input(None)) == ReconnectStep::GiveUp,
        reconnect_decision(ReconnectEvent::Input(Some(TeleopInput::Quit)))
            == ReconnectStep::GiveUp,
        !(input is Quit) ==> reconnect_decision(ReconnectEvent::Input(Some(input)))
            == ReconnectStep::TryAgain,
        reconnect_decision(ReconnectEvent::GamepadInput) == ReconnectStep::TryAgain,
        reconnect_decision(ReconnectEvent::PauseOver) == ReconnectStep::TryAgain,
{
}

/// A ticket is given up exactly where a connection that was to use it was closed
/// or took too long, without having come about.
pub proof fn lemma_ticket_is_given_up(
    offered_ticket: bool,
    established: bool,
    closed: bool,
    timed_out: bool,
)
    ensures
        resume_decision(offered_ticket, established, closed, timed_out) == ResumeStep::EvictAndRetry
            <==> offered_ticket && !established && (closed || timed_out),
        resume_decision(offered_ticket, established, closed, timed_out) == ResumeStep::Wait
            <==> offered_ticket && !established && !closed && !timed_out,
{
}

} // verus!
