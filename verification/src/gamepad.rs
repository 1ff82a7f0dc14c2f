//! Gamepad input: which buttons and sticks mean what.
//!
//! Stick deflections are in millionths of full deflection. Held controls are
//! sent again and again, so that a steady stick does not count as released.

use vstd::prelude::*;
use crate::fixed;
use crate::fixed::{round_away, Micro};
use crate::input::{AttitudeAxis, TeleopInput};

verus! {

/// A deflection up to this does not count.
pub const STICK_DEADZONE: i32 = 150_000;

/// How often held controls are sent again.
pub const REFRESH_INTERVAL_MS: u64 = 120;

pub const MOVE_SCALE: i64 = 15;

pub const STRAFE_SCALE: i64 = 12;

pub const TURN_SCALE: i64 = 60;

/// Nudge of an attitude axis per refresh at full deflection, in tenths of a
/// degree.
pub const ATTITUDE_TICK_STEP_TENTHS: i64 = 6;

pub const ARM_STEP_MM: i16 = 10;

pub const ARM_STEP_FINE_MM: i16 = 2;

pub const CLAW_TICK_STEP: i8 = 8;

/// What the right stick's horizontal axis does.
#[derive(Debug, Clone, Copy, PartialEq, Eq, Structural)]
pub enum StickXMode {
    Turn,
    Roll,
    Yaw,
}

pub open spec fn mode_label(mode: StickXMode) -> Seq<char> {
    match mode {
        StickXMode::Turn => "turn"@,
        StickXMode::Roll => "roll"@,
        StickXMode::Yaw => "yaw"@,
    }
}

impl StickXMode {
    pub fn label(self) -> (s: &'static str)
        ensures
            s@ == mode_label(self),
    {
        match self {
            StickXMode::Turn => "turn",
            StickXMode::Roll => "roll",
            StickXMode::Yaw => "yaw",
        }
    }
}

/// The controls that have a meaning, by their place on the pad.
#[derive(Debug, Clone, Copy, PartialEq, Eq, Structural)]
pub enum Button {
    South,
    East,
    West,
    North,
    Start,
    Select,
    LeftTrigger,
    RightTrigger,
    LeftTrigger2,
    LeftThumb,
    RightThumb,
    DPadUp,
    DPadDown,
    DPadLeft,
    DPadRight,
    Other,
}

#[derive(Debug, Clone, Copy, PartialEq, Eq, Structural)]
pub enum Axis {
    LeftStickX,
    LeftStickY,
    RightStickX,
    RightStickY,
    Other,
}

#[derive(Debug, Clone, Copy, PartialEq, Eq, Structural)]
pub enum PadEvent {
    AxisChanged { axis: Axis, value: i32 },
    ButtonPressed(Button),
    ButtonReleased(Button),
    Other,
}

/// Deflections, held buttons and latched modes.
#[derive(Debug, Clone, Copy, PartialEq, Eq, Structural)]
pub struct PadState {
    pub left_x: i32,
    pub left_y: i32,
    pub right_x: i32,
    pub right_y: i32,
    pub lb_held: bool,
    pub rb_held: bool,
    pub l3_held: bool,
    pub r3_held: bool,
    pub stick_x_mode: StickXMode,
    pub arm_fine_mode: bool,
    pub dpad_up: bool,
    pub dpad_down: bool,
    pub dpad_left: bool,
    pub dpad_right: bool,
}

impl Default for PadState {
    fn default() -> (s: Self)
        ensures
            s.at_rest(),
            s.left_x == 0 && s.left_y == 0 && s.right_x == 0 && s.right_y == 0,
            s.stick_x_mode == StickXMode::Turn,
            !s.arm_fine_mode,
            !s.l3_held && !s.r3_held,
    {
        PadState {
            left_x: 0,
            left_y: 0,
            right_x: 0,
            right_y: 0,
            lb_held: false,
            rb_held: false,
            l3_held: false,
            r3_held: false,
            stick_x_mode: StickXMode::Turn,
            arm_fine_mode: false,
            dpad_up: false,
            dpad_down: false,
            dpad_left: false,
            dpad_right: false,
        }
    }
}

/// Is a stick moved out of its dead zone?
pub open spec fn deflected(value: i32) -> bool {
    value > STICK_DEADZONE || value < -STICK_DEADZONE
}

fn is_deflected(value: i32) -> (b: bool)
    ensures
        b == deflected(value),
{
    value > STICK_DEADZONE || value < -STICK_DEADZONE
}

/// The nudge of an attitude axis that a deflection asks for.
pub open spec fn tick_nudge(value: int) -> int {
    fixed::rounded_away(value * ATTITUDE_TICK_STEP_TENTHS, 10)
}

fn attitude_nudge(value: i64) -> (r: Micro)
    requires
        -0x1_0000_0000 <= value <= 0x1_0000_0000,
    ensures
        r == tick_nudge(value as int),
{
    round_away(value * ATTITUDE_TICK_STEP_TENTHS, 10)
}

impl PadState {
    /// No stick is deflected and nothing that is sent again is held.
    pub open spec fn at_rest(self) -> bool {
        &&& !deflected(self.left_x) && !deflected(self.left_y)
        &&& !deflected(self.right_x) && !deflected(self.right_y)
        &&& !self.lb_held && !self.rb_held
        &&& !self.dpad_up && !self.dpad_down && !self.dpad_left && !self.dpad_right
    }

    pub open spec fn step(self) -> i16 {
        if self.arm_fine_mode {
            ARM_STEP_FINE_MM
        } else {
            ARM_STEP_MM
        }
    }

    /// The state after a button went down.
    pub open spec fn down(self, button: Button) -> PadState {
        match button {
            Button::LeftTrigger2 => PadState { arm_fine_mode: !self.arm_fine_mode, ..self },
            Button::LeftTrigger => PadState { lb_held: true, ..self },
            Button::RightTrigger => PadState { rb_held: true, ..self },
            Button::LeftThumb => PadState {
                l3_held: true,
                stick_x_mode: if self.r3_held {
                    self.stick_x_mode
                } else if self.stick_x_mode == StickXMode::Yaw {
                    StickXMode::Turn
                } else {
                    StickXMode::Yaw
                },
                ..self
            },
            Button::RightThumb => PadState {
                r3_held: true,
                stick_x_mode: if self.l3_held {
                    self.stick_x_mode
                } else if self.stick_x_mode == StickXMode::Roll {
                    StickXMode::Turn
                } else {
                    StickXMode::Roll
                },
                ..self
            },
            Button::DPadUp => PadState { dpad_up: true, ..self },
            Button::DPadDown => PadState { dpad_down: true, ..self },
            Button::DPadLeft => PadState { dpad_left: true, ..self },
            Button::DPadRight => PadState { dpad_right: true, ..self },
            _ => self,
        }
    }

    /// What is sent at once when a button goes down.
    pub open spec fn sent_on(self, button: Button) -> Seq<TeleopInput> {
        let estop = when(
            self.down(button).lb_held && self.down(button).rb_held,
            TeleopInput::Estop,
        );
        match button {
            Button::South => seq![TeleopInput::NeutralPose],
            Button::East => seq![TeleopInput::AttitudeReset],
            Button::West => seq![TeleopInput::CameraReset],
            Button::North => seq![TeleopInput::SaveFrame],
            Button::Start => seq![TeleopInput::ToggleRecording],
            Button::Select => seq![TeleopInput::EstopToggle],
            Button::LeftTrigger => seq![
                TeleopInput::ClawNudge { delta: (-CLAW_TICK_STEP) as i8 },
            ] + estop,
            Button::RightTrigger => seq![TeleopInput::ClawNudge { delta: CLAW_TICK_STEP }] + estop,
            Button::LeftThumb => if self.r3_held {
                seq![TeleopInput::EstopClear]
            } else {
                Seq::empty()
            },
            Button::RightThumb => if self.l3_held {
                seq![TeleopInput::EstopClear]
            } else {
                Seq::empty()
            },
            Button::DPadUp => seq![TeleopInput::ArmNudge { dx: 0, dz: self.step() }],
            Button::DPadDown => seq![TeleopInput::ArmNudge { dx: 0, dz: (-self.step()) as i16 }],
            Button::DPadLeft => seq![TeleopInput::ArmNudge { dx: (-self.step()) as i16, dz: 0 }],
            Button::DPadRight => seq![TeleopInput::ArmNudge { dx: self.step(), dz: 0 }],
            _ => Seq::empty(),
        }
    }

    /// The state after a button was let go.
    pub open spec fn up(self, button: Button) -> PadState {
        match button {
            Button::LeftTrigger => PadState { lb_held: false, ..self },
            Button::RightTrigger => PadState { rb_held: false, ..self },
            Button::LeftThumb => PadState { l3_held: false, ..self },
            Button::RightThumb => PadState { r3_held: false, ..self },
            Button::DPadUp => PadState { dpad_up: false, ..self },
            Button::DPadDown => PadState { dpad_down: false, ..self },
            Button::DPadLeft => PadState { dpad_left: false, ..self },
            Button::DPadRight => PadState { dpad_right: false, ..self },
            _ => self,
        }
    }

    pub open spec fn moved(self, axis: Axis, value: i32) -> PadState {
        match axis {
            Axis::LeftStickX => PadState { left_x: value, ..self },
            Axis::LeftStickY => PadState { left_y: value, ..self },
            Axis::RightStickX => PadState { right_x: value, ..self },
            Axis::RightStickY => PadState { right_y: value, ..self },
            Axis::Other => self,
        }
    }

    /// The movement that the left stick asks for: up is forward, left is a
    /// positive sideways velocity.
    pub open spec fn left_stick(self) -> Seq<TeleopInput> {
        if deflected(self.left_x) || deflected(self.left_y) {
            seq![
                TeleopInput::Move {
                    vx: if deflected(self.left_y) {
                        (self.left_y * MOVE_SCALE) as i64
                    } else {
                        0
                    },
                    vy: if deflected(self.left_x) {
                        (-self.left_x * STRAFE_SCALE) as i64
                    } else {
                        0
                    },
                },
            ]
        } else {
            Seq::empty()
        }
    }

    /// What the right stick asks for: a turn or a nudge sideways, and a pitch.
    pub open spec fn right_stick(self) -> Seq<TeleopInput> {
        (if deflected(self.right_x) {
            seq![
                match self.stick_x_mode {
                    StickXMode::Yaw => TeleopInput::AttitudeNudge {
                        axis: AttitudeAxis::Yaw,
                        delta: tick_nudge(-self.right_x) as i64,
                    },
                    StickXMode::Roll => TeleopInput::AttitudeNudge {
                        axis: AttitudeAxis::Roll,
                        delta: tick_nudge(self.right_x as int) as i64,
                    },
                    StickXMode::Turn => TeleopInput::Turn {
                        turn: (-self.right_x * TURN_SCALE) as i64,
                    },
                },
            ]
        } else {
            Seq::empty()
        }) + (if deflected(self.right_y) {
            seq![
                TeleopInput::AttitudeNudge {
                    axis: AttitudeAxis::Pitch,
                    delta: tick_nudge(-self.right_y) as i64,
                },
            ]
        } else {
            Seq::empty()
        })
    }

    pub open spec fn held_buttons(self) -> Seq<TeleopInput> {
        when(self.lb_held, TeleopInput::ClawNudge { delta: (-CLAW_TICK_STEP) as i8 }) + when(
            self.rb_held,
            TeleopInput::ClawNudge { delta: CLAW_TICK_STEP },
        ) + when(self.dpad_up, TeleopInput::ArmNudge { dx: 0, dz: self.step() }) + when(
            self.dpad_down,
            TeleopInput::ArmNudge { dx: 0, dz: (-self.step()) as i16 },
        ) + when(self.dpad_left, TeleopInput::ArmNudge { dx: (-self.step()) as i16, dz: 0 }) + when(
            self.dpad_right,
            TeleopInput::ArmNudge { dx: self.step(), dz: 0 },
        )
    }

    /// Everything that is sent again while it is held.
    pub open spec fn refresh(self) -> Seq<TeleopInput> {
        self.left_stick() + self.right_stick() + self.held_buttons()
    }

    /// The step of the arm per press.
    pub fn arm_step(&self) -> (mm: i16)
        ensures
            mm == self.step(),
    {
        if self.arm_fine_mode {
            ARM_STEP_FINE_MM
        } else {
            ARM_STEP_MM
        }
    }

    /// Takes an event in and returns what it sends at once.
    pub fn handle_event(&mut self, event: PadEvent) -> (sent: Vec<TeleopInput>)
        ensures
            match event {
                PadEvent::AxisChanged { axis, value } => *final(self) == old(self).moved(
                    axis,
                    value,
                ) && sent@ == Seq::<TeleopInput>::empty(),
                PadEvent::ButtonPressed(button) => *final(self) == old(self).down(button) && sent@
                    == old(self).sent_on(button),
                PadEvent::ButtonReleased(button) => *final(self) == old(self).up(button) && sent@
                    == Seq::<TeleopInput>::empty(),
                PadEvent::Other => *final(self) == *old(self) && sent@
                    == Seq::<TeleopInput>::empty(),
            },
    {
        match event {
            PadEvent::AxisChanged { axis, value } => {
                match axis {
                    Axis::LeftStickX => {
                        self.left_x = value;
                    },
                    Axis::LeftStickY => {
                        self.left_y = value;
                    },
                    Axis::RightStickX => {
                        self.right_x = value;
                    },
                    Axis::RightStickY => {
                        self.right_y = value;
                    },
                    Axis::Other => {},
                }
                Vec::new()
            },
            PadEvent::ButtonPressed(button) => self.handle_button_press(button),
            PadEvent::ButtonReleased(button) => {
                self.handle_button_release(button);
                Vec::new()
            },
            PadEvent::Other => Vec::new(),
        }
    }

    /// A bumper opens or closes the claw.
    fn press_bumper(&mut self, button: Button) -> (sent: Vec<TeleopInput>)
        requires
            button == Button::LeftTrigger || button == Button::RightTrigger,
        ensures
            *final(self) == old(self).down(button),
            sent@ == old(self).sent_on(button),
    {
        match button {
            Button::LeftTrigger => {
                self.lb_held = true;
                let mut sent = only(TeleopInput::ClawNudge { delta: -CLAW_TICK_STEP });
                self.check_estop_combo(&mut sent);
                sent
            },
            Button::RightTrigger => {
                self.rb_held = true;
                let mut sent = only(TeleopInput::ClawNudge { delta: CLAW_TICK_STEP });
                self.check_estop_combo(&mut sent);
                sent
            },
            _ => Vec::new(),
        }
    }

    /// A pressed stick latches what the right stick does.
    fn press_stick(&mut self, button: Button) -> (sent: Vec<TeleopInput>)
        requires
            button == Button::LeftThumb || button == Button::RightThumb,
        ensures
            *final(self) == old(self).down(button),
            sent@ == old(self).sent_on(button),
    {
        match button {
            Button::LeftThumb => {
                self.l3_held = true;
                if self.r3_held {
                    return only(TeleopInput::EstopClear);
                }
                self.stick_x_mode = if self.stick_x_mode == StickXMode::Yaw {
                    StickXMode::Turn
                } else {
                    StickXMode::Yaw
                };
                Vec::new()
            },
            Button::RightThumb => {
                self.r3_held = true;
                if self.l3_held {
                    return only(TeleopInput::EstopClear);
                }
                self.stick_x_mode = if self.stick_x_mode == StickXMode::Roll {
                    StickXMode::Turn
                } else {
                    StickXMode::Roll
                };
                Vec::new()
            },
            _ => Vec::new(),
        }
    }

    /// The directional pad moves the arm.
    fn press_dpad(&mut self, button: Button) -> (sent: Vec<TeleopInput>)
        requires
            button == Button::DPadUp || button == Button::DPadDown || button == Button::DPadLeft
                || button == Button::DPadRight,
        ensures
            *final(self) == old(self).down(button),
            sent@ == old(self).sent_on(button),
    {
        match button {
            Button::DPadUp => {
                self.dpad_up = true;
                only(TeleopInput::ArmNudge { dx: 0, dz: self.arm_step() })
            },
            Button::DPadDown => {
                self.dpad_down = true;
                only(TeleopInput::ArmNudge { dx: 0, dz: -self.arm_step() })
            },
            Button::DPadLeft => {
                self.dpad_left = true;
                only(TeleopInput::ArmNudge { dx: -self.arm_step(), dz: 0 })
            },
            Button::DPadRight => {
                self.dpad_right = true;
                only(TeleopInput::ArmNudge { dx: self.arm_step(), dz: 0 })
            },
            _ => Vec::new(),
        }
    }

    pub fn handle_button_press(&mut self, button: Button) -> (sent: Vec<TeleopInput>)
        ensures
            *final(self) == old(self).down(button),
            sent@ == old(self).sent_on(button),
    {
        match button {
            Button::LeftTrigger2 => {
                self.arm_fine_mode = !self.arm_fine_mode;
                Vec::new()
            },
            Button::South => only(TeleopInput::NeutralPose),
            Button::East => only(TeleopInput::AttitudeReset),
            Button::West => only(TeleopInput::CameraReset),
            Button::North => only(TeleopInput::SaveFrame),
            Button::Start => only(TeleopInput::ToggleRecording),
            Button::Select => only(TeleopInput::EstopToggle),
            Button::LeftTrigger | Button::RightTrigger => self.press_bumper(button),
            Button::LeftThumb | Button::RightThumb => self.press_stick(button),
            Button::DPadUp | Button::DPadDown | Button::DPadLeft | Button::DPadRight => {
                self.press_dpad(button)
            },
            Button::Other => Vec::new(),
        }
    }

    pub fn handle_button_release(&mut self, button: Button)
        ensures
            *final(self) == old(self).up(button),
    {
        match button {
            Button::LeftTrigger => {
                self.lb_held = false;
            },
            Button::RightTrigger => {
                self.rb_held = false;
            },
            Button::LeftThumb => {
                self.l3_held = false;
            },
            Button::RightThumb => {
                self.r3_held = false;
            },
            Button::DPadUp => {
                self.dpad_up = false;
            },
            Button::DPadDown => {
                self.dpad_down = false;
            },
            Button::DPadLeft => {
                self.dpad_left = false;
            },
            Button::DPadRight => {
                self.dpad_right = false;
            },
            _ => {},
        }
    }

    /// Both bumpers together stop the robot.
    fn check_estop_combo(&self, sent: &mut Vec<TeleopInput>)
        ensures
            final(sent)@ == old(sent)@ + when(self.lb_held && self.rb_held, TeleopInput::Estop),
    {
        push_when(sent, self.lb_held && self.rb_held, TeleopInput::Estop);
    }

    fn left_stick_input(&self) -> (sent: Vec<TeleopInput>)
        ensures
            sent@ == self.left_stick(),
    {
        if !is_deflected(self.left_x) && !is_deflected(self.left_y) {
            return Vec::new();
        }
        let vx: i64 = if is_deflected(self.left_y) {
            self.left_y as i64 * MOVE_SCALE
        } else {
            0
        };
        let vy: i64 = if is_deflected(self.left_x) {
            -(self.left_x as i64) * STRAFE_SCALE
        } else {
            0
        };
        only(TeleopInput::Move { vx, vy })
    }

    fn right_stick_sideways(&self) -> (input: TeleopInput)
        ensures
            deflected(self.right_x) ==> input == self.right_stick()[0],
    {
        let x: i64 = self.right_x as i64;
        match self.stick_x_mode {
            StickXMode::Yaw => TeleopInput::AttitudeNudge {
                axis: AttitudeAxis::Yaw,
                delta: attitude_nudge(-x),
            },
            StickXMode::Roll => TeleopInput::AttitudeNudge {
                axis: AttitudeAxis::Roll,
                delta: attitude_nudge(x),
            },
            StickXMode::Turn => TeleopInput::Turn { turn: -x * TURN_SCALE },
        }
    }

    fn right_stick_input(&self) -> (sent: Vec<TeleopInput>)
        ensures
            sent@ == self.right_stick(),
    {
        let mut sent: Vec<TeleopInput> = Vec::new();
        push_when(&mut sent, is_deflected(self.right_x), self.right_stick_sideways());
        let pitch = TeleopInput::AttitudeNudge {
            axis: AttitudeAxis::Pitch,
            delta: attitude_nudge(-(self.right_y as i64)),
        };
        push_when(&mut sent, is_deflected(self.right_y), pitch);
        proof {
            assert(sent@ =~= self.right_stick());
        }
        sent
    }

    /// What is sent again on every refresh.
    pub fn send_refresh(&self) -> (sent: Vec<TeleopInput>)
        ensures
            sent@ == self.refresh(),
    {
        let mut sent: Vec<TeleopInput> = self.left_stick_input();
        let mut right: Vec<TeleopInput> = self.right_stick_input();
        sent.append(&mut right);
        let step: i16 = self.arm_step();
        let mut held: Vec<TeleopInput> = Vec::new();
        push_when(&mut held, self.lb_held, TeleopInput::ClawNudge { delta: -CLAW_TICK_STEP });
        push_when(&mut held, self.rb_held, TeleopInput::ClawNudge { delta: CLAW_TICK_STEP });
        push_when(&mut held, self.dpad_up, TeleopInput::ArmNudge { dx: 0, dz: step });
        push_when(&mut held, self.dpad_down, TeleopInput::ArmNudge { dx: 0, dz: -step });
        push_when(&mut held, self.dpad_left, TeleopInput::ArmNudge { dx: -step, dz: 0 });
        push_when(&mut held, self.dpad_right, TeleopInput::ArmNudge { dx: step, dz: 0 });
        proof {
            let claw = when(
                self.lb_held,
                TeleopInput::ClawNudge { delta: (-CLAW_TICK_STEP) as i8 },
            );
            assert(Seq::<TeleopInput>::empty() + claw =~= claw);
        }
        sent.append(&mut held);
        sent
    }
}

fn only(input: TeleopInput) -> (sent: Vec<TeleopInput>)
    ensures
        sent@ == seq![input],
{
    let mut sent: Vec<TeleopInput> = Vec::new();
    sent.push(input);
    proof {
        assert(sent@ =~= seq![input]);
    }
    sent
}

pub open spec fn when(held: bool, input: TeleopInput) -> Seq<TeleopInput> {
    if held {
        seq![input]
    } else {
        Seq::empty()
    }
}

fn push_when(sent: &mut Vec<TeleopInput>, held: bool, input: TeleopInput)
    ensures
        final(sent)@ == old(sent)@ + when(held, input),
{
    if held {
        sent.push(input);
    }
    proof {
        assert(sent@ =~= old(sent)@ + when(held, input));
    }
}

/// Pressing one bumper while the other is held stops the robot, whatever else
/// the pad is doing.
pub proof fn lemma_bumpers_stop(s: PadState)
    ensures
        s.rb_held ==> s.sent_on(Button::LeftTrigger).contains(TeleopInput::Estop),
        s.lb_held ==> s.sent_on(Button::RightTrigger).contains(TeleopInput::Estop),
{
    if s.rb_held {
        assert(s.sent_on(Button::LeftTrigger)[1] == TeleopInput::Estop);
    }
    if s.lb_held {
        assert(s.sent_on(Button::RightTrigger)[1] == TeleopInput::Estop);
    }
}

/// Does an input only move something, as against stopping, clearing, recording
/// or ending the session?
pub open spec fn moves_only(input: TeleopInput) -> bool {
    match input {
        TeleopInput::Move { .. } => true,
        TeleopInput::Turn { .. } => true,
        TeleopInput::ArmNudge { .. } => true,
        TeleopInput::AttitudeNudge { .. } => true,
        TeleopInput::ClawNudge { .. } => true,
        _ => false,
    }
}

pub open spec fn all_move_only(sent: Seq<TeleopInput>) -> bool {
    forall|i: int| 0 <= i < sent.len() ==> moves_only(#[trigger] sent[i])
}

proof fn lemma_joined_move_only(a: Seq<TeleopInput>, b: Seq<TeleopInput>)
    requires
        all_move_only(a),
        all_move_only(b),
    ensures
        all_move_only(a + b),
{
}

/// Held controls only ever move something: they neither clear a stop nor end
/// the session.
#[verifier::spinoff_prover]
#[verifier::rlimit(60)]
pub proof fn lemma_refresh_moves_only(s: PadState)
    ensures
        all_move_only(s.refresh()),
{
    let claw = when(s.lb_held, TeleopInput::ClawNudge { delta: (-CLAW_TICK_STEP) as i8 });
    let claws = claw + when(s.rb_held, TeleopInput::ClawNudge { delta: CLAW_TICK_STEP });
    let up = when(s.dpad_up, TeleopInput::ArmNudge { dx: 0, dz: s.step() });
    let down = when(s.dpad_down, TeleopInput::ArmNudge { dx: 0, dz: (-s.step()) as i16 });
    let left = when(s.dpad_left, TeleopInput::ArmNudge { dx: (-s.step()) as i16, dz: 0 });
    let right = when(s.dpad_right, TeleopInput::ArmNudge { dx: s.step(), dz: 0 });
    lemma_joined_move_only(claws, up);
    lemma_joined_move_only(claws + up, down);
    lemma_joined_move_only(claws + up + down, left);
    lemma_joined_move_only(claws + up + down + left, right);
    assert(s.held_buttons() == claws + up + down + left + right);
    assert(all_move_only(s.left_stick()));
    assert(all_move_only(s.right_stick()));
    lemma_joined_move_only(s.left_stick(), s.right_stick());
    lemma_joined_move_only(s.left_stick() + s.right_stick(), s.held_buttons());
}

/// A button clears a stop only through the toggle button, or when one stick is
/// pressed while the other is held; that gesture changes no mode. No button
/// ends the session.
pub proof fn lemma_clear_gesture(s: PadState, button: Button, i: int)
    requires
        0 <= i < s.sent_on(button).len(),
    ensures
        s.sent_on(button)[i] == TeleopInput::EstopClear ==> (button == Button::LeftThumb
            && s.r3_held) || (button == Button::RightThumb && s.l3_held),
        s.sent_on(button)[i] == TeleopInput::EstopClear ==> s.down(button).stick_x_mode
            == s.stick_x_mode,
        s.sent_on(button)[i] == TeleopInput::EstopToggle ==> button == Button::Select,
        s.sent_on(button)[i] != TeleopInput::Quit,
{
}

/// A pad at rest sends nothing.
pub proof fn lemma_rest_is_silent(s: PadState)
    requires
        s.at_rest(),
    ensures
        s.refresh().len() == 0,
{
}

/// What the left stick does beyond its dead zone, which is fifteen hundredths of
/// its way: up and down move the robot forwards and back, left and right to its
/// left and right, each in proportion; within the dead zone it does nothing.
pub proof fn lemma_left_stick_drives(s: PadState)
    ensures
        ({
            let x = s.left_x > 150_000 || s.left_x < -150_000;
            let y = s.left_y > 150_000 || s.left_y < -150_000;
            &&& !x && !y ==> s.left_stick().len() == 0
            &&& x || y ==> {
                &&& s.left_stick().len() == 1
                &&& s.left_stick()[0] is Move
                &&& y ==> s.left_stick()[0]->vx == 15 * s.left_y
                &&& !y ==> s.left_stick()[0]->vx == 0
                &&& x ==> s.left_stick()[0]->vy == -12 * s.left_x
                &&& !x ==> s.left_stick()[0]->vy == 0
            }
        }),
{
}

/// What the right stick does: sideways it turns the robot, or leans its body
/// about one axis, whichever is chosen; up and down it pitches the body, up
/// being a negative pitch. Each goes in proportion, the leaning by six tenths of
/// a degree at full deflection.
pub proof fn lemma_right_stick(s: PadState)
    requires
        -1_000_000 <= s.right_x <= 1_000_000,
        -1_000_000 <= s.right_y <= 1_000_000,
    ensures
        ({
            let x = s.right_x > 150_000 || s.right_x < -150_000;
            let y = s.right_y > 150_000 || s.right_y < -150_000;
            let sent = s.right_stick();
            let n = sent.len() as int;
            &&& n == (if x {
                1int
            } else {
                0int
            }) + (if y {
                1int
            } else {
                0int
            })
            &&& x && s.stick_x_mode == StickXMode::Turn ==> sent[0] is Turn && sent[0]->turn == -60
                * s.right_x
            &&& x && s.stick_x_mode == StickXMode::Roll ==> sent[0] is AttitudeNudge
                && sent[0]->axis == AttitudeAxis::Roll && -5 <= 10 * sent[0]->AttitudeNudge_delta
                - 6 * s.right_x <= 5
            &&& x && s.stick_x_mode == StickXMode::Yaw ==> sent[0] is AttitudeNudge && sent[0]->axis
                == AttitudeAxis::Yaw && -5 <= 10 * sent[0]->AttitudeNudge_delta + 6 * s.right_x <= 5
            &&& y ==> sent[n - 1] is AttitudeNudge && sent[n - 1]->axis == AttitudeAxis::Pitch
                && -5 <= 10 * sent[n - 1]->AttitudeNudge_delta + 6 * s.right_y <= 5
        }),
{
    assert(tick_nudge(s.right_x as int) == fixed::rounded_away(6 * s.right_x, 10));
    assert(tick_nudge(-s.right_x) == fixed::rounded_away(-6 * s.right_x, 10));
    assert(tick_nudge(-s.right_y) == fixed::rounded_away(-6 * s.right_y, 10));
}

/// What is sent again while it is held: the left bumper closes the claw and the
/// right one opens it; the four ways of the directional pad move the arm up,
/// down, in and out, by two millimetres in the fine mode and by ten otherwise.
pub proof fn lemma_held_buttons_repeat(s: PadState)
    ensures
        ({
            let step: i16 = if s.arm_fine_mode {
                2
            } else {
                10
            };
            let sent = s.held_buttons();
            &&& s.lb_held ==> sent.contains(TeleopInput::ClawNudge { delta: -8i8 })
            &&& s.rb_held ==> sent.contains(TeleopInput::ClawNudge { delta: 8 })
            &&& s.dpad_up ==> sent.contains(TeleopInput::ArmNudge { dx: 0, dz: step })
            &&& s.dpad_down ==> sent.contains(TeleopInput::ArmNudge { dx: 0, dz: (-step) as i16 })
            &&& s.dpad_left ==> sent.contains(TeleopInput::ArmNudge { dx: (-step) as i16, dz: 0 })
            &&& s.dpad_right ==> sent.contains(TeleopInput::ArmNudge { dx: step, dz: 0 })
        }),
{
    let a = when(s.lb_held, TeleopInput::ClawNudge { delta: -8i8 });
    let b = a + when(s.rb_held, TeleopInput::ClawNudge { delta: 8 });
    let c = b + when(s.dpad_up, TeleopInput::ArmNudge { dx: 0, dz: s.step() });
    let d = c + when(s.dpad_down, TeleopInput::ArmNudge { dx: 0, dz: (-s.step()) as i16 });
    let e = d + when(s.dpad_left, TeleopInput::ArmNudge { dx: (-s.step()) as i16, dz: 0 });
    let f = e + when(s.dpad_right, TeleopInput::ArmNudge { dx: s.step(), dz: 0 });
    assert(s.held_buttons() == f);
    if s.lb_held {
        assert(f[0] == a[0]);
    }
    if s.rb_held {
        assert(f[a.len() as int] == b[a.len() as int]);
    }
    if s.dpad_up {
        assert(f[b.len() as int] == c[b.len() as int]);
    }
    if s.dpad_down {
        assert(f[c.len() as int] == d[c.len() as int]);
    }
    if s.dpad_left {
        assert(f[d.len() as int] == e[d.len() as int]);
    }
    if s.dpad_right {
        assert(f[e.len() as int] == TeleopInput::ArmNudge { dx: s.step(), dz: 0 });
    }
}

/// A refresh sends everything that the sticks and the held buttons ask for, and
/// nothing else.
pub proof fn lemma_refresh_leaves_nothing_out(s: PadState)
    ensures
        s.refresh().len() == s.left_stick().len() + s.right_stick().len() + s.held_buttons().len(),
        s.refresh().subrange(0, s.left_stick().len() as int) == s.left_stick(),
        s.refresh().subrange(
            s.left_stick().len() as int,
            s.left_stick().len() + s.right_stick().len() as int,
        ) == s.right_stick(),
        s.held_buttons().len() <= 6,
{
    let r = s.refresh();
    let (a, b) = (s.left_stick().len() as int, s.right_stick().len() as int);
    assert(r.subrange(0, a) =~= s.left_stick());
    assert(r.subrange(a, a + b) =~= s.right_stick());
}

/// What a button sends at once.
pub proof fn lemma_buttons_send(s: PadState)
    ensures
        s.sent_on(Button::South) == seq![TeleopInput::NeutralPose],
        s.sent_on(Button::East) == seq![TeleopInput::AttitudeReset],
        s.sent_on(Button::West) == seq![TeleopInput::CameraReset],
        s.sent_on(Button::North) == seq![TeleopInput::SaveFrame],
        s.sent_on(Button::Start) == seq![TeleopInput::ToggleRecording],
        s.sent_on(Button::Select) == seq![TeleopInput::EstopToggle],
        s.sent_on(Button::LeftTrigger)[0] == (TeleopInput::ClawNudge { delta: -8i8 }),
        s.sent_on(Button::RightTrigger)[0] == (TeleopInput::ClawNudge { delta: 8 }),
        !s.rb_held ==> s.sent_on(Button::LeftTrigger).len() == 1,
        !s.lb_held ==> s.sent_on(Button::RightTrigger).len() == 1,
        s.r3_held ==> s.sent_on(Button::LeftThumb) == seq![TeleopInput::EstopClear],
        s.l3_held ==> s.sent_on(Button::RightThumb) == seq![TeleopInput::EstopClear],
        !s.r3_held ==> s.sent_on(Button::LeftThumb).len() == 0,
        !s.l3_held ==> s.sent_on(Button::RightThumb).len() == 0,
        s.arm_fine_mode ==> s.sent_on(Button::DPadUp) == seq![
            TeleopInput::ArmNudge { dx: 0, dz: 2 },
        ] && s.sent_on(Button::DPadDown) == seq![TeleopInput::ArmNudge { dx: 0, dz: -2i16 }]
            && s.sent_on(Button::DPadLeft) == seq![TeleopInput::ArmNudge { dx: -2i16, dz: 0 }]
            && s.sent_on(Button::DPadRight) == seq![TeleopInput::ArmNudge { dx: 2, dz: 0 }],
        !s.arm_fine_mode ==> s.sent_on(Button::DPadUp) == seq![
            TeleopInput::ArmNudge { dx: 0, dz: 10 },
        ] && s.sent_on(Button::DPadDown) == seq![TeleopInput::ArmNudge { dx: 0, dz: -10i16 }]
            && s.sent_on(Button::DPadLeft) == seq![TeleopInput::ArmNudge { dx: -10i16, dz: 0 }]
            && s.sent_on(Button::DPadRight) == seq![TeleopInput::ArmNudge { dx: 10, dz: 0 }],
        s.sent_on(Button::LeftTrigger2).len() == 0,
        s.sent_on(Button::Other).len() == 0,
{
}

/// Pressing a button holds just that one, and letting it go releases just that
/// one: what was held before is held again.
pub proof fn lemma_press_and_release(s: PadState)
    ensures
        s.down(Button::LeftTrigger).lb_held && s.down(Button::RightTrigger).rb_held,
        s.down(Button::LeftThumb).l3_held && s.down(Button::RightThumb).r3_held,
        s.down(Button::DPadUp).dpad_up && s.down(Button::DPadDown).dpad_down,
        s.down(Button::DPadLeft).dpad_left && s.down(Button::DPadRight).dpad_right,
        !s.lb_held ==> s.down(Button::LeftTrigger).up(Button::LeftTrigger) == s,
        !s.rb_held ==> s.down(Button::RightTrigger).up(Button::RightTrigger) == s,
        !s.dpad_up ==> s.down(Button::DPadUp).up(Button::DPadUp) == s,
        !s.dpad_down ==> s.down(Button::DPadDown).up(Button::DPadDown) == s,
        !s.dpad_left ==> s.down(Button::DPadLeft).up(Button::DPadLeft) == s,
        !s.dpad_right ==> s.down(Button::DPadRight).up(Button::DPadRight) == s,
        !s.up(Button::LeftThumb).l3_held && !s.up(Button::RightThumb).r3_held,
        s.up(Button::LeftThumb).stick_x_mode == s.stick_x_mode,
        s.up(Button::RightThumb).stick_x_mode == s.stick_x_mode,
        s.down(Button::South) == s && s.down(Button::Select) == s && s.up(Button::South) == s,
{
}

/// The modes latch: the left stick's button chooses yaw and, pressed again,
/// turning; the right one's chooses roll and, pressed again, turning; the trigger
/// switches the fine mode on and off.
pub proof fn lemma_modes_latch(s: PadState)
    ensures
        !s.r3_held && s.stick_x_mode != StickXMode::Yaw ==> s.down(Button::LeftThumb).stick_x_mode
            == StickXMode::Yaw,
        !s.r3_held && s.stick_x_mode == StickXMode::Yaw ==> s.down(Button::LeftThumb).stick_x_mode
            == StickXMode::Turn,
        !s.l3_held && s.stick_x_mode != StickXMode::Roll ==> s.down(
            Button::RightThumb,
        ).stick_x_mode == StickXMode::Roll,
        !s.l3_held && s.stick_x_mode == StickXMode::Roll ==> s.down(
            Button::RightThumb,
        ).stick_x_mode == StickXMode::Turn,
        s.down(Button::LeftTrigger2).arm_fine_mode == !s.arm_fine_mode,
        s.down(Button::LeftTrigger2).down(Button::LeftTrigger2) == s,
{
}

/// Moving a stick is taken in for that axis and no other.
pub proof fn lemma_sticks_are_told_apart(s: PadState, value: i32)
    ensures
        s.moved(Axis::LeftStickX, value) == (PadState { left_x: value, ..s }),
        s.moved(Axis::LeftStickY, value) == (PadState { left_y: value, ..s }),
        s.moved(Axis::RightStickX, value) == (PadState { right_x: value, ..s }),
        s.moved(Axis::RightStickY, value) == (PadState { right_y: value, ..s }),
        s.moved(Axis::Other, value) == s,
{
}

/// A stick counts from beyond fifteen hundredths on, either way; held over, it
/// tilts by six tenths of its reading a tick, to the nearest millionth.
pub proof fn lemma_stick_readings(value: i32)
    ensures
        deflected(value) <==> !(-150_000 <= value <= 150_000),
        -10 <= 2 * (10 * tick_nudge(value as int) - 6 * value) <= 10,
{
    fixed::lemma_rounded_away_is_nearest(value * 6, 10);
}

/// What each mode of the right stick is called.
pub proof fn lemma_mode_labels()
    ensures
        mode_label(StickXMode::Turn) == "turn"@,
        mode_label(StickXMode::Roll) == "roll"@,
        mode_label(StickXMode::Yaw) == "yaw"@,
{
}

} // verus!
