//! Operator input: what the keys mean.
//!
//! A movement key sets a velocity outright; a nudge moves a held position by a
//! step.

use vstd::prelude::*;
use crate::fixed::{Micro, ONE};
use crate::text;
use crate::text::{push_decimal, push_padded, push_signed_decimal};

verus! {

/// Body attitude axes.
#[derive(Debug, Clone, Copy, PartialEq, Eq, Structural)]
pub enum AttitudeAxis {
    Roll,
    Pitch,
    Yaw,
}

/// Camera image controls.
#[derive(Debug, Clone, Copy, PartialEq, Eq, Structural)]
pub enum CameraParam {
    Brightness,
    Contrast,
    Ev,
    Shutter,
}

/// What the operator asks for. Real values are in millionths.
#[allow(inconsistent_fields)]
#[derive(Debug, Clone, Copy, PartialEq, Eq, Structural)]
pub enum TeleopInput {
    Move { vx: Micro, vy: Micro },
    Turn { turn: Micro },
    Action(u8),
    Estop,
    EstopClear,
    /// Stop if running, clear if stopped.
    EstopToggle,
    /// Move the held arm position, in millimetres.
    ArmNudge { dx: i16, dz: i16 },
    /// Move a held attitude axis, in degrees.
    AttitudeNudge { axis: AttitudeAxis, delta: Micro },
    AttitudeReset,
    /// Attitude level, arm and claw neutral.
    NeutralPose,
    /// Move a held camera control; the shutter in microseconds.
    CameraNudge { param: CameraParam, delta: Micro },
    CameraReset,
    /// Move the held claw position, 0 to 255.
    ClawNudge { delta: i8 },
    /// Save the picture on display, where the video path holds one.
    SaveFrame,
    ToggleRecording,
    Quit,
}

/// A key press.
#[derive(Debug, Clone, Copy, PartialEq, Eq, Structural)]
pub enum Key {
    Char(char),
    Left,
    Right,
    Up,
    Down,
    Esc,
    Other,
}

pub const ARM_STEP_MM: i16 = 10;

pub const CLAW_STEP: i8 = 20;

/// Two degrees.
pub const ATTITUDE_STEP: i64 = 2_000_000;

/// A tenth.
pub const BRIGHTNESS_STEP: i64 = 100_000;

/// A tenth.
pub const CONTRAST_STEP: i64 = 100_000;

/// A half.
pub const EV_STEP: i64 = 500_000;

/// Two thousand microseconds.
pub const SHUTTER_STEP: i64 = 2_000_000_000;

pub const STAND_ACTION: u8 = 2;

pub const SIT_ACTION: u8 = 12;

/// The meaning of a character key. Looking up is a negative pitch; the robot's
/// left is a positive sideways velocity.
pub open spec fn char_meaning(c: char) -> Option<TeleopInput> {
    if c == 'w' {
        Some(TeleopInput::Move { vx: (15 * ONE) as i64, vy: 0 })
    } else if c == 's' {
        Some(TeleopInput::Move { vx: (-15 * ONE) as i64, vy: 0 })
    } else if c == 'a' {
        Some(TeleopInput::Move { vx: 0, vy: (12 * ONE) as i64 })
    } else if c == 'd' {
        Some(TeleopInput::Move { vx: 0, vy: (-12 * ONE) as i64 })
    } else if c == '=' {
        Some(TeleopInput::AttitudeNudge { axis: AttitudeAxis::Pitch, delta: (-ATTITUDE_STEP) as i64 })
    } else if c == '-' {
        Some(TeleopInput::AttitudeNudge { axis: AttitudeAxis::Pitch, delta: ATTITUDE_STEP })
    } else if c == '[' {
        Some(TeleopInput::AttitudeNudge { axis: AttitudeAxis::Roll, delta: (-ATTITUDE_STEP) as i64 })
    } else if c == ']' {
        Some(TeleopInput::AttitudeNudge { axis: AttitudeAxis::Roll, delta: ATTITUDE_STEP })
    } else if c == ',' {
        Some(TeleopInput::AttitudeNudge { axis: AttitudeAxis::Yaw, delta: (-ATTITUDE_STEP) as i64 })
    } else if c == '.' {
        Some(TeleopInput::AttitudeNudge { axis: AttitudeAxis::Yaw, delta: ATTITUDE_STEP })
    } else if c == '0' {
        Some(TeleopInput::AttitudeReset)
    } else if c == 'b' {
        Some(TeleopInput::CameraNudge { param: CameraParam::Brightness, delta: (-BRIGHTNESS_STEP) as i64 })
    } else if c == 'B' {
        Some(TeleopInput::CameraNudge { param: CameraParam::Brightness, delta: BRIGHTNESS_STEP })
    } else if c == 'f' {
        Some(TeleopInput::CameraNudge { param: CameraParam::Contrast, delta: (-CONTRAST_STEP) as i64 })
    } else if c == 'F' {
        Some(TeleopInput::CameraNudge { param: CameraParam::Contrast, delta: CONTRAST_STEP })
    } else if c == 'v' {
        Some(TeleopInput::CameraNudge { param: CameraParam::Ev, delta: (-EV_STEP) as i64 })
    } else if c == 'V' {
        Some(TeleopInput::CameraNudge { param: CameraParam::Ev, delta: EV_STEP })
    } else if c == 'h' {
        Some(TeleopInput::CameraNudge { param: CameraParam::Shutter, delta: (-SHUTTER_STEP) as i64 })
    } else if c == 'H' {
        Some(TeleopInput::CameraNudge { param: CameraParam::Shutter, delta: SHUTTER_STEP })
    } else if c == '9' {
        Some(TeleopInput::CameraReset)
    } else if c == ' ' {
        Some(TeleopInput::Move { vx: 0, vy: 0 })
    } else if c == 'e' {
        Some(TeleopInput::Estop)
    } else if c == 'c' {
        Some(TeleopInput::EstopClear)
    } else if c == '1' {
        Some(TeleopInput::Action(STAND_ACTION))
    } else if c == '2' {
        Some(TeleopInput::Action(SIT_ACTION))
    } else if c == 'i' {
        Some(TeleopInput::ArmNudge { dx: 0, dz: ARM_STEP_MM })
    } else if c == 'k' {
        Some(TeleopInput::ArmNudge { dx: 0, dz: (-ARM_STEP_MM) as i16 })
    } else if c == 'j' {
        Some(TeleopInput::ArmNudge { dx: (-ARM_STEP_MM) as i16, dz: 0 })
    } else if c == 'l' {
        Some(TeleopInput::ArmNudge { dx: ARM_STEP_MM, dz: 0 })
    } else if c == 'u' {
        Some(TeleopInput::ClawNudge { delta: (-CLAW_STEP) as i8 })
    } else if c == 'o' {
        Some(TeleopInput::ClawNudge { delta: CLAW_STEP })
    } else if c == 'r' {
        Some(TeleopInput::ToggleRecording)
    } else if c == 'p' {
        Some(TeleopInput::SaveFrame)
    } else if c == 'q' {
        Some(TeleopInput::Quit)
    } else {
        None
    }
}

pub open spec fn key_meaning(key: Key) -> Option<TeleopInput> {
    match key {
        Key::Char(c) => char_meaning(c),
        Key::Left => Some(TeleopInput::Turn { turn: (60 * ONE) as i64 }),
        Key::Right => Some(TeleopInput::Turn { turn: (-60 * ONE) as i64 }),
        Key::Up => char_meaning('='),
        Key::Down => char_meaning('-'),
        Key::Esc => Some(TeleopInput::Quit),
        Key::Other => None,
    }
}

fn char_input(c: char) -> (input: Option<TeleopInput>)
    ensures
        input == char_meaning(c),
{
    if c == 'w' {
        Some(TeleopInput::Move { vx: 15 * ONE, vy: 0 })
    } else if c == 's' {
        Some(TeleopInput::Move { vx: -15 * ONE, vy: 0 })
    } else if c == 'a' {
        Some(TeleopInput::Move { vx: 0, vy: 12 * ONE })
    } else if c == 'd' {
        Some(TeleopInput::Move { vx: 0, vy: -12 * ONE })
    } else if c == '=' {
        Some(TeleopInput::AttitudeNudge { axis: AttitudeAxis::Pitch, delta: -ATTITUDE_STEP })
    } else if c == '-' {
        Some(TeleopInput::AttitudeNudge { axis: AttitudeAxis::Pitch, delta: ATTITUDE_STEP })
    } else if c == '[' {
        Some(TeleopInput::AttitudeNudge { axis: AttitudeAxis::Roll, delta: -ATTITUDE_STEP })
    } else if c == ']' {
        Some(TeleopInput::AttitudeNudge { axis: AttitudeAxis::Roll, delta: ATTITUDE_STEP })
    } else if c == ',' {
        Some(TeleopInput::AttitudeNudge { axis: AttitudeAxis::Yaw, delta: -ATTITUDE_STEP })
    } else if c == '.' {
        Some(TeleopInput::AttitudeNudge { axis: AttitudeAxis::Yaw, delta: ATTITUDE_STEP })
    } else if c == '0' {
        Some(TeleopInput::AttitudeReset)
    } else if c == 'b' {
        Some(TeleopInput::CameraNudge { param: CameraParam::Brightness, delta: -BRIGHTNESS_STEP })
    } else if c == 'B' {
        Some(TeleopInput::CameraNudge { param: CameraParam::Brightness, delta: BRIGHTNESS_STEP })
    } else if c == 'f' {
        Some(TeleopInput::CameraNudge { param: CameraParam::Contrast, delta: -CONTRAST_STEP })
    } else if c == 'F' {
        Some(TeleopInput::CameraNudge { param: CameraParam::Contrast, delta: CONTRAST_STEP })
    } else if c == 'v' {
        Some(TeleopInput::CameraNudge { param: CameraParam::Ev, delta: -EV_STEP })
    } else if c == 'V' {
        Some(TeleopInput::CameraNudge { param: CameraParam::Ev, delta: EV_STEP })
    } else if c == 'h' {
        Some(TeleopInput::CameraNudge { param: CameraParam::Shutter, delta: -SHUTTER_STEP })
    } else if c == 'H' {
        Some(TeleopInput::CameraNudge { param: CameraParam::Shutter, delta: SHUTTER_STEP })
    } else if c == '9' {
        Some(TeleopInput::CameraReset)
    } else if c == ' ' {
        Some(TeleopInput::Move { vx: 0, vy: 0 })
    } else if c == 'e' {
        Some(TeleopInput::Estop)
    } else if c == 'c' {
        Some(TeleopInput::EstopClear)
    } else if c == '1' {
        Some(TeleopInput::Action(STAND_ACTION))
    } else if c == '2' {
        Some(TeleopInput::Action(SIT_ACTION))
    } else if c == 'i' {
        Some(TeleopInput::ArmNudge { dx: 0, dz: ARM_STEP_MM })
    } else if c == 'k' {
        Some(TeleopInput::ArmNudge { dx: 0, dz: -ARM_STEP_MM })
    } else if c == 'j' {
        Some(TeleopInput::ArmNudge { dx: -ARM_STEP_MM, dz: 0 })
    } else if c == 'l' {
        Some(TeleopInput::ArmNudge { dx: ARM_STEP_MM, dz: 0 })
    } else if c == 'u' {
        Some(TeleopInput::ClawNudge { delta: -CLAW_STEP })
    } else if c == 'o' {
        Some(TeleopInput::ClawNudge { delta: CLAW_STEP })
    } else if c == 'r' {
        Some(TeleopInput::ToggleRecording)
    } else if c == 'p' {
        Some(TeleopInput::SaveFrame)
    } else if c == 'q' {
        Some(TeleopInput::Quit)
    } else {
        None
    }
}

/// What a key press asks for; keys without a meaning are skipped.
pub fn key_input(key: Key) -> (input: Option<TeleopInput>)
    ensures
        input == key_meaning(key),
{
    match key {
        Key::Char(c) => char_input(c),
        Key::Left => Some(TeleopInput::Turn { turn: 60 * ONE }),
        Key::Right => Some(TeleopInput::Turn { turn: -60 * ONE }),
        Key::Up => char_input('='),
        Key::Down => char_input('-'),
        Key::Esc => Some(TeleopInput::Quit),
        Key::Other => None,
    }
}

/// The digits behind the point: at least one, without zeros at the end.
pub open spec fn fraction_text(f: nat, width: nat) -> Seq<char>
    decreases width,
{
    if width > 1 && f % 10 == 0 {
        fraction_text(f / 10, (width - 1) as nat)
    } else {
        text::padded(f, width)
    }
}

/// A value in millionths, written as a decimal fraction.
pub open spec fn micro_text(v: int) -> Seq<char> {
    let magnitude = if v < 0 {
        -v
    } else {
        v
    };
    (if v < 0 {
        seq!['-']
    } else {
        Seq::empty()
    }) + text::decimal((magnitude / 1_000_000) as nat) + seq!['.'] + fraction_text(
        (magnitude % 1_000_000) as nat,
        6,
    )
}

fn push_fraction(out: &mut String, f: u64, width: usize)
    ensures
        final(out)@ == old(out)@ + fraction_text(f as nat, width as nat),
    decreases width,
{
    if width > 1 && f % 10 == 0 {
        push_fraction(out, f / 10, width - 1);
    } else {
        push_padded(out, f, width);
    }
}

/// Appends a value in millionths as a decimal fraction.
pub fn push_micro(out: &mut String, v: Micro)
    ensures
        final(out)@ == old(out)@ + micro_text(v as int),
{
    proof {
        reveal_strlit("-");
        reveal_strlit(".");
    }
    let magnitude: u64 = if v == i64::MIN {
        0x8000_0000_0000_0000
    } else if v < 0 {
        (-v) as u64
    } else {
        v as u64
    };
    if v < 0 {
        out.append("-");
    }
    push_decimal(out, magnitude / 1_000_000);
    out.append(".");
    push_fraction(out, magnitude % 1_000_000, 6);
    proof {
        assert("-"@ =~= seq!['-']);
        assert("."@ =~= seq!['.']);
        assert(out@ =~= old(out)@ + micro_text(v as int));
    }
}

pub open spec fn axis_text(axis: AttitudeAxis) -> Seq<char> {
    match axis {
        AttitudeAxis::Roll => "'r'"@,
        AttitudeAxis::Pitch => "'p'"@,
        AttitudeAxis::Yaw => "'y'"@,
    }
}

pub open spec fn param_text(param: CameraParam) -> Seq<char> {
    match param {
        CameraParam::Brightness => "'b'"@,
        CameraParam::Contrast => "'c'"@,
        CameraParam::Ev => "'v'"@,
        CameraParam::Shutter => "'s'"@,
    }
}

fn axis_letter(axis: AttitudeAxis) -> (s: &'static str)
    ensures
        s@ == axis_text(axis),
{
    match axis {
        AttitudeAxis::Roll => "'r'",
        AttitudeAxis::Pitch => "'p'",
        AttitudeAxis::Yaw => "'y'",
    }
}

fn param_letter(param: CameraParam) -> (s: &'static str)
    ensures
        s@ == param_text(param),
{
    match param {
        CameraParam::Brightness => "'b'",
        CameraParam::Contrast => "'c'",
        CameraParam::Ev => "'v'",
        CameraParam::Shutter => "'s'",
    }
}

/// How an input is written in the log of key presses.
pub open spec fn log_line(input: TeleopInput) -> Seq<char> {
    match input {
        TeleopInput::Move { vx, vy } => "Move { vx: "@ + micro_text(vx as int) + ", vy: "@ + micro_text(vy as int) + " }"@,
        TeleopInput::Turn { turn } => "Turn { turn: "@ + micro_text(turn as int) + " }"@,
        TeleopInput::Action(id) => "Action("@ + text::decimal(id as nat) + ")"@,
        TeleopInput::Estop => "Estop"@,
        TeleopInput::EstopClear => "EstopClear"@,
        TeleopInput::EstopToggle => "EstopToggle"@,
        TeleopInput::ArmNudge { dx, dz } => "ArmNudge { dx: "@ + text::signed_decimal(dx as int) + ", dz: "@ + text::signed_decimal(dz as int) + " }"@,
        TeleopInput::AttitudeNudge { axis, delta } => "AttitudeNudge { axis: "@ + axis_text(axis) + ", delta: "@ + micro_text(delta as int) + " }"@,
        TeleopInput::AttitudeReset => "AttitudeReset"@,
        TeleopInput::NeutralPose => "NeutralPose"@,
        TeleopInput::CameraNudge { param, delta } => "CameraNudge { param: "@ + param_text(param) + ", delta: "@ + micro_text(delta as int) + " }"@,
        TeleopInput::CameraReset => "CameraReset"@,
        TeleopInput::ClawNudge { delta } => "ClawNudge { delta: "@ + text::signed_decimal(delta as int) + " }"@,
        TeleopInput::SaveFrame => "SaveFrame"@,
        TeleopInput::ToggleRecording => "ToggleRecording"@,
        TeleopInput::Quit => "Quit"@,
    }
}

/// The line that the log of key presses keeps of an input.
pub fn log_text(input: TeleopInput) -> (out: String)
    ensures
        out@ == log_line(input),
{
    let mut out = String::new();
    match input {
        TeleopInput::Move { vx, vy } => {
            out.append("Move { vx: ");
            push_micro(&mut out, vx);
            out.append(", vy: ");
            push_micro(&mut out, vy);
            out.append(" }");
        },
        TeleopInput::Turn { turn } => {
            out.append("Turn { turn: ");
            push_micro(&mut out, turn);
            out.append(" }");
        },
        TeleopInput::Action(id) => {
            out.append("Action(");
            push_decimal(&mut out, id as u64);
            out.append(")");
        },
        TeleopInput::Estop => {
            out.append("Estop");
        },
        TeleopInput::EstopClear => {
            out.append("EstopClear");
        },
        TeleopInput::EstopToggle => {
            out.append("EstopToggle");
        },
        TeleopInput::ArmNudge { dx, dz } => {
            out.append("ArmNudge { dx: ");
            push_signed_decimal(&mut out, dx as i64);
            out.append(", dz: ");
            push_signed_decimal(&mut out, dz as i64);
            out.append(" }");
        },
        TeleopInput::AttitudeNudge { axis, delta } => {
            out.append("AttitudeNudge { axis: ");
            out.append(axis_letter(axis));
            out.append(", delta: ");
            push_micro(&mut out, delta);
            out.append(" }");
        },
        TeleopInput::AttitudeReset => {
            out.append("AttitudeReset");
        },
        TeleopInput::NeutralPose => {
            out.append("NeutralPose");
        },
        TeleopInput::CameraNudge { param, delta } => {
            out.append("CameraNudge { param: ");
            out.append(param_letter(param));
            out.append(", delta: ");
            push_micro(&mut out, delta);
            out.append(" }");
        },
        TeleopInput::CameraReset => {
            out.append("CameraReset");
        },
        TeleopInput::ClawNudge { delta } => {
            out.append("ClawNudge { delta: ");
            push_signed_decimal(&mut out, delta as i64);
            out.append(" }");
        },
        TeleopInput::SaveFrame => {
            out.append("SaveFrame");
        },
        TeleopInput::ToggleRecording => {
            out.append("ToggleRecording");
        },
        TeleopInput::Quit => {
            out.append("Quit");
        },
    }
    proof {
        assert(out@ =~= log_line(input));
    }
    out
}

/// The keys that drive: forwards and back, to the robot's left and right, and
/// about its own axis. Opposite keys ask for opposite velocities, and the space
/// bar for none.
pub proof fn lemma_driving_keys()
    ensures
        key_meaning(Key::Char('w')) == Some(TeleopInput::Move { vx: 15_000_000, vy: 0 }),
        key_meaning(Key::Char('s')) == Some(TeleopInput::Move { vx: -15_000_000i64, vy: 0 }),
        key_meaning(Key::Char('a')) == Some(TeleopInput::Move { vx: 0, vy: 12_000_000 }),
        key_meaning(Key::Char('d')) == Some(TeleopInput::Move { vx: 0, vy: -12_000_000i64 }),
        key_meaning(Key::Char(' ')) == Some(TeleopInput::Move { vx: 0, vy: 0 }),
        key_meaning(Key::Left) == Some(TeleopInput::Turn { turn: 60_000_000 }),
        key_meaning(Key::Right) == Some(TeleopInput::Turn { turn: -60_000_000i64 }),
{
}

/// The keys that stop and clear, stand up and sit down, record, take a picture
/// and leave.
pub proof fn lemma_session_keys()
    ensures
        key_meaning(Key::Char('e')) == Some(TeleopInput::Estop),
        key_meaning(Key::Char('c')) == Some(TeleopInput::EstopClear),
        key_meaning(Key::Char('1')) == Some(TeleopInput::Action(2)),
        key_meaning(Key::Char('2')) == Some(TeleopInput::Action(12)),
        key_meaning(Key::Char('r')) == Some(TeleopInput::ToggleRecording),
        key_meaning(Key::Char('p')) == Some(TeleopInput::SaveFrame),
        key_meaning(Key::Char('q')) == Some(TeleopInput::Quit),
        key_meaning(Key::Esc) == Some(TeleopInput::Quit),
        key_meaning(Key::Other) is None,
{
}

/// The keys of the arm and the claw: up and down, in and out, closed and open.
pub proof fn lemma_arm_and_claw_keys()
    ensures
        key_meaning(Key::Char('i')) == Some(TeleopInput::ArmNudge { dx: 0, dz: 10 }),
        key_meaning(Key::Char('k')) == Some(TeleopInput::ArmNudge { dx: 0, dz: -10i16 }),
        key_meaning(Key::Char('j')) == Some(TeleopInput::ArmNudge { dx: -10i16, dz: 0 }),
        key_meaning(Key::Char('l')) == Some(TeleopInput::ArmNudge { dx: 10, dz: 0 }),
        key_meaning(Key::Char('u')) == Some(TeleopInput::ClawNudge { delta: -20i8 }),
        key_meaning(Key::Char('o')) == Some(TeleopInput::ClawNudge { delta: 20 }),
{
}

/// The keys of the body's attitude, two degrees at a time; looking up is a
/// negative pitch, for the arrow key as for the other one.
pub proof fn lemma_body_keys()
    ensures
        key_meaning(Key::Char('=')) == Some(
            TeleopInput::AttitudeNudge { axis: AttitudeAxis::Pitch, delta: -2_000_000i64 },
        ),
        key_meaning(Key::Char('-')) == Some(
            TeleopInput::AttitudeNudge { axis: AttitudeAxis::Pitch, delta: 2_000_000 },
        ),
        key_meaning(Key::Up) == key_meaning(Key::Char('=')),
        key_meaning(Key::Down) == key_meaning(Key::Char('-')),
        key_meaning(Key::Char('[')) == Some(
            TeleopInput::AttitudeNudge { axis: AttitudeAxis::Roll, delta: -2_000_000i64 },
        ),
        key_meaning(Key::Char(']')) == Some(
            TeleopInput::AttitudeNudge { axis: AttitudeAxis::Roll, delta: 2_000_000 },
        ),
        key_meaning(Key::Char(',')) == Some(
            TeleopInput::AttitudeNudge { axis: AttitudeAxis::Yaw, delta: -2_000_000i64 },
        ),
        key_meaning(Key::Char('.')) == Some(
            TeleopInput::AttitudeNudge { axis: AttitudeAxis::Yaw, delta: 2_000_000 },
        ),
        key_meaning(Key::Char('0')) == Some(TeleopInput::AttitudeReset),
{
}

/// The keys of the camera: the capital letter turns up what the small one turns
/// down.
pub proof fn lemma_image_keys()
    ensures
        key_meaning(Key::Char('b')) == Some(
            TeleopInput::CameraNudge { param: CameraParam::Brightness, delta: -100_000i64 },
        ),
        key_meaning(Key::Char('B')) == Some(
            TeleopInput::CameraNudge { param: CameraParam::Brightness, delta: 100_000 },
        ),
        key_meaning(Key::Char('f')) == Some(
            TeleopInput::CameraNudge { param: CameraParam::Contrast, delta: -100_000i64 },
        ),
        key_meaning(Key::Char('F')) == Some(
            TeleopInput::CameraNudge { param: CameraParam::Contrast, delta: 100_000 },
        ),
        key_meaning(Key::Char('v')) == Some(
            TeleopInput::CameraNudge { param: CameraParam::Ev, delta: -500_000i64 },
        ),
        key_meaning(Key::Char('V')) == Some(
            TeleopInput::CameraNudge { param: CameraParam::Ev, delta: 500_000 },
        ),
        key_meaning(Key::Char('h')) == Some(
            TeleopInput::CameraNudge { param: CameraParam::Shutter, delta: -2_000_000_000i64 },
        ),
        key_meaning(Key::Char('H')) == Some(
            TeleopInput::CameraNudge { param: CameraParam::Shutter, delta: 2_000_000_000 },
        ),
        key_meaning(Key::Char('9')) == Some(TeleopInput::CameraReset),
{
}

/// No key but these asks for anything that moves the robot or ends a stop: a
/// stop is cleared by one key only, and the session is left by two.
pub proof fn lemma_no_other_key(key: Key)
    ensures
        key_meaning(key) == Some(TeleopInput::EstopClear) ==> key == Key::Char('c'),
        key_meaning(key) == Some(TeleopInput::Estop) ==> key == Key::Char('e'),
        key_meaning(key) == Some(TeleopInput::Quit) ==> key == Key::Char('q') || key == Key::Esc,
        key_meaning(key) matches Some(TeleopInput::Action(_)) ==> key == Key::Char('1') || key
            == Key::Char('2'),
        key_meaning(key) matches Some(TeleopInput::Turn { .. }) ==> key == Key::Left || key
            == Key::Right,
{
}

/// A fraction loses the zeros at its end, but for the last digit: it says the same
/// at every width, and ends in a zero only where it is all that is left.
pub proof fn lemma_fraction(f: nat, width: nat)
    requires
        width >= 1,
    ensures
        fraction_text(10 * f, width + 1) == fraction_text(f, width),
        f % 10 != 0 ==> fraction_text(f, width) == text::padded(f, width),
        width == 1 ==> fraction_text(f, width) == text::padded(f, 1),
{
    assert((10 * f) % 10 == 0 && (10 * f) / 10 == f);
}

/// How a number of millionths is written: its sign, its whole part, a point, and
/// the fraction.
pub proof fn lemma_millionths(whole: nat, f: nat)
    requires
        f < 1_000_000,
    ensures
        micro_text((1_000_000 * whole + f) as int) == text::decimal(whole) + seq!['.']
            + fraction_text(f, 6),
        whole + f > 0 ==> micro_text(-((1_000_000 * whole + f) as int)) == seq!['-'] + micro_text(
            (1_000_000 * whole + f) as int,
        ),
{
    let n = (1_000_000 * whole + f) as int;
    assert(n / 1_000_000 == whole && n % 1_000_000 == f);
    assert(micro_text(n) =~= text::decimal(whole) + seq!['.'] + fraction_text(f, 6));
    if whole + f > 0 {
        assert(micro_text(-n) =~= seq!['-'] + micro_text(n));
    }
}

/// An axis and a camera setting are written by their own letters.
pub proof fn lemma_letters()
    ensures
        axis_text(AttitudeAxis::Roll) == "'r'"@,
        axis_text(AttitudeAxis::Pitch) == "'p'"@,
        axis_text(AttitudeAxis::Yaw) == "'y'"@,
        param_text(CameraParam::Brightness) == "'b'"@,
        param_text(CameraParam::Contrast) == "'c'"@,
        param_text(CameraParam::Ev) == "'v'"@,
        param_text(CameraParam::Shutter) == "'s'"@,
{
}

/// Each part of an input is logged under its own name.
pub proof fn lemma_logged(vx: Micro, vy: Micro, dx: i16, dz: i16, id: u8, axis: AttitudeAxis)
    ensures
        log_line(TeleopInput::Move { vx, vy }) == "Move { vx: "@ + micro_text(vx as int)
            + ", vy: "@ + micro_text(vy as int) + " }"@,
        log_line(TeleopInput::Turn { turn: vx }) == "Turn { turn: "@ + micro_text(vx as int)
            + " }"@,
        log_line(TeleopInput::ArmNudge { dx, dz }) == "ArmNudge { dx: "@ + text::signed_decimal(
            dx as int,
        ) + ", dz: "@ + text::signed_decimal(dz as int) + " }"@,
        log_line(TeleopInput::AttitudeNudge { axis, delta: vx }) == "AttitudeNudge { axis: "@
            + axis_text(axis) + ", delta: "@ + micro_text(vx as int) + " }"@,
        log_line(TeleopInput::Action(id)) == "Action("@ + text::decimal(id as nat) + ")"@,
        log_line(TeleopInput::Estop) == "Estop"@,
        log_line(TeleopInput::EstopClear) == "EstopClear"@,
        log_line(TeleopInput::EstopToggle) == "EstopToggle"@,
        log_line(TeleopInput::NeutralPose) == "NeutralPose"@,
        log_line(TeleopInput::AttitudeReset) == "AttitudeReset"@,
        log_line(TeleopInput::CameraReset) == "CameraReset"@,
        log_line(TeleopInput::SaveFrame) == "SaveFrame"@,
        log_line(TeleopInput::ToggleRecording) == "ToggleRecording"@,
        log_line(TeleopInput::Quit) == "Quit"@,
{
}

} // verus!
