//! What the operator's console holds on to between inputs: the command that is
//! sent with every tick, and the camera controls.

use vstd::prelude::*;
use crate::channel_b::TeleopCommand;
use crate::fixed;
use crate::fixed::{f32_bits, nudged, round_away, Micro, ONE};
use crate::input::{AttitudeAxis, CameraParam};

verus! {

pub const ARM_X_MIN: i16 = -80;

pub const ARM_X_MAX: i16 = 155;

pub const ARM_Z_MIN: i16 = -95;

pub const ARM_Z_MAX: i16 = 155;

pub const ARM_CLAW_NEUTRAL: u8 = 128;

/// Twenty degrees either way.
pub const ROLL_LIMIT: i64 = 20_000_000;

/// Ten degrees either way.
pub const PITCH_LIMIT: i64 = 10_000_000;

/// Twelve degrees either way.
pub const YAW_LIMIT: i64 = 12_000_000;

pub const BRIGHTNESS_LIMIT: i64 = 1_000_000;

pub const CONTRAST_MAX: i64 = 2_000_000;

pub const EV_LIMIT: i64 = 4_000_000;

pub const SHUTTER_MAX_US: u32 = 100_000;

/// Velocities go out clamped to the wire's range; beyond this they are all one.
pub const VELOCITY_LIMIT: i64 = 1_000_000_000_000;

/// The held command: velocities and attitude in millionths, the arm in
/// millimetres, the claw from 0 to 255.
#[derive(Debug, Clone, Copy, PartialEq, Eq, Structural)]
pub struct HeldCommand {
    pub vx: Micro,
    pub vy: Micro,
    pub turn: Micro,
    pub attitude_r: Micro,
    pub attitude_p: Micro,
    pub attitude_y: Micro,
    pub arm_x: i16,
    pub arm_z: i16,
    pub claw: u8,
}

/// How far the arm must stay out at a height, so that it does not touch the
/// robot's own front: on a straight line between the two places where it was
/// measured, and not beyond them.
pub open spec fn safe_x(arm_z: int) -> int {
    let z = fixed::clamp_to(arm_z, 0, 35);
    fixed::rounded_away(490 - 8 * z, 7)
}

pub fn min_safe_arm_x(arm_z: i16) -> (x: i16)
    ensures
        x == safe_x(arm_z as int),
        30 <= x <= 70,
{
    let z: i64 = if arm_z < 0 {
        0
    } else if arm_z > 35 {
        35
    } else {
        arm_z as i64
    };
    proof {
        fixed::lemma_rounded_away(490 - 8 * z, 7, 30, 70);
    }
    round_away(490 - 8 * z, 7) as i16
}

/// The nearest hundredths that the wire can carry.
pub open spec fn hundredths(v: Micro) -> i32 {
    fixed::rounded_away(
        fixed::clamp_to(v as int, -VELOCITY_LIMIT as int, VELOCITY_LIMIT as int),
        10_000,
    ) as i32
}

fn to_hundredths(v: Micro) -> (r: i32)
    ensures
        r == hundredths(v),
{
    let c: i64 = if v < -VELOCITY_LIMIT {
        -VELOCITY_LIMIT
    } else if v > VELOCITY_LIMIT {
        VELOCITY_LIMIT
    } else {
        v
    };
    proof {
        if c < 0 {
            fixed::lemma_rounded_away(-c, 10_000, 0, 100_000_000);
        } else {
            fixed::lemma_rounded_away(c as int, 10_000, 0, 100_000_000);
        }
    }
    round_away(c, 10_000) as i32
}

impl HeldCommand {
    pub open spec fn neutral() -> HeldCommand {
        HeldCommand {
            vx: 0,
            vy: 0,
            turn: 0,
            attitude_r: 0,
            attitude_p: 0,
            attitude_y: 0,
            arm_x: 0,
            arm_z: 0,
            claw: ARM_CLAW_NEUTRAL,
        }
    }

    /// Arm and attitude are within their ranges.
    pub open spec fn in_range(self) -> bool {
        &&& ARM_X_MIN <= self.arm_x <= ARM_X_MAX
        &&& ARM_Z_MIN <= self.arm_z <= ARM_Z_MAX
        &&& -ROLL_LIMIT <= self.attitude_r <= ROLL_LIMIT
        &&& -PITCH_LIMIT <= self.attitude_p <= PITCH_LIMIT
        &&& -YAW_LIMIT <= self.attitude_y <= YAW_LIMIT
    }

    pub open spec fn standing_still(self) -> HeldCommand {
        HeldCommand { vx: 0, vy: 0, turn: 0, ..self }
    }

    pub open spec fn level(self) -> HeldCommand {
        HeldCommand { attitude_r: 0, attitude_p: 0, attitude_y: 0, ..self }
    }

    pub open spec fn neutral_pose(self) -> HeldCommand {
        (HeldCommand { arm_x: 0, arm_z: 0, claw: ARM_CLAW_NEUTRAL, ..self }).level()
    }

    /// After a nudge of the arm: within its range, and clear of the robot's
    /// front.
    pub open spec fn arm_nudged(self, dx: i16, dz: i16) -> HeldCommand {
        let x = fixed::clamp_to(self.arm_x + dx, ARM_X_MIN as int, ARM_X_MAX as int);
        let z = fixed::clamp_to(self.arm_z + dz, ARM_Z_MIN as int, ARM_Z_MAX as int);
        HeldCommand {
            arm_x: if x < safe_x(z) {
                safe_x(z) as i16
            } else {
                x as i16
            },
            arm_z: z as i16,
            ..self
        }
    }

    pub open spec fn attitude_nudged(self, axis: AttitudeAxis, delta: Micro) -> HeldCommand {
        match axis {
            AttitudeAxis::Roll => HeldCommand {
                attitude_r: fixed::clamp_to(
                    self.attitude_r + delta,
                    -ROLL_LIMIT as int,
                    ROLL_LIMIT as int,
                ) as i64,
                ..self
            },
            AttitudeAxis::Pitch => HeldCommand {
                attitude_p: fixed::clamp_to(
                    self.attitude_p + delta,
                    -PITCH_LIMIT as int,
                    PITCH_LIMIT as int,
                ) as i64,
                ..self
            },
            AttitudeAxis::Yaw => HeldCommand {
                attitude_y: fixed::clamp_to(
                    self.attitude_y + delta,
                    -YAW_LIMIT as int,
                    YAW_LIMIT as int,
                ) as i64,
                ..self
            },
        }
    }

    pub open spec fn claw_nudged(self, delta: i8) -> HeldCommand {
        HeldCommand { claw: fixed::clamp_to(self.claw + delta, 0, 255) as u8, ..self }
    }

    /// The command as it is sent.
    pub open spec fn sent(self) -> TeleopCommand {
        TeleopCommand {
            vx: hundredths(self.vx),
            vy: hundredths(self.vy),
            turn: hundredths(self.turn),
            attitude_r: hundredths(self.attitude_r),
            attitude_p: hundredths(self.attitude_p),
            attitude_y: hundredths(self.attitude_y),
            arm_x: self.arm_x,
            arm_z: self.arm_z,
            claw: self.claw,
        }
    }

    pub fn new() -> (h: Self)
        ensures
            h == Self::neutral(),
            h.in_range(),
    {
        HeldCommand {
            vx: 0,
            vy: 0,
            turn: 0,
            attitude_r: 0,
            attitude_p: 0,
            attitude_y: 0,
            arm_x: 0,
            arm_z: 0,
            claw: ARM_CLAW_NEUTRAL,
        }
    }

    pub fn stop_moving(&mut self)
        ensures
            *final(self) == old(self).standing_still(),
    {
        self.vx = 0;
        self.vy = 0;
        self.turn = 0;
    }

    pub fn is_moving(&self) -> (b: bool)
        ensures
            b == (*self != self.standing_still()),
    {
        self.vx != 0 || self.vy != 0 || self.turn != 0
    }

    pub fn reset_attitude(&mut self)
        ensures
            *final(self) == old(self).level(),
    {
        self.attitude_r = 0;
        self.attitude_p = 0;
        self.attitude_y = 0;
    }

    pub fn reset_pose(&mut self)
        ensures
            *final(self) == old(self).neutral_pose(),
    {
        self.arm_x = 0;
        self.arm_z = 0;
        self.claw = ARM_CLAW_NEUTRAL;
        self.reset_attitude();
    }

    pub fn nudge_arm(&mut self, dx: i16, dz: i16)
        requires
            old(self).in_range(),
        ensures
            *final(self) == old(self).arm_nudged(dx, dz),
            final(self).in_range(),
            final(self).arm_x >= safe_x(final(self).arm_z as int),
    {
        let x: i32 = clamp(self.arm_x as i32 + dx as i32, ARM_X_MIN as i32, ARM_X_MAX as i32);
        let z: i32 = clamp(self.arm_z as i32 + dz as i32, ARM_Z_MIN as i32, ARM_Z_MAX as i32);
        self.arm_z = z as i16;
        let floor: i16 = min_safe_arm_x(self.arm_z);
        self.arm_x = if (x as i16) < floor {
            floor
        } else {
            x as i16
        };
    }

    pub fn nudge_attitude(&mut self, axis: AttitudeAxis, delta: Micro)
        requires
            old(self).in_range(),
        ensures
            *final(self) == old(self).attitude_nudged(axis, delta),
            final(self).in_range(),
    {
        match axis {
            AttitudeAxis::Roll => {
                self.attitude_r = nudged(self.attitude_r, delta, -ROLL_LIMIT, ROLL_LIMIT);
            },
            AttitudeAxis::Pitch => {
                self.attitude_p = nudged(self.attitude_p, delta, -PITCH_LIMIT, PITCH_LIMIT);
            },
            AttitudeAxis::Yaw => {
                self.attitude_y = nudged(self.attitude_y, delta, -YAW_LIMIT, YAW_LIMIT);
            },
        }
    }

    pub fn nudge_claw(&mut self, delta: i8)
        ensures
            *final(self) == old(self).claw_nudged(delta),
    {
        self.claw = clamp(self.claw as i32 + delta as i32, 0, 255) as u8;
    }

    pub fn to_wire(&self) -> (c: TeleopCommand)
        ensures
            c == self.sent(),
    {
        TeleopCommand {
            vx: to_hundredths(self.vx),
            vy: to_hundredths(self.vy),
            turn: to_hundredths(self.turn),
            attitude_r: to_hundredths(self.attitude_r),
            attitude_p: to_hundredths(self.attitude_p),
            attitude_y: to_hundredths(self.attitude_y),
            arm_x: self.arm_x,
            arm_z: self.arm_z,
            claw: self.claw,
        }
    }
}

fn clamp(v: i32, lo: i32, hi: i32) -> (r: i32)
    requires
        lo <= hi,
    ensures
        r == fixed::clamp_to(v as int, lo as int, hi as int),
        lo <= r <= hi,
{
    if v < lo {
        lo
    } else if v > hi {
        hi
    } else {
        v
    }
}

/// The keep-out in front of the robot: whatever the arm is nudged by, it ends
/// up within its range and outside of it.
pub proof fn lemma_arm_stays_clear(h: HeldCommand, dx: i16, dz: i16)
    requires
        h.in_range(),
    ensures
        h.arm_nudged(dx, dz).in_range(),
        h.arm_nudged(dx, dz).arm_x >= safe_x(h.arm_nudged(dx, dz).arm_z as int),
        30 <= safe_x(h.arm_nudged(dx, dz).arm_z as int) <= 70,
{
    let z = fixed::clamp_to(h.arm_z + dz, ARM_Z_MIN as int, ARM_Z_MAX as int);
    fixed::lemma_rounded_away(490 - 8 * fixed::clamp_to(z, 0, 35), 7, 30, 70);
}

/// The held camera controls, in millionths; the exposure time in microseconds,
/// zero meaning automatic.
#[derive(Debug, Clone, Copy, PartialEq, Eq, Structural)]
pub struct CameraControlState {
    pub brightness: Micro,
    pub contrast: Micro,
    pub ev: Micro,
    pub shutter_us: u32,
}

impl CameraControlState {
    pub open spec fn neutral() -> CameraControlState {
        CameraControlState { brightness: 0, contrast: 1_000_000, ev: 0, shutter_us: 0 }
    }

    pub open spec fn in_range(self) -> bool {
        &&& -BRIGHTNESS_LIMIT <= self.brightness <= BRIGHTNESS_LIMIT
        &&& 0 <= self.contrast <= CONTRAST_MAX
        &&& -EV_LIMIT <= self.ev <= EV_LIMIT
        &&& self.shutter_us <= SHUTTER_MAX_US
    }

    pub open spec fn nudged(self, param: CameraParam, delta: Micro) -> CameraControlState {
        match param {
            CameraParam::Brightness => CameraControlState {
                brightness: fixed::clamp_to(
                    self.brightness + delta,
                    -BRIGHTNESS_LIMIT as int,
                    BRIGHTNESS_LIMIT as int,
                ) as i64,
                ..self
            },
            CameraParam::Contrast => CameraControlState {
                contrast: fixed::clamp_to(self.contrast + delta, 0, CONTRAST_MAX as int) as i64,
                ..self
            },
            CameraParam::Ev => CameraControlState {
                ev: fixed::clamp_to(self.ev + delta, -EV_LIMIT as int, EV_LIMIT as int) as i64,
                ..self
            },
            CameraParam::Shutter => CameraControlState {
                shutter_us: fixed::clamp_to(
                    self.shutter_us + fixed::rounded_away(shutter_delta(delta), ONE as int),
                    0,
                    SHUTTER_MAX_US as int,
                ) as u32,
                ..self
            },
        }
    }

    pub fn new() -> (c: Self)
        ensures
            c == Self::neutral(),
            c.in_range(),
    {
        CameraControlState { brightness: 0, contrast: 1_000_000, ev: 0, shutter_us: 0 }
    }

    pub fn nudge(&mut self, param: CameraParam, delta: Micro)
        requires
            old(self).in_range(),
        ensures
            *final(self) == old(self).nudged(param, delta),
            final(self).in_range(),
    {
        match param {
            CameraParam::Brightness => {
                self.brightness = nudged(
                    self.brightness,
                    delta,
                    -BRIGHTNESS_LIMIT,
                    BRIGHTNESS_LIMIT,
                );
            },
            CameraParam::Contrast => {
                self.contrast = nudged(self.contrast, delta, 0, CONTRAST_MAX);
            },
            CameraParam::Ev => {
                self.ev = nudged(self.ev, delta, -EV_LIMIT, EV_LIMIT);
            },
            CameraParam::Shutter => {
                let d: i64 = if delta < -SHUTTER_DELTA_LIMIT {
                    -SHUTTER_DELTA_LIMIT
                } else if delta > SHUTTER_DELTA_LIMIT {
                    SHUTTER_DELTA_LIMIT
                } else {
                    delta
                };
                let next: i64 = self.shutter_us as i64 + round_away(d, ONE);
                self.shutter_us = if next < 0 {
                    0
                } else if next > SHUTTER_MAX_US as i64 {
                    SHUTTER_MAX_US
                } else {
                    next as u32
                };
            },
        }
    }

    /// The single-precision patterns of the three real-valued controls.
    pub fn patterns(&self) -> (r: (u32, u32, u32))
        requires
            self.in_range(),
        ensures
            r.0 == fixed::f32_pattern(self.brightness as int),
            r.1 == fixed::f32_pattern(self.contrast as int),
            r.2 == fixed::f32_pattern(self.ev as int),
    {
        (f32_bits(self.brightness), f32_bits(self.contrast), f32_bits(self.ev))
    }
}

/// A change of the exposure time beyond this is all one.
pub const SHUTTER_DELTA_LIMIT: i64 = 1_000_000_000_000_000_000;

pub open spec fn shutter_delta(delta: Micro) -> int {
    fixed::clamp_to(delta as int, -SHUTTER_DELTA_LIMIT as int, SHUTTER_DELTA_LIMIT as int)
}

/// How far out the arm must stay, against its height: seventy millimetres at
/// the robot's own height and below, thirty from thirty-five millimetres up, and
/// in between the whole number nearest to the straight line from one to the
/// other.
pub proof fn lemma_keep_out_line(z: int)
    ensures
        z <= 0 ==> safe_x(z) == 70,
        z >= 35 ==> safe_x(z) == 30,
        0 <= z <= 35 ==> -4 < 7 * safe_x(z) - (490 - 8 * z) < 4,
{
    let a = 490 - 8 * fixed::clamp_to(z, 0, 35);
    assert(safe_x(z) == (2 * a + 7) / 14);
}

/// A nudge moves the arm by just that nudge, wherever the arm may go there: it
/// reaches out and comes back as it is told. Nothing but the arm is touched.
pub proof fn lemma_arm_goes_where_nudged(h: HeldCommand, dx: i16, dz: i16)
    requires
        h.in_range(),
        -80 <= h.arm_x + dx <= 155,
        -95 <= h.arm_z + dz <= 155,
        h.arm_x + dx >= safe_x(h.arm_z + dz),
    ensures
        h.arm_nudged(dx, dz).arm_x == h.arm_x + dx,
        h.arm_nudged(dx, dz).arm_z == h.arm_z + dz,
        h.arm_nudged(dx, dz) == (HeldCommand {
            arm_x: (h.arm_x + dx) as i16,
            arm_z: (h.arm_z + dz) as i16,
            ..h
        }),
{
}

/// A nudge that leads too far goes as far as the arm may: to the end of its
/// range, or to the line that it must not cross. The height never gives way to
/// the keep-out.
pub proof fn lemma_arm_goes_as_far_as_it_may(h: HeldCommand, dx: i16, dz: i16)
    requires
        h.in_range(),
    ensures
        -95 <= h.arm_z + dz <= 155 ==> h.arm_nudged(dx, dz).arm_z == h.arm_z + dz,
        h.arm_z + dz < -95 ==> h.arm_nudged(dx, dz).arm_z == -95,
        h.arm_z + dz > 155 ==> h.arm_nudged(dx, dz).arm_z == 155,
        h.arm_x + dx > 155 ==> h.arm_nudged(dx, dz).arm_x == 155,
        h.arm_x + dx <= safe_x(h.arm_nudged(dx, dz).arm_z as int) ==> h.arm_nudged(dx, dz).arm_x
            == safe_x(h.arm_nudged(dx, dz).arm_z as int),
        safe_x(h.arm_nudged(dx, dz).arm_z as int) <= h.arm_x + dx <= 155 ==> h.arm_nudged(
            dx,
            dz,
        ).arm_x == h.arm_x + dx,
        h.arm_nudged(dx, dz).vx == h.vx,
        h.arm_nudged(dx, dz).vy == h.vy,
        h.arm_nudged(dx, dz).turn == h.turn,
        h.arm_nudged(dx, dz).attitude_r == h.attitude_r,
        h.arm_nudged(dx, dz).attitude_p == h.attitude_p,
        h.arm_nudged(dx, dz).attitude_y == h.attitude_y,
        h.arm_nudged(dx, dz).claw == h.claw,
{
    lemma_arm_stays_clear(h, dx, dz);
}

/// An attitude nudge turns the body about one axis by just that much, and no
/// farther than the robot's limit about that axis; the others keep their angle.
pub proof fn lemma_attitude_goes_where_nudged(h: HeldCommand, axis: AttitudeAxis, delta: Micro)
    requires
        h.in_range(),
    ensures
        -20_000_000 <= h.attitude_r + delta <= 20_000_000 ==> h.attitude_nudged(AttitudeAxis::Roll, delta).attitude_r == h.attitude_r + delta,
        h.attitude_r + delta < -20_000_000 ==> h.attitude_nudged(AttitudeAxis::Roll, delta).attitude_r == -20_000_000,
        h.attitude_r + delta > 20_000_000 ==> h.attitude_nudged(AttitudeAxis::Roll, delta).attitude_r == 20_000_000,
        h.attitude_nudged(AttitudeAxis::Roll, delta).attitude_p == h.attitude_p,
        h.attitude_nudged(AttitudeAxis::Roll, delta).attitude_y == h.attitude_y,
        -10_000_000 <= h.attitude_p + delta <= 10_000_000 ==> h.attitude_nudged(AttitudeAxis::Pitch, delta).attitude_p == h.attitude_p + delta,
        h.attitude_p + delta < -10_000_000 ==> h.attitude_nudged(AttitudeAxis::Pitch, delta).attitude_p == -10_000_000,
        h.attitude_p + delta > 10_000_000 ==> h.attitude_nudged(AttitudeAxis::Pitch, delta).attitude_p == 10_000_000,
        h.attitude_nudged(AttitudeAxis::Pitch, delta).attitude_r == h.attitude_r,
        h.attitude_nudged(AttitudeAxis::Pitch, delta).attitude_y == h.attitude_y,
        -12_000_000 <= h.attitude_y + delta <= 12_000_000 ==> h.attitude_nudged(AttitudeAxis::Yaw, delta).attitude_y == h.attitude_y + delta,
        h.attitude_y + delta < -12_000_000 ==> h.attitude_nudged(AttitudeAxis::Yaw, delta).attitude_y == -12_000_000,
        h.attitude_y + delta > 12_000_000 ==> h.attitude_nudged(AttitudeAxis::Yaw, delta).attitude_y == 12_000_000,
        h.attitude_nudged(AttitudeAxis::Yaw, delta).attitude_r == h.attitude_r,
        h.attitude_nudged(AttitudeAxis::Yaw, delta).attitude_p == h.attitude_p,
        h.attitude_nudged(axis, delta).vx == h.vx,
        h.attitude_nudged(axis, delta).vy == h.vy,
        h.attitude_nudged(axis, delta).turn == h.turn,
        h.attitude_nudged(axis, delta).arm_x == h.arm_x,
        h.attitude_nudged(axis, delta).arm_z == h.arm_z,
        h.attitude_nudged(axis, delta).claw == h.claw,
{
}

/// A claw nudge moves the claw by just that much, between closed and open, and
/// nothing else.
pub proof fn lemma_claw_goes_where_nudged(h: HeldCommand, delta: i8)
    ensures
        0 <= h.claw + delta <= 255 ==> h.claw_nudged(delta).claw == h.claw + delta,
        h.claw + delta < 0 ==> h.claw_nudged(delta).claw == 0,
        h.claw + delta > 255 ==> h.claw_nudged(delta).claw == 255,
        h.claw_nudged(delta) == (HeldCommand { claw: h.claw_nudged(delta).claw, ..h }),
{
}

/// Standing still ends movement only; levelling ends attitude only; the neutral
/// pose levels, puts the arm back and leaves the claw half open, and does not
/// touch movement.
pub proof fn lemma_resets(h: HeldCommand)
    ensures
        h.standing_still().vx == 0 && h.standing_still().vy == 0 && h.standing_still().turn == 0,
        h.standing_still().attitude_r == h.attitude_r && h.standing_still().attitude_p
            == h.attitude_p && h.standing_still().attitude_y == h.attitude_y,
        h.standing_still().arm_x == h.arm_x && h.standing_still().arm_z == h.arm_z
            && h.standing_still().claw == h.claw,
        h.level().attitude_r == 0 && h.level().attitude_p == 0 && h.level().attitude_y == 0,
        h.level().vx == h.vx && h.level().vy == h.vy && h.level().turn == h.turn,
        h.level().arm_x == h.arm_x && h.level().arm_z == h.arm_z && h.level().claw == h.claw,
        h.neutral_pose().attitude_r == 0 && h.neutral_pose().attitude_p == 0
            && h.neutral_pose().attitude_y == 0,
        h.neutral_pose().arm_x == 0 && h.neutral_pose().arm_z == 0 && h.neutral_pose().claw == 128,
        h.neutral_pose().vx == h.vx && h.neutral_pose().vy == h.vy && h.neutral_pose().turn
            == h.turn,
{
}

/// What is sent is what is held: each velocity and each angle to the nearest
/// hundredth, in its own field, and the arm and the claw unchanged.
pub proof fn lemma_sent_is_held(h: HeldCommand)
    requires
        h.in_range(),
        -1_000_000_000_000 <= h.vx <= 1_000_000_000_000,
        -1_000_000_000_000 <= h.vy <= 1_000_000_000_000,
        -1_000_000_000_000 <= h.turn <= 1_000_000_000_000,
    ensures
        -5_000 <= h.sent().vx * 10_000 - h.vx <= 5_000,
        -5_000 <= h.sent().vy * 10_000 - h.vy <= 5_000,
        -5_000 <= h.sent().turn * 10_000 - h.turn <= 5_000,
        -5_000 <= h.sent().attitude_r * 10_000 - h.attitude_r <= 5_000,
        -5_000 <= h.sent().attitude_p * 10_000 - h.attitude_p <= 5_000,
        -5_000 <= h.sent().attitude_y * 10_000 - h.attitude_y <= 5_000,
        h.sent().arm_x == h.arm_x,
        h.sent().arm_z == h.arm_z,
        h.sent().claw == h.claw,
{
}

/// A camera nudge changes one setting by just that much, within its range, and
/// leaves the others alone; the exposure time changes by whole microseconds.
pub proof fn lemma_camera_goes_where_nudged(c: CameraControlState, delta: Micro)
    requires
        c.in_range(),
    ensures
        -1_000_000 <= c.brightness + delta <= 1_000_000 ==> c.nudged(CameraParam::Brightness, delta).brightness == c.brightness + delta,
        c.brightness + delta < -1_000_000 ==> c.nudged(CameraParam::Brightness, delta).brightness == -1_000_000,
        c.brightness + delta > 1_000_000 ==> c.nudged(CameraParam::Brightness, delta).brightness == 1_000_000,
        c.nudged(CameraParam::Brightness, delta).contrast == c.contrast,
        c.nudged(CameraParam::Brightness, delta).ev == c.ev,
        c.nudged(CameraParam::Brightness, delta).shutter_us == c.shutter_us,
        0 <= c.contrast + delta <= 2_000_000 ==> c.nudged(CameraParam::Contrast, delta).contrast == c.contrast + delta,
        c.contrast + delta < 0 ==> c.nudged(CameraParam::Contrast, delta).contrast == 0,
        c.contrast + delta > 2_000_000 ==> c.nudged(CameraParam::Contrast, delta).contrast == 2_000_000,
        c.nudged(CameraParam::Contrast, delta).brightness == c.brightness,
        c.nudged(CameraParam::Contrast, delta).ev == c.ev,
        c.nudged(CameraParam::Contrast, delta).shutter_us == c.shutter_us,
        -4_000_000 <= c.ev + delta <= 4_000_000 ==> c.nudged(CameraParam::Ev, delta).ev == c.ev + delta,
        c.ev + delta < -4_000_000 ==> c.nudged(CameraParam::Ev, delta).ev == -4_000_000,
        c.ev + delta > 4_000_000 ==> c.nudged(CameraParam::Ev, delta).ev == 4_000_000,
        c.nudged(CameraParam::Ev, delta).brightness == c.brightness,
        c.nudged(CameraParam::Ev, delta).contrast == c.contrast,
        c.nudged(CameraParam::Ev, delta).shutter_us == c.shutter_us,
        c.nudged(CameraParam::Shutter, delta).brightness == c.brightness,
        c.nudged(CameraParam::Shutter, delta).contrast == c.contrast,
        c.nudged(CameraParam::Shutter, delta).ev == c.ev,
        forall|whole: int|
            -1_000_000 <= whole <= 1_000_000 && #[trigger] (whole * 1_000_000) == delta ==> {
                let us = c.nudged(CameraParam::Shutter, delta).shutter_us;
                &&& 0 <= c.shutter_us + whole <= 100_000 ==> us == c.shutter_us + whole
                &&& c.shutter_us + whole < 0 ==> us == 0
                &&& c.shutter_us + whole > 100_000 ==> us == 100_000
            },
{
}

/// A camera that was not touched: no brightness or exposure correction, the
/// contrast as it comes, and automatic exposure. A robot that was not touched:
/// at rest, with the claw half open.
pub proof fn lemma_neutral()
    ensures
        CameraControlState::neutral().brightness == 0,
        CameraControlState::neutral().contrast == 1_000_000,
        CameraControlState::neutral().ev == 0,
        CameraControlState::neutral().shutter_us == 0,
        HeldCommand::neutral().vx == 0,
        HeldCommand::neutral().vy == 0,
        HeldCommand::neutral().turn == 0,
        HeldCommand::neutral().attitude_r == 0,
        HeldCommand::neutral().attitude_p == 0,
        HeldCommand::neutral().attitude_y == 0,
        HeldCommand::neutral().arm_x == 0,
        HeldCommand::neutral().arm_z == 0,
        HeldCommand::neutral().claw == 128,
{
}

/// A velocity goes out to the nearest hundredth, and so does its opposite.
pub proof fn lemma_velocity_in_hundredths(v: Micro)
    requires
        -1_000_000_000_000 <= v <= 1_000_000_000_000,
    ensures
        -5_000 <= hundredths(v) * 10_000 - v <= 5_000,
        v >= 0 ==> hundredths(v) >= 0,
        v <= 0 ==> hundredths(v) <= 0,
        v % 10_000 == 0 ==> hundredths(v) * 10_000 == v,
{
    fixed::lemma_rounded_away_is_nearest(v as int, 10_000);
}

} // verus!
