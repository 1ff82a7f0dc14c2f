//! The camera process: its arguments, its image controls, and when it is
//! started again.

use vstd::prelude::*;
use crate::camera_control::CameraControl;
use crate::restart;
use crate::restart::{backoff_ms, RestartPolicy};
use crate::text;
use crate::text::{push_decimal, push_text};
use crate::time::{Duration, Instant};

verus! {

/// The image controls. The real-valued ones are single-precision bit patterns.
#[derive(Debug, Clone, Copy, PartialEq, Eq, Structural)]
pub struct CameraControls {
    pub brightness_bits: u32,
    pub contrast_bits: u32,
    pub ev_bits: u32,
    /// Exposure time in microseconds; zero means automatic.
    pub shutter_us: u32,
}

/// The bit pattern of one.
pub const F32_ONE: u32 = 0x3F80_0000;

pub const F32_MINUS_ONE: u32 = 0xBF80_0000;

pub const F32_TWO: u32 = 0x4000_0000;

pub const F32_FOUR: u32 = 0x4080_0000;

pub const F32_MINUS_FOUR: u32 = 0xC080_0000;

pub const MAX_SHUTTER_US: u32 = 100_000;

impl Default for CameraControls {
    fn default() -> (c: Self)
        ensures
            c == (CameraControls {
                brightness_bits: 0,
                contrast_bits: F32_ONE,
                ev_bits: 0,
                shutter_us: 0,
            }),
    {
        CameraControls { brightness_bits: 0, contrast_bits: F32_ONE, ev_bits: 0, shutter_us: 0 }
    }
}

/// Where a single-precision number stands in the order of numbers. Both zeros
/// stand in one place.
pub open spec fn f32_rank(bits: u32) -> int {
    if bits >= 0x8000_0000 {
        -(bits - 0x8000_0000)
    } else {
        bits as int
    }
}

pub open spec fn f32_is_nan(bits: u32) -> bool {
    f32_rank(bits) > 0x7F80_0000 || f32_rank(bits) < -0x7F80_0000
}

/// A number moved into a range; what is no number stays what it is.
pub open spec fn f32_clamped(bits: u32, lo: u32, hi: u32) -> u32 {
    if f32_is_nan(bits) {
        bits
    } else if f32_rank(bits) < f32_rank(lo) {
        lo
    } else if f32_rank(bits) > f32_rank(hi) {
        hi
    } else {
        bits
    }
}

fn rank_of(bits: u32) -> (r: i64)
    ensures
        r == f32_rank(bits),
{
    if bits >= 0x8000_0000 {
        -((bits - 0x8000_0000) as i64)
    } else {
        bits as i64
    }
}

fn clamp_f32(bits: u32, lo: u32, hi: u32) -> (r: u32)
    ensures
        r == f32_clamped(bits, lo, hi),
{
    let rank: i64 = rank_of(bits);
    if rank > 0x7F80_0000 || rank < -0x7F80_0000 {
        bits
    } else if rank < rank_of(lo) {
        lo
    } else if rank > rank_of(hi) {
        hi
    } else {
        bits
    }
}

/// The controls that a received request leads to.
pub open spec fn admitted(control: CameraControl) -> CameraControls {
    CameraControls {
        brightness_bits: f32_clamped(control.brightness_bits, F32_MINUS_ONE, F32_ONE),
        contrast_bits: f32_clamped(control.contrast_bits, 0, F32_TWO),
        ev_bits: f32_clamped(control.ev_bits, F32_MINUS_FOUR, F32_FOUR),
        shutter_us: if control.shutter_us > MAX_SHUTTER_US {
            MAX_SHUTTER_US
        } else {
            control.shutter_us
        },
    }
}

/// Moves requested controls into the ranges that the camera takes, whatever the
/// sender has done about them.
pub fn admit_controls(control: &CameraControl) -> (c: CameraControls)
    ensures
        c == admitted(*control),
{
    CameraControls {
        brightness_bits: clamp_f32(control.brightness_bits, F32_MINUS_ONE, F32_ONE),
        contrast_bits: clamp_f32(control.contrast_bits, 0, F32_TWO),
        ev_bits: clamp_f32(control.ev_bits, F32_MINUS_FOUR, F32_FOUR),
        shutter_us: if control.shutter_us > MAX_SHUTTER_US {
            MAX_SHUTTER_US
        } else {
            control.shutter_us
        },
    }
}

/// Admitted controls are within the camera's ranges, as far as they are
/// numbers.
pub proof fn lemma_admitted_in_range(control: CameraControl)
    ensures
        ({
            let c = admitted(control);
            &&& !f32_is_nan(control.brightness_bits) ==> f32_rank(F32_MINUS_ONE) <= f32_rank(
                c.brightness_bits,
            ) <= f32_rank(F32_ONE)
            &&& !f32_is_nan(control.contrast_bits) ==> 0 <= f32_rank(c.contrast_bits) <= f32_rank(
                F32_TWO,
            )
            &&& !f32_is_nan(control.ev_bits) ==> f32_rank(F32_MINUS_FOUR) <= f32_rank(c.ev_bits)
                <= f32_rank(F32_FOUR)
            &&& c.shutter_us <= MAX_SHUTTER_US
        }),
{
}

#[derive(Debug)]
pub struct CaptureConfig {
    pub rpicam_vid_bin: String,
    pub width: u16,
    pub height: u16,
    pub framerate: u8,
    /// Frames from one key frame to the next.
    pub intra: u32,
    pub max_restart_attempts: u32,
    pub restart_window: Duration,
    pub controls: CameraControls,
}

impl Default for CaptureConfig {
    fn default() -> (c: Self)
        ensures
            c.rpicam_vid_bin@ == "libcamera-vid"@,
            c.width == 640,
            c.height == 480,
            c.framerate == 30,
            c.intra == 30,
            c.max_restart_attempts == 5,
            c.restart_window.nanos == 60_000_000_000,
            c.controls.contrast_bits == F32_ONE,
            c.controls.brightness_bits == 0 && c.controls.ev_bits == 0 && c.controls.shutter_us
                == 0,
    {
        CaptureConfig {
            rpicam_vid_bin: String::from_str("libcamera-vid"),
            width: 640,
            height: 480,
            framerate: 30,
            intra: 30,
            max_restart_attempts: 5,
            restart_window: Duration::from_secs(60),
            controls: CameraControls::default(),
        }
    }
}

/// The camera's arguments. A shutter of zero is not passed on: it means
/// automatic exposure.
pub open spec fn camera_args(
    config: CaptureConfig,
    brightness: Seq<char>,
    contrast: Seq<char>,
    ev: Seq<char>,
    shutter_us: u32,
) -> Seq<Seq<char>> {
    seq![
        "--codec"@,
        "h264"@,
        "--width"@,
        text::decimal(config.width as nat),
        "--height"@,
        text::decimal(config.height as nat),
        "--framerate"@,
        text::decimal(config.framerate as nat),
        "--intra"@,
        text::decimal(config.intra as nat),
        "--inline"@,
        "--flush"@,
    ] + seq![
        "--profile"@,
        "baseline"@,
        "--bitrate"@,
        "2000000"@,
        "--timeout"@,
        "0"@,
        "--brightness"@,
        brightness,
        "--contrast"@,
        contrast,
        "--ev"@,
        ev,
    ] + (if shutter_us != 0 {
        seq!["--shutter"@, text::decimal(shutter_us as nat)]
    } else {
        Seq::empty()
    }) + seq!["-o"@, "-"@]
}

fn push_number(args: &mut Vec<String>, n: u64)
    ensures
        text::texts(final(args)@) == text::texts(old(args)@).push(text::decimal(n as nat)),
{
    let mut s = String::new();
    push_decimal(&mut s, n);
    proof {
        assert(s@ =~= text::decimal(n as nat));
    }
    push_text(args, s.as_str());
}

/// How the camera is started. The real-valued controls come as text.
pub fn build_args(
    config: &CaptureConfig,
    brightness: &str,
    contrast: &str,
    ev: &str,
    shutter_us: u32,
) -> (args: Vec<String>)
    ensures
        text::texts(args@) == camera_args(*config, brightness@, contrast@, ev@, shutter_us),
{
    let mut args: Vec<String> = Vec::new();
    proof {
        assert(text::texts(args@) =~= Seq::empty());
    }
    push_text(&mut args, "--codec");
    push_text(&mut args, "h264");
    push_text(&mut args, "--width");
    push_number(&mut args, config.width as u64);
    push_text(&mut args, "--height");
    push_number(&mut args, config.height as u64);
    push_text(&mut args, "--framerate");
    push_number(&mut args, config.framerate as u64);
    push_text(&mut args, "--intra");
    push_number(&mut args, config.intra as u64);
    push_text(&mut args, "--inline");
    push_text(&mut args, "--flush");
    push_text(&mut args, "--profile");
    push_text(&mut args, "baseline");
    push_text(&mut args, "--bitrate");
    push_text(&mut args, "2000000");
    push_text(&mut args, "--timeout");
    push_text(&mut args, "0");
    push_text(&mut args, "--brightness");
    push_text(&mut args, brightness);
    push_text(&mut args, "--contrast");
    push_text(&mut args, contrast);
    push_text(&mut args, "--ev");
    push_text(&mut args, ev);
    if shutter_us != 0 {
        push_text(&mut args, "--shutter");
        push_number(&mut args, shutter_us as u64);
    }
    push_text(&mut args, "-o");
    push_text(&mut args, "-");
    proof {
        assert(text::texts(args@) =~= camera_args(
            *config,
            brightness@,
            contrast@,
            ev@,
            shutter_us,
        ));
    }
    args
}

/// What happens to the camera process.
#[derive(Debug, Clone, Copy, PartialEq, Eq, Structural)]
pub enum CaptureEvent {
    SpawnFailed,
    OutputEnded,
    ReadFailed,
    /// The operator has set other image controls.
    ControlsChanged,
    /// Nobody can set image controls any more.
    ControlsClosed,
    /// Nobody wants the video any more.
    ReceiverGone,
}

/// What the capture does then.
#[derive(Debug, Clone, Copy, PartialEq, Eq, Structural)]
pub enum CaptureStep {
    /// Go on reading.
    Continue,
    /// End the process and start it again, without a pause and without counting
    /// a failure.
    Restart,
    /// End the process if there is one, pause, and start it again.
    Retry { kill: bool, pause_ms: u64 },
    /// End the process if there is one and stop: it failed too often.
    GiveUp { kill: bool },
    /// End the process and stop.
    ShutDown,
}

pub open spec fn captured(p: RestartPolicy, event: CaptureEvent, now: Instant) -> CaptureStep {
    let kill = event != CaptureEvent::SpawnFailed;
    let next = p.failed(now);
    match event {
        CaptureEvent::ControlsChanged => CaptureStep::Restart,
        CaptureEvent::ControlsClosed => CaptureStep::Continue,
        CaptureEvent::ReceiverGone => CaptureStep::ShutDown,
        _ => if next.exhausted() {
            CaptureStep::GiveUp { kill }
        } else {
            CaptureStep::Retry { kill, pause_ms: (300 * restart::growth(next.attempts)) as u64 }
        },
    }
}

pub open spec fn is_failure(event: CaptureEvent) -> bool {
    event == CaptureEvent::SpawnFailed || event == CaptureEvent::OutputEnded || event
        == CaptureEvent::ReadFailed
}

/// Decides what to do when something happens to the camera process. Only a
/// failure counts against it; a change that the operator asked for does not.
pub fn on_capture_event(policy: &mut RestartPolicy, event: CaptureEvent, now: Instant) -> (step:
    CaptureStep)
    ensures
        step == captured(*old(policy), event, now),
        *final(policy) == if is_failure(event) {
            old(policy).failed(now)
        } else {
            *old(policy)
        },
{
    match event {
        CaptureEvent::ControlsChanged => CaptureStep::Restart,
        CaptureEvent::ControlsClosed => CaptureStep::Continue,
        CaptureEvent::ReceiverGone => CaptureStep::ShutDown,
        _ => {
            let kill: bool = event != CaptureEvent::SpawnFailed;
            if policy.record_failure(now) {
                CaptureStep::Retry { kill, pause_ms: backoff_ms(300, policy.attempts) }
            } else {
                CaptureStep::GiveUp { kill }
            }
        },
    }
}

/// A control that the camera takes is passed on as it is; one beyond its range
/// goes to the end that it lies beyond. The ends are one either way for the
/// brightness, zero and two for the contrast, four either way for the exposure
/// correction, and a tenth of a second for the exposure time. What is no number
/// is left as it is.
pub proof fn lemma_admitted_as_asked(control: CameraControl)
    ensures
        ({
            let c = admitted(control);
            let (b, k, e) = (
                f32_rank(control.brightness_bits),
                f32_rank(control.contrast_bits),
                f32_rank(control.ev_bits),
            );
            &&& f32_rank(0xBF80_0000) <= b <= f32_rank(0x3F80_0000) ==> c.brightness_bits
                == control.brightness_bits
            &&& -0x7F80_0000 <= b < f32_rank(0xBF80_0000) ==> c.brightness_bits == 0xBF80_0000
            &&& f32_rank(0x3F80_0000) < b <= 0x7F80_0000 ==> c.brightness_bits == 0x3F80_0000
            &&& 0 <= k <= f32_rank(0x4000_0000) ==> c.contrast_bits == control.contrast_bits
            &&& -0x7F80_0000 <= k < 0 ==> c.contrast_bits == 0
            &&& f32_rank(0x4000_0000) < k <= 0x7F80_0000 ==> c.contrast_bits == 0x4000_0000
            &&& f32_rank(0xC080_0000) <= e <= f32_rank(0x4080_0000) ==> c.ev_bits
                == control.ev_bits
            &&& -0x7F80_0000 <= e < f32_rank(0xC080_0000) ==> c.ev_bits == 0xC080_0000
            &&& f32_rank(0x4080_0000) < e <= 0x7F80_0000 ==> c.ev_bits == 0x4080_0000
            &&& control.shutter_us <= 100_000 ==> c.shutter_us == control.shutter_us
            &&& control.shutter_us > 100_000 ==> c.shutter_us == 100_000
            &&& b > 0x7F80_0000 || b < -0x7F80_0000 ==> c.brightness_bits
                == control.brightness_bits
            &&& k > 0x7F80_0000 || k < -0x7F80_0000 ==> c.contrast_bits == control.contrast_bits
            &&& e > 0x7F80_0000 || e < -0x7F80_0000 ==> c.ev_bits == control.ev_bits
        }),
{
}

/// The order of single-precision numbers is that of their patterns, for numbers
/// of one sign; a number below zero stands as far below it as its opposite
/// stands above.
pub proof fn lemma_rank_orders(a: u32, b: u32)
    ensures
        a <= b < 0x8000_0000 ==> f32_rank(a) <= f32_rank(b),
        0x8000_0000 <= a <= b ==> f32_rank(a) >= f32_rank(b),
        a < 0x8000_0000 ==> f32_rank((a + 0x8000_0000) as u32) == -f32_rank(a),
        f32_rank(0) == 0,
{
}

/// Each setting stands in the argument list right behind the option that it
/// belongs to, and an exposure time is named only where there is one.
pub proof fn lemma_each_setting_behind_its_option(
    config: CaptureConfig,
    brightness: Seq<char>,
    contrast: Seq<char>,
    ev: Seq<char>,
    shutter_us: u32,
)
    ensures
        ({
            let args = camera_args(config, brightness, contrast, ev, shutter_us);
            &&& args[2] == "--width"@ && args[3] == text::decimal(config.width as nat)
            &&& args[4] == "--height"@ && args[5] == text::decimal(config.height as nat)
            &&& args[6] == "--framerate"@ && args[7] == text::decimal(config.framerate as nat)
            &&& args[8] == "--intra"@ && args[9] == text::decimal(config.intra as nat)
            &&& args[18] == "--brightness"@ && args[19] == brightness
            &&& args[20] == "--contrast"@ && args[21] == contrast
            &&& args[22] == "--ev"@ && args[23] == ev
            &&& shutter_us != 0 ==> args.len() == 28 && args[24] == "--shutter"@ && args[25]
                == text::decimal(shutter_us as nat)
            &&& shutter_us == 0 ==> args.len() == 26
            &&& args[args.len() - 2] == "-o"@ && args[args.len() - 1] == "-"@
        }),
{
}

/// What the capture does. Other image controls restart the camera at once and
/// count for nothing; that nobody can set them any more changes nothing; that
/// nobody wants the video ends it. Every other event is a failure: the camera is
/// started again after a pause that doubles, from six tenths of a second on, or
/// given up if it has failed too often.
pub proof fn lemma_capture_steps(p: RestartPolicy, event: CaptureEvent, now: Instant)
    requires
        p.attempts < u32::MAX,
        p.window_start.nanos <= now.nanos,
        now.nanos - p.window_start.nanos <= p.window.nanos,
    ensures
        captured(p, CaptureEvent::ControlsChanged, now) == CaptureStep::Restart,
        captured(p, CaptureEvent::ControlsClosed, now) == CaptureStep::Continue,
        captured(p, CaptureEvent::ReceiverGone, now) == CaptureStep::ShutDown,
        event is SpawnFailed || event is OutputEnded || event is ReadFailed ==> is_failure(event)
            && {
            let kill = !(event is SpawnFailed);
            &&& p.attempts >= p.max_attempts ==> captured(p, event, now) == (CaptureStep::GiveUp {
                kill,
            })
            &&& p.attempts < p.max_attempts ==> {
                &&& captured(p, event, now) is Retry
                &&& captured(p, event, now)->Retry_kill == kill
                &&& p.attempts == 0 ==> captured(p, event, now)->pause_ms == 600
                &&& p.attempts == 1 ==> captured(p, event, now)->pause_ms == 1200
                &&& p.attempts == 2 ==> captured(p, event, now)->pause_ms == 2400
                &&& p.attempts == 3 ==> captured(p, event, now)->pause_ms == 4800
                &&& p.attempts >= 4 ==> captured(p, event, now)->pause_ms == 9600
            }
        },
        event is ControlsChanged || event is ControlsClosed || event is ReceiverGone ==> !is_failure(
            event,
        ),
{
}

/// A number comes into the range, and no further than its nearer end; one that is
/// in the range stays.
pub proof fn lemma_clamped(bits: u32, lo: u32, hi: u32)
    requires
        f32_rank(lo) <= f32_rank(hi),
        !f32_is_nan(bits),
    ensures
        f32_rank(lo) <= f32_rank(f32_clamped(bits, lo, hi)) <= f32_rank(hi),
        f32_rank(lo) <= f32_rank(bits) <= f32_rank(hi) ==> f32_clamped(bits, lo, hi) == bits,
        f32_rank(bits) < f32_rank(lo) ==> f32_clamped(bits, lo, hi) == lo,
        f32_rank(bits) > f32_rank(hi) ==> f32_clamped(bits, lo, hi) == hi,
{
}

/// What is no number is left alone.
pub proof fn lemma_no_number(bits: u32, lo: u32, hi: u32)
    requires
        bits == 0x7FC0_0000 || 0x7F80_0000 < bits < 0x8000_0000 || 0xFF80_0000 < bits,
    ensures
        f32_is_nan(bits),
        f32_clamped(bits, lo, hi) == bits,
{
}

} // verus!
