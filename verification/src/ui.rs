//! The operator's display: what is shown, in which words and in which tone.
//! Placing it on the screen is left to the program.

use std::collections::VecDeque;
use vstd::prelude::*;
use crate::client_state::{CameraControlState, HeldCommand};
use crate::fixed::Micro;
use crate::gamepad::StickXMode;
use crate::text;
use crate::text::{
    push_decimal, push_float, push_right_aligned, push_rounded, push_rounded_tenths,
    push_signed_decimal,
};
use crate::time;
use crate::time::{Duration, Instant};

verus! {

/// Counts events and bytes over a sliding window.
pub struct RateCounter {
    window: Duration,
    samples: VecDeque<(Instant, usize)>,
}

/// A counter as a mathematical value.
#[verifier::ext_equal]
pub struct RateView {
    pub window: Duration,
    pub samples: Seq<(Instant, usize)>,
}

/// The samples without those at the front that are older than the window.
pub open spec fn pruned(samples: Seq<(Instant, usize)>, window: Duration, now: Instant) -> Seq<
    (Instant, usize),
>
    decreases samples.len(),
{
    if samples.len() > 0 && time::elapsed(samples[0].0, now) > window.nanos {
        pruned(samples.subrange(1, samples.len() as int), window, now)
    } else {
        samples
    }
}

/// How many samples lie within the window.
pub open spec fn counted(samples: Seq<(Instant, usize)>, window: Duration, now: Instant) -> nat
    decreases samples.len(),
{
    if samples.len() == 0 {
        0
    } else {
        counted(samples.drop_last(), window, now) + (if time::elapsed(samples.last().0, now)
            <= window.nanos {
            1nat
        } else {
            0nat
        })
    }
}

/// The bytes of the samples within the window.
pub open spec fn summed(samples: Seq<(Instant, usize)>, window: Duration, now: Instant) -> nat
    decreases samples.len(),
{
    if samples.len() == 0 {
        0
    } else {
        summed(samples.drop_last(), window, now) + (if time::elapsed(samples.last().0, now)
            <= window.nanos {
            samples.last().1 as nat
        } else {
            0nat
        })
    }
}

/// A number that a sixty-four-bit counter can show.
pub open spec fn shown(n: nat) -> u64 {
    if n > u64::MAX {
        u64::MAX
    } else {
        n as u64
    }
}

impl RateView {
    pub open spec fn recorded(self, now: Instant, bytes: usize) -> RateView {
        RateView {
            samples: pruned(self.samples.push((now, bytes)), self.window, now),
            ..self
        }
    }
}

impl View for RateCounter {
    type V = RateView;

    closed spec fn view(&self) -> RateView {
        RateView { window: self.window, samples: self.samples@ }
    }
}

impl RateCounter {
    pub fn new(window: Duration) -> (c: Self)
        ensures
            c@ == (RateView { window, samples: Seq::empty() }),
    {
        let c = RateCounter { window, samples: VecDeque::new() };
        proof {
            assert(c@ =~= (RateView { window, samples: Seq::empty() }));
        }
        c
    }

    pub fn record(&mut self, now: Instant, bytes: usize)
        ensures
            final(self)@ == old(self)@.recorded(now, bytes),
    {
        self.samples.push_back((now, bytes));
        let ghost all = self.samples@;
        while self.samples.len() > 0
            invariant_except_break
                pruned(self.samples@, self.window, now) == pruned(all, self.window, now),
                self.window == old(self)@.window,
            ensures
                self.samples@ == pruned(all, self.window, now),
                self.window == old(self)@.window,
            decreases self.samples@.len(),
        {
            let (t, _) = self.samples[0];
            if now.saturating_duration_since(t).nanos > self.window.nanos {
                let ghost before = self.samples@;
                let _stale = self.samples.pop_front();
                proof {
                    assert(self.samples@ =~= before.subrange(1, before.len() as int));
                }
            } else {
                break;
            }
        }
        proof {
            assert(self@ =~= old(self)@.recorded(now, bytes));
        }
    }

    /// The events and the bytes within the window.
    pub fn totals(&self, now: Instant) -> (r: (u64, u64))
        ensures
            r.0 == shown(counted(self@.samples, self@.window, now)),
            r.1 == shown(summed(self@.samples, self@.window, now)),
    {
        let n: usize = self.samples.len();
        let mut count: u64 = 0;
        let mut bytes: u64 = 0;
        let mut i: usize = 0;
        proof {
            assert(self.samples@.subrange(0, 0) =~= Seq::empty());
        }
        while i < n
            invariant
                i <= n,
                n == self.samples@.len(),
                count == shown(counted(self.samples@.subrange(0, i as int), self.window, now)),
                bytes == shown(summed(self.samples@.subrange(0, i as int), self.window, now)),
            decreases n - i,
        {
            let (t, b) = self.samples[i];
            proof {
                let s = self.samples@.subrange(0, i + 1);
                assert(s.drop_last() =~= self.samples@.subrange(0, i as int));
                assert(s.last() == (t, b));
            }
            if now.saturating_duration_since(t).nanos <= self.window.nanos {
                count = count.saturating_add(1);
                bytes = bytes.saturating_add(b as u64);
            }
            i = i + 1;
        }
        proof {
            assert(self.samples@.subrange(0, n as int) =~= self.samples@);
        }
        (count, bytes)
    }
}

/// However many events are recorded, the counter never holds more than those
/// of one window: whatever it holds first is recent.
pub proof fn lemma_counter_bounded(c: RateView, now: Instant, bytes: usize)
    ensures
        c.recorded(now, bytes).samples.len() > 0,
        time::elapsed(c.recorded(now, bytes).samples[0].0, now) <= c.window.nanos,
        c.recorded(now, bytes).samples.last() == (now, bytes),
{
    lemma_pruned(c.samples.push((now, bytes)), c.window, now);
}

proof fn lemma_pruned(samples: Seq<(Instant, usize)>, window: Duration, now: Instant)
    requires
        samples.len() > 0,
        samples.last().0 == now,
    ensures
        pruned(samples, window, now).len() > 0,
        time::elapsed(pruned(samples, window, now)[0].0, now) <= window.nanos,
        pruned(samples, window, now).last() == samples.last(),
    decreases samples.len(),
{
    if time::elapsed(samples[0].0, now) > window.nanos {
        let rest = samples.subrange(1, samples.len() as int);
        assert(samples.len() > 1);
        assert(rest.last() == samples.last());
        lemma_pruned(rest, window, now);
    }
}

impl RateView {
    /// With several events recorded, one after the other.
    pub open spec fn recorded_all(self, events: Seq<(Instant, usize)>) -> RateView
        decreases events.len(),
    {
        if events.len() == 0 {
            self
        } else {
            self.recorded_all(events.drop_last()).recorded(events.last().0, events.last().1)
        }
    }
}

/// What is given up on the way is never missed: the totals are those of all the
/// events that were ever recorded, as far as they lie within the window, however
/// many there were and in whatever order, as long as none lies ahead.
pub proof fn lemma_totals_of_all(window: Duration, events: Seq<(Instant, usize)>, now: Instant)
    requires
        forall|i: int| 0 <= i < events.len() ==> (#[trigger] events[i]).0.nanos <= now.nanos,
    ensures
        ({
            let c = (RateView { window, samples: Seq::empty() }).recorded_all(events);
            &&& c.window == window
            &&& counted(c.samples, window, now) == counted(events, window, now)
            &&& summed(c.samples, window, now) == summed(events, window, now)
        }),
    decreases events.len(),
{
    if events.len() > 0 {
        let before = events.drop_last();
        let last = events.last();
        assert forall|i: int| 0 <= i < before.len() implies (#[trigger] before[i]).0.nanos
            <= now.nanos by {
            assert(before[i] == events[i]);
        }
        assert(events[events.len() - 1].0.nanos <= now.nanos);
        lemma_totals_of_all(window, before, now);
        let c = (RateView { window, samples: Seq::empty() }).recorded_all(before);
        let all = c.samples.push(last);
        assert(all.drop_last() =~= c.samples);
        lemma_pruned_totals(all, window, last.0, now);
    }
}

proof fn lemma_pruned_totals(
    samples: Seq<(Instant, usize)>,
    window: Duration,
    at: Instant,
    now: Instant,
)
    requires
        at.nanos <= now.nanos,
    ensures
        counted(pruned(samples, window, at), window, now) == counted(samples, window, now),
        summed(pruned(samples, window, at), window, now) == summed(samples, window, now),
    decreases samples.len(),
{
    if samples.len() > 0 && time::elapsed(samples[0].0, at) > window.nanos {
        lemma_pruned_totals(samples.subrange(1, samples.len() as int), window, at, now);
        lemma_first_counts(samples, window, now);
    }
}

proof fn lemma_first_counts(samples: Seq<(Instant, usize)>, window: Duration, now: Instant)
    requires
        samples.len() > 0,
        time::elapsed(samples[0].0, now) > window.nanos,
    ensures
        counted(samples.subrange(1, samples.len() as int), window, now) == counted(
            samples,
            window,
            now,
        ),
        summed(samples.subrange(1, samples.len() as int), window, now) == summed(
            samples,
            window,
            now,
        ),
    decreases samples.len(),
{
    let rest = samples.subrange(1, samples.len() as int);
    if samples.len() > 1 {
        let front = samples.drop_last();
        lemma_first_counts(front, window, now);
        assert(front.subrange(1, front.len() as int) =~= rest.drop_last());
        assert(rest.last() == samples.last());
    } else {
        assert(samples.drop_last() =~= Seq::empty());
        assert(rest =~= Seq::empty());
    }
}

#[derive(Debug, Clone, Copy, PartialEq, Eq, Structural)]
pub enum ConnPhase {
    AwaitingHello,
    AwaitingSessionDescribe,
    Operating,
    Closed,
}

pub open spec fn phase_label(phase: ConnPhase) -> Seq<char> {
    match phase {
        ConnPhase::AwaitingHello => "awaiting HELLO"@,
        ConnPhase::AwaitingSessionDescribe => "awaiting SESSION_DESCRIBE"@,
        ConnPhase::Operating => "operating"@,
        ConnPhase::Closed => "closed"@,
    }
}

impl ConnPhase {
    pub fn label(self) -> (s: &'static str)
        ensures
            s@ == phase_label(self),
    {
        match self {
            ConnPhase::AwaitingHello => "awaiting HELLO",
            ConnPhase::AwaitingSessionDescribe => "awaiting SESSION_DESCRIBE",
            ConnPhase::Operating => "operating",
            ConnPhase::Closed => "closed",
        }
    }
}

/// A canned action, and when it was last sent. Nothing confirms that the robot
/// carried it out.
#[derive(Debug, Clone, Copy, PartialEq, Eq, Structural)]
pub struct ActionSlot {
    pub key: char,
    pub id: u8,
    pub last_tick: Option<u64>,
    pub last_sent_at: Option<Instant>,
}

/// Measured attitude, in hundredths of a degree.
#[derive(Debug, Clone, Copy, PartialEq, Eq, Structural)]
pub struct Attitude {
    pub roll: i16,
    pub pitch: i16,
    pub yaw: i16,
}

/// Everything that is on display.
pub struct HudState {
    pub phase: ConnPhase,
    pub peer: String,
    pub tick_hz: u32,
    pub session_start: Instant,
    pub robot_id: Option<String>,
    pub dof_count: Option<u16>,
    /// Size, codec and frame rate of the first camera.
    pub camera_shape: Option<String>,
    pub disconnected_at: Option<Instant>,
    pub reconnect_attempts: u32,
    pub estopped: bool,
    /// In microseconds.
    pub rtt_us: Option<u64>,
    pub battery: Option<u8>,
    pub attitude: Option<Attitude>,
    /// Joint angles, in hundredths of a degree.
    pub motors: Vec<i16>,
    pub last_telemetry_at: Option<Instant>,
    pub held: HeldCommand,
    pub stand: ActionSlot,
    pub sit: ActionSlot,
    pub camera: CameraControlState,
    pub video_dgram_rate: RateCounter,
    pub video_frame_rate: RateCounter,
    pub command_rate: RateCounter,
    pub command_last_seq: u64,
    pub telemetry_rate: RateCounter,
    pub telemetry_last_seq: Option<u64>,
    pub gamepad_connected: bool,
    pub gamepad_stick_mode: StickXMode,
    pub recording_active: bool,
    pub recording_started_at: Option<Instant>,
    pub recording_dropped: u64,
}

/// The rates are those of the last second.
pub const CHANNEL_STATS_WINDOW_S: u64 = 1;

impl HudState {
    /// Nothing is known yet but whom the console talks to, how often, and since
    /// when.
    pub open spec fn is_fresh(self, peer: Seq<char>, tick_hz: u32, now: Instant) -> bool {
        &&& self.phase == ConnPhase::AwaitingHello
        &&& self.peer@ == peer
        &&& self.tick_hz == tick_hz
        &&& self.session_start == now
        &&& self.robot_id is None && self.dof_count is None && self.camera_shape is None
        &&& self.disconnected_at is None && self.reconnect_attempts == 0
        &&& !self.estopped
        &&& self.rtt_us is None && self.battery is None && self.attitude is None
        &&& self.motors@.len() == 0 && self.last_telemetry_at is None
        &&& self.held == HeldCommand::neutral()
        &&& self.camera == CameraControlState::neutral()
        &&& self.stand == (ActionSlot { key: '1', id: 2, last_tick: None, last_sent_at: None })
        &&& self.sit == (ActionSlot { key: '2', id: 12, last_tick: None, last_sent_at: None })
        &&& self.video_dgram_rate@ == no_rate()
        &&& self.video_frame_rate@ == no_rate()
        &&& self.command_rate@ == no_rate()
        &&& self.telemetry_rate@ == no_rate()
        &&& self.command_last_seq == 0 && self.telemetry_last_seq is None
        &&& !self.gamepad_connected && self.gamepad_stick_mode == StickXMode::Turn
        &&& !self.recording_active && self.recording_started_at is None && self.recording_dropped
            == 0
    }

    pub fn new(peer: String, tick_hz: u32, now: Instant) -> (h: Self)
        ensures
            h.is_fresh(peer@, tick_hz, now),
    {
        HudState {
            phase: ConnPhase::AwaitingHello,
            peer,
            tick_hz,
            session_start: now,
            robot_id: None,
            dof_count: None,
            camera_shape: None,
            disconnected_at: None,
            reconnect_attempts: 0,
            estopped: false,
            rtt_us: None,
            battery: None,
            attitude: None,
            motors: Vec::new(),
            last_telemetry_at: None,
            held: HeldCommand::new(),
            stand: ActionSlot { key: '1', id: 2, last_tick: None, last_sent_at: None },
            sit: ActionSlot { key: '2', id: 12, last_tick: None, last_sent_at: None },
            camera: CameraControlState::new(),
            video_dgram_rate: RateCounter::new(Duration::from_secs(CHANNEL_STATS_WINDOW_S)),
            video_frame_rate: RateCounter::new(Duration::from_secs(CHANNEL_STATS_WINDOW_S)),
            command_rate: RateCounter::new(Duration::from_secs(CHANNEL_STATS_WINDOW_S)),
            command_last_seq: 0,
            telemetry_rate: RateCounter::new(Duration::from_secs(CHANNEL_STATS_WINDOW_S)),
            telemetry_last_seq: None,
            gamepad_connected: false,
            gamepad_stick_mode: StickXMode::Turn,
            recording_active: false,
            recording_started_at: None,
            recording_dropped: 0,
        }
    }

    /// Notes that an action was sent on tick `tick`, if it is one of the two
    /// that are on display.
    pub fn record_action_sent(&mut self, action_id: u8, tick: u64, now: Instant)
        ensures
            *final(self) == (HudState {
                stand: if action_id == old(self).stand.id {
                    sent_slot(old(self).stand, tick, now)
                } else {
                    old(self).stand
                },
                sit: if action_id != old(self).stand.id && action_id == old(self).sit.id {
                    sent_slot(old(self).sit, tick, now)
                } else {
                    old(self).sit
                },
                ..*old(self)
            }),
    {
        if action_id == self.stand.id {
            self.stand.last_tick = Some(tick);
            self.stand.last_sent_at = Some(now);
        } else if action_id == self.sit.id {
            self.sit.last_tick = Some(tick);
            self.sit.last_sent_at = Some(now);
        }
    }
}

pub open spec fn sent_slot(slot: ActionSlot, tick: u64, now: Instant) -> ActionSlot {
    ActionSlot { last_tick: Some(tick), last_sent_at: Some(now), ..slot }
}

/// A counter that has counted nothing.
pub open spec fn no_rate() -> RateView {
    RateView {
        window: Duration { nanos: (CHANNEL_STATS_WINDOW_S * 1_000_000_000) as u64 },
        samples: Seq::empty(),
    }
}

/// How a text is to be seen.
#[derive(Debug, Clone, Copy, PartialEq, Eq, Structural)]
pub enum Tone {
    Plain,
    Good,
    Warning,
    Bad,
    Dim,
    Alarm,
    Bold,
}

#[derive(Debug)]
pub struct Span {
    pub text: String,
    pub tone: Tone,
}

pub struct SpanView {
    pub text: Seq<char>,
    pub tone: Tone,
}

impl View for Span {
    type V = SpanView;

    open spec fn view(&self) -> SpanView {
        SpanView { text: self.text@, tone: self.tone }
    }
}

pub const BATTERY_YELLOW_PCT: u8 = 50;

pub const BATTERY_RED_PCT: u8 = 20;

pub const RTT_YELLOW_US: u64 = 50_000;

pub const RTT_RED_US: u64 = 150_000;

pub const TELEMETRY_AGE_YELLOW_MS: u64 = 300;

pub const TELEMETRY_AGE_RED_MS: u64 = 1000;

pub open spec fn battery_seen(pct: u8) -> Tone {
    if pct < BATTERY_RED_PCT {
        Tone::Bad
    } else if pct < BATTERY_YELLOW_PCT {
        Tone::Warning
    } else {
        Tone::Good
    }
}

pub open spec fn rtt_seen(us: u64) -> Tone {
    if us >= RTT_RED_US {
        Tone::Bad
    } else if us >= RTT_YELLOW_US {
        Tone::Warning
    } else {
        Tone::Good
    }
}

pub open spec fn age_seen(nanos: nat) -> Tone {
    if nanos >= TELEMETRY_AGE_RED_MS * 1_000_000 {
        Tone::Bad
    } else if nanos >= TELEMETRY_AGE_YELLOW_MS * 1_000_000 {
        Tone::Warning
    } else {
        Tone::Good
    }
}

pub fn battery_color(pct: u8) -> (t: Tone)
    ensures
        t == battery_seen(pct),
{
    if pct < BATTERY_RED_PCT {
        Tone::Bad
    } else if pct < BATTERY_YELLOW_PCT {
        Tone::Warning
    } else {
        Tone::Good
    }
}

pub fn rtt_color(us: u64) -> (t: Tone)
    ensures
        t == rtt_seen(us),
{
    if us >= RTT_RED_US {
        Tone::Bad
    } else if us >= RTT_YELLOW_US {
        Tone::Warning
    } else {
        Tone::Good
    }
}

pub fn age_color(age: Duration) -> (t: Tone)
    ensures
        t == age_seen(age.nanos as nat),
{
    if age.nanos >= TELEMETRY_AGE_RED_MS * 1_000_000 {
        Tone::Bad
    } else if age.nanos >= TELEMETRY_AGE_YELLOW_MS * 1_000_000 {
        Tone::Warning
    } else {
        Tone::Good
    }
}

/// A setting in millionths, with one place behind the point.
pub open spec fn setting_text(v: Micro) -> Seq<char> {
    text::float_text(v as int, 1_000_000, 24)
}

/// An angle in hundredths, with one place behind the point.
pub open spec fn angle_text(v: i16) -> Seq<char> {
    text::float_text(v as int, 100, 24)
}

/// A time in nanoseconds, in seconds with one place behind the point.
pub open spec fn age_text(nanos: nat) -> Seq<char> {
    text::float_text(nanos as int, 1_000_000_000, 53)
}

/// A time in microseconds, in milliseconds with one place behind the point.
pub open spec fn ms_text(us: u64) -> Seq<char> {
    text::float_text(us as int, 1000, 53)
}

pub fn push_setting(out: &mut String, v: Micro)
    ensures
        final(out)@ == old(out)@ + setting_text(v),
{
    push_float(out, v as i128, 1_000_000, 24);
}

pub fn push_angle(out: &mut String, v: i16)
    ensures
        final(out)@ == old(out)@ + angle_text(v),
{
    push_float(out, v as i128, 100, 24);
}

fn push_right_angle(out: &mut String, v: i16)
    ensures
        final(out)@ == old(out)@ + text::right_aligned(angle_text(v), 6),
{
    let mut s = String::new();
    push_angle(&mut s, v);
    proof {
        assert(s@ =~= angle_text(v));
    }
    push_right_aligned(out, s.as_str(), 6);
}

fn push_age(out: &mut String, age: Duration)
    ensures
        final(out)@ == old(out)@ + age_text(age.nanos as nat),
{
    push_float(out, age.nanos as i128, 1_000_000_000, 53);
}

fn push_ms(out: &mut String, us: u64)
    ensures
        final(out)@ == old(out)@ + ms_text(us),
{
    push_float(out, us as i128, 1000, 53);
}

pub open spec fn battery_text(battery: Option<u8>) -> SpanView {
    match battery {
        Some(b) => SpanView { text: text::decimal(b as nat) + "%"@, tone: battery_seen(b) },
        None => SpanView { text: "no data"@, tone: Tone::Dim },
    }
}

pub open spec fn rtt_text(rtt_us: Option<u64>) -> SpanView {
    match rtt_us {
        Some(us) => SpanView { text: ms_text(us) + " ms"@, tone: rtt_seen(us) },
        None => SpanView { text: "--"@, tone: Tone::Dim },
    }
}

pub open spec fn last_seen_text(at: Option<Instant>, now: Instant) -> SpanView {
    match at {
        Some(t) => SpanView {
            text: age_text(time::elapsed(t, now)) + "s ago"@,
            tone: age_seen(time::elapsed(t, now)),
        },
        None => SpanView { text: "no data yet"@, tone: Tone::Bad },
    }
}

/// Roll, pitch and yaw, with `between` between them.
pub open spec fn attitude_text(attitude: Option<Attitude>, between: Seq<char>) -> Seq<char> {
    match attitude {
        Some(a) => angle_text(a.roll) + between + angle_text(a.pitch) + between + angle_text(
            a.yaw,
        ),
        None => "--/--/--"@,
    }
}

fn battery_span(battery: Option<u8>) -> (s: Span)
    ensures
        s@ == battery_text(battery),
{
    match battery {
        Some(b) => {
            let mut out = String::new();
            push_decimal(&mut out, b as u64);
            out.append("%");
            proof {
                assert(out@ =~= text::decimal(b as nat) + "%"@);
            }
            Span { text: out, tone: battery_color(b) }
        },
        None => Span { text: String::from_str("no data"), tone: Tone::Dim },
    }
}

fn rtt_span(rtt_us: Option<u64>) -> (s: Span)
    ensures
        s@ == rtt_text(rtt_us),
{
    match rtt_us {
        Some(us) => {
            let mut out = String::new();
            push_ms(&mut out, us);
            out.append(" ms");
            proof {
                assert(out@ =~= ms_text(us) + " ms"@);
            }
            Span { text: out, tone: rtt_color(us) }
        },
        None => Span { text: String::from_str("--"), tone: Tone::Dim },
    }
}

fn last_seen_span(at: Option<Instant>, now: Instant) -> (s: Span)
    ensures
        s@ == last_seen_text(at, now),
{
    match at {
        Some(t) => {
            let age = now.saturating_duration_since(t);
            let mut out = String::new();
            push_age(&mut out, age);
            out.append("s ago");
            proof {
                assert(out@ =~= age_text(time::elapsed(t, now)) + "s ago"@);
            }
            Span { text: out, tone: age_color(age) }
        },
        None => Span { text: String::from_str("no data yet"), tone: Tone::Bad },
    }
}

fn attitude_string(attitude: Option<Attitude>, between: &str) -> (out: String)
    ensures
        out@ == attitude_text(attitude, between@),
{
    match attitude {
        Some(a) => {
            let mut out = String::new();
            push_angle(&mut out, a.roll);
            proof {
                assert(out@ =~= angle_text(a.roll));
            }
            out.append(between);
            push_angle(&mut out, a.pitch);
            out.append(between);
            push_angle(&mut out, a.yaw);
            out
        },
        None => String::from_str("--/--/--"),
    }
}

/// What the telemetry panel shows. The grid of legs takes twelve joints; the
/// ones beyond are the arm's.
#[derive(Debug)]
pub struct TelemetryPanel {
    pub battery: Span,
    pub rtt: Span,
    pub last_received: Span,
    pub attitude: String,
    /// Per leg the lower, middle and upper joint: front left, front right, rear
    /// right, rear left.
    pub legs: Vec<String>,
    pub arm: Option<String>,
}

pub open spec fn leg_text(lower: i16, middle: i16, upper: i16) -> Seq<char> {
    "L"@ + text::right_aligned(angle_text(lower), 6) + " M"@ + text::right_aligned(angle_text(middle), 6) + " U"@ + text::right_aligned(angle_text(upper), 6)
}

fn leg_cell(lower: i16, middle: i16, upper: i16) -> (out: String)
    ensures
        out@ == leg_text(lower, middle, upper),
{
    let mut out = String::from_str("L");
    push_right_angle(&mut out, lower);
    out.append(" M");
    push_right_angle(&mut out, middle);
    out.append(" U");
    push_right_angle(&mut out, upper);
    out
}

pub open spec fn leg_name(leg: int) -> Seq<char> {
    if leg == 0 {
        "FL"@
    } else if leg == 1 {
        "FR"@
    } else if leg == 2 {
        "RR"@
    } else {
        "RL"@
    }
}

/// What a cell of the grid of legs is labelled with.
pub fn leg_label(leg: usize) -> (s: &'static str)
    requires
        leg < 4,
    ensures
        s@ == leg_name(leg as int),
{
    match leg {
        0 => "FL",
        1 => "FR",
        2 => "RR",
        _ => "RL",
    }
}

/// Angles with a slash between them.
pub open spec fn joined_angles(angles: Seq<i16>) -> Seq<char>
    decreases angles.len(),
{
    if angles.len() == 0 {
        Seq::empty()
    } else if angles.len() == 1 {
        angle_text(angles[0])
    } else {
        joined_angles(angles.drop_last()) + " / "@ + angle_text(angles.last())
    }
}

fn push_joined(out: &mut String, angles: &Vec<i16>, from: usize)
    requires
        from < angles@.len(),
    ensures
        final(out)@ == old(out)@ + joined_angles(
            angles@.subrange(from as int, angles@.len() as int),
        ),
{
    push_angle(out, angles[from]);
    let n: usize = angles.len();
    let mut i: usize = from + 1;
    proof {
        assert(angles@.subrange(from as int, from + 1) =~= seq![angles@[from as int]]);
        assert(joined_angles(seq![angles@[from as int]]) == angle_text(angles@[from as int]));
    }
    while i < n
        invariant
            from < i <= n,
            n == angles@.len(),
            out@ == old(out)@ + joined_angles(angles@.subrange(from as int, i as int)),
        decreases n - i,
    {
        let ghost now = angles@.subrange(from as int, i + 1);
        proof {
            assert(now.drop_last() =~= angles@.subrange(from as int, i as int));
            assert(now.last() == angles@[i as int]);
        }
        out.append(" / ");
        push_angle(out, angles[i]);
        proof {
            assert(out@ =~= old(out)@ + joined_angles(now));
        }
        i = i + 1;
    }
}

pub open spec fn leg_of(motors: Seq<i16>, leg: int) -> Seq<char> {
    leg_text(motors[3 * leg], motors[3 * leg + 1], motors[3 * leg + 2])
}

/// Does a panel show this?
pub open spec fn shows_telemetry(p: TelemetryPanel, hud: HudState, now: Instant) -> bool {
    let motors = hud.motors@;
    &&& p.battery@ == battery_text(hud.battery)
    &&& p.rtt@ == rtt_text(hud.rtt_us)
    &&& p.last_received@ == last_seen_text(hud.last_telemetry_at, now)
    &&& p.attitude@ == "roll/pitch/yaw: "@ + attitude_text(hud.attitude, " / "@)
    &&& motors.len() < 12 ==> p.legs@.len() == 0
    &&& motors.len() >= 12 ==> p.legs@.len() == 4 && p.legs@[0]@ == leg_of(motors, 0)
        && p.legs@[1]@ == leg_of(motors, 1) && p.legs@[2]@ == leg_of(motors, 2) && p.legs@[3]@
        == leg_of(motors, 3)
    &&& match p.arm {
        Some(text) => motors.len() > 12 && text@ == "arm: "@ + joined_angles(
            motors.subrange(12, motors.len() as int),
        ),
        None => motors.len() <= 12,
    }
}

pub fn telemetry_panel(hud: &HudState, now: Instant) -> (p: TelemetryPanel)
    ensures
        shows_telemetry(p, *hud, now),
{
    let mut attitude = String::from_str("roll/pitch/yaw: ");
    attitude.append(attitude_string(hud.attitude, " / ").as_str());
    let m = &hud.motors;
    let mut legs: Vec<String> = Vec::new();
    let mut arm: Option<String> = None;
    if m.len() >= 12 {
        legs.push(leg_cell(m[0], m[1], m[2]));
        legs.push(leg_cell(m[3], m[4], m[5]));
        legs.push(leg_cell(m[6], m[7], m[8]));
        legs.push(leg_cell(m[9], m[10], m[11]));
        if m.len() > 12 {
            let mut line = String::from_str("arm: ");
            push_joined(&mut line, m, 12);
            arm = Some(line);
        }
    }
    TelemetryPanel {
        battery: battery_span(hud.battery),
        rtt: rtt_span(hud.rtt_us),
        last_received: last_seen_span(hud.last_telemetry_at, now),
        attitude,
        legs,
        arm,
    }
}

/// The held velocities.
pub open spec fn velocity_text(h: HeldCommand) -> Seq<char> {
    "vx="@ + setting_text(h.vx) + " vy="@ + setting_text(h.vy) + " turn="@ + setting_text(h.turn)
}

fn velocity_line(h: HeldCommand) -> (out: String)
    ensures
        out@ == velocity_text(h),
{
    let mut out = String::from_str("vx=");
    push_setting(&mut out, h.vx);
    out.append(" vy=");
    push_setting(&mut out, h.vy);
    out.append(" turn=");
    push_setting(&mut out, h.turn);
    out
}

/// The held arm and claw.
pub open spec fn arm_text(h: HeldCommand) -> Seq<char> {
    "arm x="@ + text::signed_decimal(h.arm_x as int) + " z="@ + text::signed_decimal(h.arm_z as int) + " claw="@ + text::decimal(h.claw as nat)
}

fn arm_line(h: HeldCommand) -> (out: String)
    ensures
        out@ == arm_text(h),
{
    let mut out = String::from_str("arm x=");
    push_signed_decimal(&mut out, h.arm_x as i64);
    out.append(" z=");
    push_signed_decimal(&mut out, h.arm_z as i64);
    out.append(" claw=");
    push_decimal(&mut out, h.claw as u64);
    out
}

/// The held attitude, with its limits.
pub open spec fn held_attitude_text(h: HeldCommand) -> Seq<char> {
    "attitude roll="@ + setting_text(h.attitude_r) + " (+/-20) pitch="@ + setting_text(h.attitude_p) + " (+/-10) yaw="@ + setting_text(h.attitude_y) + " (+/-12) deg"@
}

fn held_attitude_line(h: HeldCommand) -> (out: String)
    ensures
        out@ == held_attitude_text(h),
{
    let mut out = String::from_str("attitude roll=");
    push_setting(&mut out, h.attitude_r);
    out.append(" (+/-20) pitch=");
    push_setting(&mut out, h.attitude_p);
    out.append(" (+/-10) yaw=");
    push_setting(&mut out, h.attitude_y);
    out.append(" (+/-12) deg");
    out
}

/// The exposure time, or that it is automatic.
pub open spec fn shutter_text(us: u32) -> Seq<char> {
    if us == 0 {
        "auto"@
    } else {
        text::decimal(us as nat) + "us"@
    }
}

pub fn push_shutter(out: &mut String, us: u32)
    ensures
        final(out)@ == old(out)@ + shutter_text(us),
{
    if us == 0 {
        out.append("auto");
    } else {
        push_decimal(out, us as u64);
        out.append("us");
        proof {
            assert(out@ =~= old(out)@ + shutter_text(us));
        }
    }
}

/// The held camera controls.
pub open spec fn camera_text(c: CameraControlState) -> Seq<char> {
    "camera brightness="@ + setting_text(c.brightness) + " contrast="@ + setting_text(c.contrast)
        + " ev="@ + setting_text(c.ev) + " shutter="@ + shutter_text(c.shutter_us)
}

fn camera_line(c: CameraControlState) -> (out: String)
    ensures
        out@ == camera_text(c),
{
    let mut out = String::from_str("camera brightness=");
    push_setting(&mut out, c.brightness);
    out.append(" contrast=");
    push_setting(&mut out, c.contrast);
    out.append(" ev=");
    push_setting(&mut out, c.ev);
    out.append(" shutter=");
    push_shutter(&mut out, c.shutter_us);
    out
}

/// When an action was last sent.
pub open spec fn sent_text(slot: ActionSlot, now: Instant) -> Seq<char> {
    match (slot.last_tick, slot.last_sent_at) {
        (Some(tick), Some(at)) => "tick "@ + text::decimal(tick as nat) + ", "@ + age_text(
            time::elapsed(at, now),
        ) + "s ago"@,
        _ => "-- (never sent)"@,
    }
}

fn sent_line(slot: ActionSlot, now: Instant) -> (out: String)
    ensures
        out@ == sent_text(slot, now),
{
    match (slot.last_tick, slot.last_sent_at) {
        (Some(tick), Some(at)) => {
            let mut out = String::from_str("tick ");
            push_decimal(&mut out, tick);
            out.append(", ");
            push_age(&mut out, now.saturating_duration_since(at));
            out.append("s ago");
            out
        },
        _ => String::from_str("-- (never sent)"),
    }
}

/// What the command panel shows.
#[derive(Debug)]
pub struct CommandPanel {
    pub velocity: String,
    pub arm: String,
    pub attitude: String,
    pub camera: String,
    pub stand_sent: String,
    pub sit_sent: String,
}

pub fn command_panel(hud: &HudState, now: Instant) -> (p: CommandPanel)
    ensures
        p.velocity@ == velocity_text(hud.held),
        p.arm@ == arm_text(hud.held),
        p.attitude@ == held_attitude_text(hud.held),
        p.camera@ == camera_text(hud.camera),
        p.stand_sent@ == sent_text(hud.stand, now),
        p.sit_sent@ == sent_text(hud.sit, now),
{
    CommandPanel {
        velocity: velocity_line(hud.held),
        arm: arm_line(hud.held),
        attitude: held_attitude_line(hud.held),
        camera: camera_line(hud.camera),
        stand_sent: sent_line(hud.stand, now),
        sit_sent: sent_line(hud.sit, now),
    }
}

/// Bytes per second, in the largest unit of which there is at least one.
pub open spec fn rate_text(bytes: u64) -> Seq<char> {
    if bytes >= 1_048_576 {
        text::tenths_text(text::rounded(10 * bytes, 1_048_576) as nat) + " MB/s"@
    } else if bytes >= 1024 {
        text::tenths_text(text::rounded(10 * bytes, 1024) as nat) + " KB/s"@
    } else {
        text::decimal(bytes as nat) + " B/s"@
    }
}

pub fn fmt_rate(bytes: u64) -> (out: String)
    ensures
        out@ == rate_text(bytes),
{
    let mut out = String::new();
    if bytes >= 1_048_576 {
        push_rounded_tenths(&mut out, bytes, 1_048_576);
        out.append(" MB/s");
    } else if bytes >= 1024 {
        push_rounded_tenths(&mut out, bytes, 1024);
        out.append(" KB/s");
    } else {
        push_decimal(&mut out, bytes);
        out.append(" B/s");
    }
    proof {
        assert(out@ =~= rate_text(bytes));
    }
    out
}

/// A whole number of events per second, with one place behind the point.
pub open spec fn hz_text(events: u64) -> Seq<char> {
    text::decimal(events as nat) + ".0"@
}

fn hz(events: u64) -> (out: String)
    ensures
        out@ == hz_text(events),
{
    let mut out = String::new();
    push_decimal(&mut out, events);
    out.append(".0");
    proof {
        assert(out@ =~= hz_text(events));
    }
    out
}

/// One row of the channel table.
#[derive(Debug)]
pub struct ChannelRow {
    pub name: String,
    pub hz: String,
    pub rate: String,
    pub seq: String,
    pub note: String,
}

pub struct RowView {
    pub name: Seq<char>,
    pub hz: Seq<char>,
    pub rate: Seq<char>,
    pub seq: Seq<char>,
    pub note: Seq<char>,
}

impl View for ChannelRow {
    type V = RowView;

    open spec fn view(&self) -> RowView {
        RowView {
            name: self.name@,
            hz: self.hz@,
            rate: self.rate@,
            seq: self.seq@,
            note: self.note@,
        }
    }
}

/// Events within the window of a counter.
pub open spec fn events_of(c: RateCounter, now: Instant) -> u64 {
    shown(counted(c@.samples, c@.window, now))
}

/// Bytes within the window of a counter.
pub open spec fn bytes_of(c: RateCounter, now: Instant) -> u64 {
    shown(summed(c@.samples, c@.window, now))
}

pub open spec fn video_row(hud: HudState, now: Instant) -> RowView {
    RowView {
        name: "A (video)"@,
        hz: hz_text(events_of(hud.video_dgram_rate, now)),
        rate: rate_text(bytes_of(hud.video_dgram_rate, now)),
        seq: "--"@,
        note: match hud.camera_shape {
            Some(shape) => shape@ + ", "@ + hz_text(events_of(hud.video_frame_rate, now))
                + " fps live"@,
            None => hz_text(events_of(hud.video_frame_rate, now)) + " fps"@,
        },
    }
}

pub open spec fn command_row(hud: HudState, now: Instant) -> RowView {
    RowView {
        name: "B (command)"@,
        hz: hz_text(events_of(hud.command_rate, now)),
        rate: rate_text(bytes_of(hud.command_rate, now)),
        seq: text::decimal(hud.command_last_seq as nat),
        note: "target "@ + text::decimal(hud.tick_hz as nat) + "Hz"@,
    }
}

pub open spec fn telemetry_row(hud: HudState, now: Instant) -> RowView {
    RowView {
        name: "B (telemetry)"@,
        hz: hz_text(events_of(hud.telemetry_rate, now)),
        rate: rate_text(bytes_of(hud.telemetry_rate, now)),
        seq: match hud.telemetry_last_seq {
            Some(s) => text::decimal(s as nat),
            None => "--"@,
        },
        note: match hud.last_telemetry_at {
            Some(t) => "age "@ + age_text(time::elapsed(t, now)) + "s"@,
            None => "no data yet"@,
        },
    }
}

fn number(n: u64) -> (out: String)
    ensures
        out@ == text::decimal(n as nat),
{
    let mut out = String::new();
    push_decimal(&mut out, n);
    proof {
        assert(out@ =~= text::decimal(n as nat));
    }
    out
}

fn video_cells(hud: &HudState, now: Instant) -> (r: ChannelRow)
    ensures
        r@ == video_row(*hud, now),
{
    let (dgrams, bytes) = hud.video_dgram_rate.totals(now);
    let (frames, _) = hud.video_frame_rate.totals(now);
    let note: String = match &hud.camera_shape {
        Some(shape) => {
            let mut out = String::from_str(shape.as_str());
            out.append(", ");
            out.append(hz(frames).as_str());
            out.append(" fps live");
            out
        },
        None => {
            let mut out = hz(frames);
            out.append(" fps");
            out
        },
    };
    ChannelRow {
        name: String::from_str("A (video)"),
        hz: hz(dgrams),
        rate: fmt_rate(bytes),
        seq: String::from_str("--"),
        note,
    }
}

fn command_cells(hud: &HudState, now: Instant) -> (r: ChannelRow)
    ensures
        r@ == command_row(*hud, now),
{
    let (frames, bytes) = hud.command_rate.totals(now);
    let mut note = String::from_str("target ");
    push_decimal(&mut note, hud.tick_hz as u64);
    note.append("Hz");
    ChannelRow {
        name: String::from_str("B (command)"),
        hz: hz(frames),
        rate: fmt_rate(bytes),
        seq: number(hud.command_last_seq),
        note,
    }
}

fn telemetry_cells(hud: &HudState, now: Instant) -> (r: ChannelRow)
    ensures
        r@ == telemetry_row(*hud, now),
{
    let (frames, bytes) = hud.telemetry_rate.totals(now);
    let seq: String = match hud.telemetry_last_seq {
        Some(s) => number(s),
        None => String::from_str("--"),
    };
    let note: String = match hud.last_telemetry_at {
        Some(t) => {
            let mut out = String::from_str("age ");
            push_age(&mut out, now.saturating_duration_since(t));
            out.append("s");
            out
        },
        None => String::from_str("no data yet"),
    };
    ChannelRow {
        name: String::from_str("B (telemetry)"),
        hz: hz(frames),
        rate: fmt_rate(bytes),
        seq,
        note,
    }
}

/// The rows of the channel table: video, commands, telemetry.
pub fn channel_rows(hud: &HudState, now: Instant) -> (r: (ChannelRow, ChannelRow, ChannelRow))
    ensures
        r.0@ == video_row(*hud, now),
        r.1@ == command_row(*hud, now),
        r.2@ == telemetry_row(*hud, now),
{
    (video_cells(hud, now), command_cells(hud, now), telemetry_cells(hud, now))
}

pub open spec fn recording_text(hud: HudState, now: Instant) -> SpanView {
    if hud.recording_active {
        let secs = match hud.recording_started_at {
            Some(t) => time::elapsed(t, now) / 1_000_000_000,
            None => 0nat,
        };
        let running = "\u{25cf} REC "@ + text::decimal(secs) + "s"@;
        SpanView {
            text: if hud.recording_dropped > 0 {
                running + " ("@ + text::decimal(hud.recording_dropped as nat) + " dropped)"@
            } else {
                running
            },
            tone: Tone::Bad,
        }
    } else {
        SpanView { text: "rec: off ('r' to start)"@, tone: Tone::Dim }
    }
}

/// Whether a recording runs, for how long, and how many records it had to drop.
pub fn recording_span(hud: &HudState, now: Instant) -> (s: Span)
    ensures
        s@ == recording_text(*hud, now),
{
    if hud.recording_active {
        let secs: u64 = match hud.recording_started_at {
            Some(t) => now.saturating_duration_since(t).nanos / 1_000_000_000,
            None => 0,
        };
        let mut out = String::from_str("\u{25cf} REC ");
        push_decimal(&mut out, secs);
        out.append("s");
        if hud.recording_dropped > 0 {
            out.append(" (");
            push_decimal(&mut out, hud.recording_dropped);
            out.append(" dropped)");
        }
        Span { text: out, tone: Tone::Bad }
    } else {
        Span { text: String::from_str("rec: off ('r' to start)"), tone: Tone::Dim }
    }
}

pub open spec fn robot_text(robot_id: Option<Seq<char>>, dof: Option<u16>) -> Seq<char> {
    match (robot_id, dof) {
        (Some(id), Some(n)) => "robot="@ + id + " dof="@ + text::decimal(n as nat),
        _ => "robot=(pending SESSION_DESCRIBE)"@,
    }
}

pub open spec fn id_view(robot_id: Option<String>) -> Option<Seq<char>> {
    match robot_id {
        Some(id) => Some(id@),
        None => None,
    }
}

/// The second line of the header.
pub open spec fn header_text(hud: HudState, now: Instant) -> Seq<char> {
    robot_text(id_view(hud.robot_id), hud.dof_count) + "  peer="@ + hud.peer@ + " tick="@
        + text::decimal(hud.tick_hz as nat) + "Hz  session="@ + text::decimal(
        time::elapsed(hud.session_start, now) / 1_000_000_000,
    ) + "s"@
}

pub fn header_line(hud: &HudState, now: Instant) -> (out: String)
    ensures
        out@ == header_text(*hud, now),
{
    let mut out: String = match (&hud.robot_id, hud.dof_count) {
        (Some(id), Some(n)) => {
            let mut s = String::from_str("robot=");
            s.append(id.as_str());
            s.append(" dof=");
            push_decimal(&mut s, n as u64);
            s
        },
        _ => String::from_str("robot=(pending SESSION_DESCRIBE)"),
    };
    out.append("  peer=");
    out.append(hud.peer.as_str());
    out.append(" tick=");
    push_decimal(&mut out, hud.tick_hz as u64);
    out.append("Hz  session=");
    push_decimal(&mut out, now.saturating_duration_since(hud.session_start).nanos / 1_000_000_000);
    out.append("s");
    out
}

pub open spec fn banner_text(estopped: bool) -> SpanView {
    if estopped {
        SpanView { text: "E-STOPPED -- press 'c' to clear"@, tone: Tone::Alarm }
    } else {
        SpanView { text: "armed -- press 'e' to E-STOP"@, tone: Tone::Good }
    }
}

pub fn estop_banner(hud: &HudState) -> (s: Span)
    ensures
        s@ == banner_text(hud.estopped),
{
    if hud.estopped {
        Span { text: String::from_str("E-STOPPED -- press 'c' to clear"), tone: Tone::Alarm }
    } else {
        Span { text: String::from_str("armed -- press 'e' to E-STOP"), tone: Tone::Good }
    }
}

/// What is shown in place of everything else once the connection is lost.
#[derive(Debug)]
pub struct DisconnectedScreen {
    pub lost: String,
    pub last_known: String,
    pub attempt: String,
}

pub open spec fn lost_text(hud: HudState, now: Instant) -> Seq<char> {
    let nanos = match hud.disconnected_at {
        Some(t) => time::elapsed(t, now),
        None => 0nat,
    };
    "Lost contact with "@ + (match id_view(hud.robot_id) {
        Some(id) => id,
        None => "(unknown)"@,
    }) + " "@ + text::decimal(text::rounded(nanos as int, 1_000_000_000) as nat)
        + "s ago -- robot state is no longer known."@
}

pub open spec fn last_known_text(hud: HudState) -> Seq<char> {
    "Last known: battery "@ + (match hud.battery {
        Some(b) => text::decimal(b as nat) + "%"@,
        None => "unknown"@,
    }) + ", estop "@ + (if hud.estopped {
        "LATCHED"@
    } else {
        "clear"@
    })
}

pub open spec fn attempt_text(hud: HudState) -> Seq<char> {
    "Reconnecting... (attempt "@ + text::decimal(hud.reconnect_attempts as nat) + ")"@
}

pub fn disconnected_screen(hud: &HudState, now: Instant) -> (d: DisconnectedScreen)
    ensures
        d.lost@ == lost_text(*hud, now),
        d.last_known@ == last_known_text(*hud),
        d.attempt@ == attempt_text(*hud),
{
    let nanos: u64 = match hud.disconnected_at {
        Some(t) => now.saturating_duration_since(t).nanos,
        None => 0,
    };
    let mut lost = String::from_str("Lost contact with ");
    match &hud.robot_id {
        Some(id) => lost.append(id.as_str()),
        None => lost.append("(unknown)"),
    }
    lost.append(" ");
    push_rounded(&mut lost, nanos, 1_000_000_000);
    lost.append("s ago -- robot state is no longer known.");
    let mut last_known = String::from_str("Last known: battery ");
    match hud.battery {
        Some(b) => {
            let mut s = number(b as u64);
            s.append("%");
            last_known.append(s.as_str());
        },
        None => last_known.append("unknown"),
    }
    last_known.append(", estop ");
    if hud.estopped {
        last_known.append("LATCHED");
    } else {
        last_known.append("clear");
    }
    let mut attempt = String::from_str("Reconnecting... (attempt ");
    push_decimal(&mut attempt, hud.reconnect_attempts as u64);
    attempt.append(")");
    DisconnectedScreen { lost, last_known, attempt }
}

/// The one line that is shown where there is no terminal.
pub open spec fn status_text(hud: HudState) -> Seq<char> {
    "\rphase="@ + phase_label(hud.phase) + " rtt="@ + (match hud.rtt_us {
        Some(us) => ms_text(us),
        None => "--"@,
    }) + "ms estop="@ + (if hud.estopped {
        "true"@
    } else {
        "false"@
    }) + " battery="@ + (match hud.battery {
        Some(b) => text::decimal(b as nat),
        None => "--"@,
    }) + "% rpy="@ + attitude_text(hud.attitude, "/"@) + "    "@
}

pub fn status_line(hud: &HudState) -> (out: String)
    ensures
        out@ == status_text(*hud),
{
    let mut out = String::from_str("\rphase=");
    out.append(hud.phase.label());
    out.append(" rtt=");
    match hud.rtt_us {
        Some(us) => push_ms(&mut out, us),
        None => out.append("--"),
    }
    out.append("ms estop=");
    if hud.estopped {
        out.append("true");
    } else {
        out.append("false");
    }
    out.append(" battery=");
    match hud.battery {
        Some(b) => push_decimal(&mut out, b as u64),
        None => out.append("--"),
    }
    out.append("% rpy=");
    out.append(attitude_string(hud.attitude, "/").as_str());
    out.append("    ");
    out
}

/// When the display warns: of a charge below a half, and badly below a fifth; of
/// a round trip from fifty milliseconds on, and badly from a hundred and fifty;
/// of telemetry that is three tenths of a second old, and badly of a whole one.
pub proof fn lemma_warnings(pct: u8, us: u64, nanos: nat)
    ensures
        battery_seen(pct) == Tone::Good <==> pct >= 50,
        battery_seen(pct) == Tone::Warning <==> 20 <= pct < 50,
        battery_seen(pct) == Tone::Bad <==> pct < 20,
        rtt_seen(us) == Tone::Good <==> us < 50_000,
        rtt_seen(us) == Tone::Warning <==> 50_000 <= us < 150_000,
        rtt_seen(us) == Tone::Bad <==> us >= 150_000,
        age_seen(nanos) == Tone::Good <==> nanos < 300_000_000,
        age_seen(nanos) == Tone::Warning <==> 300_000_000 <= nanos < 1_000_000_000,
        age_seen(nanos) == Tone::Bad <==> nanos >= 1_000_000_000,
{
}

/// What counts for a rate: each event that is no older than the window, by itself
/// and by its bytes.
pub proof fn lemma_what_counts(
    samples: Seq<(Instant, usize)>,
    window: Duration,
    now: Instant,
    at: Instant,
    bytes: usize,
)
    requires
        at.nanos <= now.nanos,
    ensures
        counted(Seq::empty(), window, now) == 0,
        summed(Seq::empty(), window, now) == 0,
        now.nanos - at.nanos <= window.nanos ==> counted(samples.push((at, bytes)), window, now)
            == counted(samples, window, now) + 1 && summed(samples.push((at, bytes)), window, now)
            == summed(samples, window, now) + bytes,
        now.nanos - at.nanos > window.nanos ==> counted(samples.push((at, bytes)), window, now)
            == counted(samples, window, now) && summed(samples.push((at, bytes)), window, now)
            == summed(samples, window, now),
{
    assert(samples.push((at, bytes)).drop_last() =~= samples);
}

/// What is not known is not made up: without telemetry the display says so.
pub proof fn lemma_unknown_is_said(now: Instant, between: Seq<char>)
    ensures
        battery_text(None).text == "no data"@,
        rtt_text(None).text == "--"@,
        last_seen_text(None, now).text == "no data yet"@,
        attitude_text(None, between) == "--/--/--"@,
        shutter_text(0) == "auto"@,
{
}

/// What is known is displayed: the charge, roll before pitch before yaw, and of
/// each leg its three joints, lower before middle before upper.
pub proof fn lemma_known_is_displayed(
    a: Attitude,
    b: u8,
    us: u32,
    motors: Seq<i16>,
    between: Seq<char>,
)
    requires
        us > 0,
    ensures
        battery_text(Some(b)).text == text::decimal(b as nat) + "%"@,
        attitude_text(Some(a), between) == text::float_text(a.roll as int, 100, 24) + between
            + text::float_text(a.pitch as int, 100, 24) + between + text::float_text(
            a.yaw as int,
            100,
            24,
        ),
        shutter_text(us) == text::decimal(us as nat) + "us"@,
        leg_of(motors, 0) == leg_text(motors[0], motors[1], motors[2]),
        leg_of(motors, 1) == leg_text(motors[3], motors[4], motors[5]),
        leg_of(motors, 2) == leg_text(motors[6], motors[7], motors[8]),
        leg_of(motors, 3) == leg_text(motors[9], motors[10], motors[11]),
        leg_name(0) == "FL"@ && leg_name(1) == "FR"@ && leg_name(2) == "RR"@ && leg_name(3)
            == "RL"@,
{
}

/// What is displayed before anything has come: nothing is known, nothing is held,
/// and nothing has been sent.
pub proof fn lemma_fresh_display(hud: HudState, peer: Seq<char>, tick_hz: u32, now: Instant)
    requires
        hud.is_fresh(peer, tick_hz, now),
    ensures
        hud.phase == ConnPhase::AwaitingHello,
        hud.peer@ == peer && hud.tick_hz == tick_hz && hud.session_start == now,
        hud.robot_id is None && hud.battery is None && hud.attitude is None && hud.rtt_us is None,
        hud.motors@.len() == 0 && hud.last_telemetry_at is None,
        hud.held.vx == 0 && hud.held.vy == 0 && hud.held.turn == 0,
        !hud.estopped && !hud.recording_active && !hud.gamepad_connected,
        hud.stand.key == '1' && hud.stand.id == 2 && hud.stand.last_tick is None,
        hud.sit.key == '2' && hud.sit.id == 12 && hud.sit.last_tick is None,
{
}

/// The unit of a rate grows with it, and the number before the unit is the rate
/// in that unit, to the nearest tenth.
pub proof fn lemma_rates(bytes: u64)
    ensures
        bytes < 1024 ==> rate_text(bytes) == text::decimal(bytes as nat) + " B/s"@,
        1024 <= bytes < 1_048_576 ==> rate_text(bytes) == text::tenths_text(
            text::rounded(10 * bytes, 1024) as nat,
        ) + " KB/s"@,
        1_048_576 <= bytes ==> rate_text(bytes) == text::tenths_text(
            text::rounded(10 * bytes, 1_048_576) as nat,
        ) + " MB/s"@,
{
}

/// What is said of a stop, of a lost robot and of each phase.
pub proof fn lemma_what_is_said(hud: HudState)
    ensures
        banner_text(true).tone == Tone::Alarm && banner_text(false).tone == Tone::Good,
        banner_text(true).text == "E-STOPPED -- press 'c' to clear"@,
        banner_text(false).text == "armed -- press 'e' to E-STOP"@,
        phase_label(ConnPhase::AwaitingHello) == "awaiting HELLO"@,
        phase_label(ConnPhase::AwaitingSessionDescribe) == "awaiting SESSION_DESCRIBE"@,
        phase_label(ConnPhase::Operating) == "operating"@,
        phase_label(ConnPhase::Closed) == "closed"@,
        attempt_text(hud) == "Reconnecting... (attempt "@ + text::decimal(
            hud.reconnect_attempts as nat,
        ) + ")"@,
        hud.battery is None && hud.estopped ==> last_known_text(hud) == "Last known: battery "@
            + "unknown"@ + ", estop "@ + "LATCHED"@,
        hud.battery is None && !hud.estopped ==> last_known_text(hud) == "Last known: battery "@
            + "unknown"@ + ", estop "@ + "clear"@,
{
}

/// A recording is displayed in red with its whole seconds, and with what it lost;
/// none is displayed dimly.
pub proof fn lemma_recording_is_displayed(hud: HudState, now: Instant)
    ensures
        !hud.recording_active ==> recording_text(hud, now).tone == Tone::Dim,
        hud.recording_active ==> recording_text(hud, now).tone == Tone::Bad,
        hud.recording_active && hud.recording_dropped == 0 && hud.recording_started_at is None
            ==> recording_text(hud, now).text == "\u{25cf} REC "@ + text::decimal(0) + "s"@,
        hud.recording_active && hud.recording_dropped == 0 && hud.recording_started_at is Some
            && hud.recording_started_at->0.nanos <= now.nanos ==> recording_text(hud, now).text
            == "\u{25cf} REC "@ + text::decimal(
            ((now.nanos - hud.recording_started_at->0.nanos) / 1_000_000_000) as nat,
        ) + "s"@,
{
}

/// Each held value is displayed after its own name.
pub proof fn lemma_held_is_displayed(h: HeldCommand, c: CameraControlState)
    ensures
        velocity_text(h) == "vx="@ + setting_text(h.vx) + " vy="@ + setting_text(h.vy) + " turn="@
            + setting_text(h.turn),
        arm_text(h) == "arm x="@ + text::signed_decimal(h.arm_x as int) + " z="@
            + text::signed_decimal(h.arm_z as int) + " claw="@ + text::decimal(h.claw as nat),
        held_attitude_text(h) == "attitude roll="@ + setting_text(h.attitude_r)
            + " (+/-20) pitch="@ + setting_text(h.attitude_p) + " (+/-10) yaw="@ + setting_text(
            h.attitude_y,
        ) + " (+/-12) deg"@,
        camera_text(c) == "camera brightness="@ + setting_text(c.brightness) + " contrast="@
            + setting_text(c.contrast) + " ev="@ + setting_text(c.ev) + " shutter="@ + shutter_text(
            c.shutter_us,
        ),
{
}

/// An action that was sent is displayed with the tick and the time of its sending,
/// and stays the action that it is.
pub proof fn lemma_sent_action(slot: ActionSlot, tick: u64, now: Instant)
    ensures
        sent_slot(slot, tick, now).last_tick == Some(tick),
        sent_slot(slot, tick, now).last_sent_at == Some(now),
        sent_slot(slot, tick, now).key == slot.key,
        sent_slot(slot, tick, now).id == slot.id,
        slot.last_tick is None ==> sent_text(slot, now) == "-- (never sent)"@,
{
}

} // verus!
