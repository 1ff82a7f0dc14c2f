//! The sidecar on the robot's message bus: what is published there and how
//! often, and how long a goal received from there counts. Nothing here can hold
//! up or override the operator: telemetry that waits gives way to what is fresher,
//! a command that cannot be taken at once is dropped, and a goal that is not
//! repeated lapses.

use vstd::prelude::*;
use crate::channel_b::{TelemetryData, TeleopCommand};
use crate::fixed;
use crate::fixed::f32_bits;
use crate::recording;
use crate::recording::control_source_byte;
use crate::safety::ControlSource;
use crate::time;
use crate::time::{Duration, Instant};
use crate::wire;
use crate::wire::{push_be, push_be_i16, same_bytes};

verus! {

/// How long an autonomy goal counts without being repeated.
pub const AUTONOMY_GOAL_TTL_MS: u64 = 500;

/// How often an unchanged command is published again, for those who listen
/// only now.
pub const COMMAND_REPEAT_MS: u64 = 250;

/// A topic of the robot.
pub open spec fn topic(robot_id: Seq<char>, leaf: Seq<char>) -> Seq<char> {
    "robotele/"@ + robot_id + leaf
}

fn topic_of(robot_id: &str, leaf: &str) -> (t: String)
    ensures
        t@ == topic(robot_id@, leaf@),
{
    let mut t = String::from_str("robotele/");
    t.append(robot_id);
    t.append(leaf);
    t
}

pub fn telemetry_topic(robot_id: &str) -> (t: String)
    ensures
        t@ == topic(robot_id@, "/telemetry"@),
{
    topic_of(robot_id, "/telemetry")
}

pub fn command_topic(robot_id: &str) -> (t: String)
    ensures
        t@ == topic(robot_id@, "/command"@),
{
    topic_of(robot_id, "/command")
}

pub fn autonomy_goal_topic(robot_id: &str) -> (t: String)
    ensures
        t@ == topic(robot_id@, "/autonomy_goal"@),
{
    topic_of(robot_id, "/autonomy_goal")
}

/// When a goal was last received.
#[derive(Debug, Clone, Copy, PartialEq, Eq, Structural)]
pub struct AutonomyGoal {
    pub last_seen: Option<Instant>,
}

impl AutonomyGoal {
    /// Does a goal count at `now`?
    pub open spec fn counts(self, now: Instant) -> bool {
        self.last_seen matches Some(at) && time::elapsed(at, now) < AUTONOMY_GOAL_TTL_MS
            * time::NANOS_PER_MILLI
    }

    pub fn new() -> (g: Self)
        ensures
            g.last_seen is None,
    {
        AutonomyGoal { last_seen: None }
    }

    pub fn mark_seen(&mut self, now: Instant)
        ensures
            final(self).last_seen == Some(now),
    {
        self.last_seen = Some(now);
    }

    /// Was a goal received within its time to live?
    pub fn asserted(&self, now: Instant) -> (b: bool)
        ensures
            b == self.counts(now),
    {
        match self.last_seen {
            Some(at) => now.saturating_duration_since(at).nanos < Duration::from_millis(
                AUTONOMY_GOAL_TTL_MS,
            ).nanos,
            None => false,
        }
    }
}

/// A goal never latches: it lapses when its time is up, and nothing but a new
/// message brings it back.
pub proof fn lemma_goal_lapses(g: AutonomyGoal, now: Instant, later: Instant)
    requires
        now.nanos <= later.nanos,
    ensures
        !g.counts(now) ==> !g.counts(later),
        later.nanos >= now.nanos + AUTONOMY_GOAL_TTL_MS * time::NANOS_PER_MILLI ==> !(AutonomyGoal {
            last_seen: Some(now),
        }).counts(later),
        (AutonomyGoal { last_seen: Some(now) }).counts(now),
        !(AutonomyGoal { last_seen: None }).counts(now),
{
}

/// The telemetry stream: the one sample that waits to be published. Nothing
/// piles up behind a slow publisher, and what it takes next is the latest.
#[derive(Debug)]
pub struct TelemetrySink {
    pub waiting: Option<TelemetryData>,
}

impl TelemetrySink {
    pub fn new() -> (s: Self)
        ensures
            s.waiting is None,
    {
        TelemetrySink { waiting: None }
    }

    /// A fresh sample waits from now on. The one that waited before and was not
    /// taken yet is handed back: it is stale.
    pub fn publish(&mut self, data: TelemetryData) -> (stale: Option<TelemetryData>)
        ensures
            final(self).waiting == Some(data),
            stale == old(self).waiting,
    {
        let stale = self.waiting.take();
        self.waiting = Some(data);
        stale
    }

    /// The publisher takes the sample that waits, if there is one.
    pub fn take(&mut self) -> (data: Option<TelemetryData>)
        ensures
            data == old(self).waiting,
            final(self).waiting is None,
    {
        self.waiting.take()
    }
}

/// What waits once samples were published in this order and none of them was
/// taken.
pub open spec fn waiting_after(
    waiting: Option<TelemetryData>,
    published: Seq<TelemetryData>,
) -> Option<TelemetryData>
    decreases published.len(),
{
    if published.len() == 0 {
        waiting
    } else {
        waiting_after(Some(published.first()), published.drop_first())
    }
}

/// Only the latest sample is ever queued, however many were published.
pub proof fn lemma_latest_waits(waiting: Option<TelemetryData>, published: Seq<TelemetryData>)
    ensures
        published.len() > 0 ==> waiting_after(waiting, published) == Some(published.last()),
        published.len() == 0 ==> waiting_after(waiting, published) == waiting,
    decreases published.len(),
{
    if published.len() > 0 {
        lemma_latest_waits(Some(published.first()), published.drop_first());
        if published.len() > 1 {
            assert(published.drop_first().last() == published.last());
        }
    }
}

/// A number of hundredths as a single-precision number, most significant byte
/// first.
pub open spec fn hundredths_bytes(v: i32) -> Seq<u8> {
    wire::be_digits(fixed::f32_pattern(v * 10_000), 4)
}

/// A command sample: who is in control, the six velocity and attitude fields,
/// the arm position and the gripper.
pub open spec fn command_bytes(source: ControlSource, cmd: TeleopCommand) -> Seq<u8> {
    seq![recording::source_byte(source)] + hundredths_bytes(cmd.vx) + hundredths_bytes(cmd.vy)
        + hundredths_bytes(cmd.turn) + hundredths_bytes(cmd.attitude_r) + hundredths_bytes(
        cmd.attitude_p,
    ) + hundredths_bytes(cmd.attitude_y) + wire::be_digits(
        wire::bits_of_i16(cmd.arm_x as int),
        2,
    ) + wire::be_digits(wire::bits_of_i16(cmd.arm_z as int), 2) + seq![cmd.claw]
}

fn push_hundredths(out: &mut Vec<u8>, v: i32)
    ensures
        final(out)@ == old(out)@ + hundredths_bytes(v),
{
    push_be(out, f32_bits(v as i64 * 10_000) as u64, 4);
}

/// The sample that says what the operator asks for and who was found to be in
/// control; not necessarily what reached the motors.
pub fn encode_command(source: ControlSource, cmd: &TeleopCommand) -> (out: Vec<u8>)
    ensures
        out@ == command_bytes(source, *cmd),
        out@.len() == 30,
{
    let mut out: Vec<u8> = Vec::new();
    out.push(control_source_byte(source));
    proof {
        assert(out@ =~= seq![recording::source_byte(source)]);
    }
    push_hundredths(&mut out, cmd.vx);
    push_hundredths(&mut out, cmd.vy);
    push_hundredths(&mut out, cmd.turn);
    push_hundredths(&mut out, cmd.attitude_r);
    push_hundredths(&mut out, cmd.attitude_p);
    push_hundredths(&mut out, cmd.attitude_y);
    push_be_i16(&mut out, cmd.arm_x);
    push_be_i16(&mut out, cmd.arm_z);
    let ghost before = out@;
    out.push(cmd.claw);
    proof {
        assert(out@ =~= before + seq![cmd.claw]);
        lemma_command_len(source, *cmd);
    }
    out
}

proof fn lemma_command_len(source: ControlSource, cmd: TeleopCommand)
    ensures
        command_bytes(source, cmd).len() == 30,
{
    wire::lemma_be_digits_len(fixed::f32_pattern(cmd.vx * 10_000), 4);
    wire::lemma_be_digits_len(fixed::f32_pattern(cmd.vy * 10_000), 4);
    wire::lemma_be_digits_len(fixed::f32_pattern(cmd.turn * 10_000), 4);
    wire::lemma_be_digits_len(fixed::f32_pattern(cmd.attitude_r * 10_000), 4);
    wire::lemma_be_digits_len(fixed::f32_pattern(cmd.attitude_p * 10_000), 4);
    wire::lemma_be_digits_len(fixed::f32_pattern(cmd.attitude_y * 10_000), 4);
    wire::lemma_be_digits_len(wire::bits_of_i16(cmd.arm_x as int), 2);
    wire::lemma_be_digits_len(wire::bits_of_i16(cmd.arm_z as int), 2);
}

/// The command stream: the sample that was taken last, and when.
#[derive(Debug)]
pub struct CommandSink {
    pub last: Option<(Vec<u8>, Instant)>,
}

impl View for CommandSink {
    type V = Option<(Seq<u8>, Instant)>;

    open spec fn view(&self) -> Option<(Seq<u8>, Instant)> {
        match self.last {
            Some((payload, at)) => Some((payload@, at)),
            None => None,
        }
    }
}

/// Is a sample worth publishing? Not if it is the one published last and the
/// time to repeat that has not come.
pub open spec fn sample_due(
    last: Option<(Seq<u8>, Instant)>,
    payload: Seq<u8>,
    now: Instant,
) -> bool {
    match last {
        Some((sent, at)) => sent != payload || time::elapsed(at, now) >= COMMAND_REPEAT_MS
            * time::NANOS_PER_MILLI,
        None => true,
    }
}

impl CommandSink {
    pub fn new() -> (s: Self)
        ensures
            s@ is None,
    {
        CommandSink { last: None }
    }

    /// What goes out for a command at `now`; `room` says whether the publisher
    /// can take a sample at this moment. A sample that is due but finds no room
    /// is dropped and not counted as sent.
    pub fn publish(
        &mut self,
        now: Instant,
        source: ControlSource,
        cmd: &TeleopCommand,
        room: bool,
    ) -> (sample: Option<Vec<u8>>)
        ensures
            ({
                let payload = command_bytes(source, *cmd);
                if room && sample_due(old(self)@, payload, now) {
                    &&& sample matches Some(bytes)
                    &&& bytes@ == payload
                    &&& final(self)@ == Some((payload, now))
                } else {
                    &&& sample is None
                    &&& *final(self) == *old(self)
                }
            }),
    {
        let payload: Vec<u8> = encode_command(source, cmd);
        match &self.last {
            Some((sent, at)) => {
                if same_bytes(sent.as_slice(), payload.as_slice()) && now.saturating_duration_since(
                    *at,
                ).nanos < Duration::from_millis(COMMAND_REPEAT_MS).nanos {
                    return None;
                }
            },
            None => {},
        }
        if !room {
            return None;
        }
        let copy: Vec<u8> = crate::action::copied(payload.as_slice());
        self.last = Some((payload, now));
        Some(copy)
    }
}

/// The command stream is quiet while nothing changes, and never silent: after a
/// sample was taken, the same sample waits for the repeat time and no longer,
/// and any other sample goes out at once.
pub proof fn lemma_throttled(sent: Seq<u8>, other: Seq<u8>, at: Instant, now: Instant)
    ensures
        sample_due(Some((sent, at)), sent, now) <==> time::elapsed(at, now) >= COMMAND_REPEAT_MS
            * time::NANOS_PER_MILLI,
        sent != other ==> sample_due(Some((sent, at)), other, now),
{
}

/// A sample that found no room is still due the next time.
pub proof fn lemma_dropped_is_retried(
    last: Option<(Seq<u8>, Instant)>,
    payload: Seq<u8>,
    now: Instant,
    later: Instant,
)
    requires
        sample_due(last, payload, now),
        now.nanos <= later.nanos,
    ensures
        sample_due(last, payload, later),
{
}

/// What is published of a command: thirty bytes, of which the first says who is
/// in control, then four bytes for each velocity and each angle, two for each
/// part of the arm's position, and one for the claw.
pub proof fn lemma_published_command(source: ControlSource, cmd: TeleopCommand)
    ensures
        ({
            let s = command_bytes(source, cmd);
            &&& s.len() == 30
            &&& source is EStop ==> s[0] == 0
            &&& source is EmergencySafeParking ==> s[0] == 1
            &&& source is ActiveImpedanceHold ==> s[0] == 2
            &&& source is FullTeleoperation ==> s[0] == 3
            &&& source is SemiAutonomous ==> s[0] == 4
            &&& s.subrange(1, 5) == hundredths_bytes(cmd.vx)
            &&& s.subrange(5, 9) == hundredths_bytes(cmd.vy)
            &&& s.subrange(9, 13) == hundredths_bytes(cmd.turn)
            &&& s.subrange(13, 17) == hundredths_bytes(cmd.attitude_r)
            &&& s.subrange(17, 21) == hundredths_bytes(cmd.attitude_p)
            &&& s.subrange(21, 25) == hundredths_bytes(cmd.attitude_y)
            &&& wire::i16_of_bits(wire::be_value(s.subrange(25, 27))) == cmd.arm_x
            &&& wire::i16_of_bits(wire::be_value(s.subrange(27, 29))) == cmd.arm_z
            &&& s[29] == cmd.claw
        }),
{
    let s = command_bytes(source, cmd);
    lemma_command_len(source, cmd);
    wire::lemma_be_digits_len(fixed::f32_pattern(cmd.vx * 10_000), 4);
    wire::lemma_be_digits_len(fixed::f32_pattern(cmd.vy * 10_000), 4);
    wire::lemma_be_digits_len(fixed::f32_pattern(cmd.turn * 10_000), 4);
    wire::lemma_be_digits_len(fixed::f32_pattern(cmd.attitude_r * 10_000), 4);
    wire::lemma_be_digits_len(fixed::f32_pattern(cmd.attitude_p * 10_000), 4);
    wire::lemma_be_digits_len(fixed::f32_pattern(cmd.attitude_y * 10_000), 4);
    wire::lemma_i16_round_trip(cmd.arm_x);
    wire::lemma_i16_round_trip(cmd.arm_z);
    assert(s.subrange(1, 5) =~= hundredths_bytes(cmd.vx));
    assert(s.subrange(5, 9) =~= hundredths_bytes(cmd.vy));
    assert(s.subrange(9, 13) =~= hundredths_bytes(cmd.turn));
    assert(s.subrange(13, 17) =~= hundredths_bytes(cmd.attitude_r));
    assert(s.subrange(17, 21) =~= hundredths_bytes(cmd.attitude_p));
    assert(s.subrange(21, 25) =~= hundredths_bytes(cmd.attitude_y));
    assert(s.subrange(25, 27) =~= wire::be_digits(wire::bits_of_i16(cmd.arm_x as int), 2));
    assert(s.subrange(27, 29) =~= wire::be_digits(wire::bits_of_i16(cmd.arm_z as int), 2));
}

/// A goal counts for half a second after it was received, and no longer; an
/// unchanged command is published again every quarter of a second.
pub proof fn lemma_times(at: Instant, now: Instant, sent: Seq<u8>)
    requires
        at.nanos <= now.nanos,
    ensures
        (AutonomyGoal { last_seen: Some(at) }).counts(now) <==> now.nanos - at.nanos < 500_000_000,
        !(AutonomyGoal { last_seen: None }).counts(now),
        sample_due(Some((sent, at)), sent, now) <==> now.nanos - at.nanos >= 250_000_000,
        sample_due(None, sent, now),
{
}

} // verus!
