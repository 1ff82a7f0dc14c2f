//! A monitor that only watches: it takes a session as far as operating it, hands
//! on video and telemetry, and never commands anything.

use vstd::prelude::*;
use crate::action::CloseReason;
use crate::channel_a;
use crate::channel_a::ChannelAReceiver;
use crate::channel_b;
use crate::channel_b::{decode_channel_b_frame, ChannelBCategory, ChannelBFrameData, TelemetryData};
use crate::client;
use crate::client::camera_shape;
use crate::datagram;
use crate::datagram::{DATAGRAM_TAG_CHANNEL_A, DATAGRAM_TAG_CHANNEL_B};
use crate::estop::{EstopDatagram, ESTOP_DATAGRAM_MAGIC, ESTOP_STREAM_ID};
use crate::hello;
use crate::hello::{local_hello_capabilities, negotiate};
use crate::hello_handler;
use crate::hello_handler::{decode_hello, encode_hello};
use crate::picture::{CodecFailure, Picture, UnitDecoder};
use crate::safety::TaskClass;
use crate::session_handler;
use crate::session_handler::{
    decode_session_describe, encode_session_accept_full, SessionDescribeInfo,
};
use crate::time;
use crate::time::{Duration, Instant};

verus! {

/// How long to wait before the next attempt to connect.
pub const RECONNECT_BACKOFF_MS: u64 = 2000;

/// How far the session has come.
#[derive(Debug, Clone, Copy, PartialEq, Eq, Structural)]
pub enum Phase {
    AwaitingHello,
    AwaitingSessionDescribe,
    Operating,
}

/// How far the monitor has come, as it tells its viewers.
#[derive(Debug, Clone, Copy, PartialEq, Eq, Structural)]
pub enum Stage {
    Connecting,
    InSession(Phase),
    Disconnected,
}

pub open spec fn stage_name(stage: Stage) -> Seq<char> {
    match stage {
        Stage::Connecting => "connecting"@,
        Stage::InSession(Phase::AwaitingHello) => "awaiting_hello"@,
        Stage::InSession(Phase::AwaitingSessionDescribe) => "awaiting_session_describe"@,
        Stage::InSession(Phase::Operating) => "operating"@,
        Stage::Disconnected => "disconnected"@,
    }
}

impl Stage {
    pub fn name(self) -> (s: &'static str)
        ensures
            s@ == stage_name(self),
    {
        match self {
            Stage::Connecting => "connecting",
            Stage::InSession(Phase::AwaitingHello) => "awaiting_hello",
            Stage::InSession(Phase::AwaitingSessionDescribe) => "awaiting_session_describe",
            Stage::InSession(Phase::Operating) => "operating",
            Stage::Disconnected => "disconnected",
        }
    }
}

/// What viewers are told of the session.
#[derive(Debug)]
pub struct Status {
    pub stage: Stage,
    pub robot_id: Option<String>,
    pub dof_count: Option<u16>,
    pub camera: Option<String>,
    pub estopped: bool,
}

/// A status as a mathematical value.
pub struct StatusView {
    pub stage: Stage,
    pub robot_id: Option<Seq<char>>,
    pub dof_count: Option<u16>,
    pub camera: Option<Seq<char>>,
    pub estopped: bool,
}

pub open spec fn text_of(s: Option<String>) -> Option<Seq<char>> {
    match s {
        Some(s) => Some(s@),
        None => None,
    }
}

impl View for Status {
    type V = StatusView;

    open spec fn view(&self) -> StatusView {
        StatusView {
            stage: self.stage,
            robot_id: text_of(self.robot_id),
            dof_count: self.dof_count,
            camera: text_of(self.camera),
            estopped: self.estopped,
        }
    }
}

/// What viewers are told while there is no session.
pub fn idle_status(stage: Stage) -> (s: Status)
    ensures
        s@ == (StatusView {
            stage,
            robot_id: None,
            dof_count: None,
            camera: None,
            estopped: false,
        }),
{
    Status { stage, robot_id: None, dof_count: None, camera: None, estopped: false }
}

/// What viewers are told of the robot's state. The round trip is known only
/// where the sender's clock is behind.
#[derive(Debug)]
pub struct Telemetry {
    pub data: TelemetryData,
    pub seq: u64,
    pub rtt_us: Option<u64>,
}

/// What comes of something received.
#[derive(Debug)]
pub enum Step {
    Nothing,
    Close(CloseReason),
    Tell(Status),
    /// Answer on the session stream, then tell the viewers.
    Accept { bytes: Vec<u8>, status: Status },
    Telemetry(Telemetry),
    /// A whole video unit. Every one of them is decoded, in the order of
    /// arrival.
    Video(Vec<u8>),
}

/// The monitor's side of one session.
pub struct Client {
    pub phase: Phase,
    pub video_rx: ChannelAReceiver,
    pub robot_id: Option<String>,
    pub dof_count: Option<u16>,
    pub camera: Option<String>,
    pub estopped: bool,
    pub task_class: TaskClass,
}

/// What is received in a datagram.
pub enum Received {
    Estop(EstopDatagram),
    Frame(channel_b::FrameView),
    Video(Seq<u8>),
    Nothing,
}

pub open spec fn meaning(phase: Phase, data: Seq<u8>) -> Received {
    let payload = data.subrange(1, data.len() as int);
    if data.len() == 0 {
        Received::Nothing
    } else if data[0] == ESTOP_DATAGRAM_MAGIC {
        match EstopDatagram::parse(data) {
            Some(d) => Received::Estop(d),
            None => Received::Nothing,
        }
    } else if data[0] == DATAGRAM_TAG_CHANNEL_B && phase == Phase::Operating && channel_b::frame_ok(
        payload,
    ) {
        Received::Frame(channel_b::frame_in(payload))
    } else if data[0] == DATAGRAM_TAG_CHANNEL_A {
        Received::Video(payload)
    } else {
        Received::Nothing
    }
}

/// Does `step` hand on the telemetry of this frame?
pub open spec fn tells_frame(step: Step, frame: channel_b::FrameView, now_us: u64) -> bool {
    if frame.category == ChannelBCategory::Telemetry && channel_b::telemetry_len_ok(
        frame.fields.len(),
    ) {
        &&& step matches Step::Telemetry(t)
        &&& t.data.is_in(frame.fields)
        &&& t.seq == frame.seq
        &&& t.rtt_us == if frame.timestamp > 0 && now_us > frame.timestamp {
            Some((now_us - frame.timestamp) as u64)
        } else {
            None
        }
    } else {
        step is Nothing
    }
}

/// Has the monitor come to watch the described robot?
pub open spec fn watches(after: Client, before: Client, d: session_handler::DescribeView) -> bool {
    &&& text_of(after.robot_id) == Some(d.robot_id)
    &&& text_of(after.camera) == if d.cameras.len() > 0 {
        Some(client::shape_text(d.cameras[0]))
    } else {
        None
    }
    &&& after == (Client {
        phase: Phase::Operating,
        robot_id: after.robot_id,
        dof_count: Some(d.profile.dof_count),
        camera: after.camera,
        ..before
    })
}

impl Client {
    pub open spec fn wf(self) -> bool {
        self.video_rx.wf()
    }

    /// What viewers are told now.
    pub open spec fn told(self) -> StatusView {
        StatusView {
            stage: Stage::InSession(self.phase),
            robot_id: text_of(self.robot_id),
            dof_count: self.dof_count,
            camera: text_of(self.camera),
            estopped: self.estopped,
        }
    }

    pub fn new(task_class: TaskClass) -> (c: Self)
        ensures
            c.wf(),
            c.video_rx.pending().len() == 0,
            c == (Client {
                phase: Phase::AwaitingHello,
                video_rx: c.video_rx,
                robot_id: None,
                dof_count: None,
                camera: None,
                estopped: false,
                task_class,
            }),
    {
        Client {
            phase: Phase::AwaitingHello,
            video_rx: ChannelAReceiver::new(),
            robot_id: None,
            dof_count: None,
            camera: None,
            estopped: false,
            task_class,
        }
    }

    /// The greeting, for as long as none was answered.
    pub fn hello_due(&self, established: bool) -> (r: Option<Vec<u8>>)
        ensures
            match r {
                Some(bytes) => {
                    &&& established && self.phase == Phase::AwaitingHello
                    &&& hello_handler::hello_ok(bytes@)
                    &&& hello_handler::hello_in(bytes@) == hello::local_offer(self.task_class)
                },
                None => !(established && self.phase == Phase::AwaitingHello),
            },
    {
        if established && self.phase == Phase::AwaitingHello {
            Some(encode_hello(&local_hello_capabilities(self.task_class)))
        } else {
            None
        }
    }

    fn status(&self) -> (s: Status)
        ensures
            s@ == self.told(),
    {
        Status {
            stage: Stage::InSession(self.phase),
            robot_id: copied_text(&self.robot_id),
            dof_count: self.dof_count,
            camera: copied_text(&self.camera),
            estopped: self.estopped,
        }
    }

    /// Data on a stream.
    pub fn on_stream_data(&mut self, stream_id: u64, data: &[u8]) -> (step: Step)
        requires
            old(self).wf(),
        ensures
            final(self).wf(),
            if stream_id == 0 && old(self).phase == Phase::AwaitingHello {
                if !hello_handler::hello_ok(data@) {
                    step is Nothing && *final(self) == *old(self)
                } else if hello::negotiation(
                    hello::local_offer(old(self).task_class),
                    hello_handler::hello_in(data@),
                ) is Ok {
                    &&& step matches Step::Tell(status)
                    &&& status@ == final(self).told()
                    &&& *final(self) == (Client {
                        phase: Phase::AwaitingSessionDescribe,
                        ..*old(self)
                    })
                } else {
                    step == Step::Close(CloseReason::HelloIncompatible) && *final(self) == *old(
                        self,
                    )
                }
            } else if stream_id == 1 && old(self).phase == Phase::AwaitingSessionDescribe {
                if session_handler::describe_ok(data@) {
                    &&& watches(*final(self), *old(self), session_handler::describe_in(data@))
                    &&& step matches Step::Accept { bytes, status }
                    &&& client::accepts(bytes@, session_handler::describe_in(data@), false)
                    &&& status@ == final(self).told()
                } else {
                    step is Nothing && *final(self) == *old(self)
                }
            } else if stream_id == ESTOP_STREAM_ID && EstopDatagram::parse(data@) is Some {
                &&& step matches Step::Tell(status)
                &&& status@ == final(self).told()
                &&& *final(self) == (Client {
                    estopped: EstopDatagram::parse(data@)->0.latched,
                    ..*old(self)
                })
            } else {
                step is Nothing && *final(self) == *old(self)
            },
    {
        if stream_id == 0 && self.phase == Phase::AwaitingHello {
            return self.on_hello(data);
        }
        if stream_id == 1 && self.phase == Phase::AwaitingSessionDescribe {
            return match decode_session_describe(data) {
                Ok(info) => {
                    proof {
                        session_handler::lemma_describe_sizes(data@);
                    }
                    self.on_describe(info)
                },
                Err(_) => Step::Nothing,
            };
        }
        if stream_id == ESTOP_STREAM_ID {
            return self.on_estop_datagram(data);
        }
        Step::Nothing
    }

    fn on_hello(&mut self, data: &[u8]) -> (step: Step)
        requires
            old(self).wf(),
        ensures
            final(self).wf(),
            if !hello_handler::hello_ok(data@) {
                step is Nothing && *final(self) == *old(self)
            } else if hello::negotiation(
                hello::local_offer(old(self).task_class),
                hello_handler::hello_in(data@),
            ) is Ok {
                &&& step matches Step::Tell(status)
                &&& status@ == final(self).told()
                &&& *final(self) == (Client {
                    phase: Phase::AwaitingSessionDescribe,
                    ..*old(self)
                })
            } else {
                step == Step::Close(CloseReason::HelloIncompatible) && *final(self) == *old(self)
            },
    {
        let peer = match decode_hello(data) {
            Ok(p) => p,
            Err(_) => {
                return Step::Nothing;
            },
        };
        match negotiate(&local_hello_capabilities(self.task_class), &peer) {
            Ok(_) => {
                self.phase = Phase::AwaitingSessionDescribe;
                Step::Tell(self.status())
            },
            Err(_) => Step::Close(CloseReason::HelloIncompatible),
        }
    }

    fn on_describe(&mut self, info: SessionDescribeInfo) -> (step: Step)
        requires
            old(self).wf(),
            info.profile.regions@.len() + info.cameras@.len() + 1280 <= crate::fb::MAX_BUFFER,
        ensures
            final(self).wf(),
            watches(*final(self), *old(self), info@),
            step matches Step::Accept { bytes, status } && client::accepts(bytes@, info@, false)
                && status@ == final(self).told(),
    {
        let bytes: Vec<u8> = encode_session_accept_full(&info, false);
        proof {
            let d = info@;
            assert(session_handler::region_ids(info.profile.regions@) =~= Seq::new(
                d.profile.regions.len(),
                |i: int| d.profile.regions[i].region_id,
            ));
            assert(session_handler::camera_ids(info.cameras@) =~= Seq::new(
                d.cameras.len(),
                |i: int| d.cameras[i].camera_id,
            ));
            assert(client::accepts(bytes@, d, false));
            if info.cameras@.len() > 0 {
                assert(d.cameras[0] == info.cameras@[0]@);
            }
        }
        self.dof_count = Some(info.profile.dof_count);
        self.camera = if info.cameras.len() > 0 {
            Some(camera_shape(&info.cameras[0]))
        } else {
            None
        };
        self.robot_id = Some(info.robot_id);
        self.phase = Phase::Operating;
        Step::Accept { bytes, status: self.status() }
    }

    fn on_estop_datagram(&mut self, data: &[u8]) -> (step: Step)
        requires
            old(self).wf(),
        ensures
            final(self).wf(),
            match EstopDatagram::parse(data@) {
                Some(d) => {
                    &&& step matches Step::Tell(status)
                    &&& status@ == final(self).told()
                    &&& *final(self) == (Client { estopped: d.latched, ..*old(self) })
                },
                None => step is Nothing && *final(self) == *old(self),
            },
    {
        match EstopDatagram::decode(data) {
            Some(d) => {
                self.estopped = d.latched;
                Step::Tell(self.status())
            },
            None => Step::Nothing,
        }
    }

    /// A datagram.
    pub fn on_datagram(&mut self, data: &[u8], now_us: u64) -> (step: Step)
        requires
            old(self).wf(),
        ensures
            final(self).wf(),
            match meaning(old(self).phase, data@) {
                Received::Estop(d) => {
                    &&& step matches Step::Tell(status)
                    &&& status@ == final(self).told()
                    &&& *final(self) == (Client { estopped: d.latched, ..*old(self) })
                },
                Received::Frame(frame) => tells_frame(step, frame, now_us) && *final(self) == *old(
                    self,
                ),
                Received::Video(payload) => {
                    let (pending, unit) = channel_a::datagram_step(
                        old(self).video_rx.pending(),
                        payload,
                    );
                    &&& final(self).video_rx.pending() == pending
                    &&& *final(self) == (Client { video_rx: final(self).video_rx, ..*old(self) })
                    &&& match unit {
                        Some(bytes) => step matches Step::Video(v) && v@ == bytes,
                        None => step is Nothing,
                    }
                },
                Received::Nothing => step is Nothing && *final(self) == *old(self),
            },
    {
        if data.len() > 0 && data[0] == ESTOP_DATAGRAM_MAGIC {
            return self.on_estop_datagram(data);
        }
        let (tag, payload) = match datagram::untag(data) {
            Some(t) => t,
            None => {
                return Step::Nothing;
            },
        };
        proof {
            assert(data@[0] == tag);
            assert(payload@ =~= data@.subrange(1, data@.len() as int));
        }
        if tag == DATAGRAM_TAG_CHANNEL_B && self.phase == Phase::Operating {
            return match decode_channel_b_frame(payload.as_slice()) {
                Ok(frame) => on_frame(&frame, now_us),
                Err(_) => Step::Nothing,
            };
        }
        if tag == DATAGRAM_TAG_CHANNEL_A {
            return match self.video_rx.on_datagram(payload.as_slice()) {
                Some(bytes) => Step::Video(bytes),
                None => Step::Nothing,
            };
        }
        Step::Nothing
    }
}

fn copied_text(s: &Option<String>) -> (r: Option<String>)
    ensures
        text_of(r) == text_of(*s),
{
    match s {
        Some(t) => Some(t.clone()),
        None => None,
    }
}

fn on_frame(frame: &ChannelBFrameData, now_us: u64) -> (step: Step)
    ensures
        tells_frame(step, frame@, now_us),
{
    if frame.category != ChannelBCategory::Telemetry {
        return Step::Nothing;
    }
    let rtt_us: Option<u64> = if frame.timestamp > 0 && now_us > frame.timestamp {
        Some(now_us - frame.timestamp)
    } else {
        None
    };
    match TelemetryData::unpack(frame.fields.as_slice()) {
        Some(data) => Step::Telemetry(Telemetry { data, seq: frame.seq, rtt_us }),
        None => Step::Nothing,
    }
}

/// Nothing is told of the robot's state before its description was accepted.
pub proof fn lemma_no_telemetry_before_operating(phase: Phase, data: Seq<u8>)
    requires
        phase != Phase::Operating,
    ensures
        !(meaning(phase, data) is Frame),
{
}

/// How often a decoded picture is handed to the viewers at most.
pub const MIN_BROADCAST_INTERVAL_MS: u64 = 66;

/// The quality of the pictures that are handed to the viewers.
pub const JPEG_QUALITY: u8 = 75;

/// How often the decoder's failures are summed up.
pub const SUMMARY_INTERVAL_MS: u64 = 5000;

/// When a picture was last handed on.
#[derive(Debug, Clone, Copy, PartialEq, Eq, Structural)]
pub struct BroadcastThrottle {
    pub last: Option<Instant>,
}

impl BroadcastThrottle {
    pub open spec fn may_send(self, now: Instant) -> bool {
        self.last matches Some(at) ==> time::elapsed(at, now) >= MIN_BROADCAST_INTERVAL_MS
            * time::NANOS_PER_MILLI
    }

    pub fn new() -> (t: Self)
        ensures
            t.last is None,
    {
        BroadcastThrottle { last: None }
    }

    /// May a picture be handed on?
    pub fn due(&self, now: Instant) -> (b: bool)
        ensures
            b == self.may_send(now),
    {
        match self.last {
            Some(at) => now.saturating_duration_since(at).nanos >= Duration::from_millis(
                MIN_BROADCAST_INTERVAL_MS,
            ).nanos,
            None => true,
        }
    }

    /// A picture was handed on.
    pub fn sent(&mut self, now: Instant)
        ensures
            final(self).last == Some(now),
    {
        self.last = Some(now);
    }
}

/// Two pictures that are handed on lie at least the shortest interval apart.
pub proof fn lemma_pictures_apart(sent: Instant, now: Instant)
    requires
        (BroadcastThrottle { last: Some(sent) }).may_send(now),
    ensures
        now.nanos >= sent.nanos + MIN_BROADCAST_INTERVAL_MS * time::NANOS_PER_MILLI,
{
}

/// What the decoder made of one unit.
#[derive(Debug, Clone, Copy, PartialEq, Eq, Structural)]
pub enum Decoded {
    Picture,
    /// Only parameters, no picture yet.
    Nothing,
    Failed,
}

/// How decoding went since the last summary.
#[derive(Debug, Clone, Copy, PartialEq, Eq, Structural)]
pub struct DecodeLog {
    pub ok_count: u64,
    pub err_count: u64,
    pub since: Instant,
}

pub open spec fn counted(n: u64, one: bool) -> u64 {
    if one && n < u64::MAX {
        (n + 1) as u64
    } else {
        n
    }
}

impl DecodeLog {
    pub fn new(now: Instant) -> (l: Self)
        ensures
            l == (DecodeLog { ok_count: 0, err_count: 0, since: now }),
    {
        DecodeLog { ok_count: 0, err_count: 0, since: now }
    }

    /// The count after one more unit, and the summary that is due with it: when
    /// the time for a summary has come the count starts anew, and there is one
    /// if anything failed.
    pub open spec fn recorded(self, decoded: Decoded, now: Instant) -> (
        DecodeLog,
        Option<(u64, u64)>,
    ) {
        let ok = counted(self.ok_count, decoded == Decoded::Picture);
        let err = counted(self.err_count, decoded == Decoded::Failed);
        if time::elapsed(self.since, now) >= SUMMARY_INTERVAL_MS * time::NANOS_PER_MILLI {
            (
                DecodeLog { ok_count: 0, err_count: 0, since: now },
                if err > 0 {
                    Some((ok, err))
                } else {
                    None
                },
            )
        } else {
            (DecodeLog { ok_count: ok, err_count: err, since: self.since }, None)
        }
    }

    /// Counts what was decoded.
    pub fn record(&mut self, decoded: Decoded, now: Instant) -> (summary: Option<(u64, u64)>)
        ensures
            (*final(self), summary) == old(self).recorded(decoded, now),
    {
        match decoded {
            Decoded::Picture => {
                self.ok_count = self.ok_count.saturating_add(1);
            },
            Decoded::Failed => {
                self.err_count = self.err_count.saturating_add(1);
            },
            Decoded::Nothing => {},
        }
        if now.saturating_duration_since(self.since).nanos < Duration::from_millis(
            SUMMARY_INTERVAL_MS,
        ).nanos {
            return None;
        }
        let (ok, err) = (self.ok_count, self.err_count);
        *self = DecodeLog::new(now);
        if err > 0 {
            Some((ok, err))
        } else {
            None
        }
    }
}

/// What became of a unit, for the count.
pub open spec fn outcome(decoded: Result<Option<Picture>, CodecFailure>) -> Decoded {
    match decoded {
        Ok(Some(_)) => Decoded::Picture,
        Ok(None) => Decoded::Nothing,
        Err(_) => Decoded::Failed,
    }
}

/// From the units of the stream to the pictures that the viewers get. Every
/// unit is decoded, in the order of arrival; only the encoding of pictures is
/// held back.
#[derive(Debug, Clone, Copy, PartialEq, Eq, Structural)]
pub struct VideoFeed {
    pub throttle: BroadcastThrottle,
    pub log: DecodeLog,
}

impl VideoFeed {
    /// The file that the viewers get for a decoded unit: that of its picture, if
    /// it completes one and a picture is due.
    pub open spec fn handed_on(
        self,
        decoded: Result<Option<Picture>, CodecFailure>,
        now: Instant,
    ) -> Option<Seq<u8>> {
        match decoded {
            Ok(Some(p)) => if self.throttle.may_send(now) {
                p.as_jpeg(JPEG_QUALITY)
            } else {
                None
            },
            _ => None,
        }
    }

    /// The feed after a decoded unit.
    pub open spec fn after(
        self,
        decoded: Result<Option<Picture>, CodecFailure>,
        now: Instant,
    ) -> VideoFeed {
        VideoFeed {
            throttle: BroadcastThrottle {
                last: if self.handed_on(decoded, now) is Some {
                    Some(now)
                } else {
                    self.throttle.last
                },
            },
            log: self.log.recorded(outcome(decoded), now).0,
        }
    }

    /// The summary that is due with a decoded unit.
    pub open spec fn summary(
        self,
        decoded: Result<Option<Picture>, CodecFailure>,
        now: Instant,
    ) -> Option<(u64, u64)> {
        self.log.recorded(outcome(decoded), now).1
    }

    pub fn new(now: Instant) -> (f: Self)
        ensures
            f.throttle.last is None,
            f.log == (DecodeLog { ok_count: 0, err_count: 0, since: now }),
    {
        VideoFeed { throttle: BroadcastThrottle::new(), log: DecodeLog::new(now) }
    }

    /// What is to be done with a decoded unit: the file to hand on, and the
    /// numbers of decoded and failed units if it is time to tell them.
    pub fn on_decoded(
        &mut self,
        decoded: Result<Option<Picture>, CodecFailure>,
        now: Instant,
    ) -> (r: (Option<Vec<u8>>, Option<(u64, u64)>))
        requires
            decoded matches Ok(Some(p)) ==> p.wf(),
        ensures
            *final(self) == old(self).after(decoded, now),
            match r.0 {
                Some(v) => old(self).handed_on(decoded, now) == Some(v@),
                None => old(self).handed_on(decoded, now) is None,
            },
            r.1 == old(self).summary(decoded, now),
    {
        let mut jpeg: Option<Vec<u8>> = None;
        let kind = match decoded {
            Ok(Some(picture)) => {
                if self.throttle.due(now) {
                    jpeg = picture.encode_jpeg(JPEG_QUALITY);
                    if jpeg.is_some() {
                        self.throttle.sent(now);
                    }
                }
                Decoded::Picture
            },
            Ok(None) => Decoded::Nothing,
            Err(_) => Decoded::Failed,
        };
        let summary = self.log.record(kind, now);
        (jpeg, summary)
    }

    /// Decodes the next unit and says what is to be done with it. The decoder
    /// gets every unit, whether or not a picture is due.
    pub fn on_unit(&mut self, decoder: &mut UnitDecoder, nal: &[u8], now: Instant) -> (r: (
        Option<Vec<u8>>,
        Option<(u64, u64)>,
    ))
        ensures
            final(decoder).taken() == old(decoder).taken().push(nal@),
            exists|decoded: Result<Option<Picture>, CodecFailure>|
                {
                    &&& decoded matches Ok(Some(p)) ==> p.wf()
                    &&& *final(self) == #[trigger] old(self).after(decoded, now)
                    &&& match r.0 {
                        Some(v) => old(self).handed_on(decoded, now) == Some(v@),
                        None => old(self).handed_on(decoded, now) is None,
                    }
                    &&& r.1 == old(self).summary(decoded, now)
                },
    {
        let decoded = decoder.decode(nal);
        self.on_decoded(decoded, now)
    }
}

/// Holding pictures back changes nothing but which of them are encoded: the
/// count of units goes on as if none were held back, and of two pictures that
/// are handed on the second comes no sooner than the shortest interval allows.
pub proof fn lemma_only_encoding_is_held_back(
    a: VideoFeed,
    b: VideoFeed,
    decoded: Result<Option<Picture>, CodecFailure>,
    now: Instant,
)
    requires
        a.log == b.log,
    ensures
        a.after(decoded, now).log == b.after(decoded, now).log,
        a.summary(decoded, now) == b.summary(decoded, now),
        a.handed_on(decoded, now) is Some && a.throttle.last is Some ==> now.nanos
            >= a.throttle.last->0.nanos + MIN_BROADCAST_INTERVAL_MS * time::NANOS_PER_MILLI,
        a.handed_on(decoded, now) is Some ==> a.after(decoded, now).throttle.last == Some(now),
{
}

/// What a datagram is to the monitor, by its first byte: a stop message and video
/// in every phase, a frame only while it watches.
pub proof fn lemma_datagrams_are_told_apart(phase: Phase, data: Seq<u8>)
    requires
        data.len() > 0,
    ensures
        ({
            let payload = data.subrange(1, data.len() as int);
            &&& data[0] == 0xE5 && data.len() >= 10 ==> meaning(phase, data) is Estop && meaning(
                phase,
                data,
            )->Estop_0.latched == (data[1] != 0)
            &&& data[0] == 0xE5 && data.len() < 10 ==> meaning(phase, data) is Nothing
            &&& data[0] == 0x01 && phase == Phase::Operating && channel_b::frame_ok(payload)
                ==> meaning(phase, data) == Received::Frame(channel_b::frame_in(payload))
            &&& data[0] == 0x02 ==> meaning(phase, data) == Received::Video(payload)
            &&& data[0] != 0xE5 && data[0] != 0x01 && data[0] != 0x02 ==> meaning(
                phase,
                data,
            ) is Nothing
        }),
{
}

/// What is handed on of a frame: telemetry that can be read, with its number and
/// the time since it was made, where that is known; and nothing of any other
/// frame.
pub proof fn lemma_telemetry_is_handed_on(step: Step, frame: channel_b::FrameView, now_us: u64)
    requires
        tells_frame(step, frame, now_us),
    ensures
        frame.category != ChannelBCategory::Telemetry ==> step is Nothing,
        frame.fields.len() < 7 || frame.fields.len() % 2 == 0 ==> step is Nothing,
        frame.category == ChannelBCategory::Telemetry && frame.fields.len() >= 7
            && frame.fields.len() % 2 == 1 ==> {
            &&& step is Telemetry
            &&& step->Telemetry_0.data.is_in(frame.fields)
            &&& step->Telemetry_0.seq == frame.seq
            &&& 0 < frame.timestamp < now_us ==> step->Telemetry_0.rtt_us == Some(
                (now_us - frame.timestamp) as u64,
            )
            &&& frame.timestamp == 0 || frame.timestamp >= now_us
                ==> step->Telemetry_0.rtt_us is None
        },
{
}

/// A picture is due at first, and then again once sixty-six milliseconds have
/// passed.
pub proof fn lemma_when_a_picture_is_due(last: Instant, now: Instant)
    requires
        last.nanos <= now.nanos,
    ensures
        (BroadcastThrottle { last: None }).may_send(now),
        (BroadcastThrottle { last: Some(last) }).may_send(now) <==> now.nanos - last.nanos
            >= 66_000_000,
{
}

/// How decoding is counted: pictures and failures each by themselves, and units
/// that give no picture not at all. Once five seconds have passed the counts
/// start over, and they are told if anything had failed.
pub proof fn lemma_decoding_is_counted(log: DecodeLog, now: Instant)
    requires
        log.ok_count < u64::MAX,
        log.err_count < u64::MAX,
        log.since.nanos <= now.nanos,
    ensures
        ({
            let due = now.nanos - log.since.nanos >= 5_000_000_000;
            let (pic, told_pic) = log.recorded(Decoded::Picture, now);
            let (err, told_err) = log.recorded(Decoded::Failed, now);
            let (none, told_none) = log.recorded(Decoded::Nothing, now);
            &&& !due ==> {
                &&& pic == (DecodeLog { ok_count: (log.ok_count + 1) as u64, ..log })
                &&& err == (DecodeLog { err_count: (log.err_count + 1) as u64, ..log })
                &&& none == log
                &&& told_pic is None && told_err is None && told_none is None
            }
            &&& due ==> {
                &&& pic == (DecodeLog { ok_count: 0, err_count: 0, since: now })
                &&& err == pic && none == pic
                &&& told_err == Some((log.ok_count, (log.err_count + 1) as u64))
                &&& log.err_count > 0 ==> told_pic == Some(
                    ((log.ok_count + 1) as u64, log.err_count),
                ) && told_none == Some((log.ok_count, log.err_count))
                &&& log.err_count == 0 ==> told_pic is None && told_none is None
            }
        }),
{
}

/// What viewers get of a decoded unit: the picture's file, if it completes one
/// and a picture is due; and nothing of a unit that completes none, or could not
/// be decoded.
pub proof fn lemma_what_viewers_get(feed: VideoFeed, picture: Picture, e: CodecFailure, now: Instant)
    ensures
        feed.throttle.may_send(now) ==> feed.handed_on(Ok(Some(picture)), now) == picture.as_jpeg(75),
        !feed.throttle.may_send(now) ==> feed.handed_on(Ok(Some(picture)), now) is None,
        feed.handed_on(Ok(None), now) is None,
        feed.handed_on(Err(e), now) is None,
        feed.after(Ok(None), now).throttle == feed.throttle,
        feed.after(Err(e), now).throttle == feed.throttle,
{
}

/// What viewers are told of the stages of a session.
pub proof fn lemma_stage_names()
    ensures
        stage_name(Stage::Connecting) == "connecting"@,
        stage_name(Stage::InSession(Phase::AwaitingHello)) == "awaiting_hello"@,
        stage_name(Stage::InSession(Phase::AwaitingSessionDescribe))
            == "awaiting_session_describe"@,
        stage_name(Stage::InSession(Phase::Operating)) == "operating"@,
        stage_name(Stage::Disconnected) == "disconnected"@,
{
}

/// What viewers are told of a session: how far it is, which robot and camera it
/// is about, and whether the robot is stopped.
pub proof fn lemma_what_viewers_are_told(c: Client)
    ensures
        c.told().stage == Stage::InSession(c.phase),
        c.told().dof_count == c.dof_count,
        c.told().estopped == c.estopped,
        c.robot_id is None ==> c.told().robot_id is None,
        c.robot_id matches Some(id) ==> c.told().robot_id == Some(id@),
        c.camera is None ==> c.told().camera is None,
        c.camera matches Some(shape) ==> c.told().camera == Some(shape@),
{
}

} // verus!
