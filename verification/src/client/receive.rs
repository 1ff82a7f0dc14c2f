//! What the operator's side does with what it receives.

use vstd::prelude::*;
use crate::session;
use super::{
    action, append, ask, camera_shape, channel_a, channel_b, check_and_record_profile, datagram,
    decode_channel_b_frame, decode_hello, decode_session_describe, encode_session_accept_full,
    hello, hello_handler, just, local_hello_capabilities, nal_is_critical, negotiate, nothing,
    recording_category_for, session_cache, session_handler, ui, video, Action, ActionView,
    Attitude, Category, ChannelBCategory, ChannelBFrameData, Client, CloseReason, ConnPhase,
    EstopDatagram, HudState, Instant, Phase, Record, SessionDescribeInfo, TelemetryData,
    CONTROL_SOURCE_SENTINEL, DATAGRAM_TAG_CHANNEL_A, DATAGRAM_TAG_CHANNEL_B, ESTOP_DATAGRAM_MAGIC,
    ESTOP_STREAM_ID,
};

verus! {

/// Has the console come to operate the described robot?
pub open spec fn operates(
    after: Client,
    before: Client,
    d: session_handler::DescribeView,
) -> bool {
    &&& after.session_info matches Some(info) && info@ == d
    &&& after.hud.robot_id matches Some(id) && id@ == d.robot_id
    &&& match after.hud.camera_shape {
        Some(shape) => d.cameras.len() > 0 && shape@ == super::shape_text(d.cameras[0]),
        None => d.cameras.len() == 0,
    }
    &&& after == (Client {
        phase: Phase::Operating,
        session_info: after.session_info,
        hud: HudState {
            phase: ConnPhase::Operating,
            robot_id: after.hud.robot_id,
            dof_count: Some(d.profile.dof_count),
            camera_shape: after.hud.camera_shape,
            ..before.hud
        },
        ..before
    })
}

/// What a description leads to: an answer, and the list of known profiles if
/// the robot's is new.
pub open spec fn describe_actions(
    d: session_handler::DescribeView,
    known: Seq<char>,
    bytes: Seq<u8>,
) -> Seq<ActionView> {
    let key = session_cache::profile_key(d.robot_id, d.profile_hash);
    (if session_cache::lines(known).contains(key) {
        Seq::empty()
    } else {
        seq![ActionView::SaveProfiles { text: session_cache::recorded(known, key) }]
    }) + seq![ActionView::StreamSend { stream_id: 1, bytes }]
}

pub open spec fn is_known(d: session_handler::DescribeView, known: Seq<char>) -> bool {
    session_cache::lines(known).contains(session_cache::profile_key(d.robot_id, d.profile_hash))
}

/// After a greeting that can be answered.
pub open spec fn greeted(c: Client) -> Client {
    Client {
        phase: Phase::AwaitingSessionDescribe,
        hud: HudState { phase: ConnPhase::AwaitingSessionDescribe, ..c.hud },
        ..c
    }
}

/// The telemetry of a frame, if it is there, on the display.
pub open spec fn telemetry_shown(after: HudState, before: HudState, fields: Seq<u8>) -> bool {
    if channel_b::telemetry_len_ok(fields.len()) {
        exists|t: TelemetryData|
            #[trigger] t.is_in(fields) && after.battery == Some(t.battery) && after.attitude == Some(
                Attitude { roll: t.roll, pitch: t.pitch, yaw: t.yaw },
            ) && after.motors@ == t.motors@
    } else {
        after.battery == before.battery && after.attitude == before.attitude && after.motors@
            == before.motors@
    }
}

/// After a telemetry frame. The round trip is known only where the sender's
/// clock is behind.
pub open spec fn telemetry_taken(
    after: Client,
    before: Client,
    frame: channel_b::FrameView,
    wire_len: nat,
    now: Instant,
    now_us: u64,
) -> bool {
    &&& telemetry_shown(after.hud, before.hud, frame.fields)
    &&& after.hud.telemetry_rate@ == before.hud.telemetry_rate@.recorded(now, wire_len as usize)
    &&& after == (Client {
        hud: HudState {
            rtt_us: if frame.timestamp > 0 && now_us > frame.timestamp {
                Some((now_us - frame.timestamp) as u64)
            } else {
                before.hud.rtt_us
            },
            last_telemetry_at: Some(now),
            telemetry_rate: after.hud.telemetry_rate,
            telemetry_last_seq: Some(frame.seq),
            battery: after.hud.battery,
            attitude: after.hud.attitude,
            motors: after.hud.motors,
            ..before.hud
        },
        ..before
    })
}

/// After a video datagram.
pub open spec fn video_taken(after: Client, before: Client, payload: Seq<u8>, now: Instant) -> bool {
    let step = channel_a::datagram_step(before.video_rx.pending(), payload);
    &&& after.video_rx.pending() == step.0
    &&& after.hud.video_dgram_rate@ == before.hud.video_dgram_rate@.recorded(
        now,
        payload.len() as usize,
    )
    &&& after.hud.video_frame_rate@ == match step.1 {
        Some(bytes) => before.hud.video_frame_rate@.recorded(now, bytes.len() as usize),
        None => before.hud.video_frame_rate@,
    }
    &&& after == (Client {
        video_rx: after.video_rx,
        hud: HudState {
            video_dgram_rate: after.hud.video_dgram_rate,
            video_frame_rate: after.hud.video_frame_rate,
            ..before.hud
        },
        ..before
    })
}

/// What a video datagram asks for: a whole NAL is logged and shown.
pub open spec fn video_actions(c: Client, payload: Seq<u8>, now_us: u64) -> Seq<ActionView> {
    match channel_a::datagram_step(c.video_rx.pending(), payload).1 {
        Some(bytes) => seq![super::stored(Category::VideoA, now_us, bytes)] + (if c.video is Some {
            seq![
                ActionView::ShowVideo {
                    bytes,
                    is_critical: video::critical(bytes.subrange(4, bytes.len() as int)),
                },
            ]
        } else {
            Seq::empty()
        }),
        None => Seq::empty(),
    }
}

pub open spec fn payload_of(data: Seq<u8>) -> Seq<u8> {
    data.subrange(1, data.len() as int)
}

/// What a datagram is to the console.
pub enum Received {
    Estop(EstopDatagram),
    Frame(channel_b::FrameView),
    Video,
    Nothing,
}

pub open spec fn meaning(c: Client, data: Seq<u8>) -> Received {
    if data.len() == 0 {
        Received::Nothing
    } else if data[0] == ESTOP_DATAGRAM_MAGIC {
        match EstopDatagram::parse(data) {
            Some(d) => Received::Estop(d),
            None => Received::Nothing,
        }
    } else if data[0] == DATAGRAM_TAG_CHANNEL_B && c.phase == Phase::Operating
        && channel_b::frame_ok(payload_of(data)) {
        Received::Frame(channel_b::frame_in(payload_of(data)))
    } else if data[0] == DATAGRAM_TAG_CHANNEL_A {
        Received::Video
    } else {
        Received::Nothing
    }
}

impl Client {
    /// Data on a stream. `known_profiles` is the list of profiles seen so far.
    pub fn on_stream_data(&mut self, stream_id: u64, data: &[u8], known_profiles: &str) -> (actions:
        Vec<Action>)
        requires
            old(self).wf(),
        ensures
            final(self).wf(),
            stream_id == 0 && old(self).phase == Phase::AwaitingHello ==> {
                if !hello_handler::hello_ok(data@) {
                    *final(self) == *old(self) && action::views(actions@)
                        == Seq::<ActionView>::empty()
                } else if hello::negotiation(
                    hello::local_offer(old(self).task_class),
                    hello_handler::hello_in(data@),
                ) is Ok {
                    *final(self) == greeted(*old(self)) && action::views(actions@)
                        == Seq::<ActionView>::empty()
                } else {
                    *final(self) == *old(self) && action::views(actions@) == seq![
                        ActionView::Close { reason: CloseReason::HelloIncompatible },
                    ]
                }
            },
            stream_id == 1 && old(self).phase == Phase::AwaitingSessionDescribe ==> {
                let d = session_handler::describe_in(data@);
                if session_handler::describe_ok(data@) {
                    operates(*final(self), *old(self), d) && exists|bytes: Seq<u8>|
                        #[trigger] super::accepts(bytes, d, is_known(d, known_profiles@))
                            && action::views(actions@) == describe_actions(
                            d,
                            known_profiles@,
                            bytes,
                        )
                } else {
                    *final(self) == *old(self) && action::views(actions@)
                        == Seq::<ActionView>::empty()
                }
            },
            stream_id == ESTOP_STREAM_ID ==> match EstopDatagram::parse(data@) {
                Some(d) => *final(self) == old(self).told(d.latched) && action::views(actions@)
                    == seq![ActionView::Render],
                None => *final(self) == *old(self) && action::views(actions@)
                    == Seq::<ActionView>::empty(),
            },
            !(stream_id == 0 && old(self).phase == Phase::AwaitingHello) && !(stream_id == 1
                && old(self).phase == Phase::AwaitingSessionDescribe) && stream_id
                != ESTOP_STREAM_ID ==> *final(self) == *old(self) && action::views(actions@)
                == Seq::<ActionView>::empty(),
    {
        if stream_id == 0 && self.phase == Phase::AwaitingHello {
            return self.on_hello(data);
        }
        if stream_id == 1 && self.phase == Phase::AwaitingSessionDescribe {
            return match decode_session_describe(data) {
                Ok(info) => {
                    proof {
                        session_handler::lemma_describe_sizes(data@);
                    }
                    self.on_describe(info, known_profiles)
                },
                Err(_) => nothing(),
            };
        }
        if stream_id == ESTOP_STREAM_ID {
            return self.on_estop(data);
        }
        nothing()
    }

    fn on_hello(&mut self, data: &[u8]) -> (actions: Vec<Action>)
        requires
            old(self).wf(),
        ensures
            final(self).wf(),
            if !hello_handler::hello_ok(data@) {
                *final(self) == *old(self) && action::views(actions@) == Seq::<ActionView>::empty()
            } else if hello::negotiation(
                hello::local_offer(old(self).task_class),
                hello_handler::hello_in(data@),
            ) is Ok {
                *final(self) == greeted(*old(self)) && action::views(actions@)
                    == Seq::<ActionView>::empty()
            } else {
                *final(self) == *old(self) && action::views(actions@) == seq![
                    ActionView::Close { reason: CloseReason::HelloIncompatible },
                ]
            },
    {
        let peer = match decode_hello(data) {
            Ok(p) => p,
            Err(_) => {
                return nothing();
            },
        };
        let local = local_hello_capabilities(self.task_class);
        match negotiate(&local, &peer) {
            Ok(_) => {
                self.phase = Phase::AwaitingSessionDescribe;
                self.hud.phase = ConnPhase::AwaitingSessionDescribe;
                nothing()
            },
            Err(_) => just(Action::Close { reason: CloseReason::HelloIncompatible }),
        }
    }

    fn on_describe(&mut self, info: SessionDescribeInfo, known_profiles: &str) -> (actions: Vec<
        Action,
    >)
        requires
            old(self).wf(),
            info.profile.regions@.len() + info.cameras@.len() + 1280 <= crate::fb::MAX_BUFFER,
        ensures
            final(self).wf(),
            operates(*final(self), *old(self), info@),
            exists|bytes: Seq<u8>|
                #[trigger] super::accepts(bytes, info@, is_known(info@, known_profiles@))
                    && action::views(actions@) == describe_actions(
                    info@,
                    known_profiles@,
                    bytes,
                ),
    {
        let (cached, updated) = check_and_record_profile(
            known_profiles,
            info.robot_id.as_str(),
            info.profile_hash,
        );
        let bytes: Vec<u8> = encode_session_accept_full(&info, cached);
        let ghost sent = bytes@;
        proof {
            let d = info@;
            assert(session_handler::region_ids(info.profile.regions@) =~= Seq::new(
                d.profile.regions.len(),
                |i: int| d.profile.regions[i].region_id,
            ));
            assert(session_handler::camera_ids(info.cameras@) =~= Seq::new(
                d.cameras.len(),
                |i: int| d.cameras[i].camera_id,
            ));
            assert(super::accepts(sent, info@, is_known(info@, known_profiles@)));
        }
        let mut actions = nothing();
        if let Some(text) = updated {
            ask(&mut actions, Action::SaveProfiles { text });
        }
        ask(&mut actions, Action::StreamSend { stream_id: 1, bytes });
        proof {
            assert(action::views(actions@) =~= describe_actions(info@, known_profiles@, sent));
        }
        self.hud.robot_id = Some(info.robot_id.clone());
        self.hud.dof_count = Some(info.profile.dof_count);
        self.hud.camera_shape = if info.cameras.len() > 0 {
            Some(camera_shape(&info.cameras[0]))
        } else {
            None
        };
        proof {
            if info.cameras@.len() > 0 {
                assert(info@.cameras[0] == info.cameras@[0]@);
            }
        }
        self.session_info = Some(info);
        self.phase = Phase::Operating;
        self.hud.phase = ConnPhase::Operating;
        actions
    }

    fn on_estop(&mut self, data: &[u8]) -> (actions: Vec<Action>)
        requires
            old(self).wf(),
        ensures
            final(self).wf(),
            match EstopDatagram::parse(data@) {
                Some(d) => *final(self) == old(self).told(d.latched) && action::views(actions@)
                    == seq![ActionView::Render],
                None => *final(self) == *old(self) && action::views(actions@)
                    == Seq::<ActionView>::empty(),
            },
    {
        match EstopDatagram::decode(data) {
            Some(d) => {
                self.estopped = d.latched;
                self.hud.estopped = d.latched;
                just(Action::Render)
            },
            None => nothing(),
        }
    }

    /// A datagram.
    pub fn on_datagram(&mut self, data: &[u8], now: Instant, now_us: u64) -> (actions: Vec<Action>)
        requires
            old(self).wf(),
        ensures
            final(self).wf(),
            match meaning(*old(self), data@) {
                Received::Estop(d) => *final(self) == old(self).told(d.latched) && action::views(
                    actions@,
                ) == seq![ActionView::Render],
                Received::Frame(frame) => {
                    let log = seq![
                        super::stored(super::category_for(frame.category), now_us, payload_of(data@)),
                    ];
                    if frame.category == ChannelBCategory::Telemetry {
                        telemetry_taken(
                            *final(self),
                            *old(self),
                            frame,
                            payload_of(data@).len(),
                            now,
                            now_us,
                        ) && action::views(actions@) == log.push(ActionView::Render)
                    } else {
                        *final(self) == *old(self) && action::views(actions@) == log
                    }
                },
                Received::Video => video_taken(*final(self), *old(self), payload_of(data@), now)
                    && action::views(actions@) == video_actions(
                    *old(self),
                    payload_of(data@),
                    now_us,
                ),
                Received::Nothing => *final(self) == *old(self) && action::views(actions@)
                    == Seq::<ActionView>::empty(),
            },
    {
        if data.len() > 0 && data[0] == ESTOP_DATAGRAM_MAGIC {
            return self.on_estop(data);
        }
        let (tag, payload) = match datagram::untag(data) {
            Some(t) => t,
            None => {
                return nothing();
            },
        };
        proof {
            assert(data@[0] == tag);
            assert(payload@ =~= payload_of(data@));
        }
        if tag == DATAGRAM_TAG_CHANNEL_B && self.phase == Phase::Operating {
            return match decode_channel_b_frame(payload.as_slice()) {
                Ok(frame) => {
                    let len: usize = payload.len();
                    let record = Record {
                        capture_us: now_us,
                        control_source: CONTROL_SOURCE_SENTINEL,
                        payload,
                    };
                    let category = recording_category_for(frame.category);
                    let mut actions = just(Action::Store { category, record });
                    if frame.category == ChannelBCategory::Telemetry {
                        self.on_telemetry(&frame, len, now, now_us);
                        ask(&mut actions, Action::Render);
                    }
                    actions
                },
                Err(_) => nothing(),
            };
        }
        if tag == DATAGRAM_TAG_CHANNEL_A {
            return self.on_video(payload.as_slice(), now, now_us);
        }
        nothing()
    }

    fn on_telemetry(
        &mut self,
        frame: &ChannelBFrameData,
        wire_len: usize,
        now: Instant,
        now_us: u64,
    )
        requires
            old(self).wf(),
        ensures
            final(self).wf(),
            telemetry_taken(*final(self), *old(self), frame@, wire_len as nat, now, now_us),
    {
        if frame.timestamp > 0 && now_us > frame.timestamp {
            self.hud.rtt_us = Some(now_us - frame.timestamp);
        }
        self.hud.last_telemetry_at = Some(now);
        self.hud.telemetry_rate.record(now, wire_len);
        self.hud.telemetry_last_seq = Some(frame.seq);
        if let Some(t) = TelemetryData::unpack(frame.fields.as_slice()) {
            self.hud.battery = Some(t.battery);
            self.hud.attitude = Some(Attitude { roll: t.roll, pitch: t.pitch, yaw: t.yaw });
            proof {
                assert(t.is_in(frame.fields@));
            }
            self.hud.motors = t.motors;
        }
    }

    fn on_video(&mut self, payload: &[u8], now: Instant, now_us: u64) -> (actions: Vec<Action>)
        requires
            old(self).wf(),
        ensures
            final(self).wf(),
            video_taken(*final(self), *old(self), payload@, now),
            action::views(actions@) == video_actions(*old(self), payload@, now_us),
    {
        self.hud.video_dgram_rate.record(now, payload.len());
        match self.video_rx.on_datagram(payload) {
            Some(bytes) => {
                self.hud.video_frame_rate.record(now, bytes.len());
                let record = Record {
                    capture_us: now_us,
                    control_source: CONTROL_SOURCE_SENTINEL,
                    payload: action::copied(bytes.as_slice()),
                };
                let mut actions = just(Action::Store { category: Category::VideoA, record });
                let is_critical: bool = nal_is_critical(
                    vstd::slice::slice_subrange(bytes.as_slice(), 4, bytes.len()),
                );
                if self.video.is_some() {
                    ask(&mut actions, Action::ShowVideo { bytes, is_critical });
                }
                proof {
                    assert(action::views(actions@) =~= video_actions(
                        *old(self),
                        payload@,
                        now_us,
                    ));
                }
                actions
            },
            None => nothing(),
        }
    }
}

/// Before the robot is described, no frame is taken in.
pub proof fn lemma_no_frames_before_operating(c: Client, data: Seq<u8>)
    requires
        c.phase != Phase::Operating,
    ensures
        !(meaning(c, data) is Frame),
{
}

/// The two ends come to terms, whatever task classes they are set to: each takes
/// the other's greeting; the robot answers the console's with its description;
/// and the console's answer to that lets the robot operate.
pub proof fn lemma_handshake(
    robot: session::SessionView,
    console: Client,
    robot_hello: Seq<u8>,
    console_hello: Seq<u8>,
    description: Seq<u8>,
    answer: Seq<u8>,
    cached: bool,
    now: Instant,
    now_us: u64,
)
    requires
        robot.phase == session::Phase::AwaitingHello,
        !robot.describe_sent,
        hello_handler::hello_ok(robot_hello),
        hello_handler::hello_in(robot_hello) == hello::local_offer(robot.task_class),
        hello_handler::hello_ok(console_hello),
        hello_handler::hello_in(console_hello) == hello::local_offer(console.task_class),
        session::describes(description, robot),
        super::accepts(answer, session_handler::describe_in(description), cached),
    ensures
        hello::negotiation(
            hello::local_offer(console.task_class),
            hello_handler::hello_in(robot_hello),
        ) is Ok,
        session_handler::describe_ok(description),
        ({
            let told = robot.streamed(0, console_hello, description, now, now_us);
            let agreed = told.0.streamed(1, answer, Seq::empty(), now, now_us);
            &&& told.1 == seq![ActionView::StreamSend { stream_id: 1, bytes: description }]
            &&& told.2 is None
            &&& agreed == (
                session::SessionView { phase: session::Phase::Operating, ..robot },
                Seq::<ActionView>::empty(),
                None::<hello_handler::DecodeError>,
            )
        }),
{
    hello::lemma_local_offers_agree(console.task_class, robot.task_class);
    hello::lemma_local_offers_agree(robot.task_class, console.task_class);
}

/// What a datagram is, by its first byte: a stop message in every phase; a frame
/// only while the session operates; video in every phase; and nothing otherwise.
pub proof fn lemma_datagrams_are_told_apart(c: Client, data: Seq<u8>)
    ensures
        data.len() == 0 ==> meaning(c, data) is Nothing,
        data.len() >= 10 && data[0] == 0xE5 ==> meaning(c, data) is Estop && meaning(
            c,
            data,
        )->Estop_0.latched == (data[1] != 0),
        0 < data.len() < 10 && data[0] == 0xE5 ==> meaning(c, data) is Nothing,
        data.len() > 0 && data[0] == 0x01 ==> {
            let payload = data.subrange(1, data.len() as int);
            &&& c.phase == Phase::Operating && channel_b::frame_ok(payload) ==> meaning(c, data)
                == Received::Frame(channel_b::frame_in(payload))
            &&& c.phase != Phase::Operating || !channel_b::frame_ok(payload) ==> meaning(
                c,
                data,
            ) is Nothing
        },
        data.len() > 0 && data[0] == 0x02 ==> meaning(c, data) is Video,
        data.len() > 0 && data[0] != 0xE5 && data[0] != 0x01 && data[0] != 0x02 ==> meaning(
            c,
            data,
        ) is Nothing,
{
}

/// What telemetry shows: the charge, the attitude and the joints are those of
/// the frame; and the round trip is how long ago the frame says that it was
/// made, where it says so at all and that lies in the past.
pub proof fn lemma_telemetry_is_displayed(
    after: Client,
    before: Client,
    frame: channel_b::FrameView,
    wire_len: nat,
    now: Instant,
    now_us: u64,
    t: TelemetryData,
)
    requires
        telemetry_taken(after, before, frame, wire_len, now, now_us),
        t.is_in(frame.fields),
    ensures
        after.hud.battery == Some(t.battery),
        after.hud.attitude == Some(Attitude { roll: t.roll, pitch: t.pitch, yaw: t.yaw }),
        after.hud.motors@ == t.motors@,
        after.hud.last_telemetry_at == Some(now),
        after.hud.telemetry_last_seq == Some(frame.seq),
        0 < frame.timestamp < now_us ==> after.hud.rtt_us == Some((now_us - frame.timestamp) as u64),
        frame.timestamp == 0 || frame.timestamp >= now_us ==> after.hud.rtt_us == before.hud.rtt_us,
        after.last_command == before.last_command,
        after.estopped == before.estopped,
        after.phase == before.phase,
{
}

/// What video does: what has become whole is logged and, where video is shown,
/// shown; nothing else is. The player is told whether it must not be dropped.
pub proof fn lemma_video_is_logged_and_shown(c: Client, payload: Seq<u8>, now_us: u64)
    ensures
        ({
            let whole = channel_a::datagram_step(c.video_rx.pending(), payload).1;
            let asked = video_actions(c, payload, now_us);
            &&& whole is None ==> asked.len() == 0
            &&& whole matches Some(bytes) ==> {
                &&& asked[0] == ActionView::Store {
                    category: Category::VideoA,
                    capture_us: now_us,
                    control_source: 0xFF,
                    payload: bytes,
                }
                &&& c.video is None ==> asked.len() == 1
                &&& c.video is Some ==> asked.len() == 2 && asked[1] == (ActionView::ShowVideo {
                    bytes,
                    is_critical: video::critical(bytes.subrange(4, bytes.len() as int)),
                })
            }
        }),
{
}

/// What a description leads to: the answer goes out on stream one; and a profile
/// that is not on the list of known ones is put on it first.
pub proof fn lemma_description_is_answered(
    d: session_handler::DescribeView,
    known: Seq<char>,
    bytes: Seq<u8>,
)
    ensures
        ({
            let asked = describe_actions(d, known, bytes);
            let n = asked.len() as int;
            &&& asked[n - 1] == ActionView::StreamSend { stream_id: 1, bytes }
            &&& is_known(d, known) ==> n == 1
            &&& !is_known(d, known) ==> n == 2 && asked[0] is SaveProfiles
        }),
{
}

/// How the console's session comes about: a greeting that is agreed with leads to
/// waiting for the description; the description to operating the robot that it
/// describes. What is displayed follows, and what is held is not touched.
pub proof fn lemma_session_comes_about(
    after: Client,
    before: Client,
    d: session_handler::DescribeView,
)
    ensures
        greeted(before).phase == Phase::AwaitingSessionDescribe,
        greeted(before).hud.phase == ConnPhase::AwaitingSessionDescribe,
        greeted(before).last_command == before.last_command,
        operates(after, before, d) ==> {
            &&& after.phase == Phase::Operating
            &&& after.hud.phase == ConnPhase::Operating
            &&& after.hud.robot_id is Some && after.hud.robot_id->0@ == d.robot_id
            &&& after.hud.dof_count == Some(d.profile.dof_count)
            &&& after.session_info is Some && after.session_info->0@ == d
            &&& d.cameras.len() == 0 ==> after.hud.camera_shape is None
            &&& d.cameras.len() > 0 ==> after.hud.camera_shape is Some
            &&& after.last_command == before.last_command
            &&& after.estopped == before.estopped
            &&& after.next_trigger_seq == before.next_trigger_seq
            &&& after.channel_b_seq == before.channel_b_seq
        },
{
}

/// The robot's word on whether it is stopped is what is held and displayed, and
/// nothing else changes with it.
pub proof fn lemma_stop_is_displayed(c: Client, latched: bool)
    ensures
        c.told(latched).estopped == latched,
        c.told(latched).hud.estopped == latched,
        c.told(latched).last_command == c.last_command,
        c.told(latched).estop_seq == c.estop_seq,
        c.told(latched).phase == c.phase,
{
}

/// The console takes all that is offered: every region and every camera, in their
/// order, each category at two bytes a field; and it says whether it knew the
/// profile.
pub proof fn lemma_all_is_taken(
    bytes: Seq<u8>,
    d: session_handler::DescribeView,
    cached: bool,
    i: int,
)
    requires
        super::accepts(bytes, d, cached),
    ensures
        ({
            let a = session_handler::accept_in(bytes);
            &&& session_handler::accept_ok(bytes)
            &&& a.profile_hash == d.profile_hash
            &&& a.cached == cached
            &&& a.selected_regions.len() == d.profile.regions.len()
            &&& 0 <= i < d.profile.regions.len() ==> a.selected_regions[i]
                == d.profile.regions[i].region_id
            &&& a.selected_cameras.len() == d.cameras.len()
            &&& 0 <= i < d.cameras.len() ==> a.selected_cameras[i] == d.cameras[i].camera_id
            &&& session_handler::accept_tiers(bytes).len() == 3
            &&& 0 <= i < 3 ==> session_handler::accept_tiers(bytes)[i] == (i as u8, 2u8)
        }),
{
}

} // verus!
