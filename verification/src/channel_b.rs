//! Command and telemetry frames and the payloads inside them.

use vstd::prelude::*;
use crate::command;
use crate::command::{
    continuous_scale, dequantize, position_scale, quantize, CartesianCommand,
    VelocityAttitudeCommand,
};
use crate::fb::{fb_get_bytes, fb_get_u32, fb_get_u64, fb_get_u8, fb_new, fb_root, MAX_BUFFER};
use crate::fb_table;
use crate::fb_table::{
    check_bytes, check_root, check_scalar, end_table, finish, put_bytes, put_offset, put_u32,
    put_u64, put_u8, start_table,
};
use crate::hello_handler::DecodeError;
use crate::sizing::QuantizationTier;
use crate::wire::{push_be_i16, read_be_i16};

verus! {

#[derive(Debug, Clone, Copy, PartialEq, Eq, Structural)]
pub enum ChannelBCategory {
    Command,
    Telemetry,
    Haptic,
}

/// The number that stands for a category on the wire.
pub open spec fn category_number(c: ChannelBCategory) -> u8 {
    match c {
        ChannelBCategory::Command => 0,
        ChannelBCategory::Telemetry => 1,
        ChannelBCategory::Haptic => 2,
    }
}

/// The category with a given number; unknown numbers count as commands.
pub open spec fn category_of(n: u8) -> ChannelBCategory {
    if n == 1 {
        ChannelBCategory::Telemetry
    } else if n == 2 {
        ChannelBCategory::Haptic
    } else {
        ChannelBCategory::Command
    }
}

pub fn to_fb_category(c: ChannelBCategory) -> (n: u8)
    ensures
        n == category_number(c),
        category_of(n) == c,
{
    match c {
        ChannelBCategory::Command => 0,
        ChannelBCategory::Telemetry => 1,
        ChannelBCategory::Haptic => 2,
    }
}

pub fn from_fb_category(n: u8) -> (c: ChannelBCategory)
    ensures
        c == category_of(n),
{
    match n {
        1 => ChannelBCategory::Telemetry,
        2 => ChannelBCategory::Haptic,
        _ => ChannelBCategory::Command,
    }
}

#[derive(Debug)]
pub struct ChannelBFrameData {
    pub timestamp: u64,
    pub seq: u64,
    pub tick_id: u32,
    pub category: ChannelBCategory,
    /// `ALL_REGIONS` if the datagram is not a body-region split.
    pub region_id: u8,
    pub fields: Vec<u8>,
}

pub const ALL_REGIONS: u8 = 0xFF;

/// A frame as a mathematical value.
pub struct FrameView {
    pub timestamp: u64,
    pub seq: u64,
    pub tick_id: u32,
    pub category: ChannelBCategory,
    pub region_id: u8,
    pub fields: Seq<u8>,
}

impl View for ChannelBFrameData {
    type V = FrameView;

    open spec fn view(&self) -> FrameView {
        FrameView {
            timestamp: self.timestamp,
            seq: self.seq,
            tick_id: self.tick_id,
            category: self.category,
            region_id: self.region_id,
            fields: self.fields@,
        }
    }
}

/// Can a frame be read from `s`?
pub open spec fn frame_ok(s: Seq<u8>) -> bool {
    let t = crate::fb::root(s);
    &&& crate::fb::root_ok(s)
    &&& crate::fb::scalar_ok(s, t, 4, 8)
    &&& crate::fb::scalar_ok(s, t, 6, 8)
    &&& crate::fb::scalar_ok(s, t, 8, 4)
    &&& crate::fb::scalar_ok(s, t, 10, 1)
    &&& crate::fb::scalar_ok(s, t, 12, 1)
    &&& crate::fb::bytes_ok(s, t, 14)
}

/// The frame in `s`.
pub open spec fn frame_in(s: Seq<u8>) -> FrameView {
    let t = crate::fb::root(s);
    FrameView {
        timestamp: crate::fb::scalar(s, t, 4, 8, 0) as u64,
        seq: crate::fb::scalar(s, t, 6, 8, 0) as u64,
        tick_id: crate::fb::scalar(s, t, 8, 4, 0) as u32,
        category: category_of(crate::fb::scalar(s, t, 10, 1, 0) as u8),
        region_id: crate::fb::scalar(s, t, 12, 1, 0) as u8,
        fields: crate::fb::byte_vector(s, t, 14),
    }
}

/// The message that carries `frame`; it reads back as `frame`.
pub fn encode_channel_b_frame(frame: &ChannelBFrameData) -> (out: Vec<u8>)
    requires
        frame.fields@.len() + 512 <= MAX_BUFFER,
    ensures
        frame_ok(out@),
        frame_in(out@) == frame@,
        out@.len() <= frame.fields@.len() + 256,
{
    let mut b = fb_new();
    let fields: u32 = put_bytes(&mut b, frame.fields.as_slice());
    let ghost w0 = crate::fb::written(b);
    proof {
        fb_table::lemma_extends_refl(w0);
    }
    let start: u32 = start_table(&mut b);
    put_u64(&mut b, 6, frame.seq);
    put_u64(&mut b, 4, frame.timestamp);
    put_offset(&mut b, 14, fields);
    put_u32(&mut b, 8, frame.tick_id);
    put_u8(&mut b, 12, frame.region_id);
    put_u8(&mut b, 10, to_fb_category(frame.category));
    let ghost before = b;
    proof {
        assert(fb_table::holds(before, 6, 8, frame.seq as nat, 0));
        assert(fb_table::holds(before, 4, 8, frame.timestamp as nat, 0));
        assert(fb_table::leads(before, 14, fields as int));
        assert(fb_table::holds(before, 8, 4, frame.tick_id as nat, 0));
        assert(fb_table::holds(before, 12, 1, frame.region_id as nat, 0));
        assert(fb_table::holds(before, 10, 1, category_number(frame.category) as nat, 0));
    }
    let pos: u32 = end_table(&mut b, start);
    let ghost w = crate::fb::written(b);
    let out: Vec<u8> = finish(b, pos);
    proof {
        assert(crate::fb::extends(w0, w));
        fb_table::lemma_bytes_here_shift(w0, w, fields as int, frame.fields@);
        assert(crate::fb::bytes_ok(w, w.len() - pos, 14));
        fb_table::lemma_bytes_shift(w, out@, w.len() - pos, 14);
        assert(out@.len() - w.len() + (w.len() - pos) == crate::fb::root(out@));
    }
    out
}

/// Reads a frame; an error exactly if it cannot be read.
pub fn decode_channel_b_frame(buf: &[u8]) -> (r: Result<ChannelBFrameData, DecodeError>)
    ensures
        match r {
            Ok(frame) => frame_ok(buf@) && frame@ == frame_in(buf@),
            Err(e) => !frame_ok(buf@) && e == DecodeError::Malformed,
        },
{
    if !check_root(buf) {
        return Err(DecodeError::Malformed);
    }
    let t: usize = fb_root(buf);
    if !(check_scalar(buf, t, 4, 8) && check_scalar(buf, t, 6, 8) && check_scalar(buf, t, 8, 4)
        && check_scalar(buf, t, 10, 1) && check_scalar(buf, t, 12, 1) && check_bytes(buf, t, 14)) {
        return Err(DecodeError::Malformed);
    }
    let fields: Vec<u8> = match fb_get_bytes(buf, t, 14) {
        Some(v) => v,
        None => Vec::new(),
    };
    proof {
        assert(fields@ =~= crate::fb::byte_vector(buf@, t as int, 14));
    }
    Ok(
        ChannelBFrameData {
            timestamp: fb_get_u64(buf, t, 4, 0),
            seq: fb_get_u64(buf, t, 6, 0),
            tick_id: fb_get_u32(buf, t, 8, 0),
            category: from_fb_category(fb_get_u8(buf, t, 10, 0)),
            region_id: fb_get_u8(buf, t, 12, 0),
            fields,
        },
    )
}

/// The command payload of a robot with one velocity block and one arm. The
/// velocity and attitude fields are in hundredths of a unit.
#[derive(Debug, Clone, Copy, PartialEq, Eq, Structural)]
pub struct TeleopCommand {
    pub vx: i32,
    pub vy: i32,
    pub turn: i32,
    pub attitude_r: i32,
    pub attitude_p: i32,
    pub attitude_y: i32,
    pub arm_x: i16,
    pub arm_z: i16,
    pub claw: u8,
}

pub const VELOCITY_ATTITUDE_STANDARD_LEN: usize = 12;

pub const CARTESIAN_STANDARD_LEN: usize = 8;

/// `v`, moved into the range of sixteen-bit integers.
pub open spec fn clamped16(v: i32) -> i32 {
    if v < -32768 {
        -32768i32
    } else if v > 32767 {
        32767
    } else {
        v
    }
}

impl TeleopCommand {
    pub open spec fn velocity_part(self) -> VelocityAttitudeCommand {
        let scale = command::continuous(QuantizationTier::Standard);
        VelocityAttitudeCommand {
            vx: command::number_of(self.vx as int, scale),
            vy: command::number_of(self.vy as int, scale),
            turn: command::number_of(self.turn as int, scale),
            roll: command::number_of(self.attitude_r as int, scale),
            pitch: command::number_of(self.attitude_p as int, scale),
            yaw: command::number_of(self.attitude_y as int, scale),
        }
    }

    pub open spec fn arm_part(self) -> CartesianCommand {
        let scale = command::position(QuantizationTier::Standard);
        CartesianCommand {
            x: command::number_of(self.arm_x as int, scale),
            y: 0,
            z: command::number_of(self.arm_z as int, scale),
            gripper: self.claw,
        }
    }

    /// The velocity block, followed by the arm block.
    pub open spec fn bytes(self) -> Seq<u8> {
        self.velocity_part().bytes(QuantizationTier::Standard)
            + self.arm_part().bytes(QuantizationTier::Standard)
    }

    /// The command at the front of `s`, which holds at least twenty bytes.
    pub open spec fn of_bytes(s: Seq<u8>) -> TeleopCommand {
        let va = VelocityAttitudeCommand::of_bytes(
            s.subrange(0, 12),
            QuantizationTier::Standard,
        );
        let arm = CartesianCommand::of_bytes(
            s.subrange(12, 20),
            QuantizationTier::Standard,
        );
        let (hundredths, whole) = (
            command::continuous(QuantizationTier::Standard),
            command::position(QuantizationTier::Standard),
        );
        TeleopCommand {
            vx: command::reading_of(va.vx, hundredths) as i32,
            vy: command::reading_of(va.vy, hundredths) as i32,
            turn: command::reading_of(va.turn, hundredths) as i32,
            attitude_r: command::reading_of(va.roll, hundredths) as i32,
            attitude_p: command::reading_of(va.pitch, hundredths) as i32,
            attitude_y: command::reading_of(va.yaw, hundredths) as i32,
            arm_x: command::reading_of(arm.x, whole) as i16,
            arm_z: command::reading_of(arm.z, whole) as i16,
            claw: arm.gripper,
        }
    }

    /// The command with its continuous fields moved into the wire's range.
    pub open spec fn clamped(self) -> TeleopCommand {
        TeleopCommand {
            vx: clamped16(self.vx),
            vy: clamped16(self.vy),
            turn: clamped16(self.turn),
            attitude_r: clamped16(self.attitude_r),
            attitude_p: clamped16(self.attitude_p),
            attitude_y: clamped16(self.attitude_y),
            arm_x: self.arm_x,
            arm_z: self.arm_z,
            claw: self.claw,
        }
    }

    fn velocity_attitude(&self) -> (c: VelocityAttitudeCommand)
        ensures
            c == self.velocity_part(),
    {
        let scale = continuous_scale(QuantizationTier::Standard);
        VelocityAttitudeCommand {
            vx: dequantize(self.vx, scale),
            vy: dequantize(self.vy, scale),
            turn: dequantize(self.turn, scale),
            roll: dequantize(self.attitude_r, scale),
            pitch: dequantize(self.attitude_p, scale),
            yaw: dequantize(self.attitude_y, scale),
        }
    }

    fn arm(&self) -> (c: CartesianCommand)
        ensures
            c == self.arm_part(),
    {
        let scale = position_scale(QuantizationTier::Standard);
        CartesianCommand {
            x: dequantize(self.arm_x as i32, scale),
            y: 0,
            z: dequantize(self.arm_z as i32, scale),
            gripper: self.claw,
        }
    }

    pub fn pack(&self) -> (out: Vec<u8>)
        ensures
            out@ == self.bytes(),
            out@.len() == 20,
    {
        let mut out: Vec<u8> = self.velocity_attitude().pack_standard();
        let arm: Vec<u8> = self.arm().pack_standard();
        out.extend_from_slice(arm.as_slice());
        proof {
            let tier = QuantizationTier::Standard;
            self.velocity_part().lemma_round_trip(tier, Seq::empty());
            self.arm_part().lemma_round_trip(tier, Seq::empty());
            assert(out@ =~= self.bytes());
        }
        out
    }

    /// `None` exactly if there are fewer than twenty bytes.
    pub fn unpack(bytes: &[u8]) -> (r: Option<Self>)
        ensures
            r == if bytes@.len() < 20 {
                None
            } else {
                Some(Self::of_bytes(bytes@))
            },
    {
        if bytes.len() < VELOCITY_ATTITUDE_STANDARD_LEN + CARTESIAN_STANDARD_LEN {
            return None;
        }
        let va = match VelocityAttitudeCommand::unpack_standard(
            vstd::slice::slice_subrange(bytes, 0, VELOCITY_ATTITUDE_STANDARD_LEN),
        ) {
            Some(c) => c,
            None => {
                return None;
            },
        };
        let arm = match CartesianCommand::unpack_standard(
            vstd::slice::slice_subrange(
                bytes,
                VELOCITY_ATTITUDE_STANDARD_LEN,
                VELOCITY_ATTITUDE_STANDARD_LEN + CARTESIAN_STANDARD_LEN,
            ),
        ) {
            Some(c) => c,
            None => {
                return None;
            },
        };
        proof {
            Self::lemma_on_the_wire(bytes@);
        }
        let hundredths = continuous_scale(QuantizationTier::Standard);
        let whole = position_scale(QuantizationTier::Standard);
        Some(
            TeleopCommand {
                vx: quantize(va.vx, hundredths),
                vy: quantize(va.vy, hundredths),
                turn: quantize(va.turn, hundredths),
                attitude_r: quantize(va.roll, hundredths),
                attitude_p: quantize(va.pitch, hundredths),
                attitude_y: quantize(va.yaw, hundredths),
                arm_x: quantize(arm.x, whole) as i16,
                arm_z: quantize(arm.z, whole) as i16,
                claw: arm.gripper,
            },
        )
    }

    proof fn lemma_on_the_wire(s: Seq<u8>)
        requires
            s.len() >= 20,
        ensures
            ({
                let tier = QuantizationTier::Standard;
                let va = VelocityAttitudeCommand::of_bytes(s.subrange(0, 12), tier);
                let arm = CartesianCommand::of_bytes(s.subrange(12, 20), tier);
                let (hundredths, whole) = (command::continuous(tier), command::position(tier));
                &&& forall|k: int|
                    0 <= k < 6 ==> -32768 <= command::reading_of(
                        #[trigger] va.values()[k],
                        hundredths,
                    ) <= 32767
                &&& forall|k: int|
                    0 <= k < 3 ==> -32768 <= command::reading_of(
                        #[trigger] arm.values()[k],
                        whole,
                    ) <= 32767
                &&& va.values()[0] == va.vx && va.values()[1] == va.vy && va.values()[2] == va.turn
                    && va.values()[3] == va.roll && va.values()[4] == va.pitch && va.values()[5]
                    == va.yaw
                &&& arm.values()[0] == arm.x && arm.values()[2] == arm.z
            }),
    {
        let tier = QuantizationTier::Standard;
        let (a, b) = (s.subrange(0, 12), s.subrange(12, 20));
        let va = VelocityAttitudeCommand::of_bytes(a, tier);
        let arm = CartesianCommand::of_bytes(b, tier);
        let (hundredths, whole) = (command::continuous(tier), command::position(tier));
        assert forall|k: int| 0 <= k < 6 implies -32768 <= command::reading_of(
            #[trigger] va.values()[k],
            hundredths,
        ) <= 32767 by {
            command::lemma_standard_field(a, k, hundredths);
            assert(va.values()[k] == command::field_at(a, k, hundredths, tier));
        }
        assert forall|k: int| 0 <= k < 3 implies -32768 <= command::reading_of(
            #[trigger] arm.values()[k],
            whole,
        ) <= 32767 by {
            command::lemma_standard_field(b, k, whole);
            assert(arm.values()[k] == command::field_at(b, k, whole, tier));
        }
    }

    /// A packed command reads back, clamped to the wire's range.
    pub proof fn lemma_round_trip(self)
        ensures
            self.bytes().len() == 20,
            Self::of_bytes(self.bytes()) == self.clamped(),
    {
        let tier = QuantizationTier::Standard;
        let va = self.velocity_part();
        let arm = self.arm_part();
        va.lemma_round_trip(tier, Seq::empty());
        arm.lemma_round_trip(tier, Seq::empty());
        assert(va.bytes(tier) + Seq::<u8>::empty() =~= va.bytes(tier));
        assert(arm.bytes(tier) + Seq::<u8>::empty() =~= arm.bytes(tier));
        assert(self.bytes().subrange(0, 12) =~= va.bytes(tier));
        assert(self.bytes().subrange(12, 20) =~= arm.bytes(tier));
        let (hundredths, whole) = (command::continuous(tier), command::position(tier));
        command::lemma_standard_step(self.vx, hundredths);
        command::lemma_standard_step(self.vy, hundredths);
        command::lemma_standard_step(self.turn, hundredths);
        command::lemma_standard_step(self.attitude_r, hundredths);
        command::lemma_standard_step(self.attitude_p, hundredths);
        command::lemma_standard_step(self.attitude_y, hundredths);
        command::lemma_standard_step(self.arm_x as i32, whole);
        command::lemma_standard_step(self.arm_z as i32, whole);
    }
}

/// The telemetry payload: charge in percent, attitude and joint angles in
/// hundredths of a degree. The number of joints follows from the length.
#[derive(Debug)]
pub struct TelemetryData {
    pub battery: u8,
    pub roll: i16,
    pub pitch: i16,
    pub yaw: i16,
    pub motors: Vec<i16>,
}

pub const TELEMETRY_HEADER_LEN: usize = 7;

/// Sixteen-bit integers one behind the other, most significant byte first.
pub open spec fn angles_bytes(angles: Seq<i16>) -> Seq<u8>
    decreases angles.len(),
{
    if angles.len() == 0 {
        Seq::empty()
    } else {
        angles_bytes(angles.drop_last()) + angle_bytes(angles.last())
    }
}

pub open spec fn angle_bytes(v: i16) -> Seq<u8> {
    crate::wire::be_digits(crate::wire::bits_of_i16(v as int), 2)
}

/// The sixteen-bit integer at `i`.
pub open spec fn angle_at(s: Seq<u8>, i: int) -> i16 {
    crate::wire::i16_of_bits(crate::wire::be_value(s.subrange(i, i + 2))) as i16
}

/// Is `len` the length of a telemetry payload?
pub open spec fn telemetry_len_ok(len: nat) -> bool {
    len >= TELEMETRY_HEADER_LEN && (len - TELEMETRY_HEADER_LEN) % 2 == 0
}

impl TelemetryData {
    pub open spec fn bytes(self) -> Seq<u8> {
        seq![self.battery] + angles_bytes(seq![self.roll, self.pitch, self.yaw]) + angles_bytes(
            self.motors@,
        )
    }

    /// Does `s` hold exactly this telemetry?
    pub open spec fn is_in(self, s: Seq<u8>) -> bool {
        &&& telemetry_len_ok(s.len())
        &&& self.battery == s[0]
        &&& self.roll == angle_at(s, 1)
        &&& self.pitch == angle_at(s, 3)
        &&& self.yaw == angle_at(s, 5)
        &&& self.motors@ == Seq::new(
            ((s.len() - TELEMETRY_HEADER_LEN) / 2) as nat,
            |k: int| angle_at(s, 7 + 2 * k),
        )
    }

    pub fn pack(&self) -> (out: Vec<u8>)
        ensures
            out@ == self.bytes(),
    {
        let mut out: Vec<u8> = Vec::new();
        out.push(self.battery);
        push_be_i16(&mut out, self.roll);
        push_be_i16(&mut out, self.pitch);
        push_be_i16(&mut out, self.yaw);
        let ghost head = seq![self.battery] + angles_bytes(seq![self.roll, self.pitch, self.yaw]);
        proof {
            lemma_three_angles(self.roll, self.pitch, self.yaw);
            assert(out@ =~= head);
            assert(self.motors@.take(0) =~= Seq::<i16>::empty());
            assert(out@ =~= head + angles_bytes(self.motors@.take(0)));
        }
        let mut i: usize = 0;
        while i < self.motors.len()
            invariant
                i <= self.motors@.len(),
                out@ == head + angles_bytes(self.motors@.take(i as int)),
            decreases self.motors@.len() - i,
        {
            proof {
                let t = self.motors@.take(i + 1);
                assert(t.drop_last() =~= self.motors@.take(i as int));
                assert(t.last() == self.motors@[i as int]);
            }
            push_be_i16(&mut out, self.motors[i]);
            i = i + 1;
            assert(out@ =~= head + angles_bytes(self.motors@.take(i as int)));
        }
        assert(self.motors@.take(i as int) =~= self.motors@);
        out
    }

    /// `None` exactly if the length is not that of a telemetry payload.
    pub fn unpack(bytes: &[u8]) -> (r: Option<Self>)
        ensures
            match r {
                Some(t) => t.is_in(bytes@),
                None => !telemetry_len_ok(bytes@.len()),
            },
    {
        if bytes.len() < TELEMETRY_HEADER_LEN || (bytes.len() - TELEMETRY_HEADER_LEN) % 2 != 0 {
            return None;
        }
        let n: usize = (bytes.len() - TELEMETRY_HEADER_LEN) / 2;
        let mut motors: Vec<i16> = Vec::new();
        let mut k: usize = 0;
        while k < n
            invariant
                k <= n,
                bytes.len() == 7 + 2 * n,
                motors@ =~= Seq::new(k as nat, |j: int| angle_at(bytes@, 7 + 2 * j)),
            decreases n - k,
        {
            motors.push(read_be_i16(bytes, TELEMETRY_HEADER_LEN + 2 * k));
            k = k + 1;
        }
        Some(
            TelemetryData {
                battery: bytes[0],
                roll: read_be_i16(bytes, 1),
                pitch: read_be_i16(bytes, 3),
                yaw: read_be_i16(bytes, 5),
                motors,
            },
        )
    }

    /// A packed payload holds what was packed, and nothing else: whatever is
    /// read from it is equal in every part.
    pub proof fn lemma_round_trip(self)
        ensures
            self.is_in(self.bytes()),
    {
        let s = self.bytes();
        let three = seq![self.roll, self.pitch, self.yaw];
        lemma_angles_read(three, seq![self.battery], angles_bytes(self.motors@));
        lemma_angles_read(self.motors@, seq![self.battery] + angles_bytes(three), Seq::empty());
        let front = seq![self.battery] + angles_bytes(three);
        assert(s =~= front + angles_bytes(self.motors@) + Seq::empty());
        assert(three[0] == self.roll && three[1] == self.pitch && three[2] == self.yaw);
        assert(angle_at(s, 1 + 2 * 0int) == three[0]);
        assert(angle_at(s, 1 + 2 * 1int) == three[1]);
        assert(angle_at(s, 1 + 2 * 2int) == three[2]);
        assert(s.len() == 7 + 2 * self.motors@.len());
        assert(self.motors@ =~= Seq::new(
            ((s.len() - TELEMETRY_HEADER_LEN) / 2) as nat,
            |k: int| angle_at(s, 7 + 2 * k),
        ));
    }
}

proof fn lemma_three_angles(a: i16, b: i16, c: i16)
    ensures
        angles_bytes(seq![a, b, c]) == angle_bytes(a) + angle_bytes(b) + angle_bytes(c),
{
    reveal_with_fuel(angles_bytes, 4);
    let s = seq![a, b, c];
    assert(s.drop_last() =~= seq![a, b]);
    assert(seq![a, b].drop_last() =~= seq![a]);
    assert(seq![a].drop_last() =~= Seq::<i16>::empty());
    assert(Seq::<u8>::empty() + angle_bytes(a) =~= angle_bytes(a));
}

proof fn lemma_angles_read(angles: Seq<i16>, front: Seq<u8>, rest: Seq<u8>)
    ensures
        angles_bytes(angles).len() == 2 * angles.len(),
        forall|k: int|
            0 <= k < angles.len() ==> #[trigger] angle_at(
                front + angles_bytes(angles) + rest,
                front.len() + 2 * k,
            ) == angles[k],
    decreases angles.len(),
{
    if angles.len() > 0 {
        let head = angles.drop_last();
        let last = angle_bytes(angles.last());
        crate::wire::lemma_i16_round_trip(angles.last());
        lemma_angles_read(head, front, last + rest);
        let s = front + angles_bytes(angles) + rest;
        assert(s =~= front + angles_bytes(head) + (last + rest));
        let at = front.len() + 2 * head.len();
        assert(s.subrange(at as int, (at + 2) as int) =~= last);
        assert forall|k: int| 0 <= k < angles.len() implies #[trigger] angle_at(
            s,
            front.len() + 2 * k,
        ) == angles[k] by {
            if k < head.len() {
                assert(head[k] == angles[k]);
            }
        }
    }
}

/// Where the parts of a command are on the wire: each in two bytes, most
/// significant first, as a two's-complement number; velocities and angles in
/// hundredths, moved into the range of sixteen bits; the arm in millimetres,
/// with the way to the side between out and up left at zero; and the claw last.
pub proof fn lemma_command_on_the_wire(c: TeleopCommand)
    ensures
        ({
            let s = c.bytes();
            let n = |at: int| crate::wire::i16_of_bits(crate::wire::be_value(s.subrange(at, at + 2)));
            &&& s.len() == 20
            &&& -32768 <= c.vx <= 32767 ==> n(0) == c.vx
            &&& -32768 <= c.vy <= 32767 ==> n(2) == c.vy
            &&& -32768 <= c.turn <= 32767 ==> n(4) == c.turn
            &&& -32768 <= c.attitude_r <= 32767 ==> n(6) == c.attitude_r
            &&& -32768 <= c.attitude_p <= 32767 ==> n(8) == c.attitude_p
            &&& -32768 <= c.attitude_y <= 32767 ==> n(10) == c.attitude_y
            &&& n(12) == c.arm_x
            &&& n(14) == 0
            &&& n(16) == c.arm_z
            &&& n(18) == c.claw
        }),
{
    let tier = QuantizationTier::Standard;
    let (hundredths, whole) = (command::continuous(tier), command::position(tier));
    let (va, arm) = (c.velocity_part(), c.arm_part());
    let (a, b) = (va.bytes(tier), arm.bytes(tier));
    let s = c.bytes();
    command::lemma_order_of_fields(va, arm, tier);
    lemma_wire_field(c.vx as int, hundredths);
    lemma_wire_field(c.vy as int, hundredths);
    lemma_wire_field(c.turn as int, hundredths);
    lemma_wire_field(c.attitude_r as int, hundredths);
    lemma_wire_field(c.attitude_p as int, hundredths);
    lemma_wire_field(c.attitude_y as int, hundredths);
    lemma_wire_field(c.arm_x as int, whole);
    lemma_wire_field(c.arm_z as int, whole);
    lemma_wire_field(0, whole);
    lemma_zero(whole);
    crate::wire::lemma_pow256_widths();
    crate::wire::lemma_be_round_trip(c.claw as nat, 2);
    assert(s.subrange(0, 2) =~= a.subrange(0, 2));
    assert(s.subrange(2, 4) =~= a.subrange(2, 4));
    assert(s.subrange(4, 6) =~= a.subrange(4, 6));
    assert(s.subrange(6, 8) =~= a.subrange(6, 8));
    assert(s.subrange(8, 10) =~= a.subrange(8, 10));
    assert(s.subrange(10, 12) =~= a.subrange(10, 12));
    assert(s.subrange(12, 14) =~= b.subrange(0, 2));
    assert(s.subrange(14, 16) =~= b.subrange(2, 4));
    assert(s.subrange(16, 18) =~= b.subrange(4, 6));
    assert(s.subrange(18, 20) =~= b.subrange(6, 8));
}

proof fn lemma_wire_field(v: int, scale: command::Scale)
    requires
        i32::MIN <= v <= i32::MAX,
        command::scale_ok(scale),
    ensures
        -32768 <= v <= 32767 ==> crate::wire::i16_of_bits(
            crate::wire::be_value(
                command::value_bytes(
                    command::number_of(v, scale),
                    scale,
                    QuantizationTier::Standard,
                ),
            ),
        ) == v,
{
    let tier = QuantizationTier::Standard;
    command::lemma_step(v, scale);
    command::lemma_field_round_trip(v, tier);
}

proof fn lemma_zero(scale: command::Scale)
    requires
        command::scale_ok(scale),
    ensures
        command::number_of(0, scale) == 0,
{
    assert(command::value_of(0, scale) == 0) by (nonlinear_arith)
        requires
            command::value_of(0, scale) == 0int * scale.den * (1_000_000int / scale.num as int),
    ;
}

/// Where the parts of telemetry are on the wire: the charge in the first byte,
/// then roll, pitch and yaw, then the joints in their order, two bytes each.
pub proof fn lemma_telemetry_on_the_wire(t: TelemetryData, k: int)
    requires
        0 <= k < t.motors@.len(),
    ensures
        ({
            let s = t.bytes();
            let n = |at: int| crate::wire::i16_of_bits(crate::wire::be_value(s.subrange(at, at + 2)));
            &&& s.len() == 7 + 2 * t.motors@.len()
            &&& s[0] == t.battery
            &&& n(1) == t.roll
            &&& n(3) == t.pitch
            &&& n(5) == t.yaw
            &&& n(7 + 2 * k) == t.motors@[k]
        }),
{
    let s = t.bytes();
    let three = seq![t.roll, t.pitch, t.yaw];
    let front = seq![t.battery] + angles_bytes(three);
    lemma_three_angles(t.roll, t.pitch, t.yaw);
    crate::wire::lemma_i16_round_trip(t.roll);
    crate::wire::lemma_i16_round_trip(t.pitch);
    crate::wire::lemma_i16_round_trip(t.yaw);
    crate::wire::lemma_i16_round_trip(t.motors@[k]);
    lemma_angle_in_place(t.motors@, k);
    assert(front.len() == 7);
    assert(s.subrange(1, 3) =~= angle_bytes(t.roll));
    assert(s.subrange(3, 5) =~= angle_bytes(t.pitch));
    assert(s.subrange(5, 7) =~= angle_bytes(t.yaw));
    assert(s.subrange(7 + 2 * k, 9 + 2 * k) =~= angles_bytes(t.motors@).subrange(2 * k, 2 * k + 2));
}

proof fn lemma_angle_in_place(angles: Seq<i16>, k: int)
    requires
        0 <= k < angles.len(),
    ensures
        angles_bytes(angles).len() == 2 * angles.len(),
        angles_bytes(angles).subrange(2 * k, 2 * k + 2) == angle_bytes(angles[k]),
    decreases angles.len(),
{
    let head = angles.drop_last();
    lemma_angles_read(angles, Seq::empty(), Seq::empty());
    lemma_angles_read(head, Seq::empty(), Seq::empty());
    crate::wire::lemma_i16_round_trip(angles.last());
    if k < head.len() {
        lemma_angle_in_place(head, k);
        assert(angles_bytes(angles).subrange(2 * k, 2 * k + 2) =~= angles_bytes(head).subrange(
            2 * k,
            2 * k + 2,
        ));
    } else {
        assert(angles_bytes(angles).subrange(2 * k, 2 * k + 2) =~= angle_bytes(angles.last()));
    }
}

/// What telemetry is read as: a payload of seven bytes and two for each joint,
/// with the charge first and the rest in the same order. No other length is
/// telemetry.
pub proof fn lemma_telemetry_is_read(t: TelemetryData, s: Seq<u8>, k: int)
    requires
        t.is_in(s),
        0 <= k < t.motors@.len(),
    ensures
        ({
            let n = |at: int| crate::wire::i16_of_bits(crate::wire::be_value(s.subrange(at, at + 2)));
            &&& s.len() == 7 + 2 * t.motors@.len()
            &&& t.battery == s[0]
            &&& t.roll == n(1)
            &&& t.pitch == n(3)
            &&& t.yaw == n(5)
            &&& t.motors@[k] == n(7 + 2 * k)
        }),
        telemetry_len_ok(s.len()) <==> s.len() >= 7 && s.len() % 2 == 1,
{
    crate::wire::lemma_pow256_widths();
    crate::wire::lemma_be_digits_of_value(s.subrange(1, 3));
    crate::wire::lemma_be_digits_of_value(s.subrange(3, 5));
    crate::wire::lemma_be_digits_of_value(s.subrange(5, 7));
    crate::wire::lemma_be_digits_of_value(s.subrange(7 + 2 * k, 9 + 2 * k));
}

/// The numbers of the categories on the wire.
pub proof fn lemma_category_numbers(n: u8)
    ensures
        category_number(ChannelBCategory::Command) == 0,
        category_number(ChannelBCategory::Telemetry) == 1,
        category_number(ChannelBCategory::Haptic) == 2,
        category_of(1) == ChannelBCategory::Telemetry,
        category_of(2) == ChannelBCategory::Haptic,
        n != 1 && n != 2 ==> category_of(n) == ChannelBCategory::Command,
{
}

/// Where the parts of a frame are, by the places of the message's table.
pub proof fn lemma_places_of_a_frame(s: Seq<u8>)
    ensures
        ({
            let t = crate::fb::root(s);
            &&& frame_in(s).timestamp == crate::fb::scalar(s, t, 4, 8, 0) as u64
            &&& frame_in(s).seq == crate::fb::scalar(s, t, 6, 8, 0) as u64
            &&& frame_in(s).tick_id == crate::fb::scalar(s, t, 8, 4, 0) as u32
            &&& crate::fb::scalar(s, t, 10, 1, 0) as u8 == 1 ==> frame_in(s).category
                == ChannelBCategory::Telemetry
            &&& frame_in(s).region_id == crate::fb::scalar(s, t, 12, 1, 0) as u8
            &&& frame_in(s).fields == crate::fb::byte_vector(s, t, 14)
        }),
{
}

} // verus!
