//! Recorded segments as lines of comma-separated values, one line a record.

use vstd::prelude::*;
use crate::action_trigger::ActionTrigger;
use crate::action_trigger_handler;
use crate::action_trigger_handler::decode_action_trigger;
use crate::camera_control::CameraControl;
use crate::camera_control_handler;
use crate::camera_control_handler::decode_camera_control;
use crate::channel_b;
use crate::channel_b::{TelemetryData, TeleopCommand};
use crate::fb;
use crate::fb::{fb_get_bytes, fb_get_u32, fb_get_u64, fb_get_u8, fb_root};
use crate::fb_table::{check_bytes, check_root, check_scalar};
use crate::recording;
use crate::recording::{decode_records, RecordHeader};
use crate::text;
use crate::text::{
    push_decimal, push_hex_byte, push_hundredths, push_joined, push_signed_decimal, same_text,
};
use crate::wire;
use crate::wire::read_le;

verus! {

/// What a segment holds.
#[derive(Debug, Clone, Copy, PartialEq, Eq, Structural)]
pub enum Dump {
    Command,
    Telemetry,
    Haptic,
    KeyPress,
    /// Action triggers and camera controls, which are recorded together.
    ActionTrigger,
}

pub open spec fn dump_name(dump: Dump) -> Seq<char> {
    match dump {
        Dump::Command => "command"@,
        Dump::Telemetry => "telemetry"@,
        Dump::Haptic => "haptic"@,
        Dump::KeyPress => "key-press"@,
        Dump::ActionTrigger => "action-trigger"@,
    }
}

/// The kind of segment with this name.
pub fn parse_dump(name: &str) -> (r: Option<Dump>)
    ensures
        match r {
            Some(dump) => name@ == dump_name(dump),
            None => forall|dump: Dump| name@ != #[trigger] dump_name(dump),
        },
{
    if same_text(name, "command") {
        Some(Dump::Command)
    } else if same_text(name, "telemetry") {
        Some(Dump::Telemetry)
    } else if same_text(name, "haptic") {
        Some(Dump::Haptic)
    } else if same_text(name, "key-press") {
        Some(Dump::KeyPress)
    } else if same_text(name, "action-trigger") {
        Some(Dump::ActionTrigger)
    } else {
        None
    }
}

pub open spec fn columns(dump: Dump) -> Seq<char> {
    match dump {
        Dump::Command => "capture_us,arm_x,arm_z,claw"@,
        Dump::Telemetry => "capture_us,seq,tick_id,region_id,battery,roll,pitch,yaw,motors"@,
        Dump::Haptic => "capture_us,seq,tick_id,region_id,fields_hex"@,
        Dump::KeyPress => "capture_us,input"@,
        Dump::ActionTrigger => "capture_us,kind,action_id,trigger_seq,brightness,contrast,ev,shutter_us,control_seq"@,
    }
}

/// The first line.
pub fn header_line(dump: Dump) -> (s: &'static str)
    ensures
        s@ == columns(dump),
{
    match dump {
        Dump::Command => "capture_us,arm_x,arm_z,claw",
        Dump::Telemetry => "capture_us,seq,tick_id,region_id,battery,roll,pitch,yaw,motors",
        Dump::Haptic => "capture_us,seq,tick_id,region_id,fields_hex",
        Dump::KeyPress => "capture_us,input",
        Dump::ActionTrigger => {
            "capture_us,kind,action_id,trigger_seq,brightness,contrast,ev,shutter_us,control_seq"
        },
    }
}

// Fields of free text.

/// Must a field be quoted?
pub open spec fn needs_quotes(s: Seq<char>) -> bool {
    s.contains(',') || s.contains('"') || s.contains('\n')
}

/// A text with every quote doubled.
pub open spec fn doubled(s: Seq<char>) -> Seq<char>
    decreases s.len(),
{
    if s.len() == 0 {
        Seq::empty()
    } else {
        doubled(s.drop_last()) + (if s.last() == '"' {
            seq!['"', '"']
        } else {
            seq![s.last()]
        })
    }
}

/// A field as it is written.
pub open spec fn field(s: Seq<char>) -> Seq<char> {
    if needs_quotes(s) {
        seq!['"'] + doubled(s) + seq!['"']
    } else {
        s
    }
}

fn is_special(s: &str) -> (b: bool)
    ensures
        b == needs_quotes(s@),
{
    let n: usize = s.unicode_len();
    let mut i: usize = 0;
    while i < n
        invariant
            i <= n,
            n == s@.len(),
            forall|k: int| 0 <= k < i ==> s@[k] != ',' && s@[k] != '"' && s@[k] != '\n',
        decreases n - i,
    {
        let c: char = s.get_char(i);
        if c == ',' || c == '"' || c == '\n' {
            proof {
                assert(s@[i as int] == c);
            }
            return true;
        }
        i = i + 1;
    }
    false
}

/// A field of free text: quoted, with its own quotes doubled, if it holds a
/// comma, a quote or a line break.
pub fn csv_field(s: &str) -> (out: String)
    ensures
        out@ == field(s@),
{
    if !is_special(s) {
        return String::from_str(s);
    }
    proof {
        reveal_strlit("\"");
        reveal_strlit("\"\"");
        assert("\""@ =~= seq!['"']);
        assert("\"\""@ =~= seq!['"', '"']);
    }
    let n: usize = s.unicode_len();
    let mut out = String::from_str("\"");
    let mut i: usize = 0;
    proof {
        assert(s@.subrange(0, 0) =~= Seq::empty());
        assert(out@ =~= seq!['"'] + doubled(s@.subrange(0, 0)));
    }
    while i < n
        invariant
            i <= n,
            n == s@.len(),
            "\"\""@ == seq!['"', '"'],
            out@ == seq!['"'] + doubled(s@.subrange(0, i as int)),
        decreases n - i,
    {
        let c: char = s.get_char(i);
        proof {
            let t = s@.subrange(0, i + 1);
            assert(t.drop_last() =~= s@.subrange(0, i as int));
            assert(t.last() == c);
        }
        if c == '"' {
            out.append("\"\"");
        } else {
            let one: &str = s.substring_char(i, i + 1);
            proof {
                assert(one@ =~= seq![c]);
            }
            out.append(one);
        }
        i = i + 1;
        proof {
            assert(out@ =~= seq!['"'] + doubled(s@.subrange(0, i as int)));
        }
    }
    out.append("\"");
    proof {
        assert(s@.subrange(0, n as int) =~= s@);
    }
    out
}

/// What a reader takes out of the inside of a quoted field: of two quotes, one.
pub open spec fn halved(s: Seq<char>) -> Seq<char>
    decreases s.len(),
{
    if s.len() == 0 {
        Seq::empty()
    } else if s.len() >= 2 && s[0] == '"' && s[1] == '"' {
        seq!['"'] + halved(s.subrange(2, s.len() as int))
    } else {
        seq![s[0]] + halved(s.subrange(1, s.len() as int))
    }
}

/// What a reader takes out of a field.
pub open spec fn field_value(f: Seq<char>) -> Seq<char> {
    if f.len() >= 2 && f[0] == '"' {
        halved(f.subrange(1, f.len() - 1))
    } else {
        f
    }
}

/// A field reads as what was written, whatever it holds.
pub proof fn lemma_field_round_trip(s: Seq<char>)
    ensures
        field_value(field(s)) == s,
{
    if needs_quotes(s) {
        let f = field(s);
        assert(f.subrange(1, f.len() - 1) =~= doubled(s));
        lemma_halved(s);
    } else if s.len() > 0 {
        assert(s[0] != '"') by {
            if s[0] == '"' {
                assert(s.contains('"'));
            }
        }
    }
}

proof fn lemma_halved(s: Seq<char>)
    ensures
        halved(doubled(s)) == s,
    decreases s.len(),
{
    if s.len() > 0 {
        lemma_doubled_front(s);
        let rest = s.subrange(1, s.len() as int);
        lemma_halved(rest);
        let d = doubled(s);
        if s[0] == '"' {
            assert(d.subrange(2, d.len() as int) =~= doubled(rest));
        } else {
            assert(d.subrange(1, d.len() as int) =~= doubled(rest));
        }
        assert(s =~= seq![s[0]] + rest);
    }
}

proof fn lemma_doubled_front(s: Seq<char>)
    requires
        s.len() > 0,
    ensures
        doubled(s) == (if s[0] == '"' {
            seq!['"', '"']
        } else {
            seq![s[0]]
        }) + doubled(s.subrange(1, s.len() as int)),
    decreases s.len(),
{
    let front = if s[0] == '"' {
        seq!['"', '"']
    } else {
        seq![s[0]]
    };
    let rest = s.subrange(1, s.len() as int);
    if s.len() == 1 {
        assert(s.drop_last() =~= Seq::<char>::empty());
        assert(rest =~= Seq::<char>::empty());
        assert(doubled(s) =~= front + doubled(rest));
    } else {
        lemma_doubled_front(s.drop_last());
        assert(s.drop_last().subrange(1, s.len() - 1) =~= rest.drop_last());
        assert(doubled(s) =~= front + doubled(rest));
    }
}

// Lines.

/// The number under which a frame gives its category.
pub open spec fn category_byte(s: Seq<u8>) -> nat {
    fb::scalar(s, fb::root(s), 10, 1, 0)
}

/// Is there a frame of the category with this number in `s`, as far as its
/// category and its fields tell?
pub open spec fn holds_frame(s: Seq<u8>, category: u8) -> bool {
    &&& fb::root_ok(s)
    &&& fb::scalar_ok(s, fb::root(s), 10, 1)
    &&& category_byte(s) == category
    &&& fb::bytes_ok(s, fb::root(s), 14)
}

/// Can the numbers that a line about a frame starts with be read?
pub open spec fn head_ok(s: Seq<u8>) -> bool {
    let t = fb::root(s);
    &&& fb::scalar_ok(s, t, 6, 8)
    &&& fb::scalar_ok(s, t, 8, 4)
    &&& fb::scalar_ok(s, t, 12, 1)
}

/// The fields of the frame in `s`.
pub open spec fn fields_in(s: Seq<u8>) -> Seq<u8> {
    fb::byte_vector(s, fb::root(s), 14)
}

/// Reads the fields of a frame of one category.
fn fields_of(payload: &[u8], category: u8) -> (r: Option<Vec<u8>>)
    ensures
        match r {
            Some(fields) => holds_frame(payload@, category) && fields@ == fields_in(payload@),
            None => !holds_frame(payload@, category),
        },
{
    if !check_root(payload) {
        return None;
    }
    let t: usize = fb_root(payload);
    if !check_scalar(payload, t, 10, 1) {
        return None;
    }
    if fb_get_u8(payload, t, 10, 0) != category || !check_bytes(payload, t, 14) {
        return None;
    }
    let fields: Vec<u8> = match fb_get_bytes(payload, t, 14) {
        Some(v) => v,
        None => Vec::new(),
    };
    proof {
        assert(fields@ =~= fields_in(payload@));
    }
    Some(fields)
}

/// The arm part of a command, if `s` holds one.
pub open spec fn command_row(capture_us: u64, s: Seq<u8>) -> Option<Seq<char>> {
    let fields = fields_in(s);
    if holds_frame(s, 0) && fields.len() >= 20 {
        let cmd = TeleopCommand::of_bytes(fields);
        Some(
            text::decimal(capture_us as nat) + ","@ + text::signed_decimal(cmd.arm_x as int) + ","@
                + text::signed_decimal(cmd.arm_z as int) + ","@ + text::decimal(cmd.claw as nat),
        )
    } else {
        None
    }
}

fn comma(out: &mut String)
    ensures
        final(out)@ == old(out)@ + ","@,
{
    out.append(",")
}

fn decimal_of(n: u64) -> (s: String)
    ensures
        s@ == text::decimal(n as nat),
{
    let mut s = String::new();
    push_decimal(&mut s, n);
    proof {
        assert(s@ =~= text::decimal(n as nat));
    }
    s
}

fn decode_command(capture_us: u64, payload: &[u8]) -> (r: Option<String>)
    ensures
        match r {
            Some(line) => command_row(capture_us, payload@) == Some(line@),
            None => command_row(capture_us, payload@) is None,
        },
{
    let fields = match fields_of(payload, 0) {
        Some(f) => f,
        None => {
            return None;
        },
    };
    let cmd = match TeleopCommand::unpack(fields.as_slice()) {
        Some(c) => c,
        None => {
            return None;
        },
    };
    let mut line = decimal_of(capture_us);
    comma(&mut line);
    push_signed_decimal(&mut line, cmd.arm_x as i64);
    comma(&mut line);
    push_signed_decimal(&mut line, cmd.arm_z as i64);
    comma(&mut line);
    push_decimal(&mut line, cmd.claw as u64);
    Some(line)
}

/// What every line about the frame in `s` starts with.
pub open spec fn frame_head(capture_us: u64, s: Seq<u8>) -> Seq<char> {
    let t = fb::root(s);
    text::decimal(capture_us as nat) + ","@ + text::decimal(fb::scalar(s, t, 6, 8, 0)) + ","@
        + text::decimal(fb::scalar(s, t, 8, 4, 0)) + ","@ + text::decimal(
        fb::scalar(s, t, 12, 1, 0),
    ) + ","@
}

fn frame_start(capture_us: u64, payload: &[u8]) -> (r: Option<String>)
    requires
        fb::root_ok(payload@),
    ensures
        match r {
            Some(line) => head_ok(payload@) && line@ == frame_head(capture_us, payload@),
            None => !head_ok(payload@),
        },
{
    let t: usize = fb_root(payload);
    if !(check_scalar(payload, t, 6, 8) && check_scalar(payload, t, 8, 4) && check_scalar(
        payload,
        t,
        12,
        1,
    )) {
        return None;
    }
    let mut line = decimal_of(capture_us);
    comma(&mut line);
    push_decimal(&mut line, fb_get_u64(payload, t, 6, 0));
    comma(&mut line);
    push_decimal(&mut line, fb_get_u32(payload, t, 8, 0) as u64);
    comma(&mut line);
    push_decimal(&mut line, fb_get_u8(payload, t, 12, 0) as u64);
    comma(&mut line);
    Some(line)
}

/// Angles, one behind the other.
pub open spec fn angle_texts(angles: Seq<i16>) -> Seq<Seq<char>> {
    Seq::new(angles.len(), |i: int| text::hundredths_text(angles[i] as int))
}

/// The telemetry in `s`, if it holds any: however many joints there are, their
/// angles share the last column.
pub open spec fn telemetry_row(capture_us: u64, s: Seq<u8>) -> Option<Seq<char>> {
    let fields = fields_in(s);
    if holds_frame(s, 1) && channel_b::telemetry_len_ok(fields.len()) && head_ok(s) {
        let angles = Seq::new(
            ((fields.len() - channel_b::TELEMETRY_HEADER_LEN) / 2) as nat,
            |k: int| channel_b::angle_at(fields, 7 + 2 * k),
        );
        Some(
            frame_head(capture_us, s) + text::decimal(fields[0] as nat) + ","@
                + text::hundredths_text(channel_b::angle_at(fields, 1) as int) + ","@
                + text::hundredths_text(channel_b::angle_at(fields, 3) as int) + ","@
                + text::hundredths_text(channel_b::angle_at(fields, 5) as int) + ","@
                + text::joined(angle_texts(angles), ";"@),
        )
    } else {
        None
    }
}

fn angle_strings(angles: &Vec<i16>) -> (out: Vec<String>)
    ensures
        text::texts(out@) == angle_texts(angles@),
{
    let mut out: Vec<String> = Vec::new();
    let mut i: usize = 0;
    while i < angles.len()
        invariant
            i <= angles@.len(),
            out@.len() == i,
            forall|k: int|
                0 <= k < i ==> (#[trigger] out@[k])@ == text::hundredths_text(angles@[k] as int),
        decreases angles@.len() - i,
    {
        let mut s = String::new();
        push_hundredths(&mut s, angles[i]);
        proof {
            assert(s@ =~= text::hundredths_text(angles@[i as int] as int));
        }
        out.push(s);
        i = i + 1;
    }
    proof {
        assert(text::texts(out@) =~= angle_texts(angles@));
    }
    out
}

fn decode_telemetry(capture_us: u64, payload: &[u8]) -> (r: Option<String>)
    ensures
        match r {
            Some(line) => telemetry_row(capture_us, payload@) == Some(line@),
            None => telemetry_row(capture_us, payload@) is None,
        },
{
    let fields = match fields_of(payload, 1) {
        Some(f) => f,
        None => {
            return None;
        },
    };
    let t = match TelemetryData::unpack(fields.as_slice()) {
        Some(t) => t,
        None => {
            return None;
        },
    };
    let mut line = match frame_start(capture_us, payload) {
        Some(line) => line,
        None => {
            return None;
        },
    };
    push_decimal(&mut line, t.battery as u64);
    comma(&mut line);
    push_hundredths(&mut line, t.roll);
    comma(&mut line);
    push_hundredths(&mut line, t.pitch);
    comma(&mut line);
    push_hundredths(&mut line, t.yaw);
    comma(&mut line);
    push_joined(&mut line, &angle_strings(&t.motors), ";");
    Some(line)
}

/// Bytes in hexadecimal.
pub open spec fn hex(bytes: Seq<u8>) -> Seq<char>
    decreases bytes.len(),
{
    if bytes.len() == 0 {
        Seq::empty()
    } else {
        hex(bytes.drop_last()) + text::hex_byte(bytes.last())
    }
}

fn push_hex(out: &mut String, bytes: &[u8])
    ensures
        final(out)@ == old(out)@ + hex(bytes@),
{
    let n: usize = bytes.len();
    let mut i: usize = 0;
    proof {
        assert(out@ =~= old(out)@ + hex(bytes@.take(0)));
    }
    while i < n
        invariant
            i <= n,
            n == bytes@.len(),
            out@ == old(out)@ + hex(bytes@.take(i as int)),
        decreases n - i,
    {
        push_hex_byte(out, bytes[i]);
        proof {
            let more = bytes@.take(i + 1);
            assert(more.drop_last() =~= bytes@.take(i as int));
            assert(more.last() == bytes@[i as int]);
            assert(out@ =~= old(out)@ + hex(more));
        }
        i = i + 1;
    }
    proof {
        assert(bytes@.take(n as int) =~= bytes@);
    }
}

/// The force-feedback frame in `s`, if it holds one; nothing is known of what
/// its fields mean.
pub open spec fn haptic_row(capture_us: u64, s: Seq<u8>) -> Option<Seq<char>> {
    if holds_frame(s, 2) && head_ok(s) {
        Some(frame_head(capture_us, s) + hex(fields_in(s)))
    } else {
        None
    }
}

fn decode_haptic(capture_us: u64, payload: &[u8]) -> (r: Option<String>)
    ensures
        match r {
            Some(line) => haptic_row(capture_us, payload@) == Some(line@),
            None => haptic_row(capture_us, payload@) is None,
        },
{
    let fields = match fields_of(payload, 2) {
        Some(f) => f,
        None => {
            return None;
        },
    };
    let mut line = match frame_start(capture_us, payload) {
        Some(line) => line,
        None => {
            return None;
        },
    };
    push_hex(&mut line, fields.as_slice());
    Some(line)
}

/// The text that bytes stand for, with a replacement character for what is not
/// text.
pub uninterp spec fn lossy_text(bytes: Seq<u8>) -> Seq<char>;

/// `String::from_utf8_lossy`: well-formed UTF-8 comes out as the text that it
/// encodes. Which replacement characters stand for ill-formed bytes is left to
/// the name of the result.
#[verifier::external_body]
fn from_utf8_lossy(bytes: &[u8]) -> (s: String)
    ensures
        s@ == lossy_text(bytes@),
        vstd::utf8::valid_utf8(bytes@) ==> s@ == vstd::utf8::decode_utf8(bytes@),
{
    String::from_utf8_lossy(bytes).into_owned()
}

/// The line about a key press.
pub open spec fn key_press_row(capture_us: u64, input: Seq<char>) -> Seq<char> {
    text::decimal(capture_us as nat) + ","@ + field(input)
}

/// The line about a key press with this text.
pub fn key_press_line(capture_us: u64, input: &str) -> (line: String)
    ensures
        line@ == key_press_row(capture_us, input@),
{
    let mut line = decimal_of(capture_us);
    comma(&mut line);
    line.append(csv_field(input).as_str());
    line
}

/// Where the vtable of the root table is, if the root lies inside `s`.
pub open spec fn root_vtable(s: Seq<u8>) -> Option<int> {
    if s.len() < 4 || fb::root(s) + 4 > s.len() || fb::vtable_loc(s, fb::root(s)) < 0 {
        None
    } else {
        Some(fb::vtable_loc(s, fb::root(s)))
    }
}

/// The size of the root table's vtable; `None` if it does not lie inside `s`.
pub open spec fn root_vtable_size(s: Seq<u8>) -> Option<u16> {
    match root_vtable(s) {
        Some(v) if v + 2 <= s.len() => Some(fb::uint_at(s, v, 2) as u16),
        _ => None,
    }
}

/// Reads the size of the root table's vtable.
pub fn flatbuffers_vtable_size(payload: &[u8]) -> (r: Option<u16>)
    ensures
        r == root_vtable_size(payload@),
{
    proof {
        reveal(fb::uint_at);
        wire::lemma_pow256_widths();
    }
    let len: usize = payload.len();
    if len < 4 {
        return None;
    }
    let root: usize = read_le(payload, 0, 4) as usize;
    if len - 4 < root {
        return None;
    }
    let back: u64 = read_le(payload, root, 4);
    let soffset: i64 = if back >= 0x8000_0000 {
        back as i64 - 0x1_0000_0000
    } else {
        back as i64
    };
    let at: i64 = root as i64 - soffset;
    if at < 0 {
        return None;
    }
    if at as u64 > (len - 2) as u64 {
        return None;
    }
    Some(read_le(payload, at as usize, 2) as u16)
}

/// Does the message in `s` have room for more fields than a trigger has? Then
/// it is a camera control. Its values could not tell: a field that is not there
/// reads as zero.
pub open spec fn is_camera(s: Seq<u8>) -> bool {
    root_vtable_size(s) matches Some(n) && n > 10
}

/// A message of the reliable command streams.
#[derive(Debug, Clone, Copy, PartialEq, Eq, Structural)]
pub enum Reliable {
    Trigger(ActionTrigger),
    Camera(CameraControl),
}

/// The message in `s`, if it can be read.
pub open spec fn reliable_in(s: Seq<u8>) -> Option<Reliable> {
    if is_camera(s) {
        if camera_control_handler::control_ok(s) {
            Some(Reliable::Camera(camera_control_handler::control_in(s)))
        } else {
            None
        }
    } else if action_trigger_handler::trigger_ok(s) {
        Some(Reliable::Trigger(action_trigger_handler::trigger_in(s)))
    } else {
        None
    }
}

/// Reads a message that is either of two kinds.
pub fn decode_reliable(payload: &[u8]) -> (r: Option<Reliable>)
    ensures
        r == reliable_in(payload@),
{
    let camera = match flatbuffers_vtable_size(payload) {
        Some(n) => n > 10,
        None => false,
    };
    if camera {
        match decode_camera_control(payload) {
            Ok(c) => Some(Reliable::Camera(c)),
            Err(_) => None,
        }
    } else {
        match decode_action_trigger(payload) {
            Ok(t) => Some(Reliable::Trigger(t)),
            Err(_) => None,
        }
    }
}

/// Both kinds of message come back as what they were: a camera control with a
/// number, which every control that was sent has, and a trigger, whose vtable
/// has no room for more than its two fields.
pub proof fn lemma_told_apart(s: Seq<u8>)
    ensures
        camera_control_handler::control_ok(s) && camera_control_handler::control_in(s).control_seq
            != 0 ==> reliable_in(s) == Some(
            Reliable::Camera(camera_control_handler::control_in(s)),
        ),
        action_trigger_handler::trigger_ok(s) && fb::vtable_size(s, fb::root(s)) <= 8
            ==> reliable_in(s) == Some(Reliable::Trigger(action_trigger_handler::trigger_in(s))),
{
    reveal(fb::uint_at);
    if fb::root_ok(s) {
        let v = fb::vtable_loc(s, fb::root(s));
        wire::lemma_pow256_widths();
        wire::lemma_le_value_bound(s.subrange(v, v + 2));
    }
}

pub open spec fn trigger_row(capture_us: u64, t: ActionTrigger) -> Seq<char> {
    text::decimal(capture_us as nat) + ",action_trigger,"@ + text::decimal(t.action_id as nat)
        + ","@ + text::decimal(t.trigger_seq as nat) + ",,,,,"@
}

/// The line about a camera control; the real-valued settings are given as text.
pub open spec fn camera_row(
    capture_us: u64,
    c: CameraControl,
    brightness: Seq<char>,
    contrast: Seq<char>,
    ev: Seq<char>,
) -> Seq<char> {
    text::decimal(capture_us as nat) + ",camera_control,,,"@ + brightness + ","@ + contrast + ","@
        + ev + ","@ + text::decimal(c.shutter_us as nat) + ","@ + text::decimal(
        c.control_seq as nat,
    )
}

fn trigger_line(capture_us: u64, t: &ActionTrigger) -> (line: String)
    ensures
        line@ == trigger_row(capture_us, *t),
{
    let mut line = decimal_of(capture_us);
    line.append(",action_trigger,");
    push_decimal(&mut line, t.action_id as u64);
    comma(&mut line);
    push_decimal(&mut line, t.trigger_seq);
    line.append(",,,,,");
    line
}

/// The line about a camera control.
pub fn camera_line(
    capture_us: u64,
    control: &CameraControl,
    brightness: &str,
    contrast: &str,
    ev: &str,
) -> (line: String)
    ensures
        line@ == camera_row(capture_us, *control, brightness@, contrast@, ev@),
{
    let mut line = decimal_of(capture_us);
    line.append(",camera_control,,,");
    line.append(brightness);
    comma(&mut line);
    line.append(contrast);
    comma(&mut line);
    line.append(ev);
    comma(&mut line);
    push_decimal(&mut line, control.shutter_us as u64);
    comma(&mut line);
    push_decimal(&mut line, control.control_seq);
    line
}

/// What is printed for a record.
#[derive(Debug)]
pub enum Row {
    Line(String),
    /// A camera control, whose real-valued settings have yet to be put in text.
    Camera { capture_us: u64, control: CameraControl },
}

/// A row as a mathematical value.
pub enum RowView {
    Line(Seq<char>),
    Camera { capture_us: u64, control: CameraControl },
}

impl View for Row {
    type V = RowView;

    open spec fn view(&self) -> RowView {
        match *self {
            Row::Line(line) => RowView::Line(line@),
            Row::Camera { capture_us, control } => RowView::Camera { capture_us, control },
        }
    }
}

pub open spec fn as_line(line: Option<Seq<char>>) -> Option<RowView> {
    match line {
        Some(line) => Some(RowView::Line(line)),
        None => None,
    }
}

/// What is printed for a record with this payload; nothing for one that is not
/// what the segment is about, or cannot be read.
pub open spec fn row_of(dump: Dump, header: RecordHeader, s: Seq<u8>) -> Option<RowView> {
    match dump {
        Dump::Command => as_line(command_row(header.capture_us, s)),
        Dump::Telemetry => as_line(telemetry_row(header.capture_us, s)),
        Dump::Haptic => as_line(haptic_row(header.capture_us, s)),
        Dump::KeyPress => Some(
            RowView::Line(key_press_row(header.capture_us, lossy_text(s))),
        ),
        Dump::ActionTrigger => match reliable_in(s) {
            Some(Reliable::Trigger(t)) => Some(RowView::Line(trigger_row(header.capture_us, t))),
            Some(Reliable::Camera(control)) => Some(
                RowView::Camera { capture_us: header.capture_us, control },
            ),
            None => None,
        },
    }
}

fn line_row(line: Option<String>) -> (row: Option<Row>)
    ensures
        match (line, row) {
            (Some(l), Some(r)) => r@ == RowView::Line(l@),
            (None, None) => true,
            _ => false,
        },
{
    match line {
        Some(l) => Some(Row::Line(l)),
        None => None,
    }
}

/// What is printed for a record. A recorded key press comes out as the text
/// that was recorded.
pub fn decode_record(dump: Dump, header: &RecordHeader, payload: &[u8]) -> (row: Option<Row>)
    ensures
        match row {
            Some(r) => row_of(dump, *header, payload@) == Some(r@),
            None => row_of(dump, *header, payload@) is None,
        },
        dump == Dump::KeyPress && vstd::utf8::valid_utf8(payload@) ==> (row matches Some(r) && r@
            == RowView::Line(
            key_press_row(header.capture_us, vstd::utf8::decode_utf8(payload@)),
        )),
{
    let at: u64 = header.capture_us;
    match dump {
        Dump::Command => line_row(decode_command(at, payload)),
        Dump::Telemetry => line_row(decode_telemetry(at, payload)),
        Dump::Haptic => line_row(decode_haptic(at, payload)),
        Dump::KeyPress => {
            let input = from_utf8_lossy(payload);
            Some(Row::Line(key_press_line(at, input.as_str())))
        },
        Dump::ActionTrigger => match decode_reliable(payload) {
            Some(Reliable::Trigger(t)) => Some(Row::Line(trigger_line(at, &t))),
            Some(Reliable::Camera(control)) => Some(Row::Camera { capture_us: at, control }),
            None => None,
        },
    }
}

/// What is printed for records one behind the other.
pub open spec fn rows_of(dump: Dump, records: Seq<(RecordHeader, Seq<u8>)>) -> Seq<RowView>
    decreases records.len(),
{
    if records.len() == 0 {
        Seq::empty()
    } else {
        let before = rows_of(dump, records.drop_last());
        match row_of(dump, records.last().0, records.last().1) {
            Some(row) => before.push(row),
            None => before,
        }
    }
}

pub open spec fn row_views(rows: Seq<Row>) -> Seq<RowView> {
    Seq::new(rows.len(), |i: int| rows[i]@)
}

/// The rows of a segment, in the order of its records.
pub fn decode_segment(dump: Dump, buf: &[u8]) -> (rows: Vec<Row>)
    ensures
        row_views(rows@) == rows_of(dump, recording::records_in(buf@)),
{
    let records = decode_records(buf);
    let ghost all = recording::records_in(buf@);
    let mut rows: Vec<Row> = Vec::new();
    let n: usize = records.len();
    let mut i: usize = 0;
    proof {
        assert(all.take(0) =~= Seq::empty());
        assert(row_views(rows@) =~= Seq::empty());
    }
    while i < n
        invariant
            i <= n,
            n == records@.len(),
            n == all.len(),
            forall|k: int|
                0 <= k < n ==> (#[trigger] records@[k]).0 == all[k].0 && records@[k].1@ == all[k].1,
            row_views(rows@) == rows_of(dump, all.take(i as int)),
        decreases n - i,
    {
        let ghost before = row_views(rows@);
        proof {
            let more = all.take(i + 1);
            assert(more.drop_last() =~= all.take(i as int));
            assert(more.last() == all[i as int]);
            assert(records@[i as int].0 == all[i as int].0);
        }
        match decode_record(dump, &records[i].0, records[i].1) {
            Some(row) => {
                let ghost v = row@;
                rows.push(row);
                proof {
                    assert(row_views(rows@) =~= before.push(v));
                }
            },
            None => {},
        }
        i = i + 1;
    }
    proof {
        assert(all.take(n as int) =~= all);
    }
    rows
}

/// What is printed of a recorded command: when it came, how far out and how high
/// the arm was sent, and the claw. Frames of other categories, and commands that
/// are too short, give no line.
pub proof fn lemma_command_line(capture_us: u64, s: Seq<u8>)
    ensures
        command_row(capture_us, s) is Some <==> holds_frame(s, 0) && fields_in(s).len() >= 20,
        command_row(capture_us, s) matches Some(line) ==> {
            let cmd = TeleopCommand::of_bytes(fields_in(s));
            line == text::joined(
                seq![
                    text::decimal(capture_us as nat),
                    text::signed_decimal(cmd.arm_x as int),
                    text::signed_decimal(cmd.arm_z as int),
                    text::decimal(cmd.claw as nat),
                ],
                ","@,
            )
        },
{
    if let Some(line) = command_row(capture_us, s) {
        let cmd = TeleopCommand::of_bytes(fields_in(s));
        lemma_four_joined(
            text::decimal(capture_us as nat),
            text::signed_decimal(cmd.arm_x as int),
            text::signed_decimal(cmd.arm_z as int),
            text::decimal(cmd.claw as nat),
        );
    }
}

proof fn lemma_four_joined(a: Seq<char>, b: Seq<char>, c: Seq<char>, d: Seq<char>)
    ensures
        text::joined(seq![a, b, c, d], ","@) == a + ","@ + b + ","@ + c + ","@ + d,
{
    reveal_with_fuel(text::joined, 5);
    let all = seq![a, b, c, d];
    assert(all.drop_last() =~= seq![a, b, c]);
    assert(seq![a, b, c].drop_last() =~= seq![a, b]);
    assert(seq![a, b].drop_last() =~= seq![a]);
}

/// What each kind of line needs: a line of telemetry needs a telemetry frame whose
/// head and fields can be read; a line of force feedback needs such a frame of
/// that category.
pub proof fn lemma_when_there_is_a_line(capture_us: u64, s: Seq<u8>)
    ensures
        telemetry_row(capture_us, s) is Some <==> holds_frame(s, 1) && head_ok(s) && fields_in(
            s,
        ).len() >= 7 && fields_in(s).len() % 2 == 1,
        haptic_row(capture_us, s) is Some <==> holds_frame(s, 2) && head_ok(s),
{
}

/// Bytes in hexadecimal: two digits for each, in order.
pub proof fn lemma_hex_of_bytes(bytes: Seq<u8>, i: int)
    requires
        0 <= i < bytes.len(),
    ensures
        hex(bytes).len() == 2 * bytes.len(),
        hex(bytes).subrange(2 * i, 2 * i + 2) == text::hex_byte(bytes[i]),
    decreases bytes.len(),
{
    let head = bytes.drop_last();
    if head.len() > 0 {
        let j = if i < head.len() {
            i
        } else {
            0
        };
        lemma_hex_of_bytes(head, j);
    } else {
        assert(hex(head) =~= Seq::<char>::empty());
    }
    if i < head.len() {
        assert(hex(bytes).subrange(2 * i, 2 * i + 2) =~= hex(head).subrange(2 * i, 2 * i + 2));
    } else {
        assert(hex(bytes).subrange(2 * i, 2 * i + 2) =~= text::hex_byte(bytes.last()));
    }
}

/// A field is put in quotes exactly where a comma, a quote or a line feed is in
/// it; any other is written as it is.
pub proof fn lemma_quoting(s: Seq<char>)
    ensures
        !s.contains(',') && !s.contains('"') && !s.contains('\n') ==> field(s) == s,
        s.contains(',') || s.contains('"') || s.contains('\n') ==> field(s).len() >= 2 && field(
            s,
        )[0] == '"' && field(s).last() == '"',
{
}

/// What each way of reading a recording is called, and the columns that it gives.
pub proof fn lemma_dumps()
    ensures
        dump_name(Dump::Command) == "command"@,
        dump_name(Dump::Telemetry) == "telemetry"@,
        dump_name(Dump::Haptic) == "haptic"@,
        dump_name(Dump::KeyPress) == "key-press"@,
        dump_name(Dump::ActionTrigger) == "action-trigger"@,
        columns(Dump::Command) == "capture_us,arm_x,arm_z,claw"@,
        columns(Dump::Haptic) == "capture_us,seq,tick_id,region_id,fields_hex"@,
        columns(Dump::KeyPress) == "capture_us,input"@,
{
}

proof fn lemma_scalar_fits(s: Seq<u8>, loc: int, slot: int, width: int)
    requires
        fb::scalar_ok(s, loc, slot, width),
        loc >= 0,
        width >= 0,
    ensures
        fb::scalar(s, loc, slot, width, 0) < crate::wire::pow256(width as nat),
{
    reveal(fb::uint_at);
    let at = loc + fb::field_offset(s, loc, slot);
    if fb::field_offset(s, loc, slot) != 0 {
        let there = s.subrange(at, at + width);
        crate::wire::lemma_le_value_bound(there);
        assert(there.len() == width as nat);
    } else {
        let none = Seq::new(width as nat, |i: int| 0u8);
        crate::wire::lemma_le_value_bound(none);
        assert(none.len() == width as nat);
    }
}

/// A frame's line starts with when it was taken, then its number, its tick and
/// its region, as the frame itself has them.
pub proof fn lemma_frame_columns(capture_us: u64, s: Seq<u8>)
    requires
        crate::channel_b::frame_ok(s),
    ensures
        ({
            let f = crate::channel_b::frame_in(s);
            frame_head(capture_us, s) == text::decimal(capture_us as nat) + ","@ + text::decimal(
                f.seq as nat,
            ) + ","@ + text::decimal(f.tick_id as nat) + ","@ + text::decimal(f.region_id as nat)
                + ","@
        }),
{
    let t = fb::root(s);
    lemma_scalar_fits(s, t, 6, 8);
    lemma_scalar_fits(s, t, 8, 4);
    lemma_scalar_fits(s, t, 12, 1);
    reveal_with_fuel(crate::wire::pow256, 9);
}

/// Every record gives a line of its own, in their order, and one that cannot be
/// read gives none.
pub proof fn lemma_lines_in_order(
    dump: Dump,
    records: Seq<(RecordHeader, Seq<u8>)>,
    record: (RecordHeader, Seq<u8>),
)
    ensures
        row_of(dump, record.0, record.1) matches Some(row) ==> rows_of(dump, records.push(record))
            == rows_of(dump, records).push(row),
        row_of(dump, record.0, record.1) is None ==> rows_of(dump, records.push(record)) == rows_of(
            dump,
            records,
        ),
        rows_of(dump, Seq::empty()).len() == 0,
{
    assert(records.push(record).drop_last() =~= records);
}

} // verus!
