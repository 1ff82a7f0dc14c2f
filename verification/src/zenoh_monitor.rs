//! What a listener on the robot's message bus prints.

use vstd::prelude::*;
use crate::channel_b;
use crate::channel_b::TelemetryData;
use crate::text;
use crate::text::{push_decimal, push_float, push_hex_byte, push_joined};

verus! {

/// Angles, each with one place behind the point.
pub open spec fn angle_texts(angles: Seq<i16>) -> Seq<Seq<char>> {
    Seq::new(angles.len(), |i: int| text::float_text(angles[i] as int, 100, 24))
}

/// A telemetry sample as a line of text.
pub open spec fn telemetry_text(s: Seq<u8>) -> Seq<char> {
    let n = ((s.len() - channel_b::TELEMETRY_HEADER_LEN) / 2) as nat;
    let angles = Seq::new(n, |k: int| channel_b::angle_at(s, 7 + 2 * k));
    "battery="@ + text::decimal(s[0] as nat) + "%  roll="@ + text::float_text(
        channel_b::angle_at(s, 1) as int,
        100,
        24,
    ) + " pitch="@ + text::float_text(channel_b::angle_at(s, 3) as int, 100, 24) + " yaw="@
        + text::float_text(channel_b::angle_at(s, 5) as int, 100, 24) + "  joints["@
        + text::decimal(n) + "]=["@ + text::joined(angle_texts(angles), " "@) + "]"@
}

fn angle_strings(angles: &Vec<i16>) -> (out: Vec<String>)
    ensures
        text::texts(out@) == angle_texts(angles@),
{
    let mut out: Vec<String> = Vec::new();
    let mut i: usize = 0;
    while i < angles.len()
        invariant
            i <= angles@.len(),
            out@.len() == i,
            forall|k: int|
                0 <= k < i ==> (#[trigger] out@[k])@ == text::float_text(angles@[k] as int, 100, 24),
        decreases angles@.len() - i,
    {
        let mut s = String::new();
        push_float(&mut s, angles[i] as i128, 100, 24);
        proof {
            assert(s@ =~= text::float_text(angles@[i as int] as int, 100, 24));
        }
        out.push(s);
        i = i + 1;
    }
    proof {
        assert(text::texts(out@) =~= angle_texts(angles@));
    }
    out
}

/// A telemetry sample as a line of text; `None` if its length is not that of a
/// telemetry sample.
pub fn decode_telemetry(b: &[u8]) -> (r: Option<String>)
    ensures
        match r {
            Some(line) => channel_b::telemetry_len_ok(b@.len()) && line@ == telemetry_text(b@),
            None => !channel_b::telemetry_len_ok(b@.len()),
        },
{
    match TelemetryData::unpack(b) {
        Some(t) => {
            let mut line = String::from_str("battery=");
            push_decimal(&mut line, t.battery as u64);
            line.append("%  roll=");
            push_float(&mut line, t.roll as i128, 100, 24);
            line.append(" pitch=");
            push_float(&mut line, t.pitch as i128, 100, 24);
            line.append(" yaw=");
            push_float(&mut line, t.yaw as i128, 100, 24);
            line.append("  joints[");
            push_decimal(&mut line, t.motors.len() as u64);
            line.append("]=[");
            push_joined(&mut line, &angle_strings(&t.motors), " ");
            line.append("]");
            Some(line)
        },
        None => None,
    }
}

/// What was received on one topic.
#[derive(Debug, Clone, Copy, PartialEq, Eq, Structural)]
pub struct TopicStats {
    pub total: u64,
    /// Since the last summary.
    pub window: u64,
    pub last_bytes: usize,
}

impl Default for TopicStats {
    fn default() -> (s: Self)
        ensures
            s == (TopicStats { total: 0, window: 0, last_bytes: 0 }),
    {
        TopicStats { total: 0, window: 0, last_bytes: 0 }
    }
}

/// One more, as far as that can be counted.
pub open spec fn one_more(n: u64) -> u64 {
    if n == u64::MAX {
        n
    } else {
        (n + 1) as u64
    }
}

impl TopicStats {
    /// Counts a sample; says whether it is the first of its topic.
    pub fn record(&mut self, bytes: usize) -> (first: bool)
        ensures
            first == (old(self).total == 0),
            *final(self) == (TopicStats {
                total: one_more(old(self).total),
                window: one_more(old(self).window),
                last_bytes: bytes,
            }),
    {
        let first = self.total == 0;
        self.total = self.total.saturating_add(1);
        self.window = self.window.saturating_add(1);
        self.last_bytes = bytes;
        first
    }

    /// Starts the count of the next summary; returns the count of this one.
    pub fn take_window(&mut self) -> (n: u64)
        ensures
            n == old(self).window,
            *final(self) == (TopicStats { window: 0, ..*old(self) }),
    {
        let n: u64 = self.window;
        self.window = 0;
        n
    }
}

/// Does `s` end with `tail`?
pub open spec fn ends_with(s: Seq<char>, tail: Seq<char>) -> bool {
    s.len() >= tail.len() && s.subrange(s.len() - tail.len(), s.len() as int) == tail
}

fn is_telemetry(topic: &str) -> (b: bool)
    ensures
        b == ends_with(topic@, "/telemetry"@),
{
    proof {
        reveal_strlit("/telemetry");
    }
    let n: usize = topic.unicode_len();
    if n < 10 {
        return false;
    }
    text::same_text(topic.substring_char(n - 10, n), "/telemetry")
}

/// The first sixteen bytes, in hexadecimal.
pub open spec fn head_text(s: Seq<u8>) -> Seq<char> {
    text::joined(
        Seq::new(
            if s.len() < 16 {
                s.len()
            } else {
                16
            },
            |i: int| text::hex_byte(s[i]),
        ),
        " "@,
    )
}

fn push_head(out: &mut String, payload: &[u8])
    ensures
        final(out)@ == old(out)@ + head_text(payload@),
{
    let n: usize = if payload.len() < 16 {
        payload.len()
    } else {
        16
    };
    let mut parts: Vec<String> = Vec::new();
    let mut i: usize = 0;
    while i < n
        invariant
            i <= n,
            n <= payload@.len(),
            parts@.len() == i,
            forall|k: int| 0 <= k < i ==> (#[trigger] parts@[k])@ == text::hex_byte(payload@[k]),
        decreases n - i,
    {
        let mut s = String::new();
        push_hex_byte(&mut s, payload[i]);
        proof {
            assert(s@ =~= text::hex_byte(payload@[i as int]));
        }
        parts.push(s);
        i = i + 1;
    }
    push_joined(out, &parts, " ");
    proof {
        assert(text::texts(parts@) =~= Seq::new(n as nat, |i: int| text::hex_byte(payload@[i])));
    }
}

/// The beginning of a line about a sample; `stamp` is the time since the start,
/// in seconds.
pub open spec fn sample_head(stamp: Seq<char>, topic: Seq<char>, len: nat) -> Seq<char> {
    "[t+"@ + stamp + "s] "@ + topic + "  "@ + text::decimal(len) + " B  "@
}

/// What is printed for a sample: telemetry always, another topic when it is
/// new, or always if all are asked for.
pub open spec fn sample_text(
    stamp: Seq<char>,
    topic: Seq<char>,
    s: Seq<u8>,
    first: bool,
    all: bool,
) -> Option<Seq<char>> {
    let head = sample_head(stamp, topic, s.len());
    if ends_with(topic, "/telemetry"@) {
        if channel_b::telemetry_len_ok(s.len()) {
            Some(head + telemetry_text(s))
        } else {
            Some(head + "(unrecognized telemetry layout)"@)
        }
    } else if all {
        Some(head + head_text(s))
    } else if first {
        Some(
            head + head_text(s)
                + "  (new topic; further samples are only counted, use --all to print each)"@,
        )
    } else {
        None
    }
}

/// What is printed for a sample.
pub fn sample_line(stamp: &str, topic: &str, payload: &[u8], first: bool, all: bool) -> (r: Option<
    String,
>)
    ensures
        match r {
            Some(line) => sample_text(stamp@, topic@, payload@, first, all) == Some(line@),
            None => sample_text(stamp@, topic@, payload@, first, all) is None,
        },
{
    let telemetry = is_telemetry(topic);
    if !telemetry && !all && !first {
        return None;
    }
    let mut line = String::from_str("[t+");
    line.append(stamp);
    line.append("s] ");
    line.append(topic);
    line.append("  ");
    push_decimal(&mut line, payload.len() as u64);
    line.append(" B  ");
    if telemetry {
        match decode_telemetry(payload) {
            Some(t) => line.append(t.as_str()),
            None => line.append("(unrecognized telemetry layout)"),
        }
    } else {
        push_head(&mut line, payload);
        if !all {
            line.append(
                "  (new topic; further samples are only counted, use --all to print each)",
            );
        }
    }
    Some(line)
}

/// What stands behind the last slash.
pub open spec fn last_segment(s: Seq<char>) -> Seq<char>
    decreases s.len(),
{
    if s.len() == 0 || s.last() == '/' {
        Seq::empty()
    } else {
        last_segment(s.drop_last()).push(s.last())
    }
}

fn push_last_segment(out: &mut String, key: &str)
    ensures
        final(out)@ == old(out)@ + last_segment(key@),
{
    let n: usize = key.unicode_len();
    let mut from: usize = n;
    proof {
        assert(key@.subrange(0, n as int) =~= key@);
        assert(key@.subrange(n as int, n as int) =~= Seq::empty());
        assert(last_segment(key@) =~= last_segment(key@.subrange(0, n as int)) + Seq::empty());
    }
    while from > 0
        invariant_except_break
            from <= n,
            n == key@.len(),
            last_segment(key@) == last_segment(key@.subrange(0, from as int)) + key@.subrange(
                from as int,
                n as int,
            ),
        ensures
            from <= n,
            last_segment(key@) == key@.subrange(from as int, n as int),
        decreases from,
    {
        let c: char = key.get_char(from - 1);
        let ghost head = key@.subrange(0, from as int);
        proof {
            assert(head.last() == c);
            assert(head.drop_last() =~= key@.subrange(0, from - 1));
        }
        if c == '/' {
            proof {
                assert(last_segment(key@) =~= key@.subrange(from as int, n as int));
            }
            break;
        }
        proof {
            assert(last_segment(key@) =~= last_segment(key@.subrange(0, from - 1)) + key@.subrange(
                from - 1,
                n as int,
            ));
        }
        from = from - 1;
        proof {
            if from == 0 {
                assert(key@.subrange(0, 0) =~= Seq::empty());
                assert(last_segment(key@) =~= key@.subrange(0, n as int));
            }
        }
    }
    out.append(key.substring_char(from, n));
}

/// What a summary says of one topic; `rate` is in samples a second.
pub fn summary_part(key: &str, rate: &str, total: u64) -> (part: String)
    ensures
        part@ == last_segment(key@) + " "@ + rate@ + "/s ("@ + text::decimal(total as nat)
            + " total)"@,
{
    let mut part = String::new();
    push_last_segment(&mut part, key);
    proof {
        assert(part@ =~= last_segment(key@));
    }
    part.append(" ");
    part.append(rate);
    part.append("/s (");
    push_decimal(&mut part, total);
    part.append(" total)");
    part
}

/// A summary of what was received.
pub open spec fn summary_text(stamp: Seq<char>, peers: nat, parts: Seq<Seq<char>>) -> Seq<char> {
    "[t+"@ + stamp + "s] peers="@ + text::decimal(peers) + "  "@ + (if parts.len() == 0 {
        "no samples yet"@
    } else {
        text::joined(parts, " | "@)
    }) + (if peers == 0 {
        "  -- NO PEERS: check the robot IP/port and that robot-edge is the BabyROS build"@
    } else {
        Seq::empty()
    })
}

/// A summary of what was received.
pub fn summary_line(stamp: &str, peers: u64, parts: &Vec<String>) -> (line: String)
    ensures
        line@ == summary_text(stamp@, peers as nat, text::texts(parts@)),
{
    let mut line = String::from_str("[t+");
    line.append(stamp);
    line.append("s] peers=");
    push_decimal(&mut line, peers);
    line.append("  ");
    if parts.len() == 0 {
        line.append("no samples yet");
    } else {
        push_joined(&mut line, parts, " | ");
    }
    if peers == 0 {
        line.append(
            "  -- NO PEERS: check the robot IP/port and that robot-edge is the BabyROS build",
        );
    }
    proof {
        assert(line@ =~= summary_text(stamp@, peers as nat, text::texts(parts@)));
    }
    line
}

/// What is said of a topic at the end.
pub fn totals_line(key: &str, stats: &TopicStats) -> (line: String)
    ensures
        line@ == "  "@ + key@ + ": "@ + text::decimal(stats.total as nat) + " samples (last "@
            + text::decimal(stats.last_bytes as nat) + " B)"@,
{
    let mut line = String::from_str("  ");
    line.append(key);
    line.append(": ");
    push_decimal(&mut line, stats.total);
    line.append(" samples (last ");
    push_decimal(&mut line, stats.last_bytes as u64);
    line.append(" B)");
    line
}

/// The topics that are listened to by default: all of the robot's.
pub fn default_key(robot_id: &str) -> (key: String)
    ensures
        key@ == "robotele/"@ + robot_id@ + "/**"@,
{
    let mut key = String::from_str("robotele/");
    key.append(robot_id);
    key.append("/**");
    key
}

/// What is printed: every telemetry sample; of another topic the first sample,
/// or every one if all are asked for.
pub proof fn lemma_what_is_printed(
    stamp: Seq<char>,
    topic: Seq<char>,
    s: Seq<u8>,
    first: bool,
    all: bool,
)
    ensures
        sample_text(stamp, topic, s, first, all) is Some <==> ends_with(topic, "/telemetry"@) || all
            || first,
        ends_with(topic, "/telemetry"@) && s.len() >= 7 && s.len() % 2 == 1 ==> sample_text(
            stamp,
            topic,
            s,
            first,
            all,
        ) == Some(sample_head(stamp, topic, s.len()) + telemetry_text(s)),
{
}

/// The last part of a topic has no slash in it, and all of the topic's end stands
/// in it.
pub proof fn lemma_last_part(s: Seq<char>)
    ensures
        last_segment(s).len() <= s.len(),
        s.subrange(s.len() - last_segment(s).len(), s.len() as int) == last_segment(s),
        forall|i: int| 0 <= i < last_segment(s).len() ==> last_segment(s)[i] != '/',
        last_segment(s).len() < s.len() ==> s[s.len() - last_segment(s).len() - 1] == '/',
    decreases s.len(),
{
    if s.len() > 0 && s.last() != '/' {
        lemma_last_part(s.drop_last());
        let t = last_segment(s.drop_last());
        assert(s.subrange(s.len() - last_segment(s).len(), s.len() as int) =~= t.push(s.last()));
    } else {
        assert(s.subrange(s.len() as int, s.len() as int) =~= Seq::<char>::empty());
    }
}

/// At most the first sixteen bytes are printed, two digits each; what follows them
/// does not count.
pub proof fn lemma_head(s: Seq<u8>, rest: Seq<u8>)
    ensures
        s.len() >= 16 ==> head_text(s + rest) == head_text(s),
        s.len() == 1 ==> head_text(s) == text::hex_byte(s[0]),
{
    if s.len() >= 16 {
        assert(Seq::new(16, |i: int| text::hex_byte((s + rest)[i])) =~= Seq::new(
            16,
            |i: int| text::hex_byte(s[i]),
        ));
    }
}

/// A summary says how many peers there are, and warns where there is none.
pub proof fn lemma_summary(stamp: Seq<char>, peers: nat, parts: Seq<Seq<char>>)
    ensures
        parts.len() == 0 && peers > 0 ==> summary_text(stamp, peers, parts) == "[t+"@ + stamp
            + "s] peers="@ + text::decimal(peers) + "  "@ + "no samples yet"@,
        parts.len() > 0 && peers > 0 ==> summary_text(stamp, peers, parts) == "[t+"@ + stamp
            + "s] peers="@ + text::decimal(peers) + "  "@ + text::joined(parts, " | "@),
        parts.len() > 0 ==> summary_text(stamp, 0, parts) == "[t+"@ + stamp + "s] peers="@
            + text::decimal(0) + "  "@ + text::joined(parts, " | "@)
            + "  -- NO PEERS: check the robot IP/port and that robot-edge is the BabyROS build"@,
{
    if parts.len() == 0 && peers > 0 {
        assert(summary_text(stamp, peers, parts) =~= "[t+"@ + stamp + "s] peers="@
            + text::decimal(peers) + "  "@ + "no samples yet"@);
    }
    if parts.len() > 0 && peers > 0 {
        assert(summary_text(stamp, peers, parts) =~= "[t+"@ + stamp + "s] peers="@
            + text::decimal(peers) + "  "@ + text::joined(parts, " | "@));
    }
}

} // verus!
