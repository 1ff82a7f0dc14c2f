//! The external video player: its arguments and the text burnt into its
//! picture.

use vstd::prelude::*;
use crate::text;
use crate::text::push_text;

verus! {

/// A character as it is written inside a filter option.
pub open spec fn escaped_char(c: char) -> Seq<char> {
    if c == '\\' {
        seq!['\\', '\\']
    } else if c == ':' {
        seq!['\\', ':']
    } else {
        seq![c]
    }
}

/// A value as it is written inside a filter option, where a colon separates
/// options and a backslash escapes.
pub open spec fn escaped(s: Seq<char>) -> Seq<char>
    decreases s.len(),
{
    if s.len() == 0 {
        Seq::empty()
    } else {
        escaped(s.drop_last()) + escaped_char(s.last())
    }
}

pub fn escape_filter_value(s: &str) -> (out: String)
    ensures
        out@ == escaped(s@),
{
    let n: usize = s.unicode_len();
    let mut out = String::new();
    let mut i: usize = 0;
    proof {
        assert(s@.subrange(0, 0) =~= Seq::empty());
    }
    while i < n
        invariant
            i <= n,
            n == s@.len(),
            out@ == escaped(s@.subrange(0, i as int)),
        decreases n - i,
    {
        let c: char = s.get_char(i);
        proof {
            reveal_strlit("\\\\");
            reveal_strlit("\\:");
            let t = s@.subrange(0, i + 1);
            assert(t.drop_last() =~= s@.subrange(0, i as int));
            assert(t.last() == c);
            assert("\\\\"@ =~= seq!['\\', '\\']);
            assert("\\:"@ =~= seq!['\\', ':']);
        }
        if c == '\\' {
            out.append("\\\\");
        } else if c == ':' {
            out.append("\\:");
        } else {
            let one: &str = s.substring_char(i, i + 1);
            proof {
                assert(one@ =~= seq![c]);
            }
            out.append(one);
        }
        i = i + 1;
    }
    proof {
        assert(s@.subrange(0, n as int) =~= s@);
    }
    out
}

/// Undoes the escaping: a backslash stands for the character behind it.
pub open spec fn unescaped(s: Seq<char>) -> Seq<char>
    decreases s.len(),
{
    if s.len() == 0 {
        Seq::empty()
    } else if s[0] == '\\' && s.len() >= 2 {
        seq![s[1]] + unescaped(s.subrange(2, s.len() as int))
    } else {
        seq![s[0]] + unescaped(s.subrange(1, s.len() as int))
    }
}

/// Nothing is lost by escaping, and no colon in the value ends the option.
pub proof fn lemma_escape_round_trip(s: Seq<char>, rest: Seq<char>)
    ensures
        unescaped(escaped(s) + rest) == s + unescaped(rest),
    decreases s.len(),
{
    if s.len() == 0 {
        assert(escaped(s) + rest =~= rest);
        assert(s + unescaped(rest) =~= unescaped(rest));
    } else {
        let c = s.last();
        let tail = escaped_char(c) + rest;
        lemma_escape_round_trip(s.drop_last(), tail);
        assert(escaped(s) + rest =~= escaped(s.drop_last()) + tail);
        if c == '\\' || c == ':' {
            assert(tail.subrange(2, tail.len() as int) =~= rest);
        } else {
            assert(tail.subrange(1, tail.len() as int) =~= rest);
        }
        assert(unescaped(tail) == seq![c] + unescaped(rest));
        assert(s + unescaped(rest) =~= s.drop_last() + (seq![c] + unescaped(rest)));
    }
}

/// The filter that shows the text of a file in the picture, read anew with
/// each frame.
pub open spec fn overlay_filter(path: Seq<char>) -> Seq<char> {
    "drawtext=textfile="@ + escaped(path)
        + ":reload=1:font=monospace:fontsize=18:fontcolor=white:box=1:boxcolor=black@0.5:boxborderw=6:x=10:y=10"@
}

/// The player's arguments, with a text overlay or without.
pub open spec fn player_args(overlay_path: Option<Seq<char>>) -> Seq<Seq<char>> {
    seq![
        "-hide_banner"@,
        "-flags"@,
        "low_delay"@,
        "-fflags"@,
        "nobuffer"@,
        "-framedrop"@,
        "-f"@,
        "h264"@,
        "-i"@,
        "-"@,
        "-loglevel"@,
        "warning"@,
    ] + match overlay_path {
        Some(path) => seq!["-vf"@, overlay_filter(path)],
        None => Seq::empty(),
    }
}

/// How the player is started.
pub fn ffplay_args(overlay_path: Option<&str>) -> (args: Vec<String>)
    ensures
        text::texts(args@) == player_args(
            match overlay_path {
                Some(p) => Some(p@),
                None => None,
            },
        ),
{
    let mut args: Vec<String> = Vec::new();
    proof {
        assert(text::texts(args@) =~= Seq::empty());
    }
    push_text(&mut args, "-hide_banner");
    push_text(&mut args, "-flags");
    push_text(&mut args, "low_delay");
    push_text(&mut args, "-fflags");
    push_text(&mut args, "nobuffer");
    push_text(&mut args, "-framedrop");
    push_text(&mut args, "-f");
    push_text(&mut args, "h264");
    push_text(&mut args, "-i");
    push_text(&mut args, "-");
    push_text(&mut args, "-loglevel");
    push_text(&mut args, "warning");
    let ghost plain = player_args(None);
    proof {
        assert(text::texts(args@) =~= plain);
    }
    if let Some(path) = overlay_path {
        push_text(&mut args, "-vf");
        let mut filter = String::from_str("drawtext=textfile=");
        filter.append(escape_filter_value(path).as_str());
        filter.append(
            ":reload=1:font=monospace:fontsize=18:fontcolor=white:box=1:boxcolor=black@0.5:boxborderw=6:x=10:y=10",
        );
        push_text(&mut args, filter.as_str());
        proof {
            assert(text::texts(args@) =~= player_args(Some(path@)));
        }
    }
    args
}

/// A value is escaped character by character: a backslash before a backslash and
/// before a colon, and nothing before any other.
pub proof fn lemma_escaping(s: Seq<char>, c: char)
    ensures
        escaped(Seq::empty()).len() == 0,
        c == ':' ==> escaped(s.push(c)) == escaped(s) + seq!['\\', ':'],
        c == '\\' ==> escaped(s.push(c)) == escaped(s) + seq!['\\', '\\'],
        c != ':' && c != '\\' ==> escaped(s.push(c)) == escaped(s) + seq![c],
{
    assert(s.push(c).drop_last() =~= s);
}

/// The player reads the raw stream from its input, and is handed a filter exactly
/// where there is a text to burn in.
pub proof fn lemma_player_arguments(path: Seq<char>)
    ensures
        player_args(None).len() == 12,
        player_args(Some(path)).len() == 14,
        player_args(Some(path))[12] == "-vf"@,
        player_args(Some(path))[13] == overlay_filter(path),
        player_args(None)[6] == "-f"@ && player_args(None)[7] == "h264"@,
        player_args(None)[8] == "-i"@ && player_args(None)[9] == "-"@,
{
}

} // verus!
