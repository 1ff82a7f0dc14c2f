//! What is remembered between sessions: the name under which a connection's
//! resumption ticket is kept, and the list of robot profiles seen before.

use vstd::prelude::*;
use crate::text;
use crate::text::push_decimal;

verus! {

/// Colons and dots become underscores.
pub open spec fn file_char(c: char) -> char {
    if c == ':' || c == '.' {
        '_'
    } else {
        c
    }
}

pub open spec fn file_chars(s: Seq<char>) -> Seq<char> {
    Seq::new(s.len(), |i: int| file_char(s[i]))
}

/// An address as part of a file name.
pub fn sanitize_addr(addr: &str) -> (out: String)
    ensures
        out@ == file_chars(addr@),
{
    let n: usize = addr.unicode_len();
    let mut out = String::new();
    let mut i: usize = 0;
    while i < n
        invariant
            i <= n,
            n == addr@.len(),
            out@ =~= file_chars(addr@.subrange(0, i as int)),
        decreases n - i,
    {
        let c: char = addr.get_char(i);
        proof {
            reveal_strlit("_");
        }
        if c == ':' || c == '.' {
            out.append("_");
        } else {
            out.append(addr.substring_char(i, i + 1));
        }
        i = i + 1;
    }
    proof {
        assert(addr@.subrange(0, n as int) =~= addr@);
    }
    out
}

/// The file that holds the resumption ticket of an address.
pub fn ticket_file_name(addr: &str) -> (name: String)
    ensures
        name@ == file_chars(addr@) + ".ticket"@,
{
    let mut name = sanitize_addr(addr);
    name.append(".ticket");
    name
}

/// Where the first line ends.
pub open spec fn line_end(s: Seq<char>) -> int
    decreases s.len(),
{
    if s.len() == 0 || s[0] == '\n' {
        0
    } else {
        1 + line_end(s.subrange(1, s.len() as int))
    }
}

/// A line without the carriage return of its ending.
pub open spec fn without_return(s: Seq<char>) -> Seq<char> {
    if s.len() > 0 && s.last() == '\r' {
        s.drop_last()
    } else {
        s
    }
}

/// The lines of a text. A line feed, or a carriage return and a line feed, ends
/// a line; what follows the last one is a line unless it is empty.
pub open spec fn lines(s: Seq<char>) -> Seq<Seq<char>>
    decreases s.len(),
{
    let n = line_end(s);
    if s.len() == 0 {
        Seq::empty()
    } else if n < 0 || n >= s.len() {
        seq![s]
    } else {
        seq![without_return(s.subrange(0, n))] + lines(s.subrange(n + 1, s.len() as int))
    }
}

/// A robot and its profile, as one line of the list.
pub open spec fn profile_key(robot_id: Seq<char>, profile_hash: u64) -> Seq<char> {
    robot_id + ":"@ + text::decimal(profile_hash as nat)
}

/// The list with one more line.
pub open spec fn recorded(existing: Seq<char>, key: Seq<char>) -> Seq<char> {
    (if existing.len() > 0 && existing.last() != '\n' {
        existing.push('\n')
    } else {
        existing
    }) + key + seq!['\n']
}

proof fn lemma_line_end(s: Seq<char>)
    ensures
        0 <= line_end(s) <= s.len(),
        forall|i: int| 0 <= i < line_end(s) ==> s[i] != '\n',
        line_end(s) < s.len() ==> s[line_end(s)] == '\n',
    decreases s.len(),
{
    if s.len() > 0 && s[0] != '\n' {
        let t = s.subrange(1, s.len() as int);
        lemma_line_end(t);
        assert forall|i: int| 0 <= i < line_end(s) implies s[i] != '\n' by {
            if i > 0 {
                assert(t[i - 1] == s[i]);
            }
        }
        if line_end(s) < s.len() {
            assert(t[line_end(t)] == s[line_end(s)]);
        }
    }
}

/// The end of the first line of `s` from `at` on.
fn find_line_end(s: &str, at: usize, n: usize) -> (end: usize)
    requires
        at <= n,
        n == s@.len(),
    ensures
        end == at + line_end(s@.subrange(at as int, n as int)),
        at <= end <= n,
{
    let mut end: usize = at;
    proof {
        lemma_line_end(s@.subrange(at as int, n as int));
    }
    while end < n
        invariant_except_break
            at <= end <= n,
            n == s@.len(),
            line_end(s@.subrange(at as int, n as int)) == end - at + line_end(
                s@.subrange(end as int, n as int),
            ),
        ensures
            at <= end <= n,
            line_end(s@.subrange(at as int, n as int)) == end - at,
        decreases n - end,
    {
        let ghost rest = s@.subrange(end as int, n as int);
        if s.get_char(end) == '\n' {
            proof {
                assert(rest[0] == '\n');
            }
            break;
        }
        proof {
            assert(rest.subrange(1, rest.len() as int) =~= s@.subrange(end + 1, n as int));
        }
        end = end + 1;
        proof {
            if end == n {
                assert(s@.subrange(end as int, n as int) =~= Seq::empty());
            }
        }
    }
    end
}

/// Does a text have `key` as one of its lines?
pub fn has_line(s: &str, key: &str) -> (found: bool)
    ensures
        found == lines(s@).contains(key@),
{
    let n: usize = s.unicode_len();
    let wanted = String::from_str(key);
    let mut at: usize = 0;
    proof {
        assert(s@.subrange(0, n as int) =~= s@);
    }
    while at < n
        invariant
            at <= n,
            n == s@.len(),
            wanted@ == key@,
            lines(s@).contains(key@) == lines(s@.subrange(at as int, n as int)).contains(key@),
        decreases n - at,
    {
        let end: usize = find_line_end(s, at, n);
        let ghost rest = s@.subrange(at as int, n as int);
        let ghost e = line_end(rest);
        if end == n {
            let line = String::from_str(s.substring_char(at, n));
            proof {
                assert(lines(rest) =~= seq![rest]);
                assert(seq![rest][0] == rest);
                assert(lines(rest).contains(key@) == (rest == key@)) by {
                    if rest == key@ {
                        assert(lines(rest)[0] == key@);
                    }
                }
            }
            return line == wanted;
        }
        let stop: usize = if end > at && s.get_char(end - 1) == '\r' {
            end - 1
        } else {
            end
        };
        let line = String::from_str(s.substring_char(at, stop));
        let ghost first = without_return(rest.subrange(0, e));
        let ghost tail = rest.subrange(e + 1, rest.len() as int);
        proof {
            assert(line@ =~= first);
            assert(tail =~= s@.subrange(end + 1, n as int));
            assert(lines(rest) == seq![first] + lines(tail));
            lemma_contains_first(first, lines(tail), key@);
        }
        if line == wanted {
            return true;
        }
        at = end + 1;
    }
    proof {
        assert(s@.subrange(at as int, n as int) =~= Seq::empty());
    }
    false
}

proof fn lemma_contains_first(first: Seq<char>, rest: Seq<Seq<char>>, key: Seq<char>)
    ensures
        (seq![first] + rest).contains(key) == (first == key || rest.contains(key)),
{
    let all = seq![first] + rest;
    if first == key {
        assert(all[0] == key);
    }
    if rest.contains(key) {
        let i = choose|i: int| 0 <= i < rest.len() && rest[i] == key;
        assert(all[i + 1] == key);
    }
    if all.contains(key) {
        let i = choose|i: int| 0 <= i < all.len() && all[i] == key;
        if i > 0 {
            assert(rest[i - 1] == key);
        }
    }
}

/// Whether this robot with this profile is in the list, and if it is not, the
/// list with it.
pub fn check_and_record_profile(existing: &str, robot_id: &str, profile_hash: u64) -> (r: (
    bool,
    Option<String>,
))
    ensures
        r.0 == lines(existing@).contains(profile_key(robot_id@, profile_hash)),
        match r.1 {
            Some(updated) => !r.0 && updated@ == recorded(
                existing@,
                profile_key(robot_id@, profile_hash),
            ),
            None => r.0,
        },
{
    let mut key = String::from_str(robot_id);
    key.append(":");
    push_decimal(&mut key, profile_hash);
    if has_line(existing, key.as_str()) {
        return (true, None);
    }
    let n: usize = existing.unicode_len();
    let mut updated = String::from_str(existing);
    proof {
        reveal_strlit("\n");
        assert("\n"@ =~= seq!['\n']);
    }
    if n > 0 && existing.get_char(n - 1) != '\n' {
        updated.append("\n");
    }
    updated.append(key.as_str());
    updated.append("\n");
    proof {
        assert(updated@ =~= recorded(existing@, profile_key(robot_id@, profile_hash)));
    }
    (false, Some(updated))
}

pub open spec fn one_line(s: Seq<char>) -> bool {
    forall|i: int| 0 <= i < s.len() ==> s[i] != '\n'
}

/// The lines of a text that ends in a line feed, and of what follows it.
proof fn lemma_lines_join(a: Seq<char>, b: Seq<char>)
    requires
        a.len() == 0 || a.last() == '\n',
    ensures
        lines(a + b) == lines(a) + lines(b),
    decreases a.len(),
{
    if a.len() == 0 {
        assert(a + b =~= b);
        assert(lines(a) + lines(b) =~= lines(b));
    } else {
        let s = a + b;
        lemma_line_end(a);
        lemma_line_end(s);
        let n = line_end(a);
        if n == a.len() {
            assert(a[a.len() - 1] == '\n');
        }
        assert(line_end(s) == n) by {
            if line_end(s) < n {
                assert(s[line_end(s)] == a[line_end(s)]);
            }
            if line_end(s) > n {
                assert(s[n] == a[n]);
            }
        }
        let ra = a.subrange(n + 1, a.len() as int);
        assert(s.subrange(0, n) =~= a.subrange(0, n));
        assert(s.subrange(n + 1, s.len() as int) =~= ra + b);
        if ra.len() > 0 {
            assert(ra.last() == a.last());
        }
        lemma_lines_join(ra, b);
        assert(lines(s) =~= lines(a) + lines(b));
    }
}

proof fn lemma_single_line(key: Seq<char>)
    requires
        one_line(key),
        key.len() > 0,
        key.last() != '\r',
    ensures
        lines(key + seq!['\n']) == seq![key],
{
    let s = key + seq!['\n'];
    lemma_line_end(s);
    let n = line_end(s);
    if n < key.len() {
        assert(s[n] == key[n]);
    }
    if n > key.len() {
        assert(s[key.len() as int] == '\n');
    }
    assert(s.subrange(0, n) =~= key);
    assert(s.subrange(n + 1, s.len() as int) =~= Seq::empty());
    assert(lines(Seq::<char>::empty()) =~= Seq::empty());
    assert(lines(s) =~= seq![key]);
}

proof fn lemma_key_end(robot_id: Seq<char>, profile_hash: u64)
    ensures
        profile_key(robot_id, profile_hash).len() > 0,
        profile_key(robot_id, profile_hash).last() != '\r',
        one_line(robot_id) ==> one_line(profile_key(robot_id, profile_hash)),
{
    reveal_strlit(":");
    lemma_digits_only(profile_hash as nat);
    let d = text::decimal(profile_hash as nat);
    let key = profile_key(robot_id, profile_hash);
    assert(key.last() == d.last());
    assert(d[d.len() - 1] != '\r');
    if one_line(robot_id) {
        assert forall|i: int| 0 <= i < key.len() implies key[i] != '\n' by {
            if i < robot_id.len() {
                assert(robot_id[i] != '\n');
            } else if i == robot_id.len() {
            } else {
                assert(key[i] == d[i - robot_id.len() - 1]);
            }
        }
    }
}

proof fn lemma_digits_only(n: nat)
    ensures
        text::decimal(n).len() > 0,
        forall|i: int|
            0 <= i < text::decimal(n).len() ==> text::decimal(n)[i] != '\n' && text::decimal(n)[i]
                != '\r',
    decreases n,
{
    if n >= 10 {
        lemma_digits_only(n / 10);
    }
}

/// A profile that was recorded is found the next time, and so is every one
/// that was in the list before, as far as each stood on a line that had ended.
pub proof fn lemma_recorded_is_found(existing: Seq<char>, robot_id: Seq<char>, profile_hash: u64)
    requires
        one_line(robot_id),
    ensures
        lines(recorded(existing, profile_key(robot_id, profile_hash))).contains(
            profile_key(robot_id, profile_hash),
        ),
        existing.len() == 0 || existing.last() == '\n' ==> forall|line: Seq<char>|
            lines(existing).contains(line) ==> #[trigger] lines(
                recorded(existing, profile_key(robot_id, profile_hash)),
            ).contains(line),
{
    let key = profile_key(robot_id, profile_hash);
    let head = if existing.len() > 0 && existing.last() != '\n' {
        existing.push('\n')
    } else {
        existing
    };
    lemma_key_end(robot_id, profile_hash);
    lemma_single_line(key);
    lemma_lines_join(head, key + seq!['\n']);
    let all = lines(recorded(existing, key));
    assert(recorded(existing, key) =~= head + (key + seq!['\n']));
    assert(all[lines(head).len() as int] == key);
    if existing.len() == 0 || existing.last() == '\n' {
        assert forall|line: Seq<char>| lines(existing).contains(line) implies #[trigger] all.contains(
            line,
        ) by {
            let i = choose|i: int| 0 <= i < lines(existing).len() && lines(existing)[i] == line;
            assert(all[i] == line);
        }
    }
}

/// The file of an address: colons and points give way to underscores, and every
/// other character stays where it is.
pub proof fn lemma_file_of_address(s: Seq<char>, i: int)
    requires
        0 <= i < s.len(),
    ensures
        file_chars(s).len() == s.len(),
        s[i] == ':' || s[i] == '.' ==> file_chars(s)[i] == '_',
        s[i] != ':' && s[i] != '.' ==> file_chars(s)[i] == s[i],
{
}

/// A line of the list names the robot and the hash of its profile: for one robot,
/// another hash is another line.
pub proof fn lemma_other_profile_is_another_line(robot_id: Seq<char>, a: u64, b: u64)
    requires
        profile_key(robot_id, a) == profile_key(robot_id, b),
    ensures
        a == b,
{
    let (x, y) = (profile_key(robot_id, a), profile_key(robot_id, b));
    reveal_strlit(":");
    let n = robot_id.len() + 1;
    assert(x.subrange(n as int, x.len() as int) =~= text::decimal(a as nat));
    assert(y.subrange(n as int, y.len() as int) =~= text::decimal(b as nat));
    text::lemma_decimal_reads_back(a as nat);
    text::lemma_decimal_reads_back(b as nat);
}

} // verus!
