use vstd::prelude::*;

use crate::level::{level_name, level_text, Level};

verus! {

/// Lower-case hexadecimal digit of a value below sixteen.
pub open spec fn hex_digit_of(n: u32) -> char {
    if n == 0 { '0' }
    else if n == 1 { '1' }
    else if n == 2 { '2' }
    else if n == 3 { '3' }
    else if n == 4 { '4' }
    else if n == 5 { '5' }
    else if n == 6 { '6' }
    else if n == 7 { '7' }
    else if n == 8 { '8' }
    else if n == 9 { '9' }
    else if n == 10 { 'a' }
    else if n == 11 { 'b' }
    else if n == 12 { 'c' }
    else if n == 13 { 'd' }
    else if n == 14 { 'e' }
    else { 'f' }
}

/// How one character is written inside a JSON string literal.
pub open spec fn escape_char(c: char) -> Seq<char> {
    if c == '"' {
        seq!['\\', '"']
    } else if c == '\\' {
        seq!['\\', '\\']
    } else if c == '\n' {
        seq!['\\', 'n']
    } else if c == '\r' {
        seq!['\\', 'r']
    } else if c == '\t' {
        seq!['\\', 't']
    } else if (c as u32) < 0x20 {
        seq!['\\', 'u', '0', '0', hex_digit_of((c as u32) / 16), hex_digit_of((c as u32) % 16)]
    } else {
        seq![c]
    }
}

/// The body of a JSON string literal holding `s`: each character escaped.
pub open spec fn json_escape(s: Seq<char>) -> Seq<char>
    decreases s.len(),
{
    if s.len() == 0 {
        Seq::empty()
    } else {
        json_escape(s.drop_last()) + escape_char(s.last())
    }
}

/// The record that a sink appends to its file: one JSON object with the keys
/// `severity`, `timestamp`, `target` and `message`, in that order, followed by
/// a newline.
pub open spec fn record_text(
    level: Level,
    timestamp: Seq<char>,
    target: Seq<char>,
    message: Seq<char>,
) -> Seq<char> {
    seq!['{', '"', 's', 'e', 'v', 'e', 'r', 'i', 't', 'y', '"', ':', '"'] + level_text(level)
        + seq!['"', ',', '"', 't', 'i', 'm', 'e', 's', 't', 'a', 'm', 'p', '"', ':', '"']
        + json_escape(timestamp) + seq!['"', ',', '"', 't', 'a', 'r', 'g', 'e', 't', '"', ':', '"']
        + json_escape(target) + seq![
        '"',
        ',',
        '"',
        'm',
        'e',
        's',
        's',
        'a',
        'g',
        'e',
        '"',
        ':',
        '"',
    ] + json_escape(message) + seq!['"', '}', '\n']
}

/// The line that a sink prints on the console: `[LEVEL] target timestamp - message`.
pub open spec fn console_text(
    level: Level,
    timestamp: Seq<char>,
    target: Seq<char>,
    message: Seq<char>,
) -> Seq<char> {
    seq!['['] + level_text(level) + seq![']', ' '] + target + seq![' '] + timestamp + seq![
        ' ',
        '-',
        ' ',
    ] + message
}

/// Relies on `String::push`: appends one character at the end.
#[verifier::external_body]
fn push_char(s: &mut String, c: char)
    ensures
        final(s)@ == old(s)@.push(c),
{
    s.push(c);
}

/// Relies on `str::chars`, collected into a vector: the characters in order.
#[verifier::external_body]
fn chars_of(s: &str) -> (r: Vec<char>)
    ensures
        r@ == s@,
{
    s.chars().collect()
}

fn push_seq2(out: &mut String, a: char, b: char)
    ensures
        final(out)@ == old(out)@ + seq![a, b],
{
    push_char(out, a);
    push_char(out, b);
    assert(final(out)@ =~= old(out)@ + seq![a, b]);
}

/// Lower-case hexadecimal digit of a value below sixteen.
pub fn hex_digit(n: u32) -> (r: char)
    requires
        n < 16,
    ensures
        r == hex_digit_of(n),
{
    match n {
        0 => '0',
        1 => '1',
        2 => '2',
        3 => '3',
        4 => '4',
        5 => '5',
        6 => '6',
        7 => '7',
        8 => '8',
        9 => '9',
        10 => 'a',
        11 => 'b',
        12 => 'c',
        13 => 'd',
        14 => 'e',
        _ => 'f',
    }
}

fn push_escaped(out: &mut String, c: char)
    ensures
        final(out)@ == old(out)@ + escape_char(c),
{
    if c == '"' {
        push_seq2(out, '\\', '"');
    } else if c == '\\' {
        push_seq2(out, '\\', '\\');
    } else if c == '\n' {
        push_seq2(out, '\\', 'n');
    } else if c == '\r' {
        push_seq2(out, '\\', 'r');
    } else if c == '\t' {
        push_seq2(out, '\\', 't');
    } else if (c as u32) < 0x20 {
        let code = c as u32;
        push_seq2(out, '\\', 'u');
        push_seq2(out, '0', '0');
        push_seq2(out, hex_digit(code / 16), hex_digit(code % 16));
        assert(final(out)@ =~= old(out)@ + escape_char(c));
    } else {
        push_char(out, c);
        assert(final(out)@ =~= old(out)@ + escape_char(c));
    }
}

fn push_json_escaped(out: &mut String, s: &str)
    ensures
        final(out)@ == old(out)@ + json_escape(s@),
{
    let chars = chars_of(s);
    let ghost start = out@;
    let mut i: usize = 0;
    while i < chars.len()
        invariant
            chars@ == s@,
            0 <= i <= chars.len(),
            out@ == start + json_escape(s@.take(i as int)),
        decreases chars.len() - i,
    {
        push_escaped(out, chars[i]);
        assert(s@.take(i + 1).drop_last() =~= s@.take(i as int));
        i = i + 1;
    }
    assert(s@.take(i as int) =~= s@);
}

/// `s` as the body of a JSON string literal, every character escaped.
pub fn json_string(s: &str) -> (r: String)
    ensures
        r@ == json_escape(s@),
{
    let mut out = String::new();
    push_json_escaped(&mut out, s);
    assert(out@ =~= json_escape(s@));
    out
}

/// The record that a sink with key `target` appends to its file for an event
/// of `level` carrying `message`, stamped with `timestamp`.
pub fn record_line(level: Level, timestamp: &str, target: &str, message: &str) -> (r: String)
    ensures
        r@ == record_text(level, timestamp@, target@, message@),
{
    proof {
        reveal_strlit("{\"severity\":\"");
        reveal_strlit("\",\"timestamp\":\"");
        reveal_strlit("\",\"target\":\"");
        reveal_strlit("\",\"message\":\"");
        reveal_strlit("\"}\n");
    }
    let mut out = String::from_str("{\"severity\":\"");
    out.append(level_name(level));
    out.append("\",\"timestamp\":\"");
    push_json_escaped(&mut out, timestamp);
    out.append("\",\"target\":\"");
    push_json_escaped(&mut out, target);
    out.append("\",\"message\":\"");
    push_json_escaped(&mut out, message);
    out.append("\"}\n");
    assert(out@ =~= record_text(level, timestamp@, target@, message@));
    out
}

/// The console line that a sink with key `target` prints for an event of
/// `level` carrying `message`, stamped with `timestamp`.
pub fn console_line(level: Level, timestamp: &str, target: &str, message: &str) -> (r: String)
    ensures
        r@ == console_text(level, timestamp@, target@, message@),
{
    proof {
        reveal_strlit("[");
        reveal_strlit("] ");
        reveal_strlit(" ");
        reveal_strlit(" - ");
    }
    let mut out = String::from_str("[");
    out.append(level_name(level));
    out.append("] ");
    out.append(target);
    out.append(" ");
    out.append(timestamp);
    out.append(" - ");
    out.append(message);
    assert(out@ =~= console_text(level, timestamp@, target@, message@));
    out
}

/// A newline-terminated line: it ends in a newline and holds no other.
pub open spec fn is_line(l: Seq<char>) -> bool {
    &&& l.len() > 0
    &&& l.last() == '\n'
    &&& forall|j: int| 0 <= j < l.len() - 1 ==> l[j] != '\n'
}

/// What a file holds after `lines` were appended to it, in order, starting
/// empty.
pub open spec fn appended(lines: Seq<Seq<char>>) -> Seq<char>
    decreases lines.len(),
{
    if lines.len() == 0 {
        Seq::empty()
    } else {
        lines[0] + appended(lines.drop_first())
    }
}

/// Number of newline characters in `s`.
pub open spec fn newline_count(s: Seq<char>) -> nat
    decreases s.len(),
{
    if s.len() == 0 {
        0
    } else {
        (if s[0] == '\n' { 1nat } else { 0nat }) + newline_count(s.drop_first())
    }
}

spec fn has_no_newline(s: Seq<char>) -> bool {
    forall|j: int| 0 <= j < s.len() ==> s[j] != '\n'
}

proof fn lemma_escape_has_no_newline(s: Seq<char>)
    ensures
        has_no_newline(json_escape(s)),
    decreases s.len(),
{
    if s.len() > 0 {
        lemma_escape_has_no_newline(s.drop_last());
        let c = s.last();
        let e = escape_char(c);
        assert(has_no_newline(e)) by {
            if (c as u32) < 0x20 && c != '"' && c != '\\' && c != '\n' && c != '\r' && c != '\t' {
                let hi = hex_digit_of((c as u32) / 16);
                let lo = hex_digit_of((c as u32) % 16);
                assert(hi != '\n' && lo != '\n');
            }
        }
    }
}

proof fn lemma_newline_count_concat(a: Seq<char>, b: Seq<char>)
    ensures
        newline_count(a + b) == newline_count(a) + newline_count(b),
    decreases a.len(),
{
    if a.len() > 0 {
        assert((a + b).drop_first() =~= a.drop_first() + b);
        lemma_newline_count_concat(a.drop_first(), b);
    } else {
        assert(a + b =~= b);
    }
}

proof fn lemma_line_has_one_newline(l: Seq<char>)
    requires
        is_line(l),
    ensures
        newline_count(l) == 1,
    decreases l.len(),
{
    if l.len() == 1 {
        assert(l[0] == '\n');
        assert(newline_count(l.drop_first()) == 0);
    } else {
        assert(l[0] != '\n');
        assert(is_line(l.drop_first()));
        lemma_line_has_one_newline(l.drop_first());
    }
}

/// Every record is one newline-terminated line: its fields are escaped, so
/// the only newline is the final one.
pub proof fn lemma_record_is_line(
    level: Level,
    timestamp: Seq<char>,
    target: Seq<char>,
    message: Seq<char>,
)
    ensures
        is_line(record_text(level, timestamp, target, message)),
{
    lemma_escape_has_no_newline(timestamp);
    lemma_escape_has_no_newline(target);
    lemma_escape_has_no_newline(message);
    let body = seq!['{', '"', 's', 'e', 'v', 'e', 'r', 'i', 't', 'y', '"', ':', '"'] + level_text(
        level,
    ) + seq!['"', ',', '"', 't', 'i', 'm', 'e', 's', 't', 'a', 'm', 'p', '"', ':', '"']
        + json_escape(timestamp) + seq!['"', ',', '"', 't', 'a', 'r', 'g', 'e', 't', '"', ':', '"']
        + json_escape(target) + seq![
        '"',
        ',',
        '"',
        'm',
        'e',
        's',
        's',
        'a',
        'g',
        'e',
        '"',
        ':',
        '"',
    ] + json_escape(message) + seq!['"', '}'];
    assert(has_no_newline(level_text(level)));
    assert(has_no_newline(body));
    assert(record_text(level, timestamp, target, message) =~= body.push('\n'));
}

/// A file content splits into newline-terminated lines in one way only: two
/// sequences of such lines that append to the same content are equal.
pub proof fn lemma_lines_unique(a: Seq<Seq<char>>, b: Seq<Seq<char>>)
    requires
        forall|k: int| 0 <= k < a.len() ==> is_line(#[trigger] a[k]),
        forall|k: int| 0 <= k < b.len() ==> is_line(#[trigger] b[k]),
        appended(a) == appended(b),
    ensures
        a == b,
    decreases a.len(),
{
    if a.len() == 0 {
        if b.len() > 0 {
            assert(is_line(b[0]));
            assert(appended(b).len() >= b[0].len());
        }
        assert(a =~= b);
    } else if b.len() == 0 {
        assert(is_line(a[0]));
        assert(appended(a).len() >= a[0].len());
    } else {
        let x = a[0];
        let y = b[0];
        let s = appended(a);
        assert(is_line(x) && is_line(y));
        assert(s == x + appended(a.drop_first()));
        assert(s == y + appended(b.drop_first()));
        if x.len() < y.len() {
            assert(s[x.len() - 1] == x[x.len() - 1]);
            assert(s[x.len() - 1] == y[x.len() - 1]);
        }
        if y.len() < x.len() {
            assert(s[y.len() - 1] == y[y.len() - 1]);
            assert(s[y.len() - 1] == x[y.len() - 1]);
        }
        assert(x =~= s.subrange(0, x.len() as int));
        assert(y =~= s.subrange(0, y.len() as int));
        assert(appended(a.drop_first()) =~= s.subrange(x.len() as int, s.len() as int));
        assert(appended(b.drop_first()) =~= s.subrange(y.len() as int, s.len() as int));
        lemma_lines_unique(a.drop_first(), b.drop_first());
        assert(a =~= seq![x] + a.drop_first());
        assert(b =~= seq![y] + b.drop_first());
    }
}

proof fn lemma_appended_newlines(lines: Seq<Seq<char>>)
    requires
        forall|k: int| 0 <= k < lines.len() ==> is_line(#[trigger] lines[k]),
    ensures
        newline_count(appended(lines)) == lines.len(),
    decreases lines.len(),
{
    if lines.len() > 0 {
        assert(is_line(lines[0]));
        lemma_line_has_one_newline(lines[0]);
        assert forall|k: int| 0 <= k < lines.drop_first().len() implies is_line(
            #[trigger] lines.drop_first()[k],
        ) by {
            assert(lines.drop_first()[k] == lines[k + 1]);
        }
        lemma_appended_newlines(lines.drop_first());
        lemma_newline_count_concat(lines[0], appended(lines.drop_first()));
    }
}

/// The records that one sink with key `target` writes for `writes` (level,
/// time stamp and message of each), in order.
pub open spec fn records_of(
    target: Seq<char>,
    writes: Seq<(Level, Seq<char>, Seq<char>)>,
) -> Seq<Seq<char>> {
    writes.map_values(|w: (Level, Seq<char>, Seq<char>)| record_text(w.0, w.1, target, w.2))
}

/// Append-only growth: after N writes to one sink, starting from an empty
/// file, the file holds exactly N newlines, and the only way to read it as
/// newline-terminated lines gives back the N records in the order written.
pub proof fn lemma_append_only_growth(
    target: Seq<char>,
    writes: Seq<(Level, Seq<char>, Seq<char>)>,
)
    ensures
        newline_count(appended(records_of(target, writes))) == writes.len(),
        forall|k: int| 0 <= k < writes.len() ==> is_line(#[trigger] records_of(target, writes)[k]),
        forall|lines: Seq<Seq<char>>|
            (forall|k: int| 0 <= k < lines.len() ==> is_line(#[trigger] lines[k]))
                && #[trigger] appended(lines) == appended(records_of(target, writes)) ==> lines
                == records_of(target, writes),
{
    let recs = records_of(target, writes);
    assert forall|k: int| 0 <= k < writes.len() implies is_line(#[trigger] recs[k]) by {
        let w = writes[k];
        lemma_record_is_line(w.0, w.1, target, w.2);
    }
    lemma_appended_newlines(recs);
    assert forall|lines: Seq<Seq<char>>|
        (forall|k: int| 0 <= k < lines.len() ==> is_line(#[trigger] lines[k]))
            && #[trigger] appended(lines) == appended(recs) implies lines == recs by {
        lemma_lines_unique(lines, recs);
    }
}

} // verus!
