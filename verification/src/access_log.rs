//! The access log: a line of JSON for each object that is stored, read or
//! deleted.
use crate::text::{chars_of, decimal, hex_digits, hex_upper, push_decimal, push_hex};
use vstd::prelude::*;
use vstd::string::*;

verus! {

/// A character as it stands in a JSON string: a backslash and a double quote behind a
/// backslash, a control character by its number.
pub open spec fn escaped_char(c: char) -> Seq<char> {
    if c == '\\' || c == '"' {
        seq!['\\', c]
    } else if (c as nat) < 32 {
        seq!['\\', 'u', '0', '0'] + hex_digits(c as nat, 2)
    } else {
        seq![c]
    }
}

/// A text as it stands in a JSON string.
pub open spec fn escaped(s: Seq<char>) -> Seq<char>
    decreases s.len(),
{
    if s.len() == 0 {
        Seq::empty()
    } else {
        escaped(s.drop_last()) + escaped_char(s.last())
    }
}

fn push_escaped(out: &mut String, c: char)
    ensures
        final(out)@ == old(out)@ + escaped_char(c),
{
    if c == '\\' || c == '"' {
        out.push('\\');
        out.push(c);
    } else if (c as u32) < 32 {
        out.append("\\u00");
        push_hex(out, c as u32, 2);
        proof {
            reveal_strlit("\\u00");
            assert("\\u00"@ =~= seq!['\\', 'u', '0', '0']);
        }
    } else {
        out.push(c);
    }
    assert(out@ =~= old(out)@ + escaped_char(c));
}

/// Escapes the backslashes, double quotes and control characters of a text, so that it
/// can stand in a JSON string.
pub fn escape_json(s: &str) -> (r: String)
    ensures
        r@ == escaped(s@),
{
    let chars = chars_of(s);
    let mut out = String::new();
    let mut i: usize = 0;
    assert(s@.take(0) =~= Seq::empty());
    while i < chars.len()
        invariant
            i <= chars@.len(),
            chars@ == s@,
            out@ == escaped(s@.take(i as int)),
        decreases chars@.len() - i,
    {
        proof {
            assert(s@.take(i + 1).drop_last() =~= s@.take(i as int));
        }
        push_escaped(&mut out, chars[i]);
        i += 1;
    }
    assert(s@.take(i as int) =~= s@);
    out
}

/// What the log says of one access.
#[derive(Debug)]
pub struct AccessRecord {
    /// `PUT`, `GET` or `DELETE`.
    pub op: String,
    pub name: String,
    pub uuid: String,
    pub size: u64,
    pub content_type: String,
    pub tags: String,
}

/// An [`AccessRecord`], with texts as sequences.
pub struct AccessView {
    pub op: Seq<char>,
    pub name: Seq<char>,
    pub uuid: Seq<char>,
    pub size: u64,
    pub content_type: Seq<char>,
    pub tags: Seq<char>,
}

impl View for AccessRecord {
    type V = AccessView;

    open spec fn view(&self) -> AccessView {
        AccessView {
            op: self.op@,
            name: self.name@,
            uuid: self.uuid@,
            size: self.size,
            content_type: self.content_type@,
            tags: self.tags@,
        }
    }
}

/// The line of the log for an access at the local time `now`. The tags are JSON
/// already.
pub open spec fn log_line(now: Seq<char>, a: AccessView) -> Seq<char> {
    "{\"ts\":\""@ + now + "\",\"op\":\""@ + a.op + "\",\"name\":\""@ + escaped(a.name)
        + "\",\"uuid\":\""@ + a.uuid + "\",\"size\":"@ + decimal(a.size as nat) + ",\"type\":\""@
        + escaped(a.content_type) + "\",\"tags\":"@ + a.tags + "}"@
}

/// An access log: whether accesses are logged.
#[derive(Debug)]
pub struct AccessLog {
    pub enabled: bool,
}

impl AccessLog {
    /// Whether there is a file to open: an empty path stands for no log.
    pub fn wants_file(path: &str) -> (r: bool)
        ensures
            r == (path@.len() > 0),
    {
        path.unicode_len() > 0
    }

    /// Makes the log at `path`, where `opened` says whether its file could be
    /// opened.
    pub fn new(path: &str, opened: bool) -> (r: AccessLog)
        ensures
            r.enabled == (path@.len() > 0 && opened),
    {
        AccessLog { enabled: AccessLog::wants_file(path) && opened }
    }

    /// The line to append for an access at the local time `now`, if accesses are
    /// logged.
    pub fn record(&self, now: &str, access: &AccessRecord) -> (r: Option<String>)
        ensures
            match r {
                Some(line) => self.enabled && line@ == log_line(now@, access@),
                None => !self.enabled,
            },
    {
        if self.enabled {
            Some(access.line(now))
        } else {
            None
        }
    }
}

impl AccessRecord {
    /// The line of the log for an access at the local time `now`.
    pub fn line(&self, now: &str) -> (r: String)
        ensures
            r@ == log_line(now@, self@),
    {
        let name = escape_json(self.name.as_str());
        let content_type = escape_json(self.content_type.as_str());
        let mut s = "{\"ts\":\"".to_owned();
        s.append(now);
        s.append("\",\"op\":\"");
        s.append(self.op.as_str());
        s.append("\",\"name\":\"");
        s.append(name.as_str());
        s.append("\",\"uuid\":\"");
        s.append(self.uuid.as_str());
        s.append("\",\"size\":");
        push_decimal(&mut s, self.size);
        s.append(",\"type\":\"");
        s.append(content_type.as_str());
        s.append("\",\"tags\":");
        s.append(self.tags.as_str());
        s.append("}");
        s
    }
}

/// The value of a hexadecimal digit as [`hex_digits`] writes it.
pub open spec fn hex_digit_value(c: char) -> nat {
    if c <= '9' {
        (c as nat - '0' as nat) as nat
    } else {
        (c as nat - 'A' as nat + 10) as nat
    }
}

/// What the inside of a JSON string denotes, where it is one: a backslash stands before
/// a backslash, a double quote, or `u` and four hexadecimal digits, and no double quote
/// and no control character stands by itself.
pub open spec fn json_value(s: Seq<char>) -> Option<Seq<char>>
    decreases s.len(),
{
    if s.len() == 0 {
        Some(Seq::empty())
    } else if s[0] == '\\' {
        if s.len() >= 2 && (s[1] == '\\' || s[1] == '"') {
            match json_value(s.skip(2)) {
                Some(rest) => Some(seq![s[1]] + rest),
                None => None,
            }
        } else if s.len() >= 6 && s[1] == 'u' && s[2] == '0' && s[3] == '0' {
            match json_value(s.skip(6)) {
                Some(rest) => Some(
                    seq![(16 * hex_digit_value(s[4]) + hex_digit_value(s[5])) as char] + rest,
                ),
                None => None,
            }
        } else {
            None
        }
    } else if s[0] == '"' || (s[0] as nat) < 32 {
        None
    } else {
        match json_value(s.skip(1)) {
            Some(rest) => Some(seq![s[0]] + rest),
            None => None,
        }
    }
}

proof fn lemma_escaped_first(s: Seq<char>)
    requires
        s.len() > 0,
    ensures
        escaped(s) == escaped_char(s[0]) + escaped(s.skip(1)),
    decreases s.len(),
{
    let front = s.drop_last();
    if s.len() == 1 {
        assert(front =~= Seq::empty());
        assert(s.skip(1) =~= Seq::empty());
        assert(escaped(s) =~= escaped_char(s[0]) + escaped(s.skip(1)));
    } else {
        lemma_escaped_first(front);
        assert(front.skip(1) =~= s.skip(1).drop_last());
        assert(escaped(s) =~= escaped_char(s[0]) + escaped(s.skip(1)));
    }
}

proof fn lemma_escaped_char(c: char, rest: Seq<char>)
    ensures
        json_value(escaped_char(c) + rest) == (match json_value(rest) {
            Some(v) => Some(seq![c] + v),
            None => None,
        }),
{
    let e = escaped_char(c);
    let all = e + rest;
    assert(all.skip(e.len() as int) =~= rest);
    if c == '\\' || c == '"' {
        assert(e.len() == 2);
        assert(all[0] == '\\' && all[1] == c);
    } else if (c as nat) < 32 {
        let n = c as nat;
        reveal_with_fuel(hex_digits, 3);
        assert(hex_digits(n, 2) =~= seq![hex_upper(n / 16 % 16), hex_upper(n % 16)]);
        assert(e.len() == 6);
        assert(all[0] == '\\' && all[1] == 'u' && all[2] == '0' && all[3] == '0');
        assert(all[4] == hex_upper(n / 16 % 16) && all[5] == hex_upper(n % 16));
        assert(16 * hex_digit_value(all[4]) + hex_digit_value(all[5]) == n);
    } else {
        assert(all[0] == c);
    }
}

/// A text stands in a JSON string unharmed: between double quotes, its escaped form
/// denotes the text. So different texts have different escaped forms.
pub proof fn law_escaped(s: Seq<char>)
    ensures
        json_value(escaped(s)) == Some(s),
    decreases s.len(),
{
    if s.len() > 0 {
        lemma_escaped_first(s);
        law_escaped(s.skip(1));
        lemma_escaped_char(s[0], escaped(s.skip(1)));
        assert(seq![s[0]] + s.skip(1) =~= s);
    }
}

/// A text without special characters is its own escaped form.
pub proof fn law_escaped_plain(s: Seq<char>)
    requires
        forall|i: int|
            0 <= i < s.len() ==> #[trigger] s[i] != '\\' && s[i] != '"' && s[i] as nat >= 32,
    ensures
        escaped(s) == s,
    decreases s.len(),
{
    if s.len() > 0 {
        law_escaped_plain(s.drop_last());
        assert(escaped(s) =~= s);
    }
}

} // verus!
