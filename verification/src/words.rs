//! Searching, splitting, trimming and comparing texts, character by character.
use crate::text::chars_of;
use vstd::prelude::*;
use vstd::slice::*;
use vstd::string::*;

verus! {

/// The first index from `i` on at which `c` stands; the length of `s` where there
/// is none.
pub open spec fn char_from(s: Seq<char>, c: char, i: int) -> int
    decreases s.len() - i,
{
    if i >= s.len() {
        s.len() as int
    } else if s[i] == c {
        i
    } else {
        char_from(s, c, i + 1)
    }
}

/// What stands in front of the first `c`; all of `s` where there is none.
pub open spec fn before(s: Seq<char>, c: char) -> Seq<char> {
    s.take(char_from(s, c, 0))
}

/// What stands behind the first `c`, if there is one.
pub open spec fn behind(s: Seq<char>, c: char) -> Option<Seq<char>> {
    let i = char_from(s, c, 0);
    if i < s.len() {
        Some(s.skip(i + 1))
    } else {
        None
    }
}

/// The pieces of `s` between the occurrences of `c`. There is one more of them
/// than there are occurrences.
pub open spec fn pieces(s: Seq<char>, c: char) -> Seq<Seq<char>>
    decreases s.len(),
{
    let i = char_from(s, c, 0);
    if i < s.len() && 0 <= i {
        seq![s.take(i)] + pieces(s.skip(i + 1), c)
    } else {
        seq![s]
    }
}

/// Whether `needle` stands in `s` at `i`.
pub open spec fn stands_at(s: Seq<char>, needle: Seq<char>, i: int) -> bool {
    i + needle.len() <= s.len() && s.subrange(i, i + needle.len()) == needle
}

/// The first index from `i` on at which `needle` stands.
pub open spec fn text_from(s: Seq<char>, needle: Seq<char>, i: int) -> Option<int>
    decreases s.len() + 1 - i,
{
    if i + needle.len() > s.len() {
        None
    } else if stands_at(s, needle, i) {
        Some(i)
    } else {
        text_from(s, needle, i + 1)
    }
}

/// Whether `needle` stands somewhere in `s`.
pub open spec fn contains_text(s: Seq<char>, needle: Seq<char>) -> bool {
    text_from(s, needle, 0) is Some
}

/// Whether `s` begins with `head`.
pub open spec fn begins_with(s: Seq<char>, head: Seq<char>) -> bool {
    stands_at(s, head, 0)
}

/// What stands between the first and the second occurrence of `mark`, or behind
/// the only one.
pub open spec fn second_part(s: Seq<char>, mark: Seq<char>) -> Option<Seq<char>> {
    match text_from(s, mark, 0) {
        None => None,
        Some(i) => {
            let rest = s.skip(i + mark.len());
            match text_from(rest, mark, 0) {
                None => Some(rest),
                Some(j) => Some(rest.take(j)),
            }
        },
    }
}

/// A line without the carriage return at its end.
pub open spec fn without_return(s: Seq<char>) -> Seq<char> {
    if s.len() > 0 && s.last() == '\r' {
        s.drop_last()
    } else {
        s
    }
}

/// The lines of `s`. A line ends with a line feed, which a carriage return may
/// precede; the last one may do without.
pub open spec fn lines_of(s: Seq<char>) -> Seq<Seq<char>>
    decreases s.len(),
{
    let i = char_from(s, '\n', 0);
    if s.len() == 0 {
        Seq::empty()
    } else if i < s.len() && 0 <= i {
        seq![without_return(s.take(i))] + lines_of(s.skip(i + 1))
    } else {
        seq![s]
    }
}

/// Whether `c` is white space: one of the characters that have the Unicode property
/// White_Space.
pub open spec fn white_space(c: char) -> bool {
    let n = c as nat;
    ||| 0x9 <= n <= 0xd
    ||| n == 0x20
    ||| n == 0x85
    ||| n == 0xa0
    ||| n == 0x1680
    ||| 0x2000 <= n <= 0x200a
    ||| 0x2028 <= n <= 0x2029
    ||| n == 0x202f
    ||| n == 0x205f
    ||| n == 0x3000
}

/// Calls `char::is_whitespace`. Claimed: it picks out the characters that have the
/// Unicode property White_Space.
#[verifier::external_body]
pub(crate) fn is_white(c: char) -> (r: bool)
    ensures
        r == white_space(c),
{
    c.is_whitespace()
}

/// `s` without the white space at its front.
pub open spec fn trim_front(s: Seq<char>) -> Seq<char>
    decreases s.len(),
{
    if s.len() > 0 && white_space(s[0]) {
        trim_front(s.skip(1))
    } else {
        s
    }
}

/// `s` without the white space at its end.
pub open spec fn trim_end(s: Seq<char>) -> Seq<char>
    decreases s.len(),
{
    if s.len() > 0 && white_space(s.last()) {
        trim_end(s.drop_last())
    } else {
        s
    }
}

/// `s` without the white space at its front and at its end.
pub open spec fn trimmed(s: Seq<char>) -> Seq<char> {
    trim_end(trim_front(s))
}

/// `s` without the characters `c` at its front and at its end.
pub open spec fn stripped(s: Seq<char>, c: char) -> Seq<char>
    decreases s.len(),
{
    if s.len() > 0 && s[0] == c {
        stripped(s.skip(1), c)
    } else if s.len() > 0 && s.last() == c {
        stripped(s.drop_last(), c)
    } else {
        s
    }
}

/// How long the run without white space at the front of `s` is.
pub open spec fn word_len(s: Seq<char>) -> nat
    decreases s.len(),
{
    if s.len() == 0 || white_space(s[0]) {
        0
    } else {
        1 + word_len(s.skip(1))
    }
}

/// The words of `s`: the runs without white space.
pub open spec fn words_of(s: Seq<char>) -> Seq<Seq<char>>
    decreases s.len(),
    via words_shrink
{
    let t = trim_front(s);
    let n = word_len(t) as int;
    if t.len() == 0 {
        Seq::empty()
    } else {
        seq![t.take(n)] + words_of(t.skip(n))
    }
}

#[via_fn]
proof fn words_shrink(s: Seq<char>) {
    lemma_trim_front(s);
    let t = trim_front(s);
    if t.len() > 0 {
        lemma_word_len(t);
        assert(word_len(t) >= 1);
    }
}

pub proof fn lemma_trim_front(s: Seq<char>)
    ensures
        trim_front(s).len() <= s.len(),
        trim_front(s) == s.skip(s.len() - trim_front(s).len()),
        trim_front(s).len() > 0 ==> !white_space(trim_front(s)[0]),
    decreases s.len(),
{
    if s.len() > 0 && white_space(s[0]) {
        lemma_trim_front(s.skip(1));
        let t = trim_front(s);
        assert(s.skip(1).skip(s.skip(1).len() - t.len()) =~= s.skip(s.len() - t.len()));
    } else {
        assert(s.skip(0) =~= s);
    }
}

pub proof fn lemma_word_len(s: Seq<char>)
    ensures
        word_len(s) <= s.len(),
        s.len() > 0 && !white_space(s[0]) ==> word_len(s) >= 1,
    decreases s.len(),
{
    if s.len() > 0 && !white_space(s[0]) {
        lemma_word_len(s.skip(1));
    }
}

pub proof fn lemma_char_from(s: Seq<char>, c: char, i: int)
    requires
        0 <= i <= s.len(),
    ensures
        i <= char_from(s, c, i) <= s.len(),
        char_from(s, c, i) < s.len() ==> s[char_from(s, c, i)] == c,
        forall|j: int| i <= j < char_from(s, c, i) ==> s[j] != c,
    decreases s.len() - i,
{
    if i < s.len() && s[i] != c {
        lemma_char_from(s, c, i + 1);
    }
}

pub proof fn lemma_text_from(s: Seq<char>, needle: Seq<char>, i: int)
    requires
        0 <= i,
    ensures
        match text_from(s, needle, i) {
            Some(k) => i <= k && stands_at(s, needle, k) && forall|j: int|
                i <= j < k ==> !#[trigger] stands_at(s, needle, j),
            None => forall|j: int| i <= j ==> !#[trigger] stands_at(s, needle, j),
        },
    decreases s.len() + 1 - i,
{
    if i + needle.len() <= s.len() && !stands_at(s, needle, i) {
        lemma_text_from(s, needle, i + 1);
    }
}

/// A text contains another exactly where the other stands somewhere in it.
pub proof fn law_contains_text(s: Seq<char>, needle: Seq<char>)
    ensures
        contains_text(s, needle) <==> exists|i: int| 0 <= i && #[trigger] stands_at(s, needle, i),
{
    lemma_text_from(s, needle, 0);
}

/// Where `c` stands first from `from` on; the length of `s` where it does not.
pub fn find_char(s: &[char], c: char, from: usize) -> (r: usize)
    requires
        from <= s@.len(),
    ensures
        r == char_from(s@, c, from as int),
        from <= r <= s@.len(),
        r < s@.len() ==> s@[r as int] == c,
{
    let mut i = from;
    while i < s.len()
        invariant
            from <= i <= s@.len(),
            char_from(s@, c, from as int) == char_from(s@, c, i as int),
        decreases s@.len() - i,
    {
        if s[i] == c {
            return i;
        }
        i += 1;
    }
    i
}

/// Whether `needle` stands in `s` at `at`.
pub fn is_at(s: &[char], needle: &[char], at: usize) -> (r: bool)
    requires
        at <= s@.len(),
    ensures
        r == stands_at(s@, needle@, at as int),
{
    assert(s@.len() == s.len());
    if needle.len() > s.len() - at {
        return false;
    }
    let mut i: usize = 0;
    while i < needle.len()
        invariant
            i <= needle@.len(),
            at + needle@.len() <= s@.len(),
            s@.len() <= usize::MAX,
            forall|j: int| 0 <= j < i ==> s@[at + j] == needle@[j],
        decreases needle@.len() - i,
    {
        if s[at + i] != needle[i] {
            proof {
                if s@.subrange(at as int, at + needle@.len()) == needle@ {
                    assert(s@.subrange(at as int, at + needle@.len())[i as int] == needle@[i as int]);
                }
            }
            return false;
        }
        i += 1;
    }
    assert(s@.subrange(at as int, at + needle@.len()) =~= needle@);
    true
}

/// Where `needle` stands first from `from` on.
pub fn find_text(s: &[char], needle: &[char], from: usize) -> (r: Option<usize>)
    requires
        from <= s@.len(),
    ensures
        match r {
            Some(i) => text_from(s@, needle@, from as int) == Some(i as int) && from <= i && i
                + needle@.len() <= s@.len(),
            None => text_from(s@, needle@, from as int) is None,
        },
{
    assert(s@.len() == s.len());
    let mut i = from;
    while i <= s.len() && needle.len() <= s.len() - i
        invariant
            from <= i <= s@.len() + 1,
            s@.len() == s.len(),
            s@.len() < usize::MAX || i <= s@.len(),
            text_from(s@, needle@, from as int) == text_from(s@, needle@, i as int),
        decreases s@.len() + 1 - i,
    {
        if is_at(s, needle, i) {
            return Some(i);
        }
        if i == s.len() {
            assert(text_from(s@, needle@, i + 1) is None);
            return None;
        }
        i += 1;
    }
    None
}

/// Whether `needle` stands somewhere in `s`.
pub fn has_text(s: &str, needle: &str) -> (r: bool)
    ensures
        r == contains_text(s@, needle@),
{
    let a = chars_of(s);
    let b = chars_of(needle);
    find_text(a.as_slice(), b.as_slice(), 0).is_some()
}

/// Whether `s` begins with `head`.
pub fn starts(s: &[char], head: &str) -> (r: bool)
    ensures
        r == begins_with(s@, head@),
{
    let h = chars_of(head);
    is_at(s, h.as_slice(), 0)
}

/// The lists of characters, as sequences.
pub open spec fn seqs(list: Seq<Vec<char>>) -> Seq<Seq<char>> {
    Seq::new(list.len(), |i: int| list[i]@)
}

/// The characters from `from` up to `to`.
pub fn part(s: &[char], from: usize, to: usize) -> (r: Vec<char>)
    requires
        from <= to <= s@.len(),
    ensures
        r@ == s@.subrange(from as int, to as int),
{
    slice_to_vec(slice_subrange(s, from, to))
}

/// The pieces between the occurrences of `c`.
pub fn split_on(s: &[char], c: char) -> (r: Vec<Vec<char>>)
    ensures
        seqs(r@) == pieces(s@, c),
{
    assert(s@.len() == s.len());
    let mut out: Vec<Vec<char>> = Vec::new();
    let mut at: usize = 0;
    assert(s@.skip(0) =~= s@);
    loop
        invariant
            at <= s@.len(),
            s@.len() == s.len(),
            pieces(s@, c) == seqs(out@) + pieces(s@.skip(at as int), c),
        decreases s@.len() - at,
    {
        let i = find_char(s, c, at);
        let ghost rest = s@.skip(at as int);
        proof {
            lemma_char_shift(s@, c, at as int);
        }
        let ghost done = seqs(out@);
        let piece = part(s, at, i);
        out.push(piece);
        assert(seqs(out@) =~= done.push(piece@));
        if i == s.len() {
            proof {
                assert(piece@ =~= rest);
                assert(done + seq![rest] =~= seqs(out@));
            }
            return out;
        }
        proof {
            assert(piece@ =~= rest.take(i - at));
            assert(rest.skip(i - at + 1) =~= s@.skip(i + 1));
            assert(done + (seq![piece@] + pieces(s@.skip(i + 1), c)) =~= seqs(out@) + pieces(
                s@.skip(i + 1),
                c,
            ));
        }
        at = i + 1;
    }
}

/// Searching behind the first `k` characters is searching from `k` on.
pub proof fn lemma_char_shift(s: Seq<char>, c: char, k: int)
    requires
        0 <= k <= s.len(),
    ensures
        char_from(s, c, k) == k + char_from(s.skip(k), c, 0),
{
    lemma_char_from(s, c, k);
    let t = s.skip(k);
    lemma_char_from(t, c, 0);
    let i = char_from(s, c, k);
    let j = char_from(t, c, 0);
    if i < k + j {
        assert(t[i - k] == s[i]);
    }
    if k + j < i {
        assert(t[j] == s[k + j]);
    }
}

/// What stands between the first and the second occurrence of `mark`, or behind
/// the only one.
pub fn part_behind(s: &[char], mark: &str) -> (r: Option<Vec<char>>)
    ensures
        match r {
            Some(t) => second_part(s@, mark@) == Some(t@),
            None => second_part(s@, mark@) is None,
        },
{
    let m = chars_of(mark);
    assert(s@.len() == s.len());
    match find_text(s, m.as_slice(), 0) {
        None => None,
        Some(i) => {
            let rest = part(s, i + m.len(), s.len());
            assert(rest@ =~= s@.skip(i + m@.len()));
            match find_text(rest.as_slice(), m.as_slice(), 0) {
                None => Some(rest),
                Some(j) => {
                    let t = part(rest.as_slice(), 0, j);
                    assert(t@ =~= rest@.take(j as int));
                    Some(t)
                },
            }
        },
    }
}

/// The lines.
pub fn split_lines(s: &[char]) -> (r: Vec<Vec<char>>)
    ensures
        seqs(r@) == lines_of(s@),
{
    assert(s@.len() == s.len());
    let mut out: Vec<Vec<char>> = Vec::new();
    let mut at: usize = 0;
    assert(s@.skip(0) =~= s@);
    assert(seqs(out@) + lines_of(s@) =~= lines_of(s@));
    while at < s.len()
        invariant
            at <= s@.len(),
            s@.len() == s.len(),
            lines_of(s@) == seqs(out@) + lines_of(s@.skip(at as int)),
        decreases s@.len() - at,
    {
        let i = find_char(s, '\n', at);
        let ghost rest = s@.skip(at as int);
        proof {
            lemma_char_shift(s@, '\n', at as int);
        }
        let ghost done = seqs(out@);
        if i == s.len() {
            let piece = part(s, at, i);
            out.push(piece);
            proof {
                assert(piece@ =~= rest);
                assert(seqs(out@) =~= done.push(piece@));
                assert(done + seq![rest] =~= seqs(out@));
            }
            return out;
        }
        let end = if i > at && s[i - 1] == '\r' {
            i - 1
        } else {
            i
        };
        let piece = part(s, at, end);
        out.push(piece);
        proof {
            assert(seqs(out@) =~= done.push(piece@));
            assert(piece@ =~= without_return(rest.take(i - at)));
            assert(rest.skip(i - at + 1) =~= s@.skip(i + 1));
            assert(done + (seq![piece@] + lines_of(s@.skip(i + 1))) =~= seqs(out@) + lines_of(
                s@.skip(i + 1),
            ));
        }
        at = i + 1;
    }
    assert(s@.skip(at as int) =~= Seq::empty());
    assert(seqs(out@) + lines_of(s@.skip(at as int)) =~= seqs(out@));
    out
}

/// The text without the white space at its front and at its end.
pub fn trim(s: &[char]) -> (r: Vec<char>)
    ensures
        r@ == trimmed(s@),
{
    assert(s@.len() == s.len());
    let mut from: usize = 0;
    assert(s@.skip(0) =~= s@);
    while from < s.len() && is_white(s[from])
        invariant
            from <= s@.len(),
            s@.len() == s.len(),
            trim_front(s@) == trim_front(s@.skip(from as int)),
        decreases s@.len() - from,
    {
        assert(s@.skip(from as int).skip(1) =~= s@.skip(from + 1));
        from += 1;
    }
    let ghost t = s@.skip(from as int);
    assert(trim_front(s@) == t);
    let mut to = s.len();
    assert(t.take(t.len() as int) =~= t);
    while to > from && is_white(s[to - 1])
        invariant
            from <= to <= s@.len(),
            s@.len() == s.len(),
            t == s@.skip(from as int),
            trim_end(t) == trim_end(t.take(to - from)),
        decreases to,
    {
        assert(t.take(to - from).drop_last() =~= t.take(to - from - 1));
        to -= 1;
    }
    let r = part(s, from, to);
    assert(r@ =~= t.take(to - from));
    r
}

/// The text without the characters `c` at its front and at its end.
pub fn strip(s: &[char], c: char) -> (r: Vec<char>)
    ensures
        r@ == stripped(s@, c),
{
    assert(s@.len() == s.len());
    let mut from: usize = 0;
    let mut to = s.len();
    assert(s@.subrange(0, s@.len() as int) =~= s@);
    while from < to && s[from] == c
        invariant
            from <= to,
            to == s@.len(),
            to == s.len(),
            stripped(s@, c) == stripped(s@.subrange(from as int, to as int), c),
        decreases to - from,
    {
        assert(s@.subrange(from as int, to as int).skip(1) =~= s@.subrange(from + 1, to as int));
        from += 1;
    }
    while from < to && s[to - 1] == c
        invariant
            from <= to <= s@.len(),
            s@.len() == s.len(),
            from < s@.len() ==> s@[from as int] != c,
            stripped(s@, c) == stripped(s@.subrange(from as int, to as int), c),
        decreases to - from,
    {
        assert(s@.subrange(from as int, to as int).drop_last() =~= s@.subrange(
            from as int,
            to - 1,
        ));
        to -= 1;
    }
    part(s, from, to)
}

/// The words.
pub fn split_words(s: &[char]) -> (r: Vec<Vec<char>>)
    ensures
        seqs(r@) == words_of(s@),
{
    assert(s@.len() == s.len());
    let mut out: Vec<Vec<char>> = Vec::new();
    let mut at: usize = 0;
    assert(s@.skip(0) =~= s@);
    assert(seqs(out@) + words_of(s@) =~= words_of(s@));
    loop
        invariant
            at <= s@.len(),
            s@.len() == s.len(),
            words_of(s@) == seqs(out@) + words_of(s@.skip(at as int)),
        decreases s@.len() - at,
    {
        let ghost start = s@.skip(at as int);
        let mut from = at;
        assert(s@.skip(from as int) =~= start);
        while from < s.len() && is_white(s[from])
            invariant
                at <= from <= s@.len(),
                s@.len() == s.len(),
                trim_front(start) == trim_front(s@.skip(from as int)),
            decreases s@.len() - from,
        {
            assert(s@.skip(from as int).skip(1) =~= s@.skip(from + 1));
            from += 1;
        }
        let ghost t = s@.skip(from as int);
        assert(trim_front(start) == t);
        if from == s.len() {
            assert(t.len() == 0);
            assert(seqs(out@) + Seq::<Seq<char>>::empty() =~= seqs(out@));
            return out;
        }
        let mut to = from;
        assert(t =~= s@.skip(to as int));
        while to < s.len() && !is_white(s[to])
            invariant
                from <= to <= s@.len(),
                s@.len() == s.len(),
                t == s@.skip(from as int),
                word_len(t) == to - from + word_len(s@.skip(to as int)),
            decreases s@.len() - to,
        {
            assert(s@.skip(to as int).skip(1) =~= s@.skip(to + 1));
            to += 1;
        }
        proof {
            lemma_word_len(t);
        }
        let ghost done = seqs(out@);
        let piece = part(s, from, to);
        out.push(piece);
        proof {
            assert(seqs(out@) =~= done.push(piece@));
            assert(piece@ =~= t.take(to - from));
            assert(t.skip(to - from) =~= s@.skip(to as int));
            assert(done + (seq![piece@] + words_of(s@.skip(to as int))) =~= seqs(out@) + words_of(
                s@.skip(to as int),
            ));
        }
        at = to;
    }
}

/// Whether `c` is a decimal digit.
pub open spec fn is_digit(c: char) -> bool {
    '0' <= c <= '9'
}

/// The number that the digits denote.
pub open spec fn digits_value(s: Seq<char>) -> nat
    decreases s.len(),
{
    if s.len() == 0 {
        0
    } else {
        10 * digits_value(s.drop_last()) + (s.last() as nat - '0' as nat) as nat
    }
}

/// Whether every character is a decimal digit.
pub open spec fn all_digits(s: Seq<char>) -> bool {
    forall|i: int| 0 <= i < s.len() ==> is_digit(#[trigger] s[i])
}

/// The number that `s` denotes in decimal notation, with or without a plus sign,
/// if it is not above `max`.
pub open spec fn unsigned_value(s: Seq<char>, max: nat) -> Option<nat> {
    let d = if s.len() > 0 && s[0] == '+' {
        s.skip(1)
    } else {
        s
    };
    if d.len() > 0 && all_digits(d) && digits_value(d) <= max {
        Some(digits_value(d))
    } else {
        None
    }
}

proof fn lemma_digits_grow(s: Seq<char>, i: int)
    requires
        0 <= i <= s.len(),
        all_digits(s),
    ensures
        digits_value(s.take(i)) <= digits_value(s),
    decreases s.len(),
{
    if i < s.len() {
        assert(s.drop_last().take(i) =~= s.take(i));
        assert forall|j: int| 0 <= j < s.drop_last().len() implies is_digit(
            #[trigger] s.drop_last()[j],
        ) by {
            assert(s.drop_last()[j] == s[j]);
        }
        lemma_digits_grow(s.drop_last(), i);
    } else {
        assert(s.take(i) =~= s);
    }
}

/// The number that `s` denotes, if it is not above `max`.
pub fn parse_unsigned(s: &[char], max: u64) -> (r: Option<u64>)
    ensures
        match r {
            Some(n) => unsigned_value(s@, max as nat) == Some(n as nat),
            None => unsigned_value(s@, max as nat) is None,
        },
{
    assert(s@.len() == s.len());
    let from: usize = if s.len() > 0 && s[0] == '+' {
        1
    } else {
        0
    };
    let ghost d = s@.skip(from as int);
    assert(from == 0 ==> d =~= s@);
    if from == s.len() {
        return None;
    }
    let mut n: u64 = 0;
    let mut i = from;
    assert(d.take(0) =~= Seq::empty());
    while i < s.len()
        invariant
            from <= i <= s@.len(),
            s@.len() == s.len(),
            d == s@.skip(from as int),
            d == (if s@.len() > 0 && s@[0] == '+' {
                s@.skip(1)
            } else {
                s@
            }),
            n <= max,
            n == digits_value(d.take(i - from)),
            forall|j: int| 0 <= j < i - from ==> is_digit(#[trigger] d[j]),
        decreases s@.len() - i,
    {
        let c = s[i];
        assert(c == d[i - from]);
        if !(c >= '0' && c <= '9') {
            assert(!all_digits(d)) by {
                if all_digits(d) {
                    assert(is_digit(d[i - from]));
                }
            }
            return None;
        }
        let v = c as u32 - 48;
        proof {
            assert(d.take(i - from + 1).drop_last() =~= d.take(i - from));
            assert(digits_value(d.take(i - from + 1)) == 10 * n + v);
        }
        let wide = n as u128 * 10 + v as u128;
        if wide > max as u128 {
            proof {
                if all_digits(d) {
                    lemma_digits_grow(d, i - from + 1);
                }
            }
            return None;
        }
        n = wide as u64;
        i += 1;
    }
    assert(d.take(i - from) =~= d);
    Some(n)
}

/// Whether `a` comes before `b`, by the first character that differs; a text comes
/// after its own beginnings.
pub open spec fn text_less(a: Seq<char>, b: Seq<char>) -> bool
    decreases a.len(),
{
    if b.len() == 0 {
        false
    } else if a.len() == 0 {
        true
    } else if a[0] != b[0] {
        a[0] < b[0]
    } else {
        text_less(a.skip(1), b.skip(1))
    }
}

/// Whether `a` comes before `b`.
pub fn less(a: &[char], b: &[char]) -> (r: bool)
    ensures
        r == text_less(a@, b@),
{
    assert(a@.len() == a.len());
    assert(b@.len() == b.len());
    let mut i: usize = 0;
    assert(a@.skip(0) =~= a@);
    assert(b@.skip(0) =~= b@);
    while i < a.len() && i < b.len()
        invariant
            i <= a@.len(),
            i <= b@.len(),
            a@.len() == a.len(),
            b@.len() == b.len(),
            text_less(a@, b@) == text_less(a@.skip(i as int), b@.skip(i as int)),
        decreases a@.len() - i,
    {
        if a[i] != b[i] {
            return a[i] < b[i];
        }
        assert(a@.skip(i as int).skip(1) =~= a@.skip(i + 1));
        assert(b@.skip(i as int).skip(1) =~= b@.skip(i + 1));
        i += 1;
    }
    i < b.len()
}

/// `n` times the character `c`.
pub open spec fn repeated(c: char, n: nat) -> Seq<char> {
    Seq::new(n, |i: int| c)
}

/// `s`, filled up with spaces to `width` characters.
pub open spec fn padded(s: Seq<char>, width: nat) -> Seq<char> {
    if s.len() < width {
        s + repeated(' ', (width - s.len()) as nat)
    } else {
        s
    }
}

/// Appends `n` times the character `c`.
pub fn push_repeated(out: &mut String, c: char, n: usize)
    ensures
        final(out)@ == old(out)@ + repeated(c, n as nat),
{
    let ghost start = out@;
    let mut i: usize = 0;
    assert(start + repeated(c, 0) =~= start);
    while i < n
        invariant
            i <= n,
            out@ == start + repeated(c, i as nat),
        decreases n - i,
    {
        out.push(c);
        i += 1;
        assert(out@ =~= start + repeated(c, i as nat));
    }
}

/// Appends `s`, filled up with spaces to `width` characters.
pub fn push_padded(out: &mut String, s: &str, width: usize)
    ensures
        final(out)@ == old(out)@ + padded(s@, width as nat),
{
    let ghost start = out@;
    let n = s.unicode_len();
    out.append(s);
    if n < width {
        push_repeated(out, ' ', width - n);
    }
    assert(out@ =~= start + padded(s@, width as nat));
}

} // verus!
