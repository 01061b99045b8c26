//! What splitting, searching and trimming texts yields, told by how the texts are put
//! together.
use crate::text::{decimal, digit};
use crate::words::{
    all_digits, before, begins_with, behind, char_from, contains_text, digits_value, is_digit,
    lemma_char_from, lemma_text_from, lines_of, pieces, second_part, stands_at, stripped, text_from,
    trim_end, trim_front, trimmed, unsigned_value, white_space, word_len, words_of, without_return,
};
use vstd::prelude::*;

verus! {

/// A text contains what it is put together with, and nothing else: `p`, `n` and `s`
/// one after the other contain `n`.
pub proof fn law_contains(p: Seq<char>, n: Seq<char>, s: Seq<char>)
    ensures
        contains_text(p + n + s, n),
        begins_with(n + s, n),
{
    let t = p + n + s;
    assert(t.subrange(p.len() as int, (p.len() + n.len()) as int) =~= n);
    assert(stands_at(t, n, p.len() as int));
    lemma_text_from(t, n, 0);
    assert((n + s).subrange(0, n.len() as int) =~= n);
}

/// What a text contains stands in it between some beginning and some end.
pub proof fn law_contained(t: Seq<char>, n: Seq<char>)
    ensures
        contains_text(t, n) <==> exists|p: Seq<char>, s: Seq<char>| t == #[trigger] (p + n + s),
        begins_with(t, n) <==> exists|s: Seq<char>| t == #[trigger] (n + s),
{
    lemma_text_from(t, n, 0);
    if contains_text(t, n) {
        let i = text_from(t, n, 0)->0;
        let p = t.take(i);
        let s = t.skip(i + n.len());
        assert(t.subrange(i, i + n.len()) == n);
        assert(t =~= p + n + s);
    }
    if exists|p: Seq<char>, s: Seq<char>| t == #[trigger] (p + n + s) {
        let (p, s) = choose|p: Seq<char>, s: Seq<char>| t == #[trigger] (p + n + s);
        law_contains(p, n, s);
    }
    if begins_with(t, n) {
        let s = t.skip(n.len() as int);
        assert(t.subrange(0, n.len() as int) == n);
        assert(t =~= n + s);
    }
    if exists|s: Seq<char>| t == #[trigger] (n + s) {
        let s = choose|s: Seq<char>| t == #[trigger] (n + s);
        law_contains(Seq::empty(), n, s);
    }
}

proof fn lemma_char_is(s: Seq<char>, c: char, k: int)
    requires
        0 <= k <= s.len(),
        forall|j: int| 0 <= j < k ==> s[j] != c,
        k < s.len() ==> s[k] == c,
    ensures
        char_from(s, c, 0) == k,
{
    lemma_char_from(s, c, 0);
    let i = char_from(s, c, 0);
    if i < k {
        assert(s[i] == c);
    }
    if k < i {
        assert(s[k] != c);
    }
}

/// A text is cut at the first occurrence of a character into what stands in front of
/// it and what stands behind it.
pub proof fn law_cut(a: Seq<char>, c: char, b: Seq<char>)
    requires
        !a.contains(c),
    ensures
        before(a + seq![c] + b, c) == a,
        behind(a + seq![c] + b, c) == Some(b),
        before(a, c) == a,
        behind(a, c) is None,
        pieces(a + seq![c] + b, c) == seq![a] + pieces(b, c),
        pieces(a, c) == seq![a],
{
    let s = a + seq![c] + b;
    assert forall|j: int| 0 <= j < a.len() implies a[j] != c && s[j] != c by {
        assert(a.contains(a[j]));
    }
    lemma_char_is(s, c, a.len() as int);
    lemma_char_is(a, c, a.len() as int);
    assert(s.take(a.len() as int) =~= a);
    assert(s.skip(a.len() as int + 1) =~= b);
    assert(a.take(a.len() as int) =~= a);
}

/// A line ends with a line feed, or with a carriage return and a line feed; the rest
/// of the text holds the other lines.
pub proof fn law_lines(a: Seq<char>, b: Seq<char>)
    requires
        !a.contains('\n'),
    ensures
        lines_of(a + seq!['\r', '\n'] + b) == seq![a] + lines_of(b),
        a.len() == 0 || a.last() != '\r' ==> lines_of(a + seq!['\n'] + b) == seq![a] + lines_of(b),
        a.len() > 0 ==> lines_of(a) == seq![a],
{
    let s = a + seq!['\r', '\n'] + b;
    assert forall|j: int| 0 <= j < a.len() implies a[j] != '\n' by {
        assert(a.contains(a[j]));
    }
    lemma_char_is(s, '\n', a.len() as int + 1);
    assert(s.take(a.len() as int + 1) =~= a.push('\r'));
    assert(without_return(a.push('\r')) =~= a);
    assert(s.skip(a.len() as int + 2) =~= b);
    let t = a + seq!['\n'] + b;
    lemma_char_is(t, '\n', a.len() as int);
    assert(t.take(a.len() as int) =~= a);
    assert(t.skip(a.len() as int + 1) =~= b);
    lemma_char_is(a, '\n', a.len() as int);
}

/// Whether all of the text is white space.
pub open spec fn blank(s: Seq<char>) -> bool {
    forall|i: int| 0 <= i < s.len() ==> white_space(#[trigger] s[i])
}

proof fn lemma_trim_front_of(a: Seq<char>, m: Seq<char>)
    requires
        blank(a),
        m.len() > 0 ==> !white_space(m[0]),
    ensures
        trim_front(a + m) == m,
    decreases a.len(),
{
    if a.len() > 0 {
        assert((a + m)[0] == a[0]);
        assert((a + m).skip(1) =~= a.skip(1) + m);
        assert forall|i: int| 0 <= i < a.skip(1).len() implies white_space(
            #[trigger] a.skip(1)[i],
        ) by {
            assert(a.skip(1)[i] == a[i + 1]);
        }
        lemma_trim_front_of(a.skip(1), m);
    } else {
        assert(a + m =~= m);
    }
}

proof fn lemma_trim_end_of(m: Seq<char>, b: Seq<char>)
    requires
        blank(b),
        m.len() > 0 ==> !white_space(m.last()),
    ensures
        trim_end(m + b) == m,
    decreases b.len(),
{
    if b.len() > 0 {
        assert((m + b).last() == b.last());
        assert(b.last() == b[b.len() - 1]);
        assert((m + b).drop_last() =~= m + b.drop_last());
        assert forall|i: int| 0 <= i < b.drop_last().len() implies white_space(
            #[trigger] b.drop_last()[i],
        ) by {
            assert(b.drop_last()[i] == b[i]);
        }
        lemma_trim_end_of(m, b.drop_last());
    } else {
        assert(m + b =~= m);
    }
}

/// Trimming takes away the white space on both sides, and nothing else.
pub proof fn law_trimmed(a: Seq<char>, m: Seq<char>, b: Seq<char>)
    requires
        blank(a),
        blank(b),
        m.len() > 0 ==> !white_space(m[0]) && !white_space(m.last()),
    ensures
        trimmed(a + m + b) == m,
{
    if m.len() > 0 {
        assert(a + m + b =~= a + (m + b));
        assert((m + b)[0] == m[0]);
        lemma_trim_front_of(a, m + b);
        lemma_trim_end_of(m, b);
    } else {
        assert(a + m + b =~= (a + b) + m);
        assert forall|i: int| 0 <= i < (a + b).len() implies white_space(#[trigger] (a + b)[i]) by {
            if i >= a.len() {
                assert((a + b)[i] == b[i - a.len()]);
            }
        }
        lemma_trim_front_of(a + b, m);
        assert(m =~= m + Seq::<char>::empty());
        lemma_trim_end_of(m, Seq::empty());
    }
}

/// Stripping takes away the character on both sides, and leaves a text alone that has
/// it on neither.
pub proof fn law_stripped(m: Seq<char>, c: char)
    requires
        m.len() > 0 ==> m[0] != c && m.last() != c,
    ensures
        stripped(m, c) == m,
        stripped(seq![c] + m + seq![c], c) == m,
{
    let s = seq![c] + m + seq![c];
    assert(s.skip(1) =~= m + seq![c]);
    let t = s.skip(1);
    assert(t.last() == c);
    assert(t.drop_last() =~= m);
    reveal_with_fuel(stripped, 3);
    if m.len() > 0 {
        assert(t[0] == m[0]);
    } else {
        assert(t[0] == c);
        assert(t.skip(1) =~= m);
    }
}

/// What stands behind a mark that occurs once.
pub proof fn law_second_part(a: Seq<char>, mark: Seq<char>, b: Seq<char>)
    requires
        mark.len() > 0,
        forall|i: int| 0 <= i < a.len() ==> !#[trigger] stands_at(a + mark + b, mark, i),
        !contains_text(b, mark),
    ensures
        second_part(a + mark + b, mark) == Some(b),
{
    let s = a + mark + b;
    assert(s.subrange(a.len() as int, (a.len() + mark.len()) as int) =~= mark);
    assert(stands_at(s, mark, a.len() as int));
    lemma_text_from(s, mark, 0);
    let i = text_from(s, mark, 0)->0;
    if i < a.len() {
        assert(!stands_at(s, mark, i));
    }
    assert(i == a.len());
    assert(s.skip(i + mark.len()) =~= b);
}

proof fn lemma_digit(d: nat)
    requires
        d < 10,
    ensures
        is_digit(digit(d)),
        digit(d) as nat - '0' as nat == d,
{
    assert(digit(0) == '0' && digit(1) == '1' && digit(2) == '2' && digit(3) == '3' && digit(4)
        == '4' && digit(5) == '5' && digit(6) == '6' && digit(7) == '7' && digit(8) == '8'
        && digit(9) == '9');
}

/// The decimal notation of a number denotes it, and has no zero in front unless it is
/// that of zero.
pub proof fn law_decimal(n: nat)
    ensures
        all_digits(decimal(n)),
        digits_value(decimal(n)) == n,
        decimal(n).len() >= 1,
        n > 0 ==> decimal(n)[0] != '0',
    decreases n,
{
    if n < 10 {
        lemma_digit(n);
        let s = decimal(n);
        assert(s.drop_last() =~= Seq::empty());
        reveal_with_fuel(digits_value, 2);
    } else {
        law_decimal(n / 10);
        lemma_digit(n % 10);
        let s = decimal(n);
        assert(s.drop_last() =~= decimal(n / 10));
        assert(s.last() == digit(n % 10));
        assert forall|i: int| 0 <= i < s.len() implies is_digit(#[trigger] s[i]) by {
            if i < s.len() - 1 {
                assert(s[i] == decimal(n / 10)[i]);
            }
        }
        assert(s[0] == decimal(n / 10)[0]);
    }
}

/// The notation of a number is read as that number, unless it is too large.
pub proof fn law_number_read(n: nat, max: nat)
    ensures
        unsigned_value(decimal(n), max) == (if n <= max {
            Some(n)
        } else {
            None
        }),
{
    law_decimal(n);
    let s = decimal(n);
    assert(is_digit(s[0]));
}

/// Different numbers have different notations.
pub proof fn law_decimal_apart(m: nat, n: nat)
    requires
        decimal(m) == decimal(n),
    ensures
        m == n,
{
    law_decimal(m);
    law_decimal(n);
}

/// Whether the text is a word: not empty, and without white space.
pub open spec fn is_word(w: Seq<char>) -> bool {
    w.len() > 0 && forall|i: int| 0 <= i < w.len() ==> !white_space(#[trigger] w[i])
}

proof fn lemma_word_len_of(w: Seq<char>, rest: Seq<char>)
    requires
        forall|i: int| 0 <= i < w.len() ==> !white_space(#[trigger] w[i]),
        rest.len() == 0 || white_space(rest[0]),
    ensures
        word_len(w + rest) == w.len(),
    decreases w.len(),
{
    if w.len() > 0 {
        assert((w + rest)[0] == w[0]);
        assert((w + rest).skip(1) =~= w.skip(1) + rest);
        assert forall|i: int| 0 <= i < w.skip(1).len() implies !white_space(
            #[trigger] w.skip(1)[i],
        ) by {
            assert(w.skip(1)[i] == w[i + 1]);
        }
        lemma_word_len_of(w.skip(1), rest);
    } else {
        assert(w + rest =~= rest);
    }
}

/// The words of a text: what stands between the white space.
pub proof fn law_words(a: Seq<char>, w: Seq<char>, rest: Seq<char>)
    requires
        blank(a),
        is_word(w),
        rest.len() == 0 || white_space(rest[0]),
    ensures
        words_of(a + w + rest) == seq![w] + words_of(rest),
{
    let s = a + w + rest;
    let t = w + rest;
    assert(s =~= a + t);
    assert(t[0] == w[0]);
    lemma_trim_front_of(a, t);
    lemma_word_len_of(w, rest);
    assert(t.take(w.len() as int) =~= w);
    assert(t.skip(w.len() as int) =~= rest);
}

/// White space alone has no words.
pub proof fn law_no_words(a: Seq<char>)
    requires
        blank(a),
    ensures
        words_of(a) == Seq::<Seq<char>>::empty(),
{
    assert(a + Seq::<char>::empty() =~= a);
    lemma_trim_front_of(a, Seq::empty());
}

} // verus!
