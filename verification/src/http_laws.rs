//! What is read of a request is what was written into it.
use crate::http::{
    asked, content_type_of, decoded_from, first_line, hex_pair, query_part, route_of, url_decoded,
    value_from, LookupView,
};
use crate::forms::{upload_of, upload_of_pairs, UploadView};
use crate::dispatch::{param, route_in};
use crate::search::QueryView;
use crate::text::lossy;
use crate::web_search::conditions_in;
use crate::word_laws::{blank, is_word, law_cut, law_lines, law_words};
use crate::words::{before, behind, contains_text, lines_of, pieces, white_space, words_of};
use vstd::prelude::*;
use vstd::string::*;
use vstd::utf8::*;

verus! {

/// A hexadecimal digit.
pub open spec fn hex_byte(d: int) -> u8 {
    if d < 10 {
        (48 + d) as u8
    } else {
        (55 + d) as u8
    }
}

/// Whether the character stands for itself in a target: a letter, a digit, or one of
/// four signs.
pub open spec fn plain(c: char) -> bool {
    ||| 'a' <= c <= 'z'
    ||| 'A' <= c <= 'Z'
    ||| '0' <= c <= '9'
    ||| c == '-'
    ||| c == '_'
    ||| c == '.'
    ||| c == '~'
}

/// How a character is written in a target: as it is, a space as a plus sign, and
/// anything else as a percent sign and its number in hexadecimal notation.
pub open spec fn url_char(c: char) -> Seq<u8> {
    if plain(c) {
        seq![c as u8]
    } else if c == ' ' {
        seq![43u8]
    } else {
        seq![37u8, hex_byte(c as int / 16), hex_byte(c as int % 16)]
    }
}

/// How a text is written in a target.
pub open spec fn url_bytes(t: Seq<char>) -> Seq<u8>
    decreases t.len(),
{
    if t.len() == 0 {
        Seq::empty()
    } else {
        url_char(t[0]) + url_bytes(t.skip(1))
    }
}

/// How a text is written in a target, as a text.
pub open spec fn url_text(t: Seq<char>) -> Seq<char> {
    url_bytes(t).map_values(|b: u8| b as char)
}

proof fn lemma_url_char(c: char)
    requires
        '\0' <= c <= '\u{7f}',
    ensures
        !plain(c) && c != ' ' ==> hex_pair(
            hex_byte(c as int / 16),
            hex_byte(c as int % 16),
        ) == Some(c as nat),
        (c as nat) as char == c,
        (c as u8) as char == c,
        plain(c) ==> c as u8 != 37 && c as u8 != 43 && c as u8 != 38 && c as u8 != 61,
        forall|i: int|
            0 <= i < url_char(c).len() ==> (#[trigger] url_char(c)[i]) < 128 && url_char(c)[i]
                != 38 && url_char(c)[i] != 61 && url_char(c)[i] > 32 && url_char(c)[i] != 63,
{
    let n = c as int;
    assert(0 <= n < 128);
    assert(n == 16 * (n / 16) + n % 16);
}

proof fn lemma_url_bytes(t: Seq<char>)
    requires
        is_ascii_chars(t),
    ensures
        forall|i: int|
            0 <= i < url_bytes(t).len() ==> (#[trigger] url_bytes(t)[i]) < 128 && url_bytes(t)[i]
                != 38 && url_bytes(t)[i] != 61 && url_bytes(t)[i] > 32 && url_bytes(t)[i] != 63,
    decreases t.len(),
{
    if t.len() > 0 {
        assert forall|i: int| 0 <= i < t.skip(1).len() implies '\0' <= #[trigger] t.skip(1)[i]
            <= '\u{7f}' by {
            assert(t.skip(1)[i] == t[i + 1]);
        }
        lemma_url_bytes(t.skip(1));
        lemma_url_char(t[0]);
        let b = url_bytes(t);
        let k = url_char(t[0]).len();
        assert forall|i: int| 0 <= i < b.len() implies (#[trigger] b[i]) < 128 && b[i] != 38 && b[i]
            != 61 && b[i] > 32 && b[i] != 63 by {
            if i < k {
                assert(b[i] == url_char(t[0])[i]);
            } else {
                assert(b[i] == url_bytes(t.skip(1))[i - k]);
            }
        }
    }
}

proof fn lemma_decoded(pre: Seq<u8>, t: Seq<char>)
    requires
        is_ascii_chars(t),
    ensures
        decoded_from(pre + url_bytes(t), pre.len() as int) == t,
    decreases t.len(),
{
    let b = pre + url_bytes(t);
    let at = pre.len() as int;
    if t.len() == 0 {
        assert(decoded_from(b, at) =~= t);
    } else {
        let c = t[0];
        let w = url_char(c);
        let rest = t.skip(1);
        assert forall|i: int| 0 <= i < rest.len() implies '\0' <= #[trigger] rest[i]
            <= '\u{7f}' by {
            assert(rest[i] == t[i + 1]);
        }
        lemma_url_char(c);
        lemma_decoded(pre + w, rest);
        assert(b =~= (pre + w) + url_bytes(rest));
        assert(b[at] == w[0]);
        if !plain(c) && c != ' ' {
            assert(b[at + 1] == w[1] && b[at + 2] == w[2]);
        }
        assert(seq![c] + rest =~= t);
    }
}

/// A text that is written into a target is read from it again.
pub proof fn law_url(t: Seq<char>)
    requires
        is_ascii_chars(t),
    ensures
        url_decoded(url_text(t)) == Some(t),
        !url_text(t).contains('&'),
        !url_text(t).contains('='),
        !url_text(t).contains('?'),
        forall|i: int| 0 <= i < url_text(t).len() ==> !white_space(#[trigger] url_text(t)[i]),
        t.len() > 0 ==> url_text(t).len() > 0,
{
    let b = url_bytes(t);
    let s = url_text(t);
    lemma_url_bytes(t);
    assert forall|i: int| 0 <= i < s.len() implies '\0' <= #[trigger] s[i] <= '\u{7f}' && s[i] as u8
        == b[i] && s[i] != '&' && s[i] != '=' && s[i] != '?' && !white_space(s[i]) by {
        lemma_byte_char(b[i]);
        assert(s[i] == b[i] as char);
    }
    is_ascii_chars_encode_utf8(s);
    assert(encode_utf8(s) =~= b);
    encode_utf8_valid_utf8(s);
    assert forall|i: int| 0 <= i && i + 2 < b.len() && #[trigger] b[i] == 37 implies is_char_boundary(
        b,
        i + 3,
    ) by {
        if i + 3 < b.len() {
            is_char_boundary_iff_not_is_continuation_byte(b, i + 3);
            lemma_ascii_no_continuation(b[i + 3]);
        } else {
            is_char_boundary_start_end_of_seq(b);
        }
    }
    lemma_decoded(Seq::empty(), t);
    assert(Seq::<u8>::empty() + b =~= b);
    if t.len() > 0 {
        assert(url_char(t[0]).len() > 0);
    }
}

proof fn lemma_ascii_no_continuation(x: u8)
    requires
        x < 128,
    ensures
        !is_continuation_byte(x),
{
    assert(x < 128 ==> !is_continuation_byte(x)) by (bit_vector);
}

proof fn lemma_byte_char(x: u8)
    requires
        32 < x < 128,
        x != 38,
        x != 61,
        x != 63,
    ensures
        '\0' <= x as char <= '\u{7f}',
        (x as char) as u8 == x,
        x as char != '&',
        x as char != '=',
        x as char != '?',
        !white_space(x as char),
{
}

/// A list of pairs as it stands in a target or in a simple form.
pub open spec fn query_text(keys: Seq<Seq<char>>, values: Seq<Seq<char>>) -> Seq<char>
    decreases keys.len(),
{
    if keys.len() == 0 {
        Seq::empty()
    } else if keys.len() == 1 {
        keys[0] + seq!['='] + url_text(values[0])
    } else {
        keys[0] + seq!['='] + url_text(values[0]) + seq!['&'] + query_text(
            keys.skip(1),
            values.skip(1),
        )
    }
}

/// Whether the pairs can be written: the keys hold no sign that separates, and the
/// values are ASCII.
pub open spec fn writable(keys: Seq<Seq<char>>, values: Seq<Seq<char>>) -> bool {
    &&& keys.len() == values.len()
    &&& forall|i: int|
        0 <= i < keys.len() ==> !(#[trigger] keys[i]).contains('&') && !keys[i].contains('=')
            && !keys[i].contains('?') && is_word(keys[i])
    &&& forall|i: int| 0 <= i < values.len() ==> is_ascii_chars(#[trigger] values[i])
}

/// The value of the first pair under `key`. Where `blank` does not hold, an empty value
/// does not count.
pub open spec fn first_value(
    keys: Seq<Seq<char>>,
    values: Seq<Seq<char>>,
    key: Seq<char>,
    blank: bool,
) -> Option<Seq<char>>
    decreases keys.len(),
{
    if keys.len() == 0 {
        None
    } else if keys[0] == key && (blank || values[0].len() > 0) {
        Some(values[0])
    } else {
        first_value(keys.skip(1), values.skip(1), key, blank)
    }
}

/// The pairs as texts.
spec fn pair_texts(keys: Seq<Seq<char>>, values: Seq<Seq<char>>) -> Seq<Seq<char>> {
    Seq::new(keys.len(), |i: int| keys[i] + seq!['='] + url_text(values[i]))
}

proof fn lemma_pieces(keys: Seq<Seq<char>>, values: Seq<Seq<char>>)
    requires
        writable(keys, values),
        keys.len() > 0,
    ensures
        pieces(query_text(keys, values), '&') == pair_texts(keys, values),
    decreases keys.len(),
{
    let pair = keys[0] + seq!['='] + url_text(values[0]);
    law_url(values[0]);
    assert(!pair.contains('&')) by {
        if pair.contains('&') {
            let i = choose|i: int| 0 <= i < pair.len() && pair[i] == '&';
            if i < keys[0].len() {
                assert(keys[0].contains(keys[0][i]));
            } else if i > keys[0].len() {
                let u = url_text(values[0]);
                assert(u.contains(u[i - keys[0].len() - 1]));
            }
        }
    }
    if keys.len() == 1 {
        law_cut(pair, '&', Seq::empty());
        assert(pair_texts(keys, values) =~= seq![pair]);
    } else {
        let rest = query_text(keys.skip(1), values.skip(1));
        lemma_writable_rest(keys, values);
        lemma_pieces(keys.skip(1), values.skip(1));
        law_cut(pair, '&', rest);
        assert(pair_texts(keys, values) =~= seq![pair] + pair_texts(keys.skip(1), values.skip(1)));
    }
}

proof fn lemma_writable_rest(keys: Seq<Seq<char>>, values: Seq<Seq<char>>)
    requires
        writable(keys, values),
        keys.len() > 0,
    ensures
        writable(keys.skip(1), values.skip(1)),
{
    let k = keys.skip(1);
    let v = values.skip(1);
    assert forall|i: int| 0 <= i < k.len() implies !(#[trigger] k[i]).contains('&')
        && !k[i].contains('=') && !k[i].contains('?') && is_word(k[i]) by {
        assert(k[i] == keys[i + 1]);
    }
    assert forall|i: int| 0 <= i < v.len() implies is_ascii_chars(#[trigger] v[i]) by {
        assert(v[i] == values[i + 1]);
    }
}

proof fn lemma_value(
    all: Seq<Seq<char>>,
    keys: Seq<Seq<char>>,
    values: Seq<Seq<char>>,
    key: Seq<char>,
    blank: bool,
    at: int,
)
    requires
        writable(keys, values),
        0 <= at,
        all.len() == at + keys.len(),
        forall|i: int|
            0 <= i < keys.len() ==> #[trigger] all[at + i] == keys[i] + seq!['='] + url_text(
                values[i],
            ),
    ensures
        value_from(all, key, blank, at) == (match first_value(keys, values, key, blank) {
            Some(t) => LookupView::Found(t),
            None => LookupView::Missing,
        }),
    decreases keys.len(),
{
    if keys.len() > 0 {
        assert(all[at + 0] == keys[0] + seq!['='] + url_text(values[0]));
        law_url(values[0]);
        law_cut(keys[0], '=', url_text(values[0]));
        lemma_writable_rest(keys, values);
        assert forall|i: int| 0 <= i < keys.skip(1).len() implies #[trigger] all[at + 1 + i]
            == keys.skip(1)[i] + seq!['='] + url_text(values.skip(1)[i]) by {
            assert(all[at + (i + 1)] == keys[i + 1] + seq!['='] + url_text(values[i + 1]));
        }
        lemma_value(all, keys.skip(1), values.skip(1), key, blank, at + 1);
        if values[0].len() == 0 {
            assert(url_text(values[0]).len() == 0);
        }
    }
}

/// Every value that is written into a list of pairs is read from it again under its
/// key; of several pairs with one key the first counts. What has no pair is missing.
pub proof fn law_pairs(
    keys: Seq<Seq<char>>,
    values: Seq<Seq<char>>,
    key: Seq<char>,
    blank: bool,
)
    requires
        writable(keys, values),
        keys.len() > 0,
    ensures
        value_from(pieces(query_text(keys, values), '&'), key, blank, 0) == (match first_value(
            keys,
            values,
            key,
            blank,
        ) {
            Some(t) => LookupView::Found(t),
            None => LookupView::Missing,
        }),
{
    lemma_pieces(keys, values);
    let all = pieces(query_text(keys, values), '&');
    assert forall|i: int| 0 <= i < keys.len() implies #[trigger] all[0 + i] == keys[i] + seq!['=']
        + url_text(values[i]) by {}
    lemma_value(all, keys, values, key, blank, 0);
}

/// The first line of a request: the method, the path with the pairs behind a question
/// mark, and the version.
pub open spec fn line_with(
    method: Seq<char>,
    path: Seq<char>,
    query: Seq<char>,
    version: Seq<char>,
) -> Seq<char> {
    method + seq![' '] + (path + seq!['?'] + query) + seq![' '] + version
}

proof fn lemma_query_word(keys: Seq<Seq<char>>, values: Seq<Seq<char>>)
    requires
        writable(keys, values),
    ensures
        forall|i: int|
            0 <= i < query_text(keys, values).len() ==> !white_space(
                #[trigger] query_text(keys, values)[i],
            ),
    decreases keys.len(),
{
    if keys.len() > 0 {
        law_url(values[0]);
        lemma_writable_rest(keys, values);
        lemma_query_word(keys.skip(1), values.skip(1));
        let q = query_text(keys, values);
        let k = keys[0].len() as int;
        let u = url_text(values[0]);
        assert(is_word(keys[0]));
        assert forall|i: int| 0 <= i < q.len() implies !white_space(#[trigger] q[i]) by {
            if i < k {
                assert(q[i] == keys[0][i]);
            } else if i == k {
                assert(q[i] == '=');
            } else if i < k + 1 + u.len() {
                assert(q[i] == u[i - k - 1]);
            } else if i == k + 1 + u.len() {
                assert(q[i] == '&');
            } else {
                assert(q[i] == query_text(keys.skip(1), values.skip(1))[i - k - 2 - u.len()]);
            }
        }
    }
}

/// What a first line is put together from is read from it again: the method, the path
/// and the pairs.
proof fn lemma_line(
    method: Seq<char>,
    path: Seq<char>,
    keys: Seq<Seq<char>>,
    values: Seq<Seq<char>>,
    version: Seq<char>,
)
    requires
        is_word(method),
        is_word(path),
        is_word(version),
        !path.contains('?'),
        writable(keys, values),
    ensures
        ({
            let query = query_text(keys, values);
            let line = line_with(method, path, query, version);
            &&& first_line(line) == line
            &&& asked(line).0 == method
            &&& before(asked(line).1, '?') == path
            &&& query_part(line) == query
        }),
{
    let query = query_text(keys, values);
    let target = path + seq!['?'] + query;
    let line = line_with(method, path, query, version);
    lemma_query_word(keys, values);
    assert(white_space(' '));
    assert(!white_space('?'));
    assert forall|i: int| 0 <= i < target.len() implies !white_space(#[trigger] target[i]) by {
        if i < path.len() {
            assert(target[i] == path[i]);
        } else if i > path.len() {
            assert(target[i] == query[i - path.len() - 1]);
        }
    }
    let rest = seq![' '] + target + seq![' '] + version;
    let last = seq![' '] + version;
    assert(Seq::<char>::empty() + method + rest =~= line);
    law_words(Seq::empty(), method, rest);
    assert(rest =~= seq![' '] + target + last);
    assert(blank(seq![' '])) by {
        assert forall|i: int| 0 <= i < seq![' '].len() implies white_space(
            #[trigger] seq![' '][i],
        ) by {}
    }
    law_words(seq![' '], target, last);
    let w = words_of(line);
    assert(w[0] == method);
    assert(w[1] == target);
    assert(w.len() >= 2);
    law_cut(path, '?', query);
    assert(!line.contains('\n')) by {
        if line.contains('\n') {
            let i = choose|i: int| 0 <= i < line.len() && line[i] == '\n';
            assert(white_space('\n'));
            let m = method.len() as int;
            let t = target.len() as int;
            if i < m {
                assert(line[i] == method[i]);
            } else if m < i < m + 1 + t {
                assert(line[i] == target[i - m - 1]);
            } else if i > m + 1 + t {
                assert(line[i] == version[i - m - t - 2]);
            }
        }
    }
    law_lines(line, Seq::empty());
    assert(lines_of(line) =~= seq![line]);
}

/// The value that a request carries under a key is the one that was written there, and
/// the path that it asks for is the one in front of the question mark.
pub proof fn law_param(
    method: Seq<char>,
    path: Seq<char>,
    keys: Seq<Seq<char>>,
    values: Seq<Seq<char>>,
    version: Seq<char>,
    key: Seq<char>,
)
    requires
        is_word(method),
        is_word(path),
        is_word(version),
        !path.contains('?'),
        writable(keys, values),
        keys.len() > 0,
    ensures
        ({
            let line = line_with(method, path, query_text(keys, values), version);
            &&& param(line, key) == (match first_value(keys, values, key, true) {
                Some(t) => LookupView::Found(t),
                None => LookupView::Missing,
            })
            &&& route_in(line) == route_of(method, path)
        }),
{
    lemma_line(method, path, keys, values, version);
    law_pairs(keys, values, key, true);
}

/// The conditions of a search are the values of the pairs `name`, `tag`, `type`, `after`
/// and `before` in the target; one that has no pair is not asked for.
pub proof fn law_conditions(
    method: Seq<char>,
    path: Seq<char>,
    keys: Seq<Seq<char>>,
    values: Seq<Seq<char>>,
    version: Seq<char>,
)
    requires
        is_word(method),
        is_word(path),
        is_word(version),
        !path.contains('?'),
        writable(keys, values),
        keys.len() > 0,
    ensures
        conditions_in(line_with(method, path, query_text(keys, values), version)) == Some(
            QueryView {
                name: first_value(keys, values, "name"@, true),
                tag: first_value(keys, values, "tag"@, true),
                content_type: first_value(keys, values, "type"@, true),
                after: first_value(keys, values, "after"@, true),
                before: first_value(keys, values, "before"@, true),
            },
        ),
{
    lemma_line(method, path, keys, values, version);
    law_pairs(keys, values, "name"@, true);
    law_pairs(keys, values, "tag"@, true);
    law_pairs(keys, values, "type"@, true);
    law_pairs(keys, values, "after"@, true);
    law_pairs(keys, values, "before"@, true);
}

/// A simple form describes the object that its pairs tell of: `name` the name,
/// `content` the data, `type` the content type and `tags` the tags. An empty value
/// counts as missing; a missing type is that of a text, missing tags are those of an
/// empty JSON object.
pub proof fn law_simple_form(keys: Seq<Seq<char>>, values: Seq<Seq<char>>)
    requires
        writable(keys, values),
        keys.len() > 0,
    ensures
        upload_of_pairs(pieces(query_text(keys, values), '&')) == Some(
            UploadView {
                name: match first_value(keys, values, "name"@, false) {
                    Some(t) => t,
                    None => Seq::empty(),
                },
                content: match first_value(keys, values, "content"@, false) {
                    Some(t) => encode_utf8(t),
                    None => Seq::empty(),
                },
                content_type: match first_value(keys, values, "type"@, false) {
                    Some(t) => t,
                    None => "text/plain"@,
                },
                tags: match first_value(keys, values, "tags"@, false) {
                    Some(t) => t,
                    None => "{}"@,
                },
            },
        ),
{
    law_pairs(keys, values, "name"@, false);
    law_pairs(keys, values, "content"@, false);
    law_pairs(keys, values, "type"@, false);
    law_pairs(keys, values, "tags"@, false);
    assert(encode_utf8(Seq::<char>::empty()) =~= Seq::<u8>::empty());
}

/// [`law_simple_form`], of the body of a request that is no form with several parts.
pub proof fn law_simple_upload(
    head: Seq<char>,
    body: Seq<u8>,
    keys: Seq<Seq<char>>,
    values: Seq<Seq<char>>,
)
    requires
        !contains_text(content_type_of(head), "multipart/form-data"@),
        lossy(body) == query_text(keys, values),
        writable(keys, values),
        keys.len() > 0,
    ensures
        upload_of(head, body) == upload_of_pairs(pieces(query_text(keys, values), '&')),
        upload_of(head, body) is Some,
{
    law_simple_form(keys, values);
}

} // verus!
