//! What is read of a form is what was written into it.
use crate::bytes::{bytes_from, has_at};
use crate::forms::{
    begins_line, boundary_of, closes, data_from, delimiters, field_name, field_of, fields_to,
    form_fields, hyphens, line_end, marker, part_from, part_to, upload_of, upload_of_fields,
    FieldView,
};
use crate::http::{content_type_of, head_mark, header_line};
use crate::text::{lossy, lowercase};
use crate::word_laws::{law_cut, law_lines};
use crate::words::{begins_with, contains_text, lemma_text_from, lines_of, stands_at, text_from};
use vstd::prelude::*;
use vstd::string::*;
use vstd::utf8::*;

verus! {

/// Whether the field at `i` is the first under this name.
pub open spec fn first_named(fields: Seq<FieldView>, name: Seq<char>, i: int) -> bool {
    &&& 0 <= i < fields.len()
    &&& fields[i].name == name
    &&& forall|j: int| 0 <= j < i ==> (#[trigger] fields[j]).name != name
}

/// Whether no field has this name.
pub open spec fn unnamed(fields: Seq<FieldView>, name: Seq<char>) -> bool {
    forall|j: int| 0 <= j < fields.len() ==> (#[trigger] fields[j]).name != name
}

proof fn lemma_data(fields: Seq<FieldView>, name: Seq<char>, k: int, i: int)
    requires
        0 <= k,
    ensures
        first_named(fields, name, i) && k <= i ==> data_from(fields, name, k) == Some(
            fields[i].data,
        ),
        unnamed(fields, name) ==> data_from(fields, name, k) is None,
    decreases fields.len() - k,
{
    if k < fields.len() {
        lemma_data(fields, name, k + 1, i);
        if first_named(fields, name, i) && k < i {
            assert(fields[k].name != name);
        }
        if unnamed(fields, name) {
            assert(fields[k].name != name);
        }
    }
}

/// What the fields of an upload are for, in whatever order they stand. The field
/// `name` gives the name, `type` the content type, `tags` the tags; `file` gives the
/// data or, where it is missing or empty, `content` does. The first field under a name
/// counts. A missing type is that of any bytes, missing tags are those of an empty
/// JSON object.
pub proof fn law_upload_fields(fields: Seq<FieldView>, i: int)
    ensures
        ({
            let u = upload_of_fields(fields);
            let no_file = unnamed(fields, "file"@) || exists|k: int| #[trigger]
                first_named(fields, "file"@, k) && fields[k].data.len() == 0;
            &&& first_named(fields, "name"@, i) ==> u.name == lossy(fields[i].data)
            &&& unnamed(fields, "name"@) ==> u.name.len() == 0
            &&& first_named(fields, "type"@, i) ==> u.content_type == lossy(fields[i].data)
            &&& unnamed(fields, "type"@) ==> u.content_type == "application/octet-stream"@
            &&& first_named(fields, "tags"@, i) ==> u.tags == lossy(fields[i].data)
            &&& unnamed(fields, "tags"@) ==> u.tags == "{}"@
            &&& first_named(fields, "file"@, i) && fields[i].data.len() > 0 ==> u.content
                == fields[i].data
            &&& no_file && first_named(fields, "content"@, i) ==> u.content == fields[i].data
            &&& no_file && unnamed(fields, "content"@) ==> u.content.len() == 0
        }),
{
    lemma_data(fields, "name"@, 0, i);
    lemma_data(fields, "type"@, 0, i);
    lemma_data(fields, "tags"@, 0, i);
    lemma_data(fields, "file"@, 0, i);
    lemma_data(fields, "content"@, 0, i);
    if exists|k: int| #[trigger] first_named(fields, "file"@, k) && fields[k].data.len() == 0 {
        let k = choose|k: int| #[trigger] first_named(fields, "file"@, k) && fields[k].data.len() == 0;
        lemma_data(fields, "file"@, 0, k);
    }
}

/// The form that the browser sends describes the object: with the parts `name`,
/// `file`, `type` and `tags`, each once and in any order, and data that is not empty.
pub proof fn law_upload_form(fields: Seq<FieldView>, a: int, b: int, c: int, d: int)
    requires
        fields.len() == 4,
        0 <= a < 4,
        0 <= b < 4,
        0 <= c < 4,
        0 <= d < 4,
        a != b && a != c && a != d && b != c && b != d && c != d,
        fields[a].name == "name"@,
        fields[b].name == "file"@,
        fields[c].name == "type"@,
        fields[d].name == "tags"@,
        fields[b].data.len() > 0,
    ensures
        ({
            let u = upload_of_fields(fields);
            &&& u.name == lossy(fields[a].data)
            &&& u.content == fields[b].data
            &&& u.content_type == lossy(fields[c].data)
            &&& u.tags == lossy(fields[d].data)
        }),
{
    reveal_strlit("name");
    reveal_strlit("file");
    reveal_strlit("type");
    reveal_strlit("tags");
    assert("name"@[0] != "file"@[0] && "name"@[0] != "type"@[0] && "name"@[0] != "tags"@[0]);
    assert("file"@[0] != "type"@[0] && "file"@[0] != "tags"@[0] && "type"@[1] != "tags"@[1]);
    assert(first_named(fields, "name"@, a));
    assert(first_named(fields, "file"@, b));
    assert(first_named(fields, "type"@, c));
    assert(first_named(fields, "tags"@, d));
    law_upload_fields(fields, a);
    law_upload_fields(fields, b);
    law_upload_fields(fields, c);
    law_upload_fields(fields, d);
}

pub proof fn lemma_bytes_is(s: Seq<u8>, needle: Seq<u8>, from: int, at: int)
    requires
        0 <= from <= at,
        has_at(s, needle, at),
        forall|i: int| from <= i < at ==> !#[trigger] has_at(s, needle, i),
    ensures
        bytes_from(s, needle, from) == Some(at),
    decreases at - from,
{
    if from < at {
        assert(!has_at(s, needle, from));
        lemma_bytes_is(s, needle, from + 1, at);
    }
}

proof fn lemma_bytes_none(s: Seq<u8>, needle: Seq<u8>, from: int)
    requires
        0 <= from,
        forall|i: int| from <= i ==> !#[trigger] has_at(s, needle, i),
    ensures
        bytes_from(s, needle, from) is None,
    decreases s.len() + 1 - from,
{
    if from + needle.len() <= s.len() {
        assert(!has_at(s, needle, from));
        lemma_bytes_none(s, needle, from + 1);
    }
}

/// A line end and an empty line.
pub open spec fn blank_line() -> Seq<u8> {
    seq![13u8, 10u8, 13u8, 10u8]
}

/// The bytes of a part: its head, an empty line, and its data.
pub open spec fn part_bytes(head: Seq<char>, data: Seq<u8>) -> Seq<u8> {
    encode_utf8(head) + blank_line() + data
}

/// A part is read as the field that it was written for, with the very bytes of its
/// data. Its head must not have an empty line in it.
pub proof fn law_part(head: Seq<char>, name: Seq<char>, data: Seq<u8>)
    requires
        field_name(head) == Some(name),
        forall|i: int|
            0 <= i < encode_utf8(head).len() ==> !#[trigger] has_at(
                part_bytes(head, data),
                blank_line(),
                i,
            ),
    ensures
        field_of(part_bytes(head, data)) == Some(FieldView { name, data }),
{
    let section = part_bytes(head, data);
    let front = encode_utf8(head);
    let n = front.len() as int;
    assert(head_mark() =~= blank_line());
    assert(section.subrange(n, n + 4) =~= head_mark());
    lemma_bytes_is(section, head_mark(), 0, n);
    assert(section.take(n) =~= front);
    assert(section.skip(n + 4) =~= data);
    encode_utf8_valid_utf8(head);
    encode_utf8_decode_utf8(head);
}

/// The name of a part stands in quotes behind the first `name=` of the line that
/// tells its disposition; other values may follow, such as the name of a file. The
/// name must hold no quote and not end like the mark itself.
#[verifier::rlimit(40)]
pub proof fn law_field_name(intro: Seq<char>, name: Seq<char>, outro: Seq<char>)
    requires
        ({
            let line = intro + "name=\""@ + name + seq!['"'] + outro;
            &&& !line.contains('\n')
            &&& begins_with(lowercase(line), "content-disposition:"@)
            &&& forall|i: int| 0 <= i < intro.len() ==> !#[trigger] stands_at(line, "name=\""@, i)
        }),
        !name.contains('"'),
        name.len() < 5 || name.skip(name.len() - 5) != "name="@,
    ensures
        field_name(intro + "name=\""@ + name + seq!['"'] + outro) == Some(name),
{
    let mark = "name=\""@;
    reveal_strlit("name=\"");
    reveal_strlit("name=");
    let rest = name + seq!['"'] + outro;
    let line = intro + mark + name + seq!['"'] + outro;
    assert(line =~= intro + mark + rest);
    law_lines(line, Seq::empty());
    assert(line.len() > 0);
    assert(lines_of(line) =~= seq![line]);
    assert(header_line(line, "content-disposition:"@) == Some(line));
    let at = intro.len() as int;
    assert(line.subrange(at, at + mark.len()) =~= mark);
    assert(stands_at(line, mark, at));
    lemma_text_from(line, mark, 0);
    let i = text_from(line, mark, 0)->0;
    if i < at {
        assert(!stands_at(line, mark, i));
    }
    assert(i == at);
    assert(line.skip(i + mark.len()) =~= rest);
    let n = name.len() as int;
    assert(rest[n] == '"');
    lemma_text_from(rest, mark, 0);
    assert forall|j: int| 0 <= j < n implies name[j] != '"' && rest[j] != '"' by {
        assert(name.contains(name[j]));
    }
    if let Some(j) = text_from(rest, mark, 0) {
        assert(stands_at(rest, mark, j));
        let sub = rest.subrange(j, j + 6);
        assert(sub == mark);
        assert(sub[5] == rest[j + 5]);
        assert(sub[0] == rest[j] && sub[1] == rest[j + 1] && sub[2] == rest[j + 2]);
        assert(sub[3] == rest[j + 3] && sub[4] == rest[j + 4]);
        assert(j + 5 >= n);
        if j + 5 == n {
            assert(name.skip(n - 5) =~= "name="@);
        }
        assert(j > n);
        let cut = rest.take(j);
        assert(cut =~= name + seq!['"'] + outro.take(j - n - 1));
        law_cut(name, '"', outro.take(j - n - 1));
    } else {
        law_cut(name, '"', outro);
    }
}

/// The boundary is what the line with the content type of the request says.
pub proof fn law_boundary(intro: Seq<char>, b: Seq<char>)
    requires
        ({
            let line = intro + "boundary="@ + b;
            &&& !line.contains('\n')
            &&& begins_with(lowercase(line), "content-type:"@)
            &&& forall|i: int| 0 <= i < intro.len() ==> !#[trigger] stands_at(line, "boundary="@, i)
        }),
        !contains_text(b, "boundary="@),
        b.len() > 0,
        !crate::words::white_space(b[0]),
        !crate::words::white_space(b.last()),
        b[0] != '"',
        b.last() != '"',
    ensures
        boundary_of(intro + "boundary="@ + b) == b,
{
    let mark = "boundary="@;
    reveal_strlit("boundary=");
    let line = intro + mark + b;
    law_lines(line, Seq::empty());
    assert(lines_of(line) =~= seq![line]);
    assert(header_line(line, "content-type:"@) == Some(line));
    crate::word_laws::law_second_part(intro, mark, b);
    crate::word_laws::law_trimmed(Seq::empty(), b, Seq::empty());
    assert(Seq::<char>::empty() + b + Seq::<char>::empty() =~= b);
    crate::word_laws::law_stripped(b, '"');
}

/// The body of a form: each part behind a line with the mark, and at the end the mark
/// with two hyphens.
pub open spec fn form_body(mark: Seq<u8>, parts: Seq<Seq<u8>>) -> Seq<u8>
    decreases parts.len(),
{
    if parts.len() == 0 {
        mark + seq![45u8, 45u8, 13u8, 10u8]
    } else {
        mark + seq![13u8, 10u8] + parts[0] + seq![13u8, 10u8] + form_body(mark, parts.skip(1))
    }
}

/// Whether the mark is one line of three bytes at least.
spec fn plain_mark(mark: Seq<u8>) -> bool {
    &&& mark.len() >= 3
    &&& forall|i: int| 0 <= i < mark.len() ==> #[trigger] mark[i] != 13 && mark[i] != 10
}

/// Whether the mark stands nowhere in the part.
pub open spec fn free_of(part: Seq<u8>, mark: Seq<u8>) -> bool {
    forall|i: int| 0 <= i ==> !#[trigger] has_at(part, mark, i)
}

/// Where the marks stand in a form that begins at `at`.
spec fn places(mark: Seq<u8>, parts: Seq<Seq<u8>>, at: int) -> Seq<int>
    decreases parts.len(),
{
    if parts.len() == 0 {
        seq![at]
    } else {
        seq![at] + places(mark, parts.skip(1), at + mark.len() + 4 + parts[0].len())
    }
}

/// A mark does not reach over a line end.
proof fn lemma_no_mark(s: Seq<u8>, mark: Seq<u8>, p: int, q: int)
    requires
        plain_mark(mark),
        0 <= p <= q < p + mark.len(),
        q < s.len(),
        s[q] == 13 || s[q] == 10,
    ensures
        !has_at(s, mark, p),
{
    if has_at(s, mark, p) {
        assert(s.subrange(p, p + mark.len())[q - p] == s[q]);
        assert(mark[q - p] != 13 && mark[q - p] != 10);
    }
}

proof fn lemma_form_len(mark: Seq<u8>, parts: Seq<Seq<u8>>)
    requires
        mark.len() > 0,
    ensures
        form_body(mark, parts).len() >= mark.len() + 4,
        form_body(mark, parts).take(mark.len() as int) == mark,
    decreases parts.len(),
{
    let f = form_body(mark, parts);
    if parts.len() > 0 {
        lemma_form_len(mark, parts.skip(1));
    }
    assert(f.take(mark.len() as int) =~= mark);
}

#[verifier::rlimit(40)]
proof fn lemma_delimiters(pre: Seq<u8>, mark: Seq<u8>, parts: Seq<Seq<u8>>)
    requires
        plain_mark(mark),
        forall|i: int| 0 <= i < parts.len() ==> free_of(#[trigger] parts[i], mark),
        pre.len() == 0 || (pre.len() >= 2 && pre[pre.len() - 2] == 13 && pre[pre.len() - 1] == 10),
    ensures
        delimiters(pre + form_body(mark, parts), mark, pre.len() as int) == places(
            mark,
            parts,
            pre.len() as int,
        ),
    decreases parts.len(),
{
    let f = form_body(mark, parts);
    let body = pre + f;
    let at = pre.len() as int;
    let len = mark.len() as int;
    lemma_form_len(mark, parts);
    assert(body.subrange(at, at + len) =~= f.take(len));
    assert(has_at(body, mark, at));
    lemma_bytes_is(body, mark, at, at);
    assert(begins_line(body, at)) by {
        if at > 0 {
            assert(body.subrange(at - 2, at) =~= line_end());
        }
    }
    if parts.len() == 0 {
        assert forall|i: int| at + len <= i implies !#[trigger] has_at(body, mark, i) by {
            assert(body[at + len + 2] == 13);
            if i <= at + len + 2 {
                lemma_no_mark(body, mark, i, at + len + 2);
            }
        }
        lemma_bytes_none(body, mark, at + len);
        assert(delimiters(body, mark, at + len) =~= Seq::empty());
        assert(delimiters(body, mark, at) =~= seq![at]);
    } else {
        let part = parts[0];
        let next = at + len + 4 + part.len();
        let more = pre + (mark + seq![13u8, 10u8] + part + seq![13u8, 10u8]);
        let tail = form_body(mark, parts.skip(1));
        assert(more.len() == next);
        assert(body =~= more + tail);
        assert(body[at + len] == 13 && body[at + len + 1] == 10);
        assert(body[next - 2] == 13 && body[next - 1] == 10);
        assert(body.subrange(at + len + 2, next - 2) =~= part);
        assert forall|i: int| at + len <= i < next implies !#[trigger] has_at(body, mark, i) by {
            if i <= at + len + 1 {
                lemma_no_mark(body, mark, i, at + len + 1);
            } else if i + len > next - 2 {
                if i <= next - 2 {
                    lemma_no_mark(body, mark, i, next - 2);
                } else {
                    lemma_no_mark(body, mark, i, next - 1);
                }
            } else {
                assert(free_of(parts[0], mark));
                let k = i - (at + len + 2);
                assert(!has_at(part, mark, k));
                assert(body.subrange(i, i + len) =~= part.subrange(k, k + len));
            }
        }
        assert forall|i: int| 0 <= i < parts.skip(1).len() implies free_of(
            #[trigger] parts.skip(1)[i],
            mark,
        ) by {
            assert(parts.skip(1)[i] == parts[i + 1]);
        }
        lemma_delimiters(more, mark, parts.skip(1));
        lemma_form_len(mark, parts.skip(1));
        assert(body.subrange(next, next + len) =~= tail.take(len));
        lemma_bytes_is(body, mark, at + len, next);
        lemma_bytes_is(body, mark, next, next);
        let rest = delimiters(body, mark, next);
        assert(delimiters(body, mark, at + len) == rest);
        assert(delimiters(body, mark, at) =~= seq![at] + rest);
    }
}

/// What stands at the `i`th mark of a form.
proof fn lemma_places(pre: Seq<u8>, mark: Seq<u8>, parts: Seq<Seq<u8>>, i: int)
    requires
        plain_mark(mark),
        0 <= i <= parts.len(),
    ensures
        ({
            let body = pre + form_body(mark, parts);
            let p = places(mark, parts, pre.len() as int);
            let s = p[i] + mark.len();
            &&& p.len() == parts.len() + 1
            &&& 0 <= p[i]
            &&& s + 4 <= body.len()
            &&& i < parts.len() ==> {
                &&& body[s] == 13
                &&& body[s + 1] == 10
                &&& p[i + 1] == s + 4 + parts[i].len()
                &&& p[i + 1] <= body.len()
                &&& body.subrange(s + 2, p[i + 1] - 2) == parts[i]
            }
            &&& i == parts.len() ==> body[s] == 45 && body[s + 1] == 45
        }),
    decreases parts.len(),
{
    let f = form_body(mark, parts);
    let body = pre + f;
    let at = pre.len() as int;
    let len = mark.len() as int;
    lemma_form_len(mark, parts);
    let p = places(mark, parts, at);
    if parts.len() > 0 {
        let part = parts[0];
        let more = pre + (mark + seq![13u8, 10u8] + part + seq![13u8, 10u8]);
        let tail = form_body(mark, parts.skip(1));
        let next = at + len + 4 + part.len();
        assert(body =~= more + tail);
        let q = places(mark, parts.skip(1), next);
        assert(p =~= seq![at] + q);
        lemma_form_len(mark, parts.skip(1));
        if i > 0 {
            lemma_places(more, mark, parts.skip(1), i - 1);
            assert(p[i] == q[i - 1]);
            if i < parts.len() {
                assert(p[i + 1] == q[i]);
                assert(parts.skip(1)[i - 1] == parts[i]);
            }
        } else {
            lemma_places(more, mark, parts.skip(1), 0);
            assert(q[0] == next) by {
                if parts.skip(1).len() == 0 {
                }
            }
            assert(p[1] == q[0]);
            assert(body.subrange(at + len + 2, next - 2) =~= part);
        }
    } else {
        assert(p =~= seq![at]);
    }
}

#[verifier::rlimit(40)]
proof fn lemma_fields(
    mark: Seq<u8>,
    parts: Seq<Seq<u8>>,
    fields: Seq<FieldView>,
    n: int,
)
    requires
        plain_mark(mark),
        parts.len() == fields.len(),
        forall|i: int|
            0 <= i < parts.len() ==> field_of(#[trigger] parts[i]) == Some(fields[i]),
        0 <= n <= parts.len(),
    ensures
        fields_to(
            form_body(mark, parts),
            places(mark, parts, 0),
            mark.len() as int,
            n,
        ) == Some(fields.take(n)),
    decreases n,
{
    let body = form_body(mark, parts);
    let p = places(mark, parts, 0);
    let len = mark.len() as int;
    if n > 0 {
        lemma_fields(mark, parts, fields, n - 1);
        lemma_places(Seq::empty(), mark, parts, n - 1);
        assert(Seq::<u8>::empty() + body =~= body);
        let s = p[n - 1] + len;
        assert(body.subrange(s, s + 2) =~= line_end());
        assert(!closes(body, p[n - 1], len)) by {
            if closes(body, p[n - 1], len) {
                assert(body.subrange(s, s + 2)[0] == 45);
            }
        }
        assert(has_at(body, line_end(), s));
        assert(part_from(body, p, len, n - 1) == s + 2);
        assert(part_to(body, p, n - 1) == p[n] - 2);
        assert(field_of(parts[n - 1]) == Some(fields[n - 1]));
        assert(fields.take(n - 1).push(fields[n - 1]) =~= fields.take(n));
    } else {
        assert(fields.take(0) =~= Seq::empty());
    }
}

/// Reading the body that was written for a list of fields yields those fields, in
/// their order and with the very bytes of their data, where the mark of the boundary
/// stands in none of the parts.
pub proof fn law_form_read(
    head: Seq<char>,
    b: Seq<char>,
    parts: Seq<Seq<u8>>,
    fields: Seq<FieldView>,
)
    requires
        boundary_of(head) == b,
        b.len() > 0,
        is_ascii_chars(b),
        !b.contains('\r'),
        !b.contains('\n'),
        parts.len() == fields.len(),
        forall|i: int|
            0 <= i < parts.len() ==> free_of(
                #[trigger] parts[i],
                seq![45u8, 45u8] + encode_utf8(b),
            ),
        forall|i: int|
            0 <= i < parts.len() ==> field_of(#[trigger] parts[i]) == Some(fields[i]),
    ensures
        form_fields(head, form_body(seq![45u8, 45u8] + encode_utf8(b), parts)) == Some(fields),
{
    let text = "--"@ + b;
    reveal_strlit("--");
    assert(is_ascii_chars(text)) by {
        assert forall|i: int| 0 <= i < text.len() implies '\0' <= #[trigger] text[i]
            <= '\u{7f}' by {
            if i >= 2 {
                assert(text[i] == b[i - 2]);
            } else {
                assert(text[i] == '-');
            }
        }
    }
    is_ascii_chars_encode_utf8(text);
    is_ascii_chars_encode_utf8(b);
    let mark = seq![45u8, 45u8] + encode_utf8(b);
    assert(marker(b) =~= mark) by {
        assert forall|i: int| 0 <= i < mark.len() implies marker(b)[i] == #[trigger] mark[i] by {
            assert(text[i] as u8 == encode_utf8(text)[i]);
            if i >= 2 {
                assert(text[i] == b[i - 2]);
                assert(b[i - 2] as u8 == encode_utf8(b)[i - 2]);
            } else {
                assert(text[i] == '-');
            }
        }
    }
    assert forall|i: int| 0 <= i < mark.len() implies #[trigger] mark[i] != 13 && mark[i] != 10 by {
        if i >= 2 {
            let c = b[i - 2];
            assert(b.contains(c));
            assert(c as u8 == encode_utf8(b)[i - 2]);
            lemma_no_line_end(c);
        }
    }
    let body = form_body(mark, parts);
    lemma_delimiters(Seq::empty(), mark, parts);
    assert(Seq::<u8>::empty() + body =~= body);
    let p = places(mark, parts, 0);
    let n = parts.len() as int;
    lemma_places(Seq::empty(), mark, parts, n);
    lemma_fields(mark, parts, fields, n);
    let s = p[n] + mark.len();
    assert(body.subrange(s, s + 2) =~= hyphens());
    assert(closes(body, p[n], mark.len() as int));
    assert(fields.take(n) =~= fields);
}

proof fn lemma_no_line_end(c: char)
    requires
        '\0' <= c <= '\u{7f}',
        c != '\r',
        c != '\n',
    ensures
        c as u8 != 13,
        c as u8 != 10,
{
}

/// An upload through a form with several parts describes the object that the parts
/// were written for: with the fields `name`, `file`, `type` and `tags`, each once and
/// in any order, and data that is not empty.
pub proof fn law_upload_read(
    head: Seq<char>,
    b: Seq<char>,
    parts: Seq<Seq<u8>>,
    fields: Seq<FieldView>,
    n: int,
    f: int,
    t: int,
    g: int,
)
    requires
        contains_text(content_type_of(head), "multipart/form-data"@),
        boundary_of(head) == b,
        b.len() > 0,
        is_ascii_chars(b),
        !b.contains('\r'),
        !b.contains('\n'),
        parts.len() == 4,
        fields.len() == 4,
        forall|i: int|
            0 <= i < parts.len() ==> free_of(
                #[trigger] parts[i],
                seq![45u8, 45u8] + encode_utf8(b),
            ),
        forall|i: int|
            0 <= i < parts.len() ==> field_of(#[trigger] parts[i]) == Some(fields[i]),
        0 <= n < 4 && 0 <= f < 4 && 0 <= t < 4 && 0 <= g < 4,
        n != f && n != t && n != g && f != t && f != g && t != g,
        fields[n].name == "name"@,
        fields[f].name == "file"@,
        fields[t].name == "type"@,
        fields[g].name == "tags"@,
        fields[f].data.len() > 0,
    ensures
        ({
            let u = upload_of(head, form_body(seq![45u8, 45u8] + encode_utf8(b), parts));
            &&& u is Some
            &&& u->0.name == lossy(fields[n].data)
            &&& u->0.content == fields[f].data
            &&& u->0.content_type == lossy(fields[t].data)
            &&& u->0.tags == lossy(fields[g].data)
        }),
{
    law_form_read(head, b, parts, fields);
    law_upload_form(fields, n, f, t, g);
}

} // verus!
