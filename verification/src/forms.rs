//! Forms with several parts, and the form that an object is uploaded with.
use crate::bytes::{bytes_from, find_bytes, has_at, is_there};
use crate::http::{
    content_type_of, find_head_end, find_header, get_form_field_urlencoded, head_end, header_line,
    request_type, value_from, Lookup, LookupView, Request,
};
use crate::text::{decode_lossy, decode_text, lossy, string_of};
use crate::words::{
    before, contains_text, find_char, has_text, part, part_behind, pieces, second_part, strip,
    stripped, trim, trimmed,
};
use vstd::prelude::*;
use vstd::slice::*;
use vstd::string::*;
use vstd::utf8::*;

verus! {

/// The text that separates the parts of a form; empty where the head names none.
pub open spec fn boundary_of(head: Seq<char>) -> Seq<char> {
    let line = match header_line(head, "content-type:"@) {
        Some(line) => line,
        None => Seq::empty(),
    };
    match second_part(line, "boundary="@) {
        Some(b) => stripped(trimmed(b), '"'),
        None => Seq::empty(),
    }
}

/// The text that separates the parts of a form.
pub fn form_boundary(head: &str) -> (r: Vec<char>)
    ensures
        r@ == boundary_of(head@),
{
    let line = match find_header(head, "content-type:") {
        Some(line) => line,
        None => {
            let none: Vec<char> = Vec::new();
            assert(none@ =~= Seq::empty());
            none
        },
    };
    match part_behind(line.as_slice(), "boundary=") {
        Some(b) => strip(trim(b.as_slice()).as_slice(), '"'),
        None => {
            let none: Vec<char> = Vec::new();
            assert(none@ =~= Seq::empty());
            none
        },
    }
}

/// The bytes that a part begins with.
pub open spec fn marker(boundary: Seq<char>) -> Seq<u8> {
    encode_utf8("--"@ + boundary)
}

/// A line end.
pub open spec fn line_end() -> Seq<u8> {
    seq![13u8, 10u8]
}

/// Two hyphens.
pub open spec fn hyphens() -> Seq<u8> {
    seq![45u8, 45u8]
}

/// Whether a line begins at `p`.
pub open spec fn begins_line(body: Seq<u8>, p: int) -> bool {
    p == 0 || (p >= 2 && has_at(body, line_end(), p - 2))
}

/// Whether the delimiter at `p` with a marker of `len` bytes closes the form: two
/// hyphens follow.
pub open spec fn closes(body: Seq<u8>, p: int, len: int) -> bool {
    has_at(body, hyphens(), p + len)
}

/// Where the delimiters stand, from `from` on: the markers at which a line begins.
pub open spec fn delimiters(body: Seq<u8>, mark: Seq<u8>, from: int) -> Seq<int>
    decreases body.len() - from,
{
    match bytes_from(body, mark, from) {
        None => Seq::empty(),
        Some(p) => if from <= p && p + mark.len() <= body.len() && mark.len() > 0 {
            let rest = delimiters(body, mark, p + mark.len());
            if begins_line(body, p) {
                seq![p] + rest
            } else {
                rest
            }
        } else {
            Seq::empty()
        },
    }
}

fn find_delimiters(body: &[u8], mark: &[u8]) -> (r: Vec<usize>)
    requires
        mark@.len() > 0,
    ensures
        r@.map_values(|p: usize| p as int) == delimiters(body@, mark@, 0),
        forall|i: int| 0 <= i < r@.len() ==> #[trigger] r@[i] + mark@.len() <= body@.len(),
        forall|i: int, j: int| 0 <= i < j < r@.len() ==> r@[i] + mark@.len() <= r@[j],
        forall|i: int| 0 < i < r@.len() ==> #[trigger] r@[i] >= 2,
{
    assert(body@.len() == body.len());
    let ends: [u8; 2] = [13, 10];
    assert(ends@ =~= line_end());
    let mut out: Vec<usize> = Vec::new();
    let mut from: usize = 0;
    let ghost all = delimiters(body@, mark@, 0);
    assert(out@.map_values(|p: usize| p as int) + all =~= all);
    while from < body.len()
        invariant
            from <= body@.len(),
            body@.len() == body.len(),
            mark@.len() > 0,
            ends@ == line_end(),
            all == delimiters(body@, mark@, 0),
            all == out@.map_values(|p: usize| p as int) + delimiters(body@, mark@, from as int),
            forall|i: int| 0 <= i < out@.len() ==> #[trigger] out@[i] + mark@.len() <= from,
            forall|i: int, j: int| 0 <= i < j < out@.len() ==> out@[i] + mark@.len() <= out@[j],
            forall|i: int| 0 < i < out@.len() ==> #[trigger] out@[i] >= 2,
        decreases body@.len() - from,
    {
        let ghost done = out@.map_values(|p: usize| p as int);
        match find_bytes(body, mark, from) {
            None => {
                assert(out@.map_values(|p: usize| p as int) =~= all);
                return out;
            },
            Some(p) => {
                let line = p == 0 || (p >= 2 && is_there(body, &ends, p - 2));
                if line {
                    assert(out@.len() > 0 ==> out@[0] + mark@.len() <= from);
                    out.push(p);
                    assert(out@.map_values(|p: usize| p as int) =~= done.push(p as int));
                    assert(done + (seq![p as int] + delimiters(body@, mark@, p + mark@.len()))
                        =~= done.push(p as int) + delimiters(body@, mark@, p + mark@.len()));
                }
                from = p + mark.len();
            },
        }
    }
    assert(bytes_from(body@, mark@, from as int) is None) by {
        reveal_with_fuel(bytes_from, 2);
    }
    assert(out@.map_values(|p: usize| p as int) =~= all);
    out
}

/// Where the part at the `i`th delimiter begins: behind it and the end of that line.
pub open spec fn part_from(body: Seq<u8>, starts: Seq<int>, len: int, i: int) -> int {
    let s = starts[i] + len;
    if has_at(body, line_end(), s) {
        s + 2
    } else {
        s
    }
}

/// Where the part at the `i`th delimiter ends: before the line end in front of the
/// next delimiter, or with the body where there is none.
pub open spec fn part_to(body: Seq<u8>, starts: Seq<int>, i: int) -> int {
    if i + 1 < starts.len() {
        starts[i + 1] - 2
    } else {
        body.len() as int
    }
}

/// A part of a form, under its name.
#[derive(Debug)]
pub struct MultipartField {
    pub name: String,
    pub data: Vec<u8>,
}

/// A [`MultipartField`], with the name and the data as sequences.
pub struct FieldView {
    pub name: Seq<char>,
    pub data: Seq<u8>,
}

impl View for MultipartField {
    type V = FieldView;

    open spec fn view(&self) -> FieldView {
        FieldView { name: self.name@, data: self.data@ }
    }
}

/// The fields, as views.
pub open spec fn fields_of(list: Seq<MultipartField>) -> Seq<FieldView> {
    Seq::new(list.len(), |i: int| list[i]@)
}

/// The name in the head of a part.
pub open spec fn field_name(head: Seq<char>) -> Option<Seq<char>> {
    let line = match header_line(head, "content-disposition:"@) {
        Some(line) => line,
        None => Seq::empty(),
    };
    match second_part(line, "name=\""@) {
        Some(t) => Some(before(t, '"')),
        None => None,
    }
}

/// The head of a part, if it is text; a part without one has an empty head.
pub open spec fn part_head(section: Seq<u8>) -> Seq<char> {
    let head = match head_end(section) {
        Some(i) => section.take(i),
        None => Seq::empty(),
    };
    if valid_utf8(head) {
        decode_utf8(head)
    } else {
        Seq::empty()
    }
}

/// The data of a part: what stands behind its head, byte by byte.
pub open spec fn part_data(section: Seq<u8>) -> Seq<u8> {
    match head_end(section) {
        Some(i) => section.skip(i + 4),
        None => section,
    }
}

/// The field that a part holds. A part without a name holds none.
pub open spec fn field_of(section: Seq<u8>) -> Option<FieldView> {
    match field_name(part_head(section)) {
        Some(name) => Some(FieldView { name, data: part_data(section) }),
        None => None,
    }
}

/// Reads a part of a form.
pub fn parse_field_section(section: &[u8]) -> (r: Option<MultipartField>)
    ensures
        match r {
            Some(f) => field_of(section@) == Some(f@),
            None => field_of(section@) is None,
        },
{
    assert(section@.len() == section.len());
    let (end, from): (usize, usize) = match find_head_end(section) {
        Some(i) => (i, i + 4),
        None => (0, 0),
    };
    let front = slice_subrange(section, 0, end);
    let rest = slice_subrange(section, from, section.len());
    proof {
        if head_end(section@) is Some {
            assert(front@ =~= section@.take(end as int));
            assert(rest@ =~= section@.skip(from as int));
        } else {
            assert(front@ =~= Seq::empty());
            assert(rest@ =~= section@);
        }
    }
    let head = match decode_text(front) {
        Ok(s) => s,
        Err(_) => String::new(),
    };
    assert(head@ =~= part_head(section@));
    let line = match find_header(head.as_str(), "content-disposition:") {
        Some(line) => line,
        None => {
            let none: Vec<char> = Vec::new();
            assert(none@ =~= Seq::empty());
            none
        },
    };
    match part_behind(line.as_slice(), "name=\"") {
        None => None,
        Some(t) => {
            let end = find_char(t.as_slice(), '"', 0);
            let name = part(t.as_slice(), 0, end);
            assert(name@ =~= before(t@, '"'));
            Some(MultipartField { name: string_of(name.as_slice()), data: slice_to_vec(rest) })
        },
    }
}

/// The fields of the parts at the first `n` delimiters; at one that closes the form
/// there is no part. There are no fields where a part would end before it begins.
pub open spec fn fields_to(body: Seq<u8>, starts: Seq<int>, len: int, n: int) -> Option<
    Seq<FieldView>,
>
    decreases n,
{
    if n <= 0 {
        Some(Seq::empty())
    } else {
        match fields_to(body, starts, len, n - 1) {
            None => None,
            Some(front) => if closes(body, starts[n - 1], len) {
                Some(front)
            } else {
                let from = part_from(body, starts, len, n - 1);
                let to = part_to(body, starts, n - 1);
                if from > to {
                    None
                } else {
                    match field_of(body.subrange(from, to)) {
                        Some(f) => Some(front.push(f)),
                        None => Some(front),
                    }
                }
            },
        }
    }
}

/// The fields of a form. There are none where one delimiter follows another without
/// anything between them.
pub open spec fn form_fields(head: Seq<char>, body: Seq<u8>) -> Option<Seq<FieldView>> {
    let boundary = boundary_of(head);
    if boundary.len() == 0 {
        Some(Seq::empty())
    } else {
        let starts = delimiters(body, marker(boundary), 0);
        fields_to(body, starts, marker(boundary).len() as int, starts.len() as int)
    }
}

proof fn lemma_fields_broken(body: Seq<u8>, starts: Seq<int>, len: int, i: int, n: int)
    requires
        i <= n,
        fields_to(body, starts, len, i) is None,
    ensures
        fields_to(body, starts, len, n) is None,
    decreases n - i,
{
    if i < n {
        lemma_fields_broken(body, starts, len, i, n - 1);
    }
}

/// Reads the fields of a form.
pub fn parse_multipart(head: &str, body: &[u8]) -> (r: Option<Vec<MultipartField>>)
    ensures
        match r {
            Some(list) => form_fields(head@, body@) == Some(fields_of(list@)),
            None => form_fields(head@, body@) is None,
        },
{
    assert(body@.len() == body.len());
    let boundary = form_boundary(head);
    let mut out: Vec<MultipartField> = Vec::new();
    assert(fields_of(out@) =~= Seq::empty());
    if boundary.len() == 0 {
        return Some(out);
    }
    let mut text = "--".to_owned();
    let name = string_of(boundary.as_slice());
    text.append(name.as_str());
    let mark = text.as_str().as_bytes();
    proof {
        reveal_strlit("--");
        encode_utf8_decode_utf8(text@);
        if mark@.len() == 0 {
            assert(decode_utf8(mark@) =~= Seq::<char>::empty());
            assert(text@.len() >= 2);
        }
    }
    let starts = find_delimiters(body, mark);
    let ghost places = delimiters(body@, mark@, 0);
    let ghost len = mark@.len() as int;
    let ends: [u8; 2] = [13, 10];
    let dashes: [u8; 2] = [45, 45];
    assert(ends@ =~= line_end());
    assert(dashes@ =~= hyphens());
    assert(places.len() == starts@.len());
    assert(forall|k: int| 0 <= k < starts@.len() ==> places[k] == #[trigger] starts@[k]);
    let mut i: usize = 0;
    while i < starts.len()
        invariant
            i <= starts@.len(),
            body@.len() == body.len(),
            len == mark@.len(),
            mark@ == marker(boundary_of(head@)),
            boundary_of(head@).len() > 0,
            places == delimiters(body@, mark@, 0),
            ends@ == line_end(),
            dashes@ == hyphens(),
            places.len() == starts@.len(),
            forall|k: int| 0 <= k < starts@.len() ==> places[k] == #[trigger] starts@[k],
            forall|k: int| 0 <= k < starts@.len() ==> #[trigger] starts@[k] + len <= body@.len(),
            forall|k: int| 0 < k < starts@.len() ==> #[trigger] starts@[k] >= 2,
            fields_to(body@, places, len, i as int) == Some(fields_of(out@)),
        decreases starts@.len() - i,
    {
        let behind = starts[i] + mark.len();
        if is_there(body, &dashes, behind) {
            assert(fields_to(body@, places, len, i + 1) == fields_to(body@, places, len, i as int));
            i += 1;
            continue;
        }
        let from = if is_there(body, &ends, behind) {
            behind + 2
        } else {
            behind
        };
        let to = if i + 1 < starts.len() {
            starts[i + 1] - 2
        } else {
            body.len()
        };
        assert(from == part_from(body@, places, len, i as int));
        assert(to == part_to(body@, places, i as int));
        if from > to {
            proof {
                assert(fields_to(body@, places, len, i + 1) is None);
                lemma_fields_broken(body@, places, len, i + 1, places.len() as int);
            }
            return None;
        }
        let section = slice_subrange(body, from, to);
        let ghost done = fields_of(out@);
        if let Some(f) = parse_field_section(section) {
            let ghost v = f@;
            out.push(f);
            assert(fields_of(out@) =~= done.push(v));
        }
        i += 1;
    }
    Some(out)
}

/// The data of the first field from the `i`th on under `name`.
pub open spec fn data_from(fields: Seq<FieldView>, name: Seq<char>, i: int) -> Option<Seq<u8>>
    decreases fields.len() - i,
{
    if i >= fields.len() {
        None
    } else if fields[i].name == name {
        Some(fields[i].data)
    } else {
        data_from(fields, name, i + 1)
    }
}

fn find_field(fields: &Vec<MultipartField>, name: &str) -> (r: Option<usize>)
    ensures
        match r {
            Some(i) => i < fields@.len() && data_from(fields_of(fields@), name@, 0) == Some(
                fields@[i as int].data@,
            ),
            None => data_from(fields_of(fields@), name@, 0) is None,
        },
{
    let ghost all = fields_of(fields@);
    let wanted = name.to_owned();
    let mut i: usize = 0;
    while i < fields.len()
        invariant
            i <= fields@.len(),
            all == fields_of(fields@),
            wanted@ == name@,
            data_from(all, name@, 0) == data_from(all, name@, i as int),
        decreases fields@.len() - i,
    {
        assert(all[i as int] == fields@[i as int]@);
        if fields[i].name == wanted {
            return Some(i);
        }
        i += 1;
    }
    None
}

/// The text of the field under `name`; `default` where there is none.
pub open spec fn text_field(fields: Seq<FieldView>, name: Seq<char>, default: Seq<char>) -> Seq<
    char,
> {
    match data_from(fields, name, 0) {
        Some(d) => lossy(d),
        None => default,
    }
}

fn field_text(fields: &Vec<MultipartField>, name: &str, default: &str) -> (r: String)
    ensures
        r@ == text_field(fields_of(fields@), name@, default@),
{
    match find_field(fields, name) {
        Some(i) => decode_lossy(fields[i].data.as_slice()),
        None => default.to_owned(),
    }
}

/// The data of an upload: that of the file, or else that of the text; a field
/// without data does not count.
pub open spec fn upload_data(fields: Seq<FieldView>) -> Seq<u8> {
    let file = data_from(fields, "file"@, 0);
    let text = data_from(fields, "content"@, 0);
    if file is Some && file->0.len() > 0 {
        file->0
    } else if text is Some {
        text->0
    } else {
        Seq::empty()
    }
}

fn chosen_data(fields: &Vec<MultipartField>) -> (r: Vec<u8>)
    ensures
        r@ == upload_data(fields_of(fields@)),
{
    if let Some(i) = find_field(fields, "file") {
        if fields[i].data.len() > 0 {
            return slice_to_vec(fields[i].data.as_slice());
        }
    }
    match find_field(fields, "content") {
        Some(i) => slice_to_vec(fields[i].data.as_slice()),
        None => Vec::new(),
    }
}

/// An object to store.
#[derive(Debug)]
pub struct Upload {
    pub name: String,
    pub content: Vec<u8>,
    pub content_type: String,
    pub tags: String,
}

/// An [`Upload`], with texts and data as sequences.
pub struct UploadView {
    pub name: Seq<char>,
    pub content: Seq<u8>,
    pub content_type: Seq<char>,
    pub tags: Seq<char>,
}

impl View for Upload {
    type V = UploadView;

    open spec fn view(&self) -> UploadView {
        UploadView {
            name: self.name@,
            content: self.content@,
            content_type: self.content_type@,
            tags: self.tags@,
        }
    }
}

/// The object that a form with several parts describes.
pub open spec fn upload_of_fields(fields: Seq<FieldView>) -> UploadView {
    UploadView {
        name: text_field(fields, "name"@, Seq::empty()),
        content: upload_data(fields),
        content_type: text_field(fields, "type"@, "application/octet-stream"@),
        tags: text_field(fields, "tags"@, "{}"@),
    }
}

/// The object that the fields of a form describe.
pub fn upload_from_fields(fields: &Vec<MultipartField>) -> (r: Upload)
    ensures
        r@ == upload_of_fields(fields_of(fields@)),
{
    proof {
        reveal_strlit("");
        assert(""@ =~= Seq::<char>::empty());
    }
    Upload {
        name: field_text(fields, "name", ""),
        content: chosen_data(fields),
        content_type: field_text(fields, "type", "application/octet-stream"),
        tags: field_text(fields, "tags", "{}"),
    }
}

/// The value under `name` in a simple form; `default` where there is none. There is
/// no telling it where it is not readable.
pub open spec fn form_text(pairs: Seq<Seq<char>>, name: Seq<char>, default: Seq<char>) -> Option<
    Seq<char>,
> {
    match value_from(pairs, name, false, 0) {
        LookupView::Missing => Some(default),
        LookupView::Found(s) => Some(s),
        LookupView::Broken => None,
    }
}

fn form_entry(body: &[u8], name: &str, default: &str) -> (r: Option<String>)
    ensures
        match r {
            Some(s) => form_text(pieces(lossy(body@), '&'), name@, default@) == Some(s@),
            None => form_text(pieces(lossy(body@), '&'), name@, default@) is None,
        },
{
    match get_form_field_urlencoded(body, name) {
        Lookup::Missing => Some(default.to_owned()),
        Lookup::Found(s) => Some(s),
        Lookup::Broken => None,
    }
}

/// The object that a simple form describes. There is none where a value is not
/// readable.
pub open spec fn upload_of_pairs(pairs: Seq<Seq<char>>) -> Option<UploadView> {
    match (
        form_text(pairs, "name"@, Seq::empty()),
        form_text(pairs, "content"@, Seq::empty()),
        form_text(pairs, "type"@, "text/plain"@),
        form_text(pairs, "tags"@, "{}"@),
    ) {
        (Some(name), Some(content), Some(content_type), Some(tags)) => Some(
            UploadView { name, content: encode_utf8(content), content_type, tags },
        ),
        _ => None,
    }
}

/// The object that a request to store one describes.
pub open spec fn upload_of(head: Seq<char>, body: Seq<u8>) -> Option<UploadView> {
    if contains_text(content_type_of(head), "multipart/form-data"@) {
        match form_fields(head, body) {
            Some(fields) => Some(upload_of_fields(fields)),
            None => None,
        }
    } else {
        upload_of_pairs(pieces(lossy(body), '&'))
    }
}

/// Reads the object that a request to store one describes.
pub fn read_upload(request: &Request) -> (r: Option<Upload>)
    ensures
        match r {
            Some(u) => upload_of(request.head@, request.body@) == Some(u@),
            None => upload_of(request.head@, request.body@) is None,
        },
{
    let body = request.body.as_slice();
    let kind = request_type(request.head.as_str());
    if has_text(kind.as_str(), "multipart/form-data") {
        return match parse_multipart(request.head.as_str(), body) {
            None => None,
            Some(fields) => Some(upload_from_fields(&fields)),
        };
    }
    proof {
        reveal_strlit("");
        assert(""@ =~= Seq::<char>::empty());
    }
    let name = match form_entry(body, "name", "") {
        None => {
            return None;
        },
        Some(s) => s,
    };
    let content = match form_entry(body, "content", "") {
        None => {
            return None;
        },
        Some(s) => slice_to_vec(s.as_str().as_bytes()),
    };
    let content_type = match form_entry(body, "type", "text/plain") {
        None => {
            return None;
        },
        Some(s) => s,
    };
    let tags = match form_entry(body, "tags", "{}") {
        None => {
            return None;
        },
        Some(s) => s,
    };
    Some(Upload { name, content, content_type, tags })
}

} // verus!
