//! Requests to the web interface: where one ends, what it asks for, and which
//! values it carries.
use crate::bytes::{bytes_from, find_bytes};
use crate::text::{chars_of, decode_lossy, lossy, lowercase, string_of, to_lower};
use crate::words::{
    before, begins_with, behind, char_from, find_char, is_at, lines_of, parse_unsigned, part,
    pieces, seqs, split_lines, split_on, split_words, starts, trim, trimmed, unsigned_value,
    words_of,
};
use vstd::prelude::*;
use vstd::slice::*;
use vstd::string::*;
use vstd::utf8::*;

verus! {

/// The bytes that end the head of a request: two line ends.
pub open spec fn head_mark() -> Seq<u8> {
    seq![13u8, 10u8, 13u8, 10u8]
}

/// Where the head of a request ends, if all of it is there.
pub open spec fn head_end(data: Seq<u8>) -> Option<int> {
    bytes_from(data, head_mark(), 0)
}

/// Where the head of a request ends, if all of it is there.
pub fn find_head_end(data: &[u8]) -> (r: Option<usize>)
    ensures
        match r {
            Some(i) => head_end(data@) == Some(i as int) && i + 4 <= data@.len(),
            None => head_end(data@) is None,
        },
{
    let mark: [u8; 4] = [13, 10, 13, 10];
    assert(mark@ =~= head_mark());
    find_bytes(data, &mark, 0)
}

/// The first line from the `i`th on that begins with `name`, in upper or lower
/// case.
pub open spec fn line_from(lines: Seq<Seq<char>>, name: Seq<char>, i: int) -> Option<Seq<char>>
    decreases lines.len() - i,
{
    if i >= lines.len() {
        None
    } else if begins_with(lowercase(lines[i]), name) {
        Some(lines[i])
    } else {
        line_from(lines, name, i + 1)
    }
}

/// The first line of the head that begins with `name`, in upper or lower case.
pub open spec fn header_line(head: Seq<char>, name: Seq<char>) -> Option<Seq<char>> {
    line_from(lines_of(head), name, 0)
}

/// The first line of the head that begins with `name`, in upper or lower case.
pub fn find_header(head: &str, name: &str) -> (r: Option<Vec<char>>)
    ensures
        match r {
            Some(line) => header_line(head@, name@) == Some(line@),
            None => header_line(head@, name@) is None,
        },
{
    let chars = chars_of(head);
    let lines = split_lines(chars.as_slice());
    let ghost all = lines_of(head@);
    let mut i: usize = 0;
    while i < lines.len()
        invariant
            i <= lines@.len(),
            seqs(lines@) == all,
            all == lines_of(head@),
            line_from(all, name@, 0) == line_from(all, name@, i as int),
        decreases lines@.len() - i,
    {
        assert(all[i as int] == lines@[i as int]@);
        let line = string_of(lines[i].as_slice());
        let low = chars_of(to_lower(line.as_str()).as_str());
        if starts(low.as_slice(), name) {
            let found = part(lines[i].as_slice(), 0, lines[i].len());
            assert(found@ =~= lines@[i as int]@);
            return Some(found);
        }
        i += 1;
    }
    None
}

/// What stands behind the first colon of a header line, up to the next one.
pub open spec fn header_text(line: Seq<char>) -> Option<Seq<char>> {
    let p = pieces(line, ':');
    if p.len() > 1 {
        Some(trimmed(p[1]))
    } else {
        None
    }
}

/// What stands behind the first colon of a header line, up to the next one.
pub fn text_of_header(line: &[char]) -> (r: Option<Vec<char>>)
    ensures
        match r {
            Some(t) => header_text(line@) == Some(t@),
            None => header_text(line@) is None,
        },
{
    let p = split_on(line, ':');
    assert(seqs(p@).len() == p@.len());
    if p.len() > 1 {
        assert(seqs(p@)[1] == p@[1]@);
        Some(trim(p[1].as_slice()))
    } else {
        None
    }
}

/// The length of the body that the head announces; 0 where it announces none, or
/// what is no number.
pub open spec fn content_length(head: Seq<char>) -> nat {
    match header_line(head, "content-length:"@) {
        None => 0,
        Some(line) => match header_text(line) {
            None => 0,
            Some(t) => match unsigned_value(t, usize::MAX as nat) {
                Some(n) => n,
                None => 0,
            },
        },
    }
}

/// The length of the body that the head announces.
pub fn body_len(head: &str) -> (r: usize)
    ensures
        r == content_length(head@),
{
    match find_header(head, "content-length:") {
        None => 0,
        Some(line) => match text_of_header(line.as_slice()) {
            None => 0,
            Some(t) => match parse_unsigned(t.as_slice(), usize::MAX as u64) {
                Some(n) => n as usize,
                None => 0,
            },
        },
    }
}

/// How many bytes to read next, of a request of which `data` is there. The head is
/// read byte by byte, the body as far as the head announces it.
pub open spec fn missing_bytes(data: Seq<u8>) -> int {
    match head_end(data) {
        None => 1,
        Some(i) => {
            let lacking = content_length(lossy(data.take(i))) - (data.len() - i - 4);
            if lacking > 0 {
                lacking
            } else {
                0
            }
        },
    }
}

/// How many bytes to read next, of a request of which `data` is there; 0 if all of
/// it is.
pub fn missing(data: &[u8]) -> (r: usize)
    ensures
        r == missing_bytes(data@),
{
    match find_head_end(data) {
        None => 1,
        Some(i) => {
            let front = slice_subrange(data, 0, i);
            assert(front@ =~= data@.take(i as int));
            missing_of(data.len() - i - 4, decode_lossy(front).as_str())
        },
    }
}

/// How many bytes of the body are missing, if `have` of them are there.
pub fn missing_of(have: usize, head: &str) -> (r: usize)
    ensures
        r == (if content_length(head@) > have {
            content_length(head@) - have
        } else {
            0
        }),
{
    let announced = body_len(head);
    if announced > have {
        announced - have
    } else {
        0
    }
}

/// A request: its head, and the bytes behind it.
#[derive(Debug)]
pub struct Request {
    pub head: String,
    pub body: Vec<u8>,
}

/// Makes a request of what has been read when nothing more comes. A request that
/// ends within its head loses the last four bytes of it.
pub fn cut_request(data: &[u8]) -> (r: Option<Request>)
    ensures
        match r {
            None => data@.len() == 0,
            Some(q) => data@.len() > 0 && match head_end(data@) {
                Some(i) => q.head@ == lossy(data@.take(i)) && q.body@ == data@.skip(i + 4),
                None => {
                    &&& q.head@ == lossy(
                        data@.take(
                            if data@.len() > 4 {
                                data@.len() - 4
                            } else {
                                0
                            },
                        ),
                    )
                    &&& q.body@.len() == 0
                },
            },
        },
{
    if data.len() == 0 {
        return None;
    }
    match find_head_end(data) {
        Some(i) => {
            let front = slice_subrange(data, 0, i);
            assert(front@ =~= data@.take(i as int));
            let rest = slice_subrange(data, i + 4, data.len());
            assert(rest@ =~= data@.skip(i + 4));
            Some(Request { head: decode_lossy(front), body: slice_to_vec(rest) })
        },
        None => {
            let n = if data.len() > 4 {
                data.len() - 4
            } else {
                0
            };
            let front = slice_subrange(data, 0, n);
            assert(front@ =~= data@.take(n as int));
            Some(Request { head: decode_lossy(front), body: Vec::new() })
        },
    }
}

/// The first line of the head.
pub open spec fn first_line(head: Seq<char>) -> Seq<char> {
    if lines_of(head).len() > 0 {
        lines_of(head)[0]
    } else {
        Seq::empty()
    }
}

/// The first line of the head.
pub fn request_line(head: &str) -> (r: String)
    ensures
        r@ == first_line(head@),
{
    let chars = chars_of(head);
    let lines = split_lines(chars.as_slice());
    assert(seqs(lines@).len() == lines@.len());
    if lines.len() > 0 {
        assert(seqs(lines@)[0] == lines@[0]@);
        string_of(lines[0].as_slice())
    } else {
        String::new()
    }
}

/// The method and the target that the first line names. A line that names no
/// target asks for the first page.
pub open spec fn asked(line: Seq<char>) -> (Seq<char>, Seq<char>) {
    let w = words_of(line);
    if w.len() >= 2 {
        (w[0], w[1])
    } else {
        ("GET"@, "/"@)
    }
}

/// The method and the target that the first line names.
pub fn parse_first(line: &str) -> (r: (String, String))
    ensures
        (r.0@, r.1@) == asked(line@),
{
    let chars = chars_of(line);
    let w = split_words(chars.as_slice());
    assert(seqs(w@).len() == w@.len());
    if w.len() >= 2 {
        assert(seqs(w@)[0] == w@[0]@ && seqs(w@)[1] == w@[1]@);
        (string_of(w[0].as_slice()), string_of(w[1].as_slice()))
    } else {
        ("GET".to_owned(), "/".to_owned())
    }
}

/// The content type that the head names, in lower case, up to the next colon; empty
/// where it names none.
pub open spec fn content_type_of(head: Seq<char>) -> Seq<char> {
    match header_line(head, "content-type:"@) {
        None => Seq::empty(),
        Some(line) => match header_text(line) {
            None => lowercase(trimmed(Seq::empty())),
            Some(t) => lowercase(t),
        },
    }
}

/// The content type that the head names, in lower case.
pub fn request_type(head: &str) -> (r: String)
    ensures
        r@ == content_type_of(head@),
{
    match find_header(head, "content-type:") {
        None => String::new(),
        Some(line) => match text_of_header(line.as_slice()) {
            None => {
                let none: Vec<char> = Vec::new();
                assert(none@ =~= Seq::empty());
                to_lower(string_of(trim(none.as_slice()).as_slice()).as_str())
            },
            Some(t) => to_lower(string_of(t.as_slice()).as_str()),
        },
    }
}

/// What a request asks for.
#[derive(Debug, Clone, Copy, PartialEq, Eq, Structural)]
pub enum Route {
    /// The figures for a monitor.
    Metrics,
    /// The overview.
    Dashboard,
    /// The page to manage the objects.
    Manage,
    /// To store an object.
    Put,
    /// To fetch an object, or to list those that can be fetched.
    Get,
    /// To delete an object, or to list those that can be deleted.
    Delete,
    /// To give the cache another capacity.
    Resize,
    /// To try the cache policies.
    Benchmark,
    /// To search the objects.
    Search,
    /// Nothing that there is.
    Unknown,
}

/// What a method and a path ask for.
pub open spec fn route_of(method: Seq<char>, path: Seq<char>) -> Route {
    if method == "GET"@ && path == "/metrics"@ {
        Route::Metrics
    } else if method == "GET"@ && path == "/"@ {
        Route::Dashboard
    } else if method == "GET"@ && path == "/manage"@ {
        Route::Manage
    } else if method == "POST"@ && path == "/api/put"@ {
        Route::Put
    } else if method == "GET"@ && path == "/api/get"@ {
        Route::Get
    } else if method == "GET"@ && path == "/api/delete"@ {
        Route::Delete
    } else if method == "POST"@ && path == "/api/resize"@ {
        Route::Resize
    } else if method == "GET"@ && path == "/api/benchmark"@ {
        Route::Benchmark
    } else if method == "GET"@ && path == "/api/search"@ {
        Route::Search
    } else {
        Route::Unknown
    }
}

/// What the first line asks for. What follows a question mark is no part of the
/// path.
pub fn route(line: &str) -> (r: Route)
    ensures
        r == route_of(asked(line@).0, before(asked(line@).1, '?')),
{
    let (method, target) = parse_first(line);
    let chars = chars_of(target.as_str());
    let end = find_char(chars.as_slice(), '?', 0);
    let cut = part(chars.as_slice(), 0, end);
    assert(cut@ =~= before(target@, '?'));
    let path = string_of(cut.as_slice());
    let get = method == "GET".to_owned();
    let post = method == "POST".to_owned();
    if get && path == "/metrics".to_owned() {
        Route::Metrics
    } else if get && path == "/".to_owned() {
        Route::Dashboard
    } else if get && path == "/manage".to_owned() {
        Route::Manage
    } else if post && path == "/api/put".to_owned() {
        Route::Put
    } else if get && path == "/api/get".to_owned() {
        Route::Get
    } else if get && path == "/api/delete".to_owned() {
        Route::Delete
    } else if post && path == "/api/resize".to_owned() {
        Route::Resize
    } else if get && path == "/api/benchmark".to_owned() {
        Route::Benchmark
    } else if get && path == "/api/search".to_owned() {
        Route::Search
    } else {
        Route::Unknown
    }
}

// Values in the target and in forms.

/// The value of a hexadecimal digit.
pub open spec fn hex_value(b: u8) -> Option<nat> {
    if 48 <= b <= 57 {
        Some((b - 48) as nat)
    } else if 65 <= b <= 70 {
        Some((b - 55) as nat)
    } else if 97 <= b <= 102 {
        Some((b - 87) as nat)
    } else {
        None
    }
}

/// The number that two bytes denote in hexadecimal notation. A plus sign may stand
/// in place of the first digit.
pub open spec fn hex_pair(a: u8, b: u8) -> Option<nat> {
    match hex_value(b) {
        None => None,
        Some(low) => if a == 43 {
            Some(low)
        } else {
            match hex_value(a) {
                None => None,
                Some(high) => Some(16 * high + low),
            }
        },
    }
}

fn hex_digit_value(b: u8) -> (r: Option<u8>)
    ensures
        match r {
            Some(d) => hex_value(b) == Some(d as nat) && d < 16,
            None => hex_value(b) is None,
        },
{
    if 48 <= b && b <= 57 {
        Some(b - 48)
    } else if 65 <= b && b <= 70 {
        Some(b - 55)
    } else if 97 <= b && b <= 102 {
        Some(b - 87)
    } else {
        None
    }
}

fn hex_pair_value(a: u8, b: u8) -> (r: Option<u8>)
    ensures
        match r {
            Some(n) => hex_pair(a, b) == Some(n as nat),
            None => hex_pair(a, b) is None,
        },
{
    match hex_digit_value(b) {
        None => None,
        Some(low) => if a == 43 {
            Some(low)
        } else {
            match hex_digit_value(a) {
                None => None,
                Some(high) => Some(16 * high + low),
            }
        },
    }
}

/// Whether the two bytes behind each percent sign are whole characters.
pub open spec fn decodable(b: Seq<u8>) -> bool {
    forall|i: int|
        0 <= i && i + 2 < b.len() && #[trigger] b[i] == 37 ==> is_char_boundary(b, i + 3)
}

/// What the bytes from `i` on denote: a percent sign with two hexadecimal digits
/// the character with that number, a plus sign a space, another byte the character
/// with its number. A percent sign with anything else behind it is dropped, unless
/// it stands among the last two bytes.
pub open spec fn decoded_from(b: Seq<u8>, i: int) -> Seq<char>
    decreases b.len() - i,
{
    if i >= b.len() {
        Seq::empty()
    } else if b[i] == 37 && i + 2 < b.len() {
        match hex_pair(b[i + 1], b[i + 2]) {
            Some(n) => seq![n as char] + decoded_from(b, i + 3),
            None => decoded_from(b, i + 1),
        }
    } else if b[i] == 43 {
        seq![' '] + decoded_from(b, i + 1)
    } else {
        seq![b[i] as char] + decoded_from(b, i + 1)
    }
}

/// The text that `s` denotes in the notation of a target.
pub open spec fn url_decoded(s: Seq<char>) -> Option<Seq<char>> {
    if decodable(encode_utf8(s)) {
        Some(decoded_from(encode_utf8(s), 0))
    } else {
        None
    }
}

/// The text that `s` denotes in the notation of a target. There is none where the
/// two bytes behind a percent sign cut through a character.
pub fn url_decode(s: &str) -> (r: Option<String>)
    ensures
        match r {
            Some(t) => url_decoded(s@) == Some(t@),
            None => url_decoded(s@) is None,
        },
{
    let b = s.as_bytes();
    let n = b.len();
    let mut k: usize = 0;
    while k < n && n - k > 2
        invariant
            k <= n,
            n == b@.len(),
            b@ == s.spec_bytes(),
            forall|i: int| 0 <= i < k && i + 2 < n && #[trigger] b@[i] == 37 ==> is_char_boundary(b@, i + 3),
        decreases n - k,
    {
        if b[k] == 37 && !s.is_char_boundary(k + 3) {
            return None;
        }
        k += 1;
    }
    let mut out = String::new();
    let mut i: usize = 0;
    while i < n
        invariant
            i <= n,
            n == b@.len(),
            out@ + decoded_from(b@, i as int) == decoded_from(b@, 0),
        decreases n - i,
    {
        let ghost done = out@;
        let ghost at = i as int;
        if b[i] == 37 && n - i > 2 {
            match hex_pair_value(b[i + 1], b[i + 2]) {
                Some(h) => {
                    out.push(h as char);
                    i += 3;
                    assert(done + (seq![h as char] + decoded_from(b@, i as int)) =~= out@
                        + decoded_from(b@, i as int));
                },
                None => {
                    i += 1;
                },
            }
        } else {
            let c = if b[i] == 43 {
                ' '
            } else {
                b[i] as char
            };
            out.push(c);
            i += 1;
            assert(done + (seq![c] + decoded_from(b@, i as int)) =~= out@ + decoded_from(
                b@,
                i as int,
            ));
        }
    }
    assert(out@ + decoded_from(b@, i as int) =~= out@);
    Some(out)
}

proof fn lemma_plain_from(s: Seq<char>, b: Seq<u8>, i: int)
    requires
        0 <= i <= s.len(),
        b.len() == s.len(),
        forall|j: int| 0 <= j < s.len() ==> #[trigger] b[j] as char == s[j] && b[j] != 37 && b[j] != 43,
    ensures
        decoded_from(b, i) == s.skip(i),
    decreases s.len() - i,
{
    if i < s.len() {
        lemma_plain_from(s, b, i + 1);
        assert(b[i] as char == s[i]);
        assert(s.skip(i) =~= seq![s[i]] + s.skip(i + 1));
    } else {
        assert(s.skip(i) =~= Seq::empty());
    }
}

/// An ASCII text without percent and plus signs denotes itself.
pub proof fn law_plain_text(s: Seq<char>)
    requires
        is_ascii_chars(s),
        forall|j: int| 0 <= j < s.len() ==> #[trigger] s[j] != '%' && s[j] != '+',
    ensures
        url_decoded(s) == Some(s),
{
    is_ascii_chars_encode_utf8(s);
    let b = encode_utf8(s);
    assert forall|j: int| 0 <= j < s.len() implies #[trigger] b[j] as char == s[j] && b[j] != 37
        && b[j] != 43 by {
        assert(s[j] != '%' && s[j] != '+');
    }
    lemma_plain_from(s, b, 0);
    assert(s.skip(0) =~= s);
}

/// A value that may be missing, or that may not be readable.
#[derive(Debug)]
pub enum Lookup {
    /// There is no such value.
    Missing,
    Found(String),
    /// There is one, but it does not denote a text.
    Broken,
}

/// A [`Lookup`], with the text as a sequence.
pub enum LookupView {
    Missing,
    Found(Seq<char>),
    Broken,
}

impl View for Lookup {
    type V = LookupView;

    open spec fn view(&self) -> LookupView {
        match self {
            Lookup::Missing => LookupView::Missing,
            Lookup::Found(s) => LookupView::Found(s@),
            Lookup::Broken => LookupView::Broken,
        }
    }
}

/// The value of the first pair `key=value` from the `i`th on. Where `blank` does
/// not hold, a pair with an empty value does not count.
pub open spec fn value_from(
    pairs: Seq<Seq<char>>,
    key: Seq<char>,
    blank: bool,
    i: int,
) -> LookupView
    decreases pairs.len() - i,
{
    if i >= pairs.len() {
        LookupView::Missing
    } else {
        let value = behind(pairs[i], '=');
        if before(pairs[i], '=') == key && value is Some && (blank || value->0.len() > 0) {
            match url_decoded(value->0) {
                Some(t) => LookupView::Found(t),
                None => LookupView::Broken,
            }
        } else {
            value_from(pairs, key, blank, i + 1)
        }
    }
}

fn find_value(s: &[char], key: &str, blank: bool) -> (r: Lookup)
    ensures
        r@ == value_from(pieces(s@, '&'), key@, blank, 0),
{
    let pairs = split_on(s, '&');
    let ghost all = pieces(s@, '&');
    let k = chars_of(key);
    let mut i: usize = 0;
    while i < pairs.len()
        invariant
            i <= pairs@.len(),
            seqs(pairs@) == all,
            all == pieces(s@, '&'),
            k@ == key@,
            value_from(all, key@, blank, 0) == value_from(all, key@, blank, i as int),
        decreases pairs@.len() - i,
    {
        let pair = pairs[i].as_slice();
        assert(all[i as int] == pair@);
        assert(pair@.len() == pair.len());
        let eq = find_char(pair, '=', 0);
        if eq < pair.len() && eq == k.len() && is_at(pair, k.as_slice(), 0) && (blank || eq + 1
            < pair.len()) {
            assert(pair@.subrange(0, eq as int) =~= before(pair@, '='));
            let value = part(pair, eq + 1, pair.len());
            assert(value@ =~= pair@.skip(eq + 1));
            let text = string_of(value.as_slice());
            return match url_decode(text.as_str()) {
                Some(t) => Lookup::Found(t),
                None => Lookup::Broken,
            };
        }
        proof {
            if before(pair@, '=') == key@ {
                assert(pair@.subrange(0, eq as int) =~= before(pair@, '='));
                assert(eq == k@.len());
            }
        }
        i += 1;
    }
    Lookup::Missing
}

/// The part of a first line that holds the values: what stands behind the question
/// mark of the target.
pub open spec fn query_part(line: Seq<char>) -> Seq<char> {
    let w = words_of(first_line(line));
    let target = if w.len() >= 2 {
        w[1]
    } else {
        Seq::empty()
    };
    match behind(target, '?') {
        Some(q) => q,
        None => Seq::empty(),
    }
}

/// The value under `key` in the target of a first line.
pub fn get_query_param(line: &str, key: &str) -> (r: Lookup)
    ensures
        r@ == value_from(pieces(query_part(line@), '&'), key@, true, 0),
{
    let chars = chars_of(request_line(line).as_str());
    let w = split_words(chars.as_slice());
    assert(seqs(w@).len() == w@.len());
    let none: Vec<char> = Vec::new();
    assert(none@ =~= Seq::empty());
    if w.len() < 2 {
        proof {
            lemma_nothing_behind('?');
        }
        return find_value(none.as_slice(), key, true);
    }
    assert(seqs(w@)[1] == w@[1]@);
    let target = w[1].as_slice();
    assert(target@.len() == target.len());
    let q = find_char(target, '?', 0);
    if q < target.len() {
        let values = part(target, q + 1, target.len());
        assert(values@ =~= target@.skip(q + 1));
        find_value(values.as_slice(), key, true)
    } else {
        find_value(none.as_slice(), key, true)
    }
}

proof fn lemma_nothing_behind(c: char)
    ensures
        behind(Seq::empty(), c) is None,
{
    assert(char_from(Seq::empty(), c, 0) == 0);
}

/// The value under `field` in a form: the pairs stand in the body, and an empty
/// value does not count.
pub fn get_form_field_urlencoded(body: &[u8], field: &str) -> (r: Lookup)
    ensures
        r@ == value_from(pieces(lossy(body@), '&'), field@, false, 0),
{
    form_value(decode_lossy(body).as_str(), field)
}

/// The value under `field` in the text of a form.
pub fn form_value(text: &str, field: &str) -> (r: Lookup)
    ensures
        r@ == value_from(pieces(text@, '&'), field@, false, 0),
{
    let chars = chars_of(text);
    find_value(chars.as_slice(), field, false)
}

} // verus!
