//! Which objects a search finds.
use crate::clock::{
    datetime_seconds, day_start, parse_datetime, parse_day, DATETIME_FORMAT, DATE_FORMAT,
    DAY_SECONDS,
};
use crate::metadata::{ObjectInfo, ObjectInfoView};
use crate::storage::infos_of;
use crate::text::{all_ascii, ascii_lower, chars_of, lowercase, string_of, to_lower};
use crate::words::{
    before, behind, contains_text, find_char, has_text, law_contains_text, part, stands_at, trim,
    trimmed,
};
use vstd::prelude::*;
use vstd::string::*;

verus! {

/// The conditions of a search. One that is not given is met by every object.
#[derive(Debug)]
pub struct Query {
    /// The name contains this, in upper or lower case.
    pub name: Option<String>,
    /// The tags hold this pair `key=value`, or contain this text, in upper or
    /// lower case.
    pub tag: Option<String>,
    /// The content type contains this, in upper or lower case.
    pub content_type: Option<String>,
    /// The object was created on this day or later.
    pub after: Option<String>,
    /// The object was created on this day or earlier.
    pub before: Option<String>,
}

/// An optional text, as a sequence.
pub open spec fn option_view(s: Option<String>) -> Option<Seq<char>> {
    match s {
        Some(t) => Some(t@),
        None => None,
    }
}

/// A [`Query`], with texts as sequences.
pub struct QueryView {
    pub name: Option<Seq<char>>,
    pub tag: Option<Seq<char>>,
    pub content_type: Option<Seq<char>>,
    pub after: Option<Seq<char>>,
    pub before: Option<Seq<char>>,
}

impl View for Query {
    type V = QueryView;

    open spec fn view(&self) -> QueryView {
        QueryView {
            name: option_view(self.name),
            tag: option_view(self.tag),
            content_type: option_view(self.content_type),
            after: option_view(self.after),
            before: option_view(self.before),
        }
    }
}

/// How a pair of a key and a value stands in tags that are JSON.
pub open spec fn tag_pattern(key: Seq<char>, value: Seq<char>) -> Seq<char> {
    "\""@ + trimmed(key) + "\":\""@ + trimmed(value) + "\""@
}

/// Whether the tags hold the pair `key=value`, or, where `tag` is none, contain
/// it, both taken in lower case.
pub open spec fn tag_met(tags: Seq<char>, tag: Seq<char>) -> bool {
    match behind(tag, '=') {
        Some(value) => contains_text(tags, tag_pattern(before(tag, '='), value)),
        None => contains_text(lowercase(tags), lowercase(tag)),
    }
}

/// When an object was created; the epoch where its creation time is no time.
pub open spec fn created_seconds(created_at: Seq<char>) -> i64 {
    match datetime_seconds(created_at, DATETIME_FORMAT@) {
        Some(t) => t,
        None => 0,
    }
}

/// Whether a point in time is neither before the day that begins at `from` nor
/// after the day that begins at `to`, each of which may be missing.
pub open spec fn within(created: i64, from: Option<i64>, to: Option<i64>) -> bool {
    &&& from matches Some(a) ==> a <= created
    &&& to matches Some(b) ==> created < b + DAY_SECONDS
}

/// When the day that is given begins, if it is one.
pub open spec fn start_of(day: Option<Seq<char>>) -> Option<i64> {
    match day {
        Some(d) => day_start(d, DATE_FORMAT@),
        None => None,
    }
}

/// Whether the object meets every condition.
pub open spec fn meets(o: ObjectInfoView, q: QueryView) -> bool {
    &&& q.name matches Some(n) ==> contains_text(lowercase(o.name), lowercase(n))
    &&& q.tag matches Some(t) ==> tag_met(o.tags, t)
    &&& q.content_type matches Some(c) ==> contains_text(lowercase(o.content_type), lowercase(c))
    &&& within(created_seconds(o.created_at), start_of(q.after), start_of(q.before))
}

/// Those of the first `n` objects that meet every condition, in order.
pub open spec fn found(objects: Seq<ObjectInfoView>, q: QueryView, n: int) -> Seq<ObjectInfoView>
    decreases n,
{
    if n <= 0 {
        Seq::empty()
    } else if meets(objects[n - 1], q) {
        found(objects, q, n - 1).push(objects[n - 1])
    } else {
        found(objects, q, n - 1)
    }
}

/// Whether an ASCII text holds the other one somewhere, in upper or lower case.
pub open spec fn holds_folded(text: Seq<char>, part: Seq<char>) -> bool {
    exists|i: int|
        0 <= i <= text.len() - part.len() && #[trigger] matches_folded(text, part, i)
}

/// Whether the characters of `part` stand in `text` from `i` on, in upper or lower
/// case.
pub open spec fn matches_folded(text: Seq<char>, part: Seq<char>, i: int) -> bool {
    forall|k: int|
        0 <= k < part.len() ==> ascii_lower(text[i + k]) == ascii_lower(#[trigger] part[k])
}

proof fn lemma_folded(text: Seq<char>, part: Seq<char>, a: Seq<char>, b: Seq<char>)
    requires
        a == text.map_values(|c: char| ascii_lower(c)),
        b == part.map_values(|c: char| ascii_lower(c)),
    ensures
        contains_text(a, b) == holds_folded(text, part),
{
    law_contains_text(a, b);
    if contains_text(a, b) {
        let i = choose|i: int| 0 <= i && #[trigger] stands_at(a, b, i);
        assert forall|k: int| 0 <= k < part.len() implies ascii_lower(text[i + k]) == ascii_lower(
            #[trigger] part[k],
        ) by {
            assert(a.subrange(i, i + b.len())[k] == a[i + k]);
            assert(b[k] == ascii_lower(part[k]));
        }
        assert(matches_folded(text, part, i));
    }
    if holds_folded(text, part) {
        let i = choose|i: int|
            0 <= i <= text.len() - part.len() && #[trigger] matches_folded(text, part, i);
        assert(a.subrange(i, i + b.len()) =~= b) by {
            assert forall|k: int| 0 <= k < b.len() implies a[i + k] == #[trigger] b[k] by {
                assert(ascii_lower(text[i + k]) == ascii_lower(part[k]));
            }
        }
        assert(stands_at(a, b, i));
    }
}

/// An object is found under any part of its name, whatever stands around it: `n` is
/// held by `p`, a text that differs from `n` in case alone, and `s`, one after the
/// other.
pub proof fn law_folded(p: Seq<char>, m: Seq<char>, n: Seq<char>, s: Seq<char>)
    requires
        m.len() == n.len(),
        forall|k: int| 0 <= k < n.len() ==> ascii_lower(m[k]) == ascii_lower(#[trigger] n[k]),
    ensures
        holds_folded(p + m + s, n),
{
    let t = p + m + s;
    assert forall|k: int| 0 <= k < n.len() implies ascii_lower(t[p.len() + k]) == ascii_lower(
        #[trigger] n[k],
    ) by {
        assert(t[p.len() + k] == m[k]);
    }
    assert(matches_folded(t, n, p.len() as int));
}

/// Whether the text contains the other, both taken in lower case.
pub fn contains_folded(text: &str, part: &str) -> (r: bool)
    ensures
        r == contains_text(lowercase(text@), lowercase(part@)),
        all_ascii(text@) && all_ascii(part@) ==> r == holds_folded(text@, part@),
{
    let a = to_lower(text);
    let b = to_lower(part);
    proof {
        if all_ascii(text@) && all_ascii(part@) {
            lemma_folded(text@, part@, a@, b@);
        }
    }
    has_text(a.as_str(), b.as_str())
}

/// The pattern of a pair `key=value`; nothing where `tag` is none.
pub fn pair_pattern(tag: &str) -> (r: Option<String>)
    ensures
        match r {
            Some(p) => behind(tag@, '=') matches Some(v) && p@ == tag_pattern(
                before(tag@, '='),
                v,
            ),
            None => behind(tag@, '=') is None,
        },
{
    let chars = chars_of(tag);
    let i = find_char(chars.as_slice(), '=', 0);
    if i == chars.len() {
        return None;
    }
    let key = part(chars.as_slice(), 0, i);
    let value = part(chars.as_slice(), i + 1, chars.len());
    assert(key@ =~= before(tag@, '='));
    assert(value@ =~= tag@.skip(i + 1));
    let key = string_of(trim(key.as_slice()).as_slice());
    let value = string_of(trim(value.as_slice()).as_slice());
    let mut p = "\"".to_owned();
    p.append(key.as_str());
    p.append("\":\"");
    p.append(value.as_str());
    p.append("\"");
    Some(p)
}

/// Whether the tags hold the pair or contain the text.
pub fn tags_match(tags: &str, tag: &str) -> (r: bool)
    ensures
        r == tag_met(tags@, tag@),
{
    match pair_pattern(tag) {
        Some(p) => has_text(tags, p.as_str()),
        None => contains_folded(tags, tag),
    }
}

/// Whether a point in time is neither before the day that begins at `from` nor
/// after the day that begins at `to`, each of which may be missing.
pub fn is_within(created: i64, from: Option<i64>, to: Option<i64>) -> (r: bool)
    ensures
        r == within(created, from, to),
{
    if let Some(a) = from {
        if created < a {
            return false;
        }
    }
    if let Some(b) = to {
        if created as i128 >= b as i128 + DAY_SECONDS as i128 {
            return false;
        }
    }
    true
}

/// Whether the object meets every condition.
pub fn object_meets(o: &ObjectInfo, q: &Query) -> (r: bool)
    ensures
        r == meets(o@, q@),
        q@.name is None && q@.tag is None && q@.content_type is None && q@.after is None
            && q@.before is None ==> r,
        q@.name is Some && all_ascii(o.name@) && all_ascii(q@.name->0) ==> {
            &&& !holds_folded(o.name@, q@.name->0) ==> !r
            &&& q@.tag is None && q@.content_type is None && q@.after is None && q@.before is None
                ==> r == holds_folded(o.name@, q@.name->0)
        },
        q@.content_type is Some && all_ascii(o.content_type@) && all_ascii(q@.content_type->0) ==> {
            &&& !holds_folded(o.content_type@, q@.content_type->0) ==> !r
            &&& q@.name is None && q@.tag is None && q@.after is None && q@.before is None ==> r
                == holds_folded(o.content_type@, q@.content_type->0)
        },
{
    if let Some(n) = &q.name {
        if !contains_folded(o.name.as_str(), n.as_str()) {
            return false;
        }
    }
    if let Some(t) = &q.tag {
        if !tags_match(o.tags.as_str(), t.as_str()) {
            return false;
        }
    }
    if let Some(c) = &q.content_type {
        if !contains_folded(o.content_type.as_str(), c.as_str()) {
            return false;
        }
    }
    let from = match &q.after {
        Some(d) => parse_day(d.as_str(), DATE_FORMAT),
        None => None,
    };
    let to = match &q.before {
        Some(d) => parse_day(d.as_str(), DATE_FORMAT),
        None => None,
    };
    let created = match parse_datetime(o.created_at.as_str(), DATETIME_FORMAT) {
        Some(t) => t,
        None => 0,
    };
    is_within(created, from, to)
}

/// The objects that meet every condition, in order.
pub fn search(objects: &Vec<ObjectInfo>, q: &Query) -> (r: Vec<ObjectInfo>)
    ensures
        infos_of(r@) == found(
            infos_of(objects@),
            q@,
            objects@.len() as int,
        ),
{
    let ghost all = infos_of(objects@);
    let mut out: Vec<ObjectInfo> = Vec::new();
    let mut i: usize = 0;
    assert(infos_of(out@) =~= Seq::empty());
    while i < objects.len()
        invariant
            i <= objects@.len(),
            all == infos_of(objects@),
            infos_of(out@) == found(all, q@, i as int),
        decreases objects@.len() - i,
    {
        if object_meets(&objects[i], q) {
            let ghost before = infos_of(out@);
            let o = objects[i].clone();
            out.push(o);
            assert(infos_of(out@) =~= before.push(all[i as int]));
        }
        i += 1;
    }
    out
}

/// A search finds exactly the objects that meet every condition.
pub proof fn law_found(objects: Seq<ObjectInfoView>, q: QueryView, n: int, o: ObjectInfoView)
    requires
        0 <= n <= objects.len(),
    ensures
        found(objects, q, n).contains(o) <==> objects.take(n).contains(o) && meets(o, q),
    decreases n,
{
    if n > 0 {
        law_found(objects, q, n - 1, o);
        let last = objects[n - 1];
        let front = found(objects, q, n - 1);
        let all = found(objects, q, n);
        if all.contains(o) {
            let i = choose|i: int| 0 <= i < all.len() && all[i] == o;
            if i < front.len() {
                assert(front[i] == o);
                let less = objects.take(n - 1);
                let j = choose|j: int| 0 <= j < less.len() && less[j] == o;
                assert(objects.take(n)[j] == o);
            } else {
                assert(objects.take(n)[n - 1] == o);
            }
        }
        if objects.take(n).contains(o) && meets(o, q) {
            let more = objects.take(n);
            let j = choose|j: int| 0 <= j < more.len() && more[j] == o;
            if j < n - 1 {
                assert(objects.take(n - 1)[j] == o);
                let i = choose|i: int| 0 <= i < front.len() && front[i] == o;
                assert(all[i] == o);
            } else {
                assert(all[all.len() - 1] == o);
            }
        }
    }
}

} // verus!
