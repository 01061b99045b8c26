//! Searching through the web interface.
use crate::http::{get_query_param, query_part, value_from, Lookup, LookupView};
use crate::metadata::{ObjectInfo, ObjectInfoView};
use crate::pages::{page_tab, page_text, search_body, search_text};
use crate::search::{contains_folded, option_view, Query, QueryView};
use crate::storage::{infos_of, ObjectStorage};
use crate::text::lowercase;
use crate::web::{list_all, listed, respond_ok, shows, WebReply};
use crate::words::{contains_text, pieces};
use vstd::hash_map::*;
use vstd::prelude::*;
use vstd::slice::*;
use vstd::string::*;
use vstd::utf8::*;

verus! {

/// Whether `a` comes before `b`, by the first byte that differs; what is longer
/// comes after its own beginnings.
pub open spec fn bytes_less(a: Seq<u8>, b: Seq<u8>) -> bool
    decreases a.len(),
{
    if b.len() == 0 {
        false
    } else if a.len() == 0 {
        true
    } else if a[0] != b[0] {
        a[0] < b[0]
    } else {
        bytes_less(a.skip(1), b.skip(1))
    }
}

fn less_bytes(a: &[u8], b: &[u8]) -> (r: bool)
    ensures
        r == bytes_less(a@, b@),
{
    assert(a@.len() == a.len());
    assert(b@.len() == b.len());
    let mut i: usize = 0;
    assert(a@.skip(0) =~= a@);
    assert(b@.skip(0) =~= b@);
    while i < a.len() && i < b.len()
        invariant
            i <= a@.len(),
            i <= b@.len(),
            a@.len() == a.len(),
            b@.len() == b.len(),
            bytes_less(a@, b@) == bytes_less(a@.skip(i as int), b@.skip(i as int)),
        decreases a@.len() - i,
    {
        if a[i] != b[i] {
            return a[i] < b[i];
        }
        assert(a@.skip(i as int).skip(1) =~= a@.skip(i + 1));
        assert(b@.skip(i as int).skip(1) =~= b@.skip(i + 1));
        i += 1;
    }
    i < b.len()
}

/// How many bytes of a day are compared: those of a date.
pub open spec fn date_len(day: Seq<char>) -> nat {
    if encode_utf8(day).len() < 10 {
        encode_utf8(day).len()
    } else {
        10
    }
}

/// Whether the front of `s`, `n` bytes of it, is whole characters.
pub open spec fn cuttable(s: Seq<char>, n: nat) -> bool {
    n <= encode_utf8(s).len() && is_char_boundary(encode_utf8(s), n as int)
}

/// How a creation time compares with a day, by as many bytes as the day has: below
/// it, above it, or neither. There is no telling where a character is cut.
#[derive(Debug, Clone, Copy, PartialEq, Eq, Structural)]
pub enum DayOrder {
    Below,
    Same,
    Above,
    Broken,
}

/// How a creation time compares with a day.
pub open spec fn day_order(created: Seq<char>, day: Seq<char>) -> DayOrder {
    let n = date_len(day);
    let a = encode_utf8(created).take(n as int);
    let b = encode_utf8(day).take(n as int);
    if !cuttable(created, n) || !cuttable(day, n) {
        DayOrder::Broken
    } else if bytes_less(a, b) {
        DayOrder::Below
    } else if bytes_less(b, a) {
        DayOrder::Above
    } else {
        DayOrder::Same
    }
}

fn order_days(created: &str, day: &str) -> (r: DayOrder)
    ensures
        r == day_order(created@, day@),
{
    let a = created.as_bytes();
    let b = day.as_bytes();
    let n = if b.len() < 10 {
        b.len()
    } else {
        10
    };
    if n > a.len() || !created.is_char_boundary(n) || !day.is_char_boundary(n) {
        return DayOrder::Broken;
    }
    let x = slice_subrange(a, 0, n);
    let y = slice_subrange(b, 0, n);
    assert(x@ =~= a@.take(n as int));
    assert(y@ =~= b@.take(n as int));
    if less_bytes(x, y) {
        DayOrder::Below
    } else if less_bytes(y, x) {
        DayOrder::Above
    } else {
        DayOrder::Same
    }
}

/// The conditions of a search in the web interface, by their texts.
pub open spec fn folded(text: Seq<char>, condition: Option<Seq<char>>) -> bool {
    condition matches Some(c) ==> contains_text(lowercase(text), lowercase(c))
}

/// Whether the object meets every condition. There is no telling where a day cannot
/// be compared.
pub open spec fn web_meets(o: ObjectInfoView, q: QueryView) -> Option<bool> {
    let after = match q.after {
        Some(d) => day_order(o.created_at, d),
        None => DayOrder::Same,
    };
    let before = match q.before {
        Some(d) => day_order(o.created_at, d),
        None => DayOrder::Same,
    };
    if !folded(o.name, q.name) || !folded(o.tags, q.tag) || !folded(
        o.content_type,
        q.content_type,
    ) {
        Some(false)
    } else if after is Broken {
        None
    } else if after is Below {
        Some(false)
    } else if before is Broken {
        None
    } else {
        Some(!(before is Above))
    }
}

fn meets_folded(text: &str, condition: &Option<String>) -> (r: bool)
    ensures
        r == folded(text@, option_view(*condition)),
{
    match condition {
        Some(c) => contains_folded(text, c.as_str()),
        None => true,
    }
}

fn object_web_meets(o: &ObjectInfo, q: &Query) -> (r: Option<bool>)
    ensures
        r == web_meets(o@, q@),
{
    if !meets_folded(o.name.as_str(), &q.name) || !meets_folded(o.tags.as_str(), &q.tag)
        || !meets_folded(o.content_type.as_str(), &q.content_type) {
        return Some(false);
    }
    let after = match &q.after {
        Some(d) => order_days(o.created_at.as_str(), d.as_str()),
        None => DayOrder::Same,
    };
    match after {
        DayOrder::Broken => {
            return None;
        },
        DayOrder::Below => {
            return Some(false);
        },
        _ => {},
    }
    let before = match &q.before {
        Some(d) => order_days(o.created_at.as_str(), d.as_str()),
        None => DayOrder::Same,
    };
    match before {
        DayOrder::Broken => None,
        DayOrder::Above => Some(false),
        _ => Some(true),
    }
}

/// Those of the first `n` objects that meet every condition, in order, if that can
/// be told of each.
pub open spec fn web_found(objects: Seq<ObjectInfoView>, q: QueryView, n: int) -> Option<
    Seq<ObjectInfoView>,
>
    decreases n,
{
    if n <= 0 {
        Some(Seq::empty())
    } else {
        match (web_found(objects, q, n - 1), web_meets(objects[n - 1], q)) {
            (Some(front), Some(met)) => Some(
                if met {
                    front.push(objects[n - 1])
                } else {
                    front
                },
            ),
            _ => None,
        }
    }
}

proof fn lemma_web_found_broken(objects: Seq<ObjectInfoView>, q: QueryView, i: int, n: int)
    requires
        i <= n,
        web_found(objects, q, i) is None,
    ensures
        web_found(objects, q, n) is None,
    decreases n - i,
{
    if i < n {
        lemma_web_found_broken(objects, q, i, n - 1);
    }
}

/// The objects that meet every condition, in order, if that can be told of each.
pub fn web_filter(objects: &Vec<ObjectInfo>, q: &Query) -> (r: Option<Vec<ObjectInfo>>)
    ensures
        match r {
            Some(list) => web_found(infos_of(objects@), q@, objects@.len() as int) == Some(
                infos_of(list@),
            ),
            None => web_found(infos_of(objects@), q@, objects@.len() as int) is None,
        },
{
    let ghost all = infos_of(objects@);
    let mut out: Vec<ObjectInfo> = Vec::new();
    let mut i: usize = 0;
    assert(infos_of(out@) =~= Seq::empty());
    while i < objects.len()
        invariant
            i <= objects@.len(),
            all == infos_of(objects@),
            web_found(all, q@, i as int) == Some(infos_of(out@)),
        decreases objects@.len() - i,
    {
        assert(all[i as int] == objects@[i as int]@);
        match object_web_meets(&objects[i], q) {
            None => {
                proof {
                    assert(web_found(all, q@, i + 1) is None);
                    lemma_web_found_broken(all, q@, i + 1, objects@.len() as int);
                }
                return None;
            },
            Some(met) => {
                if met {
                    let ghost before = infos_of(out@);
                    let o = objects[i].clone();
                    out.push(o);
                    assert(infos_of(out@) =~= before.push(all[i as int]));
                }
            },
        }
        i += 1;
    }
    Some(out)
}

/// The value of a condition in the target of a first line, if it is readable.
pub open spec fn condition_in(line: Seq<char>, key: Seq<char>) -> Option<Option<Seq<char>>> {
    match value_from(pieces(query_part(line), '&'), key, true, 0) {
        LookupView::Missing => Some(None),
        LookupView::Found(s) => Some(Some(s)),
        LookupView::Broken => None,
    }
}

fn read_condition(line: &str, key: &str) -> (r: Option<Option<String>>)
    ensures
        match r {
            Some(v) => condition_in(line@, key@) == Some(option_view(v)),
            None => condition_in(line@, key@) is None,
        },
{
    match get_query_param(line, key) {
        Lookup::Missing => Some(None),
        Lookup::Found(s) => Some(Some(s)),
        Lookup::Broken => None,
    }
}

/// The conditions in the target of a first line, if all of them are readable.
pub open spec fn conditions_in(line: Seq<char>) -> Option<QueryView> {
    match (
        condition_in(line, "name"@),
        condition_in(line, "tag"@),
        condition_in(line, "type"@),
        condition_in(line, "after"@),
        condition_in(line, "before"@),
    ) {
        (Some(name), Some(tag), Some(content_type), Some(after), Some(before)) => Some(
            QueryView { name, tag, content_type, after, before },
        ),
        _ => None,
    }
}

/// Reads the conditions in the target of a first line.
pub fn read_conditions(line: &str) -> (r: Option<Query>)
    ensures
        match r {
            Some(q) => conditions_in(line@) == Some(q@),
            None => conditions_in(line@) is None,
        },
{
    let name = match read_condition(line, "name") {
        Some(v) => v,
        None => {
            return None;
        },
    };
    let tag = match read_condition(line, "tag") {
        Some(v) => v,
        None => {
            return None;
        },
    };
    let content_type = match read_condition(line, "type") {
        Some(v) => v,
        None => {
            return None;
        },
    };
    let after = match read_condition(line, "after") {
        Some(v) => v,
        None => {
            return None;
        },
    };
    let before = match read_condition(line, "before") {
        Some(v) => v,
        None => {
            return None;
        },
    };
    Some(Query { name, tag, content_type, after, before })
}

/// Whether `r` shows those of the objects that meet the conditions.
pub open spec fn search_shown(
    all: Seq<ObjectInfoView>,
    q: QueryView,
    version: Seq<char>,
    r: Option<WebReply>,
) -> bool {
    match web_found(all, q, all.len() as int) {
        Some(infos) => r matches Some(m) && shows(
            m,
            page_text(
                "搜索结果"@,
                search_text(q.name, q.tag, q.content_type, infos),
                false,
                "manage"@,
                version,
            ),
        ),
        None => r is None,
    }
}

/// Shows the objects that meet the conditions. There is no reply where a day cannot
/// be compared.
pub fn web_search(store: &ObjectStorage, file: &[u8], q: &Query, version: &str) -> (r: Option<
    WebReply,
>)
    requires
        store@.sound(file@),
    ensures
        search_shown(listed(store@, file@), q@, version@, r),
{
    let objects = list_all(store, file);
    match web_filter(&objects, q) {
        None => None,
        Some(found) => {
            let body = search_body(&q.name, &q.tag, &q.content_type, &found);
            Some(respond_ok(page_tab("搜索结果", body.as_str(), "manage", version).as_str()))
        },
    }
}

} // verus!
