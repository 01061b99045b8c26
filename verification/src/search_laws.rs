//! Which objects a search finds, told by the texts of the objects and of the
//! conditions.
use crate::clock::{datetime_seconds, day_start};
use crate::metadata::ObjectInfoView;
use crate::search::{found, law_found, meets, QueryView};
use crate::text::lowercase;
use crate::web_search::{bytes_less, web_found};
use crate::word_laws::{law_contained, law_cut};
use crate::words::{before, trimmed};
use vstd::prelude::*;
use vstd::utf8::*;

verus! {

/// Whether `part` stands in `text` between some beginning and some end.
pub open spec fn stands_in(text: Seq<char>, part: Seq<char>) -> bool {
    exists|p: Seq<char>, s: Seq<char>| text == #[trigger] (p + part + s)
}

/// Whether the tags have what is asked for. A condition `key=value` asks for that pair
/// in JSON, without the white space around both; any other one for its text, in upper
/// or lower case.
pub open spec fn tagged(tags: Seq<char>, tag: Seq<char>) -> bool {
    &&& !tag.contains('=') ==> stands_in(lowercase(tags), lowercase(tag))
    &&& forall|key: Seq<char>, value: Seq<char>|
        tag == #[trigger] (key + seq!['='] + value) && !key.contains('=') ==> stands_in(
            tags,
            "\""@ + trimmed(key) + "\":\""@ + trimmed(value) + "\""@,
        )
}

proof fn lemma_tagged(tags: Seq<char>, tag: Seq<char>)
    ensures
        tagged(tags, tag) == crate::search::tag_met(tags, tag),
{
    if tag.contains('=') {
        crate::words::lemma_char_from(tag, '=', 0);
        let i = crate::words::char_from(tag, '=', 0);
        if i == tag.len() {
            let j = choose|j: int| 0 <= j < tag.len() && tag[j] == '=';
            assert(tag[j] != '=');
        }
        let k = tag.take(i);
        let v = tag.skip(i + 1);
        assert(tag =~= k + seq!['='] + v);
        assert(!k.contains('=')) by {
            if k.contains('=') {
                let j = choose|j: int| 0 <= j < k.len() && k[j] == '=';
                assert(tag[j] != '=');
            }
        }
        law_cut(k, '=', v);
        let pattern = "\""@ + trimmed(k) + "\":\""@ + trimmed(v) + "\""@;
        law_contained(tags, pattern);
        assert forall|key: Seq<char>, value: Seq<char>|
            tag == #[trigger] (key + seq!['='] + value) && !key.contains('=') implies key == k
            && value == v by {
            law_cut(key, '=', value);
        }
    } else {
        law_cut(tag, '=', Seq::empty());
        law_contained(lowercase(tags), lowercase(tag));
        assert forall|key: Seq<char>, value: Seq<char>|
            tag == #[trigger] (key + seq!['='] + value) implies false by {
            assert((key + seq!['='] + value)[key.len() as int] == '=');
            assert(tag.contains('='));
        }
    }
}

/// A search finds exactly the objects that meet what was asked for. The name and the
/// content type have to contain the condition, in upper or lower case; the tags have
/// to have the pair or the text. The object must not be created before the first day
/// begins, nor after the last one ends; a day that is none asks for nothing.
pub proof fn law_search(objects: Seq<ObjectInfoView>, q: QueryView, o: ObjectInfoView)
    ensures
        found(objects, q, objects.len() as int).contains(o) <==> {
            let created = match datetime_seconds(o.created_at, "%Y-%m-%d %H:%M:%S"@) {
                Some(t) => t,
                None => 0i64,
            };
            &&& objects.contains(o)
            &&& q.name matches Some(n) ==> stands_in(lowercase(o.name), lowercase(n))
            &&& q.content_type matches Some(c) ==> stands_in(
                lowercase(o.content_type),
                lowercase(c),
            )
            &&& q.tag matches Some(t) ==> tagged(o.tags, t)
            &&& q.after matches Some(d) ==> (day_start(d, "%Y-%m-%d"@) matches Some(t) ==> t
                <= created)
            &&& q.before matches Some(d) ==> (day_start(d, "%Y-%m-%d"@) matches Some(t) ==> created
                < t + 24 * 60 * 60)
        },
{
    law_found(objects, q, objects.len() as int, o);
    assert(objects.take(objects.len() as int) =~= objects);
    if let Some(n) = q.name {
        law_contained(lowercase(o.name), lowercase(n));
    }
    if let Some(c) = q.content_type {
        law_contained(lowercase(o.content_type), lowercase(c));
    }
    if let Some(t) = q.tag {
        lemma_tagged(o.tags, t);
    }
}

/// What a search finds stands in the order of the objects: the places in the list
/// rise, and what stands between two of them does not meet the conditions.
pub proof fn law_search_order(objects: Seq<ObjectInfoView>, q: QueryView, n: int) -> (places: Seq<
    int,
>)
    requires
        0 <= n <= objects.len(),
    ensures
        places.len() == found(objects, q, n).len(),
        forall|i: int|
            0 <= i < places.len() ==> 0 <= #[trigger] places[i] < n && objects[places[i]] == found(
                objects,
                q,
                n,
            )[i],
        forall|i: int, j: int| 0 <= i < j < places.len() ==> places[i] < places[j],
        forall|k: int| 0 <= k < n && !places.contains(k) ==> !meets(#[trigger] objects[k], q),
    decreases n,
{
    if n == 0 {
        Seq::empty()
    } else {
        let front = law_search_order(objects, q, n - 1);
        if meets(objects[n - 1], q) {
            let all = front.push(n - 1);
            assert forall|k: int| 0 <= k < n && !all.contains(k) implies !meets(
                #[trigger] objects[k],
                q,
            ) by {
                if k == n - 1 {
                    assert(all[all.len() - 1] == k);
                } else if front.contains(k) {
                    let i = choose|i: int| 0 <= i < front.len() && front[i] == k;
                    assert(all[i] == k);
                }
            }
            all
        } else {
            front
        }
    }
}

/// Asking for more never finds more: with one more condition a search finds nothing
/// that it did not find without it.
pub proof fn law_search_narrows(objects: Seq<ObjectInfoView>, q: QueryView, o: ObjectInfoView)
    requires
        found(objects, q, objects.len() as int).contains(o),
    ensures
        found(objects, QueryView { name: None, ..q }, objects.len() as int).contains(o),
        found(objects, QueryView { tag: None, ..q }, objects.len() as int).contains(o),
        found(objects, QueryView { content_type: None, ..q }, objects.len() as int).contains(o),
        found(objects, QueryView { after: None, ..q }, objects.len() as int).contains(o),
        found(objects, QueryView { before: None, ..q }, objects.len() as int).contains(o),
{
    law_search(objects, q, o);
    law_search(objects, QueryView { name: None, ..q }, o);
    law_search(objects, QueryView { tag: None, ..q }, o);
    law_search(objects, QueryView { content_type: None, ..q }, o);
    law_search(objects, QueryView { after: None, ..q }, o);
    law_search(objects, QueryView { before: None, ..q }, o);
}

/// Bytes are compared at the first place where they differ; what is longer comes
/// after its own beginnings.
pub proof fn law_bytes_less(p: Seq<u8>, x: u8, y: u8, s: Seq<u8>, t: Seq<u8>)
    ensures
        x != y ==> bytes_less(p + seq![x] + s, p + seq![y] + t) == (x < y),
        bytes_less(p, p + seq![x] + s),
        !bytes_less(p + seq![x] + s, p),
        !bytes_less(p, p),
    decreases p.len(),
{
    let a = p + seq![x] + s;
    let b = p + seq![y] + t;
    if p.len() > 0 {
        law_bytes_less(p.skip(1), x, y, s, t);
        assert(a.skip(1) =~= p.skip(1) + seq![x] + s);
        assert(b.skip(1) =~= p.skip(1) + seq![y] + t);
        assert(a[0] == p[0] && b[0] == p[0]);
    } else {
        assert(a[0] == x && b[0] == y);
    }
}

/// The bytes of a day that count: the first ten, or all.
pub open spec fn day_bytes(day: Seq<char>) -> int {
    if encode_utf8(day).len() < 10 {
        encode_utf8(day).len() as int
    } else {
        10
    }
}

proof fn lemma_web_found(objects: Seq<ObjectInfoView>, q: QueryView, n: int, o: ObjectInfoView)
    requires
        0 <= n <= objects.len(),
        web_found(objects, q, n) is Some,
    ensures
        web_found(objects, q, n)->0.contains(o) <==> objects.take(n).contains(o)
            && crate::web_search::web_meets(o, q) == Some(true),
    decreases n,
{
    if n > 0 {
        lemma_web_found(objects, q, n - 1, o);
        let front = web_found(objects, q, n - 1)->0;
        let all = web_found(objects, q, n)->0;
        let last = objects[n - 1];
        let less = objects.take(n - 1);
        let more = objects.take(n);
        assert(more =~= less.push(last));
        if all.contains(o) {
            let i = choose|i: int| 0 <= i < all.len() && all[i] == o;
            if i < front.len() {
                assert(front[i] == o);
                let j = choose|j: int| 0 <= j < less.len() && less[j] == o;
                assert(more[j] == o);
            } else {
                assert(more[n - 1] == o);
            }
        }
        if more.contains(o) && crate::web_search::web_meets(o, q) == Some(true) {
            let j = choose|j: int| 0 <= j < more.len() && more[j] == o;
            if j < n - 1 {
                assert(less[j] == o);
                let i = choose|i: int| 0 <= i < front.len() && front[i] == o;
                assert(all[i] == o);
            } else {
                assert(all[all.len() - 1] == o);
            }
        }
    } else {
        assert(objects.take(0) =~= Seq::empty());
    }
}

/// A search in the web interface finds exactly the objects that meet what was asked
/// for. Name, tags and content type have to contain the condition, in upper or lower
/// case. The creation time must not be before the first day nor after the last one,
/// compared by the bytes of the day.
pub proof fn law_web_search(objects: Seq<ObjectInfoView>, q: QueryView, o: ObjectInfoView)
    requires
        web_found(objects, q, objects.len() as int) is Some,
    ensures
        web_found(objects, q, objects.len() as int)->0.contains(o) <==> {
            let at = encode_utf8(o.created_at);
            &&& objects.contains(o)
            &&& q.name matches Some(n) ==> stands_in(lowercase(o.name), lowercase(n))
            &&& q.tag matches Some(t) ==> stands_in(lowercase(o.tags), lowercase(t))
            &&& q.content_type matches Some(c) ==> stands_in(
                lowercase(o.content_type),
                lowercase(c),
            )
            &&& q.after matches Some(d) ==> !bytes_less(
                at.take(day_bytes(d)),
                encode_utf8(d).take(day_bytes(d)),
            )
            &&& q.before matches Some(d) ==> !bytes_less(
                encode_utf8(d).take(day_bytes(d)),
                at.take(day_bytes(d)),
            )
        },
{
    let n = objects.len() as int;
    lemma_web_found(objects, q, n, o);
    assert(objects.take(n) =~= objects);
    if let Some(x) = q.name {
        law_contained(lowercase(o.name), lowercase(x));
    }
    if let Some(x) = q.tag {
        law_contained(lowercase(o.tags), lowercase(x));
    }
    if let Some(x) = q.content_type {
        law_contained(lowercase(o.content_type), lowercase(x));
    }
    if objects.contains(o) {
        let j = choose|j: int| 0 <= j < objects.len() && objects[j] == o;
        lemma_web_told(objects, q, j, n);
    }
    if let Some(d) = q.after {
        lemma_less_one_way(encode_utf8(o.created_at).take(day_bytes(d)), encode_utf8(d).take(day_bytes(d)));
    }
    if let Some(d) = q.before {
        lemma_less_one_way(encode_utf8(o.created_at).take(day_bytes(d)), encode_utf8(d).take(day_bytes(d)));
    }
}

proof fn lemma_less_one_way(a: Seq<u8>, b: Seq<u8>)
    ensures
        !(bytes_less(a, b) && bytes_less(b, a)),
    decreases a.len(),
{
    if a.len() > 0 && b.len() > 0 && a[0] == b[0] {
        lemma_less_one_way(a.skip(1), b.skip(1));
    }
}

proof fn lemma_web_told(objects: Seq<ObjectInfoView>, q: QueryView, j: int, n: int)
    requires
        0 <= j < n <= objects.len(),
        web_found(objects, q, n) is Some,
    ensures
        crate::web_search::web_meets(objects[j], q) is Some,
    decreases n,
{
    if j < n - 1 {
        lemma_web_told(objects, q, j, n - 1);
    }
}

} // verus!
