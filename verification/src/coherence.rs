//! What the cache shows is what the store holds, whichever requests come.
use crate::cache::CacheView;
use crate::cache_model::{
    law_access_keeps_objects, law_cache_valid, law_insert, law_remove, law_resize, lemma_slot,
    lemma_slot_is, CachedView, Contents,
};
use crate::error::ErrorView;
use crate::ids::{hyphenated, parsed_uuid};
use crate::metadata::ObjectInfoView;
use crate::server::{cache_read, cached_view, data_read};
use crate::storage::{answers, apply, identified_by, StoreView};
use crate::storage_laws::{
    consistent, law_consistent_readable, law_consistent_sound, law_delete_consistent,
    law_delete_gone, law_delete_keeps_others, law_put_get, law_put_keeps_others, short_texts,
    stored,
};
use vstd::prelude::*;

verus! {

/// Whether `obj` is what the store holds under the identifier `uuid`.
pub open spec fn current(s: StoreView, file: Seq<u8>, uuid: Seq<char>, obj: CachedView) -> bool {
    s.get_result(file, uuid) matches Ok((info, data)) && info.uuid == uuid && obj == cached_view(
        info,
        data,
    )
}

/// Whether each object of the cache is what the store holds under its identifier.
pub open spec fn coherent(c: Contents, s: StoreView, file: Seq<u8>) -> bool {
    forall|uuid: Seq<char>| #[trigger]
        c.has(uuid) ==> current(s, file, uuid, c.at(uuid)->0)
}

/// An empty cache shows nothing that the store does not hold.
pub proof fn law_coherent_cleared(c: Contents, s: StoreView, file: Seq<u8>)
    ensures
        coherent(c.cleared(), s, file),
{
    assert forall|uuid: Seq<char>| #[trigger] c.cleared().has(uuid) implies current(
        s,
        file,
        uuid,
        c.cleared().at(uuid)->0,
    ) by {
        lemma_slot(c.cleared().items, uuid, 0);
    }
}

/// Caching what the store holds keeps the cache true to the store.
pub proof fn law_coherent_inserted(
    c: Contents,
    s: StoreView,
    file: Seq<u8>,
    uuid: Seq<char>,
    obj: CachedView,
)
    requires
        c.valid(),
        coherent(c, s, file),
        current(s, file, uuid, obj),
    ensures
        c.inserted(uuid, obj).valid(),
        coherent(c.inserted(uuid, obj), s, file),
{
    let t = c.inserted(uuid, obj);
    law_cache_valid(c, uuid, obj, 1);
    assert forall|u: Seq<char>| #[trigger] t.has(u) implies current(s, file, u, t.at(u)->0) by {
        law_insert(c, uuid, obj, u);
        if u != uuid {
            assert(t.at(u) is Some);
            assert(t.at(u) == c.at(u));
            assert(c.has(u));
        }
    }
}

/// Reading an object through the cache gives what the store holds under the key,
/// and keeps the cache true to the store. The object's identifier must be that of
/// no other object.
pub proof fn law_coherent_read(c: CacheView, s: StoreView, file: Seq<u8>, key: Seq<char>)
    requires
        c.contents.valid(),
        coherent(c.contents, s, file),
        s.info_result(file, key) is Ok,
        s.lookup(file, s.info_result(file, key)->Ok_0.uuid) == s.lookup(file, key),
    ensures
        ({
            let info = s.info_result(file, key)->Ok_0;
            let after = cache_read(c, s, file, key, info);
            &&& data_read(c, s, file, key, info) == (match s.get_result(file, key) {
                Ok((_, data)) => Ok::<_, ErrorView>(data),
                Err(e) => Err::<Seq<u8>, _>(e),
            })
            &&& after.contents.valid()
            &&& coherent(after.contents, s, file)
        }),
{
    let info = s.info_result(file, key)->Ok_0;
    let t = c.contents.touched(info.uuid);
    assert(coherent(t, s, file) && t.valid()) by {
        law_cache_valid(c.contents, info.uuid, cached_view(info, Seq::empty()), 1);
        assert forall|u: Seq<char>| #[trigger] t.has(u) implies current(s, file, u, t.at(u)->0) by {
            law_access_keeps_objects(c.contents, info.uuid, u);
            assert(t.at(u) is Some);
            assert(c.contents.has(u));
        }
    }
    assert(s.get_result(file, info.uuid) == s.get_result(file, key) || s.get_result(file, key) is Err);
    if !c.contents.has(info.uuid) {
        if let Ok((_, data)) = s.get_result(file, key) {
            law_coherent_inserted(t, s, file, info.uuid, cached_view(info, data));
        }
    }
}

/// Storing an object and caching it keeps the cache true to the store. The new
/// identifier must be that of no other object, stored or cached.
pub proof fn law_coherent_put(
    c: Contents,
    s: StoreView,
    file: Seq<u8>,
    name: Seq<char>,
    data: Seq<u8>,
    content_type: Seq<char>,
    tags: Seq<char>,
    uuid: Seq<u8>,
    now: i64,
)
    requires
        c.valid(),
        coherent(c, s, file),
        consistent(s, file),
        uuid.len() == 16,
        data.len() <= u64::MAX,
        short_texts(name, content_type, tags),
        s.can_record(name, data.len(), content_type, tags),
        parsed_uuid(hyphenated(uuid)) == Some(uuid),
        forall|i: int|
            0 <= i < stored(s, file).len() ==> !identified_by(
                #[trigger] stored(s, file)[i],
                hyphenated(uuid),
            ),
        forall|u: Seq<char>| #[trigger] c.has(u) ==> parsed_uuid(u) != Some(uuid),
    ensures
        ({
            let step = s.put_step(file, name, data, content_type, tags, uuid, now);
            let after = apply(file, step.writes);
            match step.result {
                Ok(info) => {
                    let t = c.inserted(info.uuid, cached_view(info, data));
                    t.valid() && coherent(t, step.store, after)
                },
                Err(_) => coherent(c, step.store, after),
            }
        }),
{
    let step = s.put_step(file, name, data, content_type, tags, uuid, now);
    let after = apply(file, step.writes);
    assert forall|u: Seq<char>| #[trigger] c.has(u) implies current(
        step.store,
        after,
        u,
        c.at(u)->0,
    ) by {
        law_put_keeps_others(s, file, name, data, content_type, tags, uuid, now, u);
    }
    if let Ok(info) = step.result {
        law_put_get(s, file, name, data, content_type, tags, uuid, now, hyphenated(uuid));
        assert(info.uuid == hyphenated(uuid));
        law_coherent_inserted(c, step.store, after, info.uuid, cached_view(info, data));
    }
}

/// Deleting an object, also from the cache, keeps the cache true to the store.
pub proof fn law_coherent_delete(c: Contents, s: StoreView, file: Seq<u8>, key: Seq<char>)
    requires
        c.valid(),
        coherent(c, s, file),
        consistent(s, file),
        s.delete_step(file, key).result is Ok,
    ensures
        ({
            let step = s.delete_step(file, key);
            let t = c.without(s.info_result(file, key)->Ok_0.uuid);
            t.valid() && coherent(t, step.store, apply(file, step.writes))
        }),
{
    let step = s.delete_step(file, key);
    let uuid = s.info_result(file, key)->Ok_0.uuid;
    let t = c.without(uuid);
    law_cache_valid(c, uuid, CachedView {
        uuid: Seq::empty(),
        data: Seq::empty(),
        name: Seq::empty(),
        content_type: Seq::empty(),
        size: 0,
        tags: Seq::empty(),
    }, 1);
    assert forall|u: Seq<char>| #[trigger] t.has(u) implies current(
        step.store,
        apply(file, step.writes),
        u,
        t.at(u)->0,
    ) by {
        law_remove(c, uuid, u);
        assert(t.at(u) is Some);
        assert(u != uuid);
        assert(c.has(u));
        law_delete_keeps_others(s, file, key, u);
    }
}

/// Another capacity keeps the cache true to the store.
pub proof fn law_coherent_resize(c: Contents, s: StoreView, file: Seq<u8>, capacity: nat)
    requires
        c.valid(),
        coherent(c, s, file),
    ensures
        coherent(c.resized(capacity), s, file),
{
    let t = c.resized(capacity);
    law_resize(c, capacity);
    assert forall|u: Seq<char>| #[trigger] t.has(u) implies current(s, file, u, t.at(u)->0) by {
        lemma_slot(t.items, u, 0);
        let x = t.items[t.slot(u)];
        assert(c.items.contains(x));
        let k = choose|k: int| 0 <= k < c.items.len() && c.items[k] == x;
        assert forall|j: int| 0 <= j < k implies (#[trigger] c.items[j]).key != u by {
        }
        lemma_slot_is(c.items, u, k);
        assert(c.has(u));
    }
}

/// An object that was stored and cached is read back through the cache as it was
/// stored, under its name as well as under its identifier, unless the key is the
/// identifier of an older object.
pub proof fn law_put_read(
    c: CacheView,
    s: StoreView,
    file: Seq<u8>,
    name: Seq<char>,
    data: Seq<u8>,
    content_type: Seq<char>,
    tags: Seq<char>,
    uuid: Seq<u8>,
    now: i64,
    key: Seq<char>,
)
    requires
        c.contents.valid(),
        consistent(s, file),
        uuid.len() == 16,
        data.len() <= u64::MAX,
        short_texts(name, content_type, tags),
        s.can_record(name, data.len(), content_type, tags),
        s.put_step(file, name, data, content_type, tags, uuid, now).result is Ok,
        key == name || parsed_uuid(key) == Some(uuid),
        forall|i: int|
            0 <= i < stored(s, file).len() ==> !identified_by(#[trigger] stored(s, file)[i], key),
    ensures
        ({
            let step = s.put_step(file, name, data, content_type, tags, uuid, now);
            let after = apply(file, step.writes);
            let info = step.result->Ok_0;
            let t = c.put(info.uuid, cached_view(info, data));
            &&& step.store.info_result(after, key) == Ok::<_, ErrorView>(info)
            &&& info.name == name
            &&& info.size == data.len()
            &&& info.content_type == content_type
            &&& info.tags == tags
            &&& data_read(t, step.store, after, key, info) == Ok::<_, ErrorView>(data)
        }),
{
    law_put_get(s, file, name, data, content_type, tags, uuid, now, key);
    let info = s.put_step(file, name, data, content_type, tags, uuid, now).result->Ok_0;
    law_insert(c.contents, info.uuid, cached_view(info, data), info.uuid);
}

/// Nothing is known any more under a key whose only object was deleted.
pub proof fn law_deleted_unknown(s: StoreView, file: Seq<u8>, key: Seq<char>)
    requires
        consistent(s, file),
        s.delete_step(file, key).result is Ok,
        forall|i: int, j: int|
            0 <= i < j < stored(s, file).len() ==> !(answers(#[trigger] stored(s, file)[i], key)
                && answers(#[trigger] stored(s, file)[j], key)),
    ensures
        ({
            let step = s.delete_step(file, key);
            step.store.info_result(apply(file, step.writes), key) == Err::<ObjectInfoView, _>(
                ErrorView::NotFound(key),
            )
        }),
{
    let step = s.delete_step(file, key);
    let after = apply(file, step.writes);
    law_delete_gone(s, file, key);
    law_delete_consistent(s, file, key);
    law_consistent_sound(step.store, after);
    law_consistent_readable(step.store, after);
}

} // verus!
