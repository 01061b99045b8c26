//! What holds of a server: what its cache is filled with, and what a read counts.
use crate::cache::{accesses_of, CacheView};
use crate::config::CliArgs;
use crate::shown_laws::law_algorithm_named;
use crate::text::lowercase;
use crate::cache_model::{law_cache_valid, law_insert, CachedView};
use crate::error::ErrorView;
use crate::metadata::ObjectInfoView;
use crate::server::{cache_read, cached_view, data_read, smaller};
use crate::service::{law_newest_first, loaded, newest_first, warm_objects, Server};
use crate::storage::{ObjectStorage, StoreView};
use crate::words::text_less;
use vstd::prelude::*;
use vstd::string::*;

verus! {

/// Whether every object on the list can be read by its identifier.
pub open spec fn all_readable(s: StoreView, file: Seq<u8>, infos: Seq<ObjectInfoView>) -> bool {
    forall|i: int|
        0 <= i < infos.len() ==> s.get_result(file, (#[trigger] infos[i]).uuid) is Ok
}

proof fn lemma_loaded(s: StoreView, file: Seq<u8>, infos: Seq<ObjectInfoView>, n: int)
    requires
        0 <= n <= infos.len(),
        all_readable(s, file, infos),
    ensures
        loaded(s, file, infos, n).len() == n,
        forall|i: int|
            0 <= i < n ==> {
                let (key, obj) = #[trigger] loaded(s, file, infos, n)[i];
                &&& key == infos[i].uuid
                &&& s.get_result(file, key) matches Ok((_, data)) && obj == cached_view(
                    infos[i],
                    data,
                )
            },
    decreases n,
{
    if n > 0 {
        lemma_loaded(s, file, infos, n - 1);
    }
}

/// Whether an object is among those that a cache is filled with.
pub open spec fn among(objects: Seq<(Seq<char>, CachedView)>, key: Seq<char>) -> bool {
    exists|k: int| 0 <= k < objects.len() && (#[trigger] objects[k]).0 == key
}

/// Whether no two objects on the list have the same identifier.
pub open spec fn all_apart(infos: Seq<ObjectInfoView>) -> bool {
    forall|i: int, j: int|
        0 <= i < j < infos.len() ==> (#[trigger] infos[i]).uuid != (#[trigger] infos[j]).uuid
}

/// Whether an object that a cache is filled with is one on the list, with the data that
/// the store reads for it.
pub open spec fn well_read(
    s: StoreView,
    file: Seq<u8>,
    infos: Seq<ObjectInfoView>,
    key: Seq<char>,
    obj: CachedView,
) -> bool {
    &&& s.get_result(file, key) matches Ok((_, data)) && obj.data == data
    &&& exists|i: int|
        0 <= i < infos.len() && (#[trigger] infos[i]).uuid == key && obj == cached_view(
            infos[i],
            obj.data,
        )
}

/// What a cache is filled with at the start: as many objects as are wanted, or all where
/// there are fewer. Each is on the list and comes with the data that the store reads for
/// it. None on the list that stays out is newer than one that goes in, and the newest
/// comes first.
pub proof fn law_warm(s: StoreView, file: Seq<u8>, wanted: int, i: int, j: int, k: int, l: int)
    requires
        wanted >= 0,
        s.list_result(file) is Ok,
        all_readable(s, file, s.list_result(file)->Ok_0),
        all_apart(s.list_result(file)->Ok_0),
        0 <= i < s.list_result(file)->Ok_0.len(),
        0 <= j < s.list_result(file)->Ok_0.len(),
    ensures
        ({
            let infos = s.list_result(file)->Ok_0;
            let objects = warm_objects(s, file, wanted);
            &&& wanted <= infos.len() ==> objects.len() == wanted
            &&& wanted > infos.len() ==> objects.len() == infos.len()
            &&& 0 <= k < objects.len() ==> well_read(
                s,
                file,
                infos,
                objects[k].0,
                objects[k].1,
            )
            &&& among(objects, infos[j].uuid) && !among(objects, infos[i].uuid) ==> !text_less(
                infos[j].created_at,
                infos[i].created_at,
            )
            &&& 0 <= k < l < objects.len() ==> objects[k].0 != objects[l].0
            &&& 0 <= k < l < objects.len() && objects[k].0 == infos[j].uuid && objects[l].0
                == infos[i].uuid ==> !text_less(infos[j].created_at, infos[i].created_at)
        }),
{
    let infos = s.list_result(file)->Ok_0;
    let sorted = newest_first(infos);
    law_newest_first(infos);
    let n = smaller(wanted, infos.len() as int);
    assert forall|p: int| 0 <= p < sorted.len() implies infos.contains(#[trigger] sorted[p]) by {
        lemma_kept(sorted, infos, p);
    }
    assert(all_readable(s, file, sorted));
    lemma_loaded(s, file, sorted, n);
    let objects = warm_objects(s, file, wanted);
    assert(objects == loaded(s, file, sorted, n));
    lemma_kept(infos, sorted, i);
    lemma_kept(infos, sorted, j);
    let p = choose|p: int| 0 <= p < sorted.len() && sorted[p] == infos[i];
    let q = choose|q: int| 0 <= q < sorted.len() && sorted[q] == infos[j];
    if 0 <= k < objects.len() {
        assert(infos.contains(sorted[k]));
    }
    if 0 <= l < objects.len() {
        assert(infos.contains(sorted[l]));
    }
    if among(objects, infos[j].uuid) && !among(objects, infos[i].uuid) {
        let m = choose|m: int| 0 <= m < objects.len() && (#[trigger] objects[m]).0 == infos[j].uuid;
        assert(infos.contains(sorted[m]));
        assert(sorted[m] == infos[j]);
        if p < objects.len() {
            assert(objects[p].0 == infos[i].uuid);
        }
        assert(!text_less(sorted[m].created_at, sorted[p].created_at));
    }
    if 0 <= k < l < objects.len() {
        lemma_still_apart(infos, sorted, k, l);
        if objects[k].0 == infos[j].uuid && objects[l].0 == infos[i].uuid {
            assert(sorted[k] == infos[j] && sorted[l] == infos[i]);
        }
    }
}

proof fn lemma_kept(a: Seq<ObjectInfoView>, b: Seq<ObjectInfoView>, p: int)
    requires
        a.to_multiset() == b.to_multiset(),
        0 <= p < a.len(),
    ensures
        b.contains(a[p]),
{
    broadcast use vstd::seq_lib::group_to_multiset_ensures;

    assert(a.contains(a[p]));
    assert(b.to_multiset().count(a[p]) > 0);
}

/// What is apart stays so in another order.
proof fn lemma_still_apart(infos: Seq<ObjectInfoView>, sorted: Seq<ObjectInfoView>, k: int, l: int)
    requires
        infos.to_multiset() == sorted.to_multiset(),
        all_apart(infos),
        0 <= k < l < sorted.len(),
    ensures
        sorted[k].uuid != sorted[l].uuid,
{
    broadcast use vstd::seq_lib::group_to_multiset_ensures;

    lemma_kept(sorted, infos, k);
    lemma_kept(sorted, infos, l);
    if sorted[k].uuid == sorted[l].uuid {
        let x = sorted[k];
        let p = choose|p: int| 0 <= p < infos.len() && infos[p] == sorted[k];
        let q = choose|q: int| 0 <= q < infos.len() && infos[q] == sorted[l];
        assert(p == q);
        assert(infos.no_duplicates());
        infos.lemma_multiset_has_no_duplicates();
        assert(sorted.to_multiset().count(x) <= 1);
        let rest = sorted.remove(l);
        assert(rest[k] == x);
        assert(rest.contains(x));
        assert(rest.to_multiset().count(x) > 0);
        assert(sorted =~= rest.insert(l, x));
        assert(sorted.to_multiset() =~= rest.to_multiset().insert(x));
    }
}

proof fn lemma_put_all(c: CacheView, objects: Seq<(Seq<char>, CachedView)>, n: int)
    requires
        c.contents.valid(),
        c.contents.items.len() == 0,
        0 <= n <= objects.len(),
        objects.len() <= c.contents.capacity,
        forall|i: int, j: int|
            0 <= i < j < objects.len() ==> (#[trigger] objects[i]).0 != (#[trigger] objects[j]).0,
    ensures
        ({
            let after = c.put_all(objects, n);
            &&& after.contents.valid()
            &&& after.contents.algorithm == c.contents.algorithm
            &&& after.contents.capacity == c.contents.capacity
            &&& after.contents.items.len() == n
            &&& after.hits == c.hits && after.misses == c.misses && after.evictions == c.evictions
            &&& forall|i: int|
                0 <= i < n ==> after.contents.at((#[trigger] objects[i]).0) == Some(objects[i].1)
            &&& forall|key: Seq<char>| #[trigger]
                after.contents.has(key) ==> exists|i: int|
                    0 <= i < n && (#[trigger] objects[i]).0 == key
        }),
    decreases n,
{
    if n > 0 {
        lemma_put_all(c, objects, n - 1);
        let before = c.put_all(objects, n - 1);
        let (key, obj) = objects[n - 1];
        let b = before.contents;
        assert(!b.has(key));
        law_cache_valid(b, key, obj, 1);
        law_insert(b, key, obj, key);
        assert(b.evicted_by(key) is None);
        assert forall|i: int| 0 <= i < n implies c.put_all(objects, n).contents.at(
            (#[trigger] objects[i]).0,
        ) == Some(objects[i].1) by {
            law_insert(b, key, obj, objects[i].0);
        }
        assert forall|k: Seq<char>| #[trigger] c.put_all(objects, n).contents.has(k) implies exists|
            i: int,
        | 0 <= i < n && (#[trigger] objects[i]).0 == k by {
            law_insert(b, key, obj, k);
            if k == key {
                assert(objects[n - 1].0 == k);
            } else {
                assert(b.has(k));
            }
        }
    }
}

/// A new cache with room for all that it is filled with holds exactly that afterwards,
/// and nothing is counted for it.
pub proof fn law_filled(c: CacheView, objects: Seq<(Seq<char>, CachedView)>, key: Seq<char>)
    requires
        c.contents.valid(),
        c.contents.items.len() == 0,
        objects.len() <= c.contents.capacity,
        forall|i: int, j: int|
            0 <= i < j < objects.len() ==> (#[trigger] objects[i]).0 != (#[trigger] objects[j]).0,
    ensures
        ({
            let after = c.put_all(objects, objects.len() as int);
            &&& after.contents.items.len() == objects.len()
            &&& after.contents.has(key) <==> among(objects, key)
            &&& forall|i: int|
                0 <= i < objects.len() ==> after.contents.at((#[trigger] objects[i]).0) == Some(
                    objects[i].1,
                )
            &&& after.hits == c.hits && after.misses == c.misses && after.evictions == c.evictions
        }),
{
    lemma_put_all(c, objects, objects.len() as int);
    if among(objects, key) {
        let k = choose|k: int| 0 <= k < objects.len() && (#[trigger] objects[k]).0 == key;
        assert(c.put_all(objects, objects.len() as int).contents.at(objects[k].0) is Some);
    }
}

/// What reading an object through the cache counts. It counts one access to that object;
/// a hit where the object is cached, and then the store is not asked; else a miss. What
/// was read is cached afterwards, so that a second read gives the same and is a hit.
pub proof fn law_read_counts(
    c: CacheView,
    s: StoreView,
    file: Seq<u8>,
    t: StoreView,
    g: Seq<u8>,
    key: Seq<char>,
    info: ObjectInfoView,
)
    requires
        c.contents.valid(),
        c.contents.capacity > 0,
        c.hits < u64::MAX - 1,
        c.misses < u64::MAX,
        accesses_of(c.accesses, info.uuid) < u64::MAX - 1,
    ensures
        ({
            let after = cache_read(c, s, file, key, info);
            let data = data_read(c, s, file, key, info);
            let again = cache_read(after, t, g, key, info);
            &&& after.hits + after.misses == c.hits + c.misses + 1
            &&& after.hits == c.hits + 1 <==> c.contents.at(info.uuid) is Some
            &&& accesses_of(after.accesses, info.uuid) == accesses_of(c.accesses, info.uuid) + 1
            &&& c.contents.at(info.uuid) matches Some(o) ==> data == Ok::<_, ErrorView>(o.data)
            &&& c.contents.at(info.uuid) is None ==> (data is Ok <==> s.get_result(file, key) is Ok)
            &&& data is Ok ==> {
                &&& after.contents.at(info.uuid) matches Some(o) && o.data == data->Ok_0
                &&& data_read(after, t, g, key, info) == data
                &&& again.hits == after.hits + 1
                &&& again.misses == after.misses
            }
        }),
{
    let obj = match s.get_result(file, key) {
        Ok((_, data)) => cached_view(info, data),
        Err(_) => cached_view(info, Seq::empty()),
    };
    let b = c.contents.touched(info.uuid);
    law_cache_valid(c.contents, info.uuid, obj, 1);
    crate::cache_model::law_access_keeps_objects(c.contents, info.uuid, info.uuid);
    law_insert(b, info.uuid, obj, info.uuid);
}

/// A new server has an empty cache of the policy and the capacity that it was told, with
/// room for one object at least, nothing counted, and does not run.
pub proof fn law_new_server(server: Server, config: CliArgs, storage: ObjectStorage, opened: bool)
    requires
        server.is_new(config, storage, opened),
    ensures
        server.storage == storage,
        server.config == config,
        server.cache@.contents.items.len() == 0,
        config.cache_capacity >= 1 ==> server.cache@.contents.capacity == config.cache_capacity,
        config.cache_capacity == 0 ==> server.cache@.contents.capacity == 1,
        server.cache.algorithm is Fifo <==> lowercase(config.cache_algorithm@) == "fifo"@,
        server.cache.algorithm is Lfu <==> lowercase(config.cache_algorithm@) == "lfu"@,
        server.cache@.contents.algorithm == server.cache.algorithm,
        server.cache@.hits == 0,
        server.cache@.misses == 0,
        server.cache@.evictions == 0,
        forall|key: Seq<char>| accesses_of(server.cache@.accesses, key) == 0,
        server.access_log.enabled <==> config.access_log@.len() > 0 && opened,
        server.ipc.socket_path@ == config.socket_path@,
        !server.running,
{
    law_algorithm_named(lowercase(config.cache_algorithm@));
}

/// To clear a cache takes out all entries and nothing else; to reset its statistics takes
/// out those and nothing else.
pub proof fn law_cleared(c: CacheView, key: Seq<char>)
    ensures
        c.emptied().contents.items.len() == 0,
        !c.emptied().contents.has(key),
        c.emptied().contents.capacity == c.contents.capacity,
        c.emptied().contents.algorithm == c.contents.algorithm,
        c.emptied().hits == c.hits,
        c.emptied().misses == c.misses,
        c.emptied().evictions == c.evictions,
        c.emptied().accesses == c.accesses,
        c.without_stats().contents == c.contents,
        c.without_stats().hits == 0,
        c.without_stats().misses == 0,
        c.without_stats().evictions == 0,
        c.without_stats().accesses == c.accesses,
{
    crate::cache_model::lemma_slot(c.emptied().contents.items, key, 0);
}

} // verus!
