//! What holds of a store after any series of calls, the failing ones among them.
use crate::error::ErrorView;
use crate::ids::{hyphenated, parsed_uuid};
use crate::metadata::ObjectInfoView;
use crate::storage::{apply, can_create, identified_by, FileOpView, StoreView};
use crate::storage_laws::{
    consistent, denoted, law_consistent_readable, law_create_consistent, law_delete_consistent,
    law_delete_keeps_others, law_delete_list, law_delete_refused, law_list_apart,
    law_put_consistent, law_put_get, law_put_keeps_others, law_put_list, short_texts, stored,
};
use crate::storage_layout::{
    law_flush_keeps, law_placed_delete, law_placed_flush, law_placed_put, law_reopen, placed,
};
use vstd::prelude::*;

verus! {

/// A call that can change the store.
pub enum StoreCall {
    /// [`crate::storage::ObjectStorage::put`], under the identifier that it
    /// draws, at the time that it reads.
    Put {
        name: Seq<char>,
        data: Seq<u8>,
        content_type: Seq<char>,
        tags: Seq<char>,
        uuid: Seq<u8>,
        now: i64,
    },
    /// [`crate::storage::ObjectStorage::delete`]
    Delete { key: Seq<char> },
}

/// The store and its file after the call.
pub open spec fn called(s: StoreView, file: Seq<u8>, c: StoreCall) -> (StoreView, Seq<u8>) {
    match c {
        StoreCall::Put { name, data, content_type, tags, uuid, now } => {
            let step = s.put_step(file, name, data, content_type, tags, uuid, now);
            (step.store, apply(file, step.writes))
        },
        StoreCall::Delete { key } => {
            let step = s.delete_step(file, key);
            (step.store, apply(file, step.writes))
        },
    }
}

/// The store and its file after the calls, one after the other.
pub open spec fn called_all(s: StoreView, file: Seq<u8>, calls: Seq<StoreCall>) -> (
    StoreView,
    Seq<u8>,
)
    decreases calls.len(),
{
    if calls.len() == 0 {
        (s, file)
    } else {
        let (t, f) = called_all(s, file, calls.drop_last());
        called(t, f, calls.last())
    }
}

/// Whether the call stays within the limits of the machine's numbers.
pub open spec fn callable(s: StoreView, c: StoreCall) -> bool {
    c matches StoreCall::Put { name, data, content_type, tags, uuid, .. } ==> {
        &&& uuid.len() == 16
        &&& data.len() <= u64::MAX
        &&& s.can_record(name, data.len(), content_type, tags)
    }
}

/// Whether the texts of the call are short enough for an entry to hold their
/// lengths.
pub open spec fn short(c: StoreCall) -> bool {
    c matches StoreCall::Put { name, content_type, tags, .. } ==> short_texts(
        name,
        content_type,
        tags,
    )
}

/// Whether the texts of all calls are [`short`].
pub open spec fn short_all(calls: Seq<StoreCall>) -> bool {
    forall|i: int| 0 <= i < calls.len() ==> short(#[trigger] calls[i])
}

/// Whether each of the calls, when it comes, is [`callable`].
pub open spec fn callable_all(s: StoreView, file: Seq<u8>, calls: Seq<StoreCall>) -> bool
    decreases calls.len(),
{
    calls.len() > 0 ==> {
        &&& callable_all(s, file, calls.drop_last())
        &&& callable(called_all(s, file, calls.drop_last()).0, calls.last())
    }
}

/// Whether the metadata area can be read through whenever one of the calls comes.
pub open spec fn scannable_all(s: StoreView, file: Seq<u8>, calls: Seq<StoreCall>) -> bool
    decreases calls.len(),
{
    calls.len() > 0 ==> {
        let (t, f) = called_all(s, file, calls.drop_last());
        &&& scannable_all(s, file, calls.drop_last())
        &&& t.scannable(f)
    }
}

/// Whether the call draws no identifier that an object on the list has.
pub open spec fn new_id(s: StoreView, file: Seq<u8>, c: StoreCall) -> bool {
    c matches StoreCall::Put { uuid, .. } ==> forall|p: int|
        0 <= p < s.list_result(file)->Ok_0.len() ==> (#[trigger] s.list_result(file)->Ok_0[p]).uuid
            != hyphenated(uuid)
}

/// Whether each of the calls, when it comes, draws a [`new_id`].
pub open spec fn new_ids(s: StoreView, file: Seq<u8>, calls: Seq<StoreCall>) -> bool
    decreases calls.len(),
{
    calls.len() > 0 ==> {
        let (t, f) = called_all(s, file, calls.drop_last());
        &&& new_ids(s, file, calls.drop_last())
        &&& new_id(t, f, calls.last())
    }
}

/// Whether the call leaves alone what `key` denotes: it does not delete it, and
/// `key` is not the identifier that it draws.
pub open spec fn spares(s: StoreView, file: Seq<u8>, c: StoreCall, key: Seq<char>) -> bool {
    match c {
        StoreCall::Put { uuid, .. } => parsed_uuid(key) != Some(uuid),
        StoreCall::Delete { key: other } => s.lookup(file, other) != s.lookup(file, key),
    }
}

/// Whether each of the calls, when it comes, [`spares`] what `key` denotes.
pub open spec fn spares_all(
    s: StoreView,
    file: Seq<u8>,
    calls: Seq<StoreCall>,
    key: Seq<char>,
) -> bool
    decreases calls.len(),
{
    calls.len() > 0 ==> {
        let (t, f) = called_all(s, file, calls.drop_last());
        &&& spares_all(s, file, calls.drop_last(), key)
        &&& spares(t, f, calls.last(), key)
    }
}

/// The list after the call: a new object comes last, a deleted one is taken out.
pub open spec fn relisted(
    list: Seq<ObjectInfoView>,
    s: StoreView,
    file: Seq<u8>,
    c: StoreCall,
) -> Seq<ObjectInfoView> {
    match c {
        StoreCall::Put { name, data, content_type, tags, uuid, now } => match s.put_step(
            file,
            name,
            data,
            content_type,
            tags,
            uuid,
            now,
        ).result {
            Ok(info) => list.push(info),
            Err(_) => list,
        },
        StoreCall::Delete { key } => if s.delete_step(file, key).result is Ok {
            list.remove_value(s.info_result(file, key)->Ok_0)
        } else {
            list
        },
    }
}

/// The objects that were put by the calls and not deleted since, in the order of
/// the puts, behind those of `list` that were not deleted.
pub open spec fn relisted_all(
    list: Seq<ObjectInfoView>,
    s: StoreView,
    file: Seq<u8>,
    calls: Seq<StoreCall>,
) -> Seq<ObjectInfoView>
    decreases calls.len(),
{
    if calls.len() == 0 {
        list
    } else {
        let (t, f) = called_all(s, file, calls.drop_last());
        relisted(relisted_all(list, s, file, calls.drop_last()), t, f, calls.last())
    }
}

/// Whether no two objects of the list have the same identifier.
pub open spec fn ids_apart(list: Seq<ObjectInfoView>) -> bool {
    forall|p: int, q: int|
        0 <= p < q < list.len() ==> (#[trigger] list[p]).uuid != (#[trigger] list[q]).uuid
}

/// Whether no two objects of the list have the same name.
pub open spec fn names_apart(list: Seq<ObjectInfoView>) -> bool {
    forall|p: int, q: int|
        0 <= p < q < list.len() ==> (#[trigger] list[p]).name != (#[trigger] list[q]).name
}

proof fn lemma_short_front(calls: Seq<StoreCall>)
    requires
        calls.len() > 0,
        short_all(calls),
    ensures
        short_all(calls.drop_last()),
        short(calls.last()),
{
    let front = calls.drop_last();
    assert forall|i: int| 0 <= i < front.len() implies short(#[trigger] front[i]) by {
        assert(front[i] == calls[i]);
    }
    assert(short(calls[calls.len() - 1]));
}

/// Any series of calls keeps the invariant.
pub proof fn law_calls_consistent(s: StoreView, file: Seq<u8>, calls: Seq<StoreCall>)
    requires
        consistent(s, file),
        callable_all(s, file, calls),
        short_all(calls),
    ensures
        consistent(called_all(s, file, calls).0, called_all(s, file, calls).1),
    decreases calls.len(),
{
    if calls.len() > 0 {
        lemma_short_front(calls);
        law_calls_consistent(s, file, calls.drop_last());
        let (t, f) = called_all(s, file, calls.drop_last());
        match calls.last() {
            StoreCall::Put { name, data, content_type, tags, uuid, now } => {
                law_put_consistent(t, f, name, data, content_type, tags, uuid, now);
            },
            StoreCall::Delete { key } => {
                law_delete_consistent(t, f, key);
            },
        }
    }
}

/// Taking out a value that occurs once takes out its one place.
proof fn lemma_remove_once(list: Seq<ObjectInfoView>, p: int)
    requires
        0 <= p < list.len(),
        ids_apart(list),
    ensures
        list.remove_value(list[p]) == list.remove(p),
{
    list.index_of_first_ensures(list[p]);
    assert(list.contains(list[p]));
    let i = list.index_of_first(list[p])->0;
    if i < p {
        assert(list[i].uuid != list[p].uuid);
    }
    if p < i {
        assert(list[p].uuid != list[i].uuid);
    }
}

proof fn lemma_relisted_delete(
    list: Seq<ObjectInfoView>,
    s: StoreView,
    file: Seq<u8>,
    key: Seq<char>,
)
    requires
        consistent(s, file),
        s.list_result(file) == Ok::<_, ErrorView>(list),
        ids_apart(list),
        s.delete_step(file, key).result is Ok,
    ensures
        ({
            let step = s.delete_step(file, key);
            let after = list.remove_value(s.info_result(file, key)->Ok_0);
            &&& step.store.list_result(apply(file, step.writes)) == Ok::<_, ErrorView>(after)
            &&& ids_apart(after)
        }),
{
    law_delete_list(s, file, key);
    let step = s.delete_step(file, key);
    let found = step.store.list_result(apply(file, step.writes));
    let info = s.info_result(file, key)->Ok_0;
    let p = choose|p: int|
        {
            &&& 0 <= p < list.len()
            &&& list[p] == info
            &&& found == Ok::<_, ErrorView>(#[trigger] list.remove(p))
        };
    lemma_remove_once(list, p);
    let after = list.remove(p);
    assert forall|i: int, j: int| 0 <= i < j < after.len() implies (#[trigger] after[i]).uuid != (
    #[trigger] after[j]).uuid by {
        let a = if i < p {
            i
        } else {
            i + 1
        };
        let b = if j < p {
            j
        } else {
            j + 1
        };
        assert(list[a].uuid != list[b].uuid);
    }
}

proof fn lemma_relisted(list: Seq<ObjectInfoView>, s: StoreView, file: Seq<u8>, c: StoreCall)
    requires
        consistent(s, file),
        callable(s, c),
        short(c),
        new_id(s, file, c),
        s.list_result(file) == Ok::<_, ErrorView>(list),
        ids_apart(list),
    ensures
        called(s, file, c).0.list_result(called(s, file, c).1) == Ok::<_, ErrorView>(
            relisted(list, s, file, c),
        ),
        ids_apart(relisted(list, s, file, c)),
{
    match c {
        StoreCall::Put { name, data, content_type, tags, uuid, now } => {
            law_put_list(s, file, name, data, content_type, tags, uuid, now);
        },
        StoreCall::Delete { key } => {
            if s.delete_step(file, key).result is Ok {
                lemma_relisted_delete(list, s, file, key);
            } else {
                law_delete_refused(s, file, key);
            }
        },
    }
}

/// After any series of calls the list holds every object that was put and not
/// deleted since, exactly once, in the order of the puts. The objects on it have
/// different names and different identifiers, and there are as many as the store
/// counts. The identifiers that are drawn must be new.
pub proof fn law_calls_list(s: StoreView, file: Seq<u8>, calls: Seq<StoreCall>)
    requires
        consistent(s, file),
        ids_apart(s.list_result(file)->Ok_0),
        callable_all(s, file, calls),
        short_all(calls),
        new_ids(s, file, calls),
    ensures
        ({
            let (t, f) = called_all(s, file, calls);
            let list = relisted_all(s.list_result(file)->Ok_0, s, file, calls);
            &&& t.list_result(f) == Ok::<_, ErrorView>(list)
            &&& ids_apart(list)
            &&& names_apart(list)
            &&& list.len() == t.sb.object_count
        }),
    decreases calls.len(),
{
    let (t, f) = called_all(s, file, calls);
    law_calls_consistent(s, file, calls);
    law_list_apart(s, file);
    law_list_apart(t, f);
    if calls.len() > 0 {
        let front = calls.drop_last();
        lemma_short_front(calls);
        law_calls_list(s, file, front);
        law_calls_consistent(s, file, front);
        let (u, g) = called_all(s, file, front);
        lemma_relisted(
            relisted_all(s.list_result(file)->Ok_0, s, file, front),
            u,
            g,
            calls.last(),
        );
    }
}

/// [`law_calls_list`] of a new store, whose list is empty at first.
pub proof fn law_new_calls_list(
    block_size: u32,
    total_blocks: u64,
    max_objects: u64,
    now: i64,
    calls: Seq<StoreCall>,
)
    requires
        can_create(block_size, total_blocks, max_objects),
        StoreView::create_step(block_size, total_blocks, max_objects, now).result is Ok,
        short_all(calls),
        ({
            let step = StoreView::create_step(block_size, total_blocks, max_objects, now);
            let file = apply(Seq::empty(), step.writes);
            callable_all(step.store, file, calls) && new_ids(step.store, file, calls)
        }),
    ensures
        ({
            let step = StoreView::create_step(block_size, total_blocks, max_objects, now);
            let file = apply(Seq::empty(), step.writes);
            let (t, f) = called_all(step.store, file, calls);
            let list = relisted_all(Seq::empty(), step.store, file, calls);
            &&& t.list_result(f) == Ok::<_, ErrorView>(list)
            &&& ids_apart(list)
            &&& names_apart(list)
            &&& list.len() == t.sb.object_count
        }),
{
    law_create_consistent(block_size, total_blocks, max_objects, now);
    let step = StoreView::create_step(block_size, total_blocks, max_objects, now);
    law_calls_list(step.store, apply(Seq::empty(), step.writes), calls);
}

/// What a key denotes stays as it is under any series of calls that spare it.
pub proof fn law_calls_keep(s: StoreView, file: Seq<u8>, calls: Seq<StoreCall>, key: Seq<char>)
    requires
        consistent(s, file),
        callable_all(s, file, calls),
        short_all(calls),
        denoted(s, file, key) is Some,
        spares_all(s, file, calls, key),
    ensures
        ({
            let (t, f) = called_all(s, file, calls);
            &&& t.get_result(f, key) == s.get_result(file, key)
            &&& t.info_result(f, key) == s.info_result(file, key)
            &&& denoted(t, f, key) == denoted(s, file, key)
        }),
    decreases calls.len(),
{
    if calls.len() > 0 {
        let front = calls.drop_last();
        lemma_short_front(calls);
        law_calls_keep(s, file, front, key);
        law_calls_consistent(s, file, front);
        let (u, g) = called_all(s, file, front);
        match calls.last() {
            StoreCall::Put { name, data, content_type, tags, uuid, now } => {
                law_put_keeps_others(u, g, name, data, content_type, tags, uuid, now, key);
            },
            StoreCall::Delete { key: other } => {
                if u.delete_step(g, other).result is Ok {
                    law_delete_keeps_others(u, g, other, key);
                } else {
                    law_delete_refused(u, g, other);
                }
            },
        }
    }
}

/// What was stored is read back, whatever is called in between: an object that
/// was put is found under its name and under its identifier, with the data that
/// was put, after any series of calls that spare it. The key must not be the
/// identifier of an earlier object.
pub proof fn law_calls_get(
    s: StoreView,
    file: Seq<u8>,
    name: Seq<char>,
    data: Seq<u8>,
    content_type: Seq<char>,
    tags: Seq<char>,
    uuid: Seq<u8>,
    now: i64,
    later: Seq<StoreCall>,
    key: Seq<char>,
)
    requires
        consistent(s, file),
        callable(s, StoreCall::Put { name, data, content_type, tags, uuid, now }),
        short_texts(name, content_type, tags),
        short_all(later),
        s.put_step(file, name, data, content_type, tags, uuid, now).result is Ok,
        key == name || parsed_uuid(key) == Some(uuid),
        forall|i: int|
            0 <= i < stored(s, file).len() ==> !identified_by(#[trigger] stored(s, file)[i], key),
        ({
            let step = s.put_step(file, name, data, content_type, tags, uuid, now);
            let f = apply(file, step.writes);
            callable_all(step.store, f, later) && spares_all(step.store, f, later, key)
        }),
    ensures
        ({
            let step = s.put_step(file, name, data, content_type, tags, uuid, now);
            let info = step.result->Ok_0;
            let (t, f) = called_all(step.store, apply(file, step.writes), later);
            &&& t.get_result(f, key) == Ok::<_, ErrorView>((info, data))
            &&& t.info_result(f, key) == Ok::<_, ErrorView>(info)
        }),
{
    law_put_get(s, file, name, data, content_type, tags, uuid, now, key);
    law_put_consistent(s, file, name, data, content_type, tags, uuid, now);
    let step = s.put_step(file, name, data, content_type, tags, uuid, now);
    law_calls_keep(step.store, apply(file, step.writes), later, key);
}

/// Any series of calls leaves everything in its place in the file, however long the
/// texts are.
pub proof fn law_calls_placed(s: StoreView, file: Seq<u8>, calls: Seq<StoreCall>)
    requires
        placed(s, file),
        callable_all(s, file, calls),
        scannable_all(s, file, calls),
    ensures
        placed(called_all(s, file, calls).0, called_all(s, file, calls).1),
        called_all(s, file, calls).0.sb.block_size == s.sb.block_size,
    decreases calls.len(),
{
    if calls.len() > 0 {
        law_calls_placed(s, file, calls.drop_last());
        let (t, f) = called_all(s, file, calls.drop_last());
        match calls.last() {
            StoreCall::Put { name, data, content_type, tags, uuid, now } => {
                law_placed_put(t, f, name, data, content_type, tags, uuid, now);
            },
            StoreCall::Delete { key } => {
                law_placed_delete(t, f, key);
            },
        }
    }
}

/// A store is found again after any series of calls: once it was flushed, which
/// dropping it does, opening its file yields the same figures, the same list and
/// the same objects, whatever size is asked for. Asking for another block size is
/// an error. Neither changes the file. The texts that were stored may be of any
/// length: one that is too long for its entry is read the same way before and
/// after. Only a metadata area that cannot be read through is left out.
pub proof fn law_calls_reopen(
    s: StoreView,
    file: Seq<u8>,
    calls: Seq<StoreCall>,
    key: Seq<char>,
    block_size: u32,
    total_blocks: u64,
    max_objects: u64,
    now: i64,
)
    requires
        placed(s, file),
        callable_all(s, file, calls),
        scannable_all(s, file, calls),
    ensures
        ({
            let (t, f) = called_all(s, file, calls);
            let g = apply(f, t.flush_writes());
            let opened = StoreView::open_step(g, block_size, total_blocks, max_objects, now);
            &&& opened.0 == Seq::<FileOpView>::empty()
            &&& block_size == s.sb.block_size ==> {
                &&& opened.1 == Ok::<_, ErrorView>(t.flushed())
                &&& t.flushed().sb == t.sb
                &&& t.flushed().list_result(g) == t.list_result(f)
                &&& t.flushed().get_result(g, key) == t.get_result(f, key)
                &&& t.flushed().info_result(g, key) == t.info_result(f, key)
            }
            &&& block_size != s.sb.block_size ==> (opened.1 matches Err(e) && e is Storage)
        }),
{
    law_calls_placed(s, file, calls);
    let (t, f) = called_all(s, file, calls);
    law_placed_flush(t, f);
    law_flush_keeps(t, f, key);
    law_reopen(t.flushed(), apply(f, t.flush_writes()));
}

/// [`law_calls_reopen`] of a new store.
pub proof fn law_new_calls_reopen(
    size: u32,
    blocks: u64,
    objects: u64,
    created: i64,
    calls: Seq<StoreCall>,
    key: Seq<char>,
    block_size: u32,
    total_blocks: u64,
    max_objects: u64,
    now: i64,
)
    requires
        can_create(size, blocks, objects),
        StoreView::create_step(size, blocks, objects, created).result is Ok,
        ({
            let step = StoreView::create_step(size, blocks, objects, created);
            let file = apply(Seq::empty(), step.writes);
            callable_all(step.store, file, calls) && scannable_all(step.store, file, calls)
        }),
    ensures
        ({
            let step = StoreView::create_step(size, blocks, objects, created);
            let (t, f) = called_all(step.store, apply(Seq::empty(), step.writes), calls);
            let g = apply(f, t.flush_writes());
            let opened = StoreView::open_step(g, block_size, total_blocks, max_objects, now);
            &&& opened.0 == Seq::<FileOpView>::empty()
            &&& block_size == size ==> {
                &&& opened.1 == Ok::<_, ErrorView>(t.flushed())
                &&& t.flushed().sb == t.sb
                &&& t.flushed().list_result(g) == t.list_result(f)
                &&& t.flushed().get_result(g, key) == t.get_result(f, key)
                &&& t.flushed().info_result(g, key) == t.info_result(f, key)
            }
            &&& block_size != size ==> (opened.1 matches Err(e) && e is Storage)
        }),
{
    law_create_consistent(size, blocks, objects, created);
    let step = StoreView::create_step(size, blocks, objects, created);
    law_calls_reopen(
        step.store,
        apply(Seq::empty(), step.writes),
        calls,
        key,
        block_size,
        total_blocks,
        max_objects,
        now,
    );
}

/// Where the texts are short, the metadata area can be read through whenever a call
/// comes.
pub proof fn law_short_scannable(s: StoreView, file: Seq<u8>, calls: Seq<StoreCall>)
    requires
        consistent(s, file),
        callable_all(s, file, calls),
        short_all(calls),
    ensures
        scannable_all(s, file, calls),
    decreases calls.len(),
{
    if calls.len() > 0 {
        lemma_short_front(calls);
        law_short_scannable(s, file, calls.drop_last());
        law_calls_consistent(s, file, calls.drop_last());
        let (t, f) = called_all(s, file, calls.drop_last());
        law_consistent_readable(t, f);
    }
}

} // verus!
