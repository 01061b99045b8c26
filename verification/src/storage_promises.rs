//! What callers of a store can count on: when each call succeeds, what it fails
//! with, and what it does to the figures.
use crate::bitmap::free_slots;
use crate::error::ErrorView;
use crate::ids::{hyphenated, parsed_uuid};
use crate::metadata::{created_text, EntryView, ObjectInfoView};
use crate::storage::{
    answers, blocks_for, can_create, identified_by, lemma_blocks_for, live_infos, StoreView,
};
use crate::storage_laws::{
    consistent, index_of, law_create_consistent, law_delete_refused, law_no_space,
    lemma_delete_effect, lemma_live_from, lemma_lookup, lemma_put_effect, lemma_stored, short_texts,
    stored, tidy_entry,
};
use crate::storage_layout::lemma_block_inside;
use vstd::prelude::*;
use vstd::utf8::*;

verus! {

/// Whether `n` is the number of blocks that `len` bytes take: as few as hold them,
/// but one at least.
pub open spec fn least_blocks(n: int, len: int, block_size: int) -> bool {
    &&& n >= 1
    &&& len <= n * block_size
    &&& n == 1 || (n - 1) * block_size < len
}

pub proof fn lemma_least_blocks(n: int, len: int, block_size: int)
    requires
        least_blocks(n, len, block_size),
        0 <= len,
        block_size > 0,
    ensures
        n == blocks_for(len, block_size),
{
    lemma_blocks_for(len, block_size);
    let m = blocks_for(len, block_size);
    if len > 0 {
        vstd::arithmetic::div_mod::lemma_fundamental_div_mod(len - 1, block_size);
        let q = (len - 1) / block_size;
        let r = (len - 1) % block_size;
        assert(q + 1 == n) by (nonlinear_arith)
            requires
                len - 1 == block_size * q + r,
                0 <= r < block_size,
                len <= n * block_size,
                n == 1 || (n - 1) * block_size < len,
                n >= 1,
                q >= 0,
                len > 0,
        ;
    } else if n > 1 {
        assert((n - 1) * block_size > 0) by (nonlinear_arith)
            requires
                n > 1,
                block_size > 0,
        ;
    }
}

/// An object that is not deleted is on the list.
proof fn lemma_live_to(a: Seq<(EntryView, int)>, i: int) -> (p: int)
    requires
        0 <= i < a.len(),
        !a[i].0.deleted(),
    ensures
        0 <= p < live_infos(a).len(),
        live_infos(a)[p] == a[i].0.info(),
    decreases a.len(),
{
    if i == a.len() - 1 {
        live_infos(a).len() - 1
    } else {
        assert(a.drop_last()[i] == a[i]);
        lemma_live_to(a.drop_last(), i)
    }
}

/// Whether an object on the list has this name.
pub open spec fn lists_name(list: Seq<ObjectInfoView>, name: Seq<char>) -> bool {
    exists|p: int| 0 <= p < list.len() && (#[trigger] list[p]).name == name
}

proof fn lemma_name_listed(s: StoreView, file: Seq<u8>, name: Seq<char>)
    requires
        consistent(s, file),
    ensures
        s.list_result(file) is Ok,
        s.name_taken(file, name) <==> lists_name(s.list_result(file)->Ok_0, name),
{
    lemma_stored(s, file, stored(s, file));
    let a = s.scanned(file)->Ok_0;
    let list = s.list_result(file)->Ok_0;
    if s.name_taken(file, name) {
        let i = choose|i: int|
            0 <= i < a.len() && !(#[trigger] a[i]).0.deleted() && a[i].0.name == name;
        let p = lemma_live_to(a, i);
        assert(list[p].name == name);
    }
    if lists_name(list, name) {
        let p = choose|p: int| 0 <= p < list.len() && (#[trigger] list[p]).name == name;
        let i = lemma_live_from(a, p);
        assert(a[i].0.name == name);
    }
}

/// Storing succeeds exactly when it should. Let the data take `n` blocks. Where an
/// object on the list has the name, that is the error; else, where fewer than `n`
/// blocks are free, there is no space; else, where the metadata area has no room for
/// an entry of 47 bytes, the three texts and eight bytes for each block, it is full;
/// else the object is stored. How many objects there are does not matter.
pub proof fn law_put_succeeds(
    s: StoreView,
    file: Seq<u8>,
    name: Seq<char>,
    data: Seq<u8>,
    content_type: Seq<char>,
    tags: Seq<char>,
    uuid: Seq<u8>,
    now: i64,
    n: int,
)
    requires
        consistent(s, file),
        least_blocks(n, data.len() as int, s.sb.block_size as int),
    ensures
        ({
            let result = s.put_step(file, name, data, content_type, tags, uuid, now).result;
            let taken = lists_name(s.list_result(file)->Ok_0, name);
            let crowded = s.sb.free_blocks < n;
            let full = s.sb.metadata_area_size + 47 + encode_utf8(name).len() + encode_utf8(
                content_type,
            ).len() + encode_utf8(tags).len() + 8 * n > s.sb.max_metadata_area_size;
            &&& result is Ok <==> !taken && !crowded && !full
            &&& taken ==> (result matches Err(e) && e is AlreadyExists)
            &&& !taken && crowded ==> result == Err::<ObjectInfoView, _>(ErrorView::NoSpace)
            &&& !taken && !crowded && full ==> (result matches Err(e) && e is Storage)
        }),
{
    lemma_name_listed(s, file, name);
    law_no_space(s, file, name, data);
    lemma_least_blocks(n, data.len() as int, s.sb.block_size as int);
    let first = s.reserve_step(file, name, data);
    if let Ok(blocks) = first.result {
        let entry = StoreView::new_entry(name, data.len(), content_type, tags, blocks, uuid, now);
        assert(blocks.len() == n) by {
            crate::storage::lemma_chosen_blocks(s.bitmap, s.sb.total_blocks as nat, n);
        }
        assert(entry.encoded_len() == 47 + encode_utf8(name).len() + encode_utf8(
            content_type,
        ).len() + encode_utf8(tags).len() + 8 * n);
    }
}

/// What storing an object returns is what was handed in: the name, the length of the
/// data, the type and the tags, with the notation of its identifier and of its
/// creation time, and the number of its blocks.
pub proof fn law_put_info(
    s: StoreView,
    file: Seq<u8>,
    name: Seq<char>,
    data: Seq<u8>,
    content_type: Seq<char>,
    tags: Seq<char>,
    uuid: Seq<u8>,
    now: i64,
    n: int,
)
    requires
        consistent(s, file),
        uuid.len() == 16,
        data.len() <= u64::MAX,
        short_texts(name, content_type, tags),
        s.can_record(name, data.len(), content_type, tags),
        least_blocks(n, data.len() as int, s.sb.block_size as int),
        s.put_step(file, name, data, content_type, tags, uuid, now).result is Ok,
    ensures
        ({
            let step = s.put_step(file, name, data, content_type, tags, uuid, now);
            let info = step.result->Ok_0;
            &&& info.name == name
            &&& info.size == data.len()
            &&& info.content_type == content_type
            &&& info.tags == tags
            &&& info.uuid == hyphenated(uuid)
            &&& info.created_at == created_text(now)
            &&& info.block_count == n
            &&& step.store.sb.object_count == s.sb.object_count + 1
            &&& step.store.sb.free_blocks == s.sb.free_blocks - n
            &&& step.store.sb.metadata_area_size == s.sb.metadata_area_size + 47 + encode_utf8(
                name,
            ).len() + encode_utf8(content_type).len() + encode_utf8(tags).len() + 8 * n
            &&& step.store.sb.total_blocks == s.sb.total_blocks
            &&& step.store.sb.block_size == s.sb.block_size
            &&& step.store.sb.max_metadata_area_size == s.sb.max_metadata_area_size
            &&& step.store.sb.bitmap_size == s.sb.bitmap_size
            &&& step.store.sb.created_at == s.sb.created_at
        }),
{
    lemma_least_blocks(n, data.len() as int, s.sb.block_size as int);
    law_put_succeeds(s, file, name, data, content_type, tags, uuid, now, n);
    lemma_put_effect(s, file, stored(s, file), name, data, content_type, tags, uuid, now);
}

/// A new store is made exactly where the superblock, the bitmap and 256 bytes for
/// each object fit into the blocks. It has the size that was asked for, no object,
/// and every block free that those do not reach into. The bitmap has a bit for every
/// block and is less than 16 bytes longer than that.
pub proof fn law_create_succeeds(
    block_size: u32,
    total_blocks: u64,
    max_objects: u64,
    now: i64,
)
    requires
        can_create(block_size, total_blocks, max_objects),
    ensures
        ({
            let step = StoreView::create_step(block_size, total_blocks, max_objects, now);
            let sb = step.store.sb;
            let used = 4096 + sb.bitmap_size + 256 * max_objects;
            &&& sb.block_size == block_size
            &&& sb.total_blocks == total_blocks
            &&& sb.max_metadata_area_size == 256 * max_objects
            &&& sb.metadata_area_size == 0
            &&& sb.object_count == 0
            &&& sb.created_at == now
            &&& sb.bitmap_size % 8 == 0
            &&& total_blocks <= 8 * sb.bitmap_size < total_blocks + 128
            &&& step.result is Ok <==> used <= total_blocks * block_size
            &&& step.result is Ok ==> {
                &&& (total_blocks - sb.free_blocks) * block_size >= used
                &&& (total_blocks - sb.free_blocks - 1) * block_size < used
            }
        }),
{
    let step = StoreView::create_step(block_size, total_blocks, max_objects, now);
    let s = StoreView::created(block_size, total_blocks, max_objects, now);
    let used = s.data_offset();
    let bs = block_size as int;
    let reserved = s.reserved_blocks();
    vstd::arithmetic::div_mod::lemma_fundamental_div_mod(used + bs - 1, bs);
    let rem = (used + bs - 1) % bs;
    assert(reserved * bs >= used && (reserved - 1) * bs < used) by (nonlinear_arith)
        requires
            used + bs - 1 == bs * reserved + rem,
            0 <= rem < bs,
    ;
    let total = total_blocks as int;
    assert(reserved <= total <==> used <= total * bs) by (nonlinear_arith)
        requires
            reserved * bs >= used,
            (reserved - 1) * bs < used,
            bs > 0,
    ;
    if step.result is Ok {
        law_create_consistent(block_size, total_blocks, max_objects, now);
    }
}

/// In a store in order a key is found exactly where it is the name or the identifier
/// of an object on the list. Where it is the name of one and the identifier of none,
/// that object is found, with as many bytes as it says.
pub proof fn law_found(s: StoreView, file: Seq<u8>, key: Seq<char>)
    requires
        consistent(s, file),
    ensures
        ({
            let list = s.list_result(file)->Ok_0;
            let no_id = forall|p: int|
                0 <= p < list.len() ==> (parsed_uuid(key) matches Some(u) ==> (
                #[trigger] list[p]).uuid != hyphenated(u));
            &&& s.list_result(file) is Ok
            &&& no_id && !lists_name(list, key) ==> {
                &&& s.get_result(file, key) == Err::<(ObjectInfoView, Seq<u8>), _>(
                    ErrorView::NotFound("未找到对象："@ + key),
                )
                &&& s.delete_step(file, key).result == Err::<(), _>(
                    ErrorView::NotFound("未找到对象："@ + key),
                )
                &&& s.info_result(file, key) is Err
            }
            &&& no_id ==> forall|p: int|
                0 <= p < list.len() && (#[trigger] list[p]).name == key ==> {
                    &&& s.info_result(file, key) == Ok::<_, ErrorView>(list[p])
                    &&& s.get_result(file, key) is Ok
                    &&& s.get_result(file, key)->Ok_0.0 == list[p]
                    &&& s.get_result(file, key)->Ok_0.1.len() == list[p].size
                    &&& s.delete_step(file, key).result is Ok
                }
            &&& s.get_result(file, key) matches Ok((info, data)) ==> {
                &&& list.contains(info)
                &&& data.len() == info.size
                &&& info.name == key || parsed_uuid(key) is Some
            }
        }),
{
    let entries = stored(s, file);
    lemma_stored(s, file, entries);
    lemma_lookup(s, file, entries, key);
    let list = s.list_result(file)->Ok_0;
    let a = s.scanned(file)->Ok_0;
    let k = index_of(entries, key);
    if s.delete_step(file, key).result is Err {
        law_delete_refused(s, file, key);
    }
    if k < entries.len() {
        let e = entries[k];
        assert(answers(e, key));
        let p = lemma_live_to(a, k);
        assert(list[p] == e.info());
        lemma_data_len(s, file, e.block_pointers);
        assert(tidy_entry(s, e));
        lemma_delete_effect(s, file, entries, key, k);
        if e.name == key {
            assert(lists_name(list, key));
        }
        assert forall|q: int|
            0 <= q < list.len() && (#[trigger] list[q]).name == key && !identified_by(
                e,
                key,
            ) implies list[q] == e.info() by {
            let i = lemma_live_from(a, q);
            assert(a[i].0 == entries[i]);
            if i < k {
                assert(crate::storage_laws::apart(entries[i], entries[k]));
            } else if k < i {
                assert(crate::storage_laws::apart(entries[k], entries[i]));
            }
        }
    } else {
        assert forall|q: int| 0 <= q < list.len() implies (#[trigger] list[q]).name != key by {
            let i = lemma_live_from(a, q);
            assert(a[i].0 == entries[i]);
            assert(!answers(entries[i], key));
        }
    }
}

/// Blocks that exist are read whole.
proof fn lemma_data_len(s: StoreView, file: Seq<u8>, blocks: Seq<u64>)
    requires
        s.operable(),
        file.len() == s.block_offset(s.sb.total_blocks as int),
    ensures
        (forall|i: int| 0 <= i < blocks.len() ==> #[trigger] blocks[i] < s.sb.total_blocks) ==> {
            &&& s.read_blocks(file, blocks) is Some
            &&& s.read_blocks(file, blocks)->0.len() == blocks.len() * s.sb.block_size
        },
    decreases blocks.len(),
{
    if blocks.len() == 0 {
        assert(blocks.len() * s.sb.block_size == 0) by (nonlinear_arith)
            requires
                blocks.len() == 0,
        ;
    } else if forall|i: int| 0 <= i < blocks.len() ==> #[trigger] blocks[i] < s.sb.total_blocks {
        let front = blocks.drop_last();
        assert forall|i: int| 0 <= i < front.len() implies #[trigger] front[i]
            < s.sb.total_blocks by {
            assert(front[i] == blocks[i]);
        }
        lemma_data_len(s, file, front);
        assert(blocks[blocks.len() - 1] < s.sb.total_blocks);
        lemma_block_inside(s, blocks.last() as int);
        let m = front.len() as int;
        let b = s.sb.block_size as int;
        assert((m + 1) * b == m * b + b) by (nonlinear_arith);
    }
}

/// Deleting an object takes it out of the figures, and gives its blocks back. The
/// metadata area does not shrink.
pub proof fn law_delete_figures(s: StoreView, file: Seq<u8>, key: Seq<char>)
    requires
        consistent(s, file),
        s.delete_step(file, key).result is Ok,
    ensures
        ({
            let t = s.delete_step(file, key).store;
            let info = s.info_result(file, key)->Ok_0;
            &&& s.info_result(file, key) is Ok
            &&& t.sb.object_count == s.sb.object_count - 1
            &&& info.block_count <= u32::MAX
            &&& (s.lookup(file, key)->Ok_0->0).0.block_pointers.len() <= u32::MAX
                ==> t.sb.free_blocks == s.sb.free_blocks + info.block_count
            &&& t.sb.metadata_area_size == s.sb.metadata_area_size
            &&& t.sb.total_blocks == s.sb.total_blocks
            &&& t.sb.block_size == s.sb.block_size
            &&& t.sb.max_metadata_area_size == s.sb.max_metadata_area_size
            &&& free_slots(t.bitmap, t.sb.total_blocks as nat).len() == t.sb.free_blocks
        }),
{
    let entries = stored(s, file);
    lemma_lookup(s, file, entries, key);
    lemma_delete_effect(s, file, entries, key, index_of(entries, key));
}

/// An identifier goes before a name: where a key is the identifier of an object that is
/// not deleted, that object is found and read, whatever other objects are named.
pub proof fn law_identifier_first(s: StoreView, file: Seq<u8>, key: Seq<char>, i: int)
    requires
        consistent(s, file),
        0 <= i < stored(s, file).len(),
        !stored(s, file)[i].deleted(),
        parsed_uuid(key) == Some(stored(s, file)[i].uuid),
    ensures
        exists|k: int|
            {
                &&& 0 <= k <= i
                &&& !(#[trigger] stored(s, file)[k]).deleted()
                &&& stored(s, file)[k].uuid == stored(s, file)[i].uuid
                &&& s.info_result(file, key) == Ok::<_, ErrorView>(stored(s, file)[k].info())
                &&& s.get_result(file, key) matches Ok((info, data)) && info == stored(
                    s,
                    file,
                )[k].info() && data.len() == info.size
            },
{
    let entries = stored(s, file);
    lemma_stored(s, file, entries);
    lemma_lookup(s, file, entries, key);
    law_found(s, file, key);
    let k = index_of(entries, key);
    assert(identified_by(entries[i], key));
    assert(k < entries.len());
    assert(identified_by(entries[k], key));
    if k > i {
        assert(!identified_by(entries[i], key));
    }
    lemma_data_len(s, file, entries[k].block_pointers);
    assert(tidy_entry(s, entries[k]));
}

} // verus!
