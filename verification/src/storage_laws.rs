//! What holds of a store and its file, whatever is stored, read and deleted.
use crate::bitmap::{
    free_slots, has_bit, law_mark_unmark, lemma_flips_all, lemma_free_count, lemma_free_zeros,
    lemma_with_bits, lemma_zero_bit, slots_from, with_bits,
};
use crate::bytes::put_bytes;
use crate::error::ErrorView;
use crate::ids::parsed_uuid;
use crate::metadata::{
    encode_all, entries_of, law_scan_round_trip, lemma_encode_all_first, lemma_encode_all_split,
    lemma_encode_len, scan, sound_entry, with_positions, EntryView, ObjectInfoView,
    META_FLAG_DELETED,
};
use crate::storage::{
    answers, apply, apply_op, bit_writes, blocks_for, can_create, chosen_blocks, identified_by,
    in_range_from, lemma_block_fits, lemma_blocks_for, lemma_chosen_blocks, lemma_match_of,
    live_infos, match_of, named_by, no_object, padded_chunk, shifted, FileOpView, StoreView,
};
use crate::storage_layout::{
    block_bytes, distinct, law_placed_flush, lemma_apply_bits, lemma_apply_blocks,
    lemma_apply_concat, lemma_apply_one, lemma_block_inside, lemma_read_chunks, lemma_read_same,
    lemma_same_bytes, lemma_write_inside, placed, same_layout,
};
use crate::superblock::{magic_bytes, SuperBlock, SUPER_BLOCK_SIZE};
use vstd::prelude::*;
use vstd::utf8::*;

verus! {

/// How many of the entries are not deleted.
pub open spec fn live_count(entries: Seq<EntryView>) -> nat
    decreases entries.len(),
{
    if entries.len() == 0 {
        0
    } else {
        live_count(entries.drop_last()) + if entries.last().deleted() {
            0nat
        } else {
            1nat
        }
    }
}

/// How many blocks the entries that are not deleted hold.
pub open spec fn held_blocks(entries: Seq<EntryView>) -> nat
    decreases entries.len(),
{
    if entries.len() == 0 {
        0
    } else {
        held_blocks(entries.drop_last()) + if entries.last().deleted() {
            0
        } else {
            entries.last().block_pointers.len()
        }
    }
}

/// Whether the blocks of an entry that is not deleted exist, are marked as used,
/// are all different and have room for the object.
pub open spec fn tidy_entry(s: StoreView, e: EntryView) -> bool {
    !e.deleted() ==> {
        &&& forall|a: int|
            0 <= a < e.block_pointers.len() ==> #[trigger] e.block_pointers[a] < s.sb.total_blocks
                && has_bit(s.bitmap, e.block_pointers[a] as int)
        &&& forall|a: int, b: int|
            0 <= a < b < e.block_pointers.len() ==> e.block_pointers[a] != e.block_pointers[b]
        &&& e.size <= e.block_pointers.len() * s.sb.block_size
    }
}

/// Whether two entries, unless one is deleted, have different names and no block
/// in common.
pub open spec fn apart(e: EntryView, f: EntryView) -> bool {
    !e.deleted() && !f.deleted() ==> {
        &&& e.name != f.name
        &&& forall|a: int, b: int|
            0 <= a < e.block_pointers.len() && 0 <= b < f.block_pointers.len()
                ==> e.block_pointers[a] != f.block_pointers[b]
    }
}

/// Whether everything has its place in the file, with `entries` in the metadata
/// area.
pub open spec fn laid_out(s: StoreView, file: Seq<u8>, entries: Seq<EntryView>) -> bool {
    &&& placed(s, file)
    &&& encode_all(entries).len() == s.sb.metadata_area_size
    &&& file.subrange(
        s.metadata_offset(),
        s.metadata_offset() + s.sb.metadata_area_size,
    ) == encode_all(entries)
    &&& forall|i: int| 0 <= i < entries.len() ==> sound_entry(#[trigger] entries[i])
}

/// Whether the entries agree with the bitmap, with each other and with the
/// superblock's counts.
pub open spec fn tidy(s: StoreView, entries: Seq<EntryView>) -> bool {
    &&& agreed(s, entries)
    &&& s.sb.free_blocks == free_slots(s.bitmap, s.sb.total_blocks as nat).len()
}

/// [`tidy`], whatever the bitmap says of blocks that no entry holds.
pub open spec fn agreed(s: StoreView, entries: Seq<EntryView>) -> bool {
    &&& forall|i: int| 0 <= i < entries.len() ==> tidy_entry(s, #[trigger] entries[i])
    &&& forall|i: int, j: int|
        0 <= i < j < entries.len() ==> apart(#[trigger] entries[i], #[trigger] entries[j])
    &&& s.sb.object_count == live_count(entries)
    &&& s.sb.free_blocks + held_blocks(entries) <= s.sb.total_blocks
}

/// The entries in the metadata area.
pub open spec fn stored(s: StoreView, file: Seq<u8>) -> Seq<EntryView> {
    entries_of(scan(s.meta_bytes(file)->0, 0)->0)
}

/// The invariant of a store and its file.
pub open spec fn consistent(s: StoreView, file: Seq<u8>) -> bool {
    &&& laid_out(s, file, stored(s, file))
    &&& tidy(s, stored(s, file))
}

/// What reading the metadata area yields of a file that is laid out.
pub proof fn lemma_stored(s: StoreView, file: Seq<u8>, entries: Seq<EntryView>)
    requires
        laid_out(s, file, entries),
    ensures
        stored(s, file) == entries,
        s.scannable(file),
        s.scanned(file) == Ok::<_, ErrorView>(shifted(with_positions(entries), s.metadata_offset())),
{
    law_scan_round_trip(entries);
    lemma_block_fits(s, 0);
    let m = s.meta_bytes(file)->0;
    if s.sb.metadata_area_size == 0 {
        assert(encode_all(entries) =~= Seq::empty());
    }
    assert(m == encode_all(entries));
}

/// A consistent store's metadata area can be read through.
pub proof fn law_consistent_readable(s: StoreView, file: Seq<u8>)
    requires
        consistent(s, file),
    ensures
        s.scannable(file),
        s.scanned(file) is Ok,
        forall|i: int|
            0 <= i < stored(s, file).len() && !stored(s, file)[i].deleted() ==> s.addressable(
                (#[trigger] stored(s, file)[i]).block_pointers,
            ),
{
    lemma_stored(s, file, stored(s, file));
    assert forall|i: int|
        0 <= i < stored(s, file).len() && !stored(s, file)[i].deleted() implies s.addressable(
        (#[trigger] stored(s, file)[i]).block_pointers,
    ) by {
        let e = stored(s, file)[i];
        assert(tidy_entry(s, e));
        assert forall|a: int| 0 <= a < e.block_pointers.len() implies s.block_offset(
            #[trigger] e.block_pointers[a] as int,
        ) <= u64::MAX by {
            lemma_block_fits(s, e.block_pointers[a] as int);
        }
    }
}

/// A consistent store is sound: every operation can be carried out.
pub proof fn law_consistent_sound(s: StoreView, file: Seq<u8>)
    requires
        consistent(s, file),
    ensures
        s.sound(file),
{
    let entries = stored(s, file);
    lemma_stored(s, file, entries);
    law_consistent_readable(s, file);
    lemma_entry_count(entries);
    let found = s.scanned(file)->Ok_0;
    assert forall|i: int| 0 <= i < found.len() && !found[i].0.deleted() implies s.manageable(
        (#[trigger] found[i]).0,
    ) by {
        assert(found[i].0 == entries[i]);
        lemma_held(entries, i);
    }
}

proof fn lemma_held(entries: Seq<EntryView>, i: int)
    requires
        0 <= i < entries.len(),
        !entries[i].deleted(),
    ensures
        live_count(entries) >= 1,
        held_blocks(entries) >= entries[i].block_pointers.len(),
    decreases entries.len(),
{
    if i < entries.len() - 1 {
        lemma_held(entries.drop_last(), i);
    }
}

/// Whether `m` is the index of the first entry with the identifier `key` or,
/// where none has it, of the first with that name; or the length of `entries`
/// where there is neither.
pub open spec fn finds(entries: Seq<EntryView>, key: Seq<char>, m: int) -> bool {
    &&& 0 <= m <= entries.len()
    &&& m < entries.len() && identified_by(entries[m], key) ==> forall|j: int|
        0 <= j < m ==> !identified_by(#[trigger] entries[j], key)
    &&& m < entries.len() && !identified_by(entries[m], key) ==> {
        &&& named_by(entries[m], key)
        &&& forall|j: int| 0 <= j < entries.len() ==> !identified_by(#[trigger] entries[j], key)
        &&& forall|j: int| 0 <= j < m ==> !named_by(#[trigger] entries[j], key)
    }
    &&& m == entries.len() ==> forall|j: int|
        0 <= j < entries.len() ==> !answers(#[trigger] entries[j], key)
}

/// The index of the entry that `key` denotes.
pub open spec fn index_of(entries: Seq<EntryView>, key: Seq<char>) -> int {
    match_of(Seq::new(entries.len(), |i: int| (entries[i], 0int)), key)
}

proof fn lemma_placed(entries: Seq<EntryView>, key: Seq<char>, placed: Seq<(EntryView, int)>)
    requires
        placed.len() == entries.len(),
        forall|i: int| 0 <= i < entries.len() ==> (#[trigger] placed[i]).0 == entries[i],
    ensures
        finds(entries, key, match_of(placed, key)),
{
    lemma_match_of(placed, key);
    let m = match_of(placed, key);
    assert forall|j: int| 0 <= j < m implies placed[j].0 == #[trigger] entries[j] by {}
    assert forall|j: int| 0 <= j < entries.len() implies placed[j].0 == #[trigger] entries[j] by {}
}

/// There is only one such index.
pub proof fn lemma_finds_one(entries: Seq<EntryView>, key: Seq<char>, m: int, n: int)
    requires
        finds(entries, key, m),
        finds(entries, key, n),
    ensures
        m == n,
{
    if m < entries.len() {
        assert(answers(entries[m], key));
    }
    if n < entries.len() {
        assert(answers(entries[n], key));
    }
}

proof fn lemma_index_of(entries: Seq<EntryView>, key: Seq<char>, placed: Seq<(EntryView, int)>)
    requires
        placed.len() == entries.len(),
        forall|i: int| 0 <= i < entries.len() ==> (#[trigger] placed[i]).0 == entries[i],
    ensures
        match_of(placed, key) == index_of(entries, key),
        finds(entries, key, index_of(entries, key)),
{
    let bare = Seq::new(entries.len(), |i: int| (entries[i], 0int));
    lemma_placed(entries, key, bare);
    lemma_placed(entries, key, placed);
    lemma_finds_one(entries, key, match_of(placed, key), match_of(bare, key));
}

/// What a lookup finds in a file that is laid out.
pub proof fn lemma_lookup(s: StoreView, file: Seq<u8>, entries: Seq<EntryView>, key: Seq<char>)
    requires
        laid_out(s, file, entries),
    ensures
        s.lookup(file, key) is Ok,
        match s.lookup(file, key)->Ok_0 {
            Some((e, at)) => {
                &&& index_of(entries, key) < entries.len()
                &&& e == entries[index_of(entries, key)]
                &&& at == s.metadata_offset() + encode_all(
                    entries.take(index_of(entries, key)),
                ).len()
            },
            None => index_of(entries, key) == entries.len(),
        },
        finds(entries, key, index_of(entries, key)),
{
    lemma_stored(s, file, entries);
    lemma_index_of(entries, key, shifted(with_positions(entries), s.metadata_offset()));
}

/// Marking blocks changes the bitmap's part of the file alone.
proof fn lemma_mark_effect(
    s: StoreView,
    file: Seq<u8>,
    entries: Seq<EntryView>,
    blocks: Seq<u64>,
    used: bool,
)
    requires
        laid_out(s, file, entries),
        forall|i: int| 0 <= i < blocks.len() ==> #[trigger] blocks[i] < s.sb.total_blocks,
    ensures
        laid_out(
            s.marked(blocks, used),
            apply(file, bit_writes(s.bitmap, blocks, used)),
            entries,
        ),
        forall|b: int|
            0 <= b < s.sb.total_blocks ==> #[trigger] block_bytes(
                s,
                apply(file, bit_writes(s.bitmap, blocks, used)),
                b,
            ) == block_bytes(s, file, b),
        s.marked(blocks, used).bitmap.len() == s.bitmap.len(),
{
    lemma_block_fits(s, 0);
    let bits = with_bits(s.bitmap, blocks, used);
    let f = apply(file, bit_writes(s.bitmap, blocks, used));
    lemma_apply_bits(file, s.bitmap, blocks, used);
    assert(f.subrange(SUPER_BLOCK_SIZE as int, SUPER_BLOCK_SIZE + bits.len()) =~= bits);
    lemma_same_bytes(f, file, 0, SUPER_BLOCK_SIZE as int);
    lemma_same_bytes(
        f,
        file,
        s.metadata_offset(),
        s.metadata_offset() + s.sb.metadata_area_size,
    );
    assert forall|b: int| 0 <= b < s.sb.total_blocks implies #[trigger] block_bytes(s, f, b)
        == block_bytes(s, file, b) by {
        lemma_block_inside(s, b);
        lemma_same_bytes(f, file, s.block_offset(b), s.block_offset(b) + s.sb.block_size);
    }
}

/// Marking blocks that are free as used leaves the entries as they should be.
proof fn lemma_mark_tidy(s: StoreView, entries: Seq<EntryView>, blocks: Seq<u64>)
    requires
        s.operable(),
        tidy(s, entries),
        forall|i: int| 0 <= i < blocks.len() ==> #[trigger] blocks[i] < s.sb.total_blocks,
    ensures
        agreed(s.marked(blocks, true), entries),
        forall|i: int|
            0 <= i < blocks.len() ==> has_bit(
                s.marked(blocks, true).bitmap,
                #[trigger] blocks[i] as int,
            ),
{
    let t = s.marked(blocks, true);
    assert forall|i: int| 0 <= i < entries.len() implies tidy_entry(t, #[trigger] entries[i]) by {
        let e = entries[i];
        assert(tidy_entry(s, e));
        if !e.deleted() {
            assert forall|a: int| 0 <= a < e.block_pointers.len() implies #[trigger] e.block_pointers[a]
                < t.sb.total_blocks && has_bit(t.bitmap, e.block_pointers[a] as int) by {
                lemma_with_bits(s.bitmap, blocks, true, e.block_pointers[a] as int);
            }
        }
    }
    assert forall|i: int| 0 <= i < blocks.len() implies has_bit(
        t.bitmap,
        #[trigger] blocks[i] as int,
    ) by {
        lemma_with_bits(s.bitmap, blocks, true, blocks[i] as int);
        assert(blocks.contains(blocks[i]));
    }
}

/// The first half of storing an object keeps the store in order, puts the data
/// into its blocks, and leaves the blocks of the other objects alone.
proof fn lemma_reserve_effect(
    s: StoreView,
    file: Seq<u8>,
    entries: Seq<EntryView>,
    name: Seq<char>,
    data: Seq<u8>,
)
    requires
        laid_out(s, file, entries),
        tidy(s, entries),
    ensures
        ({
            let step = s.reserve_step(file, name, data);
            let f = apply(file, step.writes);
            let t = step.store;
            &&& laid_out(t, f, entries)
            &&& tidy(t, entries)
            &&& same_layout(s, t)
            &&& t.sb.metadata_area_size == s.sb.metadata_area_size
            &&& t.sb.object_count == s.sb.object_count
            &&& t.bitmap.len() == s.bitmap.len()
            &&& forall|i: int, a: int|
                0 <= i < entries.len() && !entries[i].deleted() && 0 <= a
                    < entries[i].block_pointers.len() ==> block_bytes(
                    s,
                    f,
                    #[trigger] entries[i].block_pointers[a] as int,
                ) == block_bytes(s, file, entries[i].block_pointers[a] as int)
            &&& step.result matches Ok(blocks) ==> {
                &&& blocks.len() == blocks_for(data.len() as int, s.sb.block_size as int)
                &&& distinct(blocks)
                &&& forall|i: int|
                    0 <= i < blocks.len() ==> {
                        &&& #[trigger] blocks[i] < s.sb.total_blocks
                        &&& !has_bit(s.bitmap, blocks[i] as int)
                        &&& has_bit(t.bitmap, blocks[i] as int)
                        &&& block_bytes(s, f, blocks[i] as int) == padded_chunk(
                            data,
                            i,
                            s.sb.block_size as int,
                        )
                    }
                &&& t.sb.free_blocks + held_blocks(entries) + blocks.len() <= t.sb.total_blocks
                &&& !s.name_taken(file, name)
            }
            &&& step.result is Err ==> t == s && step.writes == Seq::<FileOpView>::empty()
        }),
{
    let step = s.reserve_step(file, name, data);
    let needed = blocks_for(data.len() as int, s.sb.block_size as int);
    let blocks = chosen_blocks(s.bitmap, s.sb.total_blocks as int, needed);
    lemma_blocks_for(data.len() as int, s.sb.block_size as int);
    lemma_chosen_blocks(s.bitmap, s.sb.total_blocks as nat, needed);
    if s.name_taken(file, name) || s.sb.free_blocks < needed {
        assert(apply(file, Seq::empty()) == file);
    } else {
        let ops = bit_writes(s.bitmap, blocks, true);
        let f1 = apply(file, ops);
        let m = s.marked(blocks, true);
        lemma_mark_effect(s, file, entries, blocks, true);
        lemma_mark_tidy(s, entries, blocks);
        assert(blocks.len() == needed);
        assert forall|i: int| 0 <= i < blocks.len() implies #[trigger] blocks[i] < 8 * s.bitmap.len()
            && has_bit(s.bitmap, blocks[i] as int) != true by {}
        lemma_flips_all(s.bitmap, blocks, true);
        lemma_free_count(s.bitmap, blocks, true, s.sb.total_blocks as nat);
        assert forall|i: int, a: int|
            0 <= i < entries.len() && !entries[i].deleted() && 0 <= a
                < entries[i].block_pointers.len() implies 0
            <= #[trigger] entries[i].block_pointers[a] < s.sb.total_blocks && block_bytes(
            s,
            f1,
            entries[i].block_pointers[a] as int,
        ) == block_bytes(s, file, entries[i].block_pointers[a] as int) && forall|j: int|
            0 <= j < blocks.len() ==> blocks[j] != entries[i].block_pointers[a] by {
            assert(tidy_entry(s, entries[i]));
        }
        let all = s.block_writes(blocks, data);
        let f2 = apply(f1, all);
        lemma_apply_concat(file, ops, all);
        lemma_apply_blocks(s, f1, blocks, data, blocks.len() as int);
        assert(all.take(blocks.len() as int) =~= all);
        lemma_block_fits(s, 0);
        lemma_same_bytes(f2, f1, SUPER_BLOCK_SIZE as int, SUPER_BLOCK_SIZE + m.bitmap.len());
        lemma_same_bytes(
            f2,
            f1,
            s.metadata_offset(),
            s.metadata_offset() + s.sb.metadata_area_size,
        );
        let t = step.store;
        assert forall|i: int| 0 <= i < entries.len() implies tidy_entry(
            t,
            #[trigger] entries[i],
        ) by {
            assert(tidy_entry(m, entries[i]));
        }
        assert(laid_out(t, f2, entries));
    }
}

/// Flushing makes the file hold the superblock and the bitmap, and changes
/// nothing else in it.
proof fn lemma_flush_effect(s: StoreView, file: Seq<u8>, entries: Seq<EntryView>)
    requires
        laid_out(s, file, entries),
    ensures
        laid_out(s.flushed(), apply(file, s.flush_writes()), entries),
        forall|b: int|
            0 <= b < s.sb.total_blocks ==> #[trigger] block_bytes(
                s,
                apply(file, s.flush_writes()),
                b,
            ) == block_bytes(s, file, b),
{
    let f = apply(file, s.flush_writes());
    lemma_block_fits(s, 0);
    law_placed_flush(s, file);
    lemma_same_bytes(
        f,
        file,
        s.metadata_offset(),
        s.metadata_offset() + s.sb.metadata_area_size,
    );
    assert forall|b: int| 0 <= b < s.sb.total_blocks implies #[trigger] block_bytes(s, f, b)
        == block_bytes(s, file, b) by {
        lemma_block_inside(s, b);
        lemma_same_bytes(f, file, s.block_offset(b), s.block_offset(b) + s.sb.block_size);
    }
}

/// Entries take up room, so there are not more of them than bytes.
proof fn lemma_entry_count(entries: Seq<EntryView>)
    requires
        forall|i: int| 0 <= i < entries.len() ==> sound_entry(#[trigger] entries[i]),
    ensures
        live_count(entries) <= entries.len(),
        47 * entries.len() <= encode_all(entries).len(),
    decreases entries.len(),
{
    if entries.len() > 0 {
        let front = entries.drop_last();
        assert forall|i: int| 0 <= i < front.len() implies sound_entry(#[trigger] front[i]) by {
            assert(front[i] == entries[i]);
        }
        lemma_entry_count(front);
        assert(sound_entry(entries[entries.len() - 1]));
        lemma_encode_len(entries.last());
    }
}

/// The entry as it is read once it was written.
pub open spec fn as_read(e: EntryView) -> EntryView {
    EntryView { entry_size: e.encoded_len() as u32, ..e }
}

/// Room runs out exactly when fewer blocks are free than the data needs, and then
/// nothing is changed. An object whose name is free and whose data has room gets
/// its blocks.
pub proof fn law_no_space(s: StoreView, file: Seq<u8>, name: Seq<char>, data: Seq<u8>)
    requires
        consistent(s, file),
    ensures
        ({
            let step = s.reserve_step(file, name, data);
            let needed = blocks_for(data.len() as int, s.sb.block_size as int);
            let free = free_slots(s.bitmap, s.sb.total_blocks as nat).len();
            &&& step.result == Err::<Seq<u64>, _>(ErrorView::NoSpace) <==> !s.name_taken(file, name)
                && free < needed
            &&& step.result is Ok <==> !s.name_taken(file, name) && free >= needed
            &&& step.result is Err ==> step.store == s && step.writes == Seq::<FileOpView>::empty()
        }),
{
    lemma_reserve_effect(s, file, stored(s, file), name, data);
}

/// Recording an entry appends it to the metadata area, and leaves the data blocks
/// alone.
proof fn lemma_record_effect(t: StoreView, f: Seq<u8>, entries: Seq<EntryView>, entry: EntryView)
    requires
        laid_out(t, f, entries),
        tidy(t, entries),
        entry.fits(),
        !entry.deleted(),
        t.sb.free_blocks + held_blocks(entries) + entry.block_pointers.len() <= t.sb.total_blocks,
        tidy_entry(t, as_read(entry)),
        forall|i: int| 0 <= i < entries.len() ==> apart(#[trigger] entries[i], as_read(entry)),
        t.record_step(entry).result is Ok,
    ensures
        ({
            let step = t.record_step(entry);
            let g = apply(f, step.writes);
            &&& laid_out(step.store, g, entries.push(as_read(entry)))
            &&& tidy(step.store, entries.push(as_read(entry)))
            &&& same_layout(t, step.store)
            &&& step.store.bitmap == t.bitmap
            &&& forall|b: int|
                0 <= b < t.sb.total_blocks ==> #[trigger] block_bytes(t, g, b) == block_bytes(t, f, b)
        }),
{
    let step = t.record_step(entry);
    let e = as_read(entry);
    let more = entries.push(e);
    let len = entry.encoded_len();
    assert(more.drop_last() =~= entries);
    assert(e.encode() == entry.encode()) by {
        reveal(EntryView::encode);
    }
    lemma_encode_len(entry);
    lemma_entry_count(entries);
    lemma_block_fits(t, 0);
    let after = StoreView {
        sb: SuperBlock {
            metadata_area_size: (t.sb.metadata_area_size + len) as u64,
            object_count: (t.sb.object_count + 1) as u64,
            ..t.sb
        },
        dirty: true,
        ..t
    };
    let at = t.metadata_offset() + t.sb.metadata_area_size;
    let one = seq![FileOpView::Write { offset: at as u64, data: entry.encode() }];
    let g = put_bytes(f, at, entry.encode());
    lemma_write_inside(f, at as u64, entry.encode());
    lemma_apply_one(f, one[0]);
    lemma_apply_concat(f, one, after.flush_writes());
    assert(step.writes =~= one + after.flush_writes());
    lemma_same_bytes(g, f, SUPER_BLOCK_SIZE as int, SUPER_BLOCK_SIZE + t.bitmap.len());
    assert(g.subrange(t.metadata_offset(), at + len) =~= encode_all(entries) + entry.encode()) by {
        lemma_same_bytes(g, f, t.metadata_offset(), at);
        assert(g.subrange(t.metadata_offset(), at + len) =~= g.subrange(t.metadata_offset(), at)
            + entry.encode());
    }
    assert forall|i: int| 0 <= i < more.len() implies sound_entry(#[trigger] more[i]) by {
        if i < entries.len() {
            assert(more[i] == entries[i]);
        }
    }
    assert(laid_out(after, g, more));
    lemma_flush_effect(after, g, more);
    assert forall|b: int| 0 <= b < t.sb.total_blocks implies #[trigger] block_bytes(
        t,
        apply(f, step.writes),
        b,
    ) == block_bytes(t, f, b) by {
        lemma_block_inside(t, b);
        assert(block_bytes(after, apply(g, after.flush_writes()), b) == block_bytes(after, g, b));
        lemma_same_bytes(g, f, t.block_offset(b), t.block_offset(b) + t.sb.block_size);
    }
    let u = step.store;
    assert forall|i: int| 0 <= i < more.len() implies tidy_entry(u, #[trigger] more[i]) by {
        if i < entries.len() {
            assert(tidy_entry(t, entries[i]));
        }
    }
    assert forall|i: int, j: int| 0 <= i < j < more.len() implies apart(
        #[trigger] more[i],
        #[trigger] more[j],
    ) by {
        if j < entries.len() {
            assert(apart(entries[i], entries[j]));
        } else {
            assert(apart(entries[i], e));
        }
    }
}

/// What is recorded of an object, as it is read.
pub open spec fn put_entry(
    s: StoreView,
    file: Seq<u8>,
    name: Seq<char>,
    data: Seq<u8>,
    content_type: Seq<char>,
    tags: Seq<char>,
    uuid: Seq<u8>,
    now: i64,
) -> EntryView {
    as_read(
        StoreView::new_entry(
            name,
            data.len(),
            content_type,
            tags,
            s.reserve_step(file, name, data).result->Ok_0,
            uuid,
            now,
        ),
    )
}

/// Whether the texts are short enough for an entry to hold their lengths.
pub open spec fn short_texts(name: Seq<char>, content_type: Seq<char>, tags: Seq<char>) -> bool {
    &&& encode_utf8(name).len() <= u16::MAX
    &&& encode_utf8(content_type).len() <= u16::MAX
    &&& encode_utf8(tags).len() <= u16::MAX
}

/// What storing an object does to a store in order.
pub proof fn lemma_put_effect(
    s: StoreView,
    file: Seq<u8>,
    entries: Seq<EntryView>,
    name: Seq<char>,
    data: Seq<u8>,
    content_type: Seq<char>,
    tags: Seq<char>,
    uuid: Seq<u8>,
    now: i64,
)
    requires
        laid_out(s, file, entries),
        tidy(s, entries),
        uuid.len() == 16,
        data.len() <= u64::MAX,
        short_texts(name, content_type, tags),
        s.can_record(name, data.len(), content_type, tags),
    ensures
        ({
            let step = s.put_step(file, name, data, content_type, tags, uuid, now);
            let g = apply(file, step.writes);
            let e = put_entry(s, file, name, data, content_type, tags, uuid, now);
            let after = if step.result is Ok {
                entries.push(e)
            } else {
                entries
            };
            &&& laid_out(step.store, g, after)
            &&& tidy(step.store, after)
            &&& same_layout(s, step.store)
            &&& forall|i: int, a: int|
                0 <= i < entries.len() && !entries[i].deleted() && 0 <= a
                    < entries[i].block_pointers.len() ==> block_bytes(
                    s,
                    g,
                    #[trigger] entries[i].block_pointers[a] as int,
                ) == block_bytes(s, file, entries[i].block_pointers[a] as int)
            &&& step.result is Ok ==> {
                &&& s.reserve_step(file, name, data).result is Ok
                &&& !s.name_taken(file, name)
                &&& e.block_pointers.len() == blocks_for(data.len() as int, s.sb.block_size as int)
                &&& forall|i: int|
                    0 <= i < e.block_pointers.len() ==> {
                        &&& #[trigger] e.block_pointers[i] < s.sb.total_blocks
                        &&& !has_bit(s.bitmap, e.block_pointers[i] as int)
                        &&& block_bytes(s, g, e.block_pointers[i] as int) == padded_chunk(
                            data,
                            i,
                            s.sb.block_size as int,
                        )
                    }
                &&& step.store.bitmap == with_bits(s.bitmap, e.block_pointers, true)
                &&& step.store.sb.free_blocks == s.sb.free_blocks - e.block_pointers.len()
                &&& step.store.sb.object_count == s.sb.object_count + 1
            }
        }),
{
    let first = s.reserve_step(file, name, data);
    let f = apply(file, first.writes);
    let t = first.store;
    lemma_reserve_effect(s, file, entries, name, data);
    if first.result is Ok {
        let blocks = first.result->Ok_0;
        let entry = StoreView::new_entry(name, data.len(), content_type, tags, blocks, uuid, now);
        let e = as_read(entry);
        let second = t.record_step(entry);
        lemma_apply_concat(file, first.writes, second.writes);
        assert(0u8 & META_FLAG_DELETED == 0) by (bit_vector);
        lemma_blocks_for(data.len() as int, s.sb.block_size as int);
        lemma_stored(s, file, entries);
        lemma_entry_count(entries);
        assert forall|i: int| 0 <= i < entries.len() implies apart(#[trigger] entries[i], e) by {
            let x = entries[i];
            assert(tidy_entry(s, x));
            if !x.deleted() {
                assert(s.scanned(file)->Ok_0[i].0 == x);
                assert(x.name != name);
            }
        }
        assert(tidy_entry(t, e));
        if second.result is Ok {
            lemma_record_effect(t, f, entries, entry);
            let g = apply(f, second.writes);
            assert forall|i: int, a: int|
                0 <= i < entries.len() && !entries[i].deleted() && 0 <= a
                    < entries[i].block_pointers.len() implies block_bytes(
                s,
                g,
                #[trigger] entries[i].block_pointers[a] as int,
            ) == block_bytes(s, file, entries[i].block_pointers[a] as int) by {
                assert(tidy_entry(s, entries[i]));
                let b = entries[i].block_pointers[a] as int;
                assert(block_bytes(t, g, b) == block_bytes(t, f, b));
                assert(block_bytes(s, f, b) == block_bytes(s, file, b));
            }
            assert forall|i: int| 0 <= i < blocks.len() implies block_bytes(
                s,
                g,
                #[trigger] blocks[i] as int,
            ) == padded_chunk(data, i, s.sb.block_size as int) by {
                assert(block_bytes(t, g, blocks[i] as int) == block_bytes(t, f, blocks[i] as int));
                assert(block_bytes(s, f, blocks[i] as int) == padded_chunk(data, i, s.sb.block_size as int));
            }
        } else {
            assert(second.writes =~= Seq::empty());
            assert(first.writes + second.writes =~= first.writes);
        }
    }
}

/// Storing an object keeps the invariant, whether it succeeds or not.
pub proof fn law_put_consistent(
    s: StoreView,
    file: Seq<u8>,
    name: Seq<char>,
    data: Seq<u8>,
    content_type: Seq<char>,
    tags: Seq<char>,
    uuid: Seq<u8>,
    now: i64,
)
    requires
        consistent(s, file),
        uuid.len() == 16,
        data.len() <= u64::MAX,
        short_texts(name, content_type, tags),
        s.can_record(name, data.len(), content_type, tags),
    ensures
        ({
            let step = s.put_step(file, name, data, content_type, tags, uuid, now);
            consistent(step.store, apply(file, step.writes))
        }),
{
    let entries = stored(s, file);
    lemma_put_effect(s, file, entries, name, data, content_type, tags, uuid, now);
    let step = s.put_step(file, name, data, content_type, tags, uuid, now);
    let g = apply(file, step.writes);
    let after = if step.result is Ok {
        entries.push(put_entry(s, file, name, data, content_type, tags, uuid, now))
    } else {
        entries
    };
    lemma_stored(step.store, g, after);
}

/// A new entry is found under its name and its identifier.
proof fn lemma_finds_last(
    s: StoreView,
    file: Seq<u8>,
    entries: Seq<EntryView>,
    e: EntryView,
    key: Seq<char>,
)
    requires
        laid_out(s, file, entries),
        !s.name_taken(file, e.name),
        answers(e, key),
        forall|i: int| 0 <= i < entries.len() ==> !identified_by(#[trigger] entries[i], key),
    ensures
        finds(entries.push(e), key, entries.len() as int),
{
    let more = entries.push(e);
    lemma_stored(s, file, entries);
    assert forall|j: int| 0 <= j < entries.len() implies !identified_by(#[trigger] more[j], key)
        && (named_by(e, key) ==> !named_by(more[j], key)) by {
        assert(more[j] == entries[j]);
        assert(s.scanned(file)->Ok_0[j].0 == entries[j]);
    }
    assert(more[entries.len() as int] == e);
}

/// The entry that `key` denotes.
pub open spec fn denoted(s: StoreView, file: Seq<u8>, key: Seq<char>) -> Option<EntryView> {
    match s.lookup(file, key) {
        Ok(Some((e, _))) => Some(e),
        _ => None,
    }
}

/// What was stored is read back: after an object was stored, reading it under its
/// name or its identifier yields what storing it returned, and its data, unless
/// that key is the identifier of an earlier object.
pub proof fn law_put_get(
    s: StoreView,
    file: Seq<u8>,
    name: Seq<char>,
    data: Seq<u8>,
    content_type: Seq<char>,
    tags: Seq<char>,
    uuid: Seq<u8>,
    now: i64,
    key: Seq<char>,
)
    requires
        consistent(s, file),
        uuid.len() == 16,
        data.len() <= u64::MAX,
        short_texts(name, content_type, tags),
        s.can_record(name, data.len(), content_type, tags),
        s.put_step(file, name, data, content_type, tags, uuid, now).result is Ok,
        key == name || parsed_uuid(key) == Some(uuid),
        forall|i: int|
            0 <= i < stored(s, file).len() ==> !identified_by(#[trigger] stored(s, file)[i], key),
    ensures
        ({
            let step = s.put_step(file, name, data, content_type, tags, uuid, now);
            let after = apply(file, step.writes);
            &&& step.store.get_result(after, key) == Ok::<_, ErrorView>(
                (step.result->Ok_0, data),
            )
            &&& step.store.info_result(after, key) == Ok::<_, ErrorView>(step.result->Ok_0)
        }),
{
    let entries = stored(s, file);
    lemma_put_effect(s, file, entries, name, data, content_type, tags, uuid, now);
    let step = s.put_step(file, name, data, content_type, tags, uuid, now);
    let t = step.store;
    let g = apply(file, step.writes);
    let e = put_entry(s, file, name, data, content_type, tags, uuid, now);
    let more = entries.push(e);
    assert(0u8 & META_FLAG_DELETED == 0) by (bit_vector);
    lemma_lookup(t, g, more, key);
    let k = index_of(more, key);
    lemma_finds_last(s, file, entries, e, key);
    lemma_finds_one(more, key, k, entries.len() as int);
    lemma_read_chunks(t, g, e.block_pointers, data);
    lemma_blocks_for(data.len() as int, s.sb.block_size as int);
    let whole = t.read_blocks(g, e.block_pointers)->0;
    if e.size < whole.len() {
        assert(whole.take(e.size as int) =~= data);
    } else {
        assert(whole =~= data);
    }
    assert(e.info() == step.result->Ok_0);
}

/// Storing an object leaves the others alone: what a key denoted before, it
/// denotes with the same data afterwards, unless it was only a name and is the
/// new object's identifier; and a key that denotes neither an earlier object nor
/// the new one still denotes none.
pub proof fn law_put_keeps_others(
    s: StoreView,
    file: Seq<u8>,
    name: Seq<char>,
    data: Seq<u8>,
    content_type: Seq<char>,
    tags: Seq<char>,
    uuid: Seq<u8>,
    now: i64,
    key: Seq<char>,
)
    requires
        consistent(s, file),
        uuid.len() == 16,
        data.len() <= u64::MAX,
        short_texts(name, content_type, tags),
        s.can_record(name, data.len(), content_type, tags),
        denoted(s, file, key) is Some || key != name,
        parsed_uuid(key) == Some(uuid) ==> {
            &&& denoted(s, file, key) is Some
            &&& identified_by(denoted(s, file, key)->0, key)
        },
    ensures
        ({
            let step = s.put_step(file, name, data, content_type, tags, uuid, now);
            let after = apply(file, step.writes);
            &&& step.store.get_result(after, key) == s.get_result(file, key)
            &&& step.store.info_result(after, key) == s.info_result(file, key)
            &&& denoted(step.store, after, key) == denoted(s, file, key)
        }),
{
    let entries = stored(s, file);
    lemma_put_effect(s, file, entries, name, data, content_type, tags, uuid, now);
    let step = s.put_step(file, name, data, content_type, tags, uuid, now);
    let t = step.store;
    let g = apply(file, step.writes);
    let e = put_entry(s, file, name, data, content_type, tags, uuid, now);
    let after = if step.result is Ok {
        entries.push(e)
    } else {
        entries
    };
    lemma_lookup(s, file, entries, key);
    lemma_lookup(t, g, after, key);
    let k = index_of(entries, key);
    let m = index_of(after, key);
    assert forall|j: int| 0 <= j < entries.len() implies after[j] == #[trigger] entries[j] by {}
    if k < entries.len() {
        assert(identified_by(e, key) ==> identified_by(entries[k], key));
        assert forall|j: int| 0 <= j < after.len() && !identified_by(entries[k], key) implies
            !identified_by(#[trigger] after[j], key) by {
            if j < entries.len() {
                assert(after[j] == entries[j]);
            }
        }
        assert forall|j: int| 0 <= j < k implies after[j] == entries[j] by {}
        assert(finds(after, key, k));
        lemma_finds_one(after, key, m, k);
        let x = entries[k];
        assert(tidy_entry(s, x));
        assert forall|i: int| 0 <= i < x.block_pointers.len() implies block_bytes(
            t,
            g,
            #[trigger] x.block_pointers[i] as int,
        ) == block_bytes(t, file, x.block_pointers[i] as int) by {
            assert(block_bytes(s, g, entries[k].block_pointers[i] as int) == block_bytes(
                s,
                file,
                entries[k].block_pointers[i] as int,
            ));
        }
        lemma_read_same(t, g, s, file, x.block_pointers);
    } else {
        assert(answers(e, key) ==> key == name || parsed_uuid(key) == Some(uuid));
        assert forall|j: int| 0 <= j < after.len() implies !answers(#[trigger] after[j], key) by {
            if j < entries.len() {
                assert(after[j] == entries[j]);
            }
        }
        lemma_finds_one(after, key, m, after.len() as int);
    }
}

/// The entry, marked as deleted.
pub open spec fn struck(e: EntryView) -> EntryView {
    EntryView { flags: META_FLAG_DELETED, ..e }
}

proof fn lemma_struck(e: EntryView)
    requires
        sound_entry(e),
    ensures
        struck(e).deleted(),
        sound_entry(struck(e)),
        struck(e).encode() == put_bytes(e.encode(), 16, seq![META_FLAG_DELETED]),
{
    assert(1u8 & META_FLAG_DELETED != 0) by (bit_vector);
    lemma_encode_len(e);
    lemma_encode_len(struck(e));
    reveal(EntryView::encode);
    assert(struck(e).encode() =~= put_bytes(e.encode(), 16, seq![META_FLAG_DELETED]));
}

/// Marking one entry changes one byte of the metadata area.
proof fn lemma_strike_bytes(entries: Seq<EntryView>, k: int)
    requires
        0 <= k < entries.len(),
        forall|i: int| 0 <= i < entries.len() ==> sound_entry(#[trigger] entries[i]),
    ensures
        encode_all(entries.take(k)).len() + 47 <= encode_all(entries).len(),
        encode_all(entries.update(k, struck(entries[k]))) == put_bytes(
            encode_all(entries),
            encode_all(entries.take(k)).len() as int + 16,
            seq![META_FLAG_DELETED],
        ),
{
    let e = entries[k];
    let after = entries.update(k, struck(e));
    assert(sound_entry(e));
    lemma_struck(e);
    lemma_encode_len(e);
    lemma_encode_all_split(entries, k);
    lemma_encode_all_split(after, k);
    assert(after.take(k) =~= entries.take(k));
    lemma_encode_all_first(entries.skip(k));
    lemma_encode_all_first(after.skip(k));
    assert(after.skip(k).skip(1) =~= entries.skip(k).skip(1));
    assert(encode_all(after) =~= put_bytes(
        encode_all(entries),
        encode_all(entries.take(k)).len() as int + 16,
        seq![META_FLAG_DELETED],
    ));
}

/// Marking one entry takes one object and its blocks out of the counts.
proof fn lemma_strike_counts(entries: Seq<EntryView>, k: int)
    requires
        0 <= k < entries.len(),
        !entries[k].deleted(),
        struck(entries[k]).deleted(),
    ensures
        live_count(entries) >= 1,
        live_count(entries.update(k, struck(entries[k]))) == live_count(entries) - 1,
        held_blocks(entries.update(k, struck(entries[k]))) == held_blocks(entries)
            - entries[k].block_pointers.len(),
    decreases entries.len(),
{
    let after = entries.update(k, struck(entries[k]));
    let front = entries.drop_last();
    if k == entries.len() - 1 {
        assert(after.drop_last() =~= front);
    } else {
        lemma_strike_counts(front, k);
        assert(after.drop_last() =~= front.update(k, struck(front[k])));
    }
}

proof fn lemma_in_range(pointers: Seq<u64>, total: u64, i: int)
    requires
        0 <= i <= pointers.len(),
        forall|j: int| i <= j < pointers.len() ==> #[trigger] pointers[j] < total,
    ensures
        in_range_from(pointers, total, i) == pointers.len(),
    decreases pointers.len() - i,
{
    if i < pointers.len() {
        assert(pointers[i] < total);
        lemma_in_range(pointers, total, i + 1);
    }
}

/// What deleting the object at index `k` does to a store in order.
pub proof fn lemma_delete_effect(
    s: StoreView,
    file: Seq<u8>,
    entries: Seq<EntryView>,
    key: Seq<char>,
    k: int,
)
    requires
        laid_out(s, file, entries),
        tidy(s, entries),
        k == index_of(entries, key),
        k < entries.len(),
    ensures
        ({
            let step = s.delete_step(file, key);
            let g = apply(file, step.writes);
            let after = entries.update(k, struck(entries[k]));
            &&& step.result is Ok
            &&& laid_out(step.store, g, after)
            &&& tidy(step.store, after)
            &&& same_layout(s, step.store)
            &&& struck(entries[k]).deleted()
            &&& forall|b: int|
                0 <= b < s.sb.total_blocks ==> #[trigger] block_bytes(s, g, b) == block_bytes(
                    s,
                    file,
                    b,
                )
            &&& step.store.bitmap == with_bits(s.bitmap, entries[k].block_pointers, false)
            &&& step.store.sb.free_blocks == s.sb.free_blocks + entries[k].block_pointers.len()
            &&& step.store.sb.object_count == s.sb.object_count - 1
        }),
{
    lemma_lookup(s, file, entries, key);
    let e = entries[k];
    let at = s.metadata_offset() + encode_all(entries.take(k)).len();
    let blocks = e.block_pointers;
    let after = entries.update(k, struck(e));
    assert(tidy_entry(s, e));
    assert(sound_entry(e));
    lemma_in_range(blocks, s.sb.total_blocks, 0);
    assert(blocks.take(blocks.len() as int) =~= blocks);
    lemma_struck(e);
    lemma_strike_bytes(entries, k);
    lemma_strike_counts(entries, k);
    lemma_block_fits(s, 0);
    lemma_mark_effect(s, file, entries, blocks, false);
    let m = s.marked(blocks, false);
    let bits = bit_writes(s.bitmap, blocks, false);
    let f1 = apply(file, bits);
    let one = seq![FileOpView::Write { offset: (at + 16) as u64, data: seq![META_FLAG_DELETED] }];
    let t = StoreView {
        sb: SuperBlock {
            free_blocks: (s.sb.free_blocks + blocks.len()) as u64,
            object_count: (s.sb.object_count - 1) as u64,
            ..s.sb
        },
        dirty: true,
        ..m
    };
    let step = s.delete_step(file, key);
    assert(step.writes =~= bits + one + t.flush_writes());
    lemma_apply_concat(file, bits + one, t.flush_writes());
    lemma_apply_concat(file, bits, one);
    lemma_apply_one(f1, one[0]);
    lemma_write_inside(f1, (at + 16) as u64, seq![META_FLAG_DELETED]);
    let f2 = put_bytes(f1, at + 16, seq![META_FLAG_DELETED]);
    lemma_same_bytes(f2, f1, SUPER_BLOCK_SIZE as int, SUPER_BLOCK_SIZE + m.bitmap.len());
    let end = s.metadata_offset() + s.sb.metadata_area_size;
    assert(f2.subrange(s.metadata_offset(), end) =~= encode_all(after)) by {
        assert(f1.subrange(s.metadata_offset(), end) == encode_all(entries));
        assert(f2.subrange(s.metadata_offset(), end) =~= put_bytes(
            f1.subrange(s.metadata_offset(), end),
            at - s.metadata_offset() + 16,
            seq![META_FLAG_DELETED],
        ));
    }
    assert forall|i: int| 0 <= i < after.len() implies sound_entry(#[trigger] after[i]) by {
        if i != k {
            assert(sound_entry(entries[i]));
        }
    }
    assert(laid_out(t, f2, after));
    lemma_flush_effect(t, f2, after);
    let g = apply(file, step.writes);
    assert forall|b: int| 0 <= b < s.sb.total_blocks implies #[trigger] block_bytes(s, g, b)
        == block_bytes(s, file, b) by {
        lemma_block_inside(s, b);
        assert(block_bytes(t, g, b) == block_bytes(t, f2, b));
        lemma_same_bytes(f2, f1, s.block_offset(b), s.block_offset(b) + s.sb.block_size);
        assert(block_bytes(s, f1, b) == block_bytes(s, file, b));
    }
    let u = step.store;
    assert forall|i: int| 0 <= i < blocks.len() implies #[trigger] blocks[i] < 8 * s.bitmap.len()
        && has_bit(s.bitmap, blocks[i] as int) != false by {}
    lemma_flips_all(s.bitmap, blocks, false);
    lemma_free_count(s.bitmap, blocks, false, s.sb.total_blocks as nat);
    assert forall|i: int| 0 <= i < after.len() implies tidy_entry(u, #[trigger] after[i]) by {
        if i != k && !entries[i].deleted() {
            let x = entries[i];
            assert(tidy_entry(s, x));
            assert(apart(entries[if i < k { i } else { k }], entries[if i < k { k } else { i }]));
            assert forall|a: int| 0 <= a < x.block_pointers.len() implies #[trigger] x.block_pointers[a]
                < u.sb.total_blocks && has_bit(u.bitmap, x.block_pointers[a] as int) by {
                lemma_with_bits(s.bitmap, blocks, false, x.block_pointers[a] as int);
                if blocks.contains(x.block_pointers[a]) {
                    let b = choose|b: int| 0 <= b < blocks.len() && blocks[b] == x.block_pointers[a];
                    assert(blocks[b] == x.block_pointers[a]);
                }
            }
        }
    }
    assert forall|i: int, j: int| 0 <= i < j < after.len() implies apart(
        #[trigger] after[i],
        #[trigger] after[j],
    ) by {
        assert(apart(entries[i], entries[j]));
    }
}

/// In a consistent store a key that denotes an object can be deleted, and
/// deleting keeps the invariant.
pub proof fn law_delete_consistent(s: StoreView, file: Seq<u8>, key: Seq<char>)
    requires
        consistent(s, file),
    ensures
        s.get_result(file, key) is Ok ==> s.delete_step(file, key).result is Ok,
        s.lookup(file, key) matches Ok(Some((e, _))) ==> {
            &&& s.sb.free_blocks + e.block_pointers.len() <= u64::MAX
            &&& s.sb.object_count >= 1
        },
        consistent(
            s.delete_step(file, key).store,
            apply(file, s.delete_step(file, key).writes),
        ),
{
    let entries = stored(s, file);
    lemma_lookup(s, file, entries, key);
    let k = index_of(entries, key);
    if k < entries.len() {
        lemma_delete_effect(s, file, entries, key, k);
        lemma_strike_counts(entries, k);
        let step = s.delete_step(file, key);
        lemma_stored(step.store, apply(file, step.writes), entries.update(k, struck(entries[k])));
    } else {
        assert(apply(file, Seq::empty()) == file);
    }
}

/// Deleting fails only where the key denotes nothing, and then nothing is changed.
pub proof fn law_delete_refused(s: StoreView, file: Seq<u8>, key: Seq<char>)
    requires
        consistent(s, file),
        s.delete_step(file, key).result is Err,
    ensures
        denoted(s, file, key) is None,
        s.delete_step(file, key).result == Err::<(), _>(no_object(key)),
        s.delete_step(file, key).store == s,
        apply(file, s.delete_step(file, key).writes) == file,
{
    let entries = stored(s, file);
    lemma_lookup(s, file, entries, key);
    let k = index_of(entries, key);
    if k < entries.len() {
        lemma_delete_effect(s, file, entries, key, k);
    }
    assert(apply(file, Seq::empty()) == file);
}

/// What was deleted is gone: after a key was deleted, it denotes nothing, unless
/// it denoted more than one object; its blocks are free again.
pub proof fn law_delete_gone(s: StoreView, file: Seq<u8>, key: Seq<char>)
    requires
        consistent(s, file),
        s.delete_step(file, key).result is Ok,
        forall|i: int, j: int|
            0 <= i < j < stored(s, file).len() ==> !(answers(#[trigger] stored(s, file)[i], key)
                && answers(#[trigger] stored(s, file)[j], key)),
    ensures
        ({
            let step = s.delete_step(file, key);
            let after = apply(file, step.writes);
            let e = (s.lookup(file, key)->Ok_0->0).0;
            &&& step.store.get_result(after, key) == Err::<(ObjectInfoView, Seq<u8>), _>(
                no_object(key),
            )
            &&& step.store.delete_step(after, key).result == Err::<(), _>(no_object(key))
            &&& step.store.sb.free_blocks == s.sb.free_blocks + e.block_pointers.len()
            &&& forall|a: int|
                0 <= a < e.block_pointers.len() ==> !has_bit(
                    step.store.bitmap,
                    #[trigger] e.block_pointers[a] as int,
                )
        }),
{
    let entries = stored(s, file);
    lemma_lookup(s, file, entries, key);
    let k = index_of(entries, key);
    lemma_delete_effect(s, file, entries, key, k);
    let step = s.delete_step(file, key);
    let g = apply(file, step.writes);
    let after = entries.update(k, struck(entries[k]));
    lemma_lookup(step.store, g, after, key);
    let m = index_of(after, key);
    if m < after.len() {
        assert(answers(after[m], key));
        assert(m != k);
        assert(after[m] == entries[m]);
        assert(answers(entries[if m < k { m } else { k }], key));
        assert(answers(entries[if m < k { k } else { m }], key));
        assert(false);
    }
    let e = entries[k];
    assert(tidy_entry(s, e));
    assert forall|a: int| 0 <= a < e.block_pointers.len() implies !has_bit(
        step.store.bitmap,
        #[trigger] e.block_pointers[a] as int,
    ) by {
        lemma_with_bits(s.bitmap, e.block_pointers, false, e.block_pointers[a] as int);
        assert(e.block_pointers.contains(e.block_pointers[a]));
    }
}

/// Deleting an object leaves the others alone: a key that denotes another object,
/// or none, denotes what it denoted before, with the same data.
pub proof fn law_delete_keeps_others(
    s: StoreView,
    file: Seq<u8>,
    key: Seq<char>,
    other: Seq<char>,
)
    requires
        consistent(s, file),
        s.delete_step(file, key).result is Ok,
        s.lookup(file, other) != s.lookup(file, key),
    ensures
        ({
            let step = s.delete_step(file, key);
            let after = apply(file, step.writes);
            &&& step.store.get_result(after, other) == s.get_result(file, other)
            &&& step.store.info_result(after, other) == s.info_result(file, other)
            &&& denoted(step.store, after, other) == denoted(s, file, other)
        }),
{
    let entries = stored(s, file);
    lemma_lookup(s, file, entries, key);
    lemma_lookup(s, file, entries, other);
    let k = index_of(entries, key);
    lemma_delete_effect(s, file, entries, key, k);
    let step = s.delete_step(file, key);
    let t = step.store;
    let g = apply(file, step.writes);
    let after = entries.update(k, struck(entries[k]));
    lemma_lookup(t, g, after, other);
    let j = index_of(entries, other);
    let m = index_of(after, other);
    assert(j != k);
    assert forall|i: int| 0 <= i < after.len() && answers(#[trigger] after[i], other) implies i != k
        && after[i] == entries[i] by {}
    if j < entries.len() {
        assert(after[j] == entries[j]);
        assert forall|i: int| 0 <= i < after.len() && identified_by(
            #[trigger] after[i],
            other,
        ) implies identified_by(entries[i], other) by {}
        assert forall|i: int| 0 <= i < after.len() && named_by(
            #[trigger] after[i],
            other,
        ) implies named_by(entries[i], other) by {}
        assert(finds(after, other, j));
    } else {
        assert forall|i: int| 0 <= i < after.len() implies !answers(#[trigger] after[i], other) by {
            if answers(after[i], other) {
                assert(answers(entries[i], other));
            }
        }
    }
    lemma_finds_one(after, other, m, j);
    if j < entries.len() {
        let x = entries[j];
        assert(tidy_entry(s, x));
        assert forall|i: int| 0 <= i < x.block_pointers.len() implies block_bytes(
            t,
            g,
            #[trigger] x.block_pointers[i] as int,
        ) == block_bytes(t, file, x.block_pointers[i] as int) by {
            assert(block_bytes(s, g, x.block_pointers[i] as int) == block_bytes(
                s,
                file,
                x.block_pointers[i] as int,
            ));
        }
        lemma_read_same(t, g, s, file, x.block_pointers);
    }
}

/// A flush keeps the invariant and leaves the store clean.
pub proof fn law_flush_consistent(s: StoreView, file: Seq<u8>)
    requires
        consistent(s, file),
    ensures
        !s.flushed().dirty,
        consistent(s.flushed(), apply(file, s.flush_writes())),
{
    let entries = stored(s, file);
    lemma_flush_effect(s, file, entries);
    lemma_stored(s.flushed(), apply(file, s.flush_writes()), entries);
    assert forall|i: int| 0 <= i < entries.len() implies tidy_entry(
        s.flushed(),
        #[trigger] entries[i],
    ) by {
        assert(tidy_entry(s, entries[i]));
    }
}

/// Storing and deleting leave the store clean, so both outlast a restart.
pub proof fn law_durable(
    s: StoreView,
    file: Seq<u8>,
    name: Seq<char>,
    data: Seq<u8>,
    content_type: Seq<char>,
    tags: Seq<char>,
    uuid: Seq<u8>,
    now: i64,
    key: Seq<char>,
)
    ensures
        ({
            let step = s.put_step(file, name, data, content_type, tags, uuid, now);
            step.result is Ok ==> !step.store.dirty
        }),
        s.delete_step(file, key).result is Ok ==> !s.delete_step(file, key).store.dirty,
{
}

/// A new store is consistent, clean and empty, and every block that is not
/// reserved is free.
pub proof fn law_create_consistent(
    block_size: u32,
    total_blocks: u64,
    max_objects: u64,
    now: i64,
)
    requires
        can_create(block_size, total_blocks, max_objects),
        StoreView::create_step(block_size, total_blocks, max_objects, now).result is Ok,
    ensures
        ({
            let step = StoreView::create_step(block_size, total_blocks, max_objects, now);
            let file = apply(Seq::empty(), step.writes);
            &&& consistent(step.store, file)
            &&& !step.store.dirty
            &&& step.store.sb.free_blocks == total_blocks - step.store.reserved_blocks()
            &&& step.store.list_result(file) == Ok::<_, ErrorView>(Seq::<ObjectInfoView>::empty())
        }),
{
    let s = StoreView::created(block_size, total_blocks, max_objects, now);
    let total = total_blocks as int;
    let none = Seq::<EntryView>::empty();
    let empty = Seq::<u8>::empty();
    assert(total_blocks * block_size >= 0) by (nonlinear_arith);
    assert(s.operable());
    lemma_block_fits(s, 0);
    lemma_block_fits(s, total);
    let reserved = s.reserved_blocks();
    assert(reserved >= 0) by {
        vstd::arithmetic::div_mod::lemma_div_pos_is_pos(
            s.data_offset() + s.sb.block_size - 1,
            s.sb.block_size as int,
        );
    }
    let blocks = slots_from(0, reserved as nat);
    let m = s.marked(blocks, true);
    let len = s.block_offset(total);
    let op1 = FileOpView::SetLen(len as u64);
    let op2 = FileOpView::Write { offset: 0u64, data: s.sb.encode() };
    let head = seq![op1, op2];
    let bits = bit_writes(s.bitmap, blocks, true);
    let last = seq![FileOpView::Write { offset: SUPER_BLOCK_SIZE, data: m.bitmap }];
    let f0 = apply_op(empty, op1);
    assert(head =~= seq![op1] + seq![op2]);
    lemma_apply_concat(empty, seq![op1], seq![op2]);
    lemma_apply_one(empty, op1);
    lemma_apply_one(f0, op2);
    s.sb.lemma_fields_len();
    lemma_write_inside(f0, 0, s.sb.encode());
    let f1 = apply(empty, head);
    assert(f1 == put_bytes(f0, 0, s.sb.encode()));
    assert(f1.subrange(SUPER_BLOCK_SIZE as int, SUPER_BLOCK_SIZE + s.bitmap.len()) =~= s.bitmap);
    assert(s.sb.magic@ =~= magic_bytes());
    assert(encode_all(none) == Seq::<u8>::empty());
    assert(f1.subrange(s.metadata_offset(), s.metadata_offset()) =~= encode_all(none));
    assert(f1.subrange(0, SUPER_BLOCK_SIZE as int) =~= s.sb.encode());
    assert(laid_out(s, f1, none));
    lemma_mark_effect(s, f1, none, blocks, true);
    let f2 = apply(f1, bits);
    lemma_apply_concat(empty, head, bits);
    lemma_apply_concat(empty, head + bits, last);
    lemma_apply_one(f2, last[0]);
    lemma_write_inside(f2, SUPER_BLOCK_SIZE, m.bitmap);
    let f3 = put_bytes(f2, SUPER_BLOCK_SIZE as int, m.bitmap);
    assert(f3 =~= f2) by {
        assert forall|i: int| 4096 <= i < 4096 + m.bitmap.len() implies f2[i] == m.bitmap[i - 4096] by {
            assert(f2.subrange(4096, (4096 + m.bitmap.len()) as int)[i - 4096] == f2[i]);
        }
    }
    let first = s.init_step();
    assert(first.writes =~= head + bits + last);
    assert(apply(empty, first.writes) == f3);
    assert(laid_out(first.store, f3, none));
    lemma_flush_effect(first.store, f3, none);
    lemma_apply_concat(empty, first.writes, first.store.flush_writes());
    let step = StoreView::create_step(block_size, total_blocks, max_objects, now);
    let file = apply(empty, step.writes);
    lemma_free_zeros(s.bitmap.len(), total_blocks as nat);
    assert forall|i: int| 0 <= i < blocks.len() implies #[trigger] blocks[i] < 8 * s.bitmap.len()
        && has_bit(s.bitmap, blocks[i] as int) != true by {
        lemma_zero_bit(s.bitmap.len(), blocks[i] as int);
    }
    lemma_flips_all(s.bitmap, blocks, true);
    lemma_free_count(s.bitmap, blocks, true, total_blocks as nat);
    lemma_stored(step.store, file, none);
    assert(shifted(with_positions(none), step.store.metadata_offset()) =~= Seq::empty());
}

proof fn lemma_live_infos_same(a: Seq<(EntryView, int)>, b: Seq<(EntryView, int)>)
    requires
        a.len() == b.len(),
        forall|i: int|
            0 <= i < a.len() ==> (#[trigger] a[i]).0.info() == b[i].0.info() && a[i].0.deleted()
                == b[i].0.deleted(),
    ensures
        live_infos(a) == live_infos(b),
    decreases a.len(),
{
    if a.len() > 0 {
        let fa = a.drop_last();
        let fb = b.drop_last();
        assert forall|i: int| 0 <= i < fa.len() implies (#[trigger] fa[i]).0.info() == fb[i].0.info()
            && fa[i].0.deleted() == fb[i].0.deleted() by {
            assert(fa[i] == a[i] && fb[i] == b[i]);
        }
        lemma_live_infos_same(fa, fb);
        assert(a[a.len() - 1].0.info() == b[b.len() - 1].0.info());
    }
}

/// Where a listed object comes from.
pub proof fn lemma_live_from(a: Seq<(EntryView, int)>, p: int) -> (i: int)
    requires
        0 <= p < live_infos(a).len(),
    ensures
        0 <= i < a.len(),
        !a[i].0.deleted(),
        live_infos(a)[p] == a[i].0.info(),
    decreases a.len(),
{
    if !a.last().0.deleted() && p == live_infos(a).len() - 1 {
        a.len() - 1
    } else {
        let i = lemma_live_from(a.drop_last(), p);
        assert(a.drop_last()[i] == a[i]);
        i
    }
}

/// Objects with different names are listed under different names.
proof fn lemma_live_names(a: Seq<(EntryView, int)>)
    requires
        forall|i: int, j: int|
            0 <= i < j < a.len() && !a[i].0.deleted() && !a[j].0.deleted() ==> (
            #[trigger] a[i]).0.name != (#[trigger] a[j]).0.name,
    ensures
        forall|p: int, q: int|
            0 <= p < q < live_infos(a).len() ==> (#[trigger] live_infos(a)[p]).name != (
            #[trigger] live_infos(a)[q]).name,
    decreases a.len(),
{
    if a.len() > 0 {
        let front = a.drop_last();
        assert forall|i: int, j: int|
            0 <= i < j < front.len() && !front[i].0.deleted() && !front[j].0.deleted() implies (
        #[trigger] front[i]).0.name != (#[trigger] front[j]).0.name by {
            assert(front[i] == a[i] && front[j] == a[j]);
        }
        lemma_live_names(front);
        assert forall|p: int, q: int| 0 <= p < q < live_infos(a).len() implies (
        #[trigger] live_infos(a)[p]).name != (#[trigger] live_infos(a)[q]).name by {
            if q < live_infos(front).len() {
                assert(live_infos(front)[p].name != live_infos(front)[q].name);
            } else {
                let i = lemma_live_from(front, p);
                assert(front[i] == a[i]);
                assert(a[i].0.name != a[a.len() - 1].0.name);
            }
        }
    }
}

proof fn lemma_live_len(a: Seq<(EntryView, int)>, entries: Seq<EntryView>)
    requires
        a.len() == entries.len(),
        forall|i: int| 0 <= i < a.len() ==> (#[trigger] a[i]).0 == entries[i],
    ensures
        live_infos(a).len() == live_count(entries),
    decreases a.len(),
{
    if a.len() > 0 {
        let front = a.drop_last();
        assert forall|i: int| 0 <= i < front.len() implies (#[trigger] front[i]).0
            == entries.drop_last()[i] by {
            assert(front[i] == a[i]);
        }
        lemma_live_len(front, entries.drop_last());
        assert(a[a.len() - 1].0 == entries[a.len() - 1]);
    }
}

/// The list of a consistent store holds as many objects as the store counts, all
/// under different names.
pub proof fn law_list_apart(s: StoreView, file: Seq<u8>)
    requires
        consistent(s, file),
    ensures
        s.list_result(file) is Ok,
        s.list_result(file)->Ok_0.len() == s.sb.object_count,
        forall|p: int, q: int|
            0 <= p < q < s.list_result(file)->Ok_0.len() ==> (#[trigger] s.list_result(
                file,
            )->Ok_0[p]).name != (#[trigger] s.list_result(file)->Ok_0[q]).name,
{
    let entries = stored(s, file);
    lemma_stored(s, file, entries);
    let a = s.scanned(file)->Ok_0;
    lemma_live_len(a, entries);
    assert forall|i: int, j: int|
        0 <= i < j < a.len() && !a[i].0.deleted() && !a[j].0.deleted() implies (
    #[trigger] a[i]).0.name != (#[trigger] a[j]).0.name by {
        assert(apart(entries[i], entries[j]));
    }
    lemma_live_names(a);
}

/// A stored object is listed last, after those that were listed before.
pub proof fn law_put_list(
    s: StoreView,
    file: Seq<u8>,
    name: Seq<char>,
    data: Seq<u8>,
    content_type: Seq<char>,
    tags: Seq<char>,
    uuid: Seq<u8>,
    now: i64,
)
    requires
        consistent(s, file),
        uuid.len() == 16,
        data.len() <= u64::MAX,
        short_texts(name, content_type, tags),
        s.can_record(name, data.len(), content_type, tags),
    ensures
        ({
            let step = s.put_step(file, name, data, content_type, tags, uuid, now);
            &&& s.list_result(file) is Ok
            &&& step.store.list_result(apply(file, step.writes)) == Ok::<_, ErrorView>(
                match step.result {
                    Ok(info) => s.list_result(file)->Ok_0.push(info),
                    Err(_) => s.list_result(file)->Ok_0,
                },
            )
        }),
{
    let entries = stored(s, file);
    lemma_put_effect(s, file, entries, name, data, content_type, tags, uuid, now);
    let step = s.put_step(file, name, data, content_type, tags, uuid, now);
    let t = step.store;
    let g = apply(file, step.writes);
    let e = put_entry(s, file, name, data, content_type, tags, uuid, now);
    lemma_stored(s, file, entries);
    let before = shifted(with_positions(entries), s.metadata_offset());
    assert(0u8 & META_FLAG_DELETED == 0) by (bit_vector);
    if step.result is Ok {
        let more = entries.push(e);
        lemma_stored(t, g, more);
        let after = shifted(with_positions(more), t.metadata_offset());
        lemma_live_infos_same(after.drop_last(), before);
    } else {
        lemma_stored(t, g, entries);
        lemma_live_infos_same(shifted(with_positions(entries), t.metadata_offset()), before);
    }
}

proof fn lemma_live_infos_strike(a: Seq<(EntryView, int)>, b: Seq<(EntryView, int)>, k: int) -> (p:
    int)
    requires
        0 <= k < a.len(),
        a.len() == b.len(),
        !a[k].0.deleted(),
        b[k].0.deleted(),
        forall|i: int| 0 <= i < a.len() && i != k ==> (#[trigger] a[i]).0 == b[i].0,
    ensures
        0 <= p < live_infos(a).len(),
        live_infos(a)[p] == a[k].0.info(),
        live_infos(b) == live_infos(a).remove(p),
    decreases a.len(),
{
    let fa = a.drop_last();
    let fb = b.drop_last();
    if k == a.len() - 1 {
        assert forall|i: int| 0 <= i < fa.len() implies (#[trigger] fa[i]).0.info() == fb[i].0.info()
            && fa[i].0.deleted() == fb[i].0.deleted() by {
            assert(a[i].0 == b[i].0);
        }
        lemma_live_infos_same(fa, fb);
        let p = live_infos(fa).len() as int;
        assert(live_infos(b) =~= live_infos(a).remove(p));
        p
    } else {
        assert forall|i: int| 0 <= i < fa.len() && i != k implies (#[trigger] fa[i]).0 == fb[i].0 by {
            assert(a[i].0 == b[i].0);
        }
        let p = lemma_live_infos_strike(fa, fb, k);
        assert(a[a.len() - 1].0 == b[b.len() - 1].0);
        assert(live_infos(b) =~= live_infos(a).remove(p));
        p
    }
}

/// Deleting an object takes it, and nothing else, off the list.
#[verifier::rlimit(40)]
pub proof fn law_delete_list(s: StoreView, file: Seq<u8>, key: Seq<char>)
    requires
        consistent(s, file),
        s.delete_step(file, key).result is Ok,
    ensures
        ({
            let step = s.delete_step(file, key);
            let before = s.list_result(file)->Ok_0;
            let info = (s.lookup(file, key)->Ok_0->0).0.info();
            &&& s.list_result(file) is Ok
            &&& exists|p: int|
                {
                    &&& 0 <= p < before.len()
                    &&& before[p] == info
                    &&& step.store.list_result(apply(file, step.writes)) == Ok::<_, ErrorView>(
                        #[trigger] before.remove(p),
                    )
                }
        }),
{
    let entries = stored(s, file);
    lemma_lookup(s, file, entries, key);
    lemma_stored(s, file, entries);
    let k = index_of(entries, key);
    lemma_delete_effect(s, file, entries, key, k);
    let step = s.delete_step(file, key);
    let g = apply(file, step.writes);
    let after = entries.update(k, struck(entries[k]));
    lemma_stored(step.store, g, after);
    let a = shifted(with_positions(entries), s.metadata_offset());
    let b = shifted(with_positions(after), step.store.metadata_offset());
    assert forall|i: int| 0 <= i < a.len() && i != k implies (#[trigger] a[i]).0 == b[i].0 by {
        assert(after[i] == entries[i]);
    }
    assert(a[k].0 == entries[k] && b[k].0 == struck(entries[k]));
    let p = lemma_live_infos_strike(a, b, k);
    let before = s.list_result(file)->Ok_0;
    assert(before == live_infos(a));
    assert(before.remove(p) == live_infos(b));
}

/// Deleting an object that was just stored gives its room back: the bitmap and
/// the counts are those before it was stored.
pub proof fn law_put_delete_restores(
    s: StoreView,
    file: Seq<u8>,
    name: Seq<char>,
    data: Seq<u8>,
    content_type: Seq<char>,
    tags: Seq<char>,
    uuid: Seq<u8>,
    now: i64,
    key: Seq<char>,
)
    requires
        consistent(s, file),
        uuid.len() == 16,
        data.len() <= u64::MAX,
        short_texts(name, content_type, tags),
        s.can_record(name, data.len(), content_type, tags),
        s.put_step(file, name, data, content_type, tags, uuid, now).result is Ok,
        key == name || parsed_uuid(key) == Some(uuid),
        forall|i: int|
            0 <= i < stored(s, file).len() ==> !identified_by(#[trigger] stored(s, file)[i], key),
    ensures
        ({
            let put = s.put_step(file, name, data, content_type, tags, uuid, now);
            let del = put.store.delete_step(apply(file, put.writes), key);
            &&& del.result is Ok
            &&& del.store.bitmap == s.bitmap
            &&& del.store.sb.free_blocks == s.sb.free_blocks
            &&& del.store.sb.object_count == s.sb.object_count
        }),
{
    let entries = stored(s, file);
    lemma_put_effect(s, file, entries, name, data, content_type, tags, uuid, now);
    let put = s.put_step(file, name, data, content_type, tags, uuid, now);
    let t = put.store;
    let g = apply(file, put.writes);
    let e = put_entry(s, file, name, data, content_type, tags, uuid, now);
    let more = entries.push(e);
    assert(0u8 & META_FLAG_DELETED == 0) by (bit_vector);
    lemma_lookup(t, g, more, key);
    let k = index_of(more, key);
    lemma_finds_last(s, file, entries, e, key);
    lemma_finds_one(more, key, k, entries.len() as int);
    lemma_delete_effect(t, g, more, key, k);
    law_mark_unmark(s.bitmap, e.block_pointers);
}

} // verus!
