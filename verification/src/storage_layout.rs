//! Where everything stands in the file of a store, whatever the metadata area holds.
use crate::bitmap::with_bits;
use crate::bytes::put_bytes;
use crate::error::ErrorView;
use crate::metadata::{lemma_encode_len, META_FLAG_DELETED};
use crate::storage::{
    apply, apply_op, bit_writes, blocks_for, byte_at, chosen_blocks, in_range_from,
    lemma_block_fits, lemma_blocks_for, lemma_chosen_blocks, lemma_lookup_place, padded_chunk,
    FileOpView, StoreView,
};
use crate::superblock::{magic_bytes, SuperBlock, SUPER_BLOCK_SIZE, VERSION};
use vstd::prelude::*;

verus! {

/// The bytes of block `b`.
pub open spec fn block_bytes(s: StoreView, file: Seq<u8>, b: int) -> Seq<u8> {
    file.subrange(s.block_offset(b), s.block_offset(b) + s.sb.block_size)
}

/// A write inside the file changes those bytes.
pub proof fn lemma_write_inside(file: Seq<u8>, offset: u64, data: Seq<u8>)
    requires
        offset + data.len() <= file.len(),
    ensures
        apply_op(file, FileOpView::Write { offset, data }) == put_bytes(file, offset as int, data),
{
    assert(apply_op(file, FileOpView::Write { offset, data }) =~= put_bytes(
        file,
        offset as int,
        data,
    ));
}

/// Changes are made one after the other.
pub proof fn lemma_apply_concat(file: Seq<u8>, a: Seq<FileOpView>, b: Seq<FileOpView>)
    ensures
        apply(file, a + b) == apply(apply(file, a), b),
    decreases b.len(),
{
    if b.len() == 0 {
        assert(a + b =~= a);
    } else {
        lemma_apply_concat(file, a, b.drop_last());
        assert((a + b).drop_last() =~= a + b.drop_last());
    }
}

/// A single change.
pub proof fn lemma_apply_one(file: Seq<u8>, op: FileOpView)
    ensures
        apply(file, seq![op]) == apply_op(file, op),
{
    assert(seq![op].drop_last() =~= Seq::empty());
    assert(apply(file, Seq::empty()) == file);
}

/// Marking blocks writes the new bitmap.
pub proof fn lemma_apply_bits(file: Seq<u8>, bits: Seq<u8>, blocks: Seq<u64>, used: bool)
    requires
        SUPER_BLOCK_SIZE + bits.len() <= file.len() <= u64::MAX,
        file.subrange(SUPER_BLOCK_SIZE as int, SUPER_BLOCK_SIZE + bits.len()) == bits,
        forall|i: int| 0 <= i < blocks.len() ==> #[trigger] blocks[i] < 8 * bits.len(),
    ensures
        with_bits(bits, blocks, used).len() == bits.len(),
        apply(file, bit_writes(bits, blocks, used)) == put_bytes(
            file,
            SUPER_BLOCK_SIZE as int,
            with_bits(bits, blocks, used),
        ),
    decreases blocks.len(),
{
    if blocks.len() == 0 {
        assert(put_bytes(file, SUPER_BLOCK_SIZE as int, bits) =~= file) by {
            assert forall|i: int| 4096 <= i < 4096 + bits.len() implies file[i] == bits[i
                - 4096] by {
                assert(file.subrange(4096, (4096 + bits.len()) as int)[i - 4096] == file[i]);
            }
        }
    } else {
        let front = blocks.drop_last();
        let last = blocks.last();
        assert(blocks[blocks.len() - 1] < 8 * bits.len());
        assert forall|i: int| 0 <= i < front.len() implies #[trigger] front[i] < 8 * bits.len() by {
            assert(front[i] == blocks[i]);
        }
        lemma_apply_bits(file, bits, front, used);
        let old_bits = with_bits(bits, front, used);
        let new_bits = with_bits(bits, blocks, used);
        let f1 = put_bytes(file, SUPER_BLOCK_SIZE as int, old_bits);
        let offset = (SUPER_BLOCK_SIZE + last / 8) as u64;
        let data = seq![new_bits[last as int / 8]];
        let ops = bit_writes(bits, blocks, used);
        assert(ops.drop_last() =~= bit_writes(bits, front, used));
        lemma_write_inside(f1, offset, data);
        assert(put_bytes(f1, offset as int, data) =~= put_bytes(
            file,
            SUPER_BLOCK_SIZE as int,
            new_bits,
        ));
    }
}

/// Different blocks do not overlap, and all of them lie inside the file.
pub proof fn lemma_blocks_apart(s: StoreView, a: int, b: int)
    requires
        s.operable(),
        0 <= a < s.sb.total_blocks,
        0 <= b < s.sb.total_blocks,
        a != b,
    ensures
        s.block_offset(a) + s.sb.block_size <= s.block_offset(b) || s.block_offset(b)
            + s.sb.block_size <= s.block_offset(a),
{
    let n = s.sb.block_size as int;
    assert(a < b ==> a * n + n <= b * n) by (nonlinear_arith)
        requires
            n > 0,
    ;
    assert(b < a ==> b * n + n <= a * n) by (nonlinear_arith)
        requires
            n > 0,
    ;
}

/// A block lies behind the metadata area and inside the file.
pub proof fn lemma_block_inside(s: StoreView, a: int)
    requires
        s.operable(),
        0 <= a < s.sb.total_blocks,
    ensures
        s.data_offset() <= s.block_offset(a),
        s.block_offset(a) + s.sb.block_size <= s.block_offset(s.sb.total_blocks as int),
{
    lemma_block_fits(s, a);
    lemma_block_fits(s, a + 1);
    let n = s.sb.block_size as int;
    assert(a * n + n == (a + 1) * n) by (nonlinear_arith);
}

/// Whether no block occurs twice.
pub open spec fn distinct(blocks: Seq<u64>) -> bool {
    forall|i: int, j: int| 0 <= i < j < blocks.len() ==> blocks[i] != blocks[j]
}

/// Writing data into blocks changes those blocks alone.
pub proof fn lemma_apply_blocks(s: StoreView, file: Seq<u8>, blocks: Seq<u64>, data: Seq<u8>, k: int)
    requires
        s.operable(),
        file.len() == s.block_offset(s.sb.total_blocks as int),
        0 <= k <= blocks.len(),
        forall|i: int| 0 <= i < blocks.len() ==> #[trigger] blocks[i] < s.sb.total_blocks,
        distinct(blocks),
    ensures
        ({
            let f = apply(file, s.block_writes(blocks, data).take(k));
            &&& f.len() == file.len()
            &&& forall|i: int| 0 <= i < s.data_offset() ==> f[i] == file[i]
            &&& forall|j: int|
                0 <= j < k ==> block_bytes(s, f, #[trigger] blocks[j] as int) == padded_chunk(
                    data,
                    j,
                    s.sb.block_size as int,
                )
            &&& forall|b: int|
                0 <= b < s.sb.total_blocks && (forall|j: int| 0 <= j < k ==> blocks[j] != b)
                    ==> #[trigger] block_bytes(s, f, b) == block_bytes(s, file, b)
        }),
    decreases k,
{
    let ops = s.block_writes(blocks, data).take(k);
    let f = apply(file, ops);
    if k > 0 {
        lemma_apply_blocks(s, file, blocks, data, k - 1);
        let front = s.block_writes(blocks, data).take(k - 1);
        assert(ops.drop_last() =~= front);
        let g = apply(file, front);
        let b0 = blocks[k - 1] as int;
        lemma_block_inside(s, b0);
        let at = s.block_offset(b0);
        let chunk = padded_chunk(data, k - 1, s.sb.block_size as int);
        assert(ops.last() == FileOpView::Write { offset: at as u64, data: chunk });
        lemma_write_inside(g, at as u64, chunk);
        assert(f == put_bytes(g, at, chunk));
        assert(block_bytes(s, f, b0) =~= chunk);
        assert forall|b: int| 0 <= b < s.sb.total_blocks && b != b0 implies #[trigger] block_bytes(
            s,
            f,
            b,
        ) == block_bytes(s, g, b) by {
            lemma_blocks_apart(s, b, b0);
            lemma_block_inside(s, b);
            assert(block_bytes(s, f, b) =~= block_bytes(s, g, b));
        }
        assert forall|j: int| 0 <= j < k implies block_bytes(s, f, #[trigger] blocks[j] as int)
            == padded_chunk(data, j, s.sb.block_size as int) by {
            if j < k - 1 {
                assert(blocks[j] != blocks[k - 1]);
            }
        }
        assert forall|b: int|
            0 <= b < s.sb.total_blocks && (forall|j: int|
                0 <= j < k ==> blocks[j] != b) implies #[trigger] block_bytes(s, f, b)
            == block_bytes(s, file, b) by {
            assert(blocks[k - 1] != b);
            assert(block_bytes(s, g, b) == block_bytes(s, file, b));
        }
    }
}

/// Whether both stores lay their blocks out in the same way.
pub open spec fn same_layout(s: StoreView, t: StoreView) -> bool {
    &&& s.sb.block_size == t.sb.block_size
    &&& s.sb.total_blocks == t.sb.total_blocks
    &&& s.sb.bitmap_size == t.sb.bitmap_size
    &&& s.sb.max_metadata_area_size == t.sb.max_metadata_area_size
}

/// What is read depends on the bytes of the blocks alone.
pub proof fn lemma_read_same(s: StoreView, f: Seq<u8>, t: StoreView, g: Seq<u8>, blocks: Seq<u64>)
    requires
        same_layout(s, t),
        f.len() == g.len(),
        forall|i: int|
            0 <= i < blocks.len() ==> block_bytes(s, f, #[trigger] blocks[i] as int)
                == block_bytes(s, g, blocks[i] as int),
    ensures
        s.read_blocks(f, blocks) == t.read_blocks(g, blocks),
    decreases blocks.len(),
{
    if blocks.len() > 0 {
        let front = blocks.drop_last();
        assert forall|i: int| 0 <= i < front.len() implies block_bytes(
            s,
            f,
            #[trigger] front[i] as int,
        ) == block_bytes(s, g, front[i] as int) by {
            assert(front[i] == blocks[i]);
        }
        lemma_read_same(s, f, t, g, front);
        let b = blocks[blocks.len() - 1] as int;
        assert(block_bytes(s, f, b) == block_bytes(s, g, b));
        assert(s.block_offset(b) == t.block_offset(b));
    }
}

/// Data that was written into blocks is read back from them.
pub proof fn lemma_read_chunks(s: StoreView, f: Seq<u8>, blocks: Seq<u64>, data: Seq<u8>)
    requires
        s.operable(),
        f.len() == s.block_offset(s.sb.total_blocks as int),
        forall|i: int| 0 <= i < blocks.len() ==> #[trigger] blocks[i] < s.sb.total_blocks,
        forall|i: int|
            0 <= i < blocks.len() ==> block_bytes(s, f, #[trigger] blocks[i] as int)
                == padded_chunk(data, i, s.sb.block_size as int),
    ensures
        s.read_blocks(f, blocks) == Some(
            Seq::new((blocks.len() * s.sb.block_size) as nat, |j: int| byte_at(data, j)),
        ),
    decreases blocks.len(),
{
    let n = s.sb.block_size as int;
    let whole = Seq::new((blocks.len() * n) as nat, |j: int| byte_at(data, j));
    assert(blocks.len() * n >= 0) by (nonlinear_arith)
        requires
            n > 0,
    ;
    if blocks.len() == 0 {
        assert(whole =~= Seq::empty());
    } else {
        let front = blocks.drop_last();
        assert forall|i: int| 0 <= i < front.len() implies #[trigger] front[i]
            < s.sb.total_blocks && block_bytes(s, f, front[i] as int) == padded_chunk(
            data,
            i,
            n,
        ) by {
            assert(front[i] == blocks[i]);
        }
        lemma_read_chunks(s, f, front, data);
        let k = blocks.len() - 1;
        let b = blocks[k] as int;
        lemma_block_inside(s, b);
        assert(blocks.len() * n == k * n + n) by (nonlinear_arith)
            requires
                k == blocks.len() - 1,
        ;
        assert(k * n >= 0) by (nonlinear_arith)
            requires
                k >= 0,
                n > 0,
        ;
        assert(block_bytes(s, f, b) == padded_chunk(data, k, n));
        let head = Seq::new((front.len() * n) as nat, |j: int| byte_at(data, j));
        assert(whole =~= head + padded_chunk(data, k, n));
    }
}

/// Bytes that are the same one by one are the same.
pub proof fn lemma_same_bytes(f: Seq<u8>, g: Seq<u8>, from: int, to: int)
    requires
        0 <= from <= to <= f.len(),
        to <= g.len(),
        forall|i: int| from <= i < to ==> f[i] == g[i],
    ensures
        f.subrange(from, to) == g.subrange(from, to),
{
    assert(f.subrange(from, to) =~= g.subrange(from, to));
}

/// Whether everything has its place in the file: the file has its full length, the
/// bitmap stands in it, and so does the superblock unless the store is dirty.
pub open spec fn placed(s: StoreView, file: Seq<u8>) -> bool {
    &&& s.operable()
    &&& s.sb.magic@ == magic_bytes()
    &&& s.sb.version == VERSION
    &&& s.sb.metadata_area_size <= s.sb.max_metadata_area_size
    &&& file.len() == s.block_offset(s.sb.total_blocks as int)
    &&& file.subrange(SUPER_BLOCK_SIZE as int, SUPER_BLOCK_SIZE + s.bitmap.len()) == s.bitmap
    &&& !s.dirty ==> file.subrange(0, SUPER_BLOCK_SIZE as int) == s.sb.encode()
}

/// What is written behind the bitmap leaves superblock and bitmap in their places.
proof fn lemma_placed_behind(s: StoreView, file: Seq<u8>, g: Seq<u8>)
    requires
        placed(s, file),
        g.len() == file.len(),
        forall|i: int| 0 <= i < s.metadata_offset() ==> g[i] == file[i],
    ensures
        placed(s, g),
{
    lemma_block_fits(s, 0);
    lemma_same_bytes(g, file, SUPER_BLOCK_SIZE as int, SUPER_BLOCK_SIZE + s.bitmap.len());
    lemma_same_bytes(g, file, 0, SUPER_BLOCK_SIZE as int);
}

/// Marking blocks leaves everything in its place.
proof fn lemma_placed_mark(s: StoreView, file: Seq<u8>, blocks: Seq<u64>, used: bool)
    requires
        placed(s, file),
        forall|i: int| 0 <= i < blocks.len() ==> #[trigger] blocks[i] < s.sb.total_blocks,
    ensures
        placed(s.marked(blocks, used), apply(file, bit_writes(s.bitmap, blocks, used))),
{
    lemma_block_fits(s, 0);
    let bits = with_bits(s.bitmap, blocks, used);
    let f = apply(file, bit_writes(s.bitmap, blocks, used));
    lemma_apply_bits(file, s.bitmap, blocks, used);
    assert(f.subrange(SUPER_BLOCK_SIZE as int, SUPER_BLOCK_SIZE + bits.len()) =~= bits);
    lemma_same_bytes(f, file, 0, SUPER_BLOCK_SIZE as int);
}

/// A flush leaves everything in its place, and changes nothing behind the bitmap.
pub proof fn law_placed_flush(s: StoreView, file: Seq<u8>)
    requires
        placed(s, file),
    ensures
        placed(s.flushed(), apply(file, s.flush_writes())),
        forall|i: int|
            s.metadata_offset() <= i < file.len() ==> #[trigger] apply(file, s.flush_writes())[i]
                == file[i],
{
    let f = apply(file, s.flush_writes());
    lemma_block_fits(s, 0);
    if s.dirty {
        let ops = s.flush_writes();
        let one = seq![FileOpView::Write { offset: 0u64, data: s.sb.encode() }];
        let two = seq![FileOpView::Write { offset: SUPER_BLOCK_SIZE, data: s.bitmap }];
        assert(ops =~= one + two);
        lemma_apply_concat(file, one, two);
        lemma_apply_one(file, one[0]);
        lemma_apply_one(apply(file, one), two[0]);
        s.sb.lemma_fields_len();
        lemma_write_inside(file, 0, s.sb.encode());
        let g = put_bytes(file, 0, s.sb.encode());
        lemma_write_inside(g, SUPER_BLOCK_SIZE, s.bitmap);
        assert(f == put_bytes(g, SUPER_BLOCK_SIZE as int, s.bitmap));
        assert(f.subrange(0, SUPER_BLOCK_SIZE as int) =~= s.sb.encode());
        assert(f.subrange(SUPER_BLOCK_SIZE as int, SUPER_BLOCK_SIZE + s.bitmap.len()) =~= s.bitmap);
    } else {
        assert(f == file);
    }
}

/// What is read of blocks depends on the bytes behind the metadata area alone.
proof fn lemma_read_behind(s: StoreView, f: Seq<u8>, g: Seq<u8>, blocks: Seq<u64>)
    requires
        f.len() == g.len(),
        s.metadata_offset() >= 0,
        forall|i: int| s.metadata_offset() <= i < f.len() ==> f[i] == g[i],
    ensures
        s.read_blocks(f, blocks) == s.flushed().read_blocks(g, blocks),
    decreases blocks.len(),
{
    if blocks.len() > 0 {
        lemma_read_behind(s, f, g, blocks.drop_last());
        let b = blocks.last() as int;
        let at = s.block_offset(b);
        assert(b * s.sb.block_size >= 0) by (nonlinear_arith)
            requires
                b >= 0,
        ;
        assert(s.flushed().block_offset(b) == at);
        if at + s.sb.block_size <= f.len() {
            lemma_same_bytes(f, g, at, at + s.sb.block_size);
        }
    }
}

/// The first half of storing an object leaves everything in its place.
proof fn lemma_placed_reserve(s: StoreView, file: Seq<u8>, name: Seq<char>, data: Seq<u8>)
    requires
        placed(s, file),
    ensures
        ({
            let step = s.reserve_step(file, name, data);
            placed(step.store, apply(file, step.writes))
        }),
{
    let step = s.reserve_step(file, name, data);
    let needed = blocks_for(data.len() as int, s.sb.block_size as int);
    let blocks = chosen_blocks(s.bitmap, s.sb.total_blocks as int, needed);
    lemma_blocks_for(data.len() as int, s.sb.block_size as int);
    lemma_chosen_blocks(s.bitmap, s.sb.total_blocks as nat, needed);
    lemma_block_fits(s, 0);
    if s.name_taken(file, name) || s.sb.free_blocks < needed {
        assert(apply(file, Seq::empty()) == file);
    } else {
        let ops = bit_writes(s.bitmap, blocks, true);
        let f1 = apply(file, ops);
        lemma_placed_mark(s, file, blocks, true);
        if blocks.len() >= needed {
            let all = s.block_writes(blocks, data);
            lemma_apply_concat(file, ops, all);
            lemma_apply_blocks(s, f1, blocks, data, blocks.len() as int);
            assert(all.take(blocks.len() as int) =~= all);
            lemma_placed_behind(s.marked(blocks, true), f1, apply(f1, all));
        }
    }
}

/// Storing an object leaves everything in its place, whether it succeeds or not and
/// however long its texts are.
pub proof fn law_placed_put(
    s: StoreView,
    file: Seq<u8>,
    name: Seq<char>,
    data: Seq<u8>,
    content_type: Seq<char>,
    tags: Seq<char>,
    uuid: Seq<u8>,
    now: i64,
)
    requires
        placed(s, file),
        uuid.len() == 16,
    ensures
        ({
            let step = s.put_step(file, name, data, content_type, tags, uuid, now);
            placed(step.store, apply(file, step.writes))
        }),
{
    let first = s.reserve_step(file, name, data);
    lemma_placed_reserve(s, file, name, data);
    if let Ok(blocks) = first.result {
        let t = first.store;
        let f = apply(file, first.writes);
        let entry = StoreView::new_entry(name, data.len(), content_type, tags, blocks, uuid, now);
        let second = t.record_step(entry);
        lemma_apply_concat(file, first.writes, second.writes);
        lemma_encode_len(entry);
        lemma_block_fits(t, 0);
        if second.result is Ok {
            let len = entry.encoded_len();
            let at = t.metadata_offset() + t.sb.metadata_area_size;
            let after = StoreView {
                sb: SuperBlock {
                    metadata_area_size: (t.sb.metadata_area_size + len) as u64,
                    object_count: (t.sb.object_count + 1) as u64,
                    ..t.sb
                },
                dirty: true,
                ..t
            };
            let one = seq![FileOpView::Write { offset: at as u64, data: entry.encode() }];
            let g = put_bytes(f, at, entry.encode());
            lemma_write_inside(f, at as u64, entry.encode());
            lemma_apply_one(f, one[0]);
            lemma_apply_concat(f, one, after.flush_writes());
            assert(second.writes =~= one + after.flush_writes());
            lemma_placed_behind(t, f, g);
            assert(placed(after, g));
            law_placed_flush(after, g);
        } else {
            assert(apply(f, Seq::empty()) == f);
        }
    }
}

/// The pointers that are counted are below `total`.
proof fn lemma_in_range_front(pointers: Seq<u64>, total: u64, i: int)
    requires
        0 <= i <= pointers.len(),
    ensures
        i <= in_range_from(pointers, total, i) <= pointers.len(),
        forall|j: int| i <= j < in_range_from(pointers, total, i) ==> #[trigger] pointers[j] < total,
    decreases pointers.len() - i,
{
    if i < pointers.len() && pointers[i] < total {
        lemma_in_range_front(pointers, total, i + 1);
    }
}

/// Deleting leaves everything in its place, whether it succeeds or not and whatever
/// the metadata area holds, as long as it can be read through.
pub proof fn law_placed_delete(s: StoreView, file: Seq<u8>, key: Seq<char>)
    requires
        placed(s, file),
        s.scannable(file),
    ensures
        placed(s.delete_step(file, key).store, apply(file, s.delete_step(file, key).writes)),
{
    let step = s.delete_step(file, key);
    lemma_block_fits(s, 0);
    assert(apply(file, Seq::empty()) == file);
    if let Ok(Some((e, at))) = s.lookup(file, key) {
        lemma_lookup_place(s, file, key);
        let n = in_range_from(e.block_pointers, s.sb.total_blocks, 0);
        lemma_in_range_front(e.block_pointers, s.sb.total_blocks, 0);
        let freed = e.block_pointers.take(n);
        assert forall|i: int| 0 <= i < freed.len() implies #[trigger] freed[i]
            < s.sb.total_blocks by {
            assert(freed[i] == e.block_pointers[i]);
        }
        lemma_placed_mark(s, file, freed, false);
        if n == e.block_pointers.len() {
            assert(freed =~= e.block_pointers);
            let m = s.marked(freed, false);
            let bits = bit_writes(s.bitmap, freed, false);
            let f1 = apply(file, bits);
            let one = seq![
                FileOpView::Write { offset: (at + 16) as u64, data: seq![META_FLAG_DELETED] },
            ];
            let t = StoreView {
                sb: SuperBlock {
                    free_blocks: (s.sb.free_blocks + freed.len()) as u64,
                    object_count: (s.sb.object_count - 1) as u64,
                    ..s.sb
                },
                dirty: true,
                ..m
            };
            assert(step.writes =~= bits + one + t.flush_writes());
            lemma_apply_concat(file, bits + one, t.flush_writes());
            lemma_apply_concat(file, bits, one);
            lemma_apply_one(f1, one[0]);
            lemma_write_inside(f1, (at + 16) as u64, seq![META_FLAG_DELETED]);
            let f2 = put_bytes(f1, at + 16, seq![META_FLAG_DELETED]);
            lemma_placed_behind(m, f1, f2);
            assert(placed(t, f2));
            law_placed_flush(t, f2);
        }
    }
}

/// A flush changes nothing that can be seen of the store: neither its figures nor
/// its list nor what a key denotes.
pub proof fn law_flush_keeps(s: StoreView, file: Seq<u8>, key: Seq<char>)
    requires
        placed(s, file),
    ensures
        s.flushed().sb == s.sb,
        s.flushed().list_result(apply(file, s.flush_writes())) == s.list_result(file),
        s.flushed().get_result(apply(file, s.flush_writes()), key) == s.get_result(file, key),
        s.flushed().info_result(apply(file, s.flush_writes()), key) == s.info_result(file, key),
{
    let t = s.flushed();
    let g = apply(file, s.flush_writes());
    law_placed_flush(s, file);
    lemma_block_fits(s, 0);
    lemma_same_bytes(
        g,
        file,
        s.metadata_offset(),
        s.metadata_offset() + s.sb.metadata_area_size,
    );
    assert(t.meta_bytes(g) == s.meta_bytes(file));
    if let Ok(Some((e, _))) = s.lookup(file, key) {
        lemma_read_behind(s, file, g, e.block_pointers);
    }
}

/// A clean store is found again: loading its file yields the same store.
pub proof fn law_reopen(s: StoreView, file: Seq<u8>)
    requires
        placed(s, file),
        !s.dirty,
    ensures
        file.len() > 0,
        StoreView::load_result(file, s.sb.block_size) == Ok::<_, ErrorView>(s),
{
    s.sb.law_round_trip();
    lemma_block_fits(s, 0);
}

} // verus!
