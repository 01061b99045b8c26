//! How the store file and the shared memory are laid out, byte by byte.
use crate::bitmap::{
    first_run, free_slots, has_bit, lemma_first_run, lemma_free_slots, run_free, slots_from,
};
use crate::bytes::{
    be_bytes, be_value, le_bytes, le_value, lemma_byte_ranges, lemma_le_bytes_len,
    lemma_le_bytes_of_value, lemma_le_value_bound, signed_bits, zeros,
};
use crate::metadata::{pointer_bytes, EntryView};
use crate::shm::ShmHeader;
use crate::storage::{chosen_blocks, StoreView};
use crate::superblock::{bitmap_size_for, SuperBlock};
use vstd::prelude::*;
use vstd::utf8::*;

verus! {

/// 256 to the power `i`.
pub open spec fn power(i: nat) -> nat
    decreases i,
{
    if i == 0 {
        1
    } else {
        256 * power((i - 1) as nat)
    }
}

proof fn lemma_power(i: nat)
    ensures
        power(i) > 0,
    decreases i,
{
    if i > 0 {
        lemma_power((i - 1) as nat);
    }
}

/// Byte `i` of a number is its digit `i` to the base 256: the lowest comes first.
pub proof fn law_low_first(x: nat, n: nat, i: int)
    requires
        0 <= i < n,
    ensures
        le_bytes(x, n).len() == n,
        le_bytes(x, n)[i] as nat == x / power(i as nat) % 256,
    decreases n,
{
    lemma_le_bytes_len(x, n);
    if i > 0 {
        law_low_first(x / 256, (n - 1) as nat, i - 1);
        lemma_power((i - 1) as nat);
        vstd::arithmetic::div_mod::lemma_div_denominator(
            x as int,
            256,
            power((i - 1) as nat) as int,
        );
        assert(le_bytes(x, n)[i] == le_bytes(x / 256, (n - 1) as nat)[i - 1]);
    } else {
        assert(x / 1 == x);
    }
}

/// In messages the highest byte of a number comes first.
pub proof fn law_high_first(x: nat, n: nat, i: int)
    requires
        0 <= i < n,
    ensures
        be_bytes(x, n).len() == n,
        be_bytes(x, n)[n - 1 - i] as nat == x / power(i as nat) % 256,
{
    law_low_first(x, n, i);
    lemma_le_bytes_len(x, n);
}

/// A number is read as it was written: its digits to the base 256 are the bytes.
pub proof fn law_read(s: Seq<u8>, i: int)
    requires
        0 <= i < s.len(),
    ensures
        le_value(s) / power(i as nat) % 256 == s[i] as nat,
        be_value(s) / power(i as nat) % 256 == s[s.len() - 1 - i] as nat,
{
    lemma_le_bytes_of_value(s);
    law_low_first(le_value(s), s.len(), i);
    let r = s.reverse();
    lemma_le_bytes_of_value(r);
    law_low_first(le_value(r), r.len(), i);
}

/// 2 to the power `k`, for a bit of a byte.
pub open spec fn bit_value(k: int) -> nat {
    if k == 0 {
        1
    } else if k == 1 {
        2
    } else if k == 2 {
        4
    } else if k == 3 {
        8
    } else if k == 4 {
        16
    } else if k == 5 {
        32
    } else if k == 6 {
        64
    } else {
        128
    }
}

/// Slot `n` of a bitmap is bit `n % 8` of byte `n / 8`, the lowest bit first.
pub proof fn law_slot(bits: Seq<u8>, n: int)
    requires
        0 <= n < 8 * bits.len(),
    ensures
        has_bit(bits, n) <==> bits[n / 8] as nat / bit_value(n % 8) % 2 == 1,
{
    let b = bits[n / 8];
    assert((b >> 0u8) & 1u8 == 1u8 <==> b / 1u8 % 2u8 == 1u8) by (bit_vector);
    assert((b >> 1u8) & 1u8 == 1u8 <==> b / 2u8 % 2u8 == 1u8) by (bit_vector);
    assert((b >> 2u8) & 1u8 == 1u8 <==> b / 4u8 % 2u8 == 1u8) by (bit_vector);
    assert((b >> 3u8) & 1u8 == 1u8 <==> b / 8u8 % 2u8 == 1u8) by (bit_vector);
    assert((b >> 4u8) & 1u8 == 1u8 <==> b / 16u8 % 2u8 == 1u8) by (bit_vector);
    assert((b >> 5u8) & 1u8 == 1u8 <==> b / 32u8 % 2u8 == 1u8) by (bit_vector);
    assert((b >> 6u8) & 1u8 == 1u8 <==> b / 64u8 % 2u8 == 1u8) by (bit_vector);
    assert((b >> 7u8) & 1u8 == 1u8 <==> b / 128u8 % 2u8 == 1u8) by (bit_vector);
    let k = n % 8;
    assert(k == 0 || k == 1 || k == 2 || k == 3 || k == 4 || k == 5 || k == 6 || k == 7);
}

/// The superblock fills 4096 bytes: the mark, the fields one behind the other, and zeros.
pub proof fn law_superblock_layout(sb: SuperBlock)
    ensures
        ({
            let b = sb.encode();
            &&& b.len() == 4096
            &&& b.subrange(0, 4) == sb.magic@
            &&& b.subrange(4, 8) == le_bytes(sb.version as nat, 4)
            &&& b.subrange(8, 12) == le_bytes(sb.block_size as nat, 4)
            &&& b.subrange(12, 20) == le_bytes(sb.total_blocks as nat, 8)
            &&& b.subrange(20, 28) == le_bytes(sb.free_blocks as nat, 8)
            &&& b.subrange(28, 36) == le_bytes(sb.object_count as nat, 8)
            &&& b.subrange(36, 44) == le_bytes(sb.metadata_area_size as nat, 8)
            &&& b.subrange(44, 52) == le_bytes(sb.max_metadata_area_size as nat, 8)
            &&& b.subrange(52, 60) == le_bytes(sb.bitmap_size as nat, 8)
            &&& sb.created_at >= 0 ==> b.subrange(60, 68) == le_bytes(sb.created_at as nat, 8)
            &&& b.subrange(68, 72) == le_bytes(sb.flags as nat, 4)
            &&& forall|i: int| 72 <= i < 4096 ==> #[trigger] b[i] == 0
        }),
{
    let b = sb.encode();
    lemma_le_bytes_len(sb.version as nat, 4);
    lemma_le_bytes_len(sb.block_size as nat, 4);
    lemma_le_bytes_len(sb.total_blocks as nat, 8);
    lemma_le_bytes_len(sb.free_blocks as nat, 8);
    lemma_le_bytes_len(sb.object_count as nat, 8);
    lemma_le_bytes_len(sb.metadata_area_size as nat, 8);
    lemma_le_bytes_len(sb.max_metadata_area_size as nat, 8);
    lemma_le_bytes_len(sb.bitmap_size as nat, 8);
    lemma_le_bytes_len(signed_bits(sb.created_at), 8);
    lemma_le_bytes_len(sb.flags as nat, 4);
    assert(sb.fields().len() == 72);
    assert(b.subrange(0, 4) =~= sb.magic@);
    assert(b.subrange(4, 8) =~= le_bytes(sb.version as nat, 4));
    assert(b.subrange(8, 12) =~= le_bytes(sb.block_size as nat, 4));
    assert(b.subrange(12, 20) =~= le_bytes(sb.total_blocks as nat, 8));
    assert(b.subrange(20, 28) =~= le_bytes(sb.free_blocks as nat, 8));
    assert(b.subrange(28, 36) =~= le_bytes(sb.object_count as nat, 8));
    assert(b.subrange(36, 44) =~= le_bytes(sb.metadata_area_size as nat, 8));
    assert(b.subrange(44, 52) =~= le_bytes(sb.max_metadata_area_size as nat, 8));
    assert(b.subrange(52, 60) =~= le_bytes(sb.bitmap_size as nat, 8));
    assert(b.subrange(60, 68) =~= le_bytes(signed_bits(sb.created_at), 8));
    assert(b.subrange(68, 72) =~= le_bytes(sb.flags as nat, 4));
}

/// The superblock of a new store. Its bitmap has a bit for each block and is filled up to
/// eight bytes; the blocks that the superblock, the bitmap and the metadata area take are
/// left out, `r` of them.
pub proof fn law_fresh(block_size: u32, total: u64, max_metadata: u64, now: i64, r: int)
    requires
        block_size > 0,
        total <= u64::MAX - 64,
        r >= 0,
        r * block_size >= 4096 + bitmap_size_for(total as int) + max_metadata,
        (r - 1) * block_size < 4096 + bitmap_size_for(total as int) + max_metadata,
    ensures
        ({
            let sb = SuperBlock::fresh(block_size, total, max_metadata, now);
            &&& sb.magic@ == seq![77u8, 79u8, 83u8, 0u8]
            &&& sb.version == 1
            &&& sb.block_size == block_size
            &&& sb.total_blocks == total
            &&& sb.object_count == 0
            &&& sb.metadata_area_size == 0
            &&& sb.max_metadata_area_size == max_metadata
            &&& sb.created_at == now
            &&& sb.flags == 0
            &&& sb.bitmap_size % 8 == 0
            &&& total <= 8 * sb.bitmap_size < total + 64
            &&& r < total ==> sb.free_blocks == total - r
            &&& r >= total ==> sb.free_blocks == 0
        }),
{
    let sb = SuperBlock::fresh(block_size, total, max_metadata, now);
    let front = 4096 + bitmap_size_for(total as int) + max_metadata;
    let b = block_size as int;
    assert((front + b - 1) / b == r) by (nonlinear_arith)
        requires
            b > 0,
            r * b >= front,
            (r - 1) * b < front,
    ;
    assert(sb.magic@ =~= seq![77u8, 79u8, 83u8, 0u8]);
}

/// Where the parts of a store file begin: the bitmap behind the superblock, the metadata
/// behind the bitmap, and the blocks behind the metadata, one behind the other.
pub proof fn law_store_layout(s: StoreView, n: int)
    ensures
        s.metadata_offset() == 4096 + s.sb.bitmap_size,
        s.data_offset() == s.metadata_offset() + s.sb.max_metadata_area_size,
        s.block_offset(0) == s.data_offset(),
        s.block_offset(n + 1) == s.block_offset(n) + s.sb.block_size,
{
    assert(0 * s.sb.block_size == 0);
    assert((n + 1) * s.sb.block_size == n * s.sb.block_size + s.sb.block_size) by (nonlinear_arith);
}

/// An entry of the metadata area: the identifier, the flags, each text behind its length
/// in two bytes, the size, the creation time, and the blocks behind their number, eight
/// bytes each; its own length ends it.
pub proof fn law_entry_layout(e: EntryView, i: int)
    requires
        e.fits(),
        0 <= i < e.block_pointers.len(),
    ensures
        ({
            let b = e.encode();
            let name = encode_utf8(e.name);
            let kind = encode_utf8(e.content_type);
            let tags = encode_utf8(e.tags);
            let n = e.block_pointers.len() as int;
            let k = 19 + name.len() as int;
            let t = k + 10 + kind.len() as int;
            let p = t + 10 + tags.len() as int;
            &&& b.len() == 47 + name.len() + kind.len() + tags.len() + 8 * n
            &&& b.subrange(0, 16) == e.uuid
            &&& b[16] == e.flags
            &&& b.subrange(17, 19) == le_bytes(name.len(), 2)
            &&& b.subrange(19, k) == name
            &&& b.subrange(k, k + 8) == le_bytes(e.size as nat, 8)
            &&& b.subrange(k + 8, k + 10) == le_bytes(kind.len(), 2)
            &&& b.subrange(k + 10, t) == kind
            &&& e.created_at >= 0 ==> b.subrange(t, t + 8) == le_bytes(
                e.created_at as nat,
                8,
            )
            &&& b.subrange(t + 8, t + 10) == le_bytes(tags.len(), 2)
            &&& b.subrange(t + 10, p) == tags
            &&& b.subrange(p, p + 4) == le_bytes(n as nat, 4)
            &&& b.subrange(p + 4 + 8 * i, p + 12 + 8 * i) == le_bytes(
                e.block_pointers[i] as nat,
                8,
            )
            &&& b.subrange(b.len() - 4, b.len() as int) == le_bytes(b.len(), 4)
        }),
{
    reveal(EntryView::encode);
    let b = e.encode();
    let name = encode_utf8(e.name);
    let kind = encode_utf8(e.content_type);
    let tags = encode_utf8(e.tags);
    let n = e.block_pointers.len() as int;
    let k = 19 + name.len() as int;
    let t = k + 10 + kind.len() as int;
    let p = t + 10 + tags.len() as int;
    lemma_le_bytes_len(name.len(), 2);
    lemma_le_bytes_len(e.size as nat, 8);
    lemma_le_bytes_len(kind.len(), 2);
    lemma_le_bytes_len(signed_bits(e.created_at), 8);
    lemma_le_bytes_len(tags.len(), 2);
    lemma_le_bytes_len(n as nat, 4);
    lemma_le_bytes_len(e.encoded_len() as nat, 4);
    lemma_pointers(e.block_pointers, i);
    let q = pointer_bytes(e.block_pointers);
    assert(b.len() == 47 + name.len() + kind.len() + tags.len() + 8 * n);
    assert(b.subrange(0, 16) =~= e.uuid);
    assert(b.subrange(17, 19) =~= le_bytes(name.len(), 2));
    assert(b.subrange(19, k) =~= name);
    assert(b.subrange(k, k + 8) =~= le_bytes(e.size as nat, 8));
    assert(b.subrange(k + 8, k + 10) =~= le_bytes(kind.len(), 2));
    assert(b.subrange(k + 10, t) =~= kind);
    assert(b.subrange(t, t + 8) =~= le_bytes(signed_bits(e.created_at), 8));
    assert(b.subrange(t + 8, t + 10) =~= le_bytes(tags.len(), 2));
    assert(b.subrange(t + 10, p) =~= tags);
    assert(b.subrange(p, p + 4) =~= le_bytes(n as nat, 4));
    assert(b.subrange(p + 4, p + 4 + 8 * n) =~= q);
    assert(b.subrange(p + 4 + 8 * i, p + 12 + 8 * i) =~= q.subrange(8 * i, 8 * i + 8));
    assert(b.subrange(b.len() - 4, b.len() as int) =~= le_bytes(e.encoded_len() as nat, 4));
}

proof fn lemma_pointers(pointers: Seq<u64>, i: int)
    requires
        0 <= i < pointers.len(),
    ensures
        pointer_bytes(pointers).len() == 8 * pointers.len(),
        pointer_bytes(pointers).subrange(8 * i, 8 * i + 8) == le_bytes(
            pointers[i] as nat,
            8,
        ),
    decreases pointers.len(),
{
    let front = pointers.drop_last();
    let b = pointer_bytes(pointers);
    lemma_le_bytes_len(pointers.last() as nat, 8);
    reveal_with_fuel(pointer_bytes, 2);
    if front.len() > 0 {
        lemma_pointers(front, 0);
    }
    if i < front.len() {
        lemma_pointers(front, i);
        assert(b.subrange(8 * i, 8 * i + 8) =~= pointer_bytes(front).subrange(
            8 * i,
            8 * i + 8,
        ));
    } else {
        assert(b.subrange(8 * i, 8 * i + 8) =~= le_bytes(pointers.last() as nat, 8));
    }
}

/// The header of the shared memory fills 64 bytes: the fields one behind the other, and
/// zeros.
pub proof fn law_header_layout(h: ShmHeader)
    ensures
        ({
            let b = h.encode();
            &&& b.len() == 64
            &&& b.subrange(0, 4) == le_bytes(h.magic as nat, 4)
            &&& b.subrange(4, 8) == le_bytes(h.version as nat, 4)
            &&& b.subrange(8, 16) == le_bytes(h.total_size as nat, 8)
            &&& b.subrange(16, 20) == le_bytes(h.page_size as nat, 4)
            &&& b.subrange(20, 24) == le_bytes(h.num_pages as nat, 4)
            &&& b.subrange(24, 32) == le_bytes(h.bitmap_offset as nat, 8)
            &&& b.subrange(32, 40) == le_bytes(h.data_offset as nat, 8)
            &&& b.subrange(40, 44) == le_bytes(h.free_pages as nat, 4)
            &&& forall|i: int| 44 <= i < 64 ==> #[trigger] b[i] == 0
        }),
{
    let b = h.encode();
    lemma_le_bytes_len(h.magic as nat, 4);
    lemma_le_bytes_len(h.version as nat, 4);
    lemma_le_bytes_len(h.total_size as nat, 8);
    lemma_le_bytes_len(h.page_size as nat, 4);
    lemma_le_bytes_len(h.num_pages as nat, 4);
    lemma_le_bytes_len(h.bitmap_offset as nat, 8);
    lemma_le_bytes_len(h.data_offset as nat, 8);
    lemma_le_bytes_len(h.free_pages as nat, 4);
    assert(b.subrange(0, 4) =~= le_bytes(h.magic as nat, 4));
    assert(b.subrange(4, 8) =~= le_bytes(h.version as nat, 4));
    assert(b.subrange(8, 16) =~= le_bytes(h.total_size as nat, 8));
    assert(b.subrange(16, 20) =~= le_bytes(h.page_size as nat, 4));
    assert(b.subrange(20, 24) =~= le_bytes(h.num_pages as nat, 4));
    assert(b.subrange(24, 32) =~= le_bytes(h.bitmap_offset as nat, 8));
    assert(b.subrange(32, 40) =~= le_bytes(h.data_offset as nat, 8));
    assert(b.subrange(40, 44) =~= le_bytes(h.free_pages as nat, 4));
}

/// Which blocks an object gets: as many as are asked for, if there are as many free ones,
/// all of them free and in ascending order. They follow each other wherever some free
/// ones do, and are then the first that do; else they are the lowest free ones.
pub proof fn law_blocks_chosen(bits: Seq<u8>, total: nat, count: nat, start: int, i: int, free: u64)
    requires
        total <= u64::MAX,
        count >= 1,
        count <= free_slots(bits, total).len(),
        0 <= i < count,
    ensures
        ({
            let blocks = chosen_blocks(bits, total as int, count as int);
            &&& blocks.len() == count
            &&& blocks[i] < total && !has_bit(bits, blocks[i] as int)
            &&& i + 1 < count ==> blocks[i] < blocks[i + 1]
            &&& start >= 0 && start + count <= total && run_free(bits, start, count as int) ==> {
                &&& blocks[i] == blocks[0] + i
                &&& blocks[0] <= start
            }
            &&& (forall|t: int|
                0 <= t && t + count <= total ==> !#[trigger] run_free(bits, t, count as int))
                && free < total && !has_bit(bits, free as int) && free < blocks[i]
                ==> blocks.contains(free)
        }),
{
    let blocks = chosen_blocks(bits, total as int, count as int);
    lemma_first_run(bits, total as int, count as int, 0);
    lemma_free_slots(bits, total);
    if first_run(bits, total as int, count as int) is None {
        let all = free_slots(bits, total);
        if free < total && !has_bit(bits, free as int) && free < blocks[i] {
            assert(all.contains(free));
            let k = choose|k: int| 0 <= k < all.len() && all[k] == free;
            if k > i {
                assert(all[i] < all[k]);
            }
            assert(blocks[k] == free);
        }
    } else {
        let s = first_run(bits, total as int, count as int)->0;
        assert(blocks == slots_from(s, count));
        assert(blocks[i] == (s + i) as u64);
        assert(blocks[0] == s as u64);
        assert(!has_bit(bits, s + i));
        if i + 1 < count {
            assert(blocks[i + 1] == (s + i + 1) as u64);
        }
    }
}

/// An entry counts as deleted where the lowest bit of its flags is set.
pub proof fn law_deleted(e: EntryView)
    ensures
        e.deleted() <==> e.flags % 2 == 1,
{
    let f = e.flags;
    assert(f & 1u8 != 0 <==> f % 2u8 == 1) by (bit_vector);
}

/// A store file is read only if it begins with the mark and is of the version 1; the
/// shared memory only if it begins with its number and is of the version 1.
pub proof fn law_refused(b: Seq<u8>)
    requires
        b.len() >= 4096,
    ensures
        SuperBlock::parse(b) is Ok <==> {
            &&& b[0] == 77 && b[1] == 79 && b[2] == 83 && b[3] == 0
            &&& le_value(b.subrange(4, 8)) == 1
        },
        ShmHeader::parse(b) is Ok <==> {
            &&& le_value(b.subrange(0, 4)) == 0x4D4F_5348
            &&& le_value(b.subrange(4, 8)) == 1
        },
{
    let m = b.subrange(0, 4);
    assert(m[0] == b[0] && m[1] == b[1] && m[2] == b[2] && m[3] == b[3]);
    if b[0] == 77 && b[1] == 79 && b[2] == 83 && b[3] == 0 {
        assert(m =~= seq![77u8, 79u8, 83u8, 0u8]);
    }
    lemma_byte_ranges();
    lemma_le_value_bound(b.subrange(0, 4));
    lemma_le_value_bound(b.subrange(4, 8));
}

} // verus!
