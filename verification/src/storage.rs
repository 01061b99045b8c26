//! The object store: a superblock, a block bitmap, a metadata area and the data
//! blocks, in one file.
//!
//! The store reads the file through the image that its methods are handed, and
//! appends to a list what has to be written. Who owns the file carries the list
//! out, in order.
use crate::bitmap::{
    bit_is_set, changed_byte, collect_free, find_run, first_run, free_slots, has_bit,
    lemma_first_run, lemma_free_slots, slots_from, with_bit, with_bits,
};
use crate::bytes::{copy_range, push_bytes, zero_bytes, zeros};
use crate::clock::unix_now;
use crate::error::{ErrorView, MiniOsError};
use crate::ids::{hyphenated, is_issued_id, parse_uuid, parsed_uuid};
use crate::metadata::{
    parse_entry, scan, EntryParse, EntryView, MetadataEntry, ObjectInfo, ObjectInfoView,
    META_FLAG_DELETED,
};
use crate::superblock::{bitmap_size_for, SuperBlock, SUPER_BLOCK_SIZE};
use crate::text::{decimal, push_decimal, same_text};
use vstd::prelude::*;
use vstd::slice::*;
use vstd::string::*;
use vstd::utf8::*;

verus! {

/// A change to the store file.
#[derive(Debug)]
pub enum FileOp {
    /// The file gets this length. What is added is zero.
    SetLen(u64),
    /// The bytes are written at the offset.
    Write { offset: u64, data: Vec<u8> },
}

/// A [`FileOp`], with its bytes as a sequence.
pub enum FileOpView {
    SetLen(u64),
    Write { offset: u64, data: Seq<u8> },
}

impl View for FileOp {
    type V = FileOpView;

    open spec fn view(&self) -> FileOpView {
        match *self {
            FileOp::SetLen(n) => FileOpView::SetLen(n),
            FileOp::Write { offset, data } => FileOpView::Write { offset, data: data@ },
        }
    }
}

/// The changes in `list`.
pub open spec fn ops_of(list: Seq<FileOp>) -> Seq<FileOpView> {
    Seq::new(list.len(), |i: int| list[i]@)
}

/// Byte `i` of `file`, or zero behind its end.
pub open spec fn byte_at(file: Seq<u8>, i: int) -> u8 {
    if i < file.len() {
        file[i]
    } else {
        0
    }
}

/// The file after one change.
pub open spec fn apply_op(file: Seq<u8>, op: FileOpView) -> Seq<u8> {
    match op {
        FileOpView::SetLen(n) => Seq::new(n as nat, |i: int| byte_at(file, i)),
        FileOpView::Write { offset, data } => Seq::new(
            if data.len() == 0 || offset + data.len() <= file.len() {
                file.len()
            } else {
                (offset + data.len()) as nat
            },
            |i: int|
                if offset <= i < offset + data.len() {
                    data[i - offset]
                } else {
                    byte_at(file, i)
                },
        ),
    }
}

/// The file after the changes, one after the other.
pub open spec fn apply(file: Seq<u8>, ops: Seq<FileOpView>) -> Seq<u8>
    decreases ops.len(),
{
    if ops.len() == 0 {
        file
    } else {
        apply_op(apply(file, ops.drop_last()), ops.last())
    }
}

/// The figures of a running store.
#[derive(Debug)]
pub struct StorageStatus {
    pub total_blocks: u64,
    pub free_blocks: u64,
    pub used_blocks: u64,
    pub block_size: u32,
    pub object_count: u64,
    /// How many objects the metadata area was laid out for.
    pub max_objects: u64,
    pub metadata_area_size: u64,
    pub max_metadata_area_size: u64,
    /// Left empty: the caller knows the path.
    pub store_path: String,
    pub total_capacity: u64,
    pub used_capacity: u64,
    pub free_capacity: u64,
}

/// A store: what it holds in memory of its file.
#[derive(Debug)]
pub struct ObjectStorage {
    pub super_block: SuperBlock,
    /// One bit for each block, set while the block is in use.
    pub bitmap: Vec<u8>,
    /// Whether the superblock or the bitmap may differ from the file.
    pub dirty: bool,
}

/// An [`ObjectStorage`], with its bitmap as a sequence.
pub struct StoreView {
    pub sb: SuperBlock,
    pub bitmap: Seq<u8>,
    pub dirty: bool,
}

impl View for ObjectStorage {
    type V = StoreView;

    open spec fn view(&self) -> StoreView {
        StoreView { sb: self.super_block, bitmap: self.bitmap@, dirty: self.dirty }
    }
}

/// The outcome of an operation: the store after it, the changes to the file, and
/// what is returned.
pub struct Step<R> {
    pub store: StoreView,
    pub writes: Seq<FileOpView>,
    pub result: Result<R, ErrorView>,
}

/// What a read that meets the end of the file reports.
pub open spec fn short_read() -> ErrorView {
    ErrorView::Io("failed to fill whole buffer"@)
}

/// The changes that set or clear the bits of `blocks`: one byte for each.
pub open spec fn bit_writes(bits: Seq<u8>, blocks: Seq<u64>, used: bool) -> Seq<FileOpView>
    decreases blocks.len(),
{
    if blocks.len() == 0 {
        Seq::empty()
    } else {
        bit_writes(bits, blocks.drop_last(), used).push(
            FileOpView::Write {
                offset: (SUPER_BLOCK_SIZE + blocks.last() / 8) as u64,
                data: seq![with_bits(bits, blocks, used)[blocks.last() as int / 8]],
            },
        )
    }
}

/// How many blocks `len` bytes take. An empty object takes one.
pub open spec fn blocks_for(len: int, block_size: int) -> int {
    if len == 0 {
        1
    } else {
        (len + block_size - 1) / block_size
    }
}

/// The blocks that are given out for `count`: the first `count` free ones in a
/// row; where there is no such row, the first `count` free ones, or all of them.
pub open spec fn chosen_blocks(bits: Seq<u8>, total: int, count: int) -> Seq<u64> {
    match first_run(bits, total, count) {
        Some(s) => slots_from(s, count as nat),
        None => {
            let free = free_slots(bits, total as nat);
            if free.len() <= count {
                free
            } else {
                free.take(count)
            }
        },
    }
}

/// The `i`-th piece of `data`, filled up with zeros to a whole block.
pub open spec fn padded_chunk(data: Seq<u8>, i: int, block_size: int) -> Seq<u8> {
    Seq::new(block_size as nat, |j: int| byte_at(data, i * block_size + j))
}

/// Whether the entry is not deleted and `key` is its identifier.
pub open spec fn identified_by(e: EntryView, key: Seq<char>) -> bool {
    !e.deleted() && parsed_uuid(key) == Some(e.uuid)
}

/// Whether the entry is not deleted and `key` is its name.
pub open spec fn named_by(e: EntryView, key: Seq<char>) -> bool {
    !e.deleted() && e.name == key
}

/// Whether `key` is the identifier or the name of the entry, which is not
/// deleted.
pub open spec fn answers(e: EntryView, key: Seq<char>) -> bool {
    identified_by(e, key) || named_by(e, key)
}

/// The first index from `i` on whose entry has the identifier `key`; the length
/// of `entries` where there is none.
pub open spec fn id_from(entries: Seq<(EntryView, int)>, key: Seq<char>, i: int) -> int
    decreases entries.len() - i,
{
    if i >= entries.len() {
        entries.len() as int
    } else if identified_by(entries[i].0, key) {
        i
    } else {
        id_from(entries, key, i + 1)
    }
}

/// The first index from `i` on whose entry has the name `key`; the length of
/// `entries` where there is none.
pub open spec fn name_from(entries: Seq<(EntryView, int)>, key: Seq<char>, i: int) -> int
    decreases entries.len() - i,
{
    if i >= entries.len() {
        entries.len() as int
    } else if named_by(entries[i].0, key) {
        i
    } else {
        name_from(entries, key, i + 1)
    }
}

/// The index of the entry that `key` denotes: the first with that identifier
/// and, only where there is none, the first with that name; the length of
/// `entries` where there is neither.
pub open spec fn match_of(entries: Seq<(EntryView, int)>, key: Seq<char>) -> int {
    let i = id_from(entries, key, 0);
    if i < entries.len() {
        i
    } else {
        name_from(entries, key, 0)
    }
}

/// How many of the first pointers are below `total`.
pub open spec fn in_range_from(pointers: Seq<u64>, total: u64, i: int) -> int
    decreases pointers.len() - i,
{
    if i >= pointers.len() || pointers[i] >= total {
        i
    } else {
        in_range_from(pointers, total, i + 1)
    }
}

/// What is reported of a block number that is too high.
pub open spec fn out_of_range(block: nat, total: nat) -> ErrorView {
    ErrorView::Storage(
        "块号 "@ + decimal(block) + " 超出范围（最大值为 "@ + decimal(total) + "）"@,
    )
}

/// What is reported of a key that denotes no object.
pub open spec fn no_object(key: Seq<char>) -> ErrorView {
    ErrorView::NotFound("未找到对象："@ + key)
}

/// The infos of the entries that are not deleted, in order.
pub open spec fn live_infos(entries: Seq<(EntryView, int)>) -> Seq<ObjectInfoView>
    decreases entries.len(),
{
    if entries.len() == 0 {
        Seq::empty()
    } else if entries.last().0.deleted() {
        live_infos(entries.drop_last())
    } else {
        live_infos(entries.drop_last()).push(entries.last().0.info())
    }
}

impl StoreView {
    /// Where the metadata area begins in the file.
    pub open spec fn metadata_offset(self) -> int {
        SUPER_BLOCK_SIZE + self.sb.bitmap_size
    }

    /// Where the data blocks begin in the file.
    pub open spec fn data_offset(self) -> int {
        SUPER_BLOCK_SIZE + self.sb.bitmap_size + self.sb.max_metadata_area_size
    }

    /// Where block `n` begins in the file.
    pub open spec fn block_offset(self, n: int) -> int {
        self.data_offset() + n * self.sb.block_size
    }

    /// Whether the store's figures can be worked with: blocks are not empty, the
    /// bitmap has a bit for each, and every block's place is a file offset.
    pub open spec fn operable(self) -> bool {
        &&& self.sb.block_size > 0
        &&& self.bitmap.len() == self.sb.bitmap_size
        &&& self.sb.total_blocks <= 8 * self.bitmap.len()
        &&& self.block_offset(self.sb.total_blocks as int) <= u64::MAX
    }

    /// The metadata area as it stands in the file, if the file holds all of it.
    pub open spec fn meta_bytes(self, file: Seq<u8>) -> Option<Seq<u8>> {
        if self.sb.metadata_area_size == 0 {
            Some(Seq::empty())
        } else if self.metadata_offset() + self.sb.metadata_area_size <= file.len() {
            Some(
                file.subrange(
                    self.metadata_offset(),
                    self.metadata_offset() + self.sb.metadata_area_size,
                ),
            )
        } else {
            None
        }
    }

    /// Whether the metadata area can be read through.
    pub open spec fn scannable(self, file: Seq<u8>) -> bool {
        self.meta_bytes(file) matches Some(m) ==> scan(m, 0) is Some
    }

    /// The entries of the metadata area, each with its place in the file.
    pub open spec fn scanned(self, file: Seq<u8>) -> Result<Seq<(EntryView, int)>, ErrorView> {
        match self.meta_bytes(file) {
            None => Err(short_read()),
            Some(m) => Ok(shifted(scan(m, 0)->0, self.metadata_offset())),
        }
    }

    /// The entry that `key` denotes, with its place in the file.
    pub open spec fn lookup(self, file: Seq<u8>, key: Seq<char>) -> Result<
        Option<(EntryView, int)>,
        ErrorView,
    > {
        match self.scanned(file) {
            Err(e) => Err(e),
            Ok(entries) => {
                let i = match_of(entries, key);
                if i < entries.len() {
                    Ok(Some(entries[i]))
                } else {
                    Ok(None)
                }
            },
        }
    }

    /// Whether an object that is not deleted has this name.
    pub open spec fn name_taken(self, file: Seq<u8>, name: Seq<char>) -> bool {
        &&& self.scanned(file) is Ok
        &&& exists|i: int|
            0 <= i < self.scanned(file)->Ok_0.len() && !(#[trigger] self.scanned(
                file,
            )->Ok_0[i]).0.deleted() && self.scanned(file)->Ok_0[i].0.name == name
    }

    /// Whether each of the blocks has a place that is a file offset.
    pub open spec fn addressable(self, blocks: Seq<u64>) -> bool {
        forall|i: int| 0 <= i < blocks.len() ==> self.block_offset(#[trigger] blocks[i] as int) <= u64::MAX
    }

    /// The changes that make the file hold the superblock and the bitmap.
    pub open spec fn flush_writes(self) -> Seq<FileOpView> {
        if self.dirty {
            seq![
                FileOpView::Write { offset: 0, data: self.sb.encode() },
                FileOpView::Write { offset: SUPER_BLOCK_SIZE, data: self.bitmap },
            ]
        } else {
            Seq::empty()
        }
    }

    /// The store after a flush.
    pub open spec fn flushed(self) -> StoreView {
        StoreView { dirty: false, ..self }
    }

    /// The store with the bits of `blocks` set or cleared.
    pub open spec fn marked(self, blocks: Seq<u64>, used: bool) -> StoreView {
        StoreView { bitmap: with_bits(self.bitmap, blocks, used), ..self }
    }
}

/// The entries, each `by` further on.
pub open spec fn shifted(entries: Seq<(EntryView, int)>, by: int) -> Seq<(EntryView, int)> {
    Seq::new(entries.len(), |i: int| (entries[i].0, entries[i].1 + by))
}

/// What [`ObjectStorage::scan_all_entries_with_offsets`] hands out, as
/// sequences.
pub open spec fn located(list: Seq<(MetadataEntry, u64)>) -> Seq<(EntryView, int)> {
    Seq::new(list.len(), |i: int| (list[i].0@, list[i].1 as int))
}

/// The error of a read that met the end of the file.
fn short_read_error() -> (e: MiniOsError)
    ensures
        e@ == short_read(),
{
    MiniOsError::Io("failed to fill whole buffer".to_owned())
}

/// The error that says that `key` denotes no object.
fn no_object_error(key: &str) -> (e: MiniOsError)
    ensures
        e@ == no_object(key@),
{
    let mut m = "未找到对象：".to_owned();
    m.append(key);
    MiniOsError::NotFound(m)
}

fn push_write(writes: &mut Vec<FileOp>, offset: u64, data: Vec<u8>)
    ensures
        ops_of(final(writes)@) == ops_of(old(writes)@).push(
            FileOpView::Write { offset, data: data@ },
        ),
{
    writes.push(FileOp::Write { offset, data });
    assert(ops_of(writes@) =~= ops_of(old(writes)@).push(
        FileOpView::Write { offset, data: data@ },
    ));
}

pub proof fn lemma_block_fits(s: StoreView, n: int)
    requires
        s.operable(),
        0 <= n <= s.sb.total_blocks,
    ensures
        0 <= n * s.sb.block_size <= s.sb.total_blocks * s.sb.block_size,
        s.data_offset() <= s.block_offset(n) <= s.block_offset(s.sb.total_blocks as int)
            <= u64::MAX,
{
    assert(0 <= n * s.sb.block_size <= s.sb.total_blocks * s.sb.block_size) by (nonlinear_arith)
        requires
            0 <= n <= s.sb.total_blocks,
            s.sb.block_size > 0,
    ;
}

impl ObjectStorage {
    /// Where the bitmap begins in the file.
    pub fn bitmap_offset() -> (r: u64)
        ensures
            r == SUPER_BLOCK_SIZE,
    {
        SUPER_BLOCK_SIZE
    }

    /// Where the metadata area begins in the file.
    pub fn metadata_offset(&self) -> (r: u64)
        requires
            self@.metadata_offset() <= u64::MAX,
        ensures
            r == self@.metadata_offset(),
    {
        SUPER_BLOCK_SIZE + self.super_block.bitmap_size
    }

    /// Where the data blocks begin in the file.
    pub fn data_offset(&self) -> (r: u64)
        requires
            self@.data_offset() <= u64::MAX,
        ensures
            r == self@.data_offset(),
    {
        SUPER_BLOCK_SIZE + self.super_block.bitmap_size + self.super_block.max_metadata_area_size
    }

    /// Where a block begins in the file.
    pub fn block_offset(&self, block_num: u64) -> (r: u64)
        requires
            self@.block_offset(block_num as int) <= u64::MAX,
        ensures
            r == self@.block_offset(block_num as int),
    {
        assert(block_num * self.super_block.block_size >= 0) by (nonlinear_arith);
        self.data_offset() + block_num * self.super_block.block_size as u64
    }

    /// Sets or clears the bit of one block, in memory and in the file.
    pub fn set_bitmap_bit(&mut self, block_num: u64, used: bool, writes: &mut Vec<FileOp>) -> (r:
        Result<(), MiniOsError>)
        requires
            old(self)@.operable(),
        ensures
            match r {
                Ok(_) => {
                    &&& block_num < old(self).super_block.total_blocks
                    &&& final(self)@ == (StoreView {
                        bitmap: with_bit(old(self)@.bitmap, block_num as int, used),
                        ..old(self)@
                    })
                    &&& ops_of(final(writes)@) == ops_of(old(writes)@).push(
                        FileOpView::Write {
                            offset: (SUPER_BLOCK_SIZE + block_num / 8) as u64,
                            data: seq![final(self)@.bitmap[block_num as int / 8]],
                        },
                    )
                },
                Err(e) => {
                    &&& block_num >= old(self).super_block.total_blocks
                    &&& e@ == out_of_range(
                        block_num as nat,
                        old(self).super_block.total_blocks as nat,
                    )
                    &&& final(self)@ == old(self)@
                    &&& final(writes)@ == old(writes)@
                },
            },
    {
        if block_num >= self.super_block.total_blocks {
            let mut m = "块号 ".to_owned();
            push_decimal(&mut m, block_num);
            m.append(" 超出范围（最大值为 ");
            push_decimal(&mut m, self.super_block.total_blocks);
            m.append("）");
            return Err(MiniOsError::Storage(m));
        }
        assert(self.bitmap@.len() == self.bitmap.len());
        let byte_idx = (block_num / 8) as usize;
        let bit_idx = (block_num % 8) as u8;
        let b = changed_byte(self.bitmap[byte_idx], bit_idx, used);
        self.bitmap[byte_idx] = b;
        let mut data: Vec<u8> = Vec::new();
        data.push(b);
        assert(data@ =~= seq![self.bitmap@[block_num as int / 8]]);
        push_write(writes, ObjectStorage::bitmap_offset() + block_num / 8, data);
        Ok(())
    }

    /// Whether a block is in use. One that does not exist is.
    pub fn is_block_used(&self, block_num: u64) -> (r: bool)
        requires
            self@.operable(),
        ensures
            r == (block_num >= self.super_block.total_blocks || has_bit(
                self.bitmap@,
                block_num as int,
            )),
    {
        if block_num >= self.super_block.total_blocks {
            return true;
        }
        bit_is_set(self.bitmap.as_slice(), block_num)
    }

    /// Sets or clears the bits of `blocks`, one after the other.
    fn mark_blocks(&mut self, blocks: &Vec<u64>, used: bool, writes: &mut Vec<FileOp>)
        requires
            old(self)@.operable(),
            forall|i: int|
                0 <= i < blocks@.len() ==> #[trigger] blocks@[i] < old(self).super_block.total_blocks,
        ensures
            final(self)@ == old(self)@.marked(blocks@, used),
            final(self)@.operable(),
            ops_of(final(writes)@) == ops_of(old(writes)@) + bit_writes(
                old(self)@.bitmap,
                blocks@,
                used,
            ),
    {
        let ghost s = self@;
        let ghost before = ops_of(writes@);
        let mut i: usize = 0;
        assert(blocks@.take(0) =~= Seq::empty());
        assert(before + bit_writes(s.bitmap, blocks@.take(0), used) =~= before);
        while i < blocks.len()
            invariant
                i <= blocks@.len(),
                s.operable(),
                self@.operable(),
                self@ == s.marked(blocks@.take(i as int), used),
                ops_of(writes@) == before + bit_writes(s.bitmap, blocks@.take(i as int), used),
                forall|j: int| 0 <= j < blocks@.len() ==> #[trigger] blocks@[j] < s.sb.total_blocks,
            decreases blocks@.len() - i,
        {
            let block = blocks[i];
            let r = self.set_bitmap_bit(block, used, writes);
            i += 1;
            proof {
                let upto = blocks@.take(i as int);
                assert(upto.drop_last() =~= blocks@.take(i as int - 1));
                assert(r is Ok);
                assert(ops_of(writes@) =~= before + bit_writes(s.bitmap, upto, used));
            }
        }
        assert(blocks@.take(i as int) =~= blocks@);
    }

    /// Gives out `count` blocks: in a row where there is such a row, else the
    /// first ones that are free.
    pub fn allocate_blocks(&mut self, count: u64, writes: &mut Vec<FileOp>) -> (r: Result<
        Vec<u64>,
        MiniOsError,
    >)
        requires
            old(self)@.operable(),
            1 <= count <= old(self).super_block.free_blocks,
        ensures
            ({
                let s = old(self)@;
                let blocks = chosen_blocks(s.bitmap, s.sb.total_blocks as int, count as int);
                &&& ops_of(final(writes)@) == ops_of(old(writes)@) + bit_writes(
                    s.bitmap,
                    blocks,
                    true,
                )
                &&& match r {
                    Ok(given) => {
                        &&& given@ == blocks
                        &&& blocks.len() == count
                        &&& final(self)@ == (StoreView {
                            sb: SuperBlock {
                                free_blocks: (s.sb.free_blocks - count) as u64,
                                ..s.sb
                            },
                            dirty: true,
                            ..s.marked(blocks, true)
                        })
                    },
                    Err(e) => {
                        &&& blocks.len() < count
                        &&& e@ == ErrorView::NoSpace
                        &&& final(self)@ == s.marked(blocks, true)
                    },
                }
            }),
            forall|i: int|
                0 <= i < chosen_blocks(
                    old(self)@.bitmap,
                    old(self)@.sb.total_blocks as int,
                    count as int,
                ).len() ==> #[trigger] chosen_blocks(
                    old(self)@.bitmap,
                    old(self)@.sb.total_blocks as int,
                    count as int,
                )[i] < old(self)@.sb.total_blocks,
            final(self)@.operable(),
    {
        let total = self.super_block.total_blocks;
        let ghost s = self@;
        let ghost blocks = chosen_blocks(s.bitmap, total as int, count as int);
        proof {
            lemma_chosen_blocks(s.bitmap, total as nat, count as int);
        }
        match find_run(self.bitmap.as_slice(), total, count) {
            Some(start) => {
                let mut given: Vec<u64> = Vec::new();
                let mut i: u64 = 0;
                while i < count
                    invariant
                        i <= count,
                        start + count <= total,
                        given@ == slots_from(start as int, i as nat),
                    decreases count - i,
                {
                    given.push(start + i);
                    i += 1;
                    assert(given@ =~= slots_from(start as int, i as nat));
                }
                self.mark_blocks(&given, true, writes);
                self.super_block.free_blocks = self.super_block.free_blocks - count;
                self.dirty = true;
                Ok(given)
            },
            None => {
                let given = collect_free(self.bitmap.as_slice(), total, count);
                self.mark_blocks(&given, true, writes);
                if given.len() as u64 == count {
                    self.super_block.free_blocks = self.super_block.free_blocks - count;
                    self.dirty = true;
                    Ok(given)
                } else {
                    Err(MiniOsError::NoSpace)
                }
            },
        }
    }
}

/// The blocks that are given out exist, are free and are all different.
pub proof fn lemma_chosen_blocks(bits: Seq<u8>, total: nat, count: int)
    requires
        total <= u64::MAX,
        count >= 1,
    ensures
        chosen_blocks(bits, total as int, count).len() <= count,
        first_run(bits, total as int, count) matches Some(s) ==> 0 <= s && s + count <= total
            && chosen_blocks(bits, total as int, count).len() == count,
        forall|i: int|
            0 <= i < chosen_blocks(bits, total as int, count).len() ==> {
                &&& #[trigger] chosen_blocks(bits, total as int, count)[i] < total
                &&& !has_bit(bits, chosen_blocks(bits, total as int, count)[i] as int)
            },
        forall|i: int, j: int|
            0 <= i < j < chosen_blocks(bits, total as int, count).len() ==> chosen_blocks(
                bits,
                total as int,
                count,
            )[i] < chosen_blocks(bits, total as int, count)[j],
{
    lemma_first_run(bits, total as int, count, 0);
    lemma_free_slots(bits, total);
}

impl StoreView {
    /// What reading the data of the blocks yields: their bytes, one block after
    /// the other, unless the file ends before a block does.
    pub open spec fn read_blocks(self, file: Seq<u8>, blocks: Seq<u64>) -> Option<Seq<u8>>
        decreases blocks.len(),
    {
        if blocks.len() == 0 {
            Some(Seq::empty())
        } else {
            let at = self.block_offset(blocks.last() as int);
            match self.read_blocks(file, blocks.drop_last()) {
                Some(front) if at + self.sb.block_size <= file.len() => Some(
                    front + file.subrange(at, at + self.sb.block_size),
                ),
                _ => None,
            }
        }
    }

    /// What [`ObjectStorage::get`] returns.
    pub open spec fn get_result(self, file: Seq<u8>, key: Seq<char>) -> Result<
        (ObjectInfoView, Seq<u8>),
        ErrorView,
    > {
        match self.lookup(file, key) {
            Err(e) => Err(e),
            Ok(None) => Err(no_object(key)),
            Ok(Some((e, _))) => match self.read_blocks(file, e.block_pointers) {
                None => Err(short_read()),
                Some(data) => Ok(
                    (
                        e.info(),
                        if e.size < data.len() {
                            data.take(e.size as int)
                        } else {
                            data
                        },
                    ),
                ),
            },
        }
    }

    /// What [`ObjectStorage::find_info`] returns.
    pub open spec fn info_result(self, file: Seq<u8>, key: Seq<char>) -> Result<
        ObjectInfoView,
        ErrorView,
    > {
        match self.lookup(file, key) {
            Err(e) => Err(e),
            Ok(None) => Err(ErrorView::NotFound(key)),
            Ok(Some((e, _))) => Ok(e.info()),
        }
    }

    /// What [`ObjectStorage::list`] returns.
    pub open spec fn list_result(self, file: Seq<u8>) -> Result<Seq<ObjectInfoView>, ErrorView> {
        match self.scanned(file) {
            Err(e) => Err(e),
            Ok(entries) => Ok(live_infos(entries)),
        }
    }
}

/// The infos in `list`.
pub open spec fn infos_of(list: Seq<ObjectInfo>) -> Seq<ObjectInfoView> {
    Seq::new(list.len(), |i: int| list[i]@)
}

impl ObjectStorage {
    /// Reads the metadata area: the entries, each with its place in the file.
    pub fn scan_all_entries_with_offsets(&self, file: &[u8]) -> (r: Result<
        Vec<(MetadataEntry, u64)>,
        MiniOsError,
    >)
        requires
            self@.metadata_offset() <= u64::MAX,
            self@.scannable(file@),
        ensures
            match r {
                Ok(list) => self@.scanned(file@) == Ok::<_, ErrorView>(located(list@)),
                Err(e) => self@.scanned(file@) == Err::<Seq<(EntryView, int)>, _>(e@),
            },
    {
        assert(file@.len() == file.len());
        let ghost meta = self@.meta_bytes(file@)->0;
        let mut list: Vec<(MetadataEntry, u64)> = Vec::new();
        let start = self.metadata_offset();
        let size = self.super_block.metadata_area_size;
        if size == 0 {
            assert(located(list@) =~= shifted(scan(meta, 0)->0, start as int));
            return Ok(list);
        }
        if start > file.len() as u64 || size > file.len() as u64 - start {
            return Err(short_read_error());
        }
        let area = slice_subrange(file, start as usize, (start + size) as usize);
        assert(area@.len() == area.len());
        let mut at: usize = 0;
        let ghost mut done: Seq<(EntryView, int)> = Seq::empty();
        assert(done + scan(meta, 0)->0 =~= scan(meta, 0)->0);
        while at < area.len()
            invariant_except_break
                scan(meta, at as int) is Some,
                scan(meta, 0)->0 == done + scan(meta, at as int)->0,
            invariant
                area@ == meta,
                area@.len() == area.len(),
                area@.len() == size,
                at <= area@.len(),
                start + size <= u64::MAX,
                self@.meta_bytes(file@) == Some(meta),
                start == self@.metadata_offset(),
                located(list@) == shifted(done, start as int),
            ensures
                scan(meta, 0)->0 == done,
            decreases area@.len() - at,
        {
            let rest = slice_subrange(area, at, area.len());
            assert(rest@ =~= meta.skip(at as int));
            match MetadataEntry::from_bytes(rest) {
                Ok((entry, len)) => {
                    let ghost here = (entry@, at as int);
                    let ghost later = scan(meta, at + len)->0;
                    let ghost grown = done.push(here);
                    assert(done + (seq![here] + later) =~= grown + later);
                    let ghost before = list@;
                    let place = start + at as u64;
                    list.push((entry, place));
                    assert(located(list@) =~= located(before).push((entry@, place as int)));
                    assert(shifted(grown, start as int) =~= shifted(done, start as int).push(
                        (entry@, at + start),
                    ));
                    proof {
                        done = grown;
                    }
                    at += len;
                },
                Err(_) => {
                    assert(done + Seq::<(EntryView, int)>::empty() =~= done);
                    break;
                },
            }
        }
        proof {
            assert(done + Seq::<(EntryView, int)>::empty() =~= done);
        }
        Ok(list)
    }

    /// Reads the metadata area: the entries.
    pub fn scan_all_entries(&self, file: &[u8]) -> (r: Result<Vec<MetadataEntry>, MiniOsError>)
        requires
            self@.metadata_offset() <= u64::MAX,
            self@.scannable(file@),
        ensures
            match r {
                Ok(list) => {
                    &&& self@.scanned(file@) is Ok
                    &&& self@.scanned(file@)->Ok_0.len() == list@.len()
                    &&& forall|i: int|
                        0 <= i < list@.len() ==> #[trigger] list@[i]@ == self@.scanned(
                            file@,
                        )->Ok_0[i].0
                },
                Err(e) => self@.scanned(file@) == Err::<Seq<(EntryView, int)>, _>(e@),
            },
    {
        match self.scan_all_entries_with_offsets(file) {
            Err(e) => Err(e),
            Ok(found) => {
                let ghost all = located(found@);
                let mut found = found;
                let mut list: Vec<MetadataEntry> = Vec::new();
                while found.len() > 0
                    invariant
                        list@.len() + found@.len() == all.len(),
                        forall|i: int| 0 <= i < found@.len() ==> #[trigger] found@[i].0@ == all[i].0,
                        forall|i: int|
                            0 <= i < list@.len() ==> #[trigger] list@[i]@ == all[all.len() - 1
                                - i].0,
                    decreases found@.len(),
                {
                    if let Some((entry, _)) = found.pop() {
                        list.push(entry);
                    }
                }
                Ok(reversed(list))
            },
        }
    }

    /// Finds the entry that `key` denotes, with its place in the file: the one
    /// with that identifier or, where there is none, the one with that name.
    pub fn find_entry_with_offset(&self, file: &[u8], key: &str) -> (r: Result<
        Option<(MetadataEntry, u64)>,
        MiniOsError,
    >)
        requires
            self@.metadata_offset() <= u64::MAX,
            self@.scannable(file@),
        ensures
            match r {
                Ok(Some((e, at))) => self@.lookup(file@, key@) == Ok::<_, ErrorView>(
                    Some((e@, at as int)),
                ),
                Ok(None) => self@.lookup(file@, key@) == Ok::<_, ErrorView>(
                    None::<(EntryView, int)>,
                ),
                Err(e) => self@.lookup(file@, key@) == Err::<Option<(EntryView, int)>, _>(e@),
            },
    {
        let uuid_key = parse_uuid(key);
        let mut list = match self.scan_all_entries_with_offsets(file) {
            Err(e) => {
                return Err(e);
            },
            Ok(list) => list,
        };
        let ghost all = located(list@);
        if let Some(id) = uuid_key {
            let mut i: usize = 0;
            while i < list.len()
                invariant
                    i <= list@.len(),
                    all == located(list@),
                    self@.scanned(file@) == Ok::<_, ErrorView>(all),
                    id_from(all, key@, 0) == id_from(all, key@, i as int),
                    parsed_uuid(key@) == Some(id@),
                decreases list@.len() - i,
            {
                assert(all[i as int].0 == list@[i as int].0@);
                if list[i].0.flags & META_FLAG_DELETED == 0 && same_id(&list[i].0.uuid, &id) {
                    let found = list.swap_remove(i);
                    return Ok(Some(found));
                }
                i += 1;
            }
        } else {
            proof {
                lemma_no_id(all, key@, 0);
            }
        }
        let mut i: usize = 0;
        while i < list.len()
            invariant
                i <= list@.len(),
                all == located(list@),
                self@.scanned(file@) == Ok::<_, ErrorView>(all),
                id_from(all, key@, 0) == all.len(),
                name_from(all, key@, 0) == name_from(all, key@, i as int),
            decreases list@.len() - i,
        {
            assert(all[i as int].0 == list@[i as int].0@);
            if list[i].0.flags & META_FLAG_DELETED == 0 && same_text(
                list[i].0.name.as_str(),
                key,
            ) {
                let found = list.swap_remove(i);
                return Ok(Some(found));
            }
            i += 1;
        }
        Ok(None)
    }

    /// Finds the entry that `key` denotes: the one with that identifier or, where
    /// there is none, the one with that name.
    pub fn find_entry(&self, file: &[u8], key: &str) -> (r: Result<
        Option<MetadataEntry>,
        MiniOsError,
    >)
        requires
            self@.metadata_offset() <= u64::MAX,
            self@.scannable(file@),
        ensures
            match r {
                Ok(Some(e)) => {
                    &&& self@.lookup(file@, key@) is Ok
                    &&& self@.lookup(file@, key@)->Ok_0 is Some
                    &&& (self@.lookup(file@, key@)->Ok_0->0).0 == e@
                },
                Ok(None) => self@.lookup(file@, key@) == Ok::<_, ErrorView>(
                    None::<(EntryView, int)>,
                ),
                Err(e) => self@.lookup(file@, key@) == Err::<Option<(EntryView, int)>, _>(e@),
            },
    {
        match self.find_entry_with_offset(file, key) {
            Ok(Some((e, _))) => Ok(Some(e)),
            Ok(None) => Ok(None),
            Err(e) => Err(e),
        }
    }

    /// Finds the first entry of this name that is not deleted. Where the
    /// metadata area cannot be read there is none.
    pub fn find_by_name(&self, file: &[u8], name: &str) -> (r: Option<MetadataEntry>)
        requires
            self@.metadata_offset() <= u64::MAX,
            self@.scannable(file@),
        ensures
            r is Some == self@.name_taken(file@, name@),
            r matches Some(e) ==> exists|i: int|
                {
                    &&& 0 <= i < self@.scanned(file@)->Ok_0.len()
                    &&& (#[trigger] self@.scanned(file@)->Ok_0[i]).0 == e@
                    &&& !e@.deleted()
                    &&& e@.name == name@
                    &&& forall|j: int|
                        0 <= j < i ==> (#[trigger] self@.scanned(file@)->Ok_0[j]).0.deleted()
                            || self@.scanned(file@)->Ok_0[j].0.name != name@
                },
    {
        let mut list = match self.scan_all_entries(file) {
            Err(_) => {
                return None;
            },
            Ok(list) => list,
        };
        let ghost all = self@.scanned(file@)->Ok_0;
        let mut i: usize = 0;
        while i < list.len()
            invariant
                i <= list@.len(),
                all == self@.scanned(file@)->Ok_0,
                self@.scanned(file@) is Ok,
                all.len() == list@.len(),
                forall|j: int| 0 <= j < list@.len() ==> #[trigger] list@[j]@ == all[j].0,
                forall|j: int|
                    0 <= j < i ==> (#[trigger] all[j]).0.deleted() || all[j].0.name != name@,
            decreases list@.len() - i,
        {
            assert(list@[i as int]@ == all[i as int].0);
            if list[i].flags & META_FLAG_DELETED == 0 && same_text(list[i].name.as_str(), name) {
                let found = list.swap_remove(i);
                assert(all[i as int].0 == found@);
                return Some(found);
            }
            i += 1;
        }
        None
    }

    /// Finds what is known of the object that `key`, an identifier or a name,
    /// denotes, without reading its data.
    pub fn find_info(&self, file: &[u8], key: &str) -> (r: Result<ObjectInfo, MiniOsError>)
        requires
            self@.metadata_offset() <= u64::MAX,
            self@.scannable(file@),
        ensures
            match r {
                Ok(info) => self@.info_result(file@, key@) == Ok::<_, ErrorView>(info@),
                Err(e) => self@.info_result(file@, key@) == Err::<ObjectInfoView, _>(e@),
            },
    {
        match self.find_entry(file, key) {
            Err(e) => Err(e),
            Ok(None) => Err(MiniOsError::NotFound(key.to_owned())),
            Ok(Some(entry)) => Ok(entry.to_object_info()),
        }
    }

    /// Reads the object that `key`, an identifier or a name, denotes.
    pub fn get(&self, file: &[u8], key: &str) -> (r: Result<(ObjectInfo, Vec<u8>), MiniOsError>)
        requires
            self@.data_offset() <= u64::MAX,
            self@.scannable(file@),
            self@.lookup(file@, key@) matches Ok(Some((e, _))) ==> self@.addressable(
                e.block_pointers,
            ),
        ensures
            match r {
                Ok((info, data)) => self@.get_result(file@, key@) == Ok::<_, ErrorView>(
                    (info@, data@),
                ),
                Err(e) => self@.get_result(file@, key@) == Err::<(ObjectInfoView, Seq<u8>), _>(e@),
            },
    {
        let entry = match self.find_entry(file, key) {
            Err(e) => {
                return Err(e);
            },
            Ok(None) => {
                return Err(no_object_error(key));
            },
            Ok(Some(entry)) => entry,
        };
        assert(file@.len() == file.len());
        let block_size = self.super_block.block_size;
        let mut data: Vec<u8> = Vec::new();
        let mut i: usize = 0;
        assert(entry.block_pointers@.take(0) =~= Seq::empty());
        while i < entry.block_pointers.len()
            invariant
                i <= entry.block_pointers@.len(),
                file@.len() == file.len(),
                block_size == self.super_block.block_size,
                self@.addressable(entry.block_pointers@),
                self@.read_blocks(file@, entry.block_pointers@.take(i as int)) == Some(data@),
                self@.lookup(file@, key@) is Ok,
                self@.lookup(file@, key@)->Ok_0 is Some,
                (self@.lookup(file@, key@)->Ok_0->0).0 == entry@,
            decreases entry.block_pointers@.len() - i,
        {
            let ghost upto = entry.block_pointers@.take(i + 1);
            assert(upto.drop_last() =~= entry.block_pointers@.take(i as int));
            let block = entry.block_pointers[i];
            let offset = self.block_offset(block);
            if offset > file.len() as u64 || block_size as u64 > file.len() as u64 - offset {
                proof {
                    lemma_read_blocks_none(self@, file@, entry.block_pointers@, i + 1);
                }
                return Err(short_read_error());
            }
            let chunk = slice_subrange(file, offset as usize, (offset + block_size as u64) as usize);
            push_bytes(&mut data, chunk);
            i += 1;
        }
        assert(entry.block_pointers@.take(i as int) =~= entry.block_pointers@);
        if entry.size < data.len() as u64 {
            data.truncate(entry.size as usize);
        }
        Ok((entry.to_object_info(), data))
    }

    /// Lists the objects that are not deleted, in the order of the metadata
    /// area.
    pub fn list(&self, file: &[u8]) -> (r: Result<Vec<ObjectInfo>, MiniOsError>)
        requires
            self@.metadata_offset() <= u64::MAX,
            self@.scannable(file@),
        ensures
            match r {
                Ok(list) => self@.list_result(file@) == Ok::<_, ErrorView>(infos_of(list@)),
                Err(e) => self@.list_result(file@) == Err::<Seq<ObjectInfoView>, _>(e@),
            },
    {
        let entries = match self.scan_all_entries(file) {
            Err(e) => {
                return Err(e);
            },
            Ok(entries) => entries,
        };
        let ghost all = self@.scanned(file@)->Ok_0;
        let mut objects: Vec<ObjectInfo> = Vec::new();
        let mut i: usize = 0;
        assert(infos_of(objects@) =~= live_infos(all.take(0)));
        while i < entries.len()
            invariant
                i <= entries@.len(),
                all.len() == entries@.len(),
                forall|j: int| 0 <= j < entries@.len() ==> #[trigger] entries@[j]@ == all[j].0,
                infos_of(objects@) == live_infos(all.take(i as int)),
            decreases entries@.len() - i,
        {
            assert(entries@[i as int]@ == all[i as int].0);
            assert(all.take(i + 1).drop_last() =~= all.take(i as int));
            if entries[i].flags & META_FLAG_DELETED == 0 {
                let ghost before = infos_of(objects@);
                objects.push(entries[i].to_object_info());
                assert(infos_of(objects@) =~= before.push(entries@[i as int]@.info()));
            }
            i += 1;
        }
        assert(all.take(i as int) =~= all);
        Ok(objects)
    }
}

/// Whether the identifiers are the same.
fn same_id(a: &[u8; 16], b: &[u8; 16]) -> (r: bool)
    ensures
        r == (a@ == b@),
{
    let mut i: usize = 0;
    while i < 16
        invariant
            i <= 16,
            forall|j: int| 0 <= j < i ==> a@[j] == b@[j],
        decreases 16 - i,
    {
        if a[i] != b[i] {
            return false;
        }
        i += 1;
    }
    assert(a@ =~= b@);
    true
}

/// The list in reverse order.
fn reversed(list: Vec<MetadataEntry>) -> (r: Vec<MetadataEntry>)
    ensures
        r@ == list@.reverse(),
{
    let mut list = list;
    let ghost all = list@;
    let mut out: Vec<MetadataEntry> = Vec::new();
    while list.len() > 0
        invariant
            out@.len() + list@.len() == all.len(),
            list@ == all.take(list@.len() as int),
            forall|i: int| 0 <= i < out@.len() ==> #[trigger] out@[i] == all[all.len() - 1 - i],
        decreases list@.len(),
    {
        if let Some(entry) = list.pop() {
            out.push(entry);
        }
    }
    assert(out@ =~= all.reverse());
    out
}

proof fn lemma_read_blocks_none(s: StoreView, file: Seq<u8>, blocks: Seq<u64>, i: int)
    requires
        0 <= i <= blocks.len(),
        s.read_blocks(file, blocks.take(i)) is None,
    ensures
        s.read_blocks(file, blocks) is None,
    decreases blocks.len() - i,
{
    if i < blocks.len() {
        assert(blocks.take(i + 1).drop_last() =~= blocks.take(i));
        lemma_read_blocks_none(s, file, blocks, i + 1);
    } else {
        assert(blocks.take(i) =~= blocks);
    }
}

impl StoreView {
    /// What is recorded of an object that is stored under `uuid` at `now`.
    pub open spec fn new_entry(
        name: Seq<char>,
        size: nat,
        content_type: Seq<char>,
        tags: Seq<char>,
        blocks: Seq<u64>,
        uuid: Seq<u8>,
        now: i64,
    ) -> EntryView {
        EntryView {
            uuid,
            flags: 0,
            name,
            size: size as u64,
            content_type,
            created_at: now,
            tags,
            block_pointers: blocks,
            entry_size: 0,
        }
    }

    /// The changes that put `data` into the blocks.
    pub open spec fn block_writes(self, blocks: Seq<u64>, data: Seq<u8>) -> Seq<FileOpView> {
        Seq::new(
            blocks.len(),
            |i: int|
                FileOpView::Write {
                    offset: self.block_offset(blocks[i] as int) as u64,
                    data: padded_chunk(data, i, self.sb.block_size as int),
                },
        )
    }

    /// Finding room for `data` under `name` and putting it there: the first half
    /// of storing an object. The blocks are returned. Where the bitmap has fewer
    /// free blocks than the superblock counts, which only damage to the file
    /// brings about, those that there are stay marked.
    pub open spec fn reserve_step(self, file: Seq<u8>, name: Seq<char>, data: Seq<u8>) -> Step<
        Seq<u64>,
    > {
        let needed = blocks_for(data.len() as int, self.sb.block_size as int);
        let blocks = chosen_blocks(self.bitmap, self.sb.total_blocks as int, needed);
        let bits = bit_writes(self.bitmap, blocks, true);
        if self.name_taken(file, name) {
            Step {
                store: self,
                writes: Seq::empty(),
                result: Err(ErrorView::AlreadyExists("名为 '"@ + name + "' 的对象已存在"@)),
            }
        } else if self.sb.free_blocks < needed {
            Step { store: self, writes: Seq::empty(), result: Err(ErrorView::NoSpace) }
        } else if blocks.len() < needed {
            Step { store: self.marked(blocks, true), writes: bits, result: Err(ErrorView::NoSpace) }
        } else {
            Step {
                store: StoreView {
                    sb: SuperBlock {
                        free_blocks: (self.sb.free_blocks - needed) as u64,
                        ..self.sb
                    },
                    dirty: true,
                    ..self.marked(blocks, true)
                },
                writes: bits + self.block_writes(blocks, data),
                result: Ok(blocks),
            }
        }
    }

    /// Recording an object: the second half of storing it.
    pub open spec fn record_step(self, entry: EntryView) -> Step<ObjectInfoView> {
        let len = entry.encoded_len();
        let sb = SuperBlock {
            metadata_area_size: (self.sb.metadata_area_size + len) as u64,
            object_count: (self.sb.object_count + 1) as u64,
            ..self.sb
        };
        let after = StoreView { sb, dirty: true, ..self };
        if self.sb.metadata_area_size + len > self.sb.max_metadata_area_size {
            Step {
                store: self,
                writes: Seq::empty(),
                result: Err(ErrorView::Storage("元数据区已满：无法存储更多对象"@)),
            }
        } else {
            Step {
                store: after.flushed(),
                writes: seq![
                    FileOpView::Write {
                        offset: (self.metadata_offset() + self.sb.metadata_area_size) as u64,
                        data: entry.encode(),
                    },
                ] + after.flush_writes(),
                result: Ok(entry.info()),
            }
        }
    }

    /// Storing an object under the identifier `uuid` at the time `now`.
    pub open spec fn put_step(
        self,
        file: Seq<u8>,
        name: Seq<char>,
        data: Seq<u8>,
        content_type: Seq<char>,
        tags: Seq<char>,
        uuid: Seq<u8>,
        now: i64,
    ) -> Step<ObjectInfoView> {
        let first = self.reserve_step(file, name, data);
        match first.result {
            Err(e) => Step { store: first.store, writes: first.writes, result: Err(e) },
            Ok(blocks) => {
                let second = first.store.record_step(
                    StoreView::new_entry(name, data.len(), content_type, tags, blocks, uuid, now),
                );
                Step {
                    store: second.store,
                    writes: first.writes + second.writes,
                    result: second.result,
                }
            },
        }
    }

    /// Whether an object can be stored within the limits of the machine's
    /// numbers: its entry's length fits in 32 bits, and one more object can be
    /// counted.
    pub open spec fn can_record(
        self,
        name: Seq<char>,
        len: nat,
        content_type: Seq<char>,
        tags: Seq<char>,
    ) -> bool {
        &&& self.sb.object_count < u64::MAX
        &&& 47 + encode_utf8(name).len() + encode_utf8(content_type).len() + encode_utf8(tags).len()
            + 8 * blocks_for(len as int, self.sb.block_size as int) <= u32::MAX
    }

    /// Deleting the object that `key` denotes.
    pub open spec fn delete_step(self, file: Seq<u8>, key: Seq<char>) -> Step<()> {
        match self.lookup(file, key) {
            Err(e) => Step { store: self, writes: Seq::empty(), result: Err(e) },
            Ok(None) => Step { store: self, writes: Seq::empty(), result: Err(no_object(key)) },
            Ok(Some((e, at))) => {
                let n = in_range_from(e.block_pointers, self.sb.total_blocks, 0);
                let freed = e.block_pointers.take(n);
                if n < e.block_pointers.len() {
                    Step {
                        store: self.marked(freed, false),
                        writes: bit_writes(self.bitmap, freed, false),
                        result: Err(
                            out_of_range(
                                e.block_pointers[n] as nat,
                                self.sb.total_blocks as nat,
                            ),
                        ),
                    }
                } else {
                    let after = StoreView {
                        sb: SuperBlock {
                            free_blocks: (self.sb.free_blocks + e.block_pointers.len()) as u64,
                            object_count: (self.sb.object_count - 1) as u64,
                            ..self.sb
                        },
                        dirty: true,
                        ..self.marked(e.block_pointers, false)
                    };
                    Step {
                        store: after.flushed(),
                        writes: bit_writes(self.bitmap, e.block_pointers, false) + seq![
                            FileOpView::Write {
                                offset: (at + 16) as u64,
                                data: seq![META_FLAG_DELETED],
                            },
                        ] + after.flush_writes(),
                        result: Ok(()),
                    }
                }
            },
        }
    }
}

/// The data of one block: the piece of `data` from `start` on, filled up with
/// zeros.
fn chunk_of(data: &[u8], start: usize, block_size: u32) -> (r: Vec<u8>)
    requires
        start <= data@.len(),
    ensures
        r@.len() == block_size,
        forall|j: int| 0 <= j < block_size ==> #[trigger] r@[j] == byte_at(data@, start + j),
{
    assert(data@.len() == data.len());
    let left = data.len() - start;
    let end = if left < block_size as usize {
        data.len()
    } else {
        start + block_size as usize
    };
    let mut chunk = copy_range(data, start, end);
    let padding = zero_bytes(block_size as usize - (end - start));
    push_bytes(&mut chunk, padding.as_slice());
    chunk
}

/// How many blocks `len` bytes take. An empty object takes one.
pub fn blocks_needed(len: u64, block_size: u32) -> (r: u64)
    requires
        block_size > 0,
    ensures
        r == blocks_for(len as int, block_size as int),
        r >= 1,
{
    if len == 0 {
        1
    } else {
        proof {
            lemma_blocks_for(len as int, block_size as int);
        }
        (len - 1) / block_size as u64 + 1
    }
}

/// Enough blocks are taken, and none of them is superfluous.
pub proof fn lemma_blocks_for(len: int, block_size: int)
    requires
        0 <= len,
        block_size > 0,
    ensures
        1 <= blocks_for(len, block_size),
        len <= blocks_for(len, block_size) * block_size,
        (blocks_for(len, block_size) - 1) * block_size <= len,
        len > 0 ==> (len - 1) / block_size + 1 == blocks_for(len, block_size),
        len > 0 ==> (len - 1) / block_size < len,
{
    if len > 0 {
        let q = (len - 1) / block_size;
        vstd::arithmetic::div_mod::lemma_fundamental_div_mod(len - 1, block_size);
        vstd::arithmetic::div_mod::lemma_div_pos_is_pos(len - 1, block_size);
        vstd::arithmetic::div_mod::lemma_div_is_ordered_by_denominator(len - 1, 1, block_size);
        vstd::arithmetic::div_mod::lemma_add_mod_noop(len - 1, block_size, block_size);
        assert((len - 1 + block_size) / block_size == q + 1) by {
            vstd::arithmetic::div_mod::lemma_div_plus_one(len - 1, block_size);
        }
        assert((q + 1) * block_size == block_size * q + block_size) by (nonlinear_arith);
        assert(q * block_size == block_size * q) by (nonlinear_arith);
        assert(blocks_for(len, block_size) - 1 == q);
    } else {
        assert(1 * block_size == block_size && 0 * block_size == 0);
    }
}

impl ObjectStorage {
    /// Finds room for `data` under `name` and puts it there.
    pub fn reserve(
        &mut self,
        file: &[u8],
        name: &str,
        data: &[u8],
        writes: &mut Vec<FileOp>,
    ) -> (r: Result<Vec<u64>, MiniOsError>)
        requires
            old(self)@.operable(),
            old(self)@.scannable(file@),
        ensures
            ({
                let step = old(self)@.reserve_step(file@, name@, data@);
                &&& final(self)@ == step.store
                &&& final(self)@.operable()
                &&& ops_of(final(writes)@) == ops_of(old(writes)@) + step.writes
                &&& match r {
                    Ok(blocks) => {
                        &&& step.result == Ok::<_, ErrorView>(blocks@)
                        &&& blocks@.len() == blocks_for(
                            data@.len() as int,
                            old(self)@.sb.block_size as int,
                        )
                    },
                    Err(e) => step.result == Err::<Seq<u64>, _>(e@),
                }
            }),
    {
        let ghost s = self@;
        let ghost before = ops_of(writes@);
        assert(before + Seq::<FileOpView>::empty() =~= before);
        assert(data@.len() == data.len());
        proof {
            lemma_block_fits(s, 0);
        }
        if self.find_by_name(file, name).is_some() {
            let mut m = "名为 '".to_owned();
            m.append(name);
            m.append("' 的对象已存在");
            return Err(MiniOsError::AlreadyExists(m));
        }
        let block_size = self.super_block.block_size;
        let needed = blocks_needed(data.len() as u64, block_size);
        if self.super_block.free_blocks < needed {
            return Err(MiniOsError::NoSpace);
        }
        let blocks = match self.allocate_blocks(needed, writes) {
            Err(e) => {
                return Err(e);
            },
            Ok(blocks) => blocks,
        };
        let ghost bits = ops_of(writes@);
        let ghost all = s.block_writes(blocks@, data@);
        let mut i: usize = 0;
        assert(bits + all.take(0) =~= bits);
        while i < blocks.len()
            invariant
                i <= blocks@.len(),
                s.operable(),
                self@.operable(),
                self@.sb == (SuperBlock { free_blocks: self@.sb.free_blocks, ..s.sb }),
                block_size == s.sb.block_size,
                data@.len() == data.len(),
                blocks@.len() == blocks_for(data@.len() as int, block_size as int),
                forall|j: int| 0 <= j < blocks@.len() ==> #[trigger] blocks@[j] < s.sb.total_blocks,
                all == s.block_writes(blocks@, data@),
                ops_of(writes@) == bits + all.take(i as int),
            decreases blocks@.len() - i,
        {
            proof {
                lemma_blocks_for(data@.len() as int, block_size as int);
                lemma_block_fits(s, blocks@[i as int] as int);
                assert(i * block_size <= (blocks@.len() - 1) * block_size) by (nonlinear_arith)
                    requires
                        i <= blocks@.len() - 1,
                ;
            }
            let offset = self.block_offset(blocks[i]);
            let chunk = chunk_of(data, i * block_size as usize, block_size);
            assert(chunk@ =~= padded_chunk(data@, i as int, block_size as int));
            push_write(writes, offset, chunk);
            i += 1;
            assert(bits + all.take(i as int) =~= (bits + all.take(i as int - 1)).push(
                all[i as int - 1],
            ));
        }
        assert(all.take(i as int) =~= all);
        assert(bits + all =~= before + s.reserve_step(file@, name@, data@).writes);
        Ok(blocks)
    }

    /// Appends the entry's bytes to the metadata area.
    pub fn write_metadata_entry(&mut self, entry_bytes: Vec<u8>, writes: &mut Vec<FileOp>) -> (r:
        Result<(), MiniOsError>)
        requires
            old(self)@.data_offset() <= u64::MAX,
        ensures
            ({
                let s = old(self)@;
                let len = entry_bytes@.len();
                if s.sb.metadata_area_size + len > s.sb.max_metadata_area_size {
                    &&& r matches Err(e) && e@ == ErrorView::Storage(
                        "元数据区已满：无法存储更多对象"@,
                    )
                    &&& final(self)@ == s
                    &&& final(writes)@ == old(writes)@
                } else {
                    &&& r is Ok
                    &&& final(self)@ == (StoreView {
                        sb: SuperBlock {
                            metadata_area_size: (s.sb.metadata_area_size + len) as u64,
                            ..s.sb
                        },
                        dirty: true,
                        ..s
                    })
                    &&& ops_of(final(writes)@) == ops_of(old(writes)@).push(
                        FileOpView::Write {
                            offset: (s.metadata_offset() + s.sb.metadata_area_size) as u64,
                            data: entry_bytes@,
                        },
                    )
                }
            }),
    {
        let area = self.super_block.metadata_area_size;
        let limit = self.super_block.max_metadata_area_size;
        assert(entry_bytes@.len() == entry_bytes.len());
        let len = entry_bytes.len() as u64;
        if area > limit || len > limit - area {
            return Err(MiniOsError::Storage("元数据区已满：无法存储更多对象".to_owned()));
        }
        self.super_block.metadata_area_size = area + len;
        let offset = self.metadata_offset() + area;
        push_write(writes, offset, entry_bytes);
        self.dirty = true;
        Ok(())
    }

    /// Records an object whose data is in place.
    pub fn record(&mut self, entry: &MetadataEntry, writes: &mut Vec<FileOp>) -> (r: Result<
        ObjectInfo,
        MiniOsError,
    >)
        requires
            old(self)@.data_offset() <= u64::MAX,
            old(self)@.sb.object_count < u64::MAX,
            entry@.encoded_len() <= u32::MAX,
        ensures
            ({
                let step = old(self)@.record_step(entry@);
                &&& final(self)@ == step.store
                &&& ops_of(final(writes)@) == ops_of(old(writes)@) + step.writes
                &&& match r {
                    Ok(info) => {
                        &&& step.result == Ok::<_, ErrorView>(info@)
                        &&& parsed_uuid(hyphenated(entry@.uuid)) == Some(entry@.uuid)
                    },
                    Err(e) => step.result == Err::<ObjectInfoView, _>(e@),
                }
            }),
    {
        let ghost before = ops_of(writes@);
        assert(before + Seq::<FileOpView>::empty() =~= before);
        let info = entry.to_object_info();
        let entry_bytes = entry.to_bytes();
        if let Err(e) = self.write_metadata_entry(entry_bytes, writes) {
            return Err(e);
        }
        self.super_block.object_count = self.super_block.object_count + 1;
        self.dirty = true;
        self.flush(writes);
        assert(ops_of(writes@) =~= before + old(self)@.record_step(entry@).writes);
        Ok(info)
    }

    /// Stores an object under a new identifier.
    pub fn put(
        &mut self,
        file: &[u8],
        name: &str,
        data: &[u8],
        content_type: &str,
        tags: &str,
        writes: &mut Vec<FileOp>,
    ) -> (r: Result<ObjectInfo, MiniOsError>)
        requires
            old(self)@.operable(),
            old(self)@.scannable(file@),
            old(self)@.reserve_step(file@, name@, data@).result is Ok ==> old(self)@.can_record(
                name@,
                data@.len(),
                content_type@,
                tags@,
            ),
        ensures
            exists|uuid: Seq<u8>, now: i64|
                {
                    let step = #[trigger] old(self)@.put_step(
                        file@,
                        name@,
                        data@,
                        content_type@,
                        tags@,
                        uuid,
                        now,
                    );
                    &&& uuid.len() == 16
                    &&& r is Ok ==> is_issued_id(uuid)
                    &&& final(self)@ == step.store
                    &&& ops_of(final(writes)@) == ops_of(old(writes)@) + step.writes
                    &&& match r {
                        Ok(info) => step.result == Ok::<_, ErrorView>(info@),
                        Err(e) => step.result == Err::<ObjectInfoView, _>(e@),
                    }
                },
            final(self)@.operable(),
    {
        let ghost s = self@;
        let ghost before = ops_of(writes@);
        proof {
            lemma_block_fits(s, 0);
        }
        let blocks = match self.reserve(file, name, data, writes) {
            Err(e) => {
                proof {
                    let uuid = zeros(16);
                    let step = s.put_step(
                        file@,
                        name@,
                        data@,
                        content_type@,
                        tags@,
                        uuid,
                        0,
                    );
                    assert(uuid.len() == 16 && self@ == step.store);
                }
                return Err(e);
            },
            Ok(blocks) => blocks,
        };
        let entry = MetadataEntry::new(name, data.len() as u64, content_type, tags, blocks);
        proof {
            assert(entry@ == StoreView::new_entry(
                name@,
                data@.len(),
                content_type@,
                tags@,
                blocks@,
                entry.uuid@,
                entry.created_at,
            ));
        }
        let r = self.record(&entry, writes);
        proof {
            let step = s.put_step(
                file@,
                name@,
                data@,
                content_type@,
                tags@,
                entry.uuid@,
                entry.created_at,
            );
            assert(ops_of(writes@) =~= before + step.writes);
            assert(self@ == step.store);
        }
        r
    }

    /// Stores an object under the identifier `uuid` at the time `now`.
    pub fn put_at(
        &mut self,
        file: &[u8],
        name: &str,
        data: &[u8],
        content_type: &str,
        tags: &str,
        uuid: [u8; 16],
        now: i64,
        writes: &mut Vec<FileOp>,
    ) -> (r: Result<ObjectInfo, MiniOsError>)
        requires
            old(self)@.operable(),
            old(self)@.scannable(file@),
            old(self)@.reserve_step(file@, name@, data@).result is Ok ==> old(self)@.can_record(
                name@,
                data@.len(),
                content_type@,
                tags@,
            ),
        ensures
            ({
                let step = old(self)@.put_step(
                    file@,
                    name@,
                    data@,
                    content_type@,
                    tags@,
                    uuid@,
                    now,
                );
                &&& final(self)@ == step.store
                &&& final(self)@.operable()
                &&& ops_of(final(writes)@) == ops_of(old(writes)@) + step.writes
                &&& match r {
                    Ok(info) => step.result == Ok::<_, ErrorView>(info@),
                    Err(e) => step.result == Err::<ObjectInfoView, _>(e@),
                }
            }),
    {
        let ghost s = self@;
        let ghost before = ops_of(writes@);
        proof {
            lemma_block_fits(s, 0);
        }
        let blocks = match self.reserve(file, name, data, writes) {
            Err(e) => {
                return Err(e);
            },
            Ok(blocks) => blocks,
        };
        let entry = MetadataEntry::identified(
            uuid,
            now,
            name,
            data.len() as u64,
            content_type,
            tags,
            blocks,
        );
        proof {
            assert(entry@ == StoreView::new_entry(
                name@,
                data@.len(),
                content_type@,
                tags@,
                blocks@,
                uuid@,
                now,
            ));
        }
        let r = self.record(&entry, writes);
        proof {
            let step = s.put_step(file@, name@, data@, content_type@, tags@, uuid@, now);
            assert(ops_of(writes@) =~= before + step.writes);
        }
        r
    }

    /// Deletes the object that `key`, an identifier or a name, denotes: its
    /// blocks become free, and its entry is marked.
    pub fn delete(&mut self, file: &[u8], key: &str, writes: &mut Vec<FileOp>) -> (r: Result<
        (),
        MiniOsError,
    >)
        requires
            old(self)@.operable(),
            old(self)@.scannable(file@),
            old(self)@.lookup(file@, key@) matches Ok(Some((e, _))) ==> {
                &&& old(self)@.sb.free_blocks + e.block_pointers.len() <= u64::MAX
                &&& old(self)@.sb.object_count >= 1
            },
        ensures
            ({
                let step = old(self)@.delete_step(file@, key@);
                &&& final(self)@ == step.store
                &&& final(self)@.operable()
                &&& ops_of(final(writes)@) == ops_of(old(writes)@) + step.writes
                &&& match r {
                    Ok(_) => step.result is Ok,
                    Err(e) => step.result == Err::<(), _>(e@),
                }
            }),
    {
        let ghost s = self@;
        let ghost before = ops_of(writes@);
        assert(before + Seq::<FileOpView>::empty() =~= before);
        proof {
            lemma_block_fits(s, 0);
        }
        let (entry, at) = match self.find_entry_with_offset(file, key) {
            Err(e) => {
                return Err(e);
            },
            Ok(None) => {
                return Err(no_object_error(key));
            },
            Ok(Some(found)) => found,
        };
        let ghost pointers = entry.block_pointers@;
        let mut i: usize = 0;
        assert(pointers.take(0) =~= Seq::empty());
        while i < entry.block_pointers.len()
            invariant
                i <= pointers.len(),
                pointers == entry.block_pointers@,
                s.operable(),
                self@.operable(),
                s.lookup(file@, key@) == Ok::<_, ErrorView>(Some((entry@, at as int))),
                before == ops_of(old(writes)@),
                s == old(self)@,
                self@ == s.marked(pointers.take(i as int), false),
                ops_of(writes@) == before + bit_writes(s.bitmap, pointers.take(i as int), false),
                in_range_from(pointers, s.sb.total_blocks, 0) == in_range_from(
                    pointers,
                    s.sb.total_blocks,
                    i as int,
                ),
            decreases pointers.len() - i,
        {
            let ghost upto = pointers.take(i + 1);
            assert(upto.drop_last() =~= pointers.take(i as int));
            if let Err(e) = self.set_bitmap_bit(entry.block_pointers[i], false, writes) {
                return Err(e);
            }
            i += 1;
            assert(ops_of(writes@) =~= before + bit_writes(s.bitmap, upto, false));
        }
        assert(pointers.take(i as int) =~= pointers);
        self.super_block.free_blocks = self.super_block.free_blocks
            + entry.block_pointers.len() as u64;
        let mut mark: Vec<u8> = Vec::new();
        mark.push(META_FLAG_DELETED);
        assert(mark@ =~= seq![META_FLAG_DELETED]);
        assert(file@.len() == file.len());
        proof {
            lemma_lookup_place(s, file@, key@);
        }
        push_write(writes, at + 16, mark);
        self.super_block.object_count = self.super_block.object_count - 1;
        self.dirty = true;
        self.flush(writes);
        assert(ops_of(writes@) =~= before + s.delete_step(file@, key@).writes);
        Ok(())
    }

    /// The figures of the store.
    pub fn status(&self) -> (r: StorageStatus)
        requires
            self@.sb.free_blocks <= self@.sb.total_blocks,
            self@.sb.total_blocks * self@.sb.block_size <= u64::MAX,
        ensures
            r.total_blocks == self.super_block.total_blocks,
            r.free_blocks == self.super_block.free_blocks,
            r.used_blocks == self.super_block.total_blocks - self.super_block.free_blocks,
            r.block_size == self.super_block.block_size,
            r.object_count == self.super_block.object_count,
            r.max_objects == self.super_block.max_metadata_area_size / 256,
            r.metadata_area_size == self.super_block.metadata_area_size,
            r.max_metadata_area_size == self.super_block.max_metadata_area_size,
            r.store_path@ == Seq::<char>::empty(),
            r.total_capacity == self.super_block.total_blocks * self.super_block.block_size,
            r.used_capacity == (self.super_block.total_blocks - self.super_block.free_blocks)
                * self.super_block.block_size,
            r.free_capacity == self.super_block.free_blocks * self.super_block.block_size,
    {
        let block_size = self.super_block.block_size as u64;
        let total = self.super_block.total_blocks;
        let free = self.super_block.free_blocks;
        proof {
            assert(0 <= (total - free) * block_size <= total * block_size && 0 <= free * block_size
                <= total * block_size) by (nonlinear_arith)
                requires
                    0 <= free <= total,
            ;
        }
        StorageStatus {
            total_blocks: total,
            free_blocks: free,
            used_blocks: total - free,
            block_size: self.super_block.block_size,
            object_count: self.super_block.object_count,
            max_objects: self.super_block.max_metadata_area_size / 256,
            metadata_area_size: self.super_block.metadata_area_size,
            max_metadata_area_size: self.super_block.max_metadata_area_size,
            store_path: String::new(),
            total_capacity: total * block_size,
            used_capacity: (total - free) * block_size,
            free_capacity: free * block_size,
        }
    }

    /// Writes the superblock and the bitmap, if they may differ from the file.
    pub fn flush(&mut self, writes: &mut Vec<FileOp>)
        ensures
            final(self)@ == old(self)@.flushed(),
            ops_of(final(writes)@) == ops_of(old(writes)@) + old(self)@.flush_writes(),
    {
        let ghost before = ops_of(writes@);
        if self.dirty {
            push_write(writes, 0, self.super_block.to_bytes());
            let bits = copy_range(self.bitmap.as_slice(), 0, self.bitmap.len());
            assert(bits@ =~= self.bitmap@);
            push_write(writes, ObjectStorage::bitmap_offset(), bits);
            self.dirty = false;
        }
        assert(ops_of(writes@) =~= before + old(self)@.flush_writes());
    }
}

/// A key that is no identifier is that of no entry.
proof fn lemma_no_id(entries: Seq<(EntryView, int)>, key: Seq<char>, i: int)
    requires
        0 <= i <= entries.len(),
        parsed_uuid(key) is None,
    ensures
        id_from(entries, key, i) == entries.len(),
    decreases entries.len() - i,
{
    if i < entries.len() {
        lemma_no_id(entries, key, i + 1);
    }
}

proof fn lemma_id_from(entries: Seq<(EntryView, int)>, key: Seq<char>, i: int)
    requires
        0 <= i <= entries.len(),
    ensures
        i <= id_from(entries, key, i) <= entries.len(),
        id_from(entries, key, i) < entries.len() ==> identified_by(
            entries[id_from(entries, key, i)].0,
            key,
        ),
        forall|j: int|
            i <= j < id_from(entries, key, i) ==> !identified_by(#[trigger] entries[j].0, key),
    decreases entries.len() - i,
{
    if i < entries.len() && !identified_by(entries[i].0, key) {
        lemma_id_from(entries, key, i + 1);
    }
}

proof fn lemma_name_from(entries: Seq<(EntryView, int)>, key: Seq<char>, i: int)
    requires
        0 <= i <= entries.len(),
    ensures
        i <= name_from(entries, key, i) <= entries.len(),
        name_from(entries, key, i) < entries.len() ==> named_by(
            entries[name_from(entries, key, i)].0,
            key,
        ),
        forall|j: int|
            i <= j < name_from(entries, key, i) ==> !named_by(#[trigger] entries[j].0, key),
    decreases entries.len() - i,
{
    if i < entries.len() && !named_by(entries[i].0, key) {
        lemma_name_from(entries, key, i + 1);
    }
}

/// The entry at [`match_of`] is the first with the identifier or, where none
/// has it, the first with the name.
pub proof fn lemma_match_of(entries: Seq<(EntryView, int)>, key: Seq<char>)
    ensures
        ({
            let m = match_of(entries, key);
            &&& 0 <= m <= entries.len()
            &&& m < entries.len() && identified_by(entries[m].0, key) ==> forall|j: int|
                0 <= j < m ==> !identified_by(#[trigger] entries[j].0, key)
            &&& m < entries.len() && !identified_by(entries[m].0, key) ==> {
                &&& named_by(entries[m].0, key)
                &&& forall|j: int|
                    0 <= j < entries.len() ==> !identified_by(#[trigger] entries[j].0, key)
                &&& forall|j: int| 0 <= j < m ==> !named_by(#[trigger] entries[j].0, key)
            }
            &&& m == entries.len() ==> forall|j: int|
                0 <= j < entries.len() ==> !answers(#[trigger] entries[j].0, key)
        }),
{
    lemma_id_from(entries, key, 0);
    lemma_name_from(entries, key, 0);
}

/// Every entry of a scan stands inside the area that was read.
proof fn lemma_scan_places(meta: Seq<u8>, at: int)
    requires
        scan(meta, at) is Some,
        0 <= at,
    ensures
        forall|i: int|
            0 <= i < scan(meta, at)->0.len() ==> at <= (#[trigger] scan(meta, at)->0[i]).1
                && scan(meta, at)->0[i].1 + 47 <= meta.len(),
    decreases meta.len() - at,
{
    reveal(parse_entry);
    if at < meta.len() {
        match parse_entry(meta.skip(at)) {
            EntryParse::Entry(e) => {
                if at + e.encoded_len() < meta.len() {
                    lemma_scan_places(meta, at + e.encoded_len());
                }
            },
            _ => {},
        }
    }
}

/// What is found stands inside the metadata area.
pub proof fn lemma_lookup_place(s: StoreView, file: Seq<u8>, key: Seq<char>)
    requires
        s.operable(),
        s.scannable(file),
        s.lookup(file, key) is Ok,
        s.lookup(file, key)->Ok_0 is Some,
    ensures
        s.metadata_offset() <= (s.lookup(file, key)->Ok_0->0).1,
        (s.lookup(file, key)->Ok_0->0).1 + 47 <= file.len(),
{
    let entries = s.scanned(file)->Ok_0;
    lemma_match_of(entries, key);
    let m = s.meta_bytes(file)->0;
    lemma_scan_places(m, 0);
    let i = match_of(entries, key);
    assert(scan(m, 0)->0[i].1 + 47 <= m.len());
}

impl StoreView {
    /// A new store, before anything is written.
    pub open spec fn created(block_size: u32, total_blocks: u64, max_objects: u64, now: i64) -> StoreView {
        let sb = SuperBlock::fresh(block_size, total_blocks, (max_objects * 256) as u64, now);
        StoreView { sb, bitmap: zeros(sb.bitmap_size as nat), dirty: true }
    }

    /// How many blocks the superblock, the bitmap and the metadata area take.
    pub open spec fn reserved_blocks(self) -> int {
        (self.data_offset() + self.sb.block_size - 1) / (self.sb.block_size as int)
    }

    /// Laying out the file of a new store. Where more blocks are reserved than
    /// there are, that is reported, with as many marked.
    pub open spec fn init_step(self) -> Step<()> {
        let reserved = self.reserved_blocks();
        let total = self.sb.total_blocks as int;
        let head = seq![
            FileOpView::SetLen(self.block_offset(total) as u64),
            FileOpView::Write { offset: 0, data: self.sb.encode() },
        ];
        if reserved > total {
            let blocks = slots_from(0, total as nat);
            Step {
                store: self.marked(blocks, true),
                writes: head + bit_writes(self.bitmap, blocks, true),
                result: Err(out_of_range(total as nat, total as nat)),
            }
        } else {
            let blocks = slots_from(0, reserved as nat);
            let after = self.marked(blocks, true);
            Step {
                store: StoreView { dirty: true, ..after },
                writes: (head + bit_writes(self.bitmap, blocks, true)).push(
                    FileOpView::Write { offset: SUPER_BLOCK_SIZE, data: after.bitmap },
                ),
                result: Ok(()),
            }
        }
    }

    /// Making a new store. It is flushed in any event.
    pub open spec fn create_step(
        block_size: u32,
        total_blocks: u64,
        max_objects: u64,
        now: i64,
    ) -> Step<()> {
        let first = StoreView::created(block_size, total_blocks, max_objects, now).init_step();
        Step {
            store: first.store.flushed(),
            writes: first.writes + first.store.flush_writes(),
            result: first.result,
        }
    }

    /// Loading the store that `file` holds.
    pub open spec fn load_result(file: Seq<u8>, block_size: u32) -> Result<StoreView, ErrorView> {
        if file.len() < SUPER_BLOCK_SIZE {
            Err(short_read())
        } else {
            match SuperBlock::parse(file.subrange(0, SUPER_BLOCK_SIZE as int)) {
                Err(e) => Err(e),
                Ok(sb) => if sb.block_size != block_size {
                    Err(
                        ErrorView::Storage(
                            "块大小不匹配：文件中为 "@ + decimal(sb.block_size as nat) + "，请求为 "@
                                + decimal(block_size as nat),
                        ),
                    )
                } else if SUPER_BLOCK_SIZE + sb.bitmap_size > file.len() {
                    Err(short_read())
                } else {
                    Ok(
                        StoreView {
                            sb,
                            bitmap: file.subrange(
                                SUPER_BLOCK_SIZE as int,
                                SUPER_BLOCK_SIZE + sb.bitmap_size,
                            ),
                            dirty: false,
                        },
                    )
                },
            }
        }
    }

    /// Opening a store: the one in the file, or, where the file is empty, a new
    /// one. What is returned is the store.
    pub open spec fn open_step(
        file: Seq<u8>,
        block_size: u32,
        total_blocks: u64,
        max_objects: u64,
        now: i64,
    ) -> (Seq<FileOpView>, Result<StoreView, ErrorView>) {
        if file.len() > 0 {
            (Seq::empty(), StoreView::load_result(file, block_size))
        } else {
            let step = StoreView::create_step(block_size, total_blocks, max_objects, now);
            (
                step.writes,
                match step.result {
                    Ok(_) => Ok(step.store),
                    Err(e) => Err(e),
                },
            )
        }
    }
}

/// Whether a store of this size can be laid out: its blocks are not empty, it
/// has some, and every figure fits in 64 bits, the bitmap in memory.
pub open spec fn can_create(block_size: u32, total_blocks: u64, max_objects: u64) -> bool {
    &&& block_size > 0
    &&& total_blocks > 0
    &&& total_blocks + 7 <= u64::MAX
    &&& bitmap_size_for(total_blocks as int) <= usize::MAX
    &&& SUPER_BLOCK_SIZE + bitmap_size_for(total_blocks as int) + max_objects * 256 + total_blocks
        * block_size <= u64::MAX
}

/// Whether a store of this shape can be made.
pub fn is_creatable(block_size: u32, total_blocks: u64, max_objects: u64) -> (r: bool)
    ensures
        r == can_create(block_size, total_blocks, max_objects),
{
    if block_size == 0 || total_blocks == 0 || total_blocks > u64::MAX - 7 {
        return false;
    }
    let bitmap = ((total_blocks + 7) / 8 + 7) / 8 * 8;
    assert(total_blocks * block_size <= 0xffff_ffff_ffff_ffff * 0xffff_ffff) by (nonlinear_arith)
        requires
            total_blocks <= 0xffff_ffff_ffff_ffff,
            block_size <= 0xffff_ffff,
    ;
    let need = SUPER_BLOCK_SIZE as u128 + bitmap as u128 + max_objects as u128 * 256
        + total_blocks as u128 * block_size as u128;
    bitmap <= usize::MAX as u64 && need <= 0xffff_ffff_ffff_ffffu128
}

impl ObjectStorage {
    /// Lays out the file of a new store: the superblock, the bitmap with the
    /// reserved blocks marked, and room for the rest.
    pub fn init_file(&mut self, writes: &mut Vec<FileOp>) -> (r: Result<(), MiniOsError>)
        requires
            old(self)@.operable(),
            old(self)@.sb.total_blocks > 0,
        ensures
            ({
                let step = old(self)@.init_step();
                &&& final(self)@ == step.store
                &&& final(self)@.operable()
                &&& ops_of(final(writes)@) == ops_of(old(writes)@) + step.writes
                &&& match r {
                    Ok(_) => step.result is Ok,
                    Err(e) => step.result == Err::<(), _>(e@),
                }
            }),
    {
        let ghost s = self@;
        let ghost before = ops_of(writes@);
        let total = self.super_block.total_blocks;
        let block_size = self.super_block.block_size as u64;
        proof {
            lemma_block_fits(s, 1);
            lemma_block_fits(s, total as int);
        }
        let ghost listed = writes@;
        writes.push(FileOp::SetLen(self.block_offset(total)));
        assert(ops_of(writes@) =~= before.push(FileOpView::SetLen(s.block_offset(total as int) as u64)));
        push_write(writes, 0, self.super_block.to_bytes());
        let ghost head = ops_of(writes@);
        let reserved = (self.data_offset() + block_size - 1) / block_size;
        assert(reserved == s.reserved_blocks());
        let mut i: u64 = 0;
        assert(slots_from(0, 0) =~= Seq::empty());
        assert(head + bit_writes(s.bitmap, slots_from(0, 0), true) =~= head);
        while i < reserved
            invariant
                i <= reserved,
                i <= total,
                total == s.sb.total_blocks,
                reserved == s.reserved_blocks(),
                s.operable(),
                s == old(self)@,
                before == ops_of(old(writes)@),
                self@.operable(),
                self@ == s.marked(slots_from(0, i as nat), true),
                head == before + seq![
                    FileOpView::SetLen(s.block_offset(total as int) as u64),
                    FileOpView::Write { offset: 0, data: s.sb.encode() },
                ],
                ops_of(writes@) == head + bit_writes(s.bitmap, slots_from(0, i as nat), true),
            decreases reserved - i,
        {
            if let Err(e) = self.set_bitmap_bit(i, true, writes) {
                proof {
                    assert(ops_of(writes@) =~= before + s.init_step().writes);
                }
                return Err(e);
            }
            i += 1;
            proof {
                let upto = slots_from(0, i as nat);
                assert(upto.drop_last() =~= slots_from(0, (i - 1) as nat));
                assert(upto.last() == i - 1);
                assert(ops_of(writes@) =~= head + bit_writes(s.bitmap, upto, true));
            }
        }
        let bits = copy_range(self.bitmap.as_slice(), 0, self.bitmap.len());
        assert(bits@ =~= self.bitmap@);
        push_write(writes, ObjectStorage::bitmap_offset(), bits);
        self.dirty = true;
        assert(ops_of(writes@) =~= before + s.init_step().writes);
        Ok(())
    }

    /// Loads the store that `file` holds.
    pub fn load(file: &[u8], block_size: u32) -> (r: Result<ObjectStorage, MiniOsError>)
        ensures
            match r {
                Ok(store) => StoreView::load_result(file@, block_size) == Ok::<_, ErrorView>(store@),
                Err(e) => StoreView::load_result(file@, block_size) == Err::<StoreView, _>(e@),
            },
    {
        assert(file@.len() == file.len());
        if file.len() < 4096 {
            return Err(short_read_error());
        }
        let super_block = match SuperBlock::from_bytes(slice_subrange(file, 0, 4096)) {
            Err(e) => {
                return Err(e);
            },
            Ok(sb) => sb,
        };
        if super_block.block_size != block_size {
            let mut m = "块大小不匹配：文件中为 ".to_owned();
            push_decimal(&mut m, super_block.block_size as u64);
            m.append("，请求为 ");
            push_decimal(&mut m, block_size as u64);
            return Err(MiniOsError::Storage(m));
        }
        if super_block.bitmap_size > (file.len() - 4096) as u64 {
            return Err(short_read_error());
        }
        let bitmap = copy_range(file, 4096, 4096 + super_block.bitmap_size as usize);
        Ok(ObjectStorage { super_block, bitmap, dirty: false })
    }

    /// Opens the store in `file`, or, where `file` is empty, makes a new one.
    pub fn open(
        file: &[u8],
        block_size: u32,
        total_blocks: u64,
        max_objects: u64,
        writes: &mut Vec<FileOp>,
    ) -> (r: Result<ObjectStorage, MiniOsError>)
        requires
            max_objects * 256 <= u64::MAX,
            file@.len() == 0 ==> can_create(block_size, total_blocks, max_objects),
        ensures
            exists|now: i64|
                {
                    let step = #[trigger] StoreView::open_step(
                        file@,
                        block_size,
                        total_blocks,
                        max_objects,
                        now,
                    );
                    &&& ops_of(final(writes)@) == ops_of(old(writes)@) + step.0
                    &&& match r {
                        Ok(store) => step.1 == Ok::<_, ErrorView>(store@),
                        Err(e) => step.1 == Err::<StoreView, _>(e@),
                    }
                },
    {
        let now = unix_now();
        ObjectStorage::open_at(file, block_size, total_blocks, max_objects, now, writes)
    }

    /// Opens the store in `file`, or, where `file` is empty, makes one that was
    /// created at `now`.
    pub fn open_at(
        file: &[u8],
        block_size: u32,
        total_blocks: u64,
        max_objects: u64,
        now: i64,
        writes: &mut Vec<FileOp>,
    ) -> (r: Result<ObjectStorage, MiniOsError>)
        requires
            max_objects * 256 <= u64::MAX,
            file@.len() == 0 ==> can_create(block_size, total_blocks, max_objects),
        ensures
            ({
                let step = StoreView::open_step(
                    file@,
                    block_size,
                    total_blocks,
                    max_objects,
                    now,
                );
                &&& ops_of(final(writes)@) == ops_of(old(writes)@) + step.0
                &&& match r {
                    Ok(store) => step.1 == Ok::<_, ErrorView>(store@),
                    Err(e) => step.1 == Err::<StoreView, _>(e@),
                }
            }),
    {
        let ghost before = ops_of(writes@);
        assert(before + Seq::<FileOpView>::empty() =~= before);
        if file.len() > 0 {
            return ObjectStorage::load(file, block_size);
        }
        let super_block = SuperBlock::created(block_size, total_blocks, max_objects * 256, now);
        let bitmap = zero_bytes(super_block.bitmap_size as usize);
        let mut store = ObjectStorage { super_block, bitmap, dirty: true };
        let ghost s = store@;
        assert(s == StoreView::created(block_size, total_blocks, max_objects, now));
        proof {
            lemma_created_operable(block_size, total_blocks, max_objects, now);
        }
        let laid_out = store.init_file(writes);
        store.flush(writes);
        assert(ops_of(writes@) =~= before + StoreView::create_step(
            block_size,
            total_blocks,
            max_objects,
            now,
        ).writes);
        match laid_out {
            Err(e) => Err(e),
            Ok(_) => Ok(store),
        }
    }

    /// Whether the store's figures can be worked with.
    pub fn is_operable(&self) -> (r: bool)
        ensures
            r == self@.operable(),
    {
        let sb = self.super_block;
        assert(self.bitmap@.len() == self.bitmap.len());
        let end = 4096u128 + sb.bitmap_size as u128 + sb.max_metadata_area_size as u128;
        proof {
            let a = sb.total_blocks as int;
            let b = sb.block_size as int;
            assert(a * b <= 0xffff_ffff_ffff_ffff * 0xffff_ffff) by (nonlinear_arith)
                requires
                    0 <= a <= 0xffff_ffff_ffff_ffff,
                    0 <= b <= 0xffff_ffff,
            ;
        }
        let blocks = sb.total_blocks as u128 * sb.block_size as u128;
        sb.block_size > 0 && self.bitmap.len() as u64 == sb.bitmap_size && sb.total_blocks as u128
            <= 8u128 * self.bitmap.len() as u128 && end + blocks <= 0xffff_ffff_ffff_ffffu128
    }

    /// Whether the metadata area can be read through.
    pub fn is_scannable(&self, file: &[u8]) -> (r: bool)
        requires
            self@.metadata_offset() <= u64::MAX,
        ensures
            r == self@.scannable(file@),
    {
        assert(file@.len() == file.len());
        let start = self.metadata_offset();
        let size = self.super_block.metadata_area_size;
        if size == 0 {
            return true;
        }
        if start > file.len() as u64 || size > file.len() as u64 - start {
            return true;
        }
        let area = slice_subrange(file, start as usize, (start + size) as usize);
        let ghost meta = area@;
        assert(area@.len() == area.len());
        let mut at: usize = 0;
        while at < area.len()
            invariant
                area@ == meta,
                area@.len() == area.len(),
                at <= area@.len(),
                self@.meta_bytes(file@) == Some(meta),
                (scan(meta, 0) is Some) == (scan(meta, at as int) is Some),
            decreases area@.len() - at,
        {
            let rest = slice_subrange(area, at, area.len());
            assert(rest@ =~= meta.skip(at as int));
            if MetadataEntry::is_cut_off(rest) {
                return false;
            }
            match MetadataEntry::from_bytes(rest) {
                Ok((_, len)) => {
                    assert((scan(meta, at as int) is Some) == (scan(meta, at + len) is Some));
                    at += len;
                },
                Err(_) => {
                    return true;
                },
            }
        }
        true
    }

    /// Whether each of the blocks has a place that is a file offset.
    pub fn is_addressable(&self, blocks: &Vec<u64>) -> (r: bool)
        ensures
            r == self@.addressable(blocks@),
    {
        let sb = self.super_block;
        let base = 4096u128 + sb.bitmap_size as u128 + sb.max_metadata_area_size as u128;
        let mut i: usize = 0;
        while i < blocks.len()
            invariant
                i <= blocks@.len(),
                sb == self@.sb,
                base == self@.data_offset(),
                base <= 0x1_0000_0000_0000_0000 * 3,
                forall|j: int|
                    0 <= j < i ==> self@.block_offset(#[trigger] blocks@[j] as int) <= u64::MAX,
            decreases blocks@.len() - i,
        {
            proof {
                let a = blocks@[i as int] as int;
                let b = sb.block_size as int;
                assert(a * b <= 0xffff_ffff_ffff_ffff * 0xffff_ffff) by (nonlinear_arith)
                    requires
                        0 <= a <= 0xffff_ffff_ffff_ffff,
                        0 <= b <= 0xffff_ffff,
                ;
            }
            if base + blocks[i] as u128 * sb.block_size as u128 > 0xffff_ffff_ffff_ffffu128 {
                assert(self@.block_offset(blocks@[i as int] as int) > u64::MAX);
                return false;
            }
            i += 1;
        }
        true
    }
}

impl StoreView {
    /// Whether every operation on the store and its file stays within the limits
    /// of the machine's numbers.
    pub open spec fn sound(self, file: Seq<u8>) -> bool {
        &&& self.operable()
        &&& self.scannable(file)
        &&& self.sb.free_blocks <= self.sb.total_blocks
        &&& self.sb.object_count < u64::MAX
        &&& self.scanned(file) is Ok ==> self.all_manageable(self.scanned(file)->Ok_0)
    }

    /// Whether every object that is not deleted can be read, deleted and
    /// uncounted.
    pub open spec fn all_manageable(self, entries: Seq<(EntryView, int)>) -> bool {
        forall|i: int|
            0 <= i < entries.len() && !entries[i].0.deleted() ==> self.manageable(
                (#[trigger] entries[i]).0,
            )
    }

    /// Whether the object of an entry can be read, deleted and uncounted.
    pub open spec fn manageable(self, e: EntryView) -> bool {
        &&& self.addressable(e.block_pointers)
        &&& self.sb.free_blocks + e.block_pointers.len() <= u64::MAX
        &&& self.sb.object_count >= 1
    }
}

/// What a sound store finds can be read and deleted.
pub proof fn lemma_sound_lookup(s: StoreView, file: Seq<u8>, key: Seq<char>)
    requires
        s.sound(file),
    ensures
        s.lookup(file, key) matches Ok(Some((e, _))) ==> s.manageable(e),
        s.metadata_offset() <= s.data_offset() <= u64::MAX,
        s.sb.total_blocks * s.sb.block_size <= u64::MAX,
{
    lemma_block_fits(s, 0);
    if s.scanned(file) is Ok {
        let entries = s.scanned(file)->Ok_0;
        lemma_match_of(entries, key);
        let i = match_of(entries, key);
        if i < entries.len() {
            assert(s.manageable(entries[i].0));
        }
    }
}

impl ObjectStorage {
    /// Whether every operation on the store and its file stays within the limits
    /// of the machine's numbers.
    pub fn is_sound(&self, file: &[u8]) -> (r: bool)
        ensures
            r == self@.sound(file@),
    {
        if !self.is_operable() {
            return false;
        }
        proof {
            lemma_block_fits(self@, 0);
        }
        if !self.is_scannable(file) || self.super_block.free_blocks > self.super_block.total_blocks
            || self.super_block.object_count == u64::MAX {
            return false;
        }
        let list = match self.scan_all_entries(file) {
            Err(_) => {
                return true;
            },
            Ok(list) => list,
        };
        let ghost all = self@.scanned(file@)->Ok_0;
        let mut i: usize = 0;
        while i < list.len()
            invariant
                i <= list@.len(),
                self@.scanned(file@) == Ok::<_, ErrorView>(all),
                all.len() == list@.len(),
                self@.operable(),
                self@.scannable(file@),
                forall|j: int| 0 <= j < list@.len() ==> #[trigger] list@[j]@ == all[j].0,
                forall|j: int|
                    0 <= j < i && !all[j].0.deleted() ==> self@.manageable((#[trigger] all[j]).0),
            decreases list@.len() - i,
        {
            assert(list@[i as int]@ == all[i as int].0);
            let n = list[i].block_pointers.len() as u64;
            if list[i].flags & META_FLAG_DELETED == 0 {
                let fits = self.is_addressable(&list[i].block_pointers);
                if !fits || n > u64::MAX - self.super_block.free_blocks
                    || self.super_block.object_count == 0 {
                    assert(!self@.manageable(all[i as int].0));
                    assert(!all[i as int].0.deleted());
                    assert(!self@.all_manageable(all));
                    return false;
                }
            }
            i += 1;
        }
        true
    }

    /// Whether an object can be recorded within the limits of the machine's
    /// numbers.
    pub fn is_recordable(&self, name: &str, len: u64, content_type: &str, tags: &str) -> (r: bool)
        requires
            self@.sb.block_size > 0,
        ensures
            r == self@.can_record(name@, len as nat, content_type@, tags@),
    {
        let a = name.as_bytes().len() as u128;
        let b = content_type.as_bytes().len() as u128;
        let c = tags.as_bytes().len() as u128;
        let n = blocks_needed(len, self.super_block.block_size) as u128;
        self.super_block.object_count < u64::MAX && 47 + a + b + c + 8 * n <= 0xffff_ffffu128
    }
}

proof fn lemma_created_operable(block_size: u32, total_blocks: u64, max_objects: u64, now: i64)
    requires
        can_create(block_size, total_blocks, max_objects),
    ensures
        StoreView::created(block_size, total_blocks, max_objects, now).operable(),
{
    assert(total_blocks * block_size >= 0) by (nonlinear_arith);
}

} // verus!
