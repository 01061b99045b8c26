//! The superblock: the first 4096 bytes of a store file.
use crate::bytes::{
    bits_of_signed, le_bytes, le_value, lemma_byte_ranges, lemma_le_bytes_len, lemma_le_round_trip,
    lemma_signed_round_trip, push_bytes, push_le, read_le, signed_bits, signed_of_bits,
    signed_value, zero_bytes, zeros,
};
use crate::clock::unix_now;
use crate::error::{ErrorView, MiniOsError};
use crate::text::{decimal, push_decimal};
use vstd::prelude::*;
use vstd::slice::*;
use vstd::string::*;

verus! {

/// The version of the file format.
pub const VERSION: u32 = 1;

/// The length of the superblock in bytes.
pub const SUPER_BLOCK_SIZE: u64 = 4096;

/// The bytes that a store file begins with: `MOS` and a zero.
pub open spec fn magic_bytes() -> Seq<u8> {
    seq![77u8, 79u8, 83u8, 0u8]
}

/// The global figures of a store.
#[derive(Debug, Clone, Copy)]
pub struct SuperBlock {
    pub magic: [u8; 4],
    pub version: u32,
    /// Bytes in a block.
    pub block_size: u32,
    pub total_blocks: u64,
    pub free_blocks: u64,
    pub object_count: u64,
    /// Bytes of the metadata area that are in use.
    pub metadata_area_size: u64,
    /// Bytes that the metadata area can hold.
    pub max_metadata_area_size: u64,
    /// Bytes of the block bitmap.
    pub bitmap_size: u64,
    /// Seconds since the Unix epoch.
    pub created_at: i64,
    pub flags: u32,
}

/// The bytes of a bitmap for `total` blocks: one bit each, filled up to a
/// multiple of 8 bytes.
pub open spec fn bitmap_size_for(total: int) -> int {
    ((total + 7) / 8 + 7) / 8 * 8
}

/// How many blocks the superblock, the bitmap and the metadata area of a store
/// take.
pub open spec fn reserved_for(block_size: int, total: int, max_metadata: int) -> int {
    (SUPER_BLOCK_SIZE + bitmap_size_for(total) + max_metadata + block_size - 1) / block_size
}

/// How many blocks of a new store are left for objects.
pub open spec fn free_at_first(block_size: int, total: int, max_metadata: int) -> int {
    let reserved = reserved_for(block_size, total, max_metadata);
    if block_size == 0 || reserved >= total {
        0
    } else {
        total - reserved
    }
}

/// The number in the `n` bytes of `d` from `at` on.
pub open spec fn num_at(d: Seq<u8>, at: int, n: int) -> nat {
    le_value(d.subrange(at, at + n))
}

impl SuperBlock {
    /// The superblock of a new store.
    pub open spec fn fresh(block_size: u32, total_blocks: u64, max_metadata: u64, now: i64) -> SuperBlock {
        SuperBlock {
            magic: [77, 79, 83, 0],
            version: VERSION,
            block_size,
            total_blocks,
            free_blocks: free_at_first(
                block_size as int,
                total_blocks as int,
                max_metadata as int,
            ) as u64,
            object_count: 0,
            metadata_area_size: 0,
            max_metadata_area_size: max_metadata,
            bitmap_size: bitmap_size_for(total_blocks as int) as u64,
            created_at: now,
            flags: 0,
        }
    }

    /// The 72 bytes that hold the fields.
    pub open spec fn fields(self) -> Seq<u8> {
        self.magic@ + le_bytes(self.version as nat, 4) + le_bytes(self.block_size as nat, 4)
            + le_bytes(self.total_blocks as nat, 8) + le_bytes(self.free_blocks as nat, 8)
            + le_bytes(self.object_count as nat, 8) + le_bytes(self.metadata_area_size as nat, 8)
            + le_bytes(self.max_metadata_area_size as nat, 8) + le_bytes(
            self.bitmap_size as nat,
            8,
        ) + le_bytes(signed_bits(self.created_at), 8) + le_bytes(self.flags as nat, 4)
    }

    /// The superblock as it stands in the file: the fields, then zeros.
    pub open spec fn encode(self) -> Seq<u8> {
        self.fields() + zeros((SUPER_BLOCK_SIZE - 72) as nat)
    }

    /// The fields that the bytes `b` hold.
    pub open spec fn decode(b: Seq<u8>) -> SuperBlock {
        SuperBlock {
            magic: [b[0], b[1], b[2], b[3]],
            version: num_at(b, 4, 4) as u32,
            block_size: num_at(b, 8, 4) as u32,
            total_blocks: num_at(b, 12, 8) as u64,
            free_blocks: num_at(b, 20, 8) as u64,
            object_count: num_at(b, 28, 8) as u64,
            metadata_area_size: num_at(b, 36, 8) as u64,
            max_metadata_area_size: num_at(b, 44, 8) as u64,
            bitmap_size: num_at(b, 52, 8) as u64,
            created_at: signed_value(num_at(b, 60, 8)),
            flags: num_at(b, 68, 4) as u32,
        }
    }

    /// What reading the bytes `b` as a superblock yields.
    pub open spec fn parse(b: Seq<u8>) -> Result<SuperBlock, ErrorView> {
        let sb = SuperBlock::decode(b);
        if b.subrange(0, 4) != magic_bytes() {
            Err(ErrorView::Storage("无效的魔数：不是 MiniOS 存储文件"@))
        } else if sb.version != VERSION {
            Err(
                ErrorView::Storage(
                    "不支持的版本："@ + decimal(sb.version as nat) + "（期望版本 "@ + decimal(
                        VERSION as nat,
                    ) + "）"@,
                ),
            )
        } else {
            Ok(sb)
        }
    }

    /// Makes the superblock of a new store, created now.
    pub fn new(block_size: u32, total_blocks: u64, max_metadata_area_size: u64) -> (r: SuperBlock)
        requires
            total_blocks + 7 <= u64::MAX,
        ensures
            r == SuperBlock::fresh(block_size, total_blocks, max_metadata_area_size, r.created_at),
    {
        SuperBlock::created(block_size, total_blocks, max_metadata_area_size, unix_now())
    }

    /// Makes the superblock of a new store, created at `now`.
    pub fn created(
        block_size: u32,
        total_blocks: u64,
        max_metadata_area_size: u64,
        now: i64,
    ) -> (r: SuperBlock)
        requires
            total_blocks + 7 <= u64::MAX,
        ensures
            r == SuperBlock::fresh(block_size, total_blocks, max_metadata_area_size, now),
    {
        let bitmap_size = ((total_blocks + 7) / 8 + 7) / 8 * 8;
        let block = block_size as u128;
        let end = SUPER_BLOCK_SIZE as u128 + bitmap_size as u128 + max_metadata_area_size as u128;
        let free_blocks = if block_size == 0 {
            0
        } else {
            let reserved = (end + block - 1) / block;
            assert(reserved == reserved_for(
                block_size as int,
                total_blocks as int,
                max_metadata_area_size as int,
            ));
            if reserved >= total_blocks as u128 {
                0
            } else {
                proof {
                    vstd::arithmetic::div_mod::lemma_div_pos_is_pos(end + block - 1, block as int);
                }
                total_blocks - reserved as u64
            }
        };
        SuperBlock {
            magic: [77, 79, 83, 0],
            version: VERSION,
            block_size,
            total_blocks,
            free_blocks,
            object_count: 0,
            metadata_area_size: 0,
            max_metadata_area_size,
            bitmap_size,
            created_at: now,
            flags: 0,
        }
    }

    /// Writes the superblock as bytes.
    pub fn to_bytes(&self) -> (r: Vec<u8>)
        ensures
            r@ == self.encode(),
            r@.len() == SUPER_BLOCK_SIZE,
    {
        let mut out: Vec<u8> = Vec::new();
        push_bytes(&mut out, self.magic.as_slice());
        assert(out@ =~= self.magic@);
        push_le(&mut out, self.version as u64, 4);
        push_le(&mut out, self.block_size as u64, 4);
        push_le(&mut out, self.total_blocks, 8);
        push_le(&mut out, self.free_blocks, 8);
        push_le(&mut out, self.object_count, 8);
        push_le(&mut out, self.metadata_area_size, 8);
        push_le(&mut out, self.max_metadata_area_size, 8);
        push_le(&mut out, self.bitmap_size, 8);
        push_le(&mut out, bits_of_signed(self.created_at), 8);
        push_le(&mut out, self.flags as u64, 4);
        assert(out@ == self.fields());
        let padding = zero_bytes(4024);
        push_bytes(&mut out, padding.as_slice());
        proof {
            self.lemma_fields_len();
        }
        out
    }

    /// Reads a superblock from its bytes.
    pub fn from_bytes(buf: &[u8]) -> (r: Result<SuperBlock, MiniOsError>)
        requires
            buf@.len() == SUPER_BLOCK_SIZE,
        ensures
            match r {
                Ok(sb) => SuperBlock::parse(buf@) == Ok::<SuperBlock, ErrorView>(sb),
                Err(e) => SuperBlock::parse(buf@) == Err::<SuperBlock, ErrorView>(e@),
            },
    {
        let ok = buf[0] == 77 && buf[1] == 79 && buf[2] == 83 && buf[3] == 0;
        proof {
            lemma_byte_ranges();
            let head = buf@.subrange(0, 4);
            if ok {
                assert(head =~= magic_bytes());
            } else if head == magic_bytes() {
                assert(head[0] == 77 && head[1] == 79 && head[2] == 83 && head[3] == 0);
            }
        }
        if !ok {
            return Err(MiniOsError::Storage("无效的魔数：不是 MiniOS 存储文件".to_owned()));
        }
        let version = read_le(buf, 4, 4) as u32;
        if version != VERSION {
            let mut m = "不支持的版本：".to_owned();
            push_decimal(&mut m, version as u64);
            m.append("（期望版本 ");
            push_decimal(&mut m, VERSION as u64);
            m.append("）");
            return Err(MiniOsError::Storage(m));
        }
        let sb = SuperBlock {
            magic: [buf[0], buf[1], buf[2], buf[3]],
            version,
            block_size: read_le(buf, 8, 4) as u32,
            total_blocks: read_le(buf, 12, 8),
            free_blocks: read_le(buf, 20, 8),
            object_count: read_le(buf, 28, 8),
            metadata_area_size: read_le(buf, 36, 8),
            max_metadata_area_size: read_le(buf, 44, 8),
            bitmap_size: read_le(buf, 52, 8),
            created_at: signed_of_bits(read_le(buf, 60, 8)),
            flags: read_le(buf, 68, 4) as u32,
        };
        Ok(sb)
    }

    pub proof fn lemma_fields_len(self)
        ensures
            self.fields().len() == 72,
            self.encode().len() == SUPER_BLOCK_SIZE,
    {
        lemma_le_bytes_len(self.version as nat, 4);
        lemma_le_bytes_len(self.block_size as nat, 4);
        lemma_le_bytes_len(self.total_blocks as nat, 8);
        lemma_le_bytes_len(self.free_blocks as nat, 8);
        lemma_le_bytes_len(self.object_count as nat, 8);
        lemma_le_bytes_len(self.metadata_area_size as nat, 8);
        lemma_le_bytes_len(self.max_metadata_area_size as nat, 8);
        lemma_le_bytes_len(self.bitmap_size as nat, 8);
        lemma_le_bytes_len(signed_bits(self.created_at), 8);
        lemma_le_bytes_len(self.flags as nat, 4);
    }

    /// A superblock with the right magic bytes and version is read back from
    /// the bytes that it is written as.
    pub proof fn law_round_trip(self)
        requires
            self.magic@ == magic_bytes(),
            self.version == VERSION,
        ensures
            SuperBlock::parse(self.encode()) == Ok::<SuperBlock, ErrorView>(self),
    {
        let b = self.encode();
        self.lemma_fields_len();
        lemma_byte_ranges();
        lemma_le_round_trip(self.version as nat, 4);
        lemma_le_round_trip(self.block_size as nat, 4);
        lemma_le_round_trip(self.total_blocks as nat, 8);
        lemma_le_round_trip(self.free_blocks as nat, 8);
        lemma_le_round_trip(self.object_count as nat, 8);
        lemma_le_round_trip(self.metadata_area_size as nat, 8);
        lemma_le_round_trip(self.max_metadata_area_size as nat, 8);
        lemma_le_round_trip(self.bitmap_size as nat, 8);
        lemma_signed_round_trip(self.created_at);
        lemma_le_round_trip(signed_bits(self.created_at), 8);
        lemma_le_round_trip(self.flags as nat, 4);
        assert(b.subrange(0, 4) =~= self.magic@);
        assert(b.subrange(4, 8) =~= le_bytes(self.version as nat, 4));
        assert(b.subrange(8, 12) =~= le_bytes(self.block_size as nat, 4));
        assert(b.subrange(12, 20) =~= le_bytes(self.total_blocks as nat, 8));
        assert(b.subrange(20, 28) =~= le_bytes(self.free_blocks as nat, 8));
        assert(b.subrange(28, 36) =~= le_bytes(self.object_count as nat, 8));
        assert(b.subrange(36, 44) =~= le_bytes(self.metadata_area_size as nat, 8));
        assert(b.subrange(44, 52) =~= le_bytes(self.max_metadata_area_size as nat, 8));
        assert(b.subrange(52, 60) =~= le_bytes(self.bitmap_size as nat, 8));
        assert(b.subrange(60, 68) =~= le_bytes(signed_bits(self.created_at), 8));
        assert(b.subrange(68, 72) =~= le_bytes(self.flags as nat, 4));
        assert(SuperBlock::decode(b).magic =~= self.magic);
        assert(SuperBlock::decode(b) == self);
    }
}

} // verus!
