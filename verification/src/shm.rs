//! The page region that server and clients share: a header, a page bitmap and
//! the data pages.
//!
//! The region is handed in as bytes; who maps it keeps it mapped.
use crate::bitmap::{
    bit_is_set, changed_byte, find_run, first_run, flips, free_slots, has_bit, law_mark_unmark,
    lemma_first_run, lemma_flips_all, lemma_flips_bound, lemma_flips_front, lemma_free_bound,
    lemma_free_count, lemma_free_zeros, lemma_with_bits, run_free, slots_from, with_bit, with_bits,
};
use crate::bytes::{
    copy_range, le_bytes, lemma_byte_ranges, lemma_le_bytes_len, lemma_le_bytes_of_value,
    lemma_le_round_trip, lemma_le_value_bound, overwrite, push_le, put_bytes, read_le, zero_bytes,
    zeros,
};
use crate::error::{ErrorView, MiniOsError};
use crate::superblock::num_at;
use crate::text::{decimal, hex_digits, push_decimal, push_hex};
use vstd::prelude::*;
use vstd::slice::*;
use vstd::string::*;

verus! {

/// The number that a region begins with.
pub const SHM_MAGIC: u32 = 0x4D4F5348;

/// The version of the layout.
pub const SHM_VERSION: u32 = 1;

/// The length of the header in bytes.
pub const SHM_HEADER_SIZE: u64 = 64;

/// The header of a region.
#[derive(Debug, Clone, Copy)]
pub struct ShmHeader {
    pub magic: u32,
    pub version: u32,
    pub total_size: u64,
    pub page_size: u32,
    pub num_pages: u32,
    pub bitmap_offset: u64,
    pub data_offset: u64,
    pub free_pages: u32,
}

/// The bytes of a bitmap for `n` pages.
pub open spec fn page_bitmap_len(n: int) -> int {
    (n + 7) / 8
}

/// Where the data begins behind the bitmap for `n` pages: at a multiple of eight.
pub open spec fn data_start(n: int) -> int {
    SHM_HEADER_SIZE + (page_bitmap_len(n) + 7) / 8 * 8
}

/// Whether the header, the bitmap of `n` pages and the pages themselves have room in
/// `total` bytes.
pub open spec fn has_room(total: int, page_size: int, n: int) -> bool {
    data_start(n) + n * page_size <= total
}

/// The greatest number of pages up to `n` that have room in `total` bytes.
pub open spec fn most_pages(total: int, page_size: int, n: int) -> int
    decreases n,
{
    if n <= 0 {
        0
    } else if has_room(total, page_size, n) {
        n
    } else {
        most_pages(total, page_size, n - 1)
    }
}

fn pages_fit(total: u64, page_size: u32, n: u32) -> (r: bool)
    ensures
        r == has_room(total as int, page_size as int, n as int),
{
    assert(n * page_size <= 0xffff_ffff * 0xffff_ffff) by (nonlinear_arith)
        requires
            n <= 0xffff_ffff,
            page_size <= 0xffff_ffff,
    ;
    let data = 64u128 + ((n as u128 + 7) / 8 + 7) / 8 * 8;
    data + n as u128 * page_size as u128 <= total as u128
}

proof fn lemma_most_pages(total: int, page_size: int, n: int)
    requires
        total >= SHM_HEADER_SIZE,
        n >= 0,
    ensures
        0 <= most_pages(total, page_size, n) <= n,
        has_room(total, page_size, most_pages(total, page_size, n)),
    decreases n,
{
    if n > 0 && !has_room(total, page_size, n) {
        lemma_most_pages(total, page_size, n - 1);
    }
    assert(0 * page_size == 0);
}

impl ShmHeader {
    /// The header of a new region: it has as many pages as have room in it.
    pub open spec fn fresh(total_size: u64, page_size: u32) -> ShmHeader {
        let num_pages = most_pages(
            total_size as int,
            page_size as int,
            ((total_size - SHM_HEADER_SIZE) / (page_size as int)) % 0x1_0000_0000,
        );
        ShmHeader {
            magic: SHM_MAGIC,
            version: SHM_VERSION,
            total_size,
            page_size,
            num_pages: num_pages as u32,
            bitmap_offset: SHM_HEADER_SIZE,
            data_offset: data_start(num_pages) as u64,
            free_pages: num_pages as u32,
        }
    }

    /// The 44 bytes that hold the fields.
    pub open spec fn fields(self) -> Seq<u8> {
        le_bytes(self.magic as nat, 4) + le_bytes(self.version as nat, 4) + le_bytes(
            self.total_size as nat,
            8,
        ) + le_bytes(self.page_size as nat, 4) + le_bytes(self.num_pages as nat, 4) + le_bytes(
            self.bitmap_offset as nat,
            8,
        ) + le_bytes(self.data_offset as nat, 8) + le_bytes(self.free_pages as nat, 4)
    }

    /// The header as it stands in the region: the fields, then zeros.
    pub open spec fn encode(self) -> Seq<u8> {
        self.fields() + zeros(20)
    }

    /// The header that the bytes `b` hold.
    pub open spec fn decode(b: Seq<u8>) -> ShmHeader {
        ShmHeader {
            magic: num_at(b, 0, 4) as u32,
            version: num_at(b, 4, 4) as u32,
            total_size: num_at(b, 8, 8) as u64,
            page_size: num_at(b, 16, 4) as u32,
            num_pages: num_at(b, 20, 4) as u32,
            bitmap_offset: num_at(b, 24, 8) as u64,
            data_offset: num_at(b, 32, 8) as u64,
            free_pages: num_at(b, 40, 4) as u32,
        }
    }

    /// What reading the bytes `b` as a header yields.
    pub open spec fn parse(b: Seq<u8>) -> Result<ShmHeader, ErrorView> {
        let h = ShmHeader::decode(b);
        if h.magic != SHM_MAGIC {
            Err(
                ErrorView::Shm(
                    "Invalid shared memory magic: 0x"@ + hex_digits(h.magic as nat, 8)
                        + " (expected 0x"@ + hex_digits(SHM_MAGIC as nat, 8) + ")"@,
                ),
            )
        } else if h.version != SHM_VERSION {
            Err(
                ErrorView::Shm(
                    "Shared memory version mismatch: "@ + decimal(h.version as nat)
                        + " (expected "@ + decimal(SHM_VERSION as nat) + ")"@,
                ),
            )
        } else {
            Ok(h)
        }
    }

    /// Makes the header of a new region.
    pub fn new(total_size: u64, page_size: u32) -> (r: ShmHeader)
        requires
            total_size >= SHM_HEADER_SIZE,
            page_size > 0,
        ensures
            r == ShmHeader::fresh(total_size, page_size),
            r.data_offset == data_start(r.num_pages as int),
            r.data_offset + r.num_pages * page_size <= total_size,
    {
        let pages = (total_size - SHM_HEADER_SIZE) / page_size as u64;
        let ghost most = (pages % 0x1_0000_0000) as int;
        let mut num_pages = (pages % 0x1_0000_0000) as u32;
        proof {
            lemma_most_pages(total_size as int, page_size as int, most);
        }
        while num_pages > 0 && !pages_fit(total_size, page_size, num_pages)
            invariant
                most_pages(total_size as int, page_size as int, most) == most_pages(
                    total_size as int,
                    page_size as int,
                    num_pages as int,
                ),
            decreases num_pages,
        {
            num_pages -= 1;
        }
        let bitmap_bytes = (num_pages as u64 + 7) / 8;
        ShmHeader {
            magic: SHM_MAGIC,
            version: SHM_VERSION,
            total_size,
            page_size,
            num_pages,
            bitmap_offset: SHM_HEADER_SIZE,
            data_offset: SHM_HEADER_SIZE + (bitmap_bytes + 7) / 8 * 8,
            free_pages: num_pages,
        }
    }

    /// Writes the header as bytes.
    pub fn to_bytes(&self) -> (r: Vec<u8>)
        ensures
            r@ == self.encode(),
            r@.len() == SHM_HEADER_SIZE,
    {
        let mut out: Vec<u8> = Vec::new();
        push_le(&mut out, self.magic as u64, 4);
        assert(out@ =~= le_bytes(self.magic as nat, 4));
        push_le(&mut out, self.version as u64, 4);
        push_le(&mut out, self.total_size, 8);
        push_le(&mut out, self.page_size as u64, 4);
        push_le(&mut out, self.num_pages as u64, 4);
        push_le(&mut out, self.bitmap_offset, 8);
        push_le(&mut out, self.data_offset, 8);
        push_le(&mut out, self.free_pages as u64, 4);
        assert(out@ == self.fields());
        let padding = zero_bytes(20);
        out.extend_from_slice(padding.as_slice());
        proof {
            self.lemma_fields_len();
            assert(out@ =~= self.encode());
        }
        out
    }

    /// Reads the fields, whatever they hold.
    fn read(buf: &[u8]) -> (r: ShmHeader)
        requires
            buf@.len() >= 44,
        ensures
            r == ShmHeader::decode(buf@),
    {
        proof {
            lemma_byte_ranges();
        }
        ShmHeader {
            magic: read_le(buf, 0, 4) as u32,
            version: read_le(buf, 4, 4) as u32,
            total_size: read_le(buf, 8, 8),
            page_size: read_le(buf, 16, 4) as u32,
            num_pages: read_le(buf, 20, 4) as u32,
            bitmap_offset: read_le(buf, 24, 8),
            data_offset: read_le(buf, 32, 8),
            free_pages: read_le(buf, 40, 4) as u32,
        }
    }

    /// Reads a header from its bytes.
    pub fn from_bytes(buf: &[u8]) -> (r: Result<ShmHeader, MiniOsError>)
        requires
            buf@.len() >= SHM_HEADER_SIZE,
        ensures
            match r {
                Ok(h) => ShmHeader::parse(buf@) == Ok::<_, ErrorView>(h),
                Err(e) => ShmHeader::parse(buf@) == Err::<ShmHeader, _>(e@),
            },
    {
        let h = ShmHeader::read(buf);
        if h.magic != SHM_MAGIC {
            let mut m = "Invalid shared memory magic: 0x".to_owned();
            push_hex(&mut m, h.magic, 8);
            m.append(" (expected 0x");
            push_hex(&mut m, SHM_MAGIC, 8);
            m.append(")");
            return Err(MiniOsError::Shm(m));
        }
        if h.version != SHM_VERSION {
            let mut m = "Shared memory version mismatch: ".to_owned();
            push_decimal(&mut m, h.version as u64);
            m.append(" (expected ");
            push_decimal(&mut m, SHM_VERSION as u64);
            m.append(")");
            return Err(MiniOsError::Shm(m));
        }
        Ok(h)
    }

    pub proof fn lemma_fields_len(self)
        ensures
            self.fields().len() == 44,
            self.encode().len() == SHM_HEADER_SIZE,
    {
        lemma_le_bytes_len(self.magic as nat, 4);
        lemma_le_bytes_len(self.version as nat, 4);
        lemma_le_bytes_len(self.total_size as nat, 8);
        lemma_le_bytes_len(self.page_size as nat, 4);
        lemma_le_bytes_len(self.num_pages as nat, 4);
        lemma_le_bytes_len(self.bitmap_offset as nat, 8);
        lemma_le_bytes_len(self.data_offset as nat, 8);
        lemma_le_bytes_len(self.free_pages as nat, 4);
    }

    /// A header is read back from the bytes that it is written as, whatever
    /// follows them.
    pub proof fn law_round_trip(self, rest: Seq<u8>)
        ensures
            ShmHeader::decode(self.encode() + rest) == self,
            self.magic == SHM_MAGIC && self.version == SHM_VERSION ==> ShmHeader::parse(
                self.encode() + rest,
            ) == Ok::<_, ErrorView>(self),
    {
        let b = self.encode() + rest;
        self.lemma_fields_len();
        lemma_byte_ranges();
        lemma_le_round_trip(self.magic as nat, 4);
        lemma_le_round_trip(self.version as nat, 4);
        lemma_le_round_trip(self.total_size as nat, 8);
        lemma_le_round_trip(self.page_size as nat, 4);
        lemma_le_round_trip(self.num_pages as nat, 4);
        lemma_le_round_trip(self.bitmap_offset as nat, 8);
        lemma_le_round_trip(self.data_offset as nat, 8);
        lemma_le_round_trip(self.free_pages as nat, 4);
        assert(b.subrange(0, 4) =~= le_bytes(self.magic as nat, 4));
        assert(b.subrange(4, 8) =~= le_bytes(self.version as nat, 4));
        assert(b.subrange(8, 16) =~= le_bytes(self.total_size as nat, 8));
        assert(b.subrange(16, 20) =~= le_bytes(self.page_size as nat, 4));
        assert(b.subrange(20, 24) =~= le_bytes(self.num_pages as nat, 4));
        assert(b.subrange(24, 32) =~= le_bytes(self.bitmap_offset as nat, 8));
        assert(b.subrange(32, 40) =~= le_bytes(self.data_offset as nat, 8));
        assert(b.subrange(40, 44) =~= le_bytes(self.free_pages as nat, 4));
    }
}

/// Whether the region holds a header and, behind it, the bitmap of its pages.
pub open spec fn mapped(region: Seq<u8>) -> bool {
    let h = ShmHeader::decode(region);
    &&& region.len() >= SHM_HEADER_SIZE
    &&& h.bitmap_offset >= SHM_HEADER_SIZE
    &&& h.bitmap_offset + page_bitmap_len(h.num_pages as int) <= region.len()
}

/// The page bitmap of the region.
pub open spec fn page_bits(region: Seq<u8>) -> Seq<u8> {
    let h = ShmHeader::decode(region);
    region.subrange(
        h.bitmap_offset as int,
        h.bitmap_offset + page_bitmap_len(h.num_pages as int),
    )
}

/// The region with the bits of the pages set or cleared, and the count of free
/// pages `free`.
pub open spec fn with_pages(region: Seq<u8>, pages: Seq<u64>, used: bool, free: int) -> Seq<u8> {
    let h = ShmHeader::decode(region);
    put_bytes(
        put_bytes(region, h.bitmap_offset as int, with_bits(page_bits(region), pages, used)),
        40,
        le_bytes(free as nat, 4),
    )
}

/// The region after `count` pages from `start` on were given out or taken back.
pub open spec fn paged(region: Seq<u8>, start: int, count: nat, used: bool) -> Seq<u8> {
    let pages = slots_from(start, count);
    with_pages(region, pages, used, free_after(region, pages, used))
}

/// How many pages are free after the bits of `pages` were set or cleared. Only those
/// whose bits change count.
pub open spec fn free_after(region: Seq<u8>, pages: Seq<u64>, used: bool) -> int {
    let free = ShmHeader::decode(region).free_pages;
    let n = flips(page_bits(region), pages, used);
    if used {
        free - n
    } else {
        free + n
    }
}

/// Where a page begins in the region.
pub open spec fn page_start(region: Seq<u8>, page: u32) -> int {
    let h = ShmHeader::decode(region);
    h.data_offset + page * h.page_size
}

/// What giving the bits and the count back as numbers leaves of the header.
pub proof fn lemma_with_pages(region: Seq<u8>, pages: Seq<u64>, used: bool, free: int)
    requires
        mapped(region),
        0 <= free <= u32::MAX,
        forall|i: int|
            0 <= i < pages.len() ==> #[trigger] pages[i] < ShmHeader::decode(region).num_pages,
    ensures
        with_pages(region, pages, used, free).len() == region.len(),
        with_bits(page_bits(region), pages, used).len() == page_bits(region).len(),
        ShmHeader::decode(with_pages(region, pages, used, free)) == (ShmHeader {
            free_pages: free as u32,
            ..ShmHeader::decode(region)
        }),
        mapped(with_pages(region, pages, used, free)),
        page_bits(with_pages(region, pages, used, free)) == with_bits(
            page_bits(region),
            pages,
            used,
        ),
{
    let h = ShmHeader::decode(region);
    let r = with_pages(region, pages, used, free);
    let bits = page_bits(region);
    lemma_byte_ranges();
    lemma_le_round_trip(free as nat, 4);
    if bits.len() > 0 {
        lemma_with_bits(bits, pages, used, 0);
    } else if pages.len() > 0 {
        assert(pages[0] < h.num_pages);
    }
    assert(r.subrange(0, 4) =~= region.subrange(0, 4));
    assert(r.subrange(4, 8) =~= region.subrange(4, 8));
    assert(r.subrange(8, 16) =~= region.subrange(8, 16));
    assert(r.subrange(16, 20) =~= region.subrange(16, 20));
    assert(r.subrange(20, 24) =~= region.subrange(20, 24));
    assert(r.subrange(24, 32) =~= region.subrange(24, 32));
    assert(r.subrange(32, 40) =~= region.subrange(32, 40));
    assert(r.subrange(40, 44) =~= le_bytes(free as nat, 4));
    assert(page_bits(r) =~= with_bits(bits, pages, used));
}

/// A shared page region: its name, its length and whether this process made it.
#[derive(Debug)]
pub struct SharedMemory {
    /// Bytes of the region.
    pub size: u64,
    /// The name of the memory object, which begins with a slash.
    pub name: String,
    /// Whether this process made the region.
    pub is_owner: bool,
}

/// The name of the memory object: the given name, with a slash in front.
pub open spec fn object_name_of(name: Seq<char>) -> Seq<char> {
    if name.len() > 0 && name[0] == '/' {
        name
    } else {
        "/"@ + name
    }
}

/// The name of the memory object: the given name, with a slash in front.
pub fn object_name(name: &str) -> (r: String)
    ensures
        r@ == object_name_of(name@),
{
    if name.unicode_len() > 0 && name.get_char(0) == '/' {
        name.to_owned()
    } else {
        let mut r = "/".to_owned();
        r.append(name);
        r
    }
}

impl SharedMemory {
    /// Lays out a new region: the header, and a bitmap without any page in use.
    pub fn create(name: &str, region: &mut [u8], page_size: u32) -> (r: SharedMemory)
        requires
            old(region)@.len() >= SHM_HEADER_SIZE,
            old(region)@.len() <= u64::MAX,
            page_size > 0,
        ensures
            r.name@ == object_name_of(name@),
            r.size == old(region)@.len(),
            r.is_owner,
            ({
                let h = ShmHeader::fresh(old(region)@.len() as u64, page_size);
                &&& final(region)@ == put_bytes(
                    put_bytes(old(region)@, 0, h.encode()),
                    SHM_HEADER_SIZE as int,
                    zeros(page_bitmap_len(h.num_pages as int) as nat),
                )
                &&& mapped(final(region)@)
                &&& ShmHeader::decode(final(region)@) == h
                &&& page_bits(final(region)@) == zeros(
                    page_bitmap_len(h.num_pages as int) as nat,
                )
            }),
    {
        let ghost before = region@;
        let size = region.len() as u64;
        let header = ShmHeader::new(size, page_size);
        let bytes = header.to_bytes();
        overwrite(region, 0, bytes.as_slice());
        let bitmap_len = (header.num_pages as u64 + 7) / 8;
        proof {
            assert(header.num_pages * page_size >= 0) by (nonlinear_arith);
            assert(header.data_offset >= SHM_HEADER_SIZE + bitmap_len);
        }
        let bits = zero_bytes(bitmap_len as usize);
        overwrite(region, 64, bits.as_slice());
        proof {
            header.law_round_trip(before.skip(64));
            let b = header.encode() + before.skip(64);
            header.lemma_fields_len();
            let r = region@;
            assert(r.subrange(0, 4) =~= b.subrange(0, 4));
            assert(r.subrange(4, 8) =~= b.subrange(4, 8));
            assert(r.subrange(8, 16) =~= b.subrange(8, 16));
            assert(r.subrange(16, 20) =~= b.subrange(16, 20));
            assert(r.subrange(20, 24) =~= b.subrange(20, 24));
            assert(r.subrange(24, 32) =~= b.subrange(24, 32));
            assert(r.subrange(32, 40) =~= b.subrange(32, 40));
            assert(r.subrange(40, 44) =~= b.subrange(40, 44));
            assert(page_bits(r) =~= zeros(bitmap_len as nat));
        }
        SharedMemory { size, name: object_name(name), is_owner: true }
    }

    /// Attaches to a region that another process made, by its header.
    pub fn open(name: &str, header: &[u8]) -> (r: Result<SharedMemory, MiniOsError>)
        requires
            header@.len() >= SHM_HEADER_SIZE,
        ensures
            match r {
                Ok(shm) => {
                    &&& ShmHeader::parse(header@) is Ok
                    &&& shm.size == ShmHeader::decode(header@).total_size
                    &&& shm.name@ == object_name_of(name@)
                    &&& !shm.is_owner
                },
                Err(e) => ShmHeader::parse(header@) == Err::<ShmHeader, _>(e@),
            },
    {
        match ShmHeader::from_bytes(header) {
            Err(e) => Err(e),
            Ok(h) => Ok(
                SharedMemory { size: h.total_size, name: object_name(name), is_owner: false },
            ),
        }
    }

    /// The header of the region.
    pub fn read_header(region: &[u8]) -> (r: ShmHeader)
        requires
            region@.len() >= SHM_HEADER_SIZE,
        ensures
            r == ShmHeader::decode(region@),
    {
        ShmHeader::read(region)
    }

    /// Writes the header into the region.
    pub fn write_header(region: &mut [u8], header: &ShmHeader)
        requires
            old(region)@.len() >= SHM_HEADER_SIZE,
        ensures
            final(region)@ == put_bytes(old(region)@, 0, header.encode()),
    {
        let bytes = header.to_bytes();
        overwrite(region, 0, bytes.as_slice());
    }

    /// Whether a page is in use. One that does not exist is.
    pub fn is_page_used(region: &[u8], page: u32) -> (r: bool)
        requires
            mapped(region@),
        ensures
            r == (page >= ShmHeader::decode(region@).num_pages || has_bit(
                page_bits(region@),
                page as int,
            )),
    {
        let h = SharedMemory::read_header(region);
        if page >= h.num_pages {
            return true;
        }
        assert(region@.len() == region.len());
        let from = h.bitmap_offset as usize;
        let to = from + ((h.num_pages as u64 + 7) / 8) as usize;
        bit_is_set(slice_subrange(region, from, to), page as u64)
    }

    /// Sets or clears the bit of a page, and counts it where the bit changes. A page
    /// that does not exist is left out.
    pub fn set_page_bit(region: &mut [u8], page: u32, used: bool)
        requires
            mapped(old(region)@),
            page < ShmHeader::decode(old(region)@).num_pages && has_bit(
                page_bits(old(region)@),
                page as int,
            ) != used ==> if used {
                ShmHeader::decode(old(region)@).free_pages > 0
            } else {
                ShmHeader::decode(old(region)@).free_pages < u32::MAX
            },
        ensures
            final(region)@ == (if page < ShmHeader::decode(old(region)@).num_pages {
                paged(old(region)@, page as int, 1, used)
            } else {
                old(region)@
            }),
    {
        let ghost before = region@;
        let h = SharedMemory::read_header(region);
        if page >= h.num_pages {
            return;
        }
        assert(region@.len() == region.len());
        let changes = SharedMemory::is_page_used(region, page) != used;
        let at = h.bitmap_offset as usize + (page / 8) as usize;
        let b = changed_byte(region[at], (page % 8) as u8, used);
        let mut one: Vec<u8> = Vec::new();
        one.push(b);
        overwrite(region, at, one.as_slice());
        let free = if !changes {
            h.free_pages
        } else if used {
            h.free_pages - 1
        } else {
            h.free_pages + 1
        };
        let mut count: Vec<u8> = Vec::new();
        push_le(&mut count, free as u64, 4);
        proof {
            lemma_le_bytes_len(free as nat, 4);
            assert(count@ =~= le_bytes(free as nat, 4));
        }
        overwrite(region, 40, count.as_slice());
        proof {
            let pages = slots_from(page as int, 1);
            let bits = page_bits(before);
            assert(pages.drop_last() =~= Seq::empty());
            reveal_with_fuel(with_bits, 2);
            assert(with_bits(bits, pages, used) == with_bit(bits, page as int, used));
            reveal_with_fuel(flips, 2);
            assert(free == free_after(before, pages, used));
            assert(bits[page as int / 8] == before[at as int]);
            assert(region@ =~= paged(before, page as int, 1, used));
        }
    }

    /// Sets or clears the bits of `count` pages from `start` on.
    fn set_page_bits(region: &mut [u8], start: u32, count: u32, used: bool)
        requires
            mapped(old(region)@),
            start + count <= ShmHeader::decode(old(region)@).num_pages,
            0 <= free_after(old(region)@, slots_from(start as int, count as nat), used)
                <= u32::MAX,
        ensures
            final(region)@ == paged(old(region)@, start as int, count as nat, used),
    {
        let ghost before = region@;
        let ghost h = ShmHeader::decode(before);
        let mut i: u32 = 0;
        proof {
            assert(slots_from(start as int, 0) =~= Seq::empty());
            lemma_paged_none(before, start as int, used);
        }
        while i < count
            invariant
                i <= count,
                mapped(before),
                h == ShmHeader::decode(before),
                start + count <= h.num_pages,
                0 <= free_after(before, slots_from(start as int, count as nat), used) <= u32::MAX,
                region@ == paged(before, start as int, i as nat, used),
            decreases count - i,
        {
            proof {
                let all = slots_from(start as int, count as nat);
                let pages = slots_from(start as int, i as nat);
                let more = slots_from(start as int, (i + 1) as nat);
                assert(all.take(i as int) =~= pages);
                assert(all.take(i + 1) =~= more);
                lemma_flips_front(page_bits(before), all, used, i as int);
                lemma_flips_front(page_bits(before), all, used, i + 1);
                lemma_with_pages(before, pages, used, free_after(before, pages, used));
                assert(more.drop_last() =~= pages);
                lemma_paged_step(before, start as int, i as nat, used);
            }
            SharedMemory::set_page_bit(region, start + i, used);
            i += 1;
        }
    }

    /// Tries to give out `count` pages in a row: the first ones that are free.
    /// Where there are none at present nothing is returned; the caller waits and
    /// tries again.
    pub fn alloc_pages(region: &mut [u8], count: u32) -> (r: Result<Option<u32>, MiniOsError>)
        requires
            mapped(old(region)@),
        ensures
            ({
                let h = ShmHeader::decode(old(region)@);
                let run = first_run(
                    page_bits(old(region)@),
                    h.num_pages as int,
                    count as int,
                );
                if count == 0 {
                    &&& r matches Err(e) && e@ == ErrorView::Shm("Cannot allocate 0 pages"@)
                    &&& final(region)@ == old(region)@
                } else if count > h.num_pages {
                    &&& r matches Err(e) && e@ == ErrorView::Shm(
                        "Requested "@ + decimal(count as nat) + " pages but only "@ + decimal(
                            h.num_pages as nat,
                        ) + " exist"@,
                    )
                    &&& final(region)@ == old(region)@
                } else if h.free_pages < count || run is None {
                    &&& r == Ok::<_, MiniOsError>(None::<u32>)
                    &&& final(region)@ == old(region)@
                } else {
                    &&& r matches Ok(Some(start)) && start == run->0
                    &&& final(region)@ == paged(old(region)@, run->0, count as nat, true)
                }
            }),
    {
        if count == 0 {
            return Err(MiniOsError::Shm("Cannot allocate 0 pages".to_owned()));
        }
        let h = SharedMemory::read_header(region);
        if count > h.num_pages {
            let mut m = "Requested ".to_owned();
            push_decimal(&mut m, count as u64);
            m.append(" pages but only ");
            push_decimal(&mut m, h.num_pages as u64);
            m.append(" exist");
            return Err(MiniOsError::Shm(m));
        }
        if h.free_pages < count {
            return Ok(None);
        }
        assert(region@.len() == region.len());
        let from = h.bitmap_offset as usize;
        let to = from + ((h.num_pages as u64 + 7) / 8) as usize;
        proof {
            lemma_first_run(page_bits(region@), h.num_pages as int, count as int, 0);
        }
        match find_run(slice_subrange(region, from, to), h.num_pages as u64, count as u64) {
            None => Ok(None),
            Some(start) => {
                proof {
                    lemma_flips_bound(
                        page_bits(region@),
                        slots_from(start as int, count as nat),
                        true,
                    );
                }
                SharedMemory::set_page_bits(region, start as u32, count, true);
                Ok(Some(start as u32))
            },
        }
    }

    /// Takes back `count` pages from `start_page` on. Those that are free already stay
    /// free, and are not counted again.
    pub fn free_pages(region: &mut [u8], start_page: u32, count: u32) -> (r: Result<
        (),
        MiniOsError,
    >)
        requires
            mapped(old(region)@),
            start_page + count <= ShmHeader::decode(old(region)@).num_pages ==> free_after(
                old(region)@,
                slots_from(start_page as int, count as nat),
                false,
            ) <= u32::MAX,
        ensures
            ({
                let h = ShmHeader::decode(old(region)@);
                if start_page + count > h.num_pages {
                    &&& r matches Err(e) && e@ == ErrorView::Shm(
                        "Cannot free pages "@ + decimal(start_page as nat) + "-"@ + decimal(
                            (start_page + count - 1) as nat,
                        ) + " (max is "@ + decimal(h.num_pages as nat) + ")"@,
                    )
                    &&& final(region)@ == old(region)@
                } else {
                    &&& r is Ok
                    &&& final(region)@ == paged(
                        old(region)@,
                        start_page as int,
                        count as nat,
                        false,
                    )
                }
            }),
    {
        let h = SharedMemory::read_header(region);
        let end = start_page as u64 + count as u64;
        if end > h.num_pages as u64 {
            let mut m = "Cannot free pages ".to_owned();
            push_decimal(&mut m, start_page as u64);
            m.append("-");
            push_decimal(&mut m, end - 1);
            m.append(" (max is ");
            push_decimal(&mut m, h.num_pages as u64);
            m.append(")");
            return Err(MiniOsError::Shm(m));
        }
        SharedMemory::set_page_bits(region, start_page, count, false);
        Ok(())
    }

    /// Copies `data` into the pages from `start_page` on.
    pub fn write_pages(region: &mut [u8], start_page: u32, data: &[u8]) -> (r: Result<
        (),
        MiniOsError,
    >)
        requires
            old(region)@.len() >= SHM_HEADER_SIZE,
        ensures
            ({
                let at = page_start(old(region)@, start_page);
                if at + data@.len() > old(region)@.len() {
                    &&& r matches Err(e) && e@ == ErrorView::Shm(
                        "Data size "@ + decimal(data@.len())
                            + " exceeds available space from page "@ + decimal(
                            start_page as nat,
                        ),
                    )
                    &&& final(region)@ == old(region)@
                } else {
                    &&& r is Ok
                    &&& final(region)@ == put_bytes(old(region)@, at, data@)
                }
            }),
    {
        let at = match SharedMemory::page_offset(region, start_page, data.len() as u64) {
            Some(at) => at,
            None => {
                let mut m = "Data size ".to_owned();
                push_decimal(&mut m, data.len() as u64);
                m.append(" exceeds available space from page ");
                push_decimal(&mut m, start_page as u64);
                return Err(MiniOsError::Shm(m));
            },
        };
        overwrite(region, at, data);
        Ok(())
    }

    /// Where `page` begins in the region, if `len` bytes from there on are inside
    /// it.
    pub fn page_offset(region: &[u8], page: u32, len: u64) -> (r: Option<usize>)
        requires
            region@.len() >= SHM_HEADER_SIZE,
        ensures
            match r {
                Some(at) => at == page_start(region@, page) && at + len <= region@.len(),
                None => page_start(region@, page) + len > region@.len(),
            },
    {
        let h = SharedMemory::read_header(region);
        assert(region@.len() == region.len());
        assert(page * h.page_size <= 0xffff_ffff * 0xffff_ffff) by (nonlinear_arith)
            requires
                page <= 0xffff_ffff,
                h.page_size <= 0xffff_ffff,
        ;
        assert(page * h.page_size >= 0) by (nonlinear_arith);
        let at = h.data_offset as u128 + page as u128 * h.page_size as u128;
        if at + len as u128 > region.len() as u128 {
            None
        } else {
            Some(at as usize)
        }
    }

    /// Reads `count` pages from `start_page` on, cut off behind `expected_size`
    /// bytes.
    pub fn read_pages(region: &[u8], start_page: u32, count: u32, expected_size: u64) -> (r: Vec<
        u8,
    >)
        requires
            region@.len() >= SHM_HEADER_SIZE,
            page_start(region@, start_page) + count * ShmHeader::decode(region@).page_size
                <= region@.len(),
        ensures
            ({
                let at = page_start(region@, start_page);
                let len = count * ShmHeader::decode(region@).page_size;
                r@ == region@.subrange(
                    at,
                    at + if expected_size < len {
                        expected_size as int
                    } else {
                        len
                    },
                )
            }),
    {
        let h = SharedMemory::read_header(region);
        assert(region@.len() == region.len());
        assert(0 <= start_page * h.page_size && 0 <= count * h.page_size) by (nonlinear_arith);
        let at = h.data_offset + start_page as u64 * h.page_size as u64;
        let mut len = count as u64 * h.page_size as u64;
        if expected_size < len {
            len = expected_size;
        }
        copy_range(region, at as usize, (at + len) as usize)
    }

    /// Bytes in a page.
    pub fn page_size(region: &[u8]) -> (r: u32)
        requires
            region@.len() >= SHM_HEADER_SIZE,
        ensures
            r == ShmHeader::decode(region@).page_size,
    {
        SharedMemory::read_header(region).page_size
    }

    /// How many pages there are.
    pub fn num_pages(region: &[u8]) -> (r: u32)
        requires
            region@.len() >= SHM_HEADER_SIZE,
        ensures
            r == ShmHeader::decode(region@).num_pages,
    {
        SharedMemory::read_header(region).num_pages
    }

    /// How many pages are free.
    pub fn free_page_count(region: &[u8]) -> (r: u32)
        requires
            region@.len() >= SHM_HEADER_SIZE,
        ensures
            r == ShmHeader::decode(region@).free_pages,
    {
        SharedMemory::read_header(region).free_pages
    }

    /// The name of the memory object.
    pub fn name(&self) -> (r: &str)
        ensures
            r@ == self.name@,
    {
        self.name.as_str()
    }

    /// The state of the region, in one line.
    pub fn status_string(&self, region: &[u8]) -> (r: String)
        requires
            region@.len() >= SHM_HEADER_SIZE,
        ensures
            ({
                let h = ShmHeader::decode(region@);
                r@ == "SHM '"@ + self.name@ + "': "@ + decimal(h.num_pages as nat) + " pages ("@
                    + decimal(h.free_pages as nat) + " free), page_size="@ + decimal(
                    h.page_size as nat,
                ) + ", total="@ + decimal(h.total_size as nat)
            }),
    {
        let h = SharedMemory::read_header(region);
        let mut s = "SHM '".to_owned();
        s.append(self.name.as_str());
        s.append("': ");
        push_decimal(&mut s, h.num_pages as u64);
        s.append(" pages (");
        push_decimal(&mut s, h.free_pages as u64);
        s.append(" free), page_size=");
        push_decimal(&mut s, h.page_size as u64);
        s.append(", total=");
        push_decimal(&mut s, h.total_size);
        s
    }

    /// Whether the region holds a header and, behind it, the bitmap of its pages.
    pub fn is_mapped(region: &[u8]) -> (r: bool)
        ensures
            r == mapped(region@),
    {
        assert(region@.len() == region.len());
        if region.len() < 64 {
            return false;
        }
        let h = SharedMemory::read_header(region);
        h.bitmap_offset >= SHM_HEADER_SIZE && h.bitmap_offset as u128 + ((h.num_pages as u64 + 7)
            / 8) as u128 <= region.len() as u128
    }
}

proof fn lemma_paged_none(region: Seq<u8>, start: int, used: bool)
    requires
        mapped(region),
    ensures
        paged(region, start, 0, used) == region,
{
    let h = ShmHeader::decode(region);
    assert(slots_from(start, 0) =~= Seq::empty());
    lemma_byte_ranges();
    lemma_le_bytes_of_value(region.subrange(40, 44));
    assert(h.free_pages == num_at(region, 40, 4)) by {
        lemma_le_value_bound(region.subrange(40, 44));
    }
    assert forall|i: int| 40 <= i < 44 implies le_bytes(h.free_pages as nat, 4)[i - 40]
        == region[i] by {
        assert(region.subrange(40, 44)[i - 40] == region[i]);
    }
    assert(paged(region, start, 0, used) =~= region);
}

proof fn lemma_paged_step(region: Seq<u8>, start: int, i: nat, used: bool)
    requires
        mapped(region),
        0 <= start,
        start + i + 1 <= ShmHeader::decode(region).num_pages,
        0 <= free_after(region, slots_from(start, i), used) <= u32::MAX,
        0 <= free_after(region, slots_from(start, i + 1), used) <= u32::MAX,
    ensures
        paged(paged(region, start, i, used), start + i, 1, used) == paged(
            region,
            start,
            i + 1,
            used,
        ),
{
    let h = ShmHeader::decode(region);
    let pages = slots_from(start, i);
    let more = slots_from(start, i + 1);
    let free = free_after(region, pages, used);
    let next = free_after(region, more, used);
    let one = slots_from(start + i, 1);
    lemma_with_pages(region, pages, used, free);
    lemma_with_pages(region, more, used, next);
    let r = paged(region, start, i, used);
    lemma_with_pages(r, one, used, next);
    assert(more.drop_last() =~= pages);
    assert(more.last() == one[0]);
    assert(one.drop_last() =~= Seq::empty());
    reveal_with_fuel(with_bits, 2);
    reveal_with_fuel(flips, 2);
    assert(free_after(r, one, used) == next);
    assert(with_bits(page_bits(r), one, used) == with_bits(page_bits(region), more, used));
    lemma_le_bytes_len(free as nat, 4);
    lemma_le_bytes_len(next as nat, 4);
    assert(paged(r, start + i, 1, used) =~= paged(region, start, i + 1, used));
}

proof fn lemma_run_flips(bits: Seq<u8>, start: int, count: nat, total: int)
    requires
        0 <= start,
        start + count <= total <= 8 * bits.len(),
        total <= u32::MAX,
        run_free(bits, start, count as int),
    ensures
        flips(bits, slots_from(start, count), true) == count,
        flips(
            with_bits(bits, slots_from(start, count), true),
            slots_from(start, count),
            false,
        ) == count,
{
    let pages = slots_from(start, count);
    let set = with_bits(bits, pages, true);
    assert(pages.no_duplicates());
    lemma_flips_all(bits, pages, true);
    assert forall|i: int| 0 <= i < pages.len() implies #[trigger] pages[i] < 8 * set.len()
        && has_bit(set, pages[i] as int) by {
        lemma_with_bits(bits, pages, true, pages[i] as int);
        assert(pages.contains(pages[i]));
    }
    lemma_flips_all(set, pages, false);
}

/// Pages that are given out were free; afterwards they are in use, every other
/// page is as it was, and that many fewer are free.
pub proof fn law_alloc(region: Seq<u8>, count: u32, page: int)
    requires
        mapped(region),
        count >= 1,
        count <= ShmHeader::decode(region).free_pages,
        first_run(page_bits(region), ShmHeader::decode(region).num_pages as int, count as int) is Some,
        0 <= page < ShmHeader::decode(region).num_pages,
    ensures
        ({
            let h = ShmHeader::decode(region);
            let start = first_run(page_bits(region), h.num_pages as int, count as int)->0;
            let after = paged(region, start, count as nat, true);
            &&& 0 <= start && start + count <= h.num_pages
            &&& mapped(after)
            &&& ShmHeader::decode(after) == (ShmHeader {
                free_pages: (h.free_pages - count) as u32,
                ..h
            })
            &&& start <= page < start + count ==> !has_bit(page_bits(region), page)
            &&& has_bit(page_bits(after), page) == (start <= page < start + count || has_bit(
                page_bits(region),
                page,
            ))
        }),
{
    let h = ShmHeader::decode(region);
    let bits = page_bits(region);
    lemma_first_run(bits, h.num_pages as int, count as int, 0);
    let start = first_run(bits, h.num_pages as int, count as int)->0;
    let pages = slots_from(start, count as nat);
    lemma_run_flips(bits, start, count as nat, h.num_pages as int);
    lemma_with_pages(region, pages, true, h.free_pages - count);
    lemma_with_bits(bits, pages, true, page);
    if start <= page < start + count {
        assert(pages[page - start] == page as u64);
        assert(run_free(bits, start, count as int));
    }
}

/// Pages that are given out and taken back leave the region as it was.
pub proof fn law_alloc_free(region: Seq<u8>, count: u32)
    requires
        mapped(region),
        count >= 1,
        count <= ShmHeader::decode(region).free_pages,
        first_run(page_bits(region), ShmHeader::decode(region).num_pages as int, count as int) is Some,
    ensures
        ({
            let h = ShmHeader::decode(region);
            let start = first_run(page_bits(region), h.num_pages as int, count as int)->0;
            paged(paged(region, start, count as nat, true), start, count as nat, false) == region
        }),
{
    let h = ShmHeader::decode(region);
    let bits = page_bits(region);
    lemma_first_run(bits, h.num_pages as int, count as int, 0);
    let start = first_run(bits, h.num_pages as int, count as int)->0;
    let pages = slots_from(start, count as nat);
    lemma_run_flips(bits, start, count as nat, h.num_pages as int);
    lemma_with_pages(region, pages, true, h.free_pages - count);
    let after = paged(region, start, count as nat, true);
    lemma_with_pages(after, pages, false, h.free_pages as int);
    assert forall|i: int| 0 <= i < pages.len() implies #[trigger] pages[i] < 8 * bits.len()
        && !has_bit(bits, pages[i] as int) by {
        assert(run_free(bits, start, count as int));
    }
    law_mark_unmark(bits, pages);
    let back = paged(after, start, count as nat, false);
    lemma_byte_ranges();
    lemma_le_bytes_len(h.free_pages as nat, 4);
    lemma_le_bytes_len((h.free_pages - count) as nat, 4);
    lemma_le_bytes_of_value(region.subrange(40, 44));
    lemma_le_value_bound(region.subrange(40, 44));
    assert forall|i: int| 40 <= i < 44 implies le_bytes(h.free_pages as nat, 4)[i - 40]
        == region[i] by {
        assert(region.subrange(40, 44)[i - 40] == region[i]);
    }
    assert forall|i: int|
        h.bitmap_offset <= i < h.bitmap_offset + bits.len() implies back[i] == region[i] by {
        assert(bits[i - h.bitmap_offset] == region[i]);
    }
    assert(back =~= region);
}

/// What is written into pages is read back from them, if it fits, and the header
/// stays as it was.
pub proof fn law_write_read(region: Seq<u8>, start_page: u32, count: u32, data: Seq<u8>)
    requires
        mapped(region),
        ShmHeader::decode(region).data_offset >= SHM_HEADER_SIZE,
        data.len() <= count * ShmHeader::decode(region).page_size,
        page_start(region, start_page) + count * ShmHeader::decode(region).page_size
            <= region.len(),
    ensures
        ({
            let at = page_start(region, start_page);
            let after = put_bytes(region, at, data);
            &&& ShmHeader::decode(after) == ShmHeader::decode(region)
            &&& page_start(after, start_page) == at
            &&& after.subrange(at, at + data.len()) == data
        }),
{
    let h = ShmHeader::decode(region);
    assert(start_page * h.page_size >= 0) by (nonlinear_arith);
    let at = page_start(region, start_page);
    let after = put_bytes(region, at, data);
    assert(after.subrange(0, 4) =~= region.subrange(0, 4));
    assert(after.subrange(4, 8) =~= region.subrange(4, 8));
    assert(after.subrange(8, 16) =~= region.subrange(8, 16));
    assert(after.subrange(16, 20) =~= region.subrange(16, 20));
    assert(after.subrange(20, 24) =~= region.subrange(20, 24));
    assert(after.subrange(24, 32) =~= region.subrange(24, 32));
    assert(after.subrange(32, 40) =~= region.subrange(32, 40));
    assert(after.subrange(40, 44) =~= region.subrange(40, 44));
    assert(after.subrange(at, at + data.len()) =~= data);
}

/// In a new region every page is free.
pub proof fn law_create_free(region: Seq<u8>, page: int)
    requires
        0 <= page < ShmHeader::decode(region).num_pages,
        page_bits(region) == zeros(
            page_bitmap_len(ShmHeader::decode(region).num_pages as int) as nat,
        ),
    ensures
        !has_bit(page_bits(region), page),
{
    let k = (page % 8) as u8;
    assert((0u8 >> k) & 1u8 != 1u8) by (bit_vector);
}

/// Whether the count of free pages is the number of pages that the bitmap has free.
pub open spec fn counted(region: Seq<u8>) -> bool {
    let h = ShmHeader::decode(region);
    mapped(region) && h.free_pages == free_slots(page_bits(region), h.num_pages as nat).len()
}

/// Giving pages out and taking them back keeps the count of free pages right, whether or
/// not they were free before, and it never exceeds the number of pages.
pub proof fn law_counted(region: Seq<u8>, start: int, count: nat, used: bool)
    requires
        counted(region),
        0 <= start,
        start + count <= ShmHeader::decode(region).num_pages,
    ensures
        counted(paged(region, start, count, used)),
        ShmHeader::decode(paged(region, start, count, used)) == (ShmHeader {
            free_pages: free_after(region, slots_from(start, count), used) as u32,
            ..ShmHeader::decode(region)
        }),
        0 <= free_after(region, slots_from(start, count), used)
            <= ShmHeader::decode(region).num_pages,
{
    let h = ShmHeader::decode(region);
    let pages = slots_from(start, count);
    let bits = page_bits(region);
    lemma_free_count(bits, pages, used, h.num_pages as nat);
    lemma_free_bound(with_bits(bits, pages, used), h.num_pages as nat);
    lemma_with_pages(region, pages, used, free_after(region, pages, used));
}

/// In a new region the count of free pages is right, and all pages lie within it.
pub proof fn law_create_counted(region: Seq<u8>, total_size: u64, page_size: u32)
    requires
        total_size >= SHM_HEADER_SIZE,
        page_size > 0,
        mapped(region),
        ShmHeader::decode(region) == ShmHeader::fresh(total_size, page_size),
        page_bits(region) == zeros(
            page_bitmap_len(ShmHeader::decode(region).num_pages as int) as nat,
        ),
    ensures
        counted(region),
        ({
            let h = ShmHeader::decode(region);
            &&& h.bitmap_offset == SHM_HEADER_SIZE
            &&& h.bitmap_offset + page_bitmap_len(h.num_pages as int) <= h.data_offset
            &&& h.data_offset % 8 == 0
            &&& h.data_offset + h.num_pages * h.page_size <= total_size
        }),
{
    let h = ShmHeader::decode(region);
    let most = ((total_size - SHM_HEADER_SIZE) / (page_size as int)) % 0x1_0000_0000;
    lemma_most_pages(total_size as int, page_size as int, most);
    assert(h.num_pages == most_pages(total_size as int, page_size as int, most));
    assert(h.num_pages * page_size >= 0) by (nonlinear_arith);
    assert(h.data_offset == data_start(h.num_pages as int));
    lemma_free_zeros(page_bitmap_len(h.num_pages as int) as nat, h.num_pages as nat);
}

/// A call that changes the region.
pub enum PageCall {
    /// [`SharedMemory::alloc_pages`]
    Alloc { count: u32 },
    /// [`SharedMemory::free_pages`]
    Free { start: u32, count: u32 },
    /// [`SharedMemory::set_page_bit`]
    Mark { page: u32, used: bool },
    /// [`SharedMemory::write_pages`]
    Write { start: u32, data: Seq<u8> },
}

/// The region after a call.
pub open spec fn called(region: Seq<u8>, call: PageCall) -> Seq<u8> {
    let h = ShmHeader::decode(region);
    match call {
        PageCall::Alloc { count } => {
            let run = first_run(page_bits(region), h.num_pages as int, count as int);
            if count == 0 || count > h.num_pages || h.free_pages < count || run is None {
                region
            } else {
                paged(region, run->0, count as nat, true)
            }
        },
        PageCall::Free { start, count } => if start + count > h.num_pages {
            region
        } else {
            paged(region, start as int, count as nat, false)
        },
        PageCall::Mark { page, used } => if page < h.num_pages {
            paged(region, page as int, 1, used)
        } else {
            region
        },
        PageCall::Write { start, data } => if page_start(region, start) + data.len()
            > region.len() {
            region
        } else {
            put_bytes(region, page_start(region, start), data)
        },
    }
}

/// The region after a series of calls.
pub open spec fn called_all(region: Seq<u8>, calls: Seq<PageCall>) -> Seq<u8>
    decreases calls.len(),
{
    if calls.len() == 0 {
        region
    } else {
        called(called_all(region, calls.drop_last()), calls.last())
    }
}

/// No series of calls changes anything of the header but the count of free pages, which
/// stays right: the region keeps its length, and its pages their number, their size and
/// their places. The name of the region is no part of it, and no call takes it.
pub proof fn law_pages_stay(region: Seq<u8>, calls: Seq<PageCall>)
    requires
        counted(region),
        ShmHeader::decode(region).bitmap_offset + page_bitmap_len(
            ShmHeader::decode(region).num_pages as int,
        ) <= ShmHeader::decode(region).data_offset,
    ensures
        ({
            let after = called_all(region, calls);
            &&& counted(after)
            &&& after.len() == region.len()
            &&& ShmHeader::decode(after) == (ShmHeader {
                free_pages: ShmHeader::decode(after).free_pages,
                ..ShmHeader::decode(region)
            })
        }),
    decreases calls.len(),
{
    if calls.len() > 0 {
        law_pages_stay(region, calls.drop_last());
        let r = called_all(region, calls.drop_last());
        let h = ShmHeader::decode(r);
        match calls.last() {
            PageCall::Alloc { count } => {
                let run = first_run(page_bits(r), h.num_pages as int, count as int);
                if !(count == 0 || count > h.num_pages || h.free_pages < count || run is None) {
                    lemma_first_run(page_bits(r), h.num_pages as int, count as int, 0);
                    law_counted(r, run->0, count as nat, true);
                    lemma_paged_len(r, run->0, count as nat, true);
                }
            },
            PageCall::Free { start, count } => {
                if start + count <= h.num_pages {
                    law_counted(r, start as int, count as nat, false);
                    lemma_paged_len(r, start as int, count as nat, false);
                }
            },
            PageCall::Mark { page, used } => {
                if page < h.num_pages {
                    law_counted(r, page as int, 1, used);
                    lemma_paged_len(r, page as int, 1, used);
                }
            },
            PageCall::Write { start, data } => {
                let at = page_start(r, start);
                if at + data.len() <= r.len() {
                    assert(start * h.page_size >= 0) by (nonlinear_arith);
                    let after = put_bytes(r, at, data);
                    assert(after.subrange(0, 4) =~= r.subrange(0, 4));
                    assert(after.subrange(4, 8) =~= r.subrange(4, 8));
                    assert(after.subrange(8, 16) =~= r.subrange(8, 16));
                    assert(after.subrange(16, 20) =~= r.subrange(16, 20));
                    assert(after.subrange(20, 24) =~= r.subrange(20, 24));
                    assert(after.subrange(24, 32) =~= r.subrange(24, 32));
                    assert(after.subrange(32, 40) =~= r.subrange(32, 40));
                    assert(after.subrange(40, 44) =~= r.subrange(40, 44));
                    assert(page_bits(after) =~= page_bits(r));
                }
            },
        }
    }
}

proof fn lemma_paged_len(region: Seq<u8>, start: int, count: nat, used: bool)
    requires
        counted(region),
        0 <= start,
        start + count <= ShmHeader::decode(region).num_pages,
    ensures
        paged(region, start, count, used).len() == region.len(),
{
    law_counted(region, start, count, used);
    let pages = slots_from(start, count);
    lemma_with_pages(region, pages, used, free_after(region, pages, used));
}

} // verus!
