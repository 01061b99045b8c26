//! What holds of the pages that data passes through.
use crate::bitmap::{
    has_bit, lemma_first_run, lemma_flips_all, lemma_free_count, run_free, slots_from,
};
use crate::server::{pages_of, paging_is, Paging};
use crate::shm::{
    counted, has_room, law_alloc, mapped, most_pages, page_bits, page_start, ShmHeader,
};
use vstd::prelude::*;

verus! {

/// Whether `n` pages are what `size` bytes take: at least one, enough for all the bytes,
/// and one fewer would not do.
pub open spec fn least_pages(n: int, size: int, page_size: int) -> bool {
    &&& n >= 1
    &&& size <= n * page_size
    &&& n == 1 || (n - 1) * page_size < size
}

/// As many pages are counted for data as it takes, if that is a number of 32 bits.
pub proof fn law_pages_for(n: int, size: int, page_size: int)
    requires
        size >= 0,
        page_size > 0,
        n <= u32::MAX,
        least_pages(n, size, page_size),
    ensures
        pages_of(size, page_size) == n,
{
    if size > 0 {
        let q = (size + page_size - 1) / page_size;
        assert(q == n) by (nonlinear_arith)
            requires
                page_size > 0,
                size > 0,
                n >= 1,
                size <= n * page_size,
                n == 1 || (n - 1) * page_size < size,
                q == (size + page_size - 1) / page_size,
        ;
    } else {
        assert((n - 1) * page_size >= 0) by (nonlinear_arith)
            requires
                n >= 1,
                page_size > 0,
        ;
    }
}

/// Whether the region has the page, and it is free.
pub open spec fn page_free(region: Seq<u8>, page: int) -> bool {
    0 <= page < ShmHeader::decode(region).num_pages && !has_bit(page_bits(region), page)
}

/// Whether the `n` pages from `start` on are free.
pub open spec fn free_from(region: Seq<u8>, start: int, n: int) -> bool {
    start >= 0 && forall|p: int| start <= p < start + n ==> #[trigger] page_free(region, p)
}

/// Whether `n` free pages follow each other somewhere.
pub open spec fn has_free(region: Seq<u8>, n: int) -> bool {
    exists|start: int| #[trigger] free_from(region, start, n)
}

proof fn lemma_free_from(region: Seq<u8>, start: int, n: int)
    requires
        n >= 1,
    ensures
        free_from(region, start, n) <==> {
            &&& start >= 0
            &&& start + n <= ShmHeader::decode(region).num_pages
            &&& run_free(page_bits(region), start, n)
        },
{
    if free_from(region, start, n) {
        assert(page_free(region, start + n - 1));
        assert forall|p: int| start <= p < start + n implies !#[trigger] has_bit(
            page_bits(region),
            p,
        ) by {
            assert(page_free(region, p));
        }
    }
}

/// A run of free pages is no longer than there are free ones.
proof fn lemma_enough(region: Seq<u8>, start: int, n: int)
    requires
        counted(region),
        n >= 1,
        free_from(region, start, n),
    ensures
        n <= ShmHeader::decode(region).free_pages,
{
    lemma_free_from(region, start, n);
    let h = ShmHeader::decode(region);
    let bits = page_bits(region);
    let slots = slots_from(start, n as nat);
    assert(slots.len() == n);
    assert forall|i: int| 0 <= i < slots.len() implies #[trigger] slots[i] < 8 * bits.len()
        && has_bit(bits, slots[i] as int) != true by {
        assert(slots[i] == (start + i) as u64);
        assert(page_free(region, start + i));
    }
    assert forall|i: int| 0 <= i < slots.len() implies #[trigger] slots[i] < h.num_pages by {
        assert(slots[i] == (start + i) as u64);
    }
    assert(slots.no_duplicates());
    lemma_flips_all(bits, slots, true);
    lemma_free_count(bits, slots, true, h.num_pages as nat);
}

/// Asking for the pages of data. It is refused exactly where the region has too few pages
/// in all; pages are given exactly where as many free ones follow each other as the data
/// takes, and otherwise the client waits. What is given was free, is used from then on,
/// and no other page changes.
pub proof fn law_paging(
    r: Paging,
    region: Seq<u8>,
    after: Seq<u8>,
    size: int,
    n: int,
    page: int,
)
    requires
        counted(region),
        ShmHeader::decode(region).page_size > 0,
        size >= 0,
        n <= u32::MAX,
        least_pages(n, size, ShmHeader::decode(region).page_size as int),
        paging_is(r, region, after, size),
    ensures
        r is Refused <==> n > ShmHeader::decode(region).num_pages,
        r is Given <==> has_free(region, n),
        r is Wait <==> n <= ShmHeader::decode(region).num_pages && !has_free(region, n),
        !(r is Failed),
        r matches Paging::Given { start, count } ==> {
            &&& count == n
            &&& free_from(region, start as int, n)
            &&& page_free(after, page) <==> page_free(region, page) && !(start <= page < start + n)
            &&& ShmHeader::decode(after) == (ShmHeader {
                free_pages: (ShmHeader::decode(region).free_pages - n) as u32,
                ..ShmHeader::decode(region)
            })
        },
        !(r is Given) ==> after == region,
{
    let h = ShmHeader::decode(region);
    let bits = page_bits(region);
    law_pages_for(n, size, h.page_size as int);
    lemma_first_run(bits, h.num_pages as int, n, 0);
    if has_free(region, n) {
        let start = choose|start: int| #[trigger] free_from(region, start, n);
        lemma_free_from(region, start, n);
        lemma_enough(region, start, n);
    }
    if let Paging::Given { start, count } = r {
        lemma_free_from(region, start as int, n);
        law_alloc(region, n as u32, 0);
        if 0 <= page < h.num_pages {
            law_alloc(region, n as u32, page);
        }
    }
}

/// The pages of a new region. There are as many as have room behind the header of 64
/// bytes and the bitmap, with the data at a multiple of eight; they lie within the region
/// and do not overlap.
pub proof fn law_pages_apart(region: Seq<u8>, total: u64, page_size: u32, n: int, p: u32, q: u32)
    requires
        total >= 64,
        page_size > 0,
        (total - 64) / (page_size as int) <= u32::MAX,
        mapped(region),
        ShmHeader::decode(region) == ShmHeader::fresh(total, page_size),
        n >= 0,
    ensures
        ({
            let h = ShmHeader::decode(region);
            &&& h.page_size == page_size
            &&& n <= h.num_pages <==> 64 + ((n + 7) / 8 + 7) / 8 * 8 + n * page_size <= total
            &&& h.free_pages == h.num_pages
            &&& p < h.num_pages ==> {
                &&& page_start(region, p) >= 64 + (h.num_pages + 7) / 8
                &&& page_start(region, p) % 8 == (p * page_size) % 8
                &&& page_start(region, p) + page_size <= total
            }
            &&& p < q ==> page_start(region, p) + page_size <= page_start(region, q)
        }),
{
    let h = ShmHeader::decode(region);
    let most = (total - 64) / (page_size as int);
    let t = total as int;
    let s = page_size as int;
    lemma_most(t, s, most, n);
    lemma_most(t, s, most, most_pages(t, s, most));
    assert(most * s <= total - 64) by (nonlinear_arith)
        requires
            s > 0,
            most == (total - 64) / s,
    ;
    if has_room(t, s, n) {
        assert(n <= most) by (nonlinear_arith)
            requires
                s > 0,
                most == (total - 64) / s,
                n * s <= total - 64,
        ;
    }
    let m = h.num_pages as int;
    if n <= m {
        assert(n * s <= m * s) by (nonlinear_arith)
            requires
                n <= m,
                s > 0,
        ;
    }
    if p < h.num_pages {
        assert((p + 1) * s <= m * s) by (nonlinear_arith)
            requires
                p + 1 <= m,
                s > 0,
        ;
        assert((p + 1) * s == p * s + s) by (nonlinear_arith);
        assert(0 <= p * s) by (nonlinear_arith)
            requires
                s > 0,
                p >= 0,
        ;
    }
    if p < q {
        assert((p + 1) * s <= q * s) by (nonlinear_arith)
            requires
                p + 1 <= q,
                s > 0,
        ;
        assert((p + 1) * s == p * s + s) by (nonlinear_arith);
    }
}

proof fn lemma_most(total: int, page_size: int, most: int, n: int)
    requires
        total >= 64,
        page_size > 0,
        most >= 0,
    ensures
        0 <= most_pages(total, page_size, most) <= most,
        has_room(total, page_size, most_pages(total, page_size, most)),
        n <= most && has_room(total, page_size, n) ==> n <= most_pages(total, page_size, most),
    decreases most,
{
    assert(0 * page_size == 0);
    if most > 0 && !has_room(total, page_size, most) {
        lemma_most(total, page_size, most - 1, n);
    }
}

} // verus!
