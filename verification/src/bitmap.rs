//! Allocation bitmaps: one bit for each slot, set while the slot is in use.
use crate::bytes::zeros;
use vstd::prelude::*;

verus! {

/// Bit `k` of the byte `b`.
pub open spec fn bit_of(b: u8, k: u8) -> bool {
    (b >> k) & 1u8 == 1u8
}

/// The byte `b` with bit `k` set or cleared.
pub open spec fn with_bit_of(b: u8, k: u8, used: bool) -> u8 {
    if used {
        b | (1u8 << k)
    } else {
        b & !(1u8 << k)
    }
}

/// Whether slot `n` is in use.
pub open spec fn has_bit(bits: Seq<u8>, n: int) -> bool {
    bit_of(bits[n / 8], (n % 8) as u8)
}

/// The bitmap with the bit of slot `n` set or cleared.
pub open spec fn with_bit(bits: Seq<u8>, n: int, used: bool) -> Seq<u8> {
    bits.update(n / 8, with_bit_of(bits[n / 8], (n % 8) as u8, used))
}

/// The bitmap with the bits of `slots` set or cleared, one after the other.
pub open spec fn with_bits(bits: Seq<u8>, slots: Seq<u64>, used: bool) -> Seq<u8>
    decreases slots.len(),
{
    if slots.len() == 0 {
        bits
    } else {
        with_bit(with_bits(bits, slots.drop_last(), used), slots.last() as int, used)
    }
}

/// Whether the `n` slots from `s` on are all free.
pub open spec fn run_free(bits: Seq<u8>, s: int, n: int) -> bool {
    forall|i: int| s <= i < s + n ==> !#[trigger] has_bit(bits, i)
}

/// The lowest start, not below `s`, of `count` free slots in a row among the
/// first `total`.
pub open spec fn first_run_from(bits: Seq<u8>, total: int, count: int, s: int) -> Option<int>
    decreases total - s,
{
    if s + count > total || count < 1 {
        None
    } else if run_free(bits, s, count) {
        Some(s)
    } else {
        first_run_from(bits, total, count, s + 1)
    }
}

/// The lowest start of `count` free slots in a row among the first `total`.
pub open spec fn first_run(bits: Seq<u8>, total: int, count: int) -> Option<int> {
    first_run_from(bits, total, count, 0)
}

/// The free slots among the first `total`, in ascending order.
pub open spec fn free_slots(bits: Seq<u8>, total: nat) -> Seq<u64>
    decreases total,
{
    if total == 0 {
        Seq::empty()
    } else {
        let before = free_slots(bits, (total - 1) as nat);
        if has_bit(bits, total - 1) {
            before
        } else {
            before.push((total - 1) as u64)
        }
    }
}

/// The numbers `s`, `s + 1`, ..., `s + n - 1`.
pub open spec fn slots_from(s: int, n: nat) -> Seq<u64> {
    Seq::new(n, |i: int| (s + i) as u64)
}

proof fn lemma_bits_of_byte(b: u8, k: u8, j: u8)
    requires
        k < 8,
        j < 8,
    ensures
        bit_of(with_bit_of(b, k, true), j) == (j == k || bit_of(b, j)),
        bit_of(with_bit_of(b, k, false), j) == (j != k && bit_of(b, j)),
{
    assert(((b | (1u8 << k)) >> j) & 1u8 == 1u8 <==> (j == k || (b >> j) & 1u8 == 1u8))
        by (bit_vector)
        requires
            k < 8,
            j < 8,
    ;
    assert(((b & !(1u8 << k)) >> j) & 1u8 == 1u8 <==> (j != k && (b >> j) & 1u8 == 1u8))
        by (bit_vector)
        requires
            k < 8,
            j < 8,
    ;
}

/// Setting or clearing one bit changes that bit alone.
pub proof fn lemma_with_bit(bits: Seq<u8>, n: int, used: bool, m: int)
    requires
        0 <= n < 8 * bits.len(),
        0 <= m < 8 * bits.len(),
    ensures
        with_bit(bits, n, used).len() == bits.len(),
        has_bit(with_bit(bits, n, used), m) == (if m == n {
            used
        } else {
            has_bit(bits, m)
        }),
{
    if n / 8 == m / 8 {
        lemma_bits_of_byte(bits[n / 8], (n % 8) as u8, (m % 8) as u8);
        assert(n == 8 * (n / 8) + n % 8);
        assert(m == 8 * (m / 8) + m % 8);
    }
}

/// Setting or clearing the bits of `slots` changes those bits alone.
pub proof fn lemma_with_bits(bits: Seq<u8>, slots: Seq<u64>, used: bool, m: int)
    requires
        forall|i: int| 0 <= i < slots.len() ==> #[trigger] slots[i] < 8 * bits.len(),
        0 <= m < 8 * bits.len(),
    ensures
        with_bits(bits, slots, used).len() == bits.len(),
        has_bit(with_bits(bits, slots, used), m) == (if slots.contains(m as u64) && m <= u64::MAX {
            used
        } else {
            has_bit(bits, m)
        }),
    decreases slots.len(),
{
    if slots.len() > 0 {
        let front = slots.drop_last();
        assert forall|i: int| 0 <= i < front.len() implies #[trigger] front[i] < 8 * bits.len() by {
            assert(front[i] == slots[i]);
        }
        lemma_with_bits(bits, front, used, m);
        let last = slots.last();
        assert(slots[slots.len() - 1] < 8 * bits.len());
        lemma_with_bit(with_bits(bits, front, used), last as int, used, m);
        if m <= u64::MAX {
            if front.contains(m as u64) {
                let i = choose|i: int| 0 <= i < front.len() && front[i] == m as u64;
                assert(slots[i] == m as u64);
            }
            if slots.contains(m as u64) && last != m as u64 {
                let i = choose|i: int| 0 <= i < slots.len() && slots[i] == m as u64;
                assert(front[i] == m as u64);
            }
            if last == m as u64 {
                assert(slots[slots.len() - 1] == m as u64);
            }
        }
    }
}

proof fn lemma_skip(bits: Seq<u8>, total: int, count: int, a: int, b: int)
    requires
        a <= b,
        count >= 1,
        forall|t: int| a <= t < b ==> !#[trigger] run_free(bits, t, count),
    ensures
        first_run_from(bits, total, count, a) == first_run_from(bits, total, count, b),
    decreases b - a,
{
    if a < b {
        assert(!run_free(bits, a, count));
        lemma_skip(bits, total, count, a + 1, b);
    }
}

/// The free slots are exactly those whose bit is clear, and each is listed once.
pub proof fn lemma_free_slots(bits: Seq<u8>, total: nat)
    requires
        total <= u64::MAX,
    ensures
        forall|i: int, j: int|
            0 <= i < j < free_slots(bits, total).len() ==> free_slots(bits, total)[i] < free_slots(
                bits,
                total,
            )[j],
        forall|i: int|
            0 <= i < free_slots(bits, total).len() ==> {
                &&& #[trigger] free_slots(bits, total)[i] < total
                &&& !has_bit(bits, free_slots(bits, total)[i] as int)
            },
        forall|n: u64|
            n < total && !has_bit(bits, n as int) ==> #[trigger] free_slots(bits, total).contains(n),
        free_slots(bits, total).len() <= total,
    decreases total,
{
    if total > 0 {
        let before = free_slots(bits, (total - 1) as nat);
        let now = free_slots(bits, total);
        lemma_free_slots(bits, (total - 1) as nat);
        assert forall|n: u64| n < total && !has_bit(bits, n as int) implies #[trigger] now.contains(
            n,
        ) by {
            if n == total - 1 {
                assert(now[now.len() - 1] == n);
            } else {
                assert(before.contains(n));
                let i = choose|i: int| 0 <= i < before.len() && before[i] == n;
                assert(now[i] == n);
            }
        }
    }
}

/// A run of free slots is found wherever there is one, and it is the first.
pub proof fn lemma_first_run(bits: Seq<u8>, total: int, count: int, s: int)
    requires
        count >= 1,
    ensures
        match first_run_from(bits, total, count, s) {
            Some(t) => {
                &&& s <= t
                &&& t + count <= total
                &&& run_free(bits, t, count)
                &&& forall|u: int| s <= u < t ==> !#[trigger] run_free(bits, u, count)
            },
            None => forall|u: int|
                s <= u && u + count <= total ==> !#[trigger] run_free(bits, u, count),
        },
    decreases total - s,
{
    if s + count <= total && !run_free(bits, s, count) {
        lemma_first_run(bits, total, count, s + 1);
    }
}

/// Whether slot `n` is in use.
pub fn bit_is_set(bits: &[u8], n: u64) -> (r: bool)
    requires
        n < 8 * bits@.len(),
    ensures
        r == has_bit(bits@, n as int),
{
    let b = bits[(n / 8) as usize];
    let k = (n % 8) as u8;
    (b >> k) & 1u8 == 1u8
}

/// The byte `b` with bit `k` set or cleared.
pub fn changed_byte(b: u8, k: u8, used: bool) -> (r: u8)
    requires
        k < 8,
    ensures
        r == with_bit_of(b, k, used),
{
    if used {
        b | (1u8 << k)
    } else {
        b & !(1u8 << k)
    }
}

/// The lowest start of `count` free slots in a row among the first `total`.
pub fn find_run(bits: &[u8], total: u64, count: u64) -> (r: Option<u64>)
    requires
        total <= 8 * bits@.len(),
        count >= 1,
    ensures
        match r {
            Some(s) => first_run(bits@, total as int, count as int) == Some(s as int),
            None => first_run(bits@, total as int, count as int) is None,
        },
{
    let mut consecutive: u64 = 0;
    let mut start: u64 = 0;
    let mut slot: u64 = 0;
    while slot < total
        invariant
            slot <= total,
            total <= 8 * bits@.len(),
            consecutive < count,
            consecutive > 0 ==> start + consecutive == slot,
            consecutive > 0 ==> run_free(bits@, start as int, consecutive as int),
            first_run(bits@, total as int, count as int) == first_run_from(
                bits@,
                total as int,
                count as int,
                slot - consecutive,
            ),
        decreases total - slot,
    {
        if !bit_is_set(bits, slot) {
            if consecutive == 0 {
                start = slot;
            }
            consecutive += 1;
            assert(run_free(bits@, start as int, consecutive as int));
            if consecutive == count {
                return Some(start);
            }
        } else {
            proof {
                let a = slot - consecutive;
                assert forall|t: int| a <= t < slot + 1 implies !#[trigger] run_free(
                    bits@,
                    t,
                    count as int,
                ) by {
                    assert(has_bit(bits@, slot as int));
                }
                lemma_skip(bits@, total as int, count as int, a, slot + 1);
            }
            consecutive = 0;
        }
        slot += 1;
    }
    None
}

/// The first `limit` free slots among the first `total`, or all of them where
/// there are fewer.
pub fn collect_free(bits: &[u8], total: u64, limit: u64) -> (r: Vec<u64>)
    requires
        total <= 8 * bits@.len(),
    ensures
        r@ == (if free_slots(bits@, total as nat).len() <= limit {
            free_slots(bits@, total as nat)
        } else {
            free_slots(bits@, total as nat).take(limit as int)
        }),
{
    let mut out: Vec<u64> = Vec::new();
    let mut slot: u64 = 0;
    while slot < total && (out.len() as u64) < limit
        invariant
            slot <= total,
            total <= 8 * bits@.len(),
            out@ == free_slots(bits@, slot as nat),
            out@.len() <= limit,
        decreases total - slot,
    {
        if !bit_is_set(bits, slot) {
            out.push(slot);
        }
        slot += 1;
    }
    proof {
        lemma_free_slots_prefix(bits@, slot as nat, total as nat);
        assert(free_slots(bits@, total as nat).take(out@.len() as int) =~= out@);
    }
    out
}

proof fn lemma_free_slots_prefix(bits: Seq<u8>, a: nat, b: nat)
    requires
        a <= b,
    ensures
        free_slots(bits, a).len() <= free_slots(bits, b).len(),
        free_slots(bits, b).take(free_slots(bits, a).len() as int) == free_slots(bits, a),
    decreases b - a,
{
    if a < b {
        lemma_free_slots_prefix(bits, a, (b - 1) as nat);
        assert(free_slots(bits, b).take(free_slots(bits, a).len() as int) =~= free_slots(
            bits,
            (b - 1) as nat,
        ).take(free_slots(bits, a).len() as int));
    } else {
        assert(free_slots(bits, b).take(free_slots(bits, a).len() as int) =~= free_slots(bits, a));
    }
}

proof fn lemma_same_byte(a: u8, b: u8)
    requires
        bit_of(a, 0) == bit_of(b, 0),
        bit_of(a, 1) == bit_of(b, 1),
        bit_of(a, 2) == bit_of(b, 2),
        bit_of(a, 3) == bit_of(b, 3),
        bit_of(a, 4) == bit_of(b, 4),
        bit_of(a, 5) == bit_of(b, 5),
        bit_of(a, 6) == bit_of(b, 6),
        bit_of(a, 7) == bit_of(b, 7),
    ensures
        a == b,
{
    assert(a == b) by (bit_vector)
        requires
            ((a >> 0u8) & 1u8 == 1u8) == ((b >> 0u8) & 1u8 == 1u8),
            ((a >> 1u8) & 1u8 == 1u8) == ((b >> 1u8) & 1u8 == 1u8),
            ((a >> 2u8) & 1u8 == 1u8) == ((b >> 2u8) & 1u8 == 1u8),
            ((a >> 3u8) & 1u8 == 1u8) == ((b >> 3u8) & 1u8 == 1u8),
            ((a >> 4u8) & 1u8 == 1u8) == ((b >> 4u8) & 1u8 == 1u8),
            ((a >> 5u8) & 1u8 == 1u8) == ((b >> 5u8) & 1u8 == 1u8),
            ((a >> 6u8) & 1u8 == 1u8) == ((b >> 6u8) & 1u8 == 1u8),
            ((a >> 7u8) & 1u8 == 1u8) == ((b >> 7u8) & 1u8 == 1u8),
    ;
}

proof fn lemma_same_bits(a: Seq<u8>, b: Seq<u8>)
    requires
        a.len() == b.len(),
        forall|m: int| 0 <= m < 8 * a.len() ==> has_bit(a, m) == #[trigger] has_bit(b, m),
    ensures
        a == b,
{
    assert forall|i: int| 0 <= i < a.len() implies a[i] == b[i] by {
        assert(has_bit(a, 8 * i) == has_bit(b, 8 * i));
        assert(has_bit(a, 8 * i + 1) == has_bit(b, 8 * i + 1));
        assert(has_bit(a, 8 * i + 2) == has_bit(b, 8 * i + 2));
        assert(has_bit(a, 8 * i + 3) == has_bit(b, 8 * i + 3));
        assert(has_bit(a, 8 * i + 4) == has_bit(b, 8 * i + 4));
        assert(has_bit(a, 8 * i + 5) == has_bit(b, 8 * i + 5));
        assert(has_bit(a, 8 * i + 6) == has_bit(b, 8 * i + 6));
        assert(has_bit(a, 8 * i + 7) == has_bit(b, 8 * i + 7));
        lemma_same_byte(a[i], b[i]);
    }
    assert(a =~= b);
}

/// Setting the bits of free slots and clearing them again restores the bitmap.
pub proof fn law_mark_unmark(bits: Seq<u8>, slots: Seq<u64>)
    requires
        forall|i: int|
            0 <= i < slots.len() ==> #[trigger] slots[i] < 8 * bits.len() && !has_bit(
                bits,
                slots[i] as int,
            ),
    ensures
        with_bits(with_bits(bits, slots, true), slots, false) == bits,
{
    let set = with_bits(bits, slots, true);
    let back = with_bits(set, slots, false);
    if bits.len() > 0 {
        lemma_with_bits(bits, slots, true, 0);
        lemma_with_bits(set, slots, false, 0);
        assert forall|m: int| 0 <= m < 8 * bits.len() implies has_bit(back, m) == #[trigger] has_bit(
            bits,
            m,
        ) by {
            lemma_with_bits(bits, slots, true, m);
            lemma_with_bits(set, slots, false, m);
            if m <= u64::MAX && slots.contains(m as u64) {
                let i = choose|i: int| 0 <= i < slots.len() && slots[i] == m as u64;
                assert(!has_bit(bits, slots[i] as int));
            }
        }
        lemma_same_bits(back, bits);
    } else {
        assert(slots.len() == 0) by {
            if slots.len() > 0 {
                assert(slots[0] < 8 * bits.len());
            }
        }
        assert(back =~= bits);
    }
}

/// How many bits change when the bits of `slots` are set or cleared, one after the
/// other.
pub open spec fn flips(bits: Seq<u8>, slots: Seq<u64>, used: bool) -> nat
    decreases slots.len(),
{
    if slots.len() == 0 {
        0
    } else {
        let front = slots.drop_last();
        let last: nat = if has_bit(with_bits(bits, front, used), slots.last() as int) == used {
            0
        } else {
            1
        };
        flips(bits, front, used) + last
    }
}

/// At most as many bits change as slots are given.
pub proof fn lemma_flips_bound(bits: Seq<u8>, slots: Seq<u64>, used: bool)
    ensures
        flips(bits, slots, used) <= slots.len(),
    decreases slots.len(),
{
    if slots.len() > 0 {
        lemma_flips_bound(bits, slots.drop_last(), used);
    }
}

/// Fewer slots change no more bits.
pub proof fn lemma_flips_front(bits: Seq<u8>, slots: Seq<u64>, used: bool, n: int)
    requires
        0 <= n <= slots.len(),
    ensures
        flips(bits, slots.take(n), used) <= flips(bits, slots, used),
    decreases slots.len(),
{
    if n == slots.len() {
        assert(slots.take(n) =~= slots);
    } else {
        assert(slots.drop_last().take(n) =~= slots.take(n));
        lemma_flips_front(bits, slots.drop_last(), used, n);
    }
}

/// Where every slot is given once and its bit is not as wanted, all bits change.
pub proof fn lemma_flips_all(bits: Seq<u8>, slots: Seq<u64>, used: bool)
    requires
        slots.no_duplicates(),
        forall|i: int|
            0 <= i < slots.len() ==> #[trigger] slots[i] < 8 * bits.len() && has_bit(
                bits,
                slots[i] as int,
            ) != used,
    ensures
        flips(bits, slots, used) == slots.len(),
    decreases slots.len(),
{
    if slots.len() > 0 {
        let front = slots.drop_last();
        assert forall|i: int| 0 <= i < front.len() implies #[trigger] front[i] < 8 * bits.len()
            && has_bit(bits, front[i] as int) != used by {
            assert(front[i] == slots[i]);
        }
        lemma_flips_all(bits, front, used);
        lemma_with_bits(bits, front, used, slots.last() as int);
        assert(slots.last() == slots[slots.len() - 1]);
        assert(!front.contains(slots.last()));
    }
}

proof fn lemma_free_count_bit(bits: Seq<u8>, p: int, used: bool, total: nat)
    requires
        0 <= p < 8 * bits.len(),
        total <= 8 * bits.len(),
    ensures
        free_slots(with_bit(bits, p, used), total).len() == free_slots(bits, total).len() + (if p
            >= total || has_bit(bits, p) == used {
            0int
        } else if used {
            -1
        } else {
            1
        }),
    decreases total,
{
    if total > 0 {
        lemma_free_count_bit(bits, p, used, (total - 1) as nat);
        lemma_with_bit(bits, p, used, total - 1);
    }
}

/// How many slots are free after the bits of `slots` were set or cleared: as many
/// fewer or more as bits changed.
pub proof fn lemma_free_count(bits: Seq<u8>, slots: Seq<u64>, used: bool, total: nat)
    requires
        total <= 8 * bits.len(),
        forall|i: int| 0 <= i < slots.len() ==> #[trigger] slots[i] < total,
    ensures
        free_slots(with_bits(bits, slots, used), total).len() == free_slots(bits, total).len()
            + (if used {
            -flips(bits, slots, used)
        } else {
            flips(bits, slots, used) as int
        }),
    decreases slots.len(),
{
    if slots.len() > 0 {
        let front = slots.drop_last();
        assert forall|i: int| 0 <= i < front.len() implies #[trigger] front[i] < total by {
            assert(front[i] == slots[i]);
        }
        lemma_free_count(bits, front, used, total);
        assert(slots[slots.len() - 1] < total);
        lemma_with_bits(bits, front, used, slots.last() as int);
        lemma_free_count_bit(with_bits(bits, front, used), slots.last() as int, used, total);
    }
}

/// There are at most as many free slots as slots.
pub proof fn lemma_free_bound(bits: Seq<u8>, total: nat)
    ensures
        free_slots(bits, total).len() <= total,
    decreases total,
{
    if total > 0 {
        lemma_free_bound(bits, (total - 1) as nat);
    }
}

/// A bitmap of zeros has no bit set.
pub proof fn lemma_zero_bit(n: nat, p: int)
    requires
        0 <= p < 8 * n,
    ensures
        !has_bit(zeros(n), p),
{
    let k = (p % 8) as u8;
    assert((0u8 >> k) & 1u8 != 1u8) by (bit_vector);
}

/// Every slot is free in a bitmap of zeros.
pub proof fn lemma_free_zeros(n: nat, total: nat)
    requires
        total <= 8 * n,
    ensures
        free_slots(zeros(n), total).len() == total,
    decreases total,
{
    if total > 0 {
        lemma_free_zeros(n, (total - 1) as nat);
        lemma_zero_bit(n, total - 1);
    }
}

} // verus!
