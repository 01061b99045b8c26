//! Trial workloads: sequences of accesses that follow real frequencies.
//!
//! Weights, their sums and their shares in the total are taken as 64-bit
//! floating-point arithmetic would have them.
use crate::cache::{accesses_of, texts_of, CacheView};
use crate::rates::{
    is_not_above, is_share, law_not_above_order, law_quotient_apart, law_quotient_order,
    lemma_float_positive, lemma_part_stretch, lemma_zero_not_above, not_above, quotient, share,
};
use crate::sizes::{as_float, float_of, lemma_float_ceiling, lemma_float_close, lemma_float_exact};
use vstd::hash_map::*;
use vstd::prelude::*;
use vstd::string::*;

verus! {

/// How much an object weighs in a workload: one more than it was asked for.
pub open spec fn weight(frequencies: Map<Seq<char>, u64>, object: Seq<char>) -> int {
    accesses_of(frequencies, object) + 1
}

/// What the first `n` objects weigh together.
pub open spec fn weight_of(objects: Seq<Seq<char>>, frequencies: Map<Seq<char>, u64>, n: int) -> int
    decreases n,
{
    if n <= 0 {
        0
    } else {
        weight_of(objects, frequencies, n - 1) + weight(frequencies, objects[n - 1])
    }
}

/// [`weight_of`], with each weight and each sum rounded to 53 significant bits.
pub open spec fn sum_of(objects: Seq<Seq<char>>, frequencies: Map<Seq<char>, u64>, n: int) -> nat
    decreases n,
{
    if n <= 0 {
        0
    } else {
        as_float(
            sum_of(objects, frequencies, n - 1) + as_float(
                weight(frequencies, objects[n - 1]) as nat,
            ),
        )
    }
}

/// The bound of all rounded sums: 2 to the 118.
pub const SUM_CEILING: u128 = 0x40_0000_0000_0000_0000_0000_0000_0000;

/// The next number of the generator: a linear congruence modulo 2 to the 64.
pub open spec fn next_seed(seed: int) -> int {
    (seed * 6364136223846793005 + 1442695040888963407) % 0x1_0000_0000_0000_0000
}

/// The generator's number after `n` steps.
pub open spec fn seed_after(seed: int, n: int) -> int
    decreases n,
{
    if n <= 0 {
        seed
    } else {
        next_seed(seed_after(seed, n - 1))
    }
}

/// The first object from `j` on, such that the objects up to it have at least the
/// share `s` of `u32::MAX` in the total weight.
pub open spec fn drawn_from(
    objects: Seq<Seq<char>>,
    frequencies: Map<Seq<char>, u64>,
    s: int,
    j: int,
) -> int
    decreases objects.len() - j,
{
    if j >= objects.len() - 1 || not_above(
        s as nat,
        u32::MAX as nat,
        sum_of(objects, frequencies, j + 1),
        sum_of(objects, frequencies, objects.len() as int),
    ) {
        j
    } else {
        drawn_from(objects, frequencies, s, j + 1)
    }
}

/// The workload: `iterations` objects, drawn by the upper halves of the
/// generator's numbers.
pub open spec fn workload(
    objects: Seq<Seq<char>>,
    iterations: nat,
    frequencies: Map<Seq<char>, u64>,
) -> Seq<Seq<char>> {
    let seed = iterations * objects.len() + 12345;
    if objects.len() == 0 {
        Seq::empty()
    } else {
        Seq::new(
            iterations,
            |i: int|
                objects[drawn_from(
                    objects,
                    frequencies,
                    seed_after(seed as int, i + 1) / 0x1_0000_0000,
                    0,
                )],
        )
    }
}

/// However many weights are added, their rounded sum does not leave 2 to the 118.
proof fn lemma_sum_bound(objects: Seq<Seq<char>>, frequencies: Map<Seq<char>, u64>, n: int)
    requires
        0 <= n,
    ensures
        sum_of(objects, frequencies, n) <= SUM_CEILING,
        n > 0 ==> {
            &&& as_float(weight(frequencies, objects[n - 1]) as nat) <= 0x2_0000_0000_0000_0000
            &&& sum_of(objects, frequencies, n) > 0
        },
    decreases n,
{
    if n > 0 {
        lemma_sum_bound(objects, frequencies, n - 1);
        let w = weight(frequencies, objects[n - 1]) as nat;
        lemma_float_close(w);
        lemma_float_positive(w);
        let sum = sum_of(objects, frequencies, n - 1) + as_float(w);
        lemma_float_ceiling(sum);
        lemma_float_positive(sum);
    }
}

/// Draws one object: the first whose share in the total weight, with those before
/// it, is at least `s` of `u32::MAX`.
fn draw(
    shares: &Vec<Option<(u128, u128)>>,
    s: u32,
    objects: Ghost<Seq<Seq<char>>>,
    frequencies: Ghost<Map<Seq<char>, u64>>,
) -> (r: usize)
    requires
        shares@.len() == objects@.len(),
        0 < shares@.len(),
        forall|i: int|
            0 <= i < shares@.len() ==> is_share(
                #[trigger] shares@[i],
                sum_of(objects@, frequencies@, i + 1),
                sum_of(objects@, frequencies@, objects@.len() as int),
            ),
    ensures
        r == drawn_from(objects@, frequencies@, s as int, 0),
        r < shares@.len(),
{
    let ghost total = sum_of(objects@, frequencies@, objects@.len() as int);
    if s == 0 {
        proof {
            lemma_zero_not_above(
                u32::MAX as nat,
                sum_of(objects@, frequencies@, 1),
                total,
            );
        }
        return 0;
    }
    let first = match share(s as u128, 0xffff_ffffu128) {
        Some(q) => q,
        None => {
            proof {
                lemma_part_stretch(s as nat, u32::MAX as nat);
            }
            (0, 0)
        },
    };
    let mut j: usize = 0;
    while j < shares.len() - 1
        invariant
            0 <= j < shares@.len(),
            shares@.len() == objects@.len(),
            s > 0,
            total == sum_of(objects@, frequencies@, objects@.len() as int),
            (first.0 as nat, first.1 as nat) == quotient(s as nat, u32::MAX as nat),
            forall|i: int|
                0 <= i < shares@.len() ==> is_share(
                    #[trigger] shares@[i],
                    sum_of(objects@, frequencies@, i + 1),
                    sum_of(objects@, frequencies@, objects@.len() as int),
                ),
            drawn_from(objects@, frequencies@, s as int, 0) == drawn_from(
                objects@,
                frequencies@,
                s as int,
                j as int,
            ),
        decreases shares@.len() - j,
    {
        proof {
            lemma_sum_bound(objects@, frequencies@, j + 1);
            lemma_sum_bound(objects@, frequencies@, objects@.len() as int);
        }
        if is_not_above(
            first,
            &shares[j],
            Ghost(s as nat),
            Ghost(u32::MAX as nat),
            Ghost(sum_of(objects@, frequencies@, j + 1)),
            Ghost(total),
        ) {
            return j;
        }
        j += 1;
    }
    j
}

/// A workload of `iterations` accesses to `objects`, by how often each was asked
/// for.
pub fn generate_weighted_workload(
    objects: &Vec<String>,
    iterations: usize,
    frequencies: &StringHashMap<u64>,
) -> (r: Vec<String>)
    requires
        iterations * objects@.len() + 12345 <= u64::MAX,
    ensures
        texts_of(r@) == workload(texts_of(objects@), iterations as nat, frequencies@),
{
    let n = objects.len();
    let ghost texts = texts_of(objects@);
    let mut out: Vec<String> = Vec::new();
    if n == 0 {
        assert(texts_of(out@) =~= Seq::empty());
        return out;
    }
    let mut sums: Vec<u128> = Vec::new();
    let mut total: u128 = 0;
    let mut i: usize = 0;
    while i < n
        invariant
            i <= n,
            n == objects@.len(),
            texts == texts_of(objects@),
            total == sum_of(texts, frequencies@, i as int),
            total <= SUM_CEILING,
            sums@.len() == i,
            forall|k: int|
                0 <= k < i ==> #[trigger] sums@[k] == sum_of(texts, frequencies@, k + 1),
        decreases n - i,
    {
        let f = match frequencies.get(objects[i].as_str()) {
            Some(f) => *f,
            None => 0,
        };
        proof {
            lemma_sum_bound(texts, frequencies@, i + 1);
            assert(texts[i as int] == objects@[i as int]@);
        }
        let w = float_of(f as u128 + 1);
        total = float_of(total + w);
        sums.push(total);
        i += 1;
    }
    let mut shares: Vec<Option<(u128, u128)>> = Vec::new();
    let mut i: usize = 0;
    while i < n
        invariant
            i <= n,
            sums@.len() == n,
            total == sum_of(texts, frequencies@, n as int),
            forall|k: int|
                0 <= k < n ==> #[trigger] sums@[k] == sum_of(texts, frequencies@, k + 1),
            shares@.len() == i,
            forall|k: int|
                0 <= k < i ==> is_share(
                    #[trigger] shares@[k],
                    sum_of(texts, frequencies@, k + 1),
                    total as nat,
                ),
        decreases n - i,
    {
        proof {
            lemma_sum_bound(texts, frequencies@, i + 1);
            lemma_sum_bound(texts, frequencies@, n as int);
            assert(sums@[i as int] == sum_of(texts, frequencies@, i + 1));
        }
        shares.push(share(sums[i], total));
        i += 1;
    }
    assert(iterations * n >= 0) by (nonlinear_arith);
    let start = iterations as u64 * n as u64 + 12345;
    let mut seed: u64 = start;
    let ghost target = workload(texts, iterations as nat, frequencies@);
    let mut k: usize = 0;
    while k < iterations
        invariant
            k <= iterations,
            n == objects@.len(),
            n > 0,
            texts == texts_of(objects@),
            shares@.len() == n,
            forall|j: int|
                0 <= j < n ==> is_share(
                    #[trigger] shares@[j],
                    sum_of(texts, frequencies@, j + 1),
                    sum_of(texts, frequencies@, n as int),
                ),
            start == iterations * n + 12345,
            seed == seed_after(start as int, k as int),
            target == workload(texts, iterations as nat, frequencies@),
            out@.len() == k,
            forall|j: int| 0 <= j < k ==> #[trigger] out@[j]@ == target[j],
        decreases iterations - k,
    {
        seed = ((seed as u128 * 6364136223846793005u128 + 1442695040888963407u128)
            % 0x1_0000_0000_0000_0000u128) as u64;
        let s = (seed / 0x1_0000_0000) as u32;
        let j = draw(&shares, s, Ghost(texts), Ghost(frequencies@));
        out.push(objects[j].clone());
        assert(target[k as int] == texts[j as int]);
        k += 1;
    }
    assert(texts_of(out@) =~= target);
    out
}

/// A workload has the length that was asked for, and every access is to one of
/// the objects.
pub proof fn law_workload(
    objects: Seq<Seq<char>>,
    iterations: nat,
    frequencies: Map<Seq<char>, u64>,
)
    requires
        objects.len() > 0,
    ensures
        workload(objects, iterations, frequencies).len() == iterations,
        forall|i: int|
            0 <= i < iterations ==> objects.contains(
                #[trigger] workload(objects, iterations, frequencies)[i],
            ),
{
    let seed = (iterations * objects.len() + 12345) as int;
    assert forall|i: int| 0 <= i < iterations implies objects.contains(
        #[trigger] workload(objects, iterations, frequencies)[i],
    ) by {
        let s = seed_after(seed, i + 1) / 0x1_0000_0000;
        lemma_drawn(objects, frequencies, s, 0);
    }
}

proof fn lemma_drawn(objects: Seq<Seq<char>>, frequencies: Map<Seq<char>, u64>, s: int, j: int)
    requires
        0 <= j < objects.len(),
    ensures
        j <= drawn_from(objects, frequencies, s, j) < objects.len(),
    decreases objects.len() - j,
{
    if j < objects.len() - 1 {
        lemma_drawn(objects, frequencies, s, j + 1);
    }
}

/// How often `x` occurs in the list.
pub open spec fn occurrences(list: Seq<Seq<char>>, x: Seq<char>) -> nat
    decreases list.len(),
{
    if list.len() == 0 {
        0
    } else {
        let last: nat = if list.last() == x {
            1
        } else {
            0
        };
        occurrences(list.drop_last(), x) + last
    }
}

proof fn lemma_occurrences(a: Seq<Seq<char>>, b: Seq<Seq<char>>, x: Seq<char>)
    requires
        a.len() == b.len(),
        forall|i: int| 0 <= i < a.len() && #[trigger] a[i] == x ==> b[i] == x,
    ensures
        occurrences(a, x) <= occurrences(b, x),
    decreases a.len(),
{
    if a.len() > 0 {
        let front = a.drop_last();
        assert forall|i: int| 0 <= i < front.len() && #[trigger] front[i] == x implies b.drop_last()[i]
            == x by {
            assert(a[i] == x);
        }
        lemma_occurrences(front, b.drop_last(), x);
        if a.last() == x {
            assert(a[a.len() - 1] == x);
        }
    }
}

/// Whether `more` has the accesses of `few`, and perhaps more of the object `j`.
pub open spec fn asked_more(
    objects: Seq<Seq<char>>,
    few: Map<Seq<char>, u64>,
    more: Map<Seq<char>, u64>,
    j: int,
) -> bool {
    &&& 0 <= j < objects.len()
    &&& forall|i: int|
        0 <= i < objects.len() && i != j ==> accesses_of(more, #[trigger] objects[i])
            == accesses_of(few, objects[i])
    &&& accesses_of(few, objects[j]) <= accesses_of(more, objects[j])
}

/// Sums below 2 to the 53 are held as they are.
proof fn lemma_sum_exact(
    objects: Seq<Seq<char>>,
    frequencies: Map<Seq<char>, u64>,
    n: int,
    all: int,
)
    requires
        0 <= n <= all,
        weight_of(objects, frequencies, all) < 0x20_0000_0000_0000,
    ensures
        0 <= weight_of(objects, frequencies, n) <= weight_of(objects, frequencies, all),
        n > 0 ==> weight_of(objects, frequencies, n) > 0,
        sum_of(objects, frequencies, n) == weight_of(objects, frequencies, n),
    decreases n,
{
    lemma_weight_grows(objects, frequencies, n, all);
    if n > 0 {
        lemma_weight_grows(objects, frequencies, n - 1, all);
        lemma_sum_exact(objects, frequencies, n - 1, n);
        lemma_float_exact(weight(frequencies, objects[n - 1]) as nat);
        lemma_float_exact(weight_of(objects, frequencies, n) as nat);
    }
}

proof fn lemma_weight_grows(
    objects: Seq<Seq<char>>,
    frequencies: Map<Seq<char>, u64>,
    a: int,
    b: int,
)
    requires
        0 <= a <= b,
    ensures
        0 <= weight_of(objects, frequencies, a) <= weight_of(objects, frequencies, b),
        a > 0 ==> weight_of(objects, frequencies, a) > 0,
    decreases b,
{
    if a < b {
        lemma_weight_grows(objects, frequencies, a, b - 1);
    } else if b > 0 {
        lemma_weight_grows(objects, frequencies, a - 1, b - 1);
    }
}

proof fn lemma_weight_more(
    objects: Seq<Seq<char>>,
    few: Map<Seq<char>, u64>,
    more: Map<Seq<char>, u64>,
    j: int,
    n: int,
)
    requires
        asked_more(objects, few, more, j),
        0 <= n <= objects.len(),
    ensures
        weight_of(objects, more, n) == weight_of(objects, few, n) + (if j < n {
            accesses_of(more, objects[j]) - accesses_of(few, objects[j])
        } else {
            0
        }),
    decreases n,
{
    if n > 0 {
        lemma_weight_more(objects, few, more, j, n - 1);
    }
}

/// What draws the object `j` still draws it when it was asked for more often.
proof fn lemma_drawn_more(
    objects: Seq<Seq<char>>,
    few: Map<Seq<char>, u64>,
    more: Map<Seq<char>, u64>,
    j: int,
    s: int,
    k: int,
)
    requires
        asked_more(objects, few, more, j),
        weight_of(objects, more, objects.len() as int) < 0x20_0000_0000_0000,
        0 <= k <= j,
        drawn_from(objects, few, s, k) == j,
    ensures
        drawn_from(objects, more, s, k) == j,
    decreases j - k,
{
    let n = objects.len() as int;
    lemma_weight_more(objects, few, more, j, n);
    lemma_weight_more(objects, few, more, j, k + 1);
    lemma_sum_exact(objects, few, n, n);
    lemma_sum_exact(objects, few, k + 1, n);
    lemma_sum_exact(objects, more, n, n);
    lemma_sum_exact(objects, more, k + 1, n);
    let p = s as nat;
    let q = u32::MAX as nat;
    let a = sum_of(objects, few, k + 1);
    let t = sum_of(objects, few, n);
    let b = sum_of(objects, more, k + 1);
    let u = sum_of(objects, more, n);
    if k < j {
        assert(b * t <= a * u) by (nonlinear_arith)
            requires
                a == b,
                t <= u,
        ;
        if not_above(p, q, b, u) {
            law_not_above_order(p, q, b, u, a, t);
        }
        lemma_drawn_more(objects, few, more, j, s, k + 1);
    } else if k < n - 1 {
        lemma_drawn(objects, few, s, k + 1);
        assert(a * u <= b * t) by (nonlinear_arith)
            requires
                b - a == u - t,
                u >= t,
                a <= t,
        ;
        law_not_above_order(p, q, a, t, b, u);
    }
}

/// A greater weight is never drawn less often: where an object was asked for more
/// often and the others as often as before, each access that was to it still is,
/// so it occurs at least as often. The weights must add up to less than 2 to the
/// 53, above which sums are rounded.
pub proof fn law_heavier(
    objects: Seq<Seq<char>>,
    iterations: nat,
    few: Map<Seq<char>, u64>,
    more: Map<Seq<char>, u64>,
    j: int,
)
    requires
        objects.no_duplicates(),
        asked_more(objects, few, more, j),
        weight_of(objects, more, objects.len() as int) < 0x20_0000_0000_0000,
    ensures
        forall|i: int|
            0 <= i < iterations && #[trigger] workload(objects, iterations, few)[i] == objects[j]
                ==> workload(objects, iterations, more)[i] == objects[j],
        occurrences(workload(objects, iterations, few), objects[j]) <= occurrences(
            workload(objects, iterations, more),
            objects[j],
        ),
{
    let a = workload(objects, iterations, few);
    let b = workload(objects, iterations, more);
    let seed = (iterations * objects.len() + 12345) as int;
    assert forall|i: int| 0 <= i < iterations && #[trigger] a[i] == objects[j] implies b[i]
        == objects[j] by {
        let s = seed_after(seed, i + 1) / 0x1_0000_0000;
        lemma_drawn(objects, few, s, 0);
        assert(drawn_from(objects, few, s, 0) == j);
        lemma_drawn_more(objects, few, more, j, s, 0);
    }
    lemma_occurrences(a, b, objects[j]);
}

/// How often the first `n` objects were asked for, each counted once more.
pub open spec fn asked_to(objects: Seq<Seq<char>>, frequencies: Map<Seq<char>, u64>, n: int) -> int
    decreases n,
{
    if n <= 0 {
        0
    } else if frequencies.contains_key(objects[n - 1]) {
        asked_to(objects, frequencies, n - 1) + frequencies[objects[n - 1]] + 1
    } else {
        asked_to(objects, frequencies, n - 1) + 1
    }
}

proof fn lemma_asked_to(objects: Seq<Seq<char>>, frequencies: Map<Seq<char>, u64>, n: int)
    ensures
        asked_to(objects, frequencies, n) == weight_of(objects, frequencies, n),
    decreases n,
{
    if n > 0 {
        lemma_asked_to(objects, frequencies, n - 1);
    }
}

proof fn lemma_share_exact(s: int, w: nat, t: nat)
    requires
        0 < s <= u32::MAX,
        0 < w <= t <= 0x8_0000,
    ensures
        not_above(s as nat, u32::MAX as nat, w, t) <==> s * t <= w * u32::MAX,
{
    let p = s as nat;
    let q = u32::MAX as nat;
    if p * t <= w * q {
        law_quotient_order(p, q, w, t);
    } else {
        assert(w * q <= 0x8_0000 * 0xffff_ffff) by (nonlinear_arith)
            requires
                w <= 0x8_0000,
                q == 0xffff_ffff,
        ;
        law_quotient_apart(p, q, w, t);
    }
}

proof fn lemma_drawn_share(
    objects: Seq<Seq<char>>,
    frequencies: Map<Seq<char>, u64>,
    s: int,
    k: int,
)
    requires
        0 <= k < objects.len(),
        0 < s <= u32::MAX,
        asked_to(objects, frequencies, objects.len() as int) <= 0x8_0000,
        asked_to(objects, frequencies, k) * u32::MAX < s * asked_to(
            objects,
            frequencies,
            objects.len() as int,
        ),
    ensures
        ({
            let j = drawn_from(objects, frequencies, s, k);
            let t = asked_to(objects, frequencies, objects.len() as int);
            &&& k <= j < objects.len()
            &&& asked_to(objects, frequencies, j) * u32::MAX < s * t
            &&& s * t <= asked_to(objects, frequencies, j + 1) * u32::MAX
        }),
    decreases objects.len() - k,
{
    let n = objects.len() as int;
    lemma_asked_to(objects, frequencies, n);
    lemma_asked_to(objects, frequencies, k);
    lemma_asked_to(objects, frequencies, k + 1);
    lemma_sum_exact(objects, frequencies, n, n);
    lemma_sum_exact(objects, frequencies, k + 1, n);
    let w = sum_of(objects, frequencies, k + 1);
    let t = sum_of(objects, frequencies, n);
    lemma_share_exact(s, w, t);
    if k == n - 1 {
        assert(s * t <= t * u32::MAX) by (nonlinear_arith)
            requires
                s <= u32::MAX,
                t >= 0,
        ;
    } else if s * t > w * u32::MAX {
        lemma_drawn_share(objects, frequencies, s, k + 1);
    }
}

/// Objects are drawn by their share: of the numbers from 1 to `u32::MAX` that an access
/// can be drawn by, an object gets those that lie between the share of the objects in
/// front of it and that share with its own. A share is how often the objects were asked
/// for, each counted once more, out of all. The shares must add up to no more than 2 to
/// the 19, above which rounding can move the limits.
pub proof fn law_share(
    objects: Seq<Seq<char>>,
    iterations: nat,
    frequencies: Map<Seq<char>, u64>,
    i: int,
)
    requires
        objects.len() > 0,
        0 <= i < iterations,
        asked_to(objects, frequencies, objects.len() as int) <= 0x8_0000,
    ensures
        exists|j: int, s: int|
            {
                &&& 0 <= j < objects.len()
                &&& 0 <= s <= u32::MAX
                &&& workload(objects, iterations, frequencies)[i] == #[trigger] objects[j]
                &&& s == seed_after((iterations * objects.len() + 12345) as int, i + 1)
                    / 0x1_0000_0000
                &&& s > 0 ==> asked_to(objects, frequencies, j) * u32::MAX < #[trigger] (s
                    * asked_to(objects, frequencies, objects.len() as int))
                &&& s == 0 ==> j == 0
                &&& s * asked_to(objects, frequencies, objects.len() as int) <= asked_to(
                    objects,
                    frequencies,
                    j + 1,
                ) * u32::MAX
            },
{
    let n = objects.len() as int;
    let seed = (iterations * objects.len() + 12345) as int;
    let s = seed_after(seed, i + 1) / 0x1_0000_0000;
    let t = asked_to(objects, frequencies, n);
    lemma_asked_to(objects, frequencies, n);
    lemma_weight_grows(objects, frequencies, n, n);
    let j = drawn_from(objects, frequencies, s, 0);
    if s > 0 {
        assert(asked_to(objects, frequencies, 0) * u32::MAX < s * t) by (nonlinear_arith)
            requires
                asked_to(objects, frequencies, 0) == 0,
                s > 0,
                t > 0,
        ;
        lemma_drawn_share(objects, frequencies, s, 0);
    } else {
        lemma_zero_not_above(u32::MAX as nat, sum_of(objects, frequencies, 1), sum_of(objects, frequencies, n));
        lemma_asked_to(objects, frequencies, 1);
        lemma_weight_grows(objects, frequencies, 1, n);
        assert(s * t <= asked_to(objects, frequencies, 1) * u32::MAX) by (nonlinear_arith)
            requires
                s == 0,
                asked_to(objects, frequencies, 1) >= 0,
        ;
    }
    assert(workload(objects, iterations, frequencies)[i] == objects[j]);
    assert(s * asked_to(objects, frequencies, n) == s * t);
}

/// In a trial every access is a hit or a miss: both together are the number of
/// accesses.
pub proof fn law_trial_counts(c: CacheView, keys: Seq<Seq<char>>, n: int)
    requires
        0 <= n <= keys.len(),
        c.hits + c.misses + n <= u64::MAX,
    ensures
        c.asked(keys, n).hits + c.asked(keys, n).misses == c.hits + c.misses + n,
    decreases n,
{
    if n > 0 {
        law_trial_counts(c, keys, n - 1);
    }
}

/// The numbers that accesses are drawn by: each is made of the one before it by a factor
/// and a summand, in 64 bits, and different numbers are followed by different ones.
pub proof fn law_generator(seed: int, n: int, a: int, b: int)
    requires
        n >= 0,
        0 <= a < 0x1_0000_0000_0000_0000,
        0 <= b < 0x1_0000_0000_0000_0000,
    ensures
        seed_after(seed, 0) == seed,
        0 <= seed_after(seed, n + 1) < 0x1_0000_0000_0000_0000,
        exists|k: int|
            seed_after(seed, n) * 6364136223846793005 + 1442695040888963407 == #[trigger] (k
                * 0x1_0000_0000_0000_0000) + seed_after(seed, n + 1),
        next_seed(a) == next_seed(b) ==> a == b,
{
    let m: int = 0x1_0000_0000_0000_0000;
    let f: int = 6364136223846793005;
    let x = seed_after(seed, n) * f + 1442695040888963407;
    vstd::arithmetic::div_mod::lemma_fundamental_div_mod(x, m);
    let k = x / m;
    assert(k * m + seed_after(seed, n + 1) == x);
    if next_seed(a) == next_seed(b) {
        let p = a * f + 1442695040888963407;
        let q = b * f + 1442695040888963407;
        vstd::arithmetic::div_mod::lemma_fundamental_div_mod(p, m);
        vstd::arithmetic::div_mod::lemma_fundamental_div_mod(q, m);
        let d = p / m - q / m;
        assert((a - b) * f == d * m) by (nonlinear_arith)
            requires
                a * f + 1442695040888963407 == m * (p / m) + p % m,
                b * f + 1442695040888963407 == m * (q / m) + q % m,
                p % m == q % m,
                d == p / m - q / m,
        ;
        // The factor has an inverse modulo 2 to the 64.
        let inverse: int = 13877824140714322085;
        let rounds: int = 4787856489426250814;
        assert(f * inverse == rounds * m + 1);
        let e = a - b;
        assert(e == m * (d * inverse - e * rounds)) by (nonlinear_arith)
            requires
                e * f == d * m,
                f * inverse == rounds * m + 1,
        ;
        let t = d * inverse - e * rounds;
        assert(t == 0) by (nonlinear_arith)
            requires
                e == m * t,
                -m < e < m,
                m > 0,
        ;
    }
}

} // verus!
