//! Trials of the cache policies under a workload.
use crate::cache::{texts_of, CacheView, ObjectCache};
use crate::cache_model::{CacheAlgorithmType, Contents};
use crate::ipc::{CacheBenchmarkEntry, CacheSweepRow};
use crate::policies::{algorithm_name, CachedObject};
use crate::workload::workload;
use vstd::hash_map::*;
use vstd::prelude::*;
use vstd::string::*;

verus! {

/// How one policy did with one capacity.
#[derive(Debug, Clone, Copy)]
pub struct TrialRow {
    pub algorithm: CacheAlgorithmType,
    pub capacity: usize,
    pub hits: u64,
    pub misses: u64,
    pub evictions: u64,
}

/// An empty cache.
pub open spec fn fresh_cache(algorithm: CacheAlgorithmType, capacity: nat) -> CacheView {
    CacheView {
        contents: Contents {
            algorithm,
            capacity: if capacity == 0 {
                1
            } else {
                capacity
            },
            items: Seq::empty(),
        },
        hits: 0,
        misses: 0,
        evictions: 0,
        accesses: Map::empty(),
    }
}

/// How a policy does with a capacity under the workload: what an empty cache
/// counts when the keys are asked for one after the other.
pub open spec fn trial(algorithm: CacheAlgorithmType, capacity: usize, keys: Seq<Seq<char>>) -> TrialRow {
    let end = fresh_cache(algorithm, capacity as nat).asked(keys, keys.len() as int);
    TrialRow { algorithm, capacity, hits: end.hits, misses: end.misses, evictions: end.evictions }
}

/// Tries a policy with a capacity under the workload.
pub fn run_trial(algorithm: CacheAlgorithmType, capacity: usize, keys: &Vec<String>) -> (r: TrialRow)
    requires
        algorithm is Lru ==> capacity <= usize::MAX / 128,
    ensures
        r == trial(algorithm, capacity, texts_of(keys@)),
{
    let mut cache = ObjectCache::new(algorithm, capacity);
    let none: Vec<(String, CachedObject)> = Vec::new();
    let ghost c = cache@;
    assert(keys@.len() == keys.len());
    assert(c.headroom(keys@.len() as int));
    assert(c.emptied().contents.items =~= c.contents.items);
    assert(c.emptied() == c);
    let b = cache.benchmark_run(keys, &none);
    TrialRow { algorithm, capacity, hits: b.hits, misses: b.misses, evictions: b.evictions }
}

/// The first place from `i` on whose row has fewer hits than `x`.
pub open spec fn rank_from(rows: Seq<TrialRow>, x: TrialRow, i: int) -> int
    decreases rows.len() - i,
{
    if i >= rows.len() || rows[i].hits < x.hits {
        i
    } else {
        rank_from(rows, x, i + 1)
    }
}

/// The rows by their hits, most first. Rows with the same number keep their order.
pub open spec fn ranked(rows: Seq<TrialRow>) -> Seq<TrialRow>
    decreases rows.len(),
{
    if rows.len() == 0 {
        rows
    } else {
        let front = ranked(rows.drop_last());
        front.insert(rank_from(front, rows.last(), 0), rows.last())
    }
}

proof fn lemma_rank_from(rows: Seq<TrialRow>, x: TrialRow, i: int)
    requires
        0 <= i <= rows.len(),
    ensures
        i <= rank_from(rows, x, i) <= rows.len(),
        rank_from(rows, x, i) < rows.len() ==> rows[rank_from(rows, x, i)].hits < x.hits,
        forall|j: int| i <= j < rank_from(rows, x, i) ==> (#[trigger] rows[j]).hits >= x.hits,
    decreases rows.len() - i,
{
    if i < rows.len() && rows[i].hits >= x.hits {
        lemma_rank_from(rows, x, i + 1);
    }
}

/// Ranking sorts by the hits and loses nothing.
pub proof fn law_ranked(rows: Seq<TrialRow>)
    ensures
        ranked(rows).len() == rows.len(),
        forall|i: int, j: int|
            0 <= i <= j < rows.len() ==> ranked(rows)[i].hits >= ranked(rows)[j].hits,
        ranked(rows).to_multiset() == rows.to_multiset(),
    decreases rows.len(),
{
    if rows.len() > 0 {
        law_ranked(rows.drop_last());
        let front = ranked(rows.drop_last());
        let x = rows.last();
        lemma_rank_from(front, x, 0);
        let k = rank_from(front, x, 0);
        let r = ranked(rows);
        assert forall|i: int, j: int| 0 <= i <= j < rows.len() implies r[i].hits >= r[j].hits by {
            if i < k && j > k {
                assert(front[i].hits >= front[j - 1].hits);
            } else if i == k && j > k {
                assert(front[k].hits >= front[j - 1].hits);
            } else if j == k && i < k {
                assert(front[i].hits >= x.hits);
            } else if i > k {
                assert(front[i - 1].hits >= front[j - 1].hits);
            }
        }
        broadcast use vstd::seq_lib::group_to_multiset_ensures;

        assert(rows =~= rows.drop_last().push(x));
        assert(r.remove(k) =~= front);
        assert(r[k] == x && r.contains(x));
        assert(r.to_multiset() =~= front.to_multiset().insert(x));
    }
}

/// Sorts the rows by their hits, most first.
pub fn rank(rows: &Vec<TrialRow>) -> (r: Vec<TrialRow>)
    ensures
        r@ == ranked(rows@),
{
    let mut out: Vec<TrialRow> = Vec::new();
    let mut i: usize = 0;
    assert(rows@.take(0) =~= Seq::empty());
    while i < rows.len()
        invariant
            i <= rows@.len(),
            out@ == ranked(rows@.take(i as int)),
        decreases rows@.len() - i,
    {
        let x = rows[i];
        proof {
            assert(rows@.take(i + 1).drop_last() =~= rows@.take(i as int));
        }
        let mut k: usize = 0;
        while k < out.len() && out[k].hits >= x.hits
            invariant
                k <= out@.len(),
                rank_from(out@, x, 0) == rank_from(out@, x, k as int),
            decreases out@.len() - k,
        {
            k += 1;
        }
        out.insert(k, x);
        i += 1;
    }
    assert(rows@.take(i as int) =~= rows@);
    out
}

/// The three policies with one capacity.
pub open spec fn trials(capacity: usize, keys: Seq<Seq<char>>) -> Seq<TrialRow> {
    seq![
        trial(CacheAlgorithmType::Lru, capacity, keys),
        trial(CacheAlgorithmType::Fifo, capacity, keys),
        trial(CacheAlgorithmType::Lfu, capacity, keys),
    ]
}

/// Tries the three policies with one capacity.
pub fn run_trials(capacity: usize, keys: &Vec<String>) -> (r: Vec<TrialRow>)
    requires
        capacity <= usize::MAX / 128,
    ensures
        r@ == trials(capacity, texts_of(keys@)),
{
    let policies = CacheAlgorithmType::all();
    let mut rows: Vec<TrialRow> = Vec::new();
    let mut i: usize = 0;
    while i < policies.len()
        invariant
            i <= policies@.len(),
            policies@ == seq![
                CacheAlgorithmType::Lru,
                CacheAlgorithmType::Fifo,
                CacheAlgorithmType::Lfu,
            ],
            capacity <= usize::MAX / 128,
            rows@ == trials(capacity, texts_of(keys@)).take(i as int),
        decreases policies@.len() - i,
    {
        rows.push(run_trial(policies[i], capacity, keys));
        i += 1;
        assert(rows@ =~= trials(capacity, texts_of(keys@)).take(i as int));
    }
    assert(rows@ =~= trials(capacity, texts_of(keys@)));
    rows
}

/// The capacities of a sweep.
pub open spec fn sweep_capacities() -> Seq<usize> {
    seq![2, 4, 8, 16, 32, 64, 128, 256, 512]
}

/// The three policies with the first `n` capacities of a sweep.
pub open spec fn sweep(keys: Seq<Seq<char>>, n: int) -> Seq<TrialRow>
    decreases n,
{
    if n <= 0 {
        Seq::empty()
    } else {
        sweep(keys, n - 1) + trials(sweep_capacities()[n - 1], keys)
    }
}

/// Tries the three policies with every capacity of a sweep.
pub fn run_sweep(keys: &Vec<String>) -> (r: Vec<TrialRow>)
    ensures
        r@ == sweep(texts_of(keys@), 9),
{
    let capacities = vec![2usize, 4, 8, 16, 32, 64, 128, 256, 512];
    assert(capacities@ =~= sweep_capacities());
    let mut rows: Vec<TrialRow> = Vec::new();
    let mut i: usize = 0;
    while i < capacities.len()
        invariant
            i <= capacities@.len(),
            capacities@ == sweep_capacities(),
            rows@ == sweep(texts_of(keys@), i as int),
        decreases capacities@.len() - i,
    {
        assert(capacities@[i as int] <= 512);
        let mut some = run_trials(capacities[i], keys);
        rows.append(&mut some);
        i += 1;
    }
    rows
}

/// Whether the entry tells of the row.
pub open spec fn entry_is(e: CacheBenchmarkEntry, t: TrialRow) -> bool {
    &&& e.algorithm@ == algorithm_name(t.algorithm)
    &&& e.hits == t.hits
    &&& e.misses == t.misses
    &&& e.evictions == t.evictions
}

/// Whether the row of a sweep tells of the row.
pub open spec fn row_is(e: CacheSweepRow, t: TrialRow) -> bool {
    &&& e.algorithm@ == algorithm_name(t.algorithm)
    &&& e.capacity == t.capacity
    &&& e.hits == t.hits
    &&& e.misses == t.misses
}

/// The rows as entries.
pub fn entries_from(rows: &Vec<TrialRow>) -> (r: Vec<CacheBenchmarkEntry>)
    ensures
        r@.len() == rows@.len(),
        forall|i: int| 0 <= i < r@.len() ==> entry_is(#[trigger] r@[i], rows@[i]),
{
    let mut out: Vec<CacheBenchmarkEntry> = Vec::new();
    let mut i: usize = 0;
    while i < rows.len()
        invariant
            i <= rows@.len(),
            out@.len() == i,
            forall|j: int| 0 <= j < i ==> entry_is(#[trigger] out@[j], rows@[j]),
        decreases rows@.len() - i,
    {
        let t = rows[i];
        out.push(
            CacheBenchmarkEntry {
                algorithm: t.algorithm.as_str().to_owned(),
                hits: t.hits,
                misses: t.misses,
                evictions: t.evictions,
            },
        );
        i += 1;
    }
    out
}

/// The rows as rows of a sweep.
pub fn sweep_rows_from(rows: &Vec<TrialRow>) -> (r: Vec<CacheSweepRow>)
    ensures
        r@.len() == rows@.len(),
        forall|i: int| 0 <= i < r@.len() ==> row_is(#[trigger] r@[i], rows@[i]),
{
    let mut out: Vec<CacheSweepRow> = Vec::new();
    let mut i: usize = 0;
    while i < rows.len()
        invariant
            i <= rows@.len(),
            out@.len() == i,
            forall|j: int| 0 <= j < i ==> row_is(#[trigger] out@[j], rows@[j]),
        decreases rows@.len() - i,
    {
        let t = rows[i];
        out.push(
            CacheSweepRow {
                algorithm: t.algorithm.as_str().to_owned(),
                capacity: t.capacity,
                hits: t.hits,
                misses: t.misses,
            },
        );
        i += 1;
    }
    out
}

/// Where each row stands after sorting: in front of
/// those with fewer hits, and among equals in the order in which they came.
pub proof fn law_rank_places(list: Seq<TrialRow>) -> (places: Seq<int>)
    ensures
        places.len() == list.len(),
        forall|i: int|
            0 <= i < list.len() ==> 0 <= #[trigger] places[i] < list.len() && ranked(
                list,
            )[places[i]] == list[i],
        forall|i: int, j: int|
            0 <= i < j < list.len() ==> (#[trigger] places[i] < #[trigger] places[j] <==> list[i].hits
                >= list[j].hits),
        forall|i: int, j: int| 0 <= i < j < list.len() ==> places[i] != places[j],
    decreases list.len(),
{
    if list.len() == 0 {
        Seq::empty()
    } else {
        let front = list.drop_last();
        let before = law_rank_places(front);
        let x = list.last();
        let k = rank_from(ranked(front), x, 0);
        law_ranked(front);
        lemma_rank_from(ranked(front), x, 0);
        let sorted = ranked(list);
        let places = Seq::new(
            list.len(),
            |i: int|
                if i == front.len() {
                    k
                } else if before[i] < k {
                    before[i]
                } else {
                    before[i] + 1
                },
        );
        assert forall|i: int| 0 <= i < list.len() implies 0 <= #[trigger] places[i] < list.len()
            && sorted[places[i]] == list[i] by {
            if i < front.len() {
                assert(0 <= before[i] < front.len());
                assert(ranked(front)[before[i]] == front[i]);
            }
        }
        assert forall|i: int, j: int| 0 <= i < j < list.len() implies (#[trigger] places[i]
            < #[trigger] places[j] <==> list[i].hits
                >= list[j].hits) && places[i] != places[j] by {
            if j < front.len() {
                assert(before[i] < before[j] <==> front[i].hits >= front[j].hits);
                assert(before[i] != before[j]);
            } else {
                let f = ranked(front);
                assert(f[before[i]] == front[i]);
                if before[i] >= k {
                    assert(f[k].hits >= f[before[i]].hits);
                }
            }
        }
        places
    }
}

} // verus!
