//! What the answer to a trial of the policies says of the cache and of the objects.
use crate::cache::CacheView;
use crate::cache_model::CacheAlgorithmType;
use crate::error::ErrorView;
use crate::ipc::{CacheBenchmarkEntry, CacheSweepRow, ServerMessage};
use crate::metadata::ObjectInfoView;
use crate::server::{sweeps, tries, uuids_of};
use crate::storage::StoreView;
use crate::trial_laws::{law_trial_filled, law_trial_roomy, tried};
use crate::trials::{
    entry_is, fresh_cache, law_ranked, ranked, row_is, sweep, sweep_capacities, trial, trials,
    TrialRow,
};
use crate::web_trials::web_trials;
use crate::workload::{law_workload, workload};
use vstd::prelude::*;

verus! {

/// The keys that are asked for in a trial of `n` accesses to the objects.
pub open spec fn asked_keys(infos: Seq<ObjectInfoView>, n: nat, c: CacheView) -> Seq<Seq<char>> {
    workload(Seq::new(infos.len(), |i: int| infos[i].uuid), n, c.accesses)
}

/// How many different ones there are among the keys.
pub open spec fn different(keys: Seq<Seq<char>>) -> nat {
    keys.to_set().len()
}

proof fn lemma_set_len(a: Seq<Seq<char>>, b: Seq<Seq<char>>)
    requires
        forall|i: int| 0 <= i < a.len() ==> b.contains(#[trigger] a[i]),
    ensures
        a.to_set().len() <= b.len(),
{
    broadcast use vstd::seq_lib::seq_to_set_is_finite;

    b.lemma_cardinality_of_set();
    assert forall|x: Seq<char>| a.to_set().contains(x) implies b.to_set().contains(x) by {
        let i = choose|i: int| 0 <= i < a.len() && a[i] == x;
        assert(b.contains(a[i]));
    }
    vstd::set_lib::lemma_len_subset(a.to_set(), b.to_set());
}

/// Ranking moves rows about.
proof fn lemma_ranked_same(rows: Seq<TrialRow>, row: TrialRow)
    ensures
        ranked(rows).contains(row) == rows.contains(row),
        ranked(rows).len() == rows.len(),
{
    law_ranked(rows);
    broadcast use vstd::seq_lib::to_multiset_contains;

    assert(ranked(rows).to_multiset().count(row) == rows.to_multiset().count(row));
}

/// Whether the counts are those of an empty cache of the policy and the capacity
/// that was asked for the keys one after the other, with everything that has to hold
/// of them.
pub open spec fn counts_of(
    algorithm: CacheAlgorithmType,
    capacity: nat,
    keys: Seq<Seq<char>>,
    hits: u64,
    misses: u64,
) -> bool {
    &&& hits == tried(algorithm, capacity, keys, keys.len() as int).hits
    &&& misses == tried(algorithm, capacity, keys, keys.len() as int).misses
    &&& hits + misses == keys.len()
    &&& misses >= different(keys)
    &&& different(keys) <= capacity ==> misses == different(keys)
}

/// A cache that has room for every key counts like a larger one.
proof fn lemma_same_counts(
    algorithm: CacheAlgorithmType,
    small: nat,
    large: nat,
    keys: Seq<Seq<char>>,
)
    requires
        keys.len() <= u64::MAX,
        small >= 1,
        large >= 1,
        small == large || (different(keys) <= small && different(keys) <= large),
    ensures
        ({
            let a = tried(algorithm, small, keys, keys.len() as int);
            let b = tried(algorithm, large, keys, keys.len() as int);
            a.hits == b.hits && a.misses == b.misses && a.evictions == b.evictions
        }),
{
    let n = keys.len() as int;
    assert(keys.take(n) =~= keys);
    if small != large {
        law_trial_roomy(algorithm, small, keys, n);
        law_trial_roomy(algorithm, large, keys, n);
        crate::trial_laws::law_trial_size(algorithm, small, keys, n);
        crate::trial_laws::law_trial_size(algorithm, large, keys, n);
    }
}

/// Whether one of the entries, under this name, tells what an empty cache of the
/// policy, with this capacity, counts under the keys.
pub open spec fn tells(
    entries: Seq<CacheBenchmarkEntry>,
    name: Seq<char>,
    algorithm: CacheAlgorithmType,
    capacity: nat,
    keys: Seq<Seq<char>>,
) -> bool {
    exists|i: int|
        {
            &&& 0 <= i < entries.len()
            &&& (#[trigger] entries[i]).algorithm@ == name
            &&& counts_of(algorithm, capacity, keys, entries[i].hits, entries[i].misses)
        }
}

/// A trial is of the server's own cache. Where there are objects, each of the three
/// policies has one row, the one with the most hits first. It tells what an empty
/// cache of that policy, with the capacity of the server's cache, counts for the
/// accesses that were drawn by how often the objects were asked for. So misses less
/// evictions are in every row the smaller of the number of different keys and the
/// capacity of the server's cache, and hits and misses together are the accesses.
pub proof fn law_benchmark(
    m: ServerMessage,
    s: StoreView,
    file: Seq<u8>,
    c: CacheView,
    iterations: usize,
)
    requires
        tries(m, s, file, c, iterations),
        c.contents.valid(),
        c.contents.capacity <= usize::MAX,
        s.list_result(file) is Ok,
        0 < s.list_result(file)->Ok_0.len() <= usize::MAX,
    ensures
        ({
            let infos = s.list_result(file)->Ok_0;
            let keys = asked_keys(infos, iterations as nat, c);
            let capacity = c.contents.capacity;
            &&& m matches ServerMessage::CacheBenchmarkResult {
                benchmarks,
                workload_keys,
                iterations: n,
            }
            &&& workload_keys == infos.len()
            &&& n == iterations
            &&& keys.len() == iterations
            &&& benchmarks@.len() == 3
            &&& tells(benchmarks@, "LRU"@, CacheAlgorithmType::Lru, capacity, keys)
            &&& tells(benchmarks@, "FIFO"@, CacheAlgorithmType::Fifo, capacity, keys)
            &&& tells(benchmarks@, "LFU"@, CacheAlgorithmType::Lfu, capacity, keys)
            &&& forall|i: int|
                0 <= i < 3 ==> {
                    &&& (#[trigger] benchmarks@[i]).hits + benchmarks@[i].misses == iterations
                    &&& benchmarks@[i].misses - benchmarks@[i].evictions == (if different(keys)
                        < capacity {
                        different(keys)
                    } else {
                        capacity
                    })
                }
            &&& benchmarks@[0].hits >= benchmarks@[1].hits >= benchmarks@[2].hits
        }),
{
    let infos = s.list_result(file)->Ok_0;
    let uuids = uuids_of(infos);
    assert(uuids =~= Seq::new(infos.len(), |i: int| infos[i].uuid));
    let keys = asked_keys(infos, iterations as nat, c);
    law_workload(uuids, iterations as nat, c.accesses);
    lemma_set_len(keys, uuids);
    let capacity = c.contents.capacity;
    let cap = if capacity < infos.len() {
        capacity as usize
    } else {
        infos.len() as usize
    };
    let rows = trials(cap, keys);
    law_ranked(rows);
    let lru = CacheAlgorithmType::Lru;
    let fifo = CacheAlgorithmType::Fifo;
    let lfu = CacheAlgorithmType::Lfu;
    assert(rows[0] == trial(lru, cap, keys));
    assert(rows[1] == trial(fifo, cap, keys));
    assert(rows[2] == trial(lfu, cap, keys));
    lemma_trial_row(lru, cap, capacity, keys);
    lemma_trial_row(fifo, cap, capacity, keys);
    lemma_trial_row(lfu, cap, capacity, keys);
    if let ServerMessage::CacheBenchmarkResult { benchmarks, .. } = m {
        lemma_row_told(benchmarks@, rows, 0, capacity, keys);
        lemma_row_told(benchmarks@, rows, 1, capacity, keys);
        lemma_row_told(benchmarks@, rows, 2, capacity, keys);
        assert forall|i: int| 0 <= i < 3 implies (#[trigger] benchmarks@[i]).hits
            + benchmarks@[i].misses == iterations && benchmarks@[i].misses
            - benchmarks@[i].evictions == (if different(keys) < capacity {
            different(keys)
        } else {
            capacity
        }) by {
            let row = ranked(rows)[i];
            assert(entry_is(benchmarks@[i], row));
            lemma_ranked_same(rows, row);
            assert(ranked(rows).contains(row));
            let k = choose|k: int| 0 <= k < rows.len() && rows[k] == row;
            assert(k == 0 || k == 1 || k == 2);
        }
        assert(entry_is(benchmarks@[0], ranked(rows)[0]));
        assert(entry_is(benchmarks@[1], ranked(rows)[1]));
        assert(entry_is(benchmarks@[2], ranked(rows)[2]));
    }
}

/// What a trial with the smaller of the capacity and the number of objects counts.
proof fn lemma_trial_row(
    algorithm: CacheAlgorithmType,
    cap: usize,
    capacity: nat,
    keys: Seq<Seq<char>>,
)
    requires
        keys.len() <= u64::MAX,
        1 <= cap <= capacity,
        cap == capacity || different(keys) <= cap,
    ensures
        ({
            let row = trial(algorithm, cap, keys);
            &&& row.algorithm == algorithm
            &&& counts_of(algorithm, capacity, keys, row.hits, row.misses)
            &&& row.misses - row.evictions == (if different(keys) < capacity {
                different(keys)
            } else {
                capacity
            })
        }),
{
    law_trial_filled(algorithm, cap, keys);
    lemma_same_counts(algorithm, cap as nat, capacity, keys);
    let n = keys.len() as int;
    assert(keys.take(n) =~= keys);
    assert(fresh_cache(algorithm, cap as nat) == fresh_cache(algorithm, cap as nat));
}

proof fn lemma_row_told(
    entries: Seq<CacheBenchmarkEntry>,
    rows: Seq<TrialRow>,
    k: int,
    capacity: nat,
    keys: Seq<Seq<char>>,
)
    requires
        0 <= k < rows.len(),
        entries.len() == rows.len(),
        forall|i: int|
            0 <= i < rows.len() ==> entry_is(#[trigger] entries[i], ranked(rows)[i]),
        counts_of(rows[k].algorithm, capacity, keys, rows[k].hits, rows[k].misses),
    ensures
        tells(
            entries,
            match rows[k].algorithm {
                CacheAlgorithmType::Lru => "LRU"@,
                CacheAlgorithmType::Fifo => "FIFO"@,
                CacheAlgorithmType::Lfu => "LFU"@,
            },
            rows[k].algorithm,
            capacity,
            keys,
        ),
{
    lemma_ranked_same(rows, rows[k]);
    assert(rows.contains(rows[k]));
    let all = ranked(rows);
    let i = choose|i: int| 0 <= i < all.len() && all[i] == rows[k];
    assert(entry_is(entries[i], all[i]));
}

/// Whether one of the rows, under this name and with this capacity, tells what an
/// empty cache of the policy counts under the keys.
pub open spec fn row_tells(
    rows: Seq<CacheSweepRow>,
    name: Seq<char>,
    algorithm: CacheAlgorithmType,
    capacity: usize,
    keys: Seq<Seq<char>>,
) -> bool {
    exists|i: int|
        {
            &&& 0 <= i < rows.len()
            &&& (#[trigger] rows[i]).algorithm@ == name
            &&& rows[i].capacity == capacity
            &&& counts_of(algorithm, capacity as nat, keys, rows[i].hits, rows[i].misses)
        }
}

/// Whether all three policies have a row with this capacity.
pub open spec fn all_told(
    rows: Seq<CacheSweepRow>,
    capacity: usize,
    keys: Seq<Seq<char>>,
) -> bool {
    &&& row_tells(rows, "LRU"@, CacheAlgorithmType::Lru, capacity, keys)
    &&& row_tells(rows, "FIFO"@, CacheAlgorithmType::Fifo, capacity, keys)
    &&& row_tells(rows, "LFU"@, CacheAlgorithmType::Lfu, capacity, keys)
}

proof fn lemma_sweep_len(keys: Seq<Seq<char>>, n: int)
    requires
        0 <= n,
    ensures
        sweep(keys, n).len() == 3 * n,
    decreases n,
{
    if n > 0 {
        lemma_sweep_len(keys, n - 1);
    }
}

proof fn lemma_sweep_has(
    keys: Seq<Seq<char>>,
    n: int,
    k: int,
    algorithm: CacheAlgorithmType,
)
    requires
        0 <= k < n <= 9,
    ensures
        sweep(keys, n).contains(trial(algorithm, sweep_capacities()[k], keys)),
    decreases n,
{
    let front = sweep(keys, n - 1);
    let more = trials(sweep_capacities()[n - 1], keys);
    if k < n - 1 {
        lemma_sweep_has(keys, n - 1, k, algorithm);
        lemma_front_contains(front, more, trial(algorithm, sweep_capacities()[k], keys));
    } else {
        let x = match algorithm {
            CacheAlgorithmType::Lru => 0int,
            CacheAlgorithmType::Fifo => 1,
            CacheAlgorithmType::Lfu => 2,
        };
        assert(more[x] == trial(algorithm, sweep_capacities()[k], keys));
        assert((front + more)[front.len() as int + x] == more[x]);
    }
}

proof fn lemma_sweep_row(keys: Seq<Seq<char>>, n: int, i: int)
    requires
        0 <= n <= 9,
        0 <= i < sweep(keys, n).len(),
    ensures
        sweep(keys, n)[i] == trial(
            sweep(keys, n)[i].algorithm,
            sweep(keys, n)[i].capacity,
            keys,
        ),
    decreases n,
{
    if n > 0 {
        let front = sweep(keys, n - 1);
        let more = trials(sweep_capacities()[n - 1], keys);
        if i < front.len() {
            lemma_sweep_row(keys, n - 1, i);
            assert(sweep(keys, n)[i] == front[i]);
        } else {
            assert(sweep(keys, n)[i] == more[i - front.len()]);
        }
    }
}

proof fn lemma_front_contains(a: Seq<TrialRow>, b: Seq<TrialRow>, x: TrialRow)
    requires
        a.contains(x),
    ensures
        (a + b).contains(x),
{
    let i = choose|i: int| 0 <= i < a.len() && a[i] == x;
    assert((a + b)[i] == x);
}

proof fn lemma_sweep_told(
    rows: Seq<CacheSweepRow>,
    keys: Seq<Seq<char>>,
    algorithm: CacheAlgorithmType,
    k: int,
)
    requires
        keys.len() <= u64::MAX,
        0 <= k < 9,
        rows.len() == 27,
        forall|i: int| 0 <= i < 27 ==> row_is(#[trigger] rows[i], ranked(sweep(keys, 9))[i]),
        sweep(keys, 9).len() == 27,
    ensures
        row_tells(
            rows,
            match algorithm {
                CacheAlgorithmType::Lru => "LRU"@,
                CacheAlgorithmType::Fifo => "FIFO"@,
                CacheAlgorithmType::Lfu => "LFU"@,
            },
            algorithm,
            sweep_capacities()[k],
            keys,
        ),
{
    let capacity = sweep_capacities()[k];
    let row = trial(algorithm, capacity, keys);
    lemma_sweep_has(keys, 9, k, algorithm);
    lemma_ranked_same(sweep(keys, 9), row);
    let all = ranked(sweep(keys, 9));
    let i = choose|i: int| 0 <= i < all.len() && all[i] == row;
    assert(row_is(rows[i], all[i]));
    assert(1 <= capacity);
    lemma_trial_row(algorithm, capacity, capacity as nat, keys);
}

/// A sweep tries the three policies with the capacities 2, 4, 8 and so on up to 512:
/// there are 27 rows, one for each policy with each capacity, the one with the most
/// hits first. Each tells what an empty cache of that policy and that capacity counts
/// for the accesses that were drawn by how often the objects were asked for.
pub proof fn law_sweep(
    m: ServerMessage,
    s: StoreView,
    file: Seq<u8>,
    c: CacheView,
    iterations: usize,
)
    requires
        sweeps(m, s, file, c, iterations),
        s.list_result(file) is Ok,
        0 < s.list_result(file)->Ok_0.len() <= usize::MAX,
    ensures
        ({
            let infos = s.list_result(file)->Ok_0;
            let keys = asked_keys(infos, iterations as nat, c);
            &&& m matches ServerMessage::CacheBenchmarkSweep { rows, workload_keys, iterations: n }
            &&& workload_keys == infos.len()
            &&& n == iterations
            &&& keys.len() == iterations
            &&& rows@.len() == 27
            &&& all_told(rows@, 2, keys)
            &&& all_told(rows@, 4, keys)
            &&& all_told(rows@, 8, keys)
            &&& all_told(rows@, 16, keys)
            &&& all_told(rows@, 32, keys)
            &&& all_told(rows@, 64, keys)
            &&& all_told(rows@, 128, keys)
            &&& all_told(rows@, 256, keys)
            &&& all_told(rows@, 512, keys)
            &&& forall|i: int, j: int| 0 <= i <= j < 27 ==> rows@[i].hits >= rows@[j].hits
            &&& forall|i: int|
                0 <= i < 27 ==> (#[trigger] rows@[i]).hits + rows@[i].misses == iterations
        }),
{
    let infos = s.list_result(file)->Ok_0;
    let uuids = uuids_of(infos);
    assert(uuids =~= Seq::new(infos.len(), |i: int| infos[i].uuid));
    let keys = asked_keys(infos, iterations as nat, c);
    law_workload(uuids, iterations as nat, c.accesses);
    lemma_sweep_len(keys, 9);
    let all = sweep(keys, 9);
    law_ranked(all);
    if let ServerMessage::CacheBenchmarkSweep { rows, .. } = m {
        assert forall|k: int| 0 <= k < 9 implies all_told(
            rows@,
            #[trigger] sweep_capacities()[k],
            keys,
        ) by {
            lemma_sweep_told(rows@, keys, CacheAlgorithmType::Lru, k);
            lemma_sweep_told(rows@, keys, CacheAlgorithmType::Fifo, k);
            lemma_sweep_told(rows@, keys, CacheAlgorithmType::Lfu, k);
        }
        assert(sweep_capacities()[0] == 2 && sweep_capacities()[1] == 4);
        assert(sweep_capacities()[2] == 8 && sweep_capacities()[3] == 16);
        assert(sweep_capacities()[4] == 32 && sweep_capacities()[5] == 64);
        assert(sweep_capacities()[6] == 128 && sweep_capacities()[7] == 256);
        assert(sweep_capacities()[8] == 512);
        assert forall|i: int| 0 <= i < 27 implies (#[trigger] rows@[i]).hits + rows@[i].misses
            == iterations by {
            let row = ranked(all)[i];
            assert(row_is(rows@[i], row));
            lemma_ranked_same(all, row);
            assert(ranked(all).contains(row));
            let k = choose|k: int| 0 <= k < all.len() && all[k] == row;
            lemma_sweep_row(keys, 9, k);
            law_trial_filled(all[k].algorithm, all[k].capacity, keys);
        }
        assert forall|i: int, j: int| 0 <= i <= j < 27 implies rows@[i].hits >= rows@[j].hits by {
            assert(row_is(rows@[i], ranked(all)[i]));
            assert(row_is(rows@[j], ranked(all)[j]));
            assert(ranked(all)[i].hits >= ranked(all)[j].hits);
        }
    }
}

/// The web interface tries the policies with the capacity of the cache, on 200
/// accesses: each row tells what an empty cache of that policy counts.
/// Misses less evictions are the smaller of the number of different keys and the
/// capacity.
pub proof fn law_web_benchmark(infos: Seq<ObjectInfoView>, c: CacheView)
    requires
        c.contents.valid(),
        c.contents.capacity <= usize::MAX,
        0 < infos.len(),
    ensures
        ({
            let keys = asked_keys(infos, 200, c);
            let rows = web_trials(infos, c)->0;
            &&& web_trials(infos, c) is Some
            &&& rows.len() == 3
            &&& rows[0].algorithm is Lru
            &&& rows[1].algorithm is Fifo
            &&& rows[2].algorithm is Lfu
            &&& forall|i: int|
                0 <= i < 3 ==> {
                    &&& counts_of(
                        (#[trigger] rows[i]).algorithm,
                        c.contents.capacity,
                        keys,
                        rows[i].hits,
                        rows[i].misses,
                    )
                    &&& rows[i].misses - rows[i].evictions == (if different(keys)
                        < c.contents.capacity {
                        different(keys)
                    } else {
                        c.contents.capacity
                    })
                }
        }),
{
    let uuids = uuids_of(infos);
    assert(uuids =~= Seq::new(infos.len(), |i: int| infos[i].uuid));
    let n = 200nat;
    let keys = asked_keys(infos, n, c);
    law_workload(uuids, n, c.accesses);
    let cap = c.contents.capacity as usize;
    lemma_trial_row(CacheAlgorithmType::Lru, cap, c.contents.capacity, keys);
    lemma_trial_row(CacheAlgorithmType::Fifo, cap, c.contents.capacity, keys);
    lemma_trial_row(CacheAlgorithmType::Lfu, cap, c.contents.capacity, keys);
    let rows = web_trials(infos, c)->0;
    assert(rows[0] == trial(CacheAlgorithmType::Lru, cap, keys));
    assert(rows[1] == trial(CacheAlgorithmType::Fifo, cap, keys));
    assert(rows[2] == trial(CacheAlgorithmType::Lfu, cap, keys));
}

/// Without objects there is nothing to try.
pub proof fn law_no_objects(
    m: ServerMessage,
    s: StoreView,
    file: Seq<u8>,
    c: CacheView,
    iterations: usize,
)
    requires
        tries(m, s, file, c, iterations) || sweeps(m, s, file, c, iterations),
        s.list_result(file) == Ok::<_, ErrorView>(Seq::<ObjectInfoView>::empty()),
    ensures
        m is Error,
{
}

} // verus!
