//! What holds of the trials, whatever is asked for.
use crate::cache::{placeholder, CacheView};
use crate::cache_laws::{called, CacheCall};
use crate::cache_model::{
    law_access_keeps_objects, law_cache_valid, law_insert, lemma_least_used, lemma_slot,
    lemma_slot_is, CacheAlgorithmType, CachedView, Contents, Item,
};
use crate::trials::{fresh_cache, trial};
use crate::workload::law_trial_counts;
use vstd::prelude::*;

verus! {

/// The cache of a trial after the first `n` keys were asked for.
pub open spec fn tried(
    algorithm: CacheAlgorithmType,
    capacity: nat,
    keys: Seq<Seq<char>>,
    n: int,
) -> CacheView {
    fresh_cache(algorithm, capacity).asked(keys, n)
}

/// The cache of a trial stays valid, and keeps its policy and its capacity.
proof fn lemma_tried_valid(
    algorithm: CacheAlgorithmType,
    capacity: nat,
    keys: Seq<Seq<char>>,
    n: int,
)
    requires
        0 <= n <= keys.len(),
    ensures
        tried(algorithm, capacity, keys, n).contents.valid(),
        tried(algorithm, capacity, keys, n).contents.algorithm == algorithm,
        tried(algorithm, capacity, keys, n).contents.capacity == fresh_cache(
            algorithm,
            capacity,
        ).contents.capacity,
    decreases n,
{
    if n > 0 {
        lemma_tried_valid(algorithm, capacity, keys, n - 1);
        let c = tried(algorithm, capacity, keys, n - 1).contents;
        let key = keys[n - 1];
        law_cache_valid(c, key, placeholder(key), 1);
    }
}

/// The counts of a trial stay within the number of accesses.
proof fn lemma_tried_counts(
    algorithm: CacheAlgorithmType,
    capacity: nat,
    keys: Seq<Seq<char>>,
    n: int,
)
    requires
        0 <= n <= keys.len(),
        n <= u64::MAX,
    ensures
        tried(algorithm, capacity, keys, n).hits + tried(algorithm, capacity, keys, n).misses == n,
        tried(algorithm, capacity, keys, n).evictions <= n,
    decreases n,
{
    law_trial_counts(fresh_cache(algorithm, capacity), keys, n);
    if n > 0 {
        lemma_tried_counts(algorithm, capacity, keys, n - 1);
    }
}

/// What one more access does to the number of entries.
proof fn lemma_inserted_len(c: Contents, key: Seq<char>)
    requires
        c.valid(),
        !c.has(key),
    ensures
        c.touched(key) == c,
        c.evicted_by(key) is Some <==> c.items.len() >= c.capacity,
        c.inserted(key, placeholder(key)).items.len() == c.items.len() + (
        if c.items.len() >= c.capacity {
            0int
        } else {
            1
        }),
{
    if c.items.len() > 0 {
        lemma_least_used(c.items, c.items.len() as int);
    }
}

/// In a trial every miss puts an entry into the cache, which stays until it is
/// evicted: the misses less the evictions are the entries that the cache ends
/// with. They are no more than it has room for, and hits and misses together are
/// the accesses.
pub proof fn law_trial_size(
    algorithm: CacheAlgorithmType,
    capacity: nat,
    keys: Seq<Seq<char>>,
    n: int,
)
    requires
        0 <= n <= keys.len(),
        n <= u64::MAX,
    ensures
        ({
            let end = tried(algorithm, capacity, keys, n);
            &&& end.misses == end.evictions + end.contents.items.len()
            &&& end.contents.items.len() <= (if capacity == 0 {
                1
            } else {
                capacity
            })
            &&& end.hits + end.misses == n
        }),
    decreases n,
{
    lemma_tried_valid(algorithm, capacity, keys, n);
    lemma_tried_counts(algorithm, capacity, keys, n);
    if n > 0 {
        law_trial_size(algorithm, capacity, keys, n - 1);
        lemma_tried_valid(algorithm, capacity, keys, n - 1);
        lemma_tried_counts(algorithm, capacity, keys, n - 1);
        let c = tried(algorithm, capacity, keys, n - 1).contents;
        let key = keys[n - 1];
        lemma_slot(c.items, key, 0);
        if !c.has(key) {
            lemma_inserted_len(c, key);
        }
    }
}

/// The keys of a cache after one more access are the earlier ones and the one that
/// was asked for.
proof fn lemma_keys_step(c: Contents, key: Seq<char>, j: int)
    requires
        c.valid(),
        ({
            let d = if c.has(key) {
                c.touched(key)
            } else {
                c.touched(key).inserted(key, placeholder(key))
            };
            0 <= j < d.items.len()
        }),
    ensures
        ({
            let d = if c.has(key) {
                c.touched(key)
            } else {
                c.touched(key).inserted(key, placeholder(key))
            };
            d.items[j].key == key || exists|i: int|
                0 <= i < c.items.len() && (#[trigger] c.items[i]).key == d.items[j].key
        }),
{
    lemma_slot(c.items, key, 0);
    let i = c.slot(key);
    let lru = c.algorithm == CacheAlgorithmType::Lru;
    if c.items.len() > 0 {
        lemma_least_used(c.items, c.items.len() as int);
    }
    if c.has(key) {
        let d = c.touched(key);
        if lru {
            if j > 0 {
                let k = if j - 1 < i {
                    j - 1
                } else {
                    j
                };
                assert(d.items[j] == c.items[k]);
            }
        } else {
            assert(c.items[j].key == d.items[j].key);
        }
    } else {
        let d = c.inserted(key, placeholder(key));
        let v = c.victim();
        let full = c.items.len() >= c.capacity;
        let at = if lru {
            j - 1
        } else {
            j
        };
        let k = if full && at >= v {
            at + 1
        } else {
            at
        };
        if 0 <= at && k < c.items.len() {
            assert(d.items[j] == c.items[k]);
        }
    }
}

/// A trial's cache holds keys that were asked for.
proof fn lemma_tried_keys(
    algorithm: CacheAlgorithmType,
    capacity: nat,
    keys: Seq<Seq<char>>,
    n: int,
)
    requires
        0 <= n <= keys.len(),
    ensures
        forall|j: int|
            0 <= j < tried(algorithm, capacity, keys, n).contents.items.len() ==> keys.take(n).contains(
                (#[trigger] tried(algorithm, capacity, keys, n).contents.items[j]).key,
            ),
    decreases n,
{
    if n > 0 {
        lemma_tried_keys(algorithm, capacity, keys, n - 1);
        lemma_tried_valid(algorithm, capacity, keys, n - 1);
        let c = tried(algorithm, capacity, keys, n - 1).contents;
        let d = tried(algorithm, capacity, keys, n).contents;
        let key = keys[n - 1];
        assert forall|j: int| 0 <= j < d.items.len() implies keys.take(n).contains(
            (#[trigger] d.items[j]).key,
        ) by {
            lemma_keys_step(c, key, j);
            if d.items[j].key == key {
                assert(keys.take(n)[n - 1] == key);
            } else {
                let i = choose|i: int|
                    0 <= i < c.items.len() && (#[trigger] c.items[i]).key == d.items[j].key;
                let before = keys.take(n - 1);
                assert(before.contains(c.items[i].key));
                let m = choose|m: int| 0 <= m < before.len() && before[m] == c.items[i].key;
                assert(keys.take(n)[m] == d.items[j].key);
            }
        }
    }
}

/// One more key makes the set of keys larger unless it is in it.
proof fn lemma_key_set(keys: Seq<Seq<char>>, n: int)
    requires
        0 < n <= keys.len(),
    ensures
        keys.take(n).to_set() == keys.take(n - 1).to_set().insert(keys[n - 1]),
        keys.take(n).to_set().len() == keys.take(n - 1).to_set().len() + (if keys.take(
            n - 1,
        ).contains(keys[n - 1]) {
            0int
        } else {
            1
        }),
{
    broadcast use vstd::seq_lib::seq_to_set_is_finite;

    let key = keys[n - 1];
    let before = keys.take(n - 1);
    let after = keys.take(n);
    assert forall|x: Seq<char>| after.to_set().contains(x) implies before.to_set().insert(
        key,
    ).contains(x) by {
        let i = choose|i: int| 0 <= i < after.len() && after[i] == x;
        if i < n - 1 {
            assert(before[i] == x);
        }
    }
    assert forall|x: Seq<char>| before.to_set().insert(key).contains(
        x,
    ) implies after.to_set().contains(x) by {
        if x == key {
            assert(after[n - 1] == x);
        } else {
            let i = choose|i: int| 0 <= i < before.len() && before[i] == x;
            assert(after[i] == x);
        }
    }
    assert(after.to_set() =~= before.to_set().insert(key));
    assert(before.to_set().contains(key) == before.contains(key));
}

/// A key is not in the cache before it is asked for: a trial misses at least once
/// for every different key.
pub proof fn law_trial_misses(
    algorithm: CacheAlgorithmType,
    capacity: nat,
    keys: Seq<Seq<char>>,
    n: int,
)
    requires
        0 <= n <= keys.len(),
        n <= u64::MAX,
    ensures
        tried(algorithm, capacity, keys, n).misses >= keys.take(n).to_set().len(),
    decreases n,
{
    if n == 0 {
        assert(keys.take(0).to_set() =~= Set::empty());
    } else {
        law_trial_misses(algorithm, capacity, keys, n - 1);
        lemma_tried_counts(algorithm, capacity, keys, n - 1);
        lemma_tried_keys(algorithm, capacity, keys, n - 1);
        lemma_key_set(keys, n);
        let c = tried(algorithm, capacity, keys, n - 1).contents;
        let key = keys[n - 1];
        lemma_slot(c.items, key, 0);
        if c.has(key) {
            assert(keys.take(n - 1).contains(c.items[c.slot(key)].key));
        }
    }
}

/// Where there is room for every key, what was asked for stays.
proof fn lemma_tried_roomy(
    algorithm: CacheAlgorithmType,
    capacity: nat,
    keys: Seq<Seq<char>>,
    n: int,
)
    requires
        0 <= n <= keys.len(),
        n <= u64::MAX,
        keys.take(n).to_set().len() <= capacity,
    ensures
        tried(algorithm, capacity, keys, n).misses == keys.take(n).to_set().len(),
        tried(algorithm, capacity, keys, n).evictions == 0,
        forall|i: int|
            0 <= i < n ==> tried(algorithm, capacity, keys, n).contents.has(#[trigger] keys[i]),
    decreases n,
{
    if n == 0 {
        assert(keys.take(0).to_set() =~= Set::empty());
    } else {
        lemma_key_set(keys, n);
        lemma_tried_roomy(algorithm, capacity, keys, n - 1);
        lemma_tried_valid(algorithm, capacity, keys, n - 1);
        lemma_tried_counts(algorithm, capacity, keys, n - 1);
        lemma_tried_keys(algorithm, capacity, keys, n - 1);
        law_trial_size(algorithm, capacity, keys, n - 1);
        let c = tried(algorithm, capacity, keys, n - 1).contents;
        let d = tried(algorithm, capacity, keys, n).contents;
        let key = keys[n - 1];
        let before = keys.take(n - 1);
        lemma_slot(c.items, key, 0);
        if c.has(key) {
            assert(before.contains(c.items[c.slot(key)].key));
        } else if before.contains(key) {
            let i = choose|i: int| 0 <= i < before.len() && before[i] == key;
            assert(c.has(keys[i]));
        } else {
            lemma_inserted_len(c, key);
        }
        assert forall|i: int| 0 <= i < n implies d.has(#[trigger] keys[i]) by {
            law_access_keeps_objects(c, key, keys[i]);
            law_insert(c, key, placeholder(key), keys[i]);
            if keys[i] != key {
                assert(c.has(keys[i]));
                assert(c.at(keys[i]) is Some);
            }
            assert(d.at(keys[i]) is Some);
        }
    }
}

/// With room for every different key a trial misses each of them once, and evicts
/// nothing.
pub proof fn law_trial_roomy(
    algorithm: CacheAlgorithmType,
    capacity: nat,
    keys: Seq<Seq<char>>,
    n: int,
)
    requires
        0 <= n <= keys.len(),
        n <= u64::MAX,
        keys.take(n).to_set().len() <= capacity,
    ensures
        tried(algorithm, capacity, keys, n).misses == keys.take(n).to_set().len(),
        tried(algorithm, capacity, keys, n).evictions == 0,
{
    lemma_tried_roomy(algorithm, capacity, keys, n);
}

/// As long as there was room for every key, what was asked for is there.
proof fn lemma_tried_filled(
    algorithm: CacheAlgorithmType,
    capacity: nat,
    keys: Seq<Seq<char>>,
    n: int,
)
    requires
        0 <= n <= keys.len(),
        n <= u64::MAX,
    ensures
        tried(algorithm, capacity, keys, n).contents.items.len() == (if keys.take(n).to_set().len()
            <= fresh_cache(algorithm, capacity).contents.capacity {
            keys.take(n).to_set().len()
        } else {
            fresh_cache(algorithm, capacity).contents.capacity
        }),
    decreases n,
{
    let room = fresh_cache(algorithm, capacity).contents.capacity;
    if n == 0 {
        assert(keys.take(0).to_set() =~= Set::empty());
    } else {
        lemma_key_set(keys, n);
        lemma_tried_filled(algorithm, capacity, keys, n - 1);
        lemma_tried_valid(algorithm, capacity, keys, n - 1);
        lemma_tried_keys(algorithm, capacity, keys, n - 1);
        let c = tried(algorithm, capacity, keys, n - 1).contents;
        let key = keys[n - 1];
        let before = keys.take(n - 1);
        lemma_slot(c.items, key, 0);
        if c.has(key) {
            assert(before.contains(c.items[c.slot(key)].key));
        } else {
            lemma_inserted_len(c, key);
            if before.contains(key) && c.items.len() < room {
                lemma_tried_roomy(algorithm, room, keys, n - 1);
                assert(fresh_cache(algorithm, room) == fresh_cache(algorithm, capacity));
                let i = choose|i: int| 0 <= i < before.len() && before[i] == key;
                assert(c.has(keys[i]));
            }
        }
    }
}

/// A trial ends with as many entries as different keys were asked for, or with a
/// full cache where there were more: the misses less the evictions are the smaller
/// of both.
pub proof fn law_trial_filled(
    algorithm: CacheAlgorithmType,
    capacity: usize,
    keys: Seq<Seq<char>>,
)
    requires
        keys.len() <= u64::MAX,
    ensures
        ({
            let row = trial(algorithm, capacity, keys);
            let different = keys.to_set().len();
            let room: nat = if capacity == 0 {
                1
            } else {
                capacity as nat
            };
            &&& row.algorithm == algorithm
            &&& row.capacity == capacity
            &&& row.hits + row.misses == keys.len()
            &&& row.misses >= different
            &&& row.misses - row.evictions == (if different < room {
                different
            } else {
                room
            })
            &&& different <= room ==> row.misses == different && row.evictions == 0
        }),
{
    let n = keys.len() as int;
    assert(keys.take(n) =~= keys);
    law_trial_size(algorithm, capacity as nat, keys, n);
    law_trial_misses(algorithm, capacity as nat, keys, n);
    lemma_tried_filled(algorithm, capacity as nat, keys, n);
    let room: nat = if capacity == 0 {
        1
    } else {
        capacity as nat
    };
    if keys.to_set().len() <= room {
        law_trial_roomy(algorithm, room, keys, n);
        assert(fresh_cache(algorithm, room) == fresh_cache(algorithm, capacity as nat));
    }
}

/// How a trial goes on: a key that is there is a hit and is accessed; one that is not
/// is a miss and is put. Nothing else happens.
pub proof fn law_trial_step(
    algorithm: CacheAlgorithmType,
    capacity: nat,
    keys: Seq<Seq<char>>,
    n: int,
)
    requires
        0 <= n < keys.len(),
        keys.len() <= u64::MAX,
    ensures
        ({
            let a = tried(algorithm, capacity, keys, n);
            let b = tried(algorithm, capacity, keys, n + 1);
            let get = CacheCall::Get { key: keys[n] };
            &&& n == 0 ==> a.hits == 0 && a.misses == 0 && a.evictions == 0
                && a.contents.items.len() == 0
            &&& a.contents.has(keys[n]) ==> {
                &&& b.hits == a.hits + 1
                &&& b.misses == a.misses
                &&& b.evictions == a.evictions
                &&& b.contents == called(a.contents, get)
            }
            &&& !a.contents.has(keys[n]) ==> {
                &&& b.hits == a.hits
                &&& b.misses == a.misses + 1
                &&& b.contents.has(keys[n])
                &&& exists|obj: CachedView|
                    b.contents == #[trigger] called(a.contents, CacheCall::Put { key: keys[n], obj })
            }
        }),
{
    let a = tried(algorithm, capacity, keys, n);
    lemma_tried_counts(algorithm, capacity, keys, n);
    lemma_tried_valid(algorithm, capacity, keys, n);
    law_insert(a.contents, keys[n], placeholder(keys[n]), keys[n]);
    let put = CacheCall::Put { key: keys[n], obj: placeholder(keys[n]) };
    if !a.contents.has(keys[n]) {
        let b = tried(algorithm, capacity, keys, n + 1);
        assert(b.contents == called(a.contents, put));
        assert(b.contents.at(keys[n]) is Some);
    }
}

/// Whether every entry is the placeholder that a trial inserts.
spec fn plain(items: Seq<Item>) -> bool {
    forall|i: int|
        0 <= i < items.len() ==> #[trigger] items[i] == (Item {
            key: items[i].key,
            obj: placeholder(items[i].key),
            uses: 0,
        })
}

/// Whether the entries of `a` are the first ones of `b`, as many as `a` has room
/// for.
spec fn front_of(a: Contents, b: Contents) -> bool {
    &&& a.algorithm is Lru
    &&& b.algorithm is Lru
    &&& a.capacity <= b.capacity
    &&& a.valid()
    &&& b.valid()
    &&& plain(b.items)
    &&& a.items.len() == (if b.items.len() < a.capacity {
        b.items.len()
    } else {
        a.capacity
    })
    &&& a.items == b.items.take(a.items.len() as int)
}

spec fn asked_once(c: Contents, key: Seq<char>) -> Contents {
    if c.has(key) {
        c.touched(key)
    } else {
        c.touched(key).inserted(key, placeholder(key))
    }
}

/// Of two LRU caches the smaller one holds what the larger one holds in front.
proof fn lemma_front_step(a: Contents, b: Contents, key: Seq<char>)
    requires
        front_of(a, b),
    ensures
        front_of(asked_once(a, key), asked_once(b, key)),
        a.has(key) ==> b.has(key),
{
    let i = a.slot(key);
    let j = b.slot(key);
    lemma_slot(a.items, key, 0);
    lemma_slot(b.items, key, 0);
    law_cache_valid(a, key, placeholder(key), 1);
    law_cache_valid(b, key, placeholder(key), 1);
    let x = Item { key, obj: placeholder(key), uses: 0 };
    let n = a.items.len() as int;
    let c = asked_once(a, key);
    let d = asked_once(b, key);
    if a.has(key) {
        assert(b.items[i].key == key);
        assert forall|k: int| 0 <= k < i implies (#[trigger] b.items[k]).key != key by {
            assert(a.items[k] == b.items[k]);
        }
        lemma_slot_is(b.items, key, i);
        assert(d.items =~= seq![b.items[i]] + b.items.remove(i));
        assert(c.items =~= d.items.take(n));
        assert forall|k: int| 0 <= k < d.items.len() implies #[trigger] d.items[k] == (Item {
            key: d.items[k].key,
            obj: placeholder(d.items[k].key),
            uses: 0,
        }) by {
            let m = if k == 0 {
                i
            } else if k - 1 < i {
                k - 1
            } else {
                k
            };
            assert(d.items[k] == b.items[m]);
        }
    } else if b.has(key) {
        if j < n {
            assert(a.items[j].key == key);
        }
        assert(b.items[j] == x);
        assert(c.items =~= seq![x] + a.items.remove(n - 1));
        assert(d.items =~= seq![x] + b.items.remove(j));
        assert(c.items =~= d.items.take(n));
        assert forall|k: int| 0 <= k < d.items.len() implies #[trigger] d.items[k] == (Item {
            key: d.items[k].key,
            obj: placeholder(d.items[k].key),
            uses: 0,
        }) by {
            let m = if k == 0 {
                j
            } else if k - 1 < j {
                k - 1
            } else {
                k
            };
            assert(d.items[k] == b.items[m]);
        }
    } else {
        let rest = if b.items.len() >= b.capacity {
            b.items.remove(b.items.len() - 1)
        } else {
            b.items
        };
        let less = if a.items.len() >= a.capacity {
            a.items.remove(n - 1)
        } else {
            a.items
        };
        assert(d.items =~= seq![x] + rest);
        assert(c.items =~= seq![x] + less);
        assert(c.items =~= d.items.take(c.items.len() as int));
        assert forall|k: int| 0 <= k < d.items.len() implies #[trigger] d.items[k] == (Item {
            key: d.items[k].key,
            obj: placeholder(d.items[k].key),
            uses: 0,
        }) by {
            if k > 0 {
                assert(d.items[k] == b.items[k - 1]);
            }
        }
    }
}

proof fn lemma_tried_front(small: nat, large: nat, keys: Seq<Seq<char>>, n: int)
    requires
        small <= large,
        0 <= n <= keys.len(),
        n <= u64::MAX,
    ensures
        front_of(
            tried(CacheAlgorithmType::Lru, small, keys, n).contents,
            tried(CacheAlgorithmType::Lru, large, keys, n).contents,
        ),
        tried(CacheAlgorithmType::Lru, small, keys, n).hits <= tried(
            CacheAlgorithmType::Lru,
            large,
            keys,
            n,
        ).hits,
    decreases n,
{
    let lru = CacheAlgorithmType::Lru;
    if n == 0 {
        let a = tried(lru, small, keys, 0).contents;
        let b = tried(lru, large, keys, 0).contents;
        assert(a.items =~= b.items.take(0));
    } else {
        lemma_tried_front(small, large, keys, n - 1);
        lemma_tried_counts(lru, small, keys, n - 1);
        lemma_tried_counts(lru, large, keys, n - 1);
        let a = tried(lru, small, keys, n - 1).contents;
        let b = tried(lru, large, keys, n - 1).contents;
        lemma_front_step(a, b, keys[n - 1]);
    }
}

/// More room never hurts the policy LRU: with a larger capacity a trial has at
/// least as many hits.
pub proof fn law_lru_capacity(small: usize, large: usize, keys: Seq<Seq<char>>)
    requires
        small <= large,
        keys.len() <= u64::MAX,
    ensures
        trial(CacheAlgorithmType::Lru, small, keys).hits <= trial(
            CacheAlgorithmType::Lru,
            large,
            keys,
        ).hits,
{
    lemma_tried_front(small as nat, large as nat, keys, keys.len() as int);
}

} // verus!
