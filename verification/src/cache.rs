//! The object cache: one of the replacement policies, with statistics.
use crate::cache_model::{
    law_cache_valid, lemma_slot, lemma_usable_put, CacheAlgorithmType, CachedView, Contents,
};
use crate::policies::{
    algorithm_name, entry_view, object_view, CachedObject, FifoCache, LfuCache, LruCacheImpl,
};
use crate::rates::{exact_percent_text, percent_text, show_exact_percent, show_percent};
use vstd::hash_map::*;
use vstd::prelude::*;
use vstd::string::*;

verus! {

/// The statistics of a cache.
#[derive(Debug)]
pub struct CacheStats {
    pub hits: u64,
    pub misses: u64,
    pub evictions: u64,
    /// How many entries there are.
    pub size: usize,
    /// How many entries there is room for.
    pub capacity: usize,
    /// The name of the policy.
    pub algorithm: String,
}

impl CacheStats {
    /// How many of the accesses were hits, in percent with two decimals; 0 where there
    /// was no access.
    pub fn hit_rate(&self) -> (r: String)
        ensures
            r@ == exact_percent_text(self.hits as nat, (self.hits + self.misses) as nat),
    {
        show_exact_percent(self.hits, self.hits as u128 + self.misses as u128)
    }

    /// The hit rate with one decimal.
    pub fn rough_hit_rate(&self) -> (r: String)
        ensures
            r@ == percent_text(self.hits as nat, (self.hits + self.misses) as nat),
    {
        show_percent(self.hits, self.hits as u128 + self.misses as u128)
    }
}

impl Default for CacheStats {
    fn default() -> (r: Self)
        ensures
            r.hits == 0,
            r.misses == 0,
            r.evictions == 0,
            r.size == 0,
            r.capacity == 0,
            r.algorithm@ == Seq::<char>::empty(),
    {
        CacheStats { hits: 0, misses: 0, evictions: 0, size: 0, capacity: 0, algorithm: String::new() }
    }
}

impl Clone for CacheStats {
    fn clone(&self) -> (r: Self)
        ensures
            r == *self,
    {
        CacheStats {
            hits: self.hits,
            misses: self.misses,
            evictions: self.evictions,
            size: self.size,
            capacity: self.capacity,
            algorithm: self.algorithm.clone(),
        }
    }
}

/// How a policy did in a trial.
#[derive(Debug)]
pub struct AlgorithmBenchmark {
    /// The name of the policy.
    pub algorithm: String,
    pub hits: u64,
    pub misses: u64,
    pub evictions: u64,
    /// How many entries there were at the end.
    pub final_size: usize,
}

/// A cache of one of the policies.
pub enum InnerCache {
    Lru(LruCacheImpl),
    Fifo(FifoCache),
    Lfu(LfuCache),
}

impl View for InnerCache {
    type V = Contents;

    open spec fn view(&self) -> Contents {
        match *self {
            InnerCache::Lru(c) => c@,
            InnerCache::Fifo(c) => c@,
            InnerCache::Lfu(c) => c@,
        }
    }
}

impl InnerCache {
    pub open spec fn wf(self) -> bool {
        match self {
            InnerCache::Lru(c) => c.wf(),
            InnerCache::Fifo(c) => c.wf(),
            InnerCache::Lfu(c) => c.wf(),
        }
    }
}

/// An object cache.
pub struct ObjectCache {
    pub inner: InnerCache,
    pub hits: u64,
    pub misses: u64,
    pub evictions: u64,
    pub algorithm: CacheAlgorithmType,
    /// How often each identifier was asked for.
    pub access_counts: StringHashMap<u64>,
}

/// An [`ObjectCache`], with its contents as sequences.
pub struct CacheView {
    pub contents: Contents,
    pub hits: u64,
    pub misses: u64,
    pub evictions: u64,
    pub accesses: Map<Seq<char>, u64>,
}

impl View for ObjectCache {
    type V = CacheView;

    open spec fn view(&self) -> CacheView {
        CacheView {
            contents: self.inner@,
            hits: self.hits,
            misses: self.misses,
            evictions: self.evictions,
            accesses: self.access_counts@,
        }
    }
}

/// The counter after one more event. It starts anew behind the largest number.
pub open spec fn counted(n: u64) -> u64 {
    if n == u64::MAX {
        0
    } else {
        (n + 1) as u64
    }
}

fn count(n: u64) -> (r: u64)
    ensures
        r == counted(n),
{
    n.wrapping_add(1)
}

/// How often `key` was asked for.
pub open spec fn accesses_of(accesses: Map<Seq<char>, u64>, key: Seq<char>) -> u64 {
    if accesses.contains_key(key) {
        accesses[key]
    } else {
        0
    }
}

impl CacheView {
    /// Whether `n` more accesses can be counted.
    pub open spec fn headroom(self, n: int) -> bool {
        &&& forall|k: Seq<char>| #[trigger]
            self.accesses.contains_key(k) ==> self.accesses[k] + n <= u64::MAX
        &&& self.contents.usable_for(n)
        &&& n <= u64::MAX
    }

    /// The cache after `key` was asked for.
    pub open spec fn got(self, key: Seq<char>) -> CacheView {
        let hit = self.contents.has(key);
        CacheView {
            contents: self.contents.touched(key),
            hits: if hit {
                counted(self.hits)
            } else {
                self.hits
            },
            misses: if hit {
                self.misses
            } else {
                counted(self.misses)
            },
            accesses: self.accesses.insert(key, (accesses_of(self.accesses, key) + 1) as u64),
            ..self
        }
    }

    /// The cache after `obj` was inserted under `key`.
    pub open spec fn put(self, key: Seq<char>, obj: CachedView) -> CacheView {
        CacheView {
            contents: self.contents.inserted(key, obj),
            evictions: if self.contents.evicted_by(key) is Some {
                counted(self.evictions)
            } else {
                self.evictions
            },
            ..self
        }
    }

    /// The cache after the first `n` of `objects` were inserted, one after the
    /// other.
    pub open spec fn put_all(self, objects: Seq<(Seq<char>, CachedView)>, n: int) -> CacheView
        decreases n,
    {
        if n <= 0 {
            self
        } else {
            self.put_all(objects, n - 1).put(objects[n - 1].0, objects[n - 1].1)
        }
    }

    /// The cache with its statistics at zero.
    pub open spec fn without_stats(self) -> CacheView {
        CacheView { hits: 0, misses: 0, evictions: 0, ..self }
    }

    /// The cache without any entries.
    pub open spec fn emptied(self) -> CacheView {
        CacheView { contents: self.contents.cleared(), ..self }
    }

    /// The cache after the first `n` of `keys` were asked for, one after the
    /// other, where each one that is missing is inserted as a placeholder.
    pub open spec fn asked(self, keys: Seq<Seq<char>>, n: int) -> CacheView
        decreases n,
    {
        if n <= 0 {
            self
        } else {
            let before = self.asked(keys, n - 1);
            let key = keys[n - 1];
            if before.contents.has(key) {
                before.got(key)
            } else {
                before.got(key).put(key, placeholder(key))
            }
        }
    }
}

/// An object without data that takes the place of a real one in a trial.
pub open spec fn placeholder(key: Seq<char>) -> CachedView {
    CachedView {
        uuid: key,
        data: Seq::empty(),
        name: Seq::empty(),
        content_type: Seq::empty(),
        size: 0,
        tags: Seq::empty(),
    }
}

/// The objects with their keys, as sequences.
pub open spec fn pairs_of(objects: Seq<(String, CachedObject)>) -> Seq<(Seq<char>, CachedView)> {
    Seq::new(objects.len(), |i: int| (objects[i].0@, objects[i].1@))
}

/// The texts, as sequences.
pub open spec fn texts_of(list: Seq<String>) -> Seq<Seq<char>> {
    Seq::new(list.len(), |i: int| list[i]@)
}

/// Counting uses up headroom by one.
pub proof fn lemma_headroom(c: CacheView, n: int, key: Seq<char>, obj: CachedView)
    requires
        c.contents.valid(),
        n >= 1,
        c.headroom(n),
    ensures
        c.got(key).headroom(n - 1),
        c.put(key, obj).headroom(n - 1),
        accesses_of(c.accesses, key) < u64::MAX,
        c.contents.has(key) ==> c.contents.items[c.contents.slot(key)].uses < u64::MAX,
{
    lemma_slot(c.contents.items, key, 0);
    let i = c.contents.slot(key);
    let g = c.got(key);
    assert forall|j: int| 0 <= j < g.contents.items.len() implies (#[trigger] g.contents.items[j]).uses
        + (n - 1) <= u64::MAX by {
        if c.contents.has(key) && c.contents.algorithm == CacheAlgorithmType::Lru {
            let m = if j == 0 {
                i
            } else if j - 1 < i {
                j - 1
            } else {
                j
            };
            assert(g.contents.items[j] == c.contents.items[m]);
        } else {
            assert(c.contents.items[j].uses + n <= u64::MAX);
        }
    }
    lemma_usable_put(c.contents, n, key, obj);
}

impl ObjectCache {
    /// Whether the cache is in order.
    pub open spec fn wf(self) -> bool {
        &&& self.inner.wf()
        &&& self.inner@.algorithm == self.algorithm
    }

    /// Makes an empty cache of the policy, for `capacity` entries, but at least
    /// one.
    pub fn new(algorithm: CacheAlgorithmType, capacity: usize) -> (r: ObjectCache)
        requires
            algorithm is Lru ==> capacity <= usize::MAX / 128,
        ensures
            r.wf(),
            r.algorithm == algorithm,
            r@ == (CacheView {
                contents: Contents {
                    algorithm,
                    capacity: if capacity == 0 {
                        1
                    } else {
                        capacity as nat
                    },
                    items: Seq::empty(),
                },
                hits: 0,
                misses: 0,
                evictions: 0,
                accesses: Map::empty(),
            }),
            forall|n: int| n <= u64::MAX ==> #[trigger] r@.headroom(n),
    {
        let inner = match algorithm {
            CacheAlgorithmType::Lru => InnerCache::Lru(LruCacheImpl::new(capacity)),
            CacheAlgorithmType::Fifo => InnerCache::Fifo(FifoCache::new(capacity)),
            CacheAlgorithmType::Lfu => InnerCache::Lfu(LfuCache::new(capacity)),
        };
        ObjectCache {
            inner,
            hits: 0,
            misses: 0,
            evictions: 0,
            algorithm,
            access_counts: StringHashMap::new(),
        }
    }

    /// Asks for the object under `uuid`. The access is counted, and so is the hit
    /// or the miss.
    pub fn get(&mut self, uuid: &str) -> (r: Option<CachedObject>)
        requires
            old(self).wf(),
            accesses_of(old(self)@.accesses, uuid@) < u64::MAX,
            old(self)@.contents.has(uuid@) ==> old(self)@.contents.items[old(
                self,
            )@.contents.slot(uuid@)].uses < u64::MAX,
        ensures
            final(self).wf(),
            final(self).algorithm == old(self).algorithm,
            final(self)@ == old(self)@.got(uuid@),
            object_view(r) == old(self)@.contents.at(uuid@),
    {
        let n = match self.access_counts.get(uuid) {
            Some(n) => *n,
            None => 0,
        };
        self.access_counts.insert(uuid.to_owned(), n + 1);
        let found = match &mut self.inner {
            InnerCache::Lru(c) => c.get(uuid),
            InnerCache::Fifo(c) => c.get(uuid),
            InnerCache::Lfu(c) => c.get(uuid),
        };
        if found.is_some() {
            self.hits = count(self.hits);
        } else {
            self.misses = count(self.misses);
        }
        found
    }

    /// Inserts an object, and returns the entry that was evicted for it.
    pub fn put(&mut self, uuid: &str, obj: CachedObject) -> (r: Option<(String, CachedObject)>)
        requires
            old(self).wf(),
            old(self)@.contents.has(uuid@) ==> old(self)@.contents.items[old(
                self,
            )@.contents.slot(uuid@)].uses < u64::MAX,
        ensures
            final(self).wf(),
            final(self).algorithm == old(self).algorithm,
            final(self)@ == old(self)@.put(uuid@, obj@),
            entry_view(r) == old(self)@.contents.evicted_by(uuid@),
    {
        let evicted = match &mut self.inner {
            InnerCache::Lru(c) => c.put(uuid, obj),
            InnerCache::Fifo(c) => c.put(uuid, obj),
            InnerCache::Lfu(c) => c.put(uuid, obj),
        };
        if evicted.is_some() {
            self.evictions = count(self.evictions);
        }
        evicted
    }

    /// Removes the object under `uuid`, and returns it.
    pub fn remove(&mut self, uuid: &str) -> (r: Option<CachedObject>)
        requires
            old(self).wf(),
        ensures
            final(self).wf(),
            final(self).algorithm == old(self).algorithm,
            final(self)@ == (CacheView {
                contents: old(self)@.contents.without(uuid@),
                ..old(self)@
            }),
            object_view(r) == old(self)@.contents.at(uuid@),
    {
        match &mut self.inner {
            InnerCache::Lru(c) => c.remove(uuid),
            InnerCache::Fifo(c) => c.remove(uuid),
            InnerCache::Lfu(c) => c.remove(uuid),
        }
    }

    /// How many entries there are.
    pub fn len(&self) -> (r: usize)
        ensures
            r == self@.contents.items.len(),
    {
        match &self.inner {
            InnerCache::Lru(c) => c.len(),
            InnerCache::Fifo(c) => c.len(),
            InnerCache::Lfu(c) => c.len(),
        }
    }

    /// How many entries there is room for.
    pub fn capacity(&self) -> (r: usize)
        ensures
            r == self@.contents.capacity,
    {
        match &self.inner {
            InnerCache::Lru(c) => c.capacity(),
            InnerCache::Fifo(c) => c.capacity(),
            InnerCache::Lfu(c) => c.capacity(),
        }
    }

    /// Makes room for `new_capacity` entries, but at least one. The entries that
    /// no longer fit go by the policy; they are not counted as evictions.
    pub fn resize(&mut self, new_capacity: usize)
        requires
            old(self).wf(),
        ensures
            final(self).wf(),
            final(self).algorithm == old(self).algorithm,
            final(self)@ == (CacheView {
                contents: old(self)@.contents.resized(new_capacity as nat),
                ..old(self)@
            }),
    {
        match &mut self.inner {
            InnerCache::Lru(c) => c.resize(new_capacity),
            InnerCache::Fifo(c) => c.resize(new_capacity),
            InnerCache::Lfu(c) => c.resize(new_capacity),
        }
    }

    /// Removes all entries. The statistics stay.
    pub fn clear(&mut self)
        requires
            old(self).wf(),
        ensures
            final(self).wf(),
            final(self).algorithm == old(self).algorithm,
            final(self)@ == old(self)@.emptied(),
    {
        match &mut self.inner {
            InnerCache::Lru(c) => c.clear(),
            InnerCache::Fifo(c) => c.clear(),
            InnerCache::Lfu(c) => c.clear(),
        }
    }

    /// Inserts the objects, one after the other.
    pub fn warm_up(&mut self, objects: Vec<(String, CachedObject)>)
        requires
            old(self).wf(),
            old(self)@.contents.usable_for(objects@.len() as int),
        ensures
            final(self).wf(),
            final(self).algorithm == old(self).algorithm,
            final(self)@ == old(self)@.put_all(pairs_of(objects@), objects@.len() as int),
    {
        let ghost c = self@;
        let mut i: usize = 0;
        assert(objects@.len() == objects.len());
        while i < objects.len()
            invariant
                i <= objects@.len(),
                self.wf(),
                self.algorithm == old(self).algorithm,
                objects@.len() <= u64::MAX,
                self@.contents.usable_for(objects@.len() - i),
                self@ == c.put_all(pairs_of(objects@), i as int),
            decreases objects@.len() - i,
        {
            proof {
                lemma_usable_put(
                    self@.contents,
                    objects@.len() - i,
                    objects@[i as int].0@,
                    objects@[i as int].1@,
                );
            }
            let _ = self.put(objects[i].0.as_str(), objects[i].1.clone());
            i += 1;
        }
    }

    /// The statistics.
    pub fn stats(&self) -> (r: CacheStats)
        ensures
            r.hits == self.hits,
            r.misses == self.misses,
            r.evictions == self.evictions,
            r.size == self@.contents.items.len(),
            r.capacity == self@.contents.capacity,
            r.algorithm@ == algorithm_name(self.algorithm),
    {
        CacheStats {
            hits: self.hits,
            misses: self.misses,
            evictions: self.evictions,
            size: self.len(),
            capacity: self.capacity(),
            algorithm: self.algorithm.as_str().to_owned(),
        }
    }

    /// The policy.
    pub fn algorithm(&self) -> (r: CacheAlgorithmType)
        ensures
            r == self.algorithm,
    {
        self.algorithm
    }

    /// How often each identifier was asked for.
    pub fn get_access_frequencies(&self) -> (r: &StringHashMap<u64>)
        ensures
            r@ == self@.accesses,
    {
        &self.access_counts
    }

    /// Whether every entry can be used once more and be counted.
    pub fn is_usable(&self) -> (r: bool)
        requires
            self.wf(),
        ensures
            r == self@.contents.usable(),
    {
        self.is_usable_for(1)
    }

    /// Whether every entry can be used `n` times more and be counted.
    pub fn is_usable_for(&self, n: u64) -> (r: bool)
        requires
            self.wf(),
        ensures
            r == self@.contents.usable_for(n as int),
    {
        match &self.inner {
            InnerCache::Lru(_) => true,
            InnerCache::Fifo(_) => true,
            InnerCache::Lfu(c) => c.is_usable_for(n),
        }
    }

    /// Whether one more access to `uuid` can be counted.
    pub fn can_count(&self, uuid: &str) -> (r: bool)
        ensures
            r == (accesses_of(self@.accesses, uuid@) < u64::MAX),
    {
        match self.access_counts.get(uuid) {
            Some(n) => *n < u64::MAX,
            None => true,
        }
    }

    /// Sets the hits, misses and evictions to zero.
    pub fn reset_stats(&mut self)
        ensures
            final(self)@ == old(self)@.without_stats(),
            final(self).algorithm == old(self).algorithm,
            final(self).inner == old(self).inner,
    {
        self.hits = 0;
        self.misses = 0;
        self.evictions = 0;
    }

    /// Tries the policy: empties the cache, inserts `preloaded`, asks for the keys
    /// one after the other, and inserts a placeholder for each that is missing.
    pub fn benchmark_run(
        &mut self,
        keys: &Vec<String>,
        preloaded: &Vec<(String, CachedObject)>,
    ) -> (r: AlgorithmBenchmark)
        requires
            old(self).wf(),
            old(self)@.emptied().headroom(preloaded@.len() as int + keys@.len()),
        ensures
            final(self).wf(),
            final(self).algorithm == old(self).algorithm,
            final(self)@ == old(self)@.emptied().without_stats().put_all(
                pairs_of(preloaded@),
                preloaded@.len() as int,
            ).asked(texts_of(keys@), keys@.len() as int),
            r.algorithm@ == algorithm_name(final(self).algorithm),
            r.hits == final(self)@.hits,
            r.misses == final(self)@.misses,
            r.evictions == final(self)@.evictions,
            r.final_size == final(self)@.contents.items.len(),
    {
        self.clear();
        self.reset_stats();
        let ghost c = self@;
        let ghost more = keys@.len();
        let mut i: usize = 0;
        while i < preloaded.len()
            invariant
                i <= preloaded@.len(),
                more == keys@.len(),
                self.wf(),
                self.algorithm == old(self).algorithm,
                self@.headroom(preloaded@.len() - i + more),
                self@ == c.put_all(pairs_of(preloaded@), i as int),
            decreases preloaded@.len() - i,
        {
            proof {
                lemma_headroom(
                    self@,
                    preloaded@.len() - i + more,
                    preloaded@[i as int].0@,
                    preloaded@[i as int].1@,
                );
            }
            let _ = self.put(preloaded[i].0.as_str(), preloaded[i].1.clone());
            i += 1;
        }
        let ghost d = self@;
        let mut k: usize = 0;
        while k < keys.len()
            invariant
                k <= keys@.len(),
                self.wf(),
                self.algorithm == old(self).algorithm,
                self@.headroom(keys@.len() - k),
                self@ == d.asked(texts_of(keys@), k as int),
            decreases keys@.len() - k,
        {
            let ghost before = self@;
            let ghost key = keys@[k as int]@;
            proof {
                lemma_headroom(before, keys@.len() - k, key, placeholder(key));
                law_cache_valid(before.contents, key, placeholder(key), 1);
            }
            let found = self.get(keys[k].as_str());
            if found.is_none() {
                let empty = CachedObject {
                    uuid: keys[k].clone(),
                    data: Vec::new(),
                    name: String::new(),
                    content_type: String::new(),
                    size: 0,
                    tags: String::new(),
                };
                assert(empty@ == placeholder(key));
                let _ = self.put(keys[k].as_str(), empty);
            }
            k += 1;
        }
        let stats = self.stats();
        AlgorithmBenchmark {
            algorithm: stats.algorithm,
            hits: stats.hits,
            misses: stats.misses,
            evictions: stats.evictions,
            final_size: stats.size,
        }
    }
}

} // verus!
