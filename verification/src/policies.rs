//! The three replacement policies: FIFO, LFU and LRU.
use crate::cache_model::{
    drop_least, law_cache_valid, least_used, lemma_slot, lemma_slot_is, slot_from,
    CacheAlgorithmType, CachedView, Contents, Item,
};
use crate::text::{lowercase, same_text, to_lower};
use std::collections::VecDeque;
use vstd::hash_map::*;
use vstd::prelude::*;
use vstd::string::*;

verus! {

/// An object in the cache.
#[derive(Debug)]
pub struct CachedObject {
    pub uuid: String,
    pub data: Vec<u8>,
    pub name: String,
    pub content_type: String,
    /// Length of the data in bytes.
    pub size: u64,
    pub tags: String,
}

impl View for CachedObject {
    type V = CachedView;

    open spec fn view(&self) -> CachedView {
        CachedView {
            uuid: self.uuid@,
            data: self.data@,
            name: self.name@,
            content_type: self.content_type@,
            size: self.size,
            tags: self.tags@,
        }
    }
}

impl Clone for CachedObject {
    fn clone(&self) -> (r: Self)
        ensures
            r@ == self@,
    {
        let data = self.data.clone();
        assert(data@ =~= self.data@);
        CachedObject {
            uuid: self.uuid.clone(),
            data,
            name: self.name.clone(),
            content_type: self.content_type.clone(),
            size: self.size,
            tags: self.tags.clone(),
        }
    }
}

/// The policy that a name in lower case denotes. LRU is the default.
pub open spec fn algorithm_named(lower: Seq<char>) -> CacheAlgorithmType {
    if lower == "fifo"@ {
        CacheAlgorithmType::Fifo
    } else if lower == "lfu"@ {
        CacheAlgorithmType::Lfu
    } else {
        CacheAlgorithmType::Lru
    }
}

/// The name of a policy.
pub open spec fn algorithm_name(a: CacheAlgorithmType) -> Seq<char> {
    match a {
        CacheAlgorithmType::Lru => "LRU"@,
        CacheAlgorithmType::Fifo => "FIFO"@,
        CacheAlgorithmType::Lfu => "LFU"@,
    }
}

impl CacheAlgorithmType {
    /// The policy of that name, in upper or lower case; LRU for any other text.
    pub fn from_str(s: &str) -> (r: CacheAlgorithmType)
        ensures
            r == algorithm_named(lowercase(s@)),
    {
        let lower = to_lower(s);
        CacheAlgorithmType::from_lower(lower.as_str())
    }

    /// The policy of that name, which is in lower case; LRU for any other text.
    pub fn from_lower(lower: &str) -> (r: CacheAlgorithmType)
        ensures
            r == algorithm_named(lower@),
    {
        if same_text(lower, "fifo") {
            CacheAlgorithmType::Fifo
        } else if same_text(lower, "lfu") {
            CacheAlgorithmType::Lfu
        } else {
            CacheAlgorithmType::Lru
        }
    }

    /// The name of the policy.
    pub fn as_str(&self) -> (r: &'static str)
        ensures
            r@ == algorithm_name(*self),
    {
        match self {
            CacheAlgorithmType::Lru => "LRU",
            CacheAlgorithmType::Fifo => "FIFO",
            CacheAlgorithmType::Lfu => "LFU",
        }
    }

    /// All policies.
    pub fn all() -> (r: Vec<CacheAlgorithmType>)
        ensures
            r@ == seq![CacheAlgorithmType::Lru, CacheAlgorithmType::Fifo, CacheAlgorithmType::Lfu],
    {
        let mut r: Vec<CacheAlgorithmType> = Vec::new();
        r.push(CacheAlgorithmType::Lru);
        r.push(CacheAlgorithmType::Fifo);
        r.push(CacheAlgorithmType::Lfu);
        assert(r@ =~= seq![
            CacheAlgorithmType::Lru,
            CacheAlgorithmType::Fifo,
            CacheAlgorithmType::Lfu,
        ]);
        r
    }
}

/// An evicted entry, as sequences.
pub open spec fn entry_view(e: Option<(String, CachedObject)>) -> Option<(Seq<char>, CachedView)> {
    match e {
        Some((k, v)) => Some((k@, v@)),
        None => None,
    }
}

/// A cached object, as sequences.
pub open spec fn object_view(o: Option<CachedObject>) -> Option<CachedView> {
    match o {
        Some(v) => Some(v@),
        None => None,
    }
}

/// At least one.
fn at_least_one(n: usize) -> (r: usize)
    ensures
        r == (if n == 0 {
            1
        } else {
            n
        }),
{
    if n == 0 {
        1
    } else {
        n
    }
}

/// A cache of the policy FIFO: the keys in the order of their insertion, and the
/// objects by key.
pub struct FifoCache {
    pub capacity: usize,
    pub order: VecDeque<String>,
    pub map: StringHashMap<CachedObject>,
}

impl View for FifoCache {
    type V = Contents;

    open spec fn view(&self) -> Contents {
        Contents {
            algorithm: CacheAlgorithmType::Fifo,
            capacity: self.capacity as nat,
            items: Seq::new(
                self.order@.len(),
                |i: int|
                    Item { key: self.order@[i]@, obj: self.map@[self.order@[i]@]@, uses: 0 },
            ),
        }
    }
}

impl FifoCache {
    /// Whether the keys of the order and of the objects are the same, each once.
    pub open spec fn wf(self) -> bool {
        &&& self@.valid()
        &&& forall|i: int|
            0 <= i < self.order@.len() ==> self.map@.contains_key(#[trigger] self.order@[i]@)
        &&& forall|k: Seq<char>| #[trigger]
            self.map@.contains_key(k) ==> exists|i: int|
                0 <= i < self.order@.len() && #[trigger] self.order@[i]@ == k
    }

    /// Makes an empty cache for `capacity` entries, but at least one.
    pub fn new(capacity: usize) -> (r: FifoCache)
        ensures
            r.wf(),
            r@ == (Contents {
                algorithm: CacheAlgorithmType::Fifo,
                capacity: if capacity == 0 {
                    1
                } else {
                    capacity as nat
                },
                items: Seq::empty(),
            }),
    {
        let r = FifoCache {
            capacity: at_least_one(capacity),
            order: VecDeque::new(),
            map: StringHashMap::new(),
        };
        assert(r@.items =~= Seq::empty());
        r
    }

    /// The place of `key` in the order; the order's length where it is not there.
    fn place(&self, key: &str) -> (r: usize)
        ensures
            r == self@.slot(key@),
            r <= self.order@.len(),
    {
        let mut i: usize = 0;
        while i < self.order.len()
            invariant
                i <= self.order@.len(),
                forall|j: int| 0 <= j < i ==> (#[trigger] self@.items[j]).key != key@,
            decreases self.order@.len() - i,
        {
            assert(self@.items[i as int].key == self.order@[i as int]@);
            if same_text(self.order[i].as_str(), key) {
                proof {
                    lemma_slot_is(self@.items, key@, i as int);
                }
                return i;
            }
            i += 1;
        }
        proof {
            lemma_slot_is(self@.items, key@, i as int);
        }
        i
    }

    proof fn lemma_has(self, key: Seq<char>)
        requires
            self.wf(),
        ensures
            self@.has(key) == self.map@.contains_key(key),
            self@.has(key) ==> self@.at(key) == Some(self.map@[key]@),
    {
        lemma_slot(self@.items, key, 0);
        if self.map@.contains_key(key) {
            let i = choose|i: int| 0 <= i < self.order@.len() && #[trigger] self.order@[i]@ == key;
            assert(self@.items[i].key == key);
        }
        if self@.has(key) {
            assert(self.order@[self@.slot(key)]@ == key);
        }
    }

    /// The object under `key`. The order does not change.
    pub fn get(&mut self, key: &str) -> (r: Option<CachedObject>)
        requires
            old(self).wf(),
        ensures
            final(self).wf(),
            final(self)@ == old(self)@.touched(key@),
            object_view(r) == old(self)@.at(key@),
    {
        proof {
            self.lemma_has(key@);
        }
        match self.map.get(key) {
            Some(v) => Some(v.clone()),
            None => None,
        }
    }

    /// Inserts an object, and returns the entry that was evicted for it.
    pub fn put(&mut self, key: &str, value: CachedObject) -> (r: Option<(String, CachedObject)>)
        requires
            old(self).wf(),
        ensures
            final(self).wf(),
            final(self)@ == old(self)@.inserted(key@, value@),
            entry_view(r) == old(self)@.evicted_by(key@),
    {
        let ghost c = self@;
        proof {
            self.lemma_has(key@);
            law_cache_valid(c, key@, value@, 1);
            lemma_slot(c.items, key@, 0);
        }
        let mut evicted: Option<(String, CachedObject)> = None;
        if self.map.contains_key(key) {
            let i = self.place(key);
            let _ = self.order.remove(i);
        } else if self.order.len() >= self.capacity {
            if let Some(old_key) = self.order.pop_front() {
                assert(c.items[0].key == old_key@);
                if let Some(old_val) = self.map.get(old_key.as_str()) {
                    let old_val = old_val.clone();
                    self.map.remove(old_key.as_str());
                    evicted = Some((old_key, old_val));
                }
            }
        }
        self.order.push_back(key.to_owned());
        self.map.insert(key.to_owned(), value);
        proof {
            let t = c.inserted(key@, value@);
            assert(self@.items =~= t.items) by {
                assert forall|i: int| 0 <= i < t.items.len() implies self@.items[i] == t.items[i] by {
                    assert(self@.items[i].key == t.items[i].key);
                    if i < t.items.len() - 1 {
                        assert(t.items[i].key != t.items[t.items.len() - 1].key);
                        if c.has(key@) {
                            let j = if i < c.slot(key@) {
                                i
                            } else {
                                i + 1
                            };
                            assert(t.items[i] == c.items[j]);
                        } else if c.items.len() >= c.capacity {
                            assert(t.items[i] == c.items[i + 1]);
                            assert(c.items[0].key != c.items[i + 1].key);
                        } else {
                            assert(t.items[i] == c.items[i]);
                        }
                    }
                }
            }
            assert forall|i: int| 0 <= i < self.order@.len() implies self.map@.contains_key(
                #[trigger] self.order@[i]@,
            ) by {
                assert(self@.items[i] == t.items[i]);
                if i < t.items.len() - 1 {
                    if c.has(key@) {
                        let j = if i < c.slot(key@) {
                            i
                        } else {
                            i + 1
                        };
                        assert(t.items[i] == c.items[j]);
                        assert(old(self).order@[j]@ == self.order@[i]@);
                    } else if c.items.len() >= c.capacity {
                        assert(t.items[i] == c.items[i + 1]);
                        assert(old(self).order@[i + 1]@ == self.order@[i]@);
                        assert(c.items[0].key != c.items[i + 1].key);
                    } else {
                        assert(old(self).order@[i]@ == self.order@[i]@);
                    }
                }
            }
            assert forall|k: Seq<char>| #[trigger] self.map@.contains_key(k) implies exists|i: int|
                0 <= i < self.order@.len() && #[trigger] self.order@[i]@ == k by {
                if k == key@ {
                    assert(self.order@[self.order@.len() - 1]@ == k);
                } else {
                    assert(old(self).map@.contains_key(k));
                    let j = choose|j: int|
                        0 <= j < old(self).order@.len() && #[trigger] old(self).order@[j]@ == k;
                    assert(c.items[j].key == k);
                    if c.has(key@) {
                        let i = if j < c.slot(key@) {
                            j
                        } else {
                            j - 1
                        };
                        assert(self.order@[i]@ == k);
                    } else if c.items.len() >= c.capacity {
                        assert(self.order@[j - 1]@ == k);
                    } else {
                        assert(self.order@[j]@ == k);
                    }
                }
            }
        }
        evicted
    }

    /// Takes the entry at `i` out, and returns it.
    fn take_at(&mut self, i: usize) -> (r: Option<(String, CachedObject)>)
        requires
            old(self).wf(),
            i < old(self).order@.len(),
        ensures
            final(self).wf(),
            final(self)@ == (Contents {
                items: old(self)@.items.remove(i as int),
                ..old(self)@
            }),
            entry_view(r) == Some((old(self)@.items[i as int].key, old(self)@.items[i as int].obj)),
    {
        let ghost c = self@;
        let mut r: Option<(String, CachedObject)> = None;
        if let Some(key) = self.order.remove(i) {
            assert(c.items[i as int].key == key@);
            assert(old(self).map@.contains_key(old(self).order@[i as int]@));
            if let Some(v) = self.map.get(key.as_str()) {
                let v = v.clone();
                self.map.remove(key.as_str());
                r = Some((key, v));
            }
        }
        proof {
            let items = c.items.remove(i as int);
            let gone = c.items[i as int].key;
            assert forall|j: int| 0 <= j < self.order@.len() implies self.map@.contains_key(
                #[trigger] self.order@[j]@,
            ) && self@.items[j] == items[j] by {
                let m = if j < i {
                    j
                } else {
                    j + 1
                };
                assert(old(self).order@[m]@ == self.order@[j]@);
                assert(c.items[m].key != gone);
            }
            assert(self@.items =~= items);
            assert forall|k: Seq<char>| #[trigger] self.map@.contains_key(k) implies exists|j: int|
                0 <= j < self.order@.len() && #[trigger] self.order@[j]@ == k by {
                assert(old(self).map@.contains_key(k));
                let m = choose|m: int|
                    0 <= m < old(self).order@.len() && #[trigger] old(self).order@[m]@ == k;
                let j = if m < i {
                    m
                } else {
                    m - 1
                };
                assert(self.order@[j]@ == k);
            }
        }
        r
    }

    /// Removes the object under `key`, and returns it.
    pub fn remove(&mut self, key: &str) -> (r: Option<CachedObject>)
        requires
            old(self).wf(),
        ensures
            final(self).wf(),
            final(self)@ == old(self)@.without(key@),
            object_view(r) == old(self)@.at(key@),
    {
        let i = self.place(key);
        if i < self.order.len() {
            match self.take_at(i) {
                Some((_, v)) => Some(v),
                None => None,
            }
        } else {
            None
        }
    }

    /// Whether there is an object under `key`.
    pub fn contains(&self, key: &str) -> (r: bool)
        requires
            self.wf(),
        ensures
            r == self@.has(key@),
    {
        proof {
            self.lemma_has(key@);
        }
        self.map.contains_key(key)
    }

    /// How many entries there are.
    pub fn len(&self) -> (r: usize)
        ensures
            r == self@.items.len(),
    {
        self.order.len()
    }

    /// How many entries there is room for.
    pub fn capacity(&self) -> (r: usize)
        ensures
            r == self@.capacity,
    {
        self.capacity
    }

    /// Makes room for `new_cap` entries, but at least one. The oldest ones go
    /// that no longer fit.
    pub fn resize(&mut self, new_cap: usize)
        requires
            old(self).wf(),
        ensures
            final(self).wf(),
            final(self)@ == old(self)@.resized(new_cap as nat),
    {
        let ghost c = self@;
        let room = at_least_one(new_cap);
        assert(c.items.skip(0) =~= c.items);
        while self.order.len() > room
            invariant
                self.wf(),
                room >= 1,
                self@.capacity == c.capacity,
                self@.items.len() <= c.items.len(),
                self@.items == c.items.skip(c.items.len() - self@.items.len()),
                c.items.len() > room ==> self@.items.len() >= room,
                c.items.len() <= room ==> self@.items.len() == c.items.len(),
            decreases self.order@.len(),
        {
            let ghost before = self@.items;
            let _ = self.take_at(0);
            assert(self@.items =~= c.items.skip(c.items.len() - self@.items.len()));
        }
        self.capacity = room;
        assert(self@.items =~= c.resized(new_cap as nat).items);
    }

    /// Removes all entries.
    pub fn clear(&mut self)
        requires
            old(self).wf(),
        ensures
            final(self).wf(),
            final(self)@ == old(self)@.cleared(),
    {
        self.order.clear();
        self.map.clear();
        assert(self@.items =~= Seq::empty());
    }
}

/// A cache of the policy LFU: the keys in the order of their insertion, and by
/// key how often it was used and the object.
pub struct LfuCache {
    pub capacity: usize,
    pub order: Vec<String>,
    pub freq: StringHashMap<u64>,
    pub map: StringHashMap<CachedObject>,
}

impl View for LfuCache {
    type V = Contents;

    open spec fn view(&self) -> Contents {
        Contents {
            algorithm: CacheAlgorithmType::Lfu,
            capacity: self.capacity as nat,
            items: Seq::new(
                self.order@.len(),
                |i: int|
                    Item {
                        key: self.order@[i]@,
                        obj: self.map@[self.order@[i]@]@,
                        uses: self.freq@[self.order@[i]@] as nat,
                    },
            ),
        }
    }
}

impl LfuCache {
    /// Whether the keys of the order, of the frequencies and of the objects are
    /// the same, each once.
    pub open spec fn wf(self) -> bool {
        &&& self@.valid()
        &&& forall|i: int|
            0 <= i < self.order@.len() ==> self.map@.contains_key(#[trigger] self.order@[i]@)
                && self.freq@.contains_key(self.order@[i]@)
        &&& forall|k: Seq<char>| #[trigger]
            self.map@.contains_key(k) ==> exists|i: int|
                0 <= i < self.order@.len() && #[trigger] self.order@[i]@ == k
    }

    /// Makes an empty cache for `capacity` entries, but at least one.
    pub fn new(capacity: usize) -> (r: LfuCache)
        ensures
            r.wf(),
            r@ == (Contents {
                algorithm: CacheAlgorithmType::Lfu,
                capacity: if capacity == 0 {
                    1
                } else {
                    capacity as nat
                },
                items: Seq::empty(),
            }),
    {
        let r = LfuCache {
            capacity: at_least_one(capacity),
            order: Vec::new(),
            freq: StringHashMap::new(),
            map: StringHashMap::new(),
        };
        assert(r@.items =~= Seq::empty());
        r
    }

    proof fn lemma_has(self, key: Seq<char>)
        requires
            self.wf(),
        ensures
            self@.has(key) == self.map@.contains_key(key),
            self@.has(key) ==> self@.at(key) == Some(self.map@[key]@) && self.freq@.contains_key(key)
                && self@.items[self@.slot(key)].uses == self.freq@[key],
    {
        lemma_slot(self@.items, key, 0);
        if self.map@.contains_key(key) {
            let i = choose|i: int| 0 <= i < self.order@.len() && #[trigger] self.order@[i]@ == key;
            assert(self@.items[i].key == key);
        }
        if self@.has(key) {
            assert(self.order@[self@.slot(key)]@ == key);
        }
    }

    /// The place of `key` in the order; the order's length where it is not there.
    fn place(&self, key: &str) -> (r: usize)
        ensures
            r == self@.slot(key@),
            r <= self.order@.len(),
    {
        let mut i: usize = 0;
        while i < self.order.len()
            invariant
                i <= self.order@.len(),
                forall|j: int| 0 <= j < i ==> (#[trigger] self@.items[j]).key != key@,
            decreases self.order@.len() - i,
        {
            assert(self@.items[i as int].key == self.order@[i as int]@);
            if same_text(self.order[i].as_str(), key) {
                proof {
                    lemma_slot_is(self@.items, key@, i as int);
                }
                return i;
            }
            i += 1;
        }
        proof {
            lemma_slot_is(self@.items, key@, i as int);
        }
        i
    }

    /// Counts one more use of `key`, which is there.
    fn bump(&mut self, key: &str)
        requires
            old(self).wf(),
            old(self)@.has(key@),
            old(self)@.items[old(self)@.slot(key@)].uses < u64::MAX,
        ensures
            final(self).wf(),
            final(self)@ == old(self)@.touched(key@),
            final(self).map@ == old(self).map@,
            final(self).order@ == old(self).order@,
    {
        let ghost c = self@;
        proof {
            self.lemma_has(key@);
            lemma_slot(c.items, key@, 0);
            law_cache_valid(c, key@, c.items[0].obj, 1);
        }
        let n = match self.freq.get(key) {
            Some(n) => *n,
            None => 0,
        };
        self.freq.insert(key.to_owned(), n + 1);
        proof {
            let t = c.touched(key@);
            assert forall|i: int| 0 <= i < t.items.len() implies self@.items[i] == t.items[i] by {
                if i != c.slot(key@) {
                    assert(c.items[i].key != c.items[c.slot(key@)].key);
                }
            }
            assert(self@.items =~= t.items);
        }
    }

    /// The object under `key`. The access is counted.
    pub fn get(&mut self, key: &str) -> (r: Option<CachedObject>)
        requires
            old(self).wf(),
            old(self)@.has(key@) ==> old(self)@.items[old(self)@.slot(key@)].uses < u64::MAX,
        ensures
            final(self).wf(),
            final(self)@ == old(self)@.touched(key@),
            object_view(r) == old(self)@.at(key@),
    {
        proof {
            self.lemma_has(key@);
        }
        if !self.map.contains_key(key) {
            return None;
        }
        self.bump(key);
        match self.map.get(key) {
            Some(v) => Some(v.clone()),
            None => None,
        }
    }

    /// Whether every entry can be used `n` times more and be counted.
    pub fn is_usable_for(&self, n: u64) -> (r: bool)
        requires
            self.wf(),
        ensures
            r == self@.usable_for(n as int),
    {
        let mut i: usize = 0;
        while i < self.order.len()
            invariant
                self.wf(),
                i <= self.order@.len(),
                forall|j: int| 0 <= j < i ==> (#[trigger] self@.items[j]).uses + n <= u64::MAX,
            decreases self.order@.len() - i,
        {
            assert(self.freq@.contains_key(self.order@[i as int]@));
            if let Some(uses) = self.freq.get(self.order[i].as_str()) {
                if *uses > u64::MAX - n {
                    assert(self@.items[i as int].uses + n > u64::MAX);
                    return false;
                }
            }
            i += 1;
        }
        true
    }

    /// The place of the entry that was used least; of several, the first.
    fn least(&self) -> (r: usize)
        requires
            self.wf(),
            self.order@.len() > 0,
        ensures
            r == least_used(self@.items, self@.items.len() as int),
            r < self.order@.len(),
    {
        let mut best: usize = 0;
        let mut best_uses: u64 = 0;
        if let Some(n) = self.freq.get(self.order[0].as_str()) {
            best_uses = *n;
        }
        assert(self.freq@.contains_key(self.order@[0]@));
        let mut i: usize = 1;
        while i < self.order.len()
            invariant
                self.wf(),
                1 <= i <= self.order@.len(),
                best < i,
                best == least_used(self@.items, i as int),
                best_uses == self@.items[best as int].uses,
            decreases self.order@.len() - i,
        {
            assert(self.freq@.contains_key(self.order@[i as int]@));
            if let Some(n) = self.freq.get(self.order[i].as_str()) {
                if *n < best_uses {
                    best = i;
                    best_uses = *n;
                }
            }
            i += 1;
        }
        best
    }

    /// Takes the entry at `i` out, and returns it.
    fn take_at(&mut self, i: usize) -> (r: Option<(String, CachedObject)>)
        requires
            old(self).wf(),
            i < old(self).order@.len(),
        ensures
            final(self).wf(),
            final(self)@ == (Contents {
                items: old(self)@.items.remove(i as int),
                ..old(self)@
            }),
            entry_view(r) == Some((old(self)@.items[i as int].key, old(self)@.items[i as int].obj)),
    {
        let ghost c = self@;
        let mut r: Option<(String, CachedObject)> = None;
        assert(self.map@.contains_key(self.order@[i as int]@));
        let key = self.order.remove(i);
        assert(c.items[i as int].key == key@);
        if let Some(v) = self.map.get(key.as_str()) {
            let v = v.clone();
            self.map.remove(key.as_str());
            self.freq.remove(key.as_str());
            r = Some((key, v));
        }
        proof {
            let items = c.items.remove(i as int);
            let gone = c.items[i as int].key;
            assert forall|j: int| 0 <= j < self.order@.len() implies self.map@.contains_key(
                #[trigger] self.order@[j]@,
            ) && self.freq@.contains_key(self.order@[j]@) && self@.items[j] == items[j] by {
                let m = if j < i {
                    j
                } else {
                    j + 1
                };
                assert(old(self).order@[m]@ == self.order@[j]@);
                assert(c.items[m].key != gone);
            }
            assert(self@.items =~= items);
            assert forall|k: Seq<char>| #[trigger] self.map@.contains_key(k) implies exists|j: int|
                0 <= j < self.order@.len() && #[trigger] self.order@[j]@ == k by {
                assert(old(self).map@.contains_key(k));
                let m = choose|m: int|
                    0 <= m < old(self).order@.len() && #[trigger] old(self).order@[m]@ == k;
                let j = if m < i {
                    m
                } else {
                    m - 1
                };
                assert(self.order@[j]@ == k);
            }
        }
        r
    }

    /// Inserts an object, and returns the entry that was evicted for it.
    pub fn put(&mut self, key: &str, value: CachedObject) -> (r: Option<(String, CachedObject)>)
        requires
            old(self).wf(),
            old(self)@.has(key@) ==> old(self)@.items[old(self)@.slot(key@)].uses < u64::MAX,
        ensures
            final(self).wf(),
            final(self)@ == old(self)@.inserted(key@, value@),
            entry_view(r) == old(self)@.evicted_by(key@),
    {
        let ghost c = self@;
        proof {
            self.lemma_has(key@);
            law_cache_valid(c, key@, value@, 1);
            lemma_slot(c.items, key@, 0);
        }
        if self.map.contains_key(key) {
            self.bump(key);
            let ghost b = *self;
            self.map.insert(key.to_owned(), value);
            proof {
                let t = c.inserted(key@, value@);
                assert forall|i: int| 0 <= i < t.items.len() implies self@.items[i] == t.items[i] by {
                    assert(b@.items[i].key == b.order@[i]@);
                    if i != c.slot(key@) {
                        assert(c.items[i].key != c.items[c.slot(key@)].key);
                    }
                }
                assert(self@.items =~= t.items);
                assert forall|k: Seq<char>| #[trigger] self.map@.contains_key(k) implies exists|i: int|
                    0 <= i < self.order@.len() && #[trigger] self.order@[i]@ == k by {
                    assert(b.map@.contains_key(k));
                }
            }
            return None;
        }
        let mut evicted: Option<(String, CachedObject)> = None;
        if self.order.len() >= self.capacity {
            let victim = self.least();
            evicted = self.take_at(victim);
        }
        let ghost b = *self;
        proof {
            b.lemma_has(key@);
            lemma_slot(b@.items, key@, 0);
            assert(!b@.has(key@)) by {
                if b@.has(key@) {
                    let x = b@.items[b@.slot(key@)];
                    if c.items.len() >= c.capacity {
                        let v = c.victim();
                        let m = if b@.slot(key@) < v {
                            b@.slot(key@)
                        } else {
                            b@.slot(key@) + 1
                        };
                        assert(c.items[m] == x);
                    }
                }
            }
        }
        self.order.push(key.to_owned());
        self.freq.insert(key.to_owned(), 1);
        self.map.insert(key.to_owned(), value);
        proof {
            let t = c.inserted(key@, value@);
            assert forall|i: int| 0 <= i < t.items.len() implies self@.items[i] == t.items[i] by {
                if i < b@.items.len() {
                    assert(b@.items[i].key != key@);
                    assert(self.order@[i] == b.order@[i]);
                }
            }
            assert(self@.items =~= t.items);
            assert forall|i: int| 0 <= i < self.order@.len() implies self.map@.contains_key(
                #[trigger] self.order@[i]@,
            ) && self.freq@.contains_key(self.order@[i]@) by {
                if i < b.order@.len() {
                    assert(b.map@.contains_key(b.order@[i]@));
                }
            }
            assert forall|k: Seq<char>| #[trigger] self.map@.contains_key(k) implies exists|i: int|
                0 <= i < self.order@.len() && #[trigger] self.order@[i]@ == k by {
                if k == key@ {
                    assert(self.order@[self.order@.len() - 1]@ == k);
                } else {
                    assert(b.map@.contains_key(k));
                    let j = choose|j: int| 0 <= j < b.order@.len() && #[trigger] b.order@[j]@ == k;
                    assert(self.order@[j]@ == k);
                }
            }
        }
        evicted
    }

    /// Removes the object under `key`, and returns it.
    pub fn remove(&mut self, key: &str) -> (r: Option<CachedObject>)
        requires
            old(self).wf(),
        ensures
            final(self).wf(),
            final(self)@ == old(self)@.without(key@),
            object_view(r) == old(self)@.at(key@),
    {
        let i = self.place(key);
        if i < self.order.len() {
            match self.take_at(i) {
                Some((_, v)) => Some(v),
                None => None,
            }
        } else {
            None
        }
    }

    /// Whether there is an object under `key`.
    pub fn contains(&self, key: &str) -> (r: bool)
        requires
            self.wf(),
        ensures
            r == self@.has(key@),
    {
        proof {
            self.lemma_has(key@);
        }
        self.map.contains_key(key)
    }

    /// How many entries there are.
    pub fn len(&self) -> (r: usize)
        ensures
            r == self@.items.len(),
    {
        self.order.len()
    }

    /// How many entries there is room for.
    pub fn capacity(&self) -> (r: usize)
        ensures
            r == self@.capacity,
    {
        self.capacity
    }

    /// Makes room for `new_cap` entries, but at least one. The least used ones go
    /// that no longer fit.
    pub fn resize(&mut self, new_cap: usize)
        requires
            old(self).wf(),
        ensures
            final(self).wf(),
            final(self)@ == old(self)@.resized(new_cap as nat),
    {
        let ghost c = self@;
        let room = at_least_one(new_cap);
        let ghost target = c.resized(new_cap as nat).items;
        while self.order.len() > room
            invariant
                self.wf(),
                room >= 1,
                self@.capacity == c.capacity,
                self@.items.len() > room ==> target == drop_least(
                    self@.items,
                    (self@.items.len() - room) as nat,
                ),
                self@.items.len() <= room ==> target == self@.items,
            decreases self.order@.len(),
        {
            let victim = self.least();
            proof {
                reveal_with_fuel(drop_least, 2);
            }
            let _ = self.take_at(victim);
        }
        self.capacity = room;
        assert(self@.items =~= target);
    }

    /// Removes all entries.
    pub fn clear(&mut self)
        requires
            old(self).wf(),
        ensures
            final(self).wf(),
            final(self)@ == old(self)@.cleared(),
    {
        self.order.clear();
        self.freq.clear();
        self.map.clear();
        assert(self@.items =~= Seq::empty());
    }
}

/// The `lru` crate's cache.
#[verifier::external_type_specification]
#[verifier::external_body]
#[verifier::reject_recursive_types(K)]
#[verifier::reject_recursive_types(V)]
#[verifier::reject_recursive_types(S)]
pub struct ExLruCache<K, V, S>(lru::LruCache<K, V, S>);

/// The hasher of the `lru` crate's caches.
#[verifier::external_type_specification]
#[verifier::external_body]
pub struct ExDefaultHasher(lru::DefaultHasher);

/// The entries of a cache of the `lru` crate, in the order of their last access,
/// latest first.
pub uninterp spec fn lru_entries(cache: lru::LruCache<String, CachedObject>) -> Seq<
    (Seq<char>, CachedObject),
>;

/// How many entries a cache of the `lru` crate has room for.
pub uninterp spec fn lru_capacity(cache: lru::LruCache<String, CachedObject>) -> nat;

/// The first index from `i` on at which `key` stands; the length of `entries`
/// where there is none.
pub open spec fn entry_slot(entries: Seq<(Seq<char>, CachedObject)>, key: Seq<char>, i: int) -> int
    decreases entries.len() - i,
{
    if i >= entries.len() {
        entries.len() as int
    } else if entries[i].0 == key {
        i
    } else {
        entry_slot(entries, key, i + 1)
    }
}

/// Calls `lru::LruCache::new`. Claimed: the cache is empty and has the capacity.
/// The crate allocates room for all entries at once, and a capacity that the
/// address space cannot hold makes it panic: the bound rules that out.
#[verifier::external_body]
fn lru_new(capacity: usize) -> (r: lru::LruCache<String, CachedObject>)
    requires
        1 <= capacity <= usize::MAX / 128,
    ensures
        lru_entries(r) == Seq::<(Seq<char>, CachedObject)>::empty(),
        lru_capacity(r) == capacity,
{
    lru::LruCache::new(std::num::NonZeroUsize::new(capacity).unwrap())
}

/// Calls `lru::LruCache::get`. Claimed: it returns the value under the key, and
/// moves its entry to the front.
#[verifier::external_body]
fn lru_get<'a>(cache: &'a mut lru::LruCache<String, CachedObject>, key: &str) -> (r: Option<
    &'a CachedObject,
>)
    ensures
        lru_capacity(*final(cache)) == lru_capacity(*old(cache)),
        ({
            let e = lru_entries(*old(cache));
            let i = entry_slot(e, key@, 0);
            if i < e.len() {
                &&& r == Some(&e[i].1)
                &&& lru_entries(*final(cache)) == seq![e[i]] + e.remove(i)
            } else {
                &&& r is None
                &&& lru_entries(*final(cache)) == e
            }
        }),
{
    cache.get(key)
}

/// Calls `lru::LruCache::push`. Claimed: the new entry stands at the front. Where
/// the key was there, its old value is returned with the key; else, where the
/// cache was full, the last entry gives way and is returned.
#[verifier::external_body]
fn lru_push(
    cache: &mut lru::LruCache<String, CachedObject>,
    key: String,
    value: CachedObject,
) -> (r: Option<(String, CachedObject)>)
    ensures
        lru_capacity(*final(cache)) == lru_capacity(*old(cache)),
        ({
            let e = lru_entries(*old(cache));
            let i = entry_slot(e, key@, 0);
            if i < e.len() {
                &&& r matches Some((k, v)) && k@ == key@ && v == e[i].1
                &&& lru_entries(*final(cache)) == seq![(key@, value)] + e.remove(i)
            } else if e.len() == lru_capacity(*old(cache)) {
                &&& r matches Some((k, v)) && k@ == e.last().0 && v == e.last().1
                &&& lru_entries(*final(cache)) == seq![(key@, value)] + e.drop_last()
            } else {
                &&& r is None
                &&& lru_entries(*final(cache)) == seq![(key@, value)] + e
            }
        }),
{
    cache.push(key, value)
}

/// Calls `lru::LruCache::pop`. Claimed: it takes the entry of the key out, and
/// returns its value.
#[verifier::external_body]
fn lru_pop(cache: &mut lru::LruCache<String, CachedObject>, key: &str) -> (r: Option<CachedObject>)
    ensures
        lru_capacity(*final(cache)) == lru_capacity(*old(cache)),
        ({
            let e = lru_entries(*old(cache));
            let i = entry_slot(e, key@, 0);
            if i < e.len() {
                &&& r == Some(e[i].1)
                &&& lru_entries(*final(cache)) == e.remove(i)
            } else {
                &&& r is None
                &&& lru_entries(*final(cache)) == e
            }
        }),
{
    cache.pop(key)
}

/// Calls `lru::LruCache::contains`. Claimed: it says whether the key is there.
#[verifier::external_body]
fn lru_contains(cache: &lru::LruCache<String, CachedObject>, key: &str) -> (r: bool)
    ensures
        r == (entry_slot(lru_entries(*cache), key@, 0) < lru_entries(*cache).len()),
{
    cache.contains(key)
}

/// Calls `lru::LruCache::len`. Claimed: it is the number of entries.
#[verifier::external_body]
fn lru_len(cache: &lru::LruCache<String, CachedObject>) -> (r: usize)
    ensures
        r == lru_entries(*cache).len(),
{
    cache.len()
}

/// Calls `lru::LruCache::cap`. Claimed: it is the capacity.
#[verifier::external_body]
fn lru_cap(cache: &lru::LruCache<String, CachedObject>) -> (r: usize)
    ensures
        r == lru_capacity(*cache),
{
    cache.cap().get()
}

/// Calls `lru::LruCache::resize`. Claimed: the capacity is the new one. Where it
/// differs from the old one, the last entries go that do not fit.
#[verifier::external_body]
fn lru_resize(cache: &mut lru::LruCache<String, CachedObject>, capacity: usize)
    requires
        capacity >= 1,
    ensures
        lru_capacity(*final(cache)) == capacity,
        lru_entries(*final(cache)) == (if capacity != lru_capacity(*old(cache)) && capacity
            < lru_entries(*old(cache)).len() {
            lru_entries(*old(cache)).take(capacity as int)
        } else {
            lru_entries(*old(cache))
        }),
{
    cache.resize(std::num::NonZeroUsize::new(capacity).unwrap())
}

/// Calls `lru::LruCache::clear`. Claimed: no entry is left.
#[verifier::external_body]
fn lru_clear(cache: &mut lru::LruCache<String, CachedObject>)
    ensures
        lru_capacity(*final(cache)) == lru_capacity(*old(cache)),
        lru_entries(*final(cache)) == Seq::<(Seq<char>, CachedObject)>::empty(),
{
    cache.clear()
}

/// A cache of the policy LRU, kept by the `lru` crate.
pub struct LruCacheImpl {
    pub inner: lru::LruCache<String, CachedObject>,
}

/// The entries as items.
pub open spec fn lru_items(entries: Seq<(Seq<char>, CachedObject)>) -> Seq<Item> {
    Seq::new(entries.len(), |i: int| Item { key: entries[i].0, obj: entries[i].1@, uses: 0 })
}

impl View for LruCacheImpl {
    type V = Contents;

    open spec fn view(&self) -> Contents {
        Contents {
            algorithm: CacheAlgorithmType::Lru,
            capacity: lru_capacity(self.inner),
            items: lru_items(lru_entries(self.inner)),
        }
    }
}

proof fn lemma_entry_slot(entries: Seq<(Seq<char>, CachedObject)>, key: Seq<char>, i: int)
    requires
        0 <= i <= entries.len(),
    ensures
        entry_slot(entries, key, i) == slot_from(lru_items(entries), key, i),
        i <= entry_slot(entries, key, i) <= entries.len(),
    decreases entries.len() - i,
{
    if i < entries.len() && entries[i].0 != key {
        lemma_entry_slot(entries, key, i + 1);
    }
}

impl LruCacheImpl {
    /// Whether the cache is in order.
    pub open spec fn wf(self) -> bool {
        self@.valid()
    }

    /// Makes an empty cache for `capacity` entries, but at least one.
    pub fn new(capacity: usize) -> (r: LruCacheImpl)
        requires
            capacity <= usize::MAX / 128,
        ensures
            r.wf(),
            r@ == (Contents {
                algorithm: CacheAlgorithmType::Lru,
                capacity: if capacity == 0 {
                    1
                } else {
                    capacity as nat
                },
                items: Seq::empty(),
            }),
    {
        let r = LruCacheImpl { inner: lru_new(at_least_one(capacity)) };
        assert(r@.items =~= Seq::empty());
        r
    }

    /// The object under `key`, which thereby is the one accessed last.
    pub fn get(&mut self, key: &str) -> (r: Option<CachedObject>)
        requires
            old(self).wf(),
        ensures
            final(self).wf(),
            final(self)@ == old(self)@.touched(key@),
            object_view(r) == old(self)@.at(key@),
    {
        let ghost c = self@;
        let ghost e = lru_entries(self.inner);
        proof {
            lemma_entry_slot(e, key@, 0);
            lemma_slot(c.items, key@, 0);
            law_cache_valid(c, key@, c.items[0].obj, 1);
        }
        let r = match lru_get(&mut self.inner, key) {
            Some(v) => Some(v.clone()),
            None => None,
        };
        assert(self@.items =~= c.touched(key@).items);
        r
    }

    /// Inserts an object, and returns the entry that was evicted for it.
    pub fn put(&mut self, key: &str, value: CachedObject) -> (r: Option<(String, CachedObject)>)
        requires
            old(self).wf(),
        ensures
            final(self).wf(),
            final(self)@ == old(self)@.inserted(key@, value@),
            entry_view(r) == old(self)@.evicted_by(key@),
    {
        let ghost c = self@;
        let ghost e = lru_entries(self.inner);
        proof {
            lemma_entry_slot(e, key@, 0);
            lemma_slot(c.items, key@, 0);
            law_cache_valid(c, key@, value@, 1);
        }
        let present = lru_contains(&self.inner, key);
        let replaced = lru_push(&mut self.inner, key.to_owned(), value);
        assert(self@.items =~= c.inserted(key@, value@).items);
        if present {
            None
        } else {
            replaced
        }
    }

    /// Removes the object under `key`, and returns it.
    pub fn remove(&mut self, key: &str) -> (r: Option<CachedObject>)
        requires
            old(self).wf(),
        ensures
            final(self).wf(),
            final(self)@ == old(self)@.without(key@),
            object_view(r) == old(self)@.at(key@),
    {
        let ghost c = self@;
        proof {
            lemma_entry_slot(lru_entries(self.inner), key@, 0);
            lemma_slot(c.items, key@, 0);
            law_cache_valid(c, key@, c.items[0].obj, 1);
        }
        let r = lru_pop(&mut self.inner, key);
        assert(self@.items =~= c.without(key@).items);
        r
    }

    /// Whether there is an object under `key`.
    pub fn contains(&self, key: &str) -> (r: bool)
        ensures
            r == self@.has(key@),
    {
        proof {
            lemma_entry_slot(lru_entries(self.inner), key@, 0);
        }
        lru_contains(&self.inner, key)
    }

    /// How many entries there are.
    pub fn len(&self) -> (r: usize)
        ensures
            r == self@.items.len(),
    {
        lru_len(&self.inner)
    }

    /// How many entries there is room for.
    pub fn capacity(&self) -> (r: usize)
        ensures
            r == self@.capacity,
    {
        lru_cap(&self.inner)
    }

    /// Makes room for `new_cap` entries, but at least one. Those accessed longest
    /// ago go that no longer fit.
    pub fn resize(&mut self, new_cap: usize)
        requires
            old(self).wf(),
        ensures
            final(self).wf(),
            final(self)@ == old(self)@.resized(new_cap as nat),
    {
        let ghost c = self@;
        proof {
            law_cache_valid(c, Seq::empty(), c.items[0].obj, new_cap as nat);
        }
        lru_resize(&mut self.inner, at_least_one(new_cap));
        assert(self@.items =~= c.resized(new_cap as nat).items);
    }

    /// Removes all entries.
    pub fn clear(&mut self)
        requires
            old(self).wf(),
        ensures
            final(self).wf(),
            final(self)@ == old(self)@.cleared(),
    {
        lru_clear(&mut self.inner);
        assert(self@.items =~= Seq::empty());
    }
}

} // verus!
