//! What the three replacement policies do, as functions on sequences.
use vstd::prelude::*;

verus! {

/// The replacement policies of a cache.
#[derive(Debug, Clone, Copy, PartialEq, Eq, Structural)]
pub enum CacheAlgorithmType {
    /// Least recently used: the entry goes whose last access is longest ago.
    Lru,
    /// First in, first out: the entry goes that was inserted first.
    Fifo,
    /// Least frequently used: the entry goes that was accessed least often; of
    /// several, the one that was inserted first.
    Lfu,
}

/// A cached object, with texts and data as sequences.
pub struct CachedView {
    pub uuid: Seq<char>,
    pub data: Seq<u8>,
    pub name: Seq<char>,
    pub content_type: Seq<char>,
    pub size: u64,
    pub tags: Seq<char>,
}

/// An entry of a cache. `uses` counts the insertion and the accesses in a cache
/// of the policy LFU, and is 0 in the others.
pub struct Item {
    pub key: Seq<char>,
    pub obj: CachedView,
    pub uses: nat,
}

/// The entries of a cache, with its policy and its capacity.
///
/// With LRU the entries stand in the order of their last access, latest first;
/// with the other policies in the order of their insertion, oldest first.
pub struct Contents {
    pub algorithm: CacheAlgorithmType,
    pub capacity: nat,
    pub items: Seq<Item>,
}

/// The first index from `i` on at which `key` stands; the length of `items`
/// where there is none.
pub open spec fn slot_from(items: Seq<Item>, key: Seq<char>, i: int) -> int
    decreases items.len() - i,
{
    if i >= items.len() {
        items.len() as int
    } else if items[i].key == key {
        i
    } else {
        slot_from(items, key, i + 1)
    }
}

/// The index of the item that was used least among the first `n`; of several,
/// the first.
pub open spec fn least_used(items: Seq<Item>, n: int) -> int
    decreases n,
{
    if n <= 1 {
        0
    } else {
        let before = least_used(items, n - 1);
        if items[n - 1].uses < items[before].uses {
            n - 1
        } else {
            before
        }
    }
}

/// The items without the `n` that were used least, taken one after the other.
pub open spec fn drop_least(items: Seq<Item>, n: nat) -> Seq<Item>
    decreases n,
{
    if n == 0 || items.len() == 0 {
        items
    } else {
        drop_least(items.remove(least_used(items, items.len() as int)), (n - 1) as nat)
    }
}

impl Contents {
    /// Whether the cache has room for one entry at least, no more entries than
    /// it has room for, and no key twice.
    pub open spec fn valid(self) -> bool {
        &&& self.capacity >= 1
        &&& self.items.len() <= self.capacity
        &&& forall|i: int, j: int|
            0 <= i < j < self.items.len() ==> self.items[i].key != self.items[j].key
    }

    /// Whether every entry can be used once more and be counted.
    pub open spec fn usable(self) -> bool {
        forall|i: int| 0 <= i < self.items.len() ==> (#[trigger] self.items[i]).uses < u64::MAX
    }

    /// Whether every entry can be used `n` times more and be counted.
    pub open spec fn usable_for(self, n: int) -> bool {
        forall|i: int| 0 <= i < self.items.len() ==> (#[trigger] self.items[i]).uses + n <= u64::MAX
    }

    /// Where `key` stands among the items.
    pub open spec fn slot(self, key: Seq<char>) -> int {
        slot_from(self.items, key, 0)
    }

    pub open spec fn has(self, key: Seq<char>) -> bool {
        self.slot(key) < self.items.len()
    }

    /// The object under `key`.
    pub open spec fn at(self, key: Seq<char>) -> Option<CachedView> {
        if self.has(key) {
            Some(self.items[self.slot(key)].obj)
        } else {
            None
        }
    }

    /// The cache after an access to `key`.
    pub open spec fn touched(self, key: Seq<char>) -> Contents {
        let i = self.slot(key);
        if !self.has(key) {
            self
        } else {
            match self.algorithm {
                CacheAlgorithmType::Lru => Contents {
                    items: seq![self.items[i]] + self.items.remove(i),
                    ..self
                },
                CacheAlgorithmType::Fifo => self,
                CacheAlgorithmType::Lfu => Contents {
                    items: self.items.update(
                        i,
                        Item { uses: self.items[i].uses + 1, ..self.items[i] },
                    ),
                    ..self
                },
            }
        }
    }

    /// The index of the entry that has to go first.
    pub open spec fn victim(self) -> int {
        match self.algorithm {
            CacheAlgorithmType::Lru => self.items.len() - 1,
            CacheAlgorithmType::Fifo => 0,
            CacheAlgorithmType::Lfu => least_used(self.items, self.items.len() as int),
        }
    }

    /// The cache with a new entry, which there is room for.
    pub open spec fn grown(self, key: Seq<char>, obj: CachedView) -> Contents {
        let items = match self.algorithm {
            CacheAlgorithmType::Lru => seq![Item { key, obj, uses: 0 }] + self.items,
            CacheAlgorithmType::Fifo => self.items.push(Item { key, obj, uses: 0 }),
            CacheAlgorithmType::Lfu => self.items.push(Item { key, obj, uses: 1 }),
        };
        Contents { items, ..self }
    }

    /// The cache after `obj` was inserted under `key`.
    pub open spec fn inserted(self, key: Seq<char>, obj: CachedView) -> Contents {
        let i = self.slot(key);
        if self.has(key) {
            match self.algorithm {
                CacheAlgorithmType::Lru => Contents {
                    items: seq![Item { key, obj, uses: 0 }] + self.items.remove(i),
                    ..self
                },
                CacheAlgorithmType::Fifo => Contents {
                    items: self.items.remove(i).push(Item { key, obj, uses: 0 }),
                    ..self
                },
                CacheAlgorithmType::Lfu => Contents {
                    items: self.items.update(
                        i,
                        Item { key, obj, uses: self.items[i].uses + 1 },
                    ),
                    ..self
                },
            }
        } else if self.items.len() >= self.capacity {
            Contents { items: self.items.remove(self.victim()), ..self }.grown(key, obj)
        } else {
            self.grown(key, obj)
        }
    }

    /// The entry that an insertion under `key` evicts.
    pub open spec fn evicted_by(self, key: Seq<char>) -> Option<(Seq<char>, CachedView)> {
        if !self.has(key) && self.items.len() >= self.capacity {
            Some((self.items[self.victim()].key, self.items[self.victim()].obj))
        } else {
            None
        }
    }

    /// The cache without `key`.
    pub open spec fn without(self, key: Seq<char>) -> Contents {
        if self.has(key) {
            Contents { items: self.items.remove(self.slot(key)), ..self }
        } else {
            self
        }
    }

    /// The cache with room for `capacity` entries, but at least one. The entries
    /// that no longer fit go by the policy.
    pub open spec fn resized(self, capacity: nat) -> Contents {
        let room: nat = if capacity == 0 {
            1
        } else {
            capacity
        };
        let len = self.items.len();
        let items = if len <= room {
            self.items
        } else {
            match self.algorithm {
                CacheAlgorithmType::Lru => self.items.take(room as int),
                CacheAlgorithmType::Fifo => self.items.skip(len - room),
                CacheAlgorithmType::Lfu => drop_least(self.items, (len - room) as nat),
            }
        };
        Contents { capacity: room, items, ..self }
    }

    /// The cache without any entries.
    pub open spec fn cleared(self) -> Contents {
        Contents { items: Seq::empty(), ..self }
    }
}

pub proof fn lemma_slot(items: Seq<Item>, key: Seq<char>, i: int)
    requires
        0 <= i <= items.len(),
    ensures
        i <= slot_from(items, key, i) <= items.len(),
        slot_from(items, key, i) < items.len() ==> items[slot_from(items, key, i)].key == key,
        forall|j: int| i <= j < slot_from(items, key, i) ==> (#[trigger] items[j]).key != key,
    decreases items.len() - i,
{
    if i < items.len() && items[i].key != key {
        lemma_slot(items, key, i + 1);
    }
}

/// The one place of a key is its slot.
pub proof fn lemma_slot_is(items: Seq<Item>, key: Seq<char>, k: int)
    requires
        0 <= k <= items.len(),
        forall|j: int| 0 <= j < k ==> (#[trigger] items[j]).key != key,
        k < items.len() ==> items[k].key == key,
    ensures
        slot_from(items, key, 0) == k,
{
    lemma_slot(items, key, 0);
    if slot_from(items, key, 0) < k {
        assert(items[slot_from(items, key, 0)].key != key);
    }
    if k < slot_from(items, key, 0) {
        assert(items[k].key != key);
    }
}

pub proof fn lemma_least_used(items: Seq<Item>, n: int)
    requires
        1 <= n <= items.len(),
    ensures
        0 <= least_used(items, n) < n,
        forall|j: int|
            0 <= j < n ==> items[least_used(items, n)].uses <= (#[trigger] items[j]).uses,
        forall|j: int|
            0 <= j < least_used(items, n) ==> items[least_used(items, n)].uses < (
            #[trigger] items[j]).uses,
    decreases n,
{
    if n > 1 {
        lemma_least_used(items, n - 1);
    }
}

/// An insertion is one use at most.
pub proof fn lemma_usable_put(c: Contents, n: int, key: Seq<char>, obj: CachedView)
    requires
        c.valid(),
        1 <= n <= u64::MAX,
        c.usable_for(n),
    ensures
        c.inserted(key, obj).usable_for(n - 1),
        c.has(key) ==> c.items[c.slot(key)].uses < u64::MAX,
{
    lemma_slot(c.items, key, 0);
    let i = c.slot(key);
    let v = c.victim();
    let p = c.inserted(key, obj);
    if c.items.len() > 0 {
        lemma_least_used(c.items, c.items.len() as int);
    }
    assert forall|j: int| 0 <= j < p.items.len() implies (#[trigger] p.items[j]).uses + (n - 1)
        <= u64::MAX by {
        let lru = c.algorithm == CacheAlgorithmType::Lru;
        let out = if c.has(key) {
            i
        } else if c.items.len() >= c.capacity {
            v
        } else {
            c.items.len() as int
        };
        if c.has(key) && c.algorithm == CacheAlgorithmType::Lfu {
            assert(c.items[j].uses + n <= u64::MAX);
        } else {
            let base = if lru {
                j - 1
            } else {
                j
            };
            let m = if base < out {
                base
            } else {
                base + 1
            };
            if lru && j == 0 || !lru && j == p.items.len() - 1 {
                assert(p.items[j].uses <= 1);
            } else {
                assert(p.items[j] == c.items[m]);
            }
        }
    }
}

pub open spec fn distinct_keys(items: Seq<Item>) -> bool {
    forall|i: int, j: int| 0 <= i < j < items.len() ==> items[i].key != items[j].key
}

pub proof fn lemma_drop_least(items: Seq<Item>, n: nat)
    requires
        n <= items.len(),
    ensures
        drop_least(items, n).len() == items.len() - n,
        distinct_keys(items) ==> distinct_keys(drop_least(items, n)),
        forall|j: int|
            0 <= j < drop_least(items, n).len() ==> items.contains(
                #[trigger] drop_least(items, n)[j],
            ),
    decreases n,
{
    if n > 0 && items.len() > 0 {
        let v = least_used(items, items.len() as int);
        lemma_least_used(items, items.len() as int);
        let rest = items.remove(v);
        lemma_drop_least(rest, (n - 1) as nat);
        assert forall|j: int| 0 <= j < drop_least(items, n).len() implies items.contains(
            #[trigger] drop_least(items, n)[j],
        ) by {
            let x = drop_least(rest, (n - 1) as nat)[j];
            assert(rest.contains(x));
            let i = choose|i: int| 0 <= i < rest.len() && rest[i] == x;
            assert(items[if i < v { i } else { i + 1 }] == x);
        }
    } else {
        assert forall|j: int| 0 <= j < items.len() implies items.contains(#[trigger] items[j]) by {
        }
    }
}

/// Every operation keeps a cache valid: no key twice, and never more entries than
/// it has room for.
pub proof fn law_cache_valid(c: Contents, key: Seq<char>, obj: CachedView, capacity: nat)
    requires
        c.valid(),
    ensures
        c.touched(key).valid(),
        c.inserted(key, obj).valid(),
        c.without(key).valid(),
        c.resized(capacity).valid(),
        c.cleared().valid(),
{
    lemma_slot(c.items, key, 0);
    if c.items.len() > 0 {
        lemma_least_used(c.items, c.items.len() as int);
    }
    if c.items.len() > capacity {
        lemma_drop_least(c.items, (c.items.len() - if capacity == 0 { 1 } else { capacity }) as nat);
    }
}

/// An access changes neither which keys are there nor what they hold.
pub proof fn law_access_keeps_objects(c: Contents, key: Seq<char>, other: Seq<char>)
    requires
        c.valid(),
    ensures
        c.touched(key).at(other) == c.at(other),
{
    let t = c.touched(key);
    lemma_slot(c.items, key, 0);
    lemma_slot(c.items, other, 0);
    lemma_slot(t.items, other, 0);
    let i = c.slot(key);
    let j = c.slot(other);
    if c.has(key) && c.algorithm == CacheAlgorithmType::Lru {
        let k = if !c.has(other) {
            c.items.len() as int
        } else if j == i {
            0
        } else if j < i {
            j + 1
        } else {
            j
        };
        assert forall|m: int| 0 <= m < k implies (#[trigger] t.items[m]).key != other by {
            if m > 0 {
                assert(t.items[m] == c.items[if m - 1 < i { m - 1 } else { m }]);
            }
        }
        lemma_slot_is(t.items, other, k);
    } else {
        assert forall|m: int| 0 <= m < j implies (#[trigger] t.items[m]).key != other by {
            assert(t.items[m].key == c.items[m].key);
        }
        lemma_slot_is(t.items, other, j);
    }
}

/// Whether `x` stands in `items` elsewhere than at `out`.
spec fn stands_beside(items: Seq<Item>, out: int, x: Item) -> bool {
    exists|j: int| 0 <= j < items.len() && j != out && #[trigger] items[j] == x
}

/// What was inserted is there; the entry that was evicted is not; every other
/// entry stays.
pub proof fn law_insert(c: Contents, key: Seq<char>, obj: CachedView, other: Seq<char>)
    requires
        c.valid(),
    ensures
        c.inserted(key, obj).at(key) == Some(obj),
        c.evicted_by(key) matches Some((gone, old)) ==> {
            &&& gone != key
            &&& c.at(gone) == Some(old)
            &&& c.inserted(key, obj).at(gone) is None
        },
        other != key && (c.evicted_by(key) matches Some((gone, _)) ==> gone != other)
            ==> c.inserted(key, obj).at(other) == c.at(other),
{
    let t = c.inserted(key, obj);
    let len = c.items.len() as int;
    lemma_slot(c.items, key, 0);
    lemma_slot(c.items, other, 0);
    if len > 0 {
        lemma_least_used(c.items, len);
    }
    let lru = c.algorithm == CacheAlgorithmType::Lru;
    let full = !c.has(key) && len >= c.capacity;
    // The entry that is taken out, if any, and where the new one stands.
    let out = if c.has(key) {
        c.slot(key)
    } else if full {
        c.victim()
    } else {
        len
    };
    let in_place = c.has(key) && c.algorithm == CacheAlgorithmType::Lfu;
    let new_at = if in_place {
        out
    } else if lru {
        0
    } else {
        t.items.len() - 1
    };
    let moved = |j: int| -> int
        {
            if in_place {
                j
            } else {
                (if j < out { j } else { j - 1 }) + (if lru { 1int } else { 0 })
            }
        };
    assert(t.items[new_at].key == key && t.items[new_at].obj == obj);
    assert forall|m: int| 0 <= m < t.items.len() && m != new_at implies stands_beside(
        c.items,
        out,
        #[trigger] t.items[m],
    ) by {
        let base = if lru && !in_place {
            m - 1
        } else {
            m
        };
        let j = if in_place || base < out {
            base
        } else {
            base + 1
        };
        assert(c.items[j] == t.items[m]);
    }
    assert forall|m: int| 0 <= m < new_at implies (#[trigger] t.items[m]).key != key by {
        assert(stands_beside(c.items, out, t.items[m]));
                let j = choose|j: int| 0 <= j < len && j != out && #[trigger] c.items[j] == t.items[m];
        assert(c.items[j].key != key);
    }
    lemma_slot_is(t.items, key, new_at);
    if full {
        let gone = c.items[out].key;
        assert forall|j: int| 0 <= j < out implies (#[trigger] c.items[j]).key != gone by {
        }
        lemma_slot_is(c.items, gone, out);
        assert(gone != key);
        assert forall|m: int| 0 <= m < t.items.len() implies (#[trigger] t.items[m]).key != gone by {
            if m != new_at {
                assert(stands_beside(c.items, out, t.items[m]));
                let j = choose|j: int| 0 <= j < len && j != out && #[trigger] c.items[j] == t.items[m];
                assert(c.items[j].key != c.items[out].key);
            }
        }
        lemma_slot_is(t.items, gone, t.items.len() as int);
    }
    if other != key && (full ==> c.items[out].key != other) {
        let j = c.slot(other);
        if j < len {
            let m = moved(j);
            assert(t.items[m] == c.items[j]);
            assert forall|x: int| 0 <= x < m implies (#[trigger] t.items[x]).key != other by {
                if x != new_at {
                    assert(stands_beside(c.items, out, t.items[x]));
                let y = choose|y: int| 0 <= y < len && y != out && #[trigger] c.items[y] == t.items[x];
                    if c.items[y].key == other {
                        assert(y == j);
                        assert(t.items[x].key == t.items[m].key);
                        law_cache_valid(c, key, obj, 1);
                    }
                }
            }
            lemma_slot_is(t.items, other, m);
        } else {
            assert forall|x: int| 0 <= x < t.items.len() implies (#[trigger] t.items[x]).key
                != other by {
                if x != new_at {
                    assert(stands_beside(c.items, out, t.items[x]));
                let y = choose|y: int| 0 <= y < len && y != out && #[trigger] c.items[y] == t.items[x];
                    assert(c.items[y].key != other);
                }
            }
            lemma_slot_is(t.items, other, t.items.len() as int);
        }
    }
}

/// What was removed is no longer there; every other entry stays.
pub proof fn law_remove(c: Contents, key: Seq<char>, other: Seq<char>)
    requires
        c.valid(),
    ensures
        c.without(key).at(key) is None,
        other != key ==> c.without(key).at(other) == c.at(other),
{
    let t = c.without(key);
    lemma_slot(c.items, key, 0);
    lemma_slot(c.items, other, 0);
    if c.has(key) {
        let i = c.slot(key);
        assert forall|m: int| 0 <= m < t.items.len() implies (#[trigger] t.items[m]).key != key by {
            assert(t.items[m] == c.items[if m < i { m } else { m + 1 }]);
        }
        lemma_slot_is(t.items, key, t.items.len() as int);
        if other != key {
            let j = c.slot(other);
            let k = if j < i {
                j
            } else {
                j - 1
            };
            assert forall|m: int| 0 <= m < k implies (#[trigger] t.items[m]).key != other by {
                assert(t.items[m] == c.items[if m < i { m } else { m + 1 }]);
            }
            lemma_slot_is(t.items, other, k);
        }
    }
}

/// The policies: what an insertion into a full cache evicts is, with FIFO, what
/// was inserted first; with LRU, what was accessed longest ago; with LFU, what
/// was used least, and of several the first inserted.
pub proof fn law_victim(c: Contents, key: Seq<char>)
    requires
        c.valid(),
        !c.has(key),
        c.items.len() == c.capacity,
    ensures
        c.algorithm == CacheAlgorithmType::Fifo ==> c.evicted_by(key) == Some(
            (c.items[0].key, c.items[0].obj),
        ),
        c.algorithm == CacheAlgorithmType::Lru ==> c.evicted_by(key) == Some(
            (c.items.last().key, c.items.last().obj),
        ),
        c.algorithm == CacheAlgorithmType::Lfu ==> exists|v: int|
            {
                &&& 0 <= v < c.items.len()
                &&& c.evicted_by(key) == Some((#[trigger] c.items[v].key, c.items[v].obj))
                &&& forall|j: int| 0 <= j < c.items.len() ==> c.items[v].uses <= (#[trigger] c.items[j]).uses
                &&& forall|j: int| 0 <= j < v ==> c.items[v].uses < (#[trigger] c.items[j]).uses
            },
{
    lemma_least_used(c.items, c.items.len() as int);
}

/// A resize leaves as many entries as fit, all of them old ones.
pub proof fn law_resize(c: Contents, capacity: nat)
    requires
        c.valid(),
    ensures
        c.resized(capacity).capacity == (if capacity == 0 {
            1
        } else {
            capacity
        }),
        c.resized(capacity).items.len() == (if c.items.len() <= c.resized(capacity).capacity {
            c.items.len()
        } else {
            c.resized(capacity).capacity
        }),
        forall|i: int|
            0 <= i < c.resized(capacity).items.len() ==> c.items.contains(
                #[trigger] c.resized(capacity).items[i],
            ),
{
    let room: nat = if capacity == 0 {
        1
    } else {
        capacity
    };
    if c.items.len() > room {
        lemma_drop_least(c.items, (c.items.len() - room) as nat);
    }
}

} // verus!
