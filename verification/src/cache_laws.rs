//! What the replacement policies keep, told by the calls that were made.
use crate::cache::{accesses_of, CacheView};
use crate::cache_model::{
    drop_least, law_cache_valid, least_used, lemma_drop_least, lemma_least_used, lemma_slot,
    lemma_slot_is, CacheAlgorithmType, CachedView, Contents, Item,
};
use vstd::prelude::*;

verus! {

/// A call that can change what a cache holds.
pub enum CacheCall {
    Get { key: Seq<char> },
    Put { key: Seq<char>, obj: CachedView },
    Remove { key: Seq<char> },
    Resize { capacity: nat },
    Clear,
}

/// The cache after the call.
pub open spec fn called(c: Contents, call: CacheCall) -> Contents {
    match call {
        CacheCall::Get { key } => c.touched(key),
        CacheCall::Put { key, obj } => c.inserted(key, obj),
        CacheCall::Remove { key } => c.without(key),
        CacheCall::Resize { capacity } => c.resized(capacity),
        CacheCall::Clear => c.cleared(),
    }
}

/// The cache after the calls, one after the other.
pub open spec fn called_all(c: Contents, calls: Seq<CacheCall>) -> Contents
    decreases calls.len(),
{
    if calls.len() == 0 {
        c
    } else {
        called(called_all(c, calls.drop_last()), calls.last())
    }
}

/// Whether the call asks for the key or puts it.
pub open spec fn names(call: CacheCall, key: Seq<char>) -> bool {
    match call {
        CacheCall::Get { key: k } => k == key,
        CacheCall::Put { key: k, .. } => k == key,
        _ => false,
    }
}

/// Whether the call puts the key.
pub open spec fn puts(call: CacheCall, key: Seq<char>) -> bool {
    call matches CacheCall::Put { key: k, .. } && k == key
}

/// Which of the calls was the last to name the key; -1 for none.
pub open spec fn last_named(calls: Seq<CacheCall>, key: Seq<char>) -> int
    decreases calls.len(),
{
    if calls.len() == 0 {
        -1
    } else if names(calls.last(), key) {
        calls.len() - 1
    } else {
        last_named(calls.drop_last(), key)
    }
}

/// Which of the calls was the last to put the key; -1 for none.
pub open spec fn last_put(calls: Seq<CacheCall>, key: Seq<char>) -> int
    decreases calls.len(),
{
    if calls.len() == 0 {
        -1
    } else if puts(calls.last(), key) {
        calls.len() - 1
    } else {
        last_put(calls.drop_last(), key)
    }
}

/// How many calls were made when the key was last missing from the cache.
pub open spec fn entered(c: Contents, calls: Seq<CacheCall>, key: Seq<char>) -> int
    decreases calls.len(),
{
    if calls.len() == 0 || !called_all(c, calls).has(key) {
        calls.len() as int
    } else {
        entered(c, calls.drop_last(), key)
    }
}

/// How many of the calls from the one at `from` on name the key.
pub open spec fn uses_since(calls: Seq<CacheCall>, key: Seq<char>, from: int) -> nat
    decreases calls.len(),
{
    if calls.len() <= from || calls.len() == 0 {
        0
    } else {
        let last: nat = if names(calls.last(), key) {
            1
        } else {
            0
        };
        uses_since(calls.drop_last(), key, from) + last
    }
}

/// Whether by the policy `k` goes before `l`. LRU: it was named earlier. FIFO: it was
/// put earlier. LFU: it was named less often since it is there, or as often and is
/// there longer.
pub open spec fn goes_first(
    c: Contents,
    calls: Seq<CacheCall>,
    k: Seq<char>,
    l: Seq<char>,
) -> bool {
    match c.algorithm {
        CacheAlgorithmType::Lru => last_named(calls, k) < last_named(calls, l),
        CacheAlgorithmType::Fifo => last_put(calls, k) < last_put(calls, l),
        CacheAlgorithmType::Lfu => {
            let i = entered(c, calls, k);
            let j = entered(c, calls, l);
            let m = uses_since(calls, k, i);
            let n = uses_since(calls, l, j);
            m < n || (m == n && i < j)
        },
    }
}

/// Whether the entries stand in rising order of `rank`.
spec fn rising(items: Seq<Item>, rank: spec_fn(Seq<char>) -> int) -> bool {
    forall|i: int, j: int|
        0 <= i < j < items.len() ==> rank((#[trigger] items[i]).key) < rank((#[trigger] items[j]).key)
}

proof fn lemma_rising_remove(items: Seq<Item>, rank: spec_fn(Seq<char>) -> int, v: int)
    requires
        rising(items, rank),
        0 <= v < items.len(),
    ensures
        rising(items.remove(v), rank),
{
    let rest = items.remove(v);
    assert forall|i: int, j: int| 0 <= i < j < rest.len() implies rank((#[trigger] rest[i]).key)
        < rank((#[trigger] rest[j]).key) by {
        let a = if i < v {
            i
        } else {
            i + 1
        };
        let b = if j < v {
            j
        } else {
            j + 1
        };
        assert(rest[i] == items[a] && rest[j] == items[b]);
    }
}

proof fn lemma_rising_drop(items: Seq<Item>, rank: spec_fn(Seq<char>) -> int, n: nat)
    requires
        rising(items, rank),
    ensures
        rising(drop_least(items, n), rank),
    decreases n,
{
    if n > 0 && items.len() > 0 {
        let v = least_used(items, items.len() as int);
        lemma_least_used(items, items.len() as int);
        lemma_rising_remove(items, rank, v);
        lemma_rising_drop(items.remove(v), rank, (n - 1) as nat);
    }
}

/// What the place and the uses of the entries say of the calls.
spec fn told(c: Contents, calls: Seq<CacheCall>) -> bool {
    let d = called_all(c, calls);
    &&& d.valid()
    &&& d.algorithm == c.algorithm
    &&& c.algorithm is Lru ==> rising(d.items, |k: Seq<char>| -last_named(calls, k))
    &&& c.algorithm is Fifo ==> rising(d.items, |k: Seq<char>| last_put(calls, k))
    &&& c.algorithm is Lfu ==> {
        &&& rising(d.items, |k: Seq<char>| entered(c, calls, k))
        &&& forall|i: int|
            0 <= i < d.items.len() ==> (#[trigger] d.items[i]).uses == uses_since(
                calls,
                d.items[i].key,
                entered(c, calls, d.items[i].key),
            )
    }
}

proof fn lemma_ranges(c: Contents, calls: Seq<CacheCall>, key: Seq<char>)
    ensures
        -1 <= last_put(calls, key) <= last_named(calls, key) < calls.len(),
        0 <= entered(c, calls, key) <= calls.len(),
        called_all(c, calls).has(key) && calls.len() > 0 ==> entered(c, calls, key) < calls.len(),
    decreases calls.len(),
{
    if calls.len() > 0 {
        lemma_ranges(c, calls.drop_last(), key);
    }
}

/// The entries in a cache are there by their keys.
proof fn lemma_there(c: Contents, i: int)
    requires
        0 <= i < c.items.len(),
    ensures
        c.has(c.items[i].key),
{
    lemma_slot(c.items, c.items[i].key, 0);
}

proof fn lemma_told_lru(c: Contents, calls: Seq<CacheCall>)
    requires
        c.algorithm is Lru,
        calls.len() > 0,
        told(c, calls.drop_last()),
    ensures
        told(c, calls),
{
    let front = calls.drop_last();
    let a = called_all(c, front);
    let d = called_all(c, calls);
    let n = front.len() as int;
    let old_rank = |k: Seq<char>| -last_named(front, k);
    let rank = |k: Seq<char>| -last_named(calls, k);
    lemma_call_valid(a, calls.last());
    match calls.last() {
        CacheCall::Get { key } => {
            lemma_slot(a.items, key, 0);
            let p = a.slot(key);
            assert forall|i: int, j: int| 0 <= i < j < d.items.len() implies rank(
                (#[trigger] d.items[i]).key,
            ) < rank((#[trigger] d.items[j]).key) by {
                lemma_ranges(c, front, d.items[j].key);
                if a.has(key) {
                    let x = if j - 1 < p {
                        j - 1
                    } else {
                        j
                    };
                    let y = if i - 1 < p {
                        i - 1
                    } else {
                        i
                    };
                    assert(d.items[j] == a.items[x]);
                    if i > 0 {
                        assert(d.items[i] == a.items[y]);
                        assert(old_rank(a.items[y].key) < old_rank(a.items[x].key));
                    }
                    assert(a.items[x].key != key);
                } else {
                    assert(a.items[i].key != key && a.items[j].key != key);
                    assert(old_rank(a.items[i].key) < old_rank(a.items[j].key));
                }
            }
        },
        CacheCall::Put { key, obj } => {
            lemma_slot(a.items, key, 0);
            let p = if a.has(key) {
                a.slot(key)
            } else if a.items.len() >= a.capacity {
                a.items.len() - 1
            } else {
                a.items.len() as int
            };
            assert forall|i: int, j: int| 0 <= i < j < d.items.len() implies rank(
                (#[trigger] d.items[i]).key,
            ) < rank((#[trigger] d.items[j]).key) by {
                lemma_ranges(c, front, d.items[j].key);
                let x = if j - 1 < p {
                    j - 1
                } else {
                    j
                };
                let y = if i - 1 < p {
                    i - 1
                } else {
                    i
                };
                assert(d.items[j] == a.items[x]);
                assert(a.items[x].key != key);
                if i > 0 {
                    assert(d.items[i] == a.items[y]);
                    assert(a.items[y].key != key);
                    assert(old_rank(a.items[y].key) < old_rank(a.items[x].key));
                }
            }
        },
        CacheCall::Remove { key } => {
            lemma_slot(a.items, key, 0);
            if a.has(key) {
                lemma_rising_remove(a.items, old_rank, a.slot(key));
            }
            lemma_same_rank(d.items, old_rank, rank);
        },
        CacheCall::Resize { capacity } => {
            lemma_same_rank(d.items, old_rank, rank);
        },
        CacheCall::Clear => {},
    }
}

proof fn lemma_same_rank(
    items: Seq<Item>,
    r1: spec_fn(Seq<char>) -> int,
    r2: spec_fn(Seq<char>) -> int,
)
    requires
        rising(items, r1),
        forall|i: int| 0 <= i < items.len() ==> r1((#[trigger] items[i]).key) == r2(items[i].key),
    ensures
        rising(items, r2),
{
    assert forall|i: int, j: int| 0 <= i < j < items.len() implies r2((#[trigger] items[i]).key)
        < r2((#[trigger] items[j]).key) by {
        assert(r1(items[i].key) < r1(items[j].key));
    }
}

proof fn lemma_call_valid(a: Contents, call: CacheCall)
    requires
        a.valid(),
    ensures
        called(a, call).valid(),
        called(a, call).algorithm == a.algorithm,
{
    let obj = CachedView {
        uuid: Seq::empty(),
        data: Seq::empty(),
        name: Seq::empty(),
        content_type: Seq::empty(),
        size: 0,
        tags: Seq::empty(),
    };
    match call {
        CacheCall::Get { key } => law_cache_valid(a, key, obj, 1),
        CacheCall::Put { key, obj } => law_cache_valid(a, key, obj, 1),
        CacheCall::Remove { key } => law_cache_valid(a, key, obj, 1),
        CacheCall::Resize { capacity } => law_cache_valid(a, Seq::empty(), obj, capacity),
        CacheCall::Clear => law_cache_valid(a, Seq::empty(), obj, 1),
    }
}

proof fn lemma_told_fifo(c: Contents, calls: Seq<CacheCall>)
    requires
        c.algorithm is Fifo,
        calls.len() > 0,
        told(c, calls.drop_last()),
    ensures
        told(c, calls),
{
    let front = calls.drop_last();
    let a = called_all(c, front);
    let d = called_all(c, calls);
    let old_rank = |k: Seq<char>| last_put(front, k);
    let rank = |k: Seq<char>| last_put(calls, k);
    lemma_call_valid(a, calls.last());
    match calls.last() {
        CacheCall::Put { key, obj } => {
            lemma_slot(a.items, key, 0);
            let rest = if a.has(key) {
                a.items.remove(a.slot(key))
            } else if a.items.len() >= a.capacity {
                a.items.remove(0)
            } else {
                a.items
            };
            if a.has(key) {
                lemma_rising_remove(a.items, old_rank, a.slot(key));
            } else if a.items.len() >= a.capacity {
                lemma_rising_remove(a.items, old_rank, 0);
            }
            assert(d.items =~= rest.push(Item { key, obj, uses: 0 }));
            assert forall|i: int| 0 <= i < rest.len() implies (#[trigger] rest[i]).key != key by {
                let p = if a.has(key) {
                    a.slot(key)
                } else if a.items.len() >= a.capacity {
                    0
                } else {
                    a.items.len() as int
                };
                let x = if i < p {
                    i
                } else {
                    i + 1
                };
                assert(rest[i] == a.items[x]);
            }
            assert forall|i: int, j: int| 0 <= i < j < d.items.len() implies rank(
                (#[trigger] d.items[i]).key,
            ) < rank((#[trigger] d.items[j]).key) by {
                lemma_ranges(c, front, d.items[i].key);
                assert(d.items[i] == rest[i]);
                if j < rest.len() {
                    assert(d.items[j] == rest[j]);
                    assert(old_rank(rest[i].key) < old_rank(rest[j].key));
                }
            }
        },
        CacheCall::Remove { key } => {
            lemma_slot(a.items, key, 0);
            if a.has(key) {
                lemma_rising_remove(a.items, old_rank, a.slot(key));
            }
            lemma_same_rank(d.items, old_rank, rank);
        },
        _ => {
            lemma_same_rank(d.items, old_rank, rank);
        },
    }
}

proof fn lemma_told_lfu(c: Contents, calls: Seq<CacheCall>)
    requires
        c.algorithm is Lfu,
        c.items.len() == 0,
        calls.len() > 0,
        told(c, calls.drop_last()),
    ensures
        told(c, calls),
{
    let front = calls.drop_last();
    let a = called_all(c, front);
    let d = called_all(c, calls);
    let old_rank = |k: Seq<char>| entered(c, front, k);
    let rank = |k: Seq<char>| entered(c, calls, k);
    lemma_call_valid(a, calls.last());
    assert forall|i: int| 0 <= i < d.items.len() implies d.has((#[trigger] d.items[i]).key)
        && entered(c, calls, d.items[i].key) == entered(c, front, d.items[i].key) by {
        lemma_there(d, i);
    }
    match calls.last() {
        CacheCall::Get { key } => {
            lemma_slot(a.items, key, 0);
            assert forall|i: int| 0 <= i < d.items.len() implies (#[trigger] d.items[i]).key
                == a.items[i].key && d.items[i].uses == uses_since(
                calls,
                d.items[i].key,
                entered(c, calls, d.items[i].key),
            ) by {
                lemma_there(a, i);
                lemma_ranges(c, front, a.items[i].key);
                assert(a.items[i].uses == uses_since(
                    front,
                    a.items[i].key,
                    entered(c, front, a.items[i].key),
                ));
                if a.has(key) && i != a.slot(key) {
                    assert(a.items[i].key != key);
                }
            }
            assert forall|i: int, j: int| 0 <= i < j < d.items.len() implies rank(
                (#[trigger] d.items[i]).key,
            ) < rank((#[trigger] d.items[j]).key) by {
                assert(old_rank(a.items[i].key) < old_rank(a.items[j].key));
            }
        },
        CacheCall::Put { key, obj } => {
            lemma_slot(a.items, key, 0);
            if a.has(key) {
                assert forall|i: int| 0 <= i < d.items.len() implies (#[trigger] d.items[i]).key
                    == a.items[i].key && d.items[i].uses == uses_since(
                    calls,
                    d.items[i].key,
                    entered(c, calls, d.items[i].key),
                ) by {
                    lemma_there(a, i);
                    lemma_ranges(c, front, a.items[i].key);
                    assert(a.items[i].uses == uses_since(
                        front,
                        a.items[i].key,
                        entered(c, front, a.items[i].key),
                    ));
                    if i != a.slot(key) {
                        assert(a.items[i].key != key);
                    }
                }
                assert forall|i: int, j: int| 0 <= i < j < d.items.len() implies rank(
                    (#[trigger] d.items[i]).key,
                ) < rank((#[trigger] d.items[j]).key) by {
                    assert(old_rank(a.items[i].key) < old_rank(a.items[j].key));
                }
            } else {
                let v = least_used(a.items, a.items.len() as int);
                if a.items.len() > 0 {
                    lemma_least_used(a.items, a.items.len() as int);
                }
                let full = a.items.len() >= a.capacity;
                let rest = if full {
                    a.items.remove(v)
                } else {
                    a.items
                };
                if full {
                    lemma_rising_remove(a.items, old_rank, v);
                }
                assert(d.items =~= rest.push(Item { key, obj, uses: 1 }));
                assert(entered(c, front, key) == front.len());
                assert(uses_since(front, key, front.len() as int) == 0);
                assert forall|i: int| 0 <= i < d.items.len() implies (#[trigger] d.items[i]).uses
                    == uses_since(
                    calls,
                    d.items[i].key,
                    entered(c, calls, d.items[i].key),
                ) && (i < rest.len() ==> entered(c, front, d.items[i].key) < front.len()) by {
                    if i < rest.len() {
                        let x = if full && i >= v {
                            i + 1
                        } else {
                            i
                        };
                        assert(d.items[i] == a.items[x]);
                        assert(a.items[x].key != key);
                        lemma_there(a, x);
                        lemma_ranges(c, front, a.items[x].key);
                        assert(a.items[x].uses == uses_since(
                            front,
                            a.items[x].key,
                            entered(c, front, a.items[x].key),
                        ));
                        lemma_empty_start(c, front, a.items[x].key);
                    }
                }
                assert forall|i: int, j: int| 0 <= i < j < d.items.len() implies rank(
                    (#[trigger] d.items[i]).key,
                ) < rank((#[trigger] d.items[j]).key) by {
                    assert(d.items[i] == rest[i]);
                    if j < rest.len() {
                        assert(d.items[j] == rest[j]);
                        assert(old_rank(rest[i].key) < old_rank(rest[j].key));
                    }
                }
            }
        },
        CacheCall::Remove { key } => {
            lemma_slot(a.items, key, 0);
            if a.has(key) {
                lemma_rising_remove(a.items, old_rank, a.slot(key));
            }
            lemma_same_rank(d.items, old_rank, rank);
            lemma_uses_stay(c, calls);
        },
        CacheCall::Resize { capacity } => {
            let room: nat = if capacity == 0 {
                1
            } else {
                capacity
            };
            if a.items.len() > room {
                lemma_rising_drop(a.items, old_rank, (a.items.len() - room) as nat);
                lemma_drop_least(a.items, (a.items.len() - room) as nat);
            }
            lemma_same_rank(d.items, old_rank, rank);
            lemma_uses_stay(c, calls);
        },
        CacheCall::Clear => {
            lemma_same_rank(d.items, old_rank, rank);
        },
    }
}

/// An entry of a cache came in by one of the calls, where the cache was empty at
/// first.
proof fn lemma_empty_start(c: Contents, calls: Seq<CacheCall>, key: Seq<char>)
    requires
        c.items.len() == 0,
        called_all(c, calls).has(key),
    ensures
        entered(c, calls, key) < calls.len(),
{
    lemma_ranges(c, calls, key);
    lemma_slot(c.items, key, 0);
}

/// A call that takes entries out leaves the uses of the others as they are.
proof fn lemma_uses_stay(c: Contents, calls: Seq<CacheCall>)
    requires
        calls.len() > 0,
        c.algorithm is Lfu,
        told(c, calls.drop_last()),
        calls.last() is Remove || calls.last() is Resize,
        forall|i: int|
            0 <= i < called_all(c, calls).items.len() ==> called_all(
                c,
                calls.drop_last(),
            ).items.contains(#[trigger] called_all(c, calls).items[i]),
    ensures
        forall|i: int|
            0 <= i < called_all(c, calls).items.len() ==> (#[trigger] called_all(
                c,
                calls,
            ).items[i]).uses == uses_since(
                calls,
                called_all(c, calls).items[i].key,
                entered(c, calls, called_all(c, calls).items[i].key),
            ),
{
    let front = calls.drop_last();
    let a = called_all(c, front);
    let d = called_all(c, calls);
    assert forall|i: int| 0 <= i < d.items.len() implies (#[trigger] d.items[i]).uses
        == uses_since(calls, d.items[i].key, entered(c, calls, d.items[i].key)) by {
        assert(a.items.contains(d.items[i]));
        let x = choose|x: int| 0 <= x < a.items.len() && a.items[x] == d.items[i];
        lemma_there(d, i);
        lemma_there(a, x);
        lemma_ranges(c, front, a.items[x].key);
        assert(a.items[x].uses == uses_since(
            front,
            a.items[x].key,
            entered(c, front, a.items[x].key),
        ));
    }
}

proof fn lemma_told(c: Contents, calls: Seq<CacheCall>)
    requires
        c.valid(),
        c.items.len() == 0,
    ensures
        told(c, calls),
    decreases calls.len(),
{
    if calls.len() > 0 {
        lemma_told(c, calls.drop_last());
        match c.algorithm {
            CacheAlgorithmType::Lru => lemma_told_lru(c, calls),
            CacheAlgorithmType::Fifo => lemma_told_fifo(c, calls),
            CacheAlgorithmType::Lfu => lemma_told_lfu(c, calls),
        }
    }
}

/// Of the entries that go, none was used more often than one that stays; of equals
/// the first ones go.
proof fn lemma_drop_least_used(items: Seq<Item>, n: nat, i: int, j: int)
    requires
        n <= items.len(),
        0 <= i < items.len(),
        0 <= j < items.len(),
        forall|a: int, b: int| 0 <= a < b < items.len() ==> items[a].key != items[b].key,
        drop_least(items, n).contains(items[j]),
        !drop_least(items, n).contains(items[i]),
    ensures
        items[i].uses < items[j].uses || (items[i].uses == items[j].uses && i < j),
    decreases n,
{
    if n > 0 && items.len() > 0 {
        let v = least_used(items, items.len() as int);
        lemma_least_used(items, items.len() as int);
        let rest = items.remove(v);
        lemma_drop_least(rest, (n - 1) as nat);
        let left = drop_least(items, n);
        let at = choose|at: int| 0 <= at < left.len() && left[at] == items[j];
        assert(rest.contains(left[at]));
        let r = choose|r: int| 0 <= r < rest.len() && rest[r] == items[j];
        assert(rest[r] == items[if r < v { r } else { r + 1 }]);
        assert(j != v) by {
            if j == v {
                let x = if r < v {
                    r
                } else {
                    r + 1
                };
                assert(items[x].key == items[v].key);
            }
        }
        if i != v {
            let x = if i < v {
                i
            } else {
                i - 1
            };
            let y = if j < v {
                j
            } else {
                j - 1
            };
            assert(rest[x] == items[i] && rest[y] == items[j]);
            assert forall|a: int, b: int| 0 <= a < b < rest.len() implies rest[a].key
                != rest[b].key by {
                assert(items[if a < v { a } else { a + 1 }].key != items[if b < v {
                    b
                } else {
                    b + 1
                }].key);
            }
            lemma_drop_least_used(rest, (n - 1) as nat, x, y);
        }
    } else {
        assert(items.contains(items[i]));
    }
}

/// A key that is there has the entry under it.
proof fn lemma_has(c: Contents, key: Seq<char>) -> (i: int)
    requires
        c.has(key),
    ensures
        0 <= i < c.items.len(),
        c.items[i].key == key,
{
    lemma_slot(c.items, key, 0);
    c.slot(key)
}

/// The entry goes by which the policy has to: when a put or a resize takes keys out
/// of a cache, each of them goes first by what was called before, compared with
/// every key that stays. LRU: it was asked for or put earlier. FIFO: it was put
/// earlier. LFU: it was asked for and put less often since it is there, or as often
/// and is there longer.
pub proof fn law_policy(
    c: Contents,
    calls: Seq<CacheCall>,
    call: CacheCall,
    k: Seq<char>,
    l: Seq<char>,
)
    requires
        c.valid(),
        c.items.len() == 0,
        call is Put || call is Resize,
        called_all(c, calls).has(k),
        called_all(c, calls).has(l),
        !called(called_all(c, calls), call).has(k),
        called(called_all(c, calls), call).has(l),
    ensures
        goes_first(c, calls, k, l),
{
    lemma_told(c, calls);
    let a = called_all(c, calls);
    let d = called(a, call);
    let i = lemma_has(a, k);
    let j = lemma_has(a, l);
    assert(i != j);
    let m = lemma_has(d, l);
    match call {
        CacheCall::Put { key, obj } => {
            lemma_slot(a.items, key, 0);
            if a.items.len() > 0 {
                lemma_least_used(a.items, a.items.len() as int);
            }
            lemma_put_loses(a, key, obj, i);
        },
        CacheCall::Resize { capacity } => {
            let room: nat = if capacity == 0 {
                1
            } else {
                capacity
            };
            let n = (a.items.len() - room) as nat;
            if a.items.len() <= room {
                lemma_there(d, i);
            }
            match a.algorithm {
                CacheAlgorithmType::Lru => {
                    if i < room {
                        assert(d.items[i] == a.items[i]);
                        lemma_there(d, i);
                    }
                    assert(a.items[m].key == l);
                    if m != j {
                        assert(a.items[if m < j { m } else { j }].key != a.items[if m < j {
                            j
                        } else {
                            m
                        }].key);
                    }
                },
                CacheAlgorithmType::Fifo => {
                    if i >= n {
                        assert(d.items[i - n] == a.items[i]);
                        lemma_there(d, i - n);
                    }
                    assert(a.items[m + n].key == l);
                    if m + n != j {
                        assert(a.items[if m + n < j { m + n } else { j }].key != a.items[if m + n
                            < j {
                            j
                        } else {
                            m + n
                        }].key);
                    }
                },
                CacheAlgorithmType::Lfu => {
                    lemma_drop_least(a.items, n);
                    if d.items.contains(a.items[i]) {
                        let x = choose|x: int| 0 <= x < d.items.len() && d.items[x] == a.items[i];
                        lemma_there(d, x);
                    }
                    assert(a.items.contains(d.items[m]));
                    let x = choose|x: int| 0 <= x < a.items.len() && a.items[x] == d.items[m];
                    if x != j {
                        assert(a.items[if x < j { x } else { j }].key != a.items[if x < j {
                            j
                        } else {
                            x
                        }].key);
                    }
                    assert(d.items[m] == a.items[j]);
                    lemma_drop_least_used(a.items, n, i, j);
                },
            }
        },
        _ => {},
    }
    let r1 = |q: Seq<char>| -last_named(calls, q);
    let r2 = |q: Seq<char>| last_put(calls, q);
    let r3 = |q: Seq<char>| entered(c, calls, q);
    match a.algorithm {
        CacheAlgorithmType::Lru => {
            assert(j < i);
            assert(r1(a.items[j].key) < r1(a.items[i].key));
        },
        CacheAlgorithmType::Fifo => {
            assert(i < j);
            assert(r2(a.items[i].key) < r2(a.items[j].key));
        },
        CacheAlgorithmType::Lfu => {
            assert(a.items[i].uses == uses_since(calls, k, entered(c, calls, k)));
            assert(a.items[j].uses == uses_since(calls, l, entered(c, calls, l)));
            if i < j {
                assert(r3(a.items[i].key) < r3(a.items[j].key));
            }
        },
    }
}

/// A put takes out the entry that the policy picks, and no other.
proof fn lemma_put_loses(a: Contents, key: Seq<char>, obj: CachedView, i: int)
    requires
        a.valid(),
        0 <= i < a.items.len(),
        !a.inserted(key, obj).has(a.items[i].key),
    ensures
        !a.has(key),
        a.items.len() >= a.capacity,
        i == a.victim(),
{
    let d = a.inserted(key, obj);
    lemma_slot(a.items, key, 0);
    lemma_least_used(a.items, a.items.len() as int);
    let p = a.slot(key);
    let v = a.victim();
    let lru = a.algorithm is Lru;
    if a.has(key) {
        if i == p {
            let x = if lru {
                0
            } else if a.algorithm is Fifo {
                d.items.len() - 1
            } else {
                p
            };
            assert(d.items[x].key == key);
            lemma_there(d, x);
        } else {
            let x = if lru {
                if i < p {
                    i + 1
                } else {
                    i
                }
            } else if a.algorithm is Fifo {
                if i < p {
                    i
                } else {
                    i - 1
                }
            } else {
                i
            };
            assert(d.items[x] == a.items[i]);
            lemma_there(d, x);
        }
    } else if a.items.len() < a.capacity {
        let x = if lru {
            i + 1
        } else {
            i
        };
        assert(d.items[x] == a.items[i]);
        lemma_there(d, x);
    } else if i != v {
        let y = if i < v {
            i
        } else {
            i - 1
        };
        let x = if lru {
            y + 1
        } else {
            y
        };
        assert(d.items[x] == a.items[i]);
        lemma_there(d, x);
    }
}

/// What a cache holds, and how much of it. A put leaves its key in the cache, and
/// takes another one out only where the cache was full and did not have the key. A
/// resize leaves as many entries as there is room for. Asking takes nothing out.
/// Removing takes out the one key, clearing all.
pub proof fn law_holds(
    c: Contents,
    calls: Seq<CacheCall>,
    key: Seq<char>,
    obj: CachedView,
    capacity: nat,
    other: Seq<char>,
)
    requires
        c.valid(),
        c.items.len() == 0,
    ensures
        ({
            let a = called_all(c, calls);
            let put = called(a, CacheCall::Put { key, obj });
            let sized = called(a, CacheCall::Resize { capacity });
            let room = if capacity == 0 {
                1
            } else {
                capacity
            };
            &&& a.items.len() <= a.capacity
            &&& put.has(key)
            &&& put.at(key) == Some(obj)
            &&& put.capacity == a.capacity
            &&& a.has(key) ==> put.items.len() == a.items.len()
            &&& !a.has(key) && a.items.len() < a.capacity ==> put.items.len() == a.items.len() + 1
            &&& !a.has(key) && a.items.len() == a.capacity ==> put.items.len() == a.items.len()
            &&& a.has(other) && (a.has(key) || a.items.len() < a.capacity) ==> put.has(other)
            &&& put.has(other) && other != key ==> a.has(other)
            &&& sized.capacity == room
            &&& a.items.len() <= room ==> sized.items.len() == a.items.len()
            &&& a.items.len() > room ==> sized.items.len() == room
            &&& sized.has(other) ==> a.has(other)
            &&& called(a, CacheCall::Get { key }).has(other) == a.has(other)
            &&& called(a, CacheCall::Remove { key }).has(other) == (a.has(other) && other != key)
            &&& !called(a, CacheCall::Clear).has(other)
        }),
{
    lemma_told(c, calls);
    let a = called_all(c, calls);
    let put = a.inserted(key, obj);
    crate::cache_model::law_insert(a, key, obj, other);
    crate::cache_model::law_resize(a, capacity);
    crate::cache_model::law_access_keeps_objects(a, key, other);
    crate::cache_model::law_remove(a, key, other);
    crate::cache_model::law_remove(a, key, key);
    lemma_slot(a.items, key, 0);
    if a.items.len() > 0 {
        lemma_least_used(a.items, a.items.len() as int);
    }
    lemma_slot(a.cleared().items, other, 0);
    let sized = a.resized(capacity);
    if sized.has(other) {
        let m = lemma_has(sized, other);
        assert(a.items.contains(sized.items[m]));
        let x = choose|x: int| 0 <= x < a.items.len() && a.items[x] == sized.items[m];
        lemma_there(a, x);
    }
    if a.has(other) && (a.has(key) || a.items.len() < a.capacity) && !put.has(other) {
        let i = lemma_has(a, other);
        lemma_put_loses(a, key, obj, i);
    }
    if put.has(other) && other != key {
        assert(put.at(other) is Some);
        if let Some((gone, _)) = a.evicted_by(key) {
            if gone == other {
                assert(put.at(other) is None);
            }
        }
        assert(a.at(other) is Some);
    }
}

/// What was put last under the key; nothing where it was not put.
pub open spec fn last_obj(calls: Seq<CacheCall>, key: Seq<char>) -> Option<CachedView>
    decreases calls.len(),
{
    if calls.len() == 0 {
        None
    } else {
        match calls.last() {
            CacheCall::Put { key: k, obj } if k == key => Some(obj),
            _ => last_obj(calls.drop_last(), key),
        }
    }
}

/// A cache gives back what was put last under the key.
pub proof fn law_last_object(c: Contents, calls: Seq<CacheCall>, key: Seq<char>)
    requires
        c.valid(),
        c.items.len() == 0,
    ensures
        called_all(c, calls).has(key) ==> called_all(c, calls).at(key) == last_obj(calls, key),
    decreases calls.len(),
{
    if calls.len() > 0 {
        let front = calls.drop_last();
        law_last_object(c, front, key);
        lemma_told(c, front);
        let a = called_all(c, front);
        let d = called_all(c, calls);
        match calls.last() {
            CacheCall::Get { key: k } => {
                crate::cache_model::law_access_keeps_objects(a, k, key);
            },
            CacheCall::Put { key: k, obj } => {
                crate::cache_model::law_insert(a, k, obj, key);
                if d.has(key) && k != key {
                    assert(d.at(key) is Some);
                    if let Some((gone, _)) = a.evicted_by(k) {
                        if gone == key {
                            assert(d.at(key) is None);
                        }
                    }
                    assert(a.at(key) is Some);
                }
            },
            CacheCall::Remove { key: k } => {
                crate::cache_model::law_remove(a, k, key);
                if d.has(key) {
                    assert(d.at(key) is Some);
                }
            },
            CacheCall::Resize { capacity } => {
                crate::cache_model::law_resize(a, capacity);
                if d.has(key) {
                    let m = lemma_has(d, key);
                    lemma_slot(d.items, key, 0);
                    let s = d.slot(key);
                    assert(a.items.contains(d.items[s]));
                    let x = choose|x: int| 0 <= x < a.items.len() && a.items[x] == d.items[s];
                    assert forall|q: int| 0 <= q < x implies (#[trigger] a.items[q]).key != key by {
                        assert(a.items[q].key != a.items[x].key);
                    }
                    lemma_slot_is(a.items, key, x);
                }
            },
            CacheCall::Clear => {
                lemma_slot(d.items, key, 0);
            },
        }
    }
}

/// What is counted. Asking for a key counts one access to it and to no other, and a
/// hit where the key is there, a miss where not. A put counts an eviction exactly
/// where another key went.
pub proof fn law_counted(c: CacheView, key: Seq<char>, obj: CachedView, other: Seq<char>)
    requires
        c.contents.valid(),
        c.hits < u64::MAX,
        c.misses < u64::MAX,
        c.evictions < u64::MAX,
        accesses_of(c.accesses, key) < u64::MAX,
    ensures
        ({
            let got = c.got(key);
            let put = c.put(key, obj);
            &&& got.hits == c.hits + (if c.contents.has(key) {
                1int
            } else {
                0
            })
            &&& got.misses == c.misses + (if c.contents.has(key) {
                0int
            } else {
                1
            })
            &&& got.evictions == c.evictions
            &&& accesses_of(got.accesses, key) == accesses_of(c.accesses, key) + 1
            &&& other != key ==> accesses_of(got.accesses, other) == accesses_of(c.accesses, other)
            &&& put.hits == c.hits && put.misses == c.misses
            &&& put.accesses == c.accesses
            &&& c.contents.has(other) && !put.contents.has(other) ==> put.evictions == c.evictions + 1
            &&& put.contents.items.len() == c.contents.items.len() + (if c.contents.has(key) {
                0int
            } else {
                1
            }) - (put.evictions - c.evictions)
        }),
{
    lemma_slot(c.contents.items, key, 0);
    if c.contents.items.len() > 0 {
        lemma_least_used(c.contents.items, c.contents.items.len() as int);
    }
    if c.contents.has(other) && !c.contents.inserted(key, obj).has(other) {
        let i = lemma_has(c.contents, other);
        lemma_put_loses(c.contents, key, obj, i);
    }
}

} // verus!
