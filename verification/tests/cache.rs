//! The caches, the workload and the trials.
use minios::cache::{CacheStats, ObjectCache};
use minios::cache_model::CacheAlgorithmType;
use minios::policies::{CachedObject, FifoCache, LfuCache, LruCacheImpl};
use minios::rates::share;
use minios::trials::{entries_from, rank, run_sweep, run_trial, run_trials, sweep_rows_from};
use minios::workload::generate_weighted_workload;

fn object(n: &str) -> CachedObject {
    CachedObject {
        uuid: n.to_string(),
        data: n.as_bytes().to_vec(),
        name: format!("name-{}", n),
        content_type: "t".to_string(),
        size: n.len() as u64,
        tags: "{}".to_string(),
    }
}

fn key_of(r: Option<(String, CachedObject)>) -> Option<String> {
    r.map(|(k, _)| k)
}

#[test]
fn lru_evicts_what_was_used_longest_ago() {
    let mut c = ObjectCache::new(CacheAlgorithmType::Lru, 2);
    assert!(c.put("a", object("a")).is_none());
    assert!(c.put("b", object("b")).is_none());
    assert_eq!(c.get("a").unwrap().name, "name-a");
    assert_eq!(key_of(c.put("c", object("c"))), Some("b".to_string()));
    assert!(c.get("b").is_none());
    assert!(c.get("a").is_some());
    assert_eq!(c.len(), 2);
    assert_eq!(c.stats().evictions, 1);
}

#[test]
fn lru_replaces_without_eviction() {
    let mut c = ObjectCache::new(CacheAlgorithmType::Lru, 2);
    c.put("a", object("a"));
    c.put("b", object("b"));
    assert!(c.put("a", object("aa")).is_none());
    assert_eq!(c.stats().evictions, 0);
    assert_eq!(c.get("a").unwrap().data, b"aa");
    assert_eq!(key_of(c.put("c", object("c"))), Some("b".to_string()));
}

#[test]
fn fifo_evicts_what_came_first() {
    let mut c = ObjectCache::new(CacheAlgorithmType::Fifo, 2);
    c.put("a", object("a"));
    c.put("b", object("b"));
    assert!(c.get("a").is_some());
    assert_eq!(key_of(c.put("c", object("c"))), Some("a".to_string()));
    assert_eq!(key_of(c.put("d", object("d"))), Some("b".to_string()));
}

#[test]
fn lfu_evicts_what_was_used_least() {
    let mut c = ObjectCache::new(CacheAlgorithmType::Lfu, 2);
    c.put("a", object("a"));
    c.put("b", object("b"));
    c.get("a");
    assert_eq!(key_of(c.put("c", object("c"))), Some("b".to_string()));
    c.get("c");
    c.get("c");
    assert_eq!(key_of(c.put("d", object("d"))), Some("a".to_string()));
}

#[test]
fn counts_are_kept() {
    for alg in CacheAlgorithmType::all() {
        let mut c = ObjectCache::new(alg, 3);
        c.put("a", object("a"));
        c.get("a");
        c.get("a");
        c.get("x");
        let s: CacheStats = c.stats();
        assert_eq!((s.hits, s.misses, s.evictions), (2, 1, 0));
        assert_eq!((s.size, s.capacity), (1, 3));
        assert_eq!(s.algorithm, alg.as_str());
        assert_eq!(c.get_access_frequencies().get("a"), Some(&2));
        assert_eq!(c.get_access_frequencies().get("x"), Some(&1));
        assert!(c.can_count("a") && c.is_usable());
        c.reset_stats();
        assert_eq!(c.stats().hits, 0);
        assert_eq!(c.get_access_frequencies().get("a"), Some(&2));
    }
}

#[test]
fn removal_and_clearing() {
    for alg in CacheAlgorithmType::all() {
        let mut c = ObjectCache::new(alg, 3);
        c.put("a", object("a"));
        c.put("b", object("b"));
        assert_eq!(c.remove("a").unwrap().uuid, "a");
        assert!(c.remove("a").is_none());
        assert!(c.get("b").is_some());
        c.clear();
        assert_eq!(c.len(), 0);
        assert!(c.get("b").is_none());
    }
}

#[test]
fn resizing_drops_by_the_policy() {
    let mut lru = ObjectCache::new(CacheAlgorithmType::Lru, 3);
    let mut fifo = ObjectCache::new(CacheAlgorithmType::Fifo, 3);
    let mut lfu = ObjectCache::new(CacheAlgorithmType::Lfu, 3);
    for c in [&mut lru, &mut fifo, &mut lfu] {
        c.put("a", object("a"));
        c.put("b", object("b"));
        c.put("c", object("c"));
        c.get("a");
        c.resize(1);
        assert_eq!((c.len(), c.capacity()), (1, 1));
    }
    assert!(lru.get("a").is_some());
    assert!(fifo.get("c").is_some());
    assert!(lfu.get("a").is_some());
    lru.resize(0);
    assert_eq!(lru.capacity(), 1);
    assert_eq!(ObjectCache::new(CacheAlgorithmType::Lfu, 0).capacity(), 1);
}

#[test]
fn warming_up_inserts_in_order() {
    let mut c = ObjectCache::new(CacheAlgorithmType::Fifo, 2);
    c.warm_up(vec![
        ("a".to_string(), object("a")),
        ("b".to_string(), object("b")),
        ("c".to_string(), object("c")),
    ]);
    assert!(c.get("a").is_none());
    assert!(c.get("b").is_some() && c.get("c").is_some());
}

#[test]
fn names_of_policies() {
    assert_eq!(CacheAlgorithmType::from_str("FIFO"), CacheAlgorithmType::Fifo);
    assert_eq!(CacheAlgorithmType::from_str("Lfu"), CacheAlgorithmType::Lfu);
    assert_eq!(CacheAlgorithmType::from_str("lru"), CacheAlgorithmType::Lru);
    assert_eq!(CacheAlgorithmType::from_str("what"), CacheAlgorithmType::Lru);
    for alg in CacheAlgorithmType::all() {
        assert_eq!(CacheAlgorithmType::from_str(alg.as_str()), alg);
    }
}

#[test]
fn the_policies_alone() {
    let mut a = FifoCache::new(2);
    let mut b = LfuCache::new(2);
    let mut c = LruCacheImpl::new(2);
    a.put("x", object("x"));
    b.put("x", object("x"));
    c.put("x", object("x"));
    assert!(a.contains("x") && b.contains("x") && c.contains("x"));
    assert_eq!((a.len(), b.len(), c.len()), (1, 1, 1));
    assert!(a.get("x").is_some() && b.get("x").is_some() && c.get("x").is_some());
    assert!(a.remove("x").is_some() && b.remove("x").is_some() && c.remove("x").is_some());
    assert!(!a.contains("x") && !b.contains("x") && !c.contains("x"));
    assert_eq!((a.capacity(), b.capacity(), c.capacity()), (2, 2, 2));
}

fn workload_by_floats(objects: &[String], iterations: usize, counts: &[u64]) -> Vec<String> {
    let weights: Vec<f64> = counts.iter().map(|c| (c + 1) as f64).collect();
    let total: f64 = weights.iter().sum();
    let mut acc = 0.0;
    let cum: Vec<f64> = weights
        .iter()
        .map(|w| {
            acc += w;
            acc / total
        })
        .collect();
    let mut seed = iterations as u64 * objects.len() as u64 + 12345;
    let mut out = Vec::new();
    for _ in 0..iterations {
        seed = seed.wrapping_mul(6364136223846793005).wrapping_add(1442695040888963407);
        let r = (seed >> 32) as f64 / (u32::MAX as f64);
        for (j, &c) in cum.iter().enumerate() {
            if r <= c {
                out.push(objects[j].clone());
                break;
            }
        }
    }
    out
}

#[test]
fn a_workload_follows_the_weights() {
    let objects: Vec<String> = (0..7).map(|i| format!("k{}", i)).collect();
    let mut c = ObjectCache::new(CacheAlgorithmType::Lru, 3);
    let counts = [0u64, 3, 1, 0, 12, 5, 2];
    for (k, n) in objects.iter().zip(counts) {
        for _ in 0..n {
            c.get(k);
        }
    }
    let w = generate_weighted_workload(&objects, 1000, c.get_access_frequencies());
    assert_eq!(w, workload_by_floats(&objects, 1000, &counts));
}

#[test]
fn a_long_workload_follows_the_weights() {
    let objects: Vec<String> = (0..61).map(|i| format!("k{}", i)).collect();
    let counts: Vec<u64> = (0..61).map(|i| i * i % 37).collect();
    let mut c = ObjectCache::new(CacheAlgorithmType::Fifo, 3);
    for (k, n) in objects.iter().zip(&counts) {
        for _ in 0..*n {
            c.get(k);
        }
    }
    let w = generate_weighted_workload(&objects, 20_000, c.get_access_frequencies());
    assert_eq!(w, workload_by_floats(&objects, 20_000, &counts));
    let few = w.iter().filter(|k| *k == "k7").count();
    for _ in 0..40 {
        c.get("k7");
    }
    let heavier = generate_weighted_workload(&objects, 20_000, c.get_access_frequencies());
    let more = heavier.iter().filter(|k| *k == "k7").count();
    assert!(more > few);
    for (a, b) in w.iter().zip(&heavier) {
        assert!(a != "k7" || b == "k7");
    }
}

#[test]
fn shares_are_rounded_like_floats() {
    let wide = 1u128 << 96;
    for (num, den) in [
        (1u128, 3u128),
        (2, 3),
        (1, 1),
        (12345, 4294967295),
        (4294967294, 4294967295),
        (9007199254740991, 9007199254740992),
        (1 << 53, (1 << 64) + 4096),
        (wide - (1 << 50), wide),
        (wide / 7 - wide / 7 % (1 << 50), wide),
    ] {
        let (m, s) = share(num, den).unwrap();
        assert_eq!(m as f64 / s as f64, num as f64 / den as f64, "{} / {}", num, den);
        assert!(m >= 1 << 52 && m <= 1 << 53);
    }
    assert_eq!(share(1, 3).unwrap(), (6004799503160661, 1 << 54));
    assert_eq!(share(1, 1 << 35).unwrap(), (1 << 52, 1 << 87));
    assert!(share(1, 1 << 36).is_none());
}

#[test]
fn a_workload_has_the_asked_length_and_known_keys() {
    let objects: Vec<String> = (0..5).map(|i| format!("k{}", i)).collect();
    let c = ObjectCache::new(CacheAlgorithmType::Lru, 3);
    let w = generate_weighted_workload(&objects, 300, c.get_access_frequencies());
    assert_eq!(w.len(), 300);
    assert!(w.iter().all(|k| objects.contains(k)));
    assert_eq!(w, generate_weighted_workload(&objects, 300, c.get_access_frequencies()));
    let none: Vec<String> = Vec::new();
    assert!(generate_weighted_workload(&none, 10, c.get_access_frequencies()).is_empty());
    assert_eq!(w, workload_by_floats(&objects, 300, &[0; 5]));
}

#[test]
fn trials_count_every_access() {
    let objects: Vec<String> = (0..9).map(|i| format!("k{}", i)).collect();
    let mut c = ObjectCache::new(CacheAlgorithmType::Lru, 3);
    for _ in 0..20 {
        c.get("k1");
    }
    let w = generate_weighted_workload(&objects, 200, c.get_access_frequencies());
    let often = w.iter().filter(|k| *k == "k1").count();
    assert!(often > 200 / 9, "{}", often);
    for row in run_trials(3, &w) {
        assert_eq!(row.hits + row.misses, 200);
        let again = run_trial(row.algorithm, 3, &w);
        assert_eq!((again.hits, again.misses, again.evictions), (row.hits, row.misses, row.evictions));
    }
    let ranked = rank(&run_trials(3, &w));
    assert_eq!(ranked.len(), 3);
    assert!(ranked[0].hits >= ranked[1].hits && ranked[1].hits >= ranked[2].hits);
    let entries = entries_from(&ranked);
    assert_eq!(entries[0].algorithm, ranked[0].algorithm.as_str());
    let rows = sweep_rows_from(&rank(&run_sweep(&w)));
    assert_eq!(rows.len(), 27);
    for pair in rows.windows(2) {
        assert!(pair[0].hits >= pair[1].hits);
    }
}

#[test]
fn more_room_and_the_counts_of_a_trial() {
    let objects: Vec<String> = (0..23).map(|i| format!("k{}", i)).collect();
    let mut c = ObjectCache::new(CacheAlgorithmType::Lru, 3);
    for _ in 0..9 {
        c.get("k4");
        c.get("k11");
    }
    let w = generate_weighted_workload(&objects, 500, c.get_access_frequencies());
    let mut different = w.clone();
    different.sort();
    different.dedup();
    let mut last = 0;
    for capacity in 0..30 {
        let row = run_trial(CacheAlgorithmType::Lru, capacity, &w);
        assert!(row.hits >= last, "{}", capacity);
        last = row.hits;
        for row in run_trials(capacity, &w) {
            assert!(row.misses >= different.len() as u64);
            if capacity >= different.len() {
                assert_eq!((row.misses, row.evictions), (different.len() as u64, 0));
            }
            let size = row.misses - row.evictions;
            assert_eq!(size, different.len().min(capacity.max(1)) as u64);
        }
    }
}

#[test]
fn entries_are_used_as_often_as_can_be_counted() {
    let mut c = ObjectCache::new(CacheAlgorithmType::Lfu, 2);
    assert!(c.is_usable_for(u64::MAX));
    c.put("a", object("a"));
    c.get("a");
    assert!(c.is_usable() && c.is_usable_for(u64::MAX - 2));
    assert!(!c.is_usable_for(u64::MAX - 1));
    let mut c = ObjectCache::new(CacheAlgorithmType::Fifo, 2);
    c.put("a", object("a"));
    c.get("a");
    assert!(c.is_usable_for(u64::MAX));
}

#[test]
fn a_trial_starts_cold() {
    let keys: Vec<String> = ["a", "b", "a", "b"].iter().map(|s| s.to_string()).collect();
    let row = run_trial(CacheAlgorithmType::Lru, 2, &keys);
    assert_eq!((row.hits, row.misses, row.evictions), (2, 2, 0));
    let row = run_trial(CacheAlgorithmType::Lru, 1, &keys);
    assert_eq!((row.hits, row.misses, row.evictions), (0, 4, 3));
}

#[test]
fn hit_rates_are_percentages() {
    let mut c = ObjectCache::new(CacheAlgorithmType::Fifo, 2);
    assert_eq!(c.stats().hit_rate(), "0.00");
    c.put("a", object("a"));
    assert!(c.get("a").is_some() && c.get("a").is_some() && c.get("b").is_none());
    assert_eq!(c.stats().hit_rate(), "66.67");
    assert_eq!(c.stats().rough_hit_rate(), "66.7");
}
