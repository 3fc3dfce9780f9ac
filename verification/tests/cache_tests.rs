//! The cache component: lookups, hit/miss accounting, get-or-compute.

use jsonschema_validator::cache::{Cache, Stats};

#[test]
fn test_cache_flows() {
    let mut cache: Cache<i32, i32> = Cache::new();
    assert_eq!(cache.get(&0), None);
    assert_eq!(cache.stats(), Stats { hits: 0, misses: 1 });
    assert_eq!(cache.get(&1), None);
    assert_eq!(cache.stats(), Stats { hits: 0, misses: 2 });

    cache.set(1, 2);
    cache.set(2, 0);

    assert_eq!(cache.get(&0), None);
    assert_eq!(cache.stats(), Stats { hits: 0, misses: 3 });
    assert_eq!(cache.get(&1), Some(&2));
    assert_eq!(cache.stats(), Stats { hits: 1, misses: 3 });
    assert_eq!(cache.get(&2), Some(&0));
    assert_eq!(cache.stats(), Stats { hits: 2, misses: 3 });

    assert_eq!(cache.get(&5), None);
    assert_eq!(cache.stats(), Stats { hits: 2, misses: 4 });
    assert_eq!(cache.get_or_fetch(5, |k| k * k), &25);
    assert_eq!(cache.stats(), Stats { hits: 2, misses: 5 });
    assert_eq!(cache.get_or_fetch(5, |_| 0), &25);
    assert_eq!(cache.stats(), Stats { hits: 3, misses: 5 });

    if let Err(val) = cache.get_or_fetch_with_result(42, |&k| Err::<i32, i32>(k)) {
        assert_eq!(val, 42);
    } else {
        panic!("An error was expected during get_or_fetch_with_result call");
    }
}

#[test]
fn cache_set_remove_clear_size() {
    let mut cache: Cache<i32, i32> = Cache::new();
    cache.set(1, 10);
    cache.set(2, 20);
    assert_eq!(cache.size(), 2);
    cache.set(1, 11);
    assert_eq!(cache.size(), 2);
    assert_eq!(cache.get(&1), Some(&11));
    cache.remove(&1);
    assert_eq!(cache.size(), 1);
    assert_eq!(cache.get(&1), None);
    cache.clear();
    assert_eq!(cache.size(), 0);
    assert_eq!(cache.hits(), 0);
    assert_eq!(cache.misses(), 0);
}

#[test]
fn stats_counts_and_clear() {
    let mut stats = Stats::new();
    stats.register_hit();
    stats.register_miss();
    stats.register_miss();
    assert_eq!(stats.get_hits(), 1);
    assert_eq!(stats.get_misses(), 2);
    stats.clear();
    assert_eq!(stats.get_hits(), 0);
    assert_eq!(stats.get_misses(), 0);
}

#[test]
fn get_or_fetch_with_result_stores_on_success() {
    let mut cache: Cache<i32, i32> = Cache::new();
    assert_eq!(cache.get_or_fetch_with_result(7, |k| Ok::<i32, i32>(k + 1)), Ok(&8));
    assert_eq!(cache.size(), 1);
    // A failed fetch stores nothing.
    assert!(cache.get_or_fetch_with_result(9, |k| Err::<i32, i32>(*k)).is_err());
    assert_eq!(cache.size(), 1);
}
