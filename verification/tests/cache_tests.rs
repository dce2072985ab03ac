//! The store with a cache in front.

use ipv8plus::codec::header::IPv8Address;
use ipv8plus::resolver::cache::{CacheConfig, CachedStore};
use ipv8plus::resolver::list::TextList;
use ipv8plus::resolver::record::{Entry, NodeRecord};
use ipv8plus::resolver::store::{MemStore, Store};

const NOW: u64 = 1_000_000;

fn test_addr(i: u8) -> IPv8Address {
    IPv8Address::new(0xFB14_0000, i as u32, 0, 0, 0)
}

fn make_entry(seed: u8) -> Entry {
    Entry {
        ed_pub: [seed; 32],
        rec: NodeRecord {
            tunnel_entry: format!("10.0.0.{}:4000", seed),
            alt_entries: TextList::new(vec![]),
            ipv8_capable: true,
            mtu: 1432,
            registered_at: NOW,
            ttl: 300_000,
            observed: None,
            local_candidates: TextList::new(vec![]),
        },
    }
}

#[test]
fn p2_cache_hit_on_write_through() {
    let mem = MemStore::default();
    let mut cache = CachedStore::new(mem, CacheConfig::default());

    let addr = test_addr(1);
    cache.insert(addr, make_entry(1));

    let got = cache.get(&addr, NOW).unwrap();
    assert_eq!(got.ed_pub, [1; 32]);

    let stats = cache.stats();
    assert_eq!(stats.hits, 1);
    assert_eq!(stats.misses, 0);
    assert_eq!(stats.writes, 1);
}

#[test]
fn p2_cache_miss_then_backfilled() {
    let mut mem = MemStore::default();
    let addr = test_addr(2);
    mem.insert(addr, make_entry(2));

    let mut cache = CachedStore::new(mem, CacheConfig::default());

    let got = cache.get(&addr, NOW).unwrap();
    assert_eq!(got.ed_pub, [2; 32]);
    assert_eq!(cache.stats().misses, 1);
    assert_eq!(cache.stats().hits, 0);

    let got2 = cache.get(&addr, NOW).unwrap();
    assert_eq!(got2.ed_pub, [2; 32]);
    assert_eq!(cache.stats().hits, 1);
    assert_eq!(cache.stats().misses, 1);
}

#[test]
fn p2_negative_caching_prevents_penetration() {
    let mem = MemStore::default();
    let mut cache = CachedStore::new(
        mem,
        CacheConfig {
            max_entries: 100,
            negative_ttl: 5_000,
        },
    );

    let addr = test_addr(99);

    assert!(cache.get(&addr, NOW).is_none());
    assert_eq!(cache.stats().misses, 1);
    assert_eq!(cache.stats().negative_hits, 0);

    assert!(cache.get(&addr, NOW).is_none());
    assert_eq!(cache.stats().negative_hits, 1);
    assert_eq!(cache.stats().misses, 1);
}

#[test]
fn p2_insert_clears_negative_cache() {
    let mem = MemStore::default();
    let mut cache = CachedStore::new(
        mem,
        CacheConfig {
            max_entries: 100,
            negative_ttl: 5_000,
        },
    );

    let addr = test_addr(5);

    assert!(cache.get(&addr, NOW).is_none());
    assert!(cache.get(&addr, NOW).is_none());
    assert_eq!(cache.stats().negative_hits, 1);

    cache.insert(addr, make_entry(5));

    let got = cache.get(&addr, NOW).unwrap();
    assert_eq!(got.ed_pub, [5; 32]);
    assert_eq!(cache.stats().hits, 1);
}

#[test]
fn p2_lru_eviction_when_over_capacity() {
    let mem = MemStore::default();
    let mut cache = CachedStore::new(
        mem,
        CacheConfig {
            max_entries: 3,
            negative_ttl: 10_000,
        },
    );

    for i in 0..5u8 {
        cache.insert(test_addr(i), make_entry(i));
    }

    assert_eq!(cache.cache_len(), 3);

    assert!(!cache.cache_contains(&test_addr(0)), "addr 0 should be evicted from cache");
    assert!(!cache.cache_contains(&test_addr(1)), "addr 1 should be evicted from cache");
    assert!(cache.cache_contains(&test_addr(2)));
    assert!(cache.cache_contains(&test_addr(3)));
    assert!(cache.cache_contains(&test_addr(4)));

    let got0 = cache.get(&test_addr(0), NOW);
    assert!(got0.is_some(), "evicted entry still available from underlying store");
    assert!(cache.cache_contains(&test_addr(0)));
}

#[test]
fn p2_sweep_expired_clears_both_layers() {
    let mem = MemStore::default();
    let mut cache = CachedStore::new(mem, CacheConfig::default());

    let addr = test_addr(7);
    let mut entry = make_entry(7);
    entry.rec.ttl = 1_000;
    entry.rec.registered_at = NOW - 60_000;
    cache.insert(addr, entry);

    assert!(cache.get(&addr, NOW).is_some());
    assert_eq!(cache.cache_len(), 1);

    let removed = cache.sweep_expired(NOW);
    assert!(removed > 0);

    assert!(cache.get(&addr, NOW).is_none());
    assert_eq!(cache.cache_len(), 0);
}

#[test]
fn p2_read_through_pattern() {
    let mut mem = MemStore::default();
    for i in 0..10u8 {
        mem.insert(test_addr(i), make_entry(i));
    }

    let mut cache = CachedStore::new(mem, CacheConfig::default());

    for i in 0..10u8 {
        let got = cache.get(&test_addr(i), NOW).unwrap();
        assert_eq!(got.ed_pub, [i; 32]);
    }
    assert_eq!(cache.stats().misses, 10);
    assert_eq!(cache.stats().hits, 0);

    for i in 0..10u8 {
        let got = cache.get(&test_addr(i), NOW).unwrap();
        assert_eq!(got.ed_pub, [i; 32]);
    }
    assert_eq!(cache.stats().hits, 10);
    assert_eq!(cache.stats().misses, 10);
}

#[test]
fn p2_access_order_affects_lru() {
    let mem = MemStore::default();
    let mut cache = CachedStore::new(
        mem,
        CacheConfig {
            max_entries: 3,
            negative_ttl: 10_000,
        },
    );

    for i in 0..3u8 {
        cache.insert(test_addr(i), make_entry(i));
    }

    let _ = cache.get(&test_addr(0), NOW);

    cache.insert(test_addr(3), make_entry(3));

    assert_eq!(cache.cache_len(), 3);
    assert!(
        !cache.cache_contains(&test_addr(1)),
        "addr 1 should be evicted from cache (LRU, not accessed)"
    );
    assert!(
        cache.cache_contains(&test_addr(0)),
        "addr 0 was touched, should survive"
    );
    assert!(cache.cache_contains(&test_addr(2)));
    assert!(cache.cache_contains(&test_addr(3)));

    let got1 = cache.get(&test_addr(1), NOW);
    assert!(got1.is_some(), "evicted addr 1 still in underlying store");
}

#[test]
fn p2_repeated_access_preserves_hot_keys() {
    let mem = MemStore::default();
    let mut cache = CachedStore::new(
        mem,
        CacheConfig {
            max_entries: 3,
            negative_ttl: 10_000,
        },
    );

    for i in 0..3u8 {
        cache.insert(test_addr(i), make_entry(i));
    }

    for _ in 0..10 {
        let _ = cache.get(&test_addr(0), NOW);
    }

    for i in 3..6u8 {
        cache.insert(test_addr(i), make_entry(i));
    }

    assert!(
        cache.get(&test_addr(0), NOW).is_some(),
        "hot key 0 should survive repeated evictions"
    );
    assert_eq!(cache.cache_len(), 3);
}
