use fondue::{Cache, CacheEntry, EvictionPolicy, TtlType};

#[test]
fn no_eviction_table_only_grows() {
    let mut c = Cache::new();
    for i in 0..100u32 {
        c.insert_at(format!("k{}", i), format!("v{}", i), i as u64);
    }
    assert_eq!(c.len(), 100);
    for i in 0..100u32 {
        let got = c.get_if_cached_at(&format!("k{}", i), 1_000);
        assert_eq!(got, Some(format!("v{}", i)));
    }
    assert_eq!(c.len(), 100);
}

#[test]
fn bounded_recency_scenario() {
    // capacity two: A, then B, then C leaves {B, C}; after a read of B,
    // inserting D evicts C and leaves {B, D}
    let mut c = Cache::with_policy(EvictionPolicy::Lru(2));
    c.insert_at("A".to_string(), "1".to_string(), 1);
    c.insert_at("B".to_string(), "2".to_string(), 2);
    c.insert_at("C".to_string(), "3".to_string(), 3);
    assert_eq!(c.len(), 2);
    assert_eq!(c.get_if_cached_at("A", 4), None);
    assert_eq!(c.get_if_cached_at("B", 5), Some("2".to_string()));
    assert_eq!(c.get_if_cached_at("C", 6), Some("3".to_string()));
    // touch B so that C is the least recently used entry
    assert_eq!(c.get_if_cached_at("B", 7), Some("2".to_string()));
    c.insert_at("D".to_string(), "4".to_string(), 8);
    assert_eq!(c.len(), 2);
    assert_eq!(c.get_if_cached_at("C", 9), None);
    assert_eq!(c.get_if_cached_at("B", 10), Some("2".to_string()));
    assert_eq!(c.get_if_cached_at("D", 11), Some("4".to_string()));
}

#[test]
fn fixed_ttl_scenario() {
    // 200ms fixed TTL: a read at 100ms hits, a read at 250ms recomputes
    let mut c = Cache::with_policy(EvictionPolicy::Ttl {
        duration: 200_000_000,
        ttl_type: TtlType::Fixed,
    });
    let v = c.get_at("K", || "1".to_string(), 0);
    assert_eq!(v, "1");
    assert_eq!(c.miss_count(), 1);
    let v = c.get_at("K", || unreachable!(), 100_000_000);
    assert_eq!(v, "1");
    assert_eq!(c.hit_count(), 1);
    let v = c.get_at("K", || "2".to_string(), 250_000_000);
    assert_eq!(v, "2");
    assert_eq!(c.miss_count(), 2);
}

#[test]
fn fixed_ttl_expires_despite_reads() {
    let mut c = Cache::with_policy(EvictionPolicy::Ttl {
        duration: 100,
        ttl_type: TtlType::Fixed,
    });
    c.insert_at("k".to_string(), "v".to_string(), 0);
    assert_eq!(c.get_if_cached_at("k", 50), Some("v".to_string()));
    assert_eq!(c.get_if_cached_at("k", 99), Some("v".to_string()));
    // reads refreshed last_accessed, but a fixed TTL runs from creation
    assert_eq!(c.get_if_cached_at("k", 100), None);
    assert_eq!(c.len(), 0);
}

#[test]
fn sliding_ttl_reads_keep_alive() {
    let mut c = Cache::with_policy(EvictionPolicy::Ttl {
        duration: 100,
        ttl_type: TtlType::Sliding,
    });
    c.insert_at("k".to_string(), "v".to_string(), 0);
    // gaps of 90 stay strictly under the duration
    assert_eq!(c.get_if_cached_at("k", 90), Some("v".to_string()));
    assert_eq!(c.get_if_cached_at("k", 180), Some("v".to_string()));
    assert_eq!(c.get_if_cached_at("k", 270), Some("v".to_string()));
    // a gap of exactly the duration expires the entry
    assert_eq!(c.get_if_cached_at("k", 370), None);
    assert_eq!(c.len(), 0);
}

#[test]
fn compute_runs_once_and_result_is_cached() {
    let mut c = Cache::new();
    let mut calls = 0u32;
    let v = c.get_at(
        "k",
        || {
            calls += 1;
            "value".to_string()
        },
        0,
    );
    assert_eq!(v, "value");
    assert_eq!(calls, 1);
    // a later lookup returns the identical value without recomputation
    let v2 = c.get_at("k", || unreachable!(), 1_000_000);
    assert_eq!(v2, "value");
    assert_eq!(c.hit_count(), 1);
    assert_eq!(c.miss_count(), 1);
}

#[test]
fn invalidate_absent_and_present() {
    let mut c = Cache::new();
    assert!(!c.invalidate("missing"));
    assert_eq!(c.hit_count(), 0);
    assert_eq!(c.miss_count(), 0);
    c.insert_at("k".to_string(), "v".to_string(), 0);
    assert!(c.invalidate("k"));
    assert_eq!(c.get_if_cached_at("k", 1), None);
    assert_eq!(c.hit_count(), 0);
    assert_eq!(c.miss_count(), 0);
}

#[test]
fn hit_rate_zero_without_requests() {
    let c = Cache::new();
    assert_eq!(c.hit_count(), 0);
    assert_eq!(c.miss_count(), 0);
    assert_eq!(c.hit_rate_permyriad(), 0);
}

#[test]
fn hit_rate_counts_hits_and_misses() {
    let mut c = Cache::new();
    c.get_at("a", || "1".to_string(), 0);
    c.get_at("a", || unreachable!(), 1);
    c.get_at("a", || unreachable!(), 2);
    c.get_at("b", || "2".to_string(), 3);
    // two hits out of four requests
    assert_eq!(c.hit_count(), 2);
    assert_eq!(c.miss_count(), 2);
    assert_eq!(c.hit_rate_permyriad(), 5000);
}

#[test]
fn insert_overwrites_and_resets() {
    let mut c = Cache::new();
    c.insert_at("k".to_string(), "old".to_string(), 0);
    assert_eq!(c.get_if_cached_at("k", 1), Some("old".to_string()));
    c.insert_at("k".to_string(), "new".to_string(), 2);
    assert_eq!(c.get_if_cached_at("k", 3), Some("new".to_string()));
    assert_eq!(c.len(), 1);
}

#[test]
fn clear_removes_everything_and_keeps_counters() {
    let mut c = Cache::new();
    c.get_at("a", || "1".to_string(), 0);
    c.insert_at("b".to_string(), "2".to_string(), 1);
    assert_eq!(c.len(), 2);
    c.clear();
    assert_eq!(c.len(), 0);
    assert!(c.is_empty());
    assert_eq!(c.miss_count(), 1);
}

#[test]
fn combined_policy_bounds_and_expires() {
    let mut c = Cache::with_policy(EvictionPolicy::LruTtl {
        limit: 2,
        duration: 100,
        ttl_type: TtlType::Fixed,
    });
    c.insert_at("a".to_string(), "1".to_string(), 0);
    c.insert_at("b".to_string(), "2".to_string(), 1);
    c.insert_at("c".to_string(), "3".to_string(), 2);
    assert_eq!(c.len(), 2);
    // everything expires 100 after creation; the next insert sweeps
    c.insert_at("d".to_string(), "4".to_string(), 150);
    assert_eq!(c.len(), 1);
    assert_eq!(c.get_if_cached_at("d", 160), Some("4".to_string()));
}

#[test]
fn zero_ttl_expires_immediately() {
    let mut c = Cache::with_policy(EvictionPolicy::Ttl {
        duration: 0,
        ttl_type: TtlType::Fixed,
    });
    let v = c.get_at("k", || "1".to_string(), 5);
    assert_eq!(v, "1");
    assert_eq!(c.len(), 0);
}

#[test]
fn entry_expiry_rules() {
    let e: CacheEntry<String> =
        CacheEntry::new("v".to_string(), Some(100), Some(TtlType::Fixed), 10);
    assert!(!e.is_expired(10));
    assert!(!e.is_expired(109));
    assert!(e.is_expired(110));
    let bare: CacheEntry<String> = CacheEntry::new("v".to_string(), None, None, 10);
    assert!(!bare.is_expired(u64::MAX));
}

#[test]
fn entry_touch_updates_metadata() {
    let mut e: CacheEntry<String> =
        CacheEntry::new("v".to_string(), Some(100), Some(TtlType::Sliding), 10);
    assert_eq!(e.access_count, 0);
    e.touch(50);
    assert_eq!(e.access_count, 1);
    assert_eq!(e.last_accessed, 50);
    assert_eq!(e.created_at, 10);
    // a touch never moves last_accessed backward
    e.touch(40);
    assert_eq!(e.access_count, 2);
    assert_eq!(e.last_accessed, 50);
    assert!(!e.is_expired(149));
    assert!(e.is_expired(150));
}

#[test]
fn clocked_operations_work() {
    let mut c = Cache::new();
    c.insert("k".to_string(), "v".to_string());
    assert_eq!(c.get_if_cached("k"), Some("v".to_string()));
    let v = c.get("k2", || "w".to_string());
    assert_eq!(v, "w");
    assert_eq!(c.len(), 2);
}
