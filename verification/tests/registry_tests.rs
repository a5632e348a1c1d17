use fondue::{
    cache_clear_all, cache_clear_namespace, cache_get, cache_get_with_limit, cache_get_with_ttl,
    cache_get_with_ttl_and_limit, cache_invalidate, CacheRegistry, TtlType,
};

#[test]
fn cache_get_computes_then_caches() {
    let mut reg = CacheRegistry::new();
    let mut calls = 0u32;
    let v = cache_get(&mut reg, "ns", "answer", || {
        calls += 1;
        "42".to_string()
    });
    assert_eq!(v, "42");
    assert_eq!(calls, 1);
    // entries without a TTL never expire, so this is a hit
    let v2 = cache_get(&mut reg, "ns", "answer", || unreachable!());
    assert_eq!(v2, "42");
    assert_eq!(reg.cache_count(), 1);
}

#[test]
fn distinct_namespaces_use_distinct_caches() {
    let mut reg = CacheRegistry::new();
    let a = cache_get(&mut reg, "one", "k", || "1".to_string());
    let b = cache_get(&mut reg, "two", "k", || "2".to_string());
    assert_eq!(a, "1");
    assert_eq!(b, "2");
    assert_eq!(reg.cache_count(), 2);
    assert_eq!(cache_get(&mut reg, "one", "k", || unreachable!()), "1");
    assert_eq!(cache_get(&mut reg, "two", "k", || unreachable!()), "2");
}

#[test]
fn distinct_policies_use_distinct_caches() {
    let mut reg = CacheRegistry::new();
    cache_get(&mut reg, "ns", "k", || "plain".to_string());
    let v = cache_get_with_ttl(&mut reg, "ns", "k", 60_000_000_000, TtlType::Fixed, || {
        "with_ttl".to_string()
    });
    assert_eq!(v, "with_ttl");
    assert_eq!(reg.cache_count(), 2);
}

#[test]
fn ttl_cache_serves_before_expiry() {
    let mut reg = CacheRegistry::new();
    let v = cache_get_with_ttl(&mut reg, "t", "k", 60_000_000_000, TtlType::Sliding, || {
        "v".to_string()
    });
    assert_eq!(v, "v");
    let v2 = cache_get_with_ttl(&mut reg, "t", "k", 60_000_000_000, TtlType::Sliding, || {
        unreachable!()
    });
    assert_eq!(v2, "v");
}

#[test]
fn limited_cache_keeps_at_most_limit() {
    let mut reg = CacheRegistry::new();
    for i in 0..5u32 {
        cache_get_with_limit(&mut reg, "lim", &format!("k{}", i), 2, || format!("v{}", i));
    }
    // the single cache for this namespace exists and was bounded throughout
    assert_eq!(reg.cache_count(), 1);
    let v = cache_get_with_ttl_and_limit(
        &mut reg,
        "both",
        "k",
        60_000_000_000,
        3,
        TtlType::Fixed,
        || "x".to_string(),
    );
    assert_eq!(v, "x");
    assert_eq!(reg.cache_count(), 2);
}

#[test]
fn invalidate_hits_matching_namespaces_only() {
    let mut reg = CacheRegistry::new();
    cache_get(&mut reg, "app", "k", || "1".to_string());
    cache_get(&mut reg, "other", "k", || "2".to_string());
    assert!(!cache_invalidate(&mut reg, "app", "missing"));
    assert!(cache_invalidate(&mut reg, "app", "k"));
    // recomputation happens only in the invalidated namespace
    let mut recomputed = false;
    let v = cache_get(&mut reg, "app", "k", || {
        recomputed = true;
        "1b".to_string()
    });
    assert_eq!(v, "1b");
    assert!(recomputed);
    assert_eq!(cache_get(&mut reg, "other", "k", || unreachable!()), "2");
}

#[test]
fn clear_all_empties_every_cache() {
    let mut reg = CacheRegistry::new();
    cache_get(&mut reg, "a", "k", || "1".to_string());
    cache_get(&mut reg, "b", "k", || "2".to_string());
    cache_clear_all(&mut reg);
    let mut recomputed = 0u32;
    cache_get(&mut reg, "a", "k", || {
        recomputed += 1;
        "1".to_string()
    });
    cache_get(&mut reg, "b", "k", || {
        recomputed += 1;
        "2".to_string()
    });
    assert_eq!(recomputed, 2);
}

#[test]
fn clear_namespace_leaves_others() {
    let mut reg = CacheRegistry::new();
    cache_get(&mut reg, "keep", "k", || "1".to_string());
    cache_get(&mut reg, "drop", "k", || "2".to_string());
    cache_clear_namespace(&mut reg, "drop");
    assert_eq!(cache_get(&mut reg, "keep", "k", || unreachable!()), "1");
    let mut recomputed = false;
    cache_get(&mut reg, "drop", "k", || {
        recomputed = true;
        "2b".to_string()
    });
    assert!(recomputed);
}
