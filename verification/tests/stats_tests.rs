use fondue::{
    aggregate_stats, clear_stats, export_json, get_stats, register_stats, truncate_string,
    update_stats, Cache, CacheStats, GlobalStats,
};

#[test]
fn test_cache_stats() {
    let mut stats = CacheStats::new("test_cache".to_string());
    stats.hits = 80;
    stats.misses = 20;
    stats.entries = 50;
    assert_eq!(stats.total_requests(), 100);
    assert_eq!(stats.hit_rate_permyriad(), 8000);
    let json = stats.to_json();
    assert!(json.contains("\"name\": \"test_cache\""));
    assert!(json.contains("\"hits\": 80"));
}

#[test]
fn test_global_stats() {
    let mut global = GlobalStats::new();
    let stats1 = CacheStats { name: "cache1".to_string(), hits: 50, misses: 10, entries: 30 };
    let stats2 = CacheStats { name: "cache2".to_string(), hits: 30, misses: 20, entries: 25 };
    global.register("cache1".to_string(), stats1);
    global.register("cache2".to_string(), stats2);
    let aggregate = global.aggregate();
    assert_eq!(aggregate.hits, 80);
    assert_eq!(aggregate.misses, 30);
    assert_eq!(aggregate.entries, 55);
    assert_eq!(aggregate.name, "AGGREGATE");
    let retrieved = global.get("cache1").unwrap();
    assert_eq!(retrieved.name, "cache1");
    assert_eq!(retrieved.hits, 50);
}

#[test]
fn test_truncate_string() {
    assert_eq!(truncate_string("short", 10), "short");
    assert_eq!(truncate_string("this_is_a_very_long_string", 10), "this_is...");
}

#[test]
fn truncate_tiny_limit() {
    assert_eq!(truncate_string("abcdef", 2), "...");
    assert_eq!(truncate_string("abc", 3), "abc");
    assert_eq!(truncate_string("abcd", 3), "...");
}

#[test]
fn json_rendering_is_exact() {
    let stats = CacheStats { name: "c".to_string(), hits: 3, misses: 1, entries: 2 };
    let json = stats.to_json();
    assert_eq!(
        json,
        "{\n  \"name\": \"c\",\n  \"hits\": 3,\n  \"misses\": 1,\n  \"entries\": 2,\n  \"hit_rate\": 0.7500,\n  \"total_requests\": 4\n}"
    );
}

#[test]
fn export_json_lists_all() {
    let mut global = GlobalStats::new();
    assert_eq!(export_json(&global), "[\n\n]");
    register_stats(
        &mut global,
        "a".to_string(),
        CacheStats { name: "a".to_string(), hits: 1, misses: 0, entries: 1 },
    );
    register_stats(
        &mut global,
        "b".to_string(),
        CacheStats { name: "b".to_string(), hits: 0, misses: 2, entries: 0 },
    );
    let json = export_json(&global);
    assert!(json.starts_with("[\n{"));
    assert!(json.contains("\"name\": \"a\""));
    assert!(json.contains("\"name\": \"b\""));
    assert!(json.contains("},\n{"));
    assert!(json.ends_with("}\n]"));
}

#[test]
fn register_replaces_under_same_name() {
    let mut global = GlobalStats::new();
    global.register(
        "c".to_string(),
        CacheStats { name: "c".to_string(), hits: 1, misses: 1, entries: 1 },
    );
    update_stats(
        &mut global,
        "c",
        CacheStats { name: "c".to_string(), hits: 9, misses: 9, entries: 9 },
    );
    let got = get_stats(&global, "c").unwrap();
    assert_eq!(got.hits, 9);
    assert_eq!(global.all().len(), 1);
}

#[test]
fn clear_stats_empties_collector() {
    let mut global = GlobalStats::new();
    global.register(
        "c".to_string(),
        CacheStats { name: "c".to_string(), hits: 1, misses: 1, entries: 1 },
    );
    clear_stats(&mut global);
    assert!(get_stats(&global, "c").is_none());
    assert_eq!(export_json(&global), "[\n\n]");
    let agg = aggregate_stats(&global);
    assert_eq!(agg.hits, 0);
    assert_eq!(agg.misses, 0);
    assert_eq!(agg.entries, 0);
}

#[test]
fn snapshot_reflects_cache_counters() {
    let mut c = Cache::new();
    c.get_at("a", || "1".to_string(), 0);
    c.get_at("a", || unreachable!(), 1);
    let snap = fondue::stats::snapshot_of(&c, "mine".to_string());
    assert_eq!(snap.name, "mine");
    assert_eq!(snap.hits, 1);
    assert_eq!(snap.misses, 1);
    assert_eq!(snap.entries, 1);
}

#[test]
fn stats_hit_rate_zero_cases() {
    let stats = CacheStats::new("empty".to_string());
    assert_eq!(stats.hit_rate_permyriad(), 0);
    assert_eq!(stats.total_requests(), 0);
}

#[test]
fn remove_takes_snapshot_out() {
    let mut global = GlobalStats::new();
    global.register(
        "a".to_string(),
        CacheStats { name: "a".to_string(), hits: 7, misses: 3, entries: 4 },
    );
    assert!(global.remove("missing").is_none());
    let taken = global.remove("a").unwrap();
    assert_eq!(taken.hits, 7);
    assert!(global.get("a").is_none());
    assert!(global.remove("a").is_none());
}

#[test]
fn publish_snapshot_files_current_counters() {
    let mut c = Cache::new();
    c.get_at("a", || "1".to_string(), 0);
    let mut global = GlobalStats::new();
    fondue::stats::publish_snapshot(&c, "engine", &mut global);
    let got = global.get("engine").unwrap();
    assert_eq!(got.misses, 1);
    assert_eq!(got.entries, 1);
    // a later publish overwrites the earlier snapshot
    c.get_at("a", || unreachable!(), 1);
    fondue::stats::publish_snapshot(&c, "engine", &mut global);
    let got = global.get("engine").unwrap();
    assert_eq!(got.hits, 1);
    assert_eq!(global.all().len(), 1);
}
