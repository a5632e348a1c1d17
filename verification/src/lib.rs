pub mod cache;
pub mod laws;
pub mod registry;
pub mod stats;
pub mod clock;
pub mod duration;
pub mod entry;
pub mod storage;
pub mod strutil;

pub use cache::Cache;
pub use duration::{parse_duration, DurationParseError};
pub use entry::{CacheEntry, EvictionPolicy, TtlType};
pub use registry::{
    cache_clear_all, cache_clear_namespace, cache_get, cache_get_with_limit, cache_get_with_ttl,
    cache_get_with_ttl_and_limit, cache_invalidate, CacheRegistry,
};
pub use stats::{
    aggregate_stats, clear_stats, export_json, get_stats, register_stats, truncate_string,
    update_stats, CacheStats, GlobalStats,
};
