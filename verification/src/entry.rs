use vstd::prelude::*;

verus! {

/// How a time-to-live bound is measured for a cached entry.
#[derive(Debug, Clone, Copy, PartialEq, Eq, Hash, Structural)]
pub enum TtlType {
    /// Staleness is measured from the entry's creation time.
    Fixed,
    /// Staleness is measured from the entry's most recent access.
    Sliding,
}

/// Eviction policy of a cache, fixed at construction time.
///
/// All durations are nanosecond counts, matching the timestamps the cache
/// stamps on its entries.
#[derive(Debug, Clone, Copy, PartialEq, Eq, Hash, Structural)]
pub enum EvictionPolicy {
    /// No eviction: entries stay until invalidated or cleared.
    NoEviction,
    /// Least-recently-used eviction once the table exceeds the capacity.
    Lru(usize),
    /// Time-based expiry only.
    Ttl { duration: u64, ttl_type: TtlType },
    /// Combined capacity-bounded and time-based eviction.
    LruTtl { limit: usize, duration: u64, ttl_type: TtlType },
}

/// A cached value together with its timing and access metadata.
///
/// Timestamps are nanosecond counts measured from the owning cache's
/// creation; `ttl` is a nanosecond duration.
#[derive(Debug, Clone)]
pub struct CacheEntry<V> {
    pub value: V,
    pub created_at: u64,
    pub last_accessed: u64,
    pub access_count: u64,
    pub ttl: Option<u64>,
    pub ttl_type: Option<TtlType>,
}

/// Mathematical image of a `CacheEntry<String>`: the same metadata with the
/// value as a character sequence.
pub ghost struct EntryView {
    pub value: Seq<char>,
    pub created_at: u64,
    pub last_accessed: u64,
    pub access_count: u64,
    pub ttl: Option<u64>,
    pub ttl_type: Option<TtlType>,
}

impl View for CacheEntry<String> {
    type V = EntryView;

    open spec fn view(&self) -> EntryView {
        EntryView {
            value: self.value@,
            created_at: self.created_at,
            last_accessed: self.last_accessed,
            access_count: self.access_count,
            ttl: self.ttl,
            ttl_type: self.ttl_type,
        }
    }
}

/// The expiry rule: a fixed TTL runs from creation, a sliding TTL from the
/// most recent access; an entry without both a duration and a kind never
/// expires.
pub open spec fn expiry_spec(
    ttl: Option<u64>,
    ttl_type: Option<TtlType>,
    created_at: u64,
    last_accessed: u64,
    now: u64,
) -> bool {
    match (ttl, ttl_type) {
        (Option::Some(d), Option::Some(t)) => match t {
            TtlType::Fixed => now >= created_at + d,
            TtlType::Sliding => now >= last_accessed + d,
        },
        _ => false,
    }
}

/// Whether the entry pictured by `e` is expired at time `now`.
pub open spec fn expired_at(e: EntryView, now: u64) -> bool {
    expiry_spec(e.ttl, e.ttl_type, e.created_at, e.last_accessed, now)
}

/// Saturating increment, used for access and hit/miss counters.
pub open spec fn inc_sat(x: u64) -> u64 {
    if x < u64::MAX {
        (x + 1) as u64
    } else {
        x
    }
}

/// The image of an entry after a touch at time `now`: the access counter is
/// bumped and `last_accessed` moves forward to `now` (never backward).
pub open spec fn touched_view(e: EntryView, now: u64) -> EntryView {
    EntryView {
        access_count: inc_sat(e.access_count),
        last_accessed: if now > e.last_accessed {
            now
        } else {
            e.last_accessed
        },
        ..e
    }
}

/// Eviction order: least recently accessed first, ties broken by earliest
/// creation time.
pub open spec fn order_le(a: EntryView, b: EntryView) -> bool {
    a.last_accessed < b.last_accessed || (a.last_accessed == b.last_accessed
        && a.created_at <= b.created_at)
}

impl<V> CacheEntry<V> {
    /// Creates an entry stamped with the given creation time.
    pub fn new(value: V, ttl: Option<u64>, ttl_type: Option<TtlType>, now: u64) -> (r: Self)
        ensures
            r.value == value,
            r.created_at == now,
            r.last_accessed == now,
            r.access_count == 0,
            r.ttl == ttl,
            r.ttl_type == ttl_type,
    {
        Self { value, created_at: now, last_accessed: now, access_count: 0, ttl, ttl_type }
    }

    /// Checks whether the entry is expired at time `now` under its TTL rule.
    pub fn is_expired(&self, now: u64) -> (r: bool)
        ensures
            r == expiry_spec(
                self.ttl,
                self.ttl_type,
                self.created_at,
                self.last_accessed,
                now,
            ),
    {
        match (&self.ttl, &self.ttl_type) {
            (Option::Some(d), Option::Some(t)) => {
                let base = match t {
                    TtlType::Fixed => self.created_at,
                    TtlType::Sliding => self.last_accessed,
                };
                now >= base && now - base >= *d
            },
            _ => false,
        }
    }

    /// Records an access: bumps the counter and refreshes `last_accessed`,
    /// which never moves backward.
    pub fn touch(&mut self, now: u64)
        ensures
            final(self).value == old(self).value,
            final(self).created_at == old(self).created_at,
            final(self).ttl == old(self).ttl,
            final(self).ttl_type == old(self).ttl_type,
            final(self).access_count == inc_sat(old(self).access_count),
            final(self).last_accessed == if now > old(self).last_accessed {
                now
            } else {
                old(self).last_accessed
            },
    {
        if self.access_count < u64::MAX {
            self.access_count = self.access_count + 1;
        }
        if now > self.last_accessed {
            self.last_accessed = now;
        }
    }
}

} // verus!
