use vstd::prelude::*;

use crate::clock::{clock_now, elapsed_nanos};
use crate::entry::{
    expired_at, inc_sat, order_le, touched_view, CacheEntry, EntryView, EvictionPolicy, TtlType,
};
use crate::storage::{
    entry_map, no_entries, table_clear, table_entries, table_get, table_insert, table_len,
    table_new, table_remove,
};
use dashmap::DashMap;
use std::collections::hash_map::RandomState;
use std::time::Instant;
use vstd::set_lib::lemma_len_subset;

verus! {

/// A key/value cache with a fixed eviction policy and hit/miss telemetry.
///
/// Entries live in a concurrent hash table; timestamps are nanoseconds
/// measured from the cache's creation.  Every operation that depends on the
/// clock has a sibling ending in `_at` that takes the time reading as an
/// argument and carries the exact contract.
pub struct Cache {
    storage: DashMap<String, CacheEntry<String>, RandomState>,
    policy: EvictionPolicy,
    base: Instant,
    hits: u64,
    misses: u64,
}

/// Mathematical image of a cache: its table contents, policy and counters.
pub ghost struct CacheModel {
    pub entries: Map<Seq<char>, EntryView>,
    pub policy: EvictionPolicy,
    pub hits: u64,
    pub misses: u64,
}

/// The capacity bound of a policy, if it has one.
pub open spec fn policy_capacity(p: EvictionPolicy) -> Option<usize> {
    match p {
        EvictionPolicy::Lru(limit) => Option::Some(limit),
        EvictionPolicy::LruTtl { limit, .. } => Option::Some(limit),
        _ => Option::None,
    }
}

/// The TTL duration a policy stamps on new entries, if any.
pub open spec fn policy_ttl_dur(p: EvictionPolicy) -> Option<u64> {
    match p {
        EvictionPolicy::Ttl { duration, .. } => Option::Some(duration),
        EvictionPolicy::LruTtl { duration, .. } => Option::Some(duration),
        _ => Option::None,
    }
}

/// The TTL kind a policy stamps on new entries, if any.
pub open spec fn policy_ttl_kind(p: EvictionPolicy) -> Option<TtlType> {
    match p {
        EvictionPolicy::Ttl { ttl_type, .. } => Option::Some(ttl_type),
        EvictionPolicy::LruTtl { ttl_type, .. } => Option::Some(ttl_type),
        _ => Option::None,
    }
}

/// The image of an entry freshly stored at time `now` under policy `p`.
pub open spec fn fresh_view(v: Seq<char>, p: EvictionPolicy, now: u64) -> EntryView {
    EntryView {
        value: v,
        created_at: now,
        last_accessed: now,
        access_count: 0,
        ttl: policy_ttl_dur(p),
        ttl_type: policy_ttl_kind(p),
    }
}

/// The keys of `m` whose entries are not expired at `now`.
pub open spec fn live_keys(m: Map<Seq<char>, EntryView>, now: u64) -> Set<Seq<char>> {
    m.dom().filter(|k: Seq<char>| !expired_at(m[k], now))
}

/// How eviction maintenance at time `now` relates the table contents before
/// (`pre`) and after (`post`):
/// - survivors are unchanged entries of `pre` that are not expired at `now`;
/// - without a capacity bound, every unexpired entry survives;
/// - with capacity `c`, exactly `min(live, c)` entries survive and every
///   evicted unexpired entry is no more recently used than any survivor
///   (least recently accessed first, ties broken by earliest creation).
pub open spec fn maintained(
    pre: Map<Seq<char>, EntryView>,
    post: Map<Seq<char>, EntryView>,
    p: EvictionPolicy,
    now: u64,
) -> bool {
    &&& forall|k: Seq<char>|
        #[trigger] post.contains_key(k) ==> pre.contains_key(k) && post[k] == pre[k]
            && !expired_at(pre[k], now)
    &&& match policy_capacity(p) {
        Option::None => forall|k: Seq<char>|
            #[trigger] pre.contains_key(k) && !expired_at(pre[k], now) ==> post.contains_key(k),
        Option::Some(c) => {
            &&& post.dom().len() == if live_keys(pre, now).len() <= c as nat {
                live_keys(pre, now).len()
            } else {
                c as nat
            }
            &&& forall|e: Seq<char>, k: Seq<char>|
                #![trigger post.contains_key(e), post.contains_key(k)]
                pre.contains_key(e) && !expired_at(pre[e], now) && !post.contains_key(e)
                    && post.contains_key(k) && pre.contains_key(k) ==> order_le(pre[e], pre[k])
        },
    }
}

/// A lookup of `k` at time `now` hits when the key is present and its entry
/// is not expired.
pub open spec fn hit_at(m: CacheModel, k: Seq<char>, now: u64) -> bool {
    m.entries.contains_key(k) && !expired_at(m.entries[k], now)
}

/// Contract of a lookup-or-compute of key `k` returning `r` at time `now`.
///
/// On a hit the stored value comes back, the entry is touched and the hit
/// counter bumped.  Otherwise the miss counter is bumped, the computed value
/// is stored fresh (overwriting an expired leftover, if any) and eviction
/// maintenance runs.
pub open spec fn get_post(
    pre: CacheModel,
    post: CacheModel,
    k: Seq<char>,
    r: Seq<char>,
    now: u64,
) -> bool {
    &&& post.policy == pre.policy
    &&& if hit_at(pre, k, now) {
        &&& r == pre.entries[k].value
        &&& post.entries == pre.entries.insert(k, touched_view(pre.entries[k], now))
        &&& post.hits == inc_sat(pre.hits)
        &&& post.misses == pre.misses
    } else {
        &&& maintained(
            pre.entries.insert(k, fresh_view(r, pre.policy, now)),
            post.entries,
            pre.policy,
            now,
        )
        &&& post.hits == pre.hits
        &&& post.misses == inc_sat(pre.misses)
    }
}

/// Contract of a computation-free lookup of key `k` returning `r` at `now`.
///
/// A hit behaves as in `get_post`; an expired entry is removed; in neither
/// failure case is the miss counter touched.
pub open spec fn try_get_post(
    pre: CacheModel,
    post: CacheModel,
    k: Seq<char>,
    r: Option<Seq<char>>,
    now: u64,
) -> bool {
    &&& post.policy == pre.policy
    &&& post.misses == pre.misses
    &&& if hit_at(pre, k, now) {
        &&& r == Option::Some(pre.entries[k].value)
        &&& post.entries == pre.entries.insert(k, touched_view(pre.entries[k], now))
        &&& post.hits == inc_sat(pre.hits)
    } else {
        &&& r is None
        &&& post.hits == pre.hits
        &&& post.entries == if pre.entries.contains_key(k) {
            pre.entries.remove(k)
        } else {
            pre.entries
        }
    }
}

/// Contract of an unconditional insertion of `k -> v` at time `now`: the
/// entry is stored fresh (counter zeroed, timestamps `now`) and eviction
/// maintenance runs; the hit/miss counters stay.
pub open spec fn insert_post(
    pre: CacheModel,
    post: CacheModel,
    k: Seq<char>,
    v: Seq<char>,
    now: u64,
) -> bool {
    &&& post.policy == pre.policy
    &&& post.hits == pre.hits
    &&& post.misses == pre.misses
    &&& maintained(
        pre.entries.insert(k, fresh_view(v, pre.policy, now)),
        post.entries,
        pre.policy,
        now,
    )
}

/// The image of an optional owned string.
pub open spec fn opt_view(r: Option<String>) -> Option<Seq<char>> {
    match r {
        Option::Some(s) => Option::Some(s@),
        Option::None => Option::None,
    }
}

impl Cache {
    /// The cache's mathematical image.
    pub closed spec fn model(&self) -> CacheModel {
        CacheModel {
            entries: entry_map(self.storage),
            policy: self.policy,
            hits: self.hits,
            misses: self.misses,
        }
    }

    /// Well-formedness: the table is finite and respects the policy's
    /// capacity bound.
    pub open spec fn wf(&self) -> bool {
        &&& self.model().entries.dom().finite()
        &&& match policy_capacity(self.model().policy) {
            Option::Some(c) => self.model().entries.dom().len() <= c as nat,
            Option::None => true,
        }
    }

    /// Creates a cache with the given eviction policy and zeroed counters.
    pub fn with_policy(policy: EvictionPolicy) -> (r: Cache)
        ensures
            r.wf(),
            r.model().entries == no_entries(),
            r.model().policy == policy,
            r.model().hits == 0,
            r.model().misses == 0,
    {
        let r = Cache {
            storage: table_new(),
            policy,
            base: clock_now(),
            hits: 0,
            misses: 0,
        };
        proof {
            assert(r.model().entries.dom() =~= Set::empty());
        }
        r
    }

    /// Creates a cache that never evicts.
    pub fn new() -> (r: Cache)
        ensures
            r.wf(),
            r.model().entries == no_entries(),
            r.model().policy == EvictionPolicy::NoEviction,
            r.model().hits == 0,
            r.model().misses == 0,
    {
        Self::with_policy(EvictionPolicy::NoEviction)
    }

    /// Runs eviction maintenance at time `now`: first removes every expired
    /// entry, then, under a capacity-bearing policy, evicts least-recently
    /// used entries until the table fits the bound.
    fn maintain(&mut self, now: u64)
        requires
            old(self).model().entries.dom().finite(),
        ensures
            final(self).wf(),
            final(self).policy == old(self).policy,
            final(self).hits == old(self).hits,
            final(self).misses == old(self).misses,
            maintained(
                old(self).model().entries,
                final(self).model().entries,
                old(self).policy,
                now,
            ),
    {
        let ghost pre = entry_map(self.storage);
        let snap = table_entries(&self.storage);
        let mut i: usize = 0;
        while i < snap.len()
            invariant
                i <= snap.len(),
                snap@.len() == pre.dom().len(),
                forall|j: int|
                    0 <= j < snap@.len() ==> pre.contains_key(#[trigger] snap@[j].0@)
                        && pre[snap@[j].0@] == snap@[j].1@,
                forall|j1: int, j2: int|
                    0 <= j1 < j2 < snap@.len() ==> snap@[j1].0@ != snap@[j2].0@,
                forall|k: Seq<char>|
                    pre.contains_key(k) ==> exists|j: int|
                        0 <= j < snap@.len() && #[trigger] snap@[j].0@ == k,
                forall|k: Seq<char>|
                    #[trigger] entry_map(self.storage).contains_key(k) ==> pre.contains_key(k)
                        && entry_map(self.storage)[k] == pre[k],
                forall|k: Seq<char>|
                    pre.contains_key(k) && !expired_at(pre[k], now) ==> #[trigger] entry_map(
                        self.storage,
                    ).contains_key(k),
                forall|j: int|
                    0 <= j < i && expired_at(snap@[j].1@, now) ==> !entry_map(
                        self.storage,
                    ).contains_key(#[trigger] snap@[j].0@),
                entry_map(self.storage).dom().finite(),
                self.policy == old(self).policy,
                self.hits == old(self).hits,
                self.misses == old(self).misses,
            decreases snap.len() - i,
        {
            if snap[i].1.is_expired(now) {
                table_remove(&mut self.storage, snap[i].0.as_str());
            }
            i += 1;
        }
        proof {
            assert forall|k: Seq<char>| #[trigger]
                pre.contains_key(k) && expired_at(pre[k], now) implies !entry_map(
                self.storage,
            ).contains_key(k) by {
                let j = choose|j: int| 0 <= j < snap@.len() && #[trigger] snap@[j].0@ == k;
                assert(expired_at(snap@[j].1@, now));
            }
            assert(entry_map(self.storage).dom() =~= live_keys(pre, now));
        }
        let cap = match &self.policy {
            EvictionPolicy::Lru(limit) => Option::Some(*limit),
            EvictionPolicy::LruTtl { limit, .. } => Option::Some(*limit),
            _ => Option::None,
        };
        let ghost live = entry_map(self.storage);
        let ghost live_len = live.dom().len();
        if let Option::Some(limit) = cap {
            proof {
                lemma_len_subset(entry_map(self.storage).dom(), live.dom());
            }
            while table_len(&self.storage) > limit
                invariant
                    forall|k: Seq<char>|
                        #[trigger] entry_map(self.storage).contains_key(k) ==> live.contains_key(
                            k,
                        ) && entry_map(self.storage)[k] == live[k],
                    forall|e: Seq<char>, k: Seq<char>|
                        #![trigger entry_map(self.storage).contains_key(e), entry_map(self.storage).contains_key(k)]
                        live.contains_key(e) && !entry_map(self.storage).contains_key(e)
                            && entry_map(self.storage).contains_key(k) ==> order_le(
                            live[e],
                            live[k],
                        ),
                    entry_map(self.storage).dom().finite(),
                    entry_map(self.storage).dom().len() >= if live_len <= limit as nat {
                        live_len
                    } else {
                        limit as nat
                    },
                    live.dom().finite(),
                    live_len == live.dom().len(),
                    self.policy == old(self).policy,
                    self.hits == old(self).hits,
                    self.misses == old(self).misses,
                decreases entry_map(self.storage).dom().len(),
            {
                let ghost cur = entry_map(self.storage);
                let snap2 = table_entries(&self.storage);
                let mut best: usize = 0;
                let mut j: usize = 1;
                while j < snap2.len()
                    invariant
                        1 <= j <= snap2.len(),
                        best < j,
                        snap2@.len() == cur.dom().len(),
                        forall|t: int|
                            0 <= t < snap2@.len() ==> cur.contains_key(#[trigger] snap2@[t].0@)
                                && cur[snap2@[t].0@] == snap2@[t].1@,
                        forall|t: int|
                            0 <= t < j ==> order_le(snap2@[best as int].1@, #[trigger] snap2@[t].1@),
                    decreases snap2.len() - j,
                {
                    let cand = &snap2[j].1;
                    let cur_best = &snap2[best].1;
                    if cand.last_accessed < cur_best.last_accessed || (cand.last_accessed
                        == cur_best.last_accessed && cand.created_at < cur_best.created_at) {
                        best = j;
                    }
                    j += 1;
                }
                let ghost best_key = snap2@[best as int].0@;
                let ghost prev = entry_map(self.storage);
                table_remove(&mut self.storage, snap2[best].0.as_str());
                proof {
                    assert(prev.contains_key(best_key));
                    assert(entry_map(self.storage).dom() =~= prev.dom().remove(best_key));
                    assert forall|e: Seq<char>, k: Seq<char>|
                        #![trigger entry_map(self.storage).contains_key(e), entry_map(self.storage).contains_key(k)]
                        live.contains_key(e) && !entry_map(self.storage).contains_key(e)
                            && entry_map(self.storage).contains_key(k) implies order_le(
                        live[e],
                        live[k],
                    ) by {
                        if prev.contains_key(e) {
                            // e was just evicted: it is the minimum of the snapshot
                            let te = choose|t: int|
                                0 <= t < snap2@.len() && #[trigger] snap2@[t].0@ == e;
                            let tk = choose|t: int|
                                0 <= t < snap2@.len() && #[trigger] snap2@[t].0@ == k;
                            assert(snap2@[te].1@ == live[e]);
                            assert(order_le(snap2@[best as int].1@, snap2@[tk].1@));
                            assert(e == best_key);
                        }
                    }
                }
            }
            proof {
                lemma_len_subset(entry_map(self.storage).dom(), live.dom());
            }
        }
    }

    /// Retrieves the cached value for `key` at time `now`, or invokes
    /// `compute` exactly once, stores its result and returns it.
    pub fn get_at<F: FnOnce() -> String>(&mut self, key: &str, compute: F, now: u64) -> (r: String)
        requires
            old(self).wf(),
            call_requires(compute, ()),
        ensures
            final(self).wf(),
            get_post(old(self).model(), final(self).model(), key@, r@, now),
            !hit_at(old(self).model(), key@, now) ==> call_ensures(compute, (), r),
    {
        match table_get(&self.storage, key) {
            Option::Some(e) => {
                if !e.is_expired(now) {
                    let mut e2 = e;
                    e2.touch(now);
                    let v = e2.value.clone();
                    proof {
                        assert(e2@ == touched_view(old(self).model().entries[key@], now));
                    }
                    table_insert(&mut self.storage, key, e2);
                    if self.hits < u64::MAX {
                        self.hits = self.hits + 1;
                    }
                    proof {
                        assert(self.model().entries.dom() =~= old(self).model().entries.dom());
                    }
                    return v;
                } else {
                    table_remove(&mut self.storage, key);
                }
            },
            Option::None => {},
        }
        if self.misses < u64::MAX {
            self.misses = self.misses + 1;
        }
        let value = compute();
        let (ttl, ttl_type) = self.stamp();
        let entry = CacheEntry::new(value.clone(), ttl, ttl_type, now);
        proof {
            assert(entry@ == fresh_view(value@, self.policy, now));
        }
        table_insert(&mut self.storage, key, entry);
        proof {
            assert(entry_map(self.storage) =~= old(self).model().entries.insert(
                key@,
                fresh_view(value@, self.policy, now),
            ));
        }
        self.maintain(now);
        value
    }

    /// Retrieves the cached value for `key` if present and unexpired at
    /// `now`; never computes, and never counts a miss.
    pub fn get_if_cached_at(&mut self, key: &str, now: u64) -> (r: Option<String>)
        requires
            old(self).wf(),
        ensures
            final(self).wf(),
            try_get_post(old(self).model(), final(self).model(), key@, opt_view(r), now),
    {
        match table_get(&self.storage, key) {
            Option::Some(e) => {
                if !e.is_expired(now) {
                    let mut e2 = e;
                    e2.touch(now);
                    let v = e2.value.clone();
                    proof {
                        assert(e2@ == touched_view(old(self).model().entries[key@], now));
                    }
                    table_insert(&mut self.storage, key, e2);
                    if self.hits < u64::MAX {
                        self.hits = self.hits + 1;
                    }
                    proof {
                        assert(self.model().entries.dom() =~= old(self).model().entries.dom());
                    }
                    Option::Some(v)
                } else {
                    table_remove(&mut self.storage, key);
                    proof {
                        lemma_len_subset(
                            self.model().entries.dom(),
                            old(self).model().entries.dom(),
                        );
                    }
                    Option::None
                }
            },
            Option::None => Option::None,
        }
    }

    /// Stores `value` under `key` at time `now`, overwriting any previous
    /// entry, then runs eviction maintenance.
    pub fn insert_at(&mut self, key: String, value: String, now: u64)
        requires
            old(self).wf(),
        ensures
            final(self).wf(),
            insert_post(old(self).model(), final(self).model(), key@, value@, now),
    {
        let (ttl, ttl_type) = self.stamp();
        let entry = CacheEntry::new(value, ttl, ttl_type, now);
        proof {
            assert(entry@ == fresh_view(entry.value@, self.policy, now));
        }
        table_insert(&mut self.storage, key.as_str(), entry);
        self.maintain(now);
    }

    /// Removes the entry under `key`, reporting whether one was there.
    /// Idempotent; counters are untouched.
    pub fn invalidate(&mut self, key: &str) -> (r: bool)
        requires
            old(self).wf(),
        ensures
            final(self).wf(),
            r == old(self).model().entries.contains_key(key@),
            final(self).model().entries == old(self).model().entries.remove(key@),
            final(self).model().policy == old(self).model().policy,
            final(self).model().hits == old(self).model().hits,
            final(self).model().misses == old(self).model().misses,
    {
        let r = table_remove(&mut self.storage, key);
        proof {
            lemma_len_subset(self.model().entries.dom(), old(self).model().entries.dom());
        }
        r
    }

    /// Removes every entry; counters are untouched.
    pub fn clear(&mut self)
        requires
            old(self).wf(),
        ensures
            final(self).wf(),
            final(self).model().entries == no_entries(),
            final(self).model().policy == old(self).model().policy,
            final(self).model().hits == old(self).model().hits,
            final(self).model().misses == old(self).model().misses,
    {
        table_clear(&mut self.storage);
        proof {
            assert(self.model().entries.dom() =~= Set::empty());
        }
    }

    /// The current number of entries.
    pub fn len(&self) -> (r: usize)
        ensures
            r as nat == self.model().entries.dom().len(),
    {
        table_len(&self.storage)
    }

    /// Whether the cache holds no entries.
    pub fn is_empty(&self) -> (r: bool)
        requires
            self.wf(),
        ensures
            r == (self.model().entries.dom().len() == 0),
    {
        self.len() == 0
    }

    /// The number of recorded hits.
    pub fn hit_count(&self) -> (r: u64)
        ensures
            r == self.model().hits,
    {
        self.hits
    }

    /// The number of recorded misses.
    pub fn miss_count(&self) -> (r: u64)
        ensures
            r == self.model().misses,
    {
        self.misses
    }

    /// The eviction policy the cache was built with.
    pub fn policy(&self) -> (r: EvictionPolicy)
        ensures
            r == self.model().policy,
    {
        self.policy
    }

    /// The hit rate in parts per ten thousand of all recorded requests;
    /// exactly zero when nothing was recorded yet.
    pub fn hit_rate_permyriad(&self) -> (r: u64)
        ensures
            self.model().hits + self.model().misses == 0 ==> r == 0,
            self.model().hits + self.model().misses > 0 ==> r == (self.model().hits * 10000) / (
            self.model().hits + self.model().misses),
    {
        let hits = self.hits as u128;
        let total = hits + (self.misses as u128);
        if total == 0 {
            0
        } else {
            let rate = (hits * 10000) / total;
            proof {
                assert(rate as int == (hits as int * 10000) / (total as int));
                assert((hits as int * 10000) / (total as int) <= 10000) by (nonlinear_arith)
                    requires
                        0 < total as int,
                        hits as int <= total as int,
                {
                }
            }
            rate as u64
        }
    }

    /// Retrieves or computes the value for `key` at the current clock
    /// reading; the exact contract is `get_at`'s, for some reading.
    pub fn get<F: FnOnce() -> String>(&mut self, key: &str, compute: F) -> (r: String)
        requires
            old(self).wf(),
            call_requires(compute, ()),
        ensures
            final(self).wf(),
            exists|now: u64|
                {
                    &&& #[trigger] get_post(old(self).model(), final(self).model(), key@, r@, now)
                    &&& !hit_at(old(self).model(), key@, now) ==> call_ensures(compute, (), r)
                },
    {
        let now = elapsed_nanos(&self.base);
        let r = self.get_at(key, compute, now);
        proof {
            assert(get_post(old(self).model(), self.model(), key@, r@, now));
        }
        r
    }

    /// Looks `key` up at the current clock reading; the exact contract is
    /// `get_if_cached_at`'s, for some reading.
    pub fn get_if_cached(&mut self, key: &str) -> (r: Option<String>)
        requires
            old(self).wf(),
        ensures
            final(self).wf(),
            exists|now: u64| #[trigger]
                try_get_post(old(self).model(), final(self).model(), key@, opt_view(r), now),
    {
        let now = elapsed_nanos(&self.base);
        let r = self.get_if_cached_at(key, now);
        proof {
            assert(try_get_post(old(self).model(), self.model(), key@, opt_view(r), now));
        }
        r
    }

    /// Stores `value` under `key` at the current clock reading; the exact
    /// contract is `insert_at`'s, for some reading.
    pub fn insert(&mut self, key: String, value: String)
        requires
            old(self).wf(),
        ensures
            final(self).wf(),
            exists|now: u64| #[trigger]
                insert_post(old(self).model(), final(self).model(), key@, value@, now),
    {
        let now = elapsed_nanos(&self.base);
        let ghost v = value@;
        self.insert_at(key, value, now);
        proof {
            assert(insert_post(old(self).model(), self.model(), key@, v, now));
        }
    }

    /// The TTL metadata the policy stamps on a new entry.
    fn stamp(&self) -> (r: (Option<u64>, Option<TtlType>))
        ensures
            r.0 == policy_ttl_dur(self.model().policy),
            r.1 == policy_ttl_kind(self.model().policy),
    {
        match self.policy {
            EvictionPolicy::Ttl { duration, ttl_type } => (
                Option::Some(duration),
                Option::Some(ttl_type),
            ),
            EvictionPolicy::LruTtl { duration, ttl_type, .. } => (
                Option::Some(duration),
                Option::Some(ttl_type),
            ),
            _ => (Option::None, Option::None),
        }
    }
}


impl Default for Cache {
    /// An empty cache that never evicts.
    fn default() -> (r: Cache)
        ensures
            r.wf(),
            r.model().entries == no_entries(),
            r.model().policy == EvictionPolicy::NoEviction,
            r.model().hits == 0,
            r.model().misses == 0,
    {
        Cache::new()
    }
}

} // verus!
