use vstd::prelude::*;

use crate::cache::{get_post, hit_at, Cache, CacheModel};
use crate::entry::{EvictionPolicy, TtlType};
use crate::storage::{index_get, index_insert, index_map, index_new};
use crate::strutil::{dec_rep, is_prefix, str_starts_with, u64_to_string};
use dashmap::DashMap;
use std::collections::hash_map::RandomState;
use vstd::string::StringExecFns;

verus! {

/// The spelling of a TTL kind inside a registry key.
pub open spec fn kind_tag(t: TtlType) -> Seq<char> {
    match t {
        TtlType::Fixed => "fixed"@,
        TtlType::Sliding => "sliding"@,
    }
}

/// The spelling of a policy inside a registry key.
pub open spec fn policy_tag(p: EvictionPolicy) -> Seq<char> {
    match p {
        EvictionPolicy::NoEviction => "none"@,
        EvictionPolicy::Lru(limit) => "lru("@ + dec_rep(limit as nat) + ")"@,
        EvictionPolicy::Ttl { duration, ttl_type } => "ttl("@ + dec_rep(duration as nat) + ","@
            + kind_tag(ttl_type) + ")"@,
        EvictionPolicy::LruTtl { limit, duration, ttl_type } => "lru_ttl("@ + dec_rep(limit as nat)
            + ","@ + dec_rep(duration as nat) + ","@ + kind_tag(ttl_type) + ")"@,
    }
}

/// The key a registry files a (namespace, policy) cache under.
pub open spec fn cache_key(ns: Seq<char>, p: EvictionPolicy) -> Seq<char> {
    ns + "::"@ + policy_tag(p)
}

/// The image of a cache fresh from `Cache::with_policy(p)`.
pub open spec fn fresh_cache(p: EvictionPolicy) -> CacheModel {
    CacheModel { entries: Map::empty(), policy: p, hits: 0, misses: 0 }
}

/// A directory of caches, one per (namespace, policy) pair, created lazily.
///
/// The registry is an explicit object rather than a process-wide table:
/// built once at startup and passed by reference to whoever needs a cache,
/// so no hidden shared state is involved.
pub struct CacheRegistry {
    slots: Vec<(String, Cache)>,
    index: DashMap<String, usize, RandomState>,
}

impl CacheRegistry {
    /// The name-to-slot directory.
    pub closed spec fn imap(&self) -> Map<Seq<char>, usize> {
        index_map(self.index)
    }

    /// The stored caches, with their composed keys.
    pub closed spec fn slots_seq(&self) -> Seq<(String, Cache)> {
        self.slots@
    }

    /// Whether a cache is filed under `k`.
    pub open spec fn has(&self, k: Seq<char>) -> bool {
        self.imap().contains_key(k)
    }

    /// The image of the cache filed under `k`.
    pub open spec fn cache_model_of(&self, k: Seq<char>) -> CacheModel {
        self.slots_seq()[self.imap()[k] as int].1.model()
    }

    /// Well-formedness: the directory and the slot vector agree, slot for
    /// slot, and every stored cache is well formed.
    pub open spec fn wf(&self) -> bool {
        &&& forall|i: int|
            0 <= i < self.slots_seq().len() ==> {
                &&& self.imap().contains_key(#[trigger] self.slots_seq()[i].0@)
                &&& self.imap()[self.slots_seq()[i].0@] == i
                &&& self.slots_seq()[i].1.wf()
            }
        &&& forall|k: Seq<char>| #[trigger]
            self.imap().contains_key(k) ==> self.imap()[k] < self.slots_seq().len()
                && self.slots_seq()[self.imap()[k] as int].0@ == k
    }

    /// Creates an empty registry.
    pub fn new() -> (r: CacheRegistry)
        ensures
            r.wf(),
            forall|k: Seq<char>| !r.has(k),
    {
        CacheRegistry { slots: Vec::new(), index: index_new() }
    }

    /// The number of caches filed so far.
    pub fn cache_count(&self) -> (r: usize)
        ensures
            r as nat == self.slots_seq().len(),
    {
        self.slots.len()
    }

    /// Finds the slot of the cache for (`namespace`, `policy`), creating an
    /// empty cache there first if none exists yet.
    fn get_or_create(&mut self, namespace: &str, policy: EvictionPolicy) -> (i: usize)
        requires
            old(self).wf(),
        ensures
            final(self).wf(),
            i < final(self).slots_seq().len(),
            final(self).slots_seq()[i as int].0@ == cache_key(namespace@, policy),
            final(self).has(cache_key(namespace@, policy)),
            final(self).imap()[cache_key(namespace@, policy)] == i,
            old(self).has(cache_key(namespace@, policy)) ==> final(self).imap() == old(self).imap()
                && final(self).slots_seq() == old(self).slots_seq(),
            !old(self).has(cache_key(namespace@, policy)) ==> {
                &&& final(self).imap() == old(self).imap().insert(
                    cache_key(namespace@, policy),
                    old(self).slots_seq().len() as usize,
                )
                &&& final(self).slots_seq().len() == old(self).slots_seq().len() + 1
                &&& final(self).slots_seq().subrange(0, old(self).slots_seq().len() as int) == old(
                    self,
                ).slots_seq()
                &&& final(self).slots_seq()[i as int].1.model() == fresh_cache(policy)
            },
    {
        let ck = compose_key(namespace, &policy);
        match index_get(&self.index, ck.as_str()) {
            Option::Some(i) => i,
            Option::None => {
                let c = Cache::with_policy(policy);
                let i = self.slots.len();
                self.slots.push((ck, c));
                let ghost pre = *old(self);
                index_insert(&mut self.index, self.slots[i].0.as_str(), i);
                proof {
                    assert(self.slots_seq().subrange(0, pre.slots_seq().len() as int)
                        =~= pre.slots_seq());
                    assert forall|j: int| 0 <= j < self.slots_seq().len() implies {
                        &&& self.imap().contains_key(#[trigger] self.slots_seq()[j].0@)
                        &&& self.imap()[self.slots_seq()[j].0@] == j
                        &&& self.slots_seq()[j].1.wf()
                    } by {
                        if j < pre.slots_seq().len() {
                            assert(pre.imap().contains_key(pre.slots_seq()[j].0@));
                        }
                    }
                    assert forall|k: Seq<char>| #[trigger]
                        self.imap().contains_key(k) implies self.imap()[k]
                        < self.slots_seq().len() && self.slots_seq()[self.imap()[k] as int].0@
                        == k by {
                        if pre.imap().contains_key(k) {
                            assert(pre.slots_seq()[pre.imap()[k] as int].0@ == k);
                        }
                    }
                }
                i
            },
        }
    }
}

/// Builds the spelling of a TTL kind.
fn kind_str(t: &TtlType) -> (r: &'static str)
    ensures
        r@ == kind_tag(*t),
{
    match t {
        TtlType::Fixed => "fixed",
        TtlType::Sliding => "sliding",
    }
}

/// Builds the spelling of a policy.
fn policy_str(p: &EvictionPolicy) -> (r: String)
    ensures
        r@ == policy_tag(*p),
{
    match p {
        EvictionPolicy::NoEviction => {
            let mut s = String::new();
            s.append("none");
            proof {
                assert(s@ =~= policy_tag(*p));
            }
            s
        },
        EvictionPolicy::Lru(limit) => {
            let mut s = String::new();
            s.append("lru(");
            let d = u64_to_string(*limit as u64);
            s.append(d.as_str());
            s.append(")");
            proof {
                assert(s@ =~= policy_tag(*p));
            }
            s
        },
        EvictionPolicy::Ttl { duration, ttl_type } => {
            let mut s = String::new();
            s.append("ttl(");
            let d = u64_to_string(*duration);
            s.append(d.as_str());
            s.append(",");
            s.append(kind_str(ttl_type));
            s.append(")");
            proof {
                assert(s@ =~= policy_tag(*p));
            }
            s
        },
        EvictionPolicy::LruTtl { limit, duration, ttl_type } => {
            let mut s = String::new();
            s.append("lru_ttl(");
            let l = u64_to_string(*limit as u64);
            s.append(l.as_str());
            s.append(",");
            let d = u64_to_string(*duration);
            s.append(d.as_str());
            s.append(",");
            s.append(kind_str(ttl_type));
            s.append(")");
            proof {
                assert(s@ =~= policy_tag(*p));
            }
            s
        },
    }
}

/// Builds the registry key for a namespace and policy.
fn compose_key(namespace: &str, p: &EvictionPolicy) -> (r: String)
    ensures
        r@ == cache_key(namespace@, *p),
{
    let mut s = namespace.to_owned();
    s.append("::");
    let tag = policy_str(p);
    s.append(tag.as_str());
    proof {
        assert(s@ =~= cache_key(namespace@, *p));
    }
    s
}


/// Caches filed under keys other than `ck` are present as before and
/// unchanged.
pub open spec fn others_unchanged(pre: CacheRegistry, post: CacheRegistry, ck: Seq<char>) -> bool {
    &&& forall|k2: Seq<char>| k2 != ck ==> (#[trigger] post.has(k2)) == pre.has(k2)
    &&& forall|k2: Seq<char>|
        k2 != ck && pre.has(k2) ==> #[trigger] post.cache_model_of(k2) == pre.cache_model_of(k2)
}

/// Contract of a lookup-or-compute against the registry: the cache for
/// (`ns`, `policy`) exists afterwards, its step obeys `get_post` for some
/// clock reading (from an empty cache if it was just created), a computed
/// result is one of `compute`'s, and every other cache is untouched.
/// The image the registry's cache for `ck` answers from: its stored image,
/// or that of a fresh cache when none is filed yet.
pub open spec fn pre_model_of(reg: CacheRegistry, ck: Seq<char>, policy: EvictionPolicy) -> CacheModel {
    if reg.has(ck) {
        reg.cache_model_of(ck)
    } else {
        fresh_cache(policy)
    }
}

pub open spec fn namespace_get_post<F: FnOnce() -> String>(
    pre_reg: CacheRegistry,
    post_reg: CacheRegistry,
    ns: Seq<char>,
    policy: EvictionPolicy,
    key: Seq<char>,
    compute: F,
    r: String,
) -> bool {
    &&& post_reg.has(cache_key(ns, policy))
    &&& others_unchanged(pre_reg, post_reg, cache_key(ns, policy))
    &&& exists|now: u64|
        {
            &&& #[trigger] get_post(
                pre_model_of(pre_reg, cache_key(ns, policy), policy),
                post_reg.cache_model_of(cache_key(ns, policy)),
                key,
                r@,
                now,
            )
            &&& !hit_at(pre_model_of(pre_reg, cache_key(ns, policy), policy), key, now)
                ==> call_ensures(compute, (), r)
        }
}

/// Looks `key` up in the cache for (`namespace`, `policy`), creating that
/// cache first if need be, computing and storing the value on a miss.
fn namespace_get<F: FnOnce() -> String>(
    reg: &mut CacheRegistry,
    namespace: &str,
    policy: EvictionPolicy,
    key: &str,
    compute: F,
) -> (r: String)
    requires
        old(reg).wf(),
        call_requires(compute, ()),
    ensures
        final(reg).wf(),
        namespace_get_post(*old(reg), *final(reg), namespace@, policy, key@, compute, r),
{
    let ghost ck = cache_key(namespace@, policy);
    let ghost pre0 = *old(reg);
    let i = reg.get_or_create(namespace, policy);
    let ghost mid = *reg;
    let ghost pre = if pre0.has(ck) {
        pre0.cache_model_of(ck)
    } else {
        fresh_cache(policy)
    };
    proof {
        assert(mid.slots_seq()[i as int].1.model() == pre);
    }
    let slot = &mut reg.slots[i];
    let r = slot.1.get(key, compute);
    proof {
        assert(reg.imap() == mid.imap());
        assert(reg.slots_seq().len() == mid.slots_seq().len());
        assert(reg.slots_seq()[i as int].0@ == ck);
        assert forall|j: int| 0 <= j < reg.slots_seq().len() && j != i implies reg.slots_seq()[j]
            == mid.slots_seq()[j] by {}
        assert forall|j: int| 0 <= j < reg.slots_seq().len() implies {
            &&& reg.imap().contains_key(#[trigger] reg.slots_seq()[j].0@)
            &&& reg.imap()[reg.slots_seq()[j].0@] == j
            &&& reg.slots_seq()[j].1.wf()
        } by {
            assert(mid.imap().contains_key(mid.slots_seq()[j].0@));
        }
        assert forall|k2: Seq<char>| k2 != ck && pre0.has(k2) implies #[trigger] reg
            .cache_model_of(k2) == pre0.cache_model_of(k2) by {
            let j = pre0.imap()[k2];
            assert(pre0.slots_seq()[j as int].0@ == k2);
            assert(reg.slots_seq()[j as int].0@ == k2);
            assert(j != i);
        }
        let now = choose|now: u64|
            {
                &&& #[trigger] get_post(pre, reg.slots_seq()[i as int].1.model(), key@, r@, now)
                &&& !hit_at(pre, key@, now) ==> call_ensures(compute, (), r)
            };
        assert(pre == pre_model_of(pre0, ck, policy));
        assert(reg.cache_model_of(ck) == reg.slots_seq()[i as int].1.model());
        assert(get_post(pre_model_of(pre0, ck, policy), reg.cache_model_of(ck), key@, r@, now));
        assert(namespace_get_post(pre0, *reg, namespace@, policy, key@, compute, r));
    }
    r
}

/// Retrieves or computes `key` in the unbounded cache of `namespace`.
pub fn cache_get<F: FnOnce() -> String>(
    reg: &mut CacheRegistry,
    namespace: &str,
    key: &str,
    compute: F,
) -> (r: String)
    requires
        old(reg).wf(),
        call_requires(compute, ()),
    ensures
        final(reg).wf(),
        namespace_get_post(*old(reg), *final(reg), namespace@, EvictionPolicy::NoEviction, key@, compute, r),
{
    namespace_get(reg, namespace, EvictionPolicy::NoEviction, key, compute)
}

/// Retrieves or computes `key` in the TTL-evicting cache of `namespace`.
/// `ttl` is in nanoseconds.
pub fn cache_get_with_ttl<F: FnOnce() -> String>(
    reg: &mut CacheRegistry,
    namespace: &str,
    key: &str,
    ttl: u64,
    ttl_type: TtlType,
    compute: F,
) -> (r: String)
    requires
        old(reg).wf(),
        call_requires(compute, ()),
    ensures
        final(reg).wf(),
        namespace_get_post(*old(reg), *final(reg), namespace@, EvictionPolicy::Ttl { duration: ttl, ttl_type }, key@, compute, r),
{
    namespace_get(reg, namespace, EvictionPolicy::Ttl { duration: ttl, ttl_type }, key, compute)
}

/// Retrieves or computes `key` in the capacity-bounded cache of `namespace`.
pub fn cache_get_with_limit<F: FnOnce() -> String>(
    reg: &mut CacheRegistry,
    namespace: &str,
    key: &str,
    limit: usize,
    compute: F,
) -> (r: String)
    requires
        old(reg).wf(),
        call_requires(compute, ()),
    ensures
        final(reg).wf(),
        namespace_get_post(*old(reg), *final(reg), namespace@, EvictionPolicy::Lru(limit), key@, compute, r),
{
    namespace_get(reg, namespace, EvictionPolicy::Lru(limit), key, compute)
}

/// Retrieves or computes `key` in the cache of `namespace` bounded both by
/// capacity and by a TTL in nanoseconds.
pub fn cache_get_with_ttl_and_limit<F: FnOnce() -> String>(
    reg: &mut CacheRegistry,
    namespace: &str,
    key: &str,
    ttl: u64,
    limit: usize,
    ttl_type: TtlType,
    compute: F,
) -> (r: String)
    requires
        old(reg).wf(),
        call_requires(compute, ()),
    ensures
        final(reg).wf(),
        namespace_get_post(*old(reg), *final(reg), namespace@, EvictionPolicy::LruTtl { limit, duration: ttl, ttl_type }, key@, compute, r),
{
    namespace_get(
        reg,
        namespace,
        EvictionPolicy::LruTtl { limit, duration: ttl, ttl_type },
        key,
        compute,
    )
}


/// Invalidates `key` in every cache whose registry key starts with
/// `namespace`, reporting whether any held it.
pub fn cache_invalidate(reg: &mut CacheRegistry, namespace: &str, key: &str) -> (r: bool)
    requires
        old(reg).wf(),
    ensures
        final(reg).wf(),
        forall|k2: Seq<char>| (#[trigger] final(reg).has(k2)) == old(reg).has(k2),
        forall|k2: Seq<char>| #[trigger]
            old(reg).has(k2) && is_prefix(namespace@, k2) ==> {
                &&& final(reg).cache_model_of(k2).entries == old(reg).cache_model_of(
                    k2,
                ).entries.remove(key@)
                &&& final(reg).cache_model_of(k2).policy == old(reg).cache_model_of(k2).policy
                &&& final(reg).cache_model_of(k2).hits == old(reg).cache_model_of(k2).hits
                &&& final(reg).cache_model_of(k2).misses == old(reg).cache_model_of(k2).misses
            },
        forall|k2: Seq<char>| #[trigger]
            old(reg).has(k2) && !is_prefix(namespace@, k2) ==> final(reg).cache_model_of(k2) == old(
                reg,
            ).cache_model_of(k2),
        r == exists|k2: Seq<char>|
            #[trigger] old(reg).has(k2) && is_prefix(namespace@, k2) && old(reg).cache_model_of(
                k2,
            ).entries.contains_key(key@),
{
    let ghost pre0 = *old(reg);
    let mut found = false;
    let mut i: usize = 0;
    let n = reg.slots.len();
    proof {
        assert forall|j: int| 0 <= j < n implies (#[trigger] reg.slots_seq()[j].1).wf() by {
            assert(reg.imap().contains_key(reg.slots_seq()[j].0@));
        }
    }
    while i < n
        invariant
            i <= n,
            n == reg.slots_seq().len(),
            reg.slots_seq().len() == pre0.slots_seq().len(),
            reg.imap() == pre0.imap(),
            forall|j: int|
                0 <= j < n ==> (#[trigger] reg.slots_seq()[j].0) == pre0.slots_seq()[j].0,
            forall|j: int| 0 <= j < n ==> (#[trigger] reg.slots_seq()[j].1).wf(),
            forall|j: int|
                i <= j < n ==> (#[trigger] reg.slots_seq()[j].1) == pre0.slots_seq()[j].1,
            forall|j: int|
                0 <= j < i && is_prefix(namespace@, pre0.slots_seq()[j].0@) ==> {
                    &&& (#[trigger] reg.slots_seq()[j].1).model().entries
                        == pre0.slots_seq()[j].1.model().entries.remove(key@)
                    &&& reg.slots_seq()[j].1.model().policy == pre0.slots_seq()[j].1.model().policy
                    &&& reg.slots_seq()[j].1.model().hits == pre0.slots_seq()[j].1.model().hits
                    &&& reg.slots_seq()[j].1.model().misses == pre0.slots_seq()[j].1.model().misses
                },
            forall|j: int|
                0 <= j < i && !is_prefix(namespace@, pre0.slots_seq()[j].0@) ==> (
                #[trigger] reg.slots_seq()[j].1) == pre0.slots_seq()[j].1,
            found == exists|j: int|
                0 <= j < i && is_prefix(namespace@, #[trigger] pre0.slots_seq()[j].0@)
                    && pre0.slots_seq()[j].1.model().entries.contains_key(key@),
            pre0.wf(),
        decreases n - i,
    {
        let matches_ns = str_starts_with(reg.slots[i].0.as_str(), namespace);
        if matches_ns {
            let slot = &mut reg.slots[i];
            let removed = slot.1.invalidate(key);
            if removed {
                found = true;
            }
            proof {
                if removed {
                    assert(is_prefix(namespace@, pre0.slots_seq()[i as int].0@)
                        && pre0.slots_seq()[i as int].1.model().entries.contains_key(key@));
                }
            }
        }
        i += 1;
    }
    proof {
        assert forall|j: int| 0 <= j < reg.slots_seq().len() implies {
            &&& reg.imap().contains_key(#[trigger] reg.slots_seq()[j].0@)
            &&& reg.imap()[reg.slots_seq()[j].0@] == j
            &&& reg.slots_seq()[j].1.wf()
        } by {
            assert(pre0.imap().contains_key(pre0.slots_seq()[j].0@));
        }
        assert forall|k2: Seq<char>| #[trigger]
            pre0.has(k2) && is_prefix(namespace@, k2) implies {
            &&& reg.cache_model_of(k2).entries == pre0.cache_model_of(k2).entries.remove(key@)
            &&& reg.cache_model_of(k2).policy == pre0.cache_model_of(k2).policy
            &&& reg.cache_model_of(k2).hits == pre0.cache_model_of(k2).hits
            &&& reg.cache_model_of(k2).misses == pre0.cache_model_of(k2).misses
        } by {
            let j = pre0.imap()[k2];
            assert(pre0.slots_seq()[j as int].0@ == k2);
        }
        assert forall|k2: Seq<char>| #[trigger]
            pre0.has(k2) && !is_prefix(namespace@, k2) implies reg.cache_model_of(k2)
            == pre0.cache_model_of(k2) by {
            let j = pre0.imap()[k2];
            assert(pre0.slots_seq()[j as int].0@ == k2);
        }
        assert(found == exists|k2: Seq<char>|
            #[trigger] pre0.has(k2) && is_prefix(namespace@, k2) && pre0.cache_model_of(
                k2,
            ).entries.contains_key(key@)) by {
            if found {
                let j = choose|j: int|
                    0 <= j < pre0.slots_seq().len() && is_prefix(
                        namespace@,
                        #[trigger] pre0.slots_seq()[j].0@,
                    ) && pre0.slots_seq()[j].1.model().entries.contains_key(key@);
                assert(pre0.has(pre0.slots_seq()[j].0@) && is_prefix(
                    namespace@,
                    pre0.slots_seq()[j].0@,
                ) && pre0.cache_model_of(pre0.slots_seq()[j].0@).entries.contains_key(key@));
            } else {
                assert forall|k2: Seq<char>| #[trigger]
                    pre0.has(k2) && is_prefix(namespace@, k2) implies !pre0.cache_model_of(
                    k2,
                ).entries.contains_key(key@) by {
                    let j = pre0.imap()[k2];
                    assert(pre0.slots_seq()[j as int].0@ == k2);
                }
            }
        }
    }
    found
}

/// Clears the contents of every cache in the registry; the caches stay
/// filed and their counters stay.
pub fn cache_clear_all(reg: &mut CacheRegistry)
    requires
        old(reg).wf(),
    ensures
        final(reg).wf(),
        forall|k2: Seq<char>| (#[trigger] final(reg).has(k2)) == old(reg).has(k2),
        forall|k2: Seq<char>| #[trigger]
            old(reg).has(k2) ==> {
                &&& final(reg).cache_model_of(k2).entries == crate::storage::no_entries()
                &&& final(reg).cache_model_of(k2).policy == old(reg).cache_model_of(k2).policy
                &&& final(reg).cache_model_of(k2).hits == old(reg).cache_model_of(k2).hits
                &&& final(reg).cache_model_of(k2).misses == old(reg).cache_model_of(k2).misses
            },
{
    let ghost pre0 = *old(reg);
    let mut i: usize = 0;
    let n = reg.slots.len();
    proof {
        assert forall|j: int| 0 <= j < n implies (#[trigger] reg.slots_seq()[j].1).wf() by {
            assert(reg.imap().contains_key(reg.slots_seq()[j].0@));
        }
    }
    while i < n
        invariant
            i <= n,
            n == reg.slots_seq().len(),
            reg.slots_seq().len() == pre0.slots_seq().len(),
            reg.imap() == pre0.imap(),
            forall|j: int|
                0 <= j < n ==> (#[trigger] reg.slots_seq()[j].0) == pre0.slots_seq()[j].0,
            forall|j: int| 0 <= j < n ==> (#[trigger] reg.slots_seq()[j].1).wf(),
            forall|j: int|
                i <= j < n ==> (#[trigger] reg.slots_seq()[j].1) == pre0.slots_seq()[j].1,
            forall|j: int|
                0 <= j < i ==> {
                    &&& (#[trigger] reg.slots_seq()[j].1).model().entries
                        == crate::storage::no_entries()
                    &&& reg.slots_seq()[j].1.model().policy == pre0.slots_seq()[j].1.model().policy
                    &&& reg.slots_seq()[j].1.model().hits == pre0.slots_seq()[j].1.model().hits
                    &&& reg.slots_seq()[j].1.model().misses == pre0.slots_seq()[j].1.model().misses
                },
            pre0.wf(),
        decreases n - i,
    {
        let slot = &mut reg.slots[i];
        slot.1.clear();
        i += 1;
    }
    proof {
        assert forall|j: int| 0 <= j < reg.slots_seq().len() implies {
            &&& reg.imap().contains_key(#[trigger] reg.slots_seq()[j].0@)
            &&& reg.imap()[reg.slots_seq()[j].0@] == j
            &&& reg.slots_seq()[j].1.wf()
        } by {
            assert(pre0.imap().contains_key(pre0.slots_seq()[j].0@));
        }
        assert forall|k2: Seq<char>| #[trigger] pre0.has(k2) implies {
            &&& reg.cache_model_of(k2).entries == crate::storage::no_entries()
            &&& reg.cache_model_of(k2).policy == pre0.cache_model_of(k2).policy
            &&& reg.cache_model_of(k2).hits == pre0.cache_model_of(k2).hits
            &&& reg.cache_model_of(k2).misses == pre0.cache_model_of(k2).misses
        } by {
            let j = pre0.imap()[k2];
            assert(pre0.slots_seq()[j as int].0@ == k2);
        }
    }
}

/// Clears the contents of every cache whose registry key starts with
/// `namespace`; the caches stay filed and their counters stay.
pub fn cache_clear_namespace(reg: &mut CacheRegistry, namespace: &str)
    requires
        old(reg).wf(),
    ensures
        final(reg).wf(),
        forall|k2: Seq<char>| (#[trigger] final(reg).has(k2)) == old(reg).has(k2),
        forall|k2: Seq<char>| #[trigger]
            old(reg).has(k2) && is_prefix(namespace@, k2) ==> {
                &&& final(reg).cache_model_of(k2).entries == crate::storage::no_entries()
                &&& final(reg).cache_model_of(k2).policy == old(reg).cache_model_of(k2).policy
                &&& final(reg).cache_model_of(k2).hits == old(reg).cache_model_of(k2).hits
                &&& final(reg).cache_model_of(k2).misses == old(reg).cache_model_of(k2).misses
            },
        forall|k2: Seq<char>| #[trigger]
            old(reg).has(k2) && !is_prefix(namespace@, k2) ==> final(reg).cache_model_of(k2) == old(
                reg,
            ).cache_model_of(k2),
{
    let ghost pre0 = *old(reg);
    let mut i: usize = 0;
    let n = reg.slots.len();
    proof {
        assert forall|j: int| 0 <= j < n implies (#[trigger] reg.slots_seq()[j].1).wf() by {
            assert(reg.imap().contains_key(reg.slots_seq()[j].0@));
        }
    }
    while i < n
        invariant
            i <= n,
            n == reg.slots_seq().len(),
            reg.slots_seq().len() == pre0.slots_seq().len(),
            reg.imap() == pre0.imap(),
            forall|j: int|
                0 <= j < n ==> (#[trigger] reg.slots_seq()[j].0) == pre0.slots_seq()[j].0,
            forall|j: int| 0 <= j < n ==> (#[trigger] reg.slots_seq()[j].1).wf(),
            forall|j: int|
                i <= j < n ==> (#[trigger] reg.slots_seq()[j].1) == pre0.slots_seq()[j].1,
            forall|j: int|
                0 <= j < i && is_prefix(namespace@, pre0.slots_seq()[j].0@) ==> {
                    &&& (#[trigger] reg.slots_seq()[j].1).model().entries
                        == crate::storage::no_entries()
                    &&& reg.slots_seq()[j].1.model().policy == pre0.slots_seq()[j].1.model().policy
                    &&& reg.slots_seq()[j].1.model().hits == pre0.slots_seq()[j].1.model().hits
                    &&& reg.slots_seq()[j].1.model().misses == pre0.slots_seq()[j].1.model().misses
                },
            forall|j: int|
                0 <= j < i && !is_prefix(namespace@, pre0.slots_seq()[j].0@) ==> (
                #[trigger] reg.slots_seq()[j].1) == pre0.slots_seq()[j].1,
            pre0.wf(),
        decreases n - i,
    {
        let matches_ns = str_starts_with(reg.slots[i].0.as_str(), namespace);
        if matches_ns {
            let slot = &mut reg.slots[i];
            slot.1.clear();
        }
        i += 1;
    }
    proof {
        assert forall|j: int| 0 <= j < reg.slots_seq().len() implies {
            &&& reg.imap().contains_key(#[trigger] reg.slots_seq()[j].0@)
            &&& reg.imap()[reg.slots_seq()[j].0@] == j
            &&& reg.slots_seq()[j].1.wf()
        } by {
            assert(pre0.imap().contains_key(pre0.slots_seq()[j].0@));
        }
        assert forall|k2: Seq<char>| #[trigger]
            pre0.has(k2) && is_prefix(namespace@, k2) implies {
            &&& reg.cache_model_of(k2).entries == crate::storage::no_entries()
            &&& reg.cache_model_of(k2).policy == pre0.cache_model_of(k2).policy
            &&& reg.cache_model_of(k2).hits == pre0.cache_model_of(k2).hits
            &&& reg.cache_model_of(k2).misses == pre0.cache_model_of(k2).misses
        } by {
            let j = pre0.imap()[k2];
            assert(pre0.slots_seq()[j as int].0@ == k2);
        }
        assert forall|k2: Seq<char>| #[trigger]
            pre0.has(k2) && !is_prefix(namespace@, k2) implies reg.cache_model_of(k2)
            == pre0.cache_model_of(k2) by {
            let j = pre0.imap()[k2];
            assert(pre0.slots_seq()[j as int].0@ == k2);
        }
    }
}

} // verus!
