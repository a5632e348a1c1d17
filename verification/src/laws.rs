use vstd::prelude::*;

use crate::cache::{
    fresh_view, get_post, hit_at, insert_post, live_keys, maintained, policy_capacity,
    policy_ttl_dur, policy_ttl_kind, try_get_post, CacheModel,
};
use crate::entry::{expired_at, inc_sat, order_le, touched_view, EntryView, EvictionPolicy, TtlType};

verus! {

/// Every entry of the table carries exactly the TTL metadata its cache's
/// policy stamps on new entries.  This holds of every cache built by
/// `Cache::with_policy` and is preserved by every operation.
pub open spec fn stamped(m: CacheModel) -> bool {
    forall|k: Seq<char>| #[trigger]
        m.entries.contains_key(k) ==> m.entries[k].ttl == policy_ttl_dur(m.policy)
            && m.entries[k].ttl_type == policy_ttl_kind(m.policy)
}

/// A lookup-or-compute step keeps the table stamped with its policy's TTL
/// metadata.
pub proof fn lemma_get_preserves_stamping(
    pre: CacheModel,
    post: CacheModel,
    k: Seq<char>,
    r: Seq<char>,
    now: u64,
)
    requires
        stamped(pre),
        get_post(pre, post, k, r, now),
    ensures
        stamped(post),
{
}

/// A computation-free lookup step keeps the table stamped with its policy's
/// TTL metadata.
pub proof fn lemma_try_get_preserves_stamping(
    pre: CacheModel,
    post: CacheModel,
    k: Seq<char>,
    r: Option<Seq<char>>,
    now: u64,
)
    requires
        stamped(pre),
        try_get_post(pre, post, k, r, now),
    ensures
        stamped(post),
{
}

/// An insertion step keeps the table stamped with its policy's TTL metadata.
pub proof fn lemma_insert_preserves_stamping(
    pre: CacheModel,
    post: CacheModel,
    k: Seq<char>,
    v: Seq<char>,
    now: u64,
)
    requires
        stamped(pre),
        insert_post(pre, post, k, v, now),
    ensures
        stamped(post),
{
}

/// Law: under `NoEviction`, maintenance is the identity on a table whose
/// entries carry no TTL: nothing is ever evicted by time or count.
pub proof fn lemma_maintain_no_eviction(
    pre: Map<Seq<char>, EntryView>,
    post: Map<Seq<char>, EntryView>,
    now: u64,
)
    requires
        maintained(pre, post, EvictionPolicy::NoEviction, now),
        forall|k: Seq<char>| #[trigger] pre.contains_key(k) ==> pre[k].ttl is None,
    ensures
        post =~= pre,
{
}

/// Law: under `NoEviction`, a lookup-or-compute step keeps every present
/// entry and leaves the looked-up key present: the table only ever grows.
pub proof fn lemma_no_eviction_get(
    pre: CacheModel,
    post: CacheModel,
    k: Seq<char>,
    r: Seq<char>,
    now: u64,
)
    requires
        pre.policy == EvictionPolicy::NoEviction,
        stamped(pre),
        get_post(pre, post, k, r, now),
    ensures
        post.entries.contains_key(k),
        forall|k2: Seq<char>| #[trigger]
            pre.entries.contains_key(k2) ==> post.entries.contains_key(k2),
        forall|k2: Seq<char>| #[trigger]
            pre.entries.contains_key(k2) && k2 != k ==> post.entries[k2] == pre.entries[k2],
{
    if !hit_at(pre, k, now) {
        let mid = pre.entries.insert(k, crate::cache::fresh_view(r, pre.policy, now));
        lemma_maintain_no_eviction(mid, post.entries, now);
    }
}

/// Law: under `NoEviction`, an insertion step keeps every other entry and
/// stores the new one: the table only ever grows.
pub proof fn lemma_no_eviction_insert(
    pre: CacheModel,
    post: CacheModel,
    k: Seq<char>,
    v: Seq<char>,
    now: u64,
)
    requires
        pre.policy == EvictionPolicy::NoEviction,
        stamped(pre),
        insert_post(pre, post, k, v, now),
    ensures
        post.entries.contains_key(k),
        forall|k2: Seq<char>| #[trigger]
            pre.entries.contains_key(k2) ==> post.entries.contains_key(k2),
        forall|k2: Seq<char>| #[trigger]
            pre.entries.contains_key(k2) && k2 != k ==> post.entries[k2] == pre.entries[k2],
{
    let mid = pre.entries.insert(k, crate::cache::fresh_view(v, pre.policy, now));
    lemma_maintain_no_eviction(mid, post.entries, now);
}

/// The image of an entry after any sequence of touches, in order.
pub open spec fn apply_touches(e: EntryView, ts: Seq<u64>) -> EntryView
    decreases ts.len(),
{
    if ts.len() == 0 {
        e
    } else {
        apply_touches(touched_view(e, ts[0]), ts.subrange(1, ts.len() as int))
    }
}

/// Law: an entry with a fixed TTL of `d` is expired at `t` exactly when `t`
/// has reached `created_at + d`, no matter how often or when it was touched
/// in between.
pub proof fn lemma_fixed_ttl_expiry(e: EntryView, d: u64, ts: Seq<u64>, t: u64)
    requires
        e.ttl == Option::Some(d),
        e.ttl_type == Option::Some(TtlType::Fixed),
    ensures
        expired_at(apply_touches(e, ts), t) <==> t >= e.created_at + d,
    decreases ts.len(),
{
    if ts.len() > 0 {
        lemma_fixed_ttl_expiry(touched_view(e, ts[0]), d, ts.subrange(1, ts.len() as int), t);
    }
}

/// Law: an entry with a sliding TTL of `d` is expired at `now` exactly when
/// the gap since its last access has reached `d`; a touch moves that
/// deadline forward.
pub proof fn lemma_sliding_ttl_step(e: EntryView, d: u64, now: u64)
    requires
        e.ttl == Option::Some(d),
        e.ttl_type == Option::Some(TtlType::Sliding),
    ensures
        expired_at(e, now) <==> now >= e.last_accessed + d,
        touched_view(e, now).ttl == e.ttl,
        touched_view(e, now).ttl_type == e.ttl_type,
        touched_view(e, now).last_accessed >= e.last_accessed,
{
}

/// Reads at the times of `ts`, each at or after the previous access and
/// strictly less than `d` later.
pub open spec fn reads_spaced_lt(start: u64, ts: Seq<u64>, d: u64) -> bool
    decreases ts.len(),
{
    ts.len() == 0 || (start <= ts[0] && ts[0] < start + d && reads_spaced_lt(
        ts[0],
        ts.subrange(1, ts.len() as int),
        d,
    ))
}

/// Every read in `ts`, applied in order with its touch, finds the entry
/// unexpired.
pub open spec fn all_reads_hit(e: EntryView, ts: Seq<u64>) -> bool
    decreases ts.len(),
{
    ts.len() == 0 || (!expired_at(e, ts[0]) && all_reads_hit(
        touched_view(e, ts[0]),
        ts.subrange(1, ts.len() as int),
    ))
}

/// Law: reads spaced strictly less than `d` apart keep a sliding-TTL entry
/// alive through every read, indefinitely.
pub proof fn lemma_sliding_keepalive(e: EntryView, d: u64, ts: Seq<u64>)
    requires
        e.ttl == Option::Some(d),
        e.ttl_type == Option::Some(TtlType::Sliding),
        reads_spaced_lt(e.last_accessed, ts, d),
    ensures
        all_reads_hit(e, ts),
    decreases ts.len(),
{
    if ts.len() > 0 {
        let e2 = touched_view(e, ts[0]);
        assert(e2.last_accessed == ts[0]);
        lemma_sliding_keepalive(e2, d, ts.subrange(1, ts.len() as int));
    }
}

/// Law: under a policy with capacity `c`, maintenance leaves at most `c`
/// entries, and every unexpired entry it evicted was no more recently
/// touched than any survivor (ties broken by earliest creation).
pub proof fn lemma_capacity_bound(
    pre: Map<Seq<char>, EntryView>,
    post: Map<Seq<char>, EntryView>,
    c: usize,
    p: EvictionPolicy,
    now: u64,
)
    requires
        policy_capacity(p) == Option::Some(c),
        maintained(pre, post, p, now),
    ensures
        post.dom().len() <= c as nat,
        forall|e: Seq<char>, k: Seq<char>|
            #![trigger post.contains_key(e), post.contains_key(k)]
            pre.contains_key(e) && !expired_at(pre[e], now) && !post.contains_key(e)
                && post.contains_key(k) && pre.contains_key(k) ==> crate::entry::order_le(
                pre[e],
                pre[k],
            ),
{
}

/// Law: a lookup of a present, unexpired key is a hit: it returns the stored
/// value unchanged, bumps only the hit counter, and never recomputes.
pub proof fn lemma_hit_before_expiry(
    pre: CacheModel,
    post: CacheModel,
    k: Seq<char>,
    r: Seq<char>,
    t: u64,
)
    requires
        pre.entries.contains_key(k),
        !expired_at(pre.entries[k], t),
        get_post(pre, post, k, r, t),
    ensures
        r == pre.entries[k].value,
        post.hits == inc_sat(pre.hits),
        post.misses == pre.misses,
        post.entries.contains_key(k),
        post.entries[k].value == pre.entries[k].value,
{
}

/// Law: a computation-free lookup of an absent key returns nothing and
/// leaves the table and both counters unchanged.
pub proof fn lemma_absent_try_get(
    pre: CacheModel,
    post: CacheModel,
    k: Seq<char>,
    r: Option<Seq<char>>,
    now: u64,
)
    requires
        !pre.entries.contains_key(k),
        try_get_post(pre, post, k, r, now),
    ensures
        r is None,
        post.entries == pre.entries,
        post.hits == pre.hits,
        post.misses == pre.misses,
{
}

/// Law: after `k` is invalidated, a computation-free lookup of `k` returns
/// nothing and changes nothing further.
pub proof fn lemma_invalidate_then_try_get(
    m0: CacheModel,
    m1: CacheModel,
    m2: CacheModel,
    k: Seq<char>,
    r: Option<Seq<char>>,
    now: u64,
)
    requires
        m1.entries == m0.entries.remove(k),
        try_get_post(m1, m2, k, r, now),
    ensures
        r is None,
        m2.entries == m1.entries,
        m2.hits == m1.hits,
        m2.misses == m1.misses,
{
}


/// Law: maintenance keeps an unexpired entry that is strictly the most
/// recently used one, under any policy with room for at least one entry.
pub proof fn lemma_newest_survives_maintenance(
    mid: Map<Seq<char>, EntryView>,
    post: Map<Seq<char>, EntryView>,
    p: EvictionPolicy,
    k: Seq<char>,
    now: u64,
)
    requires
        maintained(mid, post, p, now),
        mid.dom().finite(),
        mid.contains_key(k),
        !expired_at(mid[k], now),
        forall|k2: Seq<char>| #[trigger]
            mid.contains_key(k2) && k2 != k ==> mid[k2].last_accessed < mid[k].last_accessed,
        match policy_capacity(p) {
            Option::Some(c) => c >= 1,
            Option::None => true,
        },
    ensures
        post.contains_key(k),
        post[k] == mid[k],
{
    match policy_capacity(p) {
        Option::None => {},
        Option::Some(c) => {
            let live = live_keys(mid, now);
            assert(live.contains(k));
            vstd::set_lib::lemma_len_subset(Set::empty().insert(k), live);
            assert(live.len() >= 1);
            if !post.contains_key(k) {
                assert(post.dom().len() >= 1);
                let s = post.dom().choose();
                if post.dom() =~= Set::empty() {
                    assert(false);
                }
                assert(post.dom().contains(s));
                assert(post.contains_key(s));
                assert(s != k);
                assert(mid[s].last_accessed < mid[k].last_accessed);
                assert(order_le(mid[k], mid[s]));
                assert(false);
            }
        },
    }
}

/// Law: an insertion whose entry is unexpired and strictly more recently
/// used than everything else leaves that entry present, under any policy
/// with room for at least one entry.
pub proof fn lemma_fresh_insert_survives(
    pre: CacheModel,
    post: CacheModel,
    k: Seq<char>,
    v: Seq<char>,
    now: u64,
)
    requires
        insert_post(pre, post, k, v, now),
        pre.entries.dom().finite(),
        !expired_at(fresh_view(v, pre.policy, now), now),
        forall|k2: Seq<char>| #[trigger]
            pre.entries.contains_key(k2) && k2 != k ==> pre.entries[k2].last_accessed < now,
        match policy_capacity(pre.policy) {
            Option::Some(c) => c >= 1,
            Option::None => true,
        },
    ensures
        post.entries.contains_key(k),
        post.entries[k] == fresh_view(v, pre.policy, now),
{
    let mid = pre.entries.insert(k, fresh_view(v, pre.policy, now));
    lemma_newest_survives_maintenance(mid, post.entries, pre.policy, k, now);
}

/// Law: a miss of `k` stores the computed value fresh, counts exactly one
/// miss, and the stored entry survives maintenance when it is strictly the
/// most recently used and the policy has room for at least one entry.
pub proof fn lemma_miss_get_stores(
    pre: CacheModel,
    post: CacheModel,
    k: Seq<char>,
    r: Seq<char>,
    now: u64,
)
    requires
        get_post(pre, post, k, r, now),
        !hit_at(pre, k, now),
        pre.entries.dom().finite(),
        !expired_at(fresh_view(r, pre.policy, now), now),
        forall|k2: Seq<char>| #[trigger]
            pre.entries.contains_key(k2) && k2 != k ==> pre.entries[k2].last_accessed < now,
        match policy_capacity(pre.policy) {
            Option::Some(c) => c >= 1,
            Option::None => true,
        },
    ensures
        post.entries.contains_key(k),
        post.entries[k] == fresh_view(r, pre.policy, now),
        post.hits == pre.hits,
        post.misses == inc_sat(pre.misses),
{
    let mid = pre.entries.insert(k, fresh_view(r, pre.policy, now));
    lemma_newest_survives_maintenance(mid, post.entries, pre.policy, k, now);
}
} // verus!
