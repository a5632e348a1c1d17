use vstd::prelude::*;

use crate::entry::{CacheEntry, EntryView};
use dashmap::DashMap;
use std::collections::hash_map::RandomState;

verus! {

// The cache keeps its entries, and the registry its name-to-slot index, in
// `dashmap::DashMap`, a sharded concurrent hash map.  The declarations and
// wrappers below are the only place the library touches it; everything else
// reasons over the two content maps `entry_map` and `index_map`.

#[verifier::external_type_specification]
#[verifier::external_body]
#[verifier::reject_recursive_types(K)]
#[verifier::reject_recursive_types(V)]
#[verifier::reject_recursive_types(S)]
pub struct ExDashMap<K, V, S>(DashMap<K, V, S>);

/// What a cache's table holds: its key strings mapped to the images of their
/// entries.
pub uninterp spec fn entry_map(t: DashMap<String, CacheEntry<String>, RandomState>) -> Map<
    Seq<char>,
    EntryView,
>;

/// What a registry's index holds: composed cache names mapped to slot
/// positions.
pub uninterp spec fn index_map(t: DashMap<String, usize, RandomState>) -> Map<Seq<char>, usize>;

/// The empty contents of a fresh entry table.
pub open spec fn no_entries() -> Map<Seq<char>, EntryView> {
    Map::empty()
}

/// The empty contents of a fresh index.
pub open spec fn no_slots() -> Map<Seq<char>, usize> {
    Map::empty()
}

/// Relies on dashmap::DashMap::new: creates an empty map.
#[verifier::external_body]
pub(crate) fn table_new() -> (r: DashMap<String, CacheEntry<String>, RandomState>)
    ensures
        entry_map(r) == no_entries(),
{
    DashMap::new()
}

/// Relies on dashmap::DashMap::get: returns the entry stored under the key,
/// if any; this wrapper hands back a clone of it.
#[verifier::external_body]
pub(crate) fn table_get(
    t: &DashMap<String, CacheEntry<String>, RandomState>,
    key: &str,
) -> (r: Option<CacheEntry<String>>)
    ensures
        match r {
            Option::Some(e) => entry_map(*t).contains_key(key@) && e@ == entry_map(*t)[key@],
            Option::None => !entry_map(*t).contains_key(key@),
        },
{
    t.get(key).map(|g| g.value().clone())
}

/// Relies on dashmap::DashMap::insert: stores the entry under the key,
/// replacing any previous one.
#[verifier::external_body]
pub(crate) fn table_insert(
    t: &mut DashMap<String, CacheEntry<String>, RandomState>,
    key: &str,
    e: CacheEntry<String>,
)
    ensures
        entry_map(*final(t)) == entry_map(*old(t)).insert(key@, e@),
{
    t.insert(key.to_string(), e);
}

/// Relies on dashmap::DashMap::remove: takes the entry under the key out of
/// the map and reports whether one was there.
#[verifier::external_body]
pub(crate) fn table_remove(
    t: &mut DashMap<String, CacheEntry<String>, RandomState>,
    key: &str,
) -> (r: bool)
    ensures
        entry_map(*final(t)) == entry_map(*old(t)).remove(key@),
        r == entry_map(*old(t)).contains_key(key@),
{
    t.remove(key).is_some()
}

/// Relies on dashmap::DashMap::clear: removes every entry.
#[verifier::external_body]
pub(crate) fn table_clear(t: &mut DashMap<String, CacheEntry<String>, RandomState>)
    ensures
        entry_map(*final(t)) == no_entries(),
{
    t.clear();
}

/// Relies on dashmap::DashMap::len: the number of stored entries.
#[verifier::external_body]
pub(crate) fn table_len(t: &DashMap<String, CacheEntry<String>, RandomState>) -> (r: usize)
    ensures
        r as nat == entry_map(*t).dom().len(),
{
    t.len()
}

/// Relies on dashmap::DashMap::iter: visits each entry exactly once; this
/// wrapper collects clones of the keys and entries, in no promised order.
#[verifier::external_body]
pub(crate) fn table_entries(t: &DashMap<String, CacheEntry<String>, RandomState>) -> (r: Vec<
    (String, CacheEntry<String>),
>)
    ensures
        r@.len() == entry_map(*t).dom().len(),
        forall|i: int|
            0 <= i < r@.len() ==> entry_map(*t).contains_key(#[trigger] r@[i].0@) && entry_map(
                *t,
            )[r@[i].0@] == r@[i].1@,
        forall|i: int, j: int| 0 <= i < j < r@.len() ==> r@[i].0@ != r@[j].0@,
        forall|k: Seq<char>|
            entry_map(*t).contains_key(k) ==> exists|i: int|
                0 <= i < r@.len() && #[trigger] r@[i].0@ == k,
{
    t.iter().map(|g| (g.key().clone(), g.value().clone())).collect()
}

/// Relies on dashmap::DashMap::new: creates an empty map.
#[verifier::external_body]
pub(crate) fn index_new() -> (r: DashMap<String, usize, RandomState>)
    ensures
        index_map(r) == no_slots(),
{
    DashMap::new()
}

/// Relies on dashmap::DashMap::get: returns the slot stored under the key,
/// if any.
#[verifier::external_body]
pub(crate) fn index_get(t: &DashMap<String, usize, RandomState>, key: &str) -> (r: Option<usize>)
    ensures
        match r {
            Option::Some(i) => index_map(*t).contains_key(key@) && i == index_map(*t)[key@],
            Option::None => !index_map(*t).contains_key(key@),
        },
{
    t.get(key).map(|g| *g.value())
}

/// Relies on dashmap::DashMap::insert: stores the slot under the key,
/// replacing any previous one.
#[verifier::external_body]
pub(crate) fn index_insert(t: &mut DashMap<String, usize, RandomState>, key: &str, slot: usize)
    ensures
        index_map(*final(t)) == index_map(*old(t)).insert(key@, slot),
{
    t.insert(key.to_string(), slot);
}

} // verus!
