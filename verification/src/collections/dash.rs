//! Hash maps and hash sets of the `dashmap` crate, over integer keys.
//!
//! Every mutating wrapper takes the collection by `&mut`: within the library a collection has a
//! single owner, so its contents change only where a contract says so.

use std::collections::hash_map::RandomState;

use dashmap::{DashMap, DashSet};
use vstd::prelude::*;

verus! {

/// Declares `dashmap::DashMap` as an opaque type.
#[verifier::external_type_specification]
#[verifier::external_body]
#[verifier::reject_recursive_types(K)]
#[verifier::reject_recursive_types(V)]
#[verifier::reject_recursive_types(S)]
pub struct ExDashMap<K, V, S>(dashmap::DashMap<K, V, S>);

/// Declares `dashmap::DashSet` as an opaque type.
#[verifier::external_type_specification]
#[verifier::external_body]
#[verifier::reject_recursive_types(K)]
#[verifier::reject_recursive_types(S)]
pub struct ExDashSet<K, S>(dashmap::DashSet<K, S>);

/// The key-value pairs that a `DashMap` holds.
pub uninterp spec fn dash_map_contents(map: DashMap<u64, u64, RandomState>) -> Map<u64, u64>;

/// The keys that a `DashSet` holds.
pub uninterp spec fn dash_set_contents(set: DashSet<u64, RandomState>) -> Set<u64>;

/// `DashMap::new`: a new map holds nothing.
#[verifier::external_body]
pub(crate) fn dash_map_new() -> (map: DashMap<u64, u64, RandomState>)
    ensures
        dash_map_contents(map) == (Map::<u64, u64>::empty()),
{
    DashMap::new()
}

/// `DashMap::get`: the value stored under `key`, copied out of the map, or `None` where there is
/// no such key.
#[verifier::external_body]
pub(crate) fn dash_map_get(map: &DashMap<u64, u64, RandomState>, key: u64) -> (value: Option<u64>)
    ensures
        value is Some <==> dash_map_contents(*map).contains_key(key),
        value matches Some(v) ==> dash_map_contents(*map)[key] == v,
{
    map.get(&key).map(|entry| *entry.value())
}

/// `DashMap::insert`: the key now holds `value`, whatever it held before, and that former value
/// is returned.
#[verifier::external_body]
pub(crate) fn dash_map_insert(
    map: &mut DashMap<u64, u64, RandomState>,
    key: u64,
    value: u64,
) -> (previous: Option<u64>)
    ensures
        dash_map_contents(*final(map)) == dash_map_contents(*old(map)).insert(key, value),
        previous is Some <==> dash_map_contents(*old(map)).contains_key(key),
        previous matches Some(v) ==> dash_map_contents(*old(map))[key] == v,
{
    map.insert(key, value)
}

/// `DashMap::remove`: the key is gone, and the value it held is returned.
#[verifier::external_body]
pub(crate) fn dash_map_remove(
    map: &mut DashMap<u64, u64, RandomState>,
    key: u64,
) -> (removed: Option<u64>)
    ensures
        dash_map_contents(*final(map)) == dash_map_contents(*old(map)).remove(key),
        removed is Some <==> dash_map_contents(*old(map)).contains_key(key),
        removed matches Some(v) ==> dash_map_contents(*old(map))[key] == v,
{
    map.remove(&key).map(|pair| pair.1)
}

/// `DashSet::new`: a new set holds nothing.
#[verifier::external_body]
pub(crate) fn dash_set_new() -> (set: DashSet<u64, RandomState>)
    ensures
        dash_set_contents(set) == Set::<u64>::empty(),
{
    DashSet::new()
}

/// `DashSet::insert`: the key is in the set, and the result says whether it is new there.
#[verifier::external_body]
pub(crate) fn dash_set_insert(set: &mut DashSet<u64, RandomState>, key: u64) -> (added: bool)
    ensures
        dash_set_contents(*final(set)) == dash_set_contents(*old(set)).insert(key),
        added == !dash_set_contents(*old(set)).contains(key),
{
    set.insert(key)
}

/// `DashSet::iter`: every key of the set once, in an order that is left open.
#[verifier::external_body]
pub(crate) fn dash_set_keys(set: &DashSet<u64, RandomState>) -> (keys: Vec<u64>)
    ensures
        keys@.no_duplicates(),
        forall|key: u64| #[trigger] keys@.contains(key) <==> dash_set_contents(*set).contains(key),
{
    set.iter().map(|entry| *entry.key()).collect()
}

} // verus!
