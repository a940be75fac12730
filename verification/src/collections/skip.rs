//! Ordered maps and sets of the `crossbeam-skiplist` crate, over integers.
//!
//! Every mutating wrapper takes the collection by `&mut`: within the library a collection has a
//! single owner, so its contents change only where a contract says so.

use crossbeam_skiplist::{SkipMap, SkipSet};
use vstd::prelude::*;

verus! {

/// An element of an adjacency list: label, neighbour and edge, ordered as tuples are.
pub type NeighborKey = (u32, u64, u64);

/// Declares `crossbeam_skiplist::SkipMap` as an opaque type.
#[verifier::external_type_specification]
#[verifier::external_body]
#[verifier::reject_recursive_types(K)]
#[verifier::reject_recursive_types(V)]
pub struct ExSkipMap<K, V>(crossbeam_skiplist::SkipMap<K, V>);

/// Declares `crossbeam_skiplist::SkipSet` as an opaque type.
#[verifier::external_type_specification]
#[verifier::external_body]
#[verifier::reject_recursive_types(T)]
pub struct ExSkipSet<T>(crossbeam_skiplist::SkipSet<T>);

/// The key-value pairs that a `SkipMap` holds.
pub uninterp spec fn skip_map_contents(map: SkipMap<u64, u64>) -> Map<u64, u64>;

/// The elements that a `SkipSet` holds.
pub uninterp spec fn skip_set_contents(set: SkipSet<(u32, u64, u64)>) -> Set<(u32, u64, u64)>;

/// The order of tuples: the first component that differs decides.
pub open spec fn neighbor_before(a: NeighborKey, b: NeighborKey) -> bool {
    ||| a.0 < b.0
    ||| a.0 == b.0 && a.1 < b.1
    ||| a.0 == b.0 && a.1 == b.1 && a.2 < b.2
}

/// `SkipMap::new`: a new map holds nothing.
#[verifier::external_body]
pub(crate) fn skip_map_new() -> (map: SkipMap<u64, u64>)
    ensures
        skip_map_contents(map) == (Map::<u64, u64>::empty()),
{
    SkipMap::new()
}

/// `SkipMap::insert`: the key now holds `value`, whatever it held before.
#[verifier::external_body]
pub(crate) fn skip_map_insert(map: &mut SkipMap<u64, u64>, key: u64, value: u64)
    ensures
        skip_map_contents(*final(map)) == skip_map_contents(*old(map)).insert(key, value),
{
    map.insert(key, value);
}

/// `SkipMap::remove`: the key is gone, and the value it held is returned.
#[verifier::external_body]
pub(crate) fn skip_map_remove(map: &mut SkipMap<u64, u64>, key: u64) -> (removed: Option<u64>)
    ensures
        skip_map_contents(*final(map)) == skip_map_contents(*old(map)).remove(key),
        removed is Some <==> skip_map_contents(*old(map)).contains_key(key),
        removed matches Some(v) ==> skip_map_contents(*old(map))[key] == v,
{
    map.remove(&key).map(|entry| *entry.value())
}

/// `SkipMap::front`: the entry with the smallest key, or `None` where the map is empty.
#[verifier::external_body]
pub(crate) fn skip_map_front(map: &SkipMap<u64, u64>) -> (front: Option<(u64, u64)>)
    ensures
        front is None <==> skip_map_contents(*map) == (Map::<u64, u64>::empty()),
        front matches Some((key, value)) ==> {
            &&& skip_map_contents(*map).contains_key(key)
            &&& skip_map_contents(*map)[key] == value
            &&& forall|other: u64| #[trigger]
                skip_map_contents(*map).contains_key(other) ==> key <= other
        },
{
    map.front().map(|entry| (*entry.key(), *entry.value()))
}

/// `SkipMap::iter`: every entry of the map once, by increasing key.
#[verifier::external_body]
pub(crate) fn skip_map_entries(map: &SkipMap<u64, u64>) -> (entries: Vec<(u64, u64)>)
    ensures
        forall|i: int, j: int|
            0 <= i < j < entries@.len() ==> (#[trigger] entries@[i]).0 < (#[trigger] entries@[j]).0,
        forall|i: int|
            0 <= i < entries@.len() ==> {
                &&& skip_map_contents(*map).contains_key((#[trigger] entries@[i]).0)
                &&& skip_map_contents(*map)[entries@[i].0] == entries@[i].1
            },
        forall|key: u64| #[trigger]
            skip_map_contents(*map).contains_key(key) ==> entries@.contains(
                (key, skip_map_contents(*map)[key]),
            ),
{
    map.iter().map(|entry| (*entry.key(), *entry.value())).collect()
}

/// `SkipMap::is_empty`: whether the map holds nothing.
#[verifier::external_body]
pub(crate) fn skip_map_is_empty(map: &SkipMap<u64, u64>) -> (empty: bool)
    ensures
        empty <==> skip_map_contents(*map) == (Map::<u64, u64>::empty()),
{
    map.is_empty()
}

/// `SkipSet::new`: a new set holds nothing.
#[verifier::external_body]
pub(crate) fn skip_set_new() -> (set: SkipSet<(u32, u64, u64)>)
    ensures
        skip_set_contents(set) == (Set::<(u32, u64, u64)>::empty()),
{
    SkipSet::new()
}

/// `SkipSet::insert`: the element is in the set.
#[verifier::external_body]
pub(crate) fn skip_set_insert(set: &mut SkipSet<(u32, u64, u64)>, element: (u32, u64, u64))
    ensures
        skip_set_contents(*final(set)) == skip_set_contents(*old(set)).insert(element),
{
    set.insert(element);
}

/// `SkipSet::remove`: the element is not in the set any more, and the result says whether it was.
#[verifier::external_body]
pub(crate) fn skip_set_remove(
    set: &mut SkipSet<(u32, u64, u64)>,
    element: (u32, u64, u64),
) -> (removed: bool)
    ensures
        skip_set_contents(*final(set)) == skip_set_contents(*old(set)).remove(element),
        removed == skip_set_contents(*old(set)).contains(element),
{
    set.remove(&element).is_some()
}

/// `SkipSet::front`: the smallest element of the finitely many, or `None` where the set is empty.
#[verifier::external_body]
pub(crate) fn skip_set_front(set: &SkipSet<(u32, u64, u64)>) -> (front: Option<(u32, u64, u64)>)
    ensures
        front is None <==> skip_set_contents(*set) == (Set::<(u32, u64, u64)>::empty()),
        front matches Some(element) ==> {
            &&& skip_set_contents(*set).finite()
            &&& skip_set_contents(*set).contains(element)
            &&& forall|other: NeighborKey| #[trigger]
                skip_set_contents(*set).contains(other) ==> element == other || neighbor_before(
                    element,
                    other,
                )
        },
{
    set.front().map(|entry| *entry.value())
}

/// `SkipSet::get` followed by `Entry::next`: the smallest element above `element`, or `None`
/// where `element` is not in the set or is its greatest element.
#[verifier::external_body]
pub(crate) fn skip_set_after(
    set: &SkipSet<(u32, u64, u64)>,
    element: (u32, u64, u64),
) -> (next: Option<(u32, u64, u64)>)
    ensures
        next matches Some(found) ==> {
            &&& skip_set_contents(*set).contains(element)
            &&& skip_set_contents(*set).contains(found)
            &&& neighbor_before(element, found)
            &&& forall|other: NeighborKey| #[trigger]
                skip_set_contents(*set).contains(other) && neighbor_before(element, other)
                    ==> found == other || neighbor_before(found, other)
        },
        next is None && skip_set_contents(*set).contains(element) ==> forall|other: NeighborKey|
         #[trigger]
            skip_set_contents(*set).contains(other) ==> !neighbor_before(element, other),
{
    set.get(&element).and_then(|entry| entry.next()).map(|entry| *entry.value())
}

/// `SkipSet::iter`: every element of the set once, in increasing order.
#[verifier::external_body]
pub(crate) fn skip_set_elements(set: &SkipSet<(u32, u64, u64)>) -> (elements: Vec<
    (u32, u64, u64),
>)
    ensures
        forall|i: int, j: int|
            0 <= i < j < elements@.len() ==> neighbor_before(
                #[trigger] elements@[i],
                #[trigger] elements@[j],
            ),
        forall|element: NeighborKey| #[trigger]
            elements@.contains(element) <==> skip_set_contents(*set).contains(element),
{
    set.iter().map(|entry| *entry.value()).collect()
}

} // verus!
