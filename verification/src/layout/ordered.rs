//! The insertion-ordered collections of the `indexmap` crate, as the layout uses them.
//!
//! Verus does not look inside these collections. What they hold is named by
//! the two functions below, and the contract of each wrapper says what the
//! documentation of the wrapped method says, over those names.

use vstd::prelude::*;
use indexmap::{IndexMap, IndexSet};
use std::collections::hash_map::RandomState;
use crate::math::vec2::Vec2;

verus! {

/// `indexmap::IndexMap`, a hash map that keeps its entries in insertion order.
#[verifier::external_type_specification]
#[verifier::external_body]
#[verifier::reject_recursive_types(K)]
#[verifier::reject_recursive_types(V)]
#[verifier::reject_recursive_types(S)]
pub struct ExIndexMap<K, V, S>(IndexMap<K, V, S>);

/// `indexmap::IndexSet`, a hash set that keeps its items in insertion order.
#[verifier::external_type_specification]
#[verifier::external_body]
#[verifier::reject_recursive_types(T)]
#[verifier::reject_recursive_types(S)]
pub struct ExIndexSet<T, S>(IndexSet<T, S>);

/// The entries of a map from widget ids to sizes, in the order of the map.
pub uninterp spec fn size_entries(map: IndexMap<usize, Vec2, RandomState>) -> Seq<(usize, Vec2)>;

/// The items of a set of widget ids, in the order of the set.
pub uninterp spec fn set_items(set: IndexSet<usize, RandomState>) -> Seq<usize>;

/// Whether `key` is the key of some entry.
pub open spec fn has_key(entries: Seq<(usize, Vec2)>, key: usize) -> bool {
    exists|i: int| 0 <= i < entries.len() && (#[trigger] entries[i]).0 == key
}

/// The entries after `key` has been given `value`: the entry of `key` keeps
/// its place and gets the value, or a new entry comes last.
pub open spec fn with_entry(entries: Seq<(usize, Vec2)>, key: usize, value: Vec2) -> Seq<
    (usize, Vec2),
> {
    if has_key(entries, key) {
        let i = choose|i: int| 0 <= i < entries.len() && (#[trigger] entries[i]).0 == key;
        entries.update(i, (key, value))
    } else {
        entries.push((key, value))
    }
}

/// The items after `item` has left by a swap: the last item takes its place.
pub open spec fn swap_removed(items: Seq<usize>, item: usize) -> Seq<usize> {
    if items.contains(item) {
        let i = items.index_of(item);
        items.update(i, items.last()).drop_last()
    } else {
        items
    }
}

/// What is left after a swap removal from a list without duplicates: the
/// items of the list but the removed one.
pub proof fn lemma_swap_removed(items: Seq<usize>, item: usize, other: usize)
    requires
        items.no_duplicates(),
    ensures
        swap_removed(items, item).contains(other) <==> items.contains(other) && other != item,
{
    let after = swap_removed(items, item);
    if items.contains(item) {
        let i = items.index_of(item);
        assert(0 <= i < items.len() && items[i] == item);
        if after.contains(other) {
            let j = choose|j: int| 0 <= j < after.len() && after[j] == other;
            if j == i {
                assert(items[items.len() - 1] == other);
            } else {
                assert(items[j] == other);
            }
        }
        if items.contains(other) && other != item {
            let j = choose|j: int| 0 <= j < items.len() && items[j] == other;
            if j == items.len() - 1 {
                assert(after[i] == other);
            } else {
                assert(after[j] == other);
            }
        }
    }
}

/// `IndexMap::new`: a map without entries.
#[verifier::external_body]
pub(crate) fn index_map_new() -> (map: IndexMap<usize, Vec2>)
    ensures
        size_entries(map) == Seq::<(usize, Vec2)>::empty(),
{
    IndexMap::new()
}

/// `IndexMap::insert`: where the key is present it keeps its place in the
/// order and its value is replaced; otherwise the pair is inserted last.
#[verifier::external_body]
pub(crate) fn index_map_insert(map: &mut IndexMap<usize, Vec2>, key: usize, value: Vec2)
    ensures
        size_entries(*final(map)) == with_entry(size_entries(*old(map)), key, value),
{
    map.insert(key, value);
}

/// `IndexSet::new`: a set without items.
#[verifier::external_body]
pub(crate) fn index_set_new() -> (set: IndexSet<usize>)
    ensures
        set_items(set) == Seq::<usize>::empty(),
        set_items(set).no_duplicates(),
{
    IndexSet::new()
}

/// `IndexSet::insert`: an item that is present stays where it is and the
/// call returns `false`; a new item is inserted last and the call returns
/// `true`. As it is a set, it holds no item twice.
#[verifier::external_body]
pub(crate) fn index_set_insert(set: &mut IndexSet<usize>, item: usize) -> (fresh: bool)
    ensures
        fresh == !set_items(*old(set)).contains(item),
        set_items(*final(set)) == if fresh {
            set_items(*old(set)).push(item)
        } else {
            set_items(*old(set))
        },
        set_items(*final(set)).no_duplicates(),
{
    set.insert(item)
}

/// `IndexSet::swap_remove`: removes the item by swapping it with the last
/// item and popping it off; returns whether the item was present.
#[verifier::external_body]
pub(crate) fn index_set_swap_remove(set: &mut IndexSet<usize>, item: usize) -> (present: bool)
    ensures
        present == set_items(*old(set)).contains(item),
        set_items(*final(set)) == swap_removed(set_items(*old(set)), item),
        set_items(*final(set)).no_duplicates(),
{
    set.swap_remove(&item)
}

/// `IndexSet::pop`: removes the last item and returns it; the order of the
/// remaining items stays.
#[verifier::external_body]
pub(crate) fn index_set_pop(set: &mut IndexSet<usize>) -> (item: Option<usize>)
    ensures
        match item {
            Some(last) => set_items(*old(set)).len() > 0 && last == set_items(*old(set)).last()
                && set_items(*final(set)) == set_items(*old(set)).drop_last(),
            None => set_items(*old(set)).len() == 0 && set_items(*final(set)) == set_items(
                *old(set),
            ),
        },
        set_items(*final(set)).no_duplicates(),
{
    set.pop()
}

} // verus!
