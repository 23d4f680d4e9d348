//! The concurrent map behind the host tier.
//!
//! An item is a tuple of integers: the bytes of pinned memory, the width and
//! the height in pixels, the layout's code, and the tick of the last use.  The
//! tier owns its map and reaches it by an exclusive reference, so no other
//! thread changes it between two calls.

use dashmap::DashMap;
use std::collections::hash_map::RandomState;
use vstd::prelude::*;

verus! {

/// `dashmap::DashMap`.  Nothing is claimed of the type itself.
#[verifier::external_type_specification]
#[verifier::external_body]
#[verifier::reject_recursive_types(K)]
#[verifier::reject_recursive_types(V)]
#[verifier::reject_recursive_types(S)]
pub struct ExDashMap<K, V, S>(DashMap<K, V, S>);

/// What a map holds, keyed by the bytes of the content hash.
pub uninterp spec fn held(
    map: DashMap<[u8; 32], (u64, u32, u32, u8, u64), RandomState>,
) -> Map<Seq<u8>, (u64, u32, u32, u8, u64)>;

/// `DashMap::new`: the map holds nothing.
#[verifier::external_body]
pub(crate) fn new_map() -> (map: DashMap<[u8; 32], (u64, u32, u32, u8, u64), RandomState>)
    ensures
        held(map).dom() == Set::<Seq<u8>>::empty(),
{
    DashMap::new()
}

/// `DashMap::len`: the number of keys that the map holds.
#[verifier::external_body]
pub(crate) fn map_len(
    map: &DashMap<[u8; 32], (u64, u32, u32, u8, u64), RandomState>,
) -> (n: usize)
    ensures
        n == held(*map).dom().len(),
{
    map.len()
}

/// `DashMap::is_empty`: whether the map holds no key.
#[verifier::external_body]
pub(crate) fn map_is_empty(
    map: &DashMap<[u8; 32], (u64, u32, u32, u8, u64), RandomState>,
) -> (b: bool)
    ensures
        b == (held(*map).dom().len() == 0),
{
    map.is_empty()
}

/// `DashMap::get`: the item under the key, if the map holds one.
#[verifier::external_body]
pub(crate) fn map_get(
    map: &DashMap<[u8; 32], (u64, u32, u32, u8, u64), RandomState>,
    key: &[u8; 32],
) -> (r: Option<(u64, u32, u32, u8, u64)>)
    ensures
        r == (if held(*map).dom().contains(key@) {
            Some(held(*map)[key@])
        } else {
            None
        }),
{
    map.get(key).map(|item| *item.value())
}

/// `DashMap::insert`: the map then holds the item under the key; the item
/// that stood there before comes back.
#[verifier::external_body]
pub(crate) fn map_insert(
    map: &mut DashMap<[u8; 32], (u64, u32, u32, u8, u64), RandomState>,
    key: [u8; 32],
    item: (u64, u32, u32, u8, u64),
) -> (prior: Option<(u64, u32, u32, u8, u64)>)
    ensures
        held(*final(map)) == held(*old(map)).insert(key@, item),
        prior == (if held(*old(map)).dom().contains(key@) {
            Some(held(*old(map))[key@])
        } else {
            None
        }),
{
    map.insert(key, item)
}

/// `DashMap::remove`: the map then holds nothing under the key; the item that
/// stood there comes back.
#[verifier::external_body]
pub(crate) fn map_remove(
    map: &mut DashMap<[u8; 32], (u64, u32, u32, u8, u64), RandomState>,
    key: &[u8; 32],
) -> (removed: Option<(u64, u32, u32, u8, u64)>)
    ensures
        held(*final(map)) == held(*old(map)).remove(key@),
        removed == (if held(*old(map)).dom().contains(key@) {
            Some(held(*old(map))[key@])
        } else {
            None
        }),
{
    map.remove(key).map(|pair| pair.1)
}

/// `DashMap::iter`: every key that the map holds comes once, with its item.
/// The order is left open: it depends on a hasher that is seeded at random.
#[verifier::external_body]
pub(crate) fn map_items(
    map: &DashMap<[u8; 32], (u64, u32, u32, u8, u64), RandomState>,
) -> (items: Vec<([u8; 32], (u64, u32, u32, u8, u64))>)
    ensures
        items@.len() == held(*map).dom().len(),
        forall|i: int|
            0 <= i < items@.len() ==> held(*map).dom().contains(#[trigger] items@[i].0@) && held(
                *map,
            )[items@[i].0@] == items@[i].1,
        forall|k: Seq<u8>| #[trigger]
            held(*map).dom().contains(k) ==> exists|i: int|
                0 <= i < items@.len() && items@[i].0@ == k,
{
    map.iter().map(|item| (*item.key(), *item.value())).collect()
}

} // verus!
