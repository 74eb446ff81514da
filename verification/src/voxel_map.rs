//! The store of voxels: a `DashMap` from voxel key to the voxel's two
//! words.
//!
//! What is said here of `DashMap` is taken on trust from the `dashmap`
//! crate. The filter owns its store and calls it from one place at a
//! time, so that no call finds a reference into the store held elsewhere.

use crate::bits::popcount;
use dashmap::DashMap;
use vstd::prelude::*;

verus! {

/// `dashmap::DashMap`, of which nothing is known but what the functions of
/// this file say.
#[verifier::external_type_specification]
#[verifier::external_body]
#[verifier::reject_recursive_types(K)]
#[verifier::reject_recursive_types(V)]
#[verifier::reject_recursive_types(S)]
pub struct ExDashMap<K, V, S>(DashMap<K, V, S>);

/// What the store holds: for each key that was ever inserted, the pair of
/// words last stored under it. For a voxel these are its window word and
/// its count of older hits, in this order.
pub uninterp spec fn voxels_of(store: DashMap<(u64, u64, u64), (u64, u64)>) -> Map<
    (u64, u64, u64),
    (u64, u64),
>;

/// The contents of a store that holds nothing.
pub open spec fn no_voxels() -> Map<(u64, u64, u64), (u64, u64)> {
    Map::empty()
}

/// A voxel after a flush: its window word is cleared and the ones it held
/// are added to the count, which stops at the largest `u64`.
pub open spec fn flushed(voxel: (u64, u64)) -> (u64, u64) {
    if voxel.1 + popcount(voxel.0) <= u64::MAX {
        (0, (voxel.1 + popcount(voxel.0)) as u64)
    } else {
        (0, u64::MAX)
    }
}

/// Flushes one voxel.
pub fn flush(voxel: (u64, u64)) -> (r: (u64, u64))
    ensures
        r == flushed(voxel),
{
    let ones = voxel.0.count_ones() as u64;
    (0, voxel.1.saturating_add(ones))
}

/// `DashMap::new`: the new store holds nothing.
#[verifier::external_body]
pub(crate) fn store_new() -> (r: DashMap<(u64, u64, u64), (u64, u64)>)
    ensures
        voxels_of(r) == no_voxels(),
{
    DashMap::new()
}

/// `DashMap::get`: a copy of the pair stored under `key`, or nothing
/// where the store has no such key. The store stays as it is.
#[verifier::external_body]
pub(crate) fn store_get(store: &DashMap<(u64, u64, u64), (u64, u64)>, key: (u64, u64, u64)) -> (r:
    Option<(u64, u64)>)
    ensures
        r == (if voxels_of(*store).contains_key(key) {
            Some(voxels_of(*store)[key])
        } else {
            None
        }),
{
    store.get(&key).map(|entry| *entry)
}

/// `DashMap::insert`: afterwards `key` holds `voxel`, whether or not the
/// store had the key, and every other key holds what it held.
#[verifier::external_body]
pub(crate) fn store_insert(
    store: &mut DashMap<(u64, u64, u64), (u64, u64)>,
    key: (u64, u64, u64),
    voxel: (u64, u64),
)
    ensures
        voxels_of(*final(store)) == voxels_of(*old(store)).insert(key, voxel),
{
    store.insert(key, voxel);
}

/// `DashMap::alter_all`, called with [`flush`]: the store keeps its keys,
/// and each key holds what `flush` returns for what it held.
#[verifier::external_body]
pub(crate) fn store_flush_all(store: &mut DashMap<(u64, u64, u64), (u64, u64)>)
    ensures
        voxels_of(*final(store)).dom() == voxels_of(*old(store)).dom(),
        forall|key: (u64, u64, u64)| #[trigger]
            voxels_of(*old(store)).contains_key(key) ==> voxels_of(*final(store))[key]
                == flushed(voxels_of(*old(store))[key]),
{
    store.alter_all(|_, voxel| flush(voxel));
}

} // verus!
