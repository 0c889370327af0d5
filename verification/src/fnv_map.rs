//! Hash maps with the FNV hasher, keyed by `u64`.
//!
//! The map is the standard library's `HashMap` built with the hasher of the
//! `fnv` crate. Nothing here is proved: each function below states, over the
//! map's view, what the standard library documents of the method it calls.
//! The FNV hasher starts every hash from one fixed state, so equal keys hash
//! alike and the map behaves as a finite map from keys to values.

use fnv::FnvHashMap;
use vstd::prelude::*;

verus! {

/// `fnv::FnvHasher`, the hasher state; nothing is known of its inside.
#[verifier::external_type_specification]
#[verifier::external_body]
pub struct ExFnvHasher(fnv::FnvHasher);

/// `std::hash::BuildHasherDefault`, which builds a hasher by `Default`.
#[verifier::external_type_specification]
#[verifier::external_body]
#[verifier::reject_recursive_types(H)]
pub struct ExBuildHasherDefault<H>(std::hash::BuildHasherDefault<H>);

/// `FnvHashMap::default`: a new map holds no entry.
#[verifier::external_body]
pub(crate) fn fnv_map_new<V>() -> (map: FnvHashMap<u64, V>)
    ensures
        map@ == (Map::<u64, V>::empty()),
{
    FnvHashMap::default()
}

/// `HashMap::insert`: the entry for `key` becomes `value`, every other entry
/// stays, and the value that `key` had before, if any, is returned.
#[verifier::external_body]
pub(crate) fn fnv_map_insert<V>(m: &mut FnvHashMap<u64, V>, key: u64, value: V) -> (prev: Option<V>)
    ensures
        final(m)@ == old(m)@.insert(key, value),
        prev == (if old(m)@.contains_key(key) {
            Some(old(m)@[key])
        } else {
            None
        }),
{
    m.insert(key, value)
}

/// `HashMap::remove`: the entry for `key` is gone, every other entry stays,
/// and the value that `key` had, if any, is returned.
#[verifier::external_body]
pub(crate) fn fnv_map_remove<V>(m: &mut FnvHashMap<u64, V>, key: u64) -> (prev: Option<V>)
    ensures
        final(m)@ == old(m)@.remove(key),
        prev == (if old(m)@.contains_key(key) {
            Some(old(m)@[key])
        } else {
            None
        }),
{
    m.remove(&key)
}

/// `HashMap::get`: a reference to the value stored for `key`, if there is one.
#[verifier::external_body]
pub(crate) fn fnv_map_get<V>(m: &FnvHashMap<u64, V>, key: u64) -> (found: Option<&V>)
    ensures
        found == (if m@.contains_key(key) {
            Some(&m@[key])
        } else {
            None
        }),
{
    m.get(&key)
}

/// `HashMap::contains_key`: whether a value is stored for `key`.
#[verifier::external_body]
pub(crate) fn fnv_map_contains_key<V>(m: &FnvHashMap<u64, V>, key: u64) -> (found: bool)
    ensures
        found == m@.contains_key(key),
{
    m.contains_key(&key)
}

} // verus!
