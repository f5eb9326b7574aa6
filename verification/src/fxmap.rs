//! Hash maps with the Fx hasher, as plain finite maps.

use rustc_hash::{FxBuildHasher, FxHashMap};
use std::hash::Hash;
use vstd::prelude::*;
use vstd::std_specs::hash::obeys_key_model;

verus! {

/// `rustc_hash::FxBuildHasher`, the hasher of the maps, held as an opaque value.
#[verifier::external_type_specification]
#[verifier::external_body]
pub struct ExFxBuildHasher(FxBuildHasher);

/// `FxHashMap::default` of rustc_hash: a map without entries.
#[verifier::external_body]
pub(crate) fn fx_new<K, V>() -> (m: FxHashMap<K, V>)
    ensures
        m@.dom() =~= Set::empty(),
{
    FxHashMap::default()
}

/// `HashMap::insert` on an `FxHashMap`: the key maps to the new value, all
/// other entries stay, and the value that the key had before is returned.
#[verifier::external_body]
pub(crate) fn fx_insert<K: Hash + Eq, V>(m: &mut FxHashMap<K, V>, k: K, v: V) -> (prev: Option<V>)
    requires
        obeys_key_model::<K>(),
    ensures
        final(m)@ == old(m)@.insert(k, v),
        prev == (if old(m)@.contains_key(k) {
            Some(old(m)@[k])
        } else {
            None
        }),
{
    m.insert(k, v)
}

/// `HashMap::get` on an `FxHashMap`: the value of the key, if it has one.
#[verifier::external_body]
pub(crate) fn fx_get<'a, K: Hash + Eq, V>(m: &'a FxHashMap<K, V>, k: &K) -> (r: Option<&'a V>)
    requires
        obeys_key_model::<K>(),
    ensures
        r == (if m@.contains_key(*k) {
            Some(&m@[*k])
        } else {
            None
        }),
{
    m.get(k)
}

} // verus!
