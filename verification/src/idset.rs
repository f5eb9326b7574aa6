//! Ordered sets of path ids.

use crate::pptr::PathId;
use std::collections::BTreeSet;
use vstd::prelude::*;

verus! {

/// A set without members.
pub fn id_set_new() -> (set: BTreeSet<PathId>)
    ensures
        set@ == Set::<PathId>::empty(),
{
    BTreeSet::new()
}

/// Adds the id to the set and says whether it was new.
pub fn id_set_insert(set: &mut BTreeSet<PathId>, id: PathId) -> (added: bool)
    ensures
        final(set)@ == old(set)@.insert(id),
        added == !old(set)@.contains(id),
{
    broadcast use vstd::std_specs::btree::group_btree_axioms;
    broadcast use vstd::laws_cmp::group_laws_cmp;

    set.insert(id)
}

/// Whether the id is in the set.
pub fn id_set_contains(set: &BTreeSet<PathId>, id: PathId) -> (r: bool)
    ensures
        r == set@.contains(id),
{
    broadcast use vstd::std_specs::btree::group_btree_axioms;
    broadcast use vstd::laws_cmp::group_laws_cmp;

    set.contains(&id)
}

} // verus!
