//! The ordered tables of the indexmap crate that the repacker fills.

use crate::unity_types::AssetInfo;
use indexmap::{IndexMap, IndexSet};
use vstd::prelude::*;

verus! {

/// `indexmap::IndexMap`, held as an opaque value.
#[verifier::external_type_specification]
#[verifier::external_body]
#[verifier::reject_recursive_types(K)]
#[verifier::reject_recursive_types(V)]
#[verifier::reject_recursive_types(S)]
pub struct ExIndexMap<K, V, S>(IndexMap<K, V, S>);

/// `indexmap::IndexSet`, held as an opaque value.
#[verifier::external_type_specification]
#[verifier::external_body]
#[verifier::reject_recursive_types(T)]
#[verifier::reject_recursive_types(S)]
pub struct ExIndexSet<T, S>(IndexSet<T, S>);

/// The entries of a container table, in their order.
pub uninterp spec fn container_entries(m: IndexMap<String, AssetInfo>) -> Seq<(Seq<char>, AssetInfo)>;

/// The items of a set of paths, in their order.
pub uninterp spec fn path_set_items(s: IndexSet<String>) -> Seq<Seq<char>>;

/// The position of the first entry with the key at or behind `from`.
pub open spec fn key_position(entries: Seq<(Seq<char>, AssetInfo)>, key: Seq<char>, from: int)
    -> Option<int>
    decreases entries.len() - from,
{
    if from < 0 || from >= entries.len() {
        None
    } else if entries[from].0 == key {
        Some(from)
    } else {
        key_position(entries, key, from + 1)
    }
}

/// The entries after the key was given the value: an entry with the key
/// keeps its place and gets the value, else the entry is added at the end.
pub open spec fn put(entries: Seq<(Seq<char>, AssetInfo)>, key: Seq<char>, value: AssetInfo) -> Seq<
    (Seq<char>, AssetInfo),
> {
    match key_position(entries, key, 0) {
        Some(i) => entries.update(i, (key, value)),
        None => entries.push((key, value)),
    }
}

/// The items after one was added: an item that is there already changes
/// nothing, else the item is added at the end.
pub open spec fn added(items: Seq<Seq<char>>, item: Seq<char>) -> Seq<Seq<char>> {
    if items.contains(item) {
        items
    } else {
        items.push(item)
    }
}

/// `IndexMap::new` of indexmap: a table without entries.
#[verifier::external_body]
pub(crate) fn container_new() -> (m: IndexMap<String, AssetInfo>)
    ensures
        container_entries(m) == Seq::<(Seq<char>, AssetInfo)>::empty(),
{
    IndexMap::new()
}

/// `IndexMap::insert` of indexmap: where the key has an entry, the entry
/// keeps its place and gets the new value, and the old value is returned;
/// else the entry is added at the end and `None` is returned.
#[verifier::external_body]
pub(crate) fn container_insert(m: &mut IndexMap<String, AssetInfo>, key: String, value: AssetInfo) -> (prev:
    Option<AssetInfo>)
    ensures
        container_entries(*final(m)) == put(container_entries(*old(m)), key@, value),
        prev == (match key_position(container_entries(*old(m)), key@, 0) {
            Some(i) => Some(container_entries(*old(m))[i].1),
            None => None,
        }),
{
    m.insert(key, value)
}

/// `IndexSet::new` of indexmap: a set without items.
#[verifier::external_body]
pub(crate) fn path_set_new() -> (s: IndexSet<String>)
    ensures
        path_set_items(s) == Seq::<Seq<char>>::empty(),
{
    IndexSet::new()
}

/// `IndexSet::insert` of indexmap: an item that is in the set already
/// changes nothing and gives `false`; else the item is added at the end
/// and the result is `true`.
#[verifier::external_body]
pub(crate) fn path_set_insert(s: &mut IndexSet<String>, item: String) -> (fresh: bool)
    ensures
        path_set_items(*final(s)) == added(path_set_items(*old(s)), item@),
        fresh == !path_set_items(*old(s)).contains(item@),
{
    s.insert(item)
}

/// `IndexSet::len` of indexmap: the number of items.
#[verifier::external_body]
pub(crate) fn path_set_len(s: &IndexSet<String>) -> (n: usize)
    ensures
        n == path_set_items(*s).len(),
{
    s.len()
}

/// `IndexSet::get_index` of indexmap: the item at the position, if the
/// position is below the number of items.
#[verifier::external_body]
pub(crate) fn path_set_get_index(s: &IndexSet<String>, index: usize) -> (r: Option<&String>)
    ensures
        match r {
            Some(item) => index < path_set_items(*s).len() && item@ == path_set_items(
                *s,
            )[index as int],
            None => index >= path_set_items(*s).len(),
        },
{
    s.get_index(index)
}

/// The items of a set of paths as a list, in their order.
pub fn path_set_to_vec(s: &IndexSet<String>) -> (r: Vec<String>)
    ensures
        r@.len() == path_set_items(*s).len(),
        forall|i: int| 0 <= i < r@.len() ==> (#[trigger] r@[i])@ == path_set_items(*s)[i],
{
    let len = path_set_len(s);
    let mut out: Vec<String> = Vec::new();
    let mut i: usize = 0;
    while i < len
        invariant
            i <= len,
            len == path_set_items(*s).len(),
            out@.len() == i,
            forall|k: int| 0 <= k < i ==> (#[trigger] out@[k])@ == path_set_items(*s)[k],
        decreases len - i,
    {
        match path_set_get_index(s, i) {
            Some(item) => {
                out.push(item.clone());
            },
            None => {},
        }
        i += 1;
    }
    out
}

} // verus!
