//! The type trees of the engine's own classes, by class id.

use crate::typetree::TypeTreeNode;
use vstd::prelude::*;

verus! {

/// Remembers, for each class id that was asked for, the type tree of the
/// class or that it has none. What was entered first for a class id stays.
#[derive(Debug)]
pub struct TypeTreeCache {
    pub entries: Vec<(i32, Option<TypeTreeNode>)>,
}

/// The position of the first entry for the class id at or behind `from`.
pub open spec fn first_entry(
    entries: Seq<(i32, Option<TypeTreeNode>)>,
    class_id: i32,
    from: int,
) -> Option<int>
    decreases entries.len() - from,
{
    if from < 0 || from >= entries.len() {
        None
    } else if entries[from].0 == class_id {
        Some(from)
    } else {
        first_entry(entries, class_id, from + 1)
    }
}

impl TypeTreeCache {
    /// Whether the class id has an entry.
    pub open spec fn knows(&self, class_id: i32) -> bool {
        first_entry(self.entries@, class_id, 0) is Some
    }

    /// The type tree of the class, if the cache holds one.
    pub open spec fn tree_of(&self, class_id: i32) -> Option<TypeTreeNode> {
        match first_entry(self.entries@, class_id, 0) {
            Some(i) => self.entries@[i].1,
            None => None,
        }
    }

    /// A cache without entries.
    pub fn new() -> (c: TypeTreeCache)
        ensures
            c.entries@.len() == 0,
    {
        TypeTreeCache { entries: Vec::new() }
    }

    fn find(&self, class_id: i32) -> (r: Option<usize>)
        ensures
            match r {
                Some(i) => first_entry(self.entries@, class_id, 0) == Some(i as int) && i
                    < self.entries@.len(),
                None => first_entry(self.entries@, class_id, 0) is None,
            },
    {
        let mut i: usize = 0;
        while i < self.entries.len()
            invariant
                i <= self.entries.len(),
                first_entry(self.entries@, class_id, 0) == first_entry(
                    self.entries@,
                    class_id,
                    i as int,
                ),
            decreases self.entries.len() - i,
        {
            if self.entries[i].0 == class_id {
                return Some(i);
            }
            i += 1;
        }
        None
    }

    /// Whether the class id has an entry.
    pub fn contains(&self, class_id: i32) -> (r: bool)
        ensures
            r == self.knows(class_id),
    {
        self.find(class_id).is_some()
    }

    /// Enters what is known of a class, unless the class has an entry.
    pub fn insert(&mut self, class_id: i32, tree: Option<TypeTreeNode>)
        ensures
            old(self).knows(class_id) ==> final(self).entries == old(self).entries,
            !old(self).knows(class_id) ==> final(self).entries@ == old(self).entries@.push(
                (class_id, tree),
            ),
    {
        if self.find(class_id).is_none() {
            self.entries.push((class_id, tree));
        }
    }

    /// The type tree of the class, if the cache holds one.
    pub fn get_typetree_node(&self, class_id: i32) -> (r: Option<&TypeTreeNode>)
        ensures
            match self.tree_of(class_id) {
                Some(t) => r == Some(&t),
                None => r is None,
            },
    {
        match self.find(class_id) {
            Some(i) => {
                let entry = &self.entries[i];
                match &entry.1 {
                    Some(tree) => Some(tree),
                    None => None,
                }
            },
            None => None,
        }
    }
}

} // verus!
