//! The type trees of user scripts, by assembly and full name.

use crate::text::str_eq;
use crate::typetree::{TreeModel, TypeTreeNode};
use crate::typetree_generator_api::{prepend_base_fields, with_base_fields};
use vstd::prelude::*;

verus! {

/// The type tree of one script.
#[derive(Debug)]
pub struct CachedTree {
    pub assembly: String,
    pub full_name: String,
    pub tree: TypeTreeNode,
}

/// Holds the type trees of user scripts. They come from an export read
/// beforehand, or from a generator that is asked when a tree is missing.
/// What was entered first for a script stays.
#[derive(Debug)]
pub struct TypeTreeGeneratorCache {
    /// Whether a generator can be asked for what the cache lacks.
    pub has_generator: bool,
    pub cache: Vec<CachedTree>,
    /// The tree of the fields that every component has.
    pub base_node: TypeTreeNode,
}

/// What the cache says of a script.
pub enum Generated<'a> {
    /// The cache holds the tree.
    Known(&'a TypeTreeNode),
    /// The cache lacks the tree; the generator is to be asked.
    AskGenerator,
    /// The cache lacks the tree and there is no generator.
    Missing,
}

/// The position of the first entry for the script at or behind `from`.
pub open spec fn first_tree(
    cache: Seq<CachedTree>,
    assembly: Seq<char>,
    full_name: Seq<char>,
    from: int,
) -> Option<int>
    decreases cache.len() - from,
{
    if from < 0 || from >= cache.len() {
        None
    } else if cache[from].assembly@ == assembly && cache[from].full_name@ == full_name {
        Some(from)
    } else {
        first_tree(cache, assembly, full_name, from + 1)
    }
}

/// The tree that is stored for what the generator answered: the answer with
/// the fields of every component in front, or those fields alone where the
/// answer was empty.
pub open spec fn stored_tree(base: TreeModel, answer: Option<TreeModel>) -> TreeModel {
    match answer {
        Some(node) => with_base_fields(base, node),
        None => base,
    }
}

impl TypeTreeGeneratorCache {
    /// A cache that is filled by a generator.
    pub fn new(base_node: TypeTreeNode) -> (r: TypeTreeGeneratorCache)
        ensures
            r.has_generator,
            r.cache@.len() == 0,
            r.base_node == base_node,
    {
        TypeTreeGeneratorCache { has_generator: true, cache: Vec::new(), base_node }
    }

    /// A cache that holds what an export held and has no generator.
    pub fn prefilled(cache: Vec<CachedTree>, base_node: TypeTreeNode) -> (r: TypeTreeGeneratorCache)
        ensures
            !r.has_generator,
            r.cache == cache,
            r.base_node == base_node,
    {
        TypeTreeGeneratorCache { has_generator: false, cache, base_node }
    }

    /// The tree of the script, if the cache holds one.
    pub open spec fn tree_of(&self, assembly: Seq<char>, full_name: Seq<char>) -> Option<
        TypeTreeNode,
    > {
        match first_tree(self.cache@, assembly, full_name, 0) {
            Some(i) => Some(self.cache@[i].tree),
            None => None,
        }
    }

    fn find(&self, assembly: &str, full_name: &str) -> (r: Option<usize>)
        ensures
            match r {
                Some(i) => first_tree(self.cache@, assembly@, full_name@, 0) == Some(i as int) && i
                    < self.cache@.len(),
                None => first_tree(self.cache@, assembly@, full_name@, 0) is None,
            },
    {
        let mut i: usize = 0;
        while i < self.cache.len()
            invariant
                i <= self.cache.len(),
                first_tree(self.cache@, assembly@, full_name@, 0) == first_tree(
                    self.cache@,
                    assembly@,
                    full_name@,
                    i as int,
                ),
            decreases self.cache.len() - i,
        {
            if str_eq(self.cache[i].assembly.as_str(), assembly) && str_eq(
                self.cache[i].full_name.as_str(),
                full_name,
            ) {
                return Some(i);
            }
            i += 1;
        }
        None
    }

    /// Looks the script up. Where the cache lacks it, the result says
    /// whether the generator is to be asked or the script is missing.
    pub fn generate(&self, assembly_name: &str, full_name: &str) -> (r: Generated<'_>)
        ensures
            match r {
                Generated::Known(tree) => self.tree_of(assembly_name@, full_name@) == Some(*tree),
                Generated::AskGenerator => self.tree_of(assembly_name@, full_name@) is None
                    && self.has_generator,
                Generated::Missing => self.tree_of(assembly_name@, full_name@) is None
                    && !self.has_generator,
            },
    {
        match self.find(assembly_name, full_name) {
            Some(i) => Generated::Known(&self.cache[i].tree),
            None => if self.has_generator {
                Generated::AskGenerator
            } else {
                Generated::Missing
            },
        }
    }

    /// Stores what the generator answered for a script, unless the cache
    /// holds the script already, and returns where the tree of the script
    /// stands.
    pub fn store(&mut self, assembly_name: &str, full_name: &str, answer: Option<TypeTreeNode>) -> (at:
        usize)
        ensures
            at < final(self).cache@.len(),
            final(self).has_generator == old(self).has_generator,
            final(self).base_node == old(self).base_node,
            first_tree(final(self).cache@, assembly_name@, full_name@, 0) == Some(at as int),
            match first_tree(old(self).cache@, assembly_name@, full_name@, 0) {
                Some(i) => at == i && final(self).cache == old(self).cache,
                None => {
                    &&& at == old(self).cache@.len()
                    &&& final(self).cache@.len() == old(self).cache@.len() + 1
                    &&& forall|k: int|
                        0 <= k < old(self).cache@.len() ==> final(self).cache@[k] == old(
                            self,
                        ).cache@[k]
                    &&& final(self).cache@[at as int].assembly@ == assembly_name@
                    &&& final(self).cache@[at as int].full_name@ == full_name@
                    &&& final(self).cache@[at as int].tree@ == stored_tree(
                        old(self).base_node@,
                        match answer {
                            Some(node) => Some(node@),
                            None => None,
                        },
                    )
                },
            },
    {
        match self.find(assembly_name, full_name) {
            Some(i) => i,
            None => {
                let ghost before = self.cache@;
                let base = self.base_node.duplicate();
                let tree = match answer {
                    Some(node) => prepend_base_fields(base, node),
                    None => base,
                };
                let at = self.cache.len();
                self.cache.push(
                    CachedTree {
                        assembly: assembly_name.to_owned(),
                        full_name: full_name.to_owned(),
                        tree,
                    },
                );
                proof {
                    lemma_first_tree_added(before, self.cache@, assembly_name@, full_name@, 0);
                }
                at
            },
        }
    }
}

/// A script that the cache lacked is found where it was added.
pub proof fn lemma_first_tree_added(
    before: Seq<CachedTree>,
    after: Seq<CachedTree>,
    assembly: Seq<char>,
    full_name: Seq<char>,
    from: int,
)
    requires
        0 <= from <= before.len(),
        after.len() == before.len() + 1,
        forall|k: int| 0 <= k < before.len() ==> after[k] == before[k],
        after[before.len() as int].assembly@ == assembly,
        after[before.len() as int].full_name@ == full_name,
        first_tree(before, assembly, full_name, from) is None,
    ensures
        first_tree(after, assembly, full_name, from) == Some(before.len() as int),
    decreases before.len() - from,
{
    if from < before.len() {
        lemma_first_tree_added(before, after, assembly, full_name, from + 1);
    }
}

} // verus!
