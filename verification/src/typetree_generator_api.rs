//! Type trees of user scripts as a generator hands them out: a flat list
//! of nodes in pre-order, each with its level.

use crate::typetree::{lemma_view_unfold, TreeModel, TypeTreeNode};
use vstd::prelude::*;

verus! {

/// Which implementation generates the type trees.
#[derive(Clone, Copy, Debug, PartialEq, Eq, Structural)]
pub enum GeneratorBackend {
    AssetStudio,
    AssetsTools,
    AssetRipper,
}

impl GeneratorBackend {
    /// The name by which the generator knows the backend.
    pub fn name(&self) -> (r: &'static str)
        ensures
            r@ == (match *self {
                GeneratorBackend::AssetStudio => "AssetStudio"@,
                GeneratorBackend::AssetsTools => "AssetsTools"@,
                GeneratorBackend::AssetRipper => "AssetRipper"@,
            }),
    {
        match self {
            GeneratorBackend::AssetStudio => "AssetStudio",
            GeneratorBackend::AssetsTools => "AssetsTools",
            GeneratorBackend::AssetRipper => "AssetRipper",
        }
    }
}

/// `std::str::Utf8Error`, held as an opaque value.
#[verifier::external_type_specification]
#[verifier::external_body]
pub struct ExUtf8Error(std::str::Utf8Error);

/// `std::io::Error`, held as an opaque value.
#[verifier::external_type_specification]
#[verifier::external_body]
pub struct ExIoError(std::io::Error);

/// Why the generator could not be used.
#[derive(Debug)]
pub enum Error {
    /// No generator instance could be created.
    CreationError,
    /// The generator returned a status code other than zero.
    Status(i32),
    /// What the generator returned is no valid text.
    UTF8(std::str::Utf8Error),
    /// A file could not be read.
    IO(std::io::Error),
    /// The library of the generator could not be loaded.
    Lib(String),
}

impl Error {
    /// Turns a status code of the generator into a result: zero is success.
    pub fn from_code(status_code: i32) -> (r: Result<(), Error>)
        ensures
            status_code == 0 ==> r is Ok,
            status_code != 0 ==> r is Err && r->Err_0 == Error::Status(status_code),
    {
        if status_code == 0 {
            Ok(())
        } else {
            Err(Error::Status(status_code))
        }
    }
}

/// One node of a flat list: its type, its name, its level in the tree and
/// its meta flag.
#[derive(Debug)]
pub struct FlatNode {
    pub ty: String,
    pub name: String,
    pub level: u8,
    pub meta_flag: i32,
}

/// A flat node as plain values.
pub struct FlatModel {
    pub ty: Seq<char>,
    pub name: Seq<char>,
    pub level: u8,
    pub meta_flag: i32,
}

impl View for FlatNode {
    type V = FlatModel;

    open spec fn view(&self) -> FlatModel {
        FlatModel { ty: self.ty@, name: self.name@, level: self.level, meta_flag: self.meta_flag }
    }
}

/// The flat nodes as plain values.
pub open spec fn flat_models(flat: Seq<FlatNode>) -> Seq<FlatModel> {
    Seq::new(flat.len(), |i: int| flat[i]@)
}

/// The node itself without its children.
pub open spec fn head_of(node: TreeModel) -> FlatModel {
    FlatModel { ty: node.ty, name: node.name, level: node.level, meta_flag: node.meta_flag }
}

/// The nodes of a tree in pre-order: the node, then its children with all
/// that is below them, one after the other.
pub open spec fn flatten(node: TreeModel) -> Seq<FlatModel>
    decreases node, 0nat,
{
    seq![head_of(node)] + flatten_list(node.children, node.children.len() as int)
}

/// The nodes of the first `n` trees in pre-order.
pub open spec fn flatten_list(trees: Seq<TreeModel>, n: int) -> Seq<FlatModel>
    decreases trees, n,
{
    if n <= 0 || n > trees.len() {
        Seq::empty()
    } else {
        flatten_list(trees, n - 1) + flatten(trees[n - 1])
    }
}

/// Whether every node lies below the nearest node before it that has a
/// lower level: each child has a higher level than its parent, and no
/// child has a higher level than the child before it.
pub open spec fn nested(node: TreeModel) -> bool
    decreases node, 0nat,
{
    nested_list(node.level, node.children, node.children.len() as int)
}

/// Whether the first `n` trees are nested and can stand side by side below
/// a node of the given level.
pub open spec fn nested_list(level: u8, trees: Seq<TreeModel>, n: int) -> bool
    decreases trees, n,
{
    if n <= 0 || n > trees.len() {
        true
    } else {
        &&& nested_list(level, trees, n - 1)
        &&& trees[n - 1].level > level
        &&& (n >= 2 ==> trees[n - 1].level <= trees[n - 2].level)
        &&& nested(trees[n - 1])
    }
}

/// Whether the list can be read as one tree: it is not empty, and every
/// node behind the first has a higher level than the first.
pub open spec fn one_tree(flat: Seq<FlatModel>) -> bool {
    &&& flat.len() > 0
    &&& forall|i: int| 0 < i < flat.len() ==> (#[trigger] flat[i]).level > flat[0].level
}

/// Tests whether the list can be read as one tree.
pub fn is_one_tree(flat: &Vec<FlatNode>) -> (r: bool)
    ensures
        r == one_tree(flat_models(flat@)),
{
    if flat.len() == 0 {
        return false;
    }
    let mut i: usize = 1;
    while i < flat.len()
        invariant
            1 <= i <= flat.len(),
            forall|k: int| 0 < k < i ==> (#[trigger] flat_models(flat@)[k]).level > flat_models(
                flat@,
            )[0].level,
        decreases flat.len() - i,
    {
        if flat[i].level <= flat[0].level {
            assert(flat_models(flat@)[i as int].level <= flat_models(flat@)[0].level);
            return false;
        }
        i += 1;
    }
    true
}

/// The models of the trees.
pub open spec fn tree_models(trees: Seq<TypeTreeNode>) -> Seq<TreeModel> {
    Seq::new(trees.len(), |i: int| trees[i]@)
}

/// Builds the tree of the node at `index` and says where the tree ends:
/// at the next node whose level is not higher.
fn build_node_tree(index: usize, flat_nodes: &Vec<FlatNode>) -> (r: (TypeTreeNode, usize))
    requires
        index < flat_nodes@.len(),
    ensures
        index < r.1 <= flat_nodes@.len(),
        head_of(r.0@) == flat_nodes@[index as int]@,
        flatten(r.0@) == flat_models(flat_nodes@).subrange(index as int, r.1 as int),
        nested(r.0@),
        forall|j: int| index < j < r.1 ==> (#[trigger] flat_nodes@[j]).level
            > flat_nodes@[index as int].level,
        r.1 < flat_nodes@.len() ==> flat_nodes@[r.1 as int].level <= flat_nodes@[index as int].level,
    decreases flat_nodes@.len() - index,
{
    let level = flat_nodes[index].level;
    let len: usize = flat_nodes.len();
    let mut children: Vec<TypeTreeNode> = Vec::new();
    let mut next: usize = index + 1;
    let ghost models = flat_models(flat_nodes@);
    assert(flatten_list(tree_models(children@), 0) =~= models.subrange(index + 1, next as int));
    while next < flat_nodes.len() && flat_nodes[next].level > level
        invariant
            index < next <= flat_nodes@.len(),
            level == flat_nodes@[index as int].level,
            models == flat_models(flat_nodes@),
            flatten_list(tree_models(children@), children@.len() as int) == models.subrange(
                index + 1,
                next as int,
            ),
            nested_list(level, tree_models(children@), children@.len() as int),
            forall|j: int| index < j < next ==> (#[trigger] flat_nodes@[j]).level > level,
            children@.len() > 0 && next < flat_nodes@.len() ==> flat_nodes@[next as int].level
                <= children@[children@.len() - 1].level,
        decreases flat_nodes@.len() - next,
    {
        let ghost before = children@;
        let (child, after) = build_node_tree(next, flat_nodes);
        children.push(child);
        proof {
            let kids = tree_models(children@);
            let old_kids = tree_models(before);
            assert(kids =~= old_kids.push(child@));
            lemma_flatten_list_push(old_kids, child@);
            lemma_nested_list_push(level, old_kids, child@);
            assert(models.subrange(index + 1, next as int) + models.subrange(
                next as int,
                after as int,
            ) =~= models.subrange(index + 1, after as int));
            assert(child@.level == flat_nodes@[next as int].level);
            if before.len() > 0 {
                assert(old_kids[before.len() - 1] == before[before.len() - 1]@);
            }
        }
        next = after;
    }
    let node = TypeTreeNode {
        ty: flat_nodes[index].ty.clone(),
        name: flat_nodes[index].name.clone(),
        level,
        meta_flag: flat_nodes[index].meta_flag,
        children,
    };
    proof {
        lemma_view_unfold(&node);
        assert(node@.children =~= tree_models(node.children@));
        assert(seq![head_of(node@)] + models.subrange(index + 1, next as int) =~= models.subrange(
            index as int,
            next as int,
        ));
    }
    (node, next)
}

/// Flattening a longer list: the trees before, then the tree added.
pub proof fn lemma_flatten_list_push(trees: Seq<TreeModel>, tree: TreeModel)
    ensures
        flatten_list(trees.push(tree), (trees.len() + 1) as int) == flatten_list(trees, trees.len() as int)
            + flatten(tree),
{
    lemma_flatten_list_prefix(trees, trees.push(tree), trees.len() as int);
}

/// Flattening the first trees of a list does not look at the others.
pub proof fn lemma_flatten_list_prefix(a: Seq<TreeModel>, b: Seq<TreeModel>, n: int)
    requires
        0 <= n <= a.len() <= b.len(),
        forall|i: int| 0 <= i < n ==> a[i] == b[i],
    ensures
        flatten_list(a, n) == flatten_list(b, n),
    decreases n,
{
    if n > 0 {
        lemma_flatten_list_prefix(a, b, n - 1);
    }
}

/// Whether the first trees of a list are nested does not depend on the others.
pub proof fn lemma_nested_list_prefix(level: u8, a: Seq<TreeModel>, b: Seq<TreeModel>, n: int)
    requires
        0 <= n <= a.len() <= b.len(),
        forall|i: int| 0 <= i < n ==> a[i] == b[i],
    ensures
        nested_list(level, a, n) == nested_list(level, b, n),
    decreases n,
{
    if n > 0 {
        lemma_nested_list_prefix(level, a, b, n - 1);
    }
}

/// A nested tree may join nested trees if its level fits.
pub proof fn lemma_nested_list_push(level: u8, trees: Seq<TreeModel>, tree: TreeModel)
    requires
        nested_list(level, trees, trees.len() as int),
        nested(tree),
        tree.level > level,
        trees.len() > 0 ==> tree.level <= trees[trees.len() - 1].level,
    ensures
        nested_list(level, trees.push(tree), (trees.len() + 1) as int),
{
    lemma_nested_list_prefix(level, trees, trees.push(tree), trees.len() as int);
}

/// Builds a tree from its nodes in pre-order.
///
/// The first node is the root. Every further node becomes a child of the
/// nearest node before it that has a lower level. The nodes of the result
/// in pre-order are the nodes given.
pub fn reconstruct_typetree_node(flat: &Vec<FlatNode>) -> (r: TypeTreeNode)
    requires
        one_tree(flat_models(flat@)),
    ensures
        flatten(r@) == flat_models(flat@),
        nested(r@),
{
    let (node, next) = build_node_tree(0, flat);
    proof {
        if next < flat@.len() {
            assert(flat_models(flat@)[next as int].level > flat_models(flat@)[0].level);
        }
        assert(flat_models(flat@).subrange(0, next as int) =~= flat_models(flat@));
    }
    node
}

/// The tree of a script with the fields that every component has in front
/// of the script's own.
pub open spec fn with_base_fields(base: TreeModel, node: TreeModel) -> TreeModel {
    TreeModel { children: base.children + node.children, ..node }
}

/// Puts the fields that every component has in front of the fields of a
/// script.
pub fn prepend_base_fields(base: TypeTreeNode, node: TypeTreeNode) -> (r: TypeTreeNode)
    ensures
        r@ == with_base_fields(base@, node@),
{
    let TypeTreeNode { ty, name, level, meta_flag, children } = node;
    let mut all = base.children;
    let mut rest = children;
    let ghost first = all@;
    let ghost second = rest@;
    all.append(&mut rest);
    let r = TypeTreeNode { ty, name, level, meta_flag, children: all };
    proof {
        lemma_view_unfold(&r);
        lemma_view_unfold(&base);
        lemma_view_unfold(&node);
        assert(r@.children =~= base@.children + node@.children);
    }
    r
}

} // verus!
