use vstd::prelude::*;

verus! {

/// Mathematical model of a type tree: an ordered tree of named, typed nodes.
pub struct TreeModel {
    pub ty: Seq<char>,
    pub name: Seq<char>,
    pub level: u8,
    pub meta_flag: i32,
    pub children: Seq<TreeModel>,
}

/// A node of a type tree. The tree dictates the binary layout of every
/// object of the type it describes.
#[derive(Debug)]
pub struct TypeTreeNode {
    pub ty: String,
    pub name: String,
    pub level: u8,
    pub meta_flag: i32,
    pub children: Vec<TypeTreeNode>,
}

/// The model of a node: its own values and the models of its children.
pub open spec fn model_of(node: TypeTreeNode) -> TreeModel
    decreases node,
{
    TreeModel {
        ty: node.ty@,
        name: node.name@,
        level: node.level,
        meta_flag: node.meta_flag,
        children: Seq::new(
            node.children@.len(),
            |i: int|
                if 0 <= i < node.children@.len() {
                    model_of(node.children@[i])
                } else {
                    arbitrary()
                },
        ),
    }
}

impl View for TypeTreeNode {
    type V = TreeModel;

    open spec fn view(&self) -> TreeModel {
        model_of(*self)
    }
}

/// The model of a node holds the node's own values and the models of its
/// children, in order.
pub proof fn lemma_view_unfold(node: &TypeTreeNode)
    ensures
        node@.ty == node.ty@,
        node@.name == node.name@,
        node@.level == node.level,
        node@.meta_flag == node.meta_flag,
        node@.children.len() == node.children@.len(),
        forall|i: int|
            0 <= i < node.children@.len() ==> #[trigger] node@.children[i] == node.children@[i]@,
{
    reveal_with_fuel(model_of, 2);
}

impl TypeTreeNode {
    /// A node without children.
    pub fn leaf(ty: String, name: String, level: u8, meta_flag: i32) -> (r: TypeTreeNode)
        ensures
            r@.ty == ty@,
            r@.name == name@,
            r@.level == level,
            r@.meta_flag == meta_flag,
            r@.children.len() == 0,
    {
        let r = TypeTreeNode { ty, name, level, meta_flag, children: Vec::new() };
        proof {
            lemma_view_unfold(&r);
        }
        r
    }

    /// A copy of the tree.
    pub fn duplicate(&self) -> (r: TypeTreeNode)
        ensures
            r@ == self@,
        decreases self,
    {
        let mut children: Vec<TypeTreeNode> = Vec::new();
        let mut i: usize = 0;
        while i < self.children.len()
            invariant
                i <= self.children.len(),
                children@.len() == i,
                forall|k: int| 0 <= k < i ==> (#[trigger] children@[k])@ == self.children@[k]@,
            decreases self.children.len() - i,
        {
            let child = self.children[i].duplicate();
            children.push(child);
            i += 1;
        }
        let r = TypeTreeNode {
            ty: self.ty.clone(),
            name: self.name.clone(),
            level: self.level,
            meta_flag: self.meta_flag,
            children,
        };
        proof {
            lemma_view_unfold(&r);
            lemma_view_unfold(self);
            assert(r@.children =~= self@.children);
        }
        r
    }
}

} // verus!
