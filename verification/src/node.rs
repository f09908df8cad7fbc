//! The variable tree: nodes whose children are fetched on demand.

use crate::views::{group_views, views};
use vstd::prelude::*;

verus! {

/// One variable, scope, or evaluation result, with the children fetched so far.
pub struct VarNode {
    pub name: String,
    pub value: String,
    pub ty: String,
    /// The expression that evaluates to this node, empty when there is none.
    pub eval_name: String,
    /// The adapter's handle for the children, positive when there are any.
    pub var_ref: i64,
    /// The children, or nothing while they have not been fetched.
    pub children: Option<Vec<VarNode>>,
    pub expanded: bool,
}

/// The mathematical content of a [`VarNode`].
#[verifier::ext_equal]
pub struct NodeView {
    pub name: Seq<char>,
    pub value: Seq<char>,
    pub ty: Seq<char>,
    pub eval_name: Seq<char>,
    pub var_ref: i64,
    pub children: Option<Seq<NodeView>>,
    pub expanded: bool,
}

/// The content of a node and, recursively, of its children.
pub open spec fn node_view(node: VarNode) -> NodeView
    decreases node,
{
    NodeView {
        name: node.name@,
        value: node.value@,
        ty: node.ty@,
        eval_name: node.eval_name@,
        var_ref: node.var_ref,
        children: match node.children {
            Some(children) => Some(
                Seq::new(
                    children@.len(),
                    |i: int|
                        if 0 <= i < children@.len() {
                            node_view(children@[i])
                        } else {
                            arbitrary()
                        },
                ),
            ),
            None => None,
        },
        expanded: node.expanded,
    }
}

impl View for VarNode {
    type V = NodeView;

    open spec fn view(&self) -> NodeView {
        node_view(*self)
    }
}

/// The content of the children is that of the list that holds them.
pub broadcast proof fn lemma_node_view_children(node: VarNode)
    ensures
        #[trigger] node_view(node).children == match node.children {
            Some(children) => Some(views(children@)),
            None => None,
        },
{
    if let Some(children) = node.children {
        assert(node_view(node).children->0 =~= views(children@));
    }
}

impl NodeView {
    /// Whether the node has children that can be shown.
    pub open spec fn expandable(self) -> bool {
        self.var_ref > 0
    }

    /// The descendant that a path of child positions leads to, if it does.
    pub open spec fn descendant(self, path: Seq<usize>) -> Option<NodeView>
        decreases path.len(),
    {
        if path.len() == 0 {
            Some(self)
        } else {
            match self.children {
                Some(children) => if path[0] < children.len() {
                    children[path[0] as int].descendant(path.drop_first())
                } else {
                    None
                },
                None => None,
            }
        }
    }

    /// The tree with the descendant at `path` replaced.
    pub open spec fn with_descendant(self, path: Seq<usize>, new: NodeView) -> NodeView
        decreases path.len(),
    {
        if path.len() == 0 {
            new
        } else {
            match self.children {
                Some(children) => if path[0] < children.len() {
                    NodeView {
                        children: Some(
                            children.update(
                                path[0] as int,
                                children[path[0] as int].with_descendant(path.drop_first(), new),
                            ),
                        ),
                        ..self
                    }
                } else {
                    self
                },
                None => self,
            }
        }
    }
}

/// The node that a path leads to within a forest, if it does.
pub open spec fn forest_node(forest: Seq<NodeView>, path: Seq<usize>) -> Option<NodeView> {
    if path.len() > 0 && path[0] < forest.len() {
        forest[path[0] as int].descendant(path.drop_first())
    } else {
        None
    }
}

/// The forest with the node at `path` replaced.
pub open spec fn with_forest_node(
    forest: Seq<NodeView>,
    path: Seq<usize>,
    new: NodeView,
) -> Seq<NodeView> {
    if path.len() > 0 && path[0] < forest.len() {
        forest.update(path[0] as int, forest[path[0] as int].with_descendant(path.drop_first(), new))
    } else {
        forest
    }
}

impl VarNode {
    /// Whether the node has children that can be shown.
    pub fn expandable(&self) -> (yes: bool)
        ensures
            yes == self@.expandable(),
    {
        self.var_ref > 0
    }
}

/// Descends a node by a path of child positions.
pub fn descend<'a>(node: &'a mut VarNode, path: &[usize], from: usize) -> (found: Option<
    &'a mut VarNode,
>)
    requires
        from <= path@.len(),
    ensures
        match found {
            Some(target) => {
                &&& old(node)@.descendant(path@.skip(from as int)) == Some((*target)@)
                &&& final(node)@ == old(node)@.with_descendant(
                    path@.skip(from as int),
                    (*final(target))@,
                )
            },
            None => {
                &&& old(node)@.descendant(path@.skip(from as int)) is None
                &&& final(node)@ == old(node)@
            },
        },
    decreases path@.len() - from,
{
    broadcast use {lemma_node_view_children, group_views};

    if from == path.len() {
        return Some(node);
    }
    let index: usize = path[from];
    let ghost before = *node;
    assert(path@.skip(from as int)[0] == index);
    assert(path@.skip(from as int).drop_first() =~= path@.skip(from + 1));
    match &mut node.children {
        Some(children) => {
            if index < children.len() {
                descend(&mut children[index], path, from + 1)
            } else {
                None
            }
        },
        None => None,
    }
}

} // verus!
