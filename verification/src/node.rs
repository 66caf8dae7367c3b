//! The entries of a flattened tree.

use vstd::prelude::*;
use crate::identifier::keys;

verus! {

/// A node in a tree, as it is listed for rendering: where it is, and the
/// information it will be rendered with.
#[derive(Debug, PartialEq, Eq)]
pub struct Node<Identifier> {
    /// Zero based depth. Depth 0 means top level with 0 indentation.
    pub depth: usize,
    pub has_children: bool,
    pub height: usize,
    pub identifier: Vec<Identifier>,
}

/// What a [`Node`] stands for: its path by keys, and its numbers unbounded.
pub struct NodeView<K> {
    pub depth: nat,
    pub has_children: bool,
    pub height: nat,
    pub identifier: Seq<K>,
}

impl<Identifier: DeepView> DeepView for Node<Identifier> {
    type V = NodeView<Identifier::V>;

    open spec fn deep_view(&self) -> NodeView<Identifier::V> {
        NodeView {
            depth: self.depth as nat,
            has_children: self.has_children,
            height: self.height as nat,
            identifier: keys(self.identifier@),
        }
    }
}

impl<Identifier: DeepView> View for Node<Identifier> {
    type V = NodeView<Identifier::V>;

    open spec fn view(&self) -> NodeView<Identifier::V> {
        self.deep_view()
    }
}

/// The views of a list of nodes, in order.
pub open spec fn node_views<Identifier: DeepView>(nodes: Seq<Node<Identifier>>) -> Seq<
    NodeView<Identifier::V>,
> {
    Seq::new(nodes.len(), |i: int| nodes[i]@)
}

/// The heights of a list of nodes, in order.
pub open spec fn node_heights<Identifier>(nodes: Seq<Node<Identifier>>) -> Seq<nat> {
    Seq::new(nodes.len(), |i: int| nodes[i].height as nat)
}

impl<Identifier> Node<Identifier> {
    /// Zero based depth of the node.
    pub fn depth(&self) -> (r: usize)
        ensures
            r == self.depth,
    {
        self.depth
    }
}

} // verus!

verus! {

/// The heights of a list of node views, in order.
pub open spec fn view_heights<K>(nodes: Seq<NodeView<K>>) -> Seq<nat> {
    Seq::new(nodes.len(), |i: int| nodes[i].height)
}

/// The paths of a list of node views, in order.
pub open spec fn view_paths<K>(nodes: Seq<NodeView<K>>) -> Seq<Seq<K>> {
    Seq::new(nodes.len(), |i: int| nodes[i].identifier)
}

} // verus!
