//! What a data source has to offer to be shown as a tree.

use vstd::prelude::*;
use ratatui::buffer::Buffer;
use crate::identifier::{keys, lawful};
use crate::node::{node_views, Node, NodeView};
use crate::open_set::OpenSet;
use crate::shape::{flattened, Shape};
use crate::surface::{clipped, drawing_area, surface_area, Area};

verus! {

/// The rows that a list of nodes takes, one below the other.
pub open spec fn total_height<K>(nodes: Seq<NodeView<K>>) -> nat
    decreases nodes.len(),
{
    if nodes.len() == 0 {
        0
    } else {
        total_height(nodes.drop_last()) + nodes.last().height
    }
}

/// Data that can be shown as a tree.
pub trait TreeData: Sized {
    /// Unique identifier of an item among its siblings.
    ///
    /// The identifiers on the way down to a node are its path, under which
    /// the state remembers what is selected or open. An identifier needs to
    /// be unique among its siblings but can be used again on parent or child
    /// nodes, like a filename which has to be unique in its directory while
    /// it can exist in another.
    type Identifier: Clone + PartialEq + DeepView;

    /// The forest that the data shows.
    spec fn shapes(&self) -> Seq<Shape<<Self::Identifier as DeepView>::V>>;

    /// All visible nodes in a flat list: the top level, and the children of
    /// every listed node whose path is open.
    fn get_nodes(&self, open_identifiers: &OpenSet<Self::Identifier>) -> (r: Vec<
        Node<Self::Identifier>,
    >)
        requires
            lawful::<Self::Identifier>(),
            open_identifiers.wf(),
        ensures
            node_views(r@) == flattened(open_identifiers@, self.shapes(), Seq::empty()),
    ;

    /// The grid after the content of the node with the path was drawn into
    /// the area of it.
    spec fn spec_render(
        &self,
        identifier: Seq<<Self::Identifier as DeepView>::V>,
        buffer: Buffer,
        area: Area,
    ) -> Buffer;

    /// Draws the content of the node with the given path into the area,
    /// which lies on the grid and ends before the last column that there
    /// is. Draws nothing where the path leads to no node.
    fn render(&self, identifier: &[Self::Identifier], area: Area, buffer: &mut Buffer)
        requires
            lawful::<Self::Identifier>(),
            area.within(surface_area(*old(buffer))),
            area.ends_before_edge(),
        ensures
            *final(buffer) == self.spec_render(keys(identifier@), *old(buffer), area),
            surface_area(*final(buffer)) == surface_area(*old(buffer)),
    ;

}

/// Draws the content of the node with the given path into what of the area
/// can be drawn on: what lies on the grid and before the last column that
/// there is. Draws nothing where that is no cell.
pub fn render_node<Data: TreeData>(
    data: &Data,
    identifier: &[Data::Identifier],
    area: Area,
    buffer: &mut Buffer,
)
    requires
        lawful::<Data::Identifier>(),
    ensures
        *final(buffer) == if drawing_area(area, surface_area(*old(buffer))).spec_is_empty() {
            *old(buffer)
        } else {
            data.spec_render(
                keys(identifier@),
                *old(buffer),
                drawing_area(area, surface_area(*old(buffer))),
            )
        },
        surface_area(*final(buffer)) == surface_area(*old(buffer)),
{
    let room = clipped(area, buffer);
    if !room.is_empty() {
        data.render(identifier, room, buffer);
    }
}

/// What follows for all tree data from what it has to offer.
pub trait TreeDataHeight: TreeData {
    /// The rows that all visible nodes take together, at most `usize::MAX`.
    fn total_required_height(&self, open_identifiers: &OpenSet<Self::Identifier>) -> (r: usize)
        requires
            lawful::<Self::Identifier>(),
            open_identifiers.wf(),
        ensures
            r == if total_height(flattened(open_identifiers@, self.shapes(), Seq::empty()))
                > usize::MAX {
                usize::MAX as nat
            } else {
                total_height(flattened(open_identifiers@, self.shapes(), Seq::empty()))
            },
    ;
}

impl<Data: TreeData> TreeDataHeight for Data {
    fn total_required_height(&self, open_identifiers: &OpenSet<Self::Identifier>) -> (r: usize)
    {
        let nodes = self.get_nodes(open_identifiers);
        let ghost views = node_views(nodes@);
        let mut total: usize = 0;
        let mut i: usize = 0;
        while i < nodes.len()
            invariant
                i <= nodes@.len(),
                views == node_views(nodes@),
                total == if total_height(views.take(i as int)) > usize::MAX {
                    usize::MAX as nat
                } else {
                    total_height(views.take(i as int))
                },
            decreases nodes@.len() - i,
        {
            proof {
                assert(views.take(i + 1).drop_last() =~= views.take(i as int));
                assert(views.take(i + 1).last() == nodes@[i as int]@);
            }
            total = total.saturating_add(nodes[i].height);
            i += 1;
        }
        assert(views.take(i as int) =~= views);
        total
    }
}

} // verus!
