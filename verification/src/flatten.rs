//! Flattening: from items and open paths to the list of visible nodes.

use vstd::prelude::*;
use crate::generic_tree_item::{shapes_of, GenericTreeItem};
use crate::identifier::{child_path, keys, lawful};
use crate::node::{node_views, Node};
use crate::open_set::OpenSet;
use crate::shape::{flattened, flattened_item, node_of};

verus! {

/// The views of two lists of nodes, one after the other, are the views of
/// the joined list.
pub proof fn lemma_node_views_add<Identifier: DeepView>(
    a: Seq<Node<Identifier>>,
    b: Seq<Node<Identifier>>,
)
    ensures
        node_views(a + b) == node_views(a) + node_views(b),
{
    assert(node_views(a + b) =~= node_views(a) + node_views(b));
}

/// All visible nodes of the items in a flat list: each item, and directly
/// after it, when its path is open, its children. `current` is the path of
/// the items' parent; it starts empty.
pub fn flatten<Item: GenericTreeItem>(
    open_identifiers: &OpenSet<Item::Identifier>,
    items: &[Item],
    current: &[Item::Identifier],
) -> (r: Vec<Node<Item::Identifier>>)
    requires
        lawful::<Item::Identifier>(),
        open_identifiers.wf(),
    ensures
        node_views(r@) == flattened(open_identifiers@, shapes_of(items@), keys(current@)),
    decreases shapes_of(items@),
{
    let depth = current.len();
    let ghost open = open_identifiers@;
    let ghost shapes = shapes_of(items@);
    let ghost parent = keys(current@);
    let mut result: Vec<Node<Item::Identifier>> = Vec::new();
    let mut i: usize = 0;
    assert(shapes.skip(0) =~= shapes);
    assert(node_views(result@) =~= Seq::empty());
    while i < items.len()
        invariant
            lawful::<Item::Identifier>(),
            open_identifiers.wf(),
            open == open_identifiers@,
            shapes == shapes_of(items@),
            parent == keys(current@),
            depth == current@.len(),
            i <= items@.len(),
            node_views(result@) + flattened(open, shapes.skip(i as int), parent) == flattened(
                open,
                shapes,
                parent,
            ),
        decreases items@.len() - i,
    {
        let item = &items[i];
        let child_identifier = child_path(current, item.identifier());
        let children = item.children();
        let has_children = children.len() > 0;
        let is_open = open_identifiers.contains(child_identifier.as_slice());
        let ghost before = result@;
        let ghost shape = item.shape();
        proof {
            assert(shapes.skip(i as int)[0] == shape);
            assert(shapes.skip(i as int).drop_first() =~= shapes.skip(i + 1));
            assert(keys(child_identifier@) == parent.push(shape.identifier));
        }
        let node = Node { depth, has_children, height: item.height(), identifier: child_identifier };
        assert(node@ == node_of(shape, parent));
        result.push(node);
        if is_open {
            proof {
                assert(shapes[i as int] == shape);
                assert(shapes_of(children@) =~= shape.children);
                assert(decreases_to!(shapes => shapes[i as int]));
                assert(decreases_to!(shape => shape.children));
            }
            let path = &result[result.len() - 1].identifier;
            assert(*path == node.identifier);
            let mut child_result = flatten(open_identifiers, children, path.as_slice());
            let ghost below = child_result@;
            result.append(&mut child_result);
            proof {
                assert(node_views(below) == flattened(open, shape.children, parent.push(shape.identifier)));
                assert(result@ =~= before + seq![node] + below);
                lemma_node_views_add(before + seq![node], below);
                lemma_node_views_add(before, seq![node]);
                assert(node_views(seq![node]) =~= seq![node@]);
                assert(node_views(result@) =~= node_views(before) + flattened_item(
                    open,
                    shape,
                    parent,
                ));
            }
        } else {
            proof {
                assert(result@ =~= before + seq![node]);
                lemma_node_views_add(before, seq![node]);
                assert(node_views(seq![node]) =~= seq![node@]);
                assert(flattened_item(open, shape, parent) =~= seq![node@]);
            }
        }
        proof {
            assert(node_views(result@) + flattened(open, shapes.skip(i + 1), parent) =~= node_views(
                before,
            ) + (flattened_item(open, shape, parent) + flattened(
                open,
                shapes.skip(i + 1),
                parent,
            )));
        }
        i += 1;
    }
    proof {
        assert(shapes.skip(i as int) =~= Seq::empty());
        assert(node_views(result@) + Seq::empty() =~= node_views(result@));
    }
    result
}

} // verus!
