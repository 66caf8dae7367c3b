//! A JSON value as tree data, without items made of it beforehand.

use vstd::prelude::*;
use ratatui::buffer::Buffer;
use serde_json::Value;
use crate::identifier::{child_path, keys, lawful, Selector, SelectorKey};
use crate::json::select::{select, selected};
use crate::json::{
    child_shapes, children, children_of, get_row, is_container, json, json_shape, json_shapes,
    lemma_child_smaller, row_pieces, row_spans, spans_of, summary_of, Json, Shown,
};
use crate::flatten::lemma_node_views_add;
use crate::node::{node_views, Node};
use crate::open_set::OpenSet;
use crate::shape::{flattened, flattened_item, node_of, Shape};
use crate::surface::{render_spans, spans_rendered, Area};
use crate::tree_data::TreeData;

verus! {

/// The grid after the row of the value that the path leads to was drawn
/// into the area of it: the key or the index that the path ends with, a
/// separator, and the value. Where the path is empty or leads to no value,
/// the grid is as it was.
pub open spec fn row_rendered(
    root: Json,
    path: Seq<SelectorKey>,
    buffer: Buffer,
    area: Area,
) -> Buffer {
    if path.len() == 0 {
        buffer
    } else {
        match selected(root, path) {
            Some(value) => spans_rendered(buffer, row_spans(row_pieces(path.last(), value)), area),
            None => buffer,
        }
    }
}

impl TreeData for Value {
    type Identifier = Selector;

    open spec fn shapes(&self) -> Seq<Shape<SelectorKey>> {
        json_shapes(json(*self))
    }

    fn get_nodes(&self, open_identifiers: &OpenSet<Selector>) -> (r: Vec<Node<Selector>>) {
        let empty: Vec<Selector> = Vec::new();
        assert(keys(empty@) =~= Seq::empty());
        match summary_of(self) {
            Shown::Array(_) => get_children_nodes(open_identifiers, self, empty.as_slice()),
            Shown::Object(_) => get_children_nodes(open_identifiers, self, empty.as_slice()),
            _ => {
                let mut identifier: Vec<Selector> = Vec::new();
                identifier.push(Selector::Nothing);
                let mut nodes: Vec<Node<Selector>> = Vec::new();
                nodes.push(Node { depth: 0, has_children: false, height: 1, identifier });
                proof {
                    let shape = json_shape(SelectorKey::Nothing, json(*self));
                    assert(!is_container(json(*self)));
                    assert(seq![shape].drop_first() =~= Seq::empty());
                    assert(seq![shape][0] == shape);
                    assert(child_shapes(json(*self)) =~= Seq::empty());
                    assert(keys(nodes@[0].identifier@) =~= Seq::<SelectorKey>::empty().push(
                        SelectorKey::Nothing,
                    ));
                    assert(json_shapes(json(*self)).drop_first() =~= Seq::empty());
                    assert(flattened(open_identifiers@, seq![shape].drop_first(), Seq::empty())
                        =~= Seq::empty());
                    assert(flattened(open_identifiers@, seq![shape], Seq::empty())
                        =~= flattened_item(open_identifiers@, shape, Seq::empty()));
                    assert(flattened(open_identifiers@, shape.children, Seq::empty().push(shape.identifier)) =~= Seq::empty());
                    assert(node_views(nodes@) =~= flattened_item(
                        open_identifiers@,
                        shape,
                        Seq::empty(),
                    ));
                }
                nodes
            },
        }
    }

    open spec fn spec_render(
        &self,
        identifier: Seq<SelectorKey>,
        buffer: Buffer,
        area: Area,
    ) -> Buffer {
        row_rendered(json(*self), identifier, buffer, area)
    }

    fn render(&self, identifier: &[Selector], area: Area, buffer: &mut Buffer)
        ensures
            *final(buffer) == row_rendered(json(*self), keys(identifier@), *old(buffer), area),
    {
        if identifier.len() == 0 {
            return ;
        }
        let key = &identifier[identifier.len() - 1];
        assert(keys(identifier@).last() == key.deep_view());
        match select(self, identifier) {
            Some(value) => {
                let row = get_row(key, value);
                render_spans(spans_of(&row), area, buffer);
            },
            None => {},
        }
    }
}

/// The visible nodes of a value with the given path: its own node, and
/// those of the values inside of it where its path is open.
fn get_nodes_recursive(
    open_identifiers: &OpenSet<Selector>,
    value: &Value,
    current_identifier: Vec<Selector>,
) -> (r: Vec<Node<Selector>>)
    requires
        lawful::<Selector>(),
        open_identifiers.wf(),
        current_identifier@.len() > 0,
    ensures
        node_views(r@) == flattened_item(
            open_identifiers@,
            json_shape(current_identifier@.last().deep_view(), json(*value)),
            keys(current_identifier@).drop_last(),
        ),
    decreases json(*value), 1nat,
{
    let ghost open = open_identifiers@;
    let ghost shape = json_shape(current_identifier@.last().deep_view(), json(*value));
    let ghost parent = keys(current_identifier@).drop_last();
    let ghost path = keys(current_identifier@);
    assert(path =~= parent.push(shape.identifier));
    let depth = current_identifier.len() - 1;
    let has_children = match summary_of(value) {
        Shown::Array(len) => len > 0,
        Shown::Object(len) => len > 0,
        _ => false,
    };
    assert(has_children == (child_shapes(json(*value)).len() > 0));
    let is_open = open_identifiers.contains(current_identifier.as_slice());
    let mut result: Vec<Node<Selector>> = Vec::new();
    if is_open {
        let mut inside = get_children_nodes(open_identifiers, value, current_identifier.as_slice());
        let ghost below = inside@;
        let node = Node { depth, has_children, height: 1, identifier: current_identifier };
        assert(node@ == node_of(shape, parent));
        result.push(node);
        result.append(&mut inside);
        proof {
            assert(result@ =~= seq![node] + below);
            lemma_node_views_add(seq![node], below);
            assert(node_views(seq![node]) =~= seq![node@]);
        }
    } else {
        let node = Node { depth, has_children, height: 1, identifier: current_identifier };
        assert(node@ == node_of(shape, parent));
        result.push(node);
        proof {
            assert(node_views(result@) =~= seq![node@]);
            assert(flattened_item(open, shape, parent) =~= seq![node@]);
        }
    }
    result
}

/// The visible nodes of the values inside of a value with the given path.
fn get_children_nodes(
    open_identifiers: &OpenSet<Selector>,
    value: &Value,
    current_identifier: &[Selector],
) -> (r: Vec<Node<Selector>>)
    requires
        lawful::<Selector>(),
        open_identifiers.wf(),
    ensures
        node_views(r@) == flattened(
            open_identifiers@,
            child_shapes(json(*value)),
            keys(current_identifier@),
        ),
    decreases json(*value), 0nat,
{
    let ghost open = open_identifiers@;
    let ghost shapes = child_shapes(json(*value));
    let ghost parent = keys(current_identifier@);
    let ghost inside = children_of(json(*value));
    let entries = children(value);
    let mut result: Vec<Node<Selector>> = Vec::new();
    let mut i: usize = 0;
    assert(shapes.skip(0) =~= shapes);
    assert(node_views(result@) =~= Seq::empty());
    while i < entries.len()
        invariant
            lawful::<Selector>(),
            open_identifiers.wf(),
            open == open_identifiers@,
            shapes == child_shapes(json(*value)),
            parent == keys(current_identifier@),
            inside == children_of(json(*value)),
            entries@.len() == inside.len(),
            forall|k: int|
                0 <= k < entries@.len() ==> (#[trigger] entries@[k]).0.deep_view() == inside[k].0
                    && json(*entries@[k].1) == inside[k].1,
            i <= entries@.len(),
            node_views(result@) + flattened(open, shapes.skip(i as int), parent) == flattened(
                open,
                shapes,
                parent,
            ),
        decreases entries@.len() - i,
    {
        let child_identifier = child_path(current_identifier, &entries[i].0);
        let ghost before = result@;
        let ghost shape = shapes[i as int];
        proof {
            lemma_child_smaller(json(*value), i as int);
            assert(shapes.skip(i as int)[0] == shape);
            assert(shapes.skip(i as int).drop_first() =~= shapes.skip(i + 1));
            assert(shape == json_shape(inside[i as int].0, inside[i as int].1));
            assert(keys(child_identifier@).drop_last() =~= parent);
            assert(child_identifier@.last().deep_view() == keys(child_identifier@).last());
        }
        let mut nodes = get_nodes_recursive(open_identifiers, entries[i].1, child_identifier);
        let ghost added = nodes@;
        result.append(&mut nodes);
        proof {
            lemma_node_views_add(before, added);
            assert(node_views(result@) + flattened(open, shapes.skip(i + 1), parent) =~= node_views(
                before,
            ) + (flattened_item(open, shape, parent) + flattened(
                open,
                shapes.skip(i + 1),
                parent,
            )));
        }
        i += 1;
    }
    proof {
        assert(shapes.skip(i as int) =~= Seq::empty());
        assert(node_views(result@) + Seq::empty() =~= node_views(result@));
    }
    result
}

} // verus!
