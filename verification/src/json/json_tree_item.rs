//! Tree items that refer to the JSON values they show.

use vstd::prelude::*;
use ratatui::buffer::Buffer;
use serde_json::Value;
use crate::generic_tree_item::{shapes_of, GenericTreeItem};
use crate::identifier::{Selector, SelectorKey};
use crate::json::{
    child_shapes, children, children_of, get_row, json, json_shape, json_shapes,
    lemma_child_smaller, row_pieces, row_spans, spans_of, summary_of, top_values, Json, Shown,
};
use crate::shape::Shape;
use crate::surface::{render_spans, spans_rendered, Area};

verus! {

/// An item of a tree that shows a JSON value: the value under its selector,
/// and below it the items of the values inside.
#[derive(Debug)]
pub struct JsonTreeItem<'json> {
    key: Selector,
    value: &'json Value,
    children: Vec<JsonTreeItem<'json>>,
}

/// Whether the item refers to the value, and its children to the values
/// inside of the value.
pub open spec fn refers_to(item: JsonTreeItem<'_>, value: Json) -> bool
    decreases value,
    via refers_to_decreases
{
    &&& json(item.value()) == value
    &&& item.spec_children().len() == children_of(value).len()
    &&& forall|i: int|
        0 <= i < children_of(value).len() ==> refers_to(
            #[trigger] item.spec_children()[i],
            children_of(value)[i].1,
        )
}

#[via_fn]
proof fn refers_to_decreases(item: JsonTreeItem<'_>, value: Json) {
    assert forall|i: int| 0 <= i < children_of(value).len() implies decreases_to!(value => #[trigger] children_of(value)[i].1) by {
        lemma_child_smaller(value, i);
    }
}

/// Whether the items refer to the values, one for one.
pub open spec fn all_refer_to(
    items: Seq<JsonTreeItem<'_>>,
    values: Seq<(SelectorKey, Json)>,
) -> bool {
    &&& items.len() == values.len()
    &&& forall|i: int| 0 <= i < values.len() ==> refers_to(#[trigger] items[i], values[i].1)
}

impl<'json> JsonTreeItem<'json> {
    /// What the widget shows of the item.
    pub closed spec fn shown(&self) -> Shape<SelectorKey>
        decreases self,
    {
        Shape {
            identifier: self.key.deep_view(),
            height: 1,
            children: Seq::new(
                self.children@.len(),
                |i: int|
                    if 0 <= i < self.children@.len() {
                        self.children@[i].shown()
                    } else {
                        arbitrary()
                    },
            ),
        }
    }

    /// Whether the two items show the same: the same value under the same
    /// selector, over children that show the same, one for one.
    pub open spec fn same_as(self, other: Self) -> bool
        decreases self,
    {
        &&& self.value() == other.value()
        &&& self.shape() == other.shape()
        &&& self.spec_children().len() == other.spec_children().len()
        &&& forall|i: int|
            0 <= i < self.spec_children().len() ==> (#[trigger] self.spec_children()[i]).same_as(
                other.spec_children()[i],
            )
    }

    /// The value that the item shows.
    pub closed spec fn value(&self) -> Value {
        *self.value
    }

    fn raw_leaf(key: Selector, value: &'json Value) -> (r: Self)
        ensures
            r.shown() == (Shape {
                identifier: key.deep_view(),
                height: 1,
                children: Seq::empty(),
            }),
            r.value() == *value,
            r.spec_children() == Seq::<Self>::empty(),
    {
        let r = JsonTreeItem { key, value, children: Vec::new() };
        assert(r.shown().children =~= Seq::empty());
        r
    }

    fn raw(identifier: Selector, value: &'json Value, children: Vec<Self>) -> (r: Self)
        ensures
            r.shown() == (Shape {
                identifier: identifier.deep_view(),
                height: 1,
                children: shapes_of(children@),
            }),
            r.value() == *value,
            r.spec_children() == children@,
    {
        // no need for child identifier uniqueness check as JSON itself already prevents this
        let r = JsonTreeItem { key: identifier, value, children };
        assert(r.shown().children =~= shapes_of(children@));
        r
    }

    /// The items of a JSON value: one for each element of an array or entry
    /// of an object, and one for any other value. Each refers to its value.
    pub fn new(root: &'json Value) -> (r: Vec<Self>)
        ensures
            shapes_of(r@) == json_shapes(json(*root)),
            all_refer_to(r@, top_values(json(*root))),
    {
        match summary_of(root) {
            Shown::Array(_) => Self::from_children(root),
            Shown::Object(_) => Self::from_children(root),
            _ => {
                let mut items: Vec<Self> = Vec::new();
                items.push(Self::raw_leaf(Selector::Nothing, root));
                assert(child_shapes(json(*root)) =~= Seq::empty());
                assert(shapes_of(items@) =~= json_shapes(json(*root)));
                items
            },
        }
    }

    fn new_inner(key: Selector, value: &'json Value) -> (r: Self)
        ensures
            r.shown() == json_shape(key.deep_view(), json(*value)),
            r.value() == *value,
            refers_to(r, json(*value)),
        decreases json(*value), 1nat,
    {
        let has_children = match summary_of(value) {
            Shown::Object(len) => len > 0,
            Shown::Array(len) => len > 0,
            _ => false,
        };
        if has_children {
            Self::raw(key, value, Self::from_children(value))
        } else {
            assert(child_shapes(json(*value)) =~= Seq::empty());
            Self::raw_leaf(key, value)
        }
    }

    fn from_children(value: &'json Value) -> (r: Vec<Self>)
        ensures
            shapes_of(r@) == child_shapes(json(*value)),
            all_refer_to(r@, children_of(json(*value))),
        decreases json(*value), 0nat,
    {
        let entries = children(value);
        let ghost all = entries@;
        let ghost inside = children_of(json(*value));
        let mut items: Vec<Self> = Vec::new();
        for entry in iter: entries
            invariant
                all.len() == inside.len(),
                inside == children_of(json(*value)),
                iter.seq() == all,
                forall|k: int|
                    0 <= k < all.len() ==> (#[trigger] all[k]).0.deep_view() == inside[k].0
                        && json(*all[k].1) == inside[k].1,
                items@.len() == iter.index(),
                forall|k: int|
                    0 <= k < items@.len() ==> (#[trigger] items@[k]).shown() == json_shape(
                        inside[k].0,
                        inside[k].1,
                    ) && refers_to(items@[k], inside[k].1),
        {
            proof {
                lemma_child_smaller(json(*value), iter.index() as int);
            }
            let (key, item) = entry;
            items.push(Self::new_inner(key, item));
        }
        assert(shapes_of(items@) =~= child_shapes(json(*value)));
        items
    }
}

impl<'json> Clone for JsonTreeItem<'json> {
    /// A copy of the item and of the items below it: each refers to the
    /// same value under the same selector.
    fn clone(&self) -> (r: Self)
        ensures
            r.same_as(*self),
        decreases self,
    {
        let mut children: Vec<Self> = Vec::new();
        let mut i: usize = 0;
        while i < self.children.len()
            invariant
                i <= self.children@.len(),
                children@.len() == i,
                forall|k: int| 0 <= k < i ==> (#[trigger] children@[k]).same_as(self.children@[k]),
            decreases self.children@.len() - i,
        {
            children.push(self.children[i].clone());
            i += 1;
        }
        let r = JsonTreeItem { key: self.key.clone(), value: self.value, children };
        proof {
            assert(r.shown().children =~= self.shown().children);
        }
        r
    }
}

impl<'json> GenericTreeItem for JsonTreeItem<'json> {
    type Identifier = Selector;

    closed spec fn shape(&self) -> Shape<SelectorKey> {
        self.shown()
    }

    closed spec fn spec_children(&self) -> Seq<Self> {
        self.children@
    }

    fn identifier(&self) -> (r: &Selector) {
        &self.key
    }

    fn children(&self) -> (r: &[Self]) {
        self.children.as_slice()
    }

    fn height(&self) -> (r: usize) {
        1
    }

    closed spec fn spec_render(&self, buffer: Buffer, area: Area) -> Buffer {
        spans_rendered(
            buffer,
            row_spans(row_pieces(self.key.deep_view(), json(*self.value))),
            area,
        )
    }

    fn render(&self, area: Area, buffer: &mut Buffer)
        ensures
            *final(buffer) == spans_rendered(
                *old(buffer),
                row_spans(row_pieces(self.shape().identifier, json(self.value()))),
                area,
            ),
    {
        let row = get_row(&self.key, self.value);
        render_spans(spans_of(&row), area, buffer);
    }
}

} // verus!
