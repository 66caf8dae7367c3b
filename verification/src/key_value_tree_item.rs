//! Tree items for key-value data structures like JSON: a value gives the
//! keys below it, and the value under each of them.

use vstd::prelude::*;
use ratatui::buffer::Buffer;
use crate::flatten::lemma_node_views_add;
use crate::generic_tree_item::{follow, referent};
use crate::identifier::{child_path, copy_identifier, keys, lawful};
use crate::node::{node_views, Node, NodeView};
use crate::open_set::OpenSet;
use crate::shape::{flattened, flattened_item, node_of, Shape};
use crate::surface::{clipped, drawing_area, surface_area, Area};

verus! {

/// The value under the key among the entries: that of the first entry with
/// the key.
pub open spec fn value_under<K, T>(entries: Seq<(K, T)>, key: K) -> Option<T>
    decreases entries.len(),
{
    if entries.len() == 0 {
        None
    } else if entries[0].0 == key {
        Some(entries[0].1)
    } else {
        value_under(entries.drop_first(), key)
    }
}

/// The value under the key of an entry: that of the first entry with the
/// same key.
pub open spec fn value_at<K, T>(entries: Seq<(K, T)>, i: int) -> T {
    value_under(entries, entries[i].0).unwrap()
}

/// There is a value under the key of each entry, and it is the value of an
/// entry.
pub proof fn lemma_value_under<K, T>(entries: Seq<(K, T)>, i: int)
    requires
        0 <= i < entries.len(),
    ensures
        value_under(entries, entries[i].0) is Some,
        exists|j: int| 0 <= j <= i && (#[trigger] entries[j]).1 == value_at(entries, i),
    decreases entries.len(),
{
    if entries[0].0 == entries[i].0 {
        assert(entries[0].1 == value_at(entries, i));
    } else {
        lemma_value_under(entries.drop_first(), i - 1);
        let j = choose|j: int|
            0 <= j <= i - 1 && (#[trigger] entries.drop_first()[j]).1 == value_at(
                entries.drop_first(),
                i - 1,
            );
        assert(entries[j + 1].1 == value_at(entries, i));
    }
}

/// What the widget shows of the values under the keys of the entries.
pub open spec fn shown_below<K, T>(
    entries: Seq<(K, T)>,
    shapes: Seq<Shape<K>>,
    height_of: spec_fn(T) -> nat,
    below: spec_fn(T) -> Seq<Shape<K>>,
) -> bool {
    &&& shapes.len() == entries.len()
    &&& forall|i: int|
        0 <= i < entries.len() ==> (#[trigger] shapes[i]) == (Shape {
            identifier: entries[i].0,
            height: height_of(value_at(entries, i)),
            children: below(value_at(entries, i)),
        })
}

/// The key that an optional reference refers to.
pub open spec fn optional_key<Key: DeepView>(key: Option<&Key>) -> Option<Key::V> {
    match key {
        Some(key) => Some(key.deep_view()),
        None => None,
    }
}

/// The key that a path ends with.
pub open spec fn last_key<K>(path: Seq<K>) -> Option<K> {
    if path.len() > 0 {
        Some(path.last())
    } else {
        None
    }
}

/// Tree item implementation for key-value data structures like JSON.
pub trait KeyValueTreeItem: Sized {
    type Key: Clone + PartialEq + DeepView;

    /// The values below this one, each with its key. Of values with the
    /// same key the first is the value under that key.
    spec fn spec_children(&self) -> Seq<(<Self::Key as DeepView>::V, Self)>;

    /// The rows that the value takes.
    spec fn spec_height(&self) -> nat;

    /// What the widget shows of the values below this one.
    spec fn shapes_below(&self) -> Seq<Shape<<Self::Key as DeepView>::V>>;

    /// The keys of the values below this one.
    fn keys_below(&self) -> (r: Vec<Self::Key>)
        requires
            lawful::<Self::Key>(),
        ensures
            r@.len() == self.spec_children().len(),
            forall|i: int|
                0 <= i < r@.len() ==> (#[trigger] r@[i]).deep_view() == self.spec_children()[i].0,
            shown_below(
                self.spec_children(),
                self.shapes_below(),
                |value: Self| value.spec_height(),
                |value: Self| value.shapes_below(),
            ),
    ;

    /// Whether there are values below this one.
    fn has_children(&self) -> (r: bool)
        requires
            lawful::<Self::Key>(),
        ensures
            r == (self.spec_children().len() > 0),
            r == (self.shapes_below().len() > 0),
    {
        self.keys_below().len() > 0
    }

    /// The value under the key.
    fn get_value(&self, key: &Self::Key) -> (r: Option<&Self>)
        requires
            lawful::<Self::Key>(),
        ensures
            referent(r) == value_under(self.spec_children(), key.deep_view()),
    ;

    /// The value that the keys lead to from this one; the value itself for
    /// no keys.
    fn get_value_deep<'root>(&'root self, path: &[Self::Key]) -> (r: Option<&'root Self>)
        requires
            lawful::<Self::Key>(),
        ensures
            referent(r) == follow(
                *self,
                |item: Self, key: <Self::Key as DeepView>::V|
                    value_under(item.spec_children(), key),
                keys(path@),
            ),
    {
        let mut current = self;
        let mut i: usize = 0;
        assert(keys(path@).skip(0) =~= keys(path@));
        while i < path.len()
            invariant
                lawful::<Self::Key>(),
                i <= path@.len(),
                follow(
                    *self,
                    |item: Self, key: <Self::Key as DeepView>::V|
                        value_under(item.spec_children(), key),
                    keys(path@),
                ) == follow(
                    *current,
                    |item: Self, key: <Self::Key as DeepView>::V|
                        value_under(item.spec_children(), key),
                    keys(path@).skip(i as int),
                ),
            decreases path@.len() - i,
        {
            proof {
                assert(keys(path@).skip(i as int)[0]
                    == path@[i as int].deep_view());
                assert(keys(path@).skip(i as int).drop_first()
                    =~= keys(path@).skip(i + 1));
            }
            match current.get_value(&path[i]) {
                Some(value) => {
                    current = value;
                },
                None => {
                    return None;
                },
            }
            i += 1;
        }
        Some(current)
    }

    /// The values below this one, each with its key.
    fn get_children(&self) -> (r: Vec<(Self::Key, &Self)>)
        requires
            lawful::<Self::Key>(),
        ensures
            r@.len() == self.spec_children().len(),
            forall|i: int|
                0 <= i < r@.len() ==> (#[trigger] r@[i]).0.deep_view() == self.spec_children()[i].0
                    && *r@[i].1 == value_at(self.spec_children(), i),
            shown_below(
                self.spec_children(),
                self.shapes_below(),
                |value: Self| value.spec_height(),
                |value: Self| value.shapes_below(),
            ),
    {
        let names = self.keys_below();
        let mut children: Vec<(Self::Key, &Self)> = Vec::new();
        let mut i: usize = 0;
        while i < names.len()
            invariant
                lawful::<Self::Key>(),
                names@.len() == self.spec_children().len(),
                forall|k: int|
                    0 <= k < names@.len() ==> (#[trigger] names@[k]).deep_view()
                        == self.spec_children()[k].0,
                i <= names@.len(),
                children@.len() == i,
                forall|k: int|
                    0 <= k < i ==> (#[trigger] children@[k]).0.deep_view()
                        == self.spec_children()[k].0 && *children@[k].1 == value_at(
                        self.spec_children(),
                        k,
                    ),
            decreases names@.len() - i,
        {
            proof {
                lemma_value_under(self.spec_children(), i as int);
            }
            let value = match self.get_value(&names[i]) {
                Some(value) => value,
                // the value exists when the key exists
                None => vstd::pervasive::unreached(),
            };
            children.push((copy_identifier(&names[i]), value));
            i += 1;
        }
        children
    }

    /// The rows that the value takes.
    fn height(&self) -> (r: usize)
        ensures
            r == self.spec_height(),
    ;

    /// The grid after the value, which stands under the key, was drawn
    /// into the area of it.
    spec fn spec_render_value(
        &self,
        key: Option<<Self::Key as DeepView>::V>,
        buffer: Buffer,
        area: Area,
    ) -> Buffer;

    /// Draws the value, which stands under the key, into the area, which
    /// lies on the grid and ends before the last column that there is.
    fn render(&self, key: Option<&Self::Key>, area: Area, buffer: &mut Buffer)
        requires
            area.within(surface_area(*old(buffer))),
            area.ends_before_edge(),
        ensures
            *final(buffer) == self.spec_render_value(optional_key(key), *old(buffer), area),
            surface_area(*final(buffer)) == surface_area(*old(buffer)),
    ;
}

/// The nodes of a value at the top: the visible nodes of the values below
/// it, and for a value with none below it a single node, without a path.
pub open spec fn top_nodes<K>(
    open: Set<Seq<K>>,
    shapes: Seq<Shape<K>>,
    height: nat,
) -> Seq<NodeView<K>> {
    if shapes.len() > 0 {
        flattened(open, shapes, Seq::empty())
    } else {
        seq![
            NodeView { depth: 0, has_children: false, height, identifier: Seq::empty() },
        ]
    }
}

/// All visible nodes of a value in a flat list: the values below it, and
/// below each of them, when its path is open, the values below that one. A
/// value with none below it is its own single node.
pub fn get_nodes<Item: KeyValueTreeItem>(item: &Item, open_identifiers: &OpenSet<Item::Key>) -> (r:
    Vec<Node<Item::Key>>)
    requires
        lawful::<Item::Key>(),
        open_identifiers.wf(),
    ensures
        node_views(r@) == top_nodes(open_identifiers@, item.shapes_below(), item.spec_height()),
{
    if item.has_children() {
        let current: Vec<Item::Key> = Vec::new();
        assert(keys(current@) =~= Seq::empty());
        flatten(open_identifiers, item, current.as_slice())
    } else {
        let mut nodes: Vec<Node<Item::Key>> = Vec::new();
        let identifier: Vec<Item::Key> = Vec::new();
        assert(keys(identifier@) =~= Seq::empty());
        nodes.push(Node { depth: 0, has_children: false, height: item.height(), identifier });
        assert(node_views(nodes@) =~= top_nodes(
            open_identifiers@,
            item.shapes_below(),
            item.spec_height(),
        ));
        nodes
    }
}

/// The grid after the value that the path leads to was drawn into what of
/// the area can be drawn on. Where that is no cell, or the path leads to no
/// value, the grid is as it was.
pub open spec fn value_rendered<Item: KeyValueTreeItem>(
    item: Item,
    path: Seq<<Item::Key as DeepView>::V>,
    buffer: Buffer,
    area: Area,
) -> Buffer {
    let room = drawing_area(area, surface_area(buffer));
    match follow(
        item,
        |value: Item, key: <Item::Key as DeepView>::V| value_under(value.spec_children(), key),
        path,
    ) {
        Some(value) => if room.spec_is_empty() {
            buffer
        } else {
            value.spec_render_value(last_key(path), buffer, room)
        },
        None => buffer,
    }
}

/// Draws the value that the path leads to into what of the area lies on
/// the grid; nothing where the path leads to none.
pub fn render<Item: KeyValueTreeItem>(
    item: &Item,
    identifier: &[Item::Key],
    area: Area,
    buffer: &mut Buffer,
)
    requires
        lawful::<Item::Key>(),
    ensures
        *final(buffer) == value_rendered(*item, keys(identifier@), *old(buffer), area),
        surface_area(*final(buffer)) == surface_area(*old(buffer)),
{
    let area = clipped(area, buffer);
    if area.is_empty() {
        return ;
    }
    if let Some(value) = item.get_value_deep(identifier) {
        let parent = if identifier.len() > 0 {
            Some(&identifier[identifier.len() - 1])
        } else {
            None
        };
        value.render(parent, area, buffer);
    }
}

/// The visible nodes of the values below a value with the path `current`.
fn flatten<Item: KeyValueTreeItem>(
    open_identifiers: &OpenSet<Item::Key>,
    item: &Item,
    current: &[Item::Key],
) -> (r: Vec<Node<Item::Key>>)
    requires
        lawful::<Item::Key>(),
        open_identifiers.wf(),
    ensures
        node_views(r@) == flattened(open_identifiers@, item.shapes_below(), keys(current@)),
    decreases item.shapes_below(),
{
    let depth = current.len();
    let ghost open = open_identifiers@;
    let ghost shapes = item.shapes_below();
    let ghost parent = keys(current@);
    let ghost inside = item.spec_children();
    let values = item.get_children();
    let mut result: Vec<Node<Item::Key>> = Vec::new();
    let mut i: usize = 0;
    assert(shapes.skip(0) =~= shapes);
    assert(node_views(result@) =~= Seq::empty());
    while i < values.len()
        invariant
            lawful::<Item::Key>(),
            open_identifiers.wf(),
            open == open_identifiers@,
            shapes == item.shapes_below(),
            parent == keys(current@),
            inside == item.spec_children(),
            depth == current@.len(),
            values@.len() == inside.len(),
            shapes.len() == inside.len(),
            forall|k: int|
                0 <= k < values@.len() ==> (#[trigger] values@[k]).0.deep_view() == inside[k].0
                    && *values@[k].1 == value_at(inside, k),
            shown_below(
                inside,
                shapes,
                |value: Item| value.spec_height(),
                |value: Item| value.shapes_below(),
            ),
            i <= values@.len(),
            node_views(result@) + flattened(open, shapes.skip(i as int), parent) == flattened(
                open,
                shapes,
                parent,
            ),
        decreases values@.len() - i,
    {
        let value = values[i].1;
        let child_identifier = child_path(current, &values[i].0);
        let ghost before = result@;
        let ghost shape = shapes[i as int];
        proof {
            assert(shapes.skip(i as int)[0] == shape);
            assert(shapes.skip(i as int).drop_first() =~= shapes.skip(i + 1));
            assert(keys(child_identifier@) == parent.push(shape.identifier));
        }
        let is_open = open_identifiers.contains(child_identifier.as_slice());
        let node = Node {
            depth,
            has_children: value.has_children(),
            height: value.height(),
            identifier: child_identifier,
        };
        assert(node@ == node_of(shape, parent));
        result.push(node);
        if is_open {
            proof {
                assert(decreases_to!(shapes => shapes[i as int]));
                assert(decreases_to!(shape => shape.children));
            }
            let path = &result[result.len() - 1].identifier;
            assert(*path == node.identifier);
            let mut child_result = flatten(open_identifiers, value, path.as_slice());
            let ghost below = child_result@;
            result.append(&mut child_result);
            proof {
                assert(result@ =~= before + seq![node] + below);
                lemma_node_views_add(before + seq![node], below);
                lemma_node_views_add(before, seq![node]);
                assert(node_views(seq![node]) =~= seq![node@]);
                assert(node_views(result@) =~= node_views(before) + flattened_item(
                    open,
                    shape,
                    parent,
                ));
            }
        } else {
            proof {
                assert(result@ =~= before + seq![node]);
                lemma_node_views_add(before, seq![node]);
                assert(node_views(seq![node]) =~= seq![node@]);
                assert(flattened_item(open, shape, parent) =~= seq![node@]);
            }
        }
        proof {
            assert(node_views(result@) + flattened(open, shapes.skip(i + 1), parent) =~= node_views(
                before,
            ) + (flattened_item(open, shape, parent) + flattened(
                open,
                shapes.skip(i + 1),
                parent,
            )));
        }
        i += 1;
    }
    proof {
        assert(shapes.skip(i as int) =~= Seq::empty());
        assert(node_views(result@) + Seq::empty() =~= node_views(result@));
    }
    result
}

} // verus!
