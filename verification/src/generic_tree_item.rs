//! Items that hold their children, and the tree data made of them.

use vstd::prelude::*;
use ratatui::buffer::Buffer;
use crate::flatten::flatten;
use crate::identifier::{keys, lawful, same_identifier};
use crate::node::Node;
use crate::open_set::OpenSet;
use crate::shape::Shape;
use crate::surface::{clipped, drawing_area, surface_area, Area};
use crate::tree_data::TreeData;

verus! {

/// What an optional reference refers to.
pub open spec fn referent<T>(r: Option<&T>) -> Option<T> {
    match r {
        Some(value) => Some(*value),
        None => None,
    }
}

/// The first of the items whose key is the given one.
pub open spec fn first_by<T, K>(items: Seq<T>, key_of: spec_fn(T) -> K, key: K) -> Option<T>
    decreases items.len(),
{
    if items.len() == 0 {
        None
    } else if key_of(items[0]) == key {
        Some(items[0])
    } else {
        first_by(items.drop_first(), key_of, key)
    }
}

/// Where the path leads to from an item, going at each step to the child
/// that `step` gives for the next key; none where a step gives no child.
pub open spec fn follow<T, K>(item: T, step: spec_fn(T, K) -> Option<T>, path: Seq<K>) -> Option<T>
    decreases path.len(),
{
    if path.len() == 0 {
        Some(item)
    } else {
        match step(item, path[0]) {
            Some(child) => follow(child, step, path.drop_first()),
            None => None,
        }
    }
}

/// Whether the item at `i` is the first of the items whose key is the given
/// one.
pub open spec fn first_at<T, K>(items: Seq<T>, key_of: spec_fn(T) -> K, key: K, i: int) -> bool {
    &&& 0 <= i < items.len()
    &&& key_of(items[i]) == key
    &&& forall|j: int| 0 <= j < i ==> key_of(#[trigger] items[j]) != key
}

/// Whether `after` is the item with `new` in the place of what the path
/// leads to, and nothing else changed: `swap` tells of an item, a key, a
/// child and another item whether the other is the item with the child in
/// the place of the one that `step` gives for the key. Nothing is said
/// where the path leads to no item.
pub open spec fn replaced_along<T, K>(
    item: T,
    step: spec_fn(T, K) -> Option<T>,
    swap: spec_fn(T, K, T, T) -> bool,
    path: Seq<K>,
    new: T,
    after: T,
) -> bool
    decreases path.len(),
{
    if path.len() == 0 {
        after == new
    } else {
        match step(item, path[0]) {
            Some(child) => exists|mid: T|
                #[trigger] swap(item, path[0], mid, after) && replaced_along(
                    child,
                    step,
                    swap,
                    path.drop_first(),
                    new,
                    mid,
                ),
            None => true,
        }
    }
}

/// What is replaced below a child is replaced below the item, where the
/// item changes in that child only.
pub proof fn lemma_replaced_along_step<T, K>(
    item: T,
    step: spec_fn(T, K) -> Option<T>,
    swap: spec_fn(T, K, T, T) -> bool,
    path: Seq<K>,
    new: T,
    mid: T,
    after: T,
)
    requires
        path.len() > 0,
        step(item, path[0]) matches Some(child) && replaced_along(
            child,
            step,
            swap,
            path.drop_first(),
            new,
            mid,
        ),
        swap(item, path[0], mid, after),
    ensures
        replaced_along(item, step, swap, path, new, after),
{
}

/// Recursive generic tree item which can have children being of the same
/// type. A list of such items is [`TreeData`].
pub trait GenericTreeItem: Sized {
    /// Identifier of the item, which needs to be unique among its siblings.
    type Identifier: Clone + PartialEq + DeepView;

    /// What the widget shows of the item.
    spec fn shape(&self) -> Shape<<Self::Identifier as DeepView>::V>;

    /// The children of the item.
    spec fn spec_children(&self) -> Seq<Self>;

    fn identifier(&self) -> (r: &Self::Identifier)
        ensures
            r.deep_view() == self.shape().identifier,
    ;

    fn children(&self) -> (r: &[Self])
        ensures
            r@ == self.spec_children(),
            r@.len() == self.shape().children.len(),
            forall|i: int|
                0 <= i < r@.len() ==> (#[trigger] r@[i]).shape() == self.shape().children[i],
    ;

    fn height(&self) -> (r: usize)
        ensures
            r == self.shape().height,
    ;

    /// The grid after the content of the item was drawn into the area of
    /// it.
    spec fn spec_render(&self, buffer: Buffer, area: Area) -> Buffer;

    /// Draws the content of the item into the area, which lies on the grid
    /// and ends before the last column that there is.
    fn render(&self, area: Area, buffer: &mut Buffer)
        requires
            area.within(surface_area(*old(buffer))),
            area.ends_before_edge(),
        ensures
            *final(buffer) == self.spec_render(*old(buffer), area),
            surface_area(*final(buffer)) == surface_area(*old(buffer)),
    ;

    /// The first child with the given identifier.
    fn child_direct<'root>(&'root self, identifier: &Self::Identifier) -> (r: Option<&'root Self>)
        requires
            lawful::<Self::Identifier>(),
        ensures
            referent(r) == first_by(
                self.spec_children(),
                |item: Self| item.shape().identifier,
                identifier.deep_view(),
            ),
    {
        let children = self.children();
        let mut i: usize = 0;
        assert(children@.skip(0) =~= children@);
        while i < children.len()
            invariant
                lawful::<Self::Identifier>(),
                i <= children@.len(),
                children@ == self.spec_children(),
                first_by(children@, |item: Self| item.shape().identifier, identifier.deep_view())
                    == first_by(
                    children@.skip(i as int),
                    |item: Self| item.shape().identifier,
                    identifier.deep_view(),
                ),
            decreases children@.len() - i,
        {
            proof {
                assert(children@.skip(i as int)[0] == children@[i as int]);
                assert(children@.skip(i as int).drop_first() =~= children@.skip(i + 1));
            }
            if same_identifier(children[i].identifier(), identifier) {
                return Some(&children[i]);
            }
            i += 1;
        }
        None
    }

    /// The item that the path leads to from this item, going at each step
    /// to the first child with the next identifier; the item itself for the
    /// empty path.
    fn child_deep<'root>(&'root self, identifier: &[Self::Identifier]) -> (r: Option<&'root Self>)
        requires
            lawful::<Self::Identifier>(),
        ensures
            referent(r) == follow(
                *self,
                |item: Self, key: <Self::Identifier as DeepView>::V|
                    first_by(item.spec_children(), |child: Self| child.shape().identifier, key),
                keys(identifier@),
            ),
    {
        let mut current = self;
        let mut i: usize = 0;
        assert(keys(identifier@).skip(0) =~= keys(identifier@));
        while i < identifier.len()
            invariant
                lawful::<Self::Identifier>(),
                i <= identifier@.len(),
                follow(
                    *self,
                    |item: Self, key: <Self::Identifier as DeepView>::V|
                        first_by(
                            item.spec_children(),
                            |child: Self| child.shape().identifier,
                            key,
                        ),
                    keys(identifier@),
                ) == follow(
                    *current,
                    |item: Self, key: <Self::Identifier as DeepView>::V|
                        first_by(
                            item.spec_children(),
                            |child: Self| child.shape().identifier,
                            key,
                        ),
                    keys(identifier@).skip(i as int),
                ),
            decreases identifier@.len() - i,
        {
            proof {
                assert(keys(identifier@).skip(i as int)[0] == identifier@[i as int].deep_view());
                assert(keys(identifier@).skip(i as int).drop_first() =~= keys(identifier@).skip(
                    i + 1,
                ));
            }
            match current.child_direct(&identifier[i]) {
                Some(child) => {
                    current = child;
                },
                None => {
                    return None;
                },
            }
            i += 1;
        }
        Some(current)
    }
}

/// The shapes of a list of items, in order.
pub open spec fn shapes_of<Item: GenericTreeItem>(items: Seq<Item>) -> Seq<
    Shape<<Item::Identifier as DeepView>::V>,
> {
    Seq::new(items.len(), |i: int| items[i].shape())
}

/// The key of an item.
pub open spec fn key_of<Item: GenericTreeItem>() -> spec_fn(Item) -> <Item::Identifier as DeepView>::V {
    |item: Item| item.shape().identifier
}

/// The first child of an item with the given key.
pub open spec fn child_of<Item: GenericTreeItem>() -> spec_fn(
    Item,
    <Item::Identifier as DeepView>::V,
) -> Option<Item> {
    |item: Item, key: <Item::Identifier as DeepView>::V|
        first_by(item.spec_children(), |child: Item| child.shape().identifier, key)
}

/// The item that the path leads to from the top level, going at each step
/// to the first item with the next key; none for the empty path.
pub open spec fn item_at<Item: GenericTreeItem>(
    root: Seq<Item>,
    path: Seq<<Item::Identifier as DeepView>::V>,
) -> Option<Item> {
    if path.len() == 0 {
        None
    } else {
        match first_by(root, key_of::<Item>(), path[0]) {
            Some(top) => follow(top, child_of::<Item>(), path.drop_first()),
            None => None,
        }
    }
}

fn find<'root, Item: GenericTreeItem>(items: &'root [Item], identifier: &Item::Identifier) -> (r:
    Option<&'root Item>)
    requires
        lawful::<Item::Identifier>(),
    ensures
        referent(r) == first_by(items@, key_of::<Item>(), identifier.deep_view()),
{
    let mut i: usize = 0;
    assert(items@.skip(0) =~= items@);
    while i < items.len()
        invariant
            lawful::<Item::Identifier>(),
            i <= items@.len(),
            first_by(items@, key_of::<Item>(), identifier.deep_view()) == first_by(
                items@.skip(i as int),
                key_of::<Item>(),
                identifier.deep_view(),
            ),
        decreases items@.len() - i,
    {
        proof {
            assert(items@.skip(i as int)[0] == items@[i as int]);
            assert(items@.skip(i as int).drop_first() =~= items@.skip(i + 1));
        }
        if same_identifier(items[i].identifier(), identifier) {
            return Some(&items[i]);
        }
        i += 1;
    }
    None
}

/// The item that the path leads to from the top level.
pub fn get_item<'root, Item: GenericTreeItem>(
    root: &'root [Item],
    identifier: &[Item::Identifier],
) -> (r: Option<&'root Item>)
    requires
        lawful::<Item::Identifier>(),
    ensures
        referent(r) == item_at(root@, keys(identifier@)),
{
    if identifier.len() == 0 {
        return None;
    }
    match find(root, &identifier[0]) {
        Some(top) => {
            let mut current = top;
            let mut i: usize = 1;
            assert(keys(identifier@).drop_first() =~= keys(identifier@).skip(1));
            while i < identifier.len()
                invariant
                    lawful::<Item::Identifier>(),
                    1 <= i <= identifier@.len(),
                    item_at(root@, keys(identifier@)) == follow(
                        *current,
                        child_of::<Item>(),
                        keys(identifier@).skip(i as int),
                    ),
                decreases identifier@.len() - i,
            {
                proof {
                    assert(keys(identifier@).skip(i as int)[0] == identifier@[i as int].deep_view());
                    assert(keys(identifier@).skip(i as int).drop_first() =~= keys(
                        identifier@,
                    ).skip(i + 1));
                }
                match current.child_direct(&identifier[i]) {
                    Some(child) => {
                        current = child;
                    },
                    None => {
                        return None;
                    },
                }
                i += 1;
            }
            Some(current)
        },
        None => None,
    }
}

/// Draws the content of the item into what of the area can be drawn on:
/// what lies on the grid and before the last column that there is. Draws
/// nothing where that is no cell.
pub fn render_item<Item: GenericTreeItem>(item: &Item, area: Area, buffer: &mut Buffer)
    ensures
        *final(buffer) == if drawing_area(area, surface_area(*old(buffer))).spec_is_empty() {
            *old(buffer)
        } else {
            item.spec_render(*old(buffer), drawing_area(area, surface_area(*old(buffer))))
        },
        surface_area(*final(buffer)) == surface_area(*old(buffer)),
{
    let room = clipped(area, buffer);
    if !room.is_empty() {
        item.render(room, buffer);
    }
}

impl<Item: GenericTreeItem> TreeData for Vec<Item> {
    type Identifier = Item::Identifier;

    open spec fn shapes(&self) -> Seq<Shape<<Item::Identifier as DeepView>::V>> {
        shapes_of(self@)
    }

    fn get_nodes(&self, open_identifiers: &OpenSet<Self::Identifier>) -> (r: Vec<
        Node<Self::Identifier>,
    >) {
        let current: Vec<Item::Identifier> = Vec::new();
        assert(keys(current@) =~= Seq::empty());
        flatten(open_identifiers, self.as_slice(), current.as_slice())
    }

    open spec fn spec_render(
        &self,
        identifier: Seq<<Item::Identifier as DeepView>::V>,
        buffer: Buffer,
        area: Area,
    ) -> Buffer {
        match item_at(self@, identifier) {
            Some(item) => item.spec_render(buffer, area),
            None => buffer,
        }
    }

    fn render(&self, identifier: &[Self::Identifier], area: Area, buffer: &mut Buffer)
        ensures
            *final(buffer) == match item_at(self@, keys(identifier@)) {
                Some(item) => item.spec_render(*old(buffer), area),
                None => *old(buffer),
            },
    {
        if let Some(item) = get_item(self.as_slice(), identifier) {
            item.render(area, buffer);
        }
    }
}

} // verus!
