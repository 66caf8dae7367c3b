//! Going from an item to the items below it by their identifiers.

use vstd::prelude::*;
use crate::generic_tree_item::{
    first_at, first_by, follow, key_of, lemma_replaced_along_step, referent, replaced_along,
    GenericTreeItem,
};
use crate::identifier::{keys, lawful, same_identifier};

verus! {

/// Items that give their children by identifier.
pub trait RecursiveSelect: Sized {
    type Identifier: Clone + PartialEq + DeepView;

    /// The child that is given for the key.
    spec fn spec_child_direct(&self, key: <Self::Identifier as DeepView>::V) -> Option<Self>;

    /// The child with the given identifier.
    fn child_direct<'root>(&'root self, identifier: &Self::Identifier) -> (r: Option<&'root Self>)
        requires
            lawful::<Self::Identifier>(),
        ensures
            referent(r) == self.spec_child_direct(identifier.deep_view()),
    ;

    /// The item that the path leads to from this item, going at each step
    /// to the child with the next identifier; the item itself for the empty
    /// path.
    fn child_deep<'root>(&'root self, identifier: &[Self::Identifier]) -> (r: Option<&'root Self>)
        requires
            lawful::<Self::Identifier>(),
        ensures
            referent(r) == follow(
                *self,
                |item: Self, key: <Self::Identifier as DeepView>::V| item.spec_child_direct(key),
                keys(identifier@),
            ),
    {
        let mut current = self;
        let mut i: usize = 0;
        assert(keys(identifier@).skip(0) =~= keys(identifier@));
        while i < identifier.len()
            invariant
                lawful::<Self::Identifier>(),
                i <= identifier@.len(),
                follow(
                    *self,
                    |item: Self, key: <Self::Identifier as DeepView>::V|
                        item.spec_child_direct(key),
                    keys(identifier@),
                ) == follow(
                    *current,
                    |item: Self, key: <Self::Identifier as DeepView>::V|
                        item.spec_child_direct(key),
                    keys(identifier@).skip(i as int),
                ),
            decreases identifier@.len() - i,
        {
            proof {
                assert(keys(identifier@).skip(i as int)[0] == identifier@[i as int].deep_view());
                assert(keys(identifier@).skip(i as int).drop_first() =~= keys(identifier@).skip(
                    i + 1,
                ));
            }
            match current.child_direct(&identifier[i]) {
                Some(child) => {
                    current = child;
                },
                None => {
                    return None;
                },
            }
            i += 1;
        }
        Some(current)
    }
}

/// Holds of each value: a mark by which a statement about all values is
/// applied to one.
pub open spec fn each<T>(value: T) -> bool {
    true
}

/// Items that give their children by identifier, to be changed.
pub trait RecursiveSelectMut: Sized {
    type Identifier: Clone + PartialEq + DeepView;

    /// The child that is given for the key.
    spec fn spec_child_direct_mut(&self, key: <Self::Identifier as DeepView>::V) -> Option<Self>;

    /// Whether `after` is the item with `child` in the place of the child
    /// that is given for the key, and nothing else changed.
    spec fn spec_child_replaced(
        &self,
        key: <Self::Identifier as DeepView>::V,
        child: Self,
        after: Self,
    ) -> bool;

    /// The child with the given identifier, to be changed where it is: what
    /// it is changed to takes its place in the item. Where there is none,
    /// the item stays as it is.
    fn child_direct_mut<'root>(&'root mut self, identifier: &Self::Identifier) -> (r: Option<
        &'root mut Self,
    >)
        requires
            lawful::<Self::Identifier>(),
        ensures
            match r {
                Some(child) => {
                    &&& old(self).spec_child_direct_mut(identifier.deep_view()) == Some(*child)
                    &&& old(self).spec_child_replaced(
                        identifier.deep_view(),
                        *final(child),
                        *final(self),
                    )
                },
                None => old(self).spec_child_direct_mut(identifier.deep_view()) is None
                    && *final(self) == *old(self),
            },
    ;

    /// The item that the path leads to from this item, going at each step
    /// to the child with the next identifier; the item itself for the empty
    /// path. It is given to be changed where it is: what it is changed to
    /// takes its place at the end of the path, and nothing else of this
    /// item changes.
    fn child_deep_mut<'root>(&'root mut self, identifier: &[Self::Identifier]) -> (r: Option<
        &'root mut Self,
    >)
        requires
            lawful::<Self::Identifier>(),
        ensures
            match r {
                Some(found) => {
                    &&& follow(
                        *old(self),
                        |item: Self, key: <Self::Identifier as DeepView>::V|
                            item.spec_child_direct_mut(key),
                        keys(identifier@),
                    ) == Some(*found)
                    &&& replaced_along(
                        *old(self),
                        |item: Self, key: <Self::Identifier as DeepView>::V|
                            item.spec_child_direct_mut(key),
                        |item: Self, key: <Self::Identifier as DeepView>::V, child: Self, after: Self|
                            item.spec_child_replaced(key, child, after),
                        keys(identifier@),
                        *final(found),
                        *final(self),
                    )
                },
                None => follow(
                    *old(self),
                    |item: Self, key: <Self::Identifier as DeepView>::V|
                        item.spec_child_direct_mut(key),
                    keys(identifier@),
                ) is None,
            },
    {
        let mut current = self;
        let mut i: usize = 0;
        assert(keys(identifier@).skip(0) =~= keys(identifier@));
        while i < identifier.len()
            invariant
                lawful::<Self::Identifier>(),
                i <= identifier@.len(),
                follow(
                    *old(self),
                    |item: Self, key: <Self::Identifier as DeepView>::V|
                        item.spec_child_direct_mut(key),
                    keys(identifier@),
                ) == follow(
                    *current,
                    |item: Self, key: <Self::Identifier as DeepView>::V|
                        item.spec_child_direct_mut(key),
                    keys(identifier@).skip(i as int),
                ),
                forall|new: Self|
                    #[trigger] each(new) && replaced_along(
                        *current,
                        |item: Self, key: <Self::Identifier as DeepView>::V|
                            item.spec_child_direct_mut(key),
                        |item: Self, key: <Self::Identifier as DeepView>::V, child: Self, after: Self|
                            item.spec_child_replaced(key, child, after),
                        keys(identifier@).skip(i as int),
                        new,
                        *final(current),
                    ) ==> replaced_along(
                        *old(self),
                        |item: Self, key: <Self::Identifier as DeepView>::V|
                            item.spec_child_direct_mut(key),
                        |item: Self, key: <Self::Identifier as DeepView>::V, child: Self, after: Self|
                            item.spec_child_replaced(key, child, after),
                        keys(identifier@),
                        new,
                        *final(self),
                    ),
            decreases identifier@.len() - i,
        {
            proof {
                assert(keys(identifier@).skip(i as int)[0] == identifier@[i as int].deep_view());
                assert(keys(identifier@).skip(i as int).drop_first() =~= keys(identifier@).skip(
                    i + 1,
                ));
            }
            let ghost above = *current;
            let ghost above_after = *final(current);
            match current.child_direct_mut(&identifier[i]) {
                Some(child) => {
                    proof {
                        let step = |item: Self, key: <Self::Identifier as DeepView>::V|
                            item.spec_child_direct_mut(key);
                        let swap = |
                            item: Self,
                            key: <Self::Identifier as DeepView>::V,
                            child: Self,
                            after: Self,
                        | item.spec_child_replaced(key, child, after);
                        let rest = keys(identifier@).skip(i as int);
                        assert forall|new: Self|
                            #[trigger] each(new) && replaced_along(
                                *child,
                                step,
                                swap,
                                keys(identifier@).skip(i + 1),
                                new,
                                *final(child),
                            ) implies replaced_along(
                            *old(self),
                            step,
                            swap,
                            keys(identifier@),
                            new,
                            *final(self),
                        ) by {
                            assert(step(above, rest[0]) == Some(*child));
                            assert(swap(above, rest[0], *final(child), above_after));
                            assert(rest.len() > 0);
                            assert(rest.drop_first() == keys(identifier@).skip(i + 1));
                            assert(replaced_along(
                                *child,
                                step,
                                swap,
                                rest.drop_first(),
                                new,
                                *final(child),
                            ));
                            lemma_replaced_along_step(
                                above,
                                step,
                                swap,
                                rest,
                                new,
                                *final(child),
                                above_after,
                            );
                        }
                    }
                    current = child;
                },
                None => {
                    return None;
                },
            }
            i += 1;
        }
        assert(each(*final(current)));
        Some(current)
    }
}

/// The item that the path leads to from the top level, going to the first
/// item with the first identifier and on from there as the items give their
/// children; none for the empty path.
pub open spec fn item_at_mut<Item>(
    root: Seq<Item>,
    path: Seq<<<Item as GenericTreeItem>::Identifier as DeepView>::V>,
) -> Option<Item> where
    Item: GenericTreeItem + RecursiveSelectMut<Identifier = <Item as GenericTreeItem>::Identifier>,
 {
    if path.len() == 0 {
        None
    } else {
        match first_by(root, key_of::<Item>(), path[0]) {
            Some(top) => follow(
                top,
                |item: Item, key: <<Item as GenericTreeItem>::Identifier as DeepView>::V|
                    item.spec_child_direct_mut(key),
                path.drop_first(),
            ),
            None => None,
        }
    }
}

/// Whether `after` are the items with `new` in the place of what the path
/// leads to from the top level, and nothing else changed.
pub open spec fn replaced_at<Item>(
    root: Seq<Item>,
    path: Seq<<<Item as GenericTreeItem>::Identifier as DeepView>::V>,
    new: Item,
    after: Seq<Item>,
) -> bool where
    Item: GenericTreeItem + RecursiveSelectMut<Identifier = <Item as GenericTreeItem>::Identifier>,
 {
    path.len() > 0 && exists|i: int, mid: Item|
        {
            &&& first_at(root, key_of::<Item>(), path[0], i)
            &&& after == #[trigger] root.update(i, mid)
            &&& replaced_along(
                root[i],
                |item: Item, key: <<Item as GenericTreeItem>::Identifier as DeepView>::V|
                    item.spec_child_direct_mut(key),
                |
                    item: Item,
                    key: <<Item as GenericTreeItem>::Identifier as DeepView>::V,
                    child: Item,
                    after: Item,
                | item.spec_child_replaced(key, child, after),
                path.drop_first(),
                new,
                mid,
            )
        }
}

/// The item that the path leads to from the top level, to be changed where
/// it is: what it is changed to takes its place at the end of the path, and
/// nothing else of the items changes.
pub fn get_item_mut<'root, Item>(
    root: &'root mut [Item],
    identifier: &[<Item as GenericTreeItem>::Identifier],
) -> (r: Option<&'root mut Item>) where
    Item: GenericTreeItem + RecursiveSelectMut<Identifier = <Item as GenericTreeItem>::Identifier>,

    requires
        lawful::<<Item as GenericTreeItem>::Identifier>(),
    ensures
        match r {
            Some(found) => {
                &&& item_at_mut(old(root)@, keys(identifier@)) == Some(*found)
                &&& replaced_at(old(root)@, keys(identifier@), *final(found), final(root)@)
            },
            None => item_at_mut(old(root)@, keys(identifier@)) is None,
        },
{
    if identifier.len() == 0 {
        return None;
    }
    let mut index: usize = 0;
    let mut found = false;
    assert(root@.skip(0) =~= root@);
    while index < root.len() && !found
        invariant
            lawful::<<Item as GenericTreeItem>::Identifier>(),
            identifier@.len() > 0,
            index <= root@.len(),
            first_by(root@, key_of::<Item>(), identifier@[0].deep_view()) == first_by(
                root@.skip(index as int),
                key_of::<Item>(),
                identifier@[0].deep_view(),
            ),
            found ==> index < root@.len() && first_by(
                root@,
                key_of::<Item>(),
                identifier@[0].deep_view(),
            ) == Some(root@[index as int]),
            found ==> key_of::<Item>()(root@[index as int]) == identifier@[0].deep_view(),
            forall|j: int|
                0 <= j < index ==> key_of::<Item>()(#[trigger] root@[j])
                    != identifier@[0].deep_view(),
        decreases root@.len() - index + if found { 0int } else { 1int },
    {
        proof {
            assert(root@.skip(index as int)[0] == root@[index as int]);
            assert(root@.skip(index as int).drop_first() =~= root@.skip(index + 1));
        }
        if same_identifier(root[index].identifier(), &identifier[0]) {
            found = true;
        } else {
            index += 1;
        }
    }
    if !found {
        assert(keys(identifier@)[0] == identifier@[0].deep_view());
        return None;
    }
    let rest = vstd::slice::slice_subrange(identifier, 1, identifier.len());
    proof {
        assert(keys(identifier@)[0] == identifier@[0].deep_view());
        assert(keys(rest@) =~= keys(identifier@).drop_first());
    }
    let ghost before = root@;
    let ghost after = final(root)@;
    let top = &mut root[index];
    let ghost top_after = *final(top);
    let r = top.child_deep_mut(rest);
    proof {
        assert(first_at(before, key_of::<Item>(), keys(identifier@)[0], index as int));
        assert(after == before.update(index as int, top_after));
    }
    r
}

impl<Item: GenericTreeItem> RecursiveSelect for Item {
    type Identifier = Item::Identifier;

    open spec fn spec_child_direct(&self, key: <Item::Identifier as DeepView>::V) -> Option<Self> {
        first_by(self.spec_children(), |item: Self| item.shape().identifier, key)
    }

    fn child_direct<'root>(&'root self, identifier: &Self::Identifier) -> (r: Option<&'root Self>) {
        GenericTreeItem::child_direct(self, identifier)
    }
}

} // verus!
