//! Items that show a text.

use vstd::prelude::*;
use ratatui::buffer::Buffer;
use ratatui::text::Text;
use crate::generic_tree_item::{first_at, first_by, shapes_of, GenericTreeItem};
use crate::identifier::{copy_identifier, same_identifier};
use crate::key_value_tree_item::{lemma_value_under, shown_below, value_at, value_under};
use crate::recursive_select::RecursiveSelectMut;
use crate::identifier::lawful;
use crate::shape::{distinct_identifiers, unique_siblings, Shape};
use crate::surface::{height_of_text, render_text, text_height, text_rendered, Area};
use crate::unique_identifiers::{all_different, already_exists, occurs, says};

verus! {

/// One item inside a tree, with a text that is made before the item.
///
/// Can have zero or more `children`.
///
/// # Identifier
///
/// The `identifier` is used to keep the state like the currently selected or
/// opened items in the tree state.
///
/// It needs to be unique among its siblings but can be used again on parent
/// or child items. A common example would be a filename which has to be
/// unique in its directory while it can exist in another.
///
/// The `text` can be different from its `identifier`. To repeat the filename
/// analogy: file browsers sometimes hide file extensions. The filename
/// `main.rs` is the identifier while it is shown as `main`.
#[derive(Debug)]
pub struct TreeItem<'text, Identifier> {
    identifier: Identifier,
    text: Text<'text>,
    children: Vec<TreeItem<'text, Identifier>>,
}

impl<'text, Identifier: Clone + PartialEq + DeepView> TreeItem<'text, Identifier> {
    /// The text of the item.
    pub closed spec fn text(&self) -> Text<'text> {
        self.text
    }

    /// What the widget shows of the item.
    pub closed spec fn shown(&self) -> Shape<Identifier::V>
        decreases self,
    {
        Shape {
            identifier: self.identifier.deep_view(),
            height: text_height(self.text),
            children: Seq::new(
                self.children@.len(),
                |i: int|
                    if 0 <= i < self.children@.len() {
                        self.children@[i].shown()
                    } else {
                        arbitrary()
                    },
            ),
        }
    }

    /// Whether the two items show the same: the same text under the same
    /// identifier, over children that show the same, one for one.
    pub closed spec fn same_as(self, other: Self) -> bool
        decreases self,
    {
        &&& self.text == other.text
        &&& self.shown() == other.shown()
        &&& self.children@.len() == other.children@.len()
        &&& forall|i: int|
            0 <= i < self.children@.len() ==> (#[trigger] self.children@[i]).same_as(
                other.children@[i],
            )
    }

    /// What holds of two items that show the same.
    pub proof fn lemma_same_as(self, other: Self)
        requires
            self.same_as(other),
        ensures
            self.text() == other.text(),
            self.shape() == other.shape(),
            self.entries().len() == other.entries().len(),
            forall|i: int|
                0 <= i < self.entries().len() ==> (#[trigger] self.entries()[i]).1.same_as(
                    other.entries()[i].1,
                ),
    {
    }

    /// The children of the item, each with its key.
    pub closed spec fn entries(&self) -> Seq<(Identifier::V, Self)> {
        Seq::new(
            self.children@.len(),
            |i: int| (self.children@[i].identifier.deep_view(), self.children@[i]),
        )
    }

    /// The place of the first child with the key of the child at `i`.
    pub closed spec fn first_place(&self, i: int) -> int {
        choose|j: int|
            0 <= j <= i && (#[trigger] self.entries()[j]).1 == value_at(self.entries(), i)
    }

    /// What the widget shows of the children as values under their keys:
    /// of children with the same key, what it shows of the first.
    pub closed spec fn below(&self) -> Seq<Shape<Identifier::V>>
        decreases self,
    {
        Seq::new(
            self.children@.len(),
            |i: int|
                {
                    let j = self.first_place(i);
                    if 0 <= i < self.children@.len() && 0 <= j < self.children@.len() {
                        Shape {
                            identifier: self.children@[i].identifier.deep_view(),
                            height: text_height(self.children@[j].text),
                            children: self.children@[j].below(),
                        }
                    } else {
                        arbitrary()
                    }
                },
        )
    }

    /// The first child with a key is the value under that key.
    proof fn lemma_entries(self, key: Identifier::V, from: int)
        requires
            0 <= from <= self.children@.len(),
        ensures
            value_under(self.entries().skip(from), key) == first_by(
                self.children@.skip(from),
                |item: Self| item.shown().identifier,
                key,
            ),
        decreases self.children@.len() - from,
    {
        if from < self.children@.len() {
            self.lemma_entries(key, from + 1);
            assert(self.entries().skip(from)[0] == self.entries()[from]);
            assert(self.children@.skip(from)[0] == self.children@[from]);
            assert(self.entries().skip(from).drop_first() =~= self.entries().skip(from + 1));
            assert(self.children@.skip(from).drop_first() =~= self.children@.skip(from + 1));
        } else {
            assert(self.entries().skip(from) =~= Seq::empty());
            assert(self.children@.skip(from) =~= Seq::empty());
        }
    }

    /// What is shown below the item is what is shown of the values under
    /// the keys of its children.
    proof fn lemma_below(self)
        ensures
            shown_below(
                self.entries(),
                self.below(),
                |value: Self| text_height(value.text),
                |value: Self| value.below(),
            ),
    {
        assert forall|i: int| 0 <= i < self.entries().len() implies (#[trigger] self.below()[i])
            == (Shape {
            identifier: self.entries()[i].0,
            height: text_height(value_at(self.entries(), i).text),
            children: value_at(self.entries(), i).below(),
        }) by {
            lemma_value_under(self.entries(), i);
            let j = self.first_place(i);
            assert(self.entries()[j].1 == self.children@[j]);
        }
    }

    /// Whether siblings have different identifiers everywhere below the
    /// item. Every function that makes or changes an item keeps it so.
    pub open spec fn wf(&self) -> bool {
        unique_siblings(self.shape().children)
    }

    /// Create a new `TreeItem` without children.
    pub fn new_leaf<T: Into<Text<'text>>>(identifier: Identifier, text: T) -> (r: Self)
        ensures
            r.wf(),
            call_ensures(T::into, (text,), r.text()),
            r.shape().identifier == identifier.deep_view(),
            r.shape().height == text_height(r.text()),
            r.shape().children == Seq::<Shape<Identifier::V>>::empty(),
            r.spec_children() == Seq::<Self>::empty(),
    {
        let r = TreeItem { identifier, text: text.into(), children: Vec::new() };
        assert(r.shape().children =~= Seq::<Shape<Identifier::V>>::empty());
        r
    }

    /// Create a new `TreeItem` with children and a text that is made
    /// already.
    ///
    /// # Errors
    ///
    /// Errors when there are duplicate identifiers in the children.
    pub fn with_text(identifier: Identifier, text: Text<'text>, children: Vec<Self>) -> (r:
        std::io::Result<Self>)
        requires
            lawful::<Identifier>(),
            forall|i: int| 0 <= i < children@.len() ==> (#[trigger] children@[i]).wf(),
        ensures
            r is Ok <==> distinct_identifiers(shapes_of(children@)),
            r matches Err(error) ==> says(error, "The children contain duplicate identifiers"@),
            r matches Ok(item) ==> {
                &&& item.wf()
                &&& item.text() == text
                &&& item.shape() == (Shape {
                    identifier: identifier.deep_view(),
                    height: text_height(text),
                    children: shapes_of(children@),
                })
                &&& item.spec_children() == children@
            },
    {
        if !all_different(children.as_slice()) {
            return Err(already_exists("The children contain duplicate identifiers"));
        }
        let item = TreeItem { identifier, text, children };
        proof {
            assert(item.shape().children =~= shapes_of(children@));
            assert forall|i: int| 0 <= i < children@.len() implies unique_siblings(
                (#[trigger] shapes_of(children@)[i]).children,
            ) by {
                assert(children@[i].wf());
            }
        }
        Ok(item)
    }

    /// Create a new `TreeItem` with children.
    ///
    /// # Errors
    ///
    /// Errors when there are duplicate identifiers in the children.
    pub fn new<T: Into<Text<'text>>>(identifier: Identifier, text: T, children: Vec<Self>) -> (r:
        std::io::Result<Self>)
        requires
            lawful::<Identifier>(),
            forall|i: int| 0 <= i < children@.len() ==> (#[trigger] children@[i]).wf(),
        ensures
            r is Ok <==> distinct_identifiers(shapes_of(children@)),
            r matches Err(error) ==> says(error, "The children contain duplicate identifiers"@),
            r matches Ok(item) ==> {
                &&& item.wf()
                &&& call_ensures(T::into, (text,), item.text())
                &&& item.shape() == (Shape {
                    identifier: identifier.deep_view(),
                    height: text_height(item.text()),
                    children: shapes_of(children@),
                })
                &&& item.spec_children() == children@
            },
    {
        Self::with_text(identifier, text.into(), children)
    }

    /// Get a reference to a child by index.
    pub fn child(&self, index: usize) -> (r: Option<&Self>)
        ensures
            match r {
                Some(child) => index < self.spec_children().len() && *child
                    == self.spec_children()[index as int],
                None => index >= self.spec_children().len(),
            },
    {
        if index < self.children.len() {
            Some(&self.children[index])
        } else {
            None
        }
    }

    /// Get a mutable reference to a child by index.
    ///
    /// What the child is changed to takes its place among the children, and
    /// nothing else of the item changes. When you choose to change the
    /// `identifier` of a child the tree state might not work as expected
    /// afterwards, and siblings may come to have the same identifier: the
    /// item is then not well formed any more.
    pub fn child_mut(&mut self, index: usize) -> (r: Option<&mut Self>)
        ensures
            match r {
                Some(child) => {
                    &&& index < old(self).spec_children().len()
                    &&& *child == old(self).spec_children()[index as int]
                    &&& final(self).spec_children() == old(self).spec_children().update(
                        index as int,
                        *final(child),
                    )
                    &&& final(self).text() == old(self).text()
                    &&& final(self).shape().identifier == old(self).shape().identifier
                },
                None => index >= old(self).spec_children().len() && *final(self) == *old(self),
            },
    {
        if index < self.children.len() {
            Some(&mut self.children[index])
        } else {
            None
        }
    }

    /// The index of the first child with the identifier.
    fn child_index(&self, identifier: &Identifier) -> (r: Option<usize>)
        requires
            lawful::<Identifier>(),
        ensures
            match r {
                Some(index) => index < self.spec_children().len() && first_by(
                    self.spec_children(),
                    |item: Self| item.shown().identifier,
                    identifier.deep_view(),
                ) == Some(self.spec_children()[index as int]) && first_at(
                    self.spec_children(),
                    |item: Self| item.shown().identifier,
                    identifier.deep_view(),
                    index as int,
                ),
                None => first_by(
                    self.spec_children(),
                    |item: Self| item.shown().identifier,
                    identifier.deep_view(),
                ) is None,
            },
    {
        let mut i: usize = 0;
        assert(self.children@.skip(0) =~= self.children@);
        while i < self.children.len()
            invariant
                lawful::<Identifier>(),
                i <= self.children@.len(),
                first_by(
                    self.children@,
                    |item: Self| item.shown().identifier,
                    identifier.deep_view(),
                ) == first_by(
                    self.children@.skip(i as int),
                    |item: Self| item.shown().identifier,
                    identifier.deep_view(),
                ),
                forall|j: int|
                    0 <= j < i ==> (#[trigger] self.children@[j]).shown().identifier
                        != identifier.deep_view(),
            decreases self.children@.len() - i,
        {
            proof {
                assert(self.children@.skip(i as int)[0] == self.children@[i as int]);
                assert(self.children@.skip(i as int).drop_first() =~= self.children@.skip(i + 1));
            }
            if same_identifier(&self.children[i].identifier, identifier) {
                return Some(i);
            }
            i += 1;
        }
        None
    }

    /// Add a child to the `TreeItem`.
    ///
    /// # Errors
    ///
    /// Errors when the `identifier` of the `child` already exists in the
    /// children. The item is then left as it was.
    pub fn add_child(&mut self, child: Self) -> (r: std::io::Result<()>)
        requires
            lawful::<Identifier>(),
            old(self).wf(),
            child.wf(),
        ensures
            final(self).wf(),
            r is Err <==> exists|i: int|
                0 <= i < old(self).spec_children().len() && (
                #[trigger] old(self).spec_children()[i]).shape().identifier
                    == child.shape().identifier,
            r matches Err(error) ==> says(error, "identifier already exists in the children"@),
            r is Err ==> *final(self) == *old(self),
            r is Ok ==> {
                &&& final(self).spec_children() == old(self).spec_children().push(child)
                &&& final(self).shape() == Shape {
                    children: old(self).shape().children.push(child.shape()),
                    ..old(self).shape()
                }
                &&& final(self).text() == old(self).text()
            },
    {
        if occurs(self.children.as_slice(), &child) {
            proof {
                let i = choose|i: int|
                    0 <= i < self.children@.len() && (#[trigger] self.children@[i]).shape().identifier
                        == child.shape().identifier;
                assert(self.spec_children()[i].shape().identifier == child.shape().identifier);
            }
            return Err(already_exists("identifier already exists in the children"));
        }
        let ghost before = self.shape().children;
        proof {
            assert(before =~= shapes_of(self.children@));
        }
        self.children.push(child);
        proof {
            let after = self.shape().children;
            assert(after =~= before.push(child.shape()));
            assert forall|i: int, j: int| 0 <= i < j < after.len() implies (
            #[trigger] after[i]).identifier != (#[trigger] after[j]).identifier by {
                if j < before.len() {
                    assert(before[i].identifier != before[j].identifier);
                } else {
                    assert(old(self).spec_children()[i].shape() == before[i]);
                }
            }
            assert forall|i: int| 0 <= i < after.len() implies unique_siblings(
                (#[trigger] after[i]).children,
            ) by {
                if i < before.len() {
                    assert(unique_siblings(before[i].children));
                }
            }
        }
        Ok(())
    }
}

impl<'text, Identifier: Clone + PartialEq + DeepView> Clone for TreeItem<'text, Identifier> {
    /// A copy of the item and of the items below it: each with the same
    /// text and, where copies of identifiers stand for the same, under the
    /// same identifier.
    fn clone(&self) -> (r: Self)
        ensures
            lawful::<Identifier>() ==> r.same_as(*self),
        decreases self,
    {
        let mut children: Vec<Self> = Vec::new();
        let mut i: usize = 0;
        while i < self.children.len()
            invariant
                i <= self.children@.len(),
                children@.len() == i,
                lawful::<Identifier>() ==> forall|k: int|
                    0 <= k < i ==> (#[trigger] children@[k]).same_as(self.children@[k]),
            decreases self.children@.len() - i,
        {
            children.push(self.children[i].clone());
            i += 1;
        }
        let identifier = self.identifier.clone();
        assert(cloned(self.identifier, identifier));
        let r = TreeItem { identifier, text: self.text.clone(), children };
        proof {
            if lawful::<Identifier>() {
                assert(r.shape().children =~= self.shape().children);
            }
        }
        r
    }
}

impl<
    'text,
    Identifier: Clone + PartialEq + DeepView,
> crate::key_value_tree_item::KeyValueTreeItem for TreeItem<'text, Identifier> {
    type Key = Identifier;

    closed spec fn spec_children(&self) -> Seq<(Identifier::V, Self)> {
        self.entries()
    }

    closed spec fn spec_height(&self) -> nat {
        text_height(self.text)
    }

    closed spec fn shapes_below(&self) -> Seq<Shape<Identifier::V>> {
        self.below()
    }

    fn keys_below(&self) -> (r: Vec<Identifier>) {
        let mut keys: Vec<Identifier> = Vec::new();
        let mut i: usize = 0;
        while i < self.children.len()
            invariant
                lawful::<Identifier>(),
                i <= self.children@.len(),
                keys@.len() == i,
                forall|k: int|
                    0 <= k < i ==> (#[trigger] keys@[k]).deep_view()
                        == self.children@[k].identifier.deep_view(),
            decreases self.children@.len() - i,
        {
            keys.push(copy_identifier(&self.children[i].identifier));
            i += 1;
        }
        proof {
            self.lemma_below();
            assert(shown_below(
                self.entries(),
                self.below(),
                |value: Self| value.spec_height(),
                |value: Self| value.shapes_below(),
            )) by {
                assert forall|k: int| 0 <= k < self.entries().len() implies (
                #[trigger] self.below()[k]) == (Shape {
                    identifier: self.entries()[k].0,
                    height: value_at(self.entries(), k).spec_height(),
                    children: value_at(self.entries(), k).shapes_below(),
                }) by {
                    assert(value_at(self.entries(), k).spec_height() == text_height(
                        value_at(self.entries(), k).text,
                    ));
                }
            }
        }
        keys
    }

    fn get_value(&self, key: &Identifier) -> (r: Option<&Self>) {
        proof {
            self.lemma_entries(key.deep_view(), 0);
            assert(self.entries().skip(0) =~= self.entries());
            assert(self.children@.skip(0) =~= self.children@);
        }
        match self.child_index(key) {
            Some(index) => Some(&self.children[index]),
            None => None,
        }
    }

    fn height(&self) -> (r: usize) {
        height_of_text(&self.text)
    }

    closed spec fn spec_render_value(
        &self,
        key: Option<Identifier::V>,
        buffer: Buffer,
        area: Area,
    ) -> Buffer {
        text_rendered(buffer, self.text, area)
    }

    fn render(&self, key: Option<&Identifier>, area: Area, buffer: &mut Buffer)
        ensures
            *final(buffer) == text_rendered(*old(buffer), self.text(), area),
    {
        render_text(&self.text, area, buffer);
    }
}

impl<'text, Identifier: Clone + PartialEq + DeepView> RecursiveSelectMut for TreeItem<
    'text,
    Identifier,
> {
    type Identifier = Identifier;

    open spec fn spec_child_direct_mut(&self, key: Identifier::V) -> Option<Self> {
        first_by(self.spec_children(), |item: Self| item.shown().identifier, key)
    }

    open spec fn spec_child_replaced(&self, key: Identifier::V, child: Self, after: Self) -> bool {
        exists|i: int|
            {
                &&& first_at(self.spec_children(), |item: Self| item.shown().identifier, key, i)
                &&& after.spec_children() == #[trigger] self.spec_children().update(i, child)
                &&& after.text() == self.text()
                &&& after.shown().identifier == self.shown().identifier
            }
    }

    fn child_direct_mut<'root>(&'root mut self, identifier: &Identifier) -> (r: Option<
        &'root mut Self,
    >) {
        match self.child_index(identifier) {
            Some(index) => Some(&mut self.children[index]),
            None => None,
        }
    }
}

impl<'text, Identifier: Clone + PartialEq + DeepView> GenericTreeItem for TreeItem<
    'text,
    Identifier,
> {
    type Identifier = Identifier;

    closed spec fn shape(&self) -> Shape<Identifier::V> {
        self.shown()
    }

    closed spec fn spec_children(&self) -> Seq<Self> {
        self.children@
    }

    fn identifier(&self) -> (r: &Identifier) {
        &self.identifier
    }

    fn children(&self) -> (r: &[Self]) {
        self.children.as_slice()
    }

    fn height(&self) -> (r: usize) {
        height_of_text(&self.text)
    }

    closed spec fn spec_render(&self, buffer: Buffer, area: Area) -> Buffer {
        text_rendered(buffer, self.text, area)
    }

    fn render(&self, area: Area, buffer: &mut Buffer)
        ensures
            *final(buffer) == text_rendered(*old(buffer), self.text(), area),
    {
        render_text(&self.text, area, buffer);
    }
}

} // verus!
