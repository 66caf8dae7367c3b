//! Items that show a single line, which is their identifier too.
//!
//! The identifier of such an item is a [`Label`] with the text of the item.

use vstd::prelude::*;
use ratatui::buffer::Buffer;
use ratatui::style::Style;
use crate::generic_tree_item::{shapes_of, GenericTreeItem};
use crate::identifier::{lawful, Label};
use crate::shape::{distinct_identifiers, unique_siblings, Shape};
use crate::surface::{is_plain, plain_style, render_styled, styled_rendered, Area};
use crate::unique_identifiers::{all_different, already_exists, says};

verus! {

/// Represents a very simple tree item.
///
/// It assumes the text to be shown is only a single line element and each
/// text is different among its siblings.
#[derive(Debug)]
pub struct SimpleTreeItem<'text> {
    text: &'text str,
    identifier: Label,
    style: Style,
    children: Vec<SimpleTreeItem<'text>>,
}

impl<'text> SimpleTreeItem<'text> {
    /// What the widget shows of the item.
    pub closed spec fn shown(&self) -> Shape<Seq<char>>
        decreases self,
    {
        Shape {
            identifier: self.identifier.deep_view(),
            height: 1,
            children: Seq::new(
                self.children@.len(),
                |i: int|
                    if 0 <= i < self.children@.len() {
                        self.children@[i].shown()
                    } else {
                        arbitrary()
                    },
            ),
        }
    }

    /// The style that the text is shown in.
    pub closed spec fn spec_style(&self) -> Style {
        self.style
    }

    /// The text that is shown.
    pub closed spec fn spec_text(&self) -> Seq<char> {
        self.text@
    }

    /// Whether the two items show the same: the same text in the same
    /// style, over children that show the same, one for one.
    pub open spec fn same_as(self, other: Self) -> bool
        decreases self,
    {
        &&& self.spec_text() == other.spec_text()
        &&& self.spec_style() == other.spec_style()
        &&& self.shape() == other.shape()
        &&& self.spec_children().len() == other.spec_children().len()
        &&& forall|i: int|
            0 <= i < self.spec_children().len() ==> (#[trigger] self.spec_children()[i]).same_as(
                other.spec_children()[i],
            )
    }

    /// Whether siblings have different texts everywhere below the item.
    /// Every function that makes an item keeps it so.
    pub open spec fn wf(&self) -> bool {
        unique_siblings(self.shape().children)
    }

    /// Create a new `SimpleTreeItem` without children.
    pub fn new_leaf(text: &'text str) -> (r: Self)
        ensures
            r.wf(),
            r.spec_text() == text@,
            is_plain(r.spec_style()),
            r.shape() == (Shape { identifier: text@, height: 1, children: Seq::empty() }),
            r.spec_children() == Seq::<Self>::empty(),
    {
        let r = SimpleTreeItem {
            text,
            identifier: Label::new(text),
            style: plain_style(),
            children: Vec::new(),
        };
        assert(r.shown().children =~= Seq::empty());
        r
    }

    /// Create a new `SimpleTreeItem` with children.
    ///
    /// # Errors
    ///
    /// Errors when there are duplicate identifiers in the children.
    pub fn new(text: &'text str, children: Vec<Self>) -> (r: std::io::Result<Self>)
        requires
            lawful::<Label>(),
            forall|i: int| 0 <= i < children@.len() ==> (#[trigger] children@[i]).wf(),
        ensures
            r is Ok <==> distinct_identifiers(shapes_of(children@)),
            r matches Err(error) ==> says(error, "The children contain duplicate identifiers"@),
            r matches Ok(item) ==> {
                &&& item.wf()
                &&& item.spec_text() == text@
                &&& is_plain(item.spec_style())
                &&& item.shape() == (Shape {
                    identifier: text@,
                    height: 1,
                    children: shapes_of(children@),
                })
                &&& item.spec_children() == children@
            },
    {
        if !all_different(children.as_slice()) {
            return Err(already_exists("The children contain duplicate identifiers"));
        }
        let item = SimpleTreeItem { text, identifier: Label::new(text), style: plain_style(), children };
        proof {
            assert(item.shown().children =~= shapes_of(children@));
            assert forall|i: int| 0 <= i < children@.len() implies unique_siblings(
                (#[trigger] shapes_of(children@)[i]).children,
            ) by {
                assert(children@[i].wf());
            }
        }
        Ok(item)
    }

    /// The style that the text is shown in.
    pub fn style(&self) -> (r: Style)
        ensures
            r == self.spec_style(),
    {
        self.style
    }

    /// The item with its text shown in the style.
    pub fn set_style(self, style: Style) -> (r: Self)
        ensures
            r.spec_style() == style,
            r.spec_text() == self.spec_text(),
            r.shape() == self.shape(),
            r.spec_children() == self.spec_children(),
    {
        let r = SimpleTreeItem {
            text: self.text,
            identifier: self.identifier,
            style,
            children: self.children,
        };
        assert(r.shown().children =~= self.shown().children);
        r
    }
}

impl<'text> Clone for SimpleTreeItem<'text> {
    /// A copy of the item and of the items below it: each with the same
    /// text and the same style.
    fn clone(&self) -> (r: Self)
        ensures
            r.same_as(*self),
        decreases self,
    {
        let mut children: Vec<Self> = Vec::new();
        let mut i: usize = 0;
        while i < self.children.len()
            invariant
                i <= self.children@.len(),
                children@.len() == i,
                forall|k: int| 0 <= k < i ==> (#[trigger] children@[k]).same_as(self.children@[k]),
            decreases self.children@.len() - i,
        {
            children.push(self.children[i].clone());
            i += 1;
        }
        let r = SimpleTreeItem {
            text: self.text,
            identifier: self.identifier.clone(),
            style: self.style,
            children,
        };
        proof {
            assert(r.shown().children =~= self.shown().children);
        }
        r
    }
}

impl<'text> GenericTreeItem for SimpleTreeItem<'text> {
    type Identifier = Label;

    closed spec fn shape(&self) -> Shape<Seq<char>> {
        self.shown()
    }

    closed spec fn spec_children(&self) -> Seq<Self> {
        self.children@
    }

    fn identifier(&self) -> (r: &Label) {
        &self.identifier
    }

    fn children(&self) -> (r: &[Self]) {
        self.children.as_slice()
    }

    fn height(&self) -> (r: usize) {
        1
    }

    closed spec fn spec_render(&self, buffer: Buffer, area: Area) -> Buffer {
        styled_rendered(buffer, self.text@, self.style, area)
    }

    fn render(&self, area: Area, buffer: &mut Buffer)
        ensures
            *final(buffer) == styled_rendered(
                *old(buffer),
                self.spec_text(),
                self.spec_style(),
                area,
            ),
    {
        render_styled(self.text, self.style, area, buffer);
    }
}

} // verus!
