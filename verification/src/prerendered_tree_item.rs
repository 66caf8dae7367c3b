//! Items whose text is rendered with all its styles before the item is
//! made.
//!
//! The cost of such an item lies in its creation: of many items not all end
//! up being shown, so some texts are made in vain. Items that make what they
//! show when they are drawn, like the ones for JSON, avoid that.

use vstd::prelude::*;
use crate::tree_item::TreeItem;

verus! {

/// One item inside a tree, with a text that is made before the item.
pub type PrerenderedTreeItem<'text, Identifier> = TreeItem<'text, Identifier>;

} // verus!
