//! A tree widget for terminal user interfaces: flattening of nested items
//! under a set of open paths, the selection and scroll state, and the
//! windowed rendering into a character grid.
//!
//! The data of a tree is whatever offers what [`TreeData`] asks for: a list
//! of items that hold their children, or a JSON value. What of it is open,
//! selected and scrolled to is kept in a [`TreeState`], and a [`Tree`] draws
//! it. What the widget shows of any data is stated over one model, the
//! shapes of [`shape`], for which the order of the nodes and the windowing
//! are proved.

pub mod compose;
pub mod flatten;
pub mod generic_tree_item;
pub mod identifier;
pub mod json;
pub mod key_value_tree_item;
pub mod node;
pub mod open_set;
pub mod prerendered_tree_item;
pub mod recursive_select;
pub mod reflow;
pub mod shape;
pub mod simple_tree_item;
pub mod state;
pub mod surface;
pub mod tree;
pub mod tree_data;
pub mod tree_item;
pub mod tree_state;
pub mod unique_identifiers;
pub mod window;

pub use crate::generic_tree_item::GenericTreeItem;
pub use crate::identifier::{Label, Selector};
pub use crate::key_value_tree_item::KeyValueTreeItem;
pub use crate::node::Node;
pub use crate::open_set::OpenSet;
pub use crate::prerendered_tree_item::PrerenderedTreeItem;
pub use crate::recursive_select::{RecursiveSelect, RecursiveSelectMut};
pub use crate::simple_tree_item::SimpleTreeItem;
pub use crate::state::State;
pub use crate::tree::Tree;
pub use crate::tree_data::{TreeData, TreeDataHeight};
pub use crate::tree_item::TreeItem;
pub use crate::tree_state::TreeState;
