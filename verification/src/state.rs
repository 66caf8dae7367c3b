//! The state of a tree that looks at the items whenever it moves the
//! selection, and remembers nothing of a render.

use vstd::prelude::*;
use crate::flatten::flatten;
use crate::generic_tree_item::{shapes_of, GenericTreeItem};
use crate::identifier::{copy_identifier, copy_path, keys, lawful, same_path};
use crate::node::{node_views, view_paths, Node};
use crate::open_set::{distinct, holds, OpenSet};
use crate::shape::{flattened, lemma_flattened_reachable};
use crate::tree_state::{above, below, find_node, index_above, index_below, index_of, path_at};

verus! {

/// What a [`State`] stands for, with paths by their keys.
#[verifier::ext_equal]
#[verifier::reject_recursive_types(K)]
pub struct StateView<K> {
    /// The index of the first node that is shown.
    pub offset: nat,
    /// The paths whose children are shown.
    pub opened: Set<Seq<K>>,
    /// The selected path; empty where nothing is selected.
    pub selected: Seq<K>,
    /// Whether the next render keeps the selected node in view.
    pub ensure_selected_in_view: bool,
}

/// The state after the path was selected.
pub open spec fn chosen<K>(state: StateView<K>, path: Seq<K>) -> StateView<K> {
    StateView { selected: path, ensure_selected_in_view: true, ..state }
}

/// The open paths after the path was opened: the root, which is the empty
/// path, is never among them.
pub open spec fn opening<K>(opened: Set<Seq<K>>, path: Seq<K>) -> Set<Seq<K>> {
    if path.len() > 0 {
        opened.insert(path)
    } else {
        opened
    }
}

/// The open paths after the path was toggled.
pub open spec fn toggled<K>(opened: Set<Seq<K>>, path: Seq<K>) -> Set<Seq<K>> {
    if opened.contains(path) {
        opened.remove(path)
    } else {
        opening(opened, path)
    }
}

/// The index that a selection is moved to among so many nodes: the one
/// asked for, or the last.
pub open spec fn within(index: usize, count: nat) -> int {
    if count == 0 {
        0
    } else if index < count {
        index as int
    } else {
        count - 1
    }
}

/// Keeps the state of what is currently selected and what was opened in a
/// tree.
#[derive(Debug)]
pub struct State<Identifier> {
    offset: usize,
    opened: OpenSet<Identifier>,
    selected: Vec<Identifier>,
    ensure_selected_in_view_on_next_render: bool,
}

impl<Identifier: Clone + PartialEq + DeepView> View for State<Identifier> {
    type V = StateView<Identifier::V>;

    closed spec fn view(&self) -> StateView<Identifier::V> {
        StateView {
            offset: self.offset as nat,
            opened: self.opened@,
            selected: keys(self.selected@),
            ensure_selected_in_view: self.ensure_selected_in_view_on_next_render,
        }
    }
}

impl<Identifier: Clone + PartialEq + DeepView> Clone for State<Identifier> {
    /// A copy of the state: where copies of identifiers stand for the same,
    /// it stands for the same state.
    fn clone(&self) -> (r: Self)
        ensures
            lawful::<Identifier>() ==> r@ == self@ && (self.wf() ==> r.wf()),
    {
        let r = State {
            offset: self.offset,
            opened: self.opened.clone(),
            selected: self.selected.clone(),
            ensure_selected_in_view_on_next_render: self.ensure_selected_in_view_on_next_render,
        };
        proof {
            if lawful::<Identifier>() {
                assert(keys(r.selected@) =~= keys(self.selected@));
            }
        }
        r
    }
}

impl<Identifier: Clone + PartialEq + DeepView> Default for State<Identifier> {
    fn default() -> (r: Self)
        ensures
            r.wf(),
            r@ == (StateView::<Identifier::V> {
                offset: 0,
                opened: Set::empty(),
                selected: Seq::empty(),
                ensure_selected_in_view: false,
            }),
    {
        State {
            offset: 0,
            opened: OpenSet::new(),
            selected: Vec::new(),
            ensure_selected_in_view_on_next_render: false,
        }
    }
}

impl<Identifier: Clone + PartialEq + DeepView> State<Identifier> {
    /// Whether the state is well formed: the root, which is the empty path,
    /// is not among the open paths. Every function that makes or changes a
    /// state keeps it so.
    pub closed spec fn wf(&self) -> bool {
        &&& self.opened.wf()
        &&& !self.opened@.contains(Seq::empty())
    }

    /// The visible nodes of the items with this state.
    pub open spec fn visible<Item: GenericTreeItem<Identifier = Identifier>>(
        &self,
        items: Seq<Item>,
    ) -> Seq<Seq<Identifier::V>> {
        view_paths(flattened(self@.opened, shapes_of(items), Seq::empty()))
    }

    pub fn get_offset(&self) -> (r: usize)
        ensures
            r == self@.offset,
    {
        self.offset
    }

    /// The open paths, each once, in no particular order.
    pub fn get_all_opened(&self) -> (r: Vec<Vec<Identifier>>)
        requires
            lawful::<Identifier>(),
            self.wf(),
        ensures
            distinct(r@),
            forall|path: Seq<Identifier::V>| self@.opened.contains(path) <==> holds(r@, path),
    {
        self.opened.to_vec()
    }

    /// Get a flat list of all visible (= below open) nodes of the items
    /// with this state.
    pub fn flatten<Item: GenericTreeItem<Identifier = Identifier>>(&self, items: &[Item]) -> (r:
        Vec<Node<Identifier>>)
        requires
            lawful::<Identifier>(),
            self.wf(),
        ensures
            node_views(r@) == flattened(self@.opened, shapes_of(items@), Seq::empty()),
    {
        let current: Vec<Identifier> = Vec::new();
        assert(keys(current@) =~= Seq::empty());
        flatten(&self.opened, items, current.as_slice())
    }

    /// A copy of the selected path; empty where nothing is selected.
    pub fn selected(&self) -> (r: Vec<Identifier>)
        requires
            lawful::<Identifier>(),
        ensures
            keys(r@) == self@.selected,
    {
        copy_path(self.selected.as_slice())
    }

    /// Selects the given identifier.
    ///
    /// Returns `true` when the selection changed.
    ///
    /// Clear the selection by passing an empty identifier vector.
    pub fn select(&mut self, identifier: Vec<Identifier>) -> (r: bool)
        requires
            lawful::<Identifier>(),
            old(self).wf(),
        ensures
            final(self).wf(),
            final(self)@ == chosen(old(self)@, keys(identifier@)),
            r == (old(self)@.selected != keys(identifier@)),
    {
        let changed = !same_path(self.selected.as_slice(), identifier.as_slice());
        self.selected = identifier;
        self.ensure_selected_in_view_on_next_render = true;
        changed
    }

    /// Open a tree node.
    /// Returns `true` if the node was closed and has been opened.
    /// Returns `false` if the node was already open, and for the empty
    /// path: the root is always open.
    pub fn open(&mut self, identifier: Vec<Identifier>) -> (r: bool)
        requires
            lawful::<Identifier>(),
            old(self).wf(),
        ensures
            final(self).wf(),
            r == (identifier@.len() > 0 && !old(self)@.opened.contains(keys(identifier@))),
            final(self)@ == (StateView {
                opened: opening(old(self)@.opened, keys(identifier@)),
                ..old(self)@
            }),
    {
        if identifier.len() == 0 {
            assert(keys(identifier@).len() == 0);
            false
        } else {
            assert(keys(identifier@).len() > 0);
            self.opened.insert(identifier)
        }
    }

    /// Close a tree node.
    /// Returns `true` if the node was open and has been closed.
    /// Returns `false` if the node was already closed.
    pub fn close(&mut self, identifier: &[Identifier]) -> (r: bool)
        requires
            lawful::<Identifier>(),
            old(self).wf(),
        ensures
            final(self).wf(),
            r == old(self)@.opened.contains(keys(identifier@)),
            final(self)@ == (StateView {
                opened: old(self)@.opened.remove(keys(identifier@)),
                ..old(self)@
            }),
    {
        self.opened.remove(identifier)
    }

    /// Toggles a tree node.
    /// If the node is open then it is closed. Otherwise it is opened.
    pub fn toggle(&mut self, identifier: Vec<Identifier>)
        requires
            lawful::<Identifier>(),
            old(self).wf(),
        ensures
            final(self).wf(),
            final(self)@ == (StateView {
                opened: toggled(old(self)@.opened, keys(identifier@)),
                ..old(self)@
            }),
    {
        if self.opened.contains(identifier.as_slice()) {
            self.close(identifier.as_slice());
        } else {
            self.open(identifier);
        }
    }

    /// Toggles the currently selected tree node.
    pub fn toggle_selected(&mut self)
        requires
            lawful::<Identifier>(),
            old(self).wf(),
        ensures
            final(self).wf(),
            final(self)@ == (StateView {
                opened: toggled(old(self)@.opened, old(self)@.selected),
                ensure_selected_in_view: true,
                ..old(self)@
            }),
    {
        let selected = self.selected();
        self.toggle(selected);
        self.ensure_selected_in_view_on_next_render = true;
    }

    /// Closes all open nodes.
    pub fn close_all(&mut self)
        requires
            old(self).wf(),
        ensures
            final(self).wf(),
            final(self)@ == (StateView { opened: Set::empty(), ..old(self)@ }),
    {
        self.opened.clear();
    }

    /// Select the first node.
    ///
    /// Returns `true` when the selection changed.
    pub fn select_first<Item: GenericTreeItem<Identifier = Identifier>>(
        &mut self,
        items: &[Item],
    ) -> (r: bool)
        requires
            lawful::<Identifier>(),
            old(self).wf(),
        ensures
            final(self).wf(),
            final(self)@ == chosen(old(self)@, path_at(old(self).visible(items@), 0)),
            r == (old(self)@.selected != path_at(old(self).visible(items@), 0)),
    {
        let mut identifier: Vec<Identifier> = Vec::new();
        proof {
            lemma_flattened_reachable(
                self@.opened,
                shapes_of(items@),
                Seq::empty(),
            );
            assert(keys(identifier@) =~= Seq::empty());
        }
        if items.len() > 0 {
            identifier.push(copy_identifier(items[0].identifier()));
            assert(keys(identifier@) =~= Seq::<Identifier::V>::empty().push(
                items@[0].shape().identifier,
            ));
            assert(shapes_of(items@)[0] == items@[0].shape());
        }
        self.select(identifier)
    }

    /// A copy of the path of the node at the index; the empty path where
    /// there is none.
    fn identifier_at(nodes: &Vec<Node<Identifier>>, index: usize) -> (r: Vec<Identifier>)
        requires
            lawful::<Identifier>(),
        ensures
            keys(r@) == path_at(view_paths(node_views(nodes@)), index as int),
    {
        if index < nodes.len() {
            copy_path(nodes[index].identifier.as_slice())
        } else {
            let r: Vec<Identifier> = Vec::new();
            assert(keys(r@) =~= Seq::empty());
            r
        }
    }

    /// Select the last visible node.
    ///
    /// Returns `true` when the selection changed.
    pub fn select_last<Item: GenericTreeItem<Identifier = Identifier>>(
        &mut self,
        items: &[Item],
    ) -> (r: bool)
        requires
            lawful::<Identifier>(),
            old(self).wf(),
        ensures
            final(self).wf(),
            final(self)@ == chosen(
                old(self)@,
                path_at(old(self).visible(items@), old(self).visible(items@).len() - 1),
            ),
            r == (old(self)@.selected != path_at(
                old(self).visible(items@),
                old(self).visible(items@).len() - 1,
            )),
    {
        let visible = self.flatten(items);
        let new_identifier = if visible.len() > 0 {
            Self::identifier_at(&visible, visible.len() - 1)
        } else {
            let empty: Vec<Identifier> = Vec::new();
            assert(keys(empty@) =~= Seq::empty());
            empty
        };
        self.select(new_identifier)
    }

    /// Select the node visible on the given index, or the last one where
    /// there are not as many.
    ///
    /// Returns `true` when the selection changed.
    ///
    /// This can be useful for mouse clicks.
    pub fn select_visible_index<Item: GenericTreeItem<Identifier = Identifier>>(
        &mut self,
        items: &[Item],
        new_index: usize,
    ) -> (r: bool)
        requires
            lawful::<Identifier>(),
            old(self).wf(),
        ensures
            final(self).wf(),
            final(self)@ == chosen(
                old(self)@,
                path_at(
                    old(self).visible(items@),
                    within(new_index, old(self).visible(items@).len()),
                ),
            ),
            r == (old(self)@.selected != path_at(
                old(self).visible(items@),
                within(new_index, old(self).visible(items@).len()),
            )),
    {
        let visible = self.flatten(items);
        let last = visible.len().saturating_sub(1);
        let new_index = if new_index < last {
            new_index
        } else {
            last
        };
        let new_identifier = Self::identifier_at(&visible, new_index);
        self.select(new_identifier)
    }

    /// Move the current selection with the direction/amount by the given
    /// function.
    ///
    /// The function gets the place of the selected node among the visible
    /// nodes, if it is there, and gives the place to select.
    ///
    /// Returns `true` when the selection changed.
    pub fn select_visible_relative<
        Item: GenericTreeItem<Identifier = Identifier>,
        F: FnOnce(Option<usize>) -> usize,
    >(&mut self, items: &[Item], change_function: F) -> (r: bool)
        requires
            lawful::<Identifier>(),
            old(self).wf(),
            call_requires(
                change_function,
                (index_of(old(self).visible(items@), old(self)@.selected),),
            ),
        ensures
            final(self).wf(),
            exists|new_index: usize|
                {
                    &&& call_ensures(
                        change_function,
                        (index_of(old(self).visible(items@), old(self)@.selected),),
                        new_index,
                    )
                    &&& final(self)@ == chosen(
                        old(self)@,
                        path_at(
                            old(self).visible(items@),
                            within(new_index, old(self).visible(items@).len()),
                        ),
                    )
                    &&& r == (old(self)@.selected != path_at(
                        old(self).visible(items@),
                        within(new_index, old(self).visible(items@).len()),
                    ))
                },
    {
        let visible = self.flatten(items);
        let ghost paths = self.visible(items@);
        assert(paths == view_paths(node_views(visible@)));
        let current_index = find_node(&visible, self.selected.as_slice());
        let asked = change_function(current_index);
        let last = visible.len().saturating_sub(1);
        let new_index = if asked < last {
            asked
        } else {
            last
        };
        assert(new_index == within(asked, paths.len()));
        let new_identifier = Self::identifier_at(&visible, new_index);
        let r = self.select(new_identifier);
        assert(call_ensures(change_function, (index_of(paths, old(self)@.selected),), asked));
        assert(self@ == chosen(old(self)@, path_at(paths, within(asked, paths.len()))));
        r
    }

    /// Ensure the selected node is visible on next render
    pub fn scroll_selected_into_view(&mut self)
        requires
            old(self).wf(),
        ensures
            final(self).wf(),
            final(self)@ == (StateView { ensure_selected_in_view: true, ..old(self)@ }),
    {
        self.ensure_selected_in_view_on_next_render = true;
    }

    /// Scroll the specified amount of lines up
    pub fn scroll_up(&mut self, lines: usize)
        requires
            old(self).wf(),
        ensures
            final(self).wf(),
            final(self)@ == (StateView {
                offset: if old(self)@.offset >= lines {
                    (old(self)@.offset - lines) as nat
                } else {
                    0
                },
                ..old(self)@
            }),
    {
        self.offset = self.offset.saturating_sub(lines);
    }

    /// Scroll the specified amount of lines down
    pub fn scroll_down(&mut self, lines: usize)
        requires
            old(self).wf(),
        ensures
            final(self).wf(),
            final(self)@ == (StateView {
                offset: if old(self)@.offset + lines <= usize::MAX {
                    (old(self)@.offset + lines) as nat
                } else {
                    usize::MAX as nat
                },
                ..old(self)@
            }),
    {
        self.offset = self.offset.saturating_add(lines);
    }

    /// Handles the up arrow key.
    /// Moves up in the current depth or to its parent.
    pub fn key_up<Item: GenericTreeItem<Identifier = Identifier>>(&mut self, items: &[Item])
        requires
            lawful::<Identifier>(),
            old(self).wf(),
        ensures
            final(self).wf(),
            final(self)@ == chosen(
                old(self)@,
                path_at(
                    old(self).visible(items@),
                    within(
                        above(index_of(old(self).visible(items@), old(self)@.selected)),
                        old(self).visible(items@).len(),
                    ),
                ),
            ),
    {
        self.select_visible_relative(items, index_above);
    }

    /// Handles the down arrow key.
    /// Moves down in the current depth or into a child node.
    pub fn key_down<Item: GenericTreeItem<Identifier = Identifier>>(&mut self, items: &[Item])
        requires
            lawful::<Identifier>(),
            old(self).wf(),
        ensures
            final(self).wf(),
            final(self)@ == chosen(
                old(self)@,
                path_at(
                    old(self).visible(items@),
                    within(
                        below(index_of(old(self).visible(items@), old(self)@.selected)),
                        old(self).visible(items@).len(),
                    ),
                ),
            ),
    {
        self.select_visible_relative(items, index_below);
    }

    /// Handles the left arrow key.
    /// Closes the currently selected or moves to its parent.
    pub fn key_left(&mut self)
        requires
            lawful::<Identifier>(),
            old(self).wf(),
        ensures
            final(self).wf(),
            final(self)@ == if old(self)@.opened.contains(old(self)@.selected) {
                StateView {
                    ensure_selected_in_view: true,
                    opened: old(self)@.opened.remove(old(self)@.selected),
                    ..old(self)@
                }
            } else if old(self)@.selected.len() > 0 {
                StateView {
                    ensure_selected_in_view: true,
                    selected: old(self)@.selected.drop_last(),
                    ..old(self)@
                }
            } else {
                StateView { ensure_selected_in_view: true, ..old(self)@ }
            },
    {
        // Reimplement self.close because of multiple different borrows
        let changed = self.opened.remove(self.selected.as_slice());
        if !changed {
            proof {
                assert(self.opened@ =~= old(self).opened@);
            }
            // Select the parent by removing the leaf from selection
            let popped = self.selected.pop();
            proof {
                if popped.is_some() {
                    assert(keys(self.selected@) =~= keys(old(self).selected@).drop_last());
                } else {
                    assert(keys(self.selected@) =~= keys(old(self).selected@));
                }
            }
        }
        self.ensure_selected_in_view_on_next_render = true;
    }

    /// Handles the right arrow key.
    /// Opens the currently selected.
    pub fn key_right(&mut self)
        requires
            lawful::<Identifier>(),
            old(self).wf(),
        ensures
            final(self).wf(),
            final(self)@ == (StateView {
                ensure_selected_in_view: true,
                opened: opening(old(self)@.opened, old(self)@.selected),
                ..old(self)@
            }),
    {
        let selected = self.selected();
        self.open(selected);
        self.ensure_selected_in_view_on_next_render = true;
    }
}

} // verus!
