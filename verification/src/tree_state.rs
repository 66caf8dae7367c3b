//! The state of a tree: what is selected, what is open, how far it is
//! scrolled, and what the last render showed.

use vstd::prelude::*;
use crate::generic_tree_item::{shapes_of, GenericTreeItem};
use crate::flatten::flatten;
use crate::identifier::{copy_path, keys, lawful, same_path};
use crate::node::{node_views, view_paths, Node};
use crate::open_set::{distinct, holds, OpenSet};
use crate::shape::flattened;
use crate::surface::{Area, Position};

verus! {

/// What a [`TreeState`] stands for, with paths by their keys.
#[verifier::ext_equal]
#[verifier::reject_recursive_types(K)]
pub struct TreeStateView<K> {
    /// The index of the first node that is shown.
    pub offset: nat,
    /// The paths whose children are shown.
    pub opened: Set<Seq<K>>,
    /// The selected path; empty where nothing is selected.
    pub selected: Seq<K>,
    /// Whether the next render keeps the selected node in view.
    pub ensure_selected_in_view: bool,
    /// The area that the last render drew the nodes in.
    pub last_area: Area,
    /// The index of the last node at the last render.
    pub last_biggest_index: nat,
    /// The paths of all nodes of the last render that showed a node.
    pub last_identifiers: Seq<Seq<K>>,
    /// The paths of the nodes that the last render drew, each with its
    /// first row and the number of its rows.
    pub last_rendered_identifiers: Seq<(u16, u16, Seq<K>)>,
}

/// The paths of a list by keys, in order.
pub open spec fn paths_view<Identifier: DeepView>(paths: Seq<Vec<Identifier>>) -> Seq<
    Seq<Identifier::V>,
> {
    Seq::new(paths.len(), |i: int| keys(paths[i]@))
}

/// The rows and paths of a list by keys, in order.
pub open spec fn rendered_view<Identifier: DeepView>(
    rendered: Seq<(u16, u16, Vec<Identifier>)>,
) -> Seq<(u16, u16, Seq<Identifier::V>)> {
    Seq::new(rendered.len(), |i: int| (rendered[i].0, rendered[i].1, keys(rendered[i].2@)))
}

/// Whether `index` is the first place of the path in the list.
pub open spec fn is_first_index<K>(paths: Seq<Seq<K>>, path: Seq<K>, index: int) -> bool {
    &&& 0 <= index < paths.len()
    &&& paths[index] == path
    &&& forall|j: int| 0 <= j < index ==> paths[j] != path
}

/// The first place of the path in the list.
pub open spec fn index_of<K>(paths: Seq<Seq<K>>, path: Seq<K>) -> Option<usize> {
    if exists|index: int| is_first_index(paths, path, index) {
        Some((choose|index: int| is_first_index(paths, path, index)) as usize)
    } else {
        None
    }
}

/// The path at the index; the empty path where the list is shorter.
pub open spec fn path_at<K>(paths: Seq<Seq<K>>, index: int) -> Seq<K> {
    if 0 <= index < paths.len() {
        paths[index]
    } else {
        Seq::empty()
    }
}

/// The state after the path was selected.
pub open spec fn selecting<K>(state: TreeStateView<K>, path: Seq<K>) -> TreeStateView<K> {
    TreeStateView { selected: path, ensure_selected_in_view: true, ..state }
}

/// The state after the open set was changed.
pub open spec fn with_opened<K>(state: TreeStateView<K>, opened: Set<Seq<K>>) -> TreeStateView<K> {
    TreeStateView { opened, ..state }
}

/// The state after the path was toggled: closed where it was open, opened
/// where it was not. The empty path stays as it is.
pub open spec fn toggling<K>(state: TreeStateView<K>, path: Seq<K>) -> TreeStateView<K> {
    if path.len() == 0 {
        state
    } else if state.opened.contains(path) {
        with_opened(state, state.opened.remove(path))
    } else {
        with_opened(state, state.opened.insert(path))
    }
}

/// The index that a selection is moved to: the one asked for, held within
/// the indexes of the last render.
pub open spec fn held(index: usize, last_biggest_index: nat) -> int {
    if index <= last_biggest_index {
        index as int
    } else {
        last_biggest_index as int
    }
}

/// The index above the current one; the last of all where there is none.
pub open spec fn above(current: Option<usize>) -> usize {
    match current {
        Some(index) => if index == 0 {
            0
        } else {
            (index - 1) as usize
        },
        None => usize::MAX,
    }
}

/// The index below the current one; the first where there is none.
pub open spec fn below(current: Option<usize>) -> usize {
    match current {
        Some(index) => if index == usize::MAX {
            usize::MAX
        } else {
            (index + 1) as usize
        },
        None => 0,
    }
}

/// The index above the current one. When nothing is selected, falls back to
/// the end.
pub fn index_above(current: Option<usize>) -> (r: usize)
    ensures
        r == above(current),
{
    match current {
        Some(index) => index.saturating_sub(1),
        None => usize::MAX,
    }
}

/// The index below the current one. When nothing is selected, falls back to
/// the start.
pub fn index_below(current: Option<usize>) -> (r: usize)
    ensures
        r == below(current),
{
    match current {
        Some(index) => index.saturating_add(1),
        None => 0,
    }
}

/// Whether the row is one of the rows of a drawn node, which begins in the
/// row `first` and takes `height` rows.
pub open spec fn covers(first: u16, height: u16, y: u16) -> bool {
    first <= y < first + height
}

/// The path drawn at the row: that of the drawn node that the row is a row
/// of. A row below the last drawn node is the row of none.
pub open spec fn hit<K>(rendered: Seq<(u16, u16, Seq<K>)>, y: u16) -> Option<Seq<K>>
    decreases rendered.len(),
{
    if rendered.len() == 0 {
        None
    } else if covers(rendered.last().0, rendered.last().1, y) {
        Some(rendered.last().2)
    } else {
        hit(rendered.drop_last(), y)
    }
}

/// The path that the last render drew at the position.
pub open spec fn rendered_path<K>(state: TreeStateView<K>, position: Position) -> Option<Seq<K>> {
    if state.last_area.spec_contains(position) {
        hit(state.last_rendered_identifiers, position.y)
    } else {
        None
    }
}

/// The state after a click at the position: a click on the selected node
/// toggles it, a click on another node selects that one, a click on no node
/// changes nothing.
pub open spec fn clicking<K>(state: TreeStateView<K>, position: Position) -> TreeStateView<K> {
    match rendered_path(state, position) {
        Some(path) => if path == state.selected {
            if path.len() == 0 {
                state
            } else {
                toggling(TreeStateView { ensure_selected_in_view: true, ..state }, path)
            }
        } else {
            selecting(state, path)
        },
        None => state,
    }
}

/// The first place of the path in the list.
pub fn find_path<Identifier: Clone + PartialEq + DeepView>(
    paths: &Vec<Vec<Identifier>>,
    path: &[Identifier],
) -> (r: Option<usize>)
    requires
        lawful::<Identifier>(),
    ensures
        r == index_of(paths_view(paths@), keys(path@)),
{
    let ghost all = paths_view(paths@);
    let mut i: usize = 0;
    while i < paths.len()
        invariant
            lawful::<Identifier>(),
            all == paths_view(paths@),
            i <= paths@.len(),
            forall|j: int| 0 <= j < i ==> all[j] != keys(path@),
        decreases paths@.len() - i,
    {
        if same_path(paths[i].as_slice(), path) {
            proof {
                assert(all[i as int] == keys(path@));
                assert(is_first_index(all, keys(path@), i as int));
                let chosen = choose|index: int| is_first_index(all, keys(path@), index);
                assert(chosen == i) by {
                    if chosen < i {
                        assert(all[chosen] != keys(path@));
                    }
                    if i < chosen {
                        assert(all[i as int] != keys(path@));
                    }
                }
            }
            return Some(i);
        }
        i += 1;
    }
    None
}

/// The first place of the path among the nodes.
pub fn find_node<Identifier: Clone + PartialEq + DeepView>(
    nodes: &Vec<Node<Identifier>>,
    path: &[Identifier],
) -> (r: Option<usize>)
    requires
        lawful::<Identifier>(),
    ensures
        r == index_of(view_paths(node_views(nodes@)), keys(path@)),
        r matches Some(index) ==> index < nodes@.len(),
{
    let ghost all = view_paths(node_views(nodes@));
    let mut i: usize = 0;
    while i < nodes.len()
        invariant
            lawful::<Identifier>(),
            all == view_paths(node_views(nodes@)),
            i <= nodes@.len(),
            forall|j: int| 0 <= j < i ==> all[j] != keys(path@),
        decreases nodes@.len() - i,
    {
        if same_path(nodes[i].identifier.as_slice(), path) {
            proof {
                assert(all[i as int] == keys(path@));
                assert(is_first_index(all, keys(path@), i as int));
                let chosen = choose|index: int| is_first_index(all, keys(path@), index);
                assert(chosen == i) by {
                    if chosen < i {
                        assert(all[chosen] != keys(path@));
                    }
                    if i < chosen {
                        assert(all[i as int] != keys(path@));
                    }
                }
            }
            return Some(i);
        }
        i += 1;
    }
    None
}

/// Keeps the state of what is currently selected and what was opened in a
/// tree.
///
/// The `Identifier` is the one of the items of the tree. The state holds
/// paths of identifiers and does not look at the data: a path may be
/// selected or open that leads to no item.
#[derive(Debug)]
pub struct TreeState<Identifier> {
    offset: usize,
    opened: OpenSet<Identifier>,
    selected: Vec<Identifier>,
    ensure_selected_in_view_on_next_render: bool,
    last_area: Area,
    last_biggest_index: usize,
    /// All identifiers open on last render
    last_identifiers: Vec<Vec<Identifier>>,
    /// Identifier rendered at `y` with its height on last render
    last_rendered_identifiers: Vec<(u16, u16, Vec<Identifier>)>,
}

impl<Identifier: Clone + PartialEq + DeepView> View for TreeState<Identifier> {
    type V = TreeStateView<Identifier::V>;

    closed spec fn view(&self) -> TreeStateView<Identifier::V> {
        TreeStateView {
            offset: self.offset as nat,
            opened: self.opened@,
            selected: keys(self.selected@),
            ensure_selected_in_view: self.ensure_selected_in_view_on_next_render,
            last_area: self.last_area,
            last_biggest_index: self.last_biggest_index as nat,
            last_identifiers: paths_view(self.last_identifiers@),
            last_rendered_identifiers: rendered_view(self.last_rendered_identifiers@),
        }
    }
}

impl<Identifier: Clone + PartialEq + DeepView> Default for TreeState<Identifier> {
    fn default() -> (r: Self)
        ensures
            r.wf(),
            r@ == (TreeStateView::<Identifier::V> {
                offset: 0,
                opened: Set::empty(),
                selected: Seq::empty(),
                ensure_selected_in_view: false,
                last_area: Area { x: 0, y: 0, width: 0, height: 0 },
                last_biggest_index: 0,
                last_identifiers: Seq::empty(),
                last_rendered_identifiers: Seq::empty(),
            }),
    {
        let r = TreeState {
            offset: 0,
            opened: OpenSet::new(),
            selected: Vec::new(),
            ensure_selected_in_view_on_next_render: false,
            last_area: Area::zero(),
            last_biggest_index: 0,
            last_identifiers: Vec::new(),
            last_rendered_identifiers: Vec::new(),
        };
        r
    }
}

impl<Identifier: Clone + PartialEq + DeepView> TreeState<Identifier> {
    /// Whether the state is well formed: the root, which is the empty path,
    /// is not among the open paths. Every function that makes or changes a
    /// state keeps it so.
    pub closed spec fn wf(&self) -> bool {
        &&& self.opened.wf()
        &&& !self.opened@.contains(Seq::empty())
    }

    /// The place of the selected path among the paths of the last render.
    pub open spec fn selected_index(&self) -> Option<usize> {
        index_of(self@.last_identifiers, self@.selected)
    }

    /// In a well formed state the root is not open.
    pub proof fn lemma_root_not_open(self)
        requires
            self.wf(),
        ensures
            !self@.opened.contains(Seq::empty()),
    {
    }

    /// Begins the notes of a render into the area: nothing is drawn yet.
    pub(crate) fn begin_render(&mut self, area: Area)
        requires
            old(self).wf(),
        ensures
            final(self).wf(),
            final(self)@ == (TreeStateView {
                last_area: area,
                last_rendered_identifiers: Seq::empty(),
                ..old(self)@
            }),
    {
        self.last_area = area;
        self.last_rendered_identifiers.clear();
        assert(rendered_view(self.last_rendered_identifiers@) =~= Seq::empty());
    }

    /// Notes the index of the last node of a render.
    pub(crate) fn note_biggest_index(&mut self, index: usize)
        requires
            old(self).wf(),
        ensures
            final(self).wf(),
            final(self)@ == (TreeStateView { last_biggest_index: index as nat, ..old(self)@ }),
    {
        self.last_biggest_index = index;
    }

    /// Whether the next render keeps the selected node in view.
    pub(crate) fn keeps_selected_in_view(&self) -> (r: bool)
        ensures
            r == self@.ensure_selected_in_view,
    {
        self.ensure_selected_in_view_on_next_render
    }

    /// Scrolls to where a render begins to draw, which has kept the
    /// selected node in view where that was asked for.
    pub(crate) fn scroll_to(&mut self, offset: usize)
        requires
            old(self).wf(),
        ensures
            final(self).wf(),
            final(self)@ == (TreeStateView {
                offset: offset as nat,
                ensure_selected_in_view: false,
                ..old(self)@
            }),
    {
        self.offset = offset;
        self.ensure_selected_in_view_on_next_render = false;
    }

    /// Notes a node that a render drew, with the row that it begins in and
    /// the number of its rows.
    pub(crate) fn note_drawn(&mut self, y: u16, height: u16, identifier: Vec<Identifier>)
        requires
            old(self).wf(),
        ensures
            final(self).wf(),
            final(self)@ == (TreeStateView {
                last_rendered_identifiers: old(self)@.last_rendered_identifiers.push(
                    (y, height, keys(identifier@)),
                ),
                ..old(self)@
            }),
    {
        self.last_rendered_identifiers.push((y, height, identifier));
        assert(rendered_view(self.last_rendered_identifiers@) =~= rendered_view(
            old(self).last_rendered_identifiers@,
        ).push((y, height, keys(identifier@))));
    }

    /// Notes the paths of all nodes of a render.
    pub(crate) fn note_nodes(&mut self, identifiers: Vec<Vec<Identifier>>)
        requires
            old(self).wf(),
        ensures
            final(self).wf(),
            final(self)@ == (TreeStateView {
                last_identifiers: paths_view(identifiers@),
                ..old(self)@
            }),
    {
        self.last_identifiers = identifiers;
    }

    pub fn get_offset(&self) -> (r: usize)
        ensures
            r == self@.offset,
    {
        self.offset
    }

    /// The open paths, each once, in no particular order.
    pub fn get_all_opened(&self) -> (r: Vec<Vec<Identifier>>)
        requires
            lawful::<Identifier>(),
            self.wf(),
        ensures
            distinct(r@),
            forall|path: Seq<Identifier::V>| self@.opened.contains(path) <==> holds(r@, path),
    {
        self.opened.to_vec()
    }

    /// The open paths.
    pub fn opened(&self) -> (r: &OpenSet<Identifier>)
        ensures
            r@ == self@.opened,
            self.wf() ==> r.wf(),
    {
        &self.opened
    }

    /// The selected path; empty where nothing is selected.
    pub fn selected(&self) -> (r: &[Identifier])
        ensures
            keys(r@) == self@.selected,
    {
        self.selected.as_slice()
    }

    /// Get a flat list of all currently viewable (including by scrolling)
    /// nodes of the items with this state.
    pub fn flatten<Item: GenericTreeItem<Identifier = Identifier>>(&self, items: &[Item]) -> (r:
        Vec<Node<Identifier>>)
        requires
            lawful::<Identifier>(),
            self.wf(),
        ensures
            node_views(r@) == flattened(self@.opened, shapes_of(items@), Seq::empty()),
    {
        let current: Vec<Identifier> = Vec::new();
        assert(keys(current@) =~= Seq::empty());
        flatten(&self.opened, items, current.as_slice())
    }

    /// Selects the given identifier.
    ///
    /// Returns `true` when the selection changed.
    ///
    /// Clear the selection by passing an empty identifier vector.
    pub fn select(&mut self, identifier: Vec<Identifier>) -> (r: bool)
        requires
            lawful::<Identifier>(),
            old(self).wf(),
        ensures
            final(self).wf(),
            final(self)@ == selecting(old(self)@, keys(identifier@)),
            r == (old(self)@.selected != keys(identifier@)),
    {
        self.ensure_selected_in_view_on_next_render = true;
        let changed = !same_path(self.selected.as_slice(), identifier.as_slice());
        self.selected = identifier;
        changed
    }

    /// Open a tree node.
    /// Returns `true` when it was closed and has been opened.
    /// Returns `false` when it was already open, and for the empty path:
    /// the root is always open.
    pub fn open(&mut self, identifier: Vec<Identifier>) -> (r: bool)
        requires
            lawful::<Identifier>(),
            old(self).wf(),
        ensures
            final(self).wf(),
            r == (identifier@.len() > 0 && !old(self)@.opened.contains(keys(identifier@))),
            final(self)@ == if identifier@.len() > 0 {
                with_opened(old(self)@, old(self)@.opened.insert(keys(identifier@)))
            } else {
                old(self)@
            },
    {
        if identifier.len() == 0 {
            false
        } else {
            assert(keys(identifier@).len() > 0);
            self.opened.insert(identifier)
        }
    }

    /// Close a tree node.
    /// Returns `true` when it was open and has been closed.
    /// Returns `false` when it was already closed.
    pub fn close(&mut self, identifier: &[Identifier]) -> (r: bool)
        requires
            lawful::<Identifier>(),
            old(self).wf(),
        ensures
            final(self).wf(),
            r == old(self)@.opened.contains(keys(identifier@)),
            final(self)@ == with_opened(old(self)@, old(self)@.opened.remove(keys(identifier@))),
    {
        self.opened.remove(identifier)
    }

    /// Toggles a tree node open/close state.
    /// When it is currently open, then it is closed. Otherwise it is
    /// opened.
    ///
    /// Returns `true` when a node is opened / closed.
    /// As toggle always changes something, this only returns `false` when an
    /// empty identifier is given.
    pub fn toggle(&mut self, identifier: Vec<Identifier>) -> (r: bool)
        requires
            lawful::<Identifier>(),
            old(self).wf(),
        ensures
            final(self).wf(),
            r == (identifier@.len() > 0),
            final(self)@ == toggling(old(self)@, keys(identifier@)),
    {
        if identifier.len() == 0 {
            false
        } else if self.opened.contains(identifier.as_slice()) {
            self.close(identifier.as_slice())
        } else {
            self.open(identifier)
        }
    }

    /// Toggles the currently selected tree node open/close state.
    ///
    /// Returns `true` when a node is opened / closed.
    /// As toggle always changes something, this only returns `false` when
    /// nothing is selected.
    pub fn toggle_selected(&mut self) -> (r: bool)
        requires
            lawful::<Identifier>(),
            old(self).wf(),
        ensures
            final(self).wf(),
            r == (old(self)@.selected.len() > 0),
            final(self)@ == if old(self)@.selected.len() > 0 {
                toggling(
                    TreeStateView { ensure_selected_in_view: true, ..old(self)@ },
                    old(self)@.selected,
                )
            } else {
                old(self)@
            },
    {
        if self.selected.len() == 0 {
            return false;
        }
        self.ensure_selected_in_view_on_next_render = true;
        let was_open = self.opened.remove(self.selected.as_slice());
        if was_open {
            return true;
        }
        assert(self.opened@ == old(self).opened@) by {
            assert(self.opened@ =~= old(self).opened@);
        }
        let identifier = copy_path(self.selected.as_slice());
        assert(keys(identifier@).len() == self.selected@.len());
        self.opened.insert(identifier)
    }

    /// Closes all open nodes.
    ///
    /// Returns `true` when any node was closed.
    pub fn close_all(&mut self) -> (r: bool)
        requires
            old(self).wf(),
        ensures
            final(self).wf(),
            r == (old(self)@.opened != Set::<Seq<Identifier::V>>::empty()),
            final(self)@ == with_opened(old(self)@, Set::empty()),
    {
        if self.opened.is_empty() {
            false
        } else {
            self.opened.clear();
            true
        }
    }

    /// A copy of the path at the index of the last render; the empty path
    /// where there is none.
    fn last_identifier(&self, index: usize) -> (r: Vec<Identifier>)
        requires
            lawful::<Identifier>(),
        ensures
            keys(r@) == path_at(self@.last_identifiers, index as int),
    {
        if index < self.last_identifiers.len() {
            copy_path(self.last_identifiers[index].as_slice())
        } else {
            let r: Vec<Identifier> = Vec::new();
            assert(keys(r@) =~= Seq::empty());
            r
        }
    }

    /// Select the first node.
    ///
    /// Returns `true` when the selection changed.
    pub fn select_first(&mut self) -> (r: bool)
        requires
            lawful::<Identifier>(),
            old(self).wf(),
        ensures
            final(self).wf(),
            final(self)@ == selecting(old(self)@, path_at(old(self)@.last_identifiers, 0)),
            r == (old(self)@.selected != path_at(old(self)@.last_identifiers, 0)),
    {
        let identifier = self.last_identifier(0);
        self.select(identifier)
    }

    /// Select the last node.
    ///
    /// Returns `true` when the selection changed.
    pub fn select_last(&mut self) -> (r: bool)
        requires
            lawful::<Identifier>(),
            old(self).wf(),
        ensures
            final(self).wf(),
            final(self)@ == selecting(
                old(self)@,
                path_at(old(self)@.last_identifiers, old(self)@.last_identifiers.len() - 1),
            ),
            r == (old(self)@.selected != path_at(
                old(self)@.last_identifiers,
                old(self)@.last_identifiers.len() - 1,
            )),
    {
        let identifier = if self.last_identifiers.len() > 0 {
            self.last_identifier(self.last_identifiers.len() - 1)
        } else {
            let empty: Vec<Identifier> = Vec::new();
            assert(keys(empty@) =~= Seq::empty());
            empty
        };
        self.select(identifier)
    }

    /// Select the node on the given index of the last render, held within
    /// the indexes of that render.
    ///
    /// Returns `true` when the selection changed.
    pub fn select_visible_index(&mut self, new_index: usize) -> (r: bool)
        requires
            lawful::<Identifier>(),
            old(self).wf(),
        ensures
            final(self).wf(),
            final(self)@ == selecting(
                old(self)@,
                path_at(
                    old(self)@.last_identifiers,
                    held(new_index, old(self)@.last_biggest_index),
                ),
            ),
            r == (old(self)@.selected != path_at(
                old(self)@.last_identifiers,
                held(new_index, old(self)@.last_biggest_index),
            )),
    {
        let new_index = if new_index < self.last_biggest_index {
            new_index
        } else {
            self.last_biggest_index
        };
        let identifier = self.last_identifier(new_index);
        self.select(identifier)
    }

    /// Move the current selection with the direction/amount by the given
    /// function.
    ///
    /// The function gets the place of the selected node among the nodes of
    /// the last render, if it is there, and gives the place to select.
    ///
    /// Returns `true` when the selection changed.
    pub fn select_visible_relative<F: FnOnce(Option<usize>) -> usize>(
        &mut self,
        change_function: F,
    ) -> (r: bool)
        requires
            lawful::<Identifier>(),
            old(self).wf(),
            call_requires(change_function, (old(self).selected_index(),)),
        ensures
            final(self).wf(),
            exists|new_index: usize|
                {
                    &&& call_ensures(change_function, (old(self).selected_index(),), new_index)
                    &&& final(self)@ == selecting(
                        old(self)@,
                        path_at(
                            old(self)@.last_identifiers,
                            held(new_index, old(self)@.last_biggest_index),
                        ),
                    )
                    &&& r == (old(self)@.selected != path_at(
                        old(self)@.last_identifiers,
                        held(new_index, old(self)@.last_biggest_index),
                    ))
                },
    {
        self.select_relative(change_function)
    }

    /// Move the current selection with the direction/amount by the given
    /// function.
    ///
    /// The function gets the place of the selected node among the nodes of
    /// the last render, if it is there, and gives the place to select.
    ///
    /// Returns `true` when the selection changed.
    pub fn select_relative<F: FnOnce(Option<usize>) -> usize>(&mut self, change_function: F) -> (r:
        bool)
        requires
            lawful::<Identifier>(),
            old(self).wf(),
            call_requires(change_function, (old(self).selected_index(),)),
        ensures
            final(self).wf(),
            exists|new_index: usize|
                {
                    &&& call_ensures(change_function, (old(self).selected_index(),), new_index)
                    &&& final(self)@ == selecting(
                        old(self)@,
                        path_at(
                            old(self)@.last_identifiers,
                            held(new_index, old(self)@.last_biggest_index),
                        ),
                    )
                    &&& r == (old(self)@.selected != path_at(
                        old(self)@.last_identifiers,
                        held(new_index, old(self)@.last_biggest_index),
                    ))
                },
    {
        let current_index = find_path(&self.last_identifiers, self.selected.as_slice());
        let new_index = change_function(current_index);
        self.select_visible_index(new_index)
    }

    /// Get the identifier that was rendered for the given position on last
    /// render.
    pub fn rendered_at(&self, position: Position) -> (r: Option<&[Identifier]>)
        ensures
            match r {
                Some(identifier) => rendered_path(self@, position) == Some(keys(identifier@)),
                None => rendered_path(self@, position) is None,
            },
    {
        if !self.last_area.contains(position) {
            return None;
        }
        let ghost rendered = rendered_view(self.last_rendered_identifiers@);
        let mut i = self.last_rendered_identifiers.len();
        assert(rendered.take(i as int) =~= rendered);
        while i > 0
            invariant
                self.last_area.spec_contains(position),
                rendered == rendered_view(self.last_rendered_identifiers@),
                i <= rendered.len(),
                hit(rendered, position.y) == hit(rendered.take(i as int), position.y),
            decreases i,
        {
            proof {
                assert(rendered.take(i as int).last() == rendered[i - 1]);
                assert(rendered.take(i as int).drop_last() =~= rendered.take(i - 1));
            }
            i -= 1;
            assert(rendered[i as int] == (
                self.last_rendered_identifiers@[i as int].0,
                self.last_rendered_identifiers@[i as int].1,
                keys(self.last_rendered_identifiers@[i as int].2@),
            ));
            let first = self.last_rendered_identifiers[i].0;
            let height = self.last_rendered_identifiers[i].1;
            if position.y >= first && position.y - first < height {
                return Some(self.last_rendered_identifiers[i].2.as_slice());
            }
        }
        None
    }

    /// Select what was rendered at the given position on last render.
    /// When it is already selected, toggle it.
    ///
    /// Returns `true` when the state changed.
    /// Returns `false` when there was nothing at the given position.
    pub fn click_at(&mut self, position: Position) -> (r: bool)
        requires
            lawful::<Identifier>(),
            old(self).wf(),
        ensures
            final(self).wf(),
            final(self)@ == clicking(old(self)@, position),
            r == match rendered_path(old(self)@, position) {
                Some(path) => path != old(self)@.selected || path.len() > 0,
                None => false,
            },
    {
        let hit = match self.rendered_at(position) {
            Some(identifier) => Some(copy_path(identifier)),
            None => None,
        };
        match hit {
            Some(identifier) => {
                if same_path(identifier.as_slice(), self.selected.as_slice()) {
                    self.toggle_selected()
                } else {
                    self.select(identifier)
                }
            },
            None => false,
        }
    }

    /// Ensure the selected node is in view on next render
    pub fn scroll_selected_into_view(&mut self)
        requires
            old(self).wf(),
        ensures
            final(self).wf(),
            final(self)@ == (TreeStateView { ensure_selected_in_view: true, ..old(self)@ }),
    {
        self.ensure_selected_in_view_on_next_render = true;
    }

    /// Scroll the specified amount of lines up
    ///
    /// Returns `true` when the scroll position changed.
    /// Returns `false` when the scrolling has reached the top.
    pub fn scroll_up(&mut self, lines: usize) -> (r: bool)
        requires
            old(self).wf(),
        ensures
            final(self).wf(),
            final(self)@ == (TreeStateView {
                offset: if old(self)@.offset >= lines {
                    (old(self)@.offset - lines) as nat
                } else {
                    0
                },
                ..old(self)@
            }),
            r == (lines > 0 && old(self)@.offset > 0),
    {
        let before = self.offset;
        self.offset = self.offset.saturating_sub(lines);
        before != self.offset
    }

    /// Scroll the specified amount of lines down, at most to the last node
    /// of the last render.
    ///
    /// Always returns `true`: whether the view moves is known after the
    /// next render only, which holds the offset to what it shows then.
    /// [`scroll_up`](Self::scroll_up) differs in that.
    pub fn scroll_down(&mut self, lines: usize) -> (r: bool)
        requires
            old(self).wf(),
        ensures
            final(self).wf(),
            final(self)@ == (TreeStateView {
                offset: if old(self)@.offset + lines <= old(self)@.last_biggest_index {
                    (old(self)@.offset + lines) as nat
                } else {
                    old(self)@.last_biggest_index
                },
                ..old(self)@
            }),
            r,
    {
        let moved = self.offset.saturating_add(lines);
        self.offset = if moved < self.last_biggest_index {
            moved
        } else {
            self.last_biggest_index
        };
        true
    }

    /// Handles the up arrow key.
    /// Moves up in the current depth or to its parent.
    ///
    /// Returns `true` when the selection changed.
    pub fn key_up(&mut self) -> (r: bool)
        requires
            lawful::<Identifier>(),
            old(self).wf(),
        ensures
            final(self).wf(),
            final(self)@ == selecting(
                old(self)@,
                path_at(
                    old(self)@.last_identifiers,
                    held(above(old(self).selected_index()), old(self)@.last_biggest_index),
                ),
            ),
            r == (old(self)@.selected != path_at(
                old(self)@.last_identifiers,
                held(above(old(self).selected_index()), old(self)@.last_biggest_index),
            )),
    {
        self.select_relative(index_above)
    }

    /// Handles the down arrow key.
    /// Moves down in the current depth or into a child node.
    ///
    /// Returns `true` when the selection changed.
    pub fn key_down(&mut self) -> (r: bool)
        requires
            lawful::<Identifier>(),
            old(self).wf(),
        ensures
            final(self).wf(),
            final(self)@ == selecting(
                old(self)@,
                path_at(
                    old(self)@.last_identifiers,
                    held(below(old(self).selected_index()), old(self)@.last_biggest_index),
                ),
            ),
            r == (old(self)@.selected != path_at(
                old(self)@.last_identifiers,
                held(below(old(self).selected_index()), old(self)@.last_biggest_index),
            )),
    {
        self.select_relative(index_below)
    }

    /// Handles the left arrow key.
    /// Closes the currently selected or moves to its parent.
    ///
    /// Returns `true` when the selection or the open state changed.
    pub fn key_left(&mut self) -> (r: bool)
        requires
            lawful::<Identifier>(),
            old(self).wf(),
        ensures
            final(self).wf(),
            r == (old(self)@.selected.len() > 0),
            final(self)@ == if old(self)@.opened.contains(old(self)@.selected) {
                TreeStateView {
                    ensure_selected_in_view: true,
                    opened: old(self)@.opened.remove(old(self)@.selected),
                    ..old(self)@
                }
            } else if old(self)@.selected.len() > 0 {
                TreeStateView {
                    ensure_selected_in_view: true,
                    selected: old(self)@.selected.drop_last(),
                    ..old(self)@
                }
            } else {
                TreeStateView { ensure_selected_in_view: true, ..old(self)@ }
            },
    {
        self.ensure_selected_in_view_on_next_render = true;
        let mut changed = self.opened.remove(self.selected.as_slice());
        proof {
            if self.selected@.len() == 0 {
                assert(keys(self.selected@) =~= Seq::empty());
            }
        }
        if !changed {
            proof {
                assert(self.opened@ =~= old(self).opened@);
            }
            // Select the parent by removing the leaf from selection
            let popped = self.selected.pop();
            changed = popped.is_some();
            proof {
                if changed {
                    assert(keys(self.selected@) =~= keys(old(self).selected@).drop_last());
                } else {
                    assert(keys(self.selected@) =~= keys(old(self).selected@));
                }
            }
        }
        changed
    }

    /// Handles the right arrow key.
    /// Opens the currently selected.
    ///
    /// Returns `true` when it was closed and has been opened.
    /// Returns `false` when it was already open or nothing being selected.
    pub fn key_right(&mut self) -> (r: bool)
        requires
            lawful::<Identifier>(),
            old(self).wf(),
        ensures
            final(self).wf(),
            r == (old(self)@.selected.len() > 0 && !old(self)@.opened.contains(
                old(self)@.selected,
            )),
            final(self)@ == if old(self)@.selected.len() > 0 {
                TreeStateView {
                    ensure_selected_in_view: true,
                    opened: old(self)@.opened.insert(old(self)@.selected),
                    ..old(self)@
                }
            } else {
                old(self)@
            },
    {
        if self.selected.len() == 0 {
            false
        } else {
            self.ensure_selected_in_view_on_next_render = true;
            let identifier = copy_path(self.selected.as_slice());
            self.open(identifier)
        }
    }
}

} // verus!
