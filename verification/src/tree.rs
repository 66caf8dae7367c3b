//! The widget: a tree that can be rendered.

use vstd::prelude::*;
use ratatui::buffer::Buffer;
use ratatui::style::Style;
use ratatui::widgets::{Block, Scrollbar};
use crate::identifier::{copy_path, keys, lawful, same_path};
use crate::node::{node_heights, node_views, view_heights, view_paths, Node, NodeView};
use crate::shape::flattened;
use crate::surface::{
    area_of_surface, blanks, block_insets, block_rendered, display_width, drawing_area,
    inner_area, inner_of_block, insets_fit, is_plain, plain_style, print, printed,
    render_block, render_scrollbar, saturating_sub, scrollbar_rendered, set_style, style_set,
    surface_area, width_of, Area,
};
use crate::tree_data::TreeData;
use crate::tree_state::{find_node, index_of, paths_view, TreeState, TreeStateView};
use crate::window::{
    as_nat, is_window, lemma_kept_in_view, lemma_offset_within_list, lemma_rows_monotone, rows,
    window,
};

verus! {

/// A `Tree` which can be rendered.
///
/// The `Data` is shown as [`TreeData`] tells; what of it is open or selected
/// is kept in a [`TreeState`] over the identifiers of the data.
#[derive(Debug)]
pub struct Tree<'a, Data> {
    pub data: &'a Data,
    pub block: Option<Block<'a>>,
    pub scrollbar: Option<Scrollbar<'a>>,
    /// Style used as a base style for the widget
    pub style: Style,
    /// Style used to render selected item
    pub highlight_style: Style,
    /// Symbol in front of the selected item (Shift all items to the right)
    pub highlight_symbol: &'a str,
    /// Symbol displayed in front of a closed node (As in the children are currently not visible)
    pub node_closed_symbol: &'a str,
    /// Symbol displayed in front of an open node. (As in the children are currently visible)
    pub node_open_symbol: &'a str,
    /// Symbol displayed in front of a node without children.
    pub node_no_children_symbol: &'a str,
}

impl<'a, Data> Clone for Tree<'a, Data> {
    /// A copy of the widget: over the same data, with the same settings.
    fn clone(&self) -> (r: Self)
        ensures
            r == *self,
    {
        Tree {
            data: self.data,
            block: self.block.clone(),
            scrollbar: self.scrollbar.clone(),
            style: self.style,
            highlight_style: self.highlight_style,
            highlight_symbol: self.highlight_symbol,
            node_closed_symbol: self.node_closed_symbol,
            node_open_symbol: self.node_open_symbol,
            node_no_children_symbol: self.node_no_children_symbol,
        }
    }
}

/// The node to keep in view at a render: the selected one, where that was
/// asked for and it is among the nodes.
pub open spec fn kept_in_view<K>(state: TreeStateView<K>, nodes: Seq<NodeView<K>>) -> Option<nat> {
    if state.ensure_selected_in_view && state.selected.len() > 0 {
        match index_of(view_paths(nodes), state.selected) {
            Some(index) => Some(index as nat),
            None => None,
        }
    } else {
        None
    }
}

/// The nodes of a window, each with the row that it begins in and the
/// number of its rows, where the first of them begins in the row `top`.
pub open spec fn drawn<K>(nodes: Seq<NodeView<K>>, top: u16, start: int, end: int) -> Seq<
    (u16, u16, Seq<K>),
> {
    Seq::new(
        (end - start) as nat,
        |j: int|
            (
                (top + rows(view_heights(nodes), start, start + j)) as u16,
                nodes[start + j].height as u16,
                nodes[start + j].identifier,
            ),
    )
}

/// Whether `after` is the state that a render leaves, of the nodes into
/// the area, when it finds the state `before`.
///
/// A render into an area without a cell forgets what was drawn last. One
/// of no nodes does so too, and sets the greatest index to zero. Any other
/// render scrolls to the window of the nodes, which keeps the selected node
/// in view where that was asked for, and notes all nodes and those that it
/// drew. What is selected and what is open stays.
pub open spec fn rendered<K>(
    before: TreeStateView<K>,
    nodes: Seq<NodeView<K>>,
    area: Area,
    after: TreeStateView<K>,
) -> bool {
    if area.spec_is_empty() {
        after == (TreeStateView { last_area: area, last_rendered_identifiers: Seq::empty(), ..before })
    } else if nodes.len() == 0 {
        after == (TreeStateView {
            last_area: area,
            last_rendered_identifiers: Seq::empty(),
            last_biggest_index: 0,
            ..before
        })
    } else {
        exists|start: int, end: int|
            {
                &&& #[trigger] is_window(
                    view_heights(nodes),
                    area.height as nat,
                    before.offset,
                    kept_in_view(before, nodes),
                    start,
                    end,
                )
                &&& after == (TreeStateView {
                    offset: start as nat,
                    opened: before.opened,
                    selected: before.selected,
                    ensure_selected_in_view: false,
                    last_area: area,
                    last_biggest_index: (nodes.len() - 1) as nat,
                    last_identifiers: view_paths(nodes),
                    last_rendered_identifiers: drawn(nodes, area.y, start, end),
                })
            }
    }
}

/// After a render that drew nodes, the scroll offset is the index of a node:
/// it is not greater than the greatest index. This holds of every render
/// into an area with a cell, of a list with a node, but one: where the
/// selected node is to be kept in view, is the last of the list and is
/// taller than the area, there is no room for it, and the offset is the
/// length of the list.
pub proof fn lemma_rendered_offset_within_list<K>(
    before: TreeStateView<K>,
    nodes: Seq<NodeView<K>>,
    area: Area,
    after: TreeStateView<K>,
)
    requires
        rendered(before, nodes, area, after),
        !area.spec_is_empty(),
        nodes.len() > 0,
        !(kept_in_view(before, nodes) == Some((nodes.len() - 1) as nat) && nodes.last().height
            > area.height),
    ensures
        0 <= after.offset <= nodes.len() - 1,
        after.offset <= after.last_biggest_index,
{
    let (start, end) = choose|start: int, end: int| #[trigger]
        is_window(
            view_heights(nodes),
            area.height as nat,
            before.offset,
            kept_in_view(before, nodes),
            start,
            end,
        ) && after.offset == start as nat;
    lemma_offset_within_list(
        view_heights(nodes),
        area.height as nat,
        before.offset,
        kept_in_view(before, nodes),
        start,
        end,
    );
}

/// After a render that was asked to keep the selected node in view, that
/// node is among the drawn ones: its index is not before the scroll offset
/// and less than the offset and the number of drawn nodes together. This
/// holds where the selected node is among the nodes and not taller than the
/// area.
pub proof fn lemma_rendered_selected_in_view<K>(
    before: TreeStateView<K>,
    nodes: Seq<NodeView<K>>,
    area: Area,
    after: TreeStateView<K>,
    index: usize,
)
    requires
        rendered(before, nodes, area, after),
        !area.spec_is_empty(),
        before.ensure_selected_in_view,
        before.selected.len() > 0,
        index_of(view_paths(nodes), before.selected) == Some(index),
        index < nodes.len(),
        nodes[index as int].height <= area.height,
    ensures
        after.offset <= index < after.offset + after.last_rendered_identifiers.len(),
        !after.ensure_selected_in_view,
{
    let (start, end) = choose|start: int, end: int| #[trigger]
        is_window(
            view_heights(nodes),
            area.height as nat,
            before.offset,
            kept_in_view(before, nodes),
            start,
            end,
        ) && after.offset == start as nat && after.last_rendered_identifiers == drawn(
            nodes,
            area.y,
            start,
            end,
        ) && !after.ensure_selected_in_view;
    assert(kept_in_view(before, nodes) == Some(index as nat));
    lemma_kept_in_view(
        view_heights(nodes),
        area.height as nat,
        before.offset,
        index as nat,
        start,
        end,
    );
}

/// The paths of the nodes.
fn into_paths<Identifier: Clone + PartialEq + DeepView>(nodes: Vec<Node<Identifier>>) -> (r: Vec<
    Vec<Identifier>,
>)
    requires
        lawful::<Identifier>(),
    ensures
        paths_view(r@) == view_paths(node_views(nodes@)),
{
    let mut r: Vec<Vec<Identifier>> = Vec::new();
    let mut i: usize = 0;
    while i < nodes.len()
        invariant
            lawful::<Identifier>(),
            i <= nodes@.len(),
            r@.len() == i,
            forall|j: int| 0 <= j < i ==> keys(#[trigger] r@[j]@) == keys(nodes@[j].identifier@),
        decreases nodes@.len() - i,
    {
        r.push(copy_path(nodes[i].identifier.as_slice()));
        i += 1;
    }
    assert(paths_view(r@) =~= view_paths(node_views(nodes@)));
    r
}

/// A grid, and the column up to which a row of it is printed.
pub struct Pen {
    pub grid: Buffer,
    pub x: u16,
}

/// So many blanks.
pub open spec fn blank_run(count: int) -> Seq<char> {
    Seq::new(count as nat, |i: int| ' ')
}

/// A width, but not more than a row can have cells.
pub open spec fn capped(width: int) -> int {
    if width < 0xffff {
        width
    } else {
        0xffff
    }
}

/// The blanks before a node at the depth: two for each level, but not more
/// than a row can have cells.
pub open spec fn indent_of(depth: nat) -> int {
    if depth < 0x8000 {
        2 * depth as int
    } else {
        0xffff
    }
}

/// The pen after the string was printed where it stands in the row, on at
/// most so many columns. Nothing is printed where `go` is not given or the
/// pen has reached the right edge of the grid.
pub open spec fn put(pen: Pen, go: bool, surface: Area, y: u16, text: Seq<char>, max_width: int) -> Pen {
    if go && pen.x < surface.spec_right() {
        let (grid, x) = printed(pen.grid, pen.x, y, text, max_width as usize);
        Pen { grid, x }
    } else {
        pen
    }
}

/// The symbol that stands before the content of a node: that for a node
/// without children, or else that for an open node where the path of the
/// node is open, or else that for a closed node.
pub open spec fn node_symbol<'a, Data: TreeData>(
    tree: Tree<'a, Data>,
    opened: Set<Seq<<Data::Identifier as DeepView>::V>>,
    node: NodeView<<Data::Identifier as DeepView>::V>,
) -> Seq<char> {
    if !node.has_children {
        tree.node_no_children_symbol@
    } else if opened.contains(node.identifier) {
        tree.node_open_symbol@
    } else {
        tree.node_closed_symbol@
    }
}

/// What stands first in the row of a node where a node is selected: the
/// highlight symbol in the row of the selected node, and as many blanks in
/// any other row.
pub open spec fn highlight_mark<'a, Data: TreeData>(
    tree: Tree<'a, Data>,
    selected: bool,
) -> Seq<char> {
    if selected {
        tree.highlight_symbol@
    } else {
        blank_run(capped(display_width(tree.highlight_symbol@) as int))
    }
}

/// The grid after a node was drawn into its rows, of which the first is
/// the row `y`.
///
/// From the left edge of the area on, the row holds: where a path is
/// selected, the highlight mark; then the blanks for the depth; then the
/// symbol of the node, in what is left of the width of the area; then what
/// the data draws for the node into the rest of the rows. The rows of the
/// selected node get the highlight style. A node without rows below the
/// last row of the area has no cell to stand in: for it nothing is printed.
pub open spec fn row_drawn<'a, Data: TreeData>(
    tree: Tree<'a, Data>,
    state: TreeStateView<<Data::Identifier as DeepView>::V>,
    area: Area,
    surface: Area,
    node: NodeView<<Data::Identifier as DeepView>::V>,
    y: u16,
    grid: Buffer,
) -> Buffer {
    let on_surface = y < area.spec_bottom();
    let selected = state.selected == node.identifier;
    let marked = put(
        Pen { grid, x: area.x },
        state.selected.len() > 0 && on_surface,
        surface,
        y,
        highlight_mark(tree, selected),
        area.width as int,
    );
    let indented = put(
        marked,
        on_surface,
        surface,
        y,
        blank_run(indent_of(node.depth)),
        indent_of(node.depth),
    );
    let named = put(
        indented,
        on_surface,
        surface,
        y,
        node_symbol(tree, state.opened, node),
        saturating_sub(area.width as int, indented.x - area.x),
    );
    let filled = tree.data.spec_render(
        node.identifier,
        named.grid,
        Area {
            x: named.x,
            y,
            width: saturating_sub(area.width as int, named.x - area.x) as u16,
            height: node.height as u16,
        },
    );
    if selected {
        style_set(
            filled,
            Area { x: area.x, y, width: area.width, height: node.height as u16 },
            tree.highlight_style,
        )
    } else {
        filled
    }
}

/// The grid after the nodes from index `start` up to, but without, index
/// `upto` were drawn one below the other, the first of them in the first
/// row of the area.
pub open spec fn rows_drawn<'a, Data: TreeData>(
    tree: Tree<'a, Data>,
    state: TreeStateView<<Data::Identifier as DeepView>::V>,
    area: Area,
    surface: Area,
    nodes: Seq<NodeView<<Data::Identifier as DeepView>::V>>,
    start: int,
    upto: int,
    grid: Buffer,
) -> Buffer
    decreases upto - start,
{
    if upto <= start {
        grid
    } else {
        row_drawn(
            tree,
            state,
            area,
            surface,
            nodes[upto - 1],
            (area.y + rows(view_heights(nodes), start, upto - 1)) as u16,
            rows_drawn(tree, state, area, surface, nodes, start, upto - 1, grid),
        )
    }
}

/// The grid after the base style was set on the full area and the frame,
/// where there is one, was drawn into what of the full area can be drawn
/// on.
pub open spec fn framed<'a, Data: TreeData>(
    tree: Tree<'a, Data>,
    full_area: Area,
    surface: Area,
    grid: Buffer,
) -> Buffer {
    let styled = style_set(grid, full_area, tree.style);
    match tree.block {
        Some(block) => block_rendered(styled, block, drawing_area(full_area, surface)),
        None => styled,
    }
}

/// The grid after the scrollbar, where there is one, was drawn: in the
/// columns of the full area and the rows of the area of the nodes, as far
/// as they lie on the grid, for so many nodes of which those from `start`
/// on, `height` rows high, are in view.
pub open spec fn bar_drawn<'a, Data: TreeData>(
    tree: Tree<'a, Data>,
    full_area: Area,
    area: Area,
    surface: Area,
    count: int,
    start: int,
    height: int,
    grid: Buffer,
) -> Buffer {
    let bar = (Area {
        x: full_area.x,
        y: area.y,
        width: full_area.width,
        height: area.height,
    }).spec_intersection(surface);
    match tree.scrollbar {
        Some(scrollbar) => if bar.spec_is_empty() {
            grid
        } else {
            scrollbar_rendered(
                grid,
                scrollbar,
                bar,
                saturating_sub(count, height) as usize,
                start as usize,
                height as usize,
            )
        },
        None => grid,
    }
}

/// Whether `after` is the grid that a render of the nodes leaves when it
/// finds the grid `before` and the state `state`.
///
/// First the base style is set and the frame is drawn. Where the area for
/// the nodes has a cell and there is a node, the scrollbar is drawn, and
/// then the nodes of the window, one below the other.
pub open spec fn painted<'a, Data: TreeData>(
    tree: Tree<'a, Data>,
    full_area: Area,
    state: TreeStateView<<Data::Identifier as DeepView>::V>,
    nodes: Seq<NodeView<<Data::Identifier as DeepView>::V>>,
    before: Buffer,
    after: Buffer,
) -> bool {
    let surface = surface_area(before);
    let area = drawing_area(tree.inner(full_area), surface);
    let ground = framed(tree, full_area, surface, before);
    if area.spec_is_empty() || nodes.len() == 0 {
        after == ground
    } else {
        exists|start: int, end: int|
            {
                &&& #[trigger] is_window(
                    view_heights(nodes),
                    area.height as nat,
                    state.offset,
                    kept_in_view(state, nodes),
                    start,
                    end,
                )
                &&& after == rows_drawn(
                    tree,
                    state,
                    area,
                    surface,
                    nodes,
                    start,
                    end,
                    bar_drawn(
                        tree,
                        full_area,
                        area,
                        surface,
                        nodes.len() as int,
                        start,
                        rows(view_heights(nodes), start, end) as int,
                        ground,
                    ),
                )
            }
    }
}

impl<'a, Data: TreeData> Tree<'a, Data> {
    /// Create a new `Tree`.
    pub fn new(data: &'a Data) -> (r: Self)
        ensures
            r.data == data,
            r.block is None,
            r.scrollbar is None,
            is_plain(r.style),
            is_plain(r.highlight_style),
            r.highlight_symbol@ == ""@,
            r.node_closed_symbol@ == "\u{25b6} "@,
            r.node_open_symbol@ == "\u{25bc} "@,
            r.node_no_children_symbol@ == "  "@,
    {
        Tree {
            data,
            block: None,
            scrollbar: None,
            style: plain_style(),
            highlight_style: plain_style(),
            highlight_symbol: "",
            node_closed_symbol: "\u{25b6} ",  // Arrow to right
            node_open_symbol: "\u{25bc} ",  // Arrow down
            node_no_children_symbol: "  ",
        }
    }

    /// Surrounds the tree with the block.
    pub fn block(self, block: Block<'a>) -> (r: Self)
        ensures
            r == (Tree { block: Some(block), ..self }),
    {
        Tree { block: Some(block), ..self }
    }

    /// Show the scrollbar when rendering this widget.
    ///
    /// Experimental: Can change on any release without any additional notice.
    /// Its there to test and experiment with whats possible with scrolling widgets.
    pub fn experimental_scrollbar(self, scrollbar: Option<Scrollbar<'a>>) -> (r: Self)
        ensures
            r == (Tree { scrollbar, ..self }),
    {
        Tree { scrollbar, ..self }
    }

    pub fn style(self, style: Style) -> (r: Self)
        ensures
            r == (Tree { style, ..self }),
    {
        Tree { style, ..self }
    }

    pub fn highlight_style(self, style: Style) -> (r: Self)
        ensures
            r == (Tree { highlight_style: style, ..self }),
    {
        Tree { highlight_style: style, ..self }
    }

    pub fn highlight_symbol(self, highlight_symbol: &'a str) -> (r: Self)
        ensures
            r == (Tree { highlight_symbol, ..self }),
    {
        Tree { highlight_symbol, ..self }
    }

    pub fn node_closed_symbol(self, symbol: &'a str) -> (r: Self)
        ensures
            r == (Tree { node_closed_symbol: symbol, ..self }),
    {
        Tree { node_closed_symbol: symbol, ..self }
    }

    pub fn node_open_symbol(self, symbol: &'a str) -> (r: Self)
        ensures
            r == (Tree { node_open_symbol: symbol, ..self }),
    {
        Tree { node_open_symbol: symbol, ..self }
    }

    pub fn node_no_children_symbol(self, symbol: &'a str) -> (r: Self)
        ensures
            r == (Tree { node_no_children_symbol: symbol, ..self }),
    {
        Tree { node_no_children_symbol: symbol, ..self }
    }

    /// Whether the frame around the tree, where there is one, has paddings
    /// and titles that add up within `u16`.
    ///
    /// A block does not tell its paddings or its titles, so this cannot be
    /// found out from the block: it is known where the block is made. Code
    /// that Verus verifies has a block from a function that it has given a
    /// contract, and that contract is the place to state
    /// [`block_insets`] of the block. A tree without a frame meets this.
    pub open spec fn frame_fits(self) -> bool {
        self.block matches Some(block) ==> insets_fit(block_insets(block))
    }

    /// The area inside of the frame around the tree.
    pub open spec fn inner(self, full_area: Area) -> Area {
        match self.block {
            Some(block) => inner_area(full_area, block_insets(block)),
            None => full_area,
        }
    }

    /// Shows the nodes of the data in the area of the grid, within the
    /// frame where there is one, and notes in the state what it showed.
    ///
    /// The nodes are drawn into the part of the area that lies on the grid
    /// and before the last column that there is, one below the other, from
    /// the scroll offset on, as many as fit. Each begins with the highlight
    /// symbol, or as many blanks, where a node is selected; then two blanks
    /// for each level of depth; then the symbol that tells whether it has
    /// children and is open; then its content. The selected node gets the
    /// highlight style.
    pub fn render(
        self,
        full_area: Area,
        buf: &mut Buffer,
        state: &mut TreeState<Data::Identifier>,
    )
        requires
            lawful::<Data::Identifier>(),
            old(state).wf(),
            self.frame_fits(),
        ensures
            final(state).wf(),
            surface_area(*final(buf)) == surface_area(*old(buf)),
            rendered(
                old(state)@,
                flattened(old(state)@.opened, self.data.shapes(), Seq::empty()),
                drawing_area(self.inner(full_area), surface_area(*old(buf))),
                final(state)@,
            ),
            painted(
                self,
                full_area,
                old(state)@,
                flattened(old(state)@.opened, self.data.shapes(), Seq::empty()),
                *old(buf),
                *final(buf),
            ),
    {
        let ghost tree = self;
        let ghost before = old(state)@;
        let surface = area_of_surface(buf);
        set_style(buf, full_area, self.style);

        // Get the inner area inside a possible block, otherwise use the full area
        let inner = match self.block {
            Some(block) => {
                let inner_area = inner_of_block(&block, full_area);
                // Nothing is drawn beside the grid
                render_block(block, full_area.intersection(surface).cut_at_edge(), buf);
                inner_area
            },
            None => full_area,
        };
        let area = inner.intersection(surface).cut_at_edge();
        assert(*buf == framed(tree, full_area, surface, *old(buf)));
        let ghost ground = *buf;

        state.begin_render(area);
        if area.width < 1 || area.height < 1 {
            return ;
        }
        let nodes = self.data.get_nodes(state.opened());
        let ghost views = node_views(nodes@);
        let ghost heights = view_heights(views);
        assert(heights =~= node_heights(nodes@));
        state.note_biggest_index(nodes.len().saturating_sub(1));
        if nodes.len() == 0 {
            return ;
        }
        let available_height = area.height as usize;

        let ensure_index_in_view = if state.keeps_selected_in_view() && state.selected().len()
            > 0 {
            find_node(&nodes, state.selected())
        } else {
            None
        };
        assert(as_nat(ensure_index_in_view) == kept_in_view(before, views));

        let shown = window(
            nodes.as_slice(),
            available_height,
            state.get_offset(),
            ensure_index_in_view,
        );
        let start = shown.start;
        let end = shown.end;
        assert(is_window(
            heights,
            area.height as nat,
            before.offset,
            kept_in_view(before, views),
            start as int,
            end as int,
        ));
        proof {
            lemma_rows_monotone(heights, start as int, start as int, start as int, end as int);
        }

        state.scroll_to(start);

        if let Some(scrollbar) = self.scrollbar {
            let bar = Area {
                // Inner height to be exactly as the content
                y: area.y,
                height: area.height,
                // Outer width to stay on the right border
                x: full_area.x,
                width: full_area.width,
            }.intersection(surface);
            if !bar.is_empty() {
                render_scrollbar(
                    scrollbar,
                    bar,
                    buf,
                    nodes.len().saturating_sub(shown.height),
                    start,
                    shown.height,
                );
            }
        }
        let ghost barred = *buf;
        assert(barred == bar_drawn(
            tree,
            full_area,
            area,
            surface,
            views.len() as int,
            start as int,
            rows(heights, start as int, end as int) as int,
            ground,
        ));
        let symbol_width = width_of(self.highlight_symbol);
        let blank_symbol = blanks(
            if symbol_width < 0xffff {
                symbol_width as u16
            } else {
                0xffff
            },
        );
        assert(blank_symbol@ =~= highlight_mark(tree, false));

        let mut current_height: u16 = 0;
        let has_selection = state.selected().len() > 0;
        let mut i = start;
        assert(drawn(views, area.y, start as int, start as int) =~= Seq::empty());
        while i < end
            invariant
                lawful::<Data::Identifier>(),
                state.wf(),
                tree.data == self.data,
                tree.highlight_symbol == self.highlight_symbol,
                tree.highlight_style == self.highlight_style,
                tree.node_closed_symbol == self.node_closed_symbol,
                tree.node_open_symbol == self.node_open_symbol,
                tree.node_no_children_symbol == self.node_no_children_symbol,
                blank_symbol@ == highlight_mark(tree, false),
                views == node_views(nodes@),
                heights == view_heights(views),
                0 <= start <= i <= end <= nodes@.len(),
                surface == surface_area(*old(buf)),
                surface_area(*buf) == surface,
                !area.spec_is_empty(),
                area.within(surface),
                area.ends_before_edge(),
                rows(heights, start as int, end as int) <= area.height,
                current_height == rows(heights, start as int, i as int),
                has_selection == (before.selected.len() > 0),
                before.opened == old(state)@.opened,
                before.selected == old(state)@.selected,
                *buf == rows_drawn(
                    tree,
                    before,
                    area,
                    surface,
                    views,
                    start as int,
                    i as int,
                    barred,
                ),
                state@ == (TreeStateView {
                    offset: start as nat,
                    opened: before.opened,
                    selected: before.selected,
                    ensure_selected_in_view: false,
                    last_area: area,
                    last_biggest_index: (nodes@.len() - 1) as nat,
                    last_identifiers: before.last_identifiers,
                    last_rendered_identifiers: drawn(views, area.y, start as int, i as int),
                }),
            decreases end - i,
        {
            let node = &nodes[i];
            let ghost view = views[i as int];
            let ghost grid = *buf;
            proof {
                lemma_rows_monotone(heights, start as int, start as int, i + 1, end as int);
                assert(rows(heights, start as int, i + 1) == rows(heights, start as int, i as int)
                    + heights[i as int]);
                assert(heights[i as int] == node.height);
                assert(view == node@);
            }
            let x = area.x;
            let y = area.y + current_height;
            let height = node.height as u16;
            current_height += height;

            let row = Area { x, y, width: area.width, height };

            let is_selected = same_path(state.selected(), node.identifier.as_slice());
            // A node without height at the very bottom has no cell to draw on
            let on_surface = y < area.bottom();
            let after_highlight_symbol_x = if has_selection && on_surface {
                let symbol = if is_selected {
                    self.highlight_symbol
                } else {
                    blank_symbol.as_str()
                };
                print(buf, x, y, symbol, area.width as usize).0
            } else {
                x
            };
            let ghost marked = Pen { grid: *buf, x: after_highlight_symbol_x };
            assert(marked == put(
                Pen { grid, x: area.x },
                before.selected.len() > 0 && on_surface,
                surface,
                y,
                highlight_mark(tree, is_selected),
                area.width as int,
            ));

            // No more blanks than a row can have cells
            let indent_width: u16 = if node.depth < 0x8000 {
                (node.depth * 2) as u16
            } else {
                0xffff
            };
            let after_indent_x = if on_surface && after_highlight_symbol_x < surface.right() {
                let indent = blanks(indent_width);
                assert(indent@ =~= blank_run(indent_of(view.depth)));
                print(buf, after_highlight_symbol_x, y, indent.as_str(), indent_width as usize).0
            } else {
                after_highlight_symbol_x
            };
            let ghost indented = Pen { grid: *buf, x: after_indent_x };
            assert(indented == put(
                marked,
                on_surface,
                surface,
                y,
                blank_run(indent_of(view.depth)),
                indent_of(view.depth),
            ));
            let after_depth_x = if on_surface && after_indent_x < surface.right() {
                let symbol = if !node.has_children {
                    self.node_no_children_symbol
                } else if state.opened().contains(node.identifier.as_slice()) {
                    self.node_open_symbol
                } else {
                    self.node_closed_symbol
                };
                assert(symbol@ == node_symbol(tree, before.opened, view));
                let max_width = area.width.saturating_sub(after_indent_x - x);
                print(buf, after_indent_x, y, symbol, max_width as usize).0
            } else {
                after_indent_x
            };
            let ghost named = Pen { grid: *buf, x: after_depth_x };
            assert(named == put(
                indented,
                on_surface,
                surface,
                y,
                node_symbol(tree, before.opened, view),
                saturating_sub(area.width as int, indented.x - area.x),
            ));

            let text_area = Area {
                x: after_depth_x,
                y,
                width: area.width.saturating_sub(after_depth_x - x),
                height,
            };
            self.data.render(node.identifier.as_slice(), text_area, buf);

            if is_selected {
                set_style(buf, row, self.highlight_style);
            }
            assert(*buf == row_drawn(tree, before, area, surface, view, y, grid));
            state.note_drawn(row.y, height, copy_path(node.identifier.as_slice()));
            proof {
                assert(views[i as int].identifier == keys(node.identifier@));
                assert(drawn(views, area.y, start as int, i as int).push(
                    (y, height, keys(node.identifier@)),
                ) =~= drawn(views, area.y, start as int, i + 1));
            }
            i += 1;
        }
        state.note_nodes(into_paths(nodes));
    }
}

} // verus!
