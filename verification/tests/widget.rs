use ratatui::buffer::Buffer;
use ratatui::layout::Rect;
use ratatui::style::{Color, Style};
use ratatui::widgets::{Block, Padding, Scrollbar, ScrollbarOrientation};
use tui_tree_widget::generic_tree_item::render_item;
use tui_tree_widget::surface::{blanks, clipped, Area, Position};
use tui_tree_widget::tree_data::render_node;
use tui_tree_widget::{OpenSet, Tree, TreeDataHeight, TreeItem, TreeState};

fn example() -> Vec<TreeItem<'static, &'static str>> {
    vec![
        TreeItem::new_leaf("a", "Alfa"),
        TreeItem::new(
            "b",
            "Bravo",
            vec![
                TreeItem::new_leaf("c", "Charlie"),
                TreeItem::new(
                    "d",
                    "Delta",
                    vec![TreeItem::new_leaf("e", "Echo"), TreeItem::new_leaf("f", "Foxtrot")],
                )
                .expect("all item identifiers are unique"),
                TreeItem::new_leaf("g", "Golf"),
            ],
        )
        .expect("all item identifiers are unique"),
        TreeItem::new_leaf("h", "Hotel"),
    ]
}

fn plain(buffer: &Buffer) -> Buffer {
    let mut buffer = buffer.clone();
    let area = buffer.area;
    buffer.set_style(area, Style::reset());
    buffer
}

#[test]
fn a_block_frames_the_tree() {
    let items = example();
    let mut state = TreeState::default();
    let mut buffer = Buffer::empty(Rect::new(0, 0, 12, 5));
    Tree::new(&items)
        .block(Block::bordered().title("Tree"))
        .render(Area::new(0, 0, 12, 5), &mut buffer, &mut state);
    let expected = Buffer::with_lines([
        "┌Tree──────┐",
        "│  Alfa    │",
        "│▶ Bravo   │",
        "│  Hotel   │",
        "└──────────┘",
    ]);
    assert_eq!(plain(&buffer), plain(&expected));
    // clicks go by the rows inside of the frame
    assert_eq!(state.rendered_at(Position::new(1, 2)), Some(&["b"][..]));
    assert_eq!(state.rendered_at(Position::new(0, 2)), None);
    assert_eq!(state.rendered_at(Position::new(1, 0)), None);
    assert_eq!(state.rendered_at(Position::new(1, 4)), None);
}

#[test]
fn the_padding_of_a_block_is_left_free() {
    let items = example();
    let mut state = TreeState::default();
    let mut buffer = Buffer::empty(Rect::new(0, 0, 12, 5));
    Tree::new(&items)
        .block(Block::new().padding(Padding::new(3, 1, 2, 0)))
        .render(Area::new(0, 0, 12, 5), &mut buffer, &mut state);
    let expected = Buffer::with_lines([
        "            ",
        "            ",
        "     Alfa   ",
        "   ▶ Bravo  ",
        "     Hotel  ",
    ]);
    assert_eq!(plain(&buffer), expected);
    assert_eq!(state.rendered_at(Position::new(3, 4)), Some(&["h"][..]));
    assert_eq!(state.rendered_at(Position::new(2, 4)), None);
    assert_eq!(state.rendered_at(Position::new(11, 4)), None);
}

#[test]
fn a_block_may_leave_no_room() {
    let items = example();
    let mut state = TreeState::default();
    let mut buffer = Buffer::empty(Rect::new(0, 0, 12, 2));
    Tree::new(&items).block(Block::bordered()).render(Area::new(0, 0, 12, 2), &mut buffer, &mut state);
    let expected = Buffer::with_lines(["┌──────────┐", "└──────────┘"]);
    assert_eq!(plain(&buffer), plain(&expected));
    assert_eq!(state.rendered_at(Position::new(1, 1)), None);
}

#[test]
fn a_scrollbar_stands_at_the_edge() {
    let items = example();
    let mut state = TreeState::default();
    state.open(vec!["b"]);
    state.open(vec!["b", "d"]);
    let mut buffer = Buffer::empty(Rect::new(0, 0, 14, 4));
    Tree::new(&items)
        .experimental_scrollbar(Some(Scrollbar::new(ScrollbarOrientation::VerticalRight)))
        .render(Area::new(0, 0, 14, 4), &mut buffer, &mut state);
    let column = (0..4).map(|y| buffer[(13, y)].symbol().to_owned()).collect::<Vec<_>>();
    assert_eq!(column[0], "▲");
    assert_eq!(column[3], "▼");
    assert!(column.iter().any(|symbol| symbol == "█"));
    assert_eq!(buffer[(2, 0)].symbol(), "A");
    assert_eq!(buffer[(4, 3)].symbol(), "D");

    // without a node there is no bar
    let nothing: Vec<TreeItem<'static, &'static str>> = Vec::new();
    let mut buffer = Buffer::empty(Rect::new(0, 0, 14, 4));
    Tree::new(&nothing)
        .experimental_scrollbar(Some(Scrollbar::new(ScrollbarOrientation::VerticalRight)))
        .render(Area::new(0, 0, 14, 4), &mut buffer, &mut state);
    assert_eq!(buffer, Buffer::empty(Rect::new(0, 0, 14, 4)));
}

#[test]
fn styles_and_symbols() {
    let items = example();
    let mut state = TreeState::default();
    state.open(vec!["b"]);
    state.select(vec!["b", "c"]);
    let mut buffer = Buffer::empty(Rect::new(0, 0, 16, 7));
    Tree::new(&items)
        .style(Style::new().bg(Color::Blue))
        .highlight_style(Style::new().fg(Color::Yellow))
        .highlight_symbol("=>")
        .node_closed_symbol("+ ")
        .node_open_symbol("- ")
        .node_no_children_symbol(". ")
        .render(Area::new(0, 0, 16, 7), &mut buffer, &mut state);
    let expected = Buffer::with_lines([
        "  . Alfa        ",
        "  - Bravo       ",
        "=>  . Charlie   ",
        "    + Delta     ",
        "    . Golf      ",
        "  . Hotel       ",
        "                ",
    ]);
    assert_eq!(plain(&buffer), expected);
    assert_eq!(buffer[(15, 6)].bg, Color::Blue);
    assert_eq!(buffer[(0, 2)].fg, Color::Yellow);
    assert_eq!(buffer[(15, 2)].fg, Color::Yellow);
    assert_eq!(buffer[(0, 1)].fg, Color::Reset);
}

#[test]
fn a_wide_highlight_symbol_shifts_by_its_width() {
    let items = example();
    let mut state = TreeState::default();
    state.select(vec!["h"]);
    let mut buffer = Buffer::empty(Rect::new(0, 0, 12, 3));
    Tree::new(&items).highlight_symbol("選").render(Area::new(0, 0, 12, 3), &mut buffer, &mut state);
    assert_eq!(buffer[(4, 0)].symbol(), "A");
    assert_eq!(buffer[(0, 2)].symbol(), "選");
    assert_eq!(buffer[(4, 2)].symbol(), "H");
    assert_eq!(blanks(3), "   ");
    assert_eq!(blanks(0), "");
}

#[test]
fn rows_end_at_the_right_edge() {
    let items = example();
    let mut state = TreeState::default();
    state.open(vec!["b"]);
    state.open(vec!["b", "d"]);
    state.select(vec!["a"]);
    let mut buffer = Buffer::empty(Rect::new(0, 0, 5, 8));
    Tree::new(&items).highlight_symbol("123456").render(Area::new(0, 0, 5, 8), &mut buffer, &mut state);
    let expected = Buffer::with_lines([
        "12345", "     ", "     ", "     ", "     ", "     ", "     ", "     ",
    ]);
    assert_eq!(plain(&buffer), expected);
    let mut state = TreeState::default();
    state.open(vec!["b"]);
    state.open(vec!["b", "d"]);
    let mut buffer = Buffer::empty(Rect::new(0, 0, 5, 8));
    Tree::new(&items).render(Area::new(0, 0, 5, 8), &mut buffer, &mut state);
    let expected = Buffer::with_lines([
        "  Alf", "▼ Bra", "    C", "  ▼ D", "     ", "     ", "    G", "  Hot",
    ]);
    assert_eq!(plain(&buffer), expected);
}

#[test]
fn the_height_of_all_nodes() {
    let items = vec![
        TreeItem::new_leaf(0_usize, "zero"),
        TreeItem::new(1, "one\nmore", vec![TreeItem::new_leaf(0, "a\nb\nc")]).unwrap(),
    ];
    let mut open = OpenSet::new();
    assert_eq!(items.total_required_height(&open), 3);
    open.insert(vec![1]);
    assert_eq!(items.total_required_height(&open), 6);
    let nothing: Vec<TreeItem<'static, usize>> = Vec::new();
    assert_eq!(nothing.total_required_height(&open), 0);
}

#[test]
fn areas() {
    assert_eq!(Area::new(1, 2, 3, 4), Area { x: 1, y: 2, width: 3, height: 4 });
    assert_eq!(Area::new(65_530, 2, 10, 4).width, 5);
    assert_eq!(Area::new(1, 65_535, 3, 4).height, 0);
    assert_eq!(Area::zero(), Area::new(0, 0, 0, 0));
    let area = Area::new(2, 3, 4, 5);
    assert_eq!((area.right(), area.bottom()), (6, 8));
    assert!(area.contains(Position::new(2, 3)));
    assert!(area.contains(Position::new(5, 7)));
    assert!(!area.contains(Position::new(6, 7)));
    assert!(!area.contains(Position::new(5, 8)));
    assert!(!area.contains(Position::new(1, 3)));
    assert!(!area.is_empty());
    assert!(Area::new(2, 3, 0, 5).is_empty());
    assert_eq!(area.intersection(Area::new(4, 0, 10, 5)), Area::new(4, 3, 2, 2));
    assert!(area.intersection(Area::new(6, 3, 4, 5)).is_empty());
    let far = Area { x: 65_535, y: 0, width: 10, height: 1 };
    assert_eq!(far.right(), 65_535);
    assert!(!far.contains(Position::new(65_535, 0)));
}

#[test]
fn areas_are_cut_before_the_last_column() {
    let area = Area::new(2, 3, 4, 5);
    assert_eq!(area.cut_at_edge(), area);
    assert_eq!(Area::new(65_530, 1, 4, 2).cut_at_edge(), Area::new(65_530, 1, 4, 2));
    assert_eq!(Area::new(65_530, 1, 5, 2).cut_at_edge(), Area::new(65_530, 1, 4, 2));
    assert_eq!(Area::new(65_534, 1, 1, 2).cut_at_edge(), Area::new(65_534, 1, 0, 2));
    let last = Area { x: 65_535, y: 1, width: 3, height: 2 };
    assert_eq!(last.cut_at_edge(), Area { x: 65_535, y: 1, width: 0, height: 2 });
    assert_eq!(Area::new(0, 0, 65_535, 1).cut_at_edge(), Area::new(0, 0, 65_534, 1));

    let buffer = Buffer::empty(Rect::new(2, 2, 10, 4));
    assert_eq!(clipped(Area::new(0, 0, 5, 5), &buffer), Area::new(2, 2, 3, 3));
    assert_eq!(clipped(Area::new(4, 3, 50, 50), &buffer), Area::new(4, 3, 8, 3));
    assert!(clipped(Area::new(12, 2, 5, 5), &buffer).is_empty());
    let buffer = Buffer::empty(Rect::new(65_530, 0, 5, 2));
    assert_eq!(clipped(Area::new(65_000, 0, 535, 9), &buffer), Area::new(65_530, 0, 4, 2));
}

#[test]
fn a_surface_that_reaches_the_last_column() {
    let items = example();
    let mut state = TreeState::default();
    state.select(vec!["b"]);
    let mut buffer = Buffer::empty(Rect::new(65_528, 0, 7, 3));
    Tree::new(&items).highlight_symbol(">").render(
        Area::new(65_528, 0, 7, 3),
        &mut buffer,
        &mut state,
    );
    let row = |y: u16| (65_528..65_535).map(|x| buffer[(x, y)].symbol()).collect::<String>();
    assert_eq!(row(0), "   Alf ");
    assert_eq!(row(1), ">▶ Bra ");
    assert_eq!(row(2), "   Hot ");
    assert_eq!(state.rendered_at(Position::new(65_533, 1)), Some(&["b"][..]));
    assert_eq!(state.rendered_at(Position::new(65_534, 1)), None);

    let mut buffer = Buffer::empty(Rect::new(65_528, 0, 7, 3));
    Tree::new(&items)
        .block(Block::bordered().title("Tree"))
        .experimental_scrollbar(Some(Scrollbar::new(ScrollbarOrientation::VerticalRight)))
        .render(Area::new(65_528, 0, 7, 3), &mut buffer, &mut state);
    let row = |y: u16| (65_528..65_535).map(|x| buffer[(x, y)].symbol()).collect::<String>();
    assert!(row(0).starts_with("┌Tree"));
    assert!(row(2).starts_with("└───"));
    assert!(row(0).ends_with(' '));
    assert!(row(1).ends_with(' '));
    assert!(row(2).ends_with(' '));
}

#[test]
fn a_copy_of_the_widget_draws_the_same() {
    let items = example();
    let tree = Tree::new(&items)
        .block(Block::bordered().title("Tree"))
        .experimental_scrollbar(Some(Scrollbar::new(ScrollbarOrientation::VerticalRight)))
        .highlight_style(Style::new().fg(Color::Red))
        .highlight_symbol(">>")
        .node_closed_symbol("+ ")
        .node_open_symbol("- ")
        .node_no_children_symbol(". ");
    let copy = tree.clone();
    let draw = |tree: Tree<'_, Vec<TreeItem<'static, &'static str>>>| {
        let mut state = TreeState::default();
        state.open(vec!["b"]);
        state.select(vec!["b", "c"]);
        let mut buffer = Buffer::empty(Rect::new(0, 0, 16, 6));
        tree.render(Area::new(0, 0, 16, 6), &mut buffer, &mut state);
        buffer
    };
    let drawn = draw(copy);
    assert_eq!(drawn, draw(tree));
    let row = |y: u16| (0..16).map(|x| drawn[(x, y)].symbol()).collect::<String>();
    assert_eq!(row(0), "┌Tree──────────┐");
    assert!(row(2).starts_with("│  - Bravo"));
    assert!(row(3).starts_with("│>>  . Charl"));
}

#[test]
fn items_are_drawn_where_there_is_room() {
    let items = example();
    let mut buffer = Buffer::empty(Rect::new(0, 0, 6, 2));
    render_item(&items[1], Area::new(2, 1, 20, 20), &mut buffer);
    let row = |buffer: &Buffer, y: u16| (0..6).map(|x| buffer[(x, y)].symbol()).collect::<String>();
    assert_eq!(row(&buffer, 0), "      ");
    assert_eq!(row(&buffer, 1), "  Brav");
    render_item(&items[0], Area::new(6, 0, 3, 1), &mut buffer);
    render_item(&items[0], Area::new(0, 2, 3, 1), &mut buffer);
    assert_eq!(row(&buffer, 0), "      ");
    assert_eq!(row(&buffer, 1), "  Brav");

    let mut buffer = Buffer::empty(Rect::new(0, 0, 6, 2));
    render_node(&items, &["b", "d", "f"], Area::new(1, 0, 20, 1), &mut buffer);
    assert_eq!(row(&buffer, 0), " Foxtr");
    render_node(&items, &["b", "x"], Area::new(0, 1, 6, 1), &mut buffer);
    assert_eq!(row(&buffer, 1), "      ");
    render_node(&items, &["a"], Area::new(0, 5, 6, 1), &mut buffer);
    assert_eq!(row(&buffer, 0), " Foxtr");
    assert_eq!(row(&buffer, 1), "      ");

    let mut buffer = Buffer::empty(Rect::new(65_530, 0, 5, 1));
    render_item(&items[0], Area::new(65_531, 0, 4, 1), &mut buffer);
    let row = (65_530..65_535).map(|x| buffer[(x, 0)].symbol()).collect::<String>();
    assert_eq!(row, " Alf ");
}
