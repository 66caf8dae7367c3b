use ratatui::buffer::Buffer;
use ratatui::layout::Rect;
use tui_tree_widget::surface::Area;
use tui_tree_widget::{Tree, TreeItem, TreeState};

fn example() -> Vec<TreeItem<'static, &'static str>> {
    vec![
        TreeItem::new_leaf("a", "Alfa"),
        TreeItem::new(
            "b",
            "Bravo",
            vec![
                TreeItem::new_leaf("c", "Charlie"),
                TreeItem::new(
                    "d",
                    "Delta",
                    vec![TreeItem::new_leaf("e", "Echo"), TreeItem::new_leaf("f", "Foxtrot")],
                )
                .expect("all item identifiers are unique"),
                TreeItem::new_leaf("g", "Golf"),
            ],
        )
        .expect("all item identifiers are unique"),
        TreeItem::new_leaf("h", "Hotel"),
    ]
}

fn render(width: u16, height: u16, state: &mut TreeState<&'static str>) -> Buffer {
    let items = example();
    let tree = Tree::new(&items);
    let mut buffer = Buffer::empty(Rect::new(0, 0, width, height));
    tree.render(Area::new(0, 0, width, height), &mut buffer, state);
    buffer
}

#[test]
fn does_not_panic() {
    _ = render(0, 0, &mut TreeState::default());
    _ = render(10, 0, &mut TreeState::default());
    _ = render(0, 10, &mut TreeState::default());
    _ = render(10, 10, &mut TreeState::default());
}

#[test]
fn nothing_open() {
    let buffer = render(10, 4, &mut TreeState::default());
    let expected = Buffer::with_lines([
        "  Alfa    ",
        "▶ Bravo   ",
        "  Hotel   ",
        "          ",
    ]);
    assert_eq!(buffer, expected);
}

#[test]
fn depth_one() {
    let mut state = TreeState::default();
    state.open(vec!["b"]);
    let buffer = render(13, 7, &mut state);
    let expected = Buffer::with_lines([
        "  Alfa       ",
        "▼ Bravo      ",
        "    Charlie  ",
        "  ▶ Delta    ",
        "    Golf     ",
        "  Hotel      ",
        "             ",
    ]);
    assert_eq!(buffer, expected);
}

#[test]
fn depth_two() {
    let mut state = TreeState::default();
    state.open(vec!["b"]);
    state.open(vec!["b", "d"]);
    let buffer = render(15, 9, &mut state);
    let expected = Buffer::with_lines([
        "  Alfa         ",
        "▼ Bravo        ",
        "    Charlie    ",
        "  ▼ Delta      ",
        "      Echo     ",
        "      Foxtrot  ",
        "    Golf       ",
        "  Hotel        ",
        "               ",
    ]);
    assert_eq!(buffer, expected);
}
