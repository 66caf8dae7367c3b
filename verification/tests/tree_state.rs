use ratatui::buffer::Buffer;
use ratatui::layout::Rect;
use tui_tree_widget::surface::{Area, Position};
use tui_tree_widget::{Tree, TreeItem, TreeState};

fn example() -> Vec<TreeItem<'static, &'static str>> {
    vec![
        TreeItem::new_leaf("a", "Alfa"),
        TreeItem::new(
            "b",
            "Bravo",
            vec![
                TreeItem::new_leaf("c", "Charlie"),
                TreeItem::new(
                    "d",
                    "Delta",
                    vec![TreeItem::new_leaf("e", "Echo"), TreeItem::new_leaf("f", "Foxtrot")],
                )
                .expect("all item identifiers are unique"),
                TreeItem::new_leaf("g", "Golf"),
            ],
        )
        .expect("all item identifiers are unique"),
        TreeItem::new_leaf("h", "Hotel"),
    ]
}

fn render_at(x: u16, y: u16, width: u16, height: u16, state: &mut TreeState<&'static str>) -> Buffer {
    let items = example();
    let mut buffer = Buffer::empty(Rect::new(0, 0, 20, 20));
    Tree::new(&items).render(Area::new(x, y, width, height), &mut buffer, state);
    buffer
}

fn render(width: u16, height: u16, state: &mut TreeState<&'static str>) -> Buffer {
    render_at(0, 0, width, height, state)
}

#[test]
fn a_new_state_is_empty() {
    let state = TreeState::<usize>::default();
    assert_eq!(state.get_offset(), 0);
    assert!(state.selected().is_empty());
    assert!(state.get_all_opened().is_empty());
    assert!(state.opened().is_empty());
    assert_eq!(state.rendered_at(Position::new(0, 0)), None);
}

#[test]
fn key_down_walks_through_the_nodes() {
    let mut state = TreeState::default();
    _ = render(10, 10, &mut state);
    assert!(state.selected().is_empty());
    assert!(state.key_down());
    assert_eq!(state.selected(), ["a"]);
    assert!(state.key_down());
    assert_eq!(state.selected(), ["b"]);
    assert!(state.key_down());
    assert_eq!(state.selected(), ["h"]);
    assert!(!state.key_down());
    assert_eq!(state.selected(), ["h"]);
    assert!(!state.key_down());
    assert_eq!(state.selected(), ["h"]);
}

#[test]
fn key_up_walks_back() {
    let mut state = TreeState::default();
    state.open(vec!["b"]);
    _ = render(10, 10, &mut state);
    assert!(state.key_up());
    assert_eq!(state.selected(), ["h"]);
    assert!(state.key_up());
    assert_eq!(state.selected(), ["b", "g"]);
    state.select(vec!["b"]);
    assert!(state.key_up());
    assert_eq!(state.selected(), ["a"]);
    assert!(!state.key_up());
    assert_eq!(state.selected(), ["a"]);
}

#[test]
fn keys_before_any_render_select_nothing() {
    let mut state = TreeState::<&'static str>::default();
    assert!(!state.key_down());
    assert!(state.selected().is_empty());
    assert!(!state.key_up());
    assert!(!state.select_first());
    assert!(!state.select_last());
    state.select(vec!["a"]);
    assert!(state.key_down());
    assert!(state.selected().is_empty());
}

#[test]
fn navigation_goes_by_the_last_render() {
    let mut state = TreeState::default();
    _ = render(10, 10, &mut state);
    state.open(vec!["b"]);
    state.select(vec!["b"]);
    // the children of b were not rendered yet
    assert!(state.key_down());
    assert_eq!(state.selected(), ["h"]);
    _ = render(10, 10, &mut state);
    state.select(vec!["b"]);
    assert!(state.key_down());
    assert_eq!(state.selected(), ["b", "c"]);
}

#[test]
fn open_tells_whether_it_opened() {
    let mut state = TreeState::default();
    assert!(state.open(vec!["b"]));
    assert!(!state.open(vec!["b"]));
    assert!(!state.open(vec![]));
    assert_eq!(state.get_all_opened(), [vec!["b"]]);
    assert!(state.opened().contains(&["b"]));
    let buffer = render(13, 7, &mut state);
    let expected = Buffer::with_lines([
        "  Alfa       ",
        "▼ Bravo      ",
        "    Charlie  ",
        "  ▶ Delta    ",
        "    Golf     ",
        "  Hotel      ",
        "             ",
    ]);
    let mut shown = Buffer::empty(Rect::new(0, 0, 13, 7));
    for y in 0..7 {
        for x in 0..13 {
            shown[(x, y)] = buffer[(x, y)].clone();
        }
    }
    assert_eq!(shown, expected);
}

#[test]
fn close_and_toggle() {
    let mut state = TreeState::default();
    assert!(!state.close(&["b"]));
    assert!(state.toggle(vec!["b"]));
    assert!(state.opened().contains(&["b"]));
    assert!(state.toggle(vec!["b"]));
    assert!(!state.opened().contains(&["b"]));
    assert!(!state.toggle(vec![]));
    assert!(state.opened().is_empty());
    state.open(vec!["b"]);
    state.open(vec!["b", "d"]);
    assert!(state.close(&["b"]));
    assert_eq!(state.get_all_opened(), [vec!["b", "d"]]);
    assert!(state.close_all());
    assert!(!state.close_all());
    assert!(state.get_all_opened().is_empty());
}

#[test]
fn toggle_selected_needs_a_selection() {
    let mut state = TreeState::default();
    assert!(!state.toggle_selected());
    state.select(vec!["b"]);
    assert!(state.toggle_selected());
    assert!(state.opened().contains(&["b"]));
    assert!(state.toggle_selected());
    assert!(state.opened().is_empty());
}

#[test]
fn select_tells_whether_it_changed() {
    let mut state = TreeState::default();
    assert!(state.select(vec!["b", "c"]));
    assert!(!state.select(vec!["b", "c"]));
    assert_eq!(state.selected(), ["b", "c"]);
    assert!(state.select(vec![]));
    assert!(!state.select(vec![]));
    assert!(state.selected().is_empty());
}

#[test]
fn select_first_last_and_by_index() {
    let mut state = TreeState::default();
    state.open(vec!["b"]);
    _ = render(10, 10, &mut state);
    assert!(state.select_last());
    assert_eq!(state.selected(), ["h"]);
    assert!(state.select_first());
    assert_eq!(state.selected(), ["a"]);
    assert!(!state.select_first());
    assert!(state.select_visible_index(3));
    assert_eq!(state.selected(), ["b", "d"]);
    assert!(state.select_visible_index(1000));
    assert_eq!(state.selected(), ["h"]);
    assert!(state.select_relative(|current| current.map_or(0, |current| current - 3)));
    assert_eq!(state.selected(), ["b", "c"]);
    assert!(state.select_visible_relative(|current| current.map_or(0, |current| current * 2)));
    assert_eq!(state.selected(), ["b", "g"]);
    state.select(vec!["nowhere"]);
    assert!(state.select_relative(|current| current.map_or(1, |_| 0)));
    assert_eq!(state.selected(), ["b"]);
}

#[test]
fn key_left_closes_or_goes_to_the_parent() {
    let mut state = TreeState::default();
    assert!(!state.key_left());
    state.open(vec!["b"]);
    state.select(vec!["b"]);
    assert!(state.key_left());
    assert!(state.opened().is_empty());
    assert_eq!(state.selected(), ["b"]);
    assert!(state.key_left());
    assert!(state.selected().is_empty());
    state.select(vec!["b", "d", "e"]);
    assert!(state.key_left());
    assert_eq!(state.selected(), ["b", "d"]);
}

#[test]
fn key_right_opens_the_selected() {
    let mut state = TreeState::default();
    assert!(!state.key_right());
    state.select(vec!["b"]);
    assert!(state.key_right());
    assert!(!state.key_right());
    assert_eq!(state.get_all_opened(), [vec!["b"]]);
}

#[test]
fn scrolling() {
    let mut state = TreeState::default();
    state.open(vec!["b"]);
    state.open(vec!["b", "d"]);
    assert!(!state.scroll_up(1));
    // nothing was rendered yet: the last node is the first
    assert!(state.scroll_down(1));
    assert_eq!(state.get_offset(), 0);
    _ = render(10, 3, &mut state);
    assert!(state.scroll_down(2));
    assert_eq!(state.get_offset(), 2);
    assert!(state.scroll_down(100));
    assert_eq!(state.get_offset(), 7);
    assert!(state.scroll_down(1));
    assert_eq!(state.get_offset(), 7);
    assert!(state.scroll_down(usize::MAX));
    assert_eq!(state.get_offset(), 7);
    assert!(state.scroll_up(3));
    assert_eq!(state.get_offset(), 4);
    assert!(!state.scroll_up(0));
    assert!(state.scroll_up(usize::MAX));
    assert_eq!(state.get_offset(), 0);
    assert!(!state.scroll_up(1));
}

#[test]
fn render_scrolls_to_the_offset() {
    let mut state = TreeState::default();
    state.open(vec!["b"]);
    state.open(vec!["b", "d"]);
    _ = render(15, 3, &mut state);
    state.scroll_down(4);
    let buffer = render(15, 3, &mut state);
    assert_eq!(state.get_offset(), 4);
    assert_eq!(buffer[(6, 0)].symbol(), "E");
    assert_eq!(buffer[(6, 1)].symbol(), "F");
    assert_eq!(buffer[(4, 2)].symbol(), "G");
}

#[test]
fn render_holds_the_offset_within_the_list() {
    let mut state = TreeState::default();
    state.open(vec!["b"]);
    state.open(vec!["b", "d"]);
    _ = render(15, 3, &mut state);
    state.scroll_down(7);
    assert_eq!(state.get_offset(), 7);
    state.close_all();
    let buffer = render(15, 3, &mut state);
    assert_eq!(state.get_offset(), 2);
    assert_eq!(buffer[(2, 0)].symbol(), "H");
    assert_eq!(buffer[(2, 1)].symbol(), " ");
}

#[test]
fn render_keeps_the_selected_in_view() {
    let mut state = TreeState::default();
    state.open(vec!["b"]);
    state.open(vec!["b", "d"]);
    state.select(vec!["b", "g"]);
    let buffer = render(15, 3, &mut state);
    // nodes 4 to 6 are drawn: Echo, Foxtrot, Golf
    assert_eq!(state.get_offset(), 4);
    assert_eq!(buffer[(4, 2)].symbol(), "G");
    state.select(vec!["a"]);
    _ = render(15, 3, &mut state);
    assert_eq!(state.get_offset(), 0);
    // without a new selection the view stays where it is scrolled to
    state.scroll_down(5);
    _ = render(15, 3, &mut state);
    assert_eq!(state.get_offset(), 5);
    state.scroll_selected_into_view();
    _ = render(15, 3, &mut state);
    assert_eq!(state.get_offset(), 0);
}

#[test]
fn a_selection_that_is_not_shown_changes_nothing() {
    let mut state = TreeState::default();
    state.select(vec!["b", "d", "e"]);
    let buffer = render(13, 4, &mut state);
    assert_eq!(state.get_offset(), 0);
    assert_eq!(state.selected(), ["b", "d", "e"]);
    // the rows are shifted by the empty highlight symbol only
    assert_eq!(buffer[(2, 0)].symbol(), "A");
}

#[test]
fn click_selects_then_toggles() {
    let mut state = TreeState::default();
    _ = render(10, 4, &mut state);
    assert!(state.click_at(Position::new(3, 1)));
    assert_eq!(state.selected(), ["b"]);
    assert!(state.opened().is_empty());
    assert!(state.click_at(Position::new(0, 1)));
    assert_eq!(state.selected(), ["b"]);
    assert!(state.opened().contains(&["b"]));
    assert!(state.click_at(Position::new(9, 0)));
    assert_eq!(state.selected(), ["a"]);
    // nothing was rendered in the row below the last node
    assert_eq!(state.rendered_at(Position::new(0, 3)), None);
    assert!(!state.click_at(Position::new(0, 3)));
    assert_eq!(state.selected(), ["a"]);
    assert_eq!(state.rendered_at(Position::new(0, 2)), Some(&["h"][..]));
    // outside of the area
    assert!(!state.click_at(Position::new(10, 1)));
    assert!(!state.click_at(Position::new(0, 4)));
    assert_eq!(state.rendered_at(Position::new(0, 4)), None);
    assert_eq!(state.selected(), ["a"]);
}

#[test]
fn click_goes_by_the_rendered_rows() {
    let mut state = TreeState::default();
    state.open(vec!["b"]);
    _ = render_at(2, 3, 12, 4, &mut state);
    state.scroll_down(2);
    _ = render_at(2, 3, 12, 4, &mut state);
    assert_eq!(state.rendered_at(Position::new(2, 3)), Some(&["b", "c"][..]));
    assert_eq!(state.rendered_at(Position::new(13, 6)), Some(&["h"][..]));
    assert_eq!(state.rendered_at(Position::new(1, 3)), None);
    assert_eq!(state.rendered_at(Position::new(2, 2)), None);
    assert_eq!(state.rendered_at(Position::new(14, 3)), None);
    assert_eq!(state.rendered_at(Position::new(2, 7)), None);
}

#[test]
fn a_render_without_room_forgets_the_rows() {
    let mut state = TreeState::default();
    _ = render(10, 4, &mut state);
    assert!(state.rendered_at(Position::new(0, 0)).is_some());
    _ = render(10, 0, &mut state);
    assert!(state.rendered_at(Position::new(0, 0)).is_none());
    // the nodes of the last render that showed some are still known
    assert!(state.key_down());
    assert_eq!(state.selected(), ["a"]);
}

#[test]
fn rows_of_several_lines() {
    let items = vec![
        TreeItem::new_leaf(0_usize, "zero"),
        TreeItem::new_leaf(1, "one\nmore"),
        TreeItem::new_leaf(2, "two\nmore\nlines"),
        TreeItem::new_leaf(3, "three"),
    ];
    let mut state = TreeState::default();
    let mut buffer = Buffer::empty(Rect::new(0, 0, 8, 4));
    Tree::new(&items).render(Area::new(0, 0, 8, 4), &mut buffer, &mut state);
    let expected = Buffer::with_lines(["  zero  ", "  one   ", "  more  ", "        "]);
    assert_eq!(buffer, expected);
    assert_eq!(state.rendered_at(Position::new(0, 0)), Some(&[0][..]));
    assert_eq!(state.rendered_at(Position::new(0, 1)), Some(&[1][..]));
    assert_eq!(state.rendered_at(Position::new(0, 2)), Some(&[1][..]));
    assert_eq!(state.rendered_at(Position::new(0, 3)), None);

    state.select(vec![2]);
    let mut buffer = Buffer::empty(Rect::new(0, 0, 8, 4));
    Tree::new(&items).render(Area::new(0, 0, 8, 4), &mut buffer, &mut state);
    let expected = Buffer::with_lines(["  two   ", "  more  ", "  lines ", "        "]);
    assert_eq!(buffer, expected);
    assert_eq!(state.get_offset(), 2);

    state.select(vec![3]);
    let mut buffer = Buffer::empty(Rect::new(0, 0, 8, 4));
    Tree::new(&items).render(Area::new(0, 0, 8, 4), &mut buffer, &mut state);
    let expected = Buffer::with_lines(["  two   ", "  more  ", "  lines ", "  three "]);
    assert_eq!(buffer, expected);
    assert_eq!(state.get_offset(), 2);
}

#[test]
fn a_node_taller_than_the_area_is_not_drawn() {
    let items = vec![TreeItem::new_leaf(0_usize, "zero"), TreeItem::new_leaf(1, "a\nb\nc")];
    let mut state = TreeState::default();
    state.select(vec![1]);
    let mut buffer = Buffer::empty(Rect::new(0, 0, 8, 2));
    Tree::new(&items).render(Area::new(0, 0, 8, 2), &mut buffer, &mut state);
    assert_eq!(buffer, Buffer::empty(Rect::new(0, 0, 8, 2)));
    assert_eq!(state.get_offset(), 2);
    assert_eq!(state.rendered_at(Position::new(0, 0)), None);
    // the next render holds the offset to the list again
    state.select(vec![0]);
    Tree::new(&items).render(Area::new(0, 0, 8, 2), &mut buffer, &mut state);
    assert_eq!(state.get_offset(), 0);
}

#[test]
fn an_area_beside_the_grid_is_cut() {
    let items = example();
    let mut state = TreeState::default();
    let mut buffer = Buffer::empty(Rect::new(0, 0, 6, 2));
    Tree::new(&items).render(Area::new(2, 1, 10, 10), &mut buffer, &mut state);
    let expected = Buffer::with_lines(["      ", "    Al"]);
    assert_eq!(buffer, expected);
    assert_eq!(state.rendered_at(Position::new(5, 1)), Some(&["a"][..]));
    assert_eq!(state.rendered_at(Position::new(6, 1)), None);
    let mut buffer = Buffer::empty(Rect::new(0, 0, 6, 2));
    Tree::new(&items).render(Area::new(6, 2, 10, 10), &mut buffer, &mut state);
    assert_eq!(buffer, Buffer::empty(Rect::new(0, 0, 6, 2)));
}

#[test]
fn a_click_on_a_blank_row_changes_nothing() {
    let mut state = TreeState::default();
    _ = render(10, 4, &mut state);
    assert!(!state.click_at(Position::new(0, 3)));
    assert!(state.selected().is_empty());
    assert!(state.click_at(Position::new(0, 2)));
    assert_eq!(state.selected(), ["h"]);
}
