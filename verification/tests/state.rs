use tui_tree_widget::{State, TreeItem};

fn example() -> Vec<TreeItem<'static, &'static str>> {
    vec![
        TreeItem::new_leaf("a", "Alfa"),
        TreeItem::new(
            "b",
            "Bravo",
            vec![
                TreeItem::new_leaf("c", "Charlie"),
                TreeItem::new(
                    "d",
                    "Delta",
                    vec![TreeItem::new_leaf("e", "Echo"), TreeItem::new_leaf("f", "Foxtrot")],
                )
                .expect("all item identifiers are unique"),
                TreeItem::new_leaf("g", "Golf"),
            ],
        )
        .expect("all item identifiers are unique"),
        TreeItem::new_leaf("h", "Hotel"),
    ]
}

#[test]
fn state_begins_empty() {
    let state = State::<&'static str>::default();
    assert_eq!(state.get_offset(), 0);
    assert!(state.get_all_opened().is_empty());
    assert!(state.selected().is_empty());
}

#[test]
fn state_flattens_by_what_is_open() {
    let items = example();
    let mut state = State::default();
    let last = |state: &State<&'static str>| {
        state
            .flatten(&items)
            .into_iter()
            .map(|node| *node.identifier.last().unwrap())
            .collect::<Vec<_>>()
    };
    assert_eq!(last(&state), ["a", "b", "h"]);
    assert!(state.open(vec!["b"]));
    assert!(!state.open(vec!["b"]));
    assert!(!state.open(vec![]));
    assert_eq!(last(&state), ["a", "b", "c", "d", "g", "h"]);
    state.toggle(vec!["b", "d"]);
    assert_eq!(last(&state), ["a", "b", "c", "d", "e", "f", "g", "h"]);
    state.toggle(vec!["b", "d"]);
    assert_eq!(last(&state), ["a", "b", "c", "d", "g", "h"]);
    state.toggle(vec![]);
    assert_eq!(state.get_all_opened(), [vec!["b"]]);
    assert!(state.close(&["b"]));
    assert!(!state.close(&["b"]));
    state.open(vec!["b"]);
    state.close_all();
    assert!(state.get_all_opened().is_empty());
}

#[test]
fn state_selects_among_the_visible() {
    let items = example();
    let mut state = State::default();
    state.open(vec!["b"]);
    assert!(state.select_first(&items));
    assert_eq!(state.selected(), ["a"]);
    assert!(!state.select_first(&items));
    assert!(state.select_last(&items));
    assert_eq!(state.selected(), ["h"]);
    assert!(state.select_visible_index(&items, 2));
    assert_eq!(state.selected(), ["b", "c"]);
    assert!(state.select_visible_index(&items, 17));
    assert_eq!(state.selected(), ["h"]);
    assert!(state.select_visible_relative(&items, |current| current.map_or(0, |current| current - 2)));
    assert_eq!(state.selected(), ["b", "d"]);
    assert!(state.select(vec![]));
    assert!(!state.select(vec![]));
    let none: Vec<TreeItem<'static, &'static str>> = Vec::new();
    assert!(!state.select_first(&none));
    assert!(!state.select_last(&none));
    assert!(!state.select_visible_index(&none, 3));
}

#[test]
fn state_keys() {
    let items = example();
    let mut state = State::default();
    state.key_down(&items);
    assert_eq!(state.selected(), ["a"]);
    state.key_down(&items);
    assert_eq!(state.selected(), ["b"]);
    state.key_right();
    assert_eq!(state.get_all_opened(), [vec!["b"]]);
    state.key_down(&items);
    assert_eq!(state.selected(), ["b", "c"]);
    state.key_up(&items);
    state.key_up(&items);
    state.key_up(&items);
    assert_eq!(state.selected(), ["a"]);
    state.select(vec![]);
    state.key_up(&items);
    assert_eq!(state.selected(), ["h"]);
    state.key_down(&items);
    assert_eq!(state.selected(), ["h"]);
    state.select(vec!["b", "d"]);
    state.key_left();
    assert_eq!(state.selected(), ["b"]);
    state.key_left();
    assert_eq!(state.selected(), ["b"]);
    assert!(state.get_all_opened().is_empty());
    state.key_left();
    assert!(state.selected().is_empty());
    state.key_left();
    state.key_right();
    assert!(state.get_all_opened().is_empty());
    state.select(vec!["b"]);
    state.toggle_selected();
    assert_eq!(state.get_all_opened(), [vec!["b"]]);
    state.toggle_selected();
    assert!(state.get_all_opened().is_empty());
}

#[test]
fn state_scrolls_without_a_limit() {
    let mut state = State::<usize>::default();
    state.scroll_up(3);
    assert_eq!(state.get_offset(), 0);
    state.scroll_down(3);
    assert_eq!(state.get_offset(), 3);
    state.scroll_down(usize::MAX);
    assert_eq!(state.get_offset(), usize::MAX);
    state.scroll_up(1);
    assert_eq!(state.get_offset(), usize::MAX - 1);
    state.scroll_selected_into_view();
    assert_eq!(state.get_offset(), usize::MAX - 1);
}

#[test]
fn a_copy_of_the_state_stands_alone() {
    let mut state = State::default();
    state.open(vec!["b"]);
    state.select(vec!["b", "c"]);
    state.scroll_down(2);
    let mut copy = state.clone();
    assert_eq!(copy.get_offset(), 2);
    assert_eq!(copy.get_all_opened(), [vec!["b"]]);
    assert_eq!(copy.selected(), ["b", "c"]);
    copy.open(vec!["b", "d"]);
    copy.select(vec!["a"]);
    copy.scroll_up(1);
    assert_eq!(state.get_offset(), 2);
    assert_eq!(state.get_all_opened(), [vec!["b"]]);
    assert_eq!(state.selected(), ["b", "c"]);
    assert_eq!(copy.get_all_opened().len(), 2);
}
