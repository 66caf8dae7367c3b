use tui_tree_widget::flatten::flatten;
use tui_tree_widget::{OpenSet, TreeItem};

fn example() -> Vec<TreeItem<'static, &'static str>> {
    vec![
        TreeItem::new_leaf("a", "Alfa"),
        TreeItem::new(
            "b",
            "Bravo",
            vec![
                TreeItem::new_leaf("c", "Charlie"),
                TreeItem::new(
                    "d",
                    "Delta",
                    vec![TreeItem::new_leaf("e", "Echo"), TreeItem::new_leaf("f", "Foxtrot")],
                )
                .expect("all item identifiers are unique"),
                TreeItem::new_leaf("g", "Golf"),
            ],
        )
        .expect("all item identifiers are unique"),
        TreeItem::new_leaf("h", "Hotel"),
    ]
}

fn flatten_works(open: &OpenSet<&'static str>, expected: &[&str]) {
    let items = example();
    let result = flatten(open, &items, &[]);
    let actual = result
        .into_iter()
        .map(|flattened| flattened.identifier.into_iter().last().unwrap())
        .collect::<Vec<_>>();
    assert_eq!(actual, expected);
}

#[test]
fn flatten_depth_works() {
    let mut open = OpenSet::new();
    open.insert(vec!["b"]);
    open.insert(vec!["b", "d"]);
    let depths = flatten(&open, &example(), &[])
        .into_iter()
        .map(|flattened| flattened.depth())
        .collect::<Vec<_>>();
    assert_eq!(depths, [0, 0, 1, 1, 2, 2, 1, 0]);
}

#[test]
fn flatten_nothing_open_is_top_level() {
    let open = OpenSet::new();
    flatten_works(&open, &["a", "b", "h"]);
}

#[test]
fn flatten_wrong_open_is_only_top_level() {
    let mut open = OpenSet::new();
    open.insert(vec!["a"]);
    open.insert(vec!["b", "d"]);
    flatten_works(&open, &["a", "b", "h"]);
}

#[test]
fn flatten_one_is_open() {
    let mut open = OpenSet::new();
    open.insert(vec!["b"]);
    flatten_works(&open, &["a", "b", "c", "d", "g", "h"]);
}

#[test]
fn flatten_all_open() {
    let mut open = OpenSet::new();
    open.insert(vec!["b"]);
    open.insert(vec!["b", "d"]);
    flatten_works(&open, &["a", "b", "c", "d", "e", "f", "g", "h"]);
}

#[test]
fn generic_tree_item_depth_works() {
    let mut open = OpenSet::new();
    open.insert(vec!["b"]);
    open.insert(vec!["b", "d"]);
    let depths = flatten(&open, &example(), &[])
        .into_iter()
        .map(|flattened| flattened.depth)
        .collect::<Vec<_>>();
    assert_eq!(depths, [0, 0, 1, 1, 2, 2, 1, 0]);
}

#[test]
fn nothing_open_is_top_level() {
    let open = OpenSet::new();
    flatten_works(&open, &["a", "b", "h"]);
}

#[test]
fn wrong_open_is_only_top_level() {
    let mut open = OpenSet::new();
    open.insert(vec!["a"]);
    open.insert(vec!["b", "d"]);
    flatten_works(&open, &["a", "b", "h"]);
}

#[test]
fn one_is_open() {
    let mut open = OpenSet::new();
    open.insert(vec!["b"]);
    flatten_works(&open, &["a", "b", "c", "d", "g", "h"]);
}

#[test]
fn all_open() {
    let mut open = OpenSet::new();
    open.insert(vec!["b"]);
    open.insert(vec!["b", "d"]);
    flatten_works(&open, &["a", "b", "c", "d", "e", "f", "g", "h"]);
}

#[test]
fn get_opened_nothing_opened_is_top_level() {
    let opened = OpenSet::new();
    flatten_works(&opened, &["a", "b", "h"]);
}

#[test]
fn get_opened_wrong_opened_is_only_top_level() {
    let mut opened = OpenSet::new();
    opened.insert(vec!["a"]);
    opened.insert(vec!["b", "d"]);
    flatten_works(&opened, &["a", "b", "h"]);
}

#[test]
fn get_opened_one_is_opened() {
    let mut opened = OpenSet::new();
    opened.insert(vec!["b"]);
    flatten_works(&opened, &["a", "b", "c", "d", "g", "h"]);
}

#[test]
fn get_opened_all_opened() {
    let mut opened = OpenSet::new();
    opened.insert(vec!["b"]);
    opened.insert(vec!["b", "d"]);
    flatten_works(&opened, &["a", "b", "c", "d", "e", "f", "g", "h"]);
}

#[test]
fn flatten_below_a_path_starts_deeper() {
    let items = example();
    let mut open = OpenSet::new();
    open.insert(vec!["b", "d"]);
    let bravo = items[1].child(1).unwrap();
    let nodes = flatten(&open, std::slice::from_ref(bravo), &["b"]);
    let paths = nodes.iter().map(|node| node.identifier.clone()).collect::<Vec<_>>();
    assert_eq!(paths, [vec!["b", "d"], vec!["b", "d", "e"], vec!["b", "d", "f"]]);
    let depths = nodes.iter().map(|node| node.depth).collect::<Vec<_>>();
    assert_eq!(depths, [1, 2, 2]);
    assert!(nodes[0].has_children);
    assert!(!nodes[1].has_children);
    assert_eq!(nodes[0].height, 1);
}

#[test]
fn flatten_twice_gives_the_same() {
    let items = example();
    let mut open = OpenSet::new();
    open.insert(vec!["b"]);
    let first = flatten(&open, &items, &[]);
    let second = flatten(&open, &items, &[]);
    assert_eq!(first, second);
}

#[test]
fn flatten_tells_the_height_of_the_text() {
    let items = vec![TreeItem::new_leaf(1_usize, "one\ntwo\nthree"), TreeItem::new_leaf(2, "one")];
    let nodes = flatten(&OpenSet::new(), &items, &[]);
    assert_eq!(nodes[0].height, 3);
    assert_eq!(nodes[1].height, 1);
}
