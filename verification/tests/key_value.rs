use ratatui::buffer::Buffer;
use ratatui::layout::Rect;
use tui_tree_widget::key_value_tree_item::{get_nodes, render};
use tui_tree_widget::surface::Area;
use tui_tree_widget::{KeyValueTreeItem, Node, OpenSet, TreeItem};

fn example() -> TreeItem<'static, u8> {
    TreeItem::new(
        0,
        "root",
        vec![
            TreeItem::new_leaf(7, "seven"),
            TreeItem::new(
                3,
                "three",
                vec![TreeItem::new_leaf(7, "deep\nseven"), TreeItem::new_leaf(1, "one")],
            )
            .unwrap(),
            TreeItem::new_leaf(5, "five"),
        ],
    )
    .unwrap()
}

fn node(identifier: Vec<u8>, has_children: bool, height: usize) -> Node<u8> {
    Node { depth: identifier.len().saturating_sub(1), has_children, height, identifier }
}

#[test]
fn key_value_nodes_below_open_paths() {
    let root = example();
    let mut open = OpenSet::new();
    assert_eq!(
        get_nodes(&root, &open),
        [node(vec![7], false, 1), node(vec![3], true, 1), node(vec![5], false, 1)]
    );
    open.insert(vec![3]);
    open.insert(vec![7]);
    assert_eq!(
        get_nodes(&root, &open),
        [
            node(vec![7], false, 1),
            node(vec![3], true, 1),
            node(vec![3, 7], false, 2),
            node(vec![3, 1], false, 1),
            node(vec![5], false, 1),
        ]
    );
}

#[test]
fn key_value_without_values_is_a_single_node() {
    let alone = TreeItem::new_leaf(9_u8, "a\nb\nc");
    assert_eq!(get_nodes(&alone, &OpenSet::new()), [node(vec![], false, 3)]);
}

#[test]
fn key_value_lookups() {
    let root = example();
    assert!(KeyValueTreeItem::has_children(&root));
    assert!(!KeyValueTreeItem::has_children(&TreeItem::new_leaf(9_u8, "alone")));
    assert_eq!(root.keys_below(), [7, 3, 5]);
    assert_eq!(KeyValueTreeItem::height(root.get_value(&3).unwrap()), 1);
    assert_eq!(root.get_value(&3).unwrap().keys_below(), [7, 1]);
    assert!(root.get_value(&1).is_none());
    assert_eq!(KeyValueTreeItem::height(root.get_value_deep(&[3, 7]).unwrap()), 2);
    assert_eq!(root.get_value_deep(&[]).unwrap().keys_below(), [7, 3, 5]);
    assert!(root.get_value_deep(&[7, 1]).is_none());
    let children = root.get_children();
    let keys = children.iter().map(|(key, value)| (*key, value.keys_below().len())).collect::<Vec<_>>();
    assert_eq!(keys, [(7, 0), (3, 2), (5, 0)]);
}

#[test]
fn key_value_render_goes_to_the_value() {
    let root = example();
    let mut buffer = Buffer::empty(Rect::new(0, 0, 8, 2));
    render(&root, &[3, 1], Area::new(0, 0, 8, 1), &mut buffer);
    render(&root, &[3, 9], Area::new(0, 1, 8, 1), &mut buffer);
    assert_eq!(buffer, Buffer::with_lines(["one     ", "        "]));
    render(&root, &[], Area::new(0, 1, 8, 1), &mut buffer);
    assert_eq!(buffer, Buffer::with_lines(["one     ", "root    "]));
}
