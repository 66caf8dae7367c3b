use tui_tree_widget::generic_tree_item::get_item;
use tui_tree_widget::{unique_identifiers, GenericTreeItem, TreeItem};

#[test]
#[should_panic = "duplicate identifiers"]
fn tree_item_tree_item_new_errors_with_duplicate_identifiers() {
    let item = TreeItem::new_leaf("same", "text");
    let another = item.clone();
    TreeItem::new("root", "Root", vec![item, another]).unwrap();
}

#[test]
#[should_panic = "identifier already exists"]
fn tree_item_add_child_errors_with_duplicate_identifiers() {
    let item = TreeItem::new_leaf("same", "text");
    let another = item.clone();
    let mut root = TreeItem::new("root", "Root", vec![item]).unwrap();
    root.add_child(another).unwrap();
}

#[test]
fn duplicate_children_give_no_item() {
    let item = TreeItem::new_leaf("same", "text");
    let another = TreeItem::new_leaf("same", "other text");
    let result = TreeItem::new("root", "Root", vec![item, another]);
    let error = result.err().expect("two children share an identifier");
    assert_eq!(error.kind(), std::io::ErrorKind::AlreadyExists);
    assert_eq!(error.to_string(), "The children contain duplicate identifiers");
}

#[test]
fn different_children_give_an_item() {
    let children = vec![TreeItem::new_leaf("a", "text"), TreeItem::new_leaf("b", "text")];
    let root = TreeItem::new("root", "Root", children).unwrap();
    assert_eq!(*root.identifier(), "root");
    assert_eq!(root.children().len(), 2);
    assert_eq!(root.height(), 1);
    assert_eq!(*root.child(1).unwrap().identifier(), "b");
    assert!(root.child(2).is_none());
}

#[test]
fn add_child_keeps_the_item_on_error() {
    let mut root = TreeItem::new("root", "Root", vec![TreeItem::new_leaf("a", "text")]).unwrap();
    let error = root.add_child(TreeItem::new_leaf("a", "again")).unwrap_err();
    assert_eq!(error.kind(), std::io::ErrorKind::AlreadyExists);
    assert_eq!(root.children().len(), 1);
    root.add_child(TreeItem::new_leaf("b", "text")).unwrap();
    assert_eq!(root.children().len(), 2);
    assert_eq!(*root.children()[1].identifier(), "b");
}

#[test]
fn unique_identifiers_of_lists() {
    let same = vec![TreeItem::new_leaf(1, "a"), TreeItem::new_leaf(2, "b"), TreeItem::new_leaf(1, "c")];
    let different = vec![TreeItem::new_leaf(1, "a"), TreeItem::new_leaf(2, "b")];
    assert!(unique_identifiers::children(&same).is_err());
    assert!(unique_identifiers::tree(&same).is_err());
    assert!(unique_identifiers::children(&different).is_ok());
    assert!(unique_identifiers::tree(&different).is_ok());
    assert!(unique_identifiers::children::<TreeItem<i32>>(&[]).is_ok());
    assert!(unique_identifiers::add_child(&different, &TreeItem::new_leaf(2, "c")).is_err());
    assert!(unique_identifiers::add_child(&different, &TreeItem::new_leaf(3, "c")).is_ok());
}

#[test]
fn items_are_found_by_their_path() {
    let items = vec![
        TreeItem::new_leaf("a", "Alfa"),
        TreeItem::new(
            "b",
            "Bravo",
            vec![
                TreeItem::new_leaf("c", "Charlie"),
                TreeItem::new("d", "Delta", vec![TreeItem::new_leaf("e", "Echo")]).unwrap(),
            ],
        )
        .unwrap(),
    ];
    assert!(get_item(&items, &[]).is_none());
    assert_eq!(*get_item(&items, &["a"]).unwrap().identifier(), "a");
    assert_eq!(*get_item(&items, &["b", "d", "e"]).unwrap().identifier(), "e");
    assert!(get_item(&items, &["b", "e"]).is_none());
    assert!(get_item(&items, &["x"]).is_none());
    let bravo = &items[1];
    assert_eq!(*bravo.child_direct(&"d").unwrap().identifier(), "d");
    assert!(bravo.child_direct(&"e").is_none());
    assert_eq!(*bravo.child_deep(&["d", "e"]).unwrap().identifier(), "e");
    assert_eq!(*bravo.child_deep(&[]).unwrap().identifier(), "b");
    assert!(bravo.child_deep(&["c", "e"]).is_none());
}

#[test]
fn a_clone_shows_the_same() {
    let item = TreeItem::new("b", "Bravo\nsecond line", vec![TreeItem::new_leaf("c", "Charlie")])
        .unwrap();
    let copy = item.clone();
    assert_eq!(copy.identifier(), item.identifier());
    assert_eq!(copy.height(), 2);
    assert_eq!(copy.children().len(), 1);
    assert_eq!(*copy.children()[0].identifier(), "c");
}
