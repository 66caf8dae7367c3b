use ratatui::buffer::Buffer;
use ratatui::layout::Rect;
use ratatui::style::{Color, Style};
use tui_tree_widget::recursive_select::get_item_mut;
use tui_tree_widget::surface::Area;
use tui_tree_widget::{
    GenericTreeItem, Label, RecursiveSelect, RecursiveSelectMut, SimpleTreeItem, Tree, TreeItem,
    TreeState,
};

fn example() -> Vec<TreeItem<'static, &'static str>> {
    vec![
        TreeItem::new_leaf("a", "Alfa"),
        TreeItem::new(
            "b",
            "Bravo",
            vec![
                TreeItem::new_leaf("c", "Charlie"),
                TreeItem::new("d", "Delta", vec![TreeItem::new_leaf("e", "Echo")]).unwrap(),
            ],
        )
        .unwrap(),
    ]
}

#[test]
fn items_give_their_children() {
    let items = example();
    let bravo = &items[1];
    let delta = RecursiveSelect::child_direct(bravo, &"d").unwrap();
    assert_eq!(*delta.identifier(), "d");
    assert!(RecursiveSelect::child_direct(bravo, &"e").is_none());
    let echo = RecursiveSelect::child_deep(bravo, &["d", "e"]).unwrap();
    assert_eq!(*echo.identifier(), "e");
    assert_eq!(*RecursiveSelect::child_deep(bravo, &[]).unwrap().identifier(), "b");
    assert!(RecursiveSelect::child_deep(bravo, &["d", "x"]).is_none());
}

#[test]
fn children_can_be_changed_where_they_are() {
    let mut items = example();
    {
        let bravo = &mut items[1];
        let charlie = bravo.child_direct_mut(&"c").unwrap();
        charlie.add_child(TreeItem::new_leaf("x", "X-ray")).unwrap();
        assert!(bravo.child_direct_mut(&"x").is_none());
        let delta = bravo.child_deep_mut(&["d"]).unwrap();
        delta.add_child(TreeItem::new_leaf("y", "Yankee")).unwrap();
        assert!(bravo.child_deep_mut(&["d", "z"]).is_none());
        bravo.child_deep_mut(&[]).unwrap().add_child(TreeItem::new_leaf("z", "Zulu")).unwrap();
        bravo.child_mut(0).unwrap().add_child(TreeItem::new_leaf("w", "Whiskey")).unwrap();
        assert!(bravo.child_mut(3).is_none());
    }
    let bravo = &items[1];
    assert_eq!(bravo.children().len(), 3);
    assert_eq!(bravo.children()[0].children().len(), 2);
    assert_eq!(*bravo.children()[0].children()[0].identifier(), "x");
    assert_eq!(*bravo.children()[0].children()[1].identifier(), "w");
    assert_eq!(bravo.children()[1].children().len(), 2);
    assert_eq!(*bravo.children()[2].identifier(), "z");
}

#[test]
fn items_are_found_to_be_changed() {
    let mut items = example();
    assert!(get_item_mut(&mut items, &[]).is_none());
    assert!(get_item_mut(&mut items, &["x"]).is_none());
    assert!(get_item_mut(&mut items, &["b", "e"]).is_none());
    let echo = get_item_mut(&mut items, &["b", "d", "e"]).unwrap();
    echo.add_child(TreeItem::new_leaf("f", "Foxtrot")).unwrap();
    let alfa = get_item_mut(&mut items, &["a"]).unwrap();
    alfa.add_child(TreeItem::new_leaf("g", "Golf")).unwrap();
    assert_eq!(items[0].children().len(), 1);
    assert_eq!(items[1].children()[1].children()[0].children().len(), 1);
}

#[test]
#[should_panic = "duplicate "]
fn simple_tree_item_tree_item_new_errors_with_duplicate_identifiers() {
    let item: SimpleTreeItem = SimpleTreeItem::new_leaf("same");
    let another = SimpleTreeItem::new_leaf("same");
    SimpleTreeItem::new("root", vec![item, another]).unwrap();
}

#[test]
fn simple_items_show_their_text() {
    let items = vec![
        SimpleTreeItem::new_leaf("a"),
        SimpleTreeItem::new(
            "b",
            vec![SimpleTreeItem::new_leaf("c").set_style(Style::new().fg(Color::Red))],
        )
        .unwrap(),
    ];
    assert_eq!(items[1].identifier().as_str(), "b");
    assert_eq!(*items[1].identifier(), Label::new("b"));
    assert_eq!(items[1].height(), 1);
    assert_eq!(items[1].children()[0].style(), Style::new().fg(Color::Red));
    assert_eq!(items[0].style(), Style::new());
    let mut state = TreeState::default();
    state.open(vec![Label::new("b")]);
    let mut buffer = Buffer::empty(Rect::new(0, 0, 6, 3));
    Tree::new(&items).render(Area::new(0, 0, 6, 3), &mut buffer, &mut state);
    assert_eq!(buffer[(4, 2)].symbol(), "c");
    assert_eq!(buffer[(4, 2)].fg, Color::Red);
    assert_eq!(buffer[(2, 1)].symbol(), "b");
    assert_eq!(buffer[(0, 1)].symbol(), "▼");
}

#[test]
fn a_copy_of_a_simple_item_shows_the_same() {
    let item = SimpleTreeItem::new(
        "b",
        vec![
            SimpleTreeItem::new_leaf("c").set_style(Style::new().fg(Color::Red)),
            SimpleTreeItem::new_leaf("d"),
        ],
    )
    .unwrap();
    let copy = item.clone();
    assert_eq!(copy.identifier(), item.identifier());
    assert_eq!(copy.style(), Style::new());
    assert_eq!(copy.children().len(), 2);
    assert_eq!(copy.children()[0].identifier().as_str(), "c");
    assert_eq!(copy.children()[0].style(), Style::new().fg(Color::Red));
    assert_eq!(copy.children()[1].identifier().as_str(), "d");
    let draw = |items: &Vec<SimpleTreeItem<'static>>| {
        let mut state = TreeState::default();
        state.open(vec![Label::new("b")]);
        let mut buffer = Buffer::empty(Rect::new(0, 0, 6, 3));
        Tree::new(items).render(Area::new(0, 0, 6, 3), &mut buffer, &mut state);
        buffer
    };
    assert_eq!(draw(&vec![copy]), draw(&vec![item]));
}
