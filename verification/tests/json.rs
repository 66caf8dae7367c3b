use ratatui::buffer::Buffer;
use ratatui::layout::Rect;
use ratatui::style::Style;
use serde_json::Value;
use tui_tree_widget::json::json_tree_item::JsonTreeItem;
use tui_tree_widget::json::select::{select, select_one};
use tui_tree_widget::json::{get_row, get_value_span, tree_items};
use tui_tree_widget::surface::{Area, Tint};
use tui_tree_widget::{GenericTreeItem, Node, OpenSet, Selector, Tree, TreeData, TreeState};

fn key(key: &str) -> Selector {
    Selector::ObjectKey(key.to_owned())
}

fn two_entries() -> Value {
    let mut object = serde_json::Map::new();
    object.insert("bla".to_owned(), Value::Bool(false));
    object.insert("blubb".to_owned(), Value::Bool(true));
    Value::Object(object)
}

#[test]
fn json_can_not_get_other_value() {
    let root = Value::Bool(false);
    let result = select_one(&root, &Selector::ArrayIndex(2));
    assert_eq!(result, None);
}

#[test]
fn json_can_get_nth_array_value() {
    let root = Value::Array(vec![Value::String("bla".to_owned()), Value::Bool(true)]);
    let result = select_one(&root, &Selector::ArrayIndex(1));
    assert_eq!(result, Some(&Value::Bool(true)));
}

#[test]
fn json_can_not_get_array_index_out_of_range() {
    let root = Value::Array(vec![Value::String("bla".to_owned()), Value::Bool(true)]);
    let result = select_one(&root, &Selector::ArrayIndex(42));
    assert_eq!(result, None);
}

#[test]
fn json_can_get_object_value() {
    let root = two_entries();
    let result = select_one(&root, &Selector::ObjectKey("blubb".to_owned()));
    assert_eq!(result, Some(&Value::Bool(true)));
}

#[test]
fn json_can_not_get_object_missing_key() {
    let root = two_entries();
    let result = select_one(&root, &Selector::ObjectKey("foo".to_owned()));
    assert_eq!(result, None);
}

#[test]
fn json_can_not_get_object_by_index() {
    let root = two_entries();
    let result = select_one(&root, &Selector::ArrayIndex(42));
    assert_eq!(result, None);
}

#[test]
fn json_can_get_selected_value() {
    let root = Value::Array(vec![Value::Bool(false), two_entries(), Value::Bool(false)]);

    let selector = vec![Selector::ArrayIndex(1), Selector::ObjectKey("blubb".to_owned())];

    let result = select(&root, &selector);
    assert_eq!(result, Some(&Value::Bool(true)));
}

#[test]
fn select_can_not_get_other_value() {
    let root = Value::Bool(false);
    let result = select_one(&root, &Selector::ArrayIndex(2));
    assert_eq!(result, None);
}

#[test]
fn select_can_get_nth_array_value() {
    let root = Value::Array(vec![Value::String("bla".to_owned()), Value::Bool(true)]);
    let result = select_one(&root, &Selector::ArrayIndex(1));
    assert_eq!(result, Some(&Value::Bool(true)));
}

#[test]
fn select_can_not_get_array_index_out_of_range() {
    let root = Value::Array(vec![Value::String("bla".to_owned()), Value::Bool(true)]);
    let result = select_one(&root, &Selector::ArrayIndex(42));
    assert_eq!(result, None);
}

#[test]
fn select_can_get_object_value() {
    let root = two_entries();
    let result = select_one(&root, &Selector::ObjectKey("blubb".to_owned()));
    assert_eq!(result, Some(&Value::Bool(true)));
}

#[test]
fn select_can_not_get_object_missing_key() {
    let root = two_entries();
    let result = select_one(&root, &Selector::ObjectKey("foo".to_owned()));
    assert_eq!(result, None);
}

#[test]
fn select_can_not_get_object_by_index() {
    let root = two_entries();
    let result = select_one(&root, &Selector::ArrayIndex(42));
    assert_eq!(result, None);
}

#[test]
fn select_can_get_selected_value() {
    let root = Value::Array(vec![Value::Bool(false), two_entries(), Value::Bool(false)]);

    let selector = vec![Selector::ArrayIndex(1), Selector::ObjectKey("blubb".to_owned())];

    let result = select(&root, &selector);
    assert_eq!(result, Some(&Value::Bool(true)));
}

#[test]
fn select_of_a_value_that_stands_alone() {
    let root = Value::Bool(true);
    assert_eq!(select_one(&root, &Selector::Nothing), Some(&root));
    assert_eq!(select(&root, &[]), Some(&root));
    let array = Value::Array(vec![Value::Null]);
    assert_eq!(select_one(&array, &Selector::Nothing), None);
    assert_eq!(select(&array, &[Selector::ArrayIndex(0), Selector::Nothing]), Some(&Value::Null));
    assert_eq!(select(&array, &[Selector::ArrayIndex(0), Selector::ArrayIndex(0)]), None);
}

#[test]
fn json_empty_creates_empty_tree() {
    let json = Value::Object(serde_json::Map::new());
    let tree_items = tree_items(&json);
    assert!(tree_items.is_empty());
}

#[test]
fn json_tree_item_empty_creates_empty_tree() {
    let json = Value::Object(serde_json::Map::new());
    let tree_items = JsonTreeItem::new(&json);
    assert!(tree_items.is_empty());
}

fn node(identifier: Vec<Selector>, has_children: bool) -> Node<Selector> {
    Node { depth: identifier.len() - 1, identifier, has_children, height: 1 }
}

fn case(input: &str) -> Vec<Node<Selector>> {
    let mut open = OpenSet::new();
    open.insert(vec![key("foo")]);
    open.insert(vec![key("foo"), key("bar")]);

    let json: Value = serde_json::from_str(input).expect("invalid JSON string");
    json.get_nodes(&open)
}

#[test]
fn empty_array_has_no_nodes() {
    assert_eq!(case("[]"), []);
}

#[test]
fn empty_object_has_no_nodes() {
    assert_eq!(case("{}"), []);
}

#[test]
fn number_has_single_node() {
    assert_eq!(case("42"), [node(vec![Selector::Nothing], false)]);
}

#[test]
fn root_array_has_multiple_nodes() {
    assert_eq!(
        case("[13, 37]"),
        [node(vec![Selector::ArrayIndex(0)], false), node(vec![Selector::ArrayIndex(1)], false),]
    );
}

#[test]
fn root_object_has_multiple_nodes() {
    assert_eq!(
        case(r#"{"foo": "bar", "something": true}"#),
        [node(vec![key("foo")], false), node(vec![key("something")], false),]
    );
}

#[test]
fn deep_example() {
    assert_eq!(
        case(r#"{"foo": {"bar": [13, 37]}, "something": [42]}"#),
        [
            node(vec![key("foo")], true),             // open
            node(vec![key("foo"), key("bar")], true), // open
            node(vec![key("foo"), key("bar"), Selector::ArrayIndex(0)], false),
            node(vec![key("foo"), key("bar"), Selector::ArrayIndex(1)], false),
            node(vec![key("something")], true),
        ]
    );
}

/// The three ways to show a JSON value
#[derive(Clone, Copy)]
enum Through {
    Items,
    JsonItems,
    Value,
}

/// Strips colors after render
fn render(
    through: Through,
    width: u16,
    height: u16,
    json: &str,
    state: &mut TreeState<Selector>,
) -> Buffer {
    let json: Value = serde_json::from_str(json).expect("invalid test JSON");
    let rect = Rect::new(0, 0, width, height);
    let area = Area::new(0, 0, width, height);
    let mut buffer = Buffer::empty(rect);
    match through {
        Through::Items => {
            let items = tree_items(&json);
            Tree::new(&items).highlight_symbol(">> ").render(area, &mut buffer, state);
        }
        Through::JsonItems => {
            let items = JsonTreeItem::new(&json);
            Tree::new(&items).highlight_symbol(">> ").render(area, &mut buffer, state);
        }
        Through::Value => {
            Tree::new(&json).highlight_symbol(">> ").render(area, &mut buffer, state);
        }
    }
    buffer.set_style(rect, Style::reset());
    buffer
}

fn empty_array(through: Through) {
    let buffer = render(through, 5, 3, "[]", &mut TreeState::default());
    let expected = Buffer::with_lines(["     "; 3]);
    assert_eq!(buffer, expected);
}

fn empty_object(through: Through) {
    let buffer = render(through, 5, 3, "{}", &mut TreeState::default());
    let expected = Buffer::with_lines(["     "; 3]);
    assert_eq!(buffer, expected);
}

fn plain_number(through: Through) {
    let buffer = render(through, 5, 2, "42", &mut TreeState::default());
    let expected = Buffer::with_lines(["  42 ", ""]);
    assert_eq!(buffer, expected);
}

fn simple_in_array(through: Through) {
    let json = r#"[null, true, false, [], {}, 42, "lalala"]"#;
    let buffer = render(through, 12, 8, json, &mut TreeState::default());
    let expected = Buffer::with_lines([
        "  0: null   ",
        "  1: true   ",
        "  2: false  ",
        "  3: []     ",
        "  4: {}     ",
        "  5: 42     ",
        "  6: lalala ",
        "            ",
    ]);
    assert_eq!(buffer, expected);
}

fn bigger(through: Through) {
    let mut state = TreeState::default();
    state.open(vec![key("foo")]);
    state.open(vec![key("foo"), key("bar")]);

    let json = r#"{"foo": {"bar": [13, 37]}, "test": true}"#;
    let buffer = render(through, 14, 6, json, &mut state);
    let expected = Buffer::with_lines([
        "▼ foo: {      ",
        "  ▼ bar: [    ",
        "      0: 13   ",
        "      1: 37   ",
        "  test: true  ",
        "              ",
    ]);
    assert_eq!(buffer, expected);
}

fn bigger_selection(through: Through) {
    let mut state = TreeState::default();
    state.open(vec![key("foo")]);
    state.open(vec![key("foo"), key("bar")]);
    state.select(vec![key("foo"), key("bar"), Selector::ArrayIndex(1)]);

    let json = r#"{"foo": {"bar": [13, 37]}, "test": true}"#;
    let buffer = render(through, 17, 6, json, &mut state);
    let expected = Buffer::with_lines([
        "   ▼ foo: {      ",
        "     ▼ bar: [    ",
        "         0: 13   ",
        ">>       1: 37   ",
        "     test: true  ",
        "                 ",
    ]);
    assert_eq!(buffer, expected);
}

#[test]
fn json_empty_array_renders_nothing() {
    empty_array(Through::Items);
}

#[test]
fn json_empty_object_renders_nothing() {
    empty_object(Through::Items);
}

#[test]
fn json_number() {
    plain_number(Through::Items);
}

#[test]
fn json_all_simple_in_array() {
    simple_in_array(Through::Items);
}

#[test]
fn json_bigger_example() {
    bigger(Through::Items);
}

#[test]
fn json_bigger_example_selection() {
    bigger_selection(Through::Items);
}

#[test]
fn json_tree_item_empty_array_renders_nothing() {
    empty_array(Through::JsonItems);
}

#[test]
fn json_tree_item_empty_object_renders_nothing() {
    empty_object(Through::JsonItems);
}

#[test]
fn json_tree_item_number() {
    plain_number(Through::JsonItems);
}

#[test]
fn json_tree_item_all_simple_in_array() {
    simple_in_array(Through::JsonItems);
}

#[test]
fn json_tree_item_bigger_example() {
    bigger(Through::JsonItems);
}

#[test]
fn json_tree_item_bigger_example_selection() {
    bigger_selection(Through::JsonItems);
}

#[test]
fn render_empty_array_renders_nothing() {
    empty_array(Through::Value);
}

#[test]
fn render_empty_object_renders_nothing() {
    empty_object(Through::Value);
}

#[test]
fn render_number() {
    plain_number(Through::Value);
}

#[test]
fn render_all_simple_in_array() {
    simple_in_array(Through::Value);
}

#[test]
fn render_bigger_example() {
    bigger(Through::Value);
}

#[test]
fn render_bigger_example_selection() {
    bigger_selection(Through::Value);
}

fn shown(value: &Value) -> (String, Tint) {
    let piece = get_value_span(value);
    (piece.text, piece.tint)
}

#[test]
fn values_are_shown_by_their_kind() {
    let parse = |text: &str| serde_json::from_str::<Value>(text).expect("invalid test JSON");
    assert_eq!(shown(&parse("[]")), ("[]".to_owned(), Tint::Plain));
    assert_eq!(shown(&parse("[1]")), ("[".to_owned(), Tint::Plain));
    assert_eq!(shown(&parse("{}")), ("{}".to_owned(), Tint::Plain));
    assert_eq!(shown(&parse(r#"{"a": 1}"#)), ("{".to_owned(), Tint::Plain));
    assert_eq!(shown(&parse("null")), ("null".to_owned(), Tint::DarkGray));
    assert_eq!(shown(&parse("true")), ("true".to_owned(), Tint::Magenta));
    assert_eq!(shown(&parse("false")), ("false".to_owned(), Tint::Magenta));
    assert_eq!(shown(&parse("-13.5")), ("-13.5".to_owned(), Tint::LightBlue));
    assert_eq!(shown(&parse(r#""text""#)), ("text".to_owned(), Tint::Green));
}

#[test]
fn rows_begin_with_the_key_or_the_index() {
    let value = Value::Bool(true);
    let row = |selector: &Selector| {
        get_row(selector, &value)
            .into_iter()
            .map(|piece| (piece.text, piece.tint))
            .collect::<Vec<_>>()
    };
    let separator = (": ".to_owned(), Tint::DarkGray);
    let shown = ("true".to_owned(), Tint::Magenta);
    assert_eq!(row(&key("foo")), [("foo".to_owned(), Tint::Blue), separator.clone(), shown.clone()]);
    assert_eq!(
        row(&Selector::ArrayIndex(107)),
        [("107".to_owned(), Tint::Cyan), separator, shown.clone()]
    );
    assert_eq!(row(&Selector::Nothing), [shown]);
}

#[test]
fn colors_reach_the_grid() {
    let json: Value = serde_json::from_str(r#"{"foo": null}"#).expect("invalid test JSON");
    let mut buffer = Buffer::empty(Rect::new(0, 0, 12, 1));
    Tree::new(&json).render(Area::new(0, 0, 12, 1), &mut buffer, &mut TreeState::default());
    let style = |x: u16| buffer[(x, 0)].style();
    assert_eq!(style(2).fg, Some(ratatui::style::Color::Blue));
    assert_eq!(style(5).fg, Some(ratatui::style::Color::DarkGray));
    assert_eq!(style(7).fg, Some(ratatui::style::Color::DarkGray));
    assert_eq!(buffer[(7, 0)].symbol(), "n");
}

#[test]
fn json_items_tell_what_they_show() {
    let json: Value = serde_json::from_str(r#"{"foo": {"bar": [13, 37]}, "test": true}"#).unwrap();
    let items = JsonTreeItem::new(&json);
    assert_eq!(items.len(), 2);
    assert_eq!(*items[0].identifier(), key("foo"));
    assert_eq!(items[0].height(), 1);
    assert_eq!(items[0].children().len(), 1);
    assert_eq!(items[0].children()[0].children().len(), 2);
    assert_eq!(*items[0].children()[0].children()[1].identifier(), Selector::ArrayIndex(1));
    assert_eq!(items[1].children().len(), 0);
    let items = tree_items(&json);
    assert_eq!(items.len(), 2);
    assert_eq!(*items[1].identifier(), key("test"));
    assert_eq!(items[0].children()[0].children().len(), 2);
}

#[test]
fn a_copy_of_a_json_item_shows_the_same() {
    let json: Value = serde_json::from_str(r#"{"foo": {"bar": [13, 37]}, "test": true}"#).unwrap();
    let items = JsonTreeItem::new(&json);
    let copies: Vec<JsonTreeItem> = items.iter().map(|item| item.clone()).collect();
    assert_eq!(copies.len(), 2);
    assert_eq!(*copies[0].identifier(), key("foo"));
    assert_eq!(*copies[0].children()[0].children()[1].identifier(), Selector::ArrayIndex(1));
    let draw = |items: &Vec<JsonTreeItem>| {
        let mut state = TreeState::default();
        state.open(vec![key("foo")]);
        state.open(vec![key("foo"), key("bar")]);
        let mut buffer = Buffer::empty(Rect::new(0, 0, 16, 5));
        Tree::new(items).render(Area::new(0, 0, 16, 5), &mut buffer, &mut state);
        buffer
    };
    let drawn = draw(&copies);
    assert_eq!(drawn, draw(&items));
    let row = |y: u16| (0..16).map(|x| drawn[(x, y)].symbol()).collect::<String>();
    assert_eq!(row(0).trim_end(), "▼ foo: {");
    assert_eq!(row(1).trim_end(), "  ▼ bar: [");
    assert_eq!(row(3).trim_end(), "      1: 37");
    assert_eq!(row(4).trim_end(), "  test: true");
}
