use tui_tree_widget::{Label, Selector};

#[test]
fn display_object() {
    let selector = Selector::ObjectKey("foo".to_owned());
    let result = selector.to_string();
    assert_eq!(result, "foo");
}

#[test]
fn display_array() {
    let selector = Selector::ArrayIndex(42);
    let result = selector.to_string();
    assert_eq!(result, "42");
}

#[test]
fn display_none() {
    let selector = Selector::Nothing;
    let result = selector.to_string();
    assert_eq!(result, "");
}

#[test]
fn labels_are_their_text() {
    let label = Label::new("alfa");
    assert_eq!(label.as_str(), "alfa");
    assert_eq!(label, Label::new("alfa"));
    assert_ne!(label, Label::new("alfb"));
    assert_ne!(label, Label::new(""));
    assert_eq!(label.clone(), label);
    assert_eq!(Label("alfa".to_owned()), label);
}

#[test]
fn a_copy_of_a_selector_is_the_same() {
    for selector in [Selector::ObjectKey("a".to_owned()), Selector::ArrayIndex(3), Selector::Nothing] {
        assert_eq!(selector.clone(), selector);
    }
    assert_ne!(Selector::ObjectKey("3".to_owned()), Selector::ArrayIndex(3));
}
