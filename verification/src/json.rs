//! JSON values as tree data.
//!
//! A value of `serde_json` is shown as a tree: an array shows its elements
//! under their indexes, an object its entries under their keys, and any
//! other value stands alone. Nothing here looks into a value but through
//! the few functions below that Verus takes on trust.

pub mod json_tree_item;
pub mod render;
pub mod select;

use vstd::prelude::*;
use serde_json::Value;
use crate::generic_tree_item::{shapes_of, GenericTreeItem};
use crate::identifier::{lemma_selector_lawful, Selector, SelectorKey};
use crate::shape::{distinct_identifiers, Shape};
use crate::surface::{line_text, span_of, text_of_spans, tinted, Tint};
use crate::tree_item::TreeItem;
use ratatui::text::Span;

verus! {

/// `serde_json::Value`: a JSON value. What it holds is known through
/// [`json`] only.
#[verifier::external_type_specification]
#[verifier::external_body]
pub struct ExValue(Value);

/// What a JSON value holds. A number stands as the text that it is written
/// as, an object as its entries in the order in which it hands them out.
pub enum Json {
    Null,
    Bool(bool),
    Number(Seq<char>),
    Str(Seq<char>),
    Array(Seq<Json>),
    Object(Seq<(Seq<char>, Json)>),
}

/// What a value of `serde_json` holds.
pub uninterp spec fn json(value: Value) -> Json;

/// The values inside of a value, each with its selector: the elements of an
/// array, the entries of an object.
pub open spec fn children_of(value: Json) -> Seq<(SelectorKey, Json)> {
    match value {
        Json::Array(items) => Seq::new(
            items.len(),
            |i: int| (SelectorKey::ArrayIndex(i as usize), items[i]),
        ),
        Json::Object(entries) => Seq::new(
            entries.len(),
            |i: int| (SelectorKey::ObjectKey(entries[i].0), entries[i].1),
        ),
        _ => Seq::empty(),
    }
}

/// Whether the value is an array or an object.
pub open spec fn is_container(value: Json) -> bool {
    value is Array || value is Object
}

/// The first of the entries with the key.
pub open spec fn entry_with(entries: Seq<(Seq<char>, Json)>, key: Seq<char>) -> Option<Json>
    decreases entries.len(),
{
    if entries.len() == 0 {
        None
    } else if entries[0].0 == key {
        Some(entries[0].1)
    } else {
        entry_with(entries.drop_first(), key)
    }
}

/// What is known of a value without its children.
pub enum Shown {
    Null,
    Bool(bool),
    Number(String),
    Str(String),
    Array(usize),
    Object(usize),
}

/// What a [`Shown`] stands for.
pub enum Summary {
    Null,
    Bool(bool),
    Number(Seq<char>),
    Str(Seq<char>),
    Array(nat),
    Object(nat),
}

impl View for Shown {
    type V = Summary;

    open spec fn view(&self) -> Summary {
        match *self {
            Shown::Null => Summary::Null,
            Shown::Bool(value) => Summary::Bool(value),
            Shown::Number(text) => Summary::Number(text@),
            Shown::Str(text) => Summary::Str(text@),
            Shown::Array(len) => Summary::Array(len as nat),
            Shown::Object(len) => Summary::Object(len as nat),
        }
    }
}

/// The summary of a value.
pub open spec fn summary(value: Json) -> Summary {
    match value {
        Json::Null => Summary::Null,
        Json::Bool(value) => Summary::Bool(value),
        Json::Number(text) => Summary::Number(text),
        Json::Str(text) => Summary::Str(text),
        Json::Array(items) => Summary::Array(items.len()),
        Json::Object(entries) => Summary::Object(entries.len()),
    }
}

/// The variants of `Value`, with `Number::to_string`, `Vec::len` and
/// `Map::len`: what the value is, and what it holds where it holds no
/// other values.
#[verifier::external_body]
pub(crate) fn summary_of(value: &Value) -> (r: Shown)
    ensures
        r@ == summary(json(*value)),
{
    match value {
        Value::Null => Shown::Null,
        Value::Bool(value) => Shown::Bool(*value),
        Value::Number(number) => Shown::Number(number.to_string()),
        Value::String(text) => Shown::Str(text.clone()),
        Value::Array(items) => Shown::Array(items.len()),
        Value::Object(entries) => Shown::Object(entries.len()),
    }
}

/// `<[Value]>::iter` and `Map::iter`: the elements of an array with their
/// indexes, the entries of an object with their keys, in the order in which
/// the value hands them out. No two of them have the same selector.
#[verifier::external_body]
pub(crate) fn children<'json>(value: &'json Value) -> (r: Vec<(Selector, &'json Value)>)
    ensures
        r@.len() == children_of(json(*value)).len(),
        forall|i: int|
            0 <= i < r@.len() ==> (#[trigger] r@[i]).0.deep_view() == children_of(json(*value))[i].0
                && json(*r@[i].1) == children_of(json(*value))[i].1,
        forall|i: int, j: int|
            0 <= i < j < r@.len() ==> (#[trigger] r@[i]).0.deep_view() != (
            #[trigger] r@[j]).0.deep_view(),
{
    match value {
        Value::Array(items) => items.iter().enumerate().map(
            |(index, item)| (Selector::ArrayIndex(index), item),
        ).collect(),
        Value::Object(entries) => entries.iter().map(
            |(key, item)| (Selector::ObjectKey(key.clone()), item),
        ).collect(),
        _ => Vec::new(),
    }
}

/// `Value::get` with a key: the value under the key in an object; none
/// where the value is no object or has no such key.
#[verifier::external_body]
pub(crate) fn value_at_key<'json>(value: &'json Value, key: &str) -> (r: Option<&'json Value>)
    ensures
        match r {
            Some(found) => json(*value) matches Json::Object(entries) && entry_with(entries, key@)
                == Some(json(*found)),
            None => json(*value) matches Json::Object(entries) ==> entry_with(entries, key@)
                is None,
        },
{
    value.get(key)
}

/// `Value::get` with an index: the element at the index of an array; none
/// where the value is no array or is shorter.
#[verifier::external_body]
pub(crate) fn value_at_index<'json>(value: &'json Value, index: usize) -> (r: Option<
    &'json Value,
>)
    ensures
        match r {
            Some(found) => json(*value) matches Json::Array(items) && index < items.len()
                && items[index as int] == json(*found),
            None => json(*value) matches Json::Array(items) ==> index >= items.len(),
        },
{
    value.get(index)
}

/// A value inside of another is smaller than it.
pub proof fn lemma_child_smaller(value: Json, i: int)
    requires
        0 <= i < children_of(value).len(),
    ensures
        decreases_to!(value => children_of(value)[i].1),
{
    match value {
        Json::Array(items) => {
            assert(decreases_to!(value => items));
            assert(decreases_to!(items => items[i]));
        },
        Json::Object(entries) => {
            assert(decreases_to!(value => entries));
            assert(decreases_to!(entries => entries[i]));
            assert(decreases_to!(entries[i] => entries[i].1));
        },
        _ => {},
    }
}

/// What the widget shows of a value under a selector: one row, and below
/// it the values inside.
pub open spec fn json_shape(key: SelectorKey, value: Json) -> Shape<SelectorKey>
    decreases value, 1nat,
{
    Shape { identifier: key, height: 1, children: child_shapes(value) }
}

/// What the widget shows of the values inside of a value.
pub open spec fn child_shapes(value: Json) -> Seq<Shape<SelectorKey>>
    decreases value, 0nat,
    via child_shapes_decreases
{
    Seq::new(
        children_of(value).len(),
        |i: int|
            if 0 <= i < children_of(value).len() {
                json_shape(children_of(value)[i].0, children_of(value)[i].1)
            } else {
                arbitrary()
            },
    )
}

#[via_fn]
proof fn child_shapes_decreases(value: Json) {
    assert forall|i: int| 0 <= i < children_of(value).len() implies decreases_to!(value => #[trigger] children_of(value)[i].1) by {
        lemma_child_smaller(value, i);
    }
}

/// What the widget shows of a value at the top: the values inside of an
/// array or an object, and any other value itself.
pub open spec fn json_shapes(value: Json) -> Seq<Shape<SelectorKey>> {
    if is_container(value) {
        child_shapes(value)
    } else {
        seq![json_shape(SelectorKey::Nothing, value)]
    }
}

/// A piece of text in one color.
#[derive(Debug)]
pub struct Piece {
    pub text: String,
    pub tint: Tint,
}

impl View for Piece {
    type V = (Seq<char>, Tint);

    open spec fn view(&self) -> (Seq<char>, Tint) {
        (self.text@, self.tint)
    }
}

/// The views of a list of pieces, in order.
pub open spec fn piece_views(pieces: Seq<Piece>) -> Seq<(Seq<char>, Tint)> {
    Seq::new(pieces.len(), |i: int| pieces[i]@)
}

/// How a value is shown in its row: a scalar as it is written, in the color
/// of its kind; an array or an object as its opening bracket, or as both
/// brackets where it is empty.
pub open spec fn value_piece(value: Json) -> (Seq<char>, Tint) {
    match value {
        Json::Array(items) => if items.len() == 0 {
            ("[]"@, Tint::Plain)
        } else {
            ("["@, Tint::Plain)
        },
        Json::Object(entries) => if entries.len() == 0 {
            ("{}"@, Tint::Plain)
        } else {
            ("{"@, Tint::Plain)
        },
        Json::Null => ("null"@, Tint::DarkGray),
        Json::Bool(value) => if value {
            ("true"@, Tint::Magenta)
        } else {
            ("false"@, Tint::Magenta)
        },
        Json::Number(text) => (text, Tint::LightBlue),
        Json::Str(text) => (text, Tint::Green),
    }
}

/// The row of a value under a selector: the key or the index, a separator,
/// and the value. A value that stands alone has no more than itself.
pub open spec fn row_pieces(key: SelectorKey, value: Json) -> Seq<(Seq<char>, Tint)> {
    match key {
        SelectorKey::ObjectKey(name) => seq![
            (name, Tint::Blue),
            (": "@, Tint::DarkGray),
            value_piece(value),
        ],
        SelectorKey::ArrayIndex(index) => seq![
            (key.text(), Tint::Cyan),
            (": "@, Tint::DarkGray),
            value_piece(value),
        ],
        SelectorKey::Nothing => seq![value_piece(value)],
    }
}

fn piece(text: &str, tint: Tint) -> (r: Piece)
    ensures
        r@ == (text@, tint),
{
    Piece { text: text.to_owned(), tint }
}

/// How the value is shown in its row.
pub fn get_value_span(value: &Value) -> (r: Piece)
    ensures
        r@ == value_piece(json(*value)),
{
    match summary_of(value) {
        Shown::Array(len) => if len == 0 {
            piece("[]", Tint::Plain)
        } else {
            piece("[", Tint::Plain)
        },
        Shown::Object(len) => if len == 0 {
            piece("{}", Tint::Plain)
        } else {
            piece("{", Tint::Plain)
        },
        Shown::Null => piece("null", Tint::DarkGray),
        Shown::Bool(true) => piece("true", Tint::Magenta),
        Shown::Bool(false) => piece("false", Tint::Magenta),
        Shown::Number(text) => Piece { text, tint: Tint::LightBlue },
        Shown::Str(text) => Piece { text, tint: Tint::Green },
    }
}

/// The row of the value under the selector.
pub fn get_row(key: &Selector, value: &Value) -> (r: Vec<Piece>)
    ensures
        piece_views(r@) == row_pieces(key.deep_view(), json(*value)),
{
    let mut row: Vec<Piece> = Vec::new();
    match key {
        Selector::ObjectKey(_) => {
            row.push(Piece { text: key.to_string(), tint: Tint::Blue });
            row.push(piece(": ", Tint::DarkGray));
        },
        Selector::ArrayIndex(_) => {
            row.push(Piece { text: key.to_string(), tint: Tint::Cyan });
            row.push(piece(": ", Tint::DarkGray));
        },
        Selector::Nothing => {},
    }
    row.push(get_value_span(value));
    assert(piece_views(row@) =~= row_pieces(key.deep_view(), json(*value)));
    row
}

/// The spans of pieces, in order: each piece in the color of its tint.
pub open spec fn row_spans(pieces: Seq<(Seq<char>, Tint)>) -> Seq<Span<'static>> {
    Seq::new(pieces.len(), |i: int| tinted(pieces[i].0, pieces[i].1))
}

/// The spans of the pieces, in order.
pub(crate) fn spans_of<'a>(pieces: &Vec<Piece>) -> (r: Vec<Span<'a>>)
    ensures
        r@ == row_spans(piece_views(pieces@)),
{
    let mut spans: Vec<Span<'a>> = Vec::new();
    let mut i: usize = 0;
    while i < pieces.len()
        invariant
            i <= pieces@.len(),
            spans@.len() == i,
            forall|k: int|
                0 <= k < i ==> (#[trigger] spans@[k]) == tinted(pieces@[k].text@, pieces@[k].tint),
        decreases pieces@.len() - i,
    {
        spans.push(span_of(pieces[i].text.as_str(), pieces[i].tint));
        i += 1;
    }
    assert(spans@ =~= row_spans(piece_views(pieces@)));
    spans
}

/// Whether the item shows the value under the selector: its text is the
/// one line of the row of the value, and its children show the values
/// inside of the value.
pub open spec fn shows(item: TreeItem<'_, Selector>, key: SelectorKey, value: Json) -> bool
    decreases value,
    via shows_decreases
{
    &&& item.text() == line_text(row_spans(row_pieces(key, value)))
    &&& item.spec_children().len() == children_of(value).len()
    &&& forall|i: int|
        0 <= i < children_of(value).len() ==> shows(
            #[trigger] item.spec_children()[i],
            children_of(value)[i].0,
            children_of(value)[i].1,
        )
}

#[via_fn]
proof fn shows_decreases(item: TreeItem<'_, Selector>, key: SelectorKey, value: Json) {
    assert forall|i: int| 0 <= i < children_of(value).len() implies decreases_to!(value => #[trigger] children_of(value)[i].1) by {
        lemma_child_smaller(value, i);
    }
}

/// Whether the items show the values under their selectors, one for one.
pub open spec fn all_show(
    items: Seq<TreeItem<'_, Selector>>,
    values: Seq<(SelectorKey, Json)>,
) -> bool {
    &&& items.len() == values.len()
    &&& forall|i: int| 0 <= i < values.len() ==> shows(#[trigger] items[i], values[i].0, values[i].1)
}

/// The values that a value shows at the top: the values inside of an array
/// or an object, and any other value itself.
pub open spec fn top_values(value: Json) -> Seq<(SelectorKey, Json)> {
    if is_container(value) {
        children_of(value)
    } else {
        seq![(SelectorKey::Nothing, value)]
    }
}

/// The item of a value under a selector, with the items of the values
/// inside of it.
fn recurse<'json>(key: Selector, value: &'json Value) -> (r: TreeItem<'json, Selector>)
    ensures
        r.wf(),
        r.shape() == json_shape(key.deep_view(), json(*value)),
        shows(r, key.deep_view(), json(*value)),
    decreases json(*value), 1nat,
{
    let row = get_row(&key, value);
    let text = text_of_spans(spans_of(&row));
    let items = from_children(value);
    proof {
        lemma_selector_lawful();
        assert forall|i: int, j: int| 0 <= i < j < items@.len() implies (
        #[trigger] shapes_of(items@)[i]).identifier != (
        #[trigger] shapes_of(items@)[j]).identifier by {
            assert(child_shapes(json(*value))[i].identifier != child_shapes(
                json(*value),
            )[j].identifier);
        }
    }
    match TreeItem::with_text(key, text, items) {
        Ok(item) => item,
        Err(_) => vstd::pervasive::unreached(),
    }
}

/// The items of the values inside of a value.
fn from_children<'json>(value: &'json Value) -> (r: Vec<TreeItem<'json, Selector>>)
    ensures
        shapes_of(r@) == child_shapes(json(*value)),
        forall|i: int| 0 <= i < r@.len() ==> (#[trigger] r@[i]).wf(),
        distinct_identifiers(child_shapes(json(*value))),
        all_show(r@, children_of(json(*value))),
    decreases json(*value), 0nat,
{
    let entries = children(value);
    let ghost all = entries@;
    let ghost inside = children_of(json(*value));
    let mut items: Vec<TreeItem<'json, Selector>> = Vec::new();
    assert(distinct_identifiers(child_shapes(json(*value)))) by {
        assert forall|a: int, b: int| 0 <= a < b < child_shapes(json(*value)).len() implies (
        #[trigger] child_shapes(json(*value))[a]).identifier != (
        #[trigger] child_shapes(json(*value))[b]).identifier by {
            assert(all[a].0.deep_view() != all[b].0.deep_view());
        }
    }
    for entry in iter: entries
        invariant
            all.len() == inside.len(),
            inside == children_of(json(*value)),
            iter.seq() == all,
            forall|k: int|
                0 <= k < all.len() ==> (#[trigger] all[k]).0.deep_view() == inside[k].0 && json(
                    *all[k].1,
                ) == inside[k].1,
            items@.len() == iter.index(),
            forall|k: int|
                0 <= k < items@.len() ==> (#[trigger] items@[k]).wf() && items@[k].shape()
                    == json_shape(inside[k].0, inside[k].1) && shows(
                    items@[k],
                    inside[k].0,
                    inside[k].1,
                ),
    {
        proof {
            lemma_child_smaller(json(*value), iter.index() as int);
        }
        let (key, item) = entry;
        items.push(recurse(key, item));
    }
    assert(shapes_of(items@) =~= child_shapes(json(*value)));
    items
}

/// Create tree items from a JSON value: one for each element of an array
/// or entry of an object, and one for any other value. Each shows the row
/// of its value.
pub fn tree_items<'json>(root: &'json Value) -> (r: Vec<TreeItem<'json, Selector>>)
    ensures
        shapes_of(r@) == json_shapes(json(*root)),
        all_show(r@, top_values(json(*root))),
        forall|i: int| 0 <= i < r@.len() ==> (#[trigger] r@[i]).wf(),
        distinct_identifiers(shapes_of(r@)),
{
    match summary_of(root) {
        Shown::Array(_) => from_children(root),
        Shown::Object(_) => from_children(root),
        _ => {
            let mut items: Vec<TreeItem<'json, Selector>> = Vec::new();
            items.push(recurse(Selector::Nothing, root));
            assert(child_shapes(json(*root)) =~= Seq::empty());
            assert(shapes_of(items@) =~= json_shapes(json(*root)));
            items
        },
    }
}

} // verus!
