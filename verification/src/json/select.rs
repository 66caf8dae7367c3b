//! Selecting a part of a JSON value by a path.

use vstd::prelude::*;
use serde_json::Value;
use crate::generic_tree_item::follow;
use crate::identifier::{keys, Selector, SelectorKey};
use crate::json::{entry_with, is_container, json, summary_of, value_at_index, value_at_key, Json, Shown};

verus! {

/// The value one layer into a value: the entry of an object under a key,
/// the element of an array at an index, and a value that is neither, itself,
/// by the selector for a value that stands alone.
pub open spec fn selected_one(root: Json, selector: SelectorKey) -> Option<Json> {
    match selector {
        SelectorKey::ObjectKey(key) => match root {
            Json::Object(entries) => entry_with(entries, key),
            _ => None,
        },
        SelectorKey::ArrayIndex(index) => match root {
            Json::Array(items) => if index < items.len() {
                Some(items[index as int])
            } else {
                None
            },
            _ => None,
        },
        SelectorKey::Nothing => if is_container(root) {
            None
        } else {
            Some(root)
        },
    }
}

/// The value that the path leads to from a value.
pub open spec fn selected(root: Json, selector: Seq<SelectorKey>) -> Option<Json> {
    follow(root, |value: Json, key: SelectorKey| selected_one(value, key), selector)
}

/// What an optional reference to a value refers to.
pub open spec fn found(r: Option<&Value>) -> Option<Json> {
    match r {
        Some(value) => Some(json(*value)),
        None => None,
    }
}

/// Select one layer into `root` (depth == 1).
pub fn select_one<'value>(root: &'value Value, selector: &Selector) -> (r: Option<&'value Value>)
    ensures
        found(r) == selected_one(json(*root), selector.deep_view()),
{
    match selector {
        Selector::ObjectKey(key) => value_at_key(root, key.as_str()),
        Selector::ArrayIndex(index) => value_at_index(root, *index),
        Selector::Nothing => match summary_of(root) {
            Shown::Array(_) => None,
            Shown::Object(_) => None,
            _ => Some(root),
        },
    }
}

/// Select a part of the input JSON.
pub fn select<'value>(root: &'value Value, selector: &[Selector]) -> (r: Option<&'value Value>)
    ensures
        found(r) == selected(json(*root), keys(selector@)),
{
    let mut current = root;
    let mut i: usize = 0;
    assert(keys(selector@).skip(0) =~= keys(selector@));
    while i < selector.len()
        invariant
            i <= selector@.len(),
            selected(json(*root), keys(selector@)) == follow(
                json(*current),
                |value: Json, key: SelectorKey| selected_one(value, key),
                keys(selector@).skip(i as int),
            ),
        decreases selector@.len() - i,
    {
        proof {
            assert(keys(selector@).skip(i as int)[0] == selector@[i as int].deep_view());
            assert(keys(selector@).skip(i as int).drop_first() =~= keys(selector@).skip(i + 1));
        }
        match select_one(current, &selector[i]) {
            Some(inside) => {
                current = inside;
            },
            None => {
                return None;
            },
        }
        i += 1;
    }
    Some(current)
}

} // verus!
