//! Checks that siblings have different identifiers.

use vstd::prelude::*;
use crate::generic_tree_item::{shapes_of, GenericTreeItem};
use crate::identifier::{lawful, same_identifier};
use crate::shape::distinct_identifiers;

verus! {

/// `std::io::Error`. Nothing is known of it.
#[verifier::external_type_specification]
#[verifier::external_body]
pub struct ExIoError(std::io::Error);

/// What an error tells: whether its kind is `AlreadyExists`, and its
/// message.
pub struct Told {
    pub already_exists: bool,
    pub message: Seq<char>,
}

/// What an error tells.
pub uninterp spec fn told(error: std::io::Error) -> Told;

/// Whether the error is of the kind `AlreadyExists` and says the message.
pub open spec fn says(error: std::io::Error, message: Seq<char>) -> bool {
    told(error) == (Told { already_exists: true, message })
}

/// `std::io::Error::new` with the kind `AlreadyExists` and the given
/// message: an error of that kind, which says the message.
#[verifier::external_body]
pub(crate) fn already_exists(message: &'static str) -> (r: std::io::Error)
    ensures
        told(r) == (Told { already_exists: true, message: message@ }),
{
    std::io::Error::new(std::io::ErrorKind::AlreadyExists, message)
}

/// Whether one of the items has the identifier of the item at `index`.
fn occurs_before<Item: GenericTreeItem>(items: &[Item], index: usize) -> (r: bool)
    requires
        lawful::<Item::Identifier>(),
        index < items@.len(),
    ensures
        r == exists|i: int|
            0 <= i < index && (#[trigger] items@[i]).shape().identifier
                == items@[index as int].shape().identifier,
{
    let mut i: usize = 0;
    while i < index
        invariant
            lawful::<Item::Identifier>(),
            i <= index < items@.len(),
            forall|k: int|
                0 <= k < i ==> (#[trigger] items@[k]).shape().identifier
                    != items@[index as int].shape().identifier,
        decreases index - i,
    {
        if same_identifier(items[i].identifier(), items[index].identifier()) {
            return true;
        }
        i += 1;
    }
    false
}

/// Whether no two of the items have the same identifier.
pub(crate) fn all_different<Item: GenericTreeItem>(items: &[Item]) -> (r: bool)
    requires
        lawful::<Item::Identifier>(),
    ensures
        r == distinct_identifiers(shapes_of(items@)),
{
    let mut j: usize = 0;
    while j < items.len()
        invariant
            lawful::<Item::Identifier>(),
            j <= items@.len(),
            forall|a: int, b: int|
                0 <= a < b < j ==> (#[trigger] items@[a]).shape().identifier != (
                #[trigger] items@[b]).shape().identifier,
        decreases items@.len() - j,
    {
        if occurs_before(items, j) {
            proof {
                let a = choose|a: int|
                    0 <= a < j && (#[trigger] items@[a]).shape().identifier
                        == items@[j as int].shape().identifier;
                assert(shapes_of(items@)[a].identifier == shapes_of(items@)[j as int].identifier);
            }
            return false;
        }
        j += 1;
    }
    assert forall|a: int, b: int| 0 <= a < b < shapes_of(items@).len() implies (
    #[trigger] shapes_of(items@)[a]).identifier != (#[trigger] shapes_of(items@)[b]).identifier by {
        assert(items@[a].shape().identifier != items@[b].shape().identifier);
    }
    true
}

/// Whether one of the items has the identifier of `add`.
pub(crate) fn occurs<Item: GenericTreeItem>(items: &[Item], add: &Item) -> (r: bool)
    requires
        lawful::<Item::Identifier>(),
    ensures
        r == exists|i: int|
            0 <= i < items@.len() && (#[trigger] items@[i]).shape().identifier
                == add.shape().identifier,
{
    let mut i: usize = 0;
    while i < items.len()
        invariant
            lawful::<Item::Identifier>(),
            i <= items@.len(),
            forall|k: int|
                0 <= k < i ==> (#[trigger] items@[k]).shape().identifier != add.shape().identifier,
        decreases items@.len() - i,
    {
        if same_identifier(items[i].identifier(), add.identifier()) {
            return true;
        }
        i += 1;
    }
    false
}

/// Ensures that all identifiers of the top level items are unique.
///
/// # Errors
///
/// Errors when there are duplicate identifiers in the items.
pub fn tree<Item: GenericTreeItem>(items: &[Item]) -> (r: std::io::Result<()>)
    requires
        lawful::<Item::Identifier>(),
    ensures
        r is Ok <==> distinct_identifiers(shapes_of(items@)),
        r matches Err(error) ==> says(error, "The items contain duplicate identifiers"@),
{
    if all_different(items) {
        Ok(())
    } else {
        Err(already_exists("The items contain duplicate identifiers"))
    }
}

/// Ensures that all identifiers in the items are unique.
///
/// This is useful when you implement your own tree item.
///
/// # Errors
///
/// Errors when there are duplicate identifiers in the children.
pub fn children<Item: GenericTreeItem>(items: &[Item]) -> (r: std::io::Result<()>)
    requires
        lawful::<Item::Identifier>(),
    ensures
        r is Ok <==> distinct_identifiers(shapes_of(items@)),
        r matches Err(error) ==> says(error, "The children contain duplicate identifiers"@),
{
    if all_different(items) {
        Ok(())
    } else {
        Err(already_exists("The children contain duplicate identifiers"))
    }
}

/// Ensures that the to be added child identifier does not exist in the
/// already existing children.
///
/// This is useful when you implement your own tree item.
///
/// # Errors
///
/// Errors when the new child would duplicate an existing identifier in the
/// children.
pub fn add_child<Item: GenericTreeItem>(existing_children: &[Item], add: &Item) -> (r:
    std::io::Result<()>)
    requires
        lawful::<Item::Identifier>(),
    ensures
        r is Err <==> exists|i: int|
            0 <= i < existing_children@.len() && (
            #[trigger] existing_children@[i]).shape().identifier == add.shape().identifier,
        r matches Err(error) ==> says(
            error,
            "The to be added child identifier already exists in the children"@,
        ),
{
    if occurs(existing_children, add) {
        Err(already_exists("The to be added child identifier already exists in the children"))
    } else {
        Ok(())
    }
}

} // verus!
