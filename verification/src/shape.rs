//! The mathematical model of a tree and of its flattening.
//!
//! Whatever holds the data, what the widget shows of it is a forest of
//! shapes: for each item its key, its height in rows and the shapes of its
//! children. Flattening lists the visible nodes of a forest in the order in
//! which they are read from top to bottom: each item, and directly after it,
//! when its path is open, its children.

use vstd::prelude::*;
use crate::node::NodeView;

verus! {

/// What the widget shows of one item.
pub struct Shape<K> {
    pub identifier: K,
    pub height: nat,
    pub children: Seq<Shape<K>>,
}

/// The node listed for an item whose parent has the path `current`.
pub open spec fn node_of<K>(item: Shape<K>, current: Seq<K>) -> NodeView<K> {
    NodeView {
        depth: current.len(),
        has_children: item.children.len() > 0,
        height: item.height,
        identifier: current.push(item.identifier),
    }
}

/// The visible nodes of the items below the path `current`.
pub open spec fn flattened<K>(open: Set<Seq<K>>, items: Seq<Shape<K>>, current: Seq<K>) -> Seq<
    NodeView<K>,
>
    decreases items, 0nat,
{
    if items.len() == 0 {
        Seq::empty()
    } else {
        flattened_item(open, items[0], current) + flattened(open, items.drop_first(), current)
    }
}

/// The visible nodes of one item: its own node, then those of its children
/// where its path is open.
pub open spec fn flattened_item<K>(open: Set<Seq<K>>, item: Shape<K>, current: Seq<K>) -> Seq<
    NodeView<K>,
>
    decreases item, 1nat,
{
    let path = current.push(item.identifier);
    seq![node_of(item, current)] + (if open.contains(path) {
        flattened(open, item.children, path)
    } else {
        Seq::empty()
    })
}

/// Whether a node lies below the path `current` with every path between the
/// two open: its path begins with `current`, its depth is the length of its
/// path less one, and each of its ancestors that is longer than `current` is
/// in the open set.
pub open spec fn reachable<K>(open: Set<Seq<K>>, current: Seq<K>, node: NodeView<K>) -> bool {
    &&& node.depth >= current.len()
    &&& node.identifier.len() == node.depth + 1
    &&& node.identifier.take(current.len() as int) == current
    &&& forall|k: int|
        current.len() < k <= node.depth ==> open.contains(#[trigger] node.identifier.take(k))
}

/// Whether `next` may stand directly after `node`: it is at most one level
/// deeper, and where it is deeper, `node` is open and `next` is its child.
pub open spec fn follows<K>(open: Set<Seq<K>>, node: NodeView<K>, next: NodeView<K>) -> bool {
    &&& next.depth <= node.depth + 1
    &&& next.depth == node.depth + 1 ==> open.contains(node.identifier)
        && next.identifier.drop_last() == node.identifier
}

proof fn lemma_reachable_deeper<K>(
    open: Set<Seq<K>>,
    current: Seq<K>,
    key: K,
    node: NodeView<K>,
)
    requires
        open.contains(current.push(key)),
        reachable(open, current.push(key), node),
    ensures
        reachable(open, current, node),
{
    let path = current.push(key);
    assert(node.identifier.take(current.len() as int) =~= path.take(current.len() as int)) by {
        assert(node.identifier.take(path.len() as int) == path);
        assert(node.identifier.take(path.len() as int).take(current.len() as int)
            =~= node.identifier.take(current.len() as int));
    }
    assert(path.take(current.len() as int) =~= current);
    assert forall|k: int| current.len() < k <= node.depth implies open.contains(
        #[trigger] node.identifier.take(k),
    ) by {
        if k == path.len() {
            assert(node.identifier.take(k) == path);
        }
    }
}

/// Every listed node lies below `current` with every path between the two
/// open, and the list begins with the node of the first item.
pub proof fn lemma_flattened_reachable<K>(
    open: Set<Seq<K>>,
    items: Seq<Shape<K>>,
    current: Seq<K>,
)
    ensures
        forall|i: int|
            0 <= i < flattened(open, items, current).len() ==> reachable(
                open,
                current,
                #[trigger] flattened(open, items, current)[i],
            ),
        items.len() > 0 ==> flattened(open, items, current).len() > 0 && flattened(
            open,
            items,
            current,
        )[0] == node_of(items[0], current),
        items.len() == 0 ==> flattened(open, items, current).len() == 0,
    decreases items, 0nat,
{
    if items.len() > 0 {
        lemma_flattened_item_reachable(open, items[0], current);
        lemma_flattened_reachable(open, items.drop_first(), current);
        let first = flattened_item(open, items[0], current);
        let rest = flattened(open, items.drop_first(), current);
        assert forall|i: int| 0 <= i < flattened(open, items, current).len() implies reachable(
            open,
            current,
            #[trigger] flattened(open, items, current)[i],
        ) by {
            if i < first.len() {
                assert(flattened(open, items, current)[i] == first[i]);
            } else {
                assert(flattened(open, items, current)[i] == rest[i - first.len()]);
            }
        }
    }
}

/// The same for the nodes of one item.
pub proof fn lemma_flattened_item_reachable<K>(
    open: Set<Seq<K>>,
    item: Shape<K>,
    current: Seq<K>,
)
    ensures
        forall|i: int|
            0 <= i < flattened_item(open, item, current).len() ==> reachable(
                open,
                current,
                #[trigger] flattened_item(open, item, current)[i],
            ),
        flattened_item(open, item, current).len() > 0,
        flattened_item(open, item, current)[0] == node_of(item, current),
    decreases item, 1nat,
{
    let path = current.push(item.identifier);
    let own = node_of(item, current);
    assert(own.identifier.take(current.len() as int) =~= current);
    assert(reachable(open, current, own));
    if open.contains(path) {
        lemma_flattened_reachable(open, item.children, path);
        let below = flattened(open, item.children, path);
        assert forall|i: int|
            0 <= i < flattened_item(open, item, current).len() implies reachable(
            open,
            current,
            #[trigger] flattened_item(open, item, current)[i],
        ) by {
            if i > 0 {
                assert(flattened_item(open, item, current)[i] == below[i - 1]);
                lemma_reachable_deeper(open, current, item.identifier, below[i - 1]);
            }
        }
    }
}

/// In a flattened list each node is followed by its first child, where it is
/// open and has one, or else by a node that is not deeper than itself.
pub proof fn lemma_flattened_order<K>(open: Set<Seq<K>>, items: Seq<Shape<K>>, current: Seq<K>)
    ensures
        forall|i: int|
            0 <= i && i + 1 < flattened(open, items, current).len() ==> follows(
                open,
                #[trigger] flattened(open, items, current)[i],
                flattened(open, items, current)[i + 1],
            ),
    decreases items, 0nat,
{
    if items.len() > 0 {
        lemma_flattened_item_order(open, items[0], current);
        lemma_flattened_order(open, items.drop_first(), current);
        lemma_flattened_item_reachable(open, items[0], current);
        lemma_flattened_reachable(open, items.drop_first(), current);
        let first = flattened_item(open, items[0], current);
        let rest = flattened(open, items.drop_first(), current);
        let all = flattened(open, items, current);
        assert forall|i: int| 0 <= i && i + 1 < all.len() implies follows(
            open,
            #[trigger] all[i],
            all[i + 1],
        ) by {
            if i + 1 < first.len() {
                assert(all[i] == first[i]);
                assert(all[i + 1] == first[i + 1]);
            } else if i < first.len() {
                assert(all[i] == first[i]);
                assert(all[i + 1] == rest[0]);
                assert(reachable(open, current, first[i]));
                assert(rest[0] == node_of(items.drop_first()[0], current));
            } else {
                assert(all[i] == rest[i - first.len()]);
                assert(all[i + 1] == rest[i - first.len() + 1]);
            }
        }
    }
}

/// The same for the nodes of one item.
pub proof fn lemma_flattened_item_order<K>(open: Set<Seq<K>>, item: Shape<K>, current: Seq<K>)
    ensures
        forall|i: int|
            0 <= i && i + 1 < flattened_item(open, item, current).len() ==> follows(
                open,
                #[trigger] flattened_item(open, item, current)[i],
                flattened_item(open, item, current)[i + 1],
            ),
    decreases item, 1nat,
{
    let path = current.push(item.identifier);
    if open.contains(path) {
        lemma_flattened_order(open, item.children, path);
        lemma_flattened_reachable(open, item.children, path);
        let below = flattened(open, item.children, path);
        let all = flattened_item(open, item, current);
        assert forall|i: int| 0 <= i && i + 1 < all.len() implies follows(
            open,
            #[trigger] all[i],
            all[i + 1],
        ) by {
            if i == 0 {
                assert(all[0] == node_of(item, current));
                assert(all[1] == below[0]);
                assert(below[0] == node_of(item.children[0], path));
                assert(path.push(item.children[0].identifier).drop_last() =~= path);
            } else {
                assert(all[i] == below[i - 1]);
                assert(all[i + 1] == below[i]);
            }
        }
    }
}

/// No node below a closed path is listed: a listed node that lies below a
/// path has that path open.
pub proof fn lemma_closed_subtree_excluded<K>(
    open: Set<Seq<K>>,
    items: Seq<Shape<K>>,
    closed: Seq<K>,
    i: int,
)
    requires
        0 <= i < flattened(open, items, Seq::empty()).len(),
        0 < closed.len() < flattened(open, items, Seq::empty())[i].identifier.len(),
        flattened(open, items, Seq::empty())[i].identifier.take(closed.len() as int) == closed,
    ensures
        open.contains(closed),
{
    lemma_flattened_reachable(open, items, Seq::empty());
    let node = flattened(open, items, Seq::empty())[i];
    assert(reachable(open, Seq::empty(), node));
    assert(open.contains(node.identifier.take(closed.len() as int)));
}

/// Flattening goes by nothing but the open paths and the shapes: two open
/// sets with the same paths give the same list.
pub proof fn lemma_flattened_deterministic<K>(
    open: Set<Seq<K>>,
    other: Set<Seq<K>>,
    items: Seq<Shape<K>>,
    current: Seq<K>,
)
    requires
        forall|path: Seq<K>| open.contains(path) <==> other.contains(path),
    ensures
        flattened(open, items, current) == flattened(other, items, current),
{
    assert(open =~= other);
}

} // verus!

verus! {

/// Whether no two of the items have the same identifier.
pub open spec fn distinct_identifiers<K>(items: Seq<Shape<K>>) -> bool {
    forall|i: int, j: int|
        0 <= i < j < items.len() ==> (#[trigger] items[i]).identifier != (
        #[trigger] items[j]).identifier
}

/// Whether siblings have different identifiers, at every level of the
/// forest.
pub open spec fn unique_siblings<K>(items: Seq<Shape<K>>) -> bool
    decreases items,
{
    &&& distinct_identifiers(items)
    &&& forall|i: int| 0 <= i < items.len() ==> unique_siblings((#[trigger] items[i]).children)
}

/// Whether the path of the node begins with the path of one of the items
/// below `current`.
pub open spec fn below_one_of<K>(items: Seq<Shape<K>>, current: Seq<K>, node: NodeView<K>) -> bool {
    exists|k: int|
        0 <= k < items.len() && node.identifier.len() > current.len() && node.identifier.take(
            current.len() as int + 1,
        ) == current.push((#[trigger] items[k]).identifier)
}

proof fn lemma_flattened_item_below<K>(open: Set<Seq<K>>, item: Shape<K>, current: Seq<K>, i: int)
    requires
        0 <= i < flattened_item(open, item, current).len(),
    ensures
        flattened_item(open, item, current)[i].identifier.len() > current.len(),
        flattened_item(open, item, current)[i].identifier.take(current.len() as int + 1) == current.push(
            item.identifier,
        ),
        i > 0 ==> flattened_item(open, item, current)[i].identifier.len() > current.len() as int + 1,
{
    let path = current.push(item.identifier);
    let node = flattened_item(open, item, current)[i];
    if i == 0 {
        assert(node.identifier.take(current.len() as int + 1) =~= path);
    } else {
        lemma_flattened_reachable(open, item.children, path);
        assert(node == flattened(open, item.children, path)[i - 1]);
        assert(reachable(open, path, node));
    }
}

proof fn lemma_flattened_below<K>(open: Set<Seq<K>>, items: Seq<Shape<K>>, current: Seq<K>, i: int)
    requires
        0 <= i < flattened(open, items, current).len(),
    ensures
        below_one_of(items, current, flattened(open, items, current)[i]),
    decreases items.len(),
{
    let first = flattened_item(open, items[0], current);
    if i < first.len() {
        lemma_flattened_item_below(open, items[0], current, i);
        assert(flattened(open, items, current)[i] == first[i]);
    } else {
        lemma_flattened_below(open, items.drop_first(), current, i - first.len());
        let node = flattened(open, items.drop_first(), current)[i - first.len()];
        assert(flattened(open, items, current)[i] == node);
        let k = choose|k: int|
            0 <= k < items.drop_first().len() && node.identifier.len() > current.len()
                && node.identifier.take(current.len() as int + 1) == current.push(
                (#[trigger] items.drop_first()[k]).identifier,
            );
        assert(items[k + 1] == items.drop_first()[k]);
    }
}

/// Where siblings have different identifiers at every level, no two listed
/// nodes have the same path.
pub proof fn lemma_flattened_paths_distinct<K>(
    open: Set<Seq<K>>,
    items: Seq<Shape<K>>,
    current: Seq<K>,
)
    requires
        unique_siblings(items),
    ensures
        forall|i: int, j: int|
            0 <= i < j < flattened(open, items, current).len() ==> (#[trigger] flattened(
                open,
                items,
                current,
            )[i]).identifier != (#[trigger] flattened(open, items, current)[j]).identifier,
    decreases items, 0nat,
{
    if items.len() > 0 {
        let first = flattened_item(open, items[0], current);
        let rest = flattened(open, items.drop_first(), current);
        let all = flattened(open, items, current);
        assert(unique_siblings(items.drop_first())) by {
            assert forall|a: int, b: int| 0 <= a < b < items.drop_first().len() implies (
            #[trigger] items.drop_first()[a]).identifier != (
            #[trigger] items.drop_first()[b]).identifier by {
                assert(items[a + 1].identifier != items[b + 1].identifier);
            }
            assert forall|a: int| 0 <= a < items.drop_first().len() implies unique_siblings(
                (#[trigger] items.drop_first()[a]).children,
            ) by {
                assert(unique_siblings(items[a + 1].children));
            }
        }
        assert(unique_siblings(items[0].children));
        lemma_flattened_item_paths_distinct(open, items[0], current);
        lemma_flattened_paths_distinct(open, items.drop_first(), current);
        assert forall|i: int, j: int| 0 <= i < j < all.len() implies (#[trigger] all[i]).identifier
            != (#[trigger] all[j]).identifier by {
            if j < first.len() {
                assert(all[i] == first[i]);
                assert(all[j] == first[j]);
            } else if i >= first.len() {
                assert(all[i] == rest[i - first.len()]);
                assert(all[j] == rest[j - first.len()]);
            } else {
                assert(all[i] == first[i]);
                assert(all[j] == rest[j - first.len()]);
                lemma_flattened_item_below(open, items[0], current, i);
                lemma_flattened_below(open, items.drop_first(), current, j - first.len());
                let k = choose|k: int|
                    0 <= k < items.drop_first().len() && all[j].identifier.len() > current.len()
                        && all[j].identifier.take(current.len() as int + 1) == current.push(
                        (#[trigger] items.drop_first()[k]).identifier,
                    );
                assert(items[k + 1] == items.drop_first()[k]);
                assert(items[0].identifier != items[k + 1].identifier);
                assert(current.push(items[0].identifier)[current.len() as int]
                    != current.push(items[k + 1].identifier)[current.len() as int]);
            }
        }
    }
}

/// The same for the nodes of one item.
pub proof fn lemma_flattened_item_paths_distinct<K>(
    open: Set<Seq<K>>,
    item: Shape<K>,
    current: Seq<K>,
)
    requires
        unique_siblings(item.children),
    ensures
        forall|i: int, j: int|
            0 <= i < j < flattened_item(open, item, current).len() ==> (#[trigger] flattened_item(
                open,
                item,
                current,
            )[i]).identifier != (#[trigger] flattened_item(open, item, current)[j]).identifier,
    decreases item, 1nat,
{
    let path = current.push(item.identifier);
    let all = flattened_item(open, item, current);
    if open.contains(path) {
        lemma_flattened_paths_distinct(open, item.children, path);
        let below = flattened(open, item.children, path);
        assert forall|i: int, j: int| 0 <= i < j < all.len() implies (#[trigger] all[i]).identifier
            != (#[trigger] all[j]).identifier by {
            if i == 0 {
                lemma_flattened_item_below(open, item, current, j);
            } else {
                assert(all[i] == below[i - 1]);
                assert(all[j] == below[j - 1]);
            }
        }
    }
}

} // verus!
