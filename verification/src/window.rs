//! Which of the flattened nodes are shown in a viewport.
//!
//! The nodes stand one below the other, each with its own height. The
//! window is the run of nodes that is drawn: it begins at the scroll offset,
//! or above it where a node has to be kept in view, and takes as many nodes
//! as fit. Where the node to keep in view lies below, the window slides down
//! until that node is its last one.

use vstd::prelude::*;
use crate::node::{node_heights, Node};

verus! {

/// The rows that the nodes from index `from` up to, but without, index `to`
/// take together.
pub open spec fn rows(heights: Seq<nat>, from: int, to: int) -> nat
    decreases to - from,
{
    if from >= to {
        0
    } else {
        rows(heights, from, to - 1) + heights[to - 1]
    }
}

/// The rows of a run are the height of its first node and the rows of the
/// rest.
pub proof fn lemma_rows_front(heights: Seq<nat>, from: int, to: int)
    requires
        from < to,
    ensures
        rows(heights, from, to) == heights[from] + rows(heights, from + 1, to),
    decreases to - from,
{
    if from + 1 < to {
        lemma_rows_front(heights, from, to - 1);
    } else {
        assert(rows(heights, from, to - 1) == 0);
        assert(rows(heights, from + 1, to) == 0);
    }
}

/// A run within another takes no more rows than it.
pub proof fn lemma_rows_monotone(heights: Seq<nat>, outer_from: int, from: int, to: int, outer_to: int)
    requires
        outer_from <= from,
        to <= outer_to,
    ensures
        rows(heights, from, to) <= rows(heights, outer_from, outer_to),
    decreases outer_to - to, from - outer_from,
{
    if from >= to {
    } else if to < outer_to {
        lemma_rows_monotone(heights, outer_from, from, to, outer_to - 1);
        assert(outer_from < outer_to);
    } else if outer_from < from {
        lemma_rows_monotone(heights, outer_from + 1, from, to, outer_to);
        lemma_rows_front(heights, outer_from, outer_to);
    }
}

/// The smaller of two numbers.
pub open spec fn least(a: nat, b: nat) -> nat {
    if a <= b {
        a
    } else {
        b
    }
}

/// The index at which the window begins before it slides: the scroll
/// offset, held within the list, and not below the node to keep in view.
pub open spec fn first_shown(count: nat, offset: nat, keep: Option<nat>) -> nat {
    let top = least(offset, (count - 1) as nat);
    match keep {
        Some(index) => least(top, index),
        None => top,
    }
}

/// Whether the run from `start` to `end` holds as many nodes as fit into
/// the available rows: it fits, and with one more node it would not.
pub open spec fn filled(heights: Seq<nat>, available: nat, start: int, end: int) -> bool {
    &&& 0 <= start <= end <= heights.len()
    &&& rows(heights, start, end) <= available
    &&& end < heights.len() ==> rows(heights, start, end + 1) > available
}

/// Whether the node to keep in view lies below what fits from the first
/// shown node on, so that the window has to slide.
pub open spec fn slides(heights: Seq<nat>, available: nat, offset: nat, keep: Option<nat>) -> bool {
    match keep {
        Some(index) => rows(
            heights,
            first_shown(heights.len(), offset, keep) as int,
            index as int + 1,
        ) > available,
        None => false,
    }
}

/// Whether the run from `start` to `end` is the window of the list.
///
/// Where the window does not slide, it begins at the first shown node and
/// is filled. Where it slides, it ends with the node to keep in view and
/// begins as early as the available rows allow, though not before the first
/// shown node.
pub open spec fn is_window(
    heights: Seq<nat>,
    available: nat,
    offset: nat,
    keep: Option<nat>,
    start: int,
    end: int,
) -> bool {
    let first = first_shown(heights.len(), offset, keep) as int;
    if slides(heights, available, offset, keep) {
        &&& end == keep.unwrap() + 1
        &&& first <= start <= end
        &&& rows(heights, start, end) <= available
        &&& start > first ==> rows(heights, start - 1, end) > available
    } else {
        &&& start == first
        &&& filled(heights, available, start, end)
    }
}

/// A list has one window.
pub proof fn lemma_window_unique(
    heights: Seq<nat>,
    available: nat,
    offset: nat,
    keep: Option<nat>,
    start: int,
    end: int,
    other_start: int,
    other_end: int,
)
    requires
        is_window(heights, available, offset, keep, start, end),
        is_window(heights, available, offset, keep, other_start, other_end),
    ensures
        start == other_start,
        end == other_end,
{
    if slides(heights, available, offset, keep) {
        if start < other_start {
            lemma_rows_monotone(heights, start, other_start - 1, end, end);
        }
        if other_start < start {
            lemma_rows_monotone(heights, other_start, start - 1, end, end);
        }
    } else {
        if end < other_end {
            lemma_rows_monotone(heights, start, start, end + 1, other_end);
        }
        if other_end < end {
            lemma_rows_monotone(heights, start, start, other_end + 1, end);
        }
    }
}

/// After a render of a list that is not empty the scroll offset, which is
/// where the window begins, is the index of a node, unless the node to keep
/// in view is the last one and taller than the viewport.
pub proof fn lemma_offset_within_list(
    heights: Seq<nat>,
    available: nat,
    offset: nat,
    keep: Option<nat>,
    start: int,
    end: int,
)
    requires
        heights.len() > 0,
        keep matches Some(index) ==> index < heights.len(),
        !(keep == Some((heights.len() - 1) as nat) && heights[heights.len() - 1] > available),
        is_window(heights, available, offset, keep, start, end),
    ensures
        0 <= start <= heights.len() - 1,
{
    if slides(heights, available, offset, keep) {
        let index = keep.unwrap() as int;
        if start == heights.len() {
            assert(rows(heights, index, index) == 0);
            assert(rows(heights, index, index + 1) == heights[index]);
        }
    }
}

/// A node to keep in view that is not taller than the viewport lies in the
/// window.
pub proof fn lemma_kept_in_view(
    heights: Seq<nat>,
    available: nat,
    offset: nat,
    index: nat,
    start: int,
    end: int,
)
    requires
        index < heights.len(),
        heights[index as int] <= available,
        is_window(heights, available, offset, Some(index), start, end),
    ensures
        start <= index < end,
{
    let keep = Some(index);
    let first = first_shown(heights.len(), offset, keep) as int;
    if slides(heights, available, offset, keep) {
        if start == index + 1 {
            assert(rows(heights, index as int, index as int) == 0);
            assert(rows(heights, index as int, index as int + 1) == heights[index as int]);
        }
    } else {
        if end <= index {
            lemma_rows_monotone(heights, first, first, end + 1, index as int + 1);
        }
    }
}

/// The window of a list: where it begins, where it ends, and the rows it
/// takes.
#[derive(Debug, Clone, Copy, PartialEq, Eq, Structural)]
pub struct Window {
    pub start: usize,
    pub end: usize,
    pub height: usize,
}

/// What is known of `usize` values applies to them as naturals.
pub open spec fn as_nat(value: Option<usize>) -> Option<nat> {
    match value {
        Some(index) => Some(index as nat),
        None => None,
    }
}

/// The window of the nodes in a viewport of the given height, scrolled to
/// the given offset, with the node at `ensure_index_in_view` kept in view.
pub fn window<Identifier>(
    nodes: &[Node<Identifier>],
    available_height: usize,
    offset: usize,
    ensure_index_in_view: Option<usize>,
) -> (r: Window)
    requires
        nodes@.len() > 0,
        ensure_index_in_view matches Some(index) ==> index < nodes@.len(),
    ensures
        is_window(
            node_heights(nodes@),
            available_height as nat,
            offset as nat,
            as_nat(ensure_index_in_view),
            r.start as int,
            r.end as int,
        ),
        r.height == rows(node_heights(nodes@), r.start as int, r.end as int),
{
    let ghost heights = node_heights(nodes@);
    let ghost available = available_height as nat;
    let ghost keep = as_nat(ensure_index_in_view);
    let last = nodes.len() - 1;
    let mut start = if offset < last {
        offset
    } else {
        last
    };
    if let Some(index) = ensure_index_in_view {
        if index < start {
            start = index;
        }
    }
    let ghost first = start as int;
    assert(first == first_shown(heights.len(), offset as nat, keep));
    let mut end = start;
    let mut height: usize = 0;
    while end < nodes.len()
        invariant
            heights == node_heights(nodes@),
            first == start,
            start <= end <= nodes@.len(),
            height == rows(heights, first, end as int),
            height <= available_height,
        ensures
            start <= end <= nodes@.len(),
            height == rows(heights, first, end as int),
            height <= available_height,
            end < nodes@.len() ==> rows(heights, first, end + 1) > available_height,
        decreases nodes@.len() - end,
    {
        let item_height = nodes[end].height;
        assert(heights[end as int] == item_height);
        if item_height > available_height - height {
            break ;
        }
        height += item_height;
        end += 1;
    }
    assert(filled(heights, available, first, end as int));
    match ensure_index_in_view {
        Some(index) => {
            if index >= end {
                proof {
                    lemma_rows_monotone(heights, first, first, end + 1, index + 1);
                }
                assert(slides(heights, available, offset as nat, keep));
                while index >= end
                    invariant
                        heights == node_heights(nodes@),
                        index < nodes@.len(),
                        first <= start <= end <= index + 1,
                        height == rows(heights, start as int, end as int),
                        height <= available_height,
                        start > first ==> rows(heights, start - 1, end as int) > available_height,
                    decreases index + 1 - end,
                {
                    let item_height = nodes[end].height;
                    assert(heights[end as int] == item_height);
                    let ghost old_end = end as int;
                    end += 1;
                    if item_height > available_height {
                        start = end;
                        height = 0;
                        assert(rows(heights, old_end, old_end) == 0);
                    } else {
                        proof {
                            if start > first {
                                lemma_rows_monotone(heights, start - 1, start - 1, old_end, end as int);
                            }
                        }
                        while height > available_height - item_height
                            invariant
                                heights == node_heights(nodes@),
                                item_height <= available_height,
                                heights[old_end] == item_height,
                                old_end + 1 == end,
                                end <= nodes@.len(),
                                first <= start <= old_end,
                                height == rows(heights, start as int, old_end),
                                start > first ==> rows(heights, start - 1, end as int)
                                    > available_height,
                            decreases old_end - start,
                        {
                            proof {
                                if start == old_end {
                                    assert(rows(heights, start as int, old_end) == 0);
                                }
                                lemma_rows_front(heights, start as int, old_end);
                            }
                            height -= nodes[start].height;
                            start += 1;
                        }
                        height += item_height;
                    }
                }
            } else {
                proof {
                    lemma_rows_monotone(heights, first, first, index + 1, end as int);
                }
            }
        },
        None => {},
    }
    Window { start, end, height }
}

} // verus!
