use vstd::prelude::*;

use crate::ids::PaneId;
use crate::layout::{
    AdjacentSearch, LayoutError, LayoutNode, MAX_TERMINALS_PER_WORKSPACE, SplitAxis, SplitDirection,
    default_ratio, managed_layout, first_row_len, neighbour_at, ratio_in_range, ratios_in_range,
    row_layout,
};
use crate::seq_facts::{first_index, lemma_concat_contains, lemma_first_index_bounds,
    lemma_first_index_concat};

verus! {

proof fn lemma_no_duplicates_concat(a: Seq<PaneId>, b: Seq<PaneId>)
    ensures
        (a + b).no_duplicates() <==> (a.no_duplicates() && b.no_duplicates() && forall|x: PaneId|
            a.contains(x) ==> !b.contains(x)),
{
    let s = a + b;
    if s.no_duplicates() {
        assert forall|i: int, j: int| 0 <= i < a.len() && 0 <= j < a.len() && i != j implies a[i]
            != a[j] by {
            assert(s[i] == a[i] && s[j] == a[j]);
        }
        assert forall|i: int, j: int| 0 <= i < b.len() && 0 <= j < b.len() && i != j implies b[i]
            != b[j] by {
            assert(s[a.len() + i] == b[i] && s[a.len() + j] == b[j]);
        }
        assert forall|x: PaneId| a.contains(x) implies !b.contains(x) by {
            let i = choose|i: int| 0 <= i < a.len() && a[i] == x;
            if b.contains(x) {
                let j = choose|j: int| 0 <= j < b.len() && b[j] == x;
                assert(s[i] == s[a.len() + j]);
            }
        }
    }
    if a.no_duplicates() && b.no_duplicates() && forall|x: PaneId| a.contains(x) ==> !b.contains(x) {
        assert forall|i: int, j: int| 0 <= i < s.len() && 0 <= j < s.len() && i != j implies s[i]
            != s[j] by {
            if i < a.len() && j >= a.len() {
                assert(a.contains(s[i]));
                assert(b[j - a.len()] == s[j]);
            } else if i >= a.len() && j < a.len() {
                assert(a.contains(s[j]));
                assert(b[i - a.len()] == s[i]);
            } else if i >= a.len() && j >= a.len() {
                assert(b[i - a.len()] == s[i] && b[j - a.len()] == s[j]);
            }
        }
    }
}

proof fn lemma_validate_from(node: LayoutNode, seen: Seq<PaneId>)
    requires
        seen.no_duplicates(),
    ensures
        node.validate_from(seen) is Ok <==> (ratios_in_range(node) && (seen
            + node.panes()).no_duplicates()),
        node.validate_from(seen) matches Ok(after) ==> after == seen + node.panes(),
    decreases node,
{
    match node {
        LayoutNode::Empty => {
            assert(seen + node.panes() =~= seen);
        },
        LayoutNode::Pane { pane_id } => {
            assert(seen + node.panes() =~= seen.push(pane_id));
            lemma_no_duplicates_concat(seen, seq![pane_id]);
            if seen.contains(pane_id) {
                assert(seq![pane_id][0] == pane_id);
                assert(seq![pane_id].contains(pane_id));
            }
            assert forall|x: PaneId| seen.contains(x) && seq![pane_id].contains(x) implies x
                == pane_id by {
                assert(seq![pane_id][0] == pane_id);
            }
        },
        LayoutNode::Split { ratio, first, second, .. } => {
            let f = first.panes();
            let g = second.panes();
            assert(seen + node.panes() =~= (seen + f) + g);
            lemma_no_duplicates_concat(seen + f, g);
            if ratio_in_range(ratio) {
                lemma_validate_from(*first, seen);
                match first.validate_from(seen) {
                    Ok(after) => {
                        lemma_validate_from(*second, after);
                    },
                    Err(_) => {},
                }
            }
        },
    }
}

/// A layout passes `validate` exactly when every split ratio is in range and no pane repeats.
pub proof fn validate_accepts_exactly(node: LayoutNode)
    ensures
        node.validation() is Ok <==> ratios_in_range(node) && node.panes().no_duplicates(),
{
    let empty = Seq::<PaneId>::empty();
    lemma_validate_from(node, empty);
    assert(empty + node.panes() =~= node.panes());
}

proof fn lemma_row_layout(panes: Seq<PaneId>)
    requires
        panes.len() <= 10,
    ensures
        row_layout(panes).panes() == panes,
        ratios_in_range(row_layout(panes)),
    decreases panes.len(),
{
    if panes.len() == 0 {
        assert(row_layout(panes).panes() =~= panes);
    } else if panes.len() == 1 {
        assert(row_layout(panes) == LayoutNode::Pane { pane_id: panes[0] });
        assert(row_layout(panes).panes() =~= panes);
    } else {
        lemma_row_layout(panes.drop_first());
        let head = LayoutNode::Pane { pane_id: panes[0] };
        assert(head.panes() == seq![panes[0]]);
        assert(ratios_in_range(head));
        assert(row_layout(panes).panes() == head.panes() + row_layout(panes.drop_first()).panes());
        assert(seq![panes[0]] + panes.drop_first() =~= panes);
    }
}

proof fn lemma_row_layout_panes(panes: Seq<PaneId>)
    ensures
        row_layout(panes).panes() == panes,
    decreases panes.len(),
{
    if panes.len() == 0 {
        assert(row_layout(panes).panes() =~= panes);
    } else if panes.len() == 1 {
        assert(row_layout(panes) == LayoutNode::Pane { pane_id: panes[0] });
        assert(row_layout(panes).panes() =~= panes);
    } else {
        lemma_row_layout_panes(panes.drop_first());
        let head = LayoutNode::Pane { pane_id: panes[0] };
        assert(head.panes() == seq![panes[0]]);
        assert(row_layout(panes).panes() == head.panes() + row_layout(panes.drop_first()).panes());
        assert(seq![panes[0]] + panes.drop_first() =~= panes);
    }
}

/// The managed arrangement holds exactly the given panes, in the given order.
pub proof fn managed_layout_keeps_panes(panes: Seq<PaneId>)
    ensures
        managed_layout(panes).panes() == panes,
{
    if panes.len() <= 3 {
        lemma_row_layout_panes(panes);
    } else {
        let k = first_row_len(panes.len()) as int;
        lemma_row_layout_panes(panes.take(k));
        lemma_row_layout_panes(panes.skip(k));
        assert(panes.take(k) + panes.skip(k) =~= panes);
    }
}

/// The managed arrangement of at most six distinct panes passes `validate`.
pub proof fn managed_layout_is_valid(panes: Seq<PaneId>)
    requires
        panes.no_duplicates(),
        panes.len() <= MAX_TERMINALS_PER_WORKSPACE,
    ensures
        managed_layout(panes).validation() == Ok::<(), LayoutError>(()),
{
    managed_layout_keeps_panes(panes);
    if panes.len() <= 3 {
        lemma_row_layout(panes);
    } else {
        let k = first_row_len(panes.len()) as int;
        lemma_row_layout(panes.take(k));
        lemma_row_layout(panes.skip(k));
        assert(ratio_in_range(default_ratio()));
    }
    validate_accepts_exactly(managed_layout(panes));
}

proof fn lemma_split_first(node: LayoutNode, target: PaneId, new_pane: PaneId, axis: SplitAxis)
    requires
        node.panes().contains(target),
    ensures
        node.split_first(target, new_pane, axis).panes() == node.panes().insert(
            first_index(node.panes(), target) + 1int,
            new_pane,
        ),
        ratios_in_range(node) ==> ratios_in_range(node.split_first(target, new_pane, axis)),
    decreases node,
{
    lemma_first_index_bounds(node.panes(), target);
    match node {
        LayoutNode::Empty => {},
        LayoutNode::Pane { pane_id } => {
            assert(node.panes()[0] == pane_id);
            let result = node.split_first(target, new_pane, axis);
            let left = LayoutNode::Pane { pane_id: target };
            let right = LayoutNode::Pane { pane_id: new_pane };
            assert(left.panes() == seq![target]);
            assert(right.panes() == seq![new_pane]);
            assert(result.panes() == left.panes() + right.panes());
            assert(result.panes() =~= node.panes().insert(1, new_pane));
            assert(ratio_in_range(default_ratio()));
            assert(ratios_in_range(left) && ratios_in_range(right));
        },
        LayoutNode::Split { axis: a, ratio, first, second } => {
            let f = first.panes();
            let g = second.panes();
            lemma_concat_contains(f, g, target);
            lemma_first_index_concat(f, g, target);
            if f.contains(target) {
                lemma_split_first(*first, target, new_pane, axis);
                lemma_first_index_bounds(f, target);
                let i = first_index(f, target) + 1int;
                assert(f.insert(i, new_pane) + g =~= (f + g).insert(i, new_pane));
            } else {
                lemma_split_first(*second, target, new_pane, axis);
                lemma_first_index_bounds(g, target);
                let j = first_index(g, target) + 1int;
                assert(f + g.insert(j, new_pane) =~= (f + g).insert(f.len() + j, new_pane));
            }
        },
    }
}

proof fn lemma_insert_no_duplicates(s: Seq<PaneId>, i: int, x: PaneId)
    requires
        s.no_duplicates(),
        !s.contains(x),
        0 <= i <= s.len(),
    ensures
        s.insert(i, x).no_duplicates(),
        s.insert(i, x).contains(x),
{
    let t = s.insert(i, x);
    assert(t[i] == x);
    assert forall|p: int, q: int| 0 <= p < t.len() && 0 <= q < t.len() && p != q implies t[p]
        != t[q] by {
        let sp = if p < i { p } else { p - 1 };
        let sq = if q < i { q } else { q - 1 };
        if p != i && q != i {
            assert(t[p] == s[sp] && t[q] == s[sq]);
        } else if p == i {
            assert(t[q] == s[sq]);
        } else {
            assert(t[p] == s[sp]);
        }
    }
}

/// Splitting a present pane with a new one puts the new pane right after the first occurrence
/// of the target, left to right.
pub proof fn split_inserts_after_target(
    node: LayoutNode,
    target: PaneId,
    new_pane: PaneId,
    axis: SplitAxis,
)
    requires
        node.panes().contains(target),
    ensures
        node.split_first(target, new_pane, axis).panes() == node.panes().insert(
            first_index(node.panes(), target) + 1int,
            new_pane,
        ),
{
    lemma_split_first(node, target, new_pane, axis);
}

/// A successful split of a valid layout leaves a valid layout.
pub proof fn split_keeps_layout_valid(
    node: LayoutNode,
    target: PaneId,
    new_pane: PaneId,
    axis: SplitAxis,
)
    requires
        node.validation() is Ok,
        node.panes().contains(target),
        !node.panes().contains(new_pane),
    ensures
        node.split_first(target, new_pane, axis).validation() is Ok,
{
    validate_accepts_exactly(node);
    lemma_split_first(node, target, new_pane, axis);
    lemma_first_index_bounds(node.panes(), target);
    lemma_insert_no_duplicates(node.panes(), first_index(node.panes(), target) + 1int, new_pane);
    validate_accepts_exactly(node.split_first(target, new_pane, axis));
}

/// Whether `x` occurs exactly once in `s`.
pub open spec fn occurs_once<A>(s: Seq<A>, x: A) -> bool {
    &&& s.contains(x)
    &&& forall|i: int, j: int|
        0 <= i < s.len() && 0 <= j < s.len() && s[i] == x && s[j] == x ==> i == j
}

proof fn lemma_occurs_once_concat<A>(f: Seq<A>, g: Seq<A>, x: A)
    requires
        occurs_once(f + g, x),
    ensures
        f.contains(x) ==> occurs_once(f, x) && !g.contains(x),
        g.contains(x) ==> occurs_once(g, x) && !f.contains(x),
{
    let s = f + g;
    if f.contains(x) {
        let k = choose|k: int| 0 <= k < f.len() && f[k] == x;
        assert(s[k] == x);
        assert forall|i: int, j: int|
            0 <= i < f.len() && 0 <= j < f.len() && f[i] == x && f[j] == x implies i == j by {
            assert(s[i] == x && s[j] == x);
        }
        if g.contains(x) {
            let m = choose|m: int| 0 <= m < g.len() && g[m] == x;
            assert(s[f.len() + m] == x);
        }
    }
    if g.contains(x) {
        let m = choose|m: int| 0 <= m < g.len() && g[m] == x;
        assert(s[f.len() + m] == x);
        assert forall|i: int, j: int|
            0 <= i < g.len() && 0 <= j < g.len() && g[i] == x && g[j] == x implies i == j by {
            assert(s[f.len() + i] == x && s[f.len() + j] == x);
        }
        if f.contains(x) {
            let k = choose|k: int| 0 <= k < f.len() && f[k] == x;
            assert(s[k] == x);
        }
    }
}

proof fn lemma_without_pane(node: LayoutNode, target: PaneId)
    ensures
        node.without_pane(target) is Some <==> (node is Split && node.panes().contains(target)),
        node.without_pane(target) matches Some(rest) ==> (ratios_in_range(node) ==> ratios_in_range(
            rest,
        )),
        node.without_pane(target) matches Some(rest) ==> (occurs_once(node.panes(), target)
            ==> rest.panes() == node.panes().remove(first_index(node.panes(), target) as int)),
    decreases node,
{
    match node {
        LayoutNode::Split { axis, ratio, first, second } => {
            let f = first.panes();
            let g = second.panes();
            lemma_concat_contains(f, g, target);
            lemma_first_index_concat(f, g, target);
            if occurs_once(f + g, target) {
                lemma_occurs_once_concat(f, g, target);
            }
            if *first == (LayoutNode::Pane { pane_id: target }) {
                assert(f == seq![target]);
                assert(f[0] == target);
                assert(f.contains(target));
                assert(first_index(f, target) == 0);
                assert((f + g).remove(0) =~= g);
            } else if *second == (LayoutNode::Pane { pane_id: target }) {
                assert(g == seq![target]);
                assert(g[0] == target);
                assert(g.contains(target));
                assert(first_index(g, target) == 0);
                if occurs_once(node.panes(), target) {
                    assert(!f.contains(target));
                }
                assert((f + g).remove(f.len() as int) =~= f);
            } else {
                lemma_without_pane(*first, target);
                lemma_without_pane(*second, target);
                if first.without_pane(target) is None {
                    if f.contains(target) {
                        match *first {
                            LayoutNode::Pane { pane_id } => {
                                assert(f == seq![pane_id]);
                                assert(f[0] == pane_id);
                            },
                            _ => {},
                        }
                    }
                    if second.without_pane(target) is None && g.contains(target) {
                        match *second {
                            LayoutNode::Pane { pane_id } => {
                                assert(g == seq![pane_id]);
                                assert(g[0] == pane_id);
                            },
                            _ => {},
                        }
                    }
                    if second.without_pane(target) is Some {
                        lemma_first_index_bounds(g, target);
                        let j = first_index(g, target) as int;
                        assert(f + g.remove(j) =~= (f + g).remove(f.len() + j));
                    }
                } else {
                    lemma_first_index_bounds(f, target);
                    let i = first_index(f, target) as int;
                    assert(f.remove(i) + g =~= (f + g).remove(i));
                }
            }
        },
        _ => {},
    }
}

/// `close` succeeds exactly when the target is present and the tree is not that single pane.
pub proof fn close_succeeds_exactly_when_present(node: LayoutNode, target: PaneId)
    ensures
        (!node.is_pane_of(target) && node.without_pane(target) is Some) <==> (node.panes().contains(
            target,
        ) && !node.is_pane_of(target)),
{
    lemma_without_pane(node, target);
    if node.panes().contains(target) && !(node is Split) {
        match node {
            LayoutNode::Pane { pane_id } => {
                assert(node.panes()[0] == pane_id);
            },
            _ => {},
        }
    }
}

/// Closing a pane whose id occurs once in the layout removes exactly that pane, keeping the
/// others in order, and keeps every remaining ratio.
pub proof fn close_removes_only_target(node: LayoutNode, target: PaneId)
    requires
        occurs_once(node.panes(), target),
        node.without_pane(target) is Some,
    ensures
        node.without_pane(target).unwrap().panes() == node.panes().remove(
            first_index(node.panes(), target) as int,
        ),
        node.validation() is Ok ==> node.without_pane(target).unwrap().validation() is Ok,
{
    lemma_without_pane(node, target);
    let rest = node.without_pane(target).unwrap();
    lemma_first_index_bounds(node.panes(), target);
    let s = node.panes();
    let i = first_index(s, target) as int;
    if s.no_duplicates() {
        assert forall|p: int, q: int| 0 <= p < s.remove(i).len() && 0 <= q < s.remove(i).len() && p
            != q implies s.remove(i)[p] != s.remove(i)[q] by {
            let sp = if p < i { p } else { p + 1 };
            let sq = if q < i { q } else { q + 1 };
            assert(s.remove(i)[p] == s[sp] && s.remove(i)[q] == s[sq]);
        }
    }
    validate_accepts_exactly(node);
    validate_accepts_exactly(rest);
}

proof fn lemma_without_pane_absent(node: LayoutNode, target: PaneId)
    requires
        !node.panes().contains(target),
    ensures
        node.without_pane(target) is None,
{
    lemma_without_pane(node, target);
}

/// Splitting a pane and then closing the new pane gives back the layout it started from.
pub proof fn split_then_close_restores(
    node: LayoutNode,
    target: PaneId,
    new_pane: PaneId,
    axis: SplitAxis,
)
    requires
        node.panes().contains(target),
        !node.panes().contains(new_pane),
    ensures
        node.split_first(target, new_pane, axis).without_pane(new_pane) == Some(node),
    decreases node,
{
    lemma_split_first(node, target, new_pane, axis);
    match node {
        LayoutNode::Pane { pane_id } => {
            assert(node.panes()[0] == pane_id);
            assert(pane_id != new_pane);
        },
        LayoutNode::Split { axis: a, ratio, first, second } => {
            let f = first.panes();
            let g = second.panes();
            lemma_concat_contains(f, g, target);
            lemma_concat_contains(f, g, new_pane);
            let new_leaf = LayoutNode::Pane { pane_id: new_pane };
            assert(new_leaf.panes() == seq![new_pane]);
            assert(new_leaf.panes()[0] == new_pane);
            if f.contains(target) {
                split_then_close_restores(*first, target, new_pane, axis);
                lemma_split_first(*first, target, new_pane, axis);
                let split_part = first.split_first(target, new_pane, axis);
                lemma_first_index_bounds(f, target);
                assert(split_part.panes()[first_index(f, target) as int] == target);
                if split_part == new_leaf {
                    assert(split_part.panes().len() == 2);
                }
                if *second == new_leaf {
                    assert(g.contains(new_pane));
                }
            } else {
                split_then_close_restores(*second, target, new_pane, axis);
                lemma_split_first(*second, target, new_pane, axis);
                let split_part = second.split_first(target, new_pane, axis);
                lemma_first_index_bounds(g, target);
                assert(split_part.panes()[first_index(g, target) as int] == target);
                if split_part == new_leaf {
                    assert(split_part.panes().len() == 2);
                }
                if *first == new_leaf {
                    assert(f.contains(new_pane));
                }
                lemma_without_pane_absent(*first, new_pane);
            }
        },
        LayoutNode::Empty => {},
    }
}

/// The neighbour taken from a sibling subtree is the pane at the same position, or the
/// sibling's last pane when the position is past its end; a sibling without panes gives none.
pub proof fn neighbour_is_same_position_or_last(sibling: Seq<PaneId>, position: nat)
    ensures
        sibling.len() == 0 ==> neighbour_at(sibling, position) is None,
        0 < sibling.len() && position < sibling.len() ==> neighbour_at(sibling, position) == Some(
            sibling[position as int],
        ),
        0 < sibling.len() && position >= sibling.len() ==> neighbour_at(sibling, position) == Some(
            sibling.last(),
        ),
{
}

/// Within one row, moving up or down decides nothing: the row has only column splits.
proof fn lemma_row_has_no_vertical_neighbour(panes: Seq<PaneId>, current: PaneId, direction: SplitDirection)
    requires
        direction is Up || direction is Down,
    ensures
        row_layout(panes).adjacent_walk(current, direction) == AdjacentSearch::Continue,
    decreases panes.len(),
{
    if panes.len() >= 2 {
        lemma_row_has_no_vertical_neighbour(panes.drop_first(), current, direction);
        let head = LayoutNode::Pane { pane_id: panes[0] };
        assert(head.adjacent_walk(current, direction) == AdjacentSearch::Continue);
        assert(crate::layout::direction_axis(direction) == SplitAxis::Rows);
    }
}

proof fn lemma_position_in_distinct(panes: Seq<PaneId>, j: int)
    requires
        panes.no_duplicates(),
        0 <= j < panes.len(),
    ensures
        first_index(panes, panes[j]) == j,
{
    lemma_first_index_bounds(panes, panes[j]);
    assert(panes.contains(panes[j]));
}

/// In the managed grid of four to six distinct panes, moving down from the pane in column `j`
/// of the top row reaches the pane in column `j` of the bottom row, or the bottom row's last pane
/// when that row is shorter; moving up from column `j` of the bottom row reaches column `j` of the
/// top row.
pub proof fn grid_moves_keep_the_column(panes: Seq<PaneId>, j: int)
    requires
        panes.no_duplicates(),
        4 <= panes.len() <= MAX_TERMINALS_PER_WORKSPACE,
    ensures
        0 <= j < first_row_len(panes.len()) ==> managed_layout(panes).adjacent(
            panes[j],
            SplitDirection::Down,
        ) == Some(
            if j < panes.len() - first_row_len(panes.len()) {
                panes[first_row_len(panes.len()) + j]
            } else {
                panes[panes.len() - 1]
            },
        ),
        0 <= j < panes.len() - first_row_len(panes.len()) ==> managed_layout(panes).adjacent(
            panes[first_row_len(panes.len()) + j],
            SplitDirection::Up,
        ) == Some(panes[j]),
{
    let k = first_row_len(panes.len()) as int;
    let top = panes.take(k);
    let bottom = panes.skip(k);
    managed_layout_keeps_panes(panes);
    lemma_row_layout_panes(top);
    lemma_row_layout_panes(bottom);
    assert forall|a: int, b: int| 0 <= a < b < top.len() implies top[a] != top[b] by {
        assert(top[a] == panes[a] && top[b] == panes[b]);
    }
    assert forall|a: int, b: int| 0 <= a < b < bottom.len() implies bottom[a] != bottom[b] by {
        assert(bottom[a] == panes[k + a] && bottom[b] == panes[k + b]);
    }
    if 0 <= j < k {
        let current = panes[j];
        assert(top[j] == current);
        assert(panes.contains(current));
        lemma_row_has_no_vertical_neighbour(top, current, SplitDirection::Down);
        lemma_position_in_distinct(top, j);
        assert(top.contains(current));
        if j < panes.len() - k {
            assert(bottom[j] == panes[k + j]);
        } else {
            assert(bottom[bottom.len() - 1] == panes[panes.len() - 1]);
        }
    }
    if 0 <= j < panes.len() - k {
        let current = panes[k + j];
        assert(bottom[j] == current);
        assert(panes.contains(current)) by {
            assert(panes[k + j] == current);
        }
        lemma_row_has_no_vertical_neighbour(bottom, current, SplitDirection::Up);
        lemma_position_in_distinct(bottom, j);
        assert(bottom.contains(current));
        if top.contains(current) {
            let c = choose|c: int| 0 <= c < top.len() && top[c] == current;
            assert(panes[c] == panes[k + j]);
        }
        assert(j < k);
        assert(top[j] == panes[j]);
    }
}

proof fn lemma_distinct_tail(xs: Seq<PaneId>)
    requires
        xs.no_duplicates(),
        xs.len() >= 1,
    ensures
        xs.drop_first().no_duplicates(),
        !xs.drop_first().contains(xs[0]),
{
    assert forall|a: int, b: int| 0 <= a < b < xs.len() - 1 implies xs.drop_first()[a] != xs.drop_first()[b] by {
        assert(xs.drop_first()[a] == xs[a + 1] && xs.drop_first()[b] == xs[b + 1]);
    }
    if xs.drop_first().contains(xs[0]) {
        let c = choose|c: int| 0 <= c < xs.len() - 1 && xs.drop_first()[c] == xs[0];
        assert(xs[c + 1] == xs[0]);
    }
}

/// Within one row of distinct panes, moving right from column `j` reaches column `j + 1` and
/// moving left reaches column `j - 1`; past either end the row decides nothing.
proof fn lemma_row_horizontal_neighbours(xs: Seq<PaneId>, j: int)
    requires
        xs.no_duplicates(),
        0 <= j < xs.len(),
    ensures
        row_layout(xs).adjacent_walk(xs[j], SplitDirection::Right) == if j + 1 < xs.len() {
            AdjacentSearch::Found(Some(xs[j + 1]))
        } else {
            AdjacentSearch::Continue
        },
        row_layout(xs).adjacent_walk(xs[j], SplitDirection::Left) == if j >= 1 {
            AdjacentSearch::Found(Some(xs[j - 1]))
        } else {
            AdjacentSearch::Continue
        },
    decreases xs.len(),
{
    if xs.len() >= 2 {
        let rest = xs.drop_first();
        lemma_distinct_tail(xs);
        lemma_row_layout_panes(rest);
        let head = LayoutNode::Pane { pane_id: xs[0] };
        assert(head.panes() =~= seq![xs[0]]);
        assert(seq![xs[0]][0] == xs[0]);
        assert(first_index(seq![xs[0]], xs[0]) == 0);
        assert(crate::layout::direction_axis(SplitDirection::Right) == SplitAxis::Columns);
        assert(crate::layout::direction_axis(SplitDirection::Left) == SplitAxis::Columns);
        if j == 0 {
            assert(head.adjacent_walk(xs[0], SplitDirection::Right) == AdjacentSearch::Continue);
            assert(head.adjacent_walk(xs[0], SplitDirection::Left) == AdjacentSearch::Continue);
            assert(head.panes().contains(xs[0]));
            assert(rest[0] == xs[1]);
        } else {
            assert(rest[j - 1] == xs[j]);
            lemma_row_horizontal_neighbours(rest, j - 1);
            assert(!head.panes().contains(xs[j])) by {
                if head.panes().contains(xs[j]) {
                    assert(head.panes()[0] == xs[j]);
                }
            }
            if j == 1 {
                lemma_position_in_distinct(rest, 0);
                assert(neighbour_at(head.panes(), 0) == Some(xs[0]));
            }
        }
    }
}

/// In the managed grid of one to six distinct panes, moving right or left goes to the next or
/// previous pane of the same row, and there is no such neighbour at either end of a row.
pub proof fn grid_moves_along_a_row(panes: Seq<PaneId>, j: int)
    requires
        panes.no_duplicates(),
        1 <= panes.len() <= MAX_TERMINALS_PER_WORKSPACE,
        0 <= j < panes.len(),
    ensures
        ({
            let row_end: int = if panes.len() <= 3 || j >= first_row_len(panes.len()) {
                panes.len() as int
            } else {
                first_row_len(panes.len()) as int
            };
            let row_start: int = if panes.len() <= 3 || j < first_row_len(panes.len()) {
                0
            } else {
                first_row_len(panes.len()) as int
            };
            &&& managed_layout(panes).adjacent(panes[j], SplitDirection::Right) == if j + 1 < row_end {
                Some(panes[j + 1])
            } else {
                None
            }
            &&& managed_layout(panes).adjacent(panes[j], SplitDirection::Left) == if j > row_start {
                Some(panes[j - 1])
            } else {
                None
            }
        }),
{
    managed_layout_keeps_panes(panes);
    assert(panes.contains(panes[j]));
    if panes.len() <= 3 {
        lemma_row_horizontal_neighbours(panes, j);
    } else {
        let k = first_row_len(panes.len()) as int;
        let top = panes.take(k);
        let bottom = panes.skip(k);
        lemma_row_layout_panes(top);
        lemma_row_layout_panes(bottom);
        assert forall|a: int, b: int| 0 <= a < b < top.len() implies top[a] != top[b] by {
            assert(top[a] == panes[a] && top[b] == panes[b]);
        }
        assert forall|a: int, b: int| 0 <= a < b < bottom.len() implies bottom[a] != bottom[b] by {
            assert(bottom[a] == panes[k + a] && bottom[b] == panes[k + b]);
        }
        assert(crate::layout::direction_axis(SplitDirection::Right) == SplitAxis::Columns);
        assert(crate::layout::direction_axis(SplitDirection::Left) == SplitAxis::Columns);
        if j < k {
            assert(top[j] == panes[j]);
            assert(top.contains(panes[j]));
            lemma_row_horizontal_neighbours(top, j);
            if j + 1 < k {
                assert(top[j + 1] == panes[j + 1]);
            }
            if j >= 1 {
                assert(top[j - 1] == panes[j - 1]);
            }
        } else {
            assert(bottom[j - k] == panes[j]);
            assert(bottom.contains(panes[j]));
            if top.contains(panes[j]) {
                let c = choose|c: int| 0 <= c < top.len() && top[c] == panes[j];
                assert(panes[c] == panes[j]);
            }
            lemma_row_horizontal_neighbours(bottom, j - k);
            if j + 1 < panes.len() {
                assert(bottom[j - k + 1] == panes[j + 1]);
            }
            if j > k {
                assert(bottom[j - k - 1] == panes[j - 1]);
            }
        }
    }
}

} // verus!
