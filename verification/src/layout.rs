use vstd::prelude::*;

use crate::ids::PaneId;
use crate::seq_facts::{first_index, lemma_concat_contains, lemma_first_index_bounds};

verus! {

/// Largest number of terminals one workspace may hold.
pub const MAX_TERMINALS_PER_WORKSPACE: usize = 6;

/// Orientation of a split: `Columns` places children side by side, `Rows` stacks them.
#[derive(Clone, Copy, Debug, PartialEq, Eq, Structural)]
pub enum SplitAxis {
    Columns,
    Rows,
}

/// Where a new pane goes, or which way focus moves, relative to a pane.
#[derive(Clone, Copy, Debug, PartialEq, Eq, Structural)]
pub enum SplitDirection {
    Right,
    Down,
    Left,
    Up,
}

/// Left and right run along columns; up and down run along rows.
pub open spec fn direction_axis(direction: SplitDirection) -> SplitAxis {
    match direction {
        SplitDirection::Right | SplitDirection::Left => SplitAxis::Columns,
        SplitDirection::Down | SplitDirection::Up => SplitAxis::Rows,
    }
}

/// Right and down move toward a split's second child.
pub open spec fn is_forward(direction: SplitDirection) -> bool {
    direction is Right || direction is Down
}

impl SplitDirection {
    /// The split axis that this direction runs along.
    pub fn axis(self) -> (axis: SplitAxis)
        ensures
            axis == direction_axis(self),
    {
        match self {
            SplitDirection::Right | SplitDirection::Left => SplitAxis::Columns,
            SplitDirection::Down | SplitDirection::Up => SplitAxis::Rows,
        }
    }
}

/// The share of a split given to its first child, held as an exact fraction.
#[derive(Clone, Copy, Debug, PartialEq, Eq, Structural)]
pub struct SplitRatio {
    pub numerator: u32,
    pub denominator: u32,
}

/// A ratio is accepted when it lies between one tenth and nine tenths, both included.
pub open spec fn ratio_in_range(ratio: SplitRatio) -> bool {
    &&& ratio.denominator > 0
    &&& 10 * ratio.numerator >= ratio.denominator
    &&& 10 * ratio.numerator <= 9 * ratio.denominator
}

/// The ratio of a fresh split: one half.
pub open spec fn default_ratio() -> SplitRatio {
    SplitRatio { numerator: 1, denominator: 2 }
}

impl SplitRatio {
    /// Builds the fraction `numerator / denominator`.
    pub fn new(numerator: u32, denominator: u32) -> (ratio: Self)
        ensures
            ratio.numerator == numerator,
            ratio.denominator == denominator,
    {
        SplitRatio { numerator, denominator }
    }

    /// One half, the ratio of every fresh split.
    pub fn half() -> (ratio: Self)
        ensures
            ratio == default_ratio(),
    {
        SplitRatio { numerator: 1, denominator: 2 }
    }

    /// Whether the ratio lies between one tenth and nine tenths, both included.
    pub fn is_in_range(self) -> (valid: bool)
        ensures
            valid == ratio_in_range(self),
    {
        let numerator = self.numerator as u64;
        let denominator = self.denominator as u64;
        denominator > 0 && 10 * numerator >= denominator && 10 * numerator <= 9 * denominator
    }
}

/// A recursive binary tree of terminal panes.
#[derive(Debug, PartialEq)]
pub enum LayoutNode {
    Empty,
    Pane { pane_id: PaneId },
    Split { axis: SplitAxis, ratio: SplitRatio, first: Box<LayoutNode>, second: Box<LayoutNode> },
}

/// Why a layout operation was refused.
#[derive(Clone, Copy, Debug, PartialEq, Eq, Structural)]
pub enum LayoutError {
    PaneNotFound(PaneId),
    DuplicatePane(PaneId),
    CannotCloseFinalPane,
    InvalidRatio,
}

impl Clone for LayoutNode {
    /// A deep copy: the copy equals the node it copies, node for node.
    fn clone(&self) -> (copy: Self)
        ensures
            copy == *self,
        decreases self,
    {
        match self {
            LayoutNode::Empty => LayoutNode::Empty,
            LayoutNode::Pane { pane_id } => LayoutNode::Pane { pane_id: *pane_id },
            LayoutNode::Split { axis, ratio, first, second } => LayoutNode::Split {
                axis: *axis,
                ratio: *ratio,
                first: Box::new((**first).clone()),
                second: Box::new((**second).clone()),
            },
        }
    }
}

impl LayoutNode {
    /// The panes of the tree, left to right (first child before second child).
    pub open spec fn panes(self) -> Seq<PaneId>
        decreases self,
    {
        match self {
            LayoutNode::Empty => seq![],
            LayoutNode::Pane { pane_id } => seq![pane_id],
            LayoutNode::Split { first, second, .. } => first.panes() + second.panes(),
        }
    }

    /// The tree with the first pane `target` (left to right) replaced by a split of
    /// `axis` and ratio one half whose first child is `target` and second child `new_pane`.
    pub open spec fn split_first(self, target: PaneId, new_pane: PaneId, axis: SplitAxis) -> LayoutNode
        decreases self,
    {
        match self {
            LayoutNode::Empty => LayoutNode::Empty,
            LayoutNode::Pane { pane_id } => if pane_id == target {
                LayoutNode::Split {
                    axis,
                    ratio: default_ratio(),
                    first: Box::new(LayoutNode::Pane { pane_id: target }),
                    second: Box::new(LayoutNode::Pane { pane_id: new_pane }),
                }
            } else {
                self
            },
            LayoutNode::Split { axis: a, ratio, first, second } => if first.panes().contains(target) {
                LayoutNode::Split {
                    axis: a,
                    ratio,
                    first: Box::new(first.split_first(target, new_pane, axis)),
                    second,
                }
            } else {
                LayoutNode::Split {
                    axis: a,
                    ratio,
                    first,
                    second: Box::new(second.split_first(target, new_pane, axis)),
                }
            },
        }
    }

    /// A single pane.
    pub fn pane(pane_id: PaneId) -> (node: Self)
        ensures
            node == (LayoutNode::Pane { pane_id }),
    {
        LayoutNode::Pane { pane_id }
    }

    /// Whether `target` is one of the tree's panes.
    pub fn contains(&self, target: PaneId) -> (found: bool)
        ensures
            found == self.panes().contains(target),
        decreases self,
    {
        match self {
            LayoutNode::Empty => false,
            LayoutNode::Pane { pane_id } => {
                let found = *pane_id == target;
                proof {
                    if found {
                        assert(self.panes()[0] == target);
                    }
                }
                found
            },
            LayoutNode::Split { first, second, .. } => {
                proof {
                    lemma_concat_contains(first.panes(), second.panes(), target);
                }
                first.contains(target) || second.contains(target)
            },
        }
    }

    /// The panes of the tree, left to right.
    pub fn pane_ids(&self) -> (panes: Vec<PaneId>)
        ensures
            panes@ == self.panes(),
    {
        let mut panes = Vec::new();
        self.collect_panes(&mut panes);
        panes
    }

    fn collect_panes(&self, panes: &mut Vec<PaneId>)
        ensures
            final(panes)@ == old(panes)@ + self.panes(),
        decreases self,
    {
        match self {
            LayoutNode::Empty => {},
            LayoutNode::Pane { pane_id } => {
                panes.push(*pane_id);
            },
            LayoutNode::Split { first, second, .. } => {
                first.collect_panes(panes);
                second.collect_panes(panes);
            },
        }
    }
}


impl LayoutNode {
    /// The tree with the split that `remove_from_split` performs for `target`:
    /// the nearest split holding `target` as a direct child is replaced by its other child.
    /// Direct children are checked before descending, and the first child before the second.
    /// `None` when no split holds `target` as a direct child.
    pub open spec fn without_pane(self, target: PaneId) -> Option<LayoutNode>
        decreases self,
    {
        match self {
            LayoutNode::Split { axis, ratio, first, second } => {
                if *first == (LayoutNode::Pane { pane_id: target }) {
                    Some(*second)
                } else if *second == (LayoutNode::Pane { pane_id: target }) {
                    Some(*first)
                } else {
                    match first.without_pane(target) {
                        Some(new_first) => Some(
                            LayoutNode::Split { axis, ratio, first: Box::new(new_first), second },
                        ),
                        None => match second.without_pane(target) {
                            Some(new_second) => Some(
                                LayoutNode::Split {
                                    axis,
                                    ratio,
                                    first,
                                    second: Box::new(new_second),
                                },
                            ),
                            None => None,
                        },
                    }
                }
            },
            _ => None,
        }
    }

    /// Whether this node is the single pane `target`.
    pub open spec fn is_pane_of(self, target: PaneId) -> bool {
        self == (LayoutNode::Pane { pane_id: target })
    }

    fn is_single_pane(&self, target: PaneId) -> (single: bool)
        ensures
            single == self.is_pane_of(target),
    {
        match self {
            LayoutNode::Pane { pane_id } => *pane_id == target,
            _ => false,
        }
    }

    fn split_rec(self, target: PaneId, new_pane: PaneId, axis: SplitAxis) -> (node: LayoutNode)
        ensures
            node == self.split_first(target, new_pane, axis),
        decreases self,
    {
        match self {
            LayoutNode::Empty => LayoutNode::Empty,
            LayoutNode::Pane { pane_id } => {
                if pane_id == target {
                    LayoutNode::Split {
                        axis,
                        ratio: SplitRatio::half(),
                        first: Box::new(LayoutNode::Pane { pane_id: target }),
                        second: Box::new(LayoutNode::Pane { pane_id: new_pane }),
                    }
                } else {
                    LayoutNode::Pane { pane_id }
                }
            },
            LayoutNode::Split { axis: a, ratio, first, second } => {
                if first.contains(target) {
                    LayoutNode::Split {
                        axis: a,
                        ratio,
                        first: Box::new((*first).split_rec(target, new_pane, axis)),
                        second,
                    }
                } else {
                    LayoutNode::Split {
                        axis: a,
                        ratio,
                        first,
                        second: Box::new((*second).split_rec(target, new_pane, axis)),
                    }
                }
            },
        }
    }

    /// Splits `target`, placing `new_pane` to its right or below it.
    ///
    /// Refuses with `DuplicatePane(new_pane)` when `new_pane` is already present, else with
    /// `PaneNotFound(target)` when `target` is absent; the tree is unchanged then.
    /// Otherwise the first `target` pane becomes a split along the direction's axis,
    /// ratio one half, holding `target` first and `new_pane` second.
    pub fn split(&mut self, target: PaneId, new_pane: PaneId, direction: SplitDirection) -> (result:
        Result<(), LayoutError>)
        ensures
            old(self).panes().contains(new_pane) ==> result == Err::<(), LayoutError>(
                LayoutError::DuplicatePane(new_pane),
            ) && *final(self) == *old(self),
            !old(self).panes().contains(new_pane) && !old(self).panes().contains(target) ==> result
                == Err::<(), LayoutError>(LayoutError::PaneNotFound(target)) && *final(self) == *old(
                self,
            ),
            !old(self).panes().contains(new_pane) && old(self).panes().contains(target) ==> result
                == Ok::<(), LayoutError>(()) && *final(self) == old(self).split_first(
                target,
                new_pane,
                direction_axis(direction),
            ),
    {
        if self.contains(new_pane) {
            return Err(LayoutError::DuplicatePane(new_pane));
        }
        if !self.contains(target) {
            return Err(LayoutError::PaneNotFound(target));
        }
        let axis = direction.axis();
        let mut node = LayoutNode::Empty;
        std::mem::swap(&mut node, self);
        *self = node.split_rec(target, new_pane, axis);
        Ok(())
    }

    fn remove_from_split(node: LayoutNode, target: PaneId) -> (result: Result<LayoutNode, LayoutNode>)
        ensures
            match result {
                Ok(new_node) => node.without_pane(target) == Some(new_node),
                Err(same) => node.without_pane(target) is None && same == node,
            },
        decreases node,
    {
        match node {
            LayoutNode::Split { axis, ratio, first, second } => {
                if first.is_single_pane(target) {
                    Ok(*second)
                } else if second.is_single_pane(target) {
                    Ok(*first)
                } else {
                    match Self::remove_from_split(*first, target) {
                        Ok(new_first) => Ok(
                            LayoutNode::Split { axis, ratio, first: Box::new(new_first), second },
                        ),
                        Err(same_first) => match Self::remove_from_split(*second, target) {
                            Ok(new_second) => Ok(
                                LayoutNode::Split {
                                    axis,
                                    ratio,
                                    first: Box::new(same_first),
                                    second: Box::new(new_second),
                                },
                            ),
                            Err(same_second) => Err(
                                LayoutNode::Split {
                                    axis,
                                    ratio,
                                    first: Box::new(same_first),
                                    second: Box::new(same_second),
                                },
                            ),
                        },
                    }
                }
            },
            other => Err(other),
        }
    }

    /// Removes `target` and collapses its parent split into the remaining child.
    ///
    /// Refuses with `CannotCloseFinalPane` when the whole tree is the pane `target`, and with
    /// `PaneNotFound(target)` when no split holds `target` as a direct child; the tree is
    /// unchanged then.
    pub fn close(&mut self, target: PaneId) -> (result: Result<(), LayoutError>)
        ensures
            old(self).is_pane_of(target) ==> result == Err::<(), LayoutError>(
                LayoutError::CannotCloseFinalPane,
            ) && *final(self) == *old(self),
            !old(self).is_pane_of(target) ==> match old(self).without_pane(target) {
                Some(new_node) => result == Ok::<(), LayoutError>(()) && *final(self) == new_node,
                None => result == Err::<(), LayoutError>(LayoutError::PaneNotFound(target))
                    && *final(self) == *old(self),
            },
    {
        if self.is_single_pane(target) {
            return Err(LayoutError::CannotCloseFinalPane);
        }
        let mut node = LayoutNode::Empty;
        std::mem::swap(&mut node, self);
        match Self::remove_from_split(node, target) {
            Ok(new_node) => {
                *self = new_node;
                Ok(())
            },
            Err(same) => {
                *self = same;
                Err(LayoutError::PaneNotFound(target))
            },
        }
    }
}


/// Whether every split of the tree has a ratio in range.
pub open spec fn ratios_in_range(node: LayoutNode) -> bool
    decreases node,
{
    match node {
        LayoutNode::Split { ratio, first, second, .. } => ratio_in_range(ratio) && ratios_in_range(
            *first,
        ) && ratios_in_range(*second),
        _ => true,
    }
}

impl LayoutNode {
    /// The tree with the ratio of the split at `path` set to `ratio`: each step of `path` picks
    /// the first (0) or second (1) child. `None` when a step is neither 0 nor 1, when a step
    /// meets a non-split node, or when the path ends at a non-split node.
    pub open spec fn with_ratio_at(self, path: Seq<usize>, ratio: SplitRatio) -> Option<LayoutNode>
        decreases path.len(),
    {
        match self {
            LayoutNode::Split { axis, ratio: old_ratio, first, second } => {
                if path.len() == 0 {
                    Some(LayoutNode::Split { axis, ratio, first, second })
                } else if path[0] == 0 {
                    match first.with_ratio_at(path.drop_first(), ratio) {
                        Some(new_first) => Some(
                            LayoutNode::Split {
                                axis,
                                ratio: old_ratio,
                                first: Box::new(new_first),
                                second,
                            },
                        ),
                        None => None,
                    }
                } else if path[0] == 1 {
                    match second.with_ratio_at(path.drop_first(), ratio) {
                        Some(new_second) => Some(
                            LayoutNode::Split {
                                axis,
                                ratio: old_ratio,
                                first,
                                second: Box::new(new_second),
                            },
                        ),
                        None => None,
                    }
                } else {
                    None
                }
            },
            _ => None,
        }
    }

    /// Checks, in the order the tree is walked (a split's ratio before its children, the first
    /// child before the second), that ratios are in range and that no pane repeats one already
    /// in `seen` or met earlier. On success returns `seen` followed by the tree's panes.
    pub open spec fn validate_from(self, seen: Seq<PaneId>) -> Result<Seq<PaneId>, LayoutError>
        decreases self,
    {
        match self {
            LayoutNode::Empty => Ok(seen),
            LayoutNode::Pane { pane_id } => if seen.contains(pane_id) {
                Err(LayoutError::DuplicatePane(pane_id))
            } else {
                Ok(seen.push(pane_id))
            },
            LayoutNode::Split { ratio, first, second, .. } => if !ratio_in_range(ratio) {
                Err(LayoutError::InvalidRatio)
            } else {
                match first.validate_from(seen) {
                    Ok(after_first) => second.validate_from(after_first),
                    Err(error) => Err(error),
                }
            },
        }
    }

    /// What `validate` returns: the first violation met by `validate_from`, or success.
    pub open spec fn validation(self) -> Result<(), LayoutError> {
        match self.validate_from(seq![]) {
            Ok(_) => Ok(()),
            Err(error) => Err(error),
        }
    }

    fn set_ratio_rec(node: LayoutNode, path: &[usize], start: usize, ratio: SplitRatio) -> (result:
        Result<LayoutNode, LayoutNode>)
        requires
            start <= path@.len(),
        ensures
            match result {
                Ok(new_node) => node.with_ratio_at(path@.subrange(start as int, path@.len() as int), ratio)
                    == Some(new_node),
                Err(same) => node.with_ratio_at(path@.subrange(start as int, path@.len() as int), ratio) is None
                    && same == node,
            },
        decreases path@.len() - start,
    {
        let ghost rest = path@.subrange(start as int, path@.len() as int);
        match node {
            LayoutNode::Split { axis, ratio: old_ratio, first, second } => {
                if start == path.len() {
                    Ok(LayoutNode::Split { axis, ratio, first, second })
                } else {
                    let branch = path[start];
                    proof {
                        assert(rest[0] == branch);
                        assert(rest.drop_first() =~= path@.subrange(start + 1, path@.len() as int));
                    }
                    if branch == 0 {
                        match Self::set_ratio_rec(*first, path, start + 1, ratio) {
                            Ok(new_first) => Ok(
                                LayoutNode::Split {
                                    axis,
                                    ratio: old_ratio,
                                    first: Box::new(new_first),
                                    second,
                                },
                            ),
                            Err(same_first) => Err(
                                LayoutNode::Split {
                                    axis,
                                    ratio: old_ratio,
                                    first: Box::new(same_first),
                                    second,
                                },
                            ),
                        }
                    } else if branch == 1 {
                        match Self::set_ratio_rec(*second, path, start + 1, ratio) {
                            Ok(new_second) => Ok(
                                LayoutNode::Split {
                                    axis,
                                    ratio: old_ratio,
                                    first,
                                    second: Box::new(new_second),
                                },
                            ),
                            Err(same_second) => Err(
                                LayoutNode::Split {
                                    axis,
                                    ratio: old_ratio,
                                    first,
                                    second: Box::new(same_second),
                                },
                            ),
                        }
                    } else {
                        Err(LayoutNode::Split { axis, ratio: old_ratio, first, second })
                    }
                }
            },
            other => Err(other),
        }
    }

    /// Updates the split at `path` to give `ratio` to its first child.
    ///
    /// Refuses with `InvalidRatio`, leaving the tree unchanged, when the ratio is out of range
    /// or the path does not lead to a split.
    pub fn set_ratio(&mut self, path: &[usize], ratio: SplitRatio) -> (result: Result<(), LayoutError>)
        ensures
            !ratio_in_range(ratio) ==> result == Err::<(), LayoutError>(LayoutError::InvalidRatio)
                && *final(self) == *old(self),
            ratio_in_range(ratio) ==> match old(self).with_ratio_at(path@, ratio) {
                Some(new_node) => result == Ok::<(), LayoutError>(()) && *final(self) == new_node,
                None => result == Err::<(), LayoutError>(LayoutError::InvalidRatio) && *final(self)
                    == *old(self),
            },
    {
        if !ratio.is_in_range() {
            return Err(LayoutError::InvalidRatio);
        }
        let mut node = LayoutNode::Empty;
        std::mem::swap(&mut node, self);
        proof {
            assert(path@.subrange(0, path@.len() as int) =~= path@);
        }
        match Self::set_ratio_rec(node, path, 0, ratio) {
            Ok(new_node) => {
                *self = new_node;
                Ok(())
            },
            Err(same) => {
                *self = same;
                Err(LayoutError::InvalidRatio)
            },
        }
    }

    fn validate_inner(&self, seen: &mut Vec<PaneId>) -> (result: Result<(), LayoutError>)
        ensures
            match self.validate_from(old(seen)@) {
                Ok(after) => result == Ok::<(), LayoutError>(()) && final(seen)@ == after,
                Err(error) => result == Err::<(), LayoutError>(error),
            },
        decreases self,
    {
        match self {
            LayoutNode::Empty => Ok(()),
            LayoutNode::Pane { pane_id } => {
                if vec_contains(seen, *pane_id) {
                    Err(LayoutError::DuplicatePane(*pane_id))
                } else {
                    seen.push(*pane_id);
                    Ok(())
                }
            },
            LayoutNode::Split { ratio, first, second, .. } => {
                if !ratio.is_in_range() {
                    return Err(LayoutError::InvalidRatio);
                }
                match first.validate_inner(seen) {
                    Ok(()) => second.validate_inner(seen),
                    Err(error) => Err(error),
                }
            },
        }
    }

    /// Checks ratio bounds and pane identifier uniqueness throughout the tree, reporting the
    /// first violation met left to right (a split's ratio before its children).
    pub fn validate(&self) -> (result: Result<(), LayoutError>)
        ensures
            result == self.validation(),
    {
        let mut seen = Vec::new();
        self.validate_inner(&mut seen)
    }
}

/// Whether `panes` holds `target`.
pub fn vec_contains(panes: &Vec<PaneId>, target: PaneId) -> (found: bool)
    ensures
        found == panes@.contains(target),
{
    let mut index: usize = 0;
    while index < panes.len()
        invariant
            index <= panes@.len(),
            forall|j: int| 0 <= j < index ==> panes@[j] != target,
        decreases panes@.len() - index,
    {
        if panes[index] == target {
            return true;
        }
        index += 1;
    }
    false
}


/// Progress of the upward search for a neighbouring pane.
pub enum AdjacentSearch {
    /// The search ended with this answer.
    Found(Option<PaneId>),
    /// No ancestor decided yet; keep walking toward the root.
    Continue,
}

/// The pane of `sibling` at `position`, clamped to its last pane; `None` when it has no pane.
pub open spec fn neighbour_at(sibling: Seq<PaneId>, position: nat) -> Option<PaneId> {
    if sibling.len() == 0 {
        None
    } else if position < sibling.len() {
        Some(sibling[position as int])
    } else {
        Some(sibling[sibling.len() - 1])
    }
}

impl LayoutNode {
    /// The search from the first `current` pane toward the root. At each ancestor split whose
    /// axis matches the direction's: moving forward (right or down) out of the second child, or
    /// backward (left or up) out of the first child, keeps walking, as there is nothing on that
    /// side within the split; otherwise the answer is the pane of the other child at the same
    /// position as `current` has in its own child, clamped to the other child's last pane.
    pub open spec fn adjacent_walk(self, current: PaneId, direction: SplitDirection) -> AdjacentSearch
        decreases self,
    {
        match self {
            LayoutNode::Split { axis, first, second, .. } => {
                let in_first = first.panes().contains(current);
                let below = if in_first {
                    first.adjacent_walk(current, direction)
                } else {
                    second.adjacent_walk(current, direction)
                };
                match below {
                    AdjacentSearch::Found(answer) => AdjacentSearch::Found(answer),
                    AdjacentSearch::Continue => {
                        if axis != direction_axis(direction) {
                            AdjacentSearch::Continue
                        } else if is_forward(direction) && !in_first {
                            AdjacentSearch::Continue
                        } else if !is_forward(direction) && in_first {
                            AdjacentSearch::Continue
                        } else if in_first {
                            AdjacentSearch::Found(
                                neighbour_at(second.panes(), first_index(first.panes(), current)),
                            )
                        } else {
                            AdjacentSearch::Found(
                                neighbour_at(first.panes(), first_index(second.panes(), current)),
                            )
                        }
                    },
                }
            },
            _ => AdjacentSearch::Continue,
        }
    }

    /// The pane adjacent to `current` in `direction`, as `find_adjacent` returns it.
    pub open spec fn adjacent(self, current: PaneId, direction: SplitDirection) -> Option<PaneId> {
        if !self.panes().contains(current) {
            None
        } else {
            match self.adjacent_walk(current, direction) {
                AdjacentSearch::Found(answer) => answer,
                AdjacentSearch::Continue => None,
            }
        }
    }

    fn adjacent_rec(&self, current: PaneId, direction: SplitDirection) -> (search: AdjacentSearch)
        ensures
            search == self.adjacent_walk(current, direction),
        decreases self,
    {
        match self {
            LayoutNode::Split { axis, first, second, .. } => {
                let in_first = first.contains(current);
                let below = if in_first {
                    first.adjacent_rec(current, direction)
                } else {
                    second.adjacent_rec(current, direction)
                };
                match below {
                    AdjacentSearch::Found(answer) => AdjacentSearch::Found(answer),
                    AdjacentSearch::Continue => {
                        let target_axis = direction.axis();
                        let forward = match direction {
                            SplitDirection::Right | SplitDirection::Down => true,
                            _ => false,
                        };
                        if *axis != target_axis {
                            AdjacentSearch::Continue
                        } else if forward && !in_first {
                            AdjacentSearch::Continue
                        } else if !forward && in_first {
                            AdjacentSearch::Continue
                        } else if in_first {
                            let position = position_of(&first.pane_ids(), current);
                            AdjacentSearch::Found(neighbour_in(&second.pane_ids(), position))
                        } else {
                            let position = position_of(&second.pane_ids(), current);
                            AdjacentSearch::Found(neighbour_in(&first.pane_ids(), position))
                        }
                    },
                }
            },
            _ => AdjacentSearch::Continue,
        }
    }

    /// Returns the pane adjacent to `current` in the given `direction`, if one exists.
    ///
    /// Left/Right navigation follows `Columns` splits; Up/Down follows `Rows` splits.
    pub fn find_adjacent(&self, current: PaneId, direction: SplitDirection) -> (neighbour: Option<
        PaneId,
    >)
        ensures
            neighbour == self.adjacent(current, direction),
    {
        if !self.contains(current) {
            return None;
        }
        match self.adjacent_rec(current, direction) {
            AdjacentSearch::Found(answer) => answer,
            AdjacentSearch::Continue => None,
        }
    }
}

/// Position of the first `target` in `panes`, or its length when absent.
fn position_of(panes: &Vec<PaneId>, target: PaneId) -> (position: usize)
    ensures
        position == first_index(panes@, target),
{
    proof {
        lemma_first_index_bounds(panes@, target);
    }
    let mut index: usize = 0;
    while index < panes.len()
        invariant
            index <= panes@.len(),
            forall|j: int| 0 <= j < index ==> panes@[j] != target,
            first_index(panes@, target) <= panes@.len(),
            first_index(panes@, target) < panes@.len() ==> panes@[first_index(panes@, target) as int]
                == target,
            forall|j: int| 0 <= j < first_index(panes@, target) ==> panes@[j] != target,
        decreases panes@.len() - index,
    {
        if panes[index] == target {
            return index;
        }
        index += 1;
    }
    index
}

fn neighbour_in(sibling: &Vec<PaneId>, position: usize) -> (neighbour: Option<PaneId>)
    ensures
        neighbour == neighbour_at(sibling@, position as nat),
{
    if sibling.len() == 0 {
        None
    } else if position < sibling.len() {
        Some(sibling[position])
    } else {
        Some(sibling[sibling.len() - 1])
    }
}

/// One row of panes, left to right: the first pane, then a split giving it `1 / count` of the
/// row, recursively.
pub open spec fn row_layout(panes: Seq<PaneId>) -> LayoutNode
    decreases panes.len(),
{
    if panes.len() == 0 {
        LayoutNode::Empty
    } else if panes.len() == 1 {
        LayoutNode::Pane { pane_id: panes[0] }
    } else {
        LayoutNode::Split {
            axis: SplitAxis::Columns,
            ratio: SplitRatio { numerator: 1, denominator: panes.len() as u32 },
            first: Box::new(LayoutNode::Pane { pane_id: panes[0] }),
            second: Box::new(row_layout(panes.drop_first())),
        }
    }
}

/// Length of the first row of a two-row grid of `count` panes: the larger half, at most three.
pub open spec fn first_row_len(count: nat) -> nat {
    if (count + 1) / 2 <= 3 {
        (count + 1) / 2
    } else {
        3
    }
}

/// The managed arrangement: one row for up to three panes, else two rows split half and half,
/// the first row holding the larger half (at most three panes).
pub open spec fn managed_layout(panes: Seq<PaneId>) -> LayoutNode {
    if panes.len() == 0 {
        LayoutNode::Empty
    } else if panes.len() <= 3 {
        row_layout(panes)
    } else {
        let first_len = first_row_len(panes.len()) as int;
        LayoutNode::Split {
            axis: SplitAxis::Rows,
            ratio: default_ratio(),
            first: Box::new(row_layout(panes.take(first_len))),
            second: Box::new(row_layout(panes.skip(first_len))),
        }
    }
}

/// The managed arrangement of `count` panes can be built: each of its rows holds at most
/// `u16::MAX` panes. A longer row is too large to lay out.
pub open spec fn managed_layout_fits(count: nat) -> bool {
    count <= 3 || count - first_row_len(count) <= u16::MAX
}

fn pane_row(panes: &[PaneId], start: usize, end: usize) -> (node: LayoutNode)
    requires
        start <= end <= panes@.len(),
        end - start <= u16::MAX,
    ensures
        node == row_layout(panes@.subrange(start as int, end as int)),
    decreases end - start,
{
    let ghost row = panes@.subrange(start as int, end as int);
    if start == end {
        LayoutNode::Empty
    } else if end - start == 1 {
        LayoutNode::Pane { pane_id: panes[start] }
    } else {
        proof {
            assert(row.drop_first() =~= panes@.subrange(start + 1, end as int));
        }
        let count = (end - start) as u32;
        LayoutNode::Split {
            axis: SplitAxis::Columns,
            ratio: SplitRatio { numerator: 1, denominator: count },
            first: Box::new(LayoutNode::Pane { pane_id: panes[start] }),
            second: Box::new(pane_row(panes, start + 1, end)),
        }
    }
}

/// Builds the managed workspace arrangement for the given panes.
///
/// One to three panes use a single row. Four to six panes use two rows,
/// with the larger row placed first when the count is odd.
pub fn managed_terminal_layout(panes: &[PaneId]) -> (layout: LayoutNode)
    requires
        managed_layout_fits(panes@.len()),
    ensures
        layout == managed_layout(panes@),
{
    let count = panes.len();
    proof {
        assert(panes@.subrange(0, count as int) =~= panes@);
    }
    if count == 0 {
        LayoutNode::Empty
    } else if count <= 3 {
        pane_row(panes, 0, count)
    } else {
        let half_up = count / 2 + count % 2;
        let first_len = if half_up <= 3 {
            half_up
        } else {
            3
        };
        proof {
            assert(panes@.subrange(0, first_len as int) =~= panes@.take(first_len as int));
            assert(panes@.subrange(first_len as int, count as int) =~= panes@.skip(first_len as int));
        }
        LayoutNode::Split {
            axis: SplitAxis::Rows,
            ratio: SplitRatio::half(),
            first: Box::new(pane_row(panes, 0, first_len)),
            second: Box::new(pane_row(panes, first_len, count)),
        }
    }
}

} // verus!
