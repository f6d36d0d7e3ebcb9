use vstd::prelude::*;

verus! {

/// Identifies a pane.
#[derive(Clone, Copy, Debug, PartialEq, Eq, Hash, Structural)]
pub struct PaneId(pub u64);

/// The direction of a split: `Horizontal` stacks its halves, `Vertical` puts them side by side.
#[derive(Clone, Copy, Debug, PartialEq, Eq, Structural)]
pub enum SplitAxis {
    Horizontal,
    Vertical,
}

/// A direction to move focus, swap or resize toward.
#[derive(Clone, Copy, Debug, PartialEq, Eq, Structural)]
pub enum Direction {
    Left,
    Right,
    Up,
    Down,
}

/// A split found by position: the path from the root, `true` for the second half.
#[derive(Clone, Debug, PartialEq, Eq)]
pub struct SplitHandle {
    path: Vec<bool>,
}

impl SplitHandle {
    pub fn from_path(path: Vec<bool>) -> (handle: SplitHandle)
        ensures
            handle.path_view() == path@,
    {
        SplitHandle { path }
    }

    pub closed spec fn path_view(&self) -> Seq<bool> {
        self.path@
    }

    /// The halves taken from the root to reach the split.
    pub fn path(&self) -> (path: &[bool])
        ensures
            path@ == self.path_view(),
    {
        self.path.as_slice()
    }
}

/// The share of a fresh split, one half, as the bits of an `f32`.
pub const HALF_RATIO_BITS: u32 = 0x3f00_0000;

/// How a tab's area is divided among its panes. A split's `ratio` is the share of its first
/// half, held as the bits of an `f32`; only the geometry code reads it.
#[derive(Debug, PartialEq)]
pub enum PaneTree {
    Leaf { pane: PaneId },
    Split { axis: SplitAxis, ratio: u32, first: Box<PaneTree>, second: Box<PaneTree> },
}

/// The panes of a tree, left to right.
pub open spec fn tree_panes(tree: PaneTree) -> Seq<PaneId>
    decreases tree,
{
    match tree {
        PaneTree::Leaf { pane } => seq![pane],
        PaneTree::Split { first, second, .. } => tree_panes(*first) + tree_panes(*second),
    }
}

/// Whether a tree holds a pane.
pub open spec fn tree_contains(tree: PaneTree, target: PaneId) -> bool {
    tree_panes(tree).contains(target)
}

/// The first pane of a tree.
pub open spec fn first_pane(tree: PaneTree) -> PaneId
    decreases tree,
{
    match tree {
        PaneTree::Leaf { pane } => pane,
        PaneTree::Split { first, .. } => first_pane(*first),
    }
}

/// The tree with the first leaf of `target` split along `axis`, `target` first and `new_pane`
/// second, and whether such a leaf was found.
pub open spec fn split_tree(tree: PaneTree, target: PaneId, new_pane: PaneId, axis: SplitAxis) -> (PaneTree, bool)
    decreases tree,
{
    match tree {
        PaneTree::Leaf { pane } => if pane == target {
            (
                PaneTree::Split {
                    axis,
                    ratio: HALF_RATIO_BITS,
                    first: Box::new(PaneTree::Leaf { pane: target }),
                    second: Box::new(PaneTree::Leaf { pane: new_pane }),
                },
                true,
            )
        } else {
            (tree, false)
        },
        PaneTree::Split { axis: split_axis, ratio, first, second } => {
            let (first_after, done) = split_tree(*first, target, new_pane, axis);
            if done {
                (PaneTree::Split { axis: split_axis, ratio, first: Box::new(first_after), second }, true)
            } else {
                let (second_after, found) = split_tree(*second, target, new_pane, axis);
                (PaneTree::Split { axis: split_axis, ratio, first, second: Box::new(second_after) }, found)
            }
        },
    }
}

/// The tree with the leaf of `target` removed and its sibling taking the parent's place, and
/// the pane to focus next: the first pane of that sibling. `None` when `target` is not a leaf
/// below a split.
pub open spec fn close_tree(tree: PaneTree, target: PaneId) -> Option<(PaneTree, PaneId)>
    decreases tree,
{
    match tree {
        PaneTree::Leaf { .. } => None,
        PaneTree::Split { axis, ratio, first, second } => if tree_contains(*first, target) {
            if *first == (PaneTree::Leaf { pane: target }) {
                Some((*second, first_pane(*second)))
            } else {
                match close_tree(*first, target) {
                    Some((first_after, focus)) => Some(
                        (PaneTree::Split { axis, ratio, first: Box::new(first_after), second }, focus),
                    ),
                    None => None,
                }
            }
        } else if tree_contains(*second, target) {
            if *second == (PaneTree::Leaf { pane: target }) {
                Some((*first, first_pane(*first)))
            } else {
                match close_tree(*second, target) {
                    Some((second_after, focus)) => Some(
                        (PaneTree::Split { axis, ratio, first, second: Box::new(second_after) }, focus),
                    ),
                    None => None,
                }
            }
        } else {
            None
        },
    }
}

/// A pane id with `first` and `second` exchanged.
pub open spec fn swapped_id(pane: PaneId, first: PaneId, second: PaneId) -> PaneId {
    if pane == first {
        second
    } else if pane == second {
        first
    } else {
        pane
    }
}

/// The tree with the panes `first` and `second` exchanged and its shape kept.
pub open spec fn swap_ids(tree: PaneTree, first: PaneId, second: PaneId) -> PaneTree
    decreases tree,
{
    match tree {
        PaneTree::Leaf { pane } => PaneTree::Leaf { pane: swapped_id(pane, first, second) },
        PaneTree::Split { axis, ratio, first: left, second: right } => PaneTree::Split {
            axis,
            ratio,
            first: Box::new(swap_ids(*left, first, second)),
            second: Box::new(swap_ids(*right, first, second)),
        },
    }
}

impl PaneTree {
    /// A tree of one pane.
    pub fn leaf(pane: PaneId) -> (tree: PaneTree)
        ensures
            tree == (PaneTree::Leaf { pane }),
    {
        PaneTree::Leaf { pane }
    }

    /// A copy of the tree.
    pub fn duplicate(&self) -> (copy: PaneTree)
        ensures
            copy == *self,
        decreases self,
    {
        match self {
            PaneTree::Leaf { pane } => PaneTree::Leaf { pane: *pane },
            PaneTree::Split { axis, ratio, first, second } => PaneTree::Split {
                axis: *axis,
                ratio: *ratio,
                first: Box::new(first.duplicate()),
                second: Box::new(second.duplicate()),
            },
        }
    }

    fn collect_panes(&self, panes: &mut Vec<PaneId>)
        ensures
            final(panes)@ == old(panes)@ + tree_panes(*self),
        decreases self,
    {
        match self {
            PaneTree::Leaf { pane } => {
                panes.push(*pane);
            },
            PaneTree::Split { first, second, .. } => {
                first.collect_panes(panes);
                second.collect_panes(panes);
                proof {
                    assert(final(panes)@ =~= old(panes)@ + tree_panes(*self));
                }
            },
        }
    }

    /// The panes, left to right.
    pub fn panes(&self) -> (panes: Vec<PaneId>)
        ensures
            panes@ == tree_panes(*self),
    {
        let mut panes = Vec::new();
        self.collect_panes(&mut panes);
        proof {
            assert(panes@ =~= tree_panes(*self));
        }
        panes
    }

    /// Whether the tree holds `target`.
    pub fn contains(&self, target: PaneId) -> (found: bool)
        ensures
            found == tree_contains(*self, target),
        decreases self,
    {
        match self {
            PaneTree::Leaf { pane } => {
                proof {
                    assert(tree_panes(*self)[0] == *pane);
                }
                *pane == target
            },
            PaneTree::Split { first, second, .. } => {
                let found = first.contains(target) || second.contains(target);
                proof {
                    lemma_contains_concat(tree_panes(**first), tree_panes(**second), target);
                }
                found
            },
        }
    }

    /// The first pane.
    fn first(&self) -> (pane: PaneId)
        ensures
            pane == first_pane(*self),
        decreases self,
    {
        match self {
            PaneTree::Leaf { pane } => *pane,
            PaneTree::Split { first, .. } => first.first(),
        }
    }

    /// Splits the first leaf of `target`, putting `new_pane` after it; false when `target` is
    /// not in the tree.
    pub fn split(&mut self, target: PaneId, new_pane: PaneId, axis: SplitAxis) -> (done: bool)
        ensures
            (*final(self), done) == split_tree(*old(self), target, new_pane, axis),
    {
        let mut tree = PaneTree::Leaf { pane: target };
        std::mem::swap(&mut tree, self);
        let (split, done) = split_owned(tree, target, new_pane, axis);
        *self = split;
        done
    }

    /// Removes the leaf of `target`, its sibling taking the parent's place, and returns the
    /// pane to focus next; `None`, with the tree unchanged, when `target` is the only pane or
    /// absent.
    pub fn close(&mut self, target: PaneId) -> (focus: Option<PaneId>)
        ensures
            match close_tree(*old(self), target) {
                Some((tree, next)) => *final(self) == tree && focus == Some(next),
                None => *final(self) == *old(self) && focus is None,
            },
    {
        let mut tree = PaneTree::Leaf { pane: target };
        std::mem::swap(&mut tree, self);
        let (closed, focus) = close_owned(tree, target);
        *self = closed;
        focus
    }

    /// Exchanges the panes `first` and `second`, keeping the tree's shape; false, with the
    /// tree unchanged, when they are the same pane or one is absent.
    pub fn swap_panes(&mut self, first: PaneId, second: PaneId) -> (swapped: bool)
        ensures
            swapped == (first != second && tree_contains(*old(self), first) && tree_contains(
                *old(self),
                second,
            )),
            swapped ==> *final(self) == swap_ids(*old(self), first, second),
            !swapped ==> *final(self) == *old(self),
    {
        if first == second || !self.contains(first) || !self.contains(second) {
            return false;
        }
        self.swap_pane_ids(first, second);
        true
    }

    fn swap_pane_ids(&mut self, first: PaneId, second: PaneId)
        ensures
            *final(self) == swap_ids(*old(self), first, second),
    {
        let mut tree = PaneTree::Leaf { pane: first };
        std::mem::swap(&mut tree, self);
        *self = swap_owned(tree, first, second);
    }
}

/// Whether `node` occurs in `tree`, as the tree itself or inside one of its halves.
pub open spec fn has_subtree(tree: PaneTree, node: PaneTree) -> bool
    decreases tree,
{
    tree == node || match tree {
        PaneTree::Leaf { .. } => false,
        PaneTree::Split { first, second, .. } => has_subtree(*first, node) || has_subtree(*second, node),
    }
}

/// A split that finds its target puts in its place a split along the requested `axis`, of
/// half the area each, with the target first and the new pane second; the new pane joins the
/// tree.
pub proof fn lemma_split_makes_the_requested_split(tree: PaneTree, target: PaneId, new_pane: PaneId, axis: SplitAxis)
    requires
        tree_contains(tree, target),
    ensures
        split_tree(tree, target, new_pane, axis).1,
        has_subtree(
            split_tree(tree, target, new_pane, axis).0,
            PaneTree::Split {
                axis,
                ratio: HALF_RATIO_BITS,
                first: Box::new(PaneTree::Leaf { pane: target }),
                second: Box::new(PaneTree::Leaf { pane: new_pane }),
            },
        ),
    decreases tree,
{
    lemma_split_inserts_after_target(tree, target, new_pane, axis);
    match tree {
        PaneTree::Leaf { pane } => {
            assert(tree_panes(tree)[0] == pane);
            let i = choose|i: int| 0 <= i < tree_panes(tree).len() && tree_panes(tree)[i] == target;
            assert(i == 0);
        },
        PaneTree::Split { axis: split_axis, ratio, first, second } => {
            lemma_contains_concat(tree_panes(*first), tree_panes(*second), target);
            if tree_contains(*first, target) {
                lemma_split_makes_the_requested_split(*first, target, new_pane, axis);
            } else {
                lemma_split_inserts_after_target(*first, target, new_pane, axis);
                lemma_split_makes_the_requested_split(*second, target, new_pane, axis);
            }
        },
    }
}

/// A split that finds no leaf of its target leaves the tree as it was.
pub proof fn lemma_split_miss_keeps_tree(tree: PaneTree, target: PaneId, new_pane: PaneId, axis: SplitAxis)
    ensures
        !split_tree(tree, target, new_pane, axis).1 ==> split_tree(tree, target, new_pane, axis).0 == tree,
    decreases tree,
{
    match tree {
        PaneTree::Leaf { .. } => {},
        PaneTree::Split { first, second, .. } => {
            lemma_split_miss_keeps_tree(*first, target, new_pane, axis);
            lemma_split_miss_keeps_tree(*second, target, new_pane, axis);
        },
    }
}

/// `split` on an owned tree.
fn split_owned(tree: PaneTree, target: PaneId, new_pane: PaneId, axis: SplitAxis) -> (result: (PaneTree, bool))
    ensures
        result == split_tree(tree, target, new_pane, axis),
    decreases tree,
{
    match tree {
        PaneTree::Leaf { pane } => {
            if pane == target {
                (
                    PaneTree::Split {
                        axis,
                        ratio: HALF_RATIO_BITS,
                        first: Box::new(PaneTree::Leaf { pane: target }),
                        second: Box::new(PaneTree::Leaf { pane: new_pane }),
                    },
                    true,
                )
            } else {
                (PaneTree::Leaf { pane }, false)
            }
        },
        PaneTree::Split { axis: split_axis, ratio, first, second } => {
            let (first_after, done) = split_owned(*first, target, new_pane, axis);
            if done {
                (PaneTree::Split { axis: split_axis, ratio, first: Box::new(first_after), second }, true)
            } else {
                proof {
                    lemma_split_miss_keeps_tree(*first, target, new_pane, axis);
                }
                let (second_after, found) = split_owned(*second, target, new_pane, axis);
                (
                    PaneTree::Split {
                        axis: split_axis,
                        ratio,
                        first: Box::new(first_after),
                        second: Box::new(second_after),
                    },
                    found,
                )
            }
        },
    }
}

/// The tree with panes `first` and `second` exchanged.
fn swap_owned(tree: PaneTree, first: PaneId, second: PaneId) -> (swapped: PaneTree)
    ensures
        swapped == swap_ids(tree, first, second),
    decreases tree,
{
    match tree {
        PaneTree::Leaf { pane } => {
            let pane = if pane == first {
                second
            } else if pane == second {
                first
            } else {
                pane
            };
            PaneTree::Leaf { pane }
        },
        PaneTree::Split { axis, ratio, first: left, second: right } => PaneTree::Split {
            axis,
            ratio,
            first: Box::new(swap_owned(*left, first, second)),
            second: Box::new(swap_owned(*right, first, second)),
        },
    }
}


/// Swapping two panes exchanges them wherever they appear and keeps every other pane in place.
pub proof fn lemma_swap_exchanges_panes(tree: PaneTree, first: PaneId, second: PaneId)
    ensures
        tree_panes(swap_ids(tree, first, second)) == tree_panes(tree).map_values(
            |pane: PaneId| swapped_id(pane, first, second),
        ),
    decreases tree,
{
    match tree {
        PaneTree::Leaf { pane } => {
            assert(tree_panes(swap_ids(tree, first, second)) =~= tree_panes(tree).map_values(
                |pane: PaneId| swapped_id(pane, first, second),
            ));
        },
        PaneTree::Split { first: left, second: right, .. } => {
            lemma_swap_exchanges_panes(*left, first, second);
            lemma_swap_exchanges_panes(*right, first, second);
            assert(tree_panes(swap_ids(tree, first, second)) =~= tree_panes(tree).map_values(
                |pane: PaneId| swapped_id(pane, first, second),
            ));
        },
    }
}

/// Swapping panes keeps the shape of the tree: the same splits, axes and ratios, and the same
/// number of panes.
pub open spec fn same_shape(left: PaneTree, right: PaneTree) -> bool
    decreases left,
{
    match (left, right) {
        (PaneTree::Leaf { .. }, PaneTree::Leaf { .. }) => true,
        (
            PaneTree::Split { axis: a, ratio: r, first: f, second: s },
            PaneTree::Split { axis: b, ratio: q, first: g, second: t },
        ) => a == b && r == q && same_shape(*f, *g) && same_shape(*s, *t),
        _ => false,
    }
}

pub proof fn lemma_swap_keeps_shape(tree: PaneTree, first: PaneId, second: PaneId)
    ensures
        same_shape(tree, swap_ids(tree, first, second)),
    decreases tree,
{
    match tree {
        PaneTree::Leaf { .. } => {},
        PaneTree::Split { first: left, second: right, .. } => {
            lemma_swap_keeps_shape(*left, first, second);
            lemma_swap_keeps_shape(*right, first, second);
        },
    }
}

/// Where `target` first occurs in `panes` (the length when it does not).
pub open spec fn first_position(panes: Seq<PaneId>, target: PaneId) -> int
    decreases panes.len(),
{
    if panes.len() == 0 || panes[0] == target {
        0
    } else {
        1 + first_position(panes.drop_first(), target)
    }
}

proof fn lemma_first_position_concat(left: Seq<PaneId>, right: Seq<PaneId>, target: PaneId)
    ensures
        first_position(left + right, target) == if left.contains(target) {
            first_position(left, target)
        } else {
            left.len() + first_position(right, target)
        },
        left.contains(target) ==> 0 <= first_position(left, target) < left.len(),
    decreases left.len(),
{
    if left.len() > 0 {
        assert((left + right).drop_first() =~= left.drop_first() + right);
        lemma_first_position_concat(left.drop_first(), right, target);
        if left[0] != target {
            if left.contains(target) {
                let i = choose|i: int| 0 <= i < left.len() && left[i] == target;
                assert(left.drop_first()[i - 1] == target);
            }
            if left.drop_first().contains(target) {
                let i = choose|i: int| 0 <= i < left.drop_first().len() && left.drop_first()[i] == target;
                assert(left[i + 1] == target);
            }
        }
    } else {
        assert(left + right =~= right);
    }
}

/// A split succeeds exactly when the tree holds its target; it then adds the new pane right
/// after the first occurrence of the target and keeps every other pane in order. A split that
/// fails leaves the tree as it was.
pub proof fn lemma_split_inserts_after_target(tree: PaneTree, target: PaneId, new_pane: PaneId, axis: SplitAxis)
    ensures
        split_tree(tree, target, new_pane, axis).1 == tree_contains(tree, target),
        split_tree(tree, target, new_pane, axis).1 ==> tree_panes(split_tree(tree, target, new_pane, axis).0)
            == tree_panes(tree).insert(first_position(tree_panes(tree), target) + 1, new_pane),
        !split_tree(tree, target, new_pane, axis).1 ==> split_tree(tree, target, new_pane, axis).0 == tree,
    decreases tree,
{
    lemma_split_miss_keeps_tree(tree, target, new_pane, axis);
    match tree {
        PaneTree::Leaf { pane } => {
            if pane == target {
                assert(tree_panes(tree)[0] == target);
                assert(tree_panes(PaneTree::Leaf { pane: target }) == seq![target]);
                assert(tree_panes(PaneTree::Leaf { pane: new_pane }) == seq![new_pane]);
                assert(tree_panes(split_tree(tree, target, new_pane, axis).0) =~= seq![target] + seq![new_pane]);
                assert(tree_panes(split_tree(tree, target, new_pane, axis).0) =~= tree_panes(tree).insert(1, new_pane));
            } else {
                assert(!tree_panes(tree).contains(target)) by {
                    if tree_panes(tree).contains(target) {
                        let i = choose|i: int| 0 <= i < tree_panes(tree).len() && tree_panes(tree)[i] == target;
                        assert(i == 0);
                    }
                }
            }
        },
        PaneTree::Split { axis: split_axis, ratio, first, second } => {
            lemma_split_inserts_after_target(*first, target, new_pane, axis);
            lemma_split_inserts_after_target(*second, target, new_pane, axis);
            let left = tree_panes(*first);
            let right = tree_panes(*second);
            lemma_contains_concat(left, right, target);
            lemma_first_position_concat(left, right, target);
            assert(tree_panes(tree) == left + right);
            if tree_contains(*first, target) {
                let after = tree_panes(split_tree(*first, target, new_pane, axis).0);
                assert(tree_panes(split_tree(tree, target, new_pane, axis).0) == after + right);
                assert(after + right =~= (left + right).insert(first_position(left, target) + 1, new_pane));
            } else if tree_contains(*second, target) {
                lemma_first_position_concat(right, Seq::empty(), target);
                assert(right + Seq::<PaneId>::empty() =~= right);
                let after = tree_panes(split_tree(*second, target, new_pane, axis).0);
                assert(tree_panes(split_tree(tree, target, new_pane, axis).0) == left + after);
                assert(left + after =~= (left + right).insert(left.len() + first_position(right, target) + 1, new_pane));
            }
        },
    }
}


/// The first pane of a tree is the first of its panes.
pub proof fn lemma_first_pane_is_first(tree: PaneTree)
    ensures
        tree_panes(tree).len() > 0,
        tree_panes(tree)[0] == first_pane(tree),
        tree_contains(tree, first_pane(tree)),
    decreases tree,
{
    match tree {
        PaneTree::Leaf { .. } => {},
        PaneTree::Split { first, second, .. } => {
            lemma_first_pane_is_first(*first);
            assert((tree_panes(*first) + tree_panes(*second))[0] == first_pane(tree));
        },
    }
    assert(tree_panes(tree)[0] == first_pane(tree));
}

/// Closing works exactly on a split tree that holds the target; it removes the target's
/// first occurrence, keeps the other panes in order, and focuses a pane that remains.
#[verifier::rlimit(40)]
#[verifier::spinoff_prover]
pub proof fn lemma_close_removes_target(tree: PaneTree, target: PaneId)
    ensures
        close_tree(tree, target) is Some <==> (tree is Split && tree_contains(tree, target)),
        close_tree(tree, target) matches Some((closed, focus)) ==> tree_panes(closed) == tree_panes(
            tree,
        ).remove(first_position(tree_panes(tree), target)) && tree_contains(closed, focus),
    decreases tree,
{
    match tree {
        PaneTree::Leaf { .. } => {},
        PaneTree::Split { axis, ratio, first, second } => {
            let left = tree_panes(*first);
            let right = tree_panes(*second);
            lemma_contains_concat(left, right, target);
            lemma_first_position_concat(left, right, target);
            assert(tree_panes(tree) == left + right);
            if tree_contains(*first, target) {
                if *first == (PaneTree::Leaf { pane: target }) {
                    assert(left == seq![target]);
                    lemma_first_pane_is_first(*second);
                    assert(right =~= (left + right).remove(0));
                } else {
                    assert(*first is Split) by {
                        if let PaneTree::Leaf { pane } = *first {
                            assert(left[0] == pane);
                            assert(left.len() == 1);
                        }
                    }
                    lemma_close_removes_target(*first, target);
                    if let Some((closed_first, focus)) = close_tree(*first, target) {
                        let rest = tree_panes(closed_first);
                        assert(rest + right =~= (left + right).remove(first_position(left, target)));
                        lemma_contains_concat(rest, right, focus);
                    }
                }
            } else if tree_contains(*second, target) {
                lemma_first_position_concat(right, Seq::empty(), target);
                assert(right + Seq::<PaneId>::empty() =~= right);
                if *second == (PaneTree::Leaf { pane: target }) {
                    assert(right == seq![target]);
                    lemma_first_pane_is_first(*first);
                    assert(left =~= (left + right).remove(left.len() as int));
                } else {
                    assert(*second is Split) by {
                        if let PaneTree::Leaf { pane } = *second {
                            assert(right[0] == pane);
                            assert(right.len() == 1);
                        }
                    }
                    lemma_close_removes_target(*second, target);
                    if let Some((closed_second, focus)) = close_tree(*second, target) {
                        let rest = tree_panes(closed_second);
                        assert(left + rest =~= (left + right).remove(left.len() + first_position(right, target)));
                        lemma_contains_concat(left, rest, focus);
                    }
                }
            }
        },
    }
}

pub proof fn lemma_contains_concat(left: Seq<PaneId>, right: Seq<PaneId>, target: PaneId)
    ensures
        (left + right).contains(target) == (left.contains(target) || right.contains(target)),
{
    if left.contains(target) {
        let i = choose|i: int| 0 <= i < left.len() && left[i] == target;
        assert((left + right)[i] == target);
    }
    if right.contains(target) {
        let i = choose|i: int| 0 <= i < right.len() && right[i] == target;
        assert((left + right)[left.len() + i] == target);
    }
    if (left + right).contains(target) {
        let i = choose|i: int| 0 <= i < (left + right).len() && (left + right)[i] == target;
        if i < left.len() {
            assert(left[i] == target);
        } else {
            assert(right[i - left.len()] == target);
        }
    }
}

/// `close` on an owned tree: the tree after closing `target` and the pane to focus, or the
/// tree unchanged and `None`.
fn close_owned(tree: PaneTree, target: PaneId) -> (result: (PaneTree, Option<PaneId>))
    ensures
        match close_tree(tree, target) {
            Some((closed, next)) => result.0 == closed && result.1 == Some(next),
            None => result.0 == tree && result.1 is None,
        },
    decreases tree,
{
    match tree {
        PaneTree::Leaf { pane } => (PaneTree::Leaf { pane }, None),
        PaneTree::Split { axis, ratio, first, second } => {
            if first.contains(target) {
                let first_is_target = match &*first {
                    PaneTree::Leaf { pane } => *pane == target,
                    _ => false,
                };
                if first_is_target {
                    let focus = second.first();
                    (*second, Some(focus))
                } else {
                    let (first_after, focus) = close_owned(*first, target);
                    (PaneTree::Split { axis, ratio, first: Box::new(first_after), second }, focus)
                }
            } else if second.contains(target) {
                let second_is_target = match &*second {
                    PaneTree::Leaf { pane } => *pane == target,
                    _ => false,
                };
                if second_is_target {
                    let focus = first.first();
                    (*first, Some(focus))
                } else {
                    let (second_after, focus) = close_owned(*second, target);
                    (PaneTree::Split { axis, ratio, first, second: Box::new(second_after) }, focus)
                }
            } else {
                (PaneTree::Split { axis, ratio, first, second }, None)
            }
        },
    }
}

} // verus!
