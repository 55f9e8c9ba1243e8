//! The pane layout engine: a binary split tree whose leaves are panes,
//! each owning one document buffer registry.  Splitting, closing, resizing,
//! dragging and pinning are pure tree transformations; which pane an event
//! reaches is decided by the session that owns the tree.

use vstd::prelude::*;

use crate::editor_core::{CoreV, EditorCore};
use crate::event::Axis;

verus! {

/// Ratios are measured in thousandths: an internal node's ratio lies
/// strictly between `0` and `RATIO_UNIT`.
pub const RATIO_UNIT: u32 = 1000;

/// The ratio of a fresh split: half and half.
pub const RATIO_HALF: u32 = 500;

/// One pane: its id, its document registry, and its pinned flag.  A pinned
/// pane refuses to close while other panes exist.
#[derive(Debug, PartialEq)]
pub struct Pane {
    pub id: usize,
    pub core: EditorCore,
    pub is_pinned: bool,
}

/// Mathematical image of a [`Pane`].
#[verifier::ext_equal]
pub struct PaneV {
    pub id: usize,
    pub core: CoreV,
    pub is_pinned: bool,
}

impl View for Pane {
    type V = PaneV;

    open spec fn view(&self) -> PaneV {
        PaneV { id: self.id, core: self.core@, is_pinned: self.is_pinned }
    }
}

impl Pane {
    /// A fresh pane: empty registry, not pinned.
    pub fn new(id: usize) -> (r: Pane)
        ensures
            r@ == (PaneV { id, core: CoreV::init(), is_pinned: false }),
    {
        Pane { id, core: EditorCore::new(), is_pinned: false }
    }

    /// A copy denoting the same pane state.
    pub fn duplicate(&self) -> (r: Pane)
        ensures
            r@ == self@,
    {
        Pane { id: self.id, core: EditorCore::new_from(&self.core), is_pinned: self.is_pinned }
    }
}

/// The binary split tree.  Leaves are panes; an internal node records the
/// split direction, its ratio, and the two subtrees.
#[derive(Debug, PartialEq)]
pub enum PaneTree {
    Leaf(Pane),
    Split { id: usize, axis: Axis, ratio: u32, left: Box<PaneTree>, right: Box<PaneTree> },
}

/// Mathematical image of a [`PaneTree`].
#[verifier::ext_equal]
pub enum TreeV {
    Leaf(PaneV),
    Split { id: usize, axis: Axis, ratio: u32, left: Box<TreeV>, right: Box<TreeV> },
}

/// The image of a tree, leaf by leaf.
pub open spec fn tree_view(t: PaneTree) -> TreeV
    decreases t,
{
    match t {
        PaneTree::Leaf(p) => TreeV::Leaf(p@),
        PaneTree::Split { id, axis, ratio, left, right } => TreeV::Split {
            id,
            axis,
            ratio,
            left: Box::new(tree_view(*left)),
            right: Box::new(tree_view(*right)),
        },
    }
}

impl View for PaneTree {
    type V = TreeV;

    open spec fn view(&self) -> TreeV {
        tree_view(*self)
    }
}

/// How many panes the tree holds.
pub open spec fn count_leaves(t: TreeV) -> nat
    decreases t,
{
    match t {
        TreeV::Leaf(_) => 1,
        TreeV::Split { left, right, .. } => count_leaves(*left) + count_leaves(*right),
    }
}

/// Whether some leaf carries the pane id `id`.
pub open spec fn has_pane(t: TreeV, id: usize) -> bool
    decreases t,
{
    match t {
        TreeV::Leaf(p) => p.id == id,
        TreeV::Split { left, right, .. } => has_pane(*left, id) || has_pane(*right, id),
    }
}

/// The pane carried by the first leaf with id `id`, if any.
pub open spec fn pane_of(t: TreeV, id: usize) -> Option<PaneV>
    decreases t,
{
    match t {
        TreeV::Leaf(p) => if p.id == id {
            Some(p)
        } else {
            None
        },
        TreeV::Split { left, right, .. } => match pane_of(*left, id) {
            Some(p) => Some(p),
            None => pane_of(*right, id),
        },
    }
}

/// Whether some internal node carries the split id `sid`.
pub open spec fn has_split(t: TreeV, sid: usize) -> bool
    decreases t,
{
    match t {
        TreeV::Leaf(_) => false,
        TreeV::Split { id, left, right, .. } => id == sid || has_split(*left, sid) || has_split(
            *right,
            sid,
        ),
    }
}

/// The id of the leftmost pane.
pub open spec fn first_leaf(t: TreeV) -> usize
    decreases t,
{
    match t {
        TreeV::Leaf(p) => p.id,
        TreeV::Split { left, .. } => first_leaf(*left),
    }
}

/// Every leaf id occurs at most once: the two sides of every split share
/// no pane id.
pub open spec fn distinct_leaves(t: TreeV) -> bool
    decreases t,
{
    match t {
        TreeV::Leaf(_) => true,
        TreeV::Split { left, right, .. } => {
            &&& distinct_leaves(*left)
            &&& distinct_leaves(*right)
            &&& forall|x: usize| !(has_pane(*left, x) && has_pane(*right, x))
        },
    }
}

/// Every split id occurs at most once.
pub open spec fn distinct_splits(t: TreeV) -> bool
    decreases t,
{
    match t {
        TreeV::Leaf(_) => true,
        TreeV::Split { id, left, right, .. } => {
            &&& !has_split(*left, id)
            &&& !has_split(*right, id)
            &&& distinct_splits(*left)
            &&& distinct_splits(*right)
            &&& forall|x: usize| !(has_split(*left, x) && has_split(*right, x))
        },
    }
}

/// Local well-formedness: every ratio lies strictly inside the unit
/// interval, and every pane's registry satisfies its invariant.
pub open spec fn wf_tree(t: TreeV) -> bool
    decreases t,
{
    match t {
        TreeV::Leaf(p) => p.core.inv(),
        TreeV::Split { ratio, left, right, .. } => {
            &&& 0 < ratio < RATIO_UNIT
            &&& wf_tree(*left)
            &&& wf_tree(*right)
        },
    }
}

/// The tree after splitting the pane `target` along `axis`: the leaf is
/// replaced by an internal node carrying the fresh split id `sid`, the old
/// pane on the left, the fresh pane on the right, at half ratio.  `None`
/// when no leaf has `target`.
pub open spec fn spec_split(t: TreeV, axis: Axis, target: usize, fresh: PaneV, sid: usize) -> Option<
    TreeV,
>
    decreases t,
{
    match t {
        TreeV::Leaf(p) => if p.id == target {
            Some(
                TreeV::Split {
                    id: sid,
                    axis,
                    ratio: RATIO_HALF,
                    left: Box::new(TreeV::Leaf(p)),
                    right: Box::new(TreeV::Leaf(fresh)),
                },
            )
        } else {
            None
        },
        TreeV::Split { id, axis: ax, ratio, left, right } => {
            match spec_split(*left, axis, target, fresh, sid) {
                Some(l2) => Some(
                    TreeV::Split { id, axis: ax, ratio, left: Box::new(l2), right },
                ),
                None => match spec_split(*right, axis, target, fresh, sid) {
                    Some(r2) => Some(
                        TreeV::Split { id, axis: ax, ratio, left, right: Box::new(r2) },
                    ),
                    None => None,
                },
            }
        },
    }
}

/// The tree after closing the pane `target`, and the leaf that inherits
/// focus: the sibling subtree replaces the parent split, and focus goes to
/// the sibling's first leaf.  `None` when no leaf has `target` or the tree
/// is a single leaf.
pub open spec fn spec_close(t: TreeV, target: usize) -> Option<(TreeV, usize)>
    decreases t,
{
    match t {
        TreeV::Leaf(_) => None,
        TreeV::Split { id, axis, ratio, left, right } => {
            if *left matches TreeV::Leaf(p) && p.id == target {
                Some((*right, first_leaf(*right)))
            } else if *right matches TreeV::Leaf(p) && p.id == target {
                Some((*left, first_leaf(*left)))
            } else {
                match spec_close(*left, target) {
                    Some((l2, f)) => Some(
                        (TreeV::Split { id, axis, ratio, left: Box::new(l2), right }, f),
                    ),
                    None => match spec_close(*right, target) {
                        Some((r2, f)) => Some(
                            (TreeV::Split { id, axis, ratio, left, right: Box::new(r2) }, f),
                        ),
                        None => None,
                    },
                }
            }
        },
    }
}

/// A ratio forced into the open unit interval.
pub open spec fn clamp_ratio(r: u32) -> u32 {
    if r < 1 {
        1
    } else if r > RATIO_UNIT - 1 {
        (RATIO_UNIT - 1) as u32
    } else {
        r
    }
}

/// The tree after setting the ratio of the split `sid` to `ratio`,
/// clamped; unchanged when no split has `sid`.
pub open spec fn spec_resize(t: TreeV, sid: usize, ratio: u32) -> TreeV
    decreases t,
{
    match t {
        TreeV::Leaf(_) => t,
        TreeV::Split { id, axis, ratio: r0, left, right } => {
            if id == sid {
                TreeV::Split { id, axis, ratio: clamp_ratio(ratio), left, right }
            } else {
                TreeV::Split {
                    id,
                    axis,
                    ratio: r0,
                    left: Box::new(spec_resize(*left, sid, ratio)),
                    right: Box::new(spec_resize(*right, sid, ratio)),
                }
            }
        },
    }
}

/// The tree after flipping the pinned flag of pane `id`; unchanged when no
/// leaf has `id`.
pub open spec fn spec_toggle_pin(t: TreeV, id: usize) -> TreeV
    decreases t,
{
    match t {
        TreeV::Leaf(p) => if p.id == id {
            TreeV::Leaf(PaneV { id: p.id, core: p.core, is_pinned: !p.is_pinned })
        } else {
            t
        },
        TreeV::Split { id: nid, axis, ratio, left, right } => TreeV::Split {
            id: nid,
            axis,
            ratio,
            left: Box::new(spec_toggle_pin(*left, id)),
            right: Box::new(spec_toggle_pin(*right, id)),
        },
    }
}

/// The tree with the panes of leaves `a` and `b` exchanged in one pass;
/// `pa` and `pb` are the panes those leaves carry.
pub open spec fn spec_swap_inner(t: TreeV, a: usize, b: usize, pa: PaneV, pb: PaneV) -> TreeV
    decreases t,
{
    match t {
        TreeV::Leaf(p) => if p.id == a {
            TreeV::Leaf(pb)
        } else if p.id == b {
            TreeV::Leaf(pa)
        } else {
            t
        },
        TreeV::Split { id, axis, ratio, left, right } => TreeV::Split {
            id,
            axis,
            ratio,
            left: Box::new(spec_swap_inner(*left, a, b, pa, pb)),
            right: Box::new(spec_swap_inner(*right, a, b, pa, pb)),
        },
    }
}

/// The tree after dragging pane `a` and dropping it on pane `b`: the two
/// leaves' panes swap places, the shape stays.  A drop on a missing pane,
/// or on itself, changes nothing.
pub open spec fn spec_dropped(t: TreeV, a: usize, b: usize) -> TreeV {
    if a != b && pane_of(t, a) is Some && pane_of(t, b) is Some {
        spec_swap_inner(t, a, b, pane_of(t, a).unwrap(), pane_of(t, b).unwrap())
    } else {
        t
    }
}

// ---------------------------------------------------------------------
// What the tree transformations preserve.
// ---------------------------------------------------------------------

/// A found pane carries the id it was looked up by, its registry satisfies
/// its invariant when the tree is well-formed, and a pane is found exactly
/// when its id is present.
pub proof fn lemma_pane_of_props(t: TreeV, id: usize)
    ensures
        pane_of(t, id) is Some <==> has_pane(t, id),
        pane_of(t, id) matches Some(p) ==> p.id == id,
        wf_tree(t) ==> (pane_of(t, id) matches Some(p) ==> p.core.inv()),
    decreases t,
{
    match t {
        TreeV::Leaf(_) => {},
        TreeV::Split { left, right, .. } => {
            lemma_pane_of_props(*left, id);
            lemma_pane_of_props(*right, id);
        },
    }
}

/// The first leaf of a tree is one of its panes.
pub proof fn lemma_first_leaf_has(t: TreeV)
    ensures
        has_pane(t, first_leaf(t)),
    decreases t,
{
    match t {
        TreeV::Leaf(_) => {},
        TreeV::Split { left, .. } => {
            lemma_first_leaf_has(*left);
        },
    }
}

/// Splitting succeeds exactly when the target pane exists, and the result
/// is always an internal node.
pub proof fn lemma_split_some_iff(t: TreeV, axis: Axis, target: usize, fresh: PaneV, sid: usize)
    ensures
        spec_split(t, axis, target, fresh, sid) is Some <==> has_pane(t, target),
        spec_split(t, axis, target, fresh, sid) matches Some(t2) ==> t2 is Split,
    decreases t,
{
    match t {
        TreeV::Leaf(_) => {},
        TreeV::Split { left, right, .. } => {
            lemma_split_some_iff(*left, axis, target, fresh, sid);
            lemma_split_some_iff(*right, axis, target, fresh, sid);
        },
    }
}

/// What a successful split does: it adds exactly the fresh pane and the
/// fresh split id, and keeps the tree well-formed.
pub proof fn lemma_split_props(t: TreeV, axis: Axis, target: usize, fresh: PaneV, sid: usize)
    requires
        spec_split(t, axis, target, fresh, sid) is Some,
        distinct_leaves(t),
        distinct_splits(t),
        wf_tree(t),
        !has_pane(t, fresh.id),
        !has_split(t, sid),
        fresh.core.inv(),
    ensures
        ({
            let t2 = spec_split(t, axis, target, fresh, sid).unwrap();
            &&& forall|x: usize| has_pane(t2, x) <==> (has_pane(t, x) || x == fresh.id)
            &&& forall|x: usize| has_split(t2, x) <==> (has_split(t, x) || x == sid)
            &&& pane_of(t2, fresh.id) == Some(fresh)
            &&& distinct_leaves(t2)
            &&& distinct_splits(t2)
            &&& wf_tree(t2)
            &&& count_leaves(t2) == count_leaves(t) + 1
        }),
    decreases t,
{
    reveal_with_fuel(spec_split, 2);
    reveal_with_fuel(pane_of, 3);
    reveal_with_fuel(has_pane, 3);
    reveal_with_fuel(has_split, 3);
    reveal_with_fuel(distinct_leaves, 3);
    reveal_with_fuel(distinct_splits, 3);
    reveal_with_fuel(wf_tree, 3);
    reveal_with_fuel(count_leaves, 3);
    let t2 = spec_split(t, axis, target, fresh, sid).unwrap();
    match t {
        TreeV::Leaf(_) => {},
        TreeV::Split { id, axis: ax, ratio, left, right } => {
            lemma_split_some_iff(*left, axis, target, fresh, sid);
            lemma_split_some_iff(*right, axis, target, fresh, sid);
            if spec_split(*left, axis, target, fresh, sid) is Some {
                lemma_split_props(*left, axis, target, fresh, sid);
                let l2 = spec_split(*left, axis, target, fresh, sid).unwrap();
                assert(t2 == (TreeV::Split { id, axis: ax, ratio, left: Box::new(l2), right }));
                assert forall|x: usize|
                    has_pane(t2, x) <==> (has_pane(t, x) || x == fresh.id) by {
                    assert(has_pane(t2, x) == (has_pane(l2, x) || has_pane(*right, x)));
                    assert(has_pane(t, x) == (has_pane(*left, x) || has_pane(*right, x)));
                }
                assert forall|x: usize|
                    has_split(t2, x) <==> (has_split(t, x) || x == sid) by {
                    assert(has_split(t2, x) == (id == x || has_split(l2, x) || has_split(
                        *right,
                        x,
                    )));
                }
                assert forall|x: usize| !(has_pane(l2, x) && has_pane(*right, x)) by {
                    assert(has_pane(l2, x) == (has_pane(*left, x) || x == fresh.id));
                    assert(!(has_pane(*left, x) && has_pane(*right, x)));
                    assert(!has_pane(t, fresh.id));
                }
                assert forall|x: usize| !(has_split(l2, x) && has_split(*right, x)) by {
                    assert(has_split(l2, x) == (has_split(*left, x) || x == sid));
                }
                assert(distinct_leaves(t2));
                assert(distinct_splits(t2));
                assert(wf_tree(t2));
                assert(pane_of(t2, fresh.id) == Some(fresh));
            } else {
                lemma_split_props(*right, axis, target, fresh, sid);
                let r2 = spec_split(*right, axis, target, fresh, sid).unwrap();
                assert(t2 == (TreeV::Split { id, axis: ax, ratio, left, right: Box::new(r2) }));
                assert forall|x: usize|
                    has_pane(t2, x) <==> (has_pane(t, x) || x == fresh.id) by {
                    assert(has_pane(t2, x) == (has_pane(*left, x) || has_pane(r2, x)));
                    assert(has_pane(t, x) == (has_pane(*left, x) || has_pane(*right, x)));
                }
                assert forall|x: usize|
                    has_split(t2, x) <==> (has_split(t, x) || x == sid) by {
                    assert(has_split(t2, x) == (id == x || has_split(*left, x) || has_split(
                        r2,
                        x,
                    )));
                }
                assert forall|x: usize| !(has_pane(*left, x) && has_pane(r2, x)) by {
                    assert(has_pane(r2, x) == (has_pane(*right, x) || x == fresh.id));
                    assert(!(has_pane(*left, x) && has_pane(*right, x)));
                    assert(!has_pane(t, fresh.id));
                }
                assert forall|x: usize| !(has_split(*left, x) && has_split(r2, x)) by {
                    assert(has_split(r2, x) == (has_split(*right, x) || x == sid));
                }
                assert(distinct_leaves(t2));
                assert(distinct_splits(t2));
                assert(wf_tree(t2));
                lemma_pane_of_props(*left, fresh.id);
                assert(pane_of(t2, fresh.id) == Some(fresh));
            }
        },
    }
}

/// Closing succeeds exactly when the target pane exists under some split.
pub proof fn lemma_close_some_iff(t: TreeV, target: usize)
    ensures
        spec_close(t, target) is Some <==> (t is Split && has_pane(t, target)),
    decreases t,
{
    reveal_with_fuel(spec_close, 2);
    reveal_with_fuel(has_pane, 2);
    match t {
        TreeV::Leaf(_) => {},
        TreeV::Split { left, right, .. } => {
            lemma_close_some_iff(*left, target);
            lemma_close_some_iff(*right, target);
        },
    }
}

/// What a successful close does: exactly the closed pane disappears, no
/// split id appears, the leaf that inherits focus exists in the result,
/// and the tree stays well-formed.
pub proof fn lemma_close_props(t: TreeV, target: usize)
    requires
        spec_close(t, target) is Some,
        distinct_leaves(t),
        distinct_splits(t),
        wf_tree(t),
    ensures
        ({
            let (t2, f) = spec_close(t, target).unwrap();
            &&& forall|x: usize| has_pane(t2, x) <==> (has_pane(t, x) && x != target)
            &&& has_pane(t2, f)
            &&& forall|x: usize| has_split(t2, x) ==> has_split(t, x)
            &&& distinct_leaves(t2)
            &&& distinct_splits(t2)
            &&& wf_tree(t2)
            &&& count_leaves(t2) == count_leaves(t) - 1
        }),
    decreases t,
{
    reveal_with_fuel(spec_close, 2);
    reveal_with_fuel(has_pane, 3);
    reveal_with_fuel(has_split, 3);
    reveal_with_fuel(distinct_leaves, 2);
    reveal_with_fuel(distinct_splits, 2);
    reveal_with_fuel(wf_tree, 2);
    reveal_with_fuel(count_leaves, 2);
    let t2 = spec_close(t, target).unwrap().0;
    let f = spec_close(t, target).unwrap().1;
    match t {
        TreeV::Leaf(_) => {},
        TreeV::Split { id, axis, ratio, left, right } => {
            if *left matches TreeV::Leaf(p) && p.id == target {
                lemma_first_leaf_has(*right);
                assert(t2 == *right);
                assert forall|x: usize|
                    has_pane(t2, x) <==> (has_pane(t, x) && x != target) by {
                    assert(has_pane(t, x) == (has_pane(*left, x) || has_pane(*right, x)));
                    assert(!(has_pane(*left, target) && has_pane(*right, target)));
                }
            } else if *right matches TreeV::Leaf(p) && p.id == target {
                lemma_first_leaf_has(*left);
                assert(t2 == *left);
                assert forall|x: usize|
                    has_pane(t2, x) <==> (has_pane(t, x) && x != target) by {
                    assert(has_pane(t, x) == (has_pane(*left, x) || has_pane(*right, x)));
                    assert(!(has_pane(*left, target) && has_pane(*right, target)));
                }
            } else {
                lemma_close_some_iff(*left, target);
                lemma_close_some_iff(*right, target);
                if spec_close(*left, target) is Some {
                    lemma_close_props(*left, target);
                    let l2 = spec_close(*left, target).unwrap().0;
                    assert(t2 == (TreeV::Split { id, axis, ratio, left: Box::new(l2), right }));
                    assert forall|x: usize|
                        has_pane(t2, x) <==> (has_pane(t, x) && x != target) by {
                        assert(has_pane(t2, x) == (has_pane(l2, x) || has_pane(*right, x)));
                        assert(has_pane(t, x) == (has_pane(*left, x) || has_pane(*right, x)));
                        assert(!(has_pane(*left, target) && has_pane(*right, target)));
                    }
                    assert forall|x: usize| has_split(t2, x) implies has_split(t, x) by {
                        assert(has_split(t2, x) == (id == x || has_split(l2, x) || has_split(
                            *right,
                            x,
                        )));
                    }
                    assert forall|x: usize| !(has_pane(l2, x) && has_pane(*right, x)) by {
                        assert(!(has_pane(*left, x) && has_pane(*right, x)));
                    }
                    assert forall|x: usize| !(has_split(l2, x) && has_split(*right, x)) by {
                        assert(!(has_split(*left, x) && has_split(*right, x)));
                    }
                    assert(!has_split(l2, id));
                    assert(distinct_leaves(t2));
                    assert(distinct_splits(t2));
                    assert(wf_tree(t2));
                } else {
                    lemma_close_props(*right, target);
                    let r2 = spec_close(*right, target).unwrap().0;
                    assert(t2 == (TreeV::Split { id, axis, ratio, left, right: Box::new(r2) }));
                    assert forall|x: usize|
                        has_pane(t2, x) <==> (has_pane(t, x) && x != target) by {
                        assert(has_pane(t2, x) == (has_pane(*left, x) || has_pane(r2, x)));
                        assert(has_pane(t, x) == (has_pane(*left, x) || has_pane(*right, x)));
                        assert(!(has_pane(*left, target) && has_pane(*right, target)));
                    }
                    assert forall|x: usize| has_split(t2, x) implies has_split(t, x) by {
                        assert(has_split(t2, x) == (id == x || has_split(*left, x) || has_split(
                            r2,
                            x,
                        )));
                    }
                    assert forall|x: usize| !(has_pane(*left, x) && has_pane(r2, x)) by {
                        assert(!(has_pane(*left, x) && has_pane(*right, x)));
                    }
                    assert forall|x: usize| !(has_split(*left, x) && has_split(r2, x)) by {
                        assert(!(has_split(*left, x) && has_split(*right, x)));
                    }
                    assert(!has_split(r2, id));
                    assert(distinct_leaves(t2));
                    assert(distinct_splits(t2));
                    assert(wf_tree(t2));
                }
            }
        },
    }
}

/// Resizing changes no pane and no split id, and keeps the tree
/// well-formed; every pane's state is untouched.
pub proof fn lemma_resize_props(t: TreeV, sid: usize, ratio: u32)
    requires
        distinct_leaves(t),
        distinct_splits(t),
        wf_tree(t),
    ensures
        ({
            let t2 = spec_resize(t, sid, ratio);
            &&& forall|x: usize| has_pane(t2, x) == has_pane(t, x)
            &&& forall|x: usize| has_split(t2, x) == has_split(t, x)
            &&& forall|x: usize| pane_of(t2, x) == pane_of(t, x)
            &&& distinct_leaves(t2)
            &&& distinct_splits(t2)
            &&& wf_tree(t2)
            &&& count_leaves(t2) == count_leaves(t)
        }),
    decreases t,
{
    reveal_with_fuel(spec_resize, 2);
    reveal_with_fuel(has_pane, 2);
    reveal_with_fuel(has_split, 2);
    reveal_with_fuel(pane_of, 2);
    reveal_with_fuel(distinct_leaves, 2);
    reveal_with_fuel(distinct_splits, 2);
    reveal_with_fuel(wf_tree, 2);
    reveal_with_fuel(count_leaves, 2);
    let t2 = spec_resize(t, sid, ratio);
    match t {
        TreeV::Leaf(_) => {},
        TreeV::Split { id, left, right, .. } => {
            if id != sid {
                lemma_resize_props(*left, sid, ratio);
                lemma_resize_props(*right, sid, ratio);
                let l2 = spec_resize(*left, sid, ratio);
                let r2 = spec_resize(*right, sid, ratio);
                assert forall|x: usize| has_pane(t2, x) == has_pane(t, x) by {
                    assert(has_pane(t2, x) == (has_pane(l2, x) || has_pane(r2, x)));
                    assert(has_pane(t, x) == (has_pane(*left, x) || has_pane(*right, x)));
                }
                assert forall|x: usize| has_split(t2, x) == has_split(t, x) by {
                    assert(has_split(t2, x) == (id == x || has_split(l2, x) || has_split(r2, x)));
                }
                assert forall|x: usize| pane_of(t2, x) == pane_of(t, x) by {
                    assert(pane_of(t2, x) == (match pane_of(l2, x) {
                        Some(p) => Some(p),
                        None => pane_of(r2, x),
                    }));
                }
                assert(distinct_leaves(t2));
                assert(distinct_splits(t2));
                assert(wf_tree(t2));
            }
        },
    }
}

/// Toggling a pin flips exactly the addressed pane's flag: ids, shape and
/// every other pane are untouched, and the tree stays well-formed.
pub proof fn lemma_toggle_props(t: TreeV, id: usize)
    requires
        distinct_leaves(t),
        distinct_splits(t),
        wf_tree(t),
    ensures
        ({
            let t2 = spec_toggle_pin(t, id);
            &&& forall|x: usize| has_pane(t2, x) == has_pane(t, x)
            &&& forall|x: usize| has_split(t2, x) == has_split(t, x)
            &&& forall|x: usize| x != id ==> pane_of(t2, x) == pane_of(t, x)
            &&& pane_of(t2, id) == match pane_of(t, id) {
                Some(p) => Some(PaneV { id: p.id, core: p.core, is_pinned: !p.is_pinned }),
                None => None::<PaneV>,
            }
            &&& distinct_leaves(t2)
            &&& distinct_splits(t2)
            &&& wf_tree(t2)
            &&& count_leaves(t2) == count_leaves(t)
        }),
    decreases t,
{
    reveal_with_fuel(spec_toggle_pin, 2);
    reveal_with_fuel(has_pane, 2);
    reveal_with_fuel(has_split, 2);
    reveal_with_fuel(pane_of, 2);
    reveal_with_fuel(distinct_leaves, 2);
    reveal_with_fuel(distinct_splits, 2);
    reveal_with_fuel(wf_tree, 2);
    reveal_with_fuel(count_leaves, 2);
    let t2 = spec_toggle_pin(t, id);
    match t {
        TreeV::Leaf(_) => {},
        TreeV::Split { id: nid, left, right, .. } => {
            lemma_toggle_props(*left, id);
            lemma_toggle_props(*right, id);
            lemma_pane_of_props(*left, id);
            lemma_pane_of_props(*right, id);
            let l2 = spec_toggle_pin(*left, id);
            let r2 = spec_toggle_pin(*right, id);
            assert forall|x: usize| has_pane(t2, x) == has_pane(t, x) by {
                assert(has_pane(t2, x) == (has_pane(l2, x) || has_pane(r2, x)));
                assert(has_pane(t, x) == (has_pane(*left, x) || has_pane(*right, x)));
            }
            assert forall|x: usize| has_split(t2, x) == has_split(t, x) by {
                assert(has_split(t2, x) == (nid == x || has_split(l2, x) || has_split(r2, x)));
            }
            assert forall|x: usize| x != id implies pane_of(t2, x) == pane_of(t, x) by {
                assert(pane_of(t2, x) == (match pane_of(l2, x) {
                    Some(p) => Some(p),
                    None => pane_of(r2, x),
                }));
            }
            assert(pane_of(t2, id) == (match pane_of(l2, id) {
                Some(p) => Some(p),
                None => pane_of(r2, id),
            }));
            assert(distinct_leaves(t2));
            assert(distinct_splits(t2));
            assert(wf_tree(t2));
        },
    }
}

/// What swapping two panes does to the id sets of a subtree: `a` and `b`
/// trade places, everything else stays.
pub proof fn lemma_swap_props(t: TreeV, a: usize, b: usize, pa: PaneV, pb: PaneV)
    requires
        a != b,
        pa.id == a,
        pb.id == b,
        pa.core.inv(),
        pb.core.inv(),
        distinct_leaves(t),
        distinct_splits(t),
        wf_tree(t),
    ensures
        ({
            let t2 = spec_swap_inner(t, a, b, pa, pb);
            &&& forall|x: usize|
                has_pane(t2, x) <==> if x == a {
                    has_pane(t, b)
                } else if x == b {
                    has_pane(t, a)
                } else {
                    has_pane(t, x)
                }
            &&& forall|x: usize| has_split(t2, x) == has_split(t, x)
            &&& distinct_leaves(t2)
            &&& distinct_splits(t2)
            &&& wf_tree(t2)
            &&& count_leaves(t2) == count_leaves(t)
        }),
    decreases t,
{
    reveal_with_fuel(spec_swap_inner, 2);
    reveal_with_fuel(has_pane, 2);
    reveal_with_fuel(has_split, 2);
    reveal_with_fuel(distinct_leaves, 2);
    reveal_with_fuel(distinct_splits, 2);
    reveal_with_fuel(wf_tree, 2);
    reveal_with_fuel(count_leaves, 2);
    let t2 = spec_swap_inner(t, a, b, pa, pb);
    match t {
        TreeV::Leaf(_) => {},
        TreeV::Split { id, left, right, .. } => {
            lemma_swap_props(*left, a, b, pa, pb);
            lemma_swap_props(*right, a, b, pa, pb);
            let l2 = spec_swap_inner(*left, a, b, pa, pb);
            let r2 = spec_swap_inner(*right, a, b, pa, pb);
            assert forall|x: usize|
                has_pane(t2, x) <==> if x == a {
                    has_pane(t, b)
                } else if x == b {
                    has_pane(t, a)
                } else {
                    has_pane(t, x)
                } by {
                assert(has_pane(t2, x) == (has_pane(l2, x) || has_pane(r2, x)));
                assert(has_pane(t, x) == (has_pane(*left, x) || has_pane(*right, x)));
                assert(has_pane(t, a) == (has_pane(*left, a) || has_pane(*right, a)));
                assert(has_pane(t, b) == (has_pane(*left, b) || has_pane(*right, b)));
            }
            assert forall|x: usize| has_split(t2, x) == has_split(t, x) by {
                assert(has_split(t2, x) == (id == x || has_split(l2, x) || has_split(r2, x)));
            }
            assert forall|x: usize| !(has_pane(l2, x) && has_pane(r2, x)) by {
                assert(!(has_pane(*left, x) && has_pane(*right, x)));
                assert(!(has_pane(*left, a) && has_pane(*right, a)));
                assert(!(has_pane(*left, b) && has_pane(*right, b)));
            }
            assert(distinct_leaves(t2));
            assert(distinct_splits(t2));
            assert(wf_tree(t2));
        },
    }
}

/// Splitting a pane and then closing the pane the split created restores
/// the original tree exactly, and hands focus back to the pane that was
/// split.
pub proof fn lemma_split_close_round_trip(
    t: TreeV,
    axis: Axis,
    target: usize,
    fresh: PaneV,
    sid: usize,
)
    requires
        distinct_leaves(t),
        has_pane(t, target),
        !has_pane(t, fresh.id),
    ensures
        spec_split(t, axis, target, fresh, sid) is Some,
        spec_close(spec_split(t, axis, target, fresh, sid).unwrap(), fresh.id) == Some(
            (t, target),
        ),
    decreases t,
{
    lemma_split_some_iff(t, axis, target, fresh, sid);
    reveal_with_fuel(spec_close, 2);
    reveal_with_fuel(has_pane, 3);
    reveal_with_fuel(first_leaf, 2);
    match t {
        TreeV::Leaf(_) => {},
        TreeV::Split { left, right, .. } => {
            lemma_split_some_iff(*left, axis, target, fresh, sid);
            lemma_split_some_iff(*right, axis, target, fresh, sid);
            if has_pane(*left, target) {
                lemma_split_close_round_trip(*left, axis, target, fresh, sid);
                lemma_split_some_iff(*left, axis, target, fresh, sid);
            } else {
                lemma_split_close_round_trip(*right, axis, target, fresh, sid);
                lemma_close_none(*left, fresh.id);
            }
        },
    }
}

/// A pane that is not in the tree cannot be closed.
pub proof fn lemma_close_none(t: TreeV, target: usize)
    requires
        !has_pane(t, target),
    ensures
        spec_close(t, target) is None,
    decreases t,
{
    lemma_close_some_iff(t, target);
}

// ---------------------------------------------------------------------
// Executable tree operations.  Each consumes the tree and hands back the
// transformed one, exactly as the matching spec function describes.
// ---------------------------------------------------------------------

/// Whether the tree is exactly the leaf `target`.
fn is_leaf_with(t: &PaneTree, target: usize) -> (r: bool)
    ensures
        r == (t@ matches TreeV::Leaf(p) && p.id == target),
{
    match t {
        PaneTree::Leaf(p) => p.id == target,
        PaneTree::Split { .. } => false,
    }
}

/// The id of the leftmost pane.
fn first_leaf_of(t: &PaneTree) -> (r: usize)
    ensures
        r == first_leaf(t@),
    decreases *t,
{
    match t {
        PaneTree::Leaf(p) => p.id,
        PaneTree::Split { left, .. } => first_leaf_of(left),
    }
}

/// A copy of the pane `id`, if some leaf carries it.
pub fn find_pane(t: &PaneTree, id: usize) -> (r: Option<Pane>)
    ensures
        match pane_of(t@, id) {
            Some(p) => r matches Some(rp) && rp@ == p,
            None => r is None,
        },
    decreases *t,
{
    match t {
        PaneTree::Leaf(p) => if p.id == id {
            Some(p.duplicate())
        } else {
            None
        },
        PaneTree::Split { left, right, .. } => {
            match find_pane(left, id) {
                Some(p) => Some(p),
                None => find_pane(right, id),
            }
        },
    }
}

/// Split the pane `target`: its leaf becomes a split carrying the old pane
/// and `fresh`.  When no leaf has `target`, the tree is unchanged and
/// `fresh` is handed back.
pub fn split_tree(t: PaneTree, axis: Axis, target: usize, fresh: Pane, sid: usize) -> (res: (
    PaneTree,
    Option<Pane>,
))
    ensures
        match spec_split(t@, axis, target, fresh@, sid) {
            Some(t2) => res.0@ == t2 && res.1 is None,
            None => res.0@ == t@ && (res.1 matches Some(f) && f@ == fresh@),
        },
    decreases t,
{
    proof {
        reveal_with_fuel(tree_view, 3);
    }
    match t {
        PaneTree::Leaf(p) => {
            if p.id == target {
                (
                    PaneTree::Split {
                        id: sid,
                        axis,
                        ratio: RATIO_HALF,
                        left: Box::new(PaneTree::Leaf(p)),
                        right: Box::new(PaneTree::Leaf(fresh)),
                    },
                    None,
                )
            } else {
                (PaneTree::Leaf(p), Some(fresh))
            }
        },
        PaneTree::Split { id, axis: ax, ratio, left, right } => {
            let (l2, back) = split_tree(*left, axis, target, fresh, sid);
            match back {
                None => (
                    PaneTree::Split { id, axis: ax, ratio, left: Box::new(l2), right },
                    None,
                ),
                Some(fresh2) => {
                    let (r2, back2) = split_tree(*right, axis, target, fresh2, sid);
                    (
                        PaneTree::Split {
                            id,
                            axis: ax,
                            ratio,
                            left: Box::new(l2),
                            right: Box::new(r2),
                        },
                        back2,
                    )
                },
            }
        },
    }
}

/// Close the pane `target`: its sibling subtree replaces the parent split,
/// and the sibling's first leaf is handed back to take focus.  On a single
/// leaf, or a missing id, nothing changes.
pub fn close_tree(t: PaneTree, target: usize) -> (res: (PaneTree, Option<usize>))
    ensures
        match spec_close(t@, target) {
            Some((t2, f)) => res.0@ == t2 && res.1 == Some(f),
            None => res.0@ == t@ && res.1 is None,
        },
    decreases t,
{
    match t {
        PaneTree::Leaf(p) => (PaneTree::Leaf(p), None),
        PaneTree::Split { id, axis, ratio, left, right } => {
            if is_leaf_with(&left, target) {
                let f = first_leaf_of(&right);
                (*right, Some(f))
            } else if is_leaf_with(&right, target) {
                let f = first_leaf_of(&left);
                (*left, Some(f))
            } else {
                let (l2, fo) = close_tree(*left, target);
                match fo {
                    Some(f) => (
                        PaneTree::Split { id, axis, ratio, left: Box::new(l2), right },
                        Some(f),
                    ),
                    None => {
                        let (r2, fo2) = close_tree(*right, target);
                        (
                            PaneTree::Split {
                                id,
                                axis,
                                ratio,
                                left: Box::new(l2),
                                right: Box::new(r2),
                            },
                            fo2,
                        )
                    },
                }
            }
        },
    }
}

/// Force a ratio into the open unit interval.
pub fn clamp_ratio_exec(r: u32) -> (c: u32)
    ensures
        c == clamp_ratio(r),
        0 < c < RATIO_UNIT,
{
    if r < 1 {
        1
    } else if r > RATIO_UNIT - 1 {
        RATIO_UNIT - 1
    } else {
        r
    }
}

/// Set the ratio of the split `sid`, clamped into the open unit interval.
pub fn resize_tree(t: PaneTree, sid: usize, ratio: u32) -> (r: PaneTree)
    ensures
        r@ == spec_resize(t@, sid, ratio),
    decreases t,
{
    match t {
        PaneTree::Leaf(p) => PaneTree::Leaf(p),
        PaneTree::Split { id, axis, ratio: r0, left, right } => {
            if id == sid {
                PaneTree::Split { id, axis, ratio: clamp_ratio_exec(ratio), left, right }
            } else {
                PaneTree::Split {
                    id,
                    axis,
                    ratio: r0,
                    left: Box::new(resize_tree(*left, sid, ratio)),
                    right: Box::new(resize_tree(*right, sid, ratio)),
                }
            }
        },
    }
}

/// Flip the pinned flag of pane `id`.
pub fn toggle_pin_tree(t: PaneTree, id: usize) -> (r: PaneTree)
    ensures
        r@ == spec_toggle_pin(t@, id),
    decreases t,
{
    match t {
        PaneTree::Leaf(p) => {
            if p.id == id {
                let pinned = !p.is_pinned;
                PaneTree::Leaf(Pane { id: p.id, core: p.core, is_pinned: pinned })
            } else {
                PaneTree::Leaf(p)
            }
        },
        PaneTree::Split { id: nid, axis, ratio, left, right } => PaneTree::Split {
            id: nid,
            axis,
            ratio,
            left: Box::new(toggle_pin_tree(*left, id)),
            right: Box::new(toggle_pin_tree(*right, id)),
        },
    }
}

/// A copy of the tree, pane by pane.
pub fn duplicate_tree(t: &PaneTree) -> (r: PaneTree)
    ensures
        r@ == t@,
    decreases *t,
{
    match t {
        PaneTree::Leaf(p) => PaneTree::Leaf(p.duplicate()),
        PaneTree::Split { id, axis, ratio, left, right } => PaneTree::Split {
            id: *id,
            axis: *axis,
            ratio: *ratio,
            left: Box::new(duplicate_tree(left)),
            right: Box::new(duplicate_tree(right)),
        },
    }
}

/// Whether some leaf carries the pane id `id`.
pub fn has_pane_exec(t: &PaneTree, id: usize) -> (r: bool)
    ensures
        r == has_pane(t@, id),
    decreases *t,
{
    match t {
        PaneTree::Leaf(p) => p.id == id,
        PaneTree::Split { left, right, .. } => has_pane_exec(left, id) || has_pane_exec(
            right,
            id,
        ),
    }
}

/// The pinned flag of pane `id`, if some leaf carries it.
pub fn pane_pinned(t: &PaneTree, id: usize) -> (r: Option<bool>)
    ensures
        r == match pane_of(t@, id) {
            Some(p) => Some(p.is_pinned),
            None => None::<bool>,
        },
    decreases *t,
{
    match t {
        PaneTree::Leaf(p) => if p.id == id {
            Some(p.is_pinned)
        } else {
            None
        },
        PaneTree::Split { left, right, .. } => {
            match pane_pinned(left, id) {
                Some(b) => Some(b),
                None => pane_pinned(right, id),
            }
        },
    }
}

/// Exchange the panes of leaves `a` and `b`; `pa` and `pb` must denote the
/// panes those leaves carry.
pub fn swap_tree(t: PaneTree, a: usize, b: usize, pa: &Pane, pb: &Pane) -> (r: PaneTree)
    ensures
        r@ == spec_swap_inner(t@, a, b, pa@, pb@),
    decreases t,
{
    match t {
        PaneTree::Leaf(p) => {
            if p.id == a {
                PaneTree::Leaf(pb.duplicate())
            } else if p.id == b {
                PaneTree::Leaf(pa.duplicate())
            } else {
                PaneTree::Leaf(p)
            }
        },
        PaneTree::Split { id, axis, ratio, left, right } => PaneTree::Split {
            id,
            axis,
            ratio,
            left: Box::new(swap_tree(*left, a, b, pa, pb)),
            right: Box::new(swap_tree(*right, a, b, pa, pb)),
        },
    }
}

} // verus!
