//! Pane layout tree: splits, closing, focus cycling and geometry.
//!
//! Split ratios are fixed-point fractions in basis points (10000 = the whole
//! extent) given to the first child.

use vstd::prelude::*;

verus! {

/// Unique identifier for a leaf pane.
#[derive(Debug, Clone, Copy, PartialEq, Eq, Hash, Structural)]
pub struct PaneId(pub u32);

/// Split axis.
#[derive(Debug, Clone, Copy, PartialEq, Eq, Structural)]
pub enum Orientation {
    /// First child on the left, second on the right.
    Vertical,
    /// First child on top, second below.
    Horizontal,
}

/// Where a new pane goes relative to the pane being split.
#[derive(Debug, Clone, Copy, PartialEq, Eq, Structural)]
pub enum SplitPosition {
    /// The new pane becomes the first child (left or above).
    Before,
    /// The new pane becomes the second child (right or below).
    After,
}

/// Denominator of split ratios.
pub const RATIO_ONE: u16 = 10000;
/// Smallest ratio a split may hold.
pub const RATIO_MIN: u16 = 500;
/// Largest ratio a split may hold.
pub const RATIO_MAX: u16 = 9500;
/// An even split.
pub const RATIO_HALF: u16 = 5000;

/// Pure layout tree.
#[derive(Debug)]
pub enum Node {
    Leaf(PaneId),
    Split {
        orientation: Orientation,
        /// Fraction (in basis points) given to the first child.
        ratio: u16,
        first: Box<Node>,
        second: Box<Node>,
    },
}

/// Resolved geometry for a pane.
#[derive(Debug, Clone, Copy, PartialEq, Eq, Structural)]
pub struct Rect {
    pub x: u16,
    pub y: u16,
    pub width: u16,
    pub height: u16,
}

impl Default for Rect {
    fn default() -> (r: Rect)
        ensures
            r == (Rect { x: 0, y: 0, width: 0, height: 0 }),
    {
        Rect { x: 0, y: 0, width: 0, height: 0 }
    }
}

// ── specification ──────────────────────────────────────────────────────────

/// The leaves of a tree in document order (first subtree before second).
pub open spec fn leaves(n: Node) -> Seq<PaneId>
    decreases n,
{
    match n {
        Node::Leaf(id) => seq![id],
        Node::Split { first, second, .. } => leaves(*first) + leaves(*second),
    }
}

/// Every split ratio lies in `[RATIO_MIN, RATIO_MAX]`.
pub open spec fn ratios_ok(n: Node) -> bool
    decreases n,
{
    match n {
        Node::Leaf(_) => true,
        Node::Split { ratio, first, second, .. } => RATIO_MIN <= ratio <= RATIO_MAX
            && ratios_ok(*first) && ratios_ok(*second),
    }
}

/// Position of `target` among the leaves (the first occurrence).
pub open spec fn leaf_index(n: Node, target: PaneId) -> int
    decreases n,
{
    match n {
        Node::Leaf(_) => 0,
        Node::Split { first, second, .. } => if leaves(*first).contains(target) {
            leaf_index(*first, target)
        } else {
            leaves(*first).len() + leaf_index(*second, target)
        },
    }
}

/// The tree after splitting leaf `target` into `target` and `new_id`.
pub open spec fn split_tree(
    n: Node,
    target: PaneId,
    o: Orientation,
    pos: SplitPosition,
    ratio: u16,
    new_id: PaneId,
) -> Node
    decreases n,
{
    match n {
        Node::Leaf(id) => if id == target {
            match pos {
                SplitPosition::After => Node::Split {
                    orientation: o,
                    ratio,
                    first: Box::new(Node::Leaf(id)),
                    second: Box::new(Node::Leaf(new_id)),
                },
                SplitPosition::Before => Node::Split {
                    orientation: o,
                    ratio,
                    first: Box::new(Node::Leaf(new_id)),
                    second: Box::new(Node::Leaf(id)),
                },
            }
        } else {
            n
        },
        Node::Split { orientation, ratio: r, first, second } => if leaves(*first).contains(target) {
            Node::Split {
                orientation,
                ratio: r,
                first: Box::new(split_tree(*first, target, o, pos, ratio, new_id)),
                second,
            }
        } else {
            Node::Split {
                orientation,
                ratio: r,
                first,
                second: Box::new(split_tree(*second, target, o, pos, ratio, new_id)),
            }
        },
    }
}

/// Whether `n` is the leaf `target`.
pub open spec fn is_leaf_of(n: Node, target: PaneId) -> bool {
    match n {
        Node::Leaf(id) => id == target,
        _ => false,
    }
}

/// The tree after removing leaf `target`: its parent split is replaced by
/// the sibling.
pub open spec fn remove_tree(n: Node, target: PaneId) -> Node
    decreases n,
{
    match n {
        Node::Leaf(_) => n,
        Node::Split { orientation, ratio, first, second } => if is_leaf_of(*first, target) {
            *second
        } else if is_leaf_of(*second, target) {
            *first
        } else if leaves(*first).contains(target) {
            Node::Split { orientation, ratio, first: Box::new(remove_tree(*first, target)), second }
        } else {
            Node::Split { orientation, ratio, first, second: Box::new(remove_tree(*second, target)) }
        },
    }
}

/// Whether a leaf `target` can be removed from `n` (it has a parent split).
pub open spec fn removable(n: Node, target: PaneId) -> bool {
    n is Split && leaves(n).contains(target)
}

/// `s` with a fresh element placed just before or after index `k`.
pub open spec fn insert_beside(s: Seq<PaneId>, k: int, new_id: PaneId, pos: SplitPosition) -> Seq<PaneId> {
    match pos {
        SplitPosition::After => s.take(k + 1) + seq![new_id] + s.skip(k + 1),
        SplitPosition::Before => s.take(k) + seq![new_id] + s.skip(k),
    }
}

/// `s` without its element at index `k`.
pub open spec fn remove_at(s: Seq<PaneId>, k: int) -> Seq<PaneId> {
    s.take(k) + s.skip(k + 1)
}

/// All leaf ids are below `bound`.
pub open spec fn ids_below(s: Seq<PaneId>, bound: u32) -> bool {
    forall|i: int| 0 <= i < s.len() ==> (#[trigger] s[i]).0 < bound
}

// ── lemmas on the tree ─────────────────────────────────────────────────────

proof fn lemma_leaves_nonempty(n: Node)
    ensures
        leaves(n).len() >= 1,
    decreases n,
{
    match n {
        Node::Leaf(_) => {},
        Node::Split { first, second, .. } => {
            lemma_leaves_nonempty(*first);
        },
    }
}

proof fn lemma_leaf_index(n: Node, target: PaneId)
    requires
        leaves(n).contains(target),
    ensures
        0 <= leaf_index(n, target) < leaves(n).len(),
        leaves(n)[leaf_index(n, target)] == target,
        forall|j: int| 0 <= j < leaf_index(n, target) ==> leaves(n)[j] != target,
    decreases n,
{
    match n {
        Node::Leaf(_) => {},
        Node::Split { first, second, .. } => {
            let lf = leaves(*first);
            let ls = leaves(*second);
            if lf.contains(target) {
                lemma_leaf_index(*first, target);
            } else {
                let j = choose|j: int| 0 <= j < leaves(n).len() && leaves(n)[j] == target;
                assert(j >= lf.len()) by {
                    if j < lf.len() {
                        assert(lf[j] == target);
                    }
                }
                assert(ls[j - lf.len()] == target);
                lemma_leaf_index(*second, target);
                assert forall|k: int| 0 <= k < leaf_index(n, target) implies leaves(n)[k] != target by {
                    if k < lf.len() {
                        assert(leaves(n)[k] == lf[k]);
                    }
                }
            }
        },
    }
}

proof fn lemma_split_not_found(n: Node, target: PaneId, o: Orientation, pos: SplitPosition, ratio: u16, new_id: PaneId)
    requires
        !leaves(n).contains(target),
    ensures
        split_tree(n, target, o, pos, ratio, new_id) == n,
    decreases n,
{
    match n {
        Node::Leaf(id) => {
            assert(leaves(n) =~= seq![id]);
            if id == target {
                assert(leaves(n)[0] == target);
            }
        },
        Node::Split { first, second, .. } => {
            assert forall|j: int| 0 <= j < leaves(*second).len() implies leaves(*second)[j] != target by {
                assert(leaves(n)[leaves(*first).len() + j] == leaves(*second)[j]);
            }
            assert forall|j: int| 0 <= j < leaves(*first).len() implies leaves(*first)[j] != target by {
                assert(leaves(n)[j] == leaves(*first)[j]);
            }
            lemma_split_not_found(*second, target, o, pos, ratio, new_id);
        },
    }
}

proof fn lemma_split_leaves(n: Node, target: PaneId, o: Orientation, pos: SplitPosition, ratio: u16, new_id: PaneId)
    requires
        leaves(n).contains(target),
    ensures
        leaves(split_tree(n, target, o, pos, ratio, new_id))
            == insert_beside(leaves(n), leaf_index(n, target), new_id, pos),
        ratios_ok(n) && RATIO_MIN <= ratio <= RATIO_MAX ==> ratios_ok(split_tree(n, target, o, pos, ratio, new_id)),
    decreases n,
{
    lemma_leaf_index(n, target);
    match n {
        Node::Leaf(id) => {
            assert(leaves(n) =~= seq![id]);
            assert(id == target);
            let sp = split_tree(n, target, o, pos, ratio, new_id);
            match pos {
                SplitPosition::After => {
                    let a = Node::Leaf(id);
                    let b = Node::Leaf(new_id);
                    assert(leaves(a) =~= seq![id]);
                    assert(leaves(b) =~= seq![new_id]);
                    assert(sp == Node::Split { orientation: o, ratio, first: Box::new(a), second: Box::new(b) });
                    assert(leaves(sp) =~= seq![id, new_id]);
                    assert(ratios_ok(a) && ratios_ok(b));
                },
                SplitPosition::Before => {
                    let a = Node::Leaf(new_id);
                    let b = Node::Leaf(id);
                    assert(leaves(a) =~= seq![new_id]);
                    assert(leaves(b) =~= seq![id]);
                    assert(sp == Node::Split { orientation: o, ratio, first: Box::new(a), second: Box::new(b) });
                    assert(leaves(sp) =~= seq![new_id, id]);
                    assert(ratios_ok(a) && ratios_ok(b));
                },
            }
            assert(insert_beside(leaves(n), 0, new_id, pos) =~= leaves(split_tree(n, target, o, pos, ratio, new_id)));
        },
        Node::Split { first, second, .. } => {
            let lf = leaves(*first);
            let ls = leaves(*second);
            if lf.contains(target) {
                lemma_split_leaves(*first, target, o, pos, ratio, new_id);
                lemma_leaf_index(*first, target);
                let k = leaf_index(*first, target);
                assert(insert_beside(lf, k, new_id, pos) + ls =~= insert_beside(lf + ls, k, new_id, pos));
            } else {
                let j = choose|j: int| 0 <= j < leaves(n).len() && leaves(n)[j] == target;
                assert(j >= lf.len()) by {
                    if j < lf.len() {
                        assert(lf[j] == target);
                    }
                }
                assert(ls[j - lf.len()] == target);
                lemma_split_leaves(*second, target, o, pos, ratio, new_id);
                let k = leaf_index(*second, target);
                assert(lf + insert_beside(ls, k, new_id, pos) =~= insert_beside(lf + ls, lf.len() + k, new_id, pos));
            }
        },
    }
}

/// Somewhere in `n` a split of orientation `o` has the leaf `a` as its
/// first child (left or top) and the leaf `b` as its second.
pub open spec fn has_pair(n: Node, o: Orientation, a: PaneId, b: PaneId) -> bool
    decreases n,
{
    match n {
        Node::Leaf(_) => false,
        Node::Split { orientation, first, second, .. } =>
            (orientation == o && *first == Node::Leaf(a) && *second == Node::Leaf(b))
            || has_pair(*first, o, a, b) || has_pair(*second, o, a, b),
    }
}

/// Splitting pane `target` puts the new pane right beside it, under a split
/// of the given orientation: as the first child (left of it, or above it)
/// when placed before, as the second child when placed after.
pub proof fn law_split_places_new_pane(n: Node, target: PaneId, o: Orientation, pos: SplitPosition, ratio: u16,
    new_id: PaneId)
    requires
        leaves(n).contains(target),
    ensures
        pos == SplitPosition::Before ==> has_pair(split_tree(n, target, o, pos, ratio, new_id), o, new_id, target),
        pos == SplitPosition::After ==> has_pair(split_tree(n, target, o, pos, ratio, new_id), o, target, new_id),
    decreases n,
{
    match n {
        Node::Leaf(id) => {},
        Node::Split { first, second, .. } => {
            if leaves(*first).contains(target) {
                law_split_places_new_pane(*first, target, o, pos, ratio, new_id);
            } else {
                let lf = leaves(*first);
                let j = choose|j: int| 0 <= j < leaves(n).len() && leaves(n)[j] == target;
                assert(j >= lf.len()) by {
                    if j < lf.len() {
                        assert(lf[j] == target);
                    }
                }
                assert(leaves(*second)[j - lf.len()] == target);
                law_split_places_new_pane(*second, target, o, pos, ratio, new_id);
            }
        },
    }
}

#[verifier::rlimit(40)]
proof fn lemma_remove_leaves(n: Node, target: PaneId)
    requires
        removable(n, target),
        leaves(n).no_duplicates(),
    ensures
        leaves(remove_tree(n, target)) == remove_at(leaves(n), leaf_index(n, target)),
        ratios_ok(n) ==> ratios_ok(remove_tree(n, target)),
    decreases n,
{
    lemma_leaf_index(n, target);
    match n {
        Node::Leaf(_) => {
            assert(false);
        },
        Node::Split { first, second, .. } => {
            let lf = leaves(*first);
            let ls = leaves(*second);
            let l = leaves(n);
            assert(l =~= lf + ls);
            assert(lf.no_duplicates()) by {
                assert forall|i: int, j: int| 0 <= i < lf.len() && 0 <= j < lf.len() && i != j implies lf[i] != lf[j] by {
                    assert(l[i] == lf[i] && l[j] == lf[j]);
                }
            }
            assert(ls.no_duplicates()) by {
                assert forall|i: int, j: int| 0 <= i < ls.len() && 0 <= j < ls.len() && i != j implies ls[i] != ls[j] by {
                    assert(l[lf.len() + i] == ls[i] && l[lf.len() + j] == ls[j]);
                }
            }
            if is_leaf_of(*first, target) {
                assert(lf =~= seq![target]);
                assert(lf.contains(target)) by { assert(lf[0] == target); }
                assert(*first is Leaf);
                assert(leaf_index(*first, target) == 0);
                assert(leaf_index(n, target) == 0);
                assert(remove_tree(n, target) == *second);
                assert(remove_at(l, 0) =~= ls);
            } else if is_leaf_of(*second, target) {
                assert(ls =~= seq![target]);
                assert(!lf.contains(target)) by {
                    if lf.contains(target) {
                        let i = choose|i: int| 0 <= i < lf.len() && lf[i] == target;
                        assert(l[i] == target && l[lf.len() as int] == target);
                    }
                }
                assert(*second is Leaf);
                assert(leaf_index(*second, target) == 0);
                assert(leaf_index(n, target) == lf.len());
                assert(remove_tree(n, target) == *first);
                assert(remove_at(l, lf.len() as int) =~= lf);
            } else if lf.contains(target) {
                lemma_leaf_index(*first, target);
                assert(*first is Split);
                lemma_remove_leaves(*first, target);
                let k = leaf_index(*first, target);
                assert(remove_at(lf, k) + ls =~= remove_at(l, k));
                assert(leaves(remove_tree(n, target)) == leaves(remove_tree(*first, target)) + ls);
            } else {
                let j = choose|j: int| 0 <= j < l.len() && l[j] == target;
                assert(j >= lf.len()) by {
                    if j < lf.len() {
                        assert(lf[j] == target);
                    }
                }
                assert(ls[j - lf.len()] == target);
                assert(*second is Split);
                lemma_remove_leaves(*second, target);
                let k = leaf_index(*second, target);
                assert(lf + remove_at(ls, k) =~= remove_at(l, lf.len() + k));
                assert(leaves(remove_tree(n, target)) == lf + leaves(remove_tree(*second, target)));
            }
        },
    }
}

// ── executable tree operations ─────────────────────────────────────────────

fn collect_leaves(node: &Node) -> (r: Vec<PaneId>)
    ensures
        r@ == leaves(*node),
    decreases node,
{
    match node {
        Node::Leaf(id) => {
            let mut v = Vec::new();
            v.push(*id);
            assert(v@ =~= seq![*id]);
            v
        },
        Node::Split { first, second, .. } => {
            let mut v = collect_leaves(first);
            let mut w = collect_leaves(second);
            v.append(&mut w);
            v
        },
    }
}

fn contains_leaf(node: &Node, target: PaneId) -> (r: bool)
    ensures
        r == leaves(*node).contains(target),
    decreases node,
{
    match node {
        Node::Leaf(id) => {
            assert(leaves(*node)[0] == *id);
            *id == target
        },
        Node::Split { first, second, .. } => {
            let a = contains_leaf(first, target);
            let b = contains_leaf(second, target);
            let ghost lf = leaves(**first);
            let ghost ls = leaves(**second);
            proof {
                if a {
                    let i = choose|i: int| 0 <= i < lf.len() && lf[i] == target;
                    assert(leaves(*node)[i] == target);
                }
                if b {
                    let i = choose|i: int| 0 <= i < ls.len() && ls[i] == target;
                    assert(leaves(*node)[lf.len() + i] == target);
                }
                if leaves(*node).contains(target) {
                    let i = choose|i: int| 0 <= i < leaves(*node).len() && leaves(*node)[i] == target;
                    if i < lf.len() {
                        assert(lf[i] == target);
                    } else {
                        assert(ls[i - lf.len()] == target);
                    }
                }
            }
            a || b
        },
    }
}

fn split_owned(
    node: Node,
    target: PaneId,
    o: Orientation,
    pos: SplitPosition,
    ratio: u16,
    new_id: PaneId,
) -> (r: (Node, bool))
    ensures
        r.1 == leaves(node).contains(target),
        r.0 == split_tree(node, target, o, pos, ratio, new_id),
    decreases node,
{
    match node {
        Node::Leaf(id) => {
            assert(leaves(node)[0] == id);
            if id == target {
                match pos {
                    SplitPosition::After => (Node::Split {
                        orientation: o,
                        ratio,
                        first: Box::new(Node::Leaf(id)),
                        second: Box::new(Node::Leaf(new_id)),
                    }, true),
                    SplitPosition::Before => (Node::Split {
                        orientation: o,
                        ratio,
                        first: Box::new(Node::Leaf(new_id)),
                        second: Box::new(Node::Leaf(id)),
                    }, true),
                }
            } else {
                (Node::Leaf(id), false)
            }
        },
        Node::Split { orientation, ratio: r, first, second } => {
            let in_first = contains_leaf(&first, target);
            if in_first {
                let (f2, _) = split_owned(*first, target, o, pos, ratio, new_id);
                proof {
                    let i = choose|i: int| 0 <= i < leaves(*first).len() && leaves(*first)[i] == target;
                    assert(leaves(node)[i] == target);
                }
                (Node::Split { orientation, ratio: r, first: Box::new(f2), second }, true)
            } else {
                let ghost lf = leaves(*first);
                let ghost ls = leaves(*second);
                let (s2, found) = split_owned(*second, target, o, pos, ratio, new_id);
                proof {
                    if found {
                        let i = choose|i: int| 0 <= i < ls.len() && ls[i] == target;
                        assert(leaves(node)[lf.len() + i] == target);
                    }
                    if leaves(node).contains(target) {
                        let i = choose|i: int| 0 <= i < leaves(node).len() && leaves(node)[i] == target;
                        if i < lf.len() {
                            assert(lf[i] == target);
                        } else {
                            assert(ls[i - lf.len()] == target);
                        }
                    }
                }
                (Node::Split { orientation, ratio: r, first, second: Box::new(s2) }, found)
            }
        },
    }
}

fn leaf_is(node: &Node, target: PaneId) -> (r: bool)
    ensures
        r == is_leaf_of(*node, target),
{
    match node {
        Node::Leaf(id) => *id == target,
        _ => false,
    }
}

fn remove_owned(node: Node, target: PaneId) -> (r: (Node, bool))
    ensures
        r.1 == removable(node, target),
        r.0 == remove_tree(node, target),
    decreases node,
{
    match node {
        Node::Leaf(id) => (Node::Leaf(id), false),
        Node::Split { orientation, ratio, first, second } => {
            let ghost lf = leaves(*first);
            let ghost ls = leaves(*second);
            proof {
                lemma_leaves_nonempty(*first);
                lemma_leaves_nonempty(*second);
            }
            if leaf_is(&first, target) {
                proof {
                    assert(lf[0] == target);
                    assert(leaves(node)[0] == target);
                }
                (*second, true)
            } else if leaf_is(&second, target) {
                proof {
                    assert(ls[0] == target);
                    assert(leaves(node)[lf.len() as int] == target);
                }
                (*first, true)
            } else if contains_leaf(&first, target) {
                let (f2, _) = remove_owned(*first, target);
                proof {
                    let i = choose|i: int| 0 <= i < lf.len() && lf[i] == target;
                    assert(leaves(node)[i] == target);
                }
                (Node::Split { orientation, ratio, first: Box::new(f2), second }, true)
            } else {
                let (s2, found) = remove_owned(*second, target);
                proof {
                    if leaves(*second).contains(target) {
                        let i = choose|i: int| 0 <= i < ls.len() && ls[i] == target;
                        assert(leaves(node)[lf.len() + i] == target);
                    }
                    if leaves(node).contains(target) {
                        let i = choose|i: int| 0 <= i < leaves(node).len() && leaves(node)[i] == target;
                        if i < lf.len() {
                            assert(lf[i] == target);
                        } else {
                            assert(ls[i - lf.len()] == target);
                        }
                    }
                }
                (Node::Split { orientation, ratio, first, second: Box::new(s2) }, found)
            }
        },
    }
}


// ── geometry ───────────────────────────────────────────────────────────────

/// `v`, or one when `v` is zero.
pub open spec fn at_least_one(v: int) -> int {
    if v < 1 { 1 } else { v }
}

/// The whole terminal area.
pub open spec fn full_rect(width: u16, height: u16) -> Rect {
    Rect { x: 0, y: 0, width, height }
}

/// A rectangle whose extents (taken as at least one) stay within `u16`.
pub open spec fn fits(r: Rect) -> bool {
    r.x + at_least_one(r.width as int) <= u16::MAX && r.y + at_least_one(r.height as int) <= u16::MAX
}

/// Length given to the first child along the split axis.
pub open spec fn first_len(len: u16, ratio: u16) -> int {
    at_least_one((len as int * ratio as int) / (RATIO_ONE as int))
}

/// Division of the segment `[start, start + len)` by a split:
/// the first child's length, the second child's start and length.
/// A one-cell divider is left between them when there is room for it.
pub open spec fn split_axis(start: u16, len: u16, ratio: u16) -> (u16, u16, u16) {
    let fl = first_len(len, ratio);
    let divider: int = if len > fl + 1 { 1 } else { 0 };
    let s0 = start + fl + divider;
    let lim = start + if len >= 1 { len - 1 } else { 0 };
    let s = if s0 < lim { s0 } else { lim };
    let sl = at_least_one(if start + len >= s { start + len - s } else { 0 });
    (fl as u16, s as u16, sl as u16)
}

/// The two child rectangles of a split.
pub open spec fn split_rect_spec(r: Rect, o: Orientation, ratio: u16) -> (Rect, Rect) {
    match o {
        Orientation::Vertical => {
            let (fl, s, sl) = split_axis(r.x, r.width, ratio);
            (
                Rect { x: r.x, y: r.y, width: fl, height: r.height },
                Rect { x: s, y: r.y, width: sl, height: r.height },
            )
        },
        Orientation::Horizontal => {
            let (fl, s, sl) = split_axis(r.y, r.height, ratio);
            (
                Rect { x: r.x, y: r.y, width: r.width, height: fl },
                Rect { x: r.x, y: s, width: r.width, height: sl },
            )
        },
    }
}

/// The rectangle of every leaf, in document order.
pub open spec fn rects_of(n: Node, r: Rect) -> Seq<(PaneId, Rect)>
    decreases n,
{
    match n {
        Node::Leaf(id) => seq![(id, r)],
        Node::Split { orientation, ratio, first, second } => {
            let (r1, r2) = split_rect_spec(r, orientation, ratio);
            rects_of(*first, r1) + rects_of(*second, r2)
        },
    }
}

/// `a` lies inside `r`.
pub open spec fn inside(a: Rect, r: Rect) -> bool {
    r.x <= a.x && a.x + a.width <= r.x + r.width && r.y <= a.y && a.y + a.height <= r.y + r.height
}

/// `a` and `b` share no cell.
pub open spec fn disjoint(a: Rect, b: Rect) -> bool {
    a.x + a.width <= b.x || b.x + b.width <= a.x || a.y + a.height <= b.y || b.y + b.height <= a.y
}

/// Every split of `n`, laid out in `r`, has at least two cells along its axis.
pub open spec fn has_room(n: Node, r: Rect) -> bool
    decreases n,
{
    match n {
        Node::Leaf(_) => true,
        Node::Split { orientation, ratio, first, second } => {
            let (r1, r2) = split_rect_spec(r, orientation, ratio);
            (match orientation {
                Orientation::Vertical => r.width >= 2,
                Orientation::Horizontal => r.height >= 2,
            }) && has_room(*first, r1) && has_room(*second, r2)
        },
    }
}

proof fn lemma_first_len_bound(len: u16, ratio: u16)
    requires
        ratio <= RATIO_ONE,
    ensures
        (len as int * ratio as int) / (RATIO_ONE as int) <= len,
        ratio <= RATIO_MAX && len >= 2 ==> first_len(len, ratio) <= len - 1,
{
    assert((len as int * ratio as int) / 10000 <= len) by (nonlinear_arith)
        requires ratio <= 10000;
    if ratio <= RATIO_MAX && len >= 2 {
        assert((len as int * ratio as int) / 10000 <= len - 1) by (nonlinear_arith)
            requires ratio <= 9500, len >= 2;
    }
}

/// A split of a segment of length at least two leaves both children
/// non-empty, in order, without overlap, separated by at most one divider
/// cell, and exactly covering the segment: the lengths and the divider add
/// up to the whole.
pub proof fn law_split_axis_partition(start: u16, len: u16, ratio: u16)
    requires
        len >= 2,
        ratio <= RATIO_MAX,
        start + len <= u16::MAX,
    ensures
        ({
            let (fl, s, sl) = split_axis(start, len, ratio);
            &&& fl >= 1 && sl >= 1
            &&& start + fl <= s <= start + fl + 1
            &&& s + sl == start + len
            &&& (s == start + fl + 1 <==> len > fl + 1)
        }),
{
    lemma_first_len_bound(len, ratio);
}

proof fn lemma_split_rect_children(r: Rect, o: Orientation, ratio: u16)
    requires
        fits(r),
        ratio <= RATIO_ONE,
    ensures
        fits(split_rect_spec(r, o, ratio).0),
        fits(split_rect_spec(r, o, ratio).1),
        r.width >= 1 && r.height >= 1 ==> inside(split_rect_spec(r, o, ratio).0, r)
            && inside(split_rect_spec(r, o, ratio).1, r),
        r.width >= 1 && r.height >= 1 ==> split_rect_spec(r, o, ratio).0.width >= 1
            && split_rect_spec(r, o, ratio).0.height >= 1
            && split_rect_spec(r, o, ratio).1.width >= 1
            && split_rect_spec(r, o, ratio).1.height >= 1,
{
    lemma_first_len_bound(r.width, ratio);
    lemma_first_len_bound(r.height, ratio);
}

proof fn lemma_split_rect_disjoint(r: Rect, o: Orientation, ratio: u16)
    requires
        fits(r),
        ratio <= RATIO_MAX,
        match o {
            Orientation::Vertical => r.width >= 2,
            Orientation::Horizontal => r.height >= 2,
        },
    ensures
        disjoint(split_rect_spec(r, o, ratio).0, split_rect_spec(r, o, ratio).1),
{
    lemma_first_len_bound(r.width, ratio);
    lemma_first_len_bound(r.height, ratio);
}

/// The rectangles of a layout name its leaves, in document order.
pub proof fn law_rects_name_leaves(n: Node, r: Rect)
    ensures
        rects_of(n, r).len() == leaves(n).len(),
        forall|i: int| 0 <= i < leaves(n).len() ==> (#[trigger] rects_of(n, r)[i]).0 == leaves(n)[i],
    decreases n,
{
    match n {
        Node::Leaf(_) => {},
        Node::Split { orientation, ratio, first, second } => {
            let (r1, r2) = split_rect_spec(r, orientation, ratio);
            law_rects_name_leaves(*first, r1);
            law_rects_name_leaves(*second, r2);
            let a = rects_of(*first, r1);
            let b = rects_of(*second, r2);
            assert forall|i: int| 0 <= i < leaves(n).len() implies (#[trigger] rects_of(n, r)[i]).0 == leaves(n)[i] by {
                if i < a.len() {
                    assert(rects_of(n, r)[i] == a[i]);
                } else {
                    assert(rects_of(n, r)[i] == b[i - a.len()]);
                }
            }
        },
    }
}

/// Every pane rectangle of a non-empty area lies inside that area and has
/// at least one cell in each direction.
pub proof fn law_rects_inside(n: Node, r: Rect)
    requires
        ratios_ok(n),
        fits(r),
        r.width >= 1,
        r.height >= 1,
    ensures
        forall|i: int| 0 <= i < rects_of(n, r).len() ==> inside(#[trigger] rects_of(n, r)[i].1, r),
        forall|i: int| 0 <= i < rects_of(n, r).len() ==> (#[trigger] rects_of(n, r)[i]).1.width >= 1
            && rects_of(n, r)[i].1.height >= 1,
        forall|i: int| 0 <= i < rects_of(n, r).len() ==> fits(#[trigger] rects_of(n, r)[i].1),
    decreases n,
{
    match n {
        Node::Leaf(_) => {},
        Node::Split { orientation, ratio, first, second } => {
            let (r1, r2) = split_rect_spec(r, orientation, ratio);
            lemma_split_rect_children(r, orientation, ratio);
            law_rects_inside(*first, r1);
            law_rects_inside(*second, r2);
            let a = rects_of(*first, r1);
            let b = rects_of(*second, r2);
            assert forall|i: int| 0 <= i < rects_of(n, r).len() implies inside(#[trigger] rects_of(n, r)[i].1, r)
                && rects_of(n, r)[i].1.width >= 1 && rects_of(n, r)[i].1.height >= 1
                && fits(rects_of(n, r)[i].1) by {
                if i < a.len() {
                    assert(rects_of(n, r)[i] == a[i]);
                    assert(inside(a[i].1, r1));
                } else {
                    assert(rects_of(n, r)[i] == b[i - a.len()]);
                    assert(inside(b[i - a.len()].1, r2));
                }
            }
        },
    }
}

/// When every split has room for both children, no two pane rectangles
/// overlap.
pub proof fn law_rects_disjoint(n: Node, r: Rect)
    requires
        ratios_ok(n),
        fits(r),
        r.width >= 1,
        r.height >= 1,
        has_room(n, r),
    ensures
        forall|i: int, j: int| 0 <= i < j < rects_of(n, r).len() ==>
            disjoint(#[trigger] rects_of(n, r)[i].1, #[trigger] rects_of(n, r)[j].1),
    decreases n,
{
    match n {
        Node::Leaf(_) => {},
        Node::Split { orientation, ratio, first, second } => {
            let (r1, r2) = split_rect_spec(r, orientation, ratio);
            lemma_split_rect_children(r, orientation, ratio);
            lemma_split_rect_disjoint(r, orientation, ratio);
            law_rects_inside(*first, r1);
            law_rects_inside(*second, r2);
            law_rects_disjoint(*first, r1);
            law_rects_disjoint(*second, r2);
            let a = rects_of(*first, r1);
            let b = rects_of(*second, r2);
            assert forall|i: int, j: int| 0 <= i < j < rects_of(n, r).len() implies
                disjoint(#[trigger] rects_of(n, r)[i].1, #[trigger] rects_of(n, r)[j].1) by {
                if j < a.len() {
                    assert(rects_of(n, r)[i] == a[i] && rects_of(n, r)[j] == a[j]);
                } else if i >= a.len() {
                    assert(rects_of(n, r)[i] == b[i - a.len()] && rects_of(n, r)[j] == b[j - a.len()]);
                } else {
                    assert(rects_of(n, r)[i] == a[i] && rects_of(n, r)[j] == b[j - a.len()]);
                    assert(inside(a[i].1, r1));
                    assert(inside(b[j - a.len()].1, r2));
                }
            }
        },
    }
}

fn split_axis_exec(start: u16, len: u16, ratio: u16) -> (r: (u16, u16, u16))
    requires
        start + at_least_one(len as int) <= u16::MAX,
        ratio <= RATIO_ONE,
    ensures
        r == split_axis(start, len, ratio),
{
    proof { lemma_first_len_bound(len, ratio); }
    let raw: u32 = (len as u32) * (ratio as u32) / (RATIO_ONE as u32);
    let fl: u16 = if raw < 1 { 1 } else { raw as u16 };
    let divider: u16 = if len > fl && len - fl > 1 { 1 } else { 0 };
    let s0: u16 = start + fl + divider;
    let lim: u16 = start + if len >= 1 { len - 1 } else { 0 };
    let s: u16 = if s0 < lim { s0 } else { lim };
    let sl0: u16 = if start + len >= s { start + len - s } else { 0 };
    let sl: u16 = if sl0 < 1 { 1 } else { sl0 };
    (fl, s, sl)
}

/// The two child rectangles of a split of `rect`.
pub fn split_rect(rect: Rect, orientation: Orientation, ratio: u16) -> (r: (Rect, Rect))
    requires
        fits(rect),
        ratio <= RATIO_ONE,
    ensures
        r == split_rect_spec(rect, orientation, ratio),
{
    match orientation {
        Orientation::Vertical => {
            let (fl, s, sl) = split_axis_exec(rect.x, rect.width, ratio);
            (
                Rect { x: rect.x, y: rect.y, width: fl, height: rect.height },
                Rect { x: s, y: rect.y, width: sl, height: rect.height },
            )
        },
        Orientation::Horizontal => {
            let (fl, s, sl) = split_axis_exec(rect.y, rect.height, ratio);
            (
                Rect { x: rect.x, y: rect.y, width: rect.width, height: fl },
                Rect { x: rect.x, y: s, width: rect.width, height: sl },
            )
        },
    }
}

fn compute(node: &Node, rect: Rect, out: &mut Vec<(PaneId, Rect)>)
    requires
        fits(rect),
        ratios_ok(*node),
    ensures
        final(out)@ == old(out)@ + rects_of(*node, rect),
    decreases node,
{
    match node {
        Node::Leaf(id) => {
            out.push((*id, rect));
            assert(rects_of(*node, rect) =~= seq![(*id, rect)]);
        },
        Node::Split { orientation, ratio, first, second } => {
            proof { lemma_split_rect_children(rect, *orientation, *ratio); }
            let (r1, r2) = split_rect(rect, *orientation, *ratio);
            compute(first, r1, out);
            compute(second, r2, out);
            assert(out@ =~= old(out)@ + rects_of(*node, rect));
        },
    }
}


// ── the layout state ───────────────────────────────────────────────────────

/// The full layout state: the tree, the focused pane and the next fresh id.
pub struct Layout {
    pub root: Node,
    pub active: PaneId,
    /// The id the next split allocates; every pane id is below it.
    pub next_id: u32,
}

proof fn lemma_no_dup_insert(s: Seq<PaneId>, k: int, new_id: PaneId, pos: SplitPosition, bound: u32)
    requires
        s.no_duplicates(),
        ids_below(s, bound),
        new_id.0 == bound,
        0 <= k < s.len(),
    ensures
        insert_beside(s, k, new_id, pos).no_duplicates(),
        bound < u32::MAX ==> ids_below(insert_beside(s, k, new_id, pos), (bound + 1) as u32),
        insert_beside(s, k, new_id, pos).contains(new_id),
        insert_beside(s, k, new_id, pos).len() == s.len() + 1,
{
    let t = insert_beside(s, k, new_id, pos);
    let c: int = match pos { SplitPosition::After => k + 1, SplitPosition::Before => k };
    assert(t =~= s.take(c) + seq![new_id] + s.skip(c));
    assert forall|i: int| 0 <= i < t.len() implies (#[trigger] t[i] == new_id <==> i == c)
        && (i < c ==> t[i] == s[i]) && (i > c ==> t[i] == s[i - 1]) by {
        if i < c {
            assert(t[i] == s[i]);
        } else if i > c {
            assert(t[i] == s[i - 1]);
        }
    }
    assert(t[c] == new_id);
}

proof fn lemma_insert_contains(s: Seq<PaneId>, k: int, new_id: PaneId, pos: SplitPosition)
    requires
        0 <= k < s.len(),
    ensures
        forall|x: PaneId| #[trigger] insert_beside(s, k, new_id, pos).contains(x) <==> (s.contains(x) || x == new_id),
{
    let t = insert_beside(s, k, new_id, pos);
    let c: int = match pos { SplitPosition::After => k + 1, SplitPosition::Before => k };
    assert(t =~= s.take(c) + seq![new_id] + s.skip(c));
    assert forall|x: PaneId| t.contains(x) <==> (s.contains(x) || x == new_id) by {
        if t.contains(x) {
            let i = choose|i: int| 0 <= i < t.len() && t[i] == x;
            if i < c { assert(s[i] == x); } else if i > c { assert(s[i - 1] == x); }
        }
        if s.contains(x) {
            let i = choose|i: int| 0 <= i < s.len() && s[i] == x;
            if i < c { assert(t[i] == x); } else { assert(t[i + 1] == x); }
        }
        if x == new_id { assert(t[c] == x); }
    }
}

proof fn lemma_no_dup_remove(s: Seq<PaneId>, k: int, bound: u32)
    requires
        s.no_duplicates(),
        ids_below(s, bound),
        0 <= k < s.len(),
    ensures
        remove_at(s, k).no_duplicates(),
        ids_below(remove_at(s, k), bound),
        remove_at(s, k).len() == s.len() - 1,
        forall|x: PaneId| remove_at(s, k).contains(x) <==> (s.contains(x) && x != s[k]),
{
    let t = remove_at(s, k);
    assert forall|i: int| 0 <= i < t.len() implies #[trigger] t[i] == (if i < k { s[i] } else { s[i + 1] }) by {}
    assert forall|x: PaneId| t.contains(x) <==> (s.contains(x) && x != s[k]) by {
        if t.contains(x) {
            let i = choose|i: int| 0 <= i < t.len() && t[i] == x;
            if i < k { assert(s[i] == x); } else { assert(s[i + 1] == x); }
        }
        if s.contains(x) && x != s[k] {
            let i = choose|i: int| 0 <= i < s.len() && s[i] == x;
            if i < k { assert(t[i] == x); } else { assert(i != k); assert(t[i - 1] == x); }
        }
    }
}

proof fn lemma_unique_index(s: Seq<PaneId>, i: int, j: int)
    requires
        s.no_duplicates(),
        0 <= i < s.len(),
        0 <= j < s.len(),
        s[i] == s[j],
    ensures
        i == j,
{
}

impl Layout {
    /// Well-formedness: ratios in range, distinct leaves, the active pane is
    /// a leaf, and every leaf id is below the next fresh id.
    pub open spec fn wf(&self) -> bool {
        &&& ratios_ok(self.root)
        &&& leaves(self.root).no_duplicates()
        &&& leaves(self.root).contains(self.active)
        &&& ids_below(leaves(self.root), self.next_id)
    }

    /// The next fresh id that a split would allocate.
    pub open spec fn fresh_id(&self) -> u32 {
        self.next_id
    }

    /// The leaves of the layout in document order.
    pub open spec fn leaves_view(&self) -> Seq<PaneId> {
        leaves(self.root)
    }

    /// Index of the active pane among the leaves.
    pub open spec fn active_index(&self) -> int {
        leaf_index(self.root, self.active)
    }

    /// A layout with the single pane `PaneId(0)`.
    pub fn new() -> (r: Layout)
        ensures
            r.wf(),
            r.leaves_view() == seq![PaneId(0)],
            r.root == Node::Leaf(PaneId(0)),
            r.active == PaneId(0),
            r.fresh_id() == 1,
    {
        let root_id = PaneId(0);
        let r = Layout { root: Node::Leaf(root_id), active: root_id, next_id: 1 };
        assert(leaves(r.root) =~= seq![PaneId(0)]);
        assert(leaves(r.root)[0] == PaneId(0));
        r
    }

    /// Whether another pane id can still be allocated.
    pub fn can_allocate(&self) -> (r: bool)
        ensures
            r == (self.fresh_id() < u32::MAX),
    {
        self.next_id < u32::MAX
    }

    /// Allocates a fresh pane id.
    pub fn next_id(&mut self) -> (r: PaneId)
        requires
            old(self).fresh_id() < u32::MAX,
        ensures
            r == PaneId(old(self).fresh_id()),
            final(self).fresh_id() == old(self).fresh_id() + 1,
            final(self).root == old(self).root,
            final(self).active == old(self).active,
            old(self).wf() ==> final(self).wf(),
    {
        let id = PaneId(self.next_id);
        self.next_id = self.next_id + 1;
        id
    }

    /// Splits the active pane with the new pane after it and an even ratio,
    /// returning the new pane's id, which becomes active.
    pub fn split(&mut self, orientation: Orientation) -> (r: PaneId)
        requires
            old(self).wf(),
            old(self).fresh_id() < u32::MAX,
        ensures
            final(self).wf(),
            r == PaneId(old(self).fresh_id()),
            final(self).fresh_id() == old(self).fresh_id() + 1,
            final(self).active == r,
            final(self).root == split_tree(old(self).root, old(self).active, orientation,
                SplitPosition::After, RATIO_HALF, r),
            final(self).leaves_view() == insert_beside(old(self).leaves_view(),
                old(self).active_index(), r, SplitPosition::After),
            !old(self).leaves_view().contains(r),
            forall|x: PaneId| #[trigger] final(self).leaves_view().contains(x)
                <==> (old(self).leaves_view().contains(x) || x == r),
    {
        self.split_with_position_and_ratio(orientation, SplitPosition::After, RATIO_HALF)
    }

    /// Splits the active pane with the new pane before or after it and an
    /// even ratio.
    pub fn split_with_position(&mut self, orientation: Orientation, position: SplitPosition) -> (r: PaneId)
        requires
            old(self).wf(),
            old(self).fresh_id() < u32::MAX,
        ensures
            final(self).wf(),
            r == PaneId(old(self).fresh_id()),
            final(self).fresh_id() == old(self).fresh_id() + 1,
            final(self).active == r,
            final(self).root == split_tree(old(self).root, old(self).active, orientation,
                position, RATIO_HALF, r),
            final(self).leaves_view() == insert_beside(old(self).leaves_view(),
                old(self).active_index(), r, position),
            !old(self).leaves_view().contains(r),
            forall|x: PaneId| #[trigger] final(self).leaves_view().contains(x)
                <==> (old(self).leaves_view().contains(x) || x == r),
    {
        self.split_with_position_and_ratio(orientation, position, RATIO_HALF)
    }

    /// Splits the active pane; `ratio` (basis points) goes to the first
    /// child. The new pane becomes active.
    pub fn split_with_position_and_ratio(
        &mut self,
        orientation: Orientation,
        position: SplitPosition,
        ratio: u16,
    ) -> (r: PaneId)
        requires
            old(self).wf(),
            old(self).fresh_id() < u32::MAX,
            RATIO_MIN <= ratio <= RATIO_MAX,
        ensures
            final(self).wf(),
            r == PaneId(old(self).fresh_id()),
            final(self).fresh_id() == old(self).fresh_id() + 1,
            final(self).active == r,
            final(self).root == split_tree(old(self).root, old(self).active, orientation,
                position, ratio, r),
            final(self).leaves_view() == insert_beside(old(self).leaves_view(),
                old(self).active_index(), r, position),
            !old(self).leaves_view().contains(r),
            forall|x: PaneId| #[trigger] final(self).leaves_view().contains(x)
                <==> (old(self).leaves_view().contains(x) || x == r),
    {
        let new_id = self.next_id();
        let target = self.active;
        let mut root = Node::Leaf(PaneId(0));
        std::mem::swap(&mut root, &mut self.root);
        let ghost old_root = root;
        let (new_root, _) = split_owned(root, target, orientation, position, ratio, new_id);
        self.root = new_root;
        self.active = new_id;
        proof {
            lemma_split_leaves(old_root, target, orientation, position, ratio, new_id);
            lemma_leaf_index(old_root, target);
            lemma_no_dup_insert(leaves(old_root), leaf_index(old_root, target), new_id, position, new_id.0);
            lemma_insert_contains(leaves(old_root), leaf_index(old_root, target), new_id, position);
            assert(!leaves(old_root).contains(new_id)) by {
                if leaves(old_root).contains(new_id) {
                    let i = choose|i: int| 0 <= i < leaves(old_root).len() && leaves(old_root)[i] == new_id;
                    assert(ids_below(leaves(old_root), new_id.0));
                }
            }
        }
        new_id
    }

    /// Closes the active pane. Returns false if it is the last pane.
    pub fn close_active(&mut self) -> (r: bool)
        requires
            old(self).wf(),
        ensures
            final(self).wf(),
            r == (old(self).leaves_view().len() >= 2),
            r ==> final(self).leaves_view() == remove_at(old(self).leaves_view(), old(self).active_index()),
            r ==> final(self).active == (if old(self).leaves_view()[0] != old(self).active {
                old(self).leaves_view()[0] } else { old(self).leaves_view()[1] }),
            !r ==> final(self).root == old(self).root && final(self).active == old(self).active,
            final(self).fresh_id() == old(self).fresh_id(),
    {
        let id = self.active;
        self.close_pane(id)
    }

    /// Closes pane `id`; the parent split is replaced by the sibling and
    /// focus moves to the first remaining leaf. Returns false, changing
    /// nothing, when only one pane is left or `id` is not a pane.
    pub fn close_pane(&mut self, id: PaneId) -> (r: bool)
        requires
            old(self).wf(),
        ensures
            final(self).wf(),
            r == (old(self).leaves_view().len() >= 2 && old(self).leaves_view().contains(id)),
            r ==> final(self).root == remove_tree(old(self).root, id),
            r ==> final(self).leaves_view() == remove_at(old(self).leaves_view(), leaf_index(old(self).root, id)),
            r ==> forall|x: PaneId| #[trigger] final(self).leaves_view().contains(x)
                <==> (old(self).leaves_view().contains(x) && x != id),
            r ==> final(self).active == (if old(self).leaves_view()[0] != id {
                old(self).leaves_view()[0] } else { old(self).leaves_view()[1] }),
            !r ==> final(self).root == old(self).root && final(self).active == old(self).active,
            final(self).fresh_id() == old(self).fresh_id(),
    {
        let leaves_v = collect_leaves(&self.root);
        if leaves_v.len() <= 1 {
            return false;
        }
        let next_focus = if leaves_v[0] != id { leaves_v[0] } else { leaves_v[1] };
        let mut root = Node::Leaf(PaneId(0));
        std::mem::swap(&mut root, &mut self.root);
        let ghost old_root = root;
        let (new_root, removed) = remove_owned(root, id);
        if removed {
            self.root = new_root;
            self.active = next_focus;
            proof {
                lemma_remove_leaves(old_root, id);
                lemma_leaf_index(old_root, id);
                let l = leaves(old_root);
                let k = leaf_index(old_root, id);
                lemma_no_dup_remove(l, k, self.next_id);
                if l[0] == id {
                    assert(k == 0) by {
                        if k != 0 { lemma_unique_index(l, 0, k); }
                    }
                    assert(l[1] != id) by {
                        if l[1] == id { lemma_unique_index(l, 1, k); }
                    }
                    assert(l.contains(l[1]));
                } else {
                    assert(l.contains(l[0]));
                }
            }
            true
        } else {
            proof {
                lemma_leaves_nonempty(old_root);
                if old_root is Leaf {
                    assert(leaves(old_root).len() == 1);
                }
            }
            // `remove_owned` hands back the tree unchanged when it removes nothing.
            proof {
                match old_root {
                    Node::Leaf(_) => {},
                    Node::Split { .. } => {},
                }
            }
            self.root = new_root;
            proof {
                assert(!removable(old_root, id));
                lemma_remove_unchanged(old_root, id);
            }
            false
        }
    }

    /// Geometry of every pane for a terminal of the given size, in document
    /// order.
    pub fn compute_rects(&self, width: u16, height: u16) -> (r: Vec<(PaneId, Rect)>)
        requires
            self.wf(),
        ensures
            r@ == rects_of(self.root, full_rect(width, height)),
    {
        proof { assert(ratios_ok(self.root)); }
        let mut out = Vec::new();
        compute(&self.root, Rect { x: 0, y: 0, width, height }, &mut out);
        assert(out@ =~= rects_of(self.root, full_rect(width, height)));
        out
    }

    /// Moves focus to the next leaf in document order, wrapping around.
    pub fn focus_next(&mut self)
        requires
            old(self).wf(),
        ensures
            final(self).wf(),
            final(self).root == old(self).root,
            final(self).fresh_id() == old(self).fresh_id(),
            final(self).active == old(self).leaves_view()[
                (old(self).active_index() + 1) % (old(self).leaves_view().len() as int)],
    {
        let leaves_v = collect_leaves(&self.root);
        let pos = Self::position_of(&leaves_v, self.active);
        proof { lemma_leaf_index(self.root, self.active); }
        let n = leaves_v.len();
        let next = if pos + 1 < n { pos + 1 } else { 0 };
        proof {
            assert(pos == leaf_index(self.root, self.active)) by {
                lemma_unique_index(leaves_v@, pos as int, leaf_index(self.root, self.active));
            }
            if pos + 1 < n {
                assert((pos + 1) as int % (n as int) == pos + 1) by (nonlinear_arith)
                    requires pos + 1 < n;
            } else {
                assert((pos + 1) as int % (n as int) == 0) by (nonlinear_arith)
                    requires pos + 1 == n, n >= 1;
            }
        }
        self.active = leaves_v[next];
        proof { assert(leaves(self.root).contains(leaves_v@[next as int])); }
    }

    /// Moves focus to the previous leaf in document order, wrapping around.
    pub fn focus_prev(&mut self)
        requires
            old(self).wf(),
        ensures
            final(self).wf(),
            final(self).root == old(self).root,
            final(self).fresh_id() == old(self).fresh_id(),
            final(self).active == old(self).leaves_view()[
                (old(self).active_index() + old(self).leaves_view().len() - 1)
                    % (old(self).leaves_view().len() as int)],
    {
        let leaves_v = collect_leaves(&self.root);
        let pos = Self::position_of(&leaves_v, self.active);
        proof { lemma_leaf_index(self.root, self.active); }
        let n = leaves_v.len();
        let prev = if pos >= 1 { pos - 1 } else { n - 1 };
        proof {
            assert(pos == leaf_index(self.root, self.active)) by {
                lemma_unique_index(leaves_v@, pos as int, leaf_index(self.root, self.active));
            }
            if pos >= 1 {
                assert((pos + n - 1) as int % (n as int) == pos - 1) by (nonlinear_arith)
                    requires pos >= 1, pos < n;
            } else {
                assert((n - 1) as int % (n as int) == n - 1) by (nonlinear_arith)
                    requires n >= 1;
            }
        }
        self.active = leaves_v[prev];
        proof { assert(leaves(self.root).contains(leaves_v@[prev as int])); }
    }

    fn position_of(v: &Vec<PaneId>, target: PaneId) -> (r: usize)
        requires
            v@.contains(target),
        ensures
            r < v@.len(),
            v@[r as int] == target,
    {
        let mut i: usize = 0;
        while i < v.len()
            invariant
                i <= v.len(),
                v@.contains(target),
                forall|j: int| 0 <= j < i ==> v@[j] != target,
            decreases v.len() - i,
        {
            if v[i] == target {
                return i;
            }
            i = i + 1;
        }
        proof {
            let j = choose|j: int| 0 <= j < v@.len() && v@[j] == target;
        }
        0
    }

    /// The pane ids in document order.
    pub fn leaf_ids(&self) -> (r: Vec<PaneId>)
        ensures
            r@ == self.leaves_view(),
    {
        collect_leaves(&self.root)
    }

    /// Focuses `id` when it is a pane of the layout; otherwise nothing
    /// changes.
    pub fn set_active(&mut self, id: PaneId)
        requires
            old(self).wf(),
        ensures
            final(self).wf(),
            final(self).root == old(self).root,
            final(self).fresh_id() == old(self).fresh_id(),
            final(self).active == (if old(self).leaves_view().contains(id) { id } else { old(self).active }),
    {
        if contains_leaf(&self.root, id) {
            self.active = id;
        }
    }
}

proof fn lemma_remove_unchanged(n: Node, target: PaneId)
    requires
        !removable(n, target),
    ensures
        remove_tree(n, target) == n,
    decreases n,
{
    match n {
        Node::Leaf(_) => {},
        Node::Split { first, second, .. } => {
            assert(!leaves(n).contains(target));
            assert(!is_leaf_of(*first, target)) by {
                if is_leaf_of(*first, target) {
                    assert(leaves(*first) =~= seq![target]);
                    assert(leaves(n)[0] == target);
                }
            }
            assert(!is_leaf_of(*second, target)) by {
                if is_leaf_of(*second, target) {
                    assert(leaves(*second) =~= seq![target]);
                    assert(leaves(n)[leaves(*first).len() as int] == target);
                }
            }
            assert(!leaves(*first).contains(target)) by {
                if leaves(*first).contains(target) {
                    let i = choose|i: int| 0 <= i < leaves(*first).len() && leaves(*first)[i] == target;
                    assert(leaves(n)[i] == target);
                }
            }
            assert(!leaves(*second).contains(target)) by {
                if leaves(*second).contains(target) {
                    let i = choose|i: int| 0 <= i < leaves(*second).len() && leaves(*second)[i] == target;
                    assert(leaves(n)[leaves(*first).len() + i] == target);
                }
            }
            lemma_remove_unchanged(*second, target);
        },
    }
}


/// Moving focus to the next pane and then back to the previous one returns
/// to the pane that had focus.
pub proof fn law_focus_next_then_prev(l: Layout)
    requires
        l.wf(),
    ensures
        ({
            let n = l.leaves_view().len() as int;
            let l1 = Layout { active: l.leaves_view()[(l.active_index() + 1) % n], ..l };
            l1.leaves_view()[(l1.active_index() + n - 1) % n] == l.active
        }),
{
    let s = l.leaves_view();
    let n = s.len() as int;
    lemma_leaf_index(l.root, l.active);
    let i = l.active_index();
    let j = if i + 1 < n { i + 1 } else { 0 };
    assert((i + 1) % n == j) by (nonlinear_arith)
        requires 0 <= i < n, j == (if i + 1 < n { i + 1 } else { 0 });
    let l1 = Layout { active: s[j], ..l };
    assert(s.contains(s[j]));
    lemma_leaf_index(l1.root, l1.active);
    let k = l1.active_index();
    assert(s[k] == s[j]);
    lemma_unique_index(s, k, j);
    assert((j + n - 1) % n == i) by (nonlinear_arith)
        requires 0 <= i < n, j == (if i + 1 < n { i + 1 } else { 0 });
}

/// Closing a pane right after splitting it off restores the tree exactly.
pub proof fn law_close_undoes_split(
    n: Node,
    target: PaneId,
    o: Orientation,
    pos: SplitPosition,
    ratio: u16,
    new_id: PaneId,
)
    requires
        leaves(n).contains(target),
        !leaves(n).contains(new_id),
    ensures
        remove_tree(split_tree(n, target, o, pos, ratio, new_id), new_id) == n,
    decreases n,
{
    match n {
        Node::Leaf(id) => {
            assert(leaves(n) =~= seq![id]);
            assert(leaves(n)[0] == id);
            assert(id == target);
            assert(id != new_id);
        },
        Node::Split { orientation, ratio: r, first, second } => {
            let lf = leaves(*first);
            let ls = leaves(*second);
            assert(!lf.contains(new_id)) by {
                if lf.contains(new_id) {
                    let i = choose|i: int| 0 <= i < lf.len() && lf[i] == new_id;
                    assert(leaves(n)[i] == new_id);
                }
            }
            assert(!ls.contains(new_id)) by {
                if ls.contains(new_id) {
                    let i = choose|i: int| 0 <= i < ls.len() && ls[i] == new_id;
                    assert(leaves(n)[lf.len() + i] == new_id);
                }
            }
            if lf.contains(target) {
                let f2 = split_tree(*first, target, o, pos, ratio, new_id);
                law_close_undoes_split(*first, target, o, pos, ratio, new_id);
                lemma_split_leaves(*first, target, o, pos, ratio, new_id);
                lemma_leaf_index(*first, target);
                lemma_no_dup_insert_contains(lf, leaf_index(*first, target), new_id, pos);
                assert(!is_leaf_of(f2, new_id)) by {
                    if is_leaf_of(f2, new_id) {
                        lemma_leaves_nonempty(*first);
                        assert(leaves(f2) =~= seq![new_id]);
                        assert(leaves(f2).len() == lf.len() + 1);
                    }
                }
                assert(!is_leaf_of(*second, new_id)) by {
                    if is_leaf_of(*second, new_id) {
                        assert(ls =~= seq![new_id]);
                        assert(ls[0] == new_id);
                    }
                }
            } else {
                let j = choose|j: int| 0 <= j < leaves(n).len() && leaves(n)[j] == target;
                assert(j >= lf.len()) by {
                    if j < lf.len() {
                        assert(lf[j] == target);
                    }
                }
                assert(ls[j - lf.len()] == target);
                let s2 = split_tree(*second, target, o, pos, ratio, new_id);
                law_close_undoes_split(*second, target, o, pos, ratio, new_id);
                lemma_split_leaves(*second, target, o, pos, ratio, new_id);
                lemma_leaf_index(*second, target);
                lemma_no_dup_insert_contains(ls, leaf_index(*second, target), new_id, pos);
                assert(!is_leaf_of(*first, new_id)) by {
                    if is_leaf_of(*first, new_id) {
                        assert(lf =~= seq![new_id]);
                        assert(lf[0] == new_id);
                    }
                }
                assert(!is_leaf_of(s2, new_id)) by {
                    if is_leaf_of(s2, new_id) {
                        lemma_leaves_nonempty(*second);
                        assert(leaves(s2) =~= seq![new_id]);
                        assert(leaves(s2).len() == ls.len() + 1);
                    }
                }
                let sp = split_tree(n, target, o, pos, ratio, new_id);
                assert(!leaves(*first).contains(new_id));
            }
        },
    }
}

proof fn lemma_no_dup_insert_contains(s: Seq<PaneId>, k: int, new_id: PaneId, pos: SplitPosition)
    requires
        0 <= k < s.len(),
    ensures
        insert_beside(s, k, new_id, pos).contains(new_id),
        insert_beside(s, k, new_id, pos).len() == s.len() + 1,
{
    let c: int = match pos { SplitPosition::After => k + 1, SplitPosition::Before => k };
    let t = insert_beside(s, k, new_id, pos);
    assert(t[c] == new_id);
}


// ── dividers, ratios and spatial focus ─────────────────────────────────────

/// A one-cell gap between the two children of a split, which the mouse can
/// drag to change the split's ratio.
#[derive(Debug, Clone)]
pub struct DividerInfo {
    pub orientation: Orientation,
    /// Column (vertical split) or row (horizontal split) of the gap.
    pub position: u16,
    /// First row (or column) the gap spans.
    pub span_start: u16,
    /// One past the last row (or column) the gap spans.
    pub span_end: u16,
    /// Start of the split's rectangle along the split axis.
    pub rect_start: u16,
    /// Size of the split's rectangle along the split axis.
    pub rect_size: u16,
    /// Path from the root to the split: `false` = first child, `true` = second.
    pub path: Vec<bool>,
}

/// Plain-value view of a divider.
pub struct DividerView {
    pub orientation: Orientation,
    pub position: u16,
    pub span_start: u16,
    pub span_end: u16,
    pub rect_start: u16,
    pub rect_size: u16,
    pub path: Seq<bool>,
}

impl View for DividerInfo {
    type V = DividerView;

    open spec fn view(&self) -> DividerView {
        DividerView {
            orientation: self.orientation,
            position: self.position,
            span_start: self.span_start,
            span_end: self.span_end,
            rect_start: self.rect_start,
            rect_size: self.rect_size,
            path: self.path@,
        }
    }
}

/// The divider of a split laid out in `r`, when its children leave a gap.
pub open spec fn divider_here(r: Rect, o: Orientation, ratio: u16, path: Seq<bool>) -> Seq<DividerView> {
    let (r1, r2) = split_rect_spec(r, o, ratio);
    match o {
        Orientation::Vertical => if r2.x > r1.x + r1.width {
            seq![DividerView {
                orientation: o,
                position: (r1.x + r1.width) as u16,
                span_start: r.y,
                span_end: (r.y + r.height) as u16,
                rect_start: r.x,
                rect_size: r.width,
                path,
            }]
        } else {
            Seq::empty()
        },
        Orientation::Horizontal => if r2.y > r1.y + r1.height {
            seq![DividerView {
                orientation: o,
                position: (r1.y + r1.height) as u16,
                span_start: r.x,
                span_end: (r.x + r.width) as u16,
                rect_start: r.y,
                rect_size: r.height,
                path,
            }]
        } else {
            Seq::empty()
        },
    }
}

/// All dividers of `n` laid out in `r`, parents before children.
pub open spec fn dividers_of(n: Node, r: Rect, path: Seq<bool>) -> Seq<DividerView>
    decreases n,
{
    match n {
        Node::Leaf(_) => Seq::empty(),
        Node::Split { orientation, ratio, first, second } => {
            let (r1, r2) = split_rect_spec(r, orientation, ratio);
            divider_here(r, orientation, ratio, path) + dividers_of(*first, r1, path.push(false))
                + dividers_of(*second, r2, path.push(true))
        },
    }
}

/// `v` clamped into `[RATIO_MIN, RATIO_MAX]`.
pub open spec fn clamp_ratio(v: int) -> u16 {
    if v < RATIO_MIN { RATIO_MIN } else if v > RATIO_MAX { RATIO_MAX } else { v as u16 }
}

/// The tree with the ratio of the split at `path` set to `ratio`; unchanged
/// when the path does not lead to a split.
pub open spec fn set_ratio_at(n: Node, path: Seq<bool>, ratio: u16) -> Node
    decreases path.len(),
{
    match n {
        Node::Leaf(_) => n,
        Node::Split { orientation, ratio: r, first, second } => if path.len() == 0 {
            Node::Split { orientation, ratio, first, second }
        } else if !path[0] {
            Node::Split { orientation, ratio: r, first: Box::new(set_ratio_at(*first, path.drop_first(), ratio)), second }
        } else {
            Node::Split { orientation, ratio: r, first, second: Box::new(set_ratio_at(*second, path.drop_first(), ratio)) }
        },
    }
}

/// Whether some split of orientation `o` encloses the leaf `pane`.
pub open spec fn has_axis_ancestor(n: Node, pane: PaneId, o: Orientation) -> bool
    decreases n,
{
    match n {
        Node::Leaf(_) => false,
        Node::Split { orientation, first, second, .. } => leaves(n).contains(pane) && (orientation == o
            || has_axis_ancestor(*first, pane, o) || has_axis_ancestor(*second, pane, o)),
    }
}

/// The tree with the ratio of the innermost split of orientation `o` that
/// encloses `pane` moved by `delta`, clamped into range.
pub open spec fn adjust_tree(n: Node, pane: PaneId, o: Orientation, delta: i32) -> Node
    decreases n,
{
    match n {
        Node::Leaf(_) => n,
        Node::Split { orientation, ratio, first, second } => if has_axis_ancestor(*first, pane, o) {
            Node::Split { orientation, ratio, first: Box::new(adjust_tree(*first, pane, o, delta)), second }
        } else if has_axis_ancestor(*second, pane, o) {
            Node::Split { orientation, ratio, first, second: Box::new(adjust_tree(*second, pane, o, delta)) }
        } else if orientation == o && leaves(n).contains(pane) {
            Node::Split { orientation, ratio: clamp_ratio(ratio + delta), first, second }
        } else {
            n
        },
    }
}

/// A direction for spatial focus movement.
#[derive(Debug, Clone, Copy, PartialEq, Eq, Structural)]
pub enum Direction {
    Left,
    Right,
    Up,
    Down,
}

/// `c` lies entirely on the `d` side of `a` and overlaps it across the
/// other axis.
pub open spec fn lies_toward(a: Rect, c: Rect, d: Direction) -> bool {
    match d {
        Direction::Left => c.x + c.width <= a.x && c.y < a.y + a.height && a.y < c.y + c.height,
        Direction::Right => a.x + a.width <= c.x && c.y < a.y + a.height && a.y < c.y + c.height,
        Direction::Up => c.y + c.height <= a.y && c.x < a.x + a.width && a.x < c.x + c.width,
        Direction::Down => a.y + a.height <= c.y && c.x < a.x + a.width && a.x < c.x + c.width,
    }
}

/// Distance from `a` to `c` in direction `d`.
pub open spec fn gap_toward(a: Rect, c: Rect, d: Direction) -> int {
    match d {
        Direction::Left => a.x - (c.x + c.width),
        Direction::Right => c.x - (a.x + a.width),
        Direction::Up => a.y - (c.y + c.height),
        Direction::Down => c.y - (a.y + a.height),
    }
}

/// Pane `i` of `rs` is a candidate for focus moving from `a` in direction `d`.
pub open spec fn is_candidate(rs: Seq<(PaneId, Rect)>, active: PaneId, a: Rect, d: Direction, i: int) -> bool {
    0 <= i < rs.len() && rs[i].0 != active && lies_toward(a, rs[i].1, d)
}

/// No pane is a candidate.
pub open spec fn no_candidate(rs: Seq<(PaneId, Rect)>, active: PaneId, a: Rect, d: Direction) -> bool {
    forall|j: int| !#[trigger] is_candidate(rs, active, a, d, j)
}

/// Pane `i` is the nearest candidate, the first one in document order on a tie.
pub open spec fn is_nearest(rs: Seq<(PaneId, Rect)>, active: PaneId, a: Rect, d: Direction, i: int) -> bool {
    &&& is_candidate(rs, active, a, d, i)
    &&& forall|j: int| #[trigger] is_candidate(rs, active, a, d, j) ==>
        gap_toward(a, rs[i].1, d) < gap_toward(a, rs[j].1, d)
        || (gap_toward(a, rs[i].1, d) == gap_toward(a, rs[j].1, d) && i <= j)
}

/// Focus moves to the nearest pane on the chosen side: the pane chosen lies
/// wholly on that side of the focused rectangle `a` and overlaps it across,
/// and no other such pane has fewer cells between its facing edge and the
/// facing edge of `a`.
pub proof fn law_focus_moves_to_nearest(rs: Seq<(PaneId, Rect)>, active: PaneId, a: Rect, d: Direction, i: int)
    requires
        is_nearest(rs, active, a, d, i),
    ensures
        0 <= i < rs.len() && rs[i].0 != active,
        d == Direction::Left ==> rs[i].1.x + rs[i].1.width <= a.x
            && rs[i].1.y < a.y + a.height && a.y < rs[i].1.y + rs[i].1.height
            && forall|j: int| 0 <= j < rs.len() && (#[trigger] rs[j]).0 != active
                && rs[j].1.x + rs[j].1.width <= a.x
                && rs[j].1.y < a.y + a.height && a.y < rs[j].1.y + rs[j].1.height
                ==> a.x - (rs[i].1.x + rs[i].1.width) <= a.x - (rs[j].1.x + rs[j].1.width),
        d == Direction::Right ==> a.x + a.width <= rs[i].1.x
            && rs[i].1.y < a.y + a.height && a.y < rs[i].1.y + rs[i].1.height
            && forall|j: int| 0 <= j < rs.len() && (#[trigger] rs[j]).0 != active
                && a.x + a.width <= rs[j].1.x
                && rs[j].1.y < a.y + a.height && a.y < rs[j].1.y + rs[j].1.height
                ==> rs[i].1.x - (a.x + a.width) <= rs[j].1.x - (a.x + a.width),
        d == Direction::Up ==> rs[i].1.y + rs[i].1.height <= a.y
            && rs[i].1.x < a.x + a.width && a.x < rs[i].1.x + rs[i].1.width
            && forall|j: int| 0 <= j < rs.len() && (#[trigger] rs[j]).0 != active
                && rs[j].1.y + rs[j].1.height <= a.y
                && rs[j].1.x < a.x + a.width && a.x < rs[j].1.x + rs[j].1.width
                ==> a.y - (rs[i].1.y + rs[i].1.height) <= a.y - (rs[j].1.y + rs[j].1.height),
        d == Direction::Down ==> a.y + a.height <= rs[i].1.y
            && rs[i].1.x < a.x + a.width && a.x < rs[i].1.x + rs[i].1.width
            && forall|j: int| 0 <= j < rs.len() && (#[trigger] rs[j]).0 != active
                && a.y + a.height <= rs[j].1.y
                && rs[j].1.x < a.x + a.width && a.x < rs[j].1.x + rs[j].1.width
                ==> rs[i].1.y - (a.y + a.height) <= rs[j].1.y - (a.y + a.height),
{
    assert forall|j: int| 0 <= j < rs.len() && (#[trigger] rs[j]).0 != active && lies_toward(a, rs[j].1, d) implies
        gap_toward(a, rs[i].1, d) <= gap_toward(a, rs[j].1, d) by {
        assert(is_candidate(rs, active, a, d, j));
    }
}

proof fn lemma_set_ratio_leaves(n: Node, path: Seq<bool>, ratio: u16)
    ensures
        leaves(set_ratio_at(n, path, ratio)) == leaves(n),
        ratios_ok(n) && RATIO_MIN <= ratio <= RATIO_MAX ==> ratios_ok(set_ratio_at(n, path, ratio)),
    decreases path.len(),
{
    match n {
        Node::Leaf(_) => {},
        Node::Split { first, second, .. } => {
            if path.len() > 0 {
                lemma_set_ratio_leaves(*first, path.drop_first(), ratio);
                lemma_set_ratio_leaves(*second, path.drop_first(), ratio);
            }
        },
    }
}

proof fn lemma_adjust_leaves(n: Node, pane: PaneId, o: Orientation, delta: i32)
    ensures
        leaves(adjust_tree(n, pane, o, delta)) == leaves(n),
        ratios_ok(n) ==> ratios_ok(adjust_tree(n, pane, o, delta)),
    decreases n,
{
    match n {
        Node::Leaf(_) => {},
        Node::Split { first, second, .. } => {
            lemma_adjust_leaves(*first, pane, o, delta);
            lemma_adjust_leaves(*second, pane, o, delta);
        },
    }
}

pub fn clamp_ratio_exec(v: i32) -> (r: u16)
    ensures
        r == clamp_ratio(v as int),
{
    if v < RATIO_MIN as i32 { RATIO_MIN } else if v > RATIO_MAX as i32 { RATIO_MAX } else { v as u16 }
}

fn set_ratio_owned(n: Node, path: &Vec<bool>, i: usize, ratio: u16) -> (r: Node)
    requires
        i <= path.len(),
    ensures
        r == set_ratio_at(n, path@.skip(i as int), ratio),
    decreases path.len() - i,
{
    match n {
        Node::Leaf(id) => Node::Leaf(id),
        Node::Split { orientation, ratio: r, first, second } => {
            let ghost p = path@.skip(i as int);
            if i == path.len() {
                Node::Split { orientation, ratio, first, second }
            } else {
                proof { assert(p.drop_first() =~= path@.skip(i + 1)); }
                if !path[i] {
                    let f2 = set_ratio_owned(*first, path, i + 1, ratio);
                    Node::Split { orientation, ratio: r, first: Box::new(f2), second }
                } else {
                    let s2 = set_ratio_owned(*second, path, i + 1, ratio);
                    Node::Split { orientation, ratio: r, first, second: Box::new(s2) }
                }
            }
        },
    }
}

fn has_axis_ancestor_exec(n: &Node, pane: PaneId, o: Orientation) -> (r: bool)
    ensures
        r == has_axis_ancestor(*n, pane, o),
    decreases n,
{
    match n {
        Node::Leaf(_) => false,
        Node::Split { orientation, first, second, .. } => {
            contains_leaf(n, pane) && (*orientation == o || has_axis_ancestor_exec(first, pane, o)
                || has_axis_ancestor_exec(second, pane, o))
        },
    }
}

fn adjust_owned(n: Node, pane: PaneId, o: Orientation, delta: i32) -> (r: Node)
    requires
        ratios_ok(n),
        -10000 <= delta <= 10000,
    ensures
        r == adjust_tree(n, pane, o, delta),
    decreases n,
{
    let here = contains_leaf(&n, pane);
    match n {
        Node::Leaf(id) => Node::Leaf(id),
        Node::Split { orientation, ratio, first, second } => {
            if has_axis_ancestor_exec(&first, pane, o) {
                let f2 = adjust_owned(*first, pane, o, delta);
                Node::Split { orientation, ratio, first: Box::new(f2), second }
            } else if has_axis_ancestor_exec(&second, pane, o) {
                let s2 = adjust_owned(*second, pane, o, delta);
                Node::Split { orientation, ratio, first, second: Box::new(s2) }
            } else if orientation == o && here {
                let nr = clamp_ratio_exec(ratio as i32 + delta);
                Node::Split { orientation, ratio: nr, first, second }
            } else {
                Node::Split { orientation, ratio, first, second }
            }
        },
    }
}

fn copy_path(p: &Vec<bool>) -> (r: Vec<bool>)
    ensures
        r@ == p@,
{
    let mut out: Vec<bool> = Vec::new();
    let mut i: usize = 0;
    while i < p.len()
        invariant
            i <= p.len(),
            out@ == p@.subrange(0, i as int),
        decreases p.len() - i,
    {
        out.push(p[i]);
        i = i + 1;
        assert(out@ =~= p@.subrange(0, i as int));
    }
    assert(out@ =~= p@);
    out
}

fn divider_here_exec(r: Rect, o: Orientation, ratio: u16, path: &Vec<bool>, out: &mut Vec<DividerInfo>)
    requires
        fits(r),
        ratio <= RATIO_ONE,
    ensures
        final(out)@.map_values(|d: DividerInfo| d@) == old(out)@.map_values(|d: DividerInfo| d@)
            + divider_here(r, o, ratio, path@),
{
    let (r1, r2) = split_rect(r, o, ratio);
    proof { lemma_split_rect_children(r, o, ratio); }
    let ghost before = out@.map_values(|d: DividerInfo| d@);
    match o {
        Orientation::Vertical => {
            if r2.x > r1.x + r1.width {
                let d = DividerInfo {
                    orientation: o,
                    position: r1.x + r1.width,
                    span_start: r.y,
                    span_end: r.y + r.height,
                    rect_start: r.x,
                    rect_size: r.width,
                    path: copy_path(path),
                };
                out.push(d);
            }
        },
        Orientation::Horizontal => {
            if r2.y > r1.y + r1.height {
                let d = DividerInfo {
                    orientation: o,
                    position: r1.y + r1.height,
                    span_start: r.x,
                    span_end: r.x + r.width,
                    rect_start: r.y,
                    rect_size: r.height,
                    path: copy_path(path),
                };
                out.push(d);
            }
        },
    }
    assert(out@.map_values(|d: DividerInfo| d@) =~= before + divider_here(r, o, ratio, path@));
}

fn dividers_exec(n: &Node, r: Rect, path: &mut Vec<bool>, out: &mut Vec<DividerInfo>)
    requires
        fits(r),
        ratios_ok(*n),
    ensures
        final(path)@ == old(path)@,
        final(out)@.map_values(|d: DividerInfo| d@) == old(out)@.map_values(|d: DividerInfo| d@)
            + dividers_of(*n, r, old(path)@),
    decreases n,
{
    let ghost p0 = path@;
    let ghost before = out@.map_values(|d: DividerInfo| d@);
    match n {
        Node::Leaf(_) => {
            assert(out@.map_values(|d: DividerInfo| d@) =~= before + dividers_of(*n, r, p0));
        },
        Node::Split { orientation, ratio, first, second } => {
            proof { lemma_split_rect_children(r, *orientation, *ratio); }
            divider_here_exec(r, *orientation, *ratio, path, out);
            let (r1, r2) = split_rect(r, *orientation, *ratio);
            path.push(false);
            dividers_exec(first, r1, path, out);
            path.pop();
            assert(path@ =~= p0);
            path.push(true);
            dividers_exec(second, r2, path, out);
            path.pop();
            assert(path@ =~= p0);
            assert(out@.map_values(|d: DividerInfo| d@) =~= before + dividers_of(*n, r, p0));
        },
    }
}

impl Layout {
    /// The dividers of the layout for a terminal of the given size.
    pub fn compute_dividers(&self, width: u16, height: u16) -> (r: Vec<DividerInfo>)
        requires
            self.wf(),
        ensures
            r@.map_values(|d: DividerInfo| d@) == dividers_of(self.root, full_rect(width, height), Seq::empty()),
    {
        let mut out: Vec<DividerInfo> = Vec::new();
        let mut path: Vec<bool> = Vec::new();
        dividers_exec(&self.root, Rect { x: 0, y: 0, width, height }, &mut path, &mut out);
        assert(out@.map_values(|d: DividerInfo| d@) =~= dividers_of(self.root, full_rect(width, height), Seq::empty()));
        out
    }

    /// Sets the ratio of the split at `path` to `ratio`, clamped into range.
    pub fn set_split_ratio_at(&mut self, path: &Vec<bool>, ratio: u16)
        requires
            old(self).wf(),
        ensures
            final(self).wf(),
            final(self).root == set_ratio_at(old(self).root, path@, clamp_ratio(ratio as int)),
            final(self).active == old(self).active,
            final(self).fresh_id() == old(self).fresh_id(),
            final(self).leaves_view() == old(self).leaves_view(),
    {
        let r = clamp_ratio_exec(ratio as i32);
        let mut root = Node::Leaf(PaneId(0));
        std::mem::swap(&mut root, &mut self.root);
        let ghost old_root = root;
        let new_root = set_ratio_owned(root, path, 0, r);
        proof {
            assert(path@.skip(0) =~= path@);
            lemma_set_ratio_leaves(old_root, path@, r);
        }
        self.root = new_root;
    }

    /// Moves the ratio of the innermost split of `orientation` enclosing
    /// `pane` by `delta` basis points, clamped into range. Nothing changes
    /// when no such split exists.
    pub fn adjust_pane_ratio(&mut self, pane: PaneId, orientation: Orientation, delta: i32)
        requires
            old(self).wf(),
            -10000 <= delta <= 10000,
        ensures
            final(self).wf(),
            final(self).root == adjust_tree(old(self).root, pane, orientation, delta),
            final(self).active == old(self).active,
            final(self).fresh_id() == old(self).fresh_id(),
            final(self).leaves_view() == old(self).leaves_view(),
    {
        let mut root = Node::Leaf(PaneId(0));
        std::mem::swap(&mut root, &mut self.root);
        let ghost old_root = root;
        let new_root = adjust_owned(root, pane, orientation, delta);
        proof { lemma_adjust_leaves(old_root, pane, orientation, delta); }
        self.root = new_root;
    }

    /// Moves focus to the nearest pane in direction `dir` (laid out for a
    /// terminal of `terminal_size`); stays put when there is none.
    pub fn focus_direction(&mut self, dir: Direction, terminal_size: (u16, u16))
        requires
            old(self).wf(),
        ensures
            final(self).wf(),
            final(self).root == old(self).root,
            final(self).fresh_id() == old(self).fresh_id(),
            ({
                let rs = rects_of(old(self).root, full_rect(terminal_size.0, terminal_size.1));
                let a = rs[old(self).active_index()].1;
                if no_candidate(rs, old(self).active, a, dir) {
                    final(self).active == old(self).active
                } else {
                    exists|i: int| is_nearest(rs, old(self).active, a, dir, i) && final(self).active == rs[i].0
                }
            }),
    {
        let (w, h) = terminal_size;
        let rects = self.compute_rects(w, h);
        let ghost rs = rects@;
        proof {
            law_rects_name_leaves(self.root, full_rect(w, h));
            lemma_leaf_index(self.root, self.active);
            assert(rs[leaf_index(self.root, self.active)].0 == self.active);
        }
        let ghost act = self.active;
        let ai = Self::rect_index(&rects, self.active);
        proof {
            assert(rs[ai as int].0 == leaves(self.root)[ai as int]);
            lemma_unique_index(leaves(self.root), ai as int, leaf_index(self.root, self.active));
        }
        let a = rects[ai].1;
        proof {
            assert(ai as int == leaf_index(self.root, act));
            assert(a == rs[leaf_index(self.root, act)].1);
        }
        let best = Self::nearest_index(&rects, self.active, a, dir);
        match best {
            Some(b) => {
                proof {
                    assert(is_candidate(rs, act, a, dir, b as int));
                    assert(!no_candidate(rs, act, a, dir));
                    assert(leaves(self.root)[b as int] == rs[b as int].0);
                }
                self.active = rects[b].0;
            },
            None => {},
        }
    }

    fn nearest_index(rects: &Vec<(PaneId, Rect)>, active: PaneId, a: Rect, dir: Direction) -> (r: Option<usize>)
        ensures
            match r {
                Some(b) => is_nearest(rects@, active, a, dir, b as int),
                None => no_candidate(rects@, active, a, dir),
            },
    {
        let ghost rs = rects@;
        let mut best: Option<usize> = None;
        let mut i: usize = 0;
        while i < rects.len()
            invariant
                i <= rects.len(),
                rs == rects@,
                match best {
                    None => forall|j: int| 0 <= j < i ==> !is_candidate(rs, active, a, dir, j),
                    Some(b) => b < i && is_candidate(rs, active, a, dir, b as int)
                        && forall|j: int| 0 <= j < i && #[trigger] is_candidate(rs, active, a, dir, j) ==>
                            gap_toward(a, rs[b as int].1, dir) < gap_toward(a, rs[j].1, dir)
                            || (gap_toward(a, rs[b as int].1, dir) == gap_toward(a, rs[j].1, dir) && b <= j),
                },
            decreases rects.len() - i,
        {
            let c = rects[i].1;
            let cand = rects[i].0 != active && Self::toward(a, c, dir);
            if cand {
                match best {
                    None => { best = Some(i); },
                    Some(b) => {
                        if Self::gap(a, c, dir) < Self::gap(a, rects[b].1, dir) {
                            best = Some(i);
                        }
                    },
                }
            }
            i = i + 1;
        }
        best
    }

    fn rect_index(rects: &Vec<(PaneId, Rect)>, id: PaneId) -> (r: usize)
        requires
            exists|j: int| 0 <= j < rects@.len() && rects@[j].0 == id,
        ensures
            r < rects@.len(),
            rects@[r as int].0 == id,
    {
        let mut i: usize = 0;
        while i < rects.len()
            invariant
                i <= rects.len(),
                exists|j: int| 0 <= j < rects@.len() && rects@[j].0 == id,
                forall|j: int| 0 <= j < i ==> rects@[j].0 != id,
            decreases rects.len() - i,
        {
            if rects[i].0 == id {
                return i;
            }
            i = i + 1;
        }
        0
    }

    fn toward(a: Rect, c: Rect, d: Direction) -> (r: bool)
        ensures
            r == lies_toward(a, c, d),
    {
        let a_right: u32 = a.x as u32 + a.width as u32;
        let a_bottom: u32 = a.y as u32 + a.height as u32;
        let c_right: u32 = c.x as u32 + c.width as u32;
        let c_bottom: u32 = c.y as u32 + c.height as u32;
        match d {
            Direction::Left => c_right <= a.x as u32 && (c.y as u32) < a_bottom && (a.y as u32) < c_bottom,
            Direction::Right => a_right <= c.x as u32 && (c.y as u32) < a_bottom && (a.y as u32) < c_bottom,
            Direction::Up => c_bottom <= a.y as u32 && (c.x as u32) < a_right && (a.x as u32) < c_right,
            Direction::Down => a_bottom <= c.y as u32 && (c.x as u32) < a_right && (a.x as u32) < c_right,
        }
    }

    fn gap(a: Rect, c: Rect, d: Direction) -> (r: i64)
        ensures
            r == gap_toward(a, c, d),
    {
        match d {
            Direction::Left => a.x as i64 - (c.x as i64 + c.width as i64),
            Direction::Right => c.x as i64 - (a.x as i64 + a.width as i64),
            Direction::Up => a.y as i64 - (c.y as i64 + c.height as i64),
            Direction::Down => c.y as i64 - (a.y as i64 + a.height as i64),
        }
    }
}

} // verus!
