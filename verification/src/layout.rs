//! The split-pane layout: a binary tree whose leaves are panes and whose
//! inner nodes divide their area in two halves.

use std::collections::HashMap;

use vstd::prelude::*;

use crate::rect::{clipped_rect, rect_within, Rect};

verus! {

broadcast use vstd::std_specs::hash::group_hash_axioms;

/// Identifier of a pane; the number is what the UI shows.
#[derive(Debug, Clone, Copy, PartialEq, Eq, Structural, Hash, PartialOrd, Ord)]
pub struct PaneId(pub usize);

/// How a split divides its area.
#[derive(Debug, Clone, Copy, PartialEq, Eq, Structural)]
pub enum SplitDirection {
    /// A vertical divider: panes are placed left and right.
    Vertical,
    /// A horizontal divider: panes are placed top and bottom.
    Horizontal,
}

/// A node of the layout tree.
#[derive(Debug)]
pub enum LayoutNode {
    Leaf(PaneId),
    Split { direction: SplitDirection, first: Box<LayoutNode>, second: Box<LayoutNode> },
}

/// The layout of panes on screen; never empty.
#[derive(Debug)]
pub struct PaneLayout {
    root: LayoutNode,
}

// ---------------------------------------------------------------------------
// Mathematical model

/// The panes of a tree, left to right (first child before second).
pub open spec fn leaves_of(node: LayoutNode) -> Seq<PaneId>
    decreases node,
{
    match node {
        LayoutNode::Leaf(id) => seq![id],
        LayoutNode::Split { first, second, .. } => leaves_of(*first) + leaves_of(*second),
    }
}

/// The tree after splitting the first leaf (in leaf order) that shows
/// `target`, and whether such a leaf was found.
pub open spec fn split_spec(
    node: LayoutNode,
    target: PaneId,
    new_pane: PaneId,
    direction: SplitDirection,
) -> (LayoutNode, bool)
    decreases node,
{
    match node {
        LayoutNode::Leaf(id) => {
            if id == target {
                (
                    LayoutNode::Split {
                        direction,
                        first: Box::new(LayoutNode::Leaf(id)),
                        second: Box::new(LayoutNode::Leaf(new_pane)),
                    },
                    true,
                )
            } else {
                (LayoutNode::Leaf(id), false)
            }
        },
        LayoutNode::Split { direction: d, first, second } => {
            let (f, found) = split_spec(*first, target, new_pane, direction);
            if found {
                (LayoutNode::Split { direction: d, first: Box::new(f), second }, true)
            } else {
                let (s, found2) = split_spec(*second, target, new_pane, direction);
                (LayoutNode::Split { direction: d, first, second: Box::new(s) }, found2)
            }
        },
    }
}

/// The tree with every leaf showing `target` removed, a split that loses
/// one child being replaced by the other; `None` when nothing is left.
pub open spec fn remove_spec(node: LayoutNode, target: PaneId) -> Option<LayoutNode>
    decreases node,
{
    match node {
        LayoutNode::Leaf(id) => {
            if id == target {
                None
            } else {
                Some(LayoutNode::Leaf(id))
            }
        },
        LayoutNode::Split { direction, first, second } => {
            match (remove_spec(*first, target), remove_spec(*second, target)) {
                (None, None) => None,
                (Some(n), None) => Some(n),
                (None, Some(n)) => Some(n),
                (Some(f), Some(s)) => Some(
                    LayoutNode::Split { direction, first: Box::new(f), second: Box::new(s) },
                ),
            }
        },
    }
}

/// The two halves of `area` for a split: the first half gets the rounded-down
/// half of the width (vertical) or height (horizontal), the second the rest.
pub open spec fn split_area_spec(area: Rect, direction: SplitDirection) -> (Rect, Rect) {
    match direction {
        SplitDirection::Vertical => {
            let first_width = area.width / 2;
            let second_width = (area.width - first_width) as u16;
            (
                clipped_rect(area.x, area.y, first_width, area.height),
                clipped_rect(area.x.saturating_add(first_width), area.y, second_width, area.height),
            )
        },
        SplitDirection::Horizontal => {
            let first_height = area.height / 2;
            let second_height = (area.height - first_height) as u16;
            (
                clipped_rect(area.x, area.y, area.width, first_height),
                clipped_rect(area.x, area.y.saturating_add(first_height), area.width, second_height),
            )
        },
    }
}

/// The rectangle of each pane (by number) when the tree is laid out in
/// `area`; a pane shown twice gets the rectangle of its last leaf.
pub open spec fn rects_spec(node: LayoutNode, area: Rect) -> Map<usize, Rect>
    decreases node,
{
    match node {
        LayoutNode::Leaf(id) => map![id.0 => area],
        LayoutNode::Split { direction, first, second } => {
            let (a, b) = split_area_spec(area, direction);
            rects_spec(*first, a).union_prefer_right(rects_spec(*second, b))
        },
    }
}

/// `k` is the first position of `x` in `s`.
pub open spec fn is_first_position(s: Seq<PaneId>, x: PaneId, k: int) -> bool {
    &&& 0 <= k < s.len()
    &&& s[k] == x
    &&& forall|j: int| 0 <= j < k ==> s[j] != x
}

/// The element after the first occurrence of `x` in `s`, wrapping around.
pub open spec fn cycle_next(s: Seq<PaneId>, x: PaneId) -> Option<PaneId> {
    if s.contains(x) {
        let k = choose|k: int| is_first_position(s, x, k);
        Some(s[(k + 1) % (s.len() as int)])
    } else {
        None
    }
}

/// The element before the first occurrence of `x` in `s`, wrapping around.
pub open spec fn cycle_previous(s: Seq<PaneId>, x: PaneId) -> Option<PaneId> {
    if s.contains(x) {
        let k = choose|k: int| is_first_position(s, x, k);
        Some(s[if k == 0 { s.len() - 1 } else { k - 1 }])
    } else {
        None
    }
}

/// No pane occurs twice.
pub open spec fn distinct_panes(s: Seq<PaneId>) -> bool {
    forall|i: int, j: int| 0 <= i < s.len() && 0 <= j < s.len() && i != j ==> s[i] != s[j]
}

/// The pane numbers of a sequence of panes.
pub open spec fn pane_numbers(s: Seq<PaneId>) -> Set<usize> {
    s.map_values(|p: PaneId| p.0).to_set()
}

impl View for PaneLayout {
    type V = LayoutNode;

    closed spec fn view(&self) -> LayoutNode {
        self.root
    }
}

// ---------------------------------------------------------------------------
// Lemmas

pub(crate) proof fn lemma_leaves_nonempty(node: LayoutNode)
    ensures
        leaves_of(node).len() >= 1,
    decreases node,
{
    match node {
        LayoutNode::Leaf(_) => {},
        LayoutNode::Split { first, second, .. } => {
            lemma_leaves_nonempty(*first);
        },
    }
}

pub(crate) proof fn lemma_split_not_found(node: LayoutNode, t: PaneId, n: PaneId, d: SplitDirection)
    ensures
        !split_spec(node, t, n, d).1 ==> split_spec(node, t, n, d).0 == node,
        split_spec(node, t, n, d).1 == leaves_of(node).contains(t),
    decreases node,
{
    match node {
        LayoutNode::Leaf(id) => {
            assert(leaves_of(node)[0] == id);
        },
        LayoutNode::Split { direction, first, second } => {
            lemma_split_not_found(*first, t, n, d);
            lemma_split_not_found(*second, t, n, d);
            let l1 = leaves_of(*first);
            let l2 = leaves_of(*second);
            assert(leaves_of(node) == l1 + l2);
            if l1.contains(t) {
                let i = choose|i: int| 0 <= i < l1.len() && l1[i] == t;
                assert((l1 + l2)[i] == t);
            } else if l2.contains(t) {
                let i = choose|i: int| 0 <= i < l2.len() && l2[i] == t;
                assert((l1 + l2)[l1.len() + i] == t);
            } else {
                assert forall|i: int| 0 <= i < (l1 + l2).len() implies (l1 + l2)[i] != t by {
                    if i < l1.len() {
                        assert((l1 + l2)[i] == l1[i]);
                    } else {
                        assert((l1 + l2)[i] == l2[i - l1.len()]);
                    }
                }
            }
        },
    }
}

/// Splitting inserts the new pane right after the first occurrence of the target.
pub(crate) proof fn lemma_split_leaves(node: LayoutNode, t: PaneId, n: PaneId, d: SplitDirection)
    requires
        leaves_of(node).contains(t),
    ensures
        exists|k: int|
            is_first_position(leaves_of(node), t, k) && leaves_of(split_spec(node, t, n, d).0)
                == leaves_of(node).insert(k + 1, n),
    decreases node,
{
    lemma_split_not_found(node, t, n, d);
    match node {
        LayoutNode::Leaf(id) => {
            assert(leaves_of(node)[0] == id);
            assert(id == t);
            assert(is_first_position(leaves_of(node), t, 0));
            assert(leaves_of(LayoutNode::Leaf(id)) == seq![id]);
            assert(leaves_of(LayoutNode::Leaf(n)) == seq![n]);
            assert(leaves_of(split_spec(node, t, n, d).0) =~= seq![id] + seq![n]);
            assert(leaves_of(split_spec(node, t, n, d).0) =~= leaves_of(node).insert(1, n));
        },
        LayoutNode::Split { direction, first, second } => {
            let l1 = leaves_of(*first);
            let l2 = leaves_of(*second);
            lemma_split_not_found(*first, t, n, d);
            lemma_split_not_found(*second, t, n, d);
            if l1.contains(t) {
                lemma_split_leaves(*first, t, n, d);
                let k = choose|k: int|
                    is_first_position(l1, t, k) && leaves_of(split_spec(*first, t, n, d).0)
                        == l1.insert(k + 1, n);
                assert(is_first_position(l1 + l2, t, k));
                assert(leaves_of(split_spec(node, t, n, d).0) =~= (l1 + l2).insert(k + 1, n));
            } else {
                lemma_split_leaves(*second, t, n, d);
                let k = choose|k: int|
                    is_first_position(l2, t, k) && leaves_of(split_spec(*second, t, n, d).0)
                        == l2.insert(k + 1, n);
                assert forall|j: int| 0 <= j < l1.len() + k implies (l1 + l2)[j] != t by {
                    if j < l1.len() {
                        assert((l1 + l2)[j] == l1[j]);
                    } else {
                        assert((l1 + l2)[j] == l2[j - l1.len()]);
                    }
                }
                assert(is_first_position(l1 + l2, t, l1.len() + k));
                assert(leaves_of(split_spec(node, t, n, d).0) =~= (l1 + l2).insert(
                    l1.len() + k + 1,
                    n,
                ));
            }
        },
    }
}

/// Removing keeps exactly the leaves that show another pane.
pub(crate) proof fn lemma_remove_leaves(node: LayoutNode, t: PaneId)
    ensures
        remove_spec(node, t).is_none() <==> leaves_of(node).filter(|p: PaneId| p != t).len()
            == 0,
        remove_spec(node, t).is_some() ==> leaves_of(remove_spec(node, t).unwrap())
            == leaves_of(node).filter(|p: PaneId| p != t),
        !leaves_of(node).contains(t) ==> remove_spec(node, t) == Some(node),
    decreases node,
{
    let pred = |p: PaneId| p != t;
    match node {
        LayoutNode::Leaf(id) => {
            reveal_with_fuel(Seq::<_>::filter, 2);
            assert(leaves_of(node)[0] == id);
            assert(seq![id].drop_last() =~= Seq::<PaneId>::empty());
            if id != t {
                assert(seq![id].filter(pred) =~= seq![id]);
            }
        },
        LayoutNode::Split { direction, first, second } => {
            lemma_remove_leaves(*first, t);
            lemma_remove_leaves(*second, t);
            let l1 = leaves_of(*first);
            let l2 = leaves_of(*second);
            Seq::filter_distributes_over_add(l1, l2, pred);
            if !leaves_of(node).contains(t) {
                assert forall|i: int| 0 <= i < l1.len() implies l1[i] != t by {
                    assert((l1 + l2)[i] == l1[i]);
                }
                assert forall|i: int| 0 <= i < l2.len() implies l2[i] != t by {
                    assert((l1 + l2)[l1.len() + i] == l2[i]);
                }
                assert(!l1.contains(t));
                assert(!l2.contains(t));
            }
        },
    }
}

proof fn lemma_filter_excludes(s: Seq<PaneId>, t: PaneId)
    ensures
        !s.filter(|p: PaneId| p != t).contains(t),
{
    let f = s.filter(|p: PaneId| p != t);
    assert forall|i: int| 0 <= i < f.len() implies f[i] != t by {
        s.lemma_filter_pred(|p: PaneId| p != t, i);
    }
}

/// A shown pane has a first position.
pub proof fn lemma_first_position_exists(s: Seq<PaneId>, x: PaneId)
    requires
        s.contains(x),
    ensures
        exists|k: int| is_first_position(s, x, k),
    decreases s.len(),
{
    let d = s.drop_last();
    if d.contains(x) {
        lemma_first_position_exists(d, x);
        let k = choose|k: int| is_first_position(d, x, k);
        assert forall|j: int| 0 <= j < k implies s[j] != x by {
            assert(d[j] == s[j]);
        }
        assert(d[k] == s[k]);
        assert(is_first_position(s, x, k));
    } else {
        let i = choose|i: int| 0 <= i < s.len() && s[i] == x;
        assert forall|j: int| 0 <= j < s.len() - 1 implies s[j] != x by {
            assert(d[j] == s[j]);
        }
        if i < s.len() - 1 {
            assert(s[i] != x);
        }
        assert(is_first_position(s, x, s.len() - 1));
    }
}

proof fn lemma_first_position_unique(s: Seq<PaneId>, x: PaneId, k: int)
    requires
        is_first_position(s, x, k),
    ensures
        s.contains(x),
        (choose|j: int| is_first_position(s, x, j)) == k,
{
    let j = choose|j: int| is_first_position(s, x, j);
    assert(is_first_position(s, x, j));
    if j < k {
        assert(s[j] != x);
    } else if k < j {
        assert(s[k] != x);
    }
}

proof fn lemma_rects_dom(node: LayoutNode, area: Rect)
    ensures
        rects_spec(node, area).dom() == pane_numbers(leaves_of(node)),
    decreases node,
{
    match node {
        LayoutNode::Leaf(id) => {
            assert(leaves_of(node).map_values(|p: PaneId| p.0) =~= seq![id.0]);
            assert(seq![id.0].to_set() =~= set![id.0]) by {
                assert(seq![id.0][0] == id.0);
            }
            assert(rects_spec(node, area).dom() =~= set![id.0]);
        },
        LayoutNode::Split { direction, first, second } => {
            let (a, b) = split_area_spec(area, direction);
            lemma_rects_dom(*first, a);
            lemma_rects_dom(*second, b);
            let l1 = leaves_of(*first);
            let l2 = leaves_of(*second);
            let f = |p: PaneId| p.0;
            assert((l1 + l2).map_values(f) =~= l1.map_values(f) + l2.map_values(f));
            let m1 = l1.map_values(f);
            let m2 = l2.map_values(f);
            assert((m1 + m2).to_set() =~= m1.to_set().union(m2.to_set())) by {
                assert forall|x: usize| (m1 + m2).to_set().contains(x) <==> (m1.to_set().union(
                    m2.to_set(),
                )).contains(x) by {
                    if (m1 + m2).contains(x) {
                        let i = choose|i: int| 0 <= i < (m1 + m2).len() && (m1 + m2)[i] == x;
                        if i < m1.len() {
                            assert(m1[i] == x);
                        } else {
                            assert(m2[i - m1.len()] == x);
                        }
                    }
                    if m1.contains(x) {
                        let i = choose|i: int| 0 <= i < m1.len() && m1[i] == x;
                        assert((m1 + m2)[i] == x);
                    }
                    if m2.contains(x) {
                        let i = choose|i: int| 0 <= i < m2.len() && m2[i] == x;
                        assert((m1 + m2)[m1.len() + i] == x);
                    }
                }
            }
            assert(rects_spec(node, area).dom() =~= pane_numbers(leaves_of(node)));
        },
    }
}


// ---------------------------------------------------------------------------
// Laws

/// Splitting a pane off a shown pane and then removing the new pane gives
/// back the layout one started with (when the new pane was not shown yet);
/// the removal is not refused.
pub proof fn law_remove_undoes_split(
    layout: PaneLayout,
    target: PaneId,
    new_pane: PaneId,
    direction: SplitDirection,
)
    requires
        leaves_of(layout@).contains(target),
        !leaves_of(layout@).contains(new_pane),
    ensures
        split_spec(layout@, target, new_pane, direction).1,
        leaves_of(split_spec(layout@, target, new_pane, direction).0).contains(new_pane),
        exists|i: int|
            0 <= i < leaves_of(split_spec(layout@, target, new_pane, direction).0).len()
                && leaves_of(split_spec(layout@, target, new_pane, direction).0)[i] != new_pane,
        remove_spec(split_spec(layout@, target, new_pane, direction).0, new_pane) == Some(layout@),
{
    let node = layout@;
    lemma_split_not_found(node, target, new_pane, direction);
    lemma_split_leaves(node, target, new_pane, direction);
    lemma_split_then_remove(node, target, new_pane, direction);
    let l = leaves_of(node);
    let k = choose|k: int|
        is_first_position(l, target, k) && leaves_of(split_spec(node, target, new_pane, direction).0)
            == l.insert(k + 1, new_pane);
    let l2 = l.insert(k + 1, new_pane);
    assert(l2[k + 1] == new_pane);
    assert(l2[k] == target);
    assert(target != new_pane);
}

pub(crate) proof fn lemma_split_then_remove(node: LayoutNode, t: PaneId, n: PaneId, d: SplitDirection)
    requires
        leaves_of(node).contains(t),
        !leaves_of(node).contains(n),
    ensures
        remove_spec(split_spec(node, t, n, d).0, n) == Some(node),
    decreases node,
{
    lemma_split_not_found(node, t, n, d);
    match node {
        LayoutNode::Leaf(id) => {
            assert(leaves_of(node)[0] == id);
            assert(id != n);
            assert(id == t);
            assert(remove_spec(LayoutNode::Leaf(id), n) == Some(LayoutNode::Leaf(id)));
            assert(remove_spec(LayoutNode::Leaf(n), n).is_none());
        },
        LayoutNode::Split { direction, first, second } => {
            let l1 = leaves_of(*first);
            let l2 = leaves_of(*second);
            lemma_split_not_found(*first, t, n, d);
            lemma_split_not_found(*second, t, n, d);
            assert forall|i: int| 0 <= i < l1.len() implies l1[i] != n by {
                assert((l1 + l2)[i] == l1[i]);
            }
            assert forall|i: int| 0 <= i < l2.len() implies l2[i] != n by {
                assert((l1 + l2)[l1.len() + i] == l2[i]);
            }
            lemma_remove_leaves(*first, n);
            lemma_remove_leaves(*second, n);
            if l1.contains(t) {
                lemma_split_then_remove(*first, t, n, d);
            } else {
                let i = choose|i: int| 0 <= i < (l1 + l2).len() && (l1 + l2)[i] == t;
                assert(i >= l1.len()) by {
                    if i < l1.len() {
                        assert(l1[i] == t);
                    }
                }
                assert(l2[i - l1.len()] == t);
                lemma_split_then_remove(*second, t, n, d);
            }
        },
    }
}

/// Every pane shown in the layout gets a rectangle, and only those panes do.
pub proof fn law_rects_cover_panes(layout: PaneLayout, area: Rect)
    ensures
        rects_spec(layout@, area).dom() == pane_numbers(leaves_of(layout@)),
{
    lemma_rects_dom(layout@, area);
}

/// Each pane's rectangle lies within the area the layout fills.
pub proof fn law_rects_within_area(layout: PaneLayout, area: Rect)
    requires
        area.x + area.width <= u16::MAX,
        area.y + area.height <= u16::MAX,
    ensures
        forall|k: usize| #[trigger]
            rects_spec(layout@, area).contains_key(k) ==> rect_within(
                rects_spec(layout@, area)[k],
                area,
            ),
{
    lemma_rects_within(layout@, area);
}

proof fn lemma_rects_within(node: LayoutNode, area: Rect)
    requires
        area.x + area.width <= u16::MAX,
        area.y + area.height <= u16::MAX,
    ensures
        forall|k: usize| #[trigger]
            rects_spec(node, area).contains_key(k) ==> rect_within(rects_spec(node, area)[k], area),
    decreases node,
{
    match node {
        LayoutNode::Leaf(id) => {
            assert(rects_spec(node, area) == map![id.0 => area]);
            assert forall|k: usize| #[trigger]
                rects_spec(node, area).contains_key(k) implies rect_within(
                rects_spec(node, area)[k],
                area,
            ) by {
                assert(map![id.0 => area].dom().contains(k));
                assert(k == id.0);
                assert(map![id.0 => area][id.0] == area);
                assert(rect_within(area, area));
            }
        },
        LayoutNode::Split { direction, first, second } => {
            let (a, b) = split_area_spec(area, direction);
            assert(rect_within(a, area));
            assert(rect_within(b, area));
            lemma_rects_within(*first, a);
            lemma_rects_within(*second, b);
            let m1 = rects_spec(*first, a);
            let m2 = rects_spec(*second, b);
            assert forall|k: usize| #[trigger]
                rects_spec(node, area).contains_key(k) implies rect_within(
                rects_spec(node, area)[k],
                area,
            ) by {
                if m2.contains_key(k) {
                    assert(rect_within(m2[k], b));
                } else {
                    assert(m1.contains_key(k));
                    assert(rect_within(m1[k], a));
                }
            }
        },
    }
}

/// Two rectangles share no cell: one lies wholly left of, or above, the
/// other.
pub open spec fn rects_apart(a: Rect, b: Rect) -> bool {
    ||| a.x + a.width <= b.x
    ||| b.x + b.width <= a.x
    ||| a.y + a.height <= b.y
    ||| b.y + b.height <= a.y
}

/// The rectangles of two different panes never share a cell.
pub proof fn law_rects_disjoint(layout: PaneLayout, area: Rect)
    requires
        area.x + area.width <= u16::MAX,
        area.y + area.height <= u16::MAX,
    ensures
        forall|k1: usize, k2: usize|
            #![trigger rects_spec(layout@, area)[k1], rects_spec(layout@, area)[k2]]
            rects_spec(layout@, area).contains_key(k1) && rects_spec(layout@, area).contains_key(k2)
                && k1 != k2 ==> rects_apart(rects_spec(layout@, area)[k1], rects_spec(layout@, area)[k2]),
{
    lemma_rects_disjoint(layout@, area);
}

proof fn lemma_rects_disjoint(node: LayoutNode, area: Rect)
    requires
        area.x + area.width <= u16::MAX,
        area.y + area.height <= u16::MAX,
    ensures
        forall|k1: usize, k2: usize|
            #![trigger rects_spec(node, area)[k1], rects_spec(node, area)[k2]]
            rects_spec(node, area).contains_key(k1) && rects_spec(node, area).contains_key(k2) && k1
                != k2 ==> rects_apart(rects_spec(node, area)[k1], rects_spec(node, area)[k2]),
    decreases node,
{
    match node {
        LayoutNode::Leaf(id) => {
            assert forall|k1: usize, k2: usize|
                #![trigger rects_spec(node, area)[k1], rects_spec(node, area)[k2]]
                rects_spec(node, area).contains_key(k1) && rects_spec(node, area).contains_key(k2)
                    && k1 != k2 implies rects_apart(rects_spec(node, area)[k1], rects_spec(node, area)[k2]) by {
                assert(map![id.0 => area].dom().contains(k1));
                assert(map![id.0 => area].dom().contains(k2));
            }
        },
        LayoutNode::Split { direction, first, second } => {
            let (a, b) = split_area_spec(area, direction);
            lemma_rects_within(*first, a);
            lemma_rects_within(*second, b);
            lemma_rects_disjoint(*first, a);
            lemma_rects_disjoint(*second, b);
            let m1 = rects_spec(*first, a);
            let m2 = rects_spec(*second, b);
            let m = rects_spec(node, area);
            assert forall|k1: usize, k2: usize|
                #![trigger m[k1], m[k2]]
                m.contains_key(k1) && m.contains_key(k2) && k1 != k2 implies rects_apart(m[k1], m[k2]) by {
                if m2.contains_key(k1) && m2.contains_key(k2) {
                    assert(m[k1] == m2[k1] && m[k2] == m2[k2]);
                    assert(rects_apart(m2[k1], m2[k2]));
                } else if !m2.contains_key(k1) && !m2.contains_key(k2) {
                    assert(m[k1] == m1[k1] && m[k2] == m1[k2]);
                    assert(rects_apart(m1[k1], m1[k2]));
                } else if m2.contains_key(k1) {
                    assert(rect_within(m2[k1], b));
                    assert(rect_within(m1[k2], a));
                } else {
                    assert(rect_within(m1[k1], a));
                    assert(rect_within(m2[k2], b));
                }
            }
        },
    }
}

pub(crate) proof fn lemma_filter_distinct(s: Seq<PaneId>, t: PaneId)
    requires
        distinct_panes(s),
    ensures
        distinct_panes(s.filter(|p: PaneId| p != t)),
    decreases s.len(),
{
    reveal(Seq::filter);
    let pred = |p: PaneId| p != t;
    if s.len() > 0 {
        let d = s.drop_last();
        assert forall|i: int, j: int| 0 <= i < d.len() && 0 <= j < d.len() && i != j implies d[i] != d[j] by {
            assert(d[i] == s[i]);
            assert(d[j] == s[j]);
        }
        lemma_filter_distinct(d, t);
        let fd = d.filter(pred);
        if pred(s.last()) {
            let f = fd.push(s.last());
            assert(!fd.contains(s.last())) by {
                if fd.contains(s.last()) {
                    d.lemma_filter_contains_rev(pred, s.last());
                    let j = choose|j: int| 0 <= j < d.len() && d[j] == s.last();
                    assert(s[j] == s[s.len() - 1]);
                }
            }
            assert forall|i: int, j: int| 0 <= i < f.len() && 0 <= j < f.len() && i != j implies f[i] != f[j] by {
                if i == f.len() - 1 {
                    assert(fd.contains(f[j]) || j == f.len() - 1);
                } else if j == f.len() - 1 {
                    assert(fd[i] == f[i]);
                    assert(fd.contains(f[i]));
                }
            }
        }
    }
}

proof fn lemma_pane_numbers_contains(l: Seq<PaneId>, p: PaneId)
    ensures
        pane_numbers(l).contains(p.0) <==> l.contains(p),
{
    let m = l.map_values(|q: PaneId| q.0);
    if l.contains(p) {
        let i = choose|i: int| 0 <= i < l.len() && l[i] == p;
        assert(m[i] == p.0);
        assert(m.contains(p.0));
    }
    if m.to_set().contains(p.0) {
        assert(m.contains(p.0));
        let i = choose|i: int| 0 <= i < m.len() && m[i] == p.0;
        assert(l[i].0 == p.0);
        assert(l[i] == p);
    }
}

proof fn lemma_distinct_halves(l1: Seq<PaneId>, l2: Seq<PaneId>, p: PaneId)
    requires
        distinct_panes(l1 + l2),
    ensures
        distinct_panes(l1),
        distinct_panes(l2),
        l1.contains(p) ==> !l2.contains(p),
{
    let l = l1 + l2;
    assert forall|i: int, j: int| 0 <= i < l1.len() && 0 <= j < l1.len() && i != j implies l1[i] != l1[j] by {
        assert(l[i] == l1[i] && l[j] == l1[j]);
    }
    assert forall|i: int, j: int| 0 <= i < l2.len() && 0 <= j < l2.len() && i != j implies l2[i] != l2[j] by {
        assert(l[l1.len() + i] == l2[i] && l[l1.len() + j] == l2[j]);
    }
    if l1.contains(p) && l2.contains(p) {
        let i = choose|i: int| 0 <= i < l1.len() && l1[i] == p;
        let j = choose|j: int| 0 <= j < l2.len() && l2[j] == p;
        assert(l[i] == p && l[l1.len() + j] == p);
    }
}

proof fn lemma_split_rects(node: LayoutNode, t: PaneId, n: PaneId, d: SplitDirection, area: Rect)
    requires
        distinct_panes(leaves_of(node)),
        leaves_of(node).contains(t),
        !leaves_of(node).contains(n),
    ensures
        rects_spec(split_spec(node, t, n, d).0, area) =~= rects_spec(node, area).insert(
            t.0,
            split_area_spec(rects_spec(node, area)[t.0], d).0,
        ).insert(n.0, split_area_spec(rects_spec(node, area)[t.0], d).1),
    decreases node,
{
    match node {
        LayoutNode::Leaf(id) => {
            assert(leaves_of(node)[0] == id);
            assert(id == t);
            assert(id != n);
            let (a, b) = split_area_spec(area, d);
            let first = LayoutNode::Leaf(t);
            let second = LayoutNode::Leaf(n);
            assert(split_spec(node, t, n, d).0 == LayoutNode::Split {
                direction: d,
                first: Box::new(first),
                second: Box::new(second),
            });
            assert(rects_spec(first, a) == map![t.0 => a]);
            assert(rects_spec(second, b) == map![n.0 => b]);
            assert(rects_spec(node, area) == map![t.0 => area]);
            assert(rects_spec(node, area)[t.0] == area);
        },
        LayoutNode::Split { direction, first, second } => {
            let (a, b) = split_area_spec(area, direction);
            let l1 = leaves_of(*first);
            let l2 = leaves_of(*second);
            let m1 = rects_spec(*first, a);
            let m2 = rects_spec(*second, b);
            lemma_distinct_halves(l1, l2, t);
            lemma_rects_dom(*first, a);
            lemma_rects_dom(*second, b);
            lemma_pane_numbers_contains(l1, t);
            lemma_pane_numbers_contains(l2, t);
            lemma_pane_numbers_contains(l1, n);
            lemma_pane_numbers_contains(l2, n);
            lemma_split_not_found(*first, t, n, d);
            lemma_split_not_found(*second, t, n, d);
            assert(leaves_of(node) == l1 + l2);
            if !l2.contains(n) && l1.contains(n) {
                let i = choose|i: int| 0 <= i < l1.len() && l1[i] == n;
                assert((l1 + l2)[i] == n);
            }
            if l2.contains(n) {
                let i = choose|i: int| 0 <= i < l2.len() && l2[i] == n;
                assert((l1 + l2)[l1.len() + i] == n);
            }
            if l1.contains(t) {
                lemma_split_rects(*first, t, n, d, a);
            } else {
                assert(l2.contains(t)) by {
                    let i = choose|i: int| 0 <= i < (l1 + l2).len() && (l1 + l2)[i] == t;
                    if i < l1.len() {
                        assert(l1[i] == t);
                    } else {
                        assert(l2[i - l1.len()] == t);
                    }
                }
                lemma_split_rects(*second, t, n, d, b);
            }
        },
    }
}

/// Splitting a pane divides its rectangle and leaves every other pane
/// where it was: a vertical split keeps the left half (rounded down) for
/// the pane and gives the rest on the right to the new pane, over the same
/// rows; a horizontal split keeps the top half for the pane and gives the
/// rest below to the new pane, over the same columns.
pub proof fn law_split_divides_the_pane(
    layout: PaneLayout,
    target: PaneId,
    new_pane: PaneId,
    direction: SplitDirection,
    area: Rect,
)
    requires
        distinct_panes(leaves_of(layout@)),
        leaves_of(layout@).contains(target),
        !leaves_of(layout@).contains(new_pane),
        area.x + area.width <= u16::MAX,
        area.y + area.height <= u16::MAX,
    ensures
        rects_spec(split_spec(layout@, target, new_pane, direction).0, area).dom() == rects_spec(
            layout@,
            area,
        ).dom().insert(new_pane.0),
        forall|k: usize|
            #![trigger rects_spec(split_spec(layout@, target, new_pane, direction).0, area)[k]]
            rects_spec(layout@, area).contains_key(k) && k != target.0 ==> rects_spec(
                split_spec(layout@, target, new_pane, direction).0,
                area,
            )[k] == rects_spec(layout@, area)[k],
        direction == SplitDirection::Vertical ==> {
            let r = rects_spec(layout@, area)[target.0];
            let after = rects_spec(split_spec(layout@, target, new_pane, direction).0, area);
            &&& after[target.0] == Rect { x: r.x, y: r.y, width: r.width / 2, height: r.height }
            &&& after[new_pane.0] == Rect {
                x: (r.x + r.width / 2) as u16,
                y: r.y,
                width: (r.width - r.width / 2) as u16,
                height: r.height,
            }
        },
        direction == SplitDirection::Horizontal ==> {
            let r = rects_spec(layout@, area)[target.0];
            let after = rects_spec(split_spec(layout@, target, new_pane, direction).0, area);
            &&& after[target.0] == Rect { x: r.x, y: r.y, width: r.width, height: r.height / 2 }
            &&& after[new_pane.0] == Rect {
                x: r.x,
                y: (r.y + r.height / 2) as u16,
                width: r.width,
                height: (r.height - r.height / 2) as u16,
            }
        },
{
    let node = layout@;
    lemma_split_rects(node, target, new_pane, direction, area);
    lemma_rects_dom(node, area);
    lemma_pane_numbers_contains(leaves_of(node), target);
    lemma_pane_numbers_contains(leaves_of(node), new_pane);
    lemma_rects_within(node, area);
    let r = rects_spec(node, area)[target.0];
    assert(rect_within(r, area));
}

/// A layout always shows at least one pane.
pub proof fn law_layout_never_empty(layout: PaneLayout)
    ensures
        leaves_of(layout@).len() >= 1,
{
    lemma_leaves_nonempty(layout@);
}

/// Splitting off a pane that is not shown yet keeps every pane shown once.
/// With `law_remove_keeps_panes_distinct` and the single pane of a new
/// layout, panes stay distinct over any run of such splits and removals.
pub proof fn law_fresh_split_keeps_panes_distinct(
    layout: PaneLayout,
    target: PaneId,
    new_pane: PaneId,
    direction: SplitDirection,
)
    requires
        distinct_panes(leaves_of(layout@)),
        !leaves_of(layout@).contains(new_pane),
    ensures
        distinct_panes(leaves_of(split_spec(layout@, target, new_pane, direction).0)),
{
    let node = layout@;
    let l = leaves_of(node);
    lemma_split_not_found(node, target, new_pane, direction);
    if l.contains(target) {
        lemma_split_leaves(node, target, new_pane, direction);
        let k = choose|k: int|
            is_first_position(l, target, k) && leaves_of(split_spec(node, target, new_pane, direction).0)
                == l.insert(k + 1, new_pane);
        let l2 = l.insert(k + 1, new_pane);
        assert forall|i: int, j: int|
            0 <= i < l2.len() && 0 <= j < l2.len() && i != j implies l2[i] != l2[j] by {
            let a = if i < k + 1 { i } else { i - 1 };
            let b = if j < k + 1 { j } else { j - 1 };
            if i != k + 1 && j != k + 1 {
                assert(l2[i] == l[a] && l2[j] == l[b]);
            } else if i == k + 1 {
                assert(l2[j] == l[b]);
                assert(l.contains(l[b]));
            } else {
                assert(l2[i] == l[a]);
                assert(l.contains(l[a]));
            }
        }
    }
}

/// Removing a pane keeps every remaining pane shown once.
pub proof fn law_remove_keeps_panes_distinct(layout: PaneLayout, removed: PaneId)
    requires
        distinct_panes(leaves_of(layout@)),
    ensures
        remove_spec(layout@, removed) matches Some(n) ==> distinct_panes(leaves_of(n)),
{
    lemma_remove_leaves(layout@, removed);
    lemma_filter_distinct(leaves_of(layout@), removed);
}

/// Moving to the previous pane undoes moving to the next one, and the other
/// way round, when no pane is shown twice.
pub proof fn law_previous_undoes_next(layout: PaneLayout, current: PaneId)
    requires
        distinct_panes(leaves_of(layout@)),
        leaves_of(layout@).contains(current),
    ensures
        cycle_previous(leaves_of(layout@), cycle_next(leaves_of(layout@), current).unwrap())
            == Some(current),
        cycle_next(leaves_of(layout@), cycle_previous(leaves_of(layout@), current).unwrap())
            == Some(current),
{
    let s = leaves_of(layout@);
    let len = s.len() as int;
    let k = choose|k: int| is_first_position(s, current, k);
    let i = choose|i: int| 0 <= i < s.len() && s[i] == current;
    assert forall|j: int| 0 <= j < i implies s[j] != current by {}
    assert(is_first_position(s, current, i));
    lemma_first_position_unique(s, current, i);
    let nk = (k + 1) % len;
    let next = s[nk];
    assert forall|j: int| 0 <= j < nk implies s[j] != next by {}
    assert(is_first_position(s, next, nk));
    lemma_first_position_unique(s, next, nk);
    if k + 1 < len {
        vstd::arithmetic::div_mod::lemma_small_mod((k + 1) as nat, len as nat);
        assert(nk == k + 1);
    } else {
        vstd::arithmetic::div_mod::lemma_mod_self_0(len);
        assert(nk == 0);
    }
    let pk = if k == 0 { len - 1 } else { k - 1 };
    let prev = s[pk];
    assert forall|j: int| 0 <= j < pk implies s[j] != prev by {}
    assert(is_first_position(s, prev, pk));
    lemma_first_position_unique(s, prev, pk);
    if k == 0 {
        vstd::arithmetic::div_mod::lemma_mod_self_0(len);
        assert((pk + 1) % len == 0);
    } else {
        vstd::arithmetic::div_mod::lemma_small_mod((pk + 1) as nat, len as nat);
        assert((pk + 1) % len == k);
    }
}

// ---------------------------------------------------------------------------
// Executable tree operations

impl LayoutNode {
    /// Whether two trees are the same.
    pub fn same_tree(&self, other: &LayoutNode) -> (r: bool)
        ensures
            r == (*self == *other),
        decreases self,
    {
        match (self, other) {
            (LayoutNode::Leaf(a), LayoutNode::Leaf(b)) => a.0 == b.0,
            (
                LayoutNode::Split { direction: d1, first: f1, second: s1 },
                LayoutNode::Split { direction: d2, first: f2, second: s2 },
            ) => {
                if *d1 != *d2 {
                    return false;
                }
                if !(**f1).same_tree(&**f2) {
                    return false;
                }
                (**s1).same_tree(&**s2)
            },
            _ => false,
        }
    }
}

fn split_node(node: LayoutNode, target: PaneId, new_pane: PaneId, direction: SplitDirection) -> (r:
    (LayoutNode, bool))
    ensures
        r == split_spec(node, target, new_pane, direction),
    decreases node,
{
    match node {
        LayoutNode::Leaf(id) => {
            if id.0 == target.0 {
                (
                    LayoutNode::Split {
                        direction,
                        first: Box::new(LayoutNode::Leaf(id)),
                        second: Box::new(LayoutNode::Leaf(new_pane)),
                    },
                    true,
                )
            } else {
                (LayoutNode::Leaf(id), false)
            }
        },
        LayoutNode::Split { direction: d, first, second } => {
            let ghost first_tree = *first;
            let (f, found) = split_node(*first, target, new_pane, direction);
            if found {
                (LayoutNode::Split { direction: d, first: Box::new(f), second }, true)
            } else {
                proof {
                    lemma_split_not_found(first_tree, target, new_pane, direction);
                }
                let (s, found2) = split_node(*second, target, new_pane, direction);
                (LayoutNode::Split { direction: d, first: Box::new(f), second: Box::new(s) }, found2)
            }
        },
    }
}

fn remove_node(node: &LayoutNode, target: PaneId) -> (r: Option<LayoutNode>)
    ensures
        r == remove_spec(*node, target),
    decreases node,
{
    match node {
        LayoutNode::Leaf(id) => {
            if id.0 == target.0 {
                None
            } else {
                Some(LayoutNode::Leaf(*id))
            }
        },
        LayoutNode::Split { direction, first, second } => {
            let f = remove_node(&**first, target);
            let s = remove_node(&**second, target);
            match (f, s) {
                (None, None) => None,
                (Some(n), None) => Some(n),
                (None, Some(n)) => Some(n),
                (Some(f), Some(s)) => Some(
                    LayoutNode::Split { direction: *direction, first: Box::new(f), second: Box::new(s) },
                ),
            }
        },
    }
}

fn collect_leaves(node: &LayoutNode, leaves: &mut Vec<PaneId>)
    ensures
        final(leaves)@ == old(leaves)@ + leaves_of(*node),
    decreases node,
{
    match node {
        LayoutNode::Leaf(id) => {
            leaves.push(*id);
        },
        LayoutNode::Split { first, second, .. } => {
            collect_leaves(&**first, leaves);
            collect_leaves(&**second, leaves);
            assert(final(leaves)@ =~= old(leaves)@ + leaves_of(*node));
        },
    }
}

fn split_area(area: Rect, direction: SplitDirection) -> (r: (Rect, Rect))
    ensures
        r == split_area_spec(area, direction),
{
    match direction {
        SplitDirection::Vertical => {
            let first_width = area.width / 2;
            let second_width = area.width.saturating_sub(first_width);
            (
                Rect::new(area.x, area.y, first_width, area.height),
                Rect::new(area.x.saturating_add(first_width), area.y, second_width, area.height),
            )
        },
        SplitDirection::Horizontal => {
            let first_height = area.height / 2;
            let second_height = area.height.saturating_sub(first_height);
            (
                Rect::new(area.x, area.y, area.width, first_height),
                Rect::new(area.x, area.y.saturating_add(first_height), area.width, second_height),
            )
        },
    }
}

fn collect_rects(node: &LayoutNode, area: Rect, rects: &mut HashMap<usize, Rect>)
    ensures
        final(rects)@ == old(rects)@.union_prefer_right(rects_spec(*node, area)),
    decreases node,
{
    match node {
        LayoutNode::Leaf(id) => {
            rects.insert(id.0, area);
            assert(final(rects)@ =~= old(rects)@.union_prefer_right(rects_spec(*node, area)));
        },
        LayoutNode::Split { direction, first, second } => {
            let (first_area, second_area) = split_area(area, *direction);
            collect_rects(&**first, first_area, rects);
            collect_rects(&**second, second_area, rects);
            assert(final(rects)@ =~= old(rects)@.union_prefer_right(rects_spec(*node, area)));
        },
    }
}

// ---------------------------------------------------------------------------
// The layout

impl PaneLayout {
    /// A layout showing one pane over the whole area.
    pub fn new(initial: PaneId) -> (layout: Self)
        ensures
            layout@ == LayoutNode::Leaf(initial),
            leaves_of(layout@) == seq![initial],
    {
        PaneLayout { root: LayoutNode::Leaf(initial) }
    }

    /// Splits the first leaf showing `target`: it becomes a split in
    /// `direction` with `target` first and `new_pane` second. Returns whether
    /// `target` was found; otherwise nothing changes.
    pub fn split(&mut self, target: PaneId, new_pane: PaneId, direction: SplitDirection) -> (found:
        bool)
        ensures
            found == leaves_of(old(self)@).contains(target),
            (final(self)@, found) == split_spec(old(self)@, target, new_pane, direction),
            !found ==> final(self)@ == old(self)@,
            found ==> exists|k: int|
                is_first_position(leaves_of(old(self)@), target, k) && leaves_of(final(self)@)
                    == leaves_of(old(self)@).insert(k + 1, new_pane),
    {
        let mut root = LayoutNode::Leaf(PaneId(0));
        std::mem::swap(&mut root, &mut self.root);
        let ghost old_root = root;
        let (new_root, found) = split_node(root, target, new_pane, direction);
        self.root = new_root;
        proof {
            lemma_split_not_found(old_root, target, new_pane, direction);
            if found {
                lemma_split_leaves(old_root, target, new_pane, direction);
                let k = choose|k: int|
                    is_first_position(leaves_of(old_root), target, k) && leaves_of(
                        split_spec(old_root, target, new_pane, direction).0,
                    ) == leaves_of(old_root).insert(k + 1, new_pane);
                assert(old_root == old(self)@);
                assert(is_first_position(leaves_of(old(self)@), target, k));
                assert(leaves_of(self@) == leaves_of(old(self)@).insert(k + 1, new_pane));
            }
        }
        found
    }

    /// Removes every leaf showing `pane`, collapsing the splits that lose a
    /// child. Refused (returns `false`, nothing changes) when `pane` is not
    /// shown or when no other pane would be left.
    pub fn remove(&mut self, pane: PaneId) -> (removed: bool)
        ensures
            removed == (leaves_of(old(self)@).contains(pane) && exists|i: int|
                0 <= i < leaves_of(old(self)@).len() && leaves_of(old(self)@)[i] != pane),
            removed ==> Some(final(self)@) == remove_spec(old(self)@, pane),
            !removed ==> final(self)@ == old(self)@,
            leaves_of(final(self)@) == if removed {
                leaves_of(old(self)@).filter(|p: PaneId| p != pane)
            } else {
                leaves_of(old(self)@)
            },
    {
        let ghost old_root = self.root;
        let ghost l = leaves_of(old_root);
        proof {
            lemma_remove_leaves(old_root, pane);
            let f = l.filter(|p: PaneId| p != pane);
            if exists|i: int| 0 <= i < l.len() && l[i] != pane {
                let i = choose|i: int| 0 <= i < l.len() && l[i] != pane;
                l.lemma_filter_contains(|p: PaneId| p != pane, i);
                assert(f.len() > 0);
            } else {
                if f.len() > 0 {
                    l.lemma_filter_contains_rev(|p: PaneId| p != pane, f[0]);
                    assert(f.contains(f[0]));
                }
            }
        }
        match remove_node(&self.root, pane) {
            None => false,
            Some(new_root) => {
                if new_root.same_tree(&self.root) {
                    proof {
                        if l.contains(pane) {
                            lemma_filter_excludes(l, pane);
                        }
                    }
                    false
                } else {
                    self.root = new_root;
                    true
                }
            },
        }
    }

    /// The panes in layout order.
    pub fn leaves(&self) -> (leaves: Vec<PaneId>)
        ensures
            leaves@ == leaves_of(self@),
            leaves@.len() >= 1,
    {
        let mut leaves = Vec::new();
        collect_leaves(&self.root, &mut leaves);
        proof {
            lemma_leaves_nonempty(self.root);
            assert(leaves@ =~= leaves_of(self@));
        }
        leaves
    }

    /// The first pane in layout order (there always is one).
    pub fn first_leaf(&self) -> (first: Option<PaneId>)
        ensures
            first == Some(leaves_of(self@)[0]),
    {
        let leaves = self.leaves();
        Some(leaves[0])
    }

    /// The rectangle of each pane, by pane number, when the layout fills `area`.
    pub fn rects(&self, area: Rect) -> (rects: HashMap<usize, Rect>)
        ensures
            rects@ == rects_spec(self@, area),
    {
        let mut rects = HashMap::new();
        collect_rects(&self.root, area, &mut rects);
        assert(rects@ =~= rects_spec(self@, area));
        rects
    }

    /// The pane after `current` in layout order, wrapping around; `None`
    /// when `current` is not in the layout.
    pub fn next_leaf(&self, current: PaneId) -> (next: Option<PaneId>)
        ensures
            next == cycle_next(leaves_of(self@), current),
    {
        let leaves = self.leaves();
        match position(&leaves, current) {
            None => None,
            Some(index) => {
                let count = leaves.len();
                assert(index < count);
                Some(leaves[(index + 1) % count])
            },
        }
    }

    /// The pane before `current` in layout order, wrapping around; `None`
    /// when `current` is not in the layout.
    pub fn previous_leaf(&self, current: PaneId) -> (previous: Option<PaneId>)
        ensures
            previous == cycle_previous(leaves_of(self@), current),
    {
        let leaves = self.leaves();
        match position(&leaves, current) {
            None => None,
            Some(index) => {
                let before = if index == 0 {
                    leaves.len() - 1
                } else {
                    index - 1
                };
                Some(leaves[before])
            },
        }
    }
}

/// The first index of `x` in `v`.
fn position(v: &Vec<PaneId>, x: PaneId) -> (r: Option<usize>)
    ensures
        r is None ==> !v@.contains(x),
        r matches Some(k) ==> is_first_position(v@, x, k as int) && v@.contains(x) && (choose|
            j: int,
        | is_first_position(v@, x, j)) == k,
{
    let mut i: usize = 0;
    while i < v.len()
        invariant
            i <= v.len(),
            forall|j: int| 0 <= j < i ==> v@[j] != x,
        decreases v.len() - i,
    {
        if v[i].0 == x.0 {
            proof {
                lemma_first_position_unique(v@, x, i as int);
            }
            return Some(i);
        }
        i += 1;
    }
    None
}

} // verus!
