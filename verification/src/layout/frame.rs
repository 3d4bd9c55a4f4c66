//! One frame of the tree: dirt spreads downward, the widgets are laid out,
//! the widgets that asked to leave are removed, and what is dirty is painted.

use vstd::prelude::*;
use crate::layout::paint::{
    bfs_from,
    lemma_frame_skip,
    lemma_redraw_some,
    paint_order,
    paintable,
    redraw_of,
};
use crate::layout::remove::{without, without_subtree};
use crate::layout::solver::{
    below_placed,
    children_settled,
    edges,
    laid_out,
    lemma_noted_same_edges,
    node_placed,
    noted_upto,
    walk_noted,
    window_rect,
};
use crate::layout::tree::{
    dirty_above,
    in_subtree,
    is_descendant,
    lemma_same_edges_subtree,
    lemma_subtree_ids,
    lemma_root_exists,
    node_wf,
    placement_ok,
    placement_wf,
    rect_of,
    same_edges,
    tree_wf,
    NodeView,
};
use crate::layout::{Layout, LayoutId};
use crate::math::rect::{lemma_clipped, lemma_window_clipped, Rect};
use crate::math::vec2::Vec2;
use crate::render::painter::Painter;
use crate::widgets::Widget;

verus! {

/// Whether every visible node but the root is clipped to `window`.
pub open spec fn within_window<W>(m: Map<LayoutId, NodeView<W>>, window: Rect) -> bool {
    forall|c: LayoutId|
        #[trigger] m.contains_key(c) && c.0 != 0 && m[c].area_and_pos is Some ==> rect_of(
            m,
            c,
        ).clipped_to(window)
}

/// The ids of `s` that are in `live`, in their order.
pub open spec fn kept(s: Seq<LayoutId>, live: Set<LayoutId>) -> Seq<LayoutId>
    decreases s.len(),
{
    if s.len() == 0 {
        s
    } else if live.contains(s.last()) {
        kept(s.drop_last(), live).push(s.last())
    } else {
        kept(s.drop_last(), live)
    }
}

/// Whether `c` was the parent of a node of `before` that `after` has no more.
pub open spec fn lost_child<W>(
    before: Map<LayoutId, NodeView<W>>,
    after: Map<LayoutId, NodeView<W>>,
    c: LayoutId,
) -> bool {
    exists|d: LayoutId|
        #[trigger] before.contains_key(d) && !after.contains_key(d) && before[d].parent == c
}

/// Whether `after` is the tree `before` without some of its subtrees: a
/// node that is left lists the children that are left, is dirty where it
/// was dirty or has lost a child, and is otherwise as it was.
pub open spec fn trimmed<W>(before: Map<LayoutId, NodeView<W>>, after: Map<LayoutId, NodeView<W>>) -> bool {
    &&& after.dom().subset_of(before.dom())
    &&& forall|c: LayoutId|
        #[trigger] after.contains_key(c) ==> after[c] == (NodeView {
            children: kept(before[c].children, after.dom()),
            redraw_request: before[c].redraw_request || lost_child(before, after, c),
            ..before[c]
        })
}

/// Where the ids of a list are in `live` as they are in `next`, the two
/// keep the same of it.
pub proof fn lemma_kept_same(s: Seq<LayoutId>, live: Set<LayoutId>, next: Set<LayoutId>)
    requires
        forall|i: int| 0 <= i < s.len() ==> next.contains(#[trigger] s[i]) == live.contains(s[i]),
    ensures
        kept(s, next) == kept(s, live),
    decreases s.len(),
{
    if s.len() > 0 {
        let front = s.drop_last();
        assert forall|i: int| 0 <= i < front.len() implies next.contains(#[trigger] front[i])
            == live.contains(front[i]) by {
            assert(front[i] == s[i]);
        }
        lemma_kept_same(front, live, next);
        assert(s.last() == s[s.len() - 1]);
    }
}

/// Where `next` is `live` without `x`, as far as the ids of a list go, it
/// keeps of the list what `live` keeps, but `x`.
pub proof fn lemma_kept_without(s: Seq<LayoutId>, live: Set<LayoutId>, next: Set<LayoutId>, x: LayoutId)
    requires
        forall|i: int|
            0 <= i < s.len() ==> next.contains(#[trigger] s[i]) == (live.contains(s[i]) && s[i] != x),
    ensures
        kept(s, next) == without(kept(s, live), x),
    decreases s.len(),
{
    if s.len() > 0 {
        let front = s.drop_last();
        let last = s.last();
        assert forall|i: int| 0 <= i < front.len() implies next.contains(#[trigger] front[i]) == (
        live.contains(front[i]) && front[i] != x) by {
            assert(front[i] == s[i]);
        }
        lemma_kept_without(front, live, next, x);
        assert(last == s[s.len() - 1]);
        if live.contains(last) {
            let longer = kept(front, live).push(last);
            assert(longer.drop_last() =~= kept(front, live));
            assert(longer.last() == last);
        }
    }
}

/// A list keeps all of itself where all of its ids are in `live`.
pub proof fn lemma_kept_all(s: Seq<LayoutId>, live: Set<LayoutId>)
    requires
        forall|i: int| 0 <= i < s.len() ==> live.contains(#[trigger] s[i]),
    ensures
        kept(s, live) == s,
    decreases s.len(),
{
    if s.len() > 0 {
        let front = s.drop_last();
        assert forall|i: int| 0 <= i < front.len() implies live.contains(#[trigger] front[i]) by {
            assert(front[i] == s[i]);
        }
        lemma_kept_all(front, live);
        assert(s.last() == s[s.len() - 1]);
        assert(front.push(s.last()) =~= s);
    }
}

/// A well-formed tree is itself, trimmed of nothing.
pub proof fn lemma_trimmed_nothing<W>(m: Map<LayoutId, NodeView<W>>, n: nat)
    requires
        tree_wf(m, n),
    ensures
        trimmed(m, m),
{
    assert forall|c: LayoutId| #[trigger] m.contains_key(c) implies m[c] == (NodeView {
        children: kept(m[c].children, m.dom()),
        redraw_request: m[c].redraw_request || lost_child(m, m, c),
        ..m[c]
    }) by {
        assert(node_wf(m, n, c));
        assert forall|i: int| 0 <= i < m[c].children.len() implies m.dom().contains(
            #[trigger] m[c].children[i],
        ) by {
            assert(crate::layout::tree::child_wf(m, c, m[c].children[i]));
        }
        lemma_kept_all(m[c].children, m.dom());
    }
}

/// To take one more subtree out of a trimmed tree leaves a trimmed tree.
pub proof fn lemma_trim_step<W>(
    before: Map<LayoutId, NodeView<W>>,
    cur: Map<LayoutId, NodeView<W>>,
    n: nat,
    x: LayoutId,
)
    requires
        tree_wf(before, n),
        tree_wf(cur, n),
        trimmed(before, cur),
        cur.contains_key(x),
        x.0 != 0,
    ensures
        trimmed(before, without_subtree(cur, x)),
{
    let next = without_subtree(cur, x);
    let p = cur[x].parent;
    assert(node_wf(cur, n, x));
    assert(in_subtree(cur, x, x));
    if in_subtree(cur, x, p) {
        lemma_subtree_ids(cur, x, p);
    }
    assert(next.contains_key(p));
    assert(!next.contains_key(x));
    assert forall|c: LayoutId| #[trigger] next.contains_key(c) implies next[c] == (NodeView {
        children: kept(before[c].children, next.dom()),
        redraw_request: before[c].redraw_request || lost_child(before, next, c),
        ..before[c]
    }) by {
        assert(cur.contains_key(c));
        assert(before.contains_key(c));
        assert(node_wf(before, n, c));
        let s = before[c].children;
        assert(!in_subtree(cur, x, c));
        // A child of `c` that is left in `cur` leaves only where it is `x`.
        assert forall|d: LayoutId|
            cur.contains_key(d) && before[d].parent == c && d != x implies next.contains_key(d) by {
            assert(cur[d].parent == c);
            if in_subtree(cur, x, d) {
                assert(in_subtree(cur, x, c));
            }
        }
        if c == p {
            assert forall|i: int| 0 <= i < s.len() implies next.dom().contains(#[trigger] s[i]) == (
            cur.dom().contains(s[i]) && s[i] != x) by {
                assert(crate::layout::tree::child_wf(before, c, s[i]));
            }
            lemma_kept_without(s, cur.dom(), next.dom(), x);
            assert(before.contains_key(x) && !next.contains_key(x) && before[x].parent == c);
            assert(lost_child(before, next, c));
        } else {
            assert(next[c] == cur[c]);
            assert forall|i: int| 0 <= i < s.len() implies next.dom().contains(#[trigger] s[i])
                == cur.dom().contains(s[i]) by {
                assert(crate::layout::tree::child_wf(before, c, s[i]));
                if s[i] == x {
                    assert(cur[x].parent == before[x].parent);
                }
            }
            lemma_kept_same(s, cur.dom(), next.dom());
            if lost_child(before, next, c) {
                let d = choose|d: LayoutId|
                    #[trigger] before.contains_key(d) && !next.contains_key(d) && before[d].parent
                        == c;
                if cur.contains_key(d) {
                    assert(d == x);
                    assert(cur[x].parent == before[x].parent);
                }
                assert(lost_child(before, cur, c));
            }
            if lost_child(before, cur, c) {
                let d = choose|d: LayoutId|
                    #[trigger] before.contains_key(d) && !cur.contains_key(d) && before[d].parent
                        == c;
                assert(!next.contains_key(d));
                assert(lost_child(before, next, c));
            }
        }
    }
    assert(next.dom().subset_of(before.dom())) by {
        assert forall|c: LayoutId| next.dom().contains(c) implies before.dom().contains(c) by {
            assert(cur.dom().contains(c));
        }
    }
}

/// The tree `after` as it was before it was painted in a frame that began
/// with the tree `before`: a node is dirty where it was dirty or lay below
/// a dirty node, or has lost a child.
pub open spec fn before_paint<W>(before: Map<LayoutId, NodeView<W>>, after: Map<LayoutId, NodeView<W>>) -> Map<
    LayoutId,
    NodeView<W>,
> {
    Map::new(
        |c: LayoutId| after.contains_key(c),
        |c: LayoutId|
            NodeView {
                redraw_request: dirty_above(before, c) || lost_child(before, after, c),
                ..after[c]
            },
    )
}

/// The nodes of two trees with the same edges are painted in the same order.
pub proof fn lemma_same_order<W>(
    a: Map<LayoutId, NodeView<W>>,
    b: Map<LayoutId, NodeView<W>>,
    order: Seq<LayoutId>,
    i: nat,
    fuel: nat,
)
    requires
        a.dom() == b.dom(),
        forall|c: LayoutId| #[trigger] a.contains_key(c) ==> a[c].children == b[c].children,
    ensures
        bfs_from(a, order, i, fuel) == bfs_from(b, order, i, fuel),
    decreases fuel,
{
    if fuel == 0 || i >= order.len() {
    } else {
        let c = order[i as int];
        assert(a.contains_key(c) == b.contains_key(c));
        let next = if a.contains_key(c) {
            order + a[c].children
        } else {
            order
        };
        lemma_same_order(a, b, next, i + 1, (fuel - 1) as nat);
    }
}

/// Two trees whose nodes draw themselves alike, in the same rectangles,
/// have the same part drawn again.
pub proof fn lemma_same_redraw<W>(
    a: Map<LayoutId, NodeView<W>>,
    b: Map<LayoutId, NodeView<W>>,
    order: Seq<LayoutId>,
    k: nat,
)
    requires
        forall|c: LayoutId| paintable(a, c) == #[trigger] paintable(b, c),
        forall|c: LayoutId| #[trigger] paintable(b, c) ==> rect_of(a, c) == rect_of(b, c),
    ensures
        redraw_of(a, order, k) == redraw_of(b, order, k),
    decreases k,
{
    if k == 0 || k > order.len() {
    } else {
        lemma_same_redraw(a, b, order, (k - 1) as nat);
        let c = order[k - 1];
        assert(paintable(a, c) == paintable(b, c));
    }
}

/// Whether `noted` is what a layout of the tree from the root notes to be
/// removed: nothing where the tree has no root or the root is hidden.
/// Else, for some answers of the widgets, at every node that is laid out
/// the children whose answer is `None`, see [`walk_noted`]; for the
/// children of the root this is spelt out by [`noted_upto`].
pub open spec fn root_noted<W>(m: Map<LayoutId, NodeView<W>>, n: nat, noted: Seq<LayoutId>) -> bool {
    if m.contains_key(LayoutId(0)) && m[LayoutId(0)].area_and_pos is Some {
        &&& walk_noted(edges(m), n, LayoutId(0), noted)
        &&& exists|answers: Map<usize, Option<Rect>>| #[trigger]
            noted_upto(
                m,
                m[LayoutId(0)].children,
                answers,
                noted,
                0,
                m[LayoutId(0)].children.len() as int,
            )
    } else {
        noted.len() == 0
    }
}

/// Whether `c` lies in the subtree of one of the noted nodes.
pub open spec fn below_noted<W>(m: Map<LayoutId, NodeView<W>>, noted: Seq<LayoutId>, c: LayoutId) -> bool {
    exists|j: int| 0 <= j < noted.len() && in_subtree(m, #[trigger] noted[j], c)
}

/// Whether `after` holds the nodes of `before` but those in the subtrees
/// of the noted nodes: every noted node is gone with everything below it,
/// and every other node is left.
pub open spec fn left_of<W>(
    before: Map<LayoutId, NodeView<W>>,
    after: Map<LayoutId, NodeView<W>>,
    noted: Seq<LayoutId>,
) -> bool {
    forall|c: LayoutId|
        #[trigger] after.contains_key(c) <==> before.contains_key(c) && !below_noted(before, noted, c)
}

/// What is visible in a trimmed tree was visible before, in the same rectangle.
pub proof fn lemma_trimmed_within<W>(
    before: Map<LayoutId, NodeView<W>>,
    after: Map<LayoutId, NodeView<W>>,
    window: Rect,
)
    requires
        trimmed(before, after),
        within_window(before, window),
    ensures
        within_window(after, window),
{
    assert forall|c: LayoutId|
        #[trigger] after.contains_key(c) && c.0 != 0 && after[c].area_and_pos is Some implies rect_of(
        after,
        c,
    ).clipped_to(window) by {
        assert(before.contains_key(c));
    }
}

/// The node of a subtree that holds a node of the tree is a node of the tree.
pub proof fn lemma_subtree_top<W>(m: Map<LayoutId, NodeView<W>>, n: nat, x: LayoutId, c: LayoutId)
    requires
        tree_wf(m, n),
        m.contains_key(c),
        in_subtree(m, x, c),
    ensures
        m.contains_key(x),
    decreases c.0,
{
    if c != x {
        assert(node_wf(m, n, c));
        lemma_subtree_top(m, n, x, m[c].parent);
    }
}

/// What lies in the subtree of a node of a subtree lies in that subtree.
pub proof fn lemma_subtree_trans<W>(
    m: Map<LayoutId, NodeView<W>>,
    n: nat,
    a: LayoutId,
    b: LayoutId,
    c: LayoutId,
)
    requires
        tree_wf(m, n),
        m.contains_key(c),
        in_subtree(m, a, b),
        in_subtree(m, b, c),
    ensures
        in_subtree(m, a, c),
    decreases c.0,
{
    if c != b {
        assert(node_wf(m, n, c));
        lemma_subtree_trans(m, n, a, b, m[c].parent);
        if c == a {
        }
    }
}

/// A node that is left in a trimmed tree lies in the subtrees in which it lay.
pub proof fn lemma_trimmed_subtree<W>(
    before: Map<LayoutId, NodeView<W>>,
    cur: Map<LayoutId, NodeView<W>>,
    n: nat,
    x: LayoutId,
    c: LayoutId,
)
    requires
        tree_wf(cur, n),
        trimmed(before, cur),
        cur.contains_key(c),
    ensures
        in_subtree(cur, x, c) == in_subtree(before, x, c),
    decreases c.0,
{
    assert(before.contains_key(c));
    if c != x && c.0 != 0 {
        assert(node_wf(cur, n, c));
        lemma_trimmed_subtree(before, cur, n, x, cur[c].parent);
    }
}

/// What lies below one of the first `k + 1` noted nodes lies below one of
/// the first `k`, or below the one after them.
pub proof fn lemma_noted_more<W>(
    m: Map<LayoutId, NodeView<W>>,
    noted: Seq<LayoutId>,
    k: int,
    c: LayoutId,
)
    requires
        0 <= k < noted.len(),
    ensures
        below_noted(m, noted.take(k + 1), c) <==> below_noted(m, noted.take(k), c) || in_subtree(
            m,
            noted[k],
            c,
        ),
{
    let done = noted.take(k);
    let more = noted.take(k + 1);
    assert(more[k] == noted[k]);
    if below_noted(m, more, c) {
        let j = choose|j: int| 0 <= j < more.len() && in_subtree(m, #[trigger] more[j], c);
        if j < k {
            assert(done[j] == more[j]);
        }
    }
    if below_noted(m, done, c) {
        let j = choose|j: int| 0 <= j < done.len() && in_subtree(m, #[trigger] done[j], c);
        assert(more[j] == done[j]);
    }
}

/// The nodes that are left when the node `x` is removed from a trimmed
/// tree, with everything below it: the nodes that were left and do not
/// lie in the subtree that `x` had at first.
pub proof fn lemma_left_one<W>(
    before: Map<LayoutId, NodeView<W>>,
    cur: Map<LayoutId, NodeView<W>>,
    n: nat,
    x: LayoutId,
    c: LayoutId,
)
    requires
        tree_wf(cur, n),
        trimmed(before, cur),
        cur.contains_key(x),
        x.0 != 0,
    ensures
        without_subtree(cur, x).contains_key(c) <==> cur.contains_key(c) && !in_subtree(before, x, c),
{
    assert(node_wf(cur, n, x));
    let p = cur[x].parent;
    if in_subtree(cur, x, p) {
        lemma_subtree_ids(cur, x, p);
    }
    if cur.contains_key(c) {
        lemma_trimmed_subtree(before, cur, n, x, c);
    }
}

/// To remove one noted node more, with everything below it, leaves the
/// nodes but those in the subtrees of the nodes noted up to it.
pub proof fn lemma_left_step<W>(
    before: Map<LayoutId, NodeView<W>>,
    cur: Map<LayoutId, NodeView<W>>,
    after: Map<LayoutId, NodeView<W>>,
    n: nat,
    noted: Seq<LayoutId>,
    k: int,
)
    requires
        tree_wf(before, n),
        tree_wf(cur, n),
        trimmed(before, cur),
        0 <= k < noted.len(),
        left_of(before, cur, noted.take(k)),
        cur.contains_key(noted[k]) ==> after == without_subtree(cur, noted[k]),
        !cur.contains_key(noted[k]) ==> after == cur,
        noted[k].0 != 0,
    ensures
        left_of(before, after, noted.take(k + 1)),
{
    let x = noted[k];
    let done = noted.take(k);
    assert forall|c: LayoutId| #[trigger]
        after.contains_key(c) <==> before.contains_key(c) && !below_noted(
            before,
            noted.take(k + 1),
            c,
        ) by {
        lemma_noted_more(before, noted, k, c);
        assert(cur.contains_key(c) <==> before.contains_key(c) && !below_noted(before, done, c));
        if cur.contains_key(x) {
            lemma_left_one(before, cur, n, x, c);
        } else if cur.contains_key(c) && in_subtree(before, x, c) {
            // `x` is gone, so it lies below a node noted before, and so does `c`.
            lemma_subtree_top(before, n, x, c);
            assert(cur.contains_key(x) <==> before.contains_key(x) && !below_noted(before, done, x));
            let j = choose|j: int| 0 <= j < done.len() && in_subtree(before, #[trigger] done[j], x);
            lemma_subtree_trans(before, n, done[j], x, c);
        }
    }
}

/// Trees with the same edges leave the same nodes when the noted nodes
/// are removed.
pub proof fn lemma_left_same_edges<W>(
    s0: Map<LayoutId, NodeView<W>>,
    s2: Map<LayoutId, NodeView<W>>,
    s3: Map<LayoutId, NodeView<W>>,
    noted: Seq<LayoutId>,
)
    requires
        same_edges(s0, s2),
        left_of(s2, s3, noted),
    ensures
        left_of(s0, s3, noted),
{
    assert forall|c: LayoutId| below_noted(s0, noted, c) == below_noted(s2, noted, c) by {
        if below_noted(s0, noted, c) {
            let j = choose|j: int| 0 <= j < noted.len() && in_subtree(s0, #[trigger] noted[j], c);
            lemma_same_edges_subtree(s0, s2, noted[j], c);
        }
        if below_noted(s2, noted, c) {
            let j = choose|j: int| 0 <= j < noted.len() && in_subtree(s2, #[trigger] noted[j], c);
            lemma_same_edges_subtree(s0, s2, noted[j], c);
        }
    }
    assert forall|c: LayoutId| #[trigger]
        s3.contains_key(c) <==> s0.contains_key(c) && !below_noted(s0, noted, c) by {
        assert(s0.contains_key(c) == s2.contains_key(c));
    }
}

/// Where nothing is dirty, nothing lies below anything dirty.
pub proof fn lemma_nothing_dirty<W>(m: Map<LayoutId, NodeView<W>>, c: LayoutId)
    requires
        forall|d: LayoutId| #[trigger] m.contains_key(d) ==> !m[d].redraw_request,
    ensures
        !dirty_above(m, c),
    decreases c.0,
{
    if m.contains_key(c) && c.0 != 0 && m[c].parent.0 < c.0 {
        lemma_nothing_dirty(m, m[c].parent);
    }
}

/// A tree that was laid out from the root is placed soundly.
pub proof fn lemma_solved_placement<W>(
    before: Map<LayoutId, NodeView<W>>,
    after: Map<LayoutId, NodeView<W>>,
    n: nat,
    clip: Rect,
    window: Rect,
)
    requires
        tree_wf(after, n),
        placement_wf(before),
        laid_out(before, after, LayoutId(0)),
        clip.clipped_to(Rect::spec_window()),
        before.contains_key(LayoutId(0)) && before[LayoutId(0)].area_and_pos is Some ==> below_placed(
            after,
            LayoutId(0),
            clip,
            window,
        ),
        !(before.contains_key(LayoutId(0)) && before[LayoutId(0)].area_and_pos is Some) ==> after
            == before,
    ensures
        placement_wf(after),
{
    let root = LayoutId(0);
    if before.contains_key(root) && before[root].area_and_pos is Some {
        assert(placement_ok(before, root));
        assert forall|c: LayoutId| #[trigger] after.contains_key(c) implies placement_ok(after, c) by {
            if c.0 != 0 {
                lemma_root_exists(after, n, c);
                assert(is_descendant(after, root, c));
                assert(node_placed(after, c, root, clip, window));
                assert(node_wf(after, n, c));
                if after[c].area_and_pos is Some && after[c].parent == root {
                    lemma_clipped(rect_of(after, c), clip, Rect::spec_window());
                }
            }
        }
    }
}

/// Whether `after` is the tree `before` after dirt has spread and the
/// tree has been laid out in a window of the size `window_size`, by a
/// painter for a window of the size `painter_size`.
pub open spec fn framed<W>(
    before: Map<LayoutId, NodeView<W>>,
    after: Map<LayoutId, NodeView<W>>,
    window_size: Vec2,
    painter_size: Vec2,
) -> bool {
    &&& same_edges(before, after)
    &&& placement_wf(after)
    &&& forall|c: LayoutId|
        #[trigger] before.contains_key(c) ==> after[c].redraw_request == dirty_above(before, c)
    &&& before.contains_key(LayoutId(0)) ==> after[LayoutId(0)].area_and_pos
        == before[LayoutId(0)].area_and_pos
    &&& window_size == painter_size ==> within_window(after, window_rect(window_size))
}

/// A tree in which dirt has spread and which was laid out from the root is framed.
pub proof fn lemma_framed<W>(
    s0: Map<LayoutId, NodeView<W>>,
    s1: Map<LayoutId, NodeView<W>>,
    s2: Map<LayoutId, NodeView<W>>,
    n: nat,
    window_size: Vec2,
    painter_size: Vec2,
)
    requires
        tree_wf(s2, n),
        placement_wf(s1),
        s1.dom() == s0.dom(),
        forall|c: LayoutId|
            #[trigger] s0.contains_key(c) ==> s1[c] == (NodeView {
                redraw_request: dirty_above(s0, c),
                ..s0[c]
            }),
        laid_out(s1, s2, LayoutId(0)),
        s1.contains_key(LayoutId(0)) && s1[LayoutId(0)].area_and_pos is Some ==> below_placed(
            s2,
            LayoutId(0),
            window_rect(window_size),
            window_rect(painter_size),
        ),
        !(s1.contains_key(LayoutId(0)) && s1[LayoutId(0)].area_and_pos is Some) ==> s2 == s1,
    ensures
        framed(s0, s2, window_size, painter_size),
{
    let clip = window_rect(window_size);
    lemma_window_clipped(window_size);
    lemma_solved_placement(s1, s2, n, clip, window_rect(painter_size));
    assert forall|c: LayoutId| #[trigger] s0.contains_key(c) implies s2[c].redraw_request
        == dirty_above(s0, c) by {
        assert(s1.contains_key(c));
    }
    assert(s2.dom() =~= s0.dom());
    if s0.contains_key(LayoutId(0)) {
        assert(s1.contains_key(LayoutId(0)));
    }
    if window_size == painter_size {
        lemma_clipped(clip, clip, clip);
        assert forall|c: LayoutId|
            #[trigger] s2.contains_key(c) && c.0 != 0 && s2[c].area_and_pos is Some implies rect_of(
            s2,
            c,
        ).clipped_to(clip) by {
            lemma_root_exists(s2, n, c);
            assert(is_descendant(s2, LayoutId(0), c));
            assert(s1.contains_key(LayoutId(0)));
            if s1[LayoutId(0)].area_and_pos is Some {
                assert(node_placed(s2, c, LayoutId(0), clip, clip));
            } else {
                assert(placement_ok(s1, c));
                lemma_hidden_below(s1, n, c);
            }
        }
    }
}

/// Below a hidden root, every node is hidden.
pub proof fn lemma_hidden_below<W>(m: Map<LayoutId, NodeView<W>>, n: nat, c: LayoutId)
    requires
        tree_wf(m, n),
        placement_wf(m),
        m.contains_key(c),
        m.contains_key(LayoutId(0)),
        m[LayoutId(0)].area_and_pos is None,
    ensures
        m[c].area_and_pos is None,
    decreases c.0,
{
    assert(node_wf(m, n, c));
    assert(placement_ok(m, c));
    if c.0 != 0 {
        lemma_hidden_below(m, n, m[c].parent);
    }
}

impl<W: Widget> Layout<W> {
    /// Spreads the dirt and lays the tree out from the root; notes in
    /// `widget_to_remove` the children that their parent answered `None` for.
    fn frame_layout(
        &mut self,
        painter: &mut Painter,
        window_size: Vec2,
        widget_to_remove: &mut Vec<LayoutId>,
    )
        requires
            old(self).wf(),
            old(widget_to_remove)@.len() == 0,
        ensures
            final(self).wf(),
            final(self).next_id() == old(self).next_id(),
            final(self).aliases() == old(self).aliases(),
            final(self).alias_names() == old(self).alias_names(),
            framed(old(self)@, final(self)@, window_size, old(painter).window_size),
            final(painter).window_size == old(painter).window_size,
            forall|j: int|
                0 <= j < final(widget_to_remove)@.len() ==> (
                #[trigger] final(widget_to_remove)@[j]).0 != 0 && old(self)@.contains_key(
                    final(widget_to_remove)@[j],
                ),
            root_noted(old(self)@, old(self).next_id(), final(widget_to_remove)@),
    {
        let ghost s0 = self@;
        let ghost n = self.next_id();
        self.sperate_dirty_widgets();
        let ghost s1 = self@;
        let parent_window: Rect = Rect::from_size(window_size);
        self.reanrrage_widgets(
            parent_window,
            Vec2::zero(),
            LayoutId::root(),
            painter,
            widget_to_remove,
        );
        proof {
            lemma_framed(s0, s1, self@, n, window_size, old(painter).window_size);
            if s0.contains_key(LayoutId(0)) && s0[LayoutId(0)].area_and_pos is Some {
                assert(s1.contains_key(LayoutId(0)));
                assert(s1[LayoutId(0)].area_and_pos is Some);
                assert(s1[LayoutId(0)].children == s0[LayoutId(0)].children);
                assert(old(widget_to_remove)@ =~= Seq::<LayoutId>::empty());
                let answers = choose|answers: Map<usize, Option<Rect>>| #[trigger]
                    children_settled(
                        s1,
                        self@,
                        LayoutId(0),
                        answers,
                        Seq::<LayoutId>::empty(),
                        widget_to_remove@,
                        parent_window,
                        Vec2::spec_zero(),
                        window_rect(old(painter).window_size),
                    );
                assert(same_edges(s1, s0)) by {
                    assert(s1.dom() =~= s0.dom());
                }
                lemma_noted_same_edges(
                    s1,
                    s0,
                    s0[LayoutId(0)].children,
                    answers,
                    widget_to_remove@,
                    0,
                    s0[LayoutId(0)].children.len() as int,
                );
                assert(edges(s1) =~= edges(s0));
                assert(widget_to_remove@.skip(0) =~= widget_to_remove@);
            } else {
                assert(widget_to_remove@ =~= Seq::<LayoutId>::empty());
            }
            assert forall|j: int| 0 <= j < widget_to_remove@.len() implies (
            #[trigger] widget_to_remove@[j]).0 != 0 && s0.contains_key(widget_to_remove@[j]) by {
                assert(is_descendant(s1, LayoutId(0), widget_to_remove@[j]));
                assert(s1.contains_key(widget_to_remove@[j]));
            }
        }
    }

    /// Removes the noted nodes, each with everything below it; the root
    /// must not be among them. No noted node is in the tree afterwards,
    /// nor any node that lay below one; every other node is left, see
    /// [`left_of`], and is as [`trimmed`] says.
    pub fn remove_noted(&mut self, widget_to_remove: &Vec<LayoutId>)
        requires
            old(self).wf(),
            forall|j: int| 0 <= j < widget_to_remove@.len() ==> (#[trigger] widget_to_remove@[j]).0 != 0,
        ensures
            final(self).wf(),
            final(self).next_id() == old(self).next_id(),
            final(self).aliases() == old(self).aliases(),
            final(self).alias_names() == old(self).alias_names(),
            final(self)@.dom().subset_of(old(self)@.dom()),
            final(self)@.dom() == old(self)@.dom() ==> final(self)@ == old(self)@,
            trimmed(old(self)@, final(self)@),
            left_of(old(self)@, final(self)@, widget_to_remove@),
            old(self)@.contains_key(LayoutId(0)) ==> final(self)@.contains_key(LayoutId(0)) && (
            final(self)@[LayoutId(0)].area_and_pos == old(self)@[LayoutId(0)].area_and_pos) && (
            old(self)@[LayoutId(0)].redraw_request ==> final(self)@[LayoutId(0)].redraw_request),
    {
        let ghost s2 = self@;
        let ghost n = self.next_id();
        let count: usize = widget_to_remove.len();
        let mut k: usize = 0;
        proof {
            lemma_trimmed_nothing(s2, n);
            assert(widget_to_remove@.take(0) =~= Seq::<LayoutId>::empty());
        }
        while k < count
            invariant
                self.wf(),
                n == self.next_id(),
                n == old(self).next_id(),
                s2 == old(self)@,
                tree_wf(s2, n),
                trimmed(s2, self@),
                self.aliases() == old(self).aliases(),
                self.alias_names() == old(self).alias_names(),
                count == widget_to_remove@.len(),
                k <= count,
                self@.dom().subset_of(s2.dom()),
                self@.dom() == s2.dom() ==> self@ == s2,
                left_of(s2, self@, widget_to_remove@.take(k as int)),
                s2.contains_key(LayoutId(0)) ==> self@.contains_key(LayoutId(0)) && (
                self@[LayoutId(0)].area_and_pos == s2[LayoutId(0)].area_and_pos) && (
                s2[LayoutId(0)].redraw_request ==> self@[LayoutId(0)].redraw_request),
                forall|j: int| 0 <= j < count ==> (#[trigger] widget_to_remove@[j]).0 != 0,
            decreases count - k,
        {
            let id: LayoutId = widget_to_remove[k];
            let ghost cur = self@;
            proof {
                assert(widget_to_remove@[k as int].0 != 0);
                if cur.contains_key(id) {
                    assert(node_wf(cur, n, id));
                    assert(crate::layout::tree::in_subtree(cur, id, id));
                    if crate::layout::tree::in_subtree(cur, id, LayoutId(0)) {
                        crate::layout::tree::lemma_subtree_ids(cur, id, LayoutId(0));
                    }
                }
            }
            self.remove_widget(id);
            proof {
                if cur.contains_key(id) {
                    assert(!self@.contains_key(id));
                    assert(s2.contains_key(id));
                    lemma_trim_step(s2, cur, n, id);
                }
                lemma_left_step(s2, cur, self@, n, widget_to_remove@, k as int);
            }
            k = k + 1;
        }
        proof {
            assert(widget_to_remove@.take(count as int) =~= widget_to_remove@);
        }
    }

    /// Runs one frame.
    ///
    /// 1. Every node below a dirty node becomes dirty.
    /// 2. The tree is laid out from the root, in a window of the size
    ///    `window_size`.
    /// 3. The children that their parent answered `None` for are removed,
    ///    each with everything below it: see [`Layout::settle_children`]
    ///    for what is noted and [`Layout::remove_noted`] for what leaves.
    /// 4. The tree is painted: see [`Layout::handle_paint`].
    ///
    /// Returns the part of the window that has to be drawn again: the
    /// bounding box of the rectangles of the nodes that are left and visible
    /// and that were dirty, lay below a dirty node or lost a child. `None`
    /// says that nothing has changed and that the frame can be skipped.
    /// The nodes that are left keep their edges to one another. Every node
    /// is clean afterwards, and every visible node but the root is clipped
    /// to the window.
    pub fn handle_draw(&mut self, painter: &mut Painter, window_size: Vec2) -> (r: Option<Rect>)
        requires
            old(self).wf(),
        ensures
            final(self).wf(),
            final(self).next_id() == old(self).next_id(),
            final(self).aliases() == old(self).aliases(),
            final(self).alias_names() == old(self).alias_names(),
            final(self)@.dom().subset_of(old(self)@.dom()),
            old(self)@.contains_key(LayoutId(0)) ==> final(self)@.contains_key(LayoutId(0)),
            forall|c: LayoutId|
                #[trigger] final(self)@.contains_key(c) ==> final(self)@[c].parent == old(
                    self,
                )@[c].parent && final(self)@[c].children == kept(
                    old(self)@[c].children,
                    final(self)@.dom(),
                ),
            forall|c: LayoutId| #[trigger] final(self)@.contains_key(c) ==> !final(self)@[c].redraw_request,
            r == redraw_of(
                before_paint(old(self)@, final(self)@),
                paint_order(final(self)@, old(self).next_id()),
                paint_order(final(self)@, old(self).next_id()).len(),
            ),
            (forall|c: LayoutId| #[trigger] old(self)@.contains_key(c) ==> !old(self)@[c].redraw_request)
                && final(self)@.dom() == old(self)@.dom() ==> r is None,
            paintable(old(self)@, LayoutId(0)) ==> r is Some,
            window_size == old(painter).window_size ==> within_window(
                final(self)@,
                window_rect(window_size),
            ),
            exists|noted: Seq<LayoutId>|
                {
                    &&& #[trigger] left_of(old(self)@, final(self)@, noted)
                    &&& root_noted(old(self)@, old(self).next_id(), noted)
                    &&& forall|j: int|
                        0 <= j < noted.len() ==> (#[trigger] noted[j]).0 != 0 && old(
                            self,
                        )@.contains_key(noted[j])
                },
    {
        let ghost s0 = self@;
        let ghost n = self.next_id();
        let ghost window = window_rect(window_size);
        let mut widget_to_remove: Vec<LayoutId> = Vec::new();
        self.frame_layout(painter, window_size, &mut widget_to_remove);
        let ghost s2 = self@;
        self.remove_noted(&widget_to_remove);
        let ghost s3 = self@;
        let r: Option<Rect> = self.handle_paint(painter);
        proof {
            lemma_frame_result(s0, s2, s3, n, r);
            lemma_frame_redraw(s0, s2, s3, self@, n, r);
            lemma_left_same_edges(s0, s2, s3, widget_to_remove@);
            assert(left_of(s0, self@, widget_to_remove@));
            if window_size == old(painter).window_size {
                lemma_trimmed_within(s2, s3, window);
                assert(within_window(s3, window));
                assert forall|c: LayoutId|
                    #[trigger] self@.contains_key(c) && c.0 != 0
                        && self@[c].area_and_pos is Some implies rect_of(self@, c).clipped_to(
                    window,
                ) by {
                    assert(s3.contains_key(c));
                }
            }
        }
        r
    }
}

/// What the paint of a framed and trimmed tree returns, told of the tree
/// before the frame and the tree after it.
pub proof fn lemma_frame_redraw<W>(
    s0: Map<LayoutId, NodeView<W>>,
    s2: Map<LayoutId, NodeView<W>>,
    s3: Map<LayoutId, NodeView<W>>,
    s4: Map<LayoutId, NodeView<W>>,
    n: nat,
    r: Option<Rect>,
)
    requires
        same_edges(s0, s2),
        forall|c: LayoutId|
            #[trigger] s0.contains_key(c) ==> s2[c].redraw_request == dirty_above(s0, c),
        trimmed(s2, s3),
        s4.dom() == s3.dom(),
        forall|c: LayoutId|
            #[trigger] s3.contains_key(c) ==> s4[c] == (NodeView {
                widget: s4[c].widget,
                redraw_request: false,
                ..s3[c]
            }),
        r == redraw_of(s3, paint_order(s3, n), paint_order(s3, n).len()),
    ensures
        r == redraw_of(before_paint(s0, s4), paint_order(s4, n), paint_order(s4, n).len()),
        forall|c: LayoutId|
            #[trigger] s4.contains_key(c) ==> s4[c].parent == s0[c].parent && s4[c].children == kept(
                s0[c].children,
                s4.dom(),
            ),
{
    let shown = before_paint(s0, s4);
    assert(s3.contains_key(LayoutId(0)) == s4.contains_key(LayoutId(0)));
    lemma_same_order(s3, s4, seq![LayoutId(0)], 0, n);
    let order = paint_order(s4, n);
    assert(order == paint_order(s3, n));
    assert forall|c: LayoutId| #[trigger] s4.contains_key(c) implies lost_child(s2, s3, c)
        == lost_child(s0, s4, c) by {
        if lost_child(s2, s3, c) {
            let d = choose|d: LayoutId|
                #[trigger] s2.contains_key(d) && !s3.contains_key(d) && s2[d].parent == c;
            assert(s0.contains_key(d) && !s4.contains_key(d) && s0[d].parent == c);
        }
        if lost_child(s0, s4, c) {
            let d = choose|d: LayoutId|
                #[trigger] s0.contains_key(d) && !s4.contains_key(d) && s0[d].parent == c;
            assert(s2.contains_key(d) && !s3.contains_key(d) && s2[d].parent == c);
        }
    }
    assert forall|c: LayoutId| paintable(s3, c) == #[trigger] paintable(shown, c) by {
        assert(shown.contains_key(c) == s3.contains_key(c));
        if s3.contains_key(c) {
            assert(s4.contains_key(c));
            assert(s2.contains_key(c));
            assert(s0.contains_key(c));
        }
    }
    assert forall|c: LayoutId| #[trigger] paintable(shown, c) implies rect_of(s3, c) == rect_of(
        shown,
        c,
    ) by {
        assert(s3.contains_key(c));
    }
    lemma_same_redraw(s3, shown, order, order.len());
    assert forall|c: LayoutId| #[trigger] s4.contains_key(c) implies s4[c].parent == s0[c].parent
        && s4[c].children == kept(s0[c].children, s4.dom()) by {
        assert(s3.contains_key(c));
        assert(s2.contains_key(c));
        assert(s0.contains_key(c));
    }
}

/// What the paint of a framed tree returns: nothing where nothing was
/// dirty and nothing was removed, something where the root draws itself.
pub proof fn lemma_frame_result<W>(
    s0: Map<LayoutId, NodeView<W>>,
    s2: Map<LayoutId, NodeView<W>>,
    s3: Map<LayoutId, NodeView<W>>,
    n: nat,
    r: Option<Rect>,
)
    requires
        s2.dom() == s0.dom(),
        forall|c: LayoutId|
            #[trigger] s0.contains_key(c) ==> s2[c].redraw_request == dirty_above(s0, c),
        s0.contains_key(LayoutId(0)) ==> s2[LayoutId(0)].area_and_pos
            == s0[LayoutId(0)].area_and_pos,
        s3.dom().subset_of(s2.dom()),
        s3.dom() == s2.dom() ==> s3 == s2,
        s2.contains_key(LayoutId(0)) ==> s3.contains_key(LayoutId(0)) && (
        s3[LayoutId(0)].area_and_pos == s2[LayoutId(0)].area_and_pos) && (
        s2[LayoutId(0)].redraw_request ==> s3[LayoutId(0)].redraw_request),
        r == redraw_of(s3, paint_order(s3, n), paint_order(s3, n).len()),
    ensures
        (forall|c: LayoutId| #[trigger] s0.contains_key(c) ==> !s0[c].redraw_request) && s3.dom()
            == s0.dom() ==> r is None,
        paintable(s0, LayoutId(0)) ==> r is Some,
{
    let order = paint_order(s3, n);
    if (forall|c: LayoutId| #[trigger] s0.contains_key(c) ==> !s0[c].redraw_request) && s3.dom()
        == s0.dom() {
        assert(s3 == s2);
        assert forall|c: LayoutId| #[trigger] s3.contains_key(c) implies !s3[c].redraw_request by {
            lemma_nothing_dirty(s0, c);
        }
        lemma_frame_skip(s3, order, order.len());
    }
    if paintable(s0, LayoutId(0)) {
        assert(dirty_above(s0, LayoutId(0)));
        assert(s2.contains_key(LayoutId(0)));
        assert(paintable(s3, LayoutId(0)));
        lemma_first_painted(s3, n);
        lemma_redraw_some(s3, order, order.len(), 0);
    }
}

/// The root is painted first.
pub proof fn lemma_first_painted<W>(m: Map<LayoutId, NodeView<W>>, n: nat)
    requires
        m.contains_key(LayoutId(0)),
    ensures
        paint_order(m, n).len() > 0,
        paint_order(m, n)[0] == LayoutId(0),
{
    lemma_walk_prefix(m, seq![LayoutId(0)], 0, n);
}

/// A walk only appends to its list.
pub proof fn lemma_walk_prefix<W>(
    m: Map<LayoutId, NodeView<W>>,
    order: Seq<LayoutId>,
    i: nat,
    fuel: nat,
)
    ensures
        order.is_prefix_of(crate::layout::paint::bfs_from(m, order, i, fuel)),
    decreases fuel,
{
    if fuel == 0 || i >= order.len() {
    } else {
        let c = order[i as int];
        let next = if m.contains_key(c) {
            order + m[c].children
        } else {
            order
        };
        lemma_walk_prefix(m, next, i + 1, (fuel - 1) as nat);
        assert(order.is_prefix_of(next));
    }
}

} // verus!
