//! The mathematical model of the widget tree, and what follows from its
//! well-formedness.

use vstd::prelude::*;
use crate::layout::LayoutId;
use crate::math::rect::Rect;
use crate::math::vec2::Vec2;

verus! {

/// A node as contracts see it.
pub struct NodeView<W> {
    /// The widget.
    pub widget: W,
    /// The visible rectangle and the position of the top-left corner;
    /// `None` while the widget is hidden.
    pub area_and_pos: Option<(Rect, Vec2)>,
    /// Whether the widget is dirty.
    pub redraw_request: bool,
    /// Whether the widget laid its children out in a rectangle of its own.
    pub window_relative: bool,
    /// The parent; the root is its own parent.
    pub parent: LayoutId,
    /// The children, in the order in which they were added.
    pub children: Seq<LayoutId>,
}

/// Whether `c` is a sound child of `p`: it is a node, not the root, and
/// `p` is its parent.
pub open spec fn child_wf<W>(m: Map<LayoutId, NodeView<W>>, p: LayoutId, c: LayoutId) -> bool {
    &&& m.contains_key(c)
    &&& m[c].parent == p
    &&& c.0 != 0
}

/// Whether the edges at the node `c` are sound.
///
/// - Its id was handed out: it lies below `n`.
/// - The root is its own parent. Any other node has a parent with a
///   smaller id, which is a node and lists it among its children.
/// - No child is listed twice, and every child is a node, not the root,
///   and has `c` as its parent.
pub open spec fn node_wf<W>(m: Map<LayoutId, NodeView<W>>, n: nat, c: LayoutId) -> bool {
    &&& c.0 < n
    &&& c.0 == 0 ==> m[c].parent == c
    &&& c.0 != 0 ==> m[c].parent.0 < c.0 && m.contains_key(m[c].parent)
        && m[m[c].parent].children.contains(c)
    &&& m[c].children.no_duplicates()
    &&& forall|i: int|
        0 <= i < m[c].children.len() ==> child_wf(m, c, #[trigger] m[c].children[i])
}

/// Whether the tree is well formed: the edges at every node are sound, so
/// that `c` is listed as a child of `p` exactly where `p` is the parent of `c`.
pub open spec fn tree_wf<W>(m: Map<LayoutId, NodeView<W>>, n: nat) -> bool {
    &&& n >= 1
    &&& forall|c: LayoutId| #[trigger] m.contains_key(c) ==> node_wf(m, n, c)
}

/// The number of nodes with an id below `k`.
pub open spec fn count_live<W>(m: Map<LayoutId, NodeView<W>>, k: nat) -> nat
    decreases k,
{
    if k == 0 {
        0
    } else {
        count_live(m, (k - 1) as nat) + if m.contains_key(LayoutId((k - 1) as usize)) {
            1nat
        } else {
            0nat
        }
    }
}

/// Whether `c` is `x` or lies below `x`.
pub open spec fn in_subtree<W>(m: Map<LayoutId, NodeView<W>>, x: LayoutId, c: LayoutId) -> bool
    decreases c.0,
{
    if c == x {
        true
    } else if c.0 != 0 && m.contains_key(c) && m[c].parent.0 < c.0 {
        in_subtree(m, x, m[c].parent)
    } else {
        false
    }
}

/// Whether `c` is a node that lies below `x`.
pub open spec fn is_descendant<W>(m: Map<LayoutId, NodeView<W>>, x: LayoutId, c: LayoutId) -> bool {
    m.contains_key(c) && c != x && in_subtree(m, x, c)
}

/// Tree consistency: in a well-formed tree, every node but the root is
/// listed among the children of its parent, and every node that is listed
/// among the children of a node has that node as its parent.
pub proof fn lemma_tree_consistency<W>(m: Map<LayoutId, NodeView<W>>, n: nat, p: LayoutId, c: LayoutId)
    requires
        tree_wf(m, n),
        m.contains_key(p),
        m.contains_key(c),
        c.0 != 0,
    ensures
        m[p].children.contains(c) <==> m[c].parent == p,
{
    assert(node_wf(m, n, c));
    assert(node_wf(m, n, p));
    if m[p].children.contains(c) {
        let i = choose|i: int| 0 <= i < m[p].children.len() && m[p].children[i] == c;
        assert(child_wf(m, p, m[p].children[i]));
    }
}

/// A tree that holds any node holds the root.
pub proof fn lemma_root_exists<W>(m: Map<LayoutId, NodeView<W>>, n: nat, c: LayoutId)
    requires
        tree_wf(m, n),
        m.contains_key(c),
    ensures
        m.contains_key(LayoutId(0)),
        in_subtree(m, LayoutId(0), c),
    decreases c.0,
{
    assert(node_wf(m, n, c));
    if c.0 != 0 {
        lemma_root_exists(m, n, m[c].parent);
    }
}

/// What lies in the subtree of a node has no smaller id than the node.
pub proof fn lemma_subtree_ids<W>(m: Map<LayoutId, NodeView<W>>, x: LayoutId, c: LayoutId)
    requires
        in_subtree(m, x, c),
    ensures
        x.0 <= c.0,
    decreases c.0,
{
    if c != x {
        lemma_subtree_ids(m, x, m[c].parent);
    }
}

/// The subtree of a child lies in the subtree of its parent.
pub proof fn lemma_subtree_of_child<W>(
    m: Map<LayoutId, NodeView<W>>,
    n: nat,
    p: LayoutId,
    child: LayoutId,
    c: LayoutId,
)
    requires
        tree_wf(m, n),
        child_wf(m, p, child),
        m.contains_key(p),
        in_subtree(m, child, c),
    ensures
        in_subtree(m, p, c),
        c != p,
    decreases c.0,
{
    assert(node_wf(m, n, child));
    lemma_subtree_ids(m, child, c);
    if c == child {
        assert(in_subtree(m, p, m[c].parent));
    } else {
        lemma_subtree_of_child(m, n, p, child, m[c].parent);
    }
}

/// A node below `x` lies in the subtree of some child of `x`.
pub proof fn lemma_descendant_under_child<W>(
    m: Map<LayoutId, NodeView<W>>,
    n: nat,
    x: LayoutId,
    c: LayoutId,
) -> (i: int)
    requires
        tree_wf(m, n),
        m.contains_key(x),
        is_descendant(m, x, c),
    ensures
        0 <= i < m[x].children.len(),
        in_subtree(m, m[x].children[i], c),
    decreases c.0,
{
    assert(node_wf(m, n, c));
    let p = m[c].parent;
    if p == x {
        let i = choose|i: int| 0 <= i < m[x].children.len() && m[x].children[i] == c;
        i
    } else {
        let i = lemma_descendant_under_child(m, n, x, p);
        assert(node_wf(m, n, x));
        assert(child_wf(m, x, m[x].children[i]));
        if c == m[x].children[i] {
            assert(false);
        }
        i
    }
}

/// The subtrees of two different children of one node share no node:
/// children whose subtrees share one are the same child.
pub proof fn lemma_sibling_subtrees_disjoint<W>(
    m: Map<LayoutId, NodeView<W>>,
    n: nat,
    x: LayoutId,
    a: LayoutId,
    b: LayoutId,
    c: LayoutId,
)
    requires
        tree_wf(m, n),
        m.contains_key(x),
        child_wf(m, x, a),
        child_wf(m, x, b),
        in_subtree(m, a, c),
        in_subtree(m, b, c),
    ensures
        a == b,
    decreases c.0,
{
    assert(node_wf(m, n, a));
    assert(node_wf(m, n, b));
    if a != b {
        if c == a {
            lemma_subtree_ids(m, b, x);
        } else if c == b {
            lemma_subtree_ids(m, a, x);
        } else {
            lemma_sibling_subtrees_disjoint(m, n, x, a, b, m[c].parent);
        }
    }
}

/// The nodes below the first `k` children of `x`, each child after the
/// nodes below it: the order in which a walk that visits every subtree
/// before its root leaves them.
pub open spec fn postorder_below<W>(
    m: Map<LayoutId, NodeView<W>>,
    n: nat,
    x: LayoutId,
    k: nat,
) -> Seq<LayoutId>
    decreases n - x.0, k,
{
    if k == 0 || !m.contains_key(x) || k > m[x].children.len() {
        Seq::empty()
    } else {
        let c = m[x].children[k - 1];
        postorder_below(m, n, x, (k - 1) as nat) + if x.0 < c.0 && c.0 < n && m.contains_key(c) {
            postorder_below(m, n, c, m[c].children.len()).push(c)
        } else {
            Seq::empty()
        }
    }
}

/// The nodes of the subtree of `x` in post-order: every node after all
/// nodes below it, the subtrees of siblings in the order of the siblings.
pub open spec fn postorder<W>(m: Map<LayoutId, NodeView<W>>, n: nat, x: LayoutId) -> Seq<LayoutId> {
    postorder_below(m, n, x, m[x].children.len()).push(x)
}

/// Whether `c` is a node in the subtree of one of the first `k` children of `x`.
pub open spec fn under_first_children<W>(
    m: Map<LayoutId, NodeView<W>>,
    x: LayoutId,
    k: nat,
    c: LayoutId,
) -> bool {
    m.contains_key(c) && exists|i: int|
        0 <= i < k && i < m[x].children.len() && in_subtree(m, #[trigger] m[x].children[i], c)
}

/// The post-order below the first `k` children of a node holds exactly the
/// nodes of their subtrees, each once.
pub proof fn lemma_postorder_below<W>(m: Map<LayoutId, NodeView<W>>, n: nat, x: LayoutId, k: nat)
    requires
        tree_wf(m, n),
        m.contains_key(x),
        k <= m[x].children.len(),
    ensures
        postorder_below(m, n, x, k).no_duplicates(),
        forall|c: LayoutId|
            postorder_below(m, n, x, k).contains(c) <==> under_first_children(m, x, k, c),
    decreases n - x.0, k,
{
    let s = postorder_below(m, n, x, k);
    assert(node_wf(m, n, x));
    if k == 0 {
        assert forall|c: LayoutId| s.contains(c) <==> under_first_children(m, x, k, c) by {}
    } else {
        let ch = m[x].children[k - 1];
        assert(child_wf(m, x, ch));
        assert(node_wf(m, n, ch));
        let before = postorder_below(m, n, x, (k - 1) as nat);
        let below = postorder_below(m, n, ch, m[ch].children.len());
        let part = below.push(ch);
        lemma_postorder_below(m, n, x, (k - 1) as nat);
        lemma_postorder_below(m, n, ch, m[ch].children.len());
        assert(s == before + part);
        // What the part holds: the subtree of the child.
        assert forall|c: LayoutId| part.contains(c) <==> m.contains_key(c) && in_subtree(
            m,
            ch,
            c,
        ) by {
            if part.contains(c) {
                let j = choose|j: int| 0 <= j < part.len() && part[j] == c;
                if j < below.len() {
                    assert(below.contains(c));
                    assert(under_first_children(m, ch, m[ch].children.len(), c));
                    let i = choose|i: int|
                        0 <= i < m[ch].children.len() && in_subtree(
                            m,
                            #[trigger] m[ch].children[i],
                            c,
                        );
                    assert(child_wf(m, ch, m[ch].children[i]));
                    lemma_subtree_of_child(m, n, ch, m[ch].children[i], c);
                }
            }
            if m.contains_key(c) && in_subtree(m, ch, c) {
                if c == ch {
                    assert(part[below.len() as int] == c);
                } else {
                    let i = lemma_descendant_under_child(m, n, ch, c);
                    assert(under_first_children(m, ch, m[ch].children.len(), c));
                    assert(below.contains(c));
                    let j = choose|j: int| 0 <= j < below.len() && below[j] == c;
                    assert(part[j] == c);
                }
            }
        }
        // The part holds nothing twice.
        assert(part.no_duplicates()) by {
            assert forall|i: int, j: int|
                0 <= i < part.len() && 0 <= j < part.len() && i != j implies part[i] != part[j] by {
                if i == below.len() || j == below.len() {
                    let other = if i == below.len() {
                        j
                    } else {
                        i
                    };
                    assert(below.contains(below[other]));
                    assert(under_first_children(m, ch, m[ch].children.len(), below[other]));
                    let q = choose|q: int|
                        0 <= q < m[ch].children.len() && in_subtree(
                            m,
                            #[trigger] m[ch].children[q],
                            below[other],
                        );
                    assert(child_wf(m, ch, m[ch].children[q]));
                    lemma_subtree_of_child(m, n, ch, m[ch].children[q], below[other]);
                }
            }
        }
        // The part shares nothing with what came before.
        assert forall|i: int, j: int| 0 <= i < before.len() && 0 <= j < part.len() implies before[i]
            != part[j] by {
            if before[i] == part[j] {
                let c = before[i];
                assert(before.contains(c));
                assert(part.contains(c));
                assert(under_first_children(m, x, (k - 1) as nat, c));
                let q = choose|q: int|
                    0 <= q < k - 1 && q < m[x].children.len() && in_subtree(
                        m,
                        #[trigger] m[x].children[q],
                        c,
                    );
                assert(child_wf(m, x, m[x].children[q]));
                lemma_sibling_subtrees_disjoint(m, n, x, m[x].children[q], ch, c);
                assert(m[x].children[q] != m[x].children[k - 1]);
            }
        }
        vstd::seq_lib::lemma_no_dup_in_concat(before, part);
        assert forall|c: LayoutId| s.contains(c) <==> under_first_children(m, x, k, c) by {
            if s.contains(c) {
                let j = choose|j: int| 0 <= j < s.len() && s[j] == c;
                if j < before.len() {
                    assert(before.contains(c));
                    assert(under_first_children(m, x, (k - 1) as nat, c));
                    let q = choose|q: int|
                        0 <= q < k - 1 && q < m[x].children.len() && in_subtree(
                            m,
                            #[trigger] m[x].children[q],
                            c,
                        );
                    assert(in_subtree(m, m[x].children[q], c));
                } else {
                    assert(part[j - before.len()] == c);
                    assert(part.contains(c));
                    assert(in_subtree(m, m[x].children[k - 1], c));
                }
            }
            if under_first_children(m, x, k, c) {
                let q = choose|q: int|
                    0 <= q < k && q < m[x].children.len() && in_subtree(
                        m,
                        #[trigger] m[x].children[q],
                        c,
                    );
                if q == k - 1 {
                    assert(part.contains(c));
                    let j = choose|j: int| 0 <= j < part.len() && part[j] == c;
                    assert(s[before.len() + j] == c);
                } else {
                    assert(under_first_children(m, x, (k - 1) as nat, c));
                    assert(before.contains(c));
                    let j = choose|j: int| 0 <= j < before.len() && before[j] == c;
                    assert(s[j] == c);
                }
            }
        }
    }
}

/// Subtree completeness: the post-order of a node holds exactly the nodes
/// of its subtree, the node itself included, and each of them once.
pub proof fn lemma_postorder<W>(m: Map<LayoutId, NodeView<W>>, n: nat, x: LayoutId)
    requires
        tree_wf(m, n),
        m.contains_key(x),
    ensures
        postorder(m, n, x).no_duplicates(),
        postorder_below(m, n, x, m[x].children.len()).no_duplicates(),
        forall|c: LayoutId|
            postorder(m, n, x).contains(c) <==> m.contains_key(c) && in_subtree(m, x, c),
        forall|c: LayoutId|
            postorder_below(m, n, x, m[x].children.len()).contains(c) <==> is_descendant(m, x, c),
{
    let below = postorder_below(m, n, x, m[x].children.len());
    let s = postorder(m, n, x);
    lemma_postorder_below(m, n, x, m[x].children.len());
    assert(node_wf(m, n, x));
    assert forall|c: LayoutId| below.contains(c) <==> is_descendant(m, x, c) by {
        if below.contains(c) {
            assert(under_first_children(m, x, m[x].children.len(), c));
            let q = choose|q: int|
                0 <= q < m[x].children.len() && in_subtree(m, #[trigger] m[x].children[q], c);
            assert(child_wf(m, x, m[x].children[q]));
            lemma_subtree_of_child(m, n, x, m[x].children[q], c);
        }
        if is_descendant(m, x, c) {
            let i = lemma_descendant_under_child(m, n, x, c);
            assert(under_first_children(m, x, m[x].children.len(), c));
        }
    }
    assert forall|c: LayoutId| s.contains(c) <==> m.contains_key(c) && in_subtree(m, x, c) by {
        if s.contains(c) {
            let j = choose|j: int| 0 <= j < s.len() && s[j] == c;
            if j < below.len() {
                assert(below.contains(c));
            }
        }
        if m.contains_key(c) && in_subtree(m, x, c) {
            if c == x {
                assert(s[below.len() as int] == c);
            } else {
                assert(below.contains(c));
                let j = choose|j: int| 0 <= j < below.len() && below[j] == c;
                assert(s[j] == c);
            }
        }
    }
    assert forall|i: int, j: int| 0 <= i < s.len() && 0 <= j < s.len() && i != j implies s[i]
        != s[j] by {
        if i == below.len() {
            assert(below.contains(below[j]));
        }
        if j == below.len() {
            assert(below.contains(below[i]));
        }
    }
}


/// Whether `c` is a node that is dirty or lies below a dirty node.
pub open spec fn dirty_above<W>(m: Map<LayoutId, NodeView<W>>, c: LayoutId) -> bool
    decreases c.0,
{
    m.contains_key(c) && (m[c].redraw_request || (c.0 != 0 && m[c].parent.0 < c.0 && dirty_above(
        m,
        m[c].parent,
    )))
}

/// Dirty propagation: `c` is dirty or lies below a dirty node exactly where
/// some dirty node has `c` in its subtree. So a dirty node makes every node
/// below it dirty, and a node without a dirty node above it stays as it is.
pub proof fn lemma_dirty_above<W>(m: Map<LayoutId, NodeView<W>>, n: nat, c: LayoutId)
    requires
        tree_wf(m, n),
        m.contains_key(c),
    ensures
        dirty_above(m, c) <==> exists|a: LayoutId|
            m.contains_key(a) && m[a].redraw_request && #[trigger] in_subtree(m, a, c),
    decreases c.0,
{
    assert(node_wf(m, n, c));
    if m[c].redraw_request {
        assert(in_subtree(m, c, c));
    } else if c.0 != 0 {
        let p = m[c].parent;
        lemma_dirty_above(m, n, p);
        if dirty_above(m, p) {
            let a = choose|a: LayoutId|
                m.contains_key(a) && m[a].redraw_request && #[trigger] in_subtree(m, a, p);
            assert(in_subtree(m, a, c));
        }
        if exists|a: LayoutId|
            m.contains_key(a) && m[a].redraw_request && #[trigger] in_subtree(m, a, c) {
            let a = choose|a: LayoutId|
                m.contains_key(a) && m[a].redraw_request && #[trigger] in_subtree(m, a, c);
            assert(a != c);
            assert(in_subtree(m, a, p));
        }
    } else {
        if exists|a: LayoutId|
            m.contains_key(a) && m[a].redraw_request && #[trigger] in_subtree(m, a, c) {
            let a = choose|a: LayoutId|
                m.contains_key(a) && m[a].redraw_request && #[trigger] in_subtree(m, a, c);
            assert(a == c);
        }
    }
}

/// The visible rectangle of a node; the rectangle of no extent while it is hidden.
pub open spec fn rect_of<W>(m: Map<LayoutId, NodeView<W>>, c: LayoutId) -> Rect {
    match m[c].area_and_pos {
        Some((area, _)) => area,
        None => Rect::spec_zero(),
    }
}

/// Whether the placement of the node `c` is sound.
///
/// - The root is hidden or lies over the whole window.
/// - Any other node that is visible has a visible parent, and is clipped to
///   the rectangle of its parent unless the parent laid its children out in
///   a rectangle of its own.
pub open spec fn placement_ok<W>(m: Map<LayoutId, NodeView<W>>, c: LayoutId) -> bool {
    if c.0 == 0 {
        m[c].area_and_pos is None || m[c].area_and_pos == Some(
            (Rect::spec_window(), Vec2::spec_zero()),
        )
    } else {
        m[c].area_and_pos is Some ==> {
            let p = m[c].parent;
            &&& m.contains_key(p)
            &&& m[p].area_and_pos is Some
            &&& m[p].window_relative || rect_of(m, c).clipped_to(rect_of(m, p))
        }
    }
}

/// Whether the placement of every node is sound: see [`placement_ok`].
pub open spec fn placement_wf<W>(m: Map<LayoutId, NodeView<W>>) -> bool {
    forall|c: LayoutId| #[trigger] m.contains_key(c) ==> placement_ok(m, c)
}

/// Clip cascade: the rectangle of a visible node is a part of the rectangle
/// of its parent, unless the parent laid its children out in a rectangle of
/// its own.
pub proof fn lemma_clip_cascade<W>(m: Map<LayoutId, NodeView<W>>, c: LayoutId)
    requires
        placement_wf(m),
        m.contains_key(c),
        c.0 != 0,
        m[c].area_and_pos is Some,
        !m[m[c].parent].window_relative,
    ensures
        m.contains_key(m[c].parent),
        m[m[c].parent].area_and_pos is Some,
        rect_of(m, c).spec_intersection(rect_of(m, m[c].parent)) == rect_of(m, c),
{
    assert(placement_ok(m, c));
}

/// Whether the node `c` is placed in `after` as it is in `m`, under a
/// parent that is placed as it is in `m`.
pub open spec fn placement_same<W>(
    m: Map<LayoutId, NodeView<W>>,
    after: Map<LayoutId, NodeView<W>>,
    c: LayoutId,
) -> bool {
    &&& m.contains_key(c)
    &&& after[c].area_and_pos == m[c].area_and_pos
    &&& c.0 != 0 ==> {
        let p = m[c].parent;
        &&& after[c].parent == p
        &&& after.contains_key(p)
        &&& after[p].area_and_pos == m[p].area_and_pos
        &&& after[p].window_relative == m[p].window_relative
    }
}

/// The placement stays sound in a tree of which every node is hidden, or
/// placed as it was under a parent that is placed as it was.
pub proof fn lemma_placement_kept<W>(
    m: Map<LayoutId, NodeView<W>>,
    after: Map<LayoutId, NodeView<W>>,
)
    requires
        placement_wf(m),
        forall|c: LayoutId|
            #[trigger] after.contains_key(c) ==> after[c].area_and_pos is None || placement_same(
                m,
                after,
                c,
            ),
    ensures
        placement_wf(after),
{
    assert forall|c: LayoutId| #[trigger] after.contains_key(c) implies placement_ok(after, c) by {
        if after[c].area_and_pos is Some {
            assert(placement_same(m, after, c));
            assert(placement_ok(m, c));
        }
    }
}


/// Whether two trees have the same nodes with the same edges.
pub open spec fn same_edges<W>(a: Map<LayoutId, NodeView<W>>, b: Map<LayoutId, NodeView<W>>) -> bool {
    &&& a.dom() == b.dom()
    &&& forall|c: LayoutId|
        #[trigger] a.contains_key(c) ==> a[c].parent == b[c].parent && a[c].children
            == b[c].children
}

/// To put a node with the same edges in the place of a node keeps the edges.
pub proof fn lemma_insert_same_edges<W>(
    m: Map<LayoutId, NodeView<W>>,
    id: LayoutId,
    node: NodeView<W>,
)
    requires
        m.contains_key(id),
        node.parent == m[id].parent,
        node.children == m[id].children,
    ensures
        same_edges(m, m.insert(id, node)),
        m.insert(id, node).dom() == m.dom(),
{
    assert(m.insert(id, node).dom() =~= m.dom());
}

/// Trees that have the edges of a third tree have the same edges.
pub proof fn lemma_same_edges_trans<W>(
    a: Map<LayoutId, NodeView<W>>,
    b: Map<LayoutId, NodeView<W>>,
    c: Map<LayoutId, NodeView<W>>,
)
    requires
        same_edges(a, b),
        same_edges(b, c),
    ensures
        same_edges(a, c),
{
    assert forall|d: LayoutId| #[trigger] a.contains_key(d) implies a[d].parent == c[d].parent
        && a[d].children == c[d].children by {
        assert(b.contains_key(d));
    }
}

/// A tree with the edges of a tree with sound edges has sound edges.
pub proof fn lemma_same_edges_wf<W>(
    a: Map<LayoutId, NodeView<W>>,
    b: Map<LayoutId, NodeView<W>>,
    n: nat,
)
    requires
        tree_wf(a, n),
        same_edges(a, b),
    ensures
        tree_wf(b, n),
{
    assert forall|c: LayoutId| #[trigger] b.contains_key(c) implies node_wf(b, n, c) by {
        assert(a.contains_key(c));
        assert(node_wf(a, n, c));
        if c.0 != 0 {
            assert(a.contains_key(a[c].parent));
        }
        assert forall|i: int| 0 <= i < b[c].children.len() implies child_wf(
            b,
            c,
            #[trigger] b[c].children[i],
        ) by {
            assert(child_wf(a, c, a[c].children[i]));
            assert(a.contains_key(a[c].children[i]));
        }
    }
}

/// Trees with the same edges have the same subtrees.
pub proof fn lemma_same_edges_subtree<W>(
    a: Map<LayoutId, NodeView<W>>,
    b: Map<LayoutId, NodeView<W>>,
    x: LayoutId,
    c: LayoutId,
)
    requires
        same_edges(a, b),
    ensures
        in_subtree(a, x, c) == in_subtree(b, x, c),
    decreases c.0,
{
    if c != x && c.0 != 0 && a.contains_key(c) && a[c].parent.0 < c.0 {
        assert(b.contains_key(c));
        lemma_same_edges_subtree(a, b, x, a[c].parent);
    } else if c != x && c.0 != 0 && b.contains_key(c) && b[c].parent.0 < c.0 {
        assert(a.contains_key(c));
    }
}

/// The nodes above `c`, the parent first and the root last.
pub open spec fn chain_up<W>(m: Map<LayoutId, NodeView<W>>, c: LayoutId) -> Seq<LayoutId>
    decreases c.0,
{
    if c.0 != 0 && m.contains_key(c) && m[c].parent.0 < c.0 {
        seq![m[c].parent] + chain_up(m, m[c].parent)
    } else {
        Seq::empty()
    }
}

/// The number of nodes above `c`.
pub open spec fn depth_of<W>(m: Map<LayoutId, NodeView<W>>, c: LayoutId) -> nat
    decreases c.0,
{
    if c.0 != 0 && m.contains_key(c) && m[c].parent.0 < c.0 {
        depth_of(m, m[c].parent) + 1
    } else {
        0
    }
}

/// The largest depth of a node with an id below `k`; 0 where there is none.
pub open spec fn max_depth<W>(m: Map<LayoutId, NodeView<W>>, k: nat) -> nat
    decreases k,
{
    if k == 0 {
        0
    } else {
        let rest = max_depth(m, (k - 1) as nat);
        let id = LayoutId((k - 1) as usize);
        if m.contains_key(id) && depth_of(m, id) > rest {
            depth_of(m, id)
        } else {
            rest
        }
    }
}

/// A node lies less deep than its id is large.
pub proof fn lemma_depth_bound<W>(m: Map<LayoutId, NodeView<W>>, c: LayoutId)
    ensures
        depth_of(m, c) <= c.0,
    decreases c.0,
{
    if c.0 != 0 && m.contains_key(c) && m[c].parent.0 < c.0 {
        lemma_depth_bound(m, m[c].parent);
    }
}

} // verus!
