//! The layout solver: it gives every widget its rectangle.
//!
//! A node asks its children for the size they would like, places them in
//! its own rectangle, and has each placed child do the same. A child is
//! clipped to the rectangle of its parent, or, where the parent lays its
//! children out in a rectangle of its own, to that rectangle cut to the window.

use vstd::prelude::*;
use indexmap::{IndexMap, IndexSet};
use std::collections::HashMap;
use crate::layout::ordered::{
    has_key,
    index_map_insert,
    index_map_new,
    index_set_insert,
    index_set_new,
    index_set_pop,
    index_set_swap_remove,
    lemma_swap_removed,
    set_items,
    size_entries,
};
use crate::layout::tree::{
    child_wf,
    in_subtree,
    is_descendant,
    lemma_descendant_under_child,
    lemma_insert_same_edges,
    lemma_same_edges_subtree,
    lemma_same_edges_trans,
    lemma_same_edges_wf,
    lemma_sibling_subtrees_disjoint,
    lemma_subtree_ids,
    lemma_subtree_of_child,
    node_wf,
    rect_of,
    same_edges,
    tree_wf,
    under_first_children,
    NodeView,
};
use crate::layout::{lemma_view_after_set, node_view, Layout, LayoutId};
use crate::math::rect::{lemma_clipped, Rect};
use crate::math::vec2::Vec2;
use crate::render::painter::Painter;
use crate::widgets::Widget;

verus! {

/// Whether `b` is `a` with other placements, widgets and marks of a
/// rectangle of their own: the nodes, their edges and their dirty flags
/// are the same.
pub open spec fn same_shape<W>(a: Map<LayoutId, NodeView<W>>, b: Map<LayoutId, NodeView<W>>) -> bool {
    &&& same_edges(a, b)
    &&& forall|c: LayoutId|
        #[trigger] a.contains_key(c) ==> a[c].redraw_request == b[c].redraw_request
}

/// Whether `b` is `a` after a layout of the subtree of `x`: the shape is
/// the same, nothing outside the subtree has changed, and `x` is placed as
/// it was.
pub open spec fn laid_out<W>(
    a: Map<LayoutId, NodeView<W>>,
    b: Map<LayoutId, NodeView<W>>,
    x: LayoutId,
) -> bool {
    &&& same_shape(a, b)
    &&& forall|c: LayoutId| #[trigger] a.contains_key(c) && !in_subtree(a, x, c) ==> b[c] == a[c]
    &&& a.contains_key(x) ==> b[x].area_and_pos == a[x].area_and_pos
}

/// Whether the node `c`, which lies below `x`, is placed soundly.
///
/// A visible node has a visible parent. It is clipped to the rectangle of
/// its parent (for a child of `x`: to `clip`), unless the parent laid its
/// children out in a rectangle of its own. And it is clipped to `window`
/// where `clip` is.
pub open spec fn node_placed<W>(
    m: Map<LayoutId, NodeView<W>>,
    c: LayoutId,
    x: LayoutId,
    clip: Rect,
    window: Rect,
) -> bool {
    m[c].area_and_pos is Some ==> {
        let p = m[c].parent;
        &&& m[p].area_and_pos is Some
        &&& m[p].window_relative || rect_of(m, c).clipped_to(
            if p == x {
                clip
            } else {
                rect_of(m, p)
            },
        )
        &&& clip.clipped_to(window) ==> rect_of(m, c).clipped_to(window)
    }
}

/// Whether every node in the subtree of `child`, a child of `x`, is placed soundly.
pub open spec fn subtree_placed<W>(
    m: Map<LayoutId, NodeView<W>>,
    child: LayoutId,
    x: LayoutId,
    clip: Rect,
    window: Rect,
) -> bool {
    forall|c: LayoutId|
        m.contains_key(c) && #[trigger] in_subtree(m, child, c) ==> node_placed(
            m,
            c,
            x,
            clip,
            window,
        )
}

/// Whether every node below `x` is placed soundly.
pub open spec fn below_placed<W>(
    m: Map<LayoutId, NodeView<W>>,
    x: LayoutId,
    clip: Rect,
    window: Rect,
) -> bool {
    forall|c: LayoutId| #[trigger] is_descendant(m, x, c) ==> node_placed(m, c, x, clip, window)
}

/// The node `c` as it is hidden where it lies in the subtree of `x`.
pub open spec fn hidden_in<W>(m: Map<LayoutId, NodeView<W>>, x: LayoutId, c: LayoutId) -> NodeView<W> {
    if in_subtree(m, x, c) {
        NodeView { area_and_pos: None, ..m[c] }
    } else {
        m[c]
    }
}

impl<W> Layout<W> {
    /// The number of children of a node.
    pub(crate) fn child_count(&self, id: LayoutId) -> (count: usize)
        requires
            self@.contains_key(id),
        ensures
            count == self@[id].children.len(),
    {
        match &self.nodes[id.0] {
            Some(node) => node.children.len(),
            None => 0,
        }
    }

    /// The child number `k` of a node.
    pub(crate) fn child_at(&self, id: LayoutId, k: usize) -> (child: LayoutId)
        requires
            self@.contains_key(id),
            k < self@[id].children.len(),
        ensures
            child == self@[id].children[k as int],
    {
        match &self.nodes[id.0] {
            Some(node) => node.children[k],
            None => id,
        }
    }

    /// Sets the placement of a node.
    pub(crate) fn set_area_and_pos(&mut self, id: LayoutId, area_and_pos: Option<(Rect, Vec2)>)
        requires
            old(self).structure_wf(),
            old(self)@.contains_key(id),
        ensures
            final(self).structure_wf(),
            final(self).next_id() == old(self).next_id(),
            final(self).aliases() == old(self).aliases(),
            final(self).alias_names() == old(self).alias_names(),
            final(self)@ == old(self)@.insert(id, NodeView { area_and_pos, ..old(self)@[id] }),
    {
        let ghost slots = self.nodes@;
        let ghost m = self@;
        match &mut self.nodes[id.0] {
            Some(node) => {
                node.element.area_and_pos = area_and_pos;
            },
            None => {},
        }
        proof {
            let node = self.nodes[id.0 as int]->0;
            assert(self.nodes@ =~= slots.update(id.0 as int, Some(node)));
            lemma_view_after_set(slots, self.nodes@, id, node);
            lemma_insert_same_edges(m, id, node_view(node));
            lemma_same_edges_wf(m, self@, self.next_id());
        }
    }

    /// Records whether a node laid its children out in a rectangle of its own.
    pub(crate) fn set_window_relative(&mut self, id: LayoutId, window_relative: bool)
        requires
            old(self).structure_wf(),
            old(self)@.contains_key(id),
        ensures
            final(self).structure_wf(),
            final(self).next_id() == old(self).next_id(),
            final(self).aliases() == old(self).aliases(),
            final(self).alias_names() == old(self).alias_names(),
            final(self)@ == old(self)@.insert(id, NodeView { window_relative, ..old(self)@[id] }),
    {
        let ghost slots = self.nodes@;
        let ghost m = self@;
        match &mut self.nodes[id.0] {
            Some(node) => {
                node.window_relative = window_relative;
            },
            None => {},
        }
        proof {
            let node = self.nodes[id.0 as int]->0;
            assert(self.nodes@ =~= slots.update(id.0 as int, Some(node)));
            lemma_view_after_set(slots, self.nodes@, id, node);
            lemma_insert_same_edges(m, id, node_view(node));
            lemma_same_edges_wf(m, self@, self.next_id());
        }
    }

    /// Hides the node `id` and every node below it.
    pub fn hide_subtree(&mut self, id: LayoutId)
        requires
            old(self).structure_wf(),
            old(self)@.contains_key(id),
        ensures
            final(self).structure_wf(),
            final(self).next_id() == old(self).next_id(),
            final(self).aliases() == old(self).aliases(),
            final(self).alias_names() == old(self).alias_names(),
            final(self)@.dom() == old(self)@.dom(),
            forall|c: LayoutId|
                #[trigger] old(self)@.contains_key(c) ==> final(self)@[c] == hidden_in(
                    old(self)@,
                    id,
                    c,
                ),
        decreases old(self).next_id() - id.0,
    {
        let ghost m = self@;
        let ghost n = self.next_id();
        proof {
            assert(node_wf(m, n, id));
        }
        self.set_area_and_pos(id, None);
        let count: usize = self.child_count(id);
        let mut k: usize = 0;
        proof {
            lemma_insert_same_edges(m, id, NodeView { area_and_pos: None, ..m[id] });
            assert(hidden_upto(m, self@, id, 0));
        }
        while k < count
            invariant
                self.structure_wf(),
                n == self.next_id(),
                n == old(self).next_id(),
                m == old(self)@,
                tree_wf(m, n),
                m.contains_key(id),
                self.aliases() == old(self).aliases(),
                self.alias_names() == old(self).alias_names(),
                count == m[id].children.len(),
                k <= count,
                hidden_upto(m, self@, id, k as nat),
            decreases count - k,
        {
            let ghost cur = self@;
            proof {
                assert(cur.contains_key(id));
                assert(cur[id].children == m[id].children);
            }
            let child: LayoutId = self.child_at(id, k);
            proof {
                assert(node_wf(m, n, id));
                assert(child_wf(m, id, m[id].children[k as int]));
                assert(node_wf(m, n, child));
                assert(cur.contains_key(child));
            }
            self.hide_subtree(child);
            proof {
                lemma_hide_step(m, cur, self@, n, id, k as nat);
            }
            k = k + 1;
        }
        proof {
            lemma_hide_done(m, self@, n, id);
        }
    }
}

/// Whether `cur` is `m` with `x` and the subtrees of its first `k`
/// children hidden.
pub open spec fn hidden_upto<W>(
    m: Map<LayoutId, NodeView<W>>,
    cur: Map<LayoutId, NodeView<W>>,
    x: LayoutId,
    k: nat,
) -> bool {
    &&& same_edges(m, cur)
    &&& forall|c: LayoutId|
        #[trigger] m.contains_key(c) ==> cur[c] == (if c == x || under_first_children(m, x, k, c) {
            NodeView { area_and_pos: None, ..m[c] }
        } else {
            m[c]
        })
}

/// To hide the subtree of the next child is to hide one subtree more.
pub proof fn lemma_hide_step<W>(
    m: Map<LayoutId, NodeView<W>>,
    cur: Map<LayoutId, NodeView<W>>,
    after: Map<LayoutId, NodeView<W>>,
    n: nat,
    x: LayoutId,
    k: nat,
)
    requires
        tree_wf(m, n),
        m.contains_key(x),
        k < m[x].children.len(),
        hidden_upto(m, cur, x, k),
        after.dom() == cur.dom(),
        forall|c: LayoutId|
            #[trigger] cur.contains_key(c) ==> after[c] == hidden_in(cur, m[x].children[k as int], c),
    ensures
        hidden_upto(m, after, x, k + 1),
{
    let child = m[x].children[k as int];
    assert forall|c: LayoutId| #[trigger] m.contains_key(c) implies after[c] == (if c == x
        || under_first_children(m, x, k + 1, c) {
        NodeView { area_and_pos: None, ..m[c] }
    } else {
        m[c]
    }) by {
        assert(cur.contains_key(c));
        lemma_same_edges_subtree(m, cur, child, c);
        if in_subtree(m, child, c) {
            assert(under_first_children(m, x, k + 1, c));
        } else {
            if under_first_children(m, x, k + 1, c) {
                let i = choose|i: int|
                    0 <= i < k + 1 && i < m[x].children.len() && in_subtree(
                        m,
                        #[trigger] m[x].children[i],
                        c,
                    );
                assert(i < k);
                assert(under_first_children(m, x, k, c));
            }
            if under_first_children(m, x, k, c) {
                let i = choose|i: int|
                    0 <= i < k && i < m[x].children.len() && in_subtree(
                        m,
                        #[trigger] m[x].children[i],
                        c,
                    );
                assert(under_first_children(m, x, k + 1, c));
            }
        }
    }
    assert(same_edges(m, after)) by {
        assert(m.dom() =~= after.dom());
        assert forall|c: LayoutId| #[trigger] m.contains_key(c) implies m[c].parent
            == after[c].parent && m[c].children == after[c].children by {
            assert(cur.contains_key(c));
        }
    }
}

/// A tree with a node and the subtrees of all its children hidden is the
/// tree with the subtree of the node hidden.
pub proof fn lemma_hide_done<W>(
    m: Map<LayoutId, NodeView<W>>,
    after: Map<LayoutId, NodeView<W>>,
    n: nat,
    x: LayoutId,
)
    requires
        tree_wf(m, n),
        m.contains_key(x),
        hidden_upto(m, after, x, m[x].children.len()),
    ensures
        after.dom() == m.dom(),
        forall|c: LayoutId| #[trigger] m.contains_key(c) ==> after[c] == hidden_in(m, x, c),
{
    let count = m[x].children.len();
    assert(in_subtree(m, x, x));
    assert forall|c: LayoutId| #[trigger] m.contains_key(c) implies after[c] == hidden_in(
        m,
        x,
        c,
    ) by {
        if c != x {
            if under_first_children(m, x, count, c) {
                let i = choose|i: int|
                    0 <= i < count && i < m[x].children.len() && in_subtree(
                        m,
                        #[trigger] m[x].children[i],
                        c,
                    );
                assert(node_wf(m, n, x));
                assert(child_wf(m, x, m[x].children[i]));
                lemma_subtree_of_child(m, n, x, m[x].children[i], c);
            }
            if in_subtree(m, x, c) {
                let i = lemma_descendant_under_child(m, n, x, c);
                assert(under_first_children(m, x, count, c));
            }
        }
    }
}


/// Whether `after` is `before` with more ids noted behind it, each the id
/// of a node below `x`.
pub open spec fn noted_below<W>(
    m: Map<LayoutId, NodeView<W>>,
    x: LayoutId,
    before: Seq<LayoutId>,
    after: Seq<LayoutId>,
) -> bool {
    &&& before.is_prefix_of(after)
    &&& forall|j: int| before.len() <= j < after.len() ==> is_descendant(m, x, #[trigger] after[j])
}

/// What is noted below a child of `x` is noted below `x`.
pub proof fn lemma_noted_child<W>(
    start: Map<LayoutId, NodeView<W>>,
    placed: Map<LayoutId, NodeView<W>>,
    n: nat,
    x: LayoutId,
    child: LayoutId,
    first: Seq<LayoutId>,
    before: Seq<LayoutId>,
    after: Seq<LayoutId>,
)
    requires
        tree_wf(start, n),
        same_edges(start, placed),
        start.contains_key(x),
        child_wf(start, x, child),
        noted_below(start, x, first, before),
        noted_below(placed, child, before, after),
    ensures
        noted_below(start, x, first, after),
{
    assert forall|j: int| first.len() <= j < after.len() implies is_descendant(
        start,
        x,
        #[trigger] after[j],
    ) by {
        if j < before.len() {
            assert(after[j] == before[j]);
        } else {
            lemma_same_edges_subtree(start, placed, child, after[j]);
            assert(start.contains_key(after[j]));
            lemma_subtree_of_child(start, n, x, child, after[j]);
        }
    }
}

/// Whether the painter `b` is the painter `a` but for the position of the
/// drawing widget.
pub open spec fn only_moved(a: Painter, b: Painter) -> bool {
    b == (Painter { releative_to: b.releative_to, ..a })
}

/// The rectangle of a window of the given size.
pub open spec fn window_rect(size: Vec2) -> Rect {
    Rect { x: 0, y: 0, w: size.x, h: size.y }
}

/// A change inside the subtree of one child of `x` leaves the nodes in the
/// subtree of another child placed soundly.
pub proof fn lemma_sibling_kept<W>(
    a: Map<LayoutId, NodeView<W>>,
    b: Map<LayoutId, NodeView<W>>,
    n: nat,
    x: LayoutId,
    changed: LayoutId,
    other: LayoutId,
    clip: Rect,
    window: Rect,
)
    requires
        tree_wf(a, n),
        a.contains_key(x),
        child_wf(a, x, changed),
        child_wf(a, x, other),
        changed != other,
        same_edges(a, b),
        forall|c: LayoutId| #[trigger] a.contains_key(c) && !in_subtree(a, changed, c) ==> b[c] == a[c],
        subtree_placed(a, other, x, clip, window),
    ensures
        subtree_placed(b, other, x, clip, window),
{
    assert forall|c: LayoutId| b.contains_key(c) && #[trigger] in_subtree(b, other, c) implies node_placed(
        b,
        c,
        x,
        clip,
        window,
    ) by {
        lemma_same_edges_subtree(a, b, other, c);
        assert(a.contains_key(c));
        assert(in_subtree(a, other, c));
        assert(node_placed(a, c, x, clip, window));
        if in_subtree(a, changed, c) {
            lemma_sibling_subtrees_disjoint(a, n, x, changed, other, c);
        }
        assert(b[c] == a[c]);
        assert(node_wf(a, n, c));
        lemma_subtree_of_child(a, n, x, other, c);
        let p = a[c].parent;
        assert(a.contains_key(p));
        if in_subtree(a, changed, p) {
            // The parent lies in the subtree of `other` or is `x`; neither
            // lies in the subtree of `changed`.
            if c == other {
                lemma_subtree_ids(a, changed, p);
                assert(node_wf(a, n, changed));
            } else {
                assert(in_subtree(a, other, p));
                lemma_sibling_subtrees_disjoint(a, n, x, changed, other, p);
            }
        }
        assert(b[p] == a[p]);
    }
}

/// A layout inside the subtree of a node below `x`, after a layout of the
/// subtree of `x`, is a layout of the subtree of `x`.
pub proof fn lemma_laid_out_step<W>(
    a: Map<LayoutId, NodeView<W>>,
    b: Map<LayoutId, NodeView<W>>,
    c: Map<LayoutId, NodeView<W>>,
    n: nat,
    x: LayoutId,
    y: LayoutId,
)
    requires
        tree_wf(a, n),
        laid_out(a, b, x),
        same_shape(b, c),
        a.contains_key(x),
        is_descendant(a, x, y),
        forall|d: LayoutId| #[trigger] b.contains_key(d) && !in_subtree(b, y, d) ==> c[d] == b[d],
    ensures
        laid_out(a, c, x),
{
    assert(same_edges(a, c)) by {
        assert(a.dom() =~= c.dom());
        assert forall|d: LayoutId| #[trigger] a.contains_key(d) implies a[d].parent == c[d].parent
            && a[d].children == c[d].children by {
            assert(b.contains_key(d));
        }
    }
    assert forall|d: LayoutId| #[trigger] a.contains_key(d) implies a[d].redraw_request
        == c[d].redraw_request by {
        assert(b.contains_key(d));
    }
    assert forall|d: LayoutId| #[trigger] a.contains_key(d) && !in_subtree(a, x, d) implies c[d]
        == a[d] by {
        assert(b.contains_key(d));
        lemma_same_edges_subtree(a, b, y, d);
        if in_subtree(a, y, d) {
            lemma_subtree_chain(a, n, x, y, d);
        }
    }
    assert(b.contains_key(x));
    lemma_same_edges_subtree(a, b, y, x);
    if in_subtree(a, y, x) {
        lemma_subtree_ids(a, y, x);
        lemma_subtree_ids(a, x, y);
    }
}

/// What lies in the subtree of a node in the subtree of `x` lies in the
/// subtree of `x`.
pub proof fn lemma_subtree_chain<W>(
    m: Map<LayoutId, NodeView<W>>,
    n: nat,
    x: LayoutId,
    y: LayoutId,
    c: LayoutId,
)
    requires
        in_subtree(m, x, y),
        in_subtree(m, y, c),
    ensures
        in_subtree(m, x, c),
    decreases c.0,
{
    if c != y {
        lemma_subtree_chain(m, n, x, y, m[c].parent);
    }
}

/// Where every node in the subtree of every child of `x` is placed
/// soundly, every node below `x` is.
pub proof fn lemma_children_placed<W>(
    m: Map<LayoutId, NodeView<W>>,
    n: nat,
    x: LayoutId,
    clip: Rect,
    window: Rect,
)
    requires
        tree_wf(m, n),
        m.contains_key(x),
        forall|j: int|
            0 <= j < m[x].children.len() ==> subtree_placed(
                m,
                #[trigger] m[x].children[j],
                x,
                clip,
                window,
            ),
    ensures
        below_placed(m, x, clip, window),
{
    assert forall|c: LayoutId| #[trigger] is_descendant(m, x, c) implies node_placed(
        m,
        c,
        x,
        clip,
        window,
    ) by {
        let j = lemma_descendant_under_child(m, n, x, c);
        assert(subtree_placed(m, m[x].children[j], x, clip, window));
        assert(in_subtree(m, m[x].children[j], c));
    }
}

/// A child that was placed in `area`, clipped to the clip rectangle of its
/// parent `x`, and whose subtree was laid out, is placed soundly with its
/// whole subtree.
pub proof fn lemma_child_placed<W>(
    m: Map<LayoutId, NodeView<W>>,
    n: nat,
    x: LayoutId,
    child: LayoutId,
    parent_window: Rect,
    clip: Rect,
    window: Rect,
)
    requires
        tree_wf(m, n),
        m.contains_key(x),
        child_wf(m, x, child),
        m[x].area_and_pos is Some,
        m[child].area_and_pos is Some,
        rect_of(m, child).clipped_to(clip),
        !m[x].window_relative ==> clip == parent_window,
        m[x].window_relative ==> clip.clipped_to(window),
        below_placed(m, child, rect_of(m, child), window),
    ensures
        subtree_placed(m, child, x, parent_window, window),
{
    let area = rect_of(m, child);
    lemma_clipped(area, clip, window);
    lemma_clipped(area, parent_window, window);
    assert forall|c: LayoutId| m.contains_key(c) && #[trigger] in_subtree(m, child, c) implies node_placed(
        m,
        c,
        x,
        parent_window,
        window,
    ) by {
        if c != child {
            assert(is_descendant(m, child, c));
            assert(node_placed(m, c, child, area, window));
            assert(node_wf(m, n, c));
            let p = m[c].parent;
            assert(in_subtree(m, child, p));
            lemma_subtree_ids(m, child, p);
            assert(node_wf(m, n, child));
            if m[c].area_and_pos is Some {
                lemma_clipped(rect_of(m, c), area, window);
            }
        }
    }
}

/// A child whose whole subtree is hidden is placed soundly with its subtree.
pub proof fn lemma_hidden_placed<W>(
    m: Map<LayoutId, NodeView<W>>,
    x: LayoutId,
    child: LayoutId,
    clip: Rect,
    window: Rect,
)
    requires
        forall|c: LayoutId|
            m.contains_key(c) && #[trigger] in_subtree(m, child, c) ==> m[c].area_and_pos is None,
    ensures
        subtree_placed(m, child, x, clip, window),
{
}

impl<W: Widget> Layout<W> {
    /// Asks every child of `id` for the size it would like, in the order of
    /// the children.
    fn measure_children(&self, id: LayoutId, parent_pos: Vec2, painter: &mut Painter) -> (sizes:
        IndexMap<usize, Vec2>)
        requires
            self.structure_wf(),
            self@.contains_key(id),
        ensures
            only_moved(*old(painter), *final(painter)),
            size_entries(sizes).len() == self@[id].children.len(),
            forall|j: int|
                0 <= j < self@[id].children.len() ==> (#[trigger] size_entries(sizes)[j]).0
                    == self@[id].children[j].0,
    {
        let ghost m = self@;
        let ghost n = self.next_id();
        let mut sizes: IndexMap<usize, Vec2> = index_map_new();
        let count: usize = self.child_count(id);
        let mut k: usize = 0;
        proof {
            assert(node_wf(m, n, id));
        }
        while k < count
            invariant
                self.structure_wf(),
                m == self@,
                n == self.next_id(),
                m.contains_key(id),
                count == m[id].children.len(),
                k <= count,
                only_moved(*old(painter), *painter),
                size_entries(sizes).len() == k,
                forall|j: int|
                    0 <= j < k ==> (#[trigger] size_entries(sizes)[j]).0 == m[id].children[j].0,
            decreases count - k,
        {
            let child: LayoutId = self.child_at(id, k);
            proof {
                assert(node_wf(m, n, id));
                assert(child_wf(m, id, m[id].children[k as int]));
            }
            painter.set_relative_to(parent_pos);
            let size: Vec2 = match &self.nodes[child.0] {
                Some(node) => node.element.widget.size(child, painter, self),
                None => Vec2::zero(),
            };
            proof {
                let entries = size_entries(sizes);
                if has_key(entries, child.0) {
                    let j = choose|j: int| 0 <= j < entries.len() && (#[trigger] entries[j]).0 == child.0;
                    assert(m[id].children[j].0 == m[id].children[k as int].0);
                    assert(m[id].children[j] == m[id].children[k as int]);
                }
            }
            index_map_insert(&mut sizes, child.0, size);
            k = k + 1;
        }
        sizes
    }

    /// Has the widget of `id` place its children.
    fn ask_child_layout(&mut self, id: LayoutId, sizes: IndexMap<usize, Vec2>, area: Rect) -> (response:
        HashMap<usize, Option<Rect>>)
        requires
            old(self).structure_wf(),
            old(self)@.contains_key(id),
        ensures
            final(self).structure_wf(),
            final(self).next_id() == old(self).next_id(),
            final(self).aliases() == old(self).aliases(),
            final(self).alias_names() == old(self).alias_names(),
            final(self)@ == old(self)@.insert(
                id,
                NodeView { widget: final(self)@[id].widget, ..old(self)@[id] },
            ),
    {
        let ghost slots = self.nodes@;
        let ghost m = self@;
        let response: HashMap<usize, Option<Rect>> = match &mut self.nodes[id.0] {
            Some(node) => node.element.widget.handle_child_layout(sizes, area, id),
            None => HashMap::new(),
        };
        proof {
            let node = self.nodes[id.0 as int]->0;
            assert(self.nodes@ =~= slots.update(id.0 as int, Some(node)));
            lemma_view_after_set(slots, self.nodes@, id, node);
            lemma_insert_same_edges(m, id, node_view(node));
            lemma_same_edges_wf(m, self@, self.next_id());
        }
        response
    }
}


/// Where a child is placed whose parent answered `answer` for it: in the
/// rectangle `answer`, moved to the position of the parent and cut to
/// `clip`, with its top-left corner where that of `answer` lies.
pub open spec fn spec_child_placement(answer: Rect, parent_pos: Vec2, clip: Rect) -> (Rect, Vec2) {
    (
        answer.spec_move_by(parent_pos).spec_intersection(clip),
        parent_pos.spec_plus(Vec2 { x: answer.x, y: answer.y }),
    )
}

/// The rectangle and the position of a child whose parent, at
/// `parent_pos`, answered `answer` for it and clips its children to `clip`.
pub fn child_placement(answer: Rect, parent_pos: Vec2, clip: Rect) -> (placed: (Rect, Vec2))
    ensures
        placed == spec_child_placement(answer, parent_pos, clip),
        placed.0.clipped_to(clip),
{
    let child_pos: Vec2 = parent_pos.plus(answer.lt());
    let child_window: Rect = answer.move_by(parent_pos).intersection(clip);
    proof {
        lemma_clipped(answer.spec_move_by(parent_pos), clip, clip);
    }
    (child_window, child_pos)
}

/// The rectangle that a node clips its children to: the rectangle `own`
/// that its widget answered for its own id, moved to the position of the
/// node and cut to the window; without such an answer, the rectangle
/// `parent_window` of the node itself.
pub open spec fn spec_children_clip(
    own: Option<Rect>,
    parent_window: Rect,
    parent_pos: Vec2,
    window: Rect,
) -> Rect {
    match own {
        Some(rect) => rect.spec_move_by(parent_pos).spec_intersection(window),
        None => parent_window,
    }
}

/// The rectangle that a node at `parent_pos` clips its children to.
pub fn children_clip(own: Option<Rect>, parent_window: Rect, parent_pos: Vec2, window: Rect) -> (clip:
    Rect)
    ensures
        clip == spec_children_clip(own, parent_window, parent_pos, window),
        own is Some ==> clip.clipped_to(window),
{
    match own {
        Some(rect) => {
            proof {
                lemma_clipped(rect.spec_move_by(parent_pos), window, window);
            }
            rect.move_by(parent_pos).intersection(window)
        },
        None => parent_window,
    }
}

/// Whether the parent answered with a rectangle for the child `c`.
pub open spec fn has_rect(answers: Map<usize, Option<Rect>>, c: LayoutId) -> bool {
    answers.contains_key(c.0) && answers[c.0] is Some
}

/// Whether the parent answered `None` for the child `c`: the child is to
/// be removed.
pub open spec fn has_none(answers: Map<usize, Option<Rect>>, c: LayoutId) -> bool {
    answers.contains_key(c.0) && answers[c.0] is None
}

/// Whether every node in the subtree of `c` is in `after` as it is in `before`.
pub open spec fn subtree_same<W>(
    before: Map<LayoutId, NodeView<W>>,
    after: Map<LayoutId, NodeView<W>>,
    c: LayoutId,
) -> bool {
    forall|d: LayoutId|
        before.contains_key(d) && #[trigger] in_subtree(before, c, d) ==> after[d] == before[d]
}

/// Whether `id` is noted from the place `base` of the list on.
pub open spec fn noted_from(noted: Seq<LayoutId>, base: int, id: LayoutId) -> bool {
    exists|i: int| base <= i < noted.len() && #[trigger] noted[i] == id
}

/// Whether the child `c` is dealt with as its parent answered.
///
/// - A child with a rectangle lies where [`spec_child_placement`] says, and
///   its id is out of the set of the children that are left.
/// - Any other child is as it was with everything below it, and its id is
///   still in the set.
pub open spec fn child_answered<W>(
    before: Map<LayoutId, NodeView<W>>,
    after: Map<LayoutId, NodeView<W>>,
    c: LayoutId,
    answers: Map<usize, Option<Rect>>,
    items: Seq<usize>,
    parent_pos: Vec2,
    clip: Rect,
) -> bool {
    if has_rect(answers, c) {
        after[c].area_and_pos == Some(spec_child_placement(answers[c.0]->0, parent_pos, clip))
            && !items.contains(c.0)
    } else {
        items.contains(c.0) && subtree_same(before, after, c)
    }
}

/// Whether the first `k` of `children` are dealt with as their parent
/// answered, and the others are as they were with everything below them.
pub open spec fn answered_upto<W>(
    before: Map<LayoutId, NodeView<W>>,
    after: Map<LayoutId, NodeView<W>>,
    children: Seq<LayoutId>,
    answers: Map<usize, Option<Rect>>,
    items: Seq<usize>,
    k: int,
    parent_pos: Vec2,
    clip: Rect,
) -> bool {
    &&& forall|j: int|
        0 <= j < k && j < children.len() ==> child_answered(
            before,
            after,
            #[trigger] children[j],
            answers,
            items,
            parent_pos,
            clip,
        )
    &&& forall|j: int| k <= j < children.len() ==> subtree_same(before, after, #[trigger] children[j])
}

/// Whether what is noted from the place `base` on is what the answers for
/// the first `k` of `children` ask for.
///
/// - A child is noted exactly where its answer is `None`.
/// - Whatever else is noted lies below a child with a rectangle: it was
///   noted when the subtree of that child was laid out.
/// - The children that are noted are noted in the order of the children.
pub open spec fn noted_upto<W>(
    m: Map<LayoutId, NodeView<W>>,
    children: Seq<LayoutId>,
    answers: Map<usize, Option<Rect>>,
    noted: Seq<LayoutId>,
    base: int,
    k: int,
) -> bool {
    &&& 0 <= base <= noted.len()
    &&& forall|a: int|
        0 <= a < children.len() ==> (noted_from(noted, base, #[trigger] children[a]) <==> a < k
            && has_none(answers, children[a]))
    &&& forall|i: int|
        base <= i < noted.len() ==> children.contains(#[trigger] noted[i]) || exists|a: int|
            0 <= a < k && a < children.len() && has_rect(answers, children[a]) && #[trigger] is_descendant(
                m,
                children[a],
                noted[i],
            )
    &&& forall|i: int, j: int, a: int, b: int|
        base <= i < j < noted.len() && 0 <= a < children.len() && 0 <= b < children.len()
            && #[trigger] noted[i] == #[trigger] children[a] && #[trigger] noted[j]
            == #[trigger] children[b] ==> a < b
}

/// The next child is dealt with where it has no rectangle: nothing has
/// changed in the tree.
pub proof fn lemma_answered_skip<W>(
    before: Map<LayoutId, NodeView<W>>,
    cur: Map<LayoutId, NodeView<W>>,
    children: Seq<LayoutId>,
    answers: Map<usize, Option<Rect>>,
    items: Seq<usize>,
    k: int,
    parent_pos: Vec2,
    clip: Rect,
)
    requires
        0 <= k < children.len(),
        answered_upto(before, cur, children, answers, items, k, parent_pos, clip),
        items.contains(children[k].0),
        !has_rect(answers, children[k]),
    ensures
        answered_upto(before, cur, children, answers, items, k + 1, parent_pos, clip),
{
}

/// What is noted stays what the answers ask for when the next child is
/// noted because its answer is `None`, or is passed over because it has
/// no answer.
pub proof fn lemma_noted_skip<W>(
    m: Map<LayoutId, NodeView<W>>,
    children: Seq<LayoutId>,
    answers: Map<usize, Option<Rect>>,
    noted: Seq<LayoutId>,
    noted_after: Seq<LayoutId>,
    base: int,
    k: int,
)
    requires
        0 <= k < children.len(),
        children.no_duplicates(),
        noted_upto(m, children, answers, noted, base, k),
        !has_rect(answers, children[k]),
        has_none(answers, children[k]) ==> noted_after == noted.push(children[k]),
        !has_none(answers, children[k]) ==> noted_after == noted,
    ensures
        noted_upto(m, children, answers, noted_after, base, k + 1),
{
    let child = children[k];
    assert forall|a: int| 0 <= a < children.len() implies (noted_from(
        noted_after,
        base,
        #[trigger] children[a],
    ) <==> a < k + 1 && has_none(answers, children[a])) by {
        let c = children[a];
        if noted_from(noted, base, c) {
            let i = choose|i: int| base <= i < noted.len() && #[trigger] noted[i] == c;
            assert(noted_after[i] == c);
        }
        if noted_from(noted_after, base, c) {
            let i = choose|i: int| base <= i < noted_after.len() && #[trigger] noted_after[i] == c;
            if i < noted.len() {
                assert(noted[i] == c);
            }
        }
        if has_none(answers, child) && a == k {
            assert(noted_after[noted.len() as int] == c);
        }
    }
    assert forall|i: int| base <= i < noted_after.len() implies children.contains(
        #[trigger] noted_after[i],
    ) || exists|a: int|
        0 <= a < k + 1 && a < children.len() && has_rect(answers, children[a]) && #[trigger] is_descendant(
            m,
            children[a],
            noted_after[i],
        ) by {
        if i < noted.len() {
            assert(noted_after[i] == noted[i]);
            if !children.contains(noted[i]) {
                let a = choose|a: int|
                    0 <= a < k && a < children.len() && has_rect(answers, children[a])
                        && #[trigger] is_descendant(m, children[a], noted[i]);
                assert(is_descendant(m, children[a], noted_after[i]));
            }
        } else {
            assert(children[k] == noted_after[i]);
        }
    }
    assert forall|i: int, j: int, a: int, b: int|
        base <= i < j < noted_after.len() && 0 <= a < children.len() && 0 <= b < children.len()
            && #[trigger] noted_after[i] == #[trigger] children[a] && #[trigger] noted_after[j]
            == #[trigger] children[b] implies a < b by {
        assert(noted_after[i] == noted[i]);
        if j < noted.len() {
            assert(noted_after[j] == noted[j]);
        } else {
            assert(noted_from(noted, base, children[a]));
        }
    }
}

/// A node below a child of `x` is no child of `x`.
pub proof fn lemma_descendant_no_child<W>(
    m: Map<LayoutId, NodeView<W>>,
    n: nat,
    x: LayoutId,
    child: LayoutId,
    id: LayoutId,
)
    requires
        tree_wf(m, n),
        m.contains_key(x),
        child_wf(m, x, child),
        is_descendant(m, child, id),
    ensures
        !m[x].children.contains(id),
{
    assert(node_wf(m, n, x));
    assert(node_wf(m, n, child));
    if m[x].children.contains(id) {
        let a = choose|a: int| 0 <= a < m[x].children.len() && m[x].children[a] == id;
        assert(child_wf(m, x, m[x].children[a]));
        assert(in_subtree(m, child, x));
        lemma_subtree_ids(m, child, x);
    }
}

/// What is noted stays what the answers ask for when the next child has a
/// rectangle: what is noted while its subtree is laid out lies below it.
pub proof fn lemma_noted_place<W>(
    m: Map<LayoutId, NodeView<W>>,
    n: nat,
    x: LayoutId,
    answers: Map<usize, Option<Rect>>,
    noted: Seq<LayoutId>,
    noted_after: Seq<LayoutId>,
    base: int,
    k: int,
)
    requires
        tree_wf(m, n),
        m.contains_key(x),
        0 <= k < m[x].children.len(),
        noted_upto(m, m[x].children, answers, noted, base, k),
        has_rect(answers, m[x].children[k]),
        noted.is_prefix_of(noted_after),
        forall|j: int|
            noted.len() <= j < noted_after.len() ==> is_descendant(
                m,
                m[x].children[k],
                #[trigger] noted_after[j],
            ),
    ensures
        noted_upto(m, m[x].children, answers, noted_after, base, k + 1),
{
    let children = m[x].children;
    let child = children[k];
    assert(node_wf(m, n, x));
    assert(child_wf(m, x, child));
    assert forall|j: int| noted.len() <= j < noted_after.len() implies !children.contains(
        #[trigger] noted_after[j],
    ) by {
        lemma_descendant_no_child(m, n, x, child, noted_after[j]);
    }
    assert forall|a: int| 0 <= a < children.len() implies (noted_from(
        noted_after,
        base,
        #[trigger] children[a],
    ) <==> a < k + 1 && has_none(answers, children[a])) by {
        let c = children[a];
        if noted_from(noted, base, c) {
            let i = choose|i: int| base <= i < noted.len() && #[trigger] noted[i] == c;
            assert(noted_after[i] == c);
        }
        if noted_from(noted_after, base, c) {
            let i = choose|i: int| base <= i < noted_after.len() && #[trigger] noted_after[i] == c;
            if i < noted.len() {
                assert(noted[i] == c);
            } else {
                assert(children.contains(noted_after[i]));
            }
        }
    }
    assert forall|i: int| base <= i < noted_after.len() implies children.contains(
        #[trigger] noted_after[i],
    ) || exists|a: int|
        0 <= a < k + 1 && a < children.len() && has_rect(answers, children[a]) && #[trigger] is_descendant(
            m,
            children[a],
            noted_after[i],
        ) by {
        if i < noted.len() {
            assert(noted_after[i] == noted[i]);
            if !children.contains(noted[i]) {
                let a = choose|a: int|
                    0 <= a < k && a < children.len() && has_rect(answers, children[a])
                        && #[trigger] is_descendant(m, children[a], noted[i]);
                assert(is_descendant(m, children[a], noted_after[i]));
            }
        } else {
            assert(is_descendant(m, children[k], noted_after[i]));
        }
    }
    assert forall|i: int, j: int, a: int, b: int|
        base <= i < j < noted_after.len() && 0 <= a < children.len() && 0 <= b < children.len()
            && #[trigger] noted_after[i] == #[trigger] children[a] && #[trigger] noted_after[j]
            == #[trigger] children[b] implies a < b by {
        if j < noted.len() {
            assert(noted_after[i] == noted[i]);
            assert(noted_after[j] == noted[j]);
        } else {
            assert(children.contains(noted_after[j]));
        }
    }
}

/// The next child is dealt with where it has a rectangle: it is placed,
/// its subtree is laid out, and its id is taken out of the set. The
/// other children are not touched by that, nor is anything below them.
pub proof fn lemma_answered_place<W>(
    before: Map<LayoutId, NodeView<W>>,
    cur: Map<LayoutId, NodeView<W>>,
    placed: Map<LayoutId, NodeView<W>>,
    after: Map<LayoutId, NodeView<W>>,
    n: nat,
    x: LayoutId,
    answers: Map<usize, Option<Rect>>,
    items: Seq<usize>,
    k: int,
    parent_pos: Vec2,
    clip: Rect,
)
    requires
        tree_wf(cur, n),
        same_edges(before, cur),
        cur.contains_key(x),
        0 <= k < cur[x].children.len(),
        answered_upto(before, cur, cur[x].children, answers, items, k, parent_pos, clip),
        items.no_duplicates(),
        has_rect(answers, cur[x].children[k]),
        placed == cur.insert(
            cur[x].children[k],
            NodeView {
                area_and_pos: Some(
                    spec_child_placement(answers[cur[x].children[k].0]->0, parent_pos, clip),
                ),
                ..cur[cur[x].children[k]]
            },
        ),
        laid_out(placed, after, cur[x].children[k]),
    ensures
        answered_upto(
            before,
            after,
            cur[x].children,
            answers,
            crate::layout::ordered::swap_removed(items, cur[x].children[k].0),
            k + 1,
            parent_pos,
            clip,
        ),
{
    let children = cur[x].children;
    let child = children[k];
    let left = crate::layout::ordered::swap_removed(items, child.0);
    assert(node_wf(cur, n, x));
    assert(child_wf(cur, x, child));
    assert(placed.contains_key(child));
    assert(same_edges(cur, placed)) by {
        lemma_insert_same_edges(cur, child, placed[child]);
    }
    // Nothing in the subtree of another child lies in the subtree of `child`.
    assert forall|j: int|
        0 <= j < children.len() && j != k && subtree_same(
            before,
            cur,
            #[trigger] children[j],
        ) implies subtree_same(before, after, children[j]) by {
        let c = children[j];
        assert(child_wf(cur, x, c));
        assert(c != child);
        assert forall|d: LayoutId|
            before.contains_key(d) && #[trigger] in_subtree(before, c, d) implies after[d]
            == before[d] by {
            lemma_same_edges_subtree(before, cur, c, d);
            lemma_same_edges_subtree(cur, placed, child, d);
            if in_subtree(cur, child, d) {
                lemma_sibling_subtrees_disjoint(cur, n, x, c, child, d);
            }
            assert(in_subtree(cur, child, child));
            assert(d != child);
            assert(placed[d] == cur[d]);
            assert(placed.contains_key(d));
        }
    }
    assert forall|j: int| 0 <= j < k + 1 && j < children.len() implies child_answered(
        before,
        after,
        #[trigger] children[j],
        answers,
        left,
        parent_pos,
        clip,
    ) by {
        let c = children[j];
        crate::layout::ordered::lemma_swap_removed(items, child.0, c.0);
        if j < k {
            assert(child_answered(before, cur, c, answers, items, parent_pos, clip));
            assert(child_wf(cur, x, c));
            assert(c != child);
            assert(c.0 != child.0);
            if has_rect(answers, c) {
                assert(placed[c] == cur[c]);
                if in_subtree(placed, child, c) {
                    assert(placed[c].parent == x);
                    assert(in_subtree(placed, child, x));
                    lemma_subtree_ids(placed, child, x);
                }
            }
        } else {
            assert(after[child].area_and_pos == placed[child].area_and_pos);
        }
    }
}

/// Whether `c` lies in the subtree of a node whose number is in `items`.
pub open spec fn below_items<W>(m: Map<LayoutId, NodeView<W>>, items: Seq<usize>, c: LayoutId) -> bool {
    exists|i: int| 0 <= i < items.len() && in_subtree(m, LayoutId(#[trigger] items[i]), c)
}

/// Whether `after` is `before` with the subtrees of the nodes in `items`
/// hidden: every node in such a subtree is as it was but hidden, and every
/// other node is as it was.
pub open spec fn hidden_all<W>(
    before: Map<LayoutId, NodeView<W>>,
    after: Map<LayoutId, NodeView<W>>,
    items: Seq<usize>,
) -> bool {
    &&& after.dom() == before.dom()
    &&& forall|c: LayoutId|
        #[trigger] before.contains_key(c) ==> after[c] == if below_items(before, items, c) {
            NodeView { area_and_pos: None, ..before[c] }
        } else {
            before[c]
        }
}

/// To hide the subtree of one node more hides the subtrees of all the
/// nodes up to it.
pub proof fn lemma_hidden_step<W>(
    before: Map<LayoutId, NodeView<W>>,
    cur: Map<LayoutId, NodeView<W>>,
    after: Map<LayoutId, NodeView<W>>,
    items: Seq<usize>,
    m: int,
)
    requires
        0 < m <= items.len(),
        hidden_all(before, cur, items.skip(m)),
        after.dom() == cur.dom(),
        forall|c: LayoutId|
            #[trigger] cur.contains_key(c) ==> after[c] == hidden_in(cur, LayoutId(items[m - 1]), c),
    ensures
        hidden_all(before, after, items.skip(m - 1)),
{
    let done = items.skip(m);
    let more = items.skip(m - 1);
    let x = LayoutId(items[m - 1]);
    assert(more[0] == items[m - 1]);
    assert(same_edges(before, cur));
    assert forall|c: LayoutId| #[trigger] before.contains_key(c) implies after[c] == if below_items(
        before,
        more,
        c,
    ) {
        NodeView { area_and_pos: None, ..before[c] }
    } else {
        before[c]
    } by {
        lemma_same_edges_subtree(before, cur, x, c);
        assert(cur.contains_key(c));
        if below_items(before, more, c) {
            let i = choose|i: int| 0 <= i < more.len() && in_subtree(before, LayoutId(#[trigger] more[i]), c);
            if i > 0 {
                assert(done[i - 1] == more[i]);
                assert(below_items(before, done, c));
            }
        }
        if below_items(before, done, c) {
            let i = choose|i: int| 0 <= i < done.len() && in_subtree(before, LayoutId(#[trigger] done[i]), c);
            assert(more[i + 1] == done[i]);
            assert(below_items(before, more, c));
        }
        if in_subtree(before, x, c) {
            assert(in_subtree(before, LayoutId(more[0]), c));
        }
    }
}

/// The answer of a widget for its own id, if it gave one with a rectangle.
pub open spec fn own_answer(answers: Map<usize, Option<Rect>>, x: LayoutId) -> Option<Rect> {
    if answers.contains_key(x.0) {
        answers[x.0]
    } else {
        None
    }
}

/// Whether every node in the subtree of `c` is in `after` as it is in
/// `before`, but hidden.
pub open spec fn subtree_hidden<W>(
    before: Map<LayoutId, NodeView<W>>,
    after: Map<LayoutId, NodeView<W>>,
    c: LayoutId,
) -> bool {
    forall|d: LayoutId|
        before.contains_key(d) && #[trigger] in_subtree(before, c, d) ==> after[d] == (NodeView {
            area_and_pos: None,
            ..before[d]
        })
}

/// Whether the children of `x` are settled as the widget of `x` answered.
///
/// - The node `x` lays its children out in a rectangle of its own exactly
///   where its widget answered for the id of `x` itself; the children are
///   clipped as [`spec_children_clip`] says.
/// - A child with a rectangle lies where [`spec_child_placement`] says.
/// - A child whose answer is `None`, and a child without an answer, is
///   hidden with everything below it, and is otherwise as it was.
/// - What is noted to be removed is what [`noted_upto`] says: the
///   children whose answer is `None`, in their order, and nodes below
///   children with a rectangle.
pub open spec fn children_settled<W>(
    before: Map<LayoutId, NodeView<W>>,
    after: Map<LayoutId, NodeView<W>>,
    x: LayoutId,
    answers: Map<usize, Option<Rect>>,
    noted_before: Seq<LayoutId>,
    noted_after: Seq<LayoutId>,
    parent_window: Rect,
    parent_pos: Vec2,
    window: Rect,
) -> bool {
    let clip = spec_children_clip(own_answer(answers, x), parent_window, parent_pos, window);
    &&& after[x].window_relative == (own_answer(answers, x) is Some)
    &&& forall|j: int|
        0 <= j < before[x].children.len() ==> child_settled(
            before,
            after,
            #[trigger] before[x].children[j],
            answers,
            parent_pos,
            clip,
        )
    &&& noted_before.is_prefix_of(noted_after)
    &&& noted_upto(
        before,
        before[x].children,
        answers,
        noted_after,
        noted_before.len() as int,
        before[x].children.len() as int,
    )
}

/// Whether the child `c` is settled as its parent answered: placed where
/// it has a rectangle, hidden with everything below it where it has none.
pub open spec fn child_settled<W>(
    before: Map<LayoutId, NodeView<W>>,
    after: Map<LayoutId, NodeView<W>>,
    c: LayoutId,
    answers: Map<usize, Option<Rect>>,
    parent_pos: Vec2,
    clip: Rect,
) -> bool {
    if has_rect(answers, c) {
        after[c].area_and_pos == Some(spec_child_placement(answers[c.0]->0, parent_pos, clip))
    } else {
        subtree_hidden(before, after, c)
    }
}

/// A child that was dealt with as its parent answered is settled once the
/// children that are left in the set are hidden.
pub proof fn lemma_child_settled<W>(
    before: Map<LayoutId, NodeView<W>>,
    placed: Map<LayoutId, NodeView<W>>,
    after: Map<LayoutId, NodeView<W>>,
    n: nat,
    x: LayoutId,
    c: LayoutId,
    answers: Map<usize, Option<Rect>>,
    items: Seq<usize>,
    parent_pos: Vec2,
    clip: Rect,
)
    requires
        tree_wf(before, n),
        same_edges(before, placed),
        before.contains_key(x),
        child_wf(before, x, c),
        child_answered(before, placed, c, answers, items, parent_pos, clip),
        forall|i: int| 0 <= i < items.len() ==> is_child_number(before[x].children, #[trigger] items[i]),
        hidden_all(placed, after, items),
    ensures
        child_settled(before, after, c, answers, parent_pos, clip),
{
    assert(node_wf(before, n, x));
    assert(node_wf(before, n, c));
    if has_rect(answers, c) {
        if below_items(placed, items, c) {
            let i = choose|i: int|
                0 <= i < items.len() && in_subtree(placed, LayoutId(#[trigger] items[i]), c);
            assert(is_child_number(before[x].children, items[i]));
            let q = choose|q: int|
                0 <= q < before[x].children.len() && (#[trigger] before[x].children[q]).0 == items[i];
            let other = before[x].children[q];
            assert(other == LayoutId(items[i]));
            assert(child_wf(before, x, other));
            lemma_same_edges_subtree(before, placed, other, c);
            assert(items.contains(other.0));
            assert(other != c);
            assert(in_subtree(before, other, x));
            lemma_subtree_ids(before, other, x);
        }
        assert(placed.contains_key(c));
    } else {
        assert forall|d: LayoutId|
            before.contains_key(d) && #[trigger] in_subtree(before, c, d) implies after[d] == (
        NodeView { area_and_pos: None, ..before[d] }) by {
            let i = choose|i: int| 0 <= i < items.len() && items[i] == c.0;
            assert(LayoutId(items[i]) == c);
            lemma_same_edges_subtree(before, placed, c, d);
            assert(in_subtree(placed, LayoutId(items[i]), d));
            assert(below_items(placed, items, d));
            assert(placed.contains_key(d));
        }
    }
}

/// A tree whose node `x` has another widget is laid out as the tree is.
pub proof fn lemma_asked_laid_out<W>(
    before: Map<LayoutId, NodeView<W>>,
    asked: Map<LayoutId, NodeView<W>>,
    after: Map<LayoutId, NodeView<W>>,
    x: LayoutId,
    noted: Seq<LayoutId>,
    noted_after: Seq<LayoutId>,
)
    requires
        before.contains_key(x),
        asked == before.insert(x, NodeView { widget: asked[x].widget, ..before[x] }),
        laid_out(asked, after, x),
        noted_below(asked, x, noted, noted_after),
    ensures
        laid_out(before, after, x),
        noted_below(before, x, noted, noted_after),
        same_edges(before, asked),
{
    lemma_insert_same_edges(before, x, asked[x]);
    assert(same_edges(before, asked));
    lemma_same_edges_trans(before, asked, after);
    assert forall|c: LayoutId| #[trigger] before.contains_key(c) implies before[c].redraw_request
        == after[c].redraw_request by {
        assert(asked.contains_key(c));
    }
    assert forall|c: LayoutId| #[trigger] before.contains_key(c) && !in_subtree(before, x, c) implies after[c]
        == before[c] by {
        lemma_same_edges_subtree(before, asked, x, c);
        assert(in_subtree(before, x, x));
        assert(asked.contains_key(c));
    }
    assert forall|j: int| noted.len() <= j < noted_after.len() implies is_descendant(
        before,
        x,
        #[trigger] noted_after[j],
    ) by {
        lemma_same_edges_subtree(before, asked, x, noted_after[j]);
    }
}

/// Children that are settled in a tree are settled in the tree whose node
/// `x` had another widget.
pub proof fn lemma_asked_settled<W>(
    before: Map<LayoutId, NodeView<W>>,
    asked: Map<LayoutId, NodeView<W>>,
    after: Map<LayoutId, NodeView<W>>,
    n: nat,
    x: LayoutId,
    answers: Map<usize, Option<Rect>>,
    noted: Seq<LayoutId>,
    noted_after: Seq<LayoutId>,
    parent_window: Rect,
    parent_pos: Vec2,
    window: Rect,
)
    requires
        tree_wf(before, n),
        before.contains_key(x),
        asked == before.insert(x, NodeView { widget: asked[x].widget, ..before[x] }),
        children_settled(
            asked,
            after,
            x,
            answers,
            noted,
            noted_after,
            parent_window,
            parent_pos,
            window,
        ),
    ensures
        children_settled(
            before,
            after,
            x,
            answers,
            noted,
            noted_after,
            parent_window,
            parent_pos,
            window,
        ),
{
    let clip = spec_children_clip(own_answer(answers, x), parent_window, parent_pos, window);
    let children = before[x].children;
    lemma_insert_same_edges(before, x, asked[x]);
    assert(same_edges(before, asked));
    assert(node_wf(before, n, x));
    assert forall|j: int| 0 <= j < children.len() implies child_settled(
        before,
        after,
        #[trigger] children[j],
        answers,
        parent_pos,
        clip,
    ) by {
        let c = children[j];
        assert(asked[x].children[j] == c);
        assert(child_settled(asked, after, c, answers, parent_pos, clip));
        assert(child_wf(before, x, c));
        if !has_rect(answers, c) {
            assert forall|d: LayoutId|
                before.contains_key(d) && #[trigger] in_subtree(before, c, d) implies after[d] == (
            NodeView { area_and_pos: None, ..before[d] }) by {
                lemma_same_edges_subtree(before, asked, c, d);
                assert(asked.contains_key(d));
                if d == x {
                    lemma_subtree_ids(before, c, x);
                    assert(node_wf(before, n, c));
                }
            }
        }
    }
    let base = noted.len() as int;
    let k = children.len() as int;
    assert forall|i: int| base <= i < noted_after.len() implies children.contains(
        #[trigger] noted_after[i],
    ) || exists|a: int|
        0 <= a < k && a < children.len() && has_rect(answers, children[a]) && #[trigger] is_descendant(
            before,
            children[a],
            noted_after[i],
        ) by {
        if !children.contains(noted_after[i]) {
            let a = choose|a: int|
                0 <= a < k && a < children.len() && has_rect(answers, children[a])
                    && #[trigger] is_descendant(asked, children[a], noted_after[i]);
            lemma_same_edges_subtree(before, asked, children[a], noted_after[i]);
            assert(is_descendant(before, children[a], noted_after[i]));
        }
    }
}

/// Nothing in the subtree of a child without a rectangle is noted to be
/// removed, but the child itself where its answer is `None`.
pub proof fn lemma_hidden_not_noted<W>(
    m: Map<LayoutId, NodeView<W>>,
    n: nat,
    x: LayoutId,
    answers: Map<usize, Option<Rect>>,
    noted: Seq<LayoutId>,
    base: int,
    c: LayoutId,
    d: LayoutId,
)
    requires
        tree_wf(m, n),
        m.contains_key(x),
        noted_upto(m, m[x].children, answers, noted, base, m[x].children.len() as int),
        m[x].children.contains(c),
        !has_rect(answers, c),
        m.contains_key(d),
        in_subtree(m, c, d),
        d != c || !has_none(answers, c),
    ensures
        !noted_from(noted, base, d),
{
    let children = m[x].children;
    assert(node_wf(m, n, x));
    let j = choose|j: int| 0 <= j < children.len() && children[j] == c;
    assert(child_wf(m, x, children[j]));
    if noted_from(noted, base, d) {
        let i = choose|i: int| base <= i < noted.len() && #[trigger] noted[i] == d;
        if children.contains(noted[i]) {
            let q = choose|q: int| 0 <= q < children.len() && children[q] == d;
            if d != c {
                assert(is_descendant(m, c, d));
                lemma_descendant_no_child(m, n, x, c, d);
            }
            assert(noted_from(noted, base, children[q]));
        } else {
            let a = choose|a: int|
                0 <= a < children.len() && a < children.len() && has_rect(answers, children[a])
                    && #[trigger] is_descendant(m, children[a], noted[i]);
            assert(child_wf(m, x, children[a]));
            lemma_sibling_subtrees_disjoint(m, n, x, children[a], c, d);
        }
    }
}

/// The children of every node of a tree.
pub open spec fn edges<W>(m: Map<LayoutId, NodeView<W>>) -> Map<LayoutId, Seq<LayoutId>> {
    Map::new(|c: LayoutId| m.contains_key(c), |c: LayoutId| m[c].children)
}

/// Whether `seg` is what a layout of the subtree of `x` notes to be
/// removed, for some answers of the widgets: what the children of `x`
/// ask for, see [`kids_noted`].
pub open spec fn walk_noted(
    e: Map<LayoutId, Seq<LayoutId>>,
    n: nat,
    x: LayoutId,
    seg: Seq<LayoutId>,
) -> bool {
    exists|answers: Map<usize, Option<Rect>>| #[trigger]
        kids_noted(e, n, x, answers, seg, e[x].len())
}

/// Whether `seg` is what the first `k` children of `x` ask to be noted,
/// one child after the other.
///
/// - A child whose answer is `None` is noted itself.
/// - For a child with a rectangle, what the layout of its subtree notes
///   is noted: what its children ask for, for some answers of its widget.
/// - For a child without an answer nothing is noted.
#[verifier::opaque]
pub open spec fn kids_noted(
    e: Map<LayoutId, Seq<LayoutId>>,
    n: nat,
    x: LayoutId,
    answers: Map<usize, Option<Rect>>,
    seg: Seq<LayoutId>,
    k: nat,
) -> bool
    decreases n - x.0, k,
{
    if k == 0 || k > e[x].len() {
        seg.len() == 0
    } else {
        let c = e[x][k - 1];
        exists|cut: int|
            0 <= cut <= seg.len() && kids_noted(
                e,
                n,
                x,
                answers,
                #[trigger] seg.take(cut),
                (k - 1) as nat,
            ) && if has_none(answers, c) {
                seg.skip(cut) == seq![c]
            } else if has_rect(answers, c) {
                x.0 < c.0 < n && exists|below: Map<usize, Option<Rect>>| #[trigger]
                    is_answer(below) && kids_noted(e, n, c, below, seg.skip(cut), e[c].len())
            } else {
                seg.skip(cut).len() == 0
            }
    }
}

/// Whatever a widget answers is an answer.
pub open spec fn is_answer(answers: Map<usize, Option<Rect>>) -> bool {
    true
}

/// Before the first child nothing is noted.
pub proof fn lemma_kids_none(
    e: Map<LayoutId, Seq<LayoutId>>,
    n: nat,
    x: LayoutId,
    answers: Map<usize, Option<Rect>>,
)
    ensures
        kids_noted(e, n, x, answers, Seq::empty(), 0),
{
    reveal(kids_noted);
}

/// What all the children of a node ask to be noted is what a layout of
/// its subtree notes.
pub proof fn lemma_walk_from_kids(
    e: Map<LayoutId, Seq<LayoutId>>,
    n: nat,
    x: LayoutId,
    answers: Map<usize, Option<Rect>>,
    seg: Seq<LayoutId>,
)
    requires
        kids_noted(e, n, x, answers, seg, e[x].len()),
    ensures
        walk_noted(e, n, x, seg),
{
}

/// What the next child asks to be noted comes behind what the children
/// before it asked for: the child itself where its answer is `None`, what
/// the layout of its subtree noted where it has a rectangle, and nothing
/// where it has no answer.
pub proof fn lemma_kids_step(
    e: Map<LayoutId, Seq<LayoutId>>,
    n: nat,
    x: LayoutId,
    answers: Map<usize, Option<Rect>>,
    noted: Seq<LayoutId>,
    noted_after: Seq<LayoutId>,
    base: int,
    k: nat,
)
    requires
        k < e[x].len(),
        0 <= base <= noted.len(),
        noted.is_prefix_of(noted_after),
        kids_noted(e, n, x, answers, noted.skip(base), k),
        if has_none(answers, e[x][k as int]) {
            noted_after == noted.push(e[x][k as int])
        } else if has_rect(answers, e[x][k as int]) {
            x.0 < e[x][k as int].0 < n && walk_noted(
                e,
                n,
                e[x][k as int],
                noted_after.skip(noted.len() as int),
            )
        } else {
            noted_after == noted
        },
    ensures
        kids_noted(e, n, x, answers, noted_after.skip(base), k + 1),
{
    reveal(kids_noted);
    let c = e[x][k as int];
    let seg = noted.skip(base);
    let part = noted_after.skip(noted.len() as int);
    let all = noted_after.skip(base);
    let cut = seg.len() as int;
    assert(all.take(cut) =~= seg);
    assert(all.skip(cut) =~= part);
    if has_none(answers, c) {
        assert(part =~= seq![c]);
    } else if has_rect(answers, c) {
        let below = choose|below: Map<usize, Option<Rect>>| #[trigger]
            kids_noted(e, n, c, below, part, e[c].len());
        assert(is_answer(below));
    }
}

/// What is noted is what the answers ask for in every tree with the same edges.
pub proof fn lemma_noted_same_edges<W>(
    a: Map<LayoutId, NodeView<W>>,
    b: Map<LayoutId, NodeView<W>>,
    children: Seq<LayoutId>,
    answers: Map<usize, Option<Rect>>,
    noted: Seq<LayoutId>,
    base: int,
    k: int,
)
    requires
        same_edges(a, b),
        noted_upto(a, children, answers, noted, base, k),
    ensures
        noted_upto(b, children, answers, noted, base, k),
{
    assert forall|i: int| base <= i < noted.len() implies children.contains(#[trigger] noted[i])
        || exists|c: int|
        0 <= c < k && c < children.len() && has_rect(answers, children[c]) && #[trigger] is_descendant(
            b,
            children[c],
            noted[i],
        ) by {
        if !children.contains(noted[i]) {
            let c = choose|c: int|
                0 <= c < k && c < children.len() && has_rect(answers, children[c])
                    && #[trigger] is_descendant(a, children[c], noted[i]);
            lemma_same_edges_subtree(a, b, children[c], noted[i]);
            assert(is_descendant(b, children[c], noted[i]));
        }
    }
}

/// The children are settled once they are dealt with as their parent
/// answered and the children that are left in the set are hidden.
pub proof fn lemma_asked_marked<W>(
    before: Map<LayoutId, NodeView<W>>,
    marked: Map<LayoutId, NodeView<W>>,
    placed: Map<LayoutId, NodeView<W>>,
    after: Map<LayoutId, NodeView<W>>,
    n: nat,
    x: LayoutId,
    answers: Map<usize, Option<Rect>>,
    items: Seq<usize>,
    noted: Seq<LayoutId>,
    noted_after: Seq<LayoutId>,
    parent_window: Rect,
    parent_pos: Vec2,
    window: Rect,
)
    requires
        tree_wf(before, n),
        tree_wf(marked, n),
        before.contains_key(x),
        marked == before.insert(
            x,
            NodeView { window_relative: own_answer(answers, x) is Some, ..before[x] },
        ),
        same_edges(marked, placed),
        placed[x] == marked[x],
        answered_upto(
            marked,
            placed,
            marked[x].children,
            answers,
            items,
            marked[x].children.len() as int,
            parent_pos,
            spec_children_clip(own_answer(answers, x), parent_window, parent_pos, window),
        ),
        noted_upto(
            marked,
            marked[x].children,
            answers,
            noted_after,
            noted.len() as int,
            marked[x].children.len() as int,
        ),
        noted.is_prefix_of(noted_after),
        forall|i: int| 0 <= i < items.len() ==> is_child_number(marked[x].children, #[trigger] items[i]),
        hidden_all(placed, after, items),
    ensures
        children_settled(
            before,
            after,
            x,
            answers,
            noted,
            noted_after,
            parent_window,
            parent_pos,
            window,
        ),
{
    let clip = spec_children_clip(own_answer(answers, x), parent_window, parent_pos, window);
    let children = marked[x].children;
    assert(node_wf(marked, n, x));
    assert(marked.contains_key(x));
    // The node `x` lies below none of its children, so it is not hidden.
    assert(after[x] == placed[x]) by {
        if below_items(placed, items, x) {
            let i = choose|i: int|
                0 <= i < items.len() && in_subtree(placed, LayoutId(#[trigger] items[i]), x);
            assert(is_child_number(children, items[i]));
            let q = choose|q: int| 0 <= q < children.len() && (#[trigger] children[q]).0 == items[i];
            assert(children[q] == LayoutId(items[i]));
            assert(child_wf(marked, x, children[q]));
            assert(node_wf(marked, n, children[q]));
            lemma_same_edges_subtree(marked, placed, children[q], x);
            lemma_subtree_ids(marked, children[q], x);
        }
        assert(placed.contains_key(x));
    }
    assert forall|j: int| 0 <= j < children.len() implies child_settled(
        marked,
        after,
        #[trigger] children[j],
        answers,
        parent_pos,
        clip,
    ) by {
        assert(child_wf(marked, x, children[j]));
        lemma_child_settled(marked, placed, after, n, x, children[j], answers, items, parent_pos, clip);
    }
    assert(children_settled(
        marked,
        after,
        x,
        answers,
        noted,
        noted_after,
        parent_window,
        parent_pos,
        window,
    ));
    lemma_marked_settled(
        before,
        marked,
        after,
        n,
        x,
        answers,
        noted,
        noted_after,
        parent_window,
        parent_pos,
        window,
    );
}

/// Children that are settled in a tree are settled in the tree whose node
/// `x` had another mark of a rectangle of its own.
pub proof fn lemma_marked_settled<W>(
    before: Map<LayoutId, NodeView<W>>,
    marked: Map<LayoutId, NodeView<W>>,
    after: Map<LayoutId, NodeView<W>>,
    n: nat,
    x: LayoutId,
    answers: Map<usize, Option<Rect>>,
    noted: Seq<LayoutId>,
    noted_after: Seq<LayoutId>,
    parent_window: Rect,
    parent_pos: Vec2,
    window: Rect,
)
    requires
        tree_wf(before, n),
        before.contains_key(x),
        marked == before.insert(x, NodeView { window_relative: marked[x].window_relative, ..before[x] }),
        children_settled(
            marked,
            after,
            x,
            answers,
            noted,
            noted_after,
            parent_window,
            parent_pos,
            window,
        ),
    ensures
        children_settled(
            before,
            after,
            x,
            answers,
            noted,
            noted_after,
            parent_window,
            parent_pos,
            window,
        ),
{
    let clip = spec_children_clip(own_answer(answers, x), parent_window, parent_pos, window);
    let children = before[x].children;
    lemma_insert_same_edges(before, x, marked[x]);
    assert(same_edges(before, marked));
    assert(node_wf(before, n, x));
    assert forall|j: int| 0 <= j < children.len() implies child_settled(
        before,
        after,
        #[trigger] children[j],
        answers,
        parent_pos,
        clip,
    ) by {
        let c = children[j];
        assert(marked[x].children[j] == c);
        assert(child_settled(marked, after, c, answers, parent_pos, clip));
        assert(child_wf(before, x, c));
        if !has_rect(answers, c) {
            assert forall|d: LayoutId|
                before.contains_key(d) && #[trigger] in_subtree(before, c, d) implies after[d] == (
            NodeView { area_and_pos: None, ..before[d] }) by {
                lemma_same_edges_subtree(before, marked, c, d);
                assert(marked.contains_key(d));
                if d == x {
                    lemma_subtree_ids(before, c, x);
                    assert(node_wf(before, n, c));
                }
            }
        }
    }
    let base = noted.len() as int;
    let k = children.len() as int;
    assert forall|i: int| base <= i < noted_after.len() implies children.contains(
        #[trigger] noted_after[i],
    ) || exists|a: int|
        0 <= a < k && a < children.len() && has_rect(answers, children[a]) && #[trigger] is_descendant(
            before,
            children[a],
            noted_after[i],
        ) by {
        if !children.contains(noted_after[i]) {
            let a = choose|a: int|
                0 <= a < k && a < children.len() && has_rect(answers, children[a])
                    && #[trigger] is_descendant(marked, children[a], noted_after[i]);
            lemma_same_edges_subtree(before, marked, children[a], noted_after[i]);
            assert(is_descendant(before, children[a], noted_after[i]));
        }
    }
}

/// Whether `item` is the number of the id of one of `children`.
pub open spec fn is_child_number(children: Seq<LayoutId>, item: usize) -> bool {
    exists|j: int| 0 <= j < children.len() && (#[trigger] children[j]).0 == item
}

/// What holds between two children of the loop that places the children of `x`.
///
/// - The tree is the tree at the start but for a layout of the subtree of `x`.
/// - The set still holds every child from number `k` on, and only children.
/// - Every child before number `k` that the set holds no more is placed
///   soundly with its whole subtree.
pub open spec fn placing<W>(
    start: Map<LayoutId, NodeView<W>>,
    cur: Map<LayoutId, NodeView<W>>,
    x: LayoutId,
    node: NodeView<W>,
    items: Seq<usize>,
    k: int,
    clip: Rect,
    window: Rect,
) -> bool {
    &&& laid_out(start, cur, x)
    &&& cur[x] == node
    &&& items.no_duplicates()
    &&& forall|j: int|
        k <= j < node.children.len() ==> items.contains((#[trigger] node.children[j]).0)
    &&& forall|i: int| 0 <= i < items.len() ==> is_child_number(node.children, #[trigger] items[i])
    &&& forall|j: int|
        0 <= j < k && j < node.children.len() && !items.contains((#[trigger] node.children[j]).0)
            ==> subtree_placed(cur, node.children[j], x, clip, window)
}

/// The loop invariant holds on when the next child stays as it is.
pub proof fn lemma_placing_skip<W>(
    start: Map<LayoutId, NodeView<W>>,
    cur: Map<LayoutId, NodeView<W>>,
    x: LayoutId,
    node: NodeView<W>,
    items: Seq<usize>,
    k: int,
    clip: Rect,
    window: Rect,
)
    requires
        placing(start, cur, x, node, items, k, clip, window),
        0 <= k < node.children.len(),
    ensures
        placing(start, cur, x, node, items, k + 1, clip, window),
{
    assert(items.contains(node.children[k].0));
}

/// The loop invariant holds on when the next child has been placed, its
/// subtree laid out, and its id taken out of the set.
pub proof fn lemma_placing_place<W>(
    start: Map<LayoutId, NodeView<W>>,
    cur: Map<LayoutId, NodeView<W>>,
    placed: Map<LayoutId, NodeView<W>>,
    after: Map<LayoutId, NodeView<W>>,
    n: nat,
    x: LayoutId,
    items: Seq<usize>,
    k: int,
    parent_window: Rect,
    clip: Rect,
    window: Rect,
    area: Rect,
    pos: Vec2,
)
    requires
        tree_wf(start, n),
        tree_wf(cur, n),
        start.contains_key(x),
        placing(start, cur, x, cur[x], items, k, parent_window, window),
        0 <= k < cur[x].children.len(),
        cur[x].area_and_pos is Some,
        !cur[x].window_relative ==> clip == parent_window,
        cur[x].window_relative ==> clip.clipped_to(window),
        area.clipped_to(clip),
        placed == cur.insert(
            cur[x].children[k],
            NodeView { area_and_pos: Some((area, pos)), ..cur[cur[x].children[k]] },
        ),
        laid_out(placed, after, cur[x].children[k]),
        below_placed(after, cur[x].children[k], area, window),
    ensures
        placing(
            start,
            after,
            x,
            cur[x],
            crate::layout::ordered::swap_removed(items, cur[x].children[k].0),
            k + 1,
            parent_window,
            window,
        ),
        tree_wf(after, n),
{
    let node = cur[x];
    let child = node.children[k];
    let left = crate::layout::ordered::swap_removed(items, child.0);
    assert(cur.contains_key(x));
    assert(node_wf(cur, n, x));
    assert(child_wf(cur, x, node.children[k]));
    assert(node_wf(cur, n, child));
    assert(in_subtree(cur, child, child));
    assert(in_subtree(cur, x, x));
    assert(in_subtree(cur, x, child));
    lemma_insert_same_edges(cur, child, NodeView { area_and_pos: Some((area, pos)), ..cur[child] });
    lemma_same_edges_wf(cur, placed, n);
    lemma_same_edges_wf(placed, after, n);
    // The tree is still the tree at the start but for a layout below `x`.
    assert(laid_out(start, placed, x)) by {
        assert(same_edges(start, placed)) by {
            assert(start.dom() =~= placed.dom());
            assert forall|d: LayoutId| #[trigger] start.contains_key(d) implies start[d].parent
                == placed[d].parent && start[d].children == placed[d].children by {
                assert(cur.contains_key(d));
            }
        }
        assert forall|d: LayoutId| #[trigger] start.contains_key(d) implies start[d].redraw_request
            == placed[d].redraw_request by {
            assert(cur.contains_key(d));
        }
        assert forall|d: LayoutId| #[trigger] start.contains_key(d) && !in_subtree(
            start,
            x,
            d,
        ) implies placed[d] == start[d] by {
            lemma_same_edges_subtree(start, cur, x, d);
        }
    }
    lemma_same_edges_subtree(start, placed, x, child);
    lemma_same_edges_subtree(start, cur, x, child);
    assert(is_descendant(start, x, child));
    lemma_laid_out_step(start, placed, after, n, x, child);
    // The node `x` is as it was.
    lemma_same_edges_subtree(cur, placed, child, x);
    assert(after[x] == node) by {
        if in_subtree(placed, child, x) {
            lemma_subtree_ids(placed, child, x);
        }
    }
    // The set.
    assert(left.no_duplicates()) by {
        if items.contains(child.0) {
            let i = items.index_of(child.0);
            assert forall|a: int, b: int|
                0 <= a < left.len() && 0 <= b < left.len() && a != b implies left[a] != left[b] by {
                let ia = if a == i {
                    items.len() - 1
                } else {
                    a
                };
                let ib = if b == i {
                    items.len() - 1
                } else {
                    b
                };
                assert(left[a] == items[ia]);
                assert(left[b] == items[ib]);
            }
        }
    }
    assert forall|j: int| k + 1 <= j < node.children.len() implies left.contains(
        (#[trigger] node.children[j]).0,
    ) by {
        lemma_swap_removed(items, child.0, node.children[j].0);
        assert(node.children[j] != node.children[k]);
    }
    assert forall|i: int| 0 <= i < left.len() implies is_child_number(
        node.children,
        #[trigger] left[i],
    ) by {
        assert(left.contains(left[i]));
        lemma_swap_removed(items, child.0, left[i]);
        let q = choose|q: int| 0 <= q < items.len() && items[q] == left[i];
        assert(is_child_number(node.children, items[q]));
    }
    // The children that are done.
    assert(after.contains_key(x));
    assert(after.contains_key(child));
    assert(child_wf(after, x, child));
    assert(after[child].area_and_pos == placed[child].area_and_pos);
    lemma_child_placed(after, n, x, child, parent_window, clip, window);
    assert forall|j: int|
        0 <= j < k + 1 && j < node.children.len() && !left.contains(
            (#[trigger] node.children[j]).0,
        ) implies subtree_placed(after, node.children[j], x, parent_window, window) by {
        if j != k {
            let other = node.children[j];
            lemma_swap_removed(items, child.0, other.0);
            assert(other != child);
            assert(subtree_placed(cur, other, x, parent_window, window));
            assert(child_wf(cur, x, node.children[j]));
            assert(same_edges(cur, after)) by {
                assert(cur.dom() =~= after.dom());
                assert forall|d: LayoutId| #[trigger] cur.contains_key(d) implies cur[d].parent
                    == after[d].parent && cur[d].children == after[d].children by {
                    assert(placed.contains_key(d));
                }
            }
            assert forall|c: LayoutId| #[trigger] cur.contains_key(c) && !in_subtree(
                cur,
                child,
                c,
            ) implies after[c] == cur[c] by {
                assert(placed.contains_key(c));
                lemma_same_edges_subtree(cur, placed, child, c);
            }
            lemma_sibling_kept(cur, after, n, x, child, other, parent_window, window);
        }
    }
}

/// The loop invariant holds on when the subtree of a child in the set has
/// been hidden and its id taken out of the set.
pub proof fn lemma_placing_hide<W>(
    start: Map<LayoutId, NodeView<W>>,
    cur: Map<LayoutId, NodeView<W>>,
    after: Map<LayoutId, NodeView<W>>,
    n: nat,
    x: LayoutId,
    items: Seq<usize>,
    clip: Rect,
    window: Rect,
)
    requires
        tree_wf(start, n),
        tree_wf(cur, n),
        start.contains_key(x),
        placing(start, cur, x, cur[x], items, cur[x].children.len() as int, clip, window),
        items.len() > 0,
        cur.contains_key(LayoutId(items.last())),
        after.dom() == cur.dom(),
        forall|c: LayoutId|
            #[trigger] cur.contains_key(c) ==> after[c] == hidden_in(cur, LayoutId(items.last()), c),
    ensures
        placing(
            start,
            after,
            x,
            cur[x],
            items.drop_last(),
            cur[x].children.len() as int,
            clip,
            window,
        ),
        tree_wf(after, n),
{
    let node = cur[x];
    let child = LayoutId(items.last());
    let left = items.drop_last();
    let count = node.children.len() as int;
    assert(is_child_number(node.children, items[items.len() - 1]));
    let q = choose|q: int|
        0 <= q < node.children.len() && (#[trigger] node.children[q]).0 == items[items.len() - 1];
    assert(node.children[q] == child);
    assert(cur.contains_key(x));
    assert(node_wf(cur, n, x));
    assert(child_wf(cur, x, node.children[q]));
    assert(node_wf(cur, n, child));
    assert(in_subtree(cur, x, x));
    assert(in_subtree(cur, x, child));
    assert(same_edges(cur, after)) by {
        assert forall|d: LayoutId| #[trigger] cur.contains_key(d) implies cur[d].parent
            == after[d].parent && cur[d].children == after[d].children by {}
    }
    lemma_same_edges_wf(cur, after, n);
    assert(same_shape(cur, after));
    lemma_same_edges_subtree(start, cur, x, child);
    assert(is_descendant(start, x, child));
    lemma_laid_out_step(start, cur, after, n, x, child);
    assert(after[x] == node) by {
        if in_subtree(cur, child, x) {
            lemma_subtree_ids(cur, child, x);
        }
    }
    assert forall|i: int| 0 <= i < left.len() implies is_child_number(
        node.children,
        #[trigger] left[i],
    ) by {
        assert(left[i] == items[i]);
        assert(is_child_number(node.children, items[i]));
    }
    assert forall|j: int|
        0 <= j < count && j < node.children.len() && !left.contains(
            (#[trigger] node.children[j]).0,
        ) implies subtree_placed(after, node.children[j], x, clip, window) by {
        let other = node.children[j];
        if other == child {
            assert forall|c: LayoutId|
                after.contains_key(c) && #[trigger] in_subtree(
                    after,
                    child,
                    c,
                ) implies after[c].area_and_pos is None by {
                lemma_same_edges_subtree(cur, after, child, c);
                assert(cur.contains_key(c));
            }
            lemma_hidden_placed(after, x, child, clip, window);
        } else {
            if items.contains(other.0) {
                let i = choose|i: int| 0 <= i < items.len() && items[i] == other.0;
                if i < left.len() {
                    assert(left[i] == other.0);
                }
            }
            assert(subtree_placed(cur, other, x, clip, window));
            assert(child_wf(cur, x, node.children[j]));
            lemma_sibling_kept(cur, after, n, x, child, other, clip, window);
        }
    }
}

/// The loop invariant holds before the first child, with every child in the set.
pub proof fn lemma_placing_start<W>(
    start: Map<LayoutId, NodeView<W>>,
    cur: Map<LayoutId, NodeView<W>>,
    x: LayoutId,
    items: Seq<usize>,
    clip: Rect,
    window: Rect,
)
    requires
        start.contains_key(x),
        cur.dom() == start.dom(),
        forall|c: LayoutId| #[trigger] start.contains_key(c) && c != x ==> cur[c] == start[c],
        cur[x].parent == start[x].parent,
        cur[x].children == start[x].children,
        cur[x].redraw_request == start[x].redraw_request,
        cur[x].area_and_pos == start[x].area_and_pos,
        items.no_duplicates(),
        items.len() == start[x].children.len(),
        forall|j: int| 0 <= j < items.len() ==> #[trigger] items[j] == start[x].children[j].0,
    ensures
        placing(start, cur, x, cur[x], items, 0, clip, window),
{
    let node = cur[x];
    assert(same_edges(start, cur));
    assert(in_subtree(start, x, x));
    assert(same_shape(start, cur));
    assert(laid_out(start, cur, x));
    assert forall|j: int| 0 <= j < node.children.len() implies items.contains(
        (#[trigger] node.children[j]).0,
    ) by {
        assert(items[j] == node.children[j].0);
    }
    assert forall|i: int| 0 <= i < items.len() implies is_child_number(
        node.children,
        #[trigger] items[i],
    ) by {
        assert(node.children[i].0 == items[i]);
    }
}

/// Where the loops have run and the set is empty, every node below `x` is
/// placed soundly.
pub proof fn lemma_placing_done<W>(
    start: Map<LayoutId, NodeView<W>>,
    done: Map<LayoutId, NodeView<W>>,
    n: nat,
    x: LayoutId,
    node: NodeView<W>,
    items: Seq<usize>,
    clip: Rect,
    window: Rect,
)
    requires
        tree_wf(done, n),
        start.contains_key(x),
        items.len() == 0,
        placing(start, done, x, node, items, node.children.len() as int, clip, window),
    ensures
        laid_out(start, done, x),
        below_placed(done, x, clip, window),
{
    assert(done.contains_key(x));
    assert forall|j: int| 0 <= j < done[x].children.len() implies subtree_placed(
        done,
        #[trigger] done[x].children[j],
        x,
        clip,
        window,
    ) by {
        assert(!items.contains(node.children[j].0));
    }
    lemma_children_placed(done, n, x, clip, window);
}

impl<W: Widget> Layout<W> {
    /// The ids of the children of a node, as a set in the order of the children.
    fn children_set(&self, id: LayoutId) -> (set: IndexSet<usize>)
        requires
            self.structure_wf(),
            self@.contains_key(id),
        ensures
            set_items(set).no_duplicates(),
            set_items(set).len() == self@[id].children.len(),
            forall|j: int|
                0 <= j < self@[id].children.len() ==> #[trigger] set_items(set)[j]
                    == self@[id].children[j].0,
    {
        let ghost m = self@;
        let ghost n = self.next_id();
        let count: usize = self.child_count(id);
        let mut children_set: IndexSet<usize> = index_set_new();
        let mut k: usize = 0;
        while k < count
            invariant
                self.structure_wf(),
                self@ == m,
                n == self.next_id(),
                m.contains_key(id),
                count == m[id].children.len(),
                k <= count,
                set_items(children_set).no_duplicates(),
                set_items(children_set).len() == k,
                forall|j: int|
                    0 <= j < k ==> #[trigger] set_items(children_set)[j] == m[id].children[j].0,
            decreases count - k,
        {
            let child: LayoutId = self.child_at(id, k);
            proof {
                let items = set_items(children_set);
                if items.contains(child.0) {
                    let j = choose|j: int| 0 <= j < items.len() && items[j] == child.0;
                    assert(node_wf(m, n, id));
                    assert(m[id].children[j] == m[id].children[k as int]);
                }
            }
            index_set_insert(&mut children_set, child.0);
            k = k + 1;
        }
        children_set
    }

    /// Places the children of `layout_id` as `response` says, and lays out
    /// the subtree of each child that is placed. A child with a rectangle
    /// is placed there and leaves the set; a child whose answer is `None`
    /// is noted in `widget_to_remove`; every other child stays as it is:
    /// see [`child_answered`].
    fn place_children(
        &mut self,
        layout_id: LayoutId,
        parent_window: Rect,
        clip: Rect,
        parent_pos: Vec2,
        response: &HashMap<usize, Option<Rect>>,
        children_set: &mut IndexSet<usize>,
        painter: &mut Painter,
        widget_to_remove: &mut Vec<LayoutId>,
        Ghost(start): Ghost<Map<LayoutId, NodeView<W>>>,
    )
        requires
            old(self).structure_wf(),
            tree_wf(start, old(self).next_id()),
            start.contains_key(layout_id),
            old(self)@[layout_id].area_and_pos is Some,
            !old(self)@[layout_id].window_relative ==> clip == parent_window,
            old(self)@[layout_id].window_relative ==> clip.clipped_to(
                window_rect(old(painter).window_size),
            ),
            placing(
                start,
                old(self)@,
                layout_id,
                old(self)@[layout_id],
                set_items(*old(children_set)),
                0,
                parent_window,
                window_rect(old(painter).window_size),
            ),
        ensures
            final(self).structure_wf(),
            final(self).next_id() == old(self).next_id(),
            final(self).aliases() == old(self).aliases(),
            final(self).alias_names() == old(self).alias_names(),
            only_moved(*old(painter), *final(painter)),
            noted_below(start, layout_id, old(widget_to_remove)@, final(widget_to_remove)@),
            placing(
                start,
                final(self)@,
                layout_id,
                old(self)@[layout_id],
                set_items(*final(children_set)),
                old(self)@[layout_id].children.len() as int,
                parent_window,
                window_rect(old(painter).window_size),
            ),
            answered_upto(
                old(self)@,
                final(self)@,
                old(self)@[layout_id].children,
                response@,
                set_items(*final(children_set)),
                old(self)@[layout_id].children.len() as int,
                parent_pos,
                clip,
            ),
            noted_upto(
                old(self)@,
                old(self)@[layout_id].children,
                response@,
                final(widget_to_remove)@,
                old(widget_to_remove)@.len() as int,
                old(self)@[layout_id].children.len() as int,
            ),
            kids_noted(
                edges(old(self)@),
                old(self).next_id(),
                layout_id,
                response@,
                final(widget_to_remove)@.skip(old(widget_to_remove)@.len() as int),
                old(self)@[layout_id].children.len(),
            ),
        decreases old(self).next_id() - layout_id.0, 0nat,
    {
        broadcast use vstd::std_specs::hash::group_hash_axioms;

        let ghost n = self.next_id();
        let ghost node = self@[layout_id];
        let ghost window = window_rect(painter.window_size);
        proof {
            assert(self@.contains_key(layout_id));
            assert(noted_below(start, layout_id, widget_to_remove@, widget_to_remove@));
            assert(same_edges(start, self@));
            assert(same_edges(self@, start));
            lemma_same_edges_wf(start, self@, n);
            assert(widget_to_remove@.skip(widget_to_remove@.len() as int) =~= Seq::<LayoutId>::empty());
            lemma_kids_none(edges(self@), n, layout_id, response@);
        }
        let count: usize = self.child_count(layout_id);
        let mut k: usize = 0;
        while k < count
            invariant
                self.structure_wf(),
                n == self.next_id(),
                n == old(self).next_id(),
                tree_wf(start, n),
                start.contains_key(layout_id),
                self.aliases() == old(self).aliases(),
                self.alias_names() == old(self).alias_names(),
                only_moved(*old(painter), *painter),
                window == window_rect(old(painter).window_size),
                noted_below(start, layout_id, old(widget_to_remove)@, widget_to_remove@),
                node == self@[layout_id],
                node == old(self)@[layout_id],
                node.area_and_pos is Some,
                count == node.children.len(),
                k <= count,
                !node.window_relative ==> clip == parent_window,
                node.window_relative ==> clip.clipped_to(window),
                placing(
                    start,
                    self@,
                    layout_id,
                    node,
                    set_items(*children_set),
                    k as int,
                    parent_window,
                    window,
                ),
                answered_upto(
                    old(self)@,
                    self@,
                    node.children,
                    response@,
                    set_items(*children_set),
                    k as int,
                    parent_pos,
                    clip,
                ),
                noted_upto(
                    old(self)@,
                    node.children,
                    response@,
                    widget_to_remove@,
                    old(widget_to_remove)@.len() as int,
                    k as int,
                ),
                same_edges(old(self)@, start),
                tree_wf(old(self)@, n),
                old(widget_to_remove)@.len() <= widget_to_remove@.len(),
                kids_noted(
                    edges(old(self)@),
                    n,
                    layout_id,
                    response@,
                    widget_to_remove@.skip(old(widget_to_remove)@.len() as int),
                    k as nat,
                ),
            decreases count - k,
        {
            let ghost cur = self@;
            let ghost items = set_items(*children_set);
            let ghost noted = widget_to_remove@;
            proof {
                assert(cur.contains_key(layout_id));
                assert(node_wf(cur, n, layout_id));
                assert(child_wf(cur, layout_id, node.children[k as int]));
            }
            let child: LayoutId = self.child_at(layout_id, k);
            let answer: Option<Option<Rect>> = match response.get(&child.0) {
                Some(answer) => Some(*answer),
                None => None,
            };
            match answer {
                Some(Some(child_rect)) => {
                    let (child_window, child_pos): (Rect, Vec2) = child_placement(
                        child_rect,
                        parent_pos,
                        clip,
                    );
                    self.set_area_and_pos(child, Some((child_window, child_pos)));
                    let ghost placed = self@;
                    proof {
                        assert(node_wf(cur, n, child));
                    }
                    self.reanrrage_widgets(
                        child_window,
                        child_pos,
                        child,
                        painter,
                        widget_to_remove,
                    );
                    index_set_swap_remove(children_set, child.0);
                    proof {
                        lemma_insert_same_edges(
                            cur,
                            child,
                            NodeView { area_and_pos: Some((child_window, child_pos)), ..cur[child] },
                        );
                        lemma_same_edges_trans(start, cur, placed);
                        lemma_noted_child(
                            start,
                            placed,
                            n,
                            layout_id,
                            child,
                            old(widget_to_remove)@,
                            noted,
                            widget_to_remove@,
                        );
                        lemma_clipped(child_rect.spec_move_by(parent_pos), clip, window);
                        lemma_placing_place(
                            start,
                            cur,
                            placed,
                            self@,
                            n,
                            layout_id,
                            items,
                            k as int,
                            parent_window,
                            clip,
                            window,
                            child_window,
                            child_pos,
                        );
                        lemma_same_edges_trans(old(self)@, start, cur);
                        lemma_answered_place(
                            old(self)@,
                            cur,
                            placed,
                            self@,
                            n,
                            layout_id,
                            response@,
                            items,
                            k as int,
                            parent_pos,
                            clip,
                        );
                        assert forall|j: int|
                            noted.len() <= j < widget_to_remove@.len() implies is_descendant(
                            old(self)@,
                            node.children[k as int],
                            #[trigger] widget_to_remove@[j],
                        ) by {
                            let id = widget_to_remove@[j];
                            assert(is_descendant(placed, child, id));
                            lemma_same_edges_trans(old(self)@, cur, placed);
                            lemma_same_edges_subtree(old(self)@, placed, child, id);
                        }
                        lemma_noted_place(
                            old(self)@,
                            n,
                            layout_id,
                            response@,
                            noted,
                            widget_to_remove@,
                            old(widget_to_remove)@.len() as int,
                            k as int,
                        );
                        assert(edges(placed) =~= edges(old(self)@));
                        assert(node_wf(old(self)@, n, child));
                        assert(edges(old(self)@)[layout_id] == node.children);
                        lemma_kids_step(
                            edges(old(self)@),
                            n,
                            layout_id,
                            response@,
                            noted,
                            widget_to_remove@,
                            old(widget_to_remove)@.len() as int,
                            k as nat,
                        );
                    }
                },
                Some(None) => {
                    widget_to_remove.push(child);
                    proof {
                        lemma_same_edges_subtree(start, cur, layout_id, child);
                        assert(in_subtree(cur, layout_id, layout_id));
                        assert(in_subtree(cur, layout_id, child));
                        assert(start.contains_key(child));
                        lemma_placing_skip(
                            start,
                            cur,
                            layout_id,
                            node,
                            items,
                            k as int,
                            parent_window,
                            window,
                        );
                        assert(widget_to_remove@ =~= noted.push(child));
                        assert(items.contains(node.children[k as int].0));
                        lemma_answered_skip(
                            old(self)@,
                            cur,
                            node.children,
                            response@,
                            items,
                            k as int,
                            parent_pos,
                            clip,
                        );
                        lemma_noted_skip(
                            old(self)@,
                            node.children,
                            response@,
                            noted,
                            widget_to_remove@,
                            old(widget_to_remove)@.len() as int,
                            k as int,
                        );
                        assert(edges(old(self)@)[layout_id] == node.children);
                        lemma_kids_step(
                            edges(old(self)@),
                            n,
                            layout_id,
                            response@,
                            noted,
                            widget_to_remove@,
                            old(widget_to_remove)@.len() as int,
                            k as nat,
                        );
                    }
                },
                None => {
                    proof {
                        lemma_placing_skip(
                            start,
                            cur,
                            layout_id,
                            node,
                            items,
                            k as int,
                            parent_window,
                            window,
                        );
                        assert(items.contains(node.children[k as int].0));
                        lemma_answered_skip(
                            old(self)@,
                            cur,
                            node.children,
                            response@,
                            items,
                            k as int,
                            parent_pos,
                            clip,
                        );
                        lemma_noted_skip(
                            old(self)@,
                            node.children,
                            response@,
                            noted,
                            widget_to_remove@,
                            old(widget_to_remove)@.len() as int,
                            k as int,
                        );
                        assert(edges(old(self)@)[layout_id] == node.children);
                        lemma_kids_step(
                            edges(old(self)@),
                            n,
                            layout_id,
                            response@,
                            noted,
                            widget_to_remove@,
                            old(widget_to_remove)@.len() as int,
                            k as nat,
                        );
                    }
                },
            }
            k = k + 1;
        }
    }

    /// Hides the children that are left in the set, with everything below them.
    fn hide_unplaced(
        &mut self,
        layout_id: LayoutId,
        children_set: &mut IndexSet<usize>,
        Ghost(start): Ghost<Map<LayoutId, NodeView<W>>>,
        Ghost(clip): Ghost<Rect>,
        Ghost(window): Ghost<Rect>,
    )
        requires
            old(self).structure_wf(),
            tree_wf(start, old(self).next_id()),
            start.contains_key(layout_id),
            placing(
                start,
                old(self)@,
                layout_id,
                old(self)@[layout_id],
                set_items(*old(children_set)),
                old(self)@[layout_id].children.len() as int,
                clip,
                window,
            ),
        ensures
            final(self).structure_wf(),
            final(self).next_id() == old(self).next_id(),
            final(self).aliases() == old(self).aliases(),
            final(self).alias_names() == old(self).alias_names(),
            set_items(*final(children_set)).len() == 0,
            placing(
                start,
                final(self)@,
                layout_id,
                old(self)@[layout_id],
                set_items(*final(children_set)),
                old(self)@[layout_id].children.len() as int,
                clip,
                window,
            ),
            hidden_all(old(self)@, final(self)@, set_items(*old(children_set))),
    {
        let ghost n = self.next_id();
        let ghost node = self@[layout_id];
        let ghost all = set_items(*children_set);
        proof {
            assert(all.skip(all.len() as int) =~= Seq::<usize>::empty());
            assert(all.take(all.len() as int) =~= all);
        }
        loop
            invariant
                all == set_items(*old(children_set)),
                set_items(*children_set).len() <= all.len(),
                set_items(*children_set) == all.take(set_items(*children_set).len() as int),
                hidden_all(old(self)@, self@, all.skip(set_items(*children_set).len() as int)),
                self.structure_wf(),
                n == self.next_id(),
                n == old(self).next_id(),
                tree_wf(start, n),
                start.contains_key(layout_id),
                self.aliases() == old(self).aliases(),
                self.alias_names() == old(self).alias_names(),
                node == self@[layout_id],
                node == old(self)@[layout_id],
                placing(
                    start,
                    self@,
                    layout_id,
                    node,
                    set_items(*children_set),
                    node.children.len() as int,
                    clip,
                    window,
                ),
            ensures
                set_items(*children_set).len() == 0,
                hidden_all(old(self)@, self@, all),
            decreases set_items(*children_set).len(),
        {
            let ghost cur = self@;
            let ghost items = set_items(*children_set);
            match index_set_pop(children_set) {
                Some(item) => {
                    let child: LayoutId = LayoutId(item);
                    proof {
                        assert(is_child_number(node.children, items[items.len() - 1]));
                        let j = choose|j: int|
                            0 <= j < node.children.len() && (#[trigger] node.children[j]).0
                                == items[items.len() - 1];
                        assert(node.children[j] == child);
                        assert(same_edges(start, cur));
                        assert(cur.contains_key(layout_id));
                        assert(node_wf(cur, n, layout_id));
                        assert(child_wf(cur, layout_id, node.children[j]));
                    }
                    self.hide_subtree(child);
                    proof {
                        lemma_placing_hide(start, cur, self@, n, layout_id, items, clip, window);
                        assert(items[items.len() - 1] == all[items.len() - 1]);
                        lemma_hidden_step(old(self)@, cur, self@, all, items.len() as int);
                        assert(items.drop_last() =~= all.take(items.len() - 1));
                    }
                },
                None => {
                    proof {
                        assert(all.skip(0) =~= all);
                    }
                    break ;
                },
            }
        }
    }

    /// Settles the children of `layout_id` as its widget answered in
    /// `response`: what follows the answer in a layout of the subtree of
    /// `layout_id`, see [`children_settled`].
    ///
    /// The children are clipped to `parent_window`, or, where the widget
    /// answered for its own id, to that rectangle cut to the window. A
    /// child with a rectangle is placed there, clipped, and its subtree is
    /// laid out in turn; a child whose answer is `None` is noted in
    /// `widget_to_remove`; every child without a rectangle is hidden with
    /// everything below it.
    pub fn settle_children(
        &mut self,
        layout_id: LayoutId,
        parent_window: Rect,
        parent_pos: Vec2,
        response: &HashMap<usize, Option<Rect>>,
        painter: &mut Painter,
        widget_to_remove: &mut Vec<LayoutId>,
    )
        requires
            old(self).structure_wf(),
            old(self)@.contains_key(layout_id),
            old(self)@[layout_id].area_and_pos is Some,
        ensures
            final(self).structure_wf(),
            final(self).next_id() == old(self).next_id(),
            final(self).aliases() == old(self).aliases(),
            final(self).alias_names() == old(self).alias_names(),
            only_moved(*old(painter), *final(painter)),
            noted_below(old(self)@, layout_id, old(widget_to_remove)@, final(widget_to_remove)@),
            laid_out(old(self)@, final(self)@, layout_id),
            below_placed(
                final(self)@,
                layout_id,
                parent_window,
                window_rect(old(painter).window_size),
            ),
            children_settled(
                old(self)@,
                final(self)@,
                layout_id,
                response@,
                old(widget_to_remove)@,
                final(widget_to_remove)@,
                parent_window,
                parent_pos,
                window_rect(old(painter).window_size),
            ),
            kids_noted(
                edges(old(self)@),
                old(self).next_id(),
                layout_id,
                response@,
                final(widget_to_remove)@.skip(old(widget_to_remove)@.len() as int),
                old(self)@[layout_id].children.len(),
            ),
        decreases old(self).next_id() - layout_id.0, 1nat,
    {
        broadcast use vstd::std_specs::hash::group_hash_axioms;

        let ghost start = self@;
        let ghost n = self.next_id();
        let window: Rect = Rect::from_size(painter.window_size);
        let own: Option<Rect> = match response.get(&layout_id.0) {
            Some(answer) => *answer,
            None => None,
        };
        let clip: Rect = children_clip(own, parent_window, parent_pos, window);
        let mut children_set: IndexSet<usize> = self.children_set(layout_id);
        self.set_window_relative(layout_id, own.is_some());
        proof {
            assert(self@.dom() =~= start.dom());
            lemma_placing_start(
                start,
                self@,
                layout_id,
                set_items(children_set),
                parent_window,
                window,
            );
            lemma_same_edges_wf(start, self@, n);
        }
        let ghost marked = self@;
        let ghost node = self@[layout_id];
        self.place_children(
            layout_id,
            parent_window,
            clip,
            parent_pos,
            response,
            &mut children_set,
            painter,
            widget_to_remove,
            Ghost(start),
        );
        let ghost placed = self@;
        let ghost items = set_items(children_set);
        proof {
            assert(edges(marked) =~= edges(start));
        }
        self.hide_unplaced(
            layout_id,
            &mut children_set,
            Ghost(start),
            Ghost(parent_window),
            Ghost(window),
        );
        proof {
            lemma_placing_done(
                start,
                self@,
                n,
                layout_id,
                node,
                set_items(children_set),
                parent_window,
                window,
            );
            lemma_same_edges_wf(start, marked, n);
            assert(same_edges(marked, placed)) by {
                assert(same_edges(marked, start));
                lemma_same_edges_trans(marked, start, placed);
            }
            lemma_asked_marked(
                start,
                marked,
                placed,
                self@,
                n,
                layout_id,
                response@,
                items,
                old(widget_to_remove)@,
                widget_to_remove@,
                parent_window,
                parent_pos,
                window,
            );
        }
    }

    /// Lays out the subtree of `layout_id`, whose children are clipped to
    /// `parent_window` and whose top-left corner lies at `parent_pos`.
    ///
    /// Every child is asked for the size that it would like, and the
    /// widget of the node is asked to place its children. What the widget
    /// answers is carried out by [`Layout::settle_children`]: a child that
    /// gets a rectangle is placed there, clipped, and laid out in turn; a
    /// child whose answer is `None` is noted in `widget_to_remove`; a
    /// child without a rectangle is hidden with everything below it.
    ///
    /// What is noted in `widget_to_remove` is, at every node that is laid
    /// out, the children whose answer is `None`: see [`walk_noted`].
    ///
    /// Nothing happens where the tree has no such node or the node is hidden.
    pub fn reanrrage_widgets(
        &mut self,
        parent_window: Rect,
        parent_pos: Vec2,
        layout_id: LayoutId,
        painter: &mut Painter,
        widget_to_remove: &mut Vec<LayoutId>,
    )
        requires
            old(self).structure_wf(),
        ensures
            final(self).structure_wf(),
            final(self).next_id() == old(self).next_id(),
            final(self).aliases() == old(self).aliases(),
            final(self).alias_names() == old(self).alias_names(),
            only_moved(*old(painter), *final(painter)),
            noted_below(old(self)@, layout_id, old(widget_to_remove)@, final(widget_to_remove)@),
            laid_out(old(self)@, final(self)@, layout_id),
            old(self)@.contains_key(layout_id) && old(self)@[layout_id].area_and_pos is Some ==> {
                &&& below_placed(
                    final(self)@,
                    layout_id,
                    parent_window,
                    window_rect(old(painter).window_size),
                )
                &&& exists|answers: Map<usize, Option<Rect>>| #[trigger]
                    children_settled(
                        old(self)@,
                        final(self)@,
                        layout_id,
                        answers,
                        old(widget_to_remove)@,
                        final(widget_to_remove)@,
                        parent_window,
                        parent_pos,
                        window_rect(old(painter).window_size),
                    )
                &&& walk_noted(
                    edges(old(self)@),
                    old(self).next_id(),
                    layout_id,
                    final(widget_to_remove)@.skip(old(widget_to_remove)@.len() as int),
                )
            },
            !(old(self)@.contains_key(layout_id) && old(self)@[layout_id].area_and_pos is Some) ==> {
                &&& final(self)@ == old(self)@
                &&& final(widget_to_remove)@ == old(widget_to_remove)@
            },
        decreases old(self).next_id() - layout_id.0, 2nat,
    {
        let ghost start = self@;
        let ghost n = self.next_id();
        proof {
            assert(same_edges(start, start));
            assert(laid_out(start, start, layout_id));
        }
        if !self.contains(layout_id) {
            return;
        }
        let area: Rect = match self.get_widget_area(layout_id) {
            Some(area) => area,
            None => {
                return;
            },
        };
        let sizes: IndexMap<usize, Vec2> = self.measure_children(layout_id, parent_pos, painter);
        let response: HashMap<usize, Option<Rect>> = self.ask_child_layout(layout_id, sizes, area);
        let ghost asked = self@;
        self.settle_children(
            layout_id,
            parent_window,
            parent_pos,
            &response,
            painter,
            widget_to_remove,
        );
        proof {
            lemma_asked_laid_out(
                start,
                asked,
                self@,
                layout_id,
                old(widget_to_remove)@,
                widget_to_remove@,
            );
            assert(edges(asked) =~= edges(start));
            assert(edges(start)[layout_id] == asked[layout_id].children);
            lemma_walk_from_kids(
                edges(start),
                n,
                layout_id,
                response@,
                widget_to_remove@.skip(old(widget_to_remove)@.len() as int),
            );
            lemma_asked_settled(
                start,
                asked,
                self@,
                n,
                layout_id,
                response@,
                old(widget_to_remove)@,
                widget_to_remove@,
                parent_window,
                parent_pos,
                window_rect(old(painter).window_size),
            );
        }
    }

}

} // verus!
