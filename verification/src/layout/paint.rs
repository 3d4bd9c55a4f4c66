//! The paint phase: every dirty widget that can be seen draws itself, and
//! the rectangles of those widgets add up to the part of the window that
//! has to be drawn again.

use vstd::prelude::*;
use crate::layout::remove::{lemma_without_contains, lemma_without_no_duplicates, without};
use crate::layout::tree::{
    child_wf,
    lemma_insert_same_edges,
    lemma_placement_kept,
    lemma_same_edges_wf,
    node_wf,
    placement_same,
    same_edges,
    tree_wf,
    NodeView,
};
use crate::layout::{lemma_view_after_set, node_view, Layout, LayoutId};
use crate::math::rect::Rect;
use crate::math::vec2::Vec2;
use crate::render::painter::Painter;
use crate::widgets::Widget;

verus! {

/// The list `order` after `fuel` more nodes, from number `i` on, have had
/// their children appended: the order in which a walk that visits the tree
/// level by level meets the nodes.
pub open spec fn bfs_from<W>(
    m: Map<LayoutId, NodeView<W>>,
    order: Seq<LayoutId>,
    i: nat,
    fuel: nat,
) -> Seq<LayoutId>
    decreases fuel,
{
    if fuel == 0 || i >= order.len() {
        order
    } else {
        let c = order[i as int];
        bfs_from(
            m,
            if m.contains_key(c) {
                order + m[c].children
            } else {
                order
            },
            i + 1,
            (fuel - 1) as nat,
        )
    }
}

/// The order in which the nodes are painted: the root first, every node
/// before its children, and the children of a node in their order.
pub open spec fn paint_order<W>(m: Map<LayoutId, NodeView<W>>, n: nat) -> Seq<LayoutId> {
    if m.contains_key(LayoutId(0)) {
        bfs_from(m, seq![LayoutId(0)], 0, n)
    } else {
        Seq::empty()
    }
}

/// Whether the node `c` draws itself in the paint phase: it is dirty, and
/// it is placed in a rectangle that is not empty.
pub open spec fn paintable<W>(m: Map<LayoutId, NodeView<W>>, c: LayoutId) -> bool {
    &&& m.contains_key(c)
    &&& m[c].redraw_request
    &&& match m[c].area_and_pos {
        Some((area, _)) => !area.spec_is_empty(),
        None => false,
    }
}

/// The bounding box of the rectangles of the first `k` nodes of `order`
/// that draw themselves; `None` where none of them does.
pub open spec fn redraw_of<W>(m: Map<LayoutId, NodeView<W>>, order: Seq<LayoutId>, k: nat) -> Option<
    Rect,
>
    decreases k,
{
    if k == 0 || k > order.len() {
        None
    } else {
        let before = redraw_of(m, order, (k - 1) as nat);
        let c = order[k - 1];
        if paintable(m, c) {
            match before {
                Some(rect) => Some(rect.spec_union(crate::layout::tree::rect_of(m, c))),
                None => Some(crate::layout::tree::rect_of(m, c)),
            }
        } else {
            before
        }
    }
}

/// Frame skip: where no node is dirty, nothing has to be drawn again.
pub proof fn lemma_frame_skip<W>(m: Map<LayoutId, NodeView<W>>, order: Seq<LayoutId>, k: nat)
    requires
        forall|c: LayoutId| #[trigger] m.contains_key(c) ==> !m[c].redraw_request,
    ensures
        redraw_of(m, order, k) is None,
    decreases k,
{
    if k > 0 && k <= order.len() {
        lemma_frame_skip(m, order, (k - 1) as nat);
    }
}

/// Where a node among the first `k` draws itself, something has to be drawn again.
pub proof fn lemma_redraw_some<W>(m: Map<LayoutId, NodeView<W>>, order: Seq<LayoutId>, k: nat, j: int)
    requires
        0 <= j < k <= order.len(),
        paintable(m, order[j]),
    ensures
        redraw_of(m, order, k) is Some,
    decreases k,
{
    if j < k - 1 {
        lemma_redraw_some(m, order, (k - 1) as nat, j);
    }
}

/// The length of a list without `x`.
pub proof fn lemma_without_len(s: Seq<LayoutId>, x: LayoutId)
    requires
        s.no_duplicates(),
    ensures
        without(s, x).len() == if s.contains(x) {
            s.len() - 1
        } else {
            s.len() as int
        },
    decreases s.len(),
{
    if s.len() > 0 {
        let front = s.drop_last();
        assert(front.no_duplicates());
        lemma_without_len(front, x);
        if s.last() == x {
            assert(!front.contains(x)) by {
                if front.contains(x) {
                    let i = choose|i: int| 0 <= i < front.len() && front[i] == x;
                    assert(s[i] == s[s.len() - 1]);
                }
            }
            assert(s[s.len() - 1] == x);
        } else {
            if s.contains(x) {
                let i = choose|i: int| 0 <= i < s.len() && s[i] == x;
                assert(front[i] == x);
            }
            if front.contains(x) {
                let i = choose|i: int| 0 <= i < front.len() && front[i] == x;
                assert(s[i] == x);
            }
        }
    }
}

/// A list of ids below `n` that holds none twice holds at most `n`.
pub proof fn lemma_distinct_ids(s: Seq<LayoutId>, n: nat)
    requires
        s.no_duplicates(),
        forall|i: int| 0 <= i < s.len() ==> (#[trigger] s[i]).0 < n,
    ensures
        s.len() <= n,
    decreases n,
{
    if n == 0 {
        if s.len() > 0 {
            assert(s[0].0 < n);
        }
    } else {
        let top = LayoutId((n - 1) as usize);
        let rest = without(s, top);
        lemma_without_no_duplicates(s, top);
        lemma_without_len(s, top);
        assert forall|i: int| 0 <= i < rest.len() implies (#[trigger] rest[i]).0 < n - 1 by {
            assert(rest.contains(rest[i]));
            lemma_without_contains(s, top, rest[i]);
            let j = choose|j: int| 0 <= j < s.len() && s[j] == rest[i];
            assert(s[j].0 < n);
        }
        lemma_distinct_ids(rest, (n - 1) as nat);
    }
}

/// What holds of the list of a level-by-level walk of which the first `i`
/// nodes have had their children appended.
///
/// - The list holds no node twice, and nodes of the tree only.
/// - Its first node is the root; every other node in it is a child of one
///   of the first `i` nodes.
/// - The children of each of the first `i` nodes are all in it.
pub open spec fn walk_wf<W>(m: Map<LayoutId, NodeView<W>>, order: Seq<LayoutId>, i: int) -> bool {
    &&& order.no_duplicates()
    &&& 0 <= i <= order.len()
    &&& order.len() > 0
    &&& order[0] == LayoutId(0)
    &&& forall|j: int| 0 <= j < order.len() ==> m.contains_key(#[trigger] order[j])
    &&& forall|j: int|
        1 <= j < order.len() ==> (#[trigger] order[j]).0 != 0 && exists|q: int|
            0 <= q < i && #[trigger] order[q] == m[order[j]].parent
    &&& forall|q: int, t: int|
        0 <= q < i && 0 <= t < m[order[q]].children.len() ==> order.contains(
            #[trigger] m[order[q]].children[t],
        )
}

/// The walk stays sound when the next node has its children appended.
pub proof fn lemma_walk_step<W>(m: Map<LayoutId, NodeView<W>>, n: nat, order: Seq<LayoutId>, i: int)
    requires
        tree_wf(m, n),
        walk_wf(m, order, i),
        i < order.len(),
    ensures
        walk_wf(m, order + m[order[i]].children, i + 1),
{
    let c = order[i];
    let kids = m[c].children;
    let next = order + kids;
    assert(m.contains_key(c));
    assert(node_wf(m, n, c));
    assert forall|a: int, b: int| 0 <= a < next.len() && 0 <= b < next.len() && a != b implies next[a]
        != next[b] by {
        if a >= order.len() && b >= order.len() {
            assert(kids[a - order.len()] != kids[b - order.len()]);
        } else if a >= order.len() || b >= order.len() {
            let (old_one, new_one) = if a >= order.len() {
                (b, a)
            } else {
                (a, b)
            };
            let kid = kids[new_one - order.len()];
            assert(child_wf(m, c, kid));
            if order[old_one] == kid {
                if old_one == 0 {
                } else {
                    let q = choose|q: int| 0 <= q < i && #[trigger] order[q] == m[order[old_one]].parent;
                    assert(order[q] == order[i]);
                }
            }
        }
    }
    assert forall|j: int| 0 <= j < next.len() implies m.contains_key(#[trigger] next[j]) by {
        if j >= order.len() {
            assert(child_wf(m, c, kids[j - order.len()]));
        }
    }
    assert forall|j: int| 1 <= j < next.len() implies (#[trigger] next[j]).0 != 0 && exists|q: int|
        0 <= q < i + 1 && #[trigger] next[q] == m[next[j]].parent by {
        if j >= order.len() {
            assert(child_wf(m, c, kids[j - order.len()]));
            assert(next[i] == m[next[j]].parent);
        } else {
            let q = choose|q: int| 0 <= q < i && #[trigger] order[q] == m[order[j]].parent;
            assert(next[q] == m[next[j]].parent);
        }
    }
    assert forall|q: int, t: int|
        0 <= q < i + 1 && 0 <= t < m[next[q]].children.len() implies next.contains(
        #[trigger] m[next[q]].children[t],
    ) by {
        if q == i {
            assert(next[order.len() + t] == kids[t]);
        } else {
            assert(order.contains(m[order[q]].children[t]));
            let j = choose|j: int| 0 <= j < order.len() && order[j] == m[order[q]].children[t];
            assert(next[j] == m[order[q]].children[t]);
        }
    }
}

/// A walk of which every node has had its children appended holds every
/// node of the tree.
pub proof fn lemma_walk_complete<W>(
    m: Map<LayoutId, NodeView<W>>,
    n: nat,
    order: Seq<LayoutId>,
    c: LayoutId,
)
    requires
        tree_wf(m, n),
        walk_wf(m, order, order.len() as int),
        m.contains_key(c),
    ensures
        order.contains(c),
    decreases c.0,
{
    assert(node_wf(m, n, c));
    if c.0 == 0 {
        assert(order[0] == c);
    } else {
        let p = m[c].parent;
        lemma_walk_complete(m, n, order, p);
        let q = choose|q: int| 0 <= q < order.len() && order[q] == p;
        let t = choose|t: int| 0 <= t < m[p].children.len() && m[p].children[t] == c;
        assert(order.contains(m[order[q]].children[t]));
    }
}

impl<W> Layout<W> {
    /// Appends the children of a node to a list.
    fn push_children(&self, id: LayoutId, order: &mut Vec<LayoutId>)
        requires
            self@.contains_key(id),
        ensures
            final(order)@ == old(order)@ + self@[id].children,
    {
        let ghost before = order@;
        match self.get_children_ids(id) {
            Some(children) => {
                let count: usize = children.len();
                let mut t: usize = 0;
                proof {
                    assert(order@ =~= before + children@.take(0));
                }
                while t < count
                    invariant
                        count == children@.len(),
                        t <= count,
                        order@ == before + children@.take(t as int),
                    decreases count - t,
                {
                    order.push(children[t]);
                    proof {
                        assert(children@.take(t + 1) =~= children@.take(t as int).push(children@[t as int]));
                        assert(order@ =~= before + children@.take(t + 1));
                    }
                    t = t + 1;
                }
                proof {
                    assert(children@.take(count as int) =~= children@);
                }
            },
            None => {},
        }
    }

    /// The nodes in the order in which they are painted.
    pub fn paint_order(&self) -> (order: Vec<LayoutId>)
        requires
            self.structure_wf(),
        ensures
            order@ == paint_order(self@, self.next_id()),
            order@.no_duplicates(),
            forall|c: LayoutId| order@.contains(c) <==> self@.contains_key(c),
    {
        let ghost m = self@;
        let ghost n = self.next_id();
        let mut order: Vec<LayoutId> = Vec::new();
        if !self.contains(LayoutId(0)) {
            proof {
                assert forall|c: LayoutId| !m.contains_key(c) by {
                    if m.contains_key(c) {
                        crate::layout::tree::lemma_root_exists(m, n, c);
                    }
                }
            }
            return order;
        }
        order.push(LayoutId(0));
        let limit: usize = self.nodes.len();
        let mut i: usize = 0;
        proof {
            assert(order@ =~= seq![LayoutId(0)]);
        }
        while i < order.len() && i < limit
            invariant
                self.structure_wf(),
                m == self@,
                n == self.next_id(),
                limit == n,
                i <= order@.len(),
                walk_wf(m, order@, i as int),
                bfs_from(m, order@, i as nat, (n - i) as nat) == paint_order(m, n),
            decreases limit - i,
        {
            let id: LayoutId = order[i];
            let ghost before = order@;
            proof {
                assert(m.contains_key(before[i as int]));
                assert(node_wf(m, n, id));
            }
            self.push_children(id, &mut order);
            proof {
                lemma_walk_step(m, n, before, i as int);
            }
            i = i + 1;
        }
        proof {
            assert forall|j: int| 0 <= j < order@.len() implies (#[trigger] order@[j]).0 < n by {
                assert(m.contains_key(order@[j]));
                assert(node_wf(m, n, order@[j]));
            }
            lemma_distinct_ids(order@, n);
            assert forall|c: LayoutId| order@.contains(c) <==> m.contains_key(c) by {
                if m.contains_key(c) {
                    lemma_walk_complete(m, n, order@, c);
                }
            }
        }
        order
    }
}


/// Whether `cur` is the tree `m` while it is painted, the first `k` nodes of
/// `order` done: those nodes are clean, their widgets may have changed, and
/// nothing else has changed.
pub open spec fn painted_upto<W>(
    m: Map<LayoutId, NodeView<W>>,
    cur: Map<LayoutId, NodeView<W>>,
    order: Seq<LayoutId>,
    k: int,
) -> bool {
    &&& cur.dom() == m.dom()
    &&& forall|c: LayoutId|
        #[trigger] m.contains_key(c) ==> cur[c] == (NodeView {
            widget: cur[c].widget,
            redraw_request: m[c].redraw_request && !order.take(k).contains(c),
            ..m[c]
        })
}

/// To paint the next node of the order is to have one node more done.
pub proof fn lemma_paint_step<W>(
    m: Map<LayoutId, NodeView<W>>,
    cur: Map<LayoutId, NodeView<W>>,
    after: Map<LayoutId, NodeView<W>>,
    order: Seq<LayoutId>,
    k: int,
)
    requires
        order.no_duplicates(),
        0 <= k < order.len(),
        m.contains_key(order[k]),
        painted_upto(m, cur, order, k),
        after == cur.insert(
            order[k],
            NodeView { widget: after[order[k]].widget, redraw_request: false, ..cur[order[k]] },
        ),
    ensures
        painted_upto(m, after, order, k + 1),
        paintable(cur, order[k]) == paintable(m, order[k]),
        crate::layout::tree::rect_of(cur, order[k]) == crate::layout::tree::rect_of(m, order[k]),
{
    let id = order[k];
    assert(order.take(k + 1) =~= order.take(k).push(id));
    assert(!order.take(k).contains(id)) by {
        let shorter = order.take(k);
        if shorter.contains(id) {
            let j = choose|j: int| 0 <= j < shorter.len() && shorter[j] == id;
            assert(order[j] == order[k]);
        }
    }
    assert(after.dom() =~= m.dom());
    assert forall|c: LayoutId| #[trigger] m.contains_key(c) implies after[c] == (NodeView {
        widget: after[c].widget,
        redraw_request: m[c].redraw_request && !order.take(k + 1).contains(c),
        ..m[c]
    }) by {
        let longer = order.take(k + 1);
        let shorter = order.take(k);
        if c == id {
            assert(longer[k] == id);
        } else {
            if longer.contains(c) {
                let j = choose|j: int| 0 <= j < longer.len() && longer[j] == c;
                assert(shorter[j] == c);
            }
            if shorter.contains(c) {
                let j = choose|j: int| 0 <= j < shorter.len() && shorter[j] == c;
                assert(longer[j] == c);
            }
        }
    }
}

/// A tree that was painted is well formed where it was, and clean.
pub proof fn lemma_painted<W>(
    m: Map<LayoutId, NodeView<W>>,
    after: Map<LayoutId, NodeView<W>>,
    n: nat,
    order: Seq<LayoutId>,
)
    requires
        tree_wf(m, n),
        crate::layout::tree::placement_wf(m),
        painted_upto(m, after, order, order.len() as int),
        forall|c: LayoutId| order.contains(c) <==> m.contains_key(c),
    ensures
        tree_wf(after, n),
        crate::layout::tree::placement_wf(after),
        forall|c: LayoutId|
            #[trigger] m.contains_key(c) ==> after[c] == (NodeView {
                widget: after[c].widget,
                redraw_request: false,
                ..m[c]
            }),
{
    assert(order.take(order.len() as int) =~= order);
    assert(same_edges(m, after));
    lemma_same_edges_wf(m, after, n);
    assert forall|c: LayoutId| #[trigger] after.contains_key(c) implies after[c].area_and_pos
        is None || placement_same(m, after, c) by {
        assert(m.contains_key(c));
        assert(node_wf(m, n, c));
        if c.0 != 0 {
            assert(m.contains_key(m[c].parent));
        }
    }
    lemma_placement_kept(m, after);
}

impl<W: Widget> Layout<W> {
    /// Has the node `id` draw itself where it is dirty and can be seen, and
    /// makes it clean. Returns the rectangle of the node where it drew itself.
    fn paint_node(&mut self, id: LayoutId, painter: &mut Painter) -> (r: Option<Rect>)
        requires
            old(self).structure_wf(),
            old(self)@.contains_key(id),
        ensures
            final(self).structure_wf(),
            final(self).next_id() == old(self).next_id(),
            final(self).aliases() == old(self).aliases(),
            final(self).alias_names() == old(self).alias_names(),
            final(painter).window_size == old(painter).window_size || paintable(old(self)@, id),
            final(self)@ == old(self)@.insert(
                id,
                NodeView { widget: final(self)@[id].widget, redraw_request: false, ..old(self)@[id] },
            ),
            r == if paintable(old(self)@, id) {
                Some(crate::layout::tree::rect_of(old(self)@, id))
            } else {
                None
            },
    {
        let ghost slots = self.nodes@;
        let ghost m = self@;
        let drawn: Option<Rect> = match &mut self.nodes[id.0] {
            Some(node) => {
                let mut drawn: Option<Rect> = None;
                match node.element.area_and_pos {
                    Some((area, pos)) => {
                        if node.element.redraw_request && !area.is_empty() {
                            painter.set_clip_rect(area);
                            painter.set_relative_to(pos);
                            painter.reset_blend_mode();
                            painter.reset_fill_mode();
                            painter.reset_transform();
                            let size: Vec2 = if area.size().has_inf() {
                                painter.window_size
                            } else {
                                area.rb().minus(pos)
                            };
                            node.element.widget.draw(painter, size);
                            drawn = Some(area);
                        }
                    },
                    None => {},
                }
                node.element.redraw_request = false;
                drawn
            },
            None => None,
        };
        proof {
            let node = self.nodes[id.0 as int]->0;
            assert(self.nodes@ =~= slots.update(id.0 as int, Some(node)));
            lemma_view_after_set(slots, self.nodes@, id, node);
            lemma_insert_same_edges(m, id, node_view(node));
            lemma_same_edges_wf(m, self@, self.next_id());
        }
        drawn
    }

    /// The paint phase.
    ///
    /// The nodes are visited level by level, every node before its
    /// children and the children of a node in their order. A node that is
    /// dirty and placed in a rectangle that is not empty draws itself, with
    /// the painter clipped to its rectangle and moved to its position.
    /// Every node is clean afterwards.
    ///
    /// Returns the bounding box of the rectangles of the nodes that drew
    /// themselves: the part of the window that has to be drawn again.
    /// `None` says that nothing has changed.
    pub fn handle_paint(&mut self, painter: &mut Painter) -> (r: Option<Rect>)
        requires
            old(self).wf(),
        ensures
            final(self).wf(),
            final(self).next_id() == old(self).next_id(),
            final(self).aliases() == old(self).aliases(),
            final(self).alias_names() == old(self).alias_names(),
            final(self)@.dom() == old(self)@.dom(),
            forall|c: LayoutId|
                #[trigger] old(self)@.contains_key(c) ==> final(self)@[c] == (NodeView {
                    widget: final(self)@[c].widget,
                    redraw_request: false,
                    ..old(self)@[c]
                }),
            r == redraw_of(
                old(self)@,
                paint_order(old(self)@, old(self).next_id()),
                paint_order(old(self)@, old(self).next_id()).len(),
            ),
    {
        let ghost m = self@;
        let ghost n = self.next_id();
        let order: Vec<LayoutId> = self.paint_order();
        let mut refresh_area: Option<Rect> = None;
        let count: usize = order.len();
        let mut k: usize = 0;
        proof {
            assert(order@.take(0) =~= Seq::<LayoutId>::empty());
        }
        while k < count
            invariant
                self.structure_wf(),
                n == self.next_id(),
                m == old(self)@,
                self.aliases() == old(self).aliases(),
                self.alias_names() == old(self).alias_names(),
                count == order@.len(),
                k <= count,
                order@.no_duplicates(),
                forall|c: LayoutId| order@.contains(c) <==> m.contains_key(c),
                painted_upto(m, self@, order@, k as int),
                refresh_area == redraw_of(m, order@, k as nat),
            decreases count - k,
        {
            let id: LayoutId = order[k];
            let ghost cur = self@;
            proof {
                assert(order@.contains(order@[k as int]));
                assert(cur.contains_key(id));
            }
            let drawn: Option<Rect> = self.paint_node(id, painter);
            proof {
                lemma_paint_step(m, cur, self@, order@, k as int);
            }
            match drawn {
                Some(area) => {
                    refresh_area = match refresh_area {
                        Some(refresh) => Some(refresh.union(area)),
                        None => Some(area),
                    };
                },
                None => {},
            }
            k = k + 1;
        }
        proof {
            lemma_painted(m, self@, n, order@);
        }
        refresh_area
    }
}

} // verus!
