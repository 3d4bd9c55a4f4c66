//! Handing the input of a frame to the widgets.

use vstd::prelude::*;
use crate::layout::tree::{
    child_wf,
    in_subtree,
    lemma_insert_same_edges,
    lemma_placement_kept,
    lemma_same_edges_subtree,
    lemma_same_edges_wf,
    lemma_subtree_of_child,
    node_wf,
    placement_same,
    placement_wf,
    same_edges,
    tree_wf,
    under_first_children,
    NodeView,
};
use crate::layout::{lemma_view_after_set, node_view, Layout, LayoutId};
use crate::widgets::Widget;
use crate::window::input_state::{InputState, InputView};

verus! {

/// Whether the node `b` is the node `a` after it may have handled input:
/// its widget may have changed, and it may have become dirty.
pub open spec fn touched<W>(a: NodeView<W>, b: NodeView<W>) -> bool {
    &&& b == (NodeView { widget: b.widget, redraw_request: b.redraw_request, ..a })
    &&& a.redraw_request ==> b.redraw_request
}

/// Whether `b` is the tree `a` after the nodes in the subtree of `x` may
/// have handled input; nothing else has changed.
pub open spec fn handled<W>(
    a: Map<LayoutId, NodeView<W>>,
    b: Map<LayoutId, NodeView<W>>,
    x: LayoutId,
) -> bool {
    &&& same_edges(a, b)
    &&& forall|c: LayoutId| #[trigger] a.contains_key(c) ==> touched(a[c], b[c])
    &&& forall|c: LayoutId| #[trigger] a.contains_key(c) && !in_subtree(a, x, c) ==> b[c] == a[c]
}

/// Whether `b` is the tree `a` after the nodes below the first `k`
/// children of `x` may have handled input.
pub open spec fn handled_upto<W>(
    a: Map<LayoutId, NodeView<W>>,
    b: Map<LayoutId, NodeView<W>>,
    x: LayoutId,
    k: nat,
) -> bool {
    &&& same_edges(a, b)
    &&& forall|c: LayoutId| #[trigger] a.contains_key(c) ==> touched(a[c], b[c])
    &&& forall|c: LayoutId|
        #[trigger] a.contains_key(c) && !under_first_children(a, x, k, c) ==> b[c] == a[c]
}

/// A tree of which nodes have handled input is well formed where it was.
pub proof fn lemma_handled_wf<W>(
    a: Map<LayoutId, NodeView<W>>,
    b: Map<LayoutId, NodeView<W>>,
    n: nat,
)
    requires
        tree_wf(a, n),
        placement_wf(a),
        same_edges(a, b),
        forall|c: LayoutId| #[trigger] a.contains_key(c) ==> touched(a[c], b[c]),
    ensures
        tree_wf(b, n),
        placement_wf(b),
{
    lemma_same_edges_wf(a, b, n);
    assert forall|c: LayoutId| #[trigger] b.contains_key(c) implies b[c].area_and_pos is None
        || placement_same(a, b, c) by {
        assert(a.contains_key(c));
        assert(node_wf(a, n, c));
        if c.0 != 0 {
            assert(a.contains_key(a[c].parent));
        }
    }
    lemma_placement_kept(a, b);
}

/// The nodes below one child more have handled input.
pub proof fn lemma_handled_step<W>(
    m: Map<LayoutId, NodeView<W>>,
    cur: Map<LayoutId, NodeView<W>>,
    after: Map<LayoutId, NodeView<W>>,
    n: nat,
    x: LayoutId,
    k: nat,
)
    requires
        tree_wf(m, n),
        m.contains_key(x),
        k < m[x].children.len(),
        handled_upto(m, cur, x, k),
        handled(cur, after, m[x].children[k as int]),
    ensures
        handled_upto(m, after, x, k + 1),
{
    let child = m[x].children[k as int];
    assert(same_edges(m, after)) by {
        assert forall|c: LayoutId| #[trigger] m.contains_key(c) implies m[c].parent
            == after[c].parent && m[c].children == after[c].children by {
            assert(cur.contains_key(c));
        }
    }
    assert forall|c: LayoutId| #[trigger] m.contains_key(c) implies touched(m[c], after[c]) by {
        assert(cur.contains_key(c));
    }
    assert forall|c: LayoutId|
        #[trigger] m.contains_key(c) && !under_first_children(m, x, k + 1, c) implies after[c]
        == m[c] by {
        assert(cur.contains_key(c));
        lemma_same_edges_subtree(m, cur, child, c);
        if in_subtree(m, child, c) {
            assert(under_first_children(m, x, k + 1, c));
        }
        if under_first_children(m, x, k, c) {
            let i = choose|i: int|
                0 <= i < k && i < m[x].children.len() && in_subtree(
                    m,
                    #[trigger] m[x].children[i],
                    c,
                );
            assert(under_first_children(m, x, k + 1, c));
        }
    }
}

/// The nodes below all children of `x`, and then `x`, have handled input.
pub proof fn lemma_handled_done<W>(
    m: Map<LayoutId, NodeView<W>>,
    cur: Map<LayoutId, NodeView<W>>,
    after: Map<LayoutId, NodeView<W>>,
    n: nat,
    x: LayoutId,
)
    requires
        tree_wf(m, n),
        m.contains_key(x),
        handled_upto(m, cur, x, m[x].children.len()),
        after == cur.insert(x, after[x]),
        touched(cur[x], after[x]),
    ensures
        handled(m, after, x),
{
    lemma_insert_same_edges(cur, x, after[x]);
    assert(same_edges(m, after)) by {
        assert forall|c: LayoutId| #[trigger] m.contains_key(c) implies m[c].parent
            == after[c].parent && m[c].children == after[c].children by {
            assert(cur.contains_key(c));
        }
    }
    assert(in_subtree(m, x, x));
    assert forall|c: LayoutId| #[trigger] m.contains_key(c) && !in_subtree(m, x, c) implies after[c]
        == m[c] by {
        if under_first_children(m, x, m[x].children.len(), c) {
            let i = choose|i: int|
                0 <= i < m[x].children.len() && in_subtree(m, #[trigger] m[x].children[i], c);
            assert(node_wf(m, n, x));
            assert(child_wf(m, x, m[x].children[i]));
            lemma_subtree_of_child(m, n, x, m[x].children[i], c);
        }
    }
}

impl<W: Widget> Layout<W> {
    /// Hands the input to the node `id` where it can be seen, and makes
    /// the node dirty where its widget asks for it.
    fn handle_own_event(&mut self, id: LayoutId, state: &mut InputState<W::Signal>)
        requires
            old(self).wf(),
            old(self)@.contains_key(id),
        ensures
            final(self).wf(),
            final(self).next_id() == old(self).next_id(),
            final(self).aliases() == old(self).aliases(),
            final(self).alias_names() == old(self).alias_names(),
            final(self)@ == old(self)@.insert(id, final(self)@[id]),
            touched(old(self)@[id], final(self)@[id]),
    {
        let ghost slots = self.nodes@;
        let ghost m = self@;
        let ghost n = self.next_id();
        match &mut self.nodes[id.0] {
            Some(node) => {
                match node.element.area_and_pos {
                    Some((area, pos)) => {
                        if area.is_positive() {
                            let dirty: bool = node.element.widget.handle_event(state, id, area, pos);
                            if dirty {
                                node.element.redraw_request = true;
                            }
                        }
                    },
                    None => {},
                }
            },
            None => {},
        }
        proof {
            let node = self.nodes[id.0 as int]->0;
            assert(self.nodes@ =~= slots.update(id.0 as int, Some(node)));
            lemma_view_after_set(slots, self.nodes@, id, node);
            lemma_insert_same_edges(m, id, node_view(node));
            let after = self@;
            assert forall|c: LayoutId| #[trigger] m.contains_key(c) implies touched(m[c], after[c]) by {}
            lemma_handled_wf(m, after, n);
        }
    }

    /// Hands the input of the frame to the widgets in the subtree of
    /// `parent_id`: to every node after the nodes below it, and to the
    /// children of a node in their order.
    ///
    /// A hidden widget, or one whose rectangle is empty, gets no input. A
    /// widget that asks for it becomes dirty; nothing else changes in the
    /// tree. Before the turn of a node, the input notes the node as the
    /// one that is handling its events. What the widgets do with the input
    /// is theirs to decide.
    pub fn handle_events(&mut self, parent_id: LayoutId, state: &mut InputState<W::Signal>)
        requires
            old(self).wf(),
        ensures
            final(self).wf(),
            final(self).next_id() == old(self).next_id(),
            final(self).aliases() == old(self).aliases(),
            final(self).alias_names() == old(self).alias_names(),
            !old(self)@.contains_key(parent_id) ==> final(self)@ == old(self)@ && final(state)@ == (
            InputView { handling_id: parent_id, ..old(state)@ }) && final(state).program_start_time
                == old(state).program_start_time,
            old(self)@.contains_key(parent_id) ==> handled(old(self)@, final(self)@, parent_id),
        decreases old(self).next_id() - parent_id.0,
    {
        let ghost m = self@;
        let ghost n = self.next_id();
        if !self.contains(parent_id) {
            state.handling_id = parent_id;
            return;
        }
        let count: usize = self.child_count(parent_id);
        let mut k: usize = 0;
        proof {
            assert(same_edges(m, m));
        }
        while k < count
            invariant
                self.wf(),
                n == self.next_id(),
                n == old(self).next_id(),
                m == old(self)@,
                tree_wf(m, n),
                m.contains_key(parent_id),
                self.aliases() == old(self).aliases(),
                self.alias_names() == old(self).alias_names(),
                count == m[parent_id].children.len(),
                k <= count,
                handled_upto(m, self@, parent_id, k as nat),
            decreases count - k,
        {
            let ghost cur = self@;
            proof {
                assert(cur.contains_key(parent_id));
                assert(cur[parent_id].children == m[parent_id].children);
                assert(node_wf(m, n, parent_id));
                assert(child_wf(m, parent_id, m[parent_id].children[k as int]));
                assert(node_wf(m, n, m[parent_id].children[k as int]));
            }
            let child: LayoutId = self.child_at(parent_id, k);
            proof {
                assert(cur.contains_key(child));
            }
            self.handle_events(child, state);
            proof {
                lemma_handled_step(m, cur, self@, n, parent_id, k as nat);
            }
            k = k + 1;
        }
        let ghost cur = self@;
        proof {
            assert(cur.contains_key(parent_id));
        }
        state.handling_id = parent_id;
        self.handle_own_event(parent_id, state);
        proof {
            lemma_handled_done(m, cur, self@, n, parent_id);
        }
    }
}

} // verus!
