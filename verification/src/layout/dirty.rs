//! Dirty flags: which widgets have to be drawn again.

use vstd::prelude::*;
use crate::layout::tree::{
    dirty_above,
    lemma_placement_kept,
    lemma_same_edges_wf,
    node_wf,
    placement_same,
    same_edges,
    NodeView,
};
use crate::layout::{node_view, view_of, Layout, LayoutId, Node};

verus! {

impl<W> Layout<W> {
    /// Whether the slots hold the nodes of `before`, those with an id below
    /// `k` dirty where they or a node above them were dirty.
    pub open(crate) spec fn dirt_spread(&self, before: Seq<Option<Node<W>>>, k: int) -> bool {
        &&& self.nodes.len() == before.len()
        &&& forall|i: int|
            0 <= i < before.len() ==> ((#[trigger] self.nodes[i]) is Some) == (before[i] is Some)
        &&& forall|i: int|
            0 <= i < before.len() && before[i] is Some ==> node_view(
                (#[trigger] self.nodes[i])->0,
            ) == (NodeView {
                redraw_request: if i < k {
                    dirty_above(view_of(before), LayoutId(i as usize))
                } else {
                    node_view(before[i]->0).redraw_request
                },
                ..node_view(before[i]->0)
            }) && self.nodes[i]->0.element.id == before[i]->0.element.id
    }

    /// Makes every node below a dirty node dirty.
    ///
    /// Afterwards a node is dirty exactly where it, or a node above it, was
    /// dirty before; nothing else changes.
    pub fn sperate_dirty_widgets(&mut self)
        requires
            old(self).wf(),
        ensures
            final(self).wf(),
            final(self).next_id() == old(self).next_id(),
            final(self).aliases() == old(self).aliases(),
            final(self).alias_names() == old(self).alias_names(),
            final(self)@.dom() == old(self)@.dom(),
            forall|c: LayoutId|
                #[trigger] old(self)@.contains_key(c) ==> final(self)@[c] == (NodeView {
                    redraw_request: dirty_above(old(self)@, c),
                    ..old(self)@[c]
                }),
    {
        let ghost before = self.nodes@;
        let ghost m = self@;
        let count: usize = self.nodes.len();
        let mut k: usize = 1;
        while k < count
            invariant
                count == before.len(),
                1 <= k <= count,
                before == old(self).nodes@,
                m == view_of(before),
                old(self).wf(),
                self.alias_map == old(self).alias_map,
                self.inversed_alias_map == old(self).inversed_alias_map,
                self.dirt_spread(before, k as int),
            decreases count - k,
        {
            let parent_id: Option<LayoutId> = match &self.nodes[k] {
                Some(node) => Some(node.parent),
                None => None,
            };
            match parent_id {
                Some(parent_id) => {
                    proof {
                        assert(m.contains_key(LayoutId(k)));
                        assert(node_wf(m, count as nat, LayoutId(k)));
                        assert(m.contains_key(parent_id));
                        assert(self.nodes[parent_id.0 as int] is Some);
                    }
                    let parent_dirty: bool = match &self.nodes[parent_id.0] {
                        Some(parent) => parent.element.redraw_request,
                        None => false,
                    };
                    if parent_dirty {
                        let ghost slots = self.nodes@;
                        match &mut self.nodes[k] {
                            Some(node) => {
                                node.element.redraw_request = true;
                            },
                            None => {},
                        }
                        proof {
                            assert forall|i: int| 0 <= i < before.len() && i != k implies self.nodes[i]
                                == slots[i] by {}
                        }
                    }
                },
                None => {},
            }
            k = k + 1;
        }
        proof {
            let after = self@;
            assert(after.dom() =~= m.dom());
            assert forall|c: LayoutId| #[trigger] m.contains_key(c) implies after[c] == (NodeView {
                redraw_request: dirty_above(m, c),
                ..m[c]
            }) by {
                assert(self.nodes[c.0 as int] is Some);
            }
            assert(same_edges(m, after));
            lemma_same_edges_wf(m, after, count as nat);
            assert forall|c: LayoutId| #[trigger] after.contains_key(c) implies after[c].area_and_pos
                is None || placement_same(m, after, c) by {
                assert(m.contains_key(c));
                assert(node_wf(m, count as nat, c));
                if c.0 != 0 {
                    assert(m.contains_key(m[c].parent));
                }
            }
            lemma_placement_kept(m, after);
            assert forall|i: int|
                0 <= i < self.nodes.len() && (#[trigger] self.nodes[i]) is Some
                    implies self.nodes[i]->0.element.id == LayoutId(i as usize) by {
                assert(before[i] is Some);
            }
        }
    }

    /// Makes every node dirty.
    pub fn make_all_dirty(&mut self)
        requires
            old(self).wf(),
        ensures
            final(self).wf(),
            final(self).next_id() == old(self).next_id(),
            final(self).aliases() == old(self).aliases(),
            final(self).alias_names() == old(self).alias_names(),
            final(self)@.dom() == old(self)@.dom(),
            forall|c: LayoutId|
                #[trigger] old(self)@.contains_key(c) ==> final(self)@[c] == (NodeView {
                    redraw_request: true,
                    ..old(self)@[c]
                }),
    {
        let ghost before = self.nodes@;
        let ghost m = self@;
        let count: usize = self.nodes.len();
        let mut k: usize = 0;
        while k < count
            invariant
                count == before.len(),
                k <= count,
                before == old(self).nodes@,
                self.nodes.len() == count,
                self.alias_map == old(self).alias_map,
                self.inversed_alias_map == old(self).inversed_alias_map,
                forall|i: int|
                    0 <= i < count ==> ((#[trigger] self.nodes[i]) is Some) == (before[i] is Some),
                forall|i: int|
                    0 <= i < count && before[i] is Some ==> node_view((#[trigger] self.nodes[i])->0)
                        == (NodeView {
                        redraw_request: i < k || node_view(before[i]->0).redraw_request,
                        ..node_view(before[i]->0)
                    }) && self.nodes[i]->0.element.id == before[i]->0.element.id,
            decreases count - k,
        {
            let ghost slots = self.nodes@;
            match &mut self.nodes[k] {
                Some(node) => {
                    node.element.redraw_request = true;
                },
                None => {},
            }
            proof {
                assert forall|i: int| 0 <= i < count && i != k implies self.nodes[i] == slots[i] by {}
            }
            k = k + 1;
        }
        proof {
            let after = self@;
            assert(after.dom() =~= m.dom());
            assert forall|c: LayoutId| #[trigger] m.contains_key(c) implies after[c] == (NodeView {
                redraw_request: true,
                ..m[c]
            }) by {
                assert(self.nodes[c.0 as int] is Some);
            }
            assert(same_edges(m, after));
            lemma_same_edges_wf(m, after, count as nat);
            assert forall|c: LayoutId| #[trigger] after.contains_key(c) implies after[c].area_and_pos
                is None || placement_same(m, after, c) by {
                assert(m.contains_key(c));
                assert(node_wf(m, count as nat, c));
                if c.0 != 0 {
                    assert(m.contains_key(m[c].parent));
                }
            }
            lemma_placement_kept(m, after);
            assert forall|i: int|
                0 <= i < self.nodes.len() && (#[trigger] self.nodes[i]) is Some
                    implies self.nodes[i]->0.element.id == LayoutId(i as usize) by {
                assert(before[i] is Some);
            }
        }
    }

    /// Whether any node is dirty.
    pub fn any_widget_dirty(&self) -> (r: bool)
        ensures
            r == exists|c: LayoutId| #[trigger] self@.contains_key(c) && self@[c].redraw_request,
    {
        let count: usize = self.nodes.len();
        let mut k: usize = 0;
        while k < count
            invariant
                count == self.nodes.len(),
                k <= count,
                forall|c: LayoutId| c.0 < k && #[trigger] self@.contains_key(c) ==> !self@[c].redraw_request,
            decreases count - k,
        {
            let dirty: bool = match &self.nodes[k] {
                Some(node) => node.element.redraw_request,
                None => false,
            };
            if dirty {
                assert(self@.contains_key(LayoutId(k)));
                return true;
            }
            k = k + 1;
        }
        false
    }
}

} // verus!
