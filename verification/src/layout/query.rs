//! Questions about the tree, and changes to single widgets.

use vstd::prelude::*;
use crate::layout::tree::{
    chain_up,
    depth_of,
    lemma_depth_bound,
    lemma_insert_same_edges,
    lemma_placement_kept,
    lemma_same_edges_wf,
    max_depth,
    node_wf,
    placement_same,
    NodeView,
};
use crate::layout::{lemma_view_after_set, node_view, Layout, LayoutId, Node};
use crate::math::vec2::Vec2;
use crate::widgets::Widget;

verus! {

impl<W> Layout<W> {
    /// Changes the widget of a node by `f`, and makes the node dirty.
    ///
    /// Nothing happens where the tree has no such node.
    pub fn widget_mut<F: FnOnce(W) -> W>(&mut self, id: LayoutId, f: F)
        requires
            old(self).wf(),
            old(self)@.contains_key(id) ==> f.requires((old(self)@[id].widget,)),
        ensures
            final(self).wf(),
            final(self).next_id() == old(self).next_id(),
            final(self).aliases() == old(self).aliases(),
            final(self).alias_names() == old(self).alias_names(),
            !old(self)@.contains_key(id) ==> final(self)@ == old(self)@,
            old(self)@.contains_key(id) ==> f.ensures(
                (old(self)@[id].widget,),
                final(self)@[id].widget,
            ) && final(self)@ == old(self)@.insert(
                id,
                NodeView {
                    widget: final(self)@[id].widget,
                    redraw_request: true,
                    ..old(self)@[id]
                },
            ),
    {
        if !self.contains(id) {
            return;
        }
        let ghost slots = self.nodes@;
        let ghost m = self@;
        let ghost n = self.next_id();
        let taken: Option<Node<W>> = self.nodes[id.0].take();
        match taken {
            Some(node) => {
                let Node { element, window_relative, parent, children } = node;
                let crate::layout::LayoutElement { id: own, area_and_pos, widget, redraw_request: _ } =
                    element;
                let widget: W = f(widget);
                self.nodes[id.0] = Some(
                    Node {
                        element: crate::layout::LayoutElement {
                            id: own,
                            area_and_pos,
                            widget,
                            redraw_request: true,
                        },
                        window_relative,
                        parent,
                        children,
                    },
                );
            },
            None => {},
        }
        proof {
            let node = self.nodes[id.0 as int]->0;
            assert(self.nodes@ =~= slots.update(id.0 as int, Some(node)));
            lemma_view_after_set(slots, self.nodes@, id, node);
            lemma_insert_same_edges(m, id, node_view(node));
            lemma_same_edges_wf(m, self@, n);
            let after = self@;
            assert forall|c: LayoutId| #[trigger] after.contains_key(c) implies after[c].area_and_pos
                is None || placement_same(m, after, c) by {
                assert(m.contains_key(c));
                assert(node_wf(m, n, c));
                if c.0 != 0 {
                    assert(m.contains_key(m[c].parent));
                }
            }
            lemma_placement_kept(m, after);
        }
    }

    /// Changes the widget of the node that `alias` stands for: see
    /// [`Layout::widget_mut`].
    pub fn widget_mut_by_alias<F: FnOnce(W) -> W>(&mut self, alias: &str, f: F)
        requires
            old(self).wf(),
            old(self).aliases().contains_key(alias@) && old(self)@.contains_key(
                old(self).aliases()[alias@],
            ) ==> f.requires((old(self)@[old(self).aliases()[alias@]].widget,)),
        ensures
            final(self).wf(),
            final(self).next_id() == old(self).next_id(),
            final(self).aliases() == old(self).aliases(),
            final(self).alias_names() == old(self).alias_names(),
            !(old(self).aliases().contains_key(alias@) && old(self)@.contains_key(
                old(self).aliases()[alias@],
            )) ==> final(self)@ == old(self)@,
            old(self).aliases().contains_key(alias@) && old(self)@.contains_key(
                old(self).aliases()[alias@],
            ) ==> {
                let id = old(self).aliases()[alias@];
                &&& f.ensures((old(self)@[id].widget,), final(self)@[id].widget)
                &&& final(self)@ == old(self)@.insert(
                    id,
                    NodeView {
                        widget: final(self)@[id].widget,
                        redraw_request: true,
                        ..old(self)@[id]
                    },
                )
            },
    {
        match self.alias_to_id(alias) {
            Some(id) => {
                self.widget_mut(id, f);
            },
            None => {},
        }
    }

    /// The nodes above a node, the root first and the parent last.
    pub fn get_parents(&self, id: LayoutId) -> (r: Vec<LayoutId>)
        requires
            self.wf(),
        ensures
            r@ == chain_up(self@, id).reverse(),
    {
        let ghost m = self@;
        let mut up: Vec<LayoutId> = Vec::new();
        let mut current: LayoutId = id;
        proof {
            assert(up@ + chain_up(m, current) =~= chain_up(m, id));
        }
        while current.0 != 0 && self.contains(current)
            invariant
                self.wf(),
                m == self@,
                up@ + chain_up(m, current) == chain_up(m, id),
            decreases current.0,
        {
            proof {
                assert(node_wf(m, self.next_id(), current));
            }
            let parent: LayoutId = match &self.nodes[current.0] {
                Some(node) => node.parent,
                None => current,
            };
            let ghost before = up@;
            up.push(parent);
            proof {
                assert(chain_up(m, current) =~= seq![parent] + chain_up(m, parent));
                assert(up@ + chain_up(m, parent) =~= before + chain_up(m, current));
            }
            current = parent;
        }
        proof {
            assert(chain_up(m, current) =~= Seq::<LayoutId>::empty());
            assert(up@ =~= chain_up(m, id));
        }
        let count: usize = up.len();
        let mut out: Vec<LayoutId> = Vec::new();
        let mut k: usize = count;
        while k > 0
            invariant
                count == up@.len(),
                k <= count,
                out@.len() == count - k,
                forall|j: int| 0 <= j < out@.len() ==> out@[j] == up@[count - 1 - j],
            decreases k,
        {
            k = k - 1;
            out.push(up[k]);
        }
        proof {
            assert(out@ =~= up@.reverse());
        }
        out
    }

    /// The nodes above the node that `alias` stands for; none where the
    /// name stands for no id.
    pub fn get_parents_by_alias(&self, alias: &str) -> (r: Vec<LayoutId>)
        requires
            self.wf(),
        ensures
            r@ == if self.aliases().contains_key(alias@) {
                chain_up(self@, self.aliases()[alias@]).reverse()
            } else {
                Seq::empty()
            },
    {
        match self.alias_to_id(alias) {
            Some(id) => self.get_parents(id),
            None => Vec::new(),
        }
    }

    /// The number of levels below the root: the largest number of nodes
    /// above any node.
    pub fn layers(&self) -> (r: usize)
        requires
            self.wf(),
        ensures
            r == max_depth(self@, self.next_id()),
    {
        let ghost m = self@;
        let count: usize = self.nodes.len();
        let mut depths: Vec<usize> = Vec::new();
        let mut out: usize = 0;
        let mut k: usize = 0;
        while k < count
            invariant
                self.wf(),
                m == self@,
                count == self.nodes.len(),
                k <= count,
                depths@.len() == k,
                forall|j: int| 0 <= j < k ==> depths@[j] == depth_of(m, LayoutId(j as usize)),
                out == max_depth(m, k as nat),
            decreases count - k,
        {
            let depth: usize = match &self.nodes[k] {
                Some(node) => {
                    proof {
                        assert(m.contains_key(LayoutId(k)));
                        assert(node_wf(m, count as nat, LayoutId(k)));
                        lemma_depth_bound(m, LayoutId(k));
                    }
                    if k == 0 {
                        0
                    } else {
                        depths[node.parent.0] + 1
                    }
                },
                None => 0,
            };
            if self.nodes[k].is_some() && depth > out {
                out = depth;
            }
            depths.push(depth);
            k = k + 1;
        }
        out
    }
}

impl<W: Widget> Layout<W> {
    /// The padding that the widget of a node keeps, as the widget says;
    /// `None` where the tree has no such node.
    pub fn get_widget_padding(&self, id: LayoutId) -> (r: Option<Vec2>)
        ensures
            r is Some == self@.contains_key(id),
    {
        if id.0 < self.nodes.len() {
            match &self.nodes[id.0] {
                Some(node) => Some(node.element.widget.inner_padding()),
                None => None,
            }
        } else {
            None
        }
    }
}

} // verus!
