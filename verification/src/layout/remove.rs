//! Taking widgets out of the tree: a subtree, the children of a node, or
//! the widget of a node that is replaced.

use vstd::prelude::*;
use crate::layout::tree::{
    lemma_placement_kept,
    placement_same,
    placement_wf,
    child_wf,
    in_subtree,
    is_descendant,
    lemma_postorder,
    lemma_subtree_ids,
    node_wf,
    postorder,
    postorder_below,
    tree_wf,
    NodeView,
};
use crate::layout::{
    lemma_view_after_set,
    lemma_view_after_take,
    node_view,
    Layout,
    LayoutElement,
    LayoutId,
    Node,
};

verus! {

/// The list without `x`, the order of the others kept.
pub open spec fn without(s: Seq<LayoutId>, x: LayoutId) -> Seq<LayoutId>
    decreases s.len(),
{
    if s.len() == 0 {
        s
    } else if s.last() == x {
        without(s.drop_last(), x)
    } else {
        without(s.drop_last(), x).push(s.last())
    }
}

/// A list without `x` holds what the list held, but `x`.
pub proof fn lemma_without_contains(s: Seq<LayoutId>, x: LayoutId, c: LayoutId)
    ensures
        without(s, x).contains(c) <==> s.contains(c) && c != x,
    decreases s.len(),
{
    if s.len() > 0 {
        let front = s.drop_last();
        let w = without(s, x);
        let short = without(front, x);
        lemma_without_contains(front, x, c);
        if w.contains(c) {
            let j = choose|j: int| 0 <= j < w.len() && w[j] == c;
            if s.last() != x && j == short.len() {
                assert(s[s.len() - 1] == c);
            } else {
                assert(short[j] == c);
                assert(short.contains(c));
                let i = choose|i: int| 0 <= i < front.len() && front[i] == c;
                assert(s[i] == c);
            }
        }
        if s.contains(c) && c != x {
            let i = choose|i: int| 0 <= i < s.len() && s[i] == c;
            if i == s.len() - 1 {
                assert(w[short.len() as int] == c);
            } else {
                assert(front[i] == c);
                assert(front.contains(c));
                assert(short.contains(c));
                let j = choose|j: int| 0 <= j < short.len() && short[j] == c;
                assert(w[j] == c);
            }
        }
    }
}

/// A list without `x` holds nothing twice that the list held once.
pub proof fn lemma_without_no_duplicates(s: Seq<LayoutId>, x: LayoutId)
    requires
        s.no_duplicates(),
    ensures
        without(s, x).no_duplicates(),
    decreases s.len(),
{
    if s.len() > 0 {
        let front = s.drop_last();
        let w = without(s, x);
        let short = without(front, x);
        assert(front.no_duplicates());
        lemma_without_no_duplicates(front, x);
        if s.last() != x {
            assert forall|i: int, j: int|
                0 <= i < w.len() && 0 <= j < w.len() && i != j implies w[i] != w[j] by {
                if i == short.len() || j == short.len() {
                    let other = if i == short.len() {
                        j
                    } else {
                        i
                    };
                    assert(short.contains(short[other]));
                    lemma_without_contains(front, x, short[other]);
                    let k = choose|k: int| 0 <= k < front.len() && front[k] == short[other];
                    assert(s[k] == short[other]);
                }
            }
        }
    }
}

/// The widgets of the nodes in `order`, in this order.
pub open spec fn widgets_of<W>(m: Map<LayoutId, NodeView<W>>, order: Seq<LayoutId>) -> Seq<W> {
    Seq::new(order.len(), |i: int| m[order[i]].widget)
}

/// The tree without the nodes below `x`: where there were any, `x` has no
/// children and is dirty; otherwise nothing has changed.
pub open spec fn without_descendants<W>(m: Map<LayoutId, NodeView<W>>, x: LayoutId) -> Map<
    LayoutId,
    NodeView<W>,
> {
    if m[x].children.len() == 0 {
        m
    } else {
        m.remove_keys(Set::new(|c: LayoutId| is_descendant(m, x, c))).insert(
            x,
            NodeView { children: Seq::empty(), redraw_request: true, ..m[x] },
        )
    }
}

/// The tree without the subtree of `x`: the parent of `x` is dirty and
/// lists `x` no more. (The root is its own parent and leaves with its subtree.)
pub open spec fn without_subtree<W>(m: Map<LayoutId, NodeView<W>>, x: LayoutId) -> Map<
    LayoutId,
    NodeView<W>,
> {
    let rest = m.remove_keys(Set::new(|c: LayoutId| m.contains_key(c) && in_subtree(m, x, c)));
    let p = m[x].parent;
    if p == x {
        rest
    } else {
        rest.insert(p, NodeView { children: without(m[p].children, x), redraw_request: true, ..m[p] })
    }
}

/// The tree with the widget of `x` replaced: the nodes below `x` are gone,
/// `x` holds the new widget, is hidden and dirty, and its parent is dirty.
pub open spec fn with_replaced<W>(m: Map<LayoutId, NodeView<W>>, x: LayoutId, widget: W) -> Map<
    LayoutId,
    NodeView<W>,
> {
    let rest = m.remove_keys(Set::new(|c: LayoutId| is_descendant(m, x, c)));
    let p = m[x].parent;
    rest.insert(p, NodeView { redraw_request: true, ..m[p] }).insert(
        x,
        NodeView {
            widget,
            area_and_pos: None,
            redraw_request: true,
            window_relative: false,
            parent: p,
            children: Seq::empty(),
        },
    )
}

/// A well-formed tree is well formed without the nodes below one of its nodes.
pub proof fn lemma_without_descendants_wf<W>(m: Map<LayoutId, NodeView<W>>, n: nat, x: LayoutId)
    requires
        tree_wf(m, n),
        m.contains_key(x),
    ensures
        tree_wf(without_descendants(m, x), n),
        tree_wf(
            m.remove_keys(Set::new(|c: LayoutId| is_descendant(m, x, c))).insert(
                x,
                NodeView { children: Seq::empty(), ..m[x] },
            ),
            n,
        ),
{
    lemma_rest_wf(m, n, x, NodeView { children: Seq::empty(), redraw_request: true, ..m[x] });
    lemma_rest_wf(m, n, x, NodeView { children: Seq::empty(), ..m[x] });
}

/// A well-formed tree stays well formed when the nodes below `x` leave and
/// `x` becomes a node without children under the same parent.
pub proof fn lemma_rest_wf<W>(m: Map<LayoutId, NodeView<W>>, n: nat, x: LayoutId, node: NodeView<W>)
    requires
        tree_wf(m, n),
        m.contains_key(x),
        node.parent == m[x].parent,
        node.children == Seq::<LayoutId>::empty(),
    ensures
        tree_wf(m.remove_keys(Set::new(|c: LayoutId| is_descendant(m, x, c))).insert(x, node), n),
{
    let after = m.remove_keys(Set::new(|c: LayoutId| is_descendant(m, x, c))).insert(x, node);
    assert(node_wf(m, n, x));
    assert forall|c: LayoutId| #[trigger] after.contains_key(c) implies node_wf(after, n, c) by {
        assert(m.contains_key(c));
        assert(node_wf(m, n, c));
        if c.0 != 0 {
            let p = m[c].parent;
            assert(m.contains_key(p));
            if is_descendant(m, x, p) {
                // Then `c` would lie below `x` too, or be `x` below itself.
                if c == x {
                    lemma_subtree_ids(m, x, p);
                }
                assert(in_subtree(m, x, c));
            }
            assert(after.contains_key(p));
            if p == x && c != x {
                assert(in_subtree(m, x, x));
                assert(in_subtree(m, x, c));
            }
            assert(after[p].children.contains(c)) by {
                let k = choose|k: int| 0 <= k < m[p].children.len() && m[p].children[k] == c;
                if p != x {
                    assert(after[p].children[k] == c);
                }
            }
        }
        if c != x {
            assert forall|i: int| 0 <= i < after[c].children.len() implies child_wf(
                after,
                c,
                #[trigger] after[c].children[i],
            ) by {
                let ch = m[c].children[i];
                assert(child_wf(m, c, ch));
                if is_descendant(m, x, ch) {
                    assert(in_subtree(m, x, m[ch].parent));
                    assert(in_subtree(m, x, c));
                }
            }
        }
    }
}

/// A well-formed tree is well formed without one of its subtrees.
pub proof fn lemma_without_subtree_wf<W>(m: Map<LayoutId, NodeView<W>>, n: nat, x: LayoutId)
    requires
        tree_wf(m, n),
        m.contains_key(x),
    ensures
        tree_wf(without_subtree(m, x), n),
{
    let after = without_subtree(m, x);
    let p = m[x].parent;
    assert(node_wf(m, n, x));
    assert(in_subtree(m, x, x));
    if p != x {
        assert(m.contains_key(p));
        assert(node_wf(m, n, p));
        lemma_without_no_duplicates(m[p].children, x);
        if in_subtree(m, x, p) {
            lemma_subtree_ids(m, x, p);
        }
        assert(after.contains_key(p));
    }
    assert forall|c: LayoutId| #[trigger] after.contains_key(c) implies node_wf(after, n, c) by {
        assert(m.contains_key(c));
        assert(node_wf(m, n, c));
        assert(!in_subtree(m, x, c));
        if c.0 != 0 {
            let q = m[c].parent;
            assert(m.contains_key(q));
            assert(!in_subtree(m, x, q));
            assert(after.contains_key(q));
            if q == p && p != x {
                lemma_without_contains(m[p].children, x, c);
            } else {
                let k = choose|k: int| 0 <= k < m[q].children.len() && m[q].children[k] == c;
                assert(after[q].children[k] == c);
            }
        }
        assert forall|i: int| 0 <= i < after[c].children.len() implies child_wf(
            after,
            c,
            #[trigger] after[c].children[i],
        ) by {
            let ch = after[c].children[i];
            assert(after[c].children.contains(ch));
            if c == p && p != x {
                lemma_without_contains(m[p].children, x, ch);
            }
            assert(m[c].children.contains(ch));
            let k = choose|k: int| 0 <= k < m[c].children.len() && m[c].children[k] == ch;
            assert(child_wf(m, c, m[c].children[k]));
            if in_subtree(m, x, ch) {
                assert(ch != x);
                assert(in_subtree(m, x, m[ch].parent));
            }
        }
    }
}

/// The post-order below a node holds exactly the nodes below it.
pub proof fn lemma_below_member<W>(m: Map<LayoutId, NodeView<W>>, n: nat, x: LayoutId, c: LayoutId)
    requires
        tree_wf(m, n),
        m.contains_key(x),
    ensures
        postorder_below(m, n, x, m[x].children.len()).contains(c) <==> is_descendant(m, x, c),
        postorder(m, n, x).contains(c) <==> m.contains_key(c) && in_subtree(m, x, c),
{
    lemma_postorder(m, n, x);
}

impl<W> Layout<W> {
    /// Appends the ids of the nodes below `id` to `out`, in post-order.
    fn collect_below(&self, id: LayoutId, out: &mut Vec<LayoutId>)
        requires
            self.wf(),
            self@.contains_key(id),
        ensures
            final(out)@ == old(out)@ + postorder_below(
                self@,
                self.next_id(),
                id,
                self@[id].children.len(),
            ),
        decreases self.next_id() - id.0,
    {
        let ghost m = self@;
        let ghost n = self.next_id();
        let ghost start = out@;
        proof {
            assert(node_wf(m, n, id));
        }
        let count: usize = match &self.nodes[id.0] {
            Some(node) => node.children.len(),
            None => 0,
        };
        let mut k: usize = 0;
        assert(out@ =~= start + postorder_below(m, n, id, 0));
        while k < count
            invariant
                self.wf(),
                m == self@,
                n == self.next_id(),
                m.contains_key(id),
                count == m[id].children.len(),
                k <= count,
                out@ == start + postorder_below(m, n, id, k as nat),
            decreases count - k,
        {
            let child: LayoutId = match &self.nodes[id.0] {
                Some(node) => node.children[k],
                None => id,
            };
            proof {
                assert(node_wf(m, n, id));
                assert(child_wf(m, id, m[id].children[k as int]));
                assert(m.contains_key(child));
                assert(node_wf(m, n, child));
            }
            self.collect_below(child, out);
            out.push(child);
            proof {
                assert(out@ =~= start + postorder_below(m, n, id, (k + 1) as nat));
            }
            k = k + 1;
        }
    }

    /// Takes the nodes of `order` out of their slots and returns their widgets.
    fn take_nodes(&mut self, order: &Vec<LayoutId>) -> (out: Vec<W>)
        requires
            order@.no_duplicates(),
            forall|i: int| 0 <= i < order@.len() ==> old(self)@.contains_key(#[trigger] order@[i]),
        ensures
            out@ == widgets_of(old(self)@, order@),
            final(self)@ == old(self)@.remove_keys(Set::new(|c: LayoutId| order@.contains(c))),
            final(self).nodes.len() == old(self).nodes.len(),
            forall|i: int|
                0 <= i < old(self).nodes.len() && !order@.contains(LayoutId(i as usize))
                    ==> #[trigger] final(self).nodes[i] == old(self).nodes[i],
            forall|i: int|
                0 <= i < old(self).nodes.len() ==> (#[trigger] final(self).nodes[i]) is None
                    || final(self).nodes[i] == old(self).nodes[i],
            final(self).alias_map == old(self).alias_map,
            final(self).inversed_alias_map == old(self).inversed_alias_map,
    {
        let ghost m = self@;
        let mut out: Vec<W> = Vec::new();
        let count: usize = order.len();
        let mut k: usize = 0;
        assert(out@ =~= widgets_of(m, order@.take(0)));
        while k < count
            invariant
                count == order@.len(),
                k <= count,
                order@.no_duplicates(),
                m == old(self)@,
                forall|i: int| 0 <= i < order@.len() ==> m.contains_key(#[trigger] order@[i]),
                self.nodes.len() == old(self).nodes.len(),
                self.alias_map == old(self).alias_map,
                self.inversed_alias_map == old(self).inversed_alias_map,
                out@ == widgets_of(m, order@.take(k as int)),
                forall|i: int|
                    0 <= i < self.nodes.len() ==> #[trigger] self.nodes[i] == if order@.take(
                        k as int,
                    ).contains(LayoutId(i as usize)) {
                        None
                    } else {
                        old(self).nodes[i]
                    },
            decreases count - k,
        {
            let id: LayoutId = order[k];
            proof {
                assert(m.contains_key(order@[k as int]));
                if order@.take(k as int).contains(id) {
                    let j = choose|j: int| 0 <= j < k && order@.take(k as int)[j] == id;
                    assert(order@[j] == order@[k as int]);
                }
                assert(self.nodes[id.0 as int] == old(self).nodes[id.0 as int]);
            }
            let ghost slots = self.nodes@;
            let taken: Option<Node<W>> = self.nodes[id.0].take();
            assert(self.nodes@ =~= slots.update(id.0 as int, None));
            match taken {
                Some(node) => {
                    out.push(node.element.widget);
                },
                None => {},
            }
            proof {
                let next = order@.take(k + 1);
                let prev = order@.take(k as int);
                assert(next =~= prev.push(id));
                assert(out@ =~= widgets_of(m, next));
                assert forall|i: int| 0 <= i < self.nodes.len() implies #[trigger] self.nodes[i]
                    == if next.contains(LayoutId(i as usize)) {
                    None
                } else {
                    old(self).nodes[i]
                } by {
                    if i == id.0 {
                        assert(next[k as int] == id);
                    } else {
                        assert(self.nodes[i] == slots[i]);
                        if next.contains(LayoutId(i as usize)) {
                            let j = choose|j: int|
                                0 <= j < next.len() && next[j] == LayoutId(i as usize);
                            assert(prev[j] == LayoutId(i as usize));
                        }
                        if prev.contains(LayoutId(i as usize)) {
                            let j = choose|j: int|
                                0 <= j < prev.len() && prev[j] == LayoutId(i as usize);
                            assert(next[j] == LayoutId(i as usize));
                        }
                    }
                }
            }
            k = k + 1;
        }
        proof {
            assert(order@.take(count as int) =~= order@);
            lemma_view_after_take(
                old(self).nodes@,
                self.nodes@,
                Set::new(|c: LayoutId| order@.contains(c)),
            );
        }
        out
    }

    /// Removes every node below `id` and returns their widgets in
    /// post-order: each widget after the widgets below it.
    ///
    /// Where `id` had children it has none afterwards and is dirty. Where
    /// it had none, or the tree has no node `id`, nothing changes and
    /// nothing is returned.
    pub fn remove_widget_children(&mut self, id: LayoutId) -> (out: Vec<W>)
        requires
            old(self).wf(),
        ensures
            final(self).wf(),
            final(self).next_id() == old(self).next_id(),
            final(self).aliases() == old(self).aliases(),
            final(self).alias_names() == old(self).alias_names(),
            !old(self)@.contains_key(id) ==> out@.len() == 0 && final(self)@ == old(self)@,
            old(self)@.contains_key(id) ==> {
                &&& out@ == widgets_of(
                    old(self)@,
                    postorder_below(
                        old(self)@,
                        old(self).next_id(),
                        id,
                        old(self)@[id].children.len(),
                    ),
                )
                &&& final(self)@ == without_descendants(old(self)@, id)
            },
    {
        let ghost m = self@;
        let ghost n = self.next_id();
        if !self.contains(id) {
            return Vec::new();
        }
        let ghost below = postorder_below(m, n, id, m[id].children.len());
        let mut order: Vec<LayoutId> = Vec::new();
        self.collect_below(id, &mut order);
        proof {
            assert(order@ =~= below);
            lemma_postorder(m, n, id);
            assert(node_wf(m, n, id));
            assert forall|i: int| 0 <= i < below.len() implies m.contains_key(
                #[trigger] below[i],
            ) by {
                assert(below.contains(below[i]));
                lemma_below_member(m, n, id, below[i]);
            }
            if m[id].children.len() > 0 {
                assert(child_wf(m, id, m[id].children[0]));
                assert(in_subtree(m, id, id));
                assert(is_descendant(m, id, m[id].children[0]));
                lemma_below_member(m, n, id, m[id].children[0]);
            } else {
                assert(below =~= Seq::<LayoutId>::empty());
            }
        }
        if order.len() == 0 {
            assert(widgets_of(m, below) =~= Seq::<W>::empty());
            return Vec::new();
        }
        let out: Vec<W> = self.take_nodes(&order);
        let ghost slots = self.nodes@;
        proof {
            lemma_below_member(m, n, id, id);
            assert(!below.contains(id));
            assert(self.nodes[id.0 as int] == old(self).nodes[id.0 as int]);
        }
        match &mut self.nodes[id.0] {
            Some(node) => {
                node.children.clear();
                node.element.redraw_request = true;
            },
            None => {},
        }
        proof {
            let gone = Set::new(|c: LayoutId| is_descendant(m, id, c));
            let taken = Set::new(|c: LayoutId| order@.contains(c));
            assert(taken =~= gone) by {
                assert forall|c: LayoutId| taken.contains(c) == gone.contains(c) by {
                    lemma_below_member(m, n, id, c);
                }
            }
            let node = self.nodes[id.0 as int]->0;
            assert(self.nodes@ =~= slots.update(id.0 as int, Some(node)));
            lemma_view_after_set(slots, self.nodes@, id, node);
            assert(node_view(node) == NodeView {
                children: Seq::<LayoutId>::empty(),
                redraw_request: true,
                ..m[id]
            });
            lemma_without_descendants_wf(m, n, id);
            lemma_ids_kept(old(self).nodes@, slots, self.nodes@, id);
            lemma_rest_placement(m, n, id, self@);
        }
        out
    }

    /// The children of `parent_id` but `id`, in their order.
    fn children_without(&self, parent_id: LayoutId, id: LayoutId) -> (kept: Vec<LayoutId>)
        requires
            self@.contains_key(parent_id),
        ensures
            kept@ == without(self@[parent_id].children, id),
    {
        let mut kept: Vec<LayoutId> = Vec::new();
        match &self.nodes[parent_id.0] {
            Some(parent) => {
                let count: usize = parent.children.len();
                let mut k: usize = 0;
                assert(parent.children@.take(0) =~= Seq::<LayoutId>::empty());
                while k < count
                    invariant
                        count == parent.children@.len(),
                        k <= count,
                        kept@ == without(parent.children@.take(k as int), id),
                    decreases count - k,
                {
                    let child: LayoutId = parent.children[k];
                    proof {
                        assert(parent.children@.take(k + 1).drop_last() =~= parent.children@.take(
                            k as int,
                        ));
                    }
                    if child.0 != id.0 {
                        kept.push(child);
                    }
                    k = k + 1;
                }
                assert(parent.children@.take(count as int) =~= parent.children@);
            },
            None => {},
        }
        kept
    }

    /// Removes the node `id` with everything below it, and returns the
    /// widgets of the removed nodes in post-order: each widget after the
    /// widgets below it, the widget of `id` last.
    ///
    /// The parent of `id` is dirty afterwards and lists `id` no more.
    /// Where the tree has no node `id`, nothing changes and nothing is returned.
    pub fn remove_widget(&mut self, id: LayoutId) -> (out: Vec<W>)
        requires
            old(self).wf(),
        ensures
            final(self).wf(),
            final(self).next_id() == old(self).next_id(),
            final(self).aliases() == old(self).aliases(),
            final(self).alias_names() == old(self).alias_names(),
            !old(self)@.contains_key(id) ==> out@.len() == 0 && final(self)@ == old(self)@,
            old(self)@.contains_key(id) ==> {
                &&& out@ == widgets_of(old(self)@, postorder(old(self)@, old(self).next_id(), id))
                &&& final(self)@ == without_subtree(old(self)@, id)
            },
    {
        let ghost m = self@;
        let ghost n = self.next_id();
        if !self.contains(id) {
            return Vec::new();
        }
        let ghost all = postorder(m, n, id);
        let mut order: Vec<LayoutId> = Vec::new();
        self.collect_below(id, &mut order);
        order.push(id);
        proof {
            assert(order@ =~= all);
            lemma_postorder(m, n, id);
            assert(node_wf(m, n, id));
            assert forall|i: int| 0 <= i < all.len() implies m.contains_key(#[trigger] all[i]) by {
                assert(all.contains(all[i]));
                lemma_below_member(m, n, id, all[i]);
            }
        }
        let parent_id: LayoutId = match &self.nodes[id.0] {
            Some(node) => node.parent,
            None => id,
        };
        let kept: Vec<LayoutId> = if parent_id.0 != id.0 {
            self.children_without(parent_id, id)
        } else {
            Vec::new()
        };
        let out: Vec<W> = self.take_nodes(&order);
        let ghost slots = self.nodes@;
        proof {
            let gone = Set::new(|c: LayoutId| m.contains_key(c) && in_subtree(m, id, c));
            let taken = Set::new(|c: LayoutId| order@.contains(c));
            assert(taken =~= gone) by {
                assert forall|c: LayoutId| taken.contains(c) == gone.contains(c) by {
                    lemma_below_member(m, n, id, c);
                }
            }
            lemma_below_member(m, n, id, parent_id);
            if parent_id != id {
                if in_subtree(m, id, parent_id) {
                    lemma_subtree_ids(m, id, parent_id);
                }
                assert(m.contains_key(parent_id));
                assert(self.nodes[parent_id.0 as int] == old(self).nodes[parent_id.0 as int]);
            }
        }
        if parent_id.0 != id.0 {
            match &mut self.nodes[parent_id.0] {
                Some(parent) => {
                    parent.children = kept;
                    parent.element.redraw_request = true;
                },
                None => {},
            }
            proof {
                let node = self.nodes[parent_id.0 as int]->0;
                assert(self.nodes@ =~= slots.update(parent_id.0 as int, Some(node)));
                lemma_view_after_set(slots, self.nodes@, parent_id, node);
                assert(node_view(node) == NodeView {
                    children: without(m[parent_id].children, id),
                    redraw_request: true,
                    ..m[parent_id]
                });
            }
        }
        proof {
            lemma_without_subtree_wf(m, n, id);
            lemma_ids_kept(old(self).nodes@, slots, self.nodes@, parent_id);
            let after = self@;
            assert forall|c: LayoutId| #[trigger] after.contains_key(c) implies after[c].area_and_pos
                is None || placement_same(m, after, c) by {
                assert(m.contains_key(c));
                assert(node_wf(after, n, c));
                assert(node_wf(m, n, c));
                if c.0 != 0 {
                    assert(after.contains_key(after[c].parent));
                    assert(m.contains_key(m[c].parent));
                }
            }
            lemma_placement_kept(m, after);
        }
        out
    }

    /// Puts `widget` in the place of the widget of `id`.
    ///
    /// The nodes below `id` are removed and their widgets returned in
    /// post-order; the widget that `id` held is dropped. The node keeps
    /// its id and its place among the children of its parent; it is
    /// hidden and dirty afterwards, and its parent is dirty.
    ///
    /// The tree must hold the node `id`.
    pub fn replace_widget(&mut self, id: LayoutId, widget: W) -> (out: Vec<W>)
        requires
            old(self).wf(),
            old(self)@.contains_key(id),
        ensures
            final(self).wf(),
            final(self).next_id() == old(self).next_id(),
            final(self).aliases() == old(self).aliases(),
            final(self).alias_names() == old(self).alias_names(),
            out@ == widgets_of(
                old(self)@,
                postorder_below(old(self)@, old(self).next_id(), id, old(self)@[id].children.len()),
            ),
            final(self)@ == with_replaced(old(self)@, id, widget),
    {
        let ghost m = self@;
        let ghost n = self.next_id();
        proof {
            assert(node_wf(m, n, id));
        }
        let out: Vec<W> = self.remove_widget_children(id);
        let ghost mid = self@;
        let ghost slots0 = self.nodes@;
        let parent_id: LayoutId = match &self.nodes[id.0] {
            Some(node) => node.parent,
            None => id,
        };
        proof {
            assert(mid.contains_key(id));
            assert(mid[id].parent == m[id].parent);
            assert(node_wf(mid, n, id));
            assert(mid.contains_key(parent_id));
        }
        match &mut self.nodes[parent_id.0] {
            Some(parent) => {
                parent.element.redraw_request = true;
            },
            None => {},
        }
        let ghost slots1 = self.nodes@;
        proof {
            let node = slots1[parent_id.0 as int]->0;
            assert(slots1 =~= slots0.update(parent_id.0 as int, Some(node)));
            lemma_view_after_set(slots0, slots1, parent_id, node);
        }
        let fresh: Node<W> = Node {
            element: LayoutElement { id, area_and_pos: None, widget, redraw_request: true },
            window_relative: false,
            parent: parent_id,
            children: Vec::new(),
        };
        let ghost fresh_view = node_view(fresh);
        self.nodes[id.0] = Some(fresh);
        proof {
            assert(self.nodes@ =~= slots1.update(id.0 as int, Some(fresh)));
            lemma_view_after_set(slots1, self.nodes@, id, fresh);
            lemma_replaced(m, n, id, widget, mid);
            lemma_rest_placement(m, n, id, self@);
        }
        out
    }
}

/// The placement stays sound when the nodes below `x` leave and `x` stays
/// as it is or is hidden.
pub proof fn lemma_rest_placement<W>(
    m: Map<LayoutId, NodeView<W>>,
    n: nat,
    x: LayoutId,
    after: Map<LayoutId, NodeView<W>>,
)
    requires
        tree_wf(m, n),
        placement_wf(m),
        m.contains_key(x),
        tree_wf(after, n),
        after.contains_key(x),
        after[x].area_and_pos is None || after[x].area_and_pos == m[x].area_and_pos,
        after[x].parent == m[x].parent,
        forall|c: LayoutId| #[trigger] after.contains_key(c) ==> m.contains_key(c) && !is_descendant(m, x, c),
        forall|c: LayoutId|
            #[trigger] after.contains_key(c) && c != x ==> after[c].area_and_pos
                == m[c].area_and_pos && after[c].parent == m[c].parent && after[c].window_relative
                == m[c].window_relative,
    ensures
        placement_wf(after),
{
    assert(in_subtree(m, x, x));
    assert forall|c: LayoutId| #[trigger] after.contains_key(c) implies after[c].area_and_pos
        is None || placement_same(m, after, c) by {
        assert(m.contains_key(c));
        assert(node_wf(m, n, c));
        assert(node_wf(after, n, c));
        if c.0 != 0 && after[c].area_and_pos is Some {
            let p = m[c].parent;
            assert(after.contains_key(p));
            if p == x && c != x {
                assert(in_subtree(m, x, c));
                assert(is_descendant(m, x, c));
            }
            if c == x && p == x {
            }
        }
    }
    lemma_placement_kept(m, after);
}

/// Slots keep every node in the slot of its id when some are emptied and
/// one is filled with a node of the same id.
pub proof fn lemma_ids_kept<W>(
    before: Seq<Option<Node<W>>>,
    taken: Seq<Option<Node<W>>>,
    after: Seq<Option<Node<W>>>,
    changed: LayoutId,
)
    requires
        before.len() == taken.len() == after.len(),
        forall|i: int|
            0 <= i < before.len() && (#[trigger] before[i]) is Some ==> before[i]->0.element.id
                == LayoutId(i as usize),
        forall|i: int|
            0 <= i < before.len() ==> (#[trigger] taken[i]) is None || taken[i] == before[i],
        forall|i: int| 0 <= i < before.len() && i != changed.0 ==> #[trigger] after[i] == taken[i],
        changed.0 < before.len() ==> after[changed.0 as int] is None || (before[changed.0 as int]
            is Some && after[changed.0 as int]->0.element.id == before[changed.0 as int]->0.element.id),
    ensures
        forall|i: int|
            0 <= i < after.len() && (#[trigger] after[i]) is Some ==> after[i]->0.element.id
                == LayoutId(i as usize),
{
    assert forall|i: int| 0 <= i < after.len() && (#[trigger] after[i]) is Some implies after[i]->0.element.id
        == LayoutId(i as usize) by {
        if i != changed.0 {
            assert(after[i] == taken[i]);
            assert(taken[i] is None || taken[i] == before[i]);
        }
    }
}

/// Replacing the widget of a node in the tree without the nodes below it
/// gives the tree with the widget replaced, and keeps it well formed.
pub proof fn lemma_replaced<W>(
    m: Map<LayoutId, NodeView<W>>,
    n: nat,
    x: LayoutId,
    widget: W,
    mid: Map<LayoutId, NodeView<W>>,
)
    requires
        tree_wf(m, n),
        m.contains_key(x),
        mid == without_descendants(m, x),
    ensures
        mid.insert(m[x].parent, NodeView { redraw_request: true, ..mid[m[x].parent] }).insert(
            x,
            NodeView {
                widget,
                area_and_pos: None,
                redraw_request: true,
                window_relative: false,
                parent: m[x].parent,
                children: Seq::empty(),
            },
        ) == with_replaced(m, x, widget),
        tree_wf(with_replaced(m, x, widget), n),
{
    let p = m[x].parent;
    let gone = Set::new(|c: LayoutId| is_descendant(m, x, c));
    let node = NodeView {
        widget,
        area_and_pos: None,
        redraw_request: true,
        window_relative: false,
        parent: p,
        children: Seq::<LayoutId>::empty(),
    };
    let built = mid.insert(p, NodeView { redraw_request: true, ..mid[p] }).insert(x, node);
    let expected = with_replaced(m, x, widget);
    assert(node_wf(m, n, x));
    assert(in_subtree(m, x, x));
    if m[x].children.len() == 0 {
        assert forall|c: LayoutId| !gone.contains(c) by {
            if is_descendant(m, x, c) {
                let i = crate::layout::tree::lemma_descendant_under_child(m, n, x, c);
            }
        }
        assert(m.remove_keys(gone) =~= m);
    }
    if is_descendant(m, x, p) {
        lemma_subtree_ids(m, x, p);
    }
    assert(built =~= expected);
    lemma_rest_wf(m, n, x, node);
    let base = m.remove_keys(gone).insert(x, node);
    assert forall|c: LayoutId| #[trigger] expected.contains_key(c) implies node_wf(
        expected,
        n,
        c,
    ) by {
        assert(base.contains_key(c));
        assert(node_wf(base, n, c));
        if c.0 != 0 {
            assert(base.contains_key(base[c].parent));
            assert(expected[base[c].parent].children == base[base[c].parent].children);
        }
        assert forall|i: int| 0 <= i < expected[c].children.len() implies child_wf(
            expected,
            c,
            #[trigger] expected[c].children[i],
        ) by {
            assert(child_wf(base, c, base[c].children[i]));
        }
    }
}

} // verus!
