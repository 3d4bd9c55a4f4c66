//! The widget tree: nodes, the edges between them, and their aliases.
//!
//! Ids are handed out in increasing order and never reused while the tree
//! lives, so that the parent of a node always has a smaller id than the
//! node. The root has id 0 and is its own parent.

pub mod alias;
pub mod dirty;
pub mod events;
pub mod frame;
pub mod ordered;
pub mod paint;
pub mod query;
pub mod remove;
pub mod solver;
pub mod tree;

use vstd::prelude::*;
use crate::layout::tree::{
    count_live,
    lemma_placement_kept,
    lemma_root_exists,
    node_wf,
    placement_ok,
    placement_same,
    placement_wf,
    tree_wf,
    NodeView,
};
use crate::math::rect::Rect;
use crate::math::vec2::Vec2;

verus! {

/// The identifier of a node of the tree.
#[derive(Clone, Copy, Debug, PartialEq, Eq, Hash, Structural)]
pub struct LayoutId(pub usize);

/// The number of the root's id.
pub const ROOT_LAYOUT_ID: usize = 0;

impl LayoutId {
    /// The id of the root.
    pub open spec fn spec_root() -> LayoutId {
        LayoutId(0)
    }

    /// The id of the root.
    #[verifier::when_used_as_spec(spec_root)]
    pub fn root() -> (id: LayoutId)
        ensures
            id == LayoutId::spec_root(),
    {
        LayoutId(ROOT_LAYOUT_ID)
    }
}

impl Default for LayoutId {
    fn default() -> (id: LayoutId)
        ensures
            id == LayoutId(0),
    {
        LayoutId(0)
    }
}

/// A widget in the tree, with what the tree knows of it.
pub struct LayoutElement<W> {
    /// The id of the node.
    pub id: LayoutId,
    /// The visible rectangle of the widget and the position of its top-left
    /// corner, both in window coordinates; `None` while the widget is hidden.
    pub area_and_pos: Option<(Rect, Vec2)>,
    /// The widget, which the tree owns.
    pub widget: W,
    /// Whether the widget has to be drawn again: whether it is dirty.
    pub redraw_request: bool,
}

/// A node: the element and its edges.
pub struct Node<W> {
    /// The element.
    pub element: LayoutElement<W>,
    /// Whether the widget laid its children out in a rectangle of its own
    /// in place of its visible rectangle.
    pub window_relative: bool,
    /// The parent; the root is its own parent.
    pub parent: LayoutId,
    /// The children, in the order in which they were added.
    pub children: Vec<LayoutId>,
}

/// The widget tree.
pub struct Layout<W> {
    /// The node of each id that was ever handed out; `None` once it is removed.
    pub(crate) nodes: Vec<Option<Node<W>>>,
    /// The aliases, each with its id; of two entries with one name the later counts.
    pub(crate) alias_map: Vec<(String, LayoutId)>,
    /// The ids, each with its alias; of two entries with one id the later counts.
    pub(crate) inversed_alias_map: Vec<(LayoutId, String)>,
}

/// The map that a list of alias entries stands for.
pub open spec fn aliases_of(entries: Seq<(String, LayoutId)>) -> Map<Seq<char>, LayoutId>
    decreases entries.len(),
{
    if entries.len() == 0 {
        Map::empty()
    } else {
        aliases_of(entries.drop_last()).insert(entries.last().0@, entries.last().1)
    }
}

/// The map that a list of id entries stands for.
pub open spec fn names_of(entries: Seq<(LayoutId, String)>) -> Map<LayoutId, Seq<char>>
    decreases entries.len(),
{
    if entries.len() == 0 {
        Map::empty()
    } else {
        names_of(entries.drop_last()).insert(entries.last().0, entries.last().1@)
    }
}

/// A node as contracts see it.
pub open spec fn node_view<W>(node: Node<W>) -> NodeView<W> {
    NodeView {
        widget: node.element.widget,
        area_and_pos: node.element.area_and_pos,
        redraw_request: node.element.redraw_request,
        window_relative: node.window_relative,
        parent: node.parent,
        children: node.children@,
    }
}

/// The nodes in a list of slots, each under the id of its slot.
pub open spec fn view_of<W>(nodes: Seq<Option<Node<W>>>) -> Map<LayoutId, NodeView<W>> {
    Map::new(
        |id: LayoutId| id.0 < nodes.len() && nodes[id.0 as int] is Some,
        |id: LayoutId| node_view(nodes[id.0 as int]->0),
    )
}

/// Slots of which some were emptied hold the nodes that they held, but those.
pub proof fn lemma_view_after_take<W>(
    before: Seq<Option<Node<W>>>,
    after: Seq<Option<Node<W>>>,
    gone: Set<LayoutId>,
)
    requires
        before.len() == after.len(),
        forall|i: int|
            0 <= i < before.len() ==> #[trigger] after[i] == if gone.contains(LayoutId(i as usize)) {
                None
            } else {
                before[i]
            },
    ensures
        view_of(after) == view_of(before).remove_keys(gone),
{
    let expected = view_of(before).remove_keys(gone);
    assert forall|c: LayoutId| view_of(after).contains_key(c) == expected.contains_key(c) by {
        if c.0 < before.len() {
            assert(after[c.0 as int] == if gone.contains(LayoutId(c.0)) {
                None
            } else {
                before[c.0 as int]
            });
        }
    }
    assert forall|c: LayoutId| view_of(after).contains_key(c) implies view_of(after)[c]
        == expected[c] by {
        assert(after[c.0 as int] == if gone.contains(LayoutId(c.0)) {
            None
        } else {
            before[c.0 as int]
        });
    }
    assert(view_of(after) =~= expected);
}

/// Slots of which one was filled hold the nodes that they held, and the new one.
pub proof fn lemma_view_after_set<W>(
    before: Seq<Option<Node<W>>>,
    after: Seq<Option<Node<W>>>,
    id: LayoutId,
    node: Node<W>,
)
    requires
        id.0 < before.len(),
        after == before.update(id.0 as int, Some(node)),
    ensures
        view_of(after) == view_of(before).insert(id, node_view(node)),
{
    let expected = view_of(before).insert(id, node_view(node));
    assert forall|c: LayoutId| view_of(after).contains_key(c) == expected.contains_key(c) by {}
    assert forall|c: LayoutId| view_of(after).contains_key(c) implies view_of(after)[c]
        == expected[c] by {}
    assert(view_of(after) =~= expected);
}

impl<W> Default for Layout<W> {
    fn default() -> (layout: Layout<W>)
        ensures
            layout.wf(),
            layout@ == Map::<LayoutId, NodeView<W>>::empty(),
            layout.next_id() == 1,
    {
        Layout::new()
    }
}

impl<W> View for Layout<W> {
    type V = Map<LayoutId, NodeView<W>>;

    closed spec fn view(&self) -> Map<LayoutId, NodeView<W>> {
        self.nodes_view()
    }
}

impl<W> Layout<W> {
    /// The nodes of the tree, by id.
    pub open(crate) spec fn nodes_view(&self) -> Map<LayoutId, NodeView<W>> {
        view_of(self.nodes@)
    }

    /// The id that the next widget will get.
    pub open(crate) spec fn next_id(&self) -> nat {
        self.nodes.len() as nat
    }

    /// The id that each alias stands for.
    pub open(crate) spec fn aliases(&self) -> Map<Seq<char>, LayoutId> {
        aliases_of(self.alias_map@)
    }

    /// The alias of each id that has one.
    pub open(crate) spec fn alias_names(&self) -> Map<LayoutId, Seq<char>> {
        names_of(self.inversed_alias_map@)
    }

    /// What holds of the storage whatever the tree: the slot of the root
    /// exists, and every node lies in the slot of its id.
    pub open(crate) spec fn inv(&self) -> bool {
        &&& self.nodes.len() >= 1
        &&& forall|i: int|
            0 <= i < self.nodes.len() && (#[trigger] self.nodes[i]) is Some
                ==> self.nodes[i]->0.element.id == LayoutId(i as usize)
    }

    /// Whether the edges of the tree are sound: see [`tree_wf`].
    pub open spec fn structure_wf(&self) -> bool {
        &&& self.inv()
        &&& tree_wf(self@, self.next_id())
    }

    /// Whether the tree is well formed: its edges are sound, see
    /// [`tree_wf`], and so is the placement of its nodes, see [`placement_wf`].
    pub open spec fn wf(&self) -> bool {
        &&& self.structure_wf()
        &&& placement_wf(self@)
    }

    /// A tree without any node.
    pub fn new() -> (layout: Layout<W>)
        ensures
            layout.wf(),
            layout@ == Map::<LayoutId, NodeView<W>>::empty(),
            layout.next_id() == 1,
            layout.aliases() == Map::<Seq<char>, LayoutId>::empty(),
            layout.alias_names() == Map::<LayoutId, Seq<char>>::empty(),
    {
        let mut nodes: Vec<Option<Node<W>>> = Vec::new();
        nodes.push(None);
        let layout = Layout { nodes, alias_map: Vec::new(), inversed_alias_map: Vec::new() };
        assert(layout@ =~= Map::<LayoutId, NodeView<W>>::empty());
        layout
    }

    /// Whether the tree holds a node with this id.
    pub fn contains(&self, id: LayoutId) -> (r: bool)
        ensures
            r == self@.contains_key(id),
    {
        id.0 < self.nodes.len() && self.nodes[id.0].is_some()
    }

    /// Puts a widget at the root.
    ///
    /// Where the tree has a root, the widget takes its place, the children
    /// stay, and the call returns `true`. Otherwise the widget becomes the
    /// root, placed over the whole window, and the call returns `false`.
    /// Either way the root is dirty afterwards.
    pub fn insert_root_widget(&mut self, widget: W) -> (replaced: bool)
        requires
            old(self).wf(),
        ensures
            final(self).wf(),
            final(self).next_id() == old(self).next_id(),
            final(self).aliases() == old(self).aliases(),
            final(self).alias_names() == old(self).alias_names(),
            replaced == old(self)@.contains_key(LayoutId(0)),
            replaced ==> final(self)@ == old(self)@.insert(
                LayoutId(0),
                NodeView { widget, redraw_request: true, ..old(self)@[LayoutId(0)] },
            ),
            !replaced ==> final(self)@ == old(self)@.insert(
                LayoutId(0),
                NodeView {
                    widget,
                    area_and_pos: Some((Rect::spec_window(), Vec2::spec_zero())),
                    redraw_request: true,
                    window_relative: false,
                    parent: LayoutId(0),
                    children: Seq::empty(),
                },
            ),
    {
        let ghost before = self@;
        match &mut self.nodes[0] {
            Some(root) => {
                root.element.widget = widget;
                root.element.redraw_request = true;
                proof {
                    let after = self@;
                    let updated = before.insert(
                        LayoutId(0),
                        NodeView { widget, redraw_request: true, ..before[LayoutId(0)] },
                    );
                    assert(after =~= updated);
                    assert forall|c: LayoutId| #[trigger] after.contains_key(c) implies node_wf(
                        after,
                        self.next_id(),
                        c,
                    ) by {
                        assert(before.contains_key(c));
                        assert(node_wf(before, self.next_id(), c));
                        if c.0 != 0 {
                            assert(before.contains_key(before[c].parent));
                        }
                    }
                    assert forall|c: LayoutId| #[trigger] after.contains_key(c) implies after[c].area_and_pos
                        is None || placement_same(before, after, c) by {
                        assert(before.contains_key(c));
                        assert(node_wf(before, self.next_id(), c));
                    }
                    lemma_placement_kept(before, after);
                }
                true
            },
            None => {
                self.nodes[0] = Some(
                    Node {
                        element: LayoutElement {
                            id: LayoutId(ROOT_LAYOUT_ID),
                            area_and_pos: Some((Rect::window(), Vec2::zero())),
                            widget,
                            redraw_request: true,
                        },
                        window_relative: false,
                        parent: LayoutId(ROOT_LAYOUT_ID),
                        children: Vec::new(),
                    },
                );
                proof {
                    let after = self@;
                    let updated = before.insert(
                        LayoutId(0),
                        NodeView {
                            widget,
                            area_and_pos: Some((Rect::spec_window(), Vec2::spec_zero())),
                            redraw_request: true,
                            window_relative: false,
                            parent: LayoutId(0),
                            children: Seq::empty(),
                        },
                    );
                    assert(after =~= updated);
                    assert forall|c: LayoutId| #[trigger] after.contains_key(c) implies node_wf(
                        after,
                        self.next_id(),
                        c,
                    ) by {
                        if c.0 != 0 {
                            assert(before.contains_key(c));
                            assert(node_wf(before, self.next_id(), c));
                            assert(before.contains_key(before[c].parent));
                        }
                    }
                    assert forall|c: LayoutId| #[trigger] after.contains_key(c) implies placement_ok(
                        after,
                        c,
                    ) by {
                        if c.0 != 0 {
                            assert(before.contains_key(c));
                            lemma_root_exists(before, self.next_id(), c);
                        }
                    }
                }
                false
            },
        }
    }

    /// Adds a widget as the last child of `parent_id`.
    ///
    /// Returns the id of the new node, which is the next id of the tree;
    /// the node is hidden and dirty, and its parent is dirty. Returns
    /// `None`, and changes nothing, where the tree has no node `parent_id`.
    pub fn add_widget(&mut self, parent_id: LayoutId, widget: W) -> (r: Option<LayoutId>)
        requires
            old(self).wf(),
        ensures
            final(self).wf(),
            final(self).aliases() == old(self).aliases(),
            final(self).alias_names() == old(self).alias_names(),
            r is Some == old(self)@.contains_key(parent_id),
            r is None ==> final(self)@ == old(self)@ && final(self).next_id() == old(self).next_id(),
            r is Some ==> {
                let id = r->0;
                let parent = old(self)@[parent_id];
                &&& id.0 == old(self).next_id()
                &&& final(self).next_id() == old(self).next_id() + 1
                &&& final(self)@ == old(self)@.insert(
                    parent_id,
                    NodeView { redraw_request: true, children: parent.children.push(id), ..parent },
                ).insert(
                    id,
                    NodeView {
                        widget,
                        area_and_pos: None,
                        redraw_request: true,
                        window_relative: false,
                        parent: parent_id,
                        children: Seq::empty(),
                    },
                )
            },
    {
        let ghost before = self@;
        let ghost n = self.next_id();
        if !(parent_id.0 < self.nodes.len() && self.nodes[parent_id.0].is_some()) {
            return None;
        }
        let id: LayoutId = LayoutId(self.nodes.len());
        match &mut self.nodes[parent_id.0] {
            Some(parent) => {
                parent.element.redraw_request = true;
                parent.children.push(id);
            },
            None => {},
        }
        self.nodes.push(
            Some(
                Node {
                    element: LayoutElement { id, area_and_pos: None, widget, redraw_request: true },
                    window_relative: false,
                    parent: parent_id,
                    children: Vec::new(),
                },
            ),
        );
        proof {
            let after = self@;
            let parent = before[parent_id];
            let updated = before.insert(
                parent_id,
                NodeView { redraw_request: true, children: parent.children.push(id), ..parent },
            ).insert(
                id,
                NodeView {
                    widget,
                    area_and_pos: None,
                    redraw_request: true,
                    window_relative: false,
                    parent: parent_id,
                    children: Seq::empty(),
                },
            );
            assert(before.contains_key(parent_id));
            assert(node_wf(before, n, parent_id));
            assert(after =~= updated);
            assert forall|c: LayoutId| #[trigger] after.contains_key(c) implies node_wf(
                after,
                n + 1,
                c,
            ) by {
                if c == id {
                    assert(after[parent_id].children[parent.children.len() as int] == id);
                } else {
                    assert(before.contains_key(c));
                    assert(node_wf(before, n, c));
                    if c.0 != 0 {
                        let p = before[c].parent;
                        assert(before.contains_key(p));
                        let k = choose|k: int|
                            0 <= k < before[p].children.len() && before[p].children[k] == c;
                        assert(after[p].children[k] == c);
                    }
                    assert forall|i: int| 0 <= i < after[c].children.len() implies {
                        let ch = #[trigger] after[c].children[i];
                        after.contains_key(ch) && after[ch].parent == c && ch.0 != 0
                    } by {
                        if c == parent_id && i == parent.children.len() {
                        } else {
                            let ch = before[c].children[i];
                            assert(before.contains_key(ch));
                        }
                    }
                    if c == parent_id {
                        assert forall|i: int, j: int|
                            0 <= i < after[c].children.len() && 0 <= j < after[c].children.len()
                                && i != j implies after[c].children[i] != after[c].children[j] by {
                            if i < parent.children.len() {
                                assert(before.contains_key(parent.children[i]));
                            }
                            if j < parent.children.len() {
                                assert(before.contains_key(parent.children[j]));
                            }
                        }
                    }
                }
            }
            assert forall|c: LayoutId| #[trigger] after.contains_key(c) implies after[c].area_and_pos
                is None || placement_same(before, after, c) by {
                if c != id {
                    assert(before.contains_key(c));
                    assert(node_wf(before, n, c));
                    if c.0 != 0 {
                        assert(before.contains_key(before[c].parent));
                    }
                }
            }
            lemma_placement_kept(before, after);
        }
        Some(id)
    }

    /// The widget of a node.
    pub fn get_widget(&self, id: LayoutId) -> (r: Option<&W>)
        ensures
            r is Some == self@.contains_key(id),
            r is Some ==> *r->0 == self@[id].widget,
    {
        if id.0 < self.nodes.len() {
            match &self.nodes[id.0] {
                Some(node) => Some(&node.element.widget),
                None => None,
            }
        } else {
            None
        }
    }

    /// The visible rectangle of a node; `None` where the tree has no such
    /// node or the node is hidden.
    pub fn get_widget_area(&self, id: LayoutId) -> (r: Option<Rect>)
        ensures
            r == if self@.contains_key(id) {
                match self@[id].area_and_pos {
                    Some((area, _)) => Some(area),
                    None => None,
                }
            } else {
                None
            },
    {
        if id.0 < self.nodes.len() {
            match &self.nodes[id.0] {
                Some(node) => match node.element.area_and_pos {
                    Some((area, _)) => Some(area),
                    None => None,
                },
                None => None,
            }
        } else {
            None
        }
    }

    /// The position of the top-left corner of a node; `None` where the tree
    /// has no such node or the node is hidden.
    pub fn get_widget_pos(&self, id: LayoutId) -> (r: Option<Vec2>)
        ensures
            r == if self@.contains_key(id) {
                match self@[id].area_and_pos {
                    Some((_, pos)) => Some(pos),
                    None => None,
                }
            } else {
                None
            },
    {
        if id.0 < self.nodes.len() {
            match &self.nodes[id.0] {
                Some(node) => match node.element.area_and_pos {
                    Some((_, pos)) => Some(pos),
                    None => None,
                },
                None => None,
            }
        } else {
            None
        }
    }

    /// Whether a node is dirty; `None` where the tree has no such node.
    pub fn is_dirty(&self, id: LayoutId) -> (r: Option<bool>)
        ensures
            r == if self@.contains_key(id) {
                Some(self@[id].redraw_request)
            } else {
                None
            },
    {
        if id.0 < self.nodes.len() {
            match &self.nodes[id.0] {
                Some(node) => Some(node.element.redraw_request),
                None => None,
            }
        } else {
            None
        }
    }

    /// Whether a node laid its children out in a rectangle of its own in
    /// the last layout pass; `None` where the tree has no such node.
    pub fn is_window_relative(&self, id: LayoutId) -> (r: Option<bool>)
        ensures
            r == if self@.contains_key(id) {
                Some(self@[id].window_relative)
            } else {
                None
            },
    {
        if id.0 < self.nodes.len() {
            match &self.nodes[id.0] {
                Some(node) => Some(node.window_relative),
                None => None,
            }
        } else {
            None
        }
    }

    /// The parent of a node; the root is its own parent.
    pub fn get_parent_id(&self, id: LayoutId) -> (r: Option<LayoutId>)
        ensures
            r == if self@.contains_key(id) {
                Some(self@[id].parent)
            } else {
                None
            },
    {
        if id.0 < self.nodes.len() {
            match &self.nodes[id.0] {
                Some(node) => Some(node.parent),
                None => None,
            }
        } else {
            None
        }
    }

    /// The children of a node, in the order in which they were added.
    pub fn get_children_ids(&self, id: LayoutId) -> (r: Option<&[LayoutId]>)
        ensures
            r is Some == self@.contains_key(id),
            r is Some ==> r->0@ == self@[id].children,
    {
        if id.0 < self.nodes.len() {
            match &self.nodes[id.0] {
                Some(node) => Some(node.children.as_slice()),
                None => None,
            }
        } else {
            None
        }
    }

    /// The number of widgets in the tree.
    pub fn widgets(&self) -> (r: usize)
        ensures
            r == count_live(self@, self.next_id()),
    {
        let n: usize = self.nodes.len();
        let mut count: usize = 0;
        let mut i: usize = 0;
        while i < n
            invariant
                n == self.nodes.len(),
                i <= n,
                count <= i,
                count == count_live(self@, i as nat),
            decreases n - i,
        {
            if self.nodes[i].is_some() {
                count = count + 1;
            }
            i = i + 1;
        }
        count
    }

    /// Removes every node and every alias; ids are handed out from 1 again.
    /// The names that ids were given stay.
    pub fn clear(&mut self)
        ensures
            final(self).wf(),
            final(self)@ == Map::<LayoutId, NodeView<W>>::empty(),
            final(self).next_id() == 1,
            final(self).aliases() == Map::<Seq<char>, LayoutId>::empty(),
            final(self).alias_names() == old(self).alias_names(),
    {
        self.nodes.clear();
        self.nodes.push(None);
        self.alias_map.clear();
        assert(self@ =~= Map::<LayoutId, NodeView<W>>::empty());
    }
}

} // verus!
