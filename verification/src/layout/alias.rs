//! Aliases: names for the nodes of the tree.
//!
//! The aliases are kept apart from the tree: to give or look up a name
//! never changes a node, and to change the tree never changes a name.

use vstd::prelude::*;
use vstd::string::StringExecFns;
use crate::layout::tree::postorder_below;
use crate::layout::remove::{widgets_of, with_replaced, without_descendants, without_subtree};
use crate::layout::tree::postorder;
use crate::layout::{aliases_of, names_of, Layout, LayoutId};

verus! {

/// The id that the last entry with the name `key` gives, if there is one.
proof fn lemma_alias_lookup(entries: Seq<(String, LayoutId)>, key: Seq<char>, i: int)
    requires
        0 <= i <= entries.len(),
        forall|j: int| i <= j < entries.len() ==> (#[trigger] entries[j]).0@ != key,
    ensures
        aliases_of(entries).contains_key(key) == aliases_of(entries.take(i)).contains_key(key),
        aliases_of(entries).contains_key(key) ==> aliases_of(entries)[key] == aliases_of(
            entries.take(i),
        )[key],
    decreases entries.len() - i,
{
    if i == entries.len() {
        assert(entries.take(i) =~= entries);
    } else {
        lemma_alias_lookup(entries.drop_last(), key, i);
        assert(entries.drop_last().take(i) =~= entries.take(i));
        assert(entries[entries.len() - 1].0@ != key);
    }
}

/// The name that the last entry with the id `key` gives, if there is one.
proof fn lemma_name_lookup(entries: Seq<(LayoutId, String)>, key: LayoutId, i: int)
    requires
        0 <= i <= entries.len(),
        forall|j: int| i <= j < entries.len() ==> (#[trigger] entries[j]).0 != key,
    ensures
        names_of(entries).contains_key(key) == names_of(entries.take(i)).contains_key(key),
        names_of(entries).contains_key(key) ==> names_of(entries)[key] == names_of(
            entries.take(i),
        )[key],
    decreases entries.len() - i,
{
    if i == entries.len() {
        assert(entries.take(i) =~= entries);
    } else {
        lemma_name_lookup(entries.drop_last(), key, i);
        assert(entries.drop_last().take(i) =~= entries.take(i));
        assert(entries[entries.len() - 1].0 != key);
    }
}

impl<W> Layout<W> {
    /// Gives the id `id` the name `alias`.
    ///
    /// From now on the name stands for this id, whatever it stood for, and
    /// the id has this name, whatever name it had. The tree does not change.
    pub fn alias_widget(&mut self, id: LayoutId, alias: &str)
        ensures
            final(self).aliases() == old(self).aliases().insert(alias@, id),
            final(self).alias_names() == old(self).alias_names().insert(id, alias@),
            final(self)@ == old(self)@,
            final(self).next_id() == old(self).next_id(),
            final(self).wf() == old(self).wf(),
    {
        let ghost names = self.alias_map@;
        let ghost ids = self.inversed_alias_map@;
        self.alias_map.push((String::from_str(alias), id));
        self.inversed_alias_map.push((id, String::from_str(alias)));
        proof {
            assert(self.alias_map@.drop_last() =~= names);
            assert(self.inversed_alias_map@.drop_last() =~= ids);
        }
    }

    /// The id that a name stands for.
    pub fn alias_to_id(&self, alias: &str) -> (r: Option<LayoutId>)
        ensures
            r == if self.aliases().contains_key(alias@) {
                Some(self.aliases()[alias@])
            } else {
                None
            },
    {
        let needle: String = String::from_str(alias);
        let mut i: usize = self.alias_map.len();
        while i > 0
            invariant
                i <= self.alias_map.len(),
                needle@ == alias@,
                forall|j: int|
                    i <= j < self.alias_map.len() ==> (#[trigger] self.alias_map@[j]).0@ != alias@,
            decreases i,
        {
            i = i - 1;
            if self.alias_map[i].0 == needle {
                proof {
                    lemma_alias_lookup(self.alias_map@, alias@, i + 1);
                    assert(self.alias_map@.take(i + 1).drop_last() =~= self.alias_map@.take(i as int));
                }
                return Some(self.alias_map[i].1);
            }
        }
        proof {
            lemma_alias_lookup(self.alias_map@, alias@, 0);
            assert(self.alias_map@.take(0) =~= Seq::<(String, LayoutId)>::empty());
        }
        None
    }

    /// The name that an id has.
    pub fn id_to_alias(&self, id: LayoutId) -> (r: Option<&str>)
        ensures
            r is Some == self.alias_names().contains_key(id),
            r is Some ==> r->0@ == self.alias_names()[id],
    {
        let mut i: usize = self.inversed_alias_map.len();
        while i > 0
            invariant
                i <= self.inversed_alias_map.len(),
                forall|j: int|
                    i <= j < self.inversed_alias_map.len() ==> (
                    #[trigger] self.inversed_alias_map@[j]).0 != id,
            decreases i,
        {
            i = i - 1;
            if self.inversed_alias_map[i].0.0 == id.0 {
                proof {
                    lemma_name_lookup(self.inversed_alias_map@, id, i + 1);
                    assert(self.inversed_alias_map@.take(i + 1).drop_last()
                        =~= self.inversed_alias_map@.take(i as int));
                }
                return Some(self.inversed_alias_map[i].1.as_str());
            }
        }
        proof {
            lemma_name_lookup(self.inversed_alias_map@, id, 0);
            assert(self.inversed_alias_map@.take(0) =~= Seq::<(LayoutId, String)>::empty());
        }
        None
    }

    /// Removes the node that `alias` stands for, with everything below it:
    /// see [`Layout::remove_widget`]. Nothing happens where the name stands
    /// for no id.
    pub fn remove_widget_by_alias(&mut self, alias: &str) -> (out: Vec<W>)
        requires
            old(self).wf(),
        ensures
            final(self).wf(),
            final(self).next_id() == old(self).next_id(),
            final(self).aliases() == old(self).aliases(),
            final(self).alias_names() == old(self).alias_names(),
            !old(self).aliases().contains_key(alias@) || !old(self)@.contains_key(
                old(self).aliases()[alias@],
            ) ==> out@.len() == 0 && final(self)@ == old(self)@,
            old(self).aliases().contains_key(alias@) && old(self)@.contains_key(
                old(self).aliases()[alias@],
            ) ==> {
                let id = old(self).aliases()[alias@];
                &&& out@ == widgets_of(old(self)@, postorder(old(self)@, old(self).next_id(), id))
                &&& final(self)@ == without_subtree(old(self)@, id)
            },
    {
        match self.alias_to_id(alias) {
            Some(id) => self.remove_widget(id),
            None => Vec::new(),
        }
    }

    /// Removes the nodes below the node that `alias` stands for: see
    /// [`Layout::remove_widget_children`]. Nothing happens where the name
    /// stands for no id.
    pub fn remove_widget_children_by_alias(&mut self, alias: &str) -> (out: Vec<W>)
        requires
            old(self).wf(),
        ensures
            final(self).wf(),
            final(self).next_id() == old(self).next_id(),
            final(self).aliases() == old(self).aliases(),
            final(self).alias_names() == old(self).alias_names(),
            !old(self).aliases().contains_key(alias@) || !old(self)@.contains_key(
                old(self).aliases()[alias@],
            ) ==> out@.len() == 0 && final(self)@ == old(self)@,
            old(self).aliases().contains_key(alias@) && old(self)@.contains_key(
                old(self).aliases()[alias@],
            ) ==> {
                let id = old(self).aliases()[alias@];
                &&& out@ == widgets_of(
                    old(self)@,
                    postorder_below(
                        old(self)@,
                        old(self).next_id(),
                        id,
                        old(self)@[id].children.len(),
                    ),
                )
                &&& final(self)@ == without_descendants(old(self)@, id)
            },
    {
        match self.alias_to_id(alias) {
            Some(id) => self.remove_widget_children(id),
            None => Vec::new(),
        }
    }

    /// Replaces the widget of the node that `alias` stands for: see
    /// [`Layout::replace_widget`]. Nothing happens, and the widget is
    /// dropped, where the name stands for no id.
    ///
    /// Where the name stands for an id, the tree must hold that node.
    pub fn replace_widget_by_alias(&mut self, alias: &str, widget: W) -> (out: Vec<W>)
        requires
            old(self).wf(),
            old(self).aliases().contains_key(alias@) ==> old(self)@.contains_key(
                old(self).aliases()[alias@],
            ),
        ensures
            final(self).wf(),
            final(self).next_id() == old(self).next_id(),
            final(self).aliases() == old(self).aliases(),
            final(self).alias_names() == old(self).alias_names(),
            !old(self).aliases().contains_key(alias@) ==> out@.len() == 0 && final(self)@ == old(
                self,
            )@,
            old(self).aliases().contains_key(alias@) ==> {
                let id = old(self).aliases()[alias@];
                &&& out@ == widgets_of(
                    old(self)@,
                    postorder_below(
                        old(self)@,
                        old(self).next_id(),
                        id,
                        old(self)@[id].children.len(),
                    ),
                )
                &&& final(self)@ == with_replaced(old(self)@, id, widget)
            },
    {
        match self.alias_to_id(alias) {
            Some(id) => self.replace_widget(id, widget),
            None => Vec::new(),
        }
    }

    /// The widget of the node that `alias` stands for.
    pub fn get_widget_by_alias(&self, alias: &str) -> (r: Option<&W>)
        ensures
            r is Some == (self.aliases().contains_key(alias@) && self@.contains_key(
                self.aliases()[alias@],
            )),
            r is Some ==> *r->0 == self@[self.aliases()[alias@]].widget,
    {
        match self.alias_to_id(alias) {
            Some(id) => self.get_widget(id),
            None => None,
        }
    }

    /// The parent of the node that `alias` stands for.
    pub fn get_parent_id_by_alias(&self, alias: &str) -> (r: Option<LayoutId>)
        ensures
            r == if self.aliases().contains_key(alias@) && self@.contains_key(
                self.aliases()[alias@],
            ) {
                Some(self@[self.aliases()[alias@]].parent)
            } else {
                None
            },
    {
        match self.alias_to_id(alias) {
            Some(id) => self.get_parent_id(id),
            None => None,
        }
    }
}

} // verus!
