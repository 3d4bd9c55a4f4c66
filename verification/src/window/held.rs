//! What is held down and what was let go: touches by their ids, keys by
//! their names. Each list holds an id or a key at most once.

use vstd::prelude::*;
use crate::layout::LayoutId;
use crate::math::vec2::Vec2;
use crate::window::event::Key;

verus! {

/// Who has taken a touch.
#[derive(Clone, Copy, Debug, PartialEq, Eq, Structural)]
pub struct TouchUse {
    /// The widget that has taken the touch.
    pub by: LayoutId,
    /// Whether the touch was fresh when the widget took it, so that it
    /// counts as a click when it is let go.
    pub accepted: bool,
}

/// A finger on the screen or a button of the mouse that is held down, or
/// that was let go a moment ago.
#[derive(Clone, Copy, Debug, PartialEq, Eq, Structural)]
pub struct TouchState {
    /// The id of the touch.
    pub id: u64,
    /// When it went down, or when it was let go: the running time of the
    /// program then, in nanoseconds.
    pub time: i128,
    /// Where it is.
    pub pos: Vec2,
    /// Where it was at the start of the frame.
    pub last_pos: Vec2,
    /// The widget that has taken the touch, if any has.
    pub using_by: Option<TouchUse>,
    /// Whether a widget has looked at the touch in this frame.
    pub last_used: bool,
}

/// A key that is held down, or that was let go a moment ago.
#[derive(Clone, Copy, Debug, PartialEq, Eq, Structural)]
pub struct KeyState {
    /// The key.
    pub key: Key,
    /// When it went down, or when it was let go.
    pub time: i128,
    /// Whether a widget has taken the key press.
    pub used: bool,
}

/// Whether no id occurs twice in the list.
pub open spec fn distinct_touches(s: Seq<TouchState>) -> bool {
    forall|i: int, j: int|
        0 <= i < s.len() && 0 <= j < s.len() && i != j ==> (#[trigger] s[i]).id != (#[trigger] s[j]).id
}

/// Whether the list holds a touch with the id `id`.
pub open spec fn has_touch(s: Seq<TouchState>, id: u64) -> bool {
    exists|i: int| 0 <= i < s.len() && (#[trigger] s[i]).id == id
}

/// The place of the touch with the id `id` in a list that holds one.
pub open spec fn touch_place(s: Seq<TouchState>, id: u64) -> int {
    choose|i: int| 0 <= i < s.len() && (#[trigger] s[i]).id == id
}

/// The touch with the id `id`, where the list holds one.
pub open spec fn touch_of(s: Seq<TouchState>, id: u64) -> Option<TouchState> {
    if has_touch(s, id) {
        Some(s[touch_place(s, id)])
    } else {
        None
    }
}

/// The list with `touch` in it: in the place of the touch with the same
/// id, or at the end where there was none.
pub open spec fn with_touch(s: Seq<TouchState>, touch: TouchState) -> Seq<TouchState> {
    if has_touch(s, touch.id) {
        s.update(touch_place(s, touch.id), touch)
    } else {
        s.push(touch)
    }
}

/// The list without the touch with the id `id`.
pub open spec fn without_touch(s: Seq<TouchState>, id: u64) -> Seq<TouchState> {
    if has_touch(s, id) {
        s.remove(touch_place(s, id))
    } else {
        s
    }
}

/// The place of the touch with the id `id`, if the list holds one.
pub fn find_touch(list: &Vec<TouchState>, id: u64) -> (r: Option<usize>)
    requires
        distinct_touches(list@),
    ensures
        r is Some == has_touch(list@, id),
        r is Some ==> r->0 as int == touch_place(list@, id) && r->0 < list@.len() && list@[r->0 as int].id
            == id,
{
    let mut k: usize = 0;
    while k < list.len()
        invariant
            k <= list@.len(),
            distinct_touches(list@),
            forall|j: int| 0 <= j < k ==> (#[trigger] list@[j]).id != id,
        decreases list@.len() - k,
    {
        if list[k].id == id {
            proof {
                assert(list@[k as int].id == id);
                let p = touch_place(list@, id);
                assert(list@[p].id == id);
            }
            return Some(k);
        }
        k = k + 1;
    }
    None
}

/// Puts `touch` into the list, in the place of the touch with the same id
/// where there is one.
pub fn put_touch(list: &mut Vec<TouchState>, touch: TouchState)
    requires
        distinct_touches(old(list)@),
    ensures
        final(list)@ == with_touch(old(list)@, touch),
        distinct_touches(final(list)@),
{
    match find_touch(list, touch.id) {
        Some(k) => {
            list[k] = touch;
        },
        None => {
            list.push(touch);
        },
    }
}

/// Takes the touch with the id `id` out of the list, if there is one.
pub fn take_touch(list: &mut Vec<TouchState>, id: u64) -> (r: Option<TouchState>)
    requires
        distinct_touches(old(list)@),
    ensures
        r == touch_of(old(list)@, id),
        final(list)@ == without_touch(old(list)@, id),
        distinct_touches(final(list)@),
        !has_touch(final(list)@, id),
{
    match find_touch(list, id) {
        Some(k) => {
            let touch: TouchState = list.remove(k);
            Some(touch)
        },
        None => None,
    }
}

/// Whether no key occurs twice in the list.
pub open spec fn distinct_keys(s: Seq<KeyState>) -> bool {
    forall|i: int, j: int|
        0 <= i < s.len() && 0 <= j < s.len() && i != j ==> (#[trigger] s[i]).key != (
        #[trigger] s[j]).key
}

/// Whether the list holds the key `key`.
pub open spec fn has_key_state(s: Seq<KeyState>, key: Key) -> bool {
    exists|i: int| 0 <= i < s.len() && (#[trigger] s[i]).key == key
}

/// The place of the key `key` in a list that holds it.
pub open spec fn key_place(s: Seq<KeyState>, key: Key) -> int {
    choose|i: int| 0 <= i < s.len() && (#[trigger] s[i]).key == key
}

/// The list with `state` in it: in the place of the state of the same
/// key, or at the end where there was none.
pub open spec fn with_key(s: Seq<KeyState>, state: KeyState) -> Seq<KeyState> {
    if has_key_state(s, state.key) {
        s.update(key_place(s, state.key), state)
    } else {
        s.push(state)
    }
}

/// The list without the key `key`.
pub open spec fn without_key(s: Seq<KeyState>, key: Key) -> Seq<KeyState> {
    if has_key_state(s, key) {
        s.remove(key_place(s, key))
    } else {
        s
    }
}

/// The place of the key `key`, if the list holds it.
pub fn find_key(list: &Vec<KeyState>, key: Key) -> (r: Option<usize>)
    requires
        distinct_keys(list@),
    ensures
        r is Some == has_key_state(list@, key),
        r is Some ==> r->0 as int == key_place(list@, key) && r->0 < list@.len() && list@[r->0 as int].key
            == key,
{
    let mut k: usize = 0;
    while k < list.len()
        invariant
            k <= list@.len(),
            distinct_keys(list@),
            forall|j: int| 0 <= j < k ==> (#[trigger] list@[j]).key != key,
        decreases list@.len() - k,
    {
        if list[k].key == key {
            proof {
                assert(list@[k as int].key == key);
                let p = key_place(list@, key);
                assert(list@[p].key == key);
            }
            return Some(k);
        }
        k = k + 1;
    }
    None
}

/// Puts `state` into the list, in the place of the state of the same key
/// where there is one.
pub fn put_key(list: &mut Vec<KeyState>, state: KeyState)
    requires
        distinct_keys(old(list)@),
    ensures
        final(list)@ == with_key(old(list)@, state),
        distinct_keys(final(list)@),
{
    match find_key(list, state.key) {
        Some(k) => {
            list[k] = state;
        },
        None => {
            list.push(state);
        },
    }
}

/// Takes the key `key` out of the list, if it is there.
pub fn take_key(list: &mut Vec<KeyState>, key: Key)
    requires
        distinct_keys(old(list)@),
    ensures
        final(list)@ == without_key(old(list)@, key),
        distinct_keys(final(list)@),
        !has_key_state(final(list)@, key),
{
    match find_key(list, key) {
        Some(k) => {
            list.remove(k);
        },
        None => {},
    }
}

/// Whether no id occurs twice in the list.
pub fn touches_distinct(list: &Vec<TouchState>) -> (r: bool)
    ensures
        r == distinct_touches(list@),
{
    let mut i: usize = 0;
    while i < list.len()
        invariant
            i <= list@.len(),
            forall|a: int, b: int|
                0 <= a < i && 0 <= b < list@.len() && a != b ==> (#[trigger] list@[a]).id != (
                #[trigger] list@[b]).id,
        decreases list@.len() - i,
    {
        let mut j: usize = 0;
        while j < list.len()
            invariant
                i < list@.len(),
                j <= list@.len(),
                forall|b: int| 0 <= b < j && i != b ==> list@[i as int].id != (#[trigger] list@[b]).id,
            decreases list@.len() - j,
        {
            if i != j && list[i].id == list[j].id {
                return false;
            }
            j = j + 1;
        }
        i = i + 1;
    }
    true
}

/// Whether no key occurs twice in the list.
pub fn keys_distinct(list: &Vec<KeyState>) -> (r: bool)
    ensures
        r == distinct_keys(list@),
{
    let mut i: usize = 0;
    while i < list.len()
        invariant
            i <= list@.len(),
            forall|a: int, b: int|
                0 <= a < i && 0 <= b < list@.len() && a != b ==> (#[trigger] list@[a]).key != (
                #[trigger] list@[b]).key,
        decreases list@.len() - i,
    {
        let mut j: usize = 0;
        while j < list.len()
            invariant
                i < list@.len(),
                j <= list@.len(),
                forall|b: int| 0 <= b < j && i != b ==> list@[i as int].key != (#[trigger] list@[b]).key,
            decreases list@.len() - j,
        {
            if i != j && list[i].key == list[j].key {
                return false;
            }
            j = j + 1;
        }
        i = i + 1;
    }
    true
}

/// The ids of the touches of a list, in their order.
pub open spec fn ids_of(s: Seq<TouchState>) -> Seq<u64> {
    Seq::new(s.len(), |i: int| s[i].id)
}

/// The positions of the touches of a list, in their order.
pub open spec fn positions_of(s: Seq<TouchState>) -> Seq<Vec2> {
    Seq::new(s.len(), |i: int| s[i].pos)
}

/// What a filter keeps of one item more: what it kept, and the item if it passes.
pub proof fn lemma_filter_step<A>(s: Seq<A>, pass: spec_fn(A) -> bool, k: int)
    requires
        0 <= k < s.len(),
    ensures
        s.take(k + 1).filter(pass) == if pass(s[k]) {
            s.take(k).filter(pass).push(s[k])
        } else {
            s.take(k).filter(pass)
        },
{
    reveal(Seq::filter);
    assert(s.take(k + 1).drop_last() =~= s.take(k));
    assert(s.take(k + 1).last() == s[k]);
}

/// A filter keeps nothing of nothing.
pub proof fn lemma_filter_none<A>(s: Seq<A>, pass: spec_fn(A) -> bool)
    ensures
        s.take(0).filter(pass) == Seq::<A>::empty(),
{
    reveal(Seq::filter);
    assert(s.take(0) =~= Seq::<A>::empty());
}

/// What a filter keeps of touches with distinct ids has distinct ids, and
/// holds only touches of the list.
pub proof fn lemma_filter_touches(s: Seq<TouchState>, pass: spec_fn(TouchState) -> bool)
    requires
        distinct_touches(s),
    ensures
        distinct_touches(s.filter(pass)),
        forall|i: int|
            0 <= i < s.filter(pass).len() ==> s.contains(#[trigger] s.filter(pass)[i]) && pass(
                s.filter(pass)[i],
            ),
        forall|i: int| 0 <= i < s.len() && pass(s[i]) ==> s.filter(pass).contains(#[trigger] s[i]),
    decreases s.len(),
{
    reveal(Seq::filter);
    let kept = s.filter(pass);
    if s.len() > 0 {
        let front = s.drop_last();
        let before = front.filter(pass);
        assert(distinct_touches(front));
        lemma_filter_touches(front, pass);
        assert forall|i: int| 0 <= i < kept.len() implies s.contains(#[trigger] kept[i]) && pass(
            kept[i],
        ) by {
            if i < before.len() {
                assert(front.contains(before[i]));
                let j = choose|j: int| 0 <= j < front.len() && front[j] == before[i];
                assert(s[j] == kept[i]);
            } else {
                assert(kept[i] == s[s.len() - 1]);
            }
        }
        assert forall|i: int| 0 <= i < s.len() && pass(s[i]) implies kept.contains(
            #[trigger] s[i],
        ) by {
            if i < front.len() {
                assert(front[i] == s[i]);
                assert(before.contains(front[i]));
                let j = choose|j: int| 0 <= j < before.len() && before[j] == front[i];
                assert(kept[j] == s[i]);
            } else {
                assert(kept[kept.len() - 1] == s[i]);
            }
        }
        assert forall|i: int, j: int|
            0 <= i < kept.len() && 0 <= j < kept.len() && i != j implies (#[trigger] kept[i]).id != (
        #[trigger] kept[j]).id by {
            if i < before.len() && j < before.len() {
            } else {
                let inner = if i < before.len() {
                    i
                } else {
                    j
                };
                assert(front.contains(before[inner]));
                let k = choose|k: int| 0 <= k < front.len() && front[k] == before[inner];
                assert(s[k] == before[inner]);
                assert(s[s.len() - 1].id != s[k].id);
            }
        }
    }
}

/// What a filter keeps of keys that are distinct is distinct, and holds
/// only keys of the list.
pub proof fn lemma_filter_keys(s: Seq<KeyState>, pass: spec_fn(KeyState) -> bool)
    requires
        distinct_keys(s),
    ensures
        distinct_keys(s.filter(pass)),
        forall|i: int| 0 <= i < s.filter(pass).len() ==> s.contains(#[trigger] s.filter(pass)[i]),
    decreases s.len(),
{
    reveal(Seq::filter);
    let kept = s.filter(pass);
    if s.len() > 0 {
        let front = s.drop_last();
        let before = front.filter(pass);
        assert(distinct_keys(front));
        lemma_filter_keys(front, pass);
        assert forall|i: int| 0 <= i < kept.len() implies s.contains(#[trigger] kept[i]) by {
            if i < before.len() {
                assert(front.contains(before[i]));
                let j = choose|j: int| 0 <= j < front.len() && front[j] == before[i];
                assert(s[j] == kept[i]);
            } else {
                assert(kept[i] == s[s.len() - 1]);
            }
        }
        assert forall|i: int, j: int|
            0 <= i < kept.len() && 0 <= j < kept.len() && i != j implies (#[trigger] kept[i]).key
            != (#[trigger] kept[j]).key by {
            if i < before.len() && j < before.len() {
            } else {
                let inner = if i < before.len() {
                    i
                } else {
                    j
                };
                assert(front.contains(before[inner]));
                let k = choose|k: int| 0 <= k < front.len() && front[k] == before[inner];
                assert(s[k] == before[inner]);
                assert(s[s.len() - 1].key != s[k].key);
            }
        }
    }
}

} // verus!
