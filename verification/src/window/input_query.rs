//! What widgets ask of the input: which touches and keys are down, which
//! went down just now, and which were let go.

use vstd::prelude::*;
use crate::math::rect::Rect;
use crate::math::vec2::Vec2;
use crate::widgets::Signal;
use crate::window::clock::is_span;
use crate::window::event::Key;
use crate::window::held::{
    find_key,
    find_touch,
    has_key_state,
    has_touch,
    ids_of,
    lemma_filter_none,
    lemma_filter_step,
    positions_of,
    touch_of,
    touch_place,
    TouchState,
};
use crate::window::input_state::{
    InputState,
    InputView,
    Modifiers,
    DEFAULT_EPSILON_TIME,
    MOUSE_UNPRESSED_ID,
};

verus! {

/// Whether what happened at `time` is fresh at `now`: less than
/// [`DEFAULT_EPSILON_TIME`] has passed since.
pub open spec fn fresh(now: i128, time: i128) -> bool {
    now - time < DEFAULT_EPSILON_TIME
}

/// Whether what happened at `time` is fresh at `now`.
pub fn is_fresh(now: i128, time: i128) -> (r: bool)
    requires
        is_span(now),
        is_span(time),
    ensures
        r == fresh(now, time),
{
    now - time < DEFAULT_EPSILON_TIME
}

/// The touches of `s` that went down just now in `area` and that no
/// widget has taken.
pub open spec fn pressed_on(s: Seq<TouchState>, area: Rect, now: i128) -> Seq<TouchState> {
    s.filter(|t: TouchState| area.spec_contains(t.pos) && fresh(now, t.time) && t.using_by is None)
}

/// The touches of `s` that lie in `area`, but for the mouse without a button.
pub open spec fn released_on(s: Seq<TouchState>, area: Rect) -> Seq<TouchState> {
    s.filter(|t: TouchState| t.id != MOUSE_UNPRESSED_ID && area.spec_contains(t.pos))
}

/// How far each touch has moved in this frame, and how far the wheel was
/// turned under the id of the mouse without a button.
pub open spec fn deltas_of(s: Seq<TouchState>, wheel: Vec2) -> Map<u64, Vec2> {
    Map::new(
        |id: u64| id == MOUSE_UNPRESSED_ID || has_touch(s, id),
        |id: u64|
            if id == MOUSE_UNPRESSED_ID {
                wheel
            } else {
                s[touch_place(s, id)].pos.spec_minus(s[touch_place(s, id)].last_pos)
            },
    )
}

/// The sum of how far the first `k` touches have moved, the mouse without
/// a button left out, on top of `start`.
pub open spec fn moved_sum(s: Seq<TouchState>, k: nat, start: Vec2) -> Vec2
    decreases k,
{
    if k == 0 || k > s.len() {
        start
    } else {
        let before = moved_sum(s, (k - 1) as nat, start);
        let t = s[k - 1];
        if t.id == MOUSE_UNPRESSED_ID {
            before
        } else {
            before.spec_plus(t.pos.spec_minus(t.last_pos))
        }
    }
}

impl<S: Signal> InputView<S> {
    /// The modifier keys that are held down.
    pub open spec fn modifiers(self) -> Modifiers {
        Modifiers {
            shift: has_key_state(self.pressing_keys, Key::ShiftLeft) || has_key_state(
                self.pressing_keys,
                Key::ShiftRight,
            ),
            ctrl: has_key_state(self.pressing_keys, Key::ControlLeft) || has_key_state(
                self.pressing_keys,
                Key::ControlRight,
            ),
            alt: has_key_state(self.pressing_keys, Key::AltLeft) || has_key_state(
                self.pressing_keys,
                Key::AltRight,
            ),
        }
    }
}

impl<S: Signal> InputState<S> {
    /// Whether a touch went down just now.
    pub fn is_any_touch_pressed(&self) -> (r: bool)
        requires
            self.wf(),
        ensures
            exists|now: i128| is_span(now) && r == (exists|i: int|
                0 <= i < self.pressing_touches@.len() && fresh(
                    now,
                    (#[trigger] self.pressing_touches@[i]).time,
                )),
    {
        let now: i128 = self.program_running_time();
        self.is_any_touch_pressed_at(now)
    }

    /// Whether a touch went down less than [`DEFAULT_EPSILON_TIME`] before `now`.
    pub fn is_any_touch_pressed_at(&self, now: i128) -> (r: bool)
        requires
            self.wf(),
            is_span(now),
        ensures
            r == (exists|i: int|
                0 <= i < self.pressing_touches@.len() && fresh(
                    now,
                    (#[trigger] self.pressing_touches@[i]).time,
                )),
    {
        let mut k: usize = 0;
        while k < self.pressing_touches.len()
            invariant
                self.wf(),
                is_span(now),
                k <= self.pressing_touches@.len(),
                forall|i: int| 0 <= i < k ==> !fresh(now, (#[trigger] self.pressing_touches@[i]).time),
            decreases self.pressing_touches@.len() - k,
        {
            if is_fresh(now, self.pressing_touches[k].time) {
                return true;
            }
            k = k + 1;
        }
        false
    }

    /// Whether the touch `id` went down just now.
    pub fn is_touch_pressed(&self, id: u64) -> (r: bool)
        requires
            self.wf(),
        ensures
            r ==> has_touch(self.pressing_touches@, id),
            exists|now: i128|
                is_span(now) && r == (has_touch(self.pressing_touches@, id) && fresh(
                    now,
                    self.pressing_touches@[touch_place(self.pressing_touches@, id)].time,
                )),
    {
        let now: i128 = self.program_running_time();
        self.is_touch_pressed_at(id, now)
    }

    /// Whether the touch `id` went down less than [`DEFAULT_EPSILON_TIME`]
    /// before `now`.
    pub fn is_touch_pressed_at(&self, id: u64, now: i128) -> (r: bool)
        requires
            self.wf(),
            is_span(now),
        ensures
            r == (has_touch(self.pressing_touches@, id) && fresh(
                now,
                self.pressing_touches@[touch_place(self.pressing_touches@, id)].time,
            )),
    {
        match find_touch(&self.pressing_touches, id) {
            Some(k) => is_fresh(now, self.pressing_touches[k].time),
            None => false,
        }
    }

    /// The ids of the touches that went down just now in `area` and that
    /// no widget has taken.
    pub fn get_touch_pressed_on(&self, area: Rect) -> (ids: Vec<u64>)
        requires
            self.wf(),
        ensures
            exists|now: i128|
                is_span(now) && ids@ == ids_of(pressed_on(self.pressing_touches@, area, now)),
    {
        let now: i128 = self.program_running_time();
        self.get_touch_pressed_on_at(area, now)
    }

    /// The ids of the touches that went down in `area` less than
    /// [`DEFAULT_EPSILON_TIME`] before `now` and that no widget has taken.
    pub fn get_touch_pressed_on_at(&self, area: Rect, now: i128) -> (ids: Vec<u64>)
        requires
            self.wf(),
            is_span(now),
        ensures
            ids@ == ids_of(pressed_on(self.pressing_touches@, area, now)),
    {
        let mut result: Vec<u64> = Vec::new();
        let mut k: usize = 0;
        let ghost all = self.pressing_touches@;
        let ghost pass = |t: TouchState|
            area.spec_contains(t.pos) && fresh(now, t.time) && t.using_by is None;
        proof {
            lemma_filter_none(all, pass);
            assert(result@ =~= ids_of(all.take(0).filter(pass)));
        }
        while k < self.pressing_touches.len()
            invariant
                self.wf(),
                is_span(now),
                all == self.pressing_touches@,
                k <= all.len(),
                pass == |t: TouchState|
                    area.spec_contains(t.pos) && fresh(now, t.time) && t.using_by is None,
                result@ == ids_of(all.take(k as int).filter(pass)),
            decreases all.len() - k,
        {
            let touch: TouchState = self.pressing_touches[k];
            proof {
                lemma_filter_step(all, pass, k as int);
            }
            if area.contains(touch.pos) && is_fresh(now, touch.time) && touch.using_by.is_none() {
                result.push(touch.id);
                proof {
                    assert(result@ =~= ids_of(all.take(k + 1).filter(pass)));
                }
            }
            k = k + 1;
        }
        proof {
            assert(all.take(all.len() as int) =~= all);
        }
        result
    }

    /// Whether a touch went down just now in `area` that no widget has taken.
    pub fn any_touch_pressed_on(&self, area: Rect) -> (r: bool)
        requires
            self.wf(),
        ensures
            exists|now: i128|
                is_span(now) && r == (pressed_on(self.pressing_touches@, area, now).len() > 0),
    {
        let now: i128 = self.program_running_time();
        self.any_touch_pressed_on_at(area, now)
    }

    /// Whether a touch went down in `area` less than
    /// [`DEFAULT_EPSILON_TIME`] before `now` that no widget has taken.
    pub fn any_touch_pressed_on_at(&self, area: Rect, now: i128) -> (r: bool)
        requires
            self.wf(),
            is_span(now),
        ensures
            r == (pressed_on(self.pressing_touches@, area, now).len() > 0),
    {
        self.get_touch_pressed_on_at(area, now).len() > 0
    }

    /// Whether a touch is down in `area`.
    pub fn any_touch_pressing_on(&self, area: Rect) -> (r: bool)
        ensures
            r == (exists|i: int|
                0 <= i < self.pressing_touches@.len() && area.spec_contains(
                    (#[trigger] self.pressing_touches@[i]).pos,
                )),
    {
        let mut k: usize = 0;
        while k < self.pressing_touches.len()
            invariant
                k <= self.pressing_touches@.len(),
                forall|i: int|
                    0 <= i < k ==> !area.spec_contains((#[trigger] self.pressing_touches@[i]).pos),
            decreases self.pressing_touches@.len() - k,
        {
            if area.contains(self.pressing_touches[k].pos) {
                return true;
            }
            k = k + 1;
        }
        false
    }

    /// Whether a touch is down in `rect`.
    pub fn is_touch_in(&self, rect: Rect) -> (r: bool)
        ensures
            r == (exists|i: int|
                0 <= i < self.pressing_touches@.len() && rect.spec_contains(
                    (#[trigger] self.pressing_touches@[i]).pos,
                )),
    {
        self.any_touch_pressing_on(rect)
    }

    /// Whether any touch is down; the mouse in the window counts as one.
    pub fn is_any_touch_pressing(&self) -> (r: bool)
        ensures
            r == (self.pressing_touches@.len() > 0),
    {
        self.pressing_touches.len() > 0
    }

    /// Whether any touch was let go a moment ago.
    pub fn is_any_touch_released(&self) -> (r: bool)
        ensures
            r == (self.released_touches@.len() > 0),
    {
        self.released_touches.len() > 0
    }

    /// Whether the touch `id` was let go a moment ago, or is not down.
    pub fn is_touch_released(&self, id: u64) -> (r: bool)
        requires
            self.wf(),
        ensures
            r == (has_touch(self.released_touches@, id) || !has_touch(self.pressing_touches@, id)),
    {
        find_touch(&self.released_touches, id).is_some() || find_touch(
            &self.pressing_touches,
            id,
        ).is_none()
    }

    /// The ids of the touches that were let go in `area` a moment ago; the
    /// mouse without a button is none of them.
    pub fn get_touch_released_on(&self, area: Rect) -> (ids: Vec<u64>)
        ensures
            ids@ == ids_of(released_on(self.released_touches@, area)),
    {
        let mut result: Vec<u64> = Vec::new();
        let mut k: usize = 0;
        let ghost all = self.released_touches@;
        let ghost pass = |t: TouchState| t.id != MOUSE_UNPRESSED_ID && area.spec_contains(t.pos);
        proof {
            lemma_filter_none(all, pass);
            assert(result@ =~= ids_of(all.take(0).filter(pass)));
        }
        while k < self.released_touches.len()
            invariant
                all == self.released_touches@,
                k <= all.len(),
                pass == |t: TouchState| t.id != MOUSE_UNPRESSED_ID && area.spec_contains(t.pos),
                result@ == ids_of(all.take(k as int).filter(pass)),
            decreases all.len() - k,
        {
            let touch: TouchState = self.released_touches[k];
            proof {
                lemma_filter_step(all, pass, k as int);
            }
            if touch.id != MOUSE_UNPRESSED_ID && area.contains(touch.pos) {
                result.push(touch.id);
                proof {
                    assert(result@ =~= ids_of(all.take(k + 1).filter(pass)));
                }
            }
            k = k + 1;
        }
        proof {
            assert(all.take(all.len() as int) =~= all);
        }
        result
    }

    /// Whether a touch was let go in `area` a moment ago.
    pub fn any_touch_released_on(&self, area: Rect) -> (r: bool)
        ensures
            r == (released_on(self.released_touches@, area).len() > 0),
    {
        self.get_touch_released_on(area).len() > 0
    }

    /// Where the touch `id` is, or where it was let go.
    pub fn get_touch_pos(&self, id: u64) -> (r: Option<Vec2>)
        requires
            self.wf(),
        ensures
            r == match touch_of(self.pressing_touches@, id) {
                Some(touch) => Some(touch.pos),
                None => match touch_of(self.released_touches@, id) {
                    Some(touch) => Some(touch.pos),
                    None => None,
                },
            },
    {
        match find_touch(&self.pressing_touches, id) {
            Some(k) => Some(self.pressing_touches[k].pos),
            None => match find_touch(&self.released_touches, id) {
                Some(k) => Some(self.released_touches[k].pos),
                None => None,
            },
        }
    }

    /// Where the mouse is, while it is in the window.
    pub fn mouse_pos(&self) -> (r: Option<Vec2>)
        requires
            self.wf(),
        ensures
            r == match touch_of(self.pressing_touches@, MOUSE_UNPRESSED_ID) {
                Some(touch) => Some(touch.pos),
                None => None,
            },
    {
        match find_touch(&self.pressing_touches, MOUSE_UNPRESSED_ID) {
            Some(k) => Some(self.pressing_touches[k].pos),
            None => None,
        }
    }

    /// Where the touches are that are down; the mouse in the window is one of them.
    pub fn touch_positions(&self) -> (r: Vec<Vec2>)
        ensures
            r@ == positions_of(self.pressing_touches@),
    {
        let mut result: Vec<Vec2> = Vec::new();
        let mut k: usize = 0;
        while k < self.pressing_touches.len()
            invariant
                k <= self.pressing_touches@.len(),
                result@ == positions_of(self.pressing_touches@.take(k as int)),
            decreases self.pressing_touches@.len() - k,
        {
            result.push(self.pressing_touches[k].pos);
            proof {
                assert(result@ =~= positions_of(self.pressing_touches@.take(k + 1)));
            }
            k = k + 1;
        }
        proof {
            assert(self.pressing_touches@.take(self.pressing_touches@.len() as int)
                =~= self.pressing_touches@);
        }
        result
    }

    /// Whether any key is down.
    pub fn is_any_key_pressing(&self) -> (r: bool)
        ensures
            r == (self.pressing_keys@.len() > 0),
    {
        self.pressing_keys.len() > 0
    }

    /// Whether a key went down just now that no widget has taken.
    pub fn is_any_key_pressed(&self) -> (r: bool)
        requires
            self.wf(),
        ensures
            exists|now: i128|
                is_span(now) && r == (exists|i: int|
                    0 <= i < self.pressing_keys@.len() && fresh(
                        now,
                        (#[trigger] self.pressing_keys@[i]).time,
                    ) && !self.pressing_keys@[i].used),
    {
        let now: i128 = self.program_running_time();
        self.is_any_key_pressed_at(now)
    }

    /// Whether a key went down less than [`DEFAULT_EPSILON_TIME`] before
    /// `now` that no widget has taken.
    pub fn is_any_key_pressed_at(&self, now: i128) -> (r: bool)
        requires
            self.wf(),
            is_span(now),
        ensures
            r == (exists|i: int|
                0 <= i < self.pressing_keys@.len() && fresh(
                    now,
                    (#[trigger] self.pressing_keys@[i]).time,
                ) && !self.pressing_keys@[i].used),
    {
        let mut k: usize = 0;
        while k < self.pressing_keys.len()
            invariant
                self.wf(),
                is_span(now),
                k <= self.pressing_keys@.len(),
                forall|i: int|
                    0 <= i < k ==> !(fresh(now, (#[trigger] self.pressing_keys@[i]).time)
                        && !self.pressing_keys@[i].used),
            decreases self.pressing_keys@.len() - k,
        {
            if is_fresh(now, self.pressing_keys[k].time) && !self.pressing_keys[k].used {
                return true;
            }
            k = k + 1;
        }
        false
    }

    /// Whether any key was let go a moment ago.
    pub fn is_any_key_released(&self) -> (r: bool)
        ensures
            r == (self.released_keys@.len() > 0),
    {
        self.released_keys.len() > 0
    }

    /// Whether `key` was let go a moment ago.
    pub fn is_key_released(&self, key: Key) -> (r: bool)
        requires
            self.wf(),
        ensures
            r == has_key_state(self.released_keys@, key),
    {
        find_key(&self.released_keys, key).is_some()
    }

    /// Whether `key` is down.
    pub fn is_key_pressing(&self, key: Key) -> (r: bool)
        requires
            self.wf(),
        ensures
            r == has_key_state(self.pressing_keys@, key),
    {
        find_key(&self.pressing_keys, key).is_some()
    }

    /// The modifier keys that are held down.
    pub fn modifiers(&self) -> (m: Modifiers)
        requires
            self.wf(),
        ensures
            m == self@.modifiers(),
    {
        Modifiers {
            shift: self.is_key_pressing(Key::ShiftLeft) || self.is_key_pressing(Key::ShiftRight),
            ctrl: self.is_key_pressing(Key::ControlLeft) || self.is_key_pressing(Key::ControlRight),
            alt: self.is_key_pressing(Key::AltLeft) || self.is_key_pressing(Key::AltRight),
        }
    }

    /// How far the touch `id` has moved in this frame; for the mouse
    /// without a button, how far the wheel was turned; nothing for a touch
    /// that is not down.
    pub fn drag_delta(&self, id: u64) -> (delta: Vec2)
        requires
            self.wf(),
        ensures
            delta == if deltas_of(self.pressing_touches@, self.wheel).contains_key(id) {
                deltas_of(self.pressing_touches@, self.wheel)[id]
            } else {
                Vec2::spec_zero()
            },
    {
        if id == MOUSE_UNPRESSED_ID {
            return self.wheel;
        }
        match find_touch(&self.pressing_touches, id) {
            Some(k) => self.pressing_touches[k].pos.minus(self.pressing_touches[k].last_pos),
            None => Vec2::zero(),
        }
    }

    /// The sum of how far the touches have moved and the wheel was turned
    /// in this frame.
    pub fn drag_delta_summary(&self) -> (sum: Vec2)
        ensures
            sum == moved_sum(self.pressing_touches@, self.pressing_touches@.len(), self.wheel),
    {
        let mut sum: Vec2 = self.wheel;
        let mut k: usize = 0;
        while k < self.pressing_touches.len()
            invariant
                k <= self.pressing_touches@.len(),
                sum == moved_sum(self.pressing_touches@, k as nat, self.wheel),
            decreases self.pressing_touches@.len() - k,
        {
            let touch: TouchState = self.pressing_touches[k];
            if touch.id != MOUSE_UNPRESSED_ID {
                sum = sum.plus(touch.pos.minus(touch.last_pos));
            }
            k = k + 1;
        }
        sum
    }
}

} // verus!
