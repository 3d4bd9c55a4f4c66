//! What the widgets take of the input in a frame, and how the input goes
//! over into the next frame.

use vstd::prelude::*;
use std::collections::HashMap;
use crate::layout::LayoutId;
use crate::math::rect::Rect;
use crate::math::vec2::Vec2;
use crate::widgets::Signal;
use crate::window::clock::is_span;
use crate::window::event::Key;
use crate::window::held::{
    distinct_keys,
    distinct_touches,
    find_key,
    find_touch,
    has_key_state,
    has_touch,
    key_place,
    lemma_filter_keys,
    lemma_filter_none,
    lemma_filter_step,
    lemma_filter_touches,
    touch_place,
    KeyState,
    TouchState,
    TouchUse,
};
use crate::window::input_query::{deltas_of, fresh, is_fresh};
use crate::window::input_state::{
    keys_timed,
    touches_timed,
    ImeString,
    InputState,
    InputView,
    MOUSE_UNPRESSED_ID,
};

verus! {

/// Whether a touch of the list is held by the widget `by`, which took it
/// while it was fresh.
pub open spec fn held_by(s: Seq<TouchState>, by: LayoutId) -> bool {
    exists|i: int|
        0 <= i < s.len() && (#[trigger] s[i]).using_by == Some(TouchUse { by, accepted: true })
}

/// Whether the touch is a click of the widget `by` in `hitbox`: the
/// widget took it while it was fresh, and it lies in `hitbox`.
pub open spec fn clicks(touch: TouchState, by: LayoutId, hitbox: Rect) -> bool {
    touch.using_by == Some(TouchUse { by, accepted: true }) && hitbox.spec_contains(touch.pos)
}

/// The touches of the list that are no click of the widget `by` in `hitbox`.
pub open spec fn no_clicks(s: Seq<TouchState>, by: LayoutId, hitbox: Rect) -> Seq<TouchState> {
    s.filter(|t: TouchState| !clicks(t, by, hitbox))
}

/// What becomes of a touch that is down when the widget `by` looks for a
/// click in `hitbox` at `now`. A touch in `hitbox` that no widget has
/// taken is taken by `by`, and counts for a click if it is fresh. A touch
/// in `hitbox` that `by` has taken is noted as looked at.
pub open spec fn offered(touch: TouchState, by: LayoutId, hitbox: Rect, now: i128) -> TouchState {
    match touch.using_by {
        Some(taken) => if taken.by == by && hitbox.spec_contains(touch.pos) {
            TouchState { last_used: true, ..touch }
        } else {
            touch
        },
        None => if hitbox.spec_contains(touch.pos) {
            TouchState {
                using_by: Some(TouchUse { by, accepted: fresh(now, touch.time) }),
                last_used: true,
                ..touch
            }
        } else {
            touch
        },
    }
}

/// The touches of the list as they are offered to the widget `by`.
pub open spec fn all_offered(s: Seq<TouchState>, by: LayoutId, hitbox: Rect, now: i128) -> Seq<
    TouchState,
> {
    Seq::new(s.len(), |i: int| offered(s[i], by, hitbox, now))
}

/// The touches of the list with where they are taken as where they were.
pub open spec fn settled(s: Seq<TouchState>) -> Seq<TouchState> {
    Seq::new(s.len(), |i: int| TouchState { last_pos: s[i].pos, ..s[i] })
}

/// A touch that was let go, as it goes into the next frame: free again
/// unless a widget has looked at it in this frame.
pub open spec fn rested(touch: TouchState) -> TouchState {
    TouchState {
        using_by: if touch.last_used {
            touch.using_by
        } else {
            None
        },
        last_used: false,
        ..touch
    }
}

/// The touches of the list that were let go less than a moment before
/// `now`, as they go into the next frame.
pub open spec fn left_over(s: Seq<TouchState>, now: i128) -> Seq<TouchState> {
    Seq::new(s.len(), |i: int| rested(s[i])).filter(|t: TouchState| fresh(now, t.time))
}

/// The keys of the list that were let go less than a moment before `now`.
pub open spec fn keys_left_over(s: Seq<KeyState>, now: i128) -> Seq<KeyState> {
    s.filter(|k: KeyState| fresh(now, k.time))
}

impl<S: Signal> InputView<S> {
    /// Whether the widget `by` is clicked in `hitbox`, and the state after
    /// it has asked at `now`.
    ///
    /// - While `by` holds a touch that is down, it is not clicked.
    /// - Where `by` holds touches that were let go, it is clicked if one
    ///   of them lies in `hitbox`; those are used up.
    /// - Otherwise it is not clicked, and the touches that are down are
    ///   offered to it, see [`offered`].
    #[verifier::opaque]
    pub open spec fn asked_for_click(self, by: LayoutId, hitbox: Rect, now: i128) -> (
        bool,
        InputView<S>,
    ) {
        if held_by(self.pressing_touches, by) {
            (false, self)
        } else if held_by(self.released_touches, by) {
            (
                exists|i: int|
                    0 <= i < self.released_touches.len() && clicks(
                        #[trigger] self.released_touches[i],
                        by,
                        hitbox,
                    ),
                InputView { released_touches: no_clicks(self.released_touches, by, hitbox), ..self },
            )
        } else {
            (
                false,
                InputView {
                    pressing_touches: all_offered(self.pressing_touches, by, hitbox, now),
                    ..self
                },
            )
        }
    }

    /// Whether `key` went down just now and no widget has taken it.
    pub open spec fn key_is_new(self, key: Key, now: i128) -> bool {
        has_key_state(self.pressing_keys, key) && fresh(
            now,
            self.pressing_keys[key_place(self.pressing_keys, key)].time,
        ) && !self.pressing_keys[key_place(self.pressing_keys, key)].used
    }

    /// The state at the start of the next frame, which begins at `now`.
    ///
    /// The events, the signals and the wheel of the frame are gone. What
    /// was let go more than a moment ago is forgotten. The characters of
    /// the keys that went down in the frame are the typed text of the next.
    pub open spec fn next_frame(self, now: i128) -> InputView<S> {
        InputView {
            raw_events: Seq::empty(),
            has_new_events: false,
            signals_to_send: Seq::empty(),
            wheel: Vec2::spec_zero(),
            pressing_touches: settled(self.pressing_touches),
            released_keys: keys_left_over(self.released_keys, now),
            released_touches: left_over(self.released_touches, now),
            handling_id: LayoutId(0),
            input_string: self.cached_input,
            cached_input: Seq::empty(),
            ime_taken: false,
            ..self
        }
    }

    /// Whether `text` is what a widget gets that asks for the typed text.
    ///
    /// - While an input method composes: the composed text, once in a frame.
    /// - Else the pasted text, if there is any.
    /// - Else the typed text, if there is any.
    pub open spec fn hands_out(self, text: ImeString) -> bool {
        match self.ime_selection {
            Some(selected) => if !self.ime_taken {
                text matches ImeString::Ime { input, selected: marked } && input@ == self.ime_text
                    && marked == selected
            } else {
                text is Nothing
            },
            None => if self.pasted_text.len() > 0 {
                text matches ImeString::ImeOff(inner) && inner@ == self.pasted_text
            } else if self.input_string.len() > 0 {
                text matches ImeString::ImeOff(inner) && inner@ == self.input_string
            } else {
                text is Nothing
            },
        }
    }

    /// The state after a widget has asked for the typed text: what it got
    /// is gone.
    pub open spec fn handed_out(self) -> InputView<S> {
        match self.ime_selection {
            Some(_) => InputView { ime_taken: true, ..self },
            None => if self.pasted_text.len() > 0 {
                InputView { pasted_text: Seq::empty(), ..self }
            } else {
                InputView { input_string: Seq::empty(), ..self }
            },
        }
    }
}

fn any_held_by(list: &Vec<TouchState>, by: LayoutId) -> (r: bool)
    ensures
        r == held_by(list@, by),
{
    let mut k: usize = 0;
    while k < list.len()
        invariant
            k <= list@.len(),
            forall|i: int|
                0 <= i < k ==> (#[trigger] list@[i]).using_by != Some(TouchUse { by, accepted: true }),
        decreases list@.len() - k,
    {
        if is_click_of(&list[k], by) {
            return true;
        }
        k = k + 1;
    }
    false
}

fn is_click_of(touch: &TouchState, by: LayoutId) -> (r: bool)
    ensures
        r == (touch.using_by == Some(TouchUse { by, accepted: true })),
{
    match touch.using_by {
        Some(taken) => taken.by.0 == by.0 && taken.accepted,
        None => false,
    }
}

/// Uses up the clicks of the widget `by` in `hitbox`, and says whether
/// there was one.
fn use_clicks(list: &mut Vec<TouchState>, by: LayoutId, hitbox: Rect) -> (r: bool)
    requires
        distinct_touches(old(list)@),
        touches_timed(old(list)@),
    ensures
        r == (exists|i: int|
            0 <= i < old(list)@.len() && clicks(#[trigger] old(list)@[i], by, hitbox)),
        final(list)@ == no_clicks(old(list)@, by, hitbox),
        distinct_touches(final(list)@),
        touches_timed(final(list)@),
{
    let ghost all = list@;
    let ghost pass = |t: TouchState| !clicks(t, by, hitbox);
    let mut kept: Vec<TouchState> = Vec::new();
    let mut found: bool = false;
    let mut k: usize = 0;
    proof {
        lemma_filter_none(all, pass);
    }
    while k < list.len()
        invariant
            all == list@,
            k <= all.len(),
            pass == |t: TouchState| !clicks(t, by, hitbox),
            kept@ == all.take(k as int).filter(pass),
            found == (exists|i: int| 0 <= i < k && clicks(#[trigger] all[i], by, hitbox)),
        decreases all.len() - k,
    {
        let touch: TouchState = list[k];
        proof {
            lemma_filter_step(all, pass, k as int);
        }
        if is_click_of(&touch, by) && hitbox.contains(touch.pos) {
            found = true;
        } else {
            kept.push(touch);
        }
        k = k + 1;
    }
    proof {
        assert(all.take(all.len() as int) =~= all);
        lemma_filter_touches(all, pass);
        assert forall|i: int| 0 <= i < kept@.len() implies is_span((#[trigger] kept@[i]).time) by {
            assert(all.contains(kept@[i]));
        }
    }
    *list = kept;
    found
}

/// Offers the touches of the list to the widget `by`.
fn offer_all(list: &mut Vec<TouchState>, by: LayoutId, hitbox: Rect, now: i128)
    requires
        distinct_touches(old(list)@),
        touches_timed(old(list)@),
        is_span(now),
    ensures
        final(list)@ == all_offered(old(list)@, by, hitbox, now),
        distinct_touches(final(list)@),
        touches_timed(final(list)@),
{
    let ghost all = list@;
    let mut k: usize = 0;
    while k < list.len()
        invariant
            is_span(now),
            touches_timed(all),
            list@.len() == all.len(),
            k <= all.len(),
            forall|i: int| 0 <= i < k ==> list@[i] == offered(#[trigger] all[i], by, hitbox, now),
            forall|i: int| k <= i < all.len() ==> list@[i] == #[trigger] all[i],
        decreases all.len() - k,
    {
        let touch: TouchState = list[k];
        let inside: bool = hitbox.contains(touch.pos);
        proof {
            assert(touch == all[k as int]);
        }
        match touch.using_by {
            Some(taken) => {
                if taken.by.0 == by.0 && inside {
                    list[k] = TouchState {
                        id: touch.id,
                        time: touch.time,
                        pos: touch.pos,
                        last_pos: touch.last_pos,
                        using_by: touch.using_by,
                        last_used: true,
                    };
                }
            },
            None => {
                if inside {
                    let accepted: bool = is_fresh(now, touch.time);
                    list[k] = TouchState {
                        id: touch.id,
                        time: touch.time,
                        pos: touch.pos,
                        last_pos: touch.last_pos,
                        using_by: Some(TouchUse { by, accepted }),
                        last_used: true,
                    };
                }
            },
        }
        k = k + 1;
    }
    proof {
        assert(list@ =~= all_offered(all, by, hitbox, now));
    }
}

impl<S: Signal> InputState<S> {
    /// Whether the widget `click_by` is clicked in `hitbox`, at the time
    /// that the clock shows; see [`InputState::is_clicked_at`].
    pub fn is_clicked(&mut self, click_by: LayoutId, hitbox: Rect) -> (r: bool)
        requires
            old(self).wf(),
        ensures
            exists|now: i128|
                is_span(now) && (r, final(self)@) == #[trigger] old(self)@.asked_for_click(
                    click_by,
                    hitbox,
                    now,
                ),
            final(self).program_start_time == old(self).program_start_time,
            final(self).wf(),
    {
        let now: i128 = self.program_running_time();
        self.is_clicked_at(click_by, hitbox, now)
    }

    /// Whether the widget `click_by` is clicked in `hitbox`: a touch that
    /// it took in `hitbox` while the touch was fresh has been let go there.
    /// A widget that is not clicked is offered the touches that are down;
    /// see [`InputView::asked_for_click`].
    pub fn is_clicked_at(&mut self, click_by: LayoutId, hitbox: Rect, now: i128) -> (r: bool)
        requires
            old(self).wf(),
            is_span(now),
        ensures
            (r, final(self)@) == old(self)@.asked_for_click(click_by, hitbox, now),
            final(self).program_start_time == old(self).program_start_time,
            final(self).wf(),
    {
        proof {
            reveal(InputView::asked_for_click);
        }
        if any_held_by(&self.pressing_touches, click_by) {
            return false;
        }
        if any_held_by(&self.released_touches, click_by) {
            return use_clicks(&mut self.released_touches, click_by, hitbox);
        }
        offer_all(&mut self.pressing_touches, click_by, hitbox, now);
        false
    }

    /// Whether `key` went down just now and no widget has taken it, at the
    /// time that the clock shows. The widget that asks takes the key.
    pub fn is_key_pressed(&mut self, key: Key) -> (r: bool)
        requires
            old(self).wf(),
        ensures
            exists|now: i128|
                is_span(now) && r == #[trigger] old(self)@.key_is_new(key, now),
            final(self)@ == if r {
                InputView {
                    pressing_keys: old(self)@.pressing_keys.update(
                        key_place(old(self)@.pressing_keys, key),
                        KeyState {
                            used: true,
                            ..old(self)@.pressing_keys[key_place(old(self)@.pressing_keys, key)]
                        },
                    ),
                    ..old(self)@
                }
            } else {
                old(self)@
            },
            final(self).program_start_time == old(self).program_start_time,
            final(self).wf(),
    {
        let now: i128 = self.program_running_time();
        self.is_key_pressed_at(key, now)
    }

    /// Whether `key` went down less than a moment before `now` and no
    /// widget has taken it. The widget that asks takes the key: the next
    /// to ask is told `false`.
    pub fn is_key_pressed_at(&mut self, key: Key, now: i128) -> (r: bool)
        requires
            old(self).wf(),
            is_span(now),
        ensures
            r == old(self)@.key_is_new(key, now),
            final(self)@ == if r {
                InputView {
                    pressing_keys: old(self)@.pressing_keys.update(
                        key_place(old(self)@.pressing_keys, key),
                        KeyState {
                            used: true,
                            ..old(self)@.pressing_keys[key_place(old(self)@.pressing_keys, key)]
                        },
                    ),
                    ..old(self)@
                }
            } else {
                old(self)@
            },
            final(self).program_start_time == old(self).program_start_time,
            final(self).wf(),
    {
        match find_key(&self.pressing_keys, key) {
            Some(k) => {
                let state: KeyState = self.pressing_keys[k];
                if is_fresh(now, state.time) && !state.used {
                    self.pressing_keys[k] = KeyState { key: state.key, time: state.time, used: true };
                    true
                } else {
                    false
                }
            },
            None => false,
        }
    }

    /// Takes the touch `id` for the widget that is handling its events, so
    /// that no other widget gets it; the touch counts for no click.
    pub fn consume_touch(&mut self, id: u64)
        requires
            old(self).wf(),
        ensures
            final(self)@ == if has_touch(old(self)@.pressing_touches, id) {
                InputView {
                    pressing_touches: old(self)@.pressing_touches.update(
                        touch_place(old(self)@.pressing_touches, id),
                        TouchState {
                            using_by: Some(TouchUse { by: old(self).handling_id, accepted: false }),
                            last_used: true,
                            ..old(self)@.pressing_touches[touch_place(old(self)@.pressing_touches, id)]
                        },
                    ),
                    ..old(self)@
                }
            } else {
                old(self)@
            },
            final(self).program_start_time == old(self).program_start_time,
            final(self).wf(),
    {
        match find_touch(&self.pressing_touches, id) {
            Some(k) => {
                let touch: TouchState = self.pressing_touches[k];
                self.pressing_touches[k] = TouchState {
                    id: touch.id,
                    time: touch.time,
                    pos: touch.pos,
                    last_pos: touch.last_pos,
                    using_by: Some(TouchUse { by: self.handling_id, accepted: false }),
                    last_used: true,
                };
            },
            None => {},
        }
    }

    /// The text that was typed, for the widget that asks; what it gets is
    /// gone, so that no other widget gets it too.
    pub fn get_input_string(&mut self) -> (text: ImeString)
        ensures
            old(self)@.hands_out(text),
            final(self)@ == old(self)@.handed_out(),
            final(self).program_start_time == old(self).program_start_time,
    {
        match self.ime_selection {
            Some(selected) => {
                if !self.ime_taken {
                    self.ime_taken = true;
                    ImeString::Ime { input: self.ime_text.clone(), selected }
                } else {
                    ImeString::Nothing
                }
            },
            None => {
                if !self.pasted_text.as_str().is_empty() {
                    let mut out: String = String::new();
                    std::mem::swap(&mut self.pasted_text, &mut out);
                    ImeString::ImeOff(out)
                } else if self.input_string.as_str().is_empty() {
                    proof {
                        assert(self.input_string@ =~= Seq::<char>::empty());
                    }
                    ImeString::Nothing
                } else {
                    let mut out: String = String::new();
                    std::mem::swap(&mut self.input_string, &mut out);
                    ImeString::ImeOff(out)
                }
            },
        }
    }
}

/// Takes where the touches are as where they were.
fn settle(list: &mut Vec<TouchState>)
    requires
        distinct_touches(old(list)@),
        touches_timed(old(list)@),
    ensures
        final(list)@ == settled(old(list)@),
        distinct_touches(final(list)@),
        touches_timed(final(list)@),
{
    let ghost all = list@;
    let mut k: usize = 0;
    while k < list.len()
        invariant
            list@.len() == all.len(),
            k <= all.len(),
            forall|i: int|
                0 <= i < k ==> list@[i] == (TouchState { last_pos: all[i].pos, ..#[trigger] all[i] }),
            forall|i: int| k <= i < all.len() ==> list@[i] == #[trigger] all[i],
        decreases all.len() - k,
    {
        let touch: TouchState = list[k];
        list[k] = TouchState {
            id: touch.id,
            time: touch.time,
            pos: touch.pos,
            last_pos: touch.pos,
            using_by: touch.using_by,
            last_used: touch.last_used,
        };
        k = k + 1;
    }
    proof {
        assert(list@ =~= settled(all));
    }
}

/// Forgets the touches that were let go a moment before `now` or
/// earlier, and frees the others for the next frame.
fn forget_touches(list: &mut Vec<TouchState>, now: i128)
    requires
        distinct_touches(old(list)@),
        touches_timed(old(list)@),
        is_span(now),
    ensures
        final(list)@ == left_over(old(list)@, now),
        distinct_touches(final(list)@),
        touches_timed(final(list)@),
{
    let ghost all = list@;
    let ghost freed = Seq::new(all.len(), |i: int| rested(all[i]));
    let ghost pass = |t: TouchState| fresh(now, t.time);
    let mut kept: Vec<TouchState> = Vec::new();
    let mut k: usize = 0;
    proof {
        lemma_filter_none(freed, pass);
    }
    while k < list.len()
        invariant
            is_span(now),
            touches_timed(all),
            all == list@,
            freed == Seq::new(all.len(), |i: int| rested(all[i])),
            k <= all.len(),
            pass == |t: TouchState| fresh(now, t.time),
            kept@ == freed.take(k as int).filter(pass),
        decreases all.len() - k,
    {
        let touch: TouchState = list[k];
        proof {
            lemma_filter_step(freed, pass, k as int);
            assert(touch == all[k as int]);
        }
        if is_fresh(now, touch.time) {
            kept.push(
                TouchState {
                    id: touch.id,
                    time: touch.time,
                    pos: touch.pos,
                    last_pos: touch.last_pos,
                    using_by: if touch.last_used {
                        touch.using_by
                    } else {
                        None
                    },
                    last_used: false,
                },
            );
        }
        k = k + 1;
    }
    proof {
        assert(freed.take(all.len() as int) =~= freed);
        assert(distinct_touches(freed));
        lemma_filter_touches(freed, pass);
        assert forall|i: int| 0 <= i < kept@.len() implies is_span((#[trigger] kept@[i]).time) by {
            assert(freed.contains(kept@[i]));
            let j = choose|j: int| 0 <= j < freed.len() && freed[j] == kept@[i];
            assert(is_span(all[j].time));
        }
    }
    *list = kept;
}

/// Forgets the keys that were let go a moment before `now` or earlier.
fn forget_keys(list: &mut Vec<KeyState>, now: i128)
    requires
        distinct_keys(old(list)@),
        keys_timed(old(list)@),
        is_span(now),
    ensures
        final(list)@ == keys_left_over(old(list)@, now),
        distinct_keys(final(list)@),
        keys_timed(final(list)@),
{
    let ghost all = list@;
    let ghost pass = |k: KeyState| fresh(now, k.time);
    let mut kept: Vec<KeyState> = Vec::new();
    let mut k: usize = 0;
    proof {
        lemma_filter_none(all, pass);
    }
    while k < list.len()
        invariant
            is_span(now),
            keys_timed(all),
            all == list@,
            k <= all.len(),
            pass == |k: KeyState| fresh(now, k.time),
            kept@ == all.take(k as int).filter(pass),
        decreases all.len() - k,
    {
        let state: KeyState = list[k];
        proof {
            lemma_filter_step(all, pass, k as int);
            assert(state == all[k as int]);
        }
        if is_fresh(now, state.time) {
            kept.push(state);
        }
        k = k + 1;
    }
    proof {
        assert(all.take(all.len() as int) =~= all);
        lemma_filter_keys(all, pass);
        assert forall|i: int| 0 <= i < kept@.len() implies is_span((#[trigger] kept@[i]).time) by {
            assert(all.contains(kept@[i]));
        }
    }
    *list = kept;
}

impl<S: Signal> InputState<S> {
    /// Goes over into the next frame, at the time that the clock shows;
    /// see [`InputState::prepare_for_next_frame_at`].
    pub fn prepare_for_next_frame(&mut self)
        requires
            old(self).wf(),
        ensures
            exists|now: i128| is_span(now) && final(self)@ == #[trigger] old(self)@.next_frame(now),
            final(self).program_start_time == old(self).program_start_time,
            final(self).wf(),
    {
        let now: i128 = self.program_running_time();
        self.prepare_for_next_frame_at(now);
    }

    /// Goes over into the next frame, which begins at `now`; see
    /// [`InputView::next_frame`].
    pub fn prepare_for_next_frame_at(&mut self, now: i128)
        requires
            old(self).wf(),
            is_span(now),
        ensures
            final(self)@ == old(self)@.next_frame(now),
            final(self).program_start_time == old(self).program_start_time,
            final(self).wf(),
    {
        self.raw_events = Vec::new();
        self.has_new_events = false;
        self.signals_to_send = Vec::new();
        self.wheel = Vec2::zero();
        settle(&mut self.pressing_touches);
        forget_keys(&mut self.released_keys, now);
        forget_touches(&mut self.released_touches, now);
        self.handling_id = LayoutId::root();
        self.input_string = String::new();
        self.ime_taken = false;
        std::mem::swap(&mut self.input_string, &mut self.cached_input);
    }

    /// How far each touch has moved in this frame; under the id of the
    /// mouse without a button, how far the wheel was turned.
    pub fn drag_deltas(&self) -> (deltas: HashMap<u64, Vec2>)
        requires
            self.wf(),
        ensures
            deltas@ == deltas_of(self.pressing_touches@, self.wheel),
    {
        broadcast use vstd::std_specs::hash::group_hash_axioms;

        let mut deltas: HashMap<u64, Vec2> = HashMap::new();
        let ghost all = self.pressing_touches@;
        let mut k: usize = 0;
        while k < self.pressing_touches.len()
            invariant
                all == self.pressing_touches@,
                distinct_touches(all),
                k <= all.len(),
                forall|id: u64|
                    deltas@.contains_key(id) <==> exists|i: int|
                        0 <= i < k && (#[trigger] all[i]).id == id,
                forall|i: int|
                    0 <= i < k ==> deltas@[(#[trigger] all[i]).id] == all[i].pos.spec_minus(
                        all[i].last_pos,
                    ),
            decreases all.len() - k,
        {
            let touch: TouchState = self.pressing_touches[k];
            let ghost before = deltas@;
            deltas.insert(touch.id, touch.pos.minus(touch.last_pos));
            proof {
                assert forall|id: u64|
                    deltas@.contains_key(id) <==> exists|i: int|
                        0 <= i < k + 1 && (#[trigger] all[i]).id == id by {
                    if deltas@.contains_key(id) {
                        if id == touch.id {
                            assert(all[k as int].id == id);
                        } else {
                            assert(before.contains_key(id));
                            let i = choose|i: int| 0 <= i < k && (#[trigger] all[i]).id == id;
                            assert(all[i].id == id);
                        }
                    }
                    if exists|i: int| 0 <= i < k + 1 && (#[trigger] all[i]).id == id {
                        let i = choose|i: int| 0 <= i < k + 1 && (#[trigger] all[i]).id == id;
                        if i < k {
                            assert(all[i].id == id);
                            assert(before.contains_key(id));
                        }
                    }
                }
            }
            k = k + 1;
        }
        deltas.insert(MOUSE_UNPRESSED_ID, self.wheel);
        proof {
            let wanted = deltas_of(all, self.wheel);
            assert forall|id: u64| deltas@.contains_key(id) <==> wanted.contains_key(id) by {
                if id != MOUSE_UNPRESSED_ID {
                    if deltas@.contains_key(id) {
                        let i = choose|i: int| 0 <= i < all.len() && (#[trigger] all[i]).id == id;
                        assert(all[i].id == id);
                    }
                    if has_touch(all, id) {
                        let i = touch_place(all, id);
                        assert(all[i].id == id);
                    }
                }
            }
            assert forall|id: u64| deltas@.contains_key(id) implies deltas@[id] == wanted[id] by {
                if id != MOUSE_UNPRESSED_ID {
                    let i = touch_place(all, id);
                    assert(all[i].id == id);
                }
            }
            assert(deltas@ =~= wanted);
        }
        deltas
    }
}

} // verus!
