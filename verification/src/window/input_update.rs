//! How the input changes: with the events of the window, with the widgets
//! that take a touch or a key, and from one frame to the next.

use vstd::prelude::*;
use vstd::string::StringExecFns;
use crate::math::vec2::Vec2;
use crate::widgets::Signal;
use crate::window::clock::is_span;
use crate::window::event::{ImeEvent, Key, MouseButton, Touch, TouchPhase, WindowEvent};
use crate::window::held::{
    distinct_touches,
    find_touch,
    has_touch,
    put_key,
    put_touch,
    take_key,
    take_touch,
    touch_of,
    touch_place,
    with_key,
    with_touch,
    without_key,
    without_touch,
    KeyState,
    TouchState,
};
use crate::window::input_state::{
    keys_timed,
    touches_timed,
    InputState,
    InputView,
    MOUSE_ID,
    MOUSE_UNPRESSED_ID,
};

verus! {

/// `String::push`: appends the character to the end of the string.
#[verifier::external_body]
pub(crate) fn push_char(text: &mut String, c: char)
    ensures
        final(text)@ == old(text)@.push(c),
{
    text.push(c);
}

/// The id of the touch that stands for a button of the mouse.
pub open spec fn spec_button_id(button: MouseButton) -> u64 {
    match button {
        MouseButton::Left => MOUSE_ID,
        MouseButton::Right => (MOUSE_ID + 1) as u64,
        MouseButton::Middle => (MOUSE_ID + 2) as u64,
        MouseButton::Back => (MOUSE_ID + 3) as u64,
        MouseButton::Forward => (MOUSE_ID + 4) as u64,
        MouseButton::Other(id) => (MOUSE_ID + id) as u64,
    }
}

/// The id of the touch that stands for a button of the mouse.
#[verifier::when_used_as_spec(spec_button_id)]
pub fn button_id(button: MouseButton) -> (id: u64)
    ensures
        id == spec_button_id(button),
{
    match button {
        MouseButton::Left => MOUSE_ID,
        MouseButton::Right => MOUSE_ID + 1,
        MouseButton::Middle => MOUSE_ID + 2,
        MouseButton::Back => MOUSE_ID + 3,
        MouseButton::Forward => MOUSE_ID + 4,
        MouseButton::Other(id) => MOUSE_ID + id as u64,
    }
}

/// The list with the touch `id`, if it is there, moved to `pos`.
pub open spec fn moved_to(s: Seq<TouchState>, id: u64, pos: Vec2) -> Seq<TouchState> {
    if has_touch(s, id) {
        s.update(touch_place(s, id), TouchState { pos, ..s[touch_place(s, id)] })
    } else {
        s
    }
}

/// The list with the first `n` buttons of the mouse, as far as they are
/// down, moved to `pos`.
pub open spec fn buttons_moved(s: Seq<TouchState>, pos: Vec2, n: nat) -> Seq<TouchState>
    decreases n,
{
    if n == 0 {
        s
    } else {
        moved_to(buttons_moved(s, pos, (n - 1) as nat), (MOUSE_ID + n - 1) as u64, pos)
    }
}

/// The mouse without a button at `pos`: as it was but for where it is, or
/// new where it was not in the window.
pub open spec fn mouse_at(s: Seq<TouchState>, pos: Vec2) -> TouchState {
    match touch_of(s, MOUSE_UNPRESSED_ID) {
        Some(touch) => TouchState { pos, ..touch },
        None => TouchState {
            id: MOUSE_UNPRESSED_ID,
            time: 0,
            pos,
            last_pos: pos,
            using_by: None,
            last_used: false,
        },
    }
}

/// A touch that went down at `pos` at the time `now`.
pub open spec fn new_touch(id: u64, pos: Vec2, now: i128) -> TouchState {
    TouchState { id, time: now, pos, last_pos: pos, using_by: None, last_used: false }
}

impl<S: Signal> InputView<S> {
    /// The state after the touch `id` was let go at `now`: where it was
    /// down, it is down no more and is listed as let go at `now`.
    pub open spec fn let_go(self, id: u64, now: i128) -> InputView<S> {
        match touch_of(self.pressing_touches, id) {
            Some(touch) => InputView {
                pressing_touches: without_touch(self.pressing_touches, id),
                released_touches: with_touch(self.released_touches, TouchState { time: now, ..touch }),
                ..self
            },
            None => self,
        }
    }

    /// The state after a key went down at `now`. Unless control or alt is
    /// held or an input method has taken over, the character of the key is
    /// typed: it joins the text of the next frame.
    pub open spec fn key_down(self, key: Key, now: i128) -> InputView<S> {
        let mods = self.modifiers();
        let typed = if !mods.ctrl && !mods.alt && !self.is_ime_enabled {
            key.spec_get_char(mods.shift)
        } else {
            None
        };
        InputView {
            cached_input: match typed {
                Some(c) => self.cached_input.push(c),
                None => self.cached_input,
            },
            pressing_keys: with_key(self.pressing_keys, KeyState { key, time: now, used: false }),
            released_keys: without_key(self.released_keys, key),
            ..self
        }
    }

    /// The state after a finger has come, moved or left at `now`.
    pub open spec fn touched(self, touch: Touch, now: i128) -> InputView<S> {
        if touch.phase == TouchPhase::Cancelled || touch.phase == TouchPhase::Ended {
            self.let_go(touch.id, now)
        } else {
            InputView {
                released_touches: without_touch(self.released_touches, touch.id),
                pressing_touches: if has_touch(self.pressing_touches, touch.id) {
                    moved_to(self.pressing_touches, touch.id, touch.pos)
                } else {
                    self.pressing_touches.push(new_touch(touch.id, touch.pos, now))
                },
                ..self
            }
        }
    }

    /// The state after the window has reported `event` at the time `now`,
    /// the event not yet noted among the events of the frame.
    pub open spec fn taken(self, event: WindowEvent, now: i128) -> InputView<S> {
        match event {
            WindowEvent::Resized(size) => InputView { window_size: size, ..self },
            WindowEvent::CloseRequested => InputView { should_close: true, ..self },
            WindowEvent::DroppedFile(path) => InputView {
                dropped_files: self.dropped_files.push(path),
                ..self
            },
            WindowEvent::HoveredFile(path) => InputView { hovering_file: Some(path), ..self },
            WindowEvent::HoveredFileCancelled => InputView { hovering_file: None, ..self },
            WindowEvent::Focused(focused) => InputView { window_focused: focused, ..self },
            WindowEvent::KeyPressed(key) => self.key_down(key, now),
            WindowEvent::KeyReleased(key) => InputView {
                released_keys: with_key(self.released_keys, KeyState { key, time: now, used: false }),
                pressing_keys: without_key(self.pressing_keys, key),
                ..self
            },
            WindowEvent::StringInput(text) => InputView {
                input_string: self.input_string + text@,
                ..self
            },
            WindowEvent::ImeEnabled => InputView {
                is_ime_enabled: true,
                input_string: Seq::empty(),
                ..self
            },
            WindowEvent::ImeDisabled => InputView {
                is_ime_enabled: false,
                ime_text: Seq::empty(),
                ime_selection: None,
                ime_taken: false,
                ..self
            },
            WindowEvent::Ime(ImeEvent::Commit(text)) => InputView {
                input_string: self.input_string + text@,
                ime_text: Seq::empty(),
                ime_selection: None,
                ime_taken: false,
                ..self
            },
            WindowEvent::Ime(ImeEvent::Edit(text, selection)) => InputView {
                input_string: Seq::empty(),
                ime_text: text@,
                ime_selection: selection,
                ime_taken: false,
                ..self
            },
            WindowEvent::MouseMoved(pos) => InputView {
                pressing_touches: buttons_moved(
                    with_touch(self.pressing_touches, mouse_at(self.pressing_touches, pos)),
                    pos,
                    5,
                ),
                ..self
            },
            WindowEvent::MouseWheel(delta) => InputView { wheel: self.wheel.spec_plus(delta), ..self },
            WindowEvent::MouseEntered => self,
            WindowEvent::MouseLeft => InputView {
                pressing_touches: without_touch(self.pressing_touches, MOUSE_UNPRESSED_ID),
                ..self
            },
            WindowEvent::MousePressed(button) => {
                let at = match touch_of(self.pressing_touches, MOUSE_UNPRESSED_ID) {
                    Some(mouse) => mouse.pos,
                    None => Vec2::spec_inf(),
                };
                InputView {
                    pressing_touches: with_touch(
                        self.pressing_touches,
                        new_touch(spec_button_id(button), at, now),
                    ),
                    ..self
                }
            },
            WindowEvent::MouseReleased(button) => self.let_go(spec_button_id(button), now),
            WindowEvent::Touch(touch) => self.touched(touch, now),
            WindowEvent::ScaleFactor(factor) => InputView { scale_factor: factor, ..self },
            WindowEvent::ThemeChanged(theme) => InputView { theme, ..self },
            WindowEvent::RedrawRequested => InputView { redraw_requested: true, ..self },
            WindowEvent::Unknown => self,
        }
    }

    /// The state after the window has reported `event` at the time `now`.
    pub open spec fn after_event(self, event: WindowEvent, now: i128) -> InputView<S> {
        InputView {
            raw_events: self.raw_events.push(event),
            ..self.taken(event, now)
        }
    }

    /// The state after the window has reported `events`, one after the
    /// other, at the time `now`.
    pub open spec fn after_events(self, events: Seq<WindowEvent>, now: i128) -> InputView<S>
        decreases events.len(),
    {
        if events.len() == 0 {
            self
        } else {
            self.after_events(events.drop_last(), now).after_event(events.last(), now)
        }
    }
}

/// Whether the event tells of the window itself, or of nothing.
pub open spec fn is_window_event(event: WindowEvent) -> bool {
    event is Resized || event is CloseRequested || event is DroppedFile || event is HoveredFile
        || event is HoveredFileCancelled || event is Focused || event is ScaleFactor
        || event is ThemeChanged || event is RedrawRequested || event is Unknown
        || event is MouseEntered
}

/// Whether the event tells of text.
pub open spec fn is_text_event(event: WindowEvent) -> bool {
    event is StringInput || event is ImeEnabled || event is ImeDisabled || event is Ime
}

/// Whether the event tells of the mouse or of a finger.
pub open spec fn is_pointer_event(event: WindowEvent) -> bool {
    event is MouseMoved || event is MouseWheel || event is MouseLeft || event is MousePressed
        || event is MouseReleased || event is Touch
}

fn is_window(event: &WindowEvent) -> (r: bool)
    ensures
        r == is_window_event(*event),
{
    match event {
        WindowEvent::Resized(_) => true,
        WindowEvent::CloseRequested => true,
        WindowEvent::DroppedFile(_) => true,
        WindowEvent::HoveredFile(_) => true,
        WindowEvent::HoveredFileCancelled => true,
        WindowEvent::Focused(_) => true,
        WindowEvent::ScaleFactor(_) => true,
        WindowEvent::ThemeChanged(_) => true,
        WindowEvent::RedrawRequested => true,
        WindowEvent::Unknown => true,
        WindowEvent::MouseEntered => true,
        _ => false,
    }
}

fn is_text(event: &WindowEvent) -> (r: bool)
    ensures
        r == is_text_event(*event),
{
    match event {
        WindowEvent::StringInput(_) => true,
        WindowEvent::ImeEnabled => true,
        WindowEvent::ImeDisabled => true,
        WindowEvent::Ime(_) => true,
        _ => false,
    }
}

fn is_pointer(event: &WindowEvent) -> (r: bool)
    ensures
        r == is_pointer_event(*event),
{
    match event {
        WindowEvent::MouseMoved(_) => true,
        WindowEvent::MouseWheel(_) => true,
        WindowEvent::MouseLeft => true,
        WindowEvent::MousePressed(_) => true,
        WindowEvent::MouseReleased(_) => true,
        WindowEvent::Touch(_) => true,
        _ => false,
    }
}

/// Moves the touch `id` of the list, if it is there, to `pos`.
pub fn move_touch(list: &mut Vec<TouchState>, id: u64, pos: Vec2)
    requires
        distinct_touches(old(list)@),
        touches_timed(old(list)@),
    ensures
        final(list)@ == moved_to(old(list)@, id, pos),
        distinct_touches(final(list)@),
        touches_timed(final(list)@),
{
    match find_touch(list, id) {
        Some(k) => {
            let touch: TouchState = list[k];
            list[k] = TouchState {
                id: touch.id,
                time: touch.time,
                pos,
                last_pos: touch.last_pos,
                using_by: touch.using_by,
                last_used: touch.last_used,
            };
        },
        None => {},
    }
}

/// Moves the mouse of the list to `pos`: the mouse without a button, which
/// comes into the list if it was not there, and every button that is down.
pub fn move_mouse(list: &mut Vec<TouchState>, pos: Vec2)
    requires
        distinct_touches(old(list)@),
        touches_timed(old(list)@),
    ensures
        final(list)@ == buttons_moved(with_touch(old(list)@, mouse_at(old(list)@, pos)), pos, 5),
        distinct_touches(final(list)@),
        touches_timed(final(list)@),
{
    let mouse: TouchState = match find_touch(list, MOUSE_UNPRESSED_ID) {
        Some(k) => {
            let touch: TouchState = list[k];
            TouchState {
                id: touch.id,
                time: touch.time,
                pos,
                last_pos: touch.last_pos,
                using_by: touch.using_by,
                last_used: touch.last_used,
            }
        },
        None => TouchState {
            id: MOUSE_UNPRESSED_ID,
            time: 0,
            pos,
            last_pos: pos,
            using_by: None,
            last_used: false,
        },
    };
    put_touch(list, mouse);
    let ghost start = list@;
    let mut i: u64 = 0;
    while i < 5
        invariant
            i <= 5,
            distinct_touches(list@),
            touches_timed(list@),
            list@ == buttons_moved(start, pos, i as nat),
        decreases 5 - i,
    {
        move_touch(list, MOUSE_ID + i, pos);
        i = i + 1;
    }
}

impl<S: Signal> InputState<S> {
    /// Lets the touch `id` go at `now`, if it is down.
    fn release_touch(&mut self, id: u64, now: i128)
        requires
            old(self).wf(),
            is_span(now),
        ensures
            final(self)@ == old(self)@.let_go(id, now),
            final(self).program_start_time == old(self).program_start_time,
            final(self).wf(),
    {
        let ghost pressing = self.pressing_touches@;
        let ghost released = self.released_touches@;
        match take_touch(&mut self.pressing_touches, id) {
            Some(touch) => {
                let gone: TouchState = TouchState {
                    id: touch.id,
                    time: now,
                    pos: touch.pos,
                    last_pos: touch.last_pos,
                    using_by: touch.using_by,
                    last_used: touch.last_used,
                };
                put_touch(&mut self.released_touches, gone);
                proof {
                    assert(touches_timed(self.pressing_touches@));
                    assert(touches_timed(self.released_touches@));
                }
            },
            None => {},
        }
    }

    /// Takes the press of `key` at `now`.
    fn press_key(&mut self, key: Key, now: i128)
        requires
            old(self).wf(),
            is_span(now),
        ensures
            final(self)@ == old(self)@.key_down(key, now),
            final(self).program_start_time == old(self).program_start_time,
            final(self).wf(),
    {
        let mods = self.modifiers();
        if !mods.ctrl && !mods.alt && !self.is_ime_enabled {
            match key.get_char(mods.shift) {
                Some(c) => {
                    push_char(&mut self.cached_input, c);
                },
                None => {},
            }
        }
        put_key(&mut self.pressing_keys, KeyState { key, time: now, used: false });
        take_key(&mut self.released_keys, key);
        proof {
            assert(keys_timed(self.pressing_keys@));
            assert(keys_timed(self.released_keys@));
        }
    }

    /// Takes what a finger has done at `now`.
    fn take_finger(&mut self, touch: Touch, now: i128)
        requires
            old(self).wf(),
            is_span(now),
        ensures
            final(self)@ == old(self)@.touched(touch, now),
            final(self).program_start_time == old(self).program_start_time,
            final(self).wf(),
    {
        if touch.phase == TouchPhase::Cancelled || touch.phase == TouchPhase::Ended {
            self.release_touch(touch.id, now);
        } else {
            take_touch(&mut self.released_touches, touch.id);
            if find_touch(&self.pressing_touches, touch.id).is_some() {
                move_touch(&mut self.pressing_touches, touch.id, touch.pos);
            } else {
                self.pressing_touches.push(
                    TouchState {
                        id: touch.id,
                        time: now,
                        pos: touch.pos,
                        last_pos: touch.pos,
                        using_by: None,
                        last_used: false,
                    },
                );
            }
            proof {
                assert(touches_timed(self.released_touches@));
                assert(touches_timed(self.pressing_touches@));
            }
        }
    }

    /// Takes an event that tells of the window itself.
    fn take_window_event(&mut self, event: &WindowEvent, now: i128)
        requires
            old(self).wf(),
            is_window_event(*event),
        ensures
            final(self)@ == old(self)@.taken(*event, now),
            final(self).program_start_time == old(self).program_start_time,
            final(self).wf(),
    {
        match event {
            WindowEvent::Resized(size) => {
                self.window_size = *size;
            },
            WindowEvent::CloseRequested => {
                self.should_close = true;
            },
            WindowEvent::DroppedFile(path) => {
                self.dropped_files.push(path.clone());
            },
            WindowEvent::HoveredFile(path) => {
                self.hovering_file = Some(path.clone());
            },
            WindowEvent::HoveredFileCancelled => {
                self.hovering_file = None;
            },
            WindowEvent::Focused(focused) => {
                self.window_focused = *focused;
            },
            WindowEvent::ScaleFactor(factor) => {
                self.scale_factor = *factor;
            },
            WindowEvent::ThemeChanged(theme) => {
                self.theme = *theme;
            },
            WindowEvent::RedrawRequested => {
                self.redraw_requested = true;
            },
            _ => {},
        }
    }

    /// Takes an event that tells of text.
    fn take_text_event(&mut self, event: &WindowEvent, now: i128)
        requires
            old(self).wf(),
            is_text_event(*event),
        ensures
            final(self)@ == old(self)@.taken(*event, now),
            final(self).program_start_time == old(self).program_start_time,
            final(self).wf(),
    {
        match event {
            WindowEvent::StringInput(text) => {
                self.input_string.append(text.as_str());
            },
            WindowEvent::ImeEnabled => {
                self.is_ime_enabled = true;
                self.input_string = String::new();
            },
            WindowEvent::ImeDisabled => {
                self.is_ime_enabled = false;
                self.ime_text = String::new();
                self.ime_selection = None;
                self.ime_taken = false;
            },
            WindowEvent::Ime(ImeEvent::Commit(text)) => {
                self.input_string.append(text.as_str());
                self.ime_text = String::new();
                self.ime_selection = None;
                self.ime_taken = false;
            },
            WindowEvent::Ime(ImeEvent::Edit(text, selection)) => {
                self.input_string = String::new();
                self.ime_text = text.clone();
                self.ime_selection = *selection;
                self.ime_taken = false;
            },
            _ => {},
        }
    }

    /// Takes an event that tells of a key.
    fn take_key_event(&mut self, event: &WindowEvent, now: i128)
        requires
            old(self).wf(),
            is_span(now),
            *event is KeyPressed || *event is KeyReleased,
        ensures
            final(self)@ == old(self)@.taken(*event, now),
            final(self).program_start_time == old(self).program_start_time,
            final(self).wf(),
    {
        match event {
            WindowEvent::KeyPressed(key) => {
                self.press_key(*key, now);
            },
            WindowEvent::KeyReleased(key) => {
                put_key(&mut self.released_keys, KeyState { key: *key, time: now, used: false });
                take_key(&mut self.pressing_keys, *key);
                proof {
                    assert(keys_timed(self.pressing_keys@));
                    assert(keys_timed(self.released_keys@));
                }
            },
            _ => {},
        }
    }

    /// Takes an event that tells of the mouse or of a finger.
    fn take_pointer_event(&mut self, event: &WindowEvent, now: i128)
        requires
            old(self).wf(),
            is_span(now),
            is_pointer_event(*event),
        ensures
            final(self)@ == old(self)@.taken(*event, now),
            final(self).program_start_time == old(self).program_start_time,
            final(self).wf(),
    {
        match event {
            WindowEvent::MouseMoved(pos) => {
                move_mouse(&mut self.pressing_touches, *pos);
            },
            WindowEvent::MouseWheel(delta) => {
                self.wheel = self.wheel.plus(*delta);
            },
            WindowEvent::MouseLeft => {
                take_touch(&mut self.pressing_touches, MOUSE_UNPRESSED_ID);
                proof {
                    assert(touches_timed(self.pressing_touches@));
                }
            },
            WindowEvent::MousePressed(button) => {
                let id: u64 = button_id(*button);
                let at: Vec2 = match find_touch(&self.pressing_touches, MOUSE_UNPRESSED_ID) {
                    Some(k) => self.pressing_touches[k].pos,
                    None => Vec2::inf(),
                };
                put_touch(
                    &mut self.pressing_touches,
                    TouchState {
                        id,
                        time: now,
                        pos: at,
                        last_pos: at,
                        using_by: None,
                        last_used: false,
                    },
                );
                proof {
                    assert(touches_timed(self.pressing_touches@));
                }
            },
            WindowEvent::MouseReleased(button) => {
                self.release_touch(button_id(*button), now);
            },
            WindowEvent::Touch(touch) => {
                self.take_finger(*touch, now);
            },
            _ => {},
        }
    }

    /// Takes one event of the window at the time `now`.
    pub fn handle_event(&mut self, event: WindowEvent, now: i128)
        requires
            old(self).wf(),
            is_span(now),
        ensures
            final(self)@ == old(self)@.after_event(event, now),
            final(self).program_start_time == old(self).program_start_time,
            final(self).wf(),
    {
        if is_window(&event) {
            self.take_window_event(&event, now);
        } else if is_text(&event) {
            self.take_text_event(&event, now);
        } else if is_pointer(&event) {
            self.take_pointer_event(&event, now);
        } else {
            self.take_key_event(&event, now);
        }
        self.raw_events.push(event);
    }

    /// Takes the events of the window, one after the other, at the time
    /// `now`. Without events nothing changes.
    pub fn update_at(&mut self, events: Vec<WindowEvent>, now: i128)
        requires
            old(self).wf(),
            is_span(now),
        ensures
            final(self)@ == if events@.len() == 0 {
                old(self)@
            } else {
                InputView { has_new_events: true, ..old(self)@.after_events(events@, now) }
            },
            final(self).program_start_time == old(self).program_start_time,
            final(self).wf(),
    {
        if events.len() == 0 {
            return;
        }
        let ghost all = events@;
        let mut rest: Vec<WindowEvent> = events;
        let mut stack: Vec<WindowEvent> = Vec::new();
        while rest.len() > 0
            invariant
                stack@.len() + rest@.len() == all.len(),
                forall|j: int| 0 <= j < rest@.len() ==> rest@[j] == all[j],
                forall|j: int| 0 <= j < stack@.len() ==> stack@[j] == all[all.len() - 1 - j],
            decreases rest@.len(),
        {
            let event: WindowEvent = rest.pop().unwrap();
            stack.push(event);
        }
        proof {
            assert(all.take(0) =~= Seq::<WindowEvent>::empty());
        }
        while stack.len() > 0
            invariant
                self.wf(),
                is_span(now),
                stack@.len() <= all.len(),
                forall|j: int| 0 <= j < stack@.len() ==> stack@[j] == all[all.len() - 1 - j],
                self@ == old(self)@.after_events(all.take(all.len() - stack@.len()), now),
                self.program_start_time == old(self).program_start_time,
            decreases stack@.len(),
        {
            let ghost done = all.len() - stack@.len();
            let event: WindowEvent = stack.pop().unwrap();
            proof {
                assert(event == all[done]);
                assert(all.take(done + 1).drop_last() =~= all.take(done));
                assert(all.take(done + 1).last() == all[done]);
            }
            self.handle_event(event, now);
        }
        proof {
            assert(all.take(all.len() as int) =~= all);
        }
        self.has_new_events = true;
    }

    /// Takes the events of the window, one after the other, at the time
    /// that the clock shows. Without events nothing changes.
    pub fn update(&mut self, events: Vec<WindowEvent>)
        requires
            old(self).wf(),
        ensures
            exists|now: i128|
                is_span(now) && final(self)@ == if events@.len() == 0 {
                    old(self)@
                } else {
                    InputView { has_new_events: true, ..#[trigger] old(self)@.after_events(events@, now) }
                },
            final(self).program_start_time == old(self).program_start_time,
            final(self).wf(),
    {
        let now: i128 = self.program_running_time();
        self.update_at(events, now);
    }
}

} // verus!
