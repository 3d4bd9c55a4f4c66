//! The state of the input as widgets read it: what is held down, what was
//! typed, and what the toolkit asks of its host.
//!
//! Time is counted in nanoseconds since the program started. Every
//! function that reads the clock has a twin whose name ends in `_at`,
//! which takes the time as an argument and says exactly what it does.

use vstd::prelude::*;
use vstd::string::StringExecFns;
use time::OffsetDateTime;
use crate::layout::LayoutId;
use crate::math::vec2::Vec2;
use crate::widgets::{Signal, SignalWrapper};
use crate::window::clock::{check_span, clock_now, is_span, nanos_between};
use crate::window::event::{CursorIcon, OutputEvent, Theme, WindowEvent};
use crate::window::held::{
    distinct_keys,
    distinct_touches,
    keys_distinct,
    touches_distinct,
    KeyState,
    TouchState,
};

verus! {

/// The id of the touch that stands for the left button of the mouse. The
/// right button has the next id, then the middle button, the back button
/// and the forward button; any other button has this id plus its number.
pub const MOUSE_ID: u64 = 1000;

/// How long a press stays fresh, in nanoseconds: a touch or a key that
/// went down less than this ago counts as pressed just now.
pub const DEFAULT_EPSILON_TIME: i128 = 100_000_000;

/// The id of the touch that stands for the mouse while no button is down.
pub const MOUSE_UNPRESSED_ID: u64 = 2000;

/// The text that the user has typed since the last frame.
#[derive(Debug)]
pub enum ImeString {
    /// Text that an input method is composing, and the part of it that is marked.
    Ime { input: String, selected: (usize, usize) },
    /// Text that was typed without an input method.
    ImeOff(String),
    /// No text: nothing was typed, or another widget has taken it.
    Nothing,
}

impl ImeString {
    /// Whether there is no text.
    pub open spec fn spec_is_empty(&self) -> bool {
        match self {
            ImeString::Ime { input, .. } => input@.len() == 0,
            ImeString::ImeOff(input) => input@.len() == 0,
            ImeString::Nothing => true,
        }
    }

    /// Whether there is no text.
    #[verifier::when_used_as_spec(spec_is_empty)]
    pub fn is_empty(&self) -> (r: bool)
        ensures
            r == self.spec_is_empty(),
    {
        match self {
            ImeString::Ime { input, .. } => input.as_str().is_empty(),
            ImeString::ImeOff(input) => input.as_str().is_empty(),
            ImeString::Nothing => true,
        }
    }
}

/// The modifier keys; `true` for a key that is held down.
#[derive(Clone, Copy, Debug, PartialEq, Eq, Structural)]
pub struct Modifiers {
    /// The shift key.
    pub shift: bool,
    /// The control key.
    pub ctrl: bool,
    /// The alt key.
    pub alt: bool,
}

impl Default for Modifiers {
    fn default() -> (m: Modifiers)
        ensures
            m == (Modifiers { shift: false, ctrl: false, alt: false }),
    {
        Modifiers { shift: false, ctrl: false, alt: false }
    }
}

/// The input of a window between two frames.
pub struct InputState<S: Signal> {
    /// The size of the window.
    pub window_size: Vec2,
    /// The scale factor of the window, in 256ths.
    pub scale_factor: i32,
    /// The files that were dropped on the window.
    pub dropped_files: Vec<String>,
    /// The file that is held over the window.
    pub hovering_file: Option<String>,
    /// The colour scheme of the window.
    pub theme: Theme,
    /// The text that was typed and that no widget has taken yet.
    pub input_string: String,
    /// The text that an input method is composing.
    pub ime_text: String,
    /// The part of the composed text that is marked; `None` while nothing
    /// is composed.
    pub ime_selection: Option<(usize, usize)>,
    /// Whether a widget has taken the composed text in this frame.
    pub ime_taken: bool,
    /// Whether the window has to be drawn again.
    pub redraw_requested: bool,
    /// The signals that the widgets have sent in this frame.
    pub signals_to_send: Vec<SignalWrapper<S>>,
    /// The widget that is handling its events.
    pub handling_id: LayoutId,
    /// Whether the window is to be closed.
    pub should_close: bool,
    /// Whether the window has the focus.
    pub window_focused: bool,
    /// When the program started.
    pub program_start_time: OffsetDateTime,
    /// What the host is asked to do.
    pub output_events: Vec<OutputEvent>,
    /// Whether every widget is to be made dirty.
    pub all_dirty: bool,
    /// How far the wheel was turned in this frame.
    pub wheel: Vec2,
    /// The touches that are down.
    pub pressing_touches: Vec<TouchState>,
    /// The touches that were let go a moment ago.
    pub released_touches: Vec<TouchState>,
    /// The keys that are down.
    pub pressing_keys: Vec<KeyState>,
    /// The keys that were let go a moment ago.
    pub released_keys: Vec<KeyState>,
    /// The events of this frame as they came.
    pub raw_events: Vec<WindowEvent>,
    /// Whether events have come in this frame.
    pub has_new_events: bool,
    /// Whether an input method has taken over.
    pub is_ime_enabled: bool,
    /// The text that was pasted and that no widget has taken yet.
    pub pasted_text: String,
    /// The text of the keys that went down in this frame: the typed text
    /// of the next frame.
    pub cached_input: String,
}

/// What an [`InputState`] holds, but for the time at which the program started.
pub struct InputView<S: Signal> {
    pub window_size: Vec2,
    pub scale_factor: i32,
    pub dropped_files: Seq<String>,
    pub hovering_file: Option<String>,
    pub theme: Theme,
    pub input_string: Seq<char>,
    pub ime_text: Seq<char>,
    pub ime_selection: Option<(usize, usize)>,
    pub ime_taken: bool,
    pub redraw_requested: bool,
    pub signals_to_send: Seq<SignalWrapper<S>>,
    pub handling_id: LayoutId,
    pub should_close: bool,
    pub window_focused: bool,
    pub output_events: Seq<OutputEvent>,
    pub all_dirty: bool,
    pub wheel: Vec2,
    pub pressing_touches: Seq<TouchState>,
    pub released_touches: Seq<TouchState>,
    pub pressing_keys: Seq<KeyState>,
    pub released_keys: Seq<KeyState>,
    pub raw_events: Seq<WindowEvent>,
    pub has_new_events: bool,
    pub is_ime_enabled: bool,
    pub pasted_text: Seq<char>,
    pub cached_input: Seq<char>,
}

impl<S: Signal> View for InputState<S> {
    type V = InputView<S>;

    open spec fn view(&self) -> InputView<S> {
        InputView {
            window_size: self.window_size,
            scale_factor: self.scale_factor,
            dropped_files: self.dropped_files@,
            hovering_file: self.hovering_file,
            theme: self.theme,
            input_string: self.input_string@,
            ime_text: self.ime_text@,
            ime_selection: self.ime_selection,
            ime_taken: self.ime_taken,
            redraw_requested: self.redraw_requested,
            signals_to_send: self.signals_to_send@,
            handling_id: self.handling_id,
            should_close: self.should_close,
            window_focused: self.window_focused,
            output_events: self.output_events@,
            all_dirty: self.all_dirty,
            wheel: self.wheel,
            pressing_touches: self.pressing_touches@,
            released_touches: self.released_touches@,
            pressing_keys: self.pressing_keys@,
            released_keys: self.released_keys@,
            raw_events: self.raw_events@,
            has_new_events: self.has_new_events,
            is_ime_enabled: self.is_ime_enabled,
            pasted_text: self.pasted_text@,
            cached_input: self.cached_input@,
        }
    }
}

/// Whether every touch of the list went down, or was let go, at a time
/// that can be measured.
pub open spec fn touches_timed(s: Seq<TouchState>) -> bool {
    forall|i: int| 0 <= i < s.len() ==> is_span((#[trigger] s[i]).time)
}

/// Whether every key of the list went down, or was let go, at a time that
/// can be measured.
pub open spec fn keys_timed(s: Seq<KeyState>) -> bool {
    forall|i: int| 0 <= i < s.len() ==> is_span((#[trigger] s[i]).time)
}

impl<S: Signal> InputView<S> {
    /// Whether the lists of what is held down are sound: no touch and no
    /// key occurs twice in a list, and every time can be measured.
    pub open spec fn wf(self) -> bool {
        &&& distinct_touches(self.pressing_touches)
        &&& distinct_touches(self.released_touches)
        &&& distinct_keys(self.pressing_keys)
        &&& distinct_keys(self.released_keys)
        &&& touches_timed(self.pressing_touches)
        &&& touches_timed(self.released_touches)
        &&& keys_timed(self.pressing_keys)
        &&& keys_timed(self.released_keys)
    }

    /// The state at the start of a program: nothing is held down, nothing
    /// was typed, and the window is focused, dark, of unknown size and in
    /// need of being drawn.
    pub open spec fn start() -> InputView<S> {
        InputView {
            window_size: Vec2::spec_inf(),
            scale_factor: 256,
            dropped_files: Seq::empty(),
            hovering_file: None,
            theme: Theme::Dark,
            input_string: Seq::empty(),
            ime_text: Seq::empty(),
            ime_selection: None,
            ime_taken: false,
            redraw_requested: true,
            signals_to_send: Seq::empty(),
            handling_id: LayoutId(0),
            should_close: false,
            window_focused: true,
            output_events: Seq::empty(),
            all_dirty: false,
            wheel: Vec2::spec_zero(),
            pressing_touches: Seq::empty(),
            released_touches: Seq::empty(),
            pressing_keys: Seq::empty(),
            released_keys: Seq::empty(),
            raw_events: Seq::empty(),
            has_new_events: false,
            is_ime_enabled: false,
            pasted_text: Seq::empty(),
            cached_input: Seq::empty(),
        }
    }
}

fn touches_are_timed(list: &Vec<TouchState>) -> (r: bool)
    ensures
        r == touches_timed(list@),
{
    let mut k: usize = 0;
    while k < list.len()
        invariant
            k <= list@.len(),
            forall|i: int| 0 <= i < k ==> is_span((#[trigger] list@[i]).time),
        decreases list@.len() - k,
    {
        if !check_span(list[k].time) {
            return false;
        }
        k = k + 1;
    }
    true
}

fn keys_are_timed(list: &Vec<KeyState>) -> (r: bool)
    ensures
        r == keys_timed(list@),
{
    let mut k: usize = 0;
    while k < list.len()
        invariant
            k <= list@.len(),
            forall|i: int| 0 <= i < k ==> is_span((#[trigger] list@[i]).time),
        decreases list@.len() - k,
    {
        if !check_span(list[k].time) {
            return false;
        }
        k = k + 1;
    }
    true
}

impl<S: Signal> InputState<S> {
    /// Whether the lists of what is held down are sound.
    pub open spec fn wf(&self) -> bool {
        self@.wf()
    }

    /// Whether the lists of what is held down are sound. The fields of the
    /// state can be written from anywhere; who has written them, or has
    /// handed the state to code that may have, can ask here before calling
    /// what asks for a sound state.
    pub fn is_sound(&self) -> (r: bool)
        ensures
            r == self.wf(),
    {
        touches_distinct(&self.pressing_touches) && touches_distinct(&self.released_touches)
            && keys_distinct(&self.pressing_keys) && keys_distinct(&self.released_keys)
            && touches_are_timed(&self.pressing_touches) && touches_are_timed(
            &self.released_touches,
        ) && keys_are_timed(&self.pressing_keys) && keys_are_timed(&self.released_keys)
    }

    /// The state of a program that starts now.
    pub fn new() -> (state: InputState<S>)
        ensures
            state@ == InputView::<S>::start(),
            state.wf(),
    {
        InputState::started_at(clock_now())
    }

    /// The state of a program that started at `start`.
    pub fn started_at(start: OffsetDateTime) -> (state: InputState<S>)
        ensures
            state@ == InputView::<S>::start(),
            state.program_start_time == start,
            state.wf(),
    {
        InputState {
            window_size: Vec2::inf(),
            scale_factor: 256,
            dropped_files: Vec::new(),
            hovering_file: None,
            theme: Theme::Dark,
            input_string: String::new(),
            ime_text: String::new(),
            ime_selection: None,
            ime_taken: false,
            redraw_requested: true,
            signals_to_send: Vec::new(),
            handling_id: LayoutId::root(),
            should_close: false,
            window_focused: true,
            program_start_time: start,
            output_events: Vec::new(),
            all_dirty: false,
            wheel: Vec2::zero(),
            pressing_touches: Vec::new(),
            released_touches: Vec::new(),
            pressing_keys: Vec::new(),
            released_keys: Vec::new(),
            raw_events: Vec::new(),
            has_new_events: false,
            is_ime_enabled: false,
            pasted_text: String::new(),
            cached_input: String::new(),
        }
    }

    /// How long the program has been running, in nanoseconds.
    pub fn program_running_time(&self) -> (nanos: i128)
        ensures
            is_span(nanos),
    {
        let now: OffsetDateTime = clock_now();
        nanos_between(&now, &self.program_start_time)
    }

    /// How long the program has been running, in nanoseconds.
    pub fn run_time(&self) -> (nanos: i128)
        ensures
            is_span(nanos),
    {
        self.program_running_time()
    }

    /// The events of this frame as they came.
    pub fn raw_events(&self) -> (events: &[WindowEvent])
        ensures
            events@ == self.raw_events@,
    {
        self.raw_events.as_slice()
    }

    /// The size of the window.
    pub fn window_size(&self) -> (size: Vec2)
        ensures
            size == self.window_size,
    {
        self.window_size
    }

    /// The scale factor of the window, in 256ths.
    pub fn scale_factor(&self) -> (factor: i32)
        ensures
            factor == self.scale_factor,
    {
        self.scale_factor
    }

    /// How far the wheel was turned in this frame.
    pub fn wheel_delta(&self) -> (delta: Vec2)
        ensures
            delta == self.wheel,
    {
        self.wheel
    }

    /// How far the wheel was turned in this frame; the wheel counts from
    /// zero again.
    pub fn wheel_delta_consume(&mut self) -> (delta: Vec2)
        ensures
            delta == old(self).wheel,
            final(self)@ == (InputView { wheel: Vec2::spec_zero(), ..old(self)@ }),
            final(self).program_start_time == old(self).program_start_time,
    {
        let out: Vec2 = self.wheel;
        self.wheel = Vec2::zero();
        out
    }

    /// Sends a signal to the program in the name of the widget that is
    /// handling its events; outside the handling of events, in the name of
    /// the root.
    pub fn send_signal(&mut self, signal: S)
        ensures
            final(self)@ == (InputView {
                signals_to_send: old(self)@.signals_to_send.push(
                    SignalWrapper { signal, from: old(self).handling_id },
                ),
                ..old(self)@
            }),
            final(self).program_start_time == old(self).program_start_time,
    {
        let from: LayoutId = self.handling_id;
        self.signals_to_send.push(SignalWrapper { signal, from });
    }

    /// Sends a signal to the program in the name of the widget `from`.
    pub fn send_signal_from(&mut self, from: LayoutId, signal: S)
        ensures
            final(self)@ == (InputView {
                signals_to_send: old(self)@.signals_to_send.push(SignalWrapper { signal, from }),
                ..old(self)@
            }),
            final(self).program_start_time == old(self).program_start_time,
    {
        self.signals_to_send.push(SignalWrapper { signal, from });
    }

    /// Asks the host for `event`.
    pub fn ask(&mut self, event: OutputEvent)
        ensures
            final(self)@ == (InputView {
                output_events: old(self)@.output_events.push(event),
                ..old(self)@
            }),
            final(self).program_start_time == old(self).program_start_time,
    {
        self.output_events.push(event);
    }

    /// Asks the host to give the window the title `title`.
    pub fn set_title(&mut self, title: String)
        ensures
            final(self)@ == (InputView {
                output_events: old(self)@.output_events.push(OutputEvent::SetWindowTitle(title)),
                ..old(self)@
            }),
            final(self).program_start_time == old(self).program_start_time,
    {
        self.ask(OutputEvent::SetWindowTitle(title));
    }

    /// Asks the host to show the cursor `icon`.
    pub fn set_cursor_icon(&mut self, icon: CursorIcon)
        ensures
            final(self)@ == (InputView {
                output_events: old(self)@.output_events.push(OutputEvent::SetCursorIcon(icon)),
                ..old(self)@
            }),
            final(self).program_start_time == old(self).program_start_time,
    {
        self.ask(OutputEvent::SetCursorIcon(icon));
    }

    /// Asks the host to move the cursor to `pos`.
    pub fn set_cursor_position(&mut self, pos: Vec2)
        ensures
            final(self)@ == (InputView {
                output_events: old(self)@.output_events.push(OutputEvent::SetCursorPosition(pos)),
                ..old(self)@
            }),
            final(self).program_start_time == old(self).program_start_time,
    {
        self.ask(OutputEvent::SetCursorPosition(pos));
    }

    /// Asks the host to show or hide the cursor.
    pub fn set_cursor_visible(&mut self, visible: bool)
        ensures
            final(self)@ == (InputView {
                output_events: old(self)@.output_events.push(OutputEvent::SetCursorVisible(visible)),
                ..old(self)@
            }),
            final(self).program_start_time == old(self).program_start_time,
    {
        self.ask(OutputEvent::SetCursorVisible(visible));
    }

    /// Asks the host to give the window the size `size`.
    pub fn set_window_size(&mut self, size: Vec2)
        ensures
            final(self)@ == (InputView {
                output_events: old(self)@.output_events.push(OutputEvent::Resize(size)),
                ..old(self)@
            }),
            final(self).program_start_time == old(self).program_start_time,
    {
        self.ask(OutputEvent::Resize(size));
    }

    /// Asks the host to move the window to `pos`.
    pub fn set_window_position(&mut self, pos: Vec2)
        ensures
            final(self)@ == (InputView {
                output_events: old(self)@.output_events.push(OutputEvent::Move(pos)),
                ..old(self)@
            }),
            final(self).program_start_time == old(self).program_start_time,
    {
        self.ask(OutputEvent::Move(pos));
    }

    /// Asks the host to put `text` on the clipboard.
    pub fn copy_text(&mut self, text: String)
        ensures
            final(self)@ == (InputView {
                output_events: old(self)@.output_events.push(OutputEvent::CopyToClipboard(text)),
                ..old(self)@
            }),
            final(self).program_start_time == old(self).program_start_time,
    {
        self.ask(OutputEvent::CopyToClipboard(text));
    }

    /// Asks the host to hand over what is on the clipboard.
    pub fn request_paste_text(&mut self)
        ensures
            final(self)@ == (InputView {
                output_events: old(self)@.output_events.push(OutputEvent::RequestClipboard),
                ..old(self)@
            }),
            final(self).program_start_time == old(self).program_start_time,
    {
        self.ask(OutputEvent::RequestClipboard);
    }

    /// Takes `text` as pasted: it is appended to the pasted text that no
    /// widget has taken yet.
    pub fn paste_text(&mut self, text: &str)
        ensures
            final(self)@ == (InputView {
                pasted_text: old(self)@.pasted_text + text@,
                ..old(self)@
            }),
            final(self).program_start_time == old(self).program_start_time,
    {
        self.pasted_text.append(text);
    }

    /// Asks for every widget to be made dirty and the window to be drawn again.
    pub fn mark_all_dirty(&mut self)
        ensures
            final(self)@ == (InputView { redraw_requested: true, all_dirty: true, ..old(self)@ }),
            final(self).program_start_time == old(self).program_start_time,
    {
        self.redraw_requested = true;
        self.all_dirty = true;
    }
}

impl<S: Signal> Default for InputState<S> {
    fn default() -> (state: InputState<S>)
        ensures
            state@ == InputView::<S>::start(),
            state.wf(),
    {
        InputState::new()
    }
}

} // verus!
