//! Which signals a widget sends for what the user does in its area: for a
//! click, a press, a release, the pointer over it, and a drag.

use vstd::prelude::*;
use crate::layout::LayoutId;
use crate::math::rect::Rect;
use crate::math::vec2::Vec2;
use crate::widgets::{Signal, SignalWrapper};
use crate::window::clock::is_span;
use crate::window::held::{has_touch, TouchState};
use crate::window::input_query::{deltas_of, pressed_on, released_on};
use crate::window::input_state::{InputState, InputView};

verus! {

/// How long after a click a second click makes a double click, in nanoseconds.
pub const DOUBLE_CLICK_THRESHOLD: i128 = 250_000_000;

/// What makes the signal that a widget sends. `T` is the part of the
/// widget that the maker may change, usually its style.
pub trait SignalSource<S: Signal, T> {
    /// The signal to send.
    fn signal(&self, style: &mut T) -> S;
}

/// What makes the signal that a widget sends when it is dragged.
pub trait DragSource<S: Signal, T> {
    /// The signal to send for a drag by `delta`.
    fn signal(&self, style: &mut T, delta: Vec2) -> S;
}

/// The signals of a widget, and what it has to remember to tell a double
/// click from a click and a drag from a press.
#[verifier::reject_recursive_types(S)]
#[verifier::reject_recursive_types(T)]
pub struct SignalGenerator<S: Signal, T> {
    /// Makes the signal of a click.
    pub on_click: Option<Box<dyn SignalSource<S, T>>>,
    /// Makes the signal of a press.
    pub on_pressed: Option<Box<dyn SignalSource<S, T>>>,
    /// Makes the signal of a release.
    pub on_released: Option<Box<dyn SignalSource<S, T>>>,
    /// Makes the signal that is sent while a pointer is over the widget.
    pub on_hover: Option<Box<dyn SignalSource<S, T>>>,
    /// Makes the signal that is sent when the pointer leaves the widget.
    pub on_unhover: Option<Box<dyn SignalSource<S, T>>>,
    /// Makes the signal of a drag.
    pub on_drag: Option<Box<dyn DragSource<S, T>>>,
    /// Makes the signal of a double click. It takes `on_click` to be set.
    pub on_double_click: Option<Box<dyn SignalSource<S, T>>>,
    /// When the widget was clicked last.
    pub last_click_time: Option<i128>,
    /// The touch that drags the widget.
    pub dragging_by: Option<u64>,
    /// Whether a pointer was over the widget when it was asked last.
    pub is_hovering: bool,
}

/// What a widget learns when its signals are generated.
#[derive(Clone, Copy, Debug, PartialEq, Eq, Structural)]
pub struct SignalGeneratorResult {
    /// Whether the widget is clicked.
    pub is_clicked: bool,
    /// How far the widget is dragged or scrolled.
    pub drag_delta: Option<Vec2>,
}

/// Which signals a generator can make.
pub struct Wired {
    pub click: bool,
    pub pressed: bool,
    pub released: bool,
    pub hover: bool,
    pub unhover: bool,
    pub drag: bool,
    pub double_click: bool,
}

/// One for what holds, nothing for what does not.
pub open spec fn bit(b: bool) -> nat {
    if b {
        1
    } else {
        0
    }
}

/// Whether a touch of the list lies in `area`.
pub open spec fn touch_over(s: Seq<TouchState>, area: Rect) -> bool {
    exists|i: int| 0 <= i < s.len() && area.spec_contains((#[trigger] s[i]).pos)
}

/// The touch that drags a widget in `area`: the first touch that went
/// down in it just now; else the touch that dragged it, as long as it is down.
pub open spec fn dragged_by<S: Signal>(
    before: Option<u64>,
    v: InputView<S>,
    area: Rect,
    now: i128,
) -> Option<u64> {
    let pressed = pressed_on(v.pressing_touches, area, now);
    if pressed.len() > 0 {
        Some(pressed[0].id)
    } else {
        match before {
            Some(id) => if has_touch(v.released_touches, id) || !has_touch(v.pressing_touches, id) {
                None
            } else {
                Some(id)
            },
            None => None,
        }
    }
}

/// How far the touch `id` has moved in this frame; nothing for a touch
/// that is not down.
pub open spec fn moved_by<S: Signal>(v: InputView<S>, id: u64) -> Vec2 {
    if deltas_of(v.pressing_touches, v.wheel).contains_key(id) {
        deltas_of(v.pressing_touches, v.wheel)[id]
    } else {
        Vec2::spec_zero()
    }
}

/// The input without the signals that were sent.
pub open spec fn unsent<S: Signal>(v: InputView<S>) -> InputView<S> {
    InputView { signals_to_send: Seq::empty(), ..v }
}

/// What a widget notices first when its signals are generated.
pub struct Noticed<S: Signal> {
    /// Whether a pointer is over the widget.
    pub over: bool,
    /// Whether the widget is clicked.
    pub clicked: bool,
    /// The touch that drags the widget.
    pub dragging: Option<u64>,
    /// When the widget was clicked last.
    pub last_click_time: Option<i128>,
    /// The input afterwards, without the signals.
    pub input: InputView<S>,
    /// Whether the signal of the pointer that has left is sent.
    pub unhover: bool,
    /// Whether the signal of a click is sent.
    pub click: bool,
    /// Whether the signal of a double click is sent.
    pub double_click: bool,
}

/// What a widget with the id `from` notices in `area` at the time `now`,
/// of the input `v`.
///
/// - The widget is dragged by [`dragged_by`].
/// - The pointer has left where none is over the widget and one was.
/// - The widget asks whether it is clicked if it has a signal for a click
///   or `asks_anyway` holds. A click that comes less than
///   [`DOUBLE_CLICK_THRESHOLD`] after the last is a double click, if the
///   widget has a signal for one.
#[verifier::opaque]
pub open spec fn noticed<S: Signal>(
    wired: Wired,
    last_click_time: Option<i128>,
    dragging_by: Option<u64>,
    is_hovering: bool,
    v: InputView<S>,
    from: LayoutId,
    area: Rect,
    asks_anyway: bool,
    now: i128,
) -> Noticed<S> {
    let over = touch_over(v.pressing_touches, area);
    let asked = if wired.click || asks_anyway {
        v.asked_for_click(from, area, now)
    } else {
        (false, v)
    };
    let again = match last_click_time {
        Some(last) => now - last < DOUBLE_CLICK_THRESHOLD,
        None => false,
    };
    Noticed {
        over,
        clicked: asked.0,
        dragging: dragged_by(dragging_by, v, area, now),
        last_click_time: if asked.0 {
            Some(now)
        } else {
            last_click_time
        },
        input: asked.1,
        unhover: wired.unhover && !over && is_hovering,
        click: wired.click && asked.0 && !(again && wired.double_click),
        double_click: wired.click && asked.0 && again && wired.double_click,
    }
}

/// What a widget tells and learns after it has noticed what is going on.
pub struct Told<S: Signal> {
    /// How far the widget is dragged or scrolled.
    pub delta: Option<Vec2>,
    /// The input afterwards, without the signals.
    pub input: InputView<S>,
    /// Whether the signal of a press is sent.
    pub pressed: bool,
    /// Whether the signal of a release is sent.
    pub released: bool,
    /// Whether the signal of a pointer over the widget is sent.
    pub hover: bool,
    /// Whether the signal of a drag is sent.
    pub drag: bool,
}

/// What a widget in `area` tells and learns at the time `now`, of the
/// input `v` as it is after the widget has asked for a click.
///
/// - A press, a release and a pointer over the widget are seen as the
///   input shows them now.
/// - A widget that has a signal for a drag, or is to be draggable anyway,
///   learns how far its touch has moved and the wheel was turned, and the
///   wheel counts from zero again.
#[verifier::opaque]
pub open spec fn told<S: Signal>(
    wired: Wired,
    dragging: Option<u64>,
    over: bool,
    v: InputView<S>,
    area: Rect,
    force_draggable: bool,
    now: i128,
) -> Told<S> {
    let delta = if !(wired.drag || force_draggable) {
        None
    } else {
        match dragging {
            Some(id) => Some(moved_by(v, id).spec_plus(v.wheel)),
            None => if v.wheel != Vec2::spec_zero() {
                Some(v.wheel)
            } else {
                None
            },
        }
    };
    Told {
        delta,
        input: if delta is Some {
            InputView { wheel: Vec2::spec_zero(), ..v }
        } else {
            v
        },
        pressed: wired.pressed && pressed_on(v.pressing_touches, area, now).len() > 0,
        released: wired.released && released_on(v.released_touches, area).len() > 0,
        hover: wired.hover && v.pressing_touches.len() > 0 && over,
        drag: wired.drag && dragging is Some,
    }
}

/// To ask for a click is to ask the input without its signals, which
/// stay as they are.
pub proof fn lemma_ask_unsent<S: Signal>(v: InputView<S>, from: LayoutId, area: Rect, now: i128)
    ensures
        unsent(v).asked_for_click(from, area, now).0 == v.asked_for_click(from, area, now).0,
        unsent(v).asked_for_click(from, area, now).1 == unsent(v.asked_for_click(from, area, now).1),
        v.asked_for_click(from, area, now).1.signals_to_send == v.signals_to_send,
{
    reveal(InputView::asked_for_click);
}

/// Whether `after` is the list of signals `before` with `count` more
/// signals behind it, each in the name of `from`.
#[verifier::opaque]
pub open spec fn sent_more<S: Signal>(
    before: Seq<SignalWrapper<S>>,
    after: Seq<SignalWrapper<S>>,
    from: LayoutId,
    count: nat,
) -> bool {
    &&& after.len() == before.len() + count
    &&& before.is_prefix_of(after)
    &&& forall|i: int| before.len() <= i < after.len() ==> (#[trigger] after[i]).from == from
}

impl<S: Signal, T> SignalGenerator<S, T> {
    /// Whether `after`, `input_after` and `result` are what comes of
    /// generating the signals of the widget `from` in `area` at `now`.
    ///
    /// The widget notices what is going on, see [`noticed`], and then
    /// tells and learns, see [`told`]. For each signal that is sent, in
    /// this order: for the pointer that has left, for a click or a double
    /// click, for a press, for a release, for the pointer over the widget
    /// and for a drag, the input holds one signal more in the name of `from`.
    pub open spec fn generates(
        &self,
        after: SignalGenerator<S, T>,
        input: InputView<S>,
        input_after: InputView<S>,
        result: SignalGeneratorResult,
        from: LayoutId,
        area: Rect,
        force_clickable: bool,
        force_draggable: bool,
        now: i128,
    ) -> bool {
        let first = noticed(
            self.wired(),
            self.last_click_time,
            self.dragging_by,
            self.is_hovering,
            unsent(input),
            from,
            area,
            force_clickable || force_draggable,
            now,
        );
        let second = told(
            self.wired(),
            first.dragging,
            first.over,
            first.input,
            area,
            force_draggable,
            now,
        );
        &&& result == (SignalGeneratorResult { is_clicked: first.clicked, drag_delta: second.delta })
        &&& self.same_makers(after)
        &&& after.last_click_time == first.last_click_time
        &&& after.dragging_by == first.dragging
        &&& after.is_hovering == first.over
        &&& unsent(input_after) == second.input
        &&& sent_more(
            input.signals_to_send,
            input_after.signals_to_send,
            from,
            bit(first.unhover) + bit(first.click) + bit(first.double_click) + bit(second.pressed)
                + bit(second.released) + bit(second.hover) + bit(second.drag),
        )
    }

    /// Whether `other` makes its signals as this generator does.
    pub open spec fn same_makers(&self, other: SignalGenerator<S, T>) -> bool {
        &&& other.on_click == self.on_click
        &&& other.on_pressed == self.on_pressed
        &&& other.on_released == self.on_released
        &&& other.on_hover == self.on_hover
        &&& other.on_unhover == self.on_unhover
        &&& other.on_drag == self.on_drag
        &&& other.on_double_click == self.on_double_click
    }

    /// Which signals the generator can make.
    pub open spec fn wired(&self) -> Wired {
        Wired {
            click: self.on_click is Some,
            pressed: self.on_pressed is Some,
            released: self.on_released is Some,
            hover: self.on_hover is Some,
            unhover: self.on_unhover is Some,
            drag: self.on_drag is Some,
            double_click: self.on_double_click is Some,
        }
    }

    /// Whether the time of the last click can be measured.
    pub open spec fn wf(&self) -> bool {
        match self.last_click_time {
            Some(last) => is_span(last),
            None => true,
        }
    }

    /// A generator that makes no signal.
    pub fn new() -> (g: SignalGenerator<S, T>)
        ensures
            g.wf(),
            g.wired() == (Wired {
                click: false,
                pressed: false,
                released: false,
                hover: false,
                unhover: false,
                drag: false,
                double_click: false,
            }),
            g.last_click_time is None,
            g.dragging_by is None,
            !g.is_hovering,
    {
        SignalGenerator {
            on_click: None,
            on_pressed: None,
            on_released: None,
            on_hover: None,
            on_unhover: None,
            on_drag: None,
            on_double_click: None,
            last_click_time: None,
            dragging_by: None,
            is_hovering: false,
        }
    }

    /// Sets what makes the signal that is sent when the widget is clicked.
    pub fn on_click(self, signal: Box<dyn SignalSource<S, T>>) -> (g: SignalGenerator<S, T>)
        ensures
            g == (SignalGenerator { on_click: Some(signal), ..self }),
    {
        SignalGenerator { on_click: Some(signal), ..self }
    }

    /// Sends no signal any more when the widget is clicked.
    pub fn remove_on_click(self) -> (g: SignalGenerator<S, T>)
        ensures
            g == (SignalGenerator { on_click: None, ..self }),
    {
        SignalGenerator { on_click: None, ..self }
    }

    /// Sets what makes the signal that is sent when a touch goes down on the widget.
    pub fn on_pressed(self, signal: Box<dyn SignalSource<S, T>>) -> (g: SignalGenerator<S, T>)
        ensures
            g == (SignalGenerator { on_pressed: Some(signal), ..self }),
    {
        SignalGenerator { on_pressed: Some(signal), ..self }
    }

    /// Sends no signal any more when a touch goes down on the widget.
    pub fn remove_on_pressed(self) -> (g: SignalGenerator<S, T>)
        ensures
            g == (SignalGenerator { on_pressed: None, ..self }),
    {
        SignalGenerator { on_pressed: None, ..self }
    }

    /// Sets what makes the signal that is sent when a touch is let go on the widget.
    pub fn on_released(self, signal: Box<dyn SignalSource<S, T>>) -> (g: SignalGenerator<S, T>)
        ensures
            g == (SignalGenerator { on_released: Some(signal), ..self }),
    {
        SignalGenerator { on_released: Some(signal), ..self }
    }

    /// Sends no signal any more when a touch is let go on the widget.
    pub fn remove_on_released(self) -> (g: SignalGenerator<S, T>)
        ensures
            g == (SignalGenerator { on_released: None, ..self }),
    {
        SignalGenerator { on_released: None, ..self }
    }

    /// Sets what makes the signal that is sent while a pointer is over the widget.
    pub fn on_hover(self, signal: Box<dyn SignalSource<S, T>>) -> (g: SignalGenerator<S, T>)
        ensures
            g == (SignalGenerator { on_hover: Some(signal), ..self }),
    {
        SignalGenerator { on_hover: Some(signal), ..self }
    }

    /// Sends no signal any more while a pointer is over the widget.
    pub fn remove_on_hover(self) -> (g: SignalGenerator<S, T>)
        ensures
            g == (SignalGenerator { on_hover: None, ..self }),
    {
        SignalGenerator { on_hover: None, ..self }
    }

    /// Sets what makes the signal that is sent when the pointer leaves the widget.
    pub fn on_unhover(self, signal: Box<dyn SignalSource<S, T>>) -> (g: SignalGenerator<S, T>)
        ensures
            g == (SignalGenerator { on_unhover: Some(signal), ..self }),
    {
        SignalGenerator { on_unhover: Some(signal), ..self }
    }

    /// Sends no signal any more when the pointer leaves the widget.
    pub fn remove_on_unhover(self) -> (g: SignalGenerator<S, T>)
        ensures
            g == (SignalGenerator { on_unhover: None, ..self }),
    {
        SignalGenerator { on_unhover: None, ..self }
    }

    /// Sets what makes the signal that is sent when the widget is dragged.
    pub fn on_drag(self, signal: Box<dyn DragSource<S, T>>) -> (g: SignalGenerator<S, T>)
        ensures
            g == (SignalGenerator { on_drag: Some(signal), ..self }),
    {
        SignalGenerator { on_drag: Some(signal), ..self }
    }

    /// Sends no signal any more when the widget is dragged.
    pub fn remove_on_drag(self) -> (g: SignalGenerator<S, T>)
        ensures
            g == (SignalGenerator { on_drag: None, ..self }),
    {
        SignalGenerator { on_drag: None, ..self }
    }

    /// Sets what makes the signal that is sent when the widget is clicked twice in a row.
    pub fn on_double_click(self, signal: Box<dyn SignalSource<S, T>>) -> (g: SignalGenerator<S, T>)
        ensures
            g == (SignalGenerator { on_double_click: Some(signal), ..self }),
    {
        SignalGenerator { on_double_click: Some(signal), ..self }
    }

    /// Sends no signal any more when the widget is clicked twice in a row.
    pub fn remove_on_double_click(self) -> (g: SignalGenerator<S, T>)
        ensures
            g == (SignalGenerator { on_double_click: None, ..self }),
    {
        SignalGenerator { on_double_click: None, ..self }
    }

    /// The touch that drags the widget.
    pub fn dragging_by(&self) -> (r: Option<u64>)
        ensures
            r == self.dragging_by,
    {
        self.dragging_by
    }

    /// Sends the signal of `source`, if there is one and `due` holds.
    fn fire(
        source: &Option<Box<dyn SignalSource<S, T>>>,
        due: bool,
        style: &mut T,
        input_state: &mut InputState<S>,
        from: LayoutId,
    )
        ensures
            final(input_state)@ == (InputView {
                signals_to_send: final(input_state)@.signals_to_send,
                ..old(input_state)@
            }),
            final(input_state).program_start_time == old(input_state).program_start_time,
            sent_more(
                old(input_state)@.signals_to_send,
                final(input_state)@.signals_to_send,
                from,
                bit(due && *source is Some),
            ),
    {
        proof {
            reveal(sent_more);
        }
        if due {
            match source {
                Some(maker) => {
                    let signal: S = maker.signal(style);
                    input_state.send_signal_from(from, signal);
                },
                None => {},
            }
        }
    }
    /// Sends the signal of a drag by `delta`, if there is a maker for it.
    fn fire_drag(
        source: &Option<Box<dyn DragSource<S, T>>>,
        style: &mut T,
        input_state: &mut InputState<S>,
        from: LayoutId,
        delta: Vec2,
    )
        ensures
            final(input_state)@ == (InputView {
                signals_to_send: final(input_state)@.signals_to_send,
                ..old(input_state)@
            }),
            final(input_state).program_start_time == old(input_state).program_start_time,
            sent_more(
                old(input_state)@.signals_to_send,
                final(input_state)@.signals_to_send,
                from,
                bit(*source is Some),
            ),
    {
        proof {
            reveal(sent_more);
        }
        match source {
            Some(maker) => {
                let signal: S = maker.signal(style, delta);
                input_state.send_signal_from(from, signal);
            },
            None => {},
        }
    }

    /// Finds the touch that drags the widget.
    fn follow_drag(&mut self, input_state: &InputState<S>, area: Rect, now: i128)
        requires
            input_state.wf(),
            is_span(now),
        ensures
            old(self).same_makers(*final(self)),
            final(self).dragging_by == dragged_by(
                old(self).dragging_by,
                unsent(input_state@),
                area,
                now,
            ),
            final(self).last_click_time == old(self).last_click_time,
            final(self).is_hovering == old(self).is_hovering,
    {
        let pressed: Vec<u64> = input_state.get_touch_pressed_on_at(area, now);
        if pressed.len() > 0 {
            self.dragging_by = Some(pressed[0]);
        } else {
            match self.dragging_by {
                Some(id) => {
                    if input_state.is_touch_released(id) {
                        self.dragging_by = None;
                    }
                },
                None => {},
            }
        }
    }

    /// Asks whether the widget is clicked, and sends the signal of the
    /// click or of the double click.
    #[verifier::rlimit(60)]
    fn take_click(
        &mut self,
        style: &mut T,
        input_state: &mut InputState<S>,
        from: LayoutId,
        area: Rect,
        force_clickable: bool,
        now: i128,
    ) -> (clicked: bool)
        requires
            old(self).wf(),
            old(input_state).wf(),
            is_span(now),
        ensures
            final(self).wf(),
            final(input_state).wf(),
            final(input_state).program_start_time == old(input_state).program_start_time,
            ({
                let first = noticed(
                    old(self).wired(),
                    old(self).last_click_time,
                    old(self).dragging_by,
                    old(self).is_hovering,
                    unsent(old(input_state)@),
                    from,
                    area,
                    force_clickable,
                    now,
                );
                &&& clicked == first.clicked
                &&& unsent(final(input_state)@) == first.input
                &&& sent_more(
                    old(input_state)@.signals_to_send,
                    final(input_state)@.signals_to_send,
                    from,
                    bit(first.click) + bit(first.double_click),
                )
                &&& old(self).same_makers(*final(self))
                &&& final(self).last_click_time == first.last_click_time
                &&& final(self).dragging_by == old(self).dragging_by
                &&& final(self).is_hovering == old(self).is_hovering
            }),
    {
        proof {
            reveal(noticed);
            lemma_ask_unsent(input_state@, from, area, now);
        }
        let asks: bool = self.on_click.is_some() || force_clickable;
        if !asks {
            proof {
                lemma_sent_none(input_state@.signals_to_send, from);
            }
            return false;
        }
        let clicked: bool = input_state.is_clicked_at(from, area, now);
        proof {
            lemma_sent_none(input_state@.signals_to_send, from);
        }
        if clicked {
            let again: bool = match self.last_click_time {
                Some(last) => now - last < DOUBLE_CLICK_THRESHOLD,
                None => false,
            };
            let twice: bool = again && self.on_double_click.is_some();
            if self.on_click.is_some() {
                if twice {
                    Self::fire(&self.on_double_click, true, style, input_state, from);
                } else {
                    Self::fire(&self.on_click, true, style, input_state, from);
                }
            }
            self.last_click_time = Some(now);
        }
        clicked
    }

    /// Learns how far the widget is dragged or scrolled, and sends the
    /// signal of the drag.
    fn take_drag(
        &self,
        style: &mut T,
        input_state: &mut InputState<S>,
        from: LayoutId,
        force_draggable: bool,
    ) -> (delta: Option<Vec2>)
        requires
            old(input_state).wf(),
        ensures
            final(input_state).wf(),
            final(input_state).program_start_time == old(input_state).program_start_time,
            ({
                let v = old(input_state)@;
                let drags = self.on_drag is Some || force_draggable;
                &&& delta == if !drags {
                    None
                } else {
                    match self.dragging_by {
                        Some(id) => Some(moved_by(v, id).spec_plus(v.wheel)),
                        None => if v.wheel != Vec2::spec_zero() {
                            Some(v.wheel)
                        } else {
                            None
                        },
                    }
                }
                &&& final(input_state)@ == (InputView {
                    signals_to_send: final(input_state)@.signals_to_send,
                    wheel: if delta is Some {
                        Vec2::spec_zero()
                    } else {
                        v.wheel
                    },
                    ..v
                })
                &&& sent_more(
                    v.signals_to_send,
                    final(input_state)@.signals_to_send,
                    from,
                    bit(self.on_drag is Some && self.dragging_by is Some),
                )
            }),
    {
        proof {
            lemma_sent_none(input_state@.signals_to_send, from);
        }
        let drags: bool = self.on_drag.is_some() || force_draggable;
        if !drags {
            return None;
        }
        match self.dragging_by {
            Some(id) => {
                let moved: Vec2 = input_state.drag_delta(id);
                Self::fire_drag(&self.on_drag, style, input_state, from, moved);
                let wheel: Vec2 = input_state.wheel_delta_consume();
                Some(moved.plus(wheel))
            },
            None => {
                if !input_state.wheel_delta().is_zero() {
                    Some(input_state.wheel_delta_consume())
                } else {
                    None
                }
            },
        }
    }

    /// Sees whether the pointer is over the widget, what drags it and
    /// whether it is clicked, and sends the signals of the pointer that
    /// has left and of the click.
    fn notice(
        &mut self,
        style: &mut T,
        input_state: &mut InputState<S>,
        from: LayoutId,
        area: Rect,
        force_clickable: bool,
        now: i128,
    ) -> (r: (bool, bool))
        requires
            old(self).wf(),
            old(input_state).wf(),
            is_span(now),
        ensures
            final(self).wf(),
            final(input_state).wf(),
            final(input_state).program_start_time == old(input_state).program_start_time,
            ({
                let first = noticed(
                    old(self).wired(),
                    old(self).last_click_time,
                    old(self).dragging_by,
                    old(self).is_hovering,
                    unsent(old(input_state)@),
                    from,
                    area,
                    force_clickable,
                    now,
                );
                &&& r == (first.over, first.clicked)
                &&& old(self).same_makers(*final(self))
                &&& final(self).last_click_time == first.last_click_time
                &&& final(self).dragging_by == first.dragging
                &&& final(self).is_hovering == first.over
                &&& unsent(final(input_state)@) == first.input
                &&& sent_more(
                    old(input_state)@.signals_to_send,
                    final(input_state)@.signals_to_send,
                    from,
                    bit(first.unhover) + bit(first.click) + bit(first.double_click),
                )
            }),
    {
        proof {
            reveal(noticed);
        }
        let ghost v = input_state@;
        let ghost first = noticed(
            self.wired(),
            self.last_click_time,
            self.dragging_by,
            self.is_hovering,
            unsent(v),
            from,
            area,
            force_clickable,
            now,
        );
        let over: bool = input_state.any_touch_pressing_on(area);
        self.follow_drag(input_state, area, now);
        let left: bool = !over && self.is_hovering;
        Self::fire(&self.on_unhover, left, style, input_state, from);
        let ghost mid = input_state@.signals_to_send;
        self.is_hovering = over;
        let ghost asking = input_state@;
        proof {
            assert(unsent(asking) == unsent(v));
        }
        let clicked: bool = self.take_click(style, input_state, from, area, force_clickable, now);
        proof {
            lemma_sent_twice(
                v.signals_to_send,
                mid,
                input_state@.signals_to_send,
                from,
                bit(first.unhover),
                bit(first.click) + bit(first.double_click),
            );
        }
        (over, clicked)
    }

    /// Sends the signals of a press, of a release and of the pointer over
    /// the widget, and learns how far the widget is dragged.
    fn tell(
        &self,
        style: &mut T,
        input_state: &mut InputState<S>,
        from: LayoutId,
        area: Rect,
        over: bool,
        force_draggable: bool,
        now: i128,
    ) -> (delta: Option<Vec2>)
        requires
            old(input_state).wf(),
            is_span(now),
        ensures
            final(input_state).wf(),
            final(input_state).program_start_time == old(input_state).program_start_time,
            ({
                let second = told(
                    self.wired(),
                    self.dragging_by,
                    over,
                    unsent(old(input_state)@),
                    area,
                    force_draggable,
                    now,
                );
                &&& delta == second.delta
                &&& unsent(final(input_state)@) == second.input
                &&& sent_more(
                    old(input_state)@.signals_to_send,
                    final(input_state)@.signals_to_send,
                    from,
                    bit(second.pressed) + bit(second.released) + bit(second.hover) + bit(second.drag),
                )
            }),
    {
        proof {
            reveal(told);
        }
        let ghost v = input_state@;
        let ghost second = told(
            self.wired(),
            self.dragging_by,
            over,
            unsent(v),
            area,
            force_draggable,
            now,
        );
        let pressed: bool = input_state.any_touch_pressed_on_at(area, now);
        Self::fire(&self.on_pressed, pressed, style, input_state, from);
        let ghost s1 = input_state@.signals_to_send;
        let released: bool = input_state.any_touch_released_on(area);
        Self::fire(&self.on_released, released, style, input_state, from);
        let ghost s2 = input_state@.signals_to_send;
        let pressing: bool = input_state.is_any_touch_pressing();
        Self::fire(&self.on_hover, pressing && over, style, input_state, from);
        let ghost s3 = input_state@.signals_to_send;
        let delta: Option<Vec2> = self.take_drag(style, input_state, from, force_draggable);
        proof {
            let s4 = input_state@.signals_to_send;
            lemma_sent_twice(v.signals_to_send, s1, s2, from, bit(second.pressed), bit(second.released));
            lemma_sent_twice(
                v.signals_to_send,
                s2,
                s3,
                from,
                bit(second.pressed) + bit(second.released),
                bit(second.hover),
            );
            lemma_sent_twice(
                v.signals_to_send,
                s3,
                s4,
                from,
                bit(second.pressed) + bit(second.released) + bit(second.hover),
                bit(second.drag),
            );
        }
        delta
    }

    /// Generates the signals of the widget `from` in `area` at the time
    /// that the clock shows; see [`SignalGenerator::generate_signals_at`].
    pub fn generate_signals(
        &mut self,
        style: &mut T,
        input_state: &mut InputState<S>,
        from: LayoutId,
        area: Rect,
        force_clickable: bool,
        force_draggable: bool,
    ) -> (result: SignalGeneratorResult)
        requires
            old(self).wf(),
            old(input_state).wf(),
        ensures
            final(self).wf(),
            final(input_state).wf(),
            final(input_state).program_start_time == old(input_state).program_start_time,
            exists|now: i128|
                is_span(now) && old(self).generates(
                    *final(self),
                    old(input_state)@,
                    final(input_state)@,
                    result,
                    from,
                    area,
                    force_clickable,
                    force_draggable,
                    now,
                ),
    {
        let now: i128 = input_state.program_running_time();
        self.generate_signals_at(
            style,
            input_state,
            from,
            area,
            force_clickable,
            force_draggable,
            now,
        )
    }

    /// Generates the signals of the widget `from` in `area` at the time
    /// `now`: decides what the user has done, see [`generated`], and sends
    /// a signal for each thing that the generator has a maker for, in the
    /// name of `from`.
    #[verifier::rlimit(60)]
    pub fn generate_signals_at(
        &mut self,
        style: &mut T,
        input_state: &mut InputState<S>,
        from: LayoutId,
        area: Rect,
        force_clickable: bool,
        force_draggable: bool,
        now: i128,
    ) -> (result: SignalGeneratorResult)
        requires
            old(self).wf(),
            old(input_state).wf(),
            is_span(now),
        ensures
            final(self).wf(),
            final(input_state).wf(),
            final(input_state).program_start_time == old(input_state).program_start_time,
            old(self).generates(
                *final(self),
                old(input_state)@,
                final(input_state)@,
                result,
                from,
                area,
                force_clickable,
                force_draggable,
                now,
            ),
    {
        let ghost v = input_state@;
        let (over, clicked): (bool, bool) = self.notice(
            style,
            input_state,
            from,
            area,
            force_clickable || force_draggable,
            now,
        );
        let ghost mid = input_state@;
        let ghost first = noticed(
            old(self).wired(),
            old(self).last_click_time,
            old(self).dragging_by,
            old(self).is_hovering,
            unsent(v),
            from,
            area,
            force_clickable || force_draggable,
            now,
        );
        let delta: Option<Vec2> = self.tell(style, input_state, from, area, over, force_draggable, now);
        proof {
            let second = told(
                old(self).wired(),
                first.dragging,
                first.over,
                first.input,
                area,
                force_draggable,
                now,
            );
            lemma_sent_twice(
                v.signals_to_send,
                mid.signals_to_send,
                input_state@.signals_to_send,
                from,
                bit(first.unhover) + bit(first.click) + bit(first.double_click),
                bit(second.pressed) + bit(second.released) + bit(second.hover) + bit(second.drag),
            );
        }
        SignalGeneratorResult { is_clicked: clicked, drag_delta: delta }
    }
}

impl<S: Signal, T> Default for SignalGenerator<S, T> {
    fn default() -> (g: SignalGenerator<S, T>)
        ensures
            g.wf(),
            g.last_click_time is None,
            g.dragging_by is None,
            !g.is_hovering,
    {
        SignalGenerator::new()
    }
}

/// Signals sent one after the other add up.
pub proof fn lemma_sent_twice<S: Signal>(
    a: Seq<SignalWrapper<S>>,
    b: Seq<SignalWrapper<S>>,
    c: Seq<SignalWrapper<S>>,
    from: LayoutId,
    first: nat,
    second: nat,
)
    requires
        sent_more(a, b, from, first),
        sent_more(b, c, from, second),
    ensures
        sent_more(a, c, from, first + second),
{
    reveal(sent_more);
    assert forall|i: int| a.len() <= i < c.len() implies (#[trigger] c[i]).from == from by {
        if i < b.len() {
            assert(c[i] == b[i]);
        }
    }
}

/// Where nothing is sent, no signal more is there.
pub proof fn lemma_sent_none<S: Signal>(a: Seq<SignalWrapper<S>>, from: LayoutId)
    ensures
        sent_more(a, a, from, 0),
{
    reveal(sent_more);
}

} // verus!
