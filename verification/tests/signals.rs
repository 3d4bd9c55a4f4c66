use nablo_ui::layout::LayoutId;
use nablo_ui::math::rect::Rect;
use nablo_ui::math::vec2::Vec2;
use nablo_ui::widgets::signals::{
    DragSource, SignalGenerator, SignalGeneratorResult, SignalSource, DOUBLE_CLICK_THRESHOLD,
};
use nablo_ui::widgets::Signal;
use nablo_ui::window::event::{Touch, TouchPhase, WindowEvent};
use nablo_ui::window::input_state::{InputState, MOUSE_UNPRESSED_ID};

const MS: i128 = 1_000_000;

/// What a test widget tells the program.
#[derive(Debug, Clone, Copy, PartialEq, Eq)]
enum Told {
    Click,
    DoubleClick,
    Pressed,
    Released,
    Hover,
    Unhover,
    Drag(Vec2),
}

impl Signal for Told {}

/// Sends the signal it holds, and counts in the style how often it did.
struct Says(Told);

impl SignalSource<Told, u32> for Says {
    fn signal(&self, style: &mut u32) -> Told {
        *style += 1;
        self.0
    }
}

struct SaysDrag;

impl DragSource<Told, u32> for SaysDrag {
    fn signal(&self, style: &mut u32, delta: Vec2) -> Told {
        *style += 1;
        Told::Drag(delta)
    }
}

fn everything() -> SignalGenerator<Told, u32> {
    SignalGenerator::new()
        .on_click(Box::new(Says(Told::Click)))
        .on_double_click(Box::new(Says(Told::DoubleClick)))
        .on_pressed(Box::new(Says(Told::Pressed)))
        .on_released(Box::new(Says(Told::Released)))
        .on_hover(Box::new(Says(Told::Hover)))
        .on_unhover(Box::new(Says(Told::Unhover)))
        .on_drag(Box::new(SaysDrag))
}

fn touch(id: u64, x: i32, y: i32, phase: TouchPhase) -> WindowEvent {
    WindowEvent::Touch(Touch { id, pos: Vec2::new(x, y), phase })
}

fn sent(input: &InputState<Told>) -> Vec<Told> {
    input.signals_to_send.iter().map(|wrapper| wrapper.signal).collect()
}

const BUTTON: LayoutId = LayoutId(5);
const AREA: Rect = Rect { x: 0, y: 0, w: 10, h: 10 };

#[test]
fn a_generator_without_makers_sends_nothing() {
    let mut g: SignalGenerator<Told, u32> = SignalGenerator::default();
    let mut input = InputState::new();
    let mut style = 0;
    input.update_at(vec![touch(1, 5, 5, TouchPhase::Started)], 0);
    let r = g.generate_signals_at(&mut style, &mut input, BUTTON, AREA, false, false, MS);
    assert_eq!(r, SignalGeneratorResult { is_clicked: false, drag_delta: None });
    assert!(input.signals_to_send.is_empty());
    assert_eq!(style, 0);
    // It does not even ask for the click: the touch stays free.
    assert_eq!(input.pressing_touches[0].using_by, None);
    assert_eq!(g.dragging_by(), Some(1));
    assert!(g.is_hovering);
}

#[test]
fn a_press_and_a_release_make_a_click() {
    let mut g = everything();
    let mut input = InputState::new();
    let mut style = 0;
    input.update_at(vec![touch(1, 5, 5, TouchPhase::Started)], 0);
    let r = g.generate_signals_at(&mut style, &mut input, BUTTON, AREA, false, false, MS);
    assert!(!r.is_clicked);
    // The widget has taken the touch, so it is pressed on it no more when
    // the press is looked for; the pointer is over it and drags it.
    assert_eq!(sent(&input), vec![Told::Hover, Told::Drag(Vec2::zero())]);
    assert_eq!(r.drag_delta, Some(Vec2::zero()));
    assert_eq!(g.dragging_by(), Some(1));
    input.prepare_for_next_frame_at(2 * MS);
    input.update_at(vec![touch(1, 5, 5, TouchPhase::Ended)], 3 * MS);
    let r = g.generate_signals_at(&mut style, &mut input, BUTTON, AREA, false, false, 4 * MS);
    assert!(r.is_clicked);
    assert_eq!(r.drag_delta, None);
    // The click uses the touch up, so no release is seen after it.
    assert_eq!(sent(&input), vec![Told::Unhover, Told::Click]);
    assert!(input.signals_to_send.iter().all(|wrapper| wrapper.from == BUTTON));
    assert_eq!(g.last_click_time, Some(4 * MS));
    assert_eq!(g.dragging_by(), None);
    assert!(!g.is_hovering);
    assert_eq!(style, 4);
}

fn click(g: &mut SignalGenerator<Told, u32>, input: &mut InputState<Told>, at: i128) -> bool {
    let mut style = 0;
    input.prepare_for_next_frame_at(at);
    input.update_at(vec![touch(7, 5, 5, TouchPhase::Started)], at);
    g.generate_signals_at(&mut style, input, BUTTON, AREA, false, false, at);
    input.prepare_for_next_frame_at(at + MS);
    input.update_at(vec![touch(7, 5, 5, TouchPhase::Ended)], at + MS);
    g.generate_signals_at(&mut style, input, BUTTON, AREA, false, false, at + 2 * MS).is_clicked
}

#[test]
fn two_clicks_in_a_row_make_a_double_click() {
    assert_eq!(DOUBLE_CLICK_THRESHOLD, 250 * MS);
    let mut g = everything();
    let mut input = InputState::new();
    assert!(click(&mut g, &mut input, 0));
    assert_eq!(sent(&input).last(), Some(&Told::Click));
    assert!(click(&mut g, &mut input, 100 * MS));
    assert_eq!(sent(&input).last(), Some(&Told::DoubleClick));
    // Too late for a double click.
    assert!(click(&mut g, &mut input, 400 * MS));
    assert_eq!(sent(&input).last(), Some(&Told::Click));

    // Without a maker for it, a double click is a click.
    let mut plain = everything().remove_on_double_click();
    let mut input = InputState::new();
    assert!(click(&mut plain, &mut input, 0));
    assert!(click(&mut plain, &mut input, 100 * MS));
    assert_eq!(sent(&input).last(), Some(&Told::Click));
}

#[test]
fn a_widget_can_be_clickable_without_a_signal() {
    let mut g: SignalGenerator<Told, u32> = SignalGenerator::new();
    let mut input = InputState::new();
    let mut style = 0;
    input.update_at(vec![touch(1, 5, 5, TouchPhase::Started)], 0);
    g.generate_signals_at(&mut style, &mut input, BUTTON, AREA, true, false, MS);
    input.prepare_for_next_frame_at(2 * MS);
    input.update_at(vec![touch(1, 5, 5, TouchPhase::Ended)], 3 * MS);
    let r = g.generate_signals_at(&mut style, &mut input, BUTTON, AREA, true, false, 4 * MS);
    assert!(r.is_clicked);
    assert!(input.signals_to_send.is_empty());
    assert_eq!(g.last_click_time, Some(4 * MS));
}

#[test]
fn presses_and_releases_are_seen_where_nobody_asks_for_clicks() {
    let mut g: SignalGenerator<Told, u32> = SignalGenerator::new()
        .on_pressed(Box::new(Says(Told::Pressed)))
        .on_released(Box::new(Says(Told::Released)));
    let mut input = InputState::new();
    let mut style = 0;
    input.update_at(vec![touch(1, 5, 5, TouchPhase::Started), touch(2, 50, 50, TouchPhase::Started)], 0);
    g.generate_signals_at(&mut style, &mut input, BUTTON, AREA, false, false, MS);
    assert_eq!(sent(&input), vec![Told::Pressed]);
    // A press is seen only while it is fresh.
    g.generate_signals_at(&mut style, &mut input, BUTTON, AREA, false, false, 200 * MS);
    assert_eq!(sent(&input), vec![Told::Pressed]);
    input.update_at(vec![touch(1, 5, 5, TouchPhase::Ended), touch(2, 50, 50, TouchPhase::Ended)], 201 * MS);
    g.generate_signals_at(&mut style, &mut input, BUTTON, AREA, false, false, 202 * MS);
    assert_eq!(sent(&input), vec![Told::Pressed, Told::Released]);
    assert_eq!(g.dragging_by(), None);
}

#[test]
fn a_drag_follows_its_touch_and_the_wheel() {
    let mut g: SignalGenerator<Told, u32> = SignalGenerator::new().on_drag(Box::new(SaysDrag));
    let mut input = InputState::new();
    let mut style = 0;
    // The wheel alone scrolls the widget, and no signal is sent.
    input.update_at(vec![WindowEvent::MouseWheel(Vec2::new(0, 3))], 0);
    let r = g.generate_signals_at(&mut style, &mut input, BUTTON, AREA, false, false, 0);
    assert_eq!(r.drag_delta, Some(Vec2::new(0, 3)));
    assert!(input.signals_to_send.is_empty());
    assert_eq!(input.wheel_delta(), Vec2::zero());
    let r = g.generate_signals_at(&mut style, &mut input, BUTTON, AREA, false, false, 0);
    assert_eq!(r.drag_delta, None);
    // A touch that went down on the widget drags it, wherever it goes.
    input.update_at(vec![touch(1, 5, 5, TouchPhase::Started)], MS);
    g.generate_signals_at(&mut style, &mut input, BUTTON, AREA, false, false, 2 * MS);
    input.prepare_for_next_frame_at(3 * MS);
    input.update_at(vec![touch(1, 40, 45, TouchPhase::Moved), WindowEvent::MouseWheel(Vec2::new(1, 1))], 200 * MS);
    let r = g.generate_signals_at(&mut style, &mut input, BUTTON, AREA, false, false, 201 * MS);
    assert_eq!(sent(&input).last(), Some(&Told::Drag(Vec2::new(35, 40))));
    assert_eq!(r.drag_delta, Some(Vec2::new(36, 41)));
    assert_eq!(g.dragging_by(), Some(1));
    let g = g.remove_on_drag();
    assert!(g.on_drag.is_none());
}

#[test]
fn a_draggable_widget_learns_of_the_drag_without_a_signal() {
    let mut g: SignalGenerator<Told, u32> = SignalGenerator::new();
    let mut input = InputState::new();
    let mut style = 0;
    input.update_at(vec![WindowEvent::MouseMoved(Vec2::new(5, 5)), WindowEvent::MouseWheel(Vec2::new(2, 0))], 0);
    let r = g.generate_signals_at(&mut style, &mut input, BUTTON, AREA, false, true, 50 * MS);
    // The mouse without a button counts as pressed at the start of the
    // program, and what it is dragged by is the wheel, which counts twice.
    assert_eq!(g.dragging_by(), Some(MOUSE_UNPRESSED_ID));
    assert_eq!(r.drag_delta, Some(Vec2::new(4, 0)));
    assert!(input.signals_to_send.is_empty());
}

#[test]
fn makers_can_be_taken_away_again() {
    let g = everything()
        .remove_on_click()
        .remove_on_pressed()
        .remove_on_released()
        .remove_on_hover()
        .remove_on_unhover();
    assert!(g.on_click.is_none() && g.on_pressed.is_none() && g.on_released.is_none());
    assert!(g.on_hover.is_none() && g.on_unhover.is_none());
    assert!(g.on_drag.is_some() && g.on_double_click.is_some());
}

#[test]
fn signals_are_generated_by_the_clock() {
    let mut g = everything();
    let mut input = InputState::new();
    let mut style = 0;
    input.update(vec![touch(1, 5, 5, TouchPhase::Started)]);
    let r = g.generate_signals(&mut style, &mut input, BUTTON, AREA, false, false);
    assert!(!r.is_clicked);
    assert!(input.is_any_touch_pressed());
    assert!(input.is_touch_pressed(1));
    assert!(input.get_touch_pressed_on(AREA).is_empty());
    assert!(!input.any_touch_pressed_on(AREA));
    input.prepare_for_next_frame();
    input.update(vec![touch(1, 5, 5, TouchPhase::Ended)]);
    let r = g.generate_signals(&mut style, &mut input, BUTTON, AREA, false, false);
    assert!(r.is_clicked);
    assert!(sent(&input).contains(&Told::Click));
}
