use std::collections::HashMap;

use indexmap::IndexMap;
use nablo_ui::context::{extent, Context};
use nablo_ui::layout::{Layout, LayoutId};
use nablo_ui::math::rect::Rect;
use nablo_ui::math::vec2::Vec2;
use nablo_ui::render::font_render::FontRender;
use nablo_ui::render::painter::Painter;
use nablo_ui::render::texture::Texture;
use nablo_ui::widgets::Widget;
use nablo_ui::window::clock::DURATION_LIMIT;
use nablo_ui::window::event::{
    CursorIcon, ImeEvent, Key, MouseButton, OutputEvent, Theme, Touch, TouchPhase, WindowEvent,
};
use nablo_ui::window::held::{find_key, find_touch, put_key, put_touch, take_key, take_touch, KeyState, TouchState, TouchUse};
use nablo_ui::window::input_query::is_fresh;
use nablo_ui::window::input_state::{
    ImeString, InputState, Modifiers, DEFAULT_EPSILON_TIME, MOUSE_ID, MOUSE_UNPRESSED_ID,
};
use nablo_ui::window::input_update::button_id;

const MS: i128 = 1_000_000;

fn state() -> InputState<()> {
    InputState::new()
}

fn touch(id: u64, x: i32, y: i32, phase: TouchPhase) -> WindowEvent {
    WindowEvent::Touch(Touch { id, pos: Vec2::new(x, y), phase })
}

fn ime_off(text: ImeString) -> String {
    match text {
        ImeString::ImeOff(inner) => inner,
        other => panic!("typed text was expected, not {:?}", other),
    }
}

#[test]
fn a_new_state_holds_nothing() {
    let s = state();
    assert_eq!(s.window_size(), Vec2::inf());
    assert_eq!(s.scale_factor(), 256);
    assert_eq!(s.theme, Theme::Dark);
    assert!(s.redraw_requested);
    assert!(s.window_focused);
    assert!(!s.should_close);
    assert!(!s.is_any_touch_pressing());
    assert!(!s.is_any_touch_released());
    assert!(!s.is_any_key_pressing());
    assert!(!s.is_any_key_released());
    assert_eq!(s.modifiers(), Modifiers::default());
    assert_eq!(s.mouse_pos(), None);
    assert!(s.raw_events().is_empty());
    assert_eq!(s.handling_id, LayoutId::root());
    let d: InputState<()> = InputState::default();
    assert_eq!(d.wheel_delta(), Vec2::zero());
}

#[test]
fn the_clock_runs_forward() {
    let s = state();
    let first = s.program_running_time();
    let second = s.run_time();
    assert!(first >= 0);
    assert!(second >= first);
    assert!(second < 3600 * 1000 * MS);
    assert!(second <= DURATION_LIMIT);
}

#[test]
fn freshness_lasts_a_tenth_of_a_second() {
    assert_eq!(DEFAULT_EPSILON_TIME, 100 * MS);
    assert!(is_fresh(100 * MS, MS));
    assert!(is_fresh(100 * MS, 200 * MS));
    assert!(!is_fresh(101 * MS, MS));
    assert!(!is_fresh(DURATION_LIMIT, -DURATION_LIMIT));
    assert!(is_fresh(-DURATION_LIMIT, DURATION_LIMIT));
}

#[test]
fn lists_hold_an_id_once() {
    let at = |id: u64, x: i32| TouchState {
        id,
        time: 0,
        pos: Vec2::new(x, 0),
        last_pos: Vec2::zero(),
        using_by: None,
        last_used: false,
    };
    let mut list = Vec::new();
    put_touch(&mut list, at(1, 10));
    put_touch(&mut list, at(2, 20));
    put_touch(&mut list, at(1, 30));
    assert_eq!(list, vec![at(1, 30), at(2, 20)]);
    assert_eq!(find_touch(&list, 2), Some(1));
    assert_eq!(find_touch(&list, 3), None);
    assert_eq!(take_touch(&mut list, 1), Some(at(1, 30)));
    assert_eq!(take_touch(&mut list, 1), None);
    assert_eq!(list, vec![at(2, 20)]);
    let down = |key: Key, time: i128| KeyState { key, time, used: false };
    let mut keys = Vec::new();
    put_key(&mut keys, down(Key::KeyA, 1));
    put_key(&mut keys, down(Key::KeyB, 2));
    put_key(&mut keys, down(Key::KeyA, 3));
    assert_eq!(keys, vec![down(Key::KeyA, 3), down(Key::KeyB, 2)]);
    assert_eq!(find_key(&keys, Key::KeyB), Some(1));
    take_key(&mut keys, Key::KeyA);
    take_key(&mut keys, Key::KeyC);
    assert_eq!(keys, vec![down(Key::KeyB, 2)]);
}

#[test]
fn without_events_nothing_changes() {
    let mut s = state();
    s.update_at(Vec::new(), 5);
    assert!(!s.has_new_events);
    assert!(s.raw_events().is_empty());
}

#[test]
fn the_window_tells_of_itself() {
    let mut s = state();
    s.update_at(
        vec![
            WindowEvent::Resized(Vec2::new(800, 600)),
            WindowEvent::Focused(false),
            WindowEvent::DroppedFile("a.txt".to_string()),
            WindowEvent::DroppedFile("b.txt".to_string()),
            WindowEvent::HoveredFile("c.txt".to_string()),
            WindowEvent::ScaleFactor(512),
            WindowEvent::ThemeChanged(Theme::Light),
            WindowEvent::CloseRequested,
            WindowEvent::Unknown,
            WindowEvent::MouseEntered,
        ],
        MS,
    );
    assert!(s.has_new_events);
    assert_eq!(s.raw_events().len(), 10);
    assert!(matches!(s.raw_events()[4], WindowEvent::HoveredFile(_)));
    assert_eq!(s.window_size(), Vec2::new(800, 600));
    assert!(!s.window_focused);
    assert_eq!(s.dropped_files, vec!["a.txt".to_string(), "b.txt".to_string()]);
    assert_eq!(s.hovering_file, Some("c.txt".to_string()));
    assert_eq!(s.scale_factor(), 512);
    assert_eq!(s.theme, Theme::Light);
    assert!(s.should_close);
    s.redraw_requested = false;
    s.update_at(vec![WindowEvent::HoveredFileCancelled, WindowEvent::RedrawRequested], 2 * MS);
    assert_eq!(s.hovering_file, None);
    assert!(s.redraw_requested);
    assert_eq!(s.raw_events().len(), 12);
}

#[test]
fn keys_type_into_the_next_frame() {
    let mut s = state();
    s.update_at(
        vec![
            WindowEvent::KeyPressed(Key::KeyA),
            WindowEvent::KeyPressed(Key::ShiftLeft),
            WindowEvent::KeyPressed(Key::KeyB),
            WindowEvent::KeyReleased(Key::ShiftLeft),
            WindowEvent::KeyPressed(Key::ControlRight),
            WindowEvent::KeyPressed(Key::KeyC),
        ],
        MS,
    );
    assert_eq!(s.cached_input, "aB");
    assert_eq!(s.input_string, "");
    assert!(s.is_key_pressing(Key::KeyA));
    assert!(!s.is_key_pressing(Key::ShiftLeft));
    assert!(s.is_key_released(Key::ShiftLeft));
    assert_eq!(s.modifiers(), Modifiers { shift: false, ctrl: true, alt: false });
    assert!(s.is_any_key_pressing());
    assert!(s.is_any_key_released());
    s.prepare_for_next_frame_at(2 * MS);
    assert_eq!(s.input_string, "aB");
    assert_eq!(s.cached_input, "");
    assert_eq!(ime_off(s.get_input_string()), "aB");
    assert!(matches!(s.get_input_string(), ImeString::Nothing));
}

#[test]
fn a_key_press_is_taken_once_and_only_while_fresh() {
    let mut s = state();
    s.update_at(vec![WindowEvent::KeyPressed(Key::Enter), WindowEvent::KeyPressed(Key::Tab)], 10 * MS);
    assert!(s.is_any_key_pressed_at(50 * MS));
    assert!(!s.is_key_pressed_at(Key::Space, 50 * MS));
    assert!(s.is_key_pressed_at(Key::Enter, 50 * MS));
    assert!(!s.is_key_pressed_at(Key::Enter, 50 * MS));
    assert!(s.is_any_key_pressed_at(50 * MS));
    assert!(!s.is_key_pressed_at(Key::Tab, 110 * MS));
    assert!(!s.is_any_key_pressed_at(110 * MS));
    assert!(s.is_key_pressing(Key::Tab));
    // A key that goes down again is fresh again.
    s.update_at(vec![WindowEvent::KeyPressed(Key::Enter)], 200 * MS);
    assert!(s.is_key_pressed_at(Key::Enter, 250 * MS));
}

#[test]
fn a_key_that_is_held_is_seen_by_the_clock() {
    let mut s = state();
    s.update(vec![WindowEvent::KeyPressed(Key::KeyQ)]);
    assert!(s.is_any_key_pressed());
    assert!(s.is_key_pressed(Key::KeyQ));
    assert!(!s.is_key_pressed(Key::KeyQ));
    assert_eq!(s.cached_input, "q");
    s.prepare_for_next_frame();
    assert_eq!(s.input_string, "q");
    assert!(s.is_key_pressing(Key::KeyQ));
}

#[test]
fn released_keys_are_forgotten_after_a_moment() {
    let mut s = state();
    s.update_at(vec![WindowEvent::KeyPressed(Key::KeyA)], 0);
    s.update_at(vec![WindowEvent::KeyReleased(Key::KeyA)], 10 * MS);
    s.update_at(vec![WindowEvent::KeyPressed(Key::KeyB), WindowEvent::KeyReleased(Key::KeyB)], 90 * MS);
    assert!(s.is_key_released(Key::KeyA) && s.is_key_released(Key::KeyB));
    s.prepare_for_next_frame_at(110 * MS);
    assert!(!s.is_key_released(Key::KeyA));
    assert!(s.is_key_released(Key::KeyB));
    // A key that goes down is released no more.
    s.update_at(vec![WindowEvent::KeyPressed(Key::KeyB)], 120 * MS);
    assert!(!s.is_key_released(Key::KeyB));
    assert!(!s.is_any_key_released());
}

#[test]
fn text_comes_typed_composed_or_pasted() {
    let mut s = state();
    s.update_at(
        vec![WindowEvent::StringInput("ab".to_string()), WindowEvent::StringInput("c".to_string())],
        0,
    );
    assert_eq!(s.input_string, "abc");
    s.paste_text("xy");
    s.paste_text("z");
    assert_eq!(ime_off(s.get_input_string()), "xyz");
    assert_eq!(ime_off(s.get_input_string()), "abc");
    assert!(s.get_input_string().is_empty());
    s.update_at(
        vec![
            WindowEvent::StringInput("lost".to_string()),
            WindowEvent::ImeEnabled,
            WindowEvent::Ime(ImeEvent::Edit("ni".to_string(), Some((0, 2)))),
        ],
        0,
    );
    assert!(s.is_ime_enabled);
    assert_eq!(s.input_string, "");
    match s.get_input_string() {
        ImeString::Ime { input, selected } => {
            assert_eq!(input, "ni");
            assert_eq!(selected, (0, 2));
        },
        other => panic!("composed text was expected, not {:?}", other),
    }
    assert!(matches!(s.get_input_string(), ImeString::Nothing));
    // With an input method, keys type nothing.
    s.update_at(vec![WindowEvent::KeyPressed(Key::KeyA)], 0);
    assert_eq!(s.cached_input, "");
    s.prepare_for_next_frame_at(0);
    assert!(matches!(s.get_input_string(), ImeString::Ime { .. }));
    s.update_at(vec![WindowEvent::Ime(ImeEvent::Commit("你".to_string()))], 0);
    assert_eq!(s.ime_selection, None);
    assert_eq!(ime_off(s.get_input_string()), "你");
    s.update_at(
        vec![WindowEvent::Ime(ImeEvent::Edit("x".to_string(), None)), WindowEvent::ImeDisabled],
        0,
    );
    assert!(!s.is_ime_enabled);
    assert_eq!(s.ime_text, "");
    assert!(matches!(s.get_input_string(), ImeString::Nothing));
}

#[test]
fn the_mouse_is_a_touch() {
    let mut s = state();
    s.update_at(vec![WindowEvent::MousePressed(MouseButton::Left)], 5 * MS);
    // A button that goes down before the mouse has moved lies nowhere.
    assert_eq!(s.get_touch_pos(MOUSE_ID), Some(Vec2::inf()));
    s.update_at(vec![WindowEvent::MouseMoved(Vec2::new(10, 20))], 6 * MS);
    assert_eq!(s.mouse_pos(), Some(Vec2::new(10, 20)));
    assert_eq!(s.get_touch_pos(MOUSE_ID), Some(Vec2::new(10, 20)));
    assert_eq!(s.get_touch_pos(MOUSE_UNPRESSED_ID), Some(Vec2::new(10, 20)));
    s.update_at(
        vec![
            WindowEvent::MousePressed(MouseButton::Right),
            WindowEvent::MousePressed(MouseButton::Other(7)),
            WindowEvent::MouseMoved(Vec2::new(11, 21)),
        ],
        7 * MS,
    );
    assert_eq!(s.get_touch_pos(MOUSE_ID + 1), Some(Vec2::new(11, 21)));
    // Only the five named buttons follow the mouse.
    assert_eq!(s.get_touch_pos(MOUSE_ID + 7), Some(Vec2::new(10, 20)));
    assert_eq!(s.touch_positions().len(), 4);
    assert!(s.is_touch_in(Rect::new(0, 0, 11, 21)));
    assert!(!s.any_touch_pressing_on(Rect::new(0, 0, 9, 21)));
    s.update_at(vec![WindowEvent::MouseReleased(MouseButton::Left), WindowEvent::MouseLeft], 8 * MS);
    assert_eq!(s.mouse_pos(), None);
    assert!(s.is_touch_released(MOUSE_ID));
    assert!(!s.is_touch_released(MOUSE_ID + 1));
    assert!(s.is_touch_released(77));
    assert_eq!(s.get_touch_released_on(Rect::new(0, 0, 50, 50)), vec![MOUSE_ID]);
    assert!(s.any_touch_released_on(Rect::new(0, 0, 50, 50)));
    assert!(!s.any_touch_released_on(Rect::new(0, 0, 5, 5)));
    assert_eq!(s.get_touch_pos(MOUSE_ID), Some(Vec2::new(11, 21)));
    assert_eq!(
        [MouseButton::Left, MouseButton::Right, MouseButton::Middle, MouseButton::Back, MouseButton::Forward, MouseButton::Other(65535)]
            .map(button_id),
        [1000, 1001, 1002, 1003, 1004, 66535]
    );
}

#[test]
fn the_mouse_without_a_button_never_counts_as_pressed() {
    let mut s = state();
    s.update_at(vec![WindowEvent::MouseMoved(Vec2::new(1, 1))], 500 * MS);
    let everywhere = Rect::new(-100, -100, 200, 200);
    assert!(s.get_touch_pressed_on_at(everywhere, 500 * MS).is_empty());
    assert!(!s.any_touch_pressed_on_at(everywhere, 500 * MS));
    assert!(!s.is_touch_pressed_at(MOUSE_UNPRESSED_ID, 500 * MS));
    assert!(!s.is_any_touch_pressed_at(500 * MS));
    // At the very start of the program it is as fresh as anything.
    assert!(s.is_touch_pressed_at(MOUSE_UNPRESSED_ID, 50 * MS));
}

#[test]
fn fingers_come_move_and_leave() {
    let mut s = state();
    s.update_at(
        vec![touch(1, 5, 5, TouchPhase::Started), touch(2, 50, 50, TouchPhase::Started), touch(1, 6, 7, TouchPhase::Moved)],
        10 * MS,
    );
    assert_eq!(s.touch_positions(), vec![Vec2::new(6, 7), Vec2::new(50, 50)]);
    assert!(s.is_any_touch_pressed_at(20 * MS));
    assert!(s.is_touch_pressed_at(1, 20 * MS));
    assert!(!s.is_touch_pressed_at(1, 110 * MS));
    assert!(!s.is_touch_pressed_at(3, 20 * MS));
    assert_eq!(s.get_touch_pressed_on_at(Rect::new(0, 0, 100, 100), 20 * MS), vec![1, 2]);
    assert_eq!(s.get_touch_pressed_on_at(Rect::new(0, 0, 10, 10), 20 * MS), vec![1]);
    assert!(s.get_touch_pressed_on_at(Rect::new(0, 0, 100, 100), 110 * MS).is_empty());
    assert_eq!(s.drag_delta(1), Vec2::new(1, 2));
    assert_eq!(s.drag_delta(2), Vec2::zero());
    assert_eq!(s.drag_delta(9), Vec2::zero());
    s.update_at(vec![WindowEvent::MouseWheel(Vec2::new(0, -3)), WindowEvent::MouseWheel(Vec2::new(1, -1))], 11 * MS);
    assert_eq!(s.wheel_delta(), Vec2::new(1, -4));
    assert_eq!(s.drag_delta(MOUSE_UNPRESSED_ID), Vec2::new(1, -4));
    assert_eq!(s.drag_delta_summary(), Vec2::new(2, -2));
    let deltas = s.drag_deltas();
    assert_eq!(deltas.len(), 3);
    assert_eq!(deltas[&1], Vec2::new(1, 2));
    assert_eq!(deltas[&2], Vec2::zero());
    assert_eq!(deltas[&MOUSE_UNPRESSED_ID], Vec2::new(1, -4));
    assert_eq!(s.wheel_delta_consume(), Vec2::new(1, -4));
    assert_eq!(s.wheel_delta(), Vec2::zero());
    s.prepare_for_next_frame_at(12 * MS);
    assert_eq!(s.drag_delta(1), Vec2::zero());
    s.update_at(vec![touch(1, 0, 0, TouchPhase::Ended), touch(2, 0, 0, TouchPhase::Cancelled), touch(3, 0, 0, TouchPhase::Ended)], 13 * MS);
    assert!(!s.is_any_touch_pressing());
    assert_eq!(s.get_touch_released_on(Rect::new(0, 0, 100, 100)), vec![1, 2]);
    // Where it was let go is where it was last, not where the last event says.
    assert_eq!(s.get_touch_pos(1), Some(Vec2::new(6, 7)));
    // A finger that comes back is released no more.
    s.update_at(vec![touch(2, 1, 1, TouchPhase::Started)], 14 * MS);
    assert_eq!(s.get_touch_released_on(Rect::new(0, 0, 100, 100)), vec![1]);
    s.prepare_for_next_frame_at(200 * MS);
    assert!(!s.is_any_touch_released());
}

#[test]
fn a_click_is_a_fresh_touch_let_go_in_the_hitbox() {
    let button = LayoutId(3);
    let other = LayoutId(4);
    let hitbox = Rect::new(0, 0, 10, 10);
    let mut s = state();
    s.update_at(vec![touch(1, 5, 5, TouchPhase::Started)], 10 * MS);
    // The touch is offered to the first widget that asks, and only to it.
    assert!(!s.is_clicked_at(button, hitbox, 20 * MS));
    assert_eq!(s.pressing_touches[0].using_by, Some(TouchUse { by: button, accepted: true }));
    assert!(s.pressing_touches[0].last_used);
    assert!(!s.is_clicked_at(other, hitbox, 20 * MS));
    assert_eq!(s.pressing_touches[0].using_by, Some(TouchUse { by: button, accepted: true }));
    assert!(s.get_touch_pressed_on_at(hitbox, 20 * MS).is_empty());
    // While it is held, nothing is clicked.
    assert!(!s.is_clicked_at(button, hitbox, 30 * MS));
    s.prepare_for_next_frame_at(40 * MS);
    s.update_at(vec![touch(1, 5, 5, TouchPhase::Ended)], 50 * MS);
    assert!(!s.is_clicked_at(other, hitbox, 60 * MS));
    assert!(s.is_clicked_at(button, hitbox, 60 * MS));
    // The click is used up.
    assert!(!s.is_clicked_at(button, hitbox, 60 * MS));
    assert!(!s.is_any_touch_released());
}

#[test]
fn a_stale_touch_or_one_let_go_outside_is_no_click() {
    let button = LayoutId(3);
    let hitbox = Rect::new(0, 0, 10, 10);
    let mut s = state();
    s.update_at(vec![touch(1, 5, 5, TouchPhase::Started)], 10 * MS);
    // Taken too late: the touch is the widget's, but counts for no click.
    assert!(!s.is_clicked_at(button, hitbox, 500 * MS));
    assert_eq!(s.pressing_touches[0].using_by, Some(TouchUse { by: button, accepted: false }));
    s.update_at(vec![touch(1, 5, 5, TouchPhase::Ended)], 510 * MS);
    assert!(!s.is_clicked_at(button, hitbox, 520 * MS));
    assert!(s.is_any_touch_released());

    let mut s = state();
    s.update_at(vec![touch(2, 5, 5, TouchPhase::Started)], 10 * MS);
    assert!(!s.is_clicked_at(button, hitbox, 20 * MS));
    s.update_at(vec![touch(2, 50, 5, TouchPhase::Moved), touch(2, 50, 5, TouchPhase::Ended)], 30 * MS);
    assert!(!s.is_clicked_at(button, hitbox, 40 * MS));
    // It stays until it is forgotten.
    assert!(s.is_any_touch_released());
    s.prepare_for_next_frame_at(131 * MS);
    assert!(!s.is_any_touch_released());
}

#[test]
fn a_touch_that_was_let_go_is_freed_unless_it_was_looked_at() {
    let button = LayoutId(3);
    let hitbox = Rect::new(0, 0, 10, 10);
    let mut s = state();
    s.update_at(vec![touch(1, 5, 5, TouchPhase::Started)], 0);
    assert!(!s.is_clicked_at(button, hitbox, 0));
    s.update_at(vec![touch(1, 5, 5, TouchPhase::Ended)], MS);
    // The frame ends with the touch looked at: it stays the widget's ...
    s.prepare_for_next_frame_at(2 * MS);
    assert_eq!(s.released_touches[0].using_by, Some(TouchUse { by: button, accepted: true }));
    assert!(!s.released_touches[0].last_used);
    // ... and is freed when a frame passes in which nobody looks at it.
    s.prepare_for_next_frame_at(3 * MS);
    assert_eq!(s.released_touches[0].using_by, None);
    assert!(!s.is_clicked_at(button, hitbox, 4 * MS));
}

#[test]
fn a_consumed_touch_belongs_to_the_handling_widget() {
    let mut s = state();
    s.update_at(vec![touch(1, 5, 5, TouchPhase::Started)], 0);
    s.handling_id = LayoutId(9);
    s.consume_touch(1);
    s.consume_touch(2);
    assert_eq!(s.pressing_touches.len(), 1);
    assert_eq!(s.pressing_touches[0].using_by, Some(TouchUse { by: LayoutId(9), accepted: false }));
    assert!(s.pressing_touches[0].last_used);
    assert!(!s.is_clicked_at(LayoutId(9), Rect::new(0, 0, 10, 10), 0));
    assert!(s.get_touch_pressed_on_at(Rect::new(0, 0, 10, 10), 0).is_empty());
}

#[test]
fn signals_and_requests_are_noted_in_order() {
    let mut s: InputState<Option<()>> = InputState::new();
    s.send_signal(None);
    s.handling_id = LayoutId(4);
    s.send_signal(Some(()));
    s.send_signal_from(LayoutId(7), None);
    let from: Vec<LayoutId> = s.signals_to_send.iter().map(|w| w.from).collect();
    assert_eq!(from, vec![LayoutId(0), LayoutId(4), LayoutId(7)]);
    assert_eq!(s.signals_to_send[1].signal, Some(()));
    s.set_title("hello".to_string());
    s.set_cursor_icon(CursorIcon::Text);
    s.set_cursor_position(Vec2::new(1, 2));
    s.set_cursor_visible(false);
    s.set_window_size(Vec2::new(3, 4));
    s.set_window_position(Vec2::new(5, 6));
    s.copy_text("copied".to_string());
    s.request_paste_text();
    s.mark_all_dirty();
    assert!(s.all_dirty && s.redraw_requested);
    assert_eq!(s.output_events.len(), 8);
    assert!(matches!(&s.output_events[0], OutputEvent::SetWindowTitle(title) if title == "hello"));
    assert!(matches!(s.output_events[1], OutputEvent::SetCursorIcon(CursorIcon::Text)));
    assert!(matches!(s.output_events[2], OutputEvent::SetCursorPosition(p) if p == Vec2::new(1, 2)));
    assert!(matches!(s.output_events[3], OutputEvent::SetCursorVisible(false)));
    assert!(matches!(s.output_events[4], OutputEvent::Resize(p) if p == Vec2::new(3, 4)));
    assert!(matches!(s.output_events[5], OutputEvent::Move(p) if p == Vec2::new(5, 6)));
    assert!(matches!(&s.output_events[6], OutputEvent::CopyToClipboard(text) if text == "copied"));
    assert!(matches!(s.output_events[7], OutputEvent::RequestClipboard));
    s.prepare_for_next_frame_at(0);
    assert!(s.signals_to_send.is_empty());
    assert_eq!(s.handling_id, LayoutId::root());
    assert_eq!(s.output_events.len(), 8);
}

/// A widget that does nothing.
struct Blank;

impl Widget for Blank {
    type Signal = ();
    fn handle_event(&mut self, input: &mut InputState<()>, id: LayoutId, area: Rect, _: Vec2) -> bool {
        input.is_clicked(id, area)
    }

    fn draw(&mut self, _: &mut Painter, _: Vec2) {}

    fn size(&self, _: LayoutId, _: &Painter, _: &Layout<Self>) -> Vec2 {
        Vec2::zero()
    }

    fn handle_child_layout(&mut self, _: IndexMap<usize, Vec2>, _: Rect, _: LayoutId) -> HashMap<usize, Option<Rect>> {
        HashMap::new()
    }
}

#[test]
fn texture_ids_are_handed_out_again() {
    let mut ctx: Context<(), Blank> = Context::new();
    assert_eq!(ctx.register_texture(vec![1, 2, 3, 4], Vec2::new(1, 1)), 0);
    assert_eq!(ctx.register_texture(vec![], Vec2::new(-5, 7)), 1);
    assert_eq!(ctx.register_texture(vec![], Vec2::new(2, 2)), 2);
    assert_eq!(
        ctx.get_texture(1),
        Some(&Texture { texture_id: 1, width: 0, height: 7, used_in_last_frame: false })
    );
    assert_eq!(ctx.get_texture(3), None);
    assert_eq!(
        ctx.remove_texture(0),
        Some(Texture { texture_id: 0, width: 1, height: 1, used_in_last_frame: false })
    );
    assert_eq!(ctx.remove_texture(0), None);
    assert!(ctx.remove_texture(1).is_some());
    // The id that was given back last is handed out first.
    assert_eq!(ctx.register_texture(vec![], Vec2::new(3, 3)), 1);
    assert_eq!(ctx.register_texture(vec![], Vec2::new(3, 3)), 0);
    assert_eq!(ctx.register_texture(vec![], Vec2::new(3, 3)), 3);
    assert!(ctx.update_texture(3, vec![9], Vec2::new(8, 9)));
    assert!(!ctx.update_texture(4, vec![9], Vec2::new(8, 9)));
    assert_eq!(
        ctx.get_texture(3),
        Some(&Texture { texture_id: 3, width: 8, height: 9, used_in_last_frame: true })
    );
    let asked = &ctx.input_state().output_events;
    assert_eq!(asked.len(), 10);
    assert!(matches!(&asked[0], OutputEvent::RegisterTexture(size, rgba) if *size == Vec2::new(1, 1) && rgba == &vec![1, 2, 3, 4]));
    assert!(matches!(asked[3], OutputEvent::RemoveTexture(0)));
    assert!(matches!(asked[4], OutputEvent::RemoveTexture(0)));
    assert!(matches!(&asked[9], OutputEvent::UpdateTexture(3, size, rgba) if *size == Vec2::new(8, 9) && rgba == &vec![9]));
    ctx.clear_textures();
    assert_eq!(ctx.get_texture(3), None);
    assert!(ctx.textures.is_empty());
    assert!(matches!(ctx.input_state().output_events[10], OutputEvent::ClearTexture));
    assert_eq!(ctx.register_texture(vec![], Vec2::new(3, 3)), 0);
    assert_eq!(extent(-1), 0);
    assert_eq!(extent(i32::MAX), i32::MAX as u32);
}

#[test]
fn a_widget_can_read_the_input_of_the_context() {
    let mut ctx: Context<(), Blank> = Context::new();
    ctx.layout.insert_root_widget(Blank);
    ctx.input_state.update(vec![touch(1, 5, 5, TouchPhase::Started)]);
    ctx.layout.handle_events(LayoutId::root(), &mut ctx.input_state);
    assert!(!ctx.force_redraw_per_frame);
    assert!(!ctx.exit);
    // The root lies over the whole window, so the touch is offered to it.
    assert_eq!(
        ctx.input_state.pressing_touches[0].using_by,
        Some(TouchUse { by: LayoutId::root(), accepted: true })
    );
}

#[test]
fn a_frame_of_events_goes_step_by_step() {
    let mut ctx: Context<(), Blank> = Context::new();
    ctx.layout.insert_root_widget(Blank);
    assert!(ctx.wants_draw());
    let frame = ctx.draw(&FontRender::new()).ok().unwrap();
    assert!(frame.redraw_rect.is_some());
    assert!(!ctx.input_state.redraw_requested);
    assert!(!ctx.wants_draw());
    ctx.input_state.update_at(vec![WindowEvent::KeyPressed(Key::KeyA)], 0);
    ctx.input_state.send_signal(());
    ctx.input_state.mark_all_dirty();
    ctx.input_state.set_cursor_visible(false);
    let signals = ctx.take_signals();
    assert_eq!(signals.len(), 1);
    assert!(ctx.input_state.signals_to_send.is_empty());
    assert!(ctx.finish_events());
    assert_eq!(ctx.input_state.input_string, "a");
    assert!(!ctx.input_state.all_dirty);
    assert_eq!(ctx.layout.is_dirty(LayoutId::root()), Some(true));
    assert!(ctx.wants_draw());
    let requests = ctx.take_requests();
    assert!(matches!(requests[..], [OutputEvent::SetCursorVisible(false)]));
    assert!(ctx.input_state.output_events.is_empty());
    ctx.force_redraw_per_frame = true;
    ctx.draw(&FontRender::new()).ok().unwrap();
    assert!(ctx.wants_draw());
}

#[test]
fn an_unsound_input_is_left_as_it_is() {
    let mut ctx: Context<(), Blank> = Context::new();
    ctx.input_state.update_at(vec![touch(1, 0, 0, TouchPhase::Started)], 0);
    assert!(ctx.input_state.is_sound());
    let twice = ctx.input_state.pressing_touches[0];
    ctx.input_state.pressing_touches.push(twice);
    assert!(!ctx.input_state.is_sound());
    ctx.input_state.mark_all_dirty();
    assert!(!ctx.finish_events());
    assert!(ctx.input_state.all_dirty);
    assert_eq!(ctx.input_state.raw_events().len(), 1);
    ctx.input_state.pressing_touches.pop();
    ctx.input_state.pressing_touches[0].time = DURATION_LIMIT + 1;
    assert!(!ctx.input_state.is_sound());
    ctx.input_state.pressing_touches[0].time = DURATION_LIMIT;
    assert!(ctx.input_state.is_sound());
    ctx.input_state.released_keys.push(KeyState { key: Key::KeyA, time: 0, used: false });
    ctx.input_state.released_keys.push(KeyState { key: Key::KeyA, time: 1, used: true });
    assert!(!ctx.input_state.is_sound());
}
