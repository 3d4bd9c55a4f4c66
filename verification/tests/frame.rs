use std::collections::HashMap;

use indexmap::IndexMap;
use nablo_ui::layout::{Layout, LayoutId};
use nablo_ui::math::color::Color;
use nablo_ui::math::rect::Rect;
use nablo_ui::math::vec2::Vec2;
use nablo_ui::render::commands::CommandGpu;
use nablo_ui::render::font_render::FontRender;
use nablo_ui::render::painter::Painter;
use nablo_ui::render::shape::{BasicShapeData, FillMode, Operator, Shape, ShapeOrOp};
use nablo_ui::widgets::Widget;
use nablo_ui::window::input_state::InputState;
use nablo_ui::render::painter::ShapeToDraw;
use nablo_ui::window::manager::{compile_frame, draw_frame, FrameError, STACK_SIZE};

/// A widget that draws the shape it holds and fills its parent.
struct Canvas {
    shape: Shape,
}

impl Widget for Canvas {
    type Signal = ();
    fn handle_event(&mut self, _: &mut InputState<()>, _: LayoutId, _: Rect, _: Vec2) -> bool {
        false
    }

    fn draw(&mut self, painter: &mut Painter, _: Vec2) {
        painter.set_fill_mode(FillMode::Color(Color::new(0, 255, 0, 255)));
        painter.draw_shape(self.shape.clone());
    }

    fn size(&self, _: LayoutId, _: &Painter, _: &Layout<Self>) -> Vec2 {
        Vec2::new(10, 10)
    }

    fn handle_child_layout(&mut self, childs: IndexMap<usize, Vec2>, _: Rect, _: LayoutId) -> HashMap<usize, Option<Rect>> {
        childs.into_iter().map(|(id, size)| (id, Some(Rect::from_size(size)))).collect()
    }
}

fn rectangle(x: i32) -> Shape {
    Shape::from_data(BasicShapeData::Rectangle(Vec2::new(x, 0), Vec2::new(x + 5, 5), Color::same(0)))
}

/// `pairs` unions that each take a register of their own, joined at the end.
fn deep(pairs: usize) -> Shape {
    let mut tokens = Vec::new();
    for i in 0..pairs {
        tokens.extend(rectangle(i as i32).union(rectangle(i as i32 + 1)).0);
    }
    for _ in 1..pairs {
        tokens.push(ShapeOrOp::Op(Operator::Xor));
    }
    Shape(tokens)
}

#[test]
fn a_root_rectangle_is_drawn_once() {
    let mut layout = Layout::new();
    layout.insert_root_widget(Canvas { shape: rectangle(0) });
    let first = draw_frame(&mut layout, &FontRender::new(), Vec2::new(640, 480), false).ok().unwrap();
    assert_eq!(first.redraw_rect, Some(Rect::window()));
    assert_eq!(first.stack_len, 2);
    assert_eq!(first.commands.len(), 5);
    assert_eq!(first.commands[4].command, CommandGpu::Fill.code());
    assert_eq!(first.commands[4].slots[0], [0, 255, 0, 255]);
    assert_eq!(first.commands[1].slots[0], [0, 0, i32::MAX, i32::MAX]);
    let second = draw_frame(&mut layout, &FontRender::new(), Vec2::new(640, 480), false).ok().unwrap();
    assert_eq!(second.redraw_rect, None);
    assert!(second.commands.is_empty());
    assert_eq!(second.stack_len, 0);
}

#[test]
fn a_forced_frame_draws_everything_again() {
    let mut layout = Layout::new();
    layout.insert_root_widget(Canvas { shape: rectangle(0) });
    layout.add_widget(LayoutId(0), Canvas { shape: rectangle(1) });
    draw_frame(&mut layout, &FontRender::new(), Vec2::new(100, 100), false).ok().unwrap();
    let forced = draw_frame(&mut layout, &FontRender::new(), Vec2::new(100, 100), true).ok().unwrap();
    assert_eq!(forced.redraw_rect, Some(Rect::window()));
    assert_eq!(forced.commands.len(), 10);
    assert_eq!(forced.commands[0].slots[0], [1, 0, 6, 5]);
    assert_eq!(forced.commands[1].slots[0], [0, 0, 10, 10]);
    assert_eq!(forced.commands[5].slots[0], [0, 0, 5, 5]);
}

#[test]
fn a_frame_that_needs_too_many_registers_is_refused() {
    let mut layout = Layout::new();
    layout.insert_root_widget(Canvas { shape: deep(62) });
    let fine = draw_frame(&mut layout, &FontRender::new(), Vec2::new(100, 100), false).ok().unwrap();
    assert_eq!(fine.stack_len, 63);
    let mut layout = Layout::new();
    layout.insert_root_widget(Canvas { shape: deep(63) });
    let refused = draw_frame(&mut layout, &FontRender::new(), Vec2::new(100, 100), false).err().unwrap();
    assert_eq!(refused, FrameError::StackOverflow { max: STACK_SIZE, current: 64 });
    assert_eq!(STACK_SIZE, 64);
}

#[test]
fn invalid_shapes_do_not_stop_a_frame() {
    let mut layout = Layout::new();
    layout.insert_root_widget(Canvas { shape: Shape(vec![ShapeOrOp::Op(Operator::Or)]) });
    let frame = draw_frame(&mut layout, &FontRender::new(), Vec2::new(100, 100), false).ok().unwrap();
    assert_eq!(frame.redraw_rect, Some(Rect::window()));
    assert!(frame.commands.is_empty());
    assert_eq!(frame.stack_len, 0);
}

fn painted(shapes: Vec<Shape>) -> Painter {
    let mut painter = Painter::new(Vec2::new(100, 100));
    painter.set_clip_rect(Rect::new(0, 0, 100, 100));
    painter.set_fill_mode(FillMode::Color(Color::new(0, 255, 0, 255)));
    for shape in shapes {
        painter.draw_shape(shape);
    }
    painter
}

#[test]
fn a_frame_with_nothing_to_draw_again_is_empty() {
    let frame = compile_frame(painted(vec![rectangle(0)]), None, &FontRender::new(), false).ok().unwrap();
    assert!(frame.commands.is_empty());
    assert_eq!(frame.stack_len, 0);
    assert_eq!(frame.redraw_rect, None);
    // Even a frame that would need too many registers.
    assert!(compile_frame(painted(vec![deep(63)]), None, &FontRender::new(), false).is_ok());
}

#[test]
fn a_frame_is_compiled_for_its_rectangle() {
    let fonts = FontRender::new();
    let area = Rect::new(0, 0, 50, 50);
    let shapes = vec![rectangle(0), rectangle(200), Shape(vec![ShapeOrOp::Op(Operator::Or)]), rectangle(3)];
    let frame = compile_frame(painted(shapes.clone()), Some(area), &fonts, false).ok().unwrap();
    // The shapes that can be compiled, compiled for the rectangle.
    let mut kept = painted(shapes.clone());
    assert_eq!(kept.drop_invalid_shapes(), 1);
    let (commands, depth) = kept.parse(&fonts, area);
    assert_eq!(frame.commands, commands);
    assert_eq!(frame.stack_len, depth);
    assert_eq!(frame.redraw_rect, Some(area));
    assert_eq!(depth, 2);
    // The two rectangles that show in it, the shape drawn last first.
    let last: ShapeToDraw = painted(vec![rectangle(3)]).shapes.pop().unwrap();
    let first: ShapeToDraw = painted(vec![rectangle(0)]).shapes.pop().unwrap();
    let mut expected = last.parse(&fonts).0;
    expected.extend(first.parse(&fonts).0);
    assert_eq!(frame.commands, expected);
    // A forced frame is compiled for the whole window.
    let forced = compile_frame(painted(shapes.clone()), Some(area), &fonts, true).ok().unwrap();
    assert_eq!(forced.redraw_rect, Some(Rect::window()));
    let mut kept = painted(shapes.clone());
    kept.drop_invalid_shapes();
    assert_eq!(forced.commands, kept.parse(&fonts, Rect::window()).0);
    let forced = compile_frame(painted(shapes), None, &fonts, true).ok().unwrap();
    assert_eq!(forced.redraw_rect, Some(Rect::window()));
    assert!(!forced.commands.is_empty());
}

#[test]
fn the_frame_is_refused_exactly_at_the_ceiling() {
    let fonts = FontRender::new();
    let area = Some(Rect::new(0, 0, 50, 50));
    let fine = compile_frame(painted(vec![deep(62)]), area, &fonts, false).ok().unwrap();
    assert_eq!(fine.stack_len, 63);
    let refused = compile_frame(painted(vec![rectangle(0), deep(63)]), area, &fonts, false);
    assert_eq!(refused.err(), Some(FrameError::StackOverflow { max: STACK_SIZE, current: 64 }));
    let refused = compile_frame(painted(vec![deep(70)]), None, &fonts, true);
    assert_eq!(refused.err(), Some(FrameError::StackOverflow { max: 64, current: 71 }));
    // What does not show in the rectangle asks for no register.
    let far = Some(Rect::new(5000, 5000, 10, 10));
    let frame = compile_frame(painted(vec![deep(63)]), far, &fonts, false).ok().unwrap();
    assert!(frame.commands.is_empty());
    assert_eq!(frame.stack_len, 0);
    assert_eq!(frame.redraw_rect, far);
}
