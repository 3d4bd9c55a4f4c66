use nablo_ui::math::color::Color;
use nablo_ui::math::rect::Rect;
use nablo_ui::math::transform2d::Transform2D;
use nablo_ui::math::vec2::Vec2;
use nablo_ui::render::commands::{BlendMode, CommandGpu, DrawCommandGpu, OperationGpu};
use nablo_ui::render::font_render::{
    font_of, place_of, FontRender, GlyphPlace, CHAR_TEXTURE_SIZE, DEFAULT_FONT_LAYERS, FONT_TEXTURE_SIZE,
};
use nablo_ui::render::painter::{get_stack, get_transform, hanle_binary_op, Painter, ShapeOrStack, ShapeToDraw};
use nablo_ui::render::shape::{BasicShape, BasicShapeData, FillMode, Operator, Shape, ShapeOrOp};
use nablo_ui::render::texture::{
    bytes_per_row, check_texture_size, grown, upload_of, CreateTextureError, InsertPlan, Texture, TextureArray,
    TexturePool, Upload, DEFAULT_TEXTURE_LAYER, MAX_TEXTURE_BUFFERS, MAX_TEXTURE_LAYERS_PER_BUFFER,
    TEXTURE_LAYER_MUL_THRESHOLD,
};

fn rect_data(x: i32, y: i32, w: i32, h: i32) -> BasicShapeData {
    BasicShapeData::Rectangle(Vec2::new(x, y), Vec2::new(x + w, y + h), Color::same(0))
}

fn rect_shape(x: i32, y: i32, w: i32, h: i32) -> Shape {
    Shape::from_data(rect_data(x, y, w, h))
}

fn red() -> FillMode {
    FillMode::Color(Color::new(255, 0, 0, 255))
}

fn to_draw(shape: Shape) -> ShapeToDraw {
    ShapeToDraw { shape, fill_mode: red(), blend_mode: BlendMode::AlphaAdd, clip_rect: Rect::new(0, 0, 100, 100) }
}

fn command(command: CommandGpu, slots: [[i32; 4]; 4], operation: OperationGpu, lhs: u32) -> DrawCommandGpu {
    DrawCommandGpu {
        command: command.code(),
        stroke_width: -1,
        parameter: 0,
        smooth_function: 0,
        slots,
        operation: operation.code(),
        smooth_parameter: 0,
        lhs,
    }
}

fn closing(clip: [i32; 4], fill: [i32; 4]) -> Vec<DrawCommandGpu> {
    vec![
        command(CommandGpu::DrawRectangle, [clip, [0; 4], [0; 4], [0; 4]], OperationGpu::And, 1),
        command(CommandGpu::Load, [[1, 0, 0, 0], [0; 4], [0; 4], [0; 4]], OperationGpu::Or, 0),
        command(CommandGpu::SetBlendMode, [[7, 0, 0, 0], [0; 4], [0; 4], [0; 4]], OperationGpu::Nop, 0),
        command(CommandGpu::Fill, [fill, [0; 4], [0; 4], [0; 4]], OperationGpu::Nop, 0),
    ]
}

#[test]
fn codes_are_fixed() {
    assert_eq!(CommandGpu::Nop.code(), 0);
    assert_eq!(CommandGpu::DrawChar.code(), 7);
    assert_eq!(CommandGpu::Load.code(), 14);
    assert_eq!(OperationGpu::Replace.code(), 1);
    assert_eq!(OperationGpu::Sigmoid.code(), 11);
    assert_eq!(BlendMode::Replace.code(), 0);
    assert_eq!(BlendMode::AlphaAdd.code(), 7);
    assert_eq!(BlendMode::default(), BlendMode::AlphaAdd);
    assert_eq!(OperationGpu::default(), OperationGpu::ReplaceWhenInside);
    assert_eq!(CommandGpu::default(), CommandGpu::Nop);
    assert_eq!(DrawCommandGpu::default().lhs, 0);
}

#[test]
fn a_single_leaf_is_committed_to_register_one() {
    let (commands, depth) = to_draw(rect_shape(1, 2, 3, 4)).parse(&FontRender::new());
    let mut expected = vec![command(
        CommandGpu::DrawRectangle,
        [[1, 2, 4, 6], [0; 4], [0; 4], [0; 4]],
        OperationGpu::Replace,
        1,
    )];
    expected.extend(closing([0, 0, 100, 100], [255, 0, 0, 255]));
    assert_eq!(commands, expected);
    assert_eq!(depth, 2);
}

#[test]
fn union_of_two_rectangles_needs_two_registers() {
    let shape = rect_shape(0, 0, 10, 10).union(rect_shape(20, 20, 10, 10));
    let (commands, depth) = to_draw(shape).parse(&FontRender::new());
    assert_eq!(depth, 2);
    let mut expected = vec![
        command(CommandGpu::DrawRectangle, [[0, 0, 10, 10], [0; 4], [0; 4], [0; 4]], OperationGpu::Replace, 1),
        command(CommandGpu::DrawRectangle, [[20, 20, 30, 30], [0; 4], [0; 4], [0; 4]], OperationGpu::Or, 1),
    ];
    expected.extend(closing([0, 0, 100, 100], [255, 0, 0, 255]));
    assert_eq!(commands, expected);
}

#[test]
fn a_left_folded_chain_accumulates_in_one_register() {
    let mut shape = rect_shape(0, 0, 10, 10);
    for i in 1..6 {
        shape = shape.intersection(rect_shape(i, i, 10, 10));
    }
    assert!(shape.is_valid());
    let (commands, depth) = to_draw(shape).parse(&FontRender::new());
    let scratch = commands.iter().map(|c| c.lhs).max().unwrap();
    assert_eq!(scratch, 1);
    assert_eq!(depth - 1, 1);
    assert_eq!(commands.len(), 6 + 4);
    assert_eq!(commands[0].operation, OperationGpu::Replace.code());
    for c in &commands[1..6] {
        assert_eq!(c.operation, OperationGpu::And.code());
        assert_eq!(c.lhs, 1);
    }
}

#[test]
fn two_registers_are_merged_into_the_lower_one() {
    let left = rect_shape(0, 0, 10, 10).union(rect_shape(1, 1, 10, 10));
    let right = rect_shape(2, 2, 10, 10).union(rect_shape(3, 3, 10, 10));
    let shape = left.difference(right);
    let (commands, depth) = to_draw(shape).parse(&FontRender::new());
    assert_eq!(depth, 3);
    assert_eq!(commands[0].lhs, 1);
    assert_eq!(commands[1].lhs, 1);
    assert_eq!(commands[2].lhs, 2);
    assert_eq!(commands[3].lhs, 2);
    assert_eq!(
        commands[4],
        command(CommandGpu::Load, [[2, 0, 0, 0], [0; 4], [0; 4], [0; 4]], OperationGpu::Sub, 1)
    );
    assert_eq!(commands.len(), 5 + 4);
}

#[test]
fn not_negates_in_place() {
    let shape = rect_shape(0, 0, 10, 10).complement();
    let (commands, depth) = to_draw(shape).parse(&FontRender::new());
    assert_eq!(depth, 2);
    assert_eq!(commands[0].operation, OperationGpu::Neg.code());
    assert_eq!(commands[0].lhs, 1);
    assert_eq!(commands.len(), 1 + 4);
    let shape = rect_shape(0, 0, 10, 10).union(rect_shape(1, 1, 10, 10)).complement();
    let (commands, depth) = to_draw(shape).parse(&FontRender::new());
    assert_eq!(depth, 2);
    assert_eq!(
        commands[2],
        command(CommandGpu::Load, [[1, 0, 0, 0], [0; 4], [0; 4], [0; 4]], OperationGpu::Neg, 1)
    );
}

#[test]
fn a_register_and_a_shape_need_one_draw() {
    let pair = rect_shape(0, 0, 10, 10).union(rect_shape(1, 1, 10, 10));
    let shape = rect_shape(5, 5, 1, 1).lerp(pair, 64);
    let (commands, depth) = to_draw(shape).parse(&FontRender::new());
    assert_eq!(depth, 2);
    assert_eq!(commands.len(), 3 + 4);
    assert_eq!(commands[2].command, CommandGpu::DrawRectangle.code());
    assert_eq!(commands[2].operation, OperationGpu::Lerp.code());
    assert_eq!(commands[2].parameter, 64);
    assert_eq!(commands[2].lhs, 1);
    assert_eq!(commands[2].slots[0], [5, 5, 6, 6]);
}

#[test]
fn transform_commands_come_only_with_a_change() {
    let moved = Transform2D::translate(Vec2::new(5, 5));
    let a = BasicShape::new(rect_data(0, 0, 10, 10)).transform(moved);
    let b = BasicShape::new(rect_data(1, 1, 10, 10)).transform(moved);
    let c = BasicShape::new(rect_data(2, 2, 10, 10));
    let shape = Shape::from_shape(a).union(Shape::from_shape(b)).union(Shape::from_shape(c));
    let (commands, _) = to_draw(shape).parse(&FontRender::new());
    let kinds: Vec<u32> = commands.iter().map(|c| c.command).collect();
    let set = CommandGpu::SetMat3x3.code();
    let draw = CommandGpu::DrawRectangle.code();
    assert_eq!(&kinds[..5], &[set, draw, draw, set, draw]);
    assert_eq!(commands[0], get_transform(moved));
    assert_eq!(commands[0].slots, [[1, 0, 5, 0], [1, 5, 0, 0], [1, 0, 0, 0], [0; 4]]);
    assert_eq!(commands[3], get_transform(Transform2D::identity()));
    assert_eq!(kinds.len(), 5 + 4);
    let last = BasicShape::new(rect_data(0, 0, 10, 10)).transform(moved);
    let (commands, _) = to_draw(Shape::from_shape(last)).parse(&FontRender::new());
    assert_eq!(commands[2], get_transform(Transform2D::identity()));
    assert_eq!(commands.len(), 2 + 1 + 4);
}

#[test]
fn strokes_and_fills_reach_the_commands() {
    let shape = Shape::from_shape(BasicShape::new(BasicShapeData::Circle(Vec2::new(5, 6), 7)).stroke(3));
    let mut draw = to_draw(shape);
    draw.fill_mode = FillMode::LinearGradient(
        Color::new(255, 255, 255, 255),
        Color::new(100, 50, 0, 51),
        Vec2::new(1, 2),
        Vec2::new(3, 4),
    );
    draw.blend_mode = BlendMode::Multiply;
    draw.clip_rect = Rect::new(5, 5, 10, 20);
    let (commands, _) = draw.parse(&FontRender::new());
    assert_eq!(commands[0].command, CommandGpu::DrawCircle.code());
    assert_eq!(commands[0].stroke_width, 3);
    assert_eq!(commands[0].slots[0], [5, 6, 7, 0]);
    assert_eq!(commands[1].slots[0], [5, 5, 15, 25]);
    assert_eq!(commands[3].slots[0], [2, 0, 0, 0]);
    assert_eq!(commands[4].command, CommandGpu::FillLinearGradient.code());
    assert_eq!(commands[4].slots, [[255, 255, 255, 255], [20, 10, 0, 51], [1, 2, 3, 4], [0; 4]]);
}

#[test]
fn fill_modes_compile() {
    assert_eq!(
        FillMode::Color(Color::new(10, 20, 30, 255)).compile(),
        (CommandGpu::Fill, [[10, 20, 30, 255], [0; 4], [0; 4], [0; 4]])
    );
    assert_eq!(
        FillMode::RadialGradient(Color::white(), Color::transparent(), Vec2::new(1, 2), 9).compile(),
        (CommandGpu::FillRadialGradient, [[255, 255, 255, 255], [0, 0, 0, 0], [1, 2, 9, 0], [0; 4]])
    );
    assert_eq!(
        FillMode::Texture(4, Vec2::new(1, 2), Vec2::new(3, 4), Vec2::new(5, 6), Vec2::new(7, 8)).compile(),
        (CommandGpu::FillTexture, [[1, 2, 3, 4], [5, 6, 7, 8], [4, 0, 0, 0], [0; 4]])
    );
    assert!(FillMode::default().is_invisible());
    assert!(!FillMode::Texture(0, Vec2::zero(), Vec2::zero(), Vec2::zero(), Vec2::zero()).is_invisible());
    assert!(FillMode::LinearGradient(Color::transparent(), Color::new(1, 1, 1, 0), Vec2::zero(), Vec2::zero()).is_invisible());
    let mut fill = FillMode::RadialGradient(Color::white(), Color::white(), Vec2::new(1, 2), 9);
    fill.move_by(Vec2::new(10, 10));
    assert_eq!(fill, FillMode::RadialGradient(Color::white(), Color::white(), Vec2::new(11, 12), 9));
}

#[test]
fn basic_shapes_compile() {
    let glyphs = FontRender::new();
    assert_eq!(
        BasicShapeData::Triangle(Vec2::new(1, 2), Vec2::new(3, 4), Vec2::new(5, 6)).compile(&glyphs),
        Some((CommandGpu::DrawTriangle, [[1, 2, 3, 4], [5, 6, 0, 0], [0; 4], [0; 4]]))
    );
    assert_eq!(
        BasicShapeData::Rectangle(Vec2::new(1, 2), Vec2::new(3, 4), Color::new(5, 6, 7, 8)).compile(&glyphs),
        Some((CommandGpu::DrawRectangle, [[1, 2, 3, 4], [5, 6, 7, 8], [0; 4], [0; 4]]))
    );
    assert_eq!(
        BasicShapeData::HalfPlane(Vec2::new(1, 2), Vec2::new(3, 4)).compile(&glyphs),
        Some((CommandGpu::DrawHalfPlane, [[1, 2, 3, 4], [0; 4], [0; 4], [0; 4]]))
    );
    assert_eq!(
        BasicShapeData::QuadBezierPlane(Vec2::new(1, 2), Vec2::new(3, 4), Vec2::new(5, 6)).compile(&glyphs),
        Some((CommandGpu::DrawQuadPlane, [[1, 2, 3, 4], [5, 6, 0, 0], [0; 4], [0; 4]]))
    );
    assert_eq!(
        BasicShapeData::SDFTexture(Vec2::new(1, 2), Vec2::new(3, 4), 9).compile(&glyphs),
        Some((CommandGpu::DrawSDFTexture, [[1, 2, 3, 4], [9, 0, 0, 0], [0; 4], [0; 4]]))
    );
    assert_eq!(
        BasicShapeData::SDFTexture(Vec2::new(1, 2), Vec2::new(3, 4), u32::MAX).compile(&glyphs),
        Some((CommandGpu::DrawSDFTexture, [[1, 2, 3, 4], [i32::MAX, 0, 0, 0], [0; 4], [0; 4]]))
    );
}

#[test]
fn a_missing_glyph_leaves_the_shape_out() {
    let text = BasicShapeData::Text(Vec2::new(1, 2), 3, 16, 'x');
    let mut glyphs = FontRender::new();
    assert_eq!(text.compile(&glyphs), None);
    assert_eq!(glyphs.char_slot('x', 3), None);
    let shape = rect_shape(0, 0, 10, 10).union(Shape::from_data(text));
    assert_eq!(to_draw(shape.clone()).parse(&glyphs), (vec![], 0));
    assert_eq!(to_draw(Shape::from_data(text)).parse(&glyphs), (vec![], 0));
    glyphs.insert_char('x', 3, 42);
    assert_eq!(glyphs.char_slot('x', 3), Some(42));
    assert_eq!(glyphs.char_slot('x', 4), None);
    assert_eq!(glyphs.char_slot('y', 3), None);
    assert_eq!(
        text.compile(&glyphs),
        Some((CommandGpu::DrawChar, [[1, 2, 16, 42], [0; 4], [0; 4], [0; 4]]))
    );
    let (commands, depth) = to_draw(shape).parse(&glyphs);
    assert_eq!(depth, 2);
    assert_eq!(commands[1].command, CommandGpu::DrawChar.code());
    glyphs.remove_char('x', 3);
    assert_eq!(glyphs.char_slot('x', 3), None);
}

#[test]
fn an_invisible_fill_compiles_to_nothing() {
    let mut draw = to_draw(rect_shape(0, 0, 10, 10));
    draw.fill_mode = FillMode::Color(Color::new(255, 0, 0, 0));
    assert!(!draw.is_visible_in_rect(Rect::window()));
    assert_eq!(draw.parse(&FontRender::new()), (vec![], 0));
}

#[test]
fn binary_operators_by_their_operands() {
    let glyphs = FontRender::new();
    let a = BasicShape::new(rect_data(0, 0, 1, 1));
    let b = BasicShape::new(rect_data(2, 2, 1, 1));
    let mut transform = Transform2D::identity();
    let mut used = 0;
    let (commands, result) =
        hanle_binary_op(Operator::Xor, ShapeOrStack::Shape(a), ShapeOrStack::Shape(b), &mut transform, &glyphs, &mut used)
            .unwrap();
    assert_eq!(used, 1);
    assert_eq!(result, ShapeOrStack::Stack(1));
    assert_eq!(commands.len(), 2);
    assert_eq!(commands[1].operation, OperationGpu::Xor.code());
    let (commands, result) =
        hanle_binary_op(Operator::And, ShapeOrStack::Shape(a), ShapeOrStack::Stack(1), &mut transform, &glyphs, &mut used)
            .unwrap();
    assert_eq!(used, 1);
    assert_eq!(result, ShapeOrStack::Stack(1));
    assert_eq!(commands.len(), 1);
    used = 2;
    let (commands, result) = hanle_binary_op(
        Operator::SmoothStep(9),
        ShapeOrStack::Stack(1),
        ShapeOrStack::Stack(2),
        &mut transform,
        &glyphs,
        &mut used,
    )
    .unwrap();
    assert_eq!(used, 1);
    assert_eq!(result, ShapeOrStack::Stack(1));
    let mut expected = get_stack(2, OperationGpu::SmoothStep, 9);
    expected.lhs = 1;
    assert_eq!(commands, vec![expected]);
    let text = BasicShape::new(BasicShapeData::Text(Vec2::zero(), 0, 16, 'q'));
    assert!(hanle_binary_op(
        Operator::Or,
        ShapeOrStack::Shape(a),
        ShapeOrStack::Shape(text),
        &mut transform,
        &glyphs,
        &mut used
    )
    .is_none());
}

#[test]
fn shapes_are_valid_programs() {
    let a = rect_shape(0, 0, 1, 1);
    assert!(a.is_valid());
    assert!(!Shape(vec![]).is_valid());
    assert!(!Shape(vec![ShapeOrOp::Op(Operator::Not)]).is_valid());
    let leaf = ShapeOrOp::Shape(BasicShape::new(rect_data(0, 0, 1, 1)));
    assert!(!Shape(vec![leaf, leaf]).is_valid());
    assert!(!Shape(vec![leaf, ShapeOrOp::Op(Operator::Or)]).is_valid());
    assert!(Shape(vec![leaf, leaf, ShapeOrOp::Op(Operator::Or)]).is_valid());
    let built = rect_shape(0, 0, 1, 1)
        .symmetric_difference(rect_shape(1, 1, 1, 1))
        .smoothstep(rect_shape(2, 2, 1, 1), 5)
        .sigmoid(rect_shape(3, 3, 1, 1).complement(), 7);
    assert!(built.is_valid());
    assert_eq!(built.0.len(), 8);
    assert_eq!(built.0[2], ShapeOrOp::Op(Operator::Xor));
    assert_eq!(built.0[7], ShapeOrOp::Op(Operator::Sigmoid(7)));
}

#[test]
fn bounds_of_basic_shapes() {
    assert_eq!(BasicShapeData::Circle(Vec2::new(10, 10), 4).bounded_rect(), Rect::new(6, 6, 8, 8));
    assert_eq!(
        BasicShapeData::Triangle(Vec2::new(5, 1), Vec2::new(1, 9), Vec2::new(7, 4)).bounded_rect(),
        Rect::new(1, 1, 6, 8)
    );
    assert_eq!(BasicShapeData::HalfPlane(Vec2::zero(), Vec2::same(1)).bounded_rect(), Rect::window());
    assert_eq!(BasicShapeData::Text(Vec2::new(3, 4), 0, 16, 'a').bounded_rect(), Rect::new(3, 4, 16, 16));
    assert_eq!(BasicShape::new(rect_data(0, 0, 10, 10)).stroke(4).bounded_rect(), Rect::new(-2, -2, 14, 14));
    assert_eq!(BasicShape::new(rect_data(0, 0, 10, 10)).stroke(3).bounded_rect(), Rect::new(-2, -2, 14, 14));
    assert_eq!(
        BasicShape::new(rect_data(0, 0, 10, 10)).then_translate(Vec2::new(5, 6)).bounded_rect(),
        Rect::new(5, 6, 10, 10)
    );
    let mut data = BasicShapeData::QuadBezierPlane(Vec2::new(1, 1), Vec2::new(2, 5), Vec2::new(3, 1));
    data.move_by(Vec2::new(10, 20));
    assert_eq!(data, BasicShapeData::QuadBezierPlane(Vec2::new(11, 21), Vec2::new(12, 25), Vec2::new(13, 21)));
}

#[test]
fn bounds_follow_the_operators() {
    let a = || rect_shape(0, 0, 10, 10);
    let b = || rect_shape(5, 5, 10, 10);
    assert_eq!(a().union(b()).bounded_rect(), Rect::new(0, 0, 15, 15));
    assert_eq!(a().symmetric_difference(b()).bounded_rect(), Rect::new(0, 0, 15, 15));
    assert_eq!(a().intersection(b()).bounded_rect(), Rect::new(5, 5, 5, 5));
    assert_eq!(a().difference(b()).bounded_rect(), Rect::new(5, 5, 10, 10));
    assert_eq!(a().complement().bounded_rect(), Rect::window());
    assert_eq!(a().lerp(rect_shape(100, 100, 30, 30), 128).bounded_rect(), Rect::new(50, 50, 20, 20));
    assert_eq!(a().smoothstep(rect_shape(100, 100, 30, 30), 64).bounded_rect(), Rect::new(25, 25, 15, 15));
    assert_eq!(a().sigmoid(b(), 3).bounded_rect(), Rect::new(0, 0, 15, 15));
    assert_eq!(Shape(vec![]).bounded_rect(), Rect::zero());
}

#[test]
fn shapes_move_and_transform() {
    let shape = rect_shape(0, 0, 10, 10).union(rect_shape(5, 5, 10, 10));
    let moved = shape.move_by(Vec2::new(3, 4));
    assert_eq!(moved.bounded_rect(), Rect::new(3, 4, 15, 15));
    let scaled = moved.transform(Transform2D::scale(Vec2::new(2, 2)));
    assert_eq!(scaled.bounded_rect(), Rect::new(6, 8, 30, 30));
    assert_eq!(scaled.0[2], ShapeOrOp::Op(Operator::Or));
}

#[test]
fn the_painter_keeps_what_is_drawn() {
    let mut painter = Painter::new(Vec2::new(100, 100));
    assert_eq!(painter.releative_to(), Vec2::zero());
    assert_eq!(painter.clip_rect(), Rect::zero());
    painter.set_relative_to(Vec2::new(10, 20));
    painter.set_clip_rect(Rect::new(10, 20, 30, 40));
    painter.set_fill_mode(FillMode::LinearGradient(Color::white(), Color::white(), Vec2::zero(), Vec2::same(5)));
    painter.set_blend_mode(BlendMode::Add);
    painter.then_translate(Vec2::new(1, 1));
    painter.draw_rect(Rect::new(0, 0, 5, 5), Color::same(2));
    assert_eq!(painter.shapes.len(), 1);
    let kept = &painter.shapes[0];
    assert_eq!(kept.clip_rect, Rect::new(10, 20, 30, 40));
    assert_eq!(kept.blend_mode, BlendMode::Add);
    assert_eq!(
        kept.fill_mode,
        FillMode::LinearGradient(Color::white(), Color::white(), Vec2::new(10, 20), Vec2::new(15, 25))
    );
    assert_eq!(
        kept.shape.0,
        vec![ShapeOrOp::Shape(BasicShape {
            data: BasicShapeData::Rectangle(Vec2::new(10, 20), Vec2::new(15, 25), Color::same(2)),
            transform: Transform2D::translate(Vec2::new(1, 1)),
            stroke: None,
        })]
    );
    painter.reset_transform();
    painter.reset_blend_mode();
    painter.reset_fill_mode();
    assert_eq!(painter.transform, Transform2D::identity());
    assert_eq!(painter.blend_mode, BlendMode::AlphaAdd);
    assert_eq!(painter.fill_mode, FillMode::default());
    painter.draw_stroked_circle(Vec2::new(1, 1), 5, 2);
    painter.draw_line(Vec2::zero(), Vec2::same(9), 1);
    painter.draw_triangle(Vec2::zero(), Vec2::same(9), Vec2::new(0, 9));
    painter.draw_sdf_texture(Rect::new(0, 0, 4, 4), 7);
    assert_eq!(painter.shapes.len(), 5);
    assert_eq!(
        painter.shapes[4].shape.0,
        vec![ShapeOrOp::Shape(BasicShape::new(BasicShapeData::SDFTexture(
            Vec2::new(20, 40),
            Vec2::new(24, 44),
            7
        )))]
    );
    let detailed = ShapeToDraw {
        shape: rect_shape(0, 0, 1, 1),
        fill_mode: red(),
        blend_mode: BlendMode::Max,
        clip_rect: Rect::new(0, 0, 20, 30),
    };
    painter.draw_shape_detailed(detailed);
    assert_eq!(painter.shapes[5].clip_rect, Rect::new(10, 20, 10, 10));
    assert_eq!(painter.shapes[5].blend_mode, BlendMode::Max);
}

#[test]
fn what_is_drawn_last_is_compiled_first() {
    let mut painter = Painter::new(Vec2::new(100, 100));
    painter.set_clip_rect(Rect::new(0, 0, 100, 100));
    painter.set_fill_mode(FillMode::Color(Color::new(255, 0, 0, 255)));
    painter.draw_rect(Rect::new(0, 0, 50, 50), Color::same(0));
    painter.set_fill_mode(FillMode::Color(Color::new(0, 0, 255, 255)));
    painter.draw_rect(Rect::new(25, 25, 50, 50), Color::same(0));
    let (commands, depth) = painter.parse(&FontRender::new(), Rect::new(0, 0, 100, 100));
    assert_eq!(depth, 2);
    assert_eq!(commands.len(), 10);
    assert_eq!(commands[0].slots[0], [25, 25, 75, 75]);
    assert_eq!(commands[4].command, CommandGpu::Fill.code());
    assert_eq!(commands[4].slots[0], [0, 0, 255, 255]);
    assert_eq!(commands[5].slots[0], [0, 0, 50, 50]);
    assert_eq!(commands[9].slots[0], [255, 0, 0, 255]);
    let fill_of_b = commands.iter().position(|c| c.slots[0] == [0, 0, 255, 255]).unwrap();
    let composite_of_a = commands.iter().rposition(|c| c.command == CommandGpu::Load.code()).unwrap();
    assert!(fill_of_b < composite_of_a);
}

#[test]
fn shapes_outside_the_redraw_rectangle_are_left_out() {
    let mut painter = Painter::new(Vec2::new(100, 100));
    painter.set_clip_rect(Rect::new(0, 0, 100, 100));
    painter.set_fill_mode(red());
    painter.draw_rect(Rect::new(0, 0, 10, 10), Color::same(0));
    painter.draw_rect(Rect::new(60, 60, 10, 10), Color::same(0));
    painter.draw_shape(Shape(vec![]));
    painter.set_clip_rect(Rect::new(0, 0, 20, 20));
    painter.draw_rect(Rect::new(60, 60, 10, 10), Color::same(0));
    assert!(painter.shapes[0].is_visible_in_rect(Rect::new(0, 0, 50, 50)));
    assert!(!painter.shapes[1].is_visible_in_rect(Rect::new(0, 0, 50, 50)));
    assert!(!painter.shapes[2].is_visible_in_rect(Rect::window()));
    assert!(!painter.shapes[3].is_visible_in_rect(Rect::new(50, 50, 50, 50)));
    let (commands, depth) = painter.parse(&FontRender::new(), Rect::new(50, 50, 50, 50));
    assert_eq!(commands.len(), 5);
    assert_eq!(commands[0].slots[0], [60, 60, 70, 70]);
    assert_eq!(depth, 2);
    let empty = Painter::new(Vec2::new(100, 100));
    assert_eq!(empty.parse(&FontRender::new(), Rect::window()), (vec![], 0));
}

#[test]
fn invalid_shapes_are_dropped() {
    let mut painter = Painter::new(Vec2::new(100, 100));
    painter.draw_shape(rect_shape(0, 0, 1, 1));
    painter.draw_shape(Shape(vec![ShapeOrOp::Op(Operator::And)]));
    painter.draw_shape(Shape(vec![]));
    painter.draw_shape(rect_shape(0, 0, 2, 2));
    assert_eq!(painter.drop_invalid_shapes(), 1);
    assert_eq!(painter.shapes.len(), 3);
    assert_eq!(painter.shapes[0].shape.0.len(), 1);
    assert_eq!(painter.shapes[1].shape.0.len(), 0);
    assert_eq!(painter.shapes[2].shape.bounded_rect(), Rect::new(0, 0, 2, 2));
}

#[test]
fn textures_have_a_largest_size() {
    assert_eq!(check_texture_size(2560, 2560), Ok(()));
    assert_eq!(check_texture_size(2561, 10), Err(CreateTextureError::TooLarge(2561, 10, 2560, 2560)));
    assert_eq!(check_texture_size(1, 4000), Err(CreateTextureError::TooLarge(1, 4000, 2560, 2560)));
}

#[test]
fn every_drawing_call_keeps_one_shape() {
    let mut painter = Painter::new(Vec2::new(100, 100));
    painter.set_transform(Transform2D::scale(Vec2::new(2, 2)));
    painter.pre_translate(Vec2::new(1, 0));
    painter.then_scale(Vec2::new(1, 3));
    painter.pre_scale(Vec2::new(1, 1));
    assert_eq!(painter.transform, Transform2D::column_major(2, 0, 1, 0, 6, 0));
    painter.reset_transform();
    painter.draw_stroked_rect(Rect::new(0, 0, 4, 4), Color::same(1), 2);
    painter.draw_circle(Vec2::new(5, 5), 3);
    painter.draw_stroked_triangle(Vec2::zero(), Vec2::new(4, 0), Vec2::new(0, 4), 1);
    painter.draw_half_plane(Vec2::zero(), Vec2::new(1, 1));
    painter.draw_quad_half_plane(Vec2::zero(), Vec2::new(2, 4), Vec2::new(4, 0));
    painter.draw_quad_bezier(Vec2::zero(), Vec2::new(2, 4), Vec2::new(4, 0), 3);
    let leaves: Vec<BasicShape> = painter
        .shapes
        .iter()
        .map(|kept| match kept.shape.0[..] {
            [ShapeOrOp::Shape(leaf)] => leaf,
            _ => panic!("one leaf is kept for each call"),
        })
        .collect();
    assert_eq!(
        leaves,
        vec![
            BasicShape::new(BasicShapeData::Rectangle(Vec2::zero(), Vec2::same(4), Color::same(1))).stroke(2),
            BasicShape::new(BasicShapeData::Circle(Vec2::new(5, 5), 3)),
            BasicShape::new(BasicShapeData::Triangle(Vec2::zero(), Vec2::new(4, 0), Vec2::new(0, 4))).stroke(1),
            BasicShape::new(BasicShapeData::HalfPlane(Vec2::zero(), Vec2::new(1, 1))),
            BasicShape::new(BasicShapeData::QuadBezierPlane(Vec2::zero(), Vec2::new(2, 4), Vec2::new(4, 0))),
            BasicShape::new(BasicShapeData::QuadBezierPlane(Vec2::zero(), Vec2::new(2, 4), Vec2::new(4, 0))).stroke(3),
        ]
    );
    assert_eq!(Shape::from(leaves[1]).0, vec![ShapeOrOp::Shape(leaves[1])]);
    assert_eq!(Shape::from(BasicShapeData::Circle(Vec2::new(5, 5), 3)).0, vec![ShapeOrOp::Shape(leaves[1])]);
    assert_eq!(BasicShape::from(BasicShapeData::Circle(Vec2::new(5, 5), 3)), leaves[1]);
    assert_eq!(
        leaves[1].pre_scale(Vec2::new(2, 2)).pre_translate(Vec2::new(1, 1)).then_scale(Vec2::new(3, 3)).transform,
        Transform2D::column_major(6, 0, 1, 0, 6, 1)
    );
}

#[test]
fn fills_get_brighter_and_fainter() {
    let mut fill = FillMode::Color(Color::new(10, 20, 30, 255));
    fill.brighter(5);
    assert_eq!(fill, FillMode::Color(Color::new(15, 25, 35, 260)));
    fill.mul_alpha(51);
    assert_eq!(fill, FillMode::Color(Color::new(15, 25, 35, 52)));
    let mut gradient = FillMode::LinearGradient(Color::new(0, 0, 0, 255), Color::new(9, 9, 9, 0), Vec2::zero(), Vec2::same(1));
    gradient.mul_alpha(128);
    assert_eq!(
        gradient,
        FillMode::LinearGradient(Color::new(0, 0, 0, 128), Color::new(9, 9, 9, 0), Vec2::zero(), Vec2::same(1))
    );
    gradient.brighter(-8);
    assert_eq!(
        gradient,
        FillMode::LinearGradient(Color::new(-8, -8, -8, 120), Color::new(1, 1, 1, -8), Vec2::zero(), Vec2::same(1))
    );
    let mut unseen = FillMode::Color(Color::new(10, 20, 30, 0));
    unseen.brighter(5);
    unseen.mul_alpha(5);
    assert_eq!(unseen, FillMode::Color(Color::new(10, 20, 30, 0)));
    let mut texture = FillMode::Texture(1, Vec2::zero(), Vec2::same(1), Vec2::zero(), Vec2::same(1));
    texture.brighter(5);
    assert_eq!(texture, FillMode::Texture(1, Vec2::zero(), Vec2::same(1), Vec2::zero(), Vec2::same(1)));
}

#[test]
fn operators_build_the_same_programs_as_the_methods() {
    let a = BasicShape::new(BasicShapeData::Circle(Vec2::new(5, 5), 3));
    let b = BasicShapeData::Circle(Vec2::new(9, 9), 1);
    let c = Shape::from_data(BasicShapeData::HalfPlane(Vec2::zero(), Vec2::new(1, 1)));
    let leaf_a = ShapeOrOp::Shape(a);
    let leaf_b = ShapeOrOp::Shape(BasicShape::new(b));
    let leaf_c = c.0[0];
    assert_eq!((Shape::from(a) | b).0, vec![leaf_a, leaf_b, ShapeOrOp::Op(Operator::Or)]);
    assert_eq!((Shape::from(a) & b).0, vec![leaf_a, leaf_b, ShapeOrOp::Op(Operator::And)]);
    assert_eq!((Shape::from(a) - b).0, vec![leaf_a, leaf_b, ShapeOrOp::Op(Operator::Minus)]);
    assert_eq!((Shape::from(a) ^ b).0, vec![leaf_a, leaf_b, ShapeOrOp::Op(Operator::Xor)]);
    assert_eq!((!Shape::from(a)).0, vec![leaf_a, ShapeOrOp::Op(Operator::Not)]);
    let all = (Shape::from(b) | a) - c;
    assert_eq!(
        all.0,
        vec![leaf_b, leaf_a, ShapeOrOp::Op(Operator::Or), leaf_c, ShapeOrOp::Op(Operator::Minus)]
    );
    assert!(all.is_valid());
}

#[test]
fn the_pool_decides_where_textures_go() {
    let mut pool = TexturePool::new();
    // The first texture creates the array, with four layers of its size.
    let plan = pool.insert_texture(100, 50).unwrap();
    assert_eq!(
        plan,
        InsertPlan {
            upload: Upload { texture_id: 0, array_index: 0, layer_index: 0, bytes_per_row: 512 },
            new_array: true,
            grow_to: None,
            changed: true,
        }
    );
    assert_eq!(pool.texture_array, vec![TextureArray { width: 100, height: 50, len: 4 }]);
    for id in 1..4 {
        let plan = pool.insert_texture(10, 10).unwrap();
        assert_eq!(plan.upload.texture_id, id);
        assert_eq!(plan.upload.layer_index, id);
        assert!(!plan.changed);
    }
    // The fifth texture needs a layer more: the array doubles.
    let plan = pool.insert_texture(10, 10).unwrap();
    assert_eq!((plan.upload.texture_id, plan.new_array, plan.grow_to, plan.changed), (4, false, Some(8), true));
    assert_eq!(pool.texture_array[0].len, 8);
    assert_eq!(
        pool.get_texture(4),
        Some(Texture { texture_id: 4, width: 10, height: 10, used_in_last_frame: true })
    );
    assert_eq!(pool.get_texture(5), None);
    assert_eq!(pool.textures.len(), 5);
}

#[test]
fn textures_are_refused_for_their_size() {
    let mut pool = TexturePool::new();
    assert_eq!(
        pool.insert_texture(2561, 1),
        Err(CreateTextureError::TooLarge(2561, 1, 2560, 2560))
    );
    assert_eq!(
        pool.insert_texture(1, 2561),
        Err(CreateTextureError::TooLarge(1, 2561, 2560, 2560))
    );
    assert!(pool.texture_array.is_empty());
    assert!(pool.insert_texture(2560, 2560).is_ok());
    let mut pool = TexturePool::new();
    pool.insert_texture(100, 50).unwrap();
    // The layers of the array are as large as its first texture.
    assert_eq!(pool.insert_texture(101, 50), Err(CreateTextureError::TooLarge(101, 50, 100, 50)));
    assert_eq!(pool.insert_texture(100, 51), Err(CreateTextureError::TooLarge(100, 51, 100, 50)));
    assert_eq!(pool.textures.len(), 1);
    assert_eq!(pool.insert_texture(100, 50).unwrap().upload.texture_id, 1);
}

#[test]
fn there_is_one_array_of_textures() {
    assert_eq!((DEFAULT_TEXTURE_LAYER, TEXTURE_LAYER_MUL_THRESHOLD), (4, 32));
    assert_eq!((MAX_TEXTURE_LAYERS_PER_BUFFER, MAX_TEXTURE_BUFFERS), (256, 1));
    let mut pool = TexturePool::new();
    // A texture with a high id that comes first would need a second array.
    pool.textures = (0..256)
        .map(|id| Texture { texture_id: id, width: 1, height: 1, used_in_last_frame: true })
        .collect();
    assert_eq!(pool.insert_texture(1, 1), Err(CreateTextureError::ReachedMaxLayers));
    assert!(pool.texture_array.is_empty());
    assert_eq!(pool.textures.len(), 256);
    assert_eq!(upload_of(256, 1).array_index, 1);
    assert_eq!(upload_of(511, 1).layer_index, 255);
    // An array grows in one step, however far the layer lies beyond it.
    let mut pool = TexturePool::new();
    pool.textures = (0..200)
        .map(|id| Texture { texture_id: id, width: 1, height: 1, used_in_last_frame: true })
        .collect();
    let plan = pool.insert_texture(1, 1).unwrap();
    assert_eq!((plan.upload.texture_id, plan.upload.layer_index), (200, 200));
    assert_eq!((plan.new_array, plan.grow_to), (true, Some(8)));
    assert_eq!(pool.texture_array, vec![TextureArray { width: 1, height: 1, len: 8 }]);
}

#[test]
fn arrays_double_and_then_grow_by_steps() {
    assert_eq!(grown(0), 0);
    assert_eq!(grown(4), 8);
    assert_eq!(grown(15), 30);
    assert_eq!(grown(16), 48);
    assert_eq!(grown(48), 80);
    assert_eq!(grown(u32::MAX - 32), u32::MAX);
    assert_eq!(grown(u32::MAX), u32::MAX);
    assert_eq!(bytes_per_row(0), 256);
    assert_eq!(bytes_per_row(63), 256);
    assert_eq!(bytes_per_row(64), 512);
    assert_eq!(bytes_per_row(2560), 10496);
    assert_eq!(bytes_per_row(u32::MAX), 17179869184);
}

#[test]
fn ids_of_the_pool_are_handed_out_again() {
    let mut pool = TexturePool::new();
    for _ in 0..3 {
        pool.insert_texture(8, 8).unwrap();
    }
    pool.remove_texture(0);
    pool.remove_texture(0);
    pool.remove_texture(7);
    pool.remove_texture(1);
    assert_eq!(pool.available_texture_ids.iter().copied().collect::<Vec<usize>>(), vec![0, 1]);
    assert_eq!(pool.insert_texture(8, 8).unwrap().upload.texture_id, 1);
    assert_eq!(pool.insert_texture(8, 8).unwrap().upload.texture_id, 0);
    assert_eq!(pool.insert_texture(8, 8).unwrap().upload.texture_id, 3);
    // An id whose texture is refused after it was taken is lost.
    pool.remove_texture(3);
    assert_eq!(pool.insert_texture(9, 8), Err(CreateTextureError::TooLarge(9, 8, 8, 8)));
    assert!(pool.available_texture_ids.is_empty());
    assert_eq!(pool.insert_texture(8, 8).unwrap().upload.texture_id, 3);
    // A texture that is too large for any array loses no id.
    pool.remove_texture(2);
    assert!(pool.insert_texture(5000, 8).is_err());
    assert_eq!(pool.available_texture_ids.len(), 1);
    pool.clear();
    assert!(pool.textures.is_empty() && pool.available_texture_ids.is_empty());
    assert_eq!(pool.texture_array.len(), 1);
    assert_eq!(pool.insert_texture(8, 8).unwrap().upload.texture_id, 0);
}

#[test]
fn a_texture_that_exists_can_be_changed() {
    let mut pool = TexturePool::new();
    pool.insert_texture(8, 8).unwrap();
    pool.insert_texture(8, 8).unwrap();
    assert_eq!(
        pool.update_texture(1, 70, 3),
        Ok(Upload { texture_id: 1, array_index: 0, layer_index: 1, bytes_per_row: 512 })
    );
    assert_eq!(
        pool.get_texture(1),
        Some(Texture { texture_id: 1, width: 70, height: 3, used_in_last_frame: true })
    );
    assert_eq!(pool.update_texture(2, 1, 1), Err(CreateTextureError::UpdateUnexistingTexture(2)));
    assert_eq!(pool.textures.len(), 2);
}

#[test]
fn unused_textures_are_cleaned_up() {
    let mut pool = TexturePool::new();
    for _ in 0..4 {
        pool.insert_texture(8, 8).unwrap();
    }
    pool.remove_texture(2);
    pool.textures[0].used_in_last_frame = false;
    pool.textures[2].used_in_last_frame = false;
    pool.cleanup();
    let left: Vec<u32> = pool.textures.iter().map(|texture| texture.texture_id).collect();
    assert_eq!(left, vec![1]);
    assert_eq!(pool.available_texture_ids.iter().copied().collect::<Vec<usize>>(), vec![2, 0, 3]);
    pool.cleanup();
    assert_eq!(pool.textures.len(), 1);
    assert_eq!(pool.insert_texture(8, 8).unwrap().upload.texture_id, 3);
    assert!(pool.is_sound());
    let twice = pool.textures[0];
    pool.textures.push(twice);
    assert!(!pool.is_sound());
}

#[test]
fn glyphs_get_slots_row_by_row() {
    assert_eq!((FONT_TEXTURE_SIZE, CHAR_TEXTURE_SIZE, DEFAULT_FONT_LAYERS), (2048, 64, 4));
    assert_eq!(place_of(0), (0, 0, 0));
    assert_eq!(place_of(1), (0, 64, 0));
    assert_eq!(place_of(31), (0, 1984, 0));
    assert_eq!(place_of(32), (0, 0, 64));
    assert_eq!(place_of(1023), (0, 1984, 1984));
    assert_eq!(place_of(1024), (1, 0, 0));
    assert_eq!(place_of(u32::MAX), (4194303, 1984, 1984));
    assert_eq!(font_of(0x0000_0007_0000_0041), 7);
    let mut fonts = FontRender::new();
    assert_eq!(
        fonts.add_char(7, 'A'),
        GlyphPlace { pos_id: 0, layer: 0, x: 0, y: 0, extended: false }
    );
    assert_eq!(fonts.add_char(7, 'B').pos_id, 1);
    assert_eq!(fonts.add_char(8, 'A').pos_id, 2);
    assert_eq!(fonts.char_slot('A', 7), Some(0));
    assert_eq!(fonts.char_slot('A', 8), Some(2));
    assert_eq!(fonts.char_slot('C', 7), None);
    assert_eq!(fonts.slots, vec![Some(0x7_0000_0041), Some(0x7_0000_0042), Some(0x8_0000_0041)]);
    assert_eq!(fonts.layers, 4);
}

#[test]
fn the_slots_of_a_font_are_given_back() {
    let mut fonts = FontRender::new();
    for chr in ['a', 'b', 'c'] {
        fonts.add_char(1, chr);
        fonts.add_char(2, chr);
    }
    fonts.remove_font(1);
    assert_eq!(fonts.char_slot('a', 1), None);
    assert_eq!(fonts.char_slot('c', 1), None);
    assert_eq!(fonts.char_slot('b', 2), Some(3));
    assert_eq!(fonts.char_texture_map.len(), 3);
    assert_eq!(fonts.empty_positions.iter().copied().collect::<Vec<usize>>(), vec![0, 2, 4]);
    assert_eq!(fonts.slots[0], None);
    // The slot that was given back last is handed out first.
    assert_eq!(fonts.add_char(3, 'x').pos_id, 4);
    assert_eq!(fonts.add_char(3, 'y').pos_id, 2);
    assert_eq!(fonts.add_char(3, 'z').pos_id, 0);
    assert_eq!(fonts.add_char(3, 'w').pos_id, 6);
    fonts.remove_font(9);
    assert_eq!(fonts.char_texture_map.len(), 7);
    assert!(fonts.empty_positions.is_empty());
}

#[test]
fn a_glyph_that_comes_again_leaves_its_slot_behind() {
    let mut fonts = FontRender::new();
    fonts.add_char(1, 'a');
    fonts.add_char(1, 'b');
    assert_eq!(fonts.add_char(1, 'a').pos_id, 2);
    assert_eq!(fonts.char_slot('a', 1), Some(2));
    assert_eq!(fonts.slots, vec![None, Some(0x1_0000_0062), Some(0x1_0000_0061)]);
    // The slot it had is lost: it was not given back, and the count of the
    // glyphs hands out a slot that is taken.
    assert_eq!(fonts.add_char(1, 'c').pos_id, 2);
    assert_eq!(fonts.char_slot('a', 1), Some(2));
    assert_eq!(fonts.char_slot('c', 1), Some(2));
}

#[test]
fn the_atlas_gets_a_layer_when_a_slot_lies_beyond_it() {
    let mut fonts = FontRender::new();
    fonts.char_texture_map = (0..4096u32).map(|n| (n as u64, n)).collect();
    let place = fonts.add_char(5, 'q');
    assert_eq!(place, GlyphPlace { pos_id: 4096, layer: 4, x: 0, y: 0, extended: true });
    assert_eq!(fonts.layers, 5);
    assert_eq!(fonts.slots.len(), 4097);
    assert!(!fonts.add_char(5, 'r').extended);
    assert_eq!(fonts.layers, 5);
}
