//! The painter: it collects the shapes that widgets draw and compiles them
//! into commands that work on a bounded stack of registers.

use vstd::prelude::*;
use crate::math::color::{Color, Vec4};
use crate::math::rect::Rect;
use crate::math::transform2d::Transform2D;
use crate::math::vec2::Vec2;
use crate::render::commands::{BlendMode, CommandGpu, DrawCommandGpu, OperationGpu};
use crate::render::font_render::{glyph_slot, FontRender};
use crate::render::shape::{
    lemma_prefix_depth,
    moved_token,
    stack_depth,
    transformed_token,
    BasicShape,
    BasicShapeData,
    FillMode,
    Operator,
    Shape,
    ShapeOrOp,
};

verus! {

/// An index as it stands in a slot: itself, or the largest `i32` where it
/// is larger than that.
pub open spec fn index_slot(index: u32) -> i32 {
    if index > i32::MAX as u32 {
        i32::MAX
    } else {
        index as i32
    }
}

fn slot_of_index(index: u32) -> (r: i32)
    ensures
        r == index_slot(index),
{
    if index > i32::MAX as u32 {
        i32::MAX
    } else {
        index as i32
    }
}

/// The command that reads register `stack_index` and combines it by `op`
/// into register 0.
pub open spec fn spec_get_stack(stack_index: u32, op: OperationGpu, parameter: i32) -> DrawCommandGpu {
    DrawCommandGpu {
        command: CommandGpu::Load.spec_code(),
        stroke_width: -1i32,
        parameter,
        smooth_function: 0,
        slots: [[index_slot(stack_index), 0, 0, 0], [0, 0, 0, 0], [0, 0, 0, 0], [0, 0, 0, 0]],
        operation: op.spec_code(),
        smooth_parameter: 0,
        lhs: 0,
    }
}

/// The command that makes `transform` the transform of the shapes that follow.
pub open spec fn spec_get_transform(transform: Transform2D) -> DrawCommandGpu {
    DrawCommandGpu {
        command: CommandGpu::SetMat3x3.spec_code(),
        stroke_width: -1i32,
        parameter: 0,
        smooth_function: 0,
        slots: [
            [transform.a, transform.b, transform.c, transform.d],
            [transform.e, transform.f, 0, 0],
            [1, 0, 0, 0],
            [0, 0, 0, 0],
        ],
        operation: OperationGpu::Nop.spec_code(),
        smooth_parameter: 0,
        lhs: 0,
    }
}

/// The command that reads register `stack_index` and combines it by `op`
/// into register 0.
pub fn get_stack(stack_index: u32, op: OperationGpu, parameter: i32) -> (c: DrawCommandGpu)
    ensures
        c == spec_get_stack(stack_index, op, parameter),
{
    DrawCommandGpu {
        command: CommandGpu::Load.code(),
        stroke_width: -1i32,
        parameter,
        smooth_function: 0,
        slots: [[slot_of_index(stack_index), 0, 0, 0], [0, 0, 0, 0], [0, 0, 0, 0], [0, 0, 0, 0]],
        operation: op.code(),
        smooth_parameter: 0,
        lhs: 0,
    }
}

/// The command that makes `transform` the transform of the shapes that follow.
pub fn get_transform(transform: Transform2D) -> (c: DrawCommandGpu)
    ensures
        c == spec_get_transform(transform),
{
    DrawCommandGpu {
        command: CommandGpu::SetMat3x3.code(),
        stroke_width: -1i32,
        parameter: 0,
        smooth_function: 0,
        slots: [
            [transform.a, transform.b, transform.c, transform.d],
            [transform.e, transform.f, 0, 0],
            [1, 0, 0, 0],
            [0, 0, 0, 0],
        ],
        operation: OperationGpu::Nop.code(),
        smooth_parameter: 0,
        lhs: 0,
    }
}

impl FillMode {
    /// The fill command and its operands; colours are premultiplied.
    pub open spec fn spec_compile(self) -> (CommandGpu, [[i32; 4]; 4]) {
        match self {
            FillMode::Color(color) => {
                let c = color.spec_premultiply();
                (CommandGpu::Fill, [[c.r, c.g, c.b, c.a], [0, 0, 0, 0], [0, 0, 0, 0], [0, 0, 0, 0]])
            },
            FillMode::LinearGradient(from_color, to_color, start, end) => {
                let f = from_color.spec_premultiply();
                let t = to_color.spec_premultiply();
                (
                    CommandGpu::FillLinearGradient,
                    [
                        [f.r, f.g, f.b, f.a],
                        [t.r, t.g, t.b, t.a],
                        [start.x, start.y, end.x, end.y],
                        [0, 0, 0, 0],
                    ],
                )
            },
            FillMode::RadialGradient(inner_color, outer_color, center, radius) => {
                let i = inner_color.spec_premultiply();
                let o = outer_color.spec_premultiply();
                (
                    CommandGpu::FillRadialGradient,
                    [
                        [i.r, i.g, i.b, i.a],
                        [o.r, o.g, o.b, o.a],
                        [center.x, center.y, radius, 0],
                        [0, 0, 0, 0],
                    ],
                )
            },
            FillMode::Texture(texture_id, lt, rb, tlt, trb) => (
                CommandGpu::FillTexture,
                [
                    [lt.x, lt.y, rb.x, rb.y],
                    [tlt.x, tlt.y, trb.x, trb.y],
                    [index_slot(texture_id), 0, 0, 0],
                    [0, 0, 0, 0],
                ],
            ),
        }
    }

    /// The fill command and its operands; colours are premultiplied.
    #[verifier::when_used_as_spec(spec_compile)]
    pub fn compile(self) -> (r: (CommandGpu, [[i32; 4]; 4]))
        ensures
            r == self.spec_compile(),
    {
        match self {
            FillMode::Color(color) => {
                let c: Color = color.premultiply();
                (CommandGpu::Fill, [[c.r, c.g, c.b, c.a], [0, 0, 0, 0], [0, 0, 0, 0], [0, 0, 0, 0]])
            },
            FillMode::LinearGradient(from_color, to_color, start, end) => {
                let f: Color = from_color.premultiply();
                let t: Color = to_color.premultiply();
                (
                    CommandGpu::FillLinearGradient,
                    [
                        [f.r, f.g, f.b, f.a],
                        [t.r, t.g, t.b, t.a],
                        [start.x, start.y, end.x, end.y],
                        [0, 0, 0, 0],
                    ],
                )
            },
            FillMode::RadialGradient(inner_color, outer_color, center, radius) => {
                let i: Color = inner_color.premultiply();
                let o: Color = outer_color.premultiply();
                (
                    CommandGpu::FillRadialGradient,
                    [
                        [i.r, i.g, i.b, i.a],
                        [o.r, o.g, o.b, o.a],
                        [center.x, center.y, radius, 0],
                        [0, 0, 0, 0],
                    ],
                )
            },
            FillMode::Texture(texture_id, lt, rb, tlt, trb) => (
                CommandGpu::FillTexture,
                [
                    [lt.x, lt.y, rb.x, rb.y],
                    [tlt.x, tlt.y, trb.x, trb.y],
                    [slot_of_index(texture_id), 0, 0, 0],
                    [0, 0, 0, 0],
                ],
            ),
        }
    }
}

impl BasicShapeData {
    /// The draw command of the geometry and its operands, or `None` for a
    /// character whose glyph is not resident in `glyphs`.
    pub open spec fn spec_compile(self, glyphs: Map<u64, u32>) -> Option<
        (CommandGpu, [[i32; 4]; 4]),
    > {
        match self {
            BasicShapeData::Circle(center, radius) => Some(
                (
                    CommandGpu::DrawCircle,
                    [[center.x, center.y, radius, 0], [0, 0, 0, 0], [0, 0, 0, 0], [0, 0, 0, 0]],
                ),
            ),
            BasicShapeData::Triangle(a, b, c) => Some(
                (
                    CommandGpu::DrawTriangle,
                    [[a.x, a.y, b.x, b.y], [c.x, c.y, 0, 0], [0, 0, 0, 0], [0, 0, 0, 0]],
                ),
            ),
            BasicShapeData::Rectangle(a, b, rounding) => Some(
                (
                    CommandGpu::DrawRectangle,
                    [
                        [a.x, a.y, b.x, b.y],
                        [rounding.r, rounding.g, rounding.b, rounding.a],
                        [0, 0, 0, 0],
                        [0, 0, 0, 0],
                    ],
                ),
            ),
            BasicShapeData::HalfPlane(a, b) => Some(
                (
                    CommandGpu::DrawHalfPlane,
                    [[a.x, a.y, b.x, b.y], [0, 0, 0, 0], [0, 0, 0, 0], [0, 0, 0, 0]],
                ),
            ),
            BasicShapeData::QuadBezierPlane(a, b, c) => Some(
                (
                    CommandGpu::DrawQuadPlane,
                    [[a.x, a.y, b.x, b.y], [c.x, c.y, 0, 0], [0, 0, 0, 0], [0, 0, 0, 0]],
                ),
            ),
            BasicShapeData::SDFTexture(a, b, texture_id) => Some(
                (
                    CommandGpu::DrawSDFTexture,
                    [
                        [a.x, a.y, b.x, b.y],
                        [index_slot(texture_id), 0, 0, 0],
                        [0, 0, 0, 0],
                        [0, 0, 0, 0],
                    ],
                ),
            ),
            BasicShapeData::Text(pos, font_id, font_size, chr) => match glyph_slot(
                glyphs,
                chr,
                font_id,
            ) {
                Some(char_id) => Some(
                    (
                        CommandGpu::DrawChar,
                        [
                            [pos.x, pos.y, font_size, index_slot(char_id)],
                            [0, 0, 0, 0],
                            [0, 0, 0, 0],
                            [0, 0, 0, 0],
                        ],
                    ),
                ),
                None => None,
            },
        }
    }

    /// The draw command of the geometry and its operands, or `None` for a
    /// character whose glyph is not resident yet.
    pub fn compile(self, font_render: &FontRender) -> (r: Option<(CommandGpu, [[i32; 4]; 4])>)
        ensures
            r == self.spec_compile(font_render@),
    {
        match self {
            BasicShapeData::Circle(center, radius) => Some(
                (
                    CommandGpu::DrawCircle,
                    [[center.x, center.y, radius, 0], [0, 0, 0, 0], [0, 0, 0, 0], [0, 0, 0, 0]],
                ),
            ),
            BasicShapeData::Triangle(a, b, c) => Some(
                (
                    CommandGpu::DrawTriangle,
                    [[a.x, a.y, b.x, b.y], [c.x, c.y, 0, 0], [0, 0, 0, 0], [0, 0, 0, 0]],
                ),
            ),
            BasicShapeData::Rectangle(a, b, rounding) => Some(
                (
                    CommandGpu::DrawRectangle,
                    [
                        [a.x, a.y, b.x, b.y],
                        [rounding.r, rounding.g, rounding.b, rounding.a],
                        [0, 0, 0, 0],
                        [0, 0, 0, 0],
                    ],
                ),
            ),
            BasicShapeData::HalfPlane(a, b) => Some(
                (
                    CommandGpu::DrawHalfPlane,
                    [[a.x, a.y, b.x, b.y], [0, 0, 0, 0], [0, 0, 0, 0], [0, 0, 0, 0]],
                ),
            ),
            BasicShapeData::QuadBezierPlane(a, b, c) => Some(
                (
                    CommandGpu::DrawQuadPlane,
                    [[a.x, a.y, b.x, b.y], [c.x, c.y, 0, 0], [0, 0, 0, 0], [0, 0, 0, 0]],
                ),
            ),
            BasicShapeData::SDFTexture(a, b, texture_id) => Some(
                (
                    CommandGpu::DrawSDFTexture,
                    [
                        [a.x, a.y, b.x, b.y],
                        [slot_of_index(texture_id), 0, 0, 0],
                        [0, 0, 0, 0],
                        [0, 0, 0, 0],
                    ],
                ),
            ),
            BasicShapeData::Text(pos, font_id, font_size, chr) => {
                match font_render.char_slot(chr, font_id) {
                    Some(char_id) => Some(
                        (
                            CommandGpu::DrawChar,
                            [
                                [pos.x, pos.y, font_size, slot_of_index(char_id)],
                                [0, 0, 0, 0],
                                [0, 0, 0, 0],
                                [0, 0, 0, 0],
                            ],
                        ),
                    ),
                    None => None,
                }
            },
        }
    }
}

/// An operand on the evaluation stack of the compiler: a basic shape that
/// no command has drawn yet, or a register that holds a drawn value.
#[derive(Clone, Copy, Debug, PartialEq, Eq)]
pub enum ShapeOrStack {
    /// A shape that is not committed to a register.
    Shape(BasicShape),
    /// The index of a register.
    Stack(u32),
}

/// The operation and parameter that a binary operator compiles to.
pub open spec fn binary_operation(op: Operator) -> (OperationGpu, i32) {
    match op {
        Operator::And => (OperationGpu::And, 0),
        Operator::Or => (OperationGpu::Or, 0),
        Operator::Xor => (OperationGpu::Xor, 0),
        Operator::Minus => (OperationGpu::Sub, 0),
        Operator::Lerp(t) => (OperationGpu::Lerp, t),
        Operator::SmoothStep(t) => (OperationGpu::SmoothStep, t),
        Operator::Sigmoid(t) => (OperationGpu::Sigmoid, t),
        Operator::Not => (OperationGpu::Neg, 0),
    }
}

/// The command that draws `shape` and combines it by `operation` into
/// register `target`; `None` where the shape needs a glyph that `glyphs` lacks.
pub open spec fn draw_command(
    shape: BasicShape,
    glyphs: Map<u64, u32>,
    operation: OperationGpu,
    parameter: i32,
    target: u32,
) -> Option<DrawCommandGpu> {
    match shape.data.spec_compile(glyphs) {
        Some((command, slots)) => Some(
            DrawCommandGpu {
                command: command.spec_code(),
                stroke_width: match shape.stroke {
                    Some(width) => width,
                    None => -1i32,
                },
                parameter,
                smooth_function: 0,
                slots,
                operation: operation.spec_code(),
                smooth_parameter: 0,
                lhs: target,
            },
        ),
        None => None,
    }
}

/// The commands that draw one leaf while `transform` is active: a transform
/// command where the leaf has another transform, then the draw command.
/// Beside them, the transform that is active afterwards.
pub open spec fn draw_leaf(
    shape: BasicShape,
    glyphs: Map<u64, u32>,
    transform: Transform2D,
    operation: OperationGpu,
    parameter: i32,
    target: u32,
) -> Option<(Seq<DrawCommandGpu>, Transform2D)> {
    match draw_command(shape, glyphs, operation, parameter, target) {
        Some(command) => if transform != shape.transform {
            Some((seq![spec_get_transform(shape.transform), command], shape.transform))
        } else {
            Some((seq![command], shape.transform))
        },
        None => None,
    }
}

/// The commands of [`draw_leaf`]; none where the leaf cannot be drawn.
pub open spec fn leaf_commands(
    shape: BasicShape,
    glyphs: Map<u64, u32>,
    transform: Transform2D,
    operation: OperationGpu,
    parameter: i32,
    target: u32,
) -> Seq<DrawCommandGpu> {
    match draw_leaf(shape, glyphs, transform, operation, parameter, target) {
        Some((commands, _)) => commands,
        None => Seq::empty(),
    }
}

/// What one binary operator compiles to.
pub struct BinaryOutcome {
    /// The commands of the operator.
    pub commands: Seq<DrawCommandGpu>,
    /// The operand that replaces the two that the operator took.
    pub result: ShapeOrStack,
    /// The transform that is active afterwards.
    pub transform: Transform2D,
    /// The number of registers in use afterwards.
    pub used: int,
}

/// What the binary operator `op` compiles to on the operands `lhs` and
/// `rhs`, with `used` registers in use.
///
/// - Two shapes: the left one is drawn into a new register, the right one
///   is combined into it.
/// - A register and a shape: the shape is combined into the register.
/// - Two registers: the right one is combined into the left one, and is
///   free afterwards.
pub open spec fn spec_binary_op(
    op: Operator,
    lhs: ShapeOrStack,
    rhs: ShapeOrStack,
    transform: Transform2D,
    glyphs: Map<u64, u32>,
    used: int,
) -> Option<BinaryOutcome> {
    let (operation, parameter) = binary_operation(op);
    match (lhs, rhs) {
        (ShapeOrStack::Shape(shape), ShapeOrStack::Shape(shape2)) => {
            let register = (used + 1) as u32;
            match draw_leaf(shape, glyphs, transform, OperationGpu::Replace, 0, register) {
                Some((first, between)) => match draw_leaf(
                    shape2,
                    glyphs,
                    between,
                    operation,
                    parameter,
                    register,
                ) {
                    Some((second, after)) => Some(
                        BinaryOutcome {
                            commands: first + second,
                            result: ShapeOrStack::Stack(register),
                            transform: after,
                            used: used + 1,
                        },
                    ),
                    None => None,
                },
                None => None,
            }
        },
        (ShapeOrStack::Stack(index), ShapeOrStack::Shape(shape)) => match draw_leaf(
            shape,
            glyphs,
            transform,
            operation,
            parameter,
            index,
        ) {
            Some((commands, after)) => Some(
                BinaryOutcome {
                    commands,
                    result: ShapeOrStack::Stack(index),
                    transform: after,
                    used,
                },
            ),
            None => None,
        },
        (ShapeOrStack::Shape(shape), ShapeOrStack::Stack(index)) => match draw_leaf(
            shape,
            glyphs,
            transform,
            operation,
            parameter,
            index,
        ) {
            Some((commands, after)) => Some(
                BinaryOutcome {
                    commands,
                    result: ShapeOrStack::Stack(index),
                    transform: after,
                    used,
                },
            ),
            None => None,
        },
        (ShapeOrStack::Stack(l_index), ShapeOrStack::Stack(r_index)) => Some(
            BinaryOutcome {
                commands: seq![
                    DrawCommandGpu { lhs: l_index, ..spec_get_stack(r_index, operation, parameter) },
                ],
                result: ShapeOrStack::Stack(l_index),
                transform,
                used: used - 1,
            },
        ),
    }
}

/// The state of the compiler between two tokens.
pub struct CompileState {
    /// The evaluation stack, its top last.
    pub stack: Seq<ShapeOrStack>,
    /// The number of registers in use.
    pub used: int,
    /// The largest number of registers that were in use at once.
    pub max: int,
    /// The active transform.
    pub transform: Transform2D,
    /// The commands so far.
    pub out: Seq<DrawCommandGpu>,
}

/// The state before the first token.
pub open spec fn initial_state() -> CompileState {
    CompileState {
        stack: Seq::empty(),
        used: 0,
        max: 0,
        transform: Transform2D::spec_identity(),
        out: Seq::empty(),
    }
}

/// The state after one more token; `None` where the token lacks an operand
/// or draws a character whose glyph is missing.
///
/// A leaf is pushed as it is. `Not` negates the top operand in place: a
/// shape is drawn negated into a new register, a register is reloaded
/// negated into itself. A binary operator replaces the two top operands as
/// [`spec_binary_op`] says.
pub open spec fn compile_token(st: CompileState, token: ShapeOrOp, glyphs: Map<u64, u32>) -> Option<
    CompileState,
> {
    match token {
        ShapeOrOp::Shape(shape) => Some(
            CompileState { stack: st.stack.push(ShapeOrStack::Shape(shape)), ..st },
        ),
        ShapeOrOp::Op(Operator::Not) => if st.stack.len() < 1 {
            None
        } else {
            match st.stack.last() {
                ShapeOrStack::Shape(shape) => match draw_leaf(
                    shape,
                    glyphs,
                    st.transform,
                    OperationGpu::Neg,
                    0,
                    (st.used + 1) as u32,
                ) {
                    Some((commands, after)) => Some(
                        CompileState {
                            stack: st.stack.drop_last().push(
                                ShapeOrStack::Stack((st.used + 1) as u32),
                            ),
                            used: st.used + 1,
                            max: if st.used + 1 > st.max {
                                st.used + 1
                            } else {
                                st.max
                            },
                            transform: after,
                            out: st.out + commands,
                        },
                    ),
                    None => None,
                },
                ShapeOrStack::Stack(index) => Some(
                    CompileState {
                        out: st.out.push(
                            DrawCommandGpu {
                                lhs: index,
                                ..spec_get_stack(index, OperationGpu::Neg, 0)
                            },
                        ),
                        ..st
                    },
                ),
            }
        },
        ShapeOrOp::Op(op) => if st.stack.len() < 2 {
            None
        } else {
            match spec_binary_op(
                op,
                st.stack[st.stack.len() - 2],
                st.stack[st.stack.len() - 1],
                st.transform,
                glyphs,
                st.used,
            ) {
                Some(outcome) => Some(
                    CompileState {
                        stack: st.stack.drop_last().drop_last().push(outcome.result),
                        used: outcome.used,
                        max: if outcome.used > st.max {
                            outcome.used
                        } else {
                            st.max
                        },
                        transform: outcome.transform,
                        out: st.out + outcome.commands,
                    },
                ),
                None => None,
            }
        },
    }
}

/// The state after all of `tokens`.
pub open spec fn compile_tokens(tokens: Seq<ShapeOrOp>, glyphs: Map<u64, u32>) -> Option<
    CompileState,
>
    decreases tokens.len(),
{
    if tokens.len() == 0 {
        Some(initial_state())
    } else {
        match compile_tokens(tokens.drop_last(), glyphs) {
            Some(st) => compile_token(st, tokens.last(), glyphs),
            None => None,
        }
    }
}

/// The registers on an evaluation stack, bottom first.
pub open spec fn registers(stack: Seq<ShapeOrStack>) -> Seq<u32>
    decreases stack.len(),
{
    if stack.len() == 0 {
        Seq::empty()
    } else {
        match stack.last() {
            ShapeOrStack::Stack(index) => registers(stack.drop_last()).push(index),
            ShapeOrStack::Shape(_) => registers(stack.drop_last()),
        }
    }
}

/// Whether the registers on the stack are exactly the registers 1 to
/// `used`, in this order from the bottom: every register in use holds one
/// live operand, and the one allocated last lies on top.
pub open spec fn registers_in_order(stack: Seq<ShapeOrStack>, used: int) -> bool {
    &&& registers(stack).len() == used
    &&& forall|k: int| 0 <= k < used ==> #[trigger] registers(stack)[k] == k + 1
}

/// A stack holds at most as many registers as operands.
pub proof fn lemma_registers_len(stack: Seq<ShapeOrStack>)
    ensures
        registers(stack).len() <= stack.len(),
    decreases stack.len(),
{
    if stack.len() > 0 {
        lemma_registers_len(stack.drop_last());
    }
}

/// The registers of a stack with one more operand on top.
pub proof fn lemma_registers_push(stack: Seq<ShapeOrStack>, top: ShapeOrStack)
    ensures
        registers(stack.push(top)) == match top {
            ShapeOrStack::Stack(index) => registers(stack).push(index),
            ShapeOrStack::Shape(_) => registers(stack),
        },
{
    assert(stack.push(top).drop_last() =~= stack);
}

/// Whether every command writes a register up to `limit` and, where it is
/// a load, reads one up to `limit`.
pub open spec fn registers_within(commands: Seq<DrawCommandGpu>, limit: int) -> bool {
    forall|k: int|
        0 <= k < commands.len() ==> {
            &&& (#[trigger] commands[k]).lhs <= limit
            &&& commands[k].command == CommandGpu::Load.spec_code() ==> commands[k].slots[0][0]
                <= limit
        }
}

/// What holds of the compiler's state between any two tokens of a program
/// that lacks no operand.
pub open spec fn state_wf(st: CompileState, tokens: Seq<ShapeOrOp>) -> bool {
    &&& stack_depth(tokens) == Some(st.stack.len())
    &&& registers_in_order(st.stack, st.used)
    &&& 0 <= st.used <= st.max
    &&& st.max <= tokens.len()
    &&& st.stack.len() <= tokens.len()
    &&& registers_within(st.out, st.max)
}

/// The commands that end every compiled shape: back to the identity
/// transform where another one is active, the clip rectangle cut into
/// register 1, register 1 joined into register 0, the blend mode, the fill.
pub open spec fn closing_commands(
    transform: Transform2D,
    fill_mode: FillMode,
    blend_mode: BlendMode,
    clip_rect: Rect,
) -> Seq<DrawCommandGpu> {
    let reset = if transform != Transform2D::spec_identity() {
        seq![spec_get_transform(Transform2D::spec_identity())]
    } else {
        Seq::empty()
    };
    let corner = clip_rect.spec_rb();
    let (fill, slots) = fill_mode.spec_compile();
    reset + seq![
        DrawCommandGpu {
            command: CommandGpu::DrawRectangle.spec_code(),
            stroke_width: -1i32,
            parameter: 0,
            smooth_function: 0,
            slots: [
                [clip_rect.x, clip_rect.y, corner.x, corner.y],
                [0, 0, 0, 0],
                [0, 0, 0, 0],
                [0, 0, 0, 0],
            ],
            operation: OperationGpu::And.spec_code(),
            smooth_parameter: 0,
            lhs: 1,
        },
        spec_get_stack(1, OperationGpu::Or, 0),
        DrawCommandGpu {
            command: CommandGpu::SetBlendMode.spec_code(),
            stroke_width: -1i32,
            parameter: 0,
            smooth_function: 0,
            slots: [[blend_mode.spec_code() as i32, 0, 0, 0], [0, 0, 0, 0], [0, 0, 0, 0], [0, 0, 0, 0]],
            operation: OperationGpu::Nop.spec_code(),
            smooth_parameter: 0,
            lhs: 0,
        },
        DrawCommandGpu {
            command: fill.spec_code(),
            stroke_width: -1i32,
            parameter: 0,
            smooth_function: 0,
            slots,
            operation: OperationGpu::Nop.spec_code(),
            smooth_parameter: 0,
            lhs: 0,
        },
    ]
}

/// A shape as the painter holds it: the program, how it is filled and
/// blended, and the rectangle it is clipped to.
#[derive(Clone, Debug)]
pub struct ShapeToDraw {
    /// The shape program.
    pub shape: Shape,
    /// How the shape is coloured.
    pub fill_mode: FillMode,
    /// How the colour meets what is on the target.
    pub blend_mode: BlendMode,
    /// The rectangle outside which nothing of the shape is drawn.
    pub clip_rect: Rect,
}

/// The state after the last operand of a program has been committed to
/// register 1, where no command had drawn it yet.
pub open spec fn commit_last(st: CompileState, glyphs: Map<u64, u32>) -> Option<CompileState> {
    if st.stack.len() != 1 {
        None
    } else {
        match st.stack[0] {
            ShapeOrStack::Shape(shape) => match draw_leaf(
                shape,
                glyphs,
                st.transform,
                OperationGpu::Replace,
                0,
                1,
            ) {
                Some((commands, after)) => Some(
                    CompileState {
                        stack: seq![ShapeOrStack::Stack(1)],
                        used: 1,
                        max: if st.max < 1 {
                            1
                        } else {
                            st.max
                        },
                        transform: after,
                        out: st.out + commands,
                    },
                ),
                None => None,
            },
            ShapeOrStack::Stack(_) => Some(st),
        }
    }
}

impl ShapeToDraw {
    /// Whether the compiler takes the shape: its program is valid and has
    /// fewer tokens than a register index can count.
    pub open spec fn compilable(&self) -> bool {
        &&& self.shape.spec_valid()
        &&& self.shape@.len() < u32::MAX
    }

    /// The commands of the shape, and the number of registers they need,
    /// register 0 included.
    ///
    /// Both are empty and 0 where the fill cannot be seen or a glyph that
    /// the shape needs is not resident in `glyphs`.
    pub open spec fn spec_parse(&self, glyphs: Map<u64, u32>) -> (Seq<DrawCommandGpu>, u32) {
        if self.fill_mode.spec_is_invisible() {
            (Seq::empty(), 0)
        } else {
            match compile_tokens(self.shape@, glyphs) {
                Some(st) => match commit_last(st, glyphs) {
                    Some(done) => (
                        done.out + closing_commands(
                            done.transform,
                            self.fill_mode,
                            self.blend_mode,
                            self.clip_rect,
                        ),
                        (done.max + 1) as u32,
                    ),
                    None => (Seq::empty(), 0),
                },
                None => (Seq::empty(), 0),
            }
        }
    }

    /// The largest number of scratch registers that the commands of the
    /// shape use at once: the required depth less register 0.
    pub open spec fn max_registers_used(&self, glyphs: Map<u64, u32>) -> int {
        if self.spec_parse(glyphs).1 == 0 {
            0
        } else {
            self.spec_parse(glyphs).1 - 1
        }
    }

    /// Whether anything of the shape can show inside `rect`.
    pub open spec fn spec_is_visible_in_rect(&self, rect: Rect) -> bool {
        &&& self.shape@.len() > 0
        &&& !self.clip_rect.spec_intersection(rect).spec_is_empty()
        &&& !self.fill_mode.spec_is_invisible()
        &&& !self.shape.spec_bounded_rect().spec_intersection(rect).spec_is_empty()
    }

    /// Whether anything of the shape can show inside `rect`: it has a
    /// program, its clip rectangle meets `rect`, its fill can be seen, and
    /// its bounds meet `rect`.
    pub fn is_visible_in_rect(&self, rect: Rect) -> (r: bool)
        requires
            stack_depth(self.shape@) is Some,
        ensures
            r == self.spec_is_visible_in_rect(rect),
    {
        if self.shape.0.len() == 0 {
            return false;
        }
        if self.clip_rect.intersection(rect).is_empty() {
            return false;
        }
        if self.fill_mode.is_invisible() {
            return false;
        }
        !self.shape.bounded_rect().intersection(rect).is_empty()
    }
}

/// Draws one leaf: appends its commands to `out` and makes its transform
/// the active one. Returns `false`, and changes nothing, where the leaf
/// needs a glyph that is not resident.
fn emit_leaf(
    shape: BasicShape,
    font_render: &FontRender,
    current_transform: &mut Transform2D,
    operation: OperationGpu,
    parameter: i32,
    target: u32,
    out: &mut Vec<DrawCommandGpu>,
) -> (done: bool)
    ensures
        done == draw_leaf(
            shape,
            font_render@,
            *old(current_transform),
            operation,
            parameter,
            target,
        ).is_some(),
        done ==> final(out)@ == old(out)@ + leaf_commands(
            shape,
            font_render@,
            *old(current_transform),
            operation,
            parameter,
            target,
        ),
        done ==> *final(current_transform) == shape.transform,
        !done ==> final(out)@ == old(out)@ && *final(current_transform) == *old(current_transform),
{
    match shape.data.compile(font_render) {
        Some((command, slots)) => {
            if *current_transform != shape.transform {
                *current_transform = shape.transform;
                out.push(get_transform(shape.transform));
            }
            let stroke_width: i32 = match shape.stroke {
                Some(width) => width,
                None => -1i32,
            };
            out.push(
                DrawCommandGpu {
                    command: command.code(),
                    stroke_width,
                    parameter,
                    smooth_function: 0,
                    slots,
                    operation: operation.code(),
                    smooth_parameter: 0,
                    lhs: target,
                },
            );
            proof {
                let leaf = leaf_commands(
                    shape,
                    font_render@,
                    *old(current_transform),
                    operation,
                    parameter,
                    target,
                );
                assert(out@ =~= old(out)@ + leaf);
            }
            true
        },
        None => false,
    }
}

/// Compiles the binary operator `op` on the operands `lhs` and `rhs`.
///
/// Returns the commands and the operand that replaces the two, and updates
/// the active transform and the number of registers in use, as
/// [`spec_binary_op`] says; `None` where an operand needs a glyph that is
/// not resident.
pub fn hanle_binary_op(
    op: Operator,
    lhs: ShapeOrStack,
    rhs: ShapeOrStack,
    current_transform: &mut Transform2D,
    font_render: &FontRender,
    stack_index: &mut u32,
) -> (r: Option<(Vec<DrawCommandGpu>, ShapeOrStack)>)
    requires
        !op.is_unary(),
        lhs is Shape && rhs is Shape ==> *old(stack_index) < u32::MAX,
        lhs is Stack && rhs is Stack ==> *old(stack_index) >= 1,
    ensures
        r is Some == spec_binary_op(
            op,
            lhs,
            rhs,
            *old(current_transform),
            font_render@,
            *old(stack_index) as int,
        ).is_some(),
        match r {
            Some((commands, result)) => {
                let outcome = spec_binary_op(
                    op,
                    lhs,
                    rhs,
                    *old(current_transform),
                    font_render@,
                    *old(stack_index) as int,
                )->0;
                &&& commands@ == outcome.commands
                &&& result == outcome.result
                &&& *final(current_transform) == outcome.transform
                &&& *final(stack_index) as int == outcome.used
            },
            None => true,
        },
{
    let (operation, parameter): (OperationGpu, i32) = match op {
        Operator::And => (OperationGpu::And, 0),
        Operator::Or => (OperationGpu::Or, 0),
        Operator::Xor => (OperationGpu::Xor, 0),
        Operator::Minus => (OperationGpu::Sub, 0),
        Operator::Lerp(t) => (OperationGpu::Lerp, t),
        Operator::SmoothStep(t) => (OperationGpu::SmoothStep, t),
        Operator::Sigmoid(t) => (OperationGpu::Sigmoid, t),
        Operator::Not => (OperationGpu::Neg, 0),
    };
    let mut out: Vec<DrawCommandGpu> = Vec::new();
    let result: u32 = match (lhs, rhs) {
        (ShapeOrStack::Shape(shape), ShapeOrStack::Shape(shape2)) => {
            let register: u32 = *stack_index + 1;
            if !emit_leaf(
                shape,
                font_render,
                current_transform,
                OperationGpu::Replace,
                0,
                register,
                &mut out,
            ) {
                return None;
            }
            if !emit_leaf(
                shape2,
                font_render,
                current_transform,
                operation,
                parameter,
                register,
                &mut out,
            ) {
                return None;
            }
            *stack_index = register;
            register
        },
        (ShapeOrStack::Stack(index), ShapeOrStack::Shape(shape)) => {
            if !emit_leaf(
                shape,
                font_render,
                current_transform,
                operation,
                parameter,
                index,
                &mut out,
            ) {
                return None;
            }
            index
        },
        (ShapeOrStack::Shape(shape), ShapeOrStack::Stack(index)) => {
            if !emit_leaf(
                shape,
                font_render,
                current_transform,
                operation,
                parameter,
                index,
                &mut out,
            ) {
                return None;
            }
            index
        },
        (ShapeOrStack::Stack(l_index), ShapeOrStack::Stack(r_index)) => {
            *stack_index = *stack_index - 1;
            let load: DrawCommandGpu = get_stack(r_index, operation, parameter);
            out.push(
                DrawCommandGpu {
                    command: load.command,
                    stroke_width: load.stroke_width,
                    parameter: load.parameter,
                    smooth_function: load.smooth_function,
                    slots: load.slots,
                    operation: load.operation,
                    smooth_parameter: load.smooth_parameter,
                    lhs: l_index,
                },
            );
            l_index
        },
    };
    proof {
        let outcome = spec_binary_op(
            op,
            lhs,
            rhs,
            *old(current_transform),
            font_render@,
            *old(stack_index) as int,
        )->0;
        assert(out@ =~= outcome.commands);
    }
    Some((out, ShapeOrStack::Stack(result)))
}


/// A program with a prefix that does not compile does not compile.
pub proof fn lemma_compile_prefix(tokens: Seq<ShapeOrOp>, glyphs: Map<u64, u32>, k: int)
    requires
        0 <= k <= tokens.len(),
        compile_tokens(tokens.take(k), glyphs) is None,
    ensures
        compile_tokens(tokens, glyphs) is None,
    decreases tokens.len(),
{
    if k == tokens.len() {
        assert(tokens.take(k) =~= tokens);
    } else {
        assert(tokens.drop_last().take(k) =~= tokens.take(k));
        lemma_compile_prefix(tokens.drop_last(), glyphs, k);
    }
}

/// One token keeps what holds of the compiler's state.
pub proof fn lemma_token_preserves_wf(
    st: CompileState,
    tokens: Seq<ShapeOrOp>,
    token: ShapeOrOp,
    glyphs: Map<u64, u32>,
)
    requires
        state_wf(st, tokens),
        tokens.len() < u32::MAX,
        stack_depth(tokens.push(token)) is Some,
        compile_token(st, token, glyphs) is Some,
    ensures
        state_wf(compile_token(st, token, glyphs)->0, tokens.push(token)),
{
    let next = compile_token(st, token, glyphs)->0;
    assert(tokens.push(token).drop_last() =~= tokens);
    assert(tokens.push(token).last() == token);
    lemma_registers_len(st.stack);
    match token {
        ShapeOrOp::Shape(shape) => {
            lemma_registers_push(st.stack, ShapeOrStack::Shape(shape));
        },
        ShapeOrOp::Op(Operator::Not) => {
            let rest = st.stack.drop_last();
            let top = st.stack.last();
            assert(st.stack =~= rest.push(top));
            lemma_registers_push(rest, top);
            lemma_registers_len(rest);
            match top {
                ShapeOrStack::Shape(shape) => {
                    lemma_registers_push(rest, ShapeOrStack::Stack((st.used + 1) as u32));
                    let leaf = draw_leaf(
                        shape,
                        glyphs,
                        st.transform,
                        OperationGpu::Neg,
                        0,
                        (st.used + 1) as u32,
                    )->0;
                    assert(registers_within(leaf.0, next.max));
                },
                ShapeOrStack::Stack(index) => {
                    assert(registers(st.stack)[st.used - 1] == st.used);
                    assert(next.stack =~= st.stack);
                },
            }
        },
        ShapeOrOp::Op(op) => {
            let a = st.stack[st.stack.len() - 2];
            let b = st.stack[st.stack.len() - 1];
            let rest = st.stack.drop_last().drop_last();
            assert(st.stack =~= rest.push(a).push(b));
            lemma_registers_push(rest, a);
            lemma_registers_push(rest.push(a), b);
            lemma_registers_len(rest);
            let outcome = spec_binary_op(op, a, b, st.transform, glyphs, st.used)->0;
            lemma_registers_push(rest, outcome.result);
            let (operation, parameter) = binary_operation(op);
            match (a, b) {
                (ShapeOrStack::Shape(shape), ShapeOrStack::Shape(shape2)) => {
                    let register = (st.used + 1) as u32;
                    let first = draw_leaf(
                        shape,
                        glyphs,
                        st.transform,
                        OperationGpu::Replace,
                        0,
                        register,
                    )->0;
                    let second = draw_leaf(
                        shape2,
                        glyphs,
                        first.1,
                        operation,
                        parameter,
                        register,
                    )->0;
                    assert(registers_within(first.0, next.max));
                    assert(registers_within(second.0, next.max));
                },
                (ShapeOrStack::Stack(index), ShapeOrStack::Shape(shape)) => {
                    assert(registers(st.stack)[st.used - 1] == st.used);
                    let leaf = draw_leaf(shape, glyphs, st.transform, operation, parameter, index)->0;
                    assert(registers_within(leaf.0, next.max));
                },
                (ShapeOrStack::Shape(shape), ShapeOrStack::Stack(index)) => {
                    assert(registers(st.stack)[st.used - 1] == st.used);
                    let leaf = draw_leaf(shape, glyphs, st.transform, operation, parameter, index)->0;
                    assert(registers_within(leaf.0, next.max));
                },
                (ShapeOrStack::Stack(l_index), ShapeOrStack::Stack(r_index)) => {
                    assert(registers(st.stack)[st.used - 1] == st.used);
                    assert(registers(st.stack)[st.used - 2] == st.used - 1);
                    assert(registers(next.stack) =~= registers(st.stack).drop_last());
                    assert forall|k: int| 0 <= k < next.used implies #[trigger] registers(
                        next.stack,
                    )[k] == k + 1 by {
                        assert(registers(st.stack)[k] == k + 1);
                    }
                    assert(outcome.commands[0].lhs == l_index);
                    assert(outcome.commands[0].slots[0][0] == index_slot(r_index));
                    assert(registers_within(outcome.commands, next.max));
                },
            }
        },
    }
}

/// What compiles keeps the registers in order: whatever the program, the
/// registers on the evaluation stack are those in use, the one allocated
/// last on top, and no command touches a register beyond the high-water mark.
pub proof fn lemma_compile_wf(tokens: Seq<ShapeOrOp>, glyphs: Map<u64, u32>)
    requires
        stack_depth(tokens) is Some,
        tokens.len() < u32::MAX,
        compile_tokens(tokens, glyphs) is Some,
    ensures
        state_wf(compile_tokens(tokens, glyphs)->0, tokens),
    decreases tokens.len(),
{
    if tokens.len() == 0 {
        assert(registers(Seq::<ShapeOrStack>::empty()) =~= Seq::<u32>::empty());
    } else {
        let before = tokens.drop_last();
        assert(before.push(tokens.last()) =~= tokens);
        lemma_compile_wf(before, glyphs);
        lemma_token_preserves_wf(
            compile_tokens(before, glyphs)->0,
            before,
            tokens.last(),
            glyphs,
        );
    }
}

/// The depth that a compiled shape asks for covers every register that its
/// commands touch, and its last command is the fill.
pub proof fn lemma_depth_bounds_registers(shape: ShapeToDraw, glyphs: Map<u64, u32>)
    requires
        shape.compilable(),
        shape.spec_parse(glyphs).0.len() > 0,
    ensures
        shape.spec_parse(glyphs).1 >= 2,
        registers_within(shape.spec_parse(glyphs).0, shape.spec_parse(glyphs).1 - 1),
        shape.spec_parse(glyphs).0.last().command == shape.fill_mode.spec_compile().0.spec_code(),
        shape.spec_parse(glyphs).0.last().lhs == 0,
{
    lemma_compile_wf(shape.shape@, glyphs);
    let st = compile_tokens(shape.shape@, glyphs)->0;
    let done = commit_last(st, glyphs)->0;
    match st.stack[0] {
        ShapeOrStack::Shape(leaf) => {
            let drawn = draw_leaf(leaf, glyphs, st.transform, OperationGpu::Replace, 0, 1)->0;
            assert(registers_within(drawn.0, done.max));
        },
        ShapeOrStack::Stack(index) => {
            assert(registers(st.stack) =~= seq![index]) by {
                assert(st.stack.drop_last() =~= Seq::<ShapeOrStack>::empty());
                assert(registers(st.stack.drop_last()) =~= Seq::<u32>::empty());
                assert(st.stack.last() == ShapeOrStack::Stack(index));
            }
            assert(registers(st.stack)[0] == 1);
        },
    }
    let closing = closing_commands(done.transform, shape.fill_mode, shape.blend_mode, shape.clip_rect);
    assert(registers_within(closing, done.max));
}

/// The program of a chain that is folded from the left: the first leaf,
/// and then every further leaf followed by the operator that joins it to
/// what stands before it.
pub open spec fn left_chain(leaves: Seq<BasicShape>, ops: Seq<Operator>) -> Seq<ShapeOrOp>
    decreases ops.len(),
{
    if ops.len() == 0 || leaves.len() != ops.len() + 1 {
        seq![ShapeOrOp::Shape(leaves[0])]
    } else {
        left_chain(leaves.drop_last(), ops.drop_last()).push(ShapeOrOp::Shape(leaves.last())).push(
            ShapeOrOp::Op(ops.last()),
        )
    }
}

/// The state after a program and one more token.
pub proof fn lemma_compile_push(tokens: Seq<ShapeOrOp>, token: ShapeOrOp, glyphs: Map<u64, u32>)
    ensures
        compile_tokens(tokens.push(token), glyphs) == match compile_tokens(tokens, glyphs) {
            Some(st) => compile_token(st, token, glyphs),
            None => None,
        },
{
    assert(tokens.push(token).drop_last() =~= tokens);
}

/// A binary operator on two shapes leaves one register, the first.
pub proof fn lemma_join_shapes(
    st: CompileState,
    a: BasicShape,
    b: BasicShape,
    op: Operator,
    glyphs: Map<u64, u32>,
)
    requires
        st.stack == seq![ShapeOrStack::Shape(a), ShapeOrStack::Shape(b)],
        st.used == 0,
        st.max == 0,
        !op.is_unary(),
        a.data.spec_compile(glyphs) is Some,
        b.data.spec_compile(glyphs) is Some,
    ensures
        compile_token(st, ShapeOrOp::Op(op), glyphs) is Some,
        compile_token(st, ShapeOrOp::Op(op), glyphs)->0.stack == seq![ShapeOrStack::Stack(1)],
        compile_token(st, ShapeOrOp::Op(op), glyphs)->0.used == 1,
        compile_token(st, ShapeOrOp::Op(op), glyphs)->0.max == 1,
{
    let outcome = spec_binary_op(op, st.stack[0], st.stack[1], st.transform, glyphs, 0);
    assert(outcome is Some);
    let next = compile_token(st, ShapeOrOp::Op(op), glyphs)->0;
    assert(st.stack.drop_last().drop_last() =~= Seq::<ShapeOrStack>::empty());
    assert(next.stack =~= seq![ShapeOrStack::Stack(1)]);
}

/// A binary operator on the first register and a shape leaves the register.
pub proof fn lemma_join_register(st: CompileState, b: BasicShape, op: Operator, glyphs: Map<u64, u32>)
    requires
        st.stack == seq![ShapeOrStack::Stack(1), ShapeOrStack::Shape(b)],
        st.used == 1,
        st.max == 1,
        !op.is_unary(),
        b.data.spec_compile(glyphs) is Some,
    ensures
        compile_token(st, ShapeOrOp::Op(op), glyphs) is Some,
        compile_token(st, ShapeOrOp::Op(op), glyphs)->0.stack == seq![ShapeOrStack::Stack(1)],
        compile_token(st, ShapeOrOp::Op(op), glyphs)->0.used == 1,
        compile_token(st, ShapeOrOp::Op(op), glyphs)->0.max == 1,
{
    let outcome = spec_binary_op(op, st.stack[0], st.stack[1], st.transform, glyphs, 1);
    assert(outcome is Some);
    let next = compile_token(st, ShapeOrOp::Op(op), glyphs)->0;
    assert(st.stack.drop_last().drop_last() =~= Seq::<ShapeOrStack>::empty());
    assert(next.stack =~= seq![ShapeOrStack::Stack(1)]);
}

/// Whether the program leaves its value in register 1 and has never had
/// a second scratch register in use.
#[verifier::opaque]
pub open spec fn accumulates(tokens: Seq<ShapeOrOp>, glyphs: Map<u64, u32>) -> bool {
    &&& compile_tokens(tokens, glyphs) is Some
    &&& compile_tokens(tokens, glyphs)->0.stack == seq![ShapeOrStack::Stack(1)]
    &&& compile_tokens(tokens, glyphs)->0.used == 1
    &&& compile_tokens(tokens, glyphs)->0.max == 1
}

/// Two leaves and the operator that joins them accumulate in register 1.
pub proof fn lemma_chain_start(a: BasicShape, b: BasicShape, op: Operator, glyphs: Map<u64, u32>)
    requires
        !op.is_unary(),
        a.data.spec_compile(glyphs) is Some,
        b.data.spec_compile(glyphs) is Some,
    ensures
        accumulates(
            seq![ShapeOrOp::Shape(a)].push(ShapeOrOp::Shape(b)).push(ShapeOrOp::Op(op)),
            glyphs,
        ),
{
    reveal(accumulates);
    let none = Seq::<ShapeOrOp>::empty();
    let one = seq![ShapeOrOp::Shape(a)];
    let two = one.push(ShapeOrOp::Shape(b));
    assert(one =~= none.push(ShapeOrOp::Shape(a)));
    lemma_compile_push(none, ShapeOrOp::Shape(a), glyphs);
    lemma_compile_push(one, ShapeOrOp::Shape(b), glyphs);
    lemma_compile_push(two, ShapeOrOp::Op(op), glyphs);
    let s1 = compile_tokens(one, glyphs)->0;
    assert(s1.stack =~= seq![ShapeOrStack::Shape(a)]);
    let s2 = compile_tokens(two, glyphs)->0;
    assert(s2.stack =~= seq![ShapeOrStack::Shape(a), ShapeOrStack::Shape(b)]);
    lemma_join_shapes(s2, a, b, op, glyphs);
}

/// What accumulates in register 1 still does with one more leaf and the
/// operator that joins it.
pub proof fn lemma_chain_step(
    tokens: Seq<ShapeOrOp>,
    b: BasicShape,
    op: Operator,
    glyphs: Map<u64, u32>,
)
    requires
        accumulates(tokens, glyphs),
        !op.is_unary(),
        b.data.spec_compile(glyphs) is Some,
    ensures
        accumulates(tokens.push(ShapeOrOp::Shape(b)).push(ShapeOrOp::Op(op)), glyphs),
{
    reveal(accumulates);
    let with_leaf = tokens.push(ShapeOrOp::Shape(b));
    lemma_compile_push(tokens, ShapeOrOp::Shape(b), glyphs);
    lemma_compile_push(with_leaf, ShapeOrOp::Op(op), glyphs);
    let s2 = compile_tokens(with_leaf, glyphs)->0;
    assert(s2.stack =~= seq![ShapeOrStack::Stack(1), ShapeOrStack::Shape(b)]);
    lemma_join_register(s2, b, op, glyphs);
}

/// A chain folded from the left accumulates in one register: however long
/// the chain, its value is built up in register 1, and no second scratch
/// register is ever in use.
pub proof fn lemma_left_chain(leaves: Seq<BasicShape>, ops: Seq<Operator>, glyphs: Map<u64, u32>)
    requires
        ops.len() >= 1,
        leaves.len() == ops.len() + 1,
        forall|i: int| 0 <= i < ops.len() ==> !(#[trigger] ops[i]).is_unary(),
        forall|i: int| 0 <= i < leaves.len() ==> (#[trigger] leaves[i]).data.spec_compile(glyphs) is Some,
    ensures
        accumulates(left_chain(leaves, ops), glyphs),
    decreases ops.len(),
{
    let last_leaf = leaves.last();
    let op = ops.last();
    let front = left_chain(leaves.drop_last(), ops.drop_last());
    assert(last_leaf.data.spec_compile(glyphs) is Some);
    assert(!op.is_unary());
    if ops.len() == 1 {
        let first = leaves[0];
        assert(leaves.drop_last()[0] == first);
        assert(first.data.spec_compile(glyphs) is Some);
        lemma_chain_start(first, last_leaf, op, glyphs);
    } else {
        assert forall|i: int| 0 <= i < ops.drop_last().len() implies !(
        #[trigger] ops.drop_last()[i]).is_unary() by {
            assert(!ops[i].is_unary());
        }
        assert forall|i: int| 0 <= i < leaves.drop_last().len() implies (
        #[trigger] leaves.drop_last()[i]).data.spec_compile(glyphs) is Some by {
            assert(leaves[i].data.spec_compile(glyphs) is Some);
        }
        lemma_left_chain(leaves.drop_last(), ops.drop_last(), glyphs);
        lemma_chain_step(front, last_leaf, op, glyphs);
    }
}

/// Register depth: a shape whose program is a chain folded from the left
/// asks for two registers, the accumulator and one scratch register.
pub proof fn lemma_left_chain_depth(
    shape: ShapeToDraw,
    leaves: Seq<BasicShape>,
    ops: Seq<Operator>,
    glyphs: Map<u64, u32>,
)
    requires
        shape.shape@ == left_chain(leaves, ops),
        !shape.fill_mode.spec_is_invisible(),
        ops.len() >= 1,
        leaves.len() == ops.len() + 1,
        forall|i: int| 0 <= i < ops.len() ==> !(#[trigger] ops[i]).is_unary(),
        forall|i: int| 0 <= i < leaves.len() ==> (#[trigger] leaves[i]).data.spec_compile(glyphs) is Some,
    ensures
        shape.spec_parse(glyphs).1 == 2,
        shape.max_registers_used(glyphs) == 1,
{
    lemma_left_chain(leaves, ops, glyphs);
    reveal(accumulates);
}

impl ShapeToDraw {
    /// Compiles the shape into commands, and says how many registers they
    /// need, register 0 included.
    ///
    /// The program is reduced on an evaluation stack of shapes that are not
    /// drawn yet and registers that hold drawn values; the value that is
    /// left is cut to the clip rectangle, joined into register 0 and
    /// filled. Both results are empty and 0 where the fill cannot be seen
    /// or a glyph that the shape needs is not resident.
    pub fn parse(self, font_render: &FontRender) -> (r: (Vec<DrawCommandGpu>, u32))
        requires
            self.compilable(),
        ensures
            (r.0@, r.1) == self.spec_parse(font_render@),
    {
        if self.fill_mode.is_invisible() {
            return (Vec::new(), 0);
        }
        let mut current_transform: Transform2D = Transform2D::identity();
        let mut stack: Vec<ShapeOrStack> = Vec::new();
        let mut max_stack_size: u32 = 0;
        let mut used_stack_amount: u32 = 0;
        let mut out: Vec<DrawCommandGpu> = Vec::new();
        let ghost tokens = self.shape@;
        let ghost glyphs = font_render@;
        let n: usize = self.shape.0.len();
        let mut i: usize = 0;
        assert(tokens.take(0) =~= Seq::<ShapeOrOp>::empty());
        while i < n
            invariant
                tokens == self.shape@,
                glyphs == font_render@,
                n == tokens.len(),
                n < u32::MAX,
                i <= n,
                stack_depth(tokens) == Some(1nat),
                !self.fill_mode.spec_is_invisible(),
                compile_tokens(tokens.take(i as int), glyphs) == Some(
                    CompileState {
                        stack: stack@,
                        used: used_stack_amount as int,
                        max: max_stack_size as int,
                        transform: current_transform,
                        out: out@,
                    },
                ),
            decreases n - i,
        {
            let ghost st = CompileState {
                stack: stack@,
                used: used_stack_amount as int,
                max: max_stack_size as int,
                transform: current_transform,
                out: out@,
            };
            proof {
                assert(tokens.take(i + 1).drop_last() =~= tokens.take(i as int));
                assert(tokens.take(i + 1).last() == tokens[i as int]);
                assert(tokens.take(i as int).push(tokens[i as int]) =~= tokens.take(i + 1));
                lemma_prefix_depth(tokens, i as int);
                lemma_prefix_depth(tokens, i + 1);
                lemma_compile_wf(tokens.take(i as int), glyphs);
                lemma_registers_len(stack@);
            }
            match self.shape.0[i] {
                ShapeOrOp::Shape(shape) => {
                    stack.push(ShapeOrStack::Shape(shape));
                },
                ShapeOrOp::Op(Operator::Not) => {
                    let ghost rest = stack@.drop_last();
                    let lhs: ShapeOrStack = stack.pop().unwrap();
                    proof {
                        assert(st.stack =~= rest.push(lhs));
                        lemma_registers_push(rest, lhs);
                        lemma_registers_len(rest);
                    }
                    match lhs {
                        ShapeOrStack::Shape(shape) => {
                            let register: u32 = used_stack_amount + 1;
                            if !emit_leaf(
                                shape,
                                font_render,
                                &mut current_transform,
                                OperationGpu::Neg,
                                0,
                                register,
                                &mut out,
                            ) {
                                proof {
                                    lemma_compile_prefix(tokens, glyphs, i + 1);
                                }
                                return (Vec::new(), 0);
                            }
                            used_stack_amount = register;
                            if used_stack_amount > max_stack_size {
                                max_stack_size = used_stack_amount;
                            }
                            stack.push(ShapeOrStack::Stack(register));
                        },
                        ShapeOrStack::Stack(stack_index) => {
                            let load: DrawCommandGpu = get_stack(stack_index, OperationGpu::Neg, 0);
                            out.push(
                                DrawCommandGpu {
                                    command: load.command,
                                    stroke_width: load.stroke_width,
                                    parameter: load.parameter,
                                    smooth_function: load.smooth_function,
                                    slots: load.slots,
                                    operation: load.operation,
                                    smooth_parameter: load.smooth_parameter,
                                    lhs: stack_index,
                                },
                            );
                            stack.push(ShapeOrStack::Stack(stack_index));
                            assert(stack@ =~= st.stack);
                        },
                    }
                },
                ShapeOrOp::Op(op) => {
                    let ghost rest = stack@.drop_last().drop_last();
                    let rhs: ShapeOrStack = stack.pop().unwrap();
                    let lhs: ShapeOrStack = stack.pop().unwrap();
                    proof {
                        assert(st.stack =~= rest.push(lhs).push(rhs));
                        lemma_registers_push(rest, lhs);
                        lemma_registers_push(rest.push(lhs), rhs);
                        lemma_registers_len(rest);
                        assert(stack@ =~= rest);
                    }
                    match hanle_binary_op(
                        op,
                        lhs,
                        rhs,
                        &mut current_transform,
                        font_render,
                        &mut used_stack_amount,
                    ) {
                        Some((commands, stack_index)) => {
                            let mut commands: Vec<DrawCommandGpu> = commands;
                            if used_stack_amount > max_stack_size {
                                max_stack_size = used_stack_amount;
                            }
                            stack.push(stack_index);
                            out.append(&mut commands);
                        },
                        None => {
                            proof {
                                lemma_compile_prefix(tokens, glyphs, i + 1);
                            }
                            return (Vec::new(), 0);
                        },
                    }
                },
            }
            i = i + 1;
        }
        proof {
            assert(tokens.take(n as int) =~= tokens);
            lemma_compile_wf(tokens, glyphs);
        }
        let ghost st = compile_tokens(tokens, glyphs)->0;
        let last: ShapeOrStack = stack.pop().unwrap();
        match last {
            ShapeOrStack::Shape(shape) => {
                if !emit_leaf(
                    shape,
                    font_render,
                    &mut current_transform,
                    OperationGpu::Replace,
                    0,
                    1,
                    &mut out,
                ) {
                    return (Vec::new(), 0);
                }
                if max_stack_size < 1 {
                    max_stack_size = 1;
                }
            },
            ShapeOrStack::Stack(_) => {},
        }
        let ghost done = commit_last(st, glyphs)->0;
        assert(out@ == done.out);
        assert(current_transform == done.transform);
        assert(max_stack_size as int == done.max);
        if current_transform != Transform2D::identity() {
            out.push(get_transform(Transform2D::identity()));
        }
        let corner: Vec2 = self.clip_rect.rb();
        out.push(
            DrawCommandGpu {
                command: CommandGpu::DrawRectangle.code(),
                stroke_width: -1i32,
                parameter: 0,
                smooth_function: 0,
                slots: [
                    [self.clip_rect.x, self.clip_rect.y, corner.x, corner.y],
                    [0, 0, 0, 0],
                    [0, 0, 0, 0],
                    [0, 0, 0, 0],
                ],
                operation: OperationGpu::And.code(),
                smooth_parameter: 0,
                lhs: 1,
            },
        );
        out.push(get_stack(1, OperationGpu::Or, 0));
        out.push(
            DrawCommandGpu {
                command: CommandGpu::SetBlendMode.code(),
                stroke_width: -1i32,
                parameter: 0,
                smooth_function: 0,
                slots: [
                    [self.blend_mode.code() as i32, 0, 0, 0],
                    [0, 0, 0, 0],
                    [0, 0, 0, 0],
                    [0, 0, 0, 0],
                ],
                operation: OperationGpu::Nop.code(),
                smooth_parameter: 0,
                lhs: 0,
            },
        );
        let (fill, slots): (CommandGpu, [[i32; 4]; 4]) = self.fill_mode.compile();
        out.push(
            DrawCommandGpu {
                command: fill.code(),
                stroke_width: -1i32,
                parameter: 0,
                smooth_function: 0,
                slots,
                operation: OperationGpu::Nop.code(),
                smooth_parameter: 0,
                lhs: 0,
            },
        );
        proof {
            assert(out@ =~= done.out + closing_commands(
                done.transform,
                self.fill_mode,
                self.blend_mode,
                self.clip_rect,
            ));
        }
        (out, max_stack_size + 1)
    }
}


/// The painter that widgets draw with.
///
/// A widget states shapes in its own coordinates; the painter shifts them to
/// where the widget lies, applies the current transform, and keeps them with
/// the current fill mode, blend mode and clip rectangle until the frame is
/// compiled.
#[derive(Debug)]
pub struct Painter {
    /// The transform applied to every shape drawn from now on.
    pub transform: Transform2D,
    /// The blend mode of every shape drawn from now on.
    pub blend_mode: BlendMode,
    /// The fill mode of every shape drawn from now on.
    pub fill_mode: FillMode,
    /// The shapes drawn so far, the first drawn first.
    pub shapes: Vec<ShapeToDraw>,
    /// The size of the window.
    pub window_size: Vec2,
    /// The position of the widget that draws: the origin of its coordinates.
    pub releative_to: Vec2,
    /// The clip rectangle of every shape drawn from now on.
    pub clip_rect: Rect,
}

/// Whether `entry` is what a painter in the state `painter` keeps for a
/// shape with the program `tokens`: every leaf shifted to the drawing
/// widget and then transformed, the fill shifted likewise.
pub open spec fn drawn_as(entry: ShapeToDraw, tokens: Seq<ShapeOrOp>, painter: Painter) -> bool {
    &&& entry.shape@.len() == tokens.len()
    &&& forall|i: int|
        0 <= i < tokens.len() ==> #[trigger] entry.shape@[i] == transformed_token(
            moved_token(tokens[i], painter.releative_to),
            painter.transform,
        )
    &&& stack_depth(entry.shape@) == stack_depth(tokens)
    &&& entry.fill_mode == painter.fill_mode.spec_move_by(painter.releative_to)
    &&& entry.blend_mode == painter.blend_mode
    &&& entry.clip_rect == painter.clip_rect
}

/// Whether the painter `after` is the painter `before` with one more shape,
/// the one with the program `tokens`, drawn last.
pub open spec fn draws(before: Painter, after: Painter, tokens: Seq<ShapeOrOp>) -> bool {
    &&& after.shapes@.len() == before.shapes@.len() + 1
    &&& forall|i: int| 0 <= i < before.shapes@.len() ==> after.shapes@[i] == before.shapes@[i]
    &&& drawn_as(after.shapes@[before.shapes@.len() as int], tokens, before)
    &&& after.transform == before.transform
    &&& after.blend_mode == before.blend_mode
    &&& after.fill_mode == before.fill_mode
    &&& after.window_size == before.window_size
    &&& after.releative_to == before.releative_to
    &&& after.clip_rect == before.clip_rect
}

/// The program of one basic shape.
pub open spec fn leaf_tokens(data: BasicShapeData, stroke: Option<i32>) -> Seq<ShapeOrOp> {
    seq![
        ShapeOrOp::Shape(
            BasicShape { data, transform: Transform2D::spec_identity(), stroke },
        ),
    ]
}

/// The commands that one shape contributes to a frame that redraws
/// `dirty_rect`: its own commands where it is visible there, none otherwise.
pub open spec fn shape_commands(shape: ShapeToDraw, glyphs: Map<u64, u32>, dirty_rect: Rect) -> Seq<
    DrawCommandGpu,
> {
    if shape.spec_is_visible_in_rect(dirty_rect) {
        shape.spec_parse(glyphs).0
    } else {
        Seq::empty()
    }
}

/// The registers that one shape asks of a frame that redraws `dirty_rect`.
pub open spec fn shape_depth(shape: ShapeToDraw, glyphs: Map<u64, u32>, dirty_rect: Rect) -> u32 {
    if shape.spec_is_visible_in_rect(dirty_rect) {
        shape.spec_parse(glyphs).1
    } else {
        0
    }
}

/// The commands of a frame: those of each shape, the shape drawn last first.
pub open spec fn frame_commands(
    shapes: Seq<ShapeToDraw>,
    glyphs: Map<u64, u32>,
    dirty_rect: Rect,
) -> Seq<DrawCommandGpu>
    decreases shapes.len(),
{
    if shapes.len() == 0 {
        Seq::empty()
    } else {
        shape_commands(shapes.last(), glyphs, dirty_rect) + frame_commands(
            shapes.drop_last(),
            glyphs,
            dirty_rect,
        )
    }
}

/// The registers that a frame needs: as many as the shape that needs most.
pub open spec fn frame_depth(shapes: Seq<ShapeToDraw>, glyphs: Map<u64, u32>, dirty_rect: Rect) -> u32
    decreases shapes.len(),
{
    if shapes.len() == 0 {
        0
    } else {
        let last = shape_depth(shapes.last(), glyphs, dirty_rect);
        let rest = frame_depth(shapes.drop_last(), glyphs, dirty_rect);
        if last > rest {
            last
        } else {
            rest
        }
    }
}

/// Where in a frame the commands of the shape drawn as number `i` begin.
pub open spec fn segment_start(
    shapes: Seq<ShapeToDraw>,
    glyphs: Map<u64, u32>,
    dirty_rect: Rect,
    i: int,
) -> int
    decreases shapes.len(),
{
    if shapes.len() == 0 || i >= shapes.len() - 1 {
        0
    } else {
        shape_commands(shapes.last(), glyphs, dirty_rect).len() + segment_start(
            shapes.drop_last(),
            glyphs,
            dirty_rect,
            i,
        )
    }
}

/// The commands of every shape stand in the frame unbroken, and those of a
/// shape drawn later end before those of a shape drawn earlier begin: what
/// is drawn last is composited first.
pub proof fn lemma_paint_order(
    shapes: Seq<ShapeToDraw>,
    glyphs: Map<u64, u32>,
    dirty_rect: Rect,
    i: int,
    j: int,
)
    requires
        0 <= i < j < shapes.len(),
    ensures
        segment_start(shapes, glyphs, dirty_rect, j) + shape_commands(
            shapes[j],
            glyphs,
            dirty_rect,
        ).len() <= segment_start(shapes, glyphs, dirty_rect, i),
        frame_commands(shapes, glyphs, dirty_rect).subrange(
            segment_start(shapes, glyphs, dirty_rect, i),
            segment_start(shapes, glyphs, dirty_rect, i) + shape_commands(
                shapes[i],
                glyphs,
                dirty_rect,
            ).len(),
        ) == shape_commands(shapes[i], glyphs, dirty_rect),
        frame_commands(shapes, glyphs, dirty_rect).subrange(
            segment_start(shapes, glyphs, dirty_rect, j),
            segment_start(shapes, glyphs, dirty_rect, j) + shape_commands(
                shapes[j],
                glyphs,
                dirty_rect,
            ).len(),
        ) == shape_commands(shapes[j], glyphs, dirty_rect),
    decreases shapes.len(),
{
    lemma_segment(shapes, glyphs, dirty_rect, i);
    lemma_segment(shapes, glyphs, dirty_rect, j);
    lemma_segment_order(shapes, glyphs, dirty_rect, i, j);
}

/// The commands of the shape drawn as number `i` stand in the frame, unbroken,
/// from [`segment_start`] on.
pub proof fn lemma_segment(shapes: Seq<ShapeToDraw>, glyphs: Map<u64, u32>, dirty_rect: Rect, i: int)
    requires
        0 <= i < shapes.len(),
    ensures
        0 <= segment_start(shapes, glyphs, dirty_rect, i),
        segment_start(shapes, glyphs, dirty_rect, i) + shape_commands(
            shapes[i],
            glyphs,
            dirty_rect,
        ).len() <= frame_commands(shapes, glyphs, dirty_rect).len(),
        frame_commands(shapes, glyphs, dirty_rect).subrange(
            segment_start(shapes, glyphs, dirty_rect, i),
            segment_start(shapes, glyphs, dirty_rect, i) + shape_commands(
                shapes[i],
                glyphs,
                dirty_rect,
            ).len(),
        ) == shape_commands(shapes[i], glyphs, dirty_rect),
    decreases shapes.len(),
{
    let frame = frame_commands(shapes, glyphs, dirty_rect);
    let head = shape_commands(shapes.last(), glyphs, dirty_rect);
    let own = shape_commands(shapes[i], glyphs, dirty_rect);
    if i == shapes.len() - 1 {
        assert(frame.subrange(0, own.len() as int) =~= own);
    } else {
        let rest = shapes.drop_last();
        lemma_segment(rest, glyphs, dirty_rect, i);
        let start = segment_start(rest, glyphs, dirty_rect, i);
        assert(rest[i] == shapes[i]);
        assert(frame.subrange(head.len() + start, head.len() + start + own.len()) =~= frame_commands(
            rest,
            glyphs,
            dirty_rect,
        ).subrange(start, start + own.len()));
    }
}

/// The commands of a shape drawn later end before those of a shape drawn
/// earlier begin.
pub proof fn lemma_segment_order(
    shapes: Seq<ShapeToDraw>,
    glyphs: Map<u64, u32>,
    dirty_rect: Rect,
    i: int,
    j: int,
)
    requires
        0 <= i < j < shapes.len(),
    ensures
        segment_start(shapes, glyphs, dirty_rect, j) + shape_commands(
            shapes[j],
            glyphs,
            dirty_rect,
        ).len() <= segment_start(shapes, glyphs, dirty_rect, i),
    decreases shapes.len(),
{
    if j == shapes.len() - 1 {
        lemma_segment(shapes.drop_last(), glyphs, dirty_rect, i);
    } else {
        let rest = shapes.drop_last();
        assert(rest[i] == shapes[i]);
        assert(rest[j] == shapes[j]);
        lemma_segment_order(rest, glyphs, dirty_rect, i, j);
    }
}

impl Painter {
    /// Whether every shape drawn so far can be compiled: it has no tokens
    /// at all, or a valid program.
    pub open spec fn all_drawable(&self) -> bool {
        forall|i: int|
            0 <= i < self.shapes@.len() ==> (#[trigger] self.shapes@[i]).shape@.len() == 0
                || self.shapes@[i].compilable()
    }

    /// A painter for a window of the given size, with nothing drawn.
    pub fn new(window_size: Vec2) -> (p: Painter)
        ensures
            p.shapes@.len() == 0,
            p.window_size == window_size,
            p.transform == Transform2D::spec_identity(),
            p.blend_mode == BlendMode::AlphaAdd,
            p.fill_mode == FillMode::Color(Color { r: 0, g: 0, b: 0, a: 0 }),
            p.releative_to == Vec2::spec_zero(),
            p.clip_rect == Rect::spec_zero(),
    {
        Painter {
            transform: Transform2D::identity(),
            blend_mode: BlendMode::AlphaAdd,
            fill_mode: FillMode::Color(Color::transparent()),
            shapes: Vec::new(),
            window_size,
            releative_to: Vec2::zero(),
            clip_rect: Rect::zero(),
        }
    }

    /// The position of the widget that draws.
    pub fn releative_to(&self) -> (r: Vec2)
        ensures
            r == self.releative_to,
    {
        self.releative_to
    }

    /// The current clip rectangle.
    pub fn clip_rect(&self) -> (r: Rect)
        ensures
            r == self.clip_rect,
    {
        self.clip_rect
    }

    /// Makes the identity the current transform.
    pub fn reset_transform(&mut self)
        ensures
            *final(self) == (Painter { transform: Transform2D::spec_identity(), ..*old(self) }),
    {
        self.transform = Transform2D::identity();
    }

    /// Makes the default blend mode the current one.
    pub fn reset_blend_mode(&mut self)
        ensures
            *final(self) == (Painter { blend_mode: BlendMode::AlphaAdd, ..*old(self) }),
    {
        self.blend_mode = BlendMode::AlphaAdd;
    }

    /// Makes the default fill mode, a transparent colour, the current one.
    pub fn reset_fill_mode(&mut self)
        ensures
            *final(self) == (Painter {
                fill_mode: FillMode::Color(Color { r: 0, g: 0, b: 0, a: 0 }),
                ..*old(self)
            }),
    {
        self.fill_mode = FillMode::Color(Color::transparent());
    }

    /// Sets the fill mode of the shapes drawn from now on.
    pub fn set_fill_mode(&mut self, fill_mode: FillMode)
        ensures
            *final(self) == (Painter { fill_mode, ..*old(self) }),
    {
        self.fill_mode = fill_mode;
    }

    /// Sets the blend mode of the shapes drawn from now on.
    pub fn set_blend_mode(&mut self, blend_mode: BlendMode)
        ensures
            *final(self) == (Painter { blend_mode, ..*old(self) }),
    {
        self.blend_mode = blend_mode;
    }

    /// Sets the transform of the shapes drawn from now on.
    pub fn set_transform(&mut self, transform: Transform2D)
        ensures
            *final(self) == (Painter { transform, ..*old(self) }),
    {
        self.transform = transform;
    }

    /// Moves what is drawn from now on by `to`, after the current transform.
    pub fn then_translate(&mut self, to: Vec2)
        ensures
            *final(self) == (Painter {
                transform: old(self).transform.spec_mul(
                    Transform2D { a: 1, b: 0, c: to.x, d: 0, e: 1, f: to.y },
                ),
                ..*old(self)
            }),
    {
        self.transform = self.transform.mul(Transform2D::translate(to));
    }

    /// Scales what is drawn from now on by `factors`, after the current transform.
    pub fn then_scale(&mut self, factors: Vec2)
        ensures
            *final(self) == (Painter {
                transform: old(self).transform.spec_mul(
                    Transform2D { a: factors.x, b: 0, c: 0, d: 0, e: factors.y, f: 0 },
                ),
                ..*old(self)
            }),
    {
        self.transform = self.transform.mul(Transform2D::scale(factors));
    }

    /// Moves what is drawn from now on by `to`, before the current transform.
    pub fn pre_translate(&mut self, to: Vec2)
        ensures
            *final(self) == (Painter {
                transform: (Transform2D { a: 1, b: 0, c: to.x, d: 0, e: 1, f: to.y }).spec_mul(
                    old(self).transform,
                ),
                ..*old(self)
            }),
    {
        self.transform = Transform2D::translate(to).mul(self.transform);
    }

    /// Scales what is drawn from now on by `factors`, before the current transform.
    pub fn pre_scale(&mut self, factors: Vec2)
        ensures
            *final(self) == (Painter {
                transform: (Transform2D {
                    a: factors.x,
                    b: 0,
                    c: 0,
                    d: 0,
                    e: factors.y,
                    f: 0,
                }).spec_mul(old(self).transform),
                ..*old(self)
            }),
    {
        self.transform = Transform2D::scale(factors).mul(self.transform);
    }

    /// Sets the position of the widget that draws.
    pub fn set_relative_to(&mut self, pos: Vec2)
        ensures
            *final(self) == (Painter { releative_to: pos, ..*old(self) }),
    {
        self.releative_to = pos;
    }

    /// Sets the clip rectangle of the shapes drawn from now on.
    pub fn set_clip_rect(&mut self, rect: Rect)
        ensures
            *final(self) == (Painter { clip_rect: rect, ..*old(self) }),
    {
        self.clip_rect = rect;
    }

    /// Draws a shape: it is shifted to the drawing widget, transformed, and
    /// kept with the current fill mode, blend mode and clip rectangle.
    pub fn draw_shape(&mut self, shape: Shape)
        ensures
            draws(*old(self), *final(self), shape@),
    {
        let ghost tokens = shape@;
        let moved: Shape = shape.move_by(self.releative_to);
        let ghost between = moved@;
        let placed: Shape = moved.transform(self.transform);
        let mut fill: FillMode = self.fill_mode;
        fill.move_by(self.releative_to);
        proof {
            assert forall|i: int| 0 <= i < tokens.len() implies #[trigger] placed@[i]
                == transformed_token(moved_token(tokens[i], self.releative_to), self.transform) by {
                assert(between[i] == moved_token(tokens[i], self.releative_to));
                assert(placed@[i] == transformed_token(between[i], self.transform));
            }
        }
        self.shapes.push(
            ShapeToDraw {
                shape: placed,
                fill_mode: fill,
                blend_mode: self.blend_mode,
                clip_rect: self.clip_rect,
            },
        );
    }

    /// Draws a shape that brings its own fill mode, blend mode and clip
    /// rectangle; the clip rectangle is cut to the current one.
    pub fn draw_shape_detailed(&mut self, shape: ShapeToDraw)
        ensures
            final(self).shapes@.len() == old(self).shapes@.len() + 1,
            forall|i: int|
                0 <= i < old(self).shapes@.len() ==> final(self).shapes@[i] == old(self).shapes@[i],
            drawn_as(
                final(self).shapes@[old(self).shapes@.len() as int],
                shape.shape@,
                Painter {
                    fill_mode: shape.fill_mode,
                    blend_mode: shape.blend_mode,
                    clip_rect: shape.clip_rect.spec_intersection(old(self).clip_rect),
                    ..*old(self)
                },
            ),
            final(self).transform == old(self).transform,
            final(self).blend_mode == old(self).blend_mode,
            final(self).fill_mode == old(self).fill_mode,
            final(self).window_size == old(self).window_size,
            final(self).releative_to == old(self).releative_to,
            final(self).clip_rect == old(self).clip_rect,
    {
        let ghost tokens = shape.shape@;
        let mut fill_mode: FillMode = shape.fill_mode;
        fill_mode.move_by(self.releative_to);
        let blend_mode: BlendMode = shape.blend_mode;
        let clip_rect: Rect = shape.clip_rect.intersection(self.clip_rect);
        let moved: Shape = shape.shape.move_by(self.releative_to);
        let ghost between = moved@;
        let placed: Shape = moved.transform(self.transform);
        proof {
            assert forall|i: int| 0 <= i < tokens.len() implies #[trigger] placed@[i]
                == transformed_token(moved_token(tokens[i], self.releative_to), self.transform) by {
                assert(between[i] == moved_token(tokens[i], self.releative_to));
                assert(placed@[i] == transformed_token(between[i], self.transform));
            }
        }
        self.shapes.push(ShapeToDraw { shape: placed, fill_mode, blend_mode, clip_rect });
    }

    /// Draws a filled rectangle with rounded corners.
    pub fn draw_rect(&mut self, rect: Rect, rounding: Vec4)
        ensures
            draws(
                *old(self),
                *final(self),
                leaf_tokens(
                    BasicShapeData::Rectangle(
                        Vec2 { x: rect.x, y: rect.y },
                        rect.spec_rb(),
                        rounding,
                    ),
                    None,
                ),
            ),
    {
        self.draw_shape(
            Shape::from_data(BasicShapeData::Rectangle(rect.lt(), rect.rb(), rounding)),
        );
    }

    /// Draws the outline of a rectangle with rounded corners.
    pub fn draw_stroked_rect(&mut self, rect: Rect, rounding: Vec4, width: i32)
        ensures
            draws(
                *old(self),
                *final(self),
                leaf_tokens(
                    BasicShapeData::Rectangle(
                        Vec2 { x: rect.x, y: rect.y },
                        rect.spec_rb(),
                        rounding,
                    ),
                    Some(width),
                ),
            ),
    {
        let shape: BasicShape = BasicShape::new(
            BasicShapeData::Rectangle(rect.lt(), rect.rb(), rounding),
        ).stroke(width);
        self.draw_shape(Shape::from_shape(shape));
    }

    /// Draws a filled circle.
    pub fn draw_circle(&mut self, center: Vec2, radius: i32)
        ensures
            draws(*old(self), *final(self), leaf_tokens(BasicShapeData::Circle(center, radius), None)),
    {
        self.draw_shape(Shape::from_data(BasicShapeData::Circle(center, radius)));
    }

    /// Draws the outline of a circle.
    pub fn draw_stroked_circle(&mut self, center: Vec2, radius: i32, width: i32)
        ensures
            draws(
                *old(self),
                *final(self),
                leaf_tokens(BasicShapeData::Circle(center, radius), Some(width)),
            ),
    {
        let shape: BasicShape = BasicShape::new(BasicShapeData::Circle(center, radius)).stroke(width);
        self.draw_shape(Shape::from_shape(shape));
    }

    /// Draws a filled triangle.
    pub fn draw_triangle(&mut self, a: Vec2, b: Vec2, c: Vec2)
        ensures
            draws(*old(self), *final(self), leaf_tokens(BasicShapeData::Triangle(a, b, c), None)),
    {
        self.draw_shape(Shape::from_data(BasicShapeData::Triangle(a, b, c)));
    }

    /// Draws the outline of a triangle.
    pub fn draw_stroked_triangle(&mut self, a: Vec2, b: Vec2, c: Vec2, width: i32)
        ensures
            draws(
                *old(self),
                *final(self),
                leaf_tokens(BasicShapeData::Triangle(a, b, c), Some(width)),
            ),
    {
        let shape: BasicShape = BasicShape::new(BasicShapeData::Triangle(a, b, c)).stroke(width);
        self.draw_shape(Shape::from_shape(shape));
    }

    /// Draws the half plane on one side of the line through `a` and `b`.
    pub fn draw_half_plane(&mut self, a: Vec2, b: Vec2)
        ensures
            draws(*old(self), *final(self), leaf_tokens(BasicShapeData::HalfPlane(a, b), None)),
    {
        self.draw_shape(Shape::from_data(BasicShapeData::HalfPlane(a, b)));
    }

    /// Draws the line through `a` and `b`, `width` wide.
    pub fn draw_line(&mut self, a: Vec2, b: Vec2, width: i32)
        ensures
            draws(*old(self), *final(self), leaf_tokens(BasicShapeData::HalfPlane(a, b), Some(width))),
    {
        let shape: BasicShape = BasicShape::new(BasicShapeData::HalfPlane(a, b)).stroke(width);
        self.draw_shape(Shape::from_shape(shape));
    }

    /// Draws the convex side of a quadratic Bezier curve.
    pub fn draw_quad_half_plane(&mut self, a: Vec2, b: Vec2, c: Vec2)
        ensures
            draws(
                *old(self),
                *final(self),
                leaf_tokens(BasicShapeData::QuadBezierPlane(a, b, c), None),
            ),
    {
        self.draw_shape(Shape::from_data(BasicShapeData::QuadBezierPlane(a, b, c)));
    }

    /// Draws a quadratic Bezier curve, `width` wide.
    pub fn draw_quad_bezier(&mut self, a: Vec2, b: Vec2, c: Vec2, width: i32)
        ensures
            draws(
                *old(self),
                *final(self),
                leaf_tokens(BasicShapeData::QuadBezierPlane(a, b, c), Some(width)),
            ),
    {
        let shape: BasicShape = BasicShape::new(BasicShapeData::QuadBezierPlane(a, b, c)).stroke(
            width,
        );
        self.draw_shape(Shape::from_shape(shape));
    }

    /// Draws a distance-field texture into `rect`, which is stated in the
    /// coordinates of the drawing widget.
    pub fn draw_sdf_texture(&mut self, rect: Rect, texture_id: u32)
        ensures
            draws(
                *old(self),
                *final(self),
                leaf_tokens(
                    BasicShapeData::SDFTexture(
                        Vec2 {
                            x: rect.spec_move_by(old(self).releative_to).x,
                            y: rect.spec_move_by(old(self).releative_to).y,
                        },
                        rect.spec_move_by(old(self).releative_to).spec_rb(),
                        texture_id,
                    ),
                    None,
                ),
            ),
    {
        let rect: Rect = rect.move_by(self.releative_to);
        self.draw_shape(Shape::from_data(BasicShapeData::SDFTexture(rect.lt(), rect.rb(), texture_id)));
    }

    /// Compiles the shapes that can show inside `dirty_rect` into the
    /// commands of one frame, and says how many registers the frame needs.
    ///
    /// The shape drawn last is compiled first, so that it is composited
    /// first; the commands of each shape stay together.
    pub fn parse(self, font_render: &FontRender, dirty_rect: Rect) -> (r: (Vec<DrawCommandGpu>, u32))
        requires
            self.all_drawable(),
        ensures
            r.0@ == frame_commands(self.shapes@, font_render@, dirty_rect),
            r.1 == frame_depth(self.shapes@, font_render@, dirty_rect),
    {
        let mut shapes: Vec<ShapeToDraw> = self.shapes;
        let ghost all = shapes@;
        let ghost glyphs = font_render@;
        let mut out: Vec<DrawCommandGpu> = Vec::new();
        let mut expect_stack_size: u32 = 0;
        while shapes.len() > 0
            invariant
                glyphs == font_render@,
                forall|i: int|
                    0 <= i < shapes@.len() ==> (#[trigger] shapes@[i]).shape@.len() == 0
                        || shapes@[i].compilable(),
                out@ + frame_commands(shapes@, glyphs, dirty_rect) == frame_commands(
                    all,
                    glyphs,
                    dirty_rect,
                ),
                frame_depth(all, glyphs, dirty_rect) == if expect_stack_size > frame_depth(
                    shapes@,
                    glyphs,
                    dirty_rect,
                ) {
                    expect_stack_size
                } else {
                    frame_depth(shapes@, glyphs, dirty_rect)
                },
            decreases shapes@.len(),
        {
            let ghost before = shapes@;
            let ghost so_far = out@;
            let shape: ShapeToDraw = shapes.pop().unwrap();
            assert(shapes@ =~= before.drop_last());
            assert(shape == before.last());
            if shape.is_visible_in_rect(dirty_rect) {
                let (commands, size): (Vec<DrawCommandGpu>, u32) = shape.parse(font_render);
                let mut commands: Vec<DrawCommandGpu> = commands;
                if size > expect_stack_size {
                    expect_stack_size = size;
                }
                out.append(&mut commands);
            }
            assert(out@ + frame_commands(shapes@, glyphs, dirty_rect) =~= so_far + frame_commands(
                before,
                glyphs,
                dirty_rect,
            ));
        }
        assert(out@ + frame_commands(shapes@, glyphs, dirty_rect) =~= out@);
        (out, expect_stack_size)
    }
}

} // verus!
