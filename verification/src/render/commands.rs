//! The command record that the renderer executes.

use vstd::prelude::*;

verus! {

/// One instruction for the renderer.
///
/// Every number in it is an integer: lengths and coordinates in pixels,
/// colour channels in 255ths, register and resource indices as they are.
#[derive(Clone, Copy, Debug, PartialEq, Eq)]
pub struct DrawCommandGpu {
    /// The code of a [`CommandGpu`].
    pub command: u32,
    /// The stroke width of the shape; -1 where it is filled.
    pub stroke_width: i32,
    /// The parameter of the operation, where it takes one.
    pub parameter: i32,
    /// The code of a smoothing function, 0 for none.
    pub smooth_function: u32,
    /// The operands of the command.
    pub slots: [[i32; 4]; 4],
    /// The code of an [`OperationGpu`]: how the result meets the register.
    pub operation: u32,
    /// The parameter of the smoothing function.
    pub smooth_parameter: i32,
    /// The register that the command writes.
    pub lhs: u32,
}

/// Slots that hold nothing.
pub open spec fn empty_slots() -> [[i32; 4]; 4] {
    [[0, 0, 0, 0], [0, 0, 0, 0], [0, 0, 0, 0], [0, 0, 0, 0]]
}

impl DrawCommandGpu {
    /// The command that does nothing.
    pub open spec fn spec_default() -> DrawCommandGpu {
        DrawCommandGpu {
            command: 0,
            stroke_width: 0,
            parameter: 0,
            smooth_function: 0,
            slots: empty_slots(),
            operation: 0,
            smooth_parameter: 0,
            lhs: 0,
        }
    }
}

impl Default for DrawCommandGpu {
    fn default() -> (c: DrawCommandGpu)
        ensures
            c == DrawCommandGpu::spec_default(),
    {
        DrawCommandGpu {
            command: 0,
            stroke_width: 0,
            parameter: 0,
            smooth_function: 0,
            slots: [[0, 0, 0, 0], [0, 0, 0, 0], [0, 0, 0, 0], [0, 0, 0, 0]],
            operation: 0,
            smooth_parameter: 0,
            lhs: 0,
        }
    }
}

/// What a command does.
#[derive(Clone, Copy, Debug, PartialEq, Eq, Structural)]
pub enum CommandGpu {
    /// Nothing.
    Nop,
    /// A circle: centre and radius.
    DrawCircle,
    /// A triangle: three points.
    DrawTriangle,
    /// A rectangle: two corners and four roundings.
    DrawRectangle,
    /// A half plane: two points on its edge.
    DrawHalfPlane,
    /// The inside of a quadratic Bezier curve: three points.
    DrawQuadPlane,
    /// A distance-field texture: two corners and the texture.
    DrawSDFTexture,
    /// One character: position, size and its place in the font atlas.
    DrawChar,
    /// Fills what register 0 covers with one colour.
    Fill,
    /// Fills with a linear gradient: two colours, two points.
    FillLinearGradient,
    /// Fills with a radial gradient: two colours, centre and radius.
    FillRadialGradient,
    /// Fills with a texture: target corners, texture corners, the texture.
    FillTexture,
    /// Sets the transform of the shapes that follow.
    SetMat3x3,
    /// Sets the blend mode of the fill that follows.
    SetBlendMode,
    /// Reads a register as if it were a shape.
    Load,
}

impl CommandGpu {
    /// The number that stands for the command in a [`DrawCommandGpu`].
    pub open spec fn spec_code(self) -> u32 {
        match self {
            CommandGpu::Nop => 0,
            CommandGpu::DrawCircle => 1,
            CommandGpu::DrawTriangle => 2,
            CommandGpu::DrawRectangle => 3,
            CommandGpu::DrawHalfPlane => 4,
            CommandGpu::DrawQuadPlane => 5,
            CommandGpu::DrawSDFTexture => 6,
            CommandGpu::DrawChar => 7,
            CommandGpu::Fill => 8,
            CommandGpu::FillLinearGradient => 9,
            CommandGpu::FillRadialGradient => 10,
            CommandGpu::FillTexture => 11,
            CommandGpu::SetMat3x3 => 12,
            CommandGpu::SetBlendMode => 13,
            CommandGpu::Load => 14,
        }
    }

    /// The number that stands for the command in a [`DrawCommandGpu`].
    #[verifier::when_used_as_spec(spec_code)]
    pub fn code(self) -> (c: u32)
        ensures
            c == self.spec_code(),
    {
        match self {
            CommandGpu::Nop => 0,
            CommandGpu::DrawCircle => 1,
            CommandGpu::DrawTriangle => 2,
            CommandGpu::DrawRectangle => 3,
            CommandGpu::DrawHalfPlane => 4,
            CommandGpu::DrawQuadPlane => 5,
            CommandGpu::DrawSDFTexture => 6,
            CommandGpu::DrawChar => 7,
            CommandGpu::Fill => 8,
            CommandGpu::FillLinearGradient => 9,
            CommandGpu::FillRadialGradient => 10,
            CommandGpu::FillTexture => 11,
            CommandGpu::SetMat3x3 => 12,
            CommandGpu::SetBlendMode => 13,
            CommandGpu::Load => 14,
        }
    }
}

impl Default for CommandGpu {
    fn default() -> (c: CommandGpu)
        ensures
            c == CommandGpu::Nop,
    {
        CommandGpu::Nop
    }
}

/// How the field that a command computes (the right-hand side) meets the
/// register it writes (the left-hand side).
#[derive(Clone, Copy, Debug, PartialEq, Eq, Structural)]
pub enum OperationGpu {
    /// Leaves the register as it is.
    Nop,
    /// Overwrites the register.
    Replace,
    /// Overwrites the register where the new field is inside.
    ReplaceWhenInside,
    /// Overwrites the register where the new field is outside.
    ReplaceWhenOutside,
    /// Intersection: the larger of the two values.
    And,
    /// Union: the smaller of the two values.
    Or,
    /// Symmetric difference.
    Xor,
    /// Difference: the larger of the left value and the negated right value.
    Sub,
    /// The negated right value.
    Neg,
    /// Linear blend by the parameter.
    Lerp,
    /// Smooth-step blend by the parameter.
    SmoothStep,
    /// Logistic blend by the parameter.
    Sigmoid,
}

impl OperationGpu {
    /// The number that stands for the operation in a [`DrawCommandGpu`].
    pub open spec fn spec_code(self) -> u32 {
        match self {
            OperationGpu::Nop => 0,
            OperationGpu::Replace => 1,
            OperationGpu::ReplaceWhenInside => 2,
            OperationGpu::ReplaceWhenOutside => 3,
            OperationGpu::And => 4,
            OperationGpu::Or => 5,
            OperationGpu::Xor => 6,
            OperationGpu::Sub => 7,
            OperationGpu::Neg => 8,
            OperationGpu::Lerp => 9,
            OperationGpu::SmoothStep => 10,
            OperationGpu::Sigmoid => 11,
        }
    }

    /// The number that stands for the operation in a [`DrawCommandGpu`].
    #[verifier::when_used_as_spec(spec_code)]
    pub fn code(self) -> (c: u32)
        ensures
            c == self.spec_code(),
    {
        match self {
            OperationGpu::Nop => 0,
            OperationGpu::Replace => 1,
            OperationGpu::ReplaceWhenInside => 2,
            OperationGpu::ReplaceWhenOutside => 3,
            OperationGpu::And => 4,
            OperationGpu::Or => 5,
            OperationGpu::Xor => 6,
            OperationGpu::Sub => 7,
            OperationGpu::Neg => 8,
            OperationGpu::Lerp => 9,
            OperationGpu::SmoothStep => 10,
            OperationGpu::Sigmoid => 11,
        }
    }
}

impl Default for OperationGpu {
    fn default() -> (c: OperationGpu)
        ensures
            c == OperationGpu::ReplaceWhenInside,
    {
        OperationGpu::ReplaceWhenInside
    }
}

/// How the colour of a fill meets the colour already on the target.
#[derive(Clone, Copy, Debug, PartialEq, Eq, Structural)]
pub enum BlendMode {
    /// The new colour replaces the old one.
    Replace,
    /// The sum of both.
    Add,
    /// The product of both.
    Multiply,
    /// The old colour less the new one.
    Subtract,
    /// The new colour divided by the old one.
    Divide,
    /// The smaller of both.
    Min,
    /// The larger of both.
    Max,
    /// The new colour times its alpha, added to the old one.
    AlphaAdd,
}

impl BlendMode {
    /// The number that stands for the blend mode in a command.
    pub open spec fn spec_code(self) -> u32 {
        match self {
            BlendMode::Replace => 0,
            BlendMode::Add => 1,
            BlendMode::Multiply => 2,
            BlendMode::Subtract => 3,
            BlendMode::Divide => 4,
            BlendMode::Min => 5,
            BlendMode::Max => 6,
            BlendMode::AlphaAdd => 7,
        }
    }

    /// The number that stands for the blend mode in a command.
    #[verifier::when_used_as_spec(spec_code)]
    pub fn code(self) -> (c: u32)
        ensures
            c == self.spec_code(),
    {
        match self {
            BlendMode::Replace => 0,
            BlendMode::Add => 1,
            BlendMode::Multiply => 2,
            BlendMode::Subtract => 3,
            BlendMode::Divide => 4,
            BlendMode::Min => 5,
            BlendMode::Max => 6,
            BlendMode::AlphaAdd => 7,
        }
    }
}

impl Default for BlendMode {
    fn default() -> (m: BlendMode)
        ensures
            m == BlendMode::AlphaAdd,
    {
        BlendMode::AlphaAdd
    }
}

} // verus!
