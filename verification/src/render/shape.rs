//! Shapes: basic signed-distance primitives and postfix programs over them.

use vstd::prelude::*;
use crate::math::color::{Color, Vec4};
use crate::math::rect::{max_int, min_int, Rect};
use crate::math::transform2d::Transform2D;
use crate::math::vec2::{saturate, saturating, Vec2};

verus! {

/// An operator of a shape program. The operators have no precedence: a
/// program is evaluated from left to right, in postfix order.
///
/// On the distance field (negative outside, otherwise inside):
/// `And` is the larger value, `Or` the smaller, `Xor` is
/// `lhs + rhs - 2 * min(lhs, rhs)`, `Minus` is `max(lhs, -rhs)`, `Not`
/// negates, and the last three blend both operands by a weight in 256ths.
#[derive(Clone, Copy, Debug, PartialEq, Eq, Structural)]
pub enum Operator {
    /// The intersection of two shapes.
    And,
    /// The union of two shapes.
    Or,
    /// The first shape without the second.
    Minus,
    /// The symmetric difference of two shapes.
    Xor,
    /// The complement of one shape.
    Not,
    /// A linear blend of two shapes.
    Lerp(i32),
    /// A smooth-step blend of two shapes.
    SmoothStep(i32),
    /// A logistic blend of two shapes.
    Sigmoid(i32),
}

impl Operator {
    /// Whether the operator takes one operand.
    pub open spec fn is_unary(self) -> bool {
        self == Operator::Not
    }
}

/// The geometry of a basic shape.
#[derive(Clone, Copy, Debug, PartialEq, Eq)]
pub enum BasicShapeData {
    /// A circle: centre and radius.
    Circle(Vec2, i32),
    /// A triangle: three points.
    Triangle(Vec2, Vec2, Vec2),
    /// A rectangle: top-left corner, bottom-right corner, corner roundings.
    Rectangle(Vec2, Vec2, Vec4),
    /// A half plane: two points on its edge.
    HalfPlane(Vec2, Vec2),
    /// The convex side of a quadratic Bezier curve: three points.
    QuadBezierPlane(Vec2, Vec2, Vec2),
    /// A distance-field texture: two corners and the texture.
    SDFTexture(Vec2, Vec2, u32),
    /// One character: position, font, size, character.
    Text(Vec2, u32, i32, char),
}

/// The bounding box of three points.
pub open spec fn bounds_of_three(first: Vec2, second: Vec2, third: Vec2) -> Rect {
    Rect::spec_from_ltrb(
        Vec2 {
            x: min_int(min_int(first.x as int, second.x as int), third.x as int) as i32,
            y: min_int(min_int(first.y as int, second.y as int), third.y as int) as i32,
        },
        Vec2 {
            x: max_int(max_int(first.x as int, second.x as int), third.x as int) as i32,
            y: max_int(max_int(first.y as int, second.y as int), third.y as int) as i32,
        },
    )
}

fn bounding_three(first: Vec2, second: Vec2, third: Vec2) -> (r: Rect)
    ensures
        r == bounds_of_three(first, second, third),
{
    let min_x: i32 = if first.x <= second.x { first.x } else { second.x };
    let min_x: i32 = if min_x <= third.x { min_x } else { third.x };
    let min_y: i32 = if first.y <= second.y { first.y } else { second.y };
    let min_y: i32 = if min_y <= third.y { min_y } else { third.y };
    let max_x: i32 = if first.x >= second.x { first.x } else { second.x };
    let max_x: i32 = if max_x >= third.x { max_x } else { third.x };
    let max_y: i32 = if first.y >= second.y { first.y } else { second.y };
    let max_y: i32 = if max_y >= third.y { max_y } else { third.y };
    Rect::from_ltrb(Vec2 { x: min_x, y: min_y }, Vec2 { x: max_x, y: max_y })
}

impl BasicShapeData {
    /// The geometry with every point shifted by `offset`.
    pub open spec fn spec_move_by(self, offset: Vec2) -> BasicShapeData {
        match self {
            BasicShapeData::Circle(center, radius) => BasicShapeData::Circle(
                center.spec_plus(offset),
                radius,
            ),
            BasicShapeData::Triangle(first, second, third) => BasicShapeData::Triangle(
                first.spec_plus(offset),
                second.spec_plus(offset),
                third.spec_plus(offset),
            ),
            BasicShapeData::Rectangle(lt, rb, rounding) => BasicShapeData::Rectangle(
                lt.spec_plus(offset),
                rb.spec_plus(offset),
                rounding,
            ),
            BasicShapeData::HalfPlane(first, second) => BasicShapeData::HalfPlane(
                first.spec_plus(offset),
                second.spec_plus(offset),
            ),
            BasicShapeData::QuadBezierPlane(first, second, third) => BasicShapeData::QuadBezierPlane(
                first.spec_plus(offset),
                second.spec_plus(offset),
                third.spec_plus(offset),
            ),
            BasicShapeData::SDFTexture(lt, rb, texture) => BasicShapeData::SDFTexture(
                lt.spec_plus(offset),
                rb.spec_plus(offset),
                texture,
            ),
            BasicShapeData::Text(pos, font, size, chr) => BasicShapeData::Text(
                pos.spec_plus(offset),
                font,
                size,
                chr,
            ),
        }
    }

    /// The rectangle that the untransformed, filled geometry cannot leave.
    /// A half plane is bounded by the whole window only.
    pub open spec fn spec_bounded_rect(&self) -> Rect {
        match *self {
            BasicShapeData::Circle(center, radius) => Rect {
                x: saturate(center.x - radius) as i32,
                y: saturate(center.y - radius) as i32,
                w: saturate(2 * radius) as i32,
                h: saturate(2 * radius) as i32,
            },
            BasicShapeData::Triangle(first, second, third) => bounds_of_three(first, second, third),
            BasicShapeData::Rectangle(lt, rb, _) => Rect::spec_from_ltrb(lt, rb),
            BasicShapeData::HalfPlane(_, _) => Rect::spec_window(),
            BasicShapeData::QuadBezierPlane(first, second, third) => bounds_of_three(first, second, third),
            BasicShapeData::SDFTexture(lt, rb, _) => Rect::spec_from_ltrb(lt, rb),
            BasicShapeData::Text(pos, _, size, _) => Rect { x: pos.x, y: pos.y, w: size, h: size },
        }
    }

    /// Shifts every point of the geometry by `offset`.
    pub fn move_by(&mut self, offset: Vec2)
        ensures
            *final(self) == old(self).spec_move_by(offset),
    {
        let moved: BasicShapeData = match *self {
            BasicShapeData::Circle(center, radius) => BasicShapeData::Circle(
                center.plus(offset),
                radius,
            ),
            BasicShapeData::Triangle(first, second, third) => BasicShapeData::Triangle(
                first.plus(offset),
                second.plus(offset),
                third.plus(offset),
            ),
            BasicShapeData::Rectangle(lt, rb, rounding) => BasicShapeData::Rectangle(
                lt.plus(offset),
                rb.plus(offset),
                rounding,
            ),
            BasicShapeData::HalfPlane(first, second) => BasicShapeData::HalfPlane(
                first.plus(offset),
                second.plus(offset),
            ),
            BasicShapeData::QuadBezierPlane(first, second, third) => BasicShapeData::QuadBezierPlane(
                first.plus(offset),
                second.plus(offset),
                third.plus(offset),
            ),
            BasicShapeData::SDFTexture(lt, rb, texture) => BasicShapeData::SDFTexture(
                lt.plus(offset),
                rb.plus(offset),
                texture,
            ),
            BasicShapeData::Text(pos, font, size, chr) => BasicShapeData::Text(
                pos.plus(offset),
                font,
                size,
                chr,
            ),
        };
        *self = moved;
    }

    /// The rectangle that the untransformed, filled geometry cannot leave.
    #[verifier::when_used_as_spec(spec_bounded_rect)]
    pub fn bounded_rect(&self) -> (r: Rect)
        ensures
            r == self.spec_bounded_rect(),
    {
        match *self {
            BasicShapeData::Circle(center, radius) => Rect {
                x: saturating(center.x as i64 - radius as i64),
                y: saturating(center.y as i64 - radius as i64),
                w: saturating(2 * (radius as i64)),
                h: saturating(2 * (radius as i64)),
            },
            BasicShapeData::Triangle(first, second, third) => bounding_three(first, second, third),
            BasicShapeData::Rectangle(lt, rb, _) => Rect::from_ltrb(lt, rb),
            BasicShapeData::HalfPlane(_, _) => Rect::window(),
            BasicShapeData::QuadBezierPlane(first, second, third) => bounding_three(first, second, third),
            BasicShapeData::SDFTexture(lt, rb, _) => Rect::from_ltrb(lt, rb),
            BasicShapeData::Text(pos, _, size, _) => Rect { x: pos.x, y: pos.y, w: size, h: size },
        }
    }
}

/// A leaf of a shape program: geometry, the transform applied to it, and
/// the stroke width where the outline is drawn in place of the inside.
#[derive(Clone, Copy, Debug, PartialEq, Eq)]
pub struct BasicShape {
    /// The geometry.
    pub data: BasicShapeData,
    /// The transform applied to the geometry.
    pub transform: Transform2D,
    /// The width of the outline; `None` for a filled shape.
    pub stroke: Option<i32>,
}

/// Half of a stroke width, rounded up: what a stroke adds to each side.
pub open spec fn stroke_margin(stroke: Option<i32>) -> int {
    match stroke {
        Some(width) => if width >= 0 {
            (width + 1) / 2
        } else {
            -((-width) / 2)
        },
        None => 0,
    }
}

impl BasicShape {
    /// The filled shape of the geometry, untransformed.
    pub open spec fn spec_new(data: BasicShapeData) -> BasicShape {
        BasicShape { data, transform: Transform2D::spec_identity(), stroke: None }
    }

    /// The transformed bounds of the geometry, grown by half the stroke width.
    pub open spec fn spec_bounded_rect(&self) -> Rect {
        let margin = stroke_margin(self.stroke);
        self.data.spec_bounded_rect().spec_transformed(self.transform).spec_shrink(
            Vec2 { x: (-margin) as i32, y: (-margin) as i32 },
        )
    }

    /// The filled shape of the geometry, untransformed.
    #[verifier::when_used_as_spec(spec_new)]
    pub fn new(data: BasicShapeData) -> (s: BasicShape)
        ensures
            s == BasicShape::spec_new(data),
    {
        BasicShape { data, transform: Transform2D::identity(), stroke: None }
    }

    /// The same shape under another transform.
    pub fn transform(self, transform: Transform2D) -> (s: BasicShape)
        ensures
            s == (BasicShape { transform, ..self }),
    {
        BasicShape { data: self.data, transform, stroke: self.stroke }
    }

    /// The outline of the shape, `width` wide.
    pub fn stroke(self, width: i32) -> (s: BasicShape)
        ensures
            s == (BasicShape { stroke: Some(width), ..self }),
    {
        BasicShape { data: self.data, transform: self.transform, stroke: Some(width) }
    }

    /// The shape scaled after its present transform.
    pub fn then_scale(self, factor: Vec2) -> (s: BasicShape)
        ensures
            s == (BasicShape {
                transform: self.transform.spec_mul(
                    Transform2D { a: factor.x, b: 0, c: 0, d: 0, e: factor.y, f: 0 },
                ),
                ..self
            }),
    {
        BasicShape {
            data: self.data,
            transform: self.transform.mul(Transform2D::scale(factor)),
            stroke: self.stroke,
        }
    }

    /// The shape scaled before its present transform.
    pub fn pre_scale(self, factor: Vec2) -> (s: BasicShape)
        ensures
            s == (BasicShape {
                transform: (Transform2D {
                    a: factor.x,
                    b: 0,
                    c: 0,
                    d: 0,
                    e: factor.y,
                    f: 0,
                }).spec_mul(self.transform),
                ..self
            }),
    {
        BasicShape {
            data: self.data,
            transform: Transform2D::scale(factor).mul(self.transform),
            stroke: self.stroke,
        }
    }

    /// The shape moved after its present transform.
    pub fn then_translate(self, offset: Vec2) -> (s: BasicShape)
        ensures
            s == (BasicShape {
                transform: self.transform.spec_mul(
                    Transform2D { a: 1, b: 0, c: offset.x, d: 0, e: 1, f: offset.y },
                ),
                ..self
            }),
    {
        BasicShape {
            data: self.data,
            transform: self.transform.mul(Transform2D::translate(offset)),
            stroke: self.stroke,
        }
    }

    /// The shape moved before its present transform.
    pub fn pre_translate(self, offset: Vec2) -> (s: BasicShape)
        ensures
            s == (BasicShape {
                transform: (Transform2D {
                    a: 1,
                    b: 0,
                    c: offset.x,
                    d: 0,
                    e: 1,
                    f: offset.y,
                }).spec_mul(self.transform),
                ..self
            }),
    {
        BasicShape {
            data: self.data,
            transform: Transform2D::translate(offset).mul(self.transform),
            stroke: self.stroke,
        }
    }

    /// Shifts the geometry by `offset`; the transform stays.
    pub fn move_by(&mut self, offset: Vec2)
        ensures
            *final(self) == (BasicShape { data: old(self).data.spec_move_by(offset), ..*old(self) }),
    {
        self.data.move_by(offset);
    }

    /// The transformed bounds of the geometry, grown by half the stroke width.
    #[verifier::when_used_as_spec(spec_bounded_rect)]
    pub fn bounded_rect(&self) -> (r: Rect)
        ensures
            r == self.spec_bounded_rect(),
    {
        let margin: i32 = match self.stroke {
            Some(width) => if width >= 0 {
                ((width as i64 + 1) / 2) as i32
            } else {
                (-((-(width as i64)) / 2)) as i32
            },
            None => 0,
        };
        let grow: i32 = saturating(-(margin as i64));
        self.data.bounded_rect().transformed(self.transform).shrink(Vec2 { x: grow, y: grow })
    }
}

impl From<BasicShapeData> for BasicShape {
    fn from(data: BasicShapeData) -> (s: BasicShape) {
        BasicShape { data, transform: Transform2D::identity(), stroke: None }
    }
}

impl vstd::std_specs::convert::FromSpecImpl<BasicShapeData> for BasicShape {
    open spec fn obeys_from_spec() -> bool {
        true
    }

    open spec fn from_spec(data: BasicShapeData) -> BasicShape {
        BasicShape::spec_new(data)
    }
}

/// How a shape is coloured.
#[derive(Clone, Copy, Debug, PartialEq, Eq)]
pub enum FillMode {
    /// One colour.
    Color(Color),
    /// A texture: its id, the two corners it is stretched between, and the
    /// two corners of the part of the texture that is shown.
    Texture(u32, Vec2, Vec2, Vec2, Vec2),
    /// A linear gradient: first and last colour, first and last point.
    LinearGradient(Color, Color, Vec2, Vec2),
    /// A radial gradient: inner and outer colour, centre, radius.
    RadialGradient(Color, Color, Vec2, i32),
}

impl FillMode {
    /// Whether nothing filled this way can be seen.
    pub open spec fn spec_is_invisible(&self) -> bool {
        match *self {
            FillMode::Color(color) => color.a <= 0,
            FillMode::Texture(_, _, _, _, _) => false,
            FillMode::LinearGradient(from, to, _, _) => from.a <= 0 && to.a <= 0,
            FillMode::RadialGradient(from, to, _, _) => from.a <= 0 && to.a <= 0,
        }
    }

    /// The fill with its anchor points shifted by `offset`.
    pub open spec fn spec_move_by(self, offset: Vec2) -> FillMode {
        match self {
            FillMode::Color(color) => FillMode::Color(color),
            FillMode::Texture(id, lt, rb, tlt, trb) => FillMode::Texture(
                id,
                lt.spec_plus(offset),
                rb.spec_plus(offset),
                tlt,
                trb,
            ),
            FillMode::LinearGradient(from, to, start, end) => FillMode::LinearGradient(
                from,
                to,
                start.spec_plus(offset),
                end.spec_plus(offset),
            ),
            FillMode::RadialGradient(inner, outer, center, radius) => FillMode::RadialGradient(
                inner,
                outer,
                center.spec_plus(offset),
                radius,
            ),
        }
    }

    /// Whether nothing filled this way can be seen.
    #[verifier::when_used_as_spec(spec_is_invisible)]
    pub fn is_invisible(&self) -> (r: bool)
        ensures
            r == self.spec_is_invisible(),
    {
        match *self {
            FillMode::Color(color) => color.a <= 0,
            FillMode::Texture(_, _, _, _, _) => false,
            FillMode::LinearGradient(from, to, _, _) => from.a <= 0 && to.a <= 0,
            FillMode::RadialGradient(from, to, _, _) => from.a <= 0 && to.a <= 0,
        }
    }

    /// Shifts the anchor points of the fill by `offset`.
    pub fn move_by(&mut self, offset: Vec2)
        ensures
            *final(self) == old(self).spec_move_by(offset),
    {
        let moved: FillMode = match *self {
            FillMode::Color(color) => FillMode::Color(color),
            FillMode::Texture(id, lt, rb, tlt, trb) => FillMode::Texture(
                id,
                lt.plus(offset),
                rb.plus(offset),
                tlt,
                trb,
            ),
            FillMode::LinearGradient(from, to, start, end) => FillMode::LinearGradient(
                from,
                to,
                start.plus(offset),
                end.plus(offset),
            ),
            FillMode::RadialGradient(inner, outer, center, radius) => FillMode::RadialGradient(
                inner,
                outer,
                center.plus(offset),
                radius,
            ),
        };
        *self = moved;
    }
}

impl FillMode {
    /// The fill made brighter: `bright_factor` added to the red, green,
    /// blue and alpha of every colour. A fill that cannot be seen, and a
    /// texture, stay as they are.
    pub open spec fn spec_brighter(self, bright_factor: i32) -> FillMode {
        if self.spec_is_invisible() {
            self
        } else {
            match self {
                FillMode::Color(color) => FillMode::Color(color.spec_brighten(bright_factor)),
                FillMode::Texture(_, _, _, _, _) => self,
                FillMode::LinearGradient(from, to, start, end) => FillMode::LinearGradient(
                    from.spec_brighten(bright_factor),
                    to.spec_brighten(bright_factor),
                    start,
                    end,
                ),
                FillMode::RadialGradient(from, to, center, radius) => FillMode::RadialGradient(
                    from.spec_brighten(bright_factor),
                    to.spec_brighten(bright_factor),
                    center,
                    radius,
                ),
            }
        }
    }

    /// The fill with the alpha of every colour scaled by `alpha` 255ths. A
    /// fill that cannot be seen, and a texture, stay as they are.
    pub open spec fn spec_mul_alpha(self, alpha: i32) -> FillMode {
        if self.spec_is_invisible() {
            self
        } else {
            match self {
                FillMode::Color(color) => FillMode::Color(color.spec_scale_alpha(alpha)),
                FillMode::Texture(_, _, _, _, _) => self,
                FillMode::LinearGradient(from, to, start, end) => FillMode::LinearGradient(
                    from.spec_scale_alpha(alpha),
                    to.spec_scale_alpha(alpha),
                    start,
                    end,
                ),
                FillMode::RadialGradient(from, to, center, radius) => FillMode::RadialGradient(
                    from.spec_scale_alpha(alpha),
                    to.spec_scale_alpha(alpha),
                    center,
                    radius,
                ),
            }
        }
    }

    /// Makes the fill brighter by `bright_factor`.
    pub fn brighter(&mut self, bright_factor: i32)
        ensures
            *final(self) == old(self).spec_brighter(bright_factor),
    {
        if self.is_invisible() {
            return;
        }
        let brightened: FillMode = match *self {
            FillMode::Color(color) => FillMode::Color(color.brighten(bright_factor)),
            FillMode::Texture(id, lt, rb, tlt, trb) => FillMode::Texture(id, lt, rb, tlt, trb),
            FillMode::LinearGradient(from, to, start, end) => FillMode::LinearGradient(
                from.brighten(bright_factor),
                to.brighten(bright_factor),
                start,
                end,
            ),
            FillMode::RadialGradient(from, to, center, radius) => FillMode::RadialGradient(
                from.brighten(bright_factor),
                to.brighten(bright_factor),
                center,
                radius,
            ),
        };
        *self = brightened;
    }

    /// Scales the alpha of the fill by `alpha` 255ths.
    pub fn mul_alpha(&mut self, alpha: i32)
        ensures
            *final(self) == old(self).spec_mul_alpha(alpha),
    {
        if self.is_invisible() {
            return;
        }
        let scaled: FillMode = match *self {
            FillMode::Color(color) => FillMode::Color(color.scale_alpha(alpha)),
            FillMode::Texture(id, lt, rb, tlt, trb) => FillMode::Texture(id, lt, rb, tlt, trb),
            FillMode::LinearGradient(from, to, start, end) => FillMode::LinearGradient(
                from.scale_alpha(alpha),
                to.scale_alpha(alpha),
                start,
                end,
            ),
            FillMode::RadialGradient(from, to, center, radius) => FillMode::RadialGradient(
                from.scale_alpha(alpha),
                to.scale_alpha(alpha),
                center,
                radius,
            ),
        };
        *self = scaled;
    }
}

impl Default for FillMode {
    fn default() -> (f: FillMode)
        ensures
            f == FillMode::Color(Color { r: 0, g: 0, b: 0, a: 0 }),
    {
        FillMode::Color(Color::transparent())
    }
}

/// A token of a shape program.
#[derive(Clone, Copy, Debug, PartialEq, Eq)]
pub enum ShapeOrOp {
    /// A basic shape.
    Shape(BasicShape),
    /// An operator.
    Op(Operator),
}

/// The depth of the evaluation stack after one more token, or `None` where
/// the token finds too few operands.
pub open spec fn depth_after_token(depth: Option<nat>, token: ShapeOrOp) -> Option<nat> {
    match depth {
        None => None,
        Some(d) => match token {
            ShapeOrOp::Shape(_) => Some(d + 1),
            ShapeOrOp::Op(Operator::Not) => if d >= 1 {
                Some(d)
            } else {
                None
            },
            ShapeOrOp::Op(_) => if d >= 2 {
                Some((d - 1) as nat)
            } else {
                None
            },
        },
    }
}

/// The depth of the evaluation stack after all of `tokens`, or `None` where
/// some operator finds too few operands.
pub open spec fn stack_depth(tokens: Seq<ShapeOrOp>) -> Option<nat>
    decreases tokens.len(),
{
    if tokens.len() == 0 {
        Some(0)
    } else {
        depth_after_token(stack_depth(tokens.drop_last()), tokens.last())
    }
}

/// The bounds of `lhs op rhs`, from the bounds of the operands.
///
/// `Or` and `Xor` give the union of both bounds, `And` their intersection,
/// `Minus` the bounds of the right operand, `Lerp` and `SmoothStep` the
/// linear blend of both bounds by their weight, `Sigmoid` the union.
pub open spec fn combine_bounds(op: Operator, lhs: Rect, rhs: Rect) -> Rect {
    match op {
        Operator::Or => lhs.spec_union(rhs),
        Operator::Minus => rhs,
        Operator::And => lhs.spec_intersection(rhs),
        Operator::Xor => lhs.spec_union(rhs),
        Operator::Lerp(t) => lhs.spec_lerp(rhs, t),
        Operator::SmoothStep(t) => lhs.spec_lerp(rhs, t),
        Operator::Sigmoid(_) => lhs.spec_union(rhs),
        Operator::Not => Rect::spec_window(),
    }
}

/// The stack of bounds after one more token.
pub open spec fn bounds_after_token(stack: Seq<Rect>, token: ShapeOrOp) -> Seq<Rect> {
    match token {
        ShapeOrOp::Shape(shape) => stack.push(shape.spec_bounded_rect()),
        ShapeOrOp::Op(Operator::Not) => stack.drop_last().push(Rect::spec_window()),
        ShapeOrOp::Op(op) => stack.drop_last().drop_last().push(
            combine_bounds(op, stack[stack.len() - 2], stack[stack.len() - 1]),
        ),
    }
}

/// The stack of bounds after all of `tokens`.
pub open spec fn bounds_stack(tokens: Seq<ShapeOrOp>) -> Seq<Rect>
    decreases tokens.len(),
{
    if tokens.len() == 0 {
        Seq::empty()
    } else {
        bounds_after_token(bounds_stack(tokens.drop_last()), tokens.last())
    }
}

/// Every prefix of a program that never lacks an operand never lacks one either.
pub proof fn lemma_prefix_depth(tokens: Seq<ShapeOrOp>, k: int)
    requires
        stack_depth(tokens) is Some,
        0 <= k <= tokens.len(),
    ensures
        stack_depth(tokens.take(k)) is Some,
    decreases tokens.len(),
{
    if k == tokens.len() {
        assert(tokens.take(k) =~= tokens);
    } else {
        lemma_prefix_depth(tokens.drop_last(), k);
        assert(tokens.drop_last().take(k) =~= tokens.take(k));
    }
}

/// The stack of bounds is as deep as the evaluation stack.
pub proof fn lemma_bounds_depth(tokens: Seq<ShapeOrOp>)
    requires
        stack_depth(tokens) is Some,
    ensures
        bounds_stack(tokens).len() == stack_depth(tokens)->0,
    decreases tokens.len(),
{
    if tokens.len() > 0 {
        lemma_bounds_depth(tokens.drop_last());
    }
}

/// The depth after a program followed by another is the sum of their
/// depths, where neither lacks an operand.
pub proof fn lemma_depth_concat(a: Seq<ShapeOrOp>, b: Seq<ShapeOrOp>)
    requires
        stack_depth(a) is Some,
        stack_depth(b) is Some,
    ensures
        stack_depth(a + b) == Some(stack_depth(a)->0 + stack_depth(b)->0),
    decreases b.len(),
{
    if b.len() == 0 {
        assert(a + b =~= a);
    } else {
        lemma_depth_concat(a, b.drop_last());
        assert((a + b).drop_last() =~= a + b.drop_last());
        assert((a + b).last() == b.last());
    }
}

/// A shape program in postfix order: operands first, then their operator.
///
/// A program is valid when it leaves exactly one value on the stack.
#[derive(Clone, Debug)]
pub struct Shape(pub Vec<ShapeOrOp>);

impl View for Shape {
    type V = Seq<ShapeOrOp>;

    open spec fn view(&self) -> Seq<ShapeOrOp> {
        self.0@
    }
}

impl Shape {
    /// Whether the program reduces to exactly one value.
    pub open spec fn spec_valid(self) -> bool {
        stack_depth(self@) == Some(1nat)
    }

    /// The bounds of the value that the program leaves on top of the stack;
    /// of an empty program, the rectangle of no extent.
    pub open spec fn spec_bounded_rect(self) -> Rect {
        if bounds_stack(self@).len() == 0 {
            Rect::spec_zero()
        } else {
            bounds_stack(self@).last()
        }
    }

    /// The program of one basic shape.
    pub fn from_shape(shape: BasicShape) -> (s: Shape)
        ensures
            s@ == seq![ShapeOrOp::Shape(shape)],
            s.spec_valid(),
    {
        let mut tokens: Vec<ShapeOrOp> = Vec::new();
        tokens.push(ShapeOrOp::Shape(shape));
        proof {
            let t = tokens@;
            assert(t.drop_last() =~= Seq::<ShapeOrOp>::empty());
            assert(stack_depth(t.drop_last()) == Some(0nat));
            assert(stack_depth(t) == Some(1nat));
        }
        Shape(tokens)
    }

    /// The program of one geometry, filled and untransformed.
    pub fn from_data(data: BasicShapeData) -> (s: Shape)
        ensures
            s@ == seq![ShapeOrOp::Shape(BasicShape::spec_new(data))],
            s.spec_valid(),
    {
        Shape::from_shape(BasicShape::new(data))
    }

    fn binary(self, rhs: Shape, op: Operator) -> (s: Shape)
        requires
            !op.is_unary(),
        ensures
            s@ == (self@ + rhs@).push(ShapeOrOp::Op(op)),
            self.spec_valid() && rhs.spec_valid() ==> s.spec_valid(),
    {
        let mut tokens: Vec<ShapeOrOp> = self.0;
        let mut other: Vec<ShapeOrOp> = rhs.0;
        let ghost left = tokens@;
        let ghost right = other@;
        tokens.append(&mut other);
        tokens.push(ShapeOrOp::Op(op));
        proof {
            if stack_depth(left) == Some(1nat) && stack_depth(right) == Some(1nat) {
                lemma_depth_concat(left, right);
                assert(tokens@.drop_last() =~= left + right);
            }
        }
        Shape(tokens)
    }

    /// The union of two shapes.
    pub fn union(self, rhs: Shape) -> (s: Shape)
        ensures
            s@ == (self@ + rhs@).push(ShapeOrOp::Op(Operator::Or)),
            self.spec_valid() && rhs.spec_valid() ==> s.spec_valid(),
    {
        self.binary(rhs, Operator::Or)
    }

    /// The first shape without the second.
    pub fn difference(self, rhs: Shape) -> (s: Shape)
        ensures
            s@ == (self@ + rhs@).push(ShapeOrOp::Op(Operator::Minus)),
            self.spec_valid() && rhs.spec_valid() ==> s.spec_valid(),
    {
        self.binary(rhs, Operator::Minus)
    }

    /// The symmetric difference of two shapes.
    pub fn symmetric_difference(self, rhs: Shape) -> (s: Shape)
        ensures
            s@ == (self@ + rhs@).push(ShapeOrOp::Op(Operator::Xor)),
            self.spec_valid() && rhs.spec_valid() ==> s.spec_valid(),
    {
        self.binary(rhs, Operator::Xor)
    }

    /// The intersection of two shapes.
    pub fn intersection(self, rhs: Shape) -> (s: Shape)
        ensures
            s@ == (self@ + rhs@).push(ShapeOrOp::Op(Operator::And)),
            self.spec_valid() && rhs.spec_valid() ==> s.spec_valid(),
    {
        self.binary(rhs, Operator::And)
    }

    /// The complement of a shape.
    pub fn complement(self) -> (s: Shape)
        ensures
            s@ == self@.push(ShapeOrOp::Op(Operator::Not)),
            self.spec_valid() ==> s.spec_valid(),
    {
        let mut tokens: Vec<ShapeOrOp> = self.0;
        let ghost before = tokens@;
        tokens.push(ShapeOrOp::Op(Operator::Not));
        proof {
            assert(tokens@.drop_last() =~= before);
        }
        Shape(tokens)
    }

    /// The linear blend of two shapes, `t / 256` of the way to `rhs`.
    pub fn lerp(self, rhs: Shape, t: i32) -> (s: Shape)
        ensures
            s@ == (self@ + rhs@).push(ShapeOrOp::Op(Operator::Lerp(t))),
            self.spec_valid() && rhs.spec_valid() ==> s.spec_valid(),
    {
        self.binary(rhs, Operator::Lerp(t))
    }

    /// The smooth-step blend of two shapes.
    pub fn smoothstep(self, rhs: Shape, t: i32) -> (s: Shape)
        ensures
            s@ == (self@ + rhs@).push(ShapeOrOp::Op(Operator::SmoothStep(t))),
            self.spec_valid() && rhs.spec_valid() ==> s.spec_valid(),
    {
        self.binary(rhs, Operator::SmoothStep(t))
    }

    /// The logistic blend of two shapes.
    pub fn sigmoid(self, rhs: Shape, t: i32) -> (s: Shape)
        ensures
            s@ == (self@ + rhs@).push(ShapeOrOp::Op(Operator::Sigmoid(t))),
            self.spec_valid() && rhs.spec_valid() ==> s.spec_valid(),
    {
        self.binary(rhs, Operator::Sigmoid(t))
    }

    /// Whether the program reduces to exactly one value.
    pub fn is_valid(&self) -> (r: bool)
        ensures
            r == self.spec_valid(),
    {
        let n: usize = self.0.len();
        let mut depth: usize = 0;
        let mut i: usize = 0;
        assert(self@.take(0) =~= Seq::<ShapeOrOp>::empty());
        while i < n
            invariant
                n == self.0.len(),
                i <= n,
                depth <= i,
                stack_depth(self@.take(i as int)) == Some(depth as nat),
            decreases n - i,
        {
            proof {
                assert(self@.take(i + 1).drop_last() =~= self@.take(i as int));
                assert(self@.take(i + 1).last() == self@[i as int]);
            }
            match self.0[i] {
                ShapeOrOp::Shape(_) => {
                    depth = depth + 1;
                },
                ShapeOrOp::Op(Operator::Not) => {
                    if depth < 1 {
                        proof {
                            lemma_failed_prefix(self@, i + 1);
                        }
                        return false;
                    }
                },
                ShapeOrOp::Op(_) => {
                    if depth < 2 {
                        proof {
                            lemma_failed_prefix(self@, i + 1);
                        }
                        return false;
                    }
                    depth = depth - 1;
                },
            }
            i = i + 1;
        }
        assert(self@.take(n as int) =~= self@);
        depth == 1
    }

    /// Composes `transform` onto the transform of every leaf.
    pub fn transform(self, transform: Transform2D) -> (s: Shape)
        ensures
            s@.len() == self@.len(),
            forall|i: int|
                0 <= i < self@.len() ==> s@[i] == transformed_token(#[trigger] self@[i], transform),
            stack_depth(s@) == stack_depth(self@),
    {
        let mut tokens: Vec<ShapeOrOp> = self.0;
        let ghost before = tokens@;
        let n: usize = tokens.len();
        let mut i: usize = 0;
        while i < n
            invariant
                n == tokens.len(),
                n == before.len(),
                i <= n,
                forall|k: int| 0 <= k < i ==> tokens@[k] == transformed_token(before[k], transform),
                forall|k: int| i <= k < n ==> tokens@[k] == before[k],
            decreases n - i,
        {
            match tokens[i] {
                ShapeOrOp::Shape(shape) => {
                    tokens[i] = ShapeOrOp::Shape(
                        BasicShape {
                            data: shape.data,
                            transform: shape.transform.mul(transform),
                            stroke: shape.stroke,
                        },
                    );
                },
                ShapeOrOp::Op(_) => {},
            }
            i = i + 1;
        }
        proof {
            lemma_same_kinds_same_depth(before, tokens@);
        }
        Shape(tokens)
    }

    /// Shifts the geometry of every leaf by `offset`.
    pub fn move_by(self, offset: Vec2) -> (s: Shape)
        ensures
            s@.len() == self@.len(),
            forall|i: int| 0 <= i < self@.len() ==> s@[i] == moved_token(#[trigger] self@[i], offset),
            stack_depth(s@) == stack_depth(self@),
    {
        let mut tokens: Vec<ShapeOrOp> = self.0;
        let ghost before = tokens@;
        let n: usize = tokens.len();
        let mut i: usize = 0;
        while i < n
            invariant
                n == tokens.len(),
                n == before.len(),
                i <= n,
                forall|k: int| 0 <= k < i ==> tokens@[k] == moved_token(before[k], offset),
                forall|k: int| i <= k < n ==> tokens@[k] == before[k],
            decreases n - i,
        {
            match tokens[i] {
                ShapeOrOp::Shape(shape) => {
                    let mut moved: BasicShape = shape;
                    moved.move_by(offset);
                    tokens[i] = ShapeOrOp::Shape(moved);
                },
                ShapeOrOp::Op(_) => {},
            }
            i = i + 1;
        }
        proof {
            lemma_same_kinds_same_depth(before, tokens@);
        }
        Shape(tokens)
    }

    /// The bounds of the shape, computed bottom-up from the bounds of its
    /// leaves as [`combine_bounds`] says for each operator.
    ///
    /// The program must not lack an operand anywhere.
    pub fn bounded_rect(&self) -> (r: Rect)
        requires
            stack_depth(self@) is Some,
        ensures
            r == self.spec_bounded_rect(),
    {
        let n: usize = self.0.len();
        let mut stack: Vec<Rect> = Vec::new();
        let mut i: usize = 0;
        assert(self@.take(0) =~= Seq::<ShapeOrOp>::empty());
        while i < n
            invariant
                n == self.0.len(),
                i <= n,
                stack_depth(self@) is Some,
                stack@ == bounds_stack(self@.take(i as int)),
            decreases n - i,
        {
            proof {
                assert(self@.take(i + 1).drop_last() =~= self@.take(i as int));
                assert(self@.take(i + 1).last() == self@[i as int]);
                lemma_prefix_depth(self@, i as int);
                lemma_prefix_depth(self@, i + 1);
                lemma_bounds_depth(self@.take(i as int));
            }
            match self.0[i] {
                ShapeOrOp::Shape(shape) => {
                    stack.push(shape.bounded_rect());
                },
                ShapeOrOp::Op(Operator::Not) => {
                    stack.pop();
                    stack.push(Rect::window());
                },
                ShapeOrOp::Op(op) => {
                    let rhs: Rect = stack.pop().unwrap();
                    let lhs: Rect = stack.pop().unwrap();
                    let combined: Rect = match op {
                        Operator::Or => lhs.union(rhs),
                        Operator::Minus => rhs,
                        Operator::And => lhs.intersection(rhs),
                        Operator::Xor => lhs.union(rhs),
                        Operator::Lerp(t) => lhs.lerp(rhs, t),
                        Operator::SmoothStep(t) => lhs.lerp(rhs, t),
                        Operator::Sigmoid(_) => lhs.union(rhs),
                        Operator::Not => Rect::window(),
                    };
                    stack.push(combined);
                },
            }
            i = i + 1;
        }
        assert(self@.take(n as int) =~= self@);
        match stack.pop() {
            Some(top) => top,
            None => Rect::zero(),
        }
    }
}

/// A token with `transform` composed onto it, where it is a leaf.
pub open spec fn transformed_token(token: ShapeOrOp, transform: Transform2D) -> ShapeOrOp {
    match token {
        ShapeOrOp::Shape(shape) => ShapeOrOp::Shape(
            BasicShape { transform: shape.transform.spec_mul(transform), ..shape },
        ),
        ShapeOrOp::Op(op) => ShapeOrOp::Op(op),
    }
}

/// A token with its geometry shifted by `offset`, where it is a leaf.
pub open spec fn moved_token(token: ShapeOrOp, offset: Vec2) -> ShapeOrOp {
    match token {
        ShapeOrOp::Shape(shape) => ShapeOrOp::Shape(
            BasicShape { data: shape.data.spec_move_by(offset), ..shape },
        ),
        ShapeOrOp::Op(op) => ShapeOrOp::Op(op),
    }
}

impl From<BasicShape> for Shape {
    fn from(shape: BasicShape) -> (s: Shape)
        ensures
            s@ == seq![ShapeOrOp::Shape(shape)],
            s.spec_valid(),
    {
        Shape::from_shape(shape)
    }
}

impl vstd::std_specs::convert::FromSpecImpl<BasicShape> for Shape {
    open spec fn obeys_from_spec() -> bool {
        false
    }

    open spec fn from_spec(shape: BasicShape) -> Shape {
        arbitrary()
    }
}

impl From<BasicShapeData> for Shape {
    fn from(data: BasicShapeData) -> (s: Shape)
        ensures
            s@ == seq![ShapeOrOp::Shape(BasicShape::spec_new(data))],
            s.spec_valid(),
    {
        Shape::from_data(data)
    }
}

impl vstd::std_specs::convert::FromSpecImpl<BasicShapeData> for Shape {
    open spec fn obeys_from_spec() -> bool {
        false
    }

    open spec fn from_spec(data: BasicShapeData) -> Shape {
        arbitrary()
    }
}

/// `lhs | rhs` is the union of the two shapes; `rhs` may be a shape or what makes one.
impl<R> std::ops::BitOr<R> for Shape where Shape: From<R> {
    type Output = Shape;

    fn bitor(self, rhs: R) -> (s: Shape)
        ensures
            exists|other: Shape|
                #[trigger] call_ensures(<Shape as From<R>>::from, (rhs,), other) && s@ == (self@
                    + other@).push(ShapeOrOp::Op(Operator::Or)) && (self.spec_valid()
                    && other.spec_valid() ==> s.spec_valid()),
    {
        let other: Shape = Shape::from(rhs);
        self.union(other)
    }
}

impl<R> vstd::std_specs::ops::BitOrSpecImpl<R> for Shape where Shape: From<R> {
    open spec fn obeys_bitor_spec() -> bool {
        false
    }

    open spec fn bitor_req(self, rhs: R) -> bool {
        true
    }

    open spec fn bitor_spec(self, rhs: R) -> Shape {
        arbitrary()
    }
}

/// `lhs & rhs` is the intersection of the two shapes.
impl<R> std::ops::BitAnd<R> for Shape where Shape: From<R> {
    type Output = Shape;

    fn bitand(self, rhs: R) -> (s: Shape)
        ensures
            exists|other: Shape|
                #[trigger] call_ensures(<Shape as From<R>>::from, (rhs,), other) && s@ == (self@
                    + other@).push(ShapeOrOp::Op(Operator::And)) && (self.spec_valid()
                    && other.spec_valid() ==> s.spec_valid()),
    {
        let other: Shape = Shape::from(rhs);
        self.intersection(other)
    }
}

impl<R> vstd::std_specs::ops::BitAndSpecImpl<R> for Shape where Shape: From<R> {
    open spec fn obeys_bitand_spec() -> bool {
        false
    }

    open spec fn bitand_req(self, rhs: R) -> bool {
        true
    }

    open spec fn bitand_spec(self, rhs: R) -> Shape {
        arbitrary()
    }
}

/// `lhs - rhs` is the first shape without the second.
impl<R> std::ops::Sub<R> for Shape where Shape: From<R> {
    type Output = Shape;

    fn sub(self, rhs: R) -> (s: Shape)
        ensures
            exists|other: Shape|
                #[trigger] call_ensures(<Shape as From<R>>::from, (rhs,), other) && s@ == (self@
                    + other@).push(ShapeOrOp::Op(Operator::Minus)) && (self.spec_valid()
                    && other.spec_valid() ==> s.spec_valid()),
    {
        let other: Shape = Shape::from(rhs);
        self.difference(other)
    }
}

impl<R> vstd::std_specs::ops::SubSpecImpl<R> for Shape where Shape: From<R> {
    open spec fn obeys_sub_spec() -> bool {
        false
    }

    open spec fn sub_req(self, rhs: R) -> bool {
        true
    }

    open spec fn sub_spec(self, rhs: R) -> Shape {
        arbitrary()
    }
}

/// `lhs ^ rhs` is the symmetric difference of the two shapes.
impl<R> std::ops::BitXor<R> for Shape where Shape: From<R> {
    type Output = Shape;

    fn bitxor(self, rhs: R) -> (s: Shape)
        ensures
            exists|other: Shape|
                #[trigger] call_ensures(<Shape as From<R>>::from, (rhs,), other) && s@ == (self@
                    + other@).push(ShapeOrOp::Op(Operator::Xor)) && (self.spec_valid()
                    && other.spec_valid() ==> s.spec_valid()),
    {
        let other: Shape = Shape::from(rhs);
        self.symmetric_difference(other)
    }
}

impl<R> vstd::std_specs::ops::BitXorSpecImpl<R> for Shape where Shape: From<R> {
    open spec fn obeys_bitxor_spec() -> bool {
        false
    }

    open spec fn bitxor_req(self, rhs: R) -> bool {
        true
    }

    open spec fn bitxor_spec(self, rhs: R) -> Shape {
        arbitrary()
    }
}

/// `!shape` is the complement of the shape.
impl std::ops::Not for Shape {
    type Output = Shape;

    fn not(self) -> (s: Shape)
        ensures
            s@ == self@.push(ShapeOrOp::Op(Operator::Not)),
            self.spec_valid() ==> s.spec_valid(),
    {
        self.complement()
    }
}

impl vstd::std_specs::ops::NotSpecImpl for Shape {
    open spec fn obeys_not_spec() -> bool {
        false
    }

    open spec fn not_req(self) -> bool {
        true
    }

    open spec fn not_spec(self) -> Shape {
        arbitrary()
    }
}

/// Whether two tokens are the same operator, or both leaves.
pub open spec fn same_kind(a: ShapeOrOp, b: ShapeOrOp) -> bool {
    match a {
        ShapeOrOp::Shape(_) => b is Shape,
        ShapeOrOp::Op(op) => b == ShapeOrOp::Op(op),
    }
}

/// Programs that differ only in what their leaves hold have the same depth.
pub proof fn lemma_same_kinds_same_depth(a: Seq<ShapeOrOp>, b: Seq<ShapeOrOp>)
    requires
        a.len() == b.len(),
        forall|i: int| 0 <= i < a.len() ==> same_kind(a[i], b[i]),
    ensures
        stack_depth(a) == stack_depth(b),
    decreases a.len(),
{
    if a.len() > 0 {
        lemma_same_kinds_same_depth(a.drop_last(), b.drop_last());
        assert(same_kind(a[a.len() - 1], b[a.len() - 1]));
    }
}

/// A program with a prefix that lacks an operand is not valid.
pub proof fn lemma_failed_prefix(tokens: Seq<ShapeOrOp>, k: int)
    requires
        0 <= k <= tokens.len(),
        stack_depth(tokens.take(k)) is None,
    ensures
        stack_depth(tokens) is None,
{
    if stack_depth(tokens) is Some {
        lemma_prefix_depth(tokens, k);
    }
}

} // verus!
