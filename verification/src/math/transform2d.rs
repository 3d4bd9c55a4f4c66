//! Affine transforms of the plane with integer coefficients.

use vstd::prelude::*;
use crate::math::vec2::{saturate, saturating_wide, Vec2};

verus! {

/// The affine map
///
/// ```text
/// x' = a x + b y + c
/// y' = d x + e y + f
/// ```
///
/// with integer coefficients. Composition and application saturate.
#[derive(Clone, Copy, Debug, PartialEq, Eq, Structural)]
pub struct Transform2D {
    pub a: i32,
    pub b: i32,
    pub c: i32,
    pub d: i32,
    pub e: i32,
    pub f: i32,
}

impl Transform2D {
    /// The map that moves nothing.
    pub open spec fn spec_identity() -> Transform2D {
        Transform2D { a: 1, b: 0, c: 0, d: 0, e: 1, f: 0 }
    }

    /// The matrix product `self * other`: the map that applies `other` first
    /// and `self` to its result.
    pub open spec fn spec_mul(self, other: Transform2D) -> Transform2D {
        Transform2D {
            a: saturate(self.a * other.a + self.b * other.d) as i32,
            b: saturate(self.a * other.b + self.b * other.e) as i32,
            c: saturate(self.a * other.c + self.b * other.f + self.c) as i32,
            d: saturate(self.d * other.a + self.e * other.d) as i32,
            e: saturate(self.d * other.b + self.e * other.e) as i32,
            f: saturate(self.d * other.c + self.e * other.f + self.f) as i32,
        }
    }

    /// The image of a point.
    pub open spec fn spec_apply(self, p: Vec2) -> Vec2 {
        Vec2 {
            x: saturate(self.a * p.x + self.b * p.y + self.c) as i32,
            y: saturate(self.d * p.x + self.e * p.y + self.f) as i32,
        }
    }

    /// The map that moves nothing.
    #[verifier::when_used_as_spec(spec_identity)]
    pub fn identity() -> (t: Transform2D)
        ensures
            t == Transform2D::spec_identity(),
    {
        Transform2D { a: 1, b: 0, c: 0, d: 0, e: 1, f: 0 }
    }

    /// Creates a transform from its coefficients given row by row: `a b c`
    /// is the first row and `d e f` the second.
    pub fn column_major(a: i32, b: i32, c: i32, d: i32, e: i32, f: i32) -> (t: Transform2D)
        ensures
            t == (Transform2D { a, b, c, d, e, f }),
    {
        Transform2D { a, b, c, d, e, f }
    }

    /// Creates a transform from its coefficients given column by column:
    /// `a b` is the first column, `c d` the second and `e f` the third.
    pub fn row_major(a: i32, b: i32, c: i32, d: i32, e: i32, f: i32) -> (t: Transform2D)
        ensures
            t == (Transform2D { a, b: c, c: e, d: b, e: d, f }),
    {
        Transform2D { a, b: c, c: e, d: b, e: d, f }
    }

    /// The transform that scales each axis by a whole factor.
    pub fn scale(factor: Vec2) -> (t: Transform2D)
        ensures
            t == (Transform2D { a: factor.x, b: 0, c: 0, d: 0, e: factor.y, f: 0 }),
    {
        Transform2D { a: factor.x, b: 0, c: 0, d: 0, e: factor.y, f: 0 }
    }

    /// The transform that moves every point by `translation`.
    pub fn translate(translation: Vec2) -> (t: Transform2D)
        ensures
            t == (Transform2D { a: 1, b: 0, c: translation.x, d: 0, e: 1, f: translation.y }),
    {
        Transform2D { a: 1, b: 0, c: translation.x, d: 0, e: 1, f: translation.y }
    }

    /// The matrix product `self * other`.
    #[verifier::when_used_as_spec(spec_mul)]
    pub fn mul(self, other: Transform2D) -> (t: Transform2D)
        ensures
            t == self.spec_mul(other),
    {
        Transform2D {
            a: dot3(self.a, other.a, self.b, other.d, 0),
            b: dot3(self.a, other.b, self.b, other.e, 0),
            c: dot3(self.a, other.c, self.b, other.f, self.c),
            d: dot3(self.d, other.a, self.e, other.d, 0),
            e: dot3(self.d, other.b, self.e, other.e, 0),
            f: dot3(self.d, other.c, self.e, other.f, self.f),
        }
    }

    /// The image of a point.
    #[verifier::when_used_as_spec(spec_apply)]
    pub fn apply(self, p: Vec2) -> (q: Vec2)
        ensures
            q == self.spec_apply(p),
    {
        Vec2 { x: dot3(self.a, p.x, self.b, p.y, self.c), y: dot3(self.d, p.x, self.e, p.y, self.f) }
    }
}

/// `lhs >> rhs` is the product `lhs * rhs`: the map that applies `rhs` first.
impl std::ops::Shr<Transform2D> for Transform2D {
    type Output = Transform2D;

    fn shr(self, other: Transform2D) -> (t: Transform2D) {
        self.mul(other)
    }
}

impl vstd::std_specs::ops::ShrSpecImpl<Transform2D> for Transform2D {
    open spec fn obeys_shr_spec() -> bool {
        true
    }

    open spec fn shr_req(self, other: Transform2D) -> bool {
        true
    }

    open spec fn shr_spec(self, other: Transform2D) -> Transform2D {
        self.spec_mul(other)
    }
}

/// `lhs << rhs` is the product `rhs * lhs`: the map that applies `lhs` first.
impl std::ops::Shl<Transform2D> for Transform2D {
    type Output = Transform2D;

    fn shl(self, other: Transform2D) -> (t: Transform2D) {
        other.mul(self)
    }
}

impl vstd::std_specs::ops::ShlSpecImpl<Transform2D> for Transform2D {
    open spec fn obeys_shl_spec() -> bool {
        true
    }

    open spec fn shl_req(self, other: Transform2D) -> bool {
        true
    }

    open spec fn shl_spec(self, other: Transform2D) -> Transform2D {
        other.spec_mul(self)
    }
}

/// `t >> p` is the image of the point `p` under `t`.
impl std::ops::Shr<Vec2> for Transform2D {
    type Output = Vec2;

    fn shr(self, p: Vec2) -> (q: Vec2) {
        self.apply(p)
    }
}

impl vstd::std_specs::ops::ShrSpecImpl<Vec2> for Transform2D {
    open spec fn obeys_shr_spec() -> bool {
        true
    }

    open spec fn shr_req(self, p: Vec2) -> bool {
        true
    }

    open spec fn shr_spec(self, p: Vec2) -> Vec2 {
        self.spec_apply(p)
    }
}

/// `p << t` is the image of the point `p` under `t`.
impl std::ops::Shl<Transform2D> for Vec2 {
    type Output = Vec2;

    fn shl(self, t: Transform2D) -> (q: Vec2) {
        t.apply(self)
    }
}

impl vstd::std_specs::ops::ShlSpecImpl<Transform2D> for Vec2 {
    open spec fn obeys_shl_spec() -> bool {
        true
    }

    open spec fn shl_req(self, t: Transform2D) -> bool {
        true
    }

    open spec fn shl_spec(self, t: Transform2D) -> Vec2 {
        t.spec_apply(self)
    }
}

impl Default for Transform2D {
    fn default() -> (t: Transform2D)
        ensures
            t == Transform2D::spec_identity(),
    {
        Transform2D { a: 1, b: 0, c: 0, d: 0, e: 1, f: 0 }
    }
}

/// `a1 * b1 + a2 * b2 + c`, saturated.
fn dot3(a1: i32, b1: i32, a2: i32, b2: i32, c: i32) -> (r: i32)
    ensures
        r as int == saturate(a1 * b1 + a2 * b2 + c),
{
    assert(-0x4000_0000_0000_0000 <= a1 as int * b1 as int <= 0x4000_0000_0000_0000)
        by (nonlinear_arith)
        requires
            -0x8000_0000 <= a1 as int <= 0x7fff_ffff,
            -0x8000_0000 <= b1 as int <= 0x7fff_ffff,
    ;
    assert(-0x4000_0000_0000_0000 <= a2 as int * b2 as int <= 0x4000_0000_0000_0000)
        by (nonlinear_arith)
        requires
            -0x8000_0000 <= a2 as int <= 0x7fff_ffff,
            -0x8000_0000 <= b2 as int <= 0x7fff_ffff,
    ;
    let first: i128 = a1 as i128 * b1 as i128;
    let second: i128 = a2 as i128 * b2 as i128;
    saturating_wide(first + second + c as i128)
}

/// The identity is neutral on both sides of the product.
pub proof fn lemma_identity_neutral(t: Transform2D)
    ensures
        t.spec_mul(Transform2D::spec_identity()) == t,
        Transform2D::spec_identity().spec_mul(t) == t,
{
}

} // verus!
