//! A two-dimensional vector of whole pixels.

use vstd::prelude::*;

verus! {

/// The value of `v` clamped into the range of `i32`.
pub open spec fn saturate(v: int) -> int {
    if v < i32::MIN as int {
        i32::MIN as int
    } else if v > i32::MAX as int {
        i32::MAX as int
    } else {
        v
    }
}

/// Clamps a wide intermediate result into the range of `i32`.
pub fn saturating(v: i64) -> (r: i32)
    ensures
        r as int == saturate(v as int),
{
    if v < i32::MIN as i64 {
        i32::MIN
    } else if v > i32::MAX as i64 {
        i32::MAX
    } else {
        v as i32
    }
}

/// Clamps a very wide intermediate result into the range of `i32`.
pub fn saturating_wide(v: i128) -> (r: i32)
    ensures
        r as int == saturate(v as int),
{
    if v < i32::MIN as i128 {
        i32::MIN
    } else if v > i32::MAX as i128 {
        i32::MAX
    } else {
        v as i32
    }
}

/// A point or an extent in whole pixels.
#[derive(Clone, Copy, Debug, PartialEq, Eq, Structural)]
pub struct Vec2 {
    pub x: i32,
    pub y: i32,
}

impl Vec2 {
    /// The origin.
    pub open spec fn spec_zero() -> Vec2 {
        Vec2 { x: 0, y: 0 }
    }

    /// The largest representable extent, standing for "unbounded".
    pub open spec fn spec_inf() -> Vec2 {
        Vec2 { x: i32::MAX, y: i32::MAX }
    }

    /// The origin.
    #[verifier::when_used_as_spec(spec_zero)]
    pub fn zero() -> (r: Vec2)
        ensures
            r == Vec2::spec_zero(),
    {
        Vec2 { x: 0, y: 0 }
    }

    /// The largest representable extent, standing for "unbounded".
    #[verifier::when_used_as_spec(spec_inf)]
    pub fn inf() -> (r: Vec2)
        ensures
            r == Vec2::spec_inf(),
    {
        Vec2 { x: i32::MAX, y: i32::MAX }
    }

    /// The sum of the two vectors, componentwise and saturating.
    pub open spec fn spec_plus(self, other: Vec2) -> Vec2 {
        Vec2 {
            x: saturate(self.x + other.x) as i32,
            y: saturate(self.y + other.y) as i32,
        }
    }

    /// The difference of the two vectors, componentwise and saturating.
    pub open spec fn spec_minus(self, other: Vec2) -> Vec2 {
        Vec2 {
            x: saturate(self.x - other.x) as i32,
            y: saturate(self.y - other.y) as i32,
        }
    }

    /// The vector with `-x` and `-y`, saturating.
    pub open spec fn spec_neg(self) -> Vec2 {
        Vec2 { x: saturate(-self.x) as i32, y: saturate(-self.y) as i32 }
    }

    /// The product of the two vectors, componentwise and saturating.
    pub open spec fn spec_times(self, other: Vec2) -> Vec2 {
        Vec2 { x: saturate(self.x * other.x) as i32, y: saturate(self.y * other.y) as i32 }
    }

    /// The absolute value of each component, saturating.
    pub open spec fn spec_abs(self) -> Vec2 {
        Vec2 { x: saturate(abs_int(self.x as int)) as i32, y: saturate(abs_int(self.y as int)) as i32 }
    }

    /// The smaller of the two vectors, componentwise.
    pub open spec fn spec_min(self, other: Vec2) -> Vec2 {
        Vec2 {
            x: if self.x <= other.x {
                self.x
            } else {
                other.x
            },
            y: if self.y <= other.y {
                self.y
            } else {
                other.y
            },
        }
    }

    /// The larger of the two vectors, componentwise.
    pub open spec fn spec_max(self, other: Vec2) -> Vec2 {
        Vec2 {
            x: if self.x >= other.x {
                self.x
            } else {
                other.x
            },
            y: if self.y >= other.y {
                self.y
            } else {
                other.y
            },
        }
    }

    /// Creates a vector from its two components.
    pub fn new(x: i32, y: i32) -> (r: Vec2)
        ensures
            r == (Vec2 { x, y }),
    {
        Vec2 { x, y }
    }

    /// Creates a vector with both components equal to `v`.
    pub fn same(v: i32) -> (r: Vec2)
        ensures
            r == (Vec2 { x: v, y: v }),
    {
        Vec2 { x: v, y: v }
    }

    /// The vector along the first axis with the length `x`.
    pub fn x(x: i32) -> (r: Vec2)
        ensures
            r == (Vec2 { x, y: 0 }),
    {
        Vec2 { x, y: 0 }
    }

    /// The vector along the second axis with the length `y`.
    pub fn y(y: i32) -> (r: Vec2)
        ensures
            r == (Vec2 { x: 0, y }),
    {
        Vec2 { x: 0, y }
    }

    /// The vector with its components swapped.
    pub fn yx(self) -> (r: Vec2)
        ensures
            r == (Vec2 { x: self.y, y: self.x }),
    {
        Vec2 { x: self.y, y: self.x }
    }

    /// Whether both components are zero.
    pub fn is_zero(self) -> (r: bool)
        ensures
            r == (self == Vec2::spec_zero()),
    {
        self.x == 0 && self.y == 0
    }

    /// The absolute value of each component; that of `i32::MIN` is `i32::MAX`.
    #[verifier::when_used_as_spec(spec_abs)]
    pub fn abs(self) -> (r: Vec2)
        ensures
            r == self.spec_abs(),
    {
        Vec2 { x: abs_saturating(self.x), y: abs_saturating(self.y) }
    }

    /// The sign of each component: -1, 0 or 1.
    pub fn sign(self) -> (r: Vec2)
        ensures
            r == (Vec2 { x: sign_int(self.x as int) as i32, y: sign_int(self.y as int) as i32 }),
    {
        Vec2 { x: sign_of(self.x), y: sign_of(self.y) }
    }

    /// The smaller of the two vectors, componentwise.
    #[verifier::when_used_as_spec(spec_min)]
    pub fn min(self, other: Vec2) -> (r: Vec2)
        ensures
            r == self.spec_min(other),
    {
        Vec2 {
            x: if self.x <= other.x {
                self.x
            } else {
                other.x
            },
            y: if self.y <= other.y {
                self.y
            } else {
                other.y
            },
        }
    }

    /// The smaller of the two vectors, componentwise.
    pub fn min_both(self, other: Vec2) -> (r: Vec2)
        ensures
            r == self.spec_min(other),
    {
        self.min(other)
    }

    /// The larger of the two vectors, componentwise.
    #[verifier::when_used_as_spec(spec_max)]
    pub fn max(self, other: Vec2) -> (r: Vec2)
        ensures
            r == self.spec_max(other),
    {
        Vec2 {
            x: if self.x >= other.x {
                self.x
            } else {
                other.x
            },
            y: if self.y >= other.y {
                self.y
            } else {
                other.y
            },
        }
    }

    /// The larger of the two vectors, componentwise.
    pub fn max_both(self, other: Vec2) -> (r: Vec2)
        ensures
            r == self.spec_max(other),
    {
        self.max(other)
    }

    /// The vector with each component brought between those of `min` and `max`.
    pub fn clamp_both(self, min: Vec2, max: Vec2) -> (r: Vec2)
        requires
            min.x <= max.x,
            min.y <= max.y,
        ensures
            r == self.spec_max(min).spec_min(max),
    {
        self.max(min).min(max)
    }

    /// The vector with each component brought between `min` and `max`.
    pub fn clamp(self, min: i32, max: i32) -> (r: Vec2)
        requires
            min <= max,
        ensures
            r == self.spec_max(Vec2 { x: min, y: min }).spec_min(Vec2 { x: max, y: max }),
    {
        self.max(Vec2 { x: min, y: min }).min(Vec2 { x: max, y: max })
    }

    /// The vector turned round; a component of `i32::MIN` becomes `i32::MAX`.
    #[verifier::when_used_as_spec(spec_neg)]
    pub fn negated(self) -> (r: Vec2)
        ensures
            r == self.spec_neg(),
    {
        Vec2 { x: saturating(-(self.x as i64)), y: saturating(-(self.y as i64)) }
    }

    /// Multiplies two vectors componentwise; a component that leaves the
    /// `i32` range stops at its end.
    #[verifier::when_used_as_spec(spec_times)]
    pub fn times(self, other: Vec2) -> (r: Vec2)
        ensures
            r == self.spec_times(other),
    {
        Vec2 { x: product(self.x, other.x), y: product(self.y, other.y) }
    }

    /// Whether either component is the unbounded extent.
    pub fn has_inf(self) -> (r: bool)
        ensures
            r == (self.x == i32::MAX || self.y == i32::MAX),
    {
        self.x == i32::MAX || self.y == i32::MAX
    }

    /// Adds two vectors; a component that leaves the `i32` range stops at its end.
    pub fn plus(self, other: Vec2) -> (r: Vec2)
        ensures
            r == self.spec_plus(other),
    {
        Vec2 {
            x: saturating(self.x as i64 + other.x as i64),
            y: saturating(self.y as i64 + other.y as i64),
        }
    }

    /// Subtracts `other` from `self`; a component that leaves the `i32` range stops at its end.
    pub fn minus(self, other: Vec2) -> (r: Vec2)
        ensures
            r == self.spec_minus(other),
    {
        Vec2 {
            x: saturating(self.x as i64 - other.x as i64),
            y: saturating(self.y as i64 - other.y as i64),
        }
    }
}

/// The absolute value of an integer.
pub open spec fn abs_int(v: int) -> int {
    if v < 0 {
        -v
    } else {
        v
    }
}

/// The sign of an integer: -1, 0 or 1.
pub open spec fn sign_int(v: int) -> int {
    if v < 0 {
        -1
    } else if v > 0 {
        1
    } else {
        0
    }
}

fn abs_saturating(v: i32) -> (r: i32)
    ensures
        r as int == saturate(abs_int(v as int)),
{
    if v < 0 {
        saturating(-(v as i64))
    } else {
        v
    }
}

fn sign_of(v: i32) -> (r: i32)
    ensures
        r as int == sign_int(v as int),
{
    if v < 0 {
        -1
    } else if v > 0 {
        1
    } else {
        0
    }
}

fn product(a: i32, b: i32) -> (r: i32)
    ensures
        r as int == saturate(a * b),
{
    assert(-0x4000_0000_0000_0000 <= a as int * b as int <= 0x4000_0000_0000_0000)
        by (nonlinear_arith)
        requires
            -0x8000_0000 <= a as int <= 0x7fff_ffff,
            -0x8000_0000 <= b as int <= 0x7fff_ffff,
    ;
    saturating(a as i64 * b as i64)
}

/// Creates a vector from its two components.
pub fn vec2(x: i32, y: i32) -> (r: Vec2)
    ensures
        r == (Vec2 { x, y }),
{
    Vec2 { x, y }
}

/// `a + b` adds componentwise and saturates.
impl std::ops::Add<Vec2> for Vec2 {
    type Output = Vec2;

    fn add(self, other: Vec2) -> (r: Vec2) {
        self.plus(other)
    }
}

impl vstd::std_specs::ops::AddSpecImpl<Vec2> for Vec2 {
    open spec fn obeys_add_spec() -> bool {
        true
    }

    open spec fn add_req(self, other: Vec2) -> bool {
        true
    }

    open spec fn add_spec(self, other: Vec2) -> Vec2 {
        self.spec_plus(other)
    }
}

/// `a - b` subtracts componentwise and saturates.
impl std::ops::Sub<Vec2> for Vec2 {
    type Output = Vec2;

    fn sub(self, other: Vec2) -> (r: Vec2) {
        self.minus(other)
    }
}

impl vstd::std_specs::ops::SubSpecImpl<Vec2> for Vec2 {
    open spec fn obeys_sub_spec() -> bool {
        true
    }

    open spec fn sub_req(self, other: Vec2) -> bool {
        true
    }

    open spec fn sub_spec(self, other: Vec2) -> Vec2 {
        self.spec_minus(other)
    }
}

/// `a * b` multiplies componentwise and saturates.
impl std::ops::Mul<Vec2> for Vec2 {
    type Output = Vec2;

    fn mul(self, other: Vec2) -> (r: Vec2) {
        self.times(other)
    }
}

impl vstd::std_specs::ops::MulSpecImpl<Vec2> for Vec2 {
    open spec fn obeys_mul_spec() -> bool {
        true
    }

    open spec fn mul_req(self, other: Vec2) -> bool {
        true
    }

    open spec fn mul_spec(self, other: Vec2) -> Vec2 {
        self.spec_times(other)
    }
}

/// `-a` turns the vector round, saturating.
impl std::ops::Neg for Vec2 {
    type Output = Vec2;

    fn neg(self) -> (r: Vec2) {
        self.negated()
    }
}

impl vstd::std_specs::ops::NegSpecImpl for Vec2 {
    open spec fn obeys_neg_spec() -> bool {
        true
    }

    open spec fn neg_req(self) -> bool {
        true
    }

    open spec fn neg_spec(self) -> Vec2 {
        self.spec_neg()
    }
}

impl From<(i32, i32)> for Vec2 {
    fn from(v: (i32, i32)) -> (r: Vec2) {
        Vec2 { x: v.0, y: v.1 }
    }
}

impl vstd::std_specs::convert::FromSpecImpl<(i32, i32)> for Vec2 {
    open spec fn obeys_from_spec() -> bool {
        true
    }

    open spec fn from_spec(v: (i32, i32)) -> Vec2 {
        Vec2 { x: v.0, y: v.1 }
    }
}

impl From<[i32; 2]> for Vec2 {
    fn from(v: [i32; 2]) -> (r: Vec2) {
        Vec2 { x: v[0], y: v[1] }
    }
}

impl vstd::std_specs::convert::FromSpecImpl<[i32; 2]> for Vec2 {
    open spec fn obeys_from_spec() -> bool {
        true
    }

    open spec fn from_spec(v: [i32; 2]) -> Vec2 {
        Vec2 { x: v[0], y: v[1] }
    }
}

impl Default for Vec2 {
    fn default() -> (r: Vec2)
        ensures
            r == Vec2::spec_zero(),
    {
        Vec2 { x: 0, y: 0 }
    }
}

} // verus!
