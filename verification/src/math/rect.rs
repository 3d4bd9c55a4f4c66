//! An axis-aligned rectangle of whole pixels.

use vstd::prelude::*;
use crate::math::transform2d::Transform2D;
use crate::math::vec2::{saturate, saturating, saturating_wide, Vec2};

verus! {

/// The blend weight that stands for one: weights are counted in 256ths.
pub const WEIGHT_ONE: i32 = 256;

/// The smaller of two integers.
pub open spec fn min_int(a: int, b: int) -> int {
    if a <= b {
        a
    } else {
        b
    }
}

/// The larger of two integers.
pub open spec fn max_int(a: int, b: int) -> int {
    if a >= b {
        a
    } else {
        b
    }
}

/// The value a share of `t / 256` along the way from `from` to `to`, rounded down and saturated.
pub open spec fn lerp_int(from: int, to: int, t: int) -> int {
    saturate(from + ((to - from) * t) / 256)
}

/// Half of an integer, rounded toward zero.
pub open spec fn half_int(v: int) -> int {
    if v >= 0 {
        v / 2
    } else {
        -((-v) / 2)
    }
}

fn min2(a: i32, b: i32) -> (r: i32)
    ensures
        r == min_int(a as int, b as int),
{
    if a <= b {
        a
    } else {
        b
    }
}

fn max2(a: i32, b: i32) -> (r: i32)
    ensures
        r == max_int(a as int, b as int),
{
    if a >= b {
        a
    } else {
        b
    }
}

/// The value a share of `t / 256` along the way from `from` to `to`.
pub fn lerp_scalar(from: i32, to: i32, t: i32) -> (r: i32)
    ensures
        r as int == lerp_int(from as int, to as int, t as int),
{
    let d: i64 = to as i64 - from as i64;
    assert(-0x8000_0000_0000_0000 <= d as int * t as int <= 0x8000_0000_0000_0000)
        by (nonlinear_arith)
        requires
            -0x1_0000_0000 <= d as int <= 0x1_0000_0000,
            -0x8000_0000 <= t as int <= 0x7fff_ffff,
    ;
    let p: i128 = d as i128 * t as i128;
    let q: i128 = if p >= 0 {
        p / 256
    } else {
        -((-p + 255) / 256)
    };
    saturating_wide(from as i128 + q)
}

/// An axis-aligned rectangle: its top-left corner and its extent.
///
/// A rectangle whose width or height is negative is empty.
#[derive(Clone, Copy, Debug, PartialEq, Eq, Structural)]
pub struct Rect {
    pub x: i32,
    pub y: i32,
    pub w: i32,
    pub h: i32,
}

impl Rect {
    /// The whole window, whatever its size: from the origin without bound.
    pub open spec fn spec_window() -> Rect {
        Rect { x: 0, y: 0, w: i32::MAX, h: i32::MAX }
    }

    /// The rectangle of no extent at the origin.
    pub open spec fn spec_zero() -> Rect {
        Rect { x: 0, y: 0, w: 0, h: 0 }
    }

    /// The whole window, whatever its size: from the origin without bound.
    #[verifier::when_used_as_spec(spec_window)]
    pub fn window() -> (r: Rect)
        ensures
            r == Rect::spec_window(),
    {
        Rect { x: 0, y: 0, w: i32::MAX, h: i32::MAX }
    }

    /// The rectangle of no extent at the origin.
    #[verifier::when_used_as_spec(spec_zero)]
    pub fn zero() -> (r: Rect)
        ensures
            r == Rect::spec_zero(),
    {
        Rect { x: 0, y: 0, w: 0, h: 0 }
    }

    /// The coordinate of the right edge.
    pub open spec fn right(self) -> int {
        self.x + self.w
    }

    /// The coordinate of the bottom edge.
    pub open spec fn bottom(self) -> int {
        self.y + self.h
    }

    /// Whether the rectangle has a negative width or height.
    pub open spec fn spec_is_empty(self) -> bool {
        self.w < 0 || self.h < 0
    }

    /// Whether every edge of `self` lies within `outer`.
    pub open spec fn within(self, outer: Rect) -> bool {
        &&& outer.x <= self.x
        &&& outer.y <= self.y
        &&& self.right() <= outer.right()
        &&& self.bottom() <= outer.bottom()
    }

    /// The largest rectangle inside both, with a saturated extent.
    pub open spec fn spec_intersection(self, other: Rect) -> Rect {
        let x = if self.x >= other.x { self.x } else { other.x };
        let y = if self.y >= other.y { self.y } else { other.y };
        let r = if self.right() <= other.right() { self.right() } else { other.right() };
        let b = if self.bottom() <= other.bottom() { self.bottom() } else { other.bottom() };
        Rect { x, y, w: saturate(r - x) as i32, h: saturate(b - y) as i32 }
    }

    /// Whether cutting `self` to `outer` leaves it as it is.
    pub open spec fn clipped_to(self, outer: Rect) -> bool {
        self.spec_intersection(outer) == self
    }

    /// The smallest rectangle around both, with a saturated extent.
    pub open spec fn spec_union(self, other: Rect) -> Rect {
        let x = if self.x <= other.x { self.x } else { other.x };
        let y = if self.y <= other.y { self.y } else { other.y };
        let r = if self.right() >= other.right() { self.right() } else { other.right() };
        let b = if self.bottom() >= other.bottom() { self.bottom() } else { other.bottom() };
        Rect { x, y, w: saturate(r - x) as i32, h: saturate(b - y) as i32 }
    }

    /// The rectangle shifted by `offset`, its extent unchanged.
    pub open spec fn spec_move_by(self, offset: Vec2) -> Rect {
        Rect {
            x: saturate(self.x + offset.x) as i32,
            y: saturate(self.y + offset.y) as i32,
            w: self.w,
            h: self.h,
        }
    }

    /// The rectangle between two corners, with a saturated extent.
    pub open spec fn spec_from_ltrb(lt: Vec2, rb: Vec2) -> Rect {
        Rect {
            x: lt.x,
            y: lt.y,
            w: saturate(rb.x - lt.x) as i32,
            h: saturate(rb.y - lt.y) as i32,
        }
    }

    /// The bottom-right corner, saturated into the `i32` range.
    pub open spec fn spec_rb(self) -> Vec2 {
        Vec2 { x: saturate(self.right()) as i32, y: saturate(self.bottom()) as i32 }
    }

    /// The rectangle with each edge moved inward by `amount`.
    pub open spec fn spec_shrink(self, amount: Vec2) -> Rect {
        Rect {
            x: saturate(self.x + amount.x) as i32,
            y: saturate(self.y + amount.y) as i32,
            w: saturate(self.w - 2 * amount.x) as i32,
            h: saturate(self.h - 2 * amount.y) as i32,
        }
    }

    /// The rectangle a share of `t / 256` along the way from `self` to `other`.
    pub open spec fn spec_lerp(self, other: Rect, t: i32) -> Rect {
        Rect {
            x: lerp_int(self.x as int, other.x as int, t as int) as i32,
            y: lerp_int(self.y as int, other.y as int, t as int) as i32,
            w: lerp_int(self.w as int, other.w as int, t as int) as i32,
            h: lerp_int(self.h as int, other.h as int, t as int) as i32,
        }
    }

    /// The bounding box of the images of the four corners under `mat`.
    pub open spec fn spec_transformed(self, mat: Transform2D) -> Rect {
        let lt = mat.spec_apply(Vec2 { x: self.x, y: self.y });
        let rb = mat.spec_apply(self.spec_rb());
        let lb = mat.spec_apply(Vec2 { x: self.x, y: self.spec_rb().y });
        let rt = mat.spec_apply(Vec2 { x: self.spec_rb().x, y: self.y });
        Rect::spec_from_ltrb(
            Vec2 {
                x: min_int(min_int(min_int(lt.x as int, rb.x as int), lb.x as int), rt.x as int) as i32,
                y: min_int(min_int(min_int(lt.y as int, rb.y as int), lb.y as int), rt.y as int) as i32,
            },
            Vec2 {
                x: max_int(max_int(max_int(lt.x as int, rb.x as int), lb.x as int), rt.x as int) as i32,
                y: max_int(max_int(max_int(lt.y as int, rb.y as int), lb.y as int), rt.y as int) as i32,
            },
        )
    }

    /// Whether `point` lies inside the rectangle, edges included.
    pub open spec fn spec_contains(self, point: Vec2) -> bool {
        self.x <= point.x && point.x <= self.right() && self.y <= point.y && point.y <= self.bottom()
    }

    /// Whether the two rectangles overlap in more than an edge.
    pub open spec fn spec_intersects(self, other: Rect) -> bool {
        &&& self.right() > other.x
        &&& self.x < other.right()
        &&& self.bottom() > other.y
        &&& self.y < other.bottom()
    }

    /// The rectangle between the corners of `self`, taken the other way round.
    pub open spec fn spec_rev(self) -> Rect {
        Rect::spec_from_ltrb(self.spec_rb(), Vec2 { x: self.x, y: self.y })
    }

    /// The rectangle stretched over the part of `other` that sticks out at
    /// the left and at the top, and cut back to where `other` begins where
    /// `other` sticks out at the right or at the bottom. A rectangle that
    /// `other` does not overlap stays as it is.
    pub open spec fn spec_difference(self, other: Rect) -> Rect {
        if !other.spec_intersects(self) {
            self
        } else {
            let left = other.x < self.x;
            let top = other.y < self.y;
            let w = if other.right() > self.right() {
                saturate(self.right() - other.x)
            } else if left {
                saturate(self.w - (other.x - self.x))
            } else {
                self.w as int
            };
            let h = if other.bottom() > self.bottom() {
                saturate(self.bottom() - other.y)
            } else if top {
                saturate(self.h - (other.y - self.y))
            } else {
                self.h as int
            };
            Rect {
                x: if left {
                    other.x
                } else {
                    self.x
                },
                y: if top {
                    other.y
                } else {
                    self.y
                },
                w: w as i32,
                h: h as i32,
            }
        }
    }

    /// Creates a rectangle from its corner and extent.
    pub fn new(x: i32, y: i32, w: i32, h: i32) -> (r: Rect)
        ensures
            r == (Rect { x, y, w, h }),
    {
        Rect { x, y, w, h }
    }

    /// The rectangle of the given size at the origin.
    pub fn from_size(size: Vec2) -> (r: Rect)
        ensures
            r == (Rect { x: 0, y: 0, w: size.x, h: size.y }),
    {
        Rect { x: 0, y: 0, w: size.x, h: size.y }
    }

    /// The rectangle of the given size with its top-left corner at `lt`.
    pub fn from_lt_size(lt: Vec2, size: Vec2) -> (r: Rect)
        ensures
            r == (Rect { x: lt.x, y: lt.y, w: size.x, h: size.y }),
    {
        Rect { x: lt.x, y: lt.y, w: size.x, h: size.y }
    }

    /// The rectangle between two corners; its extent saturates.
    #[verifier::when_used_as_spec(spec_from_ltrb)]
    pub fn from_ltrb(lt: Vec2, rb: Vec2) -> (r: Rect)
        ensures
            r == Rect::spec_from_ltrb(lt, rb),
    {
        Rect {
            x: lt.x,
            y: lt.y,
            w: saturating(rb.x as i64 - lt.x as i64),
            h: saturating(rb.y as i64 - lt.y as i64),
        }
    }

    /// The top-left corner.
    pub fn lt(self) -> (r: Vec2)
        ensures
            r == (Vec2 { x: self.x, y: self.y }),
    {
        Vec2 { x: self.x, y: self.y }
    }

    /// The bottom-right corner, saturated into the `i32` range.
    #[verifier::when_used_as_spec(spec_rb)]
    pub fn rb(self) -> (r: Vec2)
        ensures
            r == self.spec_rb(),
    {
        Vec2 {
            x: saturating(self.x as i64 + self.w as i64),
            y: saturating(self.y as i64 + self.h as i64),
        }
    }

    /// The extent.
    pub fn size(self) -> (r: Vec2)
        ensures
            r == (Vec2 { x: self.w, y: self.h }),
    {
        Vec2 { x: self.w, y: self.h }
    }

    /// The rectangle of the given size around `center`; half the size is
    /// rounded toward zero.
    pub fn from_center_size(center: Vec2, size: Vec2) -> (r: Rect)
        ensures
            r == (Rect {
                x: saturate(center.x - half_int(size.x as int)) as i32,
                y: saturate(center.y - half_int(size.y as int)) as i32,
                w: size.x,
                h: size.y,
            }),
    {
        Rect {
            x: saturating(center.x as i64 - (size.x / 2) as i64),
            y: saturating(center.y as i64 - (size.y / 2) as i64),
            w: size.x,
            h: size.y,
        }
    }

    /// The top-right corner, saturated into the `i32` range.
    pub fn rt(self) -> (r: Vec2)
        ensures
            r == (Vec2 { x: saturate(self.right()) as i32, y: self.y }),
    {
        Vec2 { x: saturating(self.x as i64 + self.w as i64), y: self.y }
    }

    /// The bottom-left corner, saturated into the `i32` range.
    pub fn lb(self) -> (r: Vec2)
        ensures
            r == (Vec2 { x: self.x, y: saturate(self.bottom()) as i32 }),
    {
        Vec2 { x: self.x, y: saturating(self.y as i64 + self.h as i64) }
    }

    /// The middle of the rectangle; half the extent is rounded toward zero.
    pub fn center(self) -> (r: Vec2)
        ensures
            r == (Vec2 {
                x: saturate(self.x + half_int(self.w as int)) as i32,
                y: saturate(self.y + half_int(self.h as int)) as i32,
            }),
    {
        Vec2 {
            x: saturating(self.x as i64 + (self.w / 2) as i64),
            y: saturating(self.y as i64 + (self.h / 2) as i64),
        }
    }

    /// The width.
    pub fn width(self) -> (r: i32)
        ensures
            r == self.w,
    {
        self.w
    }

    /// The height.
    pub fn height(self) -> (r: i32)
        ensures
            r == self.h,
    {
        self.h
    }

    /// The area: width times height.
    pub fn area(self) -> (r: i64)
        ensures
            r == self.w * self.h,
    {
        assert(-0x4000_0000_0000_0000 <= self.w as int * self.h as int <= 0x4000_0000_0000_0000)
            by (nonlinear_arith)
            requires
                -0x8000_0000 <= self.w as int <= 0x7fff_ffff,
                -0x8000_0000 <= self.h as int <= 0x7fff_ffff,
        ;
        self.w as i64 * self.h as i64
    }

    /// The perimeter: twice the width and the height.
    pub fn perimeter(self) -> (r: i64)
        ensures
            r == 2 * (self.w + self.h),
    {
        2 * (self.w as i64 + self.h as i64)
    }

    /// Whether the two rectangles overlap in more than an edge.
    #[verifier::when_used_as_spec(spec_intersects)]
    pub fn intersects(self, other: Rect) -> (r: bool)
        ensures
            r == self.spec_intersects(other),
    {
        self.x as i64 + self.w as i64 > other.x as i64 && (self.x as i64) < other.x as i64
            + other.w as i64 && self.y as i64 + self.h as i64 > other.y as i64 && (self.y as i64)
            < other.y as i64 + other.h as i64
    }

    /// What `other` leaves of the rectangle, see [`Rect::spec_difference`].
    #[verifier::when_used_as_spec(spec_difference)]
    pub fn difference(self, other: Rect) -> (r: Rect)
        ensures
            r == self.spec_difference(other),
    {
        if !other.intersects(self) {
            return self;
        }
        let right: i64 = self.x as i64 + self.w as i64;
        let bottom: i64 = self.y as i64 + self.h as i64;
        let left: bool = other.x < self.x;
        let top: bool = other.y < self.y;
        let w: i32 = if other.x as i64 + other.w as i64 > right {
            saturating(right - other.x as i64)
        } else if left {
            saturating(self.w as i64 - (other.x as i64 - self.x as i64))
        } else {
            self.w
        };
        let h: i32 = if other.y as i64 + other.h as i64 > bottom {
            saturating(bottom - other.y as i64)
        } else if top {
            saturating(self.h as i64 - (other.y as i64 - self.y as i64))
        } else {
            self.h
        };
        Rect {
            x: if left {
                other.x
            } else {
                self.x
            },
            y: if top {
                other.y
            } else {
                self.y
            },
            w,
            h,
        }
    }

    /// The rectangle between the two corners taken the other way round:
    /// from the bottom-right corner back to the top-left one.
    #[verifier::when_used_as_spec(spec_rev)]
    pub fn rev(self) -> (r: Rect)
        ensures
            r == self.spec_rev(),
    {
        Rect::from_ltrb(self.rb(), self.lt())
    }

    /// The rectangle itself where it is not empty, and turned round where it is.
    pub fn abs(self) -> (r: Rect)
        ensures
            r == if self.spec_is_empty() {
                self.spec_rev()
            } else {
                self
            },
    {
        if self.is_empty() {
            self.rev()
        } else {
            self
        }
    }

    /// The rectangle with its extent made smaller by `amount`, the corner kept.
    pub fn shrink_size(self, amount: Vec2) -> (r: Rect)
        ensures
            r == (Rect {
                w: saturate(self.w - amount.x) as i32,
                h: saturate(self.h - amount.y) as i32,
                ..self
            }),
    {
        Rect {
            x: self.x,
            y: self.y,
            w: saturating(self.w as i64 - amount.x as i64),
            h: saturating(self.h as i64 - amount.y as i64),
        }
    }

    /// The rectangle with its top-left corner at `pos`.
    pub fn move_to(self, pos: Vec2) -> (r: Rect)
        ensures
            r == (Rect { x: pos.x, y: pos.y, ..self }),
    {
        Rect { x: pos.x, y: pos.y, w: self.w, h: self.h }
    }

    /// Whether `point` lies in the rectangle, but not in the rectangle
    /// shrunk by `epsilon`.
    pub fn is_close_to_edge(self, point: Vec2, epsilon: Vec2) -> (r: bool)
        ensures
            r == (self.spec_contains(point) && !self.spec_shrink(epsilon).spec_contains(point)),
    {
        !self.shrink(epsilon).contains(point) && self.contains(point)
    }

    /// Whether the rectangle has a negative width or height.
    #[verifier::when_used_as_spec(spec_is_empty)]
    pub fn is_empty(self) -> (r: bool)
        ensures
            r == self.spec_is_empty(),
    {
        self.w < 0 || self.h < 0
    }

    /// Whether the rectangle is not empty.
    pub fn is_positive(self) -> (r: bool)
        ensures
            r == !self.spec_is_empty(),
    {
        !self.is_empty()
    }

    /// Whether `point` lies inside the rectangle, edges included.
    #[verifier::when_used_as_spec(spec_contains)]
    pub fn contains(self, point: Vec2) -> (r: bool)
        ensures
            r == self.spec_contains(point),
    {
        point.x >= self.x && point.x as i64 <= self.x as i64 + self.w as i64 && point.y >= self.y
            && point.y as i64 <= self.y as i64 + self.h as i64
    }

    /// The part common to both rectangles; empty where they do not meet.
    #[verifier::when_used_as_spec(spec_intersection)]
    pub fn intersection(self, other: Rect) -> (r: Rect)
        ensures
            r == self.spec_intersection(other),
    {
        let x: i32 = if self.x >= other.x { self.x } else { other.x };
        let y: i32 = if self.y >= other.y { self.y } else { other.y };
        let sr: i64 = self.x as i64 + self.w as i64;
        let or: i64 = other.x as i64 + other.w as i64;
        let sb: i64 = self.y as i64 + self.h as i64;
        let ob: i64 = other.y as i64 + other.h as i64;
        let r: i64 = if sr <= or { sr } else { or };
        let b: i64 = if sb <= ob { sb } else { ob };
        Rect { x, y, w: saturating(r - x as i64), h: saturating(b - y as i64) }
    }

    /// The bounding box of both rectangles.
    #[verifier::when_used_as_spec(spec_union)]
    pub fn union(self, other: Rect) -> (r: Rect)
        ensures
            r == self.spec_union(other),
    {
        let x: i32 = if self.x <= other.x { self.x } else { other.x };
        let y: i32 = if self.y <= other.y { self.y } else { other.y };
        let sr: i64 = self.x as i64 + self.w as i64;
        let or: i64 = other.x as i64 + other.w as i64;
        let sb: i64 = self.y as i64 + self.h as i64;
        let ob: i64 = other.y as i64 + other.h as i64;
        let r: i64 = if sr >= or { sr } else { or };
        let b: i64 = if sb >= ob { sb } else { ob };
        Rect { x, y, w: saturating(r - x as i64), h: saturating(b - y as i64) }
    }

    /// The rectangle shifted by `offset`.
    #[verifier::when_used_as_spec(spec_move_by)]
    pub fn move_by(self, offset: Vec2) -> (r: Rect)
        ensures
            r == self.spec_move_by(offset),
    {
        Rect {
            x: saturating(self.x as i64 + offset.x as i64),
            y: saturating(self.y as i64 + offset.y as i64),
            w: self.w,
            h: self.h,
        }
    }

    /// The rectangle with each edge moved inward by `amount`; a negative amount grows it.
    #[verifier::when_used_as_spec(spec_shrink)]
    pub fn shrink(self, amount: Vec2) -> (r: Rect)
        ensures
            r == self.spec_shrink(amount),
    {
        Rect {
            x: saturating(self.x as i64 + amount.x as i64),
            y: saturating(self.y as i64 + amount.y as i64),
            w: saturating(self.w as i64 - 2 * (amount.x as i64)),
            h: saturating(self.h as i64 - 2 * (amount.y as i64)),
        }
    }

    /// The rectangle a share of `t / 256` along the way from `self` to `other`.
    #[verifier::when_used_as_spec(spec_lerp)]
    pub fn lerp(self, other: Rect, t: i32) -> (r: Rect)
        ensures
            r == self.spec_lerp(other, t),
    {
        Rect {
            x: lerp_scalar(self.x, other.x, t),
            y: lerp_scalar(self.y, other.y, t),
            w: lerp_scalar(self.w, other.w, t),
            h: lerp_scalar(self.h, other.h, t),
        }
    }

    /// The bounding box of the images of the four corners under `mat`.
    #[verifier::when_used_as_spec(spec_transformed)]
    pub fn transformed(self, mat: Transform2D) -> (r: Rect)
        ensures
            r == self.spec_transformed(mat),
    {
        let corner: Vec2 = self.rb();
        let lt: Vec2 = mat.apply(self.lt());
        let rb: Vec2 = mat.apply(corner);
        let lb: Vec2 = mat.apply(Vec2 { x: self.x, y: corner.y });
        let rt: Vec2 = mat.apply(Vec2 { x: corner.x, y: self.y });
        let lt_x: i32 = min2(min2(min2(lt.x, rb.x), lb.x), rt.x);
        let lt_y: i32 = min2(min2(min2(lt.y, rb.y), lb.y), rt.y);
        let rb_x: i32 = max2(max2(max2(lt.x, rb.x), lb.x), rt.x);
        let rb_y: i32 = max2(max2(max2(lt.y, rb.y), lb.y), rt.y);
        Rect::from_ltrb(Vec2 { x: lt_x, y: lt_y }, Vec2 { x: rb_x, y: rb_y })
    }
}

/// A rectangle is clipped to itself, the cut of a rectangle to another is
/// clipped to that other, and what is clipped to a rectangle is clipped to
/// every rectangle that the latter is clipped to.
pub proof fn lemma_clipped(a: Rect, b: Rect, c: Rect)
    ensures
        a.clipped_to(a),
        a.spec_intersection(b).clipped_to(b),
        a.clipped_to(b) && b.clipped_to(c) ==> a.clipped_to(c),
        a.clipped_to(b) ==> a.spec_intersection(c).clipped_to(b),
{
}

/// Whatever the size of the window, its rectangle is clipped to the unbounded window.
pub proof fn lemma_window_clipped(size: Vec2)
    ensures
        (Rect { x: 0, y: 0, w: size.x, h: size.y }).clipped_to(Rect::spec_window()),
{
}

/// Creates a rectangle from its corner and extent.
pub fn rect(x: i32, y: i32, w: i32, h: i32) -> (r: Rect)
    ensures
        r == (Rect { x, y, w, h }),
{
    Rect { x, y, w, h }
}

/// Creates the rectangle between two corners.
pub fn rect_ltrb(lt: Vec2, rb: Vec2) -> (r: Rect)
    ensures
        r == Rect::spec_from_ltrb(lt, rb),
{
    Rect::from_ltrb(lt, rb)
}

impl Default for Rect {
    fn default() -> (r: Rect)
        ensures
            r == Rect::spec_zero(),
    {
        Rect { x: 0, y: 0, w: 0, h: 0 }
    }
}

/// `a & b` is the part common to both rectangles.
impl std::ops::BitAnd<Rect> for Rect {
    type Output = Rect;

    fn bitand(self, other: Rect) -> (r: Rect) {
        self.intersection(other)
    }
}

impl vstd::std_specs::ops::BitAndSpecImpl<Rect> for Rect {
    open spec fn obeys_bitand_spec() -> bool {
        true
    }

    open spec fn bitand_req(self, other: Rect) -> bool {
        true
    }

    open spec fn bitand_spec(self, other: Rect) -> Rect {
        self.spec_intersection(other)
    }
}

/// `a | b` is the smallest rectangle round both.
impl std::ops::BitOr<Rect> for Rect {
    type Output = Rect;

    fn bitor(self, other: Rect) -> (r: Rect) {
        self.union(other)
    }
}

impl vstd::std_specs::ops::BitOrSpecImpl<Rect> for Rect {
    open spec fn obeys_bitor_spec() -> bool {
        true
    }

    open spec fn bitor_req(self, other: Rect) -> bool {
        true
    }

    open spec fn bitor_spec(self, other: Rect) -> Rect {
        self.spec_union(other)
    }
}

/// `a - b` is what `b` leaves of `a`, see [`Rect::spec_difference`].
impl std::ops::Sub<Rect> for Rect {
    type Output = Rect;

    fn sub(self, other: Rect) -> (r: Rect) {
        self.difference(other)
    }
}

impl vstd::std_specs::ops::SubSpecImpl<Rect> for Rect {
    open spec fn obeys_sub_spec() -> bool {
        true
    }

    open spec fn sub_req(self, other: Rect) -> bool {
        true
    }

    open spec fn sub_spec(self, other: Rect) -> Rect {
        self.spec_difference(other)
    }
}

/// `-a` is the rectangle turned round.
impl std::ops::Neg for Rect {
    type Output = Rect;

    fn neg(self) -> (r: Rect) {
        self.rev()
    }
}

impl vstd::std_specs::ops::NegSpecImpl for Rect {
    open spec fn obeys_neg_spec() -> bool {
        true
    }

    open spec fn neg_req(self) -> bool {
        true
    }

    open spec fn neg_spec(self) -> Rect {
        self.spec_rev()
    }
}

} // verus!
