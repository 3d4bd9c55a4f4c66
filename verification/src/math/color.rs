//! Colours with four integer channels.

use vstd::prelude::*;
use crate::math::rect::{lerp_int, lerp_scalar};
use crate::math::vec2::{saturate, saturating};

verus! {

/// Four integers that travel together: the corner roundings of a rectangle,
/// or the channels of a [`Color`].
pub type Vec4 = Color;

/// A colour that is not premultiplied. A channel runs from 0 to 255; an
/// alpha of 0 or less is fully transparent.
#[derive(Clone, Copy, Debug, PartialEq, Eq, Structural)]
pub struct Color {
    pub r: i32,
    pub g: i32,
    pub b: i32,
    pub a: i32,
}

/// A colour channel scaled by an alpha, both in 255ths, rounded toward zero.
pub open spec fn scale_channel(c: int, a: int) -> int {
    let p = c * a;
    if p >= 0 {
        saturate(p / 255)
    } else {
        saturate(-((-p) / 255))
    }
}

impl Color {
    /// The colour whose channels each carry their alpha.
    pub open spec fn spec_premultiply(self) -> Color {
        Color {
            r: scale_channel(self.r as int, self.a as int) as i32,
            g: scale_channel(self.g as int, self.a as int) as i32,
            b: scale_channel(self.b as int, self.a as int) as i32,
            a: self.a,
        }
    }

    /// The colour with `amount` added to every channel, saturating.
    pub open spec fn spec_brighten(self, amount: i32) -> Color {
        Color {
            r: saturate(self.r + amount) as i32,
            g: saturate(self.g + amount) as i32,
            b: saturate(self.b + amount) as i32,
            a: saturate(self.a + amount) as i32,
        }
    }

    /// The colour with its alpha scaled by `alpha` 255ths.
    pub open spec fn spec_scale_alpha(self, alpha: i32) -> Color {
        Color { a: scale_channel(self.a as int, alpha as int) as i32, ..self }
    }

    /// The colour with every channel brought between `min` and `max`.
    pub open spec fn spec_clamp(self, min: i32, max: i32) -> Color {
        Color {
            r: clamp_int(self.r as int, min as int, max as int) as i32,
            g: clamp_int(self.g as int, min as int, max as int) as i32,
            b: clamp_int(self.b as int, min as int, max as int) as i32,
            a: clamp_int(self.a as int, min as int, max as int) as i32,
        }
    }

    /// The colour that the number `0xRRGGBBAA` stands for.
    pub open spec fn spec_from_hex(hex: u32) -> Color {
        Color {
            r: (hex / 0x100_0000) as i32,
            g: ((hex / 0x1_0000) % 0x100) as i32,
            b: ((hex / 0x100) % 0x100) as i32,
            a: (hex % 0x100) as i32,
        }
    }

    /// The number `0xRRGGBBAA` that stands for the colour, clamped into the gamut.
    pub open spec fn spec_to_hex(self) -> u32 {
        (clamp_channel(self.r as int) * 0x100_0000 + clamp_channel(self.g as int) * 0x1_0000
            + clamp_channel(self.b as int) * 0x100 + clamp_channel(self.a as int)) as u32
    }

    /// The colour a share of `t / 256` along the way from `self` to `other`.
    pub open spec fn spec_lerp(self, other: Color, t: i32) -> Color {
        Color {
            r: lerp_int(self.r as int, other.r as int, t as int) as i32,
            g: lerp_int(self.g as int, other.g as int, t as int) as i32,
            b: lerp_int(self.b as int, other.b as int, t as int) as i32,
            a: lerp_int(self.a as int, other.a as int, t as int) as i32,
        }
    }

    /// The sum of the two colours, channel by channel and saturating.
    pub open spec fn spec_plus(self, other: Color) -> Color {
        Color {
            r: saturate(self.r + other.r) as i32,
            g: saturate(self.g + other.g) as i32,
            b: saturate(self.b + other.b) as i32,
            a: saturate(self.a + other.a) as i32,
        }
    }

    /// The difference of the two colours, channel by channel and saturating.
    pub open spec fn spec_minus(self, other: Color) -> Color {
        Color {
            r: saturate(self.r - other.r) as i32,
            g: saturate(self.g - other.g) as i32,
            b: saturate(self.b - other.b) as i32,
            a: saturate(self.a - other.a) as i32,
        }
    }

    /// The product of the two colours, channel by channel, in 255ths.
    pub open spec fn spec_times(self, other: Color) -> Color {
        Color {
            r: scale_channel(self.r as int, other.r as int) as i32,
            g: scale_channel(self.g as int, other.g as int) as i32,
            b: scale_channel(self.b as int, other.b as int) as i32,
            a: scale_channel(self.a as int, other.a as int) as i32,
        }
    }

    /// Whether every channel lies between 0 and 255.
    pub open spec fn in_gamut(self) -> bool {
        &&& 0 <= self.r <= 255
        &&& 0 <= self.g <= 255
        &&& 0 <= self.b <= 255
        &&& 0 <= self.a <= 255
    }

    /// Creates a colour from its four channels.
    pub fn new(r: i32, g: i32, b: i32, a: i32) -> (c: Color)
        ensures
            c == (Color { r, g, b, a }),
    {
        Color { r, g, b, a }
    }

    /// Creates a value whose four components are all `input`.
    pub fn same(input: i32) -> (c: Color)
        ensures
            c == (Color { r: input, g: input, b: input, a: input }),
    {
        Color { r: input, g: input, b: input, a: input }
    }

    /// Black without any opacity.
    pub fn transparent() -> (c: Color)
        ensures
            c == (Color { r: 0, g: 0, b: 0, a: 0 }),
    {
        Color { r: 0, g: 0, b: 0, a: 0 }
    }

    /// Opaque white.
    pub fn white() -> (c: Color)
        ensures
            c == (Color { r: 255, g: 255, b: 255, a: 255 }),
    {
        Color { r: 255, g: 255, b: 255, a: 255 }
    }

    /// Creates a colour from four bytes.
    pub fn from_rgba_u8(r: u8, g: u8, b: u8, a: u8) -> (c: Color)
        ensures
            c == (Color { r: r as i32, g: g as i32, b: b as i32, a: a as i32 }),
            c.in_gamut(),
    {
        Color { r: r as i32, g: g as i32, b: b as i32, a: a as i32 }
    }

    /// The premultiplied colour: each of red, green and blue times alpha over 255.
    #[verifier::when_used_as_spec(spec_premultiply)]
    pub fn premultiply(self) -> (c: Color)
        ensures
            c == self.spec_premultiply(),
    {
        Color {
            r: scale_by_alpha(self.r, self.a),
            g: scale_by_alpha(self.g, self.a),
            b: scale_by_alpha(self.b, self.a),
            a: self.a,
        }
    }

    /// Adds `amount` to every channel, saturating.
    #[verifier::when_used_as_spec(spec_brighten)]
    pub fn brighten(self, amount: i32) -> (c: Color)
        ensures
            c == self.spec_brighten(amount),
    {
        Color {
            r: saturating(self.r as i64 + amount as i64),
            g: saturating(self.g as i64 + amount as i64),
            b: saturating(self.b as i64 + amount as i64),
            a: saturating(self.a as i64 + amount as i64),
        }
    }

    /// Scales the alpha by `alpha` 255ths.
    #[verifier::when_used_as_spec(spec_scale_alpha)]
    pub fn scale_alpha(self, alpha: i32) -> (c: Color)
        ensures
            c == self.spec_scale_alpha(alpha),
    {
        Color { r: self.r, g: self.g, b: self.b, a: scale_by_alpha(self.a, alpha) }
    }

    /// Clamps every channel between `min` and `max`.
    pub fn clamp(self, min: i32, max: i32) -> (c: Color)
        requires
            min <= max,
        ensures
            c == self.spec_clamp(min, max),
            min == 0 && max == 255 ==> c.in_gamut(),
    {
        Color {
            r: clamp_between(self.r, min, max),
            g: clamp_between(self.g, min, max),
            b: clamp_between(self.b, min, max),
            a: clamp_between(self.a, min, max),
        }
    }

    /// An opaque colour from three bytes.
    pub fn from_rgb_u8(r: u8, g: u8, b: u8) -> (c: Color)
        ensures
            c == (Color { r: r as i32, g: g as i32, b: b as i32, a: 255 }),
    {
        Color { r: r as i32, g: g as i32, b: b as i32, a: 255 }
    }

    /// An opaque grey.
    pub fn from_gray_u8(value: u8) -> (c: Color)
        ensures
            c == (Color { r: value as i32, g: value as i32, b: value as i32, a: 255 }),
    {
        Color { r: value as i32, g: value as i32, b: value as i32, a: 255 }
    }

    /// A grey with the given opacity.
    pub fn from_gray_alpha_u8(value: u8, alpha: u8) -> (c: Color)
        ensures
            c == (Color { r: value as i32, g: value as i32, b: value as i32, a: alpha as i32 }),
    {
        Color { r: value as i32, g: value as i32, b: value as i32, a: alpha as i32 }
    }

    /// The colour that the number `0xRRGGBBAA` stands for.
    #[verifier::when_used_as_spec(spec_from_hex)]
    pub fn from_hex(hex: u32) -> (c: Color)
        ensures
            c == Color::spec_from_hex(hex),
            c.in_gamut(),
    {
        Color {
            r: (hex / 0x100_0000) as i32,
            g: ((hex / 0x1_0000) % 0x100) as i32,
            b: ((hex / 0x100) % 0x100) as i32,
            a: (hex % 0x100) as i32,
        }
    }

    /// The number `0xRRGGBBAA` that stands for the colour, each channel
    /// clamped into the gamut first. The colour is taken as it is, not
    /// premultiplied.
    #[verifier::when_used_as_spec(spec_to_hex)]
    pub fn to_hex(self) -> (hex: u32)
        ensures
            hex == self.spec_to_hex(),
    {
        let r: u32 = clamp_byte(self.r) as u32;
        let g: u32 = clamp_byte(self.g) as u32;
        let b: u32 = clamp_byte(self.b) as u32;
        let a: u32 = clamp_byte(self.a) as u32;
        r * 0x100_0000 + g * 0x1_0000 + b * 0x100 + a
    }

    /// The colour with red, green and blue turned round in the gamut.
    pub fn inverse(self) -> (c: Color)
        ensures
            c == (Color {
                r: saturate(255 - self.r) as i32,
                g: saturate(255 - self.g) as i32,
                b: saturate(255 - self.b) as i32,
                a: self.a,
            }),
    {
        Color {
            r: saturating(255 - self.r as i64),
            g: saturating(255 - self.g as i64),
            b: saturating(255 - self.b as i64),
            a: self.a,
        }
    }

    /// The colour a share of `t / 256` along the way from `self` to `other`.
    #[verifier::when_used_as_spec(spec_lerp)]
    pub fn lerp(self, other: Color, t: i32) -> (c: Color)
        ensures
            c == self.spec_lerp(other, t),
    {
        Color {
            r: lerp_scalar(self.r, other.r, t),
            g: lerp_scalar(self.g, other.g, t),
            b: lerp_scalar(self.b, other.b, t),
            a: lerp_scalar(self.a, other.a, t),
        }
    }

    /// The sum of the two colours, channel by channel and saturating.
    #[verifier::when_used_as_spec(spec_plus)]
    pub fn plus(self, other: Color) -> (c: Color)
        ensures
            c == self.spec_plus(other),
    {
        Color {
            r: saturating(self.r as i64 + other.r as i64),
            g: saturating(self.g as i64 + other.g as i64),
            b: saturating(self.b as i64 + other.b as i64),
            a: saturating(self.a as i64 + other.a as i64),
        }
    }

    /// The difference of the two colours, channel by channel and saturating.
    #[verifier::when_used_as_spec(spec_minus)]
    pub fn minus(self, other: Color) -> (c: Color)
        ensures
            c == self.spec_minus(other),
    {
        Color {
            r: saturating(self.r as i64 - other.r as i64),
            g: saturating(self.g as i64 - other.g as i64),
            b: saturating(self.b as i64 - other.b as i64),
            a: saturating(self.a as i64 - other.a as i64),
        }
    }

    /// The product of the two colours, channel by channel, in 255ths.
    #[verifier::when_used_as_spec(spec_times)]
    pub fn times(self, other: Color) -> (c: Color)
        ensures
            c == self.spec_times(other),
    {
        Color {
            r: scale_by_alpha(self.r, other.r),
            g: scale_by_alpha(self.g, other.g),
            b: scale_by_alpha(self.b, other.b),
            a: scale_by_alpha(self.a, other.a),
        }
    }

    /// The first component.
    pub fn x(&self) -> (v: i32)
        ensures
            v == self.r,
    {
        self.r
    }

    /// The second component.
    pub fn y(&self) -> (v: i32)
        ensures
            v == self.g,
    {
        self.g
    }

    /// The third component.
    pub fn z(&self) -> (v: i32)
        ensures
            v == self.b,
    {
        self.b
    }

    /// The fourth component.
    pub fn w(&self) -> (v: i32)
        ensures
            v == self.a,
    {
        self.a
    }

    /// Sets the first component.
    pub fn set_x(&mut self, x: i32)
        ensures
            *final(self) == (Color { r: x, ..*old(self) }),
    {
        self.r = x;
    }

    /// Sets the second component.
    pub fn set_y(&mut self, y: i32)
        ensures
            *final(self) == (Color { g: y, ..*old(self) }),
    {
        self.g = y;
    }

    /// Sets the third component.
    pub fn set_z(&mut self, z: i32)
        ensures
            *final(self) == (Color { b: z, ..*old(self) }),
    {
        self.b = z;
    }

    /// Sets the fourth component.
    pub fn set_w(&mut self, w: i32)
        ensures
            *final(self) == (Color { a: w, ..*old(self) }),
    {
        self.a = w;
    }
}

/// A channel value brought between `min` and `max`.
pub open spec fn clamp_int(v: int, min: int, max: int) -> int {
    if v < min {
        min
    } else if v > max {
        max
    } else {
        v
    }
}

/// A channel value clamped between 0 and 255.
pub open spec fn clamp_channel(v: int) -> int {
    if v < 0 {
        0
    } else if v > 255 {
        255
    } else {
        v
    }
}

fn scale_by_alpha(c: i32, a: i32) -> (r: i32)
    ensures
        r as int == scale_channel(c as int, a as int),
{
    assert(-0x4000_0000_0000_0000 <= c as int * a as int <= 0x4000_0000_0000_0000)
        by (nonlinear_arith)
        requires
            -0x8000_0000 <= c as int <= 0x7fff_ffff,
            -0x8000_0000 <= a as int <= 0x7fff_ffff,
    ;
    let p: i64 = c as i64 * a as i64;
    if p >= 0 {
        saturating(p / 255)
    } else {
        saturating(-((-p) / 255))
    }
}

fn clamp_byte(v: i32) -> (r: i32)
    ensures
        r == clamp_channel(v as int),
{
    if v < 0 {
        0
    } else if v > 255 {
        255
    } else {
        v
    }
}

fn clamp_between(v: i32, min: i32, max: i32) -> (r: i32)
    requires
        min <= max,
    ensures
        r == clamp_int(v as int, min as int, max as int),
{
    if v < min {
        min
    } else if v > max {
        max
    } else {
        v
    }
}

/// The number `0xRRGGBBAA` is the number of the colour that it stands for.
pub proof fn lemma_hex_of_color(hex: u32)
    ensures
        Color::spec_from_hex(hex).in_gamut(),
        Color::spec_from_hex(hex).spec_to_hex() == hex,
{
    assert(hex / 0x100_0000 <= 255 && (hex / 0x1_0000) % 0x100 <= 255 && (hex / 0x100) % 0x100 <= 255
        && hex % 0x100 <= 255) by (bit_vector);
    assert(hex == (hex / 0x100_0000) * 0x100_0000 + ((hex / 0x1_0000) % 0x100) * 0x1_0000 + ((hex
        / 0x100) % 0x100) * 0x100 + hex % 0x100) by (bit_vector);
}

/// A colour in the gamut is the colour that its number stands for.
pub proof fn lemma_color_of_hex(c: Color)
    requires
        c.in_gamut(),
    ensures
        Color::spec_from_hex(c.spec_to_hex()) == c,
{
    let r = c.r as u32;
    let g = c.g as u32;
    let b = c.b as u32;
    let a = c.a as u32;
    let hex = c.spec_to_hex();
    assert(hex == r * 0x100_0000 + g * 0x1_0000 + b * 0x100 + a);
    assert(r <= 255 && g <= 255 && b <= 255 && a <= 255 && hex == r * 0x100_0000 + g * 0x1_0000 + b
        * 0x100 + a ==> hex / 0x100_0000 == r && (hex / 0x1_0000) % 0x100 == g && (hex / 0x100)
        % 0x100 == b && hex % 0x100 == a) by (bit_vector);
}

/// Creates a colour from its four channels.
pub fn rgba(r: i32, g: i32, b: i32, a: i32) -> (c: Color)
    ensures
        c == (Color { r, g, b, a }),
{
    Color { r, g, b, a }
}

/// Creates a colour from its four channels.
pub fn color(r: i32, g: i32, b: i32, a: i32) -> (c: Color)
    ensures
        c == (Color { r, g, b, a }),
{
    Color { r, g, b, a }
}

/// Creates a value of four components.
pub fn vec4(x: i32, y: i32, z: i32, w: i32) -> (c: Vec4)
    ensures
        c == (Color { r: x, g: y, b: z, a: w }),
{
    Color { r: x, g: y, b: z, a: w }
}

/// Opaque black.
impl Default for Color {
    fn default() -> (c: Color)
        ensures
            c == (Color { r: 0, g: 0, b: 0, a: 255 }),
    {
        Color { r: 0, g: 0, b: 0, a: 255 }
    }
}

/// `a + b` adds channel by channel and saturates.
impl std::ops::Add<Color> for Color {
    type Output = Color;

    fn add(self, other: Color) -> (r: Color) {
        self.plus(other)
    }
}

impl vstd::std_specs::ops::AddSpecImpl<Color> for Color {
    open spec fn obeys_add_spec() -> bool {
        true
    }

    open spec fn add_req(self, other: Color) -> bool {
        true
    }

    open spec fn add_spec(self, other: Color) -> Color {
        self.spec_plus(other)
    }
}

/// `a - b` subtracts channel by channel and saturates.
impl std::ops::Sub<Color> for Color {
    type Output = Color;

    fn sub(self, other: Color) -> (r: Color) {
        self.minus(other)
    }
}

impl vstd::std_specs::ops::SubSpecImpl<Color> for Color {
    open spec fn obeys_sub_spec() -> bool {
        true
    }

    open spec fn sub_req(self, other: Color) -> bool {
        true
    }

    open spec fn sub_spec(self, other: Color) -> Color {
        self.spec_minus(other)
    }
}

/// `a * b` multiplies channel by channel, in 255ths.
impl std::ops::Mul<Color> for Color {
    type Output = Color;

    fn mul(self, other: Color) -> (r: Color) {
        self.times(other)
    }
}

impl vstd::std_specs::ops::MulSpecImpl<Color> for Color {
    open spec fn obeys_mul_spec() -> bool {
        true
    }

    open spec fn mul_req(self, other: Color) -> bool {
        true
    }

    open spec fn mul_spec(self, other: Color) -> Color {
        self.spec_times(other)
    }
}

} // verus!
