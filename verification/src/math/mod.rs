//! Integer geometry: points, rectangles, colours and affine transforms.

pub mod color;
pub mod rect;
pub mod transform2d;
pub mod vec2;
