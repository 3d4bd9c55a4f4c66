//! Shapes, the painter that collects them, and the commands they compile to.

pub mod commands;
pub mod font_render;
pub mod painter;
pub mod shape;
pub mod texture;
