//! A retained-mode UI core: a widget tree with incremental layout and dirty
//! tracking, a painter whose shapes compile into a register-bounded
//! command stream for a signed-distance-field renderer, and the state of
//! the input that the widgets read.
//!
//! All geometry is measured in whole device pixels and stored as `i32`;
//! arithmetic on it saturates at the ends of that range. Colours have
//! channels from 0 to 255, and blend weights are counted in 256ths.

pub mod context;
pub mod layout;
pub mod math;
pub mod render;
pub mod widgets;
pub mod window;
