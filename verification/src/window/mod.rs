//! What the window hands to the toolkit: events and the state of the input.

pub mod clock;
pub mod event;
pub mod held;
pub mod input_frame;
pub mod input_query;
pub mod input_state;
pub mod input_update;
pub mod manager;
