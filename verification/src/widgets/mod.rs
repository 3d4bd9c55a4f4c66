//! What the tree asks of a widget, and what widgets are built from.

pub mod floating_container;
pub mod inputbox;
pub mod signals;

use vstd::prelude::*;
use indexmap::IndexMap;
use std::collections::HashMap;
use crate::layout::{Layout, LayoutId};
use crate::math::rect::Rect;
use crate::math::vec2::Vec2;
use crate::render::painter::Painter;
use crate::window::input_state::InputState;

verus! {

/// A message that widgets send to the application.
pub trait Signal: Send + Sync + 'static {

}

impl Signal for () {

}

impl<T: Signal> Signal for Option<T> {

}

/// A signal together with the widget that sent it.
pub struct SignalWrapper<S: Signal> {
    /// The signal.
    pub signal: S,
    /// The sender.
    pub from: LayoutId,
}

/// A node of the widget tree.
///
/// The tree owns its widgets and calls them back: to measure them, to lay
/// out their children, to draw them and to hand them events. Nothing is
/// assumed of what an implementation returns.
pub trait Widget: Sized {
    /// The signals that the widget sends.
    type Signal: Signal;

    /// Handles the input of this frame and says whether the widget has to
    /// be drawn again.
    ///
    /// `area` is the visible rectangle of the widget and `pos` the position
    /// of its top-left corner, both in window coordinates. The area may be
    /// smaller than the widget where a container has scrolled or clipped it.
    fn handle_event(
        &mut self,
        input_state: &mut InputState<Self::Signal>,
        id: LayoutId,
        area: Rect,
        pos: Vec2,
    ) -> bool;

    /// Draws the widget, whose size is `size`, with its top-left corner at
    /// the origin.
    fn draw(&mut self, painter: &mut Painter, size: Vec2);

    /// The size that the widget would like to have.
    fn size(&self, id: LayoutId, painter: &Painter, layout: &Layout<Self>) -> Vec2;

    /// Places the children of the widget.
    ///
    /// `childs` holds the size that each child would like to have, in the
    /// order in which the children were added; `area` is the visible
    /// rectangle of the widget. The answer gives, by the number of the
    /// child's id, the rectangle of the child relative to the top-left
    /// corner of the widget, or `None` to have the child removed from the
    /// tree. A child without an answer is hidden. An answer for `id` itself
    /// is the rectangle, again relative to the widget, that the children
    /// are clipped to in place of `area`.
    ///
    /// A widget that leaves this as it is has no visible children.
    fn handle_child_layout(&mut self, childs: IndexMap<usize, Vec2>, area: Rect, id: LayoutId) -> HashMap<
        usize,
        Option<Rect>,
    > {
        HashMap::new()
    }

    /// The padding that the widget keeps between its edge and its content.
    fn inner_padding(&self) -> Vec2 {
        Vec2::zero()
    }
}

} // verus!
