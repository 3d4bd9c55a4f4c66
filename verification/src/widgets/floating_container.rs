//! Where a floating container lies.

use vstd::prelude::*;
use crate::layout::LayoutId;
use crate::math::rect::{half_int, Rect};
use crate::math::vec2::{saturate, saturating, Vec2};

verus! {

/// The place in its parent that a floating container is tied to.
#[derive(Clone, Copy, Debug, PartialEq, Eq, Structural)]
pub enum Anchor {
    TopLeft,
    TopCenter,
    TopRight,
    MiddleLeft,
    MiddleCenter,
    MiddleRight,
    BottomLeft,
    BottomCenter,
    BottomRight,
}

/// How the position of a floating container is found.
#[derive(Clone, Copy, Debug, PartialEq, Eq, Structural)]
pub enum FloatPostion {
    /// A position in the window.
    Absolote(Vec2),
    /// A position relative to the parent.
    Relative(Vec2),
    /// A position relative to another widget.
    RelativeWidget(LayoutId, Vec2),
    /// A place in the parent, and the distance kept from it.
    Anchored { anchor: Anchor, padding: Vec2 },
    /// A position relative to the cursor.
    RelativeCursor(Vec2),
}

impl Anchor {
    /// Where along an axis a container of extent `size` lies in a parent
    /// that starts at `start` and has the extent `extent`: at the start
    /// for `place` 0, in the middle for 1, at the end for 2.
    pub open spec fn along(place: int, start: int, extent: int, size: int) -> int {
        if place == 0 {
            start
        } else if place == 1 {
            saturate(start + half_int(extent) - half_int(size))
        } else {
            saturate(start + extent - size)
        }
    }

    /// The column of the anchor: 0 for left, 1 for the centre, 2 for right.
    pub open spec fn column(self) -> int {
        match self {
            Anchor::TopLeft | Anchor::MiddleLeft | Anchor::BottomLeft => 0,
            Anchor::TopCenter | Anchor::MiddleCenter | Anchor::BottomCenter => 1,
            Anchor::TopRight | Anchor::MiddleRight | Anchor::BottomRight => 2,
        }
    }

    /// The row of the anchor: 0 for the top, 1 for the middle, 2 for the bottom.
    pub open spec fn row(self) -> int {
        match self {
            Anchor::TopLeft | Anchor::TopCenter | Anchor::TopRight => 0,
            Anchor::MiddleLeft | Anchor::MiddleCenter | Anchor::MiddleRight => 1,
            Anchor::BottomLeft | Anchor::BottomCenter | Anchor::BottomRight => 2,
        }
    }

    /// The top-left corner of a container of the given size at this anchor
    /// of `parent_area`.
    pub open spec fn spec_corner(self, parent_area: Rect, size: Vec2) -> Vec2 {
        Vec2 {
            x: Anchor::along(
                self.column(),
                parent_area.x as int,
                parent_area.w as int,
                size.x as int,
            ) as i32,
            y: Anchor::along(self.row(), parent_area.y as int, parent_area.h as int, size.y as int) as i32,
        }
    }

    /// The top-left corner of a container of the given size at this anchor
    /// of `parent_area`.
    pub fn corner(self, parent_area: Rect, size: Vec2) -> (r: Vec2)
        ensures
            r == self.spec_corner(parent_area, size),
    {
        let (column, row): (u8, u8) = match self {
            Anchor::TopLeft => (0, 0),
            Anchor::TopCenter => (1, 0),
            Anchor::TopRight => (2, 0),
            Anchor::MiddleLeft => (0, 1),
            Anchor::MiddleCenter => (1, 1),
            Anchor::MiddleRight => (2, 1),
            Anchor::BottomLeft => (0, 2),
            Anchor::BottomCenter => (1, 2),
            Anchor::BottomRight => (2, 2),
        };
        Vec2 {
            x: place_along(column, parent_area.x, parent_area.w, size.x),
            y: place_along(row, parent_area.y, parent_area.h, size.y),
        }
    }
}

fn halve(v: i32) -> (r: i64)
    ensures
        r == half_int(v as int),
{
    if v >= 0 {
        (v / 2) as i64
    } else {
        -((-(v as i64)) / 2)
    }
}

fn place_along(place: u8, start: i32, extent: i32, size: i32) -> (r: i32)
    requires
        place <= 2,
    ensures
        r == Anchor::along(place as int, start as int, extent as int, size as int),
{
    if place == 0 {
        start
    } else if place == 1 {
        saturating(start as i64 + halve(extent) - halve(size))
    } else {
        saturating(start as i64 + extent as i64 - size as i64)
    }
}

impl FloatPostion {
    /// The position of the top-left corner of the container.
    pub open spec fn spec_get_pos(
        &self,
        parent_area: Rect,
        size: Vec2,
        widget_pos: Vec2,
        cursor_pos: Vec2,
    ) -> Vec2 {
        match *self {
            FloatPostion::Absolote(pos) => pos,
            FloatPostion::Relative(pos) => (Vec2 { x: parent_area.x, y: parent_area.y }).spec_plus(pos),
            FloatPostion::RelativeWidget(_, pos) => widget_pos.spec_plus(pos),
            FloatPostion::RelativeCursor(pos) => cursor_pos.spec_plus(pos),
            FloatPostion::Anchored { anchor, padding } => anchor.spec_corner(
                parent_area,
                size,
            ).spec_plus(padding),
        }
    }

    /// The position of the top-left corner of a container of the given
    /// size, in a parent that lies in `parent_area`, beside a widget at
    /// `widget_pos`, with the cursor at `cursor_pos`.
    #[verifier::when_used_as_spec(spec_get_pos)]
    pub fn get_pos(&self, parent_area: Rect, size: Vec2, widget_pos: Vec2, cursor_pos: Vec2) -> (r:
        Vec2)
        ensures
            r == self.spec_get_pos(parent_area, size, widget_pos, cursor_pos),
    {
        match *self {
            FloatPostion::Absolote(pos) => pos,
            FloatPostion::Relative(pos) => parent_area.lt().plus(pos),
            FloatPostion::RelativeWidget(_, pos) => widget_pos.plus(pos),
            FloatPostion::RelativeCursor(pos) => cursor_pos.plus(pos),
            FloatPostion::Anchored { anchor, padding } => anchor.corner(parent_area, size).plus(
                padding,
            ),
        }
    }
}

} // verus!
