//! What one draw frame of a window comes to: the tree is brought up to
//! date and painted, and what was painted is compiled for the renderer.

use vstd::prelude::*;
use crate::layout::paint::paintable;
use crate::layout::{Layout, LayoutId};
use crate::math::rect::Rect;
use crate::math::vec2::Vec2;
use crate::render::commands::DrawCommandGpu;
use crate::render::font_render::FontRender;
use crate::render::painter::{frame_commands, frame_depth, Painter, ShapeToDraw};
use crate::widgets::Widget;

verus! {

/// The number of registers that the renderer has: a frame must need fewer.
pub const STACK_SIZE: u32 = 64;

/// What the renderer gets for one frame.
pub struct CompiledFrame {
    /// The commands of the frame; none where nothing has to be drawn.
    pub commands: Vec<DrawCommandGpu>,
    /// The number of registers that the commands need.
    pub stack_len: u32,
    /// The part of the window that has to be drawn again; `None` where
    /// nothing has changed and the renderer has nothing to do.
    pub redraw_rect: Option<Rect>,
}

/// Why a frame cannot be handed to the renderer.
#[derive(Clone, Copy, Debug, PartialEq, Eq, Structural)]
pub enum FrameError {
    /// The frame needs `current` registers, but only `max` may be used.
    StackOverflow { max: u32, current: u32 },
}

/// The shapes of `shapes` that can be compiled, in their order.
pub open spec fn drawable_of(shapes: Seq<ShapeToDraw>) -> Seq<ShapeToDraw> {
    shapes.filter(|s: ShapeToDraw| s.shape@.len() == 0 || s.compilable())
}

impl Painter {
    /// Drops the shapes whose program is not valid, and says how many were
    /// dropped. The shapes that stay keep their order.
    pub fn drop_invalid_shapes(&mut self) -> (dropped: usize)
        ensures
            final(self).all_drawable(),
            final(self).shapes@ == drawable_of(old(self).shapes@),
            dropped == old(self).shapes@.len() - final(self).shapes@.len(),
            *final(self) == (Painter { shapes: final(self).shapes, ..*old(self) }),
    {
        let mut kept: Vec<ShapeToDraw> = Vec::new();
        let mut rest: Vec<ShapeToDraw> = Vec::new();
        std::mem::swap(&mut rest, &mut self.shapes);
        let ghost all = rest@;
        let total: usize = rest.len();
        let mut reversed: Vec<ShapeToDraw> = Vec::new();
        while rest.len() > 0
            invariant
                reversed@.len() + rest@.len() == all.len(),
                forall|j: int| 0 <= j < rest@.len() ==> rest@[j] == all[j],
                forall|j: int|
                    0 <= j < reversed@.len() ==> reversed@[j] == all[all.len() - 1 - j],
            decreases rest@.len(),
        {
            let shape: ShapeToDraw = rest.pop().unwrap();
            reversed.push(shape);
        }
        let mut dropped: usize = 0;
        proof {
            assert(all.take(0) =~= Seq::<ShapeToDraw>::empty());
            assert(drawable_of(all.take(0)) =~= Seq::<ShapeToDraw>::empty()) by {
                reveal(Seq::filter);
            }
        }
        while reversed.len() > 0
            invariant
                total == all.len(),
                reversed@.len() <= all.len(),
                forall|j: int|
                    0 <= j < reversed@.len() ==> reversed@[j] == all[all.len() - 1 - j],
                kept@ == drawable_of(all.take(all.len() - reversed@.len())),
                dropped + kept@.len() == all.len() - reversed@.len(),
                forall|j: int|
                    0 <= j < kept@.len() ==> (#[trigger] kept@[j]).shape@.len() == 0
                        || kept@[j].compilable(),
            decreases reversed@.len(),
        {
            let ghost done = all.len() - reversed@.len();
            let shape: ShapeToDraw = reversed.pop().unwrap();
            proof {
                assert(shape == all[done]);
                assert(all.take(done + 1) =~= all.take(done).push(shape));
                reveal(Seq::filter);
                assert(all.take(done + 1).drop_last() =~= all.take(done));
            }
            let fine: bool = shape.shape.0.len() == 0 || (shape.shape.is_valid()
                && shape.shape.0.len() < u32::MAX as usize);
            if fine {
                kept.push(shape);
            } else {
                dropped = dropped + 1;
            }
        }
        proof {
            assert(all.take(all.len() as int) =~= all);
        }
        self.shapes = kept;
        dropped
    }
}

/// What comes of compiling the shapes of a frame of which `refresh` has
/// to be drawn again.
///
/// - A frame that is not forced and of which nothing has to be drawn again
///   holds no command, needs no register and has no rectangle.
/// - Otherwise the rectangle of the frame is the whole window where the
///   frame is forced, and `refresh` where it is not. The shapes that can
///   be compiled are compiled for that rectangle, see [`frame_commands`]
///   and [`frame_depth`]. A frame that needs [`STACK_SIZE`] registers or
///   more is refused.
pub open spec fn compiled(
    shapes: Seq<ShapeToDraw>,
    refresh: Option<Rect>,
    glyphs: Map<u64, u32>,
    force_redraw: bool,
) -> Result<(Seq<DrawCommandGpu>, u32, Option<Rect>), FrameError> {
    if !force_redraw && refresh is None {
        Ok((Seq::empty(), 0u32, None))
    } else {
        let area = if force_redraw {
            Rect::spec_window()
        } else {
            refresh->0
        };
        let depth = frame_depth(drawable_of(shapes), glyphs, area);
        if depth >= STACK_SIZE {
            Err(FrameError::StackOverflow { max: STACK_SIZE, current: depth })
        } else {
            Ok((frame_commands(drawable_of(shapes), glyphs, area), depth, Some(area)))
        }
    }
}

/// Whether `r` is the frame or the error that `wanted` says.
pub open spec fn is_compiled(
    r: Result<CompiledFrame, FrameError>,
    wanted: Result<(Seq<DrawCommandGpu>, u32, Option<Rect>), FrameError>,
) -> bool {
    match wanted {
        Ok((commands, stack_len, redraw_rect)) => r is Ok && r->Ok_0.commands@ == commands
            && r->Ok_0.stack_len == stack_len && r->Ok_0.redraw_rect == redraw_rect,
        Err(error) => r is Err && r->Err_0 == error,
    }
}

/// Compiles what was painted in a frame of which `refresh` has to be
/// drawn again: the last step of [`draw_frame`], see [`compiled`].
///
/// Shapes without a valid program are dropped. The error
/// [`FrameError::StackOverflow`] comes exactly where the frame needs as
/// many registers as the renderer has, or more.
pub fn compile_frame(
    painter: Painter,
    refresh: Option<Rect>,
    font_render: &FontRender,
    force_redraw: bool,
) -> (r: Result<CompiledFrame, FrameError>)
    ensures
        is_compiled(r, compiled(painter.shapes@, refresh, font_render@, force_redraw)),
{
    let refresh_area: Rect = if force_redraw {
        Rect::window()
    } else {
        match refresh {
            Some(area) => area,
            None => {
                return Ok(CompiledFrame { commands: Vec::new(), stack_len: 0, redraw_rect: None });
            },
        }
    };
    let mut painter: Painter = painter;
    painter.drop_invalid_shapes();
    let (commands, stack_len): (Vec<DrawCommandGpu>, u32) = painter.parse(font_render, refresh_area);
    if stack_len >= STACK_SIZE {
        return Err(FrameError::StackOverflow { max: STACK_SIZE, current: stack_len });
    }
    Ok(CompiledFrame { commands, stack_len, redraw_rect: Some(refresh_area) })
}

/// What [`compiled`] says of every frame: a frame that is handed out
/// needs fewer registers than the renderer has; a frame without a
/// rectangle holds no command; a forced frame has the whole window as its
/// rectangle; and a frame that is not forced and of which nothing has to
/// be drawn again is handed out empty.
pub proof fn lemma_compiled(
    shapes: Seq<ShapeToDraw>,
    refresh: Option<Rect>,
    glyphs: Map<u64, u32>,
    force_redraw: bool,
)
    ensures
        match compiled(shapes, refresh, glyphs, force_redraw) {
            Ok((commands, stack_len, redraw_rect)) => {
                &&& stack_len < STACK_SIZE
                &&& redraw_rect is None ==> commands.len() == 0 && stack_len == 0
                &&& redraw_rect is None <==> !force_redraw && refresh is None
                &&& force_redraw ==> redraw_rect == Some(Rect::spec_window())
                &&& !force_redraw ==> redraw_rect == refresh
            },
            Err(FrameError::StackOverflow { max, current }) => max == STACK_SIZE && current >= STACK_SIZE
                && (force_redraw || refresh is Some),
        },
{
}

/// Runs one draw frame.
///
/// With `force_redraw` every widget is made dirty first, and the whole
/// window is drawn again. The tree is brought up to date and painted, see
/// [`Layout::handle_draw`], by a new painter for a window of the size
/// `window_size`. What the widgets have painted is compiled, see
/// [`compile_frame`]: the frame or the error is what [`compiled`] says of
/// the shapes that were painted and of the rectangle that the paint
/// returned.
///
/// So a frame in which nothing was dirty and no node was lost is handed
/// out empty unless it is forced, and a frame in which the root draws
/// itself has a rectangle.
pub fn draw_frame<W: Widget>(
    layout: &mut Layout<W>,
    font_render: &FontRender,
    window_size: Vec2,
    force_redraw: bool,
) -> (r: Result<CompiledFrame, FrameError>)
    requires
        old(layout).wf(),
    ensures
        final(layout).wf(),
        final(layout).next_id() == old(layout).next_id(),
        final(layout).aliases() == old(layout).aliases(),
        final(layout).alias_names() == old(layout).alias_names(),
        final(layout)@.dom().subset_of(old(layout)@.dom()),
        forall|c: LayoutId|
            #[trigger] final(layout)@.contains_key(c) ==> !final(layout)@[c].redraw_request,
        exists|shapes: Seq<ShapeToDraw>, refresh: Option<Rect>|
            {
                &&& #[trigger] is_compiled(r, compiled(shapes, refresh, font_render@, force_redraw))
                &&& !force_redraw && (forall|c: LayoutId|
                    #[trigger] old(layout)@.contains_key(c) ==> !old(layout)@[c].redraw_request)
                    && final(layout)@.dom() == old(layout)@.dom() ==> refresh is None
                &&& !force_redraw && paintable(old(layout)@, LayoutId(0)) ==> refresh is Some
            },
        match r {
            Ok(frame) => {
                &&& frame.stack_len < STACK_SIZE
                &&& frame.redraw_rect is None ==> frame.commands@.len() == 0 && frame.stack_len == 0
                &&& force_redraw ==> frame.redraw_rect == Some(Rect::spec_window())
            },
            Err(FrameError::StackOverflow { max, current }) => max == STACK_SIZE && current >= STACK_SIZE,
        },
        !force_redraw && (forall|c: LayoutId|
            #[trigger] old(layout)@.contains_key(c) ==> !old(layout)@[c].redraw_request)
            && final(layout)@.dom() == old(layout)@.dom() ==> r is Ok && r->Ok_0.redraw_rect is None,
        !force_redraw && paintable(old(layout)@, LayoutId(0)) && r is Ok ==> r->Ok_0.redraw_rect is Some,
{
    let mut painter: Painter = Painter::new(window_size);
    if force_redraw {
        layout.make_all_dirty();
    }
    let refresh: Option<Rect> = layout.handle_draw(&mut painter, window_size);
    proof {
        lemma_compiled(painter.shapes@, refresh, font_render@, force_redraw);
    }
    compile_frame(painter, refresh, font_render, force_redraw)
}

} // verus!
