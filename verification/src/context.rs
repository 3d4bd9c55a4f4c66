//! What a program holds of its window: the tree of widgets, the state of
//! the input, and the textures that it has registered.

use vstd::prelude::*;
use std::collections::HashMap;
use indexmap::IndexSet;
use crate::layout::ordered::{index_set_insert, index_set_new, index_set_pop, set_items};
use crate::layout::events::handled;
use crate::layout::paint::paintable;
use crate::layout::tree::NodeView;
use crate::layout::{Layout, LayoutId};
use crate::render::font_render::FontRender;
use crate::render::painter::ShapeToDraw;
use crate::math::rect::Rect;
use crate::math::vec2::Vec2;
use crate::render::texture::{Texture, TextureId};
use crate::widgets::{Signal, SignalWrapper, Widget};
use crate::window::clock::is_span;
use crate::window::event::OutputEvent;
use crate::window::input_state::{InputState, InputView};
use crate::window::manager::{
    compiled,
    draw_frame,
    is_compiled,
    CompiledFrame,
    FrameError,
    STACK_SIZE,
};

verus! {

/// The tree, the input and the textures of one window.
pub struct Context<S: Signal, W: Widget> {
    /// The tree of widgets.
    pub layout: Layout<W>,
    /// Whether every frame draws the whole window again, changed or not.
    pub force_redraw_per_frame: bool,
    /// The textures that are registered, by their ids.
    pub textures: HashMap<TextureId, Texture>,
    /// The ids of textures that were removed: they are handed out again,
    /// the one that was removed last first.
    pub available_texture_ids: IndexSet<usize>,
    /// The state of the input.
    pub input_state: InputState<S>,
    /// Whether the program is to end.
    pub exit: bool,
}

/// The extent of a texture along an axis: a length in pixels, or 0 for a
/// negative one.
pub open spec fn spec_extent(length: i32) -> u32 {
    if length < 0 {
        0
    } else {
        length as u32
    }
}

/// The extent of a texture along an axis.
#[verifier::when_used_as_spec(spec_extent)]
pub fn extent(length: i32) -> (r: u32)
    ensures
        r == spec_extent(length),
{
    if length < 0 {
        0
    } else {
        length as u32
    }
}

/// The id that the next texture gets: the id that was given back last, or,
/// where none is left, the number of textures.
pub open spec fn next_texture_id(textures: Map<TextureId, Texture>, free: Seq<usize>) -> TextureId {
    if free.len() > 0 {
        free.last() as u32
    } else {
        textures.len() as u32
    }
}

/// Whether the ids are handed out soundly: with `n` ids in use or given
/// back, each of them is below `n`, and none is both in use and given back
/// or given back twice.
pub open spec fn ids_sound(textures: Map<TextureId, Texture>, free: Seq<usize>) -> bool {
    &&& textures.dom().finite()
    &&& free.no_duplicates()
    &&& forall|id: TextureId| #[trigger] textures.contains_key(id) ==> id < textures.len() + free.len()
    &&& forall|i: int| 0 <= i < free.len() ==> (#[trigger] free[i]) < textures.len() + free.len()
    &&& forall|i: int| 0 <= i < free.len() ==> (#[trigger] free[i]) <= u32::MAX
    &&& forall|i: int|
        0 <= i < free.len() ==> !textures.contains_key((#[trigger] free[i]) as u32)
}

impl<S: Signal, W: Widget> Context<S, W> {
    /// Whether the tree, the input and the ids of the textures are sound.
    pub open spec fn wf(&self) -> bool {
        &&& self.layout.wf()
        &&& self.input_state.wf()
        &&& ids_sound(self.textures@, set_items(self.available_texture_ids))
    }

    /// A context without widgets and textures, for a program that starts now.
    pub fn new() -> (ctx: Context<S, W>)
        ensures
            ctx.wf(),
            ctx.layout@ == Map::<LayoutId, NodeView<W>>::empty(),
            ctx.input_state@ == InputView::<S>::start(),
            ctx.textures@ == Map::<TextureId, Texture>::empty(),
            set_items(ctx.available_texture_ids) == Seq::<usize>::empty(),
            !ctx.force_redraw_per_frame,
            !ctx.exit,
    {
        broadcast use vstd::std_specs::hash::group_hash_axioms;

        Context {
            layout: Layout::new(),
            force_redraw_per_frame: false,
            textures: HashMap::new(),
            available_texture_ids: index_set_new(),
            input_state: InputState::new(),
            exit: false,
        }
    }

    /// The state of the input.
    pub fn input_state(&self) -> (state: &InputState<S>)
        ensures
            *state == self.input_state,
    {
        &self.input_state
    }

    /// Registers a texture of the size `size` with the pixels `rgba`, and
    /// returns its id: the id that was given back last, or, where none is
    /// left, the number of textures. The host is asked to register the
    /// texture.
    ///
    /// While the ids are sound and fewer than 2^32 textures are
    /// registered, the id is that of no other texture.
    pub fn register_texture(&mut self, rgba: Vec<u8>, size: Vec2) -> (id: TextureId)
        ensures
            id == next_texture_id(old(self).textures@, set_items(old(self).available_texture_ids)),
            final(self).textures@ == old(self).textures@.insert(
                id,
                Texture {
                    texture_id: id,
                    width: spec_extent(size.x),
                    height: spec_extent(size.y),
                    used_in_last_frame: false,
                },
            ),
            set_items(final(self).available_texture_ids) == if set_items(
                old(self).available_texture_ids,
            ).len() > 0 {
                set_items(old(self).available_texture_ids).drop_last()
            } else {
                set_items(old(self).available_texture_ids)
            },
            final(self).input_state@ == (InputView {
                output_events: old(self).input_state@.output_events.push(
                    OutputEvent::RegisterTexture(size, rgba),
                ),
                ..old(self).input_state@
            }),
            final(self).layout == old(self).layout,
            final(self).force_redraw_per_frame == old(self).force_redraw_per_frame,
            final(self).exit == old(self).exit,
            old(self).wf() && old(self).textures@.len() <= u32::MAX ==> final(self).wf() && !old(
                self,
            ).textures@.contains_key(id),
    {
        broadcast use vstd::std_specs::hash::group_hash_axioms;

        let ghost textures = self.textures@;
        let ghost free = set_items(self.available_texture_ids);
        self.input_state.ask(OutputEvent::RegisterTexture(size, rgba));
        let id: TextureId = match index_set_pop(&mut self.available_texture_ids) {
            Some(given_back) => #[verifier::truncate]
            (given_back as u32),
            None => #[verifier::truncate]
            (self.textures.len() as u32),
        };
        self.textures.insert(
            id,
            Texture {
                texture_id: id,
                width: extent(size.x),
                height: extent(size.y),
                used_in_last_frame: false,
            },
        );
        proof {
            if ids_sound(textures, free) && textures.len() <= u32::MAX {
                let left = set_items(self.available_texture_ids);
                if free.len() > 0 {
                    assert(free[free.len() - 1] <= u32::MAX);
                    assert(!textures.contains_key(free[free.len() - 1] as u32));
                    assert forall|i: int| 0 <= i < left.len() implies !self.textures@.contains_key(
                        (#[trigger] left[i]) as u32,
                    ) by {
                        assert(left[i] == free[i]);
                        assert(free[i] != free[free.len() - 1]);
                    }
                    assert forall|i: int| 0 <= i < left.len() implies (#[trigger] left[i])
                        < self.textures@.len() + left.len() by {
                        assert(left[i] == free[i]);
                    }
                }
                assert(!textures.contains_key(id));
                assert(self.textures@.dom() =~= textures.dom().insert(id));
                assert(self.textures@.len() == textures.len() + 1);
            }
        }
        id
    }

    /// Gives the texture `texture_id` the size `new_size` and the pixels
    /// `rgba`, and asks the host to do the same. Returns whether there is
    /// such a texture; where there is none, nothing happens.
    pub fn update_texture(&mut self, texture_id: TextureId, rgba: Vec<u8>, new_size: Vec2) -> (r: bool)
        ensures
            r == old(self).textures@.contains_key(texture_id),
            r ==> final(self).textures@ == old(self).textures@.insert(
                texture_id,
                Texture {
                    width: spec_extent(new_size.x),
                    height: spec_extent(new_size.y),
                    used_in_last_frame: true,
                    ..old(self).textures@[texture_id]
                },
            ) && final(self).input_state@ == (InputView {
                output_events: old(self).input_state@.output_events.push(
                    OutputEvent::UpdateTexture(texture_id, new_size, rgba),
                ),
                ..old(self).input_state@
            }),
            !r ==> final(self).textures@ == old(self).textures@ && final(self).input_state@ == old(
                self,
            ).input_state@,
            final(self).available_texture_ids == old(self).available_texture_ids,
            final(self).layout == old(self).layout,
            final(self).force_redraw_per_frame == old(self).force_redraw_per_frame,
            final(self).exit == old(self).exit,
            old(self).wf() ==> final(self).wf(),
    {
        broadcast use vstd::std_specs::hash::group_hash_axioms;

        let ghost textures = self.textures@;
        let found: Option<Texture> = match self.textures.get(&texture_id) {
            Some(texture) => Some(*texture),
            None => None,
        };
        match found {
            Some(texture) => {
                self.input_state.ask(OutputEvent::UpdateTexture(texture_id, new_size, rgba));
                self.textures.insert(
                    texture_id,
                    Texture {
                        texture_id: texture.texture_id,
                        width: extent(new_size.x),
                        height: extent(new_size.y),
                        used_in_last_frame: true,
                    },
                );
                proof {
                    assert(self.textures@.dom() =~= textures.dom());
                }
                true
            },
            None => false,
        }
    }

    /// Removes the texture `texture_id` and returns it, if there is one.
    /// The host is asked to remove it, and the id is given back to be
    /// handed out again.
    ///
    /// The ids stay sound where there was such a texture.
    pub fn remove_texture(&mut self, texture_id: TextureId) -> (r: Option<Texture>)
        ensures
            r == if old(self).textures@.contains_key(texture_id) {
                Some(old(self).textures@[texture_id])
            } else {
                None
            },
            final(self).textures@ == old(self).textures@.remove(texture_id),
            set_items(final(self).available_texture_ids) == if set_items(
                old(self).available_texture_ids,
            ).contains(texture_id as usize) {
                set_items(old(self).available_texture_ids)
            } else {
                set_items(old(self).available_texture_ids).push(texture_id as usize)
            },
            final(self).input_state@ == (InputView {
                output_events: old(self).input_state@.output_events.push(
                    OutputEvent::RemoveTexture(texture_id),
                ),
                ..old(self).input_state@
            }),
            final(self).layout == old(self).layout,
            final(self).force_redraw_per_frame == old(self).force_redraw_per_frame,
            final(self).exit == old(self).exit,
            old(self).wf() && r is Some ==> final(self).wf(),
    {
        broadcast use vstd::std_specs::hash::group_hash_axioms;

        let ghost textures = self.textures@;
        let ghost free = set_items(self.available_texture_ids);
        self.input_state.ask(OutputEvent::RemoveTexture(texture_id));
        index_set_insert(&mut self.available_texture_ids, texture_id as usize);
        let r: Option<Texture> = self.textures.remove(&texture_id);
        proof {
            if ids_sound(textures, free) && textures.contains_key(texture_id) {
                let now_free = set_items(self.available_texture_ids);
                if free.contains(texture_id as usize) {
                    let i = choose|i: int| 0 <= i < free.len() && free[i] == texture_id as usize;
                    assert(!textures.contains_key(free[i] as u32));
                }
                assert(now_free == free.push(texture_id as usize));
                assert(self.textures@.dom() =~= textures.dom().remove(texture_id));
                assert(self.textures@.len() == textures.len() - 1);
                assert forall|i: int| 0 <= i < now_free.len() implies !self.textures@.contains_key(
                    (#[trigger] now_free[i]) as u32,
                ) by {
                    if i < free.len() {
                        assert(now_free[i] == free[i]);
                    }
                }
                assert forall|i: int| 0 <= i < now_free.len() implies (#[trigger] now_free[i])
                    < self.textures@.len() + now_free.len() by {
                    if i < free.len() {
                        assert(now_free[i] == free[i]);
                    }
                }
                assert forall|i: int| 0 <= i < now_free.len() implies (#[trigger] now_free[i])
                    <= u32::MAX by {
                    if i < free.len() {
                        assert(now_free[i] == free[i]);
                    }
                }
            }
        }
        r
    }

    /// Removes every texture, and asks the host to do the same. The ids
    /// are handed out from 0 again.
    pub fn clear_textures(&mut self)
        ensures
            final(self).textures@ == Map::<TextureId, Texture>::empty(),
            set_items(final(self).available_texture_ids) == Seq::<usize>::empty(),
            final(self).input_state@ == (InputView {
                output_events: old(self).input_state@.output_events.push(OutputEvent::ClearTexture),
                ..old(self).input_state@
            }),
            final(self).layout == old(self).layout,
            final(self).force_redraw_per_frame == old(self).force_redraw_per_frame,
            final(self).exit == old(self).exit,
            old(self).layout.wf() && old(self).input_state.wf() ==> final(self).wf(),
    {
        broadcast use vstd::std_specs::hash::group_hash_axioms;

        self.input_state.ask(OutputEvent::ClearTexture);
        self.textures.clear();
        self.available_texture_ids = index_set_new();
    }

    /// The texture `texture_id`, if there is one.
    pub fn get_texture(&self, texture_id: TextureId) -> (r: Option<&Texture>)
        ensures
            r is Some == self.textures@.contains_key(texture_id),
            r is Some ==> *r->0 == self.textures@[texture_id],
    {
        broadcast use vstd::std_specs::hash::group_hash_axioms;

        self.textures.get(&texture_id)
    }
}

impl<S: Signal, W: Widget<Signal = S>> Context<S, W> {
    /// The first step of a frame of events: the input is handed to the
    /// widgets, see [`Layout::handle_events`], and the signals that the
    /// widgets have sent are returned to be handed to the program.
    ///
    /// Of the input nothing is known afterwards but that the signals are
    /// taken out of it: the widgets have had it in their hands.
    pub fn take_signals(&mut self) -> (signals: Vec<SignalWrapper<S>>)
        requires
            old(self).layout.wf(),
        ensures
            final(self).layout.wf(),
            final(self).layout.next_id() == old(self).layout.next_id(),
            final(self).layout.aliases() == old(self).layout.aliases(),
            final(self).layout.alias_names() == old(self).layout.alias_names(),
            old(self).layout@.contains_key(LayoutId(0)) ==> handled(
                old(self).layout@,
                final(self).layout@,
                LayoutId(0),
            ),
            !old(self).layout@.contains_key(LayoutId(0)) ==> final(self).layout@ == old(
                self,
            ).layout@ && signals@ == old(self).input_state@.signals_to_send,
            final(self).input_state@.signals_to_send == Seq::<SignalWrapper<S>>::empty(),
            final(self).textures == old(self).textures,
            final(self).available_texture_ids == old(self).available_texture_ids,
            final(self).force_redraw_per_frame == old(self).force_redraw_per_frame,
            final(self).exit == old(self).exit,
    {
        self.layout.handle_events(LayoutId::root(), &mut self.input_state);
        let mut signals: Vec<SignalWrapper<S>> = Vec::new();
        std::mem::swap(&mut signals, &mut self.input_state.signals_to_send);
        signals
    }

    /// The last step of a frame of events, at the time that the clock
    /// shows: the input goes over into the next frame, see
    /// [`InputView::next_frame`], and where a widget has asked for it,
    /// every widget is made dirty.
    ///
    /// Returns `false`, and changes nothing, where the lists of the input
    /// are not sound: the widgets have had the input in their hands.
    pub fn finish_events(&mut self) -> (done: bool)
        requires
            old(self).layout.wf(),
        ensures
            done == old(self).input_state.wf(),
            final(self).layout.wf(),
            final(self).layout.next_id() == old(self).layout.next_id(),
            final(self).layout.aliases() == old(self).layout.aliases(),
            final(self).layout.alias_names() == old(self).layout.alias_names(),
            final(self).layout@.dom() == old(self).layout@.dom(),
            forall|c: LayoutId| #[trigger]
                old(self).layout@.contains_key(c) ==> final(self).layout@[c] == (NodeView {
                    redraw_request: old(self).layout@[c].redraw_request || (done && old(
                        self,
                    ).input_state.all_dirty),
                    ..old(self).layout@[c]
                }),
            done ==> final(self).input_state.wf() && exists|now: i128|
                is_span(now) && final(self).input_state@ == (InputView {
                    all_dirty: false,
                    ..#[trigger] old(self).input_state@.next_frame(now)
                }),
            !done ==> final(self).input_state == old(self).input_state,
            final(self).textures == old(self).textures,
            final(self).available_texture_ids == old(self).available_texture_ids,
            final(self).force_redraw_per_frame == old(self).force_redraw_per_frame,
            final(self).exit == old(self).exit,
    {
        if !self.input_state.is_sound() {
            return false;
        }
        self.input_state.prepare_for_next_frame();
        if self.input_state.all_dirty {
            self.input_state.all_dirty = false;
            self.layout.make_all_dirty();
        }
        true
    }

    /// What the host is asked to do; the requests are taken out of the input.
    pub fn take_requests(&mut self) -> (requests: Vec<OutputEvent>)
        ensures
            requests@ == old(self).input_state@.output_events,
            final(self).input_state@ == (InputView {
                output_events: Seq::empty(),
                ..old(self).input_state@
            }),
            final(self).input_state.program_start_time == old(self).input_state.program_start_time,
            final(self).layout == old(self).layout,
            final(self).textures == old(self).textures,
            final(self).available_texture_ids == old(self).available_texture_ids,
            final(self).force_redraw_per_frame == old(self).force_redraw_per_frame,
            final(self).exit == old(self).exit,
    {
        let mut requests: Vec<OutputEvent> = Vec::new();
        std::mem::swap(&mut requests, &mut self.input_state.output_events);
        requests
    }

    /// Whether there is anything to draw: the window or a widget has
    /// asked for it, or every frame is drawn anyway.
    pub fn wants_draw(&self) -> (r: bool)
        ensures
            r == (self.input_state.redraw_requested || self.force_redraw_per_frame || exists|
                c: LayoutId,
            | #[trigger]
                self.layout@.contains_key(c) && self.layout@[c].redraw_request),
    {
        self.input_state.redraw_requested || self.layout.any_widget_dirty()
            || self.force_redraw_per_frame
    }

    /// Draws a frame in a window of the size that the input knows, forced
    /// where every frame is drawn anyway: see [`draw_frame`], whose frame
    /// or error is returned. What asked for the frame is answered.
    pub fn draw(&mut self, font_render: &FontRender) -> (r: Result<CompiledFrame, FrameError>)
        requires
            old(self).layout.wf(),
        ensures
            final(self).layout.wf(),
            final(self).layout.next_id() == old(self).layout.next_id(),
            final(self).layout.aliases() == old(self).layout.aliases(),
            final(self).layout.alias_names() == old(self).layout.alias_names(),
            final(self).layout@.dom().subset_of(old(self).layout@.dom()),
            forall|c: LayoutId| #[trigger]
                final(self).layout@.contains_key(c) ==> !final(self).layout@[c].redraw_request,
            final(self).input_state@ == (InputView {
                redraw_requested: false,
                ..old(self).input_state@
            }),
            final(self).input_state.program_start_time == old(self).input_state.program_start_time,
            final(self).textures == old(self).textures,
            final(self).available_texture_ids == old(self).available_texture_ids,
            final(self).force_redraw_per_frame == old(self).force_redraw_per_frame,
            final(self).exit == old(self).exit,
            exists|shapes: Seq<ShapeToDraw>, refresh: Option<Rect>|
                {
                    &&& #[trigger] is_compiled(
                        r,
                        compiled(shapes, refresh, font_render@, old(self).force_redraw_per_frame),
                    )
                    &&& !old(self).force_redraw_per_frame && (forall|c: LayoutId|
                        #[trigger] old(self).layout@.contains_key(c) ==> !old(
                            self,
                        ).layout@[c].redraw_request) && final(self).layout@.dom() == old(
                        self,
                    ).layout@.dom() ==> refresh is None
                    &&& !old(self).force_redraw_per_frame && paintable(
                        old(self).layout@,
                        LayoutId(0),
                    ) ==> refresh is Some
                },
            match r {
                Ok(frame) => {
                    &&& frame.stack_len < STACK_SIZE
                    &&& frame.redraw_rect is None ==> frame.commands@.len() == 0 && frame.stack_len
                        == 0
                    &&& old(self).force_redraw_per_frame ==> frame.redraw_rect == Some(
                        Rect::spec_window(),
                    )
                },
                Err(FrameError::StackOverflow { max, current }) => max == STACK_SIZE && current
                    >= STACK_SIZE,
            },
            !old(self).force_redraw_per_frame && (forall|c: LayoutId|
                #[trigger] old(self).layout@.contains_key(c) ==> !old(self).layout@[c].redraw_request)
                && final(self).layout@.dom() == old(self).layout@.dom() ==> r is Ok
                && r->Ok_0.redraw_rect is None,
            !old(self).force_redraw_per_frame && paintable(old(self).layout@, LayoutId(0)) && r is Ok
                ==> r->Ok_0.redraw_rect is Some,
    {
        self.input_state.redraw_requested = false;
        draw_frame(
            &mut self.layout,
            font_render,
            self.input_state.window_size,
            self.force_redraw_per_frame,
        )
    }
}

} // verus!
