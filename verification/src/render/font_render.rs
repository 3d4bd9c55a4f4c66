//! The table that says where in the font atlas each rasterised glyph
//! lies, and the places of the atlas that are handed out for new glyphs.

use vstd::prelude::*;
use indexmap::IndexSet;
use std::collections::HashMap;
use crate::layout::ordered::{index_set_insert, index_set_new, index_set_pop, set_items};

verus! {

/// The identifier of a font.
pub type FontId = u32;

/// The key under which the glyph of `chr` in font `font_id` is filed.
pub open spec fn glyph_key(chr: char, font_id: FontId) -> u64 {
    (font_id as u64 * 0x1_0000_0000 + chr as u32 as u64) as u64
}

/// Different glyphs are filed under different keys.
pub proof fn lemma_glyph_key_injective(c1: char, f1: FontId, c2: char, f2: FontId)
    requires
        glyph_key(c1, f1) == glyph_key(c2, f2),
    ensures
        c1 == c2,
        f1 == f2,
{
    assert(c1 as u32 == c2 as u32);
}

/// The width and the height of a layer of the font atlas, in pixels.
pub const FONT_TEXTURE_SIZE: u32 = 2048;

/// The width and the height of the picture of a glyph, in pixels.
pub const CHAR_TEXTURE_SIZE: u32 = 64;

/// The number of layers that a new font atlas has.
pub const DEFAULT_FONT_LAYERS: u32 = 4;

/// The glyphs that are resident in the font atlas, each with its slot.
///
/// A glyph that is missing here has not been rasterised yet; a shape that
/// needs it is left out of the frame and drawn once the glyph has arrived.
pub struct FontRender {
    /// The atlas slot of each resident glyph, by [`glyph_key`].
    pub char_texture_map: HashMap<u64, u32>,
    /// The glyph that each slot was handed out for, by its key; `None` for
    /// a slot that was never handed out or belongs to no glyph any more.
    pub slots: Vec<Option<u64>>,
    /// The slots that were given back: they are handed out again, the one
    /// that was given back last first.
    pub empty_positions: IndexSet<usize>,
    /// The number of layers of the atlas.
    pub layers: u32,
}

/// Where in the atlas the picture of a glyph goes.
#[derive(Clone, Copy, Debug, PartialEq, Eq, Structural)]
pub struct GlyphPlace {
    /// The slot of the glyph.
    pub pos_id: u32,
    /// The layer of the atlas.
    pub layer: u32,
    /// The left edge of the picture in the layer.
    pub x: u32,
    /// The top edge of the picture in the layer.
    pub y: u32,
    /// Whether the atlas has to get a layer more first.
    pub extended: bool,
}

/// The font of the glyph that is filed under `key`.
pub open spec fn spec_font_of(key: u64) -> FontId {
    (key / 0x1_0000_0000) as u32
}

/// The font of the glyph that is filed under `key`.
#[verifier::when_used_as_spec(spec_font_of)]
pub fn font_of(key: u64) -> (font_id: FontId)
    ensures
        font_id == spec_font_of(key),
{
    (key / 0x1_0000_0000) as u32
}

/// A glyph is filed under a key of its font.
pub proof fn lemma_font_of_key(chr: char, font_id: FontId)
    ensures
        spec_font_of(glyph_key(chr, font_id)) == font_id,
{
    assert(chr as u32 as u64 <= 0xffff_ffff);
}

/// The layer and the corner of the slot `pos_id`: the slots fill a layer
/// row by row, [`FONT_TEXTURE_SIZE`] / [`CHAR_TEXTURE_SIZE`] to a row and
/// as many rows to a layer.
pub open spec fn spec_place_of(pos_id: u32) -> (u32, u32, u32) {
    (
        (pos_id / 1024) as u32,
        (((pos_id % 1024) % 32) * 64) as u32,
        (((pos_id % 1024) / 32) * 64) as u32,
    )
}

/// The layer and the corner of the slot `pos_id`.
#[verifier::when_used_as_spec(spec_place_of)]
pub fn place_of(pos_id: u32) -> (r: (u32, u32, u32))
    ensures
        r == spec_place_of(pos_id),
        r.1 + CHAR_TEXTURE_SIZE <= FONT_TEXTURE_SIZE,
        r.2 + CHAR_TEXTURE_SIZE <= FONT_TEXTURE_SIZE,
{
    let module: u32 = FONT_TEXTURE_SIZE / CHAR_TEXTURE_SIZE;
    let layer: u32 = pos_id / (module * module);
    let pos: u32 = pos_id % (module * module);
    (layer, pos % module * CHAR_TEXTURE_SIZE, pos / module * CHAR_TEXTURE_SIZE)
}

impl View for FontRender {
    type V = Map<u64, u32>;

    open spec fn view(&self) -> Map<u64, u32> {
        self.char_texture_map@
    }
}

/// The slot of a glyph in a table, if the glyph is resident.
pub open spec fn glyph_slot(glyphs: Map<u64, u32>, chr: char, font_id: FontId) -> Option<u32> {
    if glyphs.contains_key(glyph_key(chr, font_id)) {
        Some(glyphs[glyph_key(chr, font_id)])
    } else {
        None
    }
}

fn key_of(chr: char, font_id: FontId) -> (k: u64)
    ensures
        k == glyph_key(chr, font_id),
{
    font_id as u64 * 0x1_0000_0000 + chr as u32 as u64
}

impl FontRender {
    /// A table without any glyph, for an atlas of [`DEFAULT_FONT_LAYERS`] layers.
    pub fn new() -> (r: FontRender)
        ensures
            r@ == Map::<u64, u32>::empty(),
            r.slots@ == Seq::<Option<u64>>::empty(),
            set_items(r.empty_positions) == Seq::<usize>::empty(),
            r.layers == DEFAULT_FONT_LAYERS,
    {
        FontRender {
            char_texture_map: HashMap::new(),
            slots: Vec::new(),
            empty_positions: index_set_new(),
            layers: DEFAULT_FONT_LAYERS,
        }
    }

    /// Records that the glyph of `chr` in font `font_id` lies in `slot`.
    pub fn insert_char(&mut self, chr: char, font_id: FontId, slot: u32)
        ensures
            final(self)@ == old(self)@.insert(glyph_key(chr, font_id), slot),
            glyph_slot(final(self)@, chr, font_id) == Some(slot),
            final(self).slots == old(self).slots,
            final(self).empty_positions == old(self).empty_positions,
            final(self).layers == old(self).layers,
    {
        broadcast use vstd::std_specs::hash::group_hash_axioms;

        self.char_texture_map.insert(key_of(chr, font_id), slot);
    }

    /// Forgets the glyph of `chr` in font `font_id`.
    pub fn remove_char(&mut self, chr: char, font_id: FontId)
        ensures
            final(self)@ == old(self)@.remove(glyph_key(chr, font_id)),
            glyph_slot(final(self)@, chr, font_id) is None,
            final(self).slots == old(self).slots,
            final(self).empty_positions == old(self).empty_positions,
            final(self).layers == old(self).layers,
    {
        broadcast use vstd::std_specs::hash::group_hash_axioms;

        let key: u64 = key_of(chr, font_id);
        self.char_texture_map.remove(&key);
    }

    /// The slot of the glyph of `chr` in font `font_id`, if it is resident.
    pub fn char_slot(&self, chr: char, font_id: FontId) -> (r: Option<u32>)
        ensures
            r == glyph_slot(self@, chr, font_id),
    {
        broadcast use vstd::std_specs::hash::group_hash_axioms;

        let key: u64 = key_of(chr, font_id);
        match self.char_texture_map.get(&key) {
            Some(slot) => Some(*slot),
            None => None,
        }
    }
}

/// The slots with `len` slots or more: slots that were never handed out
/// come behind the others.
pub open spec fn filled_up(slots: Seq<Option<u64>>, len: int) -> Seq<Option<u64>> {
    if slots.len() >= len {
        slots
    } else {
        slots + Seq::new((len - slots.len()) as nat, |i: int| None::<u64>)
    }
}

/// The slots without the glyph `key`: each slot that was handed out for
/// it belongs to no glyph any more.
pub open spec fn disowned(slots: Seq<Option<u64>>, key: u64) -> Seq<Option<u64>> {
    Seq::new(
        slots.len(),
        |i: int|
            if slots[i] == Some(key) {
                None
            } else {
                slots[i]
            },
    )
}

/// Whether the slot `p` was handed out for a glyph of the font `font_id`.
pub open spec fn of_font(slots: Seq<Option<u64>>, p: int, font_id: FontId) -> bool {
    0 <= p < slots.len() && slots[p] is Some && spec_font_of(slots[p]->0) == font_id
}

/// The keys of the glyphs of the font `font_id` that the first `k` slots
/// were handed out for.
pub open spec fn font_keys(slots: Seq<Option<u64>>, font_id: FontId, k: int) -> Set<u64> {
    Set::new(|key: u64| exists|p: int| 0 <= p < k && of_font(slots, p, font_id) && slots[p] == Some(key))
}

/// The slots without the glyphs of the font `font_id`.
pub open spec fn without_font(slots: Seq<Option<u64>>, font_id: FontId) -> Seq<Option<u64>> {
    Seq::new(
        slots.len(),
        |i: int|
            if of_font(slots, i, font_id) {
                None
            } else {
                slots[i]
            },
    )
}

/// The slots that were given back, and behind them those of the first `k`
/// slots that were handed out for glyphs of the font `font_id`, in their
/// order, as far as they were not given back yet.
pub open spec fn slots_given_back(
    free: Seq<usize>,
    slots: Seq<Option<u64>>,
    font_id: FontId,
    k: int,
) -> Seq<usize>
    decreases k,
{
    if k <= 0 {
        free
    } else {
        let before = slots_given_back(free, slots, font_id, k - 1);
        if of_font(slots, k - 1, font_id) && !before.contains((k - 1) as usize) {
            before.push((k - 1) as usize)
        } else {
            before
        }
    }
}

impl FontRender {
    /// Whether the slots and the glyphs agree: a glyph lies in the slot
    /// that was handed out for it, and a slot was handed out for the glyph
    /// that lies in it.
    pub open spec fn slots_sound(&self) -> bool {
        &&& forall|key: u64| #[trigger]
            self@.contains_key(key) ==> self@[key] < self.slots@.len() && self.slots@[self@[key] as int]
                == Some(key)
        &&& forall|p: int|
            0 <= p < self.slots@.len() && (#[trigger] self.slots@[p]) is Some ==> self@.contains_key(
                self.slots@[p]->0,
            ) && self@[self.slots@[p]->0] == p
    }

    /// The slot that the next glyph gets: the slot that was given back
    /// last, or, where none is left, the number of glyphs.
    pub open spec fn next_slot(&self) -> u32 {
        let free = set_items(self.empty_positions);
        if free.len() > 0 {
            free.last() as u32
        } else {
            self@.len() as u32
        }
    }

    /// Hands out a slot for the glyph of `chr` in font `font_id`, and says
    /// where in the atlas its picture goes.
    ///
    /// The glyph gets the next slot, see [`FontRender::next_slot`]. An
    /// atlas in which the layer of the slot does not exist yet gets one
    /// layer more. A slot that the glyph had before belongs to no glyph
    /// any more, and is not handed out again.
    pub fn add_char(&mut self, font_id: FontId, chr: char) -> (place: GlyphPlace)
        ensures
            place.pos_id == old(self).next_slot(),
            (place.layer, place.x, place.y) == spec_place_of(place.pos_id),
            place.extended == (place.layer >= old(self).layers),
            final(self).layers == if place.extended && old(self).layers < u32::MAX {
                (old(self).layers + 1) as u32
            } else {
                old(self).layers
            },
            final(self)@ == old(self)@.insert(glyph_key(chr, font_id), place.pos_id),
            final(self).slots@ == filled_up(
                disowned(old(self).slots@, glyph_key(chr, font_id)),
                place.pos_id + 1,
            ).update(place.pos_id as int, Some(glyph_key(chr, font_id))),
            set_items(final(self).empty_positions) == if set_items(old(self).empty_positions).len()
                > 0 {
                set_items(old(self).empty_positions).drop_last()
            } else {
                set_items(old(self).empty_positions)
            },
            old(self).slots_sound() && (place.pos_id >= old(self).slots@.len() || old(
                self,
            ).slots@[place.pos_id as int] is None) ==> {
                final(self).slots_sound()
            },
    {
        broadcast use vstd::std_specs::hash::group_hash_axioms;

        let key: u64 = key_of(chr, font_id);
        let pos_id: u32 = match index_set_pop(&mut self.empty_positions) {
            Some(given_back) => #[verifier::truncate]
            (given_back as u32),
            None => #[verifier::truncate]
            (self.char_texture_map.len() as u32),
        };
        let (layer, x, y): (u32, u32, u32) = place_of(pos_id);
        let extended: bool = layer >= self.layers;
        if extended && self.layers < u32::MAX {
            self.layers = self.layers + 1;
        }
        self.disown(key);
        self.fill_up(pos_id as usize);
        self.slots[pos_id as usize] = Some(key);
        self.char_texture_map.insert(key, pos_id);
        GlyphPlace { pos_id, layer, x, y, extended }
    }

    /// Takes every slot away from the glyph `key`.
    fn disown(&mut self, key: u64)
        ensures
            final(self).slots@ == disowned(old(self).slots@, key),
            final(self).char_texture_map == old(self).char_texture_map,
            final(self).empty_positions == old(self).empty_positions,
            final(self).layers == old(self).layers,
    {
        let ghost all = self.slots@;
        let mut k: usize = 0;
        while k < self.slots.len()
            invariant
                self.slots@.len() == all.len(),
                k <= all.len(),
                self.char_texture_map == old(self).char_texture_map,
                self.empty_positions == old(self).empty_positions,
                self.layers == old(self).layers,
                forall|i: int| 0 <= i < k ==> self.slots@[i] == disowned(all, key)[i],
                forall|i: int| k <= i < all.len() ==> self.slots@[i] == all[i],
            decreases all.len() - k,
        {
            let owned: bool = match self.slots[k] {
                Some(owner) => owner == key,
                None => false,
            };
            if owned {
                self.slots[k] = None;
            }
            k = k + 1;
        }
        proof {
            assert(self.slots@ =~= disowned(all, key));
        }
    }

    /// Makes sure that there is a slot `pos`.
    fn fill_up(&mut self, pos: usize)
        ensures
            final(self).slots@ == filled_up(old(self).slots@, pos + 1),
            final(self).char_texture_map == old(self).char_texture_map,
            final(self).empty_positions == old(self).empty_positions,
            final(self).layers == old(self).layers,
    {
        let ghost all = self.slots@;
        while self.slots.len() <= pos
            invariant
                self.char_texture_map == old(self).char_texture_map,
                self.empty_positions == old(self).empty_positions,
                self.layers == old(self).layers,
                all.len() <= self.slots@.len(),
                all.len() <= pos ==> self.slots@.len() <= pos + 1,
                all.len() > pos ==> self.slots@.len() == all.len(),
                forall|i: int| 0 <= i < all.len() ==> self.slots@[i] == all[i],
                forall|i: int| all.len() <= i < self.slots@.len() ==> self.slots@[i] is None,
            decreases pos + 1 - self.slots@.len(),
        {
            self.slots.push(None);
        }
        proof {
            let wanted = filled_up(all, pos + 1);
            assert(self.slots@.len() == wanted.len());
            assert forall|i: int| 0 <= i < wanted.len() implies self.slots@[i] == wanted[i] by {
                if i >= all.len() {
                    assert(self.slots@[i] is None);
                }
            }
            assert(self.slots@ =~= wanted);
        }
    }

    /// Forgets the glyphs of the font `font_id` that slots were handed out
    /// for, and gives their slots back to be handed out again.
    pub fn remove_font(&mut self, font_id: FontId)
        ensures
            final(self)@ == old(self)@.remove_keys(
                font_keys(old(self).slots@, font_id, old(self).slots@.len() as int),
            ),
            final(self).slots@ == without_font(old(self).slots@, font_id),
            set_items(final(self).empty_positions) == slots_given_back(
                set_items(old(self).empty_positions),
                old(self).slots@,
                font_id,
                old(self).slots@.len() as int,
            ),
            final(self).layers == old(self).layers,
            old(self).slots_sound() ==> final(self).slots_sound(),
    {
        broadcast use vstd::std_specs::hash::group_hash_axioms;

        let ghost all = self.slots@;
        let ghost glyphs = self@;
        let ghost free = set_items(self.empty_positions);
        let mut k: usize = 0;
        proof {
            assert(glyphs.remove_keys(font_keys(all, font_id, 0)) =~= glyphs);
        }
        while k < self.slots.len()
            invariant
                self.slots@.len() == all.len(),
                k <= all.len(),
                self.layers == old(self).layers,
                self@ == glyphs.remove_keys(font_keys(all, font_id, k as int)),
                set_items(self.empty_positions) == slots_given_back(free, all, font_id, k as int),
                forall|i: int| 0 <= i < k ==> self.slots@[i] == without_font(all, font_id)[i],
                forall|i: int| k <= i < all.len() ==> self.slots@[i] == all[i],
            decreases all.len() - k,
        {
            let ghost before = self@;
            let owner: Option<u64> = self.slots[k];
            match owner {
                Some(key) => {
                    if font_of(key) == font_id {
                        self.char_texture_map.remove(&key);
                        self.slots[k] = None;
                        index_set_insert(&mut self.empty_positions, k);
                        proof {
                            assert(of_font(all, k as int, font_id));
                            assert(font_keys(all, font_id, k + 1) =~= font_keys(
                                all,
                                font_id,
                                k as int,
                            ).insert(key));
                            assert(self@ =~= glyphs.remove_keys(font_keys(all, font_id, k + 1)));
                        }
                    } else {
                        proof {
                            assert(font_keys(all, font_id, k + 1) =~= font_keys(all, font_id, k as int));
                        }
                    }
                },
                None => {
                    proof {
                        assert(font_keys(all, font_id, k + 1) =~= font_keys(all, font_id, k as int));
                    }
                },
            }
            k = k + 1;
        }
        proof {
            assert(self.slots@ =~= without_font(all, font_id));
            if old(self).slots_sound() {
                let gone = font_keys(all, font_id, all.len() as int);
                assert forall|key: u64| #[trigger] self@.contains_key(key) implies self@[key]
                    < self.slots@.len() && self.slots@[self@[key] as int] == Some(key) by {
                    assert(glyphs.contains_key(key) && !gone.contains(key));
                    let p = glyphs[key] as int;
                    assert(all[p] == Some(key));
                    if of_font(all, p, font_id) {
                        assert(gone.contains(key));
                    }
                }
                assert forall|p: int|
                    0 <= p < self.slots@.len() && (#[trigger] self.slots@[p]) is Some implies self@.contains_key(
                    self.slots@[p]->0,
                ) && self@[self.slots@[p]->0] == p by {
                    let key = all[p]->0;
                    assert(all[p] is Some && !of_font(all, p, font_id));
                    assert(glyphs.contains_key(key) && glyphs[key] == p);
                    if gone.contains(key) {
                        let q = choose|q: int|
                            0 <= q < all.len() && of_font(all, q, font_id) && all[q] == Some(key);
                        assert(glyphs[all[q]->0] == q);
                    }
                }
            }
        }
    }
}

/// Where the slots and the glyphs agree, the glyphs of a font that slots
/// were handed out for are all the glyphs of the font.
pub proof fn lemma_font_removed(table: FontRender, font_id: FontId)
    requires
        table.slots_sound(),
    ensures
        table@.remove_keys(font_keys(table.slots@, font_id, table.slots@.len() as int))
            == table@.remove_keys(
            Set::new(|key: u64| table@.contains_key(key) && spec_font_of(key) == font_id),
        ),
{
    let slots = table.slots@;
    let by_slots = font_keys(slots, font_id, slots.len() as int);
    let by_font = Set::new(|key: u64| table@.contains_key(key) && spec_font_of(key) == font_id);
    assert forall|key: u64| table@.contains_key(key) implies (by_slots.contains(key)
        <==> by_font.contains(key)) by {
        if by_font.contains(key) {
            let p = table@[key] as int;
            assert(slots[p] == Some(key));
            assert(of_font(slots, p, font_id));
        }
    }
    assert(table@.remove_keys(by_slots) =~= table@.remove_keys(by_font));
}

} // verus!
