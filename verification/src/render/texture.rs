//! Textures that fills and shapes refer to by their id.

use vstd::prelude::*;
use indexmap::IndexSet;
use crate::layout::ordered::{index_set_insert, index_set_new, index_set_pop, set_items};

verus! {

/// The identifier of a texture.
pub type TextureId = u32;

/// The largest width of a texture.
pub const MAX_TEXTURE_WIDTH: u32 = 2560;

/// The largest height of a texture.
pub const MAX_TEXTURE_HEIGHT: u32 = 2560;

/// Why a texture could not be created or changed.
#[derive(Clone, Copy, Debug, PartialEq, Eq, Structural)]
pub enum CreateTextureError {
    /// The image is larger than a texture may be: its width and height,
    /// then the largest width and height.
    TooLarge(u32, u32, u32, u32),
    /// No further layer of textures can be had.
    ReachedMaxLayers,
    /// The texture that was to be changed does not exist.
    UpdateUnexistingTexture(TextureId),
}

/// A texture that can be drawn.
#[derive(Clone, Copy, Debug, PartialEq, Eq, Structural)]
pub struct Texture {
    /// The identifier of the texture.
    pub texture_id: TextureId,
    /// The width of the texture.
    pub width: u32,
    /// The height of the texture.
    pub height: u32,
    /// Whether the texture was changed during the last frame.
    pub used_in_last_frame: bool,
}

/// Checks the size of an image that is to become a texture.
///
/// Returns the error [`CreateTextureError::TooLarge`] exactly where the
/// image is wider or higher than a texture may be.
pub fn check_texture_size(width: u32, height: u32) -> (r: Result<(), CreateTextureError>)
    ensures
        r is Ok == (width <= MAX_TEXTURE_WIDTH && height <= MAX_TEXTURE_HEIGHT),
        r is Err ==> r == Err::<(), CreateTextureError>(
            CreateTextureError::TooLarge(width, height, MAX_TEXTURE_WIDTH, MAX_TEXTURE_HEIGHT),
        ),
{
    if width > MAX_TEXTURE_WIDTH || height > MAX_TEXTURE_HEIGHT {
        Err(CreateTextureError::TooLarge(width, height, MAX_TEXTURE_WIDTH, MAX_TEXTURE_HEIGHT))
    } else {
        Ok(())
    }
}

/// The number of layers that a new array of textures has.
pub const DEFAULT_TEXTURE_LAYER: u32 = 4;

/// From this many layers on, an array that is full grows by this many
/// layers; a smaller one doubles.
pub const TEXTURE_LAYER_MUL_THRESHOLD: u32 = 32;

/// The most layers that an array of textures can have: the texture `id`
/// lies in the array `id / 256`, in its layer `id % 256`.
pub const MAX_TEXTURE_LAYERS_PER_BUFFER: u32 = 256;

/// The most arrays of textures that there can be.
pub const MAX_TEXTURE_BUFFERS: u32 = 1;

/// An array of textures on the renderer: every layer of it holds one texture.
#[derive(Clone, Copy, Debug, PartialEq, Eq, Structural)]
pub struct TextureArray {
    /// The width of every layer.
    pub width: u32,
    /// The height of every layer.
    pub height: u32,
    /// The number of layers.
    pub len: u32,
}

/// Where the pixels of a texture go.
#[derive(Clone, Copy, Debug, PartialEq, Eq, Structural)]
pub struct Upload {
    /// The texture.
    pub texture_id: TextureId,
    /// The array that the texture lies in.
    pub array_index: u32,
    /// The layer of the array that the texture lies in.
    pub layer_index: u32,
    /// The length of a row of pixels as it is copied: four bytes for
    /// every pixel, filled up to the next multiple of 256.
    pub bytes_per_row: u64,
}

/// What the renderer has to do to take a new texture.
#[derive(Clone, Copy, Debug, PartialEq, Eq, Structural)]
pub struct InsertPlan {
    /// Where the pixels go.
    pub upload: Upload,
    /// Whether the array of the texture has to be created first, with
    /// [`DEFAULT_TEXTURE_LAYER`] layers of the size of the texture.
    pub new_array: bool,
    /// The number of layers that the array has to grow to first, if it has to.
    pub grow_to: Option<u32>,
    /// Whether an array was created or has grown, so that what refers to
    /// the arrays has to be made anew.
    pub changed: bool,
}

/// The textures that the renderer holds, and the arrays that they lie in.
pub struct TexturePool {
    /// The textures, each id once.
    pub textures: Vec<Texture>,
    /// The ids of textures that were removed: they are handed out again,
    /// the one that was removed last first.
    pub available_texture_ids: IndexSet<usize>,
    /// The arrays of textures.
    pub texture_array: Vec<TextureArray>,
}

/// Whether no id occurs twice in the list.
pub open spec fn distinct_textures(s: Seq<Texture>) -> bool {
    forall|i: int, j: int|
        0 <= i < s.len() && 0 <= j < s.len() && i != j ==> (#[trigger] s[i]).texture_id != (
        #[trigger] s[j]).texture_id
}

/// Whether the list holds a texture with the id `id`.
pub open spec fn has_texture(s: Seq<Texture>, id: TextureId) -> bool {
    exists|i: int| 0 <= i < s.len() && (#[trigger] s[i]).texture_id == id
}

/// The place of the texture with the id `id` in a list that holds one.
pub open spec fn texture_place(s: Seq<Texture>, id: TextureId) -> int {
    choose|i: int| 0 <= i < s.len() && (#[trigger] s[i]).texture_id == id
}

/// The list with `texture` in it: in the place of the texture with the
/// same id, or at the end where there was none.
pub open spec fn with_texture(s: Seq<Texture>, texture: Texture) -> Seq<Texture> {
    if has_texture(s, texture.texture_id) {
        s.update(texture_place(s, texture.texture_id), texture)
    } else {
        s.push(texture)
    }
}

/// The list without the texture with the id `id`.
pub open spec fn without_texture(s: Seq<Texture>, id: TextureId) -> Seq<Texture> {
    if has_texture(s, id) {
        s.remove(texture_place(s, id))
    } else {
        s
    }
}

/// The length of a row of `width` pixels as it is copied.
pub open spec fn spec_bytes_per_row(width: u32) -> u64 {
    (((4 * width) / 256 + 1) * 256) as u64
}

/// The number of layers that an array of `len` layers grows to.
pub open spec fn spec_grown(len: u32) -> u32 {
    if len * 2 >= TEXTURE_LAYER_MUL_THRESHOLD {
        if len + TEXTURE_LAYER_MUL_THRESHOLD > u32::MAX {
            u32::MAX
        } else {
            (len + TEXTURE_LAYER_MUL_THRESHOLD) as u32
        }
    } else {
        (len * 2) as u32
    }
}

/// The length of a row of `width` pixels as it is copied.
#[verifier::when_used_as_spec(spec_bytes_per_row)]
pub fn bytes_per_row(width: u32) -> (r: u64)
    ensures
        r == spec_bytes_per_row(width),
{
    ((4 * (width as u64)) / 256 + 1) * 256
}

/// The number of layers that a full array of `len` layers grows to: twice
/// as many, or [`TEXTURE_LAYER_MUL_THRESHOLD`] more once that is less.
#[verifier::when_used_as_spec(spec_grown)]
pub fn grown(len: u32) -> (r: u32)
    ensures
        r == spec_grown(len),
{
    if len as u64 * 2 >= TEXTURE_LAYER_MUL_THRESHOLD as u64 {
        if len > u32::MAX - TEXTURE_LAYER_MUL_THRESHOLD {
            u32::MAX
        } else {
            len + TEXTURE_LAYER_MUL_THRESHOLD
        }
    } else {
        len * 2
    }
}

/// Where the pixels of the texture `id`, `width` pixels wide, go.
pub open spec fn spec_upload_of(id: TextureId, width: u32) -> Upload {
    Upload {
        texture_id: id,
        array_index: id / MAX_TEXTURE_LAYERS_PER_BUFFER,
        layer_index: id % MAX_TEXTURE_LAYERS_PER_BUFFER,
        bytes_per_row: spec_bytes_per_row(width),
    }
}

/// Where the pixels of the texture `id`, `width` pixels wide, go.
#[verifier::when_used_as_spec(spec_upload_of)]
pub fn upload_of(id: TextureId, width: u32) -> (r: Upload)
    ensures
        r == spec_upload_of(id, width),
{
    Upload {
        texture_id: id,
        array_index: id / MAX_TEXTURE_LAYERS_PER_BUFFER,
        layer_index: id % MAX_TEXTURE_LAYERS_PER_BUFFER,
        bytes_per_row: bytes_per_row(width),
    }
}

/// The place of the texture with the id `id`, if the list holds one.
pub fn find_texture(list: &Vec<Texture>, id: TextureId) -> (r: Option<usize>)
    requires
        distinct_textures(list@),
    ensures
        r is Some == has_texture(list@, id),
        r is Some ==> r->0 as int == texture_place(list@, id) && r->0 < list@.len()
            && list@[r->0 as int].texture_id == id,
{
    let mut k: usize = 0;
    while k < list.len()
        invariant
            k <= list@.len(),
            distinct_textures(list@),
            forall|j: int| 0 <= j < k ==> (#[trigger] list@[j]).texture_id != id,
        decreases list@.len() - k,
    {
        if list[k].texture_id == id {
            proof {
                assert(list@[k as int].texture_id == id);
                let p = texture_place(list@, id);
                assert(list@[p].texture_id == id);
            }
            return Some(k);
        }
        k = k + 1;
    }
    None
}

/// Puts `texture` into the list, in the place of the texture with the
/// same id where there is one.
pub fn put_texture(list: &mut Vec<Texture>, texture: Texture)
    requires
        distinct_textures(old(list)@),
    ensures
        final(list)@ == with_texture(old(list)@, texture),
        distinct_textures(final(list)@),
{
    match find_texture(list, texture.texture_id) {
        Some(k) => {
            list[k] = texture;
        },
        None => {
            list.push(texture);
        },
    }
}

impl TexturePool {
    /// Whether no texture occurs twice.
    pub open spec fn wf(&self) -> bool {
        distinct_textures(self.textures@)
    }

    /// Whether no texture occurs twice. The fields of the pool can be
    /// written from anywhere; who has written them can ask here before
    /// calling what asks for a sound pool.
    pub fn is_sound(&self) -> (r: bool)
        ensures
            r == self.wf(),
    {
        let mut i: usize = 0;
        while i < self.textures.len()
            invariant
                i <= self.textures@.len(),
                forall|a: int, b: int|
                    0 <= a < i && 0 <= b < self.textures@.len() && a != b ==> (
                    #[trigger] self.textures@[a]).texture_id != (
                    #[trigger] self.textures@[b]).texture_id,
            decreases self.textures@.len() - i,
        {
            let mut j: usize = 0;
            while j < self.textures.len()
                invariant
                    i < self.textures@.len(),
                    j <= self.textures@.len(),
                    forall|b: int|
                        0 <= b < j && i != b ==> self.textures@[i as int].texture_id != (
                        #[trigger] self.textures@[b]).texture_id,
                decreases self.textures@.len() - j,
            {
                if i != j && self.textures[i].texture_id == self.textures[j].texture_id {
                    return false;
                }
                j = j + 1;
            }
            i = i + 1;
        }
        true
    }

    /// Whether the ids are handed out soundly: with `n` ids in use or
    /// given back, each of them is below `n`, and none is both in use and
    /// given back, or given back twice.
    pub open spec fn ids_sound(&self) -> bool {
        let free = set_items(self.available_texture_ids);
        &&& self.wf()
        &&& free.no_duplicates()
        &&& forall|i: int|
            0 <= i < self.textures@.len() ==> (#[trigger] self.textures@[i]).texture_id
                < self.textures@.len() + free.len()
        &&& forall|i: int| 0 <= i < free.len() ==> (#[trigger] free[i]) < self.textures@.len() + free.len()
        &&& forall|i: int| 0 <= i < free.len() ==> (#[trigger] free[i]) <= u32::MAX
        &&& forall|i: int| 0 <= i < free.len() ==> !has_texture(self.textures@, (#[trigger] free[i]) as u32)
    }

    /// The id that the next texture gets: the id that was given back
    /// last, or, where none is left, the number of textures.
    pub open spec fn next_id(&self) -> TextureId {
        let free = set_items(self.available_texture_ids);
        if free.len() > 0 {
            free.last() as u32
        } else {
            self.textures@.len() as u32
        }
    }

    /// What is left of the ids that were given back once the next id is taken.
    pub open spec fn ids_left(&self) -> Seq<usize> {
        let free = set_items(self.available_texture_ids);
        if free.len() > 0 {
            free.drop_last()
        } else {
            free
        }
    }

    /// What the pool decides for a new texture of the given size.
    ///
    /// - A texture larger than a texture may be is refused.
    /// - The texture gets the next id, see [`TexturePool::next_id`], and
    ///   with it its array and its layer.
    /// - An array that does not exist yet is created, unless there are
    ///   [`MAX_TEXTURE_BUFFERS`] arrays already.
    /// - A texture larger than the layers of its array is refused.
    /// - An array in which the layer does not exist yet grows, see [`grown`].
    pub open spec fn decided(&self, width: u32, height: u32) -> Result<InsertPlan, CreateTextureError> {
        let id = self.next_id();
        let upload = spec_upload_of(id, width);
        let arrays = self.texture_array@;
        if width > MAX_TEXTURE_WIDTH || height > MAX_TEXTURE_HEIGHT {
            Err(CreateTextureError::TooLarge(width, height, MAX_TEXTURE_WIDTH, MAX_TEXTURE_HEIGHT))
        } else if upload.array_index >= arrays.len() && upload.array_index >= MAX_TEXTURE_BUFFERS {
            Err(CreateTextureError::ReachedMaxLayers)
        } else {
            let new_array = upload.array_index >= arrays.len();
            let array = if new_array {
                TextureArray { width, height, len: DEFAULT_TEXTURE_LAYER }
            } else {
                arrays[upload.array_index as int]
            };
            if array.width < width || array.height < height {
                Err(CreateTextureError::TooLarge(width, height, array.width, array.height))
            } else {
                let grows = upload.layer_index >= array.len;
                Ok(
                    InsertPlan {
                        upload,
                        new_array,
                        grow_to: if grows {
                            Some(spec_grown(array.len))
                        } else {
                            None
                        },
                        changed: new_array || grows,
                    },
                )
            }
        }
    }

    /// The arrays after the pool has decided for a new texture of the
    /// given size: an array that is created comes last, and an array that
    /// grows has more layers.
    pub open spec fn arrays_after(&self, width: u32, height: u32) -> Seq<TextureArray> {
        let arrays = self.texture_array@;
        let index = spec_upload_of(self.next_id(), width).array_index;
        match self.decided(width, height) {
            Ok(plan) => {
                let with_new = if plan.new_array {
                    arrays.push(TextureArray { width, height, len: DEFAULT_TEXTURE_LAYER })
                } else {
                    arrays
                };
                match plan.grow_to {
                    Some(len) => with_new.update(
                        index as int,
                        TextureArray { len, ..with_new[index as int] },
                    ),
                    None => with_new,
                }
            },
            Err(_) => arrays,
        }
    }

    /// A pool without textures and arrays.
    pub fn new() -> (pool: TexturePool)
        ensures
            pool.textures@ == Seq::<Texture>::empty(),
            set_items(pool.available_texture_ids) == Seq::<usize>::empty(),
            pool.texture_array@ == Seq::<TextureArray>::empty(),
            pool.ids_sound(),
    {
        TexturePool {
            textures: Vec::new(),
            available_texture_ids: index_set_new(),
            texture_array: Vec::new(),
        }
    }

    /// The texture `texture_id`, if there is one.
    pub fn get_texture(&self, texture_id: TextureId) -> (r: Option<Texture>)
        requires
            self.wf(),
        ensures
            r == if has_texture(self.textures@, texture_id) {
                Some(self.textures@[texture_place(self.textures@, texture_id)])
            } else {
                None
            },
    {
        match find_texture(&self.textures, texture_id) {
            Some(k) => Some(self.textures[k]),
            None => None,
        }
    }

    /// Removes the texture `texture_id`, if there is one, and gives its
    /// id back to be handed out again.
    pub fn remove_texture(&mut self, texture_id: TextureId)
        requires
            old(self).wf(),
        ensures
            final(self).textures@ == without_texture(old(self).textures@, texture_id),
            set_items(final(self).available_texture_ids) == if has_texture(
                old(self).textures@,
                texture_id,
            ) && !set_items(old(self).available_texture_ids).contains(texture_id as usize) {
                set_items(old(self).available_texture_ids).push(texture_id as usize)
            } else {
                set_items(old(self).available_texture_ids)
            },
            final(self).texture_array == old(self).texture_array,
            final(self).wf(),
            old(self).ids_sound() ==> final(self).ids_sound(),
    {
        let ghost before = self.textures@;
        let ghost free = set_items(self.available_texture_ids);
        match find_texture(&self.textures, texture_id) {
            Some(k) => {
                self.textures.remove(k);
                index_set_insert(&mut self.available_texture_ids, texture_id as usize);
                proof {
                    let after = self.textures@;
                    let now_free = set_items(self.available_texture_ids);
                    assert forall|i: int| 0 <= i < after.len() implies (#[trigger] after[i])
                        == before[if i < k {
                        i
                    } else {
                        i + 1
                    }] by {}
                    if old(self).ids_sound() {
                        if free.contains(texture_id as usize) {
                            let i = choose|i: int| 0 <= i < free.len() && free[i] == texture_id as usize;
                            assert(!has_texture(before, free[i] as u32));
                        }
                        assert(now_free == free.push(texture_id as usize));
                        assert(!has_texture(after, texture_id)) by {
                            if has_texture(after, texture_id) {
                                let j = texture_place(after, texture_id);
                                let src = if j < k {
                                    j
                                } else {
                                    j + 1
                                };
                                assert(before[src].texture_id == before[k as int].texture_id);
                            }
                        }
                        assert forall|i: int| 0 <= i < now_free.len() implies !has_texture(
                            after,
                            (#[trigger] now_free[i]) as u32,
                        ) by {
                            if i < free.len() {
                                assert(now_free[i] == free[i]);
                                if has_texture(after, free[i] as u32) {
                                    let j = texture_place(after, free[i] as u32);
                                    let src = if j < k {
                                        j
                                    } else {
                                        j + 1
                                    };
                                    assert(before[src].texture_id == free[i] as u32);
                                    assert(has_texture(before, free[i] as u32));
                                }
                            }
                        }
                        assert forall|i: int| 0 <= i < now_free.len() implies (#[trigger] now_free[i])
                            < after.len() + now_free.len() && now_free[i] <= u32::MAX by {
                            if i < free.len() {
                                assert(now_free[i] == free[i]);
                            } else {
                                assert(before[k as int].texture_id == texture_id);
                            }
                        }
                    }
                }
            },
            None => {},
        }
    }

    /// Removes every texture. The arrays stay, and the ids are handed out
    /// from 0 again.
    pub fn clear(&mut self)
        ensures
            final(self).textures@ == Seq::<Texture>::empty(),
            set_items(final(self).available_texture_ids) == Seq::<usize>::empty(),
            final(self).texture_array == old(self).texture_array,
            final(self).ids_sound(),
    {
        self.textures = Vec::new();
        self.available_texture_ids = index_set_new();
    }

    /// Decides where the new pixels of the texture `texture_id` go, and
    /// notes its new size. A texture that does not exist cannot be changed.
    pub fn update_texture(&mut self, texture_id: TextureId, width: u32, height: u32) -> (r: Result<
        Upload,
        CreateTextureError,
    >)
        requires
            old(self).wf(),
        ensures
            r == if has_texture(old(self).textures@, texture_id) {
                Ok::<Upload, CreateTextureError>(spec_upload_of(texture_id, width))
            } else {
                Err::<Upload, CreateTextureError>(
                    CreateTextureError::UpdateUnexistingTexture(texture_id),
                )
            },
            final(self).textures@ == if r is Ok {
                with_texture(
                    old(self).textures@,
                    Texture { texture_id, width, height, used_in_last_frame: true },
                )
            } else {
                old(self).textures@
            },
            final(self).available_texture_ids == old(self).available_texture_ids,
            final(self).texture_array == old(self).texture_array,
            final(self).wf(),
            old(self).ids_sound() ==> final(self).ids_sound(),
    {
        let ghost before = self.textures@;
        if find_texture(&self.textures, texture_id).is_none() {
            return Err(CreateTextureError::UpdateUnexistingTexture(texture_id));
        }
        put_texture(
            &mut self.textures,
            Texture { texture_id, width, height, used_in_last_frame: true },
        );
        proof {
            let after = self.textures@;
            let p = texture_place(before, texture_id);
            assert(before[p].texture_id == texture_id);
            assert forall|id: TextureId| has_texture(after, id) implies has_texture(before, id) by {
                let j = texture_place(after, id);
                assert(before[j].texture_id == after[j].texture_id);
            }
        }
        Ok(upload_of(texture_id, width))
    }
}

/// The ids that were given back, and behind them the ids of `dropped` in
/// their order, as far as they were not given back yet.
pub open spec fn given_back(free: Seq<usize>, dropped: Seq<Texture>) -> Seq<usize>
    decreases dropped.len(),
{
    if dropped.len() == 0 {
        free
    } else {
        let before = given_back(free, dropped.drop_last());
        let id = dropped.last().texture_id as usize;
        if before.contains(id) {
            before
        } else {
            before.push(id)
        }
    }
}

/// The textures of the list that were used in the last frame.
pub open spec fn used_textures(s: Seq<Texture>) -> Seq<Texture> {
    s.filter(|t: Texture| t.used_in_last_frame)
}

/// The textures of the list that were not used in the last frame.
pub open spec fn unused_textures(s: Seq<Texture>) -> Seq<Texture> {
    s.filter(|t: Texture| !t.used_in_last_frame)
}

impl TexturePool {
    /// Decides how a new texture of the given size is taken in, see
    /// [`TexturePool::decided`], and notes the texture and what becomes of
    /// its array.
    ///
    /// A texture that is larger than a texture may be changes nothing. A
    /// texture that is refused for another reason has used up the id that
    /// was meant for it.
    ///
    /// While the ids are sound and fewer than 2^32 textures are held, the
    /// texture that is taken in gets the id of no other texture.
    pub fn insert_texture(&mut self, width: u32, height: u32) -> (r: Result<
        InsertPlan,
        CreateTextureError,
    >)
        requires
            old(self).wf(),
        ensures
            r == old(self).decided(width, height),
            final(self).textures@ == match r {
                Ok(plan) => with_texture(
                    old(self).textures@,
                    Texture {
                        texture_id: plan.upload.texture_id,
                        width,
                        height,
                        used_in_last_frame: true,
                    },
                ),
                Err(_) => old(self).textures@,
            },
            set_items(final(self).available_texture_ids) == if width > MAX_TEXTURE_WIDTH || height
                > MAX_TEXTURE_HEIGHT {
                set_items(old(self).available_texture_ids)
            } else {
                old(self).ids_left()
            },
            final(self).texture_array@ == old(self).arrays_after(width, height),
            final(self).wf(),
            r is Ok ==> r->Ok_0.upload.texture_id == old(self).next_id(),
            old(self).ids_sound() && r is Ok && old(self).textures@.len() <= u32::MAX ==> {
                &&& final(self).ids_sound()
                &&& !has_texture(old(self).textures@, old(self).next_id())
            },
    {
        let ghost before = self.textures@;
        let ghost free = set_items(self.available_texture_ids);
        let ghost sound = self.ids_sound();
        if width > MAX_TEXTURE_WIDTH || height > MAX_TEXTURE_HEIGHT {
            return Err(
                CreateTextureError::TooLarge(width, height, MAX_TEXTURE_WIDTH, MAX_TEXTURE_HEIGHT),
            );
        }
        let id: TextureId = match index_set_pop(&mut self.available_texture_ids) {
            Some(given_back) => #[verifier::truncate]
            (given_back as u32),
            None => #[verifier::truncate]
            (self.textures.len() as u32),
        };
        let upload: Upload = upload_of(id, width);
        let index: usize = upload.array_index as usize;
        let new_array: bool = index >= self.texture_array.len();
        if new_array {
            if upload.array_index >= MAX_TEXTURE_BUFFERS {
                return Err(CreateTextureError::ReachedMaxLayers);
            }
            self.texture_array.push(TextureArray { width, height, len: DEFAULT_TEXTURE_LAYER });
        }
        let array: TextureArray = self.texture_array[index];
        if array.width < width || array.height < height {
            return Err(CreateTextureError::TooLarge(width, height, array.width, array.height));
        }
        let grow_to: Option<u32> = if upload.layer_index >= array.len {
            let len: u32 = grown(array.len);
            self.texture_array[index] = TextureArray { width: array.width, height: array.height, len };
            Some(len)
        } else {
            None
        };
        put_texture(
            &mut self.textures,
            Texture { texture_id: id, width, height, used_in_last_frame: true },
        );
        proof {
            if sound && before.len() <= u32::MAX {
                let after = self.textures@;
                let left = set_items(self.available_texture_ids);
                if free.len() > 0 {
                    assert(free[free.len() - 1] <= u32::MAX);
                    assert(!has_texture(before, free[free.len() - 1] as u32));
                } else {
                    if has_texture(before, id) {
                        let p = texture_place(before, id);
                        assert(before[p].texture_id < before.len() + free.len());
                    }
                }
                assert(!has_texture(before, id));
                assert(after == before.push(Texture { texture_id: id, width, height, used_in_last_frame: true }));
                assert forall|i: int| 0 <= i < left.len() implies !has_texture(
                    after,
                    (#[trigger] left[i]) as u32,
                ) by {
                    assert(left[i] == free[i]);
                    assert(free[i] != free[free.len() - 1]);
                    if has_texture(after, left[i] as u32) {
                        let j = texture_place(after, left[i] as u32);
                        if j < before.len() {
                            assert(before[j].texture_id == left[i] as u32);
                            assert(has_texture(before, free[i] as u32));
                        }
                    }
                }
                assert forall|i: int| 0 <= i < left.len() implies (#[trigger] left[i]) < after.len()
                    + left.len() && left[i] <= u32::MAX by {
                    assert(left[i] == free[i]);
                }
                assert forall|i: int| 0 <= i < after.len() implies (#[trigger] after[i]).texture_id
                    < after.len() + left.len() by {
                    if i < before.len() {
                        assert(after[i] == before[i]);
                    }
                }
            }
        }
        Ok(InsertPlan { upload, new_array, grow_to, changed: new_array || grow_to.is_some() })
    }

    /// Forgets the textures that were not used in the last frame, and
    /// gives their ids back to be handed out again.
    pub fn cleanup(&mut self)
        requires
            old(self).wf(),
        ensures
            final(self).textures@ == used_textures(old(self).textures@),
            set_items(final(self).available_texture_ids) == given_back(
                set_items(old(self).available_texture_ids),
                unused_textures(old(self).textures@),
            ),
            final(self).texture_array == old(self).texture_array,
            final(self).wf(),
            old(self).ids_sound() ==> final(self).ids_sound(),
    {
        let ghost all = self.textures@;
        let ghost free = set_items(self.available_texture_ids);
        let ghost sound = self.ids_sound();
        let ghost used = |t: Texture| t.used_in_last_frame;
        let ghost unused = |t: Texture| !t.used_in_last_frame;
        let mut kept: Vec<Texture> = Vec::new();
        let mut k: usize = 0;
        proof {
            reveal(Seq::filter);
            assert(all.take(0) =~= Seq::<Texture>::empty());
            if sound {
                assert forall|i: int, j: int| 0 <= i < free.len() && 0 <= j < all.len() implies (
                #[trigger] free[i]) as u32 != (#[trigger] all[j]).texture_id by {
                    assert(!has_texture(all, free[i] as u32));
                }
            }
        }
        while k < self.textures.len()
            invariant
                all == self.textures@,
                free == set_items(old(self).available_texture_ids),
                sound == old(self).ids_sound(),
                self.texture_array == old(self).texture_array,
                k <= all.len(),
                used == |t: Texture| t.used_in_last_frame,
                unused == |t: Texture| !t.used_in_last_frame,
                kept@ == all.take(k as int).filter(used),
                set_items(self.available_texture_ids) == given_back(
                    free,
                    all.take(k as int).filter(unused),
                ),
                distinct_textures(all),
                sound ==> cleaning(all, free, kept@, set_items(self.available_texture_ids), k as int),
            decreases all.len() - k,
        {
            let texture: Texture = self.textures[k];
            let ghost given = set_items(self.available_texture_ids);
            let ghost held = kept@;
            proof {
                reveal(Seq::filter);
                assert(all.take(k + 1).drop_last() =~= all.take(k as int));
                assert(all.take(k + 1).last() == all[k as int]);
            }
            if texture.used_in_last_frame {
                kept.push(texture);
            } else {
                index_set_insert(&mut self.available_texture_ids, texture.texture_id as usize);
                proof {
                    let dropped = all.take(k + 1).filter(unused);
                    assert(dropped.drop_last() =~= all.take(k as int).filter(unused));
                    assert(dropped.last() == texture);
                }
            }
            proof {
                if sound {
                    lemma_cleaning_step(
                        all,
                        free,
                        held,
                        given,
                        kept@,
                        set_items(self.available_texture_ids),
                        k as int,
                    );
                }
            }
            k = k + 1;
        }
        proof {
            assert(all.take(all.len() as int) =~= all);
            lemma_filter_textures(all, used);
            if sound {
                let given = set_items(self.available_texture_ids);
                assert forall|i: int| 0 <= i < kept@.len() implies (#[trigger] kept@[i]).texture_id
                    < kept@.len() + given.len() by {
                    let j = choose|j: int| 0 <= j < all.len() && all[j] == kept@[i];
                    assert(all[j].texture_id < all.len() + free.len());
                }
                assert forall|i: int| 0 <= i < given.len() implies !has_texture(
                    kept@,
                    (#[trigger] given[i]) as u32,
                ) by {
                    if has_texture(kept@, given[i] as u32) {
                        let j = texture_place(kept@, given[i] as u32);
                        assert(given[i] as u32 != kept@[j].texture_id);
                    }
                }
            }
        }
        self.textures = kept;
    }
}

/// Whether the ids are sound while the list `all` is cleaned up, the
/// first `k` textures of it done: `kept` holds what was kept of them and
/// `given` the ids that are given back by now.
pub open spec fn cleaning(
    all: Seq<Texture>,
    free: Seq<usize>,
    kept: Seq<Texture>,
    given: Seq<usize>,
    k: int,
) -> bool {
    &&& 0 <= k <= all.len()
    &&& kept.len() <= k
    &&& given.no_duplicates()
    &&& given.len() == free.len() + k - kept.len()
    &&& forall|i: int| 0 <= i < all.len() ==> (#[trigger] all[i]).texture_id < all.len() + free.len()
    &&& forall|i: int| 0 <= i < kept.len() ==> exists|j: int| 0 <= j < k && all[j] == #[trigger] kept[i]
    &&& forall|i: int|
        0 <= i < given.len() ==> (#[trigger] given[i]) < all.len() + free.len() && given[i] <= u32::MAX
    &&& forall|i: int, j: int|
        0 <= i < given.len() && k <= j < all.len() ==> (#[trigger] given[i]) as u32 != (
        #[trigger] all[j]).texture_id
    &&& forall|i: int, j: int|
        0 <= i < given.len() && 0 <= j < kept.len() ==> (#[trigger] given[i]) as u32 != (
        #[trigger] kept[j]).texture_id
}

/// The ids stay sound when the next texture is kept, or is dropped and
/// its id given back.
pub proof fn lemma_cleaning_step(
    all: Seq<Texture>,
    free: Seq<usize>,
    kept: Seq<Texture>,
    given: Seq<usize>,
    kept_after: Seq<Texture>,
    given_after: Seq<usize>,
    k: int,
)
    requires
        distinct_textures(all),
        cleaning(all, free, kept, given, k),
        k < all.len(),
        given_after.no_duplicates(),
        all[k].used_in_last_frame ==> kept_after == kept.push(all[k]) && given_after == given,
        !all[k].used_in_last_frame ==> kept_after == kept && given_after == if given.contains(
            all[k].texture_id as usize,
        ) {
            given
        } else {
            given.push(all[k].texture_id as usize)
        },
    ensures
        cleaning(all, free, kept_after, given_after, k + 1),
{
    let t = all[k];
    let id = t.texture_id as usize;
    assert forall|i: int| 0 <= i < given.len() implies given[i] != id by {
        assert((#[trigger] given[i]) as u32 != all[k].texture_id);
    }
    assert(!given.contains(id));
    assert forall|i: int| 0 <= i < kept_after.len() implies exists|j: int|
        0 <= j < k + 1 && all[j] == #[trigger] kept_after[i] by {
        if i < kept.len() {
            let j = choose|j: int| 0 <= j < k && all[j] == kept[i];
            assert(all[j] == kept_after[i]);
        } else {
            assert(all[k] == kept_after[i]);
        }
    }
    assert forall|i: int, j: int|
        0 <= i < given_after.len() && 0 <= j < kept_after.len() implies (
    #[trigger] given_after[i]) as u32 != (#[trigger] kept_after[j]).texture_id by {
        if i < given.len() {
            if j < kept.len() {
                assert(given[i] as u32 != kept[j].texture_id);
            } else {
                assert(given[i] as u32 != all[k].texture_id);
            }
        } else {
            let src = choose|src: int| 0 <= src < k && all[src] == kept[j];
            assert(all[src].texture_id != all[k].texture_id);
        }
    }
    assert forall|i: int, j: int|
        0 <= i < given_after.len() && k + 1 <= j < all.len() implies (#[trigger] given_after[i]) as u32
        != (#[trigger] all[j]).texture_id by {
        if i < given.len() {
            assert(given[i] as u32 != all[j].texture_id);
        } else {
            assert(all[j].texture_id != all[k].texture_id);
        }
    }
    assert forall|i: int| 0 <= i < given_after.len() implies (#[trigger] given_after[i]) < all.len()
        + free.len() && given_after[i] <= u32::MAX by {
        if i < given.len() {
            assert(given_after[i] == given[i]);
        } else {
            assert(all[k].texture_id < all.len() + free.len());
        }
    }
}

/// What a filter keeps of textures with distinct ids has distinct ids.
pub proof fn lemma_filter_textures(s: Seq<Texture>, pass: spec_fn(Texture) -> bool)
    requires
        distinct_textures(s),
    ensures
        distinct_textures(s.filter(pass)),
        forall|i: int| 0 <= i < s.filter(pass).len() ==> s.contains(#[trigger] s.filter(pass)[i]),
    decreases s.len(),
{
    reveal(Seq::filter);
    let kept = s.filter(pass);
    if s.len() > 0 {
        let front = s.drop_last();
        let before = front.filter(pass);
        assert(distinct_textures(front));
        lemma_filter_textures(front, pass);
        assert forall|i: int| 0 <= i < kept.len() implies s.contains(#[trigger] kept[i]) by {
            if i < before.len() {
                assert(front.contains(before[i]));
                let j = choose|j: int| 0 <= j < front.len() && front[j] == before[i];
                assert(s[j] == kept[i]);
            } else {
                assert(kept[i] == s[s.len() - 1]);
            }
        }
        assert forall|i: int, j: int|
            0 <= i < kept.len() && 0 <= j < kept.len() && i != j implies (
        #[trigger] kept[i]).texture_id != (#[trigger] kept[j]).texture_id by {
            if i < before.len() && j < before.len() {
            } else {
                let inner = if i < before.len() {
                    i
                } else {
                    j
                };
                assert(front.contains(before[inner]));
                let k = choose|k: int| 0 <= k < front.len() && front[k] == before[inner];
                assert(s[k] == before[inner]);
                assert(s[s.len() - 1].texture_id != s[k].texture_id);
            }
        }
    }
}

} // verus!
