//! Bookkeeping of the NanoVG render backend: the texture registry and the
//! plain records of batched draw calls.

use std::collections::HashMap;
use vstd::prelude::*;

verus! {

broadcast use vstd::std_specs::hash::group_hash_axioms;

/// Metadata for a texture stored in the registry.
#[derive(Debug, Clone, Copy, PartialEq, Eq, Structural)]
pub struct TextureEntry {
    pub width: i32,
    pub height: i32,
    pub tex_type: i32,
    pub flags: i32,
}

/// The kind of draw call batched for flush.
#[derive(Debug, Clone, Copy, PartialEq, Eq, Structural)]
pub enum CallType {
    Fill,
    Stroke,
    Triangles,
}

/// Per-draw blend state (the factors of a NanoVG composite operation).
#[derive(Debug, Clone, Copy, PartialEq, Eq, Structural)]
pub struct BlendState {
    pub src_rgb: i32,
    pub dst_rgb: i32,
    pub src_alpha: i32,
    pub dst_alpha: i32,
}

impl Default for BlendState {
    fn default() -> (b: Self)
        ensures
            b == (BlendState { src_rgb: 0, dst_rgb: 0, src_alpha: 0, dst_alpha: 0 }),
    {
        BlendState { src_rgb: 0, dst_rgb: 0, src_alpha: 0, dst_alpha: 0 }
    }
}

/// Where the vertices of one path of a draw call lie in the vertex buffer.
#[derive(Debug, Clone, Copy, PartialEq, Eq, Structural)]
pub struct PathData {
    pub fill_offset: u32,
    pub fill_count: u32,
    pub stroke_offset: u32,
    pub stroke_count: u32,
}

impl Default for PathData {
    fn default() -> (p: Self)
        ensures
            p == (PathData { fill_offset: 0, fill_count: 0, stroke_offset: 0, stroke_count: 0 }),
    {
        PathData { fill_offset: 0, fill_count: 0, stroke_offset: 0, stroke_count: 0 }
    }
}

/// The textures created through the backend, by image id. Ids are handed
/// out in increasing order starting at 1.
pub struct TextureRegistry {
    pub textures: HashMap<i32, TextureEntry>,
    pub next_texture_id: i32,
}

impl TextureRegistry {
    /// Every registered id was handed out already: it lies in
    /// `1 .. next_texture_id`.
    pub open spec fn well_formed(&self) -> bool {
        &&& self.next_texture_id >= 1
        &&& forall|id: i32| #[trigger] self.textures@.contains_key(id) ==> 1 <= id < self.next_texture_id
    }

    /// An empty registry whose first id is 1.
    pub fn new() -> (r: Self)
        ensures
            r.well_formed(),
            r.textures@ == Map::<i32, TextureEntry>::empty(),
            r.next_texture_id == 1,
    {
        TextureRegistry { textures: HashMap::new(), next_texture_id: 1 }
    }

    /// Register a texture and return its new id.
    pub fn create_texture(&mut self, tex_type: i32, width: i32, height: i32, flags: i32) -> (id: i32)
        requires
            old(self).well_formed(),
            old(self).next_texture_id < i32::MAX,
        ensures
            final(self).well_formed(),
            id == old(self).next_texture_id,
            !old(self).textures@.contains_key(id),
            final(self).textures@ == old(self).textures@.insert(
                id,
                TextureEntry { width, height, tex_type, flags },
            ),
            final(self).next_texture_id == old(self).next_texture_id + 1,
    {
        let id = self.next_texture_id;
        self.next_texture_id = self.next_texture_id + 1;
        self.textures.insert(id, TextureEntry { width, height, tex_type, flags });
        id
    }

    /// Forget texture `image`. Returns whether it was registered.
    pub fn delete_texture(&mut self, image: i32) -> (was_registered: bool)
        requires
            old(self).well_formed(),
        ensures
            final(self).well_formed(),
            was_registered == old(self).textures@.contains_key(image),
            final(self).textures@ == old(self).textures@.remove(image),
            final(self).next_texture_id == old(self).next_texture_id,
    {
        self.textures.remove(&image).is_some()
    }

    /// The width and height of texture `image`, if it is registered.
    pub fn texture_size(&self, image: i32) -> (size: Option<(i32, i32)>)
        ensures
            size == if self.textures@.contains_key(image) {
                Some((self.textures@[image].width, self.textures@[image].height))
            } else {
                None::<(i32, i32)>
            },
    {
        match self.textures.get(&image) {
            Some(entry) => Some((entry.width, entry.height)),
            None => None,
        }
    }
}

/// A texture is sized as it was created until it is deleted; a deleted
/// texture has no size; creating one texture leaves the others as they were.
pub proof fn lemma_registry_read_after_write(
    before: Map<i32, TextureEntry>,
    id: i32,
    entry: TextureEntry,
    other: i32,
)
    requires
        other != id,
    ensures
        before.insert(id, entry).contains_key(id),
        before.insert(id, entry)[id] == entry,
        !before.insert(id, entry).remove(id).contains_key(id),
        before.insert(id, entry).contains_key(other) == before.contains_key(other),
        before.contains_key(other) ==> before.insert(id, entry)[other] == before[other],
        before.remove(id).contains_key(other) == before.contains_key(other),
{
}

} // verus!
