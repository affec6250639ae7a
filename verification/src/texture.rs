//! Images for walls and sprites, kept under a closed set of keys.

use vstd::prelude::*;
use crate::framebuffer::Color;

verus! {

/// An image: `width` by `height` colours, row by row from the top.
pub struct Image {
    pub width: i32,
    pub height: i32,
    pub data: Vec<Color>,
}

impl Image {
    /// The invariant: at least one pixel, and one colour per pixel.
    pub open spec fn wf(&self) -> bool {
        &&& 0 < self.width
        &&& 0 < self.height
        &&& self.data@.len() == self.width * self.height
    }

    /// The colour of texel `(tx, ty)`.
    pub open spec fn texel(&self, tx: int, ty: int) -> Color {
        self.data@[ty * self.width + tx]
    }
}

/// The images that the game knows.
#[derive(Clone, Copy, Debug, PartialEq, Eq, Structural)]
pub enum TextureKey {
    Caja2,
    Caja3,
    Caja4,
    Caja5,
    Tuveria1,
    Tuveria2,
    Enemy,
    Chest,
    Player,
    Worker,
}

/// The number of keys.
pub const KEY_COUNT: usize = 10;

/// The place of a key's image among the images.
pub open spec fn slot_of(key: TextureKey) -> int {
    match key {
        TextureKey::Caja2 => 0,
        TextureKey::Caja3 => 1,
        TextureKey::Caja4 => 2,
        TextureKey::Caja5 => 3,
        TextureKey::Tuveria1 => 4,
        TextureKey::Tuveria2 => 5,
        TextureKey::Enemy => 6,
        TextureKey::Chest => 7,
        TextureKey::Player => 8,
        TextureKey::Worker => 9,
    }
}

/// The place of a key's image among the images.
pub fn slot(key: TextureKey) -> (i: usize)
    ensures
        i == slot_of(key),
        i < KEY_COUNT,
{
    match key {
        TextureKey::Caja2 => 0,
        TextureKey::Caja3 => 1,
        TextureKey::Caja4 => 2,
        TextureKey::Caja5 => 3,
        TextureKey::Tuveria1 => 4,
        TextureKey::Tuveria2 => 5,
        TextureKey::Enemy => 6,
        TextureKey::Chest => 7,
        TextureKey::Player => 8,
        TextureKey::Worker => 9,
    }
}

/// The images that were loaded, one place for each key.
pub struct TextureManager {
    pub images: Vec<Option<Image>>,
}

impl TextureManager {
    /// The invariant: one place for each key, and every image in a place is
    /// well formed.
    pub open spec fn wf(&self) -> bool {
        &&& self.images@.len() == KEY_COUNT
        &&& forall|i: int|
            0 <= i < KEY_COUNT ==> ((#[trigger] self.images@[i]) matches Some(img) ==> img.wf())
    }

    /// The image under `key`, if one was loaded.
    pub open spec fn image(&self, key: TextureKey) -> Option<Image> {
        self.images@[slot_of(key)]
    }

    /// A manager without images.
    pub fn new() -> (m: Self)
        ensures
            m.wf(),
            forall|key: TextureKey| m.image(key) is None,
    {
        let mut images: Vec<Option<Image>> = Vec::new();
        let mut i: usize = 0;
        while i < KEY_COUNT
            invariant
                i <= KEY_COUNT,
                images@.len() == i,
                forall|j: int| 0 <= j < i ==> images@[j] is None,
            decreases KEY_COUNT - i,
        {
            images.push(None);
            i = i + 1;
        }
        TextureManager { images }
    }

    /// Puts `image` under `key`, in place of what was there.
    pub fn insert(&mut self, key: TextureKey, image: Image)
        requires
            old(self).wf(),
            image.wf(),
        ensures
            final(self).wf(),
            final(self).image(key) == Some(image),
            forall|other: TextureKey| other != key ==> final(self).image(other) == old(self).image(other),
    {
        let i: usize = slot(key);
        self.images[i] = Some(image);
    }

    /// The image under `key`, or `None` where none was loaded.
    pub fn get(&self, key: TextureKey) -> (r: Option<&Image>)
        requires
            self.wf(),
        ensures
            r is Some <==> self.image(key) is Some,
            r matches Some(img) ==> self.image(key) == Some(*img) && img.wf(),
    {
        self.images[slot(key)].as_ref()
    }
}

} // verus!
