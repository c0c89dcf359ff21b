//! The sprites loaded for the game, each found again by the ID it was given when it was added
use vstd::prelude::*;

use crate::sprites::SpriteImage;

verus! {

/// Identifies a sprite added to a sprite manager
#[derive(Debug, Clone, Copy, PartialEq, Eq, Hash, Structural)]
pub struct SpriteId(pub usize);

/// Holds the sprites of the game
#[derive(Debug, Clone)]
pub struct SpriteManager {
    sprites: Vec<SpriteImage>,
}

impl View for SpriteManager {
    type V = Seq<SpriteImage>;

    closed spec fn view(&self) -> Seq<SpriteImage> {
        self.sprites@
    }
}

impl SpriteManager {
    /// A manager with no sprites
    pub fn default() -> (r: Self)
        ensures
            r@ == Seq::<SpriteImage>::empty(),
    {
        SpriteManager { sprites: Vec::new() }
    }

    /// Returns the sprite with the given ID
    pub fn get(&self, id: SpriteId) -> (r: &SpriteImage)
        requires
            id.0 < self@.len(),
        ensures
            *r == self@[id.0 as int],
    {
        &self.sprites[id.0]
    }

    /// Adds a sprite and returns the ID by which it can be found again
    pub fn add(&mut self, image: SpriteImage) -> (r: SpriteId)
        requires
            old(self)@.len() < usize::MAX,
        ensures
            final(self)@ == old(self)@.push(image),
            r.0 == old(self)@.len(),
    {
        self.sprites.push(image);
        SpriteId(self.sprites.len() - 1)
    }
}

/// What is added can be found again: after `add` gave `id` for an image, `get` gives that image
/// for `id`, and every sprite added before keeps its ID
pub proof fn lemma_add_then_get(before: SpriteManager, after: SpriteManager, image: SpriteImage, id: SpriteId, earlier: SpriteId)
    requires
        after@ == before@.push(image),
        id.0 == before@.len(),
        earlier.0 < before@.len(),
    ensures
        id.0 < after@.len(),
        after@[id.0 as int] == image,
        earlier.0 < after@.len(),
        after@[earlier.0 as int] == before@[earlier.0 as int],
{
}

} // verus!
