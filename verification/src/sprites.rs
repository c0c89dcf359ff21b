//! The sprites of the map: which image of the dungeon spritesheet each kind of tile shows

use vstd::prelude::*;

use rand::rngs::StdRng;

use crate::geometry::{MAX_POSITION, MIN_POSITION, Point, Rect};
use crate::random::{gen_range, thread_gen_range};
use crate::tile::{Door, StairsDirection};

verus! {

/// Identifies a texture (a loaded spritesheet image)
#[derive(Debug, Clone, Copy, PartialEq, Eq, Hash, Structural)]
pub struct TextureId(pub usize);

/// Defines how a sprite is aligned (or "anchored") relative to its destination rectangle
#[derive(Debug, Clone, Copy, PartialEq, Eq, Hash, Structural)]
pub enum Anchor {
    /// Sprite is horizontally centered and its top side is aligned with the top side of the
    /// destination rectangle
    N,
    /// The top right corner of the sprite is aligned with the top right corner of the destination
    /// rectangle
    NE,
    /// Sprite is vertically centered and its right side is aligned with the right side of the
    /// destination rectangle
    E,
    /// The bottom right corner of the sprite is aligned with the bottom right corner of the
    /// destination rectangle
    SE,
    /// Sprite is horizontally centered and its bottom side is aligned with the bottom of the
    /// destination rectangle
    S,
    /// The bottom left corner of the sprite is aligned with the bottom left corner of the
    /// destination rectangle
    SW,
    /// Sprite is vertically centered and its left side is aligned with the left side of the
    /// destination rectangle
    W,
    /// The top left corner of the sprite is aligned with the top left corner of the destination
    /// rectangle
    NW,
    /// The center of the sprite is aligned with the center of the destination rectangle
    Center,
}

/// An image/texture that will be renderered
#[derive(Debug, Clone, Copy, PartialEq, Eq, Structural)]
pub struct SpriteImage {
    /// The spritesheet to pull the image from
    pub texture_id: TextureId,
    /// The region of the spritesheet to use, unrelated to the actual bounding box
    pub region: Rect,
    /// Whether to flip the sprite along the horizontal axis
    pub flip_horizontal: bool,
    /// Whether to flip the sprite along the vertical axis
    pub flip_vertical: bool,
    /// The position within the region at which this sprite is anchored
    pub anchor: Anchor,
    /// An additional amount to offset the destination rectangle
    pub dest_offset: Point,
}

impl SpriteImage {
    pub open spec fn spec_new_unflipped(texture_id: TextureId, region: Rect) -> SpriteImage {
        SpriteImage {
            texture_id,
            region,
            flip_horizontal: false,
            flip_vertical: false,
            anchor: Anchor::Center,
            dest_offset: Point { x: 0, y: 0 },
        }
    }

    pub open spec fn spec_anchor(self, anchor: Anchor) -> SpriteImage {
        SpriteImage { anchor, ..self }
    }

    pub open spec fn spec_flip_horizontally(self) -> SpriteImage {
        SpriteImage { flip_horizontal: !self.flip_horizontal, ..self }
    }

    /// The top left corner at which the sprite is placed within `dest`, given its anchor
    pub open spec fn anchored_top_left(self, dest: Rect) -> Point {
        let width = self.region.w as int;
        let height = self.region.h as int;
        let center = dest.spec_center();
        match self.anchor {
            Anchor::N => Point::spec_new(center.x as int, dest.y as int).spec_offset(-(width / 2), 0),
            Anchor::NE => Point::spec_new(dest.spec_right(), dest.y as int).spec_offset(-width, 0),
            Anchor::E => Point::spec_new(dest.spec_right(), center.y as int).spec_offset(-width, -(height / 2)),
            Anchor::SE => Point::spec_new(dest.spec_right(), dest.spec_bottom()).spec_offset(-width, -height),
            Anchor::S => Point::spec_new(center.x as int, dest.spec_bottom()).spec_offset(-(width / 2), -height),
            Anchor::SW => Point::spec_new(dest.x as int, dest.spec_bottom()).spec_offset(0, -height),
            Anchor::W => Point::spec_new(dest.x as int, center.y as int).spec_offset(0, -(height / 2)),
            Anchor::NW => Point::spec_new(dest.x as int, dest.y as int),
            Anchor::Center => center.spec_offset(-(width / 2), -(height / 2)),
        }
    }

    pub open spec fn spec_apply_anchor(self, dest: Rect) -> Rect {
        let tl = self.anchored_top_left(dest);
        Rect::spec_new(tl.x as int, tl.y as int, self.region.w as int, self.region.h as int)
    }

    /// Creates a new SpriteImage that is not flipped either horizontally or vertically
    pub fn new_unflipped(texture_id: TextureId, region: Rect) -> (r: Self)
        ensures
            r == SpriteImage::spec_new_unflipped(texture_id, region),
    {
        SpriteImage {
            texture_id,
            region,
            flip_horizontal: false,
            flip_vertical: false,
            anchor: Anchor::Center,
            dest_offset: Point::new(0, 0),
        }
    }

    /// Returns this sprite image flipped horizontally
    pub fn flip_horizontally(self) -> (r: Self)
        ensures
            r == self.spec_flip_horizontally(),
    {
        SpriteImage { flip_horizontal: !self.flip_horizontal, ..self }
    }

    /// Returns this sprite image flipped vertically
    pub fn flip_vertically(self) -> (r: Self)
        ensures
            r == (SpriteImage { flip_vertical: !self.flip_vertical, ..self }),
    {
        SpriteImage { flip_vertical: !self.flip_vertical, ..self }
    }

    /// Returns this sprite image anchored from its west side
    pub fn anchor_west(self) -> (r: Self)
        ensures
            r == self.spec_anchor(Anchor::W),
    {
        SpriteImage { anchor: Anchor::W, ..self }
    }

    /// Returns this sprite image anchored from its south side
    pub fn anchor_south(self) -> (r: Self)
        ensures
            r == self.spec_anchor(Anchor::S),
    {
        SpriteImage { anchor: Anchor::S, ..self }
    }

    /// Returns this sprite image with the given destination offset
    pub fn dest_offset(self, x: i32, y: i32) -> (r: Self)
        ensures
            r == (SpriteImage { dest_offset: Point::spec_new(x as int, y as int), ..self }),
    {
        SpriteImage { dest_offset: Point::new(x, y), ..self }
    }

    /// Given the rectangle where this sprite may be placed, returns the region where the sprite
    /// should really be placed based on its anchor setting
    pub fn apply_anchor(&self, dest: Rect) -> (r: Rect)
        requires
            self.region.wf(),
            dest.wf(),
        ensures
            r == self.spec_apply_anchor(dest),
    {
        let width = self.region.width() as i32;
        let height = self.region.height() as i32;
        let center = dest.center();

        // Each of these calculations is calculating the anchor point on dest and then offsetting
        // by the width and height of the sprite to get the top left corner of the result rectangle
        let top_left = match self.anchor {
            Anchor::N => Point::new(center.x(), dest.top()).offset(-(width / 2), 0),
            Anchor::NE => dest.top_right().offset(-width, 0),
            Anchor::E => Point::new(dest.right(), center.y()).offset(-width, -(height / 2)),
            Anchor::SE => dest.bottom_right().offset(-width, -height),
            Anchor::S => Point::new(center.x(), dest.bottom()).offset(-(width / 2), -height),
            Anchor::SW => dest.bottom_left().offset(0, -height),
            Anchor::W => Point::new(dest.left(), center.y()).offset(0, -(height / 2)),
            Anchor::NW => dest.top_left(),
            Anchor::Center => center.offset(-(width / 2), -(height / 2)),
        };

        Rect::new(top_left.x(), top_left.y(), width as u32, height as u32)
    }
}

/// Used to decouple SpriteImage from a specific sprite table
#[derive(Debug, Clone, Copy, PartialEq, Eq, Structural)]
pub enum FloorSprite {
    Floor1,
    Floor2,
    Floor3,
    Floor4,
    Floor5,
    Floor6,
    Floor7,
    Floor8,
    Floor9,
    Floor10,
    Floor11,
    Floor12,
}

impl DeepView for FloorSprite {
    type V = FloorSprite;

    open spec fn deep_view(&self) -> FloorSprite {
        *self
    }
}

impl FloorSprite {
    /// The first floor sprite: maps are filled with it before patterns are placed
    pub fn default() -> (r: Self)
        ensures
            r == FloorSprite::Floor1,
    {
        // Strategy: Fill with a default floor tile and then come back and place patterns after
        FloorSprite::Floor1
    }
}

/// The floor patterns, each a non-empty grid of floor sprites with rows of equal length
pub open spec fn spec_floor_patterns() -> Seq<Seq<Seq<FloorSprite>>> {
    seq![
        seq![seq![FloorSprite::Floor1, FloorSprite::Floor2, FloorSprite::Floor3, FloorSprite::Floor1], seq![FloorSprite::Floor5, FloorSprite::Floor6, FloorSprite::Floor7, FloorSprite::Floor8], seq![FloorSprite::Floor9, FloorSprite::Floor10, FloorSprite::Floor11, FloorSprite::Floor12], seq![FloorSprite::Floor1, FloorSprite::Floor5, FloorSprite::Floor8, FloorSprite::Floor1]],
        seq![seq![FloorSprite::Floor5, FloorSprite::Floor8], seq![FloorSprite::Floor9, FloorSprite::Floor12], seq![FloorSprite::Floor5, FloorSprite::Floor8]],
        seq![seq![FloorSprite::Floor1, FloorSprite::Floor5, FloorSprite::Floor8, FloorSprite::Floor1], seq![FloorSprite::Floor1, FloorSprite::Floor2, FloorSprite::Floor3, FloorSprite::Floor1], seq![FloorSprite::Floor5, FloorSprite::Floor6, FloorSprite::Floor6, FloorSprite::Floor8], seq![FloorSprite::Floor1, FloorSprite::Floor9, FloorSprite::Floor12, FloorSprite::Floor1], seq![FloorSprite::Floor1, FloorSprite::Floor5, FloorSprite::Floor8, FloorSprite::Floor1]],
        seq![seq![FloorSprite::Floor5, FloorSprite::Floor8], seq![FloorSprite::Floor9, FloorSprite::Floor12]],
        seq![seq![FloorSprite::Floor5, FloorSprite::Floor8], seq![FloorSprite::Floor2, FloorSprite::Floor3], seq![FloorSprite::Floor5, FloorSprite::Floor8]],
        seq![seq![FloorSprite::Floor1, FloorSprite::Floor2, FloorSprite::Floor3, FloorSprite::Floor1, FloorSprite::Floor1], seq![FloorSprite::Floor5, FloorSprite::Floor6, FloorSprite::Floor6, FloorSprite::Floor8, FloorSprite::Floor1], seq![FloorSprite::Floor9, FloorSprite::Floor10, FloorSprite::Floor11, FloorSprite::Floor12, FloorSprite::Floor1], seq![FloorSprite::Floor5, FloorSprite::Floor7, FloorSprite::Floor6, FloorSprite::Floor6, FloorSprite::Floor8], seq![FloorSprite::Floor9, FloorSprite::Floor12, FloorSprite::Floor9, FloorSprite::Floor12, FloorSprite::Floor1], seq![FloorSprite::Floor1, FloorSprite::Floor5, FloorSprite::Floor8, FloorSprite::Floor1, FloorSprite::Floor1]],
        seq![seq![FloorSprite::Floor1, FloorSprite::Floor9, FloorSprite::Floor1, FloorSprite::Floor1], seq![FloorSprite::Floor5, FloorSprite::Floor6, FloorSprite::Floor8, FloorSprite::Floor1], seq![FloorSprite::Floor1, FloorSprite::Floor2, FloorSprite::Floor3, FloorSprite::Floor1], seq![FloorSprite::Floor5, FloorSprite::Floor7, FloorSprite::Floor6, FloorSprite::Floor8], seq![FloorSprite::Floor9, FloorSprite::Floor10, FloorSprite::Floor11, FloorSprite::Floor12], seq![FloorSprite::Floor1, FloorSprite::Floor5, FloorSprite::Floor8, FloorSprite::Floor1]],
        seq![seq![FloorSprite::Floor1, FloorSprite::Floor9, FloorSprite::Floor1], seq![FloorSprite::Floor5, FloorSprite::Floor7, FloorSprite::Floor8], seq![FloorSprite::Floor1, FloorSprite::Floor9, FloorSprite::Floor1]],
        seq![seq![FloorSprite::Floor1, FloorSprite::Floor9, FloorSprite::Floor1], seq![FloorSprite::Floor5, FloorSprite::Floor6, FloorSprite::Floor8], seq![FloorSprite::Floor1, FloorSprite::Floor9, FloorSprite::Floor12], seq![FloorSprite::Floor1, FloorSprite::Floor5, FloorSprite::Floor8]]
    ]
}

/// These patterns will be placed in a non-overlapping way throughout the tiles on the map
pub fn floor_patterns() -> (r: Vec<Vec<Vec<FloorSprite>>>)
    ensures
        r.deep_view() =~~= spec_floor_patterns(),
{
    let mut patterns: Vec<Vec<Vec<FloorSprite>>> = Vec::new();
    patterns.push(vec![vec![FloorSprite::Floor1, FloorSprite::Floor2, FloorSprite::Floor3, FloorSprite::Floor1], vec![FloorSprite::Floor5, FloorSprite::Floor6, FloorSprite::Floor7, FloorSprite::Floor8], vec![FloorSprite::Floor9, FloorSprite::Floor10, FloorSprite::Floor11, FloorSprite::Floor12], vec![FloorSprite::Floor1, FloorSprite::Floor5, FloorSprite::Floor8, FloorSprite::Floor1]]);
    patterns.push(vec![vec![FloorSprite::Floor5, FloorSprite::Floor8], vec![FloorSprite::Floor9, FloorSprite::Floor12], vec![FloorSprite::Floor5, FloorSprite::Floor8]]);
    patterns.push(vec![vec![FloorSprite::Floor1, FloorSprite::Floor5, FloorSprite::Floor8, FloorSprite::Floor1], vec![FloorSprite::Floor1, FloorSprite::Floor2, FloorSprite::Floor3, FloorSprite::Floor1], vec![FloorSprite::Floor5, FloorSprite::Floor6, FloorSprite::Floor6, FloorSprite::Floor8], vec![FloorSprite::Floor1, FloorSprite::Floor9, FloorSprite::Floor12, FloorSprite::Floor1], vec![FloorSprite::Floor1, FloorSprite::Floor5, FloorSprite::Floor8, FloorSprite::Floor1]]);
    patterns.push(vec![vec![FloorSprite::Floor5, FloorSprite::Floor8], vec![FloorSprite::Floor9, FloorSprite::Floor12]]);
    patterns.push(vec![vec![FloorSprite::Floor5, FloorSprite::Floor8], vec![FloorSprite::Floor2, FloorSprite::Floor3], vec![FloorSprite::Floor5, FloorSprite::Floor8]]);
    patterns.push(vec![vec![FloorSprite::Floor1, FloorSprite::Floor2, FloorSprite::Floor3, FloorSprite::Floor1, FloorSprite::Floor1], vec![FloorSprite::Floor5, FloorSprite::Floor6, FloorSprite::Floor6, FloorSprite::Floor8, FloorSprite::Floor1], vec![FloorSprite::Floor9, FloorSprite::Floor10, FloorSprite::Floor11, FloorSprite::Floor12, FloorSprite::Floor1], vec![FloorSprite::Floor5, FloorSprite::Floor7, FloorSprite::Floor6, FloorSprite::Floor6, FloorSprite::Floor8], vec![FloorSprite::Floor9, FloorSprite::Floor12, FloorSprite::Floor9, FloorSprite::Floor12, FloorSprite::Floor1], vec![FloorSprite::Floor1, FloorSprite::Floor5, FloorSprite::Floor8, FloorSprite::Floor1, FloorSprite::Floor1]]);
    patterns.push(vec![vec![FloorSprite::Floor1, FloorSprite::Floor9, FloorSprite::Floor1, FloorSprite::Floor1], vec![FloorSprite::Floor5, FloorSprite::Floor6, FloorSprite::Floor8, FloorSprite::Floor1], vec![FloorSprite::Floor1, FloorSprite::Floor2, FloorSprite::Floor3, FloorSprite::Floor1], vec![FloorSprite::Floor5, FloorSprite::Floor7, FloorSprite::Floor6, FloorSprite::Floor8], vec![FloorSprite::Floor9, FloorSprite::Floor10, FloorSprite::Floor11, FloorSprite::Floor12], vec![FloorSprite::Floor1, FloorSprite::Floor5, FloorSprite::Floor8, FloorSprite::Floor1]]);
    patterns.push(vec![vec![FloorSprite::Floor1, FloorSprite::Floor9, FloorSprite::Floor1], vec![FloorSprite::Floor5, FloorSprite::Floor7, FloorSprite::Floor8], vec![FloorSprite::Floor1, FloorSprite::Floor9, FloorSprite::Floor1]]);
    patterns.push(vec![vec![FloorSprite::Floor1, FloorSprite::Floor9, FloorSprite::Floor1], vec![FloorSprite::Floor5, FloorSprite::Floor6, FloorSprite::Floor8], vec![FloorSprite::Floor1, FloorSprite::Floor9, FloorSprite::Floor12], vec![FloorSprite::Floor1, FloorSprite::Floor5, FloorSprite::Floor8]]);
    proof {
        assert(patterns.deep_view() =~~= spec_floor_patterns());
    }
    patterns
}

/// Each step of the (lit) torch animation
#[derive(Debug, Clone, Copy, PartialEq, Eq, Structural)]
pub enum TorchSprite {
    Torch1,
    Torch2,
    Torch3,
    Torch4,
}

/// The position of a torch step in the animation cycle
pub open spec fn torch_index(s: TorchSprite) -> int {
    match s {
        TorchSprite::Torch1 => 0,
        TorchSprite::Torch2 => 1,
        TorchSprite::Torch3 => 2,
        TorchSprite::Torch4 => 3,
    }
}

/// The torch step at a position of the animation cycle (taken modulo four)
pub open spec fn torch_at(i: int) -> TorchSprite {
    let k = i % 4;
    if k == 0 { TorchSprite::Torch1 } else if k == 1 { TorchSprite::Torch2 } else if k == 2 { TorchSprite::Torch3 } else { TorchSprite::Torch4 }
}

impl TorchSprite {
    /// Returns the next step in the animation sequence
    pub fn next(self) -> (r: Self)
        ensures
            r == torch_at(torch_index(self) + 1),
    {
        match self {
            TorchSprite::Torch1 => TorchSprite::Torch2,
            TorchSprite::Torch2 => TorchSprite::Torch3,
            TorchSprite::Torch3 => TorchSprite::Torch4,
            TorchSprite::Torch4 => TorchSprite::Torch1,
        }
    }

    /// The torch step for a number below four, in order
    pub fn from_index(i: usize) -> (r: Self)
        requires
            i < 4,
        ensures
            r == torch_at(i as int),
    {
        if i == 0 {
            TorchSprite::Torch1
        } else if i == 1 {
            TorchSprite::Torch2
        } else if i == 2 {
            TorchSprite::Torch3
        } else {
            TorchSprite::Torch4
        }
    }

    /// A uniformly random torch step
    pub fn random() -> Self {
        TorchSprite::from_index(thread_gen_range(0, TORCH_STEPS))
    }
}

/// The number of steps of the torch animation
pub const TORCH_STEPS: usize = 4;

/// The number of frames that each step of the torch animation lasts
pub const TORCH_FRAMES_PER_STEP: usize = 3;

/// Manages the state of the torch animation
#[derive(Debug, Clone, Copy, PartialEq, Eq, Structural)]
pub struct TorchAnimation {
    pub current_step: TorchSprite,
    pub frame_counter: usize,
}

impl TorchAnimation {
    /// The state after `frames` more frames: the counter accumulates frames, every three frames
    /// move the animation one step on, and the leftover frames stay in the counter
    pub open spec fn spec_advance(self, frames: int) -> TorchAnimation {
        let total = self.frame_counter + frames;
        TorchAnimation {
            current_step: torch_at(torch_index(self.current_step) + total / 3),
            frame_counter: (total % 3) as usize,
        }
    }

    /// A torch at a random step of its animation with no frames elapsed (the step does not need
    /// to be deterministic)
    pub fn default() -> (r: Self)
        ensures
            r.frame_counter == 0,
    {
        TorchAnimation { current_step: TorchSprite::random(), frame_counter: 0 }
    }

    pub fn current_step(&self) -> (r: TorchSprite)
        ensures
            r == self.current_step,
    {
        self.current_step
    }

    /// Moves the animation on by the given number of frames
    pub fn advance(&mut self, frames: usize)
        requires
            old(self).frame_counter + frames <= usize::MAX,
        ensures
            *final(self) == old(self).spec_advance(frames as int),
    {
        self.frame_counter = self.frame_counter + frames;

        let frames_per_step = TORCH_FRAMES_PER_STEP;

        let steps_elapsed = self.frame_counter / frames_per_step;
        let ghost start = torch_index(self.current_step);
        let mut k: usize = 0;
        while k < steps_elapsed
            invariant
                k <= steps_elapsed,
                torch_index(self.current_step) == (start + k) % 4,
                0 <= start < 4,
                start == torch_index(old(self).current_step),
                self.frame_counter == old(self).frame_counter + frames,
                steps_elapsed == self.frame_counter / 3,
                frames_per_step == 3,
            decreases steps_elapsed - k,
        {
            self.current_step = self.current_step.next();
            k += 1;
        }
        proof {
            assert(self.current_step == torch_at(start + steps_elapsed));
        }

        // Leftover frames
        self.frame_counter = self.frame_counter % frames_per_step;
    }
}

/// Splitting a count of frames into steps of three: leftover frames carry into the next count
proof fn lemma_carry_frames(total: int, b: int)
    requires
        total >= 0,
        b >= 0,
    ensures
        total / 3 + (total % 3 + b) / 3 == (total + b) / 3,
        (total % 3 + b) % 3 == (total + b) % 3,
{
    let q = total / 3;
    let r = total % 3;
    let q2 = (r + b) / 3;
    let r2 = (r + b) % 3;
    assert(total + b == (q + q2) * 3 + r2) by (nonlinear_arith)
        requires
            total == q * 3 + r,
            r + b == q2 * 3 + r2;
    vstd::arithmetic::div_mod::lemma_fundamental_div_mod_converse(total + b, 3, q + q2, r2);
}

/// Moving along the four-step cycle twice is moving by the sum
proof fn lemma_torch_at_add(i: int, x: int, y: int)
    requires
        0 <= i < 4,
        x >= 0,
        y >= 0,
    ensures
        torch_at(torch_index(torch_at(i + x)) + y) == torch_at(i + x + y),
{
    let k = (i + x) % 4;
    assert(torch_index(torch_at(i + x)) == k);
    let q = (i + x) / 4;
    let q2 = (k + y) / 4;
    let r2 = (k + y) % 4;
    assert(i + x + y == (q + q2) * 4 + r2) by (nonlinear_arith)
        requires
            i + x == q * 4 + k,
            k + y == q2 * 4 + r2;
    vstd::arithmetic::div_mod::lemma_fundamental_div_mod_converse(i + x + y, 4, q + q2, r2);
}

/// Advancing a torch animation by `a` frames and then by `b` frames ends in the same state as
/// advancing it by `a + b` frames at once
pub proof fn lemma_torch_advance_composes(t: TorchAnimation, a: nat, b: nat)
    ensures
        t.spec_advance(a as int).spec_advance(b as int) == t.spec_advance((a + b) as int),
{
    let total = t.frame_counter + a;
    lemma_carry_frames(total, b as int);
    lemma_carry_frames(t.frame_counter as int, (a + b) as int);
    assert(t.frame_counter + (a + b) == total + b);
    let i = torch_index(t.current_step);
    lemma_torch_at_add(i, total / 3, (total % 3 + b) / 3);
}

/// Four steps of the torch animation bring it back to where it started
pub proof fn lemma_torch_cycle(s: TorchSprite)
    ensures
        torch_at(torch_index(s) + 4) == s,
        torch_at(torch_index(s)) == s,
{
}

/// Different alternate wall styles for some of the wall sprites
#[derive(Debug, Clone, Copy, PartialEq, Eq, Structural)]
pub enum WallSpriteAlternate {
    Alt0,
    Alt1,
    Alt2,
    BrickPillar,
    TorchLit,
    EntranceLeft,
    EntranceRight,
}

impl WallSpriteAlternate {
    /// The plain wall style
    pub fn default() -> (r: Self)
        ensures
            r == WallSpriteAlternate::Alt0,
    {
        WallSpriteAlternate::Alt0
    }

    /// One of the three plain styles, chosen at random
    pub fn random(rng: &mut StdRng) -> (r: Self)
        ensures
            r == WallSpriteAlternate::Alt0 || r == WallSpriteAlternate::Alt1 || r == WallSpriteAlternate::Alt2,
    {
        let i = gen_range(rng, 0, 3);
        if i == 0 {
            WallSpriteAlternate::Alt0
        } else if i == 1 {
            WallSpriteAlternate::Alt1
        } else {
            WallSpriteAlternate::Alt2
        }
    }
}

/// Used to decouple SpriteImage from a specific sprite table
#[derive(Debug, Clone, Copy, PartialEq, Eq, Structural)]
pub struct WallSprite {
    /// true if there is another wall tile to the north of this one
    pub wall_north: bool,
    /// true if there is another wall tile to the east of this one
    pub wall_east: bool,
    /// true if there is another wall tile to the south of this one
    pub wall_south: bool,
    /// true if there is another wall tile to the west of this one
    pub wall_west: bool,
    /// the variant of the sprite to use
    pub alt: WallSpriteAlternate,
}

impl WallSprite {
    /// A wall with no adjacent walls and the plain style
    pub fn default() -> (r: Self)
        ensures
            r == (WallSprite {
                wall_north: false,
                wall_east: false,
                wall_south: false,
                wall_west: false,
                alt: WallSpriteAlternate::Alt0,
            }),
    {
        WallSprite {
            wall_north: false,
            wall_east: false,
            wall_south: false,
            wall_west: false,
            alt: WallSpriteAlternate::default(),
        }
    }
}

/// Which way a door is drawn
#[derive(Debug, Clone, Copy, PartialEq, Eq, Structural)]
pub enum HoriVert {
    Horizontal,
    Vertical,
}

/// The sprite of one tile of the spritesheet, `height` tiles tall
pub open spec fn spec_tile_sprite(texture_id: TextureId, tile_size: u32, row: int, col: int, height: int) -> SpriteImage {
    SpriteImage::spec_new_unflipped(
        texture_id,
        Rect::spec_new(col * tile_size, row * tile_size, tile_size as int, height * tile_size),
    )
}

fn tile_sprite(texture_id: TextureId, tile_size: u32, row: u32, col: u32, height: u32) -> (r: SpriteImage)
    requires
        row <= 17,
        col <= 15,
        1 <= height <= 2,
        tile_size * 17 <= i32::MAX,
    ensures
        r == spec_tile_sprite(texture_id, tile_size, row as int, col as int, height as int),
{
    let ts = tile_size as i32;
    proof {
        assert(col * tile_size <= 15 * tile_size) by (nonlinear_arith)
            requires col <= 15;
        assert(row * tile_size <= 17 * tile_size) by (nonlinear_arith)
            requires row <= 17;
        assert(height * tile_size <= 2 * tile_size) by (nonlinear_arith)
            requires height <= 2;
    }
    SpriteImage::new_unflipped(texture_id, Rect::new(col as i32 * ts, row as i32 * ts, tile_size, height * tile_size))
}

/// A lookup table for all map sprites
/// Used to avoid having to manage sprites in each tile
#[derive(Debug, Clone)]
pub struct MapSprites {
    /// Sprite for an empty tile
    pub empty_tile_sprite: SpriteImage,
    /// Sprites for each type of floor tile. Each of these must map to a FloorSprite variant
    pub floor_tiles: Vec<SpriteImage>,
    /// Sprites for each type of wall tile. Each of these must map to a WallSprite variant
    pub wall_tiles: Vec<SpriteImage>,
    /// Sprites for each orientation of staircase
    pub staircase_up_tiles: Vec<SpriteImage>,
    /// Sprites for each orientation of staircase
    pub staircase_down_tiles: Vec<SpriteImage>,
    /// Sprites for each orientation of a door
    pub door_tiles: Vec<SpriteImage>,
    /// Sprites for torch animations
    pub torch_tiles: Vec<SpriteImage>,
}

/// The index of a floor sprite in the table of floor sprites
pub open spec fn floor_sprite_index(s: FloorSprite) -> int {
    match s {
        FloorSprite::Floor1 => 0,
        FloorSprite::Floor2 => 1,
        FloorSprite::Floor3 => 2,
        FloorSprite::Floor4 => 3,
        FloorSprite::Floor5 => 4,
        FloorSprite::Floor6 => 5,
        FloorSprite::Floor7 => 6,
        FloorSprite::Floor8 => 7,
        FloorSprite::Floor9 => 8,
        FloorSprite::Floor10 => 9,
        FloorSprite::Floor11 => 10,
        FloorSprite::Floor12 => 11,
    }
}

/// The index of a wall sprite in the table of wall sprites: the special styles first, then by
/// which neighbours are walls, with alternates for the straight north-south and east-west walls
pub open spec fn wall_sprite_index(s: WallSprite) -> int {
    let n = s.wall_north;
    let e = s.wall_east;
    let so = s.wall_south;
    let w = s.wall_west;
    if s.alt == WallSpriteAlternate::BrickPillar { 20 }
    else if s.alt == WallSpriteAlternate::TorchLit { 21 }
    else if s.alt == WallSpriteAlternate::EntranceLeft { 22 }
    else if s.alt == WallSpriteAlternate::EntranceRight { 23 }
    else if !n && !e && !so && !w { 0 }
    else if n && !e && !so && !w { 12 }
    else if !n && e && !so && !w { 1 }
    else if !n && !e && so && !w { 4 }
    else if !n && !e && !so && w { 3 }
    else if n && e && !so && !w { 9 }
    else if !n && e && so && !w { 5 }
    else if !n && !e && so && w { 6 }
    else if n && !e && !so && w { 10 }
    else if n && !e && so && !w {
        if s.alt == WallSpriteAlternate::Alt0 { 8 } else if s.alt == WallSpriteAlternate::Alt1 { 18 } else { 19 }
    }
    else if !n && e && !so && w {
        if s.alt == WallSpriteAlternate::Alt0 { 2 } else if s.alt == WallSpriteAlternate::Alt1 { 16 } else { 17 }
    }
    else if n && e && so && !w { 15 }
    else if !n && e && so && w { 14 }
    else if n && !e && so && w { 13 }
    else if n && e && !so && w { 11 }
    else { 7 }
}

pub open spec fn torch_sprite_index(s: TorchSprite) -> int {
    torch_index(s)
}

impl MapSprites {
    /// Every table has one sprite per variant it is looked up by
    pub open spec fn wf(&self) -> bool {
        &&& self.floor_tiles@.len() == 12
        &&& self.wall_tiles@.len() == 24
        &&& self.staircase_up_tiles@.len() == 2
        &&& self.staircase_down_tiles@.len() == 2
        &&& self.door_tiles@.len() == 2
        &&& self.torch_tiles@.len() == 4
    }

    /// Every sprite of the table copies a proper region of its spritesheet
    pub open spec fn regions_wf(&self) -> bool {
        &&& self.empty_tile_sprite.region.wf()
        &&& forall|k: int| 0 <= k < self.floor_tiles@.len() ==> (#[trigger] self.floor_tiles@[k]).region.wf()
        &&& forall|k: int| 0 <= k < self.wall_tiles@.len() ==> (#[trigger] self.wall_tiles@[k]).region.wf()
        &&& forall|k: int| 0 <= k < self.staircase_up_tiles@.len() ==> (#[trigger] self.staircase_up_tiles@[k]).region.wf()
        &&& forall|k: int| 0 <= k < self.staircase_down_tiles@.len() ==> (#[trigger] self.staircase_down_tiles@[k]).region.wf()
        &&& forall|k: int| 0 <= k < self.door_tiles@.len() ==> (#[trigger] self.door_tiles@[k]).region.wf()
        &&& forall|k: int| 0 <= k < self.torch_tiles@.len() ==> (#[trigger] self.torch_tiles@[k]).region.wf()
    }

    /// Creates a table of sprites from the standard layout of the dungeon spritesheet
    pub fn from_dungeon_spritesheet(texture_id: TextureId, tile_size: u32) -> (r: Self)
        requires
            tile_size * 17 <= i32::MAX,
        ensures
            r.wf(),
            r.regions_wf(),
            r.empty_tile_sprite == spec_tile_sprite(texture_id, tile_size, 0, 3, 1),
            r.floor_tiles@ == seq![
            spec_tile_sprite(texture_id, tile_size, 0, 0, 1),
            spec_tile_sprite(texture_id, tile_size, 0, 1, 1),
            spec_tile_sprite(texture_id, tile_size, 0, 2, 1),
            spec_tile_sprite(texture_id, tile_size, 0, 3, 1),
            spec_tile_sprite(texture_id, tile_size, 1, 0, 1),
            spec_tile_sprite(texture_id, tile_size, 1, 1, 1),
            spec_tile_sprite(texture_id, tile_size, 1, 2, 1),
            spec_tile_sprite(texture_id, tile_size, 1, 3, 1),
            spec_tile_sprite(texture_id, tile_size, 2, 0, 1),
            spec_tile_sprite(texture_id, tile_size, 2, 1, 1),
            spec_tile_sprite(texture_id, tile_size, 2, 2, 1),
            spec_tile_sprite(texture_id, tile_size, 2, 3, 1)
            ],
            r.wall_tiles@ == seq![
            spec_tile_sprite(texture_id, tile_size, 8, 0, 1),
            spec_tile_sprite(texture_id, tile_size, 8, 1, 1),
            spec_tile_sprite(texture_id, tile_size, 8, 2, 1),
            spec_tile_sprite(texture_id, tile_size, 8, 3, 1),
            spec_tile_sprite(texture_id, tile_size, 9, 0, 1),
            spec_tile_sprite(texture_id, tile_size, 9, 1, 1),
            spec_tile_sprite(texture_id, tile_size, 9, 2, 1),
            spec_tile_sprite(texture_id, tile_size, 9, 3, 1),
            spec_tile_sprite(texture_id, tile_size, 10, 0, 1),
            spec_tile_sprite(texture_id, tile_size, 10, 1, 1),
            spec_tile_sprite(texture_id, tile_size, 10, 2, 1),
            spec_tile_sprite(texture_id, tile_size, 10, 3, 1),
            spec_tile_sprite(texture_id, tile_size, 11, 0, 1),
            spec_tile_sprite(texture_id, tile_size, 11, 1, 1),
            spec_tile_sprite(texture_id, tile_size, 11, 2, 1),
            spec_tile_sprite(texture_id, tile_size, 11, 3, 1),
            spec_tile_sprite(texture_id, tile_size, 8, 4, 1),
            spec_tile_sprite(texture_id, tile_size, 9, 4, 1),
            spec_tile_sprite(texture_id, tile_size, 10, 4, 1),
            spec_tile_sprite(texture_id, tile_size, 11, 4, 1),
            spec_tile_sprite(texture_id, tile_size, 17, 7, 2).spec_anchor(Anchor::S),
            spec_tile_sprite(texture_id, tile_size, 15, 5, 1),
            spec_tile_sprite(texture_id, tile_size, 10, 12, 1),
            spec_tile_sprite(texture_id, tile_size, 10, 13, 1)
            ],
            r.staircase_up_tiles@ == seq![
                spec_tile_sprite(texture_id, tile_size, 15, 8, 2).spec_anchor(Anchor::S).spec_flip_horizontally(),
                spec_tile_sprite(texture_id, tile_size, 15, 8, 2).spec_anchor(Anchor::S)
            ],
            r.staircase_down_tiles@ == seq![
                spec_tile_sprite(texture_id, tile_size, 16, 7, 1),
                spec_tile_sprite(texture_id, tile_size, 16, 7, 1).spec_flip_horizontally()
            ],
            r.door_tiles@ == seq![
                spec_tile_sprite(texture_id, tile_size, 11, 14, 1),
                spec_tile_sprite(texture_id, tile_size, 10, 15, 2).spec_anchor(Anchor::S)
            ],
            r.torch_tiles@ == seq![
                spec_tile_sprite(texture_id, tile_size, 15, 0, 1),
                spec_tile_sprite(texture_id, tile_size, 15, 1, 1),
                spec_tile_sprite(texture_id, tile_size, 15, 2, 1),
                spec_tile_sprite(texture_id, tile_size, 15, 3, 1)
            ],
    {
        let mut floor_tiles: Vec<SpriteImage> = Vec::new();
        floor_tiles.push(tile_sprite(texture_id, tile_size, 0, 0, 1));
        floor_tiles.push(tile_sprite(texture_id, tile_size, 0, 1, 1));
        floor_tiles.push(tile_sprite(texture_id, tile_size, 0, 2, 1));
        floor_tiles.push(tile_sprite(texture_id, tile_size, 0, 3, 1));
        floor_tiles.push(tile_sprite(texture_id, tile_size, 1, 0, 1));
        floor_tiles.push(tile_sprite(texture_id, tile_size, 1, 1, 1));
        floor_tiles.push(tile_sprite(texture_id, tile_size, 1, 2, 1));
        floor_tiles.push(tile_sprite(texture_id, tile_size, 1, 3, 1));
        floor_tiles.push(tile_sprite(texture_id, tile_size, 2, 0, 1));
        floor_tiles.push(tile_sprite(texture_id, tile_size, 2, 1, 1));
        floor_tiles.push(tile_sprite(texture_id, tile_size, 2, 2, 1));
        floor_tiles.push(tile_sprite(texture_id, tile_size, 2, 3, 1));
        let mut wall_tiles: Vec<SpriteImage> = Vec::new();
        wall_tiles.push(tile_sprite(texture_id, tile_size, 8, 0, 1));
        wall_tiles.push(tile_sprite(texture_id, tile_size, 8, 1, 1));
        wall_tiles.push(tile_sprite(texture_id, tile_size, 8, 2, 1));
        wall_tiles.push(tile_sprite(texture_id, tile_size, 8, 3, 1));
        wall_tiles.push(tile_sprite(texture_id, tile_size, 9, 0, 1));
        wall_tiles.push(tile_sprite(texture_id, tile_size, 9, 1, 1));
        wall_tiles.push(tile_sprite(texture_id, tile_size, 9, 2, 1));
        wall_tiles.push(tile_sprite(texture_id, tile_size, 9, 3, 1));
        wall_tiles.push(tile_sprite(texture_id, tile_size, 10, 0, 1));
        wall_tiles.push(tile_sprite(texture_id, tile_size, 10, 1, 1));
        wall_tiles.push(tile_sprite(texture_id, tile_size, 10, 2, 1));
        wall_tiles.push(tile_sprite(texture_id, tile_size, 10, 3, 1));
        wall_tiles.push(tile_sprite(texture_id, tile_size, 11, 0, 1));
        wall_tiles.push(tile_sprite(texture_id, tile_size, 11, 1, 1));
        wall_tiles.push(tile_sprite(texture_id, tile_size, 11, 2, 1));
        wall_tiles.push(tile_sprite(texture_id, tile_size, 11, 3, 1));
        wall_tiles.push(tile_sprite(texture_id, tile_size, 8, 4, 1));
        wall_tiles.push(tile_sprite(texture_id, tile_size, 9, 4, 1));
        wall_tiles.push(tile_sprite(texture_id, tile_size, 10, 4, 1));
        wall_tiles.push(tile_sprite(texture_id, tile_size, 11, 4, 1));
        wall_tiles.push(tile_sprite(texture_id, tile_size, 17, 7, 2).anchor_south());
        wall_tiles.push(tile_sprite(texture_id, tile_size, 15, 5, 1));
        wall_tiles.push(tile_sprite(texture_id, tile_size, 10, 12, 1));
        wall_tiles.push(tile_sprite(texture_id, tile_size, 10, 13, 1));
        let mut staircase_up_tiles: Vec<SpriteImage> = Vec::new();
        // bottom step faces right
        staircase_up_tiles.push(tile_sprite(texture_id, tile_size, 15, 8, 2).anchor_south().flip_horizontally());
        // bottom step faces left
        staircase_up_tiles.push(tile_sprite(texture_id, tile_size, 15, 8, 2).anchor_south());
        let mut staircase_down_tiles: Vec<SpriteImage> = Vec::new();
        // top step faces right
        staircase_down_tiles.push(tile_sprite(texture_id, tile_size, 16, 7, 1));
        // top step faces left
        staircase_down_tiles.push(tile_sprite(texture_id, tile_size, 16, 7, 1).flip_horizontally());
        let mut door_tiles: Vec<SpriteImage> = Vec::new();
        // horizontal door (closed)
        door_tiles.push(tile_sprite(texture_id, tile_size, 11, 14, 1));
        // vertical door (closed)
        door_tiles.push(tile_sprite(texture_id, tile_size, 10, 15, 2).anchor_south());
        let mut torch_tiles: Vec<SpriteImage> = Vec::new();
        torch_tiles.push(tile_sprite(texture_id, tile_size, 15, 0, 1));
        torch_tiles.push(tile_sprite(texture_id, tile_size, 15, 1, 1));
        torch_tiles.push(tile_sprite(texture_id, tile_size, 15, 2, 1));
        torch_tiles.push(tile_sprite(texture_id, tile_size, 15, 3, 1));
        let r = MapSprites {
            empty_tile_sprite: tile_sprite(texture_id, tile_size, 0, 3, 1),
            floor_tiles,
            wall_tiles,
            staircase_up_tiles,
            staircase_down_tiles,
            door_tiles,
            torch_tiles,
        };
        proof {
            assert(r.floor_tiles@ =~= seq![
            spec_tile_sprite(texture_id, tile_size, 0, 0, 1),
            spec_tile_sprite(texture_id, tile_size, 0, 1, 1),
            spec_tile_sprite(texture_id, tile_size, 0, 2, 1),
            spec_tile_sprite(texture_id, tile_size, 0, 3, 1),
            spec_tile_sprite(texture_id, tile_size, 1, 0, 1),
            spec_tile_sprite(texture_id, tile_size, 1, 1, 1),
            spec_tile_sprite(texture_id, tile_size, 1, 2, 1),
            spec_tile_sprite(texture_id, tile_size, 1, 3, 1),
            spec_tile_sprite(texture_id, tile_size, 2, 0, 1),
            spec_tile_sprite(texture_id, tile_size, 2, 1, 1),
            spec_tile_sprite(texture_id, tile_size, 2, 2, 1),
            spec_tile_sprite(texture_id, tile_size, 2, 3, 1)
            ]);
            assert(r.wall_tiles@ =~= seq![
            spec_tile_sprite(texture_id, tile_size, 8, 0, 1),
            spec_tile_sprite(texture_id, tile_size, 8, 1, 1),
            spec_tile_sprite(texture_id, tile_size, 8, 2, 1),
            spec_tile_sprite(texture_id, tile_size, 8, 3, 1),
            spec_tile_sprite(texture_id, tile_size, 9, 0, 1),
            spec_tile_sprite(texture_id, tile_size, 9, 1, 1),
            spec_tile_sprite(texture_id, tile_size, 9, 2, 1),
            spec_tile_sprite(texture_id, tile_size, 9, 3, 1),
            spec_tile_sprite(texture_id, tile_size, 10, 0, 1),
            spec_tile_sprite(texture_id, tile_size, 10, 1, 1),
            spec_tile_sprite(texture_id, tile_size, 10, 2, 1),
            spec_tile_sprite(texture_id, tile_size, 10, 3, 1),
            spec_tile_sprite(texture_id, tile_size, 11, 0, 1),
            spec_tile_sprite(texture_id, tile_size, 11, 1, 1),
            spec_tile_sprite(texture_id, tile_size, 11, 2, 1),
            spec_tile_sprite(texture_id, tile_size, 11, 3, 1),
            spec_tile_sprite(texture_id, tile_size, 8, 4, 1),
            spec_tile_sprite(texture_id, tile_size, 9, 4, 1),
            spec_tile_sprite(texture_id, tile_size, 10, 4, 1),
            spec_tile_sprite(texture_id, tile_size, 11, 4, 1),
            spec_tile_sprite(texture_id, tile_size, 17, 7, 2).spec_anchor(Anchor::S),
            spec_tile_sprite(texture_id, tile_size, 15, 5, 1),
            spec_tile_sprite(texture_id, tile_size, 10, 12, 1),
            spec_tile_sprite(texture_id, tile_size, 10, 13, 1)
            ]);
            assert(r.staircase_up_tiles@ =~= seq![
                spec_tile_sprite(texture_id, tile_size, 15, 8, 2).spec_anchor(Anchor::S).spec_flip_horizontally(),
                spec_tile_sprite(texture_id, tile_size, 15, 8, 2).spec_anchor(Anchor::S)
            ]);
            assert(r.staircase_down_tiles@ =~= seq![
                spec_tile_sprite(texture_id, tile_size, 16, 7, 1),
                spec_tile_sprite(texture_id, tile_size, 16, 7, 1).spec_flip_horizontally()
            ]);
            assert(r.door_tiles@ =~= seq![
                spec_tile_sprite(texture_id, tile_size, 11, 14, 1),
                spec_tile_sprite(texture_id, tile_size, 10, 15, 2).spec_anchor(Anchor::S)
            ]);
            assert(r.torch_tiles@ =~= seq![
                spec_tile_sprite(texture_id, tile_size, 15, 0, 1),
                spec_tile_sprite(texture_id, tile_size, 15, 1, 1),
                spec_tile_sprite(texture_id, tile_size, 15, 2, 1),
                spec_tile_sprite(texture_id, tile_size, 15, 3, 1)
            ]);
        }
        r
    }

    /// The sprite drawn for an empty tile
    pub fn empty_tile_sprite(&self) -> (r: &SpriteImage)
        ensures
            *r == self.empty_tile_sprite,
    {
        &self.empty_tile_sprite
    }

    /// The sprite drawn for the given floor sprite
    pub fn floor_sprite(&self, sprite: FloorSprite) -> (r: &SpriteImage)
        requires
            self.wf(),
        ensures
            *r == self.floor_tiles@[floor_sprite_index(sprite)],
    {
        match sprite {
            FloorSprite::Floor1 => &self.floor_tiles[0],
            FloorSprite::Floor2 => &self.floor_tiles[1],
            FloorSprite::Floor3 => &self.floor_tiles[2],
            FloorSprite::Floor4 => &self.floor_tiles[3],
            FloorSprite::Floor5 => &self.floor_tiles[4],
            FloorSprite::Floor6 => &self.floor_tiles[5],
            FloorSprite::Floor7 => &self.floor_tiles[6],
            FloorSprite::Floor8 => &self.floor_tiles[7],
            FloorSprite::Floor9 => &self.floor_tiles[8],
            FloorSprite::Floor10 => &self.floor_tiles[9],
            FloorSprite::Floor11 => &self.floor_tiles[10],
            FloorSprite::Floor12 => &self.floor_tiles[11],
        }
    }

    /// The sprite drawn for the given wall sprite
    pub fn wall_sprite(&self, sprite: WallSprite) -> (r: &SpriteImage)
        requires
            self.wf(),
        ensures
            *r == self.wall_tiles@[wall_sprite_index(sprite)],
    {
        let n = sprite.wall_north;
        let e = sprite.wall_east;
        let s = sprite.wall_south;
        let w = sprite.wall_west;
        let index: usize = match sprite.alt {
            WallSpriteAlternate::BrickPillar => 20,
            WallSpriteAlternate::TorchLit => 21,
            WallSpriteAlternate::EntranceLeft => 22,
            WallSpriteAlternate::EntranceRight => 23,
            _ => {
                if !n && !e && !s && !w { 0 } // no walls adjacent
                else if n && !e && !s && !w { 12 } // N
                else if !n && e && !s && !w { 1 } // E
                else if !n && !e && s && !w { 4 } // S
                else if !n && !e && !s && w { 3 } // W
                else if n && e && !s && !w { 9 } // NE
                else if !n && e && s && !w { 5 } // SE
                else if !n && !e && s && w { 6 } // SW
                else if n && !e && !s && w { 10 } // NW
                else if n && !e && s && !w {
                    // NS
                    match sprite.alt {
                        WallSpriteAlternate::Alt0 => 8,
                        WallSpriteAlternate::Alt1 => 18,
                        _ => 19,
                    }
                }
                else if !n && e && !s && w {
                    // EW
                    match sprite.alt {
                        WallSpriteAlternate::Alt0 => 2,
                        WallSpriteAlternate::Alt1 => 16,
                        _ => 17,
                    }
                }
                else if n && e && s && !w { 15 } // NES
                else if !n && e && s && w { 14 } // ESW
                else if n && !e && s && w { 13 } // NSW
                else if n && e && !s && w { 11 } // NEW
                else { 7 } // NESW
            },
        };
        &self.wall_tiles[index]
    }

    /// The sprite of a staircase going up, facing the given direction
    pub fn staircase_up_sprite(&self, direction: StairsDirection) -> (r: &SpriteImage)
        requires
            self.wf(),
        ensures
            *r == self.staircase_up_tiles@[if direction == StairsDirection::Right { 0 } else { 1 }],
    {
        match direction {
            StairsDirection::Right => &self.staircase_up_tiles[0],
            StairsDirection::Left => &self.staircase_up_tiles[1],
        }
    }

    /// The sprite of a staircase going down, facing the given direction
    pub fn staircase_down_sprite(&self, direction: StairsDirection) -> (r: &SpriteImage)
        requires
            self.wf(),
        ensures
            *r == self.staircase_down_tiles@[if direction == StairsDirection::Right { 0 } else { 1 }],
    {
        match direction {
            StairsDirection::Right => &self.staircase_down_tiles[0],
            StairsDirection::Left => &self.staircase_down_tiles[1],
        }
    }

    /// The sprite of a door in the given state and orientation; open doors are not drawn
    pub fn door_sprite(&self, state: Door, orientation: HoriVert) -> (r: Option<&SpriteImage>)
        requires
            self.wf(),
        ensures
            state == Door::Open ==> r is None,
            state == Door::Locked ==> r == Some(&self.door_tiles@[if orientation == HoriVert::Horizontal { 0 } else { 1 }]),
    {
        match (state, orientation) {
            (Door::Locked, HoriVert::Horizontal) => Some(&self.door_tiles[0]),
            (Door::Locked, HoriVert::Vertical) => Some(&self.door_tiles[1]),
            // Just hide open doors
            (Door::Open, _) => None,
        }
    }

    /// The sprite of the given step of the torch animation
    pub fn torch_sprite(&self, frame: TorchSprite) -> (r: &SpriteImage)
        requires
            self.wf(),
        ensures
            *r == self.torch_tiles@[torch_sprite_index(frame)],
    {
        match frame {
            TorchSprite::Torch1 => &self.torch_tiles[0],
            TorchSprite::Torch2 => &self.torch_tiles[1],
            TorchSprite::Torch3 => &self.torch_tiles[2],
            TorchSprite::Torch4 => &self.torch_tiles[3],
        }
    }
}


/// Where an anchored sprite lands in its destination: with the destination and the sprite well
/// inside the range of positions, the placed rectangle keeps the sprite's size and
/// - for `N`, `NE`, `NW` its top is the top of the destination, and for `S`, `SE`, `SW` its bottom
///   is the bottom of the destination; for `E`, `W`, `Center` their middles are level
/// - for `W`, `NW`, `SW` its left side is the left side of the destination, and for `E`, `NE`,
///   `SE` its right side is the right side of the destination; for `N`, `S`, `Center` their
///   middles line up
pub proof fn lemma_anchor_placement(sprite: SpriteImage, dest: Rect)
    requires
        sprite.region.wf(),
        dest.wf(),
        MIN_POSITION + sprite.region.w <= dest.x,
        MIN_POSITION + sprite.region.h <= dest.y,
        dest.x + dest.w <= MAX_POSITION,
        dest.y + dest.h <= MAX_POSITION,
    ensures
        ({
            let r = sprite.spec_apply_anchor(dest);
            let w = sprite.region.w as int;
            let h = sprite.region.h as int;
            &&& r.w == sprite.region.w
            &&& r.h == sprite.region.h
            &&& (sprite.anchor == Anchor::N || sprite.anchor == Anchor::NE || sprite.anchor == Anchor::NW) ==> r.y == dest.y
            &&& (sprite.anchor == Anchor::S || sprite.anchor == Anchor::SE || sprite.anchor == Anchor::SW) ==> r.y + h
                == dest.y + dest.h
            &&& (sprite.anchor == Anchor::E || sprite.anchor == Anchor::W || sprite.anchor == Anchor::Center) ==> r.y + h
                / 2 == dest.y + dest.h / 2
            &&& (sprite.anchor == Anchor::W || sprite.anchor == Anchor::NW || sprite.anchor == Anchor::SW) ==> r.x == dest.x
            &&& (sprite.anchor == Anchor::E || sprite.anchor == Anchor::NE || sprite.anchor == Anchor::SE) ==> r.x + w
                == dest.x + dest.w
            &&& (sprite.anchor == Anchor::N || sprite.anchor == Anchor::S || sprite.anchor == Anchor::Center) ==> r.x + w
                / 2 == dest.x + dest.w / 2
        }),
{
}

/// The sprite of the wall table that a wall gets, by its style and the walls next to it: the
/// four special styles have sprites 20 to 23 whatever is next to them, and a wall in one of the
/// plain styles gets, by the walls north, east, south and west of it: none 0, only north 12, only
/// east 1, only south 4, only west 3, north and east 9, east and south 5 (the top left corner of
/// a room), south and west 6 (the top right corner), north and west 10, north and south 8, 18 or
/// 19 and east and west 2, 16 or 17 (by the style), all but west 15, all but north 14, all but
/// east 13, all but south 11, and all four 7
pub proof fn lemma_wall_sprite_table(s: WallSprite)
    ensures
        s.alt == WallSpriteAlternate::BrickPillar ==> wall_sprite_index(s) == 20,
        s.alt == WallSpriteAlternate::TorchLit ==> wall_sprite_index(s) == 21,
        s.alt == WallSpriteAlternate::EntranceLeft ==> wall_sprite_index(s) == 22,
        s.alt == WallSpriteAlternate::EntranceRight ==> wall_sprite_index(s) == 23,
        (s.alt == WallSpriteAlternate::Alt0 || s.alt == WallSpriteAlternate::Alt1 || s.alt == WallSpriteAlternate::Alt2) ==> {
            let (n, e, so, w) = (s.wall_north, s.wall_east, s.wall_south, s.wall_west);
            &&& (!n && !e && !so && !w ==> wall_sprite_index(s) == 0)
            &&& (n && !e && !so && !w ==> wall_sprite_index(s) == 12)
            &&& (!n && e && !so && !w ==> wall_sprite_index(s) == 1)
            &&& (!n && !e && so && !w ==> wall_sprite_index(s) == 4)
            &&& (!n && !e && !so && w ==> wall_sprite_index(s) == 3)
            &&& (n && e && !so && !w ==> wall_sprite_index(s) == 9)
            &&& (!n && e && so && !w ==> wall_sprite_index(s) == 5)
            &&& (!n && !e && so && w ==> wall_sprite_index(s) == 6)
            &&& (n && !e && !so && w ==> wall_sprite_index(s) == 10)
            &&& (n && !e && so && !w ==> wall_sprite_index(s) == (if s.alt == WallSpriteAlternate::Alt0 {
                8int
            } else if s.alt == WallSpriteAlternate::Alt1 {
                18int
            } else {
                19int
            }))
            &&& (!n && e && !so && w ==> wall_sprite_index(s) == (if s.alt == WallSpriteAlternate::Alt0 {
                2int
            } else if s.alt == WallSpriteAlternate::Alt1 {
                16int
            } else {
                17int
            }))
            &&& (n && e && so && !w ==> wall_sprite_index(s) == 15)
            &&& (!n && e && so && w ==> wall_sprite_index(s) == 14)
            &&& (n && !e && so && w ==> wall_sprite_index(s) == 13)
            &&& (n && e && !so && w ==> wall_sprite_index(s) == 11)
            &&& (n && e && so && w ==> wall_sprite_index(s) == 7)
        },
{
}

/// With the wall table of the dungeon spritesheet, the corner walls of a room come from row 9:
/// the wall with walls east and south of it (a top left corner) is drawn from column 1 and the one
/// with walls south and west of it (a top right corner) from column 2, each one tile square
pub proof fn lemma_dungeon_corner_walls(sprites: MapSprites, texture_id: TextureId, tile_size: u32, s: WallSprite)
    requires
        sprites.wf(),
        sprites.wall_tiles@[5] == spec_tile_sprite(texture_id, tile_size, 9, 1, 1),
        sprites.wall_tiles@[6] == spec_tile_sprite(texture_id, tile_size, 9, 2, 1),
        s.alt == WallSpriteAlternate::Alt0 || s.alt == WallSpriteAlternate::Alt1 || s.alt == WallSpriteAlternate::Alt2,
        !s.wall_north,
        s.wall_south,
        s.wall_east != s.wall_west,
    ensures
        sprites.wall_tiles@[wall_sprite_index(s)].region == Rect::spec_new(
            if s.wall_east { tile_size as int } else { 2 * tile_size },
            9 * tile_size,
            tile_size as int,
            tile_size as int,
        ),
{
}


/// The floor tiles are numbered in the order of the table: the `k`th floor sprite (`Floor1` being
/// the first) is entry `k - 1`, and the four torch steps are entries 0 to 3 in the order they burn
pub proof fn lemma_floor_and_torch_tables()
    ensures
        floor_sprite_index(FloorSprite::Floor1) == 0,
        floor_sprite_index(FloorSprite::Floor2) == 1,
        floor_sprite_index(FloorSprite::Floor3) == 2,
        floor_sprite_index(FloorSprite::Floor4) == 3,
        floor_sprite_index(FloorSprite::Floor5) == 4,
        floor_sprite_index(FloorSprite::Floor6) == 5,
        floor_sprite_index(FloorSprite::Floor7) == 6,
        floor_sprite_index(FloorSprite::Floor8) == 7,
        floor_sprite_index(FloorSprite::Floor9) == 8,
        floor_sprite_index(FloorSprite::Floor10) == 9,
        floor_sprite_index(FloorSprite::Floor11) == 10,
        floor_sprite_index(FloorSprite::Floor12) == 11,
        torch_sprite_index(TorchSprite::Torch1) == 0,
        torch_sprite_index(TorchSprite::Torch2) == 1,
        torch_sprite_index(TorchSprite::Torch3) == 2,
        torch_sprite_index(TorchSprite::Torch4) == 3,
{
}

} // verus!
