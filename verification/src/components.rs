//! The components that entities of a level are made of: where they are, how they move, their
//! bounding boxes, their health and their animations
use vstd::prelude::*;

use crate::geometry::{Point, Rect};
use crate::sprites::TextureId;

verus! {

/// An entity with this component does not count in collisions and can thus be rendered over
#[derive(Debug, Clone, Copy, PartialEq, Eq, Structural)]
pub struct PassThrough;

/// Represents the XY world coordinates of the center of an entity.
///
/// This is distinct from the screen coordinates which are bounded by the size of the display.
#[derive(Debug, Clone, Copy, PartialEq, Eq, Structural)]
pub struct Position(pub Point);

/// Represents the direction that an entity would like to move in
#[derive(Debug, Clone, Copy, PartialEq, Eq, Structural)]
pub enum MovementDirection {
    North,
    South,
    East,
    West,
}

impl MovementDirection {
    /// Returns a Point that represents the unit vector for a given direction
    pub fn to_vector(self) -> (r: Point)
        ensures
            r == (match self {
                MovementDirection::North => Point { x: 0i32, y: -1i32 },
                MovementDirection::South => Point { x: 0, y: 1 },
                MovementDirection::East => Point { x: 1, y: 0 },
                MovementDirection::West => Point { x: -1i32, y: 0i32 },
            }),
    {
        match self {
            MovementDirection::North => Point::new(0, -1),
            MovementDirection::South => Point::new(0, 1),
            MovementDirection::East => Point::new(1, 0),
            MovementDirection::West => Point::new(-1, 0),
        }
    }
}

/// Represents the direction of movement that a given entity would like to move in.
/// Used in the physics system to update position every frame.
#[derive(Debug, Clone, Copy, PartialEq, Eq, Structural)]
pub struct Movement {
    /// The most recent direction that the entity was moving in
    pub direction: MovementDirection,
    /// The speed of the entity in px/frame
    pub speed: i32,
}

impl Movement {
    /// Facing east, standing still
    pub fn default() -> (r: Self)
        ensures
            r == (Movement { direction: MovementDirection::East, speed: 0 }),
    {
        Movement { direction: MovementDirection::East, speed: 0 }
    }

    /// The entity is moving: its speed is not zero
    pub fn is_moving(&self) -> (r: bool)
        ensures
            r == (self.speed != 0),
    {
        self.speed != 0
    }

    /// Starts moving in the given direction at the given speed (in px/frame)
    pub fn move_in_direction(&mut self, direction: MovementDirection, speed: i32)
        ensures
            *final(self) == (Movement { direction, speed }),
    {
        self.direction = direction;
        self.speed = speed;
    }
}

/// An entity that is unable to move until the given duration has elapsed
#[derive(Debug, Clone, Copy, PartialEq, Eq, Structural)]
pub struct Wait {
    /// unit: frames
    pub duration: usize,
    /// unit: frames
    pub frames_elapsed: usize,
}

/// Half of a height, as the height's value in `i32` divided by two (rounding towards zero)
pub open spec fn half_height(height: u32) -> int {
    let h = height as i32;
    if h >= 0 {
        h / 2
    } else {
        -((-h) / 2)
    }
}

/// Represents the bounding box centered around an entity's position
#[derive(Debug, Clone, Copy, PartialEq, Eq, Structural)]
pub enum BoundingBox {
    /// A full bounding box centered around the entity's position
    Full { width: u32, height: u32 },
    /// A "half" bounding box where the position is the top-middle of the box formed by the given
    /// width and height
    BottomHalf { width: u32, height: u32 },
}

impl BoundingBox {
    /// Shrink the horizontal and vertical size of this bounding box by the given amount centering
    /// the transformation around the reference position. That means that for full bounding boxes
    /// this will shift all four sides inward. For bottom half bounding boxes this will only shift
    /// the left, right, and bottom sides since the top side is at the position already.
    pub fn shrink(self, value: u32) -> (r: Self)
        requires
            match self {
                BoundingBox::Full { width, height } => value * 2 <= width && value * 2 <= height,
                BoundingBox::BottomHalf { width, height } => value * 2 <= width && value <= height,
            },
        ensures
            r == (match self {
                BoundingBox::Full { width, height } => BoundingBox::Full {
                    width: (width - value * 2) as u32,
                    height: (height - value * 2) as u32,
                },
                BoundingBox::BottomHalf { width, height } => BoundingBox::BottomHalf {
                    width: (width - value * 2) as u32,
                    height: (height - value) as u32,
                },
            }),
    {
        match self {
            BoundingBox::Full { width, height } => BoundingBox::Full { width: width - value * 2, height: height - value * 2 },
            BoundingBox::BottomHalf { width, height } => BoundingBox::BottomHalf {
                width: width - value * 2,
                height: height - value,
            },
        }
    }

    /// Given the position of the center of an entity, returns the rectangle that represents the
    /// boundary of the bounding box. The position is interpreted differently depending on the type
    /// of the bounding box: a bottom half box has the position at its top middle.
    pub fn to_rect(self, pos: Point) -> (r: Rect)
        ensures
            r == (match self {
                BoundingBox::Full { width, height } => Rect::spec_from_center(pos, width as int, height as int),
                BoundingBox::BottomHalf { width, height } => Rect::spec_from_center(
                    pos.spec_offset(0, half_height(height)),
                    width as int,
                    height as int,
                ),
            }),
    {
        match self {
            BoundingBox::Full { width, height } => Rect::from_center(pos, width, height),
            BoundingBox::BottomHalf { width, height } => {
                let h: i32 = height as i32;
                let half: i32 = if h >= 0 { h / 2 } else { -((-(h as i64)) / 2) as i32 };
                // Make pos be at the top middle of the bounding box
                Rect::from_center(pos.offset(0, half), width, height)
            },
        }
    }

    /// Treat this bounding box as a full bounding box and return its boundary rectangle as if that
    /// was the case
    pub fn to_full_rect(self, pos: Point) -> (r: Rect)
        requires
            self matches BoundingBox::BottomHalf { height, .. } ==> height * 2 <= u32::MAX,
        ensures
            r == (match self {
                BoundingBox::Full { width, height } => Rect::spec_from_center(pos, width as int, height as int),
                BoundingBox::BottomHalf { width, height } => Rect::spec_from_center(
                    pos,
                    width as int,
                    height * 2,
                ),
            }),
    {
        match self {
            BoundingBox::Full { width, height } => Rect::from_center(pos, width, height),
            BoundingBox::BottomHalf { width, height } => Rect::from_center(pos, width, height * 2),
        }
    }
}

/// Represents the amount of health left for a given entity (unit: HP)
#[derive(Debug, Clone, Copy, PartialEq, Eq, Structural)]
pub struct HealthPoints(pub usize);

/// Represents the strength of this entity's attack (unit: HP)
#[derive(Debug, Clone, Copy, PartialEq, Eq, Structural)]
pub struct Attack(pub usize);

/// Represents the amount of time (if at all) that the entity waits when hit before being able to
/// move/attack again (unit: frames)
#[derive(Debug, Clone, Copy, PartialEq, Eq, Structural)]
pub struct HitWait(pub usize);

/// The keyboard controlled player. Only one entity should hold this at a given time.
#[derive(Debug, Clone, Copy, PartialEq, Eq, Structural)]
pub struct KeyboardControlled;

/// The entity with this component and a Position component will be centered in the camera
/// when the scene is rendered. Only one entity should hold this at a given time.
#[derive(Debug, Clone, Copy, PartialEq, Eq, Structural)]
pub struct CameraFocus;

/// Entities with this component will be attacked by entities with the Enemy component
#[derive(Debug, Clone, Copy, PartialEq, Eq, Structural)]
pub struct Player;

/// Entities with this component will attempt to attack entities with the Player component
#[derive(Debug, Clone, Copy, PartialEq, Eq, Structural)]
pub struct Enemy {
    /// movements per second
    pub speed: i32,
}

/// A door between two rooms
#[derive(Debug, Clone, Copy, PartialEq, Eq, Structural)]
pub struct Door;

/// A gate between two rooms
#[derive(Debug, Clone, Copy, PartialEq, Eq, Structural)]
pub struct Gate;

/// A locked door/gate
#[derive(Debug, Clone, Copy, PartialEq, Eq, Structural)]
pub struct Locked;

/// A staircase to the next level or to the previous level
#[derive(Debug, Clone, Copy, PartialEq, Eq, Structural)]
pub enum Stairs {
    /// Stepping on this tile transports you to the next level
    ToNextLevel {
        /// ID of these stairs and the ID of the ToPrevLevel tile that this should connect to
        id: usize,
    },
    /// Stepping on this tile transports you to the previous level
    ToPrevLevel {
        /// ID of these stairs and the ID of the ToNextLevel tile that this should connect to
        id: usize,
    },
}

impl Stairs {
    /// The symbol that shows the stairs in a text rendering: an arrow down or up
    pub fn symbol(&self) -> (r: char)
        ensures
            r == (match *self {
                Stairs::ToNextLevel { .. } => '\u{2193}',
                Stairs::ToPrevLevel { .. } => '\u{2191}',
            }),
    {
        match *self {
            Stairs::ToNextLevel { .. } => '\u{2193}',
            Stairs::ToPrevLevel { .. } => '\u{2191}',
        }
    }
}

/// Renders a sprite from a surface (spritesheet image).
///
/// The sprite is rendered with the region centered on the entity's Position. The convention is
/// that the sprite begins pointing to the right and flipping it horizontally results in it facing
/// left.
#[derive(Debug, Clone, Copy, PartialEq, Eq, Structural)]
pub struct Sprite {
    /// The spritesheet to pull the image from
    pub texture_id: TextureId,
    /// The region of the spritesheet to use, unrelated to the actual bounding box
    pub region: Rect,
    /// Whether to flip the sprite along the horizontal axis
    pub flip_horizontal: bool,
    /// Whether to flip the sprite along the vertical axis
    pub flip_vertical: bool,
}

impl Sprite {
    /// Takes the sprite of an animation frame
    pub fn update_from_frame(&mut self, frame: &Frame)
        ensures
            *final(self) == frame.sprite,
    {
        *self = frame.sprite;
    }
}

/// One step of an animation
#[derive(Debug, Clone, Copy, PartialEq, Eq, Structural)]
pub struct Frame {
    /// The sprite that this frame represents
    pub sprite: Sprite,
    /// The duration of this animation step (in frames)
    pub duration: usize,
}

/// Used to modify the Sprite component every frame
#[derive(Debug, Clone)]
pub struct Animation {
    pub steps: Vec<Frame>,
    /// The current step of the animation
    pub current_step: usize,
    /// The number of frames that have elapsed during the current step
    pub frame_counter: usize,
    /// Used by the animation manager to avoid interrupting certain animations. Idle and movement
    /// animations can be interrupted, but other animations like attack and hit animations should
    /// usually not be interrupted.
    pub can_interrupt: bool,
    /// Set to true if the animation should loop once it is complete
    pub should_loop: bool,
}

impl Animation {
    /// The animation has the same steps and state as `other`
    pub open spec fn same_as(&self, other: &Animation) -> bool {
        &&& self.steps@ == other.steps@
        &&& self.current_step == other.current_step
        &&& self.frame_counter == other.frame_counter
        &&& self.can_interrupt == other.can_interrupt
        &&& self.should_loop == other.should_loop
    }

    /// Create a new animation from the given steps, starting at its first step
    pub fn new(steps: Vec<Frame>, can_interrupt: bool, should_loop: bool) -> (r: Self)
        ensures
            r.steps@ == steps@,
            r.current_step == 0,
            r.frame_counter == 0,
            r.can_interrupt == can_interrupt,
            r.should_loop == should_loop,
    {
        Animation { steps, current_step: 0, frame_counter: 0, can_interrupt, should_loop }
    }

    /// A copy of the animation
    pub fn duplicate(&self) -> (r: Self)
        ensures
            r.same_as(self),
    {
        let mut steps: Vec<Frame> = Vec::new();
        let mut k: usize = 0;
        while k < self.steps.len()
            invariant
                k <= self.steps@.len(),
                steps@ == self.steps@.take(k as int),
            decreases self.steps@.len() - k,
        {
            steps.push(self.steps[k]);
            assert(steps@ =~= self.steps@.take(k + 1));
            k += 1;
        }
        assert(steps@ =~= self.steps@);
        Animation {
            steps,
            current_step: self.current_step,
            frame_counter: self.frame_counter,
            can_interrupt: self.can_interrupt,
            should_loop: self.should_loop,
        }
    }

    /// Returns true if the animation has reached its last frame
    pub fn is_complete(&self) -> (r: bool)
        requires
            self.steps@.len() >= 1,
        ensures
            r == (self.current_step == self.steps@.len() - 1),
    {
        self.current_step == self.steps.len() - 1
    }

    /// Returns true if this animation has the same frames as the given animation
    pub fn has_same_steps(&self, other: &Self) -> (r: bool)
        ensures
            r == (self.steps@ == other.steps@),
    {
        if self.steps.len() != other.steps.len() {
            return false;
        }
        let mut k: usize = 0;
        while k < self.steps.len()
            invariant
                self.steps@.len() == other.steps@.len(),
                k <= self.steps@.len(),
                forall|j: int| 0 <= j < k ==> self.steps@[j] == other.steps@[j],
            decreases self.steps@.len() - k,
        {
            if self.steps[k] != other.steps[k] {
                return false;
            }
            k += 1;
        }
        assert(self.steps@ =~= other.steps@);
        true
    }

    /// Only updates the animation if the provided animation has different steps
    pub fn update_if_different(&mut self, other: &Self)
        ensures
            old(self).steps@ == other.steps@ ==> final(self).same_as(old(self)),
            old(self).steps@ != other.steps@ ==> final(self).same_as(other),
    {
        if self.has_same_steps(other) {
            return;
        }
        *self = other.duplicate();
    }
}

/// The width and height of each frame box in the character spritesheets
pub const FRAME_SIZE: i32 = 48;

/// The sprite of the frame in the given row and column of a character spritesheet
pub open spec fn frame_sprite(texture_id: TextureId, row: int, col: int, flip_horizontal: bool) -> Sprite {
    Sprite {
        texture_id,
        region: Rect::spec_new(col * FRAME_SIZE, FRAME_SIZE * row, FRAME_SIZE as int, FRAME_SIZE as int),
        flip_horizontal,
        flip_vertical: false,
    }
}

/// The steps of an animation from one row of a spritesheet: a frame for each column of the
/// pattern, with the durations repeating in turn
pub open spec fn animation_steps(
    texture_id: TextureId,
    row: int,
    pattern: Seq<i32>,
    flip_horizontal: bool,
    durations: Seq<usize>,
) -> Seq<Frame> {
    if durations.len() == 0 {
        Seq::empty()
    } else {
        Seq::new(
            pattern.len(),
            |k: int|
                Frame {
                    sprite: frame_sprite(texture_id, row, pattern[k] as int, flip_horizontal),
                    duration: durations[k % durations.len() as int],
                },
        )
    }
}

/// The animation made of the given steps, at its start
pub open spec fn is_animation(a: Animation, steps: Seq<Frame>, can_interrupt: bool, should_loop: bool) -> bool {
    &&& a.steps@ == steps
    &&& a.current_step == 0
    &&& a.frame_counter == 0
    &&& a.can_interrupt == can_interrupt
    &&& a.should_loop == should_loop
}

/// The number of frames that the given number of milliseconds lasts at `fps` frames per second
pub open spec fn ms_to_frames(ms: int, fps: int) -> usize {
    (ms / (1000int / fps)) as usize
}

/// The frames of each of the durations, in milliseconds
fn frames_of(ms: &Vec<usize>, fps: usize) -> (r: Vec<usize>)
    requires
        0 < fps <= 1000,
    ensures
        r@ == ms@.map_values(|m: usize| ms_to_frames(m as int, fps as int)),
{
    let mut r: Vec<usize> = Vec::new();
    let mut k: usize = 0;
    while k < ms.len()
        invariant
            0 < fps <= 1000,
            k <= ms@.len(),
            r@ == ms@.take(k as int).map_values(|m: usize| ms_to_frames(m as int, fps as int)),
        decreases ms@.len() - k,
    {
        assert(1000usize / fps >= 1) by (nonlinear_arith)
            requires
                0 < fps <= 1000,
        ;
        r.push(ms[k] / (1000 / fps));
        assert(ms@.take(k + 1) =~= ms@.take(k as int).push(ms@[k as int]));
        assert(r@ =~= ms@.take(k + 1).map_values(|m: usize| ms_to_frames(m as int, fps as int)));
        k += 1;
    }
    assert(ms@.take(ms@.len() as int) =~= ms@);
    r
}

/// An animation from one row of a character spritesheet: a frame for each column of the pattern,
/// with the durations repeating in turn
fn animation(
    texture_id: TextureId,
    row_i: i32,
    pattern: &Vec<i32>,
    flip_horizontal: bool,
    durations: &Vec<usize>,
    can_interrupt: bool,
    should_loop: bool,
) -> (r: Animation)
    requires
        0 <= row_i <= 10,
        forall|k: int| 0 <= k < pattern@.len() ==> 0 <= #[trigger] pattern@[k] <= 3,
    ensures
        is_animation(r, animation_steps(texture_id, row_i as int, pattern@, flip_horizontal, durations@), can_interrupt, should_loop),
{
    let mut steps: Vec<Frame> = Vec::new();
    if durations.len() > 0 {
        let mut k: usize = 0;
        while k < pattern.len()
            invariant
                0 <= row_i <= 10,
                forall|m: int| 0 <= m < pattern@.len() ==> 0 <= #[trigger] pattern@[m] <= 3,
                durations@.len() > 0,
                k <= pattern@.len(),
                steps@ == animation_steps(texture_id, row_i as int, pattern@, flip_horizontal, durations@).take(k as int),
            decreases pattern@.len() - k,
        {
            let j = pattern[k];
            let frame = Frame {
                sprite: Sprite {
                    texture_id,
                    region: Rect::new(j * FRAME_SIZE, FRAME_SIZE * row_i, FRAME_SIZE as u32, FRAME_SIZE as u32),
                    flip_horizontal,
                    flip_vertical: false,
                },
                duration: durations[k % durations.len()],
            };
            steps.push(frame);
            assert(steps@ =~= animation_steps(texture_id, row_i as int, pattern@, flip_horizontal, durations@).take(k + 1));
            k += 1;
        }
        assert(animation_steps(texture_id, row_i as int, pattern@, flip_horizontal, durations@).take(pattern@.len() as int)
            =~= animation_steps(texture_id, row_i as int, pattern@, flip_horizontal, durations@));
    } else {
        assert(steps@ =~= animation_steps(texture_id, row_i as int, pattern@, flip_horizontal, durations@));
    }
    Animation::new(steps, can_interrupt, should_loop)
}

/// Modifies the Animation components every frame based on the current movement of the player or
/// based on events that have occurred (e.g. attacks or gets hit by something)
#[derive(Debug, Clone)]
pub struct AnimationManager {
    pub idle: Animation,
    pub victory: Animation,
    pub move_up: Animation,
    pub move_right: Animation,
    pub move_left: Animation,
    pub move_down: Animation,
    pub attack_up: Animation,
    pub attack_right: Animation,
    pub attack_left: Animation,
    pub attack_down: Animation,
    pub hit_up: Animation,
    pub hit_right: Animation,
    pub hit_left: Animation,
    pub hit_down: Animation,
    pub stopped_up: Animation,
    pub stopped_right: Animation,
    pub stopped_left: Animation,
    pub stopped_down: Animation,
    /// The number of frames since this entity last moved, attacked, or been hit
    pub idle_counter: usize,
}

impl AnimationManager {
    /// The animations of a character laid out in its spritesheet in the standard way, with
    /// durations in frames at `fps` frames per second
    pub open spec fn is_standard(&self, fps: usize, t: TextureId) -> bool {
        let f = |ms: int| ms_to_frames(ms, fps as int);
        let three = seq![0i32, 1, 2];
        let four = seq![0i32, 1, 2, 3];
        let hit = seq![0i32, 1, 2, 0];
        let last = seq![3i32];
        let slow = seq![f(640), f(80)];
        let step = seq![f(100)];
        let attack = seq![f(300), f(100), f(100), f(200)];
        let one = seq![f(1)];
        &&& is_animation(self.idle, animation_steps(t, 0, three, false, slow), true, true)
        &&& is_animation(self.victory, animation_steps(t, 1, three, false, slow), true, true)
        &&& is_animation(self.move_down, animation_steps(t, 2, four, false, step), true, true)
        &&& is_animation(self.move_right, animation_steps(t, 3, four, false, step), true, true)
        &&& is_animation(self.move_left, animation_steps(t, 3, four, true, step), true, true)
        &&& is_animation(self.move_up, animation_steps(t, 4, four, false, step), true, true)
        &&& is_animation(self.attack_down, animation_steps(t, 5, four, false, attack), false, false)
        &&& is_animation(self.attack_right, animation_steps(t, 6, four, false, attack), false, false)
        &&& is_animation(self.attack_left, animation_steps(t, 6, four, true, attack), false, false)
        &&& is_animation(self.attack_up, animation_steps(t, 7, four, false, attack), false, false)
        &&& is_animation(self.hit_down, animation_steps(t, 8, hit, false, step), false, false)
        &&& is_animation(self.hit_right, animation_steps(t, 9, hit, false, step), false, false)
        &&& is_animation(self.hit_left, animation_steps(t, 9, hit, true, step), false, false)
        &&& is_animation(self.hit_up, animation_steps(t, 10, hit, false, step), false, false)
        &&& is_animation(self.stopped_down, animation_steps(t, 8, last, false, one), true, false)
        &&& is_animation(self.stopped_right, animation_steps(t, 9, last, false, one), true, false)
        &&& is_animation(self.stopped_left, animation_steps(t, 9, last, true, one), true, false)
        &&& is_animation(self.stopped_up, animation_steps(t, 10, last, false, one), true, false)
        &&& self.idle_counter == 0
    }

    /// Returns the standard character animations based on how most of our character spritesheets
    /// are laid out, at `fps` frames per second
    pub fn standard_character_animations(fps: usize, texture_id: TextureId) -> (r: Self)
        requires
            0 < fps <= 1000,
        ensures
            r.is_standard(fps, texture_id),
    {
        let three: Vec<i32> = vec![0, 1, 2];
        let four: Vec<i32> = vec![0, 1, 2, 3];
        let hit: Vec<i32> = vec![0, 1, 2, 0];
        let last: Vec<i32> = vec![3];
        // Animations are configured based on the character animation guide provided with the
        // asset pack
        let slow = frames_of(&vec![640, 80], fps);
        let step = frames_of(&vec![100], fps);
        let attack = frames_of(&vec![300, 100, 100, 200], fps);
        let one = frames_of(&vec![1], fps);
        proof {
            let f = |ms: int| ms_to_frames(ms, fps as int);
            assert(three@ =~= seq![0i32, 1, 2]);
            assert(four@ =~= seq![0i32, 1, 2, 3]);
            assert(hit@ =~= seq![0i32, 1, 2, 0]);
            assert(last@ =~= seq![3i32]);
            assert(slow@ =~= seq![f(640), f(80)]);
            assert(step@ =~= seq![f(100)]);
            assert(attack@ =~= seq![f(300), f(100), f(100), f(200)]);
            assert(one@ =~= seq![f(1)]);
        }
        AnimationManager {
            idle: animation(texture_id, 0, &three, false, &slow, true, true),
            victory: animation(texture_id, 1, &three, false, &slow, true, true),
            move_down: animation(texture_id, 2, &four, false, &step, true, true),
            move_right: animation(texture_id, 3, &four, false, &step, true, true),
            move_left: animation(texture_id, 3, &four, true, &step, true, true),
            move_up: animation(texture_id, 4, &four, false, &step, true, true),
            attack_down: animation(texture_id, 5, &four, false, &attack, false, false),
            attack_right: animation(texture_id, 6, &four, false, &attack, false, false),
            attack_left: animation(texture_id, 6, &four, true, &attack, false, false),
            attack_up: animation(texture_id, 7, &four, false, &attack, false, false),
            hit_down: animation(texture_id, 8, &hit, false, &step, false, false),
            hit_right: animation(texture_id, 9, &hit, false, &step, false, false),
            hit_left: animation(texture_id, 9, &hit, true, &step, false, false),
            hit_up: animation(texture_id, 10, &hit, false, &step, false, false),
            stopped_down: animation(texture_id, 8, &last, false, &one, true, false),
            stopped_right: animation(texture_id, 9, &last, false, &one, true, false),
            stopped_left: animation(texture_id, 9, &last, true, &one, true, false),
            stopped_up: animation(texture_id, 10, &last, false, &one, true, false),
            idle_counter: 0,
        }
    }

    /// The animations and the idle counter are the same as those of `other`
    pub open spec fn same_as(&self, other: &AnimationManager) -> bool {
        &&& self.idle.same_as(&other.idle)
        &&& self.victory.same_as(&other.victory)
        &&& self.move_up.same_as(&other.move_up)
        &&& self.move_right.same_as(&other.move_right)
        &&& self.move_left.same_as(&other.move_left)
        &&& self.move_down.same_as(&other.move_down)
        &&& self.attack_up.same_as(&other.attack_up)
        &&& self.attack_right.same_as(&other.attack_right)
        &&& self.attack_left.same_as(&other.attack_left)
        &&& self.attack_down.same_as(&other.attack_down)
        &&& self.hit_up.same_as(&other.hit_up)
        &&& self.hit_right.same_as(&other.hit_right)
        &&& self.hit_left.same_as(&other.hit_left)
        &&& self.hit_down.same_as(&other.hit_down)
        &&& self.stopped_up.same_as(&other.stopped_up)
        &&& self.stopped_right.same_as(&other.stopped_right)
        &&& self.stopped_left.same_as(&other.stopped_left)
        &&& self.stopped_down.same_as(&other.stopped_down)
        &&& self.idle_counter == other.idle_counter
    }

    /// A copy of the animations
    pub fn duplicate(&self) -> (r: Self)
        ensures
            r.same_as(self),
    {
        AnimationManager {
            idle: self.idle.duplicate(),
            victory: self.victory.duplicate(),
            move_up: self.move_up.duplicate(),
            move_right: self.move_right.duplicate(),
            move_left: self.move_left.duplicate(),
            move_down: self.move_down.duplicate(),
            attack_up: self.attack_up.duplicate(),
            attack_right: self.attack_right.duplicate(),
            attack_left: self.attack_left.duplicate(),
            attack_down: self.attack_down.duplicate(),
            hit_up: self.hit_up.duplicate(),
            hit_right: self.hit_right.duplicate(),
            hit_left: self.hit_left.duplicate(),
            hit_down: self.hit_down.duplicate(),
            stopped_up: self.stopped_up.duplicate(),
            stopped_right: self.stopped_right.duplicate(),
            stopped_left: self.stopped_left.duplicate(),
            stopped_down: self.stopped_down.duplicate(),
            idle_counter: self.idle_counter,
        }
    }

    /// Returns the default sprite that should be used at the start: the first frame of standing
    /// still, facing down
    pub fn default_sprite(&self) -> (r: Sprite)
        requires
            self.stopped_down.steps@.len() >= 1,
        ensures
            r == self.stopped_down.steps@[0].sprite,
    {
        self.stopped_down.steps[0].sprite
    }

    /// Returns the default animation that should be used at the start: standing still, facing down
    pub fn default_animation(&self) -> (r: Animation)
        ensures
            r.same_as(&self.stopped_down),
    {
        self.stopped_down.duplicate()
    }
}

/// The components of the player, kept together so that they can be moved from one world to
/// another without forgetting one
#[derive(Debug, Clone)]
pub struct PlayerComponents {
    pub keyboard_controlled: KeyboardControlled,
    pub camera_focus: CameraFocus,
    pub player: Player,
    pub health_points: HealthPoints,
    pub position: Position,
    pub bounding_box: BoundingBox,
    pub movement: Movement,
    pub sprite: Sprite,
    pub animation: Animation,
    pub animation_manager: AnimationManager,
}

/// The components of an enemy, kept while the player is on another level
#[derive(Debug, Clone)]
pub struct EnemyState {
    pub position: Position,
    pub health: HealthPoints,
    pub bounding_box: BoundingBox,
    pub movement: Movement,
    pub sprite: Sprite,
    pub animation: Animation,
    pub animation_manager: AnimationManager,
}


/// The animation shows, step by step, the frames of the given row of a character spritesheet at
/// the given columns, each frame `FRAME_SIZE` pixels square, mirrored when `flip` is set
pub open spec fn drawn_from(a: Animation, t: TextureId, row: int, cols: Seq<int>, flip: bool) -> bool {
    &&& a.steps@.len() == cols.len()
    &&& forall|k: int| 0 <= k < cols.len() ==> (#[trigger] a.steps@[k]).sprite == (Sprite {
        texture_id: t,
        region: Rect { x: (cols[k] * 48) as i32, y: (row * 48) as i32, w: 48u32, h: 48u32 },
        flip_horizontal: flip,
        flip_vertical: false,
    })
}

/// Each step of the animation lasts the given number of milliseconds, counted in whole frames at
/// `fps` frames per second; the animation starts at its first step and can be interrupted and
/// loops as given
pub open spec fn timed(a: Animation, fps: int, ms: Seq<int>, can_interrupt: bool, should_loop: bool) -> bool {
    &&& a.steps@.len() == ms.len()
    &&& forall|k: int| 0 <= k < ms.len() ==> (#[trigger] a.steps@[k]).duration == ms[k] / (1000int / fps)
    &&& a.current_step == 0
    &&& a.frame_counter == 0
    &&& a.can_interrupt == can_interrupt
    &&& a.should_loop == should_loop
}

/// Where the standard character animations come from on the spritesheet: standing idle from
/// row 0, the victory pose from row 1, walking down from row 2, right from row 3 and left from row
/// 3 mirrored, walking up from row 4, attacking down from row 5, right from row 6, left from row 6
/// mirrored and up from row 7, getting hit down from row 8, right from row 9, left from row 9
/// mirrored and up from row 10, and standing still facing down, right, left and up from the last
/// column of those hit rows. Standing and the victory pose hold their frames 640 and 80 ms in
/// turn, walking and getting hit 100 ms a frame, attacks 300, 100, 100 and 200 ms, and standing
/// still one ms; standing, walking and standing still can be interrupted, and only standing and
/// walking loop.
pub proof fn lemma_standard_animation_rows(m: AnimationManager, fps: usize, t: TextureId)
    requires
        0 < fps <= 1000,
        m.is_standard(fps, t),
    ensures
        drawn_from(m.idle, t, 0, seq![0int, 1, 2], false),
        drawn_from(m.victory, t, 1, seq![0int, 1, 2], false),
        drawn_from(m.move_down, t, 2, seq![0int, 1, 2, 3], false),
        drawn_from(m.move_right, t, 3, seq![0int, 1, 2, 3], false),
        drawn_from(m.move_left, t, 3, seq![0int, 1, 2, 3], true),
        drawn_from(m.move_up, t, 4, seq![0int, 1, 2, 3], false),
        drawn_from(m.attack_down, t, 5, seq![0int, 1, 2, 3], false),
        drawn_from(m.attack_right, t, 6, seq![0int, 1, 2, 3], false),
        drawn_from(m.attack_left, t, 6, seq![0int, 1, 2, 3], true),
        drawn_from(m.attack_up, t, 7, seq![0int, 1, 2, 3], false),
        drawn_from(m.hit_down, t, 8, seq![0int, 1, 2, 0], false),
        drawn_from(m.hit_right, t, 9, seq![0int, 1, 2, 0], false),
        drawn_from(m.hit_left, t, 9, seq![0int, 1, 2, 0], true),
        drawn_from(m.hit_up, t, 10, seq![0int, 1, 2, 0], false),
        drawn_from(m.stopped_down, t, 8, seq![3int], false),
        drawn_from(m.stopped_right, t, 9, seq![3int], false),
        drawn_from(m.stopped_left, t, 9, seq![3int], true),
        drawn_from(m.stopped_up, t, 10, seq![3int], false),
        timed(m.idle, fps as int, seq![640int, 80, 640], true, true),
        timed(m.victory, fps as int, seq![640int, 80, 640], true, true),
        timed(m.move_down, fps as int, seq![100int, 100, 100, 100], true, true),
        timed(m.move_right, fps as int, seq![100int, 100, 100, 100], true, true),
        timed(m.move_left, fps as int, seq![100int, 100, 100, 100], true, true),
        timed(m.move_up, fps as int, seq![100int, 100, 100, 100], true, true),
        timed(m.attack_down, fps as int, seq![300int, 100, 100, 200], false, false),
        timed(m.attack_right, fps as int, seq![300int, 100, 100, 200], false, false),
        timed(m.attack_left, fps as int, seq![300int, 100, 100, 200], false, false),
        timed(m.attack_up, fps as int, seq![300int, 100, 100, 200], false, false),
        timed(m.hit_down, fps as int, seq![100int, 100, 100, 100], false, false),
        timed(m.hit_right, fps as int, seq![100int, 100, 100, 100], false, false),
        timed(m.hit_left, fps as int, seq![100int, 100, 100, 100], false, false),
        timed(m.hit_up, fps as int, seq![100int, 100, 100, 100], false, false),
        timed(m.stopped_down, fps as int, seq![1int], true, false),
        timed(m.stopped_right, fps as int, seq![1int], true, false),
        timed(m.stopped_left, fps as int, seq![1int], true, false),
        timed(m.stopped_up, fps as int, seq![1int], true, false),
        m.idle_counter == 0,
{
    let slow = seq![ms_to_frames(640, fps as int), ms_to_frames(80, fps as int)];
    let ms = seq![640int, 80, 640];
    assert(2int % 2 == 0);
    assert(0 < 1000int / (fps as int) <= 1000) by (nonlinear_arith)
        requires
            0 < fps <= 1000,
    ;
    assert forall|k: int| 0 <= k < 3 implies #[trigger] m.idle.steps@[k].duration == ms[k] / (1000int / fps as int)
        && m.victory.steps@[k].duration == ms[k] / (1000int / fps as int) by {
        assert(m.idle.steps@ == animation_steps(t, 0, seq![0i32, 1, 2], false, slow));
        assert(m.victory.steps@ == animation_steps(t, 1, seq![0i32, 1, 2], false, slow));
        if k == 2 {
            assert(slow[k % 2] == slow[0]);
        }
    }
}

} // verus!
