use vstd::prelude::*;

use crate::room::RoomId;
use crate::sprites::{FloorSprite, MapSprites, SpriteImage, TorchAnimation, WallSprite, floor_sprite_index, wall_sprite_index};
use crate::tile_pos::TilePos;

verus! {

/// An item that can be collected
#[derive(Debug, Clone, Copy, PartialEq, Eq, Structural)]
pub enum Item {
    TreasureKey,
    RoomKey,
    Potion { stength: u32 },
}

/// The state of a door or a gate
#[derive(Debug, Clone, Copy, PartialEq, Eq, Structural)]
pub enum Door {
    /// Door is open and can be passed through
    Open,
    /// Door cannot be passed through and requires a RoomKey to be opened
    Locked,
}

/// The direction that a stairway faces
#[derive(Debug, Clone, Copy, PartialEq, Eq, Hash, Structural)]
pub enum StairsDirection {
    Left,
    Right,
}

impl StairsDirection {
    /// Returns the direction that would cause the stairs at the given position to face `target`.
    /// The positions do not need to be adjacent, but they must differ and lie in the same row or
    /// the same column. Stairs only face left or right: a target in the same row decides between
    /// the two, and a target straight above or below leaves the stairs facing right.
    pub fn towards_target(pos: TilePos, target: TilePos) -> (r: Self)
        requires
            pos.fits_isize(),
            target.fits_isize(),
            pos != target,
            pos.row == target.row || pos.col == target.col,
        ensures
            r == (if pos.row == target.row && pos.col > target.col {
                StairsDirection::Left
            } else {
                StairsDirection::Right
            }),
    {
        let (d_row, d_col) = pos.difference(target);
        if d_row == 0 && d_col > 0 {
            StairsDirection::Left
        } else {
            StairsDirection::Right
        }
    }
}

/// A chest: either still holding its item or already opened
#[derive(Debug, Clone, Copy, PartialEq, Eq, Structural)]
pub enum Chest {
    Item(Item),
    Opened,
}

/// The object or item placed at a particular tile
#[derive(Debug, Clone, Copy, PartialEq, Eq, Structural)]
pub enum TileObject {
    /// Stepping on this tile transports you to the next level
    ToNextLevel {
        /// ID of this gate and the ID of the ToPrevLevel tile that this should connect to
        id: usize,
        direction: StairsDirection,
    },
    /// Stepping on this tile transports you to the previous level
    ToPrevLevel {
        /// ID of this gate and the ID of the ToNextLevel tile that this should connect to
        id: usize,
        direction: StairsDirection,
    },
    /// A door that is either locked or open (can be opened with a RoomKey)
    Door(Door),
    /// A gate that can not be opened without some external event (e.g. switch, challenge room, etc.)
    Gate(Door),
    /// A chest containing an item that can be collected
    Chest(Chest),
}

impl TileObject {
    pub open spec fn spec_is_traversable(self) -> bool {
        match self {
            TileObject::ToNextLevel { .. } | TileObject::ToPrevLevel { .. } => true,
            TileObject::Door(d) | TileObject::Gate(d) => d == Door::Open,
            TileObject::Chest(_) => false,
        }
    }

    /// Returns true if the player is allowed to move over top of this object
    pub fn is_traversable(&self) -> (r: bool)
        ensures
            r == self.spec_is_traversable(),
    {
        match self {
            TileObject::ToNextLevel { .. } | TileObject::ToPrevLevel { .. } | TileObject::Door(Door::Open)
            | TileObject::Gate(Door::Open) => true,
            TileObject::Door(Door::Locked) | TileObject::Gate(Door::Locked) | TileObject::Chest(_) => false,
        }
    }

    /// The symbol that shows the object in a text rendering of a map
    pub open spec fn spec_symbol(self) -> char {
        match self {
            TileObject::ToNextLevel { .. } => '\u{2193}',
            TileObject::ToPrevLevel { .. } => '\u{2191}',
            TileObject::Door(Door::Locked) => '\u{1F510}',
            TileObject::Door(Door::Open) => '\u{1F513}',
            TileObject::Gate(Door::Locked) => '\u{1F512}',
            TileObject::Gate(Door::Open) => '\u{1F513}',
            TileObject::Chest(_) => '$',
        }
    }

    /// The symbol that shows the object in a text rendering of a map
    pub fn symbol(&self) -> (r: char)
        ensures
            r == self.spec_symbol(),
    {
        match *self {
            TileObject::ToNextLevel { .. } => '\u{2193}',
            TileObject::ToPrevLevel { .. } => '\u{2191}',
            TileObject::Door(Door::Locked) => '\u{1F510}',
            TileObject::Door(Door::Open) => '\u{1F513}',
            TileObject::Gate(Door::Locked) => '\u{1F512}',
            TileObject::Gate(Door::Open) => '\u{1F513}',
            TileObject::Chest(_) => '$',
        }
    }
}

/// Something placed on a wall
#[derive(Debug, Clone, Copy, PartialEq, Eq, Structural)]
pub enum WallDecoration {
    Torch(TorchAnimation),
}

impl WallDecoration {
    /// A torch whose animation starts at a random step
    pub fn torch() -> (r: Self)
        ensures
            r matches WallDecoration::Torch(t) && t.frame_counter == 0,
    {
        WallDecoration::Torch(TorchAnimation::default())
    }
}

/// The direction that an object should face
#[derive(Debug, Clone, Copy, PartialEq, Eq, Hash, Structural)]
pub enum Orientation {
    FaceNorth,
    FaceEast,
    FaceSouth,
    FaceWest,
}

impl Orientation {
    /// Returns the orientation that would cause the tile at the given position to face `target`.
    /// The positions do not need to be adjacent, but they do need to be in the same row or column.
    pub fn face_target(pos: TilePos, target: TilePos) -> (r: Self)
        requires
            pos.fits_isize(),
            target.fits_isize(),
            pos != target,
            pos.row == target.row || pos.col == target.col,
        ensures
            pos.col == target.col && pos.row > target.row ==> r == Orientation::FaceNorth,
            pos.col == target.col && pos.row < target.row ==> r == Orientation::FaceSouth,
            pos.row == target.row && pos.col > target.col ==> r == Orientation::FaceWest,
            pos.row == target.row && pos.col < target.col ==> r == Orientation::FaceEast,
    {
        let (a, b) = pos.difference(target);
        if b == 0 {
            if a > 0 {
                // target is north of pos
                Orientation::FaceNorth
            } else {
                // target is south of pos
                Orientation::FaceSouth
            }
        } else if b > 0 {
            // target is west of pos
            Orientation::FaceWest
        } else {
            Orientation::FaceEast
        }
    }
}

/// One tile of a map
#[allow(inconsistent_fields)]
#[derive(Debug, Clone, Copy, PartialEq, Eq, Structural)]
pub enum Tile {
    /// Tiles that can be traversed
    Floor {
        room_id: RoomId,
        /// The object placed on this tile, if any
        object: Option<TileObject>,
        /// The floor sprite to use
        sprite: FloorSprite,
    },
    /// Tiles that cannot be traversed, not associated to a particular room
    Wall {
        decoration: Option<WallDecoration>,
        /// The wall sprite to use
        sprite: WallSprite,
    },
    /// A tile that cannot be traversed and has nothing on it
    Empty,
}

impl Tile {
    pub open spec fn spec_is_floor(self) -> bool {
        self is Floor
    }

    pub open spec fn spec_is_wall(self) -> bool {
        self is Wall
    }

    pub open spec fn spec_is_room_floor(self, id: RoomId) -> bool {
        self matches Tile::Floor { room_id, .. } && room_id == id
    }

    pub open spec fn spec_object(self) -> Option<TileObject> {
        match self {
            Tile::Floor { object, .. } => object,
            _ => None,
        }
    }

    pub open spec fn spec_has_object(self) -> bool {
        self.spec_object() is Some
    }

    pub open spec fn spec_floor_room_id(self) -> Option<RoomId> {
        match self {
            Tile::Floor { room_id, .. } => Some(room_id),
            _ => None,
        }
    }

    pub open spec fn spec_is_traversable(self) -> bool {
        match self {
            Tile::Floor { object, .. } => match object {
                Some(o) => o.spec_is_traversable(),
                None => true,
            },
            _ => false,
        }
    }

    pub open spec fn spec_new_floor(room_id: RoomId, sprite: FloorSprite) -> Tile {
        Tile::Floor { room_id, object: None, sprite }
    }

    pub open spec fn spec_new_wall(sprite: WallSprite) -> Tile {
        Tile::Wall { decoration: None, sprite }
    }

    /// Creates a new floor tile with no object and the given sprite
    pub fn new_floor(room_id: RoomId, sprite: FloorSprite) -> (r: Self)
        ensures
            r == Tile::spec_new_floor(room_id, sprite),
    {
        Tile::Floor { room_id, object: None, sprite }
    }

    /// Creates a new wall tile with no decoration and the given sprite
    pub fn new_wall(sprite: WallSprite) -> (r: Self)
        ensures
            r == Tile::spec_new_wall(sprite),
    {
        Tile::Wall { decoration: None, sprite }
    }

    /// Creates a new empty tile
    pub fn empty() -> (r: Self)
        ensures
            r == Tile::Empty,
    {
        Tile::Empty
    }

    /// Returns the sprite that should be used as the background of this tile
    pub fn background_sprite<'a>(&self, sprites: &'a MapSprites) -> (r: &'a SpriteImage)
        requires
            sprites.wf(),
        ensures
            *r == (match *self {
                Tile::Floor { sprite, .. } => sprites.floor_tiles@[floor_sprite_index(sprite)],
                Tile::Wall { sprite, .. } => sprites.wall_tiles@[wall_sprite_index(sprite)],
                Tile::Empty => sprites.empty_tile_sprite,
            }),
    {
        match *self {
            Tile::Floor { sprite, .. } => sprites.floor_sprite(sprite),
            Tile::Wall { sprite, .. } => sprites.wall_sprite(sprite),
            Tile::Empty => sprites.empty_tile_sprite(),
        }
    }

    /// Returns the sprite that should be drawn on top of the background of this tile: the
    /// staircase on a tile that leads to another level
    pub fn object_sprite<'a>(&self, sprites: &'a MapSprites) -> (r: Option<&'a SpriteImage>)
        requires
            sprites.wf(),
            match self.spec_object() {
                Some(TileObject::ToNextLevel { .. }) | Some(TileObject::ToPrevLevel { .. }) | None => true,
                _ => false,
            },
        ensures
            match self.spec_object() {
                Some(TileObject::ToNextLevel { direction, .. }) => r == Some(
                    &sprites.staircase_down_tiles@[if direction == StairsDirection::Right { 0 } else { 1 }],
                ),
                Some(TileObject::ToPrevLevel { direction, .. }) => r == Some(
                    &sprites.staircase_up_tiles@[if direction == StairsDirection::Right { 0 } else { 1 }],
                ),
                _ => r is None,
            },
    {
        match self {
            Tile::Floor { object: Some(TileObject::ToNextLevel { direction, .. }), .. } => Some(
                sprites.staircase_down_sprite(*direction),
            ),
            Tile::Floor { object: Some(TileObject::ToPrevLevel { direction, .. }), .. } => Some(
                sprites.staircase_up_sprite(*direction),
            ),
            _ => None,
        }
    }

    /// Returns the object on this tile, if any
    pub fn object(&self) -> (r: Option<&TileObject>)
        ensures
            r == (match self.spec_object() {
                Some(o) => Some(&o),
                None => None,
            }),
    {
        match self {
            Tile::Floor { object: Some(object), .. } => Some(object),
            _ => None,
        }
    }

    /// Sets the sprite of a wall tile
    pub fn set_wall_sprite(&mut self, wall_sprite: WallSprite)
        requires
            old(self).spec_is_wall(),
        ensures
            *final(self) == (Tile::Wall { decoration: old(self)->Wall_decoration, sprite: wall_sprite }),
    {
        match self {
            Tile::Wall { sprite, .. } => *sprite = wall_sprite,
            _ => {},
        }
    }

    /// Returns the wall sprite of a wall tile
    pub fn wall_sprite(&self) -> (r: WallSprite)
        requires
            self.spec_is_wall(),
        ensures
            self matches Tile::Wall { sprite, .. } && r == sprite,
    {
        match self {
            Tile::Wall { sprite, .. } => *sprite,
            _ => WallSprite::default(),
        }
    }

    /// Sets the sprite of a floor tile
    pub fn set_floor_sprite(&mut self, floor_sprite: FloorSprite)
        requires
            old(self).spec_is_floor(),
        ensures
            *final(self) == (Tile::Floor {
                room_id: old(self)->Floor_room_id,
                object: old(self)->Floor_object,
                sprite: floor_sprite,
            }),
    {
        match self {
            Tile::Floor { sprite, .. } => *sprite = floor_sprite,
            _ => {},
        }
    }

    /// Puts a torch on a wall tile
    pub fn place_wall_torch(&mut self)
        requires
            old(self).spec_is_wall(),
        ensures
            (*final(self)) is Wall,
            final(self)->Wall_sprite == old(self)->Wall_sprite,
            final(self)->Wall_decoration matches Some(WallDecoration::Torch(t)) && t.frame_counter == 0,
    {
        match self {
            Tile::Wall { decoration, .. } => *decoration = Some(WallDecoration::torch()),
            _ => {},
        }
    }

    /// Returns the room ID of the tile if it is a floor tile or None if it is not
    pub fn floor_room_id(&self) -> (r: Option<RoomId>)
        ensures
            r == self.spec_floor_room_id(),
    {
        match self {
            Tile::Floor { room_id, .. } => Some(*room_id),
            _ => None,
        }
    }

    /// The ID of the stairs to the next level on this tile, if it holds such stairs
    pub fn to_next_level_id(&self) -> (r: Option<usize>)
        ensures
            r == (match self.spec_object() {
                Some(TileObject::ToNextLevel { id, .. }) => Some(id),
                _ => None,
            }),
    {
        match self.object() {
            Some(TileObject::ToNextLevel { id, .. }) => Some(*id),
            _ => None,
        }
    }

    /// The ID of the stairs to the previous level on this tile, if it holds such stairs
    pub fn to_prev_level_id(&self) -> (r: Option<usize>)
        ensures
            r == (match self.spec_object() {
                Some(TileObject::ToPrevLevel { id, .. }) => Some(id),
                _ => None,
            }),
    {
        match self.object() {
            Some(TileObject::ToPrevLevel { id, .. }) => Some(*id),
            _ => None,
        }
    }

    /// Returns true if the tile contains a ToNextLevel gate with the given ID
    pub fn is_to_next_level_id(&self, id: usize) -> (r: bool)
        ensures
            r == (self.spec_object() matches Some(TileObject::ToNextLevel { id: gid, .. }) && gid == id),
    {
        match self.object() {
            Some(TileObject::ToNextLevel { id: gid, .. }) => *gid == id,
            _ => false,
        }
    }

    /// Returns true if the tile contains a ToPrevLevel gate with the given ID
    pub fn is_to_prev_level_id(&self, id: usize) -> (r: bool)
        ensures
            r == (self.spec_object() matches Some(TileObject::ToPrevLevel { id: gid, .. }) && gid == id),
    {
        match self.object() {
            Some(TileObject::ToPrevLevel { id: gid, .. }) => *gid == id,
            _ => false,
        }
    }

    /// Returns true if the player is allowed to move over top of this tile
    pub fn is_traversable(&self) -> (r: bool)
        ensures
            r == self.spec_is_traversable(),
    {
        match self {
            // Floor tiles are traversable by default unless their object is not traversable
            Tile::Floor { object, .. } => match object {
                Some(obj) => obj.is_traversable(),
                None => true,
            },
            Tile::Wall { .. } | Tile::Empty => false,
        }
    }

    /// Returns true if this tile is any floor tile
    pub fn is_floor(&self) -> (r: bool)
        ensures
            r == self.spec_is_floor(),
    {
        match self {
            Tile::Floor { .. } => true,
            _ => false,
        }
    }

    /// Returns true if this tile is a floor tile from the given room
    pub fn is_room_floor(&self, id: RoomId) -> (r: bool)
        ensures
            r == self.spec_is_room_floor(id),
    {
        match self {
            Tile::Floor { room_id, .. } => *room_id == id,
            _ => false,
        }
    }

    /// Returns true if this tile is a wall
    pub fn is_wall(&self) -> (r: bool)
        ensures
            r == self.spec_is_wall(),
    {
        match self {
            Tile::Wall { .. } => true,
            _ => false,
        }
    }

    /// Returns true if this tile is empty
    pub fn is_empty(&self) -> (r: bool)
        ensures
            r == (*self == Tile::Empty),
    {
        match self {
            Tile::Empty => true,
            _ => false,
        }
    }

    /// Turns this tile into a Wall tile
    pub fn become_wall(&mut self, sprite: WallSprite)
        ensures
            *final(self) == Tile::spec_new_wall(sprite),
    {
        *self = Tile::new_wall(sprite);
    }

    /// Turns this tile into a Floor tile
    pub fn become_floor(&mut self, room_id: RoomId, sprite: FloorSprite)
        ensures
            *final(self) == Tile::spec_new_floor(room_id, sprite),
    {
        *self = Tile::new_floor(room_id, sprite);
    }

    /// Returns true if this tile has an object
    pub fn has_object(&self) -> (r: bool)
        ensures
            r == self.spec_has_object(),
    {
        match self {
            Tile::Floor { object, .. } => object.is_some(),
            _ => false,
        }
    }

    /// Places an object on a floor tile that does not have one yet
    pub fn place_object(&mut self, new_object: TileObject)
        requires
            old(self).spec_is_floor(),
            !old(self).spec_has_object(),
        ensures
            *final(self) == (Tile::Floor {
                room_id: old(self)->Floor_room_id,
                object: Some(new_object),
                sprite: old(self)->Floor_sprite,
            }),
    {
        match self {
            Tile::Floor { object, .. } => *object = Some(new_object),
            _ => {},
        }
    }
}

} // verus!
