use vstd::prelude::*;

use crate::tile_rect::TileRect;

verus! {

/// Identifies a room of a map: its index among the rooms of that map
#[derive(Debug, Clone, Copy, PartialEq, Eq, Hash, Structural)]
pub struct RoomId(pub usize);

/// The role of a room in the game
#[derive(Debug, Clone, Copy, PartialEq, Eq, Structural)]
pub enum RoomType {
    /// A normal room containing enemeies, chests, special tiles, etc. Most rooms have this type.
    Normal,
    /// Challenge rooms can appear on any level and provide the player with some reward if they
    /// overcome all the enemies in that room without dying
    Challenge,
    /// The room that the player should spawn in at the start of the game. Should only exist
    /// on the first level. No ToNextLevel or ToPrevLevel tiles should be in this room.
    /// Enemies should also not be placed in this room.
    PlayerStart,
    /// The goal of the game. Entering this game means the player has won. Should only exist on
    /// the very last level. No ToNextLevel or ToPrevLevel tiles should be in this room.
    /// Enemies should also not be placed in this room.
    TreasureChamber,
}

/// A "room" on the map separated from other rooms by walls/entrances. Rooms are allowed
/// to overlap, so the boundary of the room only represents the extent of where tiles may be within
/// the room. Not all tiles within the boundary are guaranteed to be part of this particular room.
#[derive(Debug, Clone, Copy, PartialEq, Eq, Structural)]
pub struct Room {
    pub rtype: RoomType,
    pub boundary: TileRect,
}

impl Room {
    /// The room after `become_player_start` (when `player_start`) or `become_treasure_chamber`
    pub open spec fn changed(self, player_start: bool) -> Room {
        Room {
            rtype: if player_start {
                RoomType::PlayerStart
            } else {
                RoomType::TreasureChamber
            },
            ..self
        }
    }

    /// The room after a sequence of changes of its type, applied in order: `true` stands for a
    /// call of `become_player_start`, `false` for one of `become_treasure_chamber`
    pub open spec fn after_changes(self, calls: Seq<bool>) -> Room
        decreases calls.len(),
    {
        if calls.len() == 0 {
            self
        } else {
            self.after_changes(calls.drop_last()).changed(calls.last())
        }
    }

    /// Create a new normal room
    pub fn new(boundary: TileRect) -> (r: Self)
        ensures
            r.rtype == RoomType::Normal,
            r.boundary == boundary,
    {
        Room { rtype: RoomType::Normal, boundary }
    }

    pub fn room_type(&self) -> (r: RoomType)
        ensures
            r == self.rtype,
    {
        self.rtype
    }

    /// The rectangular boundary of the room. Since rooms are allowed to overlap, all tiles within
    /// this boundary may not be part of this room.
    pub fn boundary(&self) -> (r: &TileRect)
        ensures
            *r == self.boundary,
    {
        &self.boundary
    }

    /// Returns true if a room is allowed to contain ToNextLevel tiles
    pub fn can_contain_to_next_level(&self) -> (r: bool)
        ensures
            r == (self.rtype == RoomType::Normal),
    {
        match self.rtype {
            RoomType::Normal => true,
            _ => false,
        }
    }

    /// Returns true if a room is allowed to contain ToPrevLevel tiles
    pub fn can_contain_to_prev_level(&self) -> (r: bool)
        ensures
            r == (self.rtype == RoomType::Normal),
    {
        // currently the same as the rooms that can contain ToNextLevel
        self.can_contain_to_next_level()
    }

    /// Returns true if enemies may be generated in this room: neither in the room where the
    /// player starts nor in the treasure chamber
    pub fn can_generate_enemies(&self) -> (r: bool)
        ensures
            r == (self.rtype == RoomType::Normal || self.rtype == RoomType::Challenge),
    {
        match self.rtype {
            RoomType::Normal | RoomType::Challenge => true,
            _ => false,
        }
    }

    /// Returns true if this room is the room that the player starts in
    pub fn is_player_start(&self) -> (r: bool)
        ensures
            r == (self.rtype == RoomType::PlayerStart),
    {
        match self.rtype {
            RoomType::PlayerStart => true,
            _ => false,
        }
    }

    /// Turns this room into the player start room
    pub fn become_player_start(&mut self)
        ensures
            final(self).rtype == RoomType::PlayerStart,
            final(self).boundary == old(self).boundary,
            *final(self) == old(self).changed(true),
    {
        self.rtype = RoomType::PlayerStart;
    }

    /// Turns this room into the treasure chamber
    pub fn become_treasure_chamber(&mut self)
        ensures
            final(self).rtype == RoomType::TreasureChamber,
            final(self).boundary == old(self).boundary,
            *final(self) == old(self).changed(false),
    {
        self.rtype = RoomType::TreasureChamber;
    }
}

/// A new room changes its type only when asked to: after any sequence of calls of
/// `become_player_start` and `become_treasure_chamber` it is a normal room if there were none, and
/// otherwise of the type the last call gave it. Changing the type never moves or resizes the
/// room's boundary.
pub proof fn lemma_room_type_changes(boundary: TileRect, calls: Seq<bool>)
    ensures
        (Room { rtype: RoomType::Normal, boundary }).after_changes(calls).rtype == (if calls.len() == 0 {
            RoomType::Normal
        } else if calls.last() {
            RoomType::PlayerStart
        } else {
            RoomType::TreasureChamber
        }),
        (Room { rtype: RoomType::Normal, boundary }).after_changes(calls).boundary == boundary,
    decreases calls.len(),
{
    if calls.len() > 0 {
        lemma_room_type_changes(boundary, calls.drop_last());
    }
}

} // verus!
