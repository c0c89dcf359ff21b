//! A generated game: its levels and the level the player is on
use vstd::prelude::*;

use crate::floor_map::FloorMap;
use crate::generator::rooms::rooms_inside;
use crate::geometry::{MAX_POSITION, Point};
use crate::map_key::MapKey;
use crate::room::{Room, RoomId, RoomType};
use crate::tile_pos::TilePos;

verus! {

/// The levels of a game, generated from its key
#[derive(Debug, Clone)]
pub struct Game {
    pub(crate) key: MapKey,
    pub(crate) levels: Vec<FloorMap>,
    pub(crate) current_level: usize,
}

impl Game {
    pub closed spec fn spec_key(&self) -> MapKey {
        self.key
    }

    pub closed spec fn spec_levels(&self) -> Seq<FloorMap> {
        self.levels@
    }

    pub closed spec fn spec_current_level(&self) -> usize {
        self.current_level
    }

    /// A game of the given levels, starting on the first
    pub fn new(key: MapKey, levels: Vec<FloorMap>) -> (r: Game)
        ensures
            r.spec_key() == key,
            r.spec_levels() == levels@,
            r.spec_current_level() == 0,
    {
        Game { key, levels, current_level: 0 }
    }

    /// The key that the game was generated from
    pub fn key(&self) -> (r: MapKey)
        ensures
            r == self.spec_key(),
    {
        self.key
    }

    /// Returns the current level
    pub fn current_level(&self) -> (r: &FloorMap)
        requires
            self.spec_current_level() < self.spec_levels().len(),
        ensures
            *r == self.spec_levels()[self.spec_current_level() as int],
    {
        &self.levels[self.current_level]
    }

    /// Advances to the next level. There must be a next level.
    pub fn to_next_level(&mut self)
        requires
            old(self).spec_current_level() + 1 < old(self).spec_levels().len(),
        ensures
            final(self).spec_current_level() == old(self).spec_current_level() + 1,
            final(self).spec_levels() == old(self).spec_levels(),
            final(self).spec_key() == old(self).spec_key(),
    {
        let n = self.levels.len();
        assert(self.current_level + 1 < n);
        self.current_level += 1;
    }

    /// Goes back to the previous level. There must be a previous level.
    pub fn to_prev_level(&mut self)
        requires
            old(self).spec_current_level() > 0,
        ensures
            final(self).spec_current_level() == old(self).spec_current_level() - 1,
            final(self).spec_levels() == old(self).spec_levels(),
            final(self).spec_key() == old(self).spec_key(),
    {
        self.current_level -= 1;
    }

    /// Returns the game levels
    pub fn levels(&self) -> (r: &Vec<FloorMap>)
        ensures
            r@ == self.spec_levels(),
    {
        &self.levels
    }

    /// The ID of the first room of the first level that is the player's start room, if any
    pub open spec fn start_room(&self) -> Option<int> {
        let rooms = self.spec_levels()[0].spec_rooms();
        if exists|k: int| 0 <= k < rooms.len() && (#[trigger] rooms[k]).rtype == RoomType::PlayerStart {
            Some(choose|k: int| 0 <= k < rooms.len() && (#[trigger] rooms[k]).rtype == RoomType::PlayerStart && forall|j: int|
                0 <= j < k ==> rooms[j].rtype != RoomType::PlayerStart)
        } else {
            None
        }
    }

    /// The first level's grid and tile size fit world coordinates, and it has a player's start
    /// room whose center is a floor tile of that room
    pub open spec fn has_start(&self) -> bool {
        &&& self.fits()
        &&& self.start_room() matches Some(k) && {
            let level = self.spec_levels()[0];
            let center = level.spec_rooms()[k].boundary.spec_center();
            &&& level.spec_grid().in_bounds(center)
            &&& level.spec_grid().tile(center).spec_is_room_floor(RoomId(k as usize))
        }
    }

    /// The first level's grid and tile size fit world coordinates
    pub open spec fn fits(&self) -> bool {
        &&& self.spec_levels().len() >= 1
        &&& self.spec_levels()[0].fits_world()
        &&& self.spec_levels()[0].spec_tile_size() <= MAX_POSITION
        &&& rooms_inside(self.spec_levels()[0])
    }

    /// Returns the ID of the first room of the first level that is the player's start room, if any
    fn find_start_room(&self) -> (r: Option<usize>)
        requires
            self.spec_levels().len() >= 1,
        ensures
            r matches Some(k) ==> self.start_room() == Some(k as int) && k < self.spec_levels()[0].spec_rooms().len(),
            r is None ==> self.start_room() is None,
    {
        let rooms = self.levels[0].rooms();
        let ghost rs = self.spec_levels()[0].spec_rooms();
        let mut k: usize = 0;
        while k < rooms.len()
            invariant
                rooms@ == self.spec_levels()[0].spec_rooms_with_ids(),
                rs == self.spec_levels()[0].spec_rooms(),
                k <= rooms@.len(),
                forall|j: int| 0 <= j < k ==> rs[j].rtype != RoomType::PlayerStart,
            decreases rooms@.len() - k,
        {
            if rooms[k].1.is_player_start() {
                proof {
                    assert(rs[k as int].rtype == RoomType::PlayerStart);
                    let c = choose|c: int| 0 <= c < rs.len() && (#[trigger] rs[c]).rtype == RoomType::PlayerStart && forall|j: int|
                        0 <= j < c ==> rs[j].rtype != RoomType::PlayerStart;
                    if c < k {
                    } else if c > k {
                        assert(rs[k as int].rtype != RoomType::PlayerStart);
                    }
                }
                return Some(k);
            }
            k += 1;
        }
        None
    }

    /// Returns true if the game has a point where it starts: a player's start room on the first
    /// level whose center is a floor tile of that room
    pub fn check_start(&self) -> (r: bool)
        requires
            self.fits(),
        ensures
            r == self.has_start(),
    {
        match self.find_start_room() {
            Some(k) => {
                let level = &self.levels[0];
                assert(crate::generator::rooms::valid_room_rect(level.spec_rooms()[k as int].boundary));
                let center = level.room(RoomId(k)).boundary().center_tile();
                center.row < level.grid().rows_len() && center.col < level.grid().cols_len() && level.grid().get(center).is_room_floor(RoomId(k))
            },
            None => false,
        }
    }

    /// Return the point that represents the start of the game: the middle of the center tile of
    /// the player's start room. This point is always on the first level and the player should only
    /// be spawned at this point on the first level.
    pub fn game_start(&self) -> (r: Point)
        requires
            self.has_start(),
        ensures
            self.start_room() matches Some(k) && {
                let level = self.spec_levels()[0];
                let ts = level.spec_tile_size() as int;
                let center = level.spec_rooms()[k].boundary.spec_center();
                r == Point::spec_new(center.col * ts, center.row * ts).spec_offset(ts / 2, ts / 2)
            },
    {
        let k = match self.find_start_room() {
            Some(k) => k,
            None => 0,
        };
        let first_level = &self.levels[0];
        assert(crate::generator::rooms::valid_room_rect(first_level.spec_rooms()[k as int].boundary));
        let center = first_level.room(RoomId(k)).boundary().center_tile();
        let tile_size = first_level.tile_size();
        proof {
            let g = first_level.spec_grid();
            assert(center.col * tile_size <= g.ncols() * tile_size) by (nonlinear_arith)
                requires
                    center.col < g.ncols(),
            ;
            assert(center.row * tile_size <= g.nrows() * tile_size) by (nonlinear_arith)
                requires
                    center.row < g.nrows(),
            ;
        }
        let ts = tile_size as i32;
        // Start in the middle of the tile
        center.to_point(ts).offset(ts / 2, ts / 2)
    }
}

} // verus!
