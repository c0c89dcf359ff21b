//! The level generator. Levels are generated in phases (rooms, doorways, stairs, sprites), each
//! kept in a module of its own; all of them share the configuration in `GameGenerator`.

pub mod bounds;
pub mod doorways;
pub mod enemies;
pub mod place_items;
pub mod rooms;
pub mod sprite_patterns;

use vstd::prelude::*;

use rand::rngs::StdRng;

use crate::floor_map::FloorMap;
use crate::game::Game;
use crate::geometry::MAX_POSITION;
use crate::grid_size::GridSize;
use crate::map_key::MapKey;
use crate::random::{gen_seed, std_rng_from_seed};
use crate::tile::Tile;
use crate::tile_pos::TilePos;
use crate::tile_rect::MAX_RECT_VALUE;

use self::bounds::Bounds;
use self::place_items::{has_stairs, stairs_placed};
use self::rooms::{all_linked, boundaries, good_room_rect, is_treasure_choice, none_beside, normal_rooms, rooms_inside};
use self::sprite_patterns::torch_spot;

verus! {

/// Represents when we have run out of attempts to generate the map from a given key.
/// This can happen if a loop trying to generate something runs too many times.
#[derive(Debug, Clone, Copy, PartialEq, Eq, Structural)]
pub struct RanOutOfAttempts;

/// A fraction `numer / denom` between zero and one, used as a share of an area
#[derive(Debug, Clone, Copy, PartialEq, Eq, Structural)]
pub struct Fraction {
    pub numer: u64,
    pub denom: u64,
}

impl Fraction {
    /// `part / whole` is larger than this fraction
    pub open spec fn spec_is_exceeded_by(self, part: int, whole: int) -> bool {
        part * self.denom > self.numer * whole
    }

    /// Returns true if `part / whole` is larger than this fraction
    pub fn is_exceeded_by(&self, part: usize, whole: usize) -> (r: bool)
        ensures
            r == self.spec_is_exceeded_by(part as int, whole as int),
    {
        let p: u128 = part as u128;
        let d: u128 = self.denom as u128;
        let n: u128 = self.numer as u128;
        let w: u128 = whole as u128;
        proof {
            assert(p * d <= 0xffff_ffff_ffff_ffff * 0xffff_ffff_ffff_ffffu128) by (nonlinear_arith)
                requires
                    p <= 0xffff_ffff_ffff_ffffu128,
                    d <= 0xffff_ffff_ffff_ffffu128,
            ;
            assert(n * w <= 0xffff_ffff_ffff_ffff * 0xffff_ffff_ffff_ffffu128) by (nonlinear_arith)
                requires
                    n <= 0xffff_ffff_ffff_ffffu128,
                    w <= 0xffff_ffff_ffff_ffffu128,
            ;
        }
        let lhs: u128 = p * d;
        let rhs: u128 = n * w;
        lhs > rhs
    }
}

impl Fraction {
    /// This fraction of `n`, rounded down
    pub open spec fn spec_part_of(self, n: int) -> int {
        n * self.numer / self.denom as int
    }

    /// Returns this fraction of `n`, rounded down
    pub fn part_of(&self, n: usize) -> (r: usize)
        requires
            self.denom > 0,
            self.numer <= self.denom,
        ensures
            r == self.spec_part_of(n as int),
    {
        let p: u128 = n as u128;
        let q: u128 = self.numer as u128;
        proof {
            assert(p * q <= 0xffff_ffff_ffff_ffff * 0xffff_ffff_ffff_ffffu128) by (nonlinear_arith)
                requires
                    p <= 0xffff_ffff_ffff_ffffu128,
                    q <= 0xffff_ffff_ffff_ffffu128,
            ;
            assert(p * q / (self.denom as int) <= p) by (nonlinear_arith)
                requires
                    q <= self.denom,
                    self.denom > 0,
                    p >= 0,
            ;
        }
        let r: u128 = (p * q) / (self.denom as u128);
        r as usize
    }
}

/// The configuration of the level generator
#[derive(Debug, Clone, Copy)]
pub struct GameGenerator {
    /// The number of attempts before giving up on placing something randomly
    ///
    /// After this many attempts, the level generator will give up and generate a new seed based
    /// on the same MapKey. This is still deterministic because we are only using the random
    /// number generator seeded by the key.
    pub attempts: usize,
    /// The number of levels to generate
    pub levels: usize,
    /// The number of rows of tiles in the entire world (bound on the size of the map)
    pub rows: usize,
    /// The number of columns of tiles in the entire world (bound on the size of the map)
    pub cols: usize,
    /// The width and height of each tile in pixels
    pub tile_size: u32,
    /// The minimum and maximum number of rooms to generate on each floor
    pub rooms: Bounds,
    /// The minimum and maximum height (in tiles) of a room
    pub room_rows: Bounds,
    /// The minimum and maximum width (in tiles) of a room
    pub room_cols: Bounds,
    /// The largest share of the area of a room that another room may overlap
    pub max_overlap: Fraction,
    /// The min/max number of doors to give every room
    pub doors: Bounds,
    /// The number of tiles that take you to the next level/prev level.
    /// This will create `next_prev_tiles` number of ToNextLevel tiles and
    /// `next_prev_tiles` number of ToPrevLevel tiles
    pub next_prev_tiles: usize,
}

impl GameGenerator {
    /// The configuration describes maps that can be built: a map of at least one tile whose pixel
    /// size fits world coordinates, at least one room per level, room sizes of at least one tile
    /// that fit the map's limits, ranges that values can be drawn from, a count of attempts that
    /// can be counted past, and an overlap fraction with a non-zero denominator
    pub open spec fn wf(&self) -> bool {
        &&& 1 <= self.rows <= MAX_RECT_VALUE
        &&& 1 <= self.cols <= MAX_RECT_VALUE
        &&& self.rows * self.cols <= usize::MAX
        &&& 0 < self.tile_size
        &&& self.rows * self.tile_size <= MAX_POSITION
        &&& self.cols * self.tile_size <= MAX_POSITION
        &&& self.attempts < usize::MAX
        &&& self.levels < usize::MAX
        &&& self.rooms.can_gen()
        &&& 1 <= self.rooms.min
        &&& self.room_rows.can_gen()
        &&& 1 <= self.room_rows.min
        &&& self.room_rows.max <= MAX_RECT_VALUE
        &&& self.room_cols.can_gen()
        &&& 1 <= self.room_cols.min
        &&& self.room_cols.max <= MAX_RECT_VALUE
        &&& 0 < self.max_overlap.denom
    }
}

impl GameGenerator {
    /// What holds of a level generated by this configuration: its size, at least the minimum
    /// number of rooms, all inside the map with sizes within the bounds, all joined to each other
    /// through overlapping rooms and none right beside another; the player's start room on the
    /// first level and the treasure chamber on the last; and the stairs of every ID down to the
    /// next level (on all but the last level) and up to the previous one (on all but the first)
    pub open spec fn level_ok(&self, map: FloorMap, level: usize) -> bool {
        &&& map.spec_grid().wf()
        &&& map.spec_grid().nrows() == self.rows
        &&& map.spec_grid().ncols() == self.cols
        &&& map.spec_tile_size() == self.tile_size
        &&& map.spec_rooms().len() >= self.rooms.min
        &&& rooms_inside(map)
        &&& forall|k: int| 0 <= k < map.spec_rooms().len() ==> good_room_rect(*self, #[trigger] map.spec_rooms()[k].boundary)
        &&& all_linked(boundaries(map.spec_rooms()))
        &&& none_beside(boundaries(map.spec_rooms()))
        &&& exists|s: int, t: int|
            #![trigger self.special_rooms(normal_rooms(map.spec_rooms()), level, s, t)]
            0 <= s < map.spec_rooms().len() && 0 <= t < map.spec_rooms().len() && (level == self.levels ==> is_treasure_choice(
                self.start_rooms(normal_rooms(map.spec_rooms()), level, s),
                t,
            )) && map.spec_rooms() == self.special_rooms(normal_rooms(map.spec_rooms()), level, s, t)
        &&& level < self.levels ==> stairs_placed(map.spec_grid(), true, self.next_prev_tiles)
        &&& level > 1 ==> stairs_placed(map.spec_grid(), false, self.next_prev_tiles)
    }

    /// What holds of a game generated by this configuration from the given key: one level per
    /// configured level, each as `level_ok` describes, starting on the first
    pub open spec fn game_ok(&self, game: Game, key: MapKey) -> bool {
        &&& game.spec_key() == key
        &&& game.spec_levels().len() == self.levels
        &&& game.spec_current_level() == 0
        &&& forall|i: int| 0 <= i < game.spec_levels().len() ==> self.level_ok(#[trigger] game.spec_levels()[i], (i + 1) as usize)
    }

    /// Returns false if a wall of the map holds an object
    pub fn validate_map(&self, map: &FloorMap) -> (r: bool)
        requires
            map.spec_grid().wf(),
            map.spec_grid().nrows() * map.spec_grid().ncols() <= usize::MAX,
        ensures
            r == forall|p: TilePos| #[trigger] map.spec_grid().in_bounds(p) ==> self.spec_valid_tile(map.spec_grid().tile(p)),
    {
        let grid = map.grid();
        let positions = grid.tile_positions();
        let mut k: usize = 0;
        while k < positions.len()
            invariant
                *grid == map.spec_grid(),
                grid.wf(),
                forall|m: int| 0 <= m < k ==> self.spec_valid_tile(grid.tile(#[trigger] positions@[m])),
                k <= positions@.len(),
                positions@.len() == grid.nrows() * grid.ncols(),
                forall|i: int, j: int|
                    0 <= i < grid.nrows() && 0 <= j < grid.ncols() ==> #[trigger] positions@[i * grid.ncols() + j] == (TilePos {
                        row: i as usize,
                        col: j as usize,
                    }),
            decreases positions@.len() - k,
        {
            proof {
                lemma_position_in_grid(grid, k as int);
                let c = grid.ncols() as int;
                let i = k as int / c;
                let j = k as int % c;
                assert(positions@[i * grid.ncols() + j] == TilePos { row: i as usize, col: j as usize });
            }
            if !self.validate_tile(grid.get(positions[k])) {
                proof {
                    assert(grid.in_bounds(positions@[k as int]));
                }
                return false;
            }
            k += 1;
        }
        proof {
            assert forall|p: TilePos| #[trigger] grid.in_bounds(p) implies self.spec_valid_tile(grid.tile(p)) by {
                let m = p.row * grid.ncols() + p.col;
                assert(0 <= m < grid.nrows() * grid.ncols()) by (nonlinear_arith)
                    requires
                        p.row < grid.nrows(),
                        p.col < grid.ncols(),
                        m == p.row * grid.ncols() + p.col,
                ;
                assert(positions@[m] == p);
            }
        }
        true
    }

    /// A wall holds no object
    pub open spec fn spec_valid_tile(&self, tile: Tile) -> bool {
        !(tile.spec_is_wall() && tile.spec_has_object())
    }

    /// Returns false if the tile is a wall that holds an object
    pub fn validate_tile(&self, tile: &Tile) -> (r: bool)
        ensures
            r == self.spec_valid_tile(*tile),
    {
        !(tile.is_wall() && tile.has_object())
    }
}

impl GameGenerator {
    /// Generates one level. Levels are generated in phases: the rooms, the doorways between them,
    /// the stairs down to the next level (on all but the last level) and up to the previous level
    /// (on all but the first), and finally the sprites of the walls.
    pub fn generate_level(&self, rng: &mut StdRng, level: usize) -> (r: Result<FloorMap, RanOutOfAttempts>)
        requires
            self.wf(),
        ensures
            r matches Ok(map) ==> self.level_ok(map, level),
    {
        let mut map = FloorMap::new(GridSize { rows: self.rows, cols: self.cols }, self.tile_size);
        match self.generate_rooms(rng, &mut map, level) {
            Ok(()) => {},
            Err(e) => return Err(e),
        }
        let ghost rooms = map.spec_rooms();
        self.connect_rooms(rng, &mut map);
        let ghost g1 = map.spec_grid();
        if level < self.levels {
            match self.place_to_next_level_tiles(rng, &mut map) {
                Ok(()) => {},
                Err(e) => return Err(e),
            }
        }
        let ghost g2 = map.spec_grid();
        if level > 1 {
            match self.place_to_prev_level_tiles(rng, &mut map) {
                Ok(()) => {},
                Err(e) => return Err(e),
            }
        }
        let ghost g3 = map.spec_grid();
        proof {
            if level < self.levels {
                assert forall|id: usize| id < self.next_prev_tiles implies #[trigger] place_items::stairs_exist(g3, true, id) by {
                    assert(place_items::stairs_exist(g2, true, id));
                    let p = choose|p: TilePos| g2.in_bounds(p) && #[trigger] place_items::has_stairs_id(g2.tile(p), true, id);
                    assert(has_stairs(g2.tile(p)));
                    assert(g3.in_bounds(p));
                }
            }
        }
        self.layout_floor_wall_sprites(rng, &mut map);
        proof {
            let g4 = map.spec_grid();
            assert forall|to_next: bool, id: usize| #[trigger] place_items::stairs_exist(g3, to_next, id) implies place_items::stairs_exist(
                g4,
                to_next,
                id,
            ) by {
                let p = choose|p: TilePos| g3.in_bounds(p) && #[trigger] place_items::has_stairs_id(g3.tile(p), to_next, id);
                assert(g4.in_bounds(p));
                assert(!g3.tile(p).spec_is_wall());
                assert(!torch_spot(g3, p));
            }
            if level < self.levels {
                assert forall|id: usize| id < self.next_prev_tiles implies #[trigger] place_items::stairs_exist(g4, true, id) by {
                    assert(place_items::stairs_exist(g3, true, id));
                }
            }
            if level > 1 {
                assert forall|id: usize| id < self.next_prev_tiles implies #[trigger] place_items::stairs_exist(g4, false, id) by {
                    assert(place_items::stairs_exist(g3, false, id));
                }
            }
        }
        // Walls never hold objects, so the map always passes validation
        let valid = self.validate_map(&map);
        proof {
            assert(valid);
        }
        Ok(map)
    }

    /// Generates a whole game from a key. Each level gets a generator of its own, seeded from the
    /// key's generator, so that the game depends on the key alone as long as the random number
    /// generator gives the same numbers for the same seed; that is not proved here, since the
    /// generator's own documentation does not promise it across builds. When a level runs out of
    /// attempts, the key's generator is reseeded from itself and all levels are generated again;
    /// after ten such rounds the generation gives up.
    pub fn generate_with_key(&self, key: MapKey) -> (r: Result<Game, RanOutOfAttempts>)
        requires
            self.wf(),
        ensures
            r matches Ok(game) ==> self.game_ok(game, key),
    {
        let mut rng = key.to_rng();
        let mut round: usize = 0;
        while round < 10
            invariant
                self.wf(),
            decreases 10 - round,
        {
            round += 1;
            let mut seeds: Vec<[u8; 32]> = Vec::new();
            let mut level: usize = 1;
            while level <= self.levels
                invariant
                    self.wf(),
                    1 <= level <= self.levels + 1,
                    seeds@.len() == level - 1,
                decreases self.levels + 1 - level,
            {
                seeds.push(gen_seed(&mut rng));
                level += 1;
            }
            let mut levels: Vec<FloorMap> = Vec::new();
            let mut failed = false;
            let mut level: usize = 1;
            while level <= self.levels && !failed
                invariant
                    self.wf(),
                    1 <= level <= self.levels + 1,
                    seeds@.len() == self.levels,
                    !failed ==> levels@.len() == level - 1,
                    forall|i: int| 0 <= i < levels@.len() ==> self.level_ok(#[trigger] levels@[i], (i + 1) as usize),
                decreases self.levels + 1 - level + if failed { 0int } else { 1int },
            {
                let mut level_rng = std_rng_from_seed(seeds[level - 1]);
                match self.generate_level(&mut level_rng, level) {
                    Ok(map) => {
                        levels.push(map);
                        level += 1;
                    },
                    Err(_) => {
                        failed = true;
                    },
                }
            }
            if !failed {
                let game = Game::new(key, levels);
                return Ok(game);
            }
            // Reseed the rng using itself
            rng = std_rng_from_seed(gen_seed(&mut rng));
        }
        Err(RanOutOfAttempts)
    }

    /// Generates a game from a random key
    pub fn generate(&self) -> (r: Result<Game, RanOutOfAttempts>)
        requires
            self.wf(),
        ensures
            r matches Ok(game) ==> self.game_ok(game, game.spec_key()),
    {
        self.generate_with_key(MapKey::random())
    }
}

/// Stairs join the levels of a generated game: each ID of stairs down on a level has stairs up
/// with the same ID on the next level
pub proof fn lemma_stairs_join_levels(g: GameGenerator, game: Game, key: MapKey, i: int, id: usize)
    requires
        g.game_ok(game, key),
        0 <= i,
        i + 1 < game.spec_levels().len(),
        id < g.next_prev_tiles,
    ensures
        place_items::stairs_exist(game.spec_levels()[i].spec_grid(), true, id),
        place_items::stairs_exist(game.spec_levels()[i + 1].spec_grid(), false, id),
{
    assert(g.level_ok(game.spec_levels()[i], (i + 1) as usize));
    assert(g.level_ok(game.spec_levels()[i + 1], (i + 2) as usize));
}

/// The rooms of every level of a generated game are joined to each other through overlapping
/// rooms
pub proof fn lemma_levels_connected(g: GameGenerator, game: Game, key: MapKey, i: int)
    requires
        g.game_ok(game, key),
        0 <= i < game.spec_levels().len(),
    ensures
        all_linked(boundaries(game.spec_levels()[i].spec_rooms())),
{
    assert(g.level_ok(game.spec_levels()[i], (i + 1) as usize));
}

/// The `k`th position of the grid, row by row, lies in the grid
proof fn lemma_position_in_grid(grid: &crate::grid::TileGrid, k: int)
    requires
        grid.wf(),
        0 <= k < grid.nrows() * grid.ncols(),
    ensures
        grid.in_bounds(TilePos { row: (k / grid.ncols() as int) as usize, col: (k % grid.ncols() as int) as usize }),
        k == (k / grid.ncols() as int) * grid.ncols() + k % grid.ncols() as int,
{
    let c = grid.ncols() as int;
    vstd::arithmetic::div_mod::lemma_fundamental_div_mod(k, c);
    assert(k / c < grid.nrows()) by (nonlinear_arith)
        requires
            0 <= k < grid.nrows() * c,
            c >= 1,
            k == c * (k / c) + k % c,
            0 <= k % c < c,
    ;
    assert(0 <= k / c) by (nonlinear_arith)
        requires
            0 <= k,
            c >= 1,
    ;
    assert((k / c) * c == c * (k / c)) by (nonlinear_arith);
}

} // verus!
