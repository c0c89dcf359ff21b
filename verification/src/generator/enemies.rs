//! Choosing where the enemies of a level start, and which enemies they are
use vstd::prelude::*;

use rand::rngs::StdRng;

use crate::components::{AnimationManager, BoundingBox};
use crate::floor_map::FloorMap;
use crate::generator::{Fraction, GameGenerator, RanOutOfAttempts};
use crate::generator::bounds::Bounds;
use crate::generator::rooms::{rooms_inside, valid_room_rect};
use crate::geometry::{MAX_POSITION, Point};
use crate::graph::count_true;
use crate::grid::{lemma_adjacent_in_bounds, TileGrid};
use crate::random::choose_item;
use crate::room::{Room, RoomId, RoomType};
use crate::tile_pos::TilePos;
use crate::tile_rect::TileRect;

verus! {

/// Each type of enemy
#[derive(Debug, Clone, Copy, PartialEq, Eq, Structural)]
pub enum EnemyType {
    Rat,
}

/// The stats + animations for one enemy
#[derive(Debug, Clone)]
pub struct EnemyValues {
    pub animations: AnimationManager,
    /// unit: HP
    pub attack: usize,
    /// movements per second
    pub speed: i32,
    /// unit: HP
    pub health_points: usize,
    /// unit: frames
    pub hit_wait: usize,
    pub bounding_box: BoundingBox,
}

impl EnemyValues {
    /// The same stats and animations as `other`
    pub open spec fn same_as(&self, other: &EnemyValues) -> bool {
        &&& self.animations.same_as(&other.animations)
        &&& self.attack == other.attack
        &&& self.speed == other.speed
        &&& self.health_points == other.health_points
        &&& self.hit_wait == other.hit_wait
        &&& self.bounding_box == other.bounding_box
    }

    /// A copy of the values
    pub fn duplicate(&self) -> (r: Self)
        ensures
            r.same_as(self),
    {
        EnemyValues {
            animations: self.animations.duplicate(),
            attack: self.attack,
            speed: self.speed,
            health_points: self.health_points,
            hit_wait: self.hit_wait,
            bounding_box: self.bounding_box,
        }
    }
}

/// Configuration for each type of enemy
#[derive(Debug, Clone)]
pub struct EnemyConfig {
    pub rat: EnemyValues,
    /// The choices for enemies to be generated on each level (the first list for the first level).
    /// There must be as many lists as levels.
    pub levels: Vec<Vec<EnemyType>>,
}

impl EnemyConfig {
    /// The values configured for the given type of enemy
    pub open spec fn spec_values(&self, enemy: EnemyType) -> EnemyValues {
        match enemy {
            EnemyType::Rat => self.rat,
        }
    }

    /// Returns the values for the enemy of the given type
    pub fn values(&self, enemy: EnemyType) -> (r: EnemyValues)
        ensures
            r.same_as(&self.spec_values(enemy)),
    {
        match enemy {
            EnemyType::Rat => self.rat.duplicate(),
        }
    }

    /// Generates a random enemy for the given level (levels start at 1): one of the types
    /// configured for that level. There must be a non-empty list of types for the level.
    pub fn random_enemy(&self, rng: &mut StdRng, level: usize) -> (r: EnemyValues)
        requires
            1 <= level <= self.levels@.len(),
            self.levels@[level - 1]@.len() >= 1,
        ensures
            exists|t: EnemyType| self.levels@[level - 1]@.contains(t) && r.same_as(&self.spec_values(t)),
    {
        let types = &self.levels[level - 1];
        let enemy_type = match choose_item(types, rng) {
            Some(t) => t,
            None => EnemyType::Rat,
        };
        self.values(enemy_type)
    }
}

/// Where an enemy starts and which enemy it is
#[derive(Debug, Clone)]
pub struct EnemySpawn {
    /// The tile the enemy starts on
    pub tile: TilePos,
    /// The point in world coordinates the enemy starts at: the middle of its tile
    pub position: Point,
    pub values: EnemyValues,
}

/// Enemies may be generated in rooms of this type: normal rooms and challenge rooms
pub open spec fn can_have_enemies(t: RoomType) -> bool {
    t == RoomType::Normal || t == RoomType::Challenge
}

/// The room may hold enemies: enemies may be generated in it and it has inner tiles
pub open spec fn enemy_room(room: Room) -> bool {
    &&& can_have_enemies(room.rtype)
    &&& room.boundary.dim.rows >= 3
    &&& room.boundary.dim.cols >= 3
}

/// No enemy can be generated: no room may hold enemies, or the share of a room's floor that
/// enemies may take, or the most enemies a room may get, is zero
pub open spec fn no_enemies_possible(map: FloorMap, room_enemies: Bounds, max_room_enemy_area: Fraction) -> bool {
    ||| forall|k: int| 0 <= k < map.spec_rooms().len() ==> !enemy_room(#[trigger] map.spec_rooms()[k])
    ||| max_room_enemy_area.numer == 0
    ||| room_enemies.max == 0
}

/// The number of floor tiles of the given room on the grid
pub open spec fn room_floor_count(grid: TileGrid, id: RoomId) -> nat {
    count_true(Seq::new(grid.nrows() * grid.ncols(), |k: int|
        grid.tile(TilePos { row: (k / grid.ncols() as int) as usize, col: (k % grid.ncols() as int) as usize }).spec_is_room_floor(id)))
}

/// An enemy may start at `pos` in the room `id`: the tile is a floor tile of the room, not on the
/// room's edge, and no tile next to it is a wall or a room entrance
pub open spec fn enemy_spot(grid: TileGrid, rect: crate::tile_rect::TileRect, id: RoomId, pos: TilePos) -> bool {
    &&& rect.contains(pos)
    &&& !rect.on_edge(pos)
    &&& grid.in_bounds(pos)
    &&& grid.tile(pos).spec_is_room_floor(id)
    &&& forall|k: int| 0 <= k < grid.spec_adjacent_positions(pos).len() ==> {
        let q = #[trigger] grid.spec_adjacent_positions(pos)[k];
        !grid.tile(q).spec_is_wall() && !grid.spec_is_room_entrance(q)
    }
}

impl FloorMap {
    /// Returns the number of floor tiles of the given room
    pub fn room_exact_area(&self, room_id: RoomId) -> (r: usize)
        requires
            self.spec_grid().wf(),
            self.spec_grid().nrows() * self.spec_grid().ncols() <= usize::MAX,
        ensures
            r == room_floor_count(self.spec_grid(), room_id),
    {
        let grid = self.grid();
        let positions = grid.tile_positions();
        let ghost flags = Seq::new(grid.nrows() * grid.ncols(), |k: int|
            grid.tile(TilePos { row: (k / grid.ncols() as int) as usize, col: (k % grid.ncols() as int) as usize }).spec_is_room_floor(room_id));
        let mut count: usize = 0;
        let mut k: usize = 0;
        while k < positions.len()
            invariant
                *grid == self.spec_grid(),
                grid.wf(),
                positions@.len() == grid.nrows() * grid.ncols(),
                forall|i: int, j: int|
                    0 <= i < grid.nrows() && 0 <= j < grid.ncols() ==> #[trigger] positions@[i * grid.ncols() + j] == (TilePos {
                        row: i as usize,
                        col: j as usize,
                    }),
                flags == Seq::new(grid.nrows() * grid.ncols(), |m: int|
                    grid.tile(TilePos { row: (m / grid.ncols() as int) as usize, col: (m % grid.ncols() as int) as usize }).spec_is_room_floor(room_id)),
                k <= positions@.len(),
                count == count_true(flags.take(k as int)),
                count <= k,
            decreases positions@.len() - k,
        {
            proof {
                crate::generator::lemma_position_in_grid(grid, k as int);
                let c = grid.ncols() as int;
                let i = k as int / c;
                let j = k as int % c;
                assert(positions@[i * grid.ncols() + j] == TilePos { row: i as usize, col: j as usize });
                assert(flags.take(k + 1).drop_last() =~= flags.take(k as int));
            }
            if grid.get(positions[k]).is_room_floor(room_id) {
                count += 1;
            }
            k += 1;
        }
        assert(flags.take(flags.len() as int) =~= flags);
        count
    }
}

/// The tiles on which enemies of the room `id` start when they are put on the drawn tiles one
/// after the other: a drawn tile is taken when an enemy may start there and no enemy was put there
/// before
pub open spec fn accepted_spawns(grid: TileGrid, rect: TileRect, id: RoomId, draws: Seq<TilePos>) -> Seq<TilePos>
    decreases draws.len(),
{
    if draws.len() == 0 {
        Seq::empty()
    } else {
        let prev = accepted_spawns(grid, rect, id, draws.drop_last());
        let p = draws.last();
        if enemy_spot(grid, rect, id, p) && !prev.contains(p) {
            prev.push(p)
        } else {
            prev
        }
    }
}

/// The drawn tiles that are tried: the first `attempts + 1` of them
pub open spec fn tried_draws(draws: Seq<TilePos>, attempts: int) -> Seq<TilePos> {
    if draws.len() <= attempts + 1 {
        draws
    } else {
        draws.take(attempts + 1)
    }
}

/// The number of enemies a room gets: the number drawn, but no more than the room may hold
pub open spec fn enemy_count(drawn: int, limit: int) -> int {
    if drawn < limit {
        drawn
    } else {
        limit
    }
}

/// The most enemies the room `id` may hold: the given share of its floor tiles
pub open spec fn room_enemy_limit(map: FloorMap, id: RoomId, max_room_enemy_area: Fraction) -> int {
    max_room_enemy_area.spec_part_of(room_floor_count(map.spec_grid(), id) as int)
}

/// The tiles taken from the given draws for the room `id` of the map
pub open spec fn room_taken(map: FloorMap, id: RoomId, draws: Seq<TilePos>) -> Seq<TilePos> {
    accepted_spawns(map.spec_grid(), map.spec_rooms()[id.0 as int].boundary, id, draws)
}

/// `n` enemies is what a room gets for some number drawn within `room_enemies`: the number
/// drawn, but no more than `limit`
pub open spec fn drawn_enemy_count(n: int, room_enemies: Bounds, limit: int) -> bool {
    exists|d: int| #[trigger] room_enemies.holds(d) && n == enemy_count(d, limit)
}

/// The number of spawns that start on a floor tile of the room `id`
pub open spec fn spawns_in_room(spawns: Seq<EnemySpawn>, grid: TileGrid, id: RoomId) -> nat
    decreases spawns.len(),
{
    if spawns.len() == 0 {
        0
    } else {
        spawns_in_room(spawns.drop_last(), grid, id) + if grid.tile(spawns.last().tile).spec_is_room_floor(id) {
            1nat
        } else {
            0nat
        }
    }
}

/// Every taken tile is a place where an enemy may start, and no tile is taken twice
pub proof fn lemma_accepted_spots(grid: TileGrid, rect: TileRect, id: RoomId, s: Seq<TilePos>)
    ensures
        accepted_spawns(grid, rect, id, s).no_duplicates(),
        forall|k: int| 0 <= k < accepted_spawns(grid, rect, id, s).len() ==> enemy_spot(
            grid,
            rect,
            id,
            #[trigger] accepted_spawns(grid, rect, id, s)[k],
        ),
    decreases s.len(),
{
    if s.len() > 0 {
        lemma_accepted_spots(grid, rect, id, s.drop_last());
    }
}

/// The tiles taken from the first draws are the first tiles taken from all of them
pub proof fn lemma_accepted_prefix(grid: TileGrid, rect: TileRect, id: RoomId, s: Seq<TilePos>, a: int)
    requires
        0 <= a <= s.len(),
    ensures
        accepted_spawns(grid, rect, id, s.take(a)).len() <= accepted_spawns(grid, rect, id, s).len(),
        accepted_spawns(grid, rect, id, s).take(accepted_spawns(grid, rect, id, s.take(a)).len() as int)
            == accepted_spawns(grid, rect, id, s.take(a)),
    decreases s.len(),
{
    if a == s.len() {
        assert(s.take(a) =~= s);
    } else {
        let t = s.drop_last();
        assert(s.take(a) =~= t.take(a));
        lemma_accepted_prefix(grid, rect, id, t, a);
        let prev = accepted_spawns(grid, rect, id, t);
        let small = accepted_spawns(grid, rect, id, s.take(a));
        let full = accepted_spawns(grid, rect, id, s);
        assert(full.take(small.len() as int) =~= prev.take(small.len() as int));
    }
}

/// Returns true if an enemy may start at `pos` in the room `id`, whose boundary is `rect`, and
/// none of the tiles in `placed` is `pos`
fn spawn_allowed(grid: &TileGrid, rect: TileRect, id: RoomId, placed: &Vec<TilePos>, pos: TilePos) -> (r: bool)
    requires
        grid.wf(),
        valid_room_rect(rect),
    ensures
        r == (enemy_spot(*grid, rect, id, pos) && !placed@.contains(pos)),
{
    // Not an inner tile of the room
    if pos.row <= rect.top_left.row || pos.row >= rect.top_left.row + rect.dim.rows - 1 || pos.col
        <= rect.top_left.col || pos.col >= rect.top_left.col + rect.dim.cols - 1 {
        return false;
    }
    if pos.row >= grid.rows_len() || pos.col >= grid.cols_len() {
        return false;
    }
    // Tile where an enemy has already been put
    let mut k: usize = 0;
    while k < placed.len()
        invariant
            k <= placed@.len(),
            forall|m: int| 0 <= m < k ==> placed@[m] != pos,
        decreases placed@.len() - k,
    {
        if placed[k] == pos {
            return false;
        }
        k += 1;
    }
    // Not a tile in the right room
    if !grid.get(pos).is_room_floor(id) {
        return false;
    }
    // Though this is an "inner" tile, it may still be near a wall or entrance
    let adjacents = grid.adjacent_positions(pos);
    proof {
        lemma_adjacent_in_bounds(grid, pos);
    }
    let mut a: usize = 0;
    while a < adjacents.len()
        invariant
            grid.wf(),
            adjacents@ == grid.spec_adjacent_positions(pos),
            forall|q: int| 0 <= q < adjacents@.len() ==> #[trigger] grid.in_bounds(adjacents@[q]),
            a <= adjacents@.len(),
            forall|q: int| 0 <= q < a ==> !grid.tile(#[trigger] adjacents@[q]).spec_is_wall()
                && !grid.spec_is_room_entrance(adjacents@[q]),
        decreases adjacents@.len() - a,
    {
        if grid.get(adjacents[a]).is_wall() || grid.is_room_entrance(adjacents[a]) {
            return false;
        }
        a += 1;
    }
    true
}

impl GameGenerator {
    /// The tiles where the enemies of the room `room_id` start, given the number of enemies drawn
    /// for the room and the tiles drawn for them. The room gets as many enemies as were drawn,
    /// but at most `max_room_enemy_area` of its floor tiles; they start on the first drawn tiles
    /// where an enemy may start, one enemy per tile. Only the first `attempts + 1` drawn tiles are
    /// tried: when too few of them can be taken, the enemies do not fit and `RanOutOfAttempts`
    /// is returned.
    pub fn room_spawns(
        &self,
        map: &FloorMap,
        room_id: RoomId,
        max_room_enemy_area: Fraction,
        drawn_count: usize,
        drawn_tiles: &Vec<TilePos>,
    ) -> (r: Result<Vec<TilePos>, RanOutOfAttempts>)
        requires
            map.spec_grid().wf(),
            map.spec_grid().nrows() * map.spec_grid().ncols() <= usize::MAX,
            rooms_inside(*map),
            room_id.0 < map.spec_rooms().len(),
            self.attempts < usize::MAX,
            max_room_enemy_area.denom > 0,
            max_room_enemy_area.numer <= max_room_enemy_area.denom,
        ensures
            r is Ok <==> enemy_count(drawn_count as int, room_enemy_limit(*map, room_id, max_room_enemy_area))
                <= room_taken(*map, room_id, tried_draws(drawn_tiles@, self.attempts as int)).len(),
            r matches Ok(tiles) ==> tiles@ == room_taken(*map, room_id, tried_draws(drawn_tiles@, self.attempts as int)).take(
                enemy_count(drawn_count as int, room_enemy_limit(*map, room_id, max_room_enemy_area)),
            ),
    {
        let grid = map.grid();
        let rect = map.room(room_id).boundary;
        assert(valid_room_rect(map.spec_rooms()[room_id.0 as int].boundary));
        let area = map.room_exact_area(room_id);
        let max_enemies = max_room_enemy_area.part_of(area);
        let count = if drawn_count < max_enemies {
            drawn_count
        } else {
            max_enemies
        };
        let limit = if drawn_tiles.len() < self.attempts + 1 {
            drawn_tiles.len()
        } else {
            self.attempts + 1
        };
        let ghost tried = tried_draws(drawn_tiles@, self.attempts as int);
        let ghost g = map.spec_grid();
        assert(count == enemy_count(drawn_count as int, room_enemy_limit(*map, room_id, max_room_enemy_area)));
        assert(rect == map.spec_rooms()[room_id.0 as int].boundary);
        assert(tried =~= drawn_tiles@.take(limit as int));
        let mut placed: Vec<TilePos> = Vec::new();
        let mut a: usize = 0;
        assert(tried.take(0) =~= Seq::<TilePos>::empty());
        while placed.len() < count
            invariant
                *grid == g,
                g == map.spec_grid(),
                g.wf(),
                valid_room_rect(rect),
                rect == map.spec_rooms()[room_id.0 as int].boundary,
                count == enemy_count(drawn_count as int, room_enemy_limit(*map, room_id, max_room_enemy_area)),
                tried == tried_draws(drawn_tiles@, self.attempts as int),
                a <= limit,
                limit <= drawn_tiles@.len(),
                tried == drawn_tiles@.take(limit as int),
                placed@ == accepted_spawns(g, rect, room_id, tried.take(a as int)),
                placed@.len() <= count,
            decreases limit - a,
        {
            if a >= limit {
                proof {
                    assert(tried.take(a as int) =~= tried);
                }
                return Err(RanOutOfAttempts);
            }
            let pos = drawn_tiles[a];
            proof {
                assert(tried.take(a + 1).drop_last() =~= tried.take(a as int));
                assert(tried.take(a + 1).last() == pos);
            }
            if spawn_allowed(grid, rect, room_id, &placed, pos) {
                placed.push(pos);
            }
            a += 1;
        }
        proof {
            lemma_accepted_prefix(g, rect, room_id, tried, a as int);
        }
        Ok(placed)
    }

    /// Chooses where the enemies of a level start. In each room where enemies may be generated,
    /// a random number of enemies (within `room_enemies`, and at most `max_room_enemy_area` of the
    /// room's floor tiles) start on random inner tiles of the room that lie away from walls and
    /// entrances, one enemy per tile (see `room_spawns`). Rooms too small to have inner tiles get
    /// no enemies.
    pub fn add_enemies(
        &self,
        rng: &mut StdRng,
        map: &FloorMap,
        level: usize,
        room_enemies: Bounds,
        max_room_enemy_area: Fraction,
        enemy_config: &EnemyConfig,
    ) -> (r: Result<Vec<EnemySpawn>, RanOutOfAttempts>)
        requires
            map.spec_grid().wf(),
            map.spec_grid().nrows() * map.spec_grid().ncols() <= usize::MAX,
            rooms_inside(*map),
            map.fits_world(),
            map.spec_tile_size() <= MAX_POSITION,
            self.attempts < usize::MAX,
            room_enemies.can_gen(),
            max_room_enemy_area.denom > 0,
            max_room_enemy_area.numer <= max_room_enemy_area.denom,
            1 <= level <= enemy_config.levels@.len(),
            enemy_config.levels@[level - 1]@.len() >= 1,
        ensures
            r matches Ok(spawns) ==> forall|k: int| 0 <= k < spawns@.len() ==> {
                let s = #[trigger] spawns@[k];
                &&& exists|i: int| 0 <= i < map.spec_rooms().len() && can_have_enemies(map.spec_rooms()[i].rtype)
                    && enemy_spot(map.spec_grid(), map.spec_rooms()[i].boundary, RoomId(i as usize), s.tile)
                &&& s.position == Point::spec_new(
                    s.tile.col * map.spec_tile_size(),
                    s.tile.row * map.spec_tile_size(),
                ).spec_offset((map.spec_tile_size() / 2) as int, (map.spec_tile_size() / 2) as int)
                &&& exists|t: EnemyType| enemy_config.levels@[level - 1]@.contains(t) && s.values.same_as(&enemy_config.spec_values(t))
            },
            r matches Ok(spawns) ==> forall|a: int, b: int|
                0 <= a < b < spawns@.len() ==> #[trigger] spawns@[a].tile != #[trigger] spawns@[b].tile,
            // each room gets at most its share of enemies, and a room that cannot hold enemies
            // gets none
            r matches Ok(spawns) ==> forall|i: int| 0 <= i < map.spec_rooms().len() ==> {
                &&& #[trigger] spawns_in_room(spawns@, map.spec_grid(), RoomId(i as usize)) <= room_enemy_limit(
                    *map,
                    RoomId(i as usize),
                    max_room_enemy_area,
                )
                &&& spawns_in_room(spawns@, map.spec_grid(), RoomId(i as usize)) <= room_enemies.max
                &&& !enemy_room(map.spec_rooms()[i]) ==> spawns_in_room(spawns@, map.spec_grid(), RoomId(i as usize)) == 0
                &&& enemy_room(map.spec_rooms()[i]) ==> drawn_enemy_count(
                    spawns_in_room(spawns@, map.spec_grid(), RoomId(i as usize)) as int,
                    room_enemies,
                    room_enemy_limit(*map, RoomId(i as usize), max_room_enemy_area),
                )
            },
            // when no room can hold enemies, or no enemy may be put in a room, there are none
            no_enemies_possible(*map, room_enemies, max_room_enemy_area) ==> (r matches Ok(spawns) && spawns@.len() == 0),
    {
        let ghost quiet = no_enemies_possible(*map, room_enemies, max_room_enemy_area);
        let grid = map.grid();
        let rooms = map.rooms();
        let ts = map.tile_size();
        let mut spawns: Vec<EnemySpawn> = Vec::new();
        let ghost g = map.spec_grid();
        let mut i: usize = 0;
        while i < rooms.len()
            invariant
                *grid == g,
                g == map.spec_grid(),
                g.wf(),
                g.nrows() * g.ncols() <= usize::MAX,
                rooms@ == map.spec_rooms_with_ids(),
                rooms_inside(*map),
                map.fits_world(),
                map.spec_tile_size() <= MAX_POSITION,
                ts == map.spec_tile_size(),
                self.attempts < usize::MAX,
                room_enemies.can_gen(),
                max_room_enemy_area.denom > 0,
                max_room_enemy_area.numer <= max_room_enemy_area.denom,
                1 <= level <= enemy_config.levels@.len(),
                enemy_config.levels@[level - 1]@.len() >= 1,
                i <= rooms@.len(),
                quiet == no_enemies_possible(*map, room_enemies, max_room_enemy_area),
                quiet ==> spawns@.len() == 0,
                forall|k: int| 0 <= k < spawns@.len() ==> {
                    let s = #[trigger] spawns@[k];
                    &&& exists|x: int| 0 <= x < i && can_have_enemies(map.spec_rooms()[x].rtype)
                        && enemy_spot(g, map.spec_rooms()[x].boundary, RoomId(x as usize), s.tile)
                    &&& s.position == Point::spec_new(s.tile.col * ts, s.tile.row * ts).spec_offset((ts / 2) as int, (ts / 2) as int)
                    &&& exists|t: EnemyType| enemy_config.levels@[level - 1]@.contains(t) && s.values.same_as(&enemy_config.spec_values(t))
                },
                forall|a: int, b: int| 0 <= a < b < spawns@.len() ==> #[trigger] spawns@[a].tile != #[trigger] spawns@[b].tile,
                forall|j: int| 0 <= j < map.spec_rooms().len() ==> {
                    &&& j < i ==> #[trigger] spawns_in_room(spawns@, g, RoomId(j as usize)) <= room_enemy_limit(
                        *map,
                        RoomId(j as usize),
                        max_room_enemy_area,
                    )
                    &&& j < i ==> spawns_in_room(spawns@, g, RoomId(j as usize)) <= room_enemies.max
                    &&& (i <= j || !enemy_room(map.spec_rooms()[j])) ==> spawns_in_room(spawns@, g, RoomId(j as usize)) == 0
                    &&& j < i && enemy_room(map.spec_rooms()[j]) ==> drawn_enemy_count(
                        spawns_in_room(spawns@, g, RoomId(j as usize)) as int,
                        room_enemies,
                        room_enemy_limit(*map, RoomId(j as usize), max_room_enemy_area),
                    )
                },
            decreases rooms@.len() - i,
        {
            let (room_id, room) = rooms[i];
            assert(room == map.spec_rooms()[i as int]);
            assert(valid_room_rect(room.boundary));
            let rect = room.boundary;
            if !room.can_generate_enemies() || rect.dim.rows < 3 || rect.dim.cols < 3 {
                i += 1;
                continue;
            }
            let drawn = room_enemies.gen(rng);
            let mut draws: Vec<TilePos> = Vec::new();
            if drawn > 0 {
                // Don't generate enemies near the walls (so those spaces are free for other things)
                while draws.len() <= self.attempts
                    invariant
                        draws@.len() <= self.attempts + 1,
                        self.attempts < usize::MAX,
                        valid_room_rect(rect),
                        rect.dim.rows >= 3,
                        rect.dim.cols >= 3,
                    decreases self.attempts + 1 - draws@.len(),
                {
                    draws.push(rect.random_inner_tile(rng));
                }
            }
            let ghost taken = room_taken(*map, room_id, tried_draws(draws@, self.attempts as int));
            let ghost count = enemy_count(drawn as int, room_enemy_limit(*map, room_id, max_room_enemy_area));
            proof {
                if quiet {
                    assert(enemy_room(map.spec_rooms()[i as int]));
                    if max_room_enemy_area.numer == 0 {
                        assert(room_floor_count(g, room_id) * max_room_enemy_area.numer == 0) by (nonlinear_arith)
                            requires max_room_enemy_area.numer == 0;
                    }
                    assert(count == 0);
                }
            }
            let tiles = match self.room_spawns(map, room_id, max_room_enemy_area, drawn, &draws) {
                Ok(t) => t,
                Err(e) => return Err(e),
            };
            proof {
                lemma_accepted_spots(g, rect, room_id, tried_draws(draws@, self.attempts as int));
                assert(tiles@.len() == count);
                assert forall|k: int| 0 <= k < tiles@.len() implies enemy_spot(g, rect, room_id, #[trigger] tiles@[k]) by {
                    assert(tiles@[k] == taken[k]);
                }
                assert forall|k: int, m: int| 0 <= k < m < tiles@.len() implies #[trigger] tiles@[k] != #[trigger] tiles@[m] by {
                    assert(tiles@[k] == taken[k]);
                    assert(tiles@[m] == taken[m]);
                }
            }
            let start = spawns.len();
            let ghost start_spawns = spawns@;
            proof {
                assert forall|k: int| 0 <= k < start implies !g.tile((#[trigger] spawns@[k]).tile).spec_is_room_floor(room_id) by {
                    let s = spawns@[k];
                    let x = choose|x: int| 0 <= x < i && can_have_enemies(map.spec_rooms()[x].rtype)
                        && enemy_spot(g, map.spec_rooms()[x].boundary, RoomId(x as usize), s.tile);
                }
            }
            let mut k: usize = 0;
            while k < tiles.len()
                invariant
                    *grid == g,
                    g == map.spec_grid(),
                    g.wf(),
                    rooms_inside(*map),
                    map.fits_world(),
                    map.spec_tile_size() <= MAX_POSITION,
                    ts == map.spec_tile_size(),
                    room == map.spec_rooms()[i as int],
                    room_id == RoomId(i),
                    rect == room.boundary,
                    can_have_enemies(room.rtype),
                    1 <= level <= enemy_config.levels@.len(),
                    enemy_config.levels@[level - 1]@.len() >= 1,
                    i < rooms@.len() == map.spec_rooms().len(),
                    map.spec_rooms().len() <= usize::MAX,
                    k <= tiles@.len(),
                    spawns@.len() == start + k,
                    start == start_spawns.len(),
                    forall|m: int| 0 <= m < start ==> spawns@[m] == start_spawns[m],
                    forall|m: int| 0 <= m < tiles@.len() ==> enemy_spot(g, rect, room_id, #[trigger] tiles@[m]),
                    forall|m: int, n: int| 0 <= m < n < tiles@.len() ==> #[trigger] tiles@[m] != #[trigger] tiles@[n],
                    forall|m: int| 0 <= m < k ==> #[trigger] spawns@[start + m].tile == tiles@[m],
                    forall|m: int| 0 <= m < spawns@.len() ==> {
                        let s = #[trigger] spawns@[m];
                        &&& exists|x: int| 0 <= x < i + 1 && can_have_enemies(map.spec_rooms()[x].rtype)
                            && enemy_spot(g, map.spec_rooms()[x].boundary, RoomId(x as usize), s.tile)
                        &&& s.position == Point::spec_new(s.tile.col * ts, s.tile.row * ts).spec_offset((ts / 2) as int, (ts / 2) as int)
                        &&& exists|t: EnemyType| enemy_config.levels@[level - 1]@.contains(t) && s.values.same_as(&enemy_config.spec_values(t))
                    },
                    forall|m: int| 0 <= m < start ==> !g.tile((#[trigger] spawns@[m]).tile).spec_is_room_floor(room_id),
                    forall|a: int, b: int| 0 <= a < b < spawns@.len() ==> #[trigger] spawns@[a].tile != #[trigger] spawns@[b].tile,
                    forall|j: int| #![trigger spawns_in_room(spawns@, g, RoomId(j as usize))]
                        0 <= j < map.spec_rooms().len() ==> spawns_in_room(spawns@, g, RoomId(j as usize)) == if j == i {
                            spawns_in_room(start_spawns, g, RoomId(j as usize)) + k
                        } else {
                            spawns_in_room(start_spawns, g, RoomId(j as usize)) as int
                        },
                decreases tiles@.len() - k,
            {
                let pos = tiles[k];
                proof {
                    assert(enemy_spot(g, rect, room_id, tiles@[k as int]));
                    assert(pos.col * ts <= g.ncols() * ts) by (nonlinear_arith)
                        requires
                            pos.col < g.ncols(),
                    ;
                    assert(pos.row * ts <= g.nrows() * ts) by (nonlinear_arith)
                        requires
                            pos.row < g.nrows(),
                    ;
                }
                let position = pos.center(ts as i32);
                let values = enemy_config.random_enemy(rng, level);
                let ghost before = spawns@;
                spawns.push(EnemySpawn { tile: pos, position, values });
                proof {
                    assert(enemy_spot(g, map.spec_rooms()[i as int].boundary, RoomId(i), pos));
                    assert(spawns@.drop_last() =~= before);
                    assert forall|m: int| 0 <= m < spawns@.len() implies {
                        let s = #[trigger] spawns@[m];
                        &&& exists|x: int| 0 <= x < i + 1 && can_have_enemies(map.spec_rooms()[x].rtype)
                            && enemy_spot(g, map.spec_rooms()[x].boundary, RoomId(x as usize), s.tile)
                        &&& s.position == Point::spec_new(s.tile.col * ts, s.tile.row * ts).spec_offset((ts / 2) as int, (ts / 2) as int)
                        &&& exists|t: EnemyType| enemy_config.levels@[level - 1]@.contains(t) && s.values.same_as(&enemy_config.spec_values(t))
                    } by {
                        if m < before.len() {
                            assert(spawns@[m] == before[m]);
                        }
                    }
                    assert forall|a: int, b: int| 0 <= a < b < spawns@.len() implies #[trigger] spawns@[a].tile != #[trigger] spawns@[b].tile by {
                        if b == before.len() {
                            if a >= start {
                                assert(before[start + (a - start)].tile == tiles@[a - start]);
                                assert(spawns@[a] == before[a]);
                                assert(tiles@[a - start] != tiles@[k as int]);
                            } else {
                                assert(!g.tile(spawns@[a].tile).spec_is_room_floor(room_id));
                            }
                        } else {
                            assert(spawns@[a] == before[a]);
                            assert(spawns@[b] == before[b]);
                        }
                    }
                    assert forall|m: int| 0 <= m < k + 1 implies #[trigger] spawns@[start + m].tile == tiles@[m] by {
                        if m < k {
                            assert(spawns@[start + m] == before[start + m]);
                        }
                    }
                    assert forall|m: int| 0 <= m < start implies !g.tile((#[trigger] spawns@[m]).tile).spec_is_room_floor(room_id) by {
                        assert(spawns@[m] == before[m]);
                    }
                    assert forall|j: int| #![trigger spawns_in_room(spawns@, g, RoomId(j as usize))]
                        0 <= j < map.spec_rooms().len() implies spawns_in_room(spawns@, g, RoomId(j as usize)) == if j == i {
                            spawns_in_room(start_spawns, g, RoomId(j as usize)) + k + 1
                        } else {
                            spawns_in_room(start_spawns, g, RoomId(j as usize)) as int
                        } by {
                        assert(spawns_in_room(spawns@, g, RoomId(j as usize)) == spawns_in_room(before, g, RoomId(j as usize))
                            + if g.tile(pos).spec_is_room_floor(RoomId(j as usize)) { 1nat } else { 0nat });
                        assert(spawns_in_room(before, g, RoomId(j as usize)) == if j == i {
                            spawns_in_room(start_spawns, g, RoomId(j as usize)) + k
                        } else {
                            spawns_in_room(start_spawns, g, RoomId(j as usize)) as int
                        });
                        if j != i {
                            assert((j as usize) as int == j);
                            assert(RoomId(j as usize) != RoomId(i));
                        }
                    }
                    assert forall|m: int| 0 <= m < start implies spawns@[m] == start_spawns[m] by {
                        assert(spawns@[m] == before[m]);
                    }
                }
                k += 1;
            }
            proof {
                assert(spawns_in_room(start_spawns, g, RoomId(i)) == 0);
                assert(count <= room_enemy_limit(*map, room_id, max_room_enemy_area));
                assert(room_enemies.holds(drawn as int));
                assert(spawns_in_room(spawns@, g, RoomId(i)) == count);
                assert(drawn_enemy_count(count, room_enemies, room_enemy_limit(*map, room_id, max_room_enemy_area)));
                assert forall|j: int| 0 <= j < map.spec_rooms().len() implies {
                    &&& j < i + 1 ==> #[trigger] spawns_in_room(spawns@, g, RoomId(j as usize)) <= room_enemy_limit(
                        *map,
                        RoomId(j as usize),
                        max_room_enemy_area,
                    )
                    &&& j < i + 1 ==> spawns_in_room(spawns@, g, RoomId(j as usize)) <= room_enemies.max
                    &&& (i + 1 <= j || !enemy_room(map.spec_rooms()[j])) ==> spawns_in_room(spawns@, g, RoomId(j as usize)) == 0
                    &&& j < i + 1 && enemy_room(map.spec_rooms()[j]) ==> drawn_enemy_count(
                        spawns_in_room(spawns@, g, RoomId(j as usize)) as int,
                        room_enemies,
                        room_enemy_limit(*map, RoomId(j as usize), max_room_enemy_area),
                    )
                } by {
                    assert(spawns_in_room(spawns@, g, RoomId(j as usize)) == spawns_in_room(spawns@, g, RoomId(j as usize)));
                }
            }
            i += 1;
        }
        Ok(spawns)
    }
}

} // verus!
