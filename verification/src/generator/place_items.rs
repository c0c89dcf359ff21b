//! Placing the stairs that lead to the next and to the previous level
use vstd::prelude::*;

use rand::rngs::StdRng;

use crate::floor_map::FloorMap;
use crate::generator::{GameGenerator, RanOutOfAttempts};
use crate::generator::rooms::{plain_wall, rooms_inside, valid_room_rect};
use crate::graph::count_true;
use crate::grid::{lemma_adjacent_in_bounds, TileGrid};
use crate::random::shuffle;
use crate::room::{Room, RoomId, RoomType};
use crate::sprites::WallSprite;
use crate::tile::{StairsDirection, Tile, TileObject};
use crate::tile_pos::TilePos;
use crate::tile_rect::TileRect;

verus! {

/// The number of normal rooms: the rooms that may hold stairs
pub open spec fn normal_count(rooms: Seq<Room>) -> nat
    decreases rooms.len(),
{
    if rooms.len() == 0 {
        0
    } else {
        normal_count(rooms.drop_last()) + if rooms.last().rtype == RoomType::Normal { 1nat } else { 0nat }
    }
}


/// The tile holds stairs, to the next or to the previous level
pub open spec fn has_stairs(t: Tile) -> bool {
    match t.spec_object() {
        Some(TileObject::ToNextLevel { .. }) | Some(TileObject::ToPrevLevel { .. }) => true,
        _ => false,
    }
}

/// The tile holds stairs of the given kind (to the next level if `to_next`) with the given ID
pub open spec fn has_stairs_id(t: Tile, to_next: bool, id: usize) -> bool {
    match t.spec_object() {
        Some(TileObject::ToNextLevel { id: i, .. }) => to_next && i == id,
        Some(TileObject::ToPrevLevel { id: i, .. }) => !to_next && i == id,
        _ => false,
    }
}

/// The positions among `ps` that hold floor tiles of the given room, in order
pub open spec fn room_floor_positions(grid: TileGrid, ps: Seq<TilePos>, id: RoomId) -> Seq<TilePos>
    decreases ps.len(),
{
    if ps.len() == 0 {
        Seq::empty()
    } else if grid.tile(ps.last()).spec_is_room_floor(id) {
        room_floor_positions(grid, ps.drop_last(), id).push(ps.last())
    } else {
        room_floor_positions(grid, ps.drop_last(), id)
    }
}

/// Some tile next to `pos` is a room entrance
pub open spec fn beside_entrance(grid: TileGrid, pos: TilePos) -> bool {
    exists|m: int|
        0 <= m < grid.spec_adjacent_positions(pos).len() && grid.spec_is_room_entrance(
            #[trigger] grid.spec_adjacent_positions(pos)[m],
        )
}

/// For each tile next to `pos`: it lies in the same row and is a floor tile
pub open spec fn open_side_flags(grid: TileGrid, pos: TilePos) -> Seq<bool> {
    grid.spec_adjacent_positions(pos).map_values(|q: TilePos| q.row == pos.row && grid.tile(q).spec_is_floor())
}

/// Stairs may go at `pos`: no tile next to it holds stairs or lies next to a room entrance, and
/// exactly one of its two sides in the row is a floor tile, from which the stairs are entered
pub open spec fn spec_valid_staircase(grid: TileGrid, pos: TilePos) -> bool {
    &&& forall|k: int|
        0 <= k < grid.spec_adjacent_positions(pos).len() ==> !has_stairs(
            grid.tile(#[trigger] grid.spec_adjacent_positions(pos)[k]),
        ) && !beside_entrance(grid, grid.spec_adjacent_positions(pos)[k])
    &&& count_true(open_side_flags(grid, pos)) == 1
}

/// The tile of the room next to the wall at `pos` where an object may be placed: the wall must
/// have exactly one floor tile of the room next to it, that tile must hold no object yet and no
/// tile next to it may be a room entrance
pub open spec fn spec_find_place(grid: TileGrid, pos: TilePos, room_id: RoomId) -> Option<TilePos> {
    let inner = room_floor_positions(grid, grid.spec_adjacent_positions(pos), room_id);
    if !grid.tile(pos).spec_is_wall() || inner.len() != 1 {
        None
    } else if grid.tile(inner[0]).spec_has_object() || beside_entrance(grid, inner[0]) {
        None
    } else {
        Some(inner[0])
    }
}

/// The tile at `q` once the stairs at `pos` are surrounded by walls: the tiles above and below
/// the stairs become walls unless they are walls already
pub open spec fn surrounded(grid: TileGrid, pos: TilePos, q: TilePos) -> Tile {
    if grid.spec_adjacent_positions(pos).contains(q) && q.col == pos.col && !grid.tile(q).spec_is_wall() {
        plain_wall()
    } else {
        grid.tile(q)
    }
}

/// Each of the given IDs belongs to stairs of the given kind somewhere on the grid
pub open spec fn stairs_placed(grid: TileGrid, to_next: bool, n: usize) -> bool {
    forall|id: usize| id < n ==> #[trigger] stairs_exist(grid, to_next, id)
}

/// Stairs of the given kind with the given ID lie somewhere on the grid
pub open spec fn stairs_exist(grid: TileGrid, to_next: bool, id: usize) -> bool {
    exists|p: TilePos| grid.in_bounds(p) && #[trigger] has_stairs_id(grid.tile(p), to_next, id)
}

/// Returns true if the tile holds stairs of either kind
fn tile_has_stairs(t: &Tile) -> (r: bool)
    ensures
        r == has_stairs(*t),
{
    match t.object() {
        Some(TileObject::ToNextLevel { .. }) | Some(TileObject::ToPrevLevel { .. }) => true,
        _ => false,
    }
}

/// Returns true if a tile next to `pos` is a room entrance
fn is_beside_entrance(grid: &TileGrid, pos: TilePos) -> (r: bool)
    requires
        grid.wf(),
        grid.in_bounds(pos),
    ensures
        r == beside_entrance(*grid, pos),
{
    let adjacents = grid.adjacent_positions(pos);
    proof {
        lemma_adjacent_in_bounds(grid, pos);
    }
    let mut m: usize = 0;
    while m < adjacents.len()
        invariant
            grid.wf(),
            adjacents@ == grid.spec_adjacent_positions(pos),
            forall|q: int| 0 <= q < adjacents@.len() ==> #[trigger] grid.in_bounds(adjacents@[q]),
            m <= adjacents@.len(),
            forall|q: int| 0 <= q < m ==> !grid.spec_is_room_entrance(#[trigger] adjacents@[q]),
        decreases adjacents@.len() - m,
    {
        if grid.is_room_entrance(adjacents[m]) {
            return true;
        }
        m += 1;
    }
    false
}

/// Returns true if stairs may be placed at `pos`. The staircase cannot be directly beside another
/// staircase. It also cannot be beside a tile that is beside an entrance or else that entrance
/// will get blocked by a wall in `surround_stairways`. It must be possible to enter the stairs from
/// exactly one side, in its row.
pub fn validate_chosen_staircase(grid: &TileGrid, pos: TilePos) -> (r: bool)
    requires
        grid.wf(),
        grid.in_bounds(pos),
    ensures
        r == spec_valid_staircase(*grid, pos),
{
    let adjacents = grid.adjacent_positions(pos);
    proof {
        lemma_adjacent_in_bounds(grid, pos);
    }
    let ghost flags = open_side_flags(*grid, pos);
    let mut open_sides: usize = 0;
    let mut k: usize = 0;
    while k < adjacents.len()
        invariant
            grid.wf(),
            grid.in_bounds(pos),
            adjacents@ == grid.spec_adjacent_positions(pos),
            flags == open_side_flags(*grid, pos),
            forall|q: int| 0 <= q < adjacents@.len() ==> #[trigger] grid.in_bounds(adjacents@[q]),
            k <= adjacents@.len(),
            open_sides == count_true(flags.take(k as int)),
            open_sides <= k,
            forall|q: int| 0 <= q < k ==> !has_stairs(grid.tile(#[trigger] adjacents@[q])) && !beside_entrance(*grid, adjacents@[q]),
        decreases adjacents@.len() - k,
    {
        let adj = adjacents[k];
        assert(flags.take(k + 1).drop_last() =~= flags.take(k as int));
        // It must be possible to enter into the stairs from one side or the other.
        // Taking advantage of the fact that all stairways are on vertical edges of rooms
        if adj.row == pos.row && grid.get(adj).is_floor() {
            open_sides += 1;
        }
        if tile_has_stairs(grid.get(adj)) {
            return false;
        }
        if is_beside_entrance(grid, adj) {
            return false;
        }
        k += 1;
    }
    assert(flags.take(flags.len() as int) =~= flags);
    open_sides == 1
}

impl GameGenerator {
    /// Attempts to find a room tile next to the given wall tile where an object can be placed
    pub fn find_place(&self, grid: &TileGrid, pos: TilePos, room_id: RoomId) -> (r: Option<TilePos>)
        requires
            grid.wf(),
            grid.in_bounds(pos),
        ensures
            r == spec_find_place(*grid, pos, room_id),
            r matches Some(inner) ==> grid.in_bounds(inner) && pos.is_adjacent_to(inner),
    {
        // Must be a wall with a single room tile of the given room_id adjacent to it. The
        // adjacent room tile will be where the object will go. This check also ensures
        // that no item gets placed beside a doorway.
        if !grid.get(pos).is_wall() {
            return None;
        }
        let adjacents = grid.adjacent_positions(pos);
        proof {
            lemma_adjacent_in_bounds(grid, pos);
        }
        let mut adj_room_tiles: Vec<TilePos> = Vec::new();
        let mut k: usize = 0;
        while k < adjacents.len()
            invariant
                grid.wf(),
                grid.in_bounds(pos),
                adjacents@ == grid.spec_adjacent_positions(pos),
                forall|q: int| 0 <= q < adjacents@.len() ==> #[trigger] grid.in_bounds(adjacents@[q]),
                forall|q: int| 0 <= q < adjacents@.len() ==> pos.is_adjacent_to(#[trigger] adjacents@[q]),
                k <= adjacents@.len(),
                adj_room_tiles@ == room_floor_positions(*grid, adjacents@.take(k as int), room_id),
                forall|q: int| 0 <= q < adj_room_tiles@.len() ==> #[trigger] grid.in_bounds(adj_room_tiles@[q])
                    && pos.is_adjacent_to(adj_room_tiles@[q]),
            decreases adjacents@.len() - k,
        {
            assert(adjacents@.take(k + 1).drop_last() =~= adjacents@.take(k as int));
            if grid.get(adjacents[k]).is_room_floor(room_id) {
                adj_room_tiles.push(adjacents[k]);
            }
            k += 1;
        }
        assert(adjacents@.take(adjacents@.len() as int) =~= adjacents@);
        if adj_room_tiles.len() != 1 {
            // Either a wall with an entrance next to it or a wall next to another room
            return None;
        }
        let inner_room_tile = adj_room_tiles[0];

        // Cannot place on a tile that already has an item
        if grid.get(inner_room_tile).has_object() {
            return None;
        }

        // Make sure the tile we have chosen isn't surrounded by any room entrances
        if is_beside_entrance(grid, inner_room_tile) {
            return None;
        }

        Some(inner_room_tile)
    }

    /// Ensures that there is a wall above and below the staircase at `pos`
    pub fn surround_stairways(&self, pos: TilePos, map: &mut FloorMap)
        requires
            old(map).spec_grid().wf(),
        ensures
            final(map).spec_rooms() == old(map).spec_rooms(),
            final(map).spec_tile_size() == old(map).spec_tile_size(),
            final(map).spec_grid().wf(),
            final(map).spec_grid().nrows() == old(map).spec_grid().nrows(),
            final(map).spec_grid().ncols() == old(map).spec_grid().ncols(),
            forall|q: TilePos| #[trigger] final(map).spec_grid().in_bounds(q) ==> final(map).spec_grid().tile(q)
                == surrounded(old(map).spec_grid(), pos, q),
    {
        let ghost g0 = map.spec_grid();
        let adjacents = map.grid().adjacent_positions(pos);
        proof {
            lemma_adjacent_in_bounds(&g0, pos);
        }
        let mut k: usize = 0;
        while k < adjacents.len()
            invariant
                g0 == old(map).spec_grid(),
                g0.wf(),
                adjacents@ == g0.spec_adjacent_positions(pos),
                forall|q: int| 0 <= q < adjacents@.len() ==> pos.is_adjacent_to(#[trigger] adjacents@[q]),
                forall|q: int| 0 <= q < adjacents@.len() ==> (pos.in_bounds_of(g0.nrows(), g0.ncols()) ==> #[trigger] g0.in_bounds(adjacents@[q])),
                k <= adjacents@.len(),
                map.spec_rooms() == old(map).spec_rooms(),
                map.spec_tile_size() == old(map).spec_tile_size(),
                map.spec_grid().wf(),
                map.spec_grid().nrows() == g0.nrows(),
                map.spec_grid().ncols() == g0.ncols(),
                forall|q: TilePos| #[trigger] map.spec_grid().in_bounds(q) ==> map.spec_grid().tile(q) == if adjacents@.take(
                    k as int,
                ).contains(q) && q.col == pos.col && !g0.tile(q).spec_is_wall() {
                    plain_wall()
                } else {
                    g0.tile(q)
                },
            decreases adjacents@.len() - k,
        {
            let adj = adjacents[k];
            let ghost before = map.spec_grid();
            // Taking advantage of the fact that all stairways are on vertical edges of rooms
            if adj.col == pos.col && adj.row < map.grid().rows_len() && adj.col < map.grid().cols_len() && !map.grid().get(adj).is_wall() {
                map.grid_mut().set(adj, Tile::new_wall(WallSprite::default()));
            }
            proof {
                assert forall|q: TilePos| #[trigger] map.spec_grid().in_bounds(q) implies map.spec_grid().tile(q) == if adjacents@.take(
                    k + 1,
                ).contains(q) && q.col == pos.col && !g0.tile(q).spec_is_wall() {
                    plain_wall()
                } else {
                    g0.tile(q)
                } by {
                    assert(before.in_bounds(q));
                    if adjacents@.take(k + 1).contains(q) && !adjacents@.take(k as int).contains(q) {
                        let m = choose|m: int| 0 <= m < k + 1 && #[trigger] adjacents@.take(k + 1)[m] == q;
                        if m < k {
                            assert(adjacents@.take(k as int)[m] == q);
                        }
                        assert(q == adj);
                    }
                    if adjacents@.take(k as int).contains(q) {
                        let m = choose|m: int| 0 <= m < k && #[trigger] adjacents@.take(k as int)[m] == q;
                        assert(adjacents@.take(k + 1)[m] == q);
                    }
                    if q == adj && !adjacents@.take(k as int).contains(q) {
                        assert(adjacents@.take(k + 1)[k as int] == q);
                    }
                }
            }
            k += 1;
        }
        proof {
            assert(adjacents@.take(adjacents@.len() as int) =~= adjacents@);
        }
    }

    /// Places `nrooms` stairs of the given kind (to the next level if `to_next`), with the IDs
    /// `0..nrooms`, in randomly chosen rooms that may hold them. Each stairs go on a floor tile
    /// beside a wall on a vertical edge of its room (the right edge for stairs down, the left edge
    /// for stairs up), face away from that wall, and get walls above and below them.
    ///
    /// The rooms are shuffled and then visited in turn, one attempt per room, until all stairs are
    /// placed or the attempts run out. Stairs already on the map stay where they are.
    pub fn place_object_in_rooms(
        &self,
        rng: &mut StdRng,
        map: &mut FloorMap,
        to_next: bool,
        nrooms: usize,
    ) -> (r: Result<(), RanOutOfAttempts>)
        requires
            old(map).spec_grid().wf(),
            rooms_inside(*old(map)),
        ensures
            final(map).spec_rooms() == old(map).spec_rooms(),
            final(map).spec_tile_size() == old(map).spec_tile_size(),
            final(map).spec_grid().wf(),
            final(map).spec_grid().nrows() == old(map).spec_grid().nrows(),
            final(map).spec_grid().ncols() == old(map).spec_grid().ncols(),
            forall|p: TilePos| #[trigger] final(map).spec_grid().in_bounds(p) && has_stairs(old(map).spec_grid().tile(p))
                ==> final(map).spec_grid().tile(p) == old(map).spec_grid().tile(p),
            r is Ok ==> stairs_placed(final(map).spec_grid(), to_next, nrooms),
            // stairs only go in normal rooms, one per room: with too few of them this fails
            normal_count(old(map).spec_rooms()) < nrooms ==> r is Err,
            // with no stairs to place, the map stays as it is
            nrooms == 0 ==> r is Ok && final(map).spec_grid() == old(map).spec_grid(),
    {
        let all = map.rooms();
        let mut rooms: Vec<(RoomId, TileRect)> = Vec::new();
        let mut i: usize = 0;
        while i < all.len()
            invariant
                all@ == map.spec_rooms_with_ids(),
                rooms_inside(*map),
                i <= all@.len(),
                rooms@.len() == normal_count(map.spec_rooms().take(i as int)),
                forall|k: int| 0 <= k < rooms@.len() ==> {
                    &&& valid_room_rect((#[trigger] rooms@[k]).1)
                    &&& rooms@[k].1.last_row() < map.spec_grid().nrows()
                    &&& rooms@[k].1.last_col() < map.spec_grid().ncols()
                },
            decreases all@.len() - i,
        {
            let (id, room) = all[i];
            proof {
                assert(map.spec_rooms().take(i + 1).drop_last() =~= map.spec_rooms().take(i as int));
            }
            let fits = if to_next { room.can_contain_to_next_level() } else { room.can_contain_to_prev_level() };
            if fits {
                assert(room == map.spec_rooms()[i as int]);
                rooms.push((id, room.boundary));
            }
            i += 1;
        }
        proof {
            assert(map.spec_rooms().take(all@.len() as int) =~= map.spec_rooms());
        }
        if rooms.len() < nrooms {
            // Not enough rooms to place the stairs in
            return Err(RanOutOfAttempts);
        }
        // To do this using choose we would need to allocate anyway, so we might as well just use
        // shuffle to do all the random choosing at once
        let ghost unshuffled = rooms@;
        shuffle(&mut rooms, rng);
        proof {
            assert forall|k: int| 0 <= k < rooms@.len() implies {
                &&& valid_room_rect((#[trigger] rooms@[k]).1)
                &&& rooms@[k].1.last_row() < map.spec_grid().nrows()
                &&& rooms@[k].1.last_col() < map.spec_grid().ncols()
            } by {
                rooms@.to_multiset_ensures();
                unshuffled.to_multiset_ensures();
                assert(rooms@.contains(rooms@[k]));
                assert(rooms@.to_multiset().count(rooms@[k]) > 0);
                assert(unshuffled.to_multiset().count(rooms@[k]) > 0);
                assert(unshuffled.contains(rooms@[k]));
                let m = choose|m: int| 0 <= m < unshuffled.len() && unshuffled[m] == rooms@[k];
                assert(valid_room_rect(unshuffled[m].1));
            }
        }

        let ghost g0 = map.spec_grid();
        // This cycles through the rooms until we have gone through `self.attempts` of them. We do
        // one attempt per room: some rooms simply do not have a place to put the object, so the
        // search moves on to the next room as soon as a single attempt fails.
        let mut attempts: usize = 0;
        let mut placed: usize = 0;
        let mut turn: usize = 0;
        while placed < nrooms
            invariant
                g0 == old(map).spec_grid(),
                map.spec_rooms() == old(map).spec_rooms(),
                map.spec_tile_size() == old(map).spec_tile_size(),
                map.spec_grid().wf(),
                map.spec_grid().nrows() == g0.nrows(),
                map.spec_grid().ncols() == g0.ncols(),
                rooms@.len() >= nrooms,
                forall|k: int| 0 <= k < rooms@.len() ==> {
                    &&& valid_room_rect((#[trigger] rooms@[k]).1)
                    &&& rooms@[k].1.last_row() < g0.nrows()
                    &&& rooms@[k].1.last_col() < g0.ncols()
                },
                placed <= nrooms,
                turn < rooms@.len() || nrooms == 0,
                attempts <= self.attempts,
                forall|p: TilePos| #[trigger] map.spec_grid().in_bounds(p) && has_stairs(g0.tile(p)) ==> map.spec_grid().tile(p)
                    == g0.tile(p),
                stairs_placed(map.spec_grid(), to_next, placed),
                nrooms == 0 ==> map.spec_grid() == g0,
            decreases self.attempts - attempts,
        {
            if attempts >= self.attempts {
                return Err(RanOutOfAttempts);
            }
            attempts += 1;

            assert(turn < rooms@.len());
            let (room_id, rect) = rooms[turn];
            assert(valid_room_rect(rooms@[turn as int].1));
            turn = if turn == rooms.len() - 1 { 0 } else { turn + 1 };

            // Pick a random point on the vertical edge of the room that the stairs need
            let pos = if to_next { rect.random_right_vertical_edge_tile(rng) } else { rect.random_left_vertical_edge_tile(rng) };
            let ghost gp = map.spec_grid();
            if !map.grid().get(pos).is_wall() {
                // Can happen since rooms overlap
                continue;
            }
            // Cannot place adjacent to corner since corners are only adjacent to other wall
            // tiles and to other rooms
            if rect.is_corner(pos) {
                continue;
            }
            let inner = match self.find_place(map.grid(), pos, room_id) {
                Some(inner) => inner,
                None => continue,
            };
            if !validate_chosen_staircase(map.grid(), inner) {
                continue;
            }
            // Stairs only face left or right
            if inner.row != pos.row {
                continue;
            }
            // Want to face away from the wall
            let direction = StairsDirection::towards_target(pos, inner);
            let object = if to_next {
                TileObject::ToNextLevel { id: placed, direction }
            } else {
                TileObject::ToPrevLevel { id: placed, direction }
            };
            proof {
                let fl = room_floor_positions(gp, gp.spec_adjacent_positions(pos), room_id);
                assert(fl.len() == 1 && fl[0] == inner);
                lemma_room_floor_positions(gp, gp.spec_adjacent_positions(pos), room_id);
                assert(fl.contains(inner));
            }
            let mut tile = *map.grid().get(inner);
            tile.place_object(object);
            let ghost g1 = map.spec_grid();
            map.grid_mut().set(inner, tile);
            let ghost g2 = map.spec_grid();
            self.surround_stairways(inner, map);
            proof {
                lemma_adjacent_in_bounds(&g2, inner);
                assert forall|p: TilePos| #[trigger] map.spec_grid().in_bounds(p) && has_stairs(g0.tile(p)) implies map.spec_grid().tile(
                    p,
                ) == g0.tile(p) by {
                    assert(g1.in_bounds(p));
                    assert(g1.tile(p) == g0.tile(p));
                    if p == inner {
                        assert(!g1.tile(inner).spec_has_object());
                    }
                    assert(g2.tile(p) == g1.tile(p));
                    if g2.spec_adjacent_positions(inner).contains(p) && p.col == inner.col && !g2.tile(p).spec_is_wall() {
                        let k = choose|k: int| 0 <= k < g2.spec_adjacent_positions(inner).len() && g2.spec_adjacent_positions(inner)[k] == p;
                        assert(g1.spec_adjacent_positions(inner)[k] == p);
                        assert(!has_stairs(g1.tile(g1.spec_adjacent_positions(inner)[k])));
                    }
                }
                assert(has_stairs_id(g2.tile(inner), to_next, placed));
                assert(!g2.spec_adjacent_positions(inner).contains(inner)) by {
                    if g2.spec_adjacent_positions(inner).contains(inner) {
                        let k = choose|k: int| 0 <= k < g2.spec_adjacent_positions(inner).len() && g2.spec_adjacent_positions(inner)[k] == inner;
                        assert(inner.is_adjacent_to(g2.spec_adjacent_positions(inner)[k]));
                    }
                }
                assert(map.spec_grid().in_bounds(inner));
                assert(map.spec_grid().tile(inner) == g2.tile(inner));
                assert forall|id: usize| id < placed + 1 implies #[trigger] stairs_exist(map.spec_grid(), to_next, id) by {
                    if id == placed {
                        assert(map.spec_grid().in_bounds(inner));
                        assert(has_stairs_id(map.spec_grid().tile(inner), to_next, id));
                    } else {
                        assert(stairs_exist(g1, to_next, id));
                        let p = choose|p: TilePos| g1.in_bounds(p) && #[trigger] has_stairs_id(g1.tile(p), to_next, id);
                        assert(map.spec_grid().in_bounds(p));
                        assert(p != inner);
                        assert(g2.tile(p) == g1.tile(p));
                        if g2.spec_adjacent_positions(inner).contains(p) && p.col == inner.col && !g2.tile(p).spec_is_wall() {
                            let k = choose|k: int| 0 <= k < g2.spec_adjacent_positions(inner).len() && g2.spec_adjacent_positions(inner)[k] == p;
                            assert(g1.spec_adjacent_positions(inner)[k] == p);
                            assert(!has_stairs(g1.tile(g1.spec_adjacent_positions(inner)[k])));
                        }
                        assert(map.spec_grid().tile(p) == g1.tile(p));
                        assert(map.spec_grid().in_bounds(p));
                    }
                }
            }
            placed += 1;
        }
        Ok(())
    }

    /// Places the stairs down to the next level, on right edges of normal rooms
    pub fn place_to_next_level_tiles(&self, rng: &mut StdRng, map: &mut FloorMap) -> (r: Result<(), RanOutOfAttempts>)
        requires
            old(map).spec_grid().wf(),
            rooms_inside(*old(map)),
        ensures
            final(map).spec_rooms() == old(map).spec_rooms(),
            final(map).spec_tile_size() == old(map).spec_tile_size(),
            final(map).spec_grid().wf(),
            final(map).spec_grid().nrows() == old(map).spec_grid().nrows(),
            final(map).spec_grid().ncols() == old(map).spec_grid().ncols(),
            forall|p: TilePos| #[trigger] final(map).spec_grid().in_bounds(p) && has_stairs(old(map).spec_grid().tile(p))
                ==> final(map).spec_grid().tile(p) == old(map).spec_grid().tile(p),
            r is Ok ==> stairs_placed(final(map).spec_grid(), true, self.next_prev_tiles),
            normal_count(old(map).spec_rooms()) < self.next_prev_tiles ==> r is Err,
            self.next_prev_tiles == 0 ==> r is Ok && final(map).spec_grid() == old(map).spec_grid(),
    {
        self.place_object_in_rooms(rng, map, true, self.next_prev_tiles)
    }

    /// Places the stairs up to the previous level, on left edges of normal rooms
    pub fn place_to_prev_level_tiles(&self, rng: &mut StdRng, map: &mut FloorMap) -> (r: Result<(), RanOutOfAttempts>)
        requires
            old(map).spec_grid().wf(),
            rooms_inside(*old(map)),
        ensures
            final(map).spec_rooms() == old(map).spec_rooms(),
            final(map).spec_tile_size() == old(map).spec_tile_size(),
            final(map).spec_grid().wf(),
            final(map).spec_grid().nrows() == old(map).spec_grid().nrows(),
            final(map).spec_grid().ncols() == old(map).spec_grid().ncols(),
            forall|p: TilePos| #[trigger] final(map).spec_grid().in_bounds(p) && has_stairs(old(map).spec_grid().tile(p))
                ==> final(map).spec_grid().tile(p) == old(map).spec_grid().tile(p),
            r is Ok ==> stairs_placed(final(map).spec_grid(), false, self.next_prev_tiles),
            normal_count(old(map).spec_rooms()) < self.next_prev_tiles ==> r is Err,
            self.next_prev_tiles == 0 ==> r is Ok && final(map).spec_grid() == old(map).spec_grid(),
    {
        self.place_object_in_rooms(rng, map, false, self.next_prev_tiles)
    }
}

/// The positions kept by `room_floor_positions` are positions of the list that hold floor tiles of
/// the room
proof fn lemma_room_floor_positions(grid: TileGrid, ps: Seq<TilePos>, id: RoomId)
    ensures
        forall|k: int| 0 <= k < room_floor_positions(grid, ps, id).len() ==> ps.contains(
            #[trigger] room_floor_positions(grid, ps, id)[k],
        ) && grid.tile(room_floor_positions(grid, ps, id)[k]).spec_is_room_floor(id),
    decreases ps.len(),
{
    if ps.len() > 0 {
        lemma_room_floor_positions(grid, ps.drop_last(), id);
        let prev = room_floor_positions(grid, ps.drop_last(), id);
        assert forall|k: int| 0 <= k < prev.len() implies ps.contains(#[trigger] prev[k]) by {
            let m = choose|m: int| 0 <= m < ps.drop_last().len() && ps.drop_last()[m] == prev[k];
            assert(ps[m] == prev[k]);
        }
        assert(ps[ps.len() - 1] == ps.last());
    }
}

} // verus!
