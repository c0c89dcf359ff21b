//! Joining overlapping rooms: a wall between two rooms becomes a doorway
use vstd::prelude::*;

use rand::rngs::StdRng;

use crate::floor_map::FloorMap;
use crate::generator::GameGenerator;
use crate::generator::rooms::{plain_floor, rooms_inside};
use crate::grid::{lemma_adjacent_in_bounds, TileGrid};
use crate::random::choose_item;
use crate::room::RoomId;
use crate::sprites::FloorSprite;
use crate::tile::Tile;
use crate::tile_pos::TilePos;

verus! {

/// The room IDs of the floor tiles among the given tiles, in order
pub open spec fn floor_room_ids(tiles: Seq<Tile>) -> Seq<RoomId>
    decreases tiles.len(),
{
    if tiles.len() == 0 {
        Seq::empty()
    } else {
        match tiles.last() {
            Tile::Floor { room_id, .. } => floor_room_ids(tiles.drop_last()).push(room_id),
            _ => floor_room_ids(tiles.drop_last()),
        }
    }
}

/// The room IDs of the floor tiles next to `pos`, in the order north, east, south, west
pub open spec fn adjacent_room_ids(grid: TileGrid, pos: TilePos) -> Seq<RoomId> {
    floor_room_ids(grid.spec_adjacent_positions(pos).map_values(|q: TilePos| grid.tile(q)))
}

/// The wall at `edge` lies between exactly two floor tiles, of two different rooms, one of which
/// is `room_id`; those two rooms, in the order in which they lie around the wall
pub open spec fn spec_doorway(grid: TileGrid, edge: TilePos, room_id: RoomId) -> Option<(RoomId, RoomId)> {
    let ids = adjacent_room_ids(grid, edge);
    if grid.tile(edge) is Wall && ids.len() == 2 && ids[0] != ids[1] && (ids[0] == room_id || ids[1] == room_id) {
        Some((ids[0], ids[1]))
    } else {
        None
    }
}

/// Some doorway joins the two rooms, in either order
pub open spec fn joins(doors: Seq<((RoomId, RoomId), TilePos)>, pair: (RoomId, RoomId)) -> bool {
    exists|k: int| 0 <= k < doors.len() && ((#[trigger] doors[k]).0 == pair || doors[k].0 == (pair.1, pair.0))
}

/// The doorways chosen for a map: each one a wall between the two rooms it names, no two for the
/// same two rooms, and every room that had a wall that could become a doorway is joined to
/// another room by one
pub open spec fn doorways_chosen(map: FloorMap, doors: Seq<((RoomId, RoomId), TilePos)>) -> bool {
    &&& forall|k: int| 0 <= k < doors.len() ==> #[trigger] is_doorway(map, doors[k])
    &&& forall|a: int, b: int|
        #![trigger doors[a], doors[b]]
        0 <= a < b < doors.len() ==> !(doors[a].0 == doors[b].0 || doors[a].0 == (doors[b].0.1, doors[b].0.0))
            && doors[a].1 != doors[b].1
    &&& forall|i: int| 0 <= i < map.spec_rooms().len() && #[trigger] has_doorway_wall(map, i) ==> joined(doors, RoomId(i as usize))
}

/// The wall at the doorway's position lies between the two rooms it names, in that order
pub open spec fn is_doorway(map: FloorMap, door: ((RoomId, RoomId), TilePos)) -> bool {
    &&& map.spec_grid().in_bounds(door.1)
    &&& exists|r: RoomId| spec_doorway(map.spec_grid(), door.1, r) == Some(door.0)
}

/// One of the edge walls of the `i`th room of the map can become a doorway from it to another
/// room
pub open spec fn has_doorway_wall(map: FloorMap, i: int) -> bool {
    exists|e: int|
        0 <= e < map.spec_rooms()[i].boundary.spec_edge_positions().len() && #[trigger] spec_doorway(
            map.spec_grid(),
            map.spec_rooms()[i].boundary.spec_edge_positions()[e],
            RoomId(i as usize),
        ) is Some
}

/// Some doorway joins the room to another room
pub open spec fn joined(doors: Seq<((RoomId, RoomId), TilePos)>, id: RoomId) -> bool {
    exists|k: int| 0 <= k < doors.len() && ((#[trigger] doors[k]).0.0 == id || doors[k].0.1 == id)
}

/// The tile at `p` once the doorways are opened: the floor of the first room named by the doorway
/// there, or the old tile
pub open spec fn opened(doors: Seq<((RoomId, RoomId), TilePos)>, t: Tile, p: TilePos) -> Tile {
    if exists|k: int| 0 <= k < doors.len() && (#[trigger] doors[k]).1 == p {
        plain_floor(doors[choose|k: int| 0 <= k < doors.len() && (#[trigger] doors[k]).1 == p].0.0)
    } else {
        t
    }
}

impl GameGenerator {
    /// Returns the two distinct rooms next to a potential doorway if and only if the wall at
    /// `edge` can become a doorway from the room `room_id` to another room
    pub fn doorway_wall_adjacent_rooms(&self, edge: TilePos, room_id: RoomId, grid: &TileGrid) -> (r: Option<(RoomId, RoomId)>)
        requires
            grid.wf(),
            grid.in_bounds(edge),
        ensures
            r == spec_doorway(*grid, edge, room_id),
    {
        // Due to overlap, the chosen edge may not actually be a wall anymore
        if !grid.get(edge).is_wall() {
            return None;
        }

        // To connect two rooms, we must have exactly two adjacent tiles that are in two
        // separate rooms. Note that this already rules out corners since corners only have
        // up to two floor tiles that are adjacent to them and those tiles can only ever be
        // in the same room. This also rules out wall tiles that are adjacent to an
        // existing entrance since we look for *exactly* two tiles.
        let adjacents = grid.adjacents(edge);
        let ghost tiles = grid.spec_adjacent_positions(edge).map_values(|q: TilePos| grid.tile(q));
        let mut adj_rooms: Vec<RoomId> = Vec::new();
        let mut k: usize = 0;
        while k < adjacents.len()
            invariant
                adjacents@ == tiles,
                k <= tiles.len(),
                adj_rooms@ == floor_room_ids(tiles.take(k as int)),
            decreases tiles.len() - k,
        {
            assert(tiles.take(k + 1).drop_last() =~= tiles.take(k as int));
            match adjacents[k].floor_room_id() {
                Some(id) => adj_rooms.push(id),
                None => {},
            }
            k += 1;
        }
        assert(tiles.take(tiles.len() as int) =~= tiles);
        if adj_rooms.len() != 2 || adj_rooms[0] == adj_rooms[1] {
            return None;
        }
        let r1 = adj_rooms[0];
        let r2 = adj_rooms[1];
        // Make sure we are actually connecting the room we intended (room_id) to some other room
        if r1 != room_id && r2 != room_id {
            return None;
        }
        Some((r1, r2))
    }

    /// Connects overlapping rooms: each room in turn picks at random one of its edge walls that
    /// can become a doorway to a room it is not yet joined to. The chosen walls then become
    /// floor tiles of the first of the two rooms.
    pub fn connect_rooms(&self, rng: &mut StdRng, map: &mut FloorMap)
        requires
            old(map).spec_grid().wf(),
            rooms_inside(*old(map)),
        ensures
            final(map).spec_rooms() == old(map).spec_rooms(),
            final(map).spec_tile_size() == old(map).spec_tile_size(),
            final(map).spec_grid().wf(),
            final(map).spec_grid().nrows() == old(map).spec_grid().nrows(),
            final(map).spec_grid().ncols() == old(map).spec_grid().ncols(),
            exists|doors: Seq<((RoomId, RoomId), TilePos)>|
                #[trigger] doorways_chosen(*old(map), doors) && forall|p: TilePos| #[trigger] final(map).spec_grid().in_bounds(p)
                    ==> final(map).spec_grid().tile(p) == opened(doors, old(map).spec_grid().tile(p), p),
    {
        let ghost map0 = *map;
        let rooms = map.rooms();
        let mut connected: Vec<((RoomId, RoomId), TilePos)> = Vec::new();
        let mut i: usize = 0;
        while i < rooms.len()
            invariant
                *map == map0,
                map0.spec_grid().wf(),
                rooms_inside(map0),
                rooms@ == map0.spec_rooms_with_ids(),
                i <= rooms@.len(),
                forall|k: int| 0 <= k < connected@.len() ==> #[trigger] is_doorway(map0, connected@[k]),
                forall|a: int, b: int|
                    #![trigger connected@[a], connected@[b]]
                    0 <= a < b < connected@.len() ==> !(connected@[a].0 == connected@[b].0 || connected@[a].0 == (
                        connected@[b].0.1,
                        connected@[b].0.0,
                    )) && connected@[a].1 != connected@[b].1,
                forall|x: int| 0 <= x < i && #[trigger] has_doorway_wall(map0, x) ==> joined(connected@, RoomId(x as usize)),
            decreases rooms@.len() - i,
        {
            let (room_id, room) = rooms[i];
            assert(room == map0.spec_rooms()[i as int]);
            let edges = room.boundary.edge_positions();
            // Find all edges that can be turned into a doorway to a room not yet joined
            let mut candidates: Vec<(TilePos, (RoomId, RoomId))> = Vec::new();
            let mut e: usize = 0;
            while e < edges.len()
                invariant
                    *map == map0,
                    map0.spec_grid().wf(),
                    rooms_inside(map0),
                    i < map0.spec_rooms().len(),
                    room == map0.spec_rooms()[i as int],
                    room_id == RoomId(i),
                    edges@ == room.boundary.spec_edge_positions(),
                    e <= edges@.len(),
                    forall|c: int|
                        #![trigger candidates@[c]]
                        0 <= c < candidates@.len() ==> {
                        &&& map0.spec_grid().in_bounds(candidates@[c].0)
                        &&& spec_doorway(map0.spec_grid(), candidates@[c].0, room_id) == Some(candidates@[c].1)
                        &&& !joins(connected@, candidates@[c].1)
                    },
                    forall|x: int| 0 <= x < e && #[trigger] spec_doorway(map0.spec_grid(), edges@[x], room_id) is Some
                        ==> (joins(connected@, spec_doorway(map0.spec_grid(), edges@[x], room_id).unwrap())
                        || candidates@.len() > 0),
                decreases edges@.len() - e,
            {
                proof {
                    crate::tile_rect::lemma_edge_positions_on_edge(room.boundary, e as int);
                    assert(crate::generator::rooms::valid_room_rect(map0.spec_rooms()[i as int].boundary));
                }
                let edge = edges[e];
                match self.doorway_wall_adjacent_rooms(edge, room_id, map.grid()) {
                    Some(pair) => {
                        let mut already = false;
                        let mut c: usize = 0;
                        while c < connected.len()
                            invariant
                                c <= connected@.len(),
                                already <==> exists|k: int| 0 <= k < c && ((#[trigger] connected@[k]).0 == pair
                                    || connected@[k].0 == (pair.1, pair.0)),
                            decreases connected@.len() - c,
                        {
                            let ((a, b), _) = connected[c];
                            if (a == pair.0 && b == pair.1) || (a == pair.1 && b == pair.0) {
                                already = true;
                            }
                            c += 1;
                        }
                        if !already {
                            proof {
                                if joins(connected@, pair) {
                                    let k = choose|k: int| 0 <= k < connected@.len() && ((#[trigger] connected@[k]).0 == pair
                                        || connected@[k].0 == (pair.1, pair.0));
                                    assert(already);
                                }
                            }
                            candidates.push((edge, pair));
                            proof {
                                assert(candidates@[candidates@.len() - 1] == (edge, pair));
                            }
                        }
                    },
                    None => {},
                }
                e += 1;
            }
            // If a room is only joined to one other room, there may already be a doorway from
            // that room to its adjacent. That means that we won't have any other edges to make
            // into doorways
            let ghost before = connected@;
            match choose_item(&candidates, rng) {
                Some((edge, pair)) => {
                    connected.push((pair, edge));
                    proof {
                        let c = choose|c: int| 0 <= c < candidates@.len() && candidates@[c] == (edge, pair);
                        assert(map0.spec_grid().in_bounds(candidates@[c].0));
                        assert(forall|k: int| 0 <= k < before.len() ==> connected@[k] == before[k]);
                        assert(connected@[before.len() as int] == (pair, edge));
                        assert forall|a: int, b: int|
                            #![trigger connected@[a], connected@[b]]
                            0 <= a < b < connected@.len() implies !(connected@[a].0 == connected@[b].0
                                || connected@[a].0 == (connected@[b].0.1, connected@[b].0.0)) && connected@[a].1
                                != connected@[b].1 by {
                            if b == before.len() {
                                if connected@[a].1 == edge {
                                    assert(spec_doorway(map0.spec_grid(), edge, room_id) == Some(pair));
                                    assert(is_doorway(map0, before[a]));
                                    let r = choose|r: RoomId| spec_doorway(map0.spec_grid(), before[a].1, r) == Some(before[a].0);
                                    assert(before[a].0 == pair);
                                }
                                assert(!joins(before, pair));
                                if connected@[a].0 == pair || connected@[a].0 == (pair.1, pair.0) {
                                    assert(joins(before, pair));
                                }
                            }
                        }
                        assert forall|k: int| 0 <= k < connected@.len() implies #[trigger] is_doorway(map0, connected@[k]) by {
                            if k == before.len() {
                                assert(spec_doorway(map0.spec_grid(), edge, room_id) == Some(pair));
                                assert(map0.spec_grid().in_bounds(edge));
                                assert(spec_doorway(map0.spec_grid(), connected@[k].1, room_id) == Some(connected@[k].0));
                            } else {
                                assert(connected@[k] == before[k]);
                                assert(is_doorway(map0, before[k]));
                            }
                        }
                        assert forall|x: int| 0 <= x < i + 1 && #[trigger] has_doorway_wall(map0, x) implies joined(
                            connected@,
                            RoomId(x as usize),
                        ) by {
                            if x == i {
                                assert(spec_doorway(map0.spec_grid(), edge, room_id) == Some(pair));
                                assert(pair.0 == room_id || pair.1 == room_id);
                                assert(connected@[before.len() as int].0 == pair);
                            } else {
                                assert(joined(before, RoomId(x as usize)));
                                let k = choose|k: int| 0 <= k < before.len() && ((#[trigger] before[k]).0.0 == RoomId(x as usize)
                                    || before[k].0.1 == RoomId(x as usize));
                                assert(connected@[k] == before[k]);
                            }
                        }
                    }
                },
                None => {
                    proof {
                        assert forall|x: int| 0 <= x < i + 1 && #[trigger] has_doorway_wall(map0, x) implies joined(
                            connected@,
                            RoomId(x as usize),
                        ) by {
                            if x == i {
                                let e = choose|e: int|
                                    0 <= e < map0.spec_rooms()[x].boundary.spec_edge_positions().len() && #[trigger] spec_doorway(
                                        map0.spec_grid(),
                                        map0.spec_rooms()[x].boundary.spec_edge_positions()[e],
                                        RoomId(x as usize),
                                    ) is Some;
                                assert(spec_doorway(map0.spec_grid(), edges@[e], room_id) is Some);
                                let pair = spec_doorway(map0.spec_grid(), edges@[e], room_id).unwrap();
                                assert(joins(connected@, pair));
                                let k = choose|k: int| 0 <= k < connected@.len() && ((#[trigger] connected@[k]).0 == pair
                                    || connected@[k].0 == (pair.1, pair.0));
                                assert(pair.0 == room_id || pair.1 == room_id);
                            }
                        }
                    }
                },
            }
            i += 1;
        }

        // Perform all the insertions at once
        let mut k: usize = 0;
        while k < connected.len()
            invariant
                map.spec_rooms() == map0.spec_rooms(),
                map.spec_tile_size() == map0.spec_tile_size(),
                map.spec_grid().wf(),
                map.spec_grid().nrows() == map0.spec_grid().nrows(),
                map.spec_grid().ncols() == map0.spec_grid().ncols(),
                k <= connected@.len(),
                forall|m: int| 0 <= m < connected@.len() ==> #[trigger] is_doorway(map0, connected@[m]),
                forall|a: int, b: int| 0 <= a < b < connected@.len() ==> #[trigger] connected@[a].1 != #[trigger] connected@[b].1,
                forall|p: TilePos| #[trigger] map.spec_grid().in_bounds(p) ==> map.spec_grid().tile(p) == opened(
                    connected@.take(k as int),
                    map0.spec_grid().tile(p),
                    p,
                ),
            decreases connected@.len() - k,
        {
            let ((room_id, _), edge) = connected[k];
            assert(is_doorway(map0, connected@[k as int]));
            let ghost g0 = map.spec_grid();
            map.grid_mut().set(edge, Tile::new_floor(room_id, FloorSprite::default()));
            proof {
                let done = connected@.take(k + 1);
                assert forall|p: TilePos| #[trigger] map.spec_grid().in_bounds(p) implies map.spec_grid().tile(p) == opened(
                    done,
                    map0.spec_grid().tile(p),
                    p,
                ) by {
                    assert(g0.in_bounds(p));
                    if p == edge {
                        assert(done[k as int].1 == p);
                        let m = choose|m: int| 0 <= m < done.len() && (#[trigger] done[m]).1 == p;
                        if m != k {
                            assert(connected@[m].1 != connected@[k as int].1);
                        }
                    } else {
                        assert(map.spec_grid().tile(p) == g0.tile(p));
                        if exists|m: int| 0 <= m < done.len() && (#[trigger] done[m]).1 == p {
                            let m = choose|m: int| 0 <= m < done.len() && (#[trigger] done[m]).1 == p;
                            assert(m < k);
                            assert(connected@.take(k as int)[m].1 == p);
                        }
                        if exists|m: int| 0 <= m < k && (#[trigger] connected@.take(k as int)[m]).1 == p {
                            let m = choose|m: int| 0 <= m < k && (#[trigger] connected@.take(k as int)[m]).1 == p;
                            assert(done[m].1 == p);
                        }
                    }
                }
            }
            k += 1;
        }
        proof {
            assert(connected@.take(connected@.len() as int) =~= connected@);
            assert(doorways_chosen(map0, connected@));
        }
    }
}

} // verus!
