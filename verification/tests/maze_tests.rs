use std::collections::{HashMap, HashSet};

use caves::floor_map::CellColor;
use caves::map_key::MapKey;
use caves::maze::{Cell, PassageMap, TileType};
use caves::maze_generator::MapGenerator;
use caves::room::RoomId;
use caves::tile_pos::TilePos;
use caves::tile_rect::TileRect;
use caves::tile_walls::{TileWalls, Wall};

fn maze_generator() -> MapGenerator {
    MapGenerator {
        attempts: 5000,
        levels: 2,
        rows: 24,
        cols: 30,
        rooms: 4,
        room_width: (3, 6).into(),
        room_height: (3, 5).into(),
        passage_size: 1,
        doors: 2,
        next_prev_tiles: 1,
    }
}

fn pos(row: usize, col: usize) -> TilePos {
    TilePos { row, col }
}

/// The positions reachable from `start` through open walls
fn reachable(map: &PassageMap, start: TilePos) -> Vec<TilePos> {
    let mut seen = vec![start];
    let mut k = 0;
    while k < seen.len() {
        let p = seen[k];
        for q in map.adjacent_cells(p) {
            if map.is_open_between(p, q) && !seen.contains(&q) {
                seen.push(q);
            }
        }
        k += 1;
    }
    seen
}

/// The number of pairs of adjacent tiles with no wall between them
fn open_pairs(map: &PassageMap) -> usize {
    let mut n = 0;
    for row in 0..map.rows_len() {
        for col in 0..map.cols_len() {
            let p = pos(row, col);
            for q in map.adjacent_cells(p) {
                if map.is_open_between(p, q) {
                    n += 1;
                }
            }
        }
    }
    n / 2
}

fn all_positions(map: &PassageMap) -> Vec<TilePos> {
    let mut r = Vec::new();
    for row in 0..map.rows_len() {
        for col in 0..map.cols_len() {
            r.push(pos(row, col));
        }
    }
    r
}

#[test]
fn new_passage_map_is_empty() {
    let map = PassageMap::new(3, 4);
    assert_eq!(map.rows_len(), 3);
    assert_eq!(map.cols_len(), 4);
    for p in all_positions(&map) {
        assert!(map.is_empty(p));
    }
}

#[test]
fn adjacent_cells_in_order_north_west_south_east() {
    let map = PassageMap::new(3, 3);
    assert_eq!(map.adjacent_cells(pos(1, 1)), vec![pos(0, 1), pos(1, 0), pos(2, 1), pos(1, 2)]);
    assert_eq!(map.adjacent_cells(pos(0, 0)), vec![pos(1, 0), pos(0, 1)]);
    assert_eq!(map.adjacent_cells(pos(2, 2)), vec![pos(1, 2), pos(2, 1)]);
}

#[test]
fn opening_a_wall_opens_it_from_both_sides() {
    let mut map = PassageMap::new(2, 2);
    map.place_tile(pos(0, 0), TileType::Passageway);
    map.place_tile(pos(0, 1), TileType::Passageway);
    assert!(!map.is_open_between(pos(0, 0), pos(0, 1)));
    map.open_between(pos(0, 0), pos(0, 1));
    assert!(map.is_open_between(pos(0, 0), pos(0, 1)));
    assert!(map.is_open_between(pos(0, 1), pos(0, 0)));
    assert_eq!(map.get(pos(0, 0)).unwrap().walls.east, Wall::Open);
    assert_eq!(map.get(pos(0, 1)).unwrap().walls.west, Wall::Open);
    // the other walls stay closed
    assert_eq!(map.get(pos(0, 0)).unwrap().walls.south, Wall::Closed);
    // an empty cell is never open
    assert!(!map.is_open_between(pos(0, 0), pos(1, 0)));
}

#[test]
fn removing_a_passage_closes_the_walls_facing_it() {
    let mut map = PassageMap::new(1, 3);
    for col in 0..3 {
        map.place_tile(pos(0, col), TileType::Passageway);
    }
    map.open_between(pos(0, 0), pos(0, 1));
    map.open_between(pos(0, 1), pos(0, 2));
    assert!(!map.is_dead_end(pos(0, 1)));
    assert!(map.is_dead_end(pos(0, 0)));
    map.remove_passageway(pos(0, 1));
    assert!(map.is_empty(pos(0, 1)));
    assert_eq!(map.get(pos(0, 0)).unwrap().walls.east, Wall::Closed);
    assert_eq!(map.get(pos(0, 2)).unwrap().walls.west, Wall::Closed);
}

#[test]
fn passage_map_text_rendering() {
    let mut map = PassageMap::new(1, 3);
    map.place_tile(pos(0, 0), TileType::Passageway);
    map.place_tile(pos(0, 1), TileType::Room(RoomId(0)));
    let cells = map.text_cells();
    assert_eq!(cells.len(), 1);
    assert_eq!(cells[0][0].symbol, '\u{26ac}');
    assert_eq!(cells[0][0].background, CellColor::Green);
    assert_eq!(cells[0][1].symbol, ' ');
    assert_eq!(cells[0][1].background, CellColor::Blue);
    assert_eq!(cells[0][2].background, CellColor::Black);
}

#[test]
fn maze_spans_every_empty_cell_as_a_tree() {
    let generator = maze_generator();
    let mut rng = MapKey([7u8; 32]).to_rng();
    let mut map = PassageMap::new(6, 8);
    generator.generate_maze(&mut rng, &mut map, pos(2, 3));
    let cells = all_positions(&map);
    for &p in &cells {
        assert_eq!(map.get(p).unwrap().ttype, TileType::Passageway);
    }
    // every cell can be reached from the start, along exactly one path
    assert_eq!(reachable(&map, pos(2, 3)).len(), cells.len());
    assert_eq!(open_pairs(&map), cells.len() - 1);
}

#[test]
fn maze_stays_out_of_rooms() {
    let generator = maze_generator();
    let mut rng = MapKey([3u8; 32]).to_rng();
    let mut map = PassageMap::new(5, 5);
    // a wall of room tiles splits the map in two
    for row in 0..5 {
        map.place_tile(pos(row, 2), TileType::Room(RoomId(0)));
    }
    generator.generate_maze(&mut rng, &mut map, pos(0, 0));
    for row in 0..5 {
        for col in 0..2 {
            assert_eq!(map.get(pos(row, col)).unwrap().ttype, TileType::Passageway);
        }
        assert_eq!(map.get(pos(row, 2)).unwrap().ttype, TileType::Room(RoomId(0)));
        assert_eq!(
            map.get(pos(row, 2)).unwrap().walls,
            TileWalls { north: Wall::Closed, east: Wall::Closed, south: Wall::Closed, west: Wall::Closed }
        );
        for col in 3..5 {
            assert!(map.is_empty(pos(row, col)));
        }
    }
    assert_eq!(reachable(&map, pos(0, 0)).len(), 10);
}

#[test]
fn generated_rooms_keep_apart() {
    let generator = maze_generator();
    let mut rng = MapKey([11u8; 32]).to_rng();
    let rooms = generator.generate_rooms(&mut rng).unwrap();
    assert_eq!(rooms.len(), generator.rooms);
    for (i, &(id, room)) in rooms.iter().enumerate() {
        assert_eq!(id, RoomId(i));
        assert!(room.top_left.row + room.dim.rows < generator.rows);
        assert!(room.top_left.col + room.dim.cols < generator.cols);
        assert!(room.dim.cols >= 3 && room.dim.cols <= 6);
        assert!(room.dim.rows >= 3 && room.dim.rows <= 5);
        for &(_, other) in &rooms[..i] {
            assert!(!room.has_intersection(other.expand(generator.passage_size)));
        }
    }
}

#[test]
fn too_many_rooms_run_out_of_attempts() {
    let mut generator = maze_generator();
    generator.rooms = 500;
    generator.attempts = 50;
    let mut rng = MapKey([11u8; 32]).to_rng();
    assert!(generator.generate_rooms(&mut rng).is_err());
}

fn level_with_rooms(key: u8) -> (MapGenerator, PassageMap, Vec<(RoomId, TileRect)>) {
    let generator = maze_generator();
    let mut rng = MapKey([key; 32]).to_rng();
    let rooms = generator.generate_rooms(&mut rng).unwrap();
    let mut map = PassageMap::new(generator.rows, generator.cols);
    generator.place_rooms(&mut map, &rooms);
    generator.fill_passages(&mut rng, &mut map);
    (generator, map, rooms)
}

#[test]
fn rooms_are_placed_and_passages_fill_the_rest() {
    let (_, map, rooms) = level_with_rooms(5);
    for p in all_positions(&map) {
        let cell: Cell = map.get(p).unwrap();
        let in_room = rooms.iter().find(|(_, r)| {
            r.top_left.row <= p.row
                && p.row < r.top_left.row + r.dim.rows
                && r.top_left.col <= p.col
                && p.col < r.top_left.col + r.dim.cols
        });
        match in_room {
            Some(&(id, _)) => assert_eq!(cell.ttype, TileType::Room(id)),
            None => assert_eq!(cell.ttype, TileType::Passageway),
        }
    }
}

#[test]
fn every_room_gets_its_doors() {
    let (generator, mut map, rooms) = level_with_rooms(9);
    let mut rng = MapKey([2u8; 32]).to_rng();
    generator.connect_rooms_passages(&mut rng, &mut map, &rooms).unwrap();
    for &(_, room) in &rooms {
        let mut doors = 0;
        for row in room.top_left.row..room.top_left.row + room.dim.rows {
            for col in room.top_left.col..room.top_left.col + room.dim.cols {
                let p = pos(row, col);
                for q in map.adjacent_cells(p) {
                    if map.get(q).unwrap().ttype == TileType::Passageway && map.is_open_between(p, q) {
                        doors += 1;
                    }
                }
            }
        }
        assert_eq!(doors, generator.doors);
    }
}

#[test]
fn no_dead_ends_are_left() {
    let (generator, mut map, rooms) = level_with_rooms(4);
    let mut rng = MapKey([8u8; 32]).to_rng();
    generator.connect_rooms_passages(&mut rng, &mut map, &rooms).unwrap();
    generator.reduce_dead_ends(&mut map);
    for p in all_positions(&map) {
        assert!(!map.is_dead_end(p));
        // room tiles are never taken away
        if rooms.iter().any(|(_, r)| {
            r.top_left.row <= p.row
                && p.row < r.top_left.row + r.dim.rows
                && r.top_left.col <= p.col
                && p.col < r.top_left.col + r.dim.cols
        }) {
            assert!(!map.is_empty(p));
        }
    }
}

#[test]
fn a_lone_corridor_is_taken_away_up_to_its_last_tile() {
    let generator = MapGenerator { rows: 1, cols: 4, ..maze_generator() };
    let mut map = PassageMap::new(1, 4);
    for col in 0..4 {
        map.place_tile(pos(0, col), TileType::Passageway);
    }
    for col in 0..3 {
        map.open_between(pos(0, col), pos(0, col + 1));
    }
    generator.reduce_dead_ends(&mut map);
    // the search starts at the dead end on the left and follows the corridor; its last tile is
    // left with no open wall at all, which is no dead end
    for col in 0..3 {
        assert!(map.is_empty(pos(0, col)));
    }
    assert_eq!(
        map.get(pos(0, 3)).unwrap().walls,
        TileWalls { north: Wall::Closed, east: Wall::Closed, south: Wall::Closed, west: Wall::Closed }
    );
    assert!(!map.is_dead_end(pos(0, 3)));
}

#[test]
fn room_graph_search_reaches_linked_rooms() {
    let generator = maze_generator();
    let mut graph: HashMap<usize, Vec<usize>> = HashMap::new();
    graph.insert(0, vec![1]);
    graph.insert(1, vec![0, 2]);
    graph.insert(2, vec![1]);
    graph.insert(3, vec![4]);
    let set = |v: Vec<usize>| v.into_iter().collect::<HashSet<usize>>();
    assert_eq!(generator.rect_graph_depth_first_search(&graph, 0), set(vec![0, 1, 2]));
    assert_eq!(generator.rect_graph_depth_first_search(&graph, 3), set(vec![3, 4]));
    // a room that is not a key of the graph has no neighbours and reaches only itself
    assert_eq!(generator.rect_graph_depth_first_search(&graph, 5), set(vec![5]));
}

#[test]
fn nothing_to_do_succeeds_at_once() {
    let mut generator = maze_generator();
    generator.rooms = 0;
    let mut rng = MapKey([1u8; 32]).to_rng();
    assert_eq!(generator.generate_rooms(&mut rng).unwrap().len(), 0);
    let (mut generator, mut map, rooms) = level_with_rooms(6);
    generator.doors = 0;
    let before = map.text_cells();
    assert!(generator.connect_rooms_passages(&mut rng, &mut map, &rooms).is_ok());
    let after = map.text_cells();
    assert_eq!(before.len(), after.len());
    for (a, b) in before.iter().zip(after.iter()) {
        assert_eq!(a, b);
    }
}

#[test]
fn passages_join_every_region_of_empty_cells() {
    let generator = maze_generator();
    let mut rng = MapKey([3u8; 32]).to_rng();
    // a wall of room tiles splits the map into two regions of empty cells
    let mut map = PassageMap::new(generator.rows, generator.cols);
    for row in 0..generator.rows {
        map.place_tile(pos(row, 10), TileType::Room(RoomId(0)));
    }
    let empty: Vec<TilePos> = all_positions(&map).into_iter().filter(|p| map.get(*p).is_none()).collect();
    generator.fill_passages(&mut rng, &mut map);
    for &p in &empty {
        let joined = reachable(&map, p);
        for q in map.adjacent_cells(p) {
            if empty.contains(&q) {
                assert!(joined.contains(&q));
            }
        }
        // the region on the other side of the room tiles is not reached
        assert!(joined.iter().all(|r| (r.col < 10) == (p.col < 10)));
    }
}
