use std::collections::{HashMap, HashSet};

use caves::components::{Movement, MovementDirection};
use caves::floor_map::FloorMap;
use caves::generator::{Fraction, GameGenerator};
use caves::grid_size::GridSize;
use caves::maze::{PassageMap, TileType};
use caves::maze_generator::MapGenerator;
use caves::room::{Room, RoomId, RoomType};
use caves::sprites::FloorSprite;
use caves::tile::{StairsDirection, Tile};
use caves::tile_pos::TilePos;
use caves::tile_rect::TileRect;
use caves::tile_walls::{TileWalls, Wall};

fn pos(row: usize, col: usize) -> TilePos {
    TilePos { row, col }
}

fn rect(row: usize, col: usize, rows: usize, cols: usize) -> TileRect {
    TileRect { top_left: pos(row, col), dim: GridSize { rows, cols } }
}

fn maze_generator(doors: usize) -> MapGenerator {
    MapGenerator {
        attempts: 100,
        levels: 1,
        rows: 3,
        cols: 3,
        rooms: 1,
        room_width: (1, 1).into(),
        room_height: (1, 1).into(),
        passage_size: 1,
        doors,
        next_prev_tiles: 1,
    }
}

fn game_generator(attempts: usize) -> GameGenerator {
    GameGenerator {
        attempts,
        levels: 1,
        rows: 5,
        cols: 5,
        tile_size: 16,
        rooms: (1, 1).into(),
        room_rows: (5, 5).into(),
        room_cols: (5, 5).into(),
        max_overlap: Fraction { numer: 0, denom: 1 },
        doors: (1, 1).into(),
        next_prev_tiles: 1,
    }
}

#[test]
fn a_dead_end_has_exactly_one_open_wall() {
    let walls = |north, east, south, west| TileWalls { north, east, south, west };
    assert!(walls(Wall::Open, Wall::Locked, Wall::Closed, Wall::Closed).is_dead_end());
    assert!(walls(Wall::Closed, Wall::Closed, Wall::Closed, Wall::Open).is_dead_end());
    assert!(!walls(Wall::Open, Wall::Open, Wall::Closed, Wall::Closed).is_dead_end());
    assert!(!walls(Wall::Closed, Wall::Locked, Wall::Closed, Wall::Closed).is_dead_end());
}

#[test]
fn stairs_face_their_target() {
    assert_eq!(StairsDirection::towards_target(pos(2, 3), pos(2, 1)), StairsDirection::Left);
    assert_eq!(StairsDirection::towards_target(pos(2, 3), pos(2, 9)), StairsDirection::Right);
    // a target straight above or below leaves the stairs facing right
    assert_eq!(StairsDirection::towards_target(pos(2, 3), pos(7, 3)), StairsDirection::Right);
    assert_eq!(StairsDirection::towards_target(pos(2, 3), pos(0, 3)), StairsDirection::Right);
}

#[test]
fn the_last_change_decides_a_room_type() {
    let boundary = rect(1, 2, 3, 4);
    let mut room = Room::new(boundary);
    assert_eq!(room.room_type(), RoomType::Normal);
    room.become_treasure_chamber();
    room.become_player_start();
    assert_eq!(room.room_type(), RoomType::PlayerStart);
    room.become_treasure_chamber();
    assert_eq!(room.room_type(), RoomType::TreasureChamber);
    assert_eq!(*room.boundary(), boundary);
}

#[test]
fn moving_in_a_direction() {
    let mut m = Movement::default();
    m.move_in_direction(MovementDirection::North, 3);
    assert_eq!(m.direction, MovementDirection::North);
    assert_eq!(m.speed, 3);
    assert!(m.is_moving());
}

/// A map of passages with a room of 3 by 3 tiles at (`at`, `at`)
fn room_in_passages(size: usize, at: usize) -> PassageMap {
    let mut map = PassageMap::new(size, size);
    for row in 0..size {
        for col in 0..size {
            let in_room = at <= row && row < at + 3 && at <= col && col < at + 3;
            let ttype = if in_room { TileType::Room(RoomId(0)) } else { TileType::Passageway };
            map.place_tile(pos(row, col), ttype);
        }
    }
    map
}

#[test]
fn a_door_opens_once() {
    let generator = maze_generator(2);
    let mut map = room_in_passages(7, 2);
    let room = rect(2, 2, 3, 3);
    assert!(generator.try_door(&mut map, room, pos(2, 3), pos(1, 3)));
    assert!(map.is_open_between(pos(2, 3), pos(1, 3)));
    assert!(map.is_open_between(pos(1, 3), pos(2, 3)));
    // already open
    assert!(!generator.try_door(&mut map, room, pos(2, 3), pos(1, 3)));
}

#[test]
fn doors_avoid_corners_and_the_edge_of_the_map() {
    let generator = maze_generator(2);
    let mut map = room_in_passages(7, 2);
    // a corner of the room
    assert!(!generator.try_door(&mut map, rect(2, 2, 3, 3), pos(2, 2), pos(1, 2)));
    assert!(!map.is_open_between(pos(2, 2), pos(1, 2)));
    // a passage on the edge of the map
    let mut map = room_in_passages(5, 1);
    assert!(!generator.try_door(&mut map, rect(1, 1, 3, 3), pos(1, 2), pos(0, 2)));
    assert!(!map.is_open_between(pos(1, 2), pos(0, 2)));
}

#[test]
fn few_doors_keep_to_separate_rows_and_columns() {
    let generator = maze_generator(2);
    let mut map = room_in_passages(7, 2);
    let room = rect(2, 2, 3, 3);
    assert!(generator.try_door(&mut map, room, pos(2, 3), pos(1, 3)));
    // the column through the bottom middle tile already has a door
    assert!(!generator.try_door(&mut map, room, pos(4, 3), pos(5, 3)));
    assert!(!map.is_open_between(pos(4, 3), pos(5, 3)));
    // another row and another column
    assert!(generator.try_door(&mut map, room, pos(3, 2), pos(3, 1)));
    // with more than four doors per room the rule does not apply
    let generator = maze_generator(5);
    assert!(generator.try_door(&mut map, room, pos(4, 3), pos(5, 3)));
    assert!(map.is_open_between(pos(4, 3), pos(5, 3)));
}

/// A 5 by 5 map that is one room of floor tiles
fn floor_room() -> FloorMap {
    let mut map = FloorMap::new(GridSize { rows: 5, cols: 5 }, 16);
    let room = map.add_room(rect(0, 0, 5, 5));
    for row in 0..5 {
        for col in 0..5 {
            map.grid_mut().place_tile(pos(row, col), Tile::new_floor(room, FloorSprite::Floor1));
        }
    }
    map
}

#[test]
fn enemies_take_the_first_free_inner_tiles() {
    let generator = game_generator(2000);
    let map = floor_room();
    let area = Fraction { numer: 1, denom: 5 };
    // an edge tile and a repeated tile are refused
    let draws = vec![pos(0, 0), pos(2, 2), pos(2, 2), pos(1, 3), pos(3, 1), pos(2, 3)];
    let tiles = generator.room_spawns(&map, RoomId(0), area, 3, &draws).unwrap();
    assert_eq!(tiles, vec![pos(2, 2), pos(1, 3), pos(3, 1)]);
    // at most four of the 25 floor tiles
    let tiles = generator.room_spawns(&map, RoomId(0), Fraction { numer: 4, denom: 25 }, 9, &draws).unwrap();
    assert_eq!(tiles, vec![pos(2, 2), pos(1, 3), pos(3, 1), pos(2, 3)]);
    assert!(generator.room_spawns(&map, RoomId(0), Fraction { numer: 1, denom: 4 }, 9, &draws).is_err());
    let tiles = generator.room_spawns(&map, RoomId(0), Fraction { numer: 1, denom: 25 }, 3, &draws).unwrap();
    assert_eq!(tiles, vec![pos(2, 2)]);
    // none drawn
    assert_eq!(generator.room_spawns(&map, RoomId(0), area, 0, &Vec::new()).unwrap(), Vec::new());
}

#[test]
fn enemies_run_out_of_attempts() {
    let map = floor_room();
    let area = Fraction { numer: 1, denom: 5 };
    let draws = vec![pos(0, 0), pos(2, 2), pos(1, 1)];
    // too few free tiles drawn
    assert!(game_generator(2000).room_spawns(&map, RoomId(0), area, 3, &draws).is_err());
    // only the first two draws are tried
    assert!(game_generator(1).room_spawns(&map, RoomId(0), area, 2, &draws).is_err());
    assert_eq!(game_generator(2).room_spawns(&map, RoomId(0), area, 2, &draws).unwrap(), vec![pos(2, 2), pos(1, 1)]);
}

#[test]
fn overlapping_rooms_reach_each_other() {
    let generator = game_generator(10);
    let mut graph: HashMap<usize, Vec<usize>> = HashMap::new();
    graph.insert(0, vec![2]);
    graph.insert(2, vec![0, 7]);
    graph.insert(4, vec![]);
    let reached = generator.rect_graph_breadth_first_search(&graph, 0);
    assert_eq!(reached, [0, 2, 7].into_iter().collect::<HashSet<usize>>());
    assert_eq!(generator.rect_graph_breadth_first_search(&graph, 4), [4].into_iter().collect::<HashSet<usize>>());
    assert_eq!(generator.rect_graph_breadth_first_search(&graph, 9), [9].into_iter().collect::<HashSet<usize>>());
}
