use caves::components::{AnimationManager, BoundingBox};
use caves::generator::bounds::Bounds;
use caves::generator::enemies::{EnemyConfig, EnemyType, EnemyValues};
use caves::generator::{Fraction, GameGenerator};
use caves::grid_size::GridSize;
use caves::map_key::MapKey;
use caves::room::{RoomId, RoomType};
use caves::sprites::TextureId;
use caves::tile::{Tile, TileObject};
use caves::tile_pos::TilePos;
use caves::tile_rect::TileRect;

fn generator() -> GameGenerator {
    GameGenerator {
        attempts: 2000,
        levels: 3,
        rows: 40,
        cols: 50,
        tile_size: 16,
        rooms: (6, 9).into(),
        room_rows: (7, 14).into(),
        room_cols: (8, 16).into(),
        max_overlap: Fraction { numer: 35, denom: 100 },
        doors: (1, 3).into(),
        next_prev_tiles: 2,
    }
}

fn rects_overlap(a: TileRect, b: TileRect) -> bool {
    a.has_intersection(b)
}

#[test]
fn bounds_from_pair() {
    let b: Bounds = (3, 7).into();
    assert_eq!(b, Bounds { min: 3, max: 7 });
}

#[test]
fn fraction_compares_shares() {
    let f = Fraction { numer: 35, denom: 100 };
    assert!(f.is_exceeded_by(36, 100));
    assert!(!f.is_exceeded_by(35, 100));
    assert!(!f.is_exceeded_by(7, 20));
    assert_eq!(f.part_of(100), 35);
    assert_eq!(f.part_of(10), 3);
}

#[test]
fn generated_game_has_one_map_per_level() {
    let gen = generator();
    let key = MapKey([7u8; 32]);
    let game = gen.generate_with_key(key).expect("generation should succeed");
    assert_eq!(game.levels().len(), 3);
    assert_eq!(game.key(), key);
    for (i, level) in game.levels().iter().enumerate() {
        assert_eq!(level.grid().rows_len(), 40);
        assert_eq!(level.grid().cols_len(), 50);
        assert!(level.nrooms() >= 6);
        // Every room is joined to every other through overlapping rooms
        let rooms = level.rooms();
        let n = rooms.len();
        let mut seen = vec![false; n];
        seen[0] = true;
        let mut changed = true;
        while changed {
            changed = false;
            for a in 0..n {
                for b in 0..n {
                    if seen[a] && !seen[b] && rects_overlap(rooms[a].1.boundary, rooms[b].1.boundary) {
                        seen[b] = true;
                        changed = true;
                    }
                }
            }
        }
        assert!(seen.iter().all(|&s| s), "level {} has a room joined to no other", i + 1);
    }
}

#[test]
fn same_key_same_game() {
    let gen = generator();
    let key = MapKey([42u8; 32]);
    let a = gen.generate_with_key(key).unwrap();
    let b = gen.generate_with_key(key).unwrap();
    // Torches start their animation at a random step, so tiles are compared without it
    fn shape(t: &Tile) -> String {
        match t {
            Tile::Wall { decoration, sprite } => format!("wall {:?} {}", sprite, decoration.is_some()),
            other => format!("{:?}", other),
        }
    }
    for (la, lb) in a.levels().iter().zip(b.levels().iter()) {
        for (ra, rb) in la.grid().rows().iter().zip(lb.grid().rows().iter()) {
            for (ta, tb) in ra.iter().zip(rb.iter()) {
                assert_eq!(shape(ta), shape(tb));
            }
        }
        assert_eq!(la.rooms(), lb.rooms());
    }
}

fn stairs_ids(level: &caves::floor_map::FloorMap, to_next: bool) -> Vec<usize> {
    let mut ids = Vec::new();
    for row in level.grid().rows() {
        for tile in row {
            match tile.object() {
                Some(TileObject::ToNextLevel { id, .. }) if to_next => ids.push(*id),
                Some(TileObject::ToPrevLevel { id, .. }) if !to_next => ids.push(*id),
                _ => {},
            }
        }
    }
    ids.sort();
    ids
}

#[test]
fn stairs_join_the_levels() {
    let gen = generator();
    let game = gen.generate_with_key(MapKey([3u8; 32])).unwrap();
    let levels = game.levels();
    assert_eq!(stairs_ids(&levels[0], true), vec![0, 1]);
    assert_eq!(stairs_ids(&levels[0], false), Vec::<usize>::new());
    assert_eq!(stairs_ids(&levels[1], true), vec![0, 1]);
    assert_eq!(stairs_ids(&levels[1], false), vec![0, 1]);
    assert_eq!(stairs_ids(&levels[2], true), Vec::<usize>::new());
    assert_eq!(stairs_ids(&levels[2], false), vec![0, 1]);
}

#[test]
fn special_rooms_on_first_and_last_level() {
    let gen = generator();
    let game = gen.generate_with_key(MapKey([9u8; 32])).unwrap();
    let levels = game.levels();
    let starts = levels[0].rooms().iter().filter(|(_, r)| r.is_player_start()).count();
    assert_eq!(starts, 1);
    let treasure = levels[2].rooms().iter().filter(|(_, r)| r.room_type() == caves::room::RoomType::TreasureChamber).count();
    assert_eq!(treasure, 1);
    let middle_special = levels[1].rooms().iter().filter(|(_, r)| r.room_type() != caves::room::RoomType::Normal).count();
    assert_eq!(middle_special, 0);
    if game.check_start() {
        let p = game.game_start();
        assert!(p.x() > 0 && p.y() > 0);
    }
}

#[test]
fn walls_never_hold_objects() {
    let gen = generator();
    let game = gen.generate_with_key(MapKey([11u8; 32])).unwrap();
    for level in game.levels() {
        assert!(gen.validate_map(level));
        for row in level.grid().rows() {
            for tile in row {
                if let Tile::Wall { .. } = tile {
                    assert!(!tile.has_object());
                }
            }
        }
    }
}

#[test]
fn invalid_rect_when_fully_covered() {
    let gen = generator();
    let room = TileRect::new(TilePos { row: 2, col: 2 }, GridSize { rows: 8, cols: 9 });
    let cover = TileRect::new(TilePos { row: 0, col: 0 }, GridSize { rows: 20, cols: 20 });
    assert!(gen.is_invalid_rect(&room, &vec![room, cover]));
    // Alone, the room is as large as a room must be
    assert!(!gen.is_invalid_rect(&room, &vec![room]));
    // A room cut in two by another room is invalid
    let wide = TileRect::new(TilePos { row: 0, col: 0 }, GridSize { rows: 20, cols: 20 });
    let band = TileRect::new(TilePos { row: 5, col: 0 }, GridSize { rows: 2, cols: 20 });
    assert!(gen.is_invalid_rect(&wide, &vec![wide, band]));
    // A room whose uncovered part spans too few rows is invalid
    let top = TileRect::new(TilePos { row: 4, col: 0 }, GridSize { rows: 16, cols: 20 });
    assert!(gen.is_invalid_rect(&wide, &vec![wide, top]));
}

#[test]
fn remove_disconnected_keeps_largest_group() {
    let gen = generator();
    let a = TileRect::new(TilePos { row: 0, col: 0 }, GridSize { rows: 5, cols: 5 });
    let b = TileRect::new(TilePos { row: 3, col: 3 }, GridSize { rows: 5, cols: 5 });
    let c = TileRect::new(TilePos { row: 20, col: 20 }, GridSize { rows: 5, cols: 5 });
    let mut rects = vec![c, a, b];
    gen.remove_disconnected(&mut rects);
    assert_eq!(rects, vec![a, b]);
    // Groups of the same size: the one whose first room comes last is kept
    let mut rects = vec![a, c];
    gen.remove_disconnected(&mut rects);
    assert_eq!(rects, vec![c]);
}

#[test]
fn remove_adjacent_rooms_drops_rooms_side_by_side() {
    let gen = generator();
    let a = TileRect::new(TilePos { row: 0, col: 0 }, GridSize { rows: 5, cols: 5 });
    let b = TileRect::new(TilePos { row: 0, col: 5 }, GridSize { rows: 5, cols: 5 });
    let c = TileRect::new(TilePos { row: 20, col: 20 }, GridSize { rows: 5, cols: 5 });
    let mut rects = vec![a, b, c];
    gen.remove_adjacent_rooms(&mut rects);
    assert_eq!(rects, vec![b, c]);
}

#[test]
fn check_room_rules() {
    let gen = generator();
    let a = TileRect::new(TilePos { row: 5, col: 5 }, GridSize { rows: 10, cols: 10 });
    // Out of the map
    let far = TileRect::new(TilePos { row: 35, col: 5 }, GridSize { rows: 10, cols: 10 });
    assert_eq!(gen.check_room(far, &vec![]), None);
    // Overlapping only at a corner
    let corner = TileRect::new(TilePos { row: 13, col: 13 }, GridSize { rows: 10, cols: 10 });
    assert_eq!(gen.check_room(corner, &vec![a]), None);
    // Sharing a top row
    let same_top = TileRect::new(TilePos { row: 5, col: 30 }, GridSize { rows: 10, cols: 10 });
    assert_eq!(gen.check_room(same_top, &vec![a]), None);
    // Overlapping too much
    let much = TileRect::new(TilePos { row: 6, col: 6 }, GridSize { rows: 10, cols: 10 });
    assert_eq!(gen.check_room(much, &vec![a]), None);
    // A small overlap is fine
    let fine = TileRect::new(TilePos { row: 12, col: 8 }, GridSize { rows: 10, cols: 10 });
    assert_eq!(gen.check_room(fine, &vec![a]), Some(fine));
}

fn rat() -> EnemyValues {
    EnemyValues {
        animations: AnimationManager::standard_character_animations(30, TextureId(1)),
        attack: 2,
        speed: 3,
        health_points: 5,
        hit_wait: 10,
        bounding_box: BoundingBox::Full { width: 10, height: 8 },
    }
}

#[test]
fn enemies_start_on_free_inner_tiles() {
    let gen = generator();
    let game = gen.generate_with_key(MapKey([5u8; 32])).unwrap();
    let level = &game.levels()[1];
    let config = EnemyConfig { rat: rat(), levels: vec![vec![EnemyType::Rat]; 3] };
    let mut rng = MapKey([1u8; 32]).to_rng();
    let spawns = gen
        .add_enemies(&mut rng, level, 2, (1, 3).into(), Fraction { numer: 1, denom: 10 }, &config)
        .expect("enough attempts");
    for (i, s) in spawns.iter().enumerate() {
        assert!(level.grid().get(s.tile).is_floor());
        for q in level.grid().adjacent_positions(s.tile) {
            assert!(!level.grid().get(q).is_wall());
        }
        assert_eq!(s.position.x(), s.tile.col as i32 * 16 + 8);
        assert_eq!(s.position.y(), s.tile.row as i32 * 16 + 8);
        assert_eq!(s.values.attack, 2);
        for t in &spawns[i + 1..] {
            assert_ne!(t.tile, s.tile);
        }
    }
}

#[test]
fn no_enemies_when_none_may_be_placed() {
    let gen = generator();
    let game = gen.generate_with_key(MapKey([5u8; 32])).unwrap();
    let level = &game.levels()[1];
    let config = EnemyConfig { rat: rat(), levels: vec![vec![EnemyType::Rat]; 3] };
    let mut rng = MapKey([1u8; 32]).to_rng();
    let spawns = gen
        .add_enemies(&mut rng, level, 2, (1, 3).into(), Fraction { numer: 0, denom: 10 }, &config)
        .unwrap();
    assert!(spawns.is_empty());
    let spawns = gen
        .add_enemies(&mut rng, level, 2, (0, 0).into(), Fraction { numer: 1, denom: 10 }, &config)
        .unwrap();
    assert!(spawns.is_empty());
}

#[test]
fn stairs_need_enough_normal_rooms() {
    let mut gen = generator();
    let game = gen.generate_with_key(MapKey([5u8; 32])).unwrap();
    let mut level = game.levels()[1].clone();
    let mut rng = MapKey([1u8; 32]).to_rng();
    gen.next_prev_tiles = level.nrooms() + 1;
    assert!(gen.place_to_next_level_tiles(&mut rng, &mut level).is_err());
    gen.next_prev_tiles = 0;
    let before = level.text_cells();
    assert!(gen.place_to_prev_level_tiles(&mut rng, &mut level).is_ok());
    assert_eq!(before, level.text_cells());
}

#[test]
fn each_enemy_room_gets_the_drawn_number_of_enemies() {
    let gen = generator();
    let game = gen.generate_with_key(MapKey([5u8; 32])).unwrap();
    let level = &game.levels()[1];
    let config = EnemyConfig { rat: rat(), levels: vec![vec![EnemyType::Rat]; 3] };
    let mut rng = MapKey([1u8; 32]).to_rng();
    // exactly two enemies are drawn for every room
    let spawns = gen
        .add_enemies(&mut rng, level, 2, (2, 2).into(), Fraction { numer: 1, denom: 10 }, &config)
        .expect("enough attempts");
    for i in 0..level.nrooms() {
        let room = level.room(RoomId(i));
        let rtype = room.room_type();
        let bounds = room.boundary();
        let may_hold = (rtype == RoomType::Normal || rtype == RoomType::Challenge)
            && bounds.dim.rows >= 3
            && bounds.dim.cols >= 3;
        let count = spawns
            .iter()
            .filter(|s| matches!(level.grid().get(s.tile), Tile::Floor { room_id, .. } if room_id.0 == i))
            .count();
        let limit = level.room_exact_area(RoomId(i)) / 10;
        let expected = if !may_hold { 0 } else if limit < 2 { limit } else { 2 };
        assert_eq!(count, expected);
    }
}
