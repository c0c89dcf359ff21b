use caves::assets::{SpriteId, SpriteManager};
use caves::components::Sprite;
use caves::floor_map::{CellColor, FloorMap};
use caves::render::{camera_top_left, render_sprites, sprite_draw_call};
use caves::geometry::{Point, Rect};
use caves::grid_size::GridSize;
use caves::room::{RoomId, RoomType};
use caves::sprites::{FloorSprite, MapSprites, TextureId, WallSprite};
use caves::tile::{StairsDirection, Tile, TileObject};
use caves::tile_pos::TilePos;
use caves::tile_rect::TileRect;

/// A map of one row: a floor tile with stairs down, a wall and an empty tile
fn small_map() -> FloorMap {
    let mut map = FloorMap::new(GridSize { rows: 1, cols: 3 }, 16);
    let room = map.add_room(TileRect { top_left: TilePos { row: 0, col: 0 }, dim: GridSize { rows: 1, cols: 1 } });
    let mut floor = Tile::new_floor(room, FloorSprite::Floor3);
    floor.place_object(TileObject::ToNextLevel { id: 0, direction: StairsDirection::Right });
    map.grid_mut().place_tile(TilePos { row: 0, col: 0 }, floor);
    map.grid_mut().place_tile(TilePos { row: 0, col: 1 }, Tile::new_wall(WallSprite::default()));
    map
}

#[test]
fn render_draws_backgrounds_then_objects() {
    let map = small_map();
    let sprites = MapSprites::from_dungeon_spritesheet(TextureId(4), 16);
    let visible = vec![vec![true, true, true]];
    let calls = map.render(map.level_boundary(), Point { x: 0, y: 0 }, &sprites, &visible);
    // two backgrounds per tile, then the staircase on top of the floor tile
    assert_eq!(calls.len(), 7);
    let floor1 = sprites.floor_sprite(FloorSprite::Floor1).region;
    assert_eq!(calls[0].source, floor1);
    assert_eq!(calls[1].source, sprites.floor_sprite(FloorSprite::Floor3).region);
    assert_eq!(calls[2].source, floor1);
    assert_eq!(calls[3].source, sprites.wall_sprite(WallSprite::default()).region);
    assert_eq!(calls[4].source, floor1);
    assert_eq!(calls[5].source, sprites.empty_tile_sprite().region);
    assert_eq!(calls[6].source, sprites.staircase_down_sprite(StairsDirection::Right).region);
    for call in &calls {
        assert_eq!(call.texture_id, TextureId(4));
    }
    // the tile in the middle is drawn one tile to the right of the corner of the screen
    assert_eq!(calls[3].dest, Rect { x: 16, y: 0, w: 16, h: 16 });
}

#[test]
fn render_moves_tiles_by_the_screen_corner() {
    let map = small_map();
    let sprites = MapSprites::from_dungeon_spritesheet(TextureId(0), 16);
    let visible = vec![vec![true, true, true]];
    let calls = map.render(map.level_boundary(), Point { x: 10, y: -4 }, &sprites, &visible);
    assert_eq!(calls[0].dest, Rect { x: -10, y: 4, w: 16, h: 16 });
    assert_eq!(calls[5].dest, Rect { x: 22, y: 4, w: 16, h: 16 });
}

#[test]
fn hidden_tiles_are_drawn_empty() {
    let map = small_map();
    let sprites = MapSprites::from_dungeon_spritesheet(TextureId(0), 16);
    let visible = vec![vec![false, true, true]];
    let calls = map.render(map.level_boundary(), Point { x: 0, y: 0 }, &sprites, &visible);
    // the hidden floor tile is one empty tile and its staircase is not drawn
    assert_eq!(calls.len(), 5);
    assert_eq!(calls[0].source, sprites.empty_tile_sprite().region);
    assert_eq!(calls[0].dest, Rect { x: 0, y: 0, w: 16, h: 16 });
}

#[test]
fn render_only_draws_the_region() {
    let mut map = FloorMap::new(GridSize { rows: 10, cols: 10 }, 16);
    let room = map.add_room(TileRect { top_left: TilePos { row: 0, col: 0 }, dim: GridSize { rows: 10, cols: 10 } });
    for row in 0..10 {
        for col in 0..10 {
            map.grid_mut().place_tile(TilePos { row, col }, Tile::new_floor(room, FloorSprite::Floor1));
        }
    }
    let sprites = MapSprites::from_dungeon_spritesheet(TextureId(0), 16);
    let visible = vec![vec![true; 10]; 10];
    // a region of 2 by 3 tiles starting in tile (1, 2) reaches into the tile after it
    let region = Rect { x: 32, y: 16, w: 32, h: 16 };
    let calls = map.render(region, Point { x: 0, y: 0 }, &sprites, &visible);
    assert_eq!(calls.len(), 2 * 3 * 2);
    assert_eq!(calls[0].dest, Rect { x: 32, y: 16, w: 16, h: 16 });
}

#[test]
fn floor_map_text_rendering() {
    let mut map = small_map();
    let cells = map.text_cells();
    assert_eq!(cells.len(), 1);
    assert_eq!(cells[0].len(), 3);
    assert_eq!(cells[0][0].symbol, '\u{2193}');
    assert_eq!(cells[0][0].background, CellColor::Blue);
    assert_eq!(cells[0][1].symbol, '\u{25a2}');
    assert_eq!(cells[0][1].background, CellColor::Black);
    assert_eq!(cells[0][2].symbol, ' ');
    assert_eq!(cells[0][2].background, CellColor::Black);
    map.make_player_start(RoomId(0));
    assert_eq!(map.room(RoomId(0)).room_type(), RoomType::PlayerStart);
    assert_eq!(map.text_cells()[0][0].background, CellColor::BrightBlue);
}

#[test]
fn sprite_manager_finds_added_sprites() {
    let sprites = MapSprites::from_dungeon_spritesheet(TextureId(2), 16);
    let mut manager = SpriteManager::default();
    let a = manager.add(*sprites.empty_tile_sprite());
    let b = manager.add(*sprites.floor_sprite(FloorSprite::Floor2));
    assert_eq!(a, SpriteId(0));
    assert_eq!(b, SpriteId(1));
    assert_eq!(*manager.get(a), *sprites.empty_tile_sprite());
    assert_eq!(*manager.get(b), *sprites.floor_sprite(FloorSprite::Floor2));
}

#[test]
fn camera_keeps_the_screen_within_the_level() {
    let level = Rect { x: 0, y: 0, w: 800, h: 640 };
    // near the top left corner the screen starts at the corner of the level
    assert_eq!(camera_top_left(Point { x: 100, y: 100 }, 320, 240, level), Point { x: 0, y: 0 });
    // in the middle the focus is in the middle of the screen
    assert_eq!(camera_top_left(Point { x: 400, y: 300 }, 320, 240, level), Point { x: 240, y: 180 });
    // near the bottom right corner the screen ends at the end of the level
    assert_eq!(camera_top_left(Point { x: 790, y: 630 }, 320, 240, level), Point { x: 480, y: 400 });
    // a level narrower than the screen ends at the right edge of the screen
    let narrow = Rect { x: 0, y: 0, w: 200, h: 640 };
    assert_eq!(camera_top_left(Point { x: 100, y: 300 }, 320, 240, narrow), Point { x: -120, y: 180 });
}

#[test]
fn entity_sprites_are_centered_on_their_positions() {
    let sprite = Sprite {
        texture_id: TextureId(3),
        region: Rect { x: 64, y: 32, w: 16, h: 24 },
        flip_horizontal: true,
        flip_vertical: false,
    };
    let call = sprite_draw_call(Point { x: 50, y: 60 }, &sprite, Point { x: 10, y: 20 });
    assert_eq!(call.source, sprite.region);
    assert_eq!(call.dest, Rect { x: 32, y: 28, w: 16, h: 24 });
    assert!(call.flip_horizontal);
    assert!(!call.flip_vertical);
    let level = Rect { x: 0, y: 0, w: 800, h: 640 };
    let calls = render_sprites(Point { x: 400, y: 300 }, 320, 240, level, &vec![(Point { x: 400, y: 300 }, sprite)]);
    assert_eq!(calls.len(), 1);
    // the focus is drawn in the middle of the screen
    assert_eq!(calls[0].dest, Rect { x: 160 - 8, y: 120 - 12, w: 16, h: 24 });
}
