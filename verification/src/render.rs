//! What drawing the tiles of a map takes: the sprites to copy from their spritesheets and where
//! they go on the screen, in the order in which they are drawn
use vstd::prelude::*;

use crate::components::Sprite;
use crate::floor_map::FloorMap;
use crate::geometry::{MAX_POSITION, MAX_SIZE, Point, Rect};
use crate::sprites::{FloorSprite, MapSprites, SpriteImage, TextureId, floor_sprite_index, wall_sprite_index};
use crate::tile::{StairsDirection, Tile, TileObject};
use crate::tile_pos::TilePos;

verus! {

/// One copy of a sprite from its spritesheet onto the screen
#[derive(Debug, Clone, Copy, PartialEq, Eq, Structural)]
pub struct DrawCall {
    /// The spritesheet to copy from
    pub texture_id: TextureId,
    /// The region of the spritesheet to copy
    pub source: Rect,
    /// Where the sprite goes on the screen
    pub dest: Rect,
    pub flip_horizontal: bool,
    pub flip_vertical: bool,
}

/// The sprite drawn as the background of a tile
pub open spec fn spec_background(tile: Tile, sprites: MapSprites) -> SpriteImage {
    match tile {
        Tile::Floor { sprite, .. } => sprites.floor_tiles@[floor_sprite_index(sprite)],
        Tile::Wall { sprite, .. } => sprites.wall_tiles@[wall_sprite_index(sprite)],
        Tile::Empty => sprites.empty_tile_sprite,
    }
}

/// The sprite drawn on top of the background of a tile: the staircase on tiles with stairs
pub open spec fn spec_foreground(tile: Tile, sprites: MapSprites) -> Option<SpriteImage> {
    match tile.spec_object() {
        Some(TileObject::ToNextLevel { direction, .. }) => Some(
            sprites.staircase_down_tiles@[if direction == StairsDirection::Right { 0 } else { 1 }],
        ),
        Some(TileObject::ToPrevLevel { direction, .. }) => Some(
            sprites.staircase_up_tiles@[if direction == StairsDirection::Right { 0 } else { 1 }],
        ),
        _ => None,
    }
}

/// The tile holds nothing that has no sprite: no object, or stairs
pub open spec fn drawable(tile: Tile) -> bool {
    match tile.spec_object() {
        Some(TileObject::ToNextLevel { .. }) | Some(TileObject::ToPrevLevel { .. }) | None => true,
        _ => false,
    }
}

/// Which tiles are shown, row by row
pub open spec fn shown(visible: Seq<Seq<bool>>, p: TilePos) -> bool {
    visible[p.row as int][p.col as int]
}

/// The rows of the visibility grid
pub open spec fn visibility(visible: &Vec<Vec<bool>>) -> Seq<Seq<bool>> {
    visible@.map_values(|r: Vec<bool>| r@)
}

impl FloorMap {
    /// The copy of `sprite` for a tile whose top left corner is at `pos` in world coordinates,
    /// with the screen's top left corner at `top_left`: the sprite is anchored against the tile's
    /// square on the screen and then moved by its own offset
    pub open spec fn spec_draw_call(&self, pos: Point, sprite: SpriteImage, top_left: Point) -> DrawCall {
        let ts = self.spec_tile_size() as int;
        let dest = Rect::spec_new(pos.x - top_left.x, pos.y - top_left.y, ts, ts);
        let a = sprite.spec_apply_anchor(dest);
        DrawCall {
            texture_id: sprite.texture_id,
            source: sprite.region,
            dest: Rect {
                x: Rect::moved(a.x as int, sprite.dest_offset.x as int) as i32,
                y: Rect::moved(a.y as int, sprite.dest_offset.y as int) as i32,
                w: a.w,
                h: a.h,
            },
            flip_horizontal: sprite.flip_horizontal,
            flip_vertical: sprite.flip_vertical,
        }
    }

    /// The top left corner of a tile in world coordinates
    pub open spec fn corner(&self, p: TilePos) -> Point {
        Point::spec_new(p.col * self.spec_tile_size(), p.row * self.spec_tile_size())
    }

    /// The copies drawn for the background of the tile at `p`: the default floor and the tile's
    /// background when it is shown, the empty tile when it is not
    pub open spec fn background_calls(&self, sprites: MapSprites, visible: Seq<Seq<bool>>, top_left: Point, p: TilePos) -> Seq<DrawCall> {
        let corner = self.corner(p);
        if shown(visible, p) {
            seq![
                self.spec_draw_call(corner, sprites.floor_tiles@[floor_sprite_index(FloorSprite::Floor1)], top_left),
                self.spec_draw_call(corner, spec_background(self.spec_grid().tile(p), sprites), top_left),
            ]
        } else {
            seq![self.spec_draw_call(corner, sprites.empty_tile_sprite, top_left)]
        }
    }

    /// The copy drawn for the object of the tile at `p`, if it has a sprite and the tile is shown.
    /// The object of a wall is drawn only when the tile south of it is shown, since objects within
    /// a room should only be visible when that room is visible.
    pub open spec fn foreground_calls(&self, sprites: MapSprites, visible: Seq<Seq<bool>>, top_left: Point, p: TilePos) -> Seq<DrawCall> {
        let tile = self.spec_grid().tile(p);
        let south_shown = p.row + 1 < self.spec_grid().nrows() && shown(
            visible,
            TilePos { row: (p.row + 1) as usize, col: p.col },
        );
        if shown(visible, p) && (!tile.spec_is_wall() || south_shown) && spec_foreground(tile, sprites) is Some {
            seq![self.spec_draw_call(self.corner(p), spec_foreground(tile, sprites).unwrap(), top_left)]
        } else {
            Seq::empty()
        }
    }

    /// The copies drawn for the backgrounds of the first `n` tiles of a row, from column `col` on
    pub open spec fn backgrounds(
        &self,
        sprites: MapSprites,
        visible: Seq<Seq<bool>>,
        top_left: Point,
        row: int,
        col: int,
        n: nat,
    ) -> Seq<DrawCall>
        decreases n,
    {
        if n == 0 {
            Seq::empty()
        } else {
            self.backgrounds(sprites, visible, top_left, row, col, (n - 1) as nat)
                + self.background_calls(sprites, visible, top_left, TilePos { row: row as usize, col: (col + n - 1) as usize })
        }
    }

    /// The copies drawn for the objects of the first `n` tiles of a row, from column `col` on
    pub open spec fn foregrounds(
        &self,
        sprites: MapSprites,
        visible: Seq<Seq<bool>>,
        top_left: Point,
        row: int,
        col: int,
        n: nat,
    ) -> Seq<DrawCall>
        decreases n,
    {
        if n == 0 {
            Seq::empty()
        } else {
            self.foregrounds(sprites, visible, top_left, row, col, (n - 1) as nat)
                + self.foreground_calls(sprites, visible, top_left, TilePos { row: row as usize, col: (col + n - 1) as usize })
        }
    }

    /// The copies drawn for the first `n` rows of the area with top left tile `start` and
    /// `ncols` columns. In each row all the backgrounds come first, then all the objects, so that
    /// an object can overlap the background of the tile on its right.
    pub open spec fn rows_calls(
        &self,
        sprites: MapSprites,
        visible: Seq<Seq<bool>>,
        top_left: Point,
        start: TilePos,
        ncols: nat,
        n: nat,
    ) -> Seq<DrawCall>
        decreases n,
    {
        if n == 0 {
            Seq::empty()
        } else {
            let row = start.row + n - 1;
            self.rows_calls(sprites, visible, top_left, start, ncols, (n - 1) as nat)
                + self.backgrounds(sprites, visible, top_left, row, start.col as int, ncols)
                + self.foregrounds(sprites, visible, top_left, row, start.col as int, ncols)
        }
    }

    /// The copies drawn for the tiles within (or around) `region`, row by row
    pub open spec fn spec_render(&self, region: Rect, top_left: Point, sprites: MapSprites, visible: Seq<Seq<bool>>) -> Seq<DrawCall> {
        let (start, size) = self.spec_area_within(region);
        self.rows_calls(sprites, visible, top_left, start, size.cols as nat, size.rows as nat)
    }

    /// Every tile of the area that is shown holds nothing without a sprite
    pub open spec fn area_drawable(&self, region: Rect, visible: Seq<Seq<bool>>) -> bool {
        let (start, size) = self.spec_area_within(region);
        forall|p: TilePos|
            start.row <= p.row < start.row + size.rows && start.col <= p.col < start.col + size.cols
                && #[trigger] shown(visible, p) ==> drawable(self.spec_grid().tile(p))
    }

    /// Returns the copy of `sprite` for a tile whose top left corner is at `pos` in world
    /// coordinates, with the screen's top left corner at `render_top_left`
    pub fn draw_call(&self, pos: Point, sprite: &SpriteImage, render_top_left: Point) -> (r: DrawCall)
        requires
            sprite.region.wf(),
            i32::MIN <= pos.x - render_top_left.x <= i32::MAX,
            i32::MIN <= pos.y - render_top_left.y <= i32::MAX,
        ensures
            r == self.spec_draw_call(pos, *sprite, render_top_left),
    {
        // The destination rectangle that this sprite should be aligned against. The sprite is not
        // required to be confined to this rectangle; it only decides how the sprite is laid out.
        // The position of the tile is moved by the screen's top left corner to get to screen
        // coordinates.
        let dest = Rect::new(pos.x - render_top_left.x, pos.y - render_top_left.y, self.tile_size(), self.tile_size());
        let mut dest_rect = sprite.apply_anchor(dest);
        dest_rect.offset(sprite.dest_offset.x, sprite.dest_offset.y);
        DrawCall {
            texture_id: sprite.texture_id,
            source: sprite.region,
            dest: dest_rect,
            flip_horizontal: sprite.flip_horizontal,
            flip_vertical: sprite.flip_vertical,
        }
    }

    /// Returns the copies that draw the tiles of the map within (or around) the given region,
    /// with the screen's top left corner at `render_top_left`. `visible` tells for each tile
    /// whether it is shown; tiles that are not are drawn as empty tiles.
    pub fn render(&self, region: Rect, render_top_left: Point, sprites: &MapSprites, visible: &Vec<Vec<bool>>) -> (r: Vec<DrawCall>)
        requires
            self.fits_world(),
            region.wf(),
            render_top_left.wf(),
            sprites.wf(),
            sprites.regions_wf(),
            visible@.len() == self.spec_grid().nrows(),
            forall|i: int| 0 <= i < visible@.len() ==> (#[trigger] visible@[i])@.len() == self.spec_grid().ncols(),
            self.area_drawable(region, visibility(visible)),
        ensures
            r@ == self.spec_render(region, render_top_left, *sprites, visibility(visible)),
    {
        let ghost vis = visibility(visible);
        // Need to paint the default floor under every tile in case the background sprite being
        // used is actually something that doesn't take up the entire space (e.g. a column tile)
        let default_floor = sprites.floor_sprite(FloorSprite::default());
        let (start, size) = self.area_within(region);
        let nrows = self.grid().rows_len();
        let ts = self.tile_size();
        proof {
            let nc = self.spec_grid().ncols();
            assert(nc <= nc * ts && ts <= nc * ts) by (nonlinear_arith)
                requires nc >= 1, ts >= 1;
        }
        let mut r: Vec<DrawCall> = Vec::new();
        let mut i: usize = 0;
        while i < size.rows
            invariant
                self.fits_world(),
                render_top_left.wf(),
                sprites.wf(),
                sprites.regions_wf(),
                vis == visibility(visible),
                visible@.len() == self.spec_grid().nrows(),
                forall|i: int| 0 <= i < visible@.len() ==> (#[trigger] visible@[i])@.len() == self.spec_grid().ncols(),
                self.area_drawable(region, vis),
                (start, size) == self.spec_area_within(region),
                start.row + size.rows <= self.spec_grid().nrows(),
                start.col + size.cols <= self.spec_grid().ncols(),
                nrows == self.spec_grid().nrows(),
                ts == self.spec_tile_size(),
                ts <= MAX_POSITION,
                self.spec_grid().ncols() <= MAX_POSITION,
                *default_floor == sprites.floor_tiles@[floor_sprite_index(FloorSprite::Floor1)],
                i <= size.rows,
                r@ == self.rows_calls(*sprites, vis, render_top_left, start, size.cols as nat, i as nat),
            decreases size.rows - i,
        {
            let row = start.row + i;
            let ghost before = r@;
            let mut j: usize = 0;
            while j < size.cols
                invariant
                    self.fits_world(),
                    render_top_left.wf(),
                    sprites.wf(),
                    sprites.regions_wf(),
                    vis == visibility(visible),
                    visible@.len() == self.spec_grid().nrows(),
                    forall|i: int| 0 <= i < visible@.len() ==> (#[trigger] visible@[i])@.len() == self.spec_grid().ncols(),
                    row < self.spec_grid().nrows(),
                    start.col + size.cols <= self.spec_grid().ncols(),
                    ts == self.spec_tile_size(),
                    ts <= MAX_POSITION,
                    self.spec_grid().ncols() <= MAX_POSITION,
                    *default_floor == sprites.floor_tiles@[floor_sprite_index(FloorSprite::Floor1)],
                    j <= size.cols,
                    r@ == before + self.backgrounds(*sprites, vis, render_top_left, row as int, start.col as int, j as nat),
                decreases size.cols - j,
            {
                let pos = TilePos { row, col: start.col + j };
                proof { self.lemma_corner_fits(pos); }
                let point = pos.to_point(ts as i32);
                assert(point == self.corner(pos));
                let ghost prev = r@;
                if visible[row][pos.col] {
                    assert(shown(vis, pos));
                    let below = self.draw_call(point, default_floor, render_top_left);
                    r.push(below);
                    let tile = self.grid().get(pos);
                    let background = self.draw_call(point, tile.background_sprite(sprites), render_top_left);
                    assert(*tile == self.spec_grid().tile(pos));
                    assert(background == self.spec_draw_call(point, spec_background(*tile, *sprites), render_top_left));
                    r.push(background);
                } else {
                    let empty = self.draw_call(point, sprites.empty_tile_sprite(), render_top_left);
                    r.push(empty);
                }
                proof {
                    assert(r@ =~= prev + self.background_calls(*sprites, vis, render_top_left, pos));
                    assert(r@ =~= before + self.backgrounds(*sprites, vis, render_top_left, row as int, start.col as int, (j + 1) as nat));
                }
                j += 1;
            }
            let ghost middle = r@;
            let mut j: usize = 0;
            while j < size.cols
                invariant
                    self.fits_world(),
                    render_top_left.wf(),
                    sprites.wf(),
                    sprites.regions_wf(),
                    vis == visibility(visible),
                    visible@.len() == self.spec_grid().nrows(),
                    forall|i: int| 0 <= i < visible@.len() ==> (#[trigger] visible@[i])@.len() == self.spec_grid().ncols(),
                    self.area_drawable(region, vis),
                    (start, size) == self.spec_area_within(region),
                    start.row <= row < start.row + size.rows,
                    row < self.spec_grid().nrows(),
                    start.col + size.cols <= self.spec_grid().ncols(),
                    nrows == self.spec_grid().nrows(),
                    ts == self.spec_tile_size(),
                    ts <= MAX_POSITION,
                    self.spec_grid().ncols() <= MAX_POSITION,
                    j <= size.cols,
                    r@ == middle + self.foregrounds(*sprites, vis, render_top_left, row as int, start.col as int, j as nat),
                decreases size.cols - j,
            {
                let pos = TilePos { row, col: start.col + j };
                proof { self.lemma_corner_fits(pos); }
                let ghost prev = r@;
                if visible[row][pos.col] {
                    let tile = self.grid().get(pos);
                    // Do not want to render the wall decoration if we are not going to render the
                    // tile south of this wall. Reason: Objects within a room should only be visible
                    // when that room is visible
                    let south_shown = match pos.adjacent_south(nrows) {
                        Some(south) => visible[south.row][south.col],
                        None => false,
                    };
                    if !tile.is_wall() || south_shown {
                        proof {
                            assert(shown(vis, pos));
                        }
                        match tile.object_sprite(sprites) {
                            Some(sprite) => {
                                let point = pos.to_point(ts as i32);
                                let call = self.draw_call(point, sprite, render_top_left);
                                r.push(call);
                            },
                            None => {},
                        }
                    }
                }
                proof {
                    assert(r@ =~= prev + self.foreground_calls(*sprites, vis, render_top_left, pos));
                    assert(r@ =~= middle + self.foregrounds(*sprites, vis, render_top_left, row as int, start.col as int, (j + 1) as nat));
                }
                j += 1;
            }
            proof {
                assert(r@ =~= self.rows_calls(*sprites, vis, render_top_left, start, size.cols as nat, (i + 1) as nat));
            }
            i += 1;
        }
        r
    }

    /// The top left corner of every tile of the grid lies within the world
    proof fn lemma_corner_fits(&self, p: TilePos)
        requires
            self.fits_world(),
            p.row < self.spec_grid().nrows(),
            p.col < self.spec_grid().ncols(),
        ensures
            p.col * self.spec_tile_size() <= MAX_POSITION,
            p.row * self.spec_tile_size() <= MAX_POSITION,
            self.corner(p).wf(),
            self.corner(p).x == p.col * self.spec_tile_size(),
            self.corner(p).y == p.row * self.spec_tile_size(),
            0 <= self.corner(p).x,
            0 <= self.corner(p).y,
    {
        let ts = self.spec_tile_size();
        assert(p.col * ts <= self.spec_grid().ncols() * ts) by (nonlinear_arith)
            requires p.col < self.spec_grid().ncols();
        assert(p.row * ts <= self.spec_grid().nrows() * ts) by (nonlinear_arith)
            requires p.row < self.spec_grid().nrows();
        assert(0 <= p.col * ts && 0 <= p.row * ts) by (nonlinear_arith);
    }
}

/// `x` kept between `min` and `max`; when `max` is below `min`, `max`
pub open spec fn clamp_between(min: int, x: int, max: int) -> int {
    let at_least = if x < min { min } else { x };
    if at_least > max { max } else { at_least }
}

/// The top left corner of the screen in world coordinates: the camera's focus in the middle of
/// the screen, moved so that the screen starts no further left or up than the level and goes no
/// further right or down than its end
pub open spec fn spec_camera_top_left(focus: Point, screen_width: u32, screen_height: u32, level: Rect) -> Point {
    let center = Point::spec_new(screen_width as int / 2, screen_height as int / 2);
    let top_left = focus.spec_offset(-center.x, -center.y);
    let max_x = level.x + level.w - screen_width;
    let max_y = level.y + level.h - screen_height;
    Point::spec_new(clamp_between(0, top_left.x as int, max_x), clamp_between(0, top_left.y as int, max_y))
}

/// The copy of an entity's sprite: its region of the spritesheet centered on the entity's
/// position on the screen
pub open spec fn spec_sprite_draw_call(pos: Point, sprite: Sprite, top_left: Point) -> DrawCall {
    DrawCall {
        texture_id: sprite.texture_id,
        source: sprite.region,
        dest: sprite.region.spec_centered_on(pos.spec_offset(-top_left.x, -top_left.y)),
        flip_horizontal: sprite.flip_horizontal,
        flip_vertical: sprite.flip_vertical,
    }
}

/// Returns the top left corner of the screen in world coordinates for a camera focused on the
/// given position of a level
pub fn camera_top_left(focus: Point, screen_width: u32, screen_height: u32, level_boundary: Rect) -> (r: Point)
    requires
        screen_width <= MAX_SIZE,
        screen_height <= MAX_SIZE,
        level_boundary.wf(),
    ensures
        r == spec_camera_top_left(focus, screen_width, screen_height, level_boundary),
{
    let screen_center = Point::new((screen_width / 2) as i32, (screen_height / 2) as i32);
    // The position on the map of the screen's top left corner. Adding this point to the position
    // of the camera's focus would draw it in the center of the screen
    let render_center = focus.sub(screen_center);
    // The camera stays within the level boundary: these are the valid ranges of the top left
    // corner of the screen
    let max_x = level_boundary.x + level_boundary.w as i32 - screen_width as i32;
    let max_y = level_boundary.y + level_boundary.h as i32 - screen_height as i32;
    let x = if render_center.x < 0 { 0 } else { render_center.x };
    let x = if x > max_x { max_x } else { x };
    let y = if render_center.y < 0 { 0 } else { render_center.y };
    let y = if y > max_y { max_y } else { y };
    Point::new(x, y)
}

/// Returns the copy of an entity's sprite for an entity at `pos`, with the screen's top left
/// corner at `render_top_left`
pub fn sprite_draw_call(pos: Point, sprite: &Sprite, render_top_left: Point) -> (r: DrawCall)
    requires
        sprite.region.wf(),
        render_top_left.wf(),
    ensures
        r == spec_sprite_draw_call(pos, *sprite, render_top_left),
{
    let pos = pos.sub(render_top_left);
    let mut dest_rect = sprite.region;
    dest_rect.center_on(pos);
    DrawCall {
        texture_id: sprite.texture_id,
        source: sprite.region,
        dest: dest_rect,
        flip_horizontal: sprite.flip_horizontal,
        flip_vertical: sprite.flip_vertical,
    }
}

/// Returns the copies of the sprites of the given entities, each at its position, for a screen
/// of the given size whose camera is focused on `focus` in the given level
pub fn render_sprites(
    focus: Point,
    screen_width: u32,
    screen_height: u32,
    level_boundary: Rect,
    entities: &Vec<(Point, Sprite)>,
) -> (r: Vec<DrawCall>)
    requires
        screen_width <= MAX_SIZE,
        screen_height <= MAX_SIZE,
        level_boundary.wf(),
        forall|i: int| 0 <= i < entities@.len() ==> (#[trigger] entities@[i]).1.region.wf(),
    ensures
        r@.len() == entities@.len(),
        forall|i: int| 0 <= i < entities@.len() ==> #[trigger] r@[i] == spec_sprite_draw_call(
            entities@[i].0,
            entities@[i].1,
            spec_camera_top_left(focus, screen_width, screen_height, level_boundary),
        ),
{
    let top_left = camera_top_left(focus, screen_width, screen_height, level_boundary);
    let mut r: Vec<DrawCall> = Vec::new();
    let mut i: usize = 0;
    while i < entities.len()
        invariant
            top_left == spec_camera_top_left(focus, screen_width, screen_height, level_boundary),
            top_left.wf(),
            forall|i: int| 0 <= i < entities@.len() ==> (#[trigger] entities@[i]).1.region.wf(),
            i <= entities@.len(),
            r@.len() == i,
            forall|k: int| 0 <= k < i ==> #[trigger] r@[k] == spec_sprite_draw_call(entities@[k].0, entities@[k].1, top_left),
        decreases entities@.len() - i,
    {
        let (pos, sprite) = entities[i];
        r.push(sprite_draw_call(pos, &sprite, top_left));
        i += 1;
    }
    r
}

} // verus!
