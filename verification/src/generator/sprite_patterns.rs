//! Choosing the sprites of the walls of a level and placing its torches
use vstd::prelude::*;

use rand::rngs::StdRng;

use crate::floor_map::FloorMap;
use crate::generator::GameGenerator;
use crate::graph::count_true;
use crate::grid::TileGrid;
use crate::sprites::{WallSprite, WallSpriteAlternate};
use crate::tile::{Tile, WallDecoration};
use crate::tile_pos::TilePos;

verus! {

/// The tile at the optional position is a wall
pub open spec fn wall_at(grid: TileGrid, p: Option<TilePos>) -> bool {
    match p {
        Some(q) => grid.tile(q).spec_is_wall(),
        None => false,
    }
}

/// The wall at `p` with a sprite that shows the walls next to it, in the given style, keeping its
/// decoration
pub open spec fn patterned_wall(grid: TileGrid, p: TilePos, alt: WallSpriteAlternate) -> Tile {
    Tile::Wall {
        decoration: grid.tile(p)->Wall_decoration,
        sprite: WallSprite {
            wall_north: wall_at(grid, p.north()),
            wall_east: wall_at(grid, p.east(grid.ncols() as usize)),
            wall_south: wall_at(grid, p.south(grid.nrows() as usize)),
            wall_west: wall_at(grid, p.west()),
            alt,
        },
    }
}

/// One of the three plain wall styles
pub open spec fn plain_style(alt: WallSpriteAlternate) -> bool {
    alt == WallSpriteAlternate::Alt0 || alt == WallSpriteAlternate::Alt1 || alt == WallSpriteAlternate::Alt2
}

/// The tile at `p` after the wall sprites are laid out: a wall whose style has not been chosen in
/// advance gets a sprite that shows the walls next to it, in one of the plain styles; every other
/// tile stays as it was
pub open spec fn sprite_laid(grid: TileGrid, p: TilePos, t: Tile) -> bool {
    if grid.tile(p) matches Tile::Wall { sprite, .. } && sprite.alt == WallSpriteAlternate::Alt0 {
        exists|alt: WallSpriteAlternate| plain_style(alt) && t == #[trigger] patterned_wall(grid, p, alt)
    } else {
        t == grid.tile(p)
    }
}

/// A torch may hang on the wall at `p`: it is not in the last row and the tile below it is a floor
/// tile without an object
pub open spec fn can_torch(grid: TileGrid, p: TilePos) -> bool {
    &&& p.row + 1 < grid.nrows()
    &&& grid.tile(p).spec_is_wall()
    &&& grid.tile(TilePos { row: (p.row + 1) as usize, col: p.col }).spec_is_floor()
    &&& !grid.tile(TilePos { row: (p.row + 1) as usize, col: p.col }).spec_has_object()
}

/// For each column up to `n`, whether a torch may hang on the wall of that column in the row
pub open spec fn torch_flags(grid: TileGrid, row: usize, n: int) -> Seq<bool> {
    Seq::new(n as nat, |c: int| can_torch(grid, TilePos { row, col: c as usize }))
}

/// A torch hangs at `p`: torches may hang there, and it is the third of every four walls of its
/// row where they may (counting from the left)
pub open spec fn torch_spot(grid: TileGrid, p: TilePos) -> bool {
    &&& can_torch(grid, p)
    &&& count_true(torch_flags(grid, p.row, p.col + 1)) % 4 == 2
}

/// The tile is a wall with a torch whose animation has not advanced yet
pub open spec fn has_fresh_torch(t: Tile) -> bool {
    &&& t is Wall
    &&& t->Wall_decoration matches Some(WallDecoration::Torch(a)) && a.frame_counter == 0
}

/// The tile at `p` after the torches are placed
pub open spec fn torch_placed(grid: TileGrid, p: TilePos, t: Tile) -> bool {
    if torch_spot(grid, p) {
        &&& t is Wall
        &&& t->Wall_sprite == grid.tile(p)->Wall_sprite
        &&& has_fresh_torch(t)
    } else {
        t == grid.tile(p)
    }
}

impl GameGenerator {
    /// Lays out the wall sprites and the torches of the map
    pub fn layout_floor_wall_sprites(&self, rng: &mut StdRng, map: &mut FloorMap)
        requires
            old(map).spec_grid().wf(),
            old(map).spec_grid().nrows() * old(map).spec_grid().ncols() <= usize::MAX,
        ensures
            final(map).spec_rooms() == old(map).spec_rooms(),
            final(map).spec_tile_size() == old(map).spec_tile_size(),
            final(map).spec_grid().wf(),
            final(map).spec_grid().nrows() == old(map).spec_grid().nrows(),
            final(map).spec_grid().ncols() == old(map).spec_grid().ncols(),
            forall|p: TilePos| #[trigger] final(map).spec_grid().in_bounds(p) ==> {
                let t = final(map).spec_grid().tile(p);
                &&& t.spec_is_wall() == old(map).spec_grid().tile(p).spec_is_wall()
                &&& (torch_spot(old(map).spec_grid(), p) ==> has_fresh_torch(t))
                &&& (!torch_spot(old(map).spec_grid(), p) ==> sprite_laid(old(map).spec_grid(), p, t))
            },
    {
        let ghost g0 = map.spec_grid();
        self.layout_wall_sprites(rng, map);
        let ghost g1 = map.spec_grid();
        proof {
            assert forall|p: TilePos| #[trigger] g1.in_bounds(p) implies can_torch(g1, p) == can_torch(g0, p) by {
                let below = TilePos { row: (p.row + 1) as usize, col: p.col };
                if p.row + 1 < g0.nrows() {
                    assert(g1.in_bounds(below));
                    assert(sprite_laid(g0, below, g1.tile(below)));
                }
                assert(sprite_laid(g0, p, g1.tile(p)));
            }
            assert forall|p: TilePos| #[trigger] g1.in_bounds(p) implies torch_spot(g1, p) == torch_spot(g0, p) by {
                assert(torch_flags(g1, p.row, p.col + 1) =~= torch_flags(g0, p.row, p.col + 1)) by {
                    assert forall|c: int| 0 <= c < p.col + 1 implies #[trigger] torch_flags(g1, p.row, p.col + 1)[c]
                        == torch_flags(g0, p.row, p.col + 1)[c] by {
                        let q = TilePos { row: p.row, col: c as usize };
                        assert(g1.in_bounds(q));
                    }
                }
            }
        }
        self.layout_wall_torch_sprites(map);
        proof {
            assert forall|p: TilePos| #[trigger] map.spec_grid().in_bounds(p) implies {
                let t = map.spec_grid().tile(p);
                &&& t.spec_is_wall() == g0.tile(p).spec_is_wall()
                &&& (torch_spot(g0, p) ==> has_fresh_torch(t))
                &&& (!torch_spot(g0, p) ==> sprite_laid(g0, p, t))
            } by {
                assert(g1.in_bounds(p));
                assert(sprite_laid(g0, p, g1.tile(p)));
                assert(torch_placed(g1, p, map.spec_grid().tile(p)));
            }
        }
    }

    /// Gives each wall tile whose style has not been chosen in advance a sprite that shows which
    /// tiles next to it are walls, in a randomly chosen plain style
    pub fn layout_wall_sprites(&self, rng: &mut StdRng, map: &mut FloorMap)
        requires
            old(map).spec_grid().wf(),
            old(map).spec_grid().nrows() * old(map).spec_grid().ncols() <= usize::MAX,
        ensures
            final(map).spec_rooms() == old(map).spec_rooms(),
            final(map).spec_tile_size() == old(map).spec_tile_size(),
            final(map).spec_grid().wf(),
            final(map).spec_grid().nrows() == old(map).spec_grid().nrows(),
            final(map).spec_grid().ncols() == old(map).spec_grid().ncols(),
            forall|p: TilePos| #[trigger] final(map).spec_grid().in_bounds(p) ==> sprite_laid(
                old(map).spec_grid(),
                p,
                final(map).spec_grid().tile(p),
            ),
    {
        let ghost g0 = map.spec_grid();
        let rows = map.grid().rows_len();
        let cols = map.grid().cols_len();
        let mut row: usize = 0;
        while row < rows
            invariant
                g0 == old(map).spec_grid(),
                g0.wf(),
                rows == g0.nrows(),
                cols == g0.ncols(),
                row <= rows,
                map.spec_rooms() == old(map).spec_rooms(),
                map.spec_tile_size() == old(map).spec_tile_size(),
                map.spec_grid().wf(),
                map.spec_grid().nrows() == rows,
                map.spec_grid().ncols() == cols,
                forall|p: TilePos| #[trigger] map.spec_grid().in_bounds(p) ==> (p.row < row ==> sprite_laid(
                    g0,
                    p,
                    map.spec_grid().tile(p),
                )) && (p.row >= row ==> map.spec_grid().tile(p) == g0.tile(p)),
            decreases rows - row,
        {
            let mut col: usize = 0;
            while col < cols
                invariant
                    g0 == old(map).spec_grid(),
                    g0.wf(),
                    rows == g0.nrows(),
                    cols == g0.ncols(),
                    row < rows,
                    col <= cols,
                    map.spec_rooms() == old(map).spec_rooms(),
                    map.spec_tile_size() == old(map).spec_tile_size(),
                    map.spec_grid().wf(),
                    map.spec_grid().nrows() == rows,
                    map.spec_grid().ncols() == cols,
                    forall|p: TilePos| #[trigger] map.spec_grid().in_bounds(p) ==> (p.row < row || (p.row == row && p.col < col)
                        ==> sprite_laid(g0, p, map.spec_grid().tile(p))) && (!(p.row < row || (p.row == row && p.col < col))
                        ==> map.spec_grid().tile(p) == g0.tile(p)),
                decreases cols - col,
            {
                let pos = TilePos { row, col };
                let ghost before = map.spec_grid();
                let tile = *map.grid().get(pos);
                // Walls whose sprite already has a predetermined alternate keep it
                if tile.is_wall() && tile.wall_sprite().alt == WallSpriteAlternate::default() {
                    let mut wall_sprite = WallSprite::default();
                    wall_sprite.alt = WallSpriteAlternate::random(rng);
                    // The walls next to this one, read from the grid as it was: only the sprites of
                    // walls change, never which tiles are walls
                    wall_sprite.wall_north = match pos.adjacent_north() {
                        Some(q) => map.grid().get(q).is_wall(),
                        None => false,
                    };
                    wall_sprite.wall_east = match pos.adjacent_east(cols) {
                        Some(q) => map.grid().get(q).is_wall(),
                        None => false,
                    };
                    wall_sprite.wall_south = match pos.adjacent_south(rows) {
                        Some(q) => map.grid().get(q).is_wall(),
                        None => false,
                    };
                    wall_sprite.wall_west = match pos.adjacent_west() {
                        Some(q) => map.grid().get(q).is_wall(),
                        None => false,
                    };
                    proof {
                        assert forall|q: TilePos| #[trigger] before.in_bounds(q) implies before.tile(q).spec_is_wall()
                            == g0.tile(q).spec_is_wall() by {
                            if q.row < row || (q.row == row && q.col < col) {
                                assert(sprite_laid(g0, q, before.tile(q)));
                            }
                        }
                    }
                    let mut new_tile = tile;
                    new_tile.set_wall_sprite(wall_sprite);
                    map.grid_mut().set(pos, new_tile);
                    proof {
                        let alt = wall_sprite.alt;
                        assert(before.in_bounds(pos));
                        assert(tile == g0.tile(pos));
                        if let Some(q) = pos.north() {
                            assert(before.in_bounds(q));
                        }
                        if let Some(q) = pos.east(cols) {
                            assert(before.in_bounds(q));
                        }
                        if let Some(q) = pos.south(rows) {
                            assert(before.in_bounds(q));
                        }
                        if let Some(q) = pos.west() {
                            assert(before.in_bounds(q));
                        }
                        assert(wall_sprite.wall_north == wall_at(g0, pos.north()));
                        assert(wall_sprite.wall_east == wall_at(g0, pos.east(g0.ncols() as usize)));
                        assert(wall_sprite.wall_south == wall_at(g0, pos.south(g0.nrows() as usize)));
                        assert(wall_sprite.wall_west == wall_at(g0, pos.west()));
                        assert(new_tile == patterned_wall(g0, pos, alt));
                        assert(sprite_laid(g0, pos, new_tile));
                    }
                }
                proof {
                    assert forall|p: TilePos| #[trigger] map.spec_grid().in_bounds(p) implies (p.row < row || (p.row == row
                        && p.col < col + 1) ==> sprite_laid(g0, p, map.spec_grid().tile(p))) && (!(p.row < row || (p.row
                        == row && p.col < col + 1)) ==> map.spec_grid().tile(p) == g0.tile(p)) by {
                        assert(before.in_bounds(p));
                        if p != pos {
                            assert(map.spec_grid().tile(p) == before.tile(p));
                        }
                    }
                }
                col += 1;
            }
            row += 1;
        }
    }

    /// Places torches on walls: in each row, on every fourth wall (the third of each four) that a
    /// torch may hang on, counting from the left
    pub fn layout_wall_torch_sprites(&self, map: &mut FloorMap)
        requires
            old(map).spec_grid().wf(),
        ensures
            final(map).spec_rooms() == old(map).spec_rooms(),
            final(map).spec_tile_size() == old(map).spec_tile_size(),
            final(map).spec_grid().wf(),
            final(map).spec_grid().nrows() == old(map).spec_grid().nrows(),
            final(map).spec_grid().ncols() == old(map).spec_grid().ncols(),
            forall|p: TilePos| #[trigger] final(map).spec_grid().in_bounds(p) ==> torch_placed(
                old(map).spec_grid(),
                p,
                final(map).spec_grid().tile(p),
            ),
    {
        // For every span of wall tiles of this size, we will try to put a torch approximately in
        // the middle of them. Only wall tiles where a torch could actually be placed count towards
        // this total.
        let torch_frequency: usize = 4;
        let ghost g0 = map.spec_grid();
        let rows = map.grid().rows_len();
        let cols = map.grid().cols_len();
        // No need to add torches to last row of walls
        let mut row: usize = 0;
        while row < rows - 1
            invariant
                g0 == old(map).spec_grid(),
                g0.wf(),
                rows == g0.nrows(),
                cols == g0.ncols(),
                torch_frequency == 4,
                row <= rows - 1,
                map.spec_rooms() == old(map).spec_rooms(),
                map.spec_tile_size() == old(map).spec_tile_size(),
                map.spec_grid().wf(),
                map.spec_grid().nrows() == rows,
                map.spec_grid().ncols() == cols,
                forall|p: TilePos| #[trigger] map.spec_grid().in_bounds(p) ==> (p.row < row ==> torch_placed(
                    g0,
                    p,
                    map.spec_grid().tile(p),
                )) && (p.row >= row ==> map.spec_grid().tile(p) == g0.tile(p)),
            decreases rows - row,
        {
            // Count of walls that could have a torch
            let mut can_torch_count: usize = 0;
            let mut col: usize = 0;
            while col < cols
                invariant
                    g0 == old(map).spec_grid(),
                    g0.wf(),
                    rows == g0.nrows(),
                    cols == g0.ncols(),
                    torch_frequency == 4,
                    row + 1 < rows,
                    col <= cols,
                    can_torch_count == count_true(torch_flags(g0, row, col as int)),
                    can_torch_count <= col,
                    map.spec_rooms() == old(map).spec_rooms(),
                    map.spec_tile_size() == old(map).spec_tile_size(),
                    map.spec_grid().wf(),
                    map.spec_grid().nrows() == rows,
                    map.spec_grid().ncols() == cols,
                    forall|p: TilePos| #[trigger] map.spec_grid().in_bounds(p) ==> (p.row < row || (p.row == row && p.col < col)
                        ==> torch_placed(g0, p, map.spec_grid().tile(p))) && (!(p.row < row || (p.row == row && p.col < col))
                        ==> map.spec_grid().tile(p) == g0.tile(p)),
                decreases cols - col,
            {
                let pos = TilePos { row, col };
                let below = TilePos { row: row + 1, col };
                let ghost before = map.spec_grid();
                proof {
                    assert(torch_flags(g0, row, col + 1).drop_last() =~= torch_flags(g0, row, col as int));
                    assert(before.in_bounds(pos));
                    assert(before.in_bounds(below));
                    assert(before.tile(pos) == g0.tile(pos));
                    assert(before.tile(below) == g0.tile(below));
                }
                let tile = *map.grid().get(pos);
                let south = *map.grid().get(below);
                if tile.is_wall() && south.is_floor() && !south.has_object() {
                    can_torch_count += 1;
                    if can_torch_count % torch_frequency == torch_frequency / 2 {
                        let mut new_tile = tile;
                        new_tile.place_wall_torch();
                        map.grid_mut().set(pos, new_tile);
                    }
                }
                proof {
                    assert forall|p: TilePos| #[trigger] map.spec_grid().in_bounds(p) implies (p.row < row || (p.row == row
                        && p.col < col + 1) ==> torch_placed(g0, p, map.spec_grid().tile(p))) && (!(p.row < row || (p.row
                        == row && p.col < col + 1)) ==> map.spec_grid().tile(p) == g0.tile(p)) by {
                        assert(before.in_bounds(p));
                        if p != pos {
                            assert(map.spec_grid().tile(p) == before.tile(p));
                        }
                    }
                }
                col += 1;
            }
            row += 1;
        }
        proof {
            assert forall|p: TilePos| #[trigger] map.spec_grid().in_bounds(p) implies torch_placed(g0, p, map.spec_grid().tile(p)) by {
                if p.row >= row {
                    assert(!can_torch(g0, p));
                }
            }
        }
    }
}

} // verus!
