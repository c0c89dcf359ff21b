use vstd::prelude::*;

pub mod assets;
pub mod components;
pub mod floor_map;
pub mod game;
pub mod generator;
pub mod geometry;
pub mod graph;
pub mod grid;
pub mod grid_size;
pub mod map_key;
pub mod maze;
pub mod maze_generator;
pub mod random;
pub mod render;
pub mod resources;
pub mod room;
pub mod sprites;
pub mod tile;
pub mod tile_pos;
pub mod tile_rect;
pub mod tile_walls;

verus! {
}
