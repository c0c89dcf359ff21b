# caves

A cave and dungeon exploration game whose levels are generated procedurally from a map key. The
generator draws every random number from the key, so a key is meant to give the same game each
time; that part is not proved, because the random number generator does not promise the same
numbers for a seed across builds. This crate is the game's verified core, written in Verus:
the map model, the level generators and the rules that the game's components follow, each with a
contract that Verus proves.

## Layout

- `src/geometry.rs`, `grid_size.rs`, `tile_pos.rs`, `tile_rect.rs`: points, rectangles, grid
  positions and spans of tiles.
- `src/tile.rs`, `tile_walls.rs`, `room.rs`, `grid.rs`, `floor_map.rs`: the tiles of a level, its
  grid and its rooms; the text rendering of a level.
- `src/sprites.rs`, `assets.rs`, `render.rs`: the sprites of the map and the draw calls that put a
  level on the screen.
- `src/generator/`: the level generator of the game: rooms partitioned out of the map, joined by
  doorways, stairs to the next and previous levels, sprite patterns and enemies.
- `src/maze.rs`, `maze_generator.rs`: the maze generator: rooms set apart and the space around
  them filled with mazes of passages, with doors onto the rooms and dead ends taken away.
- `src/graph.rs`: walks and reachability over graphs.
- `src/map_key.rs`, `random.rs`: map keys and their text, and the random number generator.
- `src/game.rs`, `components.rs`, `resources.rs`: the generated game and the game's components
  and resources.
- `tests/`: tests on concrete values.
- `app/main.rs`: a command line program that generates a game from a key (or a random one) and
  prints its levels in colour.
