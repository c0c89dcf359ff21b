use vstd::prelude::*;

use crate::geometry::{MAX_POSITION, Point, Rect};
use crate::grid::TileGrid;
use crate::grid_size::GridSize;
use crate::room::{Room, RoomId, RoomType};
use crate::tile::Tile;
use crate::tile_pos::TilePos;
use crate::tile_rect::TileRect;

verus! {

/// The background color of one cell of the text rendering of a map
#[derive(Debug, Clone, Copy, PartialEq, Eq, Structural)]
pub enum CellColor {
    Green,
    Blue,
    Red,
    BrightBlue,
    Yellow,
    Black,
}

/// One cell of the text rendering of a map: the symbol shown and its background color
#[derive(Debug, Clone, Copy, PartialEq, Eq, Structural)]
pub struct TextCell {
    pub symbol: char,
    pub background: CellColor,
}

/// The color that marks the floor of a room of the given type
pub open spec fn room_color(rtype: RoomType) -> CellColor {
    match rtype {
        RoomType::Normal => CellColor::Blue,
        RoomType::Challenge => CellColor::Red,
        RoomType::PlayerStart => CellColor::BrightBlue,
        RoomType::TreasureChamber => CellColor::Yellow,
    }
}

/// The static floor plan of a map: its grid of tiles and its rooms
#[derive(Debug, Clone)]
pub struct FloorMap {
    pub(crate) grid: TileGrid,
    /// The RoomId is the index into this field
    pub(crate) rooms: Vec<Room>,
    /// The width and height of every tile
    pub(crate) tile_size: u32,
}

impl FloorMap {
    pub closed spec fn spec_grid(&self) -> TileGrid {
        self.grid
    }

    pub closed spec fn spec_rooms(&self) -> Seq<Room> {
        self.rooms@
    }

    pub closed spec fn spec_tile_size(&self) -> u32 {
        self.tile_size
    }

    /// The rooms paired with their IDs
    pub open spec fn spec_rooms_with_ids(&self) -> Seq<(RoomId, Room)> {
        Seq::new(self.spec_rooms().len(), |i: int| (RoomId(i as usize), self.spec_rooms()[i]))
    }

    /// The grid, the tile size and the pixel size of the map fit the ranges of world
    /// coordinates
    pub open spec fn fits_world(&self) -> bool {
        &&& self.spec_grid().wf()
        &&& 0 < self.spec_tile_size()
        &&& self.spec_grid().nrows() * self.spec_tile_size() <= MAX_POSITION
        &&& self.spec_grid().ncols() * self.spec_tile_size() <= MAX_POSITION
        &&& self.spec_grid().nrows() * self.spec_grid().ncols() <= usize::MAX
    }

    /// Create a new FloorMap with the given number of rows and columns
    pub fn new(size: GridSize, tile_size: u32) -> (r: Self)
        requires
            size.rows > 0,
            size.cols > 0,
        ensures
            r.spec_grid().wf(),
            r.spec_grid().nrows() == size.rows,
            r.spec_grid().ncols() == size.cols,
            forall|p: TilePos| #[trigger] r.spec_grid().in_bounds(p) ==> r.spec_grid().tile(p) == Tile::Empty,
            r.spec_rooms() == Seq::<Room>::empty(),
            r.spec_tile_size() == tile_size,
    {
        FloorMap { grid: TileGrid::new(size), rooms: Vec::new(), tile_size }
    }

    /// Returns the size of each tile on this map
    pub fn tile_size(&self) -> (r: u32)
        ensures
            r == self.spec_tile_size(),
    {
        self.tile_size
    }

    /// Returns the number of rooms
    pub fn nrooms(&self) -> (r: usize)
        ensures
            r == self.spec_rooms().len(),
    {
        self.rooms.len()
    }

    /// Returns the rooms in the map with their IDs
    pub fn rooms(&self) -> (r: Vec<(RoomId, Room)>)
        ensures
            r@ == self.spec_rooms_with_ids(),
    {
        let mut r: Vec<(RoomId, Room)> = Vec::new();
        let mut i: usize = 0;
        while i < self.rooms.len()
            invariant
                i <= self.rooms@.len(),
                r@ == Seq::new(i as nat, |k: int| (RoomId(k as usize), self.rooms@[k])),
            decreases self.rooms@.len() - i,
        {
            r.push((RoomId(i), self.rooms[i]));
            proof {
                assert(r@ =~= Seq::new((i + 1) as nat, |k: int| (RoomId(k as usize), self.rooms@[k])));
            }
            i += 1;
        }
        r
    }

    /// Returns the room with the specified room ID
    pub fn room(&self, room_id: RoomId) -> (r: &Room)
        requires
            room_id.0 < self.spec_rooms().len(),
        ensures
            *r == self.spec_rooms()[room_id.0 as int],
    {
        &self.rooms[room_id.0]
    }

    /// Changes the type of the room with the given ID to the player start room
    pub fn make_player_start(&mut self, room_id: RoomId)
        requires
            room_id.0 < old(self).spec_rooms().len(),
        ensures
            final(self).spec_rooms() == old(self).spec_rooms().update(
                room_id.0 as int,
                Room { rtype: crate::room::RoomType::PlayerStart, boundary: old(self).spec_rooms()[room_id.0 as int].boundary },
            ),
            final(self).spec_grid() == old(self).spec_grid(),
            final(self).spec_tile_size() == old(self).spec_tile_size(),
    {
        let mut room = self.rooms[room_id.0];
        room.become_player_start();
        self.rooms.set(room_id.0, room);
    }

    /// Changes the type of the room with the given ID to the treasure chamber
    pub fn make_treasure_chamber(&mut self, room_id: RoomId)
        requires
            room_id.0 < old(self).spec_rooms().len(),
        ensures
            final(self).spec_rooms() == old(self).spec_rooms().update(
                room_id.0 as int,
                Room { rtype: crate::room::RoomType::TreasureChamber, boundary: old(self).spec_rooms()[room_id.0 as int].boundary },
            ),
            final(self).spec_grid() == old(self).spec_grid(),
            final(self).spec_tile_size() == old(self).spec_tile_size(),
    {
        let mut room = self.rooms[room_id.0];
        room.become_treasure_chamber();
        self.rooms.set(room_id.0, room);
    }

    /// Add a room with the given rectangle to the map.
    /// Rooms should not be added after map generation is complete.
    pub fn add_room(&mut self, rect: TileRect) -> (r: RoomId)
        requires
            old(self).spec_rooms().len() < usize::MAX,
        ensures
            final(self).spec_rooms() == old(self).spec_rooms().push(
                Room { rtype: crate::room::RoomType::Normal, boundary: rect },
            ),
            r.0 == old(self).spec_rooms().len(),
            final(self).spec_grid() == old(self).spec_grid(),
            final(self).spec_tile_size() == old(self).spec_tile_size(),
    {
        let room = Room::new(rect);
        self.rooms.push(room);
        RoomId(self.rooms.len() - 1)
    }

    /// The grid of tiles of the map
    pub fn grid(&self) -> (r: &TileGrid)
        ensures
            *r == self.spec_grid(),
    {
        &self.grid
    }

    /// The grid of tiles of the map, to be changed during map generation
    pub fn grid_mut(&mut self) -> (r: &mut TileGrid)
        ensures
            *r == old(self).spec_grid(),
            final(self).spec_grid() == *final(r),
            final(self).spec_rooms() == old(self).spec_rooms(),
            final(self).spec_tile_size() == old(self).spec_tile_size(),
    {
        &mut self.grid
    }

    /// The first row or column of tiles that a coordinate falls into, kept within the grid
    pub open spec fn clamp_index(v: int, tile_size: int, n: int) -> int {
        if v / tile_size < n - 1 { v / tile_size } else { n - 1 }
    }

    /// The top left tile and the size of the region of tiles within (or around) `bounds`
    pub open spec fn spec_area_within(&self, bounds: Rect) -> (TilePos, GridSize) {
        let ts = self.spec_tile_size() as int;
        let x = if bounds.x < 0 { 0 } else { bounds.x as int };
        let y = if bounds.y < 0 { 0 } else { bounds.y as int };
        let nrows = self.spec_grid().nrows() as int;
        let ncols = self.spec_grid().ncols() as int;
        let start_row = FloorMap::clamp_index(y, ts, nrows);
        let start_col = FloorMap::clamp_index(x, ts, ncols);
        let end_row = FloorMap::clamp_index(y + bounds.h, ts, nrows);
        let end_col = FloorMap::clamp_index(x + bounds.w, ts, ncols);
        (
            TilePos { row: start_row as usize, col: start_col as usize },
            GridSize { rows: (end_row - start_row + 1) as usize, cols: (end_col - start_col + 1) as usize },
        )
    }

    /// Returns the top left tile and the size of the region of tiles within (or around) the
    /// region defined by bounds
    pub fn area_within(&self, bounds: Rect) -> (r: (TilePos, GridSize))
        requires
            self.fits_world(),
            bounds.wf(),
        ensures
            r == self.spec_area_within(bounds),
            1 <= r.1.rows,
            1 <= r.1.cols,
            r.0.row + r.1.rows <= self.spec_grid().nrows(),
            r.0.col + r.1.cols <= self.spec_grid().ncols(),
    {
        let ts = self.tile_size as usize;
        let nrows = self.grid.rows_len();
        let ncols = self.grid.cols_len();
        let x: usize = if bounds.x() < 0 { 0 } else { bounds.x() as usize };
        let y: usize = if bounds.y() < 0 { 0 } else { bounds.y() as usize };
        let width = bounds.width() as usize;
        let height = bounds.height() as usize;

        let start_row = if y / ts < nrows - 1 { y / ts } else { nrows - 1 };
        let start_col = if x / ts < ncols - 1 { x / ts } else { ncols - 1 };
        let end_row = if (y + height) / ts < nrows - 1 { (y + height) / ts } else { nrows - 1 };
        let end_col = if (x + width) / ts < ncols - 1 { (x + width) / ts } else { ncols - 1 };
        proof {
            assert((y as int) / (ts as int) <= (y + height) / (ts as int)) by (nonlinear_arith)
                requires ts > 0;
            assert((x as int) / (ts as int) <= (x + width) / (ts as int)) by (nonlinear_arith)
                requires ts > 0;
        }
        let rows = end_row - start_row + 1;
        let cols = end_col - start_col + 1;
        (TilePos { row: start_row, col: start_col }, GridSize { rows, cols })
    }

    /// Returns the tiles within (or around) the region defined by bounds: for each, its position
    /// in world coordinates, its position in the grid and the tile, row by row.
    ///
    /// The region may start at negative coordinates, but the top left of the map is (0, 0), so at
    /// most the tiles up to that corner are returned.
    pub fn tiles_within(&self, bounds: Rect) -> (r: Vec<(Point, TilePos, Tile)>)
        requires
            self.fits_world(),
            bounds.wf(),
        ensures
            ({
                let (tl, size) = self.spec_area_within(bounds);
                &&& r@.len() == size.rows * size.cols
                &&& forall|i: int, j: int|
                    0 <= i < size.rows && 0 <= j < size.cols ==> {
                        let pos = TilePos { row: (tl.row + i) as usize, col: (tl.col + j) as usize };
                        #[trigger] r@[i * size.cols + j] == (
                            Point::spec_new(pos.col * self.spec_tile_size(), pos.row * self.spec_tile_size()),
                            pos,
                            self.spec_grid().tile(pos),
                        )
                    }
            }),
    {
        let ts = self.tile_size as usize;
        let nrows = self.grid.rows_len();
        let ncols = self.grid.cols_len();
        let (start, size) = self.area_within(bounds);
        let start_row = start.row;
        let start_col = start.col;
        let rows = size.rows;
        let cols = size.cols;
        proof {
            assert(rows * cols <= nrows * ncols) by (nonlinear_arith)
                requires rows <= nrows, cols <= ncols;
            assert(ts <= nrows * ts) by (nonlinear_arith)
                requires nrows >= 1;
        }

        let positions = self.grid.tile_positions_within(
            TilePos { row: start_row, col: start_col },
            GridSize { rows, cols },
        );
        let mut r: Vec<(Point, TilePos, Tile)> = Vec::new();
        let mut k: usize = 0;
        while k < positions.len()
            invariant
                self.fits_world(),
                ts == self.spec_tile_size(),
                nrows == self.spec_grid().nrows(),
                ncols == self.spec_grid().ncols(),
                ts <= MAX_POSITION,
                start_row + rows <= nrows,
                start_col + cols <= ncols,
                positions@.len() == rows * cols,
                forall|i: int, j: int|
                    0 <= i < rows && 0 <= j < cols ==> #[trigger] positions@[i * cols + j]
                        == (TilePos { row: (start_row + i) as usize, col: (start_col + j) as usize }),
                k <= positions@.len(),
                r@.len() == k,
                forall|q: int| 0 <= q < k ==> {
                    let pos = #[trigger] positions@[q];
                    r@[q] == (
                        Point::spec_new(pos.col * self.spec_tile_size(), pos.row * self.spec_tile_size()),
                        pos,
                        self.spec_grid().tile(pos),
                    )
                },
            decreases positions@.len() - k,
        {
            let pos = positions[k];
            proof {
                let i = (k as int) / (cols as int);
                let j = (k as int) % (cols as int);
                assert(k == i * cols + j && 0 <= j < cols) by (nonlinear_arith)
                    requires cols > 0, i == (k as int) / (cols as int), j == (k as int) % (cols as int);
                assert(0 <= i < rows) by (nonlinear_arith)
                    requires k < rows * cols, k == i * cols + j, 0 <= j < cols, cols > 0;
                assert(pos.row < nrows && pos.col < ncols);
                assert(pos.col * ts <= ncols * ts) by (nonlinear_arith)
                    requires pos.col < ncols;
                assert(pos.row * ts <= nrows * ts) by (nonlinear_arith)
                    requires pos.row < nrows;
            }
            let point = pos.to_point(self.tile_size as i32);
            let tile = *self.grid.get(pos);
            r.push((point, pos, tile));
            proof {
                assert(r@[k as int] == (
                    Point::spec_new(pos.col * self.spec_tile_size(), pos.row * self.spec_tile_size()),
                    pos,
                    self.spec_grid().tile(pos),
                ));
            }
            k += 1;
        }
        proof {
            assert forall|i: int, j: int| 0 <= i < rows && 0 <= j < cols implies {
                let pos = TilePos { row: (start_row + i) as usize, col: (start_col + j) as usize };
                #[trigger] r@[i * cols + j] == (
                    Point::spec_new(pos.col * self.spec_tile_size(), pos.row * self.spec_tile_size()),
                    pos,
                    self.spec_grid().tile(pos),
                )
            } by {
                assert(0 <= i * cols + j < rows * cols) by (nonlinear_arith)
                    requires 0 <= i < rows, 0 <= j < cols;
                assert(positions@[i * cols + j] == TilePos { row: (start_row + i) as usize, col: (start_col + j) as usize });
            }
        }
        r
    }

    /// Every floor tile belongs to a room of the map
    pub open spec fn room_ids_valid(&self) -> bool {
        forall|p: TilePos| #[trigger] self.spec_grid().in_bounds(p) ==> match self.spec_grid().tile(p) {
            Tile::Floor { room_id, .. } => room_id.0 < self.spec_rooms().len(),
            _ => true,
        }
    }

    /// How a tile shows in the text rendering of the map: a floor tile shows its object, if any,
    /// on the color of its room; walls and empty tiles show on black
    pub open spec fn spec_cell(&self, tile: Tile) -> TextCell {
        match tile {
            Tile::Floor { room_id, object, .. } => TextCell {
                symbol: match object {
                    Some(o) => o.spec_symbol(),
                    None => ' ',
                },
                background: room_color(self.spec_rooms()[room_id.0 as int].rtype),
            },
            Tile::Wall { .. } => TextCell { symbol: '\u{25a2}', background: CellColor::Black },
            Tile::Empty => TextCell { symbol: ' ', background: CellColor::Black },
        }
    }

    /// Returns the text rendering of the map, row by row
    pub fn text_cells(&self) -> (r: Vec<Vec<TextCell>>)
        requires
            self.spec_grid().wf(),
            self.room_ids_valid(),
        ensures
            r@.len() == self.spec_grid().nrows(),
            forall|i: int| 0 <= i < r@.len() ==> (#[trigger] r@[i])@.len() == self.spec_grid().ncols(),
            forall|i: int, j: int| 0 <= i < r@.len() && 0 <= j < r@[i]@.len() ==> #[trigger] r@[i]@[j]
                == self.spec_cell(self.spec_grid().tile(TilePos { row: i as usize, col: j as usize })),
    {
        let nrows = self.grid.rows_len();
        let ncols = self.grid.cols_len();
        let mut r: Vec<Vec<TextCell>> = Vec::new();
        let mut row: usize = 0;
        while row < nrows
            invariant
                self.spec_grid().wf(),
                self.room_ids_valid(),
                nrows == self.spec_grid().nrows(),
                ncols == self.spec_grid().ncols(),
                row <= nrows,
                r@.len() == row,
                forall|i: int| 0 <= i < r@.len() ==> (#[trigger] r@[i])@.len() == ncols,
                forall|i: int, j: int| 0 <= i < r@.len() && 0 <= j < r@[i]@.len() ==> #[trigger] r@[i]@[j]
                    == self.spec_cell(self.spec_grid().tile(TilePos { row: i as usize, col: j as usize })),
            decreases nrows - row,
        {
            let mut cells: Vec<TextCell> = Vec::new();
            let mut col: usize = 0;
            while col < ncols
                invariant
                    self.spec_grid().wf(),
                    self.room_ids_valid(),
                    nrows == self.spec_grid().nrows(),
                    ncols == self.spec_grid().ncols(),
                    row < nrows,
                    col <= ncols,
                    cells@.len() == col,
                    forall|j: int| 0 <= j < col ==> #[trigger] cells@[j]
                        == self.spec_cell(self.spec_grid().tile(TilePos { row, col: j as usize })),
                decreases ncols - col,
            {
                let pos = TilePos { row, col };
                assert(self.spec_grid().in_bounds(pos));
                let cell = match self.grid.get(pos) {
                    Tile::Floor { room_id, object, .. } => {
                        let symbol = match object {
                            Some(o) => o.symbol(),
                            None => ' ',
                        };
                        let background = match self.rooms[room_id.0].room_type() {
                            RoomType::Normal => CellColor::Blue,
                            RoomType::Challenge => CellColor::Red,
                            RoomType::PlayerStart => CellColor::BrightBlue,
                            RoomType::TreasureChamber => CellColor::Yellow,
                        };
                        TextCell { symbol, background }
                    },
                    Tile::Wall { .. } => TextCell { symbol: '\u{25a2}', background: CellColor::Black },
                    Tile::Empty => TextCell { symbol: ' ', background: CellColor::Black },
                };
                cells.push(cell);
                col += 1;
            }
            r.push(cells);
            row += 1;
        }
        r
    }

    /// The extent of the map in world coordinates
    pub fn level_boundary(&self) -> (r: Rect)
        requires
            self.fits_world(),
        ensures
            r == Rect::spec_new(
                0,
                0,
                self.spec_grid().ncols() * self.spec_tile_size(),
                self.spec_grid().nrows() * self.spec_tile_size(),
            ),
    {
        GridSize { rows: self.grid.rows_len(), cols: self.grid.cols_len() }.to_rect(self.tile_size)
    }
}


/// How the text rendering colours a tile: the floor of a normal room blue, of a challenge room
/// red, of the room the player starts in bright blue and of the treasure chamber yellow, and walls
/// and empty tiles black. Floors of rooms of different types never share a colour, and no floor
/// is black.
pub proof fn lemma_text_colors(map: FloorMap, tile: Tile, other: Tile)
    ensures
        tile matches Tile::Floor { room_id, .. } ==> {
            let t = map.spec_rooms()[room_id.0 as int].rtype;
            let c = map.spec_cell(tile).background;
            &&& t == RoomType::Normal ==> c == CellColor::Blue
            &&& t == RoomType::Challenge ==> c == CellColor::Red
            &&& t == RoomType::PlayerStart ==> c == CellColor::BrightBlue
            &&& t == RoomType::TreasureChamber ==> c == CellColor::Yellow
            &&& c != CellColor::Black
        },
        !(tile is Floor) ==> map.spec_cell(tile).background == CellColor::Black,
        tile is Floor && other is Floor && map.spec_rooms()[tile->Floor_room_id.0 as int].rtype
            != map.spec_rooms()[other->Floor_room_id.0 as int].rtype ==> map.spec_cell(tile).background
            != map.spec_cell(other).background,
{
}

} // verus!
