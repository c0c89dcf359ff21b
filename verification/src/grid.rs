use vstd::prelude::*;

use crate::grid_size::GridSize;
use crate::room::RoomId;
use crate::tile::Tile;
use crate::tile_pos::TilePos;
use crate::tile_rect::TileRect;

verus! {

/// The positions held by an optional position: none or one
pub open spec fn opt_seq(p: Option<TilePos>) -> Seq<TilePos> {
    match p {
        Some(q) => seq![q],
        None => Seq::empty(),
    }
}

/// A floor tile of a room other than `id`
pub open spec fn is_other_room_floor(t: Tile, id: RoomId) -> bool {
    match t {
        Tile::Floor { room_id, .. } => room_id != id,
        _ => false,
    }
}

/// A 2D grid of tiles: a non-empty list of rows of the same non-zero length
#[derive(Debug, Clone)]
pub struct TileGrid {
    pub(crate) rows: Vec<Vec<Tile>>,
}

impl View for TileGrid {
    type V = Seq<Seq<Tile>>;

    closed spec fn view(&self) -> Seq<Seq<Tile>> {
        self.rows@.map_values(|r: Vec<Tile>| r@)
    }
}

impl TileGrid {
    /// At least one row, at least one column, and every row as long as the first
    pub open spec fn wf(&self) -> bool {
        &&& self@.len() >= 1
        &&& self@[0].len() >= 1
        &&& forall|i: int| 0 <= i < self@.len() ==> #[trigger] self@[i].len() == self@[0].len()
    }

    pub open spec fn nrows(&self) -> nat {
        self@.len()
    }

    pub open spec fn ncols(&self) -> nat {
        self@[0].len()
    }

    pub open spec fn in_bounds(&self, pos: TilePos) -> bool {
        pos.row < self.nrows() && pos.col < self.ncols()
    }

    /// The tile at the given position
    pub open spec fn tile(&self, pos: TilePos) -> Tile {
        self@[pos.row as int][pos.col as int]
    }

    /// The grid with the tile at `pos` replaced
    pub open spec fn with_tile(&self, pos: TilePos, tile: Tile) -> Seq<Seq<Tile>> {
        self@.update(pos.row as int, self@[pos.row as int].update(pos.col as int, tile))
    }

    /// The positions adjacent to `pos` in the order north, east, south, west
    pub open spec fn spec_adjacent_positions(&self, pos: TilePos) -> Seq<TilePos> {
        opt_seq(pos.north()) + opt_seq(pos.east(self.ncols() as usize)) + opt_seq(pos.south(self.nrows() as usize))
            + opt_seq(pos.west())
    }

    /// A floor tile with at least one adjacent floor tile of another room
    pub open spec fn spec_is_room_entrance(&self, pos: TilePos) -> bool {
        match self.tile(pos) {
            Tile::Floor { room_id, .. } => exists|k: int|
                0 <= k < self.spec_adjacent_positions(pos).len() && is_other_room_floor(
                    #[trigger] self.tile(self.spec_adjacent_positions(pos)[k]),
                    room_id,
                ),
            _ => false,
        }
    }

    /// Create a new TileGrid of empty tiles with the given number of rows and columns
    pub fn new(size: GridSize) -> (r: Self)
        requires
            size.rows > 0,
            size.cols > 0,
        ensures
            r.wf(),
            r.nrows() == size.rows,
            r.ncols() == size.cols,
            forall|p: TilePos| #[trigger] r.in_bounds(p) ==> r.tile(p) == Tile::Empty,
    {
        let mut rows: Vec<Vec<Tile>> = Vec::new();
        let mut i: usize = 0;
        while i < size.rows
            invariant
                i <= size.rows,
                rows@.len() == i,
                forall|a: int| 0 <= a < i ==> #[trigger] rows@[a]@.len() == size.cols,
                forall|a: int, b: int| 0 <= a < i && 0 <= b < size.cols ==> #[trigger] rows@[a]@[b] == Tile::Empty,
            decreases size.rows - i,
        {
            let mut row: Vec<Tile> = Vec::new();
            let mut j: usize = 0;
            while j < size.cols
                invariant
                    j <= size.cols,
                    row@.len() == j,
                    forall|b: int| 0 <= b < j ==> #[trigger] row@[b] == Tile::Empty,
                decreases size.cols - j,
            {
                row.push(Tile::empty());
                j += 1;
            }
            rows.push(row);
            i += 1;
        }
        let r = TileGrid { rows };
        assert(r@.len() == size.rows);
        assert forall|a: int| 0 <= a < r@.len() implies #[trigger] r@[a].len() == r@[0].len() by {
            assert(r@[a] == rows@[a]@);
        }
        r
    }

    /// Returns the number of rows in this grid
    pub fn rows_len(&self) -> (r: usize)
        ensures
            r == self.nrows(),
    {
        self.rows.len()
    }

    /// Returns the number of columns in this grid
    pub fn cols_len(&self) -> (r: usize)
        requires
            self.wf(),
        ensures
            r == self.ncols(),
    {
        self.rows[0].len()
    }

    /// Returns the rows of the grid
    pub fn rows(&self) -> (r: &Vec<Vec<Tile>>)
        ensures
            r@.len() == self@.len(),
            forall|i: int| 0 <= i < self@.len() ==> #[trigger] r@[i]@ == self@[i],
    {
        &self.rows
    }

    /// Gets the tile at the given position
    pub fn get(&self, pos: TilePos) -> (r: &Tile)
        requires
            self.wf(),
            self.in_bounds(pos),
        ensures
            *r == self.tile(pos),
    {
        assert(self.rows@[pos.row as int]@ == self@[pos.row as int]);
        &self.rows[pos.row][pos.col]
    }

    /// Replaces the tile at the given position
    pub fn set(&mut self, pos: TilePos, tile: Tile)
        requires
            old(self).wf(),
            old(self).in_bounds(pos),
        ensures
            final(self)@ == old(self).with_tile(pos, tile),
            final(self).wf(),
            final(self).nrows() == old(self).nrows(),
            final(self).ncols() == old(self).ncols(),
    {
        let ghost before = self@;
        assert(self.rows@[pos.row as int]@ == self@[pos.row as int]);
        self.rows[pos.row].set(pos.col, tile);
        assert(self@ =~= before.update(pos.row as int, before[pos.row as int].update(pos.col as int, tile)));
        assert forall|i: int| 0 <= i < self@.len() implies #[trigger] self@[i].len() == self@[0].len() by {
            assert(before[i].len() == before[0].len());
        }
    }

    /// Places a non-empty tile at the given location, which must still be empty
    pub fn place_tile(&mut self, pos: TilePos, tile: Tile)
        requires
            old(self).wf(),
            old(self).in_bounds(pos),
            old(self).tile(pos) == Tile::Empty,
            tile != Tile::Empty,
        ensures
            final(self)@ == old(self).with_tile(pos, tile),
            final(self).wf(),
            final(self).nrows() == old(self).nrows(),
            final(self).ncols() == old(self).ncols(),
    {
        self.set(pos, tile);
    }

    /// Returns the positions of all tiles of the grid, row by row
    pub fn tile_positions(&self) -> (r: Vec<TilePos>)
        requires
            self.wf(),
            self.nrows() * self.ncols() <= usize::MAX,
        ensures
            r@.len() == self.nrows() * self.ncols(),
            forall|i: int, j: int|
                0 <= i < self.nrows() && 0 <= j < self.ncols() ==> #[trigger] r@[i * self.ncols() + j] == (TilePos { row: i as usize, col: j as usize }),
    {
        let rect = TileRect::new(TilePos { row: 0, col: 0 }, GridSize { rows: self.rows_len(), cols: self.cols_len() });
        rect.tile_positions()
    }

    /// Returns the tile positions within the region defined by top_left and size, row by row
    pub fn tile_positions_within(&self, top_left: TilePos, size: GridSize) -> (r: Vec<TilePos>)
        requires
            top_left.row + size.rows <= usize::MAX,
            top_left.col + size.cols <= usize::MAX,
            size.rows * size.cols <= usize::MAX,
        ensures
            r@.len() == size.rows * size.cols,
            forall|i: int, j: int|
                0 <= i < size.rows && 0 <= j < size.cols ==> #[trigger] r@[i * size.cols + j]
                    == (TilePos { row: (top_left.row + i) as usize, col: (top_left.col + j) as usize }),
    {
        TileRect::new(top_left, size).tile_positions()
    }

    /// Returns the tile positions on the edges of the region defined by top_left and size
    pub fn tile_positions_on_edges(&self, top_left: TilePos, size: GridSize) -> (r: Vec<TilePos>)
        requires
            (TileRect { top_left, dim: size }).is_proper(),
        ensures
            r@ == (TileRect { top_left, dim: size }).spec_edge_positions(),
    {
        TileRect::new(top_left, size).edge_positions()
    }

    /// Returns the positions adjacent to the given tile in the four cardinal directions, in the
    /// order north, east, south, west. Only returns positions within the grid.
    pub fn adjacent_positions(&self, pos: TilePos) -> (r: Vec<TilePos>)
        requires
            self.wf(),
        ensures
            r@ == self.spec_adjacent_positions(pos),
    {
        let rows = self.rows_len();
        let cols = self.cols_len();
        let mut r: Vec<TilePos> = Vec::new();
        match pos.adjacent_north() {
            Some(p) => r.push(p),
            None => {},
        }
        match pos.adjacent_east(cols) {
            Some(p) => r.push(p),
            None => {},
        }
        match pos.adjacent_south(rows) {
            Some(p) => r.push(p),
            None => {},
        }
        match pos.adjacent_west() {
            Some(p) => r.push(p),
            None => {},
        }
        assert(r@ =~= self.spec_adjacent_positions(pos));
        r
    }

    /// Returns the tiles adjacent to the given tile in the four cardinal directions, in the order
    /// north, east, south, west
    pub fn adjacents(&self, pos: TilePos) -> (r: Vec<Tile>)
        requires
            self.wf(),
            self.in_bounds(pos),
        ensures
            r@ == self.spec_adjacent_positions(pos).map_values(|p: TilePos| self.tile(p)),
    {
        let positions = self.adjacent_positions(pos);
        let mut r: Vec<Tile> = Vec::new();
        let mut k: usize = 0;
        while k < positions.len()
            invariant
                self.wf(),
                self.in_bounds(pos),
                positions@ == self.spec_adjacent_positions(pos),
                k <= positions@.len(),
                r@ == positions@.take(k as int).map_values(|p: TilePos| self.tile(p)),
            decreases positions@.len() - k,
        {
            proof {
                lemma_adjacent_in_bounds(self, pos);
            }
            r.push(*self.get(positions[k]));
            proof {
                assert(positions@.take(k + 1) =~= positions@.take(k as int).push(positions@[k as int]));
                assert(r@ =~= positions@.take(k + 1).map_values(|p: TilePos| self.tile(p)));
            }
            k += 1;
        }
        assert(positions@.take(positions@.len() as int) =~= positions@);
        r
    }

    /// Returns true if the given position is a room entrance: a floor tile that has at least one
    /// adjacent floor tile of a different room
    pub fn is_room_entrance(&self, pos: TilePos) -> (r: bool)
        requires
            self.wf(),
            self.in_bounds(pos),
        ensures
            r == self.spec_is_room_entrance(pos),
    {
        match self.get(pos) {
            Tile::Floor { room_id, .. } => {
                let room_id = *room_id;
                let adjacents = self.adjacent_positions(pos);
                proof {
                    lemma_adjacent_in_bounds(self, pos);
                }
                let mut k: usize = 0;
                while k < adjacents.len()
                    invariant
                        self.wf(),
                        adjacents@ == self.spec_adjacent_positions(pos),
                        forall|q: int| 0 <= q < adjacents@.len() ==> #[trigger] self.in_bounds(adjacents@[q]),
                        k <= adjacents@.len(),
                        self.tile(pos) matches Tile::Floor { room_id: id0, .. } && id0 == room_id,
                        forall|q: int| 0 <= q < k ==> !is_other_room_floor(#[trigger] self.tile(adjacents@[q]), room_id),
                    decreases adjacents@.len() - k,
                {
                    match self.get(adjacents[k]) {
                        Tile::Floor { room_id: room_id2, .. } => {
                            if *room_id2 != room_id {
                                return true;
                            }
                        },
                        _ => {},
                    }
                    k += 1;
                }
                false
            },
            _ => false,
        }
    }
}

/// Every adjacent position of a position of the grid lies in the grid and is one tile away
pub proof fn lemma_adjacent_in_bounds(g: &TileGrid, pos: TilePos)
    requires
        g.wf(),
    ensures
        forall|q: int| 0 <= q < g.spec_adjacent_positions(pos).len() ==> (pos.in_bounds_of(g.nrows(), g.ncols())
            ==> #[trigger] g.in_bounds(g.spec_adjacent_positions(pos)[q])),
        forall|q: int| 0 <= q < g.spec_adjacent_positions(pos).len() ==> pos.is_adjacent_to(
            #[trigger] g.spec_adjacent_positions(pos)[q],
        ),
{
}

} // verus!
