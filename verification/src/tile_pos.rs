use vstd::prelude::*;

use crate::geometry::Point;
use crate::grid_size::GridSize;

verus! {

/// The location of a single tile in a 2D grid of tiles
#[derive(Debug, Clone, Copy, PartialEq, Eq, Hash, Structural)]
pub struct TilePos {
    pub row: usize,
    pub col: usize,
}

/// The absolute value of an integer
pub open spec fn abs(a: int) -> int {
    if a < 0 { -a } else { a }
}

impl TilePos {
    /// Both coordinates fit into a signed machine integer
    pub open spec fn fits_isize(self) -> bool {
        self.row <= isize::MAX && self.col <= isize::MAX
    }

    /// The difference (delta row, delta col) between this position and `other`
    pub open spec fn diff(self, other: TilePos) -> (int, int) {
        (self.row - other.row, self.col - other.col)
    }

    /// True if the two positions share a row or a column and are exactly `distance` tiles apart
    pub open spec fn orthogonal_distance(self, other: TilePos, distance: int) -> bool {
        let (a, b) = self.diff(other);
        if b == 0 {
            abs(a) == distance
        } else if a == 0 {
            abs(b) == distance
        } else {
            false
        }
    }

    /// True if the two positions are next to each other in one of the four cardinal directions
    pub open spec fn is_adjacent_to(self, other: TilePos) -> bool {
        self.orthogonal_distance(other, 1)
    }

    /// The position lies in a grid of the given numbers of rows and columns
    pub open spec fn in_bounds_of(self, nrows: nat, ncols: nat) -> bool {
        self.row < nrows && self.col < ncols
    }

    /// The position one tile north of this position, if any
    pub open spec fn north(self) -> Option<TilePos> {
        if self.row > 0 { Some(TilePos { row: (self.row - 1) as usize, col: self.col }) } else { None }
    }

    /// The position one tile east of this position, if any, in a grid of `ncols` columns
    pub open spec fn east(self, ncols: usize) -> Option<TilePos> {
        if self.col + 1 < ncols { Some(TilePos { row: self.row, col: (self.col + 1) as usize }) } else { None }
    }

    /// The position one tile south of this position, if any, in a grid of `nrows` rows
    pub open spec fn south(self, nrows: usize) -> Option<TilePos> {
        if self.row + 1 < nrows { Some(TilePos { row: (self.row + 1) as usize, col: self.col }) } else { None }
    }

    /// The position one tile west of this position, if any
    pub open spec fn west(self) -> Option<TilePos> {
        if self.col > 0 { Some(TilePos { row: self.row, col: (self.col - 1) as usize }) } else { None }
    }

    /// Moving by the rows and columns of a size
    pub open spec fn plus(self, size: GridSize) -> TilePos {
        TilePos { row: (self.row + size.rows) as usize, col: (self.col + size.cols) as usize }
    }

    /// Moving back by the rows and columns of a size
    pub open spec fn minus(self, size: GridSize) -> TilePos {
        TilePos { row: (self.row - size.rows) as usize, col: (self.col - size.cols) as usize }
    }

    /// Converts the given tile position to its point in world coordinates.
    /// Maps columns to x-coordinates and rows to y-coordinates
    pub fn to_point(self, tile_size: i32) -> (r: Point)
        requires
            0 <= tile_size,
            self.col * tile_size <= i32::MAX,
            self.row * tile_size <= i32::MAX,
        ensures
            r == Point::spec_new(self.col * tile_size, self.row * tile_size),
    {
        proof {
            if tile_size > 0 {
                assert(self.col <= self.col * tile_size) by (nonlinear_arith)
                    requires tile_size > 0;
                assert(self.row <= self.row * tile_size) by (nonlinear_arith)
                    requires tile_size > 0;
            }
        }
        let col: i32 = if tile_size == 0 { 0 } else { self.col as i32 };
        let row: i32 = if tile_size == 0 { 0 } else { self.row as i32 };
        Point::new(col * tile_size, row * tile_size)
    }

    /// The point in the middle of this tile: its top left corner moved by half a tile to the
    /// right and down
    pub fn center(self, tile_size: i32) -> (r: Point)
        requires
            0 <= tile_size,
            self.col * tile_size <= i32::MAX,
            self.row * tile_size <= i32::MAX,
        ensures
            r == Point::spec_new(self.col * tile_size, self.row * tile_size).spec_offset(
                tile_size / 2,
                tile_size / 2,
            ),
    {
        self.to_point(tile_size).offset(tile_size / 2, tile_size / 2)
    }

    /// Returns the position one tile north of this position, if any
    pub fn adjacent_north(self) -> (r: Option<TilePos>)
        ensures
            r == self.north(),
    {
        if self.row > 0 {
            Some(TilePos { row: self.row - 1, col: self.col })
        } else {
            None
        }
    }

    /// Returns the position one tile east of this position, if any
    pub fn adjacent_east(self, ncols: usize) -> (r: Option<TilePos>)
        requires
            ncols > 0,
        ensures
            r == self.east(ncols),
    {
        if self.col < ncols - 1 {
            Some(TilePos { row: self.row, col: self.col + 1 })
        } else {
            None
        }
    }

    /// Returns the position one tile south of this position, if any
    pub fn adjacent_south(self, nrows: usize) -> (r: Option<TilePos>)
        requires
            nrows > 0,
        ensures
            r == self.south(nrows),
    {
        if self.row < nrows - 1 {
            Some(TilePos { row: self.row + 1, col: self.col })
        } else {
            None
        }
    }

    /// Returns the position one tile west of this position, if any
    pub fn adjacent_west(self) -> (r: Option<TilePos>)
        ensures
            r == self.west(),
    {
        if self.col > 0 {
            Some(TilePos { row: self.row, col: self.col - 1 })
        } else {
            None
        }
    }

    /// Returns the difference between this position and another position.
    /// This is like self - other, but negative values are allowed.
    /// Returns (delta row, delta col)
    pub fn difference(self, other: Self) -> (r: (isize, isize))
        requires
            self.fits_isize(),
            other.fits_isize(),
        ensures
            r.0 == self.diff(other).0,
            r.1 == self.diff(other).1,
    {
        (self.row as isize - other.row as isize, self.col as isize - other.col as isize)
    }

    /// Returns true if the orthogonal (horizontal or vertical) difference between this position
    /// and another position is equal to the given value.
    /// Always returns false if the two positions are not orthogonal.
    pub fn is_orthogonal_difference(self, other: Self, distance: usize) -> (r: bool)
        requires
            self.fits_isize(),
            other.fits_isize(),
        ensures
            r == self.orthogonal_distance(other, distance as int),
    {
        let (a, b) = self.difference(other);
        if b == 0 {
            abs_isize(a) == distance
        } else if a == 0 {
            abs_isize(b) == distance
        } else {
            false
        }
    }

    /// Moves this position down and right by the given size
    pub fn add(self, other: GridSize) -> (r: Self)
        requires
            self.row + other.rows <= usize::MAX,
            self.col + other.cols <= usize::MAX,
        ensures
            r == self.plus(other),
    {
        TilePos { row: self.row + other.rows, col: self.col + other.cols }
    }

    /// Moves this position up and left by the given size
    pub fn sub(self, other: GridSize) -> (r: Self)
        requires
            other.rows <= self.row,
            other.cols <= self.col,
        ensures
            r == self.minus(other),
    {
        TilePos { row: self.row - other.rows, col: self.col - other.cols }
    }

    /// Returns the position relative to `other` (both coordinates must not be smaller than those
    /// of `other`)
    pub fn sub_pos(self, other: Self) -> (r: Self)
        requires
            other.row <= self.row,
            other.col <= self.col,
        ensures
            r.row == self.row - other.row,
            r.col == self.col - other.col,
    {
        TilePos { row: self.row - other.row, col: self.col - other.col }
    }

    /// Scales both coordinates by the given factor
    pub fn mul(self, factor: usize) -> (r: Self)
        requires
            self.row * factor <= usize::MAX,
            self.col * factor <= usize::MAX,
        ensures
            r.row == self.row * factor,
            r.col == self.col * factor,
    {
        TilePos { row: self.row * factor, col: self.col * factor }
    }
}

/// The absolute value of a signed machine integer that is not the smallest one
fn abs_isize(a: isize) -> (r: usize)
    requires
        a > isize::MIN,
    ensures
        r == abs(a as int),
{
    if a < 0 {
        (-a) as usize
    } else {
        a as usize
    }
}

/// Going north and then south (in a grid with more rows than the position's row) returns to
/// the position one started from, and likewise for east and west
pub proof fn lemma_adjacent_round_trip(p: TilePos, nrows: usize, ncols: usize)
    requires
        p.row < nrows,
        p.col < ncols,
    ensures
        p.north() matches Some(n) ==> n.south(nrows) == Some(p),
        p.south(nrows) matches Some(s) ==> s.north() == Some(p),
        p.west() matches Some(w) ==> w.east(ncols) == Some(p),
        p.east(ncols) matches Some(e) ==> e.west() == Some(p),
{
}

/// Every position returned by the adjacency functions is exactly one tile away
pub proof fn lemma_adjacent_distance_one(p: TilePos, nrows: usize, ncols: usize)
    ensures
        p.north() matches Some(n) ==> p.is_adjacent_to(n),
        p.south(nrows) matches Some(s) ==> p.is_adjacent_to(s),
        p.west() matches Some(w) ==> p.is_adjacent_to(w),
        p.east(ncols) matches Some(e) ==> p.is_adjacent_to(e),
{
}

/// Adding a size to a position and subtracting it again gives back the position
pub proof fn lemma_pos_add_sub(p: TilePos, s: GridSize)
    requires
        p.row + s.rows <= usize::MAX,
        p.col + s.cols <= usize::MAX,
    ensures
        p.plus(s).minus(s) == p,
{
}

} // verus!
