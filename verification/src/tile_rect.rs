use vstd::prelude::*;

use rand::rngs::StdRng;

use crate::geometry::Rect;
use crate::grid_size::GridSize;
use crate::random::{gen_bool, gen_range};
use crate::tile_pos::TilePos;

verus! {

/// The largest coordinate or size that a rectangle may have (`i32::MAX / 2`). Rectangles of
/// world coordinates hold their values as `i32`, and stay exact up to this value.
pub const MAX_RECT_VALUE: usize = 0x3fff_ffffusize;

/// A 2D span of tiles
#[derive(Debug, Clone, Copy, PartialEq, Eq, Structural)]
pub struct TileRect {
    pub top_left: TilePos,
    pub dim: GridSize,
}

/// The larger of two integers
pub open spec fn max_int(a: int, b: int) -> int {
    if a < b { b } else { a }
}

/// The smaller of two integers
pub open spec fn min_int(a: int, b: int) -> int {
    if a < b { a } else { b }
}

/// A size of zero counts as one when two rectangles are intersected: rectangles are never empty
pub open spec fn nonempty_size(n: usize) -> int {
    if n == 0 { 1 } else { n as int }
}

/// A position as a screen rectangle holds it: cut down to `MAX_RECT_VALUE`
pub open spec fn clamped_pos(n: usize) -> usize {
    if n > MAX_RECT_VALUE {
        MAX_RECT_VALUE
    } else {
        n
    }
}

/// A size as a screen rectangle holds it: a size of zero counts as one, and sizes are cut down to
/// `MAX_RECT_VALUE`
pub open spec fn clamped_size(n: usize) -> usize {
    if n == 0 {
        1
    } else if n > MAX_RECT_VALUE {
        MAX_RECT_VALUE
    } else {
        n
    }
}

impl TileRect {
    /// The rectangle as a screen rectangle holds it (see `clamped_pos` and `clamped_size`)
    pub open spec fn clamped(self) -> TileRect {
        TileRect {
            top_left: TilePos { row: clamped_pos(self.top_left.row), col: clamped_pos(self.top_left.col) },
            dim: GridSize { rows: clamped_size(self.dim.rows), cols: clamped_size(self.dim.cols) },
        }
    }

    /// The coordinates and sizes can be handed to a screen rectangle: the coordinates fit in
    /// `i32` and the sizes in `u32`
    pub open spec fn fits_screen(self) -> bool {
        &&& self.top_left.row <= i32::MAX
        &&& self.top_left.col <= i32::MAX
        &&& self.dim.rows <= u32::MAX
        &&& self.dim.cols <= u32::MAX
    }

    /// All coordinates and sizes are within `MAX_RECT_VALUE`
    pub open spec fn within_limits(self) -> bool {
        &&& self.top_left.row <= MAX_RECT_VALUE
        &&& self.top_left.col <= MAX_RECT_VALUE
        &&& self.dim.rows <= MAX_RECT_VALUE
        &&& self.dim.cols <= MAX_RECT_VALUE
    }

    /// The rectangle has at least one row and one column and its far edges fit in `usize`
    pub open spec fn is_proper(self) -> bool {
        &&& self.dim.rows >= 1
        &&& self.dim.cols >= 1
        &&& self.top_left.row + self.dim.rows <= usize::MAX
        &&& self.top_left.col + self.dim.cols <= usize::MAX
    }

    pub open spec fn last_row(self) -> int {
        self.top_left.row + self.dim.rows - 1
    }

    pub open spec fn last_col(self) -> int {
        self.top_left.col + self.dim.cols - 1
    }

    pub open spec fn spec_top_right(self) -> TilePos {
        TilePos { row: self.top_left.row, col: self.last_col() as usize }
    }

    pub open spec fn spec_bottom_left(self) -> TilePos {
        TilePos { row: self.last_row() as usize, col: self.top_left.col }
    }

    pub open spec fn spec_bottom_right(self) -> TilePos {
        TilePos { row: self.last_row() as usize, col: self.last_col() as usize }
    }

    pub open spec fn spec_center(self) -> TilePos {
        TilePos {
            row: (self.top_left.row + self.dim.rows / 2) as usize,
            col: (self.top_left.col + self.dim.cols / 2) as usize,
        }
    }

    pub open spec fn spec_is_corner(self, pos: TilePos) -> bool {
        pos == self.top_left || pos == self.spec_top_right() || pos == self.spec_bottom_left()
            || pos == self.spec_bottom_right()
    }

    /// The tile position lies inside the rectangle
    pub open spec fn contains(self, pos: TilePos) -> bool {
        &&& self.top_left.row <= pos.row < self.top_left.row + self.dim.rows
        &&& self.top_left.col <= pos.col < self.top_left.col + self.dim.cols
    }

    /// The tile position lies on the outermost ring of tiles of the rectangle
    pub open spec fn on_edge(self, pos: TilePos) -> bool {
        &&& self.contains(pos)
        &&& (pos.row == self.top_left.row || pos.row == self.last_row()
            || pos.col == self.top_left.col || pos.col == self.last_col())
    }

    /// The tile lies inside the rectangle when sizes of zero count as one
    pub open spec fn covers(self, pos: TilePos) -> bool {
        &&& self.top_left.row <= pos.row < self.top_left.row + nonempty_size(self.dim.rows)
        &&& self.top_left.col <= pos.col < self.top_left.col + nonempty_size(self.dim.cols)
    }

    pub open spec fn row_overlap_start(self, other: Self) -> int {
        max_int(self.top_left.row as int, other.top_left.row as int)
    }

    pub open spec fn row_overlap_end(self, other: Self) -> int {
        min_int(
            self.top_left.row + nonempty_size(self.dim.rows),
            other.top_left.row + nonempty_size(other.dim.rows),
        )
    }

    pub open spec fn col_overlap_start(self, other: Self) -> int {
        max_int(self.top_left.col as int, other.top_left.col as int)
    }

    pub open spec fn col_overlap_end(self, other: Self) -> int {
        min_int(
            self.top_left.col + nonempty_size(self.dim.cols),
            other.top_left.col + nonempty_size(other.dim.cols),
        )
    }

    /// The two rectangles share at least one tile (sizes of zero count as one)
    pub open spec fn overlaps(self, other: Self) -> bool {
        self.row_overlap_start(other) < self.row_overlap_end(other)
            && self.col_overlap_start(other) < self.col_overlap_end(other)
    }

    /// The rectangle of the tiles shared by the two rectangles, if there are any
    pub open spec fn spec_intersection(self, other: Self) -> Option<TileRect> {
        if self.overlaps(other) {
            Some(
                TileRect {
                    top_left: TilePos {
                        row: self.row_overlap_start(other) as usize,
                        col: self.col_overlap_start(other) as usize,
                    },
                    dim: GridSize {
                        rows: (self.row_overlap_end(other) - self.row_overlap_start(other)) as usize,
                        cols: (self.col_overlap_end(other) - self.col_overlap_start(other)) as usize,
                    },
                },
            )
        } else {
            None
        }
    }

    /// The rectangle grown by `margin` on every side, stopping at row 0 and column 0
    pub open spec fn spec_expand(self, margin: usize) -> TileRect {
        let er = min_int(self.top_left.row as int, margin as int);
        let ec = min_int(self.top_left.col as int, margin as int);
        TileRect {
            top_left: TilePos { row: (self.top_left.row - er) as usize, col: (self.top_left.col - ec) as usize },
            dim: GridSize {
                rows: (self.dim.rows + er + margin) as usize,
                cols: (self.dim.cols + ec + margin) as usize,
            },
        }
    }

    /// The positions of the rectangle, row by row
    pub open spec fn position_at(self, i: int, j: int) -> TilePos {
        TilePos { row: (self.top_left.row + i) as usize, col: (self.top_left.col + j) as usize }
    }

    /// The edge positions in the order in which `edge_positions` lists them: the top and the
    /// bottom tile of each column from left to right, then the left and the right tile of each
    /// inner row from top to bottom
    pub open spec fn spec_edge_positions(self) -> Seq<TilePos> {
        self.top_bottom_edges() + self.side_edges()
    }

    /// The top and the bottom tile of each column, from left to right
    pub open spec fn top_bottom_edges(self) -> Seq<TilePos> {
        Seq::new((2 * self.dim.cols) as nat, |i: int|
            TilePos {
                row: if i % 2 == 0 { self.top_left.row } else { self.last_row() as usize },
                col: (self.top_left.col + i / 2) as usize,
            }
        )
    }

    /// The left and the right tile of each row strictly between the top and the bottom row
    pub open spec fn side_edges(self) -> Seq<TilePos> {
        let inner_rows = if self.dim.rows >= 2 { self.dim.rows - 2 } else { 0 };
        Seq::new((2 * inner_rows) as nat, |i: int|
            TilePos {
                row: (self.top_left.row + 1 + i / 2) as usize,
                col: if i % 2 == 0 { self.top_left.col } else { self.last_col() as usize },
            }
        )
    }

    /// Create a new rectangle with the given top left and dimensions
    pub fn new(top_left: TilePos, dim: GridSize) -> (r: Self)
        ensures
            r.top_left == top_left,
            r.dim == dim,
    {
        TileRect { top_left, dim }
    }

    /// Returns the dimensions of the rectangle
    pub fn dimensions(self) -> (r: GridSize)
        ensures
            r == self.dim,
    {
        self.dim
    }

    /// The rectangle in world coordinates whose position is the top left tile (column as x, row
    /// as y) and whose size is the size in tiles
    pub fn to_rect(self) -> (r: Rect)
        requires
            self.within_limits(),
        ensures
            r == Rect::spec_new(
                self.top_left.col as int,
                self.top_left.row as int,
                self.dim.cols as int,
                self.dim.rows as int,
            ),
    {
        Rect::new(self.top_left.col as i32, self.top_left.row as i32, self.dim.cols as u32, self.dim.rows as u32)
    }

    /// Returns the area of this rectangle in tiles^2
    pub fn area(self) -> (r: usize)
        requires
            self.dim.rows * self.dim.cols <= usize::MAX,
        ensures
            r == self.dim.rows * self.dim.cols,
    {
        self.dim.rows * self.dim.cols
    }

    /// Returns the position of the top left tile within this rectangle
    pub fn top_left(self) -> (r: TilePos)
        ensures
            r == self.top_left,
    {
        self.top_left
    }

    /// Returns the position of the top right tile within this rectangle
    pub fn top_right(self) -> (r: TilePos)
        requires
            1 <= self.top_left.col + self.dim.cols <= usize::MAX,
        ensures
            r == self.spec_top_right(),
    {
        TilePos { row: self.top_left.row, col: self.top_left.col + self.dim.cols - 1 }
    }

    /// Returns the position of the bottom left tile within this rectangle
    pub fn bottom_left(self) -> (r: TilePos)
        requires
            1 <= self.top_left.row + self.dim.rows <= usize::MAX,
        ensures
            r == self.spec_bottom_left(),
    {
        TilePos { row: self.top_left.row + self.dim.rows - 1, col: self.top_left.col }
    }

    /// Returns the position of the bottom right tile within this rectangle
    pub fn bottom_right(self) -> (r: TilePos)
        requires
            1 <= self.top_left.row + self.dim.rows <= usize::MAX,
            1 <= self.top_left.col + self.dim.cols <= usize::MAX,
        ensures
            r == self.spec_bottom_right(),
    {
        TilePos {
            row: self.top_left.row + self.dim.rows - 1,
            col: self.top_left.col + self.dim.cols - 1,
        }
    }

    /// Returns true if the given position is a corner of this rectangle
    pub fn is_corner(&self, pos: TilePos) -> (r: bool)
        requires
            1 <= self.top_left.row + self.dim.rows <= usize::MAX,
            1 <= self.top_left.col + self.dim.cols <= usize::MAX,
        ensures
            r == self.spec_is_corner(pos),
    {
        pos == self.top_left() || pos == self.top_right() || pos == self.bottom_left() || pos
            == self.bottom_right()
    }

    /// Returns the tile position that is considered the "center" of this rectangle.
    ///
    /// If the exact center is not a valid tile position (i.e. it is between 4 tiles), then this
    /// will bias towards the bottom right of the center tile.
    pub fn center_tile(self) -> (r: TilePos)
        requires
            self.top_left.row + self.dim.rows / 2 <= usize::MAX,
            self.top_left.col + self.dim.cols / 2 <= usize::MAX,
        ensures
            r == self.spec_center(),
    {
        TilePos {
            row: self.top_left.row + self.dim.rows / 2,
            col: self.top_left.col + self.dim.cols / 2,
        }
    }

    /// Returns the rectangle of tiles that this rectangle shares with `other`, if any. Both
    /// rectangles are first taken as screen rectangles hold them: a size of zero counts as one,
    /// and coordinates and sizes above `MAX_RECT_VALUE` are cut down to it.
    pub fn intersection(self, other: Self) -> (r: Option<TileRect>)
        requires
            self.fits_screen(),
            other.fits_screen(),
        ensures
            r == self.clamped().spec_intersection(other.clamped()),
            self.within_limits() && other.within_limits() ==> r == self.spec_intersection(other),
    {
        let a = self.clamp();
        let b = other.clamp();
        let row_start = if a.top_left.row < b.top_left.row { b.top_left.row } else { a.top_left.row };
        let col_start = if a.top_left.col < b.top_left.col { b.top_left.col } else { a.top_left.col };
        let end1 = a.top_left.row + a.dim.rows;
        let end2 = b.top_left.row + b.dim.rows;
        let row_end = if end1 < end2 { end1 } else { end2 };
        let end1 = a.top_left.col + a.dim.cols;
        let end2 = b.top_left.col + b.dim.cols;
        let col_end = if end1 < end2 { end1 } else { end2 };

        if row_start < row_end && col_start < col_end {
            Some(TileRect {
                top_left: TilePos { row: row_start, col: col_start },
                dim: GridSize { rows: row_end - row_start, cols: col_end - col_start },
            })
        } else {
            None
        }
    }

    /// The rectangle as a screen rectangle holds it
    fn clamp(self) -> (r: TileRect)
        ensures
            r == self.clamped(),
    {
        let cut = |n: usize| -> (m: usize)
            ensures
                m == clamped_pos(n),
            {
                if n > MAX_RECT_VALUE {
                    MAX_RECT_VALUE
                } else {
                    n
                }
            };
        TileRect {
            top_left: TilePos { row: cut(self.top_left.row), col: cut(self.top_left.col) },
            dim: GridSize {
                rows: if self.dim.rows == 0 { 1 } else { cut(self.dim.rows) },
                cols: if self.dim.cols == 0 { 1 } else { cut(self.dim.cols) },
            },
        }
    }

    /// Returns true if this rectangle shares at least one tile with `other`, both taken as
    /// screen rectangles hold them (see `intersection`)
    pub fn has_intersection(self, other: Self) -> (r: bool)
        requires
            self.fits_screen(),
            other.fits_screen(),
        ensures
            r == self.clamped().overlaps(other.clamped()),
            self.within_limits() && other.within_limits() ==> r == self.overlaps(other),
    {
        self.intersection(other).is_some()
    }

    /// Expands the rectangle (as much as possible) to have an additional margin on all sides
    ///
    /// Will only expand up to the point (0,0). Can expand arbitrarily in the other direction.
    pub fn expand(self, margin: usize) -> (r: Self)
        requires
            self.dim.rows + min_int(self.top_left.row as int, margin as int) + margin <= usize::MAX,
            self.dim.cols + min_int(self.top_left.col as int, margin as int) + margin <= usize::MAX,
        ensures
            r == self.spec_expand(margin),
    {
        // Avoid integer overflow by only subtracting as much as possible
        let top_left_expansion = GridSize {
            rows: if self.top_left.row < margin { self.top_left.row } else { margin },
            cols: if self.top_left.col < margin { self.top_left.col } else { margin },
        };

        TileRect::new(
            self.top_left.sub(top_left_expansion),
            self.dim.add(top_left_expansion).add(GridSize::square(margin)),
        )
    }

    /// Returns the positions of all tiles contained within this rectangle, row by row
    pub fn tile_positions(self) -> (r: Vec<TilePos>)
        requires
            self.top_left.row + self.dim.rows <= usize::MAX,
            self.top_left.col + self.dim.cols <= usize::MAX,
            self.dim.rows * self.dim.cols <= usize::MAX,
        ensures
            r@.len() == self.dim.rows * self.dim.cols,
            forall|i: int, j: int|
                0 <= i < self.dim.rows && 0 <= j < self.dim.cols ==> #[trigger] r@[i * self.dim.cols + j]
                    == self.position_at(i, j),
    {
        let mut r: Vec<TilePos> = Vec::new();
        let rows = self.dim.rows;
        let cols = self.dim.cols;
        let mut i: usize = 0;
        while i < rows
            invariant
                rows == self.dim.rows,
                cols == self.dim.cols,
                i <= rows,
                self.top_left.row + rows <= usize::MAX,
                self.top_left.col + cols <= usize::MAX,
                rows * cols <= usize::MAX,
                r@.len() == i * cols,
                forall|a: int, b: int|
                    0 <= a < i && 0 <= b < cols ==> #[trigger] r@[a * cols + b] == self.position_at(a, b),
            decreases rows - i,
        {
            let mut j: usize = 0;
            while j < cols
                invariant
                    rows == self.dim.rows,
                    cols == self.dim.cols,
                    i < rows,
                    j <= cols,
                    self.top_left.row + rows <= usize::MAX,
                    self.top_left.col + cols <= usize::MAX,
                    r@.len() == i * cols + j,
                    forall|a: int, b: int|
                        0 <= a < i && 0 <= b < cols ==> #[trigger] r@[a * cols + b] == self.position_at(a, b),
                    forall|b: int| 0 <= b < j ==> #[trigger] r@[i * cols + b] == self.position_at(i as int, b),
                decreases cols - j,
            {
                r.push(TilePos { row: self.top_left.row + i, col: self.top_left.col + j });
                proof {
                    assert forall|a: int, b: int|
                        0 <= a < i && 0 <= b < cols implies #[trigger] r@[a * cols + b] == self.position_at(a, b) by {
                        assert(a * cols + b < i * cols) by (nonlinear_arith)
                            requires 0 <= a < i, 0 <= b < cols;
                    }
                }
                j += 1;
            }
            proof {
                assert((i + 1) * cols == i * cols + cols) by (nonlinear_arith);
                assert forall|a: int, b: int|
                    0 <= a < i + 1 && 0 <= b < cols implies #[trigger] r@[a * cols + b] == self.position_at(a, b) by {
                    if a == i {
                    }
                }
                assert((i + 1) * cols <= rows * cols) by (nonlinear_arith)
                    requires i < rows;
            }
            i += 1;
        }
        r
    }

    /// Returns the positions of a single row of this rectangle
    pub fn row_positions(self, row: usize) -> (r: Vec<TilePos>)
        requires
            self.top_left.col + self.dim.cols <= usize::MAX,
        ensures
            r@ == Seq::new(self.dim.cols as nat, |j: int| TilePos { row, col: (self.top_left.col + j) as usize }),
    {
        let mut r: Vec<TilePos> = Vec::new();
        let mut j: usize = 0;
        while j < self.dim.cols
            invariant
                j <= self.dim.cols,
                self.top_left.col + self.dim.cols <= usize::MAX,
                r@ == Seq::new(j as nat, |k: int| TilePos { row, col: (self.top_left.col + k) as usize }),
            decreases self.dim.cols - j,
        {
            r.push(TilePos { row, col: self.top_left.col + j });
            j += 1;
        }
        r
    }

    /// Returns the positions of a single column of this rectangle
    pub fn col_positions(self, col: usize) -> (r: Vec<TilePos>)
        requires
            self.top_left.row + self.dim.rows <= usize::MAX,
        ensures
            r@ == Seq::new(self.dim.rows as nat, |i: int| TilePos { row: (self.top_left.row + i) as usize, col }),
    {
        let mut r: Vec<TilePos> = Vec::new();
        let mut i: usize = 0;
        while i < self.dim.rows
            invariant
                i <= self.dim.rows,
                self.top_left.row + self.dim.rows <= usize::MAX,
                r@ == Seq::new(i as nat, |k: int| TilePos { row: (self.top_left.row + k) as usize, col }),
            decreases self.dim.rows - i,
        {
            r.push(TilePos { row: self.top_left.row + i, col });
            i += 1;
        }
        r
    }

    /// Returns all positions on an edge of the rectangle: the top and the bottom tile of each
    /// column from left to right, then the left and the right tile of each inner row
    pub fn edge_positions(self) -> (r: Vec<TilePos>)
        requires
            self.is_proper(),
        ensures
            r@ == self.spec_edge_positions(),
    {
        let tl = self.top_left();
        let br = self.bottom_right();
        let rows = self.dim.rows;
        let cols = self.dim.cols;
        let mut r: Vec<TilePos> = Vec::new();
        let mut j: usize = 0;
        while j < cols
            invariant
                j <= cols,
                cols == self.dim.cols,
                self.is_proper(),
                tl == self.top_left,
                br == self.spec_bottom_right(),
                r@ == self.top_bottom_edges().take(2 * j),
                self.top_bottom_edges().len() == 2 * cols,
            decreases cols - j,
        {
            r.push(TilePos { row: tl.row, col: tl.col + j });
            r.push(TilePos { row: br.row, col: tl.col + j });
            proof {
                let k = 2 * j as int;
                assert(k % 2 == 0 && k / 2 == j);
                assert((k + 1) % 2 == 1 && (k + 1) / 2 == j);
                assert(self.top_bottom_edges()[k] == TilePos { row: tl.row, col: (tl.col + j) as usize });
                assert(self.top_bottom_edges()[k + 1] == TilePos { row: br.row, col: (tl.col + j) as usize });
                assert(r@ =~= self.top_bottom_edges().take(2 * j + 2));
            }
            j += 1;
        }
        assert(r@ =~= self.top_bottom_edges());
        let mut i: usize = tl.row + 1;
        let end = tl.row + rows - 1;
        while i < end
            invariant
                self.is_proper(),
                rows == self.dim.rows,
                tl == self.top_left,
                br == self.spec_bottom_right(),
                end == tl.row + rows - 1,
                tl.row + 1 <= i,
                i <= end || (rows < 2 && i == tl.row + 1),
                r@ == self.top_bottom_edges() + self.side_edges().take(2 * (i - tl.row - 1)),
            decreases end - i,
        {
            r.push(TilePos { row: i, col: tl.col });
            r.push(TilePos { row: i, col: br.col });
            proof {
                let k = 2 * (i - tl.row - 1);
                assert(k % 2 == 0 && k / 2 == i - tl.row - 1);
                assert((k + 1) % 2 == 1 && (k + 1) / 2 == i - tl.row - 1);
                assert(k + 1 < self.side_edges().len());
                assert(self.side_edges()[k] == TilePos { row: i, col: tl.col });
                assert(self.side_edges()[k + 1] == TilePos { row: i, col: br.col });
                assert(self.side_edges().take(k) + seq![self.side_edges()[k], self.side_edges()[k + 1]] =~= self.side_edges().take(k + 2));
            }
            i += 1;
        }
        proof {
            assert(self.side_edges().take(2 * (i - tl.row - 1)) =~= self.side_edges());
        }
        r
    }

    /// Returns a random non-edge tile position inside the rect
    pub fn random_inner_tile(self, rng: &mut StdRng) -> (r: TilePos)
        requires
            self.dim.rows >= 3,
            self.dim.cols >= 3,
            self.top_left.row + self.dim.rows <= usize::MAX,
            self.top_left.col + self.dim.cols <= usize::MAX,
        ensures
            self.contains(r),
            !self.on_edge(r),
    {
        TilePos {
            row: self.top_left.row + gen_range(rng, 1, self.dim.rows - 1),
            col: self.top_left.col + gen_range(rng, 1, self.dim.cols - 1),
        }
    }

    /// Returns a random tile position on one of the horizontal (top or bottom) edges
    pub fn random_horizontal_edge_tile(self, rng: &mut StdRng) -> (r: TilePos)
        requires
            self.is_proper(),
        ensures
            self.contains(r),
            r.row == self.top_left.row || r.row == self.last_row(),
    {
        let offset = if gen_bool(rng) { 0 } else { self.dim.rows - 1 };
        TilePos {
            row: self.top_left.row + offset,
            col: self.top_left.col + gen_range(rng, 0, self.dim.cols),
        }
    }

    /// Returns a random tile position on one of the vertical (left or right) edges
    pub fn random_vertical_edge_tile(self, rng: &mut StdRng) -> (r: TilePos)
        requires
            self.is_proper(),
        ensures
            self.contains(r),
            r.col == self.top_left.col || r.col == self.last_col(),
    {
        if gen_bool(rng) {
            self.random_left_vertical_edge_tile(rng)
        } else {
            self.random_right_vertical_edge_tile(rng)
        }
    }

    /// Returns a random tile position on the left vertical edge
    pub fn random_left_vertical_edge_tile(self, rng: &mut StdRng) -> (r: TilePos)
        requires
            self.is_proper(),
        ensures
            self.contains(r),
            r.col == self.top_left.col,
    {
        TilePos { row: self.top_left.row + gen_range(rng, 0, self.dim.rows), col: self.top_left.col }
    }

    /// Returns a random tile position on the right vertical edge
    pub fn random_right_vertical_edge_tile(self, rng: &mut StdRng) -> (r: TilePos)
        requires
            self.is_proper(),
        ensures
            self.contains(r),
            r.col == self.last_col(),
    {
        TilePos {
            row: self.top_left.row + gen_range(rng, 0, self.dim.rows),
            col: self.top_left.col + self.dim.cols - 1,
        }
    }

    /// Split the rectangle along the horizontal axis producing two rectangles that share their
    /// bottom and top edge.
    pub fn split_horizontal(self) -> (r: (Self, Self))
        requires
            self.dim.rows >= 2,
            self.top_left.row + self.dim.rows <= usize::MAX,
        ensures
            r.0 == (TileRect { top_left: self.top_left, dim: GridSize { rows: self.dim.rows / 2, cols: self.dim.cols } }),
            r.1 == (TileRect {
                top_left: TilePos { row: (self.top_left.row + self.dim.rows / 2 - 1) as usize, col: self.top_left.col },
                dim: GridSize { rows: (self.dim.rows - self.dim.rows / 2 + 1) as usize, cols: self.dim.cols },
            }),
    {
        let rows = self.dim.rows;
        let cols = self.dim.cols;
        let top = TileRect { top_left: self.top_left, dim: GridSize { rows: rows / 2, cols } };
        let bottom = TileRect {
            top_left: self.top_left.add(GridSize { rows: rows / 2 - 1, cols: 0 }),
            dim: GridSize { rows: rows - rows / 2 + 1, cols },
        };
        (top, bottom)
    }

    /// Split the rectangle along the vertical axis producing two rectangles that share their
    /// right and left edge.
    pub fn split_vertical(self) -> (r: (Self, Self))
        requires
            self.dim.cols >= 2,
            self.top_left.col + self.dim.cols <= usize::MAX,
        ensures
            r.0 == (TileRect { top_left: self.top_left, dim: GridSize { rows: self.dim.rows, cols: self.dim.cols / 2 } }),
            r.1 == (TileRect {
                top_left: TilePos { row: self.top_left.row, col: (self.top_left.col + self.dim.cols / 2 - 1) as usize },
                dim: GridSize { rows: self.dim.rows, cols: (self.dim.cols - self.dim.cols / 2 + 1) as usize },
            }),
    {
        let rows = self.dim.rows;
        let cols = self.dim.cols;
        let left = TileRect { top_left: self.top_left, dim: GridSize { rows, cols: cols / 2 } };
        let right = TileRect {
            top_left: self.top_left.add(GridSize { rows: 0, cols: cols / 2 - 1 }),
            dim: GridSize { rows, cols: cols - cols / 2 + 1 },
        };
        (left, right)
    }
}

/// Intersection does not depend on the order of the two rectangles
pub proof fn lemma_intersection_commutes(a: TileRect, b: TileRect)
    ensures
        a.spec_intersection(b) == b.spec_intersection(a),
        a.overlaps(b) == b.overlaps(a),
{
}

/// Rectangles taken as screen rectangles hold them share tiles exactly when their intersection
/// exists, and neither depends on the order of the two
pub proof fn lemma_screen_intersection_commutes(a: TileRect, b: TileRect)
    ensures
        a.clamped().spec_intersection(b.clamped()) == b.clamped().spec_intersection(a.clamped()),
        a.clamped().overlaps(b.clamped()) == b.clamped().overlaps(a.clamped()),
        a.clamped().overlaps(b.clamped()) <==> a.clamped().spec_intersection(b.clamped()) is Some,
{
    lemma_intersection_commutes(a.clamped(), b.clamped());
    lemma_has_intersection_iff_intersection(a.clamped(), b.clamped());
}

/// A tile is covered by the intersection of two rectangles exactly when it is covered by both
pub proof fn lemma_intersection_covers(a: TileRect, b: TileRect, p: TilePos)
    ensures
        a.overlaps(b) ==> (a.spec_intersection(b).unwrap().covers(p) <==> (a.covers(p) && b.covers(p))),
        !a.overlaps(b) ==> !(a.covers(p) && b.covers(p)),
{
}

/// Two rectangles overlap exactly when their intersection exists
pub proof fn lemma_has_intersection_iff_intersection(a: TileRect, b: TileRect)
    ensures
        a.overlaps(b) <==> a.spec_intersection(b) is Some,
{
}

/// An expanded rectangle still covers every tile of the rectangle it grew from, and expanding by zero
/// changes nothing
pub proof fn lemma_expand_contains(r: TileRect, margin: usize, p: TilePos)
    requires
        r.dim.rows + min_int(r.top_left.row as int, margin as int) + margin <= usize::MAX,
        r.dim.cols + min_int(r.top_left.col as int, margin as int) + margin <= usize::MAX,
    ensures
        r.contains(p) ==> r.spec_expand(margin).contains(p),
        r.spec_expand(0) == r,
{
}

/// The two halves of a horizontal split share one row of tiles, together span the rows of the
/// rectangle that was split, and keep its corners
pub proof fn lemma_split_horizontal_shares_edge(r: TileRect)
    requires
        r.dim.rows >= 2,
        r.dim.cols >= 1,
        r.top_left.row + r.dim.rows <= usize::MAX,
        r.top_left.col + r.dim.cols <= usize::MAX,
    ensures
        ({
            let top = TileRect { top_left: r.top_left, dim: GridSize { rows: r.dim.rows / 2, cols: r.dim.cols } };
            let bottom = TileRect {
                top_left: TilePos { row: (r.top_left.row + r.dim.rows / 2 - 1) as usize, col: r.top_left.col },
                dim: GridSize { rows: (r.dim.rows - r.dim.rows / 2 + 1) as usize, cols: r.dim.cols },
            };
            &&& top.spec_bottom_left() == bottom.top_left
            &&& top.spec_bottom_right() == bottom.spec_top_right()
            &&& top.dim.rows + bottom.dim.rows == r.dim.rows + 1
            &&& top.spec_top_right() == r.spec_top_right()
            &&& bottom.spec_bottom_right() == r.spec_bottom_right()
            &&& bottom.spec_bottom_left() == r.spec_bottom_left()
        }),
{
}

/// The two halves of a vertical split share one column of tiles, together span the columns of
/// the rectangle that was split, and keep its corners
pub proof fn lemma_split_vertical_shares_edge(r: TileRect)
    requires
        r.dim.cols >= 2,
        r.dim.rows >= 1,
        r.top_left.row + r.dim.rows <= usize::MAX,
        r.top_left.col + r.dim.cols <= usize::MAX,
    ensures
        ({
            let left = TileRect { top_left: r.top_left, dim: GridSize { rows: r.dim.rows, cols: r.dim.cols / 2 } };
            let right = TileRect {
                top_left: TilePos { row: r.top_left.row, col: (r.top_left.col + r.dim.cols / 2 - 1) as usize },
                dim: GridSize { rows: r.dim.rows, cols: (r.dim.cols - r.dim.cols / 2 + 1) as usize },
            };
            &&& left.spec_top_right() == right.top_left
            &&& left.spec_bottom_right() == right.spec_bottom_left()
            &&& left.dim.cols + right.dim.cols == r.dim.cols + 1
            &&& left.spec_bottom_left() == r.spec_bottom_left()
            &&& right.spec_top_right() == r.spec_top_right()
            &&& right.spec_bottom_right() == r.spec_bottom_right()
        }),
{
}

/// Every position listed by `edge_positions` lies on the edge of the rectangle
pub proof fn lemma_edge_positions_on_edge(r: TileRect, k: int)
    requires
        r.is_proper(),
        0 <= k < r.spec_edge_positions().len(),
    ensures
        r.on_edge(r.spec_edge_positions()[k]),
{
}

} // verus!
