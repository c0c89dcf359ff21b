use vstd::prelude::*;

use crate::geometry::Rect;

verus! {

/// The dimensions of a 2D span of tiles on a grid
#[derive(Debug, Clone, Copy, PartialEq, Eq, Hash, Structural)]
pub struct GridSize {
    pub rows: usize,
    pub cols: usize,
}

impl GridSize {
    /// The size whose rows and columns are the sums of those of the two sizes
    pub open spec fn plus(self, other: GridSize) -> GridSize {
        GridSize { rows: (self.rows + other.rows) as usize, cols: (self.cols + other.cols) as usize }
    }

    /// The size whose rows and columns are the differences of those of the two sizes
    pub open spec fn minus(self, other: GridSize) -> GridSize {
        GridSize { rows: (self.rows - other.rows) as usize, cols: (self.cols - other.cols) as usize }
    }

    /// Adding `other` to this size stays within the machine range
    pub open spec fn can_add(self, other: GridSize) -> bool {
        self.rows + other.rows <= usize::MAX && self.cols + other.cols <= usize::MAX
    }

    /// `other` fits inside this size, so that it can be subtracted
    pub open spec fn can_sub(self, other: GridSize) -> bool {
        other.rows <= self.rows && other.cols <= self.cols
    }

    /// Creates a new GridSize that represents a square of the given size
    pub fn square(size: usize) -> (r: Self)
        ensures
            r == (GridSize { rows: size, cols: size }),
    {
        GridSize { rows: size, cols: size }
    }

    /// Converts the given grid size to a rectangle in world coordinates.
    /// The rectangle starts with its top left corner at (0, 0)
    pub fn to_rect(self, tile_size: u32) -> (r: Rect)
        requires
            self.cols * tile_size <= u32::MAX,
            self.rows * tile_size <= u32::MAX,
        ensures
            r == Rect::spec_new(0, 0, self.cols * tile_size, self.rows * tile_size),
    {
        proof {
            if tile_size > 0 {
                assert(self.cols <= self.cols * tile_size) by (nonlinear_arith)
                    requires tile_size > 0;
                assert(self.rows <= self.rows * tile_size) by (nonlinear_arith)
                    requires tile_size > 0;
            }
        }
        let cols: u32 = if tile_size == 0 { 0 } else { self.cols as u32 };
        let rows: u32 = if tile_size == 0 { 0 } else { self.rows as u32 };
        Rect::new(0, 0, cols * tile_size, rows * tile_size)
    }

    /// Adds the rows and the columns of two sizes
    pub fn add(self, other: GridSize) -> (r: Self)
        requires
            self.can_add(other),
        ensures
            r == self.plus(other),
    {
        GridSize { rows: self.rows + other.rows, cols: self.cols + other.cols }
    }

    /// Subtracts the rows and the columns of another size from this size
    pub fn sub(self, other: GridSize) -> (r: Self)
        requires
            self.can_sub(other),
        ensures
            r == self.minus(other),
    {
        GridSize { rows: self.rows - other.rows, cols: self.cols - other.cols }
    }
}

/// Adding a size and then subtracting the same size gives back the size one started with
pub proof fn lemma_grid_size_add_sub(a: GridSize, b: GridSize)
    requires
        a.can_add(b),
    ensures
        a.plus(b).can_sub(b),
        a.plus(b).minus(b) == a,
{
}

/// Subtracting a size and then adding the same size gives back the size one started with
pub proof fn lemma_grid_size_sub_add(a: GridSize, b: GridSize)
    requires
        a.can_sub(b),
    ensures
        a.minus(b).can_add(b),
        a.minus(b).plus(b) == a,
{
}

} // verus!
