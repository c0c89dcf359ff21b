//! The floor plan of the maze generator: a grid of cells, each either empty or holding a tile of
//! a passage or of a room, with a wall on each of its four sides. Two adjacent tiles are connected
//! when the walls between them are open.
use vstd::prelude::*;

use crate::floor_map::{CellColor, TextCell};
use crate::graph::symmetric;
use crate::grid::opt_seq;
use crate::room::RoomId;
use crate::tile_pos::TilePos;
use crate::tile_walls::{TileWalls, Wall};

verus! {

/// What a tile of the maze is part of
#[derive(Debug, Clone, Copy, PartialEq, Eq, Structural)]
pub enum TileType {
    /// Tiles that can be used to pass between rooms
    Passageway,
    /// Tiles that are part of a given room
    Room(RoomId),
}

/// One tile of the maze: what it is part of and its four walls
#[derive(Debug, Clone, Copy, PartialEq, Eq, Structural)]
pub struct Cell {
    pub ttype: TileType,
    pub walls: TileWalls,
}

impl Cell {
    /// A new tile of the given type, closed on every side
    pub fn with_type(ttype: TileType) -> (r: Self)
        ensures
            r == closed_cell(ttype),
    {
        Cell { ttype, walls: TileWalls::default() }
    }
}

/// One of the four sides of a cell
#[derive(Debug, Clone, Copy, PartialEq, Eq, Structural)]
pub enum Direction {
    North,
    East,
    South,
    West,
}

/// The side facing the given one
pub open spec fn opposite(d: Direction) -> Direction {
    match d {
        Direction::North => Direction::South,
        Direction::East => Direction::West,
        Direction::South => Direction::North,
        Direction::West => Direction::East,
    }
}

/// The wall on the given side
pub open spec fn wall_in(w: TileWalls, d: Direction) -> Wall {
    match d {
        Direction::North => w.north,
        Direction::East => w.east,
        Direction::South => w.south,
        Direction::West => w.west,
    }
}

/// The walls with the one on the given side replaced
pub open spec fn with_wall(w: TileWalls, d: Direction, v: Wall) -> TileWalls {
    match d {
        Direction::North => TileWalls { north: v, ..w },
        Direction::East => TileWalls { east: v, ..w },
        Direction::South => TileWalls { south: v, ..w },
        Direction::West => TileWalls { west: v, ..w },
    }
}

/// The position one step from `p` in the given direction, if it lies within a grid of the
/// given size
pub open spec fn step(p: TilePos, d: Direction, nrows: int, ncols: int) -> Option<TilePos> {
    match d {
        Direction::North => if p.row > 0 {
            Some(TilePos { row: (p.row - 1) as usize, col: p.col })
        } else {
            None
        },
        Direction::East => if p.col + 1 < ncols {
            Some(TilePos { row: p.row, col: (p.col + 1) as usize })
        } else {
            None
        },
        Direction::South => if p.row + 1 < nrows {
            Some(TilePos { row: (p.row + 1) as usize, col: p.col })
        } else {
            None
        },
        Direction::West => if p.col > 0 {
            Some(TilePos { row: p.row, col: (p.col - 1) as usize })
        } else {
            None
        },
    }
}

/// The direction in which `q` lies as seen from `p`, if the two are adjacent
pub open spec fn direction_to(p: TilePos, q: TilePos) -> Option<Direction> {
    if q.row + 1 == p.row && q.col == p.col {
        Some(Direction::North)
    } else if q.row == p.row && q.col == p.col + 1 {
        Some(Direction::East)
    } else if q.row == p.row + 1 && q.col == p.col {
        Some(Direction::South)
    } else if q.row == p.row && q.col + 1 == p.col {
        Some(Direction::West)
    } else {
        None
    }
}

/// The walls of two cells that face each other (the second lying in direction `d` of the first)
/// agree: both open or both closed, and a wall that faces an empty cell is closed
pub open spec fn pair_consistent(a: Option<Cell>, b: Option<Cell>, d: Direction) -> bool {
    match (a, b) {
        (Some(x), Some(y)) => wall_in(x.walls, d) == wall_in(y.walls, opposite(d)),
        (Some(x), None) => wall_in(x.walls, d) == Wall::Closed,
        (None, Some(y)) => wall_in(y.walls, opposite(d)) == Wall::Closed,
        (None, None) => true,
    }
}

/// A new tile: closed on every side
pub open spec fn closed_cell(ttype: TileType) -> Cell {
    Cell {
        ttype,
        walls: TileWalls { north: Wall::Closed, east: Wall::Closed, south: Wall::Closed, west: Wall::Closed },
    }
}

/// The tile, if any, with its wall on side `d` closed
pub open spec fn closed_side(c: Option<Cell>, d: Direction) -> Option<Cell> {
    match c {
        Some(x) => Some(Cell { walls: with_wall(x.walls, d, Wall::Closed), ..x }),
        None => None,
    }
}

/// A grid of cells: a non-empty list of rows of the same non-zero length
#[derive(Debug, Clone)]
pub struct PassageMap {
    pub(crate) cells: Vec<Vec<Option<Cell>>>,
}

impl View for PassageMap {
    type V = Seq<Seq<Option<Cell>>>;

    closed spec fn view(&self) -> Seq<Seq<Option<Cell>>> {
        self.cells@.map_values(|r: Vec<Option<Cell>>| r@)
    }
}

impl PassageMap {
    /// At least one row, at least one column, and every row as long as the first
    pub open spec fn wf(&self) -> bool {
        &&& self@.len() >= 1
        &&& self@[0].len() >= 1
        &&& forall|i: int| 0 <= i < self@.len() ==> #[trigger] self@[i].len() == self@[0].len()
    }

    pub open spec fn nrows(&self) -> nat {
        self@.len()
    }

    pub open spec fn ncols(&self) -> nat {
        self@[0].len()
    }

    pub open spec fn in_bounds(&self, p: TilePos) -> bool {
        p.row < self.nrows() && p.col < self.ncols()
    }

    /// The cell at the given position
    pub open spec fn cell(&self, p: TilePos) -> Option<Cell> {
        self@[p.row as int][p.col as int]
    }

    /// The position next to `p` in the given direction, if any
    pub open spec fn next_to(&self, p: TilePos, d: Direction) -> Option<TilePos> {
        step(p, d, self.nrows() as int, self.ncols() as int)
    }

    /// The walls on side `d` of `p` agree with the cell beyond them; on the edge of the grid
    /// the wall is closed
    pub open spec fn consistent_at(&self, p: TilePos, d: Direction) -> bool {
        match self.next_to(p, d) {
            Some(q) => pair_consistent(self.cell(p), self.cell(q), d),
            None => self.cell(p) is Some ==> wall_in(self.cell(p).unwrap().walls, d) == Wall::Closed,
        }
    }

    /// The walls of every tile agree with those of its neighbors and no wall leads off the grid
    /// or into an empty cell
    pub open spec fn walls_consistent(&self) -> bool {
        forall|p: TilePos, d: Direction| #[trigger] self.consistent_at(p, d)
            || !self.in_bounds(p)
    }

    /// A well-formed grid whose walls agree
    pub open spec fn valid(&self) -> bool {
        &&& self.wf()
        &&& self.walls_consistent()
    }

    /// There is no wall between two adjacent tiles
    pub open spec fn spec_is_open_between(&self, p: TilePos, q: TilePos) -> bool {
        &&& self.in_bounds(p)
        &&& self.in_bounds(q)
        &&& direction_to(p, q) is Some
        &&& self.cell(p) is Some
        &&& self.cell(q) is Some
        &&& wall_in(self.cell(p).unwrap().walls, direction_to(p, q).unwrap()) == Wall::Open
    }

    /// The numbers of rows and columns fit in `usize`
    pub proof fn lemma_size_fits(&self)
        requires
            self.wf(),
        ensures
            self.nrows() <= usize::MAX,
            self.ncols() <= usize::MAX,
    {
        assert(self.cells.len() == self.cells@.len());
        assert(self@.len() == self.cells@.len());
        assert(self@[0] == self.cells@[0]@);
        assert(self.cells@[0].len() == self.cells@[0]@.len());
    }

    /// Create a new grid of empty cells with the given number of rows and columns
    pub fn new(rows: usize, cols: usize) -> (r: Self)
        requires
            rows > 0,
            cols > 0,
        ensures
            r.valid(),
            r.nrows() == rows,
            r.ncols() == cols,
            forall|p: TilePos| #[trigger] r.in_bounds(p) ==> r.cell(p) is None,
    {
        let mut cells: Vec<Vec<Option<Cell>>> = Vec::new();
        let mut i: usize = 0;
        while i < rows
            invariant
                i <= rows,
                cells@.len() == i,
                forall|a: int| 0 <= a < i ==> #[trigger] cells@[a]@.len() == cols,
                forall|a: int, b: int| 0 <= a < i && 0 <= b < cols ==> #[trigger] cells@[a]@[b] is None,
            decreases rows - i,
        {
            let mut row: Vec<Option<Cell>> = Vec::new();
            let mut j: usize = 0;
            while j < cols
                invariant
                    j <= cols,
                    row@.len() == j,
                    forall|b: int| 0 <= b < j ==> #[trigger] row@[b] is None,
                decreases cols - j,
            {
                row.push(None);
                j += 1;
            }
            cells.push(row);
            i += 1;
        }
        let r = PassageMap { cells };
        assert forall|a: int| 0 <= a < r@.len() implies #[trigger] r@[a].len() == r@[0].len() by {
            assert(r@[a] == cells@[a]@);
        }
        assert forall|p: TilePos| #[trigger] r.in_bounds(p) implies r.cell(p) is None by {
            assert(r@[p.row as int] == cells@[p.row as int]@);
        }
        assert forall|p: TilePos, d: Direction| #[trigger] r.consistent_at(p, d) || !r.in_bounds(p) by {
            if r.in_bounds(p) {
                assert(r.cell(p) is None);
                if let Some(q) = r.next_to(p, d) {
                    assert(r.in_bounds(q));
                    assert(r.cell(q) is None);
                }
            }
        }
        r
    }

    /// Returns the number of rows in this grid
    pub fn rows_len(&self) -> (r: usize)
        ensures
            r == self.nrows(),
    {
        self.cells.len()
    }

    /// Returns the number of columns in this grid
    pub fn cols_len(&self) -> (r: usize)
        requires
            self.wf(),
        ensures
            r == self.ncols(),
    {
        self.cells[0].len()
    }

    /// Gets the tile at the given position (or None if the cell is empty)
    pub fn get(&self, p: TilePos) -> (r: Option<Cell>)
        requires
            self.wf(),
            self.in_bounds(p),
        ensures
            r == self.cell(p),
    {
        assert(self.cells@[p.row as int]@ == self@[p.row as int]);
        self.cells[p.row][p.col]
    }

    /// Returns true if the given position is empty (no tile)
    pub fn is_empty(&self, p: TilePos) -> (r: bool)
        requires
            self.wf(),
            self.in_bounds(p),
        ensures
            r == (self.cell(p) is None),
    {
        self.get(p).is_none()
    }

    /// Replaces the cell at the given position
    fn set(&mut self, p: TilePos, cell: Option<Cell>)
        requires
            old(self).wf(),
            old(self).in_bounds(p),
        ensures
            final(self).wf(),
            final(self).nrows() == old(self).nrows(),
            final(self).ncols() == old(self).ncols(),
            final(self).cell(p) == cell,
            forall|q: TilePos| old(self).in_bounds(q) && q != p ==> #[trigger] final(self).cell(q) == old(self).cell(q),
    {
        let ghost before = self@;
        assert(self.cells@[p.row as int]@ == self@[p.row as int]);
        self.cells[p.row].set(p.col, cell);
        assert(self@ =~= before.update(p.row as int, before[p.row as int].update(p.col as int, cell)));
        assert forall|i: int| 0 <= i < self@.len() implies #[trigger] self@[i].len() == self@[0].len() by {
            assert(before[i].len() == before[0].len());
        }
    }

    /// Places a tile with the given type, closed on every side, at the given empty location
    pub fn place_tile(&mut self, p: TilePos, ttype: TileType)
        requires
            old(self).valid(),
            old(self).in_bounds(p),
            old(self).cell(p) is None,
        ensures
            final(self).valid(),
            final(self).nrows() == old(self).nrows(),
            final(self).ncols() == old(self).ncols(),
            final(self).cell(p) == Some(closed_cell(ttype)),
            forall|q: TilePos| old(self).in_bounds(q) && q != p ==> #[trigger] final(self).cell(q) == old(self).cell(q),
    {
        let ghost before = *self;
        proof {
            self.lemma_size_fits();
        }
        self.set(p, Some(Cell::with_type(ttype)));
        assert forall|a: TilePos, d: Direction| #[trigger] self.consistent_at(a, d) || !self.in_bounds(a) by {
            if self.in_bounds(a) {
                assert(before.consistent_at(a, d));
                if let Some(b) = self.next_to(a, d) {
                    if b == p {
                        lemma_step_back(a, d, self.nrows() as int, self.ncols() as int);
                        assert(before.consistent_at(p, opposite(d)));
                    }
                }
            }
        }
    }

    /// Returns true if there is NO wall between two adjacent cells
    pub fn is_open_between(&self, p: TilePos, q: TilePos) -> (r: bool)
        requires
            self.valid(),
            self.in_bounds(p),
            self.in_bounds(q),
            direction_to(p, q) is Some,
        ensures
            r == self.spec_is_open_between(p, q),
    {
        let d = if p.row > 0 && q.row == p.row - 1 && q.col == p.col {
            Direction::North
        } else if q.row == p.row && q.col > 0 && q.col - 1 == p.col {
            Direction::East
        } else if q.row > 0 && q.row - 1 == p.row && q.col == p.col {
            Direction::South
        } else {
            Direction::West
        };
        match (self.get(p), self.get(q)) {
            (Some(tile1), Some(_)) => {
                let w = match d {
                    Direction::North => tile1.walls.north,
                    Direction::East => tile1.walls.east,
                    Direction::South => tile1.walls.south,
                    Direction::West => tile1.walls.west,
                };
                w == Wall::Open
            },
            // If either cell is empty then by definition we cannot have an open wall since that
            // would lead nowhere
            _ => false,
        }
    }

    /// Removes the wall between two adjacent tiles
    #[verifier::rlimit(40)]
    pub fn open_between(&mut self, p: TilePos, q: TilePos)
        requires
            old(self).valid(),
            old(self).in_bounds(p),
            old(self).in_bounds(q),
            direction_to(p, q) is Some,
            old(self).cell(p) is Some,
            old(self).cell(q) is Some,
        ensures
            final(self).valid(),
            final(self).nrows() == old(self).nrows(),
            final(self).ncols() == old(self).ncols(),
            final(self).cell(p) == Some(Cell {
                walls: with_wall(old(self).cell(p).unwrap().walls, direction_to(p, q).unwrap(), Wall::Open),
                ..old(self).cell(p).unwrap()
            }),
            final(self).cell(q) == Some(Cell {
                walls: with_wall(old(self).cell(q).unwrap().walls, opposite(direction_to(p, q).unwrap()), Wall::Open),
                ..old(self).cell(q).unwrap()
            }),
            forall|r: TilePos| old(self).in_bounds(r) && r != p && r != q ==> #[trigger] final(self).cell(r) == old(self).cell(r),
            final(self).spec_is_open_between(p, q),
            final(self).spec_is_open_between(q, p),
            forall|a: TilePos, b: TilePos| old(self).spec_is_open_between(a, b) ==> #[trigger] final(self).spec_is_open_between(a, b),
            forall|a: TilePos, b: TilePos| #[trigger] final(self).spec_is_open_between(a, b) && !old(self).spec_is_open_between(a, b)
                ==> (a == p && b == q) || (a == q && b == p),
    {
        let ghost before = *self;
        let ghost d = direction_to(p, q).unwrap();
        proof {
            self.lemma_size_fits();
        }
        let c1 = self.get(p).unwrap();
        let c2 = self.get(q).unwrap();
        let (w1, w2) = if p.row > 0 && q.row == p.row - 1 && q.col == p.col {
            (TileWalls { north: Wall::Open, ..c1.walls }, TileWalls { south: Wall::Open, ..c2.walls })
        } else if q.row == p.row && q.col > 0 && q.col - 1 == p.col {
            (TileWalls { east: Wall::Open, ..c1.walls }, TileWalls { west: Wall::Open, ..c2.walls })
        } else if q.row > 0 && q.row - 1 == p.row && q.col == p.col {
            (TileWalls { south: Wall::Open, ..c1.walls }, TileWalls { north: Wall::Open, ..c2.walls })
        } else {
            (TileWalls { west: Wall::Open, ..c1.walls }, TileWalls { east: Wall::Open, ..c2.walls })
        };
        self.set(p, Some(Cell { walls: w1, ..c1 }));
        self.set(q, Some(Cell { walls: w2, ..c2 }));
        proof {
            lemma_direction_step(p, q, self.nrows() as int, self.ncols() as int);
        }
        assert forall|a: TilePos, e: Direction| #[trigger] self.consistent_at(a, e) || !self.in_bounds(a) by {
            if self.in_bounds(a) {
                assert(before.consistent_at(a, e));
                if let Some(b) = self.next_to(a, e) {
                    if b == p || b == q {
                        lemma_step_back(a, e, self.nrows() as int, self.ncols() as int);
                        assert(before.consistent_at(b, opposite(e)));
                    }
                }
            }
        }
    }

    /// The tiles joined by an open wall
    pub open spec fn open_edge(&self) -> spec_fn(TilePos, TilePos) -> bool {
        |a: TilePos, b: TilePos| self.spec_is_open_between(a, b)
    }

    /// Returns the positions adjacent to the given cell in the four cardinal directions, in the
    /// order north, west, south, east. Only returns valid positions.
    pub fn adjacent_cells(&self, p: TilePos) -> (r: Vec<TilePos>)
        requires
            self.wf(),
            self.in_bounds(p),
        ensures
            r@ == self.spec_adjacent_cells(p),
    {
        let nrows = self.rows_len();
        let ncols = self.cols_len();
        let mut r: Vec<TilePos> = Vec::new();
        if p.row > 0 {
            r.push(TilePos { row: p.row - 1, col: p.col });
        }
        if p.col > 0 {
            r.push(TilePos { row: p.row, col: p.col - 1 });
        }
        if p.row + 1 < nrows {
            r.push(TilePos { row: p.row + 1, col: p.col });
        }
        if p.col + 1 < ncols {
            r.push(TilePos { row: p.row, col: p.col + 1 });
        }
        proof {
            assert(r@ =~= self.spec_adjacent_cells(p));
        }
        r
    }

    /// How a cell shows in the text rendering of the maze: a passage tile shows its walls on
    /// green, a room tile shows on blue and an empty cell on black
    pub open spec fn spec_cell_text(c: Option<Cell>) -> TextCell {
        match c {
            None => TextCell { symbol: ' ', background: CellColor::Black },
            Some(x) => match x.ttype {
                TileType::Passageway => TextCell { symbol: x.walls.spec_symbol(), background: CellColor::Green },
                TileType::Room(_) => TextCell { symbol: ' ', background: CellColor::Blue },
            },
        }
    }

    /// Returns the text rendering of the maze, row by row
    pub fn text_cells(&self) -> (r: Vec<Vec<TextCell>>)
        requires
            self.wf(),
        ensures
            r@.len() == self.nrows(),
            forall|i: int| 0 <= i < r@.len() ==> (#[trigger] r@[i])@.len() == self.ncols(),
            forall|i: int, j: int| 0 <= i < r@.len() && 0 <= j < r@[i]@.len() ==> #[trigger] r@[i]@[j]
                == PassageMap::spec_cell_text(self.cell(TilePos { row: i as usize, col: j as usize })),
    {
        let nrows = self.rows_len();
        let ncols = self.cols_len();
        let mut r: Vec<Vec<TextCell>> = Vec::new();
        let mut row: usize = 0;
        while row < nrows
            invariant
                self.wf(),
                nrows == self.nrows(),
                ncols == self.ncols(),
                row <= nrows,
                r@.len() == row,
                forall|i: int| 0 <= i < r@.len() ==> (#[trigger] r@[i])@.len() == ncols,
                forall|i: int, j: int| 0 <= i < r@.len() && 0 <= j < r@[i]@.len() ==> #[trigger] r@[i]@[j]
                    == PassageMap::spec_cell_text(self.cell(TilePos { row: i as usize, col: j as usize })),
            decreases nrows - row,
        {
            let mut cells: Vec<TextCell> = Vec::new();
            let mut col: usize = 0;
            while col < ncols
                invariant
                    self.wf(),
                    nrows == self.nrows(),
                    ncols == self.ncols(),
                    row < nrows,
                    col <= ncols,
                    cells@.len() == col,
                    forall|j: int| 0 <= j < col ==> #[trigger] cells@[j]
                        == PassageMap::spec_cell_text(self.cell(TilePos { row, col: j as usize })),
                decreases ncols - col,
            {
                let cell = match self.get(TilePos { row, col }) {
                    None => TextCell { symbol: ' ', background: CellColor::Black },
                    Some(x) => match x.ttype {
                        TileType::Passageway => TextCell { symbol: x.walls.symbol(), background: CellColor::Green },
                        TileType::Room(_) => TextCell { symbol: ' ', background: CellColor::Blue },
                    },
                };
                cells.push(cell);
                col += 1;
            }
            r.push(cells);
            row += 1;
        }
        r
    }

    /// The cell holds a passage tile
    pub open spec fn spec_is_passageway(&self, p: TilePos) -> bool {
        self.cell(p) matches Some(c) && c.ttype == TileType::Passageway
    }

    /// Some passage tile next to `p` has no wall between it and `p`
    pub open spec fn spec_has_open_passage(&self, p: TilePos) -> bool {
        exists|d: Direction| #[trigger] self.next_to(p, d) is Some
            && self.spec_is_passageway(self.next_to(p, d).unwrap())
            && self.spec_is_open_between(p, self.next_to(p, d).unwrap())
    }

    /// Returns true if the given cell holds a passage tile
    pub fn is_passageway(&self, p: TilePos) -> (r: bool)
        requires
            self.wf(),
            self.in_bounds(p),
        ensures
            r == self.spec_is_passageway(p),
    {
        match self.get(p) {
            Some(c) => match c.ttype {
                TileType::Passageway => true,
                TileType::Room(_) => false,
            },
            None => false,
        }
    }

    /// Returns true if some passage tile next to the given cell has no wall between the two
    pub fn has_open_passage(&self, p: TilePos) -> (r: bool)
        requires
            self.valid(),
            self.in_bounds(p),
        ensures
            r == self.spec_has_open_passage(p),
    {
        let adjacents = self.adjacent_cells(p);
        proof {
            lemma_adjacent_cells(self, p);
            self.lemma_size_fits();
        }
        let mut k: usize = 0;
        while k < adjacents.len()
            invariant
                self.valid(),
                self.in_bounds(p),
                self.nrows() <= usize::MAX,
                self.ncols() <= usize::MAX,
                adjacents@ == self.spec_adjacent_cells(p),
                k <= adjacents@.len(),
                forall|j: int| 0 <= j < k ==> !(#[trigger] self.spec_is_passageway(adjacents@[j])
                    && self.spec_is_open_between(p, adjacents@[j])),
            decreases adjacents@.len() - k,
        {
            let q = adjacents[k];
            proof {
                assert(adjacents@.contains(q));
                let d = choose|d: Direction| self.next_to(p, d) == Some(q);
                lemma_step_back(p, d, self.nrows() as int, self.ncols() as int);
            }
            if self.is_passageway(q) && self.is_open_between(p, q) {
                proof {
                    let d = choose|d: Direction| self.next_to(p, d) == Some(q);
                    assert(self.next_to(p, d) is Some);
                }
                return true;
            }
            k += 1;
        }
        proof {
            assert forall|d: Direction| #[trigger] self.next_to(p, d) is Some implies !(self.spec_is_passageway(
                self.next_to(p, d).unwrap(),
            ) && self.spec_is_open_between(p, self.next_to(p, d).unwrap())) by {
                let q = self.next_to(p, d).unwrap();
                assert(adjacents@.contains(q));
                let j = choose|j: int| 0 <= j < adjacents@.len() && adjacents@[j] == q;
                assert(self.spec_is_passageway(adjacents@[j]) == self.spec_is_passageway(q));
            }
        }
        false
    }

    /// The cell holds a passage tile with exactly one open wall
    pub open spec fn spec_is_dead_end(&self, p: TilePos) -> bool {
        &&& self.spec_is_passageway(p)
        &&& self.cell(p).unwrap().walls.spec_is_dead_end()
    }

    /// Returns true if the given cell holds a passage tile that leads on in a single direction
    pub fn is_dead_end(&self, p: TilePos) -> (r: bool)
        requires
            self.wf(),
            self.in_bounds(p),
        ensures
            r == self.spec_is_dead_end(p),
    {
        match self.get(p) {
            Some(c) => match c.ttype {
                TileType::Passageway => c.walls.is_dead_end(),
                TileType::Room(_) => false,
            },
            None => false,
        }
    }

    /// Closes the wall on side `d` of the tile at `p`, if there is a tile there
    fn close_wall(&mut self, p: TilePos, d: Direction)
        requires
            old(self).wf(),
            old(self).in_bounds(p),
        ensures
            final(self).wf(),
            final(self).nrows() == old(self).nrows(),
            final(self).ncols() == old(self).ncols(),
            final(self).cell(p) == closed_side(old(self).cell(p), d),
            forall|q: TilePos| old(self).in_bounds(q) && q != p ==> #[trigger] final(self).cell(q) == old(self).cell(q),
    {
        match self.get(p) {
            Some(c) => {
                let walls = match d {
                    Direction::North => TileWalls { north: Wall::Closed, ..c.walls },
                    Direction::East => TileWalls { east: Wall::Closed, ..c.walls },
                    Direction::South => TileWalls { south: Wall::Closed, ..c.walls },
                    Direction::West => TileWalls { west: Wall::Closed, ..c.walls },
                };
                self.set(p, Some(Cell { walls, ..c }));
            },
            None => {},
        }
    }

    /// Takes away the passage tile at the given position, closing the walls of its neighbours
    /// that faced it
    pub fn remove_passageway(&mut self, p: TilePos)
        requires
            old(self).valid(),
            old(self).in_bounds(p),
            old(self).spec_is_passageway(p),
        ensures
            final(self).valid(),
            final(self).nrows() == old(self).nrows(),
            final(self).ncols() == old(self).ncols(),
            final(self).cell(p) is None,
            forall|q: TilePos| #[trigger] old(self).in_bounds(q) && q != p ==> final(self).cell(q) == match direction_to(q, p) {
                Some(d) => closed_side(old(self).cell(q), d),
                None => old(self).cell(q),
            },
    {
        let ghost before = *self;
        proof {
            self.lemma_size_fits();
        }
        let nrows = self.rows_len();
        let ncols = self.cols_len();
        if p.row > 0 {
            self.close_wall(TilePos { row: p.row - 1, col: p.col }, Direction::South);
        }
        if p.col + 1 < ncols {
            self.close_wall(TilePos { row: p.row, col: p.col + 1 }, Direction::West);
        }
        if p.row + 1 < nrows {
            self.close_wall(TilePos { row: p.row + 1, col: p.col }, Direction::North);
        }
        if p.col > 0 {
            self.close_wall(TilePos { row: p.row, col: p.col - 1 }, Direction::East);
        }
        self.set(p, None);
        proof {
            lemma_removal_consistent(before, *self, p);
        }
    }

    /// The positions next to `p` within the grid: north, west, south, east
    pub open spec fn spec_adjacent_cells(&self, p: TilePos) -> Seq<TilePos> {
        opt_seq(self.next_to(p, Direction::North)) + opt_seq(self.next_to(p, Direction::West))
            + opt_seq(self.next_to(p, Direction::South)) + opt_seq(self.next_to(p, Direction::East))
    }
}

/// In a grid whose walls agree, two tiles are open to each other from both sides or from neither
pub proof fn lemma_open_symmetric(m: &PassageMap, p: TilePos, q: TilePos)
    requires
        m.valid(),
    ensures
        m.spec_is_open_between(p, q) == m.spec_is_open_between(q, p),
{
    if m.in_bounds(p) && m.in_bounds(q) && direction_to(p, q) is Some {
        m.lemma_size_fits();
        lemma_direction_step(p, q, m.nrows() as int, m.ncols() as int);
        assert(m.consistent_at(p, direction_to(p, q).unwrap()));
    }
}

/// `after` is `before` with the wall between the adjacent tiles `p` and `q` opened on both sides,
/// and nothing else changed
pub open spec fn wall_opened(before: PassageMap, after: PassageMap, p: TilePos, q: TilePos) -> bool {
    &&& after.valid()
    &&& after.nrows() == before.nrows()
    &&& after.ncols() == before.ncols()
    &&& after.cell(p) == Some(Cell {
        walls: with_wall(before.cell(p).unwrap().walls, direction_to(p, q).unwrap(), Wall::Open),
        ..before.cell(p).unwrap()
    })
    &&& after.cell(q) == Some(Cell {
        walls: with_wall(before.cell(q).unwrap().walls, opposite(direction_to(p, q).unwrap()), Wall::Open),
        ..before.cell(q).unwrap()
    })
    &&& forall|r: TilePos| before.in_bounds(r) && r != p && r != q ==> #[trigger] after.cell(r) == before.cell(r)
    &&& after.spec_is_open_between(p, q)
    &&& after.spec_is_open_between(q, p)
    &&& forall|a: TilePos, b: TilePos| before.spec_is_open_between(a, b) ==> #[trigger] after.spec_is_open_between(a, b)
    &&& forall|a: TilePos, b: TilePos| #[trigger] after.spec_is_open_between(a, b) && !before.spec_is_open_between(a, b)
        ==> (a == p && b == q) || (a == q && b == p)
}

/// The open edges of a valid map go both ways
pub proof fn lemma_open_edge_symmetric(m: &PassageMap)
    requires
        m.valid(),
    ensures
        symmetric(m.open_edge()),
{
    assert forall|x: TilePos, y: TilePos| #[trigger] m.open_edge()(x, y) implies m.open_edge()(y, x) by {
        lemma_open_symmetric(m, x, y);
    }
}

/// Filling empty cells keeps every open edge between the tiles that were already there
pub proof fn lemma_open_edges_kept(m1: &PassageMap, m2: &PassageMap)
    requires
        m1.nrows() == m2.nrows(),
        m1.ncols() == m2.ncols(),
        forall|p: TilePos| m1.in_bounds(p) && #[trigger] m1.cell(p) is Some ==> m2.cell(p) == m1.cell(p),
    ensures
        forall|x: TilePos, y: TilePos| #[trigger] m1.open_edge()(x, y) ==> m2.open_edge()(x, y),
{
}

/// Taking away a tile and closing the walls that faced it keeps the walls in agreement
proof fn lemma_removal_consistent(before: PassageMap, after: PassageMap, p: TilePos)
    requires
        before.valid(),
        after.wf(),
        after.nrows() == before.nrows(),
        after.ncols() == before.ncols(),
        before.in_bounds(p),
        after.cell(p) is None,
        forall|q: TilePos| #[trigger] before.in_bounds(q) && q != p ==> after.cell(q) == match direction_to(q, p) {
            Some(d) => closed_side(before.cell(q), d),
            None => before.cell(q),
        },
    ensures
        after.walls_consistent(),
{
    before.lemma_size_fits();
    assert forall|a: TilePos, e: Direction| #[trigger] after.consistent_at(a, e) || !after.in_bounds(a) by {
        if after.in_bounds(a) {
            assert(before.consistent_at(a, e));
            lemma_step_back(a, e, before.nrows() as int, before.ncols() as int);
            assert(before.in_bounds(a));
            if let Some(b) = after.next_to(a, e) {
                assert(before.in_bounds(b));
                if a != p && b != p {
                    assert(direction_to(a, p) != Some(e));
                    assert(direction_to(b, p) != Some(opposite(e)));
                }
            }
        }
    }
}

/// The positions listed next to `p` are exactly those one step away from it
pub proof fn lemma_adjacent_cells(m: &PassageMap, p: TilePos)
    requires
        m.wf(),
        m.in_bounds(p),
    ensures
        forall|d: Direction| #[trigger] m.next_to(p, d) is Some ==> m.spec_adjacent_cells(p).contains(m.next_to(p, d).unwrap()),
        forall|q: TilePos| #[trigger] m.spec_adjacent_cells(p).contains(q) ==> exists|d: Direction| m.next_to(p, d) == Some(q),
{
    let a = opt_seq(m.next_to(p, Direction::North));
    let b = opt_seq(m.next_to(p, Direction::West));
    let c = opt_seq(m.next_to(p, Direction::South));
    let adj = m.spec_adjacent_cells(p);
    assert forall|d: Direction| #[trigger] m.next_to(p, d) is Some implies adj.contains(m.next_to(p, d).unwrap()) by {
        let i: int = match d {
            Direction::North => 0,
            Direction::West => a.len() as int,
            Direction::South => (a.len() + b.len()) as int,
            Direction::East => (a.len() + b.len() + c.len()) as int,
        };
        assert(adj[i] == m.next_to(p, d).unwrap());
    }
    assert forall|q: TilePos| #[trigger] adj.contains(q) implies exists|d: Direction| m.next_to(p, d) == Some(q) by {
        if m.next_to(p, Direction::North) == Some(q) {
        } else if m.next_to(p, Direction::West) == Some(q) {
        } else if m.next_to(p, Direction::South) == Some(q) {
        } else {
            assert(m.next_to(p, Direction::East) == Some(q));
        }
    }
}

/// Stepping back from where a step led returns to the start, and the direction between the two
/// is the direction of the step
pub proof fn lemma_step_back(p: TilePos, d: Direction, nrows: int, ncols: int)
    requires
        nrows <= usize::MAX,
        ncols <= usize::MAX,
        p.row < nrows,
        p.col < ncols,
    ensures
        step(p, d, nrows, ncols) matches Some(q) ==> {
            &&& step(q, opposite(d), nrows, ncols) == Some(p)
            &&& direction_to(p, q) == Some(d)
            &&& direction_to(q, p) == Some(opposite(d))
            &&& q.row < nrows && q.col < ncols
        },
{
}

/// Two adjacent positions within the grid are one step apart, each way
pub proof fn lemma_direction_step(p: TilePos, q: TilePos, nrows: int, ncols: int)
    requires
        nrows <= usize::MAX,
        ncols <= usize::MAX,
        p.row < nrows,
        p.col < ncols,
        q.row < nrows,
        q.col < ncols,
        direction_to(p, q) is Some,
    ensures
        step(p, direction_to(p, q).unwrap(), nrows, ncols) == Some(q),
        step(q, opposite(direction_to(p, q).unwrap()), nrows, ncols) == Some(p),
        direction_to(q, p) == Some(opposite(direction_to(p, q).unwrap())),
{
}

} // verus!
