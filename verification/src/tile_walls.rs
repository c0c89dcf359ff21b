use vstd::prelude::*;

verus! {

/// The state of one side of a passage cell
#[derive(Debug, Clone, Copy, PartialEq, Eq, Structural)]
pub enum Wall {
    Open,
    Closed,
    Locked,
}

/// The four walls around a passage cell
#[derive(Debug, Clone, Copy, PartialEq, Eq, Structural)]
pub struct TileWalls {
    pub north: Wall,
    pub east: Wall,
    pub south: Wall,
    pub west: Wall,
}

impl TileWalls {
    /// The number of the four walls that are open
    pub open spec fn open_count(self) -> int {
        (if self.north == Wall::Open { 1int } else { 0 }) + (if self.east == Wall::Open { 1int } else { 0 })
            + (if self.south == Wall::Open { 1int } else { 0 }) + (if self.west == Wall::Open { 1int } else { 0 })
    }

    /// Exactly one of the four walls is open: the tile leads on in a single direction
    pub open spec fn spec_is_dead_end(self) -> bool {
        self.open_count() == 1
    }

    /// All four walls closed
    pub fn default() -> (r: Self)
        ensures
            r == (TileWalls { north: Wall::Closed, east: Wall::Closed, south: Wall::Closed, west: Wall::Closed }),
    {
        TileWalls { north: Wall::Closed, east: Wall::Closed, south: Wall::Closed, west: Wall::Closed }
    }

    /// Returns true if only a single wall is open
    pub fn is_dead_end(&self) -> (r: bool)
        ensures
            r == self.spec_is_dead_end(),
    {
        let mut open: usize = 0;
        if self.north == Wall::Open {
            open += 1;
        }
        if self.east == Wall::Open {
            open += 1;
        }
        if self.south == Wall::Open {
            open += 1;
        }
        if self.west == Wall::Open {
            open += 1;
        }
        open == 1
    }

    /// The box-drawing character that shows which walls are open, or a space for walls that
    /// are locked
    pub open spec fn spec_symbol(self) -> char {
        let n = self.north;
        let e = self.east;
        let s = self.south;
        let w = self.west;
        let c = Wall::Closed;
        let o = Wall::Open;
        if n == c && e == c && s == c && w == c { '\u{26ac}' }
        else if n == o && e == c && s == c && w == c { '\u{257d}' }
        else if n == c && e == o && s == c && w == c { '\u{257e}' }
        else if n == c && e == c && s == o && w == c { '\u{257f}' }
        else if n == c && e == c && s == c && w == o { '\u{257c}' }
        else if n == o && e == o && s == c && w == c { '\u{2514}' }
        else if n == c && e == o && s == o && w == c { '\u{250C}' }
        else if n == c && e == c && s == o && w == o { '\u{2510}' }
        else if n == o && e == c && s == c && w == o { '\u{2518}' }
        else if n == o && e == c && s == o && w == c { '\u{2502}' }
        else if n == c && e == o && s == c && w == o { '\u{2500}' }
        else if n == o && e == o && s == o && w == c { '\u{251c}' }
        else if n == c && e == o && s == o && w == o { '\u{252c}' }
        else if n == o && e == c && s == o && w == o { '\u{2524}' }
        else if n == o && e == o && s == c && w == o { '\u{2534}' }
        else if n == o && e == o && s == o && w == o { '\u{253c}' }
        else { ' ' }
    }

    /// The character that shows this cell in a text rendering of a maze
    pub fn symbol(&self) -> (r: char)
        ensures
            r == self.spec_symbol(),
    {
        match *self {
            TileWalls { north: Wall::Closed, east: Wall::Closed, south: Wall::Closed, west: Wall::Closed } => '\u{26ac}',
            TileWalls { north: Wall::Open, east: Wall::Closed, south: Wall::Closed, west: Wall::Closed } => '\u{257d}',
            TileWalls { north: Wall::Closed, east: Wall::Open, south: Wall::Closed, west: Wall::Closed } => '\u{257e}',
            TileWalls { north: Wall::Closed, east: Wall::Closed, south: Wall::Open, west: Wall::Closed } => '\u{257f}',
            TileWalls { north: Wall::Closed, east: Wall::Closed, south: Wall::Closed, west: Wall::Open } => '\u{257c}',
            TileWalls { north: Wall::Open, east: Wall::Open, south: Wall::Closed, west: Wall::Closed } => '\u{2514}',
            TileWalls { north: Wall::Closed, east: Wall::Open, south: Wall::Open, west: Wall::Closed } => '\u{250C}',
            TileWalls { north: Wall::Closed, east: Wall::Closed, south: Wall::Open, west: Wall::Open } => '\u{2510}',
            TileWalls { north: Wall::Open, east: Wall::Closed, south: Wall::Closed, west: Wall::Open } => '\u{2518}',
            TileWalls { north: Wall::Open, east: Wall::Closed, south: Wall::Open, west: Wall::Closed } => '\u{2502}',
            TileWalls { north: Wall::Closed, east: Wall::Open, south: Wall::Closed, west: Wall::Open } => '\u{2500}',
            TileWalls { north: Wall::Open, east: Wall::Open, south: Wall::Open, west: Wall::Closed } => '\u{251c}',
            TileWalls { north: Wall::Closed, east: Wall::Open, south: Wall::Open, west: Wall::Open } => '\u{252c}',
            TileWalls { north: Wall::Open, east: Wall::Closed, south: Wall::Open, west: Wall::Open } => '\u{2524}',
            TileWalls { north: Wall::Open, east: Wall::Open, south: Wall::Closed, west: Wall::Open } => '\u{2534}',
            TileWalls { north: Wall::Open, east: Wall::Open, south: Wall::Open, west: Wall::Open } => '\u{253c}',
            _ => ' ',
        }
    }

    /// The symbol of this cell as a string (how the walls of a passage cell are displayed)
    pub fn to_string(&self) -> (r: String)
        ensures
            r@ == seq![self.spec_symbol()],
    {
        let s: &str = match *self {
            TileWalls { north: Wall::Closed, east: Wall::Closed, south: Wall::Closed, west: Wall::Closed } => {
                proof { reveal_strlit("\u{26ac}"); }
                "\u{26ac}"
            },
            TileWalls { north: Wall::Open, east: Wall::Closed, south: Wall::Closed, west: Wall::Closed } => {
                proof { reveal_strlit("\u{257d}"); }
                "\u{257d}"
            },
            TileWalls { north: Wall::Closed, east: Wall::Open, south: Wall::Closed, west: Wall::Closed } => {
                proof { reveal_strlit("\u{257e}"); }
                "\u{257e}"
            },
            TileWalls { north: Wall::Closed, east: Wall::Closed, south: Wall::Open, west: Wall::Closed } => {
                proof { reveal_strlit("\u{257f}"); }
                "\u{257f}"
            },
            TileWalls { north: Wall::Closed, east: Wall::Closed, south: Wall::Closed, west: Wall::Open } => {
                proof { reveal_strlit("\u{257c}"); }
                "\u{257c}"
            },
            TileWalls { north: Wall::Open, east: Wall::Open, south: Wall::Closed, west: Wall::Closed } => {
                proof { reveal_strlit("\u{2514}"); }
                "\u{2514}"
            },
            TileWalls { north: Wall::Closed, east: Wall::Open, south: Wall::Open, west: Wall::Closed } => {
                proof { reveal_strlit("\u{250C}"); }
                "\u{250C}"
            },
            TileWalls { north: Wall::Closed, east: Wall::Closed, south: Wall::Open, west: Wall::Open } => {
                proof { reveal_strlit("\u{2510}"); }
                "\u{2510}"
            },
            TileWalls { north: Wall::Open, east: Wall::Closed, south: Wall::Closed, west: Wall::Open } => {
                proof { reveal_strlit("\u{2518}"); }
                "\u{2518}"
            },
            TileWalls { north: Wall::Open, east: Wall::Closed, south: Wall::Open, west: Wall::Closed } => {
                proof { reveal_strlit("\u{2502}"); }
                "\u{2502}"
            },
            TileWalls { north: Wall::Closed, east: Wall::Open, south: Wall::Closed, west: Wall::Open } => {
                proof { reveal_strlit("\u{2500}"); }
                "\u{2500}"
            },
            TileWalls { north: Wall::Open, east: Wall::Open, south: Wall::Open, west: Wall::Closed } => {
                proof { reveal_strlit("\u{251c}"); }
                "\u{251c}"
            },
            TileWalls { north: Wall::Closed, east: Wall::Open, south: Wall::Open, west: Wall::Open } => {
                proof { reveal_strlit("\u{252c}"); }
                "\u{252c}"
            },
            TileWalls { north: Wall::Open, east: Wall::Closed, south: Wall::Open, west: Wall::Open } => {
                proof { reveal_strlit("\u{2524}"); }
                "\u{2524}"
            },
            TileWalls { north: Wall::Open, east: Wall::Open, south: Wall::Closed, west: Wall::Open } => {
                proof { reveal_strlit("\u{2534}"); }
                "\u{2534}"
            },
            TileWalls { north: Wall::Open, east: Wall::Open, south: Wall::Open, west: Wall::Open } => {
                proof { reveal_strlit("\u{253c}"); }
                "\u{253c}"
            },
            _ => {
                proof { reveal_strlit(" "); }
                " "
            },
        };
        s.to_owned()
    }
}

/// A dead end has exactly one way out: a tile is a dead end exactly when one of its walls is open
/// and none of the other three is, whether they are closed or locked; a closed tile is none
pub proof fn lemma_dead_end_single_opening(w: TileWalls)
    ensures
        w.spec_is_dead_end() <==> (
            (w.north == Wall::Open && w.east != Wall::Open && w.south != Wall::Open && w.west != Wall::Open)
            || (w.north != Wall::Open && w.east == Wall::Open && w.south != Wall::Open && w.west != Wall::Open)
            || (w.north != Wall::Open && w.east != Wall::Open && w.south == Wall::Open && w.west != Wall::Open)
            || (w.north != Wall::Open && w.east != Wall::Open && w.south != Wall::Open && w.west == Wall::Open)),
        !(TileWalls { north: Wall::Closed, east: Wall::Closed, south: Wall::Closed, west: Wall::Closed }).spec_is_dead_end(),
{
}

} // verus!
