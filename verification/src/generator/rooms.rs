//! Generating the rooms of a level: drawing rectangles, dropping those that ended up unusable,
//! keeping the largest group of connected rooms and placing them on the map
use std::collections::{HashMap, HashSet};

use vstd::prelude::*;

use vstd::arithmetic::div_mod::{lemma_fundamental_div_mod, lemma_fundamental_div_mod_converse};

use rand::rngs::StdRng;

use crate::floor_map::FloorMap;
use crate::generator::{GameGenerator, RanOutOfAttempts};
use crate::room::{Room, RoomId, RoomType};
use crate::sprites::{FloorSprite, WallSprite, WallSpriteAlternate};
use crate::tile::Tile;
use crate::grid_size::GridSize;
use crate::random::gen_range;
use crate::graph::{
    count_true, is_walk, linked, list_edge, lists_to_map, lists_view, map_edge, reachable_from, reachable_in_map, set_flags, step,
    symmetric, lemma_linked_sym, lemma_linked_trans, lemma_linked_refl,
};
use crate::tile_pos::TilePos;
use crate::tile_rect::TileRect;

verus! {

/// A rectangle that rooms can have: at least one tile in each direction, coordinates and sizes
/// within the limits of rectangles, and an area that fits in `usize`
pub open spec fn valid_room_rect(r: TileRect) -> bool {
    &&& r.within_limits()
    &&& r.dim.rows >= 1
    &&& r.dim.cols >= 1
    &&& r.dim.rows * r.dim.cols <= usize::MAX
}

/// Every rectangle of the list is a valid room rectangle
pub open spec fn valid_room_rects(rects: Seq<TileRect>) -> bool {
    forall|k: int| 0 <= k < rects.len() ==> valid_room_rect(#[trigger] rects[k])
}

/// A tile of `room` that no other rectangle of the list (one that differs from `room`) covers
pub open spec fn uncovered(room: TileRect, rects: Seq<TileRect>, p: TilePos) -> bool {
    &&& room.contains(p)
    &&& !exists|k: int| 0 <= k < rects.len() && rects[k] != room && (#[trigger] rects[k]).contains(p)
}

/// A step between two adjacent uncovered tiles of `room`
pub open spec fn open_step(room: TileRect, rects: Seq<TileRect>) -> spec_fn(TilePos, TilePos) -> bool {
    |a: TilePos, b: TilePos| uncovered(room, rects, a) && uncovered(room, rects, b) && a.is_adjacent_to(b)
}

/// Some two uncovered tiles of `room` span at least `n` rows
pub open spec fn uncovered_spans_rows(room: TileRect, rects: Seq<TileRect>, n: int) -> bool {
    exists|p: TilePos, q: TilePos|
        #![trigger uncovered(room, rects, p), uncovered(room, rects, q)]
        uncovered(room, rects, p) && uncovered(room, rects, q) && q.row - p.row + 1 >= n
}

/// Some two uncovered tiles of `room` span at least `n` columns
pub open spec fn uncovered_spans_cols(room: TileRect, rects: Seq<TileRect>, n: int) -> bool {
    exists|p: TilePos, q: TilePos|
        #![trigger uncovered(room, rects, p), uncovered(room, rects, q)]
        uncovered(room, rects, p) && uncovered(room, rects, q) && q.col - p.col + 1 >= n
}

/// The `k`th tile of `room`, counting row by row
pub open spec fn cell(room: TileRect, k: int) -> TilePos {
    TilePos {
        row: (room.top_left.row + k / (room.dim.cols as int)) as usize,
        col: (room.top_left.col + k % (room.dim.cols as int)) as usize,
    }
}

/// The number under which `cell` lists the tile `p` of `room`
pub open spec fn cell_index(room: TileRect, p: TilePos) -> int {
    (p.row - room.top_left.row) * room.dim.cols + (p.col - room.top_left.col)
}

/// The number of tiles of a rectangle
pub open spec fn ncells(room: TileRect) -> int {
    room.dim.rows * room.dim.cols
}

/// A step between the numbers of two adjacent uncovered tiles of `room`
pub open spec fn cell_step(room: TileRect, rects: Seq<TileRect>) -> spec_fn(usize, usize) -> bool {
    |a: usize, b: usize| a < ncells(room) && b < ncells(room) && open_step(room, rects)(cell(room, a as int), cell(room, b as int))
}

/// Numbering the tiles of a rectangle and reading the numbers back go hand in hand
proof fn lemma_cell_round_trip(room: TileRect, i: int, j: int)
    requires
        0 <= i < room.dim.rows,
        0 <= j < room.dim.cols,
    ensures
        0 <= i * room.dim.cols + j < ncells(room),
        (i * room.dim.cols + j) / (room.dim.cols as int) == i,
        (i * room.dim.cols + j) % (room.dim.cols as int) == j,
{
    lemma_fundamental_div_mod_converse(i * room.dim.cols + j, room.dim.cols as int, i, j);
    assert(i * room.dim.cols + j < ncells(room)) by (nonlinear_arith)
        requires
            0 <= i < room.dim.rows,
            0 <= j < room.dim.cols,
    ;
}

/// Every number below the number of tiles names a tile of the rectangle
proof fn lemma_cell_in_room(room: TileRect, k: int)
    requires
        room.dim.cols >= 1,
        0 <= k < ncells(room),
        room.top_left.row + room.dim.rows <= usize::MAX,
        room.top_left.col + room.dim.cols <= usize::MAX,
    ensures
        0 <= k / (room.dim.cols as int) < room.dim.rows,
        0 <= k % (room.dim.cols as int) < room.dim.cols,
        k == (k / (room.dim.cols as int)) * room.dim.cols + k % (room.dim.cols as int),
        room.contains(cell(room, k)),
        cell_index(room, cell(room, k)) == k,
{
    let c = room.dim.cols as int;
    lemma_fundamental_div_mod(k, c);
    assert(k / c < room.dim.rows) by (nonlinear_arith)
        requires
            0 <= k < room.dim.rows * c,
            c >= 1,
            k == c * (k / c) + k % c,
            0 <= k % c < c,
    ;
    assert(0 <= k / c) by (nonlinear_arith)
        requires
            0 <= k,
            c >= 1,
    ;
    assert((k / c) * c == c * (k / c)) by (nonlinear_arith);
}

/// A tile of the rectangle is the tile its number names
proof fn lemma_index_in_room(room: TileRect, p: TilePos)
    requires
        room.contains(p),
    ensures
        0 <= cell_index(room, p) < ncells(room),
        cell(room, cell_index(room, p)) == p,
{
    lemma_cell_round_trip(room, p.row - room.top_left.row, p.col - room.top_left.col);
}

/// Walks between tile numbers and walks between tiles are the same walks
proof fn lemma_cell_walks(room: TileRect, rects: Seq<TileRect>, a: usize, b: usize)
    requires
        valid_room_rect(room),
        a < ncells(room),
        b < ncells(room),
    ensures
        linked(cell_step(room, rects), a, b) <==> linked(
            open_step(room, rects),
            cell(room, a as int),
            cell(room, b as int),
        ),
{
    let ce = cell_step(room, rects);
    let pe = open_step(room, rects);
    if linked(ce, a, b) {
        let p = choose|p: Seq<usize>| #[trigger] is_walk(ce, p) && p[0] == a && p.last() == b;
        let q = p.map_values(|k: usize| cell(room, k as int));
        assert forall|k: int| 0 <= k < q.len() - 1 implies #[trigger] step(pe, q, k) by {
            assert(step(ce, p, k));
        }
        assert(is_walk(pe, q));
    }
    if linked(pe, cell(room, a as int), cell(room, b as int)) {
        let q = choose|q: Seq<TilePos>| #[trigger] is_walk(pe, q) && q[0] == cell(room, a as int) && q.last()
            == cell(room, b as int);
        let p = q.map_values(|x: TilePos| cell_index(room, x) as usize);
        assert forall|k: int| 0 <= k < p.len() - 1 implies #[trigger] step(ce, p, k) by {
            assert(step(pe, q, k));
            lemma_index_in_room(room, q[k]);
            lemma_index_in_room(room, q[k + 1]);
        }
        assert(is_walk(ce, p)) by {
            assert forall|k: int| 0 <= k < p.len() - 1 implies #[trigger] step(ce, p, k) by {
                assert(step(pe, q, k));
                lemma_index_in_room(room, q[k]);
                lemma_index_in_room(room, q[k + 1]);
            }
        }
        lemma_cell_in_room(room, a as int);
        lemma_cell_in_room(room, b as int);
        assert(p[0] == a);
        assert(p.last() == b);
    }
}

/// Returns true if `pos` lies inside `rect`
fn rect_contains(rect: TileRect, pos: TilePos) -> (r: bool)
    requires
        rect.within_limits(),
    ensures
        r == rect.contains(pos),
{
    rect.top_left.row <= pos.row && pos.row < rect.top_left.row + rect.dim.rows && rect.top_left.col <= pos.col
        && pos.col < rect.top_left.col + rect.dim.cols
}

/// Returns true if no rectangle of the list other than `room` covers `pos`
fn is_uncovered(room: TileRect, rects: &Vec<TileRect>, pos: TilePos) -> (r: bool)
    requires
        room.contains(pos),
        valid_room_rects(rects@),
    ensures
        r == uncovered(room, rects@, pos),
{
    let mut k: usize = 0;
    while k < rects.len()
        invariant
            k <= rects@.len(),
            valid_room_rects(rects@),
            forall|m: int| 0 <= m < k ==> !(rects@[m] != room && (#[trigger] rects@[m]).contains(pos)),
        decreases rects@.len() - k,
    {
        let other = rects[k];
        assert(valid_room_rect(rects@[k as int]));
        if other != room && rect_contains(other, pos) {
            return false;
        }
        k += 1;
    }
    true
}

/// For each tile of `room`, row by row: whether no other rectangle of the list covers it
fn uncovered_cells(room: TileRect, rects: &Vec<TileRect>) -> (open: Vec<bool>)
    requires
        valid_room_rect(room),
        valid_room_rects(rects@),
    ensures
        open@.len() == ncells(room),
        forall|k: int| 0 <= k < ncells(room) ==> #[trigger] open@[k] == uncovered(room, rects@, cell(room, k)),
{
    let rows = room.dim.rows;
    let cols = room.dim.cols;
    let mut open: Vec<bool> = Vec::new();
    let mut i: usize = 0;
    while i < rows
        invariant
            valid_room_rect(room),
            valid_room_rects(rects@),
            rows == room.dim.rows,
            cols == room.dim.cols,
            i <= rows,
            open@.len() == i * cols,
            forall|k: int| 0 <= k < open@.len() ==> #[trigger] open@[k] == uncovered(room, rects@, cell(room, k)),
        decreases rows - i,
    {
        let mut j: usize = 0;
        while j < cols
            invariant
                valid_room_rect(room),
                valid_room_rects(rects@),
                rows == room.dim.rows,
                cols == room.dim.cols,
                i < rows,
                j <= cols,
                open@.len() == i * cols + j,
                forall|k: int| 0 <= k < open@.len() ==> #[trigger] open@[k] == uncovered(room, rects@, cell(room, k)),
            decreases cols - j,
        {
            let pos = TilePos { row: room.top_left.row + i, col: room.top_left.col + j };
            proof {
                lemma_cell_round_trip(room, i as int, j as int);
            }
            let free = is_uncovered(room, rects, pos);
            open.push(free);
            j += 1;
        }
        proof {
            assert((i + 1) * cols == i * cols + cols) by (nonlinear_arith);
        }
        i += 1;
    }
    open
}

/// The numbers of the tiles next to the `a`th tile of `room` are its number minus or plus one row
/// or one column, within the rectangle
proof fn lemma_neighbour_cells(room: TileRect, a: int, b: int)
    requires
        valid_room_rect(room),
        0 <= a < ncells(room),
        0 <= b < ncells(room),
    ensures
        cell(room, a).is_adjacent_to(cell(room, b)) <==> {
            let c = room.dim.cols as int;
            let i = a / c;
            let j = a % c;
            ||| (i > 0 && b == a - c)
            ||| (j + 1 < c && b == a + 1)
            ||| (i + 1 < room.dim.rows && b == a + c)
            ||| (j > 0 && b == a - 1)
        },
{
    let c = room.dim.cols as int;
    lemma_cell_in_room(room, a);
    lemma_cell_in_room(room, b);
    let i = a / c;
    let j = a % c;
    let i2 = b / c;
    let j2 = b % c;
    assert((i - 1) * c == i * c - c) by (nonlinear_arith);
    assert((i + 1) * c == i * c + c) by (nonlinear_arith);
    if cell(room, a).is_adjacent_to(cell(room, b)) {
        if j2 == j {
            if i2 == i - 1 {
                assert(b == a - c);
            } else {
                assert(i2 == i + 1);
                assert(b == a + c);
            }
        } else {
            assert(i2 == i);
        }
    }
    if i > 0 && b == a - c {
        lemma_cell_round_trip(room, i - 1, j);
    }
    if i + 1 < room.dim.rows && b == a + c {
        lemma_cell_round_trip(room, i + 1, j);
    }
    if j + 1 < c && b == a + 1 {
        lemma_cell_round_trip(room, i, j + 1);
    }
    if j > 0 && b == a - 1 {
        lemma_cell_round_trip(room, i, j - 1);
    }
}

/// What a sequence holds after a push
proof fn lemma_contains_push(s: Seq<usize>, x: usize)
    ensures
        forall|b: usize| #[trigger] s.push(x).contains(b) <==> (s.contains(b) || b == x),
{
    assert forall|b: usize| #[trigger] s.push(x).contains(b) <==> (s.contains(b) || b == x) by {
        if s.contains(b) {
            let k = choose|k: int| 0 <= k < s.len() && s[k] == b;
            assert(s.push(x)[k] == b);
        }
        if b == x {
            assert(s.push(x)[s.len() as int] == b);
        }
        if s.push(x).contains(b) {
            let k = choose|k: int| 0 <= k < s.len() + 1 && s.push(x)[k] == b;
            if k < s.len() {
                assert(s[k] == b);
            }
        }
    }
}

/// The empty sequence holds nothing
proof fn lemma_contains_empty(s: Seq<usize>)
    requires
        s.len() == 0,
    ensures
        forall|b: usize| !(#[trigger] s.contains(b)),
{
}

/// Adjacency lists of the tiles of `room`, numbered row by row: an open tile lists its open
/// neighbours (north, east, south, west), a closed tile lists nothing
fn open_adjacency(room: TileRect, open: &Vec<bool>) -> (adj: Vec<Vec<usize>>)
    requires
        valid_room_rect(room),
        open@.len() == ncells(room),
    ensures
        adj@.len() == ncells(room),
        forall|a: int, k: int| 0 <= a < adj@.len() && 0 <= k < adj@[a]@.len() ==> #[trigger] adj@[a]@[k]
            < adj@.len(),
        forall|a: usize, b: usize|
            #![trigger list_edge(lists_view(&adj))(a, b)]
            a < ncells(room) && b < ncells(room) ==> (list_edge(lists_view(&adj))(a, b) <==> (open@[a as int]
                && open@[b as int] && cell(room, a as int).is_adjacent_to(cell(room, b as int)))),
{
    let rows = room.dim.rows;
    let cols = room.dim.cols;
    let n = rows * cols;
    let mut adj: Vec<Vec<usize>> = Vec::new();
    let mut a: usize = 0;
    while a < n
        invariant
            valid_room_rect(room),
            open@.len() == ncells(room),
            rows == room.dim.rows,
            cols == room.dim.cols,
            n == ncells(room),
            a <= n,
            adj@.len() == a,
            forall|x: int, k: int| 0 <= x < adj@.len() && 0 <= k < adj@[x]@.len() ==> #[trigger] adj@[x]@[k] < n,
            forall|x: int, b: usize|
                #![trigger adj@[x]@.contains(b)]
                0 <= x < a && b < n ==> (adj@[x]@.contains(b) <==> (open@[x] && open@[b as int]
                    && cell(room, x).is_adjacent_to(cell(room, b as int)))),
        decreases n - a,
    {
        let i = a / cols;
        let j = a % cols;
        proof {
            lemma_cell_in_room(room, a as int);
            assert(i * cols <= a) by (nonlinear_arith)
                requires
                    a == i * cols + j,
                    j >= 0,
            ;
            assert(i >= 1 ==> a >= cols) by (nonlinear_arith)
                requires
                    a == i * cols + j,
                    j >= 0,
            ;
            assert(j + 1 < cols ==> a + 1 < n) by (nonlinear_arith)
                requires
                    a == i * cols + j,
                    i < rows,
                    n == rows * cols,
            ;
            assert(i + 1 < rows ==> a + cols < n) by (nonlinear_arith)
                requires
                    a == i * cols + j,
                    j < cols,
                    n == rows * cols,
                    i < rows,
            ;
        }
        let mut list: Vec<usize> = Vec::new();
        let ghost c = cols as int;
        let ghost north = open@[a as int] && i > 0 && open@[a - c];
        let ghost east = open@[a as int] && j + 1 < c && open@[a + 1];
        let ghost south = open@[a as int] && i + 1 < rows && open@[a + c];
        let ghost west = open@[a as int] && j > 0 && open@[a - 1];
        proof {
            lemma_contains_empty(list@);
        }
        if open[a] {
            if i > 0 && open[a - cols] {
                proof {
                    lemma_contains_push(list@, (a - cols) as usize);
                }
                list.push(a - cols);
            }
            if j + 1 < cols && open[a + 1] {
                proof {
                    lemma_contains_push(list@, (a + 1) as usize);
                }
                list.push(a + 1);
            }
            if i + 1 < rows && open[a + cols] {
                proof {
                    lemma_contains_push(list@, (a + cols) as usize);
                }
                list.push(a + cols);
            }
            if j > 0 && open[a - 1] {
                proof {
                    lemma_contains_push(list@, (a - 1) as usize);
                }
                list.push(a - 1);
            }
        }
        assert(forall|b: usize| #[trigger] list@.contains(b) <==> ((north && b == a - c) || (east && b == a + 1)
            || (south && b == a + c) || (west && b == a - 1)));
        proof {
            assert forall|b: usize| b < n implies (#[trigger] list@.contains(b) <==> (open@[a as int]
                && open@[b as int] && cell(room, a as int).is_adjacent_to(cell(room, b as int)))) by {
                lemma_neighbour_cells(room, a as int, b as int);
            }
        }
        adj.push(list);
        proof {
            assert forall|x: int, b: usize|
                #![trigger adj@[x]@.contains(b)]
                0 <= x < a + 1 && b < n implies (adj@[x]@.contains(b) <==> (open@[x] && open@[b as int]
                    && cell(room, x).is_adjacent_to(cell(room, b as int)))) by {
                if x == a {
                    assert(adj@[x]@ == list@);
                }
            }
        }
        a += 1;
    }
    proof {
        assert forall|x: usize, b: usize|
            #![trigger list_edge(lists_view(&adj))(x, b)]
            x < ncells(room) && b < ncells(room) implies (list_edge(lists_view(&adj))(x, b) <==> (open@[x as int]
                && open@[b as int] && cell(room, x as int).is_adjacent_to(cell(room, b as int)))) by {
            assert(lists_view(&adj)[x as int] == adj@[x as int]@);
            assert(adj@[x as int]@.contains(b) <==> (open@[x as int] && open@[b as int] && cell(room, x as int).is_adjacent_to(cell(room, b as int))));
        }
    }
    adj
}

impl GameGenerator {
    /// A room is invalid when other rooms cover all of its tiles, when its uncovered tiles fall
    /// apart into separate groups, or when its uncovered tiles span fewer rows or columns than a
    /// room must have
    pub open spec fn spec_is_invalid_rect(&self, room: TileRect, rects: Seq<TileRect>) -> bool {
        ||| !exists|p: TilePos| #[trigger] uncovered(room, rects, p)
        ||| exists|p: TilePos, q: TilePos|
            #![trigger uncovered(room, rects, p), uncovered(room, rects, q)]
            uncovered(room, rects, p) && uncovered(room, rects, q) && !linked(open_step(room, rects), p, q)
        ||| !uncovered_spans_rows(room, rects, self.room_rows.min as int)
        ||| !uncovered_spans_cols(room, rects, self.room_cols.min as int)
    }

    /// Returns true if the room has too few uncovered tiles left or has been split up by the other
    /// rooms of the list. Rooms equal to `room` do not count as covering it.
    pub fn is_invalid_rect(&self, room: &TileRect, room_rects: &Vec<TileRect>) -> (r: bool)
        requires
            valid_room_rect(*room),
            valid_room_rects(room_rects@),
        ensures
            r == self.spec_is_invalid_rect(*room, room_rects@),
    {
        let rm = *room;
        let ghost rects = room_rects@;
        let cols = rm.dim.cols;
        // true = tile is uncovered by another rm, numbered row by row
        let open = uncovered_cells(rm, room_rects);
        let n = open.len();

        let mut f: usize = 0;
        while f < n && !open[f]
            invariant
                f <= n,
                n == open@.len(),
                forall|k: int| 0 <= k < f ==> !open@[k],
            decreases n - f,
        {
            f += 1;
        }
        if f == n {
            // No uncovered tiles at all
            proof {
                assert forall|p: TilePos| !#[trigger] uncovered(rm, rects, p) by {
                    if uncovered(rm, rects, p) {
                        lemma_index_in_room(rm, p);
                        assert(open@[cell_index(rm, p)]);
                    }
                }
            }
            return true;
        }

        // Find the group of uncovered tiles that the first one belongs to
        let adj = open_adjacency(rm, &open);
        let seen = reachable_from(&adj, f);
        let ghost ce = cell_step(rm, rects);
        proof {
            assert forall|a: usize, b: usize| #[trigger] list_edge(lists_view(&adj))(a, b) == ce(a, b) by {
                if a < n && b < n {
                    assert(list_edge(lists_view(&adj))(a, b) <==> (open@[a as int] && open@[b as int] && cell(
                        rm,
                        a as int,
                    ).is_adjacent_to(cell(rm, b as int))));
                }
            }
            assert(list_edge(lists_view(&adj)) =~= ce);
            assert(symmetric(ce));
        }

        let mut min_row: usize = f / cols;
        let mut max_row: usize = f / cols;
        let mut min_col: usize = f % cols;
        let mut max_col: usize = f % cols;
        let ghost mut w_min_row: int = f as int;
        let ghost mut w_max_row: int = f as int;
        let ghost mut w_min_col: int = f as int;
        let ghost mut w_max_col: int = f as int;
        let mut k: usize = 0;
        while k < n
            invariant
                valid_room_rect(rm),
                rm == *room,
                rects == room_rects@,
                ce == cell_step(rm, rects),
                cols == rm.dim.cols,
                n == open@.len(),
                n == ncells(rm),
                seen@.len() == n,
                f < n,
                open@[f as int],
                forall|m: int| 0 <= m < n ==> #[trigger] open@[m] == uncovered(rm, rects, cell(rm, m)),
                forall|v: usize| v < n ==> (#[trigger] seen@[v as int] <==> linked(ce, f, v)),
                k <= n,
                forall|m: int| 0 <= m < k && open@[m] ==> #[trigger] seen@[m],
                0 <= w_min_row < n && open@[w_min_row] && w_min_row / (cols as int) == min_row,
                0 <= w_max_row < n && open@[w_max_row] && w_max_row / (cols as int) == max_row,
                0 <= w_min_col < n && open@[w_min_col] && w_min_col % (cols as int) == min_col,
                0 <= w_max_col < n && open@[w_max_col] && w_max_col % (cols as int) == max_col,
                forall|m: int| 0 <= m < k && #[trigger] open@[m] ==> min_row <= m / (cols as int) <= max_row
                    && min_col <= m % (cols as int) <= max_col,
            decreases n - k,
        {
            if open[k] {
                if !seen[k] {
                    // More than one group of uncovered tiles
                    proof {
                        lemma_cell_walks(rm, rects, f, k);
                        let p = cell(rm, f as int);
                        let q = cell(rm, k as int);
                        assert(uncovered(rm, rects, p) && uncovered(rm, rects, q) && !linked(
                            open_step(rm, rects),
                            p,
                            q,
                        ));
                        assert(exists|p: TilePos, q: TilePos|
                            #![trigger uncovered(rm, rects, p), uncovered(rm, rects, q)]
                            uncovered(rm, rects, p) && uncovered(rm, rects, q) && !linked(
                                open_step(rm, rects),
                                p,
                                q,
                            ));
                    }
                    return true;
                }
                let i = k / cols;
                let j = k % cols;
                if i < min_row {
                    min_row = i;
                    proof {
                        w_min_row = k as int;
                    }
                }
                if i > max_row {
                    max_row = i;
                    proof {
                        w_max_row = k as int;
                    }
                }
                if j < min_col {
                    min_col = j;
                    proof {
                        w_min_col = k as int;
                    }
                }
                if j > max_col {
                    max_col = j;
                    proof {
                        w_max_col = k as int;
                    }
                }
            }
            k += 1;
        }
        proof {
            // Every two uncovered tiles are connected
            assert forall|p: TilePos, q: TilePos|
                uncovered(rm, rects, p) && uncovered(rm, rects, q) implies linked(
                open_step(rm, rects),
                p,
                q,
            ) by {
                lemma_index_in_room(rm, p);
                lemma_index_in_room(rm, q);
                let ip = cell_index(rm, p) as usize;
                let iq = cell_index(rm, q) as usize;
                assert(open@[ip as int]);
                assert(open@[iq as int]);
                assert(seen@[ip as int]);
                assert(seen@[iq as int]);
                lemma_linked_sym(ce, f, ip);
                lemma_linked_trans(ce, ip, f, iq);
                lemma_cell_walks(rm, rects, ip, iq);
            }
            // The uncovered tiles lie within the rows and columns found
            assert forall|p: TilePos| #[trigger] uncovered(rm, rects, p) implies min_row <= p.row
                - rm.top_left.row <= max_row && min_col <= p.col - rm.top_left.col <= max_col by {
                lemma_index_in_room(rm, p);
                let ip = cell_index(rm, p);
                assert(open@[ip]);
                lemma_cell_in_room(rm, ip);
            }
            lemma_cell_in_room(rm, w_min_row);
            lemma_cell_in_room(rm, w_max_row);
            lemma_cell_in_room(rm, w_min_col);
            lemma_cell_in_room(rm, w_max_col);
            let pmr = cell(rm, w_min_row);
            let pxr = cell(rm, w_max_row);
            let pmc = cell(rm, w_min_col);
            let pxc = cell(rm, w_max_col);
            assert(uncovered(rm, rects, pmr) && uncovered(rm, rects, pxr));
            assert(uncovered(rm, rects, pmc) && uncovered(rm, rects, pxc));
            assert(uncovered_spans_rows(rm, rects, self.room_rows.min as int) <==> max_row - min_row + 1
                >= self.room_rows.min);
            assert(uncovered_spans_cols(rm, rects, self.room_cols.min as int) <==> max_col - min_col + 1
                >= self.room_cols.min);
            assert(uncovered(rm, rects, cell(rm, f as int)));
        }
        // There is only one group of uncovered tiles. If it spans too few rows or columns, the
        // rm is invalid.
        max_row - min_row + 1 < self.room_rows.min || max_col - min_col + 1 < self.room_cols.min
    }
}

/// Two tiles listed among the edge positions of `room` and `other` lie next to each other
pub open spec fn edges_touch(room: TileRect, other: TileRect) -> bool {
    exists|a: int, b: int|
        0 <= a < room.spec_edge_positions().len() && 0 <= b < other.spec_edge_positions().len()
            && (#[trigger] room.spec_edge_positions()[a]).is_adjacent_to(#[trigger] other.spec_edge_positions()[b])
}

/// The `i`th rectangle lies right beside a rectangle of the list that it does not overlap
pub open spec fn is_beside_other(rects: Seq<TileRect>, i: int) -> bool {
    beside_any(rects[i], rects)
}

/// `room` lies right beside a rectangle of the list that it does not overlap
pub open spec fn beside_any(room: TileRect, rects: Seq<TileRect>) -> bool {
    exists|k: int| 0 <= k < rects.len() && !room.overlaps(#[trigger] rects[k]) && edges_touch(room, rects[k])
}

/// The list after the pass that removes, from the `i`th rectangle on, each rectangle that lies
/// right beside another one it does not overlap (each check sees the rectangles still left)
pub open spec fn beside_removed(rects: Seq<TileRect>, i: int) -> Seq<TileRect>
    decreases rects.len() - i,
{
    if i < 0 || i >= rects.len() {
        rects
    } else if is_beside_other(rects, i) {
        beside_removed(rects.remove(i), i)
    } else {
        beside_removed(rects, i + 1)
    }
}

/// Two different rectangles of the list overlap
pub open spec fn overlap_step(rects: Seq<TileRect>) -> spec_fn(usize, usize) -> bool {
    |a: usize, b: usize| a < rects.len() && b < rects.len() && a != b && rects[a as int].overlaps(rects[b as int])
}

/// The number of rectangles of the list in the group of overlapping rectangles of the `c`th one
pub open spec fn group_size(rects: Seq<TileRect>, c: usize) -> nat {
    count_true(Seq::new(rects.len(), |j: int| linked(overlap_step(rects), c, j as usize)))
}

/// The `l`th rectangle has the lowest number of its group
pub open spec fn lowest_in_group(rects: Seq<TileRect>, l: usize) -> bool {
    forall|j: usize| j < l ==> !#[trigger] linked(overlap_step(rects), l, j)
}

/// The `j`th rectangle is linked to the lowest-numbered rectangle of its group, numbered `j` or
/// lower
pub open spec fn has_lowest_link(rects: Seq<TileRect>, j: usize) -> bool {
    exists|l: usize| l <= j && lowest_in_group(rects, l) && #[trigger] linked(overlap_step(rects), l, j)
}

/// The first `n` rectangles for which `keep` holds of their number, in their order
pub open spec fn select(rects: Seq<TileRect>, keep: spec_fn(int) -> bool, n: int) -> Seq<TileRect>
    decreases n,
{
    if n <= 0 {
        Seq::empty()
    } else if keep(n - 1) {
        select(rects, keep, n - 1).push(rects[n - 1])
    } else {
        select(rects, keep, n - 1)
    }
}

/// The rectangles of the group of the `c`th one, in their order
pub open spec fn group_of(rects: Seq<TileRect>, c: usize) -> Seq<TileRect> {
    select(rects, |j: int| linked(overlap_step(rects), c, j as usize), rects.len() as int)
}

/// Overlapping goes both ways
pub proof fn lemma_overlap_step_symmetric(rects: Seq<TileRect>)
    ensures
        symmetric(overlap_step(rects)),
{
}

impl GameGenerator {
    /// The list after the pass that removes, from the `i`th rectangle on, each invalid rectangle
    /// (each check sees the rectangles still left)
    pub open spec fn invalid_removed(&self, rects: Seq<TileRect>, i: int) -> Seq<TileRect>
        decreases rects.len() - i,
    {
        if i < 0 || i >= rects.len() {
            rects
        } else if self.spec_is_invalid_rect(rects[i], rects) {
            self.invalid_removed(rects.remove(i), i)
        } else {
            self.invalid_removed(rects, i + 1)
        }
    }

    /// Removes rooms that have too few leftover uncovered tiles or that have been split up by
    /// other rooms. This can happen because other rooms overlapped with the majority of tiles in
    /// this room.
    pub fn remove_invalid_rooms(&self, room_rects: &mut Vec<TileRect>)
        requires
            valid_room_rects(old(room_rects)@),
        ensures
            final(room_rects)@ == self.invalid_removed(old(room_rects)@, 0),
    {
        let mut i: usize = 0;
        while i < room_rects.len()
            invariant
                valid_room_rects(room_rects@),
                self.invalid_removed(room_rects@, i as int) == self.invalid_removed(old(room_rects)@, 0),
            decreases room_rects@.len() - i,
        {
            let room = room_rects[i];
            assert(valid_room_rect(room_rects@[i as int]));
            if self.is_invalid_rect(&room, room_rects) {
                // Room has become too small or has been split up, get rid of it
                room_rects.remove(i);
            } else {
                // Keep the room and move on
                i += 1;
            }
        }
    }

    /// Returns true if a tile listed among the edge positions of `room` lies next to one listed
    /// among those of `other`
    fn edges_touch(&self, room: TileRect, other: TileRect) -> (r: bool)
        requires
            valid_room_rect(room),
            valid_room_rect(other),
        ensures
            r == edges_touch(room, other),
    {
        let edges = room.edge_positions();
        let other_edges = other.edge_positions();
        let mut a: usize = 0;
        while a < edges.len()
            invariant
                edges@ == room.spec_edge_positions(),
                other_edges@ == other.spec_edge_positions(),
                valid_room_rect(room),
                valid_room_rect(other),
                a <= edges@.len(),
                forall|x: int, y: int|
                    0 <= x < a && 0 <= y < other_edges@.len() ==> !(#[trigger] edges@[x]).is_adjacent_to(
                        #[trigger] other_edges@[y],
                    ),
            decreases edges@.len() - a,
        {
            let mut b: usize = 0;
            while b < other_edges.len()
                invariant
                    edges@ == room.spec_edge_positions(),
                    other_edges@ == other.spec_edge_positions(),
                    valid_room_rect(room),
                    valid_room_rect(other),
                    a < edges@.len(),
                    b <= other_edges@.len(),
                    forall|y: int| 0 <= y < b ==> !edges@[a as int].is_adjacent_to(#[trigger] other_edges@[y]),
                decreases other_edges@.len() - b,
            {
                proof {
                    crate::tile_rect::lemma_edge_positions_on_edge(room, a as int);
                    crate::tile_rect::lemma_edge_positions_on_edge(other, b as int);
                }
                if edges[a].is_orthogonal_difference(other_edges[b], 1) {
                    return true;
                }
                b += 1;
            }
            a += 1;
        }
        false
    }

    /// Returns true if the `i`th room lies right beside another room that it does not overlap
    fn is_beside_other(&self, room_rects: &Vec<TileRect>, i: usize) -> (r: bool)
        requires
            valid_room_rects(room_rects@),
            i < room_rects@.len(),
        ensures
            r == is_beside_other(room_rects@, i as int),
    {
        let room = room_rects[i];
        assert(valid_room_rect(room_rects@[i as int]));
        let mut k: usize = 0;
        while k < room_rects.len()
            invariant
                valid_room_rects(room_rects@),
                room == room_rects@[i as int],
                valid_room_rect(room),
                k <= room_rects@.len(),
                forall|m: int| 0 <= m < k ==> !(!room.overlaps(#[trigger] room_rects@[m]) && edges_touch(room, room_rects@[m])),
            decreases room_rects@.len() - k,
        {
            let other = room_rects[k];
            assert(valid_room_rect(room_rects@[k as int]));
            // Rooms that overlap are meant to be joined by a doorway
            if !room.has_intersection(other) && self.edges_touch(room, other) {
                return true;
            }
            k += 1;
        }
        false
    }

    /// Removes rooms that are directly adjacent to each other. This avoids some edge cases that
    /// can result in unreachable rooms.
    pub fn remove_adjacent_rooms(&self, room_rects: &mut Vec<TileRect>)
        requires
            valid_room_rects(old(room_rects)@),
        ensures
            final(room_rects)@ == beside_removed(old(room_rects)@, 0),
    {
        let mut room_i: usize = 0;
        while room_i < room_rects.len()
            invariant
                valid_room_rects(room_rects@),
                beside_removed(room_rects@, room_i as int) == beside_removed(old(room_rects)@, 0),
            decreases room_rects@.len() - room_i,
        {
            if self.is_beside_other(room_rects, room_i) {
                room_rects.remove(room_i);
            } else {
                room_i += 1;
            }
        }
    }

    /// The rooms that a walk through overlapping rooms reaches from the room `start`, `start`
    /// included. The graph maps a room to the rooms it overlaps; a room that is not a key of the
    /// graph has no neighbours.
    pub fn rect_graph_breadth_first_search(&self, graph: &HashMap<usize, Vec<usize>>, start: usize) -> (seen: HashSet<usize>)
        ensures
            forall|v: usize| #[trigger] seen@.contains(v) <==> linked(map_edge(graph@), start, v),
    {
        reachable_in_map(graph, start)
    }

    /// Adjacency lists of the rooms: each room lists the other rooms it overlaps, in order
    fn overlap_graph(&self, rects: &Vec<TileRect>) -> (adj: Vec<Vec<usize>>)
        requires
            valid_room_rects(rects@),
        ensures
            adj@.len() == rects@.len(),
            forall|a: int, k: int| 0 <= a < adj@.len() && 0 <= k < adj@[a]@.len() ==> #[trigger] adj@[a]@[k]
                < adj@.len(),
            list_edge(lists_view(&adj)) == overlap_step(rects@),
    {
        let n = rects.len();
        let mut adj: Vec<Vec<usize>> = Vec::new();
        let mut i: usize = 0;
        while i < n
            invariant
                n == rects@.len(),
                valid_room_rects(rects@),
                i <= n,
                adj@.len() == i,
                forall|x: int, k: int| 0 <= x < adj@.len() && 0 <= k < adj@[x]@.len() ==> #[trigger] adj@[x]@[k] < n,
                forall|x: int, b: usize|
                    #![trigger adj@[x]@.contains(b)]
                    0 <= x < i && b < n ==> (adj@[x]@.contains(b) <==> (x != b && rects@[x].overlaps(rects@[b as int]))),
            decreases n - i,
        {
            let r1 = rects[i];
            assert(valid_room_rect(rects@[i as int]));
            let mut list: Vec<usize> = Vec::new();
            let mut j: usize = 0;
            proof {
                lemma_contains_empty(list@);
            }
            while j < n
                invariant
                    n == rects@.len(),
                    valid_room_rects(rects@),
                    i < n,
                    r1 == rects@[i as int],
                    valid_room_rect(r1),
                    j <= n,
                    forall|k: int| 0 <= k < list@.len() ==> #[trigger] list@[k] < n,
                    forall|b: usize| #[trigger] list@.contains(b) <==> (b < j && i != b && r1.overlaps(rects@[b as int])),
                decreases n - j,
            {
                let r2 = rects[j];
                assert(valid_room_rect(rects@[j as int]));
                if i != j && r1.has_intersection(r2) {
                    proof {
                        lemma_contains_push(list@, j);
                    }
                    list.push(j);
                }
                j += 1;
            }
            adj.push(list);
            proof {
                assert forall|x: int, b: usize|
                    #![trigger adj@[x]@.contains(b)]
                    0 <= x < i + 1 && b < n implies (adj@[x]@.contains(b) <==> (x != b && rects@[x].overlaps(
                        rects@[b as int],
                    ))) by {
                    if x == i {
                        assert(adj@[x]@ == list@);
                    }
                }
            }
            i += 1;
        }
        proof {
            assert forall|a: usize, b: usize| #[trigger] list_edge(lists_view(&adj))(a, b) == overlap_step(rects@)(a, b) by {
                if a < n && b < n {
                    assert(lists_view(&adj)[a as int] == adj@[a as int]@);
                    assert(adj@[a as int]@.contains(b) <==> (a != b && rects@[a as int].overlaps(rects@[b as int])));
                }
            }
            assert(list_edge(lists_view(&adj)) =~= overlap_step(rects@));
        }
        adj
    }

    /// Removes rooms that are not connected to the other rooms.
    ///
    /// Rooms that overlap form an undirected graph. Only the rooms of its largest connected group
    /// are kept; among groups of the same size, the one whose lowest-numbered room comes last.
    pub fn remove_disconnected(&self, room_rects: &mut Vec<TileRect>)
        requires
            valid_room_rects(old(room_rects)@),
            old(room_rects)@.len() >= 1,
        ensures
            exists|c: usize|
                #![trigger group_of(old(room_rects)@, c)]
                c < old(room_rects)@.len() && lowest_in_group(old(room_rects)@, c) && final(room_rects)@ == group_of(
                    old(room_rects)@,
                    c,
                ) && (forall|i: usize| i < old(room_rects)@.len() ==> #[trigger] group_size(old(room_rects)@, i)
                    <= group_size(old(room_rects)@, c)) && (forall|l: usize|
                    l < old(room_rects)@.len() && lowest_in_group(old(room_rects)@, l) && #[trigger] group_size(
                        old(room_rects)@,
                        l,
                    ) == group_size(old(room_rects)@, c) ==> l <= c),
    {
        let ghost rects = room_rects@;
        let ghost e = overlap_step(rects);
        let n = room_rects.len();
        let graph = self.overlap_graph(room_rects);
        let graph_map = lists_to_map(&graph);
        proof {
            lemma_overlap_step_symmetric(rects);
        }

        // Which rooms belong to a group found so far
        let mut assigned: Vec<bool> = Vec::new();
        while assigned.len() < n
            invariant
                assigned@.len() <= n,
                forall|j: int| 0 <= j < assigned@.len() ==> !assigned@[j],
            decreases n - assigned@.len(),
        {
            assigned.push(false);
        }

        let mut best: usize = 0;
        let mut best_size: usize = 0;
        let mut best_members: Vec<bool> = Vec::new();
        let mut i: usize = 0;
        while i < n
            invariant
                n == rects.len(),
                rects == room_rects@,
                e == overlap_step(rects),
                symmetric(e),
                graph@.len() == n,
                forall|a: int, k: int| 0 <= a < graph@.len() && 0 <= k < graph@[a]@.len() ==> #[trigger] graph@[a]@[k]
                    < graph@.len(),
                list_edge(lists_view(&graph)) == e,
                map_edge(graph_map@) == e,
                i <= n,
                assigned@.len() == n,
                forall|j: usize| j < n ==> (#[trigger] assigned@[j as int] <==> exists|x: usize|
                    x < i && #[trigger] linked(e, x, j)),
                i > 0 ==> best < i && lowest_in_group(rects, best) && best_size == group_size(rects, best)
                    && best_members@.len() == n && (forall|v: usize| v < n ==> (#[trigger] best_members@[v as int]
                    <==> linked(e, best, v))),
                forall|l: usize| l < i && lowest_in_group(rects, l) ==> #[trigger] group_size(rects, l) <= best_size
                    && (group_size(rects, l) == best_size ==> l <= best),
                forall|j: usize| j < i ==> #[trigger] has_lowest_link(rects, j),
            decreases n - i,
        {
            if !assigned[i] {
                proof {
                    assert forall|j: usize| j < i implies !#[trigger] linked(e, i, j) by {
                        if linked(e, i, j) {
                            lemma_linked_sym(e, i, j);
                            assert(assigned@[i as int]);
                        }
                    }
                    assert(lowest_in_group(rects, i));
                }
                let reached = self.rect_graph_breadth_first_search(&graph_map, i);
                let members = set_flags(&reached, n);
                let ghost old_assigned = assigned@;
                let mut size: usize = 0;
                let mut j: usize = 0;
                while j < n
                    invariant
                        n == rects.len(),
                        e == overlap_step(rects),
                        members@.len() == n,
                        forall|v: usize| v < n ==> (#[trigger] members@[v as int] <==> linked(e, i, v)),
                        assigned@.len() == n,
                        j <= n,
                        size == count_true(members@.take(j as int)),
                        size <= j,
                        forall|v: int| 0 <= v < n ==> #[trigger] assigned@[v] == (old_assigned[v] || (v < j && members@[v])),
                    decreases n - j,
                {
                    assert(members@.take(j + 1).drop_last() =~= members@.take(j as int));
                    if members[j] {
                        size += 1;
                        assigned.set(j, true);
                    }
                    j += 1;
                }
                proof {
                    assert(members@.take(n as int) =~= members@);
                    assert(members@ =~= Seq::new(rects.len(), |v: int| linked(overlap_step(rects), i, v as usize)));
                    assert(size == group_size(rects, i));
                    assert forall|v: usize| v < n implies (#[trigger] assigned@[v as int] <==> exists|x: usize|
                        x < i + 1 && #[trigger] linked(e, x, v)) by {
                        if assigned@[v as int] && !old_assigned[v as int] {
                            assert(members@[v as int]);
                        }
                        if exists|x: usize| x < i + 1 && #[trigger] linked(e, x, v) {
                            let x = choose|x: usize| x < i + 1 && #[trigger] linked(e, x, v);
                            if x == i {
                                assert(members@[v as int]);
                            }
                        }
                    }
                    lemma_linked_refl(e, i);
                    assert(has_lowest_link(rects, i));
                }
                if i == 0 || size >= best_size {
                    best = i;
                    best_size = size;
                    best_members = members;
                }
            } else {
                proof {
                    let x = choose|x: usize| x < i && #[trigger] linked(e, x, i);
                    assert(has_lowest_link(rects, x));
                    let l = choose|l: usize| l <= x && lowest_in_group(rects, l) && #[trigger] linked(e, l, x);
                    lemma_linked_trans(e, l, x, i);
                    assert(has_lowest_link(rects, i));
                    lemma_linked_sym(e, x, i);
                    assert(linked(e, i, x));
                    assert(!lowest_in_group(rects, i));
                    assert forall|v: usize| v < n implies (#[trigger] assigned@[v as int] <==> exists|y: usize|
                        y < i + 1 && #[trigger] linked(e, y, v)) by {
                        if linked(e, i, v) {
                            lemma_linked_trans(e, x, i, v);
                        }
                    }
                }
            }
            i += 1;
        }

        proof {
            assert forall|v: usize| v < n implies #[trigger] group_size(rects, v) <= group_size(rects, best) by {
                assert(has_lowest_link(rects, v));
                let l = choose|l: usize| l <= v && lowest_in_group(rects, l) && #[trigger] linked(e, l, v);
                assert forall|x: usize| linked(e, v, x) <==> linked(e, l, x) by {
                    if linked(e, v, x) {
                        lemma_linked_trans(e, l, v, x);
                    }
                    if linked(e, l, x) {
                        lemma_linked_sym(e, l, v);
                        lemma_linked_trans(e, v, l, x);
                    }
                }
                assert(Seq::new(rects.len(), |j: int| linked(overlap_step(rects), v, j as usize)) =~= Seq::new(
                    rects.len(),
                    |j: int| linked(overlap_step(rects), l, j as usize),
                ));
                assert(group_size(rects, v) == group_size(rects, l));
                assert(group_size(rects, l) <= best_size);
            }
        }

        // Keep the rooms of the largest group, in their order
        let mut kept: Vec<TileRect> = Vec::new();
        let mut j: usize = 0;
        while j < n
            invariant
                n == rects.len(),
                rects == room_rects@,
                e == overlap_step(rects),
                best_members@.len() == n,
                forall|v: usize| v < n ==> (#[trigger] best_members@[v as int] <==> linked(e, best, v)),
                j <= n,
                kept@ == select(rects, |x: int| linked(overlap_step(rects), best, x as usize), j as int),
            decreases n - j,
        {
            if best_members[j] {
                kept.push(room_rects[j]);
            }
            j += 1;
        }
        *room_rects = kept;
        assert(room_rects@ == group_of(rects, best));
    }
}

/// The number of tiles of a rectangle
pub open spec fn area(r: TileRect) -> int {
    r.dim.rows * r.dim.cols
}

/// The tiles shared by two overlapping rectangles are no more than the tiles of either
proof fn lemma_intersection_smaller(a: TileRect, b: TileRect)
    requires
        valid_room_rect(a),
        valid_room_rect(b),
        a.overlaps(b),
    ensures
        1 <= a.spec_intersection(b).unwrap().dim.rows <= a.dim.rows,
        1 <= a.spec_intersection(b).unwrap().dim.cols <= a.dim.cols,
        a.spec_intersection(b).unwrap().dim.rows <= b.dim.rows,
        a.spec_intersection(b).unwrap().dim.cols <= b.dim.cols,
        area(a.spec_intersection(b).unwrap()) <= area(a),
        area(a.spec_intersection(b).unwrap()) <= area(b),
        valid_room_rect(a.spec_intersection(b).unwrap()),
{
    let c = a.spec_intersection(b).unwrap();
    assert(area(c) <= area(a)) by (nonlinear_arith)
        requires
            1 <= c.dim.rows <= a.dim.rows,
            1 <= c.dim.cols <= a.dim.cols,
    ;
    assert(area(c) <= area(b)) by (nonlinear_arith)
        requires
            1 <= c.dim.rows <= b.dim.rows,
            1 <= c.dim.cols <= b.dim.cols,
    ;
}

impl GameGenerator {
    /// `rect` may stand beside `other`: if they overlap, they share more than four tiles and
    /// neither covers more than the allowed share of the other; and they share no first or last
    /// row or column
    pub open spec fn fits_beside(&self, rect: TileRect, other: TileRect) -> bool {
        &&& match rect.spec_intersection(other) {
            Some(common) => {
                &&& area(common) > 4
                &&& !self.max_overlap.spec_is_exceeded_by(area(common), area(other))
                &&& !self.max_overlap.spec_is_exceeded_by(area(common), area(rect))
            },
            None => true,
        }
        &&& rect.top_left.row != other.top_left.row
        &&& rect.top_left.col != other.top_left.col
        &&& rect.last_row() != other.last_row()
        &&& rect.last_col() != other.last_col()
    }

    /// `rect` lies within the map and may stand beside every rectangle of the list
    pub open spec fn spec_room_fits(&self, rect: TileRect, rects: Seq<TileRect>) -> bool {
        &&& rect.last_row() < self.rows
        &&& rect.last_col() < self.cols
        &&& forall|k: int| 0 <= k < rects.len() ==> self.fits_beside(rect, #[trigger] rects[k])
    }

    /// Returns the room if it can be placed on the map beside the given rooms: it must lie within
    /// the map, must not overlap another room only at a corner (four tiles or fewer), must not
    /// take over more than `max_overlap` of another room or have more than that taken over, and
    /// must not share an edge line with another room
    pub fn check_room(&self, rect: TileRect, room_rects: &Vec<TileRect>) -> (r: Option<TileRect>)
        requires
            self.wf(),
            rect.within_limits(),
            rect.dim.rows >= 1,
            rect.dim.cols >= 1,
            valid_room_rects(room_rects@),
        ensures
            r == (if self.spec_room_fits(rect, room_rects@) { Some(rect) } else { None }),
    {
        // Room cannot be out of bounds
        let bottom_right = rect.bottom_right();
        if bottom_right.row >= self.rows || bottom_right.col >= self.cols {
            return None;
        }
        proof {
            assert(rect.dim.rows * rect.dim.cols <= self.rows * self.cols) by (nonlinear_arith)
                requires
                    rect.dim.rows <= self.rows,
                    rect.dim.cols <= self.cols,
            ;
            assert(valid_room_rect(rect));
        }
        let mut k: usize = 0;
        while k < room_rects.len()
            invariant
                self.wf(),
                valid_room_rect(rect),
                valid_room_rects(room_rects@),
                rect.last_row() < self.rows,
                rect.last_col() < self.cols,
                k <= room_rects@.len(),
                forall|m: int| 0 <= m < k ==> self.fits_beside(rect, #[trigger] room_rects@[m]),
            decreases room_rects@.len() - k,
        {
            let rect2 = room_rects[k];
            assert(valid_room_rect(room_rects@[k as int]));
            match rect.intersection(rect2) {
                Some(common) => {
                    proof {
                        lemma_intersection_smaller(rect, rect2);
                    }
                    // Room cannot only overlap at a corner: any intersection of an area within 4
                    // falls into that case
                    if common.area() <= 4 {
                        return None;
                    }
                    // Room cannot take over max_overlap of the area of another room
                    if self.max_overlap.is_exceeded_by(common.area(), rect2.area()) {
                        return None;
                    }
                    // Other room cannot take over max_overlap of the room
                    if self.max_overlap.is_exceeded_by(common.area(), rect.area()) {
                        return None;
                    }
                },
                None => {},
            }
            // Cannot share an edge with another room
            let tl = rect.top_left();
            let tl2 = rect2.top_left();
            let br = rect.bottom_right();
            let br2 = rect2.bottom_right();
            if tl.row == tl2.row || tl.col == tl2.col || br.row == br2.row || br.col == br2.col {
                return None;
            }
            k += 1;
        }
        Some(rect)
    }

    /// A room that can be drawn: its top left tile lies in the map and its size within the
    /// bounds
    pub open spec fn room_candidate(&self, rect: TileRect) -> bool {
        &&& rect.top_left.row < self.rows
        &&& rect.top_left.col < self.cols
        &&& self.room_rows.holds(rect.dim.rows as int)
        &&& self.room_cols.holds(rect.dim.cols as int)
    }

    /// Generates a random room and returns it if it can be placed on the map beside the given
    /// rooms. Its size lies within the configured bounds.
    pub fn random_room(&self, rng: &mut StdRng, room_rects: &Vec<TileRect>) -> (r: Option<TileRect>)
        requires
            self.wf(),
            valid_room_rects(room_rects@),
        ensures
            r matches Some(rect) ==> {
                &&& self.spec_room_fits(rect, room_rects@)
                &&& valid_room_rect(rect)
                &&& self.room_candidate(rect)
            },
            // no room comes back only when the room drawn does not fit
            r is None ==> exists|rect: TileRect| #[trigger] self.room_candidate(rect) && !self.spec_room_fits(rect, room_rects@),
    {
        let rect = TileRect::new(
            TilePos { row: gen_range(rng, 0, self.rows), col: gen_range(rng, 0, self.cols) },
            GridSize { rows: self.room_rows.gen(rng), cols: self.room_cols.gen(rng) },
        );
        let r = self.check_room(rect, room_rects);
        proof {
            assert(self.room_candidate(rect));
            if r is Some {
                assert(rect.dim.rows * rect.dim.cols <= self.rows * self.cols) by (nonlinear_arith)
                    requires
                        rect.dim.rows <= self.rows,
                        rect.dim.cols <= self.cols,
                ;
            }
        }
        r
    }
}

/// A wall tile with the plain wall sprite and no decoration
pub open spec fn plain_wall() -> Tile {
    Tile::Wall {
        decoration: None,
        sprite: WallSprite {
            wall_north: false,
            wall_east: false,
            wall_south: false,
            wall_west: false,
            alt: WallSpriteAlternate::Alt0,
        },
    }
}

/// A floor tile of the given room with the first floor sprite and no object
pub open spec fn plain_floor(id: RoomId) -> Tile {
    Tile::Floor { room_id: id, object: None, sprite: FloorSprite::Floor1 }
}

/// The tile at `p` once the rectangle of room `id` has been placed over `t`: walls on its edges,
/// floor inside, the old tile outside
pub open spec fn painted(rect: TileRect, id: RoomId, t: Tile, p: TilePos) -> Tile {
    if rect.on_edge(p) {
        plain_wall()
    } else if rect.contains(p) {
        plain_floor(id)
    } else {
        t
    }
}

/// The tile at `p` once the rooms of `order` have been placed over `t` one after the other: the
/// last room whose rectangle contains `p` decides it
pub open spec fn top_tile(t: Tile, order: Seq<(RoomId, TileRect)>, p: TilePos) -> Tile
    decreases order.len(),
{
    if order.len() == 0 {
        t
    } else if order.last().1.contains(p) {
        painted(order.last().1, order.last().0, t, p)
    } else {
        top_tile(t, order.drop_last(), p)
    }
}

/// For each room, whether it is another room than the `i`th one and overlaps it
pub open spec fn overlap_flags(rooms: Seq<Room>, i: int) -> Seq<bool> {
    Seq::new(rooms.len(), |j: int| j != i && rooms[i].boundary.overlaps(rooms[j].boundary))
}

/// The number of other rooms that the `i`th room overlaps
pub open spec fn overlap_count(rooms: Seq<Room>, i: int) -> nat {
    count_true(overlap_flags(rooms, i))
}

/// The `t`th room has the largest area among the rooms for which `pred` holds; among rooms of the
/// same area it comes last
pub open spec fn largest_room(rooms: Seq<Room>, pred: spec_fn(int) -> bool, t: int) -> bool {
    &&& 0 <= t < rooms.len()
    &&& pred(t)
    &&& forall|i: int|
        0 <= i < rooms.len() && #[trigger] pred(i) ==> area(rooms[i].boundary) <= area(rooms[t].boundary) && (
        area(rooms[i].boundary) == area(rooms[t].boundary) ==> i <= t)
}

/// The room chosen as the treasure chamber: the largest room that overlaps exactly one other room,
/// or the largest room if there is none such
pub open spec fn is_treasure_choice(rooms: Seq<Room>, t: int) -> bool {
    if exists|i: int| 0 <= i < rooms.len() && #[trigger] overlap_count(rooms, i) == 1 {
        largest_room(rooms, |i: int| overlap_count(rooms, i) == 1, t)
    } else {
        largest_room(rooms, |i: int| true, t)
    }
}

/// The rooms of the map have valid rectangles that lie within its grid
pub open spec fn rooms_inside(map: FloorMap) -> bool {
    forall|k: int|
        0 <= k < map.spec_rooms().len() ==> {
            &&& valid_room_rect(#[trigger] map.spec_rooms()[k].boundary)
            &&& map.spec_rooms()[k].boundary.last_row() < map.spec_grid().nrows()
            &&& map.spec_rooms()[k].boundary.last_col() < map.spec_grid().ncols()
        }
}

/// The boundaries of the rooms, each with its ID, in ID order
pub open spec fn rooms_order(rooms: Seq<Room>) -> Seq<(RoomId, TileRect)> {
    Seq::new(rooms.len(), |k: int| (RoomId(k as usize), rooms[k].boundary))
}

/// The rooms with the `k`th given another type
pub open spec fn retyped(rooms: Seq<Room>, k: int, t: RoomType) -> Seq<Room> {
    rooms.update(k, Room { rtype: t, boundary: rooms[k].boundary })
}

impl GameGenerator {
    /// The rooms once the `s`th has become the player's start room, on the first level
    pub open spec fn start_rooms(&self, rooms: Seq<Room>, level: usize, s: int) -> Seq<Room> {
        if level == 1 {
            retyped(rooms, s, RoomType::PlayerStart)
        } else {
            rooms
        }
    }

    /// The rooms once the `s`th has become the player's start room (on the first level) and the
    /// `t`th the treasure chamber (on the last level)
    pub open spec fn special_rooms(&self, rooms: Seq<Room>, level: usize, s: int, t: int) -> Seq<Room> {
        if level == self.levels {
            retyped(self.start_rooms(rooms, level, s), t, RoomType::TreasureChamber)
        } else {
            self.start_rooms(rooms, level, s)
        }
    }

    /// The special rooms in the order in which their tiles are placed on top again
    pub open spec fn special_order(&self, rooms: Seq<Room>, level: usize, s: int, t: int) -> Seq<(RoomId, TileRect)> {
        (if level == 1 { seq![(RoomId(s as usize), rooms[s].boundary)] } else { seq![] }) + (if level == self.levels {
            seq![(RoomId(t as usize), rooms[t].boundary)]
        } else {
            seq![]
        })
    }

    /// Places the rectangle of a room on the map: floor tiles inside it and wall tiles on its
    /// edges
    pub fn place_rect(&self, map: &mut FloorMap, room_id: RoomId)
        requires
            old(map).spec_grid().wf(),
            room_id.0 < old(map).spec_rooms().len(),
            rooms_inside(*old(map)),
        ensures
            final(map).spec_rooms() == old(map).spec_rooms(),
            final(map).spec_tile_size() == old(map).spec_tile_size(),
            final(map).spec_grid().wf(),
            final(map).spec_grid().nrows() == old(map).spec_grid().nrows(),
            final(map).spec_grid().ncols() == old(map).spec_grid().ncols(),
            forall|p: TilePos| #[trigger] final(map).spec_grid().in_bounds(p) ==> final(map).spec_grid().tile(p)
                == painted(old(map).spec_rooms()[room_id.0 as int].boundary, room_id, old(map).spec_grid().tile(p), p),
    {
        let rect = *map.room(room_id).boundary();
        let ghost before = map.spec_grid();
        assert(valid_room_rect(map.spec_rooms()[room_id.0 as int].boundary));
        let rows = rect.dim.rows;
        let cols = rect.dim.cols;
        let mut i: usize = 0;
        while i < rows
            invariant
                map.spec_rooms() == old(map).spec_rooms(),
                map.spec_tile_size() == old(map).spec_tile_size(),
                map.spec_grid().wf(),
                map.spec_grid().nrows() == before.nrows(),
                map.spec_grid().ncols() == before.ncols(),
                before == old(map).spec_grid(),
                rect == old(map).spec_rooms()[room_id.0 as int].boundary,
                valid_room_rect(rect),
                rect.last_row() < before.nrows(),
                rect.last_col() < before.ncols(),
                rows == rect.dim.rows,
                cols == rect.dim.cols,
                i <= rows,
                forall|p: TilePos| #[trigger] map.spec_grid().in_bounds(p) ==> map.spec_grid().tile(p) == if rect.contains(p)
                    && p.row - rect.top_left.row < i { painted(rect, room_id, before.tile(p), p) } else { before.tile(p) },
            decreases rows - i,
        {
            let mut j: usize = 0;
            while j < cols
                invariant
                    map.spec_rooms() == old(map).spec_rooms(),
                    map.spec_tile_size() == old(map).spec_tile_size(),
                    map.spec_grid().wf(),
                    map.spec_grid().nrows() == before.nrows(),
                    map.spec_grid().ncols() == before.ncols(),
                    rect == old(map).spec_rooms()[room_id.0 as int].boundary,
                    valid_room_rect(rect),
                    rect.last_row() < before.nrows(),
                    rect.last_col() < before.ncols(),
                    rows == rect.dim.rows,
                    cols == rect.dim.cols,
                    i < rows,
                    j <= cols,
                    forall|p: TilePos| #[trigger] map.spec_grid().in_bounds(p) ==> map.spec_grid().tile(p) == if rect.contains(p)
                        && (p.row - rect.top_left.row < i || (p.row - rect.top_left.row == i && p.col - rect.top_left.col < j)) {
                        painted(rect, room_id, before.tile(p), p)
                    } else {
                        before.tile(p)
                    },
                decreases cols - j,
            {
                let pos = TilePos { row: rect.top_left.row + i, col: rect.top_left.col + j };
                let tile = if i == 0 || i == rows - 1 || j == 0 || j == cols - 1 {
                    Tile::new_wall(WallSprite::default())
                } else {
                    Tile::new_floor(room_id, FloorSprite::default())
                };
                let ghost g0 = map.spec_grid();
                map.grid_mut().set(pos, tile);
                proof {
                    assert forall|p: TilePos| #[trigger] map.spec_grid().in_bounds(p) implies map.spec_grid().tile(p)
                        == if rect.contains(p) && (p.row - rect.top_left.row < i || (p.row - rect.top_left.row == i
                        && p.col - rect.top_left.col < j + 1)) {
                        painted(rect, room_id, before.tile(p), p)
                    } else {
                        before.tile(p)
                    } by {
                        if p.row == pos.row && p.col == pos.col {
                            assert(p == pos);
                        } else {
                            assert(map.spec_grid().tile(p) == g0.tile(p));
                            assert(g0.in_bounds(p));
                        }
                    }
                }
                j += 1;
            }
            i += 1;
        }
    }

    /// Chooses the treasure chamber: the largest room that overlaps exactly one other room, since
    /// it is already the end of a path and so can never make another room unreachable. If there
    /// is no such room, every room has at least two others beside it and the largest is chosen.
    pub fn choose_treasure_chamber(&self, map: &FloorMap) -> (r: RoomId)
        requires
            map.spec_rooms().len() >= 1,
            rooms_inside(*map),
        ensures
            is_treasure_choice(map.spec_rooms(), r.0 as int),
    {
        let rooms = map.rooms();
        let ghost rs = map.spec_rooms();
        let n = rooms.len();
        let mut best_end: Option<usize> = None;
        let mut best: usize = 0;
        let mut i: usize = 0;
        while i < n
            invariant
                n == rs.len(),
                rooms@ == map.spec_rooms_with_ids(),
                rs == map.spec_rooms(),
                rooms_inside(*map),
                i <= n,
                i > 0 ==> largest_room(rs.take(i as int), |x: int| true, best as int),
                match best_end {
                    Some(t) => largest_room(rs.take(i as int), |x: int| overlap_count(rs, x) == 1, t as int),
                    None => forall|x: int| 0 <= x < i ==> #[trigger] overlap_count(rs, x) != 1,
                },
            decreases n - i,
        {
            let rect = rooms[i].1.boundary;
            assert(valid_room_rect(rs[i as int].boundary));
            let mut count: usize = 0;
            let mut j: usize = 0;
            let ghost row = overlap_flags(rs, i as int);
            while j < n
                invariant
                    n == rs.len(),
                    rooms@ == map.spec_rooms_with_ids(),
                    rs == map.spec_rooms(),
                    rooms_inside(*map),
                    i < n,
                    rect == rs[i as int].boundary,
                    row == overlap_flags(rs, i as int),
                    j <= n,
                    count == count_true(row.take(j as int)),
                    count <= j,
                decreases n - j,
            {
                assert(row.take(j + 1).drop_last() =~= row.take(j as int));
                assert(valid_room_rect(rs[j as int].boundary));
                if j != i && rect.has_intersection(rooms[j].1.boundary) {
                    count += 1;
                }
                j += 1;
            }
            proof {
                assert(row.take(n as int) =~= row);
                assert(count == overlap_count(rs, i as int));
                assert(rooms@[i as int].1 == rs[i as int]);
            }
            let a = rect.area();
            proof {
                if i > 0 {
                    assert(valid_room_rect(rs[best as int].boundary));
                    assert(rooms@[best as int].1 == rs[best as int]);
                }
            }
            if i == 0 || a >= rooms[best].1.boundary.area() {
                best = i;
            }
            if count == 1 {
                match best_end {
                    Some(t) => {
                        proof {
                            assert(valid_room_rect(rs[t as int].boundary));
                            assert(rooms@[t as int].1 == rs[t as int]);
                        }
                        if a >= rooms[t].1.boundary.area() {
                            best_end = Some(i);
                        }
                    },
                    None => {
                        best_end = Some(i);
                    },
                }
            }
            proof {
                assert forall|x: int| 0 <= x < i + 1 implies #[trigger] rs.take(i + 1)[x] == rs[x] by {}
            }
            i += 1;
        }
        proof {
            assert(rs.take(n as int) =~= rs);
        }
        match best_end {
            Some(t) => RoomId(t),
            None => RoomId(best),
        }
    }

    /// Picks a random room for the player to start in on the first level, and the treasure chamber
    /// on the last level; each chosen room's tiles are placed on top again
    pub fn assign_special_rooms(&self, rng: &mut StdRng, map: &mut FloorMap, level: usize)
        requires
            old(map).spec_grid().wf(),
            old(map).spec_rooms().len() >= 1,
            rooms_inside(*old(map)),
        ensures
            final(map).spec_tile_size() == old(map).spec_tile_size(),
            final(map).spec_grid().wf(),
            final(map).spec_grid().nrows() == old(map).spec_grid().nrows(),
            final(map).spec_grid().ncols() == old(map).spec_grid().ncols(),
            final(map).spec_rooms().len() == old(map).spec_rooms().len(),
            rooms_inside(*final(map)),
            exists|s: int, t: int|
                #![trigger self.special_rooms(old(map).spec_rooms(), level, s, t)]
                0 <= s < old(map).spec_rooms().len() && 0 <= t < old(map).spec_rooms().len() && (level
                    == self.levels ==> is_treasure_choice(self.start_rooms(old(map).spec_rooms(), level, s), t))
                    && final(map).spec_rooms() == self.special_rooms(old(map).spec_rooms(), level, s, t) && (forall|
                    p: TilePos,
                | #[trigger] final(map).spec_grid().in_bounds(p) ==> final(map).spec_grid().tile(p) == top_tile(
                    old(map).spec_grid().tile(p),
                    self.special_order(old(map).spec_rooms(), level, s, t),
                    p,
                )),
    {
        let ghost rooms0 = map.spec_rooms();
        let ghost grid0 = map.spec_grid();
        let mut s: usize = 0;
        // If we're on the first level, pick a random room for the player to start
        if level == 1 {
            s = gen_range(rng, 0, map.nrooms());
            map.make_player_start(RoomId(s));
            // Put this room's tiles on top
            self.place_rect(map, RoomId(s));
            assert(forall|p: TilePos| #[trigger] map.spec_grid().in_bounds(p) ==> map.spec_grid().tile(p) == painted(
                rooms0[s as int].boundary,
                RoomId(s),
                grid0.tile(p),
                p,
            ));
        }
        let ghost rooms1 = map.spec_rooms();
        let ghost grid1 = map.spec_grid();
        let mut t: usize = 0;
        // If we're on the last level, pick the biggest room as the treasure chamber
        if level == self.levels {
            t = self.choose_treasure_chamber(map).0;
            map.make_treasure_chamber(RoomId(t));
            // Put this room's tiles on top
            self.place_rect(map, RoomId(t));
            assert(rooms1[t as int].boundary == rooms0[t as int].boundary);
            assert(forall|p: TilePos| #[trigger] map.spec_grid().in_bounds(p) ==> map.spec_grid().tile(p) == painted(
                rooms0[t as int].boundary,
                RoomId(t),
                grid1.tile(p),
                p,
            ));
        }
        proof {
            let order = self.special_order(rooms0, level, s as int, t as int);
            assert forall|p: TilePos| #[trigger] map.spec_grid().in_bounds(p) implies map.spec_grid().tile(p) == top_tile(
                grid0.tile(p),
                order,
                p,
            ) by {
                reveal_with_fuel(top_tile, 3);
                assert(grid1.in_bounds(p));
                if level == 1 && level == self.levels {
                    assert(order.drop_last() =~= seq![(RoomId(s), rooms0[s as int].boundary)]);
                    assert(order.drop_last().drop_last() =~= Seq::<(RoomId, TileRect)>::empty());
                } else if level == 1 {
                    assert(order =~= seq![(RoomId(s), rooms0[s as int].boundary)]);
                    assert(order.drop_last() =~= Seq::<(RoomId, TileRect)>::empty());
                } else if level == self.levels {
                    assert(order =~= seq![(RoomId(t), rooms0[t as int].boundary)]);
                    assert(order.drop_last() =~= Seq::<(RoomId, TileRect)>::empty());
                } else {
                    assert(order =~= Seq::<(RoomId, TileRect)>::empty());
                }
            }
            assert(map.spec_rooms() == self.special_rooms(rooms0, level, s as int, t as int));
        }
    }
}

/// Two rectangles of the list overlap (a rectangle counts as overlapping itself)
pub open spec fn rect_step(rects: Seq<TileRect>) -> spec_fn(TileRect, TileRect) -> bool {
    |a: TileRect, b: TileRect| rects.contains(a) && rects.contains(b) && a.overlaps(b)
}

/// Every two rectangles of the list are joined by a chain of overlapping rectangles of the list
pub open spec fn all_linked(rects: Seq<TileRect>) -> bool {
    forall|i: int, j: int| 0 <= i < rects.len() && 0 <= j < rects.len() ==> linked(rect_step(rects), #[trigger] rects[i], #[trigger] rects[j])
}

/// No rectangle of the list lies right beside another one that it does not overlap
pub open spec fn none_beside(rects: Seq<TileRect>) -> bool {
    forall|i: int| 0 <= i < rects.len() ==> !beside_any(#[trigger] rects[i], rects)
}

/// The boundaries of the rooms, in ID order
pub open spec fn boundaries(rooms: Seq<Room>) -> Seq<TileRect> {
    rooms.map_values(|r: Room| r.boundary)
}

/// The rooms as normal rooms
pub open spec fn normal_rooms(rooms: Seq<Room>) -> Seq<Room> {
    rooms.map_values(|r: Room| Room { rtype: RoomType::Normal, boundary: r.boundary })
}

/// Being beside a rectangle of a smaller list means being beside one of a larger list
proof fn lemma_beside_any_subset(room: TileRect, small: Seq<TileRect>, large: Seq<TileRect>)
    requires
        forall|x: TileRect| small.contains(x) ==> large.contains(x),
        beside_any(room, small),
    ensures
        beside_any(room, large),
{
    let k = choose|k: int| 0 <= k < small.len() && !room.overlaps(#[trigger] small[k]) && edges_touch(room, small[k]);
    assert(small.contains(small[k]));
    let m = choose|m: int| 0 <= m < large.len() && large[m] == small[k];
    assert(!room.overlaps(large[m]) && edges_touch(room, large[m]));
}

/// The pass that removes rooms beside others leaves only rooms of the list
proof fn lemma_beside_removed_subset(rects: Seq<TileRect>, i: int)
    ensures
        forall|x: TileRect| #[trigger] beside_removed(rects, i).contains(x) ==> rects.contains(x),
    decreases rects.len() - i,
{
    if 0 <= i < rects.len() {
        if is_beside_other(rects, i) {
            lemma_beside_removed_subset(rects.remove(i), i);
            assert forall|x: TileRect| #[trigger] rects.remove(i).contains(x) implies rects.contains(x) by {
                let k = choose|k: int| 0 <= k < rects.remove(i).len() && rects.remove(i)[k] == x;
                if k < i {
                    assert(rects[k] == x);
                } else {
                    assert(rects[k + 1] == x);
                }
            }
            assert forall|x: TileRect| #[trigger] beside_removed(rects, i).contains(x) implies rects.contains(x) by {
                assert(beside_removed(rects, i) == beside_removed(rects.remove(i), i));
                assert(rects.remove(i).contains(x));
            }
        } else {
            lemma_beside_removed_subset(rects, i + 1);
            assert forall|x: TileRect| #[trigger] beside_removed(rects, i).contains(x) implies rects.contains(x) by {
                assert(beside_removed(rects, i) == beside_removed(rects, i + 1));
            }
        }
    }
}

/// After the pass that removes rooms beside others, no room lies beside another, as long as the
/// rooms before the `i`th already lie beside none of the list
proof fn lemma_beside_removed_none(rects: Seq<TileRect>, i: int)
    requires
        0 <= i,
        forall|k: int| 0 <= k < i && k < rects.len() ==> !beside_any(#[trigger] rects[k], rects),
    ensures
        none_beside(beside_removed(rects, i)),
    decreases rects.len() - i,
{
    if i < rects.len() {
        if is_beside_other(rects, i) {
            let r2 = rects.remove(i);
            assert forall|x: TileRect| #[trigger] r2.contains(x) implies rects.contains(x) by {
                let k = choose|k: int| 0 <= k < r2.len() && r2[k] == x;
                if k < i {
                    assert(rects[k] == x);
                } else {
                    assert(rects[k + 1] == x);
                }
            }
            assert forall|k: int| 0 <= k < i && k < r2.len() implies !beside_any(#[trigger] r2[k], r2) by {
                assert(r2[k] == rects[k]);
                if beside_any(r2[k], r2) {
                    lemma_beside_any_subset(r2[k], r2, rects);
                }
            }
            lemma_beside_removed_none(r2, i);
        } else {
            lemma_beside_removed_none(rects, i + 1);
        }
    }
}

/// The rectangles chosen by `select` are the rectangles of the list for which `keep` holds
proof fn lemma_select_contains(rects: Seq<TileRect>, keep: spec_fn(int) -> bool, n: int)
    requires
        0 <= n <= rects.len(),
    ensures
        forall|x: TileRect| #[trigger] select(rects, keep, n).contains(x) <==> exists|j: int|
            0 <= j < n && keep(j) && rects[j] == x,
    decreases n,
{
    if n > 0 {
        lemma_select_contains(rects, keep, n - 1);
        let prev = select(rects, keep, n - 1);
        assert forall|x: TileRect| #[trigger] select(rects, keep, n).contains(x) <==> exists|j: int|
            0 <= j < n && keep(j) && rects[j] == x by {
            if keep(n - 1) {
                vstd::seq_lib::lemma_seq_contains_after_push(prev, rects[n - 1], x);
            }
            if exists|j: int| 0 <= j < n && keep(j) && rects[j] == x {
                let j = choose|j: int| 0 <= j < n && keep(j) && rects[j] == x;
                if j < n - 1 {
                    assert(prev.contains(x));
                    if keep(n - 1) {
                        vstd::seq_lib::lemma_seq_contains_after_push(prev, rects[n - 1], x);
                    }
                }
            }
        }
    }
}

/// Every node of a walk that starts at `a` is linked to `a`
proof fn lemma_walk_nodes_linked<A>(edge: spec_fn(A, A) -> bool, path: Seq<A>, k: int)
    requires
        is_walk(edge, path),
        0 <= k < path.len(),
    ensures
        linked(edge, path[0], path[k]),
    decreases k,
{
    if k == 0 {
        lemma_linked_refl(edge, path[0]);
    } else {
        lemma_walk_nodes_linked(edge, path, k - 1);
        assert(step(edge, path, k - 1));
        crate::graph::lemma_linked_extend(edge, path[0], path[k - 1], path[k]);
    }
}

/// The rooms of a group of overlapping rooms are all linked to each other through rooms of the
/// group
proof fn lemma_group_all_linked(rects: Seq<TileRect>, c: usize)
    requires
        c < rects.len(),
        rects.len() <= usize::MAX,
    ensures
        all_linked(group_of(rects, c)),
{
    let e = overlap_step(rects);
    let g = group_of(rects, c);
    let keep = |j: int| linked(overlap_step(rects), c, j as usize);
    lemma_select_contains(rects, keep, rects.len() as int);
    lemma_overlap_step_symmetric(rects);
    assert forall|i: int, j: int| 0 <= i < g.len() && 0 <= j < g.len() implies linked(
        rect_step(g),
        #[trigger] g[i],
        #[trigger] g[j],
    ) by {
        assert(g.contains(g[i]));
        assert(g.contains(g[j]));
        let a = choose|a: int| 0 <= a < rects.len() && keep(a) && rects[a] == g[i];
        let b = choose|b: int| 0 <= b < rects.len() && keep(b) && rects[b] == g[j];
        lemma_linked_sym(e, c, a as usize);
        lemma_linked_trans(e, a as usize, c, b as usize);
        let p = choose|p: Seq<usize>| #[trigger] is_walk(e, p) && p[0] == a as usize && p.last() == b as usize;
        let q = p.map_values(|k: usize| rects[k as int]);
        assert forall|k: int| 0 <= k < q.len() implies g.contains(#[trigger] q[k]) by {
            lemma_walk_nodes_linked(e, p, k);
            lemma_linked_trans(e, c, a as usize, p[k]);
            if k > 0 {
                assert(step(e, p, k - 1));
            }
            assert(p[k] < rects.len());
            assert(keep(p[k] as int));
            assert(q[k] == rects[p[k] as int]);
            let w = p[k] as int;
            assert(0 <= w < rects.len() && keep(w) && rects[w] == q[k]);
        }
        assert forall|k: int| 0 <= k < q.len() - 1 implies #[trigger] step(rect_step(g), q, k) by {
            assert(step(e, p, k));
            assert(g.contains(q[k]));
            assert(g.contains(q[k + 1]));
        }
        assert(is_walk(rect_step(g), q));
        assert(q[0] == g[i]);
        assert(q.last() == g[j]);
    }
}

/// Placing the rooms of one order and then those of another is placing those of both
proof fn lemma_top_tile_concat(t: Tile, a: Seq<(RoomId, TileRect)>, b: Seq<(RoomId, TileRect)>, p: TilePos)
    ensures
        top_tile(top_tile(t, a, p), b, p) == top_tile(t, a + b, p),
    decreases b.len(),
{
    if b.len() > 0 {
        assert((a + b).drop_last() =~= a + b.drop_last());
        lemma_top_tile_concat(t, a, b.drop_last(), p);
    } else {
        assert(a + b =~= a);
    }
}

/// A rectangle that a generated room can have: valid, within the map, and of a size within the
/// configured bounds
pub open spec fn good_room_rect(g: GameGenerator, r: TileRect) -> bool {
    &&& valid_room_rect(r)
    &&& r.last_row() < g.rows
    &&& r.last_col() < g.cols
    &&& g.room_rows.holds(r.dim.rows as int)
    &&& g.room_cols.holds(r.dim.cols as int)
}

impl GameGenerator {
    /// The pass that removes invalid rooms leaves only rooms of the list
    proof fn lemma_invalid_removed_subset(&self, rects: Seq<TileRect>, i: int)
        ensures
            forall|x: TileRect| #[trigger] self.invalid_removed(rects, i).contains(x) ==> rects.contains(x),
        decreases rects.len() - i,
    {
        if 0 <= i < rects.len() {
            if self.spec_is_invalid_rect(rects[i], rects) {
                self.lemma_invalid_removed_subset(rects.remove(i), i);
                assert forall|x: TileRect| #[trigger] self.invalid_removed(rects, i).contains(x) implies rects.contains(x) by {
                    assert(self.invalid_removed(rects, i) == self.invalid_removed(rects.remove(i), i));
                    assert(rects.remove(i).contains(x));
                    let k = choose|k: int| 0 <= k < rects.remove(i).len() && rects.remove(i)[k] == x;
                    if k < i {
                        assert(rects[k] == x);
                    } else {
                        assert(rects[k + 1] == x);
                    }
                }
            } else {
                self.lemma_invalid_removed_subset(rects, i + 1);
                assert forall|x: TileRect| #[trigger] self.invalid_removed(rects, i).contains(x) implies rects.contains(x) by {
                    assert(self.invalid_removed(rects, i) == self.invalid_removed(rects, i + 1));
                }
            }
        }
    }

    /// Generates the rooms of a level and places them on the map.
    ///
    /// Rooms are drawn at random until there are enough of them; rooms that became invalid, rooms
    /// right beside another room and rooms outside the largest group of connected rooms are
    /// removed after each round. The rooms are then placed one after the other, and the special
    /// rooms are chosen and placed on top again.
    pub fn generate_rooms(&self, rng: &mut StdRng, map: &mut FloorMap, level: usize) -> (r: Result<(), RanOutOfAttempts>)
        requires
            self.wf(),
            old(map).spec_rooms().len() == 0,
            old(map).spec_grid().wf(),
            old(map).spec_grid().nrows() == self.rows,
            old(map).spec_grid().ncols() == self.cols,
        ensures
            final(map).spec_tile_size() == old(map).spec_tile_size(),
            final(map).spec_grid().wf(),
            final(map).spec_grid().nrows() == self.rows,
            final(map).spec_grid().ncols() == self.cols,
            r is Ok ==> {
                &&& final(map).spec_rooms().len() >= self.rooms.min
                &&& rooms_inside(*final(map))
                &&& forall|k: int| 0 <= k < final(map).spec_rooms().len() ==> good_room_rect(*self, #[trigger] final(map).spec_rooms()[k].boundary)
                &&& all_linked(boundaries(final(map).spec_rooms()))
                &&& none_beside(boundaries(final(map).spec_rooms()))
                &&& exists|s: int, t: int|
                    #![trigger self.special_rooms(normal_rooms(final(map).spec_rooms()), level, s, t)]
                    0 <= s < final(map).spec_rooms().len() && 0 <= t < final(map).spec_rooms().len() && (level == self.levels
                        ==> is_treasure_choice(self.start_rooms(normal_rooms(final(map).spec_rooms()), level, s), t))
                        && final(map).spec_rooms() == self.special_rooms(normal_rooms(final(map).spec_rooms()), level, s, t)
                        && (forall|p: TilePos| #[trigger] final(map).spec_grid().in_bounds(p) ==> final(map).spec_grid().tile(p)
                        == top_tile(
                        old(map).spec_grid().tile(p),
                        rooms_order(normal_rooms(final(map).spec_rooms())) + self.special_order(
                            normal_rooms(final(map).spec_rooms()),
                            level,
                            s,
                            t,
                        ),
                        p,
                    ))
            },
    {
        let nrooms = self.rooms.gen(rng);

        let mut room_rects: Vec<TileRect> = Vec::new();
        let mut attempts: usize = 0;
        while room_rects.len() < nrooms
            invariant
                *map == *old(map),
                old(map).spec_rooms().len() == 0,
                old(map).spec_grid().wf(),
                old(map).spec_grid().nrows() == self.rows,
                old(map).spec_grid().ncols() == self.cols,
                self.wf(),
                nrooms >= 1,
                attempts <= self.attempts + 1,
                forall|k: int| 0 <= k < room_rects@.len() ==> good_room_rect(*self, #[trigger] room_rects@[k]),
                all_linked(room_rects@),
                none_beside(room_rects@),
            decreases self.attempts + 1 - attempts,
        {
            let ghost attempts_before = attempts;
            let mut added: usize = 0;
            while added < nrooms
                invariant
                    *map == *old(map),
                    old(map).spec_rooms().len() == 0,
                    old(map).spec_grid().wf(),
                    old(map).spec_grid().nrows() == self.rows,
                    old(map).spec_grid().ncols() == self.cols,
                    self.wf(),
                    attempts <= self.attempts + 1,
                    added <= nrooms,
                    added > 0 ==> attempts > attempts_before,
                    attempts >= attempts_before,
                    forall|k: int| 0 <= k < room_rects@.len() ==> good_room_rect(*self, #[trigger] room_rects@[k]),
                decreases nrooms - added,
            {
                loop
                    invariant
                        *map == *old(map),
                        old(map).spec_rooms().len() == 0,
                        old(map).spec_grid().wf(),
                        old(map).spec_grid().nrows() == self.rows,
                        old(map).spec_grid().ncols() == self.cols,
                        self.wf(),
                        attempts <= self.attempts + 1,
                        attempts >= attempts_before,
                        added > 0 ==> attempts > attempts_before,
                        forall|k: int| 0 <= k < room_rects@.len() ==> good_room_rect(*self, #[trigger] room_rects@[k]),
                    ensures
                        attempts <= self.attempts + 1,
                        attempts > attempts_before,
                        forall|k: int| 0 <= k < room_rects@.len() ==> good_room_rect(*self, #[trigger] room_rects@[k]),
                    decreases self.attempts + 1 - attempts,
                {
                    if attempts > self.attempts {
                        return Err(RanOutOfAttempts);
                    }
                    attempts += 1;
                    assert(valid_room_rects(room_rects@));
                    match self.random_room(rng, &room_rects) {
                        Some(rect) => {
                            room_rects.push(rect);
                            // Added 1 room
                            break;
                        },
                        None => {},
                    }
                }
                added += 1;
            }

            // Remove rooms that aren't a valid size anymore
            assert(valid_room_rects(room_rects@));
            let ghost before_invalid = room_rects@;
            self.remove_invalid_rooms(&mut room_rects);
            proof {
                self.lemma_invalid_removed_subset(before_invalid, 0);
                assert forall|k: int| 0 <= k < room_rects@.len() implies good_room_rect(*self, #[trigger] room_rects@[k]) by {
                    assert(room_rects@.contains(room_rects@[k]));
                }
            }
            // Remove rooms that are adjacent to each other since that can end up in cases where
            // some rooms are not reachable
            let ghost before_beside = room_rects@;
            self.remove_adjacent_rooms(&mut room_rects);
            proof {
                lemma_beside_removed_subset(before_beside, 0);
                lemma_beside_removed_none(before_beside, 0);
                assert forall|k: int| 0 <= k < room_rects@.len() implies good_room_rect(*self, #[trigger] room_rects@[k]) by {
                    assert(room_rects@.contains(room_rects@[k]));
                }
            }
            // Only keep the largest group of connected rooms
            if room_rects.len() > 0 {
                let ghost before_groups = room_rects@;
                self.remove_disconnected(&mut room_rects);
                proof {
                    let c = choose|c: usize|
                        #![trigger group_of(before_groups, c)]
                        c < before_groups.len() && lowest_in_group(before_groups, c) && room_rects@ == group_of(
                            before_groups,
                            c,
                        ) && (forall|i: usize| i < before_groups.len() ==> #[trigger] group_size(before_groups, i)
                            <= group_size(before_groups, c)) && (forall|l: usize|
                            l < before_groups.len() && lowest_in_group(before_groups, l) && #[trigger] group_size(
                                before_groups,
                                l,
                            ) == group_size(before_groups, c) ==> l <= c);
                    lemma_group_all_linked(before_groups, c);
                    lemma_select_contains(
                        before_groups,
                        |j: int| linked(overlap_step(before_groups), c, j as usize),
                        before_groups.len() as int,
                    );
                    assert forall|x: TileRect| #[trigger] room_rects@.contains(x) implies before_groups.contains(x) by {
                        let j = choose|j: int|
                            0 <= j < before_groups.len() && linked(overlap_step(before_groups), c, j as usize)
                                && before_groups[j] == x;
                    }
                    assert forall|k: int| 0 <= k < room_rects@.len() implies good_room_rect(*self, #[trigger] room_rects@[k]) by {
                        assert(room_rects@.contains(room_rects@[k]));
                    }
                    assert forall|k: int| 0 <= k < room_rects@.len() implies !beside_any(#[trigger] room_rects@[k], room_rects@) by {
                        assert(room_rects@.contains(room_rects@[k]));
                        let m = choose|m: int| 0 <= m < before_groups.len() && before_groups[m] == room_rects@[k];
                        assert(!beside_any(before_groups[m], before_groups));
                        if beside_any(room_rects@[k], room_rects@) {
                            lemma_beside_any_subset(room_rects@[k], room_rects@, before_groups);
                        }
                    }
                }
            }
        }

        // Add the generated rooms
        let ghost grid0 = map.spec_grid();
        let ghost rects = room_rects@;
        let mut k: usize = 0;
        while k < room_rects.len()
            invariant
                self.wf(),
                rects == room_rects@,
                k <= rects.len(),
                forall|m: int| 0 <= m < rects.len() ==> good_room_rect(*self, #[trigger] rects[m]),
                map.spec_tile_size() == old(map).spec_tile_size(),
                map.spec_grid().wf(),
                map.spec_grid().nrows() == self.rows,
                map.spec_grid().ncols() == self.cols,
                grid0 == old(map).spec_grid(),
                map.spec_rooms() == Seq::new(k as nat, |m: int| Room { rtype: RoomType::Normal, boundary: rects[m] }),
                forall|p: TilePos| #[trigger] map.spec_grid().in_bounds(p) ==> map.spec_grid().tile(p) == top_tile(
                    grid0.tile(p),
                    rooms_order(map.spec_rooms()),
                    p,
                ),
            decreases rects.len() - k,
        {
            let rect = room_rects[k];
            let ghost before = map.spec_grid();
            let room_id = map.add_room(rect);
            proof {
                assert(map.spec_rooms() =~= Seq::new((k + 1) as nat, |m: int| Room { rtype: RoomType::Normal, boundary: rects[m] }));
                assert forall|m: int| 0 <= m < map.spec_rooms().len() implies {
                    &&& valid_room_rect(#[trigger] map.spec_rooms()[m].boundary)
                    &&& map.spec_rooms()[m].boundary.last_row() < map.spec_grid().nrows()
                    &&& map.spec_rooms()[m].boundary.last_col() < map.spec_grid().ncols()
                } by {
                    assert(good_room_rect(*self, rects[m]));
                }
            }
            self.place_rect(map, room_id);
            proof {
                let order = rooms_order(map.spec_rooms());
                assert forall|p: TilePos| #[trigger] map.spec_grid().in_bounds(p) implies map.spec_grid().tile(p) == top_tile(
                    grid0.tile(p),
                    order,
                    p,
                ) by {
                    assert(order.drop_last() =~= rooms_order(Seq::new(k as nat, |m: int| Room { rtype: RoomType::Normal, boundary: rects[m] })));
                    assert(before.in_bounds(p));
                }
            }
            k += 1;
        }
        proof {
            assert forall|m: int| 0 <= m < map.spec_rooms().len() implies {
                &&& valid_room_rect(#[trigger] map.spec_rooms()[m].boundary)
                &&& map.spec_rooms()[m].boundary.last_row() < map.spec_grid().nrows()
                &&& map.spec_rooms()[m].boundary.last_col() < map.spec_grid().ncols()
            } by {
                assert(good_room_rect(*self, rects[m]));
            }
        }
        let ghost rooms1 = map.spec_rooms();
        let ghost grid1 = map.spec_grid();
        self.assign_special_rooms(rng, map, level);
        proof {
            let (s, t) = choose|s: int, t: int|
                #![trigger self.special_rooms(rooms1, level, s, t)]
                0 <= s < rooms1.len() && 0 <= t < rooms1.len() && (level == self.levels ==> is_treasure_choice(
                    self.start_rooms(rooms1, level, s),
                    t,
                )) && map.spec_rooms() == self.special_rooms(rooms1, level, s, t) && (forall|p: TilePos|
                    #[trigger] map.spec_grid().in_bounds(p) ==> map.spec_grid().tile(p) == top_tile(
                        grid1.tile(p),
                        self.special_order(rooms1, level, s, t),
                        p,
                    ));
            assert(normal_rooms(map.spec_rooms()) =~= rooms1);
            assert(boundaries(map.spec_rooms()) =~= rects);
            assert forall|p: TilePos| #[trigger] map.spec_grid().in_bounds(p) implies map.spec_grid().tile(p) == top_tile(
                grid0.tile(p),
                rooms_order(rooms1) + self.special_order(rooms1, level, s, t),
                p,
            ) by {
                assert(grid1.in_bounds(p));
                lemma_top_tile_concat(grid0.tile(p), rooms_order(rooms1), self.special_order(rooms1, level, s, t), p);
            }
            assert forall|m: int| 0 <= m < map.spec_rooms().len() implies good_room_rect(*self, #[trigger] map.spec_rooms()[m].boundary) by {
                assert(map.spec_rooms()[m].boundary == rects[m]);
            }
            assert forall|m: int| 0 <= m < map.spec_rooms().len() implies {
                &&& valid_room_rect(#[trigger] map.spec_rooms()[m].boundary)
                &&& map.spec_rooms()[m].boundary.last_row() < map.spec_grid().nrows()
                &&& map.spec_rooms()[m].boundary.last_col() < map.spec_grid().ncols()
            } by {
                assert(map.spec_rooms()[m].boundary == rects[m]);
                assert(good_room_rect(*self, rects[m]));
            }
        }
        Ok(())
    }
}

} // verus!
