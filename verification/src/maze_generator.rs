//! A generator of levels made of rooms joined by winding passages: the rooms are placed first,
//! every cell left around them is filled with mazes of passages, each room is given doors onto the
//! passages and the dead ends of the passages are taken away again
use std::collections::{HashMap, HashSet, VecDeque};

use vstd::prelude::*;

use rand::rngs::StdRng;

use crate::generator::RanOutOfAttempts;
use crate::generator::bounds::Bounds;
use crate::graph::{
    lemma_linked_entered, lemma_linked_extend, lemma_linked_mono, lemma_linked_refl, lemma_linked_sym, lemma_linked_trans, linked, map_edge,
    reachable_in_map,
};
use crate::maze::{
    direction_to, wall_in, opposite, wall_opened, Direction, PassageMap, TileType, closed_cell, closed_side, lemma_adjacent_cells,
    lemma_direction_step, lemma_step_back, lemma_open_edge_symmetric, lemma_open_edges_kept, lemma_open_symmetric,
};
use crate::random::{choose_item, gen_bool, gen_range, shuffle};
use crate::room::RoomId;
use crate::grid_size::GridSize;
use crate::tile_rect::{MAX_RECT_VALUE, TileRect};
use crate::tile_pos::TilePos;

verus! {

/// The rows of a vector of vectors
pub open spec fn rows_view<T>(v: &Vec<Vec<T>>) -> Seq<Seq<T>> {
    v@.map_values(|r: Vec<T>| r@)
}

/// The rows all have the given length and there are as many as given
pub open spec fn shaped<T>(rows: Seq<Seq<T>>, nrows: int, ncols: int) -> bool {
    &&& rows.len() == nrows
    &&& forall|i: int| 0 <= i < nrows ==> #[trigger] rows[i].len() == ncols
}

/// The entry for the given position
pub open spec fn at<T>(rows: Seq<Seq<T>>, p: TilePos) -> T {
    rows[p.row as int][p.col as int]
}

/// The number of `false` values in the sequence
pub open spec fn count_false(s: Seq<bool>) -> nat
    decreases s.len(),
{
    if s.len() == 0 {
        0
    } else {
        count_false(s.drop_last()) + if s.last() { 0nat } else { 1nat }
    }
}

/// The number of `false` values in all the rows
pub open spec fn count_unseen(rows: Seq<Seq<bool>>) -> nat
    decreases rows.len(),
{
    if rows.len() == 0 {
        0
    } else {
        count_unseen(rows.drop_last()) + count_false(rows.last())
    }
}

/// Turning one `false` into `true` takes one from the count
proof fn lemma_count_false_set(s: Seq<bool>, i: int)
    requires
        0 <= i < s.len(),
        !s[i],
    ensures
        count_false(s.update(i, true)) + 1 == count_false(s),
    decreases s.len(),
{
    let t = s.update(i, true);
    if i < s.len() - 1 {
        assert(t.drop_last() =~= s.drop_last().update(i, true));
        lemma_count_false_set(s.drop_last(), i);
    } else {
        assert(t.drop_last() =~= s.drop_last());
    }
}

/// Turning one `false` into `true` takes one from the count of all the rows
proof fn lemma_count_unseen_set(rows: Seq<Seq<bool>>, p: TilePos)
    requires
        p.row < rows.len(),
        p.col < rows[p.row as int].len(),
        !at(rows, p),
    ensures
        count_unseen(rows.update(p.row as int, rows[p.row as int].update(p.col as int, true))) + 1
            == count_unseen(rows),
    decreases rows.len(),
{
    let t = rows.update(p.row as int, rows[p.row as int].update(p.col as int, true));
    if p.row < rows.len() - 1 {
        assert(t.drop_last() =~= rows.drop_last().update(p.row as int, rows[p.row as int].update(p.col as int, true)));
        lemma_count_unseen_set(rows.drop_last(), p);
    } else {
        assert(t.drop_last() =~= rows.drop_last());
        lemma_count_false_set(rows[p.row as int], p.col as int);
    }
}

/// The tree found by the search: `b` was reached from `a`
pub open spec fn tree_edge(seen: Seq<Seq<bool>>, parent: Seq<Seq<Option<TilePos>>>) -> spec_fn(TilePos, TilePos) -> bool {
    |a: TilePos, b: TilePos|
        b.row < seen.len() && b.col < seen[b.row as int].len() && at(seen, b) && at(parent, b) == Some(a)
}

/// A grid of the given size holding the same value everywhere
fn filled_grid<T: Copy>(nrows: usize, ncols: usize, v: T) -> (r: Vec<Vec<T>>)
    ensures
        shaped(rows_view(&r), nrows as int, ncols as int),
        forall|p: TilePos| p.row < nrows && p.col < ncols ==> #[trigger] at(rows_view(&r), p) == v,
{
    let mut r: Vec<Vec<T>> = Vec::new();
    let mut i: usize = 0;
    while i < nrows
        invariant
            i <= nrows,
            r@.len() == i,
            forall|a: int| 0 <= a < i ==> #[trigger] r@[a]@.len() == ncols,
            forall|a: int, b: int| 0 <= a < i && 0 <= b < ncols ==> #[trigger] r@[a]@[b] == v,
        decreases nrows - i,
    {
        let mut row: Vec<T> = Vec::new();
        let mut j: usize = 0;
        while j < ncols
            invariant
                j <= ncols,
                row@.len() == j,
                forall|b: int| 0 <= b < j ==> #[trigger] row@[b] == v,
            decreases ncols - j,
        {
            row.push(v);
            j += 1;
        }
        r.push(row);
        i += 1;
    }
    r
}

/// Replaces the entry for the given position
fn set_at<T>(rows: &mut Vec<Vec<T>>, p: TilePos, v: T)
    requires
        p.row < rows_view(old(rows)).len(),
        p.col < rows_view(old(rows))[p.row as int].len(),
    ensures
        rows_view(final(rows)) == rows_view(old(rows)).update(
            p.row as int,
            rows_view(old(rows))[p.row as int].update(p.col as int, v),
        ),
        forall|q: TilePos| q.row < rows_view(old(rows)).len() && q.col < rows_view(old(rows))[q.row as int].len()
            ==> #[trigger] at(rows_view(final(rows)), q) == if q == p { v } else { at(rows_view(old(rows)), q) },
        forall|i: int| 0 <= i < rows_view(old(rows)).len() ==> #[trigger] rows_view(final(rows))[i].len()
            == rows_view(old(rows))[i].len(),
        rows_view(final(rows)).len() == rows_view(old(rows)).len(),
{
    let ghost before = rows_view(rows);
    assert(rows@[p.row as int]@ == before[p.row as int]);
    rows[p.row].set(p.col, v);
    assert(rows_view(rows) =~= before.update(p.row as int, before[p.row as int].update(p.col as int, v)));
}

/// The result of searching the empty cells around a start: the cells reached, in the order in
/// which they were reached, whether each cell was reached and from which cell
struct MazeSearch {
    pub order: Vec<TilePos>,
    pub seen: Vec<Vec<bool>>,
    pub parent: Vec<Vec<Option<TilePos>>>,
}

/// Returns the empty cells next to `node` that the search has not reached yet
fn empty_unseen_adjacents(map: &PassageMap, seen: &Vec<Vec<bool>>, node: TilePos) -> (r: Vec<TilePos>)
    requires
        map.wf(),
        map.in_bounds(node),
        shaped(rows_view(seen), map.nrows() as int, map.ncols() as int),
    ensures
        forall|k: int| 0 <= k < r@.len() ==> {
            let q = #[trigger] r@[k];
            &&& map.in_bounds(q)
            &&& direction_to(node, q) is Some
            &&& !at(rows_view(seen), q)
            &&& map.cell(q) is None
        },
        forall|d: Direction| #[trigger] map.next_to(node, d) is Some
            && !at(rows_view(seen), map.next_to(node, d).unwrap())
            && map.cell(map.next_to(node, d).unwrap()) is None ==> r@.contains(map.next_to(node, d).unwrap()),
{
    let adjacents = map.adjacent_cells(node);
    let mut r: Vec<TilePos> = Vec::new();
    let mut k: usize = 0;
    proof {
        map.lemma_size_fits();
        lemma_adjacent_cells(map, node);
    }
    while k < adjacents.len()
        invariant
            map.wf(),
            map.in_bounds(node),
            map.nrows() <= usize::MAX,
            map.ncols() <= usize::MAX,
            shaped(rows_view(seen), map.nrows() as int, map.ncols() as int),
            adjacents@ == map.spec_adjacent_cells(node),
            forall|q: TilePos| #[trigger] map.spec_adjacent_cells(node).contains(q) ==> exists|d: Direction| map.next_to(node, d) == Some(q),
            k <= adjacents@.len(),
            forall|j: int| 0 <= j < r@.len() ==> {
                let q = #[trigger] r@[j];
                &&& map.in_bounds(q)
                &&& direction_to(node, q) is Some
                &&& !at(rows_view(seen), q)
                &&& map.cell(q) is None
            },
            forall|j: int| 0 <= j < k ==> {
                let q = #[trigger] adjacents@[j];
                !at(rows_view(seen), q) && map.cell(q) is None ==> r@.contains(q)
            },
        decreases adjacents@.len() - k,
    {
        let q = adjacents[k];
        proof {
            assert(adjacents@.contains(q));
            let d = choose|d: Direction| map.next_to(node, d) == Some(q);
            lemma_step_back(node, d, map.nrows() as int, map.ncols() as int);
            assert(rows_view(seen)[q.row as int] == seen@[q.row as int]@);
        }
        let ghost before = r@;
        if !seen[q.row][q.col] && map.is_empty(q) {
            r.push(q);
            proof {
                assert forall|j: int| 0 <= j <= k implies {
                    let q2 = #[trigger] adjacents@[j];
                    !at(rows_view(seen), q2) && map.cell(q2) is None ==> r@.contains(q2)
                } by {
                    if j < k {
                        let q2 = adjacents@[j];
                        if !at(rows_view(seen), q2) && map.cell(q2) is None {
                            let i = choose|i: int| 0 <= i < before.len() && before[i] == q2;
                            assert(r@[i] == q2);
                        }
                    } else {
                        assert(r@[before.len() as int] == q);
                    }
                }
            }
        }
        k += 1;
    }
    proof {
        assert forall|d: Direction| #[trigger] map.next_to(node, d) is Some
            && !at(rows_view(seen), map.next_to(node, d).unwrap())
            && map.cell(map.next_to(node, d).unwrap()) is None implies r@.contains(map.next_to(node, d).unwrap()) by {
            let q = map.next_to(node, d).unwrap();
            assert(adjacents@.contains(q));
            let j = choose|j: int| 0 <= j < adjacents@.len() && adjacents@[j] == q;
        }
    }
    r
}

/// The tree only grows: cells reached keep the cell they were reached from
proof fn lemma_tree_grows(
    sv1: Seq<Seq<bool>>,
    pv1: Seq<Seq<Option<TilePos>>>,
    sv2: Seq<Seq<bool>>,
    pv2: Seq<Seq<Option<TilePos>>>,
    start: TilePos,
)
    requires
        forall|b: TilePos|
            b.row < sv1.len() && b.col < sv1[b.row as int].len() && #[trigger] at(sv1, b) ==> {
                &&& b.row < sv2.len()
                &&& b.col < sv2[b.row as int].len()
                &&& at(sv2, b)
                &&& at(pv2, b) == at(pv1, b)
            },
    ensures
        forall|p: TilePos| #[trigger] linked(tree_edge(sv1, pv1), start, p) ==> linked(tree_edge(sv2, pv2), start, p),
{
    let e1 = tree_edge(sv1, pv1);
    let e2 = tree_edge(sv2, pv2);
    assert forall|x: TilePos, y: TilePos| #[trigger] e1(x, y) implies e2(x, y) by {
        assert(at(sv1, y));
    }
    assert forall|p: TilePos| #[trigger] linked(e1, start, p) implies linked(e2, start, p) by {
        lemma_linked_mono(e1, e2, start, p);
    }
}

/// Searches depth first the empty cells that can be reached from `start` through empty cells,
/// going on from each cell to its empty neighbours in a random order. Returns the cells reached,
/// in the order in which they were reached, and for each the cell it was reached from.
fn search_empty(map: &PassageMap, rng: &mut StdRng, start: TilePos) -> (r: MazeSearch)
    requires
        map.wf(),
        map.in_bounds(start),
        map.cell(start) is None,
    ensures
        shaped(rows_view(&r.seen), map.nrows() as int, map.ncols() as int),
        shaped(rows_view(&r.parent), map.nrows() as int, map.ncols() as int),
        r.order@.no_duplicates(),
        forall|k: int| 0 <= k < r.order@.len() ==> {
            let p = #[trigger] r.order@[k];
            &&& map.in_bounds(p)
            &&& map.cell(p) is None
            &&& at(rows_view(&r.seen), p)
        },
        forall|p: TilePos| map.in_bounds(p) && #[trigger] at(rows_view(&r.seen), p) ==> r.order@.contains(p),
        at(rows_view(&r.seen), start),
        forall|p: TilePos| map.in_bounds(p) && #[trigger] at(rows_view(&r.seen), p) ==> linked(
            tree_edge(rows_view(&r.seen), rows_view(&r.parent)),
            start,
            p,
        ),
        forall|p: TilePos| map.in_bounds(p) && #[trigger] at(rows_view(&r.parent), p) is Some ==> {
            let a = at(rows_view(&r.parent), p).unwrap();
            &&& map.in_bounds(a)
            &&& at(rows_view(&r.seen), a)
            &&& direction_to(a, p) is Some
            &&& map.cell(p) is None
        },
        forall|p: TilePos, d: Direction|
            map.in_bounds(p) && at(rows_view(&r.seen), p) && #[trigger] map.next_to(p, d) is Some
                && map.cell(map.next_to(p, d).unwrap()) is None ==> at(rows_view(&r.seen), map.next_to(p, d).unwrap()),
        r.order@.len() > 0,
        r.order@[0] == start,
        at(rows_view(&r.parent), start) is None,
        forall|k: int| 0 < k < r.order@.len() ==> at(rows_view(&r.parent), #[trigger] r.order@[k]) is Some && exists|j: int|
            0 <= j < k && r.order@[j] == at(rows_view(&r.parent), r.order@[k]).unwrap(),
{
    proof {
        map.lemma_size_fits();
    }
    let nrows = map.rows_len();
    let ncols = map.cols_len();
    let mut seen: Vec<Vec<bool>> = filled_grid(nrows, ncols, false);
    let mut parent: Vec<Vec<Option<TilePos>>> = filled_grid(nrows, ncols, None);
    let mut order: Vec<TilePos> = Vec::new();
    let mut open: VecDeque<TilePos> = VecDeque::new();
    open.push_front(start);
    proof {
        assert forall|p: TilePos| map.in_bounds(p) && #[trigger] at(rows_view(&seen), p) implies linked(
            tree_edge(rows_view(&seen), rows_view(&parent)),
            start,
            p,
        ) by {}
        assert(open@[0] == start);
        assert(open@ =~= seq![start]);
    }
    while open.len() > 0
        invariant
            map.wf(),
            map.in_bounds(start),
            map.cell(start) is None,
            nrows == map.nrows(),
            ncols == map.ncols(),
            nrows <= usize::MAX,
            ncols <= usize::MAX,
            shaped(rows_view(&seen), nrows as int, ncols as int),
            shaped(rows_view(&parent), nrows as int, ncols as int),
            forall|k: int| 0 <= k < open@.len() ==> {
                let q = #[trigger] open@[k];
                &&& map.in_bounds(q)
                &&& map.cell(q) is None
                &&& (q == start || at(rows_view(&parent), q) is Some)
            },
            at(rows_view(&seen), start) || open@.contains(start),
            order@.no_duplicates(),
            forall|k: int| 0 <= k < order@.len() ==> {
                let p = #[trigger] order@[k];
                &&& map.in_bounds(p)
                &&& map.cell(p) is None
                &&& at(rows_view(&seen), p)
            },
            forall|p: TilePos| map.in_bounds(p) && #[trigger] at(rows_view(&seen), p) ==> order@.contains(p),
            forall|p: TilePos| map.in_bounds(p) && #[trigger] at(rows_view(&seen), p) ==> linked(
                tree_edge(rows_view(&seen), rows_view(&parent)),
                start,
                p,
            ),
            forall|p: TilePos| map.in_bounds(p) && #[trigger] at(rows_view(&parent), p) is Some ==> {
                let a = at(rows_view(&parent), p).unwrap();
                &&& map.in_bounds(a)
                &&& at(rows_view(&seen), a)
                &&& direction_to(a, p) is Some
                &&& map.cell(p) is None
            },
            forall|p: TilePos, d: Direction|
                map.in_bounds(p) && at(rows_view(&seen), p) && #[trigger] map.next_to(p, d) is Some
                    && map.cell(map.next_to(p, d).unwrap()) is None ==> at(rows_view(&seen), map.next_to(p, d).unwrap())
                    || open@.contains(map.next_to(p, d).unwrap()),
            order@.len() == 0 ==> open@ == seq![start] && !at(rows_view(&seen), start),
            order@.len() > 0 ==> order@[0] == start && at(rows_view(&seen), start),
            at(rows_view(&parent), start) is None,
            forall|k: int| 0 < k < order@.len() ==> at(rows_view(&parent), #[trigger] order@[k]) is Some && exists|j: int|
                0 <= j < k && order@[j] == at(rows_view(&parent), order@[k]).unwrap(),
        decreases count_unseen(rows_view(&seen)), open@.len(),
    {
        let ghost open_before = open@;
        let node = open.pop_front().unwrap();
        proof {
            assert(open_before[0] == node);
            assert forall|q: TilePos| open_before.contains(q) && q != node implies open@.contains(q) by {
                let k = choose|k: int| 0 <= k < open_before.len() && open_before[k] == q;
                assert(open@[k - 1] == q);
            }
            assert(rows_view(&seen)[node.row as int] == seen@[node.row as int]@);
        }
        if seen[node.row][node.col] {
            continue;
        }
        let ghost sv1 = rows_view(&seen);
        let ghost pv1 = rows_view(&parent);
        proof {
            if order@.len() == 0 {
                assert(open_before =~= seq![start]);
                assert(node == start);
            } else {
                assert(node != start);
                assert(open_before.contains(node));
                let i = choose|i: int| 0 <= i < open_before.len() && open_before[i] == node;
                assert(at(pv1, node) is Some);
                let a = at(pv1, node).unwrap();
                assert(at(sv1, a));
                assert(order@.contains(a));
            }
        }
        set_at(&mut seen, node, true);
        let ghost order_before = order@;
        order.push(node);
        proof {
            assert(order@[0] == start);
            assert(at(rows_view(&seen), start));
            assert forall|k: int| 0 < k < order@.len() implies at(pv1, #[trigger] order@[k]) is Some && exists|j: int|
                0 <= j < k && order@[j] == at(pv1, order@[k]).unwrap() by {
                if k < order_before.len() {
                    assert(order@[k] == order_before[k]);
                    let j = choose|j: int| 0 <= j < k && order_before[j] == at(pv1, order_before[k]).unwrap();
                    assert(order@[j] == order_before[j]);
                } else {
                    let a = at(pv1, node).unwrap();
                    let j = choose|j: int| 0 <= j < order_before.len() && order_before[j] == a;
                    assert(order@[j] == a);
                }
            }
        }
        proof {
            lemma_count_unseen_set(sv1, node);
            let sv2 = rows_view(&seen);
            assert forall|b: TilePos| b.row < sv1.len() && b.col < sv1[b.row as int].len() && #[trigger] at(sv1, b) implies {
                &&& b.row < sv2.len()
                &&& b.col < sv2[b.row as int].len()
                &&& at(sv2, b)
                &&& at(pv1, b) == at(pv1, b)
            } by {}
            lemma_tree_grows(sv1, pv1, sv2, pv1, start);
            if node == start {
                lemma_linked_refl(tree_edge(sv2, pv1), start);
            } else {
                let a = at(pv1, node).unwrap();
                assert(linked(tree_edge(sv1, pv1), start, a));
                assert(linked(tree_edge(sv2, pv1), start, a));
                assert(tree_edge(sv2, pv1)(a, node));
                lemma_linked_extend(tree_edge(sv2, pv1), start, a, node);
            }
            assert(order@.last() == node);
            let order1 = order_before;
            assert forall|p: TilePos| map.in_bounds(p) && #[trigger] at(sv2, p) implies order@.contains(p) by {
                if p == node {
                    assert(order@[order@.len() - 1] == node);
                } else {
                    assert(at(sv1, p));
                    assert(order1.contains(p));
                    let i = choose|i: int| 0 <= i < order1.len() && order1[i] == p;
                    assert(order@[i] == p);
                }
            }
        }
        let mut adjacents = empty_unseen_adjacents(map, &seen, node);
        let ghost found = adjacents@;
        shuffle(&mut adjacents, rng);
        proof {
            found.to_multiset_ensures();
            adjacents@.to_multiset_ensures();
            assert forall|q: TilePos| #[trigger] adjacents@.contains(q) <==> found.contains(q) by {
                assert(adjacents@.to_multiset().count(q) == found.to_multiset().count(q));
            }
        }
        let ghost sv2 = rows_view(&seen);
        let ghost pv2 = rows_view(&parent);
        proof {
            assert forall|j: int| 0 <= j < adjacents@.len() implies {
                let q = #[trigger] adjacents@[j];
                &&& map.in_bounds(q)
                &&& direction_to(node, q) is Some
                &&& !at(sv2, q)
                &&& map.cell(q) is None
            } by {
                let q = adjacents@[j];
                assert(adjacents@.contains(q));
                let i = choose|i: int| 0 <= i < found.len() && found[i] == q;
            }
        }
        let mut k: usize = 0;
        while k < adjacents.len()
            invariant
                map.wf(),
                nrows == map.nrows(),
                ncols == map.ncols(),
                map.in_bounds(node),
                sv2 == rows_view(&seen),
                at(sv2, node),
                shaped(sv2, nrows as int, ncols as int),
                shaped(pv2, nrows as int, ncols as int),
                shaped(rows_view(&parent), nrows as int, ncols as int),
                forall|j: int| 0 <= j < adjacents@.len() ==> {
                    let q = #[trigger] adjacents@[j];
                    &&& map.in_bounds(q)
                    &&& direction_to(node, q) is Some
                    &&& !at(sv2, q)
                    &&& map.cell(q) is None
                },
                k <= adjacents@.len(),
                forall|j: int| 0 <= j < k ==> #[trigger] at(rows_view(&parent), adjacents@[j]) == Some(node),
                forall|p: TilePos| map.in_bounds(p) ==> {
                    ||| #[trigger] at(rows_view(&parent), p) == at(pv2, p)
                    ||| (at(rows_view(&parent), p) == Some(node) && !at(sv2, p) && direction_to(node, p) is Some
                        && map.cell(p) is None)
                },
            decreases adjacents@.len() - k,
        {
            let q = adjacents[k];
            set_at(&mut parent, q, Some(node));
            k += 1;
        }
        let ghost pv3 = rows_view(&parent);
        proof {
            assert(at(sv2, start));
            assert(at(pv3, start) == at(pv2, start));
            assert forall|k: int| 0 < k < order@.len() implies at(pv3, #[trigger] order@[k]) is Some && exists|j: int|
                0 <= j < k && order@[j] == at(pv3, order@[k]).unwrap() by {
                let p = order@[k];
                assert(at(sv2, p));
                assert(at(pv3, p) == at(pv2, p));
                let j = choose|j: int| 0 <= j < k && order@[j] == at(pv2, order@[k]).unwrap();
            }
        }
        if adjacents.len() > 0 {
            open.push_front(adjacents[0]);
            let mut k: usize = 1;
            let ghost open_mid = open@;
            while k < adjacents.len()
                invariant
                    1 <= k <= adjacents@.len(),
                    open@ == open_mid + adjacents@.subrange(1, k as int),
                decreases adjacents@.len() - k,
            {
                open.push_back(adjacents[k]);
                k += 1;
                proof {
                    assert(open@ =~= open_mid + adjacents@.subrange(1, k as int));
                }
            }
            proof {
                assert forall|q: TilePos| adjacents@.contains(q) implies open@.contains(q) by {
                    let j = choose|j: int| 0 <= j < adjacents@.len() && adjacents@[j] == q;
                    if j == 0 {
                        assert(open@[0] == q);
                    } else {
                        assert(open@[open_mid.len() + j - 1] == q);
                    }
                }
                assert forall|q: TilePos| open_before.contains(q) && q != node implies open@.contains(q) by {
                    let i = choose|i: int| 0 <= i < open_before.len() && open_before[i] == q;
                    assert(open_mid[i] == q);
                    assert(open@[i] == q);
                }
            }
        }
        proof {
            lemma_tree_grows(sv2, pv1, sv2, pv3, start);
            assert forall|q: TilePos| open_before.contains(q) && q != node implies open@.contains(q) by {
                if adjacents@.len() == 0 {
                }
            }
        }
    }
    MazeSearch { order, seen, parent }
}


/// The two positions form a door of the room: the first lies in the room, the second holds a
/// passage tile, and there is no wall between them
pub open spec fn is_door(map: PassageMap, room: TileRect, door: (TilePos, TilePos)) -> bool {
    &&& room.contains(door.0)
    &&& map.spec_is_passageway(door.1)
    &&& map.spec_is_open_between(door.0, door.1)
}

/// The room has at least `n` different doors
pub open spec fn has_doors(map: PassageMap, room: TileRect, n: nat) -> bool {
    exists|s: Seq<(TilePos, TilePos)>|
        s.len() == n && s.no_duplicates() && forall|k: int| 0 <= k < s.len() ==> #[trigger] is_door(map, room, s[k])
}

/// The two positions form a door, one way or the other, of one of the rooms
pub open spec fn is_room_door(map: PassageMap, rooms: Seq<(RoomId, TileRect)>, a: TilePos, b: TilePos) -> bool {
    exists|i: int| 0 <= i < rooms.len() && #[trigger] is_door_either_way(map, rooms[i].1, a, b)
}

/// The two positions form a door of the room, one way or the other
pub open spec fn is_door_either_way(map: PassageMap, room: TileRect, a: TilePos, b: TilePos) -> bool {
    is_door(map, room, (a, b)) || is_door(map, room, (b, a))
}

/// In `order`, the `j`th tile comes before the `k`th and no wall stands between them
pub open spec fn earlier_link(map: PassageMap, order: Seq<TilePos>, j: int, k: int) -> bool {
    &&& 0 <= j < k < order.len()
    &&& map.spec_is_open_between(order[j], order[k])
}

/// The `k`th tile of `order` has no wall towards some tile listed before it
pub open spec fn has_earlier_link(map: PassageMap, order: Seq<TilePos>, k: int) -> bool {
    exists|j: int| #[trigger] earlier_link(map, order, j, k)
}

/// The tiles that `after` holds in the cells that were empty in `before`, listed in `order` from
/// `start` on, hang together as a tree: each tile after the first has an open wall towards exactly
/// one tile listed before it, and none of them has an open wall towards a tile that was there
/// before
pub open spec fn maze_tree(before: PassageMap, after: PassageMap, start: TilePos, order: Seq<TilePos>) -> bool {
    &&& order.len() > 0
    &&& order[0] == start
    &&& order.no_duplicates()
    &&& forall|k: int| 0 <= k < order.len() ==> before.in_bounds(#[trigger] order[k])
    &&& forall|p: TilePos| before.in_bounds(p) ==> (#[trigger] order.contains(p) <==> (before.cell(p) is None
        && after.cell(p) is Some))
    &&& forall|k: int| 0 < k < order.len() ==> #[trigger] has_earlier_link(after, order, k)
    &&& forall|j1: int, j2: int, k: int| #[trigger] earlier_link(after, order, j1, k) && #[trigger] earlier_link(after, order, j2, k)
        ==> j1 == j2
    &&& forall|p: TilePos, q: TilePos| order.contains(p) && #[trigger] after.spec_is_open_between(p, q) ==> order.contains(q)
}

/// The tiles of `order`, listed from `start` on, were cells empty in `before` that hold a tile in
/// `after`, and hang together as a tree that no open wall leaves: each tile after the first has
/// an open wall towards exactly one tile listed before it, and every open wall of theirs leads to
/// another of them
pub open spec fn region_tree(before: PassageMap, after: PassageMap, start: TilePos, order: Seq<TilePos>) -> bool {
    &&& order.len() > 0
    &&& order[0] == start
    &&& order.no_duplicates()
    &&& forall|k: int| 0 <= k < order.len() ==> {
        let p = #[trigger] order[k];
        &&& before.in_bounds(p)
        &&& before.cell(p) is None
        &&& after.cell(p) is Some
    }
    &&& forall|k: int| 0 < k < order.len() ==> #[trigger] has_earlier_link(after, order, k)
    &&& forall|j1: int, j2: int, k: int| #[trigger] earlier_link(after, order, j1, k) && #[trigger] earlier_link(after, order, j2, k)
        ==> j1 == j2
    &&& forall|p: TilePos, q: TilePos| order.contains(p) && #[trigger] after.spec_is_open_between(p, q) ==> order.contains(q)
}

/// The tiles of a maze grown into a map make a region tree of any earlier map whose tiles the
/// map kept
proof fn lemma_region_from_maze(before: PassageMap, m1: PassageMap, m2: PassageMap, start: TilePos, order: Seq<TilePos>)
    requires
        maze_tree(m1, m2, start, order),
        m1.nrows() == before.nrows(),
        m1.ncols() == before.ncols(),
        forall|p: TilePos| #[trigger] before.in_bounds(p) && before.cell(p) is Some ==> m1.cell(p) == before.cell(p),
    ensures
        region_tree(before, m2, start, order),
{
    assert forall|k: int| 0 <= k < order.len() implies {
        let p = #[trigger] order[k];
        &&& before.in_bounds(p)
        &&& before.cell(p) is None
        &&& m2.cell(p) is Some
    } by {
        let p = order[k];
        assert(m1.in_bounds(p));
        assert(order.contains(p));
        assert(before.in_bounds(p));
    }
}

/// A region tree stays one while only empty cells are filled
proof fn lemma_region_tree_kept(before: PassageMap, m1: PassageMap, m2: PassageMap, start: TilePos, order: Seq<TilePos>)
    requires
        region_tree(before, m1, start, order),
        m1.valid(),
        m1.nrows() == before.nrows(),
        m1.ncols() == before.ncols(),
        m2.nrows() == m1.nrows(),
        m2.ncols() == m1.ncols(),
        forall|p: TilePos| m1.in_bounds(p) && #[trigger] m1.cell(p) is Some ==> m2.cell(p) == m1.cell(p),
    ensures
        region_tree(before, m2, start, order),
{
    assert forall|k: int| 0 <= k < order.len() implies {
        let p = #[trigger] order[k];
        &&& before.in_bounds(p)
        &&& before.cell(p) is None
        &&& m2.cell(p) is Some
    } by {
        assert(m1.cell(order[k]) is Some);
    }
    assert forall|j: int, k: int| #[trigger] earlier_link(m2, order, j, k) == earlier_link(m1, order, j, k) by {
        if 0 <= j < k < order.len() {
            assert(m1.cell(order[j]) is Some);
            assert(m1.cell(order[k]) is Some);
        }
    }
    assert forall|k: int| 0 < k < order.len() implies #[trigger] has_earlier_link(m2, order, k) by {
        assert(has_earlier_link(m1, order, k));
        let j = choose|j: int| #[trigger] earlier_link(m1, order, j, k);
        assert(earlier_link(m2, order, j, k));
    }
    assert forall|p: TilePos, q: TilePos| order.contains(p) && #[trigger] m2.spec_is_open_between(p, q) implies order.contains(q) by {
        let k = choose|k: int| 0 <= k < order.len() && order[k] == p;
        assert(m1.cell(p) is Some);
        m1.lemma_size_fits();
        lemma_direction_step(p, q, m1.nrows() as int, m1.ncols() as int);
        let d = direction_to(p, q).unwrap();
        assert(m1.next_to(p, d) == Some(q));
        assert(m1.consistent_at(p, d));
        assert(m1.cell(q) is Some);
        assert(m1.spec_is_open_between(p, q));
    }
}

/// The tile lies on one of the outer rows or columns of the room
pub open spec fn on_room_edge(room: TileRect, p: TilePos) -> bool {
    &&& room.contains(p)
    &&& (p.row == room.top_left.row || p.row == room.last_row() || p.col == room.top_left.col || p.col
        == room.last_col())
}

/// Some tile of the given row of the room has a door onto a passage
pub open spec fn door_on_room_row(map: PassageMap, room: TileRect, row: usize) -> bool {
    exists|c: int| 0 <= c < room.dim.cols && #[trigger] map.spec_has_open_passage(
        TilePos { row, col: (room.top_left.col + c) as usize },
    )
}

/// Some tile of the given column of the room has a door onto a passage
pub open spec fn door_on_room_col(map: PassageMap, room: TileRect, col: usize) -> bool {
    exists|c: int| 0 <= c < room.dim.rows && #[trigger] map.spec_has_open_passage(
        TilePos { row: (room.top_left.row + c) as usize, col },
    )
}

/// A door of the room that `after` has and `before` did not: from a tile on the edge of the room
/// that is not one of its corners, onto a passage that is not on the edge of the map
pub open spec fn is_new_door(before: PassageMap, after: PassageMap, room: TileRect, door: (TilePos, TilePos)) -> bool {
    &&& is_door(after, room, door)
    &&& on_room_edge(room, door.0)
    &&& !room.spec_is_corner(door.0)
    &&& !on_map_edge(after, door.1)
    &&& !before.spec_is_open_between(door.0, door.1)
}

/// The tile lies on the outermost ring of tiles of the map
pub open spec fn on_map_edge(map: PassageMap, p: TilePos) -> bool {
    p.row == 0 || p.col == 0 || p.row + 1 == map.nrows() || p.col + 1 == map.ncols()
}

/// `s` lists, once each, every wall from a tile of the room that is open in `after` and was not
/// in `before`; each of them is a new door of the room, and when `apart` no two of them share a
/// row or a column
pub open spec fn lists_new_doors(
    before: PassageMap,
    after: PassageMap,
    room: TileRect,
    s: Seq<(TilePos, TilePos)>,
    apart: bool,
) -> bool {
    &&& s.no_duplicates()
    &&& forall|k: int| 0 <= k < s.len() ==> #[trigger] is_new_door(before, after, room, s[k])
    &&& forall|a: TilePos, b: TilePos|
        room.contains(a) && #[trigger] after.spec_is_open_between(a, b) && !before.spec_is_open_between(a, b)
            ==> s.contains((a, b))
    &&& apart ==> doors_apart(s)
}

/// No two of the doors start from tiles in the same row or the same column
pub open spec fn doors_apart(s: Seq<(TilePos, TilePos)>) -> bool {
    forall|k: int, l: int| #![trigger s[k], s[l]] 0 <= k < l < s.len() ==> s[k].0.row != s[l].0.row && s[k].0.col
        != s[l].0.col
}

/// From `before` to `after` the room gained exactly `n` doors (see `lists_new_doors`)
pub open spec fn gains_doors(before: PassageMap, after: PassageMap, room: TileRect, n: nat, apart: bool) -> bool {
    exists|s: Seq<(TilePos, TilePos)>| s.len() == n && #[trigger] lists_new_doors(before, after, room, s, apart)
}

/// No two rooms share an identifier
pub open spec fn distinct_room_ids(rooms: Seq<(RoomId, TileRect)>) -> bool {
    forall|i: int, j: int| 0 <= i < rooms.len() && 0 <= j < rooms.len() && i != j ==> #[trigger] rooms[i].0
        != #[trigger] rooms[j].0
}

/// A door leads onto a passage
proof fn lemma_door_has_open_passage(map: PassageMap, room: TileRect, door: (TilePos, TilePos))
    requires
        map.valid(),
        is_door(map, room, door),
    ensures
        map.spec_has_open_passage(door.0),
{
    map.lemma_size_fits();
    lemma_direction_step(door.0, door.1, map.nrows() as int, map.ncols() as int);
    let d = direction_to(door.0, door.1).unwrap();
    assert(map.next_to(door.0, d) == Some(door.1));
}

/// The doors a room gained stay as they are while walls from its tiles stay shut
proof fn lemma_gains_kept(before: PassageMap, m1: PassageMap, m2: PassageMap, room: TileRect, n: nat, apart: bool)
    requires
        only_opens(m1, m2),
        gains_doors(before, m1, room, n, apart),
        forall|a: TilePos, b: TilePos| room.contains(a) && #[trigger] m2.spec_is_open_between(a, b)
            ==> m1.spec_is_open_between(a, b),
    ensures
        gains_doors(before, m2, room, n, apart),
{
    let s = choose|s: Seq<(TilePos, TilePos)>| s.len() == n && #[trigger] lists_new_doors(before, m1, room, s, apart);
    assert forall|k: int| 0 <= k < s.len() implies #[trigger] is_new_door(before, m2, room, s[k]) by {
        assert(is_new_door(before, m1, room, s[k]));
        assert(m1.in_bounds(s[k].1));
    }
    assert(lists_new_doors(before, m2, room, s, apart));
}

/// The second map holds the same tiles as the first, and every wall open in the first is open
/// in the second
pub open spec fn only_opens(before: PassageMap, after: PassageMap) -> bool {
    &&& after.valid()
    &&& after.nrows() == before.nrows()
    &&& after.ncols() == before.ncols()
    &&& forall|p: TilePos| #[trigger] before.in_bounds(p) ==> {
        &&& (after.cell(p) is Some <==> before.cell(p) is Some)
        &&& before.cell(p) is Some ==> after.cell(p).unwrap().ttype == before.cell(p).unwrap().ttype
    }
    &&& forall|a: TilePos, b: TilePos| #[trigger] before.spec_is_open_between(a, b) ==> after.spec_is_open_between(a, b)
}

/// Doors stay doors while walls are only opened
proof fn lemma_doors_stay(before: PassageMap, after: PassageMap, room: TileRect, n: nat)
    requires
        only_opens(before, after),
        has_doors(before, room, n),
    ensures
        has_doors(after, room, n),
{
    let s = choose|s: Seq<(TilePos, TilePos)>|
        s.len() == n && s.no_duplicates() && forall|k: int| 0 <= k < s.len() ==> #[trigger] is_door(before, room, s[k]);
    assert forall|k: int| 0 <= k < s.len() implies #[trigger] is_door(after, room, s[k]) by {
        assert(is_door(before, room, s[k]));
        assert(before.in_bounds(s[k].1));
    }
}

/// Opening walls step by step only opens walls
proof fn lemma_only_opens_trans(a: PassageMap, b: PassageMap, c: PassageMap)
    requires
        only_opens(a, b),
        only_opens(b, c),
    ensures
        only_opens(a, c),
{
    assert forall|p: TilePos| #[trigger] a.in_bounds(p) implies {
        &&& (c.cell(p) is Some <==> a.cell(p) is Some)
        &&& a.cell(p) is Some ==> c.cell(p).unwrap().ttype == a.cell(p).unwrap().ttype
    } by {
        assert(b.in_bounds(p));
    }
}

/// A door of a room stays a door while walls are only opened
proof fn lemma_room_door_stays(before: PassageMap, after: PassageMap, rooms: Seq<(RoomId, TileRect)>, a: TilePos, b: TilePos)
    requires
        only_opens(before, after),
        is_room_door(before, rooms, a, b),
    ensures
        is_room_door(after, rooms, a, b),
{
    let i = choose|i: int| 0 <= i < rooms.len() && #[trigger] is_door_either_way(before, rooms[i].1, a, b);
    assert(before.in_bounds(a) && before.in_bounds(b));
    assert(is_door_either_way(after, rooms[i].1, a, b));
}

/// The doors of the rooms already given doors stay while walls are only opened
proof fn lemma_rooms_keep_doors(before: PassageMap, after: PassageMap, rooms: Seq<(RoomId, TileRect)>, i: int, n: nat)
    requires
        only_opens(before, after),
        forall|j: int| 0 <= j < i ==> has_doors(before, #[trigger] rooms[j].1, n),
    ensures
        forall|j: int| 0 <= j < i ==> has_doors(after, #[trigger] rooms[j].1, n),
{
    assert forall|j: int| 0 <= j < i implies has_doors(after, #[trigger] rooms[j].1, n) by {
        lemma_doors_stay(before, after, rooms[j].1, n);
    }
}


/// The second map holds the tiles of the first but for some passage tiles taken away, and every
/// wall open in the second was open in the first
pub open spec fn only_closes(before: PassageMap, after: PassageMap) -> bool {
    &&& after.valid()
    &&& after.nrows() == before.nrows()
    &&& after.ncols() == before.ncols()
    &&& forall|p: TilePos| #[trigger] before.in_bounds(p) ==> {
        &&& after.cell(p) is Some ==> before.cell(p) is Some && after.cell(p).unwrap().ttype == before.cell(p).unwrap().ttype
        &&& before.cell(p) is Some && after.cell(p) is None ==> before.spec_is_passageway(p)
    }
    &&& forall|a: TilePos, b: TilePos| #[trigger] after.spec_is_open_between(a, b) ==> before.spec_is_open_between(a, b)
}

/// Taking away tiles step by step only takes away tiles
proof fn lemma_only_closes_trans(a: PassageMap, b: PassageMap, c: PassageMap)
    requires
        only_closes(a, b),
        only_closes(b, c),
    ensures
        only_closes(a, c),
{
    assert forall|p: TilePos| #[trigger] a.in_bounds(p) implies {
        &&& c.cell(p) is Some ==> a.cell(p) is Some && c.cell(p).unwrap().ttype == a.cell(p).unwrap().ttype
        &&& a.cell(p) is Some && c.cell(p) is None ==> a.spec_is_passageway(p)
    } by {
        assert(b.in_bounds(p));
    }
}

/// Taking away one passage tile only takes away tiles
proof fn lemma_removal_only_closes(before: PassageMap, after: PassageMap, p: TilePos)
    requires
        before.valid(),
        after.valid(),
        after.nrows() == before.nrows(),
        after.ncols() == before.ncols(),
        before.in_bounds(p),
        before.spec_is_passageway(p),
        after.cell(p) is None,
        forall|q: TilePos| #[trigger] before.in_bounds(q) && q != p ==> after.cell(q) == match direction_to(q, p) {
            Some(d) => closed_side(before.cell(q), d),
            None => before.cell(q),
        },
    ensures
        only_closes(before, after),
{
    assert forall|a: TilePos, b: TilePos| #[trigger] after.spec_is_open_between(a, b) implies before.spec_is_open_between(a, b) by {
        assert(before.in_bounds(a) && before.in_bounds(b));
        assert(a != p && b != p);
        let d = direction_to(a, b).unwrap();
        assert(before.cell(a) is Some && before.cell(b) is Some);
        match direction_to(a, p) {
            Some(e) => {
                assert(e != d);
                assert(wall_in(after.cell(a).unwrap().walls, d) == wall_in(before.cell(a).unwrap().walls, d));
            },
            None => {},
        }
    }
}

/// The position comes before the given row and column, row by row
pub open spec fn comes_before(p: TilePos, row: int, col: int) -> bool {
    p.row < row || (p.row == row && p.col < col)
}


/// The rooms are numbered in order, each lies within a map of the given size with room for a
/// wall of passages on its right and bottom, and no room comes within `margin` tiles of another
pub open spec fn rooms_placed(rooms: Seq<(RoomId, TileRect)>, nrows: int, ncols: int, margin: usize) -> bool {
    &&& forall|i: int| 0 <= i < rooms.len() ==> #[trigger] room_fits(rooms, i, nrows, ncols)
    &&& forall|i: int, j: int| 0 <= i < j < rooms.len() ==> #[trigger] rooms_apart(rooms, i, j, margin)
}

/// The room is numbered by its place in the list and lies within a map of the given size with
/// room for a wall of passages on its right and bottom
pub open spec fn room_fits(rooms: Seq<(RoomId, TileRect)>, i: int, nrows: int, ncols: int) -> bool {
    let room = rooms[i].1;
    &&& rooms[i].0 == RoomId(i as usize)
    &&& room.top_left.row + room.dim.rows < nrows
    &&& room.top_left.col + room.dim.cols < ncols
}

/// The later room comes no closer than `margin` tiles to the earlier one
pub open spec fn rooms_apart(rooms: Seq<(RoomId, TileRect)>, i: int, j: int, margin: usize) -> bool {
    &&& !rooms[j].1.overlaps(rooms[i].1.spec_expand(margin))
    &&& !rooms[j].1.overlaps(rooms[i].1)
}

/// A rectangle grown by a margin still covers every tile of the rectangle
proof fn lemma_expand_covers(a: TileRect, b: TileRect, margin: usize)
    requires
        a.overlaps(b),
        b.dim.rows + 2 * margin <= usize::MAX,
        b.dim.cols + 2 * margin <= usize::MAX,
    ensures
        a.overlaps(b.spec_expand(margin)),
{
}

/// The positions of the sequence that hold passage tiles, in order
pub open spec fn passages_among(map: PassageMap, s: Seq<TilePos>) -> Seq<TilePos>
    decreases s.len(),
{
    if s.len() == 0 {
        Seq::empty()
    } else if map.spec_is_passageway(s.last()) {
        passages_among(map, s.drop_last()).push(s.last())
    } else {
        passages_among(map, s.drop_last())
    }
}

/// The settings of the maze generator
#[derive(Debug, Clone, Copy)]
pub struct MapGenerator {
    /// The number of attempts before giving up on placing something randomly
    pub attempts: usize,
    /// The number of levels to generate
    pub levels: usize,
    /// The number of rows of tiles in the entire world (bound on the size of the map)
    pub rows: usize,
    /// The number of columns of tiles in the entire world (bound on the size of the map)
    pub cols: usize,
    /// The number of rooms to generate on each floor
    pub rooms: usize,
    /// The minimum and maximum width (in tiles) of a room
    pub room_width: Bounds,
    /// The minimum and maximum height (in tiles) of a room
    pub room_height: Bounds,
    /// The width of the passageways between rooms.
    /// Used to calculate the minimum distance between adjacent rooms
    pub passage_size: usize,
    /// The number of doors to generate on each room
    pub doors: usize,
    /// The number of tiles that take you to the next level/prev level
    pub next_prev_tiles: usize,
}

impl MapGenerator {
    /// Fills the empty cells that can be reached from `start` through empty cells with a maze of
    /// passages: every cell of the maze can be reached from every other along exactly one path,
    /// found by a depth first search that goes on from each cell in a random direction
    pub fn generate_maze(&self, rng: &mut StdRng, map: &mut PassageMap, start: TilePos)
        requires
            self.passage_size == 1,
            old(map).valid(),
            old(map).in_bounds(start),
            old(map).cell(start) is None,
        ensures
            final(map).valid(),
            final(map).nrows() == old(map).nrows(),
            final(map).ncols() == old(map).ncols(),
            // the tiles that were there stay as they were
            forall|p: TilePos| old(map).in_bounds(p) && #[trigger] old(map).cell(p) is Some ==> final(map).cell(p)
                == old(map).cell(p),
            final(map).cell(start) is Some,
            // every new tile is a passage that can be reached from the start
            forall|p: TilePos|
                old(map).in_bounds(p) && old(map).cell(p) is None && #[trigger] final(map).cell(p) is Some ==> {
                    &&& final(map).cell(p).unwrap().ttype == TileType::Passageway
                    &&& linked(final(map).open_edge(), start, p)
                },
            // the maze spreads as far as it can: no empty cell is left next to it
            forall|p: TilePos, d: Direction|
                old(map).in_bounds(p) && old(map).cell(p) is None && final(map).cell(p) is Some
                    && #[trigger] final(map).next_to(p, d) is Some ==> final(map).cell(final(map).next_to(p, d).unwrap()) is Some,
            // the new tiles hang together as a tree
            exists|order: Seq<TilePos>| #[trigger] maze_tree(*old(map), *final(map), start, order),
    {
        let ghost before = *map;
        let search = search_empty(map, rng, start);
        let order = search.order;
        let parent = search.parent;
        let ghost sv = rows_view(&search.seen);
        let ghost pv = rows_view(&parent);

        // Insert new passageway tiles
        let mut k: usize = 0;
        while k < order.len()
            invariant
                map.valid(),
                map.nrows() == before.nrows(),
                map.ncols() == before.ncols(),
                k <= order@.len(),
                order@.no_duplicates(),
                forall|j: int| 0 <= j < order@.len() ==> {
                    let p = #[trigger] order@[j];
                    &&& before.in_bounds(p)
                    &&& before.cell(p) is None
                },
                forall|j: int| 0 <= j < k ==> #[trigger] map.cell(order@[j]) == Some(closed_cell(TileType::Passageway)),
                forall|p: TilePos| before.in_bounds(p) && !order@.subrange(0, k as int).contains(p) ==> #[trigger] map.cell(p)
                    == before.cell(p),
            decreases order@.len() - k,
        {
            let p = order[k];
            proof {
                if order@.subrange(0, k as int).contains(p) {
                    let i = choose|i: int| 0 <= i < k && order@.subrange(0, k as int)[i] == p;
                    assert(order@[i] == order@[k as int]);
                }
            }
            map.place_tile(p, TileType::Passageway);
            proof {
                assert forall|q: TilePos| before.in_bounds(q) && !order@.subrange(0, k + 1).contains(q) implies #[trigger] map.cell(q)
                    == before.cell(q) by {
                    assert(q != p) by {
                        assert(order@.subrange(0, k + 1)[k as int] == p);
                    }
                    if order@.subrange(0, k as int).contains(q) {
                        let i = choose|i: int| 0 <= i < k && order@.subrange(0, k as int)[i] == q;
                        assert(order@.subrange(0, k + 1)[i] == q);
                    }
                }
                assert forall|j: int| 0 <= j < k + 1 implies #[trigger] map.cell(order@[j]) == Some(closed_cell(TileType::Passageway)) by {
                    if j < k {
                        assert(order@[j] != p);
                    }
                }
            }
            k += 1;
        }
        proof {
            assert(order@.subrange(0, order@.len() as int) =~= order@);
            assert forall|x: TilePos, y: TilePos| #[trigger] map.spec_is_open_between(x, y) && (order@.contains(x)
                || order@.contains(y)) implies at(pv, y) == Some(x) || at(pv, x) == Some(y) by {
                lemma_open_symmetric(map, x, y);
                if order@.contains(x) {
                    let j = choose|j: int| 0 <= j < order@.len() && order@[j] == x;
                    assert(map.cell(order@[j]) == Some(closed_cell(TileType::Passageway)));
                } else {
                    let j = choose|j: int| 0 <= j < order@.len() && order@[j] == y;
                    assert(map.cell(order@[j]) == Some(closed_cell(TileType::Passageway)));
                }
            }
        }

        // Place all of the found paths onto the tiles by opening the walls between each cell and
        // the cell it was reached from
        let mut k: usize = 0;
        while k < order.len()
            invariant
                map.valid(),
                map.nrows() == before.nrows(),
                map.ncols() == before.ncols(),
                k <= order@.len(),
                shaped(pv, before.nrows() as int, before.ncols() as int),
                pv == rows_view(&parent),
                forall|j: int| 0 <= j < order@.len() ==> {
                    let p = #[trigger] order@[j];
                    &&& before.in_bounds(p)
                    &&& before.cell(p) is None
                    &&& at(sv, p)
                },
                forall|p: TilePos| before.in_bounds(p) && #[trigger] at(sv, p) ==> order@.contains(p),
                forall|p: TilePos| before.in_bounds(p) && #[trigger] at(pv, p) is Some ==> {
                    let a = at(pv, p).unwrap();
                    &&& before.in_bounds(a)
                    &&& at(sv, a)
                    &&& direction_to(a, p) is Some
                },
                forall|j: int| 0 <= j < order@.len() ==> #[trigger] map.cell(order@[j]) is Some
                    && map.cell(order@[j]).unwrap().ttype == TileType::Passageway,
                forall|p: TilePos| before.in_bounds(p) && !order@.contains(p) ==> #[trigger] map.cell(p) == before.cell(p),
                forall|j: int| 0 <= j < k && #[trigger] at(pv, order@[j]) is Some ==> map.spec_is_open_between(
                    at(pv, order@[j]).unwrap(),
                    order@[j],
                ),
                forall|x: TilePos, y: TilePos| #[trigger] map.spec_is_open_between(x, y) && (order@.contains(x)
                    || order@.contains(y)) ==> at(pv, y) == Some(x) || at(pv, x) == Some(y),
            decreases order@.len() - k,
        {
            let p = order[k];
            proof {
                assert(rows_view(&parent)[p.row as int] == parent@[p.row as int]@);
            }
            match parent[p.row][p.col] {
                Some(a) => {
                    let ghost m1 = *map;
                    proof {
                        assert(at(pv, p) == Some(a));
                        assert(order@.contains(a));
                        let i = choose|i: int| 0 <= i < order@.len() && order@[i] == a;
                        assert(map.cell(order@[i]) is Some);
                    }
                    map.open_between(p, a);
                    proof {
                        assert forall|j: int| 0 <= j < order@.len() implies #[trigger] map.cell(order@[j]) is Some
                            && map.cell(order@[j]).unwrap().ttype == TileType::Passageway by {
                            assert(m1.cell(order@[j]) is Some);
                        }
                        assert forall|q: TilePos| before.in_bounds(q) && !order@.contains(q) implies #[trigger] map.cell(q)
                            == before.cell(q) by {
                            assert(q != p) by {
                                assert(order@[k as int] == p);
                            }
                            assert(q != a) by {
                                let i = choose|i: int| 0 <= i < order@.len() && order@[i] == a;
                            }
                            assert(m1.cell(q) == before.cell(q));
                        }
                        assert forall|j: int| 0 <= j < k + 1 && #[trigger] at(pv, order@[j]) is Some implies map.spec_is_open_between(
                            at(pv, order@[j]).unwrap(),
                            order@[j],
                        ) by {
                            if j < k {
                                assert(m1.spec_is_open_between(at(pv, order@[j]).unwrap(), order@[j]));
                            }
                        }
                        assert forall|x: TilePos, y: TilePos| #[trigger] map.spec_is_open_between(x, y) && (order@.contains(x)
                            || order@.contains(y)) implies at(pv, y) == Some(x) || at(pv, x) == Some(y) by {
                            if !m1.spec_is_open_between(x, y) {
                                assert((x == p && y == a) || (x == a && y == p));
                            }
                        }
                    }
                },
                None => {},
            }
            k += 1;
        }
        proof {
            let tree = tree_edge(sv, pv);
            let open = map.open_edge();
            assert forall|x: TilePos, y: TilePos| #[trigger] tree(x, y) implies open(x, y) by {
                assert(before.in_bounds(y));
                assert(order@.contains(y));
                let j = choose|j: int| 0 <= j < order@.len() && order@[j] == y;
                assert(at(pv, order@[j]) is Some);
            }
            assert forall|p: TilePos|
                before.in_bounds(p) && before.cell(p) is None && #[trigger] map.cell(p) is Some implies {
                    &&& map.cell(p).unwrap().ttype == TileType::Passageway
                    &&& linked(map.open_edge(), start, p)
                } by {
                assert(order@.contains(p));
                let j = choose|j: int| 0 <= j < order@.len() && order@[j] == p;
                assert(at(sv, order@[j]));
                lemma_linked_mono(tree, open, start, p);
            }
            assert(order@.contains(start));
            let j0 = choose|j: int| 0 <= j < order@.len() && order@[j] == start;
            assert(map.cell(order@[j0]) is Some);
            assert forall|p: TilePos| before.in_bounds(p) && #[trigger] before.cell(p) is Some implies map.cell(p)
                == before.cell(p) by {
                if order@.contains(p) {
                    let j = choose|j: int| 0 <= j < order@.len() && order@[j] == p;
                }
            }
            Self::lemma_maze_is_tree(before, *map, start, order@, sv, pv);
            assert forall|p: TilePos, d: Direction|
                before.in_bounds(p) && before.cell(p) is None && map.cell(p) is Some
                    && #[trigger] map.next_to(p, d) is Some implies map.cell(map.next_to(p, d).unwrap()) is Some by {
                let q = map.next_to(p, d).unwrap();
                before.lemma_size_fits();
                lemma_step_back(p, d, before.nrows() as int, before.ncols() as int);
                assert(order@.contains(p));
                let j = choose|j: int| 0 <= j < order@.len() && order@[j] == p;
                assert(at(sv, order@[j]));
                assert(before.next_to(p, d) == Some(q));
                if before.cell(q) is None {
                    assert(at(sv, q));
                    assert(order@.contains(q));
                    let i = choose|i: int| 0 <= i < order@.len() && order@[i] == q;
                    assert(map.cell(order@[i]) is Some);
                } else if order@.contains(q) {
                    let i = choose|i: int| 0 <= i < order@.len() && order@[i] == q;
                }
            }
        }
    }

    /// The tiles of a maze, placed in the order in which they were reached and joined each to the
    /// tile it was reached from, hang together as a tree
    proof fn lemma_maze_is_tree(
        before: PassageMap,
        after: PassageMap,
        start: TilePos,
        order: Seq<TilePos>,
        sv: Seq<Seq<bool>>,
        pv: Seq<Seq<Option<TilePos>>>,
    )
        requires
            after.valid(),
            after.nrows() == before.nrows(),
            after.ncols() == before.ncols(),
            order.len() > 0,
            order[0] == start,
            order.no_duplicates(),
            at(pv, start) is None,
            forall|k: int| 0 < k < order.len() ==> at(pv, #[trigger] order[k]) is Some && exists|j: int|
                0 <= j < k && order[j] == at(pv, order[k]).unwrap(),
            forall|j: int| 0 <= j < order.len() ==> {
                let p = #[trigger] order[j];
                &&& before.in_bounds(p)
                &&& before.cell(p) is None
            },
            forall|j: int| 0 <= j < order.len() ==> #[trigger] after.cell(order[j]) is Some,
            forall|p: TilePos| before.in_bounds(p) && !order.contains(p) ==> #[trigger] after.cell(p) == before.cell(p),
            forall|j: int| 0 <= j < order.len() && #[trigger] at(pv, order[j]) is Some ==> after.spec_is_open_between(
                at(pv, order[j]).unwrap(),
                order[j],
            ),
            forall|x: TilePos, y: TilePos| #[trigger] after.spec_is_open_between(x, y) && (order.contains(x)
                || order.contains(y)) ==> at(pv, y) == Some(x) || at(pv, x) == Some(y),
            forall|p: TilePos| before.in_bounds(p) && #[trigger] at(pv, p) is Some ==> before.cell(p) is None,
        ensures
            maze_tree(before, after, start, order),
    {
        assert forall|p: TilePos| before.in_bounds(p) implies (#[trigger] order.contains(p) <==> (before.cell(p) is None
            && after.cell(p) is Some)) by {
            if order.contains(p) {
                let j = choose|j: int| 0 <= j < order.len() && order[j] == p;
            }
        }
        assert forall|k: int| 0 < k < order.len() implies #[trigger] has_earlier_link(after, order, k) by {
            let j = choose|j: int| 0 <= j < k && order[j] == at(pv, order[k]).unwrap();
            assert(after.spec_is_open_between(at(pv, order[k]).unwrap(), order[k]));
            assert(earlier_link(after, order, j, k));
        }
        // a link to an earlier tile is the link to the tile it was reached from
        assert forall|j: int, k: int| #[trigger] earlier_link(after, order, j, k) implies at(pv, order[k]) == Some(order[j]) by {
            assert(order.contains(order[k]));
            if at(pv, order[j]) == Some(order[k]) {
                if j == 0 {
                    assert(at(pv, start) is None);
                } else {
                    let i = choose|i: int| 0 <= i < j && order[i] == at(pv, order[j]).unwrap();
                    assert(order[i] == order[k]);
                }
            }
        }
        assert forall|j1: int, j2: int, k: int| #[trigger] earlier_link(after, order, j1, k) && #[trigger] earlier_link(after, order, j2, k)
            implies j1 == j2 by {
            assert(order[j1] == order[j2]);
        }
        assert forall|p: TilePos, q: TilePos| order.contains(p) && #[trigger] after.spec_is_open_between(p, q) implies order.contains(q) by {
            assert(before.in_bounds(q));
            if !order.contains(q) {
                let j = choose|j: int| 0 <= j < order.len() && order[j] == p;
                assert(after.cell(q) == before.cell(q));
                if at(pv, p) == Some(q) {
                    if j == 0 {
                        assert(at(pv, start) is None);
                    } else {
                        let i = choose|i: int| 0 <= i < j && order[i] == at(pv, order[j]).unwrap();
                        assert(order.contains(order[i]));
                    }
                } else {
                    assert(at(pv, q) == Some(p));
                }
            }
        }
    }

    /// The rooms that a walk through the graph of rooms reaches from the room `start`, `start`
    /// included, found by a depth first search. The graph maps a room to the rooms next to it; a
    /// room that is not a key of the graph has no neighbours.
    pub fn rect_graph_depth_first_search(&self, graph: &HashMap<usize, Vec<usize>>, start: usize) -> (seen: HashSet<usize>)
        ensures
            forall|v: usize| #[trigger] seen@.contains(v) <==> linked(map_edge(graph@), start, v),
    {
        reachable_in_map(graph, start)
    }

    /// Fills every empty cell of the map with passages, one maze at a time: each region of empty
    /// cells becomes one maze, so that any two empty cells side by side end up joined by a path
    /// through open passages
    pub fn fill_passages(&self, rng: &mut StdRng, map: &mut PassageMap)
        requires
            old(map).valid(),
            old(map).nrows() == self.rows,
            old(map).ncols() == self.cols,
            self.passage_size >= 1,
            self.rows % self.passage_size == 0,
            self.cols % self.passage_size == 0,
            self.passage_size == 1 || forall|p: TilePos| old(map).in_bounds(p) ==> #[trigger] old(map).cell(p) is Some,
        ensures
            final(map).valid(),
            final(map).nrows() == old(map).nrows(),
            final(map).ncols() == old(map).ncols(),
            forall|p: TilePos| #[trigger] old(map).in_bounds(p) ==> {
                &&& final(map).cell(p) is Some
                &&& old(map).cell(p) is Some ==> final(map).cell(p) == old(map).cell(p)
                &&& old(map).cell(p) is None ==> final(map).cell(p).unwrap().ttype == TileType::Passageway
            },
            forall|p: TilePos, d: Direction|
                old(map).in_bounds(p) && old(map).cell(p) is None && #[trigger] old(map).next_to(p, d) is Some
                    && old(map).cell(old(map).next_to(p, d).unwrap()) is None ==> linked(
                    final(map).open_edge(),
                    p,
                    old(map).next_to(p, d).unwrap(),
                ),
            // each region of empty cells became one maze: a tree of passages that no open wall leaves
            forall|p: TilePos| old(map).in_bounds(p) && old(map).cell(p) is None ==> exists|s: TilePos, o: Seq<TilePos>|
                #[trigger] region_tree(*old(map), *final(map), s, o) && o.contains(p),
    {
        let ghost before = *map;
        let mut row_i: usize = 0;
        while row_i < self.rows
            invariant
                map.valid(),
                map.nrows() == before.nrows(),
                map.ncols() == before.ncols(),
                before.valid(),
                before.nrows() == self.rows,
                before.ncols() == self.cols,
                self.passage_size == 1 || forall|p: TilePos| before.in_bounds(p) ==> #[trigger] before.cell(p) is Some,
                row_i <= self.rows,
                forall|p: TilePos| #[trigger] before.in_bounds(p) ==> {
                    &&& p.row < row_i ==> map.cell(p) is Some
                    &&& before.cell(p) is Some ==> map.cell(p) == before.cell(p)
                    &&& before.cell(p) is None && map.cell(p) is Some ==> map.cell(p).unwrap().ttype == TileType::Passageway
                },
                forall|p: TilePos, d: Direction|
                    before.in_bounds(p) && before.cell(p) is None && #[trigger] before.next_to(p, d) is Some
                        && before.cell(before.next_to(p, d).unwrap()) is None && map.cell(p) is Some ==> linked(
                        map.open_edge(),
                        p,
                        before.next_to(p, d).unwrap(),
                    ),
                forall|p: TilePos| before.in_bounds(p) && before.cell(p) is None && #[trigger] map.cell(p) is Some ==> exists|
                    s: TilePos,
                    o: Seq<TilePos>,
                | #[trigger] region_tree(before, *map, s, o) && o.contains(p),
            decreases self.rows - row_i,
        {
            let mut col_i: usize = 0;
            while col_i < self.cols
                invariant
                    map.valid(),
                    map.nrows() == before.nrows(),
                    map.ncols() == before.ncols(),
                    before.valid(),
                    before.nrows() == self.rows,
                    before.ncols() == self.cols,
                    self.passage_size == 1 || forall|p: TilePos| before.in_bounds(p) ==> #[trigger] before.cell(p) is Some,
                    row_i < self.rows,
                    col_i <= self.cols,
                    forall|p: TilePos| #[trigger] before.in_bounds(p) ==> {
                        &&& (p.row < row_i || (p.row == row_i && p.col < col_i)) ==> map.cell(p) is Some
                        &&& before.cell(p) is Some ==> map.cell(p) == before.cell(p)
                        &&& before.cell(p) is None && map.cell(p) is Some ==> map.cell(p).unwrap().ttype == TileType::Passageway
                    },
                    forall|p: TilePos, d: Direction|
                        before.in_bounds(p) && before.cell(p) is None && #[trigger] before.next_to(p, d) is Some
                            && before.cell(before.next_to(p, d).unwrap()) is None && map.cell(p) is Some ==> linked(
                            map.open_edge(),
                            p,
                            before.next_to(p, d).unwrap(),
                        ),
                    forall|p: TilePos| before.in_bounds(p) && before.cell(p) is None && #[trigger] map.cell(p) is Some ==> exists|
                        s: TilePos,
                        o: Seq<TilePos>,
                    | #[trigger] region_tree(before, *map, s, o) && o.contains(p),
                decreases self.cols - col_i,
            {
                let pos = TilePos { row: row_i, col: col_i };
                if map.is_empty(pos) {
                    proof {
                        assert(before.in_bounds(pos));
                    }
                    let ghost m1 = *map;
                    self.generate_maze(rng, map, pos);
                    proof {
                        assert forall|p: TilePos| #[trigger] before.in_bounds(p) implies {
                            &&& (p.row < row_i || (p.row == row_i && p.col <= col_i)) ==> map.cell(p) is Some
                            &&& before.cell(p) is Some ==> map.cell(p) == before.cell(p)
                            &&& before.cell(p) is None && map.cell(p) is Some ==> map.cell(p).unwrap().ttype
                                == TileType::Passageway
                        } by {
                            assert(m1.in_bounds(p));
                            if m1.cell(p) is Some {
                                assert(map.cell(p) == m1.cell(p));
                            }
                        }
                        Self::lemma_maze_joins_neighbours(before, m1, *map, pos);
                        let m2 = *map;
                        let o2 = choose|o: Seq<TilePos>| #[trigger] maze_tree(m1, m2, pos, o);
                        lemma_region_from_maze(before, m1, m2, pos, o2);
                        assert forall|p: TilePos| before.in_bounds(p) && before.cell(p) is None && #[trigger] m2.cell(p) is Some implies exists|
                            s: TilePos,
                            o: Seq<TilePos>,
                        | #[trigger] region_tree(before, m2, s, o) && o.contains(p) by {
                            if m1.cell(p) is Some {
                                let (s1, o1) = choose|s: TilePos, o: Seq<TilePos>| #[trigger] region_tree(before, m1, s, o) && o.contains(p);
                                lemma_region_tree_kept(before, m1, m2, s1, o1);
                            } else {
                                assert(m1.in_bounds(p));
                                assert(o2.contains(p));
                            }
                        }
                    }
                }
                col_i += 1;
            }
            row_i += 1;
        }
    }

    /// After a maze is grown from `pos`, every empty cell of the first map that holds a tile is
    /// still joined to each of its empty neighbours
    proof fn lemma_maze_joins_neighbours(before: PassageMap, m1: PassageMap, m2: PassageMap, pos: TilePos)
        requires
            before.valid(),
            m1.valid(),
            m2.valid(),
            m1.nrows() == before.nrows() && m1.ncols() == before.ncols(),
            m2.nrows() == before.nrows() && m2.ncols() == before.ncols(),
            m1.in_bounds(pos),
            m1.cell(pos) is None,
            forall|p: TilePos| #[trigger] before.in_bounds(p) && before.cell(p) is Some ==> m1.cell(p) == before.cell(p),
            forall|p: TilePos| m1.in_bounds(p) && #[trigger] m1.cell(p) is Some ==> m2.cell(p) == m1.cell(p),
            forall|p: TilePos|
                m1.in_bounds(p) && m1.cell(p) is None && #[trigger] m2.cell(p) is Some ==> linked(m2.open_edge(), pos, p),
            forall|p: TilePos, d: Direction|
                m1.in_bounds(p) && m1.cell(p) is None && m2.cell(p) is Some && #[trigger] m2.next_to(p, d) is Some
                    ==> m2.cell(m2.next_to(p, d).unwrap()) is Some,
            forall|p: TilePos, d: Direction|
                before.in_bounds(p) && before.cell(p) is None && #[trigger] before.next_to(p, d) is Some
                    && before.cell(before.next_to(p, d).unwrap()) is None && m1.cell(p) is Some ==> linked(
                    m1.open_edge(),
                    p,
                    before.next_to(p, d).unwrap(),
                ),
        ensures
            forall|p: TilePos, d: Direction|
                before.in_bounds(p) && before.cell(p) is None && #[trigger] before.next_to(p, d) is Some
                    && before.cell(before.next_to(p, d).unwrap()) is None && m2.cell(p) is Some ==> linked(
                    m2.open_edge(),
                    p,
                    before.next_to(p, d).unwrap(),
                ),
    {
        lemma_open_edges_kept(&m1, &m2);
        lemma_open_edge_symmetric(&m2);
        before.lemma_size_fits();
        assert forall|p: TilePos, d: Direction|
            before.in_bounds(p) && before.cell(p) is None && #[trigger] before.next_to(p, d) is Some
                && before.cell(before.next_to(p, d).unwrap()) is None && m2.cell(p) is Some implies linked(
                m2.open_edge(),
                p,
                before.next_to(p, d).unwrap(),
            ) by {
            let q = before.next_to(p, d).unwrap();
            lemma_step_back(p, d, before.nrows() as int, before.ncols() as int);
            assert(q != p);
            if m1.cell(p) is Some {
                lemma_linked_mono(m1.open_edge(), m2.open_edge(), p, q);
            } else {
                assert(m2.next_to(p, d) == Some(q));
                assert(m2.cell(q) is Some);
                if m1.cell(q) is Some {
                    assert(before.next_to(q, opposite(d)) == Some(p));
                    assert(linked(m1.open_edge(), q, p));
                    lemma_linked_entered(m1.open_edge(), q, p);
                    let x = choose|x: TilePos| #[trigger] m1.open_edge()(x, p);
                    assert(m1.spec_is_open_between(x, p));
                    assert(false);
                }
                assert(linked(m2.open_edge(), pos, p));
                assert(linked(m2.open_edge(), pos, q));
                lemma_linked_sym(m2.open_edge(), pos, p);
                lemma_linked_trans(m2.open_edge(), p, pos, q);
            }
        }
    }

    /// Opens the wall between the room tile `pos` and the passage next to it, unless `pos` is a
    /// corner of the room, the passage lies on the edge of the map (the door would lead off it),
    /// the wall is already open or, when every room gets at most four doors, the room already has
    /// a door on the row or the column through `pos`. Returns whether it opened the wall
    pub fn try_door(&self, map: &mut PassageMap, room: TileRect, pos: TilePos, passage: TilePos) -> (r: bool)
        requires
            old(map).valid(),
            room.is_proper(),
            room.last_row() < old(map).nrows(),
            room.last_col() < old(map).ncols(),
            room.contains(pos),
            old(map).cell(pos) is Some,
            old(map).in_bounds(passage),
            direction_to(pos, passage) is Some,
            old(map).spec_is_passageway(passage),
        ensures
            r == (!room.spec_is_corner(pos) && !on_map_edge(*old(map), passage) && !old(map).spec_is_open_between(pos, passage) && !(self.doors <= 4 && (door_on_room_row(
                *old(map),
                room,
                pos.row,
            ) || door_on_room_col(*old(map), room, pos.col)))),
            r ==> wall_opened(*old(map), *final(map), pos, passage),
            !r ==> *final(map) == *old(map),
    {
        // Do not allow corners to be opened
        if room.is_corner(pos) {
            return false;
        }
        // Make sure that opening this passage doesn't lead off the edge
        proof {
            map.lemma_size_fits();
        }
        if passage.row == 0 || passage.col == 0 || passage.row + 1 == map.rows_len() || passage.col + 1 == map.cols_len() {
            return false;
        }
        // Already opened this tile
        if map.is_open_between(pos, passage) {
            return false;
        }
        // This check only works if we are putting fewer than 4 doors on every room.
        // Don't put a door on the same side of a room as another door: scan the row and
        // the column of the room through this tile for doors.
        if self.doors <= 4 {
            if Self::door_on_row(map, room, pos.row) {
                return false;
            }
            if Self::door_on_col(map, room, pos.col) {
                return false;
            }
        }
        map.open_between(pos, passage);
        true
    }

    /// Returns true if some tile of the given row of the room has a door onto a passage
    fn door_on_row(map: &PassageMap, room: TileRect, row: usize) -> (r: bool)
        requires
            map.valid(),
            room.is_proper(),
            room.top_left.row <= row <= room.last_row(),
            room.last_row() < map.nrows(),
            room.last_col() < map.ncols(),
        ensures
            r == exists|c: int| 0 <= c < room.dim.cols && #[trigger] map.spec_has_open_passage(
                TilePos { row, col: (room.top_left.col + c) as usize },
            ),
    {
        let mut c: usize = 0;
        while c < room.dim.cols
            invariant
                map.valid(),
                room.is_proper(),
                row < map.nrows(),
                room.last_col() < map.ncols(),
                c <= room.dim.cols,
                forall|j: int| 0 <= j < c ==> !#[trigger] map.spec_has_open_passage(
                    TilePos { row, col: (room.top_left.col + j) as usize },
                ),
            decreases room.dim.cols - c,
        {
            if map.has_open_passage(TilePos { row, col: room.top_left.col + c }) {
                return true;
            }
            c += 1;
        }
        false
    }

    /// Returns true if some tile of the given column of the room has a door onto a passage
    fn door_on_col(map: &PassageMap, room: TileRect, col: usize) -> (r: bool)
        requires
            map.valid(),
            room.is_proper(),
            room.top_left.col <= col <= room.last_col(),
            room.last_row() < map.nrows(),
            room.last_col() < map.ncols(),
        ensures
            r == exists|c: int| 0 <= c < room.dim.rows && #[trigger] map.spec_has_open_passage(
                TilePos { row: (room.top_left.row + c) as usize, col },
            ),
    {
        let mut c: usize = 0;
        while c < room.dim.rows
            invariant
                map.valid(),
                room.is_proper(),
                col < map.ncols(),
                room.last_row() < map.nrows(),
                c <= room.dim.rows,
                forall|j: int| 0 <= j < c ==> !#[trigger] map.spec_has_open_passage(
                    TilePos { row: (room.top_left.row + j) as usize, col },
                ),
            decreases room.dim.rows - c,
        {
            if map.has_open_passage(TilePos { row: room.top_left.row + c, col }) {
                return true;
            }
            c += 1;
        }
        false
    }

    /// Returns the passage tiles next to the given position, in the order north, west, south,
    /// east
    fn adjacent_passages(map: &PassageMap, pos: TilePos) -> (r: Vec<TilePos>)
        requires
            map.valid(),
            map.in_bounds(pos),
        ensures
            r@ == passages_among(*map, map.spec_adjacent_cells(pos)),
            forall|k: int| 0 <= k < r@.len() ==> {
                let q = #[trigger] r@[k];
                &&& map.in_bounds(q)
                &&& direction_to(pos, q) is Some
                &&& map.spec_is_passageway(q)
            },
    {
        let adjacents = map.adjacent_cells(pos);
        proof {
            lemma_adjacent_cells(map, pos);
            map.lemma_size_fits();
        }
        let mut r: Vec<TilePos> = Vec::new();
        let mut k: usize = 0;
        while k < adjacents.len()
            invariant
                map.valid(),
                map.in_bounds(pos),
                map.nrows() <= usize::MAX,
                map.ncols() <= usize::MAX,
                adjacents@ == map.spec_adjacent_cells(pos),
                forall|q: TilePos| #[trigger] map.spec_adjacent_cells(pos).contains(q) ==> exists|d: Direction| map.next_to(pos, d) == Some(q),
                k <= adjacents@.len(),
                r@ == passages_among(*map, adjacents@.take(k as int)),
                forall|j: int| 0 <= j < r@.len() ==> {
                    let q = #[trigger] r@[j];
                    &&& map.in_bounds(q)
                    &&& direction_to(pos, q) is Some
                    &&& map.spec_is_passageway(q)
                },
            decreases adjacents@.len() - k,
        {
            let q = adjacents[k];
            proof {
                assert(adjacents@.take(k + 1).drop_last() =~= adjacents@.take(k as int));
                assert(adjacents@.take(k + 1).last() == q);
            }
            proof {
                assert(adjacents@.contains(q));
                let d = choose|d: Direction| map.next_to(pos, d) == Some(q);
                lemma_step_back(pos, d, map.nrows() as int, map.ncols() as int);
            }
            if map.is_passageway(q) {
                r.push(q);
            }
            k += 1;
        }
        proof {
            assert(adjacents@.take(adjacents@.len() as int) =~= adjacents@);
        }
        r
    }

    /// Connects each room to the passages around it with `doors` doors: a door is opened between
    /// a random tile on the edge of the room, not one of its corners, and a passage tile next to
    /// it that is not on the edge of the map (see `try_door`). With at most four
    /// doors per room, no two doors are put in the same row or column of a room. A room that
    /// still lacks doors after `attempts + 1` tries ends the work with `RanOutOfAttempts`.
    pub fn connect_rooms_passages(
        &self,
        rng: &mut StdRng,
        map: &mut PassageMap,
        rooms: &Vec<(RoomId, TileRect)>,
    ) -> (r: Result<(), RanOutOfAttempts>)
        requires
            old(map).valid(),
            self.attempts < usize::MAX,
            forall|i: int| 0 <= i < rooms@.len() ==> {
                let room = #[trigger] rooms@[i].1;
                &&& room.is_proper()
                &&& room.last_row() < old(map).nrows()
                &&& room.last_col() < old(map).ncols()
            },
            forall|i: int, p: TilePos| 0 <= i < rooms@.len() && #[trigger] rooms@[i].1.contains(p) ==> {
                &&& old(map).cell(p) is Some
                &&& old(map).cell(p).unwrap().ttype == TileType::Room(rooms@[i].0)
            },
        ensures
            only_opens(*old(map), *final(map)),
            forall|a: TilePos, b: TilePos| #[trigger] final(map).spec_is_open_between(a, b) && !old(map).spec_is_open_between(a, b)
                ==> is_room_door(*final(map), rooms@, a, b),
            r is Ok ==> forall|i: int| 0 <= i < rooms@.len() ==> has_doors(*final(map), #[trigger] rooms@[i].1, self.doors as nat),
            // each room gained exactly `doors` doors from tiles on its edge, none from a corner
            // and none onto the edge of the map, apart from one another when there are at most four
            r is Ok && distinct_room_ids(rooms@) ==> forall|i: int| 0 <= i < rooms@.len() ==> gains_doors(
                *old(map),
                *final(map),
                #[trigger] rooms@[i].1,
                self.doors as nat,
                self.doors <= 4,
            ),
            // with no rooms or no doors to give, there is nothing to do
            rooms@.len() == 0 || self.doors == 0 ==> r is Ok && *final(map) == *old(map),
    {
        let ghost before = *map;
        let mut i: usize = 0;
        while i < rooms.len()
            invariant
                0 <= i <= rooms@.len(),
                self.attempts < usize::MAX,
                before == *old(map),
                before.valid(),
                only_opens(before, *map),
                rooms@.len() == 0 || self.doors == 0 ==> *map == before,
                forall|i: int| 0 <= i < rooms@.len() ==> {
                    let room = #[trigger] rooms@[i].1;
                    &&& room.is_proper()
                    &&& room.last_row() < before.nrows()
                    &&& room.last_col() < before.ncols()
                },
                forall|i: int, p: TilePos| 0 <= i < rooms@.len() && #[trigger] rooms@[i].1.contains(p) ==> {
                    &&& before.cell(p) is Some
                    &&& before.cell(p).unwrap().ttype == TileType::Room(rooms@[i].0)
                },
                forall|a: TilePos, b: TilePos| #[trigger] map.spec_is_open_between(a, b) && !before.spec_is_open_between(a, b)
                    ==> is_room_door(*map, rooms@, a, b),
                forall|j: int| 0 <= j < i ==> has_doors(*map, #[trigger] rooms@[j].1, self.doors as nat),
                distinct_room_ids(rooms@) ==> forall|j: int| 0 <= j < i ==> gains_doors(
                    before,
                    *map,
                    #[trigger] rooms@[j].1,
                    self.doors as nat,
                    self.doors <= 4,
                ),
                distinct_room_ids(rooms@) ==> forall|j: int, a: TilePos, b: TilePos|
                    i <= j < rooms@.len() && #[trigger] rooms@[j].1.contains(a) && #[trigger] map.spec_is_open_between(a, b)
                        ==> before.spec_is_open_between(a, b),
            decreases rooms@.len() - i,
        {
            let room_id = rooms[i].0;
            let room = rooms[i].1;
            let mut doors = self.doors;
            let mut attempts: usize = 0;
            let ghost mut opened: Seq<(TilePos, TilePos)> = Seq::empty();
            let ghost start_of_room = *map;
            while doors > 0
                invariant
                    0 <= i < rooms@.len(),
                    room == rooms@[i as int].1,
                    room_id == rooms@[i as int].0,
                    room.is_proper(),
                    room.last_row() < before.nrows(),
                    room.last_col() < before.ncols(),
                    self.attempts < usize::MAX,
                    attempts <= self.attempts + 1,
                    doors <= self.doors,
                    before == *old(map),
                        self.doors == 0 ==> *map == before,
                    before.valid(),
                    only_opens(before, *map),
                    only_opens(before, start_of_room),
                    only_opens(start_of_room, *map),
                    forall|i: int, p: TilePos| 0 <= i < rooms@.len() && #[trigger] rooms@[i].1.contains(p) ==> {
                        &&& before.cell(p) is Some
                        &&& before.cell(p).unwrap().ttype == TileType::Room(rooms@[i].0)
                    },
                    forall|a: TilePos, b: TilePos| #[trigger] map.spec_is_open_between(a, b) && !before.spec_is_open_between(a, b)
                        ==> is_room_door(*map, rooms@, a, b),
                    forall|j: int| 0 <= j < i ==> has_doors(start_of_room, #[trigger] rooms@[j].1, self.doors as nat),
                    distinct_room_ids(rooms@) ==> forall|j: int| 0 <= j < i ==> gains_doors(
                        before,
                        *map,
                        #[trigger] rooms@[j].1,
                        self.doors as nat,
                        self.doors <= 4,
                    ),
                    distinct_room_ids(rooms@) ==> forall|j: int, a: TilePos, b: TilePos|
                        i < j < rooms@.len() && #[trigger] rooms@[j].1.contains(a) && #[trigger] map.spec_is_open_between(a, b)
                            ==> before.spec_is_open_between(a, b),
                    distinct_room_ids(rooms@) ==> forall|a: TilePos, b: TilePos|
                        room.contains(a) && #[trigger] start_of_room.spec_is_open_between(a, b) ==> before.spec_is_open_between(a, b),
                    opened.len() == self.doors - doors,
                    opened.no_duplicates(),
                    forall|k: int| 0 <= k < opened.len() ==> #[trigger] is_new_door(start_of_room, *map, room, opened[k]),
                    forall|a: TilePos, b: TilePos|
                        room.contains(a) && #[trigger] map.spec_is_open_between(a, b) && !start_of_room.spec_is_open_between(a, b)
                            ==> opened.contains((a, b)),
                    self.doors <= 4 ==> doors_apart(opened),
                decreases self.attempts + 1 - attempts,
            {
                if attempts > self.attempts {
                    proof {
                        lemma_rooms_keep_doors(start_of_room, *map, rooms@, i as int, self.doors as nat);
                    }
                    return Err(RanOutOfAttempts);
                }
                attempts += 1;

                // Pick a random point on one of the edges of the room
                let pos = if gen_bool(rng) {
                    room.random_horizontal_edge_tile(rng)
                } else {
                    room.random_vertical_edge_tile(rng)
                };
                proof {
                    assert(before.in_bounds(pos));
                    assert(map.in_bounds(pos));
                    assert(on_room_edge(room, pos));
                }
                let passages = Self::adjacent_passages(map, pos);
                let passage = match choose_item(&passages, rng) {
                    Some(q) => q,
                    // No passage next to this room tile
                    None => continue,
                };
                proof {
                    let k = choose|k: int| 0 <= k < passages@.len() && passages@[k] == passage;
                }
                let ghost m1 = *map;
                if !self.try_door(map, room, pos, passage) {
                    continue;
                }
                proof {
                    self.lemma_door_added(before, start_of_room, m1, *map, rooms@, i as int, pos, passage, opened);
                    opened = opened.push((pos, passage));
                }
                doors -= 1;
            }
            proof {
                assert forall|k: int| 0 <= k < opened.len() implies #[trigger] is_door(*map, room, opened[k]) by {
                    assert(is_new_door(start_of_room, *map, room, opened[k]));
                }
                assert(has_doors(*map, room, self.doors as nat));
                lemma_rooms_keep_doors(start_of_room, *map, rooms@, i as int, self.doors as nat);
                if distinct_room_ids(rooms@) {
                    assert forall|k: int| 0 <= k < opened.len() implies #[trigger] is_new_door(before, *map, room, opened[k]) by {
                        assert(is_new_door(start_of_room, *map, room, opened[k]));
                    }
                    assert forall|a: TilePos, b: TilePos|
                        room.contains(a) && #[trigger] map.spec_is_open_between(a, b) && !before.spec_is_open_between(a, b)
                            implies opened.contains((a, b)) by {
                        if start_of_room.spec_is_open_between(a, b) {
                        }
                    }
                    assert(lists_new_doors(before, *map, room, opened, self.doors <= 4));
                    assert forall|j: int| 0 <= j < i + 1 implies gains_doors(before, *map, #[trigger] rooms@[j].1, self.doors as nat, self.doors <= 4) by {
                        if j == i {
                            assert(lists_new_doors(before, *map, rooms@[j].1, opened, self.doors <= 4));
                        }
                    }
                }
            }
            i += 1;
        }
        Ok(())
    }

    /// What stays true of the rooms' doors when the wall between the edge tile `pos` of the
    /// `i`th room and the passage next to it is opened
    proof fn lemma_door_added(
        &self,
        before: PassageMap,
        start_of_room: PassageMap,
        m1: PassageMap,
        m2: PassageMap,
        rooms: Seq<(RoomId, TileRect)>,
        i: int,
        pos: TilePos,
        passage: TilePos,
        opened: Seq<(TilePos, TilePos)>,
    )
        requires
            0 <= i < rooms.len(),
            before.valid(),
            m1.valid(),
            only_opens(before, m1),
            only_opens(before, start_of_room),
            only_opens(start_of_room, m1),
            forall|j: int, p: TilePos| 0 <= j < rooms.len() && #[trigger] rooms[j].1.contains(p) ==> {
                &&& before.cell(p) is Some
                &&& before.cell(p).unwrap().ttype == TileType::Room(rooms[j].0)
            },
            on_room_edge(rooms[i].1, pos),
            !rooms[i].1.spec_is_corner(pos),
            !on_map_edge(m1, passage),
            before.in_bounds(pos),
            m1.in_bounds(passage),
            m1.spec_is_passageway(passage),
            direction_to(pos, passage) is Some,
            !m1.spec_is_open_between(pos, passage),
            self.doors <= 4 ==> !door_on_room_row(m1, rooms[i].1, pos.row) && !door_on_room_col(m1, rooms[i].1, pos.col),
            wall_opened(m1, m2, pos, passage),
            forall|a: TilePos, b: TilePos| #[trigger] m1.spec_is_open_between(a, b) && !before.spec_is_open_between(a, b)
                ==> is_room_door(m1, rooms, a, b),
            distinct_room_ids(rooms) ==> forall|j: int| 0 <= j < i ==> gains_doors(
                before,
                m1,
                #[trigger] rooms[j].1,
                self.doors as nat,
                self.doors <= 4,
            ),
            distinct_room_ids(rooms) ==> forall|j: int, a: TilePos, b: TilePos|
                i < j < rooms.len() && #[trigger] rooms[j].1.contains(a) && #[trigger] m1.spec_is_open_between(a, b)
                    ==> before.spec_is_open_between(a, b),
            opened.no_duplicates(),
            forall|k: int| 0 <= k < opened.len() ==> #[trigger] is_new_door(start_of_room, m1, rooms[i].1, opened[k]),
            forall|a: TilePos, b: TilePos|
                rooms[i].1.contains(a) && #[trigger] m1.spec_is_open_between(a, b) && !start_of_room.spec_is_open_between(a, b)
                    ==> opened.contains((a, b)),
            self.doors <= 4 ==> doors_apart(opened),
        ensures
            only_opens(m1, m2),
            only_opens(before, m2),
            only_opens(start_of_room, m2),
            forall|a: TilePos, b: TilePos| #[trigger] m2.spec_is_open_between(a, b) && !before.spec_is_open_between(a, b)
                ==> is_room_door(m2, rooms, a, b),
            distinct_room_ids(rooms) ==> forall|j: int| 0 <= j < i ==> gains_doors(
                before,
                m2,
                #[trigger] rooms[j].1,
                self.doors as nat,
                self.doors <= 4,
            ),
            distinct_room_ids(rooms) ==> forall|j: int, a: TilePos, b: TilePos|
                i < j < rooms.len() && #[trigger] rooms[j].1.contains(a) && #[trigger] m2.spec_is_open_between(a, b)
                    ==> before.spec_is_open_between(a, b),
            opened.push((pos, passage)).no_duplicates(),
            forall|k: int| 0 <= k < opened.len() + 1 ==> #[trigger] is_new_door(
                start_of_room,
                m2,
                rooms[i].1,
                opened.push((pos, passage))[k],
            ),
            forall|a: TilePos, b: TilePos|
                rooms[i].1.contains(a) && #[trigger] m2.spec_is_open_between(a, b) && !start_of_room.spec_is_open_between(a, b)
                    ==> opened.push((pos, passage)).contains((a, b)),
            self.doors <= 4 ==> doors_apart(opened.push((pos, passage))),
    {
        let room = rooms[i].1;
        let new_opened = opened.push((pos, passage));
        assert(m1.cell(pos) is Some);
        // the walls of m2 are those of m1 and the new door
        assert(only_opens(m1, m2)) by {
            assert forall|p: TilePos| #[trigger] m1.in_bounds(p) implies {
                &&& (m2.cell(p) is Some <==> m1.cell(p) is Some)
                &&& m1.cell(p) is Some ==> m2.cell(p).unwrap().ttype == m1.cell(p).unwrap().ttype
            } by {}
        }
        lemma_only_opens_trans(before, m1, m2);
        lemma_only_opens_trans(start_of_room, m1, m2);
        // the passage lies in no room
        assert(before.in_bounds(passage));
        assert forall|j: int| 0 <= j < rooms.len() implies !#[trigger] rooms[j].1.contains(passage) by {
            if rooms[j].1.contains(passage) {
                assert(before.cell(passage).unwrap().ttype == TileType::Room(rooms[j].0));
            }
        }
        assert(!start_of_room.spec_is_open_between(pos, passage));
        assert(is_door(m2, room, (pos, passage)));
        assert forall|a: TilePos, b: TilePos| #[trigger] m2.spec_is_open_between(a, b) && !before.spec_is_open_between(a, b)
            implies is_room_door(m2, rooms, a, b) by {
            if m1.spec_is_open_between(a, b) {
                lemma_room_door_stays(m1, m2, rooms, a, b);
            } else {
                assert(is_door_either_way(m2, rooms[i].1, a, b));
            }
        }
        if distinct_room_ids(rooms) {
            assert forall|j: int| 0 <= j < i implies gains_doors(before, m2, #[trigger] rooms[j].1, self.doors as nat, self.doors <= 4) by {
                assert(rooms[j].0 != rooms[i].0);
                assert forall|a: TilePos, b: TilePos| rooms[j].1.contains(a) && #[trigger] m2.spec_is_open_between(a, b)
                    implies m1.spec_is_open_between(a, b) by {
                    if a == pos {
                        assert(before.cell(pos).unwrap().ttype == TileType::Room(rooms[i].0));
                    }
                }
                lemma_gains_kept(before, m1, m2, rooms[j].1, self.doors as nat, self.doors <= 4);
            }
            assert forall|j: int, a: TilePos, b: TilePos|
                i < j < rooms.len() && #[trigger] rooms[j].1.contains(a) && #[trigger] m2.spec_is_open_between(a, b)
                    implies before.spec_is_open_between(a, b) by {
                assert(rooms[j].0 != rooms[i].0);
                if a == pos {
                    assert(before.cell(pos).unwrap().ttype == TileType::Room(rooms[i].0));
                }
                assert(m1.spec_is_open_between(a, b));
            }
        }
        assert(!opened.contains((pos, passage))) by {
            if opened.contains((pos, passage)) {
                let k = choose|k: int| 0 <= k < opened.len() && opened[k] == (pos, passage);
                assert(is_new_door(start_of_room, m1, room, opened[k]));
            }
        }
        assert forall|k: int| 0 <= k < opened.len() + 1 implies #[trigger] is_new_door(start_of_room, m2, room, new_opened[k]) by {
            if k < opened.len() {
                assert(new_opened[k] == opened[k]);
                assert(is_new_door(start_of_room, m1, room, opened[k]));
                assert(m1.in_bounds(opened[k].1));
            }
        }
        assert forall|a: TilePos, b: TilePos|
            room.contains(a) && #[trigger] m2.spec_is_open_between(a, b) && !start_of_room.spec_is_open_between(a, b)
                implies new_opened.contains((a, b)) by {
            if m1.spec_is_open_between(a, b) {
                assert(opened.contains((a, b)));
                let k = choose|k: int| 0 <= k < opened.len() && opened[k] == (a, b);
                assert(new_opened[k] == (a, b));
            } else {
                assert(a == pos && b == passage);
                assert(new_opened[opened.len() as int] == (a, b));
            }
        }
        if self.doors <= 4 {
            assert(doors_apart(opened));
            assert forall|k: int, l: int| #![trigger new_opened[k], new_opened[l]] 0 <= k < l < new_opened.len() implies new_opened[k].0.row
                != new_opened[l].0.row && new_opened[k].0.col != new_opened[l].0.col by {
                if l == opened.len() {
                    assert(new_opened[l] == (pos, passage));
                    let door = opened[k];
                    assert(new_opened[k] == door);
                    assert(is_new_door(start_of_room, m1, room, door));
                    lemma_door_has_open_passage(m1, room, door);
                    assert(room.contains(door.0));
                    assert(m1.spec_has_open_passage(door.0));
                    if door.0.row == pos.row {
                        let c = door.0.col - room.top_left.col;
                        assert(0 <= c < room.dim.cols);
                        assert(TilePos { row: pos.row, col: (room.top_left.col + c) as usize } == door.0);
                        assert(door_on_room_row(m1, room, pos.row));
                    }
                    if door.0.col == pos.col {
                        let c = door.0.row - room.top_left.row;
                        assert(0 <= c < room.dim.rows);
                        assert(TilePos { row: (room.top_left.row + c) as usize, col: pos.col } == door.0);
                        assert(door_on_room_col(m1, room, pos.col));
                    }
                } else {
                    assert(new_opened[k] == opened[k]);
                    assert(new_opened[l] == opened[l]);
                    assert(opened[k].0.row != opened[l].0.row && opened[k].0.col != opened[l].0.col);
                }
            }
            assert(doors_apart(new_opened));
        }
    }

    /// Takes away the passages that lead nowhere: every passage tile with a single open wall
    /// is taken away, again and again, until no passage has a dead end
    pub fn reduce_dead_ends(&self, map: &mut PassageMap)
        requires
            old(map).valid(),
            old(map).nrows() == self.rows,
            old(map).ncols() == self.cols,
        ensures
            only_closes(*old(map), *final(map)),
            forall|p: TilePos| final(map).in_bounds(p) ==> !#[trigger] final(map).spec_is_dead_end(p),
    {
        let ghost before = *map;
        let mut row_i: usize = 0;
        while row_i < self.rows
            invariant
                before.valid(),
                before.nrows() == self.rows,
                before.ncols() == self.cols,
                only_closes(before, *map),
                row_i <= self.rows,
                forall|p: TilePos| map.in_bounds(p) && comes_before(p, row_i as int, 0) ==> !#[trigger] map.spec_is_dead_end(p),
            decreases self.rows - row_i,
        {
            let mut col_i: usize = 0;
            while col_i < self.cols
                invariant
                    before.valid(),
                    before.nrows() == self.rows,
                    before.ncols() == self.cols,
                    only_closes(before, *map),
                    row_i < self.rows,
                    col_i <= self.cols,
                    forall|p: TilePos| map.in_bounds(p) && comes_before(p, row_i as int, col_i as int) ==> !#[trigger] map.spec_is_dead_end(p),
                decreases self.cols - col_i,
            {
                let pos = TilePos { row: row_i, col: col_i };
                if map.is_dead_end(pos) {
                    let ghost m1 = *map;
                    Self::reduce_dead_ends_search(map, pos);
                    proof {
                        lemma_only_closes_trans(before, m1, *map);
                        assert forall|p: TilePos| map.in_bounds(p) && comes_before(p, row_i as int, col_i + 1) implies !#[trigger] map.spec_is_dead_end(p) by {
                            if map.spec_is_dead_end(p) {
                                assert(m1.spec_is_dead_end(p));
                            }
                        }
                    }
                }
                col_i += 1;
            }
            row_i += 1;
        }
    }

    /// Takes away the dead end at `start` and, one after the other, every passage tile that
    /// becomes a dead end in turn
    fn reduce_dead_ends_search(map: &mut PassageMap, start: TilePos)
        requires
            old(map).valid(),
            old(map).in_bounds(start),
            old(map).spec_is_dead_end(start),
        ensures
            only_closes(*old(map), *final(map)),
            final(map).cell(start) is None,
            forall|p: TilePos| final(map).in_bounds(p) && #[trigger] final(map).spec_is_dead_end(p) ==> old(map).spec_is_dead_end(p),
    {
        let ghost base = *map;
        proof {
            map.lemma_size_fits();
        }
        let nrows = map.rows_len();
        let ncols = map.cols_len();
        let mut seen: Vec<Vec<bool>> = filled_grid(nrows, ncols, false);
        let mut open: VecDeque<TilePos> = VecDeque::new();
        open.push_front(start);
        proof {
            assert(open@[0] == start);
        }
        while open.len() > 0
            invariant
                base.valid(),
                base.in_bounds(start),
                nrows == base.nrows(),
                ncols == base.ncols(),
                nrows <= usize::MAX,
                ncols <= usize::MAX,
                only_closes(base, *map),
                shaped(rows_view(&seen), nrows as int, ncols as int),
                forall|k: int| 0 <= k < open@.len() ==> {
                    let q = #[trigger] open@[k];
                    &&& base.in_bounds(q)
                    &&& (at(rows_view(&seen), q) || map.spec_is_passageway(q))
                },
                at(rows_view(&seen), start) || open@.contains(start),
                forall|q: TilePos| base.in_bounds(q) && #[trigger] at(rows_view(&seen), q) ==> map.cell(q) is None,
                forall|q: TilePos| base.in_bounds(q) && #[trigger] map.spec_is_dead_end(q) ==> base.spec_is_dead_end(q)
                    || open@.contains(q),
            decreases count_unseen(rows_view(&seen)), open@.len(),
        {
            let ghost open_before = open@;
            let node = open.pop_front().unwrap();
            proof {
                assert(open_before[0] == node);
                assert forall|q: TilePos| open_before.contains(q) && q != node implies open@.contains(q) by {
                    let k = choose|k: int| 0 <= k < open_before.len() && open_before[k] == q;
                    assert(open@[k - 1] == q);
                }
                assert(rows_view(&seen)[node.row as int] == seen@[node.row as int]@);
            }
            if seen[node.row][node.col] {
                proof {
                    assert forall|q: TilePos| base.in_bounds(q) && #[trigger] map.spec_is_dead_end(q) implies base.spec_is_dead_end(q)
                        || open@.contains(q) by {
                        if q == node {
                            assert(at(rows_view(&seen), node));
                            assert(map.cell(q) is None);
                        }
                    }
                }
                continue;
            }
            let ghost sv1 = rows_view(&seen);
            set_at(&mut seen, node, true);
            proof {
                lemma_count_unseen_set(sv1, node);
            }
            let adjacents = map.adjacent_cells(node);
            let ghost m1 = *map;
            map.remove_passageway(node);
            proof {
                lemma_removal_only_closes(m1, *map, node);
                lemma_only_closes_trans(base, m1, *map);
                lemma_adjacent_cells(&m1, node);
                assert forall|q: TilePos| base.in_bounds(q) && #[trigger] at(rows_view(&seen), q) implies map.cell(q) is None by {
                    assert(m1.in_bounds(q));
                    if q != node {
                        assert(at(sv1, q));
                    }
                }
            }
            // The neighbours that have become dead ends in turn
            let mut next: Vec<TilePos> = Vec::new();
            let mut k: usize = 0;
            while k < adjacents.len()
                invariant
                    map.valid(),
                    map.nrows() == nrows,
                    map.ncols() == ncols,
                    nrows <= usize::MAX,
                    ncols <= usize::MAX,
                    base.in_bounds(node),
                    base.nrows() == nrows,
                    base.ncols() == ncols,
                    shaped(rows_view(&seen), nrows as int, ncols as int),
                    forall|q: TilePos| base.in_bounds(q) && #[trigger] at(rows_view(&seen), q) ==> map.cell(q) is None,
                    adjacents@ == m1.spec_adjacent_cells(node),
                    m1.nrows() == nrows,
                    m1.ncols() == ncols,
                    forall|q: TilePos| #[trigger] m1.spec_adjacent_cells(node).contains(q) ==> exists|d: Direction| m1.next_to(node, d) == Some(q),
                    k <= adjacents@.len(),
                    forall|j: int| 0 <= j < next@.len() ==> {
                        let q = #[trigger] next@[j];
                        &&& map.in_bounds(q)
                        &&& map.spec_is_dead_end(q)
                    },
                    forall|j: int| 0 <= j < k ==> #[trigger] map.spec_is_dead_end(adjacents@[j]) ==> next@.contains(adjacents@[j]),
                decreases adjacents@.len() - k,
            {
                let q = adjacents[k];
                proof {
                    assert(adjacents@.contains(q));
                    let d = choose|d: Direction| m1.next_to(node, d) == Some(q);
                    lemma_step_back(node, d, nrows as int, ncols as int);
                    assert(rows_view(&seen)[q.row as int] == seen@[q.row as int]@);
                }
                let ghost before_push = next@;
                if !seen[q.row][q.col] && map.is_dead_end(q) {
                    next.push(q);
                    proof {
                        assert forall|j: int| 0 <= j < k + 1 implies #[trigger] map.spec_is_dead_end(adjacents@[j]) ==> next@.contains(adjacents@[j]) by {
                            if j < k && map.spec_is_dead_end(adjacents@[j]) {
                                let i = choose|i: int| 0 <= i < before_push.len() && before_push[i] == adjacents@[j];
                                assert(next@[i] == adjacents@[j]);
                            } else if j == k {
                                assert(next@[before_push.len() as int] == q);
                            }
                        }
                    }
                } else {
                    proof {
                        assert(rows_view(&seen)[q.row as int] == seen@[q.row as int]@);
                        if at(rows_view(&seen), q) {
                            assert(map.cell(q) is None);
                        }
                    }
                }
                k += 1;
            }
            let ghost open_mid = open@;
            if next.len() > 0 {
                open.push_front(next[0]);
                let ghost open_front = open@;
                let mut k: usize = 1;
                while k < next.len()
                    invariant
                        1 <= k <= next@.len(),
                        open@ == open_front + next@.subrange(1, k as int),
                    decreases next@.len() - k,
                {
                    open.push_back(next[k]);
                    k += 1;
                    proof {
                        assert(open@ =~= open_front + next@.subrange(1, k as int));
                    }
                }
                proof {
                    assert forall|q: TilePos| next@.contains(q) implies open@.contains(q) by {
                        let j = choose|j: int| 0 <= j < next@.len() && next@[j] == q;
                        if j == 0 {
                            assert(open@[0] == q);
                        } else {
                            assert(open@[open_front.len() + j - 1] == q);
                        }
                    }
                    assert forall|q: TilePos| open_mid.contains(q) implies open@.contains(q) by {
                        let i = choose|i: int| 0 <= i < open_mid.len() && open_mid[i] == q;
                        assert(open_front[i + 1] == q);
                        assert(open@[i + 1] == q);
                    }
                }
            }
            proof {
                assert forall|q: TilePos| base.in_bounds(q) && #[trigger] map.spec_is_dead_end(q) implies base.spec_is_dead_end(q)
                    || open@.contains(q) by {
                    assert(m1.in_bounds(q));
                    if q == node {
                    } else if m1.spec_is_dead_end(q) && !base.spec_is_dead_end(q) {
                        assert(open_before.contains(q));
                        assert(open_mid.contains(q));
                    } else if !m1.spec_is_dead_end(q) {
                        // the tile changed, so it lies next to the tile taken away
                        let d = direction_to(q, node).unwrap();
                        lemma_step_back(q, d, nrows as int, ncols as int);
                        assert(m1.next_to(node, crate::maze::opposite(d)) == Some(q));
                        assert(adjacents@.contains(q));
                        let j = choose|j: int| 0 <= j < adjacents@.len() && adjacents@[j] == q;
                        assert(next@.contains(q));
                    }
                }
                assert forall|k: int| 0 <= k < open@.len() implies {
                    let q = #[trigger] open@[k];
                    &&& base.in_bounds(q)
                    &&& (at(rows_view(&seen), q) || map.spec_is_passageway(q))
                } by {
                    let q = open@[k];
                    assert(open@.contains(q));
                    if next@.contains(q) {
                        let j = choose|j: int| 0 <= j < next@.len() && next@[j] == q;
                    } else {
                        assert(open_mid.contains(q)) by {
                            if next@.len() > 0 {
                            }
                        }
                        let i = choose|i: int| 0 <= i < open_mid.len() && open_mid[i] == q;
                        assert(open_before[i + 1] == q);
                        assert(m1.in_bounds(q));
                    }
                }
            }
        }
    }

    /// Places rooms of random sizes at random places, each at least `passage_size` tiles away
    /// from the others, until there are `rooms` of them
    pub fn generate_rooms(&self, rng: &mut StdRng) -> (r: Result<Vec<(RoomId, TileRect)>, RanOutOfAttempts>)
        requires
            0 < self.rows,
            0 < self.cols,
            self.rows + 2 * self.passage_size <= MAX_RECT_VALUE,
            self.cols + 2 * self.passage_size <= MAX_RECT_VALUE,
            self.room_width.can_gen(),
            self.room_height.can_gen(),
            self.attempts < usize::MAX,
        ensures
            // with no rooms to make, none are made
            self.rooms == 0 ==> (r matches Ok(rooms) && rooms@.len() == 0),
            r matches Ok(rooms) ==> {
                &&& rooms@.len() == self.rooms
                &&& rooms_placed(rooms@, self.rows as int, self.cols as int, self.passage_size)
                &&& forall|i: int| 0 <= i < rooms@.len() ==> {
                    let room = #[trigger] rooms@[i].1;
                    &&& self.room_width.holds(room.dim.cols as int)
                    &&& self.room_height.holds(room.dim.rows as int)
                }
            },
    {
        let mut rooms: Vec<(RoomId, TileRect)> = Vec::new();
        let mut attempts: usize = 0;
        while rooms.len() < self.rooms
            invariant
                0 < self.rows,
                0 < self.cols,
                self.rows + 2 * self.passage_size <= MAX_RECT_VALUE,
                self.cols + 2 * self.passage_size <= MAX_RECT_VALUE,
                self.room_width.can_gen(),
                self.room_height.can_gen(),
                self.attempts < usize::MAX,
                attempts <= self.attempts + 1,
                rooms@.len() <= self.rooms,
                rooms_placed(rooms@, self.rows as int, self.cols as int, self.passage_size),
                forall|i: int| 0 <= i < rooms@.len() ==> {
                    let room = #[trigger] rooms@[i].1;
                    &&& self.room_width.holds(room.dim.cols as int)
                    &&& self.room_height.holds(room.dim.rows as int)
                },
            decreases self.attempts + 1 - attempts,
        {
            if attempts > self.attempts {
                return Err(RanOutOfAttempts);
            }
            attempts += 1;
            let x = gen_range(rng, 0, self.cols);
            let y = gen_range(rng, 0, self.rows);
            let width = self.room_width.gen(rng);
            let height = self.room_height.gen(rng);

            // Ensure that the room is within the bounds
            if width >= self.cols - x || height >= self.rows - y {
                continue;
            }

            let potential_room = TileRect::new(TilePos { row: y, col: x }, GridSize { rows: height, cols: width });

            // Ensure no overlap with any other room. Rooms cannot be directly adjacent to each
            // other: this makes enough room for a passage to come through.
            let mut fits = true;
            let mut j: usize = 0;
            while j < rooms.len() && fits
                invariant
                    self.rows + 2 * self.passage_size <= MAX_RECT_VALUE,
                    self.cols + 2 * self.passage_size <= MAX_RECT_VALUE,
                    potential_room.top_left.row + potential_room.dim.rows < self.rows,
                    potential_room.top_left.col + potential_room.dim.cols < self.cols,
                    rooms_placed(rooms@, self.rows as int, self.cols as int, self.passage_size),
                    j <= rooms@.len(),
                    fits ==> forall|k: int| 0 <= k < j ==> !potential_room.overlaps(
                        (#[trigger] rooms@[k].1).spec_expand(self.passage_size),
                    ),
                decreases rooms@.len() - j, (if fits { 1int } else { 0int }),
            {
                let other = rooms[j].1;
                proof {
                    assert(room_fits(rooms@, j as int, self.rows as int, self.cols as int));
                    assert(other == rooms@[j as int].1);
                }
                let expanded = other.expand(self.passage_size);
                if potential_room.has_intersection(expanded) {
                    fits = false;
                } else {
                    j += 1;
                }
            }
            if !fits {
                continue;
            }
            let room_id = RoomId(rooms.len());
            let ghost before = rooms@;
            rooms.push((room_id, potential_room));
            proof {
                assert forall|i: int, k: int| 0 <= i < k < rooms@.len() implies #[trigger] rooms_apart(rooms@, i, k, self.passage_size) by {
                    assert(rooms@[i] == before[i]);
                    if k < before.len() {
                        assert(rooms@[k] == before[k]);
                        assert(rooms_apart(before, i, k, self.passage_size));
                    } else {
                        assert(room_fits(before, i, self.rows as int, self.cols as int));
                        assert(rooms@[k].1 == potential_room);
                        assert(!potential_room.overlaps(before[i].1.spec_expand(self.passage_size)));
                        if potential_room.overlaps(before[i].1) {
                            lemma_expand_covers(potential_room, before[i].1, self.passage_size);
                        }
                    }
                }
                assert forall|i: int| 0 <= i < rooms@.len() implies #[trigger] room_fits(rooms@, i, self.rows as int, self.cols as int) by {
                    if i < before.len() {
                        assert(rooms@[i] == before[i]);
                        assert(room_fits(before, i, self.rows as int, self.cols as int));
                    } else {
                        assert(rooms@[i] == (room_id, potential_room));
                    }
                }
            }
        }
        Ok(rooms)
    }

    /// Fills the tiles of every room with tiles of that room
    pub fn place_rooms(&self, map: &mut PassageMap, rooms: &Vec<(RoomId, TileRect)>)
        requires
            old(map).valid(),
            rooms_placed(rooms@, old(map).nrows() as int, old(map).ncols() as int, self.passage_size),
            forall|i: int, p: TilePos| 0 <= i < rooms@.len() && #[trigger] rooms@[i].1.contains(p) ==> old(map).cell(p) is None,
        ensures
            final(map).valid(),
            final(map).nrows() == old(map).nrows(),
            final(map).ncols() == old(map).ncols(),
            forall|i: int, p: TilePos| 0 <= i < rooms@.len() && #[trigger] rooms@[i].1.contains(p) ==> final(map).cell(p)
                == Some(closed_cell(TileType::Room(rooms@[i].0))),
            forall|p: TilePos| old(map).in_bounds(p) && !(exists|i: int| 0 <= i < rooms@.len() && #[trigger] rooms@[i].1.contains(p))
                ==> final(map).cell(p) == old(map).cell(p),
    {
        let ghost before = *map;
        proof {
            before.lemma_size_fits();
        }
        let mut i: usize = 0;
        while i < rooms.len()
            invariant
                map.valid(),
                map.nrows() == before.nrows(),
                map.ncols() == before.ncols(),
                before.nrows() <= usize::MAX,
                before.ncols() <= usize::MAX,
                i <= rooms@.len(),
                rooms_placed(rooms@, before.nrows() as int, before.ncols() as int, self.passage_size),
                forall|i: int, p: TilePos| 0 <= i < rooms@.len() && #[trigger] rooms@[i].1.contains(p) ==> before.cell(p) is None,
                forall|k: int, p: TilePos| 0 <= k < i && #[trigger] rooms@[k].1.contains(p) ==> map.cell(p)
                    == Some(closed_cell(TileType::Room(rooms@[k].0))),
                forall|p: TilePos| before.in_bounds(p) && !(exists|k: int| 0 <= k < i && #[trigger] rooms@[k].1.contains(p))
                    ==> map.cell(p) == before.cell(p),
            decreases rooms@.len() - i,
        {
            let room_id = rooms[i].0;
            let room = rooms[i].1;
            proof {
                assert(room_fits(rooms@, i as int, before.nrows() as int, before.ncols() as int));
            }
            let mut row_i: usize = room.top_left.row;
            while row_i < room.top_left.row + room.dim.rows
                invariant
                    map.valid(),
                    map.nrows() == before.nrows(),
                    map.ncols() == before.ncols(),
                    i < rooms@.len(),
                    room == rooms@[i as int].1,
                    room_id == rooms@[i as int].0,
                    before.nrows() <= usize::MAX,
                    before.ncols() <= usize::MAX,
                    room.top_left.row + room.dim.rows < before.nrows(),
                    room.top_left.col + room.dim.cols < before.ncols(),
                    room.top_left.row <= row_i <= room.top_left.row + room.dim.rows,
                    rooms_placed(rooms@, before.nrows() as int, before.ncols() as int, self.passage_size),
                    forall|i: int, p: TilePos| 0 <= i < rooms@.len() && #[trigger] rooms@[i].1.contains(p) ==> before.cell(p) is None,
                    forall|k: int, p: TilePos| 0 <= k < i && #[trigger] rooms@[k].1.contains(p) ==> map.cell(p)
                        == Some(closed_cell(TileType::Room(rooms@[k].0))),
                    forall|p: TilePos| room.contains(p) && p.row < row_i ==> #[trigger] map.cell(p)
                        == Some(closed_cell(TileType::Room(room_id))),
                    forall|p: TilePos| before.in_bounds(p) && !(exists|k: int| 0 <= k < i && #[trigger] rooms@[k].1.contains(p))
                        && !(room.contains(p) && p.row < row_i) ==> map.cell(p) == before.cell(p),
                decreases room.top_left.row + room.dim.rows - row_i,
            {
                let mut col_i: usize = room.top_left.col;
                while col_i < room.top_left.col + room.dim.cols
                    invariant
                        map.valid(),
                        map.nrows() == before.nrows(),
                        map.ncols() == before.ncols(),
                        i < rooms@.len(),
                        room == rooms@[i as int].1,
                        room_id == rooms@[i as int].0,
                        before.nrows() <= usize::MAX,
                        before.ncols() <= usize::MAX,
                        room.top_left.row + room.dim.rows < before.nrows(),
                        room.top_left.col + room.dim.cols < before.ncols(),
                        room.top_left.row <= row_i < room.top_left.row + room.dim.rows,
                        room.top_left.col <= col_i <= room.top_left.col + room.dim.cols,
                        rooms_placed(rooms@, before.nrows() as int, before.ncols() as int, self.passage_size),
                        forall|i: int, p: TilePos| 0 <= i < rooms@.len() && #[trigger] rooms@[i].1.contains(p) ==> before.cell(p) is None,
                        forall|k: int, p: TilePos| 0 <= k < i && #[trigger] rooms@[k].1.contains(p) ==> map.cell(p)
                            == Some(closed_cell(TileType::Room(rooms@[k].0))),
                        forall|p: TilePos| room.contains(p) && comes_before(p, row_i as int, col_i as int) ==> #[trigger] map.cell(p)
                            == Some(closed_cell(TileType::Room(room_id))),
                        forall|p: TilePos| before.in_bounds(p) && !(exists|k: int| 0 <= k < i && #[trigger] rooms@[k].1.contains(p))
                            && !(room.contains(p) && comes_before(p, row_i as int, col_i as int)) ==> map.cell(p) == before.cell(p),
                    decreases room.top_left.col + room.dim.cols - col_i,
                {
                    let pos = TilePos { row: row_i, col: col_i };
                    proof {
                        assert(room.contains(pos));
                        assert(rooms@[i as int].1.contains(pos));
                        if exists|k: int| 0 <= k < i && #[trigger] rooms@[k].1.contains(pos) {
                            let k = choose|k: int| 0 <= k < i && #[trigger] rooms@[k].1.contains(pos);
                            assert(rooms@[k].1.contains(pos));
                            assert(rooms_apart(rooms@, k, i as int, self.passage_size));
                            assert(false);
                        }
                    }
                    map.place_tile(pos, TileType::Room(room_id));
                    proof {
                        assert forall|k: int, p: TilePos| 0 <= k < i && #[trigger] rooms@[k].1.contains(p) implies map.cell(p)
                            == Some(closed_cell(TileType::Room(rooms@[k].0))) by {
                            assert(room_fits(rooms@, k, before.nrows() as int, before.ncols() as int));
                        }
                    }
                    col_i += 1;
                }
                row_i += 1;
            }
            i += 1;
        }
    }
}

} // verus!
