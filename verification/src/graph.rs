//! Walks through graphs, and the searches that find every node a walk can reach: a breadth first
//! search over adjacency lists and a depth first search over a map of neighbours
use std::collections::{HashMap, HashSet};

use vstd::prelude::*;
use vstd::set_lib::lemma_len_subset;

verus! {

/// The step from the `k`th to the next node of `path` follows `edge`
pub open spec fn step<A>(edge: spec_fn(A, A) -> bool, path: Seq<A>, k: int) -> bool {
    edge(path[k], path[k + 1])
}

/// A non-empty sequence of nodes in which every step follows `edge`
pub open spec fn is_walk<A>(edge: spec_fn(A, A) -> bool, path: Seq<A>) -> bool {
    &&& path.len() >= 1
    &&& forall|k: int| 0 <= k < path.len() - 1 ==> #[trigger] step(edge, path, k)
}

/// Some walk leads from `a` to `b`
pub open spec fn linked<A>(edge: spec_fn(A, A) -> bool, a: A, b: A) -> bool {
    exists|path: Seq<A>| #[trigger] is_walk(edge, path) && path[0] == a && path.last() == b
}

/// `edge` is the same in both directions
pub open spec fn symmetric<A>(edge: spec_fn(A, A) -> bool) -> bool {
    forall|x: A, y: A| #[trigger] edge(x, y) ==> edge(y, x)
}

/// The edges given by adjacency lists: `b` is listed among the neighbours of `a`
pub open spec fn list_edge(adj: Seq<Seq<usize>>) -> spec_fn(usize, usize) -> bool {
    |a: usize, b: usize| a < adj.len() && b < adj.len() && adj[a as int].contains(b)
}

/// The edges given by a map from each node to the list of its neighbours: `b` is listed among
/// the neighbours of `a`
pub open spec fn map_edge(adj: Map<usize, Vec<usize>>) -> spec_fn(usize, usize) -> bool {
    |a: usize, b: usize| adj.contains_key(a) && adj[a]@.contains(b)
}

/// The adjacency lists held by a vector of vectors
pub open spec fn lists_view(adj: &Vec<Vec<usize>>) -> Seq<Seq<usize>> {
    adj@.map_values(|l: Vec<usize>| l@)
}

/// The number of `true` values in the sequence
pub open spec fn count_true(s: Seq<bool>) -> nat
    decreases s.len(),
{
    if s.len() == 0 {
        0
    } else {
        count_true(s.drop_last()) + if s.last() { 1nat } else { 0nat }
    }
}

/// Every node is linked to itself
pub proof fn lemma_linked_refl<A>(edge: spec_fn(A, A) -> bool, a: A)
    ensures
        linked(edge, a, a),
{
    let p = seq![a];
    assert(is_walk(edge, p));
}

/// A walk to `b` extended by one step from `b` to `c`
pub proof fn lemma_linked_extend<A>(edge: spec_fn(A, A) -> bool, a: A, b: A, c: A)
    requires
        linked(edge, a, b),
        edge(b, c),
    ensures
        linked(edge, a, c),
{
    let p = choose|p: Seq<A>| #[trigger] is_walk(edge, p) && p[0] == a && p.last() == b;
    let q = p.push(c);
    assert forall|k: int| 0 <= k < q.len() - 1 implies #[trigger] step(edge, q, k) by {
        if k < p.len() - 1 {
            assert(step(edge, p, k));
        }
    }
    assert(is_walk(edge, q));
}

/// Two walks joined end to end
pub proof fn lemma_linked_trans<A>(edge: spec_fn(A, A) -> bool, a: A, b: A, c: A)
    requires
        linked(edge, a, b),
        linked(edge, b, c),
    ensures
        linked(edge, a, c),
{
    let p = choose|p: Seq<A>| #[trigger] is_walk(edge, p) && p[0] == a && p.last() == b;
    let q = choose|q: Seq<A>| #[trigger] is_walk(edge, q) && q[0] == b && q.last() == c;
    let r = p + q.drop_first();
    assert forall|k: int| 0 <= k < r.len() - 1 implies #[trigger] step(edge, r, k) by {
        if k < p.len() - 1 {
            assert(step(edge, p, k));
        } else if k == p.len() - 1 {
            assert(step(edge, q, 0));
        } else {
            assert(step(edge, q, k - p.len() + 1));
        }
    }
    assert(is_walk(edge, r));
    if q.len() == 1 {
        assert(r =~= p);
    }
}

/// A walk along some edges is a walk along any larger set of edges
pub proof fn lemma_linked_mono<A>(small: spec_fn(A, A) -> bool, large: spec_fn(A, A) -> bool, a: A, b: A)
    requires
        linked(small, a, b),
        forall|x: A, y: A| #[trigger] small(x, y) ==> large(x, y),
    ensures
        linked(large, a, b),
{
    let p = choose|p: Seq<A>| #[trigger] is_walk(small, p) && p[0] == a && p.last() == b;
    assert forall|k: int| 0 <= k < p.len() - 1 implies #[trigger] step(large, p, k) by {
        assert(step(small, p, k));
    }
    assert(is_walk(large, p));
}

/// With edges that go both ways, a walk can be walked back
pub proof fn lemma_linked_sym<A>(edge: spec_fn(A, A) -> bool, a: A, b: A)
    requires
        symmetric(edge),
        linked(edge, a, b),
    ensures
        linked(edge, b, a),
{
    let p = choose|p: Seq<A>| #[trigger] is_walk(edge, p) && p[0] == a && p.last() == b;
    let n = p.len();
    let r = Seq::new(n, |k: int| p[n - 1 - k]);
    assert forall|k: int| 0 <= k < r.len() - 1 implies #[trigger] step(edge, r, k) by {
        assert(step(edge, p, n - 2 - k));
    }
    assert(is_walk(edge, r));
}

/// A set of nodes that every edge leaving it leads back into holds every node that a walk from
/// one of its nodes reaches
pub proof fn lemma_closed_holds_walk<A>(edge: spec_fn(A, A) -> bool, set: spec_fn(A) -> bool, path: Seq<A>)
    requires
        is_walk(edge, path),
        set(path[0]),
        forall|x: A, y: A| #[trigger] set(x) && #[trigger] edge(x, y) ==> set(y),
    ensures
        set(path.last()),
    decreases path.len(),
{
    if path.len() > 1 {
        let q = path.drop_last();
        assert forall|k: int| 0 <= k < q.len() - 1 implies #[trigger] step(edge, q, k) by {
            assert(step(edge, path, k));
        }
        lemma_closed_holds_walk(edge, set, q);
        assert(step(edge, path, path.len() - 2));
    }
}

/// Turning one `false` into `true` adds one to the count
pub proof fn lemma_count_true_set(s: Seq<bool>, i: int)
    requires
        0 <= i < s.len(),
        !s[i],
    ensures
        count_true(s.update(i, true)) == count_true(s) + 1,
    decreases s.len(),
{
    let t = s.update(i, true);
    if i == s.len() - 1 {
        assert(t.drop_last() =~= s.drop_last());
    } else {
        assert(t.drop_last() =~= s.drop_last().update(i, true));
        lemma_count_true_set(s.drop_last(), i);
    }
}

/// There are no more `true` values than values
pub proof fn lemma_count_true_bound(s: Seq<bool>)
    ensures
        count_true(s) <= s.len(),
    decreases s.len(),
{
    if s.len() > 0 {
        lemma_count_true_bound(s.drop_last());
    }
}

/// A sequence of `false` values counts none
pub proof fn lemma_count_true_none(s: Seq<bool>)
    requires
        forall|i: int| 0 <= i < s.len() ==> !s[i],
    ensures
        count_true(s) == 0,
    decreases s.len(),
{
    if s.len() > 0 {
        lemma_count_true_none(s.drop_last());
    }
}

/// The nodes that a walk from `start` can reach, found by a breadth first search: the `v`th
/// value is true exactly when `v` is linked to `start` by the edges of the adjacency lists
pub fn reachable_from(adj: &Vec<Vec<usize>>, start: usize) -> (seen: Vec<bool>)
    requires
        start < adj@.len(),
        forall|a: int, k: int| 0 <= a < adj@.len() && 0 <= k < adj@[a]@.len() ==> #[trigger] adj@[a]@[k]
            < adj@.len(),
    ensures
        seen@.len() == adj@.len(),
        forall|v: usize| v < adj@.len() ==> (#[trigger] seen@[v as int] <==> linked(
            list_edge(lists_view(adj)),
            start,
            v,
        )),
{
    let ghost e = list_edge(lists_view(adj));
    let n = adj.len();
    let mut seen: Vec<bool> = Vec::new();
    while seen.len() < n
        invariant
            seen@.len() <= n,
            n == adj@.len(),
            forall|i: int| 0 <= i < seen@.len() ==> !seen@[i],
        decreases n - seen@.len(),
    {
        seen.push(false);
    }
    proof {
        lemma_count_true_none(seen@);
        lemma_count_true_set(seen@, start as int);
        lemma_linked_refl(e, start);
    }
    seen.set(start, true);
    let mut queue: Vec<usize> = Vec::new();
    queue.push(start);
    proof {
        assert forall|v: usize| v < n && #[trigger] seen@[v as int] implies exists|j: int|
            0 <= j < queue@.len() && queue@[j] == v by {
            assert(v == start);
            assert(queue@[0] == start);
        }
    }
    let mut head: usize = 0;
    while head < queue.len()
        invariant
            n == adj@.len(),
            e == list_edge(lists_view(adj)),
            forall|a: int, k: int| 0 <= a < adj@.len() && 0 <= k < adj@[a]@.len() ==> #[trigger] adj@[a]@[k]
                < adj@.len(),
            seen@.len() == n,
            start < n,
            seen@[start as int],
            head <= queue@.len(),
            queue@.len() == count_true(seen@),
            forall|j: int| 0 <= j < queue@.len() ==> #[trigger] queue@[j] < n && seen@[queue@[j] as int],
            forall|v: usize| v < n && #[trigger] seen@[v as int] ==> exists|j: int|
                0 <= j < queue@.len() && queue@[j] == v,
            forall|v: usize| v < n && #[trigger] seen@[v as int] ==> linked(e, start, v),
            forall|j: int, w: usize| 0 <= j < head && #[trigger] e(queue@[j], w) ==> seen@[w as int],
        decreases n - head,
    {
        proof {
            lemma_count_true_bound(seen@);
        }
        let v = queue[head];
        let neighbours = &adj[v];
        assert(neighbours@ == lists_view(adj)[v as int]);
        let mut i: usize = 0;
        while i < neighbours.len()
            invariant
                n == adj@.len(),
                e == list_edge(lists_view(adj)),
                forall|a: int, k: int| 0 <= a < adj@.len() && 0 <= k < adj@[a]@.len() ==> #[trigger] adj@[a]@[k]
                    < adj@.len(),
                neighbours@ == lists_view(adj)[v as int],
                v < n,
                v == queue@[head as int],
                seen@.len() == n,
                start < n,
                seen@[start as int],
                head < queue@.len(),
                i <= neighbours@.len(),
                queue@.len() == count_true(seen@),
                forall|j: int| 0 <= j < queue@.len() ==> #[trigger] queue@[j] < n && seen@[queue@[j] as int],
                forall|u: usize| u < n && #[trigger] seen@[u as int] ==> exists|j: int|
                    0 <= j < queue@.len() && queue@[j] == u,
                forall|u: usize| u < n && #[trigger] seen@[u as int] ==> linked(e, start, u),
                forall|j: int, w: usize| 0 <= j < head && #[trigger] e(queue@[j], w) ==> seen@[w as int],
                forall|k: int| 0 <= k < i ==> seen@[#[trigger] neighbours@[k] as int],
            decreases neighbours@.len() - i,
        {
            let w = neighbours[i];
            assert(adj@[v as int]@[i as int] == w);
            if !seen[w] {
                proof {
                    assert(seen@[v as int]);
                    assert(e(v, w));
                    lemma_linked_extend(e, start, v, w);
                    lemma_count_true_set(seen@, w as int);
                }
                let ghost old_seen = seen@;
                let ghost old_queue = queue@;
                seen.set(w, true);
                queue.push(w);
                proof {
                    assert forall|j: int| 0 <= j < queue@.len() implies #[trigger] queue@[j] < n && seen@[queue@[j] as int] by {
                        if j < old_queue.len() {
                            assert(old_seen[old_queue[j] as int]);
                        }
                    }
                    assert forall|u: usize| u < n && #[trigger] seen@[u as int] implies exists|j: int|
                        0 <= j < queue@.len() && queue@[j] == u by {
                        if u == w {
                            assert(queue@[queue@.len() - 1] == w);
                        } else {
                            assert(old_seen[u as int]);
                            let j0 = choose|j: int| 0 <= j < old_queue.len() && old_queue[j] == u;
                            assert(queue@[j0] == u);
                        }
                    }
                }
            }
            i += 1;
        }
        proof {
            assert forall|j: int, w: usize| 0 <= j < head + 1 && #[trigger] e(queue@[j], w) implies seen@[w as int] by {
                if j == head {
                    let k = choose|k: int| 0 <= k < neighbours@.len() && neighbours@[k] == w;
                    assert(seen@[neighbours@[k] as int]);
                }
            }
        }
        head += 1;
    }
    proof {
        assert forall|v: usize| v < adj@.len() && linked(e, start, v) implies #[trigger] seen@[v as int] by {
            let set = |x: usize| x < n && seen@[x as int];
            assert forall|x: usize, y: usize| #[trigger] set(x) && #[trigger] e(x, y) implies set(y) by {
                let j = choose|j: int| 0 <= j < queue@.len() && queue@[j] == x;
                assert(e(queue@[j], y));
            }
            let p = choose|p: Seq<usize>| #[trigger] is_walk(e, p) && p[0] == start && p.last() == v;
            lemma_closed_holds_walk(e, set, p);
        }
    }
    seen
}


/// A walk that leaves its first node enters its last node along some edge
pub proof fn lemma_linked_entered<A>(edge: spec_fn(A, A) -> bool, a: A, b: A)
    requires
        linked(edge, a, b),
        a != b,
    ensures
        exists|x: A| #[trigger] edge(x, b),
{
    let p = choose|p: Seq<A>| #[trigger] is_walk(edge, p) && p[0] == a && p.last() == b;
    assert(p.len() > 1);
    assert(step(edge, p, p.len() - 2));
}

/// The nodes that a walk from `start` can reach, `start` included, found by a depth first
/// search; a node that is not a key of the map has no neighbours
pub fn reachable_in_map(graph: &HashMap<usize, Vec<usize>>, start: usize) -> (seen: HashSet<usize>)
    ensures
        forall|v: usize| #[trigger] seen@.contains(v) <==> linked(map_edge(graph@), start, v),
{
    broadcast use vstd::std_specs::hash::group_hash_axioms;
    broadcast use vstd::set::group_set_axioms;

    let ghost e = map_edge(graph@);
    let ghost dom = graph@.dom();
    let mut seen: HashSet<usize> = HashSet::new();
    let mut stack: Vec<usize> = Vec::new();
    seen.insert(start);
    stack.push(start);
    let ghost mut expanded: Set<usize> = Set::empty();
    proof {
        lemma_linked_refl(e, start);
        assert(stack@[0] == start);
    }
    while stack.len() > 0
        invariant
            e == map_edge(graph@),
            dom == graph@.dom(),
            dom.finite(),
            expanded.finite(),
            stack@.no_duplicates(),
            seen@.contains(start),
            forall|v: usize| #[trigger] seen@.contains(v) <==> expanded.contains(v) || stack@.contains(v),
            forall|v: usize| #[trigger] expanded.contains(v) ==> !stack@.contains(v),
            forall|v: usize| #[trigger] seen@.contains(v) ==> linked(e, start, v),
            forall|v: usize, w: usize| #[trigger] expanded.contains(v) && #[trigger] e(v, w) ==> seen@.contains(w),
        decreases dom.difference(expanded).len(), stack@.len(),
    {
        let ghost stack_before = stack@;
        let ghost measure_before = dom.difference(expanded).len();
        let node = stack.pop().unwrap();
        proof {
            assert(stack_before.last() == node);
            assert(stack_before.drop_last() =~= stack@);
            assert(stack_before.contains(node));
            assert(!expanded.contains(node));
            assert forall|v: usize| #[trigger] stack@.contains(v) implies stack_before.contains(v) && v != node by {
                let k = choose|k: int| 0 <= k < stack@.len() && stack@[k] == v;
                assert(stack_before[k] == v);
            }
            if dom.contains(node) {
                assert(dom.difference(expanded.insert(node)) =~= dom.difference(expanded).remove(node));
            } else {
                assert(dom.difference(expanded.insert(node)) =~= dom.difference(expanded));
            }
            lemma_len_subset(dom.difference(expanded.insert(node)), dom.difference(expanded));
            assert forall|v: usize| #[trigger] stack_before.contains(v) && v != node implies stack@.contains(v) by {
                let k = choose|k: int| 0 <= k < stack_before.len() && stack_before[k] == v;
                assert(k != stack_before.len() - 1);
                assert(stack@[k] == v);
            }
            let old_expanded = expanded;
            expanded = expanded.insert(node);
            assert forall|v: usize| #[trigger] seen@.contains(v) <==> expanded.contains(v) || stack@.contains(v) by {
                if v != node {
                    assert(seen@.contains(v) <==> old_expanded.contains(v) || stack_before.contains(v));
                }
            }
            assert(seen@.contains(node));
        }
        let ghost stack_mid = stack@;
        if let Some(neighbours) = graph.get(&node) {
            proof {
                assert(graph@.contains_key(node) && graph@[node] == *neighbours);
                assert(dom.difference(expanded).len() < measure_before);
            }
            let mut k: usize = 0;
            while k < neighbours.len()
                invariant
                    e == map_edge(graph@),
                    graph@.contains_key(node),
                    graph@[node] == *neighbours,
                    expanded.contains(node),
                    k <= neighbours@.len(),
                    stack@.no_duplicates(),
                    seen@.contains(start),
                    forall|v: usize| #[trigger] seen@.contains(v) <==> expanded.contains(v) || stack@.contains(v),
                    forall|v: usize| #[trigger] expanded.contains(v) ==> !stack@.contains(v),
                    forall|v: usize| #[trigger] seen@.contains(v) ==> linked(e, start, v),
                    forall|v: usize, w: usize| #[trigger] expanded.contains(v) && #[trigger] e(v, w) && v != node ==> seen@.contains(w),
                    forall|m: int| 0 <= m < k ==> seen@.contains(#[trigger] neighbours@[m]),
                decreases neighbours@.len() - k,
            {
                let w = neighbours[k];
                if !seen.contains(&w) {
                    proof {
                        assert(neighbours@.contains(w));
                        assert(seen@.contains(node));
                        assert(e(node, w));
                        lemma_linked_extend(e, start, node, w);
                    }
                    let ghost stack_prev = stack@;
                    seen.insert(w);
                    stack.push(w);
                    proof {
                        assert forall|v: usize| #[trigger] stack@.contains(v) <==> stack_prev.contains(v) || v == w by {
                            if stack@.contains(v) {
                                let m = choose|m: int| 0 <= m < stack@.len() && stack@[m] == v;
                                if m < stack_prev.len() {
                                    assert(stack_prev[m] == v);
                                }
                            }
                            if stack_prev.contains(v) {
                                let m = choose|m: int| 0 <= m < stack_prev.len() && stack_prev[m] == v;
                                assert(stack@[m] == v);
                            }
                            if v == w {
                                assert(stack@[stack_prev.len() as int] == w);
                            }
                        }
                    }
                }
                k += 1;
            }
            proof {
                assert forall|v: usize, w: usize| #[trigger] expanded.contains(v) && #[trigger] e(v, w) implies seen@.contains(w) by {
                    if v == node {
                        assert(neighbours@.contains(w));
                        let m = choose|m: int| 0 <= m < neighbours@.len() && neighbours@[m] == w;
                    }
                }
            }
        } else {
            proof {
                assert(!graph@.contains_key(node));
                assert(stack@.len() < stack_before.len());
            }
        }
    }
    proof {
        assert forall|v: usize| #[trigger] seen@.contains(v) <==> linked(e, start, v) by {
            if linked(e, start, v) {
                let path = choose|path: Seq<usize>| #[trigger] is_walk(e, path) && path[0] == start && path.last() == v;
                let closed = |x: usize| seen@.contains(x);
                assert forall|x: usize, y: usize| #[trigger] closed(x) && #[trigger] e(x, y) implies closed(y) by {
                    assert(expanded.contains(x));
                }
                lemma_closed_holds_walk(e, closed, path);
            }
        }
    }
    seen
}


/// A copy of the list
fn copy_list(v: &Vec<usize>) -> (r: Vec<usize>)
    ensures
        r@ == v@,
{
    let mut r: Vec<usize> = Vec::new();
    let mut k: usize = 0;
    while k < v.len()
        invariant
            k <= v@.len(),
            r@ == v@.take(k as int),
        decreases v@.len() - k,
    {
        r.push(v[k]);
        k += 1;
        assert(r@ =~= v@.take(k as int));
    }
    assert(v@.take(v@.len() as int) =~= v@);
    r
}

/// The map from each node `0..n` to its adjacency list, where `n` is the number of lists: the
/// same edges as the lists
pub fn lists_to_map(adj: &Vec<Vec<usize>>) -> (m: HashMap<usize, Vec<usize>>)
    requires
        forall|a: int, k: int| 0 <= a < adj@.len() && 0 <= k < adj@[a]@.len() ==> #[trigger] adj@[a]@[k]
            < adj@.len(),
    ensures
        map_edge(m@) == list_edge(lists_view(adj)),
{
    broadcast use vstd::std_specs::hash::group_hash_axioms;

    let mut m: HashMap<usize, Vec<usize>> = HashMap::new();
    let mut a: usize = 0;
    while a < adj.len()
        invariant
            a <= adj@.len(),
            forall|k: usize| #[trigger] m@.contains_key(k) <==> k < a,
            forall|k: usize| k < a ==> #[trigger] m@[k]@ == adj@[k as int]@,
        decreases adj@.len() - a,
    {
        let list = copy_list(&adj[a]);
        m.insert(a, list);
        a += 1;
    }
    let ghost lv = lists_view(adj);
    assert forall|x: usize, y: usize| #[trigger] map_edge(m@)(x, y) == list_edge(lv)(x, y) by {
        if x < adj@.len() {
            assert(lv[x as int] == adj@[x as int]@);
            if adj@[x as int]@.contains(y) {
                let k = choose|k: int| 0 <= k < adj@[x as int]@.len() && adj@[x as int]@[k] == y;
            }
        }
    }
    assert(map_edge(m@) =~= list_edge(lv));
    m
}

/// Which of the nodes `0..n` the set holds
pub fn set_flags(set: &HashSet<usize>, n: usize) -> (r: Vec<bool>)
    ensures
        r@.len() == n,
        forall|v: usize| v < n ==> #[trigger] r@[v as int] == set@.contains(v),
{
    broadcast use vstd::std_specs::hash::group_hash_axioms;

    let mut r: Vec<bool> = Vec::new();
    let mut v: usize = 0;
    while v < n
        invariant
            v <= n,
            r@.len() == v,
            forall|u: usize| u < v ==> #[trigger] r@[u as int] == set@.contains(u),
        decreases n - v,
    {
        r.push(set.contains(&v));
        v += 1;
    }
    r
}

} // verus!
