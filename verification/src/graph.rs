//! Dependency graphs over node numbers.
//!
//! A graph of `n` nodes is a list of `n` dependency lists: list `u` holds
//! the nodes that node `u` depends on, each at most once. The planner and
//! the cycle check of the catalog both work on this form; the callers
//! number the products in name order, so the order of the node numbers is
//! the lexicographic order of the product names.

use vstd::prelude::*;

verus! {

/// The dependency lists of a graph as sequences.
pub open spec fn lists(adj: &Vec<Vec<usize>>) -> Seq<Seq<usize>> {
    Seq::new(adj@.len(), |i: int| adj@[i]@)
}

/// Every dependency is a node of the graph and is listed once.
pub open spec fn graph_wf(g: Seq<Seq<usize>>) -> bool {
    &&& forall|u: int, k: int|
        0 <= u < g.len() && 0 <= k < g[u].len() ==> (#[trigger] g[u][k]) < g.len()
    &&& forall|u: int| 0 <= u < g.len() ==> (#[trigger] g[u]).no_duplicates()
}

/// Node `u` depends on node `v`.
pub open spec fn edge(g: Seq<Seq<usize>>, u: int, v: int) -> bool {
    &&& 0 <= u < g.len()
    &&& 0 <= v < g.len()
    &&& g[u].contains(v as usize)
}

/// Each node of `w` depends on the next one.
pub open spec fn is_walk(g: Seq<Seq<usize>>, w: Seq<int>) -> bool {
    forall|i: int| 0 <= i < w.len() - 1 ==> edge(g, #[trigger] w[i], w[i + 1])
}

/// `w` follows at least one dependency and ends where it began.
pub open spec fn is_cycle(g: Seq<Seq<usize>>, w: Seq<int>) -> bool {
    &&& w.len() >= 2
    &&& w[0] == w[w.len() - 1]
    &&& is_walk(g, w)
}

/// Some node depends, directly or through others, on itself.
pub open spec fn has_cycle(g: Seq<Seq<usize>>) -> bool {
    exists|w: Seq<int>| is_cycle(g, w)
}

/// Node `v` depends, directly or through others, on itself.
pub open spec fn on_cycle(g: Seq<Seq<usize>>, v: int) -> bool {
    exists|w: Seq<int>| is_cycle(g, w) && w[0] == v
}

/// Along a walk a rank that falls on every edge falls by the length.
proof fn lemma_walk_rank(g: Seq<Seq<usize>>, rank: Seq<int>, w: Seq<int>)
    requires
        rank.len() == g.len(),
        forall|u: int, v: int| edge(g, u, v) ==> rank[v] < rank[u],
        is_walk(g, w),
        w.len() >= 2,
    ensures
        rank[w[w.len() - 1]] <= rank[w[0]] - (w.len() - 1),
    decreases w.len(),
{
    if w.len() == 2 {
        assert(edge(g, w[0], w[1]));
    } else {
        let p = w.drop_last();
        assert(is_walk(g, p)) by {
            assert forall|i: int| 0 <= i < p.len() - 1 implies edge(g, #[trigger] p[i], p[i + 1]) by {
                assert(edge(g, w[i], w[i + 1]));
            }
        }
        lemma_walk_rank(g, rank, p);
        assert(edge(g, w[w.len() - 2], w[w.len() - 2 + 1]));
    }
}

/// A graph whose nodes can be ranked so that every dependency has a lower
/// rank than its dependent has no cycle.
pub proof fn lemma_ranked_acyclic(g: Seq<Seq<usize>>, rank: Seq<int>)
    requires
        rank.len() == g.len(),
        forall|u: int, v: int| edge(g, u, v) ==> rank[v] < rank[u],
    ensures
        !has_cycle(g),
{
    if has_cycle(g) {
        let w = choose|w: Seq<int>| is_cycle(g, w);
        lemma_walk_rank(g, rank, w);
    }
}

/// The part of a walk between two places is a walk.
proof fn lemma_subwalk(g: Seq<Seq<usize>>, w: Seq<int>, i: int, j: int)
    requires
        is_walk(g, w),
        0 <= i <= j <= w.len(),
    ensures
        is_walk(g, w.subrange(i, j)),
{
    let s = w.subrange(i, j);
    assert forall|k: int| 0 <= k < s.len() - 1 implies edge(g, #[trigger] s[k], s[k + 1]) by {
        assert(edge(g, w[i + k], w[i + k + 1]));
    }
}

/// A sequence of more than `n` numbers below `n` holds a number twice.
proof fn lemma_pigeonhole(w: Seq<int>, n: int)
    requires
        forall|i: int| 0 <= i < w.len() ==> 0 <= #[trigger] w[i] < n,
        w.len() > n,
        n >= 0,
    ensures
        exists|i: int, j: int| 0 <= i < j < w.len() && w[i] == w[j],
{
    if w.no_duplicates() {
        w.unique_seq_to_set();
        let s = w.to_set();
        let r = vstd::set_lib::set_int_range(0, n);
        vstd::set_lib::lemma_int_range(0, n);
        assert(s.subset_of(r)) by {
            assert forall|x: int| s.contains(x) implies r.contains(x) by {
                let i = choose|i: int| 0 <= i < w.len() && w[i] == x;
            }
        }
        vstd::set_lib::lemma_len_subset(s, r);
    } else {
        let (i, j) = choose|i: int, j: int|
            0 <= i < w.len() && 0 <= j < w.len() && i != j && w[i] == w[j];
        if i < j {
            assert(0 <= i < j < w.len() && w[i] == w[j]);
        } else {
            assert(0 <= j < i < w.len() && w[j] == w[i]);
        }
    }
}

/// Fewer than `n` numbers leave one of the numbers below `n` out.
proof fn lemma_one_left_out(s: Seq<usize>, n: int)
    requires
        s.len() < n,
        n <= usize::MAX + 1,
    ensures
        exists|v: usize| v < n && !(#[trigger] s.contains(v)),
{
    if forall|v: usize| v < n ==> #[trigger] s.contains(v) {
        let w = Seq::new(n as nat, |v: int| s.index_of(v as usize));
        assert forall|i: int| 0 <= i < w.len() implies 0 <= #[trigger] w[i] < s.len() by {
            assert(s.contains(i as usize));
        }
        lemma_pigeonhole(w, s.len() as int);
        let (i, j) = choose|i: int, j: int| 0 <= i < j < w.len() && w[i] == w[j];
        assert(s.contains(i as usize));
        assert(s.contains(j as usize));
        assert(s[w[i]] == i as usize);
        assert(s[w[j]] == j as usize);
    }
}

/// Node `d` stands among the first `r` places of `order`.
pub open spec fn placed_before(order: Seq<usize>, r: int, d: usize) -> bool {
    exists|q: int| 0 <= q < r && q < order.len() && order[q] == d
}

/// Every dependency of node `v` stands among the first `r` places.
pub open spec fn deps_placed(g: Seq<Seq<usize>>, order: Seq<usize>, v: int, r: int) -> bool {
    forall|k: int| 0 <= k < g[v].len() ==> placed_before(order, r, #[trigger] g[v][k])
}

/// The node at place `p` became ready when `r` nodes were placed: all its
/// dependencies stand among the first `r` places, and the last of them at
/// place `r - 1`.
pub open spec fn ready_point(g: Seq<Seq<usize>>, order: Seq<usize>, p: int, r: int) -> bool {
    &&& 0 <= r <= p < order.len()
    &&& deps_placed(g, order, order[p] as int, r)
    &&& r > 0 ==> g[order[p] as int].contains(order[r - 1])
}

/// `order` is the plan of the graph: it holds every node once, each after
/// all its dependencies, in the order in which the nodes became ready, and
/// nodes that became ready together by rising node number.
pub open spec fn is_plan(g: Seq<Seq<usize>>, order: Seq<usize>) -> bool {
    &&& order.len() == g.len()
    &&& order.no_duplicates()
    &&& forall|p: int| 0 <= p < order.len() ==> (#[trigger] order[p]) < g.len()
    &&& forall|p: int| 0 <= p < order.len() ==> deps_placed(g, order, #[trigger] order[p] as int, p)
    &&& forall|pa: int, pb: int, r1: int, r2: int|
        0 <= pa < pb < order.len() && #[trigger] ready_point(g, order, pa, r1)
            && #[trigger] ready_point(g, order, pb, r2) ==> r1 < r2 || (r1 == r2 && order[pa]
            < order[pb])
}

/// A node has one ready point only.
pub proof fn lemma_ready_point_unique(
    g: Seq<Seq<usize>>,
    order: Seq<usize>,
    p: int,
    r1: int,
    r2: int,
)
    requires
        order.no_duplicates(),
        ready_point(g, order, p, r1),
        ready_point(g, order, p, r2),
    ensures
        r1 == r2,
{
    if r1 < r2 {
        let d = order[r2 - 1];
        let k = choose|k: int| 0 <= k < g[order[p] as int].len() && g[order[p] as int][k] == d;
        assert(placed_before(order, r1, g[order[p] as int][k]));
    } else if r2 < r1 {
        let d = order[r1 - 1];
        let k = choose|k: int| 0 <= k < g[order[p] as int].len() && g[order[p] as int][k] == d;
        assert(placed_before(order, r2, g[order[p] as int][k]));
    }
}

/// As many different numbers below `n` as there are numbers below `n`
/// are all of them.
pub proof fn lemma_holds_all(order: Seq<usize>, n: int)
    requires
        order.no_duplicates(),
        order.len() == n,
        forall|p: int| 0 <= p < order.len() ==> (#[trigger] order[p]) < n,
    ensures
        forall|v: usize| v < n ==> #[trigger] order.contains(v),
{
    assert forall|v: usize| v < n implies #[trigger] order.contains(v) by {
        if !order.contains(v) {
            let w = Seq::new(
                order.len() + 1,
                |i: int|
                    if i < order.len() {
                        order[i] as int
                    } else {
                        v as int
                    },
            );
            lemma_pigeonhole(w, n);
            let (i, j) = choose|i: int, j: int| 0 <= i < j < w.len() && w[i] == w[j];
            if j < order.len() {
                assert(order[i] == order[j]);
            } else {
                assert(order[i] == v);
            }
        }
    }
}

/// A graph that has a plan has no cycle.
pub proof fn lemma_plan_acyclic(g: Seq<Seq<usize>>, order: Seq<usize>)
    requires
        is_plan(g, order),
    ensures
        !has_cycle(g),
{
    // The rank of a node is its place in the plan.
    lemma_holds_all(order, g.len() as int);
    assert(g.len() <= usize::MAX + 1) by {
        if g.len() > usize::MAX + 1 {
            let w = Seq::new(order.len(), |i: int| order[i] as int);
            lemma_pigeonhole(w, usize::MAX + 1);
            let (i, j) = choose|i: int, j: int| 0 <= i < j < w.len() && w[i] == w[j];
            assert(order[i] == order[j]);
        }
    }
    let rank = Seq::new(g.len(), |v: int| order.index_of(v as usize));
    assert forall|u: int, v: int| edge(g, u, v) implies rank[v] < rank[u] by {
        let pu = order.index_of(u as usize);
        let pv = order.index_of(v as usize);
        assert(order.contains(u as usize));
        assert(order.contains(v as usize));
        assert(order[pu] == u as usize && order[pv] == v as usize);
        let k = choose|k: int| 0 <= k < g[u].len() && g[u][k] == v as usize;
        assert(deps_placed(g, order, order[pu] as int, pu));
        assert(placed_before(order, pu, g[u][k]));
        let q = choose|q: int| 0 <= q < pu && q < order.len() && order[q] == v as usize;
        assert(q == pv);
    }
    lemma_ranked_acyclic(g, rank);
}

/// How many of `deps` do not stand among the first `r` places of `order`.
pub open spec fn pending(deps: Seq<usize>, order: Seq<usize>, r: int) -> nat
    decreases deps.len(),
{
    if deps.len() == 0 {
        0
    } else {
        pending(deps.drop_last(), order, r) + if placed_before(order, r, deps.last()) {
            0nat
        } else {
            1nat
        }
    }
}

/// Where nothing is placed, every dependency counts.
proof fn lemma_pending_bound(deps: Seq<usize>, order: Seq<usize>, r: int)
    ensures
        pending(deps, order, r) <= deps.len(),
        r <= 0 ==> pending(deps, order, r) == deps.len(),
    decreases deps.len(),
{
    if deps.len() > 0 {
        lemma_pending_bound(deps.drop_last(), order, r);
    }
}

/// The count is zero exactly where every dependency is placed.
proof fn lemma_pending_zero(deps: Seq<usize>, order: Seq<usize>, r: int)
    ensures
        pending(deps, order, r) == 0 <==> (forall|k: int|
            0 <= k < deps.len() ==> placed_before(order, r, #[trigger] deps[k])),
    decreases deps.len(),
{
    if deps.len() > 0 {
        let init = deps.drop_last();
        lemma_pending_zero(init, order, r);
        if pending(deps, order, r) == 0 {
            assert forall|k: int| 0 <= k < deps.len() implies placed_before(
                order,
                r,
                #[trigger] deps[k],
            ) by {
                if k < deps.len() - 1 {
                    assert(init[k] == deps[k]);
                }
            }
        } else {
            if pending(init, order, r) != 0 {
                let k = choose|k: int| 0 <= k < init.len() && !placed_before(order, r, #[trigger] init[k]);
                assert(init[k] == deps[k]);
            } else {
                assert(!placed_before(order, r, deps[deps.len() - 1]));
            }
        }
    }
}

/// Placing one more node lowers the count by one where the node is a
/// dependency, and leaves it where it is not.
proof fn lemma_pending_step(deps: Seq<usize>, order: Seq<usize>, r: int)
    requires
        deps.no_duplicates(),
        order.no_duplicates(),
        0 <= r < order.len(),
    ensures
        deps.contains(order[r]) ==> pending(deps, order, r) >= 1 && pending(deps, order, r + 1)
            == pending(deps, order, r) - 1,
        !deps.contains(order[r]) ==> pending(deps, order, r + 1) == pending(deps, order, r),
    decreases deps.len(),
{
    if deps.len() > 0 {
        let init = deps.drop_last();
        let d = deps.last();
        lemma_pending_step(init, order, r);
        assert(placed_before(order, r + 1, d) <==> placed_before(order, r, d) || d == order[r]) by {
            if placed_before(order, r + 1, d) {
                let q = choose|q: int| 0 <= q < r + 1 && q < order.len() && order[q] == d;
                if q < r {
                    assert(placed_before(order, r, d));
                }
            }
            if placed_before(order, r, d) {
                let q = choose|q: int| 0 <= q < r && q < order.len() && order[q] == d;
                assert(0 <= q < r + 1 && q < order.len() && order[q] == d);
            }
            if d == order[r] {
                assert(0 <= r < r + 1 && r < order.len() && order[r] == d);
            }
        }
        if d == order[r] {
            assert(!placed_before(order, r, d)) by {
                if placed_before(order, r, d) {
                    let q = choose|q: int| 0 <= q < r && q < order.len() && order[q] == d;
                    assert(order[q] == order[r]);
                }
            }
            assert(!init.contains(order[r])) by {
                if init.contains(order[r]) {
                    let k = choose|k: int| 0 <= k < init.len() && init[k] == order[r];
                    assert(deps[k] == deps[deps.len() - 1]);
                }
            }
            assert(deps.contains(order[r])) by {
                assert(deps[deps.len() - 1] == order[r]);
            }
        } else {
            assert(deps.contains(order[r]) <==> init.contains(order[r])) by {
                if deps.contains(order[r]) {
                    let k = choose|k: int| 0 <= k < deps.len() && deps[k] == order[r];
                    assert(init[k] == order[r]);
                }
                if init.contains(order[r]) {
                    let k = choose|k: int| 0 <= k < init.len() && init[k] == order[r];
                    assert(deps[k] == order[r]);
                }
            }
        }
        assert(init.no_duplicates());
    }
}

/// What stands behind the places that are looked at does not count.
proof fn lemma_pending_push(deps: Seq<usize>, order: Seq<usize>, r: int, x: usize)
    requires
        r <= order.len(),
    ensures
        pending(deps, order.push(x), r) == pending(deps, order, r),
    decreases deps.len(),
{
    if deps.len() > 0 {
        lemma_pending_push(deps.drop_last(), order, r, x);
        lemma_placed_push(order, r, deps.last(), x);
    }
}

/// A node placed behind the places that are looked at changes nothing.
proof fn lemma_placed_push(order: Seq<usize>, r: int, d: usize, x: usize)
    requires
        r <= order.len(),
    ensures
        placed_before(order.push(x), r, d) == placed_before(order, r, d),
{
    let o2 = order.push(x);
    if placed_before(order, r, d) {
        let q = choose|q: int| 0 <= q < r && q < order.len() && order[q] == d;
        assert(0 <= q < r && q < o2.len() && o2[q] == d);
    }
    if placed_before(o2, r, d) {
        let q = choose|q: int| 0 <= q < r && q < o2.len() && o2[q] == d;
        assert(0 <= q < r && q < order.len() && order[q] == d);
    }
}

/// A ready point stays one when a node is placed at the end.
proof fn lemma_ready_point_push(g: Seq<Seq<usize>>, order: Seq<usize>, p: int, r: int, x: usize)
    requires
        ready_point(g, order, p, r),
    ensures
        ready_point(g, order.push(x), p, r),
{
    let o2 = order.push(x);
    assert forall|k: int| 0 <= k < g[o2[p] as int].len() implies placed_before(
        o2,
        r,
        #[trigger] g[o2[p] as int][k],
    ) by {
        assert(placed_before(order, r, g[order[p] as int][k]));
        lemma_placed_push(order, r, g[order[p] as int][k], x);
    }
}

/// Whether `deps` holds `x`.
fn list_contains(deps: &Vec<usize>, x: usize) -> (r: bool)
    ensures
        r == deps@.contains(x),
{
    let mut k: usize = 0;
    while k < deps.len()
        invariant
            k <= deps@.len(),
            forall|j: int| 0 <= j < k ==> deps@[j] != x,
        decreases deps@.len() - k,
    {
        if deps[k] == x {
            return true;
        }
        k += 1;
    }
    false
}

/// The state of the planner between two steps: `order` holds the nodes
/// placed so far and, behind place `head`, those that wait.
spec fn planner_inv(
    g: Seq<Seq<usize>>,
    indeg: Seq<usize>,
    order: Seq<usize>,
    ready: Seq<int>,
    head: int,
    cut: int,
) -> bool {
    &&& graph_wf(g)
    &&& indeg.len() == g.len()
    &&& 0 <= head <= order.len()
    &&& 0 <= cut <= g.len()
    &&& (cut > 0 ==> head < order.len())
    &&& order.no_duplicates()
    &&& forall|p: int| 0 <= p < order.len() ==> (#[trigger] order[p]) < g.len()
    &&& ready.len() == order.len()
    &&& forall|p: int| 0 <= p < order.len() ==> #[trigger] ready_point(g, order, p, ready[p])
    &&& forall|p: int|
        0 <= p < order.len() ==> (#[trigger] ready[p]) <= head + 1 && (ready[p] == head + 1
            ==> order[p] < cut)
    &&& forall|pa: int, pb: int|
        0 <= pa < pb < order.len() ==> (#[trigger] ready[pa]) < (#[trigger] ready[pb]) || (
        ready[pa] == ready[pb] && order[pa] < order[pb])
    &&& forall|v: int|
        0 <= v < g.len() ==> (#[trigger] indeg[v]) == pending(
            g[v],
            order,
            if v < cut { head + 1 } else { head },
        )
    &&& forall|v: int| 0 <= v < g.len() ==> (order.contains(v as usize) <==> #[trigger] indeg[v] == 0)
}

/// A node that is not placed when the planner stops depends on another
/// such node.
proof fn lemma_stuck_node(g: Seq<Seq<usize>>, indeg: Seq<usize>, order: Seq<usize>, ready: Seq<int>, v: int)
    requires
        planner_inv(g, indeg, order, ready, order.len() as int, 0),
        0 <= v < g.len(),
        !order.contains(v as usize),
    ensures
        exists|d: int| edge(g, v, d) && !order.contains(d as usize),
{
    lemma_pending_zero(g[v], order, order.len() as int);
    assert(indeg[v] != 0);
    let k = choose|k: int| 0 <= k < g[v].len() && !placed_before(order, order.len() as int, #[trigger] g[v][k]);
    let d = g[v][k];
    assert(g[v].contains(d));
    assert(edge(g, v, d as int));
    if order.contains(d) {
        let q = choose|q: int| 0 <= q < order.len() && order[q] == d;
        assert(placed_before(order, order.len() as int, d));
    }
}

/// A walk of `k` dependencies through nodes that are not placed.
spec fn stuck_walk(g: Seq<Seq<usize>>, order: Seq<usize>, v: int, k: nat) -> Seq<int>
    decreases k,
{
    if k == 0 {
        seq![v]
    } else {
        let w = stuck_walk(g, order, v, (k - 1) as nat);
        w.push(choose|d: int| edge(g, w.last(), d) && !order.contains(d as usize))
    }
}

/// The walk through nodes that are not placed is a walk of the graph, and
/// none of its nodes is placed.
proof fn lemma_stuck_walk(
    g: Seq<Seq<usize>>,
    indeg: Seq<usize>,
    order: Seq<usize>,
    ready: Seq<int>,
    v: int,
    k: nat,
)
    requires
        planner_inv(g, indeg, order, ready, order.len() as int, 0),
        0 <= v < g.len(),
        !order.contains(v as usize),
    ensures
        stuck_walk(g, order, v, k).len() == k + 1,
        is_walk(g, stuck_walk(g, order, v, k)),
        forall|i: int|
            0 <= i <= k ==> 0 <= (#[trigger] stuck_walk(g, order, v, k)[i]) < g.len()
                && !order.contains(stuck_walk(g, order, v, k)[i] as usize),
    decreases k,
{
    if k > 0 {
        let w = stuck_walk(g, order, v, (k - 1) as nat);
        lemma_stuck_walk(g, indeg, order, ready, v, (k - 1) as nat);
        assert(0 <= w[k - 1] < g.len());
        lemma_stuck_node(g, indeg, order, ready, w.last());
        let d = choose|d: int| edge(g, w.last(), d) && !order.contains(d as usize);
        let w2 = w.push(d);
        assert(w2 == stuck_walk(g, order, v, k));
        assert forall|i: int| 0 <= i < w2.len() - 1 implies edge(g, #[trigger] w2[i], w2[i + 1]) by {
            if i < w.len() - 1 {
                assert(edge(g, w[i], w[i + 1]));
            }
        }
        assert forall|i: int| 0 <= i <= k implies 0 <= (#[trigger] w2[i]) < g.len()
            && !order.contains(w2[i] as usize) by {
            if i < k {
                assert(w2[i] == w[i]);
            }
        }
    }
}

/// Where the planner stops before every node is placed, the graph has a
/// cycle.
proof fn lemma_stuck_cycle(g: Seq<Seq<usize>>, indeg: Seq<usize>, order: Seq<usize>, ready: Seq<int>)
    requires
        planner_inv(g, indeg, order, ready, order.len() as int, 0),
        order.len() < g.len(),
        g.len() <= usize::MAX,
    ensures
        has_cycle(g),
{
    lemma_one_left_out(order, g.len() as int);
    let v0 = choose|v: usize| v < g.len() && !(#[trigger] order.contains(v));
    let v = v0 as int;
    let n = g.len();
    let w = stuck_walk(g, order, v, n);
    lemma_stuck_walk(g, indeg, order, ready, v, n);
    lemma_pigeonhole(w, n as int);
    let (i, j) = choose|i: int, j: int| 0 <= i < j < w.len() && w[i] == w[j];
    let c = w.subrange(i, j + 1);
    lemma_subwalk(g, w, i, j + 1);
    assert(c[0] == w[i]);
    assert(c[c.len() - 1] == w[j]);
    assert(is_cycle(g, c));
}

/// The plan of a graph, by Kahn's algorithm.
///
/// The nodes without dependencies are placed first, by rising number. Each
/// placed node is then taken in turn; the nodes whose last dependency it
/// was are placed behind the others, by rising number. `None` is returned
/// exactly where the graph has a cycle.
pub fn kahn_order(adj: &Vec<Vec<usize>>) -> (r: Option<Vec<usize>>)
    requires
        graph_wf(lists(adj)),
    ensures
        match r {
            Some(order) => is_plan(lists(adj), order@) && !has_cycle(lists(adj)),
            None => has_cycle(lists(adj)),
        },
{
    let n = adj.len();
    let ghost g = lists(adj);
    let mut indeg: Vec<usize> = Vec::new();
    let mut order: Vec<usize> = Vec::new();
    let ghost mut ready: Seq<int> = Seq::empty();
    let mut v: usize = 0;
    while v < n
        invariant
            g == lists(adj),
            n == adj@.len(),
            graph_wf(g),
            v <= n,
            indeg@.len() == v,
            forall|u: int| 0 <= u < v ==> (#[trigger] indeg@[u]) == g[u].len(),
            order@.len() <= v,
            ready.len() == order@.len(),
            order@.no_duplicates(),
            forall|p: int| 0 <= p < order@.len() ==> (#[trigger] order@[p]) < v,
            forall|p: int| 0 <= p < order@.len() ==> (#[trigger] ready[p]) == 0,
            forall|p: int| 0 <= p < order@.len() ==> g[(#[trigger] order@[p]) as int].len() == 0,
            forall|pa: int, pb: int|
                0 <= pa < pb < order@.len() ==> (#[trigger] order@[pa]) < (#[trigger] order@[pb]),
            forall|u: int| 0 <= u < v ==> (order@.contains(u as usize) <==> g[u].len() == 0),
        decreases n - v,
    {
        let d = adj[v].len();
        indeg.push(d);
        if d == 0 {
            proof {
                let o2 = order@.push(v);
                assert forall|u: int| 0 <= u < v + 1 implies (o2.contains(u as usize) <==> g[u].len()
                    == 0) by {
                    if u < v {
                        if order@.contains(u as usize) {
                            let q = choose|q: int| 0 <= q < order@.len() && order@[q] == u as usize;
                            assert(o2[q] == u as usize);
                        }
                        if o2.contains(u as usize) {
                            let q = choose|q: int| 0 <= q < o2.len() && o2[q] == u as usize;
                            assert(order@[q] == u as usize);
                        }
                    } else {
                        assert(o2[o2.len() - 1] == v);
                    }
                }
                ready = ready.push(0);
            }
            order.push(v);
        } else {
            proof {
                assert forall|u: int| 0 <= u < v + 1 implies (order@.contains(u as usize)
                    <==> g[u].len() == 0) by {
                    if u == v && order@.contains(u as usize) {
                        let q = choose|q: int| 0 <= q < order@.len() && order@[q] == u as usize;
                    }
                }
            }
        }
        v += 1;
    }
    let mut head: usize = 0;
    proof {
        assert forall|p: int| 0 <= p < order@.len() implies #[trigger] ready_point(
            g,
            order@,
            p,
            ready[p],
        ) by {}
        assert forall|u: int| 0 <= u < g.len() implies (#[trigger] indeg@[u]) == pending(
            g[u],
            order@,
            0,
        ) by {
            lemma_pending_bound(g[u], order@, 0);
        }
        assert(planner_inv(g, indeg@, order@, ready, 0, 0));
    }
    while head < order.len()
        invariant
            g == lists(adj),
            n == adj@.len(),
            planner_inv(g, indeg@, order@, ready, head as int, 0),
            order@.len() <= n,
        decreases n - head,
    {
        let cur = order[head];
        let mut other: usize = 0;
        proof {
            assert(planner_inv(g, indeg@, order@, ready, head as int, 0));
        }
        while other < n
            invariant
                g == lists(adj),
                n == adj@.len(),
                head < order@.len(),
                cur == order@[head as int],
                other <= n,
                planner_inv(g, indeg@, order@, ready, head as int, other as int),
            decreases n - other,
        {
            let ghost old_order = order@;
            let ghost old_indeg = indeg@;
            let ghost old_ready = ready;
            proof {
                lemma_pending_step(g[other as int], order@, head as int);
            }
            if list_contains(&adj[other], cur) {
                let e = indeg[other] - 1;
                indeg.set(other, e);
                if e == 0 {
                    proof {
                        assert(!old_order.contains(other));
                        lemma_pending_zero(g[other as int], old_order, head + 1);
                        ready = ready.push(head + 1);
                    }
                    order.push(other);
                    proof {
                        let o2 = order@;
                        assert(o2 == old_order.push(other));
                        assert(o2.no_duplicates()) by {
                            assert forall|i: int, j: int|
                                0 <= i < o2.len() && 0 <= j < o2.len() && i != j implies o2[i]
                                != o2[j] by {
                                if i < old_order.len() && j < old_order.len() {
                                    assert(old_order[i] != old_order[j]);
                                } else if i < old_order.len() {
                                    assert(old_order.contains(old_order[i]));
                                } else {
                                    assert(old_order.contains(old_order[j]));
                                }
                            }
                        }
                        assert forall|p: int| 0 <= p < o2.len() implies #[trigger] ready_point(
                            g,
                            o2,
                            p,
                            ready[p],
                        ) by {
                            if p < old_order.len() {
                                assert(ready_point(g, old_order, p, old_ready[p]));
                                lemma_ready_point_push(g, old_order, p, old_ready[p], other);
                            } else {
                                assert forall|k: int|
                                    0 <= k < g[other as int].len() implies placed_before(
                                    o2,
                                    head + 1,
                                    #[trigger] g[other as int][k],
                                ) by {
                                    lemma_placed_push(
                                        old_order,
                                        head + 1,
                                        g[other as int][k],
                                        other,
                                    );
                                }
                                assert(o2[head as int] == cur);
                            }
                        }
                        assert forall|u: int| 0 <= u < g.len() implies (#[trigger] indeg@[u])
                            == pending(
                            g[u],
                            o2,
                            if u < other + 1 {
                                head + 1
                            } else {
                                head as int
                            },
                        ) by {
                            lemma_pending_push(g[u], old_order, head + 1, other);
                            lemma_pending_push(g[u], old_order, head as int, other);
                            if u != other {
                                assert(indeg@[u] == old_indeg[u]);
                            }
                        }
                        assert forall|u: int| 0 <= u < g.len() implies (o2.contains(u as usize)
                            <==> #[trigger] indeg@[u] == 0) by {
                            if u == other {
                                assert(o2[o2.len() - 1] == other);
                            } else {
                                assert(indeg@[u] == old_indeg[u]);
                                if old_order.contains(u as usize) {
                                    let q = choose|q: int|
                                        0 <= q < old_order.len() && old_order[q] == u as usize;
                                    assert(o2[q] == u as usize);
                                }
                                if o2.contains(u as usize) {
                                    let q = choose|q: int| 0 <= q < o2.len() && o2[q] == u as usize;
                                    assert(old_order[q] == u as usize);
                                }
                            }
                        }
                        assert forall|pa: int, pb: int| 0 <= pa < pb < o2.len() implies (
                        #[trigger] ready[pa]) < (#[trigger] ready[pb]) || (ready[pa] == ready[pb]
                            && o2[pa] < o2[pb]) by {
                            if pb < old_order.len() {
                                assert(old_ready[pa] < old_ready[pb] || (old_ready[pa]
                                    == old_ready[pb] && old_order[pa] < old_order[pb]));
                            } else {
                                assert(old_ready[pa] <= head + 1);
                            }
                        }
                    }
                } else {
                    proof {
                        assert forall|u: int| 0 <= u < g.len() implies (#[trigger] indeg@[u])
                            == pending(
                            g[u],
                            order@,
                            if u < other + 1 {
                                head + 1
                            } else {
                                head as int
                            },
                        ) by {
                            if u != other {
                                assert(indeg@[u] == old_indeg[u]);
                            }
                        }
                        assert forall|u: int| 0 <= u < g.len() implies (order@.contains(u as usize)
                            <==> #[trigger] indeg@[u] == 0) by {
                            if u != other {
                                assert(indeg@[u] == old_indeg[u]);
                            }
                        }
                    }
                }
            } else {
                proof {
                    assert forall|u: int| 0 <= u < g.len() implies (#[trigger] indeg@[u]) == pending(
                        g[u],
                        order@,
                        if u < other + 1 {
                            head + 1
                        } else {
                            head as int
                        },
                    ) by {}
                }
            }
            other += 1;
        }
        proof {
            lemma_one_more(order@, n as int, head as int);
        }
        head += 1;
    }
    if order.len() == n {
        proof {
            assert(is_plan(g, order@)) by {
                assert forall|p: int| 0 <= p < order@.len() implies deps_placed(
                    g,
                    order@,
                    #[trigger] order@[p] as int,
                    p,
                ) by {
                    assert(ready_point(g, order@, p, ready[p]));
                    assert forall|k: int| 0 <= k < g[order@[p] as int].len() implies placed_before(
                        order@,
                        p,
                        #[trigger] g[order@[p] as int][k],
                    ) by {
                        assert(placed_before(order@, ready[p], g[order@[p] as int][k]));
                        let q = choose|q: int|
                            0 <= q < ready[p] && q < order@.len() && order@[q]
                                == g[order@[p] as int][k];
                        assert(0 <= q < p && q < order@.len() && order@[q]
                            == g[order@[p] as int][k]);
                    }
                }
                assert forall|pa: int, pb: int, r1: int, r2: int|
                    0 <= pa < pb < order@.len() && #[trigger] ready_point(g, order@, pa, r1)
                        && #[trigger] ready_point(g, order@, pb, r2) implies r1 < r2 || (r1 == r2
                    && order@[pa] < order@[pb]) by {
                    assert(ready_point(g, order@, pa, ready[pa]));
                    assert(ready_point(g, order@, pb, ready[pb]));
                    lemma_ready_point_unique(g, order@, pa, r1, ready[pa]);
                    lemma_ready_point_unique(g, order@, pb, r2, ready[pb]);
                }
            }
            lemma_plan_acyclic(g, order@);
        }
        Some(order)
    } else {
        proof {
            lemma_stuck_cycle(g, indeg@, order@, ready);
        }
        None
    }
}

/// A sequence of different numbers below `n` has at most `n` of them.
proof fn lemma_one_more(order: Seq<usize>, n: int, head: int)
    requires
        order.no_duplicates(),
        forall|p: int| 0 <= p < order.len() ==> (#[trigger] order[p]) < n,
        0 <= head < order.len(),
    ensures
        order.len() <= n,
        head < n,
{
    assert(order[head] < n);
    if order.len() > n {
        let w = Seq::new(order.len(), |i: int| order[i] as int);
        lemma_pigeonhole(w, n);
        let (i, j) = choose|i: int, j: int| 0 <= i < j < w.len() && w[i] == w[j];
        assert(order[i] == order[j]);
    }
}

/// Node `v` stands on the stack of the search.
spec fn on_stack(stack: Seq<(usize, usize)>, v: int) -> bool {
    exists|i: int| 0 <= i < stack.len() && (#[trigger] stack[i]).0 == v
}

/// The dependencies of the top of the stack that are still to be looked at.
spec fn top_remaining(g: Seq<Seq<usize>>, stack: Seq<(usize, usize)>) -> int {
    if stack.len() == 0 {
        0
    } else {
        g[stack.last().0 as int].len() - stack.last().1
    }
}

/// The state of the depth-first search between two steps. A node is
/// unvisited (0), in progress (1) or done (2). The nodes in progress are
/// those on the stack, each with the number of its dependencies that were
/// looked at; each but the top depends on the one above it. A node that is
/// done has only dependencies that were done before it.
spec fn search_inv(
    g: Seq<Seq<usize>>,
    color: Seq<u8>,
    stack: Seq<(usize, usize)>,
    fin: Seq<int>,
    clock: int,
    whites: Set<int>,
) -> bool {
    &&& graph_wf(g)
    &&& color.len() == g.len()
    &&& fin.len() == g.len()
    &&& whites.finite()
    &&& forall|v: int| 0 <= v < g.len() ==> (#[trigger] color[v] == 0 <==> whites.contains(v))
    &&& forall|v: int| 0 <= v < g.len() ==> (#[trigger] color[v]) <= 2
    &&& forall|i: int|
        0 <= i < stack.len() ==> (#[trigger] stack[i]).0 < g.len() && stack[i].1
            <= g[stack[i].0 as int].len() && color[stack[i].0 as int] == 1
    &&& forall|i: int, j: int|
        0 <= i < j < stack.len() ==> (#[trigger] stack[i]).0 != (#[trigger] stack[j]).0
    &&& forall|v: int| 0 <= v < g.len() && #[trigger] color[v] == 1 ==> on_stack(stack, v)
    &&& forall|i: int|
        0 <= i < stack.len() - 1 ==> (#[trigger] stack[i]).1 > 0 && g[stack[i].0 as int][stack[i].1
            - 1] == stack[i + 1].0
    &&& forall|i: int, j: int|
        0 <= i < stack.len() && 0 <= j < stack[i].1 && !(i < stack.len() - 1 && j == stack[i].1
            - 1) ==> color[(#[trigger] g[stack[i].0 as int][j]) as int] == 2
    &&& forall|u: int, k: int|
        0 <= u < g.len() && color[u] == 2 && 0 <= k < g[u].len() ==> color[(
        #[trigger] g[u][k]) as int] == 2 && fin[g[u][k] as int] < fin[u]
    &&& forall|u: int| 0 <= u < g.len() && color[u] == 2 ==> (#[trigger] fin[u]) < clock
}

/// Where every node is done, the graph has no cycle.
proof fn lemma_all_done(
    g: Seq<Seq<usize>>,
    color: Seq<u8>,
    stack: Seq<(usize, usize)>,
    fin: Seq<int>,
    clock: int,
    whites: Set<int>,
)
    requires
        search_inv(g, color, stack, fin, clock, whites),
        forall|v: int| 0 <= v < g.len() ==> #[trigger] color[v] == 2,
        g.len() <= usize::MAX,
    ensures
        !has_cycle(g),
{
    assert forall|u: int, v: int| edge(g, u, v) implies fin[v] < fin[u] by {
        let k = choose|k: int| 0 <= k < g[u].len() && g[u][k] == v as usize;
        assert(color[u] == 2);
        assert(fin[g[u][k] as int] < fin[u]);
        assert(g[u][k] as int == v);
    }
    lemma_ranked_acyclic(g, fin);
}

/// The outcome of the visit of a node.
pub enum Visit {
    /// The search has met a node in progress again.
    Cycle(int),
    /// The node is done; the set holds the nodes that are done by then.
    Done(Set<int>),
}

/// The visit of node `v` of the depth-first search, where the nodes of
/// `gray` are in progress and those of `black` are done.
///
/// A node that is done is passed over. A node that is in progress ends the
/// search: it is the node at which the cycle is met. Any other node is in
/// progress while its dependencies are visited in the order of its list,
/// and done after that. `depth` bounds how many nodes can be in progress
/// one below the other; the number of nodes is enough.
pub open spec fn visit(g: Seq<Seq<usize>>, v: int, gray: Set<int>, black: Set<int>, depth: nat) -> Visit
    decreases depth, 0nat,
{
    if black.contains(v) {
        Visit::Done(black)
    } else if gray.contains(v) {
        Visit::Cycle(v)
    } else if depth == 0 {
        Visit::Done(black)
    } else {
        match visit_all(g, v, 0, gray.insert(v), black, (depth - 1) as nat) {
            Visit::Cycle(c) => Visit::Cycle(c),
            Visit::Done(b) => Visit::Done(b.insert(v)),
        }
    }
}

/// The visits of the dependencies of node `u` from place `k` of its list
/// on.
pub open spec fn visit_all(
    g: Seq<Seq<usize>>,
    u: int,
    k: int,
    gray: Set<int>,
    black: Set<int>,
    depth: nat,
) -> Visit
    decreases depth, 1 + g[u].len() - k,
{
    if k < 0 || k >= g[u].len() {
        Visit::Done(black)
    } else {
        match visit(g, g[u][k] as int, gray, black, depth) {
            Visit::Cycle(c) => Visit::Cycle(c),
            Visit::Done(b) => visit_all(g, u, k + 1, gray, b, depth),
        }
    }
}

/// The search from the starting points `r` and above, where the nodes of
/// `black` are done: the node at which the first cycle is met, if any.
pub open spec fn search_from(g: Seq<Seq<usize>>, r: int, black: Set<int>) -> Option<int>
    decreases g.len() - r,
{
    if r < 0 || r >= g.len() {
        None
    } else {
        match visit(g, r, Set::empty(), black, g.len()) {
            Visit::Cycle(c) => Some(c),
            Visit::Done(b) => search_from(g, r + 1, b),
        }
    }
}

/// The node at which the depth-first search meets its first cycle: the
/// nodes are taken as starting points by rising number, the dependencies
/// of a node in the order of its list.
pub open spec fn first_cycle_node(g: Seq<Seq<usize>>) -> Option<int> {
    search_from(g, 0, Set::empty())
}

/// The nodes of the first `m` entries of the stack.
spec fn grays(stack: Seq<(usize, usize)>, m: int) -> Set<int> {
    Set::new(|x: int| exists|j: int| 0 <= j < m && j < stack.len() && (#[trigger] stack[j]).0 == x)
}

/// What the search returns for the node at the bottom of the stack when
/// it goes on from entry `i` downwards with the nodes of `black` done.
spec fn resume(g: Seq<Seq<usize>>, stack: Seq<(usize, usize)>, i: int, black: Set<int>) -> Visit
    decreases i + 1,
{
    if i < 0 || i >= stack.len() {
        Visit::Done(black)
    } else {
        let u = stack[i].0 as int;
        match visit_all(
            g,
            u,
            stack[i].1 as int,
            grays(stack, i + 1),
            black,
            (g.len() - (i + 1)) as nat,
        ) {
            Visit::Cycle(c) => Visit::Cycle(c),
            Visit::Done(b) => if i == 0 {
                Visit::Done(b.insert(u))
            } else {
                resume(g, stack, i - 1, b.insert(u))
            },
        }
    }
}

/// What the search goes on with depends on the entries at and below the
/// place from which it goes on only.
proof fn lemma_resume_ext(
    g: Seq<Seq<usize>>,
    s1: Seq<(usize, usize)>,
    s2: Seq<(usize, usize)>,
    i: int,
    black: Set<int>,
)
    requires
        i < s1.len(),
        i < s2.len(),
        forall|j: int| 0 <= j <= i ==> s1[j] == s2[j],
    ensures
        resume(g, s1, i, black) == resume(g, s2, i, black),
    decreases i + 1,
{
    if i >= 0 {
        let a1 = grays(s1, i + 1);
        let a2 = grays(s2, i + 1);
        assert(a1 =~= a2) by {
            assert forall|x: int| a1.contains(x) <==> a2.contains(x) by {
                if grays(s1, i + 1).contains(x) {
                    let j = choose|j: int|
                        0 <= j < i + 1 && j < s1.len() && (#[trigger] s1[j]).0 == x;
                    assert(s2[j].0 == x);
                }
                if grays(s2, i + 1).contains(x) {
                    let j = choose|j: int|
                        0 <= j < i + 1 && j < s2.len() && (#[trigger] s2[j]).0 == x;
                    assert(s1[j].0 == x);
                }
            }
        }
        let u = s1[i].0 as int;
        match visit_all(
            g,
            u,
            s1[i].1 as int,
            grays(s1, i + 1),
            black,
            (g.len() - (i + 1)) as nat,
        ) {
            Visit::Cycle(c) => {},
            Visit::Done(b) => {
                if i > 0 {
                    lemma_resume_ext(g, s1, s2, i - 1, b.insert(u));
                }
            },
        }
    }
}

/// The search goes on in the same way after it has looked at a dependency
/// that is done.
proof fn lemma_step_done(
    g: Seq<Seq<usize>>,
    old_stack: Seq<(usize, usize)>,
    new_stack: Seq<(usize, usize)>,
    black: Set<int>,
)
    requires
        old_stack.len() > 0,
        old_stack.last().1 < g[old_stack.last().0 as int].len(),
        black.contains(g[old_stack.last().0 as int][old_stack.last().1 as int] as int),
        new_stack == old_stack.update(
            old_stack.len() - 1,
            (old_stack.last().0, (old_stack.last().1 + 1) as usize),
        ),
        old_stack.last().1 + 1 <= usize::MAX,
    ensures
        resume(g, new_stack, new_stack.len() - 1, black) == resume(
            g,
            old_stack,
            old_stack.len() - 1,
            black,
        ),
{
    let top = old_stack.len() - 1;
    let u = old_stack[top].0 as int;
    let k = old_stack[top].1 as int;
    let d = (g.len() - (top + 1)) as nat;
    let a1 = grays(old_stack, top + 1);
    let a2 = grays(new_stack, top + 1);
    assert(a1 =~= a2) by {
        assert forall|x: int| a1.contains(x) <==> a2.contains(x) by {
            if grays(old_stack, top + 1).contains(x) {
                let j = choose|j: int|
                    0 <= j < top + 1 && j < old_stack.len() && (#[trigger] old_stack[j]).0 == x;
                assert(new_stack[j].0 == x);
            }
            if grays(new_stack, top + 1).contains(x) {
                let j = choose|j: int|
                    0 <= j < top + 1 && j < new_stack.len() && (#[trigger] new_stack[j]).0 == x;
                assert(old_stack[j].0 == x);
            }
        }
    }
    let gr = grays(old_stack, top + 1);
    assert(visit(g, g[u][k] as int, gr, black, d) == Visit::Done(black));
    assert(visit_all(g, u, k, gr, black, d) == visit_all(g, u, k + 1, gr, black, d));
    match visit_all(g, u, k + 1, gr, black, d) {
        Visit::Cycle(c) => {},
        Visit::Done(b) => {
            if top > 0 {
                lemma_resume_ext(g, old_stack, new_stack, top - 1, b.insert(u));
            }
        },
    }
}

/// The search ends where it looks at a dependency that is in progress.
proof fn lemma_step_cycle(g: Seq<Seq<usize>>, stack: Seq<(usize, usize)>, black: Set<int>)
    requires
        stack.len() > 0,
        stack.last().1 < g[stack.last().0 as int].len(),
        !black.contains(g[stack.last().0 as int][stack.last().1 as int] as int),
        grays(stack, stack.len() as int).contains(
            g[stack.last().0 as int][stack.last().1 as int] as int,
        ),
    ensures
        resume(g, stack, stack.len() - 1, black) == Visit::Cycle(
            g[stack.last().0 as int][stack.last().1 as int] as int,
        ),
{
    let top = stack.len() - 1;
    let u = stack[top].0 as int;
    let k = stack[top].1 as int;
    let d = (g.len() - (top + 1)) as nat;
    let gr = grays(stack, top + 1);
    let v = g[u][k] as int;
    assert(visit(g, v, gr, black, d) == Visit::Cycle(v));
    assert(visit_all(g, u, k, gr, black, d) == Visit::Cycle(v));
}

/// The search goes on in the same way after it has put a dependency that
/// was not visited yet on the stack.
proof fn lemma_step_down(
    g: Seq<Seq<usize>>,
    old_stack: Seq<(usize, usize)>,
    new_stack: Seq<(usize, usize)>,
    black: Set<int>,
    v: usize,
)
    requires
        old_stack.len() > 0,
        old_stack.len() < g.len(),
        old_stack.last().1 < g[old_stack.last().0 as int].len(),
        g[old_stack.last().0 as int][old_stack.last().1 as int] == v,
        !black.contains(v as int),
        !grays(old_stack, old_stack.len() as int).contains(v as int),
        old_stack.last().1 + 1 <= usize::MAX,
        new_stack == old_stack.update(
            old_stack.len() - 1,
            (old_stack.last().0, (old_stack.last().1 + 1) as usize),
        ).push((v, 0usize)),
    ensures
        resume(g, new_stack, new_stack.len() - 1, black) == resume(
            g,
            old_stack,
            old_stack.len() - 1,
            black,
        ),
{
    let top = old_stack.len() - 1;
    let u = old_stack[top].0 as int;
    let k = old_stack[top].1 as int;
    let d = (g.len() - (top + 1)) as nat;
    let gr = grays(old_stack, top + 1);
    let n1 = grays(new_stack, top + 1);
    let n2 = grays(new_stack, top + 2);
    let gv = gr.insert(v as int);
    assert(n1 =~= gr) by {
        assert forall|x: int| gr.contains(x) <==> n1.contains(x) by {
            if gr.contains(x) {
                let j = choose|j: int|
                    0 <= j < top + 1 && j < old_stack.len() && (#[trigger] old_stack[j]).0 == x;
                assert(new_stack[j].0 == x);
            }
            if grays(new_stack, top + 1).contains(x) {
                let j = choose|j: int|
                    0 <= j < top + 1 && j < new_stack.len() && (#[trigger] new_stack[j]).0 == x;
                assert(old_stack[j].0 == x);
            }
        }
    }
    assert(n2 =~= gv) by {
        assert forall|x: int| gv.contains(x) <==> n2.contains(x) by {
            if gr.contains(x) {
                let j = choose|j: int|
                    0 <= j < top + 1 && j < old_stack.len() && (#[trigger] old_stack[j]).0 == x;
                assert(new_stack[j].0 == x);
            }
            if x == v as int {
                assert(new_stack[top + 1].0 == x);
            }
            if grays(new_stack, top + 2).contains(x) {
                let j = choose|j: int|
                    0 <= j < top + 2 && j < new_stack.len() && (#[trigger] new_stack[j]).0 == x;
                if j <= top {
                    assert(old_stack[j].0 == x);
                }
            }
        }
    }
    // What the search did before the step.
    let below = visit_all(g, v as int, 0, gr.insert(v as int), black, (d - 1) as nat);
    assert(d > 0);
    assert(visit(g, v as int, gr, black, d) == match below {
        Visit::Cycle(c) => Visit::Cycle(c),
        Visit::Done(b) => Visit::Done(b.insert(v as int)),
    });
    assert(visit_all(g, u, k, gr, black, d) == match visit(g, v as int, gr, black, d) {
        Visit::Cycle(c) => Visit::Cycle(c),
        Visit::Done(b) => visit_all(g, u, k + 1, gr, b, d),
    });
    // What it does after the step.
    assert(new_stack[top + 1] == (v, 0usize));
    assert(new_stack[top] == (old_stack[top].0, (k + 1) as usize));
    assert((g.len() - (top + 2)) as nat == (d - 1) as nat);
    match below {
        Visit::Cycle(c) => {},
        Visit::Done(b) => {
            let b2 = b.insert(v as int);
            assert(resume(g, new_stack, top + 1, black) == resume(g, new_stack, top, b2));
            match visit_all(g, u, k + 1, gr, b2, d) {
                Visit::Cycle(c) => {},
                Visit::Done(b3) => {
                    if top > 0 {
                        lemma_resume_ext(g, old_stack, new_stack, top - 1, b3.insert(u));
                    }
                },
            }
        },
    }
}

/// The search goes on in the same way after it has taken a node whose
/// dependencies are all looked at from the stack.
proof fn lemma_step_up(
    g: Seq<Seq<usize>>,
    old_stack: Seq<(usize, usize)>,
    new_stack: Seq<(usize, usize)>,
    black: Set<int>,
)
    requires
        old_stack.len() > 0,
        old_stack.last().1 == g[old_stack.last().0 as int].len(),
        new_stack == old_stack.drop_last(),
    ensures
        resume(g, old_stack, old_stack.len() - 1, black) == if old_stack.len() == 1 {
            Visit::Done(black.insert(old_stack.last().0 as int))
        } else {
            resume(g, new_stack, new_stack.len() - 1, black.insert(old_stack.last().0 as int))
        },
{
    let top = old_stack.len() - 1;
    let u = old_stack[top].0 as int;
    let d = (g.len() - (top + 1)) as nat;
    assert(visit_all(g, u, old_stack[top].1 as int, grays(old_stack, top + 1), black, d)
        == Visit::Done(black));
    if top > 0 {
        lemma_resume_ext(g, old_stack, new_stack, top - 1, black.insert(u));
    }
}

/// The nodes on the stack, which differ from one another, are not more
/// than the graph has nodes.
proof fn lemma_stack_bound(g: Seq<Seq<usize>>, stack: Seq<(usize, usize)>, v: usize)
    requires
        forall|i: int| 0 <= i < stack.len() ==> (#[trigger] stack[i]).0 < g.len(),
        forall|i: int, j: int|
            0 <= i < j < stack.len() ==> (#[trigger] stack[i]).0 != (#[trigger] stack[j]).0,
        v < g.len(),
        forall|i: int| 0 <= i < stack.len() ==> (#[trigger] stack[i]).0 != v,
    ensures
        stack.len() < g.len(),
{
    let w = Seq::new(
        stack.len() + 1,
        |i: int|
            if i < stack.len() {
                stack[i].0 as int
            } else {
                v as int
            },
    );
    if stack.len() >= g.len() {
        lemma_pigeonhole(w, g.len() as int);
        let (i, j) = choose|i: int, j: int| 0 <= i < j < w.len() && w[i] == w[j];
        if j < stack.len() {
            assert(stack[i].0 != stack[j].0);
        } else {
            assert(stack[i].0 != v);
        }
    }
}

/// Looks for a cycle by depth-first search with three marks.
///
/// The nodes are taken as starting points by rising number and the
/// dependencies of a node in the order of its list. The search stops at the
/// first dependency that leads back to a node in progress and returns that
/// node, which then lies on a cycle. `None` is returned exactly where the
/// graph has no cycle.
pub fn find_cycle(adj: &Vec<Vec<usize>>) -> (r: Option<usize>)
    requires
        graph_wf(lists(adj)),
    ensures
        match r {
            Some(v) => v < adj@.len() && on_cycle(lists(adj), v as int),
            None => !has_cycle(lists(adj)),
        },
        r is Some <==> has_cycle(lists(adj)),
        match r {
            Some(v) => first_cycle_node(lists(adj)) == Some(v as int),
            None => first_cycle_node(lists(adj)) is None,
        },
{
    let n = adj.len();
    let ghost g = lists(adj);
    let mut color: Vec<u8> = Vec::new();
    let mut i: usize = 0;
    while i < n
        invariant
            i <= n,
            color@.len() == i,
            forall|v: int| 0 <= v < i ==> (#[trigger] color@[v]) == 0,
        decreases n - i,
    {
        color.push(0u8);
        i += 1;
    }
    let mut stack: Vec<(usize, usize)> = Vec::new();
    let ghost mut fin: Seq<int> = Seq::new(n as nat, |v: int| 0int);
    let ghost mut clock: int = 0;
    let ghost mut whites: Set<int> = vstd::set_lib::set_int_range(0, n as int);
    let ghost mut blacks: Set<int> = Set::empty();
    proof {
        vstd::set_lib::lemma_int_range(0, n as int);
        assert(search_inv(g, color@, stack@, fin, clock, whites));
    }
    let mut root: usize = 0;
    while root < n
        invariant
            g == lists(adj),
            n == adj@.len(),
            root <= n,
            stack@.len() == 0,
            search_inv(g, color@, stack@, fin, clock, whites),
            forall|v: int| 0 <= v < root ==> #[trigger] color@[v] == 2,
            forall|v: int| 0 <= v < n ==> (blacks.contains(v) <==> #[trigger] color@[v] == 2),
            first_cycle_node(g) == search_from(g, root as int, blacks),
        decreases n - root,
    {
        let ghost start = blacks;
        if color[root] == 0 {
            proof {
                assert(forall|v: int| 0 <= v < g.len() ==> !on_stack(stack@, v));
                whites = whites.remove(root as int);
            }
            color.set(root, 1u8);
            stack.push((root, 0usize));
            proof {
                assert(on_stack(stack@, root as int)) by {
                    assert(stack@[0].0 == root);
                }
                assert(search_inv(g, color@, stack@, fin, clock, whites));
                let first = grays(stack@, 1);
                assert(first =~= Set::<int>::empty().insert(root as int)) by {
                    assert forall|x: int| first.contains(x) <==> x == root by {
                        if x == root {
                            assert(stack@[0].0 == x);
                        }
                    }
                }
                assert(visit(g, root as int, Set::empty(), start, g.len()) == match visit_all(
                    g,
                    root as int,
                    0,
                    Set::<int>::empty().insert(root as int),
                    start,
                    (g.len() - 1) as nat,
                ) {
                    Visit::Cycle(c) => Visit::Cycle(c),
                    Visit::Done(b) => Visit::Done(b.insert(root as int)),
                });
                assert(resume(g, stack@, 0, start) == visit(
                    g,
                    root as int,
                    Set::empty(),
                    start,
                    g.len(),
                ));
            }
            while stack.len() > 0
                invariant
                    g == lists(adj),
                    n == adj@.len(),
                    root < n,
                    search_inv(g, color@, stack@, fin, clock, whites),
                    forall|v: int| 0 <= v < root ==> #[trigger] color@[v] == 2,
                    color@[root as int] != 0,
                    forall|v: int|
                        0 <= v < n ==> (blacks.contains(v) <==> #[trigger] color@[v] == 2),
                    first_cycle_node(g) == search_from(g, root as int, start),
                    stack@.len() > 0 ==> visit(g, root as int, Set::empty(), start, g.len())
                        == resume(g, stack@, stack@.len() - 1, blacks),
                    stack@.len() == 0 ==> visit(g, root as int, Set::empty(), start, g.len())
                        == Visit::Done(blacks),
                decreases whites.len(), stack@.len(), top_remaining(g, stack@),
            {
                let top = stack.len() - 1;
                let (u, k) = stack[top];
                let ghost old_stack = stack@;
                let ghost old_color = color@;
                let ghost old_fin = fin;
                assert(u < n && k <= g[u as int].len() && old_color[u as int] == 1);
                if k < adj[u].len() {
                    let v = adj[u][k];
                    assert(v == g[u as int][k as int]);
                    assert(v < n);
                    stack.set(top, (u, k + 1));
                    let ghost mid_stack = stack@;
                    proof {
                        assert forall|x: int| 0 <= x < g.len() && #[trigger] color@[x]
                            == 1 implies on_stack(mid_stack, x) by {
                            assert(on_stack(old_stack, x));
                            let i = choose|i: int|
                                0 <= i < old_stack.len() && (#[trigger] old_stack[i]).0 == x;
                            assert(mid_stack[i].0 == x);
                        }
                    }
                    if color[v] == 1 {
                        proof {
                            lemma_stack_cycle_at(g, color@, old_stack, mid_stack, v);
                            assert(on_stack(old_stack, v as int));
                            let j = choose|j: int|
                                0 <= j < old_stack.len() && (#[trigger] old_stack[j]).0
                                    == v as int;
                            assert(grays(old_stack, old_stack.len() as int).contains(v as int));
                            lemma_step_cycle(g, old_stack, blacks);
                        }
                        return Some(v);
                    } else if color[v] == 0 {
                        proof {
                            whites = whites.remove(v as int);
                        }
                        color.set(v, 1u8);
                        stack.push((v, 0usize));
                        proof {
                            let ns = stack@;
                            assert(!on_stack(old_stack, v as int)) by {
                                if on_stack(old_stack, v as int) {
                                    let i = choose|i: int|
                                        0 <= i < old_stack.len() && (#[trigger] old_stack[i]).0
                                            == v as int;
                                    assert(old_color[old_stack[i].0 as int] == 1);
                                }
                            }
                            assert forall|i: int| 0 <= i < ns.len() implies (#[trigger] ns[i]).0
                                < g.len() && ns[i].1 <= g[ns[i].0 as int].len()
                                && color@[ns[i].0 as int] == 1 by {
                                if i < top {
                                    assert(ns[i] == old_stack[i]);
                                }
                            }
                            assert forall|i: int, j: int| 0 <= i < j < ns.len() implies (
                            #[trigger] ns[i]).0 != (#[trigger] ns[j]).0 by {
                                if j < ns.len() - 1 {
                                    assert(old_stack[i].0 != old_stack[j].0);
                                } else {
                                    assert(old_stack[i].0 == ns[i].0);
                                    if ns[i].0 == v {
                                        assert(on_stack(old_stack, v as int));
                                    }
                                }
                            }
                            assert forall|x: int| 0 <= x < g.len() && #[trigger] color@[x]
                                == 1 implies on_stack(ns, x) by {
                                if x == v {
                                    assert(ns[ns.len() - 1].0 == v);
                                } else {
                                    assert(on_stack(old_stack, x));
                                    let i = choose|i: int|
                                        0 <= i < old_stack.len() && (#[trigger] old_stack[i]).0
                                            == x;
                                    assert(ns[i].0 == x);
                                }
                            }
                            assert forall|i: int| 0 <= i < ns.len() - 1 implies (
                            #[trigger] ns[i]).1 > 0 && g[ns[i].0 as int][ns[i].1 - 1] == ns[i
                                + 1].0 by {
                                if i < top {
                                    assert(ns[i] == old_stack[i]);
                                    assert(old_stack[i].1 > 0);
                                    if i + 1 < top {
                                        assert(ns[i + 1] == old_stack[i + 1]);
                                    }
                                }
                            }
                            assert forall|i: int, j: int|
                                0 <= i < ns.len() && 0 <= j < ns[i].1 && !(i < ns.len() - 1 && j
                                    == ns[i].1 - 1) implies color@[(
                            #[trigger] g[ns[i].0 as int][j]) as int] == 2 by {
                                if i < top {
                                    assert(ns[i] == old_stack[i]);
                                    assert(old_color[g[old_stack[i].0 as int][j] as int] == 2);
                                } else if i == top {
                                    assert(old_color[g[old_stack[i].0 as int][j] as int] == 2);
                                }
                            }
                            assert forall|x: int, k2: int|
                                0 <= x < g.len() && color@[x] == 2 && 0 <= k2
                                    < g[x].len() implies color@[(#[trigger] g[x][k2]) as int] == 2
                                && fin[g[x][k2] as int] < fin[x] by {
                                assert(old_color[x] == 2);
                                assert(old_color[g[x][k2] as int] == 2);
                            }
                            assert(search_inv(g, color@, stack@, fin, clock, whites));
                            assert forall|i: int| 0 <= i < old_stack.len() implies (
                            #[trigger] old_stack[i]).0 != v by {
                                if old_stack[i].0 == v {
                                    assert(on_stack(old_stack, v as int));
                                }
                            }
                            lemma_stack_bound(g, old_stack, v);
                            assert(!grays(old_stack, old_stack.len() as int).contains(v as int)) by {
                                if grays(old_stack, old_stack.len() as int).contains(v as int) {
                                    let j = choose|j: int|
                                        0 <= j < old_stack.len() && j < old_stack.len() && (
                                        #[trigger] old_stack[j]).0 == v as int;
                                    assert(on_stack(old_stack, v as int));
                                }
                            }
                            assert(stack@ =~= old_stack.update(
                                old_stack.len() - 1,
                                (old_stack.last().0, (old_stack.last().1 + 1) as usize),
                            ).push((v, 0usize)));
                            lemma_step_down(g, old_stack, stack@, blacks, v);
                        }
                    } else {
                        proof {
                            let ns = stack@;
                            assert forall|i: int| 0 <= i < ns.len() implies (#[trigger] ns[i]).0
                                < g.len() && ns[i].1 <= g[ns[i].0 as int].len()
                                && color@[ns[i].0 as int] == 1 by {
                                if i < top {
                                    assert(ns[i] == old_stack[i]);
                                }
                            }
                            assert forall|i: int, j: int| 0 <= i < j < ns.len() implies (
                            #[trigger] ns[i]).0 != (#[trigger] ns[j]).0 by {
                                assert(old_stack[i].0 != old_stack[j].0);
                            }
                            assert forall|i: int| 0 <= i < ns.len() - 1 implies (
                            #[trigger] ns[i]).1 > 0 && g[ns[i].0 as int][ns[i].1 - 1] == ns[i
                                + 1].0 by {
                                assert(ns[i] == old_stack[i]);
                                assert(old_stack[i].1 > 0);
                            }
                            assert forall|i: int, j: int|
                                0 <= i < ns.len() && 0 <= j < ns[i].1 && !(i < ns.len() - 1 && j
                                    == ns[i].1 - 1) implies color@[(
                            #[trigger] g[ns[i].0 as int][j]) as int] == 2 by {
                                if i < top {
                                    assert(ns[i] == old_stack[i]);
                                    assert(old_color[g[old_stack[i].0 as int][j] as int] == 2);
                                } else if j < k {
                                    assert(old_color[g[old_stack[i].0 as int][j] as int] == 2);
                                }
                            }
                            assert(search_inv(g, color@, stack@, fin, clock, whites));
                            assert(stack@ =~= old_stack.update(
                                old_stack.len() - 1,
                                (old_stack.last().0, (old_stack.last().1 + 1) as usize),
                            ));
                            lemma_step_done(g, old_stack, stack@, blacks);
                        }
                    }
                } else {
                    proof {
                        fin = fin.update(u as int, clock);
                        clock = clock + 1;
                    }
                    color.set(u, 2u8);
                    stack.pop();
                    proof {
                        let ns = stack@;
                        assert forall|i: int| 0 <= i < ns.len() implies (#[trigger] ns[i]).0
                            < g.len() && ns[i].1 <= g[ns[i].0 as int].len()
                            && color@[ns[i].0 as int] == 1 by {
                            assert(ns[i] == old_stack[i]);
                            assert(old_stack[i].0 != old_stack[top as int].0);
                        }
                        assert forall|i: int, j: int| 0 <= i < j < ns.len() implies (
                        #[trigger] ns[i]).0 != (#[trigger] ns[j]).0 by {
                            assert(old_stack[i].0 != old_stack[j].0);
                        }
                        assert forall|x: int| 0 <= x < g.len() && #[trigger] color@[x]
                            == 1 implies on_stack(ns, x) by {
                            assert(old_color[x] == 1);
                            assert(on_stack(old_stack, x));
                            let i = choose|i: int|
                                0 <= i < old_stack.len() && (#[trigger] old_stack[i]).0 == x;
                            assert(ns[i].0 == x);
                        }
                        assert forall|i: int| 0 <= i < ns.len() - 1 implies (#[trigger] ns[i]).1
                            > 0 && g[ns[i].0 as int][ns[i].1 - 1] == ns[i + 1].0 by {
                            assert(ns[i] == old_stack[i]);
                            assert(old_stack[i].1 > 0);
                        }
                        assert forall|i: int, j: int|
                            0 <= i < ns.len() && 0 <= j < ns[i].1 && !(i < ns.len() - 1 && j
                                == ns[i].1 - 1) implies color@[(
                        #[trigger] g[ns[i].0 as int][j]) as int] == 2 by {
                            assert(ns[i] == old_stack[i]);
                            if i == ns.len() - 1 && j == ns[i].1 - 1 {
                                assert(old_stack[i].1 > 0);
                                assert(g[old_stack[i].0 as int][old_stack[i].1 - 1] == old_stack[i
                                    + 1].0);
                            } else {
                                assert(old_color[g[old_stack[i].0 as int][j] as int] == 2);
                            }
                        }
                        assert forall|x: int, k2: int|
                            0 <= x < g.len() && color@[x] == 2 && 0 <= k2
                                < g[x].len() implies color@[(#[trigger] g[x][k2]) as int] == 2
                            && fin[g[x][k2] as int] < fin[x] by {
                            if x == u {
                                assert(old_color[g[old_stack[top as int].0 as int][k2] as int]
                                    == 2);
                                assert(old_fin[g[x][k2] as int] < clock - 1);
                            } else {
                                assert(old_color[x] == 2);
                                assert(old_color[g[x][k2] as int] == 2);
                            }
                        }
                        assert(search_inv(g, color@, stack@, fin, clock, whites));
                        assert(stack@ =~= old_stack.drop_last());
                        lemma_step_up(g, old_stack, stack@, blacks);
                        blacks = blacks.insert(u as int);
                    }
                }
            }
        }
        proof {
            assert(forall|v: int| 0 <= v < g.len() ==> !on_stack(stack@, v));
            assert(visit(g, root as int, Set::empty(), start, g.len()) == Visit::Done(blacks));
        }
        root += 1;
    }
    proof {
        lemma_all_done(g, color@, stack@, fin, clock, whites);
    }
    None
}

/// The cycle that the search has found when the dependency it looks at
/// last is in progress.
proof fn lemma_stack_cycle_at(
    g: Seq<Seq<usize>>,
    color: Seq<u8>,
    old_stack: Seq<(usize, usize)>,
    stack: Seq<(usize, usize)>,
    v: usize,
)
    requires
        graph_wf(g),
        color.len() == g.len(),
        old_stack.len() > 0,
        stack == old_stack.update(
            old_stack.len() - 1,
            (old_stack.last().0, (old_stack.last().1 + 1) as usize),
        ),
        forall|i: int| 0 <= i < old_stack.len() ==> (#[trigger] old_stack[i]).0 < g.len(),
        old_stack.last().1 < g[old_stack.last().0 as int].len(),
        forall|i: int|
            0 <= i < old_stack.len() - 1 ==> (#[trigger] old_stack[i]).1 > 0
                && g[old_stack[i].0 as int][old_stack[i].1 - 1] == old_stack[i + 1].0
                && old_stack[i].1 <= g[old_stack[i].0 as int].len(),
        g[old_stack.last().0 as int][old_stack.last().1 as int] == v,
        v < g.len(),
        on_stack(old_stack, v as int),
    ensures
        on_cycle(g, v as int),
{
    let i = choose|i: int| 0 <= i < old_stack.len() && (#[trigger] old_stack[i]).0 == v as int;
    let m = old_stack.len() - i;
    let w = Seq::new(
        (m + 1) as nat,
        |j: int|
            if j < m {
                old_stack[i + j].0 as int
            } else {
                v as int
            },
    );
    assert forall|j: int| 0 <= j < w.len() - 1 implies edge(g, #[trigger] w[j], w[j + 1]) by {
        let a = old_stack[i + j];
        assert(a.0 < g.len());
        if j < m - 1 {
            assert(g[a.0 as int][a.1 - 1] == old_stack[i + j + 1].0);
            assert(old_stack[i + j + 1].0 < g.len());
            assert(g[a.0 as int].contains(old_stack[i + j + 1].0));
        } else {
            assert(a == old_stack.last());
            assert(g[a.0 as int].contains(v));
        }
    }
    assert(w[0] == v as int);
    assert(is_cycle(g, w));
}

} // verus!
