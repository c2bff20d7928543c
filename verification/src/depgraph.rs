//! The dependency graph of the catalog, over product names.
//!
//! The statements of the planner and of the cycle check are made here, over
//! the model of the catalog; the work is done on numbered graphs, and this
//! module carries the results from the numbers back to the names.

use crate::config::{ProductModel, ProductSpec};
use crate::graph::{
    deps_placed, edge, first_cycle_node, graph_wf, has_cycle, is_cycle, is_plan, lemma_holds_all,
    lists, on_cycle, placed_before, ready_point,
};
use crate::namemap::{
    lemma_sorted_index_of, lemma_sorted_no_duplicates, strictly_sorted, NameMap,
};
use crate::names::{name_lt, names_of, position_of, Name};
use vstd::prelude::*;

verus! {

/// The model of the products of a catalog.
pub type Catalog = Map<Name, ProductModel>;

/// The names that a sequence holds, as a set.
pub open spec fn name_set(names: Seq<Name>) -> Set<Name> {
    Set::new(|k: Name| names.contains(k))
}

/// Every product of `w` is a product of the catalog and of `s`, and lists
/// the next one among its dependencies.
pub open spec fn is_dep_walk(g: Catalog, s: Set<Name>, w: Seq<Name>) -> bool {
    &&& forall|i: int| 0 <= i < w.len() ==> s.contains(#[trigger] w[i]) && g.contains_key(w[i])
    &&& forall|i: int| 0 <= i < w.len() - 1 ==> g[#[trigger] w[i]].dependencies.contains(w[i + 1])
}

/// `w` follows at least one dependency inside `s` and ends where it began.
pub open spec fn is_dep_cycle(g: Catalog, s: Set<Name>, w: Seq<Name>) -> bool {
    &&& w.len() >= 2
    &&& w[0] == w[w.len() - 1]
    &&& is_dep_walk(g, s, w)
}

/// The dependencies among the products of `s` form a cycle.
pub open spec fn cyclic_within(g: Catalog, s: Set<Name>) -> bool {
    exists|w: Seq<Name>| is_dep_cycle(g, s, w)
}

/// Product `v` lies on a cycle of dependencies among the products of `s`.
pub open spec fn on_dep_cycle(g: Catalog, s: Set<Name>, v: Name) -> bool {
    exists|w: Seq<Name>| is_dep_cycle(g, s, w) && w[0] == v
}

/// Product `d` stands among the first `r` places of `order`.
pub open spec fn placed_name(order: Seq<Name>, r: int, d: Name) -> bool {
    exists|q: int| 0 <= q < r && q < order.len() && order[q] == d
}

/// Every dependency of product `p` that belongs to `s` stands among the
/// first `r` places of `order`.
pub open spec fn deps_placed_names(
    g: Catalog,
    s: Set<Name>,
    order: Seq<Name>,
    p: Name,
    r: int,
) -> bool {
    forall|d: Name|
        s.contains(d) && #[trigger] g[p].dependencies.contains(d) ==> placed_name(order, r, d)
}

/// The product at place `p` became ready when `r` products were placed:
/// all its dependencies in `s` stand among the first `r` places, and the
/// last of them at place `r - 1`.
pub open spec fn became_ready(g: Catalog, s: Set<Name>, order: Seq<Name>, p: int, r: int) -> bool {
    &&& 0 <= r <= p < order.len()
    &&& deps_placed_names(g, s, order, order[p], r)
    &&& r > 0 ==> g[order[p]].dependencies.contains(order[r - 1])
}

/// `order` is the deployment order of the products of `s`: it holds each
/// of them once, each after all its dependencies in `s`, in the order in
/// which they became ready, and products that became ready together in the
/// lexicographic order of their names.
pub open spec fn is_deployment_order(g: Catalog, s: Set<Name>, order: Seq<Name>) -> bool {
    &&& order.no_duplicates()
    &&& forall|k: Name| order.contains(k) <==> s.contains(k)
    &&& forall|p: int|
        0 <= p < order.len() ==> deps_placed_names(g, s, order, #[trigger] order[p], p)
    &&& forall|pa: int, pb: int, r1: int, r2: int|
        0 <= pa < pb < order.len() && #[trigger] became_ready(g, s, order, pa, r1)
            && #[trigger] became_ready(g, s, order, pb, r2) ==> r1 < r2 || (r1 == r2 && name_lt(
            order[pa],
            order[pb],
        ))
}

/// In a deployment order every product stands behind its dependencies.
pub proof fn lemma_dependencies_first(g: Catalog, s: Set<Name>, order: Seq<Name>, p: int, d: Name)
    requires
        is_deployment_order(g, s, order),
        0 <= p < order.len(),
        s.contains(d),
        g[order[p]].dependencies.contains(d),
    ensures
        order.contains(d),
        order.index_of(d) < p,
{
    assert(deps_placed_names(g, s, order, order[p], p));
    assert(placed_name(order, p, d));
    let q = choose|q: int| 0 <= q < p && q < order.len() && order[q] == d;
    assert(order.contains(d));
    let i = order.index_of(d);
    assert(order[i] == d);
}

/// The products of `s` have one deployment order only.
pub proof fn lemma_deployment_order_unique(g: Catalog, s: Set<Name>, a: Seq<Name>, b: Seq<Name>)
    requires
        is_deployment_order(g, s, a),
        is_deployment_order(g, s, b),
    ensures
        a == b,
{
    assert(a.len() == b.len()) by {
        a.unique_seq_to_set();
        b.unique_seq_to_set();
        assert(a.to_set() =~= b.to_set());
    }
    if a != b {
        // The first place at which the two orders differ.
        let k = first_difference(a, b, 0);
        lemma_first_difference(a, b, 0);
        let x = a[k];
        let y = b[k];
        assert(a.contains(x));
        assert(b.contains(y));
        assert(b.contains(x));
        assert(a.contains(y));
        let jx = choose|j: int| 0 <= j < b.len() && b[j] == x;
        let jy = choose|j: int| 0 <= j < a.len() && a[j] == y;
        assert(jx > k) by {
            if jx < k {
                assert(a[jx] == b[jx]);
                assert(a[jx] == a[k]);
            }
        }
        assert(jy > k) by {
            if jy < k {
                assert(a[jy] == b[jy]);
                assert(b[jy] == b[k]);
            }
        }
        let rx = ready_of(g, s, a, k);
        lemma_ready_of(g, s, a, k);
        let ry = ready_of(g, s, b, k);
        lemma_ready_of(g, s, b, k);
        lemma_ready_shared(g, s, a, b, k, k, jx, rx);
        lemma_ready_shared(g, s, b, a, k, k, jy, ry);
        // In `a` the product `x` stands before `y`, in `b` behind it.
        assert(rx < ry || (rx == ry && name_lt(x, y)));
        assert(ry < rx || (ry == rx && name_lt(y, x)));
        crate::names::lemma_name_lt_total(x, y);
    }
}

/// The first place from `i` on at which `a` and `b` differ.
spec fn first_difference(a: Seq<Name>, b: Seq<Name>, i: int) -> int
    decreases a.len() - i,
{
    if i >= a.len() || a[i] != b[i] {
        i
    } else {
        first_difference(a, b, i + 1)
    }
}

/// Two different sequences of one length differ at a first place.
proof fn lemma_first_difference(a: Seq<Name>, b: Seq<Name>, i: int)
    requires
        a.len() == b.len(),
        0 <= i <= a.len(),
        forall|j: int| 0 <= j < i ==> a[j] == b[j],
        a != b,
    ensures
        i <= first_difference(a, b, i) < a.len(),
        a[first_difference(a, b, i)] != b[first_difference(a, b, i)],
        forall|j: int| 0 <= j < first_difference(a, b, i) ==> a[j] == b[j],
    decreases a.len() - i,
{
    if i >= a.len() {
        assert(a =~= b);
    } else if a[i] == b[i] {
        lemma_first_difference(a, b, i + 1);
    }
}

/// The ready point of the product at place `p`: one more than the place
/// of the last of its dependencies before it, or zero.
spec fn ready_of(g: Catalog, s: Set<Name>, order: Seq<Name>, p: int) -> int {
    last_dep_before(g, order, order[p], p)
}

/// One more than the last place before `r` that holds a dependency of `x`.
spec fn last_dep_before(g: Catalog, order: Seq<Name>, x: Name, r: int) -> int
    decreases r,
{
    if r <= 0 {
        0
    } else if g[x].dependencies.contains(order[r - 1]) {
        r
    } else {
        last_dep_before(g, order, x, r - 1)
    }
}

/// Behind the place that `last_dep_before` gives, and before `r`, stands no
/// dependency of `x`.
proof fn lemma_last_dep_before(g: Catalog, order: Seq<Name>, x: Name, r: int)
    requires
        0 <= r <= order.len(),
    ensures
        0 <= last_dep_before(g, order, x, r) <= r,
        last_dep_before(g, order, x, r) > 0 ==> g[x].dependencies.contains(
            order[last_dep_before(g, order, x, r) - 1],
        ),
        forall|q: int|
            last_dep_before(g, order, x, r) <= q < r ==> !g[x].dependencies.contains(
                #[trigger] order[q],
            ),
    decreases r,
{
    if r > 0 && !g[x].dependencies.contains(order[r - 1]) {
        lemma_last_dep_before(g, order, x, r - 1);
    }
}

/// In a deployment order `ready_of` gives the ready point of a product.
proof fn lemma_ready_of(g: Catalog, s: Set<Name>, order: Seq<Name>, p: int)
    requires
        is_deployment_order(g, s, order),
        0 <= p < order.len(),
    ensures
        became_ready(g, s, order, p, ready_of(g, s, order, p)),
{
    let x = order[p];
    let r = ready_of(g, s, order, p);
    lemma_last_dep_before(g, order, x, p);
    assert forall|d: Name| s.contains(d) && #[trigger] g[x].dependencies.contains(
        d,
    ) implies placed_name(order, r, d) by {
        assert(deps_placed_names(g, s, order, order[p], p));
        assert(placed_name(order, p, d));
        let q = choose|q: int| 0 <= q < p && q < order.len() && order[q] == d;
        if q >= r {
            assert(!g[x].dependencies.contains(order[q]));
        }
    }
}

/// Two orders that agree on their first `k` places agree on the ready
/// point of a product that stands at or behind place `k` in both.
proof fn lemma_ready_shared(
    g: Catalog,
    s: Set<Name>,
    a: Seq<Name>,
    b: Seq<Name>,
    k: int,
    pa: int,
    pb: int,
    r: int,
)
    requires
        is_deployment_order(g, s, a),
        is_deployment_order(g, s, b),
        a.len() == b.len(),
        0 <= k <= pa < a.len(),
        k <= pb < b.len(),
        a[pa] == b[pb],
        forall|j: int| 0 <= j < k ==> a[j] == b[j],
        became_ready(g, s, a, pa, r),
        r <= k,
    ensures
        became_ready(g, s, b, pb, r),
{
    assert forall|d: Name| s.contains(d) && #[trigger] g[b[pb]].dependencies.contains(
        d,
    ) implies placed_name(b, r, d) by {
        assert(placed_name(a, r, d));
        let q = choose|q: int| 0 <= q < r && q < a.len() && a[q] == d;
        assert(b[q] == d);
    }
    if r > 0 {
        assert(a[r - 1] == b[r - 1]);
    }
}

/// The numbered graph `adj` is the graph of the dependencies among the
/// products `nodes` of the catalog: node `i` is product `nodes[i]`.
pub open spec fn numbered(g: Catalog, nodes: Seq<Name>, adj: Seq<Seq<usize>>) -> bool {
    &&& strictly_sorted(nodes)
    &&& adj.len() == nodes.len()
    &&& nodes.len() <= usize::MAX
    &&& graph_wf(adj)
    &&& forall|i: int| 0 <= i < nodes.len() ==> g.contains_key(#[trigger] nodes[i])
    &&& forall|i: int, j: usize|
        0 <= i < nodes.len() && #[trigger] adj[i].contains(j) ==> j < nodes.len()
            && g[nodes[i]].dependencies.contains(nodes[j as int])
    &&& forall|i: int, j: int|
        0 <= i < nodes.len() && 0 <= j < nodes.len() && g[#[trigger] nodes[i]].dependencies.contains(
            #[trigger] nodes[j],
        ) ==> adj[i].contains(j as usize)
}

/// The numbers of the dependencies `deps` among the products `nodes`, in
/// the order in which they are listed, each once; a dependency that is not
/// among `nodes` is passed over.
pub open spec fn dep_numbers(deps: Seq<Name>, nodes: Seq<Name>) -> Seq<usize>
    decreases deps.len(),
{
    if deps.len() == 0 {
        Seq::empty()
    } else {
        let rest = dep_numbers(deps.drop_last(), nodes);
        let d = deps.last();
        if nodes.contains(d) && !rest.contains(nodes.index_of(d) as usize) {
            rest.push(nodes.index_of(d) as usize)
        } else {
            rest
        }
    }
}

/// The numbered graph of the dependencies among the products `nodes`:
/// node `i` stands for `nodes[i]` and lists the numbers of its
/// dependencies.
pub open spec fn numbering(g: Catalog, nodes: Seq<Name>) -> Seq<Seq<usize>> {
    Seq::new(nodes.len(), |i: int| dep_numbers(g[nodes[i]].dependencies, nodes))
}

/// The product at which the depth-first search over the products `nodes`
/// meets its first cycle. The products are taken as starting points in the
/// order of `nodes`, the dependencies of a product in the order in which
/// it lists them.
pub open spec fn first_cycle_product(g: Catalog, nodes: Seq<Name>) -> Option<Name> {
    match first_cycle_node(numbering(g, nodes)) {
        Some(v) => Some(nodes[v]),
        None => None,
    }
}

/// The products that the nodes of `w` stand for.
pub open spec fn names_at(nodes: Seq<Name>, w: Seq<int>) -> Seq<Name> {
    Seq::new(w.len(), |i: int| nodes[w[i]])
}

/// A cycle of the numbered graph is a cycle among the products.
pub proof fn lemma_cycle_up(g: Catalog, nodes: Seq<Name>, adj: Seq<Seq<usize>>, w: Seq<int>)
    requires
        numbered(g, nodes, adj),
        is_cycle(adj, w),
    ensures
        is_dep_cycle(g, name_set(nodes), names_at(nodes, w)),
{
    let s = name_set(nodes);
    let wn = names_at(nodes, w);
    assert forall|i: int| 0 <= i < w.len() implies 0 <= #[trigger] w[i] < nodes.len() by {
        if i < w.len() - 1 {
            assert(edge(adj, w[i], w[i + 1]));
        } else {
            assert(edge(adj, w[i - 1], w[i - 1 + 1]));
        }
    }
    assert forall|i: int| 0 <= i < wn.len() implies s.contains(#[trigger] wn[i]) && g.contains_key(
        wn[i],
    ) by {
        assert(0 <= w[i] < nodes.len());
        assert(nodes.contains(nodes[w[i]]));
    }
    assert forall|i: int| 0 <= i < wn.len() - 1 implies g[#[trigger] wn[i]].dependencies.contains(
        wn[i + 1],
    ) by {
        assert(edge(adj, w[i], w[i + 1]));
        assert(adj[w[i]].contains(w[i + 1] as usize));
    }
}

/// A cycle among the products `nodes` is a cycle of the numbered graph.
pub proof fn lemma_cycle_down(g: Catalog, nodes: Seq<Name>, adj: Seq<Seq<usize>>, wn: Seq<Name>)
    requires
        numbered(g, nodes, adj),
        is_dep_cycle(g, name_set(nodes), wn),
    ensures
        is_cycle(adj, Seq::new(wn.len(), |i: int| nodes.index_of(wn[i]))),
        nodes[Seq::new(wn.len(), |i: int| nodes.index_of(wn[i]))[0]] == wn[0],
{
    let w = Seq::new(wn.len(), |i: int| nodes.index_of(wn[i]));
    assert forall|i: int| 0 <= i < wn.len() implies 0 <= #[trigger] w[i] < nodes.len()
        && nodes[w[i]] == wn[i] by {
        assert(name_set(nodes).contains(wn[i]));
        assert(nodes.contains(wn[i]));
    }
    assert forall|i: int| 0 <= i < w.len() - 1 implies edge(adj, #[trigger] w[i], w[i + 1]) by {
        assert(0 <= w[i] < nodes.len() && nodes[w[i]] == wn[i]);
        assert(0 <= w[i + 1] < nodes.len() && nodes[w[i + 1]] == wn[i + 1]);
        assert(g[wn[i]].dependencies.contains(wn[i + 1]));
        assert(g[nodes[w[i]]].dependencies.contains(nodes[w[i + 1]]));
    }
}

/// The numbered graph has a cycle exactly where the products have one.
pub proof fn lemma_cyclic_numbered(g: Catalog, nodes: Seq<Name>, adj: Seq<Seq<usize>>)
    requires
        numbered(g, nodes, adj),
    ensures
        has_cycle(adj) <==> cyclic_within(g, name_set(nodes)),
{
    if has_cycle(adj) {
        let w = choose|w: Seq<int>| is_cycle(adj, w);
        lemma_cycle_up(g, nodes, adj, w);
    }
    if cyclic_within(g, name_set(nodes)) {
        let wn = choose|wn: Seq<Name>| is_dep_cycle(g, name_set(nodes), wn);
        lemma_cycle_down(g, nodes, adj, wn);
    }
}

/// A node on a cycle of the numbered graph is a product on a cycle.
pub proof fn lemma_on_cycle_up(g: Catalog, nodes: Seq<Name>, adj: Seq<Seq<usize>>, v: int)
    requires
        numbered(g, nodes, adj),
        on_cycle(adj, v),
    ensures
        0 <= v < nodes.len(),
        on_dep_cycle(g, name_set(nodes), nodes[v]),
{
    let w = choose|w: Seq<int>| is_cycle(adj, w) && w[0] == v;
    assert(edge(adj, w[0], w[1]));
    lemma_cycle_up(g, nodes, adj, w);
    assert(names_at(nodes, w)[0] == nodes[v]);
}

/// The plan of the numbered graph, read as names, is the deployment order
/// of the products.
pub proof fn lemma_plan_up(g: Catalog, nodes: Seq<Name>, adj: Seq<Seq<usize>>, order: Seq<usize>)
    requires
        numbered(g, nodes, adj),
        is_plan(adj, order),
    ensures
        is_deployment_order(
            g,
            name_set(nodes),
            Seq::new(order.len(), |p: int| nodes[order[p] as int]),
        ),
{
    let s = name_set(nodes);
    let names = Seq::new(order.len(), |p: int| nodes[order[p] as int]);
    lemma_sorted_no_duplicates(nodes);
    lemma_holds_all(order, nodes.len() as int);
    assert forall|i: int, j: int|
        0 <= i < names.len() && 0 <= j < names.len() && i != j implies names[i] != names[j] by {
        assert(order[i] != order[j]);
    }
    assert forall|k: Name| names.contains(k) <==> s.contains(k) by {
        if names.contains(k) {
            let p = choose|p: int| 0 <= p < names.len() && names[p] == k;
            assert(nodes[order[p] as int] == k);
        }
        if s.contains(k) {
            let i = choose|i: int| 0 <= i < nodes.len() && nodes[i] == k;
            assert(order.contains(i as usize));
            let p = choose|p: int| 0 <= p < order.len() && order[p] == i as usize;
            assert(names[p] == k);
        }
    }
    assert forall|p: int| 0 <= p < names.len() implies deps_placed_names(
        g,
        s,
        names,
        #[trigger] names[p],
        p,
    ) by {
        assert forall|d: Name| s.contains(d) && #[trigger] g[names[p]].dependencies.contains(
            d,
        ) implies placed_name(names, p, d) by {
            let j = choose|j: int| 0 <= j < nodes.len() && nodes[j] == d;
            let u = order[p] as int;
            assert(g[nodes[u]].dependencies.contains(nodes[j]));
            assert(adj[u].contains(j as usize));
            let k = choose|k: int| 0 <= k < adj[u].len() && adj[u][k] == j as usize;
            assert(deps_placed(adj, order, order[p] as int, p));
            assert(placed_before(order, p, adj[u][k]));
            let q = choose|q: int| 0 <= q < p && q < order.len() && order[q] == j as usize;
            assert(names[q] == d);
        }
    }
    assert forall|pa: int, pb: int, r1: int, r2: int|
        0 <= pa < pb < names.len() && #[trigger] became_ready(g, s, names, pa, r1)
            && #[trigger] became_ready(g, s, names, pb, r2) implies r1 < r2 || (r1 == r2
        && name_lt(names[pa], names[pb])) by {
        lemma_ready_down(g, nodes, adj, order, pa, r1);
        lemma_ready_down(g, nodes, adj, order, pb, r2);
        assert(r1 < r2 || (r1 == r2 && order[pa] < order[pb]));
        if r1 == r2 {
            assert(name_lt(nodes[order[pa] as int], nodes[order[pb] as int]));
        }
    }
}

/// A ready point among the names is a ready point among the numbers.
proof fn lemma_ready_down(
    g: Catalog,
    nodes: Seq<Name>,
    adj: Seq<Seq<usize>>,
    order: Seq<usize>,
    p: int,
    r: int,
)
    requires
        numbered(g, nodes, adj),
        is_plan(adj, order),
        became_ready(
            g,
            name_set(nodes),
            Seq::new(order.len(), |p: int| nodes[order[p] as int]),
            p,
            r,
        ),
    ensures
        ready_point(adj, order, p, r),
{
    let s = name_set(nodes);
    let names = Seq::new(order.len(), |p: int| nodes[order[p] as int]);
    lemma_sorted_no_duplicates(nodes);
    let u = order[p] as int;
    assert forall|k: int| 0 <= k < adj[u].len() implies placed_before(
        order,
        r,
        #[trigger] adj[u][k],
    ) by {
        let j = adj[u][k];
        assert(adj[u].contains(j));
        assert(g[nodes[u]].dependencies.contains(nodes[j as int]));
        assert(nodes.contains(nodes[j as int]));
        assert(s.contains(nodes[j as int]));
        assert(deps_placed_names(g, s, names, names[p], r));
        assert(placed_name(names, r, nodes[j as int]));
        let q = choose|q: int| 0 <= q < r && q < names.len() && names[q] == nodes[j as int];
        assert(nodes[order[q] as int] == nodes[j as int]);
        assert(order[q] == j);
    }
    if r > 0 {
        assert(g[names[p]].dependencies.contains(names[r - 1]));
        assert(g[nodes[u]].dependencies.contains(nodes[order[r - 1] as int]));
        assert(adj[u].contains(order[r - 1]));
    }
}

/// Whether `row` holds `x`.
fn row_contains(row: &Vec<usize>, x: usize) -> (r: bool)
    ensures
        r == row@.contains(x),
{
    let mut k: usize = 0;
    while k < row.len()
        invariant
            k <= row@.len(),
            forall|j: int| 0 <= j < k ==> row@[j] != x,
        decreases row@.len() - k,
    {
        if row[k] == x {
            return true;
        }
        k += 1;
    }
    false
}

/// The numbered graph of the dependencies among the products `nodes`.
///
/// Node `i` stands for `nodes[i]`; its list holds the numbers of the
/// dependencies of that product that are among `nodes`, in the order in
/// which the product lists them, each once.
pub fn dependency_lists(products: &NameMap<ProductSpec>, nodes: &Vec<String>) -> (adj: Vec<
    Vec<usize>,
>)
    requires
        strictly_sorted(names_of(nodes@)),
        forall|i: int| 0 <= i < nodes@.len() ==> products@.contains_key(#[trigger] nodes@[i]@),
    ensures
        numbered(products@, names_of(nodes@), lists(&adj)),
        lists(&adj) == numbering(products@, names_of(nodes@)),
{
    let ghost g = products@;
    let ghost names = names_of(nodes@);
    let n = nodes.len();
    let mut adj: Vec<Vec<usize>> = Vec::new();
    let mut i: usize = 0;
    while i < n
        invariant
            g == products@,
            names == names_of(nodes@),
            n == nodes@.len(),
            i <= n,
            adj@.len() == i,
            strictly_sorted(names),
            forall|u: int| 0 <= u < n ==> g.contains_key(#[trigger] names[u]),
            forall|u: int, k: int|
                0 <= u < i && 0 <= k < adj@[u]@.len() ==> (#[trigger] adj@[u]@[k]) < n,
            forall|u: int| 0 <= u < i ==> (#[trigger] adj@[u])@.no_duplicates(),
            forall|u: int|
                0 <= u < i ==> (#[trigger] adj@[u])@ == dep_numbers(
                    g[names[u]].dependencies,
                    names,
                ),
            forall|u: int, j: usize|
                0 <= u < i && #[trigger] adj@[u]@.contains(j) ==> j < n
                    && g[names[u]].dependencies.contains(names[j as int]),
            forall|u: int, j: int|
                0 <= u < i && 0 <= j < n && g[#[trigger] names[u]].dependencies.contains(
                    #[trigger] names[j],
                ) ==> adj@[u]@.contains(j as usize),
        decreases n - i,
    {
        assert(g.contains_key(names[i as int]));
        let spec_i = products.get(nodes[i].as_str()).unwrap();
        let deps = &spec_i.dependencies;
        let ghost dn = names_of(deps@);
        assert(dn == g[names[i as int]].dependencies);
        let mut row: Vec<usize> = Vec::new();
        let mut k: usize = 0;
        assert(dn.take(0) =~= Seq::<Name>::empty());
        while k < deps.len()
            invariant
                row@ == dep_numbers(dn.take(k as int), names),
                names == names_of(nodes@),
                n == nodes@.len(),
                dn == names_of(deps@),
                k <= deps@.len(),
                strictly_sorted(names),
                row@.no_duplicates(),
                forall|x: int| 0 <= x < row@.len() ==> (#[trigger] row@[x]) < n,
                forall|j: usize| #[trigger] row@.contains(j) ==> j < n && dn.contains(names[j as int]),
                forall|j: int, t: int|
                    0 <= j < n && 0 <= t < k && #[trigger] dn[t] == #[trigger] names[j] ==> row@.contains(
                        j as usize,
                    ),
            decreases deps@.len() - k,
        {
            let ghost old_row = row@;
            proof {
                assert(dn.take(k + 1).drop_last() =~= dn.take(k as int));
                assert(dn.take(k + 1).last() == dn[k as int]);
            }
            match position_of(nodes, deps[k].as_str()) {
                Some(j) => {
                    assert(names[j as int] == dn[k as int]);
                    proof {
                        lemma_sorted_index_of(names, j as int);
                    }
                    assert(dn.contains(names[j as int]));
                    if !row_contains(&row, j) {
                        row.push(j);
                        proof {
                            assert forall|y: usize| #[trigger] row@.contains(y) implies y < n
                                && dn.contains(names[y as int]) by {
                                let x = choose|x: int| 0 <= x < row@.len() && row@[x] == y;
                                if x < old_row.len() {
                                    assert(old_row[x] == y);
                                    assert(old_row.contains(y));
                                }
                            }
                            assert forall|j2: int, t: int|
                                0 <= j2 < n && 0 <= t < k + 1 && #[trigger] dn[t]
                                    == #[trigger] names[j2] implies row@.contains(j2 as usize) by {
                                if t < k {
                                    assert(old_row.contains(j2 as usize));
                                    let x = choose|x: int|
                                        0 <= x < old_row.len() && old_row[x] == j2 as usize;
                                    assert(row@[x] == j2 as usize);
                                } else {
                                    lemma_sorted_no_duplicates(names);
                                    assert(j2 == j);
                                    assert(row@[row@.len() - 1] == j);
                                }
                            }
                        }
                    } else {
                        proof {
                            assert forall|j2: int, t: int|
                                0 <= j2 < n && 0 <= t < k + 1 && #[trigger] dn[t]
                                    == #[trigger] names[j2] implies row@.contains(j2 as usize) by {
                                if t == k {
                                    lemma_sorted_no_duplicates(names);
                                    assert(j2 == j);
                                }
                            }
                        }
                    }
                },
                None => {
                    proof {
                        assert(!names.contains(dn[k as int]));
                        assert forall|j2: int, t: int|
                            0 <= j2 < n && 0 <= t < k + 1 && #[trigger] dn[t]
                                == #[trigger] names[j2] implies row@.contains(j2 as usize) by {
                            if t == k {
                                assert(names.contains(dn[k as int]));
                            }
                        }
                    }
                },
            }
            k += 1;
        }
        proof {
            assert(dn.take(deps@.len() as int) =~= dn);
            assert forall|j: int|
                0 <= j < n && g[names[i as int]].dependencies.contains(
                    #[trigger] names[j],
                ) implies row@.contains(j as usize) by {
                let t = choose|t: int| 0 <= t < dn.len() && dn[t] == names[j];
            }
        }
        let ghost old_adj = adj@;
        adj.push(row);
        proof {
            assert forall|u: int| 0 <= u < i implies adj@[u] == old_adj[u] by {}
        }
        i += 1;
    }
    proof {
        assert(lists(&adj) =~= Seq::new(n as nat, |u: int| adj@[u]@));
        assert(lists(&adj) =~= numbering(g, names));
        let l = lists(&adj);
        assert forall|u: int, k: int| 0 <= u < l.len() && 0 <= k < l[u].len() implies (
        #[trigger] l[u][k]) < l.len() by {
            assert(adj@[u]@[k] < n);
        }
        assert forall|u: int| 0 <= u < l.len() implies (#[trigger] l[u]).no_duplicates() by {
            assert(adj@[u]@.no_duplicates());
        }
    }
    adj
}

} // verus!
