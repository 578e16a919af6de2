//! Dependency graphs of tasks: cycles, dangling dependencies, and orders in
//! which every task comes after the tasks it depends on.
use vstd::prelude::*;
use vstd::set_lib::lemma_len_subset;

verus! {

/// Node `ids[i]` depends on the ids in `deps[i]`.
pub struct DepGraph {
    pub ids: Seq<u64>,
    pub deps: Seq<Seq<u64>>,
}

/// One list of dependencies per node, and no node twice.
pub open spec fn graph_wf(g: DepGraph) -> bool {
    g.ids.len() == g.deps.len() && g.ids.no_duplicates()
}

pub open spec fn is_node(g: DepGraph, v: u64) -> bool {
    g.ids.contains(v)
}

/// The position of a node.
pub open spec fn node_index(g: DepGraph, v: u64) -> int {
    choose|i: int| 0 <= i < g.ids.len() && g.ids[i] == v
}

/// The dependencies of a node.
pub open spec fn deps_of(g: DepGraph, v: u64) -> Seq<u64> {
    g.deps[node_index(g, v)]
}

/// `u` depends on `v`, and both are nodes.
pub open spec fn edge(g: DepGraph, u: u64, v: u64) -> bool {
    is_node(g, u) && is_node(g, v) && deps_of(g, u).contains(v)
}

/// A path of dependencies that comes back to where it started.
pub open spec fn is_cycle(g: DepGraph, p: Seq<u64>) -> bool {
    &&& p.len() >= 2
    &&& p[0] == p.last()
    &&& forall|k: int| 0 <= k < p.len() - 1 ==> #[trigger] edge(g, p[k], p[k + 1])
}

pub open spec fn has_cycle(g: DepGraph) -> bool {
    exists|p: Seq<u64>| #[trigger] is_cycle(g, p)
}

/// Some node depends on an id that is not a node.
pub open spec fn has_dangling(g: DepGraph) -> bool {
    exists|i: int, j: int| 0 <= i < g.deps.len() && 0 <= j < g.deps[i].len() && !is_node(g, #[trigger] g.deps[i][j])
}

/// Each dependency of `v[i]` that counts stands earlier in `v`; with
/// `nodes_only`, dependencies that are not nodes do not count.
pub open spec fn placed(g: DepGraph, v: Seq<u64>, nodes_only: bool) -> bool {
    forall|i: int, j: int|
        0 <= i < v.len() && 0 <= j < deps_of(g, v[i]).len() ==> (nodes_only && !is_node(g, #[trigger] deps_of(g, v[i])[j]))
            || earlier(v, i, deps_of(g, v[i])[j])
}

/// `d` stands in `v` before position `i`.
pub open spec fn earlier(v: Seq<u64>, i: int, d: u64) -> bool {
    exists|k: int| 0 <= k < i && v[k] == d
}

/// Every node once, each after all its dependencies.
pub open spec fn is_topo_order(g: DepGraph, v: Seq<u64>) -> bool {
    &&& v.no_duplicates()
    &&& forall|x: u64| v.contains(x) <==> is_node(g, x)
    &&& placed(g, v, false)
}

pub proof fn lemma_node_index(g: DepGraph, i: int)
    requires
        graph_wf(g),
        0 <= i < g.ids.len(),
    ensures
        node_index(g, g.ids[i]) == i,
        deps_of(g, g.ids[i]) == g.deps[i],
{
    let v = g.ids[i];
    let j = node_index(g, v);
    assert(0 <= j < g.ids.len() && g.ids[j] == v);
}

// ---------------------------------------------------------------------------
// A walk that never leaves a set where every node has a successor
// ---------------------------------------------------------------------------

/// Some node of `r` is a dependency of `u`.
pub open spec fn has_successor(g: DepGraph, r: Set<u64>, u: u64) -> bool {
    exists|v: u64| r.contains(v) && edge(g, u, v)
}

/// Every node of `r` depends on a node of `r`.
pub open spec fn closed(g: DepGraph, r: Set<u64>) -> bool {
    forall|u: u64| r.contains(u) ==> #[trigger] has_successor(g, r, u)
}

spec fn successor(g: DepGraph, r: Set<u64>, u: u64) -> u64 {
    choose|v: u64| r.contains(v) && edge(g, u, v)
}

spec fn walk(g: DepGraph, r: Set<u64>, start: u64, k: nat) -> u64
    decreases k,
{
    if k == 0 {
        start
    } else {
        successor(g, r, walk(g, r, start, (k - 1) as nat))
    }
}

proof fn lemma_walk(g: DepGraph, r: Set<u64>, start: u64, k: nat)
    requires
        r.contains(start),
        closed(g, r),
    ensures
        r.contains(walk(g, r, start, k)),
        k > 0 ==> edge(g, walk(g, r, start, (k - 1) as nat), walk(g, r, start, k)),
    decreases k,
{
    if k > 0 {
        lemma_walk(g, r, start, (k - 1) as nat);
        let u = walk(g, r, start, (k - 1) as nat);
        assert(has_successor(g, r, u));
    }
}

/// The first `n + 1` steps of the walk from `start`.
spec fn walk_seq(g: DepGraph, r: Set<u64>, start: u64, n: nat) -> Seq<u64> {
    Seq::new(n + 1, |k: int| walk(g, r, start, k as nat))
}

proof fn lemma_walk_seq(g: DepGraph, r: Set<u64>, start: u64, n: nat)
    requires
        r.contains(start),
        closed(g, r),
    ensures
        forall|k: int| 0 <= k < n + 1 ==> r.contains(#[trigger] walk_seq(g, r, start, n)[k]),
        forall|k: int| 0 <= k < n ==> edge(g, #[trigger] walk_seq(g, r, start, n)[k], walk_seq(g, r, start, n)[k + 1]),
{
    let w = walk_seq(g, r, start, n);
    assert forall|k: int| 0 <= k < n + 1 implies r.contains(#[trigger] w[k]) by {
        lemma_walk(g, r, start, k as nat);
    }
    assert forall|k: int| 0 <= k < n implies edge(g, #[trigger] w[k], w[k + 1]) by {
        lemma_walk(g, r, start, (k + 1) as nat);
    }
}

/// A sequence longer than a finite set it lies in repeats an element.
proof fn lemma_repeat(w: Seq<u64>, r: Set<u64>)
    requires
        r.finite(),
        w.len() > r.len(),
        forall|k: int| 0 <= k < w.len() ==> r.contains(#[trigger] w[k]),
    ensures
        exists|i: int, j: int| 0 <= i < j < w.len() && w[i] == w[j],
{
    if w.no_duplicates() {
        w.unique_seq_to_set();
        assert forall|y: u64| w.to_set().contains(y) implies r.contains(y) by {
            let k = choose|k: int| 0 <= k < w.len() && w[k] == y;
            assert(r.contains(w[k]));
        }
        lemma_len_subset(w.to_set(), r);
        assert(false);
    }
    let (i, j) = choose|i: int, j: int| 0 <= i < w.len() && 0 <= j < w.len() && i != j && w[i] == w[j];
    if i < j {
        assert(0 <= i < j < w.len() && w[i] == w[j]);
    } else {
        assert(0 <= j < i < w.len() && w[j] == w[i]);
    }
}

/// A finite non-empty set in which every node depends on another node of
/// the set holds a cycle.
pub proof fn lemma_closed_set_cycle(g: DepGraph, r: Set<u64>)
    requires
        r.finite(),
        r.len() > 0,
        closed(g, r),
    ensures
        has_cycle(g),
{
    let start = r.choose();
    let n = r.len();
    let w = walk_seq(g, r, start, n);
    lemma_walk_seq(g, r, start, n);
    lemma_repeat(w, r);
    let (a, b) = choose|i: int, j: int| 0 <= i < j < w.len() && w[i] == w[j];
    let p = w.subrange(a, b + 1);
    assert forall|k: int| 0 <= k < p.len() - 1 implies #[trigger] edge(g, p[k], p[k + 1]) by {
        assert(p[k] == w[a + k]);
        assert(p[k + 1] == w[a + k + 1]);
        assert(edge(g, w[a + k], w[a + k + 1]));
    }
    assert(is_cycle(g, p));
}

// ---------------------------------------------------------------------------
// An order in which each node follows its dependencies rules out cycles
// ---------------------------------------------------------------------------

/// The position of `x` in `v`.
spec fn position(v: Seq<u64>, x: u64) -> int {
    choose|k: int| 0 <= k < v.len() && v[k] == x
}

proof fn lemma_position(v: Seq<u64>, k: int)
    requires
        v.no_duplicates(),
        0 <= k < v.len(),
    ensures
        position(v, v[k]) == k,
{
    let x = v[k];
    let j = position(v, x);
    assert(0 <= j < v.len() && v[j] == x);
}

proof fn lemma_ordered_no_cycle(g: DepGraph, v: Seq<u64>, nodes_only: bool)
    requires
        v.no_duplicates(),
        forall|x: u64| is_node(g, x) ==> v.contains(x),
        placed(g, v, nodes_only),
    ensures
        !has_cycle(g),
{
    if has_cycle(g) {
        let p = choose|p: Seq<u64>| #[trigger] is_cycle(g, p);
        // Every step of the cycle goes to an earlier position.
        assert forall|k: int| 0 <= k < p.len() - 1 implies position(v, #[trigger] p[k + 1]) < position(v, p[k]) by {
            assert(edge(g, p[k], p[k + 1]));
            let u = p[k];
            let d = p[k + 1];
            assert(v.contains(u));
            let i = choose|i: int| 0 <= i < v.len() && v[i] == u;
            lemma_position(v, i);
            let ds = deps_of(g, v[i]);
            let j = choose|j: int| 0 <= j < ds.len() && ds[j] == d;
            assert(is_node(g, ds[j]));
            let q = choose|q: int| 0 <= q < i && v[q] == ds[j];
            lemma_position(v, q);
        }
        lemma_descending(g, v, p, (p.len() - 1) as nat);
        assert(p[0] == p[p.len() - 1]);
    }
}

proof fn lemma_descending(g: DepGraph, v: Seq<u64>, p: Seq<u64>, m: nat)
    requires
        m < p.len(),
        forall|k: int| 0 <= k < p.len() - 1 ==> position(v, #[trigger] p[k + 1]) < position(v, p[k]),
    ensures
        position(v, p[m as int]) <= position(v, p[0]) - m,
    decreases m,
{
    if m > 0 {
        lemma_descending(g, v, p, (m - 1) as nat);
        let k = m - 1;
        assert(position(v, p[k + 1]) < position(v, p[k]));
    }
}

// ---------------------------------------------------------------------------
// Peeling: taking nodes whose dependencies are all taken
// ---------------------------------------------------------------------------

/// The graph of parallel lists of ids and dependency lists.
pub open spec fn graph_of(ids: Seq<u64>, deps: Seq<Vec<u64>>) -> DepGraph {
    DepGraph { ids, deps: deps.map_values(|d: Vec<u64>| d@) }
}

/// Every dependency of `v` that counts is among `taken`.
pub open spec fn ready(g: DepGraph, taken: Seq<u64>, v: u64, nodes_only: bool) -> bool {
    forall|j: int| 0 <= j < deps_of(g, v).len() ==> (nodes_only && !is_node(g, #[trigger] deps_of(g, v)[j])) || taken.contains(
        deps_of(g, v)[j],
    )
}

proof fn lemma_placed_push(g: DepGraph, before: Seq<u64>, x: u64, nodes_only: bool)
    requires
        placed(g, before, nodes_only),
        ready(g, before, x, nodes_only),
    ensures
        placed(g, before.push(x), nodes_only),
{
    let v = before.push(x);
    assert forall|a: int, b: int|
        0 <= a < v.len() && 0 <= b < deps_of(g, v[a]).len() implies (nodes_only && !is_node(g, #[trigger] deps_of(g, v[a])[b]))
        || earlier(v, a, deps_of(g, v[a])[b]) by {
        if a < before.len() {
            assert(v[a] == before[a]);
            if !(nodes_only && !is_node(g, deps_of(g, before[a])[b])) {
                let k = choose|k: int| 0 <= k < a && before[k] == deps_of(g, before[a])[b];
                assert(v[k] == before[k]);
            }
        } else {
            assert(v[a] == x);
            let dd = deps_of(g, x)[b];
            if !(nodes_only && !is_node(g, dd)) {
                assert(before.contains(dd));
                let k = choose|k: int| 0 <= k < before.len() && before[k] == dd;
                assert(v[k] == before[k]);
            }
        }
    }
}

/// The position of `x` among the ids.
fn find_id(ids: &Vec<u64>, x: u64) -> (r: Option<usize>)
    ensures
        match r {
            Some(i) => i < ids@.len() && ids@[i as int] == x,
            None => !ids@.contains(x),
        },
{
    let mut i: usize = 0;
    while i < ids.len()
        invariant
            i <= ids@.len(),
            forall|k: int| 0 <= k < i ==> ids@[k] != x,
        decreases ids@.len() - i,
    {
        if ids[i] == x {
            return Some(i);
        }
        i += 1;
    }
    None
}

/// Takes nodes, in passes over the list, whose dependencies are all taken
/// (with `nodes_only`, dependencies that are not nodes are passed over),
/// until a pass takes none. The second result says whether every node was
/// taken.
pub fn peel(ids: &Vec<u64>, deps: &Vec<Vec<u64>>, nodes_only: bool) -> (r: (Vec<u64>, bool))
    requires
        ids@.len() == deps@.len(),
        ids@.no_duplicates(),
    ensures
        ({
            let g = graph_of(ids@, deps@);
            let order = r.0@;
            &&& order.no_duplicates()
            &&& forall|x: u64| order.contains(x) ==> is_node(g, x)
            &&& placed(g, order, nodes_only)
            &&& r.1 == forall|x: u64| is_node(g, x) ==> order.contains(x)
            &&& forall|x: u64| is_node(g, x) && !order.contains(x) ==> !ready(g, order, x, nodes_only)
        }),
{
    let ghost g = graph_of(ids@, deps@);
    let n = ids.len();
    let mut done: Vec<bool> = Vec::new();
    let mut i: usize = 0;
    while i < n
        invariant
            i <= n,
            n == ids@.len(),
            done@.len() == i,
            forall|k: int| 0 <= k < i ==> !done@[k],
        decreases n - i,
    {
        done.push(false);
        i += 1;
    }
    let mut order: Vec<u64> = Vec::new();
    loop
        invariant
            n == ids@.len(),
            n == deps@.len(),
            ids@.no_duplicates(),
            g == graph_of(ids@, deps@),
            done@.len() == n,
            forall|k: int| 0 <= k < n ==> (#[trigger] done@[k] <==> order@.contains(ids@[k])),
            order@.no_duplicates(),
            forall|x: u64| order@.contains(x) ==> is_node(g, x),
            placed(g, order@, nodes_only),
            order@.len() <= n,
        ensures
            done@.len() == n,
            forall|k: int| 0 <= k < n ==> (#[trigger] done@[k] <==> order@.contains(ids@[k])),
            order@.no_duplicates(),
            forall|x: u64| order@.contains(x) ==> is_node(g, x),
            placed(g, order@, nodes_only),
            forall|k: int| 0 <= k < n ==> done@[k] || !#[trigger] ready(g, order@, ids@[k], nodes_only),
        decreases n - order@.len(),
    {
        let ghost start = order@;
        let mut progress = false;
        let mut i: usize = 0;
        while i < n
            invariant
                n == ids@.len(),
                n == deps@.len(),
                ids@.no_duplicates(),
                g == graph_of(ids@, deps@),
                i <= n,
                done@.len() == n,
                forall|k: int| 0 <= k < n ==> (#[trigger] done@[k] <==> order@.contains(ids@[k])),
                order@.no_duplicates(),
                forall|x: u64| order@.contains(x) ==> is_node(g, x),
                placed(g, order@, nodes_only),
                order@.len() <= n,
                progress ==> order@.len() > start.len(),
                !progress ==> order@ == start,
                order@.len() >= start.len(),
                !progress ==> forall|k: int| 0 <= k < i ==> done@[k] || !#[trigger] ready(g, order@, ids@[k], nodes_only),
            decreases n - i,
        {
            if !done[i] {
                proof {
                    lemma_node_index(g, i as int);
                }
                let dl = &deps[i];
                assert(deps_of(g, ids@[i as int]) == dl@);
                let mut ok = true;
                let mut j: usize = 0;
                while j < dl.len()
                    invariant
                        n == ids@.len(),
                        done@.len() == n,
                        forall|k: int| 0 <= k < n ==> (#[trigger] done@[k] <==> order@.contains(ids@[k])),
                        g == graph_of(ids@, deps@),
                        forall|x: u64| order@.contains(x) ==> is_node(g, x),
                        i < n,
                        j <= dl@.len(),
                        deps_of(g, ids@[i as int]) == dl@,
                        ok ==> forall|q: int| 0 <= q < j ==> (nodes_only && !is_node(g, #[trigger] dl@[q])) || order@.contains(dl@[q]),
                        !ok ==> !ready(g, order@, ids@[i as int], nodes_only),
                    decreases dl@.len() - j,
                {
                    if ok {
                        let d = dl[j];
                        match find_id(ids, d) {
                            Some(p) => {
                                if !done[p] {
                                    ok = false;
                                    assert(!order@.contains(d));
                                    assert(!((nodes_only && !is_node(g, deps_of(g, ids@[i as int])[j as int])) || order@.contains(deps_of(g, ids@[i as int])[j as int])));
                                }
                            },
                            None => {
                                if !nodes_only {
                                    ok = false;
                                    assert(!order@.contains(d)) by {
                                        if order@.contains(d) {
                                            assert(is_node(g, d));
                                        }
                                    }
                                    assert(!((nodes_only && !is_node(g, deps_of(g, ids@[i as int])[j as int])) || order@.contains(deps_of(g, ids@[i as int])[j as int])));
                                }
                            },
                        }
                    }
                    j += 1;
                }
                if ok {
                    let ghost before = order@;
                    let x = ids[i];
                    order.push(x);
                    done.set(i, true);
                    progress = true;
                    proof {
                        assert(!before.contains(x));
                        assert forall|a: int, b: int| 0 <= a < order@.len() && 0 <= b < order@.len() && a != b implies order@[a] != order@[b] by {
                            if a < before.len() && b < before.len() {
                                assert(order@[a] == before[a] && order@[b] == before[b]);
                            } else if a == before.len() {
                                assert(order@[b] == before[b]);
                                assert(before.contains(before[b]));
                            } else {
                                assert(order@[a] == before[a]);
                                assert(before.contains(before[a]));
                            }
                        }
                        assert forall|k: int| 0 <= k < n implies (#[trigger] done@[k] <==> order@.contains(ids@[k])) by {
                            if k == i {
                                assert(order@[before.len() as int] == x);
                            } else {
                                assert(ids@[k] != x);
                                if before.contains(ids@[k]) {
                                    let q = choose|q: int| 0 <= q < before.len() && before[q] == ids@[k];
                                    assert(order@[q] == before[q]);
                                }
                                if order@.contains(ids@[k]) {
                                    let q = choose|q: int| 0 <= q < order@.len() && order@[q] == ids@[k];
                                    assert(q != before.len());
                                    assert(order@[q] == before[q]);
                                }
                            }
                        }
                        assert forall|y: u64| order@.contains(y) implies is_node(g, y) by {
                            let q = choose|q: int| 0 <= q < order@.len() && order@[q] == y;
                            if q < before.len() {
                                assert(order@[q] == before[q]);
                            } else {
                                assert(g.ids[i as int] == y);
                            }
                        }
                        assert(ready(g, before, x, nodes_only)) by {
                            assert forall|q: int| 0 <= q < deps_of(g, x).len() implies (nodes_only && !is_node(g, #[trigger] deps_of(g, x)[q])) || before.contains(deps_of(g, x)[q]) by {
                                assert(deps_of(g, x)[q] == dl@[q]);
                            }
                        }
                        lemma_placed_push(g, before, x, nodes_only);
                        assert(placed(g, order@, nodes_only));
                        assert(order@.len() <= n) by {
                            order@.unique_seq_to_set();
                            assert forall|y: u64| order@.to_set().contains(y) implies ids@.to_set().contains(y) by {
                                assert(order@.contains(y));
                                assert(is_node(g, y));
                                assert(ids@.contains(y));
                            }
                            ids@.unique_seq_to_set();
                            lemma_len_subset(order@.to_set(), ids@.to_set());
                        }
                    }
                } else {
                    proof {
                        if !progress {
                            assert(!ready(g, order@, ids@[i as int], nodes_only));
                        }
                    }
                }
            }
            i += 1;
        }
        if !progress {
            break;
        }
    }
    let mut all = true;
    let mut k: usize = 0;
    while k < n
        invariant
            n == ids@.len(),
            done@.len() == n,
            k <= n,
            forall|q: int| 0 <= q < n ==> (#[trigger] done@[q] <==> order@.contains(ids@[q])),
            all == forall|q: int| 0 <= q < k ==> done@[q],
        decreases n - k,
    {
        if !done[k] {
            all = false;
        }
        k += 1;
    }
    proof {
        assert forall|x: u64| is_node(g, x) && !order@.contains(x) implies !ready(g, order@, x, nodes_only) by {
            let q = choose|q: int| 0 <= q < n && ids@[q] == x;
            assert(!done@[q]);
            assert(done@[q] || !ready(g, order@, ids@[q], nodes_only));
        }
        if all {
            assert forall|x: u64| is_node(g, x) implies order@.contains(x) by {
                let q = choose|q: int| 0 <= q < n && ids@[q] == x;
                assert(done@[q]);
            }
        } else {
            let q = choose|q: int| 0 <= q < n && !done@[q];
            assert(is_node(g, ids@[q]));
        }
    }
    (order, all)
}

// ---------------------------------------------------------------------------
// What peeling tells about the graph
// ---------------------------------------------------------------------------

/// The nodes not yet taken.
spec fn untaken(g: DepGraph, order: Seq<u64>) -> Set<u64> {
    g.ids.to_set().filter(|x: u64| !order.contains(x))
}

proof fn lemma_untaken(g: DepGraph, order: Seq<u64>)
    ensures
        untaken(g, order).finite(),
        forall|x: u64| untaken(g, order).contains(x) <==> is_node(g, x) && !order.contains(x),
{
    g.ids.to_set().lemma_len_filter(|x: u64| !order.contains(x));
}

/// The nodes left when peeling stops each depend on another node left,
/// when no dependency that counts leads outside the nodes.
proof fn lemma_left_closed(g: DepGraph, order: Seq<u64>, nodes_only: bool)
    requires
        graph_wf(g),
        nodes_only || !has_dangling(g),
        forall|x: u64| is_node(g, x) && !order.contains(x) ==> !ready(g, order, x, nodes_only),
    ensures
        closed(g, untaken(g, order)),
{
    let r = untaken(g, order);
    lemma_untaken(g, order);
    assert forall|u: u64| r.contains(u) implies #[trigger] has_successor(g, r, u) by {
        assert(!ready(g, order, u, nodes_only));
        let j = choose|j: int| 0 <= j < deps_of(g, u).len() && !((nodes_only && !is_node(g, #[trigger] deps_of(g, u)[j])) || order.contains(deps_of(g, u)[j]));
        let v = deps_of(g, u)[j];
        if !nodes_only {
            let i = node_index(g, u);
            assert(0 <= i < g.ids.len() && g.ids[i] == u);
            assert(g.deps[i][j] == v);
            assert(is_node(g, v));
        }
        assert(r.contains(v));
        assert(edge(g, u, v));
    }
}

/// When peeling over node dependencies stops, the graph has a cycle
/// exactly when some node was left.
pub proof fn lemma_peel_nodes_only(g: DepGraph, order: Seq<u64>, all: bool)
    requires
        graph_wf(g),
        order.no_duplicates(),
        placed(g, order, true),
        all == forall|x: u64| is_node(g, x) ==> order.contains(x),
        forall|x: u64| is_node(g, x) && !order.contains(x) ==> !ready(g, order, x, true),
    ensures
        has_cycle(g) == !all,
{
    if all {
        lemma_ordered_no_cycle(g, order, true);
    } else {
        let r = untaken(g, order);
        lemma_untaken(g, order);
        let x0 = choose|x: u64| is_node(g, x) && !order.contains(x);
        assert(r.contains(x0));
        assert(r.len() > 0);
        lemma_left_closed(g, order, true);
        lemma_closed_set_cycle(g, r);
    }
}

/// When peeling over all dependencies stops, every node was taken exactly
/// when the graph has neither a cycle nor a dangling dependency; and then
/// the order taken is a dependency order.
pub proof fn lemma_peel_all(g: DepGraph, order: Seq<u64>, all: bool)
    requires
        graph_wf(g),
        order.no_duplicates(),
        forall|x: u64| order.contains(x) ==> is_node(g, x),
        placed(g, order, false),
        all == forall|x: u64| is_node(g, x) ==> order.contains(x),
        forall|x: u64| is_node(g, x) && !order.contains(x) ==> !ready(g, order, x, false),
    ensures
        all == (!has_cycle(g) && !has_dangling(g)),
        all ==> is_topo_order(g, order),
{
    if all {
        lemma_ordered_no_cycle(g, order, false);
        assert(!has_dangling(g)) by {
            if has_dangling(g) {
                let (i, j) = choose|i: int, j: int| 0 <= i < g.deps.len() && 0 <= j < g.deps[i].len() && !is_node(g, #[trigger] g.deps[i][j]);
                lemma_node_index(g, i);
                let u = g.ids[i];
                assert(order.contains(u));
                let a = choose|a: int| 0 <= a < order.len() && order[a] == u;
                assert(deps_of(g, order[a]) == g.deps[i]);
                let k = choose|k: int| 0 <= k < a && order[k] == deps_of(g, order[a])[j];
                assert(order.contains(order[k]));
            }
        }
    } else {
        if !has_dangling(g) {
            let r = untaken(g, order);
            lemma_untaken(g, order);
            let x0 = choose|x: u64| is_node(g, x) && !order.contains(x);
            assert(r.contains(x0));
            assert(r.len() > 0);
            lemma_left_closed(g, order, false);
            lemma_closed_set_cycle(g, r);
        }
    }
}

} // verus!
