//! Evaluation order within a step, computed by petgraph's topological sort.
use vstd::prelude::*;
use petgraph::graph::{Graph, NodeIndex};
use petgraph::Directed;
use crate::block::{Component, breaks_cycles};

verus! {

#[verifier::external_type_specification]
#[verifier::external_body]
#[verifier::reject_recursive_types(N)]
#[verifier::reject_recursive_types(E)]
#[verifier::reject_recursive_types(Ty)]
#[verifier::reject_recursive_types(Ix)]
pub struct ExGraph<N, E, Ty, Ix>(Graph<N, E, Ty, Ix>);

#[verifier::external_type_specification]
#[verifier::external_body]
pub struct ExDirected(Directed);

/// The node weights of a petgraph graph, by node index.
pub uninterp spec fn graph_nodes(g: Graph<u64, (), Directed, usize>) -> Seq<u64>;

/// The edges of a petgraph graph as (source, target) node indices, in insertion order.
pub uninterp spec fn graph_edges(g: Graph<u64, (), Directed, usize>) -> Seq<(usize, usize)>;

/// Relies on petgraph's `Graph::with_capacity`: a graph without nodes or edges.
#[verifier::external_body]
fn graph_new(nodes: usize, edges: usize) -> (g: Graph<u64, (), Directed, usize>)
    ensures
        graph_nodes(g) == Seq::<u64>::empty(),
        graph_edges(g) == Seq::<(usize, usize)>::empty(),
{
    Graph::with_capacity(nodes, edges)
}

/// Relies on petgraph's `Graph::add_node`: appends a node with weight `w`.
/// With `usize` indices it has no capacity check that could panic.
#[verifier::external_body]
fn graph_add_node(g: &mut Graph<u64, (), Directed, usize>, w: u64) -> (r: usize)
    ensures
        r == graph_nodes(*old(g)).len(),
        graph_nodes(*final(g)) == graph_nodes(*old(g)).push(w),
        graph_edges(*final(g)) == graph_edges(*old(g)),
{
    g.add_node(w).index()
}

/// Relies on petgraph's `Graph::add_edge`: appends the edge `a -> b`. It
/// panics on an index out of bounds, which `requires` rules out.
#[verifier::external_body]
fn graph_add_edge(g: &mut Graph<u64, (), Directed, usize>, a: usize, b: usize)
    requires
        a < graph_nodes(*old(g)).len(),
        b < graph_nodes(*old(g)).len(),
    ensures
        graph_nodes(*final(g)) == graph_nodes(*old(g)),
        graph_edges(*final(g)) == graph_edges(*old(g)).push((a, b)),
{
    g.add_edge(NodeIndex::new(a), NodeIndex::new(b), ());
}

/// `order` lists each of the nodes `0..n` once, and every edge of `deps`
/// goes from an earlier to a later position.
pub open spec fn is_topo_order(n: nat, deps: Set<(usize, usize)>, order: Seq<usize>) -> bool {
    &&& order.len() == n
    &&& order.no_duplicates()
    &&& forall|i: int| 0 <= i < order.len() ==> order[i] < n
    &&& forall|j: usize| j < n ==> #[trigger] order.contains(j)
    &&& forall|i: int, k: int|
        0 <= i < order.len() && 0 <= k < order.len() && #[trigger] deps.contains((order[i], order[k])) ==> i < k
}

/// Node `k` lies on a closed walk of `deps`.
pub open spec fn on_cycle(deps: Set<(usize, usize)>, k: usize) -> bool {
    exists|p: Seq<usize>|
        p.len() >= 2 && p[0] == k && p.last() == k && forall|i: int|
            0 <= i < p.len() - 1 ==> #[trigger] deps.contains((p[i], p[i + 1]))
}

/// What petgraph's topological sort returns for a graph of `n` nodes with
/// `edges` added in this order: its traversal depends on nothing else.
pub uninterp spec fn toposort_of(n: nat, edges: Seq<(usize, usize)>) -> Result<Seq<usize>, usize>;

/// The view of a sort's result.
pub open spec fn result_view(r: Result<Vec<usize>, usize>) -> Result<Seq<usize>, usize> {
    match r {
        Ok(v) => Ok(v@),
        Err(k) => Err(k),
    }
}

/// Relies on petgraph's `algo::toposort`: on an acyclic graph every node in
/// an order where each edge points forward; otherwise a node of a cycle
/// (a self loop counts). Node indices are handed back as `usize`.
#[verifier::external_body]
fn graph_toposort(g: &Graph<u64, (), Directed, usize>) -> (r: Result<Vec<usize>, usize>)
    ensures
        match r {
            Ok(v) => is_topo_order(graph_nodes(*g).len(), graph_edges(*g).to_set(), v@),
            Err(k) => k < graph_nodes(*g).len() && on_cycle(graph_edges(*g).to_set(), k),
        },
        result_view(r) == toposort_of(graph_nodes(*g).len(), graph_edges(*g)),
{
    petgraph::algo::toposort(g, None)
        .map(|v| v.into_iter().map(|n| n.index()).collect())
        .map_err(|c| c.node_id().index())
}

/// The edges that order blocks within a step: those whose consumer reads
/// its input of the same step.
pub open spec fn depends(comps: Seq<Component>, edges: Seq<(usize, usize)>) -> Set<(usize, usize)> {
    Set::new(|e: (usize, usize)| edges.contains(e) && !breaks_cycles(comps[e.1 as int].component_type))
}

/// The edges that order blocks within a step, in the order they were made.
pub open spec fn instant_edges(comps: Seq<Component>, edges: Seq<(usize, usize)>) -> Seq<(usize, usize)>
    decreases edges.len(),
{
    if edges.len() == 0 {
        Seq::empty()
    } else {
        let rest = instant_edges(comps, edges.drop_last());
        if breaks_cycles(comps[edges.last().1 as int].component_type) {
            rest
        } else {
            rest.push(edges.last())
        }
    }
}

/// Every edge joins two of the blocks.
pub open spec fn edges_in_range(n: nat, edges: Seq<(usize, usize)>) -> bool {
    forall|i: int| 0 <= i < edges.len() ==> (#[trigger] edges[i]).0 < n && edges[i].1 < n
}

/// The order in which the blocks are evaluated in a step, or a block that
/// lies on a cycle that no delaying block breaks.
pub fn schedule(comps: &Vec<Component>, edges: &Vec<(usize, usize)>) -> (r: Result<Vec<usize>, usize>)
    requires
        edges_in_range(comps@.len(), edges@),
    ensures
        match r {
            Ok(order) => is_topo_order(comps@.len(), depends(comps@, edges@), order@),
            Err(k) => k < comps@.len() && on_cycle(depends(comps@, edges@), k),
        },
        result_view(r) == toposort_of(comps@.len(), instant_edges(comps@, edges@)),
{
    let mut g = graph_new(comps.len(), edges.len());
    let mut i: usize = 0;
    while i < comps.len()
        invariant
            i <= comps@.len(),
            graph_nodes(g).len() == i,
            graph_edges(g) == Seq::<(usize, usize)>::empty(),
        decreases comps@.len() - i,
    {
        graph_add_node(&mut g, comps[i].id);
        i = i + 1;
    }
    let mut k: usize = 0;
    while k < edges.len()
        invariant
            edges_in_range(comps@.len(), edges@),
            k <= edges@.len(),
            graph_nodes(g).len() == comps@.len(),
            graph_edges(g) == instant_edges(comps@, edges@.take(k as int)),
            forall|e: (usize, usize)|
                graph_edges(g).contains(e) <==> exists|m: int|
                    0 <= m < k && #[trigger] edges@[m] == e && !breaks_cycles(comps@[e.1 as int].component_type),
        decreases edges@.len() - k,
    {
        let (a, b) = edges[k];
        let ghost before = graph_edges(g);
        proof {
            assert(edges@.take(k as int + 1).drop_last() =~= edges@.take(k as int));
        }
        if !comps[b].component_type.is_cycle_breaker() {
            graph_add_edge(&mut g, a, b);
        }
        proof {
            assert forall|e: (usize, usize)|
                graph_edges(g).contains(e) <==> exists|m: int|
                    0 <= m < k + 1 && #[trigger] edges@[m] == e && !breaks_cycles(comps@[e.1 as int].component_type) by {
                if graph_edges(g).contains(e) && !before.contains(e) {
                    assert(e == edges@[k as int]);
                }
                if exists|m: int| 0 <= m < k + 1 && #[trigger] edges@[m] == e && !breaks_cycles(comps@[e.1 as int].component_type) {
                    let m = choose|m: int| 0 <= m < k + 1 && #[trigger] edges@[m] == e && !breaks_cycles(comps@[e.1 as int].component_type);
                    if m < k {
                        assert(before.contains(e));
                        let t = choose|t: int| 0 <= t < before.len() && before[t] == e;
                        assert(graph_edges(g)[t] == e);
                    } else {
                        assert(graph_edges(g).last() == e);
                    }
                }
            }
        }
        k = k + 1;
    }
    proof {
        assert(edges@.take(k as int) =~= edges@);
        assert(graph_edges(g).to_set() =~= depends(comps@, edges@)) by {
            assert forall|e: (usize, usize)| depends(comps@, edges@).contains(e) implies graph_edges(g).contains(e) by {
                let m = choose|m: int| 0 <= m < edges@.len() && edges@[m] == e;
                assert(edges@[m] == e);
            }
        }
    }
    graph_toposort(&g)
}

} // verus!
