//! Directed graphs over integer node handles, held in petgraph, and what the
//! ordering logic needs to know of them: paths, cycles, topological orders and
//! strongly connected components.
use vstd::prelude::*;

verus! {

#[verifier::external_type_specification]
#[verifier::external_body]
#[verifier::reject_recursive_types(N)]
#[verifier::reject_recursive_types(E)]
#[verifier::reject_recursive_types(Ty)]
#[verifier::reject_recursive_types(Ix)]
pub struct ExGraph<N, E, Ty, Ix>(petgraph::Graph<N, E, Ty, Ix>);

#[verifier::external_type_specification]
#[verifier::external_body]
pub struct ExDirected(petgraph::Directed);

/// A directed graph whose nodes are the handles `0..n` and whose edges carry nothing.
/// Indices are `usize`, so the graph has no capacity bound of its own.
pub type HandleGraph = petgraph::Graph<(), (), petgraph::Directed, usize>;

/// The number of nodes of a graph.
pub uninterp spec fn graph_node_count(g: petgraph::Graph<(), (), petgraph::Directed, usize>) -> nat;

/// The edges of a graph, as (source, target) handle pairs in the order they were added.
pub uninterp spec fn graph_edges(g: petgraph::Graph<(), (), petgraph::Directed, usize>) -> Seq<(int, int)>;

/// The node order that petgraph's `toposort` computes for a graph with `n` nodes and
/// the given edges, added in that order.
pub uninterp spec fn toposort_order(n: nat, edges: Seq<(int, int)>) -> Seq<int>;

/// The component list that petgraph's `tarjan_scc` computes for a graph with `n` nodes
/// and the given edges, added in that order.
pub uninterp spec fn scc_list(n: nat, edges: Seq<(int, int)>) -> Seq<Seq<int>>;

/// Handles as integers.
pub open spec fn handles_view(v: Seq<usize>) -> Seq<int> {
    v.map_values(|i: usize| i as int)
}

/// Lists of handles as integer sequences.
pub open spec fn handle_lists_view(v: Seq<Vec<usize>>) -> Seq<Seq<int>> {
    v.map_values(|c: Vec<usize>| handles_view(c@))
}

/// `p` is a walk along the edges: non-empty, each step an edge.
pub open spec fn is_path(edges: Seq<(int, int)>, p: Seq<int>) -> bool {
    &&& p.len() >= 1
    &&& forall|k: int| 0 <= k < p.len() - 1 ==> #[trigger] edges.contains((p[k], p[k + 1]))
}

/// Some walk leads from `a` to `b` (every node reaches itself).
pub open spec fn reaches(edges: Seq<(int, int)>, a: int, b: int) -> bool {
    exists|p: Seq<int>| is_path(edges, p) && p[0] == a && p.last() == b
}

/// `a` and `b` reach each other.
pub open spec fn mutually_reachable(edges: Seq<(int, int)>, a: int, b: int) -> bool {
    reaches(edges, a, b) && reaches(edges, b, a)
}

/// Some walk of at least one step returns to where it started.
pub open spec fn has_cycle(edges: Seq<(int, int)>) -> bool {
    exists|p: Seq<int>| is_path(edges, p) && p.len() >= 2 && p[0] == p.last()
}

/// `order` lists each of the handles `0..n` exactly once.
pub open spec fn is_permutation(n: nat, order: Seq<int>) -> bool {
    &&& order.len() == n
    &&& order.no_duplicates()
    &&& forall|k: int| 0 <= k < order.len() ==> 0 <= #[trigger] order[k] < n
}

/// For every edge, its source stands before its target in `order`.
pub open spec fn respects_edges(edges: Seq<(int, int)>, order: Seq<int>) -> bool {
    forall|i: int, j: int|
        0 <= i < order.len() && 0 <= j < order.len() && #[trigger] edges.contains((order[i], order[j]))
            ==> i < j
}

/// `order` is a topological order of the graph.
pub open spec fn is_topological_order(n: nat, edges: Seq<(int, int)>, order: Seq<int>) -> bool {
    is_permutation(n, order) && respects_edges(edges, order)
}

/// `v` stands in one of the lists.
pub open spec fn listed(comps: Seq<Seq<int>>, v: int) -> bool {
    exists|c: int, k: int| 0 <= c < comps.len() && 0 <= k < comps[c].len() && #[trigger] comps[c][k] == v
}

/// `comps` splits the handles `0..n` into the graph's strongly connected components:
/// each handle stands in exactly one list, once; two handles share a list exactly
/// when they reach each other.
pub open spec fn is_scc_partition(n: nat, edges: Seq<(int, int)>, comps: Seq<Seq<int>>) -> bool {
    &&& forall|c: int| 0 <= c < comps.len() ==> #[trigger] comps[c].len() > 0
    &&& forall|c: int| 0 <= c < comps.len() ==> #[trigger] comps[c].no_duplicates()
    &&& forall|c: int, k: int|
        0 <= c < comps.len() && 0 <= k < comps[c].len() ==> 0 <= #[trigger] comps[c][k] < n
    &&& forall|v: int| 0 <= v < n ==> #[trigger] listed(comps, v)
    &&& forall|c: int, k: int, d: int, l: int|
        0 <= c < comps.len() && 0 <= k < comps[c].len() && 0 <= d < comps.len() && 0 <= l
            < comps[d].len() ==> (mutually_reachable(edges, #[trigger] comps[c][k], #[trigger] comps[d][l])
            <==> c == d)
}

/// Relies on petgraph's `Default` for `Graph` (`Graph::with_capacity(0, 0)`): a graph
/// without nodes or edges.
#[verifier::external_body]
pub(crate) fn new_graph() -> (g: HandleGraph)
    ensures
        graph_node_count(g) == 0,
        graph_edges(g) == Seq::<(int, int)>::empty(),
{
    petgraph::Graph::default()
}

/// Relies on petgraph's `Graph::add_node`: the new node's handle is the former node
/// count, and the edges stay as they were. With `usize` indices it has no capacity check.
#[verifier::external_body]
pub(crate) fn add_node(g: &mut HandleGraph) -> (i: usize)
    ensures
        i == graph_node_count(*old(g)),
        graph_node_count(*final(g)) == graph_node_count(*old(g)) + 1,
        graph_edges(*final(g)) == graph_edges(*old(g)),
{
    g.add_node(()).index()
}

/// Relies on petgraph's `Graph::add_edge`: appends the edge `(a, b)`; it panics when a
/// handle is not a node, which `requires` rules out.
#[verifier::external_body]
pub(crate) fn add_edge(g: &mut HandleGraph, a: usize, b: usize)
    requires
        a < graph_node_count(*old(g)),
        b < graph_node_count(*old(g)),
    ensures
        graph_node_count(*final(g)) == graph_node_count(*old(g)),
        graph_edges(*final(g)) == graph_edges(*old(g)).push((a as int, b as int)),
{
    g.add_edge(petgraph::graph::NodeIndex::new(a), petgraph::graph::NodeIndex::new(b), ());
}

/// Relies on `petgraph::algo::toposort`: on an acyclic graph it returns every node once,
/// each before its successors; on a graph with a cycle (a self loop included) it fails.
#[verifier::external_body]
pub(crate) fn toposort_handles(g: &HandleGraph) -> (r: Option<Vec<usize>>)
    ensures
        r is Some <==> !has_cycle(graph_edges(*g)),
        r matches Some(v) ==> handles_view(v@) == toposort_order(graph_node_count(*g), graph_edges(*g)),
        r matches Some(v) ==> is_topological_order(graph_node_count(*g), graph_edges(*g), handles_view(v@)),
{
    match petgraph::algo::toposort(&*g, None) {
        Ok(v) => Some(v.into_iter().map(|i| i.index()).collect()),
        Err(_) => None,
    }
}

/// Relies on `petgraph::algo::tarjan_scc`: it returns the strongly connected components,
/// each node in exactly one of them. (It recurses once per step of a depth-first walk.)
#[verifier::external_body]
pub(crate) fn scc_handles(g: &HandleGraph) -> (r: Vec<Vec<usize>>)
    ensures
        handle_lists_view(r@) == scc_list(graph_node_count(*g), graph_edges(*g)),
        is_scc_partition(graph_node_count(*g), graph_edges(*g), handle_lists_view(r@)),
{
    petgraph::algo::tarjan_scc(&*g).into_iter().map(|c| c.into_iter().map(|i| i.index()).collect()).collect()
}

} // verus!
