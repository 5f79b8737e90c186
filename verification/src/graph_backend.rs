//! The trusted face of the graph store: the connectivity graph lives in a
//! `petgraph` stable directed graph, reached only through the wrappers
//! here. Node payloads are plain codes and node handles plain indices, so
//! everything above this module is ordinary verified code.
//!
//! The names below describe a graph that never had a node or an edge
//! removed (`graph_clean`); no wrapper removes anything, so every graph
//! this crate builds stays clean.

use vstd::prelude::*;
use petgraph::stable_graph::{NodeIndex, StableGraph};
use petgraph::Directed;

verus! {

#[verifier::external_type_specification]
#[verifier::external_body]
#[verifier::reject_recursive_types(N)]
#[verifier::reject_recursive_types(E)]
#[verifier::reject_recursive_types(Ty)]
#[verifier::reject_recursive_types(Ix)]
pub struct ExStableGraph<N, E, Ty, Ix>(StableGraph<N, E, Ty, Ix>);

#[verifier::external_type_specification]
#[verifier::external_body]
pub struct ExDirected(Directed);

/// The node payloads of the graph, in node-index order.
pub uninterp spec fn graph_nodes(g: StableGraph<u64, (), Directed, u32>) -> Seq<u64>;

/// The directed edges of the graph as (source, target) node-index pairs,
/// in edge-insertion order; parallel edges appear once per insertion.
pub uninterp spec fn graph_edges(g: StableGraph<u64, (), Directed, u32>) -> Seq<(int, int)>;

/// The graph has no vacant node or edge slot: nothing was ever removed,
/// so indices are dense and additions append.
pub uninterp spec fn graph_clean(g: StableGraph<u64, (), Directed, u32>) -> bool;

/// The targets of the edges leaving `src`, in edge-insertion order.
pub open spec fn out_targets(edges: Seq<(int, int)>, src: int) -> Seq<int> {
    edges.filter(|e: (int, int)| e.0 == src).map_values(|e: (int, int)| e.1)
}

/// Relies on `StableGraph::new`: an empty directed graph.
#[verifier::external_body]
pub(crate) fn sg_new() -> (g: StableGraph<u64, (), Directed, u32>)
    ensures
        graph_nodes(g) == Seq::<u64>::empty(),
        graph_edges(g) == Seq::<(int, int)>::empty(),
        graph_clean(g),
{
    StableGraph::new()
}

/// Relies on `StableGraph::add_node`: on a graph with no vacant slot the
/// node is appended at the next index; it panics only at the index
/// type's limit, which the precondition rules out.
#[verifier::external_body]
pub(crate) fn sg_add_node(g: &mut StableGraph<u64, (), Directed, u32>, w: u64) -> (ix: usize)
    requires
        graph_clean(*old(g)),
        graph_nodes(*old(g)).len() < 0xffff_ffff,
    ensures
        ix as int == graph_nodes(*old(g)).len(),
        graph_nodes(*final(g)) == graph_nodes(*old(g)).push(w),
        graph_edges(*final(g)) == graph_edges(*old(g)),
        graph_clean(*final(g)),
{
    g.add_node(w).index()
}

/// Relies on `StableGraph::add_edge`: appends a (possibly parallel) edge
/// between existing nodes; it panics only on a missing endpoint or at
/// the index type's limit, which the preconditions rule out.
#[verifier::external_body]
pub(crate) fn sg_add_edge(g: &mut StableGraph<u64, (), Directed, u32>, a: usize, b: usize)
    requires
        graph_clean(*old(g)),
        (a as int) < graph_nodes(*old(g)).len(),
        (b as int) < graph_nodes(*old(g)).len(),
        graph_edges(*old(g)).len() < 0xffff_ffff,
    ensures
        graph_nodes(*final(g)) == graph_nodes(*old(g)),
        graph_edges(*final(g)) == graph_edges(*old(g)).push((a as int, b as int)),
        graph_clean(*final(g)),
{
    g.add_edge(NodeIndex::new(a), NodeIndex::new(b), ());
}

/// Relies on `StableGraph::find_edge`: some edge from `a` to `b` when one
/// exists, `None` otherwise.
#[verifier::external_body]
pub(crate) fn sg_find_edge(
    g: &StableGraph<u64, (), Directed, u32>,
    a: usize,
    b: usize,
) -> (r: Option<usize>)
    requires
        graph_clean(*g),
        (a as int) < graph_nodes(*g).len(),
        (b as int) < graph_nodes(*g).len(),
    ensures
        r is Some <==> graph_edges(*g).contains((a as int, b as int)),
        match r {
            Some(i) => (i as int) < graph_edges(*g).len() && graph_edges(*g)[i as int] == (
                a as int,
                b as int,
            ),
            None => true,
        },
{
    match g.find_edge(NodeIndex::new(a), NodeIndex::new(b)) {
        Some(e) => Some(e.index()),
        None => None,
    }
}

/// Relies on `StableGraph::node_count`.
#[verifier::external_body]
pub(crate) fn sg_node_count(g: &StableGraph<u64, (), Directed, u32>) -> (n: usize)
    requires
        graph_clean(*g),
    ensures
        n as int == graph_nodes(*g).len(),
{
    g.node_count()
}

/// Relies on `StableGraph::edge_count`.
#[verifier::external_body]
pub(crate) fn sg_edge_count(g: &StableGraph<u64, (), Directed, u32>) -> (n: usize)
    requires
        graph_clean(*g),
    ensures
        n as int == graph_edges(*g).len(),
{
    g.edge_count()
}

/// Relies on `StableGraph::node_weight`: the payload of an existing node.
#[verifier::external_body]
pub(crate) fn sg_node_weight(g: &StableGraph<u64, (), Directed, u32>, ix: usize) -> (w: u64)
    requires
        graph_clean(*g),
        (ix as int) < graph_nodes(*g).len(),
    ensures
        w == graph_nodes(*g)[ix as int],
{
    match g.node_weight(NodeIndex::new(ix)) {
        Some(w) => *w,
        None => 0,
    }
}

/// Relies on `StableGraph::neighbors_directed` with `Outgoing`, which
/// lists neighbors most recently added edge first: the targets of the
/// edges leaving `a`, in reverse edge-insertion order, once per edge.
#[verifier::external_body]
pub(crate) fn sg_neighbors_out(
    g: &StableGraph<u64, (), Directed, u32>,
    a: usize,
) -> (r: Vec<usize>)
    requires
        graph_clean(*g),
        (a as int) < graph_nodes(*g).len(),
    ensures
        r@.map_values(|v: usize| v as int) == out_targets(graph_edges(*g), a as int).reverse(),
{
    let mut v = Vec::new();
    for nb in g.neighbors_directed(NodeIndex::new(a), petgraph::Direction::Outgoing) {
        v.push(nb.index());
    }
    v
}

} // verus!
