//! The graph container: `petgraph`'s `Graph`, with what it holds named and
//! the contracts of the methods that the library calls.
//!
//! The contracts of this file are believed, not proved: each restates what
//! the source of `petgraph` shows for a graph with undirected edges and
//! 32-bit indices.

use crate::graph::WolfNode;
use petgraph::graph::{Graph, NodeIndex};
use petgraph::Undirected;
use vstd::prelude::*;

verus! {

/// `petgraph::graph::Graph`: the type is named so that it can stand in
/// signatures, and nothing inside a graph is visible to proofs.
#[verifier::external_type_specification]
#[verifier::external_body]
#[verifier::reject_recursive_types(N)]
#[verifier::reject_recursive_types(E)]
#[verifier::reject_recursive_types(Ty)]
#[verifier::reject_recursive_types(Ix)]
pub struct ExGraph<N, E, Ty, Ix>(Graph<N, E, Ty, Ix>);

/// `petgraph::Undirected`: the marker of a graph with undirected edges.
#[verifier::external_type_specification]
#[verifier::external_body]
pub struct ExUndirected(Undirected);

/// The node weights of a graph, in the order of the node indices.
pub uninterp spec fn graph_nodes(graph: Graph<WolfNode, (), Undirected>) -> Seq<WolfNode>;

/// The edges of a graph, in the order of the edge indices: each is the pair
/// of the node indices that it was added with, source first.
pub uninterp spec fn graph_edges(graph: Graph<WolfNode, (), Undirected>) -> Seq<(int, int)>;

/// The number of edges that have `node` as an endpoint. An edge from a node
/// to itself counts once.
pub open spec fn incident_count(edges: Seq<(int, int)>, node: int) -> nat
    decreases edges.len(),
{
    if edges.len() == 0 {
        0
    } else {
        let rest = incident_count(edges.drop_last(), node);
        if edges.last().0 == node || edges.last().1 == node {
            rest + 1
        } else {
            rest
        }
    }
}

/// `Graph::new_undirected`: a graph that holds no node and no edge.
#[verifier::external_body]
pub(crate) fn new_graph() -> (graph: Graph<WolfNode, (), Undirected>)
    ensures
        graph_nodes(graph).len() == 0,
        graph_edges(graph).len() == 0,
{
    Graph::new_undirected()
}

/// `Graph::node_count`: the number of nodes.
#[verifier::external_body]
pub(crate) fn node_count(graph: &Graph<WolfNode, (), Undirected>) -> (count: usize)
    ensures
        count == graph_nodes(*graph).len(),
{
    graph.node_count()
}

/// `Graph::edge_count`: the number of edges.
#[verifier::external_body]
pub(crate) fn edge_count(graph: &Graph<WolfNode, (), Undirected>) -> (count: usize)
    ensures
        count == graph_edges(*graph).len(),
{
    graph.edge_count()
}

/// `Graph::add_node`: appends a node with the given weight and returns its
/// index, which is the number of nodes before the call. The edges stay as
/// they are. The method panics when the index of the new node would be the
/// largest 32-bit number, which `requires` leaves out.
#[verifier::external_body]
pub(crate) fn add_node(graph: &mut Graph<WolfNode, (), Undirected>, node: WolfNode) -> (index:
    usize)
    requires
        graph_nodes(*old(graph)).len() < u32::MAX,
    ensures
        graph_nodes(*final(graph)) == graph_nodes(*old(graph)).push(node),
        graph_edges(*final(graph)) == graph_edges(*old(graph)),
        index == graph_nodes(*old(graph)).len(),
{
    graph.add_node(node).index()
}

/// `Graph::add_edge`: appends an edge from node `a` to node `b`, whatever
/// edges join them already. The nodes stay as they are. The method panics
/// when one of the nodes does not exist or when the index of the new edge
/// would be the largest 32-bit number, which `requires` leaves out.
#[verifier::external_body]
pub(crate) fn add_edge(graph: &mut Graph<WolfNode, (), Undirected>, a: usize, b: usize)
    requires
        a < graph_nodes(*old(graph)).len(),
        b < graph_nodes(*old(graph)).len(),
        graph_edges(*old(graph)).len() < u32::MAX,
    ensures
        graph_nodes(*final(graph)) == graph_nodes(*old(graph)),
        graph_edges(*final(graph)) == graph_edges(*old(graph)).push((a as int, b as int)),
{
    graph.add_edge(NodeIndex::new(a), NodeIndex::new(b), ());
}

/// Indexing a graph by a node index: the weight of that node. It panics
/// when the node does not exist, which `requires` leaves out.
#[verifier::external_body]
pub(crate) fn node_weight(graph: &Graph<WolfNode, (), Undirected>, a: usize) -> (node: &WolfNode)
    requires
        a < graph_nodes(*graph).len(),
    ensures
        *node == graph_nodes(*graph)[a as int],
{
    &graph[NodeIndex::new(a)]
}

/// `Graph::edges` and the length of what it yields. For a graph with
/// undirected edges the iterator walks the edges that start at node `a` and
/// then those that end there, passing over the ones that also start there:
/// each edge with `a` as an endpoint comes once.
#[verifier::external_body]
pub(crate) fn incident_edge_count(graph: &Graph<WolfNode, (), Undirected>, a: usize) -> (count:
    usize)
    requires
        a < graph_nodes(*graph).len(),
    ensures
        count == incident_count(graph_edges(*graph), a as int),
{
    graph.edges(NodeIndex::new(a)).count()
}

} // verus!
