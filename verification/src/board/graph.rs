//! The entanglement graph, a petgraph `Graph` without direction whose nodes
//! are the cells and whose edges are weighted with turns.
//!
//! The graph is opaque to the proofs. What they know of it is what the
//! contracts of this module say of petgraph's functions, over the number of
//! its nodes and the list of its edges. These contracts are not proved: they
//! say what petgraph's source shows.

use vstd::prelude::*;
use petgraph::algo::astar;
use petgraph::data::{Element, FromElements};
use petgraph::graph::{EdgeIndex, NodeIndex};
use petgraph::{Graph, Undirected};

verus! {

/// `petgraph::Graph`, of which the proofs see nothing but what the contracts
/// below say.
#[verifier::external_type_specification]
#[verifier::external_body]
#[verifier::reject_recursive_types(N)]
#[verifier::reject_recursive_types(E)]
#[verifier::reject_recursive_types(Ty)]
#[verifier::reject_recursive_types(Ix)]
pub struct ExGraph<N, E, Ty, Ix>(Graph<N, E, Ty, Ix>);

/// `petgraph::Undirected`, the mark of a graph whose edges have no
/// direction.
#[verifier::external_type_specification]
#[verifier::external_body]
pub struct ExUndirected(Undirected);

/// The number of nodes of a graph. Its nodes are the numbers below it.
pub uninterp spec fn graph_nodes(graph: Graph<(), usize, Undirected, usize>) -> nat;

/// The edges of a graph in the order of their indices, each as its two end
/// nodes and its weight.
pub uninterp spec fn graph_edges(graph: Graph<(), usize, Undirected, usize>) -> Seq<
    (usize, usize, usize),
>;

/// Whether `edge` joins the nodes `a` and `b`, whichever of them it names
/// first.
pub open spec fn joins(edge: (usize, usize, usize), a: usize, b: usize) -> bool {
    (edge.0 == a && edge.1 == b) || (edge.0 == b && edge.1 == a)
}

/// Whether `links` holds an edge of weight `t` between `a` and `b`, whichever
/// of them it names first.
pub open spec fn linked(links: Set<(usize, usize, usize)>, a: usize, b: usize, t: usize) -> bool {
    links.contains((a, b, t)) || links.contains((b, a, t))
}

/// Whether some edge of `links` joins `a` and `b`.
pub open spec fn adjacent(links: Set<(usize, usize, usize)>, a: usize, b: usize) -> bool {
    exists|t: usize| #[trigger] linked(links, a, b, t)
}

/// Whether an edge of `links` joins the node at place `k` of `path` to the
/// node at the next place.
pub open spec fn steps(links: Set<(usize, usize, usize)>, path: Seq<usize>, k: int) -> bool {
    adjacent(links, path[k], path[k + 1])
}

/// Whether `path` leads from `a` to `b` along edges of `links`: it starts
/// with `a`, ends with `b`, and each of its nodes is joined to the next.
pub open spec fn is_walk(links: Set<(usize, usize, usize)>, path: Seq<usize>, a: usize, b: usize)
    -> bool {
    &&& path.len() >= 1
    &&& path[0] == a
    &&& path[path.len() - 1] == b
    &&& forall|k: int| 0 <= k < path.len() - 1 ==> #[trigger] steps(links, path, k)
}

/// Whether `path` leads from `a` to `b` and no walk from `a` to `b` has
/// fewer nodes.
pub open spec fn is_shortest_walk(
    links: Set<(usize, usize, usize)>,
    path: Seq<usize>,
    a: usize,
    b: usize,
) -> bool {
    &&& is_walk(links, path, a, b)
    &&& forall|other: Seq<usize>| #[trigger]
        is_walk(links, other, a, b) ==> path.len() <= other.len()
}

/// Whether some walk leads from `a` to `b`.
pub open spec fn connected(links: Set<(usize, usize, usize)>, a: usize, b: usize) -> bool {
    exists|path: Seq<usize>| is_walk(links, path, a, b)
}

/// The cost of one edge in a path search: every edge counts the same.
fn edge_cost() -> (r: usize)
    ensures
        r == 1,
{
    1
}

/// The estimate of what is left in a path search: none is made.
fn estimate_cost() -> (r: usize)
    ensures
        r == 0,
{
    0
}

/// Whether a path search has arrived: `node` is the node it looks for.
fn is_goal(node: usize, goal: usize) -> (r: bool)
    ensures
        r == (node == goal),
{
    node == goal
}

/// `Graph::from_elements` on `count` node elements: a graph with `count`
/// nodes and no edge.
#[verifier::external_body]
pub(crate) fn with_nodes(count: usize) -> (r: Graph<(), usize, Undirected, usize>)
    ensures
        graph_nodes(r) == count,
        graph_edges(r) == Seq::<(usize, usize, usize)>::empty(),
{
    Graph::from_elements(std::iter::repeat_n(Element::Node { weight: () }, count))
}

/// `Graph::edge_count`: the number of edges.
#[verifier::external_body]
pub(crate) fn edge_count(graph: &Graph<(), usize, Undirected, usize>) -> (r: usize)
    ensures
        r == graph_edges(*graph).len(),
{
    graph.edge_count()
}

/// `Graph::add_edge`: appends an edge from `a` to `b` with `weight` behind
/// the edges that are there. Both nodes must exist.
#[verifier::external_body]
pub(crate) fn add_edge(
    graph: &mut Graph<(), usize, Undirected, usize>,
    a: usize,
    b: usize,
    weight: usize,
)
    requires
        a < graph_nodes(*old(graph)),
        b < graph_nodes(*old(graph)),
    ensures
        graph_nodes(*final(graph)) == graph_nodes(*old(graph)),
        graph_edges(*final(graph)) == graph_edges(*old(graph)).push((a, b, weight)),
{
    graph.add_edge(NodeIndex::new(a), NodeIndex::new(b), weight);
}

/// `Graph::find_edge`: the index of an edge that joins `a` and `b`, in
/// either direction, or `None` where no edge joins them.
#[verifier::external_body]
pub(crate) fn find_edge(graph: &Graph<(), usize, Undirected, usize>, a: usize, b: usize) -> (r:
    Option<usize>)
    ensures
        r.is_some() ==> r.unwrap() < graph_edges(*graph).len() && joins(
            graph_edges(*graph)[r.unwrap() as int],
            a,
            b,
        ),
        r.is_none() ==> forall|i: int|
            0 <= i < graph_edges(*graph).len() ==> !joins(#[trigger] graph_edges(*graph)[i], a, b),
{
    graph.find_edge(NodeIndex::new(a), NodeIndex::new(b)).map(|e| e.index())
}

/// `Graph::edge_weight`: the weight of the edge with index `edge`, or `None`
/// where the graph has no such edge.
#[verifier::external_body]
pub(crate) fn edge_weight(graph: &Graph<(), usize, Undirected, usize>, edge: usize) -> (r: Option<
    usize,
>)
    ensures
        r.is_some() == (edge < graph_edges(*graph).len()),
        r.is_some() ==> r.unwrap() == graph_edges(*graph)[edge as int].2,
{
    graph.edge_weight(EdgeIndex::new(edge)).copied()
}

/// `Graph::remove_edge`: takes the edge with index `edge` out and returns its
/// weight. The last edge takes over the index of the removed one; the other
/// edges keep theirs. Where the graph has no such edge, it returns `None`
/// and changes nothing.
#[verifier::external_body]
pub(crate) fn remove_edge(graph: &mut Graph<(), usize, Undirected, usize>, edge: usize) -> (r:
    Option<usize>)
    ensures
        graph_nodes(*final(graph)) == graph_nodes(*old(graph)),
        r.is_some() == (edge < graph_edges(*old(graph)).len()),
        r.is_some() ==> r.unwrap() == graph_edges(*old(graph))[edge as int].2,
        r.is_some() ==> graph_edges(*final(graph)) == graph_edges(*old(graph)).update(
            edge as int,
            graph_edges(*old(graph)).last(),
        ).drop_last(),
        r.is_none() ==> graph_edges(*final(graph)) == graph_edges(*old(graph)),
{
    graph.remove_edge(EdgeIndex::new(edge))
}

/// `Graph::neighbors`: the nodes at the other end of the edges of `a`. Every
/// node it returns is joined to `a` by an edge, and the other end of every
/// edge of `a` is among them. In which order they come, and how often a node
/// with several edges to `a` comes, is left open.
#[verifier::external_body]
pub(crate) fn neighbors(graph: &Graph<(), usize, Undirected, usize>, a: usize) -> (r: Vec<usize>)
    requires
        a < graph_nodes(*graph),
    ensures
        forall|k: int|
            0 <= k < r@.len() ==> exists|i: int|
                0 <= i < graph_edges(*graph).len() && joins(
                    #[trigger] graph_edges(*graph)[i],
                    a,
                    #[trigger] r@[k],
                ),
        forall|i: int, other: usize|
            0 <= i < graph_edges(*graph).len() && joins(#[trigger] graph_edges(*graph)[i], a, other)
                ==> #[trigger] r@.contains(other),
{
    graph.neighbors(NodeIndex::new(a)).map(|n| n.index()).collect()
}

/// `petgraph::algo::astar` with every edge at the same cost and no estimate:
/// a shortest walk from `start` to `goal` with the number of its edges, or
/// `None` where no walk leads from `start` to `goal`.
#[verifier::external_body]
pub(crate) fn shortest_path(
    graph: &Graph<(), usize, Undirected, usize>,
    start: usize,
    goal: usize,
) -> (r: Option<(usize, Vec<usize>)>)
    ensures
        r.is_some() ==> is_shortest_walk(graph_edges(*graph).to_set(), r.unwrap().1@, start, goal),
        r.is_some() ==> r.unwrap().0 + 1 == r.unwrap().1@.len(),
        r.is_none() ==> !connected(graph_edges(*graph).to_set(), start, goal),
{
    astar(
        graph,
        NodeIndex::new(start),
        |node| is_goal(node.index(), goal),
        |_| edge_cost(),
        |_| estimate_cost(),
    ).map(|(cost, path)| (cost, path.into_iter().map(|n| n.index()).collect()))
}

} // verus!
