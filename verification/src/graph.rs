//! The directed graph that backs the window, held in `petgraph`, and what is
//! taken on trust about it.
//!
//! A graph is modelled by two sequences indexed by node index: the node
//! weights, and for each node the targets of its outgoing edges, most
//! recently added edge first. Removing a node moves the last node into the
//! freed index; the model says so.

use vstd::prelude::*;
use crate::block::BlockInfo;

verus! {

/// `petgraph::graph::Graph`, whose inside stays hidden.
#[verifier::external_type_specification]
#[verifier::external_body]
#[verifier::reject_recursive_types(N)]
#[verifier::reject_recursive_types(E)]
#[verifier::reject_recursive_types(Ty)]
#[verifier::reject_recursive_types(Ix)]
pub struct ExGraph<N, E, Ty, Ix>(petgraph::graph::Graph<N, E, Ty, Ix>);

/// `petgraph::Directed`, the marker of graphs with directed edges.
#[verifier::external_type_specification]
#[verifier::external_body]
pub struct ExDirected(petgraph::Directed);

/// The node weights of a graph, by node index.
pub uninterp spec fn dag_nodes(
    g: petgraph::graph::Graph<BlockInfo, (), petgraph::Directed, usize>,
) -> Seq<BlockInfo>;

/// For each node index, the targets of the node's outgoing edges, in the
/// order in which the graph walks them: the most recently added edge first.
pub uninterp spec fn dag_children(
    g: petgraph::graph::Graph<BlockInfo, (), petgraph::Directed, usize>,
) -> Seq<Seq<int>>;

/// The betweenness centrality of every node of a directed graph with the
/// given adjacency lists, by node index: each score as the bit pattern of
/// its `f64`, and nothing at an index that denotes no node.
pub uninterp spec fn betweenness_bits(children: Seq<Seq<int>>) -> Seq<Option<u64>>;

/// The index that a node has once the node at `removed` has left a graph
/// whose last index was `last`: the last node takes the freed index.
pub open spec fn index_after_removal(t: int, removed: int, last: int) -> int {
    if t == last {
        removed
    } else {
        t
    }
}

/// The test that an edge target is another node than `a`.
pub open spec fn other_than(a: int) -> spec_fn(int) -> bool {
    |t: int| t != a
}

/// The renaming of node indices that the removal of the node at `removed`
/// brings about.
pub open spec fn renamed(removed: int, last: int) -> spec_fn(int) -> int {
    |t: int| index_after_removal(t, removed, last)
}

/// The node weights after the node at `a` has been removed.
pub open spec fn nodes_after_removal<T>(nodes: Seq<T>, a: int) -> Seq<T> {
    Seq::new(
        (nodes.len() - 1) as nat,
        |i: int|
            if i == a {
                nodes[nodes.len() - 1]
            } else {
                nodes[i]
            },
    )
}

/// The adjacency lists after the node at `a` has been removed: every edge
/// from or to `a` is gone, the remaining edges keep their order, and the
/// node that was last is now known by the index `a`.
pub open spec fn children_after_removal(children: Seq<Seq<int>>, a: int) -> Seq<Seq<int>> {
    let last = children.len() - 1;
    Seq::new(
        (children.len() - 1) as nat,
        |i: int|
            children[if i == a {
                last
            } else {
                i
            }].filter(other_than(a)).map_values(renamed(a, last)),
    )
}

/// `Graph::with_capacity(0, 0)`: a graph without nodes or edges.
#[verifier::external_body]
pub(crate) fn graph_empty() -> (g: petgraph::graph::Graph<
    BlockInfo,
    (),
    petgraph::Directed,
    usize,
>)
    ensures
        dag_nodes(g) == Seq::<BlockInfo>::empty(),
        dag_children(g) == Seq::<Seq<int>>::empty(),
{
    petgraph::graph::Graph::with_capacity(0, 0)
}

/// `Graph::node_count`: the number of nodes.
#[verifier::external_body]
pub(crate) fn graph_node_count(
    g: &petgraph::graph::Graph<BlockInfo, (), petgraph::Directed, usize>,
) -> (n: usize)
    ensures
        n == dag_nodes(*g).len(),
{
    g.node_count()
}

/// `Graph`'s `Index<NodeIndex>`: the weight of the node at `a`. The index
/// must denote a node.
#[verifier::external_body]
pub(crate) fn graph_node(
    g: &petgraph::graph::Graph<BlockInfo, (), petgraph::Directed, usize>,
    a: usize,
) -> (w: &BlockInfo)
    requires
        a < dag_nodes(*g).len(),
    ensures
        *w == dag_nodes(*g)[a as int],
{
    &g[petgraph::graph::NodeIndex::new(a)]
}

/// `Graph::add_node`: the new node takes the next index and has no edges;
/// nothing else changes. With `usize` indices the graph has no node limit.
#[verifier::external_body]
pub(crate) fn graph_add_node(
    g: &mut petgraph::graph::Graph<BlockInfo, (), petgraph::Directed, usize>,
    weight: BlockInfo,
) -> (a: usize)
    ensures
        a == dag_nodes(*old(g)).len(),
        dag_nodes(*final(g)) == dag_nodes(*old(g)).push(weight),
        dag_children(*final(g)) == dag_children(*old(g)).push(Seq::<int>::empty()),
{
    g.add_node(weight).index()
}

/// `Graph::add_edge`: the edge from `a` to `b` becomes the first of the
/// outgoing edges of `a`; parallel edges are kept. Both indices must denote
/// nodes. With `usize` indices the graph has no edge limit.
#[verifier::external_body]
pub(crate) fn graph_add_edge(
    g: &mut petgraph::graph::Graph<BlockInfo, (), petgraph::Directed, usize>,
    a: usize,
    b: usize,
)
    requires
        a < dag_nodes(*old(g)).len(),
        b < dag_nodes(*old(g)).len(),
        a < dag_children(*old(g)).len(),
    ensures
        dag_nodes(*final(g)) == dag_nodes(*old(g)),
        dag_children(*final(g)) == dag_children(*old(g)).update(
            a as int,
            seq![b as int] + dag_children(*old(g))[a as int],
        ),
{
    g.add_edge(petgraph::graph::NodeIndex::new(a), petgraph::graph::NodeIndex::new(b), ());
}

/// `Graph::remove_node`: the node at `a` leaves with all edges from and to
/// it, and the last node takes its index. The index must denote a node.
#[verifier::external_body]
pub(crate) fn graph_remove_node(
    g: &mut petgraph::graph::Graph<BlockInfo, (), petgraph::Directed, usize>,
    a: usize,
)
    requires
        a < dag_nodes(*old(g)).len(),
        dag_children(*old(g)).len() == dag_nodes(*old(g)).len(),
    ensures
        dag_nodes(*final(g)) == nodes_after_removal(dag_nodes(*old(g)), a as int),
        dag_children(*final(g)) == children_after_removal(dag_children(*old(g)), a as int),
{
    g.remove_node(petgraph::graph::NodeIndex::new(a));
}

/// `Graph::neighbors_directed` with `Outgoing`: the targets of the edges
/// that leave the node at `a`, most recently added edge first.
#[verifier::external_body]
pub(crate) fn graph_children(
    g: &petgraph::graph::Graph<BlockInfo, (), petgraph::Directed, usize>,
    a: usize,
) -> (targets: Vec<usize>)
    requires
        a < dag_children(*g).len(),
    ensures
        targets@.len() == dag_children(*g)[a as int].len(),
        forall|k: int| 0 <= k < targets@.len() ==> targets@[k] as int == dag_children(*g)[a as int][k],
{
    g.neighbors_directed(petgraph::graph::NodeIndex::new(a), petgraph::Direction::Outgoing)
        .map(|n| n.index())
        .collect()
}

/// `rustworkx_core::centrality::betweenness_centrality`, without endpoints,
/// not normalised, on one thread: one entry for each node index. The
/// entries depend on the adjacency lists alone. A score is a sum of
/// non-negative terms; it is handed out as the bit pattern of its `f64`,
/// which for such numbers orders as the numbers do.
#[verifier::external_body]
pub(crate) fn graph_betweenness(
    g: &petgraph::graph::Graph<BlockInfo, (), petgraph::Directed, usize>,
) -> (scores: Vec<Option<u64>>)
    ensures
        scores@ == betweenness_bits(dag_children(*g)),
        scores@.len() == dag_children(*g).len(),
{
    rustworkx_core::centrality::betweenness_centrality(g, false, false, usize::MAX)
        .into_iter()
        .map(|score| score.map(|x| x.to_bits()))
        .collect()
}

} // verus!
