//! The arena graph that holds the projection: petgraph's `StableGraph`, seen
//! through a model of its live node and edge slots.
use vstd::prelude::*;
use petgraph::stable_graph::{NodeIndex, EdgeIndex, StableGraph};
use petgraph::visit::EdgeRef;
use petgraph::{Directed, Direction};
use crate::entity::Entity;
use crate::relationship::Relationship;

verus! {

#[verifier::external_type_specification]
#[verifier::external_body]
#[verifier::reject_recursive_types(N)]
#[verifier::reject_recursive_types(E)]
#[verifier::reject_recursive_types(Ty)]
#[verifier::reject_recursive_types(Ix)]
pub struct ExStableGraph<N, E, Ty, Ix>(StableGraph<N, E, Ty, Ix>);

#[verifier::external_type_specification]
#[verifier::external_body]
pub struct ExDirected(Directed);

/// The graph of entities and relationships, indexed by `usize` so that no
/// index runs out.
pub type EntityGraph = StableGraph<Entity, Relationship, Directed, usize>;

/// The live nodes of the graph, by node index.
pub uninterp spec fn graph_nodes(g: StableGraph<Entity, Relationship, Directed, usize>) -> Map<
    usize,
    Entity,
>;

/// The live edges of the graph, by edge index: source node, target node and
/// weight.
pub uninterp spec fn graph_edges(g: StableGraph<Entity, Relationship, Directed, usize>) -> Map<
    usize,
    (usize, usize, Relationship),
>;

/// The edges of `m` that have no endpoint at node `a`.
pub open spec fn edges_avoiding(m: Map<usize, (usize, usize, Relationship)>, a: usize) -> Map<
    usize,
    (usize, usize, Relationship),
> {
    m.restrict(m.dom().filter(|e: usize| m[e].0 != a && m[e].1 != a))
}

/// Relies on `StableGraph::with_capacity`: a new graph has no node and no edge.
#[verifier::external_body]
pub(crate) fn graph_new() -> (r: EntityGraph)
    ensures
        graph_nodes(r).dom() == Set::<usize>::empty(),
        graph_edges(r).dom() == Set::<usize>::empty(),
{
    StableGraph::with_capacity(0, 0)
}

/// Relies on `StableGraph::add_node`: the weight goes to a slot that held no
/// node (a vacant one or a new one); edges are untouched. With `usize`
/// indices it does not panic.
#[verifier::external_body]
pub(crate) fn graph_add_node(g: &mut EntityGraph, weight: Entity) -> (i: usize)
    ensures
        !graph_nodes(*old(g)).contains_key(i),
        graph_nodes(*final(g)) == graph_nodes(*old(g)).insert(i, weight),
        graph_edges(*final(g)) == graph_edges(*old(g)),
{
    g.add_node(weight).index()
}

/// Relies on `StableGraph::add_edge`: a new edge from `a` to `b` in a slot
/// that held no edge. It panics unless both nodes exist.
#[verifier::external_body]
pub(crate) fn graph_add_edge(g: &mut EntityGraph, a: usize, b: usize, weight: Relationship) -> (e:
    usize)
    requires
        graph_nodes(*old(g)).contains_key(a),
        graph_nodes(*old(g)).contains_key(b),
    ensures
        !graph_edges(*old(g)).contains_key(e),
        graph_edges(*final(g)) == graph_edges(*old(g)).insert(e, (a, b, weight)),
        graph_nodes(*final(g)) == graph_nodes(*old(g)),
{
    g.add_edge(NodeIndex::new(a), NodeIndex::new(b), weight).index()
}

/// Relies on `StableGraph::remove_node`: the node goes, and with it every
/// edge from or to it; a missing node changes nothing.
#[verifier::external_body]
pub(crate) fn graph_remove_node(g: &mut EntityGraph, a: usize)
    ensures
        graph_nodes(*final(g)) == graph_nodes(*old(g)).remove(a),
        graph_edges(*final(g)) == edges_avoiding(graph_edges(*old(g)), a),
{
    let _ = g.remove_node(NodeIndex::new(a));
}

/// Relies on `StableGraph::remove_edge`: the edge goes, nothing else changes.
#[verifier::external_body]
pub(crate) fn graph_remove_edge(g: &mut EntityGraph, e: usize)
    ensures
        graph_edges(*final(g)) == graph_edges(*old(g)).remove(e),
        graph_nodes(*final(g)) == graph_nodes(*old(g)),
{
    let _ = g.remove_edge(EdgeIndex::new(e));
}

/// Relies on `StableGraph::node_weight`: the weight of a live node, `None`
/// for any other index.
#[verifier::external_body]
pub(crate) fn graph_node_weight(g: &EntityGraph, a: usize) -> (r: Option<&Entity>)
    ensures
        match r {
            Some(w) => graph_nodes(*g).contains_key(a) && *w == graph_nodes(*g)[a],
            None => !graph_nodes(*g).contains_key(a),
        },
{
    g.node_weight(NodeIndex::new(a))
}

/// Relies on `StableGraph`'s `IndexMut` by node: the node's weight is
/// replaced. It panics unless the node exists.
#[verifier::external_body]
pub(crate) fn graph_set_node_weight(g: &mut EntityGraph, a: usize, weight: Entity)
    requires
        graph_nodes(*old(g)).contains_key(a),
    ensures
        graph_nodes(*final(g)) == graph_nodes(*old(g)).insert(a, weight),
        graph_edges(*final(g)) == graph_edges(*old(g)),
{
    g[NodeIndex::new(a)] = weight;
}

/// Relies on `StableGraph::edges` (outgoing for a directed graph): each edge
/// that leaves `a`, once, as its index and its target.
#[verifier::external_body]
pub(crate) fn graph_out_edges(g: &EntityGraph, a: usize) -> (r: Vec<(usize, usize)>)
    ensures
        forall|i: int|
            0 <= i < r@.len() ==> {
                let e = (#[trigger] r@[i]).0;
                graph_edges(*g).contains_key(e) && graph_edges(*g)[e].0 == a && graph_edges(
                    *g,
                )[e].1 == r@[i].1
            },
        forall|e: usize|
            #![trigger graph_edges(*g)[e]]
            graph_edges(*g).contains_key(e) && graph_edges(*g)[e].0 == a ==> exists|i: int|
                0 <= i < r@.len() && (#[trigger] r@[i]).0 == e,
        forall|i: int, j: int| 0 <= i < j < r@.len() ==> (#[trigger] r@[i]).0 != (#[trigger] r@[j]).0,
{
    g.edges(NodeIndex::new(a)).map(|e| (e.id().index(), e.target().index())).collect()
}

/// Relies on `StableGraph::edges_directed` with `Incoming`: each edge that
/// enters `a`, once, as its index and its source.
#[verifier::external_body]
pub(crate) fn graph_in_edges(g: &EntityGraph, a: usize) -> (r: Vec<(usize, usize)>)
    ensures
        forall|i: int|
            0 <= i < r@.len() ==> {
                let e = (#[trigger] r@[i]).0;
                graph_edges(*g).contains_key(e) && graph_edges(*g)[e].1 == a && graph_edges(
                    *g,
                )[e].0 == r@[i].1
            },
        forall|e: usize|
            #![trigger graph_edges(*g)[e]]
            graph_edges(*g).contains_key(e) && graph_edges(*g)[e].1 == a ==> exists|i: int|
                0 <= i < r@.len() && (#[trigger] r@[i]).0 == e,
        forall|i: int, j: int| 0 <= i < j < r@.len() ==> (#[trigger] r@[i]).0 != (#[trigger] r@[j]).0,
{
    g.edges_directed(NodeIndex::new(a), Direction::Incoming).map(
        |e| (e.id().index(), e.source().index()),
    ).collect()
}

/// Relies on `StableGraph::edges_connecting` (directed): each edge from `a`
/// to `b`, once.
#[verifier::external_body]
pub(crate) fn graph_edges_connecting(g: &EntityGraph, a: usize, b: usize) -> (r: Vec<usize>)
    ensures
        forall|i: int|
            0 <= i < r@.len() ==> graph_edges(*g).contains_key(#[trigger] r@[i])
                && graph_edges(*g)[r@[i]].0 == a && graph_edges(*g)[r@[i]].1 == b,
        forall|e: usize|
            #![trigger graph_edges(*g)[e]]
            graph_edges(*g).contains_key(e) && graph_edges(*g)[e].0 == a && graph_edges(*g)[e].1
                == b ==> r@.contains(e),
        r@.no_duplicates(),
{
    g.edges_connecting(NodeIndex::new(a), NodeIndex::new(b)).map(|e| e.id().index()).collect()
}

/// Relies on `StableGraph::node_indices`: every live node index, in
/// increasing order.
#[verifier::external_body]
pub(crate) fn graph_node_indices(g: &EntityGraph) -> (r: Vec<usize>)
    ensures
        forall|i: int| 0 <= i < r@.len() ==> graph_nodes(*g).contains_key(#[trigger] r@[i]),
        forall|a: usize| graph_nodes(*g).contains_key(a) ==> r@.contains(a),
        forall|i: int, j: int| 0 <= i < j < r@.len() ==> (#[trigger] r@[i]) < (#[trigger] r@[j]),
{
    g.node_indices().map(|i| i.index()).collect()
}

} // verus!
