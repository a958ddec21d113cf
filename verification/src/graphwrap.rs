//! The graph store, kept in petgraph's `Graph`. The verified code sees the
//! store through two names — the sequence of node weights and the sequence of
//! directed labeled edges, both in insertion order — and through small trusted
//! wrappers whose contracts state what petgraph's documentation promises.

use vstd::prelude::*;
use crate::state::Scale;
use crate::catalog::ScaleTransition;

verus! {

#[verifier::external_type_specification]
#[verifier::external_body]
#[verifier::reject_recursive_types(N)]
#[verifier::reject_recursive_types(E)]
#[verifier::reject_recursive_types(Ty)]
#[verifier::reject_recursive_types(Ix)]
pub struct ExGraph<N, E, Ty, Ix>(petgraph::graph::Graph<N, E, Ty, Ix>);

#[verifier::external_type_specification]
#[verifier::external_body]
pub struct ExDirected(petgraph::Directed);

/// The directed graph over the scale space, edges labeled with the rule
/// that produced them.
pub type TransitionGraph = petgraph::graph::Graph<
    Scale,
    ScaleTransition,
    petgraph::Directed,
    u32,
>;

/// The node weights a graph holds, in the order the nodes were added; a node's
/// position in this sequence is its index.
pub uninterp spec fn graph_nodes(g: TransitionGraph) -> Seq<Scale>;

/// The directed edges a graph holds, in the order they were added, each as
/// (source index, target index, label).
pub uninterp spec fn graph_edges(g: TransitionGraph) -> Seq<(usize, usize, ScaleTransition)>;

/// Holds of an edge whose source is `a`.
pub open spec fn edge_from(a: usize) -> spec_fn((usize, usize, ScaleTransition)) -> bool {
    |e: (usize, usize, ScaleTransition)| e.0 == a
}

/// Forgets an edge's source, keeping (target, label).
pub open spec fn drop_src() -> spec_fn((usize, usize, ScaleTransition)) -> (
    usize,
    ScaleTransition,
) {
    |e: (usize, usize, ScaleTransition)| (e.1, e.2)
}

/// The outgoing edges of node `a` in the order petgraph's `edges` iterator
/// yields them: most recently added first, each as (target index, label).
pub open spec fn out_edges(
    edges: Seq<(usize, usize, ScaleTransition)>,
    a: usize,
) -> Seq<(usize, ScaleTransition)> {
    edges.filter(edge_from(a)).map_values(drop_src()).reverse()
}

/// Relies on petgraph's `Graph::new`: an empty directed graph.
#[verifier::external_body]
pub(crate) fn graph_new() -> (g: TransitionGraph)
    ensures
        graph_nodes(g) == Seq::<Scale>::empty(),
        graph_edges(g) == Seq::<(usize, usize, ScaleTransition)>::empty(),
{
    petgraph::graph::Graph::new()
}

/// Relies on petgraph's `Graph::add_node`: appends one node and returns its
/// index, which equals the node count before the call. The index type caps the
/// node count, hence the bound.
#[verifier::external_body]
pub(crate) fn graph_add_node(g: &mut TransitionGraph, w: Scale) -> (i: usize)
    requires
        graph_nodes(*old(g)).len() < 0xFFFF_FFFF,
    ensures
        graph_nodes(*final(g)) == graph_nodes(*old(g)).push(w),
        graph_edges(*final(g)) == graph_edges(*old(g)),
        i == graph_nodes(*old(g)).len(),
{
    g.add_node(w).index()
}

/// Relies on petgraph's `Graph::add_edge`: appends one directed edge from `a`
/// to `b`. Panics on an unknown endpoint and caps the edge count at the index
/// type's maximum, hence the bounds.
#[verifier::external_body]
pub(crate) fn graph_add_edge(g: &mut TransitionGraph, a: usize, b: usize, w: ScaleTransition)
    requires
        a < graph_nodes(*old(g)).len(),
        b < graph_nodes(*old(g)).len(),
        graph_edges(*old(g)).len() < 0xFFFF_FFFF,
    ensures
        graph_nodes(*final(g)) == graph_nodes(*old(g)),
        graph_edges(*final(g)) == graph_edges(*old(g)).push((a, b, w)),
{
    g.add_edge(
        petgraph::graph::NodeIndex::new(a),
        petgraph::graph::NodeIndex::new(b),
        w,
    );
}

/// Relies on petgraph's `Graph::node_count`: the number of nodes.
#[verifier::external_body]
pub(crate) fn graph_node_count(g: &TransitionGraph) -> (n: usize)
    ensures
        n == graph_nodes(*g).len(),
{
    g.node_count()
}

/// Relies on petgraph's `Graph::edge_count`: the number of edges.
#[verifier::external_body]
pub(crate) fn graph_edge_count(g: &TransitionGraph) -> (n: usize)
    ensures
        n == graph_edges(*g).len(),
{
    g.edge_count()
}

/// Relies on petgraph's `Graph::node_weight`: the weight stored at a node
/// index, or `None` when the index is out of range. `NodeIndex::new` is a
/// truncating cast to the `u32` index type, so nothing is claimed of
/// arguments beyond its range.
#[verifier::external_body]
pub(crate) fn graph_node_weight(g: &TransitionGraph, i: usize) -> (w: Option<Scale>)
    ensures
        (i < graph_nodes(*g).len() && i <= 0xFFFF_FFFF) ==> w == Some(graph_nodes(*g)[i as int]),
        (i >= graph_nodes(*g).len() && i <= 0xFFFF_FFFF) ==> w is None,
{
    g.node_weight(petgraph::graph::NodeIndex::new(i)).copied()
}

/// Relies on petgraph's `Graph::edges`: the outgoing edges of `a`, listed in
/// reverse order of their addition (an unknown in-range index yields no
/// edges). `NodeIndex::new` truncates to the `u32` index type, hence the
/// bound on `a`; edge endpoints are stored as `u32`, so every returned
/// target fits that range.
#[verifier::external_body]
pub(crate) fn graph_out_edges(g: &TransitionGraph, a: usize) -> (v: Vec<(usize, ScaleTransition)>)
    requires
        a <= 0xFFFF_FFFF,
    ensures
        v@ == out_edges(graph_edges(*g), a),
        forall|k: int| 0 <= k < v@.len() ==> (#[trigger] v@[k]).0 <= 0xFFFF_FFFF,
{
    g.edges(petgraph::graph::NodeIndex::new(a)).map(
        |e| (petgraph::visit::EdgeRef::target(&e).index(), *petgraph::visit::EdgeRef::weight(&e)),
    ).collect()
}

/// Every pair the out-edge view yields is a recorded edge out of `a`.
pub(crate) proof fn lemma_out_edges_sound(edges: Seq<(usize, usize, ScaleTransition)>, a: usize, k: int)
    requires
        0 <= k < out_edges(edges, a).len(),
    ensures
        exists|j: int|
            0 <= j < edges.len() && edges[j] == (a, out_edges(edges, a)[k].0, out_edges(
                edges,
                a,
            )[k].1),
{
    let filtered = edges.filter(edge_from(a));
    let mapped = filtered.map_values(drop_src());
    let kk = mapped.len() - 1 - k;
    assert(out_edges(edges, a)[k] == mapped[kk]);
    let e0 = filtered[kk];
    assert(mapped[kk] == (e0.1, e0.2));
    edges.lemma_filter_pred(edge_from(a), kk);
    assert(e0.0 == a);
    assert(filtered.contains(e0));
    edges.lemma_filter_contains_rev(edge_from(a), e0);
    let j = choose|j: int| 0 <= j < edges.len() && edges[j] == e0;
    assert(edges[j] == (a, out_edges(edges, a)[k].0, out_edges(edges, a)[k].1));
}

/// Every recorded edge out of `a` appears in the out-edge view.
pub(crate) proof fn lemma_out_edges_complete(
    edges: Seq<(usize, usize, ScaleTransition)>,
    a: usize,
    j: int,
)
    requires
        0 <= j < edges.len(),
        edges[j].0 == a,
    ensures
        exists|k: int|
            0 <= k < out_edges(edges, a).len() && out_edges(edges, a)[k] == (
                edges[j].1,
                edges[j].2,
            ),
{
    let ef = edge_from(a);
    edges.lemma_filter_contains(ef, j);
    let filtered = edges.filter(ef);
    let kk = choose|kk: int| 0 <= kk < filtered.len() && filtered[kk] == edges[j];
    let mapped = filtered.map_values(drop_src());
    assert(mapped[kk] == (edges[j].1, edges[j].2));
    let k = mapped.len() - 1 - kk;
    assert(out_edges(edges, a)[k] == mapped[kk]);
}

} // verus!
