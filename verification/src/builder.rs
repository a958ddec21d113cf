//! The graph builder: one node per scale in the canonical order, and for every
//! (scale, rule) pair one directed edge from that scale to the rule's result,
//! labeled with the rule. Construction is deterministic and total, and the
//! closure of the space under the catalog is established at build time.

use vstd::prelude::*;
use crate::state::Scale;
use crate::state::ScaleKind;
use crate::state::all_states;
use crate::state::state_at;
use crate::state::state_id;
use crate::state::lemma_state_id;
use crate::state::make_nodes;
use crate::catalog::ScaleTransition;
use crate::catalog::catalog;
use crate::catalog::spec_make_transition;
use crate::catalog::possible_transitions;
use crate::catalog::make_transition;
use crate::catalog::lemma_catalog_closed;
use crate::graphwrap::TransitionGraph;
use crate::graphwrap::graph_nodes;
use crate::graphwrap::graph_edges;
use crate::graphwrap::graph_new;
use crate::graphwrap::graph_add_node;
use crate::graphwrap::graph_add_edge;
use crate::graphwrap::graph_node_count;
use crate::graphwrap::graph_edge_count;
use crate::graphwrap::graph_node_weight;
use crate::graphwrap::out_edges;
use crate::graphwrap::edge_from;
use crate::state::lemma_state_at_id;
use crate::state::lemma_swap_kind_involutive;
use crate::state::lemma_change_index_compose;
use crate::state::lemma_change_index_zero;
use crate::state::lemma_change_index_range;
use crate::search::step_ok;
use crate::search::result_ok;
use crate::search::walk_ok;
use crate::search::walk_emitted;
use crate::search::uniform_ten;
use crate::search::level10;
use crate::search::Path;

verus! {

/// The edge laid down for the pair (state `k / 10`, rule `k % 10`).
pub open spec fn edge_at(k: int) -> (usize, usize, ScaleTransition) {
    (
        (k / 10) as usize,
        state_id(spec_make_transition(state_at(k / 10), catalog()[k % 10])) as usize,
        catalog()[k % 10],
    )
}

/// A fully built graph: the 24 canonical nodes in order, and the 240 edges
/// laid down state by state, rule by rule.
pub open spec fn graph_built(g: TransitionGraph) -> bool {
    &&& graph_nodes(g) == all_states()
    &&& graph_edges(g).len() == 240
    &&& forall|k: int| 0 <= k < 240 ==> graph_edges(g)[k] == edge_at(k)
}

/// Both endpoints of every edge are nodes of the graph.
pub open spec fn edges_closed(g: TransitionGraph) -> bool {
    forall|k: int|
        0 <= k < graph_edges(g).len() ==> (#[trigger] graph_edges(g)[k]).0 < graph_nodes(g).len()
            && graph_edges(g)[k].1 < graph_nodes(g).len()
}

/// A built graph holds exactly 24 nodes and exactly 240 edges, duplicates
/// and self-loops included.
pub proof fn lemma_built_counts(g: TransitionGraph)
    requires
        graph_built(g),
    ensures
        graph_nodes(g).len() == 24,
        graph_edges(g).len() == 240,
{
}

/// A built graph keeps every edge inside the node range.
pub proof fn lemma_built_edges_closed(g: TransitionGraph)
    requires
        graph_built(g),
    ensures
        edges_closed(g),
{
    assert forall|k: int| 0 <= k < graph_edges(g).len() implies (#[trigger] graph_edges(
        g,
    )[k]).0 < graph_nodes(g).len() && graph_edges(g)[k].1 < graph_nodes(g).len() by {
        assert(graph_edges(g)[k] == edge_at(k));
        assert(0 <= k / 10 < 24) by (nonlinear_arith)
            requires
                0 <= k < 240,
        ;
        assert(0 <= k % 10 < 10);
        lemma_catalog_closed(state_at(k / 10), catalog()[k % 10]);
        lemma_state_id(spec_make_transition(state_at(k / 10), catalog()[k % 10]));
    }
}

/// Build the transition graph: 24 nodes, then for every state and every rule
/// one labeled edge to the rule's result.
pub fn build_graph() -> (g: TransitionGraph)
    ensures
        graph_built(g),
{
    let mut g = graph_new();
    let nodes = make_nodes();
    let transitions = possible_transitions();

    let mut i: usize = 0;
    while i < 24
        invariant
            i <= 24,
            nodes@ == all_states(),
            graph_nodes(g) == all_states().take(i as int),
            graph_edges(g).len() == 0,
        decreases 24 - i,
    {
        let w = nodes[i];
        graph_add_node(&mut g, w);
        proof {
            assert(all_states().take(i as int).push(all_states()[i as int]) =~= all_states().take(
                i as int + 1,
            ));
        }
        i += 1;
    }
    proof {
        assert(all_states().take(24) =~= all_states());
    }

    let mut s: usize = 0;
    while s < 24
        invariant
            s <= 24,
            nodes@ == all_states(),
            transitions@ == catalog(),
            graph_nodes(g) == all_states(),
            graph_edges(g).len() == 10 * s,
            forall|k: int| 0 <= k < 10 * s ==> graph_edges(g)[k] == edge_at(k),
        decreases 24 - s,
    {
        let src = nodes[s];
        proof {
            assert(src == state_at(s as int));
            assert(src.wf());
        }
        let mut t: usize = 0;
        while t < 10
            invariant
                t <= 10,
                s < 24,
                nodes@ == all_states(),
                transitions@ == catalog(),
                src == state_at(s as int),
                src.wf(),
                graph_nodes(g) == all_states(),
                graph_edges(g).len() == 10 * s + t,
                forall|k: int| 0 <= k < 10 * s + t ==> graph_edges(g)[k] == edge_at(k),
            decreases 10 - t,
        {
            let rule = transitions[t];
            let dst = make_transition(src, rule);
            proof {
                lemma_catalog_closed(src, rule);
                lemma_state_id(dst);
            }
            let dst_id: usize = 2 * dst.index + if matches!(dst.kind, ScaleKind::Minor) {
                0
            } else {
                1
            };
            graph_add_edge(&mut g, s, dst_id, rule);
            proof {
                let k = 10 * (s as int) + t;
                assert(k / 10 == s && k % 10 == t) by (nonlinear_arith)
                    requires
                        0 <= s < 24,
                        0 <= t < 10,
                        k == 10 * (s as int) + t,
                ;
                assert(graph_edges(g)[k] == edge_at(k));
            }
            t += 1;
        }
        s += 1;
    }
    g
}

/// Counting lemma behind the out-degree invariant: in a prefix of the edge
/// list whose entries leave node `k / 10`, the edges out of `a` are exactly
/// those at positions `10 * a` through `10 * a + 9`.
proof fn lemma_out_degree_prefix(edges: Seq<(usize, usize, ScaleTransition)>, a: usize, j: int)
    requires
        a < 24,
        edges.len() <= 240,
        0 <= j <= edges.len(),
        forall|k: int| 0 <= k < edges.len() ==> (#[trigger] edges[k]).0 == (k / 10) as usize,
    ensures
        edges.take(j).filter(edge_from(a)).len() == if j <= 10 * a {
            0int
        } else if j >= 10 * a + 10 {
            10int
        } else {
            j - 10 * a
        },
    decreases j,
{
    reveal(Seq::filter);
    if j == 0 {
        assert(edges.take(0) =~= Seq::<(usize, usize, ScaleTransition)>::empty());
    } else {
        lemma_out_degree_prefix(edges, a, j - 1);
        let ef = edge_from(a);
        let prev = edges.take(j - 1);
        let cur = edges.take(j);
        assert(cur.drop_last() =~= prev);
        assert(cur.last() == edges[j - 1]);
        assert(0 <= (j - 1) / 10 < 24 && ((j - 1) / 10 == a as int <==> 10 * a <= j - 1 < 10 * a
            + 10)) by (nonlinear_arith)
            requires
                0 <= j - 1 < 240,
                0 <= a < 24,
        ;
        assert(ef(cur.last()) <==> 10 * a <= j - 1 < 10 * a + 10);
        if ef(cur.last()) {
            assert(cur.filter(ef) == prev.filter(ef).push(cur.last()));
        } else {
            assert(cur.filter(ef) == prev.filter(ef));
        }
    }
}

/// The construction-time invariant of the space: every node of a built graph
/// has out-degree exactly the size of the catalog, ten.
pub proof fn lemma_built_out_degree(g: TransitionGraph, a: usize)
    requires
        graph_built(g),
        a < 24,
    ensures
        out_edges(graph_edges(g), a).len() == 10,
{
    let edges = graph_edges(g);
    assert forall|k: int| 0 <= k < edges.len() implies (#[trigger] edges[k]).0 == (
    k / 10) as usize by {
        assert(edges[k] == edge_at(k));
    }
    lemma_out_degree_prefix(edges, a, 240);
    assert(edges.take(240) =~= edges);
}

/// In a built graph every recorded edge means exactly what the catalog says:
/// its label is a catalog rule, and its target is the node of the scale that
/// rule derives from the source's scale.
#[verifier::rlimit(50)]
pub proof fn lemma_built_step_meaning(g: TransitionGraph, a: usize, b: usize, t: ScaleTransition)
    requires
        graph_built(g),
        step_ok(graph_edges(g), a, b, t),
    ensures
        a < 24,
        b < 24,
        catalog().contains(t),
        state_at(b as int) == spec_make_transition(state_at(a as int), t),
{
    let j = choose|j: int|
        0 <= j < graph_edges(g).len() && graph_edges(g)[j] == (a, b, t);
    assert(graph_edges(g)[j] == edge_at(j));
    assert(0 <= j / 10 < 24 && 0 <= j % 10 < 10) by (nonlinear_arith)
        requires
            0 <= j < 240,
    ;
    assert(catalog()[j % 10] == t);
    lemma_catalog_closed(state_at(j / 10), t);
    lemma_state_id(spec_make_transition(state_at(j / 10), t));
}

/// A search result over a built graph decodes to a genuine chain of catalog
/// transformations: every consecutive pair of visited scales is related by the
/// transition recorded for that step.
pub proof fn lemma_result_follows_catalog(
    g: TransitionGraph,
    source: usize,
    target: usize,
    p: crate::search::Path,
)
    requires
        graph_built(g),
        result_ok(graph_edges(g), source, target, p),
    ensures
        forall|i: int|
            0 <= i < p.cost ==> state_at(p.path@[i + 1] as int) == spec_make_transition(
                state_at(p.path@[i] as int),
                #[trigger] p.transition_path@[i],
            ),
        forall|i: int| 0 <= i < p.cost ==> catalog().contains(#[trigger] p.transition_path@[i]),
        p.cost > 0 ==> source < 24 && target < 24,
{
    assert forall|i: int| 0 <= i < p.cost implies state_at(p.path@[i + 1] as int)
        == spec_make_transition(state_at(p.path@[i] as int), #[trigger] p.transition_path@[i])
        && catalog().contains(p.transition_path@[i]) by {
        lemma_built_step_meaning(g, p.path@[i], p.path@[i + 1], p.transition_path@[i]);
    }
    if p.cost > 0 {
        lemma_built_step_meaning(g, p.path@[0], p.path@[1], p.transition_path@[0]);
        lemma_built_step_meaning(
            g,
            p.path@[p.cost - 1],
            p.path@[p.cost as int],
            p.transition_path@[p.cost - 1],
        );
    }
}

/// When no single catalog rule connects the source's scale to the target's,
/// every search result over a built graph costs at least two: results are
/// genuine rule chains, so a one-step result would name the missing rule.
pub proof fn lemma_result_cost_lower_bound(
    g: TransitionGraph,
    source: usize,
    target: usize,
    p: crate::search::Path,
)
    requires
        graph_built(g),
        result_ok(graph_edges(g), source, target, p),
        source != target,
        forall|t: ScaleTransition|
            catalog().contains(t) ==> spec_make_transition(state_at(source as int), t) != state_at(
                target as int,
            ),
    ensures
        p.cost >= 2,
{
    if p.cost == 1 {
        lemma_built_step_meaning(g, p.path@[0], p.path@[1], p.transition_path@[0]);
    }
}

/// In a built graph, applying any catalog rule to a node's scale lands on a
/// direct successor: the out-edge view of the node contains the resulting
/// node, and the view holds exactly ten entries. Together with the search
/// engine's contract this owes a result to any one-rule search given a budget
/// of eleven pops.
pub proof fn lemma_built_direct_successor(g: TransitionGraph, a: usize, t: ScaleTransition)
    requires
        graph_built(g),
        a < 24,
        catalog().contains(t),
    ensures
        out_edges(graph_edges(g), a).len() == 10,
        exists|k: int|
            0 <= k < out_edges(graph_edges(g), a).len() && (#[trigger] out_edges(
                graph_edges(g),
                a,
            )[k]).0 == state_id(spec_make_transition(state_at(a as int), t)) as usize,
{
    let edges = graph_edges(g);
    let r = choose|r: int| 0 <= r < 10 && catalog()[r] == t;
    let j = 10 * a + r;
    assert(0 <= j < 240 && j / 10 == a && j % 10 == r) by (nonlinear_arith)
        requires
            0 <= a < 24,
            0 <= r < 10,
            j == 10 * a + r,
    ;
    assert(edges[j] == edge_at(j));
    crate::graphwrap::lemma_out_edges_complete(edges, a, j);
    lemma_built_out_degree(g, a);
}

/// A built graph satisfies the search engine's uniform-expansion premise:
/// out-degree ten everywhere, and every edge ends inside the node range.
pub proof fn lemma_built_uniform(g: TransitionGraph)
    requires
        graph_built(g),
    ensures
        uniform_ten(graph_edges(g), 24),
{
    assert forall|a: usize| a < 24 implies (#[trigger] out_edges(graph_edges(g), a)).len()
        == 10 by {
        lemma_built_out_degree(g, a);
    }
    lemma_built_edges_closed(g);
}

/// The edge a built graph records for node `a` and the catalog rule at
/// position `r`: it leads to the node of the rule's result.
#[verifier::spinoff_prover]
proof fn lemma_built_rule_edge(g: TransitionGraph, a: usize, r: int)
    requires
        graph_built(g),
        a < 24,
        0 <= r < 10,
    ensures
        spec_make_transition(state_at(a as int), catalog()[r]).wf(),
        state_id(spec_make_transition(state_at(a as int), catalog()[r])) < 24,
        state_at(state_id(spec_make_transition(state_at(a as int), catalog()[r])))
            == spec_make_transition(state_at(a as int), catalog()[r]),
        step_ok(
            graph_edges(g),
            a,
            state_id(spec_make_transition(state_at(a as int), catalog()[r])) as usize,
            catalog()[r],
        ),
{
    let e = 10 * (a as int) + r;
    assert(0 <= e < 240 && e / 10 == a && e % 10 == r) by (nonlinear_arith)
        requires
            0 <= a < 24,
            0 <= r < 10,
            e == 10 * (a as int) + r,
    ;
    assert(graph_edges(g)[e] == edge_at(e));
    lemma_catalog_closed(state_at(a as int), catalog()[r]);
    lemma_state_id(spec_make_transition(state_at(a as int), catalog()[r]));
}

/// Any walk ending at `target` extends by two steps: the category flip edge
/// leaves the target and a second flip edge returns to it.
#[verifier::spinoff_prover]
#[verifier::rlimit(100)]
pub proof fn lemma_walk_pump_two(
    g: TransitionGraph,
    source: usize,
    target: usize,
    ns: Seq<usize>,
    ts: Seq<ScaleTransition>,
)
    requires
        graph_built(g),
        target < 24,
        walk_ok(graph_edges(g), source, ns, ts),
        ns.last() == target,
    ensures
        exists|ns2: Seq<usize>, ts2: Seq<ScaleTransition>|
            #[trigger] walk_ok(graph_edges(g), source, ns2, ts2) && ns2.last() == target
                && ts2.len() == ts.len() + 2,
{
    let edges = graph_edges(g);
    lemma_state_at_id(target as int);
    let flipped = spec_make_transition(state_at(target as int), ScaleTransition::Vertical);
    lemma_catalog_closed(state_at(target as int), ScaleTransition::Vertical);
    lemma_state_id(flipped);
    let mid = state_id(flipped) as usize;
    let e1 = 10 * (target as int);
    assert(e1 / 10 == target && e1 % 10 == 0) by (nonlinear_arith)
        requires
            0 <= target < 24,
            e1 == 10 * (target as int),
    ;
    assert(edges[e1] == edge_at(e1));
    assert(edges[e1] == (target, mid, ScaleTransition::Vertical));
    let e2 = 10 * (mid as int);
    assert(e2 / 10 == mid && e2 % 10 == 0) by (nonlinear_arith)
        requires
            0 <= mid < 24,
            e2 == 10 * (mid as int),
    ;
    assert(edges[e2] == edge_at(e2));
    lemma_swap_kind_involutive(state_at(target as int));
    assert(spec_make_transition(state_at(mid as int), ScaleTransition::Vertical) == state_at(
        target as int,
    ));
    assert(edges[e2] == (mid, target, ScaleTransition::Vertical));
    let ns2 = ns.push(mid).push(target);
    let ts2 = ts.push(ScaleTransition::Vertical).push(ScaleTransition::Vertical);
    assert(step_ok(edges, target, mid, ScaleTransition::Vertical));
    assert(step_ok(edges, mid, target, ScaleTransition::Vertical));
    assert forall|i: int| 0 <= i < ts2.len() implies step_ok(
        edges,
        ns2[i],
        ns2[i + 1],
        #[trigger] ts2[i],
    ) by {
        if i < ts.len() {
            assert(step_ok(edges, ns[i], ns[i + 1], ts[i]));
            assert(ns2[i] == ns[i] && ns2[i + 1] == ns[i + 1] && ts2[i] == ts[i]);
        } else if i == ts.len() {
            assert(ns2[i] == ns.last() && ns2[i + 1] == mid);
        } else {
            assert(ns2[i] == mid && ns2[i + 1] == target);
        }
    }
    assert(walk_ok(edges, source, ns2, ts2) && ns2.last() == target && ts2.len() == ts.len() + 2);
}

/// The node chain of two unit shifts followed by the double shift back
/// returns to where it started.
#[verifier::spinoff_prover]
#[verifier::rlimit(100)]
proof fn lemma_shift_chain(t: usize)
    requires
        t < 24,
    ensures
        state_id(
            spec_make_transition(
                state_at(
                    state_id(
                        spec_make_transition(
                            state_at(
                                state_id(
                                    spec_make_transition(
                                        state_at(t as int),
                                        catalog()[4],
                                    ),
                                ),
                            ),
                            catalog()[4],
                        ),
                    ),
                ),
                catalog()[8],
            ),
        ) == t,
{
    let st = state_at(t as int);
    lemma_state_at_id(t as int);
    assert(catalog()[4] == ScaleTransition::ChangeIndex(1));
    assert(catalog()[8] == ScaleTransition::ChangeIndex(-2isize));
    let sa = spec_make_transition(st, ScaleTransition::ChangeIndex(1));
    lemma_change_index_range(st, 1);
    lemma_state_id(sa);
    let sb = spec_make_transition(sa, ScaleTransition::ChangeIndex(1));
    lemma_change_index_range(sa, 1);
    lemma_state_id(sb);
    lemma_change_index_compose(st, 1, 1);
    lemma_change_index_compose(st, 2, -2);
    lemma_change_index_zero(st);
    assert(spec_make_transition(sb, ScaleTransition::ChangeIndex(-2isize)) == st);
}

/// The three-step cycle at any node: two unit shifts and the double shift
/// back.
#[verifier::spinoff_prover]
#[verifier::rlimit(100)]
proof fn lemma_three_cycle(g: TransitionGraph, target: usize)
    requires
        graph_built(g),
        target < 24,
    ensures
        exists|a_id: usize, b_id: usize|
            a_id < 24 && b_id < 24 && #[trigger] step_ok(
                graph_edges(g),
                target,
                a_id,
                ScaleTransition::ChangeIndex(1),
            ) && step_ok(graph_edges(g), a_id, b_id, ScaleTransition::ChangeIndex(1))
                && #[trigger] step_ok(
                graph_edges(g),
                b_id,
                target,
                ScaleTransition::ChangeIndex(-2isize),
            ),
{
    let edges = graph_edges(g);
    assert(catalog()[4] == ScaleTransition::ChangeIndex(1));
    assert(catalog()[8] == ScaleTransition::ChangeIndex(-2isize));
    lemma_built_rule_edge(g, target, 4);
    let a_id = state_id(spec_make_transition(state_at(target as int), catalog()[4])) as usize;
    lemma_built_rule_edge(g, a_id, 4);
    let b_id = state_id(spec_make_transition(state_at(a_id as int), catalog()[4])) as usize;
    lemma_built_rule_edge(g, b_id, 8);
    lemma_shift_chain(target);
    assert(step_ok(edges, target, a_id, ScaleTransition::ChangeIndex(1)) && step_ok(
        edges,
        a_id,
        b_id,
        ScaleTransition::ChangeIndex(1),
    ) && step_ok(edges, b_id, target, ScaleTransition::ChangeIndex(-2isize)));
}

/// Any walk ending at `target` extends by three steps: two unit shifts
/// followed by the double shift back.
pub proof fn lemma_walk_pump_three(
    g: TransitionGraph,
    source: usize,
    target: usize,
    ns: Seq<usize>,
    ts: Seq<ScaleTransition>,
)
    requires
        graph_built(g),
        target < 24,
        walk_ok(graph_edges(g), source, ns, ts),
        ns.last() == target,
    ensures
        exists|ns2: Seq<usize>, ts2: Seq<ScaleTransition>|
            #[trigger] walk_ok(graph_edges(g), source, ns2, ts2) && ns2.last() == target
                && ts2.len() == ts.len() + 3,
{
    let edges = graph_edges(g);
    lemma_three_cycle(g, target);
    let (a_id, b_id) = choose|a_id: usize, b_id: usize|
        a_id < 24 && b_id < 24 && #[trigger] step_ok(
            edges,
            target,
            a_id,
            ScaleTransition::ChangeIndex(1),
        ) && step_ok(edges, a_id, b_id, ScaleTransition::ChangeIndex(1)) && #[trigger] step_ok(
            edges,
            b_id,
            target,
            ScaleTransition::ChangeIndex(-2isize),
        );
    let ns2 = ns.push(a_id).push(b_id).push(target);
    let ts2 = ts.push(ScaleTransition::ChangeIndex(1)).push(ScaleTransition::ChangeIndex(1)).push(
        ScaleTransition::ChangeIndex(-2isize),
    );
    assert forall|i: int| 0 <= i < ts2.len() implies step_ok(
        edges,
        ns2[i],
        ns2[i + 1],
        #[trigger] ts2[i],
    ) by {
        if i < ts.len() {
            assert(step_ok(edges, ns[i], ns[i + 1], ts[i]));
            assert(ns2[i] == ns[i] && ns2[i + 1] == ns[i + 1] && ts2[i] == ts[i]);
        } else if i == ts.len() {
            assert(ns2[i] == ns.last() && ns2[i + 1] == a_id);
        } else if i == ts.len() + 1 {
            assert(ns2[i] == a_id && ns2[i + 1] == b_id);
        } else {
            assert(ns2[i] == b_id && ns2[i + 1] == target);
        }
    }
    assert(walk_ok(edges, source, ns2, ts2) && ns2.last() == target && ts2.len() == ts.len() + 3);
}

/// Combining the two pumps: walks of every length `ts.len() + m` ending at
/// `target` exist, for `m` zero or at least two.
pub proof fn lemma_pumped_walk(
    g: TransitionGraph,
    source: usize,
    target: usize,
    ns: Seq<usize>,
    ts: Seq<ScaleTransition>,
    m: int,
)
    requires
        graph_built(g),
        target < 24,
        walk_ok(graph_edges(g), source, ns, ts),
        ns.last() == target,
        m == 0 || m >= 2,
    ensures
        exists|ns2: Seq<usize>, ts2: Seq<ScaleTransition>|
            #[trigger] walk_ok(graph_edges(g), source, ns2, ts2) && ns2.last() == target
                && ts2.len() == ts.len() + m,
    decreases m,
{
    if m == 0 {
        assert(walk_ok(graph_edges(g), source, ns, ts) && ns.last() == target && ts.len()
            == ts.len() + 0);
    } else if m == 2 {
        lemma_walk_pump_two(g, source, target, ns, ts);
    } else if m == 3 {
        lemma_walk_pump_three(g, source, target, ns, ts);
    } else {
        lemma_walk_pump_two(g, source, target, ns, ts);
        let (ns1, ts1) = choose|ns1: Seq<usize>, ts1: Seq<ScaleTransition>|
            #[trigger] walk_ok(graph_edges(g), source, ns1, ts1) && ns1.last() == target
                && ts1.len() == ts.len() + 2;
        lemma_pumped_walk(g, source, target, ns1, ts1, m - 2);
    }
}

/// The length added by the `q`-th pumped walk: nothing for the base walk,
/// then two, three, four and so on.
spec fn pump_len(q: int) -> int {
    if q == 0 {
        0int
    } else {
        q + 1
    }
}

/// Some result record carries exactly this cost.
spec fn has_cost(results: Seq<Path>, c: int) -> bool {
    exists|i: int| 0 <= i < results.len() && (#[trigger] results[i]).cost == c
}

/// In a sorted result sequence holding a record of cost `base + pump_len(q)`
/// for every `q` below `m`, the record of the largest such cost sits at index
/// `m - 1` or later.
proof fn lemma_distinct_costs_count(results: Seq<Path>, base: int, m: int)
    requires
        m >= 1,
        forall|i: int, j: int|
            0 <= i <= j < results.len() ==> (#[trigger] results[i]).cost <= (
            #[trigger] results[j]).cost,
        forall|q: int| 0 <= q < m ==> #[trigger] has_cost(results, base + pump_len(q)),
    ensures
        exists|i: int|
            m - 1 <= i < results.len() && (#[trigger] results[i]).cost == base + pump_len(m - 1),
    decreases m,
{
    if m == 1 {
        assert(has_cost(results, base + pump_len(0)));
        let i = choose|i: int|
            0 <= i < results.len() && (#[trigger] results[i]).cost == base + pump_len(0);
        assert(results[i].cost == base + pump_len(0));
    } else {
        lemma_distinct_costs_count(results, base, m - 1);
        let ip = choose|i: int|
            m - 2 <= i < results.len() && (#[trigger] results[i]).cost == base + pump_len(m - 2);
        assert(has_cost(results, base + pump_len(m - 1)));
        let ic = choose|i: int|
            0 <= i < results.len() && (#[trigger] results[i]).cost == base + pump_len(m - 1);
        if ic <= ip {
            assert(results[ic].cost <= results[ip].cost);
            assert(false);
        }
    }
}

/// Completeness of the search over a built graph: with any walk from `source`
/// to `target` in hand and a pop budget whose cost level clears the walk's
/// length by `2 * n`, the search's own contract forces exactly `n` results —
/// fewer would leave one of `n` pumped walks of pairwise distinct lengths
/// both unemitted and cheap enough that the budget clause owes it.
pub proof fn lemma_built_search_complete(
    g: TransitionGraph,
    source: usize,
    target: usize,
    n: usize,
    fuel: usize,
    results: Seq<Path>,
    ns: Seq<usize>,
    ts: Seq<ScaleTransition>,
)
    requires
        graph_built(g),
        target < 24,
        n >= 1,
        results.len() <= n,
        forall|i: int, j: int|
            0 <= i <= j < results.len() ==> (#[trigger] results[i]).cost <= (
            #[trigger] results[j]).cost,
        forall|i: int|
            0 <= i < results.len() ==> result_ok(graph_edges(g), source, target, #[trigger] results[i]),
        results.len() < n ==> forall|ns2: Seq<usize>, ts2: Seq<ScaleTransition>|
            (#[trigger] walk_ok(graph_edges(g), source, ns2, ts2)) && ns2.last() == target
                && ts2.len() < level10(fuel as int) ==> walk_emitted(results, ns2, ts2),
        walk_ok(graph_edges(g), source, ns, ts),
        ns.last() == target,
        ts.len() + n < level10(fuel as int),
    ensures
        results.len() == n,
{
    if results.len() < n {
        assert forall|q: int| 0 <= q < n implies #[trigger] has_cost(
            results,
            ts.len() + pump_len(q),
        ) by {
            lemma_pumped_walk(g, source, target, ns, ts, pump_len(q));
            let (ns2, ts2) = choose|ns2: Seq<usize>, ts2: Seq<ScaleTransition>|
                #[trigger] walk_ok(graph_edges(g), source, ns2, ts2) && ns2.last() == target
                    && ts2.len() == ts.len() + pump_len(q);
            assert(walk_emitted(results, ns2, ts2));
            let i = choose|i: int|
                0 <= i < results.len() && (#[trigger] results[i]).path@ == ns2
                    && results[i].transition_path@ == ts2;
            assert(results[i].cost == ts.len() + pump_len(q));
        }
        lemma_distinct_costs_count(results, ts.len() as int, n as int);
        let iw = choose|i: int|
            n - 1 <= i < results.len() && (#[trigger] results[i]).cost == ts.len() as int
                + pump_len(n as int - 1);
        assert(false);
    }
}

/// The number of nodes the graph holds.
pub fn node_count(g: &TransitionGraph) -> (n: usize)
    ensures
        n == graph_nodes(*g).len(),
{
    graph_node_count(g)
}

/// The number of edges the graph holds.
pub fn edge_count(g: &TransitionGraph) -> (n: usize)
    ensures
        n == graph_edges(*g).len(),
{
    graph_edge_count(g)
}

/// The scale stored at a node index, or `None` when the index is out of
/// range. Indices beyond the graph's `u32` index type are left unspecified.
pub fn node_scale(g: &TransitionGraph, i: usize) -> (w: Option<Scale>)
    ensures
        (i < graph_nodes(*g).len() && i <= 0xFFFF_FFFF) ==> w == Some(graph_nodes(*g)[i as int]),
        (i >= graph_nodes(*g).len() && i <= 0xFFFF_FFFF) ==> w is None,
{
    graph_node_weight(g, i)
}

/// Resolve a scale to its node index in a built graph: its position in the
/// canonical enumeration, or `None` for a scale outside the space.
pub fn find_node(g: &TransitionGraph, s: Scale) -> (r: Option<usize>)
    requires
        graph_built(*g),
    ensures
        s.wf() ==> r == Some(state_id(s) as usize) && graph_nodes(*g)[state_id(s)] == s,
        !s.wf() ==> r is None,
{
    if s.index < 12 {
        proof {
            lemma_state_id(s);
        }
        Some(2 * s.index + if matches!(s.kind, ScaleKind::Minor) {
            0
        } else {
            1
        })
    } else {
        None
    }
}

} // verus!
