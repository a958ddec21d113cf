//! The path search engine: priority-first frontier expansion over the built
//! graph. The frontier is a queue of partial-path candidates kept sorted by
//! accumulated cost; candidates of equal cost leave in insertion order, which
//! fixes the tie-break deterministically. Arrivals at the target are emitted
//! in non-decreasing cost order; emitted candidates keep expanding, so paths
//! that pass through the target and arrive again later are found too.

use vstd::prelude::*;
use crate::catalog::ScaleTransition;
use crate::graphwrap::TransitionGraph;
use crate::graphwrap::graph_edges;
use crate::graphwrap::out_edges;
use crate::graphwrap::graph_out_edges;
use crate::graphwrap::lemma_out_edges_sound;
use crate::graphwrap::lemma_out_edges_complete;

verus! {

/// One path candidate: the accumulated cost (number of edges taken), the
/// current node, the transition that led here (`None` only for the seed), and
/// the visited node and transition histories.
pub struct Path {
    pub cost: usize,
    pub node: usize,
    pub transition: Option<ScaleTransition>,
    pub path: Vec<usize>,
    pub transition_path: Vec<ScaleTransition>,
}

/// The graph records a directed edge from `a` to `b` labeled `t`.
pub open spec fn step_ok(
    edges: Seq<(usize, usize, ScaleTransition)>,
    a: usize,
    b: usize,
    t: ScaleTransition,
) -> bool {
    exists|j: int| 0 <= j < edges.len() && edges[j] == (a, b, t)
}

/// A candidate whose histories already include its current node: the node
/// history starts at `source`, ends at the current node, every consecutive
/// pair is a recorded edge labeled by the matching transition, and the
/// transition history is exactly one shorter than the node history.
pub open spec fn visited_ok(
    edges: Seq<(usize, usize, ScaleTransition)>,
    source: usize,
    p: Path,
) -> bool {
    &&& p.path@.len() == p.cost + 1
    &&& p.transition_path@.len() == p.cost
    &&& p.path@[0] == source
    &&& p.path@.last() == p.node
    &&& forall|i: int|
        0 <= i < p.cost ==> step_ok(
            edges,
            p.path@[i],
            p.path@[i + 1],
            #[trigger] p.transition_path@[i],
        )
    &&& (p.cost == 0 ==> p.transition is None && p.node == source)
    &&& (p.cost > 0 ==> p.transition == Some(p.transition_path@.last()))
}

/// A finished search result: a consistent visited record that ends at `target`.
pub open spec fn result_ok(
    edges: Seq<(usize, usize, ScaleTransition)>,
    source: usize,
    target: usize,
    p: Path,
) -> bool {
    &&& visited_ok(edges, source, p)
    &&& p.node == target
}

/// A candidate still waiting in the frontier: its histories stop just before
/// its current node, and the pending transition (absent only for the seed) is
/// a recorded edge from the history's last node to the current one.
pub open spec fn pending_ok(
    edges: Seq<(usize, usize, ScaleTransition)>,
    source: usize,
    p: Path,
) -> bool {
    match p.transition {
        None => p.node == source && p.cost == 0 && p.path@.len() == 0
            && p.transition_path@.len() == 0,
        Some(t) => {
            &&& p.path@.len() >= 1
            &&& p.path@[0] == source
            &&& p.cost == p.path@.len()
            &&& p.transition_path@.len() == p.path@.len() - 1
            &&& forall|i: int|
                0 <= i < p.path@.len() - 1 ==> step_ok(
                    edges,
                    p.path@[i],
                    p.path@[i + 1],
                    #[trigger] p.transition_path@[i],
                )
            &&& step_ok(edges, p.path@.last(), p.node, t)
        },
    }
}

/// A walk through the graph: a node sequence starting at `source` whose
/// consecutive pairs are recorded edges labeled by the matching transitions.
pub open spec fn walk_ok(
    edges: Seq<(usize, usize, ScaleTransition)>,
    source: usize,
    ns: Seq<usize>,
    ts: Seq<ScaleTransition>,
) -> bool {
    &&& ns.len() == ts.len() + 1
    &&& ns[0] == source
    &&& forall|i: int| 0 <= i < ts.len() ==> step_ok(edges, ns[i], ns[i + 1], #[trigger] ts[i])
}

/// Some emitted result records exactly this walk.
pub open spec fn walk_emitted(results: Seq<Path>, ns: Seq<usize>, ts: Seq<ScaleTransition>) -> bool {
    exists|i: int|
        0 <= i < results.len() && (#[trigger] results[i]).path@ == ns
            && results[i].transition_path@ == ts
}

/// A waiting candidate stands at step `k` of the walk: its histories hold the
/// walk's first `k` steps and its current node is the walk's `k`-th node.
spec fn covers(c: Path, ns: Seq<usize>, ts: Seq<ScaleTransition>, k: int) -> bool {
    &&& 0 <= k <= ts.len()
    &&& c.cost == k
    &&& c.node == ns[k]
    &&& c.path@ == ns.take(k)
    &&& c.transition_path@ == ts.take(
        if k == 0 {
            0int
        } else {
            k - 1
        },
    )
    &&& if k == 0 {
        c.transition is None
    } else {
        c.transition == Some(ts[k - 1])
    }
}

/// The popped candidate, histories completed, stands at step `k` of the walk.
spec fn covers_done(c: Path, ns: Seq<usize>, ts: Seq<ScaleTransition>, k: int) -> bool {
    &&& 0 <= k <= ts.len()
    &&& c.cost == k
    &&& c.node == ns[k]
    &&& c.path@ == ns.take(k + 1)
    &&& c.transition_path@ == ts.take(k)
}

/// Some candidate in the waiting window stands at a step of the walk.
spec fn walk_waiting(frontier: Seq<Path>, head: int, ns: Seq<usize>, ts: Seq<ScaleTransition>) -> bool {
    exists|i: int, k: int| head <= i < frontier.len() && #[trigger] covers(frontier[i], ns, ts, k)
}

/// During expansion of the popped candidate `p`, the walk's next step is an
/// out-edge entry not yet turned into a child.
spec fn child_owing(
    p: Path,
    out: Seq<(usize, ScaleTransition)>,
    k: int,
    ns: Seq<usize>,
    ts: Seq<ScaleTransition>,
) -> bool {
    exists|kp: int, k2: int|
        #![trigger covers_done(p, ns, ts, kp), out[k2]]
        0 <= kp < ts.len() && covers_done(p, ns, ts, kp) && k <= k2 < out.len() && out[k2] == (
        ns[kp + 1],
        ts[kp],
        )
}

/// The cost of the candidate in frontier slot `i` when every pop expands
/// into exactly ten children: slot 0 holds the seed, and slots
/// `1 + 10 * h + k` hold the children of the `h`-th pop.
pub open spec fn level10(i: int) -> int
    decreases i,
{
    if i <= 0 {
        0
    } else {
        1 + level10((i - 1) / 10)
    }
}

/// Every node below `nlen` has exactly ten out-edges, and every recorded
/// edge ends below `nlen`.
pub open spec fn uniform_ten(edges: Seq<(usize, usize, ScaleTransition)>, nlen: usize) -> bool {
    &&& forall|a: usize| a < nlen ==> (#[trigger] out_edges(edges, a)).len() == 10
    &&& forall|k: int| 0 <= k < edges.len() ==> (#[trigger] edges[k]).1 < nlen
}

/// Appending the next element of a sequence to its prefix extends the prefix.
proof fn lemma_take_push<T>(s: Seq<T>, k: int)
    requires
        0 <= k < s.len(),
    ensures
        s.take(k).push(s[k]) == s.take(k + 1),
{
    assert(s.take(k).push(s[k]) =~= s.take(k + 1));
}

/// An element-wise copy of a vector of plain values.
fn copy_vec<T: Copy>(v: &Vec<T>) -> (r: Vec<T>)
    ensures
        r@ == v@,
{
    let mut r: Vec<T> = Vec::new();
    let mut i: usize = 0;
    while i < v.len()
        invariant
            i <= v@.len(),
            r@ == v@.take(i as int),
        decreases v@.len() - i,
    {
        r.push(v[i]);
        proof {
            assert(v@.take(i as int).push(v@[i as int]) =~= v@.take(i as int + 1));
        }
        i += 1;
    }
    proof {
        assert(v@.take(v@.len() as int) =~= v@);
    }
    r
}

/// A copy of a candidate, histories included.
fn clone_path(p: &Path) -> (r: Path)
    ensures
        r.cost == p.cost,
        r.node == p.node,
        r.transition == p.transition,
        r.path@ == p.path@,
        r.transition_path@ == p.transition_path@,
{
    Path {
        cost: p.cost,
        node: p.node,
        transition: p.transition,
        path: copy_vec(&p.path),
        transition_path: copy_vec(&p.transition_path),
    }
}

/// No walk from `source` to `target` is cheaper than the first emitted
/// result: a walk is either emitted exactly, or it bounds no emitted cost
/// from above.
pub proof fn lemma_first_result_minimal(
    edges: Seq<(usize, usize, ScaleTransition)>,
    source: usize,
    target: usize,
    results: Seq<Path>,
    ns: Seq<usize>,
    ts: Seq<ScaleTransition>,
)
    requires
        results.len() >= 1,
        forall|i: int| 0 <= i < results.len() ==> result_ok(edges, source, target, #[trigger] results[i]),
        forall|i: int, j: int| 0 <= i <= j < results.len() ==> results[i].cost <= results[j].cost,
        walk_emitted(results, ns, ts) || (forall|j: int|
            0 <= j < results.len() ==> (#[trigger] results[j]).cost <= ts.len()),
        walk_ok(edges, source, ns, ts),
        ns.last() == target,
    ensures
        results[0].cost <= ts.len(),
{
    if walk_emitted(results, ns, ts) {
        let i = choose|i: int|
            0 <= i < results.len() && (#[trigger] results[i]).path@ == ns
                && results[i].transition_path@ == ts;
        assert(results[i].cost == ts.len());
    }
}

/// Enumerate up to `n` cheapest arrival paths from `source` to `target`, in
/// non-decreasing cost order; ties leave in insertion order. `fuel` bounds the
/// number of candidates taken off the frontier, so a search whose target sits
/// beyond the budget (or is unreachable) returns the arrivals found so far.
/// Nothing cheap is skipped: every source-to-target walk is either emitted
/// exactly or costs at least as much as every emitted result.
///
/// The first result for a search from a state to itself is the zero-cost,
/// single-node path; a request for zero paths returns the empty sequence.
#[verifier::loop_isolation(false)]
pub fn multi_path_dijkstra(
    graph: &TransitionGraph,
    source: usize,
    target: usize,
    n: usize,
    fuel: usize,
) -> (results: Vec<Path>)
    requires
        source <= 0xFFFF_FFFF,
    ensures
        results@.len() <= n,
        source != target ==> forall|i: int|
            0 <= i < results@.len() ==> (#[trigger] results@[i]).cost >= 1,
        forall|i: int|
            0 <= i < results@.len() ==> result_ok(
                graph_edges(*graph),
                source,
                target,
                #[trigger] results@[i],
            ),
        forall|i: int, j: int|
            0 <= i <= j < results@.len() ==> results@[i].cost <= results@[j].cost,
        (n >= 1 && fuel >= 1 && source == target) ==> results@.len() >= 1 && results@[0].cost == 0
            && results@[0].path@ == seq![source] && results@[0].transition_path@ == Seq::<
            ScaleTransition,
        >::empty(),
        (n >= 1 && source != target && fuel >= 1 + out_edges(graph_edges(*graph), source).len()
            && (exists|j: int|
            0 <= j < out_edges(graph_edges(*graph), source).len() && out_edges(
                graph_edges(*graph),
                source,
            )[j].0 == target)) ==> results@.len() >= 1 && results@[0].cost == 1,
        forall|ns: Seq<usize>, ts: Seq<ScaleTransition>|
            (#[trigger] walk_ok(graph_edges(*graph), source, ns, ts) && ns.last() == target)
                ==> walk_emitted(results@, ns, ts) || (forall|j: int|
                0 <= j < results@.len() ==> (#[trigger] results@[j]).cost <= ts.len()),
        (results@.len() < n && (exists|nlen: usize|
            uniform_ten(graph_edges(*graph), nlen) && source < nlen)) ==> forall|
            ns: Seq<usize>,
            ts: Seq<ScaleTransition>,
        |
            (#[trigger] walk_ok(graph_edges(*graph), source, ns, ts)) && ns.last() == target
                && ts.len() < level10(fuel as int) ==> walk_emitted(results@, ns, ts),
{
    let ghost edges = graph_edges(*graph);
    let ghost souts = out_edges(edges, source);
    let ghost d = souts.len() as int;
    let ghost direct = exists|j: int| 0 <= j < souts.len() && souts[j].0 == target;
    let ghost jt = choose|j: int| 0 <= j < souts.len() && souts[j].0 == target;
    let ghost owed = n >= 1 && source != target && fuel >= 1 + d && direct;
    let ghost uni = exists|nlen: usize| uniform_ten(edges, nlen) && source < nlen;
    let ghost un = choose|nlen: usize| uniform_ten(edges, nlen) && source < nlen;
    let mut frontier: Vec<Path> = Vec::new();
    let mut head: usize = 0;
    let mut results: Vec<Path> = Vec::new();

    frontier.push(
        Path {
            cost: 0,
            node: source,
            transition: None,
            path: Vec::new(),
            transition_path: Vec::new(),
        },
    );

    proof {
        assert forall|ns: Seq<usize>, ts: Seq<ScaleTransition>|
            walk_ok(edges, source, ns, ts) && ns.last() == target implies walk_waiting(
            frontier@,
            0,
            ns,
            ts,
        ) by {
            assert(frontier@[0].path@ =~= ns.take(0));
            assert(frontier@[0].transition_path@ =~= ts.take(0));
            assert(covers(frontier@[0], ns, ts, 0));
        }
    }
    while head < frontier.len() && results.len() < n && head < fuel
        invariant
            head <= frontier@.len(),
            frontier@.len() >= 1,
            results@.len() <= n,
            results@.len() <= head,
            forall|i: int|
                head <= i < frontier@.len() ==> pending_ok(edges, source, #[trigger] frontier@[i]),
            forall|i: int|
                head <= i < frontier@.len() ==> (#[trigger] frontier@[i]).node <= 0xFFFF_FFFF,
            forall|i: int, j: int|
                head <= i <= j < frontier@.len() ==> (#[trigger] frontier@[i]).cost <= (
                #[trigger] frontier@[j]).cost,
            forall|i: int|
                head <= i < frontier@.len() ==> (#[trigger] frontier@[i]).cost <= frontier@[
                    head as int
                ].cost + 1,
            forall|i: int|
                0 <= i < results@.len() ==> result_ok(edges, source, target, #[trigger] results@[i]),
            forall|i: int, j: int|
                0 <= i <= j < results@.len() ==> (#[trigger] results@[i]).cost <= (
                #[trigger] results@[j]).cost,
            forall|i: int, j: int|
                0 <= i < results@.len() && head <= j < frontier@.len() ==> (#[trigger] results@[
                    i
                ]).cost <= (#[trigger] frontier@[j]).cost,
            head == 0 ==> frontier@.len() == 1 && frontier@[0].transition is None
                && frontier@[0].node == source && frontier@[0].cost == 0
                && frontier@[0].path@.len() == 0 && frontier@[0].transition_path@.len() == 0,
            (source == target && head >= 1) ==> results@.len() >= 1 && results@[0].cost == 0
                && results@[0].path@ == seq![source] && results@[0].transition_path@ == Seq::<
                ScaleTransition,
            >::empty(),
            (owed && head >= 1) ==> frontier@.len() >= 1 + d && (forall|j: int|
                0 <= j < d ==> (#[trigger] frontier@[1 + j]).node == souts[j].0 && frontier@[1
                    + j].cost == 1),
            (owed && results@.len() == 0) ==> head <= 1 + jt,
            (owed && results@.len() >= 1) ==> results@[0].cost == 1,
            head <= fuel,
            uni ==> forall|i: int|
                head <= i < frontier@.len() ==> (#[trigger] frontier@[i]).node < un,
            (uni && results@.len() < n) ==> frontier@.len() == 1 + 10 * head,
            uni ==> forall|i: int|
                0 <= i < frontier@.len() ==> (#[trigger] frontier@[i]).cost == level10(i),
            forall|ns: Seq<usize>, ts: Seq<ScaleTransition>|
                (#[trigger] walk_ok(edges, source, ns, ts) && ns.last() == target)
                    ==> walk_emitted(results@, ns, ts) || walk_waiting(
                    frontier@,
                    head as int,
                    ns,
                    ts,
                ) || (results@.len() >= n && forall|j: int|
                    0 <= j < results@.len() ==> (#[trigger] results@[j]).cost <= ts.len()),
        decreases fuel - head,
    {
        let mut p = clone_path(&frontier[head]);
        let ghost pend = frontier@[head as int];
        let ghost h0 = head as int;
        head += 1;
        let node = p.node;
        p.path.push(node);
        if let Some(t) = p.transition {
            p.transition_path.push(t);
        }
        proof {
            assert(visited_ok(edges, source, p)) by {
                match pend.transition {
                    None => {},
                    Some(t) => {
                        assert forall|i: int| 0 <= i < p.cost implies step_ok(
                            edges,
                            p.path@[i],
                            p.path@[i + 1],
                            #[trigger] p.transition_path@[i],
                        ) by {
                            if i < p.cost - 1 {
                                assert(step_ok(
                                    edges,
                                    pend.path@[i],
                                    pend.path@[i + 1],
                                    pend.transition_path@[i],
                                ));
                            } else {
                                assert(step_ok(edges, pend.path@.last(), pend.node, t));
                            }
                        }
                    },
                }
            }
        }
        let ghost popped_cost = p.cost as int;
        let ghost results_pre = results@;
        proof {
            assert forall|ns: Seq<usize>, ts: Seq<ScaleTransition>, k: int|
                #[trigger] covers(pend, ns, ts, k) && ns.len() == ts.len() + 1 implies covers_done(
                p,
                ns,
                ts,
                k,
            ) by {
                lemma_take_push(ns, k);
                if k > 0 {
                    lemma_take_push(ts, k - 1);
                }
            }
        }

        if p.node == target {
            let done = clone_path(&p);
            proof {
                assert(result_ok(edges, source, target, done));
                if head == 1 && source == target {
                    assert(Seq::<usize>::empty().push(source) =~= seq![source]);
                    assert(done.path@ =~= seq![source]);
                    assert(done.transition_path@ =~= Seq::<ScaleTransition>::empty());
                }
                if owed && results@.len() == 0 {
                    // the first arrival is one of the seed's direct successors
                    assert(head >= 2);
                    assert(frontier@[1 + jt].cost == 1);
                    assert(p.cost <= 1);
                    assert(p.cost >= 1);
                }
            }
            results.push(done);
        }

        if results.len() < n {
            let out = graph_out_edges(graph, p.node);
            proof {
                if head == 1 {
                    assert(out@ == souts);
                }
                // each walk waiting only at the popped slot either was just
                // emitted in full or is owed a child through one of its
                // out-edge entries
                assert forall|ns: Seq<usize>, ts: Seq<ScaleTransition>|
                    #[trigger] walk_ok(edges, source, ns, ts) && ns.last() == target
                        && !walk_emitted(results@, ns, ts) && !walk_waiting(
                        frontier@,
                        head as int,
                        ns,
                        ts,
                    ) implies child_owing(p, out@, 0, ns, ts) by {
                    if walk_emitted(results_pre, ns, ts) {
                        let ie = choose|ie: int|
                            0 <= ie < results_pre.len() && (#[trigger] results_pre[ie]).path@ == ns
                                && results_pre[ie].transition_path@ == ts;
                        assert(results@[ie].path@ == ns);
                        assert(false);
                    }
                    assert(walk_waiting(frontier@, h0, ns, ts));
                    let (i0, k0) = choose|i0: int, k0: int|
                        h0 <= i0 < frontier@.len() && #[trigger] covers(frontier@[i0], ns, ts, k0);
                    assert(i0 == h0);
                    assert(covers(pend, ns, ts, k0));
                    assert(covers_done(p, ns, ts, k0));
                    if k0 == ts.len() {
                        assert(p.node == target);
                        assert(ns.take(ns.len() as int) =~= ns);
                        assert(ts.take(ts.len() as int) =~= ts);
                        assert(results@[results@.len() - 1].path@ == ns);
                        assert(false);
                    } else {
                        let j = choose|j: int|
                            0 <= j < edges.len() && edges[j] == (ns[k0], ns[k0 + 1], ts[k0]);
                        lemma_out_edges_complete(edges, p.node, j);
                        let k2 = choose|k2: int|
                            0 <= k2 < out_edges(edges, p.node).len() && out_edges(
                                edges,
                                p.node,
                            )[k2] == (edges[j].1, edges[j].2);
                        assert(out@[k2] == (ns[k0 + 1], ts[k0]));
                    }
                }
            }
            let ghost flen0 = frontier@.len();
            proof {
                if uni {
                    assert(p.node < un);
                    assert(out@.len() == 10);
                }
            }
            let mut k: usize = 0;
            while k < out.len()
                invariant
                    k <= out@.len(),
                    head <= frontier@.len(),
                    frontier@.len() >= 1,
                    frontier@.len() == flen0 + k,
                    uni ==> forall|i: int|
                        head <= i < frontier@.len() ==> (#[trigger] frontier@[i]).node < un,
                    uni ==> forall|i: int|
                        0 <= i < frontier@.len() ==> (#[trigger] frontier@[i]).cost == level10(i),
                    head == 1 ==> frontier@.len() == 1 + k && p.cost == 0 && (forall|j: int|
                        0 <= j < k ==> (#[trigger] frontier@[1 + j]).node == out@[j].0
                            && frontier@[1 + j].cost == 1),
                    (owed && head >= 2) ==> frontier@.len() >= 1 + d && (forall|j: int|
                        0 <= j < d ==> (#[trigger] frontier@[1 + j]).node == souts[j].0
                            && frontier@[1 + j].cost == 1),
                    forall|i: int|
                        head <= i < frontier@.len() ==> pending_ok(
                            edges,
                            source,
                            #[trigger] frontier@[i],
                        ),
                    forall|i: int|
                        head <= i < frontier@.len() ==> (#[trigger] frontier@[i]).node
                            <= 0xFFFF_FFFF,
                    forall|i: int, j: int|
                        head <= i <= j < frontier@.len() ==> (#[trigger] frontier@[i]).cost <= (
                        #[trigger] frontier@[j]).cost,
                    forall|i: int|
                        head <= i < frontier@.len() ==> popped_cost <= (
                        #[trigger] frontier@[i]).cost <= popped_cost + 1,
                    forall|ns: Seq<usize>, ts: Seq<ScaleTransition>|
                        (#[trigger] walk_ok(edges, source, ns, ts) && ns.last() == target)
                            ==> walk_emitted(results@, ns, ts) || walk_waiting(
                            frontier@,
                            head as int,
                            ns,
                            ts,
                        ) || child_owing(p, out@, k as int, ns, ts),
                decreases out@.len() - k,
            {
                let ghost fr_pre = frontier@;
                let bt = out[k];
                proof {
                    lemma_out_edges_sound(edges, p.node, k as int);
                }
                let child_path = copy_vec(&p.path);
                let child_tp = copy_vec(&p.transition_path);
                let child_cost = p.path.len();
                let child = Path {
                    cost: child_cost,
                    node: bt.0,
                    transition: Some(bt.1),
                    path: child_path,
                    transition_path: child_tp,
                };
                proof {
                    assert(pending_ok(edges, source, child));
                    if uni {
                        let j = choose|j: int|
                            0 <= j < edges.len() && edges[j] == (p.node, bt.0, bt.1);
                        assert(bt.0 == edges[j].1);
                        let slot = flen0 + k;
                        assert((slot - 1) / 10 == head - 1) by (nonlinear_arith)
                            requires
                                0 <= k < 10,
                                head >= 1,
                                slot == 1 + 10 * (head as int - 1) + k,
                        ;
                        assert(level10(slot) == 1 + level10(head as int - 1));
                    }
                }
                frontier.push(child);
                proof {
                    // waiting walks keep their waiting slot; a walk owed this
                    // very entry is now covered by the pushed child
                    assert forall|ns: Seq<usize>, ts: Seq<ScaleTransition>|
                        #[trigger] walk_ok(edges, source, ns, ts) && ns.last() == target
                            && !walk_emitted(results@, ns, ts) implies walk_waiting(
                        frontier@,
                        head as int,
                        ns,
                        ts,
                    ) || child_owing(p, out@, k as int + 1, ns, ts) by {
                        if walk_waiting(fr_pre, head as int, ns, ts) {
                            let (i0, kk) = choose|i0: int, kk: int|
                                head <= i0 < fr_pre.len() && #[trigger] covers(
                                    fr_pre[i0],
                                    ns,
                                    ts,
                                    kk,
                                );
                            assert(covers(frontier@[i0], ns, ts, kk));
                        } else {
                            assert(child_owing(p, out@, k as int, ns, ts));
                            let (kp, k2) = choose|kp: int, k2: int|
                                #![trigger covers_done(p, ns, ts, kp), out@[k2]]
                                0 <= kp < ts.len() && covers_done(p, ns, ts, kp) && k <= k2
                                    < out@.len() && out@[k2] == (ns[kp + 1], ts[kp]);
                            if k2 == k {
                                assert(covers(frontier@[frontier@.len() - 1], ns, ts, kp + 1));
                            }
                        }
                    }
                }
                k += 1;
            }
        } else {
            proof {
                // the pop just emitted the n-th arrival; walks waiting only at
                // the popped slot are bounded below by that arrival's cost
                assert forall|ns: Seq<usize>, ts: Seq<ScaleTransition>|
                    #[trigger] walk_ok(edges, source, ns, ts) && ns.last() == target
                        && !walk_emitted(results@, ns, ts) && !walk_waiting(
                        frontier@,
                        head as int,
                        ns,
                        ts,
                    ) implies results@.len() >= n && (forall|j: int|
                    0 <= j < results@.len() ==> (#[trigger] results@[j]).cost <= ts.len()) by {
                    if walk_emitted(results_pre, ns, ts) {
                        let ie = choose|ie: int|
                            0 <= ie < results_pre.len() && (#[trigger] results_pre[ie]).path@ == ns
                                && results_pre[ie].transition_path@ == ts;
                        assert(results@[ie].path@ == ns);
                        assert(false);
                    }
                    assert(walk_waiting(frontier@, h0, ns, ts));
                    let (i0, k0) = choose|i0: int, k0: int|
                        h0 <= i0 < frontier@.len() && #[trigger] covers(frontier@[i0], ns, ts, k0);
                    assert(i0 == h0);
                    assert(covers(pend, ns, ts, k0));
                    assert(covers_done(p, ns, ts, k0));
                    if k0 == ts.len() {
                        assert(p.node == target);
                        assert(ns.take(ns.len() as int) =~= ns);
                        assert(ts.take(ts.len() as int) =~= ts);
                        assert(results@[results@.len() - 1].path@ == ns);
                        assert(false);
                    } else {
                        assert(results@[results@.len() - 1].cost == k0);
                        assert forall|j: int| 0 <= j < results@.len() implies (
                        #[trigger] results@[j]).cost <= ts.len() by {
                            assert(results@[j].cost <= results@[results@.len() - 1].cost);
                        }
                    }
                }
            }
        }
    }
    proof {
        if uni && results@.len() < n {
            // the loop can only have stopped on the pop budget: the frontier
            // always outruns the head, so every walk still waiting sits at a
            // cost level the budget never reached
            assert(frontier@.len() == 1 + 10 * head);
            assert(head == fuel);
            assert forall|ns: Seq<usize>, ts: Seq<ScaleTransition>|
                walk_ok(edges, source, ns, ts) && ns.last() == target && ts.len() < level10(
                    fuel as int,
                ) implies walk_emitted(results@, ns, ts) by {
                if !walk_emitted(results@, ns, ts) {
                    let (i0, k0) = choose|i0: int, k0: int|
                        head <= i0 < frontier@.len() && #[trigger] covers(frontier@[i0], ns, ts, k0);
                    assert(frontier@[i0].cost == level10(i0));
                    assert(frontier@[head as int].cost == level10(head as int));
                    assert(frontier@[head as int].cost <= frontier@[i0].cost);
                    assert(k0 <= ts.len());
                    assert(false);
                }
            }
        }
        assert forall|ns: Seq<usize>, ts: Seq<ScaleTransition>|
            #[trigger] walk_ok(edges, source, ns, ts) && ns.last() == target && !walk_emitted(
                results@,
                ns,
                ts,
            ) implies forall|j: int|
            0 <= j < results@.len() ==> (#[trigger] results@[j]).cost <= ts.len() by {
            if walk_waiting(frontier@, head as int, ns, ts) {
                let (i0, k0) = choose|i0: int, k0: int|
                    head <= i0 < frontier@.len() && #[trigger] covers(frontier@[i0], ns, ts, k0);
                assert forall|j: int| 0 <= j < results@.len() implies (#[trigger] results@[j]).cost
                    <= ts.len() by {
                    assert(results@[j].cost <= frontier@[i0].cost);
                }
            }
        }
    }
    results
}

} // verus!
