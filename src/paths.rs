//! Attack-path search: all simple paths by depth-first search, and the
//! cheapest path by Dijkstra's algorithm. An edge costs `SCALE - exploitability`.
use vstd::prelude::*;
use vstd::set_lib::{lemma_int_range, lemma_len_subset, lemma_map_size, set_int_range};

use crate::graph::{GraphEdge, InMemoryGraph, SCALE};

verus! {

/// A path through the in-memory graph.
pub struct RawPath {
    /// Node indices along the path.
    pub node_indices: Vec<usize>,
    /// Each step as (source node index, position in that node's adjacency row).
    pub edges: Vec<(usize, usize)>,
    /// Sum of the step costs, in units of `1 / SCALE`.
    pub total_weight: u128,
}

/// Cost of traversing an edge.
pub open spec fn edge_weight(e: GraphEdge) -> int {
    SCALE - e.exploitability
}

/// The adjacency entry that a step names.
pub open spec fn step_edge(g: InMemoryGraph, step: (usize, usize)) -> GraphEdge {
    g.adjacency[step.0 as int][step.1 as int]
}

/// `nodes` and `edges` spell a walk in `g`: each step leaves the node before it
/// along an existing edge and arrives at the node after it.
pub open spec fn is_walk(g: InMemoryGraph, nodes: Seq<usize>, edges: Seq<(usize, usize)>) -> bool {
    &&& nodes.len() == edges.len() + 1
    &&& forall|i: int| 0 <= i < nodes.len() ==> #[trigger] nodes[i] < g.nodes.len()
    &&& forall|i: int|
        0 <= i < edges.len() ==> {
            &&& (#[trigger] edges[i]).0 == nodes[i]
            &&& edges[i].1 < g.adjacency[nodes[i] as int].len()
            &&& step_edge(g, edges[i]).target_index == nodes[i + 1]
        }
}

/// Total cost of a sequence of steps.
pub open spec fn walk_weight(g: InMemoryGraph, edges: Seq<(usize, usize)>) -> int
    decreases edges.len(),
{
    if edges.len() == 0 {
        0
    } else {
        walk_weight(g, edges.drop_last()) + edge_weight(step_edge(g, edges.last()))
    }
}

/// A path that the all-paths search may report.
pub open spec fn is_found_path(
    g: InMemoryGraph,
    sources: Seq<usize>,
    targets: Seq<usize>,
    max_depth: usize,
    p: RawPath,
) -> bool {
    &&& is_walk(g, p.node_indices@, p.edges@)
    &&& p.node_indices@.no_duplicates()
    &&& p.node_indices@.len() >= 2
    &&& p.node_indices@.len() <= max_depth
    &&& sources.contains(p.node_indices@[0])
    &&& targets.contains(p.node_indices@.last())
    &&& forall|i: int|
        0 < i < p.node_indices@.len() - 1 ==> !targets.contains(#[trigger] p.node_indices@[i])
    &&& p.total_weight == walk_weight(g, p.edges@)
}

/// `p` and `q` start alike and first part where `p` takes an edge later in the
/// adjacency row than `q` does: the depth-first search reports `p` first.
pub open spec fn branches_before(p: RawPath, q: RawPath) -> bool {
    exists|d: int|
        0 <= d < p.edges@.len() && d < q.edges@.len() && #[trigger] p.edges@.take(d) == q.edges@.take(d)
            && p.node_indices@[0] == q.node_indices@[0] && p.edges@[d].1 > q.edges@[d].1
}

/// Position of `x` in `s` (meaningful when `s` holds it once).
pub open spec fn position_of(s: Seq<usize>, x: usize) -> int {
    choose|i: int| 0 <= i < s.len() && s[i] == x
}

proof fn lemma_position_of(s: Seq<usize>, i: int)
    requires
        s.no_duplicates(),
        0 <= i < s.len(),
    ensures
        position_of(s, s[i]) == i,
{
    let k = choose|k: int| 0 <= k < s.len() && s[k] == s[i];
}

/// Search order: paths from an earlier source first; from one source, by
/// `branches_before`.
pub open spec fn search_precedes(sources: Seq<usize>, p: RawPath, q: RawPath) -> bool {
    if p.node_indices@[0] == q.node_indices@[0] {
        branches_before(p, q)
    } else {
        position_of(sources, p.node_indices@[0]) < position_of(sources, q.node_indices@[0])
    }
}

/// Two paths with the same nodes and the same steps.
pub open spec fn same_route(a: RawPath, b: RawPath) -> bool {
    a.node_indices@ == b.node_indices@ && a.edges@ == b.edges@
}

/// No path of `ps[lo..hi]` is reported twice.
pub open spec fn no_repeats(ps: Seq<RawPath>, lo: int, hi: int) -> bool {
    forall|a: int, b: int| lo <= a < b < hi ==> !same_route(#[trigger] ps[a], #[trigger] ps[b])
}

/// A path that the all-paths search must report unless the cap cuts it off:
/// a simple walk from a source to a target, within the depth bound, that meets
/// no other target on the way (the search does not extend past a target).
pub open spec fn is_candidate(
    g: InMemoryGraph,
    sources: Seq<usize>,
    targets: Seq<usize>,
    max_depth: usize,
    ns: Seq<usize>,
    es: Seq<(usize, usize)>,
) -> bool {
    &&& is_walk(g, ns, es)
    &&& ns.no_duplicates()
    &&& 2 <= ns.len() <= max_depth
    &&& sources.contains(ns[0])
    &&& targets.contains(ns.last())
    &&& forall|i: int| 0 < i < ns.len() - 1 ==> !targets.contains(#[trigger] ns[i])
}

/// Some reported path consists of exactly these nodes and steps.
pub open spec fn reported(ps: Seq<RawPath>, ns: Seq<usize>, es: Seq<(usize, usize)>) -> bool {
    exists|i: int| 0 <= i < ps.len() && ps[i].node_indices@ == ns && ps[i].edges@ == es
}

/// `ns`/`es` begin with the prefix `pn`/`pe`.
pub open spec fn extends(
    ns: Seq<usize>,
    es: Seq<(usize, usize)>,
    pn: Seq<usize>,
    pe: Seq<(usize, usize)>,
) -> bool {
    &&& pn.len() <= ns.len()
    &&& pe.len() <= es.len()
    &&& ns.take(pn.len() as int) == pn
    &&& es.take(pe.len() as int) == pe
}

/// Paths ordered by total weight, lightest first.
pub open spec fn sorted_by_weight(ps: Seq<RawPath>) -> bool {
    forall|a: int, b: int| 0 <= a < b < ps.len() ==> ps[a].total_weight <= ps[b].total_weight
}

/// A sequence of distinct indices below `n` has at most `n` entries.
pub proof fn lemma_distinct_indices_bounded(s: Seq<usize>, n: int)
    requires
        n >= 0,
        s.no_duplicates(),
        forall|i: int| 0 <= i < s.len() ==> #[trigger] s[i] < n,
    ensures
        s.len() <= n,
{
    broadcast use vstd::seq_lib::group_seq_properties;
    broadcast use vstd::set::group_set_axioms;
    s.unique_seq_to_set();
    let f = |x: usize| x as int;
    let set = s.to_set();
    let si = set.map(f);
    assert(vstd::relations::injective_on(f, set));
    lemma_map_size(set, si, f);
    lemma_int_range(0, n);
    assert(si.subset_of(set_int_range(0, n))) by {
        assert forall|x: int| si.contains(x) implies set_int_range(0, n).contains(x) by {
            let y = choose|y: usize| set.contains(y) && f(y) == x;
            let k = choose|k: int| 0 <= k < s.len() && s[k] == y;
        }
    }
    lemma_len_subset(si, set_int_range(0, n));
}

pub fn contains_index(v: &Vec<usize>, x: usize) -> (r: bool)
    ensures
        r == v@.contains(x),
{
    let mut i: usize = 0;
    while i < v.len()
        invariant
            i <= v@.len(),
            forall|k: int| 0 <= k < i ==> v@[k] != x,
        decreases v@.len() - i,
    {
        if v[i] == x {
            return true;
        }
        i += 1;
    }
    false
}

fn copy_indices(v: &Vec<usize>) -> (r: Vec<usize>)
    ensures
        r@ == v@,
{
    let mut r: Vec<usize> = Vec::new();
    let mut i: usize = 0;
    while i < v.len()
        invariant
            i <= v@.len(),
            r@ == v@.subrange(0, i as int),
        decreases v@.len() - i,
    {
        r.push(v[i]);
        i += 1;
    }
    assert(r@ =~= v@);
    r
}

fn copy_steps(v: &Vec<(usize, usize)>) -> (r: Vec<(usize, usize)>)
    ensures
        r@ == v@,
{
    let mut r: Vec<(usize, usize)> = Vec::new();
    let mut i: usize = 0;
    while i < v.len()
        invariant
            i <= v@.len(),
            r@ == v@.subrange(0, i as int),
        decreases v@.len() - i,
    {
        r.push(v[i]);
        i += 1;
    }
    assert(r@ =~= v@);
    r
}

/// Walk weights are bounded by `SCALE` per step.
pub proof fn lemma_walk_weight_bounds(g: InMemoryGraph, edges: Seq<(usize, usize)>)
    requires
        g.wf(),
        forall|i: int|
            0 <= i < edges.len() ==> {
                &&& (#[trigger] edges[i]).0 < g.adjacency.len()
                &&& edges[i].1 < g.adjacency[edges[i].0 as int].len()
            },
    ensures
        0 <= walk_weight(g, edges) <= edges.len() * SCALE,
    decreases edges.len(),
{
    if edges.len() > 0 {
        let last = edges.last();
        assert(edges[edges.len() - 1] == last);
        lemma_walk_weight_bounds(g, edges.drop_last());
        assert(step_edge(g, last).exploitability <= SCALE);
    }
}

/// Depth-first extension of the current path; reports each path that reaches a
/// target and does not extend it further.
fn dfs_extend(
    g: &InMemoryGraph,
    sources: &Vec<usize>,
    targets: &Vec<usize>,
    max_depth: usize,
    max_paths: usize,
    path_nodes: &mut Vec<usize>,
    path_edges: &mut Vec<(usize, usize)>,
    depth: usize,
    weight: u128,
    out: &mut Vec<RawPath>,
)
    requires
        g.wf(),
        depth == old(path_nodes)@.len(),
        1 <= depth <= max_depth + 1,
        is_walk(*g, old(path_nodes)@, old(path_edges)@),
        old(path_nodes)@.no_duplicates(),
        sources@.contains(old(path_nodes)@[0]),
        weight == walk_weight(*g, old(path_edges)@),
        old(out)@.len() <= max_paths,
        g.nodes@.len() <= usize::MAX,
        forall|i: int| 0 < i < depth - 1 ==> !targets@.contains(#[trigger] old(path_nodes)@[i]),
    ensures
        final(path_nodes)@ == old(path_nodes)@,
        final(path_edges)@ == old(path_edges)@,
        old(out)@.len() <= final(out)@.len() <= max_paths,
        forall|i: int|
            old(out)@.len() <= i < final(out)@.len() ==> extends(
                (#[trigger] final(out)@[i]).node_indices@,
                final(out)@[i].edges@,
                old(path_nodes)@,
                old(path_edges)@,
            ),
        no_repeats(final(out)@, old(out)@.len() as int, final(out)@.len() as int),
        forall|a: int, b: int|
            old(out)@.len() <= a < b < final(out)@.len() ==> branches_before(
                #[trigger] final(out)@[a],
                #[trigger] final(out)@[b],
            ),
        forall|i: int| 0 <= i < old(out)@.len() ==> final(out)@[i] == old(out)@[i],
        forall|i: int|
            old(out)@.len() <= i < final(out)@.len() ==> is_found_path(
                *g,
                sources@,
                targets@,
                max_depth,
                #[trigger] final(out)@[i],
            ),
        final(out)@.len() < max_paths ==> forall|ns: Seq<usize>, es: Seq<(usize, usize)>|
            #[trigger] is_candidate(*g, sources@, targets@, max_depth, ns, es) && extends(
                ns,
                es,
                old(path_nodes)@,
                old(path_edges)@,
            ) ==> reported(final(out)@, ns, es),
    decreases max_depth + 1 - depth,
{
    if out.len() >= max_paths {
        return;
    }
    // A state with more than `max_depth` nodes is dropped before anything else.
    if depth > max_depth {
        return;
    }
    let node = path_nodes[depth - 1];
    if depth > 1 && contains_index(targets, node) {
        let p = RawPath {
            node_indices: copy_indices(path_nodes),
            edges: copy_steps(path_edges),
            total_weight: weight,
        };
        assert(p.node_indices@.last() == node);
        let ghost before_out = out@;
        out.push(p);
        proof {
            assert(p.node_indices@.take(depth as int) =~= p.node_indices@);
            assert(p.edges@.take(depth - 1) =~= p.edges@);
            assert(out@[out@.len() - 1] == p);
            assert forall|ns: Seq<usize>, es: Seq<(usize, usize)>|
                #[trigger] is_candidate(*g, sources@, targets@, max_depth, ns, es) && extends(
                    ns,
                    es,
                    old(path_nodes)@,
                    old(path_edges)@,
                ) implies reported(out@, ns, es) by {
                if ns.len() == depth {
                    assert(ns =~= old(path_nodes)@);
                    assert(es =~= old(path_edges)@);
                    assert(out@[out@.len() - 1] == p);
                } else {
                    assert(ns[depth - 1] == old(path_nodes)@[depth - 1]);
                    assert(0 < depth - 1 < ns.len() - 1);
                }
            }
        }
        return;
    }
    if depth == usize::MAX {
        proof {
            assert forall|ns: Seq<usize>, es: Seq<(usize, usize)>|
                #[trigger] is_candidate(*g, sources@, targets@, max_depth, ns, es) && extends(
                    ns,
                    es,
                    old(path_nodes)@,
                    old(path_edges)@,
                ) implies reported(out@, ns, es) by {
                if ns.len() == depth {
                    assert(ns =~= old(path_nodes)@);
                    assert(ns.last() == node);
                } else if depth == usize::MAX {
                    assert forall|i: int| 0 <= i < ns.len() implies #[trigger] ns[i] < g.nodes.len() by {}
                    lemma_distinct_indices_bounded(ns, g.nodes.len() as int);
                }
            }
        }
        return;
    }
    proof {
        lemma_walk_weight_bounds(*g, path_edges@);
    }
    let row = &g.adjacency[node];
    let mut k: usize = row.len();
    proof {
        assert forall|ns: Seq<usize>, es: Seq<(usize, usize)>|
            #[trigger] is_candidate(*g, sources@, targets@, max_depth, ns, es) && extends(
                ns,
                es,
                path_nodes@,
                path_edges@,
            ) && ns.len() > depth && es[depth - 1].1 >= k implies reported(out@, ns, es) by {
            assert(es[depth - 1].0 == ns[depth - 1]);
            assert(ns[depth - 1] == path_nodes@[depth - 1]);
        }
    }
    // Children are explored from the last edge to the first.
    while k > 0
        invariant
            g.wf(),
            row == g.adjacency[node as int],
            node == path_nodes@[depth - 1],
            node < g.nodes.len(),
            k <= row@.len(),
            depth == path_nodes@.len(),
            1 <= depth <= max_depth,
            depth < usize::MAX,
            path_nodes@ == old(path_nodes)@,
            path_edges@ == old(path_edges)@,
            is_walk(*g, path_nodes@, path_edges@),
            path_nodes@.no_duplicates(),
            sources@.contains(path_nodes@[0]),
            weight == walk_weight(*g, path_edges@),
            weight <= path_edges@.len() * SCALE,
            old(out)@.len() <= out@.len() <= max_paths,
            forall|i: int| 0 <= i < old(out)@.len() ==> out@[i] == old(out)@[i],
            forall|i: int|
                old(out)@.len() <= i < out@.len() ==> is_found_path(
                    *g,
                    sources@,
                    targets@,
                    max_depth,
                    #[trigger] out@[i],
                ),
            g.nodes@.len() <= usize::MAX,
            !(depth > 1 && targets@.contains(node)),
            out@.len() < max_paths ==> forall|ns: Seq<usize>, es: Seq<(usize, usize)>|
                #[trigger] is_candidate(*g, sources@, targets@, max_depth, ns, es) && extends(
                    ns,
                    es,
                    path_nodes@,
                    path_edges@,
                ) && ns.len() > depth && es[depth - 1].1 >= k ==> reported(out@, ns, es),
            forall|i: int| 0 < i < depth - 1 ==> !targets@.contains(#[trigger] path_nodes@[i]),
            forall|i: int|
                old(out)@.len() <= i < out@.len() ==> extends(
                    (#[trigger] out@[i]).node_indices@,
                    out@[i].edges@,
                    path_nodes@,
                    path_edges@,
                ) && out@[i].edges@.len() > depth - 1 && out@[i].edges@[depth - 1].1 >= k,
            no_repeats(out@, old(out)@.len() as int, out@.len() as int),
            forall|a: int, b: int|
                old(out)@.len() <= a < b < out@.len() ==> branches_before(
                    #[trigger] out@[a],
                    #[trigger] out@[b],
                ),
        decreases k,
    {
        k -= 1;
        let edge = &row[k];
        let next = edge.target_index;
        if !contains_index(path_nodes, next) {
            let ghost before_nodes = path_nodes@;
            let ghost before_edges = path_edges@;
            let ghost before_out = out@;
            let step_cost = (SCALE - edge.exploitability) as u128;
            path_nodes.push(next);
            path_edges.push((node, k));
            proof {
                assert(path_edges@.drop_last() =~= before_edges);
                assert(path_edges@.last() == (node, k));
                assert(is_walk(*g, path_nodes@, path_edges@)) by {
                    assert forall|i: int| 0 <= i < path_edges@.len() implies {
                        &&& (#[trigger] path_edges@[i]).0 == path_nodes@[i]
                        &&& path_edges@[i].1 < g.adjacency[path_nodes@[i] as int].len()
                        &&& step_edge(*g, path_edges@[i]).target_index == path_nodes@[i + 1]
                    } by {
                        if i < before_edges.len() {
                            assert(path_edges@[i] == before_edges[i]);
                            assert(path_nodes@[i + 1] == before_nodes[i + 1]);
                        }
                    }
                }
                assert(path_nodes@.no_duplicates()) by {
                    assert forall|a: int, b: int|
                        0 <= a < path_nodes@.len() && 0 <= b < path_nodes@.len() && a != b
                        implies path_nodes@[a] != path_nodes@[b] by {
                        if a < before_nodes.len() && b < before_nodes.len() {
                        } else if a < before_nodes.len() {
                            assert(before_nodes.contains(before_nodes[a]));
                        } else {
                            assert(before_nodes.contains(before_nodes[b]));
                        }
                    }
                }
                assert(path_nodes@[0] == before_nodes[0]);
                assert forall|i: int| 0 < i < depth implies !targets@.contains(#[trigger] path_nodes@[i]) by {
                    assert(path_nodes@[i] == before_nodes[i]);
                }
            }
            dfs_extend(
                g,
                sources,
                targets,
                max_depth,
                max_paths,
                path_nodes,
                path_edges,
                depth + 1,
                weight + step_cost,
                out,
            );
            let ghost child_nodes = path_nodes@;
            let ghost child_edges = path_edges@;
            path_nodes.pop();
            path_edges.pop();
            proof {
                assert(path_nodes@ =~= before_nodes);
                assert(path_edges@ =~= before_edges);
                assert forall|i: int| 0 <= i < old(out)@.len() implies out@[i] == old(out)@[i] by {
                    assert(out@[i] == before_out[i]);
                }
                assert(child_nodes.take(depth as int) =~= before_nodes);
                assert(child_edges.take(depth - 1) =~= before_edges);
                assert(child_edges[depth - 1] == (node, k));
                assert forall|i: int|
                    old(out)@.len() <= i < out@.len() implies extends(
                        (#[trigger] out@[i]).node_indices@,
                        out@[i].edges@,
                        path_nodes@,
                        path_edges@,
                    ) && out@[i].edges@.len() > depth - 1 && out@[i].edges@[depth - 1].1 >= k by {
                    if i < before_out.len() {
                        assert(out@[i] == before_out[i]);
                    } else {
                        let q = out@[i];
                        assert(q.node_indices@.take(depth as int) =~= q.node_indices@.take(depth + 1).take(
                            depth as int,
                        ));
                        assert(q.edges@.take(depth - 1) =~= q.edges@.take(depth as int).take(depth - 1));
                        assert(q.edges@[depth - 1] == q.edges@.take(depth as int)[depth - 1]);
                    }
                }
                assert forall|a: int, b: int|
                    old(out)@.len() <= a < b < out@.len() implies !same_route(
                    #[trigger] out@[a],
                    #[trigger] out@[b],
                ) by {
                    if b < before_out.len() {
                        assert(out@[a] == before_out[a]);
                        assert(out@[b] == before_out[b]);
                    } else if a < before_out.len() {
                        assert(out@[a] == before_out[a]);
                        let q = out@[b];
                        assert(q.edges@[depth - 1] == q.edges@.take(depth as int)[depth - 1]);
                    }
                }
                assert forall|a: int, b: int|
                    old(out)@.len() <= a < b < out@.len() implies branches_before(
                    #[trigger] out@[a],
                    #[trigger] out@[b],
                ) by {
                    if b < before_out.len() {
                        assert(out@[a] == before_out[a]);
                        assert(out@[b] == before_out[b]);
                    } else if a < before_out.len() {
                        assert(out@[a] == before_out[a]);
                        let pa = out@[a];
                        let q = out@[b];
                        assert(q.edges@[depth - 1] == q.edges@.take(depth as int)[depth - 1]);
                        let d = depth - 1;
                        assert(extends(pa.node_indices@, pa.edges@, before_nodes, before_edges));
                        assert(pa.edges@.take(d) == before_edges);
                        assert(q.edges@.take(d) =~= q.edges@.take(depth as int).take(d));
                        assert(q.edges@.take(d) == before_edges);
                        assert(pa.edges@[d].1 > q.edges@[d].1);
                        assert(pa.node_indices@.take(depth as int) == before_nodes);
                        assert(q.node_indices@.take(depth as int) =~= q.node_indices@.take(depth + 1).take(
                            depth as int,
                        ));
                        assert(pa.node_indices@[0] == pa.node_indices@.take(depth as int)[0]);
                        assert(q.node_indices@[0] == q.node_indices@.take(depth as int)[0]);
                        assert(pa.node_indices@[0] == q.node_indices@[0]);
                        assert(branches_before(pa, q));
                    } else {
                        assert(branches_before(out@[a], out@[b]));
                    }
                }
                if out@.len() < max_paths {
                    assert forall|ns: Seq<usize>, es: Seq<(usize, usize)>|
                        #[trigger] is_candidate(*g, sources@, targets@, max_depth, ns, es) && extends(
                            ns,
                            es,
                            path_nodes@,
                            path_edges@,
                        ) && ns.len() > depth && es[depth - 1].1 >= k implies reported(out@, ns, es) by {
                        if es[depth - 1].1 == k {
                            assert(es[depth - 1].0 == ns[depth - 1]);
                            assert(ns[depth - 1] == before_nodes[depth - 1]);
                            assert(ns[depth as int] == next);
                            assert(ns.take(depth + 1) =~= child_nodes);
                            assert(es.take(depth as int) =~= child_edges);
                        } else {
                            assert(reported(before_out, ns, es));
                            let w = choose|w: int|
                                0 <= w < before_out.len() && before_out[w].node_indices@ == ns
                                    && before_out[w].edges@ == es;
                            assert(out@[w] == before_out[w]);
                        }
                    }
                }
            }
        } else {
            proof {
                if out@.len() < max_paths {
                assert forall|ns: Seq<usize>, es: Seq<(usize, usize)>|
                    #[trigger] is_candidate(*g, sources@, targets@, max_depth, ns, es) && extends(
                        ns,
                        es,
                        path_nodes@,
                        path_edges@,
                    ) && ns.len() > depth && es[depth - 1].1 >= k implies reported(out@, ns, es) by {
                    if es[depth - 1].1 == k {
                        assert(es[depth - 1].0 == ns[depth - 1]);
                        assert(ns[depth - 1] == path_nodes@[depth - 1]);
                        assert(ns[depth as int] == next);
                        let w = choose|w: int| 0 <= w < path_nodes@.len() && path_nodes@[w] == next;
                        assert(ns[w] == path_nodes@[w]);
                    }
                }
                }
            }
        }
    }
    proof {
        if out@.len() < max_paths {
        assert forall|ns: Seq<usize>, es: Seq<(usize, usize)>|
            #[trigger] is_candidate(*g, sources@, targets@, max_depth, ns, es) && extends(
                ns,
                es,
                old(path_nodes)@,
                old(path_edges)@,
            ) implies reported(out@, ns, es) by {
            if ns.len() == depth {
                assert(ns =~= old(path_nodes)@);
                assert(ns.last() == node);
            }
        }
        }
    }
}

/// Sorts paths by total weight, lightest first; equal weights keep their order.
fn sort_by_weight(paths: Vec<RawPath>) -> (r: Vec<RawPath>)
    ensures
        r@.len() == paths@.len(),
        sorted_by_weight(r@),
        forall|i: int| 0 <= i < r@.len() ==> paths@.contains(#[trigger] r@[i]),
        forall|j: int| 0 <= j < paths@.len() ==> r@.contains(#[trigger] paths@[j]),
        no_repeats(paths@, 0, paths@.len() as int) ==> no_repeats(r@, 0, r@.len() as int),
        forall|a: int, b: int|
            0 <= a < b < r@.len() && (#[trigger] r@[a]).total_weight == (#[trigger] r@[b]).total_weight
                ==> exists|ia: int, ib: int|
                0 <= ia < ib < paths@.len() && paths@[ia] == r@[a] && paths@[ib] == r@[b],
{
    let mut input = paths;
    let ghost orig = input@;
    let mut rev: Vec<RawPath> = Vec::new();
    while input.len() > 0
        invariant
            input@.len() + rev@.len() == orig.len(),
            forall|k: int| 0 <= k < input@.len() ==> #[trigger] input@[k] == orig[k],
            forall|k: int| 0 <= k < rev@.len() ==> #[trigger] rev@[k] == orig[orig.len() - 1 - k],
        decreases input@.len(),
    {
        let p = input.pop().unwrap();
        rev.push(p);
    }
    let mut out: Vec<RawPath> = Vec::new();
    while rev.len() > 0
        invariant
            out@.len() + rev@.len() == orig.len(),
            forall|k: int| 0 <= k < rev@.len() ==> #[trigger] rev@[k] == orig[orig.len() - 1 - k],
            sorted_by_weight(out@),
            forall|i: int| 0 <= i < out@.len() ==> orig.contains(#[trigger] out@[i]),
            forall|j: int| 0 <= j < orig.len() - rev@.len() ==> out@.contains(#[trigger] orig[j]),
            no_repeats(orig, 0, orig.len() as int) ==> no_repeats(out@, 0, out@.len() as int),
            forall|i: int|
                0 <= i < out@.len() ==> exists|j: int|
                    0 <= j < orig.len() - rev@.len() && orig[j] == #[trigger] out@[i],
            forall|a: int, b: int|
                0 <= a < b < out@.len() && (#[trigger] out@[a]).total_weight == (#[trigger] out@[b]).total_weight
                    ==> exists|ia: int, ib: int|
                    0 <= ia < ib < orig.len() - rev@.len() && orig[ia] == out@[a] && orig[ib] == out@[b],
            no_repeats(orig, 0, orig.len() as int) ==> forall|i: int, j: int|
                0 <= i < out@.len() && orig.len() - rev@.len() <= j < orig.len() ==> !same_route(
                    #[trigger] out@[i],
                    #[trigger] orig[j],
                ),
        decreases rev@.len(),
    {
        let p = rev.pop().unwrap();
        let ghost pj = orig.len() - 1 - rev@.len();
        assert(p == orig[pj]);
        let w = p.total_weight;
        let mut pos: usize = out.len();
        // Insert after every path of equal or smaller weight.
        while pos > 0 && out[pos - 1].total_weight > w
            invariant
                pos <= out@.len(),
                forall|i: int| pos <= i < out@.len() ==> out@[i].total_weight > w,
            decreases pos,
        {
            pos -= 1;
        }
        let ghost before = out@;
        out.insert(pos, p);
        proof {
            assert forall|i: int| 0 <= i < out@.len() implies exists|j: int|
                0 <= j < orig.len() - rev@.len() && orig[j] == #[trigger] out@[i] by {
                if i < pos {
                    assert(out@[i] == before[i]);
                } else if i == pos {
                    assert(orig[pj] == out@[i]);
                } else {
                    assert(out@[i] == before[i - 1]);
                }
            }
            assert forall|a: int, b: int|
                0 <= a < b < out@.len() && (#[trigger] out@[a]).total_weight == (#[trigger] out@[b]).total_weight
                    implies exists|ia: int, ib: int|
                    0 <= ia < ib < orig.len() - rev@.len() && orig[ia] == out@[a] && orig[ib] == out@[b] by {
                if b < pos {
                    assert(out@[a] == before[a] && out@[b] == before[b]);
                } else if b == pos {
                    assert(out@[a] == before[a]);
                    let ja = choose|j: int| 0 <= j < orig.len() - rev@.len() - 1 && orig[j] == #[trigger] before[a];
                    assert(orig[pj] == out@[b]);
                } else if a < pos {
                    assert(out@[a] == before[a] && out@[b] == before[b - 1]);
                    assert(before[b - 1].total_weight > w);
                    if pos > 0 {
                        assert(before[a].total_weight <= before[pos - 1].total_weight);
                    }
                    assert(before[a].total_weight <= w);
                } else if a == pos {
                    assert(out@[b] == before[b - 1]);
                    assert(before[b - 1].total_weight > w);
                } else {
                    assert(out@[a] == before[a - 1] && out@[b] == before[b - 1]);
                }
            }
            if no_repeats(orig, 0, orig.len() as int) {
                assert forall|a: int, b: int| 0 <= a < b < out@.len() implies !same_route(
                    #[trigger] out@[a],
                    #[trigger] out@[b],
                ) by {
                    let ia = if a < pos { a } else if a == pos { -1 } else { a - 1 };
                    let ib = if b < pos { b } else if b == pos { -1 } else { b - 1 };
                    if ia >= 0 && ib >= 0 {
                        assert(out@[a] == before[ia]);
                        assert(out@[b] == before[ib]);
                    } else if ia < 0 {
                        assert(out@[a] == orig[pj]);
                        assert(out@[b] == before[ib]);
                        assert(!same_route(before[ib], orig[pj]));
                    } else {
                        assert(out@[b] == orig[pj]);
                        assert(out@[a] == before[ia]);
                        assert(!same_route(before[ia], orig[pj]));
                    }
                }
                assert forall|i: int, j: int|
                    0 <= i < out@.len() && orig.len() - rev@.len() <= j < orig.len() implies !same_route(
                    #[trigger] out@[i],
                    #[trigger] orig[j],
                ) by {
                    if i == pos {
                        assert(out@[i] == orig[pj]);
                        assert(!same_route(orig[pj], orig[j]));
                    } else if i < pos {
                        assert(out@[i] == before[i]);
                    } else {
                        assert(out@[i] == before[i - 1]);
                    }
                }
            }
            assert forall|a: int, b: int|
                #![trigger out@[a], out@[b]]
                0 <= a < b < out@.len() implies out@[a].total_weight
                <= out@[b].total_weight by {
                if b < pos {
                } else if b == pos {
                    if pos > 0 {
                        assert(before[pos - 1].total_weight <= w);
                        assert(before[a].total_weight <= before[pos - 1].total_weight);
                    }
                } else if a < pos {
                    assert(out@[b] == before[b - 1]);
                    assert(before[b - 1].total_weight > w);
                } else if a == pos {
                    assert(out@[b] == before[b - 1]);
                } else {
                    assert(out@[a] == before[a - 1]);
                    assert(out@[b] == before[b - 1]);
                }
            }
            assert forall|i: int| 0 <= i < out@.len() implies orig.contains(#[trigger] out@[i]) by {
                if i < pos {
                    assert(out@[i] == before[i]);
                    assert(orig.contains(before[i]));
                } else if i == pos {
                    assert(out@[i] == orig[pj]);
                } else {
                    assert(out@[i] == before[i - 1]);
                    assert(orig.contains(before[i - 1]));
                }
            }
            assert forall|j: int| 0 <= j < orig.len() - rev@.len() implies out@.contains(#[trigger] orig[j]) by {
                if j == pj {
                    assert(out@[pos as int] == orig[j]);
                } else {
                    let w = choose|w: int| 0 <= w < before.len() && before[w] == orig[j];
                    if w < pos {
                        assert(out@[w] == orig[j]);
                    } else {
                        assert(out@[w + 1] == orig[j]);
                    }
                }
            }
        }
    }
    assert(orig.len() - rev@.len() == orig.len());
    out
}

/// Enumerates simple paths from any of `sources` to any of `targets`, with at
/// most `max_depth` nodes each and at most `max_paths` in all, lightest first.
pub fn enumerate_all_paths(
    graph: &InMemoryGraph,
    sources: &Vec<usize>,
    targets: &Vec<usize>,
    max_depth: usize,
    max_paths: usize,
) -> (r: Vec<RawPath>)
    requires
        graph.wf(),
        forall|i: int| 0 <= i < sources@.len() ==> #[trigger] sources@[i] < graph.nodes.len(),
    ensures
        r@.len() <= max_paths,
        sorted_by_weight(r@),
        forall|i: int|
            0 <= i < r@.len() ==> is_found_path(
                *graph,
                sources@,
                targets@,
                max_depth,
                #[trigger] r@[i],
            ),
        r@.len() < max_paths ==> forall|ns: Seq<usize>, es: Seq<(usize, usize)>|
            #[trigger] is_candidate(*graph, sources@, targets@, max_depth, ns, es) ==> reported(
                r@,
                ns,
                es,
            ),
        sources@.no_duplicates() ==> no_repeats(r@, 0, r@.len() as int),
        sources@.no_duplicates() ==> forall|a: int, b: int|
            0 <= a < b < r@.len() && (#[trigger] r@[a]).total_weight == (#[trigger] r@[b]).total_weight
                ==> search_precedes(sources@, r@[a], r@[b]),
{
    let n = graph.nodes.len();
    let mut all_paths: Vec<RawPath> = Vec::new();
    let mut s: usize = 0;
    while s < sources.len()
        invariant
            graph.wf(),
            n == graph.nodes@.len(),
            forall|i: int| 0 <= i < sources@.len() ==> #[trigger] sources@[i] < graph.nodes.len(),
            s <= sources@.len(),
            all_paths@.len() <= max_paths,
            forall|i: int|
                0 <= i < all_paths@.len() ==> is_found_path(
                    *graph,
                    sources@,
                    targets@,
                    max_depth,
                    #[trigger] all_paths@[i],
                ),
            all_paths@.len() < max_paths ==> forall|ns: Seq<usize>, es: Seq<(usize, usize)>|
                #[trigger] is_candidate(*graph, sources@, targets@, max_depth, ns, es) && (exists|
                    q: int,
                | 0 <= q < s && sources@[q] == ns[0]) ==> reported(all_paths@, ns, es),
            forall|i: int|
                0 <= i < all_paths@.len() ==> exists|q: int|
                    0 <= q < s && sources@[q] == (#[trigger] all_paths@[i]).node_indices@[0],
            sources@.no_duplicates() ==> no_repeats(all_paths@, 0, all_paths@.len() as int),
            sources@.no_duplicates() ==> forall|a: int, b: int|
                0 <= a < b < all_paths@.len() ==> search_precedes(
                    sources@,
                    #[trigger] all_paths@[a],
                    #[trigger] all_paths@[b],
                ),
        ensures
            all_paths@.len() < max_paths ==> s == sources@.len(),
        decreases sources@.len() - s,
    {
        if all_paths.len() >= max_paths {
            break;
        }
        let source = sources[s];
        let mut path_nodes: Vec<usize> = Vec::new();
        path_nodes.push(source);
        let mut path_edges: Vec<(usize, usize)> = Vec::new();
        proof {
            assert(sources@.contains(path_nodes@[0])) by {
                assert(sources@[s as int] == path_nodes@[0]);
            }
            assert(path_edges@.len() == 0);
        }
        let ghost before = all_paths@;
        let ghost start_nodes = path_nodes@;
        let ghost start_edges = path_edges@;
        dfs_extend(
            graph,
            sources,
            targets,
            max_depth,
            max_paths,
            &mut path_nodes,
            &mut path_edges,
            1,
            0,
            &mut all_paths,
        );
        proof {
            assert forall|i: int|
                0 <= i < all_paths@.len() implies exists|q: int|
                    0 <= q < s + 1 && sources@[q] == (#[trigger] all_paths@[i]).node_indices@[0] by {
                if i < before.len() {
                    assert(all_paths@[i] == before[i]);
                } else {
                    assert(all_paths@[i].node_indices@.take(1)[0] == start_nodes[0]);
                }
            }
            if sources@.no_duplicates() {
                assert forall|a: int, b: int| 0 <= a < b < all_paths@.len() implies search_precedes(
                    sources@,
                    #[trigger] all_paths@[a],
                    #[trigger] all_paths@[b],
                ) by {
                    if b < before.len() {
                        assert(all_paths@[a] == before[a]);
                        assert(all_paths@[b] == before[b]);
                    } else if a < before.len() {
                        assert(all_paths@[a] == before[a]);
                        let q = choose|q: int| 0 <= q < s && sources@[q] == before[a].node_indices@[0];
                        assert(all_paths@[b].node_indices@.take(1)[0] == start_nodes[0]);
                        assert(sources@[q] != sources@[s as int]);
                        lemma_position_of(sources@, q);
                        lemma_position_of(sources@, s as int);
                    }
                }
                assert forall|a: int, b: int| 0 <= a < b < all_paths@.len() implies !same_route(
                    #[trigger] all_paths@[a],
                    #[trigger] all_paths@[b],
                ) by {
                    if b < before.len() {
                        assert(all_paths@[a] == before[a]);
                        assert(all_paths@[b] == before[b]);
                    } else if a < before.len() {
                        assert(all_paths@[a] == before[a]);
                        let q = choose|q: int| 0 <= q < s && sources@[q] == before[a].node_indices@[0];
                        assert(all_paths@[b].node_indices@.take(1)[0] == start_nodes[0]);
                        assert(sources@[q] != sources@[s as int]);
                    }
                }
            }
            if all_paths@.len() < max_paths {
                assert forall|ns: Seq<usize>, es: Seq<(usize, usize)>|
                    #[trigger] is_candidate(*graph, sources@, targets@, max_depth, ns, es) && (exists|
                        q: int,
                    | 0 <= q < s + 1 && sources@[q] == ns[0]) implies reported(all_paths@, ns, es) by {
                    let q = choose|q: int| 0 <= q < s + 1 && sources@[q] == ns[0];
                    if q == s {
                        assert(ns.take(1) =~= start_nodes);
                        assert(es.take(0) =~= start_edges);
                    } else {
                        assert(reported(before, ns, es));
                        let w = choose|w: int|
                            0 <= w < before.len() && before[w].node_indices@ == ns && before[w].edges@
                                == es;
                        assert(all_paths@[w] == before[w]);
                    }
                }
            }
        }
        s += 1;
    }
    let r = sort_by_weight(all_paths);
    proof {
        if sources@.no_duplicates() {
            assert forall|a: int, b: int|
                0 <= a < b < r@.len() && (#[trigger] r@[a]).total_weight == (#[trigger] r@[b]).total_weight
                    implies search_precedes(sources@, r@[a], r@[b]) by {
                let (ia, ib) = choose|ia: int, ib: int|
                    0 <= ia < ib < all_paths@.len() && all_paths@[ia] == r@[a] && all_paths@[ib] == r@[b];
                assert(search_precedes(sources@, all_paths@[ia], all_paths@[ib]));
            }
        }
        assert forall|i: int| 0 <= i < r@.len() implies is_found_path(
            *graph,
            sources@,
            targets@,
            max_depth,
            #[trigger] r@[i],
        ) by {
            assert(all_paths@.contains(r@[i]));
            let j = choose|j: int| 0 <= j < all_paths@.len() && all_paths@[j] == r@[i];
            assert(is_found_path(*graph, sources@, targets@, max_depth, all_paths@[j]));
        }
        if r@.len() < max_paths {
            assert forall|ns: Seq<usize>, es: Seq<(usize, usize)>|
                #[trigger] is_candidate(*graph, sources@, targets@, max_depth, ns, es) implies reported(
                r@,
                ns,
                es,
            ) by {
                let q = choose|q: int| 0 <= q < sources@.len() && sources@[q] == ns[0];
                assert(reported(all_paths@, ns, es));
                let w = choose|w: int|
                    0 <= w < all_paths@.len() && all_paths@[w].node_indices@ == ns
                        && all_paths@[w].edges@ == es;
                assert(r@.contains(all_paths@[w]));
                let v = choose|v: int| 0 <= v < r@.len() && r@[v] == all_paths@[w];
            }
        }
    }
    r
}

/// `nodes`/`edges` is a walk in `g` from `s` to `t`.
pub open spec fn is_walk_between(
    g: InMemoryGraph,
    nodes: Seq<usize>,
    edges: Seq<(usize, usize)>,
    s: usize,
    t: usize,
) -> bool {
    is_walk(g, nodes, edges) && nodes[0] == s && nodes.last() == t
}

/// Prepending a step adds its cost.
pub proof fn lemma_walk_weight_prepend(g: InMemoryGraph, x: (usize, usize), s: Seq<(usize, usize)>)
    ensures
        walk_weight(g, seq![x] + s) == edge_weight(step_edge(g, x)) + walk_weight(g, s),
    decreases s.len(),
{
    let xs = seq![x] + s;
    assert(xs.len() > 0);
    if s.len() == 0 {
        assert(xs.drop_last() =~= Seq::<(usize, usize)>::empty());
        assert(xs.last() == x);
        assert(walk_weight(g, xs) == walk_weight(g, xs.drop_last()) + edge_weight(
            step_edge(g, xs.last()),
        ));
        assert(walk_weight(g, Seq::<(usize, usize)>::empty()) == 0);
    } else {
        assert(xs.drop_last() =~= seq![x] + s.drop_last());
        assert(xs.last() == s.last());
        lemma_walk_weight_prepend(g, x, s.drop_last());
        assert(walk_weight(g, xs) == walk_weight(g, xs.drop_last()) + edge_weight(
            step_edge(g, xs.last()),
        ));
        assert(walk_weight(g, s) == walk_weight(g, s.drop_last()) + edge_weight(
            step_edge(g, s.last()),
        ));
    }
}

/// Tentative-distance state of the shortest-path search, as sequences.
pub open spec fn relaxed_from_settled(
    g: InMemoryGraph,
    dist: Seq<u128>,
    reached: Seq<bool>,
    settled: Seq<bool>,
) -> bool {
    forall|u: int, k: int|
        0 <= u < g.nodes.len() && settled[u] && 0 <= k < g.adjacency[u].len() ==> {
            let e = #[trigger] g.adjacency[u][k];
            &&& reached[e.target_index as int]
            &&& dist[e.target_index as int] <= dist[u] + edge_weight(e)
        }
}

/// Any walk from the source meets a reached node, no later than its end and
/// before any unsettled one, whose distance is at most the walk's cost.
proof fn lemma_walk_meets_frontier(
    g: InMemoryGraph,
    dist: Seq<u128>,
    reached: Seq<bool>,
    settled: Seq<bool>,
    source: usize,
    nodes: Seq<usize>,
    edges: Seq<(usize, usize)>,
)
    requires
        g.wf(),
        dist.len() == g.nodes.len(),
        reached.len() == g.nodes.len(),
        settled.len() == g.nodes.len(),
        reached[source as int],
        dist[source as int] == 0,
        relaxed_from_settled(g, dist, reached, settled),
        is_walk(g, nodes, edges),
        nodes[0] == source,
    ensures
        exists|m: int|
            0 <= m < nodes.len() && reached[nodes[m] as int] && dist[nodes[m] as int]
                <= walk_weight(g, edges) && (m == nodes.len() - 1 || !settled[#[trigger] nodes[m] as int]),
    decreases edges.len(),
{
    if edges.len() == 0 {
        assert(reached[nodes[0] as int] && dist[nodes[0] as int] <= walk_weight(g, edges));
    } else {
        let ns = nodes.drop_last();
        let es = edges.drop_last();
        assert(is_walk(g, ns, es)) by {
            assert forall|i: int| 0 <= i < es.len() implies {
                &&& (#[trigger] es[i]).0 == ns[i]
                &&& es[i].1 < g.adjacency[ns[i] as int].len()
                &&& step_edge(g, es[i]).target_index == ns[i + 1]
            } by {
                assert(es[i] == edges[i]);
            }
        }
        lemma_walk_meets_frontier(g, dist, reached, settled, source, ns, es);
        let m = choose|m: int|
            0 <= m < ns.len() && reached[ns[m] as int] && dist[ns[m] as int] <= walk_weight(g, es)
                && (m == ns.len() - 1 || !settled[#[trigger] ns[m] as int]);
        let last = edges.last();
        assert(edges[edges.len() - 1] == last);
        let e = step_edge(g, last);
        assert(e.exploitability <= SCALE);
        assert(walk_weight(g, edges) == walk_weight(g, es) + edge_weight(e));
        if !settled[ns[m] as int] {
            assert(nodes[m] == ns[m]);
        } else {
            let x = ns[m];
            assert(m == ns.len() - 1);
            assert(last.0 == x);
            assert(g.adjacency[x as int][last.1 as int] == e);
            assert(e.target_index == nodes[nodes.len() - 1]);
            let mm = nodes.len() - 1;
            assert(reached[nodes[mm] as int] && dist[nodes[mm] as int] <= walk_weight(g, edges));
        }
    }
}

/// Index of the reached, unsettled node of least distance (lowest index among
/// equals), or `dist.len()` when there is none.
fn select_closest(dist: &Vec<u128>, reached: &Vec<bool>, settled: &Vec<bool>) -> (best: usize)
    requires
        dist@.len() == reached@.len(),
        dist@.len() == settled@.len(),
    ensures
        best <= dist@.len(),
        best == dist@.len() ==> forall|x: int|
            0 <= x < dist@.len() && #[trigger] reached@[x] ==> settled@[x],
        best < dist@.len() ==> reached@[best as int] && !settled@[best as int] && forall|x: int|
            0 <= x < dist@.len() && #[trigger] reached@[x] && !settled@[x] ==> dist@[best as int]
                <= dist@[x],
{
    let n = dist.len();
    let mut best: usize = n;
    let mut j: usize = 0;
    while j < n
        invariant
            n == dist@.len(),
            n == reached@.len(),
            n == settled@.len(),
            j <= n,
            best == n || (best < j && reached@[best as int] && !settled@[best as int]),
            best == n ==> forall|x: int| 0 <= x < j && #[trigger] reached@[x] ==> settled@[x],
            best < n ==> forall|x: int|
                0 <= x < j && #[trigger] reached@[x] && !settled@[x] ==> dist@[best as int]
                    <= dist@[x],
        decreases n - j,
    {
        if reached[j] && !settled[j] && (best == n || dist[j] < dist[best]) {
            best = j;
        }
        j += 1;
    }
    best
}

/// An entry whose distance was lowered through edge `k` of the settled node `u`.
pub open spec fn lowered_via(
    g: InMemoryGraph,
    u: usize,
    x: int,
    dist: Seq<u128>,
    prev: Seq<Option<(usize, usize)>>,
) -> bool {
    &&& prev[x] is Some
    &&& prev[x]->Some_0.0 == u
    &&& prev[x]->Some_0.1 < g.adjacency[u as int].len()
    &&& g.adjacency[u as int][prev[x]->Some_0.1 as int].target_index == x
    &&& dist[x] == dist[u as int] + edge_weight(g.adjacency[u as int][prev[x]->Some_0.1 as int])
}

/// Entry `x` is as it was, or was lowered through an edge of the settled node `u`.
pub open spec fn kept_or_lowered(
    g: InMemoryGraph,
    u: usize,
    settled: Seq<bool>,
    dist0: Seq<u128>,
    reached0: Seq<bool>,
    prev0: Seq<Option<(usize, usize)>>,
    dist: Seq<u128>,
    reached: Seq<bool>,
    prev: Seq<Option<(usize, usize)>>,
    x: int,
) -> bool {
    ||| (reached[x] == reached0[x] && dist[x] == dist0[x] && prev[x] == prev0[x])
    ||| (reached[x] && !settled[x] && lowered_via(g, u, x, dist, prev))
}

/// Relaxes the outgoing edges of the settled node `u` towards unsettled targets.
fn relax_edges(
    graph: &InMemoryGraph,
    u: usize,
    settled: &Vec<bool>,
    dist: &mut Vec<u128>,
    reached: &mut Vec<bool>,
    prev: &mut Vec<Option<(usize, usize)>>,
)
    requires
        graph.wf(),
        u < graph.nodes.len(),
        settled@.len() == graph.nodes.len(),
        old(dist)@.len() == graph.nodes.len(),
        old(reached)@.len() == graph.nodes.len(),
        old(prev)@.len() == graph.nodes.len(),
        settled@[u as int],
        old(reached)@[u as int],
        old(dist)@[u as int] <= usize::MAX * SCALE,
        forall|x: int| 0 <= x < graph.nodes.len() && #[trigger] settled@[x] ==> old(reached)@[x],
    ensures
        final(dist)@.len() == graph.nodes.len(),
        final(reached)@.len() == graph.nodes.len(),
        final(prev)@.len() == graph.nodes.len(),
        final(dist)@[u as int] == old(dist)@[u as int],
        forall|x: int|
            0 <= x < graph.nodes.len() ==> #[trigger] kept_or_lowered(
                *graph,
                u,
                settled@,
                old(dist)@,
                old(reached)@,
                old(prev)@,
                final(dist)@,
                final(reached)@,
                final(prev)@,
                x,
            ),
        forall|x: int|
            0 <= x < graph.nodes.len() && #[trigger] old(reached)@[x] ==> final(reached)@[x] && final(dist)@[x]
                <= old(dist)@[x],
        forall|k: int|
            0 <= k < graph.adjacency[u as int].len() ==> {
                let e = #[trigger] graph.adjacency[u as int][k];
                &&& final(reached)@[e.target_index as int]
                &&& (settled@[e.target_index as int] || final(dist)@[e.target_index as int]
                    <= final(dist)@[u as int] + edge_weight(e))
            },
{
    let ghost dist0 = dist@;
    let ghost reached0 = reached@;
    let ghost prev0 = prev@;
    let row = &graph.adjacency[u];
    let mut k: usize = 0;
    while k < row.len()
        invariant
            graph.wf(),
            row == graph.adjacency[u as int],
            u < graph.nodes.len(),
            k <= row@.len(),
            settled@.len() == graph.nodes.len(),
            dist@.len() == graph.nodes.len(),
            reached@.len() == graph.nodes.len(),
            prev@.len() == graph.nodes.len(),
            settled@[u as int],
            dist@[u as int] == dist0[u as int],
            dist0[u as int] <= usize::MAX * SCALE,
            forall|x: int| 0 <= x < graph.nodes.len() && #[trigger] settled@[x] ==> reached0[x],
            dist0.len() == graph.nodes.len(),
            reached0.len() == graph.nodes.len(),
            prev0.len() == graph.nodes.len(),
            forall|x: int|
                0 <= x < graph.nodes.len() ==> #[trigger] kept_or_lowered(
                    *graph,
                    u,
                    settled@,
                    dist0,
                    reached0,
                    prev0,
                    dist@,
                    reached@,
                    prev@,
                    x,
                ),
            forall|x: int|
                0 <= x < graph.nodes.len() && #[trigger] reached0[x] ==> reached@[x]
                    && dist@[x] <= dist0[x],
            forall|kk: int|
                0 <= kk < k ==> {
                    let e = #[trigger] graph.adjacency[u as int][kk];
                    &&& reached@[e.target_index as int]
                    &&& (settled@[e.target_index as int] || dist@[e.target_index as int]
                        <= dist@[u as int] + edge_weight(e))
                },
        decreases row@.len() - k,
    {
        let edge = &row[k];
        let t = edge.target_index;
        let nd = dist[u] + (SCALE - edge.exploitability) as u128;
        if !settled[t] && (!reached[t] || nd < dist[t]) {
            let ghost before_dist = dist@;
            let ghost before_prev = prev@;
            let ghost before_reached = reached@;
            dist.set(t, nd);
            reached.set(t, true);
            prev.set(t, Some((u, k)));
            proof {
                assert forall|x: int| 0 <= x < graph.nodes.len() implies #[trigger] kept_or_lowered(
                    *graph,
                    u,
                    settled@,
                    dist0,
                    reached0,
                    prev0,
                    dist@,
                    reached@,
                    prev@,
                    x,
                ) by {
                    assert(kept_or_lowered(*graph, u, settled@, dist0, reached0, prev0, before_dist, before_reached, before_prev, x));
                    assert(u != t);
                    assert(dist@[u as int] == before_dist[u as int]);
                    if x == t as int {
                        assert(prev@[x] == Some((u, k)));
                        assert(graph.adjacency[u as int][k as int] == *edge);
                        assert(dist@[x] == nd);
                        assert(lowered_via(*graph, u, x, dist@, prev@));
                    }
                    if x != t as int {
                        assert(dist@[x] == before_dist[x]);
                        assert(prev@[x] == before_prev[x]);
                        assert(reached@[x] == before_reached[x]);
                        if !(reached@[x] == reached0[x] && dist@[x] == dist0[x]
                            && prev@[x] == prev0[x]) {
                            assert(lowered_via(*graph, u, x, before_dist, before_prev));
                            assert(before_prev[x]->Some_0.0 == u);
                        }
                    }
                }
                assert forall|kk: int| 0 <= kk < k + 1 implies {
                    let e = #[trigger] graph.adjacency[u as int][kk];
                    &&& reached@[e.target_index as int]
                    &&& (settled@[e.target_index as int] || dist@[e.target_index as int]
                        <= dist@[u as int] + edge_weight(e))
                } by {
                    let e = graph.adjacency[u as int][kk];
                    if kk < k && e.target_index != t {
                        assert(dist@[e.target_index as int] == before_dist[e.target_index as int]);
                    } else if kk < k {
                        assert(before_reached[t as int]);
                        assert(before_dist[t as int] <= before_dist[u as int] + edge_weight(e));
                    }
                }
            }
        }
        k += 1;
    }
}

/// The cheapest path from `source` to `target` (Dijkstra's algorithm, settling
/// at each round the unsettled node of least tentative distance, lowest index
/// first), or `None` when `target` cannot be reached.
pub fn shortest_weighted_path(graph: &InMemoryGraph, source: usize, target: usize) -> (r: Option<
    RawPath,
>)
    requires
        graph.wf(),
        source < graph.nodes.len(),
        target < graph.nodes.len(),
    ensures
        match r {
            Some(p) => {
                &&& is_walk_between(*graph, p.node_indices@, p.edges@, source, target)
                &&& p.node_indices@.no_duplicates()
                &&& p.total_weight == walk_weight(*graph, p.edges@)
                &&& forall|ns: Seq<usize>, es: Seq<(usize, usize)>|
                    #[trigger] is_walk_between(*graph, ns, es, source, target) ==> p.total_weight
                        <= walk_weight(*graph, es)
            },
            None => forall|ns: Seq<usize>, es: Seq<(usize, usize)>|
                !(#[trigger] is_walk_between(*graph, ns, es, source, target)),
        },
        source == target ==> r is Some && r->Some_0.node_indices@ == seq![source],
{
    let n = graph.nodes.len();
    let mut dist: Vec<u128> = Vec::new();
    let mut reached: Vec<bool> = Vec::new();
    let mut settled: Vec<bool> = Vec::new();
    let mut prev: Vec<Option<(usize, usize)>> = Vec::new();
    let mut v: usize = 0;
    while v < n
        invariant
            v <= n,
            dist@.len() == v,
            reached@.len() == v,
            settled@.len() == v,
            prev@.len() == v,
            forall|k: int| 0 <= k < v ==> !(#[trigger] reached@[k]),
            forall|k: int| 0 <= k < v ==> !(#[trigger] settled@[k]),
            forall|k: int| 0 <= k < v ==> (#[trigger] prev@[k]) is None,
            forall|k: int| 0 <= k < v ==> #[trigger] dist@[k] == 0,
        decreases n - v,
    {
        dist.push(0);
        reached.push(false);
        settled.push(false);
        prev.push(None);
        v += 1;
    }
    reached.set(source, true);
    let mut count: usize = 0;
    let ghost mut order: Seq<usize> = Seq::empty();
    let ghost mut rank: Seq<int> = Seq::new(n as nat, |i: int| 0int);
    loop
        invariant_except_break
            !settled@[target as int],
            relaxed_from_settled(*graph, dist@, reached@, settled@),
        invariant
            graph.wf(),
            n == graph.nodes.len(),
            source < n,
            target < n,
            dist@.len() == n,
            reached@.len() == n,
            settled@.len() == n,
            prev@.len() == n,
            rank.len() == n,
            order.len() == count,
            order.no_duplicates(),
            forall|k: int| 0 <= k < order.len() ==> #[trigger] order[k] < n,
            forall|k: int| 0 <= k < order.len() ==> settled@[#[trigger] order[k] as int],
            forall|x: int|
                0 <= x < n && #[trigger] settled@[x] ==> 0 <= rank[x] < count && order[rank[x]]
                    == x as usize,
            forall|x: int| 0 <= x < n && #[trigger] settled@[x] ==> reached@[x],
            count > 0 ==> settled@[source as int],
            count == 0 ==> forall|x: int| 0 <= x < n && #[trigger] reached@[x] ==> x == source,
            reached@[source as int],
            dist@[source as int] == 0,
            prev@[source as int] is None,
            forall|x: int|
                0 <= x < n && #[trigger] reached@[x] && x != source ==> {
                    &&& prev@[x] is Some
                    &&& prev@[x]->Some_0.0 < n
                    &&& settled@[prev@[x]->Some_0.0 as int]
                    &&& lowered_via(*graph, prev@[x]->Some_0.0, x, dist@, prev@)
                    &&& settled@[x] ==> rank[prev@[x]->Some_0.0 as int] < rank[x]
                },
            forall|x: int| 0 <= x < n && #[trigger] reached@[x] ==> dist@[x] <= count * SCALE,
            forall|a: int, b: int|
                0 <= a < n && 0 <= b < n && #[trigger] settled@[a] && #[trigger] reached@[b]
                    && !settled@[b] ==> dist@[a] <= dist@[b],
            forall|x: int, ns: Seq<usize>, es: Seq<(usize, usize)>|
                0 <= x < n && #[trigger] settled@[x] && #[trigger] is_walk_between(
                    *graph,
                    ns,
                    es,
                    source,
                    x as usize,
                ) ==> dist@[x] <= walk_weight(*graph, es),
        ensures
            dist@.len() == n,
            reached@.len() == n,
            settled@.len() == n,
            prev@.len() == n,
            rank.len() == n,
            reached@[source as int],
            dist@[source as int] == 0,
            prev@[source as int] is None,
            !settled@[target as int] ==> relaxed_from_settled(*graph, dist@, reached@, settled@),
            forall|x: int| 0 <= x < n && #[trigger] settled@[x] ==> reached@[x],
            forall|x: int| 0 <= x < n && #[trigger] settled@[x] ==> 0 <= rank[x],
            forall|x: int|
                0 <= x < n && #[trigger] reached@[x] && x != source ==> {
                    &&& prev@[x] is Some
                    &&& prev@[x]->Some_0.0 < n
                    &&& settled@[prev@[x]->Some_0.0 as int]
                    &&& lowered_via(*graph, prev@[x]->Some_0.0, x, dist@, prev@)
                    &&& settled@[x] ==> rank[prev@[x]->Some_0.0 as int] < rank[x]
                },
            forall|x: int, ns: Seq<usize>, es: Seq<(usize, usize)>|
                0 <= x < n && #[trigger] settled@[x] && #[trigger] is_walk_between(
                    *graph,
                    ns,
                    es,
                    source,
                    x as usize,
                ) ==> dist@[x] <= walk_weight(*graph, es),
            settled@[target as int] || forall|x: int|
                0 <= x < n && #[trigger] reached@[x] ==> settled@[x],
        decreases n - count,
    {
        proof {
            lemma_distinct_indices_bounded(order, n as int);
        }
        let u = select_closest(&dist, &reached, &settled);
        if u == n {
            break;
        }
        proof {
            assert(!order.contains(u)) by {
                if order.contains(u) {
                    let k = choose|k: int| 0 <= k < order.len() && order[k] == u;
                    assert(settled@[order[k] as int]);
                }
            }
            assert forall|ns: Seq<usize>, es: Seq<(usize, usize)>|
                #[trigger] is_walk_between(*graph, ns, es, source, u) implies dist@[u as int]
                <= walk_weight(*graph, es) by {
                lemma_walk_meets_frontier(*graph, dist@, reached@, settled@, source, ns, es);
                let m = choose|m: int|
                    0 <= m < ns.len() && reached@[ns[m] as int] && dist@[ns[m] as int]
                        <= walk_weight(*graph, es) && (m == ns.len() - 1 || !settled@[#[trigger] ns[m] as int]);
                assert(ns[m] < n);
            }
            if count == 0 {
                assert(u == source);
            }
        }
        let ghost old_settled = settled@;
        let ghost old_dist = dist@;
        let ghost old_reached = reached@;
        let ghost old_prev = prev@;
        let ghost old_rank = rank;
        let ghost old_count = count;
        settled.set(u, true);
        proof {
            order = order.push(u);
            rank = rank.update(u as int, count as int);
            assert forall|k: int| 0 <= k < order.len() implies #[trigger] order[k] < n by {}
            lemma_distinct_indices_bounded(order, n as int);
            assert forall|k: int| 0 <= k < order.len() implies settled@[#[trigger] order[k] as int] by {
                if k < count {
                    assert(old_settled[order[k] as int]);
                }
            }
        }
        count = count + 1;
        if u == target {
            proof {
                assert forall|x: int, ns: Seq<usize>, es: Seq<(usize, usize)>|
                    0 <= x < n && #[trigger] settled@[x] && #[trigger] is_walk_between(
                        *graph,
                        ns,
                        es,
                        source,
                        x as usize,
                    ) implies dist@[x] <= walk_weight(*graph, es) by {
                    if x != u as int {
                        assert(old_settled[x]);
                    }
                }
                assert forall|x: int|
                    0 <= x < n && #[trigger] reached@[x] && x != source implies {
                        &&& prev@[x] is Some
                        &&& prev@[x]->Some_0.0 < n
                        &&& settled@[prev@[x]->Some_0.0 as int]
                        &&& lowered_via(*graph, prev@[x]->Some_0.0, x, dist@, prev@)
                        &&& settled@[x] ==> rank[prev@[x]->Some_0.0 as int] < rank[x]
                    } by {
                    let p = prev@[x]->Some_0.0;
                    assert(old_reached[x]);
                    assert(old_settled[p as int]);
                    assert(p != u);
                    assert(rank[p as int] == old_rank[p as int]);
                    if x == u as int {
                        assert(old_rank[p as int] < old_count);
                    } else if settled@[x] {
                        assert(old_settled[x]);
                        assert(rank[x] == old_rank[x]);
                    }
                }
            }
            break;
        }
        proof {
            assert(dist@[u as int] <= usize::MAX * SCALE) by {
                assert(dist@[u as int] <= old_count * SCALE);
            }
        }
        relax_edges(graph, u, &settled, &mut dist, &mut reached, &mut prev);
        proof {
            assert(settled@[source as int]);
            assert(kept_or_lowered(*graph, u, settled@, old_dist, old_reached, old_prev, dist@, reached@, prev@, source as int));
            assert(reached@[source as int]);
            assert forall|x: int|
                0 <= x < n && #[trigger] reached@[x] && x != source implies {
                    &&& prev@[x] is Some
                    &&& prev@[x]->Some_0.0 < n
                    &&& settled@[prev@[x]->Some_0.0 as int]
                    &&& lowered_via(*graph, prev@[x]->Some_0.0, x, dist@, prev@)
                    &&& settled@[x] ==> rank[prev@[x]->Some_0.0 as int] < rank[x]
                } by {
                assert(kept_or_lowered(*graph, u, settled@, old_dist, old_reached, old_prev, dist@, reached@, prev@, x));
                if reached@[x] == old_reached[x] && dist@[x] == old_dist[x] && prev@[x] == old_prev[x] {
                    let p = prev@[x]->Some_0.0;
                    assert(kept_or_lowered(*graph, u, settled@, old_dist, old_reached, old_prev, dist@, reached@, prev@, p as int));
                    assert(old_settled[p as int]);
                    assert(dist@[p as int] == old_dist[p as int]) by {
                        assert(settled@[p as int]);
                        if !(reached@[p as int] == old_reached[p as int] && dist@[p as int]
                            == old_dist[p as int] && prev@[p as int] == old_prev[p as int]) {
                            assert(!settled@[p as int]);
                        }
                    }
                    if x == u as int {
                        assert(old_rank[p as int] < old_count);
                    }
                }
            }
            assert forall|x: int| 0 <= x < n && #[trigger] reached@[x] implies dist@[x] <= count * SCALE by {
                assert(kept_or_lowered(*graph, u, settled@, old_dist, old_reached, old_prev, dist@, reached@, prev@, x));
                if !(reached@[x] == old_reached[x] && dist@[x] == old_dist[x] && prev@[x] == old_prev[x]) {
                    assert(lowered_via(*graph, u, x, dist@, prev@));
                }
            }
            assert(relaxed_from_settled(*graph, dist@, reached@, settled@)) by {
                assert forall|a: int, kk: int|
                    0 <= a < n && settled@[a] && 0 <= kk < graph.adjacency[a].len() implies {
                        let e = #[trigger] graph.adjacency[a][kk];
                        &&& reached@[e.target_index as int]
                        &&& dist@[e.target_index as int] <= dist@[a] + edge_weight(e)
                    } by {
                    let e = graph.adjacency[a][kk];
                    let t = e.target_index as int;
                    assert(kept_or_lowered(*graph, u, settled@, old_dist, old_reached, old_prev, dist@, reached@, prev@, t));
                    assert(kept_or_lowered(*graph, u, settled@, old_dist, old_reached, old_prev, dist@, reached@, prev@, a));
                    if a == u as int {
                        if settled@[t] && t != a {
                            assert(old_settled[t]);
                            assert(old_dist[t] <= old_dist[u as int]);
                            assert(dist@[t] == old_dist[t]) by {
                                if !(reached@[t] == old_reached[t] && dist@[t] == old_dist[t]
                                    && prev@[t] == old_prev[t]) {
                                    assert(!settled@[t]);
                                }
                            }
                        }
                    } else {
                        assert(old_settled[a]);
                        assert(old_reached[t]);
                        assert(dist@[a] == old_dist[a]) by {
                            if !(reached@[a] == old_reached[a] && dist@[a] == old_dist[a]
                                && prev@[a] == old_prev[a]) {
                                assert(!settled@[a]);
                            }
                        }
                    }
                }
            }
            assert forall|a: int, b: int|
                0 <= a < n && 0 <= b < n && #[trigger] settled@[a] && #[trigger] reached@[b]
                    && !settled@[b] implies dist@[a] <= dist@[b] by {
                assert(kept_or_lowered(*graph, u, settled@, old_dist, old_reached, old_prev, dist@, reached@, prev@, a));
                assert(kept_or_lowered(*graph, u, settled@, old_dist, old_reached, old_prev, dist@, reached@, prev@, b));
                assert(dist@[a] == old_dist[a]) by {
                    if !(reached@[a] == old_reached[a] && dist@[a] == old_dist[a] && prev@[a]
                        == old_prev[a]) {
                        assert(!settled@[a]);
                    }
                }
                if a != u as int {
                    assert(old_settled[a]);
                    assert(old_dist[a] <= old_dist[u as int]);
                }
                if reached@[b] == old_reached[b] && dist@[b] == old_dist[b] && prev@[b] == old_prev[b] {
                    assert(old_dist[u as int] <= old_dist[b]);
                } else {
                    assert(lowered_via(*graph, u, b, dist@, prev@));
                }
            }
            assert forall|x: int, ns: Seq<usize>, es: Seq<(usize, usize)>|
                0 <= x < n && #[trigger] settled@[x] && #[trigger] is_walk_between(
                    *graph,
                    ns,
                    es,
                    source,
                    x as usize,
                ) implies dist@[x] <= walk_weight(*graph, es) by {
                assert(kept_or_lowered(*graph, u, settled@, old_dist, old_reached, old_prev, dist@, reached@, prev@, x));
                assert(dist@[x] == old_dist[x]) by {
                    if !(reached@[x] == old_reached[x] && dist@[x] == old_dist[x] && prev@[x]
                        == old_prev[x]) {
                        assert(!settled@[x]);
                    }
                }
                if x != u as int {
                    assert(old_settled[x]);
                }
            }
        }
    }
    if !settled[target] {
        proof {
            assert forall|ns: Seq<usize>, es: Seq<(usize, usize)>|
                !(#[trigger] is_walk_between(*graph, ns, es, source, target)) by {
                if is_walk_between(*graph, ns, es, source, target) {
                    lemma_walk_meets_frontier(*graph, dist@, reached@, settled@, source, ns, es);
                    let m = choose|m: int|
                        0 <= m < ns.len() && reached@[ns[m] as int] && dist@[ns[m] as int]
                            <= walk_weight(*graph, es) && (m == ns.len() - 1 || !settled@[#[trigger] ns[m] as int]);
                    assert(ns[m] < n);
                    assert(settled@[ns[m] as int]);
                }
            }
        }
        return None;
    }
    let (nodes, edges) = trace_back(graph, source, target, &dist, &reached, &settled, &prev, Ghost(rank));
    Some(RawPath { node_indices: nodes, edges, total_weight: dist[target] })
}

/// Follows the parent pointers from `target` back to `source` and returns the
/// path in forward order.
#[verifier::rlimit(60)]
fn trace_back(
    graph: &InMemoryGraph,
    source: usize,
    target: usize,
    dist: &Vec<u128>,
    reached: &Vec<bool>,
    settled: &Vec<bool>,
    prev: &Vec<Option<(usize, usize)>>,
    rank: Ghost<Seq<int>>,
) -> (r: (Vec<usize>, Vec<(usize, usize)>))
    requires
        graph.wf(),
        source < graph.nodes.len(),
        target < graph.nodes.len(),
        dist@.len() == graph.nodes.len(),
        reached@.len() == graph.nodes.len(),
        settled@.len() == graph.nodes.len(),
        prev@.len() == graph.nodes.len(),
        rank@.len() == graph.nodes.len(),
        settled@[target as int],
        dist@[source as int] == 0,
        prev@[source as int] is None,
        forall|x: int| 0 <= x < graph.nodes.len() && #[trigger] settled@[x] ==> reached@[x],
        forall|x: int| 0 <= x < graph.nodes.len() && #[trigger] settled@[x] ==> 0 <= rank@[x],
        forall|x: int|
            0 <= x < graph.nodes.len() && #[trigger] reached@[x] && x != source ==> {
                &&& prev@[x] is Some
                &&& prev@[x]->Some_0.0 < graph.nodes.len()
                &&& settled@[prev@[x]->Some_0.0 as int]
                &&& lowered_via(*graph, prev@[x]->Some_0.0, x, dist@, prev@)
                &&& settled@[x] ==> rank@[prev@[x]->Some_0.0 as int] < rank@[x]
            },
    ensures
        is_walk_between(*graph, r.0@, r.1@, source, target),
        r.0@.no_duplicates(),
        walk_weight(*graph, r.1@) == dist@[target as int],
        source == target ==> r.0@ == seq![source],
{
    let n = graph.nodes.len();
    let mut rn: Vec<usize> = Vec::new();
    let mut re: Vec<(usize, usize)> = Vec::new();
    rn.push(target);
    let mut cur: usize = target;
    let ghost mut sn: Seq<usize> = seq![target];
    let ghost mut se: Seq<(usize, usize)> = Seq::empty();
    loop
        invariant
            graph.wf(),
            n == graph.nodes.len(),
            cur < n,
            source < n,
            target < n,
            dist@.len() == n,
            reached@.len() == n,
            settled@.len() == n,
            prev@.len() == n,
            rank@.len() == n,
            settled@[cur as int],
            dist@[source as int] == 0,
            prev@[source as int] is None,
            forall|x: int| 0 <= x < n && #[trigger] settled@[x] ==> reached@[x],
            forall|x: int| 0 <= x < n && #[trigger] settled@[x] ==> 0 <= rank@[x],
            forall|x: int|
                0 <= x < n && #[trigger] reached@[x] && x != source ==> {
                    &&& prev@[x] is Some
                    &&& prev@[x]->Some_0.0 < n
                    &&& settled@[prev@[x]->Some_0.0 as int]
                    &&& lowered_via(*graph, prev@[x]->Some_0.0, x, dist@, prev@)
                    &&& settled@[x] ==> rank@[prev@[x]->Some_0.0 as int] < rank@[x]
                },
            is_walk(*graph, sn, se),
            sn[0] == cur,
            sn.last() == target,
            forall|i: int| 0 <= i < sn.len() ==> settled@[#[trigger] sn[i] as int],
            forall|i: int, j: int| 0 <= i < j < sn.len() ==> rank@[sn[i] as int] < rank@[sn[j] as int],
            prev@[target as int] is None ==> cur == target && sn == seq![target],
            walk_weight(*graph, se) + dist@[cur as int] == dist@[target as int],
            rn@.len() == sn.len(),
            re@.len() == se.len(),
            forall|i: int| 0 <= i < rn@.len() ==> #[trigger] rn@[i] == sn[sn.len() - 1 - i],
            forall|i: int| 0 <= i < re@.len() ==> #[trigger] re@[i] == se[se.len() - 1 - i],
        ensures
            is_walk(*graph, sn, se),
            sn[0] == source,
            sn.last() == target,
            sn.no_duplicates(),
            source == target ==> sn == seq![target],
            walk_weight(*graph, se) == dist@[target as int],
            rn@.len() == sn.len(),
            re@.len() == se.len(),
            forall|i: int| 0 <= i < rn@.len() ==> #[trigger] rn@[i] == sn[sn.len() - 1 - i],
            forall|i: int| 0 <= i < re@.len() ==> #[trigger] re@[i] == se[se.len() - 1 - i],
        decreases rank@[cur as int],
    {
        match prev[cur] {
            None => {
                proof {
                    if cur != source {
                        assert(reached@[cur as int]);
                    }
                    assert forall|a: int, b: int|
                        0 <= a < sn.len() && 0 <= b < sn.len() && a != b implies sn[a] != sn[b] by {
                        if a < b {
                            assert(rank@[sn[a] as int] < rank@[sn[b] as int]);
                        } else {
                            assert(rank@[sn[b] as int] < rank@[sn[a] as int]);
                        }
                    }
                }
                break;
            },
            Some(step) => {
                let (p, pk) = step;
                proof {
                    assert(cur != source);
                    assert(reached@[cur as int]);
                    let nsn = seq![p] + sn;
                    let nse = seq![(p, pk)] + se;
                    lemma_walk_weight_prepend(*graph, (p, pk), se);
                    assert(is_walk(*graph, nsn, nse)) by {
                        assert forall|i: int| 0 <= i < nsn.len() implies #[trigger] nsn[i]
                            < graph.nodes.len() by {
                            if i > 0 {
                                assert(nsn[i] == sn[i - 1]);
                            }
                        }
                        assert forall|i: int| 0 <= i < nse.len() implies {
                            &&& (#[trigger] nse[i]).0 == nsn[i]
                            &&& nse[i].1 < graph.adjacency[nsn[i] as int].len()
                            &&& step_edge(*graph, nse[i]).target_index == nsn[i + 1]
                        } by {
                            if i > 0 {
                                assert(nse[i] == se[i - 1]);
                                assert(nsn[i] == sn[i - 1]);
                                assert(nsn[i + 1] == sn[i]);
                            }
                        }
                    }
                    assert(nsn.last() == target);
                    assert(rank@[p as int] < rank@[cur as int]);
                    assert forall|i: int| 0 <= i < nsn.len() implies settled@[#[trigger] nsn[i] as int] by {
                        if i > 0 {
                            assert(nsn[i] == sn[i - 1]);
                        }
                    }
                    assert forall|i: int, j: int| 0 <= i < j < nsn.len() implies rank@[nsn[i] as int]
                        < rank@[nsn[j] as int] by {
                        assert(nsn[j] == sn[j - 1]);
                        if i > 0 {
                            assert(nsn[i] == sn[i - 1]);
                        } else if j > 1 {
                            assert(rank@[sn[0] as int] < rank@[sn[j - 1] as int]);
                        }
                    }
                    sn = nsn;
                    se = nse;
                }
                rn.push(p);
                re.push((p, pk));
                proof {
                    assert(rank@[p as int] < rank@[cur as int]);
                    assert forall|i: int| 0 <= i < rn@.len() implies #[trigger] rn@[i] == sn[sn.len() - 1 - i] by {}
                    assert forall|i: int| 0 <= i < re@.len() implies #[trigger] re@[i] == se[se.len() - 1 - i] by {}
                }
                cur = p;
            },
        }
    }
    let mut nodes: Vec<usize> = Vec::new();
    let mut i: usize = rn.len();
    while i > 0
        invariant
            i <= rn@.len(),
            nodes@.len() == rn@.len() - i,
            forall|k: int| 0 <= k < nodes@.len() ==> #[trigger] nodes@[k] == rn@[rn@.len() - 1 - k],
        decreases i,
    {
        i -= 1;
        nodes.push(rn[i]);
    }
    let mut edges: Vec<(usize, usize)> = Vec::new();
    let mut i: usize = re.len();
    while i > 0
        invariant
            i <= re@.len(),
            edges@.len() == re@.len() - i,
            forall|k: int| 0 <= k < edges@.len() ==> #[trigger] edges@[k] == re@[re@.len() - 1 - k],
        decreases i,
    {
        i -= 1;
        edges.push(re[i]);
    }
    assert(nodes@ =~= sn);
    assert(edges@ =~= se);
    (nodes, edges)
}

} // verus!
