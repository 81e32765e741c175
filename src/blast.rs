//! Blast radius: breadth-first reach from a compromised node along edges
//! whose exploitability meets a threshold.
use vstd::prelude::*;

use crate::graph::{InMemoryGraph, SCALE};
use crate::paths::{is_walk, lemma_distinct_indices_bounded, step_edge};

verus! {

/// A node inside the blast radius.
pub struct ReachableNode {
    /// Dense index of the node.
    pub index: usize,
    pub node_id: String,
    pub label: String,
    /// Edges between the compromised node and this one.
    pub hops: usize,
    /// Product of the edge exploitabilities on the way, in units of `1 / SCALE`.
    pub cumulative_exploitability: u64,
}

/// What a compromise of one node exposes.
pub struct BlastRadiusResult {
    pub compromised_node_id: String,
    /// Sorted by hops ascending, then cumulative exploitability descending.
    pub reachable_nodes: Vec<ReachableNode>,
    pub total_reachable: usize,
    /// How many reachable nodes are crown jewels.
    pub critical_reachable: usize,
    /// Sum of criticality × cumulative exploitability, in units of `1 / SCALE`.
    pub blast_score: u128,
}

/// Product of two fixed-point scores.
pub open spec fn scaled_product(a: u64, b: u64) -> int {
    (a * b) as int / SCALE as int
}

/// One node's contribution to the blast score.
pub open spec fn exposure(g: InMemoryGraph, r: ReachableNode) -> int {
    scaled_product(g.nodes[r.index as int].criticality, r.cumulative_exploitability)
}

/// Sum of the exposures of `rs`.
pub open spec fn exposure_sum(g: InMemoryGraph, rs: Seq<ReachableNode>) -> int
    decreases rs.len(),
{
    if rs.len() == 0 {
        0
    } else {
        exposure_sum(g, rs.drop_last()) + exposure(g, rs.last())
    }
}

/// Number of crown jewels among `rs`.
pub open spec fn crown_count(g: InMemoryGraph, rs: Seq<ReachableNode>) -> int
    decreases rs.len(),
{
    if rs.len() == 0 {
        0
    } else {
        crown_count(g, rs.drop_last()) + if g.nodes[rs.last().index as int].is_crown_jewel {
            1int
        } else {
            0
        }
    }
}

/// `a` comes no later than `b`: fewer hops first, then higher exploitability.
pub open spec fn reach_order(a: ReachableNode, b: ReachableNode) -> bool {
    a.hops < b.hops || (a.hops == b.hops && a.cumulative_exploitability
        >= b.cumulative_exploitability)
}

pub open spec fn sorted_by_reach(rs: Seq<ReachableNode>) -> bool {
    forall|a: int, b: int| 0 <= a < b < rs.len() ==> reach_order(rs[a], rs[b])
}

/// An entry that a blast radius from `c` within `max_hops` may hold.
pub open spec fn is_reached_entry(g: InMemoryGraph, c: usize, max_hops: usize, r: ReachableNode) -> bool {
    &&& r.index < g.nodes.len()
    &&& r.index != c
    &&& 1 <= r.hops <= max_hops
    &&& r.node_id@ == g.nodes[r.index as int].id@
    &&& r.label@ == g.nodes[r.index as int].label@
    &&& r.cumulative_exploitability <= SCALE
}

/// A walk from `c` whose every edge meets the exploitability threshold.
pub open spec fn gated_walk(
    g: InMemoryGraph,
    c: usize,
    min_exploitability: u64,
    ns: Seq<usize>,
    es: Seq<(usize, usize)>,
) -> bool {
    &&& is_walk(g, ns, es)
    &&& ns[0] == c
    &&& forall|i: int|
        0 <= i < es.len() ==> step_edge(g, #[trigger] es[i]).exploitability >= min_exploitability
}

/// Fixed-point product of the exploitabilities along `es`, from `SCALE`. Each
/// hop rounds down to a millionth, so it can fall short of the exact product by
/// about one millionth per hop.
pub open spec fn chain_product(g: InMemoryGraph, es: Seq<(usize, usize)>) -> int
    decreases es.len(),
{
    if es.len() == 0 {
        SCALE as int
    } else {
        (chain_product(g, es.drop_last()) * step_edge(g, es.last()).exploitability) / (SCALE as int)
    }
}

/// `r` is reached from `c` by a gated walk of exactly `r.hops` edges whose
/// exploitability product is `r.cumulative_exploitability`.
pub open spec fn reached_via(g: InMemoryGraph, c: usize, min_exploitability: u64, r: ReachableNode) -> bool {
    exists|ns: Seq<usize>, es: Seq<(usize, usize)>|
        #[trigger] gated_walk(g, c, min_exploitability, ns, es) && ns.last() == r.index && es.len()
            == r.hops && r.cumulative_exploitability == chain_product(g, es)
}

/// No gated walk from `c` reaches `r.index` in fewer than `r.hops` edges.
pub open spec fn fewest_hops(g: InMemoryGraph, c: usize, min_exploitability: u64, r: ReachableNode) -> bool {
    forall|ns: Seq<usize>, es: Seq<(usize, usize)>|
        #[trigger] gated_walk(g, c, min_exploitability, ns, es) && ns.last() == r.index ==> r.hops
            <= es.len()
}

/// Entries name distinct nodes.
pub open spec fn distinct_indices(rs: Seq<ReachableNode>) -> bool {
    forall|a: int, b: int| 0 <= a < b < rs.len() ==> (#[trigger] rs[a]).index != (#[trigger] rs[b]).index
}

/// Each queue entry has a gated walk from `c` that ends at its node, with as
/// many edges as its hop count and its exploitability as product.
pub open spec fn queue_witnessed(
    g: InMemoryGraph,
    c: usize,
    min_exploitability: u64,
    q: Seq<(usize, usize, u64)>,
    walks: Seq<(Seq<usize>, Seq<(usize, usize)>)>,
) -> bool {
    &&& walks.len() == q.len()
    &&& forall|b: int|
        0 <= b < q.len() ==> {
            &&& gated_walk(g, c, min_exploitability, (#[trigger] walks[b]).0, walks[b].1)
            &&& walks[b].0.last() == q[b].0
            &&& walks[b].1.len() == q[b].1
            &&& q[b].2 == chain_product(g, walks[b].1)
        }
}

/// Node `x` was queued at most `h` hops out.
pub open spec fn queued_within(q: Seq<(usize, usize, u64)>, x: usize, h: int) -> bool {
    exists|b: int| 0 <= b < q.len() && q[b].0 == x && q[b].1 <= h
}

/// Every gated edge out of the first `upto` queue entries that lie within the
/// hop bound leads to a node queued at most one hop further.
pub open spec fn closed_upto(
    g: InMemoryGraph,
    q: Seq<(usize, usize, u64)>,
    upto: int,
    max_hops: usize,
    min_exploitability: u64,
) -> bool {
    forall|p: int, k: int|
        0 <= p < upto && q[p].1 < max_hops && 0 <= k < g.adjacency[q[p].0 as int].len()
            && g.adjacency[q[p].0 as int][k].exploitability >= min_exploitability ==> queued_within(
            q,
            (#[trigger] g.adjacency[q[p].0 as int][k]).target_index,
            q[p].1 + 1,
        )
}

/// A closed queue holds every node that a gated walk reaches within the bound.
proof fn lemma_closed_queue_reaches(
    g: InMemoryGraph,
    q: Seq<(usize, usize, u64)>,
    c: usize,
    max_hops: usize,
    min_exploitability: u64,
    ns: Seq<usize>,
    es: Seq<(usize, usize)>,
)
    requires
        g.wf(),
        q.len() >= 1,
        q[0].0 == c,
        q[0].1 == 0,
        closed_upto(g, q, q.len() as int, max_hops, min_exploitability),
        gated_walk(g, c, min_exploitability, ns, es),
        es.len() <= max_hops,
    ensures
        queued_within(q, ns.last(), es.len() as int),
    decreases es.len(),
{
    if es.len() == 0 {
        assert(q[0].0 == ns.last());
    } else {
        let pn = ns.drop_last();
        let pe = es.drop_last();
        assert(gated_walk(g, c, min_exploitability, pn, pe)) by {
            assert forall|i: int| 0 <= i < pe.len() implies {
                &&& (#[trigger] pe[i]).0 == pn[i]
                &&& pe[i].1 < g.adjacency[pn[i] as int].len()
                &&& step_edge(g, pe[i]).target_index == pn[i + 1]
            } by {
                assert(pe[i] == es[i]);
            }
            assert forall|i: int| 0 <= i < pe.len() implies step_edge(g, #[trigger] pe[i]).exploitability
                >= min_exploitability by {
                assert(pe[i] == es[i]);
            }
        }
        lemma_closed_queue_reaches(g, q, c, max_hops, min_exploitability, pn, pe);
        let b = choose|b: int| 0 <= b < q.len() && q[b].0 == pn.last() && q[b].1 <= pe.len();
        let last = es[es.len() - 1];
        assert(last.0 == ns[es.len() - 1]);
        assert(step_edge(g, last).exploitability >= min_exploitability);
        assert(g.adjacency[q[b].0 as int][last.1 as int].target_index == ns.last());
    }
}

fn sort_by_reach(items: Vec<ReachableNode>) -> (r: Vec<ReachableNode>)
    ensures
        r@.len() == items@.len(),
        sorted_by_reach(r@),
        forall|i: int| 0 <= i < r@.len() ==> items@.contains(#[trigger] r@[i]),
        forall|j: int| 0 <= j < items@.len() ==> r@.contains(#[trigger] items@[j]),
        distinct_indices(items@) ==> distinct_indices(r@),
{
    let mut input = items;
    let ghost orig = input@;
    let mut rev: Vec<ReachableNode> = Vec::new();
    while input.len() > 0
        invariant
            input@.len() + rev@.len() == orig.len(),
            forall|k: int| 0 <= k < input@.len() ==> #[trigger] input@[k] == orig[k],
            forall|k: int| 0 <= k < rev@.len() ==> #[trigger] rev@[k] == orig[orig.len() - 1 - k],
        decreases input@.len(),
    {
        let p = input.pop().unwrap();
        rev.push(p);
    }
    let mut out: Vec<ReachableNode> = Vec::new();
    while rev.len() > 0
        invariant
            out@.len() + rev@.len() == orig.len(),
            forall|k: int| 0 <= k < rev@.len() ==> #[trigger] rev@[k] == orig[orig.len() - 1 - k],
            sorted_by_reach(out@),
            forall|i: int| 0 <= i < out@.len() ==> orig.contains(#[trigger] out@[i]),
            forall|j: int| 0 <= j < orig.len() - rev@.len() ==> out@.contains(#[trigger] orig[j]),
            distinct_indices(orig) ==> distinct_indices(out@),
            distinct_indices(orig) ==> forall|i: int, j: int|
                0 <= i < out@.len() && orig.len() - rev@.len() <= j < orig.len() ==> (#[trigger] out@[i]).index
                    != (#[trigger] orig[j]).index,
        decreases rev@.len(),
    {
        let p = rev.pop().unwrap();
        let ghost pj = orig.len() - 1 - rev@.len();
        assert(p == orig[pj]);
        let mut pos: usize = out.len();
        while pos > 0 && (out[pos - 1].hops > p.hops || (out[pos - 1].hops == p.hops
            && out[pos - 1].cumulative_exploitability < p.cumulative_exploitability))
            invariant
                pos <= out@.len(),
                forall|i: int| pos <= i < out@.len() ==> !reach_order(#[trigger] out@[i], p),
            decreases pos,
        {
            pos -= 1;
        }
        let ghost before = out@;
        out.insert(pos, p);
        proof {
            if distinct_indices(orig) {
                assert forall|a: int, b: int| 0 <= a < b < out@.len() implies (#[trigger] out@[a]).index
                    != (#[trigger] out@[b]).index by {
                    let ia = if a < pos { a } else if a == pos { -1 } else { a - 1 };
                    let ib = if b < pos { b } else if b == pos { -1 } else { b - 1 };
                    if ia >= 0 && ib >= 0 {
                        assert(out@[a] == before[ia]);
                        assert(out@[b] == before[ib]);
                    } else if ia < 0 {
                        assert(out@[a] == orig[pj]);
                        assert(out@[b] == before[ib]);
                        assert(before[ib].index != orig[pj].index);
                    } else {
                        assert(out@[b] == orig[pj]);
                        assert(out@[a] == before[ia]);
                        assert(before[ia].index != orig[pj].index);
                    }
                }
                assert forall|i: int, j: int|
                    0 <= i < out@.len() && orig.len() - rev@.len() <= j < orig.len() implies (#[trigger] out@[i]).index
                    != (#[trigger] orig[j]).index by {
                    if i == pos {
                        assert(out@[i] == orig[pj]);
                        assert(orig[pj].index != orig[j].index);
                    } else if i < pos {
                        assert(out@[i] == before[i]);
                    } else {
                        assert(out@[i] == before[i - 1]);
                    }
                }
            }
            assert forall|a: int, b: int|
                #![trigger out@[a], out@[b]]
                0 <= a < b < out@.len() implies reach_order(out@[a], out@[b]) by {
                if b < pos {
                } else if b == pos {
                    if pos > 0 {
                        assert(reach_order(before[pos - 1], p));
                        assert(reach_order(before[a], before[pos - 1]));
                    }
                } else if a < pos {
                    assert(out@[b] == before[b - 1]);
                    assert(!reach_order(before[b - 1], p));
                    if pos > 0 {
                        assert(reach_order(before[a], before[pos - 1]));
                        assert(reach_order(before[pos - 1], p));
                    }
                    assert(reach_order(p, before[b - 1]));
                } else if a == pos {
                    assert(out@[b] == before[b - 1]);
                    assert(!reach_order(before[b - 1], p));
                } else {
                    assert(out@[a] == before[a - 1]);
                    assert(out@[b] == before[b - 1]);
                }
            }
            assert forall|i: int| 0 <= i < out@.len() implies orig.contains(#[trigger] out@[i]) by {
                if i < pos {
                    assert(out@[i] == before[i]);
                    assert(orig.contains(before[i]));
                } else if i == pos {
                    assert(out@[i] == orig[pj]);
                } else {
                    assert(out@[i] == before[i - 1]);
                    assert(orig.contains(before[i - 1]));
                }
            }
            assert forall|j: int| 0 <= j < orig.len() - rev@.len() implies out@.contains(#[trigger] orig[j]) by {
                if j == pj {
                    assert(out@[pos as int] == orig[j]);
                } else {
                    let w = choose|w: int| 0 <= w < before.len() && before[w] == orig[j];
                    if w < pos {
                        assert(out@[w] == orig[j]);
                    } else {
                        assert(out@[w + 1] == orig[j]);
                    }
                }
            }
        }
    }
    out
}

/// Breadth-first blast radius from `compromised_node`: an edge is followed when
/// its exploitability is at least `min_exploitability` and its target has not been
/// reached yet; expansion stops `max_hops` edges out.
pub fn compute_blast_radius(
    graph: &InMemoryGraph,
    compromised_node: usize,
    max_hops: usize,
    min_exploitability: u64,
) -> (res: BlastRadiusResult)
    requires
        graph.wf(),
        compromised_node < graph.nodes.len(),
    ensures
        res.compromised_node_id@ == graph.nodes[compromised_node as int].id@,
        forall|i: int|
            0 <= i < res.reachable_nodes@.len() ==> is_reached_entry(
                *graph,
                compromised_node,
                max_hops,
                #[trigger] res.reachable_nodes@[i],
            ),
        sorted_by_reach(res.reachable_nodes@),
        res.total_reachable == res.reachable_nodes@.len(),
        res.critical_reachable == crown_count(*graph, res.reachable_nodes@),
        res.blast_score == exposure_sum(*graph, res.reachable_nodes@),
        distinct_indices(res.reachable_nodes@),
        forall|i: int|
            0 <= i < res.reachable_nodes@.len() ==> reached_via(
                *graph,
                compromised_node,
                min_exploitability,
                #[trigger] res.reachable_nodes@[i],
            ) && fewest_hops(*graph, compromised_node, min_exploitability, res.reachable_nodes@[i]),
        forall|ns: Seq<usize>, es: Seq<(usize, usize)>|
            #[trigger] gated_walk(*graph, compromised_node, min_exploitability, ns, es) && es.len()
                <= max_hops && ns.last() != compromised_node ==> exists|i: int|
                0 <= i < res.reachable_nodes@.len() && res.reachable_nodes@[i].index == ns.last()
                    && res.reachable_nodes@[i].hops <= es.len(),
{
    let n = graph.nodes.len();
    let mut visited: Vec<bool> = Vec::new();
    let mut v: usize = 0;
    while v < n
        invariant
            v <= n,
            visited@.len() == v,
            forall|k: int| 0 <= k < v ==> !(#[trigger] visited@[k]),
        decreases n - v,
    {
        visited.push(false);
        v += 1;
    }
    visited.set(compromised_node, true);
    // Queue entries: (node, hops, cumulative exploitability); `head` is the next to pop.
    let mut queue: Vec<(usize, usize, u64)> = Vec::new();
    queue.push((compromised_node, 0, SCALE));
    let ghost mut qnodes: Seq<usize> = seq![compromised_node];
    let ghost mut walks: Seq<(Seq<usize>, Seq<(usize, usize)>)> = seq![
        (seq![compromised_node], Seq::empty()),
    ];
    let mut head: usize = 0;
    proof {
        assert(gated_walk(*graph, compromised_node, min_exploitability, walks[0].0, walks[0].1));
        assert(queue_witnessed(*graph, compromised_node, min_exploitability, queue@, walks));
    }
    assert forall|x: int| 0 <= x < n && #[trigger] visited@[x] implies qnodes.contains(
        x as usize,
    ) by {
        assert(x == compromised_node as int);
        assert(qnodes[0] == compromised_node);
    }
    let mut reachable: Vec<ReachableNode> = Vec::new();
    while head < queue.len()
        invariant
            graph.wf(),
            n == graph.nodes.len(),
            compromised_node < n,
            visited@.len() == n,
            qnodes.len() == queue@.len(),
            head <= queue@.len(),
            queue@.len() >= 1,
            queue@[0].0 == compromised_node,
            queue@[0].1 == 0,
            forall|k: int| 0 <= k < queue@.len() ==> #[trigger] qnodes[k] == queue@[k].0,
            forall|k: int| 0 <= k < queue@.len() ==> #[trigger] queue@[k].0 < n,
            forall|k: int| 0 <= k < queue@.len() ==> #[trigger] visited@[queue@[k].0 as int],
            forall|x: int| 0 <= x < n && #[trigger] visited@[x] ==> qnodes.contains(x as usize),
            qnodes.no_duplicates(),
            forall|k: int| 1 <= k < queue@.len() ==> 1 <= (#[trigger] queue@[k]).1 <= max_hops,
            forall|k: int| 0 <= k < queue@.len() ==> (#[trigger] queue@[k]).2 <= SCALE,
            forall|a: int, b: int| 0 <= a < b < queue@.len() ==> queue@[a].1 <= queue@[b].1,
            forall|a: int, b: int|
                head <= a < queue@.len() && 0 <= b < queue@.len() ==> queue@[b].1 <= queue@[a].1 + 1,
            closed_upto(*graph, queue@, head as int, max_hops, min_exploitability),
            queue_witnessed(*graph, compromised_node, min_exploitability, queue@, walks),
            reachable@.len() == if head == 0 {
                0
            } else {
                head - 1
            },
            forall|i: int|
                0 <= i < reachable@.len() ==> (#[trigger] reachable@[i]).index == queue@[i + 1].0
                    && reachable@[i].hops == queue@[i + 1].1
                    && reachable@[i].cumulative_exploitability == queue@[i + 1].2,
            forall|i: int|
                0 <= i < reachable@.len() ==> is_reached_entry(
                    *graph,
                    compromised_node,
                    max_hops,
                    #[trigger] reachable@[i],
                ),
        decreases n - head,
    {
        proof {
            assert forall|i: int| 0 <= i < qnodes.len() implies #[trigger] qnodes[i] < n by {
                assert(qnodes[i] == queue@[i].0);
            }
            lemma_distinct_indices_bounded(qnodes, n as int);
        }
        let (node, hops, cumul) = queue[head];
        if hops > 0 {
            let gn = &graph.nodes[node];
            let ghost before = reachable@;
            reachable.push(
                ReachableNode {
                    index: node,
                    node_id: gn.id.clone(),
                    label: gn.label.clone(),
                    hops,
                    cumulative_exploitability: cumul,
                },
            );
            proof {
                assert(head >= 1) by {
                    if head == 0 {
                        assert(queue@[0].1 == 0);
                    }
                }
                assert(node != compromised_node) by {
                    assert(qnodes[head as int] == node);
                    assert(qnodes[0] == compromised_node);
                }
            }
        }
        if hops < max_hops {
            let row = &graph.adjacency[node];
            let mut j: usize = 0;
            while j < row.len()
                invariant
                    graph.wf(),
                    n == graph.nodes.len(),
                    row == graph.adjacency[node as int],
                    node < n,
                    hops < max_hops,
                    cumul <= SCALE,
                    j <= row@.len(),
                    compromised_node < n,
                    visited@.len() == n,
                    qnodes.len() == queue@.len(),
                    head < queue@.len(),
                    queue@[0].0 == compromised_node,
                    queue@[0].1 == 0,
                    forall|k: int| 0 <= k < queue@.len() ==> #[trigger] qnodes[k] == queue@[k].0,
                    forall|k: int| 0 <= k < queue@.len() ==> #[trigger] queue@[k].0 < n,
                    forall|k: int| 0 <= k < queue@.len() ==> #[trigger] visited@[queue@[k].0 as int],
                    forall|x: int| 0 <= x < n && #[trigger] visited@[x] ==> qnodes.contains(x as usize),
                    qnodes.no_duplicates(),
                    forall|k: int| 1 <= k < queue@.len() ==> 1 <= (#[trigger] queue@[k]).1 <= max_hops,
                    forall|k: int| 0 <= k < queue@.len() ==> (#[trigger] queue@[k]).2 <= SCALE,
                    queue@[head as int].0 == node,
                    queue@[head as int].1 == hops,
                    forall|a: int, b: int| 0 <= a < b < queue@.len() ==> queue@[a].1 <= queue@[b].1,
                    forall|a: int, b: int|
                        head <= a < queue@.len() && 0 <= b < queue@.len() ==> queue@[b].1 <= queue@[a].1
                            + 1,
                    closed_upto(*graph, queue@, head as int, max_hops, min_exploitability),
                    queue_witnessed(*graph, compromised_node, min_exploitability, queue@, walks),
                    queue@[head as int].2 == cumul,
                    forall|k: int|
                        0 <= k < j && (#[trigger] row@[k]).exploitability >= min_exploitability
                            ==> queued_within(queue@, row@[k].target_index, hops + 1),
                    reachable@.len() == head,
                    forall|i: int|
                        0 <= i < reachable@.len() ==> (#[trigger] reachable@[i]).index == queue@[i
                            + 1].0 && reachable@[i].hops == queue@[i + 1].1
                    && reachable@[i].cumulative_exploitability == queue@[i + 1].2,
                decreases row@.len() - j,
            {
                let edge = &row[j];
                let t = edge.target_index;
                if !visited[t] && edge.exploitability >= min_exploitability {
                    visited.set(t, true);
                    let e = edge.exploitability;
                    assert(cumul * e <= SCALE * SCALE) by (nonlinear_arith)
                        requires
                            cumul <= SCALE,
                            e <= SCALE,
                    ;
                    let next = (cumul * e) / SCALE;
                    assert(next <= SCALE) by (nonlinear_arith)
                        requires
                            next as int == (cumul as int * e as int) / (SCALE as int),
                            cumul <= SCALE,
                            e <= SCALE,
                    ;
                    let ghost oldq = qnodes;
                    let ghost old_queue = queue@;
                    queue.push((t, hops + 1, next));
                    proof {
                        let hw = walks[head as int];
                        let nw = (hw.0.push(t), hw.1.push((node, j)));
                        assert(hw.1.len() == hops);
                        assert(hw.0.last() == node);
                        assert(nw.1.drop_last() =~= hw.1);
                        assert(nw.1.last() == (node, j));
                        assert(step_edge(*graph, (node, j)) == *edge);
                        assert(gated_walk(*graph, compromised_node, min_exploitability, nw.0, nw.1)) by {
                            assert forall|i: int| 0 <= i < nw.0.len() implies #[trigger] nw.0[i]
                                < graph.nodes.len() by {
                                if i < hw.0.len() {
                                    assert(nw.0[i] == hw.0[i]);
                                }
                            }
                            assert forall|i: int| 0 <= i < nw.1.len() implies {
                                &&& (#[trigger] nw.1[i]).0 == nw.0[i]
                                &&& nw.1[i].1 < graph.adjacency[nw.0[i] as int].len()
                                &&& step_edge(*graph, nw.1[i]).target_index == nw.0[i + 1]
                            } by {
                                if i < hw.1.len() {
                                    assert(nw.1[i] == hw.1[i]);
                                    assert(nw.0[i] == hw.0[i]);
                                    assert(nw.0[i + 1] == hw.0[i + 1]);
                                } else {
                                    assert(nw.0[i] == hw.0[hw.0.len() - 1]);
                                }
                            }
                            assert forall|i: int| 0 <= i < nw.1.len() implies step_edge(
                                *graph,
                                #[trigger] nw.1[i],
                            ).exploitability >= min_exploitability by {
                                if i < hw.1.len() {
                                    assert(nw.1[i] == hw.1[i]);
                                }
                            }
                        }
                        assert(chain_product(*graph, nw.1) == next as int);
                        let old_walks = walks;
                        walks = walks.push(nw);
                        assert(queue_witnessed(*graph, compromised_node, min_exploitability, queue@, walks)) by {
                            assert forall|b: int| 0 <= b < queue@.len() implies {
                                &&& gated_walk(*graph, compromised_node, min_exploitability, (#[trigger] walks[b]).0, walks[b].1)
                                &&& walks[b].0.last() == queue@[b].0
                                &&& walks[b].1.len() == queue@[b].1
                                &&& queue@[b].2 == chain_product(*graph, walks[b].1)
                            } by {
                                if b < old_queue.len() {
                                    assert(walks[b] == old_walks[b]);
                                    assert(queue@[b] == old_queue[b]);
                                }
                            }
                        }
                        assert(queue@[queue@.len() - 1] == (t, (hops + 1) as usize, next));
                        assert forall|p: int, k: int|
                            0 <= p < head && queue@[p].1 < max_hops && 0 <= k
                                < graph.adjacency[queue@[p].0 as int].len()
                                && graph.adjacency[queue@[p].0 as int][k].exploitability
                                >= min_exploitability implies queued_within(
                            queue@,
                            (#[trigger] graph.adjacency[queue@[p].0 as int][k]).target_index,
                            queue@[p].1 + 1,
                        ) by {
                            assert(queue@[p] == old_queue[p]);
                            assert(queued_within(
                                old_queue,
                                graph.adjacency[old_queue[p].0 as int][k].target_index,
                                old_queue[p].1 + 1,
                            ));
                            let b = choose|b: int|
                                0 <= b < old_queue.len() && old_queue[b].0
                                    == graph.adjacency[old_queue[p].0 as int][k].target_index
                                    && old_queue[b].1 <= old_queue[p].1 + 1;
                            assert(queue@[b] == old_queue[b]);
                        }
                        assert forall|k: int|
                            0 <= k < j + 1 && (#[trigger] row@[k]).exploitability >= min_exploitability
                                implies queued_within(queue@, row@[k].target_index, hops + 1) by {
                            if k < j {
                                let b = choose|b: int|
                                    0 <= b < old_queue.len() && old_queue[b].0 == row@[k].target_index
                                        && old_queue[b].1 <= hops + 1;
                                assert(queue@[b] == old_queue[b]);
                            } else {
                                assert(queue@[queue@.len() - 1].0 == row@[k].target_index);
                            }
                        }
                        assert forall|a: int, b: int|
                            0 <= a < b < queue@.len() implies queue@[a].1 <= queue@[b].1 by {
                            if b == queue@.len() - 1 {
                                assert(old_queue[a].1 <= old_queue[head as int].1 + 1);
                            }
                        }
                        assert forall|a: int, b: int|
                            head <= a < queue@.len() && 0 <= b < queue@.len() implies queue@[b].1
                                <= queue@[a].1 + 1 by {
                            if a < old_queue.len() && b < old_queue.len() {
                            } else if a < old_queue.len() {
                                assert(old_queue[head as int].1 <= old_queue[a].1);
                            } else if b < old_queue.len() {
                                assert(old_queue[b].1 <= old_queue[head as int].1 + 1);
                            }
                        }
                    }
                    proof {
                        qnodes = qnodes.push(t);
                        assert(!oldq.contains(t)) by {
                            if oldq.contains(t) {
                                let k = choose|k: int| 0 <= k < oldq.len() && oldq[k] == t;
                                assert(queue@[k].0 == t);
                            }
                        }
                        assert forall|x: int| 0 <= x < n && #[trigger] visited@[x] implies qnodes.contains(
                            x as usize,
                        ) by {
                            if x != t as int {
                                let k = choose|k: int| 0 <= k < oldq.len() && oldq[k] == x as usize;
                                assert(qnodes[k] == x as usize);
                            } else {
                                assert(qnodes[qnodes.len() - 1] == t);
                            }
                        }
                    }
                } else {
                    proof {
                        if edge.exploitability >= min_exploitability {
                            assert(visited@[t as int]);
                            let w = choose|w: int| 0 <= w < qnodes.len() && qnodes[w] == t;
                            assert(queue@[w].0 == t);
                            assert(queue@[w].1 <= queue@[head as int].1 + 1);
                        }
                        assert forall|k: int|
                            0 <= k < j + 1 && (#[trigger] row@[k]).exploitability >= min_exploitability
                                implies queued_within(queue@, row@[k].target_index, hops + 1) by {
                            if k == j {
                                let w = choose|w: int| 0 <= w < qnodes.len() && qnodes[w] == t;
                                assert(queue@[w].0 == t);
                            }
                        }
                    }
                }
                j += 1;
            }
        }
        proof {
            assert forall|p: int, k: int|
                0 <= p < head + 1 && queue@[p].1 < max_hops && 0 <= k
                    < graph.adjacency[queue@[p].0 as int].len()
                    && graph.adjacency[queue@[p].0 as int][k].exploitability >= min_exploitability
                    implies queued_within(
                queue@,
                (#[trigger] graph.adjacency[queue@[p].0 as int][k]).target_index,
                queue@[p].1 + 1,
            ) by {
                if p == head {
                    assert(graph.adjacency[queue@[p].0 as int][k] == graph.adjacency[node as int]@[k]);
                }
            }
        }
        head += 1;
    }
    proof {
        assert(distinct_indices(reachable@)) by {
            assert forall|a: int, b: int| 0 <= a < b < reachable@.len() implies (#[trigger] reachable@[a]).index
                != (#[trigger] reachable@[b]).index by {
                assert(qnodes[a + 1] == queue@[a + 1].0);
                assert(qnodes[b + 1] == queue@[b + 1].0);
            }
        }
        assert forall|m: int| 0 <= m < reachable@.len() implies reached_via(
            *graph,
            compromised_node,
            min_exploitability,
            #[trigger] reachable@[m],
        ) && fewest_hops(*graph, compromised_node, min_exploitability, reachable@[m]) by {
            let w = walks[m + 1];
            assert(gated_walk(*graph, compromised_node, min_exploitability, w.0, w.1));
            assert forall|ns: Seq<usize>, es: Seq<(usize, usize)>|
                #[trigger] gated_walk(*graph, compromised_node, min_exploitability, ns, es) && ns.last()
                    == reachable@[m].index implies reachable@[m].hops <= es.len() by {
                if es.len() <= max_hops {
                    lemma_closed_queue_reaches(
                        *graph,
                        queue@,
                        compromised_node,
                        max_hops,
                        min_exploitability,
                        ns,
                        es,
                    );
                    let b = choose|b: int|
                        0 <= b < queue@.len() && queue@[b].0 == ns.last() && queue@[b].1 <= es.len();
                    assert(qnodes[b] == queue@[b].0);
                    assert(qnodes[m + 1] == queue@[m + 1].0);
                }
            }
        }
    }
    let sorted = sort_by_reach(reachable);
    proof {
        assert forall|i: int| 0 <= i < sorted@.len() implies reached_via(
            *graph,
            compromised_node,
            min_exploitability,
            #[trigger] sorted@[i],
        ) && fewest_hops(*graph, compromised_node, min_exploitability, sorted@[i]) by {
            assert(reachable@.contains(sorted@[i]));
            let m = choose|m: int| 0 <= m < reachable@.len() && reachable@[m] == sorted@[i];
            assert(reached_via(*graph, compromised_node, min_exploitability, reachable@[m]));
        }
    }
    let ghost queue_seq = queue@;
    let ghost reached_seq = reachable@;
    let mut critical: usize = 0;
    let mut score: u128 = 0;
    let mut i: usize = 0;
    while i < sorted.len()
        invariant
            graph.wf(),
            i <= sorted@.len(),
            forall|k: int|
                0 <= k < sorted@.len() ==> is_reached_entry(
                    *graph,
                    compromised_node,
                    max_hops,
                    #[trigger] sorted@[k],
                ),
            critical == crown_count(*graph, sorted@.subrange(0, i as int)),
            critical <= i,
            score == exposure_sum(*graph, sorted@.subrange(0, i as int)),
            score <= i * SCALE,
            distinct_indices(sorted@),
            forall|k: int|
                0 <= k < sorted@.len() ==> reached_via(
                    *graph,
                    compromised_node,
                    min_exploitability,
                    #[trigger] sorted@[k],
                ) && fewest_hops(*graph, compromised_node, min_exploitability, sorted@[k]),
        decreases sorted@.len() - i,
    {
        let r = &sorted[i];
        let crit = graph.nodes[r.index].criticality;
        assert(crit * r.cumulative_exploitability <= SCALE * SCALE) by (nonlinear_arith)
            requires
                crit <= SCALE,
                r.cumulative_exploitability <= SCALE,
        ;
        let term = (crit * r.cumulative_exploitability) / SCALE;
        assert(term <= SCALE) by (nonlinear_arith)
            requires
                term as int == (crit as int * r.cumulative_exploitability as int) / (SCALE as int),
                crit <= SCALE,
                r.cumulative_exploitability <= SCALE,
        ;
        proof {
            let pre = sorted@.subrange(0, i + 1);
            assert(pre.drop_last() =~= sorted@.subrange(0, i as int));
            assert(pre.last() == sorted@[i as int]);
        }
        if graph.nodes[r.index].is_crown_jewel {
            critical += 1;
        }
        score = score + term as u128;
        i += 1;
    }
    assert(sorted@.subrange(0, sorted@.len() as int) =~= sorted@);
    proof {
        assert forall|ns: Seq<usize>, es: Seq<(usize, usize)>|
            #[trigger] gated_walk(*graph, compromised_node, min_exploitability, ns, es) && es.len()
                <= max_hops && ns.last() != compromised_node implies exists|i: int|
                0 <= i < sorted@.len() && sorted@[i].index == ns.last() && sorted@[i].hops
                    <= es.len() by {
            lemma_closed_queue_reaches(
                *graph,
                queue_seq,
                compromised_node,
                max_hops,
                min_exploitability,
                ns,
                es,
            );
            let b = choose|b: int|
                0 <= b < queue_seq.len() && queue_seq[b].0 == ns.last() && queue_seq[b].1 <= es.len();
            assert(b != 0);
            assert(reached_seq[b - 1].index == ns.last());
            assert(sorted@.contains(reached_seq[b - 1]));
            let v = choose|v: int| 0 <= v < sorted@.len() && sorted@[v] == reached_seq[b - 1];
        }
    }
    let total = sorted.len();
    BlastRadiusResult {
        compromised_node_id: graph.nodes[compromised_node].id.clone(),
        reachable_nodes: sorted,
        total_reachable: total,
        critical_reachable: critical,
        blast_score: score,
    }
}

} // verus!
