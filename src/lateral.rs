//! Lateral-movement chains: simple paths made only of edges that let an
//! adversary move sideways, each step labelled with a technique.
use vstd::prelude::*;
use vstd::string::StringExecFns;

use crate::graph::{InMemoryGraph, NodeProperties, SCALE};
use crate::paths::{
    contains_index, extends, same_route, is_walk, lemma_walk_weight_bounds, step_edge, walk_weight, RawPath,
};
use crate::text::{contains_str, has_substring, lower_of, lowercase, str_eq};

verus! {

/// A detected lateral-movement chain.
pub struct LateralChain {
    pub path: RawPath,
    /// Technique used at each step.
    pub techniques: Vec<String>,
    /// Number of steps.
    pub chain_length: usize,
}

/// Edge types that allow lateral movement.
pub open spec fn is_lateral_type(t: Seq<char>) -> bool {
    t == "HAS_ACCESS"@ || t == "TRUSTS"@ || t == "CAN_REACH"@ || t == "CONNECTS_TO"@
}

/// Lower-cased `protocol` property, empty when absent.
pub open spec fn protocol_hint(p: NodeProperties) -> Seq<char> {
    match p.protocol {
        Some(s) => lower_of(s@),
        None => Seq::empty(),
    }
}

/// `port` property, 0 when absent.
pub open spec fn port_hint(p: NodeProperties) -> u64 {
    match p.port {
        Some(v) => v,
        None => 0,
    }
}

pub open spec fn points_to_ssh(p: NodeProperties) -> bool {
    protocol_hint(p) == "ssh"@ || port_hint(p) == 22
}

pub open spec fn points_to_rdp(p: NodeProperties) -> bool {
    protocol_hint(p) == "rdp"@ || port_hint(p) == 3389
}

/// Some permission mentions "admin", ignoring case.
pub open spec fn grants_admin(p: NodeProperties) -> bool {
    exists|k: int|
        0 <= k < p.permissions@.len() && has_substring(
            lower_of(#[trigger] p.permissions@[k]@),
            "admin"@,
        )
}

/// The technique that an edge of type `t` suggests, given the target's
/// lower-cased protocol, its port and whether it grants admin rights.
pub open spec fn technique_of_hints(t: Seq<char>, protocol: Seq<char>, port: u64, admin: bool) -> Option<
    Seq<char>,
> {
    let ssh = protocol == "ssh"@ || port == 22;
    let rdp = protocol == "rdp"@ || port == 3389;
    if t == "HAS_ACCESS"@ {
        if ssh {
            Some("ssh-pivot"@)
        } else if rdp {
            Some("rdp-hop"@)
        } else if admin {
            Some("pass-the-hash"@)
        } else {
            Some("credential-access"@)
        }
    } else if t == "TRUSTS"@ {
        Some("trust-exploitation"@)
    } else if t == "CAN_REACH"@ {
        if ssh {
            Some("ssh-pivot"@)
        } else if rdp {
            Some("rdp-hop"@)
        } else {
            Some("network-pivot"@)
        }
    } else if t == "CONNECTS_TO"@ {
        if ssh {
            Some("ssh-pivot"@)
        } else if rdp {
            Some("rdp-hop"@)
        } else {
            None
        }
    } else {
        None
    }
}

/// The technique that an edge of type `t` into a node with properties `p` suggests.
pub open spec fn technique_for(t: Seq<char>, p: NodeProperties) -> Option<Seq<char>> {
    technique_of_hints(t, protocol_hint(p), port_hint(p), grants_admin(p))
}

/// The label a chain step carries: its technique, or "lateral-movement".
pub open spec fn step_label(t: Seq<char>, p: NodeProperties) -> Seq<char> {
    match technique_for(t, p) {
        Some(s) => s,
        None => "lateral-movement"@,
    }
}

pub open spec fn opt_view(o: Option<String>) -> Option<Seq<char>> {
    match o {
        Some(s) => Some(s@),
        None => None,
    }
}

/// A chain that the detector may report.
pub open spec fn is_lateral_chain(
    g: InMemoryGraph,
    min_length: usize,
    max_length: usize,
    c: LateralChain,
) -> bool {
    &&& is_walk(g, c.path.node_indices@, c.path.edges@)
    &&& c.path.node_indices@.no_duplicates()
    &&& c.path.total_weight == walk_weight(g, c.path.edges@)
    &&& c.chain_length == c.path.edges@.len()
    &&& min_length <= c.chain_length <= max_length
    &&& c.techniques@.len() == c.path.edges@.len()
    &&& forall|i: int|
        0 <= i < c.path.edges@.len() ==> {
            let e = step_edge(g, #[trigger] c.path.edges@[i]);
            &&& is_lateral_type(e.edge_type@)
            &&& c.techniques@[i]@ == step_label(
                e.edge_type@,
                g.nodes[e.target_index as int].properties,
            )
        }
}

/// A chain the detector must report: a simple walk of lateral edges with
/// between `min_length` and `max_length` steps.
pub open spec fn is_chain_candidate(
    g: InMemoryGraph,
    min_length: usize,
    max_length: usize,
    ns: Seq<usize>,
    es: Seq<(usize, usize)>,
) -> bool {
    &&& is_walk(g, ns, es)
    &&& ns.no_duplicates()
    &&& min_length <= es.len() <= max_length
    &&& forall|i: int| 0 <= i < es.len() ==> is_lateral_type(step_edge(g, #[trigger] es[i]).edge_type@)
}

/// Some reported chain consists of exactly these nodes and steps.
pub open spec fn chain_reported(cs: Seq<LateralChain>, ns: Seq<usize>, es: Seq<(usize, usize)>) -> bool {
    exists|i: int| 0 <= i < cs.len() && cs[i].path.node_indices@ == ns && cs[i].path.edges@ == es
}

/// No chain of `cs[lo..hi]` is reported twice.
pub open spec fn chains_distinct(cs: Seq<LateralChain>, lo: int, hi: int) -> bool {
    forall|a: int, b: int| lo <= a < b < hi ==> !same_route((#[trigger] cs[a]).path, (#[trigger] cs[b]).path)
}

/// Whether an edge type allows lateral movement.
pub fn is_lateral_edge(edge_type: &str) -> (r: bool)
    ensures
        r == is_lateral_type(edge_type@),
{
    str_eq(edge_type, "HAS_ACCESS") || str_eq(edge_type, "TRUSTS") || str_eq(edge_type, "CAN_REACH")
        || str_eq(edge_type, "CONNECTS_TO")
}

fn has_admin_permission(p: &NodeProperties) -> (r: bool)
    ensures
        r == grants_admin(*p),
{
    let mut k: usize = 0;
    while k < p.permissions.len()
        invariant
            k <= p.permissions@.len(),
            forall|j: int|
                0 <= j < k ==> !has_substring(lower_of(#[trigger] p.permissions@[j]@), "admin"@),
        decreases p.permissions@.len() - k,
    {
        let lower = lowercase(p.permissions[k].as_str());
        if lower_mentions_admin(lower.as_str()) {
            return true;
        }
        k += 1;
    }
    false
}

/// Whether an already lower-cased permission mentions "admin".
pub fn lower_mentions_admin(l: &str) -> (r: bool)
    ensures
        r == has_substring(l@, "admin"@),
{
    contains_str(l, "admin")
}

/// The technique that an edge of type `edge_type` into a node with
/// `target_properties` suggests, if any.
pub fn detect_technique(edge_type: &str, target_properties: &NodeProperties) -> (r: Option<String>)
    ensures
        opt_view(r) == technique_for(edge_type@, *target_properties),
{
    let protocol = match &target_properties.protocol {
        Some(s) => lowercase(s.as_str()),
        None => String::new(),
    };
    let port: u64 = match target_properties.port {
        Some(v) => v,
        None => 0,
    };
    let admin = has_admin_permission(target_properties);
    technique_from_hints(edge_type, protocol.as_str(), port, admin)
}

/// The technique that an edge of type `edge_type` suggests, given the target's
/// lower-cased protocol, its port and whether it grants admin rights.
pub fn technique_from_hints(edge_type: &str, protocol: &str, port: u64, admin: bool) -> (r: Option<String>)
    ensures
        opt_view(r) == technique_of_hints(edge_type@, protocol@, port, admin),
{
    let ssh = str_eq(protocol, "ssh") || port == 22;
    let rdp = str_eq(protocol, "rdp") || port == 3389;
    if str_eq(edge_type, "HAS_ACCESS") {
        if ssh {
            Some(String::from_str("ssh-pivot"))
        } else if rdp {
            Some(String::from_str("rdp-hop"))
        } else if admin {
            Some(String::from_str("pass-the-hash"))
        } else {
            Some(String::from_str("credential-access"))
        }
    } else if str_eq(edge_type, "TRUSTS") {
        Some(String::from_str("trust-exploitation"))
    } else if str_eq(edge_type, "CAN_REACH") {
        if ssh {
            Some(String::from_str("ssh-pivot"))
        } else if rdp {
            Some(String::from_str("rdp-hop"))
        } else {
            Some(String::from_str("network-pivot"))
        }
    } else if str_eq(edge_type, "CONNECTS_TO") {
        if ssh {
            Some(String::from_str("ssh-pivot"))
        } else if rdp {
            Some(String::from_str("rdp-hop"))
        } else {
            None
        }
    } else {
        None
    }
}

fn copy_strings(v: &Vec<String>) -> (r: Vec<String>)
    ensures
        r@.len() == v@.len(),
        forall|i: int| 0 <= i < v@.len() ==> (#[trigger] r@[i])@ == v@[i]@,
{
    let mut r: Vec<String> = Vec::new();
    let mut i: usize = 0;
    while i < v.len()
        invariant
            i <= v@.len(),
            r@.len() == i,
            forall|k: int| 0 <= k < i ==> (#[trigger] r@[k])@ == v@[k]@,
        decreases v@.len() - i,
    {
        r.push(v[i].clone());
        i += 1;
    }
    r
}

fn copy_nodes(v: &Vec<usize>) -> (r: Vec<usize>)
    ensures
        r@ == v@,
{
    let mut r: Vec<usize> = Vec::new();
    let mut i: usize = 0;
    while i < v.len()
        invariant
            i <= v@.len(),
            r@ == v@.subrange(0, i as int),
        decreases v@.len() - i,
    {
        r.push(v[i]);
        i += 1;
    }
    assert(r@ =~= v@);
    r
}

fn copy_edges(v: &Vec<(usize, usize)>) -> (r: Vec<(usize, usize)>)
    ensures
        r@ == v@,
{
    let mut r: Vec<(usize, usize)> = Vec::new();
    let mut i: usize = 0;
    while i < v.len()
        invariant
            i <= v@.len(),
            r@ == v@.subrange(0, i as int),
        decreases v@.len() - i,
    {
        r.push(v[i]);
        i += 1;
    }
    assert(r@ =~= v@);
    r
}

/// Depth-first extension along lateral edges, reporting every chain whose
/// length lies within bounds.
fn lateral_extend(
    g: &InMemoryGraph,
    min_length: usize,
    max_length: usize,
    path_nodes: &mut Vec<usize>,
    path_edges: &mut Vec<(usize, usize)>,
    techniques: &mut Vec<String>,
    steps: usize,
    weight: u128,
    out: &mut Vec<LateralChain>,
)
    requires
        g.wf(),
        steps == old(path_edges)@.len(),
        steps <= max_length,
        is_walk(*g, old(path_nodes)@, old(path_edges)@),
        old(path_nodes)@.no_duplicates(),
        weight == walk_weight(*g, old(path_edges)@),
        old(techniques)@.len() == steps,
        forall|i: int|
            0 <= i < steps ==> {
                let e = step_edge(*g, #[trigger] old(path_edges)@[i]);
                &&& is_lateral_type(e.edge_type@)
                &&& old(techniques)@[i]@ == step_label(
                    e.edge_type@,
                    g.nodes[e.target_index as int].properties,
                )
            },
    ensures
        final(path_nodes)@ == old(path_nodes)@,
        final(path_edges)@ == old(path_edges)@,
        final(techniques)@ == old(techniques)@,
        old(out)@.len() <= final(out)@.len(),
        forall|i: int| 0 <= i < old(out)@.len() ==> final(out)@[i] == old(out)@[i],
        forall|i: int|
            old(out)@.len() <= i < final(out)@.len() ==> is_lateral_chain(
                *g,
                min_length,
                max_length,
                #[trigger] final(out)@[i],
            ),
        forall|ns: Seq<usize>, es: Seq<(usize, usize)>|
            #[trigger] is_chain_candidate(*g, min_length, max_length, ns, es) && extends(
                ns,
                es,
                old(path_nodes)@,
                old(path_edges)@,
            ) ==> chain_reported(final(out)@, ns, es),
        forall|i: int|
            old(out)@.len() <= i < final(out)@.len() ==> extends(
                (#[trigger] final(out)@[i]).path.node_indices@,
                final(out)@[i].path.edges@,
                old(path_nodes)@,
                old(path_edges)@,
            ),
        chains_distinct(final(out)@, old(out)@.len() as int, final(out)@.len() as int),
    decreases max_length - steps,
{
    let ghost entry_out = out@;
    if steps >= min_length {
        let chain = LateralChain {
            path: RawPath {
                node_indices: copy_nodes(path_nodes),
                edges: copy_edges(path_edges),
                total_weight: weight,
            },
            techniques: copy_strings(techniques),
            chain_length: steps,
        };
        out.push(chain);
    }
    proof {
        if out@.len() > entry_out.len() {
            let c = out@[out@.len() - 1];
            assert(c.path.node_indices@.take(steps + 1) =~= c.path.node_indices@);
            assert(c.path.edges@.take(steps as int) =~= c.path.edges@);
        }
        assert forall|ns: Seq<usize>, es: Seq<(usize, usize)>|
            #[trigger] is_chain_candidate(*g, min_length, max_length, ns, es) && extends(
                ns,
                es,
                path_nodes@,
                path_edges@,
            ) && es.len() == steps implies chain_reported(out@, ns, es) by {
            assert(es =~= path_edges@);
            assert(ns =~= path_nodes@);
            assert(out@[out@.len() - 1].path.node_indices@ == ns);
        }
    }
    if steps >= max_length {
        return;
    }
    proof {
        lemma_walk_weight_bounds(*g, path_edges@);
    }
    let node = path_nodes[steps];
    let row = &g.adjacency[node];
    let mut k: usize = row.len();
    proof {
        assert forall|ns: Seq<usize>, es: Seq<(usize, usize)>|
            #[trigger] is_chain_candidate(*g, min_length, max_length, ns, es) && extends(
                ns,
                es,
                path_nodes@,
                path_edges@,
            ) && (es.len() == steps || es[steps as int].1 >= k) implies chain_reported(out@, ns, es) by {
            if es.len() != steps {
                assert(es[steps as int].0 == ns[steps as int]);
                assert(ns[steps as int] == path_nodes@[steps as int]);
            }
        }
    }
    // Children are explored from the last edge to the first.
    while k > 0
        invariant
            g.wf(),
            row == g.adjacency[node as int],
            node == path_nodes@[steps as int],
            node < g.nodes.len(),
            k <= row@.len(),
            steps == path_edges@.len(),
            steps < max_length,
            path_nodes@ == old(path_nodes)@,
            path_edges@ == old(path_edges)@,
            techniques@ == old(techniques)@,
            is_walk(*g, path_nodes@, path_edges@),
            path_nodes@.no_duplicates(),
            weight == walk_weight(*g, path_edges@),
            weight <= path_edges@.len() * SCALE,
            techniques@.len() == steps,
            forall|i: int|
                0 <= i < steps ==> {
                    let e = step_edge(*g, #[trigger] path_edges@[i]);
                    &&& is_lateral_type(e.edge_type@)
                    &&& techniques@[i]@ == step_label(
                        e.edge_type@,
                        g.nodes[e.target_index as int].properties,
                    )
                },
            old(out)@.len() <= out@.len(),
            forall|i: int| 0 <= i < old(out)@.len() ==> out@[i] == old(out)@[i],
            forall|i: int|
                old(out)@.len() <= i < out@.len() ==> is_lateral_chain(
                    *g,
                    min_length,
                    max_length,
                    #[trigger] out@[i],
                ),
            forall|ns: Seq<usize>, es: Seq<(usize, usize)>|
                #[trigger] is_chain_candidate(*g, min_length, max_length, ns, es) && extends(
                    ns,
                    es,
                    path_nodes@,
                    path_edges@,
                ) && (es.len() == steps || es[steps as int].1 >= k) ==> chain_reported(out@, ns, es),
            forall|i: int|
                old(out)@.len() <= i < out@.len() ==> extends(
                    (#[trigger] out@[i]).path.node_indices@,
                    out@[i].path.edges@,
                    path_nodes@,
                    path_edges@,
                ) && (out@[i].path.edges@.len() == steps || (out@[i].path.edges@.len() > steps
                    && out@[i].path.edges@[steps as int].1 >= k)),
            chains_distinct(out@, old(out)@.len() as int, out@.len() as int),
        decreases k,
    {
        k -= 1;
        let edge = &row[k];
        let next = edge.target_index;
        if !contains_index(path_nodes, next) && is_lateral_edge(edge.edge_type.as_str()) {
            let technique = match detect_technique(
                edge.edge_type.as_str(),
                &g.nodes[next].properties,
            ) {
                Some(t) => t,
                None => String::from_str("lateral-movement"),
            };
            let ghost before_nodes = path_nodes@;
            let ghost before_edges = path_edges@;
            let ghost before_tech = techniques@;
            let ghost before_out = out@;
            let step_cost = (SCALE - edge.exploitability) as u128;
            path_nodes.push(next);
            path_edges.push((node, k));
            techniques.push(technique);
            proof {
                assert(path_edges@.drop_last() =~= before_edges);
                assert(path_edges@.last() == (node, k));
                assert(is_walk(*g, path_nodes@, path_edges@)) by {
                    assert forall|i: int| 0 <= i < path_edges@.len() implies {
                        &&& (#[trigger] path_edges@[i]).0 == path_nodes@[i]
                        &&& path_edges@[i].1 < g.adjacency[path_nodes@[i] as int].len()
                        &&& step_edge(*g, path_edges@[i]).target_index == path_nodes@[i + 1]
                    } by {
                        if i < before_edges.len() {
                            assert(path_edges@[i] == before_edges[i]);
                            assert(path_nodes@[i + 1] == before_nodes[i + 1]);
                        }
                    }
                }
                assert(path_nodes@.no_duplicates()) by {
                    assert forall|a: int, b: int|
                        0 <= a < path_nodes@.len() && 0 <= b < path_nodes@.len() && a != b
                        implies path_nodes@[a] != path_nodes@[b] by {
                        if a < before_nodes.len() && b < before_nodes.len() {
                        } else if a < before_nodes.len() {
                            assert(before_nodes.contains(before_nodes[a]));
                        } else {
                            assert(before_nodes.contains(before_nodes[b]));
                        }
                    }
                }
                assert forall|i: int| 0 <= i < steps + 1 implies {
                    let e = step_edge(*g, #[trigger] path_edges@[i]);
                    &&& is_lateral_type(e.edge_type@)
                    &&& techniques@[i]@ == step_label(
                        e.edge_type@,
                        g.nodes[e.target_index as int].properties,
                    )
                } by {
                    if i < steps {
                        assert(path_edges@[i] == before_edges[i]);
                        assert(techniques@[i] == before_tech[i]);
                    }
                }
            }
            lateral_extend(
                g,
                min_length,
                max_length,
                path_nodes,
                path_edges,
                techniques,
                steps + 1,
                weight + step_cost,
                out,
            );
            let ghost child_nodes = path_nodes@;
            let ghost child_edges = path_edges@;
            path_nodes.pop();
            path_edges.pop();
            techniques.pop();
            proof {
                assert(path_nodes@ =~= before_nodes);
                assert(path_edges@ =~= before_edges);
                assert(techniques@ =~= before_tech);
                assert forall|i: int| 0 <= i < old(out)@.len() implies out@[i] == old(out)@[i] by {
                    assert(out@[i] == before_out[i]);
                }
                assert(child_nodes.take(steps + 1) =~= before_nodes);
                assert(child_edges.take(steps as int) =~= before_edges);
                assert(child_edges[steps as int] == (node, k));
                assert forall|i: int|
                    old(out)@.len() <= i < out@.len() implies extends(
                        (#[trigger] out@[i]).path.node_indices@,
                        out@[i].path.edges@,
                        path_nodes@,
                        path_edges@,
                    ) && (out@[i].path.edges@.len() == steps || (out@[i].path.edges@.len() > steps
                        && out@[i].path.edges@[steps as int].1 >= k)) by {
                    if i < before_out.len() {
                        assert(out@[i] == before_out[i]);
                    } else {
                        let q = out@[i].path;
                        assert(q.node_indices@.take(steps + 1) =~= q.node_indices@.take(steps + 2).take(
                            steps + 1,
                        ));
                        assert(q.edges@.take(steps as int) =~= q.edges@.take(steps + 1).take(steps as int));
                        assert(q.edges@[steps as int] == q.edges@.take(steps + 1)[steps as int]);
                    }
                }
                assert forall|a: int, b: int|
                    old(out)@.len() <= a < b < out@.len() implies !same_route(
                    (#[trigger] out@[a]).path,
                    (#[trigger] out@[b]).path,
                ) by {
                    if b < before_out.len() {
                        assert(out@[a] == before_out[a]);
                        assert(out@[b] == before_out[b]);
                    } else if a < before_out.len() {
                        assert(out@[a] == before_out[a]);
                        let q = out@[b].path;
                        assert(q.edges@[steps as int] == q.edges@.take(steps + 1)[steps as int]);
                    }
                }
                assert forall|ns: Seq<usize>, es: Seq<(usize, usize)>|
                    #[trigger] is_chain_candidate(*g, min_length, max_length, ns, es) && extends(
                        ns,
                        es,
                        path_nodes@,
                        path_edges@,
                    ) && (es.len() == steps || es[steps as int].1 >= k) implies chain_reported(
                    out@,
                    ns,
                    es,
                ) by {
                    if es.len() != steps && es[steps as int].1 == k {
                        assert(es[steps as int].0 == ns[steps as int]);
                        assert(ns[steps as int] == before_nodes[steps as int]);
                        assert(ns[steps + 1] == next);
                        assert(ns.take(steps + 2) =~= child_nodes);
                        assert(es.take(steps + 1) =~= child_edges);
                    } else {
                        assert(chain_reported(before_out, ns, es));
                        let w = choose|w: int|
                            0 <= w < before_out.len() && before_out[w].path.node_indices@ == ns
                                && before_out[w].path.edges@ == es;
                        assert(out@[w] == before_out[w]);
                    }
                }
            }
        } else {
            proof {
                assert forall|ns: Seq<usize>, es: Seq<(usize, usize)>|
                    #[trigger] is_chain_candidate(*g, min_length, max_length, ns, es) && extends(
                        ns,
                        es,
                        path_nodes@,
                        path_edges@,
                    ) && (es.len() == steps || es[steps as int].1 >= k) implies chain_reported(
                    out@,
                    ns,
                    es,
                ) by {
                    if es.len() != steps && es[steps as int].1 == k {
                        assert(es[steps as int].0 == ns[steps as int]);
                        assert(ns[steps as int] == path_nodes@[steps as int]);
                        assert(ns[steps + 1] == next);
                        assert(step_edge(*g, es[steps as int]) == *edge);
                        if path_nodes@.contains(next) {
                            let w = choose|w: int| 0 <= w < path_nodes@.len() && path_nodes@[w] == next;
                            assert(ns[w] == path_nodes@[w]);
                        }
                    }
                }
            }
        }
    }
    proof {
        assert forall|ns: Seq<usize>, es: Seq<(usize, usize)>|
            #[trigger] is_chain_candidate(*g, min_length, max_length, ns, es) && extends(
                ns,
                es,
                old(path_nodes)@,
                old(path_edges)@,
            ) implies chain_reported(out@, ns, es) by {
        }
    }
}

/// Chains ordered longest first.
pub open spec fn sorted_by_length_desc(cs: Seq<LateralChain>) -> bool {
    forall|a: int, b: int| 0 <= a < b < cs.len() ==> cs[a].chain_length >= cs[b].chain_length
}

fn sort_by_length_desc(items: Vec<LateralChain>) -> (r: Vec<LateralChain>)
    ensures
        r@.len() == items@.len(),
        sorted_by_length_desc(r@),
        forall|i: int| 0 <= i < r@.len() ==> items@.contains(#[trigger] r@[i]),
        forall|j: int| 0 <= j < items@.len() ==> r@.contains(#[trigger] items@[j]),
        chains_distinct(items@, 0, items@.len() as int) ==> chains_distinct(r@, 0, r@.len() as int),
{
    let mut input = items;
    let ghost orig = input@;
    let mut rev: Vec<LateralChain> = Vec::new();
    while input.len() > 0
        invariant
            input@.len() + rev@.len() == orig.len(),
            forall|k: int| 0 <= k < input@.len() ==> #[trigger] input@[k] == orig[k],
            forall|k: int| 0 <= k < rev@.len() ==> #[trigger] rev@[k] == orig[orig.len() - 1 - k],
        decreases input@.len(),
    {
        let p = input.pop().unwrap();
        rev.push(p);
    }
    let mut out: Vec<LateralChain> = Vec::new();
    while rev.len() > 0
        invariant
            out@.len() + rev@.len() == orig.len(),
            forall|k: int| 0 <= k < rev@.len() ==> #[trigger] rev@[k] == orig[orig.len() - 1 - k],
            sorted_by_length_desc(out@),
            forall|i: int| 0 <= i < out@.len() ==> orig.contains(#[trigger] out@[i]),
            forall|j: int| 0 <= j < orig.len() - rev@.len() ==> out@.contains(#[trigger] orig[j]),
            chains_distinct(orig, 0, orig.len() as int) ==> chains_distinct(out@, 0, out@.len() as int),
            chains_distinct(orig, 0, orig.len() as int) ==> forall|i: int, j: int|
                0 <= i < out@.len() && orig.len() - rev@.len() <= j < orig.len() ==> !same_route(
                    (#[trigger] out@[i]).path,
                    (#[trigger] orig[j]).path,
                ),
        decreases rev@.len(),
    {
        let p = rev.pop().unwrap();
        let ghost pj = orig.len() - 1 - rev@.len();
        assert(p == orig[pj]);
        let len = p.chain_length;
        let mut pos: usize = out.len();
        // Insert after every chain that is at least as long.
        while pos > 0 && out[pos - 1].chain_length < len
            invariant
                pos <= out@.len(),
                forall|i: int| pos <= i < out@.len() ==> out@[i].chain_length < len,
            decreases pos,
        {
            pos -= 1;
        }
        let ghost before = out@;
        out.insert(pos, p);
        proof {
            if chains_distinct(orig, 0, orig.len() as int) {
                assert forall|a: int, b: int| 0 <= a < b < out@.len() implies !same_route(
                    (#[trigger] out@[a]).path,
                    (#[trigger] out@[b]).path,
                ) by {
                    let ia = if a < pos { a } else if a == pos { -1 } else { a - 1 };
                    let ib = if b < pos { b } else if b == pos { -1 } else { b - 1 };
                    if ia >= 0 && ib >= 0 {
                        assert(out@[a] == before[ia]);
                        assert(out@[b] == before[ib]);
                    } else if ia < 0 {
                        assert(out@[a] == orig[pj]);
                        assert(out@[b] == before[ib]);
                        assert(!same_route(before[ib].path, orig[pj].path));
                    } else {
                        assert(out@[b] == orig[pj]);
                        assert(out@[a] == before[ia]);
                        assert(!same_route(before[ia].path, orig[pj].path));
                    }
                }
                assert forall|i: int, j: int|
                    0 <= i < out@.len() && orig.len() - rev@.len() <= j < orig.len() implies !same_route(
                    (#[trigger] out@[i]).path,
                    (#[trigger] orig[j]).path,
                ) by {
                    if i == pos {
                        assert(out@[i] == orig[pj]);
                        assert(!same_route(orig[pj].path, orig[j].path));
                    } else if i < pos {
                        assert(out@[i] == before[i]);
                    } else {
                        assert(out@[i] == before[i - 1]);
                    }
                }
            }
            assert forall|a: int, b: int|
                #![trigger out@[a], out@[b]]
                0 <= a < b < out@.len() implies out@[a].chain_length >= out@[b].chain_length by {
                if b < pos {
                } else if b == pos {
                    if pos > 0 {
                        assert(before[pos - 1].chain_length >= len);
                        assert(before[a].chain_length >= before[pos - 1].chain_length);
                    }
                } else if a < pos {
                    assert(out@[b] == before[b - 1]);
                    assert(before[b - 1].chain_length < len);
                } else if a == pos {
                    assert(out@[b] == before[b - 1]);
                } else {
                    assert(out@[a] == before[a - 1]);
                    assert(out@[b] == before[b - 1]);
                }
            }
            assert forall|i: int| 0 <= i < out@.len() implies orig.contains(#[trigger] out@[i]) by {
                if i < pos {
                    assert(out@[i] == before[i]);
                    assert(orig.contains(before[i]));
                } else if i == pos {
                    assert(out@[i] == orig[pj]);
                } else {
                    assert(out@[i] == before[i - 1]);
                    assert(orig.contains(before[i - 1]));
                }
            }
            assert forall|j: int| 0 <= j < orig.len() - rev@.len() implies out@.contains(#[trigger] orig[j]) by {
                if j == pj {
                    assert(out@[pos as int] == orig[j]);
                } else {
                    let w = choose|w: int| 0 <= w < before.len() && before[w] == orig[j];
                    if w < pos {
                        assert(out@[w] == orig[j]);
                    } else {
                        assert(out@[w + 1] == orig[j]);
                    }
                }
            }
        }
    }
    out
}

/// Every simple path of lateral edges with between `min_length` and
/// `max_length` steps, from every start node, longest first.
pub fn detect_lateral_chains(graph: &InMemoryGraph, min_length: usize, max_length: usize) -> (r: Vec<
    LateralChain,
>)
    requires
        graph.wf(),
    ensures
        sorted_by_length_desc(r@),
        forall|i: int|
            0 <= i < r@.len() ==> is_lateral_chain(*graph, min_length, max_length, #[trigger] r@[i]),
        forall|ns: Seq<usize>, es: Seq<(usize, usize)>|
            #[trigger] is_chain_candidate(*graph, min_length, max_length, ns, es) ==> chain_reported(
                r@,
                ns,
                es,
            ),
        chains_distinct(r@, 0, r@.len() as int),
{
    let mut chains: Vec<LateralChain> = Vec::new();
    let mut start: usize = 0;
    while start < graph.nodes.len()
        invariant
            graph.wf(),
            start <= graph.nodes.len(),
            forall|i: int|
                0 <= i < chains@.len() ==> is_lateral_chain(
                    *graph,
                    min_length,
                    max_length,
                    #[trigger] chains@[i],
                ),
            forall|ns: Seq<usize>, es: Seq<(usize, usize)>|
                #[trigger] is_chain_candidate(*graph, min_length, max_length, ns, es) && ns[0] < start
                    ==> chain_reported(chains@, ns, es),
            forall|i: int| 0 <= i < chains@.len() ==> (#[trigger] chains@[i]).path.node_indices@[0] < start,
            chains_distinct(chains@, 0, chains@.len() as int),
        decreases graph.nodes.len() - start,
    {
        let mut path_nodes: Vec<usize> = Vec::new();
        path_nodes.push(start);
        let mut path_edges: Vec<(usize, usize)> = Vec::new();
        let mut techniques: Vec<String> = Vec::new();
        assert(path_edges@.len() == 0);
        let ghost before = chains@;
        let ghost start_nodes = path_nodes@;
        let ghost start_edges = path_edges@;
        lateral_extend(
            graph,
            min_length,
            max_length,
            &mut path_nodes,
            &mut path_edges,
            &mut techniques,
            0,
            0,
            &mut chains,
        );
        proof {
            assert forall|i: int| 0 <= i < chains@.len() implies (#[trigger] chains@[i]).path.node_indices@[0]
                < start + 1 by {
                if i < before.len() {
                    assert(chains@[i] == before[i]);
                } else {
                    assert(chains@[i].path.node_indices@.take(1)[0] == start_nodes[0]);
                }
            }
            assert forall|a: int, b: int| 0 <= a < b < chains@.len() implies !same_route(
                (#[trigger] chains@[a]).path,
                (#[trigger] chains@[b]).path,
            ) by {
                if b < before.len() {
                    assert(chains@[a] == before[a]);
                    assert(chains@[b] == before[b]);
                } else if a < before.len() {
                    assert(chains@[a] == before[a]);
                    assert(chains@[b].path.node_indices@.take(1)[0] == start_nodes[0]);
                }
            }
            assert forall|ns: Seq<usize>, es: Seq<(usize, usize)>|
                #[trigger] is_chain_candidate(*graph, min_length, max_length, ns, es) && ns[0] < start + 1
                    implies chain_reported(chains@, ns, es) by {
                if ns[0] == start {
                    assert(ns.take(1) =~= start_nodes);
                    assert(es.take(0) =~= start_edges);
                } else {
                    assert(chain_reported(before, ns, es));
                    let w = choose|w: int|
                        0 <= w < before.len() && before[w].path.node_indices@ == ns
                            && before[w].path.edges@ == es;
                    assert(chains@[w] == before[w]);
                }
            }
        }
        start += 1;
    }
    let r = sort_by_length_desc(chains);
    assert forall|i: int| 0 <= i < r@.len() implies is_lateral_chain(
        *graph,
        min_length,
        max_length,
        #[trigger] r@[i],
    ) by {
        assert(chains@.contains(r@[i]));
        let j = choose|j: int| 0 <= j < chains@.len() && chains@[j] == r@[i];
        assert(is_lateral_chain(*graph, min_length, max_length, chains@[j]));
    }
    assert forall|ns: Seq<usize>, es: Seq<(usize, usize)>|
        #[trigger] is_chain_candidate(*graph, min_length, max_length, ns, es) implies chain_reported(
        r@,
        ns,
        es,
    ) by {
        assert(ns[0] < graph.nodes.len());
        assert(chain_reported(chains@, ns, es));
        let w = choose|w: int|
            0 <= w < chains@.len() && chains@[w].path.node_indices@ == ns && chains@[w].path.edges@
                == es;
        assert(r@.contains(chains@[w]));
        let v = choose|v: int| 0 <= v < r@.len() && r@[v] == chains@[w];
    }
    r
}

} // verus!
