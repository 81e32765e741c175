//! The parts of a path computation that decide: node lookup, choice of entry
//! points and targets, graph statistics, and the description of each step.
use vstd::prelude::*;
use vstd::string::StringExecFns;

use crate::engram::{Engram, EngramSession};
use crate::graph::{entry_indices, jewel_indices, total_edges, InMemoryGraph};
use crate::lateral::{detect_technique, opt_view, technique_for};
use crate::paths::{is_walk, step_edge, RawPath};
use crate::text::str_eq;

verus! {

/// Failures of a path computation.
#[derive(Debug)]
pub enum PathfindError {
    Graph(String),
    NoEntryPoints { tenant_id: String },
    NoCrownJewels { tenant_id: String },
    NodeNotFound { node_id: String },
    EmptySubgraph { tenant_id: String },
    Timeout { max_seconds: u64 },
    Serialization(String),
    Io(String),
}

/// Size and classification counts of an in-memory graph.
pub struct GraphStats {
    pub total_nodes: usize,
    pub total_edges: u64,
    pub internet_facing_count: usize,
    pub crown_jewel_count: usize,
}

/// Some node carries the external id `id`.
pub open spec fn has_node(g: InMemoryGraph, id: Seq<char>) -> bool {
    exists|j: int| 0 <= j < g.nodes.len() && (#[trigger] g.nodes[j]).id@ == id
}

/// `i` is the last node carrying the id `id`.
pub open spec fn is_last_with_id(g: InMemoryGraph, id: Seq<char>, i: int) -> bool {
    0 <= i < g.nodes.len() && g.nodes[i].id@ == id && forall|j: int|
        i < j < g.nodes.len() ==> (#[trigger] g.nodes[j]).id@ != id
}

/// Index of the last node carrying `id` (meaningful when one does).
pub open spec fn last_with_id(g: InMemoryGraph, id: Seq<char>) -> usize {
    (choose|i: int| is_last_with_id(g, id, i)) as usize
}

proof fn lemma_last_with_id(g: InMemoryGraph, id: Seq<char>, i: int)
    requires
        is_last_with_id(g, id, i),
    ensures
        last_with_id(g, id) == i,
{
    let k = choose|k: int| is_last_with_id(g, id, k);
    if k < i {
        assert(g.nodes[i].id@ == id);
    } else if k > i {
        assert(g.nodes[k].id@ == id);
    }
}

/// Dense index of the node with external id `id`; of several, the last.
pub fn lookup_node(graph: &InMemoryGraph, id: &str) -> (r: Result<usize, PathfindError>)
    ensures
        r is Ok <==> has_node(*graph, id@),
        r matches Ok(i) ==> i == last_with_id(*graph, id@) && is_last_with_id(*graph, id@, i as int),
        r matches Err(e) ==> e matches PathfindError::NodeNotFound { node_id } && node_id@ == id@,
{
    let mut k: usize = graph.nodes.len();
    while k > 0
        invariant
            k <= graph.nodes.len(),
            forall|j: int| k <= j < graph.nodes.len() ==> (#[trigger] graph.nodes[j]).id@ != id@,
        decreases k,
    {
        k -= 1;
        if str_eq(graph.nodes[k].id.as_str(), id) {
            proof {
                lemma_last_with_id(*graph, id@, k as int);
            }
            return Ok(k);
        }
    }
    Err(PathfindError::NodeNotFound { node_id: String::from_str(id) })
}

/// For each of the first `n` ids that some node carries, in order, the index
/// of the last node carrying it.
pub open spec fn resolved(g: InMemoryGraph, ids: Seq<String>, n: int) -> Seq<usize>
    decreases n,
{
    if n <= 0 {
        Seq::empty()
    } else if has_node(g, ids[n - 1]@) {
        resolved(g, ids, n - 1).push(last_with_id(g, ids[n - 1]@))
    } else {
        resolved(g, ids, n - 1)
    }
}

/// Indices of the nodes named by `ids`, skipping unknown ids.
pub fn resolve_nodes(graph: &InMemoryGraph, ids: &Vec<String>) -> (r: Vec<usize>)
    ensures
        r@ == resolved(*graph, ids@, ids@.len() as int),
        forall|k: int| 0 <= k < r@.len() ==> #[trigger] r@[k] < graph.nodes.len(),
{
    let mut r: Vec<usize> = Vec::new();
    let mut k: usize = 0;
    while k < ids.len()
        invariant
            k <= ids@.len(),
            r@ == resolved(*graph, ids@, k as int),
            forall|m: int| 0 <= m < r@.len() ==> #[trigger] r@[m] < graph.nodes.len(),
        decreases ids@.len() - k,
    {
        match lookup_node(graph, ids[k].as_str()) {
            Ok(i) => {
                r.push(i);
            },
            Err(_) => {},
        }
        k += 1;
    }
    r
}

/// The entry points a request selects: the named nodes, else every
/// internet-facing node.
pub open spec fn chosen_sources(g: InMemoryGraph, sources: Option<Vec<String>>) -> Seq<usize> {
    match sources {
        Some(ids) => resolved(g, ids@, ids@.len() as int),
        None => entry_indices(g.nodes@, g.nodes@.len() as int),
    }
}

/// The targets a request selects: the named nodes, else every crown jewel.
pub open spec fn chosen_targets(g: InMemoryGraph, targets: Option<Vec<String>>) -> Seq<usize> {
    match targets {
        Some(ids) => resolved(g, ids@, ids@.len() as int),
        None => jewel_indices(g.nodes@, g.nodes@.len() as int),
    }
}

/// Entry points and targets of a computation: the named nodes when ids are
/// given, else the internet-facing nodes and the crown jewels.
pub fn select_endpoints(
    graph: &InMemoryGraph,
    sources: &Option<Vec<String>>,
    targets: &Option<Vec<String>>,
    tenant_id: &str,
) -> (r: Result<(Vec<usize>, Vec<usize>), PathfindError>)
    requires
        graph.wf(),
    ensures
        chosen_sources(*graph, *sources).len() == 0 ==> (r matches Err(
            PathfindError::NoEntryPoints { tenant_id: x },
        ) && x@ == tenant_id@),
        chosen_sources(*graph, *sources).len() > 0 && chosen_targets(*graph, *targets).len() == 0
            ==> (r matches Err(PathfindError::NoCrownJewels { tenant_id: x }) && x@ == tenant_id@),
        chosen_sources(*graph, *sources).len() > 0 && chosen_targets(*graph, *targets).len() > 0
            ==> (r matches Ok((s, t)) && s@ == chosen_sources(*graph, *sources) && t@
            == chosen_targets(*graph, *targets)),
        r matches Ok((s, t)) ==> (forall|k: int| 0 <= k < s@.len() ==> #[trigger] s@[k] < graph.nodes.len())
            && (forall|k: int| 0 <= k < t@.len() ==> #[trigger] t@[k] < graph.nodes.len()),
{
    let s = match sources {
        Some(ids) => resolve_nodes(graph, ids),
        None => graph.internet_facing_nodes(),
    };
    let t = match targets {
        Some(ids) => resolve_nodes(graph, ids),
        None => graph.crown_jewel_nodes(),
    };
    if s.len() == 0 {
        return Err(PathfindError::NoEntryPoints { tenant_id: String::from_str(tenant_id) });
    }
    if t.len() == 0 {
        return Err(PathfindError::NoCrownJewels { tenant_id: String::from_str(tenant_id) });
    }
    Ok((s, t))
}

/// Depth bound of the all-paths search when a request gives none.
pub const DEFAULT_MAX_DEPTH: usize = 10;

/// Result cap of the all-paths search when a request gives none.
pub const DEFAULT_MAX_PATHS: usize = 100;

/// Shortest lateral chain reported.
pub const LATERAL_MIN_LENGTH: usize = 2;

/// Longest lateral chain reported.
pub const LATERAL_MAX_LENGTH: usize = 8;

/// Hop bound of the blast radius computed for entry points.
pub const BLAST_MAX_HOPS: usize = 5;

/// How many entry points get a blast radius.
pub const BLAST_SOURCE_LIMIT: usize = 10;

/// The bounds of one path computation.
pub struct ComputePlan {
    pub max_depth: usize,
    pub max_paths: usize,
}

/// Bounds of a computation over a subgraph of `node_count` nodes: the request's
/// own or the defaults; an empty subgraph is an error.
pub fn plan_computation(
    node_count: usize,
    max_depth: Option<usize>,
    max_paths: Option<usize>,
    tenant_id: &str,
) -> (r: Result<ComputePlan, PathfindError>)
    ensures
        node_count == 0 ==> (r matches Err(PathfindError::EmptySubgraph { tenant_id: x }) && x@
            == tenant_id@),
        node_count > 0 ==> (r matches Ok(p) && p.max_depth == (match max_depth {
            Some(d) => d,
            None => DEFAULT_MAX_DEPTH,
        }) && p.max_paths == (match max_paths {
            Some(m) => m,
            None => DEFAULT_MAX_PATHS,
        })),
{
    if node_count == 0 {
        return Err(PathfindError::EmptySubgraph { tenant_id: String::from_str(tenant_id) });
    }
    Ok(ComputePlan {
        max_depth: match max_depth {
            Some(d) => d,
            None => DEFAULT_MAX_DEPTH,
        },
        max_paths: match max_paths {
            Some(m) => m,
            None => DEFAULT_MAX_PATHS,
        },
    })
}

/// The entry points that get a blast radius: the first `BLAST_SOURCE_LIMIT`.
pub fn blast_origins(sources: &Vec<usize>) -> (r: Vec<usize>)
    ensures
        r@ == sources@.take(if sources@.len() < BLAST_SOURCE_LIMIT {
            sources@.len() as int
        } else {
            BLAST_SOURCE_LIMIT as int
        }),
{
    let mut r: Vec<usize> = Vec::new();
    let mut i: usize = 0;
    while i < sources.len() && i < BLAST_SOURCE_LIMIT
        invariant
            i <= sources@.len(),
            i <= BLAST_SOURCE_LIMIT,
            r@ == sources@.take(i as int),
        decreases sources@.len() - i,
    {
        r.push(sources[i]);
        assert(sources@.take(i + 1) =~= sources@.take(i as int).push(sources@[i as int]));
        i += 1;
    }
    r
}

/// Counts that describe a graph.
pub fn graph_stats(graph: &InMemoryGraph) -> (r: GraphStats)
    requires
        graph.wf(),
    ensures
        r.total_nodes == graph.nodes.len(),
        r.total_edges == total_edges(graph.adjacency@, graph.adjacency@.len() as int) || r.total_edges
            == u64::MAX,
        r.internet_facing_count == entry_indices(graph.nodes@, graph.nodes@.len() as int).len(),
        r.crown_jewel_count == jewel_indices(graph.nodes@, graph.nodes@.len() as int).len(),
{
    GraphStats {
        total_nodes: graph.node_count(),
        total_edges: graph.edge_count(),
        internet_facing_count: graph.internet_facing_nodes().len(),
        crown_jewel_count: graph.crown_jewel_nodes().len(),
    }
}

/// One step of a path, ready for reporting.
pub struct PathStep {
    /// Dense index of the node the step arrives at.
    pub target_index: usize,
    pub node_id: String,
    pub edge_id: String,
    pub technique: Option<String>,
    /// "source label -> target label via edge type".
    pub description: String,
    /// Exploitability of the traversed edge, in units of one millionth.
    pub exploitability: u64,
}

pub open spec fn step_description(g: InMemoryGraph, step: (usize, usize)) -> Seq<char> {
    let e = step_edge(g, step);
    g.nodes[step.0 as int].label@ + " -> "@ + g.nodes[e.target_index as int].label@ + " via "@
        + e.edge_type@
}

/// The reported steps of a path.
pub fn path_steps(graph: &InMemoryGraph, raw: &RawPath) -> (r: Vec<PathStep>)
    requires
        graph.wf(),
        is_walk(*graph, raw.node_indices@, raw.edges@),
    ensures
        r@.len() == raw.edges@.len(),
        forall|i: int|
            0 <= i < r@.len() ==> {
                let e = step_edge(*graph, raw.edges@[i]);
                &&& (#[trigger] r@[i]).target_index == e.target_index
                &&& r@[i].node_id@ == graph.nodes[e.target_index as int].id@
                &&& r@[i].edge_id@ == e.id@
                &&& opt_view(r@[i].technique) == technique_for(
                    e.edge_type@,
                    graph.nodes[e.target_index as int].properties,
                )
                &&& r@[i].description@ == step_description(*graph, raw.edges@[i])
                &&& r@[i].exploitability == e.exploitability
            },
{
    let mut r: Vec<PathStep> = Vec::new();
    let mut i: usize = 0;
    while i < raw.edges.len()
        invariant
            graph.wf(),
            is_walk(*graph, raw.node_indices@, raw.edges@),
            i <= raw.edges@.len(),
            r@.len() == i,
            forall|k: int|
                0 <= k < i ==> {
                    let e = step_edge(*graph, raw.edges@[k]);
                    &&& (#[trigger] r@[k]).target_index == e.target_index
                    &&& r@[k].node_id@ == graph.nodes[e.target_index as int].id@
                    &&& r@[k].edge_id@ == e.id@
                    &&& opt_view(r@[k].technique) == technique_for(
                        e.edge_type@,
                        graph.nodes[e.target_index as int].properties,
                    )
                    &&& r@[k].description@ == step_description(*graph, raw.edges@[k])
                    &&& r@[k].exploitability == e.exploitability
                },
        decreases raw.edges@.len() - i,
    {
        let (from, pos) = raw.edges[i];
        assert(raw.edges@[i as int] == (from, pos));
        assert(from == raw.node_indices@[i as int]);
        let edge = &graph.adjacency[from][pos];
        let target = &graph.nodes[edge.target_index];
        let mut description = graph.nodes[from].label.clone();
        description.append(" -> ");
        description.append(target.label.as_str());
        description.append(" via ");
        description.append(edge.edge_type.as_str());
        r.push(
            PathStep {
                target_index: edge.target_index,
                node_id: target.id.clone(),
                edge_id: edge.id.clone(),
                technique: detect_technique(edge.edge_type.as_str(), &target.properties),
                description,
                exploitability: edge.exploitability,
            },
        );
        i += 1;
    }
    r
}

/// Opens the engram of a path computation; `context` is JSON text.
pub fn start_pathfind_session(tenant_id: u128, operation: &str, context: String) -> (r: EngramSession)
    ensures
        r.recorded().tenant_id == tenant_id,
        r.recorded().agent_id@ == "sentinel-pathfind"@,
        r.recorded().intent@ == "Attack path analysis: "@ + operation@,
        r.recorded().context == context,
        r.recorded().decisions@.len() == 1,
        r.recorded().decisions@[0].choice@ == "Execute "@ + operation@,
        r.recorded().decisions@[0].rationale@ == "Requested by API for attack path analysis"@,
        r.recorded().decisions@[0].confidence@ == "1.0"@,
        r.recorded().alternatives@.len() == 0,
        r.recorded().actions@.len() == 0,
        r.recorded().content_hash is None,
{
    let mut intent = String::from_str("Attack path analysis: ");
    intent.append(operation);
    let mut session = EngramSession::new(tenant_id, "sentinel-pathfind", intent.as_str());
    session.set_context(context);
    let mut choice = String::from_str("Execute ");
    choice.append(operation);
    session.add_decision(choice.as_str(), "Requested by API for attack path analysis", "1.0");
    session
}

/// Records the choice of an algorithm and its parameters (JSON text).
pub fn record_algorithm_decision(session: &mut EngramSession, algorithm: &str, rationale: &str, params: String)
    ensures
        final(session).recorded().decisions@.drop_last() == old(session).recorded().decisions@,
        final(session).recorded().decisions@.last().choice@ == "Use algorithm: "@ + algorithm@,
        final(session).recorded().decisions@.last().rationale@ == rationale@,
        final(session).recorded().decisions@.last().confidence@ == "0.95"@,
        final(session).recorded().actions@.drop_last() == old(session).recorded().actions@,
        final(session).recorded().actions@.last().action_type@ == "algorithm_selection"@,
        final(session).recorded().actions@.last().description@ == "Selected "@ + algorithm@,
        final(session).recorded().actions@.last().details == params,
        final(session).recorded().actions@.last().success,
        final(session).recorded() == (Engram {
            decisions: final(session).recorded().decisions,
            actions: final(session).recorded().actions,
            ..old(session).recorded()
        }),
{
    let mut choice = String::from_str("Use algorithm: ");
    choice.append(algorithm);
    session.add_decision(choice.as_str(), rationale, "0.95");
    let mut description = String::from_str("Selected ");
    description.append(algorithm);
    session.add_action("algorithm_selection", description.as_str(), params, true);
}

} // verus!
