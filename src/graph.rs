//! The in-memory graph that the path algorithms traverse.
//!
//! Nodes get dense indices `0..N`; each node's outgoing edges form one row of
//! an adjacency list. Scores are fixed-point integers: `SCALE` stands for 1.0.
use std::collections::HashMap;
use vstd::prelude::*;
use vstd::std_specs::hash::obeys_key_model;

use crate::text::{contains_str, has_substring, lower_of, lowercase, str_eq};

verus! {

broadcast use vstd::std_specs::hash::axiom_random_state_builds_valid_hashers;

/// Fixed-point unit: a score of `SCALE` stands for 1.0.
pub const SCALE: u64 = 1_000_000;

/// Exploitability assumed for an edge that carries none (0.5).
pub const DEFAULT_EXPLOITABILITY: u64 = 500_000;

/// Criticality assumed for a node that carries none or an unknown one (0.1).
pub const DEFAULT_CRITICALITY: u64 = 100_000;

/// The node properties that classification and technique detection read.
pub struct NodeProperties {
    /// The `criticality` property, when it is a string.
    pub criticality: Option<String>,
    /// The `is_public` property, when it is a boolean.
    pub is_public: Option<bool>,
    /// The `is_public` property, when it is a string.
    pub is_public_text: Option<String>,
    /// The string entries of the `tags` property.
    pub tags: Vec<String>,
    /// The `protocol` property, when it is a string.
    pub protocol: Option<String>,
    /// The `port` property, when it is an unsigned integer.
    pub port: Option<u64>,
    /// The string entries of the `permissions` property.
    pub permissions: Vec<String>,
}

/// A node as materialized from the graph store.
pub struct NodeRecord {
    pub id: String,
    pub label: String,
    pub tenant_id: String,
    pub properties: NodeProperties,
}

/// An edge as materialized from the graph store.
pub struct EdgeRecord {
    pub id: String,
    pub edge_type: String,
    pub source_id: String,
    pub target_id: String,
    /// The `exploitability_score` property in units of `1 / SCALE`, unclamped.
    pub exploitability: Option<i64>,
}

/// Node metadata held by the in-memory graph.
pub struct GraphNode {
    /// Dense index of this node.
    pub index: usize,
    pub id: String,
    pub label: String,
    /// Numeric criticality in units of `1 / SCALE`.
    pub criticality: u64,
    pub is_internet_facing: bool,
    pub is_crown_jewel: bool,
    pub properties: NodeProperties,
}

/// One outgoing edge of a node.
pub struct GraphEdge {
    pub id: String,
    pub edge_type: String,
    /// Exploitability in `[0, SCALE]`.
    pub exploitability: u64,
    /// Dense index of the edge's target node.
    pub target_index: usize,
}

/// Dense-indexed adjacency structure.
pub struct InMemoryGraph {
    pub nodes: Vec<GraphNode>,
    /// `adjacency[i]` holds the outgoing edges of node `i`.
    pub adjacency: Vec<Vec<GraphEdge>>,
    /// External id to dense index.
    pub node_index: HashMap<String, usize>,
}

/// Numeric weight of a lower-cased criticality name.
pub open spec fn criticality_of(lower: Seq<char>) -> u64 {
    if lower == "critical"@ {
        SCALE
    } else if lower == "high"@ {
        800_000
    } else if lower == "medium"@ {
        500_000
    } else if lower == "low"@ {
        200_000
    } else {
        DEFAULT_CRITICALITY
    }
}

/// A tag that marks its node as reachable from the internet.
pub open spec fn marks_internet_facing(tag: Seq<char>) -> bool {
    lower_tag_internet_facing(lower_of(tag))
}

/// A lower-cased tag that marks an entry point.
pub open spec fn lower_tag_internet_facing(t: Seq<char>) -> bool {
    has_substring(t, "internet-facing"@) || has_substring(t, "internet_facing"@) || has_substring(
        t,
        "dmz"@,
    ) || has_substring(t, "public"@)
}

/// A tag that marks its node as a high-value target.
pub open spec fn marks_crown_jewel(tag: Seq<char>) -> bool {
    lower_tag_crown_jewel(lower_of(tag))
}

/// A lower-cased tag that marks a high-value target.
pub open spec fn lower_tag_crown_jewel(t: Seq<char>) -> bool {
    has_substring(t, "crown-jewel"@) || has_substring(t, "crown_jewel"@) || has_substring(
        t,
        "critical-asset"@,
    )
}

pub open spec fn some_tag_internet_facing(tags: Seq<String>) -> bool {
    exists|k: int| 0 <= k < tags.len() && marks_internet_facing(#[trigger] tags[k]@)
}

pub open spec fn some_tag_crown_jewel(tags: Seq<String>) -> bool {
    exists|k: int| 0 <= k < tags.len() && marks_crown_jewel(#[trigger] tags[k]@)
}

/// Numeric criticality of a node's properties.
pub open spec fn node_criticality(p: NodeProperties) -> u64 {
    match p.criticality {
        Some(c) => criticality_of(lower_of(c@)),
        None => DEFAULT_CRITICALITY,
    }
}

/// Entry-point classification: a public subnet, or an internet-facing tag.
pub open spec fn is_entry_point(label: Seq<char>, p: NodeProperties) -> bool {
    (label == "Subnet"@ && flagged_public(p)) || some_tag_internet_facing(p.tags@)
}

/// The `is_public` property is true, as a boolean or as the string "true".
pub open spec fn flagged_public(p: NodeProperties) -> bool {
    match p.is_public {
        Some(b) => b,
        None => p.is_public_text matches Some(t) && t@ == "true"@,
    }
}

/// High-value-target classification: full criticality, or a crown-jewel tag.
pub open spec fn is_high_value(criticality: u64, p: NodeProperties) -> bool {
    criticality >= SCALE || some_tag_crown_jewel(p.tags@)
}

/// Exploitability of an edge property, clamped to `[0, SCALE]`.
pub open spec fn clamped_exploitability(e: Option<i64>) -> u64 {
    match e {
        None => DEFAULT_EXPLOITABILITY,
        Some(v) => if v < 0 {
            0
        } else if v > SCALE {
            SCALE
        } else {
            v as u64
        },
    }
}

impl InMemoryGraph {
    /// Structural well-formedness: dense indices, in-range targets, scores in range.
    pub open spec fn wf(&self) -> bool {
        &&& self.nodes.len() == self.adjacency.len()
        &&& forall|i: int| 0 <= i < self.nodes.len() ==> (#[trigger] self.nodes[i]).index == i
        &&& forall|i: int| 0 <= i < self.nodes.len() ==> (#[trigger] self.nodes[i]).criticality <= SCALE
        &&& forall|i: int, j: int|
            0 <= i < self.adjacency.len() && 0 <= j < self.adjacency[i].len() ==> {
                &&& (#[trigger] self.adjacency[i][j]).target_index < self.nodes.len()
                &&& self.adjacency[i][j].exploitability <= SCALE
            }
    }

    /// Builds the graph from a materialized subgraph. Edges whose endpoints are
    /// not among the nodes are dropped.
    pub fn from_subgraph(nodes: Vec<NodeRecord>, edges: Vec<EdgeRecord>) -> (g: InMemoryGraph)
        ensures
            g.wf(),
            g.nodes.len() == nodes.len(),
            forall|i: int|
                0 <= i < nodes.len() ==> {
                    &&& (#[trigger] g.nodes[i]).id@ == nodes[i].id@
                    &&& g.nodes[i].label@ == nodes[i].label@
                    &&& g.nodes[i].criticality == node_criticality(nodes[i].properties)
                    &&& g.nodes[i].is_internet_facing == is_entry_point(
                        nodes[i].label@,
                        nodes[i].properties,
                    )
                    &&& g.nodes[i].is_crown_jewel == is_high_value(
                        g.nodes[i].criticality,
                        nodes[i].properties,
                    )
                },
            forall|i: int, j: int|
                0 <= i < g.adjacency.len() && 0 <= j < g.adjacency[i].len() ==> edge_has_record(
                    g.nodes@,
                    i,
                    #[trigger] g.adjacency[i][j],
                    edges@,
                ),
            forall|k: int|
                0 <= k < edges.len() && has_node_id(g.nodes@, (#[trigger] edges@[k]).source_id@)
                    && has_node_id(g.nodes@, edges@[k].target_id@) ==> exists|i: int, j: int|
                    0 <= i < g.adjacency.len() && 0 <= j < g.adjacency[i]@.len() && record_matches(
                        edges@[k],
                        g.nodes@,
                        i,
                        g.adjacency[i]@[j],
                    ),
            total_edges(g.adjacency@, g.adjacency@.len() as int) == edges@.filter(
                |r: EdgeRecord| endpoints_present(g.nodes@, r),
            ).len(),
            exists|origin: Seq<Seq<int>>| #[trigger] row_origins(g.nodes@, g.adjacency@, edges@, origin),
            obeys_key_model::<String>() && ids_distinct(nodes@) ==> indexes_ids(
                g.node_index@,
                nodes@,
                nodes@.len() as int,
            ),
    {
        let n = nodes.len();
        let mut node_index: HashMap<String, usize> = HashMap::new();
        let mut graph_nodes: Vec<GraphNode> = Vec::new();
        let mut records = nodes;
        let ghost input = records@;
        let mut i: usize = 0;
        // Consume the records from the back, then restore the order.
        let mut rev: Vec<NodeRecord> = Vec::new();
        while records.len() > 0
            invariant
                records@.len() + rev@.len() == n,
                input.len() == n,
                forall|k: int| 0 <= k < records@.len() ==> #[trigger] records@[k] == input[k],
                forall|k: int| 0 <= k < rev@.len() ==> #[trigger] rev@[k] == input[n - 1 - k],
            decreases records@.len(),
        {
            let r = records.pop().unwrap();
            rev.push(r);
        }
        while i < n
            invariant
                input.len() == n,
                i <= n,
                rev@.len() == n - i,
                forall|k: int| 0 <= k < rev@.len() ==> #[trigger] rev@[k] == input[n - 1 - k],
                graph_nodes@.len() == i,
                forall|k: int|
                    0 <= k < i ==> {
                        &&& (#[trigger] graph_nodes@[k]).index == k
                        &&& graph_nodes@[k].id@ == input[k].id@
                        &&& graph_nodes@[k].label@ == input[k].label@
                        &&& graph_nodes@[k].criticality == node_criticality(input[k].properties)
                        &&& graph_nodes@[k].criticality <= SCALE
                        &&& graph_nodes@[k].is_internet_facing == is_entry_point(
                            input[k].label@,
                            input[k].properties,
                        )
                        &&& graph_nodes@[k].is_crown_jewel == is_high_value(
                            graph_nodes@[k].criticality,
                            input[k].properties,
                        )
                        &&& graph_nodes@[k].properties == input[k].properties
                    },
                obeys_key_model::<String>() && ids_distinct(input) ==> indexes_ids(
                    node_index@,
                    input,
                    i as int,
                ),
            decreases n - i,
        {
            let record = rev.pop().unwrap();
            let ghost old_index = node_index@;
            let key = record.id.clone();
            node_index.insert(key, i);
            proof {
                if obeys_key_model::<String>() && ids_distinct(input) {
                    assert(record == input[i as int]);
                    assert forall|j: int| 0 <= j < i + 1 implies exists|k: String|
                        #[trigger] node_index@.contains_key(k) && k@ == (#[trigger] input[j]).id@
                            && node_index@[k] == j as usize by {
                        if j < i {
                            let k = choose|k: String|
                                #[trigger] old_index.contains_key(k) && k@ == input[j].id@ && old_index[k]
                                    == j as usize;
                            assert(k@ != key@);
                            assert(k != key);
                            assert(node_index@.contains_key(k) && node_index@[k] == j as usize);
                        } else {
                            assert(node_index@.contains_key(key) && node_index@[key] == i);
                        }
                    }
                }
            }
            let criticality = extract_criticality(&record.properties);
            let is_internet_facing = detect_internet_facing(record.label.as_str(), &record.properties);
            let is_crown_jewel = detect_crown_jewel(criticality, &record.properties);
            graph_nodes.push(
                GraphNode {
                    index: i,
                    id: record.id,
                    label: record.label,
                    criticality,
                    is_internet_facing,
                    is_crown_jewel,
                    properties: record.properties,
                },
            );
            i += 1;
        }
        let mut adjacency: Vec<Vec<GraphEdge>> = Vec::new();
        let mut a: usize = 0;
        while a < n
            invariant
                a <= n,
                adjacency@.len() == a,
                forall|k: int| 0 <= k < a ==> (#[trigger] adjacency@[k])@.len() == 0,
                total_edges(adjacency@, a as int) == 0,
                obeys_key_model::<String>() && ids_distinct(input) ==> indexes_ids(
                    node_index@,
                    input,
                    n as int,
                ),
                graph_nodes@.len() == n,
                forall|k: int| 0 <= k < n ==> (#[trigger] graph_nodes@[k]).index == k,
                forall|k: int| 0 <= k < n ==> (#[trigger] graph_nodes@[k]).id@ == input[k].id@,
            decreases n - a,
        {
            let ghost before = adjacency@;
            adjacency.push(Vec::new());
            proof {
                lemma_total_edges_same(before, adjacency@, a as int);
            }
            a += 1;
        }
        let ghost gn = graph_nodes@;
        let ghost kept = |r: EdgeRecord| endpoints_present(gn, r);
        let ghost mut origin: Seq<Seq<int>> = Seq::new(n as nat, |i: int| Seq::<int>::empty());
        let mut e: usize = 0;
        while e < edges.len()
            invariant
                graph_nodes@.len() == n,
                adjacency@.len() == n,
                forall|k: int| 0 <= k < n ==> (#[trigger] graph_nodes@[k]).index == k,
                forall|k: int| 0 <= k < n ==> (#[trigger] graph_nodes@[k]).id@ == input[k].id@,
                forall|s: int, j: int|
                    0 <= s < n && 0 <= j < adjacency@[s]@.len() ==> {
                        let ge = #[trigger] adjacency@[s]@[j];
                        &&& ge.target_index < n
                        &&& ge.exploitability <= SCALE
                        &&& edge_has_record(graph_nodes@, s, ge, edges@)
                    },
                forall|k: int|
                    0 <= k < e && has_node_id(graph_nodes@, (#[trigger] edges@[k]).source_id@)
                        && has_node_id(graph_nodes@, edges@[k].target_id@) ==> exists|i: int, j: int|
                        0 <= i < n && 0 <= j < adjacency@[i]@.len() && record_matches(
                            edges@[k],
                            graph_nodes@,
                            i,
                            adjacency@[i]@[j],
                        ),
                gn == graph_nodes@,
                kept == (|r: EdgeRecord| endpoints_present(gn, r)),
                e <= edges@.len(),
                total_edges(adjacency@, n as int) == edges@.take(e as int).filter(kept).len(),
                row_origins(graph_nodes@, adjacency@, edges@, origin),
                obeys_key_model::<String>() && ids_distinct(input) ==> indexes_ids(
                    node_index@,
                    input,
                    n as int,
                ),
                forall|i: int, j: int|
                    0 <= i < n && 0 <= j < adjacency@[i]@.len() ==> #[trigger] origin[i][j] < e,
            decreases edges.len() - e,
        {
            let edge = &edges[e];
            let src = resolve_index(&graph_nodes, edge.source_id.as_str(), node_index.get(&edge.source_id));
            let tgt = resolve_index(&graph_nodes, edge.target_id.as_str(), node_index.get(&edge.target_id));
            let ghost old_adj = adjacency@;
            proof {
                assert(edges@.take(e + 1) =~= edges@.take(e as int).push(edges@[e as int]));
                edges@.take(e as int).lemma_filter_push(edges@[e as int], kept);
            }
            match (src, tgt) {
                (Some(s), Some(t)) => {
                    let exploitability = extract_exploitability(edge.exploitability);
                    let ge = GraphEdge {
                        id: edge.id.clone(),
                        edge_type: edge.edge_type.clone(),
                        exploitability,
                        target_index: t,
                    };
                    assert(record_matches(edges@[e as int], graph_nodes@, s as int, ge));
                    adjacency[s].push(ge);
                    proof {
                        lemma_total_edges_grow(old_adj, adjacency@, s as int, n as int);
                        assert(endpoints_present(gn, edges@[e as int]));
                        let old_origin = origin;
                        origin = origin.update(s as int, origin[s as int].push(e as int));
                        assert forall|i: int, j: int|
                            0 <= i < n && 0 <= j < adjacency@[i]@.len() implies #[trigger] origin[i][j] < e + 1
                            && 0 <= origin[i][j] && record_matches(edges@[origin[i][j]], graph_nodes@, i, adjacency@[i]@[j]) by {
                            if i != s as int || j < old_adj[i]@.len() {
                                assert(origin[i][j] == old_origin[i][j]);
                                assert(adjacency@[i]@[j] == old_adj[i]@[j]);
                            }
                        }
                        assert(row_origins(graph_nodes@, adjacency@, edges@, origin)) by {
                            assert forall|i: int| 0 <= i < adjacency@.len() implies (#[trigger] origin[i]).len()
                                == adjacency@[i]@.len() by {}
                            assert forall|i: int, j1: int, j2: int|
                                0 <= i < adjacency@.len() && 0 <= j1 < j2 < adjacency@[i]@.len() implies #[trigger] origin[i][j1]
                                < #[trigger] origin[i][j2] by {
                                if i == s as int && j2 == old_adj[i]@.len() {
                                    assert(origin[i][j1] == old_origin[i][j1]);
                                    assert(old_origin[i][j1] < e);
                                } else if i == s as int {
                                    assert(origin[i][j1] == old_origin[i][j1]);
                                    assert(origin[i][j2] == old_origin[i][j2]);
                                }
                            }
                            assert forall|i1: int, j1: int, i2: int, j2: int|
                                0 <= i1 < adjacency@.len() && 0 <= j1 < adjacency@[i1]@.len() && 0 <= i2
                                    < adjacency@.len() && 0 <= j2 < adjacency@[i2]@.len() && (i1 != i2 || j1
                                    != j2) implies #[trigger] origin[i1][j1] != #[trigger] origin[i2][j2] by {
                                let new1 = i1 == s as int && j1 == old_adj[i1]@.len();
                                let new2 = i2 == s as int && j2 == old_adj[i2]@.len();
                                if !new1 {
                                    assert(origin[i1][j1] == old_origin[i1][j1]);
                                    assert(old_origin[i1][j1] < e);
                                }
                                if !new2 {
                                    assert(origin[i2][j2] == old_origin[i2][j2]);
                                    assert(old_origin[i2][j2] < e);
                                }
                            }
                        }
                    }
                    assert forall|s2: int, j: int|
                        0 <= s2 < n && 0 <= j < adjacency@[s2]@.len() implies {
                            let ge2 = #[trigger] adjacency@[s2]@[j];
                            &&& ge2.target_index < n
                            &&& ge2.exploitability <= SCALE
                            &&& edge_has_record(graph_nodes@, s2, ge2, edges@)
                        } by {
                        if s2 != s as int || j != old_adj[s2]@.len() {
                            assert(adjacency@[s2]@[j] == old_adj[s2]@[j]);
                        }
                    }
                    assert forall|k: int|
                        0 <= k < e + 1 && has_node_id(graph_nodes@, (#[trigger] edges@[k]).source_id@)
                            && has_node_id(graph_nodes@, edges@[k].target_id@) implies exists|i: int, j: int|
                        0 <= i < n && 0 <= j < adjacency@[i]@.len() && record_matches(
                            edges@[k],
                            graph_nodes@,
                            i,
                            adjacency@[i]@[j],
                        ) by {
                        if k < e {
                            let (i, j) = choose|i: int, j: int|
                                0 <= i < n && 0 <= j < old_adj[i]@.len() && record_matches(
                                    edges@[k],
                                    graph_nodes@,
                                    i,
                                    old_adj[i]@[j],
                                );
                            assert(adjacency@[i]@[j] == old_adj[i]@[j]);
                        } else {
                            assert(adjacency@[s as int]@[old_adj[s as int]@.len() as int] == ge);
                        }
                    }
                },
                _ => {
                    assert(!endpoints_present(gn, edges@[e as int]));
                    assert forall|k: int|
                        0 <= k < e + 1 && has_node_id(graph_nodes@, (#[trigger] edges@[k]).source_id@)
                            && has_node_id(graph_nodes@, edges@[k].target_id@) implies exists|i: int, j: int|
                        0 <= i < n && 0 <= j < adjacency@[i]@.len() && record_matches(
                            edges@[k],
                            graph_nodes@,
                            i,
                            adjacency@[i]@[j],
                        ) by {
                        if k == e {
                            if src is None {
                                let w = choose|w: int|
                                    0 <= w < graph_nodes@.len() && (#[trigger] graph_nodes@[w]).id@
                                        == edges@[k].source_id@;
                            } else {
                                let w = choose|w: int|
                                    0 <= w < graph_nodes@.len() && (#[trigger] graph_nodes@[w]).id@
                                        == edges@[k].target_id@;
                            }
                        }
                    }
                },
            }
            e += 1;
        }
        assert(edges@.take(edges@.len() as int) =~= edges@);
        let g = InMemoryGraph { nodes: graph_nodes, adjacency, node_index };
        assert(row_origins(g.nodes@, g.adjacency@, edges@, origin));
        g
    }

    /// Indices of the entry-point nodes, in index order.
    pub fn internet_facing_nodes(&self) -> (r: Vec<usize>)
        requires
            self.wf(),
        ensures
            forall|k: int| 0 <= k < r@.len() ==> #[trigger] r@[k] < self.nodes.len(),
            forall|k: int|
                0 <= k < r@.len() ==> self.nodes[#[trigger] r@[k] as int].is_internet_facing,
            forall|i: int|
                0 <= i < self.nodes.len() && (#[trigger] self.nodes[i]).is_internet_facing
                    ==> r@.contains(i as usize),
            r@ == entry_indices(self.nodes@, self.nodes@.len() as int),
            forall|a: int, b: int| 0 <= a < b < r@.len() ==> r@[a] < r@[b],
    {
        let mut r: Vec<usize> = Vec::new();
        let mut i: usize = 0;
        while i < self.nodes.len()
            invariant
                self.wf(),
                i <= self.nodes.len(),
                r@ == entry_indices(self.nodes@, i as int),
                forall|k: int| 0 <= k < r@.len() ==> #[trigger] r@[k] < i,
                forall|k: int|
                    0 <= k < r@.len() ==> self.nodes[#[trigger] r@[k] as int].is_internet_facing,
                forall|j: int|
                    0 <= j < i && (#[trigger] self.nodes[j]).is_internet_facing ==> r@.contains(
                        j as usize,
                    ),
                forall|a: int, b: int| 0 <= a < b < r@.len() ==> r@[a] < r@[b],
            decreases self.nodes.len() - i,
        {
            if self.nodes[i].is_internet_facing {
                let ghost old_r = r@;
                r.push(self.nodes[i].index);
                assert forall|j: int|
                    0 <= j <= i && (#[trigger] self.nodes[j]).is_internet_facing implies r@.contains(
                        j as usize,
                    ) by {
                    if j < i {
                        let w = choose|w: int| 0 <= w < old_r.len() && old_r[w] == j as usize;
                        assert(r@[w] == j as usize);
                    } else {
                        assert(r@[r@.len() - 1] == j as usize);
                    }
                }
            }
            i += 1;
        }
        r
    }

    /// Indices of the high-value nodes, in index order.
    pub fn crown_jewel_nodes(&self) -> (r: Vec<usize>)
        requires
            self.wf(),
        ensures
            forall|k: int| 0 <= k < r@.len() ==> #[trigger] r@[k] < self.nodes.len(),
            forall|k: int| 0 <= k < r@.len() ==> self.nodes[#[trigger] r@[k] as int].is_crown_jewel,
            forall|i: int|
                0 <= i < self.nodes.len() && (#[trigger] self.nodes[i]).is_crown_jewel
                    ==> r@.contains(i as usize),
            r@ == jewel_indices(self.nodes@, self.nodes@.len() as int),
            forall|a: int, b: int| 0 <= a < b < r@.len() ==> r@[a] < r@[b],
    {
        let mut r: Vec<usize> = Vec::new();
        let mut i: usize = 0;
        while i < self.nodes.len()
            invariant
                self.wf(),
                i <= self.nodes.len(),
                r@ == jewel_indices(self.nodes@, i as int),
                forall|k: int| 0 <= k < r@.len() ==> #[trigger] r@[k] < i,
                forall|k: int| 0 <= k < r@.len() ==> self.nodes[#[trigger] r@[k] as int].is_crown_jewel,
                forall|j: int|
                    0 <= j < i && (#[trigger] self.nodes[j]).is_crown_jewel ==> r@.contains(j as usize),
                forall|a: int, b: int| 0 <= a < b < r@.len() ==> r@[a] < r@[b],
            decreases self.nodes.len() - i,
        {
            if self.nodes[i].is_crown_jewel {
                let ghost old_r = r@;
                r.push(self.nodes[i].index);
                assert forall|j: int|
                    0 <= j <= i && (#[trigger] self.nodes[j]).is_crown_jewel implies r@.contains(
                        j as usize,
                    ) by {
                    if j < i {
                        let w = choose|w: int| 0 <= w < old_r.len() && old_r[w] == j as usize;
                        assert(r@[w] == j as usize);
                    } else {
                        assert(r@[r@.len() - 1] == j as usize);
                    }
                }
            }
            i += 1;
        }
        r
    }

    /// Number of nodes.
    pub fn node_count(&self) -> (r: usize)
        ensures
            r == self.nodes.len(),
    {
        self.nodes.len()
    }

    /// Number of edges, summed over all adjacency rows.
    pub fn edge_count(&self) -> (r: u64)
        ensures
            r == total_edges(self.adjacency@, self.adjacency@.len() as int) || r == u64::MAX,
    {
        let mut total: u64 = 0;
        let mut i: usize = 0;
        while i < self.adjacency.len()
            invariant
                i <= self.adjacency.len(),
                total == total_edges(self.adjacency@, i as int) || total == u64::MAX,
            decreases self.adjacency.len() - i,
        {
            let row = self.adjacency[i].len() as u64;
            if total == u64::MAX || total > u64::MAX - row {
                total = u64::MAX;
            } else {
                total = total + row;
            }
            i += 1;
        }
        total
    }
}

/// `r` is the store record that the adjacency entry `ge` of node `src` was built from.
pub open spec fn record_matches(r: EdgeRecord, nodes: Seq<GraphNode>, src: int, ge: GraphEdge) -> bool {
    &&& r.source_id@ == nodes[src].id@
    &&& r.target_id@ == nodes[ge.target_index as int].id@
    &&& ge.id@ == r.id@
    &&& ge.edge_type@ == r.edge_type@
    &&& ge.exploitability == clamped_exploitability(r.exploitability)
}

/// Some record among `edges` produced the adjacency entry `ge` of node `src`.
pub open spec fn edge_has_record(
    nodes: Seq<GraphNode>,
    src: int,
    ge: GraphEdge,
    edges: Seq<EdgeRecord>,
) -> bool {
    exists|k: int| 0 <= k < edges.len() && #[trigger] record_matches(edges[k], nodes, src, ge)
}

/// Some node carries the external id `id`.
pub open spec fn has_node_id(nodes: Seq<GraphNode>, id: Seq<char>) -> bool {
    exists|w: int| 0 <= w < nodes.len() && (#[trigger] nodes[w]).id@ == id
}

/// Index of a node with id `id`: the map's answer when it checks out, else the
/// last such node by scanning; `None` only when no node has that id.
fn resolve_index(nodes: &Vec<GraphNode>, id: &str, hint: Option<&usize>) -> (r: Option<usize>)
    ensures
        r matches Some(i) ==> i < nodes@.len() && nodes@[i as int].id@ == id@,
        r is None ==> !has_node_id(nodes@, id@),
{
    match hint {
        Some(i) => {
            let i = *i;
            if i < nodes.len() && str_eq(nodes[i].id.as_str(), id) {
                return Some(i);
            }
        },
        None => {},
    }
    let mut k: usize = nodes.len();
    while k > 0
        invariant
            k <= nodes@.len(),
            forall|j: int| k <= j < nodes@.len() ==> (#[trigger] nodes@[j]).id@ != id@,
        decreases k,
    {
        k -= 1;
        if str_eq(nodes[k].id.as_str(), id) {
            return Some(k);
        }
    }
    None
}

/// Indices of the entry points among the first `upto` nodes, in order.
pub open spec fn entry_indices(nodes: Seq<GraphNode>, upto: int) -> Seq<usize>
    decreases upto,
{
    if upto <= 0 {
        Seq::empty()
    } else if nodes[upto - 1].is_internet_facing {
        entry_indices(nodes, upto - 1).push((upto - 1) as usize)
    } else {
        entry_indices(nodes, upto - 1)
    }
}

/// Indices of the crown jewels among the first `upto` nodes, in order.
pub open spec fn jewel_indices(nodes: Seq<GraphNode>, upto: int) -> Seq<usize>
    decreases upto,
{
    if upto <= 0 {
        Seq::empty()
    } else if nodes[upto - 1].is_crown_jewel {
        jewel_indices(nodes, upto - 1).push((upto - 1) as usize)
    } else {
        jewel_indices(nodes, upto - 1)
    }
}

/// `origin[i][j]` is the index of the edge record that adjacency entry `j` of
/// node `i` was built from; rows follow record order and no record is used twice.
pub open spec fn row_origins(
    nodes: Seq<GraphNode>,
    adj: Seq<Vec<GraphEdge>>,
    edges: Seq<EdgeRecord>,
    origin: Seq<Seq<int>>,
) -> bool {
    &&& origin.len() == adj.len()
    &&& forall|i: int| 0 <= i < adj.len() ==> (#[trigger] origin[i]).len() == adj[i]@.len()
    &&& forall|i: int, j: int|
        0 <= i < adj.len() && 0 <= j < adj[i]@.len() ==> {
            &&& 0 <= #[trigger] origin[i][j] < edges.len()
            &&& record_matches(edges[origin[i][j]], nodes, i, adj[i]@[j])
        }
    &&& forall|i: int, j1: int, j2: int|
        0 <= i < adj.len() && 0 <= j1 < j2 < adj[i]@.len() ==> #[trigger] origin[i][j1]
            < #[trigger] origin[i][j2]
    &&& forall|i1: int, j1: int, i2: int, j2: int|
        0 <= i1 < adj.len() && 0 <= j1 < adj[i1]@.len() && 0 <= i2 < adj.len() && 0 <= j2
            < adj[i2]@.len() && (i1 != i2 || j1 != j2) ==> #[trigger] origin[i1][j1]
            != #[trigger] origin[i2][j2]
}

/// No two records carry the same id.
pub open spec fn ids_distinct(records: Seq<NodeRecord>) -> bool {
    forall|a: int, b: int| 0 <= a < b < records.len() ==> (#[trigger] records[a]).id@ != (#[trigger] records[b]).id@
}

/// The map sends the id of each of the first `upto` records to its position.
pub open spec fn indexes_ids(m: Map<String, usize>, records: Seq<NodeRecord>, upto: int) -> bool {
    forall|i: int|
        0 <= i < upto ==> exists|k: String|
            #[trigger] m.contains_key(k) && k@ == (#[trigger] records[i]).id@ && m[k] == i as usize
}

/// Both endpoints of an edge record name nodes of the graph.
pub open spec fn endpoints_present(nodes: Seq<GraphNode>, r: EdgeRecord) -> bool {
    has_node_id(nodes, r.source_id@) && has_node_id(nodes, r.target_id@)
}

proof fn lemma_total_edges_same(a1: Seq<Vec<GraphEdge>>, a2: Seq<Vec<GraphEdge>>, upto: int)
    requires
        0 <= upto <= a1.len(),
        upto <= a2.len(),
        forall|i: int| 0 <= i < upto ==> (#[trigger] a1[i])@.len() == a2[i]@.len(),
    ensures
        total_edges(a1, upto) == total_edges(a2, upto),
    decreases upto,
{
    if upto > 0 {
        lemma_total_edges_same(a1, a2, upto - 1);
    }
}

proof fn lemma_total_edges_grow(a1: Seq<Vec<GraphEdge>>, a2: Seq<Vec<GraphEdge>>, s: int, upto: int)
    requires
        0 <= upto <= a1.len(),
        a1.len() == a2.len(),
        0 <= s < a1.len(),
        a2[s]@.len() == a1[s]@.len() + 1,
        forall|i: int| 0 <= i < a1.len() && i != s ==> (#[trigger] a1[i])@.len() == a2[i]@.len(),
    ensures
        total_edges(a2, upto) == total_edges(a1, upto) + if s < upto {
            1int
        } else {
            0
        },
    decreases upto,
{
    if upto > 0 {
        lemma_total_edges_grow(a1, a2, s, upto - 1);
    }
}

/// Sum of the first `upto` adjacency row lengths.
pub open spec fn total_edges(adj: Seq<Vec<GraphEdge>>, upto: int) -> int
    decreases upto,
{
    if upto <= 0 {
        0
    } else {
        total_edges(adj, upto - 1) + adj[upto - 1]@.len()
    }
}

/// Maps a criticality name to its numeric weight (case-insensitive).
pub fn criticality_weight(criticality: &str) -> (r: u64)
    ensures
        r == criticality_of(lower_of(criticality@)),
        r <= SCALE,
{
    let lower = lowercase(criticality);
    criticality_of_lower(lower.as_str())
}

/// Numeric weight of an already lower-cased criticality name.
pub fn criticality_of_lower(l: &str) -> (r: u64)
    ensures
        r == criticality_of(l@),
        r <= SCALE,
{
    if str_eq(l, "critical") {
        SCALE
    } else if str_eq(l, "high") {
        800_000
    } else if str_eq(l, "medium") {
        500_000
    } else if str_eq(l, "low") {
        200_000
    } else {
        DEFAULT_CRITICALITY
    }
}

fn extract_criticality(p: &NodeProperties) -> (r: u64)
    ensures
        r == node_criticality(*p),
        r <= SCALE,
{
    match &p.criticality {
        Some(c) => criticality_weight(c.as_str()),
        None => DEFAULT_CRITICALITY,
    }
}

fn tag_marks_internet_facing(tag: &str) -> (r: bool)
    ensures
        r == marks_internet_facing(tag@),
{
    let lower = lowercase(tag);
    lower_marks_internet_facing(lower.as_str())
}

/// Whether an already lower-cased tag names an entry point.
pub fn lower_marks_internet_facing(l: &str) -> (r: bool)
    ensures
        r == lower_tag_internet_facing(l@),
{
    contains_str(l, "internet-facing") || contains_str(l, "internet_facing") || contains_str(
        l,
        "dmz",
    ) || contains_str(l, "public")
}

fn tag_marks_crown_jewel(tag: &str) -> (r: bool)
    ensures
        r == marks_crown_jewel(tag@),
{
    let lower = lowercase(tag);
    lower_marks_crown_jewel(lower.as_str())
}

/// Whether an already lower-cased tag names a high-value target.
pub fn lower_marks_crown_jewel(l: &str) -> (r: bool)
    ensures
        r == lower_tag_crown_jewel(l@),
{
    contains_str(l, "crown-jewel") || contains_str(l, "crown_jewel") || contains_str(
        l,
        "critical-asset",
    )
}

/// Entry-point classification of one node.
pub fn detect_internet_facing(label: &str, p: &NodeProperties) -> (r: bool)
    ensures
        r == is_entry_point(label@, *p),
{
    if str_eq(label, "Subnet") {
        let public = match p.is_public {
            Some(b) => b,
            None => match &p.is_public_text {
                Some(t) => str_eq(t.as_str(), "true"),
                None => false,
            },
        };
        if public {
            return true;
        }
    }
    let mut k: usize = 0;
    while k < p.tags.len()
        invariant
            k <= p.tags@.len(),
            !(label@ == "Subnet"@ && flagged_public(*p)),
            forall|j: int| 0 <= j < k ==> !marks_internet_facing(#[trigger] p.tags@[j]@),
        decreases p.tags@.len() - k,
    {
        if tag_marks_internet_facing(p.tags[k].as_str()) {
            return true;
        }
        k += 1;
    }
    false
}

/// High-value-target classification of one node.
pub fn detect_crown_jewel(criticality: u64, p: &NodeProperties) -> (r: bool)
    ensures
        r == is_high_value(criticality, *p),
{
    if criticality >= SCALE {
        return true;
    }
    let mut k: usize = 0;
    while k < p.tags.len()
        invariant
            k <= p.tags@.len(),
            forall|j: int| 0 <= j < k ==> !marks_crown_jewel(#[trigger] p.tags@[j]@),
        decreases p.tags@.len() - k,
    {
        if tag_marks_crown_jewel(p.tags[k].as_str()) {
            return true;
        }
        k += 1;
    }
    false
}

/// Exploitability of an edge: clamped to `[0, SCALE]`, 0.5 when absent.
pub fn extract_exploitability(e: Option<i64>) -> (r: u64)
    ensures
        r == clamped_exploitability(e),
        r <= SCALE,
{
    match e {
        None => DEFAULT_EXPLOITABILITY,
        Some(v) => if v < 0 {
            0
        } else if v > SCALE as i64 {
            SCALE
        } else {
            v as u64
        },
    }
}

} // verus!
