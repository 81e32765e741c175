use std::collections::HashMap;

use sentinel::blast::compute_blast_radius;
use sentinel::graph::{
    criticality_weight, detect_crown_jewel, detect_internet_facing, extract_exploitability,
    EdgeRecord, GraphEdge, GraphNode, InMemoryGraph, NodeProperties, NodeRecord, SCALE,
};
use sentinel::graph::{criticality_of_lower, lower_marks_crown_jewel, lower_marks_internet_facing};
use sentinel::lateral::{
    detect_lateral_chains, detect_technique, is_lateral_edge, lower_mentions_admin, technique_from_hints,
};
use sentinel::paths::{enumerate_all_paths, shortest_weighted_path};

fn props() -> NodeProperties {
    NodeProperties {
        criticality: None,
        is_public: None,
        is_public_text: None,
        tags: vec![],
        protocol: None,
        port: None,
        permissions: vec![],
    }
}

fn node(index: usize, id: &str, label: &str, criticality: u64, entry: bool, jewel: bool) -> GraphNode {
    GraphNode {
        index,
        id: id.to_string(),
        label: label.to_string(),
        criticality,
        is_internet_facing: entry,
        is_crown_jewel: jewel,
        properties: props(),
    }
}

fn edge(id: &str, edge_type: &str, exploitability: u64, target_index: usize) -> GraphEdge {
    GraphEdge { id: id.to_string(), edge_type: edge_type.to_string(), exploitability, target_index }
}

fn assemble(nodes: Vec<GraphNode>, adjacency: Vec<Vec<GraphEdge>>) -> InMemoryGraph {
    let mut node_index = HashMap::new();
    for n in &nodes {
        node_index.insert(n.id.clone(), n.index);
    }
    InMemoryGraph { nodes, adjacency, node_index }
}

/// 0 --0.8--> 1 --0.9--> 3 and 0 --0.3--> 2 --0.4--> 3.
fn build_test_graph() -> InMemoryGraph {
    assemble(
        vec![
            node(0, "n0", "Host", 200_000, true, false),
            node(1, "n1", "Service", 500_000, false, false),
            node(2, "n2", "Service", 500_000, false, false),
            node(3, "n3", "Host", 1_000_000, false, true),
        ],
        vec![
            vec![edge("e01", "CONNECTS_TO", 800_000, 1), edge("e02", "CONNECTS_TO", 300_000, 2)],
            vec![edge("e13", "HAS_ACCESS", 900_000, 3)],
            vec![edge("e23", "CONNECTS_TO", 400_000, 3)],
            vec![],
        ],
    )
}

fn build_star_graph() -> InMemoryGraph {
    let exploitabilities = [800_000, 500_000, 200_000, 900_000];
    let criticalities = [500_000, 1_000_000, 200_000, 800_000];
    let is_crown = [false, true, false, false];
    let mut nodes = vec![node(0, "center", "Host", 500_000, false, false)];
    for i in 0..4 {
        nodes.push(node(i + 1, &format!("leaf{i}"), "Host", criticalities[i], false, is_crown[i]));
    }
    let center: Vec<GraphEdge> =
        (0..4).map(|i| edge(&format!("e0{}", i + 1), "CONNECTS_TO", exploitabilities[i], i + 1)).collect();
    assemble(nodes, vec![center, vec![], vec![], vec![], vec![]])
}

fn build_lateral_graph() -> InMemoryGraph {
    let nodes = (0..4).map(|i| node(i, &format!("n{i}"), "Host", 500_000, false, false)).collect();
    assemble(
        nodes,
        vec![
            vec![edge("e01", "HAS_ACCESS", 700_000, 1)],
            vec![edge("e12", "TRUSTS", 800_000, 2)],
            vec![edge("e23", "CAN_REACH", 600_000, 3)],
            vec![],
        ],
    )
}

fn record(id: &str, label: &str, p: NodeProperties) -> NodeRecord {
    NodeRecord { id: id.to_string(), label: label.to_string(), tenant_id: "t-1".to_string(), properties: p }
}

fn link(id: &str, edge_type: &str, source: &str, target: &str, exploit: i64) -> EdgeRecord {
    EdgeRecord {
        id: id.to_string(),
        edge_type: edge_type.to_string(),
        source_id: source.to_string(),
        target_id: target.to_string(),
        exploitability: Some(exploit),
    }
}

fn with_criticality(c: &str) -> NodeProperties {
    NodeProperties { criticality: Some(c.to_string()), ..props() }
}

fn with_tags(tags: &[&str]) -> NodeProperties {
    NodeProperties { tags: tags.iter().map(|t| t.to_string()).collect(), ..props() }
}

#[test]
fn test_enumerate_all_paths_finds_both() {
    let graph = build_test_graph();
    let paths = enumerate_all_paths(&graph, &vec![0], &vec![3], 10, 100);
    assert_eq!(paths.len(), 2);
    assert_eq!(paths[0].total_weight, 300_000);
    assert_eq!(paths[1].total_weight, 1_300_000);
    assert_eq!(paths[0].node_indices, vec![0, 1, 3]);
    assert_eq!(paths[1].node_indices, vec![0, 2, 3]);
}

#[test]
fn test_enumerate_respects_max_depth() {
    let graph = build_test_graph();
    let paths = enumerate_all_paths(&graph, &vec![0], &vec![3], 1, 100);
    assert_eq!(paths.len(), 0);
}

#[test]
fn test_enumerate_respects_max_paths() {
    let graph = build_test_graph();
    let paths = enumerate_all_paths(&graph, &vec![0], &vec![3], 10, 1);
    assert_eq!(paths.len(), 1);
}

#[test]
fn test_shortest_weighted_path() {
    let graph = build_test_graph();
    let path = shortest_weighted_path(&graph, 0, 3);
    assert!(path.is_some());
    let path = path.unwrap();
    assert_eq!(path.node_indices, vec![0, 1, 3]);
    assert_eq!(path.total_weight, 300_000);
    assert_eq!(path.edges, vec![(0, 0), (1, 0)]);
}

#[test]
fn test_shortest_path_unreachable() {
    let graph = build_test_graph();
    assert!(shortest_weighted_path(&graph, 3, 0).is_none());
}

#[test]
fn test_shortest_path_same_node() {
    let graph = build_test_graph();
    let path = shortest_weighted_path(&graph, 0, 0);
    assert!(path.is_some());
    let path = path.unwrap();
    assert_eq!(path.node_indices, vec![0]);
    assert_eq!(path.total_weight, 0);
}

#[test]
fn test_cycle_detection() {
    let nodes = (0..4)
        .map(|i| node(i, &format!("n{i}"), "Host", if i == 3 { 1_000_000 } else { 200_000 }, i == 0, i == 3))
        .collect();
    let graph = assemble(
        nodes,
        vec![
            vec![edge("e01", "CONNECTS_TO", 800_000, 1)],
            vec![edge("e12", "CONNECTS_TO", 700_000, 2)],
            vec![edge("e20", "CONNECTS_TO", 600_000, 0), edge("e23", "HAS_ACCESS", 900_000, 3)],
            vec![],
        ],
    );
    let paths = enumerate_all_paths(&graph, &vec![0], &vec![3], 10, 100);
    assert_eq!(paths.len(), 1);
    assert_eq!(paths[0].node_indices, vec![0, 1, 2, 3]);
}

#[test]
fn shortest_path_prefers_lighter_longer_route() {
    // 0 -> 3 directly costs 0.9; 0 -> 1 -> 2 -> 3 costs 0.3.
    let graph = assemble(
        (0..4).map(|i| node(i, &format!("n{i}"), "Host", 100_000, false, false)).collect(),
        vec![
            vec![edge("a", "CONNECTS_TO", 100_000, 3), edge("b", "CONNECTS_TO", 900_000, 1)],
            vec![edge("c", "CONNECTS_TO", 900_000, 2)],
            vec![edge("d", "CONNECTS_TO", 900_000, 3)],
            vec![],
        ],
    );
    let p = shortest_weighted_path(&graph, 0, 3).unwrap();
    assert_eq!(p.node_indices, vec![0, 1, 2, 3]);
    assert_eq!(p.total_weight, 300_000);
}

#[test]
fn test_blast_radius_star() {
    let graph = build_star_graph();
    let result = compute_blast_radius(&graph, 0, 5, 300_000);
    assert_eq!(result.total_reachable, 3);
    assert_eq!(result.compromised_node_id, "center");
    assert!(result.reachable_nodes.iter().all(|r| r.index != 0 && r.hops == 1));
}

#[test]
fn test_blast_radius_counts_critical() {
    let graph = build_star_graph();
    let result = compute_blast_radius(&graph, 0, 5, 300_000);
    assert_eq!(result.critical_reachable, 1);
}

#[test]
fn test_blast_radius_max_hops() {
    let graph = build_star_graph();
    let result = compute_blast_radius(&graph, 0, 0, 0);
    assert_eq!(result.total_reachable, 0);
}

#[test]
fn test_blast_radius_high_threshold() {
    let graph = build_star_graph();
    let result = compute_blast_radius(&graph, 0, 5, 950_000);
    assert_eq!(result.total_reachable, 0);
}

#[test]
fn test_blast_radius_low_threshold() {
    let graph = build_star_graph();
    let result = compute_blast_radius(&graph, 0, 5, 0);
    assert_eq!(result.total_reachable, 4);
}

#[test]
fn test_blast_radius_sorted_by_hops() {
    let graph = build_star_graph();
    let result = compute_blast_radius(&graph, 0, 5, 0);
    if result.reachable_nodes.len() >= 2 {
        assert!(
            result.reachable_nodes[0].cumulative_exploitability
                >= result.reachable_nodes[1].cumulative_exploitability
        );
    }
}

#[test]
fn blast_score_sums_criticality_times_exploitability() {
    let graph = build_star_graph();
    let result = compute_blast_radius(&graph, 0, 5, 300_000);
    // 0.9*0.8 + 0.8*0.5 + 0.5*1.0 = 1.62
    assert_eq!(result.blast_score, 1_620_000);
    let order: Vec<&str> = result.reachable_nodes.iter().map(|r| r.node_id.as_str()).collect();
    assert_eq!(order, vec!["leaf3", "leaf0", "leaf1"]);
}

#[test]
fn blast_radius_multiplies_along_chain() {
    let graph = assemble(
        (0..3).map(|i| node(i, &format!("n{i}"), "Host", 1_000_000, false, false)).collect(),
        vec![vec![edge("a", "TRUSTS", 500_000, 1)], vec![edge("b", "TRUSTS", 500_000, 2)], vec![]],
    );
    let result = compute_blast_radius(&graph, 0, 5, 0);
    assert_eq!(result.reachable_nodes[1].hops, 2);
    assert_eq!(result.reachable_nodes[1].cumulative_exploitability, 250_000);
    let capped = compute_blast_radius(&graph, 0, 1, 0);
    assert_eq!(capped.total_reachable, 1);
}

#[test]
fn test_from_subgraph_basic() {
    let nodes = vec![
        record("n1", "Host", with_criticality("high")),
        record("n2", "Service", props()),
        record("n3", "Host", with_criticality("critical")),
    ];
    let edges = vec![
        link("e1", "CONNECTS_TO", "n1", "n2", 700_000),
        link("e2", "RUNS_ON", "n2", "n3", 900_000),
    ];
    let graph = InMemoryGraph::from_subgraph(nodes, edges);
    assert_eq!(graph.node_count(), 3);
    assert_eq!(graph.edge_count(), 2);
    assert_eq!(graph.adjacency[0].len(), 1);
    assert_eq!(graph.adjacency[1].len(), 1);
    assert_eq!(graph.adjacency[2].len(), 0);
    assert_eq!(graph.nodes[0].criticality, 800_000);
    assert!(graph.nodes[2].is_crown_jewel);
}

#[test]
fn test_internet_facing_detection() {
    let nodes = vec![
        record("s1", "Subnet", NodeProperties { is_public: Some(true), ..props() }),
        record("h1", "Host", with_tags(&["dmz", "web"])),
        record("h2", "Host", with_criticality("low")),
    ];
    let graph = InMemoryGraph::from_subgraph(nodes, vec![]);
    let internet_facing = graph.internet_facing_nodes();
    assert_eq!(internet_facing.len(), 2);
    assert!(internet_facing.contains(&0));
    assert!(internet_facing.contains(&1));
}

#[test]
fn test_crown_jewel_detection() {
    let nodes = vec![
        record("db1", "Host", with_criticality("critical")),
        record("db2", "Host", NodeProperties { tags: vec!["crown-jewel".to_string()], ..with_criticality("high") }),
        record("web1", "Host", with_criticality("low")),
    ];
    let graph = InMemoryGraph::from_subgraph(nodes, vec![]);
    let crown_jewels = graph.crown_jewel_nodes();
    assert_eq!(crown_jewels.len(), 2);
    assert!(crown_jewels.contains(&0));
    assert!(crown_jewels.contains(&1));
}

#[test]
fn test_criticality_weight() {
    assert_eq!(criticality_weight("critical"), SCALE);
    assert_eq!(criticality_weight("high"), 800_000);
    assert_eq!(criticality_weight("medium"), 500_000);
    assert_eq!(criticality_weight("low"), 200_000);
    assert_eq!(criticality_weight("info"), 100_000);
    assert_eq!(criticality_weight("unknown"), 100_000);
    assert_eq!(criticality_weight("CRITICAL"), SCALE);
}

#[test]
fn test_exploitability_extraction() {
    assert_eq!(extract_exploitability(Some(850_000)), 850_000);
    assert_eq!(extract_exploitability(None), 500_000);
    assert_eq!(extract_exploitability(Some(1_500_000)), SCALE);
    assert_eq!(extract_exploitability(Some(-3)), 0);
}

#[test]
fn test_edge_with_missing_node_ignored() {
    let nodes = vec![record("n1", "Host", props())];
    let edges = vec![link("e1", "CONNECTS_TO", "n1", "n_missing", 500_000)];
    let graph = InMemoryGraph::from_subgraph(nodes, edges);
    assert_eq!(graph.edge_count(), 0);
}

#[test]
fn test_node_index_mapping() {
    let nodes = vec![record("alpha", "Host", props()), record("beta", "Service", props())];
    let graph = InMemoryGraph::from_subgraph(nodes, vec![]);
    assert_eq!(graph.node_index.get("alpha"), Some(&0));
    assert_eq!(graph.node_index.get("beta"), Some(&1));
    assert_eq!(graph.node_index.get("gamma"), None);
}

#[test]
fn classifiers_read_tags_case_insensitively() {
    assert!(detect_internet_facing("Host", &with_tags(&["Internet-Facing web"])));
    assert!(!detect_internet_facing("Host", &with_tags(&["internal"])));
    let private = NodeProperties { is_public: Some(false), tags: vec!["dmz".to_string()], ..props() };
    assert!(detect_internet_facing("Subnet", &private));
    let closed = NodeProperties { is_public: Some(false), ..props() };
    assert!(!detect_internet_facing("Subnet", &closed));
    let text = NodeProperties { is_public_text: Some("true".to_string()), ..props() };
    assert!(detect_internet_facing("Subnet", &text));
    assert!(detect_crown_jewel(200_000, &with_tags(&["CRITICAL-ASSET"])));
    assert!(!detect_crown_jewel(800_000, &with_tags(&["asset"])));
    assert!(detect_crown_jewel(SCALE, &props()));
}

#[test]
fn test_detect_lateral_chains() {
    let graph = build_lateral_graph();
    let chains = detect_lateral_chains(&graph, 2, 8);
    assert!(!chains.is_empty());
    let lengths: Vec<usize> = chains.iter().map(|c| c.chain_length).collect();
    assert!(lengths.contains(&2));
    assert!(lengths.contains(&3));
}

#[test]
fn test_detect_lateral_chains_min_length() {
    let graph = build_lateral_graph();
    let chains = detect_lateral_chains(&graph, 3, 8);
    for chain in &chains {
        assert!(chain.chain_length >= 3);
    }
}

#[test]
fn lateral_chains_are_longest_first_with_techniques() {
    let graph = build_lateral_graph();
    let chains = detect_lateral_chains(&graph, 2, 8);
    assert_eq!(chains.len(), 3);
    assert_eq!(chains[0].chain_length, 3);
    assert_eq!(chains[0].techniques, vec!["credential-access", "trust-exploitation", "network-pivot"]);
    assert_eq!(chains[0].path.total_weight, 900_000);
}

#[test]
fn test_detect_technique_ssh() {
    let p = NodeProperties { protocol: Some("ssh".to_string()), port: Some(22), ..props() };
    assert_eq!(detect_technique("HAS_ACCESS", &p), Some("ssh-pivot".to_string()));
}

#[test]
fn test_detect_technique_rdp() {
    let p = NodeProperties { port: Some(3389), ..props() };
    assert_eq!(detect_technique("CAN_REACH", &p), Some("rdp-hop".to_string()));
}

#[test]
fn test_detect_technique_trust() {
    assert_eq!(detect_technique("TRUSTS", &props()), Some("trust-exploitation".to_string()));
}

#[test]
fn technique_table_remaining_rows() {
    let admin = NodeProperties { permissions: vec!["read".to_string(), "Domain Admins".to_string()], ..props() };
    assert_eq!(detect_technique("HAS_ACCESS", &admin), Some("pass-the-hash".to_string()));
    assert_eq!(detect_technique("HAS_ACCESS", &props()), Some("credential-access".to_string()));
    let ssh_upper = NodeProperties { protocol: Some("SSH".to_string()), ..props() };
    assert_eq!(detect_technique("CONNECTS_TO", &ssh_upper), Some("ssh-pivot".to_string()));
    assert_eq!(detect_technique("CONNECTS_TO", &props()), None);
    assert_eq!(detect_technique("RUNS_ON", &props()), None);
    assert!(is_lateral_edge("CAN_REACH"));
    assert!(!is_lateral_edge("HAS_CVE"));
}

#[test]
fn test_non_lateral_edges_ignored() {
    let graph = assemble(
        (0..3).map(|i| node(i, &format!("n{i}"), "Host", 500_000, false, false)).collect(),
        vec![vec![edge("e01", "RUNS_ON", 700_000, 1)], vec![edge("e12", "HAS_CVE", 800_000, 2)], vec![]],
    );
    let chains = detect_lateral_chains(&graph, 1, 8);
    assert!(chains.is_empty());
}

#[test]
fn lowered_text_helpers() {
    assert_eq!(criticality_of_lower("high"), 800_000);
    assert_eq!(criticality_of_lower("HIGH"), 100_000);
    assert!(lower_marks_internet_facing("edge-dmz-01"));
    assert!(!lower_marks_crown_jewel("crown jewel"));
    assert!(lower_mentions_admin("domain admins"));
    assert_eq!(technique_from_hints("HAS_ACCESS", "smb", 445, true), Some("pass-the-hash".to_string()));
    assert_eq!(technique_from_hints("CAN_REACH", "rdp", 0, false), Some("rdp-hop".to_string()));
}

#[test]
fn star_blast_radius_names_the_gated_leaves() {
    let graph = build_star_graph();
    let result = compute_blast_radius(&graph, 0, 5, 300_000);
    let mut ids: Vec<&str> = result.reachable_nodes.iter().map(|r| r.node_id.as_str()).collect();
    ids.sort();
    assert_eq!(ids, vec!["leaf0", "leaf1", "leaf3"]);
}

#[test]
fn max_depth_bounds_the_node_count() {
    let graph = assemble(
        vec![node(0, "a", "Host", 100_000, true, false), node(1, "b", "Host", 1_000_000, false, true)],
        vec![vec![edge("e", "CONNECTS_TO", 500_000, 1)], vec![]],
    );
    assert!(enumerate_all_paths(&graph, &vec![0], &vec![1], 1, 10).is_empty());
    assert_eq!(enumerate_all_paths(&graph, &vec![0], &vec![1], 2, 10).len(), 1);
}
