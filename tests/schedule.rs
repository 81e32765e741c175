use sentinel::config::{
    default_api_host, default_pg_port, parse_profile, resolve_tenant_id, DiscoverConfig, GraphConfig,
    PostgresConfig, ScanProfile, SubnetSchedule,
};
use sentinel::model::TenantId;
use sentinel::nmap::DiscoverError;
use sentinel::discovery::DiffSummary;
use sentinel::engine::{blast_origins, lookup_node, path_steps, plan_computation, select_endpoints, PathfindError};
use sentinel::graph::{EdgeRecord, InMemoryGraph, NodeProperties, NodeRecord};
use sentinel::model::opt_string;
use sentinel::paths::shortest_weighted_path;
use sentinel::schedule::{record_scan_error, record_scan_results, scan_plan, stale_cutoff, start_scan_session};

fn subnet(cidr: &str, profile: Option<ScanProfile>, enabled: bool) -> SubnetSchedule {
    SubnetSchedule { cidr: cidr.to_string(), name: None, profile, interval_secs: 60, enabled }
}

fn blank_props() -> NodeProperties {
    NodeProperties {
        criticality: None,
        is_public: None,
        is_public_text: None,
        tags: vec![],
        protocol: None,
        port: None,
        permissions: vec![],
    }
}

fn small_graph() -> InMemoryGraph {
    let nodes = vec![
        NodeRecord {
            id: "a".to_string(),
            label: "Subnet".to_string(),
            tenant_id: "t".to_string(),
            properties: NodeProperties { is_public: Some(true), ..blank_props() },
        },
        NodeRecord {
            id: "b".to_string(),
            label: "Host".to_string(),
            tenant_id: "t".to_string(),
            properties: NodeProperties { criticality: Some("critical".to_string()), port: Some(22), ..blank_props() },
        },
    ];
    let edges = vec![EdgeRecord {
        id: "e".to_string(),
        edge_type: "CAN_REACH".to_string(),
        source_id: "a".to_string(),
        target_id: "b".to_string(),
        exploitability: None,
    }];
    InMemoryGraph::from_subgraph(nodes, edges)
}

#[test]
fn plan_covers_enabled_subnets_with_their_profiles() {
    let mut config = DiscoverConfig::default();
    config.subnets = vec![
        subnet("10.0.1.0/24", None, true),
        subnet("10.0.2.0/24", Some(ScanProfile::Deep), false),
        subnet("10.0.3.0/24", Some(ScanProfile::Quick), true),
    ];
    let plan = scan_plan(&config);
    assert_eq!(plan.len(), 2);
    assert_eq!(plan[0].cidr, "10.0.1.0/24");
    assert_eq!(plan[0].profile, ScanProfile::Standard);
    assert_eq!(plan[1].cidr, "10.0.3.0/24");
    assert_eq!(plan[1].profile, ScanProfile::Quick);
    assert_eq!(plan[1].interval_secs, 60);
}

#[test]
fn stale_cutoff_subtracts_the_threshold() {
    let now = 1_700_000_000_000_000_000i64;
    assert_eq!(stale_cutoff(now, 24), Some(now - 24 * 3_600_000_000_000));
    assert_eq!(stale_cutoff(now, 0), Some(now));
    assert_eq!(stale_cutoff(i64::MIN + 1, 1), None);
}

#[test]
fn scan_session_records_context_and_outcome() {
    let mut session = start_scan_session(7, "10.0.1.0/24", &ScanProfile::Quick);
    let summary = DiffSummary { total_scanned: 3, new_count: 1, changed_count: 2, stale_count: 0 };
    record_scan_results(&mut session, &summary, 1500);
    record_scan_error(&mut session, "exit \"2\"");
    let e = session.finalize();
    assert_eq!(e.intent, "Network scan of 10.0.1.0/24");
    assert_eq!(e.agent_id, "sentinel-discover");
    assert_eq!(e.context, "{\"nmap_flags\":[\"-sn\"],\"profile\":\"Quick\",\"target\":\"10.0.1.0/24\"}");
    assert_eq!(e.decisions[0].choice, "Use Quick scan profile");
    assert_eq!(e.actions[0].description, "Scanned 3 hosts: 1 new, 2 changed, 0 stale");
    assert_eq!(
        e.actions[0].details,
        "{\"changed_count\":2,\"duration_ms\":1500,\"new_count\":1,\"stale_count\":0,\"total_scanned\":3}"
    );
    assert!(e.actions[0].success);
    assert_eq!(e.actions[1].description, "Scan failed: exit \"2\"");
    assert_eq!(e.actions[1].details, "{\"error\":\"exit \\\"2\\\"\"}");
    assert!(!e.actions[1].success);
    assert!(e.verify_integrity());
}

#[test]
fn lookup_and_endpoints() {
    let g = small_graph();
    assert!(matches!(lookup_node(&g, "b"), Ok(1)));
    assert!(matches!(lookup_node(&g, "zz"), Err(PathfindError::NodeNotFound { node_id }) if node_id == "zz"));
    let (s, t) = match select_endpoints(&g, &None, &None, "t") {
        Ok(x) => x,
        Err(_) => panic!("entry points and crown jewels exist"),
    };
    assert_eq!(s, vec![0]);
    assert_eq!(t, vec![1]);
    let none = Some(vec!["missing".to_string()]);
    assert!(matches!(
        select_endpoints(&g, &none, &None, "t"),
        Err(PathfindError::NoEntryPoints { tenant_id }) if tenant_id == "t"
    ));
    assert!(matches!(
        select_endpoints(&g, &None, &none, "t"),
        Err(PathfindError::NoCrownJewels { tenant_id }) if tenant_id == "t"
    ));
}

#[test]
fn steps_describe_the_path() {
    let g = small_graph();
    let p = shortest_weighted_path(&g, 0, 1).unwrap();
    assert_eq!(p.total_weight, 500_000);
    let steps = path_steps(&g, &p);
    assert_eq!(steps.len(), 1);
    assert_eq!(steps[0].description, "Subnet -> Host via CAN_REACH");
    assert_eq!(steps[0].technique.as_deref(), Some("ssh-pivot"));
    assert_eq!(steps[0].node_id, "b");
    assert_eq!(steps[0].exploitability, 500_000);
}

#[test]
fn configuration_values() {
    let pg = PostgresConfig {
        host: "db".to_string(),
        port: default_pg_port(),
        db: "sentinel".to_string(),
        user: "u".to_string(),
        password: "SECRET-REDACTED".to_string(),
    };
    assert_eq!(pg.connection_string(), "postgres://u:SECRET-REDACTED@db:5432/sentinel");
    assert_eq!(default_api_host(), "0.0.0.0");
    assert_eq!(opt_string(&None), "");
    assert_eq!(opt_string(&Some("x".to_string())), "x");
}

#[test]
fn profiles_and_tenants_from_text() {
    assert!(matches!(parse_profile("QUICK"), Ok(ScanProfile::Quick)));
    assert!(matches!(parse_profile("deep"), Ok(ScanProfile::Deep)));
    assert!(matches!(parse_profile("full"), Err(DiscoverError::Config(_))));
    let mut config = DiscoverConfig::default();
    assert!(matches!(resolve_tenant_id(None, &config), Err(DiscoverError::Config(_))));
    config.tenant_id = "00000000-0000-0000-0000-00000000002a".to_string();
    assert!(matches!(resolve_tenant_id(None, &config), Ok(TenantId(42))));
    assert!(matches!(resolve_tenant_id(Some("not-a-uuid"), &config), Err(DiscoverError::Config(_))));
    let g = GraphConfig::default();
    assert_eq!(g.uri, "bolt://localhost:7687");
    assert_eq!(g.max_connections, 16);
}

#[test]
fn computation_plan_defaults_and_empty_subgraph() {
    let plan = match plan_computation(3, None, Some(7), "t") {
        Ok(p) => p,
        Err(_) => panic!("a non-empty subgraph is planned"),
    };
    assert_eq!(plan.max_depth, 10);
    assert_eq!(plan.max_paths, 7);
    assert!(matches!(plan_computation(0, None, None, "t"), Err(PathfindError::EmptySubgraph { tenant_id }) if tenant_id == "t"));
    let origins = blast_origins(&(0..15).collect());
    assert_eq!(origins, (0..10).collect::<Vec<usize>>());
}
