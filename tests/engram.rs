use sentinel::engram::{
    check_retrieved, check_saveable, matches_query, select_engrams, Engram, EngramId, EngramQuery,
    EngramSession, StoreError,
};

const TENANT: u128 = 0x0011_2233_4455_6677_8899_aabb_ccdd_eeff;

fn create_test_engram(tenant_id: u128, agent_id: &str, started_at: i64) -> Engram {
    let mut session = EngramSession::open(EngramId(started_at as u128 + 1), tenant_id, agent_id, "Test intent", started_at);
    session.set_context("{\"key\":\"value\"}".to_string());
    session.add_decision_at("choice A", "best option", "0.95", started_at + 1);
    session.add_alternative("choice B", "too slow");
    session.add_action_at("test_action", "Did something", "{\"result\":42}".to_string(), true, started_at + 2);
    session.finalize_at(started_at + 3)
}

#[test]
fn save_and_retrieve() {
    let engram = create_test_engram(TENANT, "test-agent", 1_700_000_000_000_000_000);
    let id = engram.id;
    assert!(check_saveable(&engram).is_ok());
    let retrieved = match check_retrieved(engram) {
        Ok(e) => e,
        Err(_) => panic!("an untouched engram must verify"),
    };
    assert_eq!(retrieved.id, id);
    assert_eq!(retrieved.intent, "Test intent");
    assert_eq!(retrieved.decisions.len(), 1);
    assert_eq!(retrieved.actions.len(), 1);
    assert!(retrieved.verify_integrity());
}

#[test]
fn integrity_violation_detected() {
    let mut tampered = create_test_engram(TENANT, "test-agent", 1_700_000_000_000_000_000);
    let id = tampered.id;
    tampered.intent = "TAMPERED INTENT".to_string();
    let result = check_retrieved(tampered);
    assert!(matches!(result, Err(StoreError::IntegrityViolation(x)) if x == id));
}

#[test]
fn save_rejects_unfinalized() {
    let session = EngramSession::open(EngramId(5), TENANT, "test", "test", 0);
    let mut engram = session.finalize_at(1);
    engram.content_hash = None;
    let result = check_saveable(&engram);
    assert!(matches!(result, Err(StoreError::NotFinalized)));
}

#[test]
fn list_filters_by_agent() {
    let e1 = create_test_engram(TENANT, "scanner", 100);
    let e2 = create_test_engram(TENANT, "hunter", 200);
    let e3 = create_test_engram(TENANT, "scanner", 300);
    let query = EngramQuery { agent_id: Some("scanner".to_string()), ..Default::default() };
    let results = select_engrams(vec![e1, e2, e3], &query);
    assert_eq!(results.len(), 2);
    assert!(results.iter().all(|e| e.agent_id == "scanner"));
    assert_eq!(results[0].started_at, 300);
    assert_eq!(results[1].started_at, 100);
}

#[test]
fn list_filters_by_tenant() {
    let t1 = 1u128;
    let t2 = 2u128;
    let e1 = create_test_engram(t1, "agent-a", 10);
    let e2 = create_test_engram(t2, "agent-a", 20);
    let query = EngramQuery { tenant_id: Some(t1), ..Default::default() };
    let results = select_engrams(vec![e1, e2], &query);
    assert_eq!(results.len(), 1);
    assert_eq!(results[0].tenant_id, t1);
}

#[test]
fn time_window_filter_is_inclusive() {
    let e = create_test_engram(TENANT, "a", 50);
    assert!(matches_query(&e, &EngramQuery { from: Some(50), to: Some(50), ..Default::default() }));
    assert!(!matches_query(&e, &EngramQuery { from: Some(51), ..Default::default() }));
    assert!(!matches_query(&e, &EngramQuery { session_id: Some(EngramId(7)), ..Default::default() }));
}

#[test]
fn canonical_text_is_compact_json_in_field_order() {
    let session = EngramSession::open(EngramId(1), 2, "agent \"x\"", "scan", 0);
    let e = session.finalize_at(1_500_000_000);
    let expected = [
        "{\"id\":\"00000000-0000-0000-0000-000000000001\",",
        "\"tenant_id\":\"00000000-0000-0000-0000-000000000002\",",
        "\"agent_id\":\"agent \\\"x\\\"\",\"intent\":\"scan\",\"context\":null,",
        "\"decisions\":[],\"alternatives\":[],\"actions\":[],",
        "\"started_at\":\"1970-01-01T00:00:00Z\",",
        "\"completed_at\":\"1970-01-01T00:00:01.500Z\"}",
    ]
    .join("");
    let expected = expected.as_str();
    assert_eq!(e.canonical_text(), expected);
    let digest = blake3::hash(expected.as_bytes()).to_hex().to_string();
    assert_eq!(e.content_hash.as_deref(), Some(digest.as_str()));
    assert_eq!(e.compute_hash(), digest);
}

#[test]
fn lists_are_comma_separated() {
    let e = create_test_engram(TENANT, "a", 0);
    let text = e.canonical_text();
    assert!(text.contains(
        "\"decisions\":[{\"choice\":\"choice A\",\"rationale\":\"best option\",\"confidence\":0.95,\"timestamp\":\"1970-01-01T00:00:00.000000001Z\"}]"
    ));
    assert!(text.contains("\"alternatives\":[{\"option\":\"choice B\",\"rejection_reason\":\"too slow\"}]"));
    assert!(text.contains("\"details\":{\"result\":42},\"success\":true"));
    let mut session = EngramSession::open(EngramId(1), 2, "a", "b", 0);
    session.add_alternative("x", "y");
    session.add_alternative("z", "w");
    let two = session.finalize_at(1).canonical_text();
    assert!(two.contains("[{\"option\":\"x\",\"rejection_reason\":\"y\"},{\"option\":\"z\",\"rejection_reason\":\"w\"}]"));
}

#[test]
fn session_id_is_known_before_finalization() {
    let session = EngramSession::new(TENANT, "agent", "intent");
    let id = session.id();
    let e = session.finalize();
    assert_eq!(e.id, id);
    assert!(e.verify_integrity());
    assert!(e.completed_at.is_some());
}
