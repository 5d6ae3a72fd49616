use eisen_core::session_registry::{SessionDraft, SessionRegistry};
use eisen_core::types::{SessionKey, SessionMode, SessionModel, SessionState};

fn draft(agent: &str, session: &str, mode: SessionMode) -> SessionDraft {
    SessionDraft {
        agent_id: agent.to_string(),
        session_id: session.to_string(),
        mode,
        model: None,
        summary: None,
        history: None,
        context: None,
        providers: None,
    }
}

fn test_registry() -> SessionRegistry {
    SessionRegistry::new()
}

#[test]
fn create_and_list_sessions() {
    let mut registry = test_registry();
    let session = registry.create_session(draft("agent-a", "sess-1", SessionMode::SingleAgent));

    assert_eq!(session.agent_id, "agent-a");
    let sessions = registry.list_sessions(None);
    assert_eq!(sessions.len(), 1);
    assert_eq!(sessions[0].session_id, "sess-1");
}

#[test]
fn set_active_session() {
    let mut registry = test_registry();
    registry.create_session(draft("agent-a", "sess-1", SessionMode::SingleAgent));

    let key = SessionKey::new("agent-a", "sess-1");
    assert!(registry.set_active_session(key));
    let sessions = registry.list_sessions(None);
    assert!(sessions[0].is_active);
}

#[test]
fn set_active_session_unknown() {
    let mut registry = test_registry();
    assert!(!registry.set_active_session(SessionKey::new("a", "nope")));
    assert!(registry.active_session().is_none());
}

#[test]
fn create_session_upserts() {
    let mut registry = test_registry();
    let mut first = draft("a", "s", SessionMode::SingleAgent);
    first.summary = Some("one".to_string());
    first.history = Some(vec!["1".to_string()]);
    first.model = Some(SessionModel { model_id: "m".to_string(), name: None });
    let created = registry.create_session_at(first, 100);
    assert_eq!(created.created_at_ms, 100);
    assert_eq!(created.updated_at_ms, 100);
    assert_eq!(created.summary.as_deref(), Some("one"));

    let mut second = draft("a", "s", SessionMode::SingleAgent);
    second.context = Some(vec!["{\"k\":1}".to_string()]);
    let updated = registry.create_session_at(second, 200);
    assert_eq!(updated.created_at_ms, 100);
    assert_eq!(updated.updated_at_ms, 200);
    assert_eq!(updated.summary.as_deref(), Some("one"));
    assert_eq!(updated.history, vec!["1".to_string()]);
    assert_eq!(updated.context, vec!["{\"k\":1}".to_string()]);
    assert_eq!(updated.model.unwrap().model_id, "m");
    assert_eq!(registry.list_sessions(None).len(), 1);
}

#[test]
fn providers_force_orchestrator_mode() {
    let mut registry = test_registry();
    let mut d = draft("a", "orch", SessionMode::SingleAgent);
    d.providers = Some(vec![SessionKey::new("a", "s1")]);
    assert_eq!(registry.create_session_at(d, 1).mode, SessionMode::Orchestrator);

    let mut empty = draft("a", "plain", SessionMode::SingleAgent);
    empty.providers = Some(vec![]);
    assert_eq!(registry.create_session_at(empty, 2).mode, SessionMode::SingleAgent);

    let got = registry
        .set_orchestrator_providers_at(&SessionKey::new("a", "plain"), vec![], 3)
        .unwrap();
    assert_eq!(got.mode, SessionMode::Orchestrator);
    assert_eq!(got.updated_at_ms, 3);
    assert!(registry
        .set_orchestrator_providers_at(&SessionKey::new("a", "missing"), vec![], 3)
        .is_none());
    assert_eq!(registry.orchestrator_sessions().len(), 2);
}

#[test]
fn close_session_clears_the_active_slot() {
    let mut registry = test_registry();
    registry.create_session_at(draft("a", "s1", SessionMode::SingleAgent), 1);
    registry.create_session_at(draft("a", "s2", SessionMode::SingleAgent), 2);
    assert!(registry.set_active_session(SessionKey::new("a", "s1")));
    assert!(registry.close_session(&SessionKey::new("a", "s2")));
    assert_eq!(registry.active_session().unwrap().session_id, "s1");
    assert!(registry.close_session(&SessionKey::new("a", "s1")));
    assert!(registry.active_session().is_none());
    assert!(!registry.close_session(&SessionKey::new("a", "s1")));
    assert!(registry.get_session_state(&SessionKey::new("a", "s1")).is_none());
}

#[test]
fn list_sessions_is_sorted_and_filtered() {
    let mut registry = test_registry();
    registry.create_session_at(draft("a", "old", SessionMode::SingleAgent), 10);
    registry.create_session_at(draft("b", "other", SessionMode::SingleAgent), 20);
    registry.create_session_at(draft("a", "new", SessionMode::SingleAgent), 30);
    registry.create_session_at(draft("a", "mid", SessionMode::SingleAgent), 25);
    let all: Vec<String> = registry.list_sessions(None).into_iter().map(|s| s.session_id).collect();
    assert_eq!(all, vec!["new", "mid", "other", "old"]);
    let of_a: Vec<String> = registry.list_sessions(Some("a")).into_iter().map(|s| s.session_id).collect();
    assert_eq!(of_a, vec!["new", "mid", "old"]);
    assert!(registry.list_sessions(Some("zzz")).is_empty());
}

#[test]
fn add_context_items_appends() {
    let mut registry = test_registry();
    let mut d = draft("a", "s", SessionMode::SingleAgent);
    d.context = Some(vec!["1".to_string()]);
    registry.create_session_at(d, 1);
    let key = SessionKey::new("a", "s");
    let got = registry
        .add_context_items_at(&key, vec!["2".to_string(), "3".to_string()], 9)
        .unwrap();
    assert_eq!(got.context, vec!["1", "2", "3"]);
    assert_eq!(got.updated_at_ms, 9);
    let same = registry.add_context_items_at(&key, vec![], 10).unwrap();
    assert_eq!(same.context, vec!["1", "2", "3"]);
    assert_eq!(same.updated_at_ms, 10);
    assert!(registry.add_context_items_at(&SessionKey::new("a", "x"), vec![], 1).is_none());
    assert!(registry.add_context_items(&key, vec!["4".to_string()]).is_some());
}

#[test]
fn load_and_stored_round_trip() {
    let entry = |session: &str, at: u64| SessionState {
        agent_id: "a".to_string(),
        session_id: session.to_string(),
        mode: SessionMode::SingleAgent,
        model: None,
        history: vec![],
        summary: None,
        context: vec![],
        providers: vec![],
        created_at_ms: at,
        updated_at_ms: at,
    };
    let registry = SessionRegistry::load(
        Some(SessionKey::new("a", "s1")),
        vec![entry("s1", 1), entry("s2", 2), entry("s1", 3)],
    );
    assert_eq!(registry.list_sessions(None).len(), 2);
    assert_eq!(registry.get_session_state(&SessionKey::new("a", "s1")).unwrap().updated_at_ms, 3);
    let (active, sessions) = registry.stored();
    assert_eq!(active.unwrap().session_id, "s1");
    assert_eq!(sessions.len(), 2);
    let again = SessionRegistry::load(None, sessions);
    assert_eq!(again.list_sessions(None).len(), 2);
    assert!(again.active_session().is_none());
}

#[test]
fn session_key_matches_its_session() {
    let mut registry = test_registry();
    let s = registry.create_session_at(draft("a", "s", SessionMode::SingleAgent), 1);
    assert!(SessionKey::new("a", "s").matches(&s));
    assert!(!SessionKey::new("a", "t").matches(&s));
    assert!(!SessionKey::new("b", "s").matches(&s));
    assert!(s.key().matches(&s));
}
