use eisen_core::orchestrator::OrchestratorAggregator;
use eisen_core::rpc::{decode_call, handle_call, handle_rpc_request, handle_rpc_request_at, RpcCall, RpcOutcome};
use eisen_core::session_registry::SessionRegistry;
use eisen_core::tracker::ContextTracker;
use eisen_core::types::{Action, SessionMode, TrackerConfig};
use serde_json::Value;

fn json(text: &str) -> Value {
    serde_json::from_str(text).unwrap()
}

fn setup() -> (SessionRegistry, ContextTracker) {
    let mut t = ContextTracker::new(TrackerConfig::default());
    t.set_agent_id("agent".to_string());
    (SessionRegistry::new(), t)
}

fn call(method: &str, params: &str, registry: &mut SessionRegistry, tracker: &mut ContextTracker, now: u64) -> RpcOutcome {
    let p = json(params);
    let response = handle_rpc_request_at("id-1".to_string(), method, Some(&p), registry, tracker, now);
    assert_eq!(response.id, "id-1");
    response.outcome
}

fn error_of(outcome: RpcOutcome) -> (u32, String) {
    match outcome {
        RpcOutcome::Error { code, message } => (code, message),
        other => panic!("expected an error, got {:?}", other),
    }
}

#[test]
fn decode_list_sessions() {
    assert!(matches!(decode_call("list_sessions", None), RpcCall::ListSessions { agent_id: None }));
    assert!(matches!(
        decode_call("list_sessions", Some(&json("{\"agent_id\":\"a\"}"))),
        RpcCall::ListSessions { agent_id: Some(a) } if a == "a"
    ));
    assert!(matches!(decode_call("list_sessions", Some(&json("{}"))), RpcCall::ListSessions { agent_id: None }));
    assert!(matches!(decode_call("list_sessions", Some(&json("{\"agent_id\":3}"))), RpcCall::BadParams));
    assert!(matches!(decode_call("list_sessions", Some(&json("[1]"))), RpcCall::BadParams));
}

#[test]
fn decode_create_session() {
    let full = json(
        r#"{"agent_id":"a","session_id":"s","mode":"orchestrator","model":{"model_id":"m1","name":"M"},
            "summary":"sum","history":[{"role":"user"},1,"x"],"context":[],
            "providers":[{"agent_id":"a","session_id":"prov-a"},{"agent_id":"b","session_id":"prov-b"}]}"#,
    );
    match decode_call("create_session", Some(&full)) {
        RpcCall::CreateSession(d) => {
            assert_eq!((d.agent_id.as_str(), d.session_id.as_str()), ("a", "s"));
            assert_eq!(d.mode, SessionMode::Orchestrator);
            let model = d.model.unwrap();
            assert_eq!(model.model_id, "m1");
            assert_eq!(model.name.as_deref(), Some("M"));
            assert_eq!(d.summary.as_deref(), Some("sum"));
            assert_eq!(d.history.unwrap(), vec!["{\"role\":\"user\"}", "1", "\"x\""]);
            assert_eq!(d.context.unwrap(), Vec::<String>::new());
            let providers = d.providers.unwrap();
            assert_eq!(providers.len(), 2);
            assert_eq!(providers[1].agent_id, "b");
            assert_eq!(providers[1].session_id, "prov-b");
        },
        other => panic!("unexpected {:?}", other),
    }
    match decode_call("create_session", Some(&json(r#"{"agent_id":"a","session_id":"s","mode":"single_agent","model":null}"#))) {
        RpcCall::CreateSession(d) => {
            assert!(d.model.is_none() && d.summary.is_none() && d.history.is_none() && d.providers.is_none());
        },
        other => panic!("unexpected {:?}", other),
    }
    assert!(matches!(decode_call("create_session", None), RpcCall::MissingParams));
    for bad in [
        r#"{"session_id":"s","mode":"single_agent"}"#,
        r#"{"agent_id":"a","session_id":"s"}"#,
        r#"{"agent_id":"a","session_id":"s","mode":"fast"}"#,
        r#"{"agent_id":"a","session_id":"s","mode":"single_agent","providers":[{"agent_id":"a"}]}"#,
        r#"{"agent_id":"a","session_id":"s","mode":"single_agent","history":"x"}"#,
        r#"{"agent_id":"a","session_id":"s","mode":"single_agent","model":{"name":"M"}}"#,
        r#"{"agent_id":"a","session_id":"s","mode":"single_agent","summary":1}"#,
    ] {
        assert!(matches!(decode_call("create_session", Some(&json(bad))), RpcCall::BadParams), "{}", bad);
    }
}

#[test]
fn decode_keyed_calls() {
    let key = json(r#"{"agent_id":"a","session_id":"s"}"#);
    assert!(matches!(decode_call("close_session", Some(&key)), RpcCall::CloseSession(k) if k.session_id == "s"));
    assert!(matches!(decode_call("set_active_session", Some(&key)), RpcCall::SetActiveSession(k) if k.agent_id == "a"));
    assert!(matches!(decode_call("get_session_state", Some(&key)), RpcCall::GetSessionState(_)));
    assert!(matches!(decode_call("close_session", None), RpcCall::MissingParams));
    assert!(matches!(decode_call("get_session_state", Some(&json("{}"))), RpcCall::BadParams));
    assert!(matches!(decode_call("set_orchestrator_providers", Some(&key)), RpcCall::BadParams));
    assert!(matches!(
        decode_call("set_orchestrator_providers", Some(&json(r#"{"agent_id":"a","session_id":"s","providers":[]}"#))),
        RpcCall::SetOrchestratorProviders { providers, .. } if providers.is_empty()
    ));
    assert!(matches!(decode_call("add_context_items", Some(&key)), RpcCall::BadParams));
    assert!(matches!(
        decode_call("add_context_items", Some(&json(r#"{"agent_id":"a","session_id":"s","items":[true,null]}"#))),
        RpcCall::AddContextItems { items, .. } if items == vec!["true", "null"]
    ));
    assert!(matches!(decode_call("frobnicate", Some(&key)), RpcCall::Unknown));
    assert!(matches!(decode_call("", None), RpcCall::Unknown));
}

#[test]
fn rpc_errors() {
    let (mut registry, mut t) = setup();
    assert_eq!(error_of(call("nope", "{}", &mut registry, &mut t, 1)), (404, "unknown rpc method".to_string()));
    assert_eq!(error_of(call("close_session", "{}", &mut registry, &mut t, 1)), (400, "invalid params".to_string()));
    let missing = handle_rpc_request_at("x".to_string(), "create_session", None, &mut registry, &mut t, 1);
    assert_eq!(error_of(missing.outcome), (400, "missing params".to_string()));
    let key = r#"{"agent_id":"a","session_id":"s"}"#;
    assert_eq!(error_of(call("set_active_session", key, &mut registry, &mut t, 1)), (404, "session not found".to_string()));
    assert_eq!(error_of(call("get_session_state", key, &mut registry, &mut t, 1)), (404, "session not found".to_string()));
    assert_eq!(
        error_of(call("set_orchestrator_providers", r#"{"agent_id":"a","session_id":"s","providers":[]}"#, &mut registry, &mut t, 1)),
        (404, "session not found".to_string())
    );
    assert_eq!(
        error_of(call("add_context_items", r#"{"agent_id":"a","session_id":"s","items":[]}"#, &mut registry, &mut t, 1)),
        (404, "session not found".to_string())
    );
    assert!(matches!(call("close_session", key, &mut registry, &mut t, 1), RpcOutcome::Closed(false)));
}

#[test]
fn rpc_session_life_cycle() {
    let (mut registry, mut t) = setup();
    t.set_session_id("first".to_string());
    t.file_access_at("/first.rs", Action::Read, 1);
    let created = call(
        "create_session",
        r#"{"agent_id":"agent","session_id":"s1","mode":"single_agent","summary":"hello"}"#,
        &mut registry, &mut t, 10,
    );
    assert!(matches!(&created, RpcOutcome::Session(s) if s.session_id == "s1" && s.created_at_ms == 10));
    // the tracker knows the session now
    assert!(t.session_ids().contains(&"s1".to_string()));
    assert_eq!(t.session_id(), "first");

    assert!(matches!(
        call("set_active_session", r#"{"agent_id":"agent","session_id":"s1"}"#, &mut registry, &mut t, 11),
        RpcOutcome::Active
    ));
    assert_eq!(registry.active_session().unwrap().session_id, "s1");
    // the active session is the current session of the tracker; the other rests
    assert_eq!(t.session_id(), "s1");
    assert!(t.snapshot().nodes.is_empty());
    assert_eq!(t.snapshot_for_session("first").nodes.len(), 1);

    match call("list_sessions", "{}", &mut registry, &mut t, 12) {
        RpcOutcome::Sessions(list) => {
            assert_eq!(list.len(), 1);
            assert!(list[0].is_active);
            assert_eq!(list[0].updated_at_ms, 10);
        },
        other => panic!("unexpected {:?}", other),
    }
    match call(
        "set_orchestrator_providers",
        r#"{"agent_id":"agent","session_id":"s1","providers":[{"agent_id":"agent","session_id":"first"}]}"#,
        &mut registry, &mut t, 13,
    ) {
        RpcOutcome::Session(s) => {
            assert_eq!(s.mode, SessionMode::Orchestrator);
            assert_eq!(s.providers.len(), 1);
            assert_eq!(s.updated_at_ms, 13);
        },
        other => panic!("unexpected {:?}", other),
    }
    assert_eq!(t.snapshot().session_mode, SessionMode::Orchestrator);
    match call(
        "add_context_items",
        r#"{"agent_id":"agent","session_id":"s1","items":[{"a":[1,2]}]}"#,
        &mut registry, &mut t, 14,
    ) {
        RpcOutcome::Session(s) => assert_eq!(s.context, vec!["{\"a\":[1,2]}"]),
        other => panic!("unexpected {:?}", other),
    }
    match call("get_session_state", r#"{"agent_id":"agent","session_id":"s1"}"#, &mut registry, &mut t, 15) {
        RpcOutcome::Session(s) => {
            assert_eq!(s.summary.as_deref(), Some("hello"));
            assert_eq!(s.updated_at_ms, 14);
        },
        other => panic!("unexpected {:?}", other),
    }
    assert!(matches!(
        call("close_session", r#"{"agent_id":"agent","session_id":"s1"}"#, &mut registry, &mut t, 16),
        RpcOutcome::Closed(true)
    ));
    assert!(registry.active_session().is_none());
    // an aggregator has nothing to do once the orchestrator is closed
    assert!(OrchestratorAggregator::new().tick(&t, &registry).is_empty());
}

#[test]
fn rpc_with_the_wall_clock() {
    let (mut registry, mut t) = setup();
    let p = json(r#"{"agent_id":"agent","session_id":"s1","mode":"single_agent"}"#);
    let response = handle_rpc_request("9".to_string(), "create_session", Some(&p), &mut registry, &mut t);
    assert_eq!(response.id, "9");
    assert!(matches!(response.outcome, RpcOutcome::Session(s) if s.created_at_ms == s.updated_at_ms));
    assert!(matches!(
        handle_call(RpcCall::ListSessions { agent_id: Some("agent".to_string()) }, &mut registry, &mut t, 1),
        RpcOutcome::Sessions(list) if list.len() == 1
    ));
}

#[test]
fn only_writing_calls_ask_for_a_save() {
    let (mut registry, mut t) = setup();
    let key = json(r#"{"agent_id":"agent","session_id":"s1"}"#);
    let mut changed = |method: &str, params: &Value, registry: &mut SessionRegistry, t: &mut ContextTracker| {
        handle_rpc_request_at("x".to_string(), method, Some(params), registry, t, 1).changed
    };
    assert!(!changed("list_sessions", &json("{}"), &mut registry, &mut t));
    assert!(!changed("get_session_state", &key, &mut registry, &mut t));
    assert!(!changed("close_session", &key, &mut registry, &mut t));
    assert!(!changed("set_active_session", &key, &mut registry, &mut t));
    assert!(!changed("add_context_items", &json(r#"{"agent_id":"agent","session_id":"s1","items":[]}"#), &mut registry, &mut t));
    assert!(!changed("create_session", &json("{}"), &mut registry, &mut t));
    assert!(!changed("nope", &key, &mut registry, &mut t));
    assert!(changed("create_session", &json(r#"{"agent_id":"agent","session_id":"s1","mode":"single_agent"}"#), &mut registry, &mut t));
    assert!(!changed("get_session_state", &key, &mut registry, &mut t));
    assert!(!changed("list_sessions", &json("{}"), &mut registry, &mut t));
    assert!(changed("set_active_session", &key, &mut registry, &mut t));
    assert!(changed("add_context_items", &json(r#"{"agent_id":"agent","session_id":"s1","items":[1]}"#), &mut registry, &mut t));
    assert!(changed("set_orchestrator_providers", &json(r#"{"agent_id":"agent","session_id":"s1","providers":[]}"#), &mut registry, &mut t));
    assert!(changed("close_session", &key, &mut registry, &mut t));
    assert!(!registry.contains(&eisen_core::types::SessionKey::new("agent", "s1")));
}
