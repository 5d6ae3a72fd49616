use eisen_core::connection::{
    first_snapshot, handle_channel_event, handle_client_line, ChannelAction, ChannelEvent,
    ClientReply,
};
use eisen_core::orchestrator::OrchestratorAggregator;
use eisen_core::rpc::RpcOutcome;
use eisen_core::session_registry::{SessionDraft, SessionRegistry};
use eisen_core::tcp::{
    decode_client_line, parse_mode, resolve_snapshot, resolve_target, ClientMessage, StreamFilter,
    DEFAULT_PORT,
};
use eisen_core::tracker::ContextTracker;
use eisen_core::types::{Action, SessionKey, SessionMode, TrackerConfig};

fn draft(agent: &str, session: &str, mode: SessionMode, providers: Option<Vec<SessionKey>>) -> SessionDraft {
    SessionDraft {
        agent_id: agent.to_string(),
        session_id: session.to_string(),
        mode,
        model: None,
        summary: None,
        history: None,
        context: None,
        providers,
    }
}

fn tracker() -> ContextTracker {
    let mut t = ContextTracker::new(TrackerConfig::default());
    t.set_agent_id("agent".to_string());
    t
}

#[test]
fn default_port() {
    assert_eq!(DEFAULT_PORT, 17320);
}

#[test]
fn mode_tokens() {
    assert_eq!(parse_mode("single_agent"), Some(SessionMode::SingleAgent));
    assert_eq!(parse_mode("orchestrator"), Some(SessionMode::Orchestrator));
    assert_eq!(parse_mode("Orchestrator"), None);
    assert_eq!(SessionMode::SingleAgent.as_str(), "single_agent");
    assert_eq!(SessionMode::Orchestrator.as_str(), "orchestrator");
}

#[test]
fn stream_filter_allows() {
    assert!(StreamFilter::All.allows(None, None));
    assert!(StreamFilter::All.allows(Some("x"), Some(SessionMode::Orchestrator)));
    let one = StreamFilter::Session("s1".to_string());
    assert!(one.allows(Some("s1"), None));
    assert!(!one.allows(Some("s2"), Some(SessionMode::SingleAgent)));
    assert!(!one.allows(None, None));
    let mode = StreamFilter::Mode(SessionMode::Orchestrator);
    assert!(mode.allows(Some("s1"), Some(SessionMode::Orchestrator)));
    assert!(!mode.allows(Some("s1"), Some(SessionMode::SingleAgent)));
    assert!(!mode.allows(Some("s1"), None));
}

#[test]
fn stream_filter_forwards_by_line_content() {
    let delta = "{\"type\":\"delta\",\"agent_id\":\"a\",\"session_id\":\"s1\",\"session_mode\":\"single_agent\",\"seq\":1,\"updates\":[],\"removed\":[]}\n";
    assert!(StreamFilter::All.forwards(delta));
    assert!(StreamFilter::All.forwards("not json"));
    assert!(StreamFilter::Session("s1".to_string()).forwards(delta));
    assert!(!StreamFilter::Session("s2".to_string()).forwards(delta));
    assert!(StreamFilter::Mode(SessionMode::SingleAgent).forwards(delta));
    assert!(!StreamFilter::Mode(SessionMode::Orchestrator).forwards(delta));
    assert!(!StreamFilter::Session("s1".to_string()).forwards("not json"));
    assert!(!StreamFilter::Mode(SessionMode::SingleAgent).forwards("{\"id\":\"1\",\"result\":{}}\n"));
}

#[test]
fn stream_filter_select() {
    assert!(matches!(StreamFilter::select(None, None), StreamFilter::All));
    assert!(matches!(StreamFilter::select(Some(String::new()), None), StreamFilter::All));
    assert!(matches!(
        StreamFilter::select(Some("s".to_string()), Some(SessionMode::Orchestrator)),
        StreamFilter::Session(s) if s == "s"
    ));
    assert!(matches!(
        StreamFilter::select(Some(String::new()), Some(SessionMode::Orchestrator)),
        StreamFilter::Mode(SessionMode::Orchestrator)
    ));
    assert!(matches!(
        StreamFilter::select(None, Some(SessionMode::SingleAgent)),
        StreamFilter::Mode(SessionMode::SingleAgent)
    ));
}

#[test]
fn client_messages_decode() {
    assert!(matches!(
        decode_client_line("{\"type\":\"request_snapshot\"}\n"),
        Some(ClientMessage::RequestSnapshot { session_id: None })
    ));
    assert!(matches!(
        decode_client_line(" {\"type\":\"request_snapshot\",\"session_id\":\"s\u{1F600}\"} "),
        Some(ClientMessage::RequestSnapshot { session_id: Some(s) }) if s == "s\u{1F600}"
    ));
    assert!(matches!(
        decode_client_line("{\"type\":\"request_snapshot\",\"session_id\":null}"),
        Some(ClientMessage::RequestSnapshot { session_id: None })
    ));
    assert!(decode_client_line("{\"type\":\"request_snapshot\",\"session_id\":5}").is_none());
    assert!(matches!(
        decode_client_line("{\"type\":\"set_stream_filter\",\"session_mode\":\"orchestrator\"}"),
        Some(ClientMessage::SetStreamFilter { session_id: None, session_mode: Some(SessionMode::Orchestrator) })
    ));
    assert!(decode_client_line("{\"type\":\"set_stream_filter\",\"session_mode\":\"fast\"}").is_none());
    match decode_client_line("{\"type\":\"rpc\",\"id\":\"7\",\"method\":\"list_sessions\",\"params\":{\"agent_id\":\"a\"}}") {
        Some(ClientMessage::Rpc { id, method, params }) => {
            assert_eq!(id, "7");
            assert_eq!(method, "list_sessions");
            assert_eq!(params.unwrap()["agent_id"].as_str(), Some("a"));
        },
        other => panic!("unexpected {:?}", other),
    }
    assert!(matches!(
        decode_client_line("{\"type\":\"rpc\",\"id\":\"7\",\"method\":\"m\"}"),
        Some(ClientMessage::Rpc { params: None, .. })
    ));
    assert!(decode_client_line("{\"type\":\"rpc\",\"id\":7,\"method\":\"m\"}").is_none());
    assert!(decode_client_line("{\"type\":\"rpc\",\"id\":\"7\"}").is_none());
    assert!(decode_client_line("{\"type\":\"unknown\"}").is_none());
    assert!(decode_client_line("{\"no_type\":1}").is_none());
    assert!(decode_client_line("not json").is_none());
    assert!(decode_client_line("").is_none());
}

#[test]
fn resolution_prefers_request_then_filter_then_active_then_tracker() {
    let mut t = tracker();
    let mut registry = SessionRegistry::new();
    // nothing at all: no session
    assert!(resolve_target(None, &StreamFilter::All, &registry, &t).is_none());
    // some session that the tracker holds
    t.set_session_mode("parked", SessionMode::SingleAgent);
    assert_eq!(resolve_target(None, &StreamFilter::All, &registry, &t).unwrap().session_id, "parked");
    // the current session of the tracker
    t.set_session_id("current".to_string());
    let k = resolve_target(None, &StreamFilter::All, &registry, &t).unwrap();
    assert_eq!((k.agent_id.as_str(), k.session_id.as_str()), ("agent", "current"));
    // the active session of the registry
    registry.create_session_at(draft("agent", "active", SessionMode::SingleAgent, None), 5);
    registry.create_session_at(draft("agent", "newer", SessionMode::SingleAgent, None), 9);
    registry.create_session_at(draft("other", "newest", SessionMode::SingleAgent, None), 99);
    registry.set_active_session(SessionKey::new("agent", "active"));
    assert_eq!(resolve_target(None, &StreamFilter::All, &registry, &t).unwrap().session_id, "active");
    // a filter by mode: the session of that mode and of this agent with the latest update
    let single = StreamFilter::Mode(SessionMode::SingleAgent);
    assert_eq!(resolve_target(None, &single, &registry, &t).unwrap().session_id, "newer");
    // no orchestrator yet: the fallback
    let orch = StreamFilter::Mode(SessionMode::Orchestrator);
    assert_eq!(resolve_target(None, &orch, &registry, &t).unwrap().session_id, "active");
    registry.create_session_at(draft("other", "o", SessionMode::Orchestrator, Some(vec![])), 1);
    assert_eq!(resolve_target(None, &orch, &registry, &t).unwrap().session_id, "o");
    // a filter by session
    let one = StreamFilter::Session("s7".to_string());
    let k = resolve_target(None, &one, &registry, &t).unwrap();
    assert_eq!((k.agent_id.as_str(), k.session_id.as_str()), ("agent", "s7"));
    // the request wins over everything
    assert_eq!(resolve_target(Some("asked"), &one, &registry, &t).unwrap().session_id, "asked");
}

#[test]
fn snapshot_of_an_unknown_session_is_empty() {
    let mut t = tracker();
    t.set_session_id("s1".to_string());
    t.file_access_at("/a.rs", Action::Read, 1);
    let registry = SessionRegistry::new();
    let mut agg = OrchestratorAggregator::new();
    let snap = resolve_snapshot(&t, &registry, &mut agg, Some("nope"), &StreamFilter::All);
    assert_eq!(snap.session_id, "nope");
    assert_eq!(snap.seq, 0);
    assert!(snap.nodes.is_empty());
    let empty = resolve_snapshot(&tracker(), &registry, &mut agg, None, &StreamFilter::All);
    assert_eq!(empty.session_id, "");
    assert!(empty.nodes.is_empty());
}

#[test]
fn snapshot_of_an_orchestrator_is_merged() {
    let mut t = tracker();
    t.set_session_id("s1".to_string());
    t.file_access_at("/a.rs", Action::Read, 1);
    t.set_session_id("s2".to_string());
    t.file_access_at("/b.rs", Action::Read, 2);
    let mut registry = SessionRegistry::new();
    registry.create_session_at(
        draft("agent", "o", SessionMode::Orchestrator, Some(vec![SessionKey::new("agent", "s1"), SessionKey::new("agent", "s2")])),
        1,
    );
    let mut agg = OrchestratorAggregator::new();
    let snap = resolve_snapshot(&t, &registry, &mut agg, Some("o"), &StreamFilter::All);
    assert_eq!(snap.session_mode, SessionMode::Orchestrator);
    assert_eq!(snap.session_id, "o");
    assert_eq!(snap.nodes.len(), 2);
    assert_eq!(snap.seq, 1);
    let plain = resolve_snapshot(&t, &registry, &mut agg, Some("s1"), &StreamFilter::All);
    assert_eq!(plain.session_mode, SessionMode::SingleAgent);
    assert_eq!(plain.nodes.len(), 1);
    assert!(plain.nodes.contains_key(&"/a.rs".to_string()));
}

#[test]
fn lag_recovery_serves_the_current_state() {
    // after any number of deltas that an observer missed, the snapshot that
    // it gets holds what the tracker holds
    let mut t = tracker();
    t.set_session_id("s1".to_string());
    for i in 0..300 {
        t.file_access_at(&format!("/f{}.rs", i % 7), Action::Write, i);
        assert!(t.tick().is_some());
    }
    let registry = SessionRegistry::new();
    let mut agg = OrchestratorAggregator::new();
    let snap = resolve_snapshot(&t, &registry, &mut agg, None, &StreamFilter::All);
    assert_eq!(snap.msg_type, "snapshot");
    assert_eq!(snap.seq, 300);
    assert_eq!(snap.nodes.len(), 7);
    for i in 0..7 {
        let path = format!("/f{}.rs", i);
        let held = t.node(&path).unwrap();
        let shown = snap.nodes.get(&path).unwrap();
        assert_eq!((shown.heat, shown.in_context, shown.last_action, shown.turn_accessed, shown.timestamp_ms),
            (held.heat, held.in_context, held.last_action, held.turn_accessed, held.timestamp_ms));
    }
}

#[test]
fn client_request_snapshot() {
    let mut t = tracker();
    t.file_access_at("/src/a.rs", Action::Read, 1);
    let mut registry = SessionRegistry::new();
    let mut agg = OrchestratorAggregator::new();
    let mut filter = StreamFilter::All;
    t.file_access_at("/src/b.rs", Action::Write, 2);
    match handle_client_line("{\"type\":\"request_snapshot\"}\n", &mut filter, &mut t, &mut registry, &mut agg, 3) {
        ClientReply::Snapshot(snap) => {
            assert_eq!(snap.msg_type, "snapshot");
            assert!(snap.nodes.contains_key(&"/src/a.rs".to_string()));
            assert!(snap.nodes.contains_key(&"/src/b.rs".to_string()));
        },
        other => panic!("unexpected {:?}", other),
    }
}

#[test]
fn client_lines_drive_the_connection() {
    let mut t = tracker();
    let mut registry = SessionRegistry::new();
    let mut agg = OrchestratorAggregator::new();
    let mut filter = StreamFilter::All;
    assert!(matches!(
        handle_client_line("garbage", &mut filter, &mut t, &mut registry, &mut agg, 1),
        ClientReply::Nothing
    ));
    assert!(matches!(filter, StreamFilter::All));
    assert!(matches!(
        handle_client_line("{\"type\":\"set_stream_filter\",\"session_id\":\"s1\"}", &mut filter, &mut t, &mut registry, &mut agg, 1),
        ClientReply::Nothing
    ));
    assert!(matches!(&filter, StreamFilter::Session(s) if s == "s1"));
    match handle_client_line(
        "{\"type\":\"rpc\",\"id\":\"1\",\"method\":\"create_session\",\"params\":{\"agent_id\":\"agent\",\"session_id\":\"s1\",\"mode\":\"single_agent\"}}",
        &mut filter, &mut t, &mut registry, &mut agg, 42,
    ) {
        ClientReply::Rpc(response) => {
            assert_eq!(response.id, "1");
            match response.outcome {
                RpcOutcome::Session(s) => {
                    assert_eq!(s.session_id, "s1");
                    assert_eq!(s.created_at_ms, 42);
                },
                other => panic!("unexpected {:?}", other),
            }
        },
        other => panic!("unexpected {:?}", other),
    }
    // the snapshot follows the filter of the connection
    match handle_client_line("{\"type\":\"request_snapshot\"}", &mut filter, &mut t, &mut registry, &mut agg, 43) {
        ClientReply::Snapshot(snap) => assert_eq!(snap.session_id, "s1"),
        other => panic!("unexpected {:?}", other),
    }
    assert!(matches!(
        handle_client_line("{\"type\":\"set_stream_filter\"}", &mut filter, &mut t, &mut registry, &mut agg, 1),
        ClientReply::Nothing
    ));
    assert!(matches!(filter, StreamFilter::All));
}

#[test]
fn every_unfiltered_observer_gets_every_line() {
    // two observers without a filter forward the same lines in the same order
    let lines = ["{\"type\":\"snapshot\"}\n", "{\"type\":\"delta\",\"seq\":1}\n", "junk\n", "{\"type\":\"delta\",\"seq\":2}\n"];
    let first: Vec<&str> = lines.iter().copied().filter(|l| StreamFilter::All.forwards(l)).collect();
    let second: Vec<&str> = lines.iter().copied().filter(|l| StreamFilter::All.forwards(l)).collect();
    assert_eq!(first, lines.to_vec());
    assert_eq!(second, lines.to_vec());
}

#[test]
fn channel_lines_pass_the_filter_of_the_connection() {
    let t = tracker();
    let registry = SessionRegistry::new();
    let mut agg = OrchestratorAggregator::new();
    let delta = ChannelEvent::Line("{\"type\":\"delta\",\"session_id\":\"s1\",\"session_mode\":\"single_agent\"}\n".to_string());
    let junk = ChannelEvent::Line("junk\n".to_string());
    assert!(matches!(handle_channel_event(&delta, &StreamFilter::All, &t, &registry, &mut agg), ChannelAction::Forward));
    assert!(matches!(handle_channel_event(&junk, &StreamFilter::All, &t, &registry, &mut agg), ChannelAction::Forward));
    let one = StreamFilter::Session("s1".to_string());
    assert!(matches!(handle_channel_event(&delta, &one, &t, &registry, &mut agg), ChannelAction::Forward));
    assert!(matches!(handle_channel_event(&junk, &one, &t, &registry, &mut agg), ChannelAction::Skip));
    let other = StreamFilter::Session("s2".to_string());
    assert!(matches!(handle_channel_event(&delta, &other, &t, &registry, &mut agg), ChannelAction::Skip));
    assert!(matches!(handle_channel_event(&ChannelEvent::Closed, &one, &t, &registry, &mut agg), ChannelAction::Stop));
}

#[test]
fn a_lagging_connection_gets_a_fresh_snapshot() {
    let mut t = tracker();
    t.set_session_id("s1".to_string());
    let registry = SessionRegistry::new();
    let mut agg = OrchestratorAggregator::new();
    let first = first_snapshot(&t, &registry, &mut agg);
    assert_eq!(first.msg_type, "snapshot");
    assert!(first.nodes.is_empty());
    // more deltas than the channel holds go by
    for i in 0..400u64 {
        t.file_access_at(&format!("/f{}.rs", i % 5), Action::Write, i);
        assert!(t.tick().is_some());
    }
    t.file_access_at("/dirty.rs", Action::Read, 999);
    match handle_channel_event(&ChannelEvent::Lagged(144), &StreamFilter::All, &t, &registry, &mut agg) {
        ChannelAction::Resync(snap) => {
            assert_eq!(snap.msg_type, "snapshot");
            assert_eq!(snap.session_id, "s1");
            assert_eq!(snap.seq, 400);
            assert_eq!(snap.nodes.len(), 6);
            for i in 0..snap.nodes.len() {
                let shown = snap.nodes.value(i);
                let held = t.node(snap.nodes.key(i)).unwrap();
                assert_eq!((shown.heat, shown.in_context, shown.last_action, shown.timestamp_ms),
                    (held.heat, held.in_context, held.last_action, held.timestamp_ms));
            }
        },
        other => panic!("unexpected {:?}", other),
    }
    // the snapshot follows the filter of the connection
    let unknown = StreamFilter::Session("elsewhere".to_string());
    match handle_channel_event(&ChannelEvent::Lagged(1), &unknown, &t, &registry, &mut agg) {
        ChannelAction::Resync(snap) => {
            assert_eq!(snap.session_id, "elsewhere");
            assert!(snap.nodes.is_empty());
        },
        other => panic!("unexpected {:?}", other),
    }
}
