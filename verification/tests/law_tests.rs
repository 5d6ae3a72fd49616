use eisen_core::extract::{
    apply_effects, extract_downstream_at, extract_from_prompt, extract_upstream_at, plan_downstream,
    plan_upstream, Effect,
};
use eisen_core::acp::PromptBlock;
use eisen_core::keyed::KeyedList;
use eisen_core::table::{cool_heat, is_compaction, FileTable};
use eisen_core::tracker::ContextTracker;
use eisen_core::types::{
    Action, BlockedAccess, Delta, FileNode, SessionMode, Snapshot, TrackerConfig, UsageMessage,
    HEAT_FLOOR, HEAT_ONE,
};

fn tracker(context_turns: u32, compaction_threshold: u32, decay_rate: u32) -> ContextTracker {
    ContextTracker::new(TrackerConfig { context_turns, compaction_threshold, decay_rate })
}

/// What an observer holds after it took a delta.
fn patch(held: &mut Vec<(String, (u32, bool, Action, u32, u64))>, delta: &Delta) {
    for u in &delta.updates {
        held.retain(|(p, _)| p != &u.path);
        held.push((u.path.clone(), (u.heat, u.in_context, u.last_action, u.turn_accessed, u.timestamp_ms)));
    }
    for r in &delta.removed {
        held.retain(|(p, _)| p != r);
    }
}

fn shown(snap: &Snapshot) -> Vec<(String, (u32, bool, Action, u32, u64))> {
    let mut out = Vec::new();
    for i in 0..snap.nodes.len() {
        let n = snap.nodes.value(i);
        out.push((snap.nodes.key(i).clone(), (n.heat, n.in_context, n.last_action, n.turn_accessed, n.timestamp_ms)));
    }
    out.sort_by(|a, b| a.0.cmp(&b.0));
    out
}

#[test]
fn default_config() {
    let c = TrackerConfig::default();
    assert_eq!((c.context_turns, c.compaction_threshold, c.decay_rate), (3, 500_000, 950_000));
    assert_eq!(HEAT_ONE, 1_000_000);
    assert_eq!(HEAT_FLOOR, 10_000);
}

#[test]
fn cooling_formula() {
    assert_eq!(cool_heat(1_000_000, 950_000), 950_000);
    assert_eq!(cool_heat(950_000, 950_000), 902_500);
    assert_eq!(cool_heat(10_527, 950_000), 10_000 * 0);
    assert_eq!(cool_heat(10_528, 950_000), 10_001);
    assert_eq!(cool_heat(1_000_000, 1_000), 0);
    assert_eq!(cool_heat(500_000, 3_000_000), HEAT_ONE);
    assert_eq!(cool_heat(u32::MAX, u32::MAX), HEAT_ONE);
    assert_eq!(cool_heat(0, 950_000), 0);
}

#[test]
fn compaction_formula() {
    assert!(is_compaction(180_000, 45_000, 500_000));
    assert!(is_compaction(100, 50, 500_000));
    assert!(!is_compaction(100, 51, 500_000));
    assert!(!is_compaction(100_000, 80_000, 500_000));
    assert!(!is_compaction(0, 45_000, 500_000));
    assert!(!is_compaction(100, 200, 0));
    assert!(is_compaction(100, 100, 0));
    assert!(is_compaction(u32::MAX, 0, 1_000_000));
    assert!(!is_compaction(u32::MAX, 1, 1_000_000));
}

#[test]
fn heat_stays_in_range() {
    let mut t = tracker(0, 500_000, 4_000_000_000);
    for i in 0..20 {
        t.file_access_at(&format!("/f{}", i), Action::Read, i);
    }
    t.end_turn();
    for _ in 0..50 {
        if let Some(d) = t.tick() {
            for u in &d.updates {
                assert!(u.heat <= HEAT_ONE);
            }
        }
        let snap = t.snapshot();
        for i in 0..snap.nodes.len() {
            assert!(snap.nodes.value(i).heat <= HEAT_ONE);
        }
    }
}

#[test]
fn timestamps_follow_the_clock() {
    let mut t = tracker(3, 500_000, 950_000);
    t.file_access_at("/a.rs", Action::Read, 100);
    t.end_turn();
    t.usage_update(10, 100);
    t.tick();
    assert_eq!(t.node("/a.rs").unwrap().timestamp_ms, 100);
    t.file_access_at("/a.rs", Action::Write, 250);
    assert_eq!(t.node("/a.rs").unwrap().timestamp_ms, 250);
    let before = t.node("/a.rs").unwrap().timestamp_ms;
    t.file_access("/a.rs", Action::Read);
    // the wall clock of this machine is well past the year 1970
    assert!(t.node("/a.rs").unwrap().timestamp_ms >= before);
    let notice = BlockedAccess::new("a", "s", "/p", "read");
    assert!(notice.timestamp_ms > 250);
    assert_eq!(notice.msg_type, "blocked");
}

#[test]
fn seq_rises_by_one_with_each_delta() {
    let mut t = tracker(0, 500_000, 900_000);
    let mut last = 0;
    for round in 0..40u64 {
        if round % 3 == 0 {
            t.file_access_at("/a.rs", Action::Read, round);
        }
        if round % 7 == 0 {
            t.end_turn();
        }
        match t.tick() {
            Some(d) => {
                assert_eq!(d.seq, last + 1);
                last = d.seq;
            },
            None => {},
        }
        assert_eq!(t.seq(), last);
        assert_eq!(t.snapshot().seq, last);
    }
    assert!(last > 10);
}

#[test]
fn tick_is_silent_exactly_when_nothing_is_dirty() {
    let mut t = tracker(0, 500_000, 500_000);
    assert!(t.tick().is_none());
    t.file_access_at("/a.rs", Action::Read, 1);
    assert!(t.tick().is_some());
    assert!(t.tick().is_none()); // in context: no cooling, nothing dirty
    t.end_turn();
    let mut deltas = 0;
    while let Some(d) = t.tick() {
        deltas += 1;
        assert_eq!(d.updates.len() + d.removed.len(), 1);
    }
    // 1.0 -> 0.5 -> 0.25 -> ... -> below the floor, removed
    assert_eq!(deltas, 7);
    assert!(t.node("/a.rs").is_none());
    assert!(t.tick().is_none());
}

#[test]
fn re_access_resets_heat_whatever_the_decay() {
    let mut t = tracker(0, 500_000, 500_000);
    t.file_access_at("/a.rs", Action::Read, 1);
    t.end_turn();
    for _ in 0..4 {
        t.tick();
        assert!(t.node("/a.rs").unwrap().heat < HEAT_ONE);
        assert!(!t.node("/a.rs").unwrap().in_context);
        t.file_access_at("/a.rs", Action::Search, 2);
        let n = t.node("/a.rs").unwrap();
        assert_eq!(n.heat, HEAT_ONE);
        assert!(n.in_context);
        assert_eq!(n.last_action, Action::Search);
        t.end_turn();
    }
}

#[test]
fn repeated_usage_report_is_no_compaction() {
    let mut t = tracker(3, 500_000, 950_000);
    t.file_access_at("/d.rs", Action::Read, 1);
    t.usage_update(180_000, 200_000);
    t.usage_update(180_000, 200_000);
    t.usage_update(180_000, 100_000);
    assert!(t.node("/d.rs").unwrap().in_context);
    t.usage_update(45_000, 200_000);
    assert!(!t.node("/d.rs").unwrap().in_context);
    t.file_access_at("/d.rs", Action::Read, 2);
    t.usage_update(45_000, 200_000);
    t.usage_update(45_000, 200_000);
    assert!(t.node("/d.rs").unwrap().in_context);
    let all = t.take_pending_usage();
    assert_eq!(all.len(), 6);
    assert!(all.iter().all(|m| m.msg_type == "usage"));
}

#[test]
fn snapshot_plus_deltas_is_the_tracker_state() {
    let mut t = tracker(1, 500_000, 300_000);
    t.set_session_id("s".to_string());
    t.file_access_at("/a.rs", Action::Read, 1);
    t.file_access_at("/b.rs", Action::Write, 2);
    t.tick();
    // the observer joins while /c.rs is dirty
    t.file_access_at("/c.rs", Action::Search, 3);
    let mut held = shown(&t.snapshot());
    for round in 0..30u64 {
        match round % 5 {
            0 => t.file_access_at("/a.rs", Action::Write, 10 + round),
            1 => t.end_turn(),
            2 => t.usage_update(1000 / (round as u32 + 1), 5000),
            3 => t.file_access_at(&format!("/n{}.rs", round), Action::Read, 10 + round),
            _ => {},
        }
        if let Some(d) = t.tick() {
            patch(&mut held, &d);
        }
        held.sort_by(|a, b| a.0.cmp(&b.0));
        assert_eq!(held, shown(&t.snapshot()), "after round {}", round);
    }
}

#[test]
fn unicode_and_colons_in_paths_survive() {
    let mut t = tracker(3, 500_000, 950_000);
    let path = "/home/usér/src/\u{1F600}:emoji:.rs";
    let read = format!(
        "{{\"jsonrpc\":\"2.0\",\"id\":1,\"method\":\"fs/read_text_file\",\"params\":{{\"sessionId\":\"s\",\"path\":\"{}\"}}}}",
        path
    );
    extract_downstream_at(&read, &mut t, 1);
    assert_eq!(t.node(path).unwrap().path, path);
    let prompt = format!(
        "{{\"jsonrpc\":\"2.0\",\"id\":2,\"method\":\"session/prompt\",\"params\":{{\"sessionId\":\"s\",\"prompt\":[{{\"type\":\"resource_link\",\"uri\":\"file://{}2\",\"name\":\"n\"}}]}}}}",
        path
    );
    extract_upstream_at(&prompt, &mut t, 2);
    let linked = format!("{}2", path);
    assert_eq!(t.node(&linked).unwrap().last_action, Action::UserReferenced);
    let tool = format!(
        "{{\"jsonrpc\":\"2.0\",\"method\":\"session/update\",\"params\":{{\"sessionId\":\"s\",\"update\":{{\"sessionUpdate\":\"tool_call\",\"toolCallId\":\"t\",\"title\":\"Edit\",\"kind\":\"edit\",\"content\":[{{\"type\":\"diff\",\"path\":\"{}3\",\"newText\":\"x\"}}],\"locations\":[{{\"path\":\"{}4\"}}]}}}}}}",
        path, path
    );
    extract_downstream_at(&tool, &mut t, 3);
    assert!(t.node(&format!("{}3", path)).is_some());
    assert!(t.node(&format!("{}4", path)).is_some());
    let snap = t.snapshot();
    assert!(snap.nodes.contains_key(&path.to_string()));
    let delta = t.tick().unwrap();
    assert_eq!(delta.updates.len(), 4);
    assert!(delta.updates.iter().any(|u| u.path == path));
}

#[test]
fn malformed_lines_change_nothing() {
    let mut t = tracker(3, 500_000, 950_000);
    t.set_session_id("s".to_string());
    t.file_access_at("/a.rs", Action::Read, 1);
    t.add_pending_terminal_output(4);
    let before = shown(&t.snapshot());
    for line in ["", "not json at all", "{broken", "{\"a\":", "[1,2", "\u{1F600}"] {
        extract_upstream_at(line, &mut t, 9);
        extract_downstream_at(line, &mut t, 9);
    }
    assert_eq!(shown(&t.snapshot()), before);
    assert_eq!(t.current_turn(), 0);
    assert_eq!(t.session_id(), "s");
    assert!(t.awaits(4));
    assert!(t.tick().is_some());
    assert_eq!(t.seq(), 1);
}

#[test]
fn mixed_prompt_blocks_give_one_access_per_file() {
    let blocks = vec![
        PromptBlock::Other,
        PromptBlock::Embedded("file:///a.ts".to_string()),
        PromptBlock::Link("https://example.com/x".to_string()),
        PromptBlock::Link("file:///b.ts".to_string()),
        PromptBlock::Embedded("data:abc".to_string()),
        PromptBlock::Embedded("file:///a.ts".to_string()),
        PromptBlock::Other,
    ];
    let plan = extract_from_prompt(&blocks);
    let got: Vec<(String, Action)> = plan
        .iter()
        .map(|e| match e {
            Effect::Access { path, action } => (path.clone(), *action),
            other => panic!("unexpected {:?}", other),
        })
        .collect();
    assert_eq!(
        got,
        vec![
            ("/a.ts".to_string(), Action::UserProvided),
            ("/b.ts".to_string(), Action::UserReferenced),
            ("/a.ts".to_string(), Action::UserProvided),
        ]
    );
}

#[test]
fn effects_apply_in_order() {
    let mut t = tracker(0, 500_000, 950_000);
    let effects = vec![
        Effect::AdoptSession("s1".to_string()),
        Effect::Access { path: "/a".to_string(), action: Action::Read },
        Effect::Await(7),
        Effect::EndTurn,
        Effect::Access { path: "/b".to_string(), action: Action::Write },
        Effect::AdoptSession("s2".to_string()),
        Effect::Settle(7),
        Effect::Settle(8),
    ];
    apply_effects(&mut t, &effects, 55);
    assert_eq!(t.session_id(), "s1");
    assert_eq!(t.current_turn(), 1);
    assert!(!t.node("/a").unwrap().in_context);
    assert!(t.node("/b").unwrap().in_context);
    assert_eq!(t.node("/b").unwrap().turn_accessed, 1);
    assert_eq!(t.node("/b").unwrap().timestamp_ms, 55);
    assert!(!t.awaits(7));
    assert!(t.has_room());
}

#[test]
fn terminal_output_is_scanned_once() {
    let mut t = tracker(3, 500_000, 950_000);
    let request = r#"{"jsonrpc":"2.0","id":12,"method":"terminal/output","params":{"sessionId":"s","terminalId":"t1"}}"#;
    let response = r#"{"jsonrpc":"2.0","id":12,"result":{"output":"/src/main.rs:3: hit\n/src/dir\nnoise\n/src/lib.rs\n","truncated":false}}"#;
    // a response that nobody waits for is not scanned
    extract_upstream_at(response, &mut t, 1);
    assert!(t.snapshot().nodes.is_empty());
    extract_downstream_at(request, &mut t, 2);
    assert!(t.awaits(12));
    let doc: serde_json::Value = serde_json::from_str(response).unwrap();
    assert_eq!(plan_upstream(&doc, &t).len(), 3);
    extract_upstream_at(response, &mut t, 3);
    assert!(!t.awaits(12));
    assert_eq!(t.node("/src/main.rs").unwrap().last_action, Action::Search);
    assert_eq!(t.node("/src/lib.rs").unwrap().last_action, Action::Search);
    assert!(t.node("/src/dir").is_none());
    assert_eq!(t.snapshot().nodes.len(), 2);
    extract_upstream_at(response, &mut t, 4);
    assert_eq!(t.node("/src/main.rs").unwrap().timestamp_ms, 3);
}

#[test]
fn execute_tool_call_scans_text_and_title() {
    let mut t = tracker(3, 500_000, 950_000);
    let line = r#"{"jsonrpc":"2.0","method":"session/update","params":{"sessionId":"s1","update":{"sessionUpdate":"tool_call","toolCallId":"tc","title":"grep -r x /src > /tmp/out.txt && echo done >> /tmp/log.txt","kind":"execute","status":"completed","content":[{"type":"content","content":{"type":"text","text":"/src/hit.rs:1:x"}}],"locations":[{"path":"/src"}]}}}"#;
    let doc: serde_json::Value = serde_json::from_str(line).unwrap();
    let plan = plan_downstream(&doc);
    assert_eq!(plan.len(), 5);
    extract_downstream_at(line, &mut t, 1);
    assert_eq!(t.node("/src").unwrap().last_action, Action::Read);
    assert_eq!(t.node("/src/hit.rs").unwrap().last_action, Action::Search);
    assert_eq!(t.node("/tmp/out.txt").unwrap().last_action, Action::Write);
    assert_eq!(t.node("/tmp/log.txt").unwrap().last_action, Action::Write);
    // an update has the same fields, each of them optional
    let mut u = tracker(3, 500_000, 950_000);
    let update = r#"{"jsonrpc":"2.0","method":"session/update","params":{"sessionId":"s1","update":{"sessionUpdate":"tool_call_update","toolCallId":"tc","title":"echo > /tmp/x.txt","kind":"execute"}}}"#;
    extract_downstream_at(update, &mut u, 1);
    assert_eq!(u.node("/tmp/x.txt").unwrap().last_action, Action::Write);
    let untitled = r#"{"jsonrpc":"2.0","method":"session/update","params":{"sessionId":"s1","update":{"sessionUpdate":"tool_call_update","toolCallId":"tc","kind":"execute"}}}"#;
    let mut v = tracker(3, 500_000, 950_000);
    extract_downstream_at(untitled, &mut v, 1);
    assert!(v.snapshot().nodes.is_empty());
    let read = r#"{"jsonrpc":"2.0","method":"session/update","params":{"sessionId":"s1","update":{"sessionUpdate":"tool_call_update","toolCallId":"tc","title":"echo > /tmp/x.txt","kind":"read"}}}"#;
    extract_downstream_at(read, &mut v, 1);
    assert!(v.snapshot().nodes.is_empty());
}

#[test]
fn end_turn_cycle_scenario() {
    let mut t = tracker(3, 500_000, 950_000);
    t.file_access_at("/c.rs", Action::Read, 1);
    let line = r#"{"jsonrpc":"2.0","id":1,"result":{"stopReason":"end_turn"}}"#;
    for _ in 0..3 {
        extract_downstream_at(line, &mut t, 2);
    }
    assert!(t.node("/c.rs").unwrap().in_context);
    extract_downstream_at(line, &mut t, 2);
    assert!(!t.node("/c.rs").unwrap().in_context);
    assert_eq!(t.current_turn(), 4);
}

#[test]
fn compaction_scenario() {
    let mut t = tracker(3, 500_000, 950_000);
    t.file_access_at("/d.rs", Action::Read, 1);
    t.usage_update(180_000, 200_000);
    assert!(t.node("/d.rs").unwrap().in_context);
    t.usage_update(45_000, 200_000);
    assert!(!t.node("/d.rs").unwrap().in_context);
}

#[test]
fn tool_call_edit_scenario() {
    let mut t = tracker(3, 500_000, 950_000);
    let line = r#"{"jsonrpc":"2.0","method":"session/update","params":{"sessionId":"s1","update":{"sessionUpdate":"tool_call","toolCallId":"tc2","title":"Edit file","kind":"edit","locations":[{"path":"/b.rs"}]}}}"#;
    extract_downstream_at(line, &mut t, 1);
    assert_eq!(t.node("/b.rs").unwrap().last_action, Action::Write);
}

#[test]
fn sessions_rest_and_come_back() {
    let mut t = tracker(3, 500_000, 950_000);
    t.file_access_at("/early.rs", Action::Read, 1);
    // the first name goes to the table that is there
    t.set_session_id("s1".to_string());
    assert!(t.node("/early.rs").is_some());
    t.tick();
    t.set_session_id("s2".to_string());
    assert!(t.node("/early.rs").is_none());
    assert_eq!(t.seq(), 0);
    t.file_access_at("/late.rs", Action::Write, 2);
    assert_eq!(t.session_ids(), vec!["s2".to_string(), "s1".to_string()]);
    assert_eq!(t.snapshot_for_session("s1").nodes.len(), 1);
    assert_eq!(t.snapshot_for_session("s1").seq, 1);
    t.set_session_mode("s1", SessionMode::Orchestrator);
    t.set_session_id("s1".to_string());
    assert_eq!(t.seq(), 1);
    assert!(t.node("/early.rs").is_some());
    assert_eq!(t.snapshot().session_mode, SessionMode::Orchestrator);
    assert_eq!(t.snapshot_for_session("s2").nodes.len(), 1);
    t.set_session_id("s1".to_string());
    assert!(t.node("/early.rs").is_some());
    let usage: Vec<UsageMessage> = {
        t.usage_update(1, 2);
        t.take_pending_usage()
    };
    assert_eq!(usage[0].session_mode, SessionMode::Orchestrator);
    assert_eq!(t.agent_id(), "");
}

#[test]
fn file_table_alone() {
    let mut table = FileTable::new();
    table.access("/a", Action::Read, 1);
    table.set_mode(SessionMode::Orchestrator);
    assert_eq!(table.mode(), SessionMode::Orchestrator);
    table.end_turn(0);
    assert_eq!(table.current_turn(), 1);
    table.report_usage(10, 20, 500_000);
    assert_eq!(table.last_used_tokens(), 10);
    table.cool(500_000);
    assert_eq!(table.node("/a").unwrap().heat, 500_000);
    table.access("/b", Action::Read, 2);
    table.handle_compaction();
    assert!(!table.node("/b").unwrap().in_context);
    let (updates, removed) = table.tick(1_000).unwrap();
    assert_eq!(updates.len(), 0);
    assert_eq!(removed.len(), 2);
    assert_eq!(table.seq(), 1);
    let nodes: KeyedList<String, FileNode> = table.snapshot_nodes();
    assert!(nodes.is_empty());
}

#[test]
fn node_update_mirrors_the_node() {
    let n = FileNode {
        path: "/x".to_string(),
        heat: 5,
        in_context: true,
        last_action: Action::Blocked,
        turn_accessed: 9,
        timestamp_ms: 11,
    };
    let u = n.to_update();
    assert_eq!((u.path.as_str(), u.heat, u.in_context, u.last_action, u.turn_accessed, u.timestamp_ms),
        ("/x", 5, true, Action::Blocked, 9, 11));
    assert_eq!(Action::UserProvided.as_str(), "user_provided");
    assert_eq!(Action::UserReferenced.as_str(), "user_referenced");
    assert_eq!(Action::Read.as_str(), "read");
    assert_eq!(Action::Write.as_str(), "write");
    assert_eq!(Action::Search.as_str(), "search");
    assert_eq!(Action::Blocked.as_str(), "blocked");
}

#[test]
fn a_silent_tick_leaves_the_tracker_as_it_was() {
    let mut t = tracker(1, 500_000, 500_000);
    t.file_access_at("/a.rs", Action::Read, 1);
    t.file_access_at("/b.rs", Action::Write, 2);
    assert_eq!(t.tick().unwrap().seq, 1);
    let before = shown(&t.snapshot());
    for _ in 0..3 {
        assert!(t.tick().is_none());
        assert_eq!(t.seq(), 1);
        assert_eq!(shown(&t.snapshot()), before);
    }
    // a node that cools makes the next tick speak, though nothing was dirty
    t.end_turn();
    assert!(t.tick().is_none());
    t.end_turn();
    let d = t.tick().unwrap();
    assert_eq!(d.seq, 2);
    assert_eq!(d.updates.len(), 2);
    assert!(d.updates.iter().all(|u| u.heat == HEAT_ONE / 2 && !u.in_context));
}
