use agent_client_protocol_schema::v1::ToolKind;
use eisen_core::extract::{extract_downstream, extract_upstream, tool_kind_to_action};
use eisen_core::tracker::ContextTracker;
use eisen_core::types::{Action, TrackerConfig, HEAT_ONE};

fn make_tracker() -> ContextTracker {
    ContextTracker::new(TrackerConfig::default())
}

// -- Channel #1: Embedded resource in prompt -------------------------

#[test]
fn extract_prompt_embedded_resource() {
    let mut tracker = make_tracker();
    let line = r#"{"jsonrpc":"2.0","id":1,"method":"session/prompt","params":{"sessionId":"s1","prompt":[{"type":"text","text":"Fix auth"},{"type":"resource","resource":{"uri":"file:///home/user/src/auth.ts","mimeType":"text/typescript","text":"export function login() {}"}}]}}"#;
    extract_upstream(line, &mut tracker);
    let snap = tracker.snapshot();
    assert!(snap.nodes.contains_key(&"/home/user/src/auth.ts".to_string()));
    let node = &snap.nodes.get(&"/home/user/src/auth.ts".to_string()).unwrap();
    assert_eq!(node.last_action, Action::UserProvided);
    assert!(node.in_context);
    assert_eq!(node.heat, HEAT_ONE);
}

// -- Channel #2: Resource link in prompt -----------------------------

#[test]
fn extract_prompt_resource_link() {
    let mut tracker = make_tracker();
    let line = r#"{"jsonrpc":"2.0","id":2,"method":"session/prompt","params":{"sessionId":"s1","prompt":[{"type":"resource_link","uri":"file:///home/user/src/config.ts","name":"config.ts"}]}}"#;
    extract_upstream(line, &mut tracker);
    let snap = tracker.snapshot();
    assert!(snap.nodes.contains_key(&"/home/user/src/config.ts".to_string()));
    let node = &snap.nodes.get(&"/home/user/src/config.ts".to_string()).unwrap();
    assert_eq!(node.last_action, Action::UserReferenced);
}

// -- Channel #5a: Tool call with locations ---------------------------

#[test]
fn extract_tool_call_read() {
    let mut tracker = make_tracker();
    let line = r#"{"jsonrpc":"2.0","method":"session/update","params":{"sessionId":"s1","update":{"sessionUpdate":"tool_call","toolCallId":"tc1","title":"Read file","kind":"read","status":"in_progress","content":[],"locations":[{"path":"/home/user/src/main.rs"}]}}}"#;
    extract_downstream(line, &mut tracker);
    let snap = tracker.snapshot();
    assert!(snap.nodes.contains_key(&"/home/user/src/main.rs".to_string()));
    assert_eq!(snap.nodes.get(&"/home/user/src/main.rs".to_string()).unwrap().last_action, Action::Read);
}

#[test]
fn extract_tool_call_edit() {
    let mut tracker = make_tracker();
    let line = r#"{"jsonrpc":"2.0","method":"session/update","params":{"sessionId":"s1","update":{"sessionUpdate":"tool_call","toolCallId":"tc2","title":"Edit file","kind":"edit","status":"in_progress","content":[],"locations":[{"path":"/home/user/src/lib.rs","line":42}]}}}"#;
    extract_downstream(line, &mut tracker);
    let snap = tracker.snapshot();
    assert!(snap.nodes.contains_key(&"/home/user/src/lib.rs".to_string()));
    assert_eq!(snap.nodes.get(&"/home/user/src/lib.rs".to_string()).unwrap().last_action, Action::Write);
}

#[test]
fn extract_tool_call_search() {
    let mut tracker = make_tracker();
    let line = r#"{"jsonrpc":"2.0","method":"session/update","params":{"sessionId":"s1","update":{"sessionUpdate":"tool_call","toolCallId":"tc3","title":"Search","kind":"search","status":"completed","content":[],"locations":[{"path":"/home/user/src"}]}}}"#;
    extract_downstream(line, &mut tracker);
    let snap = tracker.snapshot();
    assert!(snap.nodes.contains_key(&"/home/user/src".to_string()));
    assert_eq!(snap.nodes.get(&"/home/user/src".to_string()).unwrap().last_action, Action::Search);
}

#[test]
fn extract_search_result_files_from_text_content() {
    let mut tracker = make_tracker();
    let line = r#"{"jsonrpc":"2.0","method":"session/update","params":{"sessionId":"s1","update":{"sessionUpdate":"tool_call","toolCallId":"tc3b","title":"Grep","kind":"search","status":"completed","content":[{"type":"content","content":{"type":"text","text":"/home/user/src/main.rs:42:    fn main() {}\n/home/user/src/lib.rs:10:    pub mod foo;\n/home/user/src/utils.rs"}}],"locations":[{"path":"/home/user/src"}]}}}"#;
    extract_downstream(line, &mut tracker);
    let snap = tracker.snapshot();
    assert!(snap.nodes.contains_key(&"/home/user/src".to_string()));
    assert!(snap.nodes.contains_key(&"/home/user/src/main.rs".to_string()));
    assert!(snap.nodes.contains_key(&"/home/user/src/lib.rs".to_string()));
    assert!(snap.nodes.contains_key(&"/home/user/src/utils.rs".to_string()));
    assert_eq!(snap.nodes.get(&"/home/user/src/main.rs".to_string()).unwrap().last_action, Action::Search);
    assert_eq!(snap.nodes.get(&"/home/user/src/lib.rs".to_string()).unwrap().last_action, Action::Search);
    assert_eq!(snap.nodes.get(&"/home/user/src/utils.rs".to_string()).unwrap().last_action, Action::Search);
}

#[test]
fn extract_search_result_files_from_tool_call_update() {
    let mut tracker = make_tracker();
    let line = r#"{"jsonrpc":"2.0","method":"session/update","params":{"sessionId":"s1","update":{"sessionUpdate":"tool_call_update","toolCallId":"tc3c","kind":"search","content":[{"type":"content","content":{"type":"text","text":"/home/user/src/app.rs\n/home/user/src/db.rs"}}]}}}"#;
    extract_downstream(line, &mut tracker);
    let snap = tracker.snapshot();
    assert!(snap.nodes.contains_key(&"/home/user/src/app.rs".to_string()));
    assert!(snap.nodes.contains_key(&"/home/user/src/db.rs".to_string()));
    assert_eq!(snap.nodes.get(&"/home/user/src/app.rs".to_string()).unwrap().last_action, Action::Search);
}

#[test]
fn search_result_ignores_non_file_lines() {
    let mut tracker = make_tracker();
    let line = r#"{"jsonrpc":"2.0","method":"session/update","params":{"sessionId":"s1","update":{"sessionUpdate":"tool_call","toolCallId":"tc3d","title":"Search","kind":"search","status":"completed","content":[{"type":"content","content":{"type":"text","text":"Results found:\n/home/user/src/main.rs:42: code\nno-path-here\n  indented line\n"}}],"locations":[]}}}"#;
    extract_downstream(line, &mut tracker);
    let snap = tracker.snapshot();
    assert_eq!(snap.nodes.len(), 1);
    assert!(snap.nodes.contains_key(&"/home/user/src/main.rs".to_string()));
}

// -- Channel #5b: Tool call update -----------------------------------

#[test]
fn extract_tool_call_update_locations() {
    let mut tracker = make_tracker();
    let line = r#"{"jsonrpc":"2.0","method":"session/update","params":{"sessionId":"s1","update":{"sessionUpdate":"tool_call_update","toolCallId":"tc4","kind":"edit","locations":[{"path":"/home/user/src/db.rs"}]}}}"#;
    extract_downstream(line, &mut tracker);
    let snap = tracker.snapshot();
    assert!(snap.nodes.contains_key(&"/home/user/src/db.rs".to_string()));
    assert_eq!(snap.nodes.get(&"/home/user/src/db.rs".to_string()).unwrap().last_action, Action::Write);
}

#[test]
fn extract_tool_call_update_no_kind_defaults_to_read() {
    let mut tracker = make_tracker();
    let line = r#"{"jsonrpc":"2.0","method":"session/update","params":{"sessionId":"s1","update":{"sessionUpdate":"tool_call_update","toolCallId":"tc5","locations":[{"path":"/home/user/README.md"}]}}}"#;
    extract_downstream(line, &mut tracker);
    let snap = tracker.snapshot();
    assert!(snap.nodes.contains_key(&"/home/user/README.md".to_string()));
    assert_eq!(snap.nodes.get(&"/home/user/README.md".to_string()).unwrap().last_action, Action::Read);
}

// -- Channel #6: fs/read_text_file -----------------------------------

#[test]
fn extract_fs_read_text_file() {
    let mut tracker = make_tracker();
    let line = r#"{"jsonrpc":"2.0","id":10,"method":"fs/read_text_file","params":{"sessionId":"s1","path":"/home/user/src/db.ts","line":1,"limit":100}}"#;
    extract_downstream(line, &mut tracker);
    let snap = tracker.snapshot();
    assert!(snap.nodes.contains_key(&"/home/user/src/db.ts".to_string()));
    assert_eq!(snap.nodes.get(&"/home/user/src/db.ts".to_string()).unwrap().last_action, Action::Read);
}

// -- Channel #7: fs/write_text_file ----------------------------------

#[test]
fn extract_fs_write_text_file() {
    let mut tracker = make_tracker();
    let line = r#"{"jsonrpc":"2.0","id":11,"method":"fs/write_text_file","params":{"sessionId":"s1","path":"/home/user/src/config.ts","content":"export const config = {}"}}"#;
    extract_downstream(line, &mut tracker);
    let snap = tracker.snapshot();
    assert!(snap.nodes.contains_key(&"/home/user/src/config.ts".to_string()));
    assert_eq!(
        snap.nodes.get(&"/home/user/src/config.ts".to_string()).unwrap().last_action,
        Action::Write
    );
}

// -- Edge cases -------------------------------------------------------

#[test]
fn malformed_json_skipped() {
    let mut tracker = make_tracker();
    extract_upstream("not json at all", &mut tracker);
    extract_downstream("{broken", &mut tracker);
    assert_eq!(tracker.snapshot().nodes.len(), 0);
}

#[test]
fn non_file_uri_skipped() {
    let mut tracker = make_tracker();
    let line = r#"{"jsonrpc":"2.0","id":3,"method":"session/prompt","params":{"sessionId":"s1","prompt":[{"type":"resource_link","uri":"https://example.com/foo","name":"foo"}]}}"#;
    extract_upstream(line, &mut tracker);
    assert_eq!(tracker.snapshot().nodes.len(), 0);
}

#[test]
fn unknown_method_ignored() {
    let mut tracker = make_tracker();
    let line = r#"{"jsonrpc":"2.0","id":99,"method":"some/unknown","params":{}}"#;
    extract_upstream(line, &mut tracker);
    extract_downstream(line, &mut tracker);
    assert_eq!(tracker.snapshot().nodes.len(), 0);
}

#[test]
fn non_prompt_response_ignored() {
    let mut tracker = make_tracker();
    // JSON-RPC response without stopReason — not a PromptResponse
    let line = r#"{"jsonrpc":"2.0","id":1,"result":{"content":"hello"}}"#;
    extract_downstream(line, &mut tracker);
    assert_eq!(tracker.snapshot().nodes.len(), 0);
}

#[test]
fn multiple_resources_in_single_prompt() {
    let mut tracker = make_tracker();
    let line = r#"{"jsonrpc":"2.0","id":4,"method":"session/prompt","params":{"sessionId":"s1","prompt":[{"type":"resource","resource":{"uri":"file:///a.ts","text":"a"}},{"type":"resource_link","uri":"file:///b.ts","name":"b"},{"type":"text","text":"fix both"}]}}"#;
    extract_upstream(line, &mut tracker);
    let snap = tracker.snapshot();
    assert_eq!(snap.nodes.len(), 2);
    assert_eq!(snap.nodes.get(&"/a.ts".to_string()).unwrap().last_action, Action::UserProvided);
    assert_eq!(snap.nodes.get(&"/b.ts".to_string()).unwrap().last_action, Action::UserReferenced);
}

#[test]
fn multiple_locations_in_tool_call() {
    let mut tracker = make_tracker();
    let line = r#"{"jsonrpc":"2.0","method":"session/update","params":{"sessionId":"s1","update":{"sessionUpdate":"tool_call","toolCallId":"tc6","title":"Multi","kind":"read","status":"in_progress","content":[],"locations":[{"path":"/x.rs"},{"path":"/y.rs"},{"path":"/z.rs"}]}}}"#;
    extract_downstream(line, &mut tracker);
    let snap = tracker.snapshot();
    assert_eq!(snap.nodes.len(), 3);
}

// -- End-turn detection -----------------------------------------------

#[test]
fn prompt_response_triggers_end_turn() {
    let mut tracker = make_tracker();
    // Access a file in turn 0
    tracker.file_access("/a.rs", Action::Read);
    assert!(tracker.snapshot().nodes.get(&"/a.rs".to_string()).unwrap().in_context);

    // Agent returns PromptResponse with stopReason — each advances turn
    let line = r#"{"jsonrpc":"2.0","id":1,"result":{"stopReason":"end_turn"}}"#;

    // Default context_turns = 3. File accessed at turn 0.
    // end_turn checks: current_turn - turn_accessed > context_turns
    // After 1 end_turn: turn=1, 1-0=1 (not > 3) → still in context
    // After 3 end_turns: turn=3, 3-0=3 (not > 3) → still in context
    // After 4 end_turns: turn=4, 4-0=4 (> 3) → exits context
    extract_downstream(line, &mut tracker); // turn 1
    assert!(tracker.snapshot().nodes.get(&"/a.rs".to_string()).unwrap().in_context);
    extract_downstream(line, &mut tracker); // turn 2
    extract_downstream(line, &mut tracker); // turn 3
    assert!(tracker.snapshot().nodes.get(&"/a.rs".to_string()).unwrap().in_context);
    extract_downstream(line, &mut tracker); // turn 4

    let snap = tracker.snapshot();
    assert!(!snap.nodes.get(&"/a.rs".to_string()).unwrap().in_context);
}

#[test]
fn prompt_response_max_tokens_triggers_end_turn() {
    let mut tracker = make_tracker();
    tracker.file_access("/b.rs", Action::Read);

    // max_tokens also has stopReason
    let line = r#"{"jsonrpc":"2.0","id":1,"result":{"stopReason":"max_tokens"}}"#;
    extract_downstream(line, &mut tracker);

    // Turn should have advanced (turn 0 → 1)
    // File was accessed at turn 0, now at turn 1 — still in context (< 3 turns)
    let snap = tracker.snapshot();
    assert!(snap.nodes.get(&"/b.rs".to_string()).unwrap().in_context);
}

#[test]
fn prompt_response_cancelled_triggers_end_turn() {
    let mut tracker = make_tracker();
    tracker.file_access("/c.rs", Action::Read);

    let line = r#"{"jsonrpc":"2.0","id":1,"result":{"stopReason":"cancelled"}}"#;
    extract_downstream(line, &mut tracker);
    // Turn should have advanced
    assert_eq!(tracker.snapshot().nodes.get(&"/c.rs".to_string()).unwrap().turn_accessed, 0);
}

// -- Diff content extraction -------------------------------------------

#[test]
fn extract_diff_from_tool_call() {
    let mut tracker = make_tracker();
    // tool_call with a diff in content[] and no locations
    let line = r#"{"jsonrpc":"2.0","method":"session/update","params":{"sessionId":"s1","update":{"sessionUpdate":"tool_call","toolCallId":"tc10","title":"Edit","kind":"edit","status":"completed","content":[{"type":"diff","path":"/home/user/src/app.rs","newText":"fn main() {}"}],"locations":[]}}}"#;
    extract_downstream(line, &mut tracker);
    let snap = tracker.snapshot();
    assert!(snap.nodes.contains_key(&"/home/user/src/app.rs".to_string()));
    assert_eq!(snap.nodes.get(&"/home/user/src/app.rs".to_string()).unwrap().last_action, Action::Write);
}

#[test]
fn extract_diff_from_tool_call_update() {
    let mut tracker = make_tracker();
    // tool_call_update with a diff in content[]
    let line = r#"{"jsonrpc":"2.0","method":"session/update","params":{"sessionId":"s1","update":{"sessionUpdate":"tool_call_update","toolCallId":"tc11","content":[{"type":"diff","path":"/home/user/src/lib.rs","newText":"pub mod foo;"}]}}}"#;
    extract_downstream(line, &mut tracker);
    let snap = tracker.snapshot();
    assert!(snap.nodes.contains_key(&"/home/user/src/lib.rs".to_string()));
    assert_eq!(snap.nodes.get(&"/home/user/src/lib.rs".to_string()).unwrap().last_action, Action::Write);
}

#[test]
fn diff_and_locations_both_extracted() {
    let mut tracker = make_tracker();
    // tool_call with both locations and diff content pointing to different files
    let line = r#"{"jsonrpc":"2.0","method":"session/update","params":{"sessionId":"s1","update":{"sessionUpdate":"tool_call","toolCallId":"tc12","title":"Edit","kind":"edit","status":"completed","content":[{"type":"diff","path":"/diff.rs","newText":"new"}],"locations":[{"path":"/loc.rs"}]}}}"#;
    extract_downstream(line, &mut tracker);
    let snap = tracker.snapshot();
    assert_eq!(snap.nodes.len(), 2);
    assert!(snap.nodes.contains_key(&"/diff.rs".to_string()));
    assert!(snap.nodes.contains_key(&"/loc.rs".to_string()));
}

// -- tool_kind_to_action mapping ------------------------------------

#[test]
fn tool_kind_mapping() {
    assert_eq!(tool_kind_to_action(&ToolKind::Read), Action::Read);
    assert_eq!(tool_kind_to_action(&ToolKind::Edit), Action::Write);
    assert_eq!(tool_kind_to_action(&ToolKind::Delete), Action::Write);
    assert_eq!(tool_kind_to_action(&ToolKind::Move), Action::Write);
    assert_eq!(tool_kind_to_action(&ToolKind::Search), Action::Search);
    assert_eq!(tool_kind_to_action(&ToolKind::Execute), Action::Read);
    assert_eq!(tool_kind_to_action(&ToolKind::Fetch), Action::Read);
    assert_eq!(tool_kind_to_action(&ToolKind::Other), Action::Read);
}

// -- Session ID auto-detection ----------------------------------------

#[test]
fn auto_detect_session_id_from_new_session_response() {
    let mut tracker = make_tracker();
    assert_eq!(tracker.session_id(), "");

    let line = r#"{"jsonrpc":"2.0","id":1,"result":{"sessionId":"sess_abc123"}}"#;
    extract_downstream(line, &mut tracker);
    assert_eq!(tracker.session_id(), "sess_abc123");
}

#[test]
fn cli_session_id_not_overridden_by_auto_detect() {
    let mut tracker = make_tracker();
    tracker.set_session_id("cli-provided".to_string());

    let line = r#"{"jsonrpc":"2.0","id":1,"result":{"sessionId":"sess_from_agent"}}"#;
    extract_downstream(line, &mut tracker);
    assert_eq!(tracker.session_id(), "cli-provided");
}

#[test]
fn session_id_not_set_from_non_session_response() {
    let mut tracker = make_tracker();
    // A response with stopReason but no sessionId should not set session_id
    let line = r#"{"jsonrpc":"2.0","id":1,"result":{"stopReason":"end_turn"}}"#;
    extract_downstream(line, &mut tracker);
    assert_eq!(tracker.session_id(), "");
}
