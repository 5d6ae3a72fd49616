use eisen_core::tracker::ContextTracker;
use eisen_core::types::{Action, FileNode, TrackerConfig, HEAT_ONE};

fn default_tracker() -> ContextTracker {
    ContextTracker::new(TrackerConfig::default())
}

fn millionths(x: f32) -> u32 {
    (x as f64 * 1_000_000.0).round() as u32
}

fn heat(h: u32) -> f64 {
    h as f64 / HEAT_ONE as f64
}

fn config_with(context_turns: u32, compaction_threshold: f32, decay_rate: f32) -> TrackerConfig {
    TrackerConfig {
        context_turns,
        compaction_threshold: millionths(compaction_threshold),
        decay_rate: millionths(decay_rate),
    }
}

// ---------------------------------------------------------------
// session_id
// ---------------------------------------------------------------

#[test]
fn session_id_default_empty() {
    let t = default_tracker();
    assert_eq!(t.session_id(), "");
}

#[test]
fn set_session_id_propagates_to_snapshot() {
    let mut t = default_tracker();
    t.set_session_id("sess_123".to_string());
    assert_eq!(t.session_id(), "sess_123");

    let snap = t.snapshot();
    assert_eq!(snap.session_id, "sess_123");
}

#[test]
fn set_session_id_propagates_to_delta() {
    let mut t = default_tracker();
    t.set_session_id("sess_abc".to_string());
    t.file_access("/a.rs", Action::Read);
    let delta = t.tick().unwrap();
    assert_eq!(delta.session_id, "sess_abc");
}

#[test]
fn set_session_id_propagates_to_usage() {
    let mut t = default_tracker();
    t.set_session_id("sess_xyz".to_string());
    t.usage_update(100_000, 200_000);
    let msgs = t.take_pending_usage();
    assert_eq!(msgs[0].session_id, "sess_xyz");
}

// ---------------------------------------------------------------
// file_access
// ---------------------------------------------------------------

#[test]
fn file_access_creates_node() {
    let mut t = default_tracker();
    t.file_access("/src/main.rs", Action::Read);

    let snap = t.snapshot();
    assert_eq!(snap.nodes.len(), 1);

    let node = &snap.nodes.get(&"/src/main.rs".to_string()).unwrap();
    assert_eq!(node.path, "/src/main.rs");
    assert_eq!(heat(node.heat), 1.0);
    assert!(node.in_context);
    assert_eq!(node.last_action, Action::Read);
    assert_eq!(node.turn_accessed, 0);
}

#[test]
fn file_access_resets_heat_and_updates_action() {
    let mut t = ContextTracker::new(config_with(0, 0.5, 0.5));
    t.file_access("/src/main.rs", Action::Read);

    // Let the file leave the context and cool down to one half
    t.end_turn();
    t.tick();
    assert_eq!(heat(t.node("/src/main.rs").unwrap().heat), 0.5);
    assert!(!t.node("/src/main.rs").unwrap().in_context);

    // Re-access with a different action
    t.file_access("/src/main.rs", Action::Write);

    let node = &t.node("/src/main.rs").unwrap();
    assert_eq!(heat(node.heat), 1.0);
    assert!(node.in_context);
    assert_eq!(node.last_action, Action::Write);
}

#[test]
fn file_access_updates_turn_accessed() {
    let mut t = default_tracker();
    t.file_access("/a.rs", Action::Read);
    t.end_turn(); // turn 0 -> 1
    t.end_turn(); // turn 1 -> 2
    t.file_access("/a.rs", Action::Write);

    assert_eq!(t.node("/a.rs").unwrap().turn_accessed, 2);
}

// ---------------------------------------------------------------
// end_turn + context expiry
// ---------------------------------------------------------------

#[test]
fn end_turn_increments_turn() {
    let mut t = default_tracker();
    assert_eq!(t.current_turn(), 0);
    t.end_turn();
    assert_eq!(t.current_turn(), 1);
    t.end_turn();
    assert_eq!(t.current_turn(), 2);
}

#[test]
fn file_exits_context_after_context_turns() {
    let mut t = ContextTracker::new(config_with(2, 0.5, 0.95));
    t.file_access("/a.rs", Action::Read); // turn 0

    // Still in context after 2 turns
    t.end_turn(); // turn 1
    t.end_turn(); // turn 2
    assert!(t.node("/a.rs").unwrap().in_context);

    // Exits context after 3rd end_turn (current_turn=3, accessed=0, gap=3 > 2)
    t.end_turn(); // turn 3
    assert!(!t.node("/a.rs").unwrap().in_context);
}

#[test]
fn re_access_keeps_file_in_context() {
    let mut t = ContextTracker::new(config_with(1, 0.5, 0.95));
    t.file_access("/a.rs", Action::Read); // turn 0

    t.end_turn(); // turn 1
    t.file_access("/a.rs", Action::Read); // re-access at turn 1

    t.end_turn(); // turn 2
                  // gap = 2 - 1 = 1, which is NOT > 1, so still in context
    assert!(t.node("/a.rs").unwrap().in_context);

    t.end_turn(); // turn 3
                  // gap = 3 - 1 = 2 > 1 — now exits
    assert!(!t.node("/a.rs").unwrap().in_context);
}

// ---------------------------------------------------------------
// tick + heat decay
// ---------------------------------------------------------------

#[test]
fn tick_does_not_decay_in_context_files() {
    let mut t = default_tracker();
    t.file_access("/a.rs", Action::Read);

    // First tick drains the dirty set (the file_access above), but
    // the file is in_context so heat should stay at 1.0
    let delta = t.tick();
    assert!(delta.is_some()); // dirty from file_access

    let node = &t.node("/a.rs").unwrap();
    assert_eq!(heat(node.heat), 1.0);

    // Subsequent tick — nothing changed
    let delta = t.tick();
    assert!(delta.is_none());
}

#[test]
fn tick_decays_non_context_files() {
    let mut t = ContextTracker::new(config_with(0, 0.5, 0.90));
    t.file_access("/a.rs", Action::Read); // turn 0, in_context=true

    t.end_turn(); // turn 1, gap=1 > 0, file exits context
    assert!(!t.node("/a.rs").unwrap().in_context);

    // First tick: drains dirty from file_access+end_turn AND applies
    // decay (file is !in_context, heat=1.0 > 1.0*0.90 = 0.90)
    let delta = t.tick();
    assert!(delta.is_some());
    let d = delta.unwrap();
    assert_eq!(d.updates.len(), 1);
    assert!((heat(d.updates[0].heat) - 0.90).abs() < 0.001);

    // Second tick: 0.90 * 0.90 = 0.81
    let delta2 = t.tick().unwrap();
    assert!((heat(delta2.updates[0].heat) - 0.81).abs() < 0.001);
}

#[test]
fn tick_clamps_heat_to_zero() {
    let mut t = ContextTracker::new(config_with(0, 0.5, 0.001));
    t.file_access("/a.rs", Action::Read);
    t.end_turn(); // exits context

    // First tick: heat=1.0 * 0.001 = 0.001 < 0.01 > clamped to 0.
    // File is removed (heat=0, !in_context).
    let delta = t.tick();
    assert!(delta.is_some());
    let d = delta.unwrap();
    assert!(d.removed.contains(&"/a.rs".to_string()));
    assert!(!t.node("/a.rs").is_some());
}

#[test]
fn empty_tick_returns_none() {
    let mut t = default_tracker();
    assert!(t.tick().is_none());
}

// ---------------------------------------------------------------
// delta sequencing
// ---------------------------------------------------------------

#[test]
fn seq_increments_on_each_tick_with_changes() {
    let mut t = default_tracker();
    assert_eq!(t.seq(), 0);

    t.file_access("/a.rs", Action::Read);
    let d1 = t.tick().unwrap();
    assert_eq!(d1.seq, 1);

    t.file_access("/b.rs", Action::Write);
    let d2 = t.tick().unwrap();
    assert_eq!(d2.seq, 2);
}

#[test]
fn seq_does_not_increment_on_empty_tick() {
    let mut t = default_tracker();
    t.tick(); // no changes
    assert_eq!(t.seq(), 0);
}

#[test]
fn snapshot_includes_current_seq() {
    let mut t = default_tracker();
    t.file_access("/a.rs", Action::Read);
    t.tick(); // seq > 1

    let snap = t.snapshot();
    assert_eq!(snap.seq, 1);
}

// ---------------------------------------------------------------
// compaction detection
// ---------------------------------------------------------------

#[test]
fn compaction_evicts_all_files_from_context() {
    let mut t = default_tracker();
    t.file_access("/a.rs", Action::Read);
    t.file_access("/b.rs", Action::Write);

    // Simulate usage: 180k used
    t.usage_update(180_000, 200_000);

    assert!(t.node("/a.rs").unwrap().in_context);
    assert!(t.node("/b.rs").unwrap().in_context);

    // Usage drops to 45k — that's a 75% drop, above the 50% threshold
    t.usage_update(45_000, 200_000);

    assert!(!t.node("/a.rs").unwrap().in_context);
    assert!(!t.node("/b.rs").unwrap().in_context);
}

#[test]
fn no_compaction_on_small_usage_drop() {
    let mut t = default_tracker();
    t.file_access("/a.rs", Action::Read);

    t.usage_update(100_000, 200_000);
    // Small drop: 100k -> 80k = 20% drop, below 50%
    t.usage_update(80_000, 200_000);

    assert!(t.node("/a.rs").unwrap().in_context);
}

#[test]
fn compaction_on_first_usage_is_ignored() {
    let mut t = default_tracker();
    t.file_access("/a.rs", Action::Read);

    // First usage report — previous was 0, so no compaction logic
    t.usage_update(45_000, 200_000);

    assert!(t.node("/a.rs").unwrap().in_context);
}

// ---------------------------------------------------------------
// usage_update queues UsageMessage
// ---------------------------------------------------------------

#[test]
fn usage_update_queues_message() {
    let mut t = default_tracker();
    t.usage_update(100_000, 200_000);

    let msgs = t.take_pending_usage();
    assert_eq!(msgs.len(), 1);
    assert_eq!(msgs[0].used, 100_000);
    assert_eq!(msgs[0].size, 200_000);
    assert_eq!(msgs[0].msg_type, "usage");
}

#[test]
fn take_pending_usage_drains() {
    let mut t = default_tracker();
    t.usage_update(100_000, 200_000);
    t.usage_update(50_000, 200_000);

    let msgs = t.take_pending_usage();
    assert_eq!(msgs.len(), 2);

    // Second call returns empty
    let msgs2 = t.take_pending_usage();
    assert!(msgs2.is_empty());
}

// ---------------------------------------------------------------
// snapshot filtering
// ---------------------------------------------------------------

#[test]
fn snapshot_excludes_cold_files() {
    let mut t = ContextTracker::new(config_with(0, 0.5, 0.001));
    t.file_access("/a.rs", Action::Read);
    t.end_turn(); // exits context

    // Drain dirty + decay to zero
    t.tick();
    t.tick();

    let snap = t.snapshot();
    assert!(snap.nodes.is_empty());
}

#[test]
fn snapshot_includes_in_context_zero_heat() {
    // Edge case: the tracker never holds such a node, so the filter is asked
    // directly
    let mut t = default_tracker();
    t.file_access("/a.rs", Action::Read);
    let mut node: FileNode = t.node("/a.rs").unwrap().clone();
    node.heat = 0;

    // in_context=true, so it should still be included
    assert!(node.is_live());
    assert_eq!(t.snapshot().nodes.len(), 1);
}

// ---------------------------------------------------------------
// multiple files in a single tick
// ---------------------------------------------------------------

#[test]
fn multiple_file_accesses_coalesced_into_single_delta() {
    let mut t = default_tracker();
    t.file_access("/a.rs", Action::Read);
    t.file_access("/b.rs", Action::Write);
    t.file_access("/c.rs", Action::Search);

    let delta = t.tick().unwrap();
    assert_eq!(delta.seq, 1); // single seq increment
    assert_eq!(delta.updates.len(), 3);
}

// ---------------------------------------------------------------
// Action variants in file node
// ---------------------------------------------------------------

#[test]
fn all_action_variants_stored() {
    let mut t = default_tracker();
    t.file_access("/a.rs", Action::UserProvided);
    assert_eq!(t.node("/a.rs").unwrap().last_action, Action::UserProvided);

    t.file_access("/b.rs", Action::UserReferenced);
    assert_eq!(t.node("/b.rs").unwrap().last_action, Action::UserReferenced);

    t.file_access("/c.rs", Action::Search);
    assert_eq!(t.node("/c.rs").unwrap().last_action, Action::Search);
}

#[test]
fn search_access_marks_in_context() {
    let mut t = default_tracker();
    t.file_access("/src", Action::Search);
    assert!(t.node("/src").unwrap().in_context);
    assert_eq!(heat(t.node("/src").unwrap().heat), 1.0);
}

// ---------------------------------------------------------------
// Edge cases: long paths
// ---------------------------------------------------------------

#[test]
fn long_file_path() {
    let mut t = default_tracker();
    // 1000-char path
    let long_path = format!("/{}", "a".repeat(999));
    t.file_access(&long_path, Action::Read);

    let snap = t.snapshot();
    assert_eq!(snap.nodes.len(), 1);
    assert!(snap.nodes.contains_key(&long_path));

    let delta = t.tick().unwrap();
    assert_eq!(delta.updates[0].path, long_path);
}

#[test]
fn unicode_file_path() {
    let mut t = default_tracker();
    let path = "/home/user/src/\u{1F600}_emoji.rs";
    t.file_access(path, Action::Write);

    let snap = t.snapshot();
    assert!(snap.nodes.contains_key(&path.to_string()));
}

#[test]
fn empty_path() {
    let mut t = default_tracker();
    t.file_access("", Action::Read);

    let snap = t.snapshot();
    assert_eq!(snap.nodes.len(), 1);
    assert!(snap.nodes.contains_key(&"".to_string()));
}

// ---------------------------------------------------------------
// Edge cases: thousands of nodes (perf sanity)
// ---------------------------------------------------------------

#[test]
fn thousand_nodes_tick_performance() {
    let mut t = ContextTracker::new(config_with(0, 0.5, 0.95));

    // Add 1000 files
    for i in 0..1000 {
        t.file_access(&format!("/file_{i:04}.rs"), Action::Read);
    }
    t.end_turn(); // all exit context

    // First tick: should process all 1000 nodes
    let delta = t.tick().unwrap();
    assert_eq!(delta.updates.len(), 1000);

    // Second tick: still 1000 decaying
    let delta2 = t.tick().unwrap();
    assert_eq!(delta2.updates.len(), 1000);

    // Verify seq increments correctly
    assert_eq!(delta.seq, 1);
    assert_eq!(delta2.seq, 2);
}

#[test]
fn thousand_nodes_snapshot() {
    let mut t = default_tracker();
    for i in 0..1000 {
        t.file_access(&format!("/file_{i:04}.rs"), Action::Read);
    }

    let snap = t.snapshot();
    assert_eq!(snap.nodes.len(), 1000);
}

// ---------------------------------------------------------------
// Edge cases: rapid file_access + tick interleaving
// ---------------------------------------------------------------

#[test]
fn file_access_between_ticks() {
    let mut t = default_tracker();

    // Access, tick, access same file, tick
    t.file_access("/a.rs", Action::Read);
    let d1 = t.tick().unwrap();
    assert_eq!(d1.updates.len(), 1);
    assert_eq!(heat(d1.updates[0].heat), 1.0); // just accessed

    // Re-access same file between ticks
    t.file_access("/a.rs", Action::Write);
    let d2 = t.tick().unwrap();
    assert_eq!(d2.updates.len(), 1);
    assert_eq!(d2.updates[0].last_action, Action::Write);
    assert_eq!(heat(d2.updates[0].heat), 1.0); // re-accessed resets heat
}

#[test]
fn same_file_accessed_multiple_times_between_ticks() {
    let mut t = default_tracker();

    // Access same file 5 times with different actions
    t.file_access("/a.rs", Action::Read);
    t.file_access("/a.rs", Action::Write);
    t.file_access("/a.rs", Action::Search);
    t.file_access("/a.rs", Action::Read);
    t.file_access("/a.rs", Action::UserProvided);

    let delta = t.tick().unwrap();
    // Should coalesce into a single update (last action wins)
    assert_eq!(delta.updates.len(), 1);
    assert_eq!(delta.updates[0].last_action, Action::UserProvided);
    assert_eq!(heat(delta.updates[0].heat), 1.0);
}

// ---------------------------------------------------------------
// Edge cases: multiple compaction events
// ---------------------------------------------------------------

#[test]
fn multiple_compactions_in_sequence() {
    let mut t = default_tracker();
    t.file_access("/a.rs", Action::Read);
    t.file_access("/b.rs", Action::Write);

    // First usage report
    t.usage_update(180_000, 200_000);

    // First compaction
    t.usage_update(45_000, 200_000);
    assert!(!t.node("/a.rs").unwrap().in_context);
    assert!(!t.node("/b.rs").unwrap().in_context);

    // Re-access after compaction
    t.file_access("/a.rs", Action::Read);
    assert!(t.node("/a.rs").unwrap().in_context);
    assert!(!t.node("/b.rs").unwrap().in_context);

    // Usage climbs back up
    t.usage_update(160_000, 200_000);

    // Second compaction
    t.usage_update(40_000, 200_000);
    assert!(!t.node("/a.rs").unwrap().in_context);
}

#[test]
fn compaction_then_immediate_file_access() {
    let mut t = default_tracker();
    t.file_access("/a.rs", Action::Read);

    t.usage_update(180_000, 200_000);
    t.usage_update(45_000, 200_000); // compaction

    assert!(!t.node("/a.rs").unwrap().in_context);

    // Immediately re-access
    t.file_access("/a.rs", Action::Write);
    assert!(t.node("/a.rs").unwrap().in_context);
    assert_eq!(heat(t.node("/a.rs").unwrap().heat), 1.0);
    assert_eq!(t.node("/a.rs").unwrap().last_action, Action::Write);
}

#[test]
fn compaction_with_no_files() {
    let mut t = default_tracker();
    // Compaction on empty tracker should not panic
    t.usage_update(180_000, 200_000);
    t.usage_update(45_000, 200_000);
    // No files to evict — should be a no-op
    assert!(t.snapshot().nodes.is_empty());
}

// ---------------------------------------------------------------
// Edge cases: end_turn with no files
// ---------------------------------------------------------------

#[test]
fn end_turn_with_no_files() {
    let mut t = default_tracker();
    // Should not panic
    t.end_turn();
    t.end_turn();
    assert_eq!(t.current_turn(), 2);
}

// ---------------------------------------------------------------
// Edge cases: tick after file removed
// ---------------------------------------------------------------

#[test]
fn tick_after_all_files_pruned() {
    let mut t = ContextTracker::new(config_with(0, 0.5, 0.001));
    t.file_access("/a.rs", Action::Read);
    t.end_turn();

    // First tick prunes the file
    let d = t.tick().unwrap();
    assert!(!d.removed.is_empty());

    // Subsequent ticks are empty
    assert!(t.tick().is_none());
    assert!(t.tick().is_none());
}

// ---------------------------------------------------------------
// Edge cases: re-access a pruned file
// ---------------------------------------------------------------

#[test]
fn re_access_after_prune() {
    let mut t = ContextTracker::new(config_with(0, 0.5, 0.001));
    t.file_access("/a.rs", Action::Read);
    t.end_turn();
    t.tick(); // prunes /a.rs
    assert!(!t.node("/a.rs").is_some());

    // Re-access creates a fresh node
    t.file_access("/a.rs", Action::Write);
    assert!(t.node("/a.rs").is_some());
    assert_eq!(heat(t.node("/a.rs").unwrap().heat), 1.0);
    assert!(t.node("/a.rs").unwrap().in_context);
    assert_eq!(t.node("/a.rs").unwrap().last_action, Action::Write);
}

// ---------------------------------------------------------------
// Edge cases: usage queuing
// ---------------------------------------------------------------

#[test]
fn multiple_usage_updates_queue_all() {
    let mut t = default_tracker();
    t.usage_update(100_000, 200_000);
    t.usage_update(110_000, 200_000);
    t.usage_update(120_000, 200_000);

    let msgs = t.take_pending_usage();
    assert_eq!(msgs.len(), 3);
    assert_eq!(msgs[0].used, 100_000);
    assert_eq!(msgs[1].used, 110_000);
    assert_eq!(msgs[2].used, 120_000);
}
