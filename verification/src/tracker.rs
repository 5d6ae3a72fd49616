//! The context tracker: the single owner of what the observer knows about
//! the agent's working set.
//!
//! The tracker keeps one file table per session that it has seen. One of
//! them is the current session, named by the tracker's session identifier:
//! accesses, the end of a turn, usage reports and ticks act on it. The
//! tables of the other sessions rest until their session becomes the
//! current one again.

use std::collections::HashSet;
use vstd::prelude::*;
use crate::clock::now_ms;
use crate::keyed::KeyedList;
use crate::table::{lists_nodes, lists_paths, FileTable, TableView};
use crate::types::{
    usage_views, Action, Delta, FileNode, SessionMode, Snapshot, SnapshotView, TrackerConfig,
    UsageMessage, UsageView, HEAT_ONE,
};

verus! {

broadcast use vstd::std_specs::hash::group_hash_axioms;

/// What a tracker holds.
pub struct TrackerView {
    pub agent_id: Seq<char>,
    /// The identifier of the current session; empty until one is given.
    pub session_id: Seq<char>,
    /// The file table of the current session.
    pub current: TableView,
    /// The file tables of the other sessions, by session identifier.
    pub parked: Map<Seq<char>, TableView>,
    pub config: TrackerConfig,
    /// The usage reports that wait for the next broadcast, oldest first.
    pub pending_usage: Seq<UsageView>,
    /// The identifiers of the requests whose responses carry terminal output
    /// that is still to be scanned.
    pub awaited: Set<u64>,
}

impl TrackerView {
    /// The tracker that has seen nothing yet.
    pub open spec fn fresh(config: TrackerConfig) -> TrackerView {
        TrackerView {
            agent_id: Seq::empty(),
            session_id: Seq::empty(),
            current: TableView::empty(),
            parked: Map::empty(),
            config,
            pending_usage: Seq::empty(),
            awaited: Set::empty(),
        }
    }

    /// The table of the session `id`: the current table, a resting table, or
    /// the empty table of a session that the tracker has not seen.
    pub open spec fn table_of(self, id: Seq<char>) -> TableView {
        if id == self.session_id {
            self.current
        } else if self.parked.contains_key(id) {
            self.parked[id]
        } else {
            TableView::empty()
        }
    }

    /// The sessions that the tracker knows by name: the current session if
    /// it has a name, and the resting sessions.
    pub open spec fn sessions(self) -> Set<Seq<char>> {
        if self.session_id.len() > 0 {
            self.parked.dom().insert(self.session_id)
        } else {
            self.parked.dom()
        }
    }

    /// The tracker after `id` became the current session. A tracker without a
    /// session name gives its table the name, unless a session of that name
    /// rests already; otherwise the current table is put to rest under its
    /// name, and the table of `id` is taken up, empty if there is none.
    pub open spec fn switched(self, id: Seq<char>) -> TrackerView {
        if id == self.session_id {
            self
        } else if self.session_id.len() == 0 && !self.parked.contains_key(id) {
            TrackerView { session_id: id, ..self }
        } else {
            TrackerView {
                session_id: id,
                current: self.table_of(id),
                parked: self.parked.insert(self.session_id, self.current).remove(id),
                ..self
            }
        }
    }

    /// The tracker after the mode of the session `id` was set; a session
    /// that the tracker has not seen starts to rest with an empty table.
    pub open spec fn mode_set(self, id: Seq<char>, mode: SessionMode) -> TrackerView {
        if id == self.session_id {
            TrackerView { current: TableView { mode, ..self.current }, ..self }
        } else {
            TrackerView {
                parked: self.parked.insert(id, TableView { mode, ..self.table_of(id) }),
                ..self
            }
        }
    }

    /// The tracker after an access to `path` in the current session.
    pub open spec fn file_accessed(
        self,
        path: Seq<char>,
        action: Action,
        timestamp_ms: u64,
    ) -> TrackerView {
        TrackerView { current: self.current.accessed(path, action, timestamp_ms), ..self }
    }

    /// The tracker after the end of a turn of the current session.
    pub open spec fn turn_ended(self) -> TrackerView {
        TrackerView { current: self.current.turn_ended(self.config.context_turns), ..self }
    }

    /// The usage report that the tracker queues for `used` and `size`.
    pub open spec fn usage_report(self, used: u32, size: u32) -> UsageView {
        UsageView {
            msg_type: "usage"@,
            agent_id: self.agent_id,
            session_id: self.session_id,
            session_mode: self.current.mode,
            used,
            size,
            cost: None,
        }
    }

    /// The tracker after a usage report for the current session.
    pub open spec fn usage_updated(self, used: u32, size: u32) -> TrackerView {
        TrackerView {
            current: self.current.usage_reported(used, size, self.config.compaction_threshold),
            pending_usage: self.pending_usage.push(self.usage_report(used, size)),
            ..self
        }
    }

    /// The tracker after a tick of the current session.
    pub open spec fn ticked(self) -> TrackerView {
        TrackerView { current: self.current.ticked(self.config.decay_rate), ..self }
    }

    /// The current table as the tick finds it once it has cooled the nodes.
    pub open spec fn cooled(self) -> TableView {
        self.current.cooled(self.config.decay_rate)
    }

    /// Whether no turn counter is at the limit of its type, so that a turn of
    /// whichever session is current can still be counted.
    pub open spec fn has_room(self) -> bool {
        &&& self.current.current_turn < u32::MAX
        &&& forall|k: Seq<char>|
            self.parked.contains_key(k) ==> (#[trigger] self.parked[k]).current_turn < u32::MAX
    }

    /// The snapshot of the session `id`.
    pub open spec fn snapshot_of(self, id: Seq<char>) -> SnapshotView {
        SnapshotView {
            msg_type: "snapshot"@,
            agent_id: self.agent_id,
            session_id: id,
            session_mode: self.table_of(id).mode,
            seq: self.table_of(id).seq,
            nodes: self.table_of(id).live_files(),
        }
    }
}

impl TrackerView {
    /// Every table of the tracker, the current one and the resting ones,
    /// holds valid entries only.
    pub open spec fn valid(self) -> bool {
        &&& self.current.valid()
        &&& forall|k: Seq<char>|
            self.parked.contains_key(k) ==> (#[trigger] self.parked[k]).valid()
    }
}

/// The heat of every node of every session lies between 0 and 1.0: this
/// holds of the tracker that has seen nothing, and every operation of the
/// tracker keeps it.
pub proof fn lemma_heat_stays_in_range(
    t: TrackerView,
    config: TrackerConfig,
    id: Seq<char>,
    mode: SessionMode,
    path: Seq<char>,
    action: Action,
    timestamp_ms: u64,
    used: u32,
    size: u32,
)
    requires
        t.valid(),
    ensures
        TrackerView::fresh(config).valid(),
        t.switched(id).valid(),
        t.mode_set(id, mode).valid(),
        t.file_accessed(path, action, timestamp_ms).valid(),
        t.turn_ended().valid(),
        t.usage_updated(used, size).valid(),
        t.ticked().valid(),
        t.table_of(id).valid(),
        t.table_of(id).entries.contains_key(path) ==> 0 <= t.table_of(id).entries[path].node.heat
            <= HEAT_ONE,
        t.snapshot_of(id).nodes.contains_key(path) ==> 0 <= t.snapshot_of(id).nodes[path].heat
            <= HEAT_ONE,
{
    crate::table::lemma_valid_kept(
        t.current,
        path,
        action,
        timestamp_ms,
        t.config.context_turns,
        used,
        size,
        t.config.compaction_threshold,
        t.config.decay_rate,
    );
    let of = t.table_of(id);
    assert(of.valid());
    if of.entries.contains_key(path) {
        assert(of.entries[path].valid(path));
    }
    assert(t.switched(id).valid()) by {
        let s = t.switched(id);
        assert forall|k: Seq<char>| s.parked.contains_key(k) implies (#[trigger] s.parked[k]).valid() by {
            if k != t.session_id {
                assert(t.parked.contains_key(k));
            }
        }
    }
    assert(t.mode_set(id, mode).valid()) by {
        let s = t.mode_set(id, mode);
        let set = TableView { mode, ..of };
        assert(set.valid()) by {
            assert forall|p: Seq<char>| set.entries.contains_key(p) implies (
            #[trigger] set.entries[p]).valid(p) by {
                assert(of.entries[p].valid(p));
            }
        }
        assert forall|k: Seq<char>| s.parked.contains_key(k) implies (#[trigger] s.parked[k]).valid() by {
            if k != id {
                assert(t.parked.contains_key(k));
            }
        }
    }
}

/// A tick of the tracker hands out nothing if and only if no path of the
/// current session is dirty and none of its nodes cools; the tracker is then
/// left as it was.
pub proof fn lemma_quiet_tick_keeps_tracker(t: TrackerView)
    ensures
        t.cooled().dirty().is_empty() <==> t.current.dirty().is_empty() && forall|p: Seq<char>|
            t.current.entries.contains_key(p) ==> !(#[trigger] t.current.entries[p]).cooling(),
        t.cooled().dirty().is_empty() ==> t.ticked() == t,
{
    crate::table::lemma_quiet_tick(t.current, t.config.decay_rate);
}

/// Whether every node of `nodes` stands under its own path.
pub open spec fn keyed_by_path(nodes: Map<Seq<char>, crate::types::NodeView>) -> bool {
    forall|p: Seq<char>| nodes.contains_key(p) ==> (#[trigger] nodes[p]).path == p
}

/// Whether the heat of every node of `nodes` is at most 1.0.
pub open spec fn heat_in_range(nodes: Map<Seq<char>, crate::types::NodeView>) -> bool {
    forall|p: Seq<char>| nodes.contains_key(p) ==> (#[trigger] nodes[p]).heat <= HEAT_ONE
}

/// The context tracker.
#[derive(Debug)]
pub struct ContextTracker {
    agent_id: String,
    session_id: String,
    current: FileTable,
    parked: KeyedList<String, FileTable>,
    config: TrackerConfig,
    pending_usage: Vec<UsageMessage>,
    pending_terminal_output_ids: HashSet<u64>,
}

impl View for ContextTracker {
    type V = TrackerView;

    closed spec fn view(&self) -> TrackerView {
        TrackerView {
            agent_id: self.agent_id@,
            session_id: self.session_id@,
            current: self.current@,
            parked: self.parked@,
            config: self.config,
            pending_usage: usage_views(self.pending_usage@),
            awaited: self.pending_terminal_output_ids@,
        }
    }
}

impl ContextTracker {
    /// Every table is well formed, the current session does not rest, and
    /// every message that waits is a usage report.
    pub closed spec fn wf(&self) -> bool {
        &&& forall|i: int|
            0 <= i < self.pending_usage@.len() ==> (#[trigger] self.pending_usage@[i]).msg_type@
                == "usage"@
        &&& self.current.wf()
        &&& self.parked.wf()
        &&& forall|i: int|
            0 <= i < self.parked.items().len() ==> (#[trigger] self.parked.items()[i]).wf()
        &&& !self.parked@.contains_key(self.session_id@)
    }

    /// The tables of a well-formed tracker hold valid entries only.
    pub proof fn lemma_wf_valid(&self)
        requires
            self.wf(),
        ensures
            self@.current.valid(),
            self@.valid(),
    {
        self.current.lemma_wf_valid();
        assert forall|k: Seq<char>| self@.parked.contains_key(k) implies (
        #[trigger] self@.parked[k]).valid() by {
            self.parked.lemma_key(k);
            self.parked.lemma_items();
            self.parked.items()[self.parked.key_views().index_of(k)].lemma_wf_valid();
        }
    }

    pub fn new(config: TrackerConfig) -> (r: Self)
        ensures
            r.wf(),
            r@ == TrackerView::fresh(config),
    {
        let r = ContextTracker {
            agent_id: String::new(),
            session_id: String::new(),
            current: FileTable::new(),
            parked: KeyedList::new(),
            config,
            pending_usage: Vec::new(),
            pending_terminal_output_ids: HashSet::new(),
        };
        assert(usage_views(r.pending_usage@) =~= Seq::empty());
        r
    }

    /// Sets the identifier of the agent.
    pub fn set_agent_id(&mut self, id: String)
        requires
            old(self).wf(),
        ensures
            final(self).wf(),
            final(self)@ == (TrackerView { agent_id: id@, ..old(self)@ }),
    {
        self.agent_id = id;
    }

    /// The identifier of the agent; empty until one is given.
    pub fn agent_id(&self) -> (r: &str)
        ensures
            r@ == self@.agent_id,
    {
        self.agent_id.as_str()
    }

    /// Makes `id` the current session.
    pub fn set_session_id(&mut self, id: String)
        requires
            old(self).wf(),
        ensures
            final(self).wf(),
            final(self)@ == old(self)@.switched(id@),
    {
        if id == self.session_id {
            return ;
        }
        if self.session_id.as_str().is_empty() && !self.parked.contains_key(&id) {
            self.session_id = id;
            return ;
        }
        let mut table = match self.parked.remove(&id) {
            Some(t) => t,
            None => FileTable::new(),
        };
        core::mem::swap(&mut self.current, &mut table);
        let mut name = id;
        core::mem::swap(&mut self.session_id, &mut name);
        self.parked.insert(name, table);
        proof {
            let o = old(self)@;
            assert(self.parked@ =~= o.parked.insert(o.session_id, o.current).remove(id@));
            assert forall|i: int| 0 <= i < self.parked.items().len() implies (
            #[trigger] self.parked.items()[i]).wf() by {
                assert(self.parked.items().contains(self.parked.items()[i]));
            }
        }
    }

    /// The identifier of the current session; empty until one is given.
    pub fn session_id(&self) -> (r: &str)
        ensures
            r@ == self@.session_id,
    {
        self.session_id.as_str()
    }

    /// Sets the mode of the session `id`.
    pub fn set_session_mode(&mut self, id: &str, mode: SessionMode)
        requires
            old(self).wf(),
        ensures
            final(self).wf(),
            final(self)@ == old(self)@.mode_set(id@, mode),
    {
        let key = id.to_owned();
        if key == self.session_id {
            self.current.set_mode(mode);
            return ;
        }
        let mut table = match self.parked.remove(&key) {
            Some(t) => t,
            None => FileTable::new(),
        };
        table.set_mode(mode);
        self.parked.insert(key, table);
        proof {
            let o = old(self)@;
            assert(self.parked@ =~= o.parked.insert(id@, TableView { mode, ..o.table_of(id@) }));
            assert forall|i: int| 0 <= i < self.parked.items().len() implies (
            #[trigger] self.parked.items()[i]).wf() by {
                assert(self.parked.items().contains(self.parked.items()[i]));
            }
        }
    }

    /// The names of the sessions that the tracker knows: the current session
    /// first if it has a name, then the resting sessions.
    pub fn session_ids(&self) -> (r: Vec<String>)
        requires
            self.wf(),
        ensures
            crate::types::texts(r@).no_duplicates(),
            forall|id: Seq<char>| crate::types::texts(r@).contains(id) <==> self@.sessions().contains(id),
            self@.session_id.len() > 0 ==> r@.len() > 0 && r@[0]@ == self@.session_id,
    {
        let mut out: Vec<String> = Vec::new();
        if !self.session_id.as_str().is_empty() {
            out.push(self.session_id.clone());
        }
        let ghost first = crate::types::texts(out@);
        assert(self@.session_id.len() > 0 ==> first.len() == 1 && first[0] == self@.session_id);
        assert(self@.session_id.len() == 0 ==> first.len() == 0);
        let ghost keys = self.parked.key_views();
        let n = self.parked.len();
        let mut i: usize = 0;
        assert(crate::types::texts(out@) =~= first + keys.take(0));
        while i < n
            invariant
                i <= n,
                n == self.parked.count(),
                self.parked.wf(),
                keys == self.parked.key_views(),
                crate::types::texts(out@) == first + keys.take(i as int),
            decreases n - i,
        {
            let ghost before = crate::types::texts(out@);
            out.push(self.parked.key(i).clone());
            assert(crate::types::texts(out@) =~= before.push(keys[i as int]));
            assert(keys.take(i + 1) =~= keys.take(i as int).push(keys[i as int]));
            i = i + 1;
            assert(crate::types::texts(out@) =~= first + keys.take(i as int));
        }
        proof {
            let list = crate::types::texts(out@);
            assert(keys.take(n as int) == keys);
            assert(list == first + keys);
            if self@.session_id.len() > 0 {
                assert(first.len() == 1 && first[0] == self@.session_id);
                assert(list[0] == first[0]);
            }
            assert forall|a: int, b: int| 0 <= a < list.len() && 0 <= b < list.len() && a
                != b implies list[a] != list[b] by {
                if a < first.len() && b >= first.len() {
                    self.parked.lemma_entry(b - first.len());
                } else if b < first.len() && a >= first.len() {
                    self.parked.lemma_entry(a - first.len());
                }
            }
            assert forall|id: Seq<char>| list.contains(id) <==> self@.sessions().contains(id) by {
                if list.contains(id) {
                    let a = choose|a: int| 0 <= a < list.len() && list[a] == id;
                    if a >= first.len() {
                        self.parked.lemma_entry(a - first.len());
                    }
                }
                if self@.sessions().contains(id) {
                    if self.parked@.contains_key(id) {
                        self.parked.lemma_key(id);
                        let j = keys.index_of(id);
                        assert(list[first.len() + j] == id);
                    } else {
                        assert(list[0] == id);
                    }
                }
            }
        }
        out
    }

    /// Remembers that the response to the request `id` carries terminal
    /// output.
    pub fn add_pending_terminal_output(&mut self, id: u64)
        requires
            old(self).wf(),
        ensures
            final(self).wf(),
            final(self)@ == (TrackerView { awaited: old(self)@.awaited.insert(id), ..old(self)@ }),
    {
        self.pending_terminal_output_ids.insert(id);
    }

    /// Whether the response to the request `id` was awaited; it is awaited no
    /// longer.
    pub fn take_pending_terminal_output(&mut self, id: u64) -> (r: bool)
        requires
            old(self).wf(),
        ensures
            final(self).wf(),
            r == old(self)@.awaited.contains(id),
            final(self)@ == (TrackerView { awaited: old(self)@.awaited.remove(id), ..old(self)@ }),
    {
        self.pending_terminal_output_ids.remove(&id)
    }

    /// Whether the response to the request `id` is awaited.
    pub fn awaits(&self, id: u64) -> (r: bool)
        ensures
            r == self@.awaited.contains(id),
    {
        self.pending_terminal_output_ids.contains(&id)
    }

    /// Whether no turn counter is at the limit of its type.
    pub fn has_room(&self) -> (r: bool)
        requires
            self.wf(),
        ensures
            r == self@.has_room(),
    {
        if self.current.current_turn() == u32::MAX {
            return false;
        }
        let n = self.parked.len();
        let mut i: usize = 0;
        while i < n
            invariant
                i <= n,
                n == self.parked.count(),
                self.parked.wf(),
                forall|j: int|
                    0 <= j < i ==> (#[trigger] self.parked.value_views()[j]).current_turn
                        < u32::MAX,
            decreases n - i,
        {
            if self.parked.value(i).current_turn() == u32::MAX {
                proof {
                    self.parked.lemma_entry(i as int);
                }
                return false;
            }
            i = i + 1;
        }
        proof {
            assert forall|k: Seq<char>| self.parked@.contains_key(k) implies (
            #[trigger] self.parked@[k]).current_turn < u32::MAX by {
                self.parked.lemma_key(k);
            }
        }
        true
    }

    /// Records an access to `path` in the current session at the time
    /// `timestamp_ms`.
    pub fn file_access_at(&mut self, path: &str, action: Action, timestamp_ms: u64)
        requires
            old(self).wf(),
        ensures
            final(self).wf(),
            final(self)@ == old(self)@.file_accessed(path@, action, timestamp_ms),
    {
        self.current.access(path, action, timestamp_ms);
    }

    /// Records an access to `path` in the current session, stamped with the
    /// reading of the wall clock, whatever that is.
    pub fn file_access(&mut self, path: &str, action: Action)
        requires
            old(self).wf(),
        ensures
            final(self).wf(),
            exists|timestamp_ms: u64|
                final(self)@ == old(self)@.file_accessed(path@, action, timestamp_ms),
    {
        let ts = now_ms();
        self.file_access_at(path, action, ts);
    }

    /// Takes a usage report for the current session, and queues it for the
    /// next broadcast.
    pub fn usage_update(&mut self, used: u32, size: u32)
        requires
            old(self).wf(),
        ensures
            final(self).wf(),
            final(self)@ == old(self)@.usage_updated(used, size),
    {
        self.current.report_usage(used, size, self.config.compaction_threshold);
        let msg = UsageMessage::new(
            self.agent_id.as_str(),
            self.session_id.as_str(),
            self.current.mode(),
            used,
            size,
            None,
        );
        let ghost before = usage_views(self.pending_usage@);
        self.pending_usage.push(msg);
        assert(usage_views(self.pending_usage@) =~= before.push(msg@));
    }

    /// The usage reports that wait for a broadcast, oldest first; none waits
    /// any longer.
    pub fn take_pending_usage(&mut self) -> (r: Vec<UsageMessage>)
        requires
            old(self).wf(),
        ensures
            final(self).wf(),
            usage_views(r@) == old(self)@.pending_usage,
            forall|i: int| 0 <= i < r@.len() ==> (#[trigger] r@[i]).msg_type@ == "usage"@,
            final(self)@ == (TrackerView { pending_usage: Seq::empty(), ..old(self)@ }),
    {
        let mut out: Vec<UsageMessage> = Vec::new();
        core::mem::swap(&mut self.pending_usage, &mut out);
        assert(usage_views(self.pending_usage@) =~= Seq::empty());
        out
    }

    /// Ends a turn of the current session.
    pub fn end_turn(&mut self)
        requires
            old(self).wf(),
            old(self)@.current.current_turn < u32::MAX,
        ensures
            final(self).wf(),
            final(self)@ == old(self)@.turn_ended(),
    {
        self.current.end_turn(self.config.context_turns);
    }

    /// One tick of the current session: cools the nodes that are out of
    /// context, and hands out a delta if and only if some path is dirty after
    /// that. The delta carries the next sequence number, each live dirty node
    /// once as an update, and each other dirty path once as removed.
    pub fn tick(&mut self) -> (r: Option<Delta>)
        requires
            old(self).wf(),
            old(self)@.current.seq < u64::MAX,
        ensures
            final(self).wf(),
            final(self)@ == old(self)@.ticked(),
            match r {
                None => old(self)@.cooled().dirty().is_empty(),
                Some(d) => {
                    &&& !old(self)@.cooled().dirty().is_empty()
                    &&& d@.msg_type == "delta"@
                    &&& d@.agent_id == old(self)@.agent_id
                    &&& d@.session_id == old(self)@.session_id
                    &&& d@.session_mode == old(self)@.current.mode
                    &&& d@.seq == old(self)@.current.seq + 1
                    &&& lists_nodes(d@.updates, old(self)@.cooled().updates())
                    &&& lists_paths(d@.removed, old(self)@.cooled().removals())
                    &&& forall|i: int|
                        0 <= i < d@.updates.len() ==> (#[trigger] d@.updates[i]).heat <= HEAT_ONE
                },
            },
            r is None <==> old(self)@.current.dirty().is_empty() && forall|p: Seq<char>|
                old(self)@.current.entries.contains_key(p) ==> !(
                #[trigger] old(self)@.current.entries[p]).cooling(),
            r is None ==> final(self)@ == old(self)@,
            final(self)@.valid(),
    {
        proof {
            lemma_quiet_tick_keeps_tracker(self@);
            self.current.lemma_wf_valid();
            crate::table::lemma_valid_kept(
                self@.current,
                Seq::empty(),
                Action::Read,
                0,
                0,
                0,
                0,
                0,
                self.config.decay_rate,
            );
            let cooled = self@.cooled();
            assert forall|p: Seq<char>| cooled.updates().contains_key(p) implies (
            #[trigger] cooled.updates()[p]).heat <= HEAT_ONE by {
                assert(cooled.entries[p].valid(p));
            }
        }
        let ghost cooled = self@.cooled();
        let r = match self.current.tick(self.config.decay_rate) {
            None => None,
            Some((updates, removed)) => {
                let d = Delta::new(
                    self.agent_id.as_str(),
                    self.session_id.as_str(),
                    self.current.mode(),
                    self.current.seq(),
                    updates,
                    removed,
                );
                proof {
                    assert forall|i: int| 0 <= i < d@.updates.len() implies (
                    #[trigger] d@.updates[i]).heat <= HEAT_ONE by {
                        let u = d@.updates[i];
                        assert(cooled.updates().contains_key(u.path));
                        assert(cooled.updates()[u.path] == u);
                    }
                }
                Some(d)
            },
        };
        proof {
            self.lemma_wf_valid();
        }
        r
    }

    /// The snapshot of the current session.
    pub fn snapshot(&self) -> (r: Snapshot)
        requires
            self.wf(),
        ensures
            r.nodes.wf(),
            r@ == self@.snapshot_of(self@.session_id),
            keyed_by_path(r@.nodes),
            heat_in_range(r@.nodes),
    {
        proof {
            self.current.lemma_wf_valid();
        }
        Snapshot::new(
            self.agent_id.as_str(),
            self.session_id.as_str(),
            self.current.mode(),
            self.current.seq(),
            self.current.snapshot_nodes(),
        )
    }

    /// The snapshot of the session `id`; it is empty for a session that the
    /// tracker has not seen.
    pub fn snapshot_for_session(&self, id: &str) -> (r: Snapshot)
        requires
            self.wf(),
        ensures
            r.nodes.wf(),
            r@ == self@.snapshot_of(id@),
            keyed_by_path(r@.nodes),
            heat_in_range(r@.nodes),
    {
        let key = id.to_owned();
        if key == self.session_id {
            return self.snapshot();
        }
        match self.parked.get(&key) {
            Some(table) => {
                proof {
                    table.lemma_wf_valid();
                }
                Snapshot::new(
                    self.agent_id.as_str(),
                    id,
                    table.mode(),
                    table.seq(),
                    table.snapshot_nodes(),
                )
            },
            None => {
                let r = Snapshot::new(
                    self.agent_id.as_str(),
                    id,
                    SessionMode::SingleAgent,
                    0,
                    KeyedList::new(),
                );
                assert(r@.nodes =~= TableView::empty().live_files());
                r
            },
        }
    }

    /// The sequence number of the last delta of the current session.
    pub fn seq(&self) -> (r: u64)
        ensures
            r == self@.current.seq,
    {
        self.current.seq()
    }

    /// The number of turns of the current session that have ended.
    pub fn current_turn(&self) -> (r: u32)
        ensures
            r == self@.current.current_turn,
    {
        self.current.current_turn()
    }

    /// The node of `path` in the current session, if there is one.
    pub fn node(&self, path: &str) -> (r: Option<&FileNode>)
        requires
            self.wf(),
        ensures
            match r {
                Some(n) => self@.current.entries.contains_key(path@) && n@
                    == self@.current.entries[path@].node && n@.path == path@ && n@.heat
                    <= HEAT_ONE,
                None => !self@.current.entries.contains_key(path@),
            },
    {
        self.current.node(path)
    }
}

} // verus!
