//! The file table of one session: which files the agent has touched, how warm
//! each is, and which of them changed since the last delta.
//!
//! Every operation is first written down as a function on the table's view,
//! and the executable operation is proved to compute it.

use vstd::prelude::*;
use crate::keyed::KeyedList;
use crate::types::{
    texts, update_views, Action, FileNode, NodeUpdate, NodeView, SessionMode, TrackerConfig,
    HEAT_FLOOR, HEAT_ONE,
};

verus! {

/// The heat that a file out of context has after one tick: the heat times
/// the rate, cut off at 1.0, and zero once it is at or below the floor.
pub open spec fn cooled_heat(heat: u32, rate: u32) -> u32 {
    let scaled = (heat as int * rate as int) / (HEAT_ONE as int);
    if scaled <= HEAT_FLOOR {
        0
    } else if scaled >= HEAT_ONE {
        HEAT_ONE
    } else {
        scaled as u32
    }
}

/// The heat that a file out of context has after one tick.
pub fn cool_heat(heat: u32, rate: u32) -> (r: u32)
    ensures
        r == cooled_heat(heat, rate),
        r <= HEAT_ONE,
{
    assert(heat as int * rate as int <= 0xFFFF_FFFF * 0xFFFF_FFFF) by (nonlinear_arith)
        requires
            heat <= 0xFFFF_FFFF,
            rate <= 0xFFFF_FFFF,
    ;
    let scaled: u64 = (heat as u64) * (rate as u64) / (HEAT_ONE as u64);
    if scaled <= HEAT_FLOOR as u64 {
        0
    } else if scaled >= HEAT_ONE as u64 {
        HEAT_ONE
    } else {
        scaled as u32
    }
}

/// Whether a report of `used` tokens after one of `previous` tokens shows a
/// compaction: there was a previous report, and the share by which the usage
/// dropped is at least `threshold` millionths.
pub open spec fn compacts(previous: u32, used: u32, threshold: u32) -> bool {
    previous > 0 && (previous - used) * HEAT_ONE >= threshold * previous
}

/// Whether a report of `used` tokens after one of `previous` tokens shows a
/// compaction.
pub fn is_compaction(previous: u32, used: u32, threshold: u32) -> (r: bool)
    ensures
        r == compacts(previous, used, threshold),
{
    if previous == 0 || used > previous {
        assert(used > previous ==> (previous - used) * HEAT_ONE < 0 <= threshold * previous)
            by (nonlinear_arith)
            requires
                threshold >= 0,
                previous >= 0,
        ;
        return false;
    }
    let dropped: u64 = (previous - used) as u64;
    assert(dropped * HEAT_ONE <= 0xFFFF_FFFF * 1_000_000) by (nonlinear_arith)
        requires
            dropped <= 0xFFFF_FFFF,
            HEAT_ONE == 1_000_000,
    ;
    assert(threshold as int * previous as int <= 0xFFFF_FFFF * 0xFFFF_FFFF) by (nonlinear_arith)
        requires
            threshold <= 0xFFFF_FFFF,
            previous <= 0xFFFF_FFFF,
    ;
    dropped * (HEAT_ONE as u64) >= (threshold as u64) * (previous as u64)
}

/// What an entry of the table holds: the node, and whether it changed since
/// the last delta.
pub struct EntryView {
    pub node: NodeView,
    pub dirty: bool,
}

impl EntryView {
    /// The entry of a file that was accessed just now.
    pub open spec fn fresh(path: Seq<char>, action: Action, turn: u32, timestamp_ms: u64) -> EntryView {
        EntryView {
            node: NodeView {
                path,
                heat: HEAT_ONE,
                in_context: true,
                last_action: action,
                turn_accessed: turn,
                timestamp_ms,
            },
            dirty: true,
        }
    }

    /// The entry without its place in the context.
    pub open spec fn dropped(self) -> EntryView {
        EntryView { node: NodeView { in_context: false, ..self.node }, dirty: true }
    }

    /// Whether the access lies more than `context_turns` turns before the
    /// turn `turn`.
    pub open spec fn stale(self, turn: u32, context_turns: u32) -> bool {
        self.node.in_context && turn - self.node.turn_accessed > context_turns
    }

    /// The entry at the start of the turn `turn`: out of context if its
    /// access is stale by then.
    pub open spec fn aged(self, turn: u32, context_turns: u32) -> EntryView {
        if self.stale(turn, context_turns) {
            self.dropped()
        } else {
            self
        }
    }

    /// The entry after a compaction: out of context.
    pub open spec fn evicted(self) -> EntryView {
        if self.node.in_context {
            self.dropped()
        } else {
            self
        }
    }

    /// Whether a tick cools the entry: it is out of context and its heat is
    /// above the floor.
    pub open spec fn cooling(self) -> bool {
        !self.node.in_context && self.node.heat > HEAT_FLOOR
    }

    /// The entry after the cooling of one tick.
    pub open spec fn cooled(self, rate: u32) -> EntryView {
        if self.cooling() {
            EntryView {
                node: NodeView { heat: cooled_heat(self.node.heat, rate), ..self.node },
                dirty: true,
            }
        } else {
            self
        }
    }

    /// The entry once a delta has reported it.
    pub open spec fn settled(self) -> EntryView {
        EntryView { node: self.node, dirty: false }
    }

    /// Whether a delta reports the entry as an update.
    pub open spec fn updated(self) -> bool {
        self.dirty && self.node.live()
    }

    /// Whether a delta reports the entry as removed.
    pub open spec fn gone(self) -> bool {
        self.dirty && !self.node.live()
    }

    /// What holds of every entry under the path `path`: the node carries its
    /// path, its heat is at most 1.0 and is 1.0 while it is in context, and a
    /// node that is neither warm nor in context waits for the next delta.
    pub open spec fn valid(self, path: Seq<char>) -> bool {
        &&& self.node.path == path
        &&& self.node.heat <= HEAT_ONE
        &&& self.node.in_context ==> self.node.heat == HEAT_ONE
        &&& self.node.live() || self.dirty
    }
}

/// An entry of the table.
#[derive(Debug)]
pub struct Entry {
    pub node: FileNode,
    pub dirty: bool,
}

impl View for Entry {
    type V = EntryView;

    open spec fn view(&self) -> EntryView {
        EntryView { node: self.node@, dirty: self.dirty }
    }
}

/// What the file table of a session holds.
pub struct TableView {
    pub mode: SessionMode,
    pub entries: Map<Seq<char>, EntryView>,
    pub seq: u64,
    pub current_turn: u32,
    pub last_used_tokens: u32,
    pub context_size: u32,
}

impl TableView {
    /// The table of a session that has seen nothing yet.
    pub open spec fn empty() -> TableView {
        TableView {
            mode: SessionMode::SingleAgent,
            entries: Map::empty(),
            seq: 0,
            current_turn: 0,
            last_used_tokens: 0,
            context_size: 0,
        }
    }

    /// Every entry is valid under its path.
    pub open spec fn valid(self) -> bool {
        forall|p: Seq<char>| self.entries.contains_key(p) ==> (#[trigger] self.entries[p]).valid(p)
    }

    /// The nodes of the table.
    pub open spec fn files(self) -> Map<Seq<char>, NodeView> {
        self.entries.map_values(|e: EntryView| e.node)
    }

    /// The paths that changed since the last delta.
    pub open spec fn dirty(self) -> Set<Seq<char>> {
        Set::new(|p: Seq<char>| self.entries.contains_key(p) && self.entries[p].dirty)
    }

    /// The nodes that a snapshot shows: those that are warm or in context.
    pub open spec fn live_files(self) -> Map<Seq<char>, NodeView> {
        Map::new(
            |p: Seq<char>| self.entries.contains_key(p) && self.entries[p].node.live(),
            |p: Seq<char>| self.entries[p].node,
        )
    }

    /// The table after an access to `path`: the node is there, at heat 1.0,
    /// in context, with the action, the current turn and the time given.
    pub open spec fn accessed(self, path: Seq<char>, action: Action, timestamp_ms: u64) -> TableView {
        TableView {
            entries: self.entries.insert(
                path,
                EntryView::fresh(path, action, self.current_turn, timestamp_ms),
            ),
            ..self
        }
    }

    /// The table after the end of a turn: the counter is one up, and every
    /// node whose access is stale by the new turn is out of context.
    pub open spec fn turn_ended(self, context_turns: u32) -> TableView {
        let turn = (self.current_turn + 1) as u32;
        TableView {
            current_turn: turn,
            entries: self.entries.map_values(|e: EntryView| e.aged(turn, context_turns)),
            ..self
        }
    }

    /// The table after a compaction: no node is in context.
    pub open spec fn evicted(self) -> TableView {
        TableView { entries: self.entries.map_values(|e: EntryView| e.evicted()), ..self }
    }

    /// The table after a usage report: the report is kept, and where it
    /// shows a compaction no node is in context.
    pub open spec fn usage_reported(self, used: u32, size: u32, threshold: u32) -> TableView {
        let kept = TableView { last_used_tokens: used, context_size: size, ..self };
        if compacts(self.last_used_tokens, used, threshold) {
            kept.evicted()
        } else {
            kept
        }
    }

    /// The table after the cooling of one tick.
    pub open spec fn cooled(self, rate: u32) -> TableView {
        TableView { entries: self.entries.map_values(|e: EntryView| e.cooled(rate)), ..self }
    }

    /// The updates of the delta that reports this table: the dirty nodes that
    /// are live.
    pub open spec fn updates(self) -> Map<Seq<char>, NodeView> {
        Map::new(
            |p: Seq<char>| self.entries.contains_key(p) && self.entries[p].updated(),
            |p: Seq<char>| self.entries[p].node,
        )
    }

    /// The removals of the delta that reports this table: the dirty paths
    /// whose nodes are neither warm nor in context.
    pub open spec fn removals(self) -> Set<Seq<char>> {
        Set::new(|p: Seq<char>| self.entries.contains_key(p) && self.entries[p].gone())
    }

    /// The table once a delta has reported it: with nothing dirty it stays as
    /// it is; otherwise the sequence number is one up, the removed nodes are
    /// gone and no node is dirty.
    pub open spec fn settled(self) -> TableView {
        if self.dirty().is_empty() {
            self
        } else {
            TableView {
                seq: (self.seq + 1) as u64,
                entries: Map::new(
                    |p: Seq<char>| self.entries.contains_key(p) && !self.entries[p].gone(),
                    |p: Seq<char>| self.entries[p].settled(),
                ),
                ..self
            }
        }
    }

    /// The table after a tick: cooled, then settled.
    pub open spec fn ticked(self, rate: u32) -> TableView {
        self.cooled(rate).settled()
    }
}

/// Whether the list `list` holds each node of `nodes` once and nothing else.
pub open spec fn lists_nodes(list: Seq<NodeView>, nodes: Map<Seq<char>, NodeView>) -> bool {
    &&& forall|a: int, b: int| 0 <= a < b < list.len() ==> list[a].path != list[b].path
    &&& forall|a: int|
        0 <= a < list.len() ==> nodes.contains_key(#[trigger] list[a].path) && nodes[list[a].path]
            == list[a]
    &&& forall|p: Seq<char>|
        nodes.contains_key(p) ==> exists|a: int| 0 <= a < list.len() && #[trigger] list[a].path == p
}

/// Whether the list `list` holds each path of `paths` once and nothing else.
pub open spec fn lists_paths(list: Seq<Seq<char>>, paths: Set<Seq<char>>) -> bool {
    &&& list.no_duplicates()
    &&& forall|p: Seq<char>| list.contains(p) <==> paths.contains(p)
}

/// The file table of one session.
#[derive(Debug)]
pub struct FileTable {
    mode: SessionMode,
    entries: KeyedList<String, Entry>,
    seq: u64,
    current_turn: u32,
    last_used_tokens: u32,
    context_size: u32,
}

impl View for FileTable {
    type V = TableView;

    closed spec fn view(&self) -> TableView {
        TableView {
            mode: self.mode,
            entries: self.entries@,
            seq: self.seq,
            current_turn: self.current_turn,
            last_used_tokens: self.last_used_tokens,
            context_size: self.context_size,
        }
    }
}

impl FileTable {
    /// The entries are a list without a repeated path, and every entry is
    /// valid.
    pub closed spec fn wf(&self) -> bool {
        self.entries.wf() && self@.valid()
    }

    /// The table of a session that has seen nothing yet.
    pub fn new() -> (r: Self)
        ensures
            r.wf(),
            r@ == TableView::empty(),
    {
        FileTable {
            mode: SessionMode::SingleAgent,
            entries: KeyedList::new(),
            seq: 0,
            current_turn: 0,
            last_used_tokens: 0,
            context_size: 0,
        }
    }

    /// The mode of the session.
    pub fn mode(&self) -> (r: SessionMode)
        ensures
            r == self@.mode,
    {
        self.mode
    }

    /// Sets the mode of the session.
    pub fn set_mode(&mut self, mode: SessionMode)
        requires
            old(self).wf(),
        ensures
            final(self).wf(),
            final(self)@ == (TableView { mode, ..old(self)@ }),
    {
        self.mode = mode;
    }

    /// The sequence number of the last delta.
    pub fn seq(&self) -> (r: u64)
        ensures
            r == self@.seq,
    {
        self.seq
    }

    /// The number of turns that have ended.
    pub fn current_turn(&self) -> (r: u32)
        ensures
            r == self@.current_turn,
    {
        self.current_turn
    }

    /// The used tokens of the last usage report.
    pub fn last_used_tokens(&self) -> (r: u32)
        ensures
            r == self@.last_used_tokens,
    {
        self.last_used_tokens
    }

    /// The node of `path`, if the table has one.
    pub fn node(&self, path: &str) -> (r: Option<&FileNode>)
        requires
            self.wf(),
        ensures
            match r {
                Some(n) => self@.entries.contains_key(path@) && n@ == self@.entries[path@].node
                    && n@.path == path@ && n@.heat <= HEAT_ONE,
                None => !self@.entries.contains_key(path@),
            },
    {
        let key = path.to_owned();
        match self.entries.get(&key) {
            Some(e) => Some(&e.node),
            None => None,
        }
    }

    /// Records an access to `path` at the time `timestamp_ms`.
    pub fn access(&mut self, path: &str, action: Action, timestamp_ms: u64)
        requires
            old(self).wf(),
        ensures
            final(self).wf(),
            final(self)@ == old(self)@.accessed(path@, action, timestamp_ms),
    {
        let entry = Entry {
            node: FileNode {
                path: path.to_owned(),
                heat: HEAT_ONE,
                in_context: true,
                last_action: action,
                turn_accessed: self.current_turn,
                timestamp_ms,
            },
            dirty: true,
        };
        self.entries.insert(path.to_owned(), entry);
    }

    /// Ends a turn.
    pub fn end_turn(&mut self, context_turns: u32)
        requires
            old(self).wf(),
            old(self)@.current_turn < u32::MAX,
        ensures
            final(self).wf(),
            final(self)@ == old(self)@.turn_ended(context_turns),
    {
        let turn: u32 = self.current_turn + 1;
        self.current_turn = turn;
        let ghost before = *self;
        let n = self.entries.len();
        let mut i: usize = 0;
        while i < n
            invariant
                i <= n,
                n == before.entries.count(),
                before.entries.wf(),
                self.entries.wf(),
                self.entries.key_views() == before.entries.key_views(),
                self.entries.value_views().len() == n,
                forall|j: int|
                    0 <= j < i ==> #[trigger] self.entries.value_views()[j]
                        == before.entries.value_views()[j].aged(turn, context_turns),
                forall|j: int|
                    i <= j < n ==> #[trigger] self.entries.value_views()[j]
                        == before.entries.value_views()[j],
                self.mode == before.mode,
                self.seq == before.seq,
                self.current_turn == turn,
                self.last_used_tokens == before.last_used_tokens,
                self.context_size == before.context_size,
            decreases n - i,
        {
            let e = self.entries.value(i);
            if e.node.in_context && turn > e.node.turn_accessed && turn - e.node.turn_accessed
                > context_turns {
                let dropped = Entry {
                    node: FileNode {
                        path: e.node.path.clone(),
                        heat: e.node.heat,
                        in_context: false,
                        last_action: e.node.last_action,
                        turn_accessed: e.node.turn_accessed,
                        timestamp_ms: e.node.timestamp_ms,
                    },
                    dirty: true,
                };
                self.entries.set(i, dropped);
            }
            i = i + 1;
        }
        proof {
            self.entries.lemma_mapped(
                &before.entries,
                |e: EntryView| e.aged(turn, context_turns),
            );
            assert(self@.entries == old(self)@.turn_ended(context_turns).entries);
        }
    }

    /// Takes every node out of the context.
    pub fn handle_compaction(&mut self)
        requires
            old(self).wf(),
        ensures
            final(self).wf(),
            final(self)@ == old(self)@.evicted(),
    {
        let ghost before = *self;
        let n = self.entries.len();
        let mut i: usize = 0;
        while i < n
            invariant
                i <= n,
                n == before.entries.count(),
                before.entries.wf(),
                self.entries.wf(),
                self.entries.key_views() == before.entries.key_views(),
                self.entries.value_views().len() == n,
                forall|j: int|
                    0 <= j < i ==> #[trigger] self.entries.value_views()[j]
                        == before.entries.value_views()[j].evicted(),
                forall|j: int|
                    i <= j < n ==> #[trigger] self.entries.value_views()[j]
                        == before.entries.value_views()[j],
                self.mode == before.mode,
                self.seq == before.seq,
                self.current_turn == before.current_turn,
                self.last_used_tokens == before.last_used_tokens,
                self.context_size == before.context_size,
            decreases n - i,
        {
            let e = self.entries.value(i);
            if e.node.in_context {
                let dropped = Entry {
                    node: FileNode {
                        path: e.node.path.clone(),
                        heat: e.node.heat,
                        in_context: false,
                        last_action: e.node.last_action,
                        turn_accessed: e.node.turn_accessed,
                        timestamp_ms: e.node.timestamp_ms,
                    },
                    dirty: true,
                };
                self.entries.set(i, dropped);
            }
            i = i + 1;
        }
        proof {
            self.entries.lemma_mapped(&before.entries, |e: EntryView| e.evicted());
        }
    }

    /// Keeps a usage report, and takes every node out of the context where
    /// the report shows a compaction.
    pub fn report_usage(&mut self, used: u32, size: u32, threshold: u32)
        requires
            old(self).wf(),
        ensures
            final(self).wf(),
            final(self)@ == old(self)@.usage_reported(used, size, threshold),
    {
        let previous = self.last_used_tokens;
        self.last_used_tokens = used;
        self.context_size = size;
        if is_compaction(previous, used, threshold) {
            self.handle_compaction();
        }
    }

    /// Cools every node that is out of context.
    pub fn cool(&mut self, rate: u32)
        requires
            old(self).wf(),
        ensures
            final(self).wf(),
            final(self)@ == old(self)@.cooled(rate),
    {
        let ghost before = *self;
        let n = self.entries.len();
        let mut i: usize = 0;
        while i < n
            invariant
                i <= n,
                n == before.entries.count(),
                before.entries.wf(),
                self.entries.wf(),
                self.entries.key_views() == before.entries.key_views(),
                self.entries.value_views().len() == n,
                forall|j: int|
                    0 <= j < i ==> #[trigger] self.entries.value_views()[j]
                        == before.entries.value_views()[j].cooled(rate),
                forall|j: int|
                    i <= j < n ==> #[trigger] self.entries.value_views()[j]
                        == before.entries.value_views()[j],
                self.mode == before.mode,
                self.seq == before.seq,
                self.current_turn == before.current_turn,
                self.last_used_tokens == before.last_used_tokens,
                self.context_size == before.context_size,
            decreases n - i,
        {
            let e = self.entries.value(i);
            if !e.node.in_context && e.node.heat > HEAT_FLOOR {
                let cooled = Entry {
                    node: FileNode {
                        path: e.node.path.clone(),
                        heat: cool_heat(e.node.heat, rate),
                        in_context: false,
                        last_action: e.node.last_action,
                        turn_accessed: e.node.turn_accessed,
                        timestamp_ms: e.node.timestamp_ms,
                    },
                    dirty: true,
                };
                self.entries.set(i, cooled);
            }
            i = i + 1;
        }
        proof {
            self.entries.lemma_mapped(&before.entries, |e: EntryView| e.cooled(rate));
        }
    }

    /// The nodes that a snapshot shows: those that are warm or in context.
    pub fn snapshot_nodes(&self) -> (r: KeyedList<String, FileNode>)
        requires
            self.wf(),
        ensures
            r.wf(),
            r@ == self@.live_files(),
    {
        let mut out: KeyedList<String, FileNode> = KeyedList::new();
        let n = self.entries.len();
        let ghost keys = self.entries.key_views();
        let ghost vals = self.entries.value_views();
        let mut i: usize = 0;
        while i < n
            invariant
                i <= n,
                n == self.entries.count(),
                self.entries.wf(),
                keys == self.entries.key_views(),
                vals == self.entries.value_views(),
                out.wf(),
                forall|j: int|
                    0 <= j < i && vals[j].node.live() ==> out@.contains_key(#[trigger] keys[j])
                        && out@[keys[j]] == vals[j].node,
                forall|p: Seq<char>| #[trigger]
                    out@.contains_key(p) ==> keys.contains(p) && keys.index_of(p) < i
                        && vals[keys.index_of(p)].node.live(),
            decreases n - i,
        {
            proof {
                self.entries.lemma_entry(i as int);
            }
            let e = self.entries.value(i);
            if e.node.is_live() {
                let key = self.entries.key(i).clone();
                out.push(key, e.node.clone());
            }
            i = i + 1;
        }
        proof {
            assert forall|p: Seq<char>| self@.live_files().contains_key(p) implies out@.contains_key(
                p,
            ) && out@[p] == self@.live_files()[p] by {
                self.entries.lemma_key(p);
            }
            assert forall|p: Seq<char>| out@.contains_key(p) implies self@.live_files().contains_key(
                p,
            ) by {
                self.entries.lemma_entry(keys.index_of(p));
            }
            assert(out@ =~= self@.live_files());
        }
        out
    }

    /// One tick: cools the nodes that are out of context and, where anything
    /// changed since the last delta, hands out the updates and the removals
    /// of the next delta, drops the removed nodes and counts the sequence
    /// number up.
    pub fn tick(&mut self, rate: u32) -> (r: Option<(Vec<NodeUpdate>, Vec<String>)>)
        requires
            old(self).wf(),
            old(self)@.seq < u64::MAX,
        ensures
            final(self).wf(),
            final(self)@ == old(self)@.ticked(rate),
            match r {
                None => old(self)@.cooled(rate).dirty().is_empty(),
                Some((updates, removed)) => {
                    &&& !old(self)@.cooled(rate).dirty().is_empty()
                    &&& lists_nodes(update_views(updates@), old(self)@.cooled(rate).updates())
                    &&& lists_paths(texts(removed@), old(self)@.cooled(rate).removals())
                },
            },
    {
        self.cool(rate);
        let ghost cooled = *self;
        let ghost keys = self.entries.key_views();
        let ghost vals = self.entries.value_views();
        let mut kept: KeyedList<String, Entry> = KeyedList::new();
        let mut updates: Vec<NodeUpdate> = Vec::new();
        let mut removed: Vec<String> = Vec::new();
        let ghost mut from_u: Seq<int> = Seq::empty();
        let ghost mut from_r: Seq<int> = Seq::empty();
        let n = self.entries.len();
        let mut i: usize = 0;
        while i < n
            invariant
                i <= n,
                n == self.entries.count(),
                *self == cooled,
                self.entries.wf(),
                self@.valid(),
                keys == self.entries.key_views(),
                vals == self.entries.value_views(),
                kept.wf(),
                forall|j: int|
                    0 <= j < i && !vals[j].gone() ==> kept@.contains_key(#[trigger] keys[j])
                        && kept@[keys[j]] == vals[j].settled(),
                forall|p: Seq<char>| #[trigger]
                    kept@.contains_key(p) ==> keys.contains(p) && keys.index_of(p) < i
                        && !vals[keys.index_of(p)].gone(),
                from_u.len() == updates.len(),
                forall|a: int|
                    0 <= a < from_u.len() ==> 0 <= #[trigger] from_u[a] < i
                        && vals[from_u[a]].updated() && updates@[a]@ == vals[from_u[a]].node,
                forall|a: int, b: int|
                    0 <= a < b < from_u.len() ==> #[trigger] from_u[a] < #[trigger] from_u[b],
                forall|j: int|
                    0 <= j < i && (#[trigger] vals[j]).updated() ==> exists|a: int|
                        0 <= a < from_u.len() && #[trigger] from_u[a] == j,
                from_r.len() == removed.len(),
                forall|a: int|
                    0 <= a < from_r.len() ==> 0 <= #[trigger] from_r[a] < i
                        && vals[from_r[a]].gone() && removed@[a]@ == keys[from_r[a]],
                forall|a: int, b: int|
                    0 <= a < b < from_r.len() ==> #[trigger] from_r[a] < #[trigger] from_r[b],
                forall|j: int|
                    0 <= j < i && (#[trigger] vals[j]).gone() ==> exists|a: int|
                        0 <= a < from_r.len() && #[trigger] from_r[a] == j,
            decreases n - i,
        {
            proof {
                self.entries.lemma_entry(i as int);
            }
            let e = self.entries.value(i);
            let key = self.entries.key(i).clone();
            if e.dirty && !e.node.is_live() {
                removed.push(key);
                proof {
                    let before_r = from_r;
                    from_r = from_r.push(i as int);
                    assert forall|j: int| 0 <= j < i + 1 && (#[trigger] vals[j]).gone() implies exists|
                        a: int,
                    | 0 <= a < from_r.len() && #[trigger] from_r[a] == j by {
                        if j < i {
                            let a = choose|a: int|
                                0 <= a < before_r.len() && #[trigger] before_r[a] == j;
                            assert(from_r[a] == j);
                        } else {
                            assert(from_r[before_r.len() as int] == j);
                        }
                    }
                }
            } else {
                if e.dirty {
                    updates.push(e.node.to_update());
                    proof {
                        let before_u = from_u;
                        from_u = from_u.push(i as int);
                        assert forall|j: int|
                            0 <= j < i + 1 && (#[trigger] vals[j]).updated() implies exists|a: int|
                            0 <= a < from_u.len() && #[trigger] from_u[a] == j by {
                            if j < i {
                                let a = choose|a: int|
                                    0 <= a < before_u.len() && #[trigger] before_u[a] == j;
                                assert(from_u[a] == j);
                            } else {
                                assert(from_u[before_u.len() as int] == j);
                            }
                        }
                    }
                }
                kept.push(key, Entry { node: e.node.clone(), dirty: false });
            }
            i = i + 1;
        }
        proof {
            let c = cooled@;
            assert(c == old(self)@.cooled(rate));
            assert forall|j: int| 0 <= j < n implies c.entries.contains_key(#[trigger] keys[j])
                && c.entries[keys[j]] == vals[j] && vals[j].node.path == keys[j] by {
                cooled.entries.lemma_entry(j);
            }
            assert forall|p: Seq<char>| c.entries.contains_key(p) implies 0 <= keys.index_of(p) < n
                && #[trigger] keys[keys.index_of(p)] == p && c.entries[p] == vals[keys.index_of(
                p,
            )] by {
                cooled.entries.lemma_key(p);
            }
            let ulist = update_views(updates@);
            assert(keys.no_duplicates());
            assert forall|a: int| 0 <= a < ulist.len() implies #[trigger] ulist[a]
                == vals[from_u[a]].node && ulist[a].path == keys[from_u[a]] && c.entries.contains_key(
                ulist[a].path,
            ) && c.entries[ulist[a].path] == vals[from_u[a]] by {
                assert(ulist[a] == updates@[a]@);
                assert(0 <= from_u[a] < n);
                assert(vals[from_u[a]].node.path == keys[from_u[a]]);
            }
            assert forall|a: int, b: int| 0 <= a < b < ulist.len() implies ulist[a].path
                != ulist[b].path by {
                assert(from_u[a] < from_u[b]);
                assert(ulist[a].path == keys[from_u[a]]);
                assert(ulist[b].path == keys[from_u[b]]);
            }
            assert forall|p: Seq<char>| c.updates().contains_key(p) implies exists|a: int|
                0 <= a < ulist.len() && #[trigger] ulist[a].path == p by {
                let j = keys.index_of(p);
                assert(vals[j].updated());
                let a = choose|a: int| 0 <= a < from_u.len() && #[trigger] from_u[a] == j;
                assert(ulist[a].path == p);
            }
            assert(lists_nodes(ulist, c.updates()));
            let rlist = texts(removed@);
            assert forall|a: int, b: int| 0 <= a < rlist.len() && 0 <= b < rlist.len() && a
                != b implies rlist[a] != rlist[b] by {
                if a < b {
                    assert(from_r[a] < from_r[b]);
                } else {
                    assert(from_r[b] < from_r[a]);
                }
            }
            assert forall|p: Seq<char>| rlist.contains(p) <==> c.removals().contains(p) by {
                if rlist.contains(p) {
                    let a = choose|a: int| 0 <= a < rlist.len() && rlist[a] == p;
                    assert(p == keys[from_r[a]]);
                }
                if c.removals().contains(p) {
                    let j = keys.index_of(p);
                    assert(vals[j].gone());
                    let a = choose|a: int| 0 <= a < from_r.len() && #[trigger] from_r[a] == j;
                    assert(rlist[a] == p);
                }
            }
            assert(lists_paths(rlist, c.removals()));
            if updates@.len() == 0 && removed@.len() == 0 {
                assert forall|p: Seq<char>| !c.dirty().contains(p) by {
                    if c.dirty().contains(p) {
                        let j = keys.index_of(p);
                        assert(vals[j].updated() || vals[j].gone());
                    }
                }
                assert(c.dirty() =~= Set::empty());
            } else {
                if updates@.len() > 0 {
                    assert(c.dirty().contains(keys[from_u[0]]));
                } else {
                    assert(c.dirty().contains(keys[from_r[0]]));
                }
                assert forall|p: Seq<char>| kept@.contains_key(p) <==> c.settled().entries.contains_key(
                    p,
                ) by {
                    if kept@.contains_key(p) {
                        assert(keys[keys.index_of(p)] == p);
                    }
                }
                assert(kept@ =~= c.settled().entries);
            }
        }
        if updates.len() == 0 && removed.len() == 0 {
            return None;
        }
        self.entries = kept;
        self.seq = self.seq + 1;
        Some((updates, removed))
    }
}

impl FileTable {
    /// A well-formed table holds valid entries only.
    pub proof fn lemma_wf_valid(&self)
        requires
            self.wf(),
        ensures
            self@.valid(),
    {
    }
}

/// The heat of every node of a valid table lies between 0 and 1.0.
pub proof fn lemma_heat_in_range(table: TableView, path: Seq<char>)
    requires
        table.valid(),
        table.entries.contains_key(path),
    ensures
        0 <= table.files()[path].heat <= HEAT_ONE,
        0 <= table.entries[path].node.heat <= HEAT_ONE,
{
}

/// Every operation of the table leaves a valid table valid.
pub proof fn lemma_valid_kept(
    table: TableView,
    path: Seq<char>,
    action: Action,
    timestamp_ms: u64,
    context_turns: u32,
    used: u32,
    size: u32,
    threshold: u32,
    rate: u32,
)
    requires
        table.valid(),
    ensures
        TableView::empty().valid(),
        table.accessed(path, action, timestamp_ms).valid(),
        table.turn_ended(context_turns).valid(),
        table.usage_reported(used, size, threshold).valid(),
        table.cooled(rate).valid(),
        table.cooled(rate).settled().valid(),
        table.ticked(rate).valid(),
{
    let c = table.cooled(rate);
    assert(c.valid()) by {
        assert forall|p: Seq<char>| c.entries.contains_key(p) implies (#[trigger] c.entries[p]).valid(
            p,
        ) by {
            assert(table.entries[p].valid(p));
        }
    }
    assert(c.settled().valid()) by {
        assert forall|p: Seq<char>| c.settled().entries.contains_key(p) implies (
        #[trigger] c.settled().entries[p]).valid(p) by {
            assert(c.entries[p].valid(p));
        }
    }
    assert(table.turn_ended(context_turns).valid()) by {
        let t = table.turn_ended(context_turns);
        assert forall|p: Seq<char>| t.entries.contains_key(p) implies (#[trigger] t.entries[p]).valid(
            p,
        ) by {
            assert(table.entries[p].valid(p));
        }
    }
    assert(table.usage_reported(used, size, threshold).valid()) by {
        let t = table.usage_reported(used, size, threshold);
        assert forall|p: Seq<char>| t.entries.contains_key(p) implies (#[trigger] t.entries[p]).valid(
            p,
        ) by {
            assert(table.entries[p].valid(p));
        }
    }
    assert(table.accessed(path, action, timestamp_ms).valid()) by {
        let t = table.accessed(path, action, timestamp_ms);
        assert forall|p: Seq<char>| t.entries.contains_key(p) implies (#[trigger] t.entries[p]).valid(
            p,
        ) by {
            if p != path {
                assert(table.entries[p].valid(p));
            }
        }
    }
}

/// An access sets the heat of the file to exactly 1.0 and puts it in
/// context, whatever the node was before; it stamps the node with the time
/// given, so a clock that does not run backwards never lowers a timestamp.
pub proof fn lemma_access_resets(
    table: TableView,
    path: Seq<char>,
    action: Action,
    timestamp_ms: u64,
)
    ensures
        table.accessed(path, action, timestamp_ms).entries.contains_key(path),
        table.accessed(path, action, timestamp_ms).entries[path].node.heat == HEAT_ONE,
        table.accessed(path, action, timestamp_ms).entries[path].node.in_context,
        table.accessed(path, action, timestamp_ms).entries[path].node.last_action == action,
        table.accessed(path, action, timestamp_ms).entries[path].node.turn_accessed
            == table.current_turn,
        table.accessed(path, action, timestamp_ms).entries[path].node.timestamp_ms == timestamp_ms,
        table.accessed(path, action, timestamp_ms).dirty().contains(path),
        table.entries.contains_key(path) && timestamp_ms >= table.entries[path].node.timestamp_ms
            ==> table.accessed(path, action, timestamp_ms).entries[path].node.timestamp_ms
            >= table.entries[path].node.timestamp_ms,
{
}

/// Nothing but an access changes the timestamp of a node: the end of a turn,
/// a usage report and a tick leave the timestamp of every node that stays.
pub proof fn lemma_timestamps_kept(
    table: TableView,
    path: Seq<char>,
    context_turns: u32,
    used: u32,
    size: u32,
    threshold: u32,
    rate: u32,
)
    requires
        table.entries.contains_key(path),
    ensures
        table.turn_ended(context_turns).entries[path].node.timestamp_ms
            == table.entries[path].node.timestamp_ms,
        table.usage_reported(used, size, threshold).entries[path].node.timestamp_ms
            == table.entries[path].node.timestamp_ms,
        table.ticked(rate).entries.contains_key(path) ==> table.ticked(
            rate,
        ).entries[path].node.timestamp_ms == table.entries[path].node.timestamp_ms,
{
}

/// A tick that finds something dirty counts the sequence number up by one; a
/// tick that finds nothing dirty leaves it; and no other operation touches
/// it. So the sequence numbers of the deltas of a session rise strictly.
pub proof fn lemma_seq_rises(
    table: TableView,
    path: Seq<char>,
    action: Action,
    timestamp_ms: u64,
    context_turns: u32,
    used: u32,
    size: u32,
    threshold: u32,
    rate: u32,
)
    requires
        table.seq < u64::MAX,
    ensures
        table.cooled(rate).dirty().is_empty() ==> table.ticked(rate).seq == table.seq,
        !table.cooled(rate).dirty().is_empty() ==> table.ticked(rate).seq == table.seq + 1,
        table.accessed(path, action, timestamp_ms).seq == table.seq,
        table.turn_ended(context_turns).seq == table.seq,
        table.usage_reported(used, size, threshold).seq == table.seq,
{
}

/// A tick hands out nothing if and only if no path is dirty and no node
/// cools; the table is then left as it was.
pub proof fn lemma_quiet_tick(table: TableView, rate: u32)
    ensures
        table.cooled(rate).dirty().is_empty() <==> table.dirty().is_empty() && forall|
            p: Seq<char>,
        | table.entries.contains_key(p) ==> !(#[trigger] table.entries[p]).cooling(),
        table.cooled(rate).dirty().is_empty() ==> table.ticked(rate) == table,
{
    let c = table.cooled(rate);
    if c.dirty().is_empty() {
        assert forall|p: Seq<char>| table.entries.contains_key(p) implies !(
        #[trigger] table.entries[p]).cooling() && !table.entries[p].dirty by {
            assert(!c.dirty().contains(p));
        }
        assert(table.dirty() =~= Set::empty());
        assert(c.entries =~= table.entries);
    }
    if table.dirty().is_empty() && forall|p: Seq<char>|
        table.entries.contains_key(p) ==> !(#[trigger] table.entries[p]).cooling() {
        assert forall|p: Seq<char>| !c.dirty().contains(p) by {
            if table.entries.contains_key(p) {
                assert(!table.dirty().contains(p));
                assert(!table.entries[p].cooling());
            }
        }
        assert(c.dirty() =~= Set::empty());
    }
}

/// A second usage report with the same count of used tokens is never taken
/// for a compaction, unless the threshold is zero: it leaves the nodes and the
/// dirty paths as the first report left them.
pub proof fn lemma_usage_repeated(
    table: TableView,
    used: u32,
    size: u32,
    again: u32,
    threshold: u32,
)
    requires
        threshold > 0 || used == 0,
    ensures
        !compacts(used, used, threshold),
        table.usage_reported(used, size, threshold).usage_reported(used, again, threshold).entries
            == table.usage_reported(used, size, threshold).entries,
{
    assert(!compacts(used, used, threshold)) by (nonlinear_arith)
        requires
            threshold > 0 || used == 0,
            used >= 0,
            HEAT_ONE == 1_000_000,
    {
        assert(used > 0 && threshold > 0 ==> threshold * used > 0);
    }
}

/// What an observer has after it took the delta with the updates `updates`
/// and the removals `removals`: the updated nodes are put in, the removed
/// paths are taken out.
pub open spec fn patched(
    held: Map<Seq<char>, NodeView>,
    updates: Map<Seq<char>, NodeView>,
    removals: Set<Seq<char>>,
) -> Map<Seq<char>, NodeView> {
    held.union_prefer_right(updates).remove_keys(removals)
}

/// Whether an observer that holds `held` is up to date but for the paths that
/// are dirty in `table`: on every other path it holds what a snapshot of the
/// table shows.
pub open spec fn follows(held: Map<Seq<char>, NodeView>, table: TableView) -> bool {
    forall|p: Seq<char>|
        !table.dirty().contains(p) ==> (held.contains_key(p) <==> #[trigger] table.live_files().contains_key(
            p,
        )) && (held.contains_key(p) ==> held[p] == table.live_files()[p])
}

/// An observer that holds a snapshot of a table follows the table.
pub proof fn lemma_snapshot_follows(table: TableView)
    ensures
        follows(table.live_files(), table),
{
}

/// An observer that follows a table still follows it after an access, the
/// end of a turn or a usage report: each of them marks what it changes as
/// dirty.
pub proof fn lemma_follows_kept(
    held: Map<Seq<char>, NodeView>,
    table: TableView,
    path: Seq<char>,
    action: Action,
    timestamp_ms: u64,
    context_turns: u32,
    used: u32,
    size: u32,
    threshold: u32,
)
    requires
        follows(held, table),
    ensures
        follows(held, table.accessed(path, action, timestamp_ms)),
        follows(held, table.turn_ended(context_turns)),
        follows(held, table.usage_reported(used, size, threshold)),
{
    let a = table.accessed(path, action, timestamp_ms);
    assert forall|p: Seq<char>| !a.dirty().contains(p) implies (held.contains_key(p)
        <==> #[trigger] a.live_files().contains_key(p)) && (held.contains_key(p) ==> held[p]
        == a.live_files()[p]) by {
        assert(p != path);
        assert(!table.dirty().contains(p));
        assert(table.live_files().contains_key(p) <==> a.live_files().contains_key(p));
    }
    let t = table.turn_ended(context_turns);
    assert forall|p: Seq<char>| !t.dirty().contains(p) implies (held.contains_key(p)
        <==> #[trigger] t.live_files().contains_key(p)) && (held.contains_key(p) ==> held[p]
        == t.live_files()[p]) by {
        assert(!table.dirty().contains(p));
        assert(table.live_files().contains_key(p) <==> t.live_files().contains_key(p));
    }
    let u = table.usage_reported(used, size, threshold);
    assert forall|p: Seq<char>| !u.dirty().contains(p) implies (held.contains_key(p)
        <==> #[trigger] u.live_files().contains_key(p)) && (held.contains_key(p) ==> held[p]
        == u.live_files()[p]) by {
        assert(!table.dirty().contains(p));
        assert(table.live_files().contains_key(p) <==> u.live_files().contains_key(p));
    }
}

/// An observer that follows a table and takes the delta of its next tick
/// holds exactly what a snapshot of the table shows after that tick. So an
/// observer that starts from a snapshot, at whatever moment it was taken, and
/// then takes every delta, holds the state of the tracker after each of them.
pub proof fn lemma_tick_catches_up(held: Map<Seq<char>, NodeView>, table: TableView, rate: u32)
    requires
        follows(held, table),
    ensures
        patched(held, table.cooled(rate).updates(), table.cooled(rate).removals())
            == table.ticked(rate).live_files(),
        table.ticked(rate).dirty().is_empty(),
        follows(table.ticked(rate).live_files(), table.ticked(rate)),
{
    let c = table.cooled(rate);
    let after = table.ticked(rate);
    let got = patched(held, c.updates(), c.removals());
    assert forall|p: Seq<char>| got.contains_key(p) <==> after.live_files().contains_key(p) by {
        if c.entries.contains_key(p) {
            if !c.entries[p].dirty {
                assert(!table.dirty().contains(p));
                assert(table.live_files().contains_key(p) <==> c.live_files().contains_key(p));
            }
        } else {
            assert(!table.dirty().contains(p));
            assert(!table.live_files().contains_key(p));
        }
        if c.dirty().is_empty() {
            assert(!c.dirty().contains(p));
        } else {
        }
    }
    assert forall|p: Seq<char>| got.contains_key(p) implies got[p] == after.live_files()[p] by {
        if c.entries.contains_key(p) {
            if !c.entries[p].dirty {
                assert(!table.dirty().contains(p));
                assert(table.live_files().contains_key(p) <==> c.live_files().contains_key(p));
            }
        } else {
            assert(!table.dirty().contains(p));
            assert(!table.live_files().contains_key(p));
        }
        if c.dirty().is_empty() {
            assert(!c.dirty().contains(p));
        }
    }
    assert(got =~= after.live_files());
    assert(after.dirty() =~= Set::empty()) by {
        assert forall|p: Seq<char>| !after.dirty().contains(p) by {
            if c.dirty().is_empty() {
                assert(!c.dirty().contains(p));
            }
        }
    }
}

/// What an observer holds after it put in the nodes `updates`, one after the
/// other, each under its path.
pub open spec fn put_all(held: Map<Seq<char>, NodeView>, updates: Seq<NodeView>) -> Map<
    Seq<char>,
    NodeView,
>
    decreases updates.len(),
{
    if updates.len() == 0 {
        held
    } else {
        put_all(held, updates.drop_last()).insert(updates.last().path, updates.last())
    }
}

/// What an observer holds after it took out the paths `removed`, one after
/// the other.
pub open spec fn drop_all(held: Map<Seq<char>, NodeView>, removed: Seq<Seq<char>>) -> Map<
    Seq<char>,
    NodeView,
>
    decreases removed.len(),
{
    if removed.len() == 0 {
        held
    } else {
        drop_all(held, removed.drop_last()).remove(removed.last())
    }
}

/// What an observer holds after it took a delta with the updates `updates`
/// and the removed paths `removed`, as the delta lists them.
pub open spec fn delta_applied(
    held: Map<Seq<char>, NodeView>,
    updates: Seq<NodeView>,
    removed: Seq<Seq<char>>,
) -> Map<Seq<char>, NodeView> {
    drop_all(put_all(held, updates), removed)
}

/// Putting in a list that holds each node of `nodes` once gives what was
/// held with the nodes of `nodes` over it.
pub proof fn lemma_put_all(
    held: Map<Seq<char>, NodeView>,
    updates: Seq<NodeView>,
    nodes: Map<Seq<char>, NodeView>,
)
    requires
        lists_nodes(updates, nodes),
    ensures
        put_all(held, updates) == held.union_prefer_right(nodes),
    decreases updates.len(),
{
    if updates.len() == 0 {
        assert forall|p: Seq<char>| !nodes.contains_key(p) by {
            if nodes.contains_key(p) {
                let a = choose|a: int| 0 <= a < updates.len() && #[trigger] updates[a].path == p;
            }
        }
        assert(held.union_prefer_right(nodes) =~= held);
    } else {
        let rest = updates.drop_last();
        let last = updates.last();
        let n = updates.len() - 1;
        let fewer = nodes.remove(last.path);
        assert forall|a: int| 0 <= a < rest.len() implies #[trigger] rest[a] == updates[a] by {}
        assert(lists_nodes(rest, fewer)) by {
            assert forall|a: int| 0 <= a < rest.len() implies fewer.contains_key(
                #[trigger] rest[a].path,
            ) && fewer[rest[a].path] == rest[a] by {
                assert(rest[a] == updates[a]);
                assert(updates[a].path != updates[n].path);
                assert(nodes.contains_key(updates[a].path));
            }
            assert forall|p: Seq<char>| fewer.contains_key(p) implies exists|a: int|
                0 <= a < rest.len() && #[trigger] rest[a].path == p by {
                let a = choose|a: int| 0 <= a < updates.len() && #[trigger] updates[a].path == p;
                assert(a != n);
                assert(rest[a].path == p);
            }
        }
        lemma_put_all(held, rest, fewer);
        assert(nodes.contains_key(updates[n].path) && nodes[updates[n].path] == updates[n]);
        assert(put_all(held, updates) =~= held.union_prefer_right(nodes));
    }
}

/// Taking out a list that holds each path of `paths` once gives what was held
/// without the paths of `paths`.
pub proof fn lemma_drop_all(
    held: Map<Seq<char>, NodeView>,
    removed: Seq<Seq<char>>,
    paths: Set<Seq<char>>,
)
    requires
        forall|p: Seq<char>| removed.contains(p) <==> paths.contains(p),
    ensures
        drop_all(held, removed) == held.remove_keys(paths),
    decreases removed.len(),
{
    if removed.len() == 0 {
        assert forall|p: Seq<char>| !paths.contains(p) by {
            assert(!removed.contains(p));
        }
        assert(held.remove_keys(paths) =~= held);
    } else {
        let rest = removed.drop_last();
        let last = removed.last();
        let n = removed.len() - 1;
        let fewer = Set::new(|p: Seq<char>| rest.contains(p));
        assert forall|p: Seq<char>| rest.contains(p) <==> fewer.contains(p) by {}
        lemma_drop_all(held, rest, fewer);
        assert forall|p: Seq<char>| paths.contains(p) <==> fewer.contains(p) || p == last by {
            if rest.contains(p) {
                let a = choose|a: int| 0 <= a < rest.len() && rest[a] == p;
                assert(removed[a] == p);
            }
            if p == last {
                assert(removed[n] == p);
            }
            if removed.contains(p) {
                let a = choose|a: int| 0 <= a < removed.len() && removed[a] == p;
                if a < n {
                    assert(rest[a] == p);
                }
            }
        }
        assert(drop_all(held, removed) =~= held.remove_keys(paths));
    }
}

/// An observer that follows a table and takes the delta of its next tick, as
/// the delta lists its updates and its removed paths, holds exactly what a
/// snapshot of the table shows after that tick.
pub proof fn lemma_delta_catches_up(
    held: Map<Seq<char>, NodeView>,
    table: TableView,
    rate: u32,
    updates: Seq<NodeView>,
    removed: Seq<Seq<char>>,
)
    requires
        follows(held, table),
        lists_nodes(updates, table.cooled(rate).updates()),
        lists_paths(removed, table.cooled(rate).removals()),
    ensures
        delta_applied(held, updates, removed) == table.ticked(rate).live_files(),
{
    let c = table.cooled(rate);
    lemma_put_all(held, updates, c.updates());
    lemma_drop_all(put_all(held, updates), removed, c.removals());
    lemma_tick_catches_up(held, table, rate);
}

/// What happens to the table of a session.
pub enum TableEvent {
    /// An access to a file.
    Access { path: Seq<char>, action: Action, timestamp_ms: u64 },
    /// The end of a turn.
    TurnEnd,
    /// A usage report.
    Usage { used: u32, size: u32 },
    /// A tick.
    Tick,
}

/// The table after the event `event`, under the configuration `config`.
pub open spec fn after_event(table: TableView, config: TrackerConfig, event: TableEvent) -> TableView {
    match event {
        TableEvent::Access { path, action, timestamp_ms } => table.accessed(
            path,
            action,
            timestamp_ms,
        ),
        TableEvent::TurnEnd => table.turn_ended(config.context_turns),
        TableEvent::Usage { used, size } => table.usage_reported(
            used,
            size,
            config.compaction_threshold,
        ),
        TableEvent::Tick => table.ticked(config.decay_rate),
    }
}

/// The table after the events `events`, one after the other.
pub open spec fn after_events(
    table: TableView,
    config: TrackerConfig,
    events: Seq<TableEvent>,
) -> TableView
    decreases events.len(),
{
    if events.len() == 0 {
        table
    } else {
        after_event(after_events(table, config, events.drop_last()), config, events.last())
    }
}

/// What an observer holds after the events `events`, if it held `held`
/// before them and takes the delta of every tick that hands one out.
pub open spec fn observed(
    held: Map<Seq<char>, NodeView>,
    table: TableView,
    config: TrackerConfig,
    events: Seq<TableEvent>,
) -> Map<Seq<char>, NodeView>
    decreases events.len(),
{
    if events.len() == 0 {
        held
    } else {
        let had = observed(held, table, config, events.drop_last());
        let cooled = after_events(table, config, events.drop_last()).cooled(config.decay_rate);
        if events.last() is Tick && !cooled.dirty().is_empty() {
            patched(had, cooled.updates(), cooled.removals())
        } else {
            had
        }
    }
}

/// An observer that follows a table, as one does that starts from a
/// snapshot, and takes every delta from then on, follows the table through
/// whatever happens to it; and right after each tick it holds exactly what a
/// snapshot of the table shows then.
pub proof fn lemma_observer_keeps_up(
    held: Map<Seq<char>, NodeView>,
    table: TableView,
    config: TrackerConfig,
    events: Seq<TableEvent>,
)
    requires
        follows(held, table),
    ensures
        follows(observed(held, table, config, events), after_events(table, config, events)),
        events.len() > 0 && events.last() is Tick ==> observed(held, table, config, events)
            == after_events(table, config, events).live_files(),
    decreases events.len(),
{
    if events.len() > 0 {
        let earlier = events.drop_last();
        lemma_observer_keeps_up(held, table, config, earlier);
        let had = observed(held, table, config, earlier);
        let before = after_events(table, config, earlier);
        match events.last() {
            TableEvent::Access { path, action, timestamp_ms } => {
                lemma_follows_kept(had, before, path, action, timestamp_ms, 0, 0, 0, 0);
            },
            TableEvent::TurnEnd => {
                lemma_follows_kept(
                    had,
                    before,
                    Seq::empty(),
                    Action::Read,
                    0,
                    config.context_turns,
                    0,
                    0,
                    0,
                );
            },
            TableEvent::Usage { used, size } => {
                lemma_follows_kept(
                    had,
                    before,
                    Seq::empty(),
                    Action::Read,
                    0,
                    0,
                    used,
                    size,
                    config.compaction_threshold,
                );
            },
            TableEvent::Tick => {
                let cooled = before.cooled(config.decay_rate);
                lemma_tick_catches_up(had, before, config.decay_rate);
                if cooled.dirty().is_empty() {
                    assert forall|p: Seq<char>| !cooled.updates().contains_key(p)
                        && !cooled.removals().contains(p) by {
                        assert(!cooled.dirty().contains(p));
                    }
                    assert(patched(had, cooled.updates(), cooled.removals()) =~= had);
                }
            },
        }
    }
}

} // verus!
