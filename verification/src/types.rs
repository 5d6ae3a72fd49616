//! The data that the observer keeps and sends: file nodes, deltas,
//! snapshots, usage reports, and the access zone.
//!
//! Heat and the two ratios of the tracker's configuration are fixed-point
//! numbers in millionths: `HEAT_ONE` stands for 1.0.

use vstd::prelude::*;
use crate::clock::now_ms;
use crate::glob::{glob_match, lemma_ending_fits, normalize, path_fits, star};
use crate::keyed::{Key, KeyedList};
use crate::text::to_chars;

verus! {

/// The heat of a file that was just accessed: 1.0.
pub const HEAT_ONE: u32 = 1_000_000;

/// The heat at or below which a cooling file counts as cold: 0.01.
pub const HEAT_FLOOR: u32 = 10_000;

/// The views of a list of strings.
pub open spec fn texts(list: Seq<String>) -> Seq<Seq<char>> {
    list.map_values(|s: String| s@)
}

/// A copy of a list of strings.
pub fn copy_strings(list: &Vec<String>) -> (out: Vec<String>)
    ensures
        texts(out@) == texts(list@),
{
    let mut out: Vec<String> = Vec::new();
    let mut i: usize = 0;
    while i < list.len()
        invariant
            i <= list.len(),
            texts(out@) == texts(list@).subrange(0, i as int),
        decreases list.len() - i,
    {
        let ghost before = texts(out@);
        out.push(list[i].clone());
        assert(texts(out@) =~= before.push(list@[i as int]@));
        i = i + 1;
        assert(texts(list@).subrange(0, i as int) =~= texts(list@).subrange(0, i - 1).push(
            list@[i - 1]@,
        ));
    }
    assert(texts(list@).subrange(0, list@.len() as int) =~= texts(list@));
    out
}

/// The kind of access that was last seen on a file.
#[derive(Debug, Clone, Copy, PartialEq, Eq, Structural)]
pub enum Action {
    /// The user embedded the file's content in a prompt.
    UserProvided,
    /// The user sent a link to the file in a prompt.
    UserReferenced,
    /// The agent read the file.
    Read,
    /// The agent wrote the file.
    Write,
    /// The agent's search reported the file.
    Search,
    /// The agent tried to reach the file outside its zone.
    Blocked,
}

impl Action {
    /// The name of the action on the wire.
    pub open spec fn token(self) -> Seq<char> {
        match self {
            Action::UserProvided => "user_provided"@,
            Action::UserReferenced => "user_referenced"@,
            Action::Read => "read"@,
            Action::Write => "write"@,
            Action::Search => "search"@,
            Action::Blocked => "blocked"@,
        }
    }

    /// The name of the action on the wire.
    pub fn as_str(&self) -> (r: &'static str)
        ensures
            r@ == self.token(),
    {
        match self {
            Action::UserProvided => "user_provided",
            Action::UserReferenced => "user_referenced",
            Action::Read => "read",
            Action::Write => "write",
            Action::Search => "search",
            Action::Blocked => "blocked",
        }
    }

    /// The rank of the action where two accesses carry the same timestamp:
    /// a write outranks a search, and a search outranks every other action.
    pub open spec fn rank(self) -> u8 {
        match self {
            Action::Write => 3,
            Action::Search => 2,
            _ => 1,
        }
    }
}

/// The rank of `action` where two accesses carry the same timestamp.
pub fn action_priority(action: Action) -> (r: u8)
    ensures
        r == action.rank(),
{
    match action {
        Action::Write => 3,
        Action::Search => 2,
        _ => 1,
    }
}

/// Whether a session follows one agent or merges several sessions.
#[derive(Debug, Clone, Copy, PartialEq, Eq, Structural)]
pub enum SessionMode {
    /// The session of a single agent.
    SingleAgent,
    /// A session that merges the state of its provider sessions.
    Orchestrator,
}

impl SessionMode {
    /// The name of the mode on the wire.
    pub open spec fn token(self) -> Seq<char> {
        match self {
            SessionMode::SingleAgent => "single_agent"@,
            SessionMode::Orchestrator => "orchestrator"@,
        }
    }

    /// The name of the mode on the wire.
    pub fn as_str(&self) -> (r: &'static str)
        ensures
            r@ == self.token(),
    {
        match self {
            SessionMode::SingleAgent => "single_agent",
            SessionMode::Orchestrator => "orchestrator",
        }
    }
}

/// What a file node or a node update holds.
pub struct NodeView {
    pub path: Seq<char>,
    pub heat: u32,
    pub in_context: bool,
    pub last_action: Action,
    pub turn_accessed: u32,
    pub timestamp_ms: u64,
}

impl NodeView {
    /// A node is live while it is warm or in context; a node that is
    /// neither is due for removal.
    pub open spec fn live(self) -> bool {
        self.heat > 0 || self.in_context
    }
}

/// One path that the agent has touched within one session.
#[derive(Debug)]
pub struct FileNode {
    pub path: String,
    /// Activity level in millionths, from 0 to `HEAT_ONE`.
    pub heat: u32,
    /// Whether the file is taken to be in the agent's context window.
    pub in_context: bool,
    pub last_action: Action,
    /// The turn of the last access.
    pub turn_accessed: u32,
    /// Wall-clock milliseconds of the last access.
    pub timestamp_ms: u64,
}

impl View for FileNode {
    type V = NodeView;

    open spec fn view(&self) -> NodeView {
        NodeView {
            path: self.path@,
            heat: self.heat,
            in_context: self.in_context,
            last_action: self.last_action,
            turn_accessed: self.turn_accessed,
            timestamp_ms: self.timestamp_ms,
        }
    }
}

impl Clone for FileNode {
    fn clone(&self) -> (r: Self)
        ensures
            r@ == self@,
    {
        FileNode {
            path: self.path.clone(),
            heat: self.heat,
            in_context: self.in_context,
            last_action: self.last_action,
            turn_accessed: self.turn_accessed,
            timestamp_ms: self.timestamp_ms,
        }
    }
}

impl FileNode {
    /// The update that reports this node as it is.
    pub fn to_update(&self) -> (r: NodeUpdate)
        ensures
            r@ == self@,
    {
        NodeUpdate {
            path: self.path.clone(),
            heat: self.heat,
            in_context: self.in_context,
            last_action: self.last_action,
            turn_accessed: self.turn_accessed,
            timestamp_ms: self.timestamp_ms,
        }
    }

    /// Whether the node is warm or in context.
    pub fn is_live(&self) -> (r: bool)
        ensures
            r == self@.live(),
    {
        self.heat > 0 || self.in_context
    }
}

/// The state of one changed file within a delta.
#[derive(Debug)]
pub struct NodeUpdate {
    pub path: String,
    pub heat: u32,
    pub in_context: bool,
    pub last_action: Action,
    pub turn_accessed: u32,
    pub timestamp_ms: u64,
}

impl View for NodeUpdate {
    type V = NodeView;

    open spec fn view(&self) -> NodeView {
        NodeView {
            path: self.path@,
            heat: self.heat,
            in_context: self.in_context,
            last_action: self.last_action,
            turn_accessed: self.turn_accessed,
            timestamp_ms: self.timestamp_ms,
        }
    }
}

impl Clone for NodeUpdate {
    fn clone(&self) -> (r: Self)
        ensures
            r@ == self@,
    {
        NodeUpdate {
            path: self.path.clone(),
            heat: self.heat,
            in_context: self.in_context,
            last_action: self.last_action,
            turn_accessed: self.turn_accessed,
            timestamp_ms: self.timestamp_ms,
        }
    }
}

/// The views of a list of node updates.
pub open spec fn update_views(list: Seq<NodeUpdate>) -> Seq<NodeView> {
    list.map_values(|u: NodeUpdate| u@)
}

/// What a snapshot holds.
pub struct SnapshotView {
    /// The type of the message on the wire.
    pub msg_type: Seq<char>,
    pub agent_id: Seq<char>,
    pub session_id: Seq<char>,
    pub session_mode: SessionMode,
    pub seq: u64,
    pub nodes: Map<Seq<char>, NodeView>,
}

/// The whole file table of one session, sent on connect and on request.
#[derive(Debug)]
pub struct Snapshot {
    /// Always `snapshot`.
    pub msg_type: String,
    pub agent_id: String,
    pub session_id: String,
    pub session_mode: SessionMode,
    pub seq: u64,
    pub nodes: KeyedList<String, FileNode>,
}

impl View for Snapshot {
    type V = SnapshotView;

    open spec fn view(&self) -> SnapshotView {
        SnapshotView {
            msg_type: self.msg_type@,
            agent_id: self.agent_id@,
            session_id: self.session_id@,
            session_mode: self.session_mode,
            seq: self.seq,
            nodes: self.nodes@,
        }
    }
}

impl Snapshot {
    pub fn new(
        agent_id: &str,
        session_id: &str,
        session_mode: SessionMode,
        seq: u64,
        nodes: KeyedList<String, FileNode>,
    ) -> (r: Self)
        ensures
            r.nodes == nodes,
            r@ == (SnapshotView {
                msg_type: "snapshot"@,
                agent_id: agent_id@,
                session_id: session_id@,
                session_mode,
                seq,
                nodes: nodes@,
            }),
    {
        Snapshot {
            msg_type: "snapshot".to_owned(),
            agent_id: agent_id.to_owned(),
            session_id: session_id.to_owned(),
            session_mode,
            seq,
            nodes,
        }
    }
}

/// What a delta holds.
pub struct DeltaView {
    /// The type of the message on the wire.
    pub msg_type: Seq<char>,
    pub agent_id: Seq<char>,
    pub session_id: Seq<char>,
    pub session_mode: SessionMode,
    pub seq: u64,
    pub updates: Seq<NodeView>,
    pub removed: Seq<Seq<char>>,
}

/// The nodes that changed and the paths that left since the last emission.
#[derive(Debug)]
pub struct Delta {
    /// Always `delta`.
    pub msg_type: String,
    pub agent_id: String,
    pub session_id: String,
    pub session_mode: SessionMode,
    pub seq: u64,
    pub updates: Vec<NodeUpdate>,
    pub removed: Vec<String>,
}

impl View for Delta {
    type V = DeltaView;

    open spec fn view(&self) -> DeltaView {
        DeltaView {
            msg_type: self.msg_type@,
            agent_id: self.agent_id@,
            session_id: self.session_id@,
            session_mode: self.session_mode,
            seq: self.seq,
            updates: update_views(self.updates@),
            removed: texts(self.removed@),
        }
    }
}

impl Delta {
    pub fn new(
        agent_id: &str,
        session_id: &str,
        session_mode: SessionMode,
        seq: u64,
        updates: Vec<NodeUpdate>,
        removed: Vec<String>,
    ) -> (r: Self)
        ensures
            r@ == (DeltaView {
                msg_type: "delta"@,
                agent_id: agent_id@,
                session_id: session_id@,
                session_mode,
                seq,
                updates: update_views(updates@),
                removed: texts(removed@),
            }),
    {
        Delta {
            msg_type: "delta".to_owned(),
            agent_id: agent_id.to_owned(),
            session_id: session_id.to_owned(),
            session_mode,
            seq,
            updates,
            removed,
        }
    }
}

/// What a cost holds.
pub struct CostView {
    pub amount_micros: u64,
    pub currency: Seq<char>,
}

/// A cost: an amount in millionths of the unit of its currency.
#[derive(Debug)]
pub struct Cost {
    pub amount_micros: u64,
    pub currency: String,
}

impl View for Cost {
    type V = CostView;

    open spec fn view(&self) -> CostView {
        CostView { amount_micros: self.amount_micros, currency: self.currency@ }
    }
}

impl Clone for Cost {
    fn clone(&self) -> (r: Self)
        ensures
            r@ == self@,
    {
        Cost { amount_micros: self.amount_micros, currency: self.currency.clone() }
    }
}

/// The view of an optional cost.
pub open spec fn cost_view(cost: Option<Cost>) -> Option<CostView> {
    match cost {
        Some(c) => Some(c@),
        None => None,
    }
}

/// What a usage report holds.
pub struct UsageView {
    /// The type of the message on the wire.
    pub msg_type: Seq<char>,
    pub agent_id: Seq<char>,
    pub session_id: Seq<char>,
    pub session_mode: SessionMode,
    pub used: u32,
    pub size: u32,
    pub cost: Option<CostView>,
}

/// A report of how much of the context window is used.
#[derive(Debug)]
pub struct UsageMessage {
    /// Always `usage`.
    pub msg_type: String,
    pub agent_id: String,
    pub session_id: String,
    pub session_mode: SessionMode,
    pub used: u32,
    pub size: u32,
    pub cost: Option<Cost>,
}

impl View for UsageMessage {
    type V = UsageView;

    open spec fn view(&self) -> UsageView {
        UsageView {
            msg_type: self.msg_type@,
            agent_id: self.agent_id@,
            session_id: self.session_id@,
            session_mode: self.session_mode,
            used: self.used,
            size: self.size,
            cost: cost_view(self.cost),
        }
    }
}

impl Clone for UsageMessage {
    fn clone(&self) -> (r: Self)
        ensures
            r@ == self@,
    {
        UsageMessage {
            msg_type: self.msg_type.clone(),
            agent_id: self.agent_id.clone(),
            session_id: self.session_id.clone(),
            session_mode: self.session_mode,
            used: self.used,
            size: self.size,
            cost: match &self.cost {
                Some(c) => Some(c.clone()),
                None => None,
            },
        }
    }
}

impl UsageMessage {
    pub fn new(
        agent_id: &str,
        session_id: &str,
        session_mode: SessionMode,
        used: u32,
        size: u32,
        cost: Option<Cost>,
    ) -> (r: Self)
        ensures
            r@ == (UsageView {
                msg_type: "usage"@,
                agent_id: agent_id@,
                session_id: session_id@,
                session_mode,
                used,
                size,
                cost: cost_view(cost),
            }),
    {
        UsageMessage {
            msg_type: "usage".to_owned(),
            agent_id: agent_id.to_owned(),
            session_id: session_id.to_owned(),
            session_mode,
            used,
            size,
            cost,
        }
    }
}

/// The views of a list of usage reports.
pub open spec fn usage_views(list: Seq<UsageMessage>) -> Seq<UsageView> {
    list.map_values(|u: UsageMessage| u@)
}

/// The tuning of a tracker. The two ratios are in millionths.
#[derive(Debug, Clone, Copy, PartialEq, Eq, Structural)]
pub struct TrackerConfig {
    /// A file leaves the context once the turn counter is more than this
    /// many turns past its last access.
    pub context_turns: u32,
    /// The share by which the used tokens must drop for a report to count
    /// as a compaction, in millionths.
    pub compaction_threshold: u32,
    /// The factor that each tick applies to the heat of a file out of
    /// context, in millionths.
    pub decay_rate: u32,
}

impl Default for TrackerConfig {
    fn default() -> (r: Self)
        ensures
            r == (TrackerConfig {
                context_turns: 3,
                compaction_threshold: 500_000,
                decay_rate: 950_000,
            }),
    {
        TrackerConfig { context_turns: 3, compaction_threshold: 500_000, decay_rate: 950_000 }
    }
}

/// The region of the workspace that the agent may read and write.
#[derive(Debug)]
pub struct ZoneConfig {
    /// Glob patterns of the paths that are allowed.
    pub allowed: Vec<String>,
    /// Glob patterns of the paths that are denied whatever is allowed.
    pub denied: Vec<String>,
}

impl ZoneConfig {
    /// Whether some pattern of `patterns` fits `path`.
    pub open spec fn some_fits(patterns: Seq<String>, path: Seq<char>) -> bool {
        exists|i: int| 0 <= i < patterns.len() && path_fits(#[trigger] patterns[i]@, path)
    }

    /// Whether the zone permits `path`: some allowed pattern fits it and no
    /// denied pattern does.
    pub open spec fn permits(&self, path: Seq<char>) -> bool {
        Self::some_fits(self.allowed@, path) && !Self::some_fits(self.denied@, path)
    }

    /// A zone that allows `allowed` and denies nothing.
    pub fn new(allowed: Vec<String>) -> (r: Self)
        ensures
            r.allowed == allowed,
            r.denied@.len() == 0,
    {
        ZoneConfig { allowed, denied: Vec::new() }
    }

    /// Whether some pattern of `patterns` fits the path `normalized`, which
    /// has its leading `/` taken off already.
    fn any_fits(patterns: &Vec<String>, normalized: &Vec<char>, Ghost(path): Ghost<Seq<char>>) -> (r:
        bool)
        requires
            normalized@ == crate::glob::normalized(path),
        ensures
            r == Self::some_fits(patterns@, path),
    {
        let mut i: usize = 0;
        while i < patterns.len()
            invariant
                i <= patterns.len(),
                normalized@ == crate::glob::normalized(path),
                forall|j: int| 0 <= j < i ==> !path_fits(#[trigger] patterns@[j]@, path),
            decreases patterns.len() - i,
        {
            let pattern = to_chars(patterns[i].as_str());
            let pat = normalize(&pattern);
            if glob_match(&pat, normalized) {
                return true;
            }
            i = i + 1;
        }
        false
    }

    /// Whether the zone permits `path`.
    pub fn is_allowed(&self, path: &str) -> (r: bool)
        ensures
            r == self.permits(path@),
    {
        let chars = to_chars(path);
        let normalized = normalize(&chars);
        if Self::any_fits(&self.denied, &normalized, Ghost(path@)) {
            return false;
        }
        Self::any_fits(&self.allowed, &normalized, Ghost(path@))
    }
}

/// A path that a denied pattern fits is not permitted, whatever the allowed
/// patterns are.
pub proof fn lemma_deny_wins(zone: ZoneConfig, path: Seq<char>, j: int)
    requires
        0 <= j < zone.denied@.len(),
        path_fits(zone.denied@[j]@, path),
    ensures
        !zone.permits(path),
{
}

/// A denied ending cannot be slipped past: where `*` followed by `tail` is
/// denied, no path of one segment that ends in `tail` is permitted, whatever
/// stands before the ending and whatever is allowed.
pub proof fn lemma_denied_ending(zone: ZoneConfig, head: Seq<char>, tail: Seq<char>, j: int)
    requires
        0 <= j < zone.denied@.len(),
        zone.denied@[j]@ == star() + tail,
        !tail.contains('*'),
        !tail.contains('/'),
        !head.contains('/'),
    ensures
        !zone.permits(head + tail),
{
    lemma_ending_fits(head, tail);
    lemma_deny_wins(zone, head + tail, j);
}

/// A zone without allowed patterns permits nothing.
pub proof fn lemma_empty_zone_permits_nothing(zone: ZoneConfig, path: Seq<char>)
    requires
        zone.allowed@.len() == 0,
    ensures
        !zone.permits(path),
{
}

/// What a notice of a blocked access holds.
pub struct BlockedView {
    /// The type of the message on the wire.
    pub msg_type: Seq<char>,
    pub agent_id: Seq<char>,
    pub session_id: Seq<char>,
    pub path: Seq<char>,
    pub action: Seq<char>,
    pub timestamp_ms: u64,
}

/// The notice that the zone refused an access.
#[derive(Debug)]
pub struct BlockedAccess {
    /// Always `blocked`.
    pub msg_type: String,
    pub agent_id: String,
    pub session_id: String,
    pub path: String,
    /// `read` or `write`.
    pub action: String,
    pub timestamp_ms: u64,
}

impl View for BlockedAccess {
    type V = BlockedView;

    open spec fn view(&self) -> BlockedView {
        BlockedView {
            msg_type: self.msg_type@,
            agent_id: self.agent_id@,
            session_id: self.session_id@,
            path: self.path@,
            action: self.action@,
            timestamp_ms: self.timestamp_ms,
        }
    }
}

impl BlockedAccess {
    /// The notice of an access that was refused at the time `timestamp_ms`.
    pub fn at(agent_id: &str, session_id: &str, path: &str, action: &str, timestamp_ms: u64) -> (r:
        Self)
        ensures
            r@ == (BlockedView {
                msg_type: "blocked"@,
                agent_id: agent_id@,
                session_id: session_id@,
                path: path@,
                action: action@,
                timestamp_ms,
            }),
    {
        BlockedAccess {
            msg_type: "blocked".to_owned(),
            agent_id: agent_id.to_owned(),
            session_id: session_id.to_owned(),
            path: path.to_owned(),
            action: action.to_owned(),
            timestamp_ms,
        }
    }

    /// The notice of an access that is refused now: it carries the reading
    /// of the wall clock, whatever that is.
    pub fn new(agent_id: &str, session_id: &str, path: &str, action: &str) -> (r: Self)
        ensures
            r@ == (BlockedView {
                msg_type: "blocked"@,
                agent_id: agent_id@,
                session_id: session_id@,
                path: path@,
                action: action@,
                timestamp_ms: r.timestamp_ms,
            }),
    {
        let ts = now_ms();
        Self::at(agent_id, session_id, path, action, ts)
    }
}

/// What names a session: the agent and the session.
pub struct SessionKeyView {
    pub agent_id: Seq<char>,
    pub session_id: Seq<char>,
}

/// The name of a session: the identifier of its agent and its own.
#[derive(Debug)]
pub struct SessionKey {
    pub agent_id: String,
    pub session_id: String,
}

impl View for SessionKey {
    type V = SessionKeyView;

    open spec fn view(&self) -> SessionKeyView {
        SessionKeyView { agent_id: self.agent_id@, session_id: self.session_id@ }
    }
}

impl Clone for SessionKey {
    fn clone(&self) -> (r: Self)
        ensures
            r@ == self@,
    {
        SessionKey { agent_id: self.agent_id.clone(), session_id: self.session_id.clone() }
    }
}

impl Key for SessionKey {
    fn same_key(&self, other: &Self) -> (r: bool) {
        self.agent_id == other.agent_id && self.session_id == other.session_id
    }

    fn copy_key(&self) -> (r: Self) {
        self.clone()
    }
}

impl SessionKey {
    pub fn new(agent_id: &str, session_id: &str) -> (r: Self)
        ensures
            r@ == (SessionKeyView { agent_id: agent_id@, session_id: session_id@ }),
    {
        SessionKey { agent_id: agent_id.to_owned(), session_id: session_id.to_owned() }
    }

    /// Whether this is the name of `session`.
    pub fn matches(&self, session: &SessionState) -> (r: bool)
        ensures
            r == (self@ == session@.key()),
    {
        self.agent_id == session.agent_id && self.session_id == session.session_id
    }
}

/// The views of a list of session names.
pub open spec fn key_views(list: Seq<SessionKey>) -> Seq<SessionKeyView> {
    list.map_values(|k: SessionKey| k@)
}

/// A copy of a list of session names.
pub fn copy_keys(list: &Vec<SessionKey>) -> (out: Vec<SessionKey>)
    ensures
        key_views(out@) == key_views(list@),
{
    let mut out: Vec<SessionKey> = Vec::new();
    let mut i: usize = 0;
    while i < list.len()
        invariant
            i <= list.len(),
            key_views(out@) == key_views(list@).take(i as int),
        decreases list.len() - i,
    {
        let ghost before = key_views(out@);
        out.push(list[i].clone());
        assert(key_views(out@) =~= before.push(list@[i as int]@));
        assert(key_views(list@).take(i + 1) =~= key_views(list@).take(i as int).push(
            list@[i as int]@,
        ));
        i = i + 1;
    }
    assert(key_views(list@).take(list@.len() as int) =~= key_views(list@));
    out
}

/// Whether the list of session names `list` holds the name `key`.
pub fn holds_key(list: &Vec<SessionKey>, key: &SessionKey) -> (r: bool)
    ensures
        r == key_views(list@).contains(key@),
{
    let mut i: usize = 0;
    while i < list.len()
        invariant
            i <= list.len(),
            forall|j: int| 0 <= j < i ==> key_views(list@)[j] != key@,
        decreases list.len() - i,
    {
        if list[i].same_key(key) {
            assert(key_views(list@)[i as int] == key@);
            return true;
        }
        i = i + 1;
    }
    false
}

/// What the description of a model holds.
pub struct SessionModelView {
    pub model_id: Seq<char>,
    pub name: Option<Seq<char>>,
}

/// The model that a session runs on.
#[derive(Debug)]
pub struct SessionModel {
    pub model_id: String,
    pub name: Option<String>,
}

/// The view of an optional string.
pub open spec fn text_view(text: Option<String>) -> Option<Seq<char>> {
    match text {
        Some(t) => Some(t@),
        None => None,
    }
}

/// A copy of an optional string.
pub fn copy_text(text: &Option<String>) -> (r: Option<String>)
    ensures
        text_view(r) == text_view(*text),
{
    match text {
        Some(t) => Some(t.clone()),
        None => None,
    }
}

impl View for SessionModel {
    type V = SessionModelView;

    open spec fn view(&self) -> SessionModelView {
        SessionModelView { model_id: self.model_id@, name: text_view(self.name) }
    }
}

impl Clone for SessionModel {
    fn clone(&self) -> (r: Self)
        ensures
            r@ == self@,
    {
        SessionModel { model_id: self.model_id.clone(), name: copy_text(&self.name) }
    }
}

/// The view of an optional model.
pub open spec fn model_view(model: Option<SessionModel>) -> Option<SessionModelView> {
    match model {
        Some(m) => Some(m@),
        None => None,
    }
}

/// A copy of an optional model.
pub fn copy_model(model: &Option<SessionModel>) -> (r: Option<SessionModel>)
    ensures
        model_view(r) == model_view(*model),
{
    match model {
        Some(m) => Some(m.clone()),
        None => None,
    }
}

/// What the entry of a session holds.
pub struct SessionStateView {
    pub agent_id: Seq<char>,
    pub session_id: Seq<char>,
    pub mode: SessionMode,
    pub model: Option<SessionModelView>,
    pub history: Seq<Seq<char>>,
    pub summary: Option<Seq<char>>,
    pub context: Seq<Seq<char>>,
    pub providers: Seq<SessionKeyView>,
    pub created_at_ms: u64,
    pub updated_at_ms: u64,
}

impl SessionStateView {
    /// The name of the session.
    pub open spec fn key(self) -> SessionKeyView {
        SessionKeyView { agent_id: self.agent_id, session_id: self.session_id }
    }

    /// The line of the session in a list of sessions.
    pub open spec fn summary_line(self, is_active: bool) -> SessionSummaryView {
        SessionSummaryView {
            agent_id: self.agent_id,
            session_id: self.session_id,
            mode: self.mode,
            model: self.model,
            updated_at_ms: self.updated_at_ms,
            is_active,
        }
    }
}

/// The entry of a session in the registry. The items of its history and of
/// its context are JSON values, each kept as its text.
#[derive(Debug)]
pub struct SessionState {
    pub agent_id: String,
    pub session_id: String,
    pub mode: SessionMode,
    pub model: Option<SessionModel>,
    pub history: Vec<String>,
    pub summary: Option<String>,
    pub context: Vec<String>,
    /// The sessions whose state an orchestrator session merges.
    pub providers: Vec<SessionKey>,
    pub created_at_ms: u64,
    pub updated_at_ms: u64,
}

impl View for SessionState {
    type V = SessionStateView;

    open spec fn view(&self) -> SessionStateView {
        SessionStateView {
            agent_id: self.agent_id@,
            session_id: self.session_id@,
            mode: self.mode,
            model: model_view(self.model),
            history: texts(self.history@),
            summary: text_view(self.summary),
            context: texts(self.context@),
            providers: key_views(self.providers@),
            created_at_ms: self.created_at_ms,
            updated_at_ms: self.updated_at_ms,
        }
    }
}

impl Clone for SessionState {
    fn clone(&self) -> (r: Self)
        ensures
            r@ == self@,
    {
        SessionState {
            agent_id: self.agent_id.clone(),
            session_id: self.session_id.clone(),
            mode: self.mode,
            model: copy_model(&self.model),
            history: copy_strings(&self.history),
            summary: copy_text(&self.summary),
            context: copy_strings(&self.context),
            providers: copy_keys(&self.providers),
            created_at_ms: self.created_at_ms,
            updated_at_ms: self.updated_at_ms,
        }
    }
}

impl SessionState {
    /// The name of the session.
    pub fn key(&self) -> (r: SessionKey)
        ensures
            r@ == self@.key(),
    {
        SessionKey { agent_id: self.agent_id.clone(), session_id: self.session_id.clone() }
    }
}

/// What a line of a list of sessions holds.
pub struct SessionSummaryView {
    pub agent_id: Seq<char>,
    pub session_id: Seq<char>,
    pub mode: SessionMode,
    pub model: Option<SessionModelView>,
    pub updated_at_ms: u64,
    pub is_active: bool,
}

impl SessionSummaryView {
    /// The name of the session.
    pub open spec fn key(self) -> SessionKeyView {
        SessionKeyView { agent_id: self.agent_id, session_id: self.session_id }
    }
}

/// A line of a list of sessions.
#[derive(Debug)]
pub struct SessionSummary {
    pub agent_id: String,
    pub session_id: String,
    pub mode: SessionMode,
    pub model: Option<SessionModel>,
    pub updated_at_ms: u64,
    /// Whether this is the active session of the registry.
    pub is_active: bool,
}

impl View for SessionSummary {
    type V = SessionSummaryView;

    open spec fn view(&self) -> SessionSummaryView {
        SessionSummaryView {
            agent_id: self.agent_id@,
            session_id: self.session_id@,
            mode: self.mode,
            model: model_view(self.model),
            updated_at_ms: self.updated_at_ms,
            is_active: self.is_active,
        }
    }
}

/// The views of a list of session entries.
pub open spec fn state_views(list: Seq<SessionState>) -> Seq<SessionStateView> {
    list.map_values(|s: SessionState| s@)
}

/// The views of a list of lines.
pub open spec fn summary_views(list: Seq<SessionSummary>) -> Seq<SessionSummaryView> {
    list.map_values(|s: SessionSummary| s@)
}

/// The parameters with which the view of a workspace is opened: the root
/// of the workspace.
#[derive(Debug)]
pub struct InitParams {
    pub root_path: String,
}

/// A range of lines.
#[derive(Debug, Clone, Copy, PartialEq, Eq, Structural)]
pub struct UiLineRange {
    pub start: u32,
    pub end: u32,
}

/// A node of the graph that the workspace view shows.
#[derive(Debug)]
pub struct UiNode {
    pub kind: Option<String>,
    pub lines: Option<UiLineRange>,
    pub last_write: Option<u64>,
    pub changed: Option<bool>,
    pub tokens: Option<u32>,
}

impl View for UiNode {
    type V = UiNode;

    open spec fn view(&self) -> UiNode {
        *self
    }
}

/// What an edge of the graph holds.
pub struct UiCallEdgeView {
    pub from: Seq<char>,
    pub to: Seq<char>,
}

/// An edge of the graph: a call from one node to another.
#[derive(Debug)]
pub struct UiCallEdge {
    pub from: String,
    pub to: String,
}

impl View for UiCallEdge {
    type V = UiCallEdgeView;

    open spec fn view(&self) -> UiCallEdgeView {
        UiCallEdgeView { from: self.from@, to: self.to@ }
    }
}

/// The graph of a workspace: its nodes by identifier, and the calls between
/// them.
#[derive(Debug)]
pub struct UiSnapshot {
    pub seq: u64,
    pub nodes: KeyedList<String, UiNode>,
    pub calls: Vec<UiCallEdge>,
}

} // verus!
