//! What the broadcast server decides for one observer: which lines pass its
//! filter, what its messages mean, and which session a snapshot shows.
//!
//! The sockets and the broadcast channel are not here; this module takes
//! lines and hands back what is to be sent.

use vstd::prelude::*;
use serde_json::Value;
use crate::json::{given, json_parse, json_view, parse, text_field, JsonView};
use crate::orchestrator::{aggregate, AggregatorView, OrchestratorAggregator};
use crate::session_registry::{
    key_view, latest_first, lists_summaries, wanted, RegistryView, SessionRegistry,
};
use crate::text::{from_chars, same_text, to_chars, trim, trimmed};
use crate::tracker::{ContextTracker, TrackerView};
use crate::types::{
    state_views, summary_views, text_view, texts, SessionKey, SessionKeyView, SessionMode, Snapshot,
    SnapshotView,
};

verus! {

/// The port of the broadcast server where none is given.
pub const DEFAULT_PORT: u16 = 17320;

/// The mode that the wire name `token` stands for.
pub open spec fn mode_of_token(token: Seq<char>) -> Option<SessionMode> {
    if token == "single_agent"@ {
        Some(SessionMode::SingleAgent)
    } else if token == "orchestrator"@ {
        Some(SessionMode::Orchestrator)
    } else {
        None
    }
}

/// The mode that the wire name `token` stands for.
pub fn parse_mode(token: &str) -> (r: Option<SessionMode>)
    ensures
        r == mode_of_token(token@),
{
    if same_text(token, "single_agent") {
        Some(SessionMode::SingleAgent)
    } else if same_text(token, "orchestrator") {
        Some(SessionMode::Orchestrator)
    } else {
        None
    }
}

/// What a stream filter holds.
pub enum StreamFilterView {
    All,
    Session(Seq<char>),
    Mode(SessionMode),
}

impl StreamFilterView {
    /// Whether the filter lets a line pass that carries the session
    /// `session_id` and the mode `session_mode`: every line, the lines of one
    /// session, or the lines of the sessions of one mode.
    pub open spec fn allows(self, session_id: Option<Seq<char>>, session_mode: Option<SessionMode>) -> bool {
        match self {
            StreamFilterView::All => true,
            StreamFilterView::Session(expected) => session_id == Some(expected),
            StreamFilterView::Mode(expected) => session_mode == Some(expected),
        }
    }

    /// The session that a line carries: the text of its member
    /// `session_id`, where it is JSON.
    pub open spec fn line_session(line: Seq<char>) -> Option<Seq<char>> {
        match json_parse(trim(line)) {
            Some(doc) => doc.text_field("session_id"@),
            None => None,
        }
    }

    /// The mode that a line carries: the mode that its member `session_mode`
    /// names, where it is JSON.
    pub open spec fn line_mode(line: Seq<char>) -> Option<SessionMode> {
        match json_parse(trim(line)) {
            Some(doc) => match doc.text_field("session_mode"@) {
                Some(token) => mode_of_token(token),
                None => None,
            },
            None => None,
        }
    }

    /// Whether the filter forwards the broadcast line `line`.
    pub open spec fn forwards(self, line: Seq<char>) -> bool {
        self is All || self.allows(Self::line_session(line), Self::line_mode(line))
    }

    /// The filter that an observer asks for: the session, where one is named;
    /// else the mode, where one is given; else every line.
    pub open spec fn chosen(session_id: Option<Seq<char>>, session_mode: Option<SessionMode>) -> StreamFilterView {
        match session_id {
            Some(id) => if id.len() > 0 {
                StreamFilterView::Session(id)
            } else {
                match session_mode {
                    Some(mode) => StreamFilterView::Mode(mode),
                    None => StreamFilterView::All,
                }
            },
            None => match session_mode {
                Some(mode) => StreamFilterView::Mode(mode),
                None => StreamFilterView::All,
            },
        }
    }
}

/// A connection without a filter forwards every broadcast line, whatever the
/// line holds: all such connections forward the same lines.
pub proof fn lemma_unfiltered_forwards_all(line: Seq<char>)
    ensures
        StreamFilterView::All.forwards(line),
{
}

/// A connection that filters by session forwards exactly the lines that
/// carry its session, and one that filters by mode exactly the lines that
/// carry its mode.
pub proof fn lemma_filter_forwards(filter: StreamFilterView, line: Seq<char>)
    ensures
        filter matches StreamFilterView::Session(id) ==> (filter.forwards(line)
            <==> StreamFilterView::line_session(line) == Some(id)),
        filter matches StreamFilterView::Mode(mode) ==> (filter.forwards(line)
            <==> StreamFilterView::line_mode(line) == Some(mode)),
{
}

/// Which broadcast lines an observer takes.
#[derive(Debug)]
pub enum StreamFilter {
    All,
    Session(String),
    Mode(SessionMode),
}

impl View for StreamFilter {
    type V = StreamFilterView;

    open spec fn view(&self) -> StreamFilterView {
        match self {
            StreamFilter::All => StreamFilterView::All,
            StreamFilter::Session(id) => StreamFilterView::Session(id@),
            StreamFilter::Mode(mode) => StreamFilterView::Mode(*mode),
        }
    }
}

/// The view of an optional text.
pub open spec fn str_view(text: Option<&str>) -> Option<Seq<char>> {
    match text {
        Some(t) => Some(t@),
        None => None,
    }
}

impl StreamFilter {
    /// Whether the filter lets a line pass that carries the session
    /// `session_id` and the mode `session_mode`.
    pub fn allows(&self, session_id: Option<&str>, session_mode: Option<SessionMode>) -> (r: bool)
        ensures
            r == self@.allows(str_view(session_id), session_mode),
    {
        match self {
            StreamFilter::All => true,
            StreamFilter::Session(expected) => match session_id {
                Some(id) => same_text(id, expected.as_str()),
                None => false,
            },
            StreamFilter::Mode(expected) => match session_mode {
                Some(mode) => match (mode, *expected) {
                    (SessionMode::SingleAgent, SessionMode::SingleAgent) => true,
                    (SessionMode::Orchestrator, SessionMode::Orchestrator) => true,
                    _ => false,
                },
                None => false,
            },
        }
    }

    /// Whether the filter forwards the broadcast line `line`. The filter for
    /// every line forwards without a look at the line; the other filters
    /// forward a line that is JSON and carries their session or their mode.
    pub fn forwards(&self, line: &str) -> (r: bool)
        ensures
            r == self@.forwards(line@),
            self@ is All ==> r,
    {
        match self {
            StreamFilter::All => {
                return true;
            },
            _ => {},
        }
        let chars = to_chars(line);
        let inner = from_chars(&trimmed(&chars));
        match parse(inner.as_str()) {
            Some(doc) => {
                let session_id = text_field(&doc, "session_id");
                let session_mode = match text_field(&doc, "session_mode") {
                    Some(token) => parse_mode(token),
                    None => None,
                };
                self.allows(session_id, session_mode)
            },
            None => self.allows(None, None),
        }
    }

    /// The filter that an observer asks for.
    pub fn select(session_id: Option<String>, session_mode: Option<SessionMode>) -> (r: Self)
        ensures
            r@ == StreamFilterView::chosen(text_view(session_id), session_mode),
    {
        match session_id {
            Some(id) => {
                if !id.as_str().is_empty() {
                    return StreamFilter::Session(id);
                }
            },
            None => {},
        }
        match session_mode {
            Some(mode) => StreamFilter::Mode(mode),
            None => StreamFilter::All,
        }
    }
}

/// What a message of an observer holds.
pub enum ClientMessageView {
    RequestSnapshot { session_id: Option<Seq<char>> },
    SetStreamFilter { session_id: Option<Seq<char>>, session_mode: Option<SessionMode> },
    Rpc { id: Seq<char>, method: Seq<char>, params: Option<JsonView> },
}

/// A message of an observer to the server.
#[derive(Debug)]
pub enum ClientMessage {
    /// Asks for a snapshot, of the session named or of the one that the
    /// server resolves.
    RequestSnapshot { session_id: Option<String> },
    /// Sets the filter of the connection.
    SetStreamFilter { session_id: Option<String>, session_mode: Option<SessionMode> },
    /// Calls a method of the session registry.
    Rpc { id: String, method: String, params: Option<Value> },
}

impl View for ClientMessage {
    type V = ClientMessageView;

    open spec fn view(&self) -> ClientMessageView {
        match self {
            ClientMessage::RequestSnapshot { session_id } => ClientMessageView::RequestSnapshot {
                session_id: text_view(*session_id),
            },
            ClientMessage::SetStreamFilter {
                session_id,
                session_mode,
            } => ClientMessageView::SetStreamFilter {
                session_id: text_view(*session_id),
                session_mode: *session_mode,
            },
            ClientMessage::Rpc { id, method, params } => ClientMessageView::Rpc {
                id: id@,
                method: method@,
                params: match params {
                    Some(p) => Some(json_view(*p)),
                    None => None,
                },
            },
        }
    }
}

/// An optional member that is a string: `Some(None)` where the member is
/// missing or `null`, the text where it is a string, and `None` where it is
/// anything else.
pub open spec fn optional_text(doc: JsonView, key: Seq<char>) -> Option<Option<Seq<char>>> {
    match doc.given(key) {
        None => Some(None),
        Some(JsonView::Text(s)) => Some(Some(s)),
        Some(_) => None,
    }
}

/// An optional member that names a mode: `Some(None)` where the member is
/// missing or `null`, the mode where it names one, and `None` where it is
/// anything else.
pub open spec fn optional_mode(doc: JsonView, key: Seq<char>) -> Option<Option<SessionMode>> {
    match doc.given(key) {
        None => Some(None),
        Some(JsonView::Text(s)) => match mode_of_token(s) {
            Some(mode) => Some(Some(mode)),
            None => None,
        },
        Some(_) => None,
    }
}

/// The message that the JSON value `doc` is: its member `type` says which
/// of the three, and its other members have to fit; `None` for any other
/// value.
pub open spec fn decoded(doc: JsonView) -> Option<ClientMessageView> {
    match doc.text_field("type"@) {
        Some(kind) => if kind == "request_snapshot"@ {
            match optional_text(doc, "session_id"@) {
                Some(session_id) => Some(ClientMessageView::RequestSnapshot { session_id }),
                None => None,
            }
        } else if kind == "set_stream_filter"@ {
            match (optional_text(doc, "session_id"@), optional_mode(doc, "session_mode"@)) {
                (Some(session_id), Some(session_mode)) => Some(
                    ClientMessageView::SetStreamFilter { session_id, session_mode },
                ),
                _ => None,
            }
        } else if kind == "rpc"@ {
            match (doc.text_field("id"@), doc.text_field("method"@)) {
                (Some(id), Some(method)) => Some(
                    ClientMessageView::Rpc { id, method, params: doc.given("params"@) },
                ),
                _ => None,
            }
        } else {
            None
        },
        None => None,
    }
}

/// The message that the line `line` of an observer is; `None` for a line
/// that is no JSON and for JSON that is none of the messages.
pub open spec fn client_message(line: Seq<char>) -> Option<ClientMessageView> {
    match json_parse(trim(line)) {
        Some(doc) => decoded(doc),
        None => None,
    }
}

/// An optional member of `doc` that is a string.
pub fn read_optional_text(doc: &Value, key: &str) -> (r: Option<Option<String>>)
    ensures
        match r {
            Some(t) => optional_text(json_view(*doc), key@) == Some(text_view(t)),
            None => optional_text(json_view(*doc), key@) is None,
        },
{
    match given(doc, key) {
        None => Some(None),
        Some(v) => match v.as_str() {
            Some(s) => Some(Some(s.to_owned())),
            None => None,
        },
    }
}

/// An optional member of `doc` that names a mode.
pub fn read_optional_mode(doc: &Value, key: &str) -> (r: Option<Option<SessionMode>>)
    ensures
        r == optional_mode(json_view(*doc), key@),
{
    match given(doc, key) {
        None => Some(None),
        Some(v) => match v.as_str() {
            Some(s) => match parse_mode(s) {
                Some(mode) => Some(Some(mode)),
                None => None,
            },
            None => None,
        },
    }
}

/// The message that the JSON value `doc` is.
pub fn decode_message(doc: &Value) -> (r: Option<ClientMessage>)
    ensures
        match r {
            Some(m) => decoded(json_view(*doc)) == Some(m@),
            None => decoded(json_view(*doc)) is None,
        },
{
    let kind = match text_field(doc, "type") {
        Some(k) => k,
        None => {
            return None;
        },
    };
    if same_text(kind, "request_snapshot") {
        match read_optional_text(doc, "session_id") {
            Some(session_id) => Some(ClientMessage::RequestSnapshot { session_id }),
            None => None,
        }
    } else if same_text(kind, "set_stream_filter") {
        let session_id = read_optional_text(doc, "session_id");
        let session_mode = read_optional_mode(doc, "session_mode");
        match (session_id, session_mode) {
            (Some(session_id), Some(session_mode)) => Some(
                ClientMessage::SetStreamFilter { session_id, session_mode },
            ),
            _ => None,
        }
    } else if same_text(kind, "rpc") {
        let id = text_field(doc, "id");
        let method = text_field(doc, "method");
        match (id, method) {
            (Some(id), Some(method)) => {
                let params = match given(doc, "params") {
                    Some(p) => Some(p.clone()),
                    None => None,
                };
                Some(ClientMessage::Rpc { id: id.to_owned(), method: method.to_owned(), params })
            },
            _ => None,
        }
    } else {
        None
    }
}

/// The message that the line `line` of an observer is.
pub fn decode_client_line(line: &str) -> (r: Option<ClientMessage>)
    ensures
        match r {
            Some(m) => client_message(line@) == Some(m@),
            None => client_message(line@) is None,
        },
{
    let chars = to_chars(line);
    let inner = from_chars(&trimmed(&chars));
    match parse(inner.as_str()) {
        Some(doc) => decode_message(&doc),
        None => None,
    }
}

/// The session `session_id` of the tracker's agent.
pub open spec fn own_key(t: TrackerView, session_id: Seq<char>) -> SessionKeyView {
    SessionKeyView { agent_id: t.agent_id, session_id }
}

/// Whether `k` is a session that a filter for the mode `mode` may show: an
/// orchestrator of the registry, or a single-agent session of the tracker's
/// agent.
pub open spec fn of_mode(reg: RegistryView, t: TrackerView, mode: SessionMode, k: SessionKeyView) -> bool {
    &&& reg.sessions.contains_key(k)
    &&& reg.sessions[k].mode == mode
    &&& mode == SessionMode::Orchestrator || k.agent_id == t.agent_id
}

/// Whether `target` is the session that is shown where neither a request nor
/// a filter decides: the active session of the registry; else the current
/// session of the tracker, if it has a name; else some session that the
/// tracker holds; else none.
pub open spec fn falls_back(target: Option<SessionKeyView>, reg: RegistryView, t: TrackerView) -> bool {
    match reg.active {
        Some(k) => target == Some(k),
        None => if t.session_id.len() > 0 {
            target == Some(own_key(t, t.session_id))
        } else if exists|s: Seq<char>| t.parked.contains_key(s) {
            target matches Some(k) && k.agent_id == t.agent_id && t.parked.contains_key(
                k.session_id,
            )
        } else {
            target is None
        },
    }
}

/// Whether `target` is the session that a snapshot shows: the session that
/// the request names; else the session of the filter; else, for a filter by
/// mode, a session of that mode, among single-agent sessions one with the
/// latest update; else the session that the fallback gives.
pub open spec fn resolves(
    target: Option<SessionKeyView>,
    requested: Option<Seq<char>>,
    filter: StreamFilterView,
    reg: RegistryView,
    t: TrackerView,
) -> bool {
    match requested {
        Some(id) => target == Some(own_key(t, id)),
        None => match filter {
            StreamFilterView::Session(id) => target == Some(own_key(t, id)),
            StreamFilterView::Mode(mode) => if exists|k: SessionKeyView| of_mode(reg, t, mode, k) {
                target matches Some(k) && of_mode(reg, t, mode, k) && (mode
                    == SessionMode::SingleAgent ==> forall|other: SessionKeyView|
                    of_mode(reg, t, mode, other) ==> reg.sessions[k].updated_at_ms
                        >= reg.sessions[other].updated_at_ms)
            } else {
                falls_back(target, reg, t)
            },
            StreamFilterView::All => falls_back(target, reg, t),
        },
    }
}

/// The session that a filter for the mode `mode` shows, if the registry has
/// one.
fn pick_by_mode(registry: &SessionRegistry, tracker: &ContextTracker, mode: SessionMode) -> (r:
    Option<SessionKey>)
    requires
        registry.wf(),
    ensures
        match r {
            Some(k) => of_mode(registry@, tracker@, mode, k@) && (mode == SessionMode::SingleAgent
                ==> forall|other: SessionKeyView|
                of_mode(registry@, tracker@, mode, other) ==> registry@.sessions[k@].updated_at_ms
                    >= registry@.sessions[other].updated_at_ms),
            None => forall|k: SessionKeyView| !of_mode(registry@, tracker@, mode, k),
        },
{
    let ghost reg = registry@;
    let ghost t = tracker@;
    proof {
        registry.lemma_wf_valid();
    }
    match mode {
        SessionMode::Orchestrator => {
            let list = registry.orchestrator_sessions();
            let ghost views = state_views(list@);
            if list.len() > 0 {
                assert(views[0] == list@[0]@);
                assert(reg.sessions.contains_key(views[0].key()) && wanted(true, views[0]));
                Some(list[0].key())
            } else {
                proof {
                    assert forall|k: SessionKeyView| !of_mode(reg, t, mode, k) by {
                        if of_mode(reg, t, mode, k) {
                            assert(wanted(true, reg.sessions[k]));
                            let a = choose|a: int|
                                0 <= a < views.len() && (#[trigger] views[a]).key() == k;
                        }
                    }
                }
                None
            }
        },
        SessionMode::SingleAgent => {
            let lines = registry.list_sessions(Some(tracker.agent_id()));
            let ghost views = summary_views(lines@);
            let mut i: usize = 0;
            while i < lines.len()
                invariant
                    i <= lines.len(),
                    views == summary_views(lines@),
                    reg == registry@,
                    reg.valid(),
                    t == tracker@,
                    mode == SessionMode::SingleAgent,
                    lists_summaries(views, reg, Some(t.agent_id)),
                    latest_first(views),
                    forall|j: int| 0 <= j < i ==> (#[trigger] views[j]).mode != mode,
                decreases lines.len() - i,
            {
                assert(views[i as int] == lines@[i as int]@);
                let found = match lines[i].mode {
                    SessionMode::SingleAgent => true,
                    SessionMode::Orchestrator => false,
                };
                if found {
                    let key = SessionKey::new(
                        lines[i].agent_id.as_str(),
                        lines[i].session_id.as_str(),
                    );
                    proof {
                        assert(key@ == views[i as int].key());
                        assert(reg.sessions.contains_key(views[i as int].key()));
                        assert forall|other: SessionKeyView|
                            of_mode(reg, t, mode, other) implies reg.sessions[key@].updated_at_ms
                            >= reg.sessions[other].updated_at_ms by {
                            assert(reg.sessions[other].key() == other);
                            assert(RegistryView::shown(Some(t.agent_id), reg.sessions[other]));
                            let a = choose|a: int|
                                0 <= a < views.len() && (#[trigger] views[a]).key() == other;
                            assert(views[a] == reg.sessions[views[a].key()].summary_line(
                                reg.is_active(views[a].key()),
                            ));
                            assert(a >= i);
                            if a > i {
                                assert(views[i as int].updated_at_ms >= views[a].updated_at_ms);
                            }
                        }
                    }
                    return Some(key);
                }
                i = i + 1;
            }
            proof {
                assert forall|k: SessionKeyView| !of_mode(reg, t, mode, k) by {
                    if of_mode(reg, t, mode, k) {
                        assert(reg.sessions[k].key() == k);
                        assert(RegistryView::shown(Some(t.agent_id), reg.sessions[k]));
                        let a = choose|a: int|
                            0 <= a < views.len() && (#[trigger] views[a]).key() == k;
                        assert(views[a] == reg.sessions[views[a].key()].summary_line(
                            reg.is_active(views[a].key()),
                        ));
                    }
                }
            }
            None
        },
    }
}

/// The session that is shown where neither a request nor a filter decides.
fn fall_back(registry: &SessionRegistry, tracker: &ContextTracker) -> (r: Option<SessionKey>)
    requires
        registry.wf(),
        tracker.wf(),
    ensures
        falls_back(key_view(r), registry@, tracker@),
{
    match registry.active_session() {
        Some(k) => {
            return Some(k);
        },
        None => {},
    }
    if !tracker.session_id().is_empty() {
        return Some(SessionKey::new(tracker.agent_id(), tracker.session_id()));
    }
    let ids = tracker.session_ids();
    if ids.len() > 0 {
        proof {
            assert(texts(ids@).contains(texts(ids@)[0]));
            assert(tracker@.sessions().contains(ids@[0]@));
        }
        Some(SessionKey::new(tracker.agent_id(), ids[0].as_str()))
    } else {
        proof {
            if exists|s: Seq<char>| tracker@.parked.contains_key(s) {
                let s = choose|s: Seq<char>| tracker@.parked.contains_key(s);
                assert(tracker@.sessions().contains(s));
                assert(texts(ids@).contains(s));
            }
        }
        None
    }
}

/// The session that a snapshot shows for the request `requested` under the
/// filter `filter`.
pub fn resolve_target(
    requested: Option<&str>,
    filter: &StreamFilter,
    registry: &SessionRegistry,
    tracker: &ContextTracker,
) -> (r: Option<SessionKey>)
    requires
        registry.wf(),
        tracker.wf(),
    ensures
        resolves(key_view(r), str_view(requested), filter@, registry@, tracker@),
{
    match requested {
        Some(id) => {
            return Some(SessionKey::new(tracker.agent_id(), id));
        },
        None => {},
    }
    match filter {
        StreamFilter::Session(id) => Some(SessionKey::new(tracker.agent_id(), id.as_str())),
        StreamFilter::Mode(mode) => {
            match pick_by_mode(registry, tracker, *mode) {
                Some(k) => Some(k),
                None => fall_back(registry, tracker),
            }
        },
        StreamFilter::All => fall_back(registry, tracker),
    }
}

/// The snapshot that is served for the session `target`: the merged table of
/// an orchestrator, the table that the tracker holds for any other session,
/// and the current table of the tracker where there is no session.
pub open spec fn served_snapshot(
    target: Option<SessionKeyView>,
    agg: AggregatorView,
    reg: RegistryView,
    t: TrackerView,
) -> SnapshotView {
    match target {
        Some(k) => if AggregatorView::orchestrates(reg, k) {
            SnapshotView {
                msg_type: "snapshot"@,
                agent_id: t.agent_id,
                session_id: reg.sessions[k].session_id,
                session_mode: SessionMode::Orchestrator,
                seq: agg.renewed(k, reg.sessions[k].providers, t).seq,
                nodes: aggregate(reg.sessions[k].providers, t),
            }
        } else {
            t.snapshot_of(k.session_id)
        },
        None => t.snapshot_of(t.session_id),
    }
}

/// The aggregator after the snapshot for the session `target` was served.
pub open spec fn served_aggregator(
    target: Option<SessionKeyView>,
    agg: AggregatorView,
    reg: RegistryView,
    t: TrackerView,
) -> AggregatorView {
    match target {
        Some(k) => if AggregatorView::orchestrates(reg, k) {
            agg.served(reg.sessions[k], t)
        } else {
            agg
        },
        None => agg,
    }
}

/// Serves a snapshot for the request `requested` under the filter `filter`:
/// resolves the session, and hands out its snapshot.
pub fn resolve_snapshot(
    tracker: &ContextTracker,
    registry: &SessionRegistry,
    orchestrator: &mut OrchestratorAggregator,
    requested: Option<&str>,
    filter: &StreamFilter,
) -> (r: Snapshot)
    requires
        tracker.wf(),
        registry.wf(),
        old(orchestrator).wf(),
        old(orchestrator)@.has_room(),
    ensures
        final(orchestrator).wf(),
        r.nodes.wf(),
        exists|target: Option<SessionKeyView>|
            resolves(target, str_view(requested), filter@, registry@, tracker@) && r@
                == served_snapshot(target, old(orchestrator)@, registry@, tracker@)
                && final(orchestrator)@ == served_aggregator(
                target,
                old(orchestrator)@,
                registry@,
                tracker@,
            ),
{
    let target = resolve_target(requested, filter, registry, tracker);
    let ghost tv = key_view(target);
    proof {
        registry.lemma_wf_valid();
    }
    match &target {
        Some(key) => {
            match registry.get_session_state(key) {
                Some(state) => {
                    let merged = match state.mode {
                        SessionMode::Orchestrator => true,
                        SessionMode::SingleAgent => false,
                    };
                    if merged {
                        assert(state@.key() == key@);
                        let r = orchestrator.snapshot_for_session(&state, tracker);
                        assert(r@ == served_snapshot(tv, old(orchestrator)@, registry@, tracker@));
                        return r;
                    }
                },
                None => {},
            }
            let r = tracker.snapshot_for_session(key.session_id.as_str());
            assert(r@ == served_snapshot(tv, old(orchestrator)@, registry@, tracker@));
            r
        },
        None => {
            let r = tracker.snapshot();
            assert(r@ == served_snapshot(tv, old(orchestrator)@, registry@, tracker@));
            r
        },
    }
}

} // verus!
