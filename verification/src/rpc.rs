//! The calls that an observer makes on the session registry.
//!
//! A call comes as a method name with parameters in JSON. It is decoded,
//! carried out on the registry, and, where it changes the mode or the
//! choice of the current session, on the tracker.

use vstd::prelude::*;
use serde_json::Value;
use crate::clock::now_ms;
use crate::json::{given, json_render, json_view, json_views, render, text_field, JsonView};
use crate::session_registry::{
    key_view, keys_view, latest_first, lists_summaries, texts_view, RegistryView, SessionDraft,
    SessionDraftView, SessionRegistry,
};
use crate::tcp::{mode_of_token, optional_text, parse_mode, read_optional_text};
use crate::text::same_text;
use crate::tracker::{ContextTracker, TrackerView};
use crate::types::{
    key_views, model_view, summary_views, text_view, texts, SessionKey, SessionKeyView,
    SessionMode, SessionModel, SessionModelView, SessionState, SessionStateView, SessionSummary,
};

verus! {

/// The session that JSON parameters name: their members `agent_id` and
/// `session_id`, both strings.
pub open spec fn key_of(params: JsonView) -> Option<SessionKeyView> {
    match (params.text_field("agent_id"@), params.text_field("session_id"@)) {
        (Some(agent_id), Some(session_id)) => Some(SessionKeyView { agent_id, session_id }),
        _ => None,
    }
}

/// The sessions that the JSON values `items` name; `None` where one of them
/// names none.
pub open spec fn keys_of(items: Seq<JsonView>) -> Option<Seq<SessionKeyView>>
    decreases items.len(),
{
    if items.len() == 0 {
        Some(Seq::empty())
    } else {
        match (keys_of(items.drop_last()), key_of(items.last())) {
            (Some(keys), Some(key)) => Some(keys.push(key)),
            _ => None,
        }
    }
}

/// The JSON values `items`, each as its text.
pub open spec fn texts_of(items: Seq<JsonView>) -> Seq<Seq<char>> {
    items.map_values(|v: JsonView| json_render(v))
}

/// An optional member that is a list of JSON values: `Some(None)` where the
/// member is missing or `null`, the texts of the items where it is an array,
/// and `None` where it is anything else.
pub open spec fn optional_items(params: JsonView, key: Seq<char>) -> Option<Option<Seq<Seq<char>>>> {
    match params.given(key) {
        None => Some(None),
        Some(JsonView::Array(items)) => Some(Some(texts_of(items))),
        Some(_) => None,
    }
}

/// An optional member that is a list of sessions.
pub open spec fn optional_keys(params: JsonView, key: Seq<char>) -> Option<Option<Seq<SessionKeyView>>> {
    match params.given(key) {
        None => Some(None),
        Some(JsonView::Array(items)) => match keys_of(items) {
            Some(keys) => Some(Some(keys)),
            None => None,
        },
        Some(_) => None,
    }
}

/// The model that a JSON value describes: its member `model_id`, a string,
/// and its optional member `name`.
pub open spec fn model_of(v: JsonView) -> Option<SessionModelView> {
    match (v.text_field("model_id"@), optional_text(v, "name"@)) {
        (Some(model_id), Some(name)) => Some(SessionModelView { model_id, name }),
        _ => None,
    }
}

/// An optional member that describes a model.
pub open spec fn optional_model(params: JsonView, key: Seq<char>) -> Option<Option<SessionModelView>> {
    match params.given(key) {
        None => Some(None),
        Some(v) => match model_of(v) {
            Some(model) => Some(Some(model)),
            None => None,
        },
    }
}

/// The mode that the member `mode` of the parameters names.
pub open spec fn mode_field(params: JsonView) -> Option<SessionMode> {
    match params.text_field("mode"@) {
        Some(token) => mode_of_token(token),
        None => None,
    }
}

/// The request to create a session that JSON parameters make.
pub open spec fn draft_of(params: JsonView) -> Option<SessionDraftView> {
    match (
        key_of(params),
        mode_field(params),
        optional_model(params, "model"@),
        optional_text(params, "summary"@),
        optional_items(params, "history"@),
        optional_items(params, "context"@),
        optional_keys(params, "providers"@),
    ) {
        (
            Some(key),
            Some(mode),
            Some(model),
            Some(summary),
            Some(history),
            Some(context),
            Some(providers),
        ) => Some(
            SessionDraftView {
                agent_id: key.agent_id,
                session_id: key.session_id,
                mode,
                model,
                summary,
                history,
                context,
                providers,
            },
        ),
        _ => None,
    }
}

/// What a call on the registry holds.
pub enum RpcCallView {
    ListSessions { agent_id: Option<Seq<char>> },
    CreateSession(SessionDraftView),
    CloseSession(SessionKeyView),
    SetActiveSession(SessionKeyView),
    SetOrchestratorProviders { key: SessionKeyView, providers: Seq<SessionKeyView> },
    GetSessionState(SessionKeyView),
    AddContextItems { key: SessionKeyView, items: Seq<Seq<char>> },
    /// A known method that needs parameters and got none.
    MissingParams,
    /// A known method whose parameters do not fit.
    BadParams,
    /// A method that the registry does not have.
    Unknown,
}

/// A call on the registry.
#[derive(Debug)]
pub enum RpcCall {
    ListSessions { agent_id: Option<String> },
    CreateSession(SessionDraft),
    CloseSession(SessionKey),
    SetActiveSession(SessionKey),
    SetOrchestratorProviders { key: SessionKey, providers: Vec<SessionKey> },
    GetSessionState(SessionKey),
    AddContextItems { key: SessionKey, items: Vec<String> },
    /// A known method that needs parameters and got none.
    MissingParams,
    /// A known method whose parameters do not fit.
    BadParams,
    /// A method that the registry does not have.
    Unknown,
}

impl View for RpcCall {
    type V = RpcCallView;

    open spec fn view(&self) -> RpcCallView {
        match self {
            RpcCall::ListSessions { agent_id } => RpcCallView::ListSessions {
                agent_id: text_view(*agent_id),
            },
            RpcCall::CreateSession(draft) => RpcCallView::CreateSession(draft@),
            RpcCall::CloseSession(key) => RpcCallView::CloseSession(key@),
            RpcCall::SetActiveSession(key) => RpcCallView::SetActiveSession(key@),
            RpcCall::SetOrchestratorProviders {
                key,
                providers,
            } => RpcCallView::SetOrchestratorProviders {
                key: key@,
                providers: key_views(providers@),
            },
            RpcCall::GetSessionState(key) => RpcCallView::GetSessionState(key@),
            RpcCall::AddContextItems { key, items } => RpcCallView::AddContextItems {
                key: key@,
                items: texts(items@),
            },
            RpcCall::MissingParams => RpcCallView::MissingParams,
            RpcCall::BadParams => RpcCallView::BadParams,
            RpcCall::Unknown => RpcCallView::Unknown,
        }
    }
}

/// The call that names one session, or `BadParams`.
pub open spec fn keyed_call(
    params: Option<JsonView>,
    make: spec_fn(SessionKeyView) -> RpcCallView,
) -> RpcCallView {
    match params {
        None => RpcCallView::MissingParams,
        Some(p) => match key_of(p) {
            Some(key) => make(key),
            None => RpcCallView::BadParams,
        },
    }
}

/// The call that the method `method` with the parameters `params` makes.
pub open spec fn call_of(method: Seq<char>, params: Option<JsonView>) -> RpcCallView {
    if method == "list_sessions"@ {
        match params {
            None => RpcCallView::ListSessions { agent_id: None },
            Some(p) => match optional_text(p, "agent_id"@) {
                Some(agent_id) => if p is Object {
                    RpcCallView::ListSessions { agent_id }
                } else {
                    RpcCallView::BadParams
                },
                None => RpcCallView::BadParams,
            },
        }
    } else if method == "create_session"@ {
        match params {
            None => RpcCallView::MissingParams,
            Some(p) => match draft_of(p) {
                Some(draft) => RpcCallView::CreateSession(draft),
                None => RpcCallView::BadParams,
            },
        }
    } else if method == "close_session"@ {
        keyed_call(params, |k: SessionKeyView| RpcCallView::CloseSession(k))
    } else if method == "set_active_session"@ {
        keyed_call(params, |k: SessionKeyView| RpcCallView::SetActiveSession(k))
    } else if method == "set_orchestrator_providers"@ {
        match params {
            None => RpcCallView::MissingParams,
            Some(p) => match (key_of(p), optional_keys(p, "providers"@)) {
                (Some(key), Some(Some(providers))) => RpcCallView::SetOrchestratorProviders {
                    key,
                    providers,
                },
                _ => RpcCallView::BadParams,
            },
        }
    } else if method == "get_session_state"@ {
        keyed_call(params, |k: SessionKeyView| RpcCallView::GetSessionState(k))
    } else if method == "add_context_items"@ {
        match params {
            None => RpcCallView::MissingParams,
            Some(p) => match (key_of(p), optional_items(p, "items"@)) {
                (Some(key), Some(Some(items))) => RpcCallView::AddContextItems { key, items },
                _ => RpcCallView::BadParams,
            },
        }
    } else {
        RpcCallView::Unknown
    }
}

/// The session that JSON parameters name.
pub fn read_key(params: &Value) -> (r: Option<SessionKey>)
    ensures
        key_view(r) == key_of(json_view(*params)),
{
    let agent_id = text_field(params, "agent_id");
    let session_id = text_field(params, "session_id");
    match (agent_id, session_id) {
        (Some(a), Some(s)) => Some(SessionKey::new(a, s)),
        _ => None,
    }
}

/// The sessions that the JSON values `items` name.
pub fn read_keys(items: &Vec<Value>) -> (r: Option<Vec<SessionKey>>)
    ensures
        keys_view(r) == keys_of(json_views(items@)),
{
    let ghost all = json_views(items@);
    let mut out: Vec<SessionKey> = Vec::new();
    let mut i: usize = 0;
    assert(all.take(0) =~= Seq::empty());
    assert(key_views(out@) =~= Seq::empty());
    while i < items.len()
        invariant
            i <= items.len(),
            all == json_views(items@),
            keys_of(all.take(i as int)) == Some(key_views(out@)),
        decreases items.len() - i,
    {
        assert(all.take(i + 1).drop_last() == all.take(i as int));
        assert(all.take(i + 1).last() == json_view(items@[i as int]));
        match read_key(&items[i]) {
            Some(key) => {
                let ghost before = key_views(out@);
                out.push(key);
                assert(key_views(out@) =~= before.push(key@));
            },
            None => {
                proof {
                    lemma_keys_fail(all, i + 1);
                }
                return None;
            },
        }
        i = i + 1;
    }
    assert(all.take(items.len() as int) == all);
    Some(out)
}

/// Where the first `k` values name no list of sessions, neither do all.
pub proof fn lemma_keys_fail(items: Seq<JsonView>, k: int)
    requires
        0 <= k <= items.len(),
        keys_of(items.take(k)) is None,
    ensures
        keys_of(items) is None,
    decreases items.len(),
{
    if k < items.len() {
        assert(items.drop_last().take(k) == items.take(k));
        lemma_keys_fail(items.drop_last(), k);
    } else {
        assert(items.take(k) == items);
    }
}

/// The JSON values `items`, each as its text.
pub fn read_items(items: &Vec<Value>) -> (r: Vec<String>)
    ensures
        texts(r@) == texts_of(json_views(items@)),
{
    let ghost all = texts_of(json_views(items@));
    let mut out: Vec<String> = Vec::new();
    let mut i: usize = 0;
    assert(texts(out@) =~= all.take(0));
    while i < items.len()
        invariant
            i <= items.len(),
            all == texts_of(json_views(items@)),
            texts(out@) == all.take(i as int),
        decreases items.len() - i,
    {
        let ghost before = texts(out@);
        let text = render(&items[i]);
        out.push(text);
        assert(texts(out@) =~= before.push(text@));
        assert(all.take(i + 1) =~= all.take(i as int).push(all[i as int]));
        i = i + 1;
    }
    assert(all.take(items.len() as int) =~= all);
    out
}

/// An optional member that is a list of JSON values.
pub fn read_optional_items(params: &Value, key: &str) -> (r: Option<Option<Vec<String>>>)
    ensures
        match r {
            Some(items) => optional_items(json_view(*params), key@) == Some(texts_view(items)),
            None => optional_items(json_view(*params), key@) is None,
        },
{
    match given(params, key) {
        None => Some(None),
        Some(v) => match v.as_array() {
            Some(items) => Some(Some(read_items(items))),
            None => None,
        },
    }
}

/// An optional member that is a list of sessions.
pub fn read_optional_keys(params: &Value, key: &str) -> (r: Option<Option<Vec<SessionKey>>>)
    ensures
        match r {
            Some(keys) => optional_keys(json_view(*params), key@) == Some(keys_view(keys)),
            None => optional_keys(json_view(*params), key@) is None,
        },
{
    match given(params, key) {
        None => Some(None),
        Some(v) => match v.as_array() {
            Some(items) => match read_keys(items) {
                Some(keys) => Some(Some(keys)),
                None => None,
            },
            None => None,
        },
    }
}

/// An optional member that describes a model.
pub fn read_optional_model(params: &Value, key: &str) -> (r: Option<Option<SessionModel>>)
    ensures
        match r {
            Some(model) => optional_model(json_view(*params), key@) == Some(model_view(model)),
            None => optional_model(json_view(*params), key@) is None,
        },
{
    match given(params, key) {
        None => Some(None),
        Some(v) => {
            let model_id = text_field(v, "model_id");
            let name = read_optional_text(v, "name");
            match (model_id, name) {
                (Some(model_id), Some(name)) => Some(
                    Some(SessionModel { model_id: model_id.to_owned(), name }),
                ),
                _ => None,
            }
        },
    }
}

/// The request to create a session that JSON parameters make.
pub fn read_draft(params: &Value) -> (r: Option<SessionDraft>)
    ensures
        match r {
            Some(draft) => draft_of(json_view(*params)) == Some(draft@),
            None => draft_of(json_view(*params)) is None,
        },
{
    let key = read_key(params);
    let mode = match text_field(params, "mode") {
        Some(token) => parse_mode(token),
        None => None,
    };
    let model = read_optional_model(params, "model");
    let summary = read_optional_text(params, "summary");
    let history = read_optional_items(params, "history");
    let context = read_optional_items(params, "context");
    let providers = read_optional_keys(params, "providers");
    match (key, mode, model, summary, history, context, providers) {
        (
            Some(key),
            Some(mode),
            Some(model),
            Some(summary),
            Some(history),
            Some(context),
            Some(providers),
        ) => Some(
            SessionDraft {
                agent_id: key.agent_id,
                session_id: key.session_id,
                mode,
                model,
                summary,
                history,
                context,
                providers,
            },
        ),
        _ => None,
    }
}

/// The view of optional parameters.
pub open spec fn params_view(params: Option<&Value>) -> Option<JsonView> {
    match params {
        Some(p) => Some(json_view(*p)),
        None => None,
    }
}

/// The call that the method `method` with the parameters `params` makes.
pub fn decode_call(method: &str, params: Option<&Value>) -> (r: RpcCall)
    ensures
        r@ == call_of(method@, params_view(params)),
{
    if same_text(method, "list_sessions") {
        match params {
            None => RpcCall::ListSessions { agent_id: None },
            Some(p) => match read_optional_text(p, "agent_id") {
                Some(agent_id) => if p.is_object() {
                    RpcCall::ListSessions { agent_id }
                } else {
                    RpcCall::BadParams
                },
                None => RpcCall::BadParams,
            },
        }
    } else if same_text(method, "create_session") {
        match params {
            None => RpcCall::MissingParams,
            Some(p) => match read_draft(p) {
                Some(draft) => RpcCall::CreateSession(draft),
                None => RpcCall::BadParams,
            },
        }
    } else if same_text(method, "close_session") {
        match params {
            None => RpcCall::MissingParams,
            Some(p) => match read_key(p) {
                Some(key) => RpcCall::CloseSession(key),
                None => RpcCall::BadParams,
            },
        }
    } else if same_text(method, "set_active_session") {
        match params {
            None => RpcCall::MissingParams,
            Some(p) => match read_key(p) {
                Some(key) => RpcCall::SetActiveSession(key),
                None => RpcCall::BadParams,
            },
        }
    } else if same_text(method, "set_orchestrator_providers") {
        match params {
            None => RpcCall::MissingParams,
            Some(p) => {
                let key = read_key(p);
                let providers = read_optional_keys(p, "providers");
                match (key, providers) {
                    (Some(key), Some(Some(providers))) => RpcCall::SetOrchestratorProviders {
                        key,
                        providers,
                    },
                    _ => RpcCall::BadParams,
                }
            },
        }
    } else if same_text(method, "get_session_state") {
        match params {
            None => RpcCall::MissingParams,
            Some(p) => match read_key(p) {
                Some(key) => RpcCall::GetSessionState(key),
                None => RpcCall::BadParams,
            },
        }
    } else if same_text(method, "add_context_items") {
        match params {
            None => RpcCall::MissingParams,
            Some(p) => {
                let key = read_key(p);
                let items = read_optional_items(p, "items");
                match (key, items) {
                    (Some(key), Some(Some(items))) => RpcCall::AddContextItems { key, items },
                    _ => RpcCall::BadParams,
                }
            },
        }
    } else {
        RpcCall::Unknown
    }
}

/// What the outcome of a call holds.
pub enum RpcOutcomeView {
    Sessions(Seq<crate::types::SessionSummaryView>),
    Session(SessionStateView),
    Closed(bool),
    Active,
    Error { code: u32, message: Seq<char> },
}

/// The outcome of a call on the registry.
#[derive(Debug)]
pub enum RpcOutcome {
    /// The lines of the sessions.
    Sessions(Vec<SessionSummary>),
    /// The entry of a session.
    Session(SessionState),
    /// Whether a session was closed.
    Closed(bool),
    /// The session is active now.
    Active,
    /// The call failed: 400 for parameters that do not fit, 404 for a session
    /// or a method that is not there.
    Error { code: u32, message: String },
}

impl View for RpcOutcome {
    type V = RpcOutcomeView;

    open spec fn view(&self) -> RpcOutcomeView {
        match self {
            RpcOutcome::Sessions(list) => RpcOutcomeView::Sessions(summary_views(list@)),
            RpcOutcome::Session(s) => RpcOutcomeView::Session(s@),
            RpcOutcome::Closed(closed) => RpcOutcomeView::Closed(*closed),
            RpcOutcome::Active => RpcOutcomeView::Active,
            RpcOutcome::Error { code, message } => RpcOutcomeView::Error {
                code: *code,
                message: message@,
            },
        }
    }
}

/// The response to a call: the identifier of the call with its outcome.
#[derive(Debug)]
pub struct RpcResponse {
    pub id: String,
    pub outcome: RpcOutcome,
    /// Whether the call wrote to the registry, so that the registry is to be
    /// saved.
    pub changed: bool,
}

/// Whether the call `call` writes to the registry `reg`: a call that creates
/// a session does, and so does a call that closes, activates or updates a
/// session that the registry holds. A call that only reads, and a call that
/// fails, does not.
pub open spec fn writes(reg: RegistryView, call: RpcCallView) -> bool {
    match call {
        RpcCallView::CreateSession(_) => true,
        RpcCallView::CloseSession(key) => reg.sessions.contains_key(key),
        RpcCallView::SetActiveSession(key) => reg.sessions.contains_key(key),
        RpcCallView::SetOrchestratorProviders { key, providers } => reg.sessions.contains_key(key),
        RpcCallView::AddContextItems { key, items } => reg.sessions.contains_key(key),
        _ => false,
    }
}

/// Whether the call `call` writes to the registry.
pub fn call_writes(call: &RpcCall, registry: &SessionRegistry) -> (r: bool)
    requires
        registry.wf(),
    ensures
        r == writes(registry@, call@),
{
    match call {
        RpcCall::CreateSession(_) => true,
        RpcCall::CloseSession(key) => registry.contains(key),
        RpcCall::SetActiveSession(key) => registry.contains(key),
        RpcCall::SetOrchestratorProviders { key, providers } => registry.contains(key),
        RpcCall::AddContextItems { key, items } => registry.contains(key),
        _ => false,
    }
}

/// A call that does not write leaves the registry as it was, but for a call
/// that closes a session which the registry does not hold: it still makes
/// no session active if that session was.
pub proof fn lemma_reads_keep_registry(reg: RegistryView, call: RpcCallView, now: u64)
    requires
        !writes(reg, call),
        !(call is CloseSession),
    ensures
        registry_after(reg, call, now) == reg,
{
}

/// The outcome for a session that is not there.
pub open spec fn not_found() -> RpcOutcomeView {
    RpcOutcomeView::Error { code: 404, message: "session not found"@ }
}

/// The registry after the call `call` at the time `now`.
pub open spec fn registry_after(reg: RegistryView, call: RpcCallView, now: u64) -> RegistryView {
    match call {
        RpcCallView::CreateSession(draft) => reg.created(draft, now),
        RpcCallView::CloseSession(key) => reg.closed(key),
        RpcCallView::SetActiveSession(key) => reg.activated(key),
        RpcCallView::SetOrchestratorProviders { key, providers } => reg.providers_set(
            key,
            providers,
            now,
        ),
        RpcCallView::AddContextItems { key, items } => reg.context_added(key, items, now),
        _ => reg,
    }
}

/// The tracker after the call `call` on the registry `reg`: a session that is
/// created or gets providers has its mode set in the tracker, and a session
/// that becomes active becomes the current session of the tracker.
pub open spec fn tracker_after(t: TrackerView, reg: RegistryView, call: RpcCallView, now: u64) -> TrackerView {
    match call {
        RpcCallView::CreateSession(draft) => {
            let entry = draft.applied(reg.get(draft.key()), now);
            t.mode_set(entry.session_id, entry.mode)
        },
        RpcCallView::SetActiveSession(key) => if reg.sessions.contains_key(key) {
            t.switched(reg.sessions[key].session_id).mode_set(
                reg.sessions[key].session_id,
                reg.sessions[key].mode,
            )
        } else {
            t
        },
        RpcCallView::SetOrchestratorProviders { key, providers } => if reg.sessions.contains_key(
            key,
        ) {
            t.mode_set(reg.sessions[key].session_id, SessionMode::Orchestrator)
        } else {
            t
        },
        _ => t,
    }
}

/// Whether `out` is the outcome of the call `call` on the registry `reg` at
/// the time `now`.
pub open spec fn outcome_of(out: RpcOutcomeView, reg: RegistryView, call: RpcCallView, now: u64) -> bool {
    match call {
        RpcCallView::ListSessions { agent_id } => out matches RpcOutcomeView::Sessions(list)
            && lists_summaries(list, reg, agent_id) && latest_first(list),
        RpcCallView::CreateSession(draft) => out == RpcOutcomeView::Session(
            draft.applied(reg.get(draft.key()), now),
        ),
        RpcCallView::CloseSession(key) => out == RpcOutcomeView::Closed(
            reg.sessions.contains_key(key),
        ),
        RpcCallView::SetActiveSession(key) => out == if reg.sessions.contains_key(key) {
            RpcOutcomeView::Active
        } else {
            not_found()
        },
        RpcCallView::SetOrchestratorProviders { key, providers } => out
            == if reg.sessions.contains_key(key) {
            RpcOutcomeView::Session(RegistryView::with_providers(reg.sessions[key], providers, now))
        } else {
            not_found()
        },
        RpcCallView::GetSessionState(key) => out == if reg.sessions.contains_key(key) {
            RpcOutcomeView::Session(reg.sessions[key])
        } else {
            not_found()
        },
        RpcCallView::AddContextItems { key, items } => out == if reg.sessions.contains_key(key) {
            RpcOutcomeView::Session(RegistryView::with_context(reg.sessions[key], items, now))
        } else {
            not_found()
        },
        RpcCallView::MissingParams => out == RpcOutcomeView::Error {
            code: 400,
            message: "missing params"@,
        },
        RpcCallView::BadParams => out == RpcOutcomeView::Error {
            code: 400,
            message: "invalid params"@,
        },
        RpcCallView::Unknown => out == RpcOutcomeView::Error {
            code: 404,
            message: "unknown rpc method"@,
        },
    }
}

/// Carries out the call `call` at the time `now`.
pub fn handle_call(
    call: RpcCall,
    registry: &mut SessionRegistry,
    tracker: &mut ContextTracker,
    now: u64,
) -> (r: RpcOutcome)
    requires
        old(registry).wf(),
        old(tracker).wf(),
    ensures
        final(registry).wf(),
        final(tracker).wf(),
        final(registry)@ == registry_after(old(registry)@, call@, now),
        final(tracker)@ == tracker_after(old(tracker)@, old(registry)@, call@, now),
        outcome_of(r@, old(registry)@, call@, now),
{
    proof {
        registry.lemma_wf_valid();
    }
    match call {
        RpcCall::ListSessions { agent_id } => {
            let list = match &agent_id {
                Some(a) => registry.list_sessions(Some(a.as_str())),
                None => registry.list_sessions(None),
            };
            RpcOutcome::Sessions(list)
        },
        RpcCall::CreateSession(draft) => {
            let entry = registry.create_session_at(draft, now);
            tracker.set_session_mode(entry.session_id.as_str(), entry.mode);
            RpcOutcome::Session(entry)
        },
        RpcCall::CloseSession(key) => RpcOutcome::Closed(registry.close_session(&key)),
        RpcCall::SetActiveSession(key) => {
            match registry.get_session_state(&key) {
                Some(entry) => {
                    let _ = registry.set_active_session(key);
                    tracker.set_session_id(entry.session_id.clone());
                    tracker.set_session_mode(entry.session_id.as_str(), entry.mode);
                    RpcOutcome::Active
                },
                None => {
                    RpcOutcome::Error { code: 404, message: "session not found".to_owned() }
                },
            }
        },
        RpcCall::SetOrchestratorProviders { key, providers } => {
            match registry.set_orchestrator_providers_at(&key, providers, now) {
                Some(entry) => {
                    tracker.set_session_mode(entry.session_id.as_str(), entry.mode);
                    RpcOutcome::Session(entry)
                },
                None => RpcOutcome::Error { code: 404, message: "session not found".to_owned() },
            }
        },
        RpcCall::GetSessionState(key) => {
            match registry.get_session_state(&key) {
                Some(entry) => RpcOutcome::Session(entry),
                None => RpcOutcome::Error { code: 404, message: "session not found".to_owned() },
            }
        },
        RpcCall::AddContextItems { key, items } => {
            match registry.add_context_items_at(&key, items, now) {
                Some(entry) => RpcOutcome::Session(entry),
                None => RpcOutcome::Error { code: 404, message: "session not found".to_owned() },
            }
        },
        RpcCall::MissingParams => RpcOutcome::Error {
            code: 400,
            message: "missing params".to_owned(),
        },
        RpcCall::BadParams => RpcOutcome::Error { code: 400, message: "invalid params".to_owned() },
        RpcCall::Unknown => RpcOutcome::Error {
            code: 404,
            message: "unknown rpc method".to_owned(),
        },
    }
}

/// Answers the call `method` with the parameters `params` at the time `now`:
/// decodes it, carries it out, and hands back the response under the
/// identifier `id`.
pub fn handle_rpc_request_at(
    id: String,
    method: &str,
    params: Option<&Value>,
    registry: &mut SessionRegistry,
    tracker: &mut ContextTracker,
    now: u64,
) -> (r: RpcResponse)
    requires
        old(registry).wf(),
        old(tracker).wf(),
    ensures
        final(registry).wf(),
        final(tracker).wf(),
        r.id@ == id@,
        r.changed == writes(old(registry)@, call_of(method@, params_view(params))),
        final(registry)@ == registry_after(
            old(registry)@,
            call_of(method@, params_view(params)),
            now,
        ),
        final(tracker)@ == tracker_after(
            old(tracker)@,
            old(registry)@,
            call_of(method@, params_view(params)),
            now,
        ),
        outcome_of(r.outcome@, old(registry)@, call_of(method@, params_view(params)), now),
{
    let call = decode_call(method, params);
    let changed = call_writes(&call, registry);
    let outcome = handle_call(call, registry, tracker, now);
    RpcResponse { id, outcome, changed }
}

/// Answers the call `method` with the parameters `params`. What the call
/// stamps is stamped with the reading of the wall clock, whatever that is.
pub fn handle_rpc_request(
    id: String,
    method: &str,
    params: Option<&Value>,
    registry: &mut SessionRegistry,
    tracker: &mut ContextTracker,
) -> (r: RpcResponse)
    requires
        old(registry).wf(),
        old(tracker).wf(),
    ensures
        final(registry).wf(),
        final(tracker).wf(),
        r.id@ == id@,
        r.changed == writes(old(registry)@, call_of(method@, params_view(params))),
        exists|now: u64|
            final(registry)@ == registry_after(
                old(registry)@,
                call_of(method@, params_view(params)),
                now,
            ) && final(tracker)@ == tracker_after(
                old(tracker)@,
                old(registry)@,
                call_of(method@, params_view(params)),
                now,
            ) && outcome_of(r.outcome@, old(registry)@, call_of(method@, params_view(params)), now),
{
    let now = now_ms();
    handle_rpc_request_at(id, method, params, registry, tracker, now)
}

} // verus!
