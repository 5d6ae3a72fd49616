//! The registry of the sessions that observers have declared, with the one
//! that is active.
//!
//! The registry lives in memory. What is kept on disk is handed in by
//! [`SessionRegistry::load`] and handed out by [`SessionRegistry::stored`].

use vstd::prelude::*;
use crate::clock::now_ms;
use crate::keyed::{Key, KeyedList};
use crate::types::{
    copy_keys, copy_model, copy_strings, copy_text, key_views, model_view, state_views,
    summary_views, text_view, texts, SessionKey, SessionKeyView, SessionMode, SessionModel,
    SessionModelView, SessionState, SessionStateView, SessionSummary, SessionSummaryView,
};

verus! {

/// The view of an optional list of strings.
pub open spec fn texts_view(list: Option<Vec<String>>) -> Option<Seq<Seq<char>>> {
    match list {
        Some(l) => Some(texts(l@)),
        None => None,
    }
}

/// The view of an optional list of session names.
pub open spec fn keys_view(list: Option<Vec<SessionKey>>) -> Option<Seq<SessionKeyView>> {
    match list {
        Some(l) => Some(key_views(l@)),
        None => None,
    }
}

/// The view of an optional session name.
pub open spec fn key_view(key: Option<SessionKey>) -> Option<SessionKeyView> {
    match key {
        Some(k) => Some(k@),
        None => None,
    }
}

/// What a request to create a session holds.
pub struct SessionDraftView {
    pub agent_id: Seq<char>,
    pub session_id: Seq<char>,
    pub mode: SessionMode,
    pub model: Option<SessionModelView>,
    pub summary: Option<Seq<char>>,
    pub history: Option<Seq<Seq<char>>>,
    pub context: Option<Seq<Seq<char>>>,
    pub providers: Option<Seq<SessionKeyView>>,
}

impl SessionDraftView {
    /// The name of the session.
    pub open spec fn key(self) -> SessionKeyView {
        SessionKeyView { agent_id: self.agent_id, session_id: self.session_id }
    }

    /// The entry of a session that did not exist before the request.
    pub open spec fn started(self, now: u64) -> SessionStateView {
        SessionStateView {
            agent_id: self.agent_id,
            session_id: self.session_id,
            mode: self.mode,
            model: self.model,
            history: match self.history {
                Some(h) => h,
                None => Seq::empty(),
            },
            summary: self.summary,
            context: match self.context {
                Some(c) => c,
                None => Seq::empty(),
            },
            providers: match self.providers {
                Some(p) => p,
                None => Seq::empty(),
            },
            created_at_ms: now,
            updated_at_ms: now,
        }
    }

    /// The entry of the session after the request: what the request gives
    /// replaces what the entry had, what it leaves out stays, and a list of
    /// providers that is not empty makes the session an orchestrator.
    pub open spec fn applied(self, prior: Option<SessionStateView>, now: u64) -> SessionStateView {
        let base = match prior {
            Some(p) => p,
            None => self.started(now),
        };
        let providers = match self.providers {
            Some(p) => p,
            None => base.providers,
        };
        SessionStateView {
            mode: if self.providers is Some && providers.len() > 0 {
                SessionMode::Orchestrator
            } else {
                self.mode
            },
            model: if self.model is Some {
                self.model
            } else {
                base.model
            },
            summary: if self.summary is Some {
                self.summary
            } else {
                base.summary
            },
            history: match self.history {
                Some(h) => h,
                None => base.history,
            },
            context: match self.context {
                Some(c) => c,
                None => base.context,
            },
            providers,
            updated_at_ms: now,
            ..base
        }
    }
}

/// A request to create or to update a session.
#[derive(Debug)]
pub struct SessionDraft {
    pub agent_id: String,
    pub session_id: String,
    pub mode: SessionMode,
    pub model: Option<SessionModel>,
    pub summary: Option<String>,
    pub history: Option<Vec<String>>,
    pub context: Option<Vec<String>>,
    pub providers: Option<Vec<SessionKey>>,
}

impl View for SessionDraft {
    type V = SessionDraftView;

    open spec fn view(&self) -> SessionDraftView {
        SessionDraftView {
            agent_id: self.agent_id@,
            session_id: self.session_id@,
            mode: self.mode,
            model: model_view(self.model),
            summary: text_view(self.summary),
            history: texts_view(self.history),
            context: texts_view(self.context),
            providers: keys_view(self.providers),
        }
    }
}

/// What a registry holds.
pub struct RegistryView {
    pub sessions: Map<SessionKeyView, SessionStateView>,
    pub active: Option<SessionKeyView>,
}

/// The sessions that a stored list of entries gives: each entry under its
/// name, a later entry in place of an earlier one of the same name.
pub open spec fn loaded(entries: Seq<SessionStateView>) -> Map<SessionKeyView, SessionStateView>
    decreases entries.len(),
{
    if entries.len() == 0 {
        Map::empty()
    } else {
        loaded(entries.drop_last()).insert(entries.last().key(), entries.last())
    }
}

impl RegistryView {
    /// Every entry stands under its own name.
    pub open spec fn valid(self) -> bool {
        forall|k: SessionKeyView|
            self.sessions.contains_key(k) ==> (#[trigger] self.sessions[k]).key() == k
    }

    /// Whether the session `k` is the active one.
    pub open spec fn is_active(self, k: SessionKeyView) -> bool {
        self.active == Some(k)
    }

    /// Whether a list of sessions for `agent` shows the entry `s`: every
    /// entry where no agent is given, else the entries of that agent.
    pub open spec fn shown(agent: Option<Seq<char>>, s: SessionStateView) -> bool {
        match agent {
            Some(a) => s.agent_id == a,
            None => true,
        }
    }

    /// The entry under `k`, if there is one.
    pub open spec fn get(self, k: SessionKeyView) -> Option<SessionStateView> {
        if self.sessions.contains_key(k) {
            Some(self.sessions[k])
        } else {
            None
        }
    }

    /// The registry after the request `draft` at the time `now`.
    pub open spec fn created(self, draft: SessionDraftView, now: u64) -> RegistryView {
        RegistryView {
            sessions: self.sessions.insert(draft.key(), draft.applied(self.get(draft.key()), now)),
            ..self
        }
    }

    /// The registry after the session `k` was closed: the entry is gone, and
    /// no session is active if that one was.
    pub open spec fn closed(self, k: SessionKeyView) -> RegistryView {
        RegistryView {
            sessions: self.sessions.remove(k),
            active: if self.active == Some(k) {
                None
            } else {
                self.active
            },
        }
    }

    /// The registry after `k` was made the active session; nothing changes
    /// where there is no such session.
    pub open spec fn activated(self, k: SessionKeyView) -> RegistryView {
        if self.sessions.contains_key(k) {
            RegistryView { active: Some(k), ..self }
        } else {
            self
        }
    }

    /// The entry of an orchestrator with the providers `providers`.
    pub open spec fn with_providers(
        s: SessionStateView,
        providers: Seq<SessionKeyView>,
        now: u64,
    ) -> SessionStateView {
        SessionStateView { providers, mode: SessionMode::Orchestrator, updated_at_ms: now, ..s }
    }

    /// The registry after the providers of the session `k` were set.
    pub open spec fn providers_set(
        self,
        k: SessionKeyView,
        providers: Seq<SessionKeyView>,
        now: u64,
    ) -> RegistryView {
        if self.sessions.contains_key(k) {
            RegistryView {
                sessions: self.sessions.insert(
                    k,
                    Self::with_providers(self.sessions[k], providers, now),
                ),
                ..self
            }
        } else {
            self
        }
    }

    /// The entry with `items` added to its context.
    pub open spec fn with_context(
        s: SessionStateView,
        items: Seq<Seq<char>>,
        now: u64,
    ) -> SessionStateView {
        SessionStateView { context: s.context + items, updated_at_ms: now, ..s }
    }

    /// The registry after `items` were added to the context of the session
    /// `k`.
    pub open spec fn context_added(
        self,
        k: SessionKeyView,
        items: Seq<Seq<char>>,
        now: u64,
    ) -> RegistryView {
        if self.sessions.contains_key(k) {
            RegistryView {
                sessions: self.sessions.insert(k, Self::with_context(self.sessions[k], items, now)),
                ..self
            }
        } else {
            self
        }
    }
}

/// Whether a list of sessions takes the entry `s`: every entry, or the
/// orchestrators only.
pub open spec fn wanted(orchestrators_only: bool, s: SessionStateView) -> bool {
    !orchestrators_only || s.mode == SessionMode::Orchestrator
}

/// Whether the list `list` holds each entry of `sessions` once, or each
/// orchestrator among them once, and nothing else.
pub open spec fn lists_sessions(
    list: Seq<SessionStateView>,
    sessions: Map<SessionKeyView, SessionStateView>,
    orchestrators_only: bool,
) -> bool {
    &&& forall|a: int, b: int| 0 <= a < b < list.len() ==> list[a].key() != list[b].key()
    &&& forall|a: int|
        0 <= a < list.len() ==> sessions.contains_key((#[trigger] list[a]).key())
            && sessions[list[a].key()] == list[a] && wanted(orchestrators_only, list[a])
    &&& forall|k: SessionKeyView|
        sessions.contains_key(k) && wanted(orchestrators_only, sessions[k]) ==> exists|a: int|
            0 <= a < list.len() && (#[trigger] list[a]).key() == k
}

/// Whether the list `list` holds the line of each session of `registry` that
/// a list for `agent` shows, once, and nothing else.
pub open spec fn lists_summaries(
    list: Seq<SessionSummaryView>,
    registry: RegistryView,
    agent: Option<Seq<char>>,
) -> bool {
    &&& forall|a: int, b: int| 0 <= a < b < list.len() ==> list[a].key() != list[b].key()
    &&& forall|a: int|
        0 <= a < list.len() ==> registry.sessions.contains_key((#[trigger] list[a]).key())
            && RegistryView::shown(agent, registry.sessions[list[a].key()]) && list[a]
            == registry.sessions[list[a].key()].summary_line(registry.is_active(list[a].key()))
    &&& forall|k: SessionKeyView|
        registry.sessions.contains_key(k) && RegistryView::shown(agent, registry.sessions[k])
            ==> exists|a: int| 0 <= a < list.len() && (#[trigger] list[a]).key() == k
}

/// Whether the lines of `list` stand from the latest update to the earliest.
pub open spec fn latest_first(list: Seq<SessionSummaryView>) -> bool {
    forall|a: int, b: int|
        0 <= a < b < list.len() ==> list[a].updated_at_ms >= list[b].updated_at_ms
}

/// The registry of sessions.
#[derive(Debug)]
pub struct SessionRegistry {
    sessions: KeyedList<SessionKey, SessionState>,
    active: Option<SessionKey>,
}

impl View for SessionRegistry {
    type V = RegistryView;

    closed spec fn view(&self) -> RegistryView {
        RegistryView { sessions: self.sessions@, active: key_view(self.active) }
    }
}

impl SessionRegistry {
    /// The entries are a list without a repeated name, each under its own
    /// name.
    pub closed spec fn wf(&self) -> bool {
        self.sessions.wf() && self@.valid()
    }

    /// A well-formed registry is valid.
    pub proof fn lemma_wf_valid(&self)
        requires
            self.wf(),
        ensures
            self@.valid(),
    {
    }

    /// The registry without sessions.
    pub fn new() -> (r: Self)
        ensures
            r.wf(),
            r@ == (RegistryView { sessions: Map::empty(), active: None }),
    {
        SessionRegistry { sessions: KeyedList::new(), active: None }
    }

    /// The registry that holds what was stored: the entries `sessions`, a
    /// later one in place of an earlier one of the same name, and the active
    /// session `active`.
    pub fn load(active: Option<SessionKey>, sessions: Vec<SessionState>) -> (r: Self)
        ensures
            r.wf(),
            r@ == (RegistryView {
                sessions: loaded(state_views(sessions@)),
                active: key_view(active),
            }),
    {
        let mut list: KeyedList<SessionKey, SessionState> = KeyedList::new();
        let ghost all = state_views(sessions@);
        let mut i: usize = 0;
        assert(all.take(0) =~= Seq::empty());
        while i < sessions.len()
            invariant
                i <= sessions.len(),
                all == state_views(sessions@),
                list.wf(),
                list@ == loaded(all.take(i as int)),
                forall|k: SessionKeyView| list@.contains_key(k) ==> (#[trigger] list@[k]).key() == k,
            decreases sessions.len() - i,
        {
            let entry = sessions[i].clone();
            assert(all.take(i + 1).last() == entry@);
            assert(all.take(i + 1).drop_last() == all.take(i as int));
            list.insert(entry.key(), entry);
            i = i + 1;
        }
        assert(all.take(sessions.len() as int) == all);
        SessionRegistry { sessions: list, active }
    }

    /// What is to be stored: the active session, and every entry once.
    pub fn stored(&self) -> (r: (Option<SessionKey>, Vec<SessionState>))
        requires
            self.wf(),
        ensures
            key_view(r.0) == self@.active,
            lists_sessions(state_views(r.1@), self@.sessions, false),
    {
        let active = match &self.active {
            Some(k) => Some(k.clone()),
            None => None,
        };
        (active, self.collect(false))
    }

    /// The entries of the registry, or those of its orchestrators only.
    fn collect(&self, orchestrators_only: bool) -> (r: Vec<SessionState>)
        requires
            self.wf(),
        ensures
            lists_sessions(state_views(r@), self@.sessions, orchestrators_only),
    {
        let ghost keys = self.sessions.key_views();
        let ghost vals = self.sessions.value_views();
        let mut out: Vec<SessionState> = Vec::new();
        let ghost mut from: Seq<int> = Seq::empty();
        let n = self.sessions.len();
        let mut i: usize = 0;
        while i < n
            invariant
                i <= n,
                n == self.sessions.count(),
                self.sessions.wf(),
                keys == self.sessions.key_views(),
                vals == self.sessions.value_views(),
                from.len() == out.len(),
                forall|a: int|
                    0 <= a < from.len() ==> 0 <= #[trigger] from[a] < i && wanted(orchestrators_only, vals[from[a]])
                        && out@[a]@ == vals[from[a]],
                forall|a: int, b: int|
                    0 <= a < b < from.len() ==> #[trigger] from[a] < #[trigger] from[b],
                forall|j: int|
                    0 <= j < i && wanted(orchestrators_only, #[trigger] vals[j]) ==> exists|a: int|
                        0 <= a < from.len() && #[trigger] from[a] == j,
            decreases n - i,
        {
            let s = self.sessions.value(i);
            let take = match s.mode {
                SessionMode::Orchestrator => true,
                SessionMode::SingleAgent => !orchestrators_only,
            };
            if take {
                out.push(s.clone());
                proof {
                    let before = from;
                    from = from.push(i as int);
                    assert forall|j: int| 0 <= j < i + 1 && wanted(orchestrators_only, #[trigger] vals[j]) implies exists|
                        a: int,
                    | 0 <= a < from.len() && #[trigger] from[a] == j by {
                        if j < i {
                            let a = choose|a: int| 0 <= a < before.len() && #[trigger] before[a] == j;
                            assert(from[a] == j);
                        } else {
                            assert(from[before.len() as int] == j);
                        }
                    }
                }
            }
            i = i + 1;
        }
        proof {
            let list = state_views(out@);
            let m = self@.sessions;
            assert(keys.no_duplicates());
            assert forall|j: int| 0 <= j < n implies m.contains_key(#[trigger] keys[j]) && m[keys[j]]
                == vals[j] && vals[j].key() == keys[j] by {
                self.sessions.lemma_entry(j);
            }
            assert forall|a: int| 0 <= a < list.len() implies #[trigger] list[a] == vals[from[a]]
                && list[a].key() == keys[from[a]] by {
                assert(list[a] == out@[a]@);
                assert(0 <= from[a] < n);
                assert(vals[from[a]].key() == keys[from[a]]);
            }
            assert forall|a: int, b: int| 0 <= a < b < list.len() implies list[a].key()
                != list[b].key() by {
                assert(from[a] < from[b]);
                assert(list[a].key() == keys[from[a]]);
                assert(list[b].key() == keys[from[b]]);
            }
            assert forall|a: int| 0 <= a < list.len() implies m.contains_key(
                (#[trigger] list[a]).key(),
            ) && m[list[a].key()] == list[a] && wanted(orchestrators_only, list[a]) by {
                assert(list[a] == vals[from[a]]);
                assert(m.contains_key(keys[from[a]]));
            }
            assert forall|k: SessionKeyView| m.contains_key(k) && wanted(orchestrators_only, m[k]) implies exists|
                a: int,
            | 0 <= a < list.len() && (#[trigger] list[a]).key() == k by {
                self.sessions.lemma_key(k);
                let j = keys.index_of(k);
                assert(wanted(orchestrators_only, vals[j]));
                let a = choose|a: int| 0 <= a < from.len() && #[trigger] from[a] == j;
                assert(list[a].key() == k);
            }
        }
        out
    }

    /// The lines of the sessions, those of the agent `agent_id` only where
    /// one is given: each session once, from the latest update to the
    /// earliest, with the active session marked.
    pub fn list_sessions(&self, agent_id: Option<&str>) -> (r: Vec<SessionSummary>)
        requires
            self.wf(),
        ensures
            lists_summaries(
                summary_views(r@),
                self@,
                match agent_id {
                    Some(a) => Some(a@),
                    None => None,
                },
            ),
            latest_first(summary_views(r@)),
    {
        let ghost agent: Option<Seq<char>> = match agent_id {
            Some(a) => Some(a@),
            None => None,
        };
        let ghost keys = self.sessions.key_views();
        let ghost vals = self.sessions.value_views();
        let ghost reg = self@;
        let mut out: Vec<SessionSummary> = Vec::new();
        let ghost mut from: Seq<int> = Seq::empty();
        let n = self.sessions.len();
        let mut i: usize = 0;
        while i < n
            invariant
                i <= n,
                n == self.sessions.count(),
                self.wf(),
                reg == self@,
                keys == self.sessions.key_views(),
                vals == self.sessions.value_views(),
                agent == match agent_id {
                    Some(a) => Some(a@),
                    None => None,
                },
                from.len() == out.len(),
                forall|a: int|
                    0 <= a < from.len() ==> 0 <= #[trigger] from[a] < i && RegistryView::shown(
                        agent,
                        vals[from[a]],
                    ) && out@[a]@ == vals[from[a]].summary_line(reg.is_active(keys[from[a]])),
                forall|a: int, b: int|
                    0 <= a < from.len() && 0 <= b < from.len() && a != b ==> #[trigger] from[a]
                        != #[trigger] from[b],
                forall|j: int|
                    0 <= j < i && RegistryView::shown(agent, #[trigger] vals[j]) ==> exists|a: int|
                        0 <= a < from.len() && #[trigger] from[a] == j,
                forall|a: int, b: int|
                    0 <= a < b < out.len() ==> (#[trigger] out@[a]).updated_at_ms >= (
                    #[trigger] out@[b]).updated_at_ms,
            decreases n - i,
        {
            let s = self.sessions.value(i);
            let key = self.sessions.key(i);
            proof {
                self.sessions.lemma_entry(i as int);
            }
            let show = match agent_id {
                Some(a) => {
                    let wanted_agent = a.to_owned();
                    s.agent_id == wanted_agent
                },
                None => true,
            };
            if show {
                let is_active = match &self.active {
                    Some(k) => k.same_key(key),
                    None => false,
                };
                let line = SessionSummary {
                    agent_id: s.agent_id.clone(),
                    session_id: s.session_id.clone(),
                    mode: s.mode,
                    model: copy_model(&s.model),
                    updated_at_ms: s.updated_at_ms,
                    is_active,
                };
                let mut at: usize = 0;
                while at < out.len() && out[at].updated_at_ms >= line.updated_at_ms
                    invariant
                        at <= out.len(),
                        forall|a: int|
                            0 <= a < at ==> (#[trigger] out@[a]).updated_at_ms
                                >= line.updated_at_ms,
                    decreases out.len() - at,
                {
                    at = at + 1;
                }
                let ghost before_out = out@;
                let ghost before = from;
                out.insert(at, line);
                proof {
                    from = before.insert(at as int, i as int);
                    assert forall|a: int| 0 <= a < from.len() implies 0 <= #[trigger] from[a] < i
                        + 1 && RegistryView::shown(agent, vals[from[a]]) && out@[a]@
                        == vals[from[a]].summary_line(reg.is_active(keys[from[a]])) by {
                        if a < at {
                            assert(from[a] == before[a]);
                            assert(out@[a] == before_out[a]);
                        } else if a > at {
                            assert(from[a] == before[a - 1]);
                            assert(out@[a] == before_out[a - 1]);
                        }
                    }
                    assert forall|a: int, b: int|
                        0 <= a < from.len() && 0 <= b < from.len() && a != b implies #[trigger] from[a]
                        != #[trigger] from[b] by {
                        let a0 = if a < at { a } else { a - 1 };
                        let b0 = if b < at { b } else { b - 1 };
                        if a != at && b != at {
                            assert(from[a] == before[a0]);
                            assert(from[b] == before[b0]);
                        } else if a == at {
                            assert(from[b] == before[b0]);
                        } else {
                            assert(from[a] == before[a0]);
                        }
                    }
                    assert forall|j: int|
                        0 <= j < i + 1 && RegistryView::shown(
                            agent,
                            #[trigger] vals[j],
                        ) implies exists|a: int| 0 <= a < from.len() && #[trigger] from[a] == j by {
                        if j < i {
                            let a = choose|a: int| 0 <= a < before.len() && #[trigger] before[a] == j;
                            let a1 = if a < at { a } else { a + 1 };
                            assert(from[a1] == j);
                        } else {
                            assert(from[at as int] == j);
                        }
                    }
                    assert forall|a: int, b: int| 0 <= a < b < out.len() implies (
                    #[trigger] out@[a]).updated_at_ms >= (#[trigger] out@[b]).updated_at_ms by {
                        let a0 = if a < at { a } else { a - 1 };
                        let b0 = if b < at { b } else { b - 1 };
                        if a != at {
                            assert(out@[a] == before_out[a0]);
                        }
                        if b != at {
                            assert(out@[b] == before_out[b0]);
                        }
                    }
                }
            }
            i = i + 1;
        }
        proof {
            let list = summary_views(out@);
            let m = self@.sessions;
            assert(keys.no_duplicates());
            assert forall|j: int| 0 <= j < n implies m.contains_key(#[trigger] keys[j]) && m[keys[j]]
                == vals[j] && vals[j].key() == keys[j] by {
                self.sessions.lemma_entry(j);
            }
            assert forall|a: int| 0 <= a < list.len() implies (#[trigger] list[a]).key()
                == keys[from[a]] && list[a] == vals[from[a]].summary_line(
                reg.is_active(keys[from[a]]),
            ) by {
                assert(list[a] == out@[a]@);
                assert(0 <= from[a] < n);
                assert(vals[from[a]].key() == keys[from[a]]);
            }
            assert forall|a: int, b: int| 0 <= a < b < list.len() implies list[a].key()
                != list[b].key() by {
                assert(from[a] != from[b]);
                assert(list[a].key() == keys[from[a]]);
                assert(list[b].key() == keys[from[b]]);
            }
            assert forall|a: int| 0 <= a < list.len() implies m.contains_key(
                (#[trigger] list[a]).key(),
            ) && RegistryView::shown(agent, m[list[a].key()]) && list[a]
                == m[list[a].key()].summary_line(reg.is_active(list[a].key())) by {
                assert(list[a].key() == keys[from[a]]);
                assert(m.contains_key(keys[from[a]]));
            }
            assert forall|k: SessionKeyView|
                m.contains_key(k) && RegistryView::shown(agent, m[k]) implies exists|a: int|
                0 <= a < list.len() && (#[trigger] list[a]).key() == k by {
                self.sessions.lemma_key(k);
                let j = keys.index_of(k);
                assert(RegistryView::shown(agent, vals[j]));
                let a = choose|a: int| 0 <= a < from.len() && #[trigger] from[a] == j;
                assert(list[a].key() == k);
            }
            assert forall|a: int, b: int| 0 <= a < b < list.len() implies list[a].updated_at_ms
                >= list[b].updated_at_ms by {
                assert(list[a] == out@[a]@);
                assert(list[b] == out@[b]@);
            }
        }
        out
    }

    /// The orchestrator sessions, each once.
    pub fn orchestrator_sessions(&self) -> (r: Vec<SessionState>)
        requires
            self.wf(),
        ensures
            lists_sessions(state_views(r@), self@.sessions, true),
    {
        self.collect(true)
    }

    /// Whether the registry holds the session `key`.
    pub fn contains(&self, key: &SessionKey) -> (r: bool)
        requires
            self.wf(),
        ensures
            r == self@.sessions.contains_key(key@),
    {
        self.sessions.contains_key(key)
    }

    /// The active session, if there is one.
    pub fn active_session(&self) -> (r: Option<SessionKey>)
        ensures
            key_view(r) == self@.active,
    {
        match &self.active {
            Some(k) => Some(k.clone()),
            None => None,
        }
    }

    /// The entry of the session `key`, if there is one.
    pub fn get_session_state(&self, key: &SessionKey) -> (r: Option<SessionState>)
        requires
            self.wf(),
        ensures
            match r {
                Some(s) => self@.get(key@) == Some(s@),
                None => self@.get(key@) is None,
            },
    {
        match self.sessions.get(key) {
            Some(s) => Some(s.clone()),
            None => None,
        }
    }

    /// Makes `key` the active session, and says whether there is such a
    /// session.
    pub fn set_active_session(&mut self, key: SessionKey) -> (r: bool)
        requires
            old(self).wf(),
        ensures
            final(self).wf(),
            r == old(self)@.sessions.contains_key(key@),
            final(self)@ == old(self)@.activated(key@),
    {
        if !self.sessions.contains_key(&key) {
            return false;
        }
        self.active = Some(key);
        true
    }

    /// Removes the session `key`, and says whether there was one. No session
    /// is active afterwards if that one was.
    pub fn close_session(&mut self, key: &SessionKey) -> (r: bool)
        requires
            old(self).wf(),
        ensures
            final(self).wf(),
            r == old(self)@.sessions.contains_key(key@),
            final(self)@ == old(self)@.closed(key@),
    {
        let removed = self.sessions.remove(key).is_some();
        let was_active = match &self.active {
            Some(k) => k.same_key(key),
            None => false,
        };
        if was_active {
            self.active = None;
        }
        removed
    }

    /// Creates the session that `draft` names, or updates it, at the time
    /// `now`, and hands out its entry.
    pub fn create_session_at(&mut self, draft: SessionDraft, now: u64) -> (r: SessionState)
        requires
            old(self).wf(),
        ensures
            final(self).wf(),
            final(self)@ == old(self)@.created(draft@, now),
            r@ == draft@.applied(old(self)@.get(draft@.key()), now),
    {
        let key = SessionKey::new(draft.agent_id.as_str(), draft.session_id.as_str());
        let forced = match &draft.providers {
            Some(p) => p.len() > 0,
            None => false,
        };
        let mode = if forced {
            SessionMode::Orchestrator
        } else {
            draft.mode
        };
        let ghost d = draft@;
        let ghost prior = self@.get(key@);
        let entry = match self.sessions.get(&key) {
            Some(base) => SessionState {
                agent_id: base.agent_id.clone(),
                session_id: base.session_id.clone(),
                mode,
                model: match draft.model {
                    Some(m) => Some(m),
                    None => copy_model(&base.model),
                },
                history: match draft.history {
                    Some(h) => h,
                    None => copy_strings(&base.history),
                },
                summary: match draft.summary {
                    Some(s) => Some(s),
                    None => copy_text(&base.summary),
                },
                context: match draft.context {
                    Some(c) => c,
                    None => copy_strings(&base.context),
                },
                providers: match draft.providers {
                    Some(p) => p,
                    None => copy_keys(&base.providers),
                },
                created_at_ms: base.created_at_ms,
                updated_at_ms: now,
            },
            None => SessionState {
                agent_id: draft.agent_id,
                session_id: draft.session_id,
                mode,
                model: draft.model,
                history: match draft.history {
                    Some(h) => h,
                    None => Vec::new(),
                },
                summary: draft.summary,
                context: match draft.context {
                    Some(c) => c,
                    None => Vec::new(),
                },
                providers: match draft.providers {
                    Some(p) => p,
                    None => Vec::new(),
                },
                created_at_ms: now,
                updated_at_ms: now,
            },
        };
        proof {
            assert(texts(Seq::<String>::empty()) =~= Seq::empty());
            assert(key_views(Seq::<SessionKey>::empty()) =~= Seq::empty());
            if prior is Some {
                assert(prior->0.key() == key@);
            }
            assert(entry@ == d.applied(prior, now));
        }
        let r = entry.clone();
        self.sessions.insert(key, entry);
        r
    }

    /// Creates the session that `draft` names, or updates it, stamped with
    /// the reading of the wall clock, whatever that is.
    pub fn create_session(&mut self, draft: SessionDraft) -> (r: SessionState)
        requires
            old(self).wf(),
        ensures
            final(self).wf(),
            exists|now: u64|
                final(self)@ == old(self)@.created(draft@, now) && r@ == draft@.applied(
                    old(self)@.get(draft@.key()),
                    now,
                ),
    {
        let now = now_ms();
        self.create_session_at(draft, now)
    }

    /// Makes the session `key` an orchestrator of `providers` at the time
    /// `now`, and hands out its entry; `None` where there is no such
    /// session.
    pub fn set_orchestrator_providers_at(
        &mut self,
        key: &SessionKey,
        providers: Vec<SessionKey>,
        now: u64,
    ) -> (r: Option<SessionState>)
        requires
            old(self).wf(),
        ensures
            final(self).wf(),
            final(self)@ == old(self)@.providers_set(key@, key_views(providers@), now),
            match r {
                Some(s) => final(self)@.get(key@) == Some(s@) && old(self)@.sessions.contains_key(
                    key@,
                ),
                None => !old(self)@.sessions.contains_key(key@),
            },
    {
        match self.sessions.position(key) {
            None => None,
            Some(i) => {
                let base = self.sessions.value(i);
                let entry = SessionState {
                    agent_id: base.agent_id.clone(),
                    session_id: base.session_id.clone(),
                    mode: SessionMode::Orchestrator,
                    model: copy_model(&base.model),
                    history: copy_strings(&base.history),
                    summary: copy_text(&base.summary),
                    context: copy_strings(&base.context),
                    providers,
                    created_at_ms: base.created_at_ms,
                    updated_at_ms: now,
                };
                let r = entry.clone();
                self.sessions.set(i, entry);
                Some(r)
            },
        }
    }

    /// Makes the session `key` an orchestrator of `providers`, stamped with
    /// the reading of the wall clock, whatever that is.
    pub fn set_orchestrator_providers(&mut self, key: &SessionKey, providers: Vec<SessionKey>) -> (r:
        Option<SessionState>)
        requires
            old(self).wf(),
        ensures
            final(self).wf(),
            exists|now: u64|
                final(self)@ == old(self)@.providers_set(key@, key_views(providers@), now),
            match r {
                Some(s) => final(self)@.get(key@) == Some(s@) && old(self)@.sessions.contains_key(
                    key@,
                ),
                None => !old(self)@.sessions.contains_key(key@),
            },
    {
        let now = now_ms();
        self.set_orchestrator_providers_at(key, providers, now)
    }

    /// Adds `items` to the end of the context of the session `key` at the
    /// time `now`, and hands out its entry; `None` where there is no such
    /// session.
    pub fn add_context_items_at(&mut self, key: &SessionKey, items: Vec<String>, now: u64) -> (r:
        Option<SessionState>)
        requires
            old(self).wf(),
        ensures
            final(self).wf(),
            final(self)@ == old(self)@.context_added(key@, texts(items@), now),
            match r {
                Some(s) => final(self)@.get(key@) == Some(s@) && old(self)@.sessions.contains_key(
                    key@,
                ),
                None => !old(self)@.sessions.contains_key(key@),
            },
    {
        match self.sessions.position(key) {
            None => None,
            Some(i) => {
                let base = self.sessions.value(i);
                let mut context = copy_strings(&base.context);
                let mut j: usize = 0;
                let ghost start = texts(context@);
                assert(texts(items@).take(0) =~= Seq::empty());
                while j < items.len()
                    invariant
                        j <= items.len(),
                        texts(context@) == start + texts(items@).take(j as int),
                    decreases items.len() - j,
                {
                    let ghost before = texts(context@);
                    context.push(items[j].clone());
                    assert(texts(context@) =~= before.push(items@[j as int]@));
                    assert(texts(items@).take(j + 1) =~= texts(items@).take(j as int).push(
                        items@[j as int]@,
                    ));
                    j = j + 1;
                }
                assert(texts(items@).take(items@.len() as int) =~= texts(items@));
                let entry = SessionState {
                    agent_id: base.agent_id.clone(),
                    session_id: base.session_id.clone(),
                    mode: base.mode,
                    model: copy_model(&base.model),
                    history: copy_strings(&base.history),
                    summary: copy_text(&base.summary),
                    context,
                    providers: copy_keys(&base.providers),
                    created_at_ms: base.created_at_ms,
                    updated_at_ms: now,
                };
                let r = entry.clone();
                self.sessions.set(i, entry);
                Some(r)
            },
        }
    }

    /// Adds `items` to the end of the context of the session `key`, stamped
    /// with the reading of the wall clock, whatever that is.
    pub fn add_context_items(&mut self, key: &SessionKey, items: Vec<String>) -> (r: Option<
        SessionState,
    >)
        requires
            old(self).wf(),
        ensures
            final(self).wf(),
            exists|now: u64|
                final(self)@ == old(self)@.context_added(key@, texts(items@), now),
            match r {
                Some(s) => final(self)@.get(key@) == Some(s@) && old(self)@.sessions.contains_key(
                    key@,
                ),
                None => !old(self)@.sessions.contains_key(key@),
            },
    {
        let now = now_ms();
        self.add_context_items_at(key, items, now)
    }
}

} // verus!
