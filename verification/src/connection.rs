//! One connection of an observer: what the server does with each message
//! that the observer sends.

use vstd::prelude::*;
use crate::orchestrator::{AggregatorView, OrchestratorAggregator};
use crate::rpc::{
    call_of, handle_rpc_request_at, outcome_of, registry_after, tracker_after, writes,
    RpcResponse,
};
use crate::session_registry::{RegistryView, SessionRegistry};
use crate::table::{after_events, follows, lemma_observer_keeps_up, observed, TableEvent};
use crate::tcp::{
    client_message, decode_client_line, resolve_snapshot, resolves, served_aggregator,
    served_snapshot, ClientMessage, ClientMessageView, StreamFilter, StreamFilterView,
};
use crate::tracker::{ContextTracker, TrackerView};
use crate::types::{SessionKeyView, Snapshot};

verus! {

/// What the server sends back on a message of an observer.
#[derive(Debug)]
pub enum ClientReply {
    /// Nothing is sent.
    Nothing,
    /// A fresh snapshot.
    Snapshot(Snapshot),
    /// The response to a call.
    Rpc(RpcResponse),
}

/// The filter of a connection after the message `message`: a message that
/// sets the filter chooses it, and any other message leaves it.
pub open spec fn filter_after(filter: StreamFilterView, message: Option<ClientMessageView>) -> StreamFilterView {
    match message {
        Some(ClientMessageView::SetStreamFilter { session_id, session_mode }) => StreamFilterView::chosen(
            session_id,
            session_mode,
        ),
        _ => filter,
    }
}

/// Takes a line that an observer sent, at the time `now`.
///
/// A line that is none of the messages is dropped, and changes nothing. A
/// request for a snapshot is answered with a fresh snapshot of the session
/// that the request and the filter resolve to. A message that sets the
/// filter changes the filter of the connection, and nothing is sent back. A
/// call is carried out, and its response is sent back.
pub fn handle_client_line(
    line: &str,
    filter: &mut StreamFilter,
    tracker: &mut ContextTracker,
    registry: &mut SessionRegistry,
    orchestrator: &mut OrchestratorAggregator,
    now: u64,
) -> (r: ClientReply)
    requires
        old(tracker).wf(),
        old(registry).wf(),
        old(orchestrator).wf(),
        old(orchestrator)@.has_room(),
    ensures
        final(tracker).wf(),
        final(registry).wf(),
        final(orchestrator).wf(),
        final(filter)@ == filter_after(old(filter)@, client_message(line@)),
        match client_message(line@) {
            None => r is Nothing && final(tracker)@ == old(tracker)@ && final(registry)@ == old(registry)@ && final(orchestrator)@ == old(orchestrator)@,
            Some(ClientMessageView::RequestSnapshot { session_id }) => {
                &&& r matches ClientReply::Snapshot(snap)
                &&& final(tracker)@ == old(tracker)@
                &&& final(registry)@ == old(registry)@
                &&& exists|target: Option<SessionKeyView>|
                    resolves(target, session_id, old(filter)@, old(registry)@, old(tracker)@)
                        && snap@ == served_snapshot(
                        target,
                        old(orchestrator)@,
                        old(registry)@,
                        old(tracker)@,
                    ) && final(orchestrator)@ == served_aggregator(
                        target,
                        old(orchestrator)@,
                        old(registry)@,
                        old(tracker)@,
                    )
            },
            Some(ClientMessageView::SetStreamFilter { session_id, session_mode }) => r is Nothing
                && final(tracker)@ == old(tracker)@ && final(registry)@ == old(registry)@ && final(orchestrator)@ == old(orchestrator)@,
            Some(ClientMessageView::Rpc { id, method, params }) => {
                &&& r matches ClientReply::Rpc(response)
                &&& response.id@ == id
                &&& response.changed == writes(old(registry)@, call_of(method, params))
                &&& final(orchestrator)@ == old(orchestrator)@
                &&& final(registry)@ == registry_after(old(registry)@, call_of(method, params), now)
                &&& final(tracker)@ == tracker_after(
                    old(tracker)@,
                    old(registry)@,
                    call_of(method, params),
                    now,
                )
                &&& outcome_of(response.outcome@, old(registry)@, call_of(method, params), now)
            },
        },
{
    match decode_client_line(line) {
        None => ClientReply::Nothing,
        Some(ClientMessage::RequestSnapshot { session_id }) => {
            let snap = match &session_id {
                Some(id) => resolve_snapshot(tracker, registry, orchestrator, Some(id.as_str()), filter),
                None => resolve_snapshot(tracker, registry, orchestrator, None, filter),
            };
            ClientReply::Snapshot(snap)
        },
        Some(ClientMessage::SetStreamFilter { session_id, session_mode }) => {
            *filter = StreamFilter::select(session_id, session_mode);
            ClientReply::Nothing
        },
        Some(ClientMessage::Rpc { id, method, params }) => {
            let response = match &params {
                Some(p) => handle_rpc_request_at(id, method.as_str(), Some(p), registry, tracker, now),
                None => handle_rpc_request_at(id, method.as_str(), None, registry, tracker, now),
            };
            ClientReply::Rpc(response)
        },
    }
}

/// What the broadcast channel hands to a connection.
#[derive(Debug)]
pub enum ChannelEvent {
    /// A line that was published.
    Line(String),
    /// The connection fell behind, and this many lines were lost to it.
    Lagged(u64),
    /// The channel is closed.
    Closed,
}

/// What a connection does on an event of the broadcast channel.
#[derive(Debug)]
pub enum ChannelAction {
    /// The line is written to the observer as it is.
    Forward,
    /// The line is not for this observer, and nothing is written.
    Skip,
    /// The lines that still wait in the channel are discarded, and this
    /// fresh snapshot is written in their place.
    Resync(Snapshot),
    /// The connection ends.
    Stop,
}

/// Takes an event of the broadcast channel.
///
/// A line is forwarded exactly when the filter of the connection forwards
/// it. A connection that fell behind is brought up to date: what waits in
/// the channel is discarded, and the observer gets a fresh snapshot of the
/// session that its filter resolves to, on which every later delta builds.
/// A closed channel ends the connection.
pub fn handle_channel_event(
    event: &ChannelEvent,
    filter: &StreamFilter,
    tracker: &ContextTracker,
    registry: &SessionRegistry,
    orchestrator: &mut OrchestratorAggregator,
) -> (r: ChannelAction)
    requires
        tracker.wf(),
        registry.wf(),
        old(orchestrator).wf(),
        *event is Lagged ==> old(orchestrator)@.has_room(),
    ensures
        final(orchestrator).wf(),
        match *event {
            ChannelEvent::Line(line) => {
                &&& final(orchestrator)@ == old(orchestrator)@
                &&& if filter@.forwards(line@) {
                    r is Forward
                } else {
                    r is Skip
                }
            },
            ChannelEvent::Lagged(_) => {
                &&& r matches ChannelAction::Resync(snap)
                &&& snap.nodes.wf()
                &&& exists|target: Option<SessionKeyView>|
                    resolves(target, None, filter@, registry@, tracker@) && snap@
                        == served_snapshot(target, old(orchestrator)@, registry@, tracker@)
                        && final(orchestrator)@ == served_aggregator(
                        target,
                        old(orchestrator)@,
                        registry@,
                        tracker@,
                    )
            },
            ChannelEvent::Closed => r is Stop && final(orchestrator)@ == old(orchestrator)@,
        },
{
    match event {
        ChannelEvent::Line(line) => {
            if filter.forwards(line.as_str()) {
                ChannelAction::Forward
            } else {
                ChannelAction::Skip
            }
        },
        ChannelEvent::Lagged(_) => {
            ChannelAction::Resync(resolve_snapshot(tracker, registry, orchestrator, None, filter))
        },
        ChannelEvent::Closed => ChannelAction::Stop,
    }
}

/// The snapshot that is served for the current session of the tracker shows
/// the table of that session under its sequence number, so it follows the
/// tracker at whatever moment it is taken. An observer that fell behind, puts
/// such a snapshot in the place of what it held and takes every delta from
/// then on holds, right after each tick, exactly what a snapshot of the
/// session shows then: what it missed leaves no trace.
pub proof fn lemma_resync_catches_up(
    target: Option<SessionKeyView>,
    agg: AggregatorView,
    reg: RegistryView,
    t: TrackerView,
    events: Seq<TableEvent>,
)
    requires
        target matches Some(k) ==> k.session_id == t.session_id && !AggregatorView::orchestrates(
            reg,
            k,
        ),
        events.len() > 0,
        events.last() is Tick,
    ensures
        served_snapshot(target, agg, reg, t).session_id == t.session_id,
        served_snapshot(target, agg, reg, t).seq == t.current.seq,
        served_snapshot(target, agg, reg, t).nodes == t.current.live_files(),
        served_aggregator(target, agg, reg, t) == agg,
        follows(served_snapshot(target, agg, reg, t).nodes, t.current),
        observed(served_snapshot(target, agg, reg, t).nodes, t.current, t.config, events)
            == after_events(t.current, t.config, events).live_files(),
{
    lemma_observer_keeps_up(t.current.live_files(), t.current, t.config, events);
}

/// The snapshot that a connection gets first, before any line of the
/// channel: that of the session which a connection without a filter
/// resolves to.
pub fn first_snapshot(
    tracker: &ContextTracker,
    registry: &SessionRegistry,
    orchestrator: &mut OrchestratorAggregator,
) -> (r: Snapshot)
    requires
        tracker.wf(),
        registry.wf(),
        old(orchestrator).wf(),
        old(orchestrator)@.has_room(),
    ensures
        final(orchestrator).wf(),
        r.nodes.wf(),
        exists|target: Option<SessionKeyView>|
            resolves(target, None, StreamFilterView::All, registry@, tracker@) && r@
                == served_snapshot(target, old(orchestrator)@, registry@, tracker@)
                && final(orchestrator)@ == served_aggregator(
                target,
                old(orchestrator)@,
                registry@,
                tracker@,
            ),
{
    let filter = StreamFilter::All;
    resolve_snapshot(tracker, registry, orchestrator, None, &filter)
}

} // verus!
