//! What the proxy decides for each line that it forwards: whether the zone
//! lets the line through, and what it sends in place of a line that it
//! blocks.

use vstd::prelude::*;
use vstd::string::StringExecFns;
use serde_json::Value;
use crate::acp::{read_method, write_method};
use crate::extract::{
    after_all, downstream_effects, extract_downstream_at, extract_upstream_at, upstream_effects,
};
use crate::json::{json_parse, json_render, json_view, member, parse, quote, render, text_field, JsonView};
use crate::text::same_text;
use crate::tracker::ContextTracker;
use crate::types::{Action, BlockedAccess, BlockedView, ZoneConfig};

verus! {

/// The JSON-RPC error code of a zone violation.
pub const ZONE_VIOLATION_CODE: i64 = -32001;

/// What a zone violation holds.
pub struct ZoneViolationView {
    pub path: Seq<char>,
    pub action: Seq<char>,
}

/// A request of the agent that the zone refuses.
#[derive(Debug)]
pub struct ZoneViolation {
    pub path: String,
    /// `read` or `write`.
    pub action: String,
}

impl View for ZoneViolation {
    type V = ZoneViolationView;

    open spec fn view(&self) -> ZoneViolationView {
        ZoneViolationView { path: self.path@, action: self.action@ }
    }
}

/// The file request that a message of the agent makes: the kind of access
/// and the path, for a request to read or to write a text file whose
/// parameters carry a path.
pub open spec fn file_request(doc: JsonView) -> Option<ZoneViolationView> {
    match doc.text_field("method"@) {
        Some(method) => {
            let path = match doc.field("params"@) {
                Some(params) => params.text_field("path"@),
                None => None,
            };
            if method == "fs/read_text_file"@ {
                match path {
                    Some(p) => Some(ZoneViolationView { path: p, action: "read"@ }),
                    None => None,
                }
            } else if method == "fs/write_text_file"@ {
                match path {
                    Some(p) => Some(ZoneViolationView { path: p, action: "write"@ }),
                    None => None,
                }
            } else {
                None
            }
        },
        None => None,
    }
}

/// The violation that a message of the agent is: a file request for a path
/// that the zone does not permit.
pub open spec fn violation_of(doc: JsonView, zone: ZoneConfig) -> Option<ZoneViolationView> {
    match file_request(doc) {
        Some(request) => if zone.permits(request.path) {
            None
        } else {
            Some(request)
        },
        None => None,
    }
}

/// The violation that the message `v` of the agent is, if it is one.
pub fn check_zone_violation(v: &Value, zone: &ZoneConfig) -> (r: Option<ZoneViolation>)
    ensures
        match r {
            Some(violation) => violation_of(json_view(*v), *zone) == Some(violation@),
            None => violation_of(json_view(*v), *zone) is None,
        },
{
    let method = match text_field(v, "method") {
        Some(m) => m,
        None => {
            return None;
        },
    };
    let path = match member(v, "params") {
        Some(params) => text_field(params, "path"),
        None => None,
    };
    let action = if same_text(method, read_method()) {
        "read"
    } else if same_text(method, write_method()) {
        "write"
    } else {
        return None;
    };
    match path {
        Some(p) => {
            if zone.is_allowed(p) {
                None
            } else {
                Some(ZoneViolation { path: p.to_owned(), action: action.to_owned() })
            }
        },
        None => None,
    }
}

/// The message of the error that answers a blocked request for `path`.
pub open spec fn zone_message(path: Seq<char>) -> Seq<char> {
    "Outside agent zone: "@ + path
        + ". Request cross-region info through the orchestrator."@
}

/// The line that answers a blocked request with the identifier `id`: a
/// JSON-RPC error with the code of a zone violation and a message that names
/// the path, followed by a newline.
pub open spec fn zone_error_line(id: JsonView, path: Seq<char>) -> Seq<char> {
    "{\"jsonrpc\":\"2.0\",\"id\":"@ + json_render(id)
        + ",\"error\":{\"code\":-32001,\"message\":"@ + json_render(
        JsonView::Text(zone_message(path)),
    ) + "}}\n"@
}

/// The line that answers a blocked request with the identifier `id`.
pub fn zone_error(id: &Value, path: &str) -> (r: String)
    ensures
        r@ == zone_error_line(json_view(*id), path@),
{
    let mut message = "Outside agent zone: ".to_owned();
    message.append(path);
    message.append(". Request cross-region info through the orchestrator.");
    let mut line = "{\"jsonrpc\":\"2.0\",\"id\":".to_owned();
    line.append(render(id).as_str());
    line.append(",\"error\":{\"code\":-32001,\"message\":");
    line.append(quote(message.as_str()).as_str());
    line.append("}}\n");
    line
}

/// What the proxy does with a line of the agent.
#[derive(Debug)]
pub enum DownstreamAction {
    /// The line goes on to the editor unchanged.
    Forward,
    /// The line is held back. The response, if there is one, goes to the
    /// editor's side in its place, and the notice goes to the observers.
    Block { response: Option<String>, notice: BlockedAccess },
}

/// The violation that the line `line` is under the zone `zone`; a line that
/// is no JSON is none, and without a zone nothing is.
pub open spec fn line_violation(line: Seq<char>, zone: Option<ZoneConfig>) -> Option<ZoneViolationView> {
    match (zone, json_parse(line)) {
        (Some(z), Some(doc)) => violation_of(doc, z),
        _ => None,
    }
}

/// The response to the blocked line `line` for `path`: an error under the
/// identifier of the line, if it has one.
pub open spec fn block_response(line: Seq<char>, path: Seq<char>) -> Option<Seq<char>> {
    match json_parse(line) {
        Some(doc) => match doc.field("id"@) {
            Some(id) => Some(zone_error_line(id, path)),
            None => None,
        },
        None => None,
    }
}

/// The view of an optional string.
pub open spec fn response_view(response: Option<String>) -> Option<Seq<char>> {
    match response {
        Some(r) => Some(r@),
        None => None,
    }
}

/// Takes a line from the agent, at the time `now`, and says what the proxy
/// does with it.
///
/// A line that violates the zone is blocked: the access is recorded as
/// blocked, the line is not looked at any further, an error goes back under
/// the identifier of the request, and a notice goes to the observers. Every
/// other line is taken in and forwarded.
pub fn downstream_step(
    line: &str,
    tracker: &mut ContextTracker,
    zone: Option<&ZoneConfig>,
    now: u64,
) -> (r: DownstreamAction)
    requires
        old(tracker).wf(),
        old(tracker)@.has_room(),
    ensures
        final(tracker).wf(),
        match line_violation(
            line@,
            match zone {
                Some(z) => Some(*z),
                None => None,
            },
        ) {
            Some(violation) => {
                &&& r matches DownstreamAction::Block { response, notice }
                &&& final(tracker)@ == old(tracker)@.file_accessed(
                    violation.path,
                    Action::Blocked,
                    now,
                )
                &&& response_view(response) == block_response(line@, violation.path)
                &&& notice@ == (BlockedView {
                    msg_type: "blocked"@,
                    agent_id: old(tracker)@.agent_id,
                    session_id: old(tracker)@.session_id,
                    path: violation.path,
                    action: violation.action,
                    timestamp_ms: now,
                })
            },
            None => r is Forward && final(tracker)@ == after_all(
                old(tracker)@,
                downstream_effects(line@),
                now,
            ),
        },
{
    match zone {
        Some(z) => {
            match parse(line) {
                Some(doc) => {
                    match check_zone_violation(&doc, z) {
                        Some(violation) => {
                            let notice = BlockedAccess::at(
                                tracker.agent_id(),
                                tracker.session_id(),
                                violation.path.as_str(),
                                violation.action.as_str(),
                                now,
                            );
                            tracker.file_access_at(violation.path.as_str(), Action::Blocked, now);
                            let response = match member(&doc, "id") {
                                Some(id) => Some(zone_error(id, violation.path.as_str())),
                                None => None,
                            };
                            return DownstreamAction::Block { response, notice };
                        },
                        None => {},
                    }
                },
                None => {},
            }
        },
        None => {},
    }
    extract_downstream_at(line, tracker, now);
    DownstreamAction::Forward
}

/// Takes a line from the editor, at the time `now`. The line is always
/// forwarded unchanged.
pub fn upstream_step(line: &str, tracker: &mut ContextTracker, now: u64)
    requires
        old(tracker).wf(),
    ensures
        final(tracker).wf(),
        final(tracker)@ == after_all(
            old(tracker)@,
            upstream_effects(line@, old(tracker)@.awaited),
            now,
        ),
{
    extract_upstream_at(line, tracker, now);
}

} // verus!
