//! What one line of the traffic between editor and agent tells about files.
//!
//! A line is read as JSON, the effects that it has on the tracker are
//! planned, and the plan is carried out. A line that is no JSON, or that
//! carries nothing about files, has an empty plan.

use vstd::prelude::*;
use agent_client_protocol_schema::v1::{ToolCallContent, ToolKind};
use serde_json::Value;
use crate::acp::{
    acp_content_item, acp_prompt, acp_read_path, acp_tool_activity, acp_tool_tag, acp_write_path,
    block_views, content_item, content_views, prompt_blocks, prompt_method, read_method,
    read_path, terminal_method, tool_activity, tool_tag, update_method, write_method, write_path,
    ContentItem, ContentItemView, PromptBlock, PromptBlockView, ToolActivity,
    ToolActivityView, ToolTag,
};
use crate::clock::now_ms;
use crate::json::{json_parse, json_view, member, parse, text_field, unsigned_field, JsonView};
use crate::paths::{files_in_text, path_of_uri, redirects_in, scan_text, scan_title, uri_to_path};
use crate::text::same_text;
use crate::tracker::{ContextTracker, TrackerView};
use crate::types::{texts, Action};

verus! {

/// What an effect on the tracker holds.
pub enum EffectView {
    /// A file was accessed.
    Access { path: Seq<char>, action: Action },
    /// A turn of the agent ended.
    EndTurn,
    /// The agent named its session; the name counts where the tracker has
    /// none yet.
    AdoptSession(Seq<char>),
    /// The response to this request will carry terminal output.
    Await(u64),
    /// The response to this request has come.
    Settle(u64),
}

/// One effect of a line on the tracker.
#[derive(Debug)]
pub enum Effect {
    /// A file was accessed.
    Access { path: String, action: Action },
    /// A turn of the agent ended.
    EndTurn,
    /// The agent named its session.
    AdoptSession(String),
    /// The response to this request will carry terminal output.
    Await(u64),
    /// The response to this request has come.
    Settle(u64),
}

impl View for Effect {
    type V = EffectView;

    open spec fn view(&self) -> EffectView {
        match self {
            Effect::Access { path, action } => EffectView::Access { path: path@, action: *action },
            Effect::EndTurn => EffectView::EndTurn,
            Effect::AdoptSession(id) => EffectView::AdoptSession(id@),
            Effect::Await(id) => EffectView::Await(*id),
            Effect::Settle(id) => EffectView::Settle(*id),
        }
    }
}

/// The views of a list of effects.
pub open spec fn effect_views(list: Seq<Effect>) -> Seq<EffectView> {
    list.map_values(|e: Effect| e@)
}

/// The tracker after the effect `e` at the time `now`.
pub open spec fn after(t: TrackerView, e: EffectView, now: u64) -> TrackerView {
    match e {
        EffectView::Access { path, action } => t.file_accessed(path, action, now),
        EffectView::EndTurn => t.turn_ended(),
        EffectView::AdoptSession(id) => if t.session_id.len() == 0 {
            t.switched(id)
        } else {
            t
        },
        EffectView::Await(id) => TrackerView { awaited: t.awaited.insert(id), ..t },
        EffectView::Settle(id) => TrackerView { awaited: t.awaited.remove(id), ..t },
    }
}

/// The tracker after the effects `effects`, one after the other, at the time
/// `now`.
pub open spec fn after_all(t: TrackerView, effects: Seq<EffectView>, now: u64) -> TrackerView
    decreases effects.len(),
{
    if effects.len() == 0 {
        t
    } else {
        after(after_all(t, effects.drop_last(), now), effects.last(), now)
    }
}

/// Whether each end of a turn among `effects` finds a turn counter that can
/// still count it.
pub open spec fn appliable(t: TrackerView, effects: Seq<EffectView>, now: u64) -> bool
    decreases effects.len(),
{
    if effects.len() == 0 {
        true
    } else {
        &&& appliable(t, effects.drop_last(), now)
        &&& effects.last() is EndTurn ==> after_all(
            t,
            effects.drop_last(),
            now,
        ).current.current_turn < u32::MAX
    }
}

/// Whether no effect of `effects` ends a turn.
pub open spec fn quiet(effects: Seq<EffectView>) -> bool {
    forall|i: int| 0 <= i < effects.len() ==> !(#[trigger] effects[i] is EndTurn)
}

/// Whether at most one effect of `effects` ends a turn.
pub open spec fn one_turn_at_most(effects: Seq<EffectView>) -> bool {
    forall|i: int, j: int|
        0 <= i < effects.len() && 0 <= j < effects.len() && #[trigger] effects[i] is EndTurn
            && #[trigger] effects[j] is EndTurn ==> i == j
}

/// Effects that end no turn can be carried out, and leave room in every turn
/// counter that had room.
pub proof fn lemma_quiet_appliable(t: TrackerView, effects: Seq<EffectView>, now: u64)
    requires
        quiet(effects),
    ensures
        appliable(t, effects, now),
        t.has_room() ==> after_all(t, effects, now).has_room(),
    decreases effects.len(),
{
    if effects.len() > 0 {
        let rest = effects.drop_last();
        assert forall|i: int| 0 <= i < rest.len() implies !(#[trigger] rest[i] is EndTurn) by {
            assert(rest[i] == effects[i]);
        }
        lemma_quiet_appliable(t, rest, now);
        assert(!(effects[effects.len() - 1] is EndTurn));
    }
}

/// Effects that end at most one turn can be carried out on a tracker all of
/// whose turn counters have room.
pub proof fn lemma_room_appliable(t: TrackerView, effects: Seq<EffectView>, now: u64)
    requires
        t.has_room(),
        one_turn_at_most(effects),
    ensures
        appliable(t, effects, now),
    decreases effects.len(),
{
    if effects.len() > 0 {
        let rest = effects.drop_last();
        let n = effects.len() - 1;
        if effects.last() is EndTurn {
            assert forall|i: int| 0 <= i < rest.len() implies !(#[trigger] rest[i] is EndTurn) by {
                assert(rest[i] == effects[i]);
                assert(effects[n] is EndTurn);
            }
            lemma_quiet_appliable(t, rest, now);
        } else {
            assert forall|i: int, j: int|
                0 <= i < rest.len() && 0 <= j < rest.len() && #[trigger] rest[i] is EndTurn
                    && #[trigger] rest[j] is EndTurn implies i == j by {
                assert(rest[i] == effects[i]);
                assert(rest[j] == effects[j]);
            }
            lemma_room_appliable(t, rest, now);
        }
    }
}

/// Carries out the effects `effects` on the tracker, at the time `now`.
pub fn apply_effects(tracker: &mut ContextTracker, effects: &Vec<Effect>, now: u64)
    requires
        old(tracker).wf(),
        appliable(old(tracker)@, effect_views(effects@), now),
    ensures
        final(tracker).wf(),
        final(tracker)@ == after_all(old(tracker)@, effect_views(effects@), now),
{
    let ghost all = effect_views(effects@);
    let ghost start = tracker@;
    let mut i: usize = 0;
    assert(all.take(0) =~= Seq::empty());
    while i < effects.len()
        invariant
            i <= effects.len(),
            all == effect_views(effects@),
            tracker.wf(),
            appliable(start, all, now),
            tracker@ == after_all(start, all.take(i as int), now),
        decreases effects.len() - i,
    {
        proof {
            assert(all.take(i + 1).drop_last() == all.take(i as int));
            assert(all.take(i + 1).last() == effects@[i as int]@);
            lemma_prefix_appliable(start, all, i + 1, now);
        }
        match &effects[i] {
            Effect::Access { path, action } => {
                tracker.file_access_at(path.as_str(), *action, now);
            },
            Effect::EndTurn => {
                tracker.end_turn();
            },
            Effect::AdoptSession(id) => {
                if tracker.session_id().is_empty() {
                    tracker.set_session_id(id.clone());
                }
            },
            Effect::Await(id) => {
                tracker.add_pending_terminal_output(*id);
            },
            Effect::Settle(id) => {
                let _ = tracker.take_pending_terminal_output(*id);
            },
        }
        i = i + 1;
    }
    assert(all.take(effects.len() as int) == all);
}

/// Where a list of effects can be carried out, so can each of its beginnings.
pub proof fn lemma_prefix_appliable(t: TrackerView, effects: Seq<EffectView>, k: int, now: u64)
    requires
        appliable(t, effects, now),
        0 <= k <= effects.len(),
    ensures
        appliable(t, effects.take(k), now),
    decreases effects.len(),
{
    if k < effects.len() {
        lemma_prefix_appliable(t, effects.drop_last(), k, now);
        assert(effects.drop_last().take(k) == effects.take(k));
    } else {
        assert(effects.take(k) == effects);
    }
}

/// The accesses to the paths `paths`, each with the action `action`.
pub open spec fn accesses(paths: Seq<Seq<char>>, action: Action) -> Seq<EffectView> {
    paths.map_values(|p: Seq<char>| EffectView::Access { path: p, action })
}

/// Adds an access with the action `action` to each path of `paths`.
fn push_accesses(out: &mut Vec<Effect>, paths: &Vec<String>, action: Action)
    ensures
        effect_views(final(out)@) == effect_views(old(out)@) + accesses(texts(paths@), action),
        quiet(effect_views(old(out)@)) ==> quiet(effect_views(final(out)@)),
{
    let ghost start = effect_views(out@);
    let ghost all = accesses(texts(paths@), action);
    let mut i: usize = 0;
    assert(start + all.take(0) =~= start);
    while i < paths.len()
        invariant
            i <= paths.len(),
            all == accesses(texts(paths@), action),
            effect_views(out@) == start + all.take(i as int),
            quiet(start) ==> quiet(effect_views(out@)),
        decreases paths.len() - i,
    {
        let ghost before = effect_views(out@);
        out.push(Effect::Access { path: paths[i].clone(), action });
        assert(effect_views(out@) =~= before.push(all[i as int]));
        assert(start + all.take(i + 1) =~= (start + all.take(i as int)).push(all[i as int]));
        i = i + 1;
    }
    assert(all.take(paths.len() as int) =~= all);
}

/// The access that a block of a prompt stands for: an embedded resource
/// with a `file://` URI is a file that the user provided, a resource link
/// with such a URI is a file that the user referred to, and any other block
/// is no access.
pub open spec fn block_access(block: PromptBlockView) -> Option<EffectView> {
    match block {
        PromptBlockView::Embedded(uri) => match path_of_uri(uri) {
            Some(path) => Some(EffectView::Access { path, action: Action::UserProvided }),
            None => None,
        },
        PromptBlockView::Link(uri) => match path_of_uri(uri) {
            Some(path) => Some(EffectView::Access { path, action: Action::UserReferenced }),
            None => None,
        },
        PromptBlockView::Other => None,
    }
}

/// The accesses that the blocks of a prompt stand for, in order.
pub open spec fn prompt_accesses(blocks: Seq<PromptBlockView>) -> Seq<EffectView>
    decreases blocks.len(),
{
    if blocks.len() == 0 {
        Seq::empty()
    } else {
        match block_access(blocks.last()) {
            Some(e) => prompt_accesses(blocks.drop_last()).push(e),
            None => prompt_accesses(blocks.drop_last()),
        }
    }
}

/// The number of blocks among `blocks` that stand for an access.
pub open spec fn file_blocks(blocks: Seq<PromptBlockView>) -> nat
    decreases blocks.len(),
{
    if blocks.len() == 0 {
        0
    } else if block_access(blocks.last()) is Some {
        file_blocks(blocks.drop_last()) + 1
    } else {
        file_blocks(blocks.drop_last())
    }
}

/// A prompt gives exactly one access for each of its blocks that bears a
/// file, in the order of the blocks, with the action of the block's kind.
pub proof fn lemma_one_access_per_file_block(blocks: Seq<PromptBlockView>)
    ensures
        prompt_accesses(blocks).len() == file_blocks(blocks),
        forall|i: int|
            #![trigger prompt_accesses(blocks)[i]]
            0 <= i < prompt_accesses(blocks).len() ==> exists|b: int|
                0 <= b < blocks.len() && block_access(#[trigger] blocks[b]) == Some(
                    prompt_accesses(blocks)[i],
                ),
    decreases blocks.len(),
{
    if blocks.len() > 0 {
        let rest = blocks.drop_last();
        lemma_one_access_per_file_block(rest);
        let got = prompt_accesses(blocks);
        assert forall|i: int| #![trigger got[i]] 0 <= i < got.len() implies exists|b: int|
            0 <= b < blocks.len() && block_access(#[trigger] blocks[b]) == Some(got[i]) by {
            if i < prompt_accesses(rest).len() {
                let b = choose|b: int|
                    0 <= b < rest.len() && block_access(#[trigger] rest[b]) == Some(
                        prompt_accesses(rest)[i],
                    );
                assert(blocks[b] == rest[b]);
            } else {
                assert(block_access(blocks[blocks.len() - 1]) == Some(got[i]));
            }
        }
    }
}

/// The accesses that the blocks of a prompt stand for.
pub fn extract_from_prompt(blocks: &Vec<PromptBlock>) -> (r: Vec<Effect>)
    ensures
        effect_views(r@) == prompt_accesses(block_views(blocks@)),
        quiet(effect_views(r@)),
{
    let ghost all = block_views(blocks@);
    let mut out: Vec<Effect> = Vec::new();
    let mut i: usize = 0;
    assert(effect_views(out@) =~= prompt_accesses(all.take(0)));
    while i < blocks.len()
        invariant
            i <= blocks.len(),
            all == block_views(blocks@),
            effect_views(out@) == prompt_accesses(all.take(i as int)),
            quiet(effect_views(out@)),
        decreases blocks.len() - i,
    {
        assert(all.take(i + 1).drop_last() == all.take(i as int));
        assert(all.take(i + 1).last() == blocks@[i as int]@);
        let ghost before = effect_views(out@);
        match &blocks[i] {
            PromptBlock::Embedded(uri) => {
                match uri_to_path(uri.as_str()) {
                    Some(path) => {
                        out.push(Effect::Access { path, action: Action::UserProvided });
                        assert(effect_views(out@) =~= before.push(
                            EffectView::Access { path: path@, action: Action::UserProvided },
                        ));
                    },
                    None => {},
                }
            },
            PromptBlock::Link(uri) => {
                match uri_to_path(uri.as_str()) {
                    Some(path) => {
                        out.push(Effect::Access { path, action: Action::UserReferenced });
                        assert(effect_views(out@) =~= before.push(
                            EffectView::Access { path: path@, action: Action::UserReferenced },
                        ));
                    },
                    None => {},
                }
            },
            PromptBlock::Other => {},
        }
        i = i + 1;
    }
    assert(all.take(blocks.len() as int) == all);
    out
}

/// The action that a tool of the category `tag` stands for: reading reads,
/// editing, deleting and moving write, searching searches, and every other
/// tool counts as reading.
pub open spec fn tag_action(tag: ToolTag) -> Action {
    match tag {
        ToolTag::Read => Action::Read,
        ToolTag::Edit => Action::Write,
        ToolTag::Delete => Action::Write,
        ToolTag::Move => Action::Write,
        ToolTag::Search => Action::Search,
        _ => Action::Read,
    }
}

/// The action that a tool of the category `tag` stands for.
pub fn action_of_tag(tag: ToolTag) -> (r: Action)
    ensures
        r == tag_action(tag),
{
    match tag {
        ToolTag::Read => Action::Read,
        ToolTag::Edit => Action::Write,
        ToolTag::Delete => Action::Write,
        ToolTag::Move => Action::Write,
        ToolTag::Search => Action::Search,
        _ => Action::Read,
    }
}

/// The action that a tool of the kind `kind` stands for.
pub fn tool_kind_to_action(kind: &ToolKind) -> (r: Action)
    ensures
        r == tag_action(acp_tool_tag(*kind)),
{
    action_of_tag(tool_tag(kind))
}

/// The accesses of the diffs among `content`: each diff writes its file.
pub open spec fn diff_accesses(content: Seq<ContentItemView>) -> Seq<EffectView>
    decreases content.len(),
{
    if content.len() == 0 {
        Seq::empty()
    } else {
        match content.last() {
            ContentItemView::Diff(path) => diff_accesses(content.drop_last()).push(
                EffectView::Access { path, action: Action::Write },
            ),
            _ => diff_accesses(content.drop_last()),
        }
    }
}

/// The accesses of the text blocks among `content`: each file that a line
/// of such a text names was found by a search.
pub open spec fn text_accesses(content: Seq<ContentItemView>) -> Seq<EffectView>
    decreases content.len(),
{
    if content.len() == 0 {
        Seq::empty()
    } else {
        match content.last() {
            ContentItemView::Text(text) => text_accesses(content.drop_last()) + accesses(
                files_in_text(text),
                Action::Search,
            ),
            _ => text_accesses(content.drop_last()),
        }
    }
}

/// Adds the accesses of the diffs among `content`.
pub fn extract_diff_paths(content: &Vec<ToolCallContent>, out: &mut Vec<Effect>)
    ensures
        effect_views(final(out)@) == effect_views(old(out)@) + diff_accesses(
            content_views(content@),
        ),
        quiet(effect_views(old(out)@)) ==> quiet(effect_views(final(out)@)),
{
    let ghost start = effect_views(out@);
    let ghost all = content_views(content@);
    let mut i: usize = 0;
    assert(start + diff_accesses(all.take(0)) =~= start);
    while i < content.len()
        invariant
            i <= content.len(),
            all == content_views(content@),
            effect_views(out@) == start + diff_accesses(all.take(i as int)),
            quiet(start) ==> quiet(effect_views(out@)),
        decreases content.len() - i,
    {
        assert(all.take(i + 1).drop_last() == all.take(i as int));
        assert(all.take(i + 1).last() == acp_content_item(content@[i as int]));
        let ghost before = effect_views(out@);
        match content_item(&content[i]) {
            ContentItem::Diff(path) => {
                out.push(Effect::Access { path, action: Action::Write });
                assert(effect_views(out@) =~= before.push(
                    EffectView::Access { path: path@, action: Action::Write },
                ));
                assert(start + diff_accesses(all.take(i + 1)) =~= before.push(
                    EffectView::Access { path: path@, action: Action::Write },
                ));
            },
            _ => {},
        }
        i = i + 1;
    }
    assert(all.take(content.len() as int) == all);
}

/// Adds the accesses of the text blocks among `content`.
pub fn extract_search_result_paths(content: &Vec<ToolCallContent>, out: &mut Vec<Effect>)
    ensures
        effect_views(final(out)@) == effect_views(old(out)@) + text_accesses(
            content_views(content@),
        ),
        quiet(effect_views(old(out)@)) ==> quiet(effect_views(final(out)@)),
{
    let ghost start = effect_views(out@);
    let ghost all = content_views(content@);
    let mut i: usize = 0;
    assert(start + text_accesses(all.take(0)) =~= start);
    while i < content.len()
        invariant
            i <= content.len(),
            all == content_views(content@),
            effect_views(out@) == start + text_accesses(all.take(i as int)),
            quiet(start) ==> quiet(effect_views(out@)),
        decreases content.len() - i,
    {
        assert(all.take(i + 1).drop_last() == all.take(i as int));
        assert(all.take(i + 1).last() == acp_content_item(content@[i as int]));
        let ghost before = effect_views(out@);
        match content_item(&content[i]) {
            ContentItem::Text(text) => {
                let files = scan_text(text.as_str());
                push_accesses(out, &files, Action::Search);
                assert(start + text_accesses(all.take(i + 1)) =~= before + accesses(
                    files_in_text(text@),
                    Action::Search,
                ));
            },
            _ => {},
        }
        i = i + 1;
    }
    assert(all.take(content.len() as int) == all);
}

/// Adds the accesses of the redirections in the shell line `title`: each
/// target is written.
pub fn extract_shell_write_paths(title: &str, out: &mut Vec<Effect>)
    ensures
        effect_views(final(out)@) == effect_views(old(out)@) + accesses(
            redirects_in(title@),
            Action::Write,
        ),
        quiet(effect_views(old(out)@)) ==> quiet(effect_views(final(out)@)),
{
    let targets = scan_title(title);
    push_accesses(out, &targets, Action::Write);
}

/// Adds the accesses of the files that the lines of the terminal output
/// `output` name: each was found by a search.
pub fn extract_paths_from_terminal_output(output: &str, out: &mut Vec<Effect>)
    ensures
        effect_views(final(out)@) == effect_views(old(out)@) + accesses(
            files_in_text(output@),
            Action::Search,
        ),
        quiet(effect_views(old(out)@)) ==> quiet(effect_views(final(out)@)),
{
    let files = scan_text(output);
    push_accesses(out, &files, Action::Search);
}

impl ToolActivityView {
    /// The action of the tool: that of its kind, and reading where no kind
    /// is given.
    pub open spec fn action(self) -> Action {
        match self.kind {
            Some(tag) => tag_action(tag),
            None => Action::Read,
        }
    }

    /// Whether the text that the tool produced is scanned for files: that
    /// of a search and that of a command.
    pub open spec fn scans_text(self) -> bool {
        self.kind == Some(ToolTag::Search) || self.kind == Some(ToolTag::Execute)
    }

    /// Whether the title is scanned for redirections: that of a command.
    pub open spec fn scans_title(self) -> bool {
        self.kind == Some(ToolTag::Execute)
    }

    /// The accesses to the locations of the tool.
    pub open spec fn location_effects(self) -> Seq<EffectView> {
        match self.locations {
            Some(paths) => accesses(paths, self.action()),
            None => Seq::empty(),
        }
    }

    /// The accesses that the content of the tool shows.
    pub open spec fn content_effects(self) -> Seq<EffectView> {
        match self.content {
            Some(content) => diff_accesses(content) + if self.scans_text() {
                text_accesses(content)
            } else {
                Seq::empty()
            },
            None => Seq::empty(),
        }
    }

    /// The accesses that the title of the tool shows.
    pub open spec fn title_effects(self) -> Seq<EffectView> {
        match self.title {
            Some(title) => if self.scans_title() {
                accesses(redirects_in(title), Action::Write)
            } else {
                Seq::empty()
            },
            None => Seq::empty(),
        }
    }

    /// The accesses of a tool call or tool call update: its locations, with
    /// the action of its kind; the files of its diffs, written; the files
    /// that the text of a search or of a command names, searched; and the
    /// targets of the redirections in the title of a command, written.
    pub open spec fn effects(self) -> Seq<EffectView> {
        self.location_effects() + self.content_effects() + self.title_effects()
    }
}

/// The accesses of a tool call or of a tool call update.
pub fn extract_from_session_update(activity: &ToolActivity) -> (r: Vec<Effect>)
    ensures
        effect_views(r@) == activity@.effects(),
        quiet(effect_views(r@)),
{
    let ghost a = activity@;
    let tag = match &activity.kind {
        Some(kind) => Some(tool_tag(kind)),
        None => None,
    };
    let action = match tag {
        Some(t) => action_of_tag(t),
        None => Action::Read,
    };
    let scans_text = match tag {
        Some(ToolTag::Search) => true,
        Some(ToolTag::Execute) => true,
        _ => false,
    };
    let runs = match tag {
        Some(ToolTag::Execute) => true,
        _ => false,
    };
    let mut out: Vec<Effect> = Vec::new();
    assert(effect_views(out@) =~= Seq::empty());
    match &activity.locations {
        Some(paths) => {
            push_accesses(&mut out, paths, action);
        },
        None => {},
    }
    assert(effect_views(out@) =~= a.location_effects());
    match &activity.content {
        Some(content) => {
            extract_diff_paths(content, &mut out);
            if scans_text {
                extract_search_result_paths(content, &mut out);
            }
        },
        None => {},
    }
    assert(effect_views(out@) =~= a.location_effects() + a.content_effects());
    match &activity.title {
        Some(title) => {
            if runs {
                extract_shell_write_paths(title.as_str(), &mut out);
            }
        },
        None => {},
    }
    assert(effect_views(out@) =~= a.effects());
    out
}

/// The terminal output that a response carries: the text `output` of its
/// result.
pub open spec fn output_of(doc: JsonView) -> Option<Seq<char>> {
    match doc.field("result"@) {
        Some(result) => result.text_field("output"@),
        None => None,
    }
}

/// The effects of a message from the editor to the agent.
///
/// A response, which has no method, counts where its request is awaited:
/// the request is settled, and each file that a line of the output names
/// was found by a search. A `session/prompt` request gives the accesses of
/// its blocks, where its parameters are a valid prompt. Every other message
/// has no effect.
pub open spec fn upstream_plan(doc: JsonView, awaited: Set<u64>) -> Seq<EffectView> {
    if doc.field("method"@) is None {
        match doc.unsigned_field("id"@) {
            Some(id) => if awaited.contains(id) {
                seq![EffectView::Settle(id)] + match output_of(doc) {
                    Some(text) => accesses(files_in_text(text), Action::Search),
                    None => Seq::empty(),
                }
            } else {
                Seq::empty()
            },
            None => Seq::empty(),
        }
    } else if doc.text_field("method"@) == Some("session/prompt"@) {
        match doc.field("params"@) {
            Some(params) => match acp_prompt(params) {
                Some(blocks) => prompt_accesses(blocks),
                None => Seq::empty(),
            },
            None => Seq::empty(),
        }
    } else {
        Seq::empty()
    }
}

/// The effects of a response from the agent: where its result names a
/// session, the name is adopted; where its result gives a stop reason, a
/// turn ends.
pub open spec fn response_plan(doc: JsonView) -> Seq<EffectView> {
    match doc.field("result"@) {
        Some(result) => (match result.text_field("sessionId"@) {
            Some(id) => seq![EffectView::AdoptSession(id)],
            None => Seq::empty(),
        }) + (if result.text_field("stopReason"@) is Some {
            seq![EffectView::EndTurn]
        } else {
            Seq::empty()
        }),
        None => Seq::empty(),
    }
}

/// The effects of a message of the agent with the method `method`.
///
/// A `session/update` gives the accesses of its tool call or tool call
/// update; `fs/read_text_file` reads its path and `fs/write_text_file` writes
/// it, where the parameters are valid; `terminal/output` makes the response
/// to its request awaited. Every other method has no effect.
pub open spec fn request_plan(doc: JsonView, method: Seq<char>) -> Seq<EffectView> {
    if method == "session/update"@ {
        match doc.field("params"@) {
            Some(params) => match acp_tool_activity(params) {
                Some(activity) => activity.effects(),
                None => Seq::empty(),
            },
            None => Seq::empty(),
        }
    } else if method == "fs/read_text_file"@ {
        match doc.field("params"@) {
            Some(params) => match acp_read_path(params) {
                Some(path) => seq![EffectView::Access { path, action: Action::Read }],
                None => Seq::empty(),
            },
            None => Seq::empty(),
        }
    } else if method == "terminal/output"@ {
        match doc.unsigned_field("id"@) {
            Some(id) => seq![EffectView::Await(id)],
            None => Seq::empty(),
        }
    } else if method == "fs/write_text_file"@ {
        match doc.field("params"@) {
            Some(params) => match acp_write_path(params) {
                Some(path) => seq![EffectView::Access { path, action: Action::Write }],
                None => Seq::empty(),
            },
            None => Seq::empty(),
        }
    } else {
        Seq::empty()
    }
}

/// The effects of a message from the agent to the editor.
pub open spec fn downstream_plan(doc: JsonView) -> Seq<EffectView> {
    if doc.field("method"@) is None {
        response_plan(doc)
    } else {
        match doc.text_field("method"@) {
            Some(method) => request_plan(doc, method),
            None => Seq::empty(),
        }
    }
}

/// The effects of a line from the editor to the agent; a line that is no
/// JSON has none.
pub open spec fn upstream_effects(line: Seq<char>, awaited: Set<u64>) -> Seq<EffectView> {
    match json_parse(line) {
        Some(doc) => upstream_plan(doc, awaited),
        None => Seq::empty(),
    }
}

/// The effects of a line from the agent to the editor; a line that is no
/// JSON has none.
pub open spec fn downstream_effects(line: Seq<char>) -> Seq<EffectView> {
    match json_parse(line) {
        Some(doc) => downstream_plan(doc),
        None => Seq::empty(),
    }
}

/// The effects of the message `doc` from the editor to the agent, for a
/// tracker that awaits what `tracker` awaits.
pub fn plan_upstream(doc: &Value, tracker: &ContextTracker) -> (r: Vec<Effect>)
    ensures
        effect_views(r@) == upstream_plan(json_view(*doc), tracker@.awaited),
        quiet(effect_views(r@)),
{
    let mut out: Vec<Effect> = Vec::new();
    assert(effect_views(out@) =~= Seq::empty());
    if member(doc, "method").is_none() {
        match unsigned_field(doc, "id") {
            Some(id) => {
                if tracker.awaits(id) {
                    out.push(Effect::Settle(id));
                    assert(effect_views(out@) =~= seq![EffectView::Settle(id)]);
                    match member(doc, "result") {
                        Some(result) => {
                            match text_field(result, "output") {
                                Some(text) => {
                                    extract_paths_from_terminal_output(text, &mut out);
                                },
                                None => {},
                            }
                        },
                        None => {},
                    }
                    assert(effect_views(out@) =~= upstream_plan(
                        json_view(*doc),
                        tracker@.awaited,
                    ));
                }
            },
            None => {},
        }
        return out;
    }
    match text_field(doc, "method") {
        Some(method) => {
            if same_text(method, prompt_method()) {
                match member(doc, "params") {
                    Some(params) => {
                        match prompt_blocks(params) {
                            Some(blocks) => {
                                return extract_from_prompt(&blocks);
                            },
                            None => {},
                        }
                    },
                    None => {},
                }
            }
        },
        None => {},
    }
    out
}

/// The effects of the message `doc` from the agent to the editor.
pub fn plan_downstream(doc: &Value) -> (r: Vec<Effect>)
    ensures
        effect_views(r@) == downstream_plan(json_view(*doc)),
        one_turn_at_most(effect_views(r@)),
{
    let mut out: Vec<Effect> = Vec::new();
    assert(effect_views(out@) =~= Seq::empty());
    if member(doc, "method").is_none() {
        match member(doc, "result") {
            Some(result) => {
                match text_field(result, "sessionId") {
                    Some(id) => {
                        out.push(Effect::AdoptSession(id.to_owned()));
                        assert(effect_views(out@) =~= seq![EffectView::AdoptSession(id@)]);
                    },
                    None => {},
                }
                let ghost first = effect_views(out@);
                if text_field(result, "stopReason").is_some() {
                    out.push(Effect::EndTurn);
                    assert(effect_views(out@) =~= first + seq![EffectView::EndTurn]);
                } else {
                    assert(effect_views(out@) =~= first + Seq::empty());
                }
            },
            None => {},
        }
        return out;
    }
    let method = match text_field(doc, "method") {
        Some(m) => m,
        None => {
            return out;
        },
    };
    if same_text(method, update_method()) {
        match member(doc, "params") {
            Some(params) => {
                match tool_activity(params) {
                    Some(activity) => {
                        return extract_from_session_update(&activity);
                    },
                    None => {},
                }
            },
            None => {},
        }
    } else if same_text(method, read_method()) {
        match member(doc, "params") {
            Some(params) => {
                match read_path(params) {
                    Some(path) => {
                        out.push(Effect::Access { path, action: Action::Read });
                        assert(effect_views(out@) =~= seq![
                            EffectView::Access { path: path@, action: Action::Read },
                        ]);
                    },
                    None => {},
                }
            },
            None => {},
        }
    } else if same_text(method, terminal_method()) {
        match unsigned_field(doc, "id") {
            Some(id) => {
                out.push(Effect::Await(id));
                assert(effect_views(out@) =~= seq![EffectView::Await(id)]);
            },
            None => {},
        }
    } else if same_text(method, write_method()) {
        match member(doc, "params") {
            Some(params) => {
                match write_path(params) {
                    Some(path) => {
                        out.push(Effect::Access { path, action: Action::Write });
                        assert(effect_views(out@) =~= seq![
                            EffectView::Access { path: path@, action: Action::Write },
                        ]);
                    },
                    None => {},
                }
            },
            None => {},
        }
    }
    out
}

/// Takes in a line from the editor to the agent, at the time `now`.
pub fn extract_upstream_at(line: &str, tracker: &mut ContextTracker, now: u64)
    requires
        old(tracker).wf(),
    ensures
        final(tracker).wf(),
        final(tracker)@ == after_all(
            old(tracker)@,
            upstream_effects(line@, old(tracker)@.awaited),
            now,
        ),
{
    match parse(line) {
        Some(doc) => {
            let plan = plan_upstream(&doc, tracker);
            proof {
                lemma_quiet_appliable(tracker@, effect_views(plan@), now);
            }
            apply_effects(tracker, &plan, now);
        },
        None => {},
    }
}

/// Takes in a line from the editor to the agent. The accesses are stamped
/// with the reading of the wall clock, whatever that is.
pub fn extract_upstream(line: &str, tracker: &mut ContextTracker)
    requires
        old(tracker).wf(),
    ensures
        final(tracker).wf(),
        exists|now: u64|
            final(tracker)@ == after_all(
                old(tracker)@,
                upstream_effects(line@, old(tracker)@.awaited),
                now,
            ),
{
    let now = now_ms();
    extract_upstream_at(line, tracker, now);
}

/// Takes in a line from the agent to the editor, at the time `now`.
pub fn extract_downstream_at(line: &str, tracker: &mut ContextTracker, now: u64)
    requires
        old(tracker).wf(),
        old(tracker)@.has_room(),
    ensures
        final(tracker).wf(),
        final(tracker)@ == after_all(old(tracker)@, downstream_effects(line@), now),
{
    match parse(line) {
        Some(doc) => {
            let plan = plan_downstream(&doc);
            proof {
                lemma_room_appliable(tracker@, effect_views(plan@), now);
            }
            apply_effects(tracker, &plan, now);
        },
        None => {},
    }
}

/// Takes in a line from the agent to the editor. The accesses are stamped
/// with the reading of the wall clock, whatever that is.
pub fn extract_downstream(line: &str, tracker: &mut ContextTracker)
    requires
        old(tracker).wf(),
        old(tracker)@.has_room(),
    ensures
        final(tracker).wf(),
        exists|now: u64|
            final(tracker)@ == after_all(old(tracker)@, downstream_effects(line@), now),
{
    let now = now_ms();
    extract_downstream_at(line, tracker, now);
}

/// A line that is no JSON changes nothing, in either direction.
pub proof fn lemma_malformed_is_noop(t: TrackerView, line: Seq<char>, now: u64)
    requires
        json_parse(line) is None,
    ensures
        after_all(t, upstream_effects(line, t.awaited), now) == t,
        after_all(t, downstream_effects(line), now) == t,
{
}

} // verus!
