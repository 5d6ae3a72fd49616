//! The typed messages of the Agent-Client Protocol, as the schema crate reads
//! them from JSON.
//!
//! The schema crate decides which JSON is a valid prompt request, session
//! notification or file request. Each result that the extractor needs is
//! given a name here, and handed on as plain values.

use vstd::prelude::*;
use agent_client_protocol_schema::v1::{
    ContentBlock, EmbeddedResourceResource, PromptRequest, ReadTextFileRequest,
    SessionNotification, SessionUpdate, ToolCallContent, ToolCallUpdate, ToolKind,
    WriteTextFileRequest, AGENT_METHOD_NAMES, CLIENT_METHOD_NAMES,
};
use serde_json::Value;
use crate::json::{json_view, JsonView};
use crate::types::texts;

verus! {

/// `ToolKind` of the schema crate: the category of a tool.
#[verifier::external_type_specification]
#[verifier::external_body]
pub struct ExToolKind(ToolKind);

/// `ToolCallContent` of the schema crate: one piece of what a tool call
/// produced.
#[verifier::external_type_specification]
#[verifier::external_body]
pub struct ExToolCallContent(ToolCallContent);

/// What a content block of a prompt holds, as far as files go.
pub enum PromptBlockView {
    /// A resource embedded in the prompt, with its URI.
    Embedded(Seq<char>),
    /// A link to a resource, with its URI.
    Link(Seq<char>),
    /// Any other block.
    Other,
}

/// A content block of a prompt, as far as files go.
#[derive(Debug)]
pub enum PromptBlock {
    /// A resource embedded in the prompt, with its URI.
    Embedded(String),
    /// A link to a resource, with its URI.
    Link(String),
    /// Any other block.
    Other,
}

impl View for PromptBlock {
    type V = PromptBlockView;

    open spec fn view(&self) -> PromptBlockView {
        match self {
            PromptBlock::Embedded(uri) => PromptBlockView::Embedded(uri@),
            PromptBlock::Link(uri) => PromptBlockView::Link(uri@),
            PromptBlock::Other => PromptBlockView::Other,
        }
    }
}

/// The views of a list of prompt blocks.
pub open spec fn block_views(blocks: Seq<PromptBlock>) -> Seq<PromptBlockView> {
    blocks.map_values(|b: PromptBlock| b@)
}

/// The category of a tool.
#[derive(Debug, Clone, Copy, PartialEq, Eq, Structural)]
pub enum ToolTag {
    Read,
    Edit,
    Delete,
    Move,
    Search,
    Execute,
    Think,
    Fetch,
    SwitchMode,
    Other,
}

/// What a piece of a tool call's content holds, as far as files go.
pub enum ContentItemView {
    /// A diff, with the path of the file that it changes.
    Diff(Seq<char>),
    /// A block of text.
    Text(Seq<char>),
    /// Anything else.
    Other,
}

/// A piece of a tool call's content, as far as files go.
#[derive(Debug)]
pub enum ContentItem {
    /// A diff, with the path of the file that it changes.
    Diff(String),
    /// A block of text.
    Text(String),
    /// Anything else.
    Other,
}

impl View for ContentItem {
    type V = ContentItemView;

    open spec fn view(&self) -> ContentItemView {
        match self {
            ContentItem::Diff(path) => ContentItemView::Diff(path@),
            ContentItem::Text(text) => ContentItemView::Text(text@),
            ContentItem::Other => ContentItemView::Other,
        }
    }
}

/// The blocks of the prompt request that the schema crate reads from the
/// parameters `params`; `None` where they are no valid prompt request.
pub uninterp spec fn acp_prompt(params: JsonView) -> Option<Seq<PromptBlockView>>;

/// The tool call or tool call update that the schema crate reads from the
/// parameters `params` of a session notification; `None` where they are no
/// valid notification, or one of another kind.
pub uninterp spec fn acp_tool_activity(params: JsonView) -> Option<ToolActivityView>;

/// The category that the tool kind `kind` stands for.
pub uninterp spec fn acp_tool_tag(kind: ToolKind) -> ToolTag;

/// What the piece of content `content` holds.
pub uninterp spec fn acp_content_item(content: ToolCallContent) -> ContentItemView;

/// The path of the request to read a text file that the schema crate reads
/// from the parameters `params`; `None` where they are no valid request.
pub uninterp spec fn acp_read_path(params: JsonView) -> Option<Seq<char>>;

/// The path of the request to write a text file that the schema crate reads
/// from the parameters `params`; `None` where they are no valid request.
pub uninterp spec fn acp_write_path(params: JsonView) -> Option<Seq<char>>;

/// What a tool call or a tool call update holds, as far as files go.
pub struct ToolActivityView {
    pub kind: Option<ToolTag>,
    pub title: Option<Seq<char>>,
    pub locations: Option<Seq<Seq<char>>>,
    pub content: Option<Seq<ContentItemView>>,
}

/// A tool call or a tool call update, as far as files go. A new tool call has
/// every field; an update has the fields that it changes.
#[derive(Debug)]
pub struct ToolActivity {
    pub kind: Option<ToolKind>,
    pub title: Option<String>,
    /// The paths of the locations that the tool works on.
    pub locations: Option<Vec<String>>,
    pub content: Option<Vec<ToolCallContent>>,
}

/// What a list of pieces of content holds.
pub open spec fn content_views(content: Seq<ToolCallContent>) -> Seq<ContentItemView> {
    content.map_values(|c: ToolCallContent| acp_content_item(c))
}

impl View for ToolActivity {
    type V = ToolActivityView;

    open spec fn view(&self) -> ToolActivityView {
        ToolActivityView {
            kind: match self.kind {
                Some(k) => Some(acp_tool_tag(k)),
                None => None,
            },
            title: match self.title {
                Some(t) => Some(t@),
                None => None,
            },
            locations: match self.locations {
                Some(l) => Some(texts(l@)),
                None => None,
            },
            content: match self.content {
                Some(c) => Some(content_views(c@)),
                None => None,
            },
        }
    }
}

/// The schema crate's `AGENT_METHOD_NAMES.session_prompt`: the method by
/// which a client sends a prompt. Its text is taken from the crate's source.
#[verifier::external_body]
pub(crate) fn prompt_method() -> (r: &'static str)
    ensures
        r@ == "session/prompt"@,
{
    AGENT_METHOD_NAMES.session_prompt
}

/// The schema crate's `CLIENT_METHOD_NAMES.session_update`: the method by
/// which an agent reports on a session. Its text is taken from the crate's
/// source.
#[verifier::external_body]
pub(crate) fn update_method() -> (r: &'static str)
    ensures
        r@ == "session/update"@,
{
    CLIENT_METHOD_NAMES.session_update
}

/// The schema crate's `CLIENT_METHOD_NAMES.fs_read_text_file`: the method by
/// which an agent asks for a file's text. Its text is taken from the crate's
/// source.
#[verifier::external_body]
pub(crate) fn read_method() -> (r: &'static str)
    ensures
        r@ == "fs/read_text_file"@,
{
    CLIENT_METHOD_NAMES.fs_read_text_file
}

/// The schema crate's `CLIENT_METHOD_NAMES.fs_write_text_file`: the method by
/// which an agent asks to write a file. Its text is taken from the crate's
/// source.
#[verifier::external_body]
pub(crate) fn write_method() -> (r: &'static str)
    ensures
        r@ == "fs/write_text_file"@,
{
    CLIENT_METHOD_NAMES.fs_write_text_file
}

/// The schema crate's `CLIENT_METHOD_NAMES.terminal_output`: the method by
/// which an agent asks for what a terminal printed. Its text is taken from
/// the crate's source.
#[verifier::external_body]
pub(crate) fn terminal_method() -> (r: &'static str)
    ensures
        r@ == "terminal/output"@,
{
    CLIENT_METHOD_NAMES.terminal_output
}


/// `serde_json::from_value` at the type `PromptRequest`: the content blocks
/// of the prompt, each reduced to its kind and URI. The result is what
/// `acp_prompt` names.
#[verifier::external_body]
pub(crate) fn prompt_blocks(params: &Value) -> (r: Option<Vec<PromptBlock>>)
    ensures
        match r {
            Some(blocks) => acp_prompt(json_view(*params)) == Some(block_views(blocks@)),
            None => acp_prompt(json_view(*params)) is None,
        },
{
    let request = serde_json::from_value::<PromptRequest>(params.clone()).ok()?;
    Some(request.prompt.into_iter().map(|block| match block {
        ContentBlock::Resource(embedded) => match embedded.resource {
            EmbeddedResourceResource::TextResourceContents(text) => PromptBlock::Embedded(text.uri),
            EmbeddedResourceResource::BlobResourceContents(blob) => PromptBlock::Embedded(blob.uri),
            _ => PromptBlock::Other,
        },
        ContentBlock::ResourceLink(link) => PromptBlock::Link(link.uri),
        _ => PromptBlock::Other,
    }).collect())
}

/// `serde_json::from_value` at the type `SessionNotification`: the fields of
/// the tool call or tool call update that the notification carries, a new
/// tool call turned into an update of all its fields by the schema crate's
/// own conversion. The result is what `acp_tool_activity` names.
#[verifier::external_body]
pub(crate) fn tool_activity(params: &Value) -> (r: Option<ToolActivity>)
    ensures
        match r {
            Some(activity) => acp_tool_activity(json_view(*params)) == Some(activity@),
            None => acp_tool_activity(json_view(*params)) is None,
        },
{
    let note = serde_json::from_value::<SessionNotification>(params.clone()).ok()?;
    let fields = match note.update {
        SessionUpdate::ToolCall(call) => ToolCallUpdate::from(call).fields,
        SessionUpdate::ToolCallUpdate(update) => update.fields,
        _ => return None,
    };
    Some(ToolActivity {
        kind: fields.kind,
        title: fields.title,
        locations: fields.locations.map(|l| l.iter().map(|x| x.path.to_string_lossy().into_owned()).collect()),
        content: fields.content,
    })
}

/// Tells the variants of `ToolKind` apart. The result is what `acp_tool_tag`
/// names.
#[verifier::external_body]
pub(crate) fn tool_tag(kind: &ToolKind) -> (r: ToolTag)
    ensures
        r == acp_tool_tag(*kind),
{
    match kind {
        ToolKind::Read => ToolTag::Read,
        ToolKind::Edit => ToolTag::Edit,
        ToolKind::Delete => ToolTag::Delete,
        ToolKind::Move => ToolTag::Move,
        ToolKind::Search => ToolTag::Search,
        ToolKind::Execute => ToolTag::Execute,
        ToolKind::Think => ToolTag::Think,
        ToolKind::Fetch => ToolTag::Fetch,
        ToolKind::SwitchMode => ToolTag::SwitchMode,
        _ => ToolTag::Other,
    }
}

/// Tells the variants of `ToolCallContent` apart: the path of a diff, the
/// text of a text block. The result is what `acp_content_item` names.
#[verifier::external_body]
pub(crate) fn content_item(content: &ToolCallContent) -> (r: ContentItem)
    ensures
        r@ == acp_content_item(*content),
{
    match content {
        ToolCallContent::Diff(diff) => ContentItem::Diff(diff.path.to_string_lossy().into_owned()),
        ToolCallContent::Content(inner) => match &inner.content {
            ContentBlock::Text(text) => ContentItem::Text(text.text.clone()),
            _ => ContentItem::Other,
        },
        _ => ContentItem::Other,
    }
}

/// `serde_json::from_value` at the type `ReadTextFileRequest`: the path of
/// the request. The result is what `acp_read_path` names.
#[verifier::external_body]
pub(crate) fn read_path(params: &Value) -> (r: Option<String>)
    ensures
        match r {
            Some(path) => acp_read_path(json_view(*params)) == Some(path@),
            None => acp_read_path(json_view(*params)) is None,
        },
{
    let request = serde_json::from_value::<ReadTextFileRequest>(params.clone()).ok()?;
    Some(request.path.to_string_lossy().into_owned())
}

/// `serde_json::from_value` at the type `WriteTextFileRequest`: the path of
/// the request. The result is what `acp_write_path` names.
#[verifier::external_body]
pub(crate) fn write_path(params: &Value) -> (r: Option<String>)
    ensures
        match r {
            Some(path) => acp_write_path(json_view(*params)) == Some(path@),
            None => acp_write_path(json_view(*params)) is None,
        },
{
    let request = serde_json::from_value::<WriteTextFileRequest>(params.clone()).ok()?;
    Some(request.path.to_string_lossy().into_owned())
}

} // verus!
