//! The kind and the data of a node of the symbol tree.

use vstd::prelude::*;
use crate::types::texts;

verus! {

/// What the kind of a node holds.
pub enum NodeKindView {
    Folder,
    /// A file, with its extension.
    File(Seq<char>),
    Class,
    Method,
    Function,
    Interface,
    Type,
    Enum,
    Const,
    Struct,
    Trait,
    Impl,
    Mod,
}

impl NodeKindView {
    /// The name of the kind on the wire.
    pub open spec fn token(self) -> Seq<char> {
        match self {
            NodeKindView::Folder => "folder"@,
            NodeKindView::File(_) => "file"@,
            NodeKindView::Class => "class"@,
            NodeKindView::Method => "method"@,
            NodeKindView::Function => "function"@,
            NodeKindView::Interface => "interface"@,
            NodeKindView::Type => "type"@,
            NodeKindView::Enum => "enum"@,
            NodeKindView::Const => "const"@,
            NodeKindView::Struct => "struct"@,
            NodeKindView::Trait => "trait"@,
            NodeKindView::Impl => "impl"@,
            NodeKindView::Mod => "mod"@,
        }
    }

    /// The language of a file: its extension. Other kinds have none.
    pub open spec fn language(self) -> Option<Seq<char>> {
        match self {
            NodeKindView::File(ext) => Some(ext),
            _ => None,
        }
    }
}

/// The kind of a node of the symbol tree.
#[derive(Debug, Clone, PartialEq)]
pub enum NodeKind {
    Folder,
    /// A file, with its extension.
    File(String),
    Class,
    Method,
    Function,
    Interface,
    Type,
    Enum,
    Const,
    Struct,
    Trait,
    Impl,
    Mod,
}

impl View for NodeKind {
    type V = NodeKindView;

    open spec fn view(&self) -> NodeKindView {
        match self {
            NodeKind::Folder => NodeKindView::Folder,
            NodeKind::File(ext) => NodeKindView::File(ext@),
            NodeKind::Class => NodeKindView::Class,
            NodeKind::Method => NodeKindView::Method,
            NodeKind::Function => NodeKindView::Function,
            NodeKind::Interface => NodeKindView::Interface,
            NodeKind::Type => NodeKindView::Type,
            NodeKind::Enum => NodeKindView::Enum,
            NodeKind::Const => NodeKindView::Const,
            NodeKind::Struct => NodeKindView::Struct,
            NodeKind::Trait => NodeKindView::Trait,
            NodeKind::Impl => NodeKindView::Impl,
            NodeKind::Mod => NodeKindView::Mod,
        }
    }
}

impl NodeKind {
    /// The name of the kind on the wire.
    pub fn as_str(&self) -> (r: &'static str)
        ensures
            r@ == self@.token(),
    {
        match self {
            NodeKind::Folder => "folder",
            NodeKind::File(_) => "file",
            NodeKind::Class => "class",
            NodeKind::Method => "method",
            NodeKind::Function => "function",
            NodeKind::Interface => "interface",
            NodeKind::Type => "type",
            NodeKind::Enum => "enum",
            NodeKind::Const => "const",
            NodeKind::Struct => "struct",
            NodeKind::Trait => "trait",
            NodeKind::Impl => "impl",
            NodeKind::Mod => "mod",
        }
    }

    /// Whether the node is a file.
    pub fn is_file(&self) -> (r: bool)
        ensures
            r == (self@ is File),
    {
        match self {
            NodeKind::File(_) => true,
            _ => false,
        }
    }

    /// The language of a file: its extension.
    pub fn language(&self) -> (r: Option<&str>)
        ensures
            match r {
                Some(ext) => self@.language() == Some(ext@),
                None => self@.language() is None,
            },
    {
        match self {
            NodeKind::File(ext) => Some(ext.as_str()),
            _ => None,
        }
    }
}

/// What the data of a node holds.
pub struct NodeDataView {
    pub id: usize,
    pub name: Seq<char>,
    pub kind: NodeKindView,
    pub language: Option<Seq<char>>,
    pub start_line: u32,
    pub end_line: u32,
    pub path: Seq<char>,
    pub calls: Seq<Seq<char>>,
    pub tokens: Option<u32>,
}

/// The data of a node of the symbol tree.
#[derive(Debug, Clone)]
pub struct NodeData {
    pub id: usize,
    pub name: String,
    pub kind: NodeKind,
    /// The extension of a file; `None` for any other node.
    pub language: Option<String>,
    pub start_line: u32,
    pub end_line: u32,
    pub path: String,
    /// The names of the functions that the node calls.
    pub calls: Vec<String>,
    pub tokens: Option<u32>,
}

impl View for NodeData {
    type V = NodeDataView;

    open spec fn view(&self) -> NodeDataView {
        NodeDataView {
            id: self.id,
            name: self.name@,
            kind: self.kind@,
            language: match self.language {
                Some(l) => Some(l@),
                None => None,
            },
            start_line: self.start_line,
            end_line: self.end_line,
            path: self.path@,
            calls: texts(self.calls@),
            tokens: self.tokens,
        }
    }
}

impl NodeData {
    /// A node without lines, calls or tokens; a file gets its extension as
    /// its language.
    pub fn new(id: usize, name: String, kind: NodeKind, path: String) -> (r: Self)
        ensures
            r@ == (NodeDataView {
                id,
                name: name@,
                kind: kind@,
                language: kind@.language(),
                start_line: 0,
                end_line: 0,
                path: path@,
                calls: Seq::empty(),
                tokens: None,
            }),
    {
        let language = match &kind {
            NodeKind::File(ext) => Some(ext.clone()),
            _ => None,
        };
        let r = NodeData {
            id,
            name,
            kind,
            language,
            start_line: 0,
            end_line: 0,
            path,
            calls: Vec::new(),
            tokens: None,
        };
        assert(texts(r.calls@) =~= Seq::empty());
        r
    }

    /// The node with the lines `start` to `end`.
    pub fn with_lines(self, start: u32, end: u32) -> (r: Self)
        ensures
            r@ == (NodeDataView { start_line: start, end_line: end, ..self@ }),
    {
        let mut r = self;
        r.start_line = start;
        r.end_line = end;
        r
    }

    /// The node with the calls `calls`.
    pub fn with_calls(self, calls: Vec<String>) -> (r: Self)
        ensures
            r@ == (NodeDataView { calls: texts(calls@), ..self@ }),
    {
        let mut r = self;
        r.calls = calls;
        r
    }

    /// The node with the token count `tokens`.
    pub fn with_tokens(self, tokens: u32) -> (r: Self)
        ensures
            r@ == (NodeDataView { tokens: Some(tokens), ..self@ }),
    {
        let mut r = self;
        r.tokens = Some(tokens);
        r
    }
}

} // verus!
