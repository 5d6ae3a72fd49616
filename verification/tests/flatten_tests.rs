use eisen_core::flatten::{resolve_call, resolve_calls, ui_kind};
use eisen_core::keyed::KeyedList;
use eisen_core::parser::types::NodeKind;
use eisen_core::types::{UiCallEdge, UiLineRange, UiNode, UiSnapshot};

fn node(kind: &str) -> UiNode {
    UiNode {
        kind: Some(kind.to_string()),
        lines: Some(UiLineRange { start: 1, end: 2 }),
        last_write: None,
        changed: None,
        tokens: None,
    }
}

fn graph(ids: &[&str]) -> KeyedList<String, UiNode> {
    let mut nodes = KeyedList::new();
    for id in ids {
        nodes.insert(id.to_string(), node("function"));
    }
    nodes
}

fn pairs(edges: &Vec<UiCallEdge>) -> Vec<(String, String)> {
    edges.iter().map(|e| (e.from.clone(), e.to.clone())).collect()
}

#[test]
fn ui_kinds() {
    assert_eq!(ui_kind(&NodeKind::Folder), "folder");
    assert_eq!(ui_kind(&NodeKind::File("rs".to_string())), "file");
    for kind in [NodeKind::Class, NodeKind::Struct, NodeKind::Trait, NodeKind::Interface, NodeKind::Enum, NodeKind::Impl] {
        assert_eq!(ui_kind(&kind), "class");
    }
    assert_eq!(ui_kind(&NodeKind::Method), "method");
    for kind in [NodeKind::Function, NodeKind::Const, NodeKind::Type, NodeKind::Mod] {
        assert_eq!(ui_kind(&kind), "function");
    }
}

#[test]
fn calls_resolve_by_name() {
    let nodes = graph(&["a.rs", "a.rs::main", "a.rs::helper", "b.rs", "b.rs::helper", "b.rs::Service::run"]);
    assert_eq!(resolve_call(&nodes, "a.rs::main", "helper"), Some("a.rs::helper".to_string()));
    assert_eq!(resolve_call(&nodes, "b.rs::Service::run", " helper\n"), Some("b.rs::helper".to_string()));
    // no symbol of that name in the file of the caller: the first of all
    assert_eq!(resolve_call(&nodes, "c.rs::x", "helper"), Some("a.rs::helper".to_string()));
    assert_eq!(resolve_call(&nodes, "a.rs::main", "run"), Some("b.rs::Service::run".to_string()));
    // a file is no symbol, and a call to oneself is no edge
    assert_eq!(resolve_call(&nodes, "a.rs::main", "a.rs"), None);
    assert_eq!(resolve_call(&nodes, "a.rs::main", "main"), None);
    assert_eq!(resolve_call(&nodes, "a.rs::main", "missing"), None);
}

#[test]
fn short_and_common_names_are_skipped() {
    let nodes = graph(&["a.rs::new", "a.rs::len", "a.rs::ab", "a.rs::éé", "a.rs::é", "a.rs::toString", "a.rs::abc"]);
    for name in ["new", "len", "print", "println", "format", "toString", "__init__", "ab", "é", ""] {
        assert_eq!(resolve_call(&nodes, "b.rs::f", name), None, "{:?}", name);
    }
    // four bytes in two characters
    assert_eq!(resolve_call(&nodes, "b.rs::f", "éé"), Some("a.rs::éé".to_string()));
    assert_eq!(resolve_call(&nodes, "b.rs::f", "abc"), Some("a.rs::abc".to_string()));
}

#[test]
fn edges_are_listed_once() {
    let nodes = graph(&["a.rs::main", "a.rs::helper", "b.rs::helper", "b.rs::other"]);
    let calls = vec![
        ("a.rs::main".to_string(), vec!["helper".to_string(), "other".to_string(), "helper".to_string(), "new".to_string()]),
        ("b.rs::other".to_string(), vec!["helper".to_string(), "main".to_string()]),
        ("a.rs::main".to_string(), vec!["other".to_string()]),
    ];
    let edges = resolve_calls(&nodes, &calls);
    assert_eq!(
        pairs(&edges),
        vec![
            ("a.rs::main".to_string(), "a.rs::helper".to_string()),
            ("a.rs::main".to_string(), "b.rs::other".to_string()),
            ("b.rs::other".to_string(), "b.rs::helper".to_string()),
            ("b.rs::other".to_string(), "a.rs::main".to_string()),
        ]
    );
    let snapshot = UiSnapshot { seq: 0, nodes, calls: edges };
    assert_eq!(snapshot.calls.len(), 4);
    assert!(resolve_calls(&snapshot.nodes, &vec![]).is_empty());
}
