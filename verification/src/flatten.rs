//! The graph of a workspace as its view shows it: the kinds of its nodes,
//! and the calls between its symbols.
//!
//! A symbol has the identifier of its parent, `::`, and its name; a file has
//! its path. A call by name is resolved to the symbol of that name, and
//! among several to one in the file of the caller.

use vstd::prelude::*;
use vstd::utf8::encode_utf8;
use crate::keyed::KeyedList;
use crate::parser::types::{NodeKind, NodeKindView};
use crate::text::{find, find_in, from_chars, rfind, rfind_in, same, slice, to_chars, trim, trimmed};
use crate::types::{texts, UiCallEdge, UiCallEdgeView, UiNode};

verus! {

/// The kind under which the graph shows a node of the kind `kind`.
pub open spec fn shown_kind(kind: NodeKindView) -> Seq<char> {
    match kind {
        NodeKindView::Folder => "folder"@,
        NodeKindView::File(_) => "file"@,
        NodeKindView::Class => "class"@,
        NodeKindView::Struct => "class"@,
        NodeKindView::Trait => "class"@,
        NodeKindView::Interface => "class"@,
        NodeKindView::Enum => "class"@,
        NodeKindView::Impl => "class"@,
        NodeKindView::Method => "method"@,
        NodeKindView::Function => "function"@,
        NodeKindView::Const => "function"@,
        NodeKindView::Type => "function"@,
        NodeKindView::Mod => "function"@,
    }
}

/// The kind under which the graph shows a node: a folder, a file, a class, a
/// method or a function.
pub fn ui_kind(kind: &NodeKind) -> (r: &'static str)
    ensures
        r@ == shown_kind(kind@),
{
    match kind {
        NodeKind::Folder => "folder",
        NodeKind::File(_) => "file",
        NodeKind::Class => "class",
        NodeKind::Struct => "class",
        NodeKind::Trait => "class",
        NodeKind::Interface => "class",
        NodeKind::Enum => "class",
        NodeKind::Impl => "class",
        NodeKind::Method => "method",
        NodeKind::Function => "function",
        NodeKind::Const => "function",
        NodeKind::Type => "function",
        NodeKind::Mod => "function",
    }
}

/// Whether `id` is the identifier of a symbol: it holds `::`.
pub open spec fn is_symbol(id: Seq<char>) -> bool {
    find(id, "::"@) is Some
}

/// The name of the symbol `id`: what follows its last `::`.
pub open spec fn symbol_name(id: Seq<char>) -> Seq<char> {
    match rfind(id, "::"@) {
        Some(i) => id.skip(i + "::"@.len()),
        None => id,
    }
}

/// The file of the node `id`: what stands before its first `::`, or all of
/// it.
pub open spec fn file_of(id: Seq<char>) -> Seq<char> {
    match find(id, "::"@) {
        Some(i) => id.take(i),
        None => id,
    }
}

/// The names that are never resolved.
pub open spec fn skipped_names() -> Seq<Seq<char>> {
    seq!["new"@, "len"@, "print"@, "println"@, "format"@, "toString"@, "__init__"@]
}

/// The symbols among `ids` that have the name `name`, in order.
pub open spec fn named(ids: Seq<Seq<char>>, name: Seq<char>) -> Seq<Seq<char>>
    decreases ids.len(),
{
    if ids.len() == 0 {
        Seq::empty()
    } else if is_symbol(ids.last()) && symbol_name(ids.last()) == name {
        named(ids.drop_last(), name).push(ids.last())
    } else {
        named(ids.drop_last(), name)
    }
}

/// The first of `ids` that lies in the file `file`, from index `from` on.
pub open spec fn first_in_file(ids: Seq<Seq<char>>, file: Seq<char>, from: int) -> Option<Seq<char>>
    decreases ids.len() - from,
{
    if from < 0 || from >= ids.len() {
        None
    } else if file_of(ids[from]) == file {
        Some(ids[from])
    } else {
        first_in_file(ids, file, from + 1)
    }
}

/// The symbol that a call to `raw` from `caller` goes to: the name is taken
/// without the white space around it; a name of less than three bytes and
/// a skipped name go nowhere; among the symbols of that name the first in
/// the file of the caller is taken, and the first of all where there is
/// none; and a call of a symbol to itself is none.
pub open spec fn call_target(ids: Seq<Seq<char>>, caller: Seq<char>, raw: Seq<char>) -> Option<
    Seq<char>,
> {
    let name = trim(raw);
    let found = named(ids, name);
    if encode_utf8(name).len() < 3 || skipped_names().contains(name) || found.len() == 0 {
        None
    } else {
        let target = match first_in_file(found, file_of(caller), 0) {
            Some(t) => t,
            None => found[0],
        };
        if target == caller {
            None
        } else {
            Some(target)
        }
    }
}

/// The edges after the calls to `names` from `caller` were added to `edges`:
/// each call that has a target adds its edge, unless the edge is there.
pub open spec fn with_calls(
    edges: Seq<UiCallEdgeView>,
    ids: Seq<Seq<char>>,
    caller: Seq<char>,
    names: Seq<Seq<char>>,
) -> Seq<UiCallEdgeView>
    decreases names.len(),
{
    if names.len() == 0 {
        edges
    } else {
        let before = with_calls(edges, ids, caller, names.drop_last());
        match call_target(ids, caller, names.last()) {
            Some(to) => if before.contains(UiCallEdgeView { from: caller, to }) {
                before
            } else {
                before.push(UiCallEdgeView { from: caller, to })
            },
            None => before,
        }
    }
}

/// What a caller with its calls holds.
pub open spec fn call_views(calls: Seq<(String, Vec<String>)>) -> Seq<(Seq<char>, Seq<Seq<char>>)> {
    calls.map_values(|c: (String, Vec<String>)| (c.0@, texts(c.1@)))
}

/// The edges of the calls `calls`, caller by caller.
pub open spec fn call_edges(ids: Seq<Seq<char>>, calls: Seq<(Seq<char>, Seq<Seq<char>>)>) -> Seq<
    UiCallEdgeView,
>
    decreases calls.len(),
{
    if calls.len() == 0 {
        Seq::empty()
    } else {
        with_calls(call_edges(ids, calls.drop_last()), ids, calls.last().0, calls.last().1)
    }
}

/// The views of a list of edges.
pub open spec fn edge_views(list: Seq<UiCallEdge>) -> Seq<UiCallEdgeView> {
    list.map_values(|e: UiCallEdge| e@)
}

/// The file of the node `id`.
fn file_part(id: &Vec<char>) -> (r: Vec<char>)
    ensures
        r@ == file_of(id@),
{
    let sep = to_chars("::");
    match find_in(id, &sep, 0) {
        Some(i) => slice(id, 0, i),
        None => {
            assert(id@.subrange(0, id@.len() as int) == id@);
            slice(id, 0, id.len())
        },
    }
}

/// The symbols among the identifiers of `nodes` that have the name `name`.
fn symbols_named(nodes: &KeyedList<String, UiNode>, name: &Vec<char>) -> (r: Vec<Vec<char>>)
    requires
        nodes.wf(),
    ensures
        crate::text::views(r@) == named(nodes.key_views(), name@),
{
    let sep = to_chars("::");
    let ghost ids = nodes.key_views();
    let mut out: Vec<Vec<char>> = Vec::new();
    let n = nodes.len();
    let mut i: usize = 0;
    assert(crate::text::views(out@) =~= named(ids.take(0), name@));
    while i < n
        invariant
            i <= n,
            n == nodes.count(),
            nodes.wf(),
            ids == nodes.key_views(),
            sep@ == "::"@,
            crate::text::views(out@) == named(ids.take(i as int), name@),
        decreases n - i,
    {
        assert(ids.take(i + 1).drop_last() == ids.take(i as int));
        assert(ids.take(i + 1).last() == ids[i as int]);
        let id = to_chars(nodes.key(i).as_str());
        match rfind_in(&id, &sep) {
            Some(at) => {
                proof {
                    crate::text::lemma_rfind_upto(id@, sep@, id@.len() - sep@.len());
                    crate::text::lemma_find_from(id@, sep@, 0);
                }
                let tail = slice(&id, at + sep.len(), id.len());
                if same(&tail, name) {
                    let ghost before = crate::text::views(out@);
                    out.push(id);
                    assert(crate::text::views(out@) =~= before.push(id@));
                }
            },
            None => {
                proof {
                    crate::text::lemma_rfind_upto(id@, sep@, id@.len() - sep@.len());
                    crate::text::lemma_find_from(id@, sep@, 0);
                }
            },
        }
        i = i + 1;
    }
    assert(ids.take(n as int) == ids);
    out
}

/// The symbol that a call to `raw` from `caller` goes to.
pub fn resolve_call(nodes: &KeyedList<String, UiNode>, caller: &str, raw: &str) -> (r: Option<
    String,
>)
    requires
        nodes.wf(),
    ensures
        match r {
            Some(to) => call_target(nodes.key_views(), caller@, raw@) == Some(to@),
            None => call_target(nodes.key_views(), caller@, raw@) is None,
        },
{
    let name = trimmed(&to_chars(raw));
    let name_text = from_chars(&name);
    if name_text.as_str().as_bytes().len() < 3 {
        return None;
    }
    let skipped = name_text.as_str();
    if crate::text::same_text(skipped, "new") || crate::text::same_text(skipped, "len")
        || crate::text::same_text(skipped, "print") || crate::text::same_text(skipped, "println")
        || crate::text::same_text(skipped, "format") || crate::text::same_text(skipped, "toString")
        || crate::text::same_text(skipped, "__init__") {
        proof {
            let list = skipped_names();
            if name@ == "new"@ {
                assert(list[0] == name@);
            } else if name@ == "len"@ {
                assert(list[1] == name@);
            } else if name@ == "print"@ {
                assert(list[2] == name@);
            } else if name@ == "println"@ {
                assert(list[3] == name@);
            } else if name@ == "format"@ {
                assert(list[4] == name@);
            } else if name@ == "toString"@ {
                assert(list[5] == name@);
            } else {
                assert(list[6] == name@);
            }
        }
        return None;
    }
    let found = symbols_named(nodes, &name);
    if found.len() == 0 {
        return None;
    }
    let caller_chars = to_chars(caller);
    let file = file_part(&caller_chars);
    let ghost all = crate::text::views(found@);
    let mut target: usize = 0;
    let mut i: usize = 0;
    let mut hit = false;
    while i < found.len() && !hit
        invariant
            i <= found.len(),
            found.len() > 0,
            all == crate::text::views(found@),
            file@ == file_of(caller@),
            !hit ==> first_in_file(all, file@, 0) == first_in_file(all, file@, i as int),
            hit ==> target < found.len() && first_in_file(all, file@, 0) == Some(all[target as int]),
            !hit ==> target == 0,
        decreases found.len() - i + (if hit { 0int } else { 1int }),
    {
        assert(all[i as int] == found@[i as int]@);
        let here = file_part(&found[i]);
        if same(&here, &file) {
            target = i;
            hit = true;
        } else {
            i = i + 1;
        }
    }
    assert(all[target as int] == found@[target as int]@);
    if same(&found[target], &caller_chars) {
        None
    } else {
        Some(from_chars(&found[target]))
    }
}

/// Whether `edges` holds the edge from `from` to `to`.
fn has_edge(edges: &Vec<UiCallEdge>, from: &str, to: &str) -> (r: bool)
    ensures
        r == edge_views(edges@).contains(UiCallEdgeView { from: from@, to: to@ }),
{
    let mut i: usize = 0;
    while i < edges.len()
        invariant
            i <= edges.len(),
            forall|j: int|
                0 <= j < i ==> edge_views(edges@)[j] != (UiCallEdgeView { from: from@, to: to@ }),
        decreases edges.len() - i,
    {
        if crate::text::same_text(edges[i].from.as_str(), from) && crate::text::same_text(
            edges[i].to.as_str(),
            to,
        ) {
            assert(edge_views(edges@)[i as int] == (UiCallEdgeView { from: from@, to: to@ }));
            return true;
        }
        i = i + 1;
    }
    false
}

/// The edges of the graph: for each caller, in order, the calls that it
/// makes by name, each resolved to a symbol among the nodes, each edge once.
pub fn resolve_calls(nodes: &KeyedList<String, UiNode>, caller_calls: &Vec<(String, Vec<String>)>) -> (r:
    Vec<UiCallEdge>)
    requires
        nodes.wf(),
    ensures
        edge_views(r@) == call_edges(nodes.key_views(), call_views(caller_calls@)),
{
    let ghost ids = nodes.key_views();
    let ghost calls = call_views(caller_calls@);
    let mut edges: Vec<UiCallEdge> = Vec::new();
    let mut c: usize = 0;
    assert(edge_views(edges@) =~= call_edges(ids, calls.take(0)));
    while c < caller_calls.len()
        invariant
            c <= caller_calls.len(),
            nodes.wf(),
            ids == nodes.key_views(),
            calls == call_views(caller_calls@),
            edge_views(edges@) == call_edges(ids, calls.take(c as int)),
        decreases caller_calls.len() - c,
    {
        assert(calls.take(c + 1).drop_last() == calls.take(c as int));
        assert(calls.take(c + 1).last() == calls[c as int]);
        let caller = &caller_calls[c].0;
        let names = &caller_calls[c].1;
        let ghost start = edge_views(edges@);
        let ghost all = texts(names@);
        assert(calls[c as int] == (caller@, all));
        let mut k: usize = 0;
        assert(all.take(0) =~= Seq::empty());
        while k < names.len()
            invariant
                k <= names.len(),
                nodes.wf(),
                ids == nodes.key_views(),
                all == texts(names@),
                edge_views(edges@) == with_calls(start, ids, caller@, all.take(k as int)),
            decreases names.len() - k,
        {
            assert(all.take(k + 1).drop_last() == all.take(k as int));
            assert(all.take(k + 1).last() == names@[k as int]@);
            match resolve_call(nodes, caller.as_str(), names[k].as_str()) {
                Some(to) => {
                    if !has_edge(&edges, caller.as_str(), to.as_str()) {
                        let ghost before = edge_views(edges@);
                        edges.push(UiCallEdge { from: caller.clone(), to });
                        assert(edge_views(edges@) =~= before.push(
                            UiCallEdgeView { from: caller@, to: to@ },
                        ));
                    }
                },
                None => {},
            }
            k = k + 1;
        }
        assert(all.take(names.len() as int) == all);
        c = c + 1;
    }
    assert(calls.take(caller_calls.len() as int) == calls);
    edges
}

} // verus!
