//! The orchestrator view: several sessions of the tracker merged into one.
//!
//! For each orchestrator session the aggregator keeps the merged file table
//! that it reported last, and the latest usage report of each provider. On a
//! tick it merges the tables of the providers anew and reports what changed.

use vstd::prelude::*;
use crate::keyed::KeyedList;
use crate::session_registry::{wanted, RegistryView, SessionRegistry};
use crate::table::{lists_nodes, lists_paths};
use crate::tracker::{keyed_by_path, ContextTracker, TrackerView};
use crate::types::{
    action_priority, key_views, state_views, texts, update_views, usage_views, Cost,
    CostView, Delta, FileNode, NodeUpdate, NodeView, SessionKey, SessionKeyView, SessionMode,
    SessionState, SessionStateView, Snapshot, SnapshotView, UsageMessage, UsageView,
};

verus! {

/// The greater of two numbers.
pub open spec fn greater(a: int, b: int) -> int {
    if a >= b {
        a
    } else {
        b
    }
}

/// Whether the access of the node `incoming` takes the place of that of
/// `existing`: it is later, or as late and of a higher rank.
pub open spec fn supersedes(incoming: NodeView, existing: NodeView) -> bool {
    incoming.timestamp_ms > existing.timestamp_ms || (incoming.timestamp_ms
        == existing.timestamp_ms && incoming.last_action.rank() > existing.last_action.rank())
}

/// Two nodes of one path merged: the greater heat, in context if either is,
/// the later turn, and the action and timestamp of the access that takes
/// the place of the other.
pub open spec fn merged(existing: NodeView, incoming: NodeView) -> NodeView {
    NodeView {
        path: existing.path,
        heat: greater(existing.heat as int, incoming.heat as int) as u32,
        in_context: existing.in_context || incoming.in_context,
        turn_accessed: greater(existing.turn_accessed as int, incoming.turn_accessed as int) as u32,
        last_action: if supersedes(incoming, existing) {
            incoming.last_action
        } else {
            existing.last_action
        },
        timestamp_ms: if supersedes(incoming, existing) {
            incoming.timestamp_ms
        } else {
            existing.timestamp_ms
        },
    }
}

/// Two file tables merged: the nodes of both, those of a shared path merged.
pub open spec fn merged_tables(
    target: Map<Seq<char>, NodeView>,
    source: Map<Seq<char>, NodeView>,
) -> Map<Seq<char>, NodeView> {
    Map::new(
        |p: Seq<char>| target.contains_key(p) || source.contains_key(p),
        |p: Seq<char>|
            if target.contains_key(p) && source.contains_key(p) {
                merged(target[p], source[p])
            } else if target.contains_key(p) {
                target[p]
            } else {
                source[p]
            },
    )
}

/// Whether the provider `provider` counts for the tracker `t`: it is a
/// session of the tracker's agent.
pub open spec fn provides(provider: SessionKeyView, t: TrackerView) -> bool {
    provider.agent_id == t.agent_id
}

/// The file table of an orchestrator with the providers `providers`: the
/// snapshots of the providers that count, merged one after the other.
pub open spec fn aggregate(providers: Seq<SessionKeyView>, t: TrackerView) -> Map<
    Seq<char>,
    NodeView,
>
    decreases providers.len(),
{
    if providers.len() == 0 {
        Map::empty()
    } else if provides(providers.last(), t) {
        merged_tables(
            aggregate(providers.drop_last(), t),
            t.table_of(providers.last().session_id).live_files(),
        )
    } else {
        aggregate(providers.drop_last(), t)
    }
}

/// The merged table holds exactly the paths that some provider shows, and
/// the heat of each is the greatest heat that a provider shows for it: no
/// provider shows more, and one provider shows as much.
pub proof fn lemma_aggregate_heat_is_max(providers: Seq<SessionKeyView>, t: TrackerView, p: Seq<char>)
    ensures
        aggregate(providers, t).contains_key(p) <==> exists|i: int|
            0 <= i < providers.len() && provides(#[trigger] providers[i], t) && t.table_of(
                providers[i].session_id,
            ).live_files().contains_key(p),
        forall|i: int|
            0 <= i < providers.len() && provides(#[trigger] providers[i], t) && t.table_of(
                providers[i].session_id,
            ).live_files().contains_key(p) ==> aggregate(providers, t)[p].heat >= t.table_of(
                providers[i].session_id,
            ).live_files()[p].heat,
        aggregate(providers, t).contains_key(p) ==> exists|i: int|
            0 <= i < providers.len() && provides(#[trigger] providers[i], t) && t.table_of(
                providers[i].session_id,
            ).live_files().contains_key(p) && aggregate(providers, t)[p].heat == t.table_of(
                providers[i].session_id,
            ).live_files()[p].heat,
    decreases providers.len(),
{
    if providers.len() > 0 {
        let rest = providers.drop_last();
        let n = providers.len() - 1;
        let last = providers.last();
        lemma_aggregate_heat_is_max(rest, t, p);
        let shows = |i: int|
            0 <= i < providers.len() && provides(providers[i], t) && t.table_of(
                providers[i].session_id,
            ).live_files().contains_key(p);
        assert forall|i: int| 0 <= i < rest.len() implies rest[i] == providers[i] by {}
        let agg = aggregate(providers, t);
        let before = aggregate(rest, t);
        let own = t.table_of(last.session_id).live_files();
        if before.contains_key(p) {
            let i = choose|i: int|
                0 <= i < rest.len() && provides(#[trigger] rest[i], t) && t.table_of(
                    rest[i].session_id,
                ).live_files().contains_key(p);
            assert(providers[i] == rest[i]);
            let j = choose|j: int|
                0 <= j < rest.len() && provides(#[trigger] rest[j], t) && t.table_of(
                    rest[j].session_id,
                ).live_files().contains_key(p) && before[p].heat == t.table_of(
                    rest[j].session_id,
                ).live_files()[p].heat;
            assert(providers[j] == rest[j]);
            if provides(last, t) && own.contains_key(p) {
                if own[p].heat > before[p].heat {
                    assert(providers[n] == last);
                }
            }
        } else {
            if provides(last, t) && own.contains_key(p) {
                assert(providers[n] == last);
            }
        }
        if agg.contains_key(p) {
        } else {
            assert forall|i: int|
                0 <= i < providers.len() && provides(#[trigger] providers[i], t) implies !t.table_of(
                providers[i].session_id,
            ).live_files().contains_key(p) by {
                if i < n {
                    assert(rest[i] == providers[i]);
                }
            }
        }
        assert forall|i: int|
            0 <= i < providers.len() && provides(#[trigger] providers[i], t) && t.table_of(
                providers[i].session_id,
            ).live_files().contains_key(p) implies agg[p].heat >= t.table_of(
            providers[i].session_id,
        ).live_files()[p].heat by {
            if i < n {
                assert(rest[i] == providers[i]);
            }
        }
    }
}

/// A node of the merged table is in context if and only if some provider
/// shows it in context, and its turn is the latest turn that a provider shows
/// for it: no provider shows a later one, and one provider shows that one.
pub proof fn lemma_aggregate_joins(providers: Seq<SessionKeyView>, t: TrackerView, p: Seq<char>)
    requires
        aggregate(providers, t).contains_key(p),
    ensures
        aggregate(providers, t)[p].in_context <==> exists|i: int|
            0 <= i < providers.len() && provides(#[trigger] providers[i], t) && t.table_of(
                providers[i].session_id,
            ).live_files().contains_key(p) && t.table_of(
                providers[i].session_id,
            ).live_files()[p].in_context,
        forall|i: int|
            0 <= i < providers.len() && provides(#[trigger] providers[i], t) && t.table_of(
                providers[i].session_id,
            ).live_files().contains_key(p) ==> aggregate(providers, t)[p].turn_accessed
                >= t.table_of(providers[i].session_id).live_files()[p].turn_accessed,
        exists|i: int|
            0 <= i < providers.len() && provides(#[trigger] providers[i], t) && t.table_of(
                providers[i].session_id,
            ).live_files().contains_key(p) && aggregate(providers, t)[p].turn_accessed
                == t.table_of(providers[i].session_id).live_files()[p].turn_accessed,
    decreases providers.len(),
{
    let rest = providers.drop_last();
    let n = providers.len() - 1;
    let last = providers.last();
    let agg = aggregate(providers, t);
    let before = aggregate(rest, t);
    let own = t.table_of(last.session_id).live_files();
    let shown = provides(last, t) && own.contains_key(p);
    assert forall|i: int| 0 <= i < rest.len() implies rest[i] == providers[i] by {}
    assert(providers[n] == last);
    lemma_aggregate_heat_is_max(rest, t, p);
    if before.contains_key(p) {
        lemma_aggregate_joins(rest, t, p);
        let c = choose|i: int|
            0 <= i < rest.len() && provides(#[trigger] rest[i], t) && t.table_of(
                rest[i].session_id,
            ).live_files().contains_key(p) && before[p].turn_accessed == t.table_of(
                rest[i].session_id,
            ).live_files()[p].turn_accessed;
        assert(providers[c] == rest[c]);
        if before[p].in_context {
            let d = choose|i: int|
                0 <= i < rest.len() && provides(#[trigger] rest[i], t) && t.table_of(
                    rest[i].session_id,
                ).live_files().contains_key(p) && t.table_of(
                    rest[i].session_id,
                ).live_files()[p].in_context;
            assert(providers[d] == rest[d]);
        }
    }
    if !agg[p].in_context {
        assert forall|i: int|
            0 <= i < providers.len() && provides(#[trigger] providers[i], t) && t.table_of(
                providers[i].session_id,
            ).live_files().contains_key(p) implies !t.table_of(
            providers[i].session_id,
        ).live_files()[p].in_context by {
            if i < n {
                assert(rest[i] == providers[i]);
            }
        }
    }
    assert forall|i: int|
        0 <= i < providers.len() && provides(#[trigger] providers[i], t) && t.table_of(
            providers[i].session_id,
        ).live_files().contains_key(p) implies agg[p].turn_accessed >= t.table_of(
        providers[i].session_id,
    ).live_files()[p].turn_accessed by {
        if i < n {
            assert(rest[i] == providers[i]);
        }
    }
}

/// Merges `node` into `target`: it is put in where its path is new, and
/// merged with the node of its path otherwise.
pub fn merge_node(target: &mut KeyedList<String, FileNode>, node: &FileNode)
    requires
        old(target).wf(),
    ensures
        final(target).wf(),
        final(target)@ == old(target)@.insert(
            node@.path,
            if old(target)@.contains_key(node@.path) {
                merged(old(target)@[node@.path], node@)
            } else {
                node@
            },
        ),
{
    match target.position(&node.path) {
        None => {
            target.push(node.path.clone(), node.clone());
        },
        Some(i) => {
            let existing = target.value(i);
            let replace = node.timestamp_ms > existing.timestamp_ms || (node.timestamp_ms
                == existing.timestamp_ms && action_priority(node.last_action) > action_priority(
                existing.last_action,
            ));
            let both = FileNode {
                path: existing.path.clone(),
                heat: if existing.heat >= node.heat {
                    existing.heat
                } else {
                    node.heat
                },
                in_context: existing.in_context || node.in_context,
                last_action: if replace {
                    node.last_action
                } else {
                    existing.last_action
                },
                turn_accessed: if existing.turn_accessed >= node.turn_accessed {
                    existing.turn_accessed
                } else {
                    node.turn_accessed
                },
                timestamp_ms: if replace {
                    node.timestamp_ms
                } else {
                    existing.timestamp_ms
                },
            };
            target.set(i, both);
        },
    }
}

/// Merges every node of `source` into `target`.
pub fn merge_table(target: &mut KeyedList<String, FileNode>, source: &KeyedList<String, FileNode>)
    requires
        old(target).wf(),
        source.wf(),
        keyed_by_path(source@),
    ensures
        final(target).wf(),
        final(target)@ == merged_tables(old(target)@, source@),
        keyed_by_path(old(target)@) ==> keyed_by_path(final(target)@),
{
    let ghost start = target@;
    let ghost keys = source.key_views();
    let ghost vals = source.value_views();
    let n = source.len();
    let mut i: usize = 0;
    while i < n
        invariant
            i <= n,
            n == source.count(),
            source.wf(),
            keyed_by_path(source@),
            keys == source.key_views(),
            vals == source.value_views(),
            target.wf(),
            forall|p: Seq<char>|
                target@.contains_key(p) <==> start.contains_key(p) || (keys.contains(p)
                    && keys.index_of(p) < i),
            forall|p: Seq<char>| #[trigger]
                target@.contains_key(p) ==> target@[p] == if keys.contains(p) && keys.index_of(p)
                    < i {
                    if start.contains_key(p) {
                        merged(start[p], source@[p])
                    } else {
                        source@[p]
                    }
                } else {
                    start[p]
                },
        decreases n - i,
    {
        proof {
            source.lemma_entry(i as int);
        }
        let node = source.value(i);
        let ghost before = target@;
        merge_node(target, node);
        proof {
            let k = keys[i as int];
            assert(node@.path == k);
            assert forall|p: Seq<char>|
                target@.contains_key(p) <==> start.contains_key(p) || (keys.contains(p)
                    && keys.index_of(p) < i + 1) by {
                if keys.contains(p) {
                    source.lemma_key(p);
                }
            }
            assert forall|p: Seq<char>| #[trigger] target@.contains_key(p) implies target@[p]
                == if keys.contains(p) && keys.index_of(p) < i + 1 {
                if start.contains_key(p) {
                    merged(start[p], source@[p])
                } else {
                    source@[p]
                }
            } else {
                start[p]
            } by {
                if keys.contains(p) {
                    source.lemma_key(p);
                }
                if p != k {
                    assert(before.contains_key(p));
                }
            }
        }
        i = i + 1;
    }
    proof {
        assert forall|p: Seq<char>|
            target@.contains_key(p) <==> merged_tables(start, source@).contains_key(p) by {
            if source@.contains_key(p) {
                source.lemma_key(p);
            }
        }
        assert forall|p: Seq<char>| target@.contains_key(p) implies target@[p] == merged_tables(
            start,
            source@,
        )[p] by {
            if source@.contains_key(p) {
                source.lemma_key(p);
            }
        }
        assert(target@ =~= merged_tables(start, source@));
    }
}

/// The file table of an orchestrator with the providers `providers`.
pub fn compute_aggregate_nodes(providers: &Vec<SessionKey>, tracker: &ContextTracker) -> (r:
    KeyedList<String, FileNode>)
    requires
        tracker.wf(),
    ensures
        r.wf(),
        r@ == aggregate(key_views(providers@), tracker@),
        keyed_by_path(r@),
{
    let ghost all = key_views(providers@);
    let mut out: KeyedList<String, FileNode> = KeyedList::new();
    let mut i: usize = 0;
    assert(all.take(0) =~= Seq::empty());
    while i < providers.len()
        invariant
            i <= providers.len(),
            all == key_views(providers@),
            tracker.wf(),
            out.wf(),
            out@ == aggregate(all.take(i as int), tracker@),
            keyed_by_path(out@),
        decreases providers.len() - i,
    {
        assert(all.take(i + 1).drop_last() == all.take(i as int));
        assert(all.take(i + 1).last() == providers@[i as int]@);
        let provider = &providers[i];
        let agent = tracker.agent_id().to_owned();
        if provider.agent_id == agent {
            let snap = tracker.snapshot_for_session(provider.session_id.as_str());
            merge_table(&mut out, &snap.nodes);
        }
        i = i + 1;
    }
    assert(all.take(providers.len() as int) == all);
    out
}

/// Whether two nodes of one path show the same state.
pub open spec fn same_state(a: NodeView, b: NodeView) -> bool {
    &&& a.heat == b.heat
    &&& a.in_context == b.in_context
    &&& a.last_action == b.last_action
    &&& a.turn_accessed == b.turn_accessed
    &&& a.timestamp_ms == b.timestamp_ms
}

/// Whether two nodes of one path show the same state.
pub fn nodes_equal(a: &FileNode, b: &FileNode) -> (r: bool)
    ensures
        r == same_state(a@, b@),
{
    a.heat == b.heat && a.in_context == b.in_context && a.last_action == b.last_action
        && a.turn_accessed == b.turn_accessed && a.timestamp_ms == b.timestamp_ms
}

/// The nodes of `new` that `old` does not hold in the same state.
pub open spec fn changed_nodes(
    old: Map<Seq<char>, NodeView>,
    new: Map<Seq<char>, NodeView>,
) -> Map<Seq<char>, NodeView> {
    Map::new(
        |p: Seq<char>| new.contains_key(p) && !(old.contains_key(p) && same_state(old[p], new[p])),
        |p: Seq<char>| new[p],
    )
}

/// The paths of `old` that `new` does not hold.
pub open spec fn dropped_paths(
    old: Map<Seq<char>, NodeView>,
    new: Map<Seq<char>, NodeView>,
) -> Set<Seq<char>> {
    Set::new(|p: Seq<char>| old.contains_key(p) && !new.contains_key(p))
}

/// Whether `new` differs from `old`: some node changed, or some path was
/// dropped.
pub open spec fn differs(old: Map<Seq<char>, NodeView>, new: Map<Seq<char>, NodeView>) -> bool {
    (exists|p: Seq<char>| #[trigger] changed_nodes(old, new).contains_key(p)) || (exists|
        p: Seq<char>,
    | #[trigger] dropped_paths(old, new).contains(p))
}

/// The updates and the removals that lead from the table `old` to the table
/// `new`: each changed node once, and each dropped path once.
pub fn diff_nodes(old: &KeyedList<String, FileNode>, new: &KeyedList<String, FileNode>) -> (r: (
    Vec<NodeUpdate>,
    Vec<String>,
))
    requires
        old.wf(),
        new.wf(),
        keyed_by_path(new@),
    ensures
        lists_nodes(update_views(r.0@), changed_nodes(old@, new@)),
        lists_paths(texts(r.1@), dropped_paths(old@, new@)),
        (r.0@.len() > 0 || r.1@.len() > 0) == differs(old@, new@),
{
    let ghost nk = new.key_views();
    let ghost nv = new.value_views();
    let ghost ok = old.key_views();
    let mut updates: Vec<NodeUpdate> = Vec::new();
    let ghost mut from_u: Seq<int> = Seq::empty();
    let n = new.len();
    let mut i: usize = 0;
    while i < n
        invariant
            i <= n,
            n == new.count(),
            old.wf(),
            new.wf(),
            keyed_by_path(new@),
            nk == new.key_views(),
            nv == new.value_views(),
            from_u.len() == updates.len(),
            forall|a: int|
                0 <= a < from_u.len() ==> 0 <= #[trigger] from_u[a] < i && changed_nodes(
                    old@,
                    new@,
                ).contains_key(nk[from_u[a]]) && updates@[a]@ == nv[from_u[a]],
            forall|a: int, b: int|
                0 <= a < b < from_u.len() ==> #[trigger] from_u[a] < #[trigger] from_u[b],
            forall|j: int|
                0 <= j < i && changed_nodes(old@, new@).contains_key(#[trigger] nk[j]) ==> exists|
                    a: int,
                | 0 <= a < from_u.len() && #[trigger] from_u[a] == j,
        decreases n - i,
    {
        proof {
            new.lemma_entry(i as int);
        }
        let node = new.value(i);
        let key = new.key(i);
        let fresh = match old.get(key) {
            None => true,
            Some(before) => !nodes_equal(before, node),
        };
        if fresh {
            updates.push(node.to_update());
            proof {
                let before_u = from_u;
                from_u = from_u.push(i as int);
                assert forall|j: int|
                    0 <= j < i + 1 && changed_nodes(old@, new@).contains_key(
                        #[trigger] nk[j],
                    ) implies exists|a: int| 0 <= a < from_u.len() && #[trigger] from_u[a] == j by {
                    if j < i {
                        let a = choose|a: int|
                            0 <= a < before_u.len() && #[trigger] before_u[a] == j;
                        assert(from_u[a] == j);
                    } else {
                        assert(from_u[before_u.len() as int] == j);
                    }
                }
            }
        }
        i = i + 1;
    }
    let mut removed: Vec<String> = Vec::new();
    let ghost mut from_r: Seq<int> = Seq::empty();
    let m = old.len();
    let mut j: usize = 0;
    while j < m
        invariant
            j <= m,
            m == old.count(),
            old.wf(),
            new.wf(),
            ok == old.key_views(),
            from_r.len() == removed.len(),
            forall|a: int|
                0 <= a < from_r.len() ==> 0 <= #[trigger] from_r[a] < j
                    && !new@.contains_key(ok[from_r[a]]) && removed@[a]@ == ok[from_r[a]],
            forall|a: int, b: int|
                0 <= a < b < from_r.len() ==> #[trigger] from_r[a] < #[trigger] from_r[b],
            forall|x: int|
                0 <= x < j && !new@.contains_key(#[trigger] ok[x]) ==> exists|a: int|
                    0 <= a < from_r.len() && #[trigger] from_r[a] == x,
        decreases m - j,
    {
        let key = old.key(j);
        if !new.contains_key(key) {
            removed.push(key.clone());
            proof {
                let before_r = from_r;
                from_r = from_r.push(j as int);
                assert forall|x: int|
                    0 <= x < j + 1 && !new@.contains_key(#[trigger] ok[x]) implies exists|a: int|
                    0 <= a < from_r.len() && #[trigger] from_r[a] == x by {
                    if x < j {
                        let a = choose|a: int|
                            0 <= a < before_r.len() && #[trigger] before_r[a] == x;
                        assert(from_r[a] == x);
                    } else {
                        assert(from_r[before_r.len() as int] == x);
                    }
                }
            }
        }
        j = j + 1;
    }
    proof {
        let ch = changed_nodes(old@, new@);
        let dr = dropped_paths(old@, new@);
        let ulist = update_views(updates@);
        assert(nk.no_duplicates());
        assert(ok.no_duplicates());
        assert forall|x: int| 0 <= x < n implies new@.contains_key(#[trigger] nk[x]) && new@[nk[x]]
            == nv[x] && nv[x].path == nk[x] by {
            new.lemma_entry(x);
        }
        assert forall|x: int| 0 <= x < m implies old@.contains_key(#[trigger] ok[x]) by {
            old.lemma_entry(x);
        }
        assert forall|a: int| 0 <= a < ulist.len() implies #[trigger] ulist[a] == nv[from_u[a]]
            && ulist[a].path == nk[from_u[a]] by {
            assert(ulist[a] == updates@[a]@);
            assert(0 <= from_u[a] < n);
            assert(nv[from_u[a]].path == nk[from_u[a]]);
        }
        assert forall|a: int, b: int| 0 <= a < b < ulist.len() implies ulist[a].path
            != ulist[b].path by {
            assert(from_u[a] < from_u[b]);
            assert(ulist[a].path == nk[from_u[a]]);
            assert(ulist[b].path == nk[from_u[b]]);
        }
        assert forall|a: int| 0 <= a < ulist.len() implies ch.contains_key(
            #[trigger] ulist[a].path,
        ) && ch[ulist[a].path] == ulist[a] by {
            assert(ulist[a] == nv[from_u[a]]);
            assert(new@[nk[from_u[a]]] == nv[from_u[a]]);
        }
        assert forall|p: Seq<char>| ch.contains_key(p) implies exists|a: int|
            0 <= a < ulist.len() && #[trigger] ulist[a].path == p by {
            new.lemma_key(p);
            let x = nk.index_of(p);
            assert(ch.contains_key(nk[x]));
            let a = choose|a: int| 0 <= a < from_u.len() && #[trigger] from_u[a] == x;
            assert(ulist[a].path == p);
        }
        let rlist = texts(removed@);
        assert forall|a: int| 0 <= a < rlist.len() implies #[trigger] rlist[a] == ok[from_r[a]] by {
            assert(rlist[a] == removed@[a]@);
        }
        assert forall|a: int, b: int|
            0 <= a < rlist.len() && 0 <= b < rlist.len() && a != b implies rlist[a]
            != rlist[b] by {
            if a < b {
                assert(from_r[a] < from_r[b]);
            } else {
                assert(from_r[b] < from_r[a]);
            }
            assert(rlist[a] == ok[from_r[a]]);
            assert(rlist[b] == ok[from_r[b]]);
        }
        assert forall|p: Seq<char>| rlist.contains(p) <==> dr.contains(p) by {
            if rlist.contains(p) {
                let a = choose|a: int| 0 <= a < rlist.len() && rlist[a] == p;
                assert(p == ok[from_r[a]]);
                assert(old@.contains_key(ok[from_r[a]]));
            }
            if dr.contains(p) {
                old.lemma_key(p);
                let x = ok.index_of(p);
                assert(!new@.contains_key(ok[x]));
                let a = choose|a: int| 0 <= a < from_r.len() && #[trigger] from_r[a] == x;
                assert(rlist[a] == p);
            }
        }
        if updates@.len() > 0 {
            assert(ch.contains_key(ulist[0].path));
        }
        if removed@.len() > 0 {
            assert(rlist.contains(rlist[0]));
            assert(dr.contains(rlist[0]));
        }
        if differs(old@, new@) {
            if exists|p: Seq<char>| #[trigger] ch.contains_key(p) {
                let p = choose|p: Seq<char>| #[trigger] ch.contains_key(p);
                let a = choose|a: int| 0 <= a < ulist.len() && #[trigger] ulist[a].path == p;
            } else {
                let p = choose|p: Seq<char>| #[trigger] dr.contains(p);
                assert(rlist.contains(p));
            }
        }
    }
    (updates, removed)
}

/// Whether the table `new` differs from the table `old`.
pub fn nodes_changed(old: &KeyedList<String, FileNode>, new: &KeyedList<String, FileNode>) -> (r:
    bool)
    requires
        old.wf(),
        new.wf(),
        keyed_by_path(new@),
    ensures
        r == differs(old@, new@),
{
    let (updates, removed) = diff_nodes(old, new);
    updates.len() > 0 || removed.len() > 0
}

/// A copy of a file table.
pub fn copy_table(table: &KeyedList<String, FileNode>) -> (r: KeyedList<String, FileNode>)
    requires
        table.wf(),
    ensures
        r.wf(),
        r@ == table@,
{
    let mut out: KeyedList<String, FileNode> = KeyedList::new();
    let ghost keys = table.key_views();
    let ghost vals = table.value_views();
    let n = table.len();
    let mut i: usize = 0;
    while i < n
        invariant
            i <= n,
            n == table.count(),
            table.wf(),
            keys == table.key_views(),
            vals == table.value_views(),
            out.wf(),
            forall|j: int|
                0 <= j < i ==> out@.contains_key(#[trigger] keys[j]) && out@[keys[j]] == vals[j],
            forall|p: Seq<char>| #[trigger]
                out@.contains_key(p) ==> keys.contains(p) && keys.index_of(p) < i,
        decreases n - i,
    {
        proof {
            table.lemma_entry(i as int);
        }
        out.push(table.key(i).clone(), table.value(i).clone());
        i = i + 1;
    }
    proof {
        assert forall|p: Seq<char>| table@.contains_key(p) implies out@.contains_key(p) && out@[p]
            == table@[p] by {
            table.lemma_key(p);
        }
        assert forall|p: Seq<char>| out@.contains_key(p) implies table@.contains_key(p) by {
            table.lemma_entry(keys.index_of(p));
        }
        assert(out@ =~= table@);
    }
    out
}

/// What the aggregator keeps for one orchestrator session.
pub struct OrchestratorStateView {
    /// The sequence number of the last change that was reported.
    pub seq: u64,
    /// The merged file table as it was computed last.
    pub nodes: Map<Seq<char>, NodeView>,
    /// The latest usage report of each provider.
    pub usage: Map<SessionKeyView, UsageView>,
}

impl OrchestratorStateView {
    /// The state of a session of which nothing is known yet.
    pub open spec fn initial() -> OrchestratorStateView {
        OrchestratorStateView { seq: 0, nodes: Map::empty(), usage: Map::empty() }
    }

    /// The state after the merged table was computed as `nodes`: the table
    /// is kept, and the sequence number is one up if it differs from the
    /// table before.
    pub open spec fn stepped(self, nodes: Map<Seq<char>, NodeView>) -> OrchestratorStateView {
        OrchestratorStateView {
            seq: if differs(self.nodes, nodes) {
                (self.seq + 1) as u64
            } else {
                self.seq
            },
            nodes,
            usage: self.usage,
        }
    }
}

/// What the aggregator keeps for one orchestrator session.
#[derive(Debug)]
pub struct OrchestratorSessionState {
    seq: u64,
    nodes: KeyedList<String, FileNode>,
    provider_usage: KeyedList<SessionKey, UsageMessage>,
}

impl View for OrchestratorSessionState {
    type V = OrchestratorStateView;

    closed spec fn view(&self) -> OrchestratorStateView {
        OrchestratorStateView {
            seq: self.seq,
            nodes: self.nodes@,
            usage: self.provider_usage@,
        }
    }
}

impl OrchestratorSessionState {
    /// Both lists are without a repeated key.
    pub closed spec fn wf(&self) -> bool {
        self.nodes.wf() && self.provider_usage.wf()
    }

    /// The state of a session of which nothing is known yet.
    pub fn new() -> (r: Self)
        ensures
            r.wf(),
            r@ == OrchestratorStateView::initial(),
    {
        OrchestratorSessionState {
            seq: 0,
            nodes: KeyedList::new(),
            provider_usage: KeyedList::new(),
        }
    }
}

/// What the aggregator holds: the state of each orchestrator session that it
/// has worked on.
pub struct AggregatorView {
    pub sessions: Map<SessionKeyView, OrchestratorStateView>,
}

/// Whether `d` is the delta that reports the change of the table `old` to
/// the table `new` of the orchestrator session `session_id`, with the
/// sequence number `seq`.
pub open spec fn reports(
    d: crate::types::DeltaView,
    agent_id: Seq<char>,
    session_id: Seq<char>,
    seq: u64,
    old: Map<Seq<char>, NodeView>,
    new: Map<Seq<char>, NodeView>,
) -> bool {
    &&& d.msg_type == "delta"@
    &&& d.agent_id == agent_id
    &&& d.session_id == session_id
    &&& d.session_mode == SessionMode::Orchestrator
    &&& d.seq == seq
    &&& lists_nodes(d.updates, changed_nodes(old, new))
    &&& lists_paths(d.removed, dropped_paths(old, new))
}

/// The views of a list of deltas.
pub open spec fn delta_views(list: Seq<Delta>) -> Seq<crate::types::DeltaView> {
    list.map_values(|d: Delta| d@)
}

impl AggregatorView {
    /// The state of the session `k`; the initial state where the aggregator
    /// has not worked on it.
    pub open spec fn state_of(self, k: SessionKeyView) -> OrchestratorStateView {
        if self.sessions.contains_key(k) {
            self.sessions[k]
        } else {
            OrchestratorStateView::initial()
        }
    }

    /// Whether no sequence number is at the limit of its type.
    pub open spec fn has_room(self) -> bool {
        forall|k: SessionKeyView|
            self.sessions.contains_key(k) ==> (#[trigger] self.sessions[k]).seq < u64::MAX
    }

    /// Whether `k` is an orchestrator session of the registry.
    pub open spec fn orchestrates(reg: RegistryView, k: SessionKeyView) -> bool {
        reg.sessions.contains_key(k) && reg.sessions[k].mode == SessionMode::Orchestrator
    }

    /// The state of the session `k` after its merged table was computed anew
    /// from the providers `providers`.
    pub open spec fn renewed(
        self,
        k: SessionKeyView,
        providers: Seq<SessionKeyView>,
        t: TrackerView,
    ) -> OrchestratorStateView {
        self.state_of(k).stepped(aggregate(providers, t))
    }

    /// The aggregator after a snapshot of `session` was served.
    pub open spec fn served(self, session: SessionStateView, t: TrackerView) -> AggregatorView {
        AggregatorView {
            sessions: self.sessions.insert(
                session.key(),
                self.renewed(session.key(), session.providers, t),
            ),
        }
    }

    /// The aggregator after a tick: it holds the renewed state of each
    /// orchestrator session of the registry, and no other state.
    pub open spec fn ticked(self, t: TrackerView, reg: RegistryView) -> AggregatorView {
        AggregatorView {
            sessions: Map::new(
                |k: SessionKeyView| Self::orchestrates(reg, k),
                |k: SessionKeyView| self.renewed(k, reg.sessions[k].providers, t),
            ),
        }
    }

    /// Whether the merged table of the orchestrator session `k` changes on a
    /// tick.
    pub open spec fn changes(self, k: SessionKeyView, t: TrackerView, reg: RegistryView) -> bool {
        Self::orchestrates(reg, k) && differs(
            self.state_of(k).nodes,
            aggregate(reg.sessions[k].providers, t),
        )
    }

    /// Whether `deltas` are the deltas of a tick, the one at index `i` for
    /// the session `keys[i]`: one delta for each orchestrator session whose
    /// merged table changes, with the next sequence number of that session.
    pub open spec fn tick_deltas(
        self,
        deltas: Seq<crate::types::DeltaView>,
        keys: Seq<SessionKeyView>,
        t: TrackerView,
        reg: RegistryView,
    ) -> bool {
        &&& keys.len() == deltas.len()
        &&& keys.no_duplicates()
        &&& forall|k: SessionKeyView| keys.contains(k) <==> self.changes(k, t, reg)
        &&& forall|i: int|
            0 <= i < keys.len() ==> reports(
                #[trigger] deltas[i],
                t.agent_id,
                keys[i].session_id,
                (self.state_of(keys[i]).seq + 1) as u64,
                self.state_of(keys[i]).nodes,
                aggregate(reg.sessions[keys[i]].providers, t),
            )
    }
}

/// On a tick, an orchestrator session whose merged table changes gets
/// exactly one delta, which carries the sequence number that the session
/// then has: one above the number before. A session whose table stays gets
/// no delta and keeps its number. So the sequence numbers of the deltas of
/// an orchestrator session rise strictly.
pub proof fn lemma_orchestrator_seq_rises(
    agg: AggregatorView,
    deltas: Seq<crate::types::DeltaView>,
    keys: Seq<SessionKeyView>,
    t: TrackerView,
    reg: RegistryView,
    k: SessionKeyView,
)
    requires
        agg.has_room(),
        agg.tick_deltas(deltas, keys, t, reg),
        AggregatorView::orchestrates(reg, k),
    ensures
        agg.ticked(t, reg).state_of(k).nodes == aggregate(reg.sessions[k].providers, t),
        agg.changes(k, t, reg) ==> {
            &&& agg.ticked(t, reg).state_of(k).seq == agg.state_of(k).seq + 1
            &&& 0 <= keys.index_of(k) < keys.len()
            &&& keys[keys.index_of(k)] == k
            &&& deltas[keys.index_of(k)].session_id == k.session_id
            &&& deltas[keys.index_of(k)].seq == agg.ticked(t, reg).state_of(k).seq
            &&& forall|i: int| 0 <= i < keys.len() && keys[i] == k ==> i == keys.index_of(k)
        },
        !agg.changes(k, t, reg) ==> {
            &&& agg.ticked(t, reg).state_of(k).seq == agg.state_of(k).seq
            &&& forall|i: int| 0 <= i < keys.len() ==> keys[i] != k
        },
{
    if agg.changes(k, t, reg) {
        assert(keys.contains(k));
        let at = keys.index_of(k);
        assert(keys[at] == k);
    } else {
        assert forall|i: int| 0 <= i < keys.len() implies keys[i] != k by {
            if keys[i] == k {
                assert(keys.contains(k));
            }
        }
    }
}

/// The aggregator of the orchestrator sessions.
#[derive(Debug)]
pub struct OrchestratorAggregator {
    sessions: KeyedList<SessionKey, OrchestratorSessionState>,
}

impl View for OrchestratorAggregator {
    type V = AggregatorView;

    closed spec fn view(&self) -> AggregatorView {
        AggregatorView { sessions: self.sessions@ }
    }
}

impl OrchestratorAggregator {
    /// The list of states is without a repeated session, and each state is
    /// well formed.
    pub closed spec fn wf(&self) -> bool {
        &&& self.sessions.wf()
        &&& forall|i: int|
            0 <= i < self.sessions.items().len() ==> (#[trigger] self.sessions.items()[i]).wf()
    }

    /// The aggregator that has worked on no session.
    pub fn new() -> (r: Self)
        ensures
            r.wf(),
            r@.sessions == Map::<SessionKeyView, OrchestratorStateView>::empty(),
    {
        OrchestratorAggregator { sessions: KeyedList::new() }
    }

    /// Whether no sequence number is at the limit of its type.
    pub fn has_room(&self) -> (r: bool)
        requires
            self.wf(),
        ensures
            r == self@.has_room(),
    {
        let n = self.sessions.len();
        let mut i: usize = 0;
        while i < n
            invariant
                i <= n,
                n == self.sessions.count(),
                self.sessions.wf(),
                forall|j: int|
                    0 <= j < i ==> (#[trigger] self.sessions.value_views()[j]).seq < u64::MAX,
            decreases n - i,
        {
            if self.sessions.value(i).seq == u64::MAX {
                proof {
                    self.sessions.lemma_entry(i as int);
                    let k = self.sessions.key_views()[i as int];
                    assert(self@.sessions.contains_key(k));
                    assert(self@.sessions[k].seq == u64::MAX);
                }
                return false;
            }
            i = i + 1;
        }
        proof {
            assert forall|k: SessionKeyView| self.sessions@.contains_key(k) implies (
            #[trigger] self.sessions@[k]).seq < u64::MAX by {
                self.sessions.lemma_key(k);
            }
        }
        true
    }

    /// Takes the state of the session `key` out of the list: the state that
    /// is kept, or the initial state.
    fn take_state(&mut self, key: &SessionKey) -> (r: OrchestratorSessionState)
        requires
            old(self).wf(),
        ensures
            final(self).wf(),
            r.wf(),
            r@ == old(self)@.state_of(key@),
            final(self)@.sessions == old(self)@.sessions.remove(key@),
    {
        let taken = self.sessions.remove(key);
        proof {
            assert forall|i: int| 0 <= i < self.sessions.items().len() implies (
            #[trigger] self.sessions.items()[i]).wf() by {
                assert(self.sessions.items().contains(self.sessions.items()[i]));
            }
        }
        match taken {
            Some(state) => state,
            None => OrchestratorSessionState::new(),
        }
    }

    /// Serves a snapshot of the orchestrator session `session`: its merged
    /// file table, computed anew, under the sequence number of the session,
    /// which is one up if the table changed since it was computed last.
    pub fn snapshot_for_session(&mut self, session: &SessionState, tracker: &ContextTracker) -> (r:
        Snapshot)
        requires
            old(self).wf(),
            old(self)@.has_room(),
            tracker.wf(),
        ensures
            final(self).wf(),
            final(self)@ == old(self)@.served(session@, tracker@),
            r.nodes.wf(),
            r@ == (SnapshotView {
                msg_type: "snapshot"@,
                agent_id: tracker@.agent_id,
                session_id: session@.session_id,
                session_mode: SessionMode::Orchestrator,
                seq: old(self)@.renewed(session@.key(), session@.providers, tracker@).seq,
                nodes: aggregate(session@.providers, tracker@),
            }),
    {
        let key = session.key();
        let nodes = compute_aggregate_nodes(&session.providers, tracker);
        let mut state = self.take_state(&key);
        if nodes_changed(&state.nodes, &nodes) {
            state.seq = state.seq + 1;
        }
        let seq = state.seq;
        state.nodes = copy_table(&nodes);
        self.sessions.insert(key, state);
        proof {
            assert forall|i: int| 0 <= i < self.sessions.items().len() implies (
            #[trigger] self.sessions.items()[i]).wf() by {
                assert(self.sessions.items().contains(self.sessions.items()[i]));
            }
            assert(self@.sessions =~= old(self)@.served(session@, tracker@).sessions);
        }
        Snapshot::new(
            tracker.agent_id(),
            session.session_id.as_str(),
            SessionMode::Orchestrator,
            seq,
            nodes,
        )
    }

    /// One tick: computes the merged table of each orchestrator session of
    /// the registry anew, hands out a delta for each session whose table
    /// changed, and forgets the sessions that the registry no longer holds
    /// as orchestrators.
    pub fn tick(&mut self, tracker: &ContextTracker, registry: &SessionRegistry) -> (r: Vec<Delta>)
        requires
            old(self).wf(),
            old(self)@.has_room(),
            tracker.wf(),
            registry.wf(),
        ensures
            final(self).wf(),
            final(self)@ == old(self)@.ticked(tracker@, registry@),
            forall|i: int| 0 <= i < r@.len() ==> (#[trigger] r@[i]).msg_type@ == "delta"@,
            exists|keys: Seq<SessionKeyView>|
                old(self)@.tick_deltas(delta_views(r@), keys, tracker@, registry@),
    {
        let ghost before = self@;
        let ghost t = tracker@;
        let ghost reg = registry@;
        let list = registry.orchestrator_sessions();
        let ghost views = state_views(list@);
        let mut next: KeyedList<SessionKey, OrchestratorSessionState> = KeyedList::new();
        let mut deltas: Vec<Delta> = Vec::new();
        let ghost mut from: Seq<int> = Seq::empty();
        let mut i: usize = 0;
        while i < list.len()
            invariant
                i <= list.len(),
                views == state_views(list@),
                crate::session_registry::lists_sessions(views, reg.sessions, true),
                before == old(self)@,
                before.has_room(),
                t == tracker@,
                tracker.wf(),
                self.wf(),
                forall|k: SessionKeyView|
                    self@.sessions.contains_key(k) <==> before.sessions.contains_key(k) && !(exists|
                        j: int,
                    | 0 <= j < i && (#[trigger] views[j]).key() == k),
                forall|k: SessionKeyView| #[trigger]
                    self@.sessions.contains_key(k) ==> self@.sessions[k] == before.sessions[k],
                next.wf(),
                forall|x: int|
                    0 <= x < next.items().len() ==> (#[trigger] next.items()[x]).wf(),
                forall|j: int|
                    0 <= j < i ==> next@.contains_key((#[trigger] views[j]).key())
                        && next@[views[j].key()] == before.renewed(
                        views[j].key(),
                        views[j].providers,
                        t,
                    ),
                forall|k: SessionKeyView| #[trigger]
                    next@.contains_key(k) ==> exists|j: int|
                        0 <= j < i && (#[trigger] views[j]).key() == k,
                from.len() == deltas.len(),
                forall|x: int|
                    0 <= x < deltas@.len() ==> (#[trigger] deltas@[x]).msg_type@ == "delta"@,
                forall|a: int|
                    0 <= a < from.len() ==> 0 <= #[trigger] from[a] < i && differs(
                        before.state_of(views[from[a]].key()).nodes,
                        aggregate(views[from[a]].providers, t),
                    ) && reports(
                        deltas@[a]@,
                        t.agent_id,
                        views[from[a]].session_id,
                        (before.state_of(views[from[a]].key()).seq + 1) as u64,
                        before.state_of(views[from[a]].key()).nodes,
                        aggregate(views[from[a]].providers, t),
                    ),
                forall|a: int, b: int|
                    0 <= a < b < from.len() ==> #[trigger] from[a] < #[trigger] from[b],
                forall|j: int|
                    0 <= j < i && differs(
                        before.state_of((#[trigger] views[j]).key()).nodes,
                        aggregate(views[j].providers, t),
                    ) ==> exists|a: int| 0 <= a < from.len() && #[trigger] from[a] == j,
            decreases list.len() - i,
        {
            let session = &list[i];
            assert(views[i as int] == session@);
            let key = session.key();
            let nodes = compute_aggregate_nodes(&session.providers, tracker);
            proof {
                assert forall|j: int| 0 <= j < i implies (#[trigger] views[j]).key() != key@ by {
                    assert(views[j].key() != views[i as int].key());
                }
                assert(self@.sessions.contains_key(key@) <==> before.sessions.contains_key(key@));
            }
            let ghost held = self@;
            let mut state = self.take_state(&key);
            assert(state@ == before.state_of(key@));
            let (updates, removed) = diff_nodes(&state.nodes, &nodes);
            if updates.len() > 0 || removed.len() > 0 {
                state.seq = state.seq + 1;
                deltas.push(
                    Delta::new(
                        tracker.agent_id(),
                        session.session_id.as_str(),
                        SessionMode::Orchestrator,
                        state.seq,
                        updates,
                        removed,
                    ),
                );
                proof {
                    let before_from = from;
                    from = from.push(i as int);
                    assert forall|j: int|
                        0 <= j < i + 1 && differs(
                            before.state_of((#[trigger] views[j]).key()).nodes,
                            aggregate(views[j].providers, t),
                        ) implies exists|a: int| 0 <= a < from.len() && #[trigger] from[a] == j by {
                        if j < i {
                            let a = choose|a: int|
                                0 <= a < before_from.len() && #[trigger] before_from[a] == j;
                            assert(from[a] == j);
                        } else {
                            assert(from[before_from.len() as int] == j);
                        }
                    }
                }
            }
            state.nodes = nodes;
            proof {
                if next@.contains_key(key@) {
                    let j = choose|j: int| 0 <= j < i && (#[trigger] views[j]).key() == key@;
                    assert(false);
                }
            }
            let ghost next_before = next@;
            next.push(key, state);
            proof {
                assert forall|x: int| 0 <= x < next.items().len() implies (
                #[trigger] next.items()[x]).wf() by {}
                assert forall|k: SessionKeyView|
                    self@.sessions.contains_key(k) <==> before.sessions.contains_key(k) && !(exists|
                        j: int,
                    | 0 <= j < i + 1 && (#[trigger] views[j]).key() == k) by {
                    if k == key@ {
                        assert(views[i as int].key() == k);
                    } else {
                        assert(self@.sessions.contains_key(k) == held.sessions.contains_key(k));
                        if exists|j: int| 0 <= j < i + 1 && (#[trigger] views[j]).key() == k {
                            let j = choose|j: int| 0 <= j < i + 1 && (#[trigger] views[j]).key() == k;
                            assert(j < i);
                        }
                    }
                }
                assert forall|k: SessionKeyView| #[trigger]
                    next@.contains_key(k) implies exists|j: int|
                    0 <= j < i + 1 && (#[trigger] views[j]).key() == k by {
                    if k == key@ {
                        assert(views[i as int].key() == k);
                    } else {
                        assert(next_before.contains_key(k));
                        let j = choose|j: int| 0 <= j < i && (#[trigger] views[j]).key() == k;
                        assert(views[j].key() == k);
                    }
                }
                assert forall|j: int| 0 <= j < i + 1 implies next@.contains_key(
                    (#[trigger] views[j]).key(),
                ) && next@[views[j].key()] == before.renewed(
                    views[j].key(),
                    views[j].providers,
                    t,
                ) by {
                    if j < i {
                        assert(views[j].key() != views[i as int].key());
                    }
                }
            }
            i = i + 1;
        }
        self.sessions = next;
        proof {
            let want = before.ticked(t, reg).sessions;
            assert forall|k: SessionKeyView| self@.sessions.contains_key(k) <==> want.contains_key(
                k,
            ) by {
                if self@.sessions.contains_key(k) {
                    let j = choose|j: int| 0 <= j < list.len() && (#[trigger] views[j]).key() == k;
                    assert(reg.sessions.contains_key(views[j].key()));
                }
                if want.contains_key(k) {
                    assert(wanted(true, reg.sessions[k]));
                    let a = choose|a: int| 0 <= a < views.len() && (#[trigger] views[a]).key() == k;
                    assert(next@.contains_key(views[a].key()));
                }
            }
            assert forall|k: SessionKeyView| self@.sessions.contains_key(k) implies self@.sessions[k]
                == want[k] by {
                let j = choose|j: int| 0 <= j < list.len() && (#[trigger] views[j]).key() == k;
                assert(next@[views[j].key()] == before.renewed(
                    views[j].key(),
                    views[j].providers,
                    t,
                ));
                assert(reg.sessions[views[j].key()] == views[j]);
            }
            assert(self@.sessions =~= want);
            let keys = Seq::new(from.len(), |a: int| views[from[a]].key());
            let ds = delta_views(deltas@);
            assert forall|a: int, b: int| 0 <= a < keys.len() && 0 <= b < keys.len() && a
                != b implies keys[a] != keys[b] by {
                if a < b {
                    assert(from[a] < from[b]);
                } else {
                    assert(from[b] < from[a]);
                }
                assert(views[from[a]].key() != views[from[b]].key());
            }
            assert forall|k: SessionKeyView| keys.contains(k) <==> before.changes(k, t, reg) by {
                if keys.contains(k) {
                    let a = choose|a: int| 0 <= a < keys.len() && keys[a] == k;
                    assert(0 <= from[a] < list.len());
                    assert(reg.sessions.contains_key(views[from[a]].key()));
                    assert(reg.sessions[views[from[a]].key()] == views[from[a]]);
                    assert(wanted(true, views[from[a]]));
                }
                if before.changes(k, t, reg) {
                    assert(wanted(true, reg.sessions[k]));
                    let j = choose|j: int| 0 <= j < views.len() && (#[trigger] views[j]).key() == k;
                    assert(reg.sessions[views[j].key()] == views[j]);
                    let a = choose|a: int| 0 <= a < from.len() && #[trigger] from[a] == j;
                    assert(keys[a] == k);
                }
            }
            assert forall|a: int| 0 <= a < keys.len() implies reports(
                #[trigger] ds[a],
                t.agent_id,
                keys[a].session_id,
                (before.state_of(keys[a]).seq + 1) as u64,
                before.state_of(keys[a]).nodes,
                aggregate(reg.sessions[keys[a]].providers, t),
            ) by {
                assert(ds[a] == deltas@[a]@);
                assert(0 <= from[a] < list.len());
                assert(reg.sessions[views[from[a]].key()] == views[from[a]]);
            }
            assert(before.tick_deltas(ds, keys, t, reg));
        }
        deltas
    }
}

/// The session that the usage report `u` comes from.
pub open spec fn usage_key(u: UsageView) -> SessionKeyView {
    SessionKeyView { agent_id: u.agent_id, session_id: u.session_id }
}

/// The sum of two counts, cut off at the limit of their type.
pub open spec fn capped_sum(a: u32, b: u32) -> u32 {
    if a + b > u32::MAX {
        u32::MAX
    } else {
        (a + b) as u32
    }
}

/// The sum of two amounts, cut off at the limit of their type.
pub open spec fn capped_amount(a: u64, b: u64) -> u64 {
    if a + b > u64::MAX {
        u64::MAX
    } else {
        (a + b) as u64
    }
}

/// The used tokens of the providers `providers` together: the sum over the
/// providers that have reported.
pub open spec fn used_total(providers: Seq<SessionKeyView>, usage: Map<SessionKeyView, UsageView>) -> u32
    decreases providers.len(),
{
    if providers.len() == 0 {
        0
    } else if usage.contains_key(providers.last()) {
        capped_sum(used_total(providers.drop_last(), usage), usage[providers.last()].used)
    } else {
        used_total(providers.drop_last(), usage)
    }
}

/// The context sizes of the providers `providers` together.
pub open spec fn size_total(providers: Seq<SessionKeyView>, usage: Map<SessionKeyView, UsageView>) -> u32
    decreases providers.len(),
{
    if providers.len() == 0 {
        0
    } else if usage.contains_key(providers.last()) {
        capped_sum(size_total(providers.drop_last(), usage), usage[providers.last()].size)
    } else {
        size_total(providers.drop_last(), usage)
    }
}

/// How far the costs of some providers add up.
pub enum CostSum {
    /// No provider has reported yet.
    Nothing,
    /// Every report so far has a cost, all in one currency.
    Sum(CostView),
    /// Some report has no cost, or two reports differ in currency.
    Mixed,
}

impl CostSum {
    /// The sum with the cost of one more report.
    pub open spec fn with(self, cost: Option<CostView>) -> CostSum {
        match (self, cost) {
            (CostSum::Nothing, Some(c)) => CostSum::Sum(c),
            (CostSum::Sum(e), Some(c)) => if e.currency == c.currency {
                CostSum::Sum(
                    CostView {
                        amount_micros: capped_amount(e.amount_micros, c.amount_micros),
                        currency: e.currency,
                    },
                )
            } else {
                CostSum::Mixed
            },
            _ => CostSum::Mixed,
        }
    }

    /// The cost that the sum stands for: the sum, where every report has a
    /// cost in one currency; no cost otherwise.
    pub open spec fn total(self) -> Option<CostView> {
        match self {
            CostSum::Sum(c) => Some(c),
            _ => None,
        }
    }
}

/// How far the costs of the providers `providers` add up.
pub open spec fn cost_sum(providers: Seq<SessionKeyView>, usage: Map<SessionKeyView, UsageView>) -> CostSum
    decreases providers.len(),
{
    if providers.len() == 0 {
        CostSum::Nothing
    } else if usage.contains_key(providers.last()) {
        cost_sum(providers.drop_last(), usage).with(usage[providers.last()].cost)
    } else {
        cost_sum(providers.drop_last(), usage)
    }
}

/// The usage report of an orchestrator session: the sums over its providers
/// that have reported, and their cost where all of them give a cost in one
/// currency. A session without providers has no report.
pub open spec fn summed_usage(
    agent_id: Seq<char>,
    session_id: Seq<char>,
    providers: Seq<SessionKeyView>,
    usage: Map<SessionKeyView, UsageView>,
) -> Option<UsageView> {
    if providers.len() == 0 {
        None
    } else {
        Some(
            UsageView {
                msg_type: "usage"@,
                agent_id,
                session_id,
                session_mode: SessionMode::Orchestrator,
                used: used_total(providers, usage),
                size: size_total(providers, usage),
                cost: cost_sum(providers, usage).total(),
            },
        )
    }
}

/// The sum of two counts, cut off at the limit of their type.
fn add_capped(a: u32, b: u32) -> (r: u32)
    ensures
        r == capped_sum(a, b),
{
    if a > u32::MAX - b {
        u32::MAX
    } else {
        a + b
    }
}

/// The usage report of an orchestrator session.
pub fn aggregate_usage_for_session(
    agent_id: &str,
    session_id: &str,
    providers: &Vec<SessionKey>,
    provider_usage: &KeyedList<SessionKey, UsageMessage>,
) -> (r: Option<UsageMessage>)
    requires
        provider_usage.wf(),
    ensures
        match r {
            Some(u) => summed_usage(agent_id@, session_id@, key_views(providers@), provider_usage@)
                == Some(u@),
            None => summed_usage(agent_id@, session_id@, key_views(providers@), provider_usage@)
                is None,
        },
{
    if providers.len() == 0 {
        return None;
    }
    let ghost all = key_views(providers@);
    let ghost usage = provider_usage@;
    let mut used: u32 = 0;
    let mut size: u32 = 0;
    // 0: nothing yet, 1: a sum, 2: mixed
    let mut stage: u8 = 0;
    let mut amount: u64 = 0;
    let mut currency: String = String::new();
    let mut i: usize = 0;
    assert(all.take(0) =~= Seq::empty());
    while i < providers.len()
        invariant
            i <= providers.len(),
            all == key_views(providers@),
            usage == provider_usage@,
            provider_usage.wf(),
            used == used_total(all.take(i as int), usage),
            size == size_total(all.take(i as int), usage),
            stage <= 2,
            stage == 0 <==> cost_sum(all.take(i as int), usage) is Nothing,
            stage == 2 <==> cost_sum(all.take(i as int), usage) is Mixed,
            stage == 1 ==> cost_sum(all.take(i as int), usage) == CostSum::Sum(
                CostView { amount_micros: amount, currency: currency@ },
            ),
        decreases providers.len() - i,
    {
        assert(all.take(i + 1).drop_last() == all.take(i as int));
        assert(all.take(i + 1).last() == providers@[i as int]@);
        match provider_usage.get(&providers[i]) {
            Some(report) => {
                used = add_capped(used, report.used);
                size = add_capped(size, report.size);
                match &report.cost {
                    Some(cost) => {
                        if stage == 0 {
                            stage = 1;
                            amount = cost.amount_micros;
                            currency = cost.currency.clone();
                        } else if stage == 1 {
                            if currency == cost.currency {
                                amount = if amount > u64::MAX - cost.amount_micros {
                                    u64::MAX
                                } else {
                                    amount + cost.amount_micros
                                };
                            } else {
                                stage = 2;
                            }
                        }
                    },
                    None => {
                        stage = 2;
                    },
                }
            },
            None => {},
        }
        i = i + 1;
    }
    assert(all.take(providers.len() as int) == all);
    let cost = if stage == 1 {
        Some(Cost { amount_micros: amount, currency })
    } else {
        None
    };
    Some(UsageMessage::new(agent_id, session_id, SessionMode::Orchestrator, used, size, cost))
}

/// The usage reports of `list` that come from one of the sessions `keep`.
pub fn keep_usage(list: &KeyedList<SessionKey, UsageMessage>, keep: &Vec<SessionKey>) -> (r:
    KeyedList<SessionKey, UsageMessage>)
    requires
        list.wf(),
    ensures
        r.wf(),
        r@ == list@.restrict(key_views(keep@).to_set()),
{
    let mut out: KeyedList<SessionKey, UsageMessage> = KeyedList::new();
    let ghost keys = list.key_views();
    let ghost vals = list.value_views();
    let ghost kept = key_views(keep@).to_set();
    let n = list.len();
    let mut i: usize = 0;
    while i < n
        invariant
            i <= n,
            n == list.count(),
            list.wf(),
            keys == list.key_views(),
            vals == list.value_views(),
            kept == key_views(keep@).to_set(),
            out.wf(),
            forall|j: int|
                0 <= j < i && kept.contains(#[trigger] keys[j]) ==> out@.contains_key(keys[j])
                    && out@[keys[j]] == vals[j],
            forall|k: SessionKeyView| #[trigger]
                out@.contains_key(k) ==> keys.contains(k) && keys.index_of(k) < i && kept.contains(
                    k,
                ),
        decreases n - i,
    {
        proof {
            list.lemma_entry(i as int);
        }
        let key = list.key(i);
        if crate::types::holds_key(keep, key) {
            out.push(key.clone(), list.value(i).clone());
        }
        i = i + 1;
    }
    proof {
        let want = list@.restrict(kept);
        assert forall|k: SessionKeyView| want.contains_key(k) implies out@.contains_key(k)
            && out@[k] == want[k] by {
            list.lemma_key(k);
        }
        assert forall|k: SessionKeyView| out@.contains_key(k) implies want.contains_key(k) by {
            list.lemma_entry(keys.index_of(k));
        }
        assert(out@ =~= want);
    }
    out
}

/// Whether one of the first `i` sessions of `list` is the session `k` and
/// takes the usage report `msg`.
pub open spec fn heard_among(
    list: Seq<SessionStateView>,
    i: int,
    k: SessionKeyView,
    reg: RegistryView,
    msg: UsageView,
) -> bool {
    exists|j: int| 0 <= j < i && (#[trigger] list[j]).key() == k && hears(reg, k, msg)
}

/// Whether the orchestrator session `k` takes the usage report `msg`: the
/// reporting session is one of its providers.
pub open spec fn hears(reg: RegistryView, k: SessionKeyView, msg: UsageView) -> bool {
    AggregatorView::orchestrates(reg, k) && reg.sessions[k].providers.contains(usage_key(msg))
}

impl OrchestratorStateView {
    /// The state after the usage report `msg` of one of the providers
    /// `providers` was taken: the report stands for its session, and only
    /// the reports of providers are kept.
    pub open spec fn noted(self, providers: Seq<SessionKeyView>, msg: UsageView) -> OrchestratorStateView {
        OrchestratorStateView {
            usage: self.usage.insert(usage_key(msg), msg).restrict(providers.to_set()),
            ..self
        }
    }
}

impl AggregatorView {
    /// The aggregator after the usage report `msg` was taken: each
    /// orchestrator session that has the reporting session as a provider
    /// notes the report.
    pub open spec fn usage_noted(self, reg: RegistryView, msg: UsageView) -> AggregatorView {
        AggregatorView {
            sessions: Map::new(
                |k: SessionKeyView| self.sessions.contains_key(k) || hears(reg, k, msg),
                |k: SessionKeyView|
                    if hears(reg, k, msg) {
                        self.state_of(k).noted(reg.sessions[k].providers, msg)
                    } else {
                        self.sessions[k]
                    },
            ),
        }
    }

    /// The aggregator after the usage reports `msgs` were taken, one after
    /// the other.
    pub open spec fn usage_noted_all(self, reg: RegistryView, msgs: Seq<UsageView>) -> AggregatorView
        decreases msgs.len(),
    {
        if msgs.len() == 0 {
            self
        } else {
            self.usage_noted_all(reg, msgs.drop_last()).usage_noted(reg, msgs.last())
        }
    }

    /// Whether `out` are the usage reports that the report `msg` leads to,
    /// the one at index `i` for the session `keys[i]`: one for each
    /// orchestrator session that has the reporting session as a provider,
    /// with the sums over the providers of that session.
    pub open spec fn usage_reports(
        self,
        out: Seq<UsageView>,
        keys: Seq<SessionKeyView>,
        t: TrackerView,
        reg: RegistryView,
        msg: UsageView,
    ) -> bool {
        &&& keys.len() == out.len()
        &&& keys.no_duplicates()
        &&& forall|k: SessionKeyView| keys.contains(k) <==> hears(reg, k, msg)
        &&& forall|i: int|
            0 <= i < keys.len() ==> Some(#[trigger] out[i]) == summed_usage(
                t.agent_id,
                keys[i].session_id,
                reg.sessions[keys[i]].providers,
                self.state_of(keys[i]).noted(reg.sessions[keys[i]].providers, msg).usage,
            )
    }

    /// Whether `out` are the usage reports that the reports `msgs` lead to,
    /// one after the other: those of the first reports, then those of the
    /// last one, which finds the aggregator as the first ones left it.
    pub open spec fn usage_reports_all(
        self,
        out: Seq<UsageView>,
        t: TrackerView,
        reg: RegistryView,
        msgs: Seq<UsageView>,
    ) -> bool
        decreases msgs.len(),
    {
        if msgs.len() == 0 {
            out.len() == 0
        } else {
            exists|n: int, keys: Seq<SessionKeyView>|
                0 <= n <= out.len() && self.usage_reports_all(
                    out.take(n),
                    t,
                    reg,
                    msgs.drop_last(),
                ) && #[trigger] self.usage_noted_all(reg, msgs.drop_last()).usage_reports(
                    out.skip(n),
                    keys,
                    t,
                    reg,
                    msgs.last(),
                )
        }
    }
}

impl OrchestratorAggregator {
    /// Takes the usage report `usage` of a provider, and hands out the
    /// usage report of each orchestrator session that has the reporting
    /// session as a provider.
    pub fn aggregate_usage_one(
        &mut self,
        tracker: &ContextTracker,
        registry: &SessionRegistry,
        usage: &UsageMessage,
    ) -> (r: Vec<UsageMessage>)
        requires
            old(self).wf(),
            registry.wf(),
        ensures
            final(self).wf(),
            final(self)@ == old(self)@.usage_noted(registry@, usage@),
            final(self)@.has_room() == old(self)@.has_room(),
            forall|i: int| 0 <= i < r@.len() ==> (#[trigger] r@[i]).msg_type@ == "usage"@,
            exists|keys: Seq<SessionKeyView>|
                old(self)@.usage_reports(usage_views(r@), keys, tracker@, registry@, usage@),
    {
        let ghost before = self@;
        let ghost t = tracker@;
        let ghost reg = registry@;
        let ghost msg = usage@;
        let provider_key = SessionKey::new(usage.agent_id.as_str(), usage.session_id.as_str());
        let list = registry.orchestrator_sessions();
        let ghost views = state_views(list@);
        let mut out: Vec<UsageMessage> = Vec::new();
        let ghost mut from: Seq<int> = Seq::empty();
        let mut i: usize = 0;
        while i < list.len()
            invariant
                i <= list.len(),
                views == state_views(list@),
                crate::session_registry::lists_sessions(views, reg.sessions, true),
                before == old(self)@,
                t == tracker@,
                msg == usage@,
                provider_key@ == usage_key(msg),
                forall|x: int| 0 <= x < out@.len() ==> (#[trigger] out@[x]).msg_type@ == "usage"@,
                self.wf(),
                forall|k: SessionKeyView| #[trigger]
                    self@.sessions.contains_key(k) <==> before.sessions.contains_key(k)
                        || heard_among(views, i as int, k, reg, msg),
                forall|k: SessionKeyView| #[trigger]
                    self@.sessions.contains_key(k) ==> self@.sessions[k] == if heard_among(
                        views,
                        i as int,
                        k,
                        reg,
                        msg,
                    ) {
                        before.state_of(k).noted(reg.sessions[k].providers, msg)
                    } else {
                        before.sessions[k]
                    },
                from.len() == out.len(),
                forall|a: int|
                    0 <= a < from.len() ==> 0 <= #[trigger] from[a] < i && hears(
                        reg,
                        views[from[a]].key(),
                        msg,
                    ) && Some(out@[a]@) == summed_usage(
                        t.agent_id,
                        views[from[a]].session_id,
                        views[from[a]].providers,
                        before.state_of(views[from[a]].key()).noted(
                            views[from[a]].providers,
                            msg,
                        ).usage,
                    ),
                forall|a: int, b: int|
                    0 <= a < b < from.len() ==> #[trigger] from[a] < #[trigger] from[b],
                forall|j: int|
                    0 <= j < i && hears(reg, (#[trigger] views[j]).key(), msg) ==> exists|a: int|
                        0 <= a < from.len() && #[trigger] from[a] == j,
            decreases list.len() - i,
        {
            let session = &list[i];
            let ghost key_i = views[i as int].key();
            assert(views[i as int] == session@);
            assert(reg.sessions.contains_key(key_i) && reg.sessions[key_i] == views[i as int]
                && wanted(true, views[i as int]));
            let ghost held = self@;
            proof {
                assert forall|j: int| 0 <= j < i implies (#[trigger] views[j]).key() != key_i by {
                    assert(views[j].key() != views[i as int].key());
                }
                assert(!heard_among(views, i as int, key_i, reg, msg));
                assert forall|k: SessionKeyView|
                    k != key_i implies #[trigger] heard_among(views, i + 1, k, reg, msg)
                    == heard_among(views, i as int, k, reg, msg) by {
                    if heard_among(views, i + 1, k, reg, msg) {
                        let j = choose|j: int|
                            0 <= j < i + 1 && (#[trigger] views[j]).key() == k && hears(reg, k, msg);
                        assert(j < i);
                    }
                    if heard_among(views, i as int, k, reg, msg) {
                        let j = choose|j: int|
                            0 <= j < i && (#[trigger] views[j]).key() == k && hears(reg, k, msg);
                        assert(0 <= j < i + 1 && views[j].key() == k);
                    }
                }
                assert(heard_among(views, i + 1, key_i, reg, msg) == hears(reg, key_i, msg)) by {
                    if hears(reg, key_i, msg) {
                        assert(views[i as int].key() == key_i);
                    }
                    if heard_among(views, i + 1, key_i, reg, msg) {
                    }
                }
            }
            if crate::types::holds_key(&session.providers, &provider_key) {
                let key = session.key();
                assert(hears(reg, key@, msg));
                let mut state = self.take_state(&key);
                assert(state@ == before.state_of(key@));
                state.provider_usage.insert(provider_key.clone(), usage.clone());
                state.provider_usage = keep_usage(&state.provider_usage, &session.providers);
                assert(state@ == before.state_of(key@).noted(session@.providers, msg));
                let report = aggregate_usage_for_session(
                    tracker.agent_id(),
                    session.session_id.as_str(),
                    &session.providers,
                    &state.provider_usage,
                );
                match report {
                    Some(u) => {
                        out.push(u);
                    },
                    None => {
                        assert(false);
                    },
                }
                self.sessions.insert(key, state);
                proof {
                    assert forall|x: int| 0 <= x < self.sessions.items().len() implies (
                    #[trigger] self.sessions.items()[x]).wf() by {
                        assert(self.sessions.items().contains(self.sessions.items()[x]));
                    }
                    let before_from = from;
                    from = from.push(i as int);
                    assert forall|j: int|
                        0 <= j < i + 1 && hears(reg, (#[trigger] views[j]).key(), msg) implies exists|
                        a: int,
                    | 0 <= a < from.len() && #[trigger] from[a] == j by {
                        if j < i {
                            let a = choose|a: int|
                                0 <= a < before_from.len() && #[trigger] before_from[a] == j;
                            assert(from[a] == j);
                        } else {
                            assert(from[before_from.len() as int] == j);
                        }
                    }
                    assert forall|k: SessionKeyView| #[trigger]
                        self@.sessions.contains_key(k) <==> before.sessions.contains_key(k)
                            || heard_among(views, i + 1, k, reg, msg) by {
                        if k != key_i {
                            assert(self@.sessions.contains_key(k) == held.sessions.contains_key(k));
                        }
                    }
                    assert forall|k: SessionKeyView| #[trigger]
                        self@.sessions.contains_key(k) implies self@.sessions[k] == if heard_among(
                        views,
                        i + 1,
                        k,
                        reg,
                        msg,
                    ) {
                        before.state_of(k).noted(reg.sessions[k].providers, msg)
                    } else {
                        before.sessions[k]
                    } by {
                        if k != key_i {
                            assert(held.sessions.contains_key(k));
                            assert(self@.sessions[k] == held.sessions[k]);
                        }
                    }
                }
            } else {
                assert(!hears(reg, key_i, msg));
            }
            i = i + 1;
        }
        proof {
            let n = list.len() as int;
            let want = before.usage_noted(reg, msg).sessions;
            assert forall|k: SessionKeyView|
                hears(reg, k, msg) == #[trigger] heard_among(views, n, k, reg, msg) by {
                if hears(reg, k, msg) {
                    assert(wanted(true, reg.sessions[k]));
                    let a = choose|a: int| 0 <= a < views.len() && (#[trigger] views[a]).key() == k;
                    assert(views[a].key() == k);
                }
            }
            assert forall|k: SessionKeyView| self@.sessions.contains_key(k) <==> want.contains_key(
                k,
            ) by {
                assert(hears(reg, k, msg) == heard_among(views, n, k, reg, msg));
            }
            assert forall|k: SessionKeyView| self@.sessions.contains_key(k) implies self@.sessions[k]
                == want[k] by {
                assert(hears(reg, k, msg) == heard_among(views, n, k, reg, msg));
            }
            assert(self@.sessions =~= want);
            assert(self@.has_room() == before.has_room()) by {
                if before.has_room() {
                    assert forall|k: SessionKeyView| self@.sessions.contains_key(k) implies (
                    #[trigger] self@.sessions[k]).seq < u64::MAX by {
                        if before.sessions.contains_key(k) {
                            assert(before.sessions[k].seq < u64::MAX);
                        }
                    }
                }
                if self@.has_room() {
                    assert forall|k: SessionKeyView| before.sessions.contains_key(k) implies (
                    #[trigger] before.sessions[k]).seq < u64::MAX by {
                        assert(self@.sessions.contains_key(k));
                        assert(self@.sessions[k].seq < u64::MAX);
                    }
                }
            }
            let keys = Seq::new(from.len(), |a: int| views[from[a]].key());
            let us = usage_views(out@);
            assert forall|a: int, b: int| 0 <= a < keys.len() && 0 <= b < keys.len() && a
                != b implies keys[a] != keys[b] by {
                if a < b {
                    assert(from[a] < from[b]);
                } else {
                    assert(from[b] < from[a]);
                }
                assert(views[from[a]].key() != views[from[b]].key());
            }
            assert forall|k: SessionKeyView| keys.contains(k) <==> hears(reg, k, msg) by {
                if keys.contains(k) {
                    let a = choose|a: int| 0 <= a < keys.len() && keys[a] == k;
                    assert(0 <= from[a] < list.len());
                }
                if hears(reg, k, msg) {
                    assert(heard_among(views, n, k, reg, msg));
                    let j = choose|j: int|
                        0 <= j < n && (#[trigger] views[j]).key() == k && hears(reg, k, msg);
                    let a = choose|a: int| 0 <= a < from.len() && #[trigger] from[a] == j;
                    assert(keys[a] == k);
                }
            }
            assert forall|a: int| 0 <= a < keys.len() implies Some(#[trigger] us[a]) == summed_usage(
                t.agent_id,
                keys[a].session_id,
                reg.sessions[keys[a]].providers,
                before.state_of(keys[a]).noted(reg.sessions[keys[a]].providers, msg).usage,
            ) by {
                assert(us[a] == out@[a]@);
                assert(0 <= from[a] < list.len());
                assert(reg.sessions[views[from[a]].key()] == views[from[a]]);
            }
            assert(before.usage_reports(us, keys, t, reg, msg));
        }
        out
    }

    /// Takes the usage reports `usage_msgs` of providers, one after the
    /// other, and hands out the usage reports of the orchestrator sessions
    /// that they lead to.
    pub fn aggregate_usage(
        &mut self,
        tracker: &ContextTracker,
        registry: &SessionRegistry,
        usage_msgs: &Vec<UsageMessage>,
    ) -> (r: Vec<UsageMessage>)
        requires
            old(self).wf(),
            registry.wf(),
        ensures
            final(self).wf(),
            final(self)@ == old(self)@.usage_noted_all(registry@, usage_views(usage_msgs@)),
            final(self)@.has_room() == old(self)@.has_room(),
            forall|i: int| 0 <= i < r@.len() ==> (#[trigger] r@[i]).msg_type@ == "usage"@,
            old(self)@.usage_reports_all(
                usage_views(r@),
                tracker@,
                registry@,
                usage_views(usage_msgs@),
            ),
    {
        let ghost before = self@;
        let ghost t = tracker@;
        let ghost reg = registry@;
        let ghost msgs = usage_views(usage_msgs@);
        let mut out: Vec<UsageMessage> = Vec::new();
        let mut i: usize = 0;
        assert(msgs.take(0) =~= Seq::empty());
        assert(usage_views(out@) =~= Seq::empty());
        while i < usage_msgs.len()
            invariant
                i <= usage_msgs.len(),
                msgs == usage_views(usage_msgs@),
                before == old(self)@,
                t == tracker@,
                reg == registry@,
                registry.wf(),
                self.wf(),
                self@ == before.usage_noted_all(reg, msgs.take(i as int)),
                self@.has_room() == before.has_room(),
                forall|x: int| 0 <= x < out@.len() ==> (#[trigger] out@[x]).msg_type@ == "usage"@,
                before.usage_reports_all(usage_views(out@), t, reg, msgs.take(i as int)),
            decreases usage_msgs.len() - i,
        {
            assert(msgs.take(i + 1).drop_last() == msgs.take(i as int));
            assert(msgs.take(i + 1).last() == usage_msgs@[i as int]@);
            let ghost held = self@;
            let ghost first = usage_views(out@);
            let mut more = self.aggregate_usage_one(tracker, registry, &usage_msgs[i]);
            let ghost added = usage_views(more@);
            let ghost keys = choose|keys: Seq<SessionKeyView>|
                held.usage_reports(added, keys, t, reg, usage_msgs@[i as int]@);
            out.append(&mut more);
            proof {
                let all = usage_views(out@);
                assert(all =~= first + added);
                let n = first.len() as int;
                assert(all.take(n) =~= first);
                assert(all.skip(n) =~= added);
                assert(before.usage_noted_all(reg, msgs.take(i + 1).drop_last()).usage_reports(
                    all.skip(n),
                    keys,
                    t,
                    reg,
                    msgs.take(i + 1).last(),
                ));
            }
            i = i + 1;
        }
        assert(msgs.take(usage_msgs.len() as int) == msgs);
        out
    }
}

} // verus!
