//! The tick driver: what one tick publishes, and how fast the next tick
//! comes.

use vstd::prelude::*;
use crate::orchestrator::{delta_views, AggregatorView, OrchestratorAggregator};
use crate::session_registry::SessionRegistry;
use crate::table::{lists_nodes, lists_paths};
use crate::tracker::{ContextTracker, TrackerView};
use crate::types::{usage_views, Delta, SessionKeyView, UsageMessage};

verus! {

/// The time between two ticks while there is activity, in milliseconds.
pub const ACTIVE_INTERVAL_MS: u64 = 100;

/// The time between two ticks once the driver is idle, in milliseconds.
pub const IDLE_INTERVAL_MS: u64 = 500;

/// The number of ticks without activity after which the driver is idle.
pub const IDLE_THRESHOLD: u32 = 20;

/// What one tick publishes, in this order.
#[derive(Debug)]
pub struct TickOutput {
    /// The usage reports that waited in the tracker.
    pub usage: Vec<UsageMessage>,
    /// The usage reports of the orchestrator sessions that those lead to.
    pub merged_usage: Vec<UsageMessage>,
    /// The delta of the tracker's current session, if anything changed.
    pub delta: Option<Delta>,
    /// The deltas of the orchestrator sessions whose merged table changed.
    pub merged_deltas: Vec<Delta>,
}

impl TickOutput {
    /// Whether the tick published anything.
    pub open spec fn active(&self) -> bool {
        self.usage@.len() > 0 || self.merged_usage@.len() > 0 || self.delta is Some
            || self.merged_deltas@.len() > 0
    }

    /// Whether the tick published anything.
    pub fn had_activity(&self) -> (r: bool)
        ensures
            r == self.active(),
    {
        self.usage.len() > 0 || self.merged_usage.len() > 0 || self.delta.is_some()
            || self.merged_deltas.len() > 0
    }
}

/// One tick: drains the usage reports of the tracker and lets the
/// aggregator take them, ticks the tracker, and ticks the aggregator on the
/// state that the tracker has then.
pub fn tick_once(
    tracker: &mut ContextTracker,
    orchestrator: &mut OrchestratorAggregator,
    registry: &SessionRegistry,
) -> (r: TickOutput)
    requires
        old(tracker).wf(),
        old(tracker)@.current.seq < u64::MAX,
        old(orchestrator).wf(),
        old(orchestrator)@.has_room(),
        registry.wf(),
    ensures
        final(tracker).wf(),
        final(orchestrator).wf(),
        usage_views(r.usage@) == old(tracker)@.pending_usage,
        forall|i: int| 0 <= i < r.usage@.len() ==> (#[trigger] r.usage@[i]).msg_type@ == "usage"@,
        forall|i: int|
            0 <= i < r.merged_usage@.len() ==> (#[trigger] r.merged_usage@[i]).msg_type@
                == "usage"@,
        forall|i: int|
            0 <= i < r.merged_deltas@.len() ==> (#[trigger] r.merged_deltas@[i]).msg_type@
                == "delta"@,
        final(tracker)@ == (TrackerView { pending_usage: Seq::empty(), ..old(tracker)@ }).ticked(),
        old(orchestrator)@.usage_reports_all(
            usage_views(r.merged_usage@),
            old(tracker)@,
            registry@,
            old(tracker)@.pending_usage,
        ),
        final(orchestrator)@ == old(orchestrator)@.usage_noted_all(
            registry@,
            old(tracker)@.pending_usage,
        ).ticked(final(tracker)@, registry@),
        match r.delta {
            None => old(tracker)@.cooled().dirty().is_empty(),
            Some(d) => {
                &&& !old(tracker)@.cooled().dirty().is_empty()
                &&& d@.msg_type == "delta"@
                &&& d@.agent_id == old(tracker)@.agent_id
                &&& d@.session_id == old(tracker)@.session_id
                &&& d@.session_mode == old(tracker)@.current.mode
                &&& d@.seq == old(tracker)@.current.seq + 1
                &&& lists_nodes(d@.updates, old(tracker)@.cooled().updates())
                &&& lists_paths(d@.removed, old(tracker)@.cooled().removals())
            },
        },
        exists|keys: Seq<SessionKeyView>| #[trigger]
            old(orchestrator)@.usage_noted_all(registry@, old(tracker)@.pending_usage).tick_deltas(
                delta_views(r.merged_deltas@),
                keys,
                final(tracker)@,
                registry@,
            ),
{
    let ghost t0 = tracker@;
    let usage = tracker.take_pending_usage();
    let ghost t1 = tracker@;
    let merged_usage = orchestrator.aggregate_usage(tracker, registry, &usage);
    proof {
        // The reports are summed under the agent of the tracker, which the
        // draining of the queue does not change.
        lemma_usage_reports_agent(old(orchestrator)@, usage_views(merged_usage@), t1, t0, registry@, usage_views(usage@));
    }
    let delta = tracker.tick();
    let ghost noted = orchestrator@;
    let merged_deltas = orchestrator.tick(tracker, registry);
    let r = TickOutput { usage, merged_usage, delta, merged_deltas };
    proof {
        let keys = choose|keys: Seq<SessionKeyView>|
            noted.tick_deltas(delta_views(merged_deltas@), keys, tracker@, registry@);
        assert(old(orchestrator)@.usage_noted_all(registry@, old(tracker)@.pending_usage).tick_deltas(
            delta_views(r.merged_deltas@),
            keys,
            tracker@,
            registry@,
        ));
    }
    r
}

/// The usage reports of the orchestrator sessions depend on the tracker by
/// its agent only.
pub proof fn lemma_usage_reports_agent(
    agg: AggregatorView,
    out: Seq<crate::types::UsageView>,
    t: TrackerView,
    u: TrackerView,
    reg: crate::session_registry::RegistryView,
    msgs: Seq<crate::types::UsageView>,
)
    requires
        t.agent_id == u.agent_id,
        agg.usage_reports_all(out, t, reg, msgs),
    ensures
        agg.usage_reports_all(out, u, reg, msgs),
    decreases msgs.len(),
{
    if msgs.len() > 0 {
        let (n, keys) = choose|n: int, keys: Seq<SessionKeyView>|
            0 <= n <= out.len() && agg.usage_reports_all(out.take(n), t, reg, msgs.drop_last())
                && #[trigger] agg.usage_noted_all(reg, msgs.drop_last()).usage_reports(
                out.skip(n),
                keys,
                t,
                reg,
                msgs.last(),
            );
        lemma_usage_reports_agent(agg, out.take(n), t, u, reg, msgs.drop_last());
        assert(agg.usage_noted_all(reg, msgs.drop_last()).usage_reports(
            out.skip(n),
            keys,
            u,
            reg,
            msgs.last(),
        ));
    }
}

/// How many ticks in a row have published nothing, cut off at the limit of
/// the counter.
pub open spec fn idle_after(idle_ticks: u32, had_activity: bool) -> u32 {
    if had_activity {
        0
    } else if idle_ticks == u32::MAX {
        u32::MAX
    } else {
        (idle_ticks + 1) as u32
    }
}

/// The interval that the driver changes to after a tick, if it changes:
/// the fast one when activity comes back to an idle driver, and the slow one
/// at the tick that makes the driver idle.
pub open spec fn interval_after(idle_ticks: u32, had_activity: bool) -> Option<u64> {
    if had_activity {
        if idle_ticks >= IDLE_THRESHOLD {
            Some(ACTIVE_INTERVAL_MS)
        } else {
            None
        }
    } else if idle_after(idle_ticks, had_activity) == IDLE_THRESHOLD {
        Some(IDLE_INTERVAL_MS)
    } else {
        None
    }
}

/// The pace of the driver after a tick: the new count of idle ticks, and
/// the interval to change to, if it changes.
pub fn next_pace(idle_ticks: u32, had_activity: bool) -> (r: (u32, Option<u64>))
    ensures
        r.0 == idle_after(idle_ticks, had_activity),
        r.1 == interval_after(idle_ticks, had_activity),
{
    if had_activity {
        if idle_ticks >= IDLE_THRESHOLD {
            (0, Some(ACTIVE_INTERVAL_MS))
        } else {
            (0, None)
        }
    } else {
        let idle = if idle_ticks == u32::MAX {
            u32::MAX
        } else {
            idle_ticks + 1
        };
        if idle == IDLE_THRESHOLD {
            (idle, Some(IDLE_INTERVAL_MS))
        } else {
            (idle, None)
        }
    }
}

} // verus!
