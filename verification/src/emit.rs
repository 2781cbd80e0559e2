//! The timeline emitter: two state events per operation, as offsets from the
//! trace epoch, and the ordering violations found on the way.

use vstd::prelude::*;
use crate::aggregate::{EntityTimeline, Trace};
use crate::record::{Operation, NANOS_PER_SEC};
use crate::registry::code_of;

verus! {

/// An entity enters a state at an offset from the trace epoch.
#[derive(Debug, PartialEq, Eq)]
pub struct StateEvent {
    pub offset_ns: u64,
    pub entity: String,
    pub state_code: usize,
}

/// A state event as plain values.
pub struct StateEventView {
    pub offset_ns: int,
    pub entity: Seq<char>,
    pub state_code: int,
}

impl View for StateEvent {
    type V = StateEventView;

    open spec fn view(&self) -> StateEventView {
        StateEventView {
            offset_ns: self.offset_ns as int,
            entity: self.entity@,
            state_code: self.state_code as int,
        }
    }
}

/// An operation that starts before the operation that arrived just before
/// it on the same entity has ended: operation `position` of timeline
/// `timeline`, with `position > 0`.
#[derive(Clone, Copy, Debug, PartialEq, Eq, Structural)]
pub struct Violation {
    pub timeline: usize,
    pub position: usize,
}

/// The events of a trace and the ordering violations found in it.
#[derive(Debug)]
pub struct Emission {
    pub events: Vec<StateEvent>,
    pub violations: Vec<Violation>,
}

/// Whether `next` starts before `previous` has ended.
pub open spec fn overlaps(previous: Operation, next: Operation) -> bool {
    next.start_time_ns < previous.end_time_ns
}

/// Whether operation `k` of a timeline overlaps the one that arrived just
/// before it.
pub open spec fn is_violation(timeline: Seq<Operation>, k: int) -> bool {
    0 < k < timeline.len() && overlaps(timeline[k - 1], timeline[k])
}

/// The event with which `op` begins.
pub open spec fn start_event(
    op: Operation,
    entity: Seq<char>,
    epoch: int,
    kinds: Seq<Seq<char>>,
) -> StateEventView {
    StateEventView {
        offset_ns: op.start_time_ns - epoch,
        entity,
        state_code: code_of(kinds, op.kind@),
    }
}

/// The event with which `op` ends: the entity goes back to waiting.
pub open spec fn end_event(
    op: Operation,
    entity: Seq<char>,
    epoch: int,
    kinds: Seq<Seq<char>>,
) -> StateEventView {
    StateEventView { offset_ns: op.end_time_ns - epoch, entity, state_code: kinds.len() as int }
}

/// The events of one timeline: for each operation in arrival order its
/// start event, then its end event.
pub open spec fn timeline_events(
    timeline: Seq<Operation>,
    entity: Seq<char>,
    epoch: int,
    kinds: Seq<Seq<char>>,
) -> Seq<StateEventView> {
    Seq::new(
        2 * timeline.len(),
        |j: int|
            if j % 2 == 0 {
                start_event(timeline[j / 2], entity, epoch, kinds)
            } else {
                end_event(timeline[j / 2], entity, epoch, kinds)
            },
    )
}

/// The events of all timelines, timeline after timeline.
pub open spec fn trace_events(
    timelines: Seq<EntityTimeline>,
    epoch: int,
    kinds: Seq<Seq<char>>,
) -> Seq<StateEventView>
    decreases timelines.len(),
{
    if timelines.len() == 0 {
        Seq::empty()
    } else {
        trace_events(timelines.drop_last(), epoch, kinds) + timeline_events(
            timelines.last().operations@,
            timelines.last().entity@,
            epoch,
            kinds,
        )
    }
}

/// The violations of timeline number `t`, by position.
pub open spec fn timeline_violations(timeline: Seq<Operation>, t: usize) -> Seq<Violation>
    decreases timeline.len(),
{
    if timeline.len() == 0 {
        Seq::empty()
    } else if is_violation(timeline, timeline.len() - 1) {
        timeline_violations(timeline.drop_last(), t).push(
            Violation { timeline: t, position: (timeline.len() - 1) as usize },
        )
    } else {
        timeline_violations(timeline.drop_last(), t)
    }
}

/// The violations of all timelines, timeline after timeline.
pub open spec fn trace_violations(timelines: Seq<EntityTimeline>) -> Seq<Violation>
    decreases timelines.len(),
{
    if timelines.len() == 0 {
        Seq::empty()
    } else {
        trace_violations(timelines.drop_last()) + timeline_violations(
            timelines.last().operations@,
            (timelines.len() - 1) as usize,
        )
    }
}

/// The events of `events` as plain values.
pub open spec fn event_views(events: Seq<StateEvent>) -> Seq<StateEventView> {
    Seq::new(events.len(), |i: int| events[i]@)
}

/// Whether `next` starts before `previous` has ended.
pub fn out_of_order(previous: &Operation, next: &Operation) -> (yes: bool)
    ensures
        yes == overlaps(*previous, *next),
{
    next.start_time_ns < previous.end_time_ns
}

/// Splits the epoch into whole seconds and the nanoseconds past them.
pub fn epoch_parts(epoch: u64) -> (parts: (u64, u64))
    ensures
        parts.0 == epoch / 1_000_000_000,
        parts.1 == epoch % 1_000_000_000,
        parts.0 * 1_000_000_000 + parts.1 == epoch,
        parts.1 < 1_000_000_000,
{
    (epoch / NANOS_PER_SEC, epoch % NANOS_PER_SEC)
}

impl Emission {
    /// The number of events.
    pub fn event_count(&self) -> (n: usize)
        ensures
            n == self.events@.len(),
    {
        self.events.len()
    }

    /// The number of ordering violations.
    pub fn violation_count(&self) -> (n: usize)
        ensures
            n == self.violations@.len(),
    {
        self.violations.len()
    }
}

/// Walks every timeline in arrival order and emits, for each operation, the
/// event that enters its state and the event that goes back to waiting. An
/// operation that starts before its predecessor on the same entity ended is
/// recorded as a violation and emitted all the same.
pub fn emit(trace: &Trace) -> (out: Emission)
    requires
        trace.wf(),
    ensures
        event_views(out.events@) == trace_events(
            trace.timelines@,
            trace.epoch as int,
            trace.registry@,
        ),
        out.violations@ == trace_violations(trace.timelines@),
{
    let mut events: Vec<StateEvent> = Vec::new();
    let mut violations: Vec<Violation> = Vec::new();
    let waiting: usize = trace.registry.waiting_code();
    let ghost epoch = trace.epoch as int;
    let ghost kinds = trace.registry@;
    let mut t: usize = 0;
    proof {
        assert(event_views(events@) =~= trace_events(trace.timelines@.take(0), epoch, kinds));
    }
    while t < trace.timelines.len()
        invariant
            trace.wf(),
            t <= trace.timelines@.len(),
            epoch == trace.epoch,
            kinds == trace.registry@,
            waiting == kinds.len(),
            event_views(events@) == trace_events(trace.timelines@.take(t as int), epoch, kinds),
            violations@ == trace_violations(trace.timelines@.take(t as int)),
        decreases trace.timelines@.len() - t,
    {
        let timeline: &EntityTimeline = &trace.timelines[t];
        let ghost done_events = event_views(events@);
        let ghost done_violations = violations@;
        let ghost ops = timeline.operations@;
        let ghost entity = timeline.entity@;
        let mut k: usize = 0;
        proof {
            assert(done_events + timeline_events(ops.take(0), entity, epoch, kinds)
                =~= done_events);
        }
        while k < timeline.operations.len()
            invariant
                trace.wf(),
                t < trace.timelines@.len(),
                *timeline == trace.timelines@[t as int],
                ops == timeline.operations@,
                entity == timeline.entity@,
                epoch == trace.epoch,
                kinds == trace.registry@,
                waiting == kinds.len(),
                k <= ops.len(),
                event_views(events@) == done_events + timeline_events(
                    ops.take(k as int),
                    entity,
                    epoch,
                    kinds,
                ),
                violations@ == done_violations + timeline_violations(ops.take(k as int), t),
            decreases ops.len() - k,
        {
            let op: &Operation = &timeline.operations[k];
            let ghost before_events = events@;
            proof {
                assert(trace.timelines@[t as int].operations@[k as int].wf());
                assert(ops.take(k + 1).drop_last() =~= ops.take(k as int));
                assert(is_violation(ops.take(k + 1), k as int) == is_violation(ops, k as int));
            }
            if k > 0 && out_of_order(&timeline.operations[k - 1], op) {
                violations.push(Violation { timeline: t, position: k });
            }
            let code: usize = trace.registry.code(&op.kind);
            events.push(
                StateEvent {
                    offset_ns: op.start_time_ns - trace.epoch,
                    entity: timeline.entity.clone(),
                    state_code: code,
                },
            );
            events.push(
                StateEvent {
                    offset_ns: op.end_time_ns - trace.epoch,
                    entity: timeline.entity.clone(),
                    state_code: waiting,
                },
            );
            proof {
                let first = start_event(ops[k as int], entity, epoch, kinds);
                let second = end_event(ops[k as int], entity, epoch, kinds);
                let shorter = timeline_events(ops.take(k as int), entity, epoch, kinds);
                let longer = timeline_events(ops.take(k + 1), entity, epoch, kinds);
                let at = before_events.len() as int;
                assert(longer =~= shorter.push(first).push(second));
                assert(events@[at]@ == first);
                assert(events@[at + 1]@ == second);
                assert(event_views(events@) =~= event_views(before_events).push(first).push(
                    second,
                ));
                assert(event_views(events@) =~= done_events + longer);
                assert(violations@ =~= done_violations + timeline_violations(ops.take(k + 1), t));
            }
            k += 1;
        }
        proof {
            assert(ops.take(ops.len() as int) =~= ops);
            assert(trace.timelines@.take(t + 1).drop_last() =~= trace.timelines@.take(t as int));
            assert(trace.timelines@.take(t + 1).last() == trace.timelines@[t as int]);
        }
        t += 1;
    }
    proof {
        assert(trace.timelines@.take(trace.timelines@.len() as int) =~= trace.timelines@);
    }
    Emission { events, violations }
}

} // verus!
