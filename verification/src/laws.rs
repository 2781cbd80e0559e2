//! Laws that relate the stages of the pipeline to each other and to the
//! trace they work on.

use vstd::prelude::*;
use crate::aggregate::{
    aggregated, entities_of, grouped, is_epoch, lemma_entities_distinct,
    lemma_unlisted_entity_has_no_operations, operations_of, real_kinds, EntityTimeline, Trace,
};
use crate::emit::{
    end_event, is_violation, start_event, timeline_events, timeline_violations, trace_events,
    trace_violations, Violation,
};
use crate::record::Operation;
use crate::registry::{code_of, waiting_kind};

verus! {

/// The number of operations in all of `timelines`.
pub open spec fn total_operations(timelines: Seq<EntityTimeline>) -> nat
    decreases timelines.len(),
{
    if timelines.len() == 0 {
        0
    } else {
        total_operations(timelines.drop_last()) + timelines.last().operations@.len()
    }
}

/// The number of operations among `ops` that belong to one of `entities`,
/// counted entity by entity.
pub open spec fn operations_among(ops: Seq<Operation>, entities: Seq<Seq<char>>) -> nat
    decreases entities.len(),
{
    if entities.len() == 0 {
        0
    } else {
        operations_among(ops, entities.drop_last()) + operations_of(ops, entities.last()).len()
    }
}

/// Whether two sequences of timelines hold the same entities with the same
/// operations.
pub open spec fn same_timelines(a: Seq<EntityTimeline>, b: Seq<EntityTimeline>) -> bool {
    &&& a.len() == b.len()
    &&& forall|t: int|
        0 <= t < a.len() ==> (#[trigger] a[t]).entity@ == b[t].entity@ && a[t].operations@
            == b[t].operations@
}

/// A trace has one epoch only.
pub proof fn law_epoch_is_unique(ops: Seq<Operation>, a: int, b: int)
    requires
        is_epoch(ops, a),
        is_epoch(ops, b),
    ensures
        a == b,
{
}

/// The epoch is the start time of some operation, and no operation starts
/// before it: every start offset is non-negative.
pub proof fn law_epoch_is_minimal(ops: Seq<Operation>, trace: Trace, i: int)
    requires
        aggregated(ops, trace),
        0 <= i < ops.len(),
    ensures
        ops[i].start_time_ns - trace.epoch >= 0,
        exists|j: int| 0 <= j < ops.len() && (#[trigger] ops[j]).start_time_ns == trace.epoch,
{
}

/// The events of a sequence of timelines depend only on the entities and
/// operations that the timelines hold.
pub proof fn lemma_events_of_same_timelines(
    a: Seq<EntityTimeline>,
    b: Seq<EntityTimeline>,
    epoch: int,
    kinds: Seq<Seq<char>>,
)
    requires
        same_timelines(a, b),
    ensures
        trace_events(a, epoch, kinds) == trace_events(b, epoch, kinds),
    decreases a.len(),
{
    if a.len() > 0 {
        assert(a.last().entity@ == b.last().entity@ && a.last().operations@
            == b.last().operations@) by {
            assert(a[a.len() - 1].entity@ == b[a.len() - 1].entity@);
        }
        assert(same_timelines(a.drop_last(), b.drop_last())) by {
            assert forall|t: int| 0 <= t < a.drop_last().len() implies (
            #[trigger] a.drop_last()[t]).entity@ == b.drop_last()[t].entity@
                && a.drop_last()[t].operations@ == b.drop_last()[t].operations@ by {
                assert(a[t].entity@ == b[t].entity@);
            }
        }
        lemma_events_of_same_timelines(a.drop_last(), b.drop_last(), epoch, kinds);
    }
}

/// Aggregation is a function of the input sequence: two aggregates of the
/// same operations have the same epoch, the same code for every kind, the
/// same timelines, and therefore the same events.
pub proof fn law_aggregation_is_deterministic(ops: Seq<Operation>, a: Trace, b: Trace)
    requires
        aggregated(ops, a),
        aggregated(ops, b),
    ensures
        a.epoch == b.epoch,
        a.registry@ == b.registry@,
        same_timelines(a.timelines@, b.timelines@),
        trace_events(a.timelines@, a.epoch as int, a.registry@) == trace_events(
            b.timelines@,
            b.epoch as int,
            b.registry@,
        ),
{
    law_epoch_is_unique(ops, a.epoch as int, b.epoch as int);
    assert(same_timelines(a.timelines@, b.timelines@)) by {
        assert forall|t: int| 0 <= t < a.timelines@.len() implies (
        #[trigger] a.timelines@[t]).entity@ == b.timelines@[t].entity@
            && a.timelines@[t].operations@ == b.timelines@[t].operations@ by {
            assert(b.timelines@[t].entity@ == entities_of(ops)[t]);
        }
    }
    lemma_events_of_same_timelines(a.timelines@, b.timelines@, a.epoch as int, a.registry@);
}

/// Every timeline contributes two events per operation.
pub proof fn lemma_event_count(timelines: Seq<EntityTimeline>, epoch: int, kinds: Seq<Seq<char>>)
    ensures
        trace_events(timelines, epoch, kinds).len() == 2 * total_operations(timelines),
    decreases timelines.len(),
{
    if timelines.len() > 0 {
        lemma_event_count(timelines.drop_last(), epoch, kinds);
    }
}

/// One more operation raises the count among distinct entities by one if
/// its entity is among them, and not at all otherwise.
pub proof fn lemma_among_push(ops: Seq<Operation>, op: Operation, entities: Seq<Seq<char>>)
    requires
        entities.no_duplicates(),
    ensures
        operations_among(ops.push(op), entities) == operations_among(ops, entities) + (if entities.contains(
            op.entity@,
        ) {
            1nat
        } else {
            0nat
        }),
    decreases entities.len(),
{
    let next = ops.push(op);
    assert(next.drop_last() =~= ops);
    assert(next.last() == op);
    if entities.len() > 0 {
        let rest = entities.drop_last();
        let last = entities.last();
        assert(rest.no_duplicates()) by {
            assert forall|i: int, j: int| 0 <= i < rest.len() && 0 <= j < rest.len() && i != j implies rest[i]
                != rest[j] by {
                assert(rest[i] == entities[i] && rest[j] == entities[j]);
            }
        }
        lemma_among_push(ops, op, rest);
        if rest.contains(op.entity@) {
            let i = choose|i: int| 0 <= i < rest.len() && rest[i] == op.entity@;
            assert(entities[i] == op.entity@);
            assert(entities[entities.len() - 1] == last);
            assert(last != op.entity@);
            assert(entities.contains(op.entity@));
        } else if last == op.entity@ {
            assert(entities[entities.len() - 1] == op.entity@);
            assert(entities.contains(op.entity@));
        } else {
            assert forall|i: int| 0 <= i < entities.len() implies entities[i] != op.entity@ by {
                if i < rest.len() {
                    assert(rest[i] == entities[i]);
                }
            }
            assert(!entities.contains(op.entity@));
        }
    }
}

/// Every operation belongs to exactly one of the entities of its trace.
pub proof fn lemma_every_operation_listed(ops: Seq<Operation>)
    ensures
        operations_among(ops, entities_of(ops)) == ops.len(),
    decreases ops.len(),
{
    if ops.len() > 0 {
        let seen = ops.drop_last();
        let op = ops.last();
        let entities = entities_of(seen);
        assert(seen.push(op) =~= ops);
        lemma_every_operation_listed(seen);
        lemma_entities_distinct(seen);
        lemma_among_push(seen, op, entities);
        if !entities.contains(op.entity@) {
            let more = entities.push(op.entity@);
            assert(more.drop_last() =~= entities);
            assert(more.last() == op.entity@);
            lemma_unlisted_entity_has_no_operations(seen, op.entity@);
            assert(operations_of(ops, op.entity@) =~= Seq::<Operation>::empty().push(op));
        }
    }
}

/// The first `n` timelines of a grouping hold the operations of the first
/// `n` entities.
pub proof fn lemma_grouped_prefix_count(
    ops: Seq<Operation>,
    timelines: Seq<EntityTimeline>,
    n: int,
)
    requires
        grouped(ops, timelines),
        0 <= n <= timelines.len(),
    ensures
        total_operations(timelines.take(n)) == operations_among(ops, entities_of(ops).take(n)),
    decreases n,
{
    if n > 0 {
        lemma_grouped_prefix_count(ops, timelines, n - 1);
        assert(timelines.take(n).drop_last() =~= timelines.take(n - 1));
        assert(entities_of(ops).take(n).drop_last() =~= entities_of(ops).take(n - 1));
        assert(timelines.take(n).last() == timelines[n - 1]);
        assert(entities_of(ops).take(n).last() == entities_of(ops)[n - 1]);
    }
}

/// Grouping neither drops nor repeats an operation.
pub proof fn law_grouping_keeps_every_operation(ops: Seq<Operation>, timelines: Seq<EntityTimeline>)
    requires
        grouped(ops, timelines),
    ensures
        total_operations(timelines) == ops.len(),
{
    lemma_grouped_prefix_count(ops, timelines, timelines.len() as int);
    lemma_every_operation_listed(ops);
    assert(timelines.take(timelines.len() as int) =~= timelines);
    assert(entities_of(ops).take(timelines.len() as int) =~= entities_of(ops));
}

/// The events of an aggregated trace are twice as many as its operations,
/// whether or not any of them is out of order.
pub proof fn law_two_events_per_operation(ops: Seq<Operation>, trace: Trace)
    requires
        aggregated(ops, trace),
    ensures
        trace_events(trace.timelines@, trace.epoch as int, trace.registry@).len() == 2 * ops.len(),
{
    lemma_event_count(trace.timelines@, trace.epoch as int, trace.registry@);
    law_grouping_keeps_every_operation(ops, trace.timelines@);
}

/// Operation `k` of timeline `t` is emitted as two adjacent events, after
/// the events of all operations before it: first its start, then its end,
/// each as an offset from the epoch, and the end no earlier than the start.
pub proof fn law_event_offsets(
    timelines: Seq<EntityTimeline>,
    epoch: int,
    kinds: Seq<Seq<char>>,
    t: int,
    k: int,
)
    requires
        0 <= t < timelines.len(),
        0 <= k < timelines[t].operations@.len(),
        timelines[t].operations@[k].wf(),
    ensures
        ({
            let events = trace_events(timelines, epoch, kinds);
            let op = timelines[t].operations@[k];
            let at = 2 * (total_operations(timelines.take(t)) + k);
            &&& at + 1 < events.len()
            &&& events[at] == start_event(op, timelines[t].entity@, epoch, kinds)
            &&& events[at + 1] == end_event(op, timelines[t].entity@, epoch, kinds)
            &&& events[at].offset_ns == op.start_time_ns - epoch
            &&& events[at + 1].offset_ns == op.end_time_ns - epoch
            &&& events[at].offset_ns <= events[at + 1].offset_ns
        }),
    decreases timelines.len(),
{
    let rest = timelines.drop_last();
    let last = timelines.last();
    lemma_event_count(rest, epoch, kinds);
    lemma_event_count(timelines, epoch, kinds);
    if t == timelines.len() - 1 {
        assert(timelines.take(t) =~= rest);
    } else {
        assert(rest.take(t) =~= timelines.take(t));
        assert(rest[t] == timelines[t]);
        law_event_offsets(rest, epoch, kinds, t, k);
    }
}

/// Every event carries a code of the legend: that of a real kind, or the
/// waiting code.
pub proof fn law_event_codes_are_listed(
    timelines: Seq<EntityTimeline>,
    epoch: int,
    kinds: Seq<Seq<char>>,
    j: int,
)
    requires
        0 <= j < trace_events(timelines, epoch, kinds).len(),
    ensures
        0 <= trace_events(timelines, epoch, kinds)[j].state_code <= kinds.len(),
    decreases timelines.len(),
{
    if timelines.len() > 0 {
        let earlier = trace_events(timelines.drop_last(), epoch, kinds);
        let last = timelines.last();
        let latest = timeline_events(last.operations@, last.entity@, epoch, kinds);
        if j < earlier.len() {
            law_event_codes_are_listed(timelines.drop_last(), epoch, kinds, j);
        } else {
            let i = j - earlier.len();
            let kind = last.operations@[i / 2].kind@;
            assert(trace_events(timelines, epoch, kinds)[j] == latest[i]);
            if kinds.contains(kind) {
                assert(0 <= kinds.index_of(kind) < kinds.len());
            }
        }
    }
}

/// The registered kinds are exactly the kinds of the operations other than
/// the waiting kind, each once.
pub proof fn law_registry_holds_the_real_kinds(ops: Seq<Operation>)
    ensures
        real_kinds(ops).no_duplicates(),
        forall|name: Seq<char>|
            #![trigger real_kinds(ops).contains(name)]
            real_kinds(ops).contains(name) <==> name != waiting_kind() && exists|i: int|
                0 <= i < ops.len() && (#[trigger] ops[i]).kind@ == name,
    decreases ops.len(),
{
    if ops.len() > 0 {
        let seen = ops.drop_last();
        let kind = ops.last().kind@;
        let before = real_kinds(seen);
        let after = real_kinds(ops);
        law_registry_holds_the_real_kinds(seen);
        assert forall|name: Seq<char>| #![trigger after.contains(name)] after.contains(name) <==> name
            != waiting_kind() && exists|i: int|
            0 <= i < ops.len() && (#[trigger] ops[i]).kind@ == name by {
            if after.contains(name) {
                let j = choose|j: int| 0 <= j < after.len() && after[j] == name;
                if j < before.len() {
                    assert(before[j] == name);
                    assert(before.contains(name));
                    let i = choose|i: int| 0 <= i < seen.len() && (#[trigger] seen[i]).kind@ == name;
                    assert(ops[i].kind@ == name);
                } else {
                    assert(name == kind);
                    assert(ops[ops.len() - 1].kind@ == name);
                }
            }
            if name != waiting_kind() && exists|i: int|
                0 <= i < ops.len() && (#[trigger] ops[i]).kind@ == name {
                let i = choose|i: int| 0 <= i < ops.len() && (#[trigger] ops[i]).kind@ == name;
                if i < seen.len() {
                    assert(seen[i].kind@ == name);
                    assert(before.contains(name));
                    let j = choose|j: int| 0 <= j < before.len() && before[j] == name;
                    assert(after[j] == name);
                } else {
                    if !before.contains(name) {
                        assert(after[before.len() as int] == name);
                    } else {
                        let j = choose|j: int| 0 <= j < before.len() && before[j] == name;
                        assert(after[j] == name);
                    }
                }
            }
        }
    }
}

/// The waiting code is the number of distinct real kinds, and no real kind
/// of the trace has that code: each has a smaller one.
pub proof fn law_waiting_code_is_reserved(ops: Seq<Operation>, i: int)
    requires
        0 <= i < ops.len(),
        ops[i].kind@ != waiting_kind(),
    ensures
        code_of(real_kinds(ops), waiting_kind()) == real_kinds(ops).len(),
        real_kinds(ops).to_set().len() == real_kinds(ops).len(),
        0 <= code_of(real_kinds(ops), ops[i].kind@) < real_kinds(ops).len(),
{
    law_registry_holds_the_real_kinds(ops);
    assert(real_kinds(ops).contains(ops[i].kind@));
    real_kinds(ops).unique_seq_to_set();
}

/// Codes are assigned in first-seen order and never change: a kind that is
/// registered after the first `n` operations keeps its code when the rest
/// of the trace is seen.
pub proof fn law_codes_are_stable(ops: Seq<Operation>, n: int, kind: Seq<char>)
    requires
        0 <= n <= ops.len(),
        real_kinds(ops.take(n)).contains(kind),
    ensures
        real_kinds(ops).contains(kind),
        code_of(real_kinds(ops), kind) == code_of(real_kinds(ops.take(n)), kind),
    decreases ops.len() - n,
{
    law_registry_holds_the_real_kinds(ops.take(n));
    if n == ops.len() {
        assert(ops.take(n) =~= ops);
    } else {
        let early = real_kinds(ops.take(n));
        let later = real_kinds(ops.take(n + 1));
        assert(ops.take(n + 1).drop_last() =~= ops.take(n));
        law_registry_holds_the_real_kinds(ops.take(n + 1));
        let j = early.index_of(kind);
        assert(later[j] == kind);
        assert(later.contains(kind));
        assert(later.index_of(kind) == j);
        assert(ops.take(n + 1).take(n + 1) =~= ops.take(n + 1));
        law_codes_are_stable(ops, n + 1, kind);
    }
}

/// One more operation on a timeline adds one violation if it starts before
/// the operation before it ended, and none otherwise.
pub proof fn law_violation_per_overlapping_pair(timeline: Seq<Operation>, op: Operation, t: usize)
    ensures
        timeline_violations(timeline.push(op), t).len() == timeline_violations(timeline, t).len() + (
        if timeline.len() > 0 && op.start_time_ns < timeline.last().end_time_ns {
            1nat
        } else {
            0nat
        }),
{
    assert(timeline.push(op).drop_last() =~= timeline);
}

/// The violations of a timeline are its overlapping adjacent pairs, each
/// listed once, in order of position.
pub proof fn law_violations_are_the_overlaps(timeline: Seq<Operation>, t: usize)
    requires
        timeline.len() <= usize::MAX,
    ensures
        forall|j: int|
            0 <= j < timeline_violations(timeline, t).len() ==> {
                let v = #[trigger] timeline_violations(timeline, t)[j];
                v.timeline == t && is_violation(timeline, v.position as int)
            },
        forall|i: int, j: int|
            0 <= i < j < timeline_violations(timeline, t).len() ==> timeline_violations(timeline, t)[i].position
                < timeline_violations(timeline, t)[j].position,
        forall|k: int|
            is_violation(timeline, k) ==> timeline_violations(timeline, t).contains(
                Violation { timeline: t, position: k as usize },
            ),
    decreases timeline.len(),
{
    if timeline.len() > 0 {
        let rest = timeline.drop_last();
        let found = timeline_violations(timeline, t);
        let earlier = timeline_violations(rest, t);
        law_violations_are_the_overlaps(rest, t);
        assert forall|j: int| 0 <= j < earlier.len() implies is_violation(
            timeline,
            (#[trigger] earlier[j]).position as int,
        ) && earlier[j].position < timeline.len() - 1 by {
            assert(is_violation(rest, earlier[j].position as int));
        }
        assert forall|k: int| is_violation(timeline, k) implies found.contains(
            Violation { timeline: t, position: k as usize },
        ) by {
            if k < timeline.len() - 1 {
                assert(is_violation(rest, k));
                let j = choose|j: int|
                    0 <= j < earlier.len() && earlier[j] == (Violation {
                        timeline: t,
                        position: k as usize,
                    });
                assert(found[j] == earlier[j]);
            } else {
                assert(found[found.len() - 1] == (Violation { timeline: t, position: k as usize }));
            }
        }
    }
}

/// A timeline on which no operation starts before its predecessor ended has
/// no violations.
pub proof fn law_ordered_timeline_has_no_violations(timeline: Seq<Operation>, t: usize)
    requires
        forall|k: int|
            0 < k < timeline.len() ==> (#[trigger] timeline[k]).start_time_ns >= timeline[k
                - 1].end_time_ns,
    ensures
        timeline_violations(timeline, t) == Seq::<Violation>::empty(),
    decreases timeline.len(),
{
    if timeline.len() > 0 {
        let rest = timeline.drop_last();
        assert forall|k: int| 0 < k < rest.len() implies (#[trigger] rest[k]).start_time_ns >= rest[k
            - 1].end_time_ns by {
            assert(timeline[k].start_time_ns >= timeline[k - 1].end_time_ns);
        }
        law_ordered_timeline_has_no_violations(rest, t);
        if timeline.len() > 1 {
            assert(timeline[timeline.len() - 1].start_time_ns >= timeline[timeline.len() - 2].end_time_ns);
        }
    }
}

/// Whether every timeline fits in memory: the number of timelines and the
/// length of each are machine sizes.
pub open spec fn sizes_fit(timelines: Seq<EntityTimeline>) -> bool {
    &&& timelines.len() <= usize::MAX
    &&& forall|t: int|
        0 <= t < timelines.len() ==> (#[trigger] timelines[t]).operations@.len() <= usize::MAX
}

/// The violations of a trace are the overlapping adjacent pairs of its
/// timelines: every violation names such a pair, and every such pair is
/// among the violations.
pub proof fn law_trace_violations_are_the_overlaps(timelines: Seq<EntityTimeline>)
    requires
        sizes_fit(timelines),
    ensures
        forall|j: int|
            0 <= j < trace_violations(timelines).len() ==> {
                let v = #[trigger] trace_violations(timelines)[j];
                v.timeline < timelines.len() && is_violation(
                    timelines[v.timeline as int].operations@,
                    v.position as int,
                )
            },
        forall|t: int, k: int|
            0 <= t < timelines.len() && #[trigger] is_violation(timelines[t].operations@, k)
                ==> trace_violations(timelines).contains(
                Violation { timeline: t as usize, position: k as usize },
            ),
    decreases timelines.len(),
{
    if timelines.len() > 0 {
        let rest = timelines.drop_last();
        let last = (timelines.len() - 1) as usize;
        let earlier = trace_violations(rest);
        let latest = timeline_violations(timelines.last().operations@, last);
        let found = trace_violations(timelines);
        assert(sizes_fit(rest)) by {
            assert forall|t: int| 0 <= t < rest.len() implies (#[trigger] rest[t]).operations@.len()
                <= usize::MAX by {
                assert(rest[t] == timelines[t]);
            }
        }
        law_trace_violations_are_the_overlaps(rest);
        assert(timelines[last as int].operations@.len() <= usize::MAX);
        law_violations_are_the_overlaps(timelines.last().operations@, last);
        assert forall|j: int| 0 <= j < found.len() implies {
            let v = #[trigger] found[j];
            v.timeline < timelines.len() && is_violation(
                timelines[v.timeline as int].operations@,
                v.position as int,
            )
        } by {
            if j < earlier.len() {
                assert(found[j] == earlier[j]);
                assert(rest[earlier[j].timeline as int] == timelines[earlier[j].timeline as int]);
            } else {
                assert(found[j] == latest[j - earlier.len()]);
            }
        }
        assert forall|t: int, k: int|
            0 <= t < timelines.len() && #[trigger] is_violation(
                timelines[t].operations@,
                k,
            ) implies found.contains(Violation { timeline: t as usize, position: k as usize }) by {
            let wanted = Violation { timeline: t as usize, position: k as usize };
            if t < rest.len() {
                assert(rest[t] == timelines[t]);
                assert(is_violation(rest[t].operations@, k));
                let j = choose|j: int| 0 <= j < earlier.len() && earlier[j] == wanted;
                assert(found[j] == wanted);
            } else {
                let j = choose|j: int| 0 <= j < latest.len() && latest[j] == wanted;
                assert(found[earlier.len() + j] == wanted);
            }
        }
    }
}

/// A trace in which no operation starts before its predecessor on the same
/// entity ended has no violations.
pub proof fn law_ordered_trace_has_no_violations(timelines: Seq<EntityTimeline>)
    requires
        forall|t: int, k: int|
            0 <= t < timelines.len() && 0 < k < timelines[t].operations@.len() ==> (
            #[trigger] timelines[t].operations@[k]).start_time_ns >= timelines[t].operations@[k
                - 1].end_time_ns,
    ensures
        trace_violations(timelines) == Seq::<Violation>::empty(),
    decreases timelines.len(),
{
    if timelines.len() > 0 {
        let rest = timelines.drop_last();
        let t = timelines.len() - 1;
        assert forall|u: int, k: int|
            0 <= u < rest.len() && 0 < k < rest[u].operations@.len() implies (
        #[trigger] rest[u].operations@[k]).start_time_ns >= rest[u].operations@[k - 1].end_time_ns by {
            assert(timelines[u].operations@[k].start_time_ns >= timelines[u].operations@[k
                - 1].end_time_ns);
        }
        law_ordered_trace_has_no_violations(rest);
        assert forall|k: int| 0 < k < timelines.last().operations@.len() implies (
        #[trigger] timelines.last().operations@[k]).start_time_ns >= timelines.last().operations@[k
            - 1].end_time_ns by {
            assert(timelines[t].operations@[k].start_time_ns >= timelines[t].operations@[k
                - 1].end_time_ns);
        }
        law_ordered_timeline_has_no_violations(timelines.last().operations@, t as usize);
    }
}

} // verus!
