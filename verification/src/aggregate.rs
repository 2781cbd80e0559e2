//! The trace aggregator: one scan over all operations that finds the trace
//! epoch, registers the operation kinds and groups the operations by entity.

use vstd::prelude::*;
use crate::record::Operation;
use crate::registry::{observe_kind, StateRegistry};

verus! {

/// The operations of one entity, in the order in which they arrived.
#[derive(Debug)]
pub struct EntityTimeline {
    pub entity: String,
    pub operations: Vec<Operation>,
}

/// What the scan of a whole trace yields.
#[derive(Debug)]
pub struct Trace {
    /// The earliest start time of any operation, in absolute nanoseconds.
    pub epoch: u64,
    /// The real kinds of the trace, by code.
    pub registry: StateRegistry,
    /// One timeline per entity, in the order in which the entities first
    /// appear.
    pub timelines: Vec<EntityTimeline>,
}

/// Why a trace cannot be aggregated.
#[derive(Clone, Copy, Debug, PartialEq, Eq, Structural)]
pub enum TraceError {
    /// The trace holds no operation, so it has no epoch.
    EmptyTrace,
}

/// Whether `epoch` is the least start time among `ops`.
pub open spec fn is_epoch(ops: Seq<Operation>, epoch: int) -> bool {
    &&& exists|i: int| 0 <= i < ops.len() && (#[trigger] ops[i]).start_time_ns == epoch
    &&& forall|i: int| 0 <= i < ops.len() ==> epoch <= (#[trigger] ops[i]).start_time_ns
}

/// The real kinds of `ops` in first-seen order.
pub open spec fn real_kinds(ops: Seq<Operation>) -> Seq<Seq<char>>
    decreases ops.len(),
{
    if ops.len() == 0 {
        Seq::empty()
    } else {
        observe_kind(real_kinds(ops.drop_last()), ops.last().kind@)
    }
}

/// The known entities after an operation of `entity` has been seen.
pub open spec fn observe_entity(entities: Seq<Seq<char>>, entity: Seq<char>) -> Seq<Seq<char>> {
    if entities.contains(entity) {
        entities
    } else {
        entities.push(entity)
    }
}

/// The entities of `ops` in first-seen order.
pub open spec fn entities_of(ops: Seq<Operation>) -> Seq<Seq<char>>
    decreases ops.len(),
{
    if ops.len() == 0 {
        Seq::empty()
    } else {
        observe_entity(entities_of(ops.drop_last()), ops.last().entity@)
    }
}

/// The operations of `entity` among `ops`, in their order in `ops`.
pub open spec fn operations_of(ops: Seq<Operation>, entity: Seq<char>) -> Seq<Operation>
    decreases ops.len(),
{
    if ops.len() == 0 {
        Seq::empty()
    } else if ops.last().entity@ == entity {
        operations_of(ops.drop_last(), entity).push(ops.last())
    } else {
        operations_of(ops.drop_last(), entity)
    }
}

/// Whether `timelines` groups `ops` by entity: one timeline per entity, in
/// first-seen order, each holding that entity's operations in input order.
pub open spec fn grouped(ops: Seq<Operation>, timelines: Seq<EntityTimeline>) -> bool {
    &&& timelines.len() == entities_of(ops).len()
    &&& forall|t: int|
        0 <= t < timelines.len() ==> {
            &&& (#[trigger] timelines[t]).entity@ == entities_of(ops)[t]
            &&& timelines[t].operations@ == operations_of(ops, entities_of(ops)[t])
        }
}

/// Whether `trace` is the aggregate of `ops`.
pub open spec fn aggregated(ops: Seq<Operation>, trace: Trace) -> bool {
    &&& is_epoch(ops, trace.epoch as int)
    &&& trace.registry.wf()
    &&& trace.registry@ == real_kinds(ops)
    &&& grouped(ops, trace.timelines@)
}

impl Trace {
    /// The registry is well formed, and every operation is well formed and
    /// starts no earlier than the epoch.
    pub open spec fn wf(&self) -> bool {
        &&& self.registry.wf()
        &&& forall|t: int, k: int|
            0 <= t < self.timelines@.len() && 0 <= k < self.timelines@[t].operations@.len() ==> (
            #[trigger] self.timelines@[t].operations@[k]).wf() && self.epoch
                <= self.timelines@[t].operations@[k].start_time_ns
    }
}

/// No entity is listed twice.
pub proof fn lemma_entities_distinct(ops: Seq<Operation>)
    ensures
        entities_of(ops).no_duplicates(),
    decreases ops.len(),
{
    if ops.len() > 0 {
        lemma_entities_distinct(ops.drop_last());
    }
}

/// An entity that is not listed has no operations.
pub proof fn lemma_unlisted_entity_has_no_operations(ops: Seq<Operation>, entity: Seq<char>)
    requires
        !entities_of(ops).contains(entity),
    ensures
        operations_of(ops, entity) == Seq::<Operation>::empty(),
    decreases ops.len(),
{
    if ops.len() > 0 {
        let before = entities_of(ops.drop_last());
        let last = ops.last().entity@;
        if before.contains(last) {
            assert(last != entity);
        } else {
            assert(before.push(last)[before.len() as int] == last);
            assert(last != entity);
            assert forall|i: int| 0 <= i < before.len() implies before[i] != entity by {
                assert(before.push(last)[i] == before[i]);
            }
        }
        lemma_unlisted_entity_has_no_operations(ops.drop_last(), entity);
    }
}

/// Every operation of an entity's timeline is one of the input.
pub proof fn lemma_operations_are_members(ops: Seq<Operation>, entity: Seq<char>)
    ensures
        forall|k: int|
            0 <= k < operations_of(ops, entity).len() ==> ops.contains(
                #[trigger] operations_of(ops, entity)[k],
            ),
    decreases ops.len(),
{
    if ops.len() > 0 {
        lemma_operations_are_members(ops.drop_last(), entity);
        let rest = operations_of(ops.drop_last(), entity);
        assert forall|k: int| 0 <= k < operations_of(ops, entity).len() implies ops.contains(
            #[trigger] operations_of(ops, entity)[k],
        ) by {
            if k < rest.len() {
                let i = choose|i: int| 0 <= i < ops.drop_last().len() && ops.drop_last()[i] == rest[k];
                assert(ops[i] == rest[k]);
            } else {
                assert(ops[ops.len() - 1] == ops.last());
            }
        }
    }
}

/// The aggregate of well-formed operations is a well-formed trace.
pub proof fn lemma_aggregate_is_well_formed(ops: Seq<Operation>, trace: Trace)
    requires
        aggregated(ops, trace),
        forall|i: int| 0 <= i < ops.len() ==> (#[trigger] ops[i]).wf(),
    ensures
        trace.wf(),
{
    assert forall|t: int, k: int|
        0 <= t < trace.timelines@.len() && 0 <= k < trace.timelines@[t].operations@.len() implies (
    #[trigger] trace.timelines@[t].operations@[k]).wf() && trace.epoch
        <= trace.timelines@[t].operations@[k].start_time_ns by {
        let entity = entities_of(ops)[t];
        lemma_operations_are_members(ops, entity);
        let op = operations_of(ops, entity)[k];
        assert(trace.timelines@[t].operations@[k] == op);
        let i = choose|i: int| 0 <= i < ops.len() && ops[i] == op;
        assert(ops[i].wf());
    }
}

/// The position of the timeline of `entity`, if it has one.
fn find_timeline(timelines: &Vec<EntityTimeline>, entity: &String) -> (found: Option<usize>)
    ensures
        match found {
            Some(at) => at < timelines@.len() && timelines@[at as int].entity@ == entity@,
            None => forall|t: int|
                0 <= t < timelines@.len() ==> (#[trigger] timelines@[t]).entity@ != entity@,
        },
{
    let mut t: usize = 0;
    while t < timelines.len()
        invariant
            t <= timelines@.len(),
            forall|u: int| 0 <= u < t ==> (#[trigger] timelines@[u]).entity@ != entity@,
        decreases timelines@.len() - t,
    {
        if timelines[t].entity == *entity {
            return Some(t);
        }
        t += 1;
    }
    None
}

/// Appends `op` to the timeline of its entity, which is created if this is
/// the entity's first operation.
fn append_to_timeline(
    timelines: &mut Vec<EntityTimeline>,
    op: Operation,
    Ghost(seen): Ghost<Seq<Operation>>,
)
    requires
        grouped(seen, old(timelines)@),
    ensures
        grouped(seen.push(op), final(timelines)@),
{
    let ghost before = timelines@;
    let ghost entity = op.entity@;
    let ghost entities = entities_of(seen);
    let ghost next = seen.push(op);
    proof {
        assert(next.drop_last() =~= seen);
        assert(next.last() == op);
        lemma_entities_distinct(seen);
    }
    match find_timeline(timelines, &op.entity) {
        Some(at) => {
            let mut timeline = timelines.remove(at);
            timeline.operations.push(op);
            timelines.insert(at, timeline);
            proof {
                assert(before[at as int].entity@ == entities[at as int]);
                assert(entities.contains(entity));
                assert forall|t: int| 0 <= t < timelines@.len() implies {
                    &&& (#[trigger] timelines@[t]).entity@ == entities_of(next)[t]
                    &&& timelines@[t].operations@ == operations_of(next, entities_of(next)[t])
                } by {
                    if t != at {
                        assert(timelines@[t] == before[t]);
                        assert(entities[t] != entities[at as int]);
                    }
                }
            }
        },
        None => {
            let entity_name = op.entity.clone();
            let mut operations: Vec<Operation> = Vec::new();
            operations.push(op);
            timelines.push(EntityTimeline { entity: entity_name, operations });
            proof {
                assert forall|t: int| 0 <= t < entities.len() implies entities[t] != entity by {
                    assert(before[t].entity@ == entities[t]);
                }
                assert(!entities.contains(entity));
                lemma_unlisted_entity_has_no_operations(seen, entity);
                assert(operations@ =~= operations_of(next, entity));
                assert forall|t: int| 0 <= t < timelines@.len() implies {
                    &&& (#[trigger] timelines@[t]).entity@ == entities_of(next)[t]
                    &&& timelines@[t].operations@ == operations_of(next, entities_of(next)[t])
                } by {
                    if t < before.len() {
                        assert(timelines@[t] == before[t]);
                        assert(entities[t] != entity);
                    }
                }
            }
        },
    }
}

/// The running state of a scan: what has been learnt from the operations
/// seen so far.
pub struct Aggregator {
    /// The least start time so far; it means nothing before the first
    /// operation.
    epoch: u64,
    /// Whether any operation has been seen.
    started: bool,
    registry: StateRegistry,
    timelines: Vec<EntityTimeline>,
    seen: Ghost<Seq<Operation>>,
}

impl Aggregator {
    /// The operations absorbed so far, in order.
    pub closed spec fn seen(&self) -> Seq<Operation> {
        self.seen@
    }

    /// The running state agrees with the operations absorbed so far.
    pub closed spec fn wf(&self) -> bool {
        &&& self.started == (self.seen@.len() > 0)
        &&& self.started ==> is_epoch(self.seen@, self.epoch as int)
        &&& self.registry.wf()
        &&& self.registry@ == real_kinds(self.seen@)
        &&& grouped(self.seen@, self.timelines@)
    }

    /// The state before any operation.
    pub fn new() -> (fresh: Aggregator)
        ensures
            fresh.wf(),
            fresh.seen() == Seq::<Operation>::empty(),
    {
        Aggregator {
            epoch: 0,
            started: false,
            registry: StateRegistry::new(),
            timelines: Vec::new(),
            seen: Ghost(Seq::empty()),
        }
    }

    /// Takes in the next operation of the trace: lowers the epoch if the
    /// operation starts earlier, registers its kind and appends it to the
    /// timeline of its entity.
    pub fn absorb(&mut self, op: Operation)
        requires
            old(self).wf(),
        ensures
            final(self).wf(),
            final(self).seen() == old(self).seen().push(op),
    {
        let ghost seen = self.seen@;
        let ghost next = seen.push(op);
        let ghost earlier = self.epoch;
        if !self.started || op.start_time_ns < self.epoch {
            self.epoch = op.start_time_ns;
        }
        proof {
            let last = seen.len() as int;
            assert(next[last] == op);
            assert(next.drop_last() =~= seen);
            if self.started {
                let w = choose|w: int| 0 <= w < seen.len() && (#[trigger] seen[w]).start_time_ns == earlier;
                if self.epoch == earlier {
                    assert(next[w].start_time_ns == self.epoch);
                } else {
                    assert(next[last].start_time_ns == self.epoch);
                }
                assert forall|k: int| 0 <= k < next.len() implies self.epoch <= (
                #[trigger] next[k]).start_time_ns by {
                    if k < last {
                        assert(seen[k] == next[k]);
                    }
                }
            } else {
                assert(next[last].start_time_ns == self.epoch);
            }
            assert(is_epoch(next, self.epoch as int));
        }
        self.started = true;
        self.registry.observe(&op.kind);
        append_to_timeline(&mut self.timelines, op, Ghost(seen));
        self.seen = Ghost(next);
    }

    /// Ends the scan. A scan of no operations has no epoch and is refused;
    /// any other yields the epoch, the registry of real kinds and the
    /// per-entity timelines of the operations absorbed.
    pub fn finish(self) -> (outcome: Result<Trace, TraceError>)
        requires
            self.wf(),
        ensures
            outcome is Err <==> self.seen().len() == 0,
            outcome matches Ok(trace) ==> aggregated(self.seen(), trace),
            outcome matches Ok(trace) ==> (forall|i: int|
                0 <= i < self.seen().len() ==> (#[trigger] self.seen()[i]).wf()) ==> trace.wf(),
    {
        if !self.started {
            return Err(TraceError::EmptyTrace);
        }
        let ghost seen = self.seen@;
        let trace = Trace { epoch: self.epoch, registry: self.registry, timelines: self.timelines };
        proof {
            if forall|i: int| 0 <= i < seen.len() ==> (#[trigger] seen[i]).wf() {
                lemma_aggregate_is_well_formed(seen, trace);
            }
        }
        Ok(trace)
    }
}

/// Scans a whole trace. An empty trace has no epoch and is refused; any
/// other trace yields its epoch, its registry of real kinds and its
/// per-entity timelines.
pub fn aggregate(ops: &Vec<Operation>) -> (outcome: Result<Trace, TraceError>)
    ensures
        outcome is Err <==> ops@.len() == 0,
        outcome matches Ok(trace) ==> aggregated(ops@, trace),
        outcome matches Ok(trace) ==> (forall|i: int| 0 <= i < ops@.len() ==> (#[trigger] ops@[i]).wf())
            ==> trace.wf(),
{
    let mut scan = Aggregator::new();
    let mut i: usize = 0;
    while i < ops.len()
        invariant
            i <= ops@.len(),
            scan.wf(),
            scan.seen() == ops@.take(i as int),
        decreases ops@.len() - i,
    {
        proof {
            assert(ops@.take(i + 1) =~= ops@.take(i as int).push(ops@[i as int]));
        }
        scan.absorb(ops[i].duplicate());
        i += 1;
    }
    proof {
        assert(ops@.take(ops@.len() as int) =~= ops@);
    }
    scan.finish()
}

} // verus!
