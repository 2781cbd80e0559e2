//! The whole conversion: normalize every record, aggregate, emit.

use vstd::prelude::*;
use crate::aggregate::{aggregate, aggregated, Trace};
use crate::emit::{emit, event_views, trace_events, trace_violations, Emission};
use crate::laws::law_two_events_per_operation;
use crate::record::{
    is_normalized, normalize_all, normalized_record_times, wall_clock_of, Operation, RawRecord,
    RecordError,
};

verus! {

/// Why a trace cannot be converted. Either failure comes before any event.
#[derive(Clone, Copy, Debug, PartialEq, Eq, Structural)]
pub enum ConvertError {
    /// The record at `index` is the first that cannot be normalized.
    Record { index: usize, reason: RecordError },
    /// There are no records.
    EmptyTrace,
}

/// A converted trace: its operations, their aggregate and what it emits.
#[derive(Debug)]
pub struct Conversion {
    pub operations: Vec<Operation>,
    pub trace: Trace,
    pub emission: Emission,
}

/// The times of record `i`, or why it has none.
pub open spec fn record_times(records: Seq<RawRecord>, i: int) -> Result<(int, int), RecordError> {
    normalized_record_times(wall_clock_of(records[i].end_timestamp@), records[i].duration_ns as int)
}

/// Whether `ops` are the operations of `records`, one for one.
pub open spec fn normalizes(records: Seq<RawRecord>, ops: Seq<Operation>) -> bool {
    &&& ops.len() == records.len()
    &&& forall|i: int|
        0 <= i < records.len() ==> is_normalized(
            Ok(#[trigger] ops[i]),
            records[i].entity@,
            records[i].kind@,
            record_times(records, i),
        )
}

/// Whether `conversion` is what `records` convert to.
pub open spec fn converts_to(records: Seq<RawRecord>, conversion: Conversion) -> bool {
    &&& normalizes(records, conversion.operations@)
    &&& aggregated(conversion.operations@, conversion.trace)
    &&& conversion.trace.wf()
    &&& event_views(conversion.emission.events@) == trace_events(
        conversion.trace.timelines@,
        conversion.trace.epoch as int,
        conversion.trace.registry@,
    )
    &&& conversion.emission.violations@ == trace_violations(conversion.trace.timelines@)
    &&& conversion.emission.events@.len() == 2 * records.len()
}

/// Whether converting `records` fails with `error`.
pub open spec fn fails_with(records: Seq<RawRecord>, error: ConvertError) -> bool {
    match error {
        ConvertError::EmptyTrace => records.len() == 0,
        ConvertError::Record { index, reason } => {
            &&& index < records.len()
            &&& record_times(records, index as int) == Err::<(int, int), RecordError>(reason)
            &&& forall|i: int| 0 <= i < index ==> (#[trigger] record_times(records, i)) is Ok
        },
    }
}

/// Converts a whole trace. The first record that cannot be normalized, or
/// an empty trace, fails the conversion; ordering violations do not.
pub fn convert(records: &Vec<RawRecord>) -> (outcome: Result<Conversion, ConvertError>)
    ensures
        match outcome {
            Ok(conversion) => converts_to(records@, conversion),
            Err(error) => fails_with(records@, error),
        },
{
    match normalize_all(records) {
        Err(failure) => Err(ConvertError::Record { index: failure.0, reason: failure.1 }),
        Ok(operations) => {
            match aggregate(&operations) {
                Err(_) => Err(ConvertError::EmptyTrace),
                Ok(trace) => {
                    let emission = emit(&trace);
                    proof {
                        law_two_events_per_operation(operations@, trace);
                    }
                    Ok(Conversion { operations, trace, emission })
                },
            }
        },
    }
}

} // verus!
