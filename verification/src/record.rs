//! The record normalizer: from a completion timestamp and a duration to an
//! operation with absolute start and end times in nanoseconds.

use vstd::prelude::*;

verus! {

/// Nanoseconds in one second.
pub const NANOS_PER_SEC: u64 = 1_000_000_000;

/// One trace entry with its inferred start time.
#[derive(Debug)]
pub struct Operation {
    /// The entity whose state is tracked, such as the address of a server.
    pub entity: String,
    /// The name of the operation; it determines the state code.
    pub kind: String,
    /// Absolute start time, the end time less the reported duration.
    pub start_time_ns: u64,
    /// Absolute completion time.
    pub end_time_ns: u64,
}

/// One trace entry as it is read: the completion time is still text.
#[derive(Debug)]
pub struct RawRecord {
    pub entity: String,
    /// Completion time as an RFC 3339 timestamp; a space may stand for the `T`.
    pub end_timestamp: String,
    pub duration_ns: u64,
    pub kind: String,
}

/// Why a record cannot be normalized.
#[derive(Clone, Copy, Debug, PartialEq, Eq, Structural)]
pub enum RecordError {
    /// The completion timestamp is not a date and time.
    BadTimestamp,
    /// The completion time lies before 1970 or does not fit in 64 bits of
    /// nanoseconds.
    TimestampOutOfRange,
    /// The duration is longer than the time since 1970, so the start time
    /// would be negative.
    DurationExceedsEndTime,
}

impl Operation {
    /// An operation does not end before it starts.
    pub open spec fn wf(&self) -> bool {
        self.start_time_ns <= self.end_time_ns
    }

    /// A copy of this operation.
    pub fn duplicate(&self) -> (copy: Operation)
        ensures
            copy == *self,
    {
        Operation {
            entity: self.entity.clone(),
            kind: self.kind.clone(),
            start_time_ns: self.start_time_ns,
            end_time_ns: self.end_time_ns,
        }
    }
}

/// The seconds since 1970 and the nanoseconds past the second that chrono
/// reads from a timestamp, or `None` where chrono rejects the text.
pub uninterp spec fn wall_clock_of(text: Seq<char>) -> Option<(int, int)>;

/// Calls chrono's `FromStr` for `DateTime<Utc>` (`str::parse`), then
/// `DateTime::timestamp` and `DateTime::timestamp_subsec_nanos` on what it
/// read. The contract only gives the outcome its name, `wall_clock_of`: the
/// same text always reads as the same instant, and nothing is claimed about
/// which texts chrono accepts. During a leap second the nanoseconds may
/// exceed 999,999,999, so no bound on them is stated.
#[verifier::external_body]
fn parse_wall_clock(text: &str) -> (clock: Option<(i64, u32)>)
    ensures
        match clock {
            Some(c) => wall_clock_of(text@) == Some((c.0 as int, c.1 as int)),
            None => wall_clock_of(text@) is None,
        },
{
    match text.parse::<chrono::DateTime<chrono::Utc>>() {
        Ok(t) => Some((t.timestamp(), t.timestamp_subsec_nanos())),
        Err(_) => None,
    }
}

/// The absolute time in nanoseconds of a wall-clock reading.
pub open spec fn absolute_ns(secs: int, subsec_nanos: int) -> int {
    secs * 1_000_000_000 + subsec_nanos
}

/// Start and end time of an operation that ended at the given wall-clock
/// reading after running for `duration_ns`, or the reason there is none.
pub open spec fn normalized_times(secs: int, subsec_nanos: int, duration_ns: int) -> Result<
    (int, int),
    RecordError,
> {
    let end = absolute_ns(secs, subsec_nanos);
    if secs < 0 || end > u64::MAX {
        Err(RecordError::TimestampOutOfRange)
    } else if duration_ns > end {
        Err(RecordError::DurationExceedsEndTime)
    } else {
        Ok((end - duration_ns, end))
    }
}

/// What normalizing a record yields, given how its timestamp reads.
pub open spec fn normalized_record_times(clock: Option<(int, int)>, duration_ns: int) -> Result<
    (int, int),
    RecordError,
> {
    match clock {
        None => Err(RecordError::BadTimestamp),
        Some(c) => normalized_times(c.0, c.1, duration_ns),
    }
}

/// Whether `outcome` is the operation of `entity` and `kind` with the times
/// `times`, or the same error.
pub open spec fn is_normalized(
    outcome: Result<Operation, RecordError>,
    entity: Seq<char>,
    kind: Seq<char>,
    times: Result<(int, int), RecordError>,
) -> bool {
    match (outcome, times) {
        (Ok(op), Ok(t)) => op.entity@ == entity && op.kind@ == kind && op.start_time_ns == t.0
            && op.end_time_ns == t.1 && op.wf(),
        (Err(e), Err(f)) => e == f,
        _ => false,
    }
}

/// Converts a wall-clock reading to nanoseconds since 1970, exactly.
pub fn end_time_ns(secs: i64, subsec_nanos: u32) -> (end: Option<u64>)
    ensures
        end is Some <==> secs >= 0 && absolute_ns(secs as int, subsec_nanos as int) <= u64::MAX,
        end matches Some(t) ==> t == absolute_ns(secs as int, subsec_nanos as int),
{
    if secs < 0 || secs > 18_446_744_073 {
        return None;
    }
    let whole: u64 = (secs as u64) * NANOS_PER_SEC;
    let part: u64 = subsec_nanos as u64;
    if part > u64::MAX - whole {
        None
    } else {
        Some(whole + part)
    }
}

/// Builds the operation of `entity` and `kind` that ended at the given
/// wall-clock reading after running for `duration_ns`.
pub fn normalize(
    entity: String,
    kind: String,
    secs: i64,
    subsec_nanos: u32,
    duration_ns: u64,
) -> (outcome: Result<Operation, RecordError>)
    ensures
        is_normalized(
            outcome,
            entity@,
            kind@,
            normalized_times(secs as int, subsec_nanos as int, duration_ns as int),
        ),
{
    match end_time_ns(secs, subsec_nanos) {
        None => Err(RecordError::TimestampOutOfRange),
        Some(end) => {
            if duration_ns > end {
                Err(RecordError::DurationExceedsEndTime)
            } else {
                Ok(Operation { entity, kind, start_time_ns: end - duration_ns, end_time_ns: end })
            }
        },
    }
}

/// Normalizes one raw record: reads its timestamp and infers the start time.
pub fn normalize_record(record: &RawRecord) -> (outcome: Result<Operation, RecordError>)
    ensures
        is_normalized(
            outcome,
            record.entity@,
            record.kind@,
            normalized_record_times(
                wall_clock_of(record.end_timestamp@),
                record.duration_ns as int,
            ),
        ),
{
    match parse_wall_clock(record.end_timestamp.as_str()) {
        None => Err(RecordError::BadTimestamp),
        Some(clock) => normalize(
            record.entity.clone(),
            record.kind.clone(),
            clock.0,
            clock.1,
            record.duration_ns,
        ),
    }
}

/// Normalizes every record in order; the first record that fails is fatal
/// and is reported with its position.
pub fn normalize_all(records: &Vec<RawRecord>) -> (outcome: Result<Vec<Operation>, (usize, RecordError)>)
    ensures
        match outcome {
            Ok(ops) => ops@.len() == records@.len() && forall|i: int|
                0 <= i < records@.len() ==> is_normalized(
                    Ok(#[trigger] ops@[i]),
                    records@[i].entity@,
                    records@[i].kind@,
                    normalized_record_times(
                        wall_clock_of(records@[i].end_timestamp@),
                        records@[i].duration_ns as int,
                    ),
                ),
            Err(failure) => failure.0 < records@.len() && normalized_record_times(
                wall_clock_of(records@[failure.0 as int].end_timestamp@),
                records@[failure.0 as int].duration_ns as int,
            ) == Err::<(int, int), RecordError>(failure.1) && forall|i: int|
                0 <= i < failure.0 ==> (#[trigger] normalized_record_times(
                    wall_clock_of(records@[i].end_timestamp@),
                    records@[i].duration_ns as int,
                )) is Ok,
        },
{
    let mut ops: Vec<Operation> = Vec::new();
    let mut i: usize = 0;
    while i < records.len()
        invariant
            i <= records@.len(),
            ops@.len() == i,
            forall|k: int|
                0 <= k < i ==> is_normalized(
                    Ok(#[trigger] ops@[k]),
                    records@[k].entity@,
                    records@[k].kind@,
                    normalized_record_times(
                        wall_clock_of(records@[k].end_timestamp@),
                        records@[k].duration_ns as int,
                    ),
                ),
            forall|k: int|
                0 <= k < i ==> (#[trigger] normalized_record_times(
                    wall_clock_of(records@[k].end_timestamp@),
                    records@[k].duration_ns as int,
                )) is Ok,
        decreases records@.len() - i,
    {
        match normalize_record(&records[i]) {
            Ok(op) => {
                ops.push(op);
            },
            Err(e) => {
                return Err((i, e));
            },
        }
        i += 1;
    }
    Ok(ops)
}

} // verus!
