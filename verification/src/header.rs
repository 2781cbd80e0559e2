//! The header that precedes the events: when the trace starts, how it is
//! labelled, and which code stands for which state.

use vstd::prelude::*;
use crate::aggregate::Trace;
use crate::record::NANOS_PER_SEC;
use crate::registry::waiting_kind;

verus! {

/// One state of the legend.
#[derive(Debug)]
pub struct StateEntry {
    pub name: String,
    pub value: usize,
    /// The display colour, where one is fixed.
    pub color: Option<String>,
}

/// The description of a trace.
#[derive(Debug)]
pub struct Header {
    /// Whole seconds of the epoch.
    pub start_secs: u64,
    /// Nanoseconds of the epoch past the whole seconds.
    pub start_nanos: u64,
    pub title: String,
    pub host: String,
    /// The states by code: the real kinds, then the waiting state.
    pub states: Vec<StateEntry>,
}

/// The colour in which the waiting state is drawn.
pub open spec fn waiting_color() -> Seq<char> {
    "white"@
}

/// Whether `entry` describes the real kind `name` with code `code`.
pub open spec fn is_real_entry(entry: StateEntry, name: Seq<char>, code: int) -> bool {
    entry.name@ == name && entry.value == code && entry.color is None
}

/// Whether `entry` describes the waiting state with code `code`.
pub open spec fn is_waiting_entry(entry: StateEntry, code: int) -> bool {
    &&& entry.name@ == waiting_kind()
    &&& entry.value == code
    &&& entry.color matches Some(c) && c@ == waiting_color()
}

/// Whether `header` describes a trace with the given epoch and kinds.
pub open spec fn is_header_of(
    header: Header,
    epoch: int,
    kinds: Seq<Seq<char>>,
    title: Seq<char>,
    host: Seq<char>,
) -> bool {
    &&& header.start_secs == epoch / 1_000_000_000
    &&& header.start_nanos == epoch % 1_000_000_000
    &&& header.title@ == title
    &&& header.host@ == host
    &&& header.states@.len() == kinds.len() + 1
    &&& forall|c: int| 0 <= c < kinds.len() ==> is_real_entry(#[trigger] header.states@[c], kinds[c], c)
    &&& is_waiting_entry(header.states@[kinds.len() as int], kinds.len() as int)
}

/// Describes `trace` under the given title and host label.
pub fn header(trace: &Trace, title: &String, host: &String) -> (described: Header)
    ensures
        is_header_of(described, trace.epoch as int, trace.registry@, title@, host@),
{
    let mut states: Vec<StateEntry> = Vec::new();
    let count: usize = trace.registry.len();
    let mut code: usize = 0;
    while code < count
        invariant
            count == trace.registry@.len(),
            code <= count,
            states@.len() == code,
            forall|c: int|
                0 <= c < code ==> is_real_entry(#[trigger] states@[c], trace.registry@[c], c),
        decreases count - code,
    {
        let name: String = trace.registry.real_kind(code).clone();
        states.push(StateEntry { name, value: code, color: None });
        code += 1;
    }
    states.push(
        StateEntry { name: "waiting".to_owned(), value: count, color: Some("white".to_owned()) },
    );
    Header {
        start_secs: trace.epoch / NANOS_PER_SEC,
        start_nanos: trace.epoch % NANOS_PER_SEC,
        title: title.clone(),
        host: host.clone(),
        states,
    }
}

} // verus!
