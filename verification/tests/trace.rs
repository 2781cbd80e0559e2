use minio_statemap::aggregate::{aggregate, Aggregator, Trace, TraceError};
use minio_statemap::emit::{emit, epoch_parts, out_of_order, Emission, StateEvent, Violation};
use minio_statemap::header::header;
use minio_statemap::pipeline::{convert, ConvertError};
use minio_statemap::record::{Operation, RawRecord, RecordError};
use minio_statemap::registry::{is_waiting, StateRegistry};

fn op(entity: &str, kind: &str, start_time_ns: u64, end_time_ns: u64) -> Operation {
    Operation { entity: entity.to_string(), kind: kind.to_string(), start_time_ns, end_time_ns }
}

fn event(offset_ns: u64, entity: &str, state_code: usize) -> StateEvent {
    StateEvent { offset_ns, entity: entity.to_string(), state_code }
}

fn record(entity: &str, end_timestamp: &str, duration_ns: u64, kind: &str) -> RawRecord {
    RawRecord {
        entity: entity.to_string(),
        end_timestamp: end_timestamp.to_string(),
        duration_ns,
        kind: kind.to_string(),
    }
}

fn run(ops: &Vec<Operation>) -> (Trace, Emission) {
    let trace = aggregate(ops).unwrap();
    let emission = emit(&trace);
    (trace, emission)
}

#[test]
fn two_operations_in_order_on_one_entity() {
    let ops = vec![op("h1", "Put", 700_000_000, 1_000_000_000), op("h1", "Get", 1_400_000_000, 1_500_000_000)];
    let (trace, emission) = run(&ops);
    assert_eq!(trace.epoch, 700_000_000);
    assert_eq!(trace.registry.code(&"Put".to_string()), 0);
    assert_eq!(trace.registry.code(&"Get".to_string()), 1);
    assert_eq!(trace.registry.waiting_code(), 2);
    assert_eq!(
        emission.events,
        vec![
            event(0, "h1", 0),
            event(300_000_000, "h1", 2),
            event(700_000_000, "h1", 1),
            event(800_000_000, "h1", 2),
        ]
    );
    assert_eq!(emission.violation_count(), 0);
    assert_eq!(emission.event_count(), 4);
}

#[test]
fn second_operation_starting_before_the_first_ended_is_a_violation() {
    let ops = vec![op("h1", "Put", 700_000_000, 1_000_000_000), op("h1", "Get", 500_000_000, 900_000_000)];
    let (trace, emission) = run(&ops);
    assert_eq!(trace.epoch, 500_000_000);
    assert_eq!(emission.violations, vec![Violation { timeline: 0, position: 1 }]);
    assert_eq!(emission.violation_count(), 1);
    assert_eq!(
        emission.events,
        vec![
            event(200_000_000, "h1", 0),
            event(500_000_000, "h1", 2),
            event(0, "h1", 1),
            event(400_000_000, "h1", 2),
        ]
    );
}

#[test]
fn empty_trace_is_refused() {
    let ops: Vec<Operation> = Vec::new();
    assert_eq!(aggregate(&ops).unwrap_err(), TraceError::EmptyTrace);
}

#[test]
fn epoch_is_the_minimum_wherever_it_stands() {
    let ops = vec![op("a", "x", 50, 60), op("b", "x", 10, 70), op("c", "x", 30, 80)];
    let trace = aggregate(&ops).unwrap();
    assert_eq!(trace.epoch, 10);
    let last = vec![op("a", "x", 50, 60), op("b", "x", 40, 70), op("c", "x", 5, 80)];
    assert_eq!(aggregate(&last).unwrap().epoch, 5);
    let first = vec![op("a", "x", 1, 60), op("b", "x", 40, 70)];
    assert_eq!(aggregate(&first).unwrap().epoch, 1);
}

#[test]
fn every_start_offset_is_non_negative() {
    let ops = vec![op("a", "x", 50, 60), op("b", "y", 10, 70), op("a", "z", 30, 80)];
    let trace = aggregate(&ops).unwrap();
    for o in &ops {
        assert!(o.start_time_ns >= trace.epoch);
    }
    assert!(ops.iter().any(|o| o.start_time_ns == trace.epoch));
}

#[test]
fn codes_follow_first_seen_order() {
    let ops = vec![
        op("a", "Put", 1, 2),
        op("b", "Get", 2, 3),
        op("a", "Put", 3, 4),
        op("c", "List", 4, 5),
        op("b", "Get", 5, 6),
    ];
    let trace = aggregate(&ops).unwrap();
    assert_eq!(trace.registry.len(), 3);
    assert_eq!(trace.registry.code(&"Put".to_string()), 0);
    assert_eq!(trace.registry.code(&"Get".to_string()), 1);
    assert_eq!(trace.registry.code(&"List".to_string()), 2);
    assert_eq!(trace.registry.waiting_code(), 3);
    assert_eq!(trace.registry.kind_name(0), Some("Put".to_string()));
    assert_eq!(trace.registry.kind_name(2), Some("List".to_string()));
    assert_eq!(trace.registry.kind_name(3), Some("waiting".to_string()));
    assert_eq!(trace.registry.kind_name(4), None);
    assert_eq!(trace.registry.real_kind(1), "Get");
}

#[test]
fn no_real_kind_has_the_waiting_code() {
    let ops = vec![op("a", "Put", 1, 2), op("a", "Get", 2, 3), op("a", "Put", 3, 4)];
    let trace = aggregate(&ops).unwrap();
    let waiting = trace.registry.waiting_code();
    assert_eq!(waiting, 2);
    for o in &ops {
        assert!(trace.registry.code(&o.kind) < waiting);
    }
}

#[test]
fn an_operation_named_waiting_shares_the_waiting_code() {
    let ops = vec![op("a", "waiting", 1, 2), op("a", "Put", 2, 3)];
    let (trace, emission) = run(&ops);
    assert_eq!(trace.registry.len(), 1);
    assert_eq!(trace.registry.code(&"Put".to_string()), 0);
    assert_eq!(trace.registry.code(&"waiting".to_string()), 1);
    assert_eq!(trace.registry.waiting_code(), 1);
    assert_eq!(
        emission.events,
        vec![event(0, "a", 1), event(1, "a", 1), event(1, "a", 0), event(2, "a", 1)]
    );
}

#[test]
fn registry_observes_each_kind_once() {
    let mut registry = StateRegistry::new();
    assert_eq!(registry.len(), 0);
    assert_eq!(registry.waiting_code(), 0);
    registry.observe(&"Put".to_string());
    registry.observe(&"Put".to_string());
    registry.observe(&"waiting".to_string());
    registry.observe(&"Get".to_string());
    assert_eq!(registry.len(), 2);
    assert_eq!(registry.position(&"Put".to_string()), Some(0));
    assert_eq!(registry.position(&"Get".to_string()), Some(1));
    assert_eq!(registry.position(&"waiting".to_string()), None);
    assert_eq!(registry.position(&"List".to_string()), None);
    assert_eq!(registry.code(&"List".to_string()), 2);
}

#[test]
fn waiting_is_recognized_by_name() {
    assert!(is_waiting(&"waiting".to_string()));
    assert!(!is_waiting(&"Waiting".to_string()));
    assert!(!is_waiting(&"".to_string()));
}

#[test]
fn operations_are_grouped_by_entity_in_arrival_order() {
    let ops = vec![
        op("h2", "a", 10, 20),
        op("h1", "b", 5, 25),
        op("h2", "c", 30, 40),
        op("h1", "d", 26, 45),
        op("h3", "e", 1, 50),
    ];
    let trace = aggregate(&ops).unwrap();
    assert_eq!(trace.timelines.len(), 3);
    assert_eq!(trace.timelines[0].entity, "h2");
    assert_eq!(trace.timelines[1].entity, "h1");
    assert_eq!(trace.timelines[2].entity, "h3");
    let kinds = |t: usize| -> Vec<String> {
        trace.timelines[t].operations.iter().map(|o| o.kind.clone()).collect()
    };
    assert_eq!(kinds(0), vec!["a".to_string(), "c".to_string()]);
    assert_eq!(kinds(1), vec!["b".to_string(), "d".to_string()]);
    assert_eq!(kinds(2), vec!["e".to_string()]);
}

#[test]
fn events_come_entity_after_entity() {
    let ops = vec![op("h2", "a", 10, 20), op("h1", "b", 5, 25), op("h2", "a", 30, 40)];
    let (_, emission) = run(&ops);
    assert_eq!(
        emission.events,
        vec![
            event(5, "h2", 0),
            event(15, "h2", 2),
            event(25, "h2", 0),
            event(35, "h2", 2),
            event(0, "h1", 1),
            event(20, "h1", 2),
        ]
    );
    assert_eq!(emission.violation_count(), 0);
}

#[test]
fn two_events_per_operation_whatever_the_violations() {
    let ops = vec![
        op("a", "x", 100, 200),
        op("a", "y", 150, 250),
        op("b", "x", 10, 20),
        op("a", "z", 240, 300),
        op("b", "y", 20, 30),
        op("a", "x", 300, 310),
    ];
    let (_, emission) = run(&ops);
    assert_eq!(emission.event_count(), 12);
    assert_eq!(emission.events.len(), 2 * ops.len());
    assert_eq!(
        emission.violations,
        vec![Violation { timeline: 0, position: 1 }, Violation { timeline: 0, position: 2 }]
    );
}

#[test]
fn end_offset_is_never_before_start_offset() {
    let ops = vec![op("a", "x", 100, 200), op("b", "y", 150, 150), op("a", "z", 90, 300)];
    let (trace, emission) = run(&ops);
    assert_eq!(trace.epoch, 90);
    let mut i = 0;
    while i < emission.events.len() {
        assert!(emission.events[i].offset_ns <= emission.events[i + 1].offset_ns);
        i += 2;
    }
    assert_eq!(emission.events[0].offset_ns, 10);
    assert_eq!(emission.events[1].offset_ns, 110);
    assert_eq!(emission.events[2].offset_ns, 0);
    assert_eq!(emission.events[3].offset_ns, 210);
    assert_eq!(emission.events[4].offset_ns, 60);
    assert_eq!(emission.events[5].offset_ns, 60);
}

#[test]
fn touching_operations_do_not_overlap() {
    let ops = vec![op("a", "x", 100, 200), op("a", "y", 200, 250)];
    let (_, emission) = run(&ops);
    assert_eq!(emission.violation_count(), 0);
    assert!(!out_of_order(&ops[0], &ops[1]));
    assert!(out_of_order(&ops[1], &ops[0]));
}

#[test]
fn only_adjacent_pairs_are_compared() {
    let ops = vec![op("a", "x", 100, 500), op("a", "y", 10, 20), op("a", "z", 30, 40)];
    let (_, emission) = run(&ops);
    assert_eq!(emission.violations, vec![Violation { timeline: 0, position: 1 }]);
}

#[test]
fn operations_of_different_entities_never_conflict() {
    let ops = vec![op("a", "x", 100, 500), op("b", "x", 10, 20), op("c", "x", 5, 600)];
    let (_, emission) = run(&ops);
    assert_eq!(emission.violation_count(), 0);
}

#[test]
fn repeated_runs_agree() {
    let build = || {
        vec![
            op("a", "x", 100, 200),
            op("b", "y", 50, 250),
            op("a", "z", 150, 300),
            op("c", "x", 70, 80),
        ]
    };
    let (first_trace, first) = run(&build());
    let (second_trace, second) = run(&build());
    assert_eq!(first_trace.epoch, second_trace.epoch);
    assert_eq!(first_trace.registry.len(), second_trace.registry.len());
    for code in 0..=first_trace.registry.len() {
        assert_eq!(first_trace.registry.kind_name(code), second_trace.registry.kind_name(code));
    }
    assert_eq!(first.events, second.events);
    assert_eq!(first.violations, second.violations);
}

#[test]
fn epoch_splits_into_seconds_and_nanos() {
    assert_eq!(epoch_parts(0), (0, 0));
    assert_eq!(epoch_parts(700_000_000), (0, 700_000_000));
    assert_eq!(epoch_parts(1_600_000_000_123_456_789), (1_600_000_000, 123_456_789));
    assert_eq!(epoch_parts(u64::MAX), (18_446_744_073, 709_551_615));
}

#[test]
fn header_lists_the_states_by_code() {
    let ops = vec![op("h1", "Put", 1_700_000_000, 2_000_000_000), op("h1", "Get", 2_400_000_000, 2_500_000_000)];
    let trace = aggregate(&ops).unwrap();
    let described = header(&trace, &"MinIO".to_string(), &"minio cluster".to_string());
    assert_eq!(described.start_secs, 1);
    assert_eq!(described.start_nanos, 700_000_000);
    assert_eq!(described.title, "MinIO");
    assert_eq!(described.host, "minio cluster");
    assert_eq!(described.states.len(), 3);
    assert_eq!(described.states[0].name, "Put");
    assert_eq!(described.states[0].value, 0);
    assert_eq!(described.states[0].color, None);
    assert_eq!(described.states[1].name, "Get");
    assert_eq!(described.states[1].value, 1);
    assert_eq!(described.states[1].color, None);
    assert_eq!(described.states[2].name, "waiting");
    assert_eq!(described.states[2].value, 2);
    assert_eq!(described.states[2].color, Some("white".to_string()));
}

#[test]
fn records_convert_to_events() {
    let records = vec![
        record("h1", "1970-01-01T00:00:01Z", 300_000_000, "Put"),
        record("h1", "1970-01-01T00:00:01.5Z", 100_000_000, "Get"),
    ];
    let conversion = convert(&records).unwrap();
    assert_eq!(conversion.operations.len(), 2);
    assert_eq!(conversion.trace.epoch, 700_000_000);
    assert_eq!(
        conversion.emission.events,
        vec![
            event(0, "h1", 0),
            event(300_000_000, "h1", 2),
            event(700_000_000, "h1", 1),
            event(800_000_000, "h1", 2),
        ]
    );
    assert_eq!(conversion.emission.violation_count(), 0);
}

#[test]
fn records_with_an_overlap_still_convert() {
    let records = vec![
        record("h1", "1970-01-01T00:00:01Z", 300_000_000, "Put"),
        record("h1", "1970-01-01T00:00:00.9Z", 400_000_000, "Get"),
    ];
    let conversion = convert(&records).unwrap();
    assert_eq!(conversion.trace.epoch, 500_000_000);
    assert_eq!(conversion.emission.violation_count(), 1);
    assert_eq!(conversion.emission.event_count(), 4);
}

#[test]
fn no_records_do_not_convert() {
    let records: Vec<RawRecord> = Vec::new();
    assert_eq!(convert(&records).unwrap_err(), ConvertError::EmptyTrace);
}

#[test]
fn a_bad_record_fails_the_conversion() {
    let records = vec![
        record("h1", "1970-01-01T00:00:01Z", 300_000_000, "Put"),
        record("h1", "half past nine", 100_000_000, "Get"),
    ];
    assert_eq!(
        convert(&records).unwrap_err(),
        ConvertError::Record { index: 1, reason: RecordError::BadTimestamp }
    );
}

#[test]
fn a_scan_fed_one_by_one_agrees_with_the_scan_of_the_whole() {
    let ops = vec![op("h2", "a", 10, 20), op("h1", "b", 5, 25), op("h2", "c", 30, 40)];
    let mut scan = Aggregator::new();
    for o in &ops {
        scan.absorb(o.duplicate());
    }
    let stepwise = scan.finish().unwrap();
    let whole = aggregate(&ops).unwrap();
    assert_eq!(stepwise.epoch, 5);
    assert_eq!(stepwise.epoch, whole.epoch);
    assert_eq!(stepwise.registry.len(), 3);
    assert_eq!(stepwise.timelines.len(), whole.timelines.len());
    assert_eq!(emit(&stepwise).events, emit(&whole).events);
}

#[test]
fn a_scan_of_nothing_has_no_epoch() {
    let scan = Aggregator::new();
    assert_eq!(scan.finish().unwrap_err(), TraceError::EmptyTrace);
}

#[test]
fn the_first_operation_sets_the_epoch_even_at_zero() {
    let mut scan = Aggregator::new();
    scan.absorb(op("a", "x", 7, 9));
    scan.absorb(op("a", "x", 0, 3));
    assert_eq!(scan.finish().unwrap().epoch, 0);
    let mut high = Aggregator::new();
    high.absorb(op("a", "x", u64::MAX, u64::MAX));
    assert_eq!(high.finish().unwrap().epoch, u64::MAX);
}
