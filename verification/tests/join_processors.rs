use eventflux_rust::engine::event::{AttributeValue, Event};
use eventflux_rust::engine::query::logical_processor::{LogicalProcessor, LogicalType};
use eventflux_rust::engine::query::sequence_processor::{
    SequenceProcessor, SequenceSide, SequenceType,
};

fn ev(ts: i64, v: i32) -> Event {
    Event::new_with_data(ts, vec![AttributeValue::Int(v)])
}

fn shape(events: &[Event]) -> Vec<(i64, Vec<AttributeValue>)> {
    events.iter().map(|e| (e.timestamp, e.data.clone())).collect()
}

fn pair(ts: i64, a: AttributeValue, b: AttributeValue) -> (i64, Vec<AttributeValue>) {
    (ts, vec![a, b])
}

#[test]
fn pattern_joins_every_second_event_with_kept_first_events() {
    let mut p = SequenceProcessor::new(SequenceType::Pattern, 1, 1, 1, -1, 1, 1, None);
    assert!(p.process_event(SequenceSide::First, vec![ev(1, 10)]).is_empty());
    let out = p.process_event(SequenceSide::Second, vec![ev(5, 20)]);
    assert_eq!(shape(&out), vec![pair(5, AttributeValue::Int(10), AttributeValue::Int(20))]);
    assert_eq!(p.first_buffer.len(), 1);
    assert!(p.second_buffer.is_empty());
    let out = p.process_event(SequenceSide::Second, vec![ev(6, 30)]);
    assert_eq!(shape(&out), vec![pair(6, AttributeValue::Int(10), AttributeValue::Int(30))]);
}

#[test]
fn sequence_clears_first_events_after_a_match() {
    let mut p = SequenceProcessor::new(SequenceType::Sequence, 1, 1, 1, -1, 1, 1, None);
    p.process_event(SequenceSide::First, vec![ev(1, 10)]);
    let out = p.process_event(SequenceSide::Second, vec![ev(2, 20)]);
    assert_eq!(shape(&out), vec![pair(2, AttributeValue::Int(10), AttributeValue::Int(20))]);
    assert!(p.first_buffer.is_empty());
    let out = p.process_event(SequenceSide::Second, vec![ev(3, 30)]);
    assert!(out.is_empty());
    assert_eq!(p.second_buffer.len(), 1);
    // A first event does not trigger matching in a sequence.
    assert!(p.process_event(SequenceSide::First, vec![ev(4, 40)]).is_empty());
    let out = p.process_event(SequenceSide::Second, vec![ev(5, 50)]);
    assert_eq!(shape(&out), vec![pair(3, AttributeValue::Int(40), AttributeValue::Int(30))]);
    assert!(p.first_buffer.is_empty());
    assert_eq!(shape(&p.second_buffer), vec![(5, vec![AttributeValue::Int(50)])]);
}

#[test]
fn zero_minimum_emits_a_join_without_first_event() {
    let mut p = SequenceProcessor::new(SequenceType::Pattern, 1, 1, 0, -1, 1, 1, None);
    let out = p.process_event(SequenceSide::Second, vec![ev(7, 70)]);
    assert_eq!(shape(&out), vec![pair(7, AttributeValue::Null, AttributeValue::Int(70))]);
}

#[test]
fn window_drops_first_events_that_are_too_old() {
    let mut p = SequenceProcessor::new(SequenceType::Pattern, 1, 1, 1, -1, 1, 1, Some(10));
    p.process_event(SequenceSide::First, vec![ev(0, 1), ev(20, 2)]);
    assert_eq!(shape(&p.first_buffer), vec![(20, vec![AttributeValue::Int(2)])]);
    let out = p.process_event(SequenceSide::Second, vec![ev(25, 3)]);
    assert_eq!(shape(&out), vec![pair(25, AttributeValue::Int(2), AttributeValue::Int(3))]);
    // Outside the window: buffered but not joined.
    let out = p.process_event(SequenceSide::Second, vec![ev(40, 4)]);
    assert!(out.is_empty());
}

#[test]
fn maximum_limits_joins_to_the_latest_first_events() {
    let mut p = SequenceProcessor::new(SequenceType::Pattern, 1, 1, 1, 1, 1, 1, None);
    p.process_event(SequenceSide::First, vec![ev(1, 10), ev(2, 11)]);
    let out = p.process_event(SequenceSide::Second, vec![ev(3, 20)]);
    assert_eq!(shape(&out), vec![pair(3, AttributeValue::Int(11), AttributeValue::Int(20))]);
}

#[test]
fn unbounded_pattern_joins_all_first_events_in_order() {
    let mut p = SequenceProcessor::new(SequenceType::Pattern, 1, 1, 1, -1, 1, 1, None);
    p.process_event(SequenceSide::First, vec![ev(1, 10), ev(2, 11)]);
    let out = p.process_event(SequenceSide::Second, vec![ev(3, 20)]);
    assert_eq!(
        shape(&out),
        vec![
            pair(3, AttributeValue::Int(10), AttributeValue::Int(20)),
            pair(3, AttributeValue::Int(11), AttributeValue::Int(20)),
        ]
    );
}

#[test]
fn side_processor_routes_to_its_side_and_clones_settings() {
    let mut p = SequenceProcessor::new(SequenceType::Pattern, 1, 1, 1, -1, 1, 1, None);
    let first = SequenceProcessor::create_side_processor(SequenceSide::First);
    let second = SequenceProcessor::create_side_processor(SequenceSide::Second);
    first.process(&mut p, vec![ev(1, 10)]);
    let out = second.process(&mut p, vec![ev(2, 20)]);
    assert_eq!(out.len(), 1);
    let (fresh, side) = second.clone_processor(&p);
    assert!(fresh.first_buffer.is_empty() && fresh.second_buffer.is_empty());
    assert_eq!(side.side, SequenceSide::Second);
    assert_eq!(fresh.first_min, 1);
    assert_eq!(fresh.first_max, -1);
}

#[test]
fn joined_event_pads_missing_values_with_null() {
    let p = SequenceProcessor::new(SequenceType::Pattern, 2, 1, 1, -1, 1, 1, None);
    let a = ev(1, 10);
    let e = p.build_joined_event(Some(&a), None);
    assert_eq!(e.timestamp, 1);
    assert_eq!(e.data, vec![AttributeValue::Int(10), AttributeValue::Null, AttributeValue::Null]);
    let e = p.build_joined_event(None, None);
    assert_eq!(e.timestamp, 0);
}

#[test]
fn and_pairs_oldest_events_and_keeps_the_rest() {
    let mut p = LogicalProcessor::new(LogicalType::And, 1, 1);
    assert!(p.process_event(SequenceSide::First, vec![ev(1, 10), ev(2, 11)]).is_empty());
    let out = p.process_event(SequenceSide::Second, vec![ev(3, 20)]);
    assert_eq!(shape(&out), vec![pair(3, AttributeValue::Int(10), AttributeValue::Int(20))]);
    assert_eq!(shape(&p.first_buffer), vec![(2, vec![AttributeValue::Int(11)])]);
    assert!(p.second_buffer.is_empty());
}

#[test]
fn or_passes_every_event_on_alone() {
    let mut p = LogicalProcessor::new(LogicalType::Or, 1, 1);
    let out = p.process_event(SequenceSide::First, vec![ev(1, 10)]);
    assert_eq!(shape(&out), vec![pair(1, AttributeValue::Int(10), AttributeValue::Null)]);
    let out = p.process_event(SequenceSide::Second, vec![ev(2, 20)]);
    assert_eq!(shape(&out), vec![pair(2, AttributeValue::Null, AttributeValue::Int(20))]);
    assert!(p.first_buffer.is_empty() && p.second_buffer.is_empty());
}
