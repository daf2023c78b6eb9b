// Timed transitions to bitstream.

use am2302::edges::bit_from_pulse;
use am2302::edges::events_to_data;
use am2302::edges::transition_event;
use am2302::edges::Event;
use am2302::edges::EventType;

#[test]
fn pulse_threshold_splits_digits() {
    assert_eq!(bit_from_pulse(0), 0);
    assert_eq!(bit_from_pulse(27), 0);
    assert_eq!(bit_from_pulse(35), 0);
    assert_eq!(bit_from_pulse(36), 1);
    assert_eq!(bit_from_pulse(70), 1);
}

#[test]
fn event_new_keeps_fields() {
    let event = Event::new(120, EventType::FallingEdge);
    assert_eq!(event.timestamp_micros, 120);
    assert_eq!(event.event_type, EventType::FallingEdge);
}

#[test]
fn transitions_are_classified() {
    let rising = transition_event(0, 1, 7);
    assert_eq!(rising, Some(Event::new(7, EventType::RisingEdge)));
    let falling = transition_event(1, 0, 9);
    assert_eq!(falling, Some(Event::new(9, EventType::FallingEdge)));
    assert_eq!(transition_event(1, 1, 11), None);
    assert_eq!(transition_event(0, 0, 13), None);
}

#[test]
fn falling_edges_close_pulses() {
    let events = vec![
        Event::new(0, EventType::RisingEdge),
        Event::new(70, EventType::FallingEdge), // long high pulse: 1
        Event::new(120, EventType::RisingEdge), // low pulse: no digit
        Event::new(147, EventType::FallingEdge), // short high pulse: 0
        Event::new(200, EventType::RisingEdge),
        Event::new(280, EventType::FallingEdge), // long high pulse: 1
    ];
    let data = events_to_data(&events);
    assert_eq!(data, vec![1, 0, 1]);
}

#[test]
fn too_few_events_give_no_digits() {
    assert_eq!(events_to_data(&[]), Vec::<u8>::new());
    assert_eq!(events_to_data(&[Event::new(5, EventType::RisingEdge)]), Vec::<u8>::new());
}
