//! Turning timed line transitions into the bitstream they encode.
//!
//! The sensor answers with a train of pulses. The platform code samples the
//! line and reports each level change as an `Event` carrying a monotonic
//! timestamp in microseconds. A pair of consecutive events that ends in a
//! falling edge closes one high pulse; the pulse's duration picks the digit:
//! long pulses encode a 1, short ones a 0.

use vstd::prelude::*;

verus! {

/// A low line level.
pub const LOW: u8 = 0;

/// A high line level.
pub const HIGH: u8 = 1;

/// High pulses longer than this many microseconds encode a 1.
pub const THRESHOLD_MICROS: u64 = 35;

/// The direction of a line transition.
#[derive(Debug, PartialEq, Eq, Structural, Clone, Copy)]
pub enum EventType {
    /// The line went from low to high.
    RisingEdge,
    /// The line went from high to low.
    FallingEdge,
}

/// One line transition, with a monotonic timestamp in microseconds from an
/// origin fixed for the capture session.
#[derive(Debug, PartialEq, Eq, Structural, Clone, Copy)]
pub struct Event {
    /// When the transition was observed.
    pub timestamp_micros: u64,
    /// Which way the line went.
    pub event_type: EventType,
}

impl Event {
    /// Builds the event observed at the given time.
    pub fn new(timestamp_micros: u64, event_type: EventType) -> (r: Event)
        ensures
            r == (Event { timestamp_micros, event_type }),
    {
        Event { timestamp_micros, event_type }
    }
}

/// The events are in capture order: timestamps never decrease.
pub open spec fn chronological(s: Seq<Event>) -> bool {
    forall|i: int|
        0 < i < s.len() ==> s[i - 1].timestamp_micros <= #[trigger] s[i].timestamp_micros
}

/// The digit a high pulse of the given duration encodes.
pub open spec fn bit_of_pulse(elapsed_micros: int) -> u8 {
    if elapsed_micros > THRESHOLD_MICROS {
        1u8
    } else {
        0u8
    }
}

/// Classifies one high pulse: 1 when it lasted longer than the threshold.
pub fn bit_from_pulse(elapsed_micros: u64) -> (bit: u8)
    ensures
        bit == bit_of_pulse(elapsed_micros as int),
{
    if elapsed_micros > THRESHOLD_MICROS {
        1
    } else {
        0
    }
}

/// The direction of a change between two levels: low to high is rising,
/// any other change is falling.
pub open spec fn classify_edge(last_state: u8, new_state: u8) -> EventType {
    if last_state == LOW && new_state == HIGH {
        EventType::RisingEdge
    } else {
        EventType::FallingEdge
    }
}

/// One step of the polling loop's decision: a changed level yields an
/// event at the given time, classified by the direction of the change;
/// an unchanged level yields nothing.
pub fn transition_event(last_state: u8, new_state: u8, timestamp_micros: u64) -> (r: Option<
    Event,
>)
    ensures
        r is Some <==> new_state != last_state,
        new_state != last_state ==> r == Some(
            Event { timestamp_micros, event_type: classify_edge(last_state, new_state) },
        ),
{
    if new_state != last_state {
        let event_type = if last_state == LOW && new_state == HIGH {
            EventType::RisingEdge
        } else {
            EventType::FallingEdge
        };
        Some(Event::new(timestamp_micros, event_type))
    } else {
        None
    }
}

/// The bitstream a train of events encodes: each consecutive pair ending
/// in a falling edge contributes the digit its pulse duration picks; pairs
/// ending in a rising edge contribute nothing.
pub open spec fn bits_of_events(s: Seq<Event>) -> Seq<u8>
    decreases s.len(),
{
    if s.len() < 2 {
        Seq::empty()
    } else {
        bits_of_events(s.drop_last()) + (match s.last().event_type {
            EventType::FallingEdge => seq![
                bit_of_pulse(
                    s.last().timestamp_micros - s[s.len() - 2].timestamp_micros,
                ),
            ],
            EventType::RisingEdge => Seq::empty(),
        })
    }
}

/// Converts captured transitions, in capture order, to the digits they
/// encode.
pub fn events_to_data(events: &[Event]) -> (data: Vec<u8>)
    requires
        chronological(events@),
    ensures
        data@ == bits_of_events(events@),
{
    let mut data: Vec<u8> = Vec::new();
    let n = events.len();
    if n < 2 {
        return data;
    }
    let mut i: usize = 1;
    while i < n
        invariant
            1 <= i <= n,
            n == events@.len(),
            chronological(events@),
            data@ == bits_of_events(events@.subrange(0, i as int)),
        decreases n - i,
    {
        let prev = events[i - 1];
        let next = events[i];
        proof {
            assert(events@[i as int - 1].timestamp_micros <= events@[i as int].timestamp_micros);
        }
        match next.event_type {
            EventType::FallingEdge => {
                let elapsed = next.timestamp_micros - prev.timestamp_micros;
                let bit = bit_from_pulse(elapsed);
                data.push(bit);
            },
            EventType::RisingEdge => {},
        }
        proof {
            let longer = events@.subrange(0, i as int + 1);
            assert(longer.drop_last() =~= events@.subrange(0, i as int));
            assert(longer.last() == events@[i as int]);
            assert(longer[longer.len() - 2] == events@[i as int - 1]);
        }
        i = i + 1;
    }
    proof {
        assert(events@.subrange(0, n as int) =~= events@);
    }
    data
}

} // verus!
