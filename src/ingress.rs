//! The device ingress loop's decisions: each event from the device side
//! either yields a reading to deliver, is ignored, or ends the loop.

use vstd::prelude::*;
use crate::codec::{is_sensor_line, line_fields, parse_sensor_line_at, reading_of_fields, Reading};

verus! {

/// What the device side produced.
pub enum IngressEvent {
    /// One line of text, without its line end.
    Line(String),
    /// The stream ended or a read failed.
    Ended,
}

/// What the loop does next.
pub enum IngressAction {
    /// Publish the reading to the hub and submit it for persistence.
    Deliver(Reading),
    /// Nothing to do for this line; keep reading.
    Ignore,
    /// The connection is closed: release its attachment and end the loop.
    Stop,
}

/// Decides what to do with `event`, received at time `timestamp`.
pub fn ingress_step(event: IngressEvent, timestamp: u64) -> (r: IngressAction)
    ensures
        event is Ended ==> r is Stop,
        event matches IngressEvent::Line(l) ==> {
            &&& (r is Deliver <==> is_sensor_line(l@))
            &&& (!is_sensor_line(l@) ==> r is Ignore)
            &&& (r matches IngressAction::Deliver(rd) ==> reading_of_fields(
                rd,
                line_fields(l@),
                timestamp,
            ))
        },
{
    match event {
        IngressEvent::Ended => IngressAction::Stop,
        IngressEvent::Line(l) => match parse_sensor_line_at(l.as_str(), timestamp) {
            Some(rd) => IngressAction::Deliver(rd),
            None => IngressAction::Ignore,
        },
    }
}

} // verus!
