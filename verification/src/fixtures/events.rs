//! Fixtures as events.

use vstd::prelude::*;

use crate::fixtures::detections;
use crate::fixtures::detections::{beam_break_at_loop, loop_read_with_rssi};
use crate::model::detection::Detection;
use crate::model::event::OtkEvent;

verus! {

/// The event of a detection.
pub fn as_detection_event(d: Detection) -> (r: OtkEvent)
    ensures
        r == OtkEvent::Detection(d),
{
    OtkEvent::Detection(d)
}

/// The event of a beam break.
pub fn beam_break_event(seq: u64) -> (r: OtkEvent)
    requires
        detections::fixture_time(seq) <= u64::MAX,
    ensures
        r matches OtkEvent::Detection(d) && detections::is_beam_break(d, seq),
{
    as_detection_event(beam_break_at_loop(seq))
}

/// The event of a read of a subject over a loop.
pub fn loop_transponder_event(seq: u64, bib: u32, rssi_dbm: i16) -> (r: OtkEvent)
    requires
        detections::fixture_time(seq) <= u64::MAX,
    ensures
        r matches OtkEvent::Detection(d) && detections::is_loop_read(d, seq, bib, rssi_dbm),
{
    as_detection_event(loop_read_with_rssi(seq, bib, rssi_dbm))
}

} // verus!
