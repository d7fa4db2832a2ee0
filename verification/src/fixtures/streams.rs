//! Streams of detections.

use vstd::prelude::*;

use crate::fixtures::detections;
use crate::fixtures::detections::beam_break_at_loop;
use crate::model::detection::Detection;

verus! {

/// Everything as it should be: beam breaks with the numbers from 1 to `len`.
pub fn single_detector_happy_path(len: u64) -> (r: Vec<Detection>)
    requires
        len <= usize::MAX,
        detections::fixture_time(len) <= u64::MAX,
    ensures
        r@.len() == len,
        forall|i: int| 0 <= i < len ==> detections::is_beam_break(#[trigger] r@[i], (i + 1) as u64),
{
    let mut out: Vec<Detection> = Vec::new();
    let mut seq: u64 = 0;
    while seq < len
        invariant
            seq <= len,
            detections::fixture_time(len) <= u64::MAX,
            out@.len() == seq,
            forall|i: int|
                0 <= i < seq ==> detections::is_beam_break(#[trigger] out@[i], (i + 1) as u64),
        decreases len - seq,
    {
        seq = seq + 1;
        out.push(beam_break_at_loop(seq));
    }
    out
}

/// A producer that reconnects and sends its last detection once more: the
/// numbers 1, 2, 3, and then 3, 4.
pub fn reconnect_with_replay() -> (r: Vec<Detection>)
    ensures
        r@.len() == 5,
        detections::is_beam_break(r@[0], 1),
        detections::is_beam_break(r@[1], 2),
        detections::is_beam_break(r@[2], 3),
        detections::is_beam_break(r@[3], 3),
        detections::is_beam_break(r@[4], 4),
{
    let mut out: Vec<Detection> = Vec::new();
    out.push(beam_break_at_loop(1));
    out.push(beam_break_at_loop(2));
    out.push(beam_break_at_loop(3));
    out.push(beam_break_at_loop(3));
    out.push(beam_break_at_loop(4));
    out
}

} // verus!
