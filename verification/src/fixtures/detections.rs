//! Detections of the usual shapes, numbered so that they make up streams.

use vstd::prelude::*;
use vstd::string::*;

use crate::model::detection::{Detection, SensorData};
use crate::model::ids::{DetectionId, DetectorId, SubjectId, TimebaseId, TimingPointId};
use crate::model::timestamp::{SourceAttestation, TimestampingMethod};
use crate::text;

verus! {

/// The time that all fixtures count from: 2023-11-14T22:13:20 UTC, in
/// nanoseconds since the Unix epoch.
pub const FIXTURE_BASE_NS: u64 = 1_700_000_000_000_000_000;

/// When the fixture with this number happened: one every second.
pub open spec fn fixture_time(seq: u64) -> int {
    FIXTURE_BASE_NS + seq * 1_000_000_000
}

/// What all fixtures have in common: detector "loop-1" at timing point
/// "tp-start", timed by the hardware against "gps-1".
pub open spec fn fixture_shape(d: Detection, seq: u64) -> bool {
    &&& d.detection_id@ == "det-"@ + text::decimal(seq as int)
    &&& d.detector_id@ == "loop-1"@
    &&& d.timing_point_id@ == "tp-start"@
    &&& d.detected_at_ns == fixture_time(seq)
    &&& d.received_at_ns is None
    &&& d.timestamping_method == TimestampingMethod::HardwareEventCapture
    &&& d.timebase_id@ == "gps-1"@
    &&& d.source_attestation == SourceAttestation::RuntimeDiscovered
    &&& d.sequence_number == seq
}

/// A beam break without a subject.
pub open spec fn is_beam_break(d: Detection, seq: u64) -> bool {
    fixture_shape(d, seq) && d.subject_id is None && d.detected_at_uncertainty_ns is None
        && d.sensor is BeamBreak
}

/// A beam break that no subject is known of.
pub fn beam_break_at_loop(seq: u64) -> (r: Detection)
    requires
        fixture_time(seq) <= u64::MAX,
    ensures
        is_beam_break(r, seq),
{
    Detection {
        detection_id: DetectionId::from(
            "det-".to_owned().concat(text::decimal_string(seq).as_str()),
        ),
        detector_id: DetectorId::new("loop-1"),
        timing_point_id: TimingPointId::new("tp-start"),
        subject_id: None,
        detected_at_ns: FIXTURE_BASE_NS + seq * 1_000_000_000,
        detected_at_uncertainty_ns: None,
        received_at_ns: None,
        timestamping_method: TimestampingMethod::HardwareEventCapture,
        timebase_id: TimebaseId::new("gps-1"),
        source_attestation: SourceAttestation::RuntimeDiscovered,
        sequence_number: seq,
        sensor: SensorData::BeamBreak,
    }
}

/// A read of a subject, with the strength of the signal.
pub open spec fn is_loop_read(d: Detection, seq: u64, subject: u32, rssi_dbm: i16) -> bool {
    &&& fixture_shape(d, seq)
    &&& d.subject_id matches Some(id) && id@ == "subject-"@ + text::decimal(subject as int)
    &&& d.detected_at_uncertainty_ns == Some(50_000u64)
    &&& d.sensor == SensorData::LoopTransponder {
        rssi_dbm: Some(rssi_dbm),
        pulse_count: Some(3u32),
    }
}

/// A read of a subject over a loop, with the strength of the signal.
pub fn loop_read_with_rssi(seq: u64, subject: u32, rssi_dbm: i16) -> (r: Detection)
    requires
        fixture_time(seq) <= u64::MAX,
    ensures
        is_loop_read(r, seq, subject, rssi_dbm),
{
    Detection {
        detection_id: DetectionId::from(
            "det-".to_owned().concat(text::decimal_string(seq).as_str()),
        ),
        detector_id: DetectorId::new("loop-1"),
        timing_point_id: TimingPointId::new("tp-start"),
        subject_id: Some(
            SubjectId::from(
                "subject-".to_owned().concat(text::decimal_string(subject as u64).as_str()),
            ),
        ),
        detected_at_ns: FIXTURE_BASE_NS + seq * 1_000_000_000,
        detected_at_uncertainty_ns: Some(50_000),
        received_at_ns: None,
        timestamping_method: TimestampingMethod::HardwareEventCapture,
        timebase_id: TimebaseId::new("gps-1"),
        source_attestation: SourceAttestation::RuntimeDiscovered,
        sequence_number: seq,
        sensor: SensorData::LoopTransponder { rssi_dbm: Some(rssi_dbm), pulse_count: Some(3) },
    }
}

/// Fixtures with a larger number are later.
pub proof fn law_fixtures_are_monotonic(a: u64, b: u64)
    requires
        a < b,
    ensures
        fixture_time(a) < fixture_time(b),
{
}

/// A fixture has its number, and the time that many seconds behind the first one; a
/// read has its subject's number and its own strength.
pub proof fn law_fixtures_by_number(
    n: u64,
    subject: u32,
    rssi_dbm: i16,
    a: Detection,
    b: Detection,
    digits: String,
    subject_digits: String,
)
    requires
        call_ensures(beam_break_at_loop, (n,), a),
        call_ensures(loop_read_with_rssi, (n, subject, rssi_dbm), b),
        call_ensures(text::decimal_string, (n,), digits),
        call_ensures(text::decimal_string, (subject as u64,), subject_digits),
    ensures
        a.sequence_number == n && b.sequence_number == n,
        a.detected_at_ns == 1_700_000_000_000_000_000 + n * 1_000_000_000,
        b.detected_at_ns == 1_700_000_000_000_000_000 + n * 1_000_000_000,
        a.detection_id@ == "det-"@ + digits@ && b.detection_id@ == "det-"@ + digits@,
        a.subject_id is None,
        b.subject_id matches Some(id) && id@ == "subject-"@ + subject_digits@,
        a.sensor == SensorData::BeamBreak,
        b.sensor matches SensorData::LoopTransponder { rssi_dbm: r, pulse_count } && r == Some(
            rssi_dbm,
        ),
{
}

} // verus!
