//! One example of each kind of event. The values are deliberately diverse, so
//! that an encoding that loses a variant or an optional field is found out.

use vstd::prelude::*;

use crate::model::crossing::CrossingEvent;
use crate::model::detection::{Detection, SensorData};
use crate::model::event::OtkEvent;
use crate::model::health::{DetectorHealthEvent, DetectorHealthStatus, TimebaseStatusEvent};
use crate::model::ids::{
    CrossingId, DetectionId, DetectorId, StreamId, SubjectId, TimebaseId, TimingPointId,
};
use crate::model::metadata::{AdapterCapabilities, AdapterMetadataEvent};
use crate::model::stream::{StreamDescriptor, StreamKind};
use crate::model::timestamp::{SourceAttestation, SyncState, TimestampingMethod};

verus! {

/// A read over a loop that leaves nothing out.
pub open spec fn is_detection_loop_transponder(e: OtkEvent) -> bool {
    &&& e matches OtkEvent::Detection(d)
    &&& d.detection_id@ == "det-1"@
    &&& d.detector_id@ == "loop-1"@
    &&& d.timing_point_id@ == "tp-start"@
    &&& d.subject_id matches Some(id) && id@ == "bib-42"@
    &&& d.detected_at_ns == 1_700_000_000_000_000_000
    &&& d.detected_at_uncertainty_ns == Some(50_000u64)
    &&& d.received_at_ns == Some(1_700_000_000_000_000_100u64)
    &&& d.timestamping_method == TimestampingMethod::HardwareEventCapture
    &&& d.timebase_id@ == "gps-1"@
    &&& d.source_attestation == SourceAttestation::RuntimeDiscovered
    &&& d.sequence_number == 1
    &&& d.sensor == SensorData::LoopTransponder { rssi_dbm: Some(-60i16), pulse_count: Some(3u32) }
}

/// A read over a loop that leaves nothing out.
pub fn detection_loop_transponder() -> (r: OtkEvent)
    ensures
        is_detection_loop_transponder(r),
{
    OtkEvent::Detection(
        Detection {
            detection_id: DetectionId::new("det-1"),
            detector_id: DetectorId::new("loop-1"),
            timing_point_id: TimingPointId::new("tp-start"),
            subject_id: Some(SubjectId::new("bib-42")),
            detected_at_ns: 1_700_000_000_000_000_000,
            detected_at_uncertainty_ns: Some(50_000),
            received_at_ns: Some(1_700_000_000_000_000_100),
            timestamping_method: TimestampingMethod::HardwareEventCapture,
            timebase_id: TimebaseId::new("gps-1"),
            source_attestation: SourceAttestation::RuntimeDiscovered,
            sequence_number: 1,
            sensor: SensorData::LoopTransponder { rssi_dbm: Some(-60), pulse_count: Some(3) },
        },
    )
}

/// A beam break that leaves out what it can.
pub open spec fn is_detection_beam_break(e: OtkEvent) -> bool {
    &&& e matches OtkEvent::Detection(d)
    &&& d.detection_id@ == "det-2"@
    &&& d.detector_id@ == "beam-1"@
    &&& d.timing_point_id@ == "tp-mid"@
    &&& d.subject_id is None
    &&& d.detected_at_ns == 1_700_000_000_500_000_000
    &&& d.detected_at_uncertainty_ns is None
    &&& d.received_at_ns is None
    &&& d.timestamping_method == TimestampingMethod::FirmwareTimerRead
    &&& d.timebase_id@ == "ptp-gm-1"@
    &&& d.source_attestation == SourceAttestation::OperatorAsserted
    &&& d.sequence_number == 7
    &&& d.sensor is BeamBreak
}

/// A beam break that leaves out what it can.
pub fn detection_beam_break() -> (r: OtkEvent)
    ensures
        is_detection_beam_break(r),
{
    OtkEvent::Detection(
        Detection {
            detection_id: DetectionId::new("det-2"),
            detector_id: DetectorId::new("beam-1"),
            timing_point_id: TimingPointId::new("tp-mid"),
            subject_id: None,
            detected_at_ns: 1_700_000_000_500_000_000,
            detected_at_uncertainty_ns: None,
            received_at_ns: None,
            timestamping_method: TimestampingMethod::FirmwareTimerRead,
            timebase_id: TimebaseId::new("ptp-gm-1"),
            source_attestation: SourceAttestation::OperatorAsserted,
            sequence_number: 7,
            sensor: SensorData::BeamBreak,
        },
    )
}

/// A detector that works.
pub open spec fn is_detector_health_healthy(e: OtkEvent) -> bool {
    &&& e matches OtkEvent::DetectorHealth(h)
    &&& h.detector_id@ == "loop-1"@
    &&& h.reported_at_ns == 1_700_000_000_000_000_000
    &&& h.status is Healthy
    &&& h.message matches Some(m) && m@ == "ok"@
}

/// A detector that works, with a remark.
pub fn detector_health_healthy() -> (r: OtkEvent)
    ensures
        is_detector_health_healthy(r),
{
    OtkEvent::DetectorHealth(
        DetectorHealthEvent {
            detector_id: DetectorId::new("loop-1"),
            reported_at_ns: 1_700_000_000_000_000_000,
            status: DetectorHealthStatus::Healthy,
            message: Some("ok".to_owned()),
        },
    )
}

/// A detector that works, with a limitation.
pub open spec fn is_detector_health_degraded(e: OtkEvent) -> bool {
    &&& e matches OtkEvent::DetectorHealth(h)
    &&& h.detector_id@ == "loop-1"@
    &&& h.reported_at_ns == 1_700_000_000_000_000_000
    &&& h.status matches DetectorHealthStatus::Degraded { reason } && reason@ == "low SNR"@
    &&& h.message is None
}

/// A detector that works with a limitation, without a remark.
pub fn detector_health_degraded() -> (r: OtkEvent)
    ensures
        is_detector_health_degraded(r),
{
    OtkEvent::DetectorHealth(
        DetectorHealthEvent {
            detector_id: DetectorId::new("loop-1"),
            reported_at_ns: 1_700_000_000_000_000_000,
            status: DetectorHealthStatus::Degraded { reason: "low SNR".to_owned() },
            message: None,
        },
    )
}

/// A timebase in a given state.
pub open spec fn is_timebase_status(e: OtkEvent, state: SyncState) -> bool {
    &&& e matches OtkEvent::TimebaseStatus(t)
    &&& t.timebase_id@ == "gps-1"@
    &&& t.reported_at_ns == 1_700_000_000_000_000_000
    &&& t.sync_state == state
    &&& t.uncertainty_ns == Some(1_000u64)
    &&& t.source_attestation == SourceAttestation::RuntimeDiscovered
}

/// A timebase in the given state.
pub fn timebase_status(state: SyncState) -> (r: OtkEvent)
    ensures
        is_timebase_status(r, state),
{
    OtkEvent::TimebaseStatus(
        TimebaseStatusEvent {
            timebase_id: TimebaseId::new("gps-1"),
            reported_at_ns: 1_700_000_000_000_000_000,
            sync_state: state,
            uncertainty_ns: Some(1_000),
            source_attestation: SourceAttestation::RuntimeDiscovered,
        },
    )
}

/// A timebase in every state.
pub fn timebase_status_all_states() -> (r: [OtkEvent; 5])
    ensures
        is_timebase_status(r@[0], SyncState::Locked),
        is_timebase_status(r@[1], SyncState::Holdover),
        is_timebase_status(r@[2], SyncState::FreeRun),
        is_timebase_status(r@[3], SyncState::Unsynchronized),
        is_timebase_status(r@[4], SyncState::Unknown),
{
    [
        timebase_status(SyncState::Locked),
        timebase_status(SyncState::Holdover),
        timebase_status(SyncState::FreeRun),
        timebase_status(SyncState::Unsynchronized),
        timebase_status(SyncState::Unknown),
    ]
}

/// An adapter that introduces itself with a single stream.
pub open spec fn is_adapter_metadata(e: OtkEvent) -> bool {
    &&& e matches OtkEvent::AdapterMetadata(a)
    &&& a.detector_id@ == "loop-1"@
    &&& a.timing_point_id@ == "tp-start"@
    &&& a.timebase_id@ == "gps-1"@
    &&& a.source_attestation == SourceAttestation::RuntimeDiscovered
    &&& a.declared_at_ns == 1_700_000_000_000_000_000
    &&& a.capabilities.timestamping_method == TimestampingMethod::HardwareEventCapture
    &&& a.capabilities.declared_resolution_ns == Some(1u64)
    &&& a.capabilities.streams@.len() == 1
    &&& ({
        let s = a.capabilities.streams@[0];
        &&& s.stream_id@ == "loop-1/detections"@
        &&& s.kind == StreamKind::Detections
        &&& s.detector_id matches Some(id) && id@ == "loop-1"@
        &&& s.timing_point_id matches Some(id) && id@ == "tp-start"@
    })
}

/// An adapter that introduces itself with a single stream.
pub fn adapter_metadata() -> (r: OtkEvent)
    ensures
        is_adapter_metadata(r),
{
    let mut streams: Vec<StreamDescriptor> = Vec::new();
    streams.push(
        StreamDescriptor {
            stream_id: StreamId::new("loop-1/detections"),
            kind: StreamKind::Detections,
            detector_id: Some(DetectorId::new("loop-1")),
            timing_point_id: Some(TimingPointId::new("tp-start")),
        },
    );
    OtkEvent::AdapterMetadata(
        AdapterMetadataEvent {
            detector_id: DetectorId::new("loop-1"),
            timing_point_id: TimingPointId::new("tp-start"),
            timebase_id: TimebaseId::new("gps-1"),
            source_attestation: SourceAttestation::RuntimeDiscovered,
            declared_at_ns: 1_700_000_000_000_000_000,
            capabilities: AdapterCapabilities {
                streams,
                timestamping_method: TimestampingMethod::HardwareEventCapture,
                declared_resolution_ns: Some(1),
            },
        },
    )
}

/// A crossing put together from two detections.
pub open spec fn is_crossing(e: OtkEvent) -> bool {
    &&& e matches OtkEvent::Crossing(c)
    &&& c.crossing_id@ == "c-1"@
    &&& c.timing_point_id@ == "tp-start"@
    &&& c.subject_id matches Some(id) && id@ == "bib-42"@
    &&& c.crossed_at_ns == 1_700_000_000_000_000_000
    &&& c.crossed_at_uncertainty_ns == Some(100u64)
    &&& c.timebase_id@ == "gps-1"@
    &&& c.timestamping_method == TimestampingMethod::HardwareEventCapture
    &&& c.source_attestation == SourceAttestation::RuntimeDiscovered
    &&& c.detection_ids@.len() == 2
    &&& c.detection_ids@[0]@ == "det-1"@
    &&& c.detection_ids@[1]@ == "det-2"@
}

/// A crossing put together from two detections.
pub fn crossing() -> (r: OtkEvent)
    ensures
        is_crossing(r),
{
    let mut detection_ids: Vec<DetectionId> = Vec::new();
    detection_ids.push(DetectionId::new("det-1"));
    detection_ids.push(DetectionId::new("det-2"));
    OtkEvent::Crossing(
        CrossingEvent {
            crossing_id: CrossingId::new("c-1"),
            timing_point_id: TimingPointId::new("tp-start"),
            subject_id: Some(SubjectId::new("bib-42")),
            crossed_at_ns: 1_700_000_000_000_000_000,
            crossed_at_uncertainty_ns: Some(100),
            timebase_id: TimebaseId::new("gps-1"),
            timestamping_method: TimestampingMethod::HardwareEventCapture,
            source_attestation: SourceAttestation::RuntimeDiscovered,
            detection_ids,
        },
    )
}

/// An example of every kind of event.
pub fn one_of_each_variant() -> (r: Vec<OtkEvent>)
    ensures
        r@.len() == 7,
        is_detection_loop_transponder(r@[0]),
        is_detection_beam_break(r@[1]),
        is_detector_health_healthy(r@[2]),
        is_detector_health_degraded(r@[3]),
        is_timebase_status(r@[4], SyncState::Locked),
        is_adapter_metadata(r@[5]),
        is_crossing(r@[6]),
{
    let mut all: Vec<OtkEvent> = Vec::new();
    all.push(detection_loop_transponder());
    all.push(detection_beam_break());
    all.push(detector_health_healthy());
    all.push(detector_health_degraded());
    all.push(timebase_status(SyncState::Locked));
    all.push(adapter_metadata());
    all.push(crossing());
    all
}

} // verus!
