use otk::contracts::adapter::{
    adapter_event_to_otk, AdapterError, AdapterEvent, AdapterState, DetectorAdapter,
};
use otk::contracts::timebase::{
    Timebase, TimebaseError, TimebaseEvent, TimebaseKind, TimebaseMetadataEvent, TimebaseState,
};
use otk::fixtures::canon;
use otk::fixtures::detections::beam_break_at_loop;
use otk::model::event::OtkEvent;
use otk::model::health::TimebaseStatusEvent;
use otk::model::ids::{DetectorId, TimebaseId, TimingPointId};
use otk::model::metadata::{AdapterCapabilities, AdapterMetadataEvent};
use otk::model::timestamp::{SourceAttestation, SyncState, TimestampingMethod};

struct MinimalDetector {
    id: DetectorId,
    state: AdapterState,
    yielded_metadata: bool,
}

impl MinimalDetector {
    fn new() -> Self {
        Self {
            id: DetectorId::new("test-detector"),
            state: AdapterState::Initializing,
            yielded_metadata: false,
        }
    }
}

impl DetectorAdapter for MinimalDetector {
    fn detector_id(&self) -> &DetectorId {
        &self.id
    }
    fn state(&self) -> AdapterState {
        self.state
    }
    fn start(&mut self) -> Result<(), AdapterError> {
        self.state = AdapterState::Running;
        Ok(())
    }
    fn stop(&mut self) -> Result<(), AdapterError> {
        self.state = AdapterState::Stopped;
        Ok(())
    }
    fn next_event(&mut self) -> Option<Result<AdapterEvent, AdapterError>> {
        if !self.yielded_metadata {
            self.yielded_metadata = true;
            return Some(Ok(AdapterEvent::Metadata(AdapterMetadataEvent {
                detector_id: self.id.clone(),
                timing_point_id: TimingPointId::new("tp-1"),
                timebase_id: TimebaseId::new("tb-1"),
                source_attestation: SourceAttestation::OperatorAsserted,
                declared_at_ns: 0,
                capabilities: AdapterCapabilities {
                    streams: vec![],
                    timestamping_method: TimestampingMethod::AdapterReceiveTime,
                    declared_resolution_ns: None,
                },
            })));
        }
        None
    }
}

#[test]
fn detector_adapter_is_dyn_safe() {
    let mut adapter: Box<dyn DetectorAdapter> = Box::new(MinimalDetector::new());
    assert_eq!(adapter.state(), AdapterState::Initializing);
    adapter.start().unwrap();
    assert_eq!(adapter.state(), AdapterState::Running);
    adapter.stop().unwrap();
    assert_eq!(adapter.state(), AdapterState::Stopped);
}

#[test]
fn detector_adapter_first_event_is_metadata() {
    let mut adapter = MinimalDetector::new();
    adapter.start().unwrap();
    let first = adapter.next_event().expect("at least one event").expect("ok");
    assert!(
        matches!(first, AdapterEvent::Metadata(_)),
        "adapter contract requires Metadata as the first event after start"
    );
}

struct MinimalTimebase {
    id: TimebaseId,
    state: TimebaseState,
    yielded_metadata: bool,
    yielded_status: bool,
}

impl MinimalTimebase {
    fn new() -> Self {
        Self {
            id: TimebaseId::new("test-tb"),
            state: TimebaseState::Initializing,
            yielded_metadata: false,
            yielded_status: false,
        }
    }
}

impl Timebase for MinimalTimebase {
    fn timebase_id(&self) -> &TimebaseId {
        &self.id
    }
    fn state(&self) -> TimebaseState {
        self.state
    }
    fn start(&mut self) -> Result<(), TimebaseError> {
        self.state = TimebaseState::Running;
        Ok(())
    }
    fn stop(&mut self) -> Result<(), TimebaseError> {
        self.state = TimebaseState::Stopped;
        Ok(())
    }
    fn next_event(&mut self) -> Option<Result<TimebaseEvent, TimebaseError>> {
        if !self.yielded_metadata {
            self.yielded_metadata = true;
            return Some(Ok(TimebaseEvent::Metadata(TimebaseMetadataEvent {
                timebase_id: self.id.clone(),
                kind: TimebaseKind::Local,
                declared_uncertainty_ns: Some(1_000_000),
                source_attestation: SourceAttestation::OperatorAsserted,
                declared_at_ns: 0,
            })));
        }
        if !self.yielded_status {
            self.yielded_status = true;
            return Some(Ok(TimebaseEvent::Status(TimebaseStatusEvent {
                timebase_id: self.id.clone(),
                reported_at_ns: 0,
                sync_state: SyncState::Locked,
                uncertainty_ns: None,
                source_attestation: SourceAttestation::OperatorAsserted,
            })));
        }
        None
    }
}

#[test]
fn timebase_is_dyn_safe() {
    let mut tb: Box<dyn Timebase> = Box::new(MinimalTimebase::new());
    assert_eq!(tb.state(), TimebaseState::Initializing);
    tb.start().unwrap();
    assert_eq!(tb.state(), TimebaseState::Running);
    tb.stop().unwrap();
    assert_eq!(tb.state(), TimebaseState::Stopped);
}

#[test]
fn timebase_first_event_is_metadata() {
    let mut tb = MinimalTimebase::new();
    tb.start().unwrap();
    let first = tb.next_event().expect("at least one event").expect("ok");
    assert!(
        matches!(first, TimebaseEvent::Metadata(_)),
        "timebase contract requires Metadata as the first event after start"
    );
}

#[test]
fn adapter_events_become_otk_events() {
    let d = beam_break_at_loop(1);
    assert!(matches!(
        adapter_event_to_otk(AdapterEvent::Detection(d.clone())),
        OtkEvent::Detection(x) if x == d
    ));
    let health = match canon::detector_health_healthy() {
        OtkEvent::DetectorHealth(h) => h,
        other => panic!("unexpected {other:?}"),
    };
    assert!(matches!(
        adapter_event_to_otk(AdapterEvent::Health(health)),
        OtkEvent::DetectorHealth(_)
    ));
    let metadata = match canon::adapter_metadata() {
        OtkEvent::AdapterMetadata(m) => m,
        other => panic!("unexpected {other:?}"),
    };
    assert!(matches!(
        adapter_event_to_otk(AdapterEvent::Metadata(metadata)),
        OtkEvent::AdapterMetadata(_)
    ));
}

#[test]
fn contract_errors_have_their_sentences() {
    assert_eq!(
        AdapterError::DeviceNotFound("tty0".to_string()).message(),
        "device not found: tty0"
    );
    assert_eq!(AdapterError::DeviceDisconnected.message(), "device disconnected");
    assert_eq!(
        AdapterError::Configuration("no baud rate".to_string()).message(),
        "configuration error: no baud rate"
    );
    assert_eq!(AdapterError::Io("broken".to_string()).message(), "I/O error: broken");
    assert_eq!(
        TimebaseError::DeviceNotFound("gps0".to_string()).message(),
        "device not found: gps0"
    );
    assert_eq!(TimebaseError::DeviceDisconnected.message(), "device disconnected");
    assert_eq!(
        TimebaseError::Configuration("x".to_string()).message(),
        "configuration error: x"
    );
    assert_eq!(TimebaseError::Io("y".to_string()).message(), "I/O error: y");
}
