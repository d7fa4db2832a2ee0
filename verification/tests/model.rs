use otk::codec::DecodeFault;
use otk::model::detection::{Detection, SensorData};
use otk::model::event::OtkEvent;
use otk::model::ids::{
    DetectionId, DetectorId, OperatorId, StreamId, TimebaseId, TimingPointId,
};
use otk::model::stream::{StreamDescriptor, StreamKind};
use otk::model::timestamp::{SourceAttestation, TimestampingMethod};
use otk::fixtures::canon;
use otk::wire::{decode, to_vec};

fn base_detection(sensor: SensorData) -> Detection {
    Detection {
        detection_id: DetectionId::new("det-1"),
        detector_id: DetectorId::new("loop-a"),
        timing_point_id: TimingPointId::new("tp-finish"),
        subject_id: None,
        detected_at_ns: 1_700_000_000_000_000_000,
        detected_at_uncertainty_ns: Some(500),
        received_at_ns: None,
        timestamping_method: TimestampingMethod::HardwareEventCapture,
        timebase_id: TimebaseId::new("ptp-gm-1"),
        source_attestation: SourceAttestation::RuntimeDiscovered,
        sequence_number: 42,
        sensor,
    }
}

fn cbor_round_trip(d: &Detection) -> Detection {
    let encoded = to_vec(d);
    decode(&encoded).expect("decode failed")
}

#[test]
fn round_trip_loop_transponder() {
    let d = base_detection(SensorData::LoopTransponder {
        rssi_dbm: Some(-72),
        pulse_count: Some(3),
    });
    assert_eq!(d, cbor_round_trip(&d));
}

#[test]
fn round_trip_beam_break() {
    let d = base_detection(SensorData::BeamBreak);
    assert_eq!(d, cbor_round_trip(&d));
}

#[test]
fn round_trip_manual() {
    let d = base_detection(SensorData::Manual {
        operator_id: Some(OperatorId::new("alice")),
    });
    assert_eq!(d, cbor_round_trip(&d));
}

#[test]
fn accessors_return_correct_values() {
    let d = base_detection(SensorData::BeamBreak);
    assert_eq!(d.detector_id().as_str(), "loop-a");
    assert_eq!(d.timing_point_id().as_str(), "tp-finish");
    assert_eq!(d.detected_at_ns(), 1_700_000_000_000_000_000);
    assert_eq!(d.timestamping_method(), TimestampingMethod::HardwareEventCapture);
    assert_eq!(d.sequence_number(), 42);
}

fn round_trip(sd: &StreamDescriptor) -> StreamDescriptor {
    let encoded = to_vec(sd);
    decode(&encoded).expect("decode failed")
}

#[test]
fn stream_descriptor_round_trip_all_some() {
    let sd = StreamDescriptor {
        stream_id: StreamId::new("loop-a/detections"),
        kind: StreamKind::Detections,
        detector_id: Some(DetectorId::new("loop-a")),
        timing_point_id: Some(TimingPointId::new("tp-finish")),
    };
    assert_eq!(sd, round_trip(&sd));
}

#[test]
fn stream_descriptor_round_trip_none_optionals() {
    // Processed streams have no single detector_id.
    let sd = StreamDescriptor {
        stream_id: StreamId::new("tp-finish/processed"),
        kind: StreamKind::Processed,
        detector_id: None,
        timing_point_id: Some(TimingPointId::new("tp-finish")),
    };
    assert_eq!(sd, round_trip(&sd));
}

#[test]
fn stream_kind_round_trips_all_variants() {
    for kind in [StreamKind::Raw, StreamKind::Detections, StreamKind::Processed] {
        let encoded = to_vec(&kind);
        let decoded: StreamKind = decode(&encoded).expect("decode failed");
        assert_eq!(kind, decoded);
    }
}

fn roundtrip(event: &OtkEvent) {
    let bytes = to_vec(event);
    let decoded: OtkEvent = decode(&bytes).expect("decode");
    let re_encoded = to_vec(&decoded);
    assert_eq!(bytes, re_encoded, "CBOR is not stable across re-encode");
    assert_eq!(format!("{event:?}"), format!("{decoded:?}"));
}

#[test]
fn detection_loop_transponder_roundtrip() {
    roundtrip(&canon::detection_loop_transponder());
}

#[test]
fn detection_beam_break_roundtrip() {
    roundtrip(&canon::detection_beam_break());
}

#[test]
fn detector_health_healthy_roundtrip() {
    roundtrip(&canon::detector_health_healthy());
}

#[test]
fn detector_health_degraded_roundtrip() {
    roundtrip(&canon::detector_health_degraded());
}

#[test]
fn timebase_status_roundtrip_every_sync_state() {
    for event in canon::timebase_status_all_states() {
        roundtrip(&event);
    }
}

#[test]
fn adapter_metadata_roundtrip() {
    roundtrip(&canon::adapter_metadata());
}

#[test]
fn crossing_roundtrip() {
    roundtrip(&canon::crossing());
}

#[test]
fn one_of_each_variant_roundtrip() {
    for event in canon::one_of_each_variant() {
        roundtrip(&event);
    }
}

#[test]
fn stream_kind_has_its_bytes() {
    // A choice is an array of the variant's number and of its fields.
    assert_eq!(to_vec(&StreamKind::Processed), vec![0x82, 0x02, 0x80]);
}

#[test]
fn descriptor_has_its_bytes() {
    let sd = StreamDescriptor {
        stream_id: StreamId::new("s"),
        kind: StreamKind::Raw,
        detector_id: None,
        timing_point_id: None,
    };
    // Optional fields at the end are left out.
    assert_eq!(to_vec(&sd), vec![0x82, 0x61, b's', 0x82, 0x00, 0x80]);
}

#[test]
fn descriptor_keeps_the_place_of_a_missing_field() {
    let sd = StreamDescriptor {
        stream_id: StreamId::new("s"),
        kind: StreamKind::Raw,
        detector_id: None,
        timing_point_id: Some(TimingPointId::new("t")),
    };
    assert_eq!(
        to_vec(&sd),
        vec![0x84, 0x61, b's', 0x82, 0x00, 0x80, 0xf6, 0x61, b't']
    );
    assert_eq!(sd, round_trip(&sd));
}

#[test]
fn fields_from_the_future_are_passed_over() {
    // One field more than the descriptor has: an array with a map in it.
    let mut bytes = vec![0x85, 0x61, b's', 0x82, 0x01, 0x80, 0xf6, 0xf6];
    bytes.extend_from_slice(&[0x81, 0xa1, 0x01, 0x02]);
    let sd: StreamDescriptor = decode(&bytes).expect("decode");
    assert_eq!(sd.stream_id.as_str(), "s");
    assert_eq!(sd.kind, StreamKind::Detections);
}

#[test]
fn numbers_in_long_form_are_read() {
    // The number 1 in eight bytes.
    let bytes = vec![0x82, 0x1b, 0, 0, 0, 0, 0, 0, 0, 1, 0x80];
    let kind: StreamKind = decode(&bytes).expect("decode");
    assert_eq!(kind, StreamKind::Detections);
}

#[test]
fn damaged_values_are_refused() {
    assert!(matches!(
        decode::<StreamKind>(&[0x82, 0x07, 0x80]),
        Err(DecodeFault::UnknownVariant(7, 1))
    ));
    assert!(matches!(decode::<StreamKind>(&[0x83, 0x00, 0x80, 0x00]), Err(DecodeFault::NotAChoice(0))));
    assert!(matches!(decode::<StreamKind>(&[0x82, 0x01]), Err(DecodeFault::Malformed(2))));
    assert!(matches!(decode::<StreamDescriptor>(&[0x81, 0x61, b's']), Err(DecodeFault::MissingValue(1))));
    assert!(matches!(decode::<StreamDescriptor>(&[]), Err(DecodeFault::Malformed(0))));
}

#[test]
fn negative_signal_strengths_keep_their_sign() {
    for dbm in [i16::MIN, -256, -25, -24, -1, 0, 23, 24, 255, 256, i16::MAX] {
        let d = base_detection(SensorData::LoopTransponder {
            rssi_dbm: Some(dbm),
            pulse_count: None,
        });
        assert_eq!(d, cbor_round_trip(&d));
    }
}

#[test]
fn large_counts_keep_their_value() {
    for n in [0u64, 23, 24, 255, 256, 65_535, 65_536, 4_294_967_295, 4_294_967_296, u64::MAX] {
        let mut d = base_detection(SensorData::BeamBreak);
        d.sequence_number = n;
        assert_eq!(d, cbor_round_trip(&d));
    }
}

#[test]
fn long_texts_keep_their_characters() {
    let mut d = base_detection(SensorData::BeamBreak);
    d.detection_id = DetectionId::new(&"zw\u{f6}lf \u{1f3c1} ".repeat(50));
    assert_eq!(d, cbor_round_trip(&d));
}

#[test]
fn decode_faults_say_where_they_are() {
    let message = |bytes: &[u8]| decode::<StreamDescriptor>(bytes).unwrap_err().message();
    assert_eq!(message(&[]), "malformed CBOR item at position 0");
    assert_eq!(message(&[0x84, 0x61, b's', 0x61]), "malformed CBOR item at position 3");
    assert_eq!(
        message(&[0x84, 0x61, b's', 0x82, 0x18, 0x63, 0x80]),
        "unknown enum variant 99 at position 4"
    );
    assert_eq!(
        message(&[0x84, 0x61, b's', 0x81, 0x00]),
        "decode error at position 3: expected enum (2-element array)"
    );
    assert_eq!(message(&[0x81, 0x61, b's']), "missing value at index 1");
}
