use otk::fixtures::detections::{beam_break_at_loop, loop_read_with_rssi, FIXTURE_BASE_NS};
use otk::fixtures::envelopes::{connect, connect_with_token, data};
use otk::fixtures::events::{as_detection_event, beam_break_event, loop_transponder_event};
use otk::fixtures::streams::{reconnect_with_replay, single_detector_happy_path};
use otk::model::detection::SensorData;
use otk::model::event::OtkEvent;
use otk::protocol::envelope::MessageType;
use otk::protocol::messages::Connect;
use otk::protocol::PROTOCOL_VERSION;
use otk::wire::decode;

#[test]
fn beam_break_sequence_monotonic() {
    let a = beam_break_at_loop(0);
    let b = beam_break_at_loop(1);
    assert_eq!(a.sequence_number, 0);
    assert_eq!(b.sequence_number, 1);
    assert!(b.detected_at_ns > a.detected_at_ns);
}

#[test]
fn loop_read_carries_subject_and_rssi() {
    let d = loop_read_with_rssi(7, 42, -55);
    assert_eq!(d.subject_id.as_ref().unwrap().as_str(), "subject-42");
    match d.sensor {
        SensorData::LoopTransponder {
            rssi_dbm: Some(r), ..
        } => assert_eq!(r, -55),
        other => panic!("expected LoopTransponder with rssi, got {other:?}"),
    }
}

#[test]
fn connect_envelope_has_no_token_by_default() {
    let env = connect("p-1", 0, PROTOCOL_VERSION);
    let connect: Connect = decode(env.payload.as_deref().unwrap()).unwrap();
    assert!(connect.auth_token.is_none());
    assert_eq!(env.message_type, MessageType::Connect);
    assert_eq!(env.protocol_version, PROTOCOL_VERSION);
}

#[test]
fn connect_with_token_carries_token() {
    let env = connect_with_token("p-1", 0, PROTOCOL_VERSION, "shh");
    let connect: Connect = decode(env.payload.as_deref().unwrap()).unwrap();
    assert_eq!(connect.auth_token.as_deref(), Some("shh"));
}

#[test]
fn data_envelope_carries_message_type_and_payload() {
    let env = data("p-1", MessageType::Heartbeat, None);
    assert_eq!(env.message_type, MessageType::Heartbeat);
    assert!(env.payload.is_none());

    let env = data("p-1", MessageType::Event, Some(vec![0x42]));
    assert_eq!(env.payload.as_deref(), Some(&[0x42_u8][..]));
}

#[test]
fn happy_path_length_matches_request() {
    let stream = single_detector_happy_path(5);
    assert_eq!(stream.len(), 5);
    assert_eq!(stream[0].sequence_number, 1);
    assert_eq!(stream[4].sequence_number, 5);
}

#[test]
fn reconnect_carries_a_duplicate() {
    let stream = reconnect_with_replay();
    let seqs: Vec<u64> = stream.iter().map(|d| d.sequence_number).collect();
    assert_eq!(seqs, vec![1, 2, 3, 3, 4]);
}

#[test]
fn beam_break_has_its_values() {
    let d = beam_break_at_loop(1234);
    assert_eq!(d.detection_id.as_str(), "det-1234");
    assert_eq!(d.detected_at_ns, FIXTURE_BASE_NS + 1_234_000_000_000);
    assert_eq!(d.detector_id.as_str(), "loop-1");
    assert_eq!(d.timing_point_id.as_str(), "tp-start");
    assert_eq!(d.timebase_id.as_str(), "gps-1");
    assert!(d.subject_id.is_none());
}

#[test]
fn events_wrap_their_detections() {
    let d = beam_break_at_loop(3);
    assert!(matches!(as_detection_event(d.clone()), OtkEvent::Detection(x) if x == d));
    assert!(matches!(beam_break_event(3), OtkEvent::Detection(x) if x == d));
    let r = loop_read_with_rssi(3, 9, -1);
    assert!(matches!(loop_transponder_event(3, 9, -1), OtkEvent::Detection(x) if x == r));
}

#[test]
fn connect_offers_its_versions() {
    let env = connect("p-1", 2, 7);
    assert_eq!(env.protocol_version, 7);
    assert_eq!(env.source_id.as_str(), "p-1");
    let c: Connect = decode(env.payload.as_deref().unwrap()).unwrap();
    assert_eq!((c.protocol_version_min, c.protocol_version_max), (2, 7));
    assert!(c.streams.is_empty());
}
