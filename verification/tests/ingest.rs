use otk::fixtures::envelopes;
use otk::fixtures::events::beam_break_event;
use otk::frame::stream::{encode_stream, StreamFrameDecoder};
use otk::ingest::config::{ConfigError, TcpIngestConfig, UnixSocketIngestConfig, DEFAULT_MAX_FRAME_BYTES};
use otk::ingest::error::{HandshakeError, ProtocolError};
use otk::ingest::handshake::{
    answer, handshake_with_server_version, perform_server_handshake,
    perform_server_handshake_with_auth, AllowAll, ConnectAuthoriser, HandshakeOutcome,
};
use otk::ingest::processor::{InboundAction, PostHandshakeProcessor};
use otk::ingest::session::{ConnectPhase, ConnectStep, IncomingEvent, IngestError, Session, SessionStep};
use otk::model::detection::{Detection, SensorData};
use otk::model::event::OtkEvent;
use otk::model::ids::{
    CorrelationId, DetectionId, DetectorId, ProducerId, TimebaseId, TimingPointId,
};
use otk::model::timestamp::{SourceAttestation, TimestampingMethod};
use otk::protocol::envelope::{MessageType, OtkEnvelope};
use otk::protocol::messages::{Connect, ConnectAck, ConnectReject, ConnectRejectReason, Heartbeat};
use otk::protocol::PROTOCOL_VERSION;
use otk::wire::{decode, to_vec};

// Handshake

fn connect_envelope(min: u8, max: u8, producer_id: &str) -> OtkEnvelope {
    let connect = Connect {
        protocol_version_min: min,
        protocol_version_max: max,
        streams: vec![],
        auth_token: None,
    };
    OtkEnvelope {
        protocol_version: max,
        message_type: MessageType::Connect,
        source_id: ProducerId::from(producer_id),
        stream_id: None,
        sequence_number: None,
        correlation_id: None,
        payload: Some(to_vec(&connect)),
        traceparent: None,
    }
}

#[test]
fn accepts_version_in_range() {
    let env = connect_envelope(0, u8::MAX, "p-1");
    match perform_server_handshake(env).unwrap() {
        HandshakeOutcome::Accepted { reply, processor: _ } => {
            assert_eq!(reply.message_type, MessageType::ConnectAck);
            let ack: ConnectAck = decode(reply.payload.as_deref().unwrap()).unwrap();
            assert_eq!(ack.negotiated_version, PROTOCOL_VERSION);
        }
        HandshakeOutcome::Rejected { .. } => panic!("expected Accepted"),
    }
}

#[test]
fn rejects_version_out_of_range() {
    // Producer requires v99..v99; server is PROTOCOL_VERSION (0); no overlap.
    let env = connect_envelope(99, 99, "p-1");
    match perform_server_handshake(env).unwrap() {
        HandshakeOutcome::Rejected { reply, reason } => {
            assert!(matches!(reason, ConnectRejectReason::VersionNotSupported));
            assert_eq!(reply.message_type, MessageType::ConnectReject);
        }
        HandshakeOutcome::Accepted { .. } => panic!("expected Rejected"),
    }
}

#[test]
fn errors_when_first_envelope_is_not_connect() {
    let env = OtkEnvelope {
        protocol_version: PROTOCOL_VERSION,
        message_type: MessageType::Heartbeat,
        source_id: ProducerId::from("p-1"),
        stream_id: None,
        sequence_number: None,
        correlation_id: None,
        payload: None,
        traceparent: None,
    };
    let err = perform_server_handshake(env).expect_err("must error");
    assert!(matches!(err, HandshakeError::UnexpectedMessageType(_)));
}

#[test]
fn connect_without_payload_is_an_error() {
    let mut env = connect_envelope(0, 0, "p-1");
    env.payload = None;
    let err = perform_server_handshake(env).expect_err("must error");
    assert_eq!(err, HandshakeError::MissingConnectPayload);
    assert_eq!(err.message(), "Connect envelope had no payload");
}

#[test]
fn connect_with_damaged_payload_is_an_error() {
    let mut env = connect_envelope(0, 0, "p-1");
    env.payload = Some(vec![0xff]);
    assert!(matches!(
        perform_server_handshake(env),
        Err(HandshakeError::DecodeFailed(_))
    ));
}

#[test]
fn handshake_goes_by_the_server_version() {
    for (min, max, accepted) in [(0, 2, false), (3, 3, true), (2, 9, true), (4, 9, false)] {
        let outcome = handshake_with_server_version(connect_envelope(min, max, "p-1"), 3).unwrap();
        assert_eq!(matches!(outcome, HandshakeOutcome::Accepted { .. }), accepted);
    }
    match handshake_with_server_version(connect_envelope(3, 3, "p-1"), 3).unwrap() {
        HandshakeOutcome::Accepted { reply, processor } => {
            assert_eq!(reply.protocol_version, 3);
            assert_eq!(processor.negotiated_version(), 3);
            assert_eq!(processor.producer_id().as_str(), "p-1");
        }
        HandshakeOutcome::Rejected { .. } => panic!("expected Accepted"),
    }
}

#[test]
fn replies_echo_the_correlation_id() {
    let mut env = connect_envelope(0, 0, "p-1");
    env.correlation_id = Some(CorrelationId::new("c-7"));
    match perform_server_handshake(env.clone()).unwrap() {
        HandshakeOutcome::Accepted { reply, .. } => {
            assert_eq!(reply.correlation_id.unwrap().as_str(), "c-7");
        }
        HandshakeOutcome::Rejected { .. } => panic!("expected Accepted"),
    }
    match handshake_with_server_version(env, 9).unwrap() {
        HandshakeOutcome::Rejected { reply, .. } => {
            assert_eq!(reply.correlation_id.unwrap().as_str(), "c-7");
            let reject: ConnectReject = decode(reply.payload.as_deref().unwrap()).unwrap();
            assert_eq!(reject.reason, ConnectRejectReason::VersionNotSupported);
            assert_eq!(reject.supported_version_min, 9);
            assert_eq!(reject.supported_version_max, 9);
        }
        HandshakeOutcome::Accepted { .. } => panic!("expected Rejected"),
    }
}

#[test]
fn decisions_are_answered() {
    let env = connect_envelope(0, 0, "p-1");
    assert!(matches!(
        answer(env.clone(), 0, Ok(())),
        HandshakeOutcome::Accepted { .. }
    ));
    match answer(env, 0, Err(ConnectRejectReason::Unauthorized)) {
        HandshakeOutcome::Rejected { reason, reply } => {
            assert_eq!(reason, ConnectRejectReason::Unauthorized);
            let reject: ConnectReject = decode(reply.payload.as_deref().unwrap()).unwrap();
            assert_eq!(reject.reason, ConnectRejectReason::Unauthorized);
        }
        HandshakeOutcome::Accepted { .. } => panic!("expected Rejected"),
    }
}

fn connect_envelope_with_token(
    min: u8,
    max: u8,
    producer: &str,
    token: Option<&str>,
) -> OtkEnvelope {
    match token {
        None => envelopes::connect(producer, min, max),
        Some(t) => envelopes::connect_with_token(producer, min, max, t),
    }
}

fn data_envelope(mt: MessageType, payload: Option<Vec<u8>>, producer: &str) -> OtkEnvelope {
    envelopes::data(producer, mt, payload)
}

#[test]
fn handshake_accepts_overlapping_version_range() {
    let env = envelopes::connect("p-1", 0, u8::MAX);
    let outcome = perform_server_handshake(env).expect("handshake");
    assert!(matches!(outcome, HandshakeOutcome::Accepted { .. }));
}

#[test]
fn handshake_rejects_non_overlapping_range() {
    // Producer wants only v99..v99. Server is PROTOCOL_VERSION (0).
    let env = envelopes::connect("p-1", 99, 99);
    let outcome = perform_server_handshake(env).expect("handshake");
    match outcome {
        HandshakeOutcome::Rejected { reason, .. } => {
            assert!(matches!(reason, ConnectRejectReason::VersionNotSupported));
        }
        HandshakeOutcome::Accepted { .. } => panic!("expected Rejected"),
    }
}

struct TokenAllowList(Vec<String>);

impl ConnectAuthoriser for TokenAllowList {
    fn authorise(
        &self,
        _producer_id: &ProducerId,
        token: Option<&str>,
    ) -> Result<(), ConnectRejectReason> {
        match token {
            Some(t) if self.0.iter().any(|allowed| allowed == t) => Ok(()),
            _ => Err(ConnectRejectReason::Unauthorized),
        }
    }
}

#[test]
fn handshake_with_auth_accepts_listed_token() {
    let env = connect_envelope_with_token(0, u8::MAX, "p-1", Some("secret"));
    let auth = TokenAllowList(vec!["secret".into()]);
    let outcome = perform_server_handshake_with_auth(env, &auth).expect("handshake");
    assert!(matches!(outcome, HandshakeOutcome::Accepted { .. }));
}

#[test]
fn handshake_with_auth_rejects_missing_token_as_unauthorized() {
    let env = connect_envelope_with_token(0, u8::MAX, "p-1", None);
    let auth = TokenAllowList(vec!["secret".into()]);
    match perform_server_handshake_with_auth(env, &auth).expect("handshake") {
        HandshakeOutcome::Rejected { reason, .. } => {
            assert!(matches!(reason, ConnectRejectReason::Unauthorized));
        }
        HandshakeOutcome::Accepted { .. } => panic!("expected Rejected"),
    }
}

#[test]
fn handshake_with_auth_rejects_wrong_token_as_unauthorized() {
    let env = connect_envelope_with_token(0, u8::MAX, "p-1", Some("nope"));
    let auth = TokenAllowList(vec!["secret".into()]);
    match perform_server_handshake_with_auth(env, &auth).expect("handshake") {
        HandshakeOutcome::Rejected { reason, .. } => {
            assert!(matches!(reason, ConnectRejectReason::Unauthorized));
        }
        HandshakeOutcome::Accepted { .. } => panic!("expected Rejected"),
    }
}

#[test]
fn nobody_is_asked_about_a_wrong_version() {
    struct Nobody;
    impl ConnectAuthoriser for Nobody {
        fn authorise(
            &self,
            _producer_id: &ProducerId,
            _token: Option<&str>,
        ) -> Result<(), ConnectRejectReason> {
            panic!("must not be asked");
        }
    }
    match perform_server_handshake_with_auth(envelopes::connect("p-1", 5, 6), &Nobody).unwrap() {
        HandshakeOutcome::Rejected { reason, .. } => {
            assert_eq!(reason, ConnectRejectReason::VersionNotSupported);
        }
        HandshakeOutcome::Accepted { .. } => panic!("expected Rejected"),
    }
}

// Messages after the handshake

fn p() -> PostHandshakeProcessor {
    PostHandshakeProcessor::new(ProducerId::from("p-1"), PROTOCOL_VERSION)
}

fn envelope(mt: MessageType, payload: Option<Vec<u8>>) -> OtkEnvelope {
    OtkEnvelope {
        protocol_version: PROTOCOL_VERSION,
        message_type: mt,
        source_id: ProducerId::from("p-1"),
        stream_id: None,
        sequence_number: None,
        correlation_id: None,
        payload,
        traceparent: None,
    }
}

fn loop_event() -> OtkEvent {
    OtkEvent::Detection(Detection {
        detection_id: DetectionId::new("det-1"),
        detector_id: DetectorId::new("loop-1"),
        timing_point_id: TimingPointId::new("tp-start"),
        subject_id: None,
        detected_at_ns: 1_000_000_000,
        detected_at_uncertainty_ns: None,
        received_at_ns: None,
        timestamping_method: TimestampingMethod::HardwareEventCapture,
        timebase_id: TimebaseId::new("tb-1"),
        source_attestation: SourceAttestation::RuntimeDiscovered,
        sequence_number: 0,
        sensor: SensorData::BeamBreak,
    })
}

#[test]
fn event_returned_as_action() {
    let env = envelope(MessageType::Event, Some(to_vec(&loop_event())));
    match p().process(env).unwrap() {
        InboundAction::Event {
            event: _,
            traceparent,
        } => {
            assert_eq!(traceparent, None, "no traceparent set on the envelope");
        }
        _ => panic!("expected Event"),
    }
}

#[test]
fn valid_traceparent_is_forwarded() {
    let mut env = envelope(MessageType::Event, Some(to_vec(&loop_event())));
    env.traceparent = Some("00-0af7651916cd43dd8448eb211c80319c-b7ad6b7169203331-01".to_string());
    match p().process(env).unwrap() {
        InboundAction::Event { traceparent, .. } => {
            assert_eq!(
                traceparent.as_deref(),
                Some("00-0af7651916cd43dd8448eb211c80319c-b7ad6b7169203331-01")
            );
        }
        _ => panic!("expected Event"),
    }
}

#[test]
fn malformed_traceparent_is_dropped_not_rejected() {
    let mut env = envelope(MessageType::Event, Some(to_vec(&loop_event())));
    env.traceparent = Some("not-a-real-traceparent".to_string());
    match p().process(env).unwrap() {
        InboundAction::Event { traceparent, .. } => {
            assert_eq!(
                traceparent, None,
                "malformed traceparent must be silently dropped, not propagated"
            );
        }
        _ => panic!("expected Event (malformed traceparent should NOT fail processing)"),
    }
}

#[test]
fn heartbeat_with_valid_payload_yields_heartbeat_action() {
    let hb = Heartbeat { sent_at_ns: 1 };
    let env = envelope(MessageType::Heartbeat, Some(to_vec(&hb)));
    assert!(matches!(p().process(env).unwrap(), InboundAction::Heartbeat));
}

#[test]
fn heartbeat_with_missing_payload_errors() {
    let env = envelope(MessageType::Heartbeat, None);
    assert!(matches!(
        p().process(env).unwrap_err(),
        ProtocolError::MissingHeartbeatPayload
    ));
}

#[test]
fn disconnect_yields_disconnect_action() {
    let env = envelope(MessageType::Disconnect, None);
    assert!(matches!(p().process(env).unwrap(), InboundAction::Disconnect));
}

#[test]
fn disconnect_with_payload_errors() {
    let env = envelope(MessageType::Disconnect, Some(vec![0u8; 4]));
    assert!(matches!(
        p().process(env).unwrap_err(),
        ProtocolError::UnexpectedDisconnectPayload
    ));
}

#[test]
fn version_mismatch_errors() {
    let mut env = envelope(MessageType::Heartbeat, None);
    env.protocol_version = PROTOCOL_VERSION.wrapping_add(1);
    assert!(matches!(
        p().process(env).unwrap_err(),
        ProtocolError::VersionMismatch { .. }
    ));
}

#[test]
fn source_mismatch_errors() {
    let mut env = envelope(MessageType::Heartbeat, None);
    env.source_id = ProducerId::from("evil");
    assert!(matches!(
        p().process(env).unwrap_err(),
        ProtocolError::SourceMismatch { .. }
    ));
}

#[test]
fn event_with_missing_payload_errors() {
    let env = envelope(MessageType::Event, None);
    assert!(matches!(
        p().process(env).unwrap_err(),
        ProtocolError::MissingEventPayload
    ));
}

#[test]
fn messages_that_no_producer_sends_are_refused() {
    for mt in [
        MessageType::Connect,
        MessageType::ConnectAck,
        MessageType::ConnectReject,
        MessageType::Error,
    ] {
        match p().process(envelope(mt, None)) {
            Err(ProtocolError::UnexpectedMessageType(t)) => assert_eq!(t, mt),
            other => panic!("expected UnexpectedMessageType, got {other:?}"),
        }
    }
}

#[test]
fn damaged_payloads_are_refused() {
    for mt in [MessageType::Event, MessageType::Heartbeat] {
        match p().process(envelope(mt, Some(vec![0xff, 0x00]))) {
            Err(ProtocolError::DecodeFailed { expected, .. }) => assert_eq!(expected, mt),
            other => panic!("expected DecodeFailed, got {other:?}"),
        }
    }
}

#[test]
fn protocol_errors_have_their_sentences() {
    assert_eq!(
        ProtocolError::VersionMismatch { negotiated: 0, found: 3 }.message(),
        "protocol version mismatch: negotiated 0, envelope 3"
    );
    let e = ProtocolError::SourceMismatch {
        registered: "p-1".to_string(),
        found: "evil".to_string(),
    };
    assert!(e.message().contains("p-1") && e.message().contains("evil"));
    assert_eq!(
        HandshakeError::UnexpectedMessageType(MessageType::Heartbeat).message(),
        "expected Connect envelope, got Heartbeat"
    );
    assert_eq!(
        HandshakeError::VersionNotSupported {
            producer_min: 3,
            producer_max: 12,
            server_version: 0
        }
        .message(),
        "no overlap between producer protocol-version range [3, 12] and server version 0"
    );
}

#[test]
fn processor_dispatches_event_payload_to_action() {
    let proc = p();
    let env = data_envelope(MessageType::Event, Some(to_vec(&beam_break_event(1))), "p-1");
    match proc.process(env).expect("process") {
        InboundAction::Event {
            event: OtkEvent::Detection(_),
            traceparent,
        } => {
            assert_eq!(traceparent, None, "envelope had no traceparent");
        }
        other => panic!("expected Event/Detection, got {other:?}"),
    }
}

#[test]
fn processor_forwards_valid_traceparent() {
    let proc = p();
    let mut env = data_envelope(MessageType::Event, Some(to_vec(&beam_break_event(1))), "p-1");
    env.traceparent = Some("00-0af7651916cd43dd8448eb211c80319c-b7ad6b7169203331-01".to_string());
    match proc.process(env).expect("process") {
        InboundAction::Event { traceparent, .. } => {
            assert_eq!(
                traceparent.as_deref(),
                Some("00-0af7651916cd43dd8448eb211c80319c-b7ad6b7169203331-01"),
                "valid W3C traceparent must pass through to the runtime"
            );
        }
        other => panic!("expected Event, got {other:?}"),
    }
}

#[test]
fn processor_drops_malformed_traceparent_without_failing() {
    let proc = p();
    let mut env = data_envelope(MessageType::Event, Some(to_vec(&beam_break_event(1))), "p-1");
    // Wrong length, wrong format. It is dropped silently, so that a buggy producer's
    // instrumentation cannot break the data path.
    env.traceparent = Some("not-a-traceparent".to_string());
    match proc.process(env).expect("process") {
        InboundAction::Event { traceparent, .. } => {
            assert_eq!(
                traceparent, None,
                "malformed traceparent must be silently dropped"
            );
        }
        other => panic!("expected Event, got {other:?}"),
    }
}

#[test]
fn processor_collapses_heartbeat_and_disconnect() {
    let proc = p();
    let hb_payload = to_vec(&Heartbeat { sent_at_ns: 0 });
    let hb = proc
        .process(data_envelope(MessageType::Heartbeat, Some(hb_payload), "p-1"))
        .unwrap();
    assert!(matches!(hb, InboundAction::Heartbeat));
    let dc = proc
        .process(data_envelope(MessageType::Disconnect, None, "p-1"))
        .unwrap();
    assert!(matches!(dc, InboundAction::Disconnect));
}

#[test]
fn processor_rejects_source_spoofing() {
    let proc = p();
    // A valid payload, so that the source is the only thing that is wrong.
    let hb_payload = to_vec(&Heartbeat { sent_at_ns: 0 });
    let env = data_envelope(MessageType::Heartbeat, Some(hb_payload), "evil");
    let err = proc.process(env).expect_err("source mismatch must error");
    assert!(
        matches!(err, ProtocolError::SourceMismatch { .. }),
        "expected SourceMismatch, got {err:?}"
    );
}

// Sessions. The transport is a list of reads; an empty read is its end.

struct Server {
    session: Session,
    reads: Vec<Vec<u8>>,
}

fn accept<A: ConnectAuthoriser>(
    max_frame_bytes: u32,
    authoriser: &A,
    reads: Vec<Vec<u8>>,
) -> (Result<Server, IngestError>, Option<OtkEnvelope>) {
    let mut phase = ConnectPhase::new(max_frame_bytes);
    let mut reads = reads;
    loop {
        let bytes = if reads.is_empty() { vec![] } else { reads.remove(0) };
        match phase.feed(&bytes, authoriser) {
            ConnectStep::ReadMore(next) => phase = next,
            ConnectStep::Accepted { frame, session } => {
                return (Ok(Server { session, reads }), Some(one_envelope(&frame)));
            }
            ConnectStep::Rejected { notice, error } => {
                return (Err(error), notice.map(|frame| one_envelope(&frame)));
            }
            ConnectStep::Failed(error) => return (Err(error), None),
        }
    }
}

fn one_envelope(frame: &[u8]) -> OtkEnvelope {
    let mut dec = StreamFrameDecoder::new(65_535);
    dec.push(frame).remove(0).expect("reply decodes")
}

impl Server {
    fn next_event(&mut self) -> Result<Option<IncomingEvent>, IngestError> {
        loop {
            match self.session.next_event() {
                SessionStep::Deliver(event) => return Ok(Some(event)),
                SessionStep::Closed => return Ok(None),
                SessionStep::Failed(e) => return Err(e),
                SessionStep::ReadMore => {
                    let bytes = if self.reads.is_empty() { vec![] } else { self.reads.remove(0) };
                    if !self.session.feed(&bytes)? {
                        return Ok(None);
                    }
                }
            }
        }
    }
}

fn connect_frame(version_min: u8, auth_token: Option<&str>) -> Vec<u8> {
    let connect = Connect {
        protocol_version_min: version_min,
        protocol_version_max: PROTOCOL_VERSION,
        streams: vec![],
        auth_token: auth_token.map(String::from),
    };
    let env = OtkEnvelope {
        protocol_version: PROTOCOL_VERSION,
        message_type: MessageType::Connect,
        source_id: ProducerId::from("test-producer"),
        stream_id: None,
        sequence_number: None,
        correlation_id: None,
        payload: Some(to_vec(&connect)),
        traceparent: None,
    };
    encode_stream(&env, 65_535).unwrap()
}

fn wrap_in_envelope(msg_type: MessageType, payload: Option<Vec<u8>>) -> OtkEnvelope {
    OtkEnvelope {
        protocol_version: PROTOCOL_VERSION,
        message_type: msg_type,
        source_id: ProducerId::from("test-producer"),
        stream_id: None,
        sequence_number: None,
        correlation_id: None,
        payload,
        traceparent: None,
    }
}

fn sensor_event() -> OtkEvent {
    OtkEvent::Detection(Detection {
        detection_id: DetectionId::new("det-1"),
        detector_id: DetectorId::new("sensor-1"),
        timing_point_id: TimingPointId::new("tp-a"),
        subject_id: None,
        detected_at_ns: 1_000_000_000,
        detected_at_uncertainty_ns: None,
        received_at_ns: None,
        timestamping_method: TimestampingMethod::HardwareEventCapture,
        timebase_id: TimebaseId::new("tb-1"),
        source_attestation: SourceAttestation::RuntimeDiscovered,
        sequence_number: 0,
        sensor: SensorData::BeamBreak,
    })
}

/// Accepts exactly one token.
struct OneTokenAuth(&'static str);

impl ConnectAuthoriser for OneTokenAuth {
    fn authorise(
        &self,
        _producer_id: &ProducerId,
        token: Option<&str>,
    ) -> Result<(), ConnectRejectReason> {
        match token {
            Some(t) if t == self.0 => Ok(()),
            _ => Err(ConnectRejectReason::Unauthorized),
        }
    }
}

#[test]
fn handshake_success_returns_ack_and_session() {
    let (session, reply) = accept(65_535, &AllowAll, vec![connect_frame(PROTOCOL_VERSION, None)]);
    let server = session.unwrap();
    assert_eq!(reply.unwrap().message_type, MessageType::ConnectAck);
    assert_eq!(server.session.producer_id(), "test-producer");
}

#[test]
fn handshake_version_min_too_high_sends_reject() {
    let (session, reply) = accept(65_535, &AllowAll, vec![connect_frame(u8::MAX, None)]);
    assert!(session.is_err());
    assert_eq!(reply.unwrap().message_type, MessageType::ConnectReject);
}

#[test]
fn handshake_version_max_too_low_sends_reject() {
    let connect = Connect {
        protocol_version_min: 0,
        protocol_version_max: 0,
        streams: vec![],
        auth_token: None,
    };
    let env = OtkEnvelope {
        protocol_version: 0,
        message_type: MessageType::Connect,
        source_id: ProducerId::from("old-producer"),
        stream_id: None,
        sequence_number: None,
        correlation_id: None,
        payload: Some(to_vec(&connect)),
        traceparent: None,
    };
    let frame = encode_stream(&env, 65_535).unwrap();
    let (session, reply) = accept(65_535, &AllowAll, vec![frame]);
    let reply = reply.unwrap();

    // Whether the producer's newest version is too old goes by the server's version.
    #[allow(unused_comparisons)]
    let too_old = PROTOCOL_VERSION > 0;
    if too_old {
        assert!(session.is_err());
        assert_eq!(reply.message_type, MessageType::ConnectReject);
    } else {
        assert!(session.is_ok());
        assert_eq!(reply.message_type, MessageType::ConnectAck);
    }
}

#[test]
fn heartbeat_consumed_transparently() {
    let event_env = wrap_in_envelope(MessageType::Event, Some(to_vec(&sensor_event())));
    let hb = Heartbeat { sent_at_ns: 0 };
    let heartbeat_env = wrap_in_envelope(MessageType::Heartbeat, Some(to_vec(&hb)));
    let (session, _) = accept(
        65_535,
        &AllowAll,
        vec![
            connect_frame(PROTOCOL_VERSION, None),
            encode_stream(&heartbeat_env, 65_535).unwrap(),
            encode_stream(&event_env, 65_535).unwrap(),
        ],
    );
    let mut server = session.unwrap();
    let received = server.next_event().unwrap().unwrap();
    assert!(matches!(received.event, OtkEvent::Detection(_)));
    assert_eq!(
        received.traceparent, None,
        "no traceparent set on the producer side"
    );
}

#[test]
fn disconnect_message_closes_session() {
    let disconnect_env = wrap_in_envelope(MessageType::Disconnect, None);
    let (session, _) = accept(
        65_535,
        &AllowAll,
        vec![
            connect_frame(PROTOCOL_VERSION, None),
            encode_stream(&disconnect_env, 65_535).unwrap(),
        ],
    );
    let mut server = session.unwrap();
    assert!(server.next_event().unwrap().is_none());
}

#[test]
fn tcp_eof_closes_session() {
    let (session, _) = accept(65_535, &AllowAll, vec![connect_frame(PROTOCOL_VERSION, None)]);
    let mut server = session.unwrap();
    assert!(server.next_event().unwrap().is_none());
}

#[test]
fn mid_frame_eof_is_an_error_not_clean_close() {
    // The length prefix promises 10 bytes; none of them comes.
    let (session, _) = accept(
        65_535,
        &AllowAll,
        vec![connect_frame(PROTOCOL_VERSION, None), 10u32.to_be_bytes().to_vec()],
    );
    let mut server = session.unwrap();
    let result = server.next_event();
    assert!(
        matches!(result, Err(IngestError::Decode(_))),
        "mid-frame EOF must be a Decode error, got: {result:?}"
    );
}

#[test]
fn truncated_connect_during_handshake_is_a_decode_error() {
    let (session, _) = accept(65_535, &AllowAll, vec![100u32.to_be_bytes().to_vec()]);
    match session {
        Err(IngestError::Decode(msg)) => {
            assert!(
                msg.contains("truncated") || msg.contains("EOF mid"),
                "expected truncation message, got: {msg}"
            );
        }
        Err(other) => panic!("expected Decode error for truncated Connect, got: {other:?}"),
        Ok(_) => panic!("expected an error, got a session"),
    }
}

#[test]
fn bind_with_auth_rejects_missing_token() {
    let (session, reply) = accept(
        65_535,
        &OneTokenAuth("secret"),
        vec![connect_frame(PROTOCOL_VERSION, None)],
    );
    assert!(session.is_err(), "missing token must reject accept()");
    let reply = reply.unwrap();
    assert_eq!(reply.message_type, MessageType::ConnectReject);
    let reject: ConnectReject =
        decode(reply.payload.as_deref().expect("reject payload")).expect("decode reject");
    assert!(matches!(reject.reason, ConnectRejectReason::Unauthorized));
}

#[test]
fn bind_with_auth_rejects_wrong_token() {
    let (session, reply) = accept(
        65_535,
        &OneTokenAuth("secret"),
        vec![connect_frame(PROTOCOL_VERSION, Some("nope"))],
    );
    assert!(session.is_err(), "wrong token must reject accept()");
    let reply = reply.unwrap();
    assert_eq!(reply.message_type, MessageType::ConnectReject);
    let reject: ConnectReject =
        decode(reply.payload.as_deref().expect("reject payload")).expect("decode reject");
    assert!(matches!(reject.reason, ConnectRejectReason::Unauthorized));
}

#[test]
fn bind_with_auth_accepts_valid_token() {
    let (session, reply) = accept(
        65_535,
        &OneTokenAuth("secret"),
        vec![connect_frame(PROTOCOL_VERSION, Some("secret"))],
    );
    let server = session.expect("valid token must produce a session");
    assert_eq!(reply.unwrap().message_type, MessageType::ConnectAck);
    assert_eq!(server.session.producer_id(), "test-producer");
}

#[test]
fn frame_exceeding_max_bytes_is_rejected() {
    let (session, _) = accept(
        256,
        &AllowAll,
        vec![
            connect_frame(PROTOCOL_VERSION, None),
            1_000u32.to_be_bytes().to_vec(),
            vec![0u8; 1_000],
        ],
    );
    let mut server = session.unwrap();
    let result = server.next_event();
    assert!(result.is_err(), "oversized frame must return an error");
}

#[test]
fn silence_before_the_greeting_is_a_handshake_error() {
    let (session, reply) = accept(65_535, &AllowAll, vec![]);
    assert!(reply.is_none());
    match session {
        Err(IngestError::Handshake(msg)) => assert_eq!(msg, "EOF before Connect"),
        Err(other) => panic!("expected Handshake error, got {other:?}"),
        Ok(_) => panic!("expected an error, got a session"),
    }
}

#[test]
fn events_behind_the_greeting_are_not_lost() {
    let event_env = wrap_in_envelope(MessageType::Event, Some(to_vec(&sensor_event())));
    let mut bytes = connect_frame(PROTOCOL_VERSION, None);
    bytes.extend(encode_stream(&event_env, 65_535).unwrap());
    bytes.extend(encode_stream(&event_env, 65_535).unwrap());
    let (session, _) = accept(65_535, &AllowAll, vec![bytes]);
    let mut server = session.unwrap();
    assert!(server.next_event().unwrap().is_some());
    assert!(server.next_event().unwrap().is_some());
    assert!(server.next_event().unwrap().is_none());
}

#[test]
fn greeting_in_small_pieces_is_understood() {
    let reads: Vec<Vec<u8>> = connect_frame(PROTOCOL_VERSION, None)
        .into_iter()
        .map(|b| vec![b])
        .collect();
    let (session, reply) = accept(65_535, &AllowAll, reads);
    assert!(session.is_ok());
    assert_eq!(reply.unwrap().message_type, MessageType::ConnectAck);
}

#[test]
fn strangers_end_the_session() {
    let mut env = wrap_in_envelope(MessageType::Event, Some(to_vec(&sensor_event())));
    env.source_id = ProducerId::from("someone-else");
    let (session, _) = accept(
        65_535,
        &AllowAll,
        vec![
            connect_frame(PROTOCOL_VERSION, None),
            encode_stream(&env, 65_535).unwrap(),
        ],
    );
    let mut server = session.unwrap();
    assert!(matches!(server.next_event(), Err(IngestError::Decode(_))));
}

// Configuration

fn ephemeral_config() -> TcpIngestConfig {
    TcpIngestConfig {
        bind_addr: "127.0.0.1:0".to_string(),
        max_frame_bytes: 65_535,
        handshake_timeout_ns: 5_000_000_000,
        tls: None,
    }
}

#[test]
fn rejects_zero_max_frame_bytes() {
    let cfg = TcpIngestConfig {
        max_frame_bytes: 0,
        ..ephemeral_config()
    };
    match cfg.validate() {
        Err(e) => {
            assert_eq!(e, ConfigError::ZeroMaxFrameBytes);
            assert!(
                e.message().contains("max_frame_bytes"),
                "error message should mention the offending field, got {}",
                e.message()
            );
        }
        Ok(_) => panic!("zero max_frame_bytes should be rejected"),
    }
}

#[test]
fn rejects_zero_handshake_timeout() {
    let cfg = TcpIngestConfig {
        handshake_timeout_ns: 0,
        ..ephemeral_config()
    };
    match cfg.validate() {
        Err(e) => {
            assert_eq!(e, ConfigError::ZeroHandshakeTimeout);
            assert!(
                e.message().contains("handshake_timeout"),
                "error message should mention the offending field, got {}",
                e.message()
            );
        }
        Ok(_) => panic!("zero handshake_timeout should be rejected"),
    }
}

#[test]
fn accepts_valid_config() {
    assert!(ephemeral_config().validate().is_ok());
}

#[test]
fn defaults_are_valid() {
    let tcp = TcpIngestConfig::default();
    assert_eq!(tcp.bind_addr, "127.0.0.1:8463");
    assert_eq!(tcp.max_frame_bytes, DEFAULT_MAX_FRAME_BYTES);
    assert_eq!(tcp.handshake_timeout_ns, 5_000_000_000);
    assert!(tcp.tls.is_none());
    assert!(tcp.validate().is_ok());
    let unix = UnixSocketIngestConfig::default();
    assert_eq!(unix.socket_path, "/var/run/otk-node.sock");
    assert_eq!(unix.max_frame_bytes, 65_535);
    assert_eq!(unix.socket_permissions, None);
    assert!(!unix.force_rebind);
    assert!(unix.validate().is_ok());
}
