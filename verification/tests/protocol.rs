use otk::model::ids::ProducerId;
use otk::protocol::envelope::{MessageType, OtkEnvelope};
use otk::protocol::messages::{Connect, ConnectAck, ConnectReject, ConnectRejectReason, Heartbeat};
use otk::protocol::traceparent::{
    format_traceparent, is_valid_traceparent, parse_traceparent, TraceParentError,
};
use otk::protocol::PROTOCOL_VERSION;
use otk::wire::{decode, to_vec};

const VALID: &str = "00-0af7651916cd43dd8448eb211c80319c-b7ad6b7169203331-01";

#[test]
fn valid_traceparent_parses() {
    let parts = parse_traceparent(VALID).unwrap();
    assert_eq!(parts.version, "00");
    assert_eq!(parts.trace_id, "0af7651916cd43dd8448eb211c80319c");
    assert_eq!(parts.parent_id, "b7ad6b7169203331");
    assert_eq!(parts.trace_flags, "01");
    assert!(is_valid_traceparent(VALID));
}

#[test]
fn wrong_length_rejected() {
    assert!(matches!(
        parse_traceparent("00-0af7651916cd43dd-b7ad6b7169203331-01"),
        Err(TraceParentError::InvalidLength { .. })
    ));
    assert!(matches!(
        parse_traceparent(""),
        Err(TraceParentError::InvalidLength { got: 0 })
    ));
}

#[test]
fn wrong_hyphen_positions_rejected() {
    // Right length, wrong structure: drop a hyphen, pad with a hex char.
    let s = "000af7651916cd43dd8448eb211c80319c-b7ad6b7169203331-01a";
    assert_eq!(s.len(), 55);
    assert!(matches!(
        parse_traceparent(s),
        Err(TraceParentError::InvalidStructure)
    ));
}

#[test]
fn uppercase_hex_rejected() {
    let s = "00-0AF7651916CD43DD8448EB211C80319C-b7ad6b7169203331-01";
    assert_eq!(s.len(), 55);
    assert!(matches!(
        parse_traceparent(s),
        Err(TraceParentError::InvalidHex)
    ));
}

#[test]
fn non_hex_rejected() {
    let s = "00-0af7651916cd43dd8448eb211c80319g-b7ad6b7169203331-01";
    assert!(matches!(
        parse_traceparent(s),
        Err(TraceParentError::InvalidHex)
    ));
}

#[test]
fn forbidden_version_ff_rejected() {
    let s = "ff-0af7651916cd43dd8448eb211c80319c-b7ad6b7169203331-01";
    assert!(matches!(
        parse_traceparent(s),
        Err(TraceParentError::ForbiddenVersion)
    ));
}

#[test]
fn all_zero_trace_id_rejected() {
    let s = "00-00000000000000000000000000000000-b7ad6b7169203331-01";
    assert!(matches!(
        parse_traceparent(s),
        Err(TraceParentError::InvalidTraceId)
    ));
}

#[test]
fn all_zero_parent_id_rejected() {
    let s = "00-0af7651916cd43dd8448eb211c80319c-0000000000000000-01";
    assert!(matches!(
        parse_traceparent(s),
        Err(TraceParentError::InvalidParentId)
    ));
}

#[test]
fn future_version_accepted() {
    // Higher versions parse for forward compatibility.
    let s = "01-0af7651916cd43dd8448eb211c80319c-b7ad6b7169203331-00";
    assert!(parse_traceparent(s).is_ok());
}

#[test]
fn format_round_trips() {
    let s = format_traceparent(0x0af7651916cd43dd8448eb211c80319c, 0xb7ad6b7169203331, 0x01)
        .unwrap();
    assert_eq!(s, VALID);
    assert!(is_valid_traceparent(&s));
}

#[test]
fn format_rejects_zero_ids() {
    assert!(format_traceparent(0, 0xb7ad6b7169203331, 0).is_none());
    assert!(format_traceparent(0x1234, 0, 0).is_none());
}

#[test]
fn whatever_is_formatted_is_valid() {
    for (trace_id, parent_id, flags) in [(1u128, 1u64, 0u8), (u128::MAX, u64::MAX, u8::MAX)] {
        let s = format_traceparent(trace_id, parent_id, flags).unwrap();
        assert_eq!(s.len(), 55);
        assert!(is_valid_traceparent(&s));
    }
}

#[test]
fn text_beyond_ascii_is_no_traceparent() {
    // 55 bytes, but a character straddles the end of the first field.
    let s = "0\u{e9}-af7651916cd43dd8448eb211c80319c-b7ad6b7169203331-01";
    assert_eq!(s.len(), 55);
    assert!(!is_valid_traceparent(s));
}

fn base_envelope() -> OtkEnvelope {
    OtkEnvelope {
        protocol_version: 0,
        message_type: MessageType::Heartbeat,
        source_id: ProducerId::from("p-1"),
        stream_id: None,
        sequence_number: None,
        correlation_id: None,
        payload: Some(vec![1, 2, 3]),
        traceparent: None,
    }
}

#[test]
fn round_trip_without_traceparent() {
    let env = base_envelope();
    let bytes = to_vec(&env);
    let decoded: OtkEnvelope = decode(&bytes).unwrap();
    assert_eq!(decoded.traceparent, None);
    assert_eq!(decoded.payload, env.payload);
}

#[test]
fn round_trip_with_traceparent() {
    let mut env = base_envelope();
    env.traceparent = Some(String::from(
        "00-0af7651916cd43dd8448eb211c80319c-b7ad6b7169203331-01",
    ));
    let bytes = to_vec(&env);
    let decoded: OtkEnvelope = decode(&bytes).unwrap();
    assert_eq!(
        decoded.traceparent.as_deref(),
        Some("00-0af7651916cd43dd8448eb211c80319c-b7ad6b7169203331-01")
    );
}

/// The bytes of an envelope as an encoder writes it that has never heard of the
/// trace context: an array of the seven older fields.
fn legacy_envelope(producer: &str, version: u8) -> Vec<u8> {
    let mut bytes: Vec<u8> = Vec::new();
    let mut e = minicbor::Encoder::new(&mut bytes);
    e.array(7).unwrap();
    e.u8(version).unwrap();
    e.array(2).unwrap().u32(4).unwrap().array(0).unwrap();
    e.str(producer).unwrap();
    e.null().unwrap().null().unwrap().null().unwrap();
    e.array(3).unwrap().u8(1).unwrap().u8(2).unwrap().u8(3).unwrap();
    bytes
}

#[test]
fn old_encoder_decodes_with_none_traceparent() {
    let bytes = legacy_envelope("p-legacy", 0);
    let decoded: OtkEnvelope = decode(&bytes).unwrap();
    assert_eq!(decoded.message_type, MessageType::Heartbeat);
    assert_eq!(decoded.source_id.as_str(), "p-legacy");
    assert_eq!(decoded.payload.as_deref(), Some(&[1u8, 2, 3][..]));
    assert_eq!(
        decoded.traceparent, None,
        "missing index-7 field must decode as None"
    );
}

#[test]
fn envelope_without_traceparent_decodes_as_none() {
    let bytes = legacy_envelope("p-legacy", PROTOCOL_VERSION);
    let decoded: OtkEnvelope = decode(&bytes).expect("current decoder accepts legacy");
    assert_eq!(
        decoded.source_id.as_str(),
        "p-legacy",
        "fields up to index 6 must round-trip"
    );
    assert_eq!(decoded.payload.as_deref(), Some(&[1u8, 2, 3][..]));
    assert_eq!(
        decoded.traceparent, None,
        "missing CBOR index 7 must decode as None for backward-compatible envelope evolution"
    );
}

#[test]
fn envelope_with_traceparent_round_trips() {
    let env = OtkEnvelope {
        protocol_version: PROTOCOL_VERSION,
        message_type: MessageType::Heartbeat,
        source_id: ProducerId::from("p-current"),
        stream_id: None,
        sequence_number: None,
        correlation_id: None,
        payload: Some(vec![9, 9, 9]),
        traceparent: Some("00-0af7651916cd43dd8448eb211c80319c-b7ad6b7169203331-01".to_string()),
    };

    let bytes = to_vec(&env);
    let decoded: OtkEnvelope = decode(&bytes).expect("decode");
    let re_encoded = to_vec(&decoded);
    assert_eq!(
        bytes, re_encoded,
        "envelope CBOR must be stable across re-encode"
    );
    assert_eq!(
        decoded.traceparent.as_deref(),
        Some("00-0af7651916cd43dd8448eb211c80319c-b7ad6b7169203331-01")
    );
}

#[test]
fn connect_envelope_roundtrip() {
    let connect = Connect {
        protocol_version_min: PROTOCOL_VERSION,
        protocol_version_max: PROTOCOL_VERSION,
        streams: vec![],
        auth_token: None,
    };
    let connect_bytes = to_vec(&connect);
    let envelope = OtkEnvelope {
        protocol_version: PROTOCOL_VERSION,
        message_type: MessageType::Connect,
        source_id: ProducerId::from("test-producer"),
        stream_id: None,
        sequence_number: None,
        correlation_id: None,
        payload: Some(connect_bytes.clone()),
        traceparent: None,
    };
    let env_bytes = to_vec(&envelope);
    let decoded: OtkEnvelope = decode(&env_bytes).expect("decode envelope");
    assert_eq!(decoded.message_type, MessageType::Connect);
    assert_eq!(decoded.protocol_version, PROTOCOL_VERSION);
    let connect_again: Connect =
        decode(decoded.payload.as_deref().expect("payload present")).expect("decode Connect");
    assert_eq!(connect_again.protocol_version_min, PROTOCOL_VERSION);
    assert_eq!(connect_again.protocol_version_max, PROTOCOL_VERSION);
}

#[test]
fn connect_ack_roundtrip_preserves_negotiated_version() {
    let producer = Connect {
        protocol_version_min: 0,
        protocol_version_max: u8::MAX,
        streams: vec![],
        auth_token: None,
    };
    assert!(
        (producer.protocol_version_min..=producer.protocol_version_max).contains(&PROTOCOL_VERSION),
        "premise: a sensible producer's advertised range must contain PROTOCOL_VERSION"
    );

    let ack = ConnectAck { negotiated_version: PROTOCOL_VERSION };
    let bytes = to_vec(&ack);
    let decoded: ConnectAck = decode(&bytes).expect("decode ack");
    assert_eq!(decoded.negotiated_version, PROTOCOL_VERSION);
}

#[test]
fn connect_reject_version_not_supported_roundtrip() {
    // The producer offers a range without PROTOCOL_VERSION: it has to be turned away.
    let connect = Connect {
        protocol_version_min: PROTOCOL_VERSION.wrapping_add(10),
        protocol_version_max: PROTOCOL_VERSION.wrapping_add(11),
        streams: vec![],
        auth_token: None,
    };
    let server_supports = PROTOCOL_VERSION;
    assert!(
        !(connect.protocol_version_min..=connect.protocol_version_max).contains(&server_supports),
        "test premise: ranges must not overlap"
    );

    let reject = ConnectReject {
        reason: ConnectRejectReason::VersionNotSupported,
        supported_version_min: PROTOCOL_VERSION,
        supported_version_max: PROTOCOL_VERSION,
    };
    let bytes = to_vec(&reject);
    let decoded: ConnectReject = decode(&bytes).expect("decode reject");
    assert!(matches!(decoded.reason, ConnectRejectReason::VersionNotSupported));
    assert_eq!(decoded.supported_version_min, PROTOCOL_VERSION);
    assert_eq!(decoded.supported_version_max, PROTOCOL_VERSION);
}

#[test]
fn heartbeat_has_its_bytes() {
    let hb = Heartbeat { sent_at_ns: 500 };
    assert_eq!(to_vec(&hb), vec![0x81, 0x19, 0x01, 0xf4]);
    let back: Heartbeat = decode(&[0x81, 0x19, 0x01, 0xf4]).unwrap();
    assert_eq!(back.sent_at_ns, 500);
}

#[test]
fn versions_beyond_a_byte_are_refused() {
    // An envelope whose version is 256.
    let mut bytes: Vec<u8> = Vec::new();
    let mut e = minicbor::Encoder::new(&mut bytes);
    e.array(3).unwrap().u16(256).unwrap();
    e.array(2).unwrap().u32(1).unwrap().array(0).unwrap();
    e.str("p").unwrap();
    assert!(decode::<OtkEnvelope>(&bytes).is_err());
}
