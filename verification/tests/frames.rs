use otk::frame::error::FrameError;
use otk::frame::serial::{crc16_ccitt_false, encode_serial, SerialFrameDecoder};
use otk::frame::stream::{encode_stream, StreamFrameDecoder};
use otk::frame::DEFAULT_MAX_FRAME_SIZE;
use otk::model::ids::ProducerId;
use otk::protocol::envelope::{MessageType, OtkEnvelope};
use otk::protocol::PROTOCOL_VERSION;
use otk::wire::to_vec;

fn test_envelope() -> OtkEnvelope {
    OtkEnvelope {
        protocol_version: 0,
        message_type: MessageType::Disconnect,
        source_id: ProducerId::from("test"),
        stream_id: None,
        sequence_number: None,
        correlation_id: None,
        payload: None,
        traceparent: None,
    }
}

fn envelope(producer: &str) -> OtkEnvelope {
    OtkEnvelope {
        protocol_version: PROTOCOL_VERSION,
        message_type: MessageType::Disconnect,
        source_id: ProducerId::from(producer),
        stream_id: None,
        sequence_number: None,
        correlation_id: None,
        payload: None,
        traceparent: None,
    }
}

fn cobs_frame(bytes: &[u8]) -> Vec<u8> {
    let mut encoded = vec![0u8; cobs::max_encoding_length(bytes.len())];
    let encoded_len = cobs::encode(bytes, &mut encoded);
    encoded.truncate(encoded_len);
    encoded
}

#[test]
fn stream_round_trip() {
    let original = test_envelope();
    let frame = encode_stream(&original, DEFAULT_MAX_FRAME_SIZE).unwrap();

    let mut dec = StreamFrameDecoder::new(DEFAULT_MAX_FRAME_SIZE);
    let results = dec.push(&frame);

    assert_eq!(results.len(), 1);
    let decoded = results[0].as_ref().expect("round-trip failed");
    assert_eq!(to_vec(&original), to_vec(decoded));
}

#[test]
fn has_pending_false_when_empty() {
    let dec = StreamFrameDecoder::new(DEFAULT_MAX_FRAME_SIZE);
    assert!(!dec.has_pending());
}

#[test]
fn has_pending_true_with_partial_length_prefix() {
    let mut dec = StreamFrameDecoder::new(DEFAULT_MAX_FRAME_SIZE);
    // Push 2 of the 4 length-prefix bytes; decoder buffers them, returns no envelopes.
    let results = dec.push(&[0u8, 0u8]);
    assert!(results.is_empty());
    assert!(dec.has_pending());
}

#[test]
fn has_pending_false_after_complete_frame() {
    let original = test_envelope();
    let frame = encode_stream(&original, DEFAULT_MAX_FRAME_SIZE).unwrap();
    let mut dec = StreamFrameDecoder::new(DEFAULT_MAX_FRAME_SIZE);
    let _ = dec.push(&frame);
    assert!(
        !dec.has_pending(),
        "decoder buffer should be empty after a complete frame"
    );
}

#[test]
fn has_pending_true_while_skipping_oversize() {
    let mut dec = StreamFrameDecoder::new(16);
    // Header declares 1_000 bytes (oversize for max=16); feed header + a few payload bytes.
    let mut input = Vec::new();
    input.extend_from_slice(&1_000u32.to_be_bytes());
    input.extend_from_slice(&[0xAAu8; 10]);
    let results = dec.push(&input);
    assert_eq!(results.len(), 1);
    assert!(matches!(results[0], Err(FrameError::OversizeFrame { .. })));
    // Still has ~990 bytes left to skip from the oversize frame.
    assert!(dec.has_pending());
}

#[test]
fn stream_incremental_push() {
    let original = test_envelope();
    let frame = encode_stream(&original, DEFAULT_MAX_FRAME_SIZE).unwrap();

    let mut dec = StreamFrameDecoder::new(DEFAULT_MAX_FRAME_SIZE);
    let mut all_results = Vec::new();
    // Feed one byte at a time to exercise partial-read buffering.
    for byte in &frame {
        all_results.extend(dec.push(core::slice::from_ref(byte)));
    }

    assert_eq!(all_results.len(), 1);
    let decoded = all_results[0].as_ref().expect("incremental round-trip failed");
    assert_eq!(to_vec(&original), to_vec(decoded));
}

/// Known-good CRC-16/CCITT-FALSE test vector from the CRC catalogue.
#[test]
fn crc16_known_vector() {
    assert_eq!(crc16_ccitt_false(b"123456789"), 0x29B1);
}

#[test]
fn serial_has_pending_false_when_empty() {
    let dec = SerialFrameDecoder::new(DEFAULT_MAX_FRAME_SIZE);
    assert!(!dec.has_pending());
}

#[test]
fn serial_has_pending_true_with_partial_frame() {
    let mut dec = SerialFrameDecoder::new(DEFAULT_MAX_FRAME_SIZE);
    // Feed a few bytes that don't contain the 0x00 delimiter; decoder buffers them.
    let results = dec.push(&[0xAA, 0xBB, 0xCC]);
    assert!(results.is_empty());
    assert!(dec.has_pending());
}

#[test]
fn serial_has_pending_false_after_complete_frame() {
    let original = test_envelope();
    let frame = encode_serial(&original, DEFAULT_MAX_FRAME_SIZE).unwrap();
    let mut dec = SerialFrameDecoder::new(DEFAULT_MAX_FRAME_SIZE);
    let _ = dec.push(&frame);
    assert!(
        !dec.has_pending(),
        "decoder buffer should be empty after a complete frame"
    );
}

#[test]
fn serial_round_trip() {
    let original = test_envelope();
    let frame = encode_serial(&original, DEFAULT_MAX_FRAME_SIZE).unwrap();

    let mut dec = SerialFrameDecoder::new(DEFAULT_MAX_FRAME_SIZE);
    let results = dec.push(&frame);

    assert_eq!(results.len(), 1);
    let decoded = results[0].as_ref().expect("round-trip failed");
    assert_eq!(to_vec(&original), to_vec(decoded));
}

#[test]
fn serial_incremental_push() {
    let original = test_envelope();
    let frame = encode_serial(&original, DEFAULT_MAX_FRAME_SIZE).unwrap();

    let mut dec = SerialFrameDecoder::new(DEFAULT_MAX_FRAME_SIZE);
    let mut all_results = Vec::new();
    for byte in &frame {
        all_results.extend(dec.push(core::slice::from_ref(byte)));
    }

    assert_eq!(all_results.len(), 1);
    let decoded = all_results[0]
        .as_ref()
        .expect("incremental round-trip failed");
    assert_eq!(to_vec(&original), to_vec(decoded));
}

#[test]
fn serial_crc_corruption_detected() {
    // A frame with a deliberately wrong CRC. COBS decodes it, so that it is always a
    // CorruptFrame and never a LostSync.
    let original = test_envelope();
    let payload = to_vec(&original);
    let correct_crc = crc16_ccitt_false(&payload).to_be_bytes();
    let wrong_crc = [correct_crc[0] ^ 0xFF, correct_crc[1] ^ 0xFF];
    let mut with_wrong_crc = vec![0u8; payload.len() + 2];
    with_wrong_crc[..payload.len()].copy_from_slice(&payload);
    with_wrong_crc[payload.len()..].copy_from_slice(&wrong_crc);
    let mut encoded = cobs_frame(&with_wrong_crc);
    encoded.push(0x00);

    let mut dec = SerialFrameDecoder::new(DEFAULT_MAX_FRAME_SIZE);
    let results = dec.push(&encoded);

    assert_eq!(results.len(), 1);
    assert!(matches!(results[0], Err(FrameError::CorruptFrame)));
}

#[test]
fn serial_encoder_decoder_boundary() {
    let envelope = test_envelope();
    let cbor_len = to_vec(&envelope).len();

    // Exactly at the limit: encoder accepts, decoder accepts.
    let frame = encode_serial(&envelope, cbor_len).unwrap();
    let mut dec = SerialFrameDecoder::new(cbor_len);
    let results = dec.push(&frame);
    assert_eq!(results.len(), 1);
    assert!(
        results[0].is_ok(),
        "decoder rejected a frame at the encoder limit"
    );

    // One byte under: encoder must reject.
    assert!(
        matches!(
            encode_serial(&envelope, cbor_len - 1),
            Err(FrameError::OversizeFrame { .. })
        ),
        "encoder accepted a payload exceeding max_frame_size"
    );
}

#[test]
fn serial_resync_after_stray_zero() {
    let envelope = test_envelope();
    let frame2 = encode_serial(&envelope, DEFAULT_MAX_FRAME_SIZE).unwrap();

    // A truncated copy of a valid frame (without its 0x00 terminator), with a stray 0x00
    // in the middle to simulate a spurious delimiter.
    let mut frame1 = encode_serial(&envelope, DEFAULT_MAX_FRAME_SIZE).unwrap();
    frame1.pop(); // remove real delimiter; it comes after the stray 0x00 below
    let split = frame1.len() / 2;
    let mut stream = Vec::new();
    stream.extend_from_slice(&frame1[..split]);
    stream.push(0x00); // stray delimiter: truncates frame1, decoder gets LostSync
    stream.extend_from_slice(&frame1[split..]); // tail of frame1 (also fails)
    stream.push(0x00);
    stream.extend_from_slice(&frame2); // clean frame follows

    let mut dec = SerialFrameDecoder::new(DEFAULT_MAX_FRAME_SIZE);
    let results = dec.push(&stream);

    // The two corrupt fragments each produce an error; the clean frame succeeds
    // and decodes to the original envelope.
    assert!(
        results.len() >= 2,
        "expected errors from corrupt fragments and a success"
    );
    assert!(
        results[..results.len() - 1].iter().all(|r| r.is_err()),
        "corrupt fragments must error"
    );
    let decoded = results
        .last()
        .unwrap()
        .as_ref()
        .expect("clean frame after resync must decode");
    assert_eq!(
        to_vec(&envelope),
        to_vec(decoded),
        "decoded envelope after resync must match original"
    );
}

#[test]
fn serial_post_decode_oversize_rejected() {
    // A payload full of zero bytes can be shorter in COBS than the worst case that the wire
    // limit goes by, and so slip past it. The size of the payload has to be looked at too.
    //
    // Concrete case (max_frame_size = 507):
    //   wire limit = max_encoding_length(509) = 509 + 3 = 512
    //   oversized payload: 508 zero bytes (1 over the limit)
    //   with CRC: 510 bytes
    //   in COBS: 508 code bytes (0x01) + 1 code byte + 2 data bytes = 511 < 512
    let max_frame_size = 507usize;
    let mut dec = SerialFrameDecoder::new(max_frame_size);

    let raw_payload = vec![0u8; max_frame_size + 1];
    let crc = crc16_ccitt_false(&raw_payload).to_be_bytes();
    let mut with_crc = raw_payload.clone();
    with_crc.extend_from_slice(&crc);

    let mut encoded = cobs_frame(&with_crc);
    let encoded_len = encoded.len();

    // Verify the test prerequisite: encoded frame fits inside the wire limit.
    let max_wire_size = cobs::max_encoding_length(max_frame_size + 2);
    assert!(
        encoded_len < max_wire_size,
        "prerequisite failed: encoded_len={encoded_len} must be < max_wire_size={max_wire_size}"
    );

    encoded.push(0x00); // frame delimiter

    let results = dec.push(&encoded);
    assert_eq!(results.len(), 1);
    assert!(
        matches!(results[0], Err(FrameError::OversizeFrame { len: Some(l), max: m })
            if l == max_frame_size + 1 && m == max_frame_size),
        "expected OversizeFrame, got {:?}",
        results[0]
    );
}

#[test]
fn stream_round_trip_single_frame() {
    let env = envelope("p-1");
    let frame = encode_stream(&env, 65_535).expect("encode");
    let mut dec = StreamFrameDecoder::new(65_535);
    let results = dec.push(&frame);
    assert_eq!(results.len(), 1);
    assert!(results[0].is_ok());
}

#[test]
fn stream_decodes_byte_at_a_time() {
    let env = envelope("p-1");
    let frame = encode_stream(&env, 65_535).expect("encode");
    let mut dec = StreamFrameDecoder::new(65_535);
    let mut all = Vec::new();
    for byte in &frame {
        all.extend(dec.push(std::slice::from_ref(byte)));
    }
    assert_eq!(all.len(), 1);
    assert!(all[0].is_ok());
}

#[test]
fn stream_decodes_multiple_frames_in_one_push() {
    let env = envelope("p-1");
    let mut combined = Vec::new();
    for _ in 0..5 {
        combined.extend(encode_stream(&env, 65_535).expect("encode"));
    }
    let mut dec = StreamFrameDecoder::new(65_535);
    let results = dec.push(&combined);
    assert_eq!(results.len(), 5);
    assert!(results.iter().all(|r| r.is_ok()));
}

#[test]
fn stream_oversize_frame_yields_error_and_resyncs() {
    let env = envelope("p-1");
    let small_frame = encode_stream(&env, 65_535).expect("encode");

    // Construct a frame whose header declares 1_000 bytes when the decoder limit
    // is 256. Header + filler bytes are followed by a valid small frame.
    let mut combined = Vec::new();
    combined.extend(&1_000u32.to_be_bytes());
    combined.extend(vec![0xAAu8; 1_000]);
    combined.extend(&small_frame);

    let mut dec = StreamFrameDecoder::new(256);
    let results = dec.push(&combined);
    assert_eq!(results.len(), 2, "expected one error + one ok envelope");
    assert!(matches!(results[0], Err(FrameError::OversizeFrame { .. })));
    assert!(results[1].is_ok());
}

#[test]
fn stream_partial_frame_buffers_across_pushes() {
    let env = envelope("p-1");
    let frame = encode_stream(&env, 65_535).expect("encode");
    let (head, tail) = frame.split_at(frame.len() / 2);

    let mut dec = StreamFrameDecoder::new(65_535);
    let first = dec.push(head);
    assert!(first.is_empty(), "no complete frame from partial bytes");
    let second = dec.push(tail);
    assert_eq!(second.len(), 1);
    assert!(second[0].is_ok());
}

#[test]
fn serial_round_trip_single_frame() {
    let env = envelope("p-1");
    let frame = encode_serial(&env, 65_535).expect("encode");
    let mut dec = SerialFrameDecoder::new(65_535);
    let results = dec.push(&frame);
    assert_eq!(results.len(), 1);
    assert!(results[0].is_ok());
}

#[test]
fn serial_decodes_multiple_frames() {
    let env = envelope("p-1");
    let mut combined = Vec::new();
    for _ in 0..3 {
        combined.extend(encode_serial(&env, 65_535).expect("encode"));
    }
    let mut dec = SerialFrameDecoder::new(65_535);
    let results = dec.push(&combined);
    assert_eq!(results.len(), 3);
    assert!(results.iter().all(|r| r.is_ok()));
}

#[test]
fn serial_corrupt_byte_inside_frame_reports_corrupt_then_resyncs() {
    let env = envelope("p-1");
    let frame_a = encode_serial(&env, 65_535).expect("encode");
    // Premise: index 3 lies inside the COBS-encoded payload (not the leading overhead byte
    // and not the trailing 0x00 delimiter).
    assert!(
        frame_a.len() >= 6,
        "test premise broken: encode_serial produced a frame of len {} (< 6); \
         pick a corruption index inside the encoded payload",
        frame_a.len()
    );
    let mut corrupted = frame_a.clone();
    // Flip a payload byte (index 3 is past the COBS overhead byte at 0 and
    // well before the trailing 0x00 delimiter at len-1).
    corrupted[3] ^= 0xFF;
    let frame_b = encode_serial(&env, 65_535).expect("encode");

    let mut combined = Vec::new();
    combined.extend(&corrupted);
    combined.extend(&frame_b);

    let mut dec = SerialFrameDecoder::new(65_535);
    let results = dec.push(&combined);
    assert!(
        results.iter().any(|r| matches!(r, Err(FrameError::CorruptFrame))),
        "expected a CorruptFrame from CRC mismatch, got: {:?}",
        results.iter().map(|r| r.is_ok()).collect::<Vec<_>>()
    );
    assert!(
        results.iter().any(|r| r.is_ok()),
        "expected the following good frame to decode after resync"
    );
}

#[test]
fn serial_extra_zero_delimiters_ignored() {
    let env = envelope("p-1");
    let frame = encode_serial(&env, 65_535).expect("encode");
    let mut padded = Vec::new();
    padded.push(0x00); // pre-pad: empty inter-frame
    padded.extend(&frame);
    padded.push(0x00); // extra trailing delimiter
    padded.push(0x00);

    let mut dec = SerialFrameDecoder::new(65_535);
    let results = dec.push(&padded);
    assert_eq!(results.len(), 1, "extra delimiters must not produce phantom frames");
    assert!(results[0].is_ok());
}

#[test]
fn stream_frame_has_its_bytes() {
    let env = envelope("p");
    let payload = to_vec(&env);
    let frame = encode_stream(&env, 65_535).unwrap();
    assert_eq!(&frame[..4], &[0, 0, 0, payload.len() as u8]);
    assert_eq!(&frame[4..], &payload[..]);
}

#[test]
fn stream_encoder_refuses_what_is_too_large() {
    let env = envelope("p-1");
    let len = to_vec(&env).len();
    assert!(encode_stream(&env, len).is_ok());
    match encode_stream(&env, len - 1) {
        Err(FrameError::OversizeFrame { len: l, max }) => {
            assert_eq!(l, Some(len));
            assert_eq!(max, len - 1);
        }
        other => panic!("expected OversizeFrame, got {other:?}"),
    }
}

#[test]
fn stream_payload_that_is_no_envelope_is_reported_and_left_behind() {
    let good = encode_stream(&envelope("p-1"), 65_535).unwrap();
    let mut bytes = vec![0, 0, 0, 2, 0xff, 0xff];
    bytes.extend(&good);
    let mut dec = StreamFrameDecoder::new(65_535);
    let results = dec.push(&bytes);
    assert_eq!(results.len(), 2);
    assert!(matches!(results[0], Err(FrameError::DecodeFailed(_))));
    assert!(results[1].is_ok());
}

#[test]
fn stream_pieces_make_no_difference() {
    let mut bytes = Vec::new();
    bytes.extend(encode_stream(&envelope("p-1"), 65_535).unwrap());
    bytes.extend(&1_000u32.to_be_bytes());
    bytes.extend(vec![7u8; 1_000]);
    bytes.extend(encode_stream(&envelope("p-2"), 65_535).unwrap());
    bytes.extend(&[0, 0]);

    let mut whole = StreamFrameDecoder::new(256);
    let at_once = whole.push(&bytes);
    for cut in [1, 3, 4, 5, 40, 600, bytes.len() - 1] {
        let mut dec = StreamFrameDecoder::new(256);
        let mut results = dec.push(&bytes[..cut]);
        results.extend(dec.push(&bytes[cut..]));
        assert_eq!(format!("{results:?}"), format!("{at_once:?}"));
        assert_eq!(dec.has_pending(), whole.has_pending());
    }
}

#[test]
fn serial_frame_is_cobs_with_a_checksum() {
    let env = envelope("p");
    let mut plain = to_vec(&env);
    let crc = crc16_ccitt_false(&plain);
    plain.extend_from_slice(&crc.to_be_bytes());
    let mut expected = cobs_frame(&plain);
    expected.push(0);
    assert_eq!(encode_serial(&env, 65_535).unwrap(), expected);
}

#[test]
fn serial_line_without_delimiter_is_discarded() {
    let mut dec = SerialFrameDecoder::new(8);
    let results = dec.push(&[0x11; 64]);
    assert_eq!(results.len(), 1);
    assert!(matches!(results[0], Err(FrameError::OversizeFrame { len: None, max: 8 })));
    // Nothing more until the delimiter, and then all is well again.
    assert!(dec.push(&[0x11; 64]).is_empty());
    let small = envelope("");
    let size = to_vec(&small).len();
    let mut wide = SerialFrameDecoder::new(size);
    let mut bytes = vec![0x11; 4 * size];
    bytes.push(0);
    bytes.extend(encode_serial(&small, size).unwrap());
    let results = wide.push(&bytes);
    assert!(matches!(results[0], Err(FrameError::OversizeFrame { .. })));
    assert!(results[1].is_ok());
    assert_eq!(results.len(), 2);
}

#[test]
fn serial_noise_is_reported_as_lost_sync() {
    // The first code byte promises more bytes than there are.
    let mut dec = SerialFrameDecoder::new(65_535);
    let results = dec.push(&[0x05, 0x01, 0x00]);
    assert_eq!(results.len(), 1);
    assert!(matches!(results[0], Err(FrameError::LostSync)));
}

#[test]
fn serial_pieces_make_no_difference() {
    let mut bytes = Vec::new();
    bytes.extend(encode_serial(&envelope("p-1"), 65_535).unwrap());
    bytes.extend(&[0x05, 0x01, 0x00, 0x00]);
    bytes.extend(encode_serial(&envelope("p-2"), 65_535).unwrap());
    let at_once = SerialFrameDecoder::new(65_535).push(&bytes);
    assert_eq!(at_once.len(), 3);
    for cut in 0..bytes.len() {
        let mut dec = SerialFrameDecoder::new(65_535);
        let mut results = dec.push(&bytes[..cut]);
        results.extend(dec.push(&bytes[cut..]));
        assert_eq!(format!("{results:?}"), format!("{at_once:?}"));
    }
}

#[test]
fn frame_errors_have_their_sentences() {
    assert_eq!(
        FrameError::OversizeFrame { len: Some(10), max: 5 }.message(),
        "frame too large: 10 bytes exceeds maximum of 5"
    );
    assert_eq!(
        FrameError::OversizeFrame { len: None, max: 5 }.message(),
        "frame too large: exceeded maximum of 5 bytes before delimiter"
    );
    assert_eq!(
        FrameError::CorruptFrame.message(),
        "corrupt frame: CRC-16/CCITT-FALSE mismatch"
    );
    assert_eq!(FrameError::LostSync.message(), "lost sync: COBS decoding failed");
    assert_eq!(
        FrameError::EncodeFailed.message(),
        "CBOR encoding of envelope failed"
    );
}

#[test]
fn serial_frame_has_one_zero_byte_at_its_end() {
    let original = envelope("rfid-1");
    let frame = encode_serial(&original, DEFAULT_MAX_FRAME_SIZE).unwrap();
    let last = frame.len() - 1;
    assert_eq!(frame[last], 0);
    assert!(!frame[..last].contains(&0));
    let mut expected = to_vec(&original);
    let crc = crc16_ccitt_false(&expected);
    expected.extend_from_slice(&crc.to_be_bytes());
    assert_eq!(cobs::decode_vec(&frame[..last]).unwrap(), expected);
}
