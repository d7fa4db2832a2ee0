//! What can go wrong in an ingest session.

use vstd::prelude::*;
use vstd::string::*;

use crate::codec::DecodeFault;
use crate::protocol::envelope::MessageType;
use crate::text;

verus! {

/// Why a handshake fails without an answer.
#[derive(Debug, Clone, Copy, PartialEq, Eq, Structural)]
pub enum HandshakeError {
    /// The first message is not a `Connect`.
    UnexpectedMessageType(MessageType),
    /// The `Connect` has no payload.
    MissingConnectPayload,
    /// The payload is not a `Connect`.
    DecodeFailed(DecodeFault),
    /// The answer could not be written.
    EncodeFailed,
    /// The producer and the server have no protocol version in common.
    VersionNotSupported {
        /// The oldest version that the producer speaks.
        producer_min: u8,
        /// The newest version that the producer speaks.
        producer_max: u8,
        /// The version that the server speaks.
        server_version: u8,
    },
}

/// The sentence for a handshake error.
pub open spec fn handshake_error_text(e: HandshakeError) -> Seq<char> {
    match e {
        HandshakeError::UnexpectedMessageType(t) => "expected Connect envelope, got "@
            + t.name_text(),
        HandshakeError::MissingConnectPayload => "Connect envelope had no payload"@,
        HandshakeError::DecodeFailed(fault) => "CBOR decode failed: Connect: "@ + fault.text(),
        HandshakeError::EncodeFailed => "CBOR encode failed"@,
        HandshakeError::VersionNotSupported {
            producer_min,
            producer_max,
            server_version,
        } => "no overlap between producer protocol-version range ["@ + text::decimal(
            producer_min as int,
        ) + ", "@ + text::decimal(producer_max as int) + "] and server version "@ + text::decimal(
            server_version as int,
        ),
    }
}

impl HandshakeError {
    /// A sentence that tells a person what is wrong.
    pub fn message(&self) -> (r: String)
        ensures
            r@ == handshake_error_text(*self),
    {
        match self {
            HandshakeError::UnexpectedMessageType(t) => (
            "expected Connect envelope, got ").to_owned().concat(t.name()),
            HandshakeError::MissingConnectPayload => "Connect envelope had no payload".to_owned(),
            HandshakeError::DecodeFailed(fault) => (
            "CBOR decode failed: Connect: ").to_owned().concat(fault.message().as_str()),
            HandshakeError::EncodeFailed => "CBOR encode failed".to_owned(),
            HandshakeError::VersionNotSupported { producer_min, producer_max, server_version } => (
            "no overlap between producer protocol-version range [").to_owned().concat(
                text::decimal_string(*producer_min as u64).as_str(),
            ).concat(", ").concat(text::decimal_string(*producer_max as u64).as_str()).concat(
                "] and server version ",
            ).concat(text::decimal_string(*server_version as u64).as_str()),
        }
    }
}

/// Why a message after the handshake is refused.
#[allow(inconsistent_fields)]
#[derive(Debug)]
pub enum ProtocolError {
    /// The message is not in the negotiated protocol version.
    VersionMismatch {
        /// The negotiated version.
        negotiated: u8,
        /// The version of the message.
        found: u8,
    },
    /// The message claims to come from someone else.
    SourceMismatch {
        /// Who shook hands.
        registered: String,
        /// Who the message claims to be from.
        found: String,
    },
    /// An event without a payload.
    MissingEventPayload,
    /// A heartbeat without a payload.
    MissingHeartbeatPayload,
    /// A disconnect with a payload.
    UnexpectedDisconnectPayload,
    /// The payload is not what the message type says.
    DecodeFailed {
        /// What it should be.
        expected: MessageType,
        /// What is wrong with it.
        fault: DecodeFault,
    },
    /// A message that a producer does not send after the handshake.
    UnexpectedMessageType(MessageType),
}

/// A refusal, as a model.
#[allow(inconsistent_fields)]
pub enum Refusal {
    VersionMismatch { negotiated: u8, found: u8 },
    SourceMismatch { registered: Seq<char>, found: Seq<char> },
    MissingEventPayload,
    MissingHeartbeatPayload,
    UnexpectedDisconnectPayload,
    DecodeFailed { expected: MessageType, fault: DecodeFault },
    UnexpectedMessageType(MessageType),
}

impl View for ProtocolError {
    type V = Refusal;

    open spec fn view(&self) -> Refusal {
        match self {
            ProtocolError::VersionMismatch { negotiated, found } => Refusal::VersionMismatch {
                negotiated: *negotiated,
                found: *found,
            },
            ProtocolError::SourceMismatch { registered, found } => Refusal::SourceMismatch {
                registered: registered@,
                found: found@,
            },
            ProtocolError::MissingEventPayload => Refusal::MissingEventPayload,
            ProtocolError::MissingHeartbeatPayload => Refusal::MissingHeartbeatPayload,
            ProtocolError::UnexpectedDisconnectPayload => Refusal::UnexpectedDisconnectPayload,
            ProtocolError::DecodeFailed { expected, fault } => Refusal::DecodeFailed {
                expected: *expected,
                fault: *fault,
            },
            ProtocolError::UnexpectedMessageType(t) => Refusal::UnexpectedMessageType(*t),
        }
    }
}

/// What a payload of a message type is called.
pub open spec fn payload_name(t: MessageType) -> Seq<char> {
    match t {
        MessageType::Event => "OtkEvent"@,
        _ => t.name_text(),
    }
}

/// The sentence for a refusal.
pub open spec fn refusal_text(e: Refusal) -> Seq<char> {
    match e {
        Refusal::VersionMismatch { negotiated, found } => "protocol version mismatch: negotiated "@
            + text::decimal(negotiated as int) + ", envelope "@ + text::decimal(found as int),
        Refusal::SourceMismatch {
            registered,
            found,
        } => "source_id mismatch: producer registered as "@ + registered + ", envelope from "@
            + found,
        Refusal::MissingEventPayload => "Event message had no payload"@,
        Refusal::MissingHeartbeatPayload =>
        "Heartbeat message had no payload (protocol envelope contract requires one)"@,
        Refusal::UnexpectedDisconnectPayload => "Disconnect message carried a payload"@,
        Refusal::DecodeFailed { expected, fault } => "CBOR decode failed: "@ + payload_name(
            expected,
        ) + ": "@ + fault.text(),
        Refusal::UnexpectedMessageType(t) => "unexpected message type for ingest session: "@
            + t.name_text(),
    }
}

impl ProtocolError {
    /// A sentence that tells a person what is wrong.
    pub fn message(&self) -> (r: String)
        ensures
            r@ == refusal_text(self@),
    {
        match self {
            ProtocolError::VersionMismatch { negotiated, found } => (
            "protocol version mismatch: negotiated ").to_owned().concat(
                text::decimal_string(*negotiated as u64).as_str(),
            ).concat(", envelope ").concat(text::decimal_string(*found as u64).as_str()),
            ProtocolError::SourceMismatch { registered, found } => (
            "source_id mismatch: producer registered as ").to_owned().concat(
                registered.as_str(),
            ).concat(", envelope from ").concat(found.as_str()),
            ProtocolError::MissingEventPayload => "Event message had no payload".to_owned(),
            ProtocolError::MissingHeartbeatPayload => (
            "Heartbeat message had no payload (protocol envelope contract requires one)"
            ).to_owned(),
            ProtocolError::UnexpectedDisconnectPayload => (
            "Disconnect message carried a payload").to_owned(),
            ProtocolError::DecodeFailed { expected, fault } => {
                let name = match expected {
                    MessageType::Event => "OtkEvent",
                    _ => expected.name(),
                };
                "CBOR decode failed: ".to_owned().concat(name).concat(": ").concat(
                    fault.message().as_str(),
                )
            },
            ProtocolError::UnexpectedMessageType(t) => (
            "unexpected message type for ingest session: ").to_owned().concat(t.name()),
        }
    }
}

} // verus!
