//! Envelopes for the wire.

use vstd::prelude::*;

use crate::codec;
use crate::model::ids::ProducerId;
use crate::model::stream::StreamDescriptor;
use crate::protocol::envelope::{MessageType, OtkEnvelope};
use crate::protocol::messages::Connect;
use crate::protocol::PROTOCOL_VERSION;
use crate::wire;
use crate::wire::Wire;

verus! {

/// An envelope that belongs to no stream and carries no trace.
pub open spec fn is_plain(
    e: OtkEnvelope,
    version: u8,
    message_type: MessageType,
    producer: Seq<char>,
) -> bool {
    &&& e.protocol_version == version
    &&& e.message_type == message_type
    &&& e.source_id@ == producer
    &&& e.stream_id is None
    &&& e.sequence_number is None
    &&& e.correlation_id is None
    &&& e.traceparent is None
}

/// A greeting with these versions and this token, without streams.
pub open spec fn is_greeting(c: Connect, min: u8, max: u8, token: Option<Seq<char>>) -> bool {
    &&& c.protocol_version_min == min
    &&& c.protocol_version_max == max
    &&& c.streams@.len() == 0
    &&& match (c.auth_token, token) {
        (Some(t), Some(s)) => t@ == s,
        (None, None) => true,
        _ => false,
    }
}

/// The payload is the CBOR form of a greeting with these versions and this
/// token.
pub open spec fn greets(e: OtkEnvelope, min: u8, max: u8, token: Option<Seq<char>>) -> bool {
    e.payload matches Some(payload) && exists|c: Connect|
        is_greeting(c, min, max, token) && payload@ == codec::encoding(#[trigger] c.tree())
}

/// A greeting that offers the versions from `min` to `max`, without a token.
pub fn connect(producer: &str, min: u8, max: u8) -> (r: OtkEnvelope)
    ensures
        is_plain(r, max, MessageType::Connect, producer@),
        greets(r, min, max, None),
{
    connect_with_optional_token(producer, min, max, None)
}

/// A greeting with a token.
pub fn connect_with_token(producer: &str, min: u8, max: u8, token: &str) -> (r: OtkEnvelope)
    ensures
        is_plain(r, max, MessageType::Connect, producer@),
        greets(r, min, max, Some(token@)),
{
    connect_with_optional_token(producer, min, max, Some(token.to_owned()))
}

fn connect_with_optional_token(
    producer: &str,
    min: u8,
    max: u8,
    token: Option<String>,
) -> (r: OtkEnvelope)
    ensures
        is_plain(r, max, MessageType::Connect, producer@),
        greets(
            r,
            min,
            max,
            match token {
                Some(t) => Some(t@),
                None => None,
            },
        ),
{
    let streams: Vec<StreamDescriptor> = Vec::new();
    let greeting = Connect {
        protocol_version_min: min,
        protocol_version_max: max,
        streams,
        auth_token: token,
    };
    let payload = wire::to_vec(&greeting);
    assert(payload@ == codec::encoding(greeting.tree()));
    OtkEnvelope {
        protocol_version: max,
        message_type: MessageType::Connect,
        source_id: ProducerId::from(producer),
        stream_id: None,
        sequence_number: None,
        correlation_id: None,
        payload: Some(payload),
        traceparent: None,
    }
}

/// An envelope for after the handshake, with the given payload.
pub fn data(producer: &str, mt: MessageType, payload: Option<Vec<u8>>) -> (r: OtkEnvelope)
    ensures
        is_plain(r, PROTOCOL_VERSION, mt, producer@),
        r.payload == payload,
{
    OtkEnvelope {
        protocol_version: PROTOCOL_VERSION,
        message_type: mt,
        source_id: ProducerId::from(producer),
        stream_id: None,
        sequence_number: None,
        correlation_id: None,
        payload,
        traceparent: None,
    }
}

} // verus!
