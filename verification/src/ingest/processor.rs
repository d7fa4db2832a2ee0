//! The messages after the handshake.

use vstd::prelude::*;

use crate::codec;
use crate::codec::Tree;
use crate::ingest::error::{ProtocolError, Refusal};
use crate::model::event::OtkEvent;
use crate::model::ids::ProducerId;
use crate::protocol::envelope::{MessageType, OtkEnvelope};
use crate::protocol::messages::Heartbeat;
use crate::protocol::traceparent;
use crate::protocol::traceparent::is_valid_traceparent;
use crate::schema::Kind;
use crate::wire;
use crate::wire::Wire;

verus! {

/// What to do with a message.
#[derive(Debug)]
pub enum InboundAction {
    /// Hand the event on.
    Event {
        event: OtkEvent,
        /// The trace context, where the message has a valid one.
        traceparent: Option<String>,
    },
    /// Nothing: it was a sign of life.
    Heartbeat,
    /// End the session: the producer takes its leave.
    Disconnect,
}

/// What to do with a message, as a model.
pub enum Inbound {
    Event(Tree, Option<Seq<char>>),
    Heartbeat,
    Disconnect,
    Refused(Refusal),
}

/// The model of what the processor says.
pub open spec fn inbound_of(r: Result<InboundAction, ProtocolError>) -> Inbound {
    match r {
        Ok(InboundAction::Event { event, traceparent }) => Inbound::Event(
            event.tree(),
            match traceparent {
                Some(s) => Some(s@),
                None => None,
            },
        ),
        Ok(InboundAction::Heartbeat) => Inbound::Heartbeat,
        Ok(InboundAction::Disconnect) => Inbound::Disconnect,
        Err(e) => Inbound::Refused(e@),
    }
}

/// The trace context of a message, where it is valid. One that is not is
/// dropped: it must not keep the event from being handed on.
pub open spec fn trusted_traceparent(e: OtkEnvelope) -> Option<Seq<char>> {
    match e.traceparent {
        Some(s) if traceparent::valid_traceparent(s@) => Some(s@),
        _ => None,
    }
}

/// What is to be done with a message from `producer` in a session that
/// negotiated `version`.
pub open spec fn inbound(e: OtkEnvelope, producer: Seq<char>, version: u8) -> Inbound {
    if e.protocol_version != version {
        Inbound::Refused(
            Refusal::VersionMismatch { negotiated: version, found: e.protocol_version },
        )
    } else if e.source_id@ != producer {
        Inbound::Refused(
            Refusal::SourceMismatch { registered: producer, found: e.source_id@ },
        )
    } else {
        match e.message_type {
            MessageType::Event => match e.payload {
                None => Inbound::Refused(Refusal::MissingEventPayload),
                Some(payload) => match codec::parse(Kind::Event, payload@, 0) {
                    Ok((event, _)) => Inbound::Event(event, trusted_traceparent(e)),
                    Err(fault) => Inbound::Refused(
                        Refusal::DecodeFailed { expected: MessageType::Event, fault },
                    ),
                },
            },
            MessageType::Heartbeat => match e.payload {
                None => Inbound::Refused(Refusal::MissingHeartbeatPayload),
                Some(payload) => match codec::parse(Kind::Heartbeat, payload@, 0) {
                    Ok(_) => Inbound::Heartbeat,
                    Err(fault) => Inbound::Refused(
                        Refusal::DecodeFailed { expected: MessageType::Heartbeat, fault },
                    ),
                },
            },
            MessageType::Disconnect => if e.payload is Some {
                Inbound::Refused(Refusal::UnexpectedDisconnectPayload)
            } else {
                Inbound::Disconnect
            },
            other => Inbound::Refused(Refusal::UnexpectedMessageType(other)),
        }
    }
}

/// Checks the messages of one producer after the handshake and takes the
/// events out of them.
#[derive(Debug)]
pub struct PostHandshakeProcessor {
    producer_id: ProducerId,
    negotiated_version: u8,
}

impl PostHandshakeProcessor {
    /// Who shook hands.
    pub closed spec fn producer(&self) -> Seq<char> {
        self.producer_id@
    }

    /// The negotiated protocol version.
    pub closed spec fn version(&self) -> u8 {
        self.negotiated_version
    }

    /// The processor for a producer that shook hands in a protocol version.
    pub fn new(producer_id: ProducerId, negotiated_version: u8) -> (r: Self)
        ensures
            r.producer() == producer_id@,
            r.version() == negotiated_version,
    {
        Self { producer_id, negotiated_version }
    }

    /// Who shook hands.
    pub fn producer_id(&self) -> (r: &ProducerId)
        ensures
            r@ == self.producer(),
    {
        &self.producer_id
    }

    /// The negotiated protocol version.
    pub fn negotiated_version(&self) -> (r: u8)
        ensures
            r == self.version(),
    {
        self.negotiated_version
    }

    /// Says what to do with a message.
    pub fn process(&self, envelope: OtkEnvelope) -> (r: Result<InboundAction, ProtocolError>)
        ensures
            inbound_of(r) == inbound(envelope, self.producer(), self.version()),
    {
        if envelope.protocol_version != self.negotiated_version {
            return Err(
                ProtocolError::VersionMismatch {
                    negotiated: self.negotiated_version,
                    found: envelope.protocol_version,
                },
            );
        }
        if !envelope.source_id.same(&self.producer_id) {
            return Err(
                ProtocolError::SourceMismatch {
                    registered: self.producer_id.as_str().to_owned(),
                    found: envelope.source_id.as_str().to_owned(),
                },
            );
        }
        match envelope.message_type {
            MessageType::Event => {
                let payload = match envelope.payload {
                    Some(payload) => payload,
                    None => {
                        return Err(ProtocolError::MissingEventPayload);
                    },
                };
                let event = match wire::decode::<OtkEvent>(payload.as_slice()) {
                    Ok(event) => event,
                    Err(fault) => {
                        return Err(
                            ProtocolError::DecodeFailed { expected: MessageType::Event, fault },
                        );
                    },
                };
                let traceparent = match envelope.traceparent {
                    Some(s) => if is_valid_traceparent(s.as_str()) {
                        Some(s)
                    } else {
                        None
                    },
                    None => None,
                };
                Ok(InboundAction::Event { event, traceparent })
            },
            MessageType::Heartbeat => {
                let payload = match envelope.payload {
                    Some(payload) => payload,
                    None => {
                        return Err(ProtocolError::MissingHeartbeatPayload);
                    },
                };
                match wire::decode::<Heartbeat>(payload.as_slice()) {
                    Ok(_) => Ok(InboundAction::Heartbeat),
                    Err(fault) => Err(
                        ProtocolError::DecodeFailed { expected: MessageType::Heartbeat, fault },
                    ),
                }
            },
            MessageType::Disconnect => {
                if envelope.payload.is_some() {
                    return Err(ProtocolError::UnexpectedDisconnectPayload);
                }
                Ok(InboundAction::Disconnect)
            },
            other => Err(ProtocolError::UnexpectedMessageType(other)),
        }
    }
}

/// A message in another protocol version, or in another's name, never gets
/// through, whatever else it holds.
pub proof fn law_strangers_are_refused(e: OtkEnvelope, producer: Seq<char>, version: u8)
    requires
        e.protocol_version != version || e.source_id@ != producer,
    ensures
        inbound(e, producer, version) is Refused,
{
}

/// A trace context never decides what is done with a message.
pub proof fn law_traceparent_decides_nothing(
    a: OtkEnvelope,
    b: OtkEnvelope,
    producer: Seq<char>,
    version: u8,
)
    requires
        a == (OtkEnvelope { traceparent: a.traceparent, ..b }),
    ensures
        match (inbound(a, producer, version), inbound(b, producer, version)) {
            (Inbound::Event(x, _), Inbound::Event(y, _)) => x == y,
            (x, y) => x == y,
        },
{
}

} // verus!
