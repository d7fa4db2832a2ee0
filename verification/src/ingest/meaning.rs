//! What the messages after the handshake mean.

use vstd::prelude::*;
use vstd::utf8::*;

use crate::codec;
use crate::codec::{DecodeFault, Tree};
use crate::ingest::error::ProtocolError;
use crate::ingest::processor;
use crate::ingest::processor::{InboundAction, PostHandshakeProcessor};
use crate::model::event::OtkEvent;
use crate::protocol::envelope::{MessageType, OtkEnvelope};
use crate::protocol::messages::Heartbeat;
use crate::wire;
use crate::wire::Wire;

verus! {

/// Whether a message comes from the producer that shook hands, in the version
/// that was agreed on.
pub open spec fn is_from(e: OtkEnvelope, producer: Seq<char>, version: u8) -> bool {
    e.protocol_version == version && e.source_id@ == producer
}

/// Whether the contents of a message begin with the CBOR form of a value, as
/// [`wire::to_vec`] writes it.
pub open spec fn contains<T: Wire>(e: OtkEnvelope, value: T) -> bool {
    exists|written: Vec<u8>, rest: Seq<u8>| #[trigger] contains_before(e, value, written, rest)
}

/// The contents of a message are the value, and then the rest.
pub open spec fn contains_before<T: Wire>(
    e: OtkEnvelope,
    value: T,
    written: Vec<u8>,
    rest: Seq<u8>,
) -> bool {
    &&& call_ensures(wire::to_vec::<T>, (&value,), written)
    &&& e.payload matches Some(payload) && payload@ == written@ + rest
}

/// Whether the contents of a message are not a value of a type, by what
/// [`wire::decode`] says.
pub open spec fn garbles<T: Wire>(e: OtkEnvelope, fault: DecodeFault) -> bool {
    e.payload matches Some(payload) && exists|input: &[u8]|
        input@ == payload@ && #[trigger] call_ensures(
            wire::decode::<T>,
            (input,),
            Err::<T, DecodeFault>(fault),
        )
}

/// A byte that may stand in a field of a trace context.
pub open spec fn is_trace_digit(b: u8) -> bool {
    0x30 <= b <= 0x39 || 0x61 <= b <= 0x66
}

/// Whether a text is a trace context that may be handed on: 55 bytes, hyphens at
/// 2, 35 and 52, lowercase hexadecimal digits elsewhere, and neither a version
/// `ff` nor an id of zeros.
pub open spec fn is_trace(s: Seq<char>) -> bool {
    let b = encode_utf8(s);
    &&& b.len() == 55
    &&& b[2] == 0x2d
    &&& b[35] == 0x2d
    &&& b[52] == 0x2d
    &&& forall|i: int| 0 <= i < 55 && i != 2 && i != 35 && i != 52 ==> is_trace_digit(#[trigger] b[i])
    &&& !(b[0] == 0x66 && b[1] == 0x66)
    &&& exists|i: int| 3 <= i < 35 && #[trigger] b[i] != 0x30
    &&& exists|i: int| 36 <= i < 52 && #[trigger] b[i] != 0x30
}

/// What is checked of a trace context.
pub proof fn law_trace_context(s: &str, r: bool)
    requires
        call_ensures(crate::protocol::traceparent::is_valid_traceparent, (s,), r),
    ensures
        r <==> is_trace(s@),
{
    lemma_trace(s@);
}

/// A valid trace context is one byte by byte.
proof fn lemma_trace(s: Seq<char>)
    ensures
        crate::protocol::traceparent::valid_traceparent(s) <==> is_trace(s),
{
    let b = encode_utf8(s);
    if b.len() == 55 && b[2] == 0x2d && b[35] == 0x2d && b[52] == 0x2d {
        let v = b.subrange(0, 2);
        let t = b.subrange(3, 35);
        let p = b.subrange(36, 52);
        let f = b.subrange(53, 55);
        if crate::protocol::traceparent::valid_traceparent(s) {
            assert forall|i: int| 0 <= i < 55 && i != 2 && i != 35 && i != 52 implies is_trace_digit(
                #[trigger] b[i],
            ) by {
                if i < 2 {
                    assert(v[i] == b[i]);
                } else if i < 35 {
                    assert(t[i - 3] == b[i]);
                } else if i < 52 {
                    assert(p[i - 36] == b[i]);
                } else {
                    assert(f[i - 53] == b[i]);
                }
            }
            let x = choose|x: int| 0 <= x < 32 && #[trigger] t[x] != 0x30;
            assert(b[x + 3] != 0x30);
            let y = choose|y: int| 0 <= y < 16 && #[trigger] p[y] != 0x30;
            assert(b[y + 36] != 0x30);
        }
        if is_trace(s) {
            let x = choose|x: int| 3 <= x < 35 && #[trigger] b[x] != 0x30;
            assert(t[x - 3] != 0x30);
            let y = choose|y: int| 36 <= y < 52 && #[trigger] b[y] != 0x30;
            assert(p[y - 36] != 0x30);
            assert forall|i: int| 0 <= i < 2 implies crate::protocol::traceparent::is_hex_byte(
                #[trigger] v[i],
            ) by {
                assert(is_trace_digit(b[i]));
            }
            assert forall|i: int| 0 <= i < 32 implies crate::protocol::traceparent::is_hex_byte(
                #[trigger] t[i],
            ) by {
                assert(is_trace_digit(b[i + 3]));
            }
            assert forall|i: int| 0 <= i < 16 implies crate::protocol::traceparent::is_hex_byte(
                #[trigger] p[i],
            ) by {
                assert(is_trace_digit(b[i + 36]));
            }
            assert forall|i: int| 0 <= i < 2 implies crate::protocol::traceparent::is_hex_byte(
                #[trigger] f[i],
            ) by {
                assert(is_trace_digit(b[i + 53]));
            }
        }
    }
}

/// The trace context that a message hands on: its own, where that is one.
pub open spec fn trace_of(e: OtkEnvelope) -> Option<Seq<char>> {
    match e.traceparent {
        Some(s) if is_trace(s@) => Some(s@),
        _ => None,
    }
}

/// What is read of contents.
proof fn lemma_read<T: Wire>(e: OtkEnvelope, value: T)
    requires
        contains(e, value),
        !T::field().optional,
    ensures
        e.payload matches Some(payload) && (codec::parse(T::field().kind, payload@, 0) matches Ok(
            (t, _),
        ) && t == value.tree()),
{
    let (written, rest) = choose|written: Vec<u8>, rest: Seq<u8>|
        #[trigger] contains_before(e, value, written, rest);
    assert(codec::parse(T::field().kind, written@ + rest, 0) == Ok::<(Tree, int), DecodeFault>(
        (value.tree(), written@.len() as int),
    ));
}

/// An event that the producer sends is handed on, with its trace context where
/// that is one.
pub proof fn law_events_are_handed_on(
    p: &PostHandshakeProcessor,
    e: OtkEnvelope,
    event: OtkEvent,
    r: Result<InboundAction, ProtocolError>,
)
    requires
        call_ensures(PostHandshakeProcessor::process, (p, e), r),
        is_from(e, p.producer(), p.version()),
        e.message_type == MessageType::Event,
        contains(e, event),
    ensures
        r matches Ok(InboundAction::Event { event: got, traceparent }) && got.tree() == event.tree()
            && (match traceparent {
            Some(s) => Some(s@),
            None => None,
        }) == trace_of(e),
{
    lemma_event(e, event, p.producer(), p.version());
}

/// The meaning of an event.
pub proof fn lemma_event(e: OtkEnvelope, event: OtkEvent, producer: Seq<char>, version: u8)
    requires
        is_from(e, producer, version),
        e.message_type == MessageType::Event,
        contains(e, event),
    ensures
        processor::inbound(e, producer, version) == processor::Inbound::Event(
            event.tree(),
            trace_of(e),
        ),
{
    lemma_read(e, event);
    if let Some(s) = e.traceparent {
        lemma_trace(s@);
    }
}

/// A heartbeat is a sign of life and nothing else.
pub proof fn law_heartbeats_mean_nothing(
    p: &PostHandshakeProcessor,
    e: OtkEnvelope,
    beat: Heartbeat,
    r: Result<InboundAction, ProtocolError>,
)
    requires
        call_ensures(PostHandshakeProcessor::process, (p, e), r),
        is_from(e, p.producer(), p.version()),
        e.message_type == MessageType::Heartbeat,
        contains(e, beat),
    ensures
        r == Ok::<InboundAction, ProtocolError>(InboundAction::Heartbeat),
{
    lemma_read(e, beat);
}

/// The meaning of a heartbeat.
pub proof fn lemma_heartbeat(e: OtkEnvelope, beat: Heartbeat, producer: Seq<char>, version: u8)
    requires
        is_from(e, producer, version),
        e.message_type == MessageType::Heartbeat,
        contains(e, beat),
    ensures
        processor::inbound(e, producer, version) == processor::Inbound::Heartbeat,
{
    lemma_read(e, beat);
}

/// A producer takes its leave with an empty message, and only so.
pub proof fn law_leaving(
    p: &PostHandshakeProcessor,
    e: OtkEnvelope,
    r: Result<InboundAction, ProtocolError>,
)
    requires
        call_ensures(PostHandshakeProcessor::process, (p, e), r),
    ensures
        r == Ok::<InboundAction, ProtocolError>(InboundAction::Disconnect) <==> is_from(
            e,
            p.producer(),
            p.version(),
        ) && e.message_type == MessageType::Disconnect && e.payload is None,
        is_from(e, p.producer(), p.version()) && e.message_type == MessageType::Disconnect
            && e.payload is Some ==> r == Err::<InboundAction, ProtocolError>(
            ProtocolError::UnexpectedDisconnectPayload,
        ),
{
}

/// A message in another version is refused for that, and one in another's name
/// for that, with both versions or both names in the answer.
pub proof fn law_strangers(
    p: &PostHandshakeProcessor,
    e: OtkEnvelope,
    r: Result<InboundAction, ProtocolError>,
)
    requires
        call_ensures(PostHandshakeProcessor::process, (p, e), r),
        !is_from(e, p.producer(), p.version()),
    ensures
        if e.protocol_version != p.version() {
            r == Err::<InboundAction, ProtocolError>(
                ProtocolError::VersionMismatch {
                    negotiated: p.version(),
                    found: e.protocol_version,
                },
            )
        } else {
            r matches Err(ProtocolError::SourceMismatch { registered, found }) && registered@
                == p.producer() && found@ == e.source_id@
        },
{
}

/// The messages of the producer that are refused: those of a type that only a
/// server sends or that belongs to the handshake, events and heartbeats without
/// contents, and such with contents that are not what the type says.
pub proof fn law_refusals(
    p: &PostHandshakeProcessor,
    e: OtkEnvelope,
    fault: DecodeFault,
    r: Result<InboundAction, ProtocolError>,
)
    requires
        call_ensures(PostHandshakeProcessor::process, (p, e), r),
        is_from(e, p.producer(), p.version()),
    ensures
        e.message_type != MessageType::Event && e.message_type != MessageType::Heartbeat
            && e.message_type != MessageType::Disconnect ==> r == Err::<
            InboundAction,
            ProtocolError,
        >(ProtocolError::UnexpectedMessageType(e.message_type)),
        e.message_type == MessageType::Event && e.payload is None ==> r == Err::<
            InboundAction,
            ProtocolError,
        >(ProtocolError::MissingEventPayload),
        e.message_type == MessageType::Heartbeat && e.payload is None ==> r == Err::<
            InboundAction,
            ProtocolError,
        >(ProtocolError::MissingHeartbeatPayload),
        e.message_type == MessageType::Event && garbles::<OtkEvent>(e, fault) ==> r == Err::<
            InboundAction,
            ProtocolError,
        >(ProtocolError::DecodeFailed { expected: MessageType::Event, fault }),
        e.message_type == MessageType::Heartbeat && garbles::<Heartbeat>(e, fault) ==> r == Err::<
            InboundAction,
            ProtocolError,
        >(ProtocolError::DecodeFailed { expected: MessageType::Heartbeat, fault }),
{
}

} // verus!
