//! The handshake: a producer's first message and the server's answer.

use vstd::prelude::*;

use crate::codec;
use crate::codec::Tree;
use crate::ingest::error::HandshakeError;
use crate::ingest::processor::PostHandshakeProcessor;
use crate::model::ids::{CorrelationId, ProducerId};
use crate::protocol::envelope::{MessageType, OtkEnvelope};
use crate::protocol::messages::{Connect, ConnectAck, ConnectReject, ConnectRejectReason};
use crate::protocol::PROTOCOL_VERSION;
use crate::schema::Kind;
use crate::wire;
use crate::wire::Wire;

verus! {

/// How a handshake ends.
#[derive(Debug)]
pub enum HandshakeOutcome {
    /// The producer is let in: send `reply`, then hand every further message
    /// to `processor`.
    Accepted { reply: OtkEnvelope, processor: PostHandshakeProcessor },
    /// The producer is turned away: send `reply` and close.
    Rejected { reply: OtkEnvelope, reason: ConnectRejectReason },
}

/// Decides who is let in.
pub trait ConnectAuthoriser: Send + Sync {
    /// `Ok` lets the producer in, `Err` turns it away.
    fn authorise(&self, producer_id: &ProducerId, token: Option<&str>) -> (r: Result<
        (),
        ConnectRejectReason,
    >);
}

/// Lets everyone in.
pub struct AllowAll;

impl ConnectAuthoriser for AllowAll {
    fn authorise(&self, producer_id: &ProducerId, token: Option<&str>) -> (r: Result<
        (),
        ConnectRejectReason,
    >)
        ensures
            r is Ok,
    {
        Ok(())
    }
}

/// How a handshake ends, as a model.
pub enum Greeting {
    Accepted { reply: Tree, producer: Seq<char>, version: u8 },
    Rejected { reply: Tree, reason: ConnectRejectReason },
    Failed(HandshakeError),
}

/// The model of what the handshake gives.
pub open spec fn greeting_of(r: Result<HandshakeOutcome, HandshakeError>) -> Greeting {
    match r {
        Ok(HandshakeOutcome::Accepted { reply, processor }) => Greeting::Accepted {
            reply: reply.tree(),
            producer: processor.producer(),
            version: processor.version(),
        },
        Ok(HandshakeOutcome::Rejected { reply, reason }) => Greeting::Rejected {
            reply: reply.tree(),
            reason,
        },
        Err(e) => Greeting::Failed(e),
    }
}

/// A message of the server: it echoes the correlation id of the request.
pub open spec fn server_message(
    message_type: MessageType,
    payload: Seq<u8>,
    version: u8,
    correlation: Tree,
) -> Tree {
    Tree::Record(
        seq![
            Tree::Uint(version as int),
            message_type.tree(),
            Tree::Text("server"@),
            Tree::Nothing,
            Tree::Nothing,
            correlation,
            Tree::Octets(payload),
            Tree::Nothing,
        ],
    )
}

/// The message that lets a producer in.
pub open spec fn ack_message(version: u8, correlation: Tree) -> Tree {
    server_message(
        MessageType::ConnectAck,
        codec::encoding(Tree::Record(seq![Tree::Uint(version as int)])),
        version,
        correlation,
    )
}

/// The message that turns a producer away.
pub open spec fn reject_message(
    reason: ConnectRejectReason,
    version: u8,
    correlation: Tree,
) -> Tree {
    server_message(
        MessageType::ConnectReject,
        codec::encoding(
            Tree::Record(
                seq![reason.tree(), Tree::Uint(version as int), Tree::Uint(version as int)],
            ),
        ),
        version,
        correlation,
    )
}

/// What a first message asks for: the versions that the producer speaks and
/// what it shows to be let in.
pub struct Request {
    pub min: int,
    pub max: int,
    pub token: Option<Seq<char>>,
}

/// The request in a first message, or what is wrong with it.
pub open spec fn request(e: OtkEnvelope) -> Result<Request, HandshakeError> {
    if e.message_type != MessageType::Connect {
        Err(HandshakeError::UnexpectedMessageType(e.message_type))
    } else {
        match e.payload {
            None => Err(HandshakeError::MissingConnectPayload),
            Some(payload) => match codec::parse(Kind::Connect, payload@, 0) {
                Err(fault) => Err(HandshakeError::DecodeFailed(fault)),
                Ok((t, _)) => {
                    let parts = t->Record_0;
                    Ok(
                        Request {
                            min: parts[0]->Uint_0,
                            max: parts[1]->Uint_0,
                            token: match parts[3] {
                                Tree::Text(s) => Some(s),
                                _ => None,
                            },
                        },
                    )
                },
            },
        }
    }
}

/// Whether the authoriser is asked: the message is a request, and the server
/// speaks a version that the producer offers.
pub open spec fn is_asked(e: OtkEnvelope, version: u8) -> bool {
    request(e) matches Ok(r) && r.min <= version <= r.max
}

/// How a handshake ends, given what the authoriser says. Where the authoriser
/// is not asked, its word does not matter.
pub open spec fn greeting(
    e: OtkEnvelope,
    version: u8,
    decision: Result<(), ConnectRejectReason>,
) -> Greeting {
    match request(e) {
        Err(error) => Greeting::Failed(error),
        Ok(_) => {
            let verdict = if !is_asked(e, version) {
                Err(ConnectRejectReason::VersionNotSupported)
            } else {
                decision
            };
            match verdict {
                Ok(_) => Greeting::Accepted {
                    reply: ack_message(version, e.correlation_id.tree()),
                    producer: e.source_id@,
                    version,
                },
                Err(reason) => Greeting::Rejected {
                    reply: reject_message(reason, version, e.correlation_id.tree()),
                    reason,
                },
            }
        },
    }
}

/// The token as a model.
pub open spec fn token_text(token: Option<&str>) -> Option<Seq<char>> {
    match token {
        Some(s) => Some(s@),
        None => None,
    }
}

/// Whether a decision is one that the authoriser gives for this request: it is
/// asked about the producer that sent it and the token in it.
pub open spec fn decided_by<A: ConnectAuthoriser>(
    authoriser: &A,
    e: OtkEnvelope,
    decision: Result<(), ConnectRejectReason>,
) -> bool {
    exists|producer: ProducerId, token: Option<&str>|
        {
            &&& producer@ == e.source_id@
            &&& request(e) matches Ok(r) && r.token == token_text(token)
            &&& #[trigger] call_ensures(A::authorise, (authoriser, &producer, token), decision)
        }
}

/// Answers a producer's first message, letting everyone in.
pub fn perform_server_handshake(envelope: OtkEnvelope) -> (r: Result<
    HandshakeOutcome,
    HandshakeError,
>)
    ensures
        greeting_of(r) == greeting(envelope, PROTOCOL_VERSION, Ok(())),
{
    handshake_inner(envelope, PROTOCOL_VERSION, &AllowAll)
}

/// Answers a producer's first message, letting in whom the authoriser lets in.
pub fn perform_server_handshake_with_auth<A: ConnectAuthoriser>(
    envelope: OtkEnvelope,
    authoriser: &A,
) -> (r: Result<HandshakeOutcome, HandshakeError>)
    ensures
        exists|decision: Result<(), ConnectRejectReason>|
            {
                &&& greeting_of(r) == #[trigger] greeting(envelope, PROTOCOL_VERSION, decision)
                &&& is_asked(envelope, PROTOCOL_VERSION) ==> decided_by(
                    authoriser,
                    envelope,
                    decision,
                )
            },
{
    handshake_inner(envelope, PROTOCOL_VERSION, authoriser)
}

/// Answers a producer's first message as a server of the given protocol
/// version, letting everyone in.
pub fn handshake_with_server_version(envelope: OtkEnvelope, server_version: u8) -> (r: Result<
    HandshakeOutcome,
    HandshakeError,
>)
    ensures
        greeting_of(r) == greeting(envelope, server_version, Ok(())),
{
    handshake_inner(envelope, server_version, &AllowAll)
}

fn handshake_inner<A: ConnectAuthoriser>(
    envelope: OtkEnvelope,
    server_version: u8,
    authoriser: &A,
) -> (r: Result<HandshakeOutcome, HandshakeError>)
    ensures
        exists|decision: Result<(), ConnectRejectReason>|
            {
                &&& greeting_of(r) == #[trigger] greeting(envelope, server_version, decision)
                &&& is_asked(envelope, server_version) ==> decided_by(
                    authoriser,
                    envelope,
                    decision,
                )
            },
{
    let ghost nobody = Ok::<(), ConnectRejectReason>(());
    let connect = match read_connect(&envelope) {
        Ok(connect) => connect,
        Err(e) => {
            assert(greeting(envelope, server_version, nobody) == Greeting::Failed(e));
            return Err(e);
        },
    };
    let decision = if connect.protocol_version_min <= server_version && server_version
        <= connect.protocol_version_max {
        let token: Option<&str> = match &connect.auth_token {
            Some(s) => Some(s.as_str()),
            None => None,
        };
        let decision = authoriser.authorise(&envelope.source_id, token);
        proof {
            assert(request(envelope)->Ok_0.token == token_text(token));
            assert(call_ensures(A::authorise, (authoriser, &envelope.source_id, token), decision));
            assert(decided_by(authoriser, envelope, decision));
        }
        decision
    } else {
        Err(ConnectRejectReason::VersionNotSupported)
    };
    let r = answer(envelope, server_version, decision);
    assert(greeting_of(Ok(r)) == greeting(envelope, server_version, decision));
    Ok(r)
}

/// Takes the request out of a producer's first message.
fn read_connect(envelope: &OtkEnvelope) -> (r: Result<Connect, HandshakeError>)
    ensures
        match r {
            Ok(connect) => request(*envelope) == Ok::<Request, HandshakeError>(
                Request {
                    min: connect.protocol_version_min as int,
                    max: connect.protocol_version_max as int,
                    token: match connect.auth_token {
                        Some(s) => Some(s@),
                        None => None,
                    },
                },
            ),
            Err(e) => request(*envelope) == Err::<Request, HandshakeError>(e),
        },
{
    if envelope.message_type != MessageType::Connect {
        return Err(HandshakeError::UnexpectedMessageType(envelope.message_type));
    }
    match &envelope.payload {
        None => Err(HandshakeError::MissingConnectPayload),
        Some(payload) => match wire::decode::<Connect>(payload.as_slice()) {
            Ok(connect) => Ok(connect),
            Err(fault) => Err(HandshakeError::DecodeFailed(fault)),
        },
    }
}

/// Answers a request with the decision on it: for one that offers no version
/// that the server speaks, the decision is [`ConnectRejectReason::VersionNotSupported`].
pub fn answer(
    envelope: OtkEnvelope,
    server_version: u8,
    decision: Result<(), ConnectRejectReason>,
) -> (r: HandshakeOutcome)
    ensures
        greeting_of(Ok(r)) == match decision {
            Ok(_) => Greeting::Accepted {
                reply: ack_message(server_version, envelope.correlation_id.tree()),
                producer: envelope.source_id@,
                version: server_version,
            },
            Err(reason) => Greeting::Rejected {
                reply: reject_message(reason, server_version, envelope.correlation_id.tree()),
                reason,
            },
        },
{
    match decision {
        Ok(_) => {
            let ack = ConnectAck { negotiated_version: server_version };
            let reply = server_envelope(
                MessageType::ConnectAck,
                wire::to_vec(&ack),
                server_version,
                envelope.correlation_id,
            );
            let processor = PostHandshakeProcessor::new(envelope.source_id, server_version);
            HandshakeOutcome::Accepted { reply, processor }
        },
        Err(reason) => {
            let reject = ConnectReject {
                reason,
                supported_version_min: server_version,
                supported_version_max: server_version,
            };
            let reply = server_envelope(
                MessageType::ConnectReject,
                wire::to_vec(&reject),
                server_version,
                envelope.correlation_id,
            );
            HandshakeOutcome::Rejected { reply, reason }
        },
    }
}

/// A message of the server.
fn server_envelope(
    message_type: MessageType,
    payload: Vec<u8>,
    version: u8,
    correlation_id: Option<CorrelationId>,
) -> (r: OtkEnvelope)
    ensures
        r.tree() == server_message(message_type, payload@, version, correlation_id.tree()),
{
    OtkEnvelope {
        protocol_version: version,
        message_type,
        source_id: ProducerId::new("server"),
        stream_id: None,
        sequence_number: None,
        correlation_id,
        payload: Some(payload),
        traceparent: None,
    }
}

/// A producer is let in exactly where its message is a request, the server
/// speaks a version that it offers, and the authoriser agrees; and every
/// answer echoes the correlation id of the request.
pub proof fn law_greeting(
    e: OtkEnvelope,
    version: u8,
    decision: Result<(), ConnectRejectReason>,
)
    ensures
        greeting(e, version, decision) is Accepted <==> is_asked(e, version) && decision is Ok,
        greeting(e, version, decision) is Failed <==> request(e) is Err,
        match greeting(e, version, decision) {
            Greeting::Accepted { reply, .. } => reply->Record_0[5] == e.correlation_id.tree(),
            Greeting::Rejected { reply, .. } => reply->Record_0[5] == e.correlation_id.tree(),
            Greeting::Failed(_) => true,
        },
{
}

} // verus!
