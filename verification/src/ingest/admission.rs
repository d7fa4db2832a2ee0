//! Who is let in, and what a producer is answered.

use vstd::prelude::*;

use crate::codec;
use crate::codec::{DecodeFault, Tree};
use crate::ingest::error::HandshakeError;
use crate::ingest::handshake;
use crate::ingest::handshake::{ConnectAuthoriser, HandshakeOutcome};
use crate::model::ids::{CorrelationId, ProducerId};
use crate::numbering;
use crate::protocol::envelope::{MessageType, OtkEnvelope};
use crate::protocol::messages::{Connect, ConnectRejectReason};
use crate::wire;
use crate::wire::Wire;

verus! {

/// The text of an identifier that may be missing.
pub open spec fn correlation_text(id: Option<CorrelationId>) -> Option<Seq<char>> {
    match id {
        Some(id) => Some(id@),
        None => None,
    }
}

/// Whether a message answers a request as the server: in its version and under
/// its own name, with the correlation id of the request, and with nothing else
/// but the given contents.
pub open spec fn answers(
    reply: OtkEnvelope,
    e: OtkEnvelope,
    version: u8,
    message_type: MessageType,
    contents: Tree,
) -> bool {
    &&& reply.protocol_version == version
    &&& reply.message_type == message_type
    &&& reply.source_id@ == "server"@
    &&& reply.stream_id is None
    &&& reply.sequence_number is None
    &&& correlation_text(reply.correlation_id) == correlation_text(e.correlation_id)
    &&& reply.payload matches Some(payload) && payload@ == codec::encoding(contents)
    &&& reply.traceparent is None
}

/// Whether a handshake ended with the producer being let in: under the name
/// that its message is sent in, and in the server's version.
pub open spec fn lets_in(
    r: Result<HandshakeOutcome, HandshakeError>,
    e: OtkEnvelope,
    version: u8,
) -> bool {
    &&& r matches Ok(HandshakeOutcome::Accepted { reply, processor })
    &&& processor.producer() == e.source_id@
    &&& processor.version() == version
    &&& answers(
        reply,
        e,
        version,
        MessageType::ConnectAck,
        Tree::Record(seq![Tree::Uint(version as int)]),
    )
}

/// Whether a handshake ended with the producer being turned away for a reason,
/// and being told which version the server speaks.
pub open spec fn turns_away(
    r: Result<HandshakeOutcome, HandshakeError>,
    e: OtkEnvelope,
    version: u8,
    why: ConnectRejectReason,
) -> bool {
    &&& r matches Ok(HandshakeOutcome::Rejected { reply, reason })
    &&& reason == why
    &&& answers(
        reply,
        e,
        version,
        MessageType::ConnectReject,
        Tree::Record(
            seq![
                Tree::Choice(
                    match why {
                        ConnectRejectReason::VersionNotSupported => 0,
                        ConnectRejectReason::Unauthorized => 1,
                    },
                    seq![],
                ),
                Tree::Uint(version as int),
                Tree::Uint(version as int),
            ],
        ),
    )
}

/// The text of a token that may be missing.
pub open spec fn shown(token: Option<String>) -> Option<Seq<char>> {
    match token {
        Some(s) => Some(s@),
        None => None,
    }
}

/// The text of a token that may be missing.
pub open spec fn heard(token: Option<&str>) -> Option<Seq<char>> {
    match token {
        Some(s) => Some(s@),
        None => None,
    }
}

/// Whether a message carries a request: its contents begin with the request's
/// CBOR form, as [`wire::to_vec`] writes it.
pub open spec fn carries(e: OtkEnvelope, connect: Connect) -> bool {
    exists|written: Vec<u8>, rest: Seq<u8>| #[trigger] carries_before(e, connect, written, rest)
}

/// The contents of a message are the request, and then the rest.
pub open spec fn carries_before(
    e: OtkEnvelope,
    connect: Connect,
    written: Vec<u8>,
    rest: Seq<u8>,
) -> bool {
    &&& e.message_type == MessageType::Connect
    &&& call_ensures(wire::to_vec::<Connect>, (&connect,), written)
    &&& e.payload matches Some(payload) && payload@ == written@ + rest
}

/// Messages with the same fields.
proof fn lemma_answers(
    reply: OtkEnvelope,
    e: OtkEnvelope,
    version: u8,
    message_type: MessageType,
    contents: Tree,
)
    requires
        reply.tree() == handshake::server_message(
            message_type,
            codec::encoding(contents),
            version,
            e.correlation_id.tree(),
        ),
    ensures
        answers(reply, e, version, message_type, contents),
{
    numbering::law_envelope_fields(reply);
    numbering::law_envelope_fields(e);
    let parts = handshake::server_message(
        message_type,
        codec::encoding(contents),
        version,
        e.correlation_id.tree(),
    )->Record_0;
    assert(parts[0] == Tree::Uint(version as int));
    assert(parts[1] == message_type.tree());
    assert(parts[2] == Tree::Text("server"@));
    assert(parts[3] == Tree::Nothing);
    assert(parts[4] == Tree::Nothing);
    assert(parts[5] == e.correlation_id.tree());
    assert(parts[6] == Tree::Octets(codec::encoding(contents)));
    assert(parts[7] == Tree::Nothing);
    assert(reply.message_type.tree() == message_type.tree());
    assert(reply.message_type.number() == message_type.number());
}

/// What is read of a request that a message carries.
pub proof fn lemma_request(e: OtkEnvelope, connect: Connect)
    requires
        carries(e, connect),
    ensures
        handshake::request(e) matches Ok(asked) && asked.min == connect.protocol_version_min
            && asked.max == connect.protocol_version_max && asked.token == shown(
            connect.auth_token,
        ),
{
    let (written, rest) = choose|written: Vec<u8>, rest: Seq<u8>|
        #[trigger] carries_before(e, connect, written, rest);
    numbering::law_connect_fields(connect);
    assert(codec::parse(<Connect as Wire>::field().kind, written@ + rest, 0) == Ok::<
        (Tree, int),
        DecodeFault,
    >((connect.tree(), written@.len() as int)));
}

/// What an answer holds, field by field.
proof fn lemma_outcome(
    r: Result<HandshakeOutcome, HandshakeError>,
    e: OtkEnvelope,
    version: u8,
    decision: Result<(), ConnectRejectReason>,
)
    requires
        handshake::greeting_of(r) == handshake::greeting(e, version, decision),
        handshake::request(e) is Ok,
    ensures
        if !handshake::is_asked(e, version) {
            turns_away(r, e, version, ConnectRejectReason::VersionNotSupported)
        } else {
            match decision {
                Ok(_) => lets_in(r, e, version),
                Err(reason) => turns_away(r, e, version, reason),
            }
        },
{
    match r {
        Ok(HandshakeOutcome::Accepted { reply, processor }) => {
            lemma_answers(
                reply,
                e,
                version,
                MessageType::ConnectAck,
                Tree::Record(seq![Tree::Uint(version as int)]),
            );
        },
        Ok(HandshakeOutcome::Rejected { reply, reason }) => {
            numbering::law_reject_reason_numbers(reason);
            let contents = Tree::Record(
                seq![reason.tree(), Tree::Uint(version as int), Tree::Uint(version as int)],
            );
            lemma_answers(reply, e, version, MessageType::ConnectReject, contents);
        },
        Err(_) => {},
    }
}

/// With an authoriser whose word is a function of the producer's name and the
/// token, a producer that offers a version that the server speaks (which is
/// version 0) is let in if and only if that function allows the name that the
/// message is sent in with the token in the request, and is otherwise turned away
/// for the reason that the function gives. A producer that offers no such version
/// is turned away for that, whatever the authoriser would say.
pub proof fn law_who_is_let_in<A: ConnectAuthoriser>(
    authoriser: &A,
    f: spec_fn(Seq<char>, Option<Seq<char>>) -> Result<(), ConnectRejectReason>,
    e: OtkEnvelope,
    connect: Connect,
    r: Result<HandshakeOutcome, HandshakeError>,
)
    requires
        call_ensures(handshake::perform_server_handshake_with_auth::<A>, (e, authoriser), r),
        forall|producer: ProducerId, token: Option<&str>, word: Result<(), ConnectRejectReason>|
            #[trigger] call_ensures(A::authorise, (authoriser, &producer, token), word) ==> word
                == f(producer@, heard(token)),
        carries(e, connect),
    ensures
        if connect.protocol_version_min <= 0 <= connect.protocol_version_max {
            match f(e.source_id@, shown(connect.auth_token)) {
                Ok(_) => lets_in(r, e, 0),
                Err(reason) => turns_away(r, e, 0, reason),
            }
        } else {
            turns_away(r, e, 0, ConnectRejectReason::VersionNotSupported)
        },
{
    lemma_request(e, connect);
    let decision = choose|decision: Result<(), ConnectRejectReason>|
        {
            &&& handshake::greeting_of(r) == #[trigger] handshake::greeting(e, 0, decision)
            &&& handshake::is_asked(e, 0) ==> handshake::decided_by(authoriser, e, decision)
        };
    lemma_outcome(r, e, 0, decision);
    if handshake::is_asked(e, 0) {
        assert(handshake::decided_by(authoriser, e, decision));
        let (producer, token) = choose|producer: ProducerId, token: Option<&str>|
            {
                &&& producer@ == e.source_id@
                &&& handshake::request(e) matches Ok(asked) && asked.token
                    == handshake::token_text(token)
                &&& #[trigger] call_ensures(A::authorise, (authoriser, &producer, token), decision)
            };
        assert(decision == f(producer@, heard(token)));
        assert(heard(token) == shown(connect.auth_token));
    }
}

/// Without an authoriser, a producer is let in if and only if it offers a version
/// that the server speaks.
pub proof fn law_everyone_is_let_in(
    e: OtkEnvelope,
    connect: Connect,
    version: u8,
    r: Result<HandshakeOutcome, HandshakeError>,
)
    requires
        call_ensures(handshake::handshake_with_server_version, (e, version), r) || (version == 0
            && call_ensures(handshake::perform_server_handshake, (e,), r)),
        carries(e, connect),
    ensures
        if connect.protocol_version_min <= version <= connect.protocol_version_max {
            lets_in(r, e, version)
        } else {
            turns_away(r, e, version, ConnectRejectReason::VersionNotSupported)
        },
{
    lemma_request(e, connect);
    lemma_outcome(r, e, version, Ok(()));
}

/// Whether a handshake fails as it has to: a first message that is no request, or
/// that has no contents, or none that can be read, is answered by nothing.
pub open spec fn fails_rightly(
    e: OtkEnvelope,
    r: Result<HandshakeOutcome, HandshakeError>,
    unreadable: DecodeFault,
) -> bool {
    if e.message_type != MessageType::Connect {
        r == Err::<HandshakeOutcome, HandshakeError>(
            HandshakeError::UnexpectedMessageType(e.message_type),
        )
    } else if e.payload is None {
        r == Err::<HandshakeOutcome, HandshakeError>(HandshakeError::MissingConnectPayload)
    } else {
        r == Err::<HandshakeOutcome, HandshakeError>(HandshakeError::DecodeFailed(unreadable))
    }
}

/// Nobody is let in or turned away without having asked, whoever decides and in
/// whatever version: a first message of another kind, without contents, or with
/// contents that [`wire::decode`] does not take for a request, is an error that
/// says so.
pub proof fn law_only_requests_are_answered<A: ConnectAuthoriser>(
    authoriser: &A,
    e: OtkEnvelope,
    version: u8,
    unreadable: DecodeFault,
    r: Result<HandshakeOutcome, HandshakeError>,
)
    requires
        call_ensures(handshake::perform_server_handshake_with_auth::<A>, (e, authoriser), r)
            || call_ensures(handshake::perform_server_handshake, (e,), r) || call_ensures(
            handshake::handshake_with_server_version,
            (e, version),
            r,
        ),
        e.message_type != MessageType::Connect || (match e.payload {
            None => true,
            Some(payload) => exists|input: &[u8]|
                input@ == payload@ && #[trigger] call_ensures(
                    wire::decode::<Connect>,
                    (input,),
                    Err::<Connect, DecodeFault>(unreadable),
                ),
        }),
    ensures
        fails_rightly(e, r, unreadable),
{
}

} // verus!
