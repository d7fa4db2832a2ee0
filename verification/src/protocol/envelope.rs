//! The envelope that wraps every message on the wire.

use vstd::pervasive::unreached;
use vstd::prelude::*;

use crate::codec;
use crate::codec::{DecodeFault, Node, Tree};
use crate::model::ids::{CorrelationId, ProducerId, StreamId};
use crate::schema;
use crate::schema::{Field, Kind};
use crate::wire;
use crate::wire::{take_last, Wire};

verus! {

/// The kinds of messages.
#[derive(Debug, Clone, Copy, PartialEq, Eq, Structural)]
pub enum MessageType {
    /// Carries an event.
    Event,
    /// A producer asks to be let in.
    Connect,
    /// The server lets the producer in.
    ConnectAck,
    /// The server turns the producer away.
    ConnectReject,
    /// A sign of life, from either side.
    Heartbeat,
    /// The server reports a problem with a message.
    Error,
    /// The producer takes its leave.
    Disconnect,
}

impl MessageType {
    /// The number of the variant on the wire.
    pub open spec fn number(self) -> int {
        match self {
            MessageType::Event => 0,
            MessageType::Connect => 1,
            MessageType::ConnectAck => 2,
            MessageType::ConnectReject => 3,
            MessageType::Heartbeat => 4,
            MessageType::Error => 5,
            MessageType::Disconnect => 6,
        }
    }
}

impl MessageType {
    /// The name of the message type.
    pub open spec fn name_text(self) -> Seq<char> {
        match self {
            MessageType::Event => "Event"@,
            MessageType::Connect => "Connect"@,
            MessageType::ConnectAck => "ConnectAck"@,
            MessageType::ConnectReject => "ConnectReject"@,
            MessageType::Heartbeat => "Heartbeat"@,
            MessageType::Error => "Error"@,
            MessageType::Disconnect => "Disconnect"@,
        }
    }

    /// The name of the message type.
    pub fn name(&self) -> (r: &'static str)
        ensures
            r@ == self.name_text(),
    {
        match self {
            MessageType::Event => "Event",
            MessageType::Connect => "Connect",
            MessageType::ConnectAck => "ConnectAck",
            MessageType::ConnectReject => "ConnectReject",
            MessageType::Heartbeat => "Heartbeat",
            MessageType::Error => "Error",
            MessageType::Disconnect => "Disconnect",
        }
    }
}

impl Wire for MessageType {
    open spec fn field() -> Field {
        schema::req(Kind::MessageType)
    }

    open spec fn tree(&self) -> Tree {
        Tree::Choice(self.number(), seq![])
    }

    proof fn lemma_conforms(&self) {
        reveal(schema::shape);
        reveal(schema::fields);
        assert(codec::fields_conform(Kind::MessageType, self.number(), seq![]));
    }

    fn kind() -> (r: Kind) {
        Kind::MessageType
    }

    fn to_node(&self) -> (r: Node) {
        let number: u8 = match self {
            MessageType::Event => 0,
            MessageType::Connect => 1,
            MessageType::ConnectAck => 2,
            MessageType::ConnectReject => 3,
            MessageType::Heartbeat => 4,
            MessageType::Error => 5,
            MessageType::Disconnect => 6,
        };
        let node = Node::Choice(number, Vec::new());
        proof {
            codec::lemma_trees(node);
            assert(codec::trees(seq![]) =~= seq![]);
        }
        node
    }

    fn from_node(node: Node) -> (r: Self) {
        proof {
            reveal(schema::shape);
            reveal(schema::fields);
            codec::lemma_trees(node);
            assert(codec::fields_conform(
                Kind::MessageType,
                node.tree()->Choice_0,
                node.tree()->Choice_1,
            ));
            assert(node.tree()->Choice_1 =~= seq![]);
        }
        match node {
            Node::Choice(number, _) => match number {
                0 => MessageType::Event,
                1 => MessageType::Connect,
                2 => MessageType::ConnectAck,
                3 => MessageType::ConnectReject,
                4 => MessageType::Heartbeat,
                5 => MessageType::Error,
                _ => MessageType::Disconnect,
            },
            _ => unreached(),
        }
    }
}

/// The header of every message.
///
/// The payload is the CBOR form of what the message type names; only a
/// [`MessageType::Disconnect`] has none.
#[derive(Debug)]
pub struct OtkEnvelope {
    /// The protocol version that the message is written in.
    pub protocol_version: u8,
    /// What the payload is.
    pub message_type: MessageType,
    /// Who sends the message.
    pub source_id: ProducerId,
    /// The stream that the message belongs to, where it is about one.
    pub stream_id: Option<StreamId>,
    /// Counts the messages of a stream, so that gaps show.
    pub sequence_number: Option<u64>,
    /// Links a request to its reply: the sender sets it, the reply echoes it.
    pub correlation_id: Option<CorrelationId>,
    /// The CBOR form of the content.
    pub payload: Option<Vec<u8>>,
    /// The W3C trace context of the message. Checked before it is trusted; an older
    /// sender leaves it out, and then it is `None`.
    pub traceparent: Option<String>,
}

impl Clone for OtkEnvelope {
    fn clone(&self) -> (r: Self)
        ensures
            r.tree() == self.tree(),
    {
        Self {
            protocol_version: self.protocol_version,
            message_type: self.message_type,
            source_id: self.source_id.clone(),
            stream_id: self.stream_id.clone(),
            sequence_number: self.sequence_number,
            correlation_id: self.correlation_id.clone(),
            payload: self.payload.clone(),
            traceparent: self.traceparent.clone(),
        }
    }
}

impl Wire for OtkEnvelope {
    open spec fn field() -> Field {
        schema::req(Kind::Envelope)
    }

    open spec fn tree(&self) -> Tree {
        Tree::Record(
            seq![
                self.protocol_version.tree(),
                self.message_type.tree(),
                self.source_id.tree(),
                self.stream_id.tree(),
                self.sequence_number.tree(),
                self.correlation_id.tree(),
                self.payload.tree(),
                self.traceparent.tree(),
            ],
        )
    }

    proof fn lemma_conforms(&self) {
        reveal(schema::shape);
        reveal(schema::fields);
        self.protocol_version.lemma_conforms();
        self.message_type.lemma_conforms();
        self.source_id.lemma_conforms();
        self.stream_id.lemma_conforms();
        self.sequence_number.lemma_conforms();
        self.correlation_id.lemma_conforms();
        self.payload.lemma_conforms();
        self.traceparent.lemma_conforms();
        assert(codec::fields_conform(Kind::Envelope, 0, self.tree()->Record_0));
    }

    fn kind() -> (r: Kind) {
        Kind::Envelope
    }

    fn to_node(&self) -> (r: Node) {
        let parts: Vec<Node> = vec![
            self.protocol_version.to_node(),
            self.message_type.to_node(),
            self.source_id.to_node(),
            self.stream_id.to_node(),
            self.sequence_number.to_node(),
            self.correlation_id.to_node(),
            self.payload.to_node(),
            self.traceparent.to_node(),
        ];
        let node = Node::Record(parts);
        proof {
            codec::lemma_trees(node);
            assert(codec::trees(parts@) =~= self.tree()->Record_0);
        }
        node
    }

    fn from_node(node: Node) -> (r: Self) {
        proof {
            reveal(schema::shape);
            reveal(schema::fields);
            codec::lemma_trees(node);
            assert(codec::fields_conform(Kind::Envelope, 0, node.tree()->Record_0));
        }
        let mut parts: Vec<Node> = match node {
            Node::Record(parts) => parts,
            _ => unreached(),
        };
        let ghost ts = codec::trees(parts@);
        assert(ts.len() == 8);
        assert(wire::field_conforms(ts[0], <u8 as Wire>::field()));
        assert(wire::field_conforms(ts[1], <MessageType as Wire>::field()));
        assert(wire::field_conforms(ts[2], <ProducerId as Wire>::field()));
        assert(wire::field_conforms(ts[3], <Option<StreamId> as Wire>::field()));
        assert(wire::field_conforms(ts[4], <Option<u64> as Wire>::field()));
        assert(wire::field_conforms(ts[5], <Option<CorrelationId> as Wire>::field()));
        assert(wire::field_conforms(ts[6], <Option<Vec<u8>> as Wire>::field()));
        assert(wire::field_conforms(ts[7], <Option<String> as Wire>::field()));
        let traceparent = <Option<String> as Wire>::from_node(take_last(&mut parts));
        let payload = <Option<Vec<u8>> as Wire>::from_node(take_last(&mut parts));
        let correlation_id = <Option<CorrelationId> as Wire>::from_node(take_last(&mut parts));
        let sequence_number = <Option<u64> as Wire>::from_node(take_last(&mut parts));
        let stream_id = <Option<StreamId> as Wire>::from_node(take_last(&mut parts));
        let source_id = <ProducerId as Wire>::from_node(take_last(&mut parts));
        let message_type = <MessageType as Wire>::from_node(take_last(&mut parts));
        let protocol_version = <u8 as Wire>::from_node(take_last(&mut parts));
        let r = Self {
            protocol_version,
            message_type,
            source_id,
            stream_id,
            sequence_number,
            correlation_id,
            payload,
            traceparent,
        };
        assert(r.tree()->Record_0 =~= ts);
        r
    }
}

/// What an encoder writes for an envelope that knows nothing of trace contexts.
pub open spec fn tree_without_traceparent(e: OtkEnvelope) -> Tree {
    Tree::Record(e.tree()->Record_0.drop_last())
}

/// Encoders that know nothing of trace contexts are understood: what they write
/// is read as the same envelope, without a trace context.
pub proof fn law_traceparent_may_be_left_out(e: OtkEnvelope)
    requires
        codec::fits(e.tree()),
    ensures
        ({
            let bytes = codec::encoding(tree_without_traceparent(e));
            codec::parse(Kind::Envelope, bytes, 0) == Ok::<(Tree, int), DecodeFault>(
                (OtkEnvelope { traceparent: None, ..e }.tree(), bytes.len() as int),
            )
        }),
{
    let plain = OtkEnvelope { traceparent: None, ..e };
    let ts = e.tree()->Record_0.drop_last();
    assert(plain.tree()->Record_0 =~= ts.push(Tree::Nothing));
    codec::lemma_unset_last_field(ts);
    assert forall|i: int| 0 <= i < 8 implies codec::fits(
        #[trigger] plain.tree()->Record_0[i],
    ) by {
        if i < 7 {
            assert(plain.tree()->Record_0[i] == e.tree()->Record_0[i]);
        }
    }
    wire::law_decode_of_to_vec(&plain);
}

} // verus!
