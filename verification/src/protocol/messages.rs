//! The contents of the messages that are not events.

use vstd::pervasive::unreached;
use vstd::prelude::*;

use crate::codec;
use crate::codec::{Node, Tree};
use crate::model::stream::StreamDescriptor;
use crate::schema;
use crate::schema::{Field, Kind};
use crate::wire;
use crate::wire::{take_last, Wire};

verus! {

/// Why a producer is turned away.
#[derive(Debug, Clone, Copy, PartialEq, Eq, Structural)]
pub enum ConnectRejectReason {
    /// The server speaks none of the versions that the producer offers.
    VersionNotSupported,
    /// The producer is not allowed in.
    Unauthorized,
}

impl ConnectRejectReason {
    /// The number of the variant on the wire.
    pub open spec fn number(self) -> int {
        match self {
            ConnectRejectReason::VersionNotSupported => 0,
            ConnectRejectReason::Unauthorized => 1,
        }
    }
}

impl ConnectRejectReason {
    /// The name of the reason.
    pub open spec fn name_text(self) -> Seq<char> {
        match self {
            ConnectRejectReason::VersionNotSupported => "VersionNotSupported"@,
            ConnectRejectReason::Unauthorized => "Unauthorized"@,
        }
    }

    /// The name of the reason.
    pub fn name(&self) -> (r: &'static str)
        ensures
            r@ == self.name_text(),
    {
        match self {
            ConnectRejectReason::VersionNotSupported => "VersionNotSupported",
            ConnectRejectReason::Unauthorized => "Unauthorized",
        }
    }
}

impl Wire for ConnectRejectReason {
    open spec fn field() -> Field {
        schema::req(Kind::ConnectRejectReason)
    }

    open spec fn tree(&self) -> Tree {
        Tree::Choice(self.number(), seq![])
    }

    proof fn lemma_conforms(&self) {
        reveal(schema::shape);
        reveal(schema::fields);
        assert(codec::fields_conform(Kind::ConnectRejectReason, self.number(), seq![]));
    }

    fn kind() -> (r: Kind) {
        Kind::ConnectRejectReason
    }

    fn to_node(&self) -> (r: Node) {
        let number: u8 = match self {
            ConnectRejectReason::VersionNotSupported => 0,
            ConnectRejectReason::Unauthorized => 1,
        };
        let node = Node::Choice(number, Vec::new());
        proof {
            codec::lemma_trees(node);
            assert(codec::trees(seq![]) =~= seq![]);
        }
        node
    }

    fn from_node(node: Node) -> (r: Self) {
        proof {
            reveal(schema::shape);
            reveal(schema::fields);
            codec::lemma_trees(node);
            assert(codec::fields_conform(
                Kind::ConnectRejectReason,
                node.tree()->Choice_0,
                node.tree()->Choice_1,
            ));
            assert(node.tree()->Choice_1 =~= seq![]);
        }
        match node {
            Node::Choice(number, _) => match number {
                0 => ConnectRejectReason::VersionNotSupported,
                _ => ConnectRejectReason::Unauthorized,
            },
            _ => unreached(),
        }
    }
}

/// A producer asks to be let in.
#[derive(Debug)]
pub struct Connect {
    /// The oldest protocol version that the producer speaks.
    pub protocol_version_min: u8,
    /// The newest protocol version that the producer speaks.
    pub protocol_version_max: u8,
    /// The streams that the producer will send.
    pub streams: Vec<StreamDescriptor>,
    /// What the producer shows to be let in.
    pub auth_token: Option<String>,
}

impl Clone for Connect {
    fn clone(&self) -> (r: Self)
        ensures
            r.tree() == self.tree(),
    {
        Self {
            protocol_version_min: self.protocol_version_min,
            protocol_version_max: self.protocol_version_max,
            streams: self.streams.clone(),
            auth_token: self.auth_token.clone(),
        }
    }
}

impl Wire for Connect {
    open spec fn field() -> Field {
        schema::req(Kind::Connect)
    }

    open spec fn tree(&self) -> Tree {
        Tree::Record(
            seq![
                self.protocol_version_min.tree(),
                self.protocol_version_max.tree(),
                self.streams.tree(),
                self.auth_token.tree(),
            ],
        )
    }

    proof fn lemma_conforms(&self) {
        reveal(schema::shape);
        reveal(schema::fields);
        self.protocol_version_min.lemma_conforms();
        self.protocol_version_max.lemma_conforms();
        self.streams.lemma_conforms();
        self.auth_token.lemma_conforms();
        assert(codec::fields_conform(Kind::Connect, 0, self.tree()->Record_0));
    }

    fn kind() -> (r: Kind) {
        Kind::Connect
    }

    fn to_node(&self) -> (r: Node) {
        let parts: Vec<Node> = vec![
            self.protocol_version_min.to_node(),
            self.protocol_version_max.to_node(),
            self.streams.to_node(),
            self.auth_token.to_node(),
        ];
        let node = Node::Record(parts);
        proof {
            codec::lemma_trees(node);
            assert(codec::trees(parts@) =~= self.tree()->Record_0);
        }
        node
    }

    fn from_node(node: Node) -> (r: Self) {
        proof {
            reveal(schema::shape);
            reveal(schema::fields);
            codec::lemma_trees(node);
            assert(codec::fields_conform(Kind::Connect, 0, node.tree()->Record_0));
        }
        let mut parts: Vec<Node> = match node {
            Node::Record(parts) => parts,
            _ => unreached(),
        };
        let ghost ts = codec::trees(parts@);
        assert(ts.len() == 4);
        assert(wire::field_conforms(ts[0], <u8 as Wire>::field()));
        assert(wire::field_conforms(ts[1], <u8 as Wire>::field()));
        assert(wire::field_conforms(ts[2], <Vec<StreamDescriptor> as Wire>::field()));
        assert(wire::field_conforms(ts[3], <Option<String> as Wire>::field()));
        let auth_token = <Option<String> as Wire>::from_node(take_last(&mut parts));
        let streams = <Vec<StreamDescriptor> as Wire>::from_node(take_last(&mut parts));
        let protocol_version_max = <u8 as Wire>::from_node(take_last(&mut parts));
        let protocol_version_min = <u8 as Wire>::from_node(take_last(&mut parts));
        let r = Self {
            protocol_version_min,
            protocol_version_max,
            streams,
            auth_token,
        };
        assert(r.tree()->Record_0 =~= ts);
        r
    }
}

/// The server lets the producer in.
#[derive(Debug)]
pub struct ConnectAck {
    /// The protocol version of all messages from here on.
    pub negotiated_version: u8,
}

impl Clone for ConnectAck {
    fn clone(&self) -> (r: Self)
        ensures
            r == *self,
    {
        Self {
            negotiated_version: self.negotiated_version,
        }
    }
}

impl Wire for ConnectAck {
    open spec fn field() -> Field {
        schema::req(Kind::ConnectAck)
    }

    open spec fn tree(&self) -> Tree {
        Tree::Record(
            seq![
                self.negotiated_version.tree(),
            ],
        )
    }

    proof fn lemma_conforms(&self) {
        reveal(schema::shape);
        reveal(schema::fields);
        self.negotiated_version.lemma_conforms();
        assert(codec::fields_conform(Kind::ConnectAck, 0, self.tree()->Record_0));
    }

    fn kind() -> (r: Kind) {
        Kind::ConnectAck
    }

    fn to_node(&self) -> (r: Node) {
        let parts: Vec<Node> = vec![
            self.negotiated_version.to_node(),
        ];
        let node = Node::Record(parts);
        proof {
            codec::lemma_trees(node);
            assert(codec::trees(parts@) =~= self.tree()->Record_0);
        }
        node
    }

    fn from_node(node: Node) -> (r: Self) {
        proof {
            reveal(schema::shape);
            reveal(schema::fields);
            codec::lemma_trees(node);
            assert(codec::fields_conform(Kind::ConnectAck, 0, node.tree()->Record_0));
        }
        let mut parts: Vec<Node> = match node {
            Node::Record(parts) => parts,
            _ => unreached(),
        };
        let ghost ts = codec::trees(parts@);
        assert(ts.len() == 1);
        assert(wire::field_conforms(ts[0], <u8 as Wire>::field()));
        let negotiated_version = <u8 as Wire>::from_node(take_last(&mut parts));
        let r = Self { negotiated_version };
        assert(r.tree()->Record_0 =~= ts);
        r
    }
}

/// The server turns the producer away.
#[derive(Debug)]
pub struct ConnectReject {
    /// Why.
    pub reason: ConnectRejectReason,
    /// The oldest protocol version that the server speaks.
    pub supported_version_min: u8,
    /// The newest protocol version that the server speaks.
    pub supported_version_max: u8,
}

impl Clone for ConnectReject {
    fn clone(&self) -> (r: Self)
        ensures
            r == *self,
    {
        Self {
            reason: self.reason,
            supported_version_min: self.supported_version_min,
            supported_version_max: self.supported_version_max,
        }
    }
}

impl Wire for ConnectReject {
    open spec fn field() -> Field {
        schema::req(Kind::ConnectReject)
    }

    open spec fn tree(&self) -> Tree {
        Tree::Record(
            seq![
                self.reason.tree(),
                self.supported_version_min.tree(),
                self.supported_version_max.tree(),
            ],
        )
    }

    proof fn lemma_conforms(&self) {
        reveal(schema::shape);
        reveal(schema::fields);
        self.reason.lemma_conforms();
        self.supported_version_min.lemma_conforms();
        self.supported_version_max.lemma_conforms();
        assert(codec::fields_conform(Kind::ConnectReject, 0, self.tree()->Record_0));
    }

    fn kind() -> (r: Kind) {
        Kind::ConnectReject
    }

    fn to_node(&self) -> (r: Node) {
        let parts: Vec<Node> = vec![
            self.reason.to_node(),
            self.supported_version_min.to_node(),
            self.supported_version_max.to_node(),
        ];
        let node = Node::Record(parts);
        proof {
            codec::lemma_trees(node);
            assert(codec::trees(parts@) =~= self.tree()->Record_0);
        }
        node
    }

    fn from_node(node: Node) -> (r: Self) {
        proof {
            reveal(schema::shape);
            reveal(schema::fields);
            codec::lemma_trees(node);
            assert(codec::fields_conform(Kind::ConnectReject, 0, node.tree()->Record_0));
        }
        let mut parts: Vec<Node> = match node {
            Node::Record(parts) => parts,
            _ => unreached(),
        };
        let ghost ts = codec::trees(parts@);
        assert(ts.len() == 3);
        assert(wire::field_conforms(ts[0], <ConnectRejectReason as Wire>::field()));
        assert(wire::field_conforms(ts[1], <u8 as Wire>::field()));
        assert(wire::field_conforms(ts[2], <u8 as Wire>::field()));
        let supported_version_max = <u8 as Wire>::from_node(take_last(&mut parts));
        let supported_version_min = <u8 as Wire>::from_node(take_last(&mut parts));
        let reason = <ConnectRejectReason as Wire>::from_node(take_last(&mut parts));
        let r = Self { reason, supported_version_min, supported_version_max };
        assert(r.tree()->Record_0 =~= ts);
        r
    }
}

/// A sign of life.
#[derive(Debug)]
pub struct Heartbeat {
    /// When it was sent.
    pub sent_at_ns: u64,
}

impl Clone for Heartbeat {
    fn clone(&self) -> (r: Self)
        ensures
            r == *self,
    {
        Self {
            sent_at_ns: self.sent_at_ns,
        }
    }
}

impl Wire for Heartbeat {
    open spec fn field() -> Field {
        schema::req(Kind::Heartbeat)
    }

    open spec fn tree(&self) -> Tree {
        Tree::Record(
            seq![
                self.sent_at_ns.tree(),
            ],
        )
    }

    proof fn lemma_conforms(&self) {
        reveal(schema::shape);
        reveal(schema::fields);
        self.sent_at_ns.lemma_conforms();
        assert(codec::fields_conform(Kind::Heartbeat, 0, self.tree()->Record_0));
    }

    fn kind() -> (r: Kind) {
        Kind::Heartbeat
    }

    fn to_node(&self) -> (r: Node) {
        let parts: Vec<Node> = vec![
            self.sent_at_ns.to_node(),
        ];
        let node = Node::Record(parts);
        proof {
            codec::lemma_trees(node);
            assert(codec::trees(parts@) =~= self.tree()->Record_0);
        }
        node
    }

    fn from_node(node: Node) -> (r: Self) {
        proof {
            reveal(schema::shape);
            reveal(schema::fields);
            codec::lemma_trees(node);
            assert(codec::fields_conform(Kind::Heartbeat, 0, node.tree()->Record_0));
        }
        let mut parts: Vec<Node> = match node {
            Node::Record(parts) => parts,
            _ => unreached(),
        };
        let ghost ts = codec::trees(parts@);
        assert(ts.len() == 1);
        assert(wire::field_conforms(ts[0], <u64 as Wire>::field()));
        let sent_at_ns = <u64 as Wire>::from_node(take_last(&mut parts));
        let r = Self { sent_at_ns };
        assert(r.tree()->Record_0 =~= ts);
        r
    }
}

} // verus!
