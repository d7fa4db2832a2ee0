//! What an adapter says of itself.

use vstd::pervasive::unreached;
use vstd::prelude::*;

use crate::codec;
use crate::codec::{Node, Tree};
use crate::model::ids::{DetectorId, TimebaseId, TimingPointId};
use crate::model::stream::StreamDescriptor;
use crate::model::timestamp::{SourceAttestation, TimestampingMethod};
use crate::schema;
use crate::schema::{Field, Kind};
use crate::wire;
use crate::wire::{take_last, Wire};

verus! {

/// What an adapter can do.
#[derive(Debug)]
pub struct AdapterCapabilities {
    /// The streams that it offers.
    pub streams: Vec<StreamDescriptor>,
    /// How it takes times.
    pub timestamping_method: TimestampingMethod,
    /// The resolution of its times.
    pub declared_resolution_ns: Option<u64>,
}

impl Clone for AdapterCapabilities {
    fn clone(&self) -> (r: Self)
        ensures
            r.tree() == self.tree(),
    {
        Self {
            streams: self.streams.clone(),
            timestamping_method: self.timestamping_method,
            declared_resolution_ns: self.declared_resolution_ns,
        }
    }
}

impl Wire for AdapterCapabilities {
    open spec fn field() -> Field {
        schema::req(Kind::AdapterCapabilities)
    }

    open spec fn tree(&self) -> Tree {
        Tree::Record(
            seq![
                self.streams.tree(),
                self.timestamping_method.tree(),
                self.declared_resolution_ns.tree(),
            ],
        )
    }

    proof fn lemma_conforms(&self) {
        reveal(schema::shape);
        reveal(schema::fields);
        self.streams.lemma_conforms();
        self.timestamping_method.lemma_conforms();
        self.declared_resolution_ns.lemma_conforms();
        assert(codec::fields_conform(Kind::AdapterCapabilities, 0, self.tree()->Record_0));
    }

    fn kind() -> (r: Kind) {
        Kind::AdapterCapabilities
    }

    fn to_node(&self) -> (r: Node) {
        let parts: Vec<Node> = vec![
            self.streams.to_node(),
            self.timestamping_method.to_node(),
            self.declared_resolution_ns.to_node(),
        ];
        let node = Node::Record(parts);
        proof {
            codec::lemma_trees(node);
            assert(codec::trees(parts@) =~= self.tree()->Record_0);
        }
        node
    }

    fn from_node(node: Node) -> (r: Self) {
        proof {
            reveal(schema::shape);
            reveal(schema::fields);
            codec::lemma_trees(node);
            assert(codec::fields_conform(Kind::AdapterCapabilities, 0, node.tree()->Record_0));
        }
        let mut parts: Vec<Node> = match node {
            Node::Record(parts) => parts,
            _ => unreached(),
        };
        let ghost ts = codec::trees(parts@);
        assert(ts.len() == 3);
        assert(wire::field_conforms(ts[0], <Vec<StreamDescriptor> as Wire>::field()));
        assert(wire::field_conforms(ts[1], <TimestampingMethod as Wire>::field()));
        assert(wire::field_conforms(ts[2], <Option<u64> as Wire>::field()));
        let declared_resolution_ns = <Option<u64> as Wire>::from_node(take_last(&mut parts));
        let timestamping_method = <TimestampingMethod as Wire>::from_node(take_last(&mut parts));
        let streams = <Vec<StreamDescriptor> as Wire>::from_node(take_last(&mut parts));
        let r = Self { streams, timestamping_method, declared_resolution_ns };
        assert(r.tree()->Record_0 =~= ts);
        r
    }
}

/// An adapter introduces itself.
#[derive(Debug)]
pub struct AdapterMetadataEvent {
    /// The detector that the adapter serves.
    pub detector_id: DetectorId,
    /// The timing point where it stands.
    pub timing_point_id: TimingPointId,
    /// The timebase of its times.
    pub timebase_id: TimebaseId,
    /// On whose word this rests.
    pub source_attestation: SourceAttestation,
    /// When it was declared.
    pub declared_at_ns: u64,
    /// What the adapter can do.
    pub capabilities: AdapterCapabilities,
}

impl Clone for AdapterMetadataEvent {
    fn clone(&self) -> (r: Self)
        ensures
            r.tree() == self.tree(),
    {
        Self {
            detector_id: self.detector_id.clone(),
            timing_point_id: self.timing_point_id.clone(),
            timebase_id: self.timebase_id.clone(),
            source_attestation: self.source_attestation,
            declared_at_ns: self.declared_at_ns,
            capabilities: self.capabilities.clone(),
        }
    }
}

impl Wire for AdapterMetadataEvent {
    open spec fn field() -> Field {
        schema::req(Kind::AdapterMetadata)
    }

    open spec fn tree(&self) -> Tree {
        Tree::Record(
            seq![
                self.detector_id.tree(),
                self.timing_point_id.tree(),
                self.timebase_id.tree(),
                self.source_attestation.tree(),
                self.declared_at_ns.tree(),
                self.capabilities.tree(),
            ],
        )
    }

    proof fn lemma_conforms(&self) {
        reveal(schema::shape);
        reveal(schema::fields);
        self.detector_id.lemma_conforms();
        self.timing_point_id.lemma_conforms();
        self.timebase_id.lemma_conforms();
        self.source_attestation.lemma_conforms();
        self.declared_at_ns.lemma_conforms();
        self.capabilities.lemma_conforms();
        assert(codec::fields_conform(Kind::AdapterMetadata, 0, self.tree()->Record_0));
    }

    fn kind() -> (r: Kind) {
        Kind::AdapterMetadata
    }

    fn to_node(&self) -> (r: Node) {
        let parts: Vec<Node> = vec![
            self.detector_id.to_node(),
            self.timing_point_id.to_node(),
            self.timebase_id.to_node(),
            self.source_attestation.to_node(),
            self.declared_at_ns.to_node(),
            self.capabilities.to_node(),
        ];
        let node = Node::Record(parts);
        proof {
            codec::lemma_trees(node);
            assert(codec::trees(parts@) =~= self.tree()->Record_0);
        }
        node
    }

    fn from_node(node: Node) -> (r: Self) {
        proof {
            reveal(schema::shape);
            reveal(schema::fields);
            codec::lemma_trees(node);
            assert(codec::fields_conform(Kind::AdapterMetadata, 0, node.tree()->Record_0));
        }
        let mut parts: Vec<Node> = match node {
            Node::Record(parts) => parts,
            _ => unreached(),
        };
        let ghost ts = codec::trees(parts@);
        assert(ts.len() == 6);
        assert(wire::field_conforms(ts[0], <DetectorId as Wire>::field()));
        assert(wire::field_conforms(ts[1], <TimingPointId as Wire>::field()));
        assert(wire::field_conforms(ts[2], <TimebaseId as Wire>::field()));
        assert(wire::field_conforms(ts[3], <SourceAttestation as Wire>::field()));
        assert(wire::field_conforms(ts[4], <u64 as Wire>::field()));
        assert(wire::field_conforms(ts[5], <AdapterCapabilities as Wire>::field()));
        let capabilities = <AdapterCapabilities as Wire>::from_node(take_last(&mut parts));
        let declared_at_ns = <u64 as Wire>::from_node(take_last(&mut parts));
        let source_attestation = <SourceAttestation as Wire>::from_node(take_last(&mut parts));
        let timebase_id = <TimebaseId as Wire>::from_node(take_last(&mut parts));
        let timing_point_id = <TimingPointId as Wire>::from_node(take_last(&mut parts));
        let detector_id = <DetectorId as Wire>::from_node(take_last(&mut parts));
        let r = Self {
            detector_id,
            timing_point_id,
            timebase_id,
            source_attestation,
            declared_at_ns,
            capabilities,
        };
        assert(r.tree()->Record_0 =~= ts);
        r
    }
}

} // verus!
