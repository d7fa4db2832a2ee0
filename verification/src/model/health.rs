//! The health of detectors and timebases.

use vstd::pervasive::unreached;
use vstd::prelude::*;

use crate::codec;
use crate::codec::{Node, Tree};
use crate::model::ids::{DetectorId, TimebaseId};
use crate::model::timestamp::{SourceAttestation, SyncState};
use crate::schema;
use crate::schema::{Field, Kind};
use crate::wire;
use crate::wire::{take_last, Wire};

verus! {

/// How a detector is.
#[derive(Debug)]
pub enum DetectorHealthStatus {
    /// It works.
    Healthy,
    /// It works, with a limitation.
    Degraded {
        /// What is wrong.
        reason: String,
    },
    /// It does not work.
    Failed {
        /// What is wrong.
        reason: String,
    },
}

impl Clone for DetectorHealthStatus {
    fn clone(&self) -> (r: Self)
        ensures
            r == *self,
    {
        match self {
            DetectorHealthStatus::Healthy => DetectorHealthStatus::Healthy,
            DetectorHealthStatus::Degraded { reason } => DetectorHealthStatus::Degraded {
                reason: reason.clone(),
            },
            DetectorHealthStatus::Failed { reason } => DetectorHealthStatus::Failed {
                reason: reason.clone(),
            },
        }
    }
}

impl Wire for DetectorHealthStatus {
    open spec fn field() -> Field {
        schema::req(Kind::DetectorHealthStatus)
    }

    open spec fn tree(&self) -> Tree {
        match self {
            DetectorHealthStatus::Healthy => Tree::Choice(0, seq![]),
            DetectorHealthStatus::Degraded { reason } => Tree::Choice(1, seq![reason.tree()]),
            DetectorHealthStatus::Failed { reason } => Tree::Choice(2, seq![reason.tree()]),
        }
    }

    proof fn lemma_conforms(&self) {
        reveal(schema::shape);
        reveal(schema::fields);
        match self {
            DetectorHealthStatus::Healthy => {
            },
            DetectorHealthStatus::Degraded { reason } => {
                reason.lemma_conforms();
            },
            DetectorHealthStatus::Failed { reason } => {
                reason.lemma_conforms();
            },
        }
        assert(codec::fields_conform(
            Kind::DetectorHealthStatus,
            self.tree()->Choice_0,
            self.tree()->Choice_1,
        ));
    }

    fn kind() -> (r: Kind) {
        Kind::DetectorHealthStatus
    }

    fn to_node(&self) -> (r: Node) {
        let node = match self {
            DetectorHealthStatus::Healthy => Node::Choice(0, vec![]),
            DetectorHealthStatus::Degraded { reason } => Node::Choice(1, vec![reason.to_node()]),
            DetectorHealthStatus::Failed { reason } => Node::Choice(2, vec![reason.to_node()]),
        };
        proof {
            codec::lemma_trees(node);
            assert(codec::trees(node->Choice_1@) =~= self.tree()->Choice_1);
        }
        node
    }

    fn from_node(node: Node) -> (r: Self) {
        proof {
            reveal(schema::shape);
            reveal(schema::fields);
            codec::lemma_trees(node);
            assert(codec::fields_conform(
                Kind::DetectorHealthStatus,
                node.tree()->Choice_0,
                node.tree()->Choice_1,
            ));
        }
        let (number, mut parts): (u8, Vec<Node>) = match node {
            Node::Choice(number, parts) => (number, parts),
            _ => unreached(),
        };
        let ghost ts = codec::trees(parts@);
        let r = match number {
            0 => {
                assert(ts.len() == 0);
                DetectorHealthStatus::Healthy
            },
            1 => {
                assert(ts.len() == 1);
                assert(wire::field_conforms(ts[0], <String as Wire>::field()));
                let reason = <String as Wire>::from_node(take_last(&mut parts));
                DetectorHealthStatus::Degraded { reason }
            },
            _ => {
                assert(ts.len() == 1);
                assert(wire::field_conforms(ts[0], <String as Wire>::field()));
                let reason = <String as Wire>::from_node(take_last(&mut parts));
                DetectorHealthStatus::Failed { reason }
            },
        };
        assert(r.tree()->Choice_1 =~= ts);
        r
    }
}

/// A detector reports its health.
#[derive(Debug)]
pub struct DetectorHealthEvent {
    /// The detector.
    pub detector_id: DetectorId,
    /// When it reported.
    pub reported_at_ns: u64,
    /// How it is.
    pub status: DetectorHealthStatus,
    /// A remark for people.
    pub message: Option<String>,
}

impl Clone for DetectorHealthEvent {
    fn clone(&self) -> (r: Self)
        ensures
            r == *self,
    {
        Self {
            detector_id: self.detector_id.clone(),
            reported_at_ns: self.reported_at_ns,
            status: self.status.clone(),
            message: self.message.clone(),
        }
    }
}

impl Wire for DetectorHealthEvent {
    open spec fn field() -> Field {
        schema::req(Kind::DetectorHealth)
    }

    open spec fn tree(&self) -> Tree {
        Tree::Record(
            seq![
                self.detector_id.tree(),
                self.reported_at_ns.tree(),
                self.status.tree(),
                self.message.tree(),
            ],
        )
    }

    proof fn lemma_conforms(&self) {
        reveal(schema::shape);
        reveal(schema::fields);
        self.detector_id.lemma_conforms();
        self.reported_at_ns.lemma_conforms();
        self.status.lemma_conforms();
        self.message.lemma_conforms();
        assert(codec::fields_conform(Kind::DetectorHealth, 0, self.tree()->Record_0));
    }

    fn kind() -> (r: Kind) {
        Kind::DetectorHealth
    }

    fn to_node(&self) -> (r: Node) {
        let parts: Vec<Node> = vec![
            self.detector_id.to_node(),
            self.reported_at_ns.to_node(),
            self.status.to_node(),
            self.message.to_node(),
        ];
        let node = Node::Record(parts);
        proof {
            codec::lemma_trees(node);
            assert(codec::trees(parts@) =~= self.tree()->Record_0);
        }
        node
    }

    fn from_node(node: Node) -> (r: Self) {
        proof {
            reveal(schema::shape);
            reveal(schema::fields);
            codec::lemma_trees(node);
            assert(codec::fields_conform(Kind::DetectorHealth, 0, node.tree()->Record_0));
        }
        let mut parts: Vec<Node> = match node {
            Node::Record(parts) => parts,
            _ => unreached(),
        };
        let ghost ts = codec::trees(parts@);
        assert(ts.len() == 4);
        assert(wire::field_conforms(ts[0], <DetectorId as Wire>::field()));
        assert(wire::field_conforms(ts[1], <u64 as Wire>::field()));
        assert(wire::field_conforms(ts[2], <DetectorHealthStatus as Wire>::field()));
        assert(wire::field_conforms(ts[3], <Option<String> as Wire>::field()));
        let message = <Option<String> as Wire>::from_node(take_last(&mut parts));
        let status = <DetectorHealthStatus as Wire>::from_node(take_last(&mut parts));
        let reported_at_ns = <u64 as Wire>::from_node(take_last(&mut parts));
        let detector_id = <DetectorId as Wire>::from_node(take_last(&mut parts));
        let r = Self { detector_id, reported_at_ns, status, message };
        assert(r.tree()->Record_0 =~= ts);
        r
    }
}

/// A timebase reports its state.
#[derive(Debug)]
pub struct TimebaseStatusEvent {
    /// The timebase.
    pub timebase_id: TimebaseId,
    /// When it reported.
    pub reported_at_ns: u64,
    /// How well it follows its reference.
    pub sync_state: SyncState,
    /// How far off it may be.
    pub uncertainty_ns: Option<u64>,
    /// On whose word this rests.
    pub source_attestation: SourceAttestation,
}

impl Clone for TimebaseStatusEvent {
    fn clone(&self) -> (r: Self)
        ensures
            r == *self,
    {
        Self {
            timebase_id: self.timebase_id.clone(),
            reported_at_ns: self.reported_at_ns,
            sync_state: self.sync_state,
            uncertainty_ns: self.uncertainty_ns,
            source_attestation: self.source_attestation,
        }
    }
}

impl Wire for TimebaseStatusEvent {
    open spec fn field() -> Field {
        schema::req(Kind::TimebaseStatus)
    }

    open spec fn tree(&self) -> Tree {
        Tree::Record(
            seq![
                self.timebase_id.tree(),
                self.reported_at_ns.tree(),
                self.sync_state.tree(),
                self.uncertainty_ns.tree(),
                self.source_attestation.tree(),
            ],
        )
    }

    proof fn lemma_conforms(&self) {
        reveal(schema::shape);
        reveal(schema::fields);
        self.timebase_id.lemma_conforms();
        self.reported_at_ns.lemma_conforms();
        self.sync_state.lemma_conforms();
        self.uncertainty_ns.lemma_conforms();
        self.source_attestation.lemma_conforms();
        assert(codec::fields_conform(Kind::TimebaseStatus, 0, self.tree()->Record_0));
    }

    fn kind() -> (r: Kind) {
        Kind::TimebaseStatus
    }

    fn to_node(&self) -> (r: Node) {
        let parts: Vec<Node> = vec![
            self.timebase_id.to_node(),
            self.reported_at_ns.to_node(),
            self.sync_state.to_node(),
            self.uncertainty_ns.to_node(),
            self.source_attestation.to_node(),
        ];
        let node = Node::Record(parts);
        proof {
            codec::lemma_trees(node);
            assert(codec::trees(parts@) =~= self.tree()->Record_0);
        }
        node
    }

    fn from_node(node: Node) -> (r: Self) {
        proof {
            reveal(schema::shape);
            reveal(schema::fields);
            codec::lemma_trees(node);
            assert(codec::fields_conform(Kind::TimebaseStatus, 0, node.tree()->Record_0));
        }
        let mut parts: Vec<Node> = match node {
            Node::Record(parts) => parts,
            _ => unreached(),
        };
        let ghost ts = codec::trees(parts@);
        assert(ts.len() == 5);
        assert(wire::field_conforms(ts[0], <TimebaseId as Wire>::field()));
        assert(wire::field_conforms(ts[1], <u64 as Wire>::field()));
        assert(wire::field_conforms(ts[2], <SyncState as Wire>::field()));
        assert(wire::field_conforms(ts[3], <Option<u64> as Wire>::field()));
        assert(wire::field_conforms(ts[4], <SourceAttestation as Wire>::field()));
        let source_attestation = <SourceAttestation as Wire>::from_node(take_last(&mut parts));
        let uncertainty_ns = <Option<u64> as Wire>::from_node(take_last(&mut parts));
        let sync_state = <SyncState as Wire>::from_node(take_last(&mut parts));
        let reported_at_ns = <u64 as Wire>::from_node(take_last(&mut parts));
        let timebase_id = <TimebaseId as Wire>::from_node(take_last(&mut parts));
        let r = Self {
            timebase_id,
            reported_at_ns,
            sync_state,
            uncertainty_ns,
            source_attestation,
        };
        assert(r.tree()->Record_0 =~= ts);
        r
    }
}

} // verus!
