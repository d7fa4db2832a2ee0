//! Detections: a sensor saw a subject.

use vstd::pervasive::unreached;
use vstd::prelude::*;

use crate::codec;
use crate::codec::{Node, Tree};
use crate::model::ids::{DetectionId, DetectorId, OperatorId, SubjectId, TimebaseId, TimingPointId};
use crate::model::timestamp::{SourceAttestation, TimestampingMethod};
use crate::schema;
use crate::schema::{Field, Kind};
use crate::wire;
use crate::wire::{take_last, Wire};

verus! {

/// A single observation of a subject by a detector.
#[derive(Debug, PartialEq)]
pub struct Detection {
    /// The detection.
    pub detection_id: DetectionId,
    /// The detector that made it.
    pub detector_id: DetectorId,
    /// The timing point where the detector stands.
    pub timing_point_id: TimingPointId,
    /// The subject, where the sensor can tell.
    pub subject_id: Option<SubjectId>,
    /// When it happened, in nanoseconds of the timebase.
    pub detected_at_ns: u64,
    /// How far off that time may be.
    pub detected_at_uncertainty_ns: Option<u64>,
    /// When the adapter received it.
    pub received_at_ns: Option<u64>,
    /// How the time was taken.
    pub timestamping_method: TimestampingMethod,
    /// The timebase of the time.
    pub timebase_id: TimebaseId,
    /// On whose word the timebase rests.
    pub source_attestation: SourceAttestation,
    /// Counts the detections of one detector.
    pub sequence_number: u64,
    /// What the sensor saw.
    pub sensor: SensorData,
}

impl Clone for Detection {
    fn clone(&self) -> (r: Self)
        ensures
            r == *self,
    {
        Self {
            detection_id: self.detection_id.clone(),
            detector_id: self.detector_id.clone(),
            timing_point_id: self.timing_point_id.clone(),
            subject_id: self.subject_id.clone(),
            detected_at_ns: self.detected_at_ns,
            detected_at_uncertainty_ns: self.detected_at_uncertainty_ns,
            received_at_ns: self.received_at_ns,
            timestamping_method: self.timestamping_method,
            timebase_id: self.timebase_id.clone(),
            source_attestation: self.source_attestation,
            sequence_number: self.sequence_number,
            sensor: self.sensor.clone(),
        }
    }
}

impl Wire for Detection {
    open spec fn field() -> Field {
        schema::req(Kind::Detection)
    }

    open spec fn tree(&self) -> Tree {
        Tree::Record(
            seq![
                self.detection_id.tree(),
                self.detector_id.tree(),
                self.timing_point_id.tree(),
                self.subject_id.tree(),
                self.detected_at_ns.tree(),
                self.detected_at_uncertainty_ns.tree(),
                self.received_at_ns.tree(),
                self.timestamping_method.tree(),
                self.timebase_id.tree(),
                self.source_attestation.tree(),
                self.sequence_number.tree(),
                self.sensor.tree(),
            ],
        )
    }

    proof fn lemma_conforms(&self) {
        reveal(schema::shape);
        reveal(schema::fields);
        self.detection_id.lemma_conforms();
        self.detector_id.lemma_conforms();
        self.timing_point_id.lemma_conforms();
        self.subject_id.lemma_conforms();
        self.detected_at_ns.lemma_conforms();
        self.detected_at_uncertainty_ns.lemma_conforms();
        self.received_at_ns.lemma_conforms();
        self.timestamping_method.lemma_conforms();
        self.timebase_id.lemma_conforms();
        self.source_attestation.lemma_conforms();
        self.sequence_number.lemma_conforms();
        self.sensor.lemma_conforms();
        assert(codec::fields_conform(Kind::Detection, 0, self.tree()->Record_0));
    }

    fn kind() -> (r: Kind) {
        Kind::Detection
    }

    fn to_node(&self) -> (r: Node) {
        let parts: Vec<Node> = vec![
            self.detection_id.to_node(),
            self.detector_id.to_node(),
            self.timing_point_id.to_node(),
            self.subject_id.to_node(),
            self.detected_at_ns.to_node(),
            self.detected_at_uncertainty_ns.to_node(),
            self.received_at_ns.to_node(),
            self.timestamping_method.to_node(),
            self.timebase_id.to_node(),
            self.source_attestation.to_node(),
            self.sequence_number.to_node(),
            self.sensor.to_node(),
        ];
        let node = Node::Record(parts);
        proof {
            codec::lemma_trees(node);
            assert(codec::trees(parts@) =~= self.tree()->Record_0);
        }
        node
    }

    fn from_node(node: Node) -> (r: Self) {
        proof {
            reveal(schema::shape);
            reveal(schema::fields);
            codec::lemma_trees(node);
            assert(codec::fields_conform(Kind::Detection, 0, node.tree()->Record_0));
        }
        let mut parts: Vec<Node> = match node {
            Node::Record(parts) => parts,
            _ => unreached(),
        };
        let ghost ts = codec::trees(parts@);
        assert(ts.len() == 12);
        assert(wire::field_conforms(ts[0], <DetectionId as Wire>::field()));
        assert(wire::field_conforms(ts[1], <DetectorId as Wire>::field()));
        assert(wire::field_conforms(ts[2], <TimingPointId as Wire>::field()));
        assert(wire::field_conforms(ts[3], <Option<SubjectId> as Wire>::field()));
        assert(wire::field_conforms(ts[4], <u64 as Wire>::field()));
        assert(wire::field_conforms(ts[5], <Option<u64> as Wire>::field()));
        assert(wire::field_conforms(ts[6], <Option<u64> as Wire>::field()));
        assert(wire::field_conforms(ts[7], <TimestampingMethod as Wire>::field()));
        assert(wire::field_conforms(ts[8], <TimebaseId as Wire>::field()));
        assert(wire::field_conforms(ts[9], <SourceAttestation as Wire>::field()));
        assert(wire::field_conforms(ts[10], <u64 as Wire>::field()));
        assert(wire::field_conforms(ts[11], <SensorData as Wire>::field()));
        let sensor = <SensorData as Wire>::from_node(take_last(&mut parts));
        let sequence_number = <u64 as Wire>::from_node(take_last(&mut parts));
        let source_attestation = <SourceAttestation as Wire>::from_node(take_last(&mut parts));
        let timebase_id = <TimebaseId as Wire>::from_node(take_last(&mut parts));
        let timestamping_method = <TimestampingMethod as Wire>::from_node(take_last(&mut parts));
        let received_at_ns = <Option<u64> as Wire>::from_node(take_last(&mut parts));
        let detected_at_uncertainty_ns = <Option<u64> as Wire>::from_node(take_last(&mut parts));
        let detected_at_ns = <u64 as Wire>::from_node(take_last(&mut parts));
        let subject_id = <Option<SubjectId> as Wire>::from_node(take_last(&mut parts));
        let timing_point_id = <TimingPointId as Wire>::from_node(take_last(&mut parts));
        let detector_id = <DetectorId as Wire>::from_node(take_last(&mut parts));
        let detection_id = <DetectionId as Wire>::from_node(take_last(&mut parts));
        let r = Self {
            detection_id,
            detector_id,
            timing_point_id,
            subject_id,
            detected_at_ns,
            detected_at_uncertainty_ns,
            received_at_ns,
            timestamping_method,
            timebase_id,
            source_attestation,
            sequence_number,
            sensor,
        };
        assert(r.tree()->Record_0 =~= ts);
        r
    }
}

impl Detection {
    /// The detector that made the detection.
    pub fn detector_id(&self) -> (r: &DetectorId)
        ensures
            *r == self.detector_id,
    {
        &self.detector_id
    }

    /// The timing point of the detection.
    pub fn timing_point_id(&self) -> (r: &TimingPointId)
        ensures
            *r == self.timing_point_id,
    {
        &self.timing_point_id
    }

    /// When the detection happened.
    pub fn detected_at_ns(&self) -> (r: u64)
        ensures
            r == self.detected_at_ns,
    {
        self.detected_at_ns
    }

    /// How the time was taken.
    pub fn timestamping_method(&self) -> (r: TimestampingMethod)
        ensures
            r == self.timestamping_method,
    {
        self.timestamping_method
    }

    /// The number of the detection.
    pub fn sequence_number(&self) -> (r: u64)
        ensures
            r == self.sequence_number,
    {
        self.sequence_number
    }
}

/// What a sensor saw.
#[derive(Debug, PartialEq)]
pub enum SensorData {
    /// A transponder over a loop.
    LoopTransponder {
        /// The strength of the signal.
        rssi_dbm: Option<i16>,
        /// How many pulses were counted.
        pulse_count: Option<u32>,
    },
    /// Something broke a light beam.
    BeamBreak,
    /// A person entered it.
    Manual {
        /// The person.
        operator_id: Option<OperatorId>,
    },
}

impl Clone for SensorData {
    fn clone(&self) -> (r: Self)
        ensures
            r == *self,
    {
        match self {
            SensorData::LoopTransponder { rssi_dbm, pulse_count } => SensorData::LoopTransponder {
                rssi_dbm: *rssi_dbm,
                pulse_count: *pulse_count,
            },
            SensorData::BeamBreak => SensorData::BeamBreak,
            SensorData::Manual { operator_id } => SensorData::Manual {
                operator_id: operator_id.clone(),
            },
        }
    }
}

impl Wire for SensorData {
    open spec fn field() -> Field {
        schema::req(Kind::SensorData)
    }

    open spec fn tree(&self) -> Tree {
        match self {
            SensorData::LoopTransponder { rssi_dbm, pulse_count } => Tree::Choice(0, seq![rssi_dbm.tree(), pulse_count.tree()]),
            SensorData::BeamBreak => Tree::Choice(1, seq![]),
            SensorData::Manual { operator_id } => Tree::Choice(2, seq![operator_id.tree()]),
        }
    }

    proof fn lemma_conforms(&self) {
        reveal(schema::shape);
        reveal(schema::fields);
        match self {
            SensorData::LoopTransponder { rssi_dbm, pulse_count } => {
                rssi_dbm.lemma_conforms();
                pulse_count.lemma_conforms();
            },
            SensorData::BeamBreak => {
            },
            SensorData::Manual { operator_id } => {
                operator_id.lemma_conforms();
            },
        }
        assert(codec::fields_conform(
            Kind::SensorData,
            self.tree()->Choice_0,
            self.tree()->Choice_1,
        ));
    }

    fn kind() -> (r: Kind) {
        Kind::SensorData
    }

    fn to_node(&self) -> (r: Node) {
        let node = match self {
            SensorData::LoopTransponder { rssi_dbm, pulse_count } => Node::Choice(0, vec![rssi_dbm.to_node(), pulse_count.to_node()]),
            SensorData::BeamBreak => Node::Choice(1, vec![]),
            SensorData::Manual { operator_id } => Node::Choice(2, vec![operator_id.to_node()]),
        };
        proof {
            codec::lemma_trees(node);
            assert(codec::trees(node->Choice_1@) =~= self.tree()->Choice_1);
        }
        node
    }

    fn from_node(node: Node) -> (r: Self) {
        proof {
            reveal(schema::shape);
            reveal(schema::fields);
            codec::lemma_trees(node);
            assert(codec::fields_conform(
                Kind::SensorData,
                node.tree()->Choice_0,
                node.tree()->Choice_1,
            ));
        }
        let (number, mut parts): (u8, Vec<Node>) = match node {
            Node::Choice(number, parts) => (number, parts),
            _ => unreached(),
        };
        let ghost ts = codec::trees(parts@);
        let r = match number {
            0 => {
                assert(ts.len() == 2);
                assert(wire::field_conforms(ts[0], <Option<i16> as Wire>::field()));
                assert(wire::field_conforms(ts[1], <Option<u32> as Wire>::field()));
                let pulse_count = <Option<u32> as Wire>::from_node(take_last(&mut parts));
                let rssi_dbm = <Option<i16> as Wire>::from_node(take_last(&mut parts));
                SensorData::LoopTransponder { rssi_dbm, pulse_count }
            },
            1 => {
                assert(ts.len() == 0);
                SensorData::BeamBreak
            },
            _ => {
                assert(ts.len() == 1);
                assert(wire::field_conforms(ts[0], <Option<OperatorId> as Wire>::field()));
                let operator_id = <Option<OperatorId> as Wire>::from_node(take_last(&mut parts));
                SensorData::Manual { operator_id }
            },
        };
        assert(r.tree()->Choice_1 =~= ts);
        r
    }
}

} // verus!
