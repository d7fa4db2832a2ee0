//! Crossings: a subject passed a timing point.

use vstd::pervasive::unreached;
use vstd::prelude::*;

use crate::codec;
use crate::codec::{Node, Tree};
use crate::model::ids::{CrossingId, DetectionId, SubjectId, TimebaseId, TimingPointId};
use crate::model::timestamp::{SourceAttestation, TimestampingMethod};
use crate::schema;
use crate::schema::{Field, Kind};
use crate::wire;
use crate::wire::{take_last, Wire};

verus! {

/// A passage of a subject over a timing point, put together from detections.
#[derive(Debug)]
pub struct CrossingEvent {
    /// The crossing.
    pub crossing_id: CrossingId,
    /// The timing point that was passed.
    pub timing_point_id: TimingPointId,
    /// The subject, where it is known.
    pub subject_id: Option<SubjectId>,
    /// When it happened, in nanoseconds of the timebase.
    pub crossed_at_ns: u64,
    /// How far off that time may be.
    pub crossed_at_uncertainty_ns: Option<u64>,
    /// The timebase of the time.
    pub timebase_id: TimebaseId,
    /// How the time was taken.
    pub timestamping_method: TimestampingMethod,
    /// On whose word the timebase rests.
    pub source_attestation: SourceAttestation,
    /// The detections that the crossing was put together from.
    pub detection_ids: Vec<DetectionId>,
}

impl Clone for CrossingEvent {
    fn clone(&self) -> (r: Self)
        ensures
            r.tree() == self.tree(),
    {
        Self {
            crossing_id: self.crossing_id.clone(),
            timing_point_id: self.timing_point_id.clone(),
            subject_id: self.subject_id.clone(),
            crossed_at_ns: self.crossed_at_ns,
            crossed_at_uncertainty_ns: self.crossed_at_uncertainty_ns,
            timebase_id: self.timebase_id.clone(),
            timestamping_method: self.timestamping_method,
            source_attestation: self.source_attestation,
            detection_ids: self.detection_ids.clone(),
        }
    }
}

impl Wire for CrossingEvent {
    open spec fn field() -> Field {
        schema::req(Kind::Crossing)
    }

    open spec fn tree(&self) -> Tree {
        Tree::Record(
            seq![
                self.crossing_id.tree(),
                self.timing_point_id.tree(),
                self.subject_id.tree(),
                self.crossed_at_ns.tree(),
                self.crossed_at_uncertainty_ns.tree(),
                self.timebase_id.tree(),
                self.timestamping_method.tree(),
                self.source_attestation.tree(),
                self.detection_ids.tree(),
            ],
        )
    }

    proof fn lemma_conforms(&self) {
        reveal(schema::shape);
        reveal(schema::fields);
        self.crossing_id.lemma_conforms();
        self.timing_point_id.lemma_conforms();
        self.subject_id.lemma_conforms();
        self.crossed_at_ns.lemma_conforms();
        self.crossed_at_uncertainty_ns.lemma_conforms();
        self.timebase_id.lemma_conforms();
        self.timestamping_method.lemma_conforms();
        self.source_attestation.lemma_conforms();
        self.detection_ids.lemma_conforms();
        assert(codec::fields_conform(Kind::Crossing, 0, self.tree()->Record_0));
    }

    fn kind() -> (r: Kind) {
        Kind::Crossing
    }

    fn to_node(&self) -> (r: Node) {
        let parts: Vec<Node> = vec![
            self.crossing_id.to_node(),
            self.timing_point_id.to_node(),
            self.subject_id.to_node(),
            self.crossed_at_ns.to_node(),
            self.crossed_at_uncertainty_ns.to_node(),
            self.timebase_id.to_node(),
            self.timestamping_method.to_node(),
            self.source_attestation.to_node(),
            self.detection_ids.to_node(),
        ];
        let node = Node::Record(parts);
        proof {
            codec::lemma_trees(node);
            assert(codec::trees(parts@) =~= self.tree()->Record_0);
        }
        node
    }

    fn from_node(node: Node) -> (r: Self) {
        proof {
            reveal(schema::shape);
            reveal(schema::fields);
            codec::lemma_trees(node);
            assert(codec::fields_conform(Kind::Crossing, 0, node.tree()->Record_0));
        }
        let mut parts: Vec<Node> = match node {
            Node::Record(parts) => parts,
            _ => unreached(),
        };
        let ghost ts = codec::trees(parts@);
        assert(ts.len() == 9);
        assert(wire::field_conforms(ts[0], <CrossingId as Wire>::field()));
        assert(wire::field_conforms(ts[1], <TimingPointId as Wire>::field()));
        assert(wire::field_conforms(ts[2], <Option<SubjectId> as Wire>::field()));
        assert(wire::field_conforms(ts[3], <u64 as Wire>::field()));
        assert(wire::field_conforms(ts[4], <Option<u64> as Wire>::field()));
        assert(wire::field_conforms(ts[5], <TimebaseId as Wire>::field()));
        assert(wire::field_conforms(ts[6], <TimestampingMethod as Wire>::field()));
        assert(wire::field_conforms(ts[7], <SourceAttestation as Wire>::field()));
        assert(wire::field_conforms(ts[8], <Vec<DetectionId> as Wire>::field()));
        let detection_ids = <Vec<DetectionId> as Wire>::from_node(take_last(&mut parts));
        let source_attestation = <SourceAttestation as Wire>::from_node(take_last(&mut parts));
        let timestamping_method = <TimestampingMethod as Wire>::from_node(take_last(&mut parts));
        let timebase_id = <TimebaseId as Wire>::from_node(take_last(&mut parts));
        let crossed_at_uncertainty_ns = <Option<u64> as Wire>::from_node(take_last(&mut parts));
        let crossed_at_ns = <u64 as Wire>::from_node(take_last(&mut parts));
        let subject_id = <Option<SubjectId> as Wire>::from_node(take_last(&mut parts));
        let timing_point_id = <TimingPointId as Wire>::from_node(take_last(&mut parts));
        let crossing_id = <CrossingId as Wire>::from_node(take_last(&mut parts));
        let r = Self {
            crossing_id,
            timing_point_id,
            subject_id,
            crossed_at_ns,
            crossed_at_uncertainty_ns,
            timebase_id,
            timestamping_method,
            source_attestation,
            detection_ids,
        };
        assert(r.tree()->Record_0 =~= ts);
        r
    }
}

impl Wire for Vec<DetectionId> {
    open spec fn field() -> Field {
        schema::req(Kind::DetectionIds)
    }

    open spec fn tree(&self) -> Tree {
        Tree::List(Seq::new(self@.len(), |i: int| self@[i].tree()))
    }

    proof fn lemma_conforms(&self) {
        reveal(schema::shape);
        let ts = self.tree()->List_0;
        assert forall|i: int| 0 <= i < ts.len() implies codec::conforms(
            #[trigger] ts[i],
            <DetectionId as Wire>::field().kind,
        ) by {
            self@[i].lemma_conforms();
        }
    }

    fn kind() -> (r: Kind) {
        Kind::DetectionIds
    }

    fn to_node(&self) -> (r: Node) {
        let mut parts: Vec<Node> = Vec::new();
        let mut i: usize = 0;
        while i < self.len()
            invariant
                i <= self@.len(),
                parts@.len() == i,
                forall|k: int| 0 <= k < i ==> (#[trigger] parts@[k]).tree() == self@[k].tree(),
            decreases self@.len() - i,
        {
            parts.push(self[i].to_node());
            i = i + 1;
        }
        let node = Node::List(parts);
        proof {
            codec::lemma_trees(node);
            assert(codec::trees(parts@) =~= self.tree()->List_0);
        }
        node
    }

    fn from_node(node: Node) -> (r: Self) {
        proof {
            reveal(schema::shape);
            codec::lemma_trees(node);
            let ts = node.tree()->List_0;
            assert(codec::conforms(node.tree(), Kind::DetectionIds));
            assert forall|k: int| 0 <= k < ts.len() implies codec::conforms(
                #[trigger] ts[k],
                <DetectionId as Wire>::field().kind,
            ) by {}
        }
        let mut parts: Vec<Node> = match node {
            Node::List(parts) => parts,
            _ => unreached(),
        };
        let ghost nodes = parts@;
        let ghost ts = codec::trees(nodes);
        let mut taken: Vec<DetectionId> = Vec::new();
        while parts.len() > 0
            invariant
                ts == codec::trees(nodes),
                taken@.len() + parts@.len() == nodes.len(),
                parts@ == nodes.take(parts@.len() as int),
                forall|k: int|
                    0 <= k < ts.len() ==> codec::conforms(
                        #[trigger] ts[k],
                        <DetectionId as Wire>::field().kind,
                    ),
                forall|k: int|
                    0 <= k < taken@.len() ==> (#[trigger] taken@[k]).tree() == ts[ts.len() - 1 - k],
            decreases parts@.len(),
        {
            assert(ts[parts@.len() - 1] == parts@.last().tree());
            taken.push(<DetectionId as Wire>::from_node(take_last(&mut parts)));
            assert(parts@ =~= nodes.take(parts@.len() as int));
        }
        let mut r: Vec<DetectionId> = Vec::new();
        let ghost reversed = taken@;
        while taken.len() > 0
            invariant
                reversed.len() == ts.len(),
                taken@.len() + r@.len() == reversed.len(),
                taken@ == reversed.take(taken@.len() as int),
                forall|k: int|
                    0 <= k < reversed.len() ==> (#[trigger] reversed[k]).tree() == ts[ts.len() - 1
                        - k],
                forall|k: int| 0 <= k < r@.len() ==> (#[trigger] r@[k]).tree() == ts[k],
            decreases taken@.len(),
        {
            if let Some(item) = taken.pop() {
                assert(item == reversed[taken@.len() as int]);
                r.push(item);
                assert(taken@ =~= reversed.take(taken@.len() as int));
            }
        }
        assert(r.tree()->List_0 =~= ts);
        r
    }
}

} // verus!
