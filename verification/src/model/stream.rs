//! Streams of messages.

use vstd::pervasive::unreached;
use vstd::prelude::*;

use crate::codec;
use crate::codec::{Node, Tree};
use crate::model::ids::{DetectorId, StreamId, TimingPointId};
use crate::schema;
use crate::schema::{Field, Kind};
use crate::wire;
use crate::wire::{take_last, Wire};

verus! {

/// What a stream carries.
#[derive(Debug, Clone, Copy, PartialEq, Eq, Structural)]
pub enum StreamKind {
    /// Raw sensor data.
    Raw,
    /// Single detections.
    Detections,
    /// Processed results, such as crossings.
    Processed,
}

impl StreamKind {
    /// The number of the variant on the wire.
    pub open spec fn number(self) -> int {
        match self {
            StreamKind::Raw => 0,
            StreamKind::Detections => 1,
            StreamKind::Processed => 2,
        }
    }
}

impl Wire for StreamKind {
    open spec fn field() -> Field {
        schema::req(Kind::StreamKind)
    }

    open spec fn tree(&self) -> Tree {
        Tree::Choice(self.number(), seq![])
    }

    proof fn lemma_conforms(&self) {
        reveal(schema::shape);
        reveal(schema::fields);
        assert(codec::fields_conform(Kind::StreamKind, self.number(), seq![]));
    }

    fn kind() -> (r: Kind) {
        Kind::StreamKind
    }

    fn to_node(&self) -> (r: Node) {
        let number: u8 = match self {
            StreamKind::Raw => 0,
            StreamKind::Detections => 1,
            StreamKind::Processed => 2,
        };
        let node = Node::Choice(number, Vec::new());
        proof {
            codec::lemma_trees(node);
            assert(codec::trees(seq![]) =~= seq![]);
        }
        node
    }

    fn from_node(node: Node) -> (r: Self) {
        proof {
            reveal(schema::shape);
            reveal(schema::fields);
            codec::lemma_trees(node);
            assert(codec::fields_conform(
                Kind::StreamKind,
                node.tree()->Choice_0,
                node.tree()->Choice_1,
            ));
            assert(node.tree()->Choice_1 =~= seq![]);
        }
        match node {
            Node::Choice(number, _) => match number {
                0 => StreamKind::Raw,
                1 => StreamKind::Detections,
                _ => StreamKind::Processed,
            },
            _ => unreached(),
        }
    }
}

/// Describes one stream of a producer.
#[derive(Debug, PartialEq)]
pub struct StreamDescriptor {
    /// The stream.
    pub stream_id: StreamId,
    /// What the stream carries.
    pub kind: StreamKind,
    /// The detector that feeds the stream, where it is a single one.
    pub detector_id: Option<DetectorId>,
    /// The timing point that the stream belongs to, where it is a single one.
    pub timing_point_id: Option<TimingPointId>,
}

impl Clone for StreamDescriptor {
    fn clone(&self) -> (r: Self)
        ensures
            r == *self,
    {
        Self {
            stream_id: self.stream_id.clone(),
            kind: self.kind,
            detector_id: self.detector_id.clone(),
            timing_point_id: self.timing_point_id.clone(),
        }
    }
}

impl Wire for StreamDescriptor {
    open spec fn field() -> Field {
        schema::req(Kind::StreamDescriptor)
    }

    open spec fn tree(&self) -> Tree {
        Tree::Record(
            seq![
                self.stream_id.tree(),
                self.kind.tree(),
                self.detector_id.tree(),
                self.timing_point_id.tree(),
            ],
        )
    }

    proof fn lemma_conforms(&self) {
        reveal(schema::shape);
        reveal(schema::fields);
        self.stream_id.lemma_conforms();
        self.kind.lemma_conforms();
        self.detector_id.lemma_conforms();
        self.timing_point_id.lemma_conforms();
        assert(codec::fields_conform(Kind::StreamDescriptor, 0, self.tree()->Record_0));
    }

    fn kind() -> (r: Kind) {
        Kind::StreamDescriptor
    }

    fn to_node(&self) -> (r: Node) {
        let parts: Vec<Node> = vec![
            self.stream_id.to_node(),
            self.kind.to_node(),
            self.detector_id.to_node(),
            self.timing_point_id.to_node(),
        ];
        let node = Node::Record(parts);
        proof {
            codec::lemma_trees(node);
            assert(codec::trees(parts@) =~= self.tree()->Record_0);
        }
        node
    }

    fn from_node(node: Node) -> (r: Self) {
        proof {
            reveal(schema::shape);
            reveal(schema::fields);
            codec::lemma_trees(node);
            assert(codec::fields_conform(Kind::StreamDescriptor, 0, node.tree()->Record_0));
        }
        let mut parts: Vec<Node> = match node {
            Node::Record(parts) => parts,
            _ => unreached(),
        };
        let ghost ts = codec::trees(parts@);
        assert(ts.len() == 4);
        assert(wire::field_conforms(ts[0], <StreamId as Wire>::field()));
        assert(wire::field_conforms(ts[1], <StreamKind as Wire>::field()));
        assert(wire::field_conforms(ts[2], <Option<DetectorId> as Wire>::field()));
        assert(wire::field_conforms(ts[3], <Option<TimingPointId> as Wire>::field()));
        let timing_point_id = <Option<TimingPointId> as Wire>::from_node(take_last(&mut parts));
        let detector_id = <Option<DetectorId> as Wire>::from_node(take_last(&mut parts));
        let kind = <StreamKind as Wire>::from_node(take_last(&mut parts));
        let stream_id = <StreamId as Wire>::from_node(take_last(&mut parts));
        let r = Self { stream_id, kind, detector_id, timing_point_id };
        assert(r.tree()->Record_0 =~= ts);
        r
    }
}

impl Wire for Vec<StreamDescriptor> {
    open spec fn field() -> Field {
        schema::req(Kind::StreamDescriptors)
    }

    open spec fn tree(&self) -> Tree {
        Tree::List(Seq::new(self@.len(), |i: int| self@[i].tree()))
    }

    proof fn lemma_conforms(&self) {
        reveal(schema::shape);
        let ts = self.tree()->List_0;
        assert forall|i: int| 0 <= i < ts.len() implies codec::conforms(
            #[trigger] ts[i],
            <StreamDescriptor as Wire>::field().kind,
        ) by {
            self@[i].lemma_conforms();
        }
    }

    fn kind() -> (r: Kind) {
        Kind::StreamDescriptors
    }

    fn to_node(&self) -> (r: Node) {
        let mut parts: Vec<Node> = Vec::new();
        let mut i: usize = 0;
        while i < self.len()
            invariant
                i <= self@.len(),
                parts@.len() == i,
                forall|k: int| 0 <= k < i ==> (#[trigger] parts@[k]).tree() == self@[k].tree(),
            decreases self@.len() - i,
        {
            parts.push(self[i].to_node());
            i = i + 1;
        }
        let node = Node::List(parts);
        proof {
            codec::lemma_trees(node);
            assert(codec::trees(parts@) =~= self.tree()->List_0);
        }
        node
    }

    fn from_node(node: Node) -> (r: Self) {
        proof {
            reveal(schema::shape);
            codec::lemma_trees(node);
            let ts = node.tree()->List_0;
            assert(codec::conforms(node.tree(), Kind::StreamDescriptors));
            assert forall|k: int| 0 <= k < ts.len() implies codec::conforms(
                #[trigger] ts[k],
                <StreamDescriptor as Wire>::field().kind,
            ) by {}
        }
        let mut parts: Vec<Node> = match node {
            Node::List(parts) => parts,
            _ => unreached(),
        };
        let ghost nodes = parts@;
        let ghost ts = codec::trees(nodes);
        let mut taken: Vec<StreamDescriptor> = Vec::new();
        while parts.len() > 0
            invariant
                ts == codec::trees(nodes),
                taken@.len() + parts@.len() == nodes.len(),
                parts@ == nodes.take(parts@.len() as int),
                forall|k: int|
                    0 <= k < ts.len() ==> codec::conforms(
                        #[trigger] ts[k],
                        <StreamDescriptor as Wire>::field().kind,
                    ),
                forall|k: int|
                    0 <= k < taken@.len() ==> (#[trigger] taken@[k]).tree() == ts[ts.len() - 1 - k],
            decreases parts@.len(),
        {
            assert(ts[parts@.len() - 1] == parts@.last().tree());
            taken.push(<StreamDescriptor as Wire>::from_node(take_last(&mut parts)));
            assert(parts@ =~= nodes.take(parts@.len() as int));
        }
        let mut r: Vec<StreamDescriptor> = Vec::new();
        let ghost reversed = taken@;
        while taken.len() > 0
            invariant
                reversed.len() == ts.len(),
                taken@.len() + r@.len() == reversed.len(),
                taken@ == reversed.take(taken@.len() as int),
                forall|k: int|
                    0 <= k < reversed.len() ==> (#[trigger] reversed[k]).tree() == ts[ts.len() - 1
                        - k],
                forall|k: int| 0 <= k < r@.len() ==> (#[trigger] r@[k]).tree() == ts[k],
            decreases taken@.len(),
        {
            if let Some(item) = taken.pop() {
                assert(item == reversed[taken@.len() as int]);
                r.push(item);
                assert(taken@ =~= reversed.take(taken@.len() as int));
            }
        }
        assert(r.tree()->List_0 =~= ts);
        r
    }
}

} // verus!
