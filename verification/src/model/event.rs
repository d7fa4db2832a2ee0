//! The event that everything else carries.

use vstd::pervasive::unreached;
use vstd::prelude::*;

use crate::codec;
use crate::codec::{Node, Tree};
use crate::model::crossing::CrossingEvent;
use crate::model::detection::Detection;
use crate::model::health::{DetectorHealthEvent, TimebaseStatusEvent};
use crate::model::metadata::AdapterMetadataEvent;
use crate::schema;
use crate::schema::{Field, Kind};
use crate::wire;
use crate::wire::{take_last, Wire};

verus! {

/// An OTK event.
#[derive(Debug)]
pub enum OtkEvent {
    /// A detector saw something.
    Detection(Detection),
    /// A detector reports its health.
    DetectorHealth(DetectorHealthEvent),
    /// A timebase reports its state.
    TimebaseStatus(TimebaseStatusEvent),
    /// An adapter introduces itself.
    AdapterMetadata(AdapterMetadataEvent),
    /// A subject passed a timing point.
    Crossing(CrossingEvent),
}

impl Clone for OtkEvent {
    fn clone(&self) -> (r: Self)
        ensures
            r.tree() == self.tree(),
    {
        match self {
            OtkEvent::Detection(event) => OtkEvent::Detection(event.clone()),
            OtkEvent::DetectorHealth(event) => OtkEvent::DetectorHealth(event.clone()),
            OtkEvent::TimebaseStatus(event) => OtkEvent::TimebaseStatus(event.clone()),
            OtkEvent::AdapterMetadata(event) => OtkEvent::AdapterMetadata(event.clone()),
            OtkEvent::Crossing(event) => OtkEvent::Crossing(event.clone()),
        }
    }
}

impl Wire for OtkEvent {
    open spec fn field() -> Field {
        schema::req(Kind::Event)
    }

    open spec fn tree(&self) -> Tree {
        match self {
            OtkEvent::Detection(event) => Tree::Choice(0, seq![event.tree()]),
            OtkEvent::DetectorHealth(event) => Tree::Choice(1, seq![event.tree()]),
            OtkEvent::TimebaseStatus(event) => Tree::Choice(2, seq![event.tree()]),
            OtkEvent::AdapterMetadata(event) => Tree::Choice(3, seq![event.tree()]),
            OtkEvent::Crossing(event) => Tree::Choice(4, seq![event.tree()]),
        }
    }

    proof fn lemma_conforms(&self) {
        reveal(schema::shape);
        reveal(schema::fields);
        match self {
            OtkEvent::Detection(event) => {
                event.lemma_conforms();
            },
            OtkEvent::DetectorHealth(event) => {
                event.lemma_conforms();
            },
            OtkEvent::TimebaseStatus(event) => {
                event.lemma_conforms();
            },
            OtkEvent::AdapterMetadata(event) => {
                event.lemma_conforms();
            },
            OtkEvent::Crossing(event) => {
                event.lemma_conforms();
            },
        }
        assert(codec::fields_conform(
            Kind::Event,
            self.tree()->Choice_0,
            self.tree()->Choice_1,
        ));
    }

    fn kind() -> (r: Kind) {
        Kind::Event
    }

    fn to_node(&self) -> (r: Node) {
        let node = match self {
            OtkEvent::Detection(event) => Node::Choice(0, vec![event.to_node()]),
            OtkEvent::DetectorHealth(event) => Node::Choice(1, vec![event.to_node()]),
            OtkEvent::TimebaseStatus(event) => Node::Choice(2, vec![event.to_node()]),
            OtkEvent::AdapterMetadata(event) => Node::Choice(3, vec![event.to_node()]),
            OtkEvent::Crossing(event) => Node::Choice(4, vec![event.to_node()]),
        };
        proof {
            codec::lemma_trees(node);
            assert(codec::trees(node->Choice_1@) =~= self.tree()->Choice_1);
        }
        node
    }

    fn from_node(node: Node) -> (r: Self) {
        proof {
            reveal(schema::shape);
            reveal(schema::fields);
            codec::lemma_trees(node);
            assert(codec::fields_conform(
                Kind::Event,
                node.tree()->Choice_0,
                node.tree()->Choice_1,
            ));
        }
        let (number, mut parts): (u8, Vec<Node>) = match node {
            Node::Choice(number, parts) => (number, parts),
            _ => unreached(),
        };
        let ghost ts = codec::trees(parts@);
        let r = match number {
            0 => {
                assert(ts.len() == 1);
                assert(wire::field_conforms(ts[0], <Detection as Wire>::field()));
                let event = <Detection as Wire>::from_node(take_last(&mut parts));
                OtkEvent::Detection(event)
            },
            1 => {
                assert(ts.len() == 1);
                assert(wire::field_conforms(ts[0], <DetectorHealthEvent as Wire>::field()));
                let event = <DetectorHealthEvent as Wire>::from_node(take_last(&mut parts));
                OtkEvent::DetectorHealth(event)
            },
            2 => {
                assert(ts.len() == 1);
                assert(wire::field_conforms(ts[0], <TimebaseStatusEvent as Wire>::field()));
                let event = <TimebaseStatusEvent as Wire>::from_node(take_last(&mut parts));
                OtkEvent::TimebaseStatus(event)
            },
            3 => {
                assert(ts.len() == 1);
                assert(wire::field_conforms(ts[0], <AdapterMetadataEvent as Wire>::field()));
                let event = <AdapterMetadataEvent as Wire>::from_node(take_last(&mut parts));
                OtkEvent::AdapterMetadata(event)
            },
            _ => {
                assert(ts.len() == 1);
                assert(wire::field_conforms(ts[0], <CrossingEvent as Wire>::field()));
                let event = <CrossingEvent as Wire>::from_node(take_last(&mut parts));
                OtkEvent::Crossing(event)
            },
        };
        assert(r.tree()->Choice_1 =~= ts);
        r
    }
}

} // verus!
