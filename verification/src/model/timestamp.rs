//! How a timestamp was taken, and how far to trust it.

use vstd::pervasive::unreached;
use vstd::prelude::*;

use crate::codec;
use crate::codec::{Node, Tree};
use crate::schema;
use crate::schema::{Field, Kind};
use crate::wire::Wire;

verus! {

/// How the time of an event was determined, from the most to the least direct.
#[derive(Debug, Clone, Copy, PartialEq, Eq, Structural)]
pub enum TimestampingMethod {
    /// Latched by hardware at the moment of the event.
    HardwareEventCapture,
    /// Read from a timer by firmware that noticed the event.
    FirmwareTimerRead,
    /// Taken by the adapter when the event arrived there.
    AdapterReceiveTime,
    /// Entered by a person.
    ManualEntry,
    /// Copied from a recording.
    ReplayRecorded,
}

impl TimestampingMethod {
    /// The number of the variant on the wire.
    pub open spec fn number(self) -> int {
        match self {
            TimestampingMethod::HardwareEventCapture => 0,
            TimestampingMethod::FirmwareTimerRead => 1,
            TimestampingMethod::AdapterReceiveTime => 2,
            TimestampingMethod::ManualEntry => 3,
            TimestampingMethod::ReplayRecorded => 4,
        }
    }
}

impl Wire for TimestampingMethod {
    open spec fn field() -> Field {
        schema::req(Kind::TimestampingMethod)
    }

    open spec fn tree(&self) -> Tree {
        Tree::Choice(self.number(), seq![])
    }

    proof fn lemma_conforms(&self) {
        reveal(schema::shape);
        reveal(schema::fields);
        assert(codec::fields_conform(Kind::TimestampingMethod, self.number(), seq![]));
    }

    fn kind() -> (r: Kind) {
        Kind::TimestampingMethod
    }

    fn to_node(&self) -> (r: Node) {
        let number: u8 = match self {
            TimestampingMethod::HardwareEventCapture => 0,
            TimestampingMethod::FirmwareTimerRead => 1,
            TimestampingMethod::AdapterReceiveTime => 2,
            TimestampingMethod::ManualEntry => 3,
            TimestampingMethod::ReplayRecorded => 4,
        };
        let node = Node::Choice(number, Vec::new());
        proof {
            codec::lemma_trees(node);
            assert(codec::trees(seq![]) =~= seq![]);
        }
        node
    }

    fn from_node(node: Node) -> (r: Self) {
        proof {
            reveal(schema::shape);
            reveal(schema::fields);
            codec::lemma_trees(node);
            assert(codec::fields_conform(
                Kind::TimestampingMethod,
                node.tree()->Choice_0,
                node.tree()->Choice_1,
            ));
            assert(node.tree()->Choice_1 =~= seq![]);
        }
        match node {
            Node::Choice(number, _) => match number {
                0 => TimestampingMethod::HardwareEventCapture,
                1 => TimestampingMethod::FirmwareTimerRead,
                2 => TimestampingMethod::AdapterReceiveTime,
                3 => TimestampingMethod::ManualEntry,
                _ => TimestampingMethod::ReplayRecorded,
            },
            _ => unreached(),
        }
    }
}

/// On whose word a piece of metadata rests.
#[derive(Debug, Clone, Copy, PartialEq, Eq, Structural)]
pub enum SourceAttestation {
    /// The running system found it out.
    RuntimeDiscovered,
    /// An operator declared it.
    OperatorAsserted,
}

impl SourceAttestation {
    /// The number of the variant on the wire.
    pub open spec fn number(self) -> int {
        match self {
            SourceAttestation::RuntimeDiscovered => 0,
            SourceAttestation::OperatorAsserted => 1,
        }
    }
}

impl Wire for SourceAttestation {
    open spec fn field() -> Field {
        schema::req(Kind::SourceAttestation)
    }

    open spec fn tree(&self) -> Tree {
        Tree::Choice(self.number(), seq![])
    }

    proof fn lemma_conforms(&self) {
        reveal(schema::shape);
        reveal(schema::fields);
        assert(codec::fields_conform(Kind::SourceAttestation, self.number(), seq![]));
    }

    fn kind() -> (r: Kind) {
        Kind::SourceAttestation
    }

    fn to_node(&self) -> (r: Node) {
        let number: u8 = match self {
            SourceAttestation::RuntimeDiscovered => 0,
            SourceAttestation::OperatorAsserted => 1,
        };
        let node = Node::Choice(number, Vec::new());
        proof {
            codec::lemma_trees(node);
            assert(codec::trees(seq![]) =~= seq![]);
        }
        node
    }

    fn from_node(node: Node) -> (r: Self) {
        proof {
            reveal(schema::shape);
            reveal(schema::fields);
            codec::lemma_trees(node);
            assert(codec::fields_conform(
                Kind::SourceAttestation,
                node.tree()->Choice_0,
                node.tree()->Choice_1,
            ));
            assert(node.tree()->Choice_1 =~= seq![]);
        }
        match node {
            Node::Choice(number, _) => match number {
                0 => SourceAttestation::RuntimeDiscovered,
                _ => SourceAttestation::OperatorAsserted,
            },
            _ => unreached(),
        }
    }
}

/// How well a timebase follows its reference.
#[derive(Debug, Clone, Copy, PartialEq, Eq, Structural)]
pub enum SyncState {
    /// In lock with the reference.
    Locked,
    /// The reference is gone; the last discipline is kept.
    Holdover,
    /// Running without ever having been disciplined.
    FreeRun,
    /// Known to be off.
    Unsynchronized,
    /// Nothing is known.
    Unknown,
}

impl SyncState {
    /// The number of the variant on the wire.
    pub open spec fn number(self) -> int {
        match self {
            SyncState::Locked => 0,
            SyncState::Holdover => 1,
            SyncState::FreeRun => 2,
            SyncState::Unsynchronized => 3,
            SyncState::Unknown => 4,
        }
    }
}

impl Wire for SyncState {
    open spec fn field() -> Field {
        schema::req(Kind::SyncState)
    }

    open spec fn tree(&self) -> Tree {
        Tree::Choice(self.number(), seq![])
    }

    proof fn lemma_conforms(&self) {
        reveal(schema::shape);
        reveal(schema::fields);
        assert(codec::fields_conform(Kind::SyncState, self.number(), seq![]));
    }

    fn kind() -> (r: Kind) {
        Kind::SyncState
    }

    fn to_node(&self) -> (r: Node) {
        let number: u8 = match self {
            SyncState::Locked => 0,
            SyncState::Holdover => 1,
            SyncState::FreeRun => 2,
            SyncState::Unsynchronized => 3,
            SyncState::Unknown => 4,
        };
        let node = Node::Choice(number, Vec::new());
        proof {
            codec::lemma_trees(node);
            assert(codec::trees(seq![]) =~= seq![]);
        }
        node
    }

    fn from_node(node: Node) -> (r: Self) {
        proof {
            reveal(schema::shape);
            reveal(schema::fields);
            codec::lemma_trees(node);
            assert(codec::fields_conform(
                Kind::SyncState,
                node.tree()->Choice_0,
                node.tree()->Choice_1,
            ));
            assert(node.tree()->Choice_1 =~= seq![]);
        }
        match node {
            Node::Choice(number, _) => match number {
                0 => SyncState::Locked,
                1 => SyncState::Holdover,
                2 => SyncState::FreeRun,
                3 => SyncState::Unsynchronized,
                _ => SyncState::Unknown,
            },
            _ => unreached(),
        }
    }
}

} // verus!
