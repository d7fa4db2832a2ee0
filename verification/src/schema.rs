//! The schema of every OTK value that has a CBOR form.
//!
//! A [`Kind`] names a value's type on the wire. A record is an array whose
//! positions are the field numbers; a choice is an array of the variant's
//! number and the record of the variant's fields.

use vstd::prelude::*;

verus! {

/// The types that OTK values have on the wire.
#[derive(Debug, Clone, Copy, PartialEq, Eq, Structural)]
pub enum Kind {
    /// A UTF-8 text, such as an identifier.
    Text,
    /// An unsigned integer of 8 bits.
    U8,
    /// An unsigned integer of 32 bits.
    U32,
    /// An unsigned integer of 64 bits.
    U64,
    /// An integer of 16 bits with a sign.
    I16,
    /// Raw bytes, written as an array of small integers.
    Octets,
    TimestampingMethod,
    SourceAttestation,
    SyncState,
    StreamKind,
    MessageType,
    ConnectRejectReason,
    SensorData,
    DetectorHealthStatus,
    /// An array of detection identifiers.
    DetectionIds,
    StreamDescriptor,
    /// An array of stream descriptors.
    StreamDescriptors,
    Detection,
    Crossing,
    DetectorHealth,
    TimebaseStatus,
    AdapterCapabilities,
    AdapterMetadata,
    Event,
    Envelope,
    Connect,
    ConnectAck,
    ConnectReject,
    Heartbeat,
}

/// How the values of a kind are written.
#[derive(Debug, Clone, Copy, PartialEq, Eq, Structural)]
pub enum Shape {
    Text,
    /// An unsigned integer up to the given maximum.
    Uint(u64),
    /// An integer between the two bounds, both included.
    Int(i64, i64),
    Octets,
    /// An array of items of one kind.
    List(Kind),
    /// An array of fields by number.
    Record,
    /// One of so many variants, each with a record of its own.
    Choice(u8),
}

/// A field of a record.
#[derive(Debug, Clone, Copy, PartialEq, Eq, Structural)]
pub struct Field {
    pub kind: Kind,
    /// An optional field may be `null`, and may be missing at the end.
    pub optional: bool,
}

/// A field that has to be there.
pub open spec fn req(kind: Kind) -> Field {
    Field { kind, optional: false }
}

/// A field that may be left out.
pub open spec fn opt(kind: Kind) -> Field {
    Field { kind, optional: true }
}

/// How values of `kind` are written.
#[verifier::opaque]
pub open spec fn shape(kind: Kind) -> Shape {
    match kind {
        Kind::Text => Shape::Text,
        Kind::U8 => Shape::Uint(0xff),
        Kind::U32 => Shape::Uint(0xffff_ffff),
        Kind::U64 => Shape::Uint(0xffff_ffff_ffff_ffff),
        Kind::I16 => Shape::Int((-0x8000) as i64, 0x7fff),
        Kind::Octets => Shape::Octets,
        Kind::TimestampingMethod => Shape::Choice(5),
        Kind::SourceAttestation => Shape::Choice(2),
        Kind::SyncState => Shape::Choice(5),
        Kind::StreamKind => Shape::Choice(3),
        Kind::MessageType => Shape::Choice(7),
        Kind::ConnectRejectReason => Shape::Choice(2),
        Kind::SensorData => Shape::Choice(3),
        Kind::DetectorHealthStatus => Shape::Choice(3),
        Kind::DetectionIds => Shape::List(Kind::Text),
        Kind::StreamDescriptors => Shape::List(Kind::StreamDescriptor),
        Kind::Event => Shape::Choice(5),
        _ => Shape::Record,
    }
}

/// The fields of a record, or of a choice's variant, in the order of their
/// numbers. A record has only the variant 0.
#[verifier::opaque]
pub open spec fn fields(kind: Kind, variant: int) -> Seq<Field> {
    match kind {
        Kind::SensorData => if variant == 0 {
            seq![opt(Kind::I16), opt(Kind::U32)]
        } else if variant == 2 {
            seq![opt(Kind::Text)]
        } else {
            seq![]
        },
        Kind::DetectorHealthStatus => if variant == 1 || variant == 2 {
            seq![req(Kind::Text)]
        } else {
            seq![]
        },
        Kind::StreamDescriptor => seq![
            req(Kind::Text),
            req(Kind::StreamKind),
            opt(Kind::Text),
            opt(Kind::Text),
        ],
        Kind::Detection => seq![
            req(Kind::Text),
            req(Kind::Text),
            req(Kind::Text),
            opt(Kind::Text),
            req(Kind::U64),
            opt(Kind::U64),
            opt(Kind::U64),
            req(Kind::TimestampingMethod),
            req(Kind::Text),
            req(Kind::SourceAttestation),
            req(Kind::U64),
            req(Kind::SensorData),
        ],
        Kind::Crossing => seq![
            req(Kind::Text),
            req(Kind::Text),
            opt(Kind::Text),
            req(Kind::U64),
            opt(Kind::U64),
            req(Kind::Text),
            req(Kind::TimestampingMethod),
            req(Kind::SourceAttestation),
            req(Kind::DetectionIds),
        ],
        Kind::DetectorHealth => seq![
            req(Kind::Text),
            req(Kind::U64),
            req(Kind::DetectorHealthStatus),
            opt(Kind::Text),
        ],
        Kind::TimebaseStatus => seq![
            req(Kind::Text),
            req(Kind::U64),
            req(Kind::SyncState),
            opt(Kind::U64),
            req(Kind::SourceAttestation),
        ],
        Kind::AdapterCapabilities => seq![
            req(Kind::StreamDescriptors),
            req(Kind::TimestampingMethod),
            opt(Kind::U64),
        ],
        Kind::AdapterMetadata => seq![
            req(Kind::Text),
            req(Kind::Text),
            req(Kind::Text),
            req(Kind::SourceAttestation),
            req(Kind::U64),
            req(Kind::AdapterCapabilities),
        ],
        Kind::Event => if variant == 0 {
            seq![req(Kind::Detection)]
        } else if variant == 1 {
            seq![req(Kind::DetectorHealth)]
        } else if variant == 2 {
            seq![req(Kind::TimebaseStatus)]
        } else if variant == 3 {
            seq![req(Kind::AdapterMetadata)]
        } else if variant == 4 {
            seq![req(Kind::Crossing)]
        } else {
            seq![]
        },
        Kind::Envelope => seq![
            req(Kind::U8),
            req(Kind::MessageType),
            req(Kind::Text),
            opt(Kind::Text),
            opt(Kind::U64),
            opt(Kind::Text),
            opt(Kind::Octets),
            opt(Kind::Text),
        ],
        Kind::Connect => seq![
            req(Kind::U8),
            req(Kind::U8),
            req(Kind::StreamDescriptors),
            opt(Kind::Text),
        ],
        Kind::ConnectAck => seq![req(Kind::U8)],
        Kind::ConnectReject => seq![
            req(Kind::ConnectRejectReason),
            req(Kind::U8),
            req(Kind::U8),
        ],
        Kind::Heartbeat => seq![req(Kind::U64)],
        _ => seq![],
    }
}

/// How deeply a kind nests: every part of a value has a smaller rank.
#[verifier::opaque]
pub open spec fn rank(kind: Kind) -> nat {
    match kind {
        Kind::Text | Kind::U8 | Kind::U32 | Kind::U64 | Kind::I16 | Kind::Octets => 0,
        Kind::TimestampingMethod
        | Kind::SourceAttestation
        | Kind::SyncState
        | Kind::StreamKind
        | Kind::MessageType
        | Kind::ConnectRejectReason
        | Kind::SensorData
        | Kind::DetectorHealthStatus
        | Kind::DetectionIds
        | Kind::ConnectAck
        | Kind::Heartbeat => 1,
        Kind::StreamDescriptor | Kind::ConnectReject => 2,
        Kind::StreamDescriptors
        | Kind::Detection
        | Kind::Crossing
        | Kind::DetectorHealth
        | Kind::TimebaseStatus
        | Kind::Envelope => 3,
        Kind::AdapterCapabilities | Kind::Connect => 4,
        Kind::AdapterMetadata => 5,
        Kind::Event => 6,
    }
}

/// The parts of a value have a smaller rank than the value.
pub proof fn lemma_rank(kind: Kind, variant: int)
    ensures
        forall|i: int|
            0 <= i < fields(kind, variant).len() ==> rank(
                (#[trigger] fields(kind, variant)[i]).kind,
            ) < rank(kind),
        shape(kind) matches Shape::List(item) ==> rank(item) < rank(kind),
        fields(kind, variant).len() <= 12,
{
    reveal(shape);
    reveal(fields);
    reveal(rank);
}

/// The shape of a kind.
pub fn shape_of(kind: Kind) -> (r: Shape)
    ensures
        r == shape(kind),
{
    reveal(shape);
    match kind {
        Kind::Text => Shape::Text,
        Kind::U8 => Shape::Uint(0xff),
        Kind::U32 => Shape::Uint(0xffff_ffff),
        Kind::U64 => Shape::Uint(0xffff_ffff_ffff_ffff),
        Kind::I16 => Shape::Int(-0x8000, 0x7fff),
        Kind::Octets => Shape::Octets,
        Kind::TimestampingMethod => Shape::Choice(5),
        Kind::SourceAttestation => Shape::Choice(2),
        Kind::SyncState => Shape::Choice(5),
        Kind::StreamKind => Shape::Choice(3),
        Kind::MessageType => Shape::Choice(7),
        Kind::ConnectRejectReason => Shape::Choice(2),
        Kind::SensorData => Shape::Choice(3),
        Kind::DetectorHealthStatus => Shape::Choice(3),
        Kind::DetectionIds => Shape::List(Kind::Text),
        Kind::StreamDescriptors => Shape::List(Kind::StreamDescriptor),
        Kind::Event => Shape::Choice(5),
        _ => Shape::Record,
    }
}

fn required(kind: Kind) -> (r: Field)
    ensures
        r == req(kind),
{
    Field { kind, optional: false }
}

fn optional(kind: Kind) -> (r: Field)
    ensures
        r == opt(kind),
{
    Field { kind, optional: true }
}

/// The fields of a record or of a choice's variant.
pub fn fields_of(kind: Kind, variant: u8) -> (r: Vec<Field>)
    ensures
        r@ == fields(kind, variant as int),
{
    reveal(fields);
    match kind {
        Kind::SensorData => if variant == 0 {
            vec![optional(Kind::I16), optional(Kind::U32)]
        } else if variant == 2 {
            vec![optional(Kind::Text)]
        } else {
            vec![]
        },
        Kind::DetectorHealthStatus => if variant == 1 || variant == 2 {
            vec![required(Kind::Text)]
        } else {
            vec![]
        },
        Kind::StreamDescriptor => vec![
            required(Kind::Text),
            required(Kind::StreamKind),
            optional(Kind::Text),
            optional(Kind::Text),
        ],
        Kind::Detection => vec![
            required(Kind::Text),
            required(Kind::Text),
            required(Kind::Text),
            optional(Kind::Text),
            required(Kind::U64),
            optional(Kind::U64),
            optional(Kind::U64),
            required(Kind::TimestampingMethod),
            required(Kind::Text),
            required(Kind::SourceAttestation),
            required(Kind::U64),
            required(Kind::SensorData),
        ],
        Kind::Crossing => vec![
            required(Kind::Text),
            required(Kind::Text),
            optional(Kind::Text),
            required(Kind::U64),
            optional(Kind::U64),
            required(Kind::Text),
            required(Kind::TimestampingMethod),
            required(Kind::SourceAttestation),
            required(Kind::DetectionIds),
        ],
        Kind::DetectorHealth => vec![
            required(Kind::Text),
            required(Kind::U64),
            required(Kind::DetectorHealthStatus),
            optional(Kind::Text),
        ],
        Kind::TimebaseStatus => vec![
            required(Kind::Text),
            required(Kind::U64),
            required(Kind::SyncState),
            optional(Kind::U64),
            required(Kind::SourceAttestation),
        ],
        Kind::AdapterCapabilities => vec![
            required(Kind::StreamDescriptors),
            required(Kind::TimestampingMethod),
            optional(Kind::U64),
        ],
        Kind::AdapterMetadata => vec![
            required(Kind::Text),
            required(Kind::Text),
            required(Kind::Text),
            required(Kind::SourceAttestation),
            required(Kind::U64),
            required(Kind::AdapterCapabilities),
        ],
        Kind::Event => if variant == 0 {
            vec![required(Kind::Detection)]
        } else if variant == 1 {
            vec![required(Kind::DetectorHealth)]
        } else if variant == 2 {
            vec![required(Kind::TimebaseStatus)]
        } else if variant == 3 {
            vec![required(Kind::AdapterMetadata)]
        } else if variant == 4 {
            vec![required(Kind::Crossing)]
        } else {
            vec![]
        },
        Kind::Envelope => vec![
            required(Kind::U8),
            required(Kind::MessageType),
            required(Kind::Text),
            optional(Kind::Text),
            optional(Kind::U64),
            optional(Kind::Text),
            optional(Kind::Octets),
            optional(Kind::Text),
        ],
        Kind::Connect => vec![
            required(Kind::U8),
            required(Kind::U8),
            required(Kind::StreamDescriptors),
            optional(Kind::Text),
        ],
        Kind::ConnectAck => vec![required(Kind::U8)],
        Kind::ConnectReject => vec![
            required(Kind::ConnectRejectReason),
            required(Kind::U8),
            required(Kind::U8),
        ],
        Kind::Heartbeat => vec![required(Kind::U64)],
        _ => vec![],
    }
}

} // verus!
