//! Which number each field and each variant has on the wire.
//!
//! Nothing here is executed. Producers, nodes and stored logs agree on these
//! numbers: the laws give them one by one, in terms of the fields themselves.

use vstd::prelude::*;

use crate::cbor;
use crate::codec;
use crate::codec::{DecodeFault, Tree};
use crate::model::crossing::CrossingEvent;
use crate::model::detection::{Detection, SensorData};
use crate::model::event::OtkEvent;
use crate::model::health::{DetectorHealthEvent, DetectorHealthStatus, TimebaseStatusEvent};
use crate::model::ids::DetectionId;
use crate::model::metadata::{AdapterCapabilities, AdapterMetadataEvent};
use crate::model::stream::{StreamDescriptor, StreamKind};
use crate::model::timestamp::{SourceAttestation, SyncState, TimestampingMethod};
use crate::protocol::envelope::{MessageType, OtkEnvelope};
use crate::protocol::messages::{
    Connect, ConnectAck, ConnectReject, ConnectRejectReason, Heartbeat,
};
use crate::schema;
use crate::schema::Shape;
use crate::wire;
use crate::wire::Wire;

verus! {

/// The fields of a detection, each at its number.
pub proof fn law_detection_fields(d: Detection)
    ensures
        d.tree() is Record,
        d.tree()->Record_0.len() == 12,
        d.tree()->Record_0[0] == Tree::Text(d.detection_id@),
        d.tree()->Record_0[1] == Tree::Text(d.detector_id@),
        d.tree()->Record_0[2] == Tree::Text(d.timing_point_id@),
        d.tree()->Record_0[3] == match d.subject_id {
            Some(x) => Tree::Text(x@),
            None => Tree::Nothing,
        },
        d.tree()->Record_0[4] == Tree::Uint(d.detected_at_ns as int),
        d.tree()->Record_0[5] == match d.detected_at_uncertainty_ns {
            Some(x) => Tree::Uint(x as int),
            None => Tree::Nothing,
        },
        d.tree()->Record_0[6] == match d.received_at_ns {
            Some(x) => Tree::Uint(x as int),
            None => Tree::Nothing,
        },
        d.tree()->Record_0[7] == d.timestamping_method.tree(),
        d.tree()->Record_0[8] == Tree::Text(d.timebase_id@),
        d.tree()->Record_0[9] == d.source_attestation.tree(),
        d.tree()->Record_0[10] == Tree::Uint(d.sequence_number as int),
        d.tree()->Record_0[11] == d.sensor.tree(),
{
}

/// The fields of a crossing, each at its number.
pub proof fn law_crossing_fields(c: CrossingEvent)
    ensures
        c.tree() is Record,
        c.tree()->Record_0.len() == 9,
        c.tree()->Record_0[0] == Tree::Text(c.crossing_id@),
        c.tree()->Record_0[1] == Tree::Text(c.timing_point_id@),
        c.tree()->Record_0[2] == match c.subject_id {
            Some(x) => Tree::Text(x@),
            None => Tree::Nothing,
        },
        c.tree()->Record_0[3] == Tree::Uint(c.crossed_at_ns as int),
        c.tree()->Record_0[4] == match c.crossed_at_uncertainty_ns {
            Some(x) => Tree::Uint(x as int),
            None => Tree::Nothing,
        },
        c.tree()->Record_0[5] == Tree::Text(c.timebase_id@),
        c.tree()->Record_0[6] == c.timestamping_method.tree(),
        c.tree()->Record_0[7] == c.source_attestation.tree(),
        c.tree()->Record_0[8] == c.detection_ids.tree(),
{
}

/// The fields of a report of a detector's health, each at its number.
pub proof fn law_detector_health_fields(h: DetectorHealthEvent)
    ensures
        h.tree() is Record,
        h.tree()->Record_0.len() == 4,
        h.tree()->Record_0[0] == Tree::Text(h.detector_id@),
        h.tree()->Record_0[1] == Tree::Uint(h.reported_at_ns as int),
        h.tree()->Record_0[2] == h.status.tree(),
        h.tree()->Record_0[3] == match h.message {
            Some(x) => Tree::Text(x@),
            None => Tree::Nothing,
        },
{
}

/// The fields of a report of a timebase's state, each at its number.
pub proof fn law_timebase_status_fields(t: TimebaseStatusEvent)
    ensures
        t.tree() is Record,
        t.tree()->Record_0.len() == 5,
        t.tree()->Record_0[0] == Tree::Text(t.timebase_id@),
        t.tree()->Record_0[1] == Tree::Uint(t.reported_at_ns as int),
        t.tree()->Record_0[2] == t.sync_state.tree(),
        t.tree()->Record_0[3] == match t.uncertainty_ns {
            Some(x) => Tree::Uint(x as int),
            None => Tree::Nothing,
        },
        t.tree()->Record_0[4] == t.source_attestation.tree(),
{
}

/// The fields of the description of a stream, each at its number.
pub proof fn law_stream_descriptor_fields(s: StreamDescriptor)
    ensures
        s.tree() is Record,
        s.tree()->Record_0.len() == 4,
        s.tree()->Record_0[0] == Tree::Text(s.stream_id@),
        s.tree()->Record_0[1] == s.kind.tree(),
        s.tree()->Record_0[2] == match s.detector_id {
            Some(x) => Tree::Text(x@),
            None => Tree::Nothing,
        },
        s.tree()->Record_0[3] == match s.timing_point_id {
            Some(x) => Tree::Text(x@),
            None => Tree::Nothing,
        },
{
}

/// The fields of what an adapter can do, each at its number.
pub proof fn law_adapter_capabilities_fields(c: AdapterCapabilities)
    ensures
        c.tree() is Record,
        c.tree()->Record_0.len() == 3,
        c.tree()->Record_0[0] == c.streams.tree(),
        c.tree()->Record_0[1] == c.timestamping_method.tree(),
        c.tree()->Record_0[2] == match c.declared_resolution_ns {
            Some(x) => Tree::Uint(x as int),
            None => Tree::Nothing,
        },
{
}

/// The fields of what an adapter says of itself, each at its number.
pub proof fn law_adapter_metadata_fields(a: AdapterMetadataEvent)
    ensures
        a.tree() is Record,
        a.tree()->Record_0.len() == 6,
        a.tree()->Record_0[0] == Tree::Text(a.detector_id@),
        a.tree()->Record_0[1] == Tree::Text(a.timing_point_id@),
        a.tree()->Record_0[2] == Tree::Text(a.timebase_id@),
        a.tree()->Record_0[3] == a.source_attestation.tree(),
        a.tree()->Record_0[4] == Tree::Uint(a.declared_at_ns as int),
        a.tree()->Record_0[5] == a.capabilities.tree(),
{
}

/// The fields of an envelope, each at its number.
pub proof fn law_envelope_fields(e: OtkEnvelope)
    ensures
        e.tree() is Record,
        e.tree()->Record_0.len() == 8,
        e.tree()->Record_0[0] == Tree::Uint(e.protocol_version as int),
        e.tree()->Record_0[1] == e.message_type.tree(),
        e.tree()->Record_0[2] == Tree::Text(e.source_id@),
        e.tree()->Record_0[3] == match e.stream_id {
            Some(x) => Tree::Text(x@),
            None => Tree::Nothing,
        },
        e.tree()->Record_0[4] == match e.sequence_number {
            Some(x) => Tree::Uint(x as int),
            None => Tree::Nothing,
        },
        e.tree()->Record_0[5] == match e.correlation_id {
            Some(x) => Tree::Text(x@),
            None => Tree::Nothing,
        },
        e.tree()->Record_0[6] == match e.payload {
            Some(x) => Tree::Octets(x@),
            None => Tree::Nothing,
        },
        e.tree()->Record_0[7] == match e.traceparent {
            Some(x) => Tree::Text(x@),
            None => Tree::Nothing,
        },
{
}

/// The fields of a request to be let in, each at its number.
pub proof fn law_connect_fields(c: Connect)
    ensures
        c.tree() is Record,
        c.tree()->Record_0.len() == 4,
        c.tree()->Record_0[0] == Tree::Uint(c.protocol_version_min as int),
        c.tree()->Record_0[1] == Tree::Uint(c.protocol_version_max as int),
        c.tree()->Record_0[2] == c.streams.tree(),
        c.tree()->Record_0[3] == match c.auth_token {
            Some(x) => Tree::Text(x@),
            None => Tree::Nothing,
        },
{
}

/// The fields of the message that lets a producer in, each at its number.
pub proof fn law_connect_ack_fields(a: ConnectAck)
    ensures
        a.tree() is Record,
        a.tree()->Record_0.len() == 1,
        a.tree()->Record_0[0] == Tree::Uint(a.negotiated_version as int),
{
}

/// The fields of the message that turns a producer away, each at its number.
pub proof fn law_connect_reject_fields(r: ConnectReject)
    ensures
        r.tree() is Record,
        r.tree()->Record_0.len() == 3,
        r.tree()->Record_0[0] == r.reason.tree(),
        r.tree()->Record_0[1] == Tree::Uint(r.supported_version_min as int),
        r.tree()->Record_0[2] == Tree::Uint(r.supported_version_max as int),
{
}

/// The fields of a sign of life, each at its number.
pub proof fn law_heartbeat_fields(h: Heartbeat)
    ensures
        h.tree() is Record,
        h.tree()->Record_0.len() == 1,
        h.tree()->Record_0[0] == Tree::Uint(h.sent_at_ns as int),
{
}

/// The number of a way of timestamping. It has no fields.
pub proof fn law_timestamping_method_numbers(v: TimestampingMethod)
    ensures
        v.tree() == Tree::Choice(
            match v {
                TimestampingMethod::HardwareEventCapture => 0int,
                TimestampingMethod::FirmwareTimerRead => 1int,
                TimestampingMethod::AdapterReceiveTime => 2int,
                TimestampingMethod::ManualEntry => 3int,
                TimestampingMethod::ReplayRecorded => 4int,
            },
            seq![],
        ),
{
}

/// The number of an attestation. It has no fields.
pub proof fn law_source_attestation_numbers(v: SourceAttestation)
    ensures
        v.tree() == Tree::Choice(
            match v {
                SourceAttestation::RuntimeDiscovered => 0int,
                SourceAttestation::OperatorAsserted => 1int,
            },
            seq![],
        ),
{
}

/// The number of a state of a timebase. It has no fields.
pub proof fn law_sync_state_numbers(v: SyncState)
    ensures
        v.tree() == Tree::Choice(
            match v {
                SyncState::Locked => 0int,
                SyncState::Holdover => 1int,
                SyncState::FreeRun => 2int,
                SyncState::Unsynchronized => 3int,
                SyncState::Unknown => 4int,
            },
            seq![],
        ),
{
}

/// The number of a kind of stream. It has no fields.
pub proof fn law_stream_kind_numbers(v: StreamKind)
    ensures
        v.tree() == Tree::Choice(
            match v {
                StreamKind::Raw => 0int,
                StreamKind::Detections => 1int,
                StreamKind::Processed => 2int,
            },
            seq![],
        ),
{
}

/// The number of a kind of message. It has no fields.
pub proof fn law_message_type_numbers(v: MessageType)
    ensures
        v.tree() == Tree::Choice(
            match v {
                MessageType::Event => 0int,
                MessageType::Connect => 1int,
                MessageType::ConnectAck => 2int,
                MessageType::ConnectReject => 3int,
                MessageType::Heartbeat => 4int,
                MessageType::Error => 5int,
                MessageType::Disconnect => 6int,
            },
            seq![],
        ),
{
}

/// The number of a reason to turn a producer away. It has no fields.
pub proof fn law_reject_reason_numbers(v: ConnectRejectReason)
    ensures
        v.tree() == Tree::Choice(
            match v {
                ConnectRejectReason::VersionNotSupported => 0int,
                ConnectRejectReason::Unauthorized => 1int,
            },
            seq![],
        ),
{
}

/// The number of what a sensor saw, and the fields of each.
pub proof fn law_sensor_data_numbers(s: SensorData)
    ensures
        match s {
            SensorData::LoopTransponder { rssi_dbm, pulse_count } => {
                &&& s.tree() matches Tree::Choice(number, fields)
                &&& number == 0
                &&& fields.len() == 2
                &&& fields[0] == match rssi_dbm {
                    Some(n) => Tree::Int(n as int),
                    None => Tree::Nothing,
                }
                &&& fields[1] == match pulse_count {
                    Some(n) => Tree::Uint(n as int),
                    None => Tree::Nothing,
                }
            },
            SensorData::BeamBreak => s.tree() == Tree::Choice(1, seq![]),
            SensorData::Manual { operator_id } => {
                &&& s.tree() matches Tree::Choice(number, fields)
                &&& number == 2
                &&& fields.len() == 1
                &&& fields[0] == match operator_id {
                    Some(id) => Tree::Text(id@),
                    None => Tree::Nothing,
                }
            },
        },
{
}

/// The number of a detector's health, and the reason where there is one.
pub proof fn law_detector_health_status_numbers(s: DetectorHealthStatus)
    ensures
        s.tree() == match s {
            DetectorHealthStatus::Healthy => Tree::Choice(0, seq![]),
            DetectorHealthStatus::Degraded { reason } => Tree::Choice(
                1,
                seq![Tree::Text(reason@)],
            ),
            DetectorHealthStatus::Failed { reason } => Tree::Choice(2, seq![Tree::Text(reason@)]),
        },
{
}

/// The number of each kind of event. Its only field is the event itself.
pub proof fn law_event_numbers(e: OtkEvent)
    ensures
        e.tree() == match e {
            OtkEvent::Detection(d) => Tree::Choice(0, seq![d.tree()]),
            OtkEvent::DetectorHealth(h) => Tree::Choice(1, seq![h.tree()]),
            OtkEvent::TimebaseStatus(t) => Tree::Choice(2, seq![t.tree()]),
            OtkEvent::AdapterMetadata(a) => Tree::Choice(3, seq![a.tree()]),
            OtkEvent::Crossing(c) => Tree::Choice(4, seq![c.tree()]),
        },
{
}

/// A list of detections is written in its order.
pub proof fn law_detection_ids_in_order(ids: Vec<DetectionId>)
    ensures
        ids.tree() matches Tree::List(ts) && ts.len() == ids@.len() && forall|i: int|
            0 <= i < ids@.len() ==> #[trigger] ts[i] == Tree::Text(ids@[i]@),
{
}

/// A list of streams is written in its order.
pub proof fn law_streams_in_order(streams: Vec<StreamDescriptor>)
    ensures
        streams.tree() matches Tree::List(ts) && ts.len() == streams@.len() && forall|i: int|
            0 <= i < streams@.len() ==> #[trigger] ts[i] == streams@[i].tree(),
{
}

/// The bytes of a value, whatever follows them, are decoded as that value: every
/// field comes back.
pub proof fn law_values_travel<T: Wire>(
    value: T,
    bytes: Vec<u8>,
    input: &[u8],
    rest: Seq<u8>,
    r: Result<T, DecodeFault>,
)
    requires
        !T::field().optional,
        call_ensures(wire::to_vec::<T>, (&value,), bytes),
        input@ == bytes@ + rest,
        call_ensures(wire::decode::<T>, (input,), r),
    ensures
        r matches Ok(decoded) && decoded.tree() == value.tree(),
{
}

/// What is decoded is what the bytes say: where they are the CBOR form of an
/// item, the value that comes out is that item.
pub proof fn law_decodes_what_is_there<T: Wire>(
    t: Tree,
    input: &[u8],
    rest: Seq<u8>,
    r: Result<T, DecodeFault>,
)
    requires
        codec::conforms(t, T::field().kind),
        codec::fits(t),
        input@ == codec::encoding(t) + rest,
        call_ensures(wire::decode::<T>, (input,), r),
    ensures
        r matches Ok(decoded) && decoded.tree() == t,
{
    codec::lemma_parse_encoding(T::field().kind, t, seq![], rest);
    assert(seq![] + codec::encoding(t) + rest =~= input@);
}

/// A detection that comes in has the time of the detection at place 4, and its
/// number at place 10.
pub proof fn law_detection_is_read_by_number(
    items: Seq<Tree>,
    input: &[u8],
    rest: Seq<u8>,
    r: Result<Detection, DecodeFault>,
)
    requires
        codec::conforms(Tree::Record(items), crate::schema::Kind::Detection),
        codec::fits(Tree::Record(items)),
        input@ == codec::encoding(Tree::Record(items)) + rest,
        call_ensures(wire::decode::<Detection>, (input,), r),
    ensures
        r matches Ok(d) && items.len() == 12 && items[4] == Tree::Uint(d.detected_at_ns as int)
            && items[10] == Tree::Uint(d.sequence_number as int) && items[0] == Tree::Text(
            d.detection_id@,
        ) && items[1] == Tree::Text(d.detector_id@) && items[2] == Tree::Text(d.timing_point_id@)
            && items[8] == Tree::Text(d.timebase_id@),
{
    law_decodes_what_is_there::<Detection>(Tree::Record(items), input, rest, r);
    law_detection_fields(r->Ok_0);
}

/// A record from a later version, with one more item behind the fields that are
/// known, reads as the same value: the item is passed over, be it an empty array or
/// anything else that `minicbor` can pass over.
pub proof fn law_unknown_fields_are_passed_over<T: Wire>(
    value: T,
    item: Seq<u8>,
    input: &[u8],
    r: Result<T, DecodeFault>,
)
    requires
        call_ensures(wire::decode::<T>, (input,), r),
        !T::field().optional,
        schema::shape(T::field().kind) == Shape::Record,
        codec::fits(value.tree()),
        value.tree()->Record_0.len() < u64::MAX,
        ({
            let ts = value.tree()->Record_0;
            let n = ts.len() as int;
            input@ == cbor::head(4, n + 1) + codec::encodings(ts, n) + item
        }),
        item.len() > 0,
    ensures
        ({
            let at = input@.len() - item.len();
            item[0] == 0x80 || (cbor::item_end(input@, at) matches Some(end) && at < end
                <= input@.len()) ==> (r matches Ok(decoded) && decoded.tree() == value.tree())
        }),
{
    value.lemma_conforms();
    codec::lemma_more_items(T::field().kind, value.tree()->Record_0, item);
    assert(input@[input@.len() - item.len()] == item[0]);
}

/// A record that does not say how many items it has, but ends with a break, reads as
/// the same value.
pub proof fn law_open_ended_records<T: Wire>(
    value: T,
    rest: Seq<u8>,
    input: &[u8],
    r: Result<T, DecodeFault>,
)
    requires
        call_ensures(wire::decode::<T>, (input,), r),
        !T::field().optional,
        schema::shape(T::field().kind) == Shape::Record,
        codec::fits(value.tree()),
        ({
            let ts = value.tree()->Record_0;
            input@ == seq![0x9fu8] + codec::encodings(ts, ts.len() as int) + (seq![0xffu8] + rest)
        }),
    ensures
        r matches Ok(decoded) && decoded.tree() == value.tree(),
{
    value.lemma_conforms();
    codec::lemma_open_ended(T::field().kind, value.tree()->Record_0, rest);
}

/// A detection that ends too early is refused for the first field that it lacks. All
/// fields have to be there but those with the numbers 3, 5 and 6.
pub proof fn law_a_detection_is_complete(
    d: Detection,
    n: int,
    rest: Seq<u8>,
    input: &[u8],
    r: Result<Detection, DecodeFault>,
)
    requires
        call_ensures(wire::decode::<Detection>, (input,), r),
        codec::fits(d.tree()),
        0 <= n < 12 && n != 3 && n != 5 && n != 6,
        input@ == cbor::head(4, n) + codec::encodings(d.tree()->Record_0, n) + rest,
    ensures
        r == Err::<Detection, DecodeFault>(DecodeFault::MissingValue(n as u8)),
{
    reveal(schema::shape);
    reveal(schema::fields);
    d.lemma_conforms();
    law_detection_fields(d);
    codec::lemma_too_short(<Detection as Wire>::field().kind, d.tree()->Record_0, n, rest);
}

} // verus!
