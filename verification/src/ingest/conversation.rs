//! Whole conversations: what a producer sends is what is handed on.

use vstd::prelude::*;

use crate::cbor;
use crate::codec;
use crate::codec::Tree;
use crate::frame::error::FrameError;
use crate::frame::stream;
use crate::frame::stream::StreamFrameDecoder;
use crate::ingest::admission;
use crate::ingest::error;
use crate::ingest::handshake;
use crate::ingest::handshake::ConnectAuthoriser;
use crate::ingest::meaning;
use crate::ingest::processor;
use crate::ingest::session;
use crate::ingest::session::{
    ConnectPhase, ConnectStep, IngestError, Session, SessionPlan, SessionStep,
};
use crate::model::event::OtkEvent;
use crate::model::ids::ProducerId;
use crate::numbering;
use crate::protocol::envelope::{MessageType, OtkEnvelope};
use crate::protocol::messages::{Connect, ConnectRejectReason, Heartbeat};
use crate::wire::Wire;

verus! {

/// An event that is handed on, with the trace context that it came with.
pub type Delivery = (Tree, Option<Seq<char>>);

/// One turn of a session.
pub enum Turn {
    /// The session took in what was read.
    Fed { bytes: Seq<u8>, r: Result<bool, IngestError> },
    /// The session was asked what to do.
    Asked { step: SessionStep },
}

/// Whether a call of a session is a turn.
pub open spec fn is_turn(s: &mut Session, turn: Turn) -> bool {
    match turn {
        Turn::Fed { bytes, r } => exists|input: &[u8]|
            input@ == bytes && #[trigger] call_ensures(Session::feed, (s, input), r),
        Turn::Asked { step } => call_ensures(Session::next_event, (s,), step),
    }
}

/// The bytes that were read, over some turns.
pub open spec fn read(turns: Seq<Turn>) -> Seq<u8>
    decreases turns.len(),
{
    if turns.len() == 0 {
        seq![]
    } else {
        match turns[0] {
            Turn::Fed { bytes, .. } => bytes + read(turns.skip(1)),
            Turn::Asked { .. } => read(turns.skip(1)),
        }
    }
}

/// What a turn hands on.
pub open spec fn handed_on(turn: Turn) -> Seq<Delivery> {
    match turn {
        Turn::Asked { step: SessionStep::Deliver(incoming) } => seq![
            (
                incoming.event.tree(),
                match incoming.traceparent {
                    Some(s) => Some(s@),
                    None => None,
                },
            ),
        ],
        _ => seq![],
    }
}

/// What was handed on, over some turns.
pub open spec fn delivered(turns: Seq<Turn>) -> Seq<Delivery>
    decreases turns.len(),
{
    if turns.len() == 0 {
        seq![]
    } else {
        handed_on(turns[0]) + delivered(turns.skip(1))
    }
}

/// Whether a turn ends the session: with the producer's leave, or with an error.
pub open spec fn is_end(turn: Turn) -> bool {
    match turn {
        Turn::Asked { step: SessionStep::Closed } => true,
        Turn::Asked { step: SessionStep::Failed(_) } => true,
        _ => false,
    }
}

/// Whether a message ends a session: it is the producer's leave, or refused.
pub open spec fn ends(e: OtkEnvelope, producer: Seq<char>, version: u8) -> bool {
    match processor::inbound(e, producer, version) {
        processor::Inbound::Disconnect => true,
        processor::Inbound::Refused(_) => true,
        _ => false,
    }
}

/// The events of messages, up to the first message that ends the session.
pub open spec fn events(msgs: Seq<OtkEnvelope>, producer: Seq<char>, version: u8) -> Seq<Delivery>
    decreases msgs.len(),
{
    if msgs.len() == 0 || ends(msgs[0], producer, version) {
        seq![]
    } else {
        (match processor::inbound(msgs[0], producer, version) {
            processor::Inbound::Event(event, traceparent) => seq![(event, traceparent)],
            _ => seq![],
        }) + events(msgs.skip(1), producer, version)
    }
}

/// Some of the frames, one behind the other.
pub open spec fn joined(frames: Seq<Vec<u8>>, from: int) -> Seq<u8>
    decreases frames.len() - from,
{
    if 0 <= from < frames.len() {
        frames[from]@ + joined(frames, from + 1)
    } else {
        seq![]
    }
}

/// The frames of messages, as [`stream::encode_stream`] writes them.
pub open spec fn framed(msgs: Seq<OtkEnvelope>, frames: Seq<Vec<u8>>, max: int) -> bool {
    &&& msgs.len() == frames.len()
    &&& 0 <= max <= usize::MAX
    &&& forall|i: int|
        0 <= i < msgs.len() ==> call_ensures(
            stream::encode_stream,
            (&#[trigger] msgs[i], max as usize),
            Ok::<Vec<u8>, FrameError>(frames[i]),
        )
}

/// Whether a session has the messages from number `k` on waiting, up to number
/// `n`, and has read the beginning of the next one.
pub open spec fn stands(
    s: session::SessionModel,
    msgs: Seq<OtkEnvelope>,
    frames: Seq<Vec<u8>>,
    k: int,
    n: int,
) -> bool {
    &&& 0 <= k <= n <= msgs.len()
    &&& s.pending.len() == n - k
    &&& forall|i: int|
        0 <= i < n - k ==> (#[trigger] s.pending[i]).tree() == msgs[k + i].tree()
    &&& s.decoder.skip == 0
    &&& n < msgs.len() ==> s.decoder.rest.len() < frames[n]@.len()
}

/// What the frame of a message is.
proof fn lemma_frame(msgs: Seq<OtkEnvelope>, frames: Seq<Vec<u8>>, max: int, i: int)
    requires
        framed(msgs, frames, max),
        0 <= i < msgs.len(),
    ensures
        frames[i]@ == stream::stream_frame(msgs[i].tree()),
        codec::encoding(msgs[i].tree()).len() <= max,
        codec::encoding(msgs[i].tree()).len() <= u32::MAX,
        forall|rest: Seq<u8>|
            {
                let after = stream::stream_state(max, 0, rest);
                #[trigger] stream::stream_state(max, 0, frames[i]@ + rest) == (stream::StreamState {
                    results: seq![Ok::<Tree, FrameError>(msgs[i].tree())] + after.results,
                    ..after
                })
            },
{
    assert(call_ensures(
        stream::encode_stream,
        (&msgs[i], max as usize),
        Ok::<Vec<u8>, FrameError>(frames[i]),
    ));
}

/// The beginning of a frame is kept until the rest of it comes in.
proof fn lemma_incomplete(t: Tree, max: int, s: Seq<u8>)
    requires
        codec::encoding(t).len() <= max,
        codec::encoding(t).len() <= u32::MAX,
        s.len() < stream::stream_frame(t).len(),
        forall|i: int| 0 <= i < s.len() ==> #[trigger] s[i] == stream::stream_frame(t)[i],
    ensures
        stream::stream_state(max, 0, s) == (stream::StreamState {
            results: seq![],
            skip: 0,
            rest: s,
        }),
{
    let n = codec::encoding(t).len() as int;
    let head = cbor::be4(n);
    let frame = stream::stream_frame(t);
    if s.len() >= 4 {
        assert(s[0] == frame[0] && s[1] == frame[1] && s[2] == frame[2] && s[3] == frame[3]);
        assert(frame[0] == head[0] && frame[1] == head[1] && frame[2] == head[2] && frame[3]
            == head[3]);
        assert(cbor::be4_at(s, 0) == n);
    }
}

/// What the bytes of some frames come to, wherever they are cut off: the
/// messages of the frames that are complete, and the beginning of the next one.
proof fn lemma_decoded(
    msgs: Seq<OtkEnvelope>,
    frames: Seq<Vec<u8>>,
    max: int,
    from: int,
    s: Seq<u8>,
    tail: Seq<u8>,
) -> (n: int)
    requires
        framed(msgs, frames, max),
        0 <= from <= msgs.len(),
        s + tail == joined(frames, from),
    ensures
        from <= n <= msgs.len(),
        ({
            let state = stream::stream_state(max, 0, s);
            &&& state.skip == 0
            &&& state.rest + tail == joined(frames, n)
            &&& n < msgs.len() ==> state.rest.len() < frames[n]@.len()
            &&& session::first_fault(state.results) is None
            &&& session::good_outcomes(state.results).len() == n - from
            &&& state.results.len() == n - from
            &&& forall|i: int|
                0 <= i < n - from ==> (#[trigger] session::good_outcomes(state.results)[i]) == msgs[from
                    + i].tree()
        }),
    decreases msgs.len() - from,
{
    if from == msgs.len() {
        assert((s + tail).len() == 0);
        from
    } else {
        lemma_frame(msgs, frames, max, from);
        let frame = frames[from]@;
        let all = joined(frames, from);
        if s.len() < frame.len() {
            assert forall|i: int| 0 <= i < s.len() implies #[trigger] s[i] == frame[i] by {
                assert(s[i] == (s + tail)[i]);
                assert(all[i] == frame[i]);
            }
            lemma_incomplete(msgs[from].tree(), max, s);
            from
        } else {
            let behind = s.skip(frame.len() as int);
            assert(behind + tail =~= all.skip(frame.len() as int));
            assert(all.skip(frame.len() as int) =~= joined(frames, from + 1));
            assert(s =~= frame + behind) by {
                assert forall|i: int| 0 <= i < frame.len() implies #[trigger] s[i] == frame[i] by {
                    assert(s[i] == (s + tail)[i]);
                    assert(all[i] == frame[i]);
                }
            }
            let n = lemma_decoded(msgs, frames, max, from + 1, behind, tail);
            let after = stream::stream_state(max, 0, behind);
            let state = stream::stream_state(max, 0, s);
            assert(state.results[0] == Ok::<Tree, FrameError>(msgs[from].tree()));
            assert(state.results.skip(1) =~= after.results);
            let good = session::good_outcomes(state.results);
            assert(good =~= seq![msgs[from].tree()] + session::good_outcomes(after.results));
            assert forall|i: int| 0 <= i < n - from implies #[trigger] good[i] == msgs[from
                + i].tree() by {
                if i > 0 {
                    assert(good[i] == session::good_outcomes(after.results)[i - 1]);
                }
            }
            n
        }
    }
}

/// Messages with the same fields are treated the same.
proof fn lemma_same(a: OtkEnvelope, b: OtkEnvelope, producer: Seq<char>, version: u8)
    requires
        a.tree() == b.tree(),
    ensures
        processor::inbound(a, producer, version) == processor::inbound(b, producer, version),
{
    session::lemma_same_message(a, b, producer, version);
}

/// What the waiting messages come to.
proof fn lemma_asked(
    pending: Seq<OtkEnvelope>,
    msgs: Seq<OtkEnvelope>,
    producer: Seq<char>,
    version: u8,
)
    requires
        pending.len() <= msgs.len(),
        forall|i: int| 0 <= i < pending.len() ==> (#[trigger] pending[i]).tree() == msgs[i].tree(),
    ensures
        ({
            let (plan, n) = session::next_plan(pending, producer, version);
            let all = events(msgs, producer, version);
            &&& 0 <= n <= pending.len()
            &&& match plan {
                SessionPlan::Deliver(event, traceparent) => {
                    &&& n > 0
                    &&& all == seq![(event, traceparent)] + events(msgs.skip(n), producer, version)
                    &&& forall|i: int| 0 <= i < n ==> !ends(#[trigger] msgs[i], producer, version)
                },
                SessionPlan::ReadMore => {
                    &&& n == pending.len()
                    &&& all == events(msgs.skip(n), producer, version)
                    &&& forall|i: int| 0 <= i < n ==> !ends(#[trigger] msgs[i], producer, version)
                },
                _ => {
                    &&& n > 0
                    &&& all.len() == 0
                    &&& ends(msgs[n - 1], producer, version)
                    &&& plan is Closed <==> processor::inbound(msgs[n - 1], producer, version)
                        is Disconnect
                    &&& forall|i: int|
                        0 <= i < n - 1 ==> !ends(#[trigger] msgs[i], producer, version)
                },
            }
        }),
    decreases pending.len(),
{
    if pending.len() == 0 {
        assert(msgs.skip(0) =~= msgs);
    } else {
        assert(pending[0].tree() == msgs[0].tree());
        lemma_same(pending[0], msgs[0], producer, version);
        if processor::inbound(msgs[0], producer, version) is Heartbeat {
            let later = msgs.skip(1);
            assert forall|i: int| 0 <= i < pending.skip(1).len() implies (#[trigger] pending.skip(
                1,
            )[i]).tree() == later[i].tree() by {
                assert(pending[i + 1].tree() == msgs[i + 1].tree());
            }
            lemma_asked(pending.skip(1), later, producer, version);
            let (plan, n) = session::next_plan(pending.skip(1), producer, version);
            assert(later.skip(n) =~= msgs.skip(n + 1));
            assert(events(msgs, producer, version) =~= events(later, producer, version));
            assert forall|i: int| 0 <= i < n implies ends(#[trigger] msgs[i + 1], producer, version)
                == ends(later[i], producer, version) by {}
            assert forall|i: int|
                0 <= i < n + 1 && (plan is ReadMore || plan is Deliver || i < n)
                implies !ends(#[trigger] msgs[i], producer, version) by {
                if i > 0 {
                    assert(!ends(later[i - 1], producer, version));
                }
            }
            if n > 0 {
                assert(later[n - 1] == msgs[n]);
            }
        }
    }
}

/// Whether a turn that takes in bytes finds no fault in them, and says that the
/// transport goes on.
pub open spec fn reads_well(turn: Turn) -> bool {
    match turn {
        Turn::Fed { bytes, r } => bytes.len() > 0 ==> r == Ok::<bool, IngestError>(true),
        Turn::Asked { .. } => true,
    }
}

/// What holds of a conversation.
pub open spec fn goes_right(
    turns: Seq<Turn>,
    msgs: Seq<OtkEnvelope>,
    producer: Seq<char>,
    version: u8,
    tail: Seq<u8>,
) -> bool {
    let all = events(msgs, producer, version);
    &&& delivered(turns).is_prefix_of(all)
    &&& turns.len() > 0 && is_end(turns.last()) ==> delivered(turns) == all
    &&& turns.len() > 0 && tail.len() == 0 && turns.last() == (Turn::Asked {
        step: SessionStep::ReadMore,
    }) ==> delivered(turns) == all && forall|i: int|
        0 <= i < msgs.len() ==> !ends(#[trigger] msgs[i], producer, version)
    &&& forall|i: int|
        0 <= i < turns.len() ==> reads_well(#[trigger] turns[i])
}

/// A read in the course of a conversation.
proof fn lemma_fed(
    s: &mut Session,
    bytes: Seq<u8>,
    r: Result<bool, IngestError>,
    msgs: Seq<OtkEnvelope>,
    frames: Seq<Vec<u8>>,
    k: int,
    n: int,
    later: Seq<u8>,
) -> (after: int)
    requires
        is_turn(s, Turn::Fed { bytes, r }),
        framed(msgs, frames, old(s)@.decoder.max),
        stands(old(s)@, msgs, frames, k, n),
        old(s)@.decoder.rest + bytes + later == joined(frames, n),
    ensures
        stands(final(s)@, msgs, frames, k, after),
        final(s)@.decoder.rest + later == joined(frames, after),
        final(s)@.decoder.max == old(s)@.decoder.max,
        final(s)@.producer == old(s)@.producer,
        final(s)@.version == old(s)@.version,
        reads_well(Turn::Fed { bytes, r }),
{
    let before = old(s)@;
    if bytes.len() == 0 {
        assert(before.decoder.rest + bytes =~= before.decoder.rest);
        n
    } else {
        let all = before.decoder.rest + bytes;
        let after = lemma_decoded(msgs, frames, before.decoder.max, n, all, later);
        let good = session::good_outcomes(
            stream::stream_state(before.decoder.max, 0, all).results,
        );
        assert(session::queue(final(s)@.pending) == session::queue(before.pending) + good);
        assert(session::queue(final(s)@.pending).len() == after - k);
        assert forall|i: int| 0 <= i < after - k implies (#[trigger] final(s)@.pending[i]).tree()
            == msgs[k + i].tree() by {
            assert(session::queue(final(s)@.pending)[i] == final(s)@.pending[i].tree());
            if i < n - k {
                assert(session::queue(before.pending)[i] == before.pending[i].tree());
            } else {
                assert(session::queue(final(s)@.pending)[i] == good[i - (n - k)]);
            }
        }
        after
    }
}

/// A session that was asked in the course of a conversation.
proof fn lemma_answered(
    s: &mut Session,
    step: SessionStep,
    msgs: Seq<OtkEnvelope>,
    frames: Seq<Vec<u8>>,
    k: int,
    n: int,
) -> (taken: int)
    requires
        is_turn(s, Turn::Asked { step }),
        stands(old(s)@, msgs, frames, k, n),
    ensures
        k <= taken <= n,
        stands(final(s)@, msgs, frames, taken, n),
        final(s)@.decoder == old(s)@.decoder,
        final(s)@.producer == old(s)@.producer,
        final(s)@.version == old(s)@.version,
        ({
            let producer = old(s)@.producer;
            let version = old(s)@.version;
            let all = events(msgs.skip(k), producer, version);
            &&& is_end(Turn::Asked { step }) ==> all.len() == 0
            &&& !is_end(Turn::Asked { step }) ==> all == handed_on(Turn::Asked { step }) + events(
                msgs.skip(taken),
                producer,
                version,
            )
            &&& !is_end(Turn::Asked { step }) ==> forall|i: int|
                k <= i < taken ==> !ends(#[trigger] msgs[i], producer, version)
            &&& step is ReadMore ==> taken == n
        }),
{
    let m = old(s)@;
    let from = msgs.skip(k);
    assert forall|i: int| 0 <= i < m.pending.len() implies (#[trigger] m.pending[i]).tree()
        == from[i].tree() by {}
    lemma_asked(m.pending, from, m.producer, m.version);
    let (plan, count) = session::next_plan(m.pending, m.producer, m.version);
    assert(from.skip(count) =~= msgs.skip(k + count));
    assert(session::session_plan_of(step) == plan);
    assert forall|i: int| 0 <= i < n - (k + count) implies (#[trigger] final(s)@.pending[i]).tree()
        == msgs[k + count + i].tree() by {
        assert(final(s)@.pending[i] == m.pending[count + i]);
    }
    if !is_end(Turn::Asked { step }) {
        assert forall|i: int| k <= i < k + count implies !ends(
            #[trigger] msgs[i],
            m.producer,
            m.version,
        ) by {
            assert(from[i - k] == msgs[i]);
        }
    }
    if step is ReadMore {
        assert(handed_on(Turn::Asked { step }) + events(msgs.skip(k + count), m.producer, m.version)
            =~= events(msgs.skip(k + count), m.producer, m.version));
    }
    k + count
}

/// A read does not change what is handed on.
proof fn lemma_after_read(
    turns: Seq<Turn>,
    msgs: Seq<OtkEnvelope>,
    producer: Seq<char>,
    version: u8,
    tail: Seq<u8>,
)
    requires
        turns.len() > 0,
        turns[0] is Fed,
        reads_well(turns[0]),
        turns.len() > 1 ==> goes_right(turns.skip(1), msgs, producer, version, tail),
    ensures
        goes_right(turns, msgs, producer, version, tail),
{
    let later = turns.skip(1);
    assert(handed_on(turns[0]) + delivered(later) =~= delivered(later));
    if turns.len() > 1 {
        assert(later.last() == turns.last());
    } else {
        assert(later =~= seq![]);
    }
    assert forall|i: int| 0 <= i < turns.len() implies reads_well(#[trigger] turns[i]) by {
        if i > 0 {
            assert(later[i - 1] == turns[i]);
        }
    }
}

/// What is handed on first comes before the rest.
proof fn lemma_after_asking(
    turns: Seq<Turn>,
    msgs: Seq<OtkEnvelope>,
    taken: int,
    producer: Seq<char>,
    version: u8,
    tail: Seq<u8>,
)
    requires
        turns.len() > 0,
        turns[0] is Asked,
        0 <= taken <= msgs.len(),
        is_end(turns[0]) ==> turns.len() == 1 && events(msgs, producer, version).len() == 0,
        !is_end(turns[0]) ==> events(msgs, producer, version) == handed_on(turns[0]) + events(
            msgs.skip(taken),
            producer,
            version,
        ) && forall|i: int| 0 <= i < taken ==> !ends(#[trigger] msgs[i], producer, version),
        turns.len() == 1 && tail.len() == 0 && turns[0] == (Turn::Asked {
            step: SessionStep::ReadMore,
        }) ==> taken == msgs.len(),
        turns.len() > 1 ==> goes_right(turns.skip(1), msgs.skip(taken), producer, version, tail),
    ensures
        goes_right(turns, msgs, producer, version, tail),
{
    let later = turns.skip(1);
    let all = events(msgs, producer, version);
    let behind = events(msgs.skip(taken), producer, version);
    if turns.len() > 1 {
        assert(later.last() == turns.last());
        assert(delivered(later) =~= behind.take(delivered(later).len() as int));
        assert(delivered(turns) =~= all.take(delivered(turns).len() as int));
        if delivered(later) == behind {
            assert(delivered(turns) == all);
        }
        assert forall|i: int| 0 <= i < turns.len() implies reads_well(#[trigger] turns[i]) by {
            if i > 0 {
                assert(later[i - 1] == turns[i]);
            }
        }
        if tail.len() == 0 && turns.last() == (Turn::Asked { step: SessionStep::ReadMore }) {
            assert forall|i: int| 0 <= i < msgs.len() implies !ends(
                #[trigger] msgs[i],
                producer,
                version,
            ) by {
                if i >= taken {
                    assert(msgs.skip(taken)[i - taken] == msgs[i]);
                }
            }
        }
    } else {
        assert(later =~= seq![]);
        assert(delivered(later) =~= seq![]);
        assert(delivered(turns) =~= handed_on(turns[0]));
        assert(turns.last() == turns[0]);
        if taken == msgs.len() {
            assert(msgs.skip(taken) =~= seq![]);
            assert(behind =~= seq![]);
        }
        if is_end(turns[0]) {
            assert(delivered(turns) =~= all);
        }
    }
}

/// Where nothing is still to come, nothing waits in the decoder.
proof fn lemma_all_read(
    s: session::SessionModel,
    msgs: Seq<OtkEnvelope>,
    frames: Seq<Vec<u8>>,
    k: int,
    n: int,
)
    requires
        stands(s, msgs, frames, k, n),
        msgs.len() == frames.len(),
        s.decoder.rest == joined(frames, n),
    ensures
        n == msgs.len(),
{
}

/// A conversation from the middle on.
#[verifier::spinoff_prover]
#[verifier::rlimit(40)]
proof fn lemma_conversation(
    calls: Seq<&mut Session>,
    turns: Seq<Turn>,
    msgs: Seq<OtkEnvelope>,
    frames: Seq<Vec<u8>>,
    k: int,
    n: int,
    tail: Seq<u8>,
)
    requires
        turns.len() > 0,
        calls.len() == turns.len(),
        forall|i: int| 0 <= i < calls.len() ==> is_turn(#[trigger] calls[i], turns[i]),
        forall|i: int, j: int|
            0 <= i < calls.len() && j == i + 1 && j < calls.len() ==> *final(#[trigger] calls[i])
                == *(#[trigger] calls[j]),
        forall|i: int| 0 <= i < turns.len() - 1 ==> !is_end(#[trigger] turns[i]),
        framed(msgs, frames, (*calls[0])@.decoder.max),
        stands((*calls[0])@, msgs, frames, k, n),
        (*calls[0])@.decoder.rest + read(turns) + tail == joined(frames, n),
    ensures
        goes_right(turns, msgs.skip(k), (*calls[0])@.producer, (*calls[0])@.version, tail),
    decreases turns.len(),
{
    let producer = (*calls[0])@.producer;
    let version = (*calls[0])@.version;
    let turn = turns[0];
    let later = turns.skip(1);
    let rest = (*calls[0])@.decoder.rest;
    let more = read(later) + tail;
    assert(is_turn(calls[0], turn));
    match turn {
        Turn::Fed { bytes, r } => {
            assert(rest + bytes + more =~= rest + read(turns) + tail);
            let after = lemma_fed(calls[0], bytes, r, msgs, frames, k, n, more);
            if turns.len() > 1 {
                assert(*final(calls[0]) == *calls[1]);
                assert((*calls[1])@.decoder.rest + read(later) + tail =~= (*calls[1])@.decoder.rest
                    + more);
                lemma_conversation(calls.skip(1), later, msgs, frames, k, after, tail);
            }
            lemma_after_read(turns, msgs.skip(k), producer, version, tail);
        },
        Turn::Asked { step } => {
            assert(rest + more =~= rest + read(turns) + tail);
            let taken = lemma_answered(calls[0], step, msgs, frames, k, n);
            assert(msgs.skip(k).skip(taken - k) =~= msgs.skip(taken));
            if turns.len() > 1 {
                assert(!is_end(turns[0]));
                assert(*final(calls[0]) == *calls[1]);
                assert((*calls[1])@.decoder.rest + read(later) + tail =~= rest + more);
                lemma_conversation(calls.skip(1), later, msgs, frames, taken, n, tail);
            } else if tail.len() == 0 {
                assert(later =~= seq![]);
                assert(rest + more =~= rest);
                lemma_all_read((*calls[0])@, msgs, frames, k, n);
            }
            lemma_after_asking(turns, msgs.skip(k), taken - k, producer, version, tail);
        },
    }
}

/// A conversation comes to what the producer sent. Whatever frames a producer
/// sends that [`stream::encode_stream`] writes, however they are cut into reads,
/// and whenever the session is asked in between: no read is faulty; what is handed
/// on are always the first of the events of the messages before the first one that
/// ends the session, in order; once the session has ended it was all of them, and
/// so it was once everything has been read and the session asks for more, where
/// then no message ends the session.
///
/// The session may have some messages and the beginning of the next one already;
/// `tail` is what has not been read yet.
pub proof fn law_conversation(
    calls: Seq<&mut Session>,
    turns: Seq<Turn>,
    msgs: Seq<OtkEnvelope>,
    frames: Seq<Vec<u8>>,
    waiting: int,
    tail: Seq<u8>,
)
    requires
        turns.len() > 0,
        calls.len() == turns.len(),
        forall|i: int| 0 <= i < calls.len() ==> is_turn(#[trigger] calls[i], turns[i]),
        forall|i: int, j: int|
            0 <= i < calls.len() && j == i + 1 && j < calls.len() ==> *final(#[trigger] calls[i])
                == *(#[trigger] calls[j]),
        forall|i: int| 0 <= i < turns.len() - 1 ==> !is_end(#[trigger] turns[i]),
        framed(msgs, frames, (*calls[0])@.decoder.max),
        stands((*calls[0])@, msgs, frames, 0, waiting),
        (*calls[0])@.decoder.rest + read(turns) + tail == joined(frames, waiting),
    ensures
        ({
            let all = events(msgs, (*calls[0])@.producer, (*calls[0])@.version);
            &&& delivered(turns).is_prefix_of(all)
            &&& is_end(turns.last()) ==> delivered(turns) == all
            &&& tail.len() == 0 && turns.last() == (Turn::Asked { step: SessionStep::ReadMore })
                ==> delivered(turns) == all && forall|i: int|
                0 <= i < msgs.len() ==> !ends(
                    #[trigger] msgs[i],
                    (*calls[0])@.producer,
                    (*calls[0])@.version,
                )
            &&& forall|i: int| 0 <= i < turns.len() ==> reads_well(#[trigger] turns[i])
        }),
{
    assert(msgs.skip(0) =~= msgs);
    lemma_conversation(calls, turns, msgs, frames, 0, waiting, tail);
}

/// What a producer may say in a session that goes on.
pub enum Said {
    Event(OtkEvent),
    Alive(Heartbeat),
}

/// Whether a message says something: it comes from the producer, in the version
/// that was agreed on, and holds the event or the heartbeat.
pub open spec fn says(e: OtkEnvelope, what: Said, producer: Seq<char>, version: u8) -> bool {
    &&& meaning::is_from(e, producer, version)
    &&& match what {
        Said::Event(event) => e.message_type == MessageType::Event && meaning::contains(e, event),
        Said::Alive(beat) => e.message_type == MessageType::Heartbeat && meaning::contains(e, beat),
    }
}

/// The events among what was said, each with the trace context of its message.
pub open spec fn told(msgs: Seq<OtkEnvelope>, said: Seq<Said>) -> Seq<Delivery>
    decreases said.len(),
{
    if said.len() == 0 {
        seq![]
    } else {
        (match said[0] {
            Said::Event(event) => seq![(event.tree(), meaning::trace_of(msgs[0]))],
            Said::Alive(_) => seq![],
        }) + told(msgs.skip(1), said.skip(1))
    }
}

/// Messages that say events and heartbeats have these events.
pub proof fn law_events_of_messages(
    msgs: Seq<OtkEnvelope>,
    said: Seq<Said>,
    producer: Seq<char>,
    version: u8,
)
    requires
        msgs.len() == said.len(),
        forall|i: int| 0 <= i < msgs.len() ==> says(#[trigger] msgs[i], said[i], producer, version),
    ensures
        events(msgs, producer, version) == told(msgs, said),
    decreases msgs.len(),
{
    if msgs.len() > 0 {
        assert(says(msgs[0], said[0], producer, version));
        match said[0] {
            Said::Event(event) => {
                meaning::lemma_event(msgs[0], event, producer, version);
            },
            Said::Alive(beat) => {
                meaning::lemma_heartbeat(msgs[0], beat, producer, version);
            },
        }
        assert forall|i: int| 0 <= i < msgs.skip(1).len() implies says(
            #[trigger] msgs.skip(1)[i],
            said.skip(1)[i],
            producer,
            version,
        ) by {
            assert(says(msgs[i + 1], said[i + 1], producer, version));
        }
        law_events_of_messages(msgs.skip(1), said.skip(1), producer, version);
    }
}

/// A fresh session that is fed the frames of events and heartbeats, however they
/// are cut into reads, has handed on exactly the events, in the order in which they
/// were sent, by the time it asks for more.
pub proof fn law_every_event_gets_through(
    calls: Seq<&mut Session>,
    turns: Seq<Turn>,
    msgs: Seq<OtkEnvelope>,
    said: Seq<Said>,
    frames: Seq<Vec<u8>>,
)
    requires
        turns.len() > 0,
        calls.len() == turns.len(),
        forall|i: int| 0 <= i < calls.len() ==> is_turn(#[trigger] calls[i], turns[i]),
        forall|i: int, j: int|
            0 <= i < calls.len() && j == i + 1 && j < calls.len() ==> *final(#[trigger] calls[i])
                == *(#[trigger] calls[j]),
        forall|i: int| 0 <= i < turns.len() - 1 ==> !is_end(#[trigger] turns[i]),
        framed(msgs, frames, (*calls[0])@.decoder.max),
        (*calls[0])@.pending.len() == 0,
        (*calls[0])@.decoder.skip == 0,
        (*calls[0])@.decoder.rest.len() == 0,
        msgs.len() == said.len(),
        forall|i: int|
            0 <= i < msgs.len() ==> says(
                #[trigger] msgs[i],
                said[i],
                (*calls[0])@.producer,
                (*calls[0])@.version,
            ),
        read(turns) == joined(frames, 0),
        turns.last() == (Turn::Asked { step: SessionStep::ReadMore }),
    ensures
        delivered(turns) == told(msgs, said),
{
    if msgs.len() > 0 {
        lemma_frame(msgs, frames, (*calls[0])@.decoder.max, 0);
    }
    assert((*calls[0])@.decoder.rest + read(turns) + seq![] =~= read(turns));
    law_conversation(calls, turns, msgs, frames, 0, seq![]);
    law_events_of_messages(msgs, said, (*calls[0])@.producer, (*calls[0])@.version);
}

/// A message that waits is dropped only if it was a heartbeat itself: the messages
/// that a session takes when it is asked are heartbeats, but for the one that it
/// answers with, which is the last one that it takes. All others go on waiting, in
/// order.
pub proof fn law_only_heartbeats_are_passed_over(s: &mut Session, step: SessionStep) -> (taken: int)
    requires
        call_ensures(Session::next_event, (s,), step),
    ensures
        0 <= taken <= old(s)@.pending.len(),
        final(s)@.pending == old(s)@.pending.skip(taken),
        step is ReadMore ==> taken == old(s)@.pending.len(),
        !(step is ReadMore) ==> taken > 0,
        ({
            let answered = processor::inbound(
                old(s)@.pending[taken - 1],
                old(s)@.producer,
                old(s)@.version,
            );
            match step {
                SessionStep::ReadMore => true,
                SessionStep::Deliver(incoming) => answered == processor::Inbound::Event(
                    incoming.event.tree(),
                    match incoming.traceparent {
                        Some(s) => Some(s@),
                        None => None,
                    },
                ),
                SessionStep::Closed => answered == processor::Inbound::Disconnect,
                SessionStep::Failed(e) => answered is Refused && e@ == session::Trouble::Decode(
                    error::refusal_text(answered->Refused_0),
                ),
            }
        }),
        forall|i: int|
            0 <= i < taken && (step is ReadMore || i < taken - 1) ==> processor::inbound(
                #[trigger] old(s)@.pending[i],
                old(s)@.producer,
                old(s)@.version,
            ) is Heartbeat,
{
    let m = old(s)@;
    lemma_passed_over(m.pending, m.producer, m.version);
    session::next_plan(m.pending, m.producer, m.version).1
}

/// What is passed over.
proof fn lemma_passed_over(pending: Seq<OtkEnvelope>, producer: Seq<char>, version: u8)
    ensures
        ({
            let (plan, n) = session::next_plan(pending, producer, version);
            &&& 0 <= n <= pending.len()
            &&& plan is ReadMore ==> n == pending.len()
            &&& !(plan is ReadMore) ==> n > 0
            &&& match plan {
                SessionPlan::ReadMore => true,
                SessionPlan::Deliver(event, traceparent) => processor::inbound(
                    pending[n - 1],
                    producer,
                    version,
                ) == processor::Inbound::Event(event, traceparent),
                SessionPlan::Closed => processor::inbound(pending[n - 1], producer, version)
                    == processor::Inbound::Disconnect,
                SessionPlan::Failed(trouble) => processor::inbound(
                    pending[n - 1],
                    producer,
                    version,
                ) matches processor::Inbound::Refused(refusal) && trouble
                    == session::Trouble::Decode(error::refusal_text(refusal)),
            }
            &&& forall|i: int|
                0 <= i < n && (plan is ReadMore || i < n - 1) ==> processor::inbound(
                    #[trigger] pending[i],
                    producer,
                    version,
                ) is Heartbeat
        }),
    decreases pending.len(),
{
    if pending.len() > 0 && processor::inbound(pending[0], producer, version) is Heartbeat {
        let later = pending.skip(1);
        lemma_passed_over(later, producer, version);
        let (plan, n) = session::next_plan(later, producer, version);
        assert forall|i: int| 0 <= i < n + 1 && (plan is ReadMore || i < n) implies processor::inbound(
            #[trigger] pending[i],
            producer,
            version,
        ) is Heartbeat by {
            if i > 0 {
                assert(later[i - 1] == pending[i]);
            }
        }
        if n > 0 {
            assert(later[n - 1] == pending[n]);
        }
    }
}

/// Whether a message is one of the server that answers a request: in version 0,
/// with this message type and these contents, and with the request's correlation id.
pub open spec fn is_reply(t: Tree, e: OtkEnvelope, number: int, contents: Tree) -> bool {
    &&& t is Record
    &&& t->Record_0.len() == 8
    &&& t->Record_0[0] == Tree::Uint(0)
    &&& t->Record_0[1] == Tree::Choice(number, seq![])
    &&& t->Record_0[2] == Tree::Text("server"@)
    &&& t->Record_0[3] == Tree::Nothing
    &&& t->Record_0[4] == Tree::Nothing
    &&& t->Record_0[5] == match e.correlation_id {
        Some(id) => Tree::Text(id@),
        None => Tree::Nothing,
    }
    &&& t->Record_0[6] == Tree::Octets(codec::encoding(contents))
    &&& t->Record_0[7] == Tree::Nothing
}

/// Whether bytes are the frame of such a message, which is not over the limit.
pub open spec fn is_reply_frame(
    frame: Seq<u8>,
    e: OtkEnvelope,
    number: int,
    contents: Tree,
    max: int,
) -> bool {
    exists|t: Tree|
        #[trigger] is_reply(t, e, number, contents) && frame == stream::stream_frame(t)
            && codec::encoding(t).len() <= max
}

/// Whether the frame of such a message would be over the limit.
pub open spec fn is_reply_too_large(e: OtkEnvelope, number: int, contents: Tree, max: int) -> bool {
    exists|t: Tree|
        #[trigger] is_reply(t, e, number, contents) && (codec::encoding(t).len() > max
            || codec::encoding(t).len() > u32::MAX)
}

/// What the authoriser would say of a request, or that the version is not spoken.
pub open spec fn verdict(
    f: spec_fn(Seq<char>, Option<Seq<char>>) -> Result<(), ConnectRejectReason>,
    e: OtkEnvelope,
    connect: Connect,
) -> Result<(), ConnectRejectReason> {
    if connect.protocol_version_min <= 0 <= connect.protocol_version_max {
        f(e.source_id@, admission::shown(connect.auth_token))
    } else {
        Err(ConnectRejectReason::VersionNotSupported)
    }
}

/// The contents of the message that turns a producer away.
pub open spec fn rejection(why: ConnectRejectReason) -> Tree {
    Tree::Record(
        seq![
            Tree::Choice(
                match why {
                    ConnectRejectReason::VersionNotSupported => 0,
                    ConnectRejectReason::Unauthorized => 1,
                },
                seq![],
            ),
            Tree::Uint(0),
            Tree::Uint(0),
        ],
    )
}

/// Messages with the same fields ask for the same.
proof fn lemma_same_request(a: OtkEnvelope, b: OtkEnvelope)
    requires
        a.tree() == b.tree(),
    ensures
        handshake::request(a) == handshake::request(b),
        a.source_id@ == b.source_id@,
        a.correlation_id.tree() == b.correlation_id.tree(),
{
    numbering::law_envelope_fields(a);
    numbering::law_envelope_fields(b);
    assert(a.message_type.number() == b.message_type.number());
    assert(a.tree()->Record_0[6] == b.tree()->Record_0[6]);
    assert(a.tree()->Record_0[5] == b.tree()->Record_0[5]);
    assert(a.tree()->Record_0[2] == b.tree()->Record_0[2]);
}

/// A session begins with the first message that comes in, however it is cut into
/// reads. Until it is whole, more is read. Then a producer that is let in is sent
/// the acknowledgement, and the session that is opened for it has the messages that
/// came in behind the request waiting, and the beginning of the next one; one that is
/// turned away is sent the reason. An answer that is over the limit is not sent: then
/// the handshake fails, or ends without a notice.
pub proof fn law_session_begins<A: ConnectAuthoriser>(
    phase: ConnectPhase,
    input: &[u8],
    authoriser: &A,
    f: spec_fn(Seq<char>, Option<Seq<char>>) -> Result<(), ConnectRejectReason>,
    msgs: Seq<OtkEnvelope>,
    connect: Connect,
    frames: Seq<Vec<u8>>,
    tail: Seq<u8>,
    r: ConnectStep,
) -> (n: int)
    requires
        call_ensures(ConnectPhase::feed::<A>, (phase, input, authoriser), r),
        forall|producer: ProducerId, token: Option<&str>, word: Result<(), ConnectRejectReason>|
            #[trigger] call_ensures(A::authorise, (authoriser, &producer, token), word) ==> word
                == f(producer@, admission::heard(token)),
        msgs.len() > 0,
        admission::carries(msgs[0], connect),
        framed(msgs, frames, phase.model().max),
        phase.model().skip == 0,
        phase.model().rest.len() < frames[0]@.len(),
        input@.len() > 0,
        phase.model().rest + input@ + tail == joined(frames, 0),
    ensures
        ({
            let before = phase.model();
            let max = before.max;
            let e = msgs[0];
            if before.rest.len() + input@.len() < frames[0]@.len() {
                r matches ConnectStep::ReadMore(later) && later.model() == (
                stream::StreamDecoderModel { rest: before.rest + input@, ..before })
            } else {
                match verdict(f, e, connect) {
                    Ok(_) => match r {
                        ConnectStep::Accepted { frame, session: s } => {
                            &&& is_reply_frame(
                                frame@,
                                e,
                                2,
                                Tree::Record(seq![Tree::Uint(0)]),
                                max,
                            )
                            &&& stands(s@, msgs, frames, 1, n)
                            &&& s@.decoder.max == max
                            &&& s@.decoder.rest + tail == joined(frames, n)
                            &&& s@.producer == e.source_id@
                            &&& s@.version == 0
                        },
                        ConnectStep::Failed(_) => is_reply_too_large(
                            e,
                            2,
                            Tree::Record(seq![Tree::Uint(0)]),
                            max,
                        ),
                        _ => false,
                    },
                    Err(reason) => {
                        &&& r matches ConnectStep::Rejected { notice, error } && error@
                            == session::Trouble::Handshake(
                            "rejected: "@ + reason.name_text(),
                        ) && match notice {
                            Some(frame) => is_reply_frame(frame@, e, 3, rejection(reason), max),
                            None => is_reply_too_large(e, 3, rejection(reason), max),
                        }
                    },
                }
            }
        }),
{
    let m = phase.model();
    let all = m.rest + input@;
    let n = lemma_decoded(msgs, frames, m.max, 0, all, tail);
    let state = stream::stream_state(m.max, 0, all);
    let good = session::good_outcomes(state.results);
    lemma_frame(msgs, frames, m.max, 0);
    if all.len() < frames[0]@.len() {
        assert forall|i: int| 0 <= i < all.len() implies #[trigger] all[i] == frames[0]@[i] by {
            assert(all[i] == (all + tail)[i]);
            assert(joined(frames, 0)[i] == frames[0]@[i]);
        }
        lemma_incomplete(msgs[0].tree(), m.max, all);
    } else {
        assert(n > 0);
        let (e, decision) = choose|e: OtkEnvelope, decision: Result<(), ConnectRejectReason>|
            {
                &&& e.tree() == good[0]
                &&& session::plan_of(r) == session::greeting_plan(
                    #[trigger] handshake::greeting(e, 0, decision),
                    stream::StreamDecoderModel { max: m.max, skip: state.skip, rest: state.rest },
                    good.skip(1),
                )
                &&& handshake::is_asked(e, 0) ==> handshake::decided_by(authoriser, e, decision)
            };
        lemma_same_request(e, msgs[0]);
        admission::lemma_request(msgs[0], connect);
        if handshake::is_asked(e, 0) {
            let (producer, token) = choose|producer: ProducerId, token: Option<&str>|
                {
                    &&& producer@ == e.source_id@
                    &&& handshake::request(e) matches Ok(asked) && asked.token
                        == handshake::token_text(token)
                    &&& #[trigger] call_ensures(
                        A::authorise,
                        (authoriser, &producer, token),
                        decision,
                    )
                };
            assert(decision == f(producer@, admission::heard(token)));
            assert(admission::heard(token) == admission::shown(connect.auth_token));
        }
        let corr = e.correlation_id.tree();
        match verdict(f, msgs[0], connect) {
            Ok(_) => {
                let t = handshake::ack_message(0, corr);
                lemma_reply(
                    t,
                    msgs[0],
                    MessageType::ConnectAck,
                    Tree::Record(seq![Tree::Uint(0)]),
                );
                if let ConnectStep::Accepted { frame, session: s } = r {
                    assert(session::queue(s@.pending) == good.skip(1));
                    assert(session::queue(s@.pending).len() == n - 1);
                    assert forall|i: int| 0 <= i < n - 1 implies (#[trigger] s@.pending[i]).tree()
                        == msgs[1 + i].tree() by {
                        assert(session::queue(s@.pending)[i] == s@.pending[i].tree());
                        assert(good.skip(1)[i] == good[i + 1]);
                        assert(good[i + 1] == msgs[0 + (i + 1)].tree());
                    }
                }
            },
            Err(reason) => {
                let contents = Tree::Record(seq![reason.tree(), Tree::Uint(0), Tree::Uint(0)]);
                numbering::law_reject_reason_numbers(reason);
                assert(contents == rejection(reason));
                let t = handshake::reject_message(reason, 0, corr);
                lemma_reply(t, msgs[0], MessageType::ConnectReject, contents);
            },
        }
    }
    n
}

/// The server's messages, field by field.
proof fn lemma_reply(t: Tree, e: OtkEnvelope, message_type: MessageType, contents: Tree)
    requires
        t == handshake::server_message(
            message_type,
            codec::encoding(contents),
            0,
            e.correlation_id.tree(),
        ),
    ensures
        is_reply(t, e, message_type.number(), contents),
{
    numbering::law_envelope_fields(e);
    let parts = t->Record_0;
    assert(parts.len() == 8);
    assert(parts[0] == Tree::Uint(0));
    assert(parts[1] == message_type.tree());
    assert(parts[2] == Tree::Text("server"@));
    assert(parts[5] == e.correlation_id.tree());
}

/// Where the transport ends in the middle of a frame, that is an error, and otherwise
/// it is just the end. What waits goes on waiting.
pub proof fn law_end_of_transport(s: &mut Session, input: &[u8], r: Result<bool, IngestError>)
    requires
        call_ensures(Session::feed, (s, input), r),
        input@.len() == 0,
    ensures
        final(s)@ == old(s)@,
        if old(s)@.decoder.rest.len() > 0 || old(s)@.decoder.skip > 0 {
            r matches Err(IngestError::Decode(why)) && why@
                == "truncated frame: EOF before frame completed"@
        } else {
            r == Ok::<bool, IngestError>(false)
        },
{
}

/// A transport that ends before the first message is whole ends the handshake: in the
/// middle of a frame with one error, and before it with another.
pub proof fn law_end_before_request<A: ConnectAuthoriser>(
    phase: ConnectPhase,
    input: &[u8],
    authoriser: &A,
    r: ConnectStep,
)
    requires
        call_ensures(ConnectPhase::feed::<A>, (phase, input, authoriser), r),
        input@.len() == 0,
    ensures
        if phase.model().rest.len() > 0 || phase.model().skip > 0 {
            r matches ConnectStep::Failed(IngestError::Decode(why)) && why@
                == "truncated Connect frame: EOF mid-frame during handshake"@
        } else {
            r matches ConnectStep::Failed(IngestError::Handshake(why)) && why@
                == "EOF before Connect"@
        },
{
}

/// A frame over the limit is an error as soon as its length is known: the messages that
/// waited are kept, and as many bytes as the length says are passed over.
pub proof fn law_oversize_frame(s: &mut Session, input: &[u8], r: Result<bool, IngestError>)
    requires
        call_ensures(Session::feed, (s, input), r),
        old(s)@.decoder.skip == 0,
        old(s)@.decoder.rest.len() == 0,
        input@.len() == 4,
        old(s)@.decoder.max < cbor::be4_at(input@, 0),
    ensures
        r is Err,
        session::queue(final(s)@.pending) == session::queue(old(s)@.pending),
        final(s)@.decoder.skip == cbor::be4_at(input@, 0),
        final(s)@.decoder.rest.len() == 0,
        final(s)@.producer == old(s)@.producer,
        final(s)@.version == old(s)@.version,
{
    let m = old(s)@.decoder;
    assert(m.rest + input@ =~= input@);
    let state = stream::stream_state(m.max, 0, input@);
    let len = cbor::be4_at(input@, 0);
    reveal_with_fuel(stream::stream_state, 2);
    assert(input@.skip(4).len() == 0);
    assert(state.results.len() >= 1);
    assert(session::good_outcomes(state.results) =~= seq![]);
    assert(session::queue(old(s)@.pending) + session::good_outcomes(state.results)
        =~= session::queue(old(s)@.pending));
    if len > 0 {
        assert(state.skip == len);
    }
}

/// The first fault among results, by its number; how many there are where none is one.
pub open spec fn first_bad(results: Seq<Result<OtkEnvelope, FrameError>>) -> int
    decreases results.len(),
{
    if results.len() == 0 || results[0] is Err {
        0
    } else {
        1 + first_bad(results.skip(1))
    }
}

/// Whether a result is a message with these fields.
pub open spec fn is_message(result: Result<OtkEnvelope, FrameError>, t: Tree) -> bool {
    match result {
        Ok(e) => e.tree() == t,
        Err(_) => false,
    }
}

/// What comes before the first fault.
proof fn lemma_first_bad(results: Seq<Result<OtkEnvelope, FrameError>>)
    ensures
        ({
            let n = first_bad(results);
            let os = stream::outcomes(results);
            let good = session::good_outcomes(os);
            &&& 0 <= n <= results.len()
            &&& good.len() == n
            &&& forall|i: int|
                0 <= i < n ==> is_message(results[i], #[trigger] good[i])
            &&& session::first_fault(os) == if n < results.len() {
                Some(results[n]->Err_0)
            } else {
                None
            }
            &&& n < results.len() ==> results[n] is Err
        }),
    decreases results.len(),
{
    let os = stream::outcomes(results);
    if results.len() > 0 {
        assert(os[0] == stream::outcome(results[0]));
        if results[0] is Ok {
            let later = results.skip(1);
            lemma_first_bad(later);
            assert(stream::outcomes(later) =~= os.skip(1));
            let n = first_bad(later);
            let good = session::good_outcomes(os);
            assert(good == seq![results[0]->Ok_0.tree()] + session::good_outcomes(os.skip(1)));
            assert forall|i: int| 0 <= i < n + 1 implies is_message(
                results[i],
                #[trigger] good[i],
            ) by {
                if i > 0 {
                    assert(later[i - 1] == results[i]);
                    assert(good[i] == session::good_outcomes(os.skip(1))[i - 1]);
                }
            }
            if n < later.len() {
                assert(later[n] == results[n + 1]);
            }
        }
    }
}

/// A session takes in what a decoder with the same state makes of the bytes, up to the
/// first fault: the messages before it wait, in order, behind those that waited; the
/// fault is what the read fails with; and what comes behind it is lost.
pub proof fn law_read_goes_up_to_the_first_fault(
    s: &mut Session,
    input: &[u8],
    r: Result<bool, IngestError>,
    decoder: &mut StreamFrameDecoder,
    results: Vec<Result<OtkEnvelope, FrameError>>,
    why: String,
)
    requires
        input@.len() > 0,
        call_ensures(Session::feed, (s, input), r),
        old(decoder)@ == old(s)@.decoder,
        call_ensures(StreamFrameDecoder::push, (decoder, input), results),
        first_bad(results@) < results@.len() ==> call_ensures(
            FrameError::message,
            (&results@[first_bad(results@)]->Err_0,),
            why,
        ),
    ensures
        ({
            let n = first_bad(results@);
            let waited = old(s)@.pending.len() as int;
            &&& final(s)@.decoder.rest == final(decoder)@.rest
            &&& final(s)@.decoder.skip == final(decoder)@.skip
            &&& final(s)@.pending.len() == waited + n
            &&& forall|i: int|
                0 <= i < waited ==> (#[trigger] final(s)@.pending[i]).tree() == old(
                    s,
                )@.pending[i].tree()
            &&& forall|i: int|
                waited <= i < waited + n ==> is_message(
                    results@[i - waited],
                    (#[trigger] final(s)@.pending[i]).tree(),
                )
            &&& if n < results@.len() {
                r matches Err(IngestError::Decode(text)) && text@ == why@
            } else {
                r == Ok::<bool, IngestError>(true)
            }
        }),
{
    lemma_first_bad(results@);
    let waited = old(s)@.pending.len() as int;
    let n = first_bad(results@);
    let before = session::queue(old(s)@.pending);
    let after = session::queue(final(s)@.pending);
    let good = session::good_outcomes(stream::outcomes(results@));
    assert(after == before + good);
    assert(after.len() == final(s)@.pending.len());
    assert forall|i: int| 0 <= i < waited implies (#[trigger] final(s)@.pending[i]).tree() == old(
        s,
    )@.pending[i].tree() by {
        assert(after[i] == final(s)@.pending[i].tree());
        assert(before[i] == old(s)@.pending[i].tree());
    }
    assert forall|i: int| waited <= i < waited + n implies is_message(
        results@[i - waited],
        (#[trigger] final(s)@.pending[i]).tree(),
    ) by {
        assert(after[i] == final(s)@.pending[i].tree());
        assert(after[i] == good[i - waited]);
    }
}

/// A fault anywhere in a read ends a handshake that has not ended yet, whatever came
/// before it, with the first fault as the reason.
pub proof fn law_fault_ends_handshake<A: ConnectAuthoriser>(
    phase: ConnectPhase,
    input: &[u8],
    authoriser: &A,
    r: ConnectStep,
    decoder: &mut StreamFrameDecoder,
    results: Vec<Result<OtkEnvelope, FrameError>>,
    why: String,
)
    requires
        input@.len() > 0,
        call_ensures(ConnectPhase::feed::<A>, (phase, input, authoriser), r),
        old(decoder)@ == phase.model(),
        call_ensures(StreamFrameDecoder::push, (decoder, input), results),
        first_bad(results@) < results@.len(),
        call_ensures(FrameError::message, (&results@[first_bad(results@)]->Err_0,), why),
    ensures
        r matches ConnectStep::Failed(IngestError::Decode(text)) && text@ == why@,
{
    lemma_first_bad(results@);
}

} // verus!
