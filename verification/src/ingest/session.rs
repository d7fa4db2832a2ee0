//! An ingest session as the bytes of its transport come in.
//!
//! The session does no input or output itself: it is told what was read, and
//! says what to do next. An empty read is the end of the transport.

use std::collections::VecDeque;

use vstd::prelude::*;
use vstd::string::*;

use crate::codec;
use crate::codec::Tree;
use crate::frame::error;
use crate::frame::error::FrameError;
use crate::frame::stream;
use crate::frame::stream::{encode_stream, StreamFrameDecoder};
use crate::ingest::handshake;
use crate::ingest::handshake::{
    perform_server_handshake_with_auth, ConnectAuthoriser, HandshakeOutcome,
};
use crate::ingest::processor;
use crate::ingest::processor::{InboundAction, PostHandshakeProcessor};
use crate::model::event::OtkEvent;
use crate::protocol::envelope::{MessageType, OtkEnvelope};
use crate::protocol::messages::ConnectRejectReason;
use crate::protocol::PROTOCOL_VERSION;
use crate::wire::Wire;

verus! {

/// Why a session ends badly.
#[derive(Debug)]
pub enum IngestError {
    /// The handshake failed.
    Handshake(String),
    /// What came in is not what the protocol says.
    Decode(String),
}

/// Why a session ends badly, as a model.
pub enum Trouble {
    Handshake(Seq<char>),
    Decode(Seq<char>),
}

impl View for IngestError {
    type V = Trouble;

    open spec fn view(&self) -> Trouble {
        match self {
            IngestError::Handshake(s) => Trouble::Handshake(s@),
            IngestError::Decode(s) => Trouble::Decode(s@),
        }
    }
}

/// An event with the trace context that it came with.
#[derive(Debug)]
pub struct IncomingEvent {
    pub event: OtkEvent,
    pub traceparent: Option<String>,
}

/// The envelopes of a queue, as models.
pub open spec fn queue(v: Seq<OtkEnvelope>) -> Seq<Tree> {
    Seq::new(v.len(), |i: int| v[i].tree())
}

/// The outcomes before the first error, as models of envelopes.
pub open spec fn good_outcomes(os: Seq<stream::FrameOutcome>) -> Seq<Tree>
    decreases os.len(),
{
    if os.len() == 0 {
        seq![]
    } else {
        match os[0] {
            Err(_) => seq![],
            Ok(t) => seq![t] + good_outcomes(os.skip(1)),
        }
    }
}

/// The first error among outcomes.
pub open spec fn first_fault(os: Seq<stream::FrameOutcome>) -> Option<FrameError>
    decreases os.len(),
{
    if os.len() == 0 {
        None
    } else {
        match os[0] {
            Err(e) => Some(e),
            Ok(_) => first_fault(os.skip(1)),
        }
    }
}

/// Puts the envelopes before the first error into the queue, and gives the
/// error. What comes behind the error is lost.
fn enqueue(pending: &mut VecDeque<OtkEnvelope>, results: Vec<Result<OtkEnvelope, FrameError>>) -> (r:
    Option<FrameError>)
    ensures
        queue(final(pending)@) == queue(old(pending)@) + good_outcomes(
            stream::outcomes(results@),
        ),
        r == first_fault(stream::outcomes(results@)),
{
    let ghost os = stream::outcomes(results@);
    let mut rest = results;
    let mut reversed: Vec<Result<OtkEnvelope, FrameError>> = Vec::new();
    let ghost all = rest@;
    while rest.len() > 0
        invariant
            rest@.len() + reversed@.len() == all.len(),
            rest@ == all.take(rest@.len() as int),
            forall|i: int|
                0 <= i < reversed@.len() ==> #[trigger] reversed@[i] == all[all.len() - 1 - i],
        decreases rest@.len(),
    {
        if let Some(result) = rest.pop() {
            reversed.push(result);
            assert(rest@ =~= all.take(rest@.len() as int));
        }
    }
    let ghost mut k: int = 0;
    assert(os.skip(0) =~= os);
    assert(queue(pending@) + good_outcomes(os.skip(0)) =~= queue(old(pending)@) + good_outcomes(
        os,
    ));
    while reversed.len() > 0
        invariant
            0 <= k,
            k + reversed@.len() == all.len(),
            all == results@,
            os == stream::outcomes(all),
            forall|i: int|
                0 <= i < reversed@.len() ==> #[trigger] reversed@[i] == all[all.len() - 1 - i],
            queue(pending@) + good_outcomes(os.skip(k)) == queue(old(pending)@) + good_outcomes(os),
            first_fault(os.skip(k)) == first_fault(os),
        decreases reversed@.len(),
    {
        if let Some(result) = reversed.pop() {
            proof {
                assert(result == all[k]);
                assert(os.skip(k)[0] == stream::outcome(result));
                assert(os.skip(k).skip(1) =~= os.skip(k + 1));
            }
            match result {
                Err(e) => {
                    assert(queue(pending@) + good_outcomes(os.skip(k)) =~= queue(pending@));
                    return Some(e);
                },
                Ok(envelope) => {
                    let ghost before = pending@;
                    let ghost t = envelope.tree();
                    pending.push_back(envelope);
                    proof {
                        assert(queue(pending@) =~= queue(before).push(t));
                        assert(queue(before).push(t) + good_outcomes(os.skip(k + 1)) =~= queue(
                            before,
                        ) + (seq![t] + good_outcomes(os.skip(k + 1))));
                        k = k + 1;
                    }
                },
            }
        }
    }
    assert(os.skip(k) =~= seq![]);
    assert(queue(pending@) + good_outcomes(os.skip(k)) =~= queue(pending@));
    None
}

/// What is to be done in a handshake.
pub enum ConnectStep {
    /// Read on.
    ReadMore(ConnectPhase),
    /// Send the frame; the session is open.
    Accepted { frame: Vec<u8>, session: Session },
    /// Send the notice, if there is one, and close: the producer was turned
    /// away.
    Rejected { notice: Option<Vec<u8>>, error: IngestError },
    /// Close.
    Failed(IngestError),
}

/// A session before its handshake.
pub struct ConnectPhase {
    decoder: StreamFrameDecoder,
    max_frame_size: usize,
}

/// An open session.
pub struct Session {
    decoder: StreamFrameDecoder,
    processor: PostHandshakeProcessor,
    pending: VecDeque<OtkEnvelope>,
}

/// An open session, as a model.
pub struct SessionModel {
    /// The decoder of the transport's bytes.
    pub decoder: stream::StreamDecoderModel,
    /// Who shook hands.
    pub producer: Seq<char>,
    /// The negotiated protocol version.
    pub version: u8,
    /// The messages that have come in and were not looked at.
    pub pending: Seq<OtkEnvelope>,
}

impl View for Session {
    type V = SessionModel;

    closed spec fn view(&self) -> SessionModel {
        SessionModel {
            decoder: self.decoder@,
            producer: self.processor.producer(),
            version: self.processor.version(),
            pending: self.pending@,
        }
    }
}

/// What a handshake does next, as a model.
pub enum ConnectPlan {
    ReadMore(stream::StreamDecoderModel),
    Accepted {
        frame: Seq<u8>,
        decoder: stream::StreamDecoderModel,
        producer: Seq<char>,
        version: u8,
        pending: Seq<Tree>,
    },
    Rejected { notice: Option<Seq<u8>>, error: Trouble },
    Failed(Trouble),
}

/// The model of a step of the handshake.
pub open spec fn plan_of(r: ConnectStep) -> ConnectPlan {
    match r {
        ConnectStep::ReadMore(phase) => ConnectPlan::ReadMore(phase.model()),
        ConnectStep::Accepted { frame, session } => ConnectPlan::Accepted {
            frame: frame@,
            decoder: session@.decoder,
            producer: session@.producer,
            version: session@.version,
            pending: queue(session@.pending),
        },
        ConnectStep::Rejected { notice, error } => ConnectPlan::Rejected {
            notice: match notice {
                Some(f) => Some(f@),
                None => None,
            },
            error: error@,
        },
        ConnectStep::Failed(e) => ConnectPlan::Failed(e@),
    }
}

/// A stream frame with a limit of `max`, or the error.
pub open spec fn reply_frame(t: Tree, max: int) -> Result<Seq<u8>, FrameError> {
    let payload = codec::encoding(t);
    let limit = if max < u32::MAX {
        max
    } else {
        u32::MAX as int
    };
    if payload.len() <= limit {
        Ok(stream::stream_frame(t))
    } else {
        Err(FrameError::OversizeFrame { len: Some(payload.len() as usize), max: limit as usize })
    }
}

/// What follows from the end of a handshake.
pub open spec fn greeting_plan(
    greeting: handshake::Greeting,
    decoder: stream::StreamDecoderModel,
    pending: Seq<Tree>,
) -> ConnectPlan {
    match greeting {
        handshake::Greeting::Failed(e) => ConnectPlan::Failed(
            Trouble::Handshake(crate::ingest::error::handshake_error_text(e)),
        ),
        handshake::Greeting::Accepted { reply, producer, version } => match reply_frame(
            reply,
            decoder.max,
        ) {
            Ok(frame) => ConnectPlan::Accepted { frame, decoder, producer, version, pending },
            Err(e) => ConnectPlan::Failed(Trouble::Decode(error::frame_error_text(e))),
        },
        handshake::Greeting::Rejected { reply, reason } => ConnectPlan::Rejected {
            notice: match reply_frame(reply, decoder.max) {
                Ok(frame) => Some(frame),
                Err(_) => None,
            },
            error: Trouble::Handshake("rejected: "@ + reason.name_text()),
        },
    }
}

impl ConnectPhase {
    /// The decoder's model.
    pub closed spec fn model(&self) -> stream::StreamDecoderModel {
        self.decoder@
    }

    /// The decoder is in order, and its limit is the session's.
    pub closed spec fn wf(&self) -> bool {
        self.decoder.wf() && self.decoder@.max == self.max_frame_size
    }

    /// A session in which nothing has come in.
    pub fn new(max_frame_bytes: u32) -> (r: Self)
        ensures
            r.wf(),
            r.model() == (stream::StreamDecoderModel {
                max: max_frame_bytes as int,
                skip: 0,
                rest: seq![],
            }),
    {
        let max_frame_size: usize = max_frame_bytes as usize;
        Self { decoder: StreamFrameDecoder::new(max_frame_size), max_frame_size }
    }

    /// Takes in what was read and says what to do.
    ///
    /// The first message of the read is the request; the rest wait in the
    /// session. A faulty frame anywhere in the read ends the handshake.
    pub fn feed<A: ConnectAuthoriser>(self, bytes: &[u8], authoriser: &A) -> (r: ConnectStep)
        requires
            self.wf(),
        ensures
            match r {
                ConnectStep::ReadMore(phase) => phase.wf(),
                ConnectStep::Accepted { session, .. } => session.wf(),
                _ => true,
            },
            ({
                let m = self.model();
                let state = stream::stream_state(m.max, m.skip, m.rest + bytes@);
                let after = stream::StreamDecoderModel {
                    max: m.max,
                    skip: state.skip,
                    rest: state.rest,
                };
                if bytes@.len() == 0 {
                    plan_of(r) == ConnectPlan::Failed(
                        if m.rest.len() > 0 || m.skip > 0 {
                            Trouble::Decode(
                                "truncated Connect frame: EOF mid-frame during handshake"@,
                            )
                        } else {
                            Trouble::Handshake("EOF before Connect"@)
                        },
                    )
                } else if first_fault(state.results) is Some {
                    plan_of(r) == ConnectPlan::Failed(
                        Trouble::Decode(
                            error::frame_error_text(first_fault(state.results)->Some_0),
                        ),
                    )
                } else if state.results.len() == 0 {
                    plan_of(r) == ConnectPlan::ReadMore(after)
                } else {
                    exists|e: OtkEnvelope, decision: Result<(), ConnectRejectReason>|
                        {
                            &&& e.tree() == good_outcomes(state.results)[0]
                            &&& plan_of(r) == greeting_plan(
                                #[trigger] handshake::greeting(e, PROTOCOL_VERSION, decision),
                                after,
                                good_outcomes(state.results).skip(1),
                            )
                            &&& handshake::is_asked(e, PROTOCOL_VERSION) ==> handshake::decided_by(
                                authoriser,
                                e,
                                decision,
                            )
                        }
                }
            }),
    {
        let mut decoder = self.decoder;
        if bytes.len() == 0 {
            return ConnectStep::Failed(
                if decoder.has_pending() {
                    IngestError::Decode(
                        "truncated Connect frame: EOF mid-frame during handshake".to_owned(),
                    )
                } else {
                    IngestError::Handshake("EOF before Connect".to_owned())
                },
            );
        }
        let results = decoder.push(bytes);
        let mut pending: VecDeque<OtkEnvelope> = VecDeque::new();
        let ghost os = stream::outcomes(results@);
        proof {
            lemma_no_fault(os);
        }
        assert(queue(pending@) =~= seq![]);
        let fault = enqueue(&mut pending, results);
        assert(queue(pending@) =~= good_outcomes(os));
        if let Some(e) = fault {
            return ConnectStep::Failed(IngestError::Decode(e.message()));
        }
        let ghost all = pending@;
        let first = match pending.pop_front() {
            None => {
                return ConnectStep::ReadMore(
                    ConnectPhase { decoder, max_frame_size: self.max_frame_size },
                );
            },
            Some(first) => first,
        };
        proof {
            assert(first == all[0]);
            assert(first.tree() == queue(all)[0]);
            assert(queue(pending@) =~= queue(all).skip(1));
        }
        let ghost e = first;
        let outcome = perform_server_handshake_with_auth(first, authoriser);
        let ghost decision = choose|decision: Result<(), ConnectRejectReason>|
            {
                &&& handshake::greeting_of(outcome) == #[trigger] handshake::greeting(
                    e,
                    PROTOCOL_VERSION,
                    decision,
                )
                &&& handshake::is_asked(e, PROTOCOL_VERSION) ==> handshake::decided_by(
                    authoriser,
                    e,
                    decision,
                )
            };
        match outcome {
            Err(e) => ConnectStep::Failed(IngestError::Handshake(e.message())),
            Ok(HandshakeOutcome::Accepted { reply, processor }) => {
                match encode_stream(&reply, self.max_frame_size) {
                    Ok(frame) => ConnectStep::Accepted {
                        frame,
                        session: Session { decoder, processor, pending },
                    },
                    Err(e) => ConnectStep::Failed(IngestError::Decode(e.message())),
                }
            },
            Ok(HandshakeOutcome::Rejected { reply, reason }) => {
                let notice = match encode_stream(&reply, self.max_frame_size) {
                    Ok(frame) => Some(frame),
                    Err(_) => None,
                };
                ConnectStep::Rejected {
                    notice,
                    error: IngestError::Handshake("rejected: ".to_owned().concat(reason.name())),
                }
            },
        }
    }
}

/// Where there is no error, every outcome is an envelope.
proof fn lemma_no_fault(os: Seq<stream::FrameOutcome>)
    ensures
        first_fault(os) is None ==> good_outcomes(os).len() == os.len(),
        good_outcomes(os).len() <= os.len(),
    decreases os.len(),
{
    if os.len() > 0 {
        lemma_no_fault(os.skip(1));
    }
}

/// What is to be done in an open session.
pub enum SessionStep {
    /// Hand the event on.
    Deliver(IncomingEvent),
    /// Read on.
    ReadMore,
    /// The producer took its leave: close.
    Closed,
    /// Report the error.
    Failed(IngestError),
}

/// What is to be done in an open session, as a model.
pub enum SessionPlan {
    Deliver(Tree, Option<Seq<char>>),
    ReadMore,
    Closed,
    Failed(Trouble),
}

/// The model of a step of a session.
pub open spec fn session_plan_of(r: SessionStep) -> SessionPlan {
    match r {
        SessionStep::Deliver(incoming) => SessionPlan::Deliver(
            incoming.event.tree(),
            match incoming.traceparent {
                Some(s) => Some(s@),
                None => None,
            },
        ),
        SessionStep::ReadMore => SessionPlan::ReadMore,
        SessionStep::Closed => SessionPlan::Closed,
        SessionStep::Failed(e) => SessionPlan::Failed(e@),
    }
}

/// What the waiting messages come to: the next step, and how many messages it
/// takes. Heartbeats are passed over.
pub open spec fn next_plan(
    pending: Seq<OtkEnvelope>,
    producer: Seq<char>,
    version: u8,
) -> (SessionPlan, int)
    decreases pending.len(),
{
    if pending.len() == 0 {
        (SessionPlan::ReadMore, 0)
    } else {
        match processor::inbound(pending[0], producer, version) {
            processor::Inbound::Event(event, traceparent) => (
                SessionPlan::Deliver(event, traceparent),
                1,
            ),
            processor::Inbound::Disconnect => (SessionPlan::Closed, 1),
            processor::Inbound::Refused(refusal) => (
                SessionPlan::Failed(Trouble::Decode(crate::ingest::error::refusal_text(refusal))),
                1,
            ),
            processor::Inbound::Heartbeat => {
                let (plan, n) = next_plan(pending.skip(1), producer, version);
                (plan, n + 1)
            },
        }
    }
}

impl Session {
    /// The decoder is in order.
    pub closed spec fn wf(&self) -> bool {
        self.decoder.wf()
    }

    /// Who shook hands.
    pub fn producer_id(&self) -> (r: &str)
        ensures
            r@ == self@.producer,
    {
        self.processor.producer_id().as_str()
    }

    /// Looks at the waiting messages and says what to do.
    pub fn next_event(&mut self) -> (r: SessionStep)
        requires
            old(self).wf(),
        ensures
            final(self).wf(),
            ({
                let m = old(self)@;
                let (plan, n) = next_plan(m.pending, m.producer, m.version);
                &&& session_plan_of(r) == plan
                &&& final(self)@ == (SessionModel { pending: m.pending.skip(n), ..m })
            }),
    {
        let ghost m = self@;
        let ghost mut taken: int = 0;
        assert(m.pending.skip(0) =~= m.pending);
        loop
            invariant
                self.wf(),
                m == old(self)@,
                0 <= taken <= m.pending.len(),
                self@ == (SessionModel { pending: m.pending.skip(taken), ..m }),
                ({
                    let (plan, n) = next_plan(m.pending, m.producer, m.version);
                    let (plan_here, n_here) = next_plan(
                        m.pending.skip(taken),
                        m.producer,
                        m.version,
                    );
                    plan == plan_here && n == taken + n_here
                }),
            decreases m.pending.len() - taken,
        {
            let envelope = match self.pending.pop_front() {
                None => {
                    return SessionStep::ReadMore;
                },
                Some(envelope) => envelope,
            };
            proof {
                let here = m.pending.skip(taken);
                assert(envelope == here[0]);
                assert(here.skip(1) =~= m.pending.skip(taken + 1));
                assert(self.pending@ =~= m.pending.skip(taken + 1));
                taken = taken + 1;
            }
            match self.processor.process(envelope) {
                Ok(InboundAction::Event { event, traceparent }) => {
                    return SessionStep::Deliver(IncomingEvent { event, traceparent });
                },
                Ok(InboundAction::Heartbeat) => {},
                Ok(InboundAction::Disconnect) => {
                    return SessionStep::Closed;
                },
                Err(e) => {
                    return SessionStep::Failed(IngestError::Decode(e.message()));
                },
            }
        }
    }

    /// Takes in what was read. Gives whether the transport goes on, or why the
    /// read is faulty; the messages before the fault are kept.
    pub fn feed(&mut self, bytes: &[u8]) -> (r: Result<bool, IngestError>)
        requires
            old(self).wf(),
        ensures
            final(self).wf(),
            final(self)@.producer == old(self)@.producer,
            final(self)@.version == old(self)@.version,
            final(self)@.decoder.max == old(self)@.decoder.max,
            ({
                let m = old(self)@.decoder;
                let state = stream::stream_state(m.max, m.skip, m.rest + bytes@);
                if bytes@.len() == 0 {
                    &&& final(self)@ == old(self)@
                    &&& match r {
                        Ok(goes_on) => !goes_on && m.rest.len() == 0 && m.skip <= 0,
                        Err(e) => (m.rest.len() > 0 || m.skip > 0) && e@ == Trouble::Decode(
                            "truncated frame: EOF before frame completed"@,
                        ),
                    }
                } else {
                    &&& final(self)@.decoder.skip == state.skip
                    &&& final(self)@.decoder.rest == state.rest
                    &&& queue(final(self)@.pending) == queue(old(self)@.pending) + good_outcomes(
                        state.results,
                    )
                    &&& match r {
                        Ok(goes_on) => goes_on && first_fault(state.results) is None,
                        Err(e) => first_fault(state.results) matches Some(fault) && e@
                            == Trouble::Decode(error::frame_error_text(fault)),
                    }
                }
            }),
    {
        if bytes.len() == 0 {
            return if self.decoder.has_pending() {
                Err(IngestError::Decode("truncated frame: EOF before frame completed".to_owned()))
            } else {
                Ok(false)
            };
        }
        let results = self.decoder.push(bytes);
        match enqueue(&mut self.pending, results) {
            Some(e) => Err(IngestError::Decode(e.message())),
            None => Ok(true),
        }
    }
}

/// Messages that look the same on the wire are treated the same.
pub proof fn lemma_same_message(a: OtkEnvelope, b: OtkEnvelope, producer: Seq<char>, version: u8)
    requires
        a.tree() == b.tree(),
    ensures
        processor::inbound(a, producer, version) == processor::inbound(b, producer, version),
{
    let x = a.tree()->Record_0;
    let y = b.tree()->Record_0;
    assert(x[0] == y[0] && x[1] == y[1] && x[2] == y[2] && x[6] == y[6] && x[7] == y[7]);
    assert(a.message_type.number() == b.message_type.number());
    assert(a.payload.tree() == b.payload.tree());
    assert(a.traceparent.tree() == b.traceparent.tree());
}

/// What a producer sends is what is handed on: the frame of an event that a
/// producer sends in its own name and in the negotiated version, taken in by a
/// session in which nothing waits, is no fault, leaves nothing behind, and comes
/// out as that event.
pub proof fn law_event_gets_through(
    e: OtkEnvelope,
    event: OtkEvent,
    max: int,
    producer: Seq<char>,
    version: u8,
    pending: Seq<OtkEnvelope>,
)
    requires
        e.protocol_version == version,
        e.source_id@ == producer,
        e.message_type == MessageType::Event,
        e.payload matches Some(payload) && payload@ == codec::encoding(event.tree()),
        codec::fits(event.tree()),
        codec::fits(e.tree()),
        codec::encoding(e.tree()).len() <= max,
        codec::encoding(e.tree()).len() <= u32::MAX,
        queue(pending) == good_outcomes(
            stream::stream_state(max, 0, stream::stream_frame(e.tree())).results,
        ),
    ensures
        ({
            let state = stream::stream_state(max, 0, stream::stream_frame(e.tree()));
            &&& first_fault(state.results) is None
            &&& state.skip == 0
            &&& state.rest.len() == 0
            &&& next_plan(pending, producer, version) == (
                SessionPlan::Deliver(event.tree(), processor::trusted_traceparent(e)),
                1int,
            )
        }),
{
    let t = e.tree();
    let frame = stream::stream_frame(t);
    crate::wire::law_decode_of_to_vec(&e);
    crate::wire::law_decode_of_to_vec(&event);
    reveal(stream::payload_outcome);
    stream::lemma_frame_reads_back(t, max, seq![]);
    assert(frame + seq![] =~= frame);
    let results = stream::stream_state(max, 0, frame).results;
    assert(results =~= seq![Ok::<Tree, FrameError>(t)]);
    assert(results.skip(1) =~= seq![]);
    reveal_with_fuel(first_fault, 2);
    reveal_with_fuel(good_outcomes, 2);
    assert(queue(pending) =~= seq![t]);
    assert(pending[0].tree() == queue(pending)[0]);
    lemma_same_message(pending[0], e, producer, version);
}

} // verus!
