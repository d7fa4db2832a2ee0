//! Stream frames: a length of four bytes, most significant first, and that
//! many bytes of payload. The transport guards against corruption.

use vstd::prelude::*;

use crate::cbor;
use crate::codec;
use crate::codec::Tree;
use crate::frame::error::FrameError;
use crate::protocol::envelope::OtkEnvelope;
use crate::schema::Kind;
use crate::wire;
use crate::wire::Wire;

verus! {

/// What comes out of a decoder for one frame, as a model.
pub type FrameOutcome = Result<Tree, FrameError>;

/// The model of one result.
pub open spec fn outcome(r: Result<OtkEnvelope, FrameError>) -> FrameOutcome {
    match r {
        Ok(envelope) => Ok(envelope.tree()),
        Err(e) => Err(e),
    }
}

/// The models of results.
pub open spec fn outcomes(rs: Seq<Result<OtkEnvelope, FrameError>>) -> Seq<FrameOutcome> {
    Seq::new(rs.len(), |i: int| outcome(rs[i]))
}

/// What a payload means.
#[verifier::opaque]
pub open spec fn payload_outcome(payload: Seq<u8>) -> FrameOutcome {
    match codec::parse(Kind::Envelope, payload, 0) {
        Ok((t, _)) => Ok(t),
        Err(e) => Err(FrameError::DecodeFailed(e)),
    }
}

/// What a stream of bytes comes to: the results of the frames that are
/// complete, how many bytes of an oversize frame are still to be passed over,
/// and the bytes of a frame that is not complete.
pub struct StreamState {
    pub results: Seq<FrameOutcome>,
    pub skip: int,
    pub rest: Seq<u8>,
}

/// What the bytes `s` come to, with `skip` bytes of an oversize frame still to
/// be passed over.
pub open spec fn stream_state(max: int, skip: int, s: Seq<u8>) -> StreamState
    decreases s.len(),
{
    if skip > 0 {
        if s.len() < skip {
            StreamState { results: seq![], skip: skip - s.len(), rest: seq![] }
        } else {
            stream_state(max, 0, s.skip(skip))
        }
    } else if s.len() < 4 {
        StreamState { results: seq![], skip: 0, rest: s }
    } else {
        let len = cbor::be4_at(s, 0);
        if len > max {
            let after = stream_state(max, len, s.skip(4));
            let error = FrameError::OversizeFrame { len: Some(len as usize), max: max as usize };
            StreamState { results: seq![Err::<Tree, FrameError>(error)] + after.results, ..after }
        } else if s.len() < 4 + len {
            StreamState { results: seq![], skip: 0, rest: s }
        } else {
            let after = stream_state(max, 0, s.skip(4 + len));
            StreamState {
                results: seq![payload_outcome(s.subrange(4, 4 + len))] + after.results,
                ..after
            }
        }
    }
}

/// What an envelope's stream frame holds.
pub open spec fn stream_frame(t: Tree) -> Seq<u8> {
    cbor::be4(codec::encoding(t).len() as int) + codec::encoding(t)
}

/// A decoder's model.
pub struct StreamDecoderModel {
    /// The largest payload that is accepted.
    pub max: int,
    /// How many bytes of an oversize frame are still to be passed over.
    pub skip: int,
    /// The bytes of a frame that is not complete.
    pub rest: Seq<u8>,
}

/// Decodes stream frames as their bytes come in.
///
/// A frame that is too large is reported once and passed over by its declared
/// length, so the stream stays usable. Where that length is far beyond the
/// maximum, the length itself is probably corrupt, and the stream had better
/// be closed.
pub struct StreamFrameDecoder {
    buf: Vec<u8>,
    max_frame_size: usize,
    skip_bytes: u64,
}

impl View for StreamFrameDecoder {
    type V = StreamDecoderModel;

    closed spec fn view(&self) -> StreamDecoderModel {
        StreamDecoderModel {
            max: self.max_frame_size as int,
            skip: self.skip_bytes as int,
            rest: self.buf@,
        }
    }
}

impl StreamFrameDecoder {
    /// While bytes are passed over, none are kept.
    pub closed spec fn wf(&self) -> bool {
        self.skip_bytes > 0 ==> self.buf@.len() == 0
    }

    /// A decoder for payloads up to the given length.
    pub fn new(max_frame_size: usize) -> (r: Self)
        ensures
            r.wf(),
            r@ == (StreamDecoderModel { max: max_frame_size as int, skip: 0, rest: seq![] }),
    {
        Self { buf: Vec::new(), max_frame_size, skip_bytes: 0 }
    }

    /// Whether the bytes so far end in the middle of a frame.
    pub fn has_pending(&self) -> (r: bool)
        ensures
            r == (self@.rest.len() > 0 || self@.skip > 0),
    {
        self.buf.len() > 0 || self.skip_bytes > 0
    }

    /// Takes in bytes and gives the results of the frames that they complete.
    pub fn push(&mut self, bytes: &[u8]) -> (r: Vec<Result<OtkEnvelope, FrameError>>)
        requires
            old(self).wf(),
        ensures
            final(self).wf(),
            final(self)@.max == old(self)@.max,
            ({
                let state = stream_state(
                    old(self)@.max,
                    old(self)@.skip,
                    old(self)@.rest + bytes@,
                );
                &&& outcomes(r@) == state.results
                &&& final(self)@.skip == state.skip
                &&& final(self)@.rest == state.rest
            }),
    {
        let ghost max = self.max_frame_size as int;
        let ghost all = self.buf@ + bytes@;
        let ghost whole = stream_state(max, self.skip_bytes as int, all);
        if self.skip_bytes > 0 {
            assert(all =~= bytes@);
            if (bytes.len() as u64) < self.skip_bytes {
                self.skip_bytes = self.skip_bytes - bytes.len() as u64;
                let r: Vec<Result<OtkEnvelope, FrameError>> = Vec::new();
                assert(outcomes(r@) =~= whole.results);
                assert(self.buf@ =~= whole.rest);
                return r;
            }
            let skip: usize = self.skip_bytes as usize;
            self.skip_bytes = 0;
            let kept = vstd::slice::slice_subrange(bytes, skip, bytes.len());
            self.buf.extend_from_slice(kept);
            assert(self.buf@ =~= all.skip(skip as int));
        } else {
            self.buf.extend_from_slice(bytes);
            assert(self.buf@ =~= all);
        }
        let ghost s = self.buf@;
        assert(whole == stream_state(max, 0, s));
        let mut r: Vec<Result<OtkEnvelope, FrameError>> = Vec::new();
        let mut pos: usize = 0;
        assert(s.skip(0) =~= s);
        assert(outcomes(r@) + whole.results =~= whole.results);
        loop
            invariant
                self.buf@ == s,
                self.max_frame_size == max,
                pos <= s.len(),
                whole == (StreamState {
                    results: outcomes(r@) + stream_state(
                        max,
                        self.skip_bytes as int,
                        s.skip(pos as int),
                    ).results,
                    ..stream_state(max, self.skip_bytes as int, s.skip(pos as int))
                }),
            ensures
                self.buf@ == s,
                self.max_frame_size == max,
                pos <= s.len(),
                outcomes(r@) == whole.results,
                self.skip_bytes == whole.skip,
                s.skip(pos as int) == whole.rest,
                self.skip_bytes > 0 ==> pos == s.len(),
            decreases s.len() - pos, self.skip_bytes,
        {
            let ghost here = s.skip(pos as int);
            let ghost from_here = stream_state(max, self.skip_bytes as int, here);
            let available: usize = self.buf.len() - pos;
            if self.skip_bytes > 0 {
                if (available as u64) < self.skip_bytes {
                    self.skip_bytes = self.skip_bytes - available as u64;
                    pos = self.buf.len();
                    assert(s.skip(pos as int) =~= seq![]);
                    assert(outcomes(r@) + from_here.results =~= outcomes(r@));
                    break ;
                }
                let skip: usize = self.skip_bytes as usize;
                pos = pos + skip;
                self.skip_bytes = 0;
                assert(s.skip(pos as int) =~= here.skip(skip as int));
                continue ;
            }
            if available < 4 {
                assert(outcomes(r@) + from_here.results =~= outcomes(r@));
                break ;
            }
            let len: u32 = read_length(&self.buf, pos);
            assert(len == cbor::be4_at(here, 0)) by {
                assert(here[0] == s[pos as int] && here[1] == s[pos + 1] && here[2] == s[pos + 2]
                    && here[3] == s[pos + 3]);
            }
            let ghost before = r@;
            if len as u64 > self.max_frame_size as u64 {
                let error = FrameError::OversizeFrame {
                    len: Some(len as usize),
                    max: self.max_frame_size,
                };
                r.push(Err(error));
                pos = pos + 4;
                self.skip_bytes = len as u64;
                assert(s.skip(pos as int) =~= here.skip(4));
                assert(outcomes(r@) =~= outcomes(before).push(Err(error)));
                assert(outcomes(r@) + stream_state(max, len as int, here.skip(4)).results
                    =~= outcomes(before) + from_here.results);
                continue ;
            }
            let n: usize = len as usize;
            if available - 4 < n {
                assert(outcomes(r@) + from_here.results =~= outcomes(r@));
                break ;
            }
            let payload = vstd::slice::slice_subrange(self.buf.as_slice(), pos + 4, pos + 4 + n);
            assert(payload@ =~= here.subrange(4, 4 + n));
            let result = decode_payload(payload);
            r.push(result);
            pos = pos + 4 + n;
            assert(s.skip(pos as int) =~= here.skip(4 + n));
            assert(outcomes(r@) =~= outcomes(before).push(outcome(result)));
            assert(outcomes(r@) + stream_state(max, 0, here.skip(4 + n)).results
                =~= outcomes(before) + from_here.results);
        }
        if pos > 0 {
            let mut kept: Vec<u8> = Vec::new();
            kept.extend_from_slice(
                vstd::slice::slice_subrange(self.buf.as_slice(), pos, self.buf.len()),
            );
            assert(kept@ =~= s.skip(pos as int));
            self.buf = kept;
        } else {
            assert(s.skip(0) =~= s);
        }
        r
    }
}

/// What a payload means.
pub(crate) fn decode_payload(payload: &[u8]) -> (r: Result<OtkEnvelope, FrameError>)
    ensures
        outcome(r) == payload_outcome(payload@),
{
    reveal(payload_outcome);
    match wire::decode::<OtkEnvelope>(payload) {
        Ok(envelope) => Ok(envelope),
        Err(e) => Err(FrameError::DecodeFailed(e)),
    }
}

/// The number that four bytes spell, most significant first.
fn read_length(buf: &Vec<u8>, pos: usize) -> (r: u32)
    requires
        pos + 4 <= buf@.len(),
    ensures
        r == cbor::be4_at(buf@, pos as int),
{
    assert(buf.len() == buf@.len());
    let high: u32 = buf[pos] as u32 * 256 + buf[pos + 1] as u32;
    let low: u32 = buf[pos + 2] as u32 * 256 + buf[pos + 3] as u32;
    high * 0x1_0000 + low
}

/// The stream frame of an envelope. A decoder with the same limit reads it as
/// that one envelope, whatever follows.
#[verifier::spinoff_prover]
#[verifier::rlimit(40)]
pub fn encode_stream(envelope: &OtkEnvelope, max_frame_size: usize) -> (r: Result<
    Vec<u8>,
    FrameError,
>)
    ensures
        ({
            let payload = codec::encoding(envelope.tree());
            let max = if max_frame_size < u32::MAX {
                max_frame_size as int
            } else {
                u32::MAX as int
            };
            match r {
                Ok(frame) => payload.len() <= max && frame@ == stream_frame(envelope.tree())
                    && forall|rest: Seq<u8>|
                    {
                        let after = stream_state(max_frame_size as int, 0, rest);
                        #[trigger] stream_state(max_frame_size as int, 0, frame@ + rest) == (
                        StreamState {
                            results: seq![Ok::<Tree, FrameError>(envelope.tree())] + after.results,
                            ..after
                        })
                    },
                Err(e) => payload.len() > max && e == (FrameError::OversizeFrame {
                    len: Some(payload.len() as usize),
                    max: max as usize,
                }),
            }
        }),
{
    let payload = wire::to_vec(envelope);
    let max: usize = if max_frame_size as u64 > u32::MAX as u64 {
        u32::MAX as usize
    } else {
        max_frame_size
    };
    if payload.len() > max {
        return Err(FrameError::OversizeFrame { len: Some(payload.len()), max });
    }
    let n: u32 = payload.len() as u32;
    let mut frame: Vec<u8> = Vec::new();
    frame.push((n / 0x100_0000) as u8);
    frame.push((n / 0x1_0000 % 256) as u8);
    frame.push((n / 256 % 256) as u8);
    frame.push((n % 256) as u8);
    proof {
        assert(frame@ =~= cbor::be4(n as int));
    }
    frame.extend_from_slice(payload.as_slice());
    proof {
        let t = envelope.tree();
        assert(frame@ =~= stream_frame(t));
        assert(payload@ + seq![] =~= payload@);
        reveal(payload_outcome);
        assert forall|rest: Seq<u8>|
            ({
                let after = stream_state(max_frame_size as int, 0, rest);
                #[trigger] stream_state(max_frame_size as int, 0, frame@ + rest) == (StreamState {
                    results: seq![Ok::<Tree, FrameError>(t)] + after.results,
                    ..after
                })
            }) by {
            lemma_frame_reads_back(t, max_frame_size as int, rest);
        }
    }
    Ok(frame)
}

/// A frame reads as the envelope that it holds, whatever follows.
pub proof fn lemma_frame_reads_back(t: Tree, max: int, rest: Seq<u8>)
    requires
        codec::encoding(t).len() <= max,
        codec::encoding(t).len() <= u32::MAX,
        payload_outcome(codec::encoding(t)) == Ok::<Tree, FrameError>(t),
    ensures
        ({
            let after = stream_state(max, 0, rest);
            stream_state(max, 0, stream_frame(t) + rest) == (StreamState {
                results: seq![Ok::<Tree, FrameError>(t)] + after.results,
                ..after
            })
        }),
{
    let payload = codec::encoding(t);
    let n = payload.len() as int;
    let s = stream_frame(t) + rest;
    let head = cbor::be4(n);
    assert(s[0] == head[0] && s[1] == head[1] && s[2] == head[2] && s[3] == head[3]);
    assert(cbor::be4_at(s, 0) == n);
    assert(s.subrange(4, 4 + n) =~= payload);
    assert(s.skip(4 + n) =~= rest);
}

/// How the bytes of a stream are cut into pieces makes no difference: taking
/// in `a` and then `b` gives the same results, and leaves the decoder in the
/// same state, as taking in both at once.
pub proof fn law_stream_pieces(max: int, skip: int, a: Seq<u8>, b: Seq<u8>)
    ensures
        ({
            let first = stream_state(max, skip, a);
            let second = stream_state(max, first.skip, first.rest + b);
            stream_state(max, skip, a + b) == (StreamState {
                results: first.results + second.results,
                ..second
            })
        }),
    decreases a.len(),
{
    let first = stream_state(max, skip, a);
    let second = stream_state(max, first.skip, first.rest + b);
    let both = a + b;
    if skip > 0 {
        if a.len() < skip {
            assert(first.rest + b =~= b);
            assert(first.results + second.results =~= second.results);
            if both.len() >= skip {
                assert(both.skip(skip) =~= b.skip(skip - a.len()));
            }
        } else {
            assert(both.skip(skip) =~= a.skip(skip) + b);
            law_stream_pieces(max, 0, a.skip(skip), b);
        }
    } else if a.len() < 4 {
        assert(first.results + second.results =~= second.results);
    } else {
        let len = cbor::be4_at(a, 0);
        assert(both[0] == a[0] && both[1] == a[1] && both[2] == a[2] && both[3] == a[3]);
        assert(cbor::be4_at(both, 0) == len);
        if len > max {
            assert(both.skip(4) =~= a.skip(4) + b);
            law_stream_pieces(max, len, a.skip(4), b);
            let after = stream_state(max, len, a.skip(4));
            let error = Err::<Tree, FrameError>(
                FrameError::OversizeFrame { len: Some(len as usize), max: max as usize },
            );
            assert(seq![error] + (after.results + second.results) =~= (seq![error] + after.results)
                + second.results);
        } else if a.len() < 4 + len {
            assert(first.results + second.results =~= second.results);
        } else {
            assert(both.skip(4 + len) =~= a.skip(4 + len) + b);
            assert(both.subrange(4, 4 + len) =~= a.subrange(4, 4 + len));
            law_stream_pieces(max, 0, a.skip(4 + len), b);
            let after = stream_state(max, 0, a.skip(4 + len));
            let this = payload_outcome(a.subrange(4, 4 + len));
            assert(seq![this] + (after.results + second.results) =~= (seq![this] + after.results)
                + second.results);
        }
    }
}

/// An oversize frame costs one error and nothing else: behind its declared
/// length the stream goes on as if the frame had not been there.
pub proof fn law_stream_resyncs(max: int, head: Seq<u8>, payload: Seq<u8>, rest: Seq<u8>)
    requires
        head.len() == 4,
        cbor::be4_at(head, 0) > max,
        payload.len() == cbor::be4_at(head, 0),
    ensures
        ({
            let after = stream_state(max, 0, rest);
            stream_state(max, 0, head + payload + rest) == (StreamState {
                results: seq![
                    Err::<Tree, FrameError>(
                        FrameError::OversizeFrame {
                            len: Some(payload.len() as usize),
                            max: max as usize,
                        },
                    ),
                ] + after.results,
                ..after
            })
        }),
{
    let s = head + payload + rest;
    assert(s[0] == head[0] && s[1] == head[1] && s[2] == head[2] && s[3] == head[3]);
    assert(s.skip(4).skip(payload.len() as int) =~= rest);
    if payload.len() == 0 {
        assert(s.skip(4) =~= rest);
    }
    reveal_with_fuel(stream_state, 3);
}

} // verus!
