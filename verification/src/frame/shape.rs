//! What frames look like on the wire, and what comes out at the other end.

use vstd::prelude::*;

use crate::cbor;
use crate::codec;
use crate::codec::Tree;
use crate::frame::error::FrameError;
use crate::frame::serial;
use crate::frame::serial::{SerialFrameDecoder, SerialState};
use crate::frame::stream;
use crate::frame::stream::StreamFrameDecoder;
use crate::protocol::envelope::OtkEnvelope;
use crate::wire::Wire;

verus! {

/// The number that the first four bytes spell, most significant first.
pub open spec fn length_in(s: Seq<u8>) -> int {
    ((s[0] * 256 + s[1]) * 256 + s[2]) * 256 + s[3]
}

/// Four bytes spell a length.
proof fn lemma_length_in(s: Seq<u8>)
    ensures
        length_in(s) == cbor::be4_at(s, 0),
        0 <= length_in(s) <= 0xffff_ffff,
{
}

/// A stream frame is the length of the payload in four bytes, most significant
/// first, and the payload, which is the envelope's CBOR form. There is none for a
/// payload over the limit, or with a length that four bytes cannot say.
pub proof fn law_stream_frame(
    envelope: OtkEnvelope,
    max_frame_size: usize,
    r: Result<Vec<u8>, FrameError>,
)
    requires
        call_ensures(stream::encode_stream, (&envelope, max_frame_size), r),
    ensures
        ({
            let payload = codec::encoding(envelope.tree());
            match r {
                Ok(frame) => {
                    &&& payload.len() <= max_frame_size
                    &&& payload.len() <= 0xffff_ffff
                    &&& frame@.len() == 4 + payload.len()
                    &&& length_in(frame@) == payload.len()
                    &&& frame@.skip(4) == payload
                },
                Err(e) => {
                    &&& payload.len() > max_frame_size || payload.len() > 0xffff_ffff
                    &&& e matches FrameError::OversizeFrame { len, max } && len == Some(
                        payload.len() as usize,
                    ) && (max_frame_size <= 0xffff_ffff ==> max == max_frame_size)
                },
            }
        }),
{
    if let Ok(frame) = r {
        let payload = codec::encoding(envelope.tree());
        let n = payload.len() as int;
        let head = cbor::be4(n);
        assert(frame@.skip(4) =~= payload);
        assert(frame@[0] == head[0] && frame@[1] == head[1] && frame@[2] == head[2] && frame@[3]
            == head[3]);
        lemma_length_in(frame@);
        assert(cbor::be4_at(frame@, 0) == n);
    }
}

/// What a stream decoder makes of bytes, one frame after the other: too few bytes
/// for a frame are kept; a frame over the limit is one error and is passed over,
/// however much of it is there; any other frame is its envelope, or the reason why
/// it is none; and then it goes on behind the frame.
pub open spec fn stream_goes_on(
    max: int,
    s: Seq<u8>,
    results: Seq<Result<OtkEnvelope, FrameError>>,
    skip: int,
    rest: Seq<u8>,
) -> bool {
    let len = length_in(s);
    if s.len() < 4 || (len <= max && s.len() < 4 + len) {
        results.len() == 0 && skip == 0 && rest == s
    } else {
        &&& results.len() > 0
        &&& if len > max {
            results[0] matches Err(FrameError::OversizeFrame { len: Some(l), max: m }) && l == len
                && m == max
        } else {
            is_read(results[0], s.subrange(4, 4 + len))
        }
        &&& len > max && s.len() < 4 + len ==> results.len() == 1 && rest.len() == 0 && skip == 4
            + len - s.len()
    }
}

/// Whether a result is what [`crate::wire::decode`] makes of a payload.
pub open spec fn is_read(result: Result<OtkEnvelope, FrameError>, payload: Seq<u8>) -> bool {
    match codec::parse(<OtkEnvelope as Wire>::field().kind, payload, 0) {
        Ok((t, _)) => result matches Ok(envelope) && envelope.tree() == t,
        Err(fault) => result == Err::<OtkEnvelope, FrameError>(FrameError::DecodeFailed(fault)),
    }
}

/// What the first frame in the bytes that were pushed comes to. The limit fits in
/// the bytes of a length.
pub proof fn law_stream_decoder(
    decoder: &mut StreamFrameDecoder,
    bytes: &[u8],
    r: Vec<Result<OtkEnvelope, FrameError>>,
)
    requires
        call_ensures(StreamFrameDecoder::push, (decoder, bytes), r),
        old(decoder)@.skip == 0,
        0 <= old(decoder)@.max <= usize::MAX,
    ensures
        stream_goes_on(
            old(decoder)@.max,
            old(decoder)@.rest + bytes@,
            r@,
            final(decoder)@.skip,
            final(decoder)@.rest,
        ),
{
    let max = old(decoder)@.max;
    let s = old(decoder)@.rest + bytes@;
    let state = stream::stream_state(max, 0, s);
    assert(stream::outcomes(r@) == state.results);
    assert(stream::outcomes(r@).len() == r@.len());
    lemma_length_in(s);
    reveal(stream::payload_outcome);
    reveal_with_fuel(stream::stream_state, 2);
    if r@.len() > 0 {
        assert(stream::outcomes(r@)[0] == stream::outcome(r@[0]));
    }
    assert(usize::MAX >= 0xffff_ffff);
}

/// Behind a frame, a stream decoder goes on as if the frame had not been there.
pub proof fn law_stream_decoder_goes_on(
    decoder: &mut StreamFrameDecoder,
    bytes: &[u8],
    r: Vec<Result<OtkEnvelope, FrameError>>,
    other: &mut StreamFrameDecoder,
    later: &[u8],
    later_r: Vec<Result<OtkEnvelope, FrameError>>,
    n: int,
)
    requires
        call_ensures(StreamFrameDecoder::push, (decoder, bytes), r),
        call_ensures(StreamFrameDecoder::push, (other, later), later_r),
        old(decoder)@.skip == 0,
        old(other)@.skip == 0,
        old(decoder)@.max == old(other)@.max,
        n == 4 + length_in(old(decoder)@.rest + bytes@),
        n <= old(decoder)@.rest.len() + bytes@.len(),
        old(decoder)@.rest.len() + bytes@.len() >= 4,
        old(other)@.rest + later@ == (old(decoder)@.rest + bytes@).skip(n),
    ensures
        stream::outcomes(r@).skip(1) == stream::outcomes(later_r@),
        r@.len() == later_r@.len() + 1,
        final(decoder)@.skip == final(other)@.skip,
        final(decoder)@.rest == final(other)@.rest,
{
    let max = old(decoder)@.max;
    let s = old(decoder)@.rest + bytes@;
    lemma_length_in(s);
    assert(stream::outcomes(r@).len() == r@.len());
    assert(stream::outcomes(later_r@).len() == later_r@.len());
    let len = length_in(s);
    if len > max {
        assert(s.skip(4).skip(len) =~= s.skip(n));
        if len == 0 {
            assert(s.skip(4) =~= s.skip(n));
        }
        reveal_with_fuel(stream::stream_state, 3);
    }
    assert(stream::outcomes(r@).skip(1) =~= stream::stream_state(max, 0, s.skip(n)).results);
}

/// The bytes of an oversize frame that come in later are passed over.
pub proof fn law_stream_decoder_passes_over(
    decoder: &mut StreamFrameDecoder,
    bytes: &[u8],
    r: Vec<Result<OtkEnvelope, FrameError>>,
)
    requires
        call_ensures(StreamFrameDecoder::push, (decoder, bytes), r),
        old(decoder)@.skip > bytes@.len(),
        old(decoder)@.rest.len() == 0,
    ensures
        r@.len() == 0,
        final(decoder)@.skip == old(decoder)@.skip - bytes@.len(),
        final(decoder)@.rest.len() == 0,
{
    assert(old(decoder)@.rest + bytes@ =~= bytes@);
    assert(stream::outcomes(r@).len() == r@.len());
}

/// A decoder waits in the middle of a frame if and only if it has bytes of it, or has
/// still some to pass over.
pub proof fn law_pending(
    a: &StreamFrameDecoder,
    in_stream: bool,
    b: &SerialFrameDecoder,
    on_line: bool,
)
    requires
        call_ensures(StreamFrameDecoder::has_pending, (a,), in_stream),
        call_ensures(SerialFrameDecoder::has_pending, (b,), on_line),
    ensures
        in_stream <==> a@.rest.len() > 0 || a@.skip > 0,
        on_line <==> b@.pending.len() > 0 || b@.discarding,
{
}

/// A payload with its checksum: two bytes behind it, most significant first.
pub open spec fn is_checked(s: Seq<u8>, payload: Seq<u8>, crc: u16) -> bool {
    &&& s.len() == payload.len() + 2
    &&& s.take(payload.len() as int) == payload
    &&& s[payload.len() as int] * 256 + s[payload.len() as int + 1] == crc
}

/// A serial frame has one zero byte, at its end; what comes before it decodes to the
/// envelope's CBOR form and its checksum. There is none for a payload over the limit.
pub proof fn law_serial_frame(
    envelope: OtkEnvelope,
    max_frame_size: usize,
    r: Result<Vec<u8>, FrameError>,
    input: &[u8],
    crc: u16,
)
    requires
        call_ensures(serial::encode_serial, (&envelope, max_frame_size), r),
        input@ == codec::encoding(envelope.tree()),
        call_ensures(serial::crc16_ccitt_false, (input,), crc),
    ensures
        ({
            let payload = codec::encoding(envelope.tree());
            match r {
                Ok(frame) => {
                    &&& payload.len() <= max_frame_size
                    &&& frame@.len() > 0
                    &&& forall|i: int|
                        0 <= i < frame@.len() ==> (#[trigger] frame@[i] == 0 <==> i == frame@.len()
                            - 1)
                    &&& serial::cobs_decoding(frame@.drop_last()) matches Some(s) && is_checked(
                        s,
                        payload,
                        crc,
                    )
                },
                Err(e) => payload.len() > max_frame_size && e == (FrameError::OversizeFrame {
                    len: Some(payload.len() as usize),
                    max: max_frame_size,
                }),
            }
        }),
{
    if let Ok(frame) = r {
        let payload = codec::encoding(envelope.tree());
        let s = serial::with_crc(payload);
        assert(s.take(payload.len() as int) =~= payload);
        assert(frame@[frame@.len() - 1] == 0);
    }
}

/// The checksum of a payload with its own checksum behind it is zero, and that of
/// nothing is all ones.
pub proof fn law_checksum(data: &[u8], crc: u16, checked: &[u8], again: u16)
    requires
        call_ensures(serial::crc16_ccitt_false, (data,), crc),
        call_ensures(serial::crc16_ccitt_false, (checked,), again),
    ensures
        data@.len() == 0 ==> crc == 0xffff,
        is_checked(checked@, data@, crc) ==> again == 0,
{
    if is_checked(checked@, data@, crc) {
        let n = data@.len() as int;
        let one = checked@.drop_last();
        let hi = checked@[n];
        let lo = checked@[n + 1];
        assert(one.drop_last() =~= checked@.take(n));
        assert(one.last() == hi);
        assert(checked@.last() == lo);
        let high = hi as u16;
        let low = lo as u16;
        assert(crc ^ (high << 8) == low && low < 256) by (bit_vector)
            requires
                high < 256,
                low < 256,
                high * 256 + low == crc,
        ;
        lemma_eight_shifts(low);
        assert(checked@.take(n) == data@);
        assert(serial::crc16(one) == serial::crc16_shifts(
            serial::crc16(data@) ^ ((hi as u16) << 8),
            8,
        ));
        assert(serial::crc16(one) == low << 8);
        assert(serial::crc16(checked@) == serial::crc16_shifts(
            serial::crc16(one) ^ ((lo as u16) << 8),
            8,
        ));
        assert((low << 8) ^ (low << 8) == 0u16) by (bit_vector);
        lemma_no_shifts(8);
    }
}

/// Eight shifts of a small register.
proof fn lemma_eight_shifts(low: u16)
    requires
        low < 256,
    ensures
        serial::crc16_shifts(low, 8) == low << 8,
{
    reveal_with_fuel(serial::crc16_shifts, 9);
    assert(low & 0x8000 == 0 && (low << 1) & 0x8000 == 0 && (low << 2) & 0x8000 == 0 && (low << 3)
        & 0x8000 == 0 && (low << 4) & 0x8000 == 0 && (low << 5) & 0x8000 == 0 && (low << 6) & 0x8000
        == 0 && (low << 7) & 0x8000 == 0) by (bit_vector)
        requires
            low < 256,
    ;
    assert((low << 1) << 1 == low << 2 && (low << 2) << 1 == low << 3 && (low << 3) << 1 == low << 4
        && (low << 4) << 1 == low << 5 && (low << 5) << 1 == low << 6 && (low << 6) << 1 == low << 7
        && (low << 7) << 1 == low << 8) by (bit_vector);
}

/// A register of zeros stays one.
proof fn lemma_no_shifts(n: nat)
    ensures
        serial::crc16_shifts(0, n) == 0,
    decreases n,
{
    assert(0u16 & 0x8000 == 0 && 0u16 << 1 == 0) by (bit_vector);
    if n > 0 {
        lemma_no_shifts((n - 1) as nat);
    }
}

/// What is on a line already does not change what comes of what follows.
proof fn lemma_results_add_up(max: int, wire_max: int, state: SerialState, s: Seq<u8>)
    ensures
        ({
            let all = serial::serial_state(max, wire_max, state, s);
            let from = serial::serial_state(
                max,
                wire_max,
                SerialState { results: seq![], ..state },
                s,
            );
            &&& all.results == state.results + from.results
            &&& all.pending == from.pending
            &&& all.discarding == from.discarding
        }),
    decreases s.len(),
{
    let all = serial::serial_state(max, wire_max, state, s);
    let from = serial::serial_state(max, wire_max, SerialState { results: seq![], ..state }, s);
    if s.len() > 0 {
        lemma_results_add_up(max, wire_max, state, s.drop_last());
    }
    assert(all.results =~= state.results + from.results);
}

/// Some serial frames, one behind the other.
pub open spec fn line(frames: Seq<Vec<u8>>) -> Seq<u8>
    decreases frames.len(),
{
    if frames.len() == 0 {
        seq![]
    } else {
        line(frames.drop_last()) + frames.last()@
    }
}

/// What serial frames come to that are pushed into a decoder at rest: the envelopes
/// that they were made of, in order.
pub proof fn law_serial_frames_get_through(
    envelopes: Seq<OtkEnvelope>,
    frames: Seq<Vec<u8>>,
    decoder: &mut SerialFrameDecoder,
    bytes: &[u8],
    r: Vec<Result<OtkEnvelope, FrameError>>,
)
    requires
        envelopes.len() == frames.len(),
        0 <= old(decoder)@.max <= usize::MAX,
        forall|i: int|
            0 <= i < envelopes.len() ==> call_ensures(
                serial::encode_serial,
                (&#[trigger] envelopes[i], old(decoder)@.max as usize),
                Ok::<Vec<u8>, FrameError>(frames[i]),
            ),
        old(decoder)@.pending.len() == 0,
        !old(decoder)@.discarding,
        bytes@ == line(frames),
        call_ensures(SerialFrameDecoder::push, (decoder, bytes), r),
    ensures
        r@.len() == envelopes.len(),
        forall|i: int|
            0 <= i < r@.len() ==> (#[trigger] r@[i] matches Ok(got) && got.tree()
                == envelopes[i].tree()),
        final(decoder)@.pending.len() == 0,
        !final(decoder)@.discarding,
{
    let max = old(decoder)@.max;
    lemma_line(envelopes, frames, max);
    assert(old(decoder)@.pending =~= seq![]);
    let outs = stream::outcomes(r@);
    assert(outs.len() == r@.len());
    assert forall|i: int| 0 <= i < r@.len() implies (#[trigger] r@[i] matches Ok(got) && got.tree()
        == envelopes[i].tree()) by {
        assert(outs[i] == stream::outcome(r@[i]));
    }
}

proof fn lemma_line(envelopes: Seq<OtkEnvelope>, frames: Seq<Vec<u8>>, max: int)
    requires
        envelopes.len() == frames.len(),
        0 <= max <= usize::MAX,
        forall|i: int|
            0 <= i < envelopes.len() ==> call_ensures(
                serial::encode_serial,
                (&#[trigger] envelopes[i], max as usize),
                Ok::<Vec<u8>, FrameError>(frames[i]),
            ),
    ensures
        ({
            let state = serial::serial_state(
                max,
                serial::wire_max(max),
                SerialState { results: seq![], pending: seq![], discarding: false },
                line(frames),
            );
            &&& state.results.len() == envelopes.len()
            &&& forall|i: int|
                0 <= i < envelopes.len() ==> #[trigger] state.results[i] == Ok::<Tree, FrameError>(
                    envelopes[i].tree(),
                )
            &&& state.pending == Seq::<u8>::empty()
            &&& !state.discarding
        }),
    decreases envelopes.len(),
{
    let wire_max = serial::wire_max(max);
    let rest = SerialState { results: seq![], pending: seq![], discarding: false };
    if envelopes.len() > 0 {
        let n = envelopes.len() - 1;
        let front = envelopes.drop_last();
        assert forall|i: int| 0 <= i < front.len() implies call_ensures(
            serial::encode_serial,
            (&#[trigger] front[i], max as usize),
            Ok::<Vec<u8>, FrameError>(frames.drop_last()[i]),
        ) by {
            assert(front[i] == envelopes[i]);
        }
        lemma_line(front, frames.drop_last(), max);
        let before = serial::serial_state(max, wire_max, rest, line(frames.drop_last()));
        serial::law_serial_pieces(max, wire_max, rest, line(frames.drop_last()), frames[n]@);
        lemma_results_add_up(max, wire_max, before, frames[n]@);
        assert(call_ensures(
            serial::encode_serial,
            (&envelopes[n], max as usize),
            Ok::<Vec<u8>, FrameError>(frames[n]),
        ));
        let state = serial::serial_state(max, wire_max, rest, line(frames));
        assert(state.results == before.results + seq![Ok::<Tree, FrameError>(envelopes[n].tree())]);
        assert forall|i: int| 0 <= i < envelopes.len() implies #[trigger] state.results[i] == Ok::<
            Tree,
            FrameError,
        >(envelopes[i].tree()) by {
            if i < n {
                assert(before.results[i] == Ok::<Tree, FrameError>(front[i].tree()));
            }
        }
    }
}

/// What the bytes between two zero bytes come to, for a decoder at rest: they have
/// to decode, to at least two bytes, the last two of which are the checksum of the
/// others; those others may not be over the limit, and have to be an envelope.
pub proof fn law_serial_decoder(
    decoder: &mut SerialFrameDecoder,
    wire: Seq<u8>,
    bytes: &[u8],
    r: Vec<Result<OtkEnvelope, FrameError>>,
)
    requires
        call_ensures(SerialFrameDecoder::push, (decoder, bytes), r),
        old(decoder)@.pending.len() == 0,
        !old(decoder)@.discarding,
        0 <= old(decoder)@.max <= usize::MAX,
        bytes@ == wire.push(0u8),
        0 < wire.len() <= serial::wire_max(old(decoder)@.max),
        forall|i: int| 0 <= i < wire.len() ==> #[trigger] wire[i] != 0,
    ensures
        r@.len() == 1,
        final(decoder)@.pending.len() == 0,
        !final(decoder)@.discarding,
        match serial::cobs_decoding(wire) {
            None => r@[0] == Err::<OtkEnvelope, FrameError>(FrameError::LostSync),
            Some(s) => {
                let n = s.len() - 2;
                if n < 0 || !is_checked(s, s.take(n), serial::crc16(s.take(n))) {
                    r@[0] == Err::<OtkEnvelope, FrameError>(FrameError::CorruptFrame)
                } else if n > old(decoder)@.max {
                    r@[0] matches Err(FrameError::OversizeFrame { len: Some(l), max }) && l
                        == n as usize && max == old(decoder)@.max
                } else {
                    is_read(r@[0], s.take(n))
                }
            },
        },
{
    let max = old(decoder)@.max;
    let rest = SerialState { results: seq![], pending: seq![], discarding: false };
    assert(old(decoder)@.pending =~= seq![]);
    serial::lemma_serial_collects(max, serial::wire_max(max), rest, wire);
    assert(bytes@.drop_last() =~= wire);
    assert(rest.pending + wire =~= wire);
    reveal(stream::payload_outcome);
    let outs = stream::outcomes(r@);
    assert(outs =~= seq![serial::serial_outcome(max, wire)]);
    assert(outs.len() == r@.len());
    assert(outs[0] == stream::outcome(r@[0]));
}

/// How many bytes a serial frame with a payload up to the limit may take: with its
/// checksum one more for each begun run of 254. One byte more between two zero
/// bytes is one too many: it is an error, and all up to the next zero byte is
/// dropped.
pub proof fn law_serial_limit(
    decoder: &mut SerialFrameDecoder,
    bytes: &[u8],
    r: Vec<Result<OtkEnvelope, FrameError>>,
)
    requires
        call_ensures(SerialFrameDecoder::push, (decoder, bytes), r),
        !old(decoder)@.discarding,
        0 <= old(decoder)@.max <= usize::MAX,
        old(decoder)@.pending.len() == old(decoder)@.max + 2 + (old(decoder)@.max + 255) / 254,
        bytes@.len() == 1,
        bytes@[0] != 0,
    ensures
        r@.len() == 1,
        r@[0] matches Err(FrameError::OversizeFrame { len: None, max }) && max == old(decoder)@.max,
        final(decoder)@.pending.len() == 0,
        final(decoder)@.discarding,
{
    reveal_with_fuel(serial::serial_state, 2);
    let outs = stream::outcomes(r@);
    assert(outs.len() == r@.len());
    assert(bytes@.drop_last() =~= seq![]);
    assert(outs.len() == 1);
    assert(outs[0] == stream::outcome(r@[0]));
}

/// What is dropped stays dropped up to the next zero byte, which brings the line to
/// rest without any result.
pub proof fn law_serial_drops(
    decoder: &mut SerialFrameDecoder,
    bytes: &[u8],
    r: Vec<Result<OtkEnvelope, FrameError>>,
)
    requires
        call_ensures(SerialFrameDecoder::push, (decoder, bytes), r),
        old(decoder)@.discarding,
        old(decoder)@.pending.len() == 0,
        bytes@.len() == 1,
    ensures
        r@.len() == 0,
        final(decoder)@.pending.len() == 0,
        final(decoder)@.discarding <==> bytes@[0] != 0,
{
    reveal_with_fuel(serial::serial_state, 2);
    assert(stream::outcomes(r@).len() == r@.len());
    assert(bytes@.drop_last() =~= seq![]);
}

} // verus!
