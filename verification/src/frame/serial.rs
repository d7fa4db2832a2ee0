//! Serial frames: the payload and its CRC-16/CCITT-FALSE, made free of zero
//! bytes by COBS, and a zero byte that ends the frame.

use vstd::prelude::*;

use crate::codec;
use crate::codec::Tree;
use crate::frame::error::FrameError;
use crate::frame::stream;
use crate::protocol::envelope::OtkEnvelope;
use crate::wire;
use crate::wire::Wire;

verus! {

/// The error of the COBS decoder.
#[verifier::external_type_specification]
#[verifier::external_body]
pub struct ExCobsDecodeError(cobs::DecodeError);

/// The COBS encoding of bytes, without a delimiter.
pub uninterp spec fn cobs_encoding(data: Seq<u8>) -> Seq<u8>;

/// What COBS-encoded bytes decode to, if to anything.
pub uninterp spec fn cobs_decoding(data: Seq<u8>) -> Option<Seq<u8>>;

/// The largest number of bytes that `n` bytes take in COBS: one more for each
/// begun run of 254, and for nothing at all still one.
pub open spec fn max_encoded_len(n: int) -> int {
    if n == 0 {
        1
    } else {
        n + (n + 253) / 254
    }
}

/// `cobs::max_encoding_length`. It adds without a check, so the sum has to
/// fit.
pub assume_specification[ cobs::max_encoding_length ](source_len: usize) -> (r: usize)
    requires
        max_encoded_len(source_len as int) <= usize::MAX,
    ensures
        r == max_encoded_len(source_len as int),
;

/// `cobs::encode_vec`: the encoding holds no zero byte, is no longer than
/// [`max_encoded_len`] tells, and decodes to what was encoded.
#[verifier::external_body]
fn cobs_encode(data: &[u8]) -> (r: Vec<u8>)
    ensures
        r@ == cobs_encoding(data@),
        1 <= r@.len() <= max_encoded_len(data@.len() as int),
        forall|i: int| 0 <= i < r@.len() ==> #[trigger] r@[i] != 0,
        cobs_decoding(r@) == Some(data@),
{
    cobs::encode_vec(data)
}

/// `cobs::decode_vec`: which bytes are a valid encoding, and of what, is left
/// to the name [`cobs_decoding`].
#[verifier::external_body]
fn cobs_decode(data: &[u8]) -> (r: Result<Vec<u8>, cobs::DecodeError>)
    ensures
        match r {
            Ok(v) => cobs_decoding(data@) == Some(v@),
            Err(_) => cobs_decoding(data@) is None,
        },
{
    cobs::decode_vec(data)
}

/// One shift of the CRC register: the polynomial is taken off where a one
/// falls out at the top.
pub open spec fn crc16_shift(crc: u16) -> u16 {
    if crc & 0x8000 != 0 {
        (crc << 1) ^ 0x1021
    } else {
        crc << 1
    }
}

/// So many shifts of the CRC register.
pub open spec fn crc16_shifts(crc: u16, n: nat) -> u16
    decreases n,
{
    if n == 0 {
        crc
    } else {
        crc16_shift(crc16_shifts(crc, (n - 1) as nat))
    }
}

/// CRC-16/CCITT-FALSE: polynomial 0x1021, register preset to ones, bytes
/// taken in from their high bit.
pub open spec fn crc16(data: Seq<u8>) -> u16
    decreases data.len(),
{
    if data.len() == 0 {
        0xffff
    } else {
        crc16_shifts(crc16(data.drop_last()) ^ ((data.last() as u16) << 8), 8)
    }
}

/// The checksum of serial frames, CRC-16/CCITT-FALSE.
pub fn crc16_ccitt_false(data: &[u8]) -> (r: u16)
    ensures
        r == crc16(data@),
{
    let mut crc: u16 = 0xffff;
    let mut i: usize = 0;
    assert(data@.take(0) =~= seq![]);
    while i < data.len()
        invariant
            i <= data@.len(),
            crc == crc16(data@.take(i as int)),
        decreases data@.len() - i,
    {
        let ghost upto = data@.take(i + 1);
        assert(upto.drop_last() =~= data@.take(i as int));
        let ghost preset = crc ^ ((data@[i as int] as u16) << 8);
        crc = crc ^ ((data[i] as u16) << 8);
        let mut k: u8 = 0;
        while k < 8
            invariant
                k <= 8,
                crc == crc16_shifts(preset, k as nat),
            decreases 8 - k,
        {
            crc = if crc & 0x8000 != 0 {
                (crc << 1) ^ 0x1021
            } else {
                crc << 1
            };
            k = k + 1;
        }
        i = i + 1;
    }
    assert(data@.take(i as int) =~= data@);
    crc
}

/// A payload with its checksum, most significant byte first.
pub open spec fn with_crc(payload: Seq<u8>) -> Seq<u8> {
    payload.push((crc16(payload) / 256) as u8).push((crc16(payload) % 256) as u8)
}

/// What the bytes between two delimiters mean.
pub open spec fn serial_outcome(max: int, wire: Seq<u8>) -> stream::FrameOutcome {
    match cobs_decoding(wire) {
        None => Err(FrameError::LostSync),
        Some(decoded) => {
            let n = decoded.len() - 2;
            let payload = decoded.take(n);
            if n < 0 || decoded[n] * 256 + decoded[n + 1] != crc16(payload) {
                Err(FrameError::CorruptFrame)
            } else if n > max {
                Err(FrameError::OversizeFrame { len: Some(n as usize), max: max as usize })
            } else {
                stream::payload_outcome(payload)
            }
        },
    }
}

/// What a serial line comes to.
pub struct SerialState {
    /// The results of the frames that are complete.
    pub results: Seq<stream::FrameOutcome>,
    /// The bytes since the last delimiter.
    pub pending: Seq<u8>,
    /// Whether bytes are dropped until the next delimiter.
    pub discarding: bool,
}

/// What one more byte makes of a serial line. At most `wire_max` bytes are
/// kept between two delimiters.
pub open spec fn serial_step(max: int, wire_max: int, state: SerialState, b: u8) -> SerialState {
    if b == 0 {
        if state.pending.len() == 0 {
            SerialState { discarding: false, ..state }
        } else {
            SerialState {
                results: state.results.push(serial_outcome(max, state.pending)),
                pending: seq![],
                discarding: false,
            }
        }
    } else if state.discarding {
        state
    } else if state.pending.len() >= wire_max {
        SerialState {
            results: state.results.push(
                Err(FrameError::OversizeFrame { len: None, max: max as usize }),
            ),
            pending: seq![],
            discarding: true,
        }
    } else {
        SerialState { pending: state.pending.push(b), ..state }
    }
}

/// What bytes make of a serial line.
pub open spec fn serial_state(
    max: int,
    wire_max: int,
    state: SerialState,
    s: Seq<u8>,
) -> SerialState
    decreases s.len(),
{
    if s.len() == 0 {
        state
    } else {
        serial_step(max, wire_max, serial_state(max, wire_max, state, s.drop_last()), s.last())
    }
}

/// A decoder's model.
pub struct SerialDecoderModel {
    /// The largest payload that is accepted.
    pub max: int,
    /// The bytes since the last delimiter.
    pub pending: Seq<u8>,
    /// Whether bytes are dropped until the next delimiter.
    pub discarding: bool,
}

/// How many bytes a frame with a payload of `max` bytes may take on the line.
pub open spec fn wire_max(max: int) -> int {
    max_encoded_len(max + 2)
}

/// Decodes serial frames as their bytes come in.
///
/// The limit is on the payload, as in [`encode_serial`]: a frame that the
/// encoder lets through is not refused by a decoder with the same limit. A
/// frame that is too large is reported once, and its bytes are dropped up to
/// the next delimiter.
pub struct SerialFrameDecoder {
    buf: Vec<u8>,
    max_frame_size: usize,
    max_wire_size: usize,
    discarding: bool,
}

impl View for SerialFrameDecoder {
    type V = SerialDecoderModel;

    closed spec fn view(&self) -> SerialDecoderModel {
        SerialDecoderModel {
            max: self.max_frame_size as int,
            pending: self.buf@,
            discarding: self.discarding,
        }
    }
}

impl SerialFrameDecoder {
    /// The limit on the line goes with the limit on the payload.
    pub closed spec fn wf(&self) -> bool {
        self.max_wire_size == wire_max(self.max_frame_size as int)
    }

    /// A decoder for payloads up to the given length.
    pub fn new(max_frame_size: usize) -> (r: Self)
        requires
            wire_max(max_frame_size as int) <= usize::MAX,
        ensures
            r.wf(),
            r@ == (SerialDecoderModel {
                max: max_frame_size as int,
                pending: seq![],
                discarding: false,
            }),
    {
        let max_wire_size: usize = cobs::max_encoding_length(max_frame_size + 2);
        Self { buf: Vec::new(), max_frame_size, max_wire_size, discarding: false }
    }

    /// Whether the bytes so far end in the middle of a frame.
    pub fn has_pending(&self) -> (r: bool)
        ensures
            r == (self@.pending.len() > 0 || self@.discarding),
    {
        self.buf.len() > 0 || self.discarding
    }

    /// Takes in bytes and gives the results of the frames that they complete.
    pub fn push(&mut self, bytes: &[u8]) -> (r: Vec<Result<OtkEnvelope, FrameError>>)
        requires
            old(self).wf(),
        ensures
            final(self).wf(),
            final(self)@.max == old(self)@.max,
            ({
                let state = serial_state(
                    old(self)@.max,
                    wire_max(old(self)@.max),
                    SerialState {
                        results: seq![],
                        pending: old(self)@.pending,
                        discarding: old(self)@.discarding,
                    },
                    bytes@,
                );
                &&& stream::outcomes(r@) == state.results
                &&& final(self)@.pending == state.pending
                &&& final(self)@.discarding == state.discarding
            }),
    {
        let ghost start = SerialState {
            results: seq![],
            pending: self.buf@,
            discarding: self.discarding,
        };
        let mut r: Vec<Result<OtkEnvelope, FrameError>> = Vec::new();
        let mut i: usize = 0;
        assert(stream::outcomes(r@) =~= seq![]);
        assert(bytes@.take(0) =~= seq![]);
        while i < bytes.len()
            invariant
                i <= bytes@.len(),
                self.wf(),
                self@.max == old(self)@.max,
                serial_state(
                    old(self)@.max,
                    wire_max(old(self)@.max),
                    start,
                    bytes@.take(i as int),
                ) == (SerialState {
                    results: stream::outcomes(r@),
                    pending: self.buf@,
                    discarding: self.discarding,
                }),
            decreases bytes@.len() - i,
        {
            let ghost before = r@;
            proof {
                let upto = bytes@.take(i + 1);
                assert(upto.drop_last() =~= bytes@.take(i as int));
                assert(upto.last() == bytes@[i as int]);
            }
            let b: u8 = bytes[i];
            i = i + 1;
            if b == 0 {
                self.discarding = false;
                if self.buf.len() > 0 {
                    let result = decode_frame(self.buf.as_slice(), self.max_frame_size);
                    r.push(result);
                    self.buf.clear();
                    assert(stream::outcomes(r@) =~= stream::outcomes(before).push(
                        stream::outcome(result),
                    ));
                    assert(self.buf@ =~= seq![]);
                }
            } else if self.discarding {
            } else if self.buf.len() >= self.max_wire_size {
                let error = FrameError::OversizeFrame { len: None, max: self.max_frame_size };
                self.buf.clear();
                self.discarding = true;
                r.push(Err(error));
                assert(stream::outcomes(r@) =~= stream::outcomes(before).push(Err(error)));
                assert(self.buf@ =~= seq![]);
            } else {
                self.buf.push(b);
            }
        }
        assert(bytes@.take(i as int) =~= bytes@);
        r
    }
}

/// Decodes the bytes between two delimiters.
fn decode_frame(wire: &[u8], max_frame_size: usize) -> (r: Result<OtkEnvelope, FrameError>)
    ensures
        stream::outcome(r) == serial_outcome(max_frame_size as int, wire@),
{
    let decoded = match cobs_decode(wire) {
        Ok(decoded) => decoded,
        Err(_) => {
            return Err(FrameError::LostSync);
        },
    };
    if decoded.len() < 2 {
        return Err(FrameError::CorruptFrame);
    }
    let n: usize = decoded.len() - 2;
    let payload = vstd::slice::slice_subrange(decoded.as_slice(), 0, n);
    assert(payload@ =~= decoded@.take(n as int));
    let received: u16 = decoded[n] as u16 * 256 + decoded[n + 1] as u16;
    if crc16_ccitt_false(payload) != received {
        return Err(FrameError::CorruptFrame);
    }
    if n > max_frame_size {
        return Err(FrameError::OversizeFrame { len: Some(n), max: max_frame_size });
    }
    stream::decode_payload(payload)
}

/// The serial frame of an envelope: the COBS encoding of its payload and checksum,
/// which has no zero byte, and a zero byte behind it. A decoder with the same limit
/// reads it as that one envelope and is at rest afterwards.
pub fn encode_serial(envelope: &OtkEnvelope, max_frame_size: usize) -> (r: Result<
    Vec<u8>,
    FrameError,
>)
    ensures
        ({
            let payload = codec::encoding(envelope.tree());
            match r {
                Ok(frame) => payload.len() <= max_frame_size && frame@ == cobs_encoding(
                    with_crc(payload),
                ).push(0) && (forall|i: int|
                    0 <= i < frame@.len() - 1 ==> #[trigger] frame@[i] != 0) && cobs_decoding(
                    frame@.drop_last(),
                ) == Some(with_crc(payload)) && serial_state(
                    max_frame_size as int,
                    wire_max(max_frame_size as int),
                    SerialState { results: seq![], pending: seq![], discarding: false },
                    frame@,
                ) == (SerialState {
                    results: seq![Ok::<Tree, FrameError>(envelope.tree())],
                    pending: seq![],
                    discarding: false,
                }),
                Err(e) => payload.len() > max_frame_size && e == (FrameError::OversizeFrame {
                    len: Some(payload.len() as usize),
                    max: max_frame_size,
                }),
            }
        }),
{
    let payload = wire::to_vec(envelope);
    if payload.len() > max_frame_size {
        return Err(
            FrameError::OversizeFrame { len: Some(payload.len()), max: max_frame_size },
        );
    }
    let crc: u16 = crc16_ccitt_false(payload.as_slice());
    let ghost bytes = payload@;
    let mut checked = payload;
    checked.push((crc / 256) as u8);
    checked.push((crc % 256) as u8);
    assert(checked@ =~= with_crc(bytes));
    let mut frame = cobs_encode(checked.as_slice());
    let ghost wire = frame@;
    frame.push(0);
    proof {
        let max = max_frame_size as int;
        let rest = SerialState { results: seq![], pending: seq![], discarding: false };
        assert(wire.len() <= wire_max(max));
        lemma_serial_collects(max, wire_max(max), rest, wire);
        assert(frame@.drop_last() =~= wire);
        assert(rest.pending + wire =~= wire);
        let n = bytes.len() as int;
        assert(with_crc(bytes).take(n) =~= bytes);
        assert(bytes + seq![] =~= bytes);
        reveal(stream::payload_outcome);
        assert(serial_outcome(max, wire) == Ok::<Tree, FrameError>(envelope.tree()));
        assert(seq![].push(Ok::<Tree, FrameError>(envelope.tree())) =~= seq![
            Ok::<Tree, FrameError>(envelope.tree()),
        ]);
    }
    Ok(frame)
}

/// Bytes without a delimiter that fit on the line are kept.
pub proof fn lemma_serial_collects(max: int, wire_max: int, state: SerialState, s: Seq<u8>)
    requires
        !state.discarding,
        state.pending.len() + s.len() <= wire_max,
        forall|i: int| 0 <= i < s.len() ==> #[trigger] s[i] != 0,
    ensures
        serial_state(max, wire_max, state, s) == (SerialState {
            pending: state.pending + s,
            ..state
        }),
    decreases s.len(),
{
    if s.len() == 0 {
        assert(state.pending + s =~= state.pending);
    } else {
        assert(forall|i: int| 0 <= i < s.drop_last().len() ==> s.drop_last()[i] == s[i]);
        lemma_serial_collects(max, wire_max, state, s.drop_last());
        assert(s.last() == s[s.len() - 1]);
        assert((state.pending + s.drop_last()).push(s.last()) =~= state.pending + s);
    }
}

/// How the bytes of a line are cut into pieces makes no difference: taking in
/// `a` and then `b` is the same as taking in both at once.
pub proof fn law_serial_pieces(
    max: int,
    wire_max: int,
    state: SerialState,
    a: Seq<u8>,
    b: Seq<u8>,
)
    ensures
        serial_state(max, wire_max, state, a + b) == serial_state(
            max,
            wire_max,
            serial_state(max, wire_max, state, a),
            b,
        ),
    decreases b.len(),
{
    if b.len() == 0 {
        assert(a + b =~= a);
    } else {
        assert((a + b).drop_last() =~= a + b.drop_last());
        law_serial_pieces(max, wire_max, state, a, b.drop_last());
    }
}

/// A delimiter always brings the line to rest, whatever was going on.
pub proof fn law_serial_resyncs(max: int, wire_max: int, state: SerialState)
    ensures
        ({
            let after = serial_state(max, wire_max, state, seq![0u8]);
            after.pending.len() == 0 && !after.discarding
        }),
{
    reveal_with_fuel(serial_state, 2);
    assert(seq![0u8].drop_last() =~= seq![]);
}

/// Delimiters on a line at rest change nothing.
pub proof fn law_serial_idle_delimiters(
    max: int,
    wire_max: int,
    state: SerialState,
    n: nat,
)
    requires
        state.pending.len() == 0,
        !state.discarding,
    ensures
        serial_state(max, wire_max, state, Seq::new(n, |i: int| 0u8)) == state,
    decreases n,
{
    let zeros = Seq::new(n, |i: int| 0u8);
    if n > 0 {
        assert(zeros.drop_last() =~= Seq::new((n - 1) as nat, |i: int| 0u8));
        law_serial_idle_delimiters(max, wire_max, state, (n - 1) as nat);
    }
}

} // verus!
