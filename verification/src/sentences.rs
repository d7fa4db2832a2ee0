//! What people are told: numbers in digits, and which number stands where.
//!
//! Nothing here is executed.

use vstd::prelude::*;

use crate::frame::error::FrameError;
use crate::ingest::error::{HandshakeError, ProtocolError};
use crate::log::error::{Corruption, Misuse};
use crate::log::names;
use crate::log::octets;
use crate::protocol::envelope::MessageType;
use crate::text;

verus! {

/// The digits of a number.
proof fn lemma_first_digit(n: int)
    requires
        0 <= n,
    ensures
        text::digits(n, 10, text::decimal_width(n)).len() == text::decimal_width(n),
        text::decimal_width(n) >= 1,
        text::decimal_width(n) > 1 ==> text::digits(n, 10, text::decimal_width(n))[0] != 0x30,
    decreases n,
{
    reveal_with_fuel(text::digits, 2);
    let w = text::decimal_width(n);
    if n >= 10 {
        lemma_first_digit(n / 10);
        let front = text::digits(n / 10, 10, (w - 1) as nat);
        assert(text::digits(n, 10, w) == front.push(text::digit(n % 10)));
        assert(text::digits(n, 10, w)[0] == front[0]);
        if n / 10 >= 10 {
            lemma_first_digit(n / 10 / 10);
        } else {
            assert(front =~= seq![text::digit((n / 10) % 10)]);
        }
    }
}

/// A number in digits is decimal digits that spell it, without a zero at the front but
/// for zero itself.
pub proof fn law_decimal(n: u64, r: String)
    requires
        call_ensures(text::decimal_string, (n,), r),
    ensures
        r@.len() > 0,
        forall|i: int| 0 <= i < r@.len() ==> 0x30 <= (#[trigger] r@[i]) as int <= 0x39,
        octets::number_in(r@) == n,
        r@.len() > 1 ==> r@[0] != '0',
{
    let w = text::decimal_width(n as int);
    let d = text::digits(n as int, 10, w);
    text::lemma_u64_width(n);
    names::lemma_decimal_digits(n as int, w);
    text::lemma_digits_value(n as int, 10, w);
    octets::lemma_number_in(d);
    lemma_first_digit(n as int);
    assert forall|i: int| 0 <= i < r@.len() implies 0x30 <= (#[trigger] r@[i]) as int <= 0x39 by {
        assert(0x30 <= d[i] <= 0x39);
    }
    assert(0x30 <= d[0] <= 0x39);
}

/// A number in a fixed width is that many decimal digits, which spell it where it
/// fits.
pub proof fn law_padded_decimal(n: u64, r: String)
    requires
        call_ensures(text::padded_decimal, (n, 20usize), r),
    ensures
        r@.len() == 20,
        forall|i: int| 0 <= i < r@.len() ==> 0x30 <= (#[trigger] r@[i]) as int <= 0x39,
        octets::number_in(r@) == n,
{
    let d = text::digits(n as int, 10, 20);
    text::lemma_u64_width(n);
    names::lemma_decimal_digits(n as int, 20);
    text::lemma_digits_value(n as int, 10, 20);
    octets::lemma_number_in(d);
    assert forall|i: int| 0 <= i < r@.len() implies 0x30 <= (#[trigger] r@[i]) as int <= 0x39 by {
        assert(0x30 <= d[i] <= 0x39);
    }
}

/// A message in another version is refused with the version that was agreed on and
/// then its own; one in another's name with the name that shook hands and then its
/// own.
pub proof fn law_refusal_sentences(
    negotiated: u8,
    found: u8,
    registered: String,
    claimed: String,
    a: String,
    b: String,
    version: String,
    source: String,
)
    requires
        call_ensures(text::decimal_string, (negotiated as u64,), a),
        call_ensures(text::decimal_string, (found as u64,), b),
        call_ensures(
            ProtocolError::message,
            (&ProtocolError::VersionMismatch { negotiated, found },),
            version,
        ),
        call_ensures(
            ProtocolError::message,
            (&ProtocolError::SourceMismatch { registered, found: claimed },),
            source,
        ),
    ensures
        version@ == "protocol version mismatch: negotiated "@ + a@ + ", envelope "@ + b@,
        source@ == "source_id mismatch: producer registered as "@ + registered@
            + ", envelope from "@ + claimed@,
{
}

/// A request without a version in common is told with the producer's oldest and newest
/// version and then the server's; a first message that is no request by its type.
pub proof fn law_handshake_sentences(
    producer_min: u8,
    producer_max: u8,
    server_version: u8,
    t: MessageType,
    a: String,
    b: String,
    c: String,
    name: &'static str,
    versions: String,
    unexpected: String,
)
    requires
        call_ensures(text::decimal_string, (producer_min as u64,), a),
        call_ensures(text::decimal_string, (producer_max as u64,), b),
        call_ensures(text::decimal_string, (server_version as u64,), c),
        call_ensures(MessageType::name, (&t,), name),
        call_ensures(
            HandshakeError::message,
            (&HandshakeError::VersionNotSupported { producer_min, producer_max, server_version },),
            versions,
        ),
        call_ensures(
            HandshakeError::message,
            (&HandshakeError::UnexpectedMessageType(t),),
            unexpected,
        ),
    ensures
        versions@ == "no overlap between producer protocol-version range ["@ + a@ + ", "@ + b@
            + "] and server version "@ + c@,
        unexpected@ == "expected Connect envelope, got "@ + name@,
{
}

/// A frame that is too large is told with its length and then the limit.
pub proof fn law_frame_sentences(len: usize, max: usize, a: String, b: String, known: String, unknown: String)
    requires
        call_ensures(text::decimal_string, (len as u64,), a),
        call_ensures(text::decimal_string, (max as u64,), b),
        call_ensures(
            FrameError::message,
            (&FrameError::OversizeFrame { len: Some(len), max },),
            known,
        ),
        call_ensures(FrameError::message, (&FrameError::OversizeFrame { len: None, max },), unknown),
    ensures
        known@ == "frame too large: "@ + a@ + " bytes exceeds maximum of "@ + b@,
        unknown@ == "frame too large: exceeded maximum of "@ + b@ + " bytes before delimiter"@,
{
}

/// What a log finds wrong is told with what was expected first and what was found then.
pub proof fn law_log_sentences(
    base: u64,
    position: u64,
    expected: u64,
    found: u64,
    records: u64,
    segment: String,
    p: String,
    a: String,
    b: String,
    n: String,
    wrong: String,
    due: String,
    last: String,
    header: String,
    unindexed: String,
)
    requires
        call_ensures(text::padded_decimal, (base, 20usize), segment),
        call_ensures(text::decimal_string, (position,), p),
        call_ensures(text::decimal_string, (expected,), a),
        call_ensures(text::decimal_string, (found,), b),
        call_ensures(text::decimal_string, (records,), n),
        call_ensures(
            Corruption::message,
            (&Corruption::WrongRecord { position, expected, found }, None::<u64>),
            wrong,
        ),
        call_ensures(
            Corruption::message,
            (&Corruption::SubscriptionOffset { expected, found }, None::<u64>),
            due,
        ),
        call_ensures(
            Corruption::message,
            (&Corruption::LastOffset { base, expected, found }, None::<u64>),
            last,
        ),
        call_ensures(
            Corruption::message,
            (&Corruption::HeaderBase { closed: true, base, found }, None::<u64>),
            header,
        ),
        call_ensures(
            Corruption::message,
            (&Corruption::UnindexedSegment { base, records }, None::<u64>),
            unindexed,
        ),
    ensures
        wrong@ == "index points to wrong record at position "@ + p@ + ": expected offset "@ + a@
            + ", got "@ + b@,
        due@ == "subscription offset mismatch: expected "@ + a@ + ", got "@ + b@,
        last@ == "closed segment "@ + segment@ + ": index claims last offset "@ + a@
            + " but record contains "@ + b@,
        header@ == "closed segment "@ + segment@ + ": header base_offset "@ + b@
            + " does not match filename"@,
        unindexed@ == "segment "@ + segment@
            + " has no index but is not the highest unindexed segment; "@ + n@
            + " record(s) would be lost"@,
{
}

/// An event that is too large to be stored is told with its size.
pub proof fn law_misuse_sentence(n: usize, a: String, r: String)
    requires
        call_ensures(text::decimal_string, (n as u64,), a),
        call_ensures(Misuse::message, (&Misuse::EventTooLarge(n),), r),
    ensures
        r@ == "event CBOR ("@ + a@ + " bytes) exceeds maximum record size (4194304 bytes)"@,
{
}

} // verus!
