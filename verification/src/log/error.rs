//! What can go wrong with a log.

use vstd::prelude::*;
use vstd::string::*;

use crate::codec::DecodeFault;
use crate::log::entry::Offset;
use crate::text;

verus! {

/// What is wrong with stored data.
#[derive(Debug, Clone, Copy, PartialEq, Eq, Structural)]
pub enum Corruption {
    /// The mark that ends a closed segment stands where a record was read.
    Sentinel,
    /// A segment starts with these bytes instead of the magic number.
    BadMagic(u8, u8, u8, u8),
    /// A segment of a format version that is not known.
    UnknownVersion(u8),
    /// A record whose payload is too short to be one.
    PayloadTooSmall(u32),
    /// A record whose event is longer than any that is written.
    EventTooLarge(u32),
    /// The lengths in a record contradict one another.
    LengthMismatch {
        /// How long the event can be at most, by the length of the payload.
        implied: u32,
        /// How long it is, by its own length.
        stored: u32,
    },
    /// A record's checksum does not match.
    CrcMismatch {
        /// The checksum of the payload.
        computed: u32,
        /// The checksum in the record.
        stored: u32,
    },
    /// A record's event cannot be read.
    Event(DecodeFault),
    /// A record's producer id is not a text.
    ProducerId,
    /// An index file larger than any that is written.
    IndexTooLarge(u64),
    /// An index file whose length is not a multiple of eight.
    IndexLength(u64),
    /// A segment whose offsets do not fit in 64 bits.
    OffsetOverflow {
        /// The segment.
        base: u64,
    },
    /// A segment whose header names another base offset than its file name.
    HeaderBase {
        /// Whether the segment is complete.
        closed: bool,
        /// The base offset in the file name.
        base: u64,
        /// The base offset in the header.
        found: u64,
    },
    /// A closed segment whose last record has another offset than the index
    /// says.
    LastOffset {
        /// The segment.
        base: u64,
        /// The offset by the index.
        expected: u64,
        /// The offset in the record.
        found: u64,
    },
    /// A segment with records has no index, and a later segment has none
    /// either.
    UnindexedSegment {
        /// The segment.
        base: u64,
        /// How many records it holds.
        records: u64,
    },
    /// An index points to the wrong record.
    WrongRecord {
        /// Where the record stands.
        position: u64,
        /// The offset that was looked up.
        expected: u64,
        /// The offset in the record.
        found: u64,
    },
    /// A subscription met the wrong record.
    SubscriptionOffset {
        /// The offset that was due.
        expected: u64,
        /// The offset in the record.
        found: u64,
    },
    /// A closed segment ends in the middle of a record, or without its mark.
    ClosedSegmentEnds {
        /// Where the record should have been.
        position: u64,
    },
    /// The log is out of step with its file and has to be opened again.
    Poisoned,
}

/// What is wrong with a request.
#[derive(Debug, Clone, Copy, PartialEq, Eq, Structural)]
pub enum Misuse {
    /// A batch without events.
    NoEvents,
    /// A batch without a producer id.
    NoProducerId,
    /// A producer id too long to be stored.
    ProducerIdTooLong,
    /// An event too large to be stored.
    EventTooLarge(usize),
    /// There are no offsets left.
    OffsetsExhausted,
    /// The segment file would grow beyond what a file position can name.
    SegmentFull,
}

/// What can go wrong with a log.
#[derive(Debug, Clone, Copy, PartialEq, Eq, Structural)]
pub enum StorageError {
    /// The file ends before the record does.
    UnexpectedEof,
    /// Stored data is damaged.
    Corrupted(Corruption),
    /// A request makes no sense.
    InvalidInput(Misuse),
    /// The offset is not kept any more.
    RetentionExpired {
        /// The offset that was asked for.
        requested: Offset,
        /// The first offset that is still kept, if any is.
        earliest_available: Option<Offset>,
    },
}

/// A base offset, as it stands in file names.
pub open spec fn base_text(base: u64) -> Seq<char> {
    text::ascii(text::digits(base as int, 10, 20))
}

/// A checksum in hexadecimal digits.
pub open spec fn crc_text(crc: u32) -> Seq<char> {
    "0x"@ + text::ascii(text::digits(crc as int, 16, 8))
}

/// Where a record was read, if that is known.
pub open spec fn place_text(at: Option<u64>) -> Seq<char> {
    match at {
        Some(pos) => " at pos "@ + text::decimal(pos as int),
        None => ""@,
    }
}

/// A checksum in hexadecimal digits.
fn crc_string(crc: u32) -> (r: String)
    ensures
        r@ == crc_text(crc),
{
    let digits = text::hex_digits(crc as u128, 8);
    proof {
        text::lemma_digits_ascii(crc as int, 16, 8);
    }
    "0x".to_owned().concat(text::ascii_string(digits).as_str())
}

/// Where a record was read, if that is known.
fn place_string(at: Option<u64>) -> (r: String)
    ensures
        r@ == place_text(at),
{
    match at {
        Some(pos) => " at pos ".to_owned().concat(text::decimal_string(pos).as_str()),
        None => "".to_owned(),
    }
}

/// A text with a number behind it.
fn with_number(front: String, n: u64) -> (r: String)
    ensures
        r@ == front@ + text::decimal(n as int),
{
    front.concat(text::decimal_string(n).as_str())
}

impl Corruption {
    /// The sentence for the corruption, met where a record was read, if that is
    /// known.
    pub open spec fn text(self, at: Option<u64>) -> Seq<char> {
        match self {
            Corruption::Sentinel => "end-of-segment sentinel"@,
            Corruption::BadMagic(a, b, c, d) => "bad magic: ["@ + text::decimal(a as int) + ", "@
                + text::decimal(b as int) + ", "@ + text::decimal(c as int) + ", "@
                + text::decimal(d as int) + "]"@,
            Corruption::UnknownVersion(v) => "unknown segment version "@ + text::decimal(v as int),
            Corruption::PayloadTooSmall(n) => "payload_len "@ + text::decimal(n as int)
                + " too small"@ + place_text(at) + " (minimum 20)"@,
            Corruption::EventTooLarge(n) => "event CBOR length "@ + text::decimal(n as int)
                + place_text(at) + " exceeds maximum 4194304"@,
            Corruption::LengthMismatch { implied, stored } => "event_len mismatch"@ + place_text(at)
                + ": payload_len implies at most "@ + text::decimal(implied as int) + ", stored "@
                + text::decimal(stored as int),
            Corruption::CrcMismatch { computed, stored } => "CRC mismatch"@ + place_text(at)
                + ": expected "@ + crc_text(computed) + ", got "@ + crc_text(stored),
            Corruption::Event(fault) => "CBOR decode"@ + place_text(at) + ": "@ + fault.text(),
            Corruption::ProducerId => "producer id"@ + place_text(at) + " is not UTF-8"@,
            Corruption::IndexTooLarge(n) => "index file is "@ + text::decimal(n as int)
                + " bytes, exceeding the 268435456-byte limit"@,
            Corruption::IndexLength(n) => "index file has length "@ + text::decimal(n as int)
                + " which is not a multiple of 8"@,
            Corruption::OffsetOverflow { base } => "segment "@ + base_text(base)
                + ": base + record count overflows u64"@,
            Corruption::HeaderBase { closed, base, found } => (if closed {
                "closed segment "@
            } else {
                "active segment "@
            }) + base_text(base)
                + ": header base_offset "@ + text::decimal(found as int)
                + " does not match filename"@,
            Corruption::LastOffset { base, expected, found } => "closed segment "@ + base_text(base)
                + ": index claims last offset "@ + text::decimal(expected as int)
                + " but record contains "@ + text::decimal(found as int),
            Corruption::UnindexedSegment { base, records } => "segment "@ + base_text(base)
                + " has no index but is not the highest unindexed segment; "@ + text::decimal(
                records as int,
            ) + " record(s) would be lost"@,
            Corruption::WrongRecord { position, expected, found } => (
            "index points to wrong record at position ")@ + text::decimal(position as int)
                + ": expected offset "@ + text::decimal(expected as int) + ", got "@
                + text::decimal(found as int),
            Corruption::SubscriptionOffset { expected, found } => (
            "subscription offset mismatch: expected ")@ + text::decimal(expected as int) + ", got "@
                + text::decimal(found as int),
            Corruption::ClosedSegmentEnds { position } => (
            "unexpected EOF on closed segment at byte position ")@ + text::decimal(position as int),
            Corruption::Poisoned =>
                "log is poisoned: position query failed after a durable write; reopen the log to recover"@,
        }
    }

    /// A sentence that tells a person what is wrong, and where the record was
    /// read, if that is known.
    pub fn message(&self, at: Option<u64>) -> (r: String)
        ensures
            r@ == self.text(at),
    {
        match *self {
            Corruption::Sentinel => "end-of-segment sentinel".to_owned(),
            Corruption::BadMagic(a, b, c, d) => {
                let r = with_number("bad magic: [".to_owned(), a as u64).concat(", ");
                let r = with_number(r, b as u64).concat(", ");
                let r = with_number(r, c as u64).concat(", ");
                with_number(r, d as u64).concat("]")
            },
            Corruption::UnknownVersion(v) => with_number(
                "unknown segment version ".to_owned(),
                v as u64,
            ),
            Corruption::PayloadTooSmall(n) => with_number(
                "payload_len ".to_owned(),
                n as u64,
            ).concat(" too small").concat(place_string(at).as_str()).concat(" (minimum 20)"),
            Corruption::EventTooLarge(n) => with_number(
                "event CBOR length ".to_owned(),
                n as u64,
            ).concat(place_string(at).as_str()).concat(" exceeds maximum 4194304"),
            Corruption::LengthMismatch { implied, stored } => {
                let r = "event_len mismatch".to_owned().concat(place_string(at).as_str()).concat(
                    ": payload_len implies at most ",
                );
                with_number(with_number(r, implied as u64).concat(", stored "), stored as u64)
            },
            Corruption::CrcMismatch { computed, stored } => "CRC mismatch".to_owned().concat(
                place_string(at).as_str(),
            ).concat(": expected ").concat(crc_string(computed).as_str()).concat(", got ").concat(
                crc_string(stored).as_str(),
            ),
            Corruption::Event(fault) => "CBOR decode".to_owned().concat(
                place_string(at).as_str(),
            ).concat(": ").concat(fault.message().as_str()),
            Corruption::ProducerId => "producer id".to_owned().concat(
                place_string(at).as_str(),
            ).concat(" is not UTF-8"),
            Corruption::IndexTooLarge(n) => with_number("index file is ".to_owned(), n).concat(
                " bytes, exceeding the 268435456-byte limit",
            ),
            Corruption::IndexLength(n) => with_number(
                "index file has length ".to_owned(),
                n,
            ).concat(" which is not a multiple of 8"),
            Corruption::OffsetOverflow { base } => "segment ".to_owned().concat(
                text::padded_decimal(base, 20).as_str(),
            ).concat(": base + record count overflows u64"),
            Corruption::HeaderBase { closed, base, found } => {
                let kind = if closed {
                    "closed segment "
                } else {
                    "active segment "
                };
                let r = kind.to_owned().concat(
                    text::padded_decimal(base, 20).as_str(),
                ).concat(": header base_offset ");
                with_number(r, found).concat(" does not match filename")
            },
            Corruption::LastOffset { base, expected, found } => {
                let r = "closed segment ".to_owned().concat(
                    text::padded_decimal(base, 20).as_str(),
                ).concat(": index claims last offset ");
                with_number(with_number(r, expected).concat(" but record contains "), found)
            },
            Corruption::UnindexedSegment { base, records } => {
                let r = "segment ".to_owned().concat(
                    text::padded_decimal(base, 20).as_str(),
                ).concat(" has no index but is not the highest unindexed segment; ");
                with_number(r, records).concat(" record(s) would be lost")
            },
            Corruption::WrongRecord { position, expected, found } => {
                let r = with_number(
                    "index points to wrong record at position ".to_owned(),
                    position,
                ).concat(": expected offset ");
                with_number(with_number(r, expected).concat(", got "), found)
            },
            Corruption::SubscriptionOffset { expected, found } => {
                let r = "subscription offset mismatch: expected ".to_owned();
                with_number(with_number(r, expected).concat(", got "), found)
            },
            Corruption::ClosedSegmentEnds { position } => with_number(
                "unexpected EOF on closed segment at byte position ".to_owned(),
                position,
            ),
            Corruption::Poisoned => ("log is poisoned: position query failed after a durable write; reopen the log to recover").to_owned(),
        }
    }
}

impl Misuse {
    /// The sentence for the misuse.
    pub open spec fn text(self) -> Seq<char> {
        match self {
            Misuse::NoEvents => "events slice must not be empty"@,
            Misuse::NoProducerId => "producer_id must not be empty"@,
            Misuse::ProducerIdTooLong => "producer_id is too long"@,
            Misuse::EventTooLarge(n) => "event CBOR ("@ + text::decimal(n as int)
                + " bytes) exceeds maximum record size (4194304 bytes)"@,
            Misuse::OffsetsExhausted => "offset space exhausted"@,
            Misuse::SegmentFull => "segment file is full"@,
        }
    }

    /// A sentence that tells a person what is wrong.
    pub fn message(&self) -> (r: String)
        ensures
            r@ == self.text(),
    {
        match *self {
            Misuse::NoEvents => "events slice must not be empty".to_owned(),
            Misuse::NoProducerId => "producer_id must not be empty".to_owned(),
            Misuse::ProducerIdTooLong => "producer_id is too long".to_owned(),
            Misuse::EventTooLarge(n) => with_number(
                "event CBOR (".to_owned(),
                n as u64,
            ).concat(" bytes) exceeds maximum record size (4194304 bytes)"),
            Misuse::OffsetsExhausted => "offset space exhausted".to_owned(),
            Misuse::SegmentFull => "segment file is full".to_owned(),
        }
    }
}

} // verus!
