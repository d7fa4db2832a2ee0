//! The files of a segment, as bytes.
//!
//! ```text
//! data file:  magic(4) version(1) flags(1) padding(2) base(8) created(8)  record*  [0(4)]
//! record:     len(4) offset(8) appended(8) event_len(4) event producer crc(4)
//! index file: position(8)*
//! ```
//!
//! All numbers are little-endian. `len` counts the bytes between itself and
//! the checksum, which is the CRC-32 of those bytes; what `event_len` leaves of
//! them is the producer id, which may be empty. The four zero bytes at the end mark
//! a segment that was closed.

use vstd::prelude::*;
use vstd::utf8::*;

use crate::codec;
use crate::log::bytes;
use crate::log::entry::{EntryModel, LogEntry, Offset};
use crate::log::error::{Corruption, Misuse, StorageError};
use crate::model::event::OtkEvent;
use crate::schema::Kind;
use crate::text;
use crate::wire;
use crate::wire::Wire;

verus! {

broadcast use bytes::group_le_len;

/// The version of the format.
pub const VERSION: u8 = 1;

/// How long the header of a data file is.
pub const HEADER_LEN: u64 = 24;

/// The longest event that is stored.
pub const MAX_EVENT_CBOR: usize = 4_194_304;

/// The largest index file that is read.
pub const MAX_INDEX_BYTES: u64 = 268_435_456;

/// The CRC-32 of bytes, as `crc32fast` computes it.
pub uninterp spec fn crc32_of(data: Seq<u8>) -> u32;

/// `crc32fast::hash`: the CRC-32 (IEEE) of the bytes, left to the name
/// [`crc32_of`].
#[verifier::external_body]
fn crc32(data: &[u8]) -> (r: u32)
    ensures
        r == crc32_of(data@),
{
    crc32fast::hash(data)
}

/// The header of a data file.
#[derive(Debug, Clone, Copy, PartialEq, Eq, Structural)]
pub struct SegmentHeader {
    /// The offset of the first record.
    pub base_offset: u64,
    /// When the segment was begun, in nanoseconds since the Unix epoch.
    pub created_at_ns: u64,
}

/// The bytes of a header.
pub open spec fn header_bytes(h: SegmentHeader) -> Seq<u8> {
    seq![0x4fu8, 0x54u8, 0x4bu8, 0x53u8, VERSION, 0u8, 0u8, 0u8] + bytes::le8(h.base_offset as int)
        + bytes::le8(h.created_at_ns as int)
}

/// The header that a data file starts with.
pub open spec fn parse_header(s: Seq<u8>) -> Result<SegmentHeader, StorageError> {
    if s.len() < HEADER_LEN {
        Err(StorageError::UnexpectedEof)
    } else if !(s[0] == 0x4f && s[1] == 0x54 && s[2] == 0x4b && s[3] == 0x53) {
        Err(StorageError::Corrupted(Corruption::BadMagic(s[0], s[1], s[2], s[3])))
    } else if s[4] != VERSION {
        Err(StorageError::Corrupted(Corruption::UnknownVersion(s[4])))
    } else {
        Ok(
            SegmentHeader {
                base_offset: bytes::le8_at(s, 8) as u64,
                created_at_ns: bytes::le8_at(s, 16) as u64,
            },
        )
    }
}

impl SegmentHeader {
    /// The bytes of the header.
    pub fn write(&self) -> (r: Vec<u8>)
        ensures
            r@ == header_bytes(*self),
            r@.len() == HEADER_LEN,
    {
        let mut out: Vec<u8> = vec![0x4f, 0x54, 0x4b, 0x53, VERSION, 0, 0, 0];
        bytes::put_le8(&mut out, self.base_offset);
        bytes::put_le8(&mut out, self.created_at_ns);
        assert(out@ =~= header_bytes(*self));
        out
    }

    /// The header that a data file starts with.
    pub fn read(data: &[u8]) -> (r: Result<SegmentHeader, StorageError>)
        ensures
            r == parse_header(data@),
    {
        if (data.len() as u64) < HEADER_LEN {
            return Err(StorageError::UnexpectedEof);
        }
        if !(data[0] == 0x4f && data[1] == 0x54 && data[2] == 0x4b && data[3] == 0x53) {
            return Err(
                StorageError::Corrupted(Corruption::BadMagic(data[0], data[1], data[2], data[3])),
            );
        }
        if data[4] != VERSION {
            return Err(StorageError::Corrupted(Corruption::UnknownVersion(data[4])));
        }
        Ok(
            SegmentHeader {
                base_offset: bytes::get_le8(data, 8),
                created_at_ns: bytes::get_le8(data, 16),
            },
        )
    }
}

/// A header reads back, whatever follows it.
pub proof fn law_header_reads_back(h: SegmentHeader, rest: Seq<u8>)
    ensures
        header_bytes(h).len() == HEADER_LEN,
        parse_header(header_bytes(h) + rest) == Ok::<SegmentHeader, StorageError>(h),
{
    let magic = seq![0x4fu8, 0x54u8, 0x4bu8, 0x53u8, VERSION, 0u8, 0u8, 0u8];
    let s = header_bytes(h) + rest;
    assert(forall|i: int| 0 <= i < 8 ==> s[i] == magic[i]);
    bytes::lemma_le_read_back(magic, h.base_offset as int, bytes::le8(h.created_at_ns as int) + rest);
    assert(s =~= magic + bytes::le8(h.base_offset as int) + (bytes::le8(h.created_at_ns as int) + rest));
    let upto = magic + bytes::le8(h.base_offset as int);
    bytes::lemma_le_read_back(upto, h.created_at_ns as int, rest);
    assert(s =~= upto + bytes::le8(h.created_at_ns as int) + rest);
}

/// The payload of a record: everything between its length and its checksum.
pub open spec fn payload_bytes(e: EntryModel) -> Seq<u8> {
    let event = codec::encoding(e.event);
    let producer = encode_utf8(e.producer);
    bytes::le8(e.offset as int) + bytes::le8(e.appended_at_ns as int) + bytes::le4(
        event.len() as int,
    ) + event + producer
}

/// The bytes of a record.
pub open spec fn record_bytes(e: EntryModel) -> Seq<u8> {
    bytes::le4(payload_bytes(e).len() as int) + payload_bytes(e) + bytes::le4(crc32_of(payload_bytes(e)) as int)
}

/// Whether an entry can be stored: its event is small enough, and the length of
/// the payload fits in its four bytes.
pub open spec fn storable(e: EntryModel) -> bool {
    codec::encoding(e.event).len() <= MAX_EVENT_CBOR && min_payload() + codec::encoding(
        e.event,
    ).len() + encode_utf8(e.producer).len() <= u32::MAX
}

/// The smallest payload: one with an empty event and an empty producer id.
pub open spec fn min_payload() -> int {
    20
}

/// The record at the front of the bytes: its entry and how long it is.
pub open spec fn parse_record(s: Seq<u8>) -> Result<(EntryModel, int), StorageError> {
    if s.len() < 4 {
        Err(StorageError::UnexpectedEof)
    } else {
        let len = bytes::le4_at(s, 0);
        if len == 0 {
            Err(StorageError::Corrupted(Corruption::Sentinel))
        } else if len < min_payload() {
            Err(StorageError::Corrupted(Corruption::PayloadTooSmall(len as u32)))
        } else if s.len() < 24 {
            Err(StorageError::UnexpectedEof)
        } else {
            let event_len = bytes::le4_at(s, 20);
            if event_len > MAX_EVENT_CBOR {
                Err(StorageError::Corrupted(Corruption::EventTooLarge(event_len as u32)))
            } else if event_len > len - min_payload() {
                Err(
                    StorageError::Corrupted(
                        Corruption::LengthMismatch {
                            implied: (len - min_payload()) as u32,
                            stored: event_len as u32,
                        },
                    ),
                )
            } else if s.len() < len + 8 {
                Err(StorageError::UnexpectedEof)
            } else {
                parse_whole_record(s, len, event_len)
            }
        }
    }
}

/// The record at the front of the bytes, all of which is there.
pub open spec fn parse_whole_record(s: Seq<u8>, len: int, event_len: int) -> Result<
    (EntryModel, int),
    StorageError,
> {
    let payload = s.subrange(4, 4 + len);
    let computed = crc32_of(payload);
    let stored = bytes::le4_at(s, 4 + len) as u32;
    let event = s.subrange(24, 24 + event_len);
    let producer = s.subrange(24 + event_len, 4 + len);
    if computed != stored {
        Err(StorageError::Corrupted(Corruption::CrcMismatch { computed, stored }))
    } else {
        match codec::parse(Kind::Event, event, 0) {
            Err(fault) => Err(StorageError::Corrupted(Corruption::Event(fault))),
            Ok((t, _)) => if !valid_utf8(producer) {
                Err(StorageError::Corrupted(Corruption::ProducerId))
            } else {
                Ok(
                    (
                        EntryModel {
                            offset: bytes::le8_at(s, 4) as u64,
                            appended_at_ns: bytes::le8_at(s, 12) as u64,
                            producer: decode_utf8(producer),
                            event: t,
                        },
                        len + 8,
                    ),
                )
            },
        }
    }
}

/// The bytes of the record of an entry.
///
/// Reading them back gives the entry, whatever follows them.
pub fn write_record(entry: &LogEntry) -> (r: Result<Vec<u8>, StorageError>)
    ensures
        match r {
            Ok(record) => storable(entry@) && record@ == record_bytes(entry@) && forall|
                rest: Seq<u8>,
            |
                parse_record(#[trigger] (record@ + rest)) == Ok::<(EntryModel, int), StorageError>(
                    (entry@, record@.len() as int),
                ),
            Err(e) => e == StorageError::InvalidInput(
                if codec::encoding(entry@.event).len() > MAX_EVENT_CBOR {
                    Misuse::EventTooLarge(codec::encoding(entry@.event).len() as usize)
                } else {
                    Misuse::ProducerIdTooLong
                },
            ) && !storable(entry@),
        },
{
    let event = wire::to_vec(&entry.event);
    if event.len() > MAX_EVENT_CBOR {
        return Err(StorageError::InvalidInput(Misuse::EventTooLarge(event.len())));
    }
    let producer = entry.producer_id.as_str().as_bytes();
    if producer.len() as u64 > u32::MAX as u64 - 20 - event.len() as u64 {
        return Err(StorageError::InvalidInput(Misuse::ProducerIdTooLong));
    }
    let mut payload: Vec<u8> = Vec::new();
    bytes::put_le8(&mut payload, entry.offset.as_u64());
    bytes::put_le8(&mut payload, entry.appended_at_ns);
    bytes::put_le4(&mut payload, event.len() as u32);
    payload.extend_from_slice(event.as_slice());
    payload.extend_from_slice(producer);
    assert(payload@ =~= payload_bytes(entry@));
    let crc: u32 = crc32(payload.as_slice());
    let mut out: Vec<u8> = Vec::new();
    bytes::put_le4(&mut out, payload.len() as u32);
    out.extend_from_slice(payload.as_slice());
    bytes::put_le4(&mut out, crc);
    assert(out@ =~= record_bytes(entry@));
    proof {
        assert forall|rest: Seq<u8>|
            parse_record(#[trigger] (out@ + rest)) == Ok::<(EntryModel, int), StorageError>(
                (entry@, out@.len() as int),
            ) by {
            assert(event@ + seq![] =~= event@);
            lemma_record_reads_back(entry@, rest);
        }
    }
    Ok(out)
}

/// A record reads back, whatever follows it.
pub proof fn lemma_record_reads_back(e: EntryModel, rest: Seq<u8>)
    requires
        storable(e),
        codec::parse(Kind::Event, codec::encoding(e.event), 0) matches Ok((t, _)) && t == e.event,
    ensures
        parse_record(record_bytes(e) + rest) == Ok::<(EntryModel, int), StorageError>(
            (e, record_bytes(e).len() as int),
        ),
{
    let event = codec::encoding(e.event);
    let producer = encode_utf8(e.producer);
    let payload = payload_bytes(e);
    let len = payload.len() as int;
    let crc = crc32_of(payload);
    let s = record_bytes(e) + rest;
    let b0 = bytes::le4(len);
    let b1 = b0 + bytes::le8(e.offset as int);
    let b2 = b1 + bytes::le8(e.appended_at_ns as int);
    let b3 = b2 + bytes::le4(event.len() as int);
    let b4 = b3 + event;
    let b5 = b4 + producer;
    assert(s =~= b5 + bytes::le4(crc as int) + rest);
    assert(s =~= seq![] + b0 + s.skip(4));
    bytes::lemma_le_read_back(seq![], len, s.skip(4));
    assert(s =~= b0 + bytes::le8(e.offset as int) + s.skip(12));
    bytes::lemma_le_read_back(b0, e.offset as int, s.skip(12));
    assert(s =~= b1 + bytes::le8(e.appended_at_ns as int) + s.skip(20));
    bytes::lemma_le_read_back(b1, e.appended_at_ns as int, s.skip(20));
    assert(s =~= b2 + bytes::le4(event.len() as int) + s.skip(24));
    bytes::lemma_le_read_back(b2, event.len() as int, s.skip(24));
    bytes::lemma_le_read_back(b5, crc as int, rest);
    assert(s.subrange(4, 4 + len) =~= payload);
    let m = event.len() as int;
    assert(s.subrange(24, 24 + m) =~= event);
    assert(s.subrange(24 + m, 4 + len) =~= producer);
    encode_utf8_valid_utf8(e.producer);
    encode_utf8_decode_utf8(e.producer);
}

/// A record that was cut short is no record: something is missing.
pub proof fn law_torn_record_is_none(e: EntryModel, k: int)
    requires
        storable(e),
        0 <= k < record_bytes(e).len(),
    ensures
        parse_record(record_bytes(e).take(k)) == Err::<(EntryModel, int), StorageError>(
            StorageError::UnexpectedEof,
        ),
{
    let event = codec::encoding(e.event);
    let len = payload_bytes(e).len() as int;
    let s = record_bytes(e);
    let torn = s.take(k);
    let before = bytes::le4(len) + bytes::le8(e.offset as int) + bytes::le8(
        e.appended_at_ns as int,
    );
    assert(torn + s.skip(k) =~= s);
    bytes::lemma_le_local(torn, s.skip(k), 0);
    bytes::lemma_le_local(torn, s.skip(k), 20);
    assert(s =~= seq![] + bytes::le4(len) + s.skip(4));
    bytes::lemma_le_read_back(seq![], len, s.skip(4));
    assert(s =~= before + bytes::le4(event.len() as int) + s.skip(24));
    bytes::lemma_le_read_back(before, event.len() as int, s.skip(24));
}

/// An entry whose record reads back is one whose event reads back.
pub proof fn lemma_good_record(e: EntryModel)
    requires
        storable(e),
        parse_record(record_bytes(e)) == Ok::<(EntryModel, int), StorageError>(
            (e, record_bytes(e).len() as int),
        ),
    ensures
        codec::parse(Kind::Event, codec::encoding(e.event), 0) matches Ok((t, _)) && t == e.event,
{
    let event = codec::encoding(e.event);
    let producer = encode_utf8(e.producer);
    let len = payload_bytes(e).len() as int;
    let s = record_bytes(e);
    let m = event.len() as int;
    let before = bytes::le4(len) + bytes::le8(e.offset as int) + bytes::le8(
        e.appended_at_ns as int,
    );
    assert(s =~= seq![] + bytes::le4(len) + s.skip(4));
    bytes::lemma_le_read_back(seq![], len, s.skip(4));
    assert(s =~= before + bytes::le4(m) + s.skip(24));
    bytes::lemma_le_read_back(before, m, s.skip(24));
    assert(s.subrange(24, 24 + m) =~= event);
}

/// Reads and checks the record at the front of the bytes; gives its entry and
/// how many bytes it takes.
pub fn read_record(data: &[u8]) -> (r: Result<(LogEntry, u64), StorageError>)
    ensures
        match r {
            Ok((entry, len)) => parse_record(data@) == Ok::<(EntryModel, int), StorageError>(
                (entry@, len as int),
            ) && 0 < len <= data@.len(),
            Err(e) => parse_record(data@) == Err::<(EntryModel, int), StorageError>(e),
        },
{
    if data.len() < 4 {
        return Err(StorageError::UnexpectedEof);
    }
    let len: u32 = bytes::get_le4(data, 0);
    if len == 0 {
        return Err(StorageError::Corrupted(Corruption::Sentinel));
    }
    if len < 20 {
        return Err(StorageError::Corrupted(Corruption::PayloadTooSmall(len)));
    }
    if data.len() < 24 {
        return Err(StorageError::UnexpectedEof);
    }
    let n: usize = len as usize;
    let event_len: u32 = bytes::get_le4(data, 20);
    if event_len as usize > MAX_EVENT_CBOR {
        return Err(StorageError::Corrupted(Corruption::EventTooLarge(event_len)));
    }
    if event_len > len - 20 {
        return Err(
            StorageError::Corrupted(
                Corruption::LengthMismatch { implied: len - 20, stored: event_len },
            ),
        );
    }
    let m: usize = event_len as usize;
    if (data.len() as u64) < len as u64 + 8 {
        return Err(StorageError::UnexpectedEof);
    }
    let payload = vstd::slice::slice_subrange(data, 4, 4 + n);
    let computed: u32 = crc32(payload);
    let stored: u32 = bytes::get_le4(data, 4 + n);
    if computed != stored {
        return Err(StorageError::Corrupted(Corruption::CrcMismatch { computed, stored }));
    }
    let event = match wire::decode::<OtkEvent>(vstd::slice::slice_subrange(data, 24, 24 + m)) {
        Ok(event) => event,
        Err(fault) => {
            return Err(StorageError::Corrupted(Corruption::Event(fault)));
        },
    };
    let producer = vstd::slice::slice_to_vec(vstd::slice::slice_subrange(data, 24 + m, 4 + n));
    match text::text_of_utf8(producer) {
        None => Err(StorageError::Corrupted(Corruption::ProducerId)),
        Some(producer_id) => Ok(
            (
                LogEntry {
                    offset: Offset::new(bytes::get_le8(data, 4)),
                    appended_at_ns: bytes::get_le8(data, 12),
                    producer_id,
                    event,
                },
                (n + 8) as u64,
            ),
        ),
    }
}

/// How many bytes the record at the front of the bytes needs at most, as far
/// as its first bytes tell.
pub open spec fn record_span(s: Seq<u8>) -> int {
    if s.len() < 4 {
        4
    } else {
        let len = bytes::le4_at(s, 0);
        if len < min_payload() {
            4
        } else {
            len + 8
        }
    }
}

/// How many bytes to fetch for the record that starts with these bytes.
pub fn record_span_of(head: &[u8]) -> (r: u64)
    ensures
        r == record_span(head@),
{
    if head.len() < 4 {
        return 4;
    }
    let len: u32 = bytes::get_le4(head, 0);
    if len < 20 {
        4
    } else {
        len as u64 + 8
    }
}

/// What follows a record does not matter: with the bytes that the record
/// spans, it reads the same whatever comes after.
pub proof fn law_record_is_self_contained(s: Seq<u8>, rest: Seq<u8>)
    requires
        s.len() >= record_span(s),
    ensures
        parse_record(s + rest) == parse_record(s),
        record_span(s + rest) == record_span(s),
{
    let t = s + rest;
    let len = bytes::le4_at(s, 0);
    bytes::lemma_le_local(s, rest, 0);
    if min_payload() <= len {
        let event_len = bytes::le4_at(s, 20);
        bytes::lemma_le_local(s, rest, 20);
        bytes::lemma_le_range(s, 20);
        if event_len <= len - min_payload() && event_len <= MAX_EVENT_CBOR {
            assert(t.subrange(4, 4 + len) =~= s.subrange(4, 4 + len));
            assert(t.subrange(24, 24 + event_len) =~= s.subrange(24, 24 + event_len));
            assert(t.subrange(24 + event_len, 4 + len) =~= s.subrange(24 + event_len, 4 + len));
            bytes::lemma_le_local(s, rest, 4 + len);
            bytes::lemma_le_local(s, rest, 4);
            bytes::lemma_le_local(s, rest, 12);
        }
    }
}

/// A record that can be read lies wholly in the bytes.
pub proof fn lemma_record_len(s: Seq<u8>)
    ensures
        parse_record(s) matches Ok((_, len)) ==> 0 < len <= s.len() && len == record_span(s),
{
}

/// A record that can be read also reads from a prefix that holds all of it.
pub proof fn lemma_record_in_prefix(s: Seq<u8>, k: int)
    requires
        parse_record(s) matches Ok((_, len)) && len <= k <= s.len(),
    ensures
        parse_record(s.take(k)) == parse_record(s),
{
    let p = s.take(k);
    lemma_record_len(s);
    assert(p + s.skip(k) =~= s);
    bytes::lemma_le_local(p, s.skip(k), 0);
    law_record_is_self_contained(p, s.skip(k));
}

/// The mark at the end of a complete segment: a record without a length.
pub open spec fn end_mark() -> Seq<u8> {
    bytes::le4(0)
}

/// The mark at the end of a complete segment.
pub fn write_end_mark() -> (r: Vec<u8>)
    ensures
        r@ == end_mark(),
{
    let mut out: Vec<u8> = Vec::new();
    bytes::put_le4(&mut out, 0);
    assert(out@ =~= end_mark());
    out
}

/// The bytes of an index file.
pub open spec fn index_bytes(positions: Seq<u64>) -> Seq<u8>
    decreases positions.len(),
{
    if positions.len() == 0 {
        seq![]
    } else {
        index_bytes(positions.drop_last()) + bytes::le8(positions.last() as int)
    }
}

/// The positions in an index file.
pub open spec fn index_positions(s: Seq<u8>) -> Seq<u64> {
    Seq::new((s.len() / 8) as nat, |i: int| bytes::le8_at(s, 8 * i) as u64)
}

/// What an index file holds.
pub open spec fn parse_index(s: Seq<u8>) -> Result<Seq<u64>, StorageError> {
    if s.len() > MAX_INDEX_BYTES {
        Err(StorageError::Corrupted(Corruption::IndexTooLarge(s.len() as u64)))
    } else if s.len() % 8 != 0 {
        Err(StorageError::Corrupted(Corruption::IndexLength(s.len() as u64)))
    } else {
        Ok(index_positions(s))
    }
}

/// The bytes of an index file.
pub fn write_index(positions: &[u64]) -> (r: Vec<u8>)
    ensures
        r@ == index_bytes(positions@),
{
    let mut out: Vec<u8> = Vec::new();
    let mut i: usize = 0;
    assert(positions@.take(0) =~= seq![]);
    while i < positions.len()
        invariant
            i <= positions@.len(),
            out@ == index_bytes(positions@.take(i as int)),
        decreases positions@.len() - i,
    {
        let ghost upto = positions@.take(i + 1);
        assert(upto.drop_last() =~= positions@.take(i as int));
        bytes::put_le8(&mut out, positions[i]);
        i = i + 1;
    }
    assert(positions@.take(i as int) =~= positions@);
    out
}

/// Refuses an index file by its size, before it is read.
pub fn check_index_size(len: u64) -> (r: Result<(), StorageError>)
    ensures
        r == (if len > MAX_INDEX_BYTES {
            Err::<(), StorageError>(StorageError::Corrupted(Corruption::IndexTooLarge(len)))
        } else {
            Ok(())
        }),
{
    if len > MAX_INDEX_BYTES {
        Err(StorageError::Corrupted(Corruption::IndexTooLarge(len)))
    } else {
        Ok(())
    }
}

/// The positions in an index file.
pub fn read_index(data: &[u8]) -> (r: Result<Vec<u64>, StorageError>)
    ensures
        match r {
            Ok(positions) => parse_index(data@) == Ok::<Seq<u64>, StorageError>(positions@),
            Err(e) => parse_index(data@) == Err::<Seq<u64>, StorageError>(e),
        },
{
    match check_index_size(data.len() as u64) {
        Ok(_) => {},
        Err(e) => {
            return Err(e);
        },
    }
    if data.len() % 8 != 0 {
        return Err(StorageError::Corrupted(Corruption::IndexLength(data.len() as u64)));
    }
    let mut positions: Vec<u64> = Vec::new();
    let mut i: usize = 0;
    while i < data.len()
        invariant
            i <= data@.len(),
            i % 8 == 0,
            data@.len() % 8 == 0,
            positions@.len() == i / 8,
            forall|k: int|
                0 <= k < positions@.len() ==> #[trigger] positions@[k] == bytes::le8_at(data@, 8 * k),
        decreases data@.len() - i,
    {
        positions.push(bytes::get_le8(data, i));
        i = i + 8;
    }
    assert(positions@ =~= index_positions(data@));
    Ok(positions)
}

/// An index file reads back, as long as it is not too large.
pub proof fn law_index_reads_back(positions: Seq<u64>)
    requires
        8 * positions.len() <= MAX_INDEX_BYTES,
    ensures
        parse_index(index_bytes(positions)) == Ok::<Seq<u64>, StorageError>(positions),
{
    lemma_index(positions);
    assert(index_positions(index_bytes(positions)) =~= positions);
}

pub proof fn lemma_index(positions: Seq<u64>)
    ensures
        index_bytes(positions).len() == 8 * positions.len(),
        forall|i: int|
            0 <= i < positions.len() ==> bytes::le8_at(index_bytes(positions), 8 * i)
                == #[trigger] positions[i],
    decreases positions.len(),
{
    if positions.len() > 0 {
        let front = positions.drop_last();
        let b = index_bytes(positions);
        lemma_index(front);
        assert forall|i: int| 0 <= i < positions.len() implies bytes::le8_at(b, 8 * i)
            == #[trigger] positions[i] by {
            if i < front.len() {
                assert(front[i] == positions[i]);
                bytes::lemma_le_local(index_bytes(front), bytes::le8(positions.last() as int), 8 * i);
            } else {
                bytes::lemma_le_read_back(index_bytes(front), positions.last() as int, seq![]);
                assert(b =~= index_bytes(front) + bytes::le8(positions.last() as int) + seq![]);
            }
        }
    }
}

/// The bytes of the watermark: the offset that comes next.
pub fn write_watermark(next_offset: u64) -> (r: Vec<u8>)
    ensures
        r@ == bytes::le8(next_offset as int),
{
    let mut out: Vec<u8> = Vec::new();
    bytes::put_le8(&mut out, next_offset);
    assert(out@ =~= bytes::le8(next_offset as int));
    out
}

/// What a watermark file says; one that is cut short says nothing.
pub open spec fn parse_watermark(s: Seq<u8>) -> Option<u64> {
    if s.len() < 8 {
        None
    } else {
        Some(bytes::le8_at(s, 0) as u64)
    }
}

/// What a watermark file says.
pub fn read_watermark(data: &[u8]) -> (r: Option<u64>)
    ensures
        r == parse_watermark(data@),
{
    if data.len() < 8 {
        None
    } else {
        Some(bytes::get_le8(data, 0))
    }
}

/// A watermark reads back.
pub proof fn law_watermark_reads_back(n: u64)
    ensures
        parse_watermark(bytes::le8(n as int)) == Some(n),
{
    bytes::lemma_le_read_back(seq![], n as int, seq![]);
    assert(seq![] + bytes::le8(n as int) + seq![] =~= bytes::le8(n as int));
}

/// What is found in the data file of a segment without an index.
pub struct Recovery {
    /// Where the good records are.
    pub positions: Seq<u64>,
    /// Where the good records end: the file is to be cut off there.
    pub end: int,
}

/// The good records of a data file from `pos` on. `positions` are those of the
/// records before. The first record that cannot be read, or that does not have
/// the next offset, ends them.
pub open spec fn recovered(file: Seq<u8>, base: u64, positions: Seq<u64>, pos: int) -> Result<
    Recovery,
    StorageError,
>
    decreases (if pos <= file.len() { file.len() - pos } else { 0 }),
{
    if pos >= file.len() {
        Ok(Recovery { positions, end: pos })
    } else {
        match parse_record(file.skip(pos)) {
            Err(_) => Ok(Recovery { positions, end: pos }),
            Ok((e, len)) => if base + positions.len() > u64::MAX {
                Err(StorageError::Corrupted(Corruption::OffsetOverflow { base }))
            } else if e.offset != base + positions.len() || len <= 0 {
                Ok(Recovery { positions, end: pos })
            } else {
                recovered(file, base, positions.push(pos as u64), pos + len)
            },
        }
    }
}

/// The good records of a data file lie in it.
pub proof fn lemma_recovered_range(file: Seq<u8>, base: u64, positions: Seq<u64>, pos: int)
    requires
        0 <= pos <= file.len() <= u64::MAX,
        forall|i: int| 0 <= i < positions.len() ==> #[trigger] positions[i] <= file.len(),
    ensures
        recovered(file, base, positions, pos) matches Ok(found) ==> pos <= found.end <= file.len()
            && (forall|i: int|
            0 <= i < found.positions.len() ==> #[trigger] found.positions[i] <= file.len()),
    decreases file.len() - pos,
{
    if pos < file.len() {
        lemma_record_len(file.skip(pos));
        if let Ok((e, len)) = parse_record(file.skip(pos)) {
            if base + positions.len() <= u64::MAX && e.offset == base + positions.len() && len > 0 {
                lemma_recovered_range(file, base, positions.push(pos as u64), pos + len);
            }
        }
    }
}

/// Finds the good records of a data file without an index: their positions,
/// where they end, and how many they are. What lies behind their end is to be
/// cut off.
pub fn recover_active(file: &[u8], base_offset: u64) -> (r: Result<
    (Vec<u64>, u64, u64),
    StorageError,
>)
    ensures
        match r {
            Ok((positions, end, count)) => recovered(
                file@,
                base_offset,
                seq![],
                HEADER_LEN as int,
            ) == Ok::<Recovery, StorageError>(
                Recovery { positions: positions@, end: end as int },
            ) && count == positions@.len(),
            Err(e) => recovered(file@, base_offset, seq![], HEADER_LEN as int) == Err::<
                Recovery,
                StorageError,
            >(e),
        },
{
    let mut positions: Vec<u64> = Vec::new();
    let mut pos: usize = HEADER_LEN as usize;
    while pos < file.len()
        invariant
            HEADER_LEN <= pos,
            pos <= file@.len() || pos == HEADER_LEN,
            positions@.len() <= pos,
            recovered(file@, base_offset, seq![], HEADER_LEN as int) == recovered(
                file@,
                base_offset,
                positions@,
                pos as int,
            ),
        ensures
            positions@.len() <= pos,
            recovered(file@, base_offset, seq![], HEADER_LEN as int) == Ok::<
                Recovery,
                StorageError,
            >(Recovery { positions: positions@, end: pos as int }),
        decreases file@.len() - pos,
    {
        let window = vstd::slice::slice_subrange(file, pos, file.len());
        assert(window@ =~= file@.skip(pos as int));
        match read_record(window) {
            Err(_) => {
                break ;
            },
            Ok((entry, len)) => {
                let expected = match base_offset.checked_add(positions.len() as u64) {
                    Some(expected) => expected,
                    None => {
                        return Err(
                            StorageError::Corrupted(
                                Corruption::OffsetOverflow { base: base_offset },
                            ),
                        );
                    },
                };
                if entry.offset.as_u64() != expected {
                    break ;
                }
                positions.push(pos as u64);
                pos = pos + len as usize;
            },
        }
    }
    let count: u64 = positions.len() as u64;
    Ok((positions, pos as u64, count))
}

/// The records of entries, one behind the other.
pub open spec fn records_bytes(es: Seq<EntryModel>) -> Seq<u8>
    decreases es.len(),
{
    if es.len() == 0 {
        seq![]
    } else {
        records_bytes(es.drop_last()) + record_bytes(es.last())
    }
}

} // verus!
