//! The bytes of a log's files: what stands at which place.

use vstd::prelude::*;
use vstd::utf8::*;

use crate::codec;
use crate::log::bytes;
use crate::log::entry::{EntryModel, LogEntry};
use crate::log::error::{Corruption, Misuse, StorageError};
use crate::log::names;
use crate::log::segment;
use crate::log::segment::SegmentHeader;
use crate::model::event::OtkEvent;
use crate::text;
use crate::wire::Wire;

verus! {

broadcast use bytes::group_le_len;

/// The number that `n` bytes from a place on spell, least significant first.
pub open spec fn spelled(s: Seq<u8>, at: int, n: nat) -> int
    decreases n,
{
    if n == 0 {
        0
    } else {
        s[at] + 256 * spelled(s, at + 1, (n - 1) as nat)
    }
}

/// Four and eight bytes spell a number.
pub proof fn lemma_spelled(s: Seq<u8>, at: int)
    ensures
        spelled(s, at, 4) == bytes::le4_at(s, at),
        spelled(s, at, 8) == bytes::le8_at(s, at),
{
    reveal(bytes::le4_at);
    reveal(bytes::le8_at);
    reveal_with_fuel(spelled, 9);
}

/// The header of a data file: 24 bytes, `OTKS`, the version 1, three zeros, and in
/// eight bytes each the offset of the first record and the time at which the
/// segment was begun.
pub proof fn law_header_bytes(h: SegmentHeader, r: Vec<u8>)
    requires
        call_ensures(SegmentHeader::write, (&h,), r),
    ensures
        r@.len() == 24,
        r@[0] == 0x4f && r@[1] == 0x54 && r@[2] == 0x4b && r@[3] == 0x53,
        r@[4] == 1,
        r@[5] == 0 && r@[6] == 0 && r@[7] == 0,
        spelled(r@, 8, 8) == h.base_offset,
        spelled(r@, 16, 8) == h.created_at_ns,
{
    let magic = seq![0x4fu8, 0x54u8, 0x4bu8, 0x53u8, 1u8, 0u8, 0u8, 0u8];
    assert(forall|i: int| 0 <= i < 8 ==> r@[i] == magic[i]);
    assert(r@[0] == magic[0] && r@[1] == magic[1] && r@[2] == magic[2] && r@[3] == magic[3]);
    assert(r@[4] == magic[4] && r@[5] == magic[5] && r@[6] == magic[6] && r@[7] == magic[7]);
    lemma_spelled(r@, 8);
    lemma_spelled(r@, 16);
    segment::law_header_reads_back(h, seq![]);
    assert(r@ + seq![] =~= r@);
    bytes::lemma_le_range(r@, 8);
    bytes::lemma_le_range(r@, 16);
}

/// What is read of the header of a data file, and what is wrong with one.
pub proof fn law_header_is_read(data: &[u8], r: Result<SegmentHeader, StorageError>)
    requires
        call_ensures(SegmentHeader::read, (data,), r),
    ensures
        ({
            let s = data@;
            if s.len() < 24 {
                r == Err::<SegmentHeader, StorageError>(StorageError::UnexpectedEof)
            } else if s[0] != 0x4f || s[1] != 0x54 || s[2] != 0x4b || s[3] != 0x53 {
                r == Err::<SegmentHeader, StorageError>(
                    StorageError::Corrupted(Corruption::BadMagic(s[0], s[1], s[2], s[3])),
                )
            } else if s[4] != 1 {
                r == Err::<SegmentHeader, StorageError>(
                    StorageError::Corrupted(Corruption::UnknownVersion(s[4])),
                )
            } else {
                r matches Ok(h) && h.base_offset == spelled(s, 8, 8) && h.created_at_ns == spelled(
                    s,
                    16,
                    8,
                )
            }
        }),
{
    lemma_spelled(data@, 8);
    lemma_spelled(data@, 16);
    bytes::lemma_le_range(data@, 8);
    bytes::lemma_le_range(data@, 16);
}

/// Whether bytes are a record with these parts: in four bytes how long the middle
/// is, then in eight bytes each the offset and the time, in four bytes how long the
/// event is, the event, the producer's name, and at the end in four bytes the
/// checksum of all but the first four and itself.
pub open spec fn is_record(
    s: Seq<u8>,
    offset: u64,
    appended_at_ns: u64,
    event: Seq<u8>,
    producer: Seq<u8>,
) -> bool {
    let n = event.len() as int;
    let len = 20 + n + producer.len();
    &&& s.len() == len + 8
    &&& spelled(s, 0, 4) == len
    &&& spelled(s, 4, 8) == offset
    &&& spelled(s, 12, 8) == appended_at_ns
    &&& spelled(s, 20, 4) == n
    &&& s.subrange(24, 24 + n) == event
    &&& s.subrange(24 + n, 4 + len) == producer
    &&& spelled(s, 4 + len, 4) == segment::crc32_of(s.subrange(4, 4 + len))
}

/// The bytes of a record of an entry, part by part.
pub proof fn lemma_record(e: EntryModel)
    requires
        segment::storable(e),
    ensures
        is_record(
            segment::record_bytes(e),
            e.offset,
            e.appended_at_ns,
            codec::encoding(e.event),
            encode_utf8(e.producer),
        ),
{
    let event = codec::encoding(e.event);
    let producer = encode_utf8(e.producer);
    let payload = segment::payload_bytes(e);
    let len = payload.len() as int;
    let s = segment::record_bytes(e);
    let m = event.len() as int;
    let one = bytes::le4(len);
    let two = one + bytes::le8(e.offset as int);
    let three = two + bytes::le8(e.appended_at_ns as int);
    let last = bytes::le4(segment::crc32_of(payload) as int);
    assert(s =~= seq![] + bytes::le4(len) + s.skip(4));
    bytes::lemma_le_read_back(seq![], len, s.skip(4));
    assert(s =~= one + bytes::le8(e.offset as int) + s.skip(12));
    bytes::lemma_le_read_back(one, e.offset as int, s.skip(12));
    assert(s =~= two + bytes::le8(e.appended_at_ns as int) + s.skip(20));
    bytes::lemma_le_read_back(two, e.appended_at_ns as int, s.skip(20));
    assert(s =~= three + bytes::le4(m) + s.skip(24));
    bytes::lemma_le_read_back(three, m, s.skip(24));
    assert(s.subrange(24, 24 + m) =~= event);
    assert(s.subrange(24 + m, 4 + len) =~= producer);
    assert(s.subrange(4, 4 + len) =~= payload);
    assert(s =~= s.take(4 + len) + last + seq![]);
    bytes::lemma_le_read_back(
        s.take(4 + len),
        segment::crc32_of(payload) as int,
        seq![],
    );
    lemma_spelled(s, 0);
    lemma_spelled(s, 4);
    lemma_spelled(s, 12);
    lemma_spelled(s, 20);
    lemma_spelled(s, 4 + len);
}

/// The record of an entry holds its offset, its time, its event in CBOR and its
/// producer's name in UTF-8. An entry has none where its event takes more than
/// 4194304 bytes, or where the middle of the record takes more bytes than four
/// bytes can say.
pub proof fn law_record_bytes(entry: LogEntry, r: Result<Vec<u8>, StorageError>)
    requires
        call_ensures(segment::write_record, (&entry,), r),
    ensures
        ({
            let event = codec::encoding(entry.event.tree());
            let producer = encode_utf8(entry.producer_id@);
            if event.len() > 4_194_304 {
                r == Err::<Vec<u8>, StorageError>(
                    StorageError::InvalidInput(Misuse::EventTooLarge(event.len() as usize)),
                )
            } else if 20 + event.len() + producer.len() > 0xffff_ffff {
                r == Err::<Vec<u8>, StorageError>(
                    StorageError::InvalidInput(Misuse::ProducerIdTooLong),
                )
            } else {
                r matches Ok(record) && is_record(
                    record@,
                    entry.offset.0,
                    entry.appended_at_ns,
                    event,
                    producer,
                )
            }
        }),
{
    if segment::storable(entry@) {
        lemma_record(entry@);
    }
}

/// The records of a batch stand one behind the other, each with its own parts.
pub proof fn law_records_in_order(es: Seq<EntryModel>, i: int)
    requires
        0 <= i < es.len(),
        segment::storable(es[i]),
    ensures
        ({
            let all = segment::records_bytes(es);
            let from = segment::records_bytes(es.take(i)).len() as int;
            let to = segment::records_bytes(es.take(i + 1)).len() as int;
            &&& 0 <= from <= to <= all.len()
            &&& is_record(
                all.subrange(from, to),
                es[i].offset,
                es[i].appended_at_ns,
                codec::encoding(es[i].event),
                encode_utf8(es[i].producer),
            )
        }),
{
    let all = segment::records_bytes(es);
    let before = segment::records_bytes(es.take(i));
    let this = segment::record_bytes(es[i]);
    crate::log::layout::lemma_records_concat(es.take(i + 1), es.skip(i + 1));
    assert(es.take(i + 1) + es.skip(i + 1) =~= es);
    assert(es.take(i + 1).drop_last() =~= es.take(i));
    assert(segment::records_bytes(es.take(i + 1)) == before + this);
    assert(all.subrange(before.len() as int, (before + this).len() as int) =~= this);
    lemma_record(es[i]);
}

/// What is read of a record: the entry whose parts the bytes at the front are.
pub proof fn law_record_is_read(data: &[u8], entry: LogEntry, len: u64)
    requires
        call_ensures(
            segment::read_record,
            (data,),
            Ok::<(LogEntry, u64), StorageError>((entry, len)),
        ),
    ensures
        28 <= len <= data@.len(),
        len == spelled(data@, 0, 4) + 8,
        entry.offset.0 == spelled(data@, 4, 8),
        entry.appended_at_ns == spelled(data@, 12, 8),
        ({
            let n = spelled(data@, 20, 4);
            let event = data@.subrange(24, 24 + n);
            let producer = data@.subrange(24 + n, len - 4);
            &&& 0 <= n <= len - 28
            &&& n <= 4_194_304
            &&& codec::parse(<OtkEvent as Wire>::field().kind, event, 0) matches Ok((t, _)) && t
                == entry.event.tree()
            &&& valid_utf8(producer)
            &&& entry.producer_id@ == decode_utf8(producer)
        }),
        spelled(data@, len - 4, 4) == segment::crc32_of(data@.subrange(4, len - 4)),
{
    lemma_spelled(data@, 0);
    lemma_spelled(data@, 4);
    lemma_spelled(data@, 12);
    lemma_spelled(data@, 20);
    lemma_spelled(data@, len - 4);
    bytes::lemma_le_range(data@, 0);
    bytes::lemma_le_range(data@, 4);
    bytes::lemma_le_range(data@, 12);
    bytes::lemma_le_range(data@, 20);
    bytes::lemma_le_range(data@, len - 4);
}

/// What is wrong with bytes that are no record: they end too early, they are the
/// mark at the end of a segment, a length cannot be right, or the checksum, the
/// event or the producer's name is not.
pub proof fn law_what_is_no_record(data: &[u8], e: StorageError)
    requires
        call_ensures(
            segment::read_record,
            (data,),
            Err::<(LogEntry, u64), StorageError>(e),
        ),
    ensures
        ({
            let s = data@;
            let len = spelled(s, 0, 4);
            let n = spelled(s, 20, 4);
            if s.len() < 4 {
                e == StorageError::UnexpectedEof
            } else if len == 0 {
                e == StorageError::Corrupted(Corruption::Sentinel)
            } else if len < 20 {
                e == StorageError::Corrupted(Corruption::PayloadTooSmall(len as u32))
            } else if s.len() < 24 {
                e == StorageError::UnexpectedEof
            } else if n > 4_194_304 {
                e == StorageError::Corrupted(Corruption::EventTooLarge(n as u32))
            } else if n > len - 20 {
                e == StorageError::Corrupted(
                    Corruption::LengthMismatch { implied: (len - 20) as u32, stored: n as u32 },
                )
            } else if s.len() < len + 8 {
                e == StorageError::UnexpectedEof
            } else if spelled(s, 4 + len, 4) != segment::crc32_of(s.subrange(4, 4 + len)) {
                e == StorageError::Corrupted(
                    Corruption::CrcMismatch {
                        computed: segment::crc32_of(s.subrange(4, 4 + len)),
                        stored: spelled(s, 4 + len, 4) as u32,
                    },
                )
            } else {
                e == StorageError::Corrupted(Corruption::ProducerId) || e matches
                    StorageError::Corrupted(Corruption::Event(_))
            }
        }),
{
    lemma_spelled(data@, 0);
    lemma_spelled(data@, 20);
    lemma_spelled(data@, 4 + bytes::le4_at(data@, 0));
    bytes::lemma_le_range(data@, 0);
    bytes::lemma_le_range(data@, 20);
    bytes::lemma_le_range(data@, 4 + bytes::le4_at(data@, 0));
}

/// How many bytes are fetched for a record: what its first four bytes say and
/// eight more, or just those four where they are not all there or say too little.
pub proof fn law_record_span(head: &[u8], r: u64)
    requires
        call_ensures(segment::record_span_of, (head,), r),
    ensures
        r == if head@.len() < 4 || spelled(head@, 0, 4) < 20 {
            4
        } else {
            spelled(head@, 0, 4) + 8
        },
{
    lemma_spelled(head@, 0);
}

/// The mark at the end of a segment is four zeros.
pub proof fn law_end_mark(r: Vec<u8>)
    requires
        call_ensures(segment::write_end_mark, (), r),
    ensures
        r@ == seq![0u8, 0u8, 0u8, 0u8],
{
    reveal(bytes::le4);
}

/// An index file has eight bytes for each record, in order: the position of the
/// record in the data file.
pub proof fn law_index_bytes(positions: &[u64], r: Vec<u8>, i: int)
    requires
        call_ensures(segment::write_index, (positions,), r),
        0 <= i < positions@.len(),
    ensures
        r@.len() == 8 * positions@.len(),
        spelled(r@, 8 * i, 8) == positions@[i],
{
    segment::lemma_index(positions@);
    lemma_spelled(r@, 8 * i);
}

/// What is read of an index file: a position for each eight bytes. One of more than
/// 268435456 bytes, or whose length is no multiple of eight, is refused.
pub proof fn law_index_is_read(data: &[u8], r: Result<Vec<u64>, StorageError>)
    requires
        call_ensures(segment::read_index, (data,), r),
    ensures
        if data@.len() > 268_435_456 {
            r == Err::<Vec<u64>, StorageError>(
                StorageError::Corrupted(Corruption::IndexTooLarge(data@.len() as u64)),
            )
        } else if data@.len() % 8 != 0 {
            r == Err::<Vec<u64>, StorageError>(
                StorageError::Corrupted(Corruption::IndexLength(data@.len() as u64)),
            )
        } else {
            r matches Ok(positions) && 8 * positions@.len() == data@.len() && forall|i: int|
                0 <= i < positions@.len() ==> #[trigger] positions@[i] == spelled(data@, 8 * i, 8)
        },
{
    assert forall|i: int| 0 <= i < data@.len() / 8 implies (#[trigger] segment::index_positions(
        data@,
    )[i]) == spelled(data@, 8 * i, 8) by {
        lemma_spelled(data@, 8 * i);
        bytes::lemma_le_range(data@, 8 * i);
    }
    if let Ok(positions) = r {
        assert forall|i: int| 0 <= i < positions@.len() implies #[trigger] positions@[i] == spelled(
            data@,
            8 * i,
            8,
        ) by {
            assert(positions@[i] == segment::index_positions(data@)[i]);
        }
    }
}

/// An index file is refused by its size before it is read.
pub proof fn law_index_size(len: u64, r: Result<(), StorageError>)
    requires
        call_ensures(segment::check_index_size, (len,), r),
    ensures
        r == if len <= 268_435_456 {
            Ok::<(), StorageError>(())
        } else {
            Err(StorageError::Corrupted(Corruption::IndexTooLarge(len)))
        },
{
}

/// The watermark is the offset that comes next, in eight bytes; one that is shorter
/// says nothing.
pub proof fn law_watermark(next: u64, r: Vec<u8>, data: &[u8], read: Option<u64>)
    requires
        call_ensures(segment::write_watermark, (next,), r),
        call_ensures(segment::read_watermark, (data,), read),
    ensures
        r@.len() == 8,
        spelled(r@, 0, 8) == next,
        match read {
            Some(n) => data@.len() >= 8 && n == spelled(data@, 0, 8),
            None => data@.len() < 8,
        },
{
    bytes::lemma_le_read_back(seq![], next as int, seq![]);
    assert(seq![] + bytes::le8(next as int) + seq![] =~= r@);
    lemma_spelled(r@, 0);
    lemma_spelled(data@, 0);
    bytes::lemma_le_range(data@, 0);
}

/// The number that decimal digits spell.
pub open spec fn number_in(digits: Seq<char>) -> int
    decreases digits.len(),
{
    if digits.len() == 0 {
        0
    } else {
        number_in(digits.drop_last()) * 10 + (digits.last() as int - 0x30)
    }
}

/// Whether a text is twenty decimal digits that spell a number, and an ending.
pub open spec fn is_name(name: Seq<char>, base: u64, ending: Seq<char>) -> bool {
    &&& name.len() == 24
    &&& forall|i: int| 0 <= i < 20 ==> 0x30 <= (#[trigger] name[i]) as int <= 0x39
    &&& number_in(name.take(20)) == base
    &&& name.skip(20) == ending
}

/// Digits of ASCII bytes spell the same number as characters.
pub proof fn lemma_number_in(b: Seq<u8>)
    requires
        forall|i: int| 0 <= i < b.len() ==> 0x30 <= #[trigger] b[i] <= 0x39,
    ensures
        number_in(text::ascii(b)) == text::digits_value(b, 10),
    decreases b.len(),
{
    if b.len() > 0 {
        assert forall|i: int| 0 <= i < b.drop_last().len() implies 0x30 <= #[trigger] b.drop_last()[i]
            <= 0x39 by {
            assert(b.drop_last()[i] == b[i]);
        }
        lemma_number_in(b.drop_last());
        assert(text::ascii(b).drop_last() =~= text::ascii(b.drop_last()));
        assert(0x30 <= b[b.len() - 1] <= 0x39);
    }
}

/// The names of the files of a segment.
proof fn lemma_name(base: u64)
    ensures
        is_name(names::segment_name(base), base, ".seg"@),
        is_name(names::index_name(base), base, ".idx"@),
{
    reveal_strlit(".seg");
    reveal_strlit(".idx");
    let d = text::digits(base as int, 10, 20);
    names::lemma_decimal_digits(base as int, 20);
    text::lemma_u64_width(base);
    text::lemma_digits_value(base as int, 10, 20);
    lemma_number_in(d);
    let a = names::segment_name(base);
    let b = names::index_name(base);
    assert(a.take(20) =~= text::ascii(d));
    assert(b.take(20) =~= text::ascii(d));
    assert(a.skip(20) =~= ".seg"@);
    assert(b.skip(20) =~= ".idx"@);
    assert forall|i: int| 0 <= i < 20 implies 0x30 <= (#[trigger] a[i]) as int <= 0x39 by {
        assert(0x30 <= d[i] <= 0x39);
    }
    assert forall|i: int| 0 <= i < 20 implies 0x30 <= (#[trigger] b[i]) as int <= 0x39 by {
        assert(0x30 <= d[i] <= 0x39);
    }
}

/// The files of a segment are named by the offset of its first record in twenty
/// decimal digits, with `.seg` and `.idx` behind them; and the offset is found in
/// the name of a data file, and in no other name.
pub proof fn law_names(base: u64, data: String, index: String, name: &str, found: Option<u64>)
    requires
        call_ensures(names::segment_file_name, (base,), data),
        call_ensures(names::index_file_name, (base,), index),
        call_ensures(names::segment_base, (name,), found),
    ensures
        is_name(data@, base, ".seg"@),
        is_name(index@, base, ".idx"@),
        match found {
            Some(n) => is_name(name@, n, ".seg"@),
            None => name@ != data@,
        },
        name@ == data@ ==> found == Some(base),
{
    lemma_name(base);
    if let Some(n) = found {
        lemma_name(n);
        if name@ == data@ {
            names::law_segment_names_differ(n, base);
        }
    }
}

} // verus!
