//! Opening a log: what one more segment adds to what is found.

use vstd::prelude::*;

use crate::log::bytes;
use crate::log::config::SegmentLogConfig;
use crate::log::error::{Corruption, StorageError};
use crate::log::octets;
use crate::log::segment;
use crate::log::segment::SegmentHeader;
use crate::log::state::opening;
use crate::log::state::opening::{OpenFix, Opened, Opening, SegmentInput};
use crate::log::state::{ActiveModel, ClosedModel, LogModel, SegmentLog};

verus! {

broadcast use bytes::group_le_len;

/// Whether positions are those of records of a file that stand one behind the
/// other, up to an end, and have consecutive offsets.
pub open spec fn are_records(file: Seq<u8>, base: u64, positions: Seq<u64>, end: int) -> bool {
    forall|i: int| 0 <= i < positions.len() ==> #[trigger] is_record_at(file, base, positions, end, i)
}

/// The record with number `i`: it begins where the one before ends, or at byte 24.
pub open spec fn is_record_at(
    file: Seq<u8>,
    base: u64,
    positions: Seq<u64>,
    end: int,
    i: int,
) -> bool {
    &&& i == 0 ==> positions[i] == 24
    &&& segment::parse_record(file.skip(positions[i] as int)) matches Ok((e, len)) && e.offset == base
        + i && positions[i] + len == if i + 1 < positions.len() {
        positions[i + 1] as int
    } else {
        end
    }
}

/// Records that were found go on with more records.
proof fn lemma_recovered(file: Seq<u8>, base: u64, positions: Seq<u64>, pos: int)
    requires
        file.len() <= u64::MAX,
        0 <= pos,
        positions.len() == 0 ==> pos == 24,
        are_records(file, base, positions, pos),
    ensures
        segment::recovered(file, base, positions, pos) matches Ok(found) ==> {
            &&& are_records(file, base, found.positions, found.end)
            &&& found.positions.len() == 0 ==> found.end == 24
            &&& found.end >= file.len() || !(segment::parse_record(file.skip(found.end)) matches Ok(
                (e, len),
            ) && e.offset == base + found.positions.len())
            &&& pos <= file.len() ==> found.end <= file.len()
            &&& pos <= found.end
        },
    decreases (if pos <= file.len() { file.len() - pos } else { 0 }),
{
    if pos < file.len() {
        segment::lemma_record_len(file.skip(pos));
        if let Ok((e, len)) = segment::parse_record(file.skip(pos)) {
            if base + positions.len() <= u64::MAX && e.offset == base + positions.len() && len > 0 {
                let more = positions.push(pos as u64);
                assert forall|i: int| 0 <= i < more.len() implies #[trigger] is_record_at(
                    file,
                    base,
                    more,
                    pos + len,
                    i,
                ) by {
                    if i < positions.len() {
                        assert(is_record_at(file, base, positions, pos, i));
                    }
                }
                lemma_recovered(file, base, more, pos + len);
            }
        }
    }
}

/// The good records of a data file without an index are those from byte 24 on that
/// stand one behind the other and have consecutive offsets from the segment's base
/// on; they end before the first that cannot be read or has another offset.
pub proof fn law_recovered_records(
    file: &[u8],
    base: u64,
    positions: Vec<u64>,
    end: u64,
    count: u64,
)
    requires
        call_ensures(
            segment::recover_active,
            (file, base),
            Ok::<(Vec<u64>, u64, u64), StorageError>((positions, end, count)),
        ),
        file@.len() <= u64::MAX,
    ensures
        count == positions@.len(),
        are_records(file@, base, positions@, end as int),
        positions@.len() == 0 ==> end == 24,
        24 <= file@.len() ==> end <= file@.len(),
        end >= file@.len() || !(segment::parse_record(file@.skip(end as int)) matches Ok((e, len))
            && e.offset == base + positions@.len()),
{
    lemma_recovered(file@, base, seq![], 24);
}

/// Whether a log was opened one segment further: the same inputs and then one more.
pub open spec fn goes_further(
    config: SegmentLogConfig,
    inputs: Vec<SegmentInput>,
    more: Vec<SegmentInput>,
    input: SegmentInput,
    now: u64,
    before: Opened,
    after: Opened,
) -> bool {
    &&& more@ == inputs@.push(input)
    &&& call_ensures(SegmentLog::open, (config, inputs, None::<Vec<u8>>, now), before)
    &&& call_ensures(SegmentLog::open, (config, more, None::<Vec<u8>>, now), after)
}

/// The opening behind a call.
proof fn lemma_further(
    config: SegmentLogConfig,
    inputs: Vec<SegmentInput>,
    more: Vec<SegmentInput>,
    input: SegmentInput,
    now: u64,
    before: Opened,
    after: Opened,
) -> (o: Opening)
    requires
        goes_further(config, inputs, more, input, now, before, after),
    ensures
        o.fixes == opening::fixes(before.actions@),
        match before.log {
            Ok(log) => o.error is None && o.log == log@,
            Err(e) => o.error == Some(e),
        },
        opening::open_step(o, input, now).fixes == opening::fixes(after.actions@),
        match after.log {
            Ok(log) => opening::open_step(o, input, now).error is None && opening::open_step(
                o,
                input,
                now,
            ).log == log@ && log.settings() == config,
            Err(e) => opening::open_step(o, input, now).error == Some(e),
        },
{
    assert(more@.drop_last() =~= inputs@);
    opening::open_steps(opening::unopened(), inputs@, now)
}

/// A fault is final: whatever comes behind it, the log cannot be opened, and
/// nothing more is done to the files.
pub proof fn law_a_fault_is_final(
    config: SegmentLogConfig,
    inputs: Vec<SegmentInput>,
    more: Vec<SegmentInput>,
    input: SegmentInput,
    now: u64,
    before: Opened,
    after: Opened,
)
    requires
        goes_further(config, inputs, more, input, now, before, after),
        before.log is Err,
    ensures
        after.log matches Err(e) && before.log == Err::<SegmentLog, StorageError>(e),
        opening::fixes(after.actions@) == opening::fixes(before.actions@),
{
    let o = lemma_further(config, inputs, more, input, now, before, after);
}

/// A complete segment is taken in where its index, its header and its last record
/// agree: then it has as many records as the index has positions, and the next
/// offset is behind them. One without records is passed over. Nothing is done to
/// its files.
pub proof fn law_a_complete_segment_is_found(
    config: SegmentLogConfig,
    inputs: Vec<SegmentInput>,
    more: Vec<SegmentInput>,
    input: SegmentInput,
    now: u64,
    before: Opened,
    after: Opened,
)
    requires
        goes_further(config, inputs, more, input, now, before, after),
        before.log is Ok,
        input is Closed,
    ensures
        opening::fixes(after.actions@) == opening::fixes(before.actions@),
        ({
            let base = input->Closed_base;
            let index = input->index@;
            let head = input->head@;
            let last = input->last@;
            let n = index.len() as int / 8;
            let m = before.log->Ok_0@;
            if index.len() > 268_435_456 {
                after.log == Err::<SegmentLog, StorageError>(
                    StorageError::Corrupted(Corruption::IndexTooLarge(index.len() as u64)),
                )
            } else if index.len() % 8 != 0 {
                after.log == Err::<SegmentLog, StorageError>(
                    StorageError::Corrupted(Corruption::IndexLength(index.len() as u64)),
                )
            } else if n == 0 {
                after.log matches Ok(log) && log@ == m
            } else if base + n > u64::MAX {
                after.log == Err::<SegmentLog, StorageError>(
                    StorageError::Corrupted(Corruption::OffsetOverflow { base }),
                )
            } else if segment::parse_header(head) is Err {
                after.log == Err::<SegmentLog, StorageError>(segment::parse_header(head)->Err_0)
            } else if octets::spelled(head, 8, 8) != base {
                after.log == Err::<SegmentLog, StorageError>(
                    StorageError::Corrupted(
                        Corruption::HeaderBase {
                            closed: true,
                            base,
                            found: octets::spelled(head, 8, 8) as u64,
                        },
                    ),
                )
            } else if segment::parse_record(last) is Err {
                after.log == Err::<SegmentLog, StorageError>(segment::parse_record(last)->Err_0)
            } else if octets::spelled(last, 4, 8) != base + n - 1 {
                after.log == Err::<SegmentLog, StorageError>(
                    StorageError::Corrupted(
                        Corruption::LastOffset {
                            base,
                            expected: (base + n - 1) as u64,
                            found: octets::spelled(last, 4, 8) as u64,
                        },
                    ),
                )
            } else {
                &&& after.log matches Ok(log) && log@.next == base + n && log@.active == m.active
                    && log@.poisoned == m.poisoned && log@.closed.len() == m.closed.len() + 1
                    && log@.closed.drop_last() == m.closed && is_found(
                    log@.closed.last(),
                    base,
                    index,
                    last,
                    input->size,
                )
            }
        }),
{
    let o = lemma_further(config, inputs, more, input, now, before, after);
    let head = input->head@;
    let last = input->last@;
    octets::lemma_spelled(head, 8);
    octets::lemma_spelled(last, 4);
    octets::lemma_spelled(last, 12);
    bytes::lemma_le_range(head, 8);
    bytes::lemma_le_range(last, 4);
    bytes::lemma_le_range(last, 12);
    if let Ok(log) = after.log {
        if log@.closed.len() > o.log.closed.len() {
            assert(log@.closed.drop_last() =~= o.log.closed);
            let index = input->index@;
            assert forall|i: int| 0 <= i < index.len() as int / 8 implies (
            #[trigger] segment::index_positions(index)[i]) == octets::spelled(index, 8 * i, 8) by {
                octets::lemma_spelled(index, 8 * i);
                bytes::lemma_le_range(index, 8 * i);
            }
        }
    }
}

/// What is known of a complete segment.
pub open spec fn is_found(
    c: ClosedModel,
    base: u64,
    index: Seq<u8>,
    last: Seq<u8>,
    size: u64,
) -> bool {
    &&& c.base == base
    &&& 8 * c.positions.len() == index.len()
    &&& c.last == base + c.positions.len() - 1
    &&& c.size == size
    &&& c.last_appended == octets::spelled(last, 12, 8)
    &&& forall|i: int|
        0 <= i < c.positions.len() ==> #[trigger] c.positions[i] == octets::spelled(index, 8 * i, 8)
}

/// A segment without an index may only be the last one: where one came before it
/// that has records, the log cannot be opened.
pub proof fn law_one_segment_without_an_index(
    config: SegmentLogConfig,
    inputs: Vec<SegmentInput>,
    more: Vec<SegmentInput>,
    input: SegmentInput,
    now: u64,
    before: Opened,
    after: Opened,
)
    requires
        goes_further(config, inputs, more, input, now, before, after),
        before.log matches Ok(log) && log@.active matches Some(a) && a.positions.len() > 0,
        input is Unindexed,
    ensures
        ({
            let prev = before.log->Ok_0@.active->Some_0;
            after.log == Err::<SegmentLog, StorageError>(
                StorageError::Corrupted(
                    Corruption::UnindexedSegment {
                        base: prev.base,
                        records: prev.positions.len() as u64,
                    },
                ),
            )
        }),
        opening::fixes(after.actions@) == opening::fixes(before.actions@),
{
    let o = lemma_further(config, inputs, more, input, now, before, after);
}

/// What is to be done to the file of a segment without records that turned out not
/// to be the last one.
pub open spec fn orphan(m: LogModel) -> Seq<OpenFix> {
    match m.active {
        Some(prev) => seq![OpenFix::RemoveOrphan(prev.base)],
        None => seq![],
    }
}

/// A data file that is too short for a header gets a fresh one, with the segment's
/// base and the time, and the segment has no records. An empty segment before it is
/// deleted.
pub proof fn law_a_torn_header_is_reset(
    config: SegmentLogConfig,
    inputs: Vec<SegmentInput>,
    more: Vec<SegmentInput>,
    input: SegmentInput,
    now: u64,
    before: Opened,
    after: Opened,
) -> (header: Seq<u8>)
    requires
        goes_further(config, inputs, more, input, now, before, after),
        before.log matches Ok(log) && (log@.active matches Some(a) ==> a.positions.len() == 0),
        input matches SegmentInput::Unindexed { base, data } && data@.len() < 24,
    ensures
        header.len() == 24,
        segment::parse_header(header) == Ok::<SegmentHeader, StorageError>(
            SegmentHeader { base_offset: input->Unindexed_base, created_at_ns: now },
        ),
        octets::spelled(header, 8, 8) == input->Unindexed_base,
        octets::spelled(header, 16, 8) == now,
        ({
            let base = input->Unindexed_base;
            let m = before.log->Ok_0@;
            &&& opening::fixes(after.actions@) == opening::fixes(before.actions@) + orphan(m).push(
                OpenFix::ResetHeader(base, header),
            )
            &&& after.log matches Ok(log) && log@ == (LogModel {
                active: Some(
                    ActiveModel {
                        base,
                        positions: seq![],
                        size: 0,
                        created: now,
                        next_pos: 24,
                        last_appended: 0,
                    },
                ),
                next: base,
                ..m
            })
        }),
{
    let o = lemma_further(config, inputs, more, input, now, before, after);
    let base = input->Unindexed_base;
    let h = SegmentHeader { base_offset: base, created_at_ns: now };
    let header = segment::header_bytes(h);
    segment::law_header_reads_back(h, seq![]);
    assert(header + seq![] =~= header);
    octets::lemma_spelled(header, 8);
    octets::lemma_spelled(header, 16);
    bytes::lemma_le_range(header, 8);
    bytes::lemma_le_range(header, 16);
    assert(opening::fixes(after.actions@) =~= opening::fixes(before.actions@) + orphan(
        before.log->Ok_0@,
    ).push(OpenFix::ResetHeader(base, header)));
    header
}

/// The segment without an index becomes the active one, with its good records; what
/// lies behind them is cut off. An empty segment before it is deleted. A header that
/// cannot be read, or that has another base, is a fault.
pub proof fn law_the_active_segment_is_found(
    config: SegmentLogConfig,
    inputs: Vec<SegmentInput>,
    more: Vec<SegmentInput>,
    input: SegmentInput,
    now: u64,
    before: Opened,
    after: Opened,
)
    requires
        goes_further(config, inputs, more, input, now, before, after),
        before.log matches Ok(log) && (log@.active matches Some(a) ==> a.positions.len() == 0),
        input matches SegmentInput::Unindexed { base, data } && 24 <= data@.len() <= u64::MAX,
    ensures
        ({
            let base = input->Unindexed_base;
            let data = input->data@;
            let m = before.log->Ok_0@;
            let header = segment::parse_header(data);
            if header is Err {
                after.log == Err::<SegmentLog, StorageError>(header->Err_0)
            } else if octets::spelled(data, 8, 8) != base {
                after.log == Err::<SegmentLog, StorageError>(
                    StorageError::Corrupted(
                        Corruption::HeaderBase {
                            closed: false,
                            base,
                            found: octets::spelled(data, 8, 8) as u64,
                        },
                    ),
                )
            } else {
                after.log matches Ok(log) ==> {
                    &&& log@.closed == m.closed
                    &&& log@.poisoned == m.poisoned
                    &&& log@.active matches Some(a) && is_recovered(a, base, data) && log@.next == base
                        + a.positions.len() && opening::fixes(after.actions@) == opening::fixes(
                        before.actions@,
                    ) + orphan(m) + (if a.next_pos < data.len() {
                        seq![OpenFix::Truncate(base, a.next_pos as int)]
                    } else {
                        seq![]
                    })
                }
            }
        }),
{
    let o = lemma_further(config, inputs, more, input, now, before, after);
    let base = input->Unindexed_base;
    let data = input->data@;
    octets::lemma_spelled(data, 8);
    octets::lemma_spelled(data, 16);
    bytes::lemma_le_range(data, 8);
    bytes::lemma_le_range(data, 16);
    if let Ok(log) = after.log {
        let a = log@.active->Some_0;
        lemma_recovered(data, base, seq![], 24);
        let found = segment::recovered(data, base, seq![], 24)->Ok_0;
        assert(segment::recovered(data, base, seq![], 24) is Ok);
        assert(0 <= found.end <= data.len());
        assert(a.next_pos == found.end);
        let fixed = opening::fixes(before.actions@) + orphan(before.log->Ok_0@);
        if a.next_pos < data.len() {
            assert(opening::fixes(after.actions@) =~= fixed + seq![
                OpenFix::Truncate(base, a.next_pos as int),
            ]);
        } else {
            assert(opening::fixes(after.actions@) =~= fixed + seq![]);
        }
        if a.positions.len() > 0 {
            let last = data.skip(a.positions.last() as int);
            octets::lemma_spelled(last, 12);
            bytes::lemma_le_range(last, 12);
        }
    }
}

/// What is known of the active segment: when it was begun, its good records and
/// where they end, how many bytes they take, and when the last one was appended.
pub open spec fn is_recovered(a: ActiveModel, base: u64, data: Seq<u8>) -> bool {
    &&& a.base == base
    &&& a.created == octets::spelled(data, 16, 8)
    &&& are_records(data, base, a.positions, a.next_pos as int)
    &&& a.positions.len() == 0 ==> a.next_pos == 24 && a.last_appended == 0
    &&& a.positions.len() > 0 ==> a.last_appended == octets::spelled(
        data.skip(a.positions.last() as int),
        12,
        8,
    )
    &&& 24 <= a.next_pos <= data.len()
    &&& a.size == a.next_pos - 24
    &&& a.next_pos >= data.len() || !(segment::parse_record(data.skip(a.next_pos as int)) matches Ok(
        (e, len),
    ) && e.offset == base + a.positions.len())
}

/// The watermark counts where no segment was found, and only there: then it says
/// which offset comes next.
pub proof fn law_watermark_counts_without_segments(
    config: SegmentLogConfig,
    inputs: Vec<SegmentInput>,
    watermark: Vec<u8>,
    now: u64,
    without: Opened,
    with: Opened,
)
    requires
        call_ensures(SegmentLog::open, (config, inputs, None::<Vec<u8>>, now), without),
        call_ensures(SegmentLog::open, (config, inputs, Some(watermark), now), with),
    ensures
        opening::fixes(with.actions@) == opening::fixes(without.actions@),
        match without.log {
            Err(e) => with.log == Err::<SegmentLog, StorageError>(e),
            Ok(log) => {
                let m = log@;
                with.log matches Ok(marked) && marked@ == if m.closed.len() == 0 && m.active is None
                    && m.next == 0 && watermark@.len() >= 8 {
                    LogModel { next: octets::spelled(watermark@, 0, 8) as u64, ..m }
                } else {
                    m
                }
            },
        },
{
    octets::lemma_spelled(watermark@, 0);
}

/// A log without any files is empty, and begins with offset 0.
pub proof fn law_nothing_found(config: SegmentLogConfig, inputs: Vec<SegmentInput>, now: u64, r: Opened)
    requires
        call_ensures(SegmentLog::open, (config, inputs, None::<Vec<u8>>, now), r),
        inputs@.len() == 0,
    ensures
        r.actions@.len() == 0,
        r.log matches Ok(log) && log@.closed.len() == 0 && log@.active is None && log@.next == 0
            && !log@.poisoned && log.settings() == config && log.pending() is None,
{
    assert(opening::fixes(r.actions@).len() == r.actions@.len());
}

} // verus!
