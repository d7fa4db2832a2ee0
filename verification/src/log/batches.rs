//! What becomes of a batch of events, step by step.

use vstd::prelude::*;
use vstd::utf8::*;

use crate::codec;
use crate::log::bytes;
use crate::log::entry::{EntryModel, Offset};
use crate::log::error::{Corruption, Misuse, StorageError};
use crate::log::octets;
use crate::log::segment;
use crate::log::segment::SegmentHeader;
use crate::log::state::appending;
use crate::log::state::appending::{
    AppendAction, AppendOutcome, AppendPhase, IoEvent, PendingBatch,
};
use crate::log::state::{ActiveModel, LogModel, SegmentLog};
use crate::model::event::OtkEvent;
use crate::wire::Wire;

verus! {

/// Whether entries are those of a batch: each event in order, under the next offset
/// that is free, with the time and the producer of the batch.
pub open spec fn is_batch(
    es: Seq<EntryModel>,
    next: u64,
    now: u64,
    producer: Seq<char>,
    events: Seq<OtkEvent>,
) -> bool {
    &&& es.len() == events.len()
    &&& forall|i: int|
        0 <= i < es.len() ==> (#[trigger] es[i]).offset == (next + i) as u64 && es[i].appended_at_ns
            == now && es[i].producer == producer && es[i].event == events[i].tree()
}

/// What is wrong with an event of a batch, if anything is: its offset, or one more
/// record of the segment, could not be numbered; its CBOR form takes more than
/// 4194304 bytes; its record would be too long; or the file would.
pub open spec fn event_fault(m: LogModel, a: ActiveModel, es: Seq<EntryModel>, i: int) -> Option<
    StorageError,
> {
    let n = codec::encoding(es[i].event).len();
    if m.next + i >= 0xffff_ffff_ffff_ffff || a.base + a.positions.len() + i
        >= 0xffff_ffff_ffff_ffff {
        Some(StorageError::InvalidInput(Misuse::OffsetsExhausted))
    } else if n > 4_194_304 {
        Some(StorageError::InvalidInput(Misuse::EventTooLarge(n as usize)))
    } else if 20 + n + encode_utf8(es[i].producer).len() > 0xffff_ffff {
        Some(StorageError::InvalidInput(Misuse::ProducerIdTooLong))
    } else if a.next_pos + segment::records_bytes(es.take(i + 1)).len() > 0xffff_ffff_ffff_ffff {
        Some(StorageError::InvalidInput(Misuse::SegmentFull))
    } else {
        None
    }
}

/// The first event with a fault decides.
proof fn lemma_first_fault(m: LogModel, es: Seq<EntryModel>, from: int)
    requires
        m.active is Some,
        0 <= from <= es.len(),
    ensures
        match appending::batch_faults(m, es, from) {
            None => forall|i: int|
                from <= i < es.len() ==> #[trigger] event_fault(m, m.active->Some_0, es, i) is None,
            Some(e) => exists|i: int|
                from <= i < es.len() && #[trigger] event_fault(m, m.active->Some_0, es, i) == Some(e)
                    && forall|j: int|
                    from <= j < i ==> #[trigger] event_fault(m, m.active->Some_0, es, j) is None,
        },
    decreases es.len() - from,
{
    let a = m.active->Some_0;
    if from < es.len() {
        assert(event_fault(m, a, es, from) == appending::batch_fault(m, es, from));
        if appending::batch_fault(m, es, from) is None {
            lemma_first_fault(m, es, from + 1);
            if let Some(e) = appending::batch_faults(m, es, from + 1) {
                let i = choose|i: int|
                    from + 1 <= i < es.len() && #[trigger] event_fault(m, a, es, i) == Some(e)
                        && forall|j: int|
                        from + 1 <= j < i ==> #[trigger] event_fault(m, a, es, j) is None;
                assert(event_fault(m, a, es, i) == Some(e));
            }
        }
    }
}

/// Whether a batch is on its way to the active segment: its records are to be
/// written behind those that are there, and synced where that is not left to the
/// operating system; or it is refused for the first event that has a fault.
pub open spec fn is_under_way(
    m: LogModel,
    a: ActiveModel,
    es: Seq<EntryModel>,
    now: u64,
    flush_interval_ms: u64,
    pending: Option<AppendPhase>,
    r: AppendAction,
) -> bool {
    if forall|i: int| 0 <= i < es.len() ==> #[trigger] event_fault(m, a, es, i) is None {
        &&& r matches AppendAction::Write { base, pos, bytes, sync } && base == a.base && pos
            == a.next_pos && bytes@ == segment::records_bytes(es) && sync == (flush_interval_ms == 0)
        &&& pending matches Some(AppendPhase::Writing(b)) && b.base == a.base && b.file_pos
            == a.next_pos && b.next_offset == m.next + es.len() && b.appended_at_ns == now
            && b.positions@.len() == es.len() && forall|i: int|
            0 <= i < es.len() ==> (#[trigger] b.positions@[i]) == a.next_pos
                + segment::records_bytes(es.take(i)).len()
    } else {
        &&& pending is None
        &&& exists|i: int|
            0 <= i < es.len() && (#[trigger] event_fault(m, a, es, i) matches Some(e) && r
                == AppendAction::Finish(AppendOutcome::Refused(e))) && forall|j: int|
                0 <= j < i ==> #[trigger] event_fault(m, a, es, j) is None
    }
}

/// A batch that is begun in a segment.
proof fn lemma_under_way(
    st: appending::AppendState,
    m: LogModel,
    config: crate::log::config::SegmentLogConfig,
    producer: Seq<char>,
    events: Seq<OtkEvent>,
    now: u64,
)
    requires
        m.active is Some,
        appending::batch_begun(st, m, config, producer, events, now),
    ensures
        is_batch(
            appending::batch_entries(m.next, now, producer, events),
            m.next,
            now,
            producer,
            events,
        ),
        st.log == m,
        is_under_way(
            m,
            m.active->Some_0,
            appending::batch_entries(m.next, now, producer, events),
            now,
            config.flush_interval_ms,
            st.pending,
            st.action,
        ),
{
    let es = appending::batch_entries(m.next, now, producer, events);
    let a = m.active->Some_0;
    lemma_first_fault(m, es, 0);
    if appending::batch_faults(m, es, 0) is None {
        if let Some(AppendPhase::Writing(b)) = st.pending {
            assert forall|i: int| 0 <= i < es.len() implies (#[trigger] b.positions@[i])
                == a.next_pos + segment::records_bytes(es.take(i)).len() by {
                assert(event_fault(m, a, es, i) is None);
                crate::log::layout::lemma_records_concat(es.take(i), es.skip(i).take(1));
                assert(es.take(i) + es.skip(i).take(1) =~= es.take(i + 1));
            }
        }
    }
}

/// A log that is out of step refuses every batch, and so does any log a batch
/// without events or without a producer. Nothing else is done then.
pub proof fn law_refused_batches(
    log: &mut SegmentLog,
    producer: &str,
    events: &[OtkEvent],
    now: u64,
    r: AppendAction,
)
    requires
        call_ensures(SegmentLog::append, (log, producer, events, now), r),
        old(log)@.poisoned || events@.len() == 0 || producer@.len() == 0,
    ensures
        final(log)@ == old(log)@,
        final(log).pending() is None,
        r == AppendAction::Finish(
            AppendOutcome::Refused(
                if old(log)@.poisoned {
                    StorageError::Corrupted(Corruption::Poisoned)
                } else if events@.len() == 0 {
                    StorageError::InvalidInput(Misuse::NoEvents)
                } else {
                    StorageError::InvalidInput(Misuse::NoProducerId)
                },
            ),
        ),
{
}

/// A batch for a log without an active segment begins one: at the next offset, with
/// a header that holds that offset and the time.
pub proof fn law_a_segment_is_begun(
    log: &mut SegmentLog,
    producer: &str,
    events: &[OtkEvent],
    now: u64,
    r: AppendAction,
)
    requires
        call_ensures(SegmentLog::append, (log, producer, events, now), r),
        !old(log)@.poisoned,
        events@.len() > 0,
        producer@.len() > 0,
        old(log)@.active is None,
    ensures
        final(log)@ == old(log)@,
        r matches AppendAction::Begin { base, header } && base == old(log)@.next && header@.len()
            == 24 && octets::spelled(header@, 8, 8) == old(log)@.next && octets::spelled(
            header@,
            16,
            8,
        ) == now,
        final(log).pending() matches Some(
            AppendPhase::Beginning { producer_id, events: kept, created_at_ns },
        ) && producer_id@ == producer@ && created_at_ns == now && kept@.len() == events@.len() && (
        forall|i: int|
            0 <= i < kept@.len() ==> (#[trigger] kept@[i]).tree() == events@[i].tree()),
{
    let h = SegmentHeader { base_offset: old(log)@.next, created_at_ns: now };
    if let AppendAction::Begin { base, header } = r {
        segment::law_header_reads_back(h, seq![]);
        assert(header@ + seq![] =~= header@);
        octets::lemma_spelled(header@, 8);
        octets::lemma_spelled(header@, 16);
        bytes::lemma_le_range(header@, 8);
        bytes::lemma_le_range(header@, 16);
    }
}

/// A batch for a log with an active segment goes there: each event under the next
/// free offset, with the time of the call and the producer's name.
pub proof fn law_a_batch_is_begun(
    log: &mut SegmentLog,
    producer: &str,
    events: &[OtkEvent],
    now: u64,
    r: AppendAction,
) -> (es: Seq<EntryModel>)
    requires
        call_ensures(SegmentLog::append, (log, producer, events, now), r),
        !old(log)@.poisoned,
        events@.len() > 0,
        producer@.len() > 0,
        old(log)@.active is Some,
    ensures
        is_batch(es, old(log)@.next, now, producer@, events@),
        final(log)@ == old(log)@,
        is_under_way(
            old(log)@,
            old(log)@.active->Some_0,
            es,
            now,
            old(log).settings().flush_interval_ms,
            final(log).pending(),
            r,
        ),
{
    lemma_under_way(
        appending::AppendState { log: final(log)@, pending: final(log).pending(), action: r },
        old(log)@,
        old(log).settings(),
        producer@,
        events@,
        now,
    );
    appending::batch_entries(old(log)@.next, now, producer@, events@)
}

/// Once a segment was begun for a batch, the segment is the active one, without
/// records, and the batch goes there as it would into any other.
pub proof fn law_a_begun_segment_takes_the_batch(
    log: &mut SegmentLog,
    event: IoEvent,
    now: u64,
    r: AppendAction,
) -> (es: Seq<EntryModel>)
    requires
        call_ensures(SegmentLog::resume, (log, event, now), r),
        old(log).pending() matches Some(AppendPhase::Beginning { .. }),
        event != IoEvent::Failed,
    ensures
        ({
            let begun = old(log).pending()->Some_0;
            let a = ActiveModel {
                base: old(log)@.next,
                positions: seq![],
                size: 0,
                created: begun->created_at_ns,
                next_pos: 24,
                last_appended: 0,
            };
            let m = LogModel { active: Some(a), ..old(log)@ };
            &&& is_batch(es, m.next, now, begun->producer_id@, begun->Beginning_events@)
            &&& final(log)@ == m
            &&& is_under_way(
                m,
                a,
                es,
                now,
                old(log).settings().flush_interval_ms,
                final(log).pending(),
                r,
            )
        }),
{
    let begun = old(log).pending()->Some_0;
    lemma_under_way(
        appending::AppendState { log: final(log)@, pending: final(log).pending(), action: r },
        appending::activated(old(log)@, begun->created_at_ns),
        old(log).settings(),
        begun->producer_id@,
        begun->Beginning_events@,
        now,
    );
    appending::batch_entries(old(log)@.next, now, begun->producer_id@, begun->Beginning_events@)
}

/// A batch counts once it was written and the end of the file is known: then its
/// records belong to the segment, the offsets behind them come next, and those who
/// wait are told. Where the end cannot be found out, the log is out of step with
/// its file from then on.
pub proof fn law_a_batch_counts(log: &mut SegmentLog, event: IoEvent, now: u64, r: AppendAction, b: PendingBatch)
    requires
        call_ensures(SegmentLog::resume, (log, event, now), r),
        old(log).pending() == Some(AppendPhase::Locating(b)),
        old(log)@.active is Some,
    ensures
        ({
            let m = old(log)@;
            let a = m.active->Some_0;
            match event {
                IoEvent::At(end) => {
                    &&& final(log)@.closed == m.closed
                    &&& final(log)@.poisoned == m.poisoned
                    &&& final(log)@.next == b.next_offset
                    &&& final(log)@.active matches Some(x) && x.base == a.base && x.created
                        == a.created && x.positions == a.positions + b.positions@ && x.next_pos
                        == end && x.last_appended == b.appended_at_ns && (end >= 24 ==> x.size
                        == end - 24)
                    &&& final(log).pending() == Some(AppendPhase::Waking)
                    &&& r == AppendAction::Wake
                },
                _ => {
                    &&& final(log)@ == (LogModel { poisoned: true, ..m })
                    &&& final(log).pending() is None
                    &&& r == AppendAction::Finish(AppendOutcome::Failed)
                },
            }
        }),
{
}

/// A segment is closed in this order: its records are synced, then comes the end
/// mark of four zeros behind them, which is synced too, then the index, then the
/// size is asked for, and then comes the watermark with the next offset; by then
/// the segment is a complete one, with its last record's offset and time.
pub proof fn law_closing(log: &mut SegmentLog, event: IoEvent, now: u64, r: AppendAction)
    requires
        call_ensures(SegmentLog::resume, (log, event, now), r),
        old(log)@.active is Some,
        old(log)@.active->Some_0.base + old(log)@.active->Some_0.positions.len() <= u64::MAX,
        event != IoEvent::Failed,
    ensures
        ({
            let m = old(log)@;
            let a = m.active->Some_0;
            match old(log).pending() {
                Some(AppendPhase::Syncing) => {
                    &&& final(log)@ == m
                    &&& final(log).pending() == Some(AppendPhase::Marking)
                    &&& r matches AppendAction::Mark { base, pos, bytes } && base == a.base && pos
                        == a.next_pos && bytes@ == seq![0u8, 0u8, 0u8, 0u8]
                },
                Some(AppendPhase::Marking) => {
                    &&& final(log)@ == m
                    &&& final(log).pending() == Some(AppendPhase::SyncingMark)
                    &&& r == AppendAction::SyncMark { base: a.base }
                },
                Some(AppendPhase::SyncingMark) => {
                    &&& final(log)@ == m
                    &&& final(log).pending() == Some(AppendPhase::Indexing)
                    &&& r matches AppendAction::WriteIndex { base, bytes } && base == a.base
                        && bytes@.len() == 8 * a.positions.len() && (forall|i: int|
                        0 <= i < a.positions.len() ==> octets::spelled(bytes@, 8 * i, 8)
                            == #[trigger] a.positions[i])
                },
                Some(AppendPhase::Indexing) => {
                    &&& final(log)@ == m
                    &&& final(log).pending() == Some(AppendPhase::Measuring)
                    &&& r == AppendAction::Measure { base: a.base }
                },
                Some(AppendPhase::Measuring) => {
                    &&& final(log)@.active is None
                    &&& final(log)@.next == m.next
                    &&& final(log)@.poisoned == m.poisoned
                    &&& final(log)@.closed.len() == m.closed.len() + 1
                    &&& final(log)@.closed.drop_last() == m.closed
                    &&& final(log)@.closed.last().base == a.base
                    &&& a.positions.len() > 0 ==> final(log)@.closed.last().last == a.base
                        + a.positions.len() - 1
                    &&& final(log)@.closed.last().last_appended == a.last_appended
                    &&& final(log)@.closed.last().positions == a.positions
                    &&& final(log)@.closed.last().size == match event {
                        IoEvent::At(size) => size,
                        _ => a.next_pos,
                    }
                    &&& final(log).pending() == Some(AppendPhase::Watermarking)
                    &&& r matches AppendAction::WriteWatermark { bytes } && bytes@.len() == 8
                        && octets::spelled(bytes@, 0, 8) == m.next
                },
                _ => true,
            }
        }),
{
    reveal(bytes::le4);
    let m = old(log)@;
    let a = m.active->Some_0;
    segment::lemma_index(a.positions);
    match r {
        AppendAction::WriteIndex { base, bytes } => {
            assert forall|i: int| 0 <= i < a.positions.len() && old(log).pending() == Some(
                AppendPhase::SyncingMark,
            ) implies octets::spelled(bytes@, 8 * i, 8) == #[trigger] a.positions[i] by {
                octets::lemma_spelled(bytes@, 8 * i);
            }
        },
        AppendAction::WriteWatermark { bytes } => {
            bytes::lemma_le8_len(m.next as int);
            bytes::lemma_le_read_back(seq![], m.next as int, seq![]);
            assert(seq![] + bytes::le8(m.next as int) + seq![] =~= bytes::le8(m.next as int));
            octets::lemma_spelled(bytes::le8(m.next as int), 0);
        },
        _ => {},
    }
    if old(log).pending() == Some(AppendPhase::Measuring) {
        assert(final(log)@.closed.drop_last() =~= m.closed);
    }
}

/// What was begun in vain is undone: a batch that could not be written is cut off
/// at the position where it was to begin, and an end mark that could not be synced
/// or indexed at its own; any other failure ends the append as it is. A failure
/// never changes what the log knows.
pub proof fn law_failures(log: &mut SegmentLog, now: u64, r: AppendAction)
    requires
        call_ensures(SegmentLog::resume, (log, IoEvent::Failed, now), r),
        old(log).pending() is Some,
        old(log)@.active is Some || old(log).pending()->Some_0 is Beginning || old(
            log,
        ).pending()->Some_0 is Watermarking || old(log).pending()->Some_0 is Evicting,
    ensures
        ({
            let m = old(log)@;
            let a = m.active->Some_0;
            match old(log).pending()->Some_0 {
                AppendPhase::Writing(b) => {
                    &&& final(log)@ == m
                    &&& final(log).pending() == Some(AppendPhase::Undoing)
                    &&& r == AppendAction::CutBack { base: b.base, len: b.file_pos }
                },
                AppendPhase::SyncingMark | AppendPhase::Indexing => {
                    &&& final(log)@ == m
                    &&& final(log).pending() == Some(AppendPhase::Undoing)
                    &&& r == AppendAction::CutBack { base: a.base, len: a.next_pos }
                },
                AppendPhase::Locating(_) | AppendPhase::Waking | AppendPhase::Measuring => true,
                _ => {
                    &&& final(log)@ == m
                    &&& final(log).pending() is None
                    &&& r == AppendAction::Finish(AppendOutcome::Failed)
                },
            }
        }),
{
}

/// Segments are deleted one by one, the oldest first; when all are gone that are
/// not kept, the append is over, and says which offset its last event has.
pub proof fn law_deleting(
    log: &mut SegmentLog,
    event: IoEvent,
    now: u64,
    r: AppendAction,
    left: usize,
)
    requires
        call_ensures(SegmentLog::resume, (log, event, now), r),
        old(log).pending() == Some(AppendPhase::Evicting { left }),
        0 < left <= old(log)@.closed.len(),
        event != IoEvent::Failed,
    ensures
        final(log)@ == (LogModel { closed: old(log)@.closed.skip(1), ..old(log)@ }),
        if left > 1 {
            &&& final(log).pending() == Some(AppendPhase::Evicting { left: (left - 1) as usize })
            &&& r == AppendAction::DeleteSegment { base: old(log)@.closed[1].base }
        } else {
            &&& final(log).pending() is None
            &&& r == AppendAction::Finish(
                AppendOutcome::Appended(Offset((old(log)@.next - 1) as u64)),
            )
        },
{
}

} // verus!
