//! Appending to a log, closing its segments, and how long they are kept.

use vstd::pervasive::unreached;
use vstd::prelude::*;

use crate::codec;
use crate::log::bytes;
use crate::log::config::SegmentLogConfig;
use crate::log::entry::{EntryModel, LogEntry, Offset, RetentionPolicy};
use crate::log::error::{Corruption, Misuse, StorageError};
use crate::log::layout;
use crate::log::segment;
use crate::log::segment::{
    write_end_mark, write_index, write_record, write_watermark, SegmentHeader, HEADER_LEN,
};
use crate::log::state;
use crate::log::state::{ActiveModel, ActiveSegment, ClosedModel, ClosedSegment, LogModel, SegmentLog};
use crate::model::event::OtkEvent;
use crate::wire::Wire;

verus! {

/// A number of seconds in nanoseconds, as far as they fit.
pub open spec fn secs_ns(secs: u64) -> int {
    if secs * 1_000_000_000 > u64::MAX {
        u64::MAX as int
    } else {
        secs * 1_000_000_000
    }
}

/// A number of seconds in nanoseconds.
fn seconds_in_ns(secs: u64) -> (r: u64)
    ensures
        r == secs_ns(secs),
{
    let ns: u128 = secs as u128 * 1_000_000_000;
    if ns > u64::MAX as u128 {
        u64::MAX
    } else {
        ns as u64
    }
}

/// A batch that is being written.
#[derive(Debug)]
pub struct PendingBatch {
    /// The segment that the batch goes to.
    pub base: u64,
    /// Where the bytes go in the data file.
    pub file_pos: u64,
    /// Where the records will stand.
    pub positions: Vec<u64>,
    /// The offset that comes after the batch.
    pub next_offset: u64,
    pub appended_at_ns: u64,
}

/// How far an append has come.
#[derive(Debug)]
pub enum AppendPhase {
    /// A segment is being begun.
    Beginning { producer_id: String, events: Vec<OtkEvent>, created_at_ns: u64 },
    /// The batch is being written.
    Writing(PendingBatch),
    /// The batch was written, and the end of the data file is being asked for.
    Locating(PendingBatch),
    /// The batch is there, and those who wait are being told.
    Waking,
    /// The active segment is being closed: its records are being synced, ...
    Syncing,
    /// ... its end mark written ...
    Marking,
    /// ... and synced, ...
    SyncingMark,
    /// ... its index written, ...
    Indexing,
    /// ... and its size asked for.
    Measuring,
    /// The watermark is being written.
    Watermarking,
    /// Segments that are not kept any more are being deleted.
    Evicting { left: usize },
    /// What was written in vain is being cut off.
    Undoing,
}

/// What is to be done next for an append.
#[derive(Debug)]
pub enum AppendAction {
    /// Make a data file with this header.
    Begin { base: u64, header: Vec<u8> },
    /// Write the bytes at this position, and sync the file if that is asked for.
    Write { base: u64, pos: u64, bytes: Vec<u8>, sync: bool },
    /// Say where the data file ends.
    Locate { base: u64 },
    /// Tell those who wait for entries.
    Wake,
    /// Sync the data file.
    Sync { base: u64 },
    /// Write the end mark at this position.
    Mark { base: u64, pos: u64, bytes: Vec<u8> },
    /// Sync the end mark.
    SyncMark { base: u64 },
    /// Put an index file with these bytes in place.
    WriteIndex { base: u64, bytes: Vec<u8> },
    /// Say how large the data file is.
    Measure { base: u64 },
    /// Put a watermark file with these bytes in place.
    WriteWatermark { bytes: Vec<u8> },
    /// Delete the data file, and then the index file. That there is none is no
    /// failure, nor is it one that the index file cannot be deleted.
    DeleteSegment { base: u64 },
    /// Cut the data file off at this length, if possible.
    CutBack { base: u64, len: u64 },
    /// Nothing: the append is over.
    Finish(AppendOutcome),
}

/// How an append ended.
#[derive(Debug, Clone, Copy, PartialEq, Eq, Structural)]
pub enum AppendOutcome {
    /// All events were appended; this is the offset of the last one.
    Appended(Offset),
    /// The events cannot be appended.
    Refused(StorageError),
    /// Something could not be done to the files. Where the batch had been
    /// written by then, its events were appended all the same.
    Failed,
}

/// What came of an action.
#[derive(Debug, Clone, Copy, PartialEq, Eq, Structural)]
pub enum IoEvent {
    Done,
    Failed,
    /// It was done, and this is the position or the size that was asked for.
    At(u64),
}

/// The entries of a batch.
pub open spec fn batch_entries(
    next: u64,
    now: u64,
    producer: Seq<char>,
    events: Seq<OtkEvent>,
) -> Seq<EntryModel> {
    Seq::new(
        events.len(),
        |i: int|
            EntryModel {
                offset: (next + i) as u64,
                appended_at_ns: now,
                producer,
                event: events[i].tree(),
            },
    )
}

/// Where the records of a batch stand that is written at `pos`.
pub open spec fn batch_positions(pos: u64, es: Seq<EntryModel>) -> Seq<u64> {
    Seq::new(es.len(), |i: int| (pos + segment::records_bytes(es.take(i)).len()) as u64)
}

/// Why the event with number `i` of a batch cannot be appended, where those
/// before it can.
pub open spec fn batch_fault(m: LogModel, es: Seq<EntryModel>, i: int) -> Option<StorageError>
    recommends
        m.active is Some,
{
    let a = m.active->Some_0;
    if m.next + i >= u64::MAX || a.base + a.positions.len() + i >= u64::MAX {
        Some(StorageError::InvalidInput(Misuse::OffsetsExhausted))
    } else if codec::encoding(es[i].event).len() > segment::MAX_EVENT_CBOR {
        Some(
            StorageError::InvalidInput(
                Misuse::EventTooLarge(codec::encoding(es[i].event).len() as usize),
            ),
        )
    } else if !segment::storable(es[i]) {
        Some(StorageError::InvalidInput(Misuse::ProducerIdTooLong))
    } else if a.next_pos + segment::records_bytes(es.take(i + 1)).len() > u64::MAX {
        Some(StorageError::InvalidInput(Misuse::SegmentFull))
    } else {
        None
    }
}

/// Why a batch cannot be appended from the event with number `i` on: the first
/// fault there is.
pub open spec fn batch_faults(m: LogModel, es: Seq<EntryModel>, i: int) -> Option<StorageError>
    decreases es.len() - i,
{
    if 0 <= i < es.len() {
        match batch_fault(m, es, i) {
            Some(e) => Some(e),
            None => batch_faults(m, es, i + 1),
        }
    } else {
        None
    }
}

/// A batch without a fault has none at any event.
pub proof fn lemma_no_fault(m: LogModel, es: Seq<EntryModel>, i: int, k: int)
    requires
        batch_faults(m, es, i) is None,
        0 <= i <= k < es.len(),
    ensures
        batch_fault(m, es, k) is None,
    decreases k - i,
{
    if i < k {
        lemma_no_fault(m, es, i + 1, k);
    }
}

/// A log after a batch was written to its file, which now ends at `end`.
pub open spec fn committed(m: LogModel, positions: Seq<u64>, next: u64, now: u64, end: u64) -> LogModel
    recommends
        m.active is Some,
{
    let a = m.active->Some_0;
    LogModel {
        active: Some(
            ActiveModel {
                positions: a.positions + positions,
                next_pos: end,
                size: (if end >= HEADER_LEN {
                    end - HEADER_LEN
                } else {
                    0
                }) as u64,
                last_appended: now,
                ..a
            },
        ),
        next,
        ..m
    }
}

/// A log with a fresh segment.
pub open spec fn activated(m: LogModel, now: u64) -> LogModel {
    LogModel {
        active: Some(
            ActiveModel {
                base: m.next,
                positions: seq![],
                size: 0,
                created: now,
                next_pos: HEADER_LEN,
                last_appended: 0,
            },
        ),
        ..m
    }
}

/// A log whose active segment was closed; its data file has the given size.
pub open spec fn rolled(m: LogModel, size: u64) -> LogModel
    recommends
        m.active is Some,
{
    let a = m.active->Some_0;
    LogModel {
        closed: m.closed.push(
            ClosedModel {
                base: a.base,
                last: (a.base + a.positions.len() - 1) as u64,
                last_appended: a.last_appended,
                size,
                positions: a.positions,
            },
        ),
        active: None,
        ..m
    }
}

/// How many of the oldest segments, from number `k` on, were last appended to
/// before `cutoff`, with the `k` before them.
pub open spec fn expired(closed: Seq<ClosedModel>, cutoff: int, k: int) -> int
    decreases closed.len() - k,
{
    if 0 <= k < closed.len() && closed[k].last_appended < cutoff {
        expired(closed, cutoff, k + 1)
    } else {
        k
    }
}

/// The size of all segments from number `k` on.
pub open spec fn total_size(closed: Seq<ClosedModel>, k: int) -> int
    decreases closed.len() - k,
{
    if 0 <= k < closed.len() {
        closed[k].size + total_size(closed, k + 1)
    } else {
        0
    }
}

/// How many of the oldest segments have to go, at least `k`, so that the
/// others and the active one take no more than `max` bytes, or none is left.
pub open spec fn oversize(closed: Seq<ClosedModel>, active_size: int, max: int, k: int) -> int
    decreases closed.len() - k,
{
    if 0 <= k < closed.len() && total_size(closed, k) + active_size > max {
        oversize(closed, active_size, max, k + 1)
    } else {
        k
    }
}

/// The time before which a segment's last record is too old.
pub open spec fn cutoff(now: u64, max_age_secs: u64) -> int {
    if now >= secs_ns(max_age_secs) {
        now - secs_ns(max_age_secs)
    } else {
        0
    }
}

/// The size of the active segment.
pub open spec fn active_size(m: LogModel) -> int {
    match m.active {
        Some(a) => a.size as int,
        None => 0,
    }
}

/// How many of the oldest segments are not to be kept any more.
pub open spec fn evictable(m: LogModel, policy: RetentionPolicy, now: u64) -> int {
    match policy {
        RetentionPolicy::Indefinite => 0,
        RetentionPolicy::TimeBased { max_age_secs } => expired(
            m.closed,
            cutoff(now, max_age_secs),
            0,
        ),
        RetentionPolicy::SizeBased { max_bytes } => oversize(
            m.closed,
            active_size(m),
            max_bytes as int,
            0,
        ),
        RetentionPolicy::Hybrid { max_age_secs, max_bytes } => oversize(
            m.closed,
            active_size(m),
            max_bytes as int,
            expired(m.closed, cutoff(now, max_age_secs), 0),
        ),
    }
}

/// Whether the active segment is to be closed: it is large or old enough.
pub open spec fn rolls(m: LogModel, config: SegmentLogConfig, now: u64) -> bool {
    m.active matches Some(a) && (a.size >= config.max_segment_bytes || (if now >= a.created {
        now - a.created
    } else {
        0
    }) >= secs_ns(config.max_segment_age_secs))
}

/// Why a batch is refused before anything is done.
pub open spec fn append_refusal(m: LogModel, producer: Seq<char>, events: int) -> Option<
    StorageError,
> {
    if m.poisoned {
        Some(StorageError::Corrupted(Corruption::Poisoned))
    } else if events == 0 {
        Some(StorageError::InvalidInput(Misuse::NoEvents))
    } else if producer.len() == 0 {
        Some(StorageError::InvalidInput(Misuse::NoProducerId))
    } else {
        None
    }
}

/// A batch goes behind the records of the active segment, and its own can be
/// numbered.
pub open spec fn batch_wf(m: LogModel, b: PendingBatch) -> bool {
    &&& m.active matches Some(a) && a.base == b.base && a.next_pos == b.file_pos && a.base
        + a.positions.len() + b.positions@.len() <= u64::MAX
    &&& b.positions@.len() > 0
    &&& b.next_offset > 0
}

/// An append that is under way fits the log.
pub open spec fn phase_wf(m: LogModel, phase: AppendPhase) -> bool {
    match phase {
        AppendPhase::Beginning { events, .. } => m.active is None && events@.len() > 0,
        AppendPhase::Writing(b) => batch_wf(m, b),
        AppendPhase::Locating(b) => batch_wf(m, b),
        AppendPhase::Waking
        | AppendPhase::Syncing
        | AppendPhase::Marking
        | AppendPhase::SyncingMark
        | AppendPhase::Indexing
        | AppendPhase::Measuring => m.next > 0 && (m.active matches Some(a) && a.positions.len()
            > 0),
        AppendPhase::Watermarking => m.next > 0,
        AppendPhase::Evicting { left } => m.next > 0 && 0 < left <= m.closed.len(),
        AppendPhase::Undoing => true,
    }
}

/// Where an append stands: the log, what is under way, and what is to be done.
pub struct AppendState {
    pub log: LogModel,
    pub pending: Option<AppendPhase>,
    pub action: AppendAction,
}

/// The append is over.
pub open spec fn over(m: LogModel, outcome: AppendOutcome) -> AppendState {
    AppendState { log: m, pending: None, action: AppendAction::Finish(outcome) }
}

/// The append is over, and all events were appended.
pub open spec fn appended(m: LogModel) -> AppendState {
    over(m, AppendOutcome::Appended(Offset((m.next - 1) as u64)))
}

/// The append goes on.
pub open spec fn going(m: LogModel, phase: AppendPhase, action: AppendAction) -> AppendState {
    AppendState { log: m, pending: Some(phase), action }
}

/// The append cuts off what was written in vain.
pub open spec fn undoing(m: LogModel, base: u64, len: u64) -> AppendState {
    going(m, AppendPhase::Undoing, AppendAction::CutBack { base, len })
}

/// The batch is to be written, or it is refused.
pub open spec fn batch_begun(
    st: AppendState,
    m: LogModel,
    config: SegmentLogConfig,
    producer: Seq<char>,
    events: Seq<OtkEvent>,
    now: u64,
) -> bool {
    let a = m.active->Some_0;
    let es = batch_entries(m.next, now, producer, events);
    match batch_faults(m, es, 0) {
        Some(e) => st == over(m, AppendOutcome::Refused(e)),
        None => {
            &&& st.log == m
            &&& st.pending matches Some(AppendPhase::Writing(b)) && b.base == a.base && b.file_pos
                == a.next_pos && b.positions@ == batch_positions(a.next_pos, es) && b.next_offset
                == m.next + es.len() && b.appended_at_ns == now
            &&& st.action matches AppendAction::Write { base, pos, bytes, sync } && base == a.base
                && pos == a.next_pos && bytes@ == segment::records_bytes(es) && sync == (
            config.flush_interval_ms == 0)
            &&& forall|i: int| 0 <= i < es.len() ==> layout::good(#[trigger] es[i])
        },
    }
}

/// The same events.
pub open spec fn same_events(a: Seq<OtkEvent>, b: Seq<OtkEvent>) -> bool {
    a.len() == b.len() && forall|i: int|
        0 <= i < a.len() ==> (#[trigger] a[i]).tree() == b[i].tree()
}

/// An append has been begun.
pub open spec fn append_begun(
    st: AppendState,
    m: LogModel,
    config: SegmentLogConfig,
    producer: Seq<char>,
    events: Seq<OtkEvent>,
    now: u64,
) -> bool {
    match append_refusal(m, producer, events.len() as int) {
        Some(e) => st == over(m, AppendOutcome::Refused(e)),
        None => match m.active {
            Some(_) => batch_begun(st, m, config, producer, events, now),
            None => {
                &&& st.log == m
                &&& st.pending matches Some(
                    AppendPhase::Beginning { producer_id, events: kept, created_at_ns },
                ) && producer_id@ == producer && same_events(kept@, events) && created_at_ns == now
                &&& st.action matches AppendAction::Begin { base, header } && base == m.next
                    && header@ == segment::header_bytes(
                    SegmentHeader { base_offset: m.next, created_at_ns: now },
                )
            },
        },
    }
}

/// The oldest `k` segments are to be deleted.
pub open spec fn evicting(m: LogModel, k: int) -> AppendState {
    if k == 0 {
        appended(m)
    } else {
        going(
            m,
            AppendPhase::Evicting { left: k as usize },
            AppendAction::DeleteSegment { base: m.closed[0].base },
        )
    }
}

/// A log without its oldest segment.
pub open spec fn evicted(m: LogModel) -> LogModel {
    LogModel { closed: m.closed.skip(1), ..m }
}

/// An append has gone on, after what came of the last action.
pub open spec fn append_resumed(
    st: AppendState,
    m: LogModel,
    config: SegmentLogConfig,
    phase: AppendPhase,
    event: IoEvent,
    now: u64,
) -> bool {
    let failed = over(m, AppendOutcome::Failed);
    let a = m.active->Some_0;
    match phase {
        AppendPhase::Beginning { producer_id, events, created_at_ns } => if event == IoEvent::Failed {
            st == failed
        } else {
            batch_begun(st, activated(m, created_at_ns), config, producer_id@, events@, now)
        },
        AppendPhase::Writing(b) => st == if event == IoEvent::Failed {
            undoing(m, b.base, b.file_pos)
        } else {
            going(m, AppendPhase::Locating(b), AppendAction::Locate { base: b.base })
        },
        AppendPhase::Locating(b) => st == match event {
            IoEvent::At(end) => going(
                committed(m, b.positions@, b.next_offset, b.appended_at_ns, end),
                AppendPhase::Waking,
                AppendAction::Wake,
            ),
            _ => over(LogModel { poisoned: true, ..m }, AppendOutcome::Failed),
        },
        AppendPhase::Waking => st == if rolls(m, config, now) {
            going(m, AppendPhase::Syncing, AppendAction::Sync { base: a.base })
        } else {
            appended(m)
        },
        AppendPhase::Syncing => if event == IoEvent::Failed {
            st == failed
        } else {
            &&& st.log == m && st.pending == Some(AppendPhase::Marking)
            &&& st.action matches AppendAction::Mark { base, pos, bytes } && base == a.base && pos
                == a.next_pos && bytes@ == segment::end_mark()
        },
        AppendPhase::Marking => st == if event == IoEvent::Failed {
            failed
        } else {
            going(m, AppendPhase::SyncingMark, AppendAction::SyncMark { base: a.base })
        },
        AppendPhase::SyncingMark => if event == IoEvent::Failed {
            st == undoing(m, a.base, a.next_pos)
        } else {
            &&& st.log == m && st.pending == Some(AppendPhase::Indexing)
            &&& st.action matches AppendAction::WriteIndex { base, bytes } && base == a.base
                && bytes@ == segment::index_bytes(a.positions)
        },
        AppendPhase::Indexing => st == if event == IoEvent::Failed {
            undoing(m, a.base, a.next_pos)
        } else {
            going(m, AppendPhase::Measuring, AppendAction::Measure { base: a.base })
        },
        AppendPhase::Measuring => {
            &&& st.log == rolled(
                m,
                match event {
                    IoEvent::At(size) => size,
                    _ => a.next_pos,
                },
            )
            &&& st.pending == Some(AppendPhase::Watermarking)
            &&& st.action matches AppendAction::WriteWatermark { bytes } && bytes@ == bytes::le8(
                m.next as int,
            )
        },
        AppendPhase::Watermarking => st == if event == IoEvent::Failed {
            failed
        } else {
            evicting(m, evictable(m, config.retention, now))
        },
        AppendPhase::Evicting { left } => st == if event == IoEvent::Failed {
            failed
        } else {
            evicting(evicted(m), left - 1)
        },
        AppendPhase::Undoing => st == failed,
    }
}

impl SegmentLog {
    /// Begins to append a batch of events, and says what is to be done first.
    ///
    /// Once it was done, or has failed, [`SegmentLog::resume`] is told so, until
    /// it says that the append is over. An append that was begun and given up
    /// makes room for the next one.
    pub fn append(&mut self, producer_id: &str, events: &[OtkEvent], now: u64) -> (r: AppendAction)
        requires
            old(self).wf(),
        ensures
            final(self).wf(),
            final(self).settings() == old(self).settings(),
            append_begun(
                AppendState { log: final(self)@, pending: final(self).pending(), action: r },
                old(self)@,
                old(self).settings(),
                producer_id@,
                events@,
                now,
            ),
    {
        self.phase = None;
        if self.poisoned {
            return refused_action(StorageError::Corrupted(Corruption::Poisoned));
        }
        if events.len() == 0 {
            return refused_action(StorageError::InvalidInput(Misuse::NoEvents));
        }
        if producer_id.is_empty() {
            return refused_action(StorageError::InvalidInput(Misuse::NoProducerId));
        }
        if self.active.is_some() {
            return self.begin_batch(producer_id, events, now);
        }
        let header = SegmentHeader { base_offset: self.next_offset, created_at_ns: now };
        self.phase = Some(
            AppendPhase::Beginning {
                producer_id: producer_id.to_owned(),
                events: keep_events(events),
                created_at_ns: now,
            },
        );
        AppendAction::Begin { base: self.next_offset, header: header.write() }
    }

    /// Goes on with an append: takes in what came of the last action, and says
    /// what is to be done next.
    pub fn resume(&mut self, event: IoEvent, now: u64) -> (r: AppendAction)
        requires
            old(self).wf(),
            old(self).pending() is Some,
        ensures
            final(self).wf(),
            final(self).settings() == old(self).settings(),
            append_resumed(
                AppendState { log: final(self)@, pending: final(self).pending(), action: r },
                old(self)@,
                old(self).settings(),
                old(self).pending()->Some_0,
                event,
                now,
            ),
    {
        let phase = match self.phase.take() {
            Some(phase) => phase,
            None => unreached(),
        };
        let failed = event == IoEvent::Failed;
        match phase {
            AppendPhase::Beginning { producer_id, events, created_at_ns } => {
                if failed {
                    return failed_action();
                }
                self.ensure_active(created_at_ns);
                self.begin_batch(producer_id.as_str(), events.as_slice(), now)
            },
            AppendPhase::Writing(batch) => {
                if failed {
                    return self.undo(batch.base, batch.file_pos);
                }
                let base: u64 = batch.base;
                self.phase = Some(AppendPhase::Locating(batch));
                AppendAction::Locate { base }
            },
            AppendPhase::Locating(batch) => match event {
                IoEvent::At(end) => {
                    self.commit(batch, end);
                    self.phase = Some(AppendPhase::Waking);
                    AppendAction::Wake
                },
                _ => {
                    self.poisoned = true;
                    failed_action()
                },
            },
            AppendPhase::Waking => {
                if self.should_roll(now) {
                    self.phase = Some(AppendPhase::Syncing);
                    AppendAction::Sync { base: self.active_base() }
                } else {
                    self.finish()
                }
            },
            AppendPhase::Syncing => {
                if failed {
                    return failed_action();
                }
                self.phase = Some(AppendPhase::Marking);
                AppendAction::Mark {
                    base: self.active_base(),
                    pos: self.active_end(),
                    bytes: write_end_mark(),
                }
            },
            AppendPhase::Marking => {
                if failed {
                    return failed_action();
                }
                self.phase = Some(AppendPhase::SyncingMark);
                AppendAction::SyncMark { base: self.active_base() }
            },
            AppendPhase::SyncingMark => {
                if failed {
                    return self.undo(self.active_base(), self.active_end());
                }
                self.phase = Some(AppendPhase::Indexing);
                AppendAction::WriteIndex { base: self.active_base(), bytes: self.active_index() }
            },
            AppendPhase::Indexing => {
                if failed {
                    return self.undo(self.active_base(), self.active_end());
                }
                self.phase = Some(AppendPhase::Measuring);
                AppendAction::Measure { base: self.active_base() }
            },
            AppendPhase::Measuring => {
                let size: u64 = match event {
                    IoEvent::At(size) => size,
                    _ => self.active_end(),
                };
                self.close_active(size);
                self.phase = Some(AppendPhase::Watermarking);
                AppendAction::WriteWatermark { bytes: write_watermark(self.next_offset) }
            },
            AppendPhase::Watermarking => {
                if failed {
                    return failed_action();
                }
                let left: usize = self.enforce_retention(now);
                self.evict(left)
            },
            AppendPhase::Evicting { left } => {
                if failed {
                    return failed_action();
                }
                self.evict_oldest();
                self.evict(left - 1)
            },
            AppendPhase::Undoing => failed_action(),
        }
    }
}

/// The append is over: the events are refused.
fn refused_action(e: StorageError) -> (r: AppendAction)
    ensures
        r == AppendAction::Finish(AppendOutcome::Refused(e)),
{
    AppendAction::Finish(AppendOutcome::Refused(e))
}

/// The append is over: something could not be done.
fn failed_action() -> (r: AppendAction)
    ensures
        r == AppendAction::Finish(AppendOutcome::Failed),
{
    AppendAction::Finish(AppendOutcome::Failed)
}

/// Keeps events for later.
fn keep_events(events: &[OtkEvent]) -> (r: Vec<OtkEvent>)
    ensures
        same_events(r@, events@),
{
    let mut kept: Vec<OtkEvent> = Vec::new();
    let mut i: usize = 0;
    while i < events.len()
        invariant
            i <= events@.len(),
            kept@.len() == i,
            forall|k: int| 0 <= k < i ==> (#[trigger] kept@[k]).tree() == events@[k].tree(),
        decreases events@.len() - i,
    {
        kept.push(events[i].clone());
        i = i + 1;
    }
    kept
}

impl SegmentLog {
    /// The append is over, and all events were appended.
    fn finish(&self) -> (r: AppendAction)
        requires
            self@.next > 0,
        ensures
            r == appended(self@).action,
    {
        AppendAction::Finish(AppendOutcome::Appended(Offset::new(self.next_offset - 1)))
    }

    /// Cuts off what was written in vain.
    fn undo(&mut self, base: u64, len: u64) -> (r: AppendAction)
        requires
            old(self).wf(),
        ensures
            final(self).wf(),
            final(self).settings() == old(self).settings(),
            (AppendState { log: final(self)@, pending: final(self).pending(), action: r })
                == undoing(old(self)@, base, len),
    {
        self.phase = Some(AppendPhase::Undoing);
        AppendAction::CutBack { base, len }
    }

    /// The base offset of the active segment.
    fn active_base(&self) -> (r: u64)
        requires
            self@.active is Some,
        ensures
            r == self@.active->Some_0.base,
    {
        match &self.active {
            Some(a) => a.base_offset,
            None => unreached(),
        }
    }

    /// Where the records of the active segment end.
    fn active_end(&self) -> (r: u64)
        requires
            self@.active is Some,
        ensures
            r == self@.active->Some_0.next_pos,
    {
        match &self.active {
            Some(a) => a.next_file_pos,
            None => unreached(),
        }
    }

    /// The index of the active segment.
    fn active_index(&self) -> (r: Vec<u8>)
        requires
            self@.active is Some,
        ensures
            r@ == segment::index_bytes(self@.active->Some_0.positions),
    {
        match &self.active {
            Some(a) => write_index(a.positions.as_slice()),
            None => unreached(),
        }
    }

    /// The header of the fresh segment was written.
    fn ensure_active(&mut self, now: u64)
        requires
            old(self).wf(),
            old(self).pending() is None,
            old(self)@.active is None,
        ensures
            final(self).wf(),
            final(self).pending() is None,
            final(self).settings() == old(self).settings(),
            final(self)@ == activated(old(self)@, now),
    {
        self.active = Some(
            ActiveSegment {
                base_offset: self.next_offset,
                positions: Vec::new(),
                byte_size: 0,
                created_at_ns: now,
                next_file_pos: HEADER_LEN,
                last_appended_at_ns: 0,
            },
        );
        assert(self.active->Some_0@.positions =~= seq![]);
    }

    /// Encodes a batch for the active segment. The first event that cannot be
    /// appended refuses the batch.
    fn begin_batch(&mut self, producer_id: &str, events: &[OtkEvent], now: u64) -> (r: AppendAction)
        requires
            old(self).wf(),
            old(self).pending() is None,
            old(self)@.active is Some,
            events@.len() > 0,
        ensures
            final(self).wf(),
            final(self).settings() == old(self).settings(),
            batch_begun(
                AppendState { log: final(self)@, pending: final(self).pending(), action: r },
                old(self)@,
                old(self).settings(),
                producer_id@,
                events@,
                now,
            ),
    {
        let ghost m = self@;
        let ghost es = batch_entries(m.next, now, producer_id@, events@);
        let (base, count, file_pos): (u64, u64, u64) = match &self.active {
            Some(a) => (a.base_offset, a.positions.len() as u64, a.next_file_pos),
            None => (0, 0, 0),
        };
        let first: u64 = self.next_offset;
        let mut bytes: Vec<u8> = Vec::new();
        let mut positions: Vec<u64> = Vec::new();
        let mut i: usize = 0;
        proof {
            assert(es.take(0) =~= seq![]);
            assert(bytes@ =~= segment::records_bytes(es.take(0)));
        }
        while i < events.len()
            invariant
                self@ == m,
                self.wf(),
                self.pending() is None,
                self.settings() == old(self).settings(),
                m.active is Some,
                first == m.next,
                base == m.active->Some_0.base,
                count == m.active->Some_0.positions.len(),
                file_pos == m.active->Some_0.next_pos,
                es == batch_entries(m.next, now, producer_id@, events@),
                i <= events@.len(),
                m == old(self)@,
                batch_faults(m, es, 0) == batch_faults(m, es, i as int),
                forall|k: int| 0 <= k < i ==> layout::good(#[trigger] es[k]),
                bytes@ == segment::records_bytes(es.take(i as int)),
                file_pos + bytes@.len() <= u64::MAX,
                positions@.len() == i,
                forall|k: int|
                    0 <= k < i ==> #[trigger] positions@[k] == file_pos + segment::records_bytes(
                        es.take(k),
                    ).len(),
                m.next + i <= u64::MAX,
                base + count + i <= u64::MAX,
            decreases events@.len() - i,
        {
            let n: u64 = i as u64;
            if first + n == u64::MAX || base + count + n == u64::MAX {
                return refused_action(StorageError::InvalidInput(Misuse::OffsetsExhausted));
            }
            let entry = LogEntry {
                offset: Offset::new(first + n),
                appended_at_ns: now,
                producer_id: producer_id.to_owned(),
                event: events[i].clone(),
            };
            assert(entry@ =~= es[i as int]);
            let record = match write_record(&entry) {
                Ok(record) => record,
                Err(e) => {
                    return refused_action(e);
                },
            };
            proof {
                let upto = es.take(i + 1);
                assert(upto.drop_last() =~= es.take(i as int));
                assert(segment::records_bytes(upto) == bytes@ + record@);
                assert(record@ + seq![] =~= record@);
                segment::lemma_good_record(es[i as int]);
            }
            let at: u64 = file_pos + bytes.len() as u64;
            if record.len() as u64 > u64::MAX - at {
                return refused_action(StorageError::InvalidInput(Misuse::SegmentFull));
            }
            positions.push(at);
            bytes.extend_from_slice(record.as_slice());
            assert(bytes@ =~= segment::records_bytes(es.take(i + 1)));
            i = i + 1;
        }
        assert(es.take(i as int) =~= es);
        assert(positions@ =~= batch_positions(file_pos, es));
        let sync = self.config.flush_interval_ms == 0;
        self.phase = Some(
            AppendPhase::Writing(
                PendingBatch {
                    base,
                    file_pos,
                    positions,
                    next_offset: first + i as u64,
                    appended_at_ns: now,
                },
            ),
        );
        AppendAction::Write { base, pos: file_pos, bytes, sync }
    }

    /// The batch was written, and the data file now ends at `end`.
    fn commit(&mut self, batch: PendingBatch, end: u64)
        requires
            old(self).wf(),
            old(self).pending() is None,
            batch_wf(old(self)@, batch),
        ensures
            final(self).wf(),
            final(self).pending() is None,
            final(self).settings() == old(self).settings(),
            final(self)@ == committed(
                old(self)@,
                batch.positions@,
                batch.next_offset,
                batch.appended_at_ns,
                end,
            ),
    {
        let mut new_positions = batch.positions;
        if let Some(active) = self.active.take() {
            let mut a = active;
            a.positions.append(&mut new_positions);
            a.next_file_pos = end;
            a.byte_size = end.saturating_sub(HEADER_LEN);
            a.last_appended_at_ns = batch.appended_at_ns;
            self.active = Some(a);
        }
        self.next_offset = batch.next_offset;
    }

    /// Whether the active segment is to be closed: it is large or old enough.
    fn should_roll(&self, now: u64) -> (r: bool)
        ensures
            r == rolls(self@, self.settings(), now),
    {
        match &self.active {
            None => false,
            Some(a) => {
                if a.byte_size >= self.config.max_segment_bytes {
                    return true;
                }
                now.saturating_sub(a.created_at_ns) >= seconds_in_ns(
                    self.config.max_segment_age_secs,
                )
            },
        }
    }

    /// The end mark and the index of the active segment were written, and its
    /// data file has the given size.
    fn close_active(&mut self, seg_size: u64)
        requires
            old(self).wf(),
            old(self).pending() is None,
            old(self)@.active matches Some(a) && a.positions.len() > 0,
        ensures
            final(self).wf(),
            final(self).pending() is None,
            final(self).settings() == old(self).settings(),
            final(self)@ == rolled(old(self)@, seg_size),
    {
        if let Some(a) = self.active.take() {
            let ghost before = self.closed@;
            let last_offset: u64 = a.base_offset + (a.positions.len() as u64 - 1);
            self.closed.push_back(
                ClosedSegment {
                    base_offset: a.base_offset,
                    last_offset,
                    last_appended_at_ns: a.last_appended_at_ns,
                    byte_size: seg_size,
                    positions: a.positions,
                },
            );
            proof {
                assert(state::closed_models(self.closed@) =~= state::closed_models(before).push(
                    self.closed@.last()@,
                ));
            }
        }
    }

    /// Goes on with deleting the oldest segments, as long as any are left.
    fn evict(&mut self, left: usize) -> (r: AppendAction)
        requires
            old(self).wf(),
            old(self).pending() is None,
            old(self)@.next > 0,
            left <= old(self)@.closed.len(),
        ensures
            final(self).wf(),
            final(self).settings() == old(self).settings(),
            (AppendState { log: final(self)@, pending: final(self).pending(), action: r })
                == evicting(old(self)@, left as int),
    {
        if left == 0 {
            return self.finish();
        }
        assert(self@.closed[0] == self.closed@[0]@);
        self.phase = Some(AppendPhase::Evicting { left });
        AppendAction::DeleteSegment { base: self.closed[0].base_offset }
    }

    /// The files of the oldest complete segment were deleted.
    fn evict_oldest(&mut self)
        requires
            old(self).wf(),
            old(self).pending() is None,
            old(self)@.closed.len() > 0,
        ensures
            final(self).wf(),
            final(self).pending() is None,
            final(self).settings() == old(self).settings(),
            final(self)@ == evicted(old(self)@),
    {
        let ghost before = self.closed@;
        let _ = self.closed.pop_front();
        proof {
            assert(state::closed_models(self.closed@) =~= state::closed_models(before).skip(1));
        }
    }

    /// How many of the oldest complete segments are not to be kept any more.
    fn enforce_retention(&self, now: u64) -> (r: usize)
        ensures
            r <= self@.closed.len(),
            r == evictable(self@, self.settings().retention, now),
    {
        match self.config.retention {
            RetentionPolicy::Indefinite => 0,
            RetentionPolicy::TimeBased { max_age_secs } => self.count_expired(max_age_secs, now),
            RetentionPolicy::SizeBased { max_bytes } => self.count_oversize(max_bytes, 0),
            RetentionPolicy::Hybrid { max_age_secs, max_bytes } => {
                let k: usize = self.count_expired(max_age_secs, now);
                self.count_oversize(max_bytes, k)
            },
        }
    }

    /// How many of the oldest segments are too old.
    fn count_expired(&self, max_age_secs: u64, now: u64) -> (r: usize)
        ensures
            r <= self@.closed.len(),
            r == expired(self@.closed, cutoff(now, max_age_secs), 0),
    {
        let limit: u64 = now.saturating_sub(seconds_in_ns(max_age_secs));
        let mut k: usize = 0;
        while k < self.closed.len() && self.closed[k].last_appended_at_ns < limit
            invariant
                limit == cutoff(now, max_age_secs),
                k <= self@.closed.len(),
                expired(self@.closed, limit as int, 0) == expired(
                    self@.closed,
                    limit as int,
                    k as int,
                ),
            decreases self@.closed.len() - k,
        {
            k = k + 1;
        }
        k
    }

    /// How many of the oldest segments have to go so that the others are small
    /// enough, where the first `start` go anyway.
    fn count_oversize(&self, max_bytes: u64, start: usize) -> (r: usize)
        requires
            start <= self@.closed.len(),
        ensures
            r <= self@.closed.len(),
            r == oversize(self@.closed, active_size(self@), max_bytes as int, start as int),
    {
        let active: u128 = match &self.active {
            Some(a) => a.byte_size as u128,
            None => 0,
        };
        let mut total: u128 = 0;
        let mut i: usize = self.closed.len();
        while i > start
            invariant
                start <= i <= self@.closed.len(),
                total == total_size(self@.closed, i as int),
                total <= (self@.closed.len() - i) * u64::MAX,
                self@.closed.len() <= usize::MAX,
            decreases i,
        {
            i = i - 1;
            proof {
                let n = (self@.closed.len() - i) as int;
                assert(n * u64::MAX <= usize::MAX * u64::MAX) by (nonlinear_arith)
                    requires
                        0 <= n <= usize::MAX,
                ;
                assert((n - 1) * u64::MAX + u64::MAX == n * u64::MAX) by (nonlinear_arith);
                assert(self@.closed[i as int] == self.closed@[i as int]@);
            }
            total = total + self.closed[i].byte_size as u128;
        }
        let mut k: usize = start;
        while k < self.closed.len() && total + active > max_bytes as u128
            invariant
                start <= k <= self@.closed.len(),
                total == total_size(self@.closed, k as int),
                total <= usize::MAX * u64::MAX,
                active == active_size(self@),
                active <= u64::MAX,
                oversize(self@.closed, active_size(self@), max_bytes as int, start as int)
                    == oversize(self@.closed, active_size(self@), max_bytes as int, k as int),
            decreases self@.closed.len() - k,
        {
            proof {
                assert(self@.closed[k as int] == self.closed@[k as int]@);
                lemma_total_size(self@.closed, k as int + 1);
            }
            total = total - self.closed[k].byte_size as u128;
            k = k + 1;
        }
        k
    }
}

/// The size of segments is not negative.
proof fn lemma_total_size(closed: Seq<ClosedModel>, k: int)
    ensures
        total_size(closed, k) >= 0,
    decreases closed.len() - k,
{
    if 0 <= k < closed.len() {
        lemma_total_size(closed, k + 1);
    }
}

/// What time-based retention takes away are exactly the oldest segments whose
/// last entry is too old, up to the first one that is not.
pub proof fn law_expired(closed: Seq<ClosedModel>, cutoff: int, k: int)
    requires
        0 <= k <= closed.len(),
        forall|i: int| 0 <= i < k ==> (#[trigger] closed[i]).last_appended < cutoff,
    ensures
        ({
            let n = expired(closed, cutoff, k);
            &&& k <= n <= closed.len()
            &&& forall|i: int| 0 <= i < n ==> (#[trigger] closed[i]).last_appended < cutoff
            &&& n < closed.len() ==> closed[n].last_appended >= cutoff
        }),
    decreases closed.len() - k,
{
    if k < closed.len() && closed[k].last_appended < cutoff {
        law_expired(closed, cutoff, k + 1);
    }
}

/// What size-based retention takes away are just as many of the oldest
/// segments as it takes for the others to be small enough.
pub proof fn law_oversize(closed: Seq<ClosedModel>, active_size: int, max: int, k: int)
    requires
        0 <= k <= closed.len(),
    ensures
        ({
            let n = oversize(closed, active_size, max, k);
            &&& k <= n <= closed.len()
            &&& n < closed.len() ==> total_size(closed, n) + active_size <= max
            &&& n > k ==> total_size(closed, n - 1) + active_size > max
        }),
    decreases closed.len() - k,
{
    if k < closed.len() && total_size(closed, k) + active_size > max {
        law_oversize(closed, active_size, max, k + 1);
    }
}

/// No more segments are taken away than there are.
pub proof fn lemma_evictable(m: LogModel, policy: RetentionPolicy, now: u64)
    ensures
        0 <= evictable(m, policy, now) <= m.closed.len(),
{
    match policy {
        RetentionPolicy::Indefinite => {},
        RetentionPolicy::TimeBased { max_age_secs } => {
            law_expired(m.closed, cutoff(now, max_age_secs), 0);
        },
        RetentionPolicy::SizeBased { max_bytes } => {
            law_oversize(m.closed, active_size(m), max_bytes as int, 0);
        },
        RetentionPolicy::Hybrid { max_age_secs, max_bytes } => {
            let before = cutoff(now, max_age_secs);
            law_expired(m.closed, before, 0);
            law_oversize(m.closed, active_size(m), max_bytes as int, expired(m.closed, before, 0));
        },
    }
}

/// However an append ends that has not been committed, the log has the entries
/// that it had: it has at most begun a segment.
pub proof fn law_failure_before_commit_changes_nothing(
    st: AppendState,
    m: LogModel,
    config: SegmentLogConfig,
    phase: AppendPhase,
    event: IoEvent,
    now: u64,
)
    requires
        append_resumed(st, m, config, phase, event, now),
        phase_wf(m, phase),
        phase is Beginning || phase is Writing || phase is Locating || phase is Undoing,
        !(event is At && phase is Locating),
    ensures
        st.log.closed == m.closed,
        st.log.next == m.next,
        st.log.active == m.active || (m.active is None && (st.log.active matches Some(a)
            && a.positions.len() == 0)),
        st.log.poisoned == (m.poisoned || phase is Locating),
{
}

/// How many steps an append may still take, but for those that delete segments.
pub open spec fn steps_left(pending: Option<AppendPhase>) -> int {
    match pending {
        None => 0,
        Some(AppendPhase::Beginning { .. }) => 11,
        Some(AppendPhase::Writing(_)) => 10,
        Some(AppendPhase::Locating(_)) => 9,
        Some(AppendPhase::Waking) => 8,
        Some(AppendPhase::Syncing) => 7,
        Some(AppendPhase::Marking) => 6,
        Some(AppendPhase::SyncingMark) => 5,
        Some(AppendPhase::Indexing) => 4,
        Some(AppendPhase::Measuring) => 3,
        Some(AppendPhase::Watermarking) => 2,
        Some(AppendPhase::Evicting { .. }) => 1,
        Some(AppendPhase::Undoing) => 1,
    }
}

/// How many segments an append has still to delete.
pub open spec fn deletions_left(pending: Option<AppendPhase>) -> int {
    match pending {
        Some(AppendPhase::Evicting { left }) => left as int,
        _ => 0,
    }
}

/// Every append comes to an end, whatever happens: each step brings it nearer,
/// and it is over if and only if it asks for nothing more.
pub proof fn law_append_ends(
    st: AppendState,
    m: LogModel,
    config: SegmentLogConfig,
    phase: AppendPhase,
    event: IoEvent,
    now: u64,
)
    requires
        append_resumed(st, m, config, phase, event, now),
        phase_wf(m, phase),
    ensures
        st.pending is None <==> st.action is Finish,
        steps_left(st.pending) < steps_left(Some(phase)) || (steps_left(st.pending) == steps_left(
            Some(phase),
        ) && 0 <= deletions_left(st.pending) < deletions_left(Some(phase))),
{
}

/// Whether an action leaves all records alone that are there: it writes behind
/// the records of the active segment, cuts off nothing before their end, and does
/// not touch the data of a complete segment but to delete it as a whole.
pub open spec fn spares_records(m: LogModel, action: AppendAction) -> bool {
    match action {
        AppendAction::Write { base, pos, .. } => m.active matches Some(a) && a.base == base
            && a.next_pos == pos,
        AppendAction::Mark { base, pos, .. } => m.active matches Some(a) && a.base == base
            && a.next_pos == pos,
        AppendAction::CutBack { base, len } => m.active matches Some(a) && a.base == base
            && a.next_pos == len,
        AppendAction::Begin { base, .. } => m.active is None && base == m.next,
        AppendAction::DeleteSegment { base } => m.closed.len() > 0 && m.closed[0].base == base,
        _ => true,
    }
}

/// Records that are there are never written over: an append begins by writing
/// behind them.
pub proof fn law_beginning_spares_records(
    st: AppendState,
    m: LogModel,
    config: SegmentLogConfig,
    producer: Seq<char>,
    events: Seq<OtkEvent>,
    now: u64,
)
    requires
        append_begun(st, m, config, producer, events, now),
    ensures
        spares_records(st.log, st.action),
{
}

/// Records that are there are never written over or cut off, whatever happens
/// in the middle of an append; complete segments only ever go as a whole, the
/// oldest first.
pub proof fn law_resuming_spares_records(
    st: AppendState,
    m: LogModel,
    config: SegmentLogConfig,
    phase: AppendPhase,
    event: IoEvent,
    now: u64,
)
    requires
        append_resumed(st, m, config, phase, event, now),
        phase_wf(m, phase),
    ensures
        spares_records(st.log, st.action),
{
    if phase is Watermarking {
        lemma_evictable(m, config.retention, now);
    }
}

/// A log that is out of step with its file takes in nothing more.
pub proof fn law_poisoned_log_refuses(
    st: AppendState,
    m: LogModel,
    config: SegmentLogConfig,
    producer: Seq<char>,
    events: Seq<OtkEvent>,
    now: u64,
)
    requires
        append_begun(st, m, config, producer, events, now),
        m.poisoned,
    ensures
        st == over(
            m,
            AppendOutcome::Refused(StorageError::Corrupted(Corruption::Poisoned)),
        ),
{
}

} // verus!
