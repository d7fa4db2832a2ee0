//! An append from its beginning to its end, with the files.
//!
//! Nothing here is executed. The laws say that the log and its files stay in
//! step through every action of an append that is done, and what the files hold
//! when the append is over.

use vstd::prelude::*;

use crate::log::bytes;
use crate::log::config::SegmentLogConfig;
use crate::log::disk;
use crate::log::disk::{Contents, Disk};
use crate::log::entry::{EntryModel, Offset};
use crate::log::error::StorageError;
use crate::log::layout;
use crate::log::segment;
use crate::log::segment::{SegmentHeader, MAX_INDEX_BYTES};
use crate::log::state::appending;
use crate::log::state::appending::{
    AppendAction, AppendOutcome, AppendPhase, AppendState, IoEvent,
};
use crate::log::state::opening;
use crate::log::state::opening::{OpenFix, SegmentInput};
use crate::log::state::reading;
use crate::log::state::LogModel;
use crate::model::event::OtkEvent;

verus! {

broadcast use bytes::group_le_len;

/// The files after bytes were written to a data file at a position.
pub open spec fn disk_written(d: Disk, base: u64, pos: int, bytes: Seq<u8>) -> Disk {
    let file = d.data[base];
    let end = pos + bytes.len();
    let rest = if end < file.len() {
        file.skip(end)
    } else {
        seq![]
    };
    Disk { data: d.data.insert(base, file.take(pos) + bytes + rest), ..d }
}

/// The files after an action was done.
pub open spec fn done(d: Disk, action: AppendAction) -> Disk {
    match action {
        AppendAction::Begin { base, header } => Disk { data: d.data.insert(base, header@), ..d },
        AppendAction::Write { base, pos, bytes, .. } => disk_written(d, base, pos as int, bytes@),
        AppendAction::Mark { base, pos, bytes } => disk_written(d, base, pos as int, bytes@),
        AppendAction::WriteIndex { base, bytes } => Disk {
            index: d.index.insert(base, bytes@),
            ..d
        },
        AppendAction::WriteWatermark { bytes } => Disk { watermark: Some(bytes@), ..d },
        AppendAction::DeleteSegment { base } => disk::disk_evicted(d, base),
        AppendAction::CutBack { base, len } => Disk {
            data: d.data.insert(base, d.data[base].take(len as int)),
            ..d
        },
        _ => d,
    }
}

/// What the log is told of an action that was done, where the files are now as
/// given.
pub open spec fn answer(d: Disk, action: AppendAction) -> IoEvent {
    match action {
        AppendAction::Locate { base } => IoEvent::At(d.data[base].len() as u64),
        AppendAction::Measure { base } => IoEvent::At(d.data[base].len() as u64),
        _ => IoEvent::Done,
    }
}

/// What an append was asked for, and what there was before it.
pub struct Request {
    pub log: LogModel,
    pub contents: Contents,
    pub config: SegmentLogConfig,
    pub producer: Seq<char>,
    pub events: Seq<OtkEvent>,
    /// When the append was begun.
    pub now: u64,
}

/// The entries of the batch, where it is encoded at the given time.
pub open spec fn batch(q: Request, at: u64) -> Seq<EntryModel> {
    appending::batch_entries(q.log.next, at, q.producer, q.events)
}

/// The log that the batch is added to: it has an active segment.
pub open spec fn ready(q: Request) -> LogModel {
    match q.log.active {
        Some(_) => q.log,
        None => appending::activated(q.log, q.now),
    }
}

/// Why the batch is refused, if it is, where it is encoded at the given time.
pub open spec fn refusal(q: Request, at: u64) -> Option<StorageError> {
    match appending::append_refusal(q.log, q.producer, q.events.len() as int) {
        Some(e) => Some(e),
        None => appending::batch_faults(ready(q), batch(q, at), 0),
    }
}

/// What the files hold while an append goes on.
pub struct Account {
    /// When the batch was encoded.
    pub at: u64,
    /// The entries that the files hold.
    pub kept: Contents,
    /// The log and its entries before any segment was deleted, and when it was
    /// decided which ones are not kept.
    pub log: LogModel,
    pub whole: Contents,
    pub now: u64,
    /// How many segments have been deleted.
    pub gone: int,
}

/// The files with the index of the active segment.
pub open spec fn indexed(m: LogModel, d: Disk) -> Disk {
    let a = m.active->Some_0;
    Disk { index: d.index.insert(a.base, segment::index_bytes(a.positions)), ..d }
}

/// The files with a watermark for the log.
pub open spec fn watermarked(m: LogModel, d: Disk) -> Disk {
    Disk { watermark: Some(bytes::le8(m.next as int)), ..d }
}

/// The log whose active segment was closed, as large as its file is.
pub open spec fn closed_as_is(m: LogModel, d: Disk) -> LogModel {
    appending::rolled(m, d.data[m.active->Some_0.base].len() as u64)
}

/// The log and its files once the step that is under way is complete: a batch
/// that was written has been taken in, and a segment that has its end mark has
/// been closed.
pub open spec fn settled(st: AppendState, d: Disk) -> (LogModel, Disk) {
    let m = st.log;
    match st.pending {
        Some(AppendPhase::Locating(b)) => (
            appending::committed(
                m,
                b.positions@,
                b.next_offset,
                b.appended_at_ns,
                d.data[b.base].len() as u64,
            ),
            d,
        ),
        Some(AppendPhase::SyncingMark) => (closed_as_is(m, d), watermarked(m, indexed(m, d))),
        Some(AppendPhase::Indexing) => (closed_as_is(m, d), watermarked(m, indexed(m, d))),
        Some(AppendPhase::Measuring) => (closed_as_is(m, d), watermarked(m, d)),
        Some(AppendPhase::Watermarking) => (m, watermarked(m, d)),
        _ => (m, d),
    }
}

/// The files hold what they held before the append.
pub open spec fn untouched(m: LogModel, q: Request, c: Account) -> bool {
    disk::entries(c.kept) == disk::entries(q.contents) && m.next == q.log.next && m.poisoned
        == q.log.poisoned
}

/// The entries that there were, and the batch behind them.
pub open spec fn all_entries(q: Request, at: u64) -> Seq<EntryModel> {
    disk::entries(q.contents) + batch(q, at)
}

/// The log takes the batch into account.
pub open spec fn advanced(m: LogModel, q: Request, at: u64) -> bool {
    &&& refusal(q, at) is None
    &&& q.events.len() > 0
    &&& m.next == q.log.next + q.events.len()
    &&& !m.poisoned
}

/// The files hold the batch too.
pub open spec fn added(m: LogModel, q: Request, c: Account) -> bool {
    advanced(m, q, c.at) && disk::entries(c.kept) == all_entries(q, c.at)
}

/// The files hold the batch too, and the active segment has entries.
pub open spec fn open_added(m: LogModel, q: Request, c: Account) -> bool {
    added(m, q, c) && (m.active matches Some(a) && a.positions.len() > 0)
}

/// How many segments are not kept. Where the active segment was not closed, all
/// are.
pub open spec fn to_go(q: Request, c: Account) -> int {
    if c.log.active is None {
        appending::evictable(c.log, q.config.retention, c.now)
    } else {
        0
    }
}

/// The files hold the batch too, and of the segments that are not kept, `left`
/// are still there.
pub open spec fn retained(m: LogModel, q: Request, c: Account, left: int) -> bool {
    &&& advanced(m, q, c.at)
    &&& disk::entries(c.whole) == all_entries(q, c.at)
    &&& c.log.closed.len() == c.whole.closed.len()
    &&& 0 <= c.gone
    &&& 0 <= left
    &&& c.gone + left == to_go(q, c)
    &&& c.gone + left <= c.log.closed.len()
    &&& m == (LogModel { closed: c.log.closed.skip(c.gone), ..c.log })
    &&& c.kept == (Contents { closed: c.whole.closed.skip(c.gone), ..c.whole })
}

/// The log and its files are in step, at any point of an append.
pub open spec fn in_step(st: AppendState, d: Disk, q: Request, c: Account) -> bool {
    let m = st.log;
    let a = m.active->Some_0;
    let (log, files) = settled(st, d);
    &&& disk::stored(log, files, c.kept)
    &&& match st.pending {
        None => match st.action {
            AppendAction::Finish(AppendOutcome::Refused(e)) => untouched(m, q, c) && refusal(q, c.at)
                == Some(e),
            AppendAction::Finish(AppendOutcome::Appended(o)) => retained(m, q, c, 0) && o.0 + 1
                == m.next,
            _ => false,
        },
        Some(AppendPhase::Beginning { producer_id, events, created_at_ns }) => {
            &&& untouched(m, q, c)
            &&& m == q.log
            &&& m.active is None
            &&& appending::append_refusal(m, q.producer, q.events.len() as int) is None
            &&& producer_id@ == q.producer
            &&& appending::same_events(events@, q.events)
            &&& created_at_ns == q.now
            &&& st.action matches AppendAction::Begin { base, header } && base == m.next && header@
                == segment::header_bytes(
                SegmentHeader { base_offset: m.next, created_at_ns: q.now },
            )
        },
        Some(AppendPhase::Writing(_)) => {
            &&& untouched(m, q, c)
            &&& m == ready(q)
            &&& refusal(q, c.at) is None
            &&& appending::batch_begun(st, m, q.config, q.producer, q.events, c.at)
        },
        Some(AppendPhase::Locating(b)) => {
            &&& added(log, q, c)
            &&& b.positions@.len() > 0
            &&& st.action == AppendAction::Locate { base: b.base }
        },
        Some(AppendPhase::Waking) => open_added(m, q, c) && st.action is Wake,
        Some(AppendPhase::Syncing) => open_added(m, q, c) && st.action is Sync,
        Some(AppendPhase::Marking) => {
            &&& open_added(m, q, c)
            &&& st.action matches AppendAction::Mark { base, pos, bytes } && base == a.base && pos
                == a.next_pos && bytes@ == segment::end_mark()
        },
        Some(AppendPhase::SyncingMark) => open_added(m, q, c) && st.action is SyncMark,
        Some(AppendPhase::Indexing) => {
            &&& open_added(m, q, c)
            &&& st.action matches AppendAction::WriteIndex { base, bytes } && base == a.base
                && bytes@ == segment::index_bytes(a.positions)
        },
        Some(AppendPhase::Measuring) => {
            &&& open_added(m, q, c)
            &&& st.action == AppendAction::Measure { base: a.base }
        },
        Some(AppendPhase::Watermarking) => {
            &&& added(m, q, c)
            &&& m.active is None
            &&& st.action matches AppendAction::WriteWatermark { bytes } && bytes@ == bytes::le8(
                m.next as int,
            )
        },
        Some(AppendPhase::Evicting { left }) => {
            &&& left > 0
            &&& retained(m, q, c, left as int)
            &&& st.action == AppendAction::DeleteSegment { base: m.closed[0].base }
        },
        Some(AppendPhase::Undoing) => false,
    }
}

/// The sizes of files and the number of segments fit in the machine's numbers.
pub open spec fn fits(m: LogModel, d: Disk) -> bool {
    &&& m.closed.len() <= usize::MAX
    &&& forall|base: u64| #[trigger] d.data.contains_key(base) ==> d.data[base].len() <= u64::MAX
}

/// Nothing was deleted yet.
spec fn account(kept: Contents, at: u64, m: LogModel, now: u64) -> Account {
    Account { at, kept, log: m, whole: kept, now, gone: 0 }
}

/// The entries of a batch do not depend on which copy of the events is encoded.
proof fn lemma_same_batch(
    next: u64,
    at: u64,
    producer: Seq<char>,
    a: Seq<OtkEvent>,
    b: Seq<OtkEvent>,
)
    requires
        appending::same_events(a, b),
    ensures
        appending::batch_entries(next, at, producer, a) == appending::batch_entries(
            next,
            at,
            producer,
            b,
        ),
{
    assert(appending::batch_entries(next, at, producer, a) =~= appending::batch_entries(
        next,
        at,
        producer,
        b,
    ));
}

/// The log and its files are in step when the batch is to be written, or is
/// refused.
proof fn lemma_batch_begun(
    st: AppendState,
    d: Disk,
    q: Request,
    s: Contents,
    events: Seq<OtkEvent>,
    at: u64,
) -> (c: Account)
    requires
        disk::stored(ready(q), d, s),
        disk::entries(s) == disk::entries(q.contents),
        appending::append_refusal(q.log, q.producer, q.events.len() as int) is None,
        appending::same_events(events, q.events),
        appending::batch_begun(st, ready(q), q.config, q.producer, events, at),
    ensures
        in_step(st, d, q, c),
        c.at == at,
{
    let c = account(s, at, ready(q), at);
    lemma_same_batch(q.log.next, at, q.producer, events, q.events);
    c
}

/// An append begins with the log and its files in step.
pub proof fn law_append_begins_in_step(st: AppendState, d: Disk, q: Request) -> (c: Account)
    requires
        disk::stored(q.log, d, q.contents),
        appending::append_begun(st, q.log, q.config, q.producer, q.events, q.now),
    ensures
        in_step(st, d, q, c),
        c.at == q.now,
{
    if appending::append_refusal(q.log, q.producer, q.events.len() as int) is None
        && q.log.active is Some {
        lemma_batch_begun(st, d, q, q.contents, q.events, q.now)
    } else {
        account(q.contents, q.now, q.log, q.now)
    }
}

/// Where the records of the active segment end is where its file ends.
proof fn lemma_active_len(m: LogModel, d: Disk, s: Contents)
    requires
        disk::stored(m, d, s),
        m.active is Some,
    ensures
        d.data.contains_key(m.active->Some_0.base),
        d.data[m.active->Some_0.base].len() == m.active->Some_0.next_pos,
{
    let r = s.active->Some_0;
    segment::law_header_reads_back(r.header, seq![]);
    assert(r.entries.take(r.entries.len() as int) =~= r.entries);
}

/// Bytes that are written where a file ends are added to it.
proof fn lemma_written_behind(d: Disk, base: u64, bytes: Seq<u8>)
    ensures
        disk_written(d, base, d.data[base].len() as int, bytes) == disk::disk_extended(
            d,
            base,
            bytes,
        ),
{
    let file = d.data[base];
    assert(file.take(file.len() as int) + bytes + seq![] =~= file + bytes);
}

/// Writing the header of a fresh segment keeps the log and its files in step.
proof fn lemma_beginning(
    st: AppendState,
    d: Disk,
    q: Request,
    c: Account,
    next: AppendState,
    now: u64,
) -> (c2: Account)
    requires
        in_step(st, d, q, c),
        st.pending matches Some(phase) && phase is Beginning && appending::append_resumed(
            next,
            st.log,
            q.config,
            phase,
            IoEvent::Done,
            now,
        ),
    ensures
        in_step(next, done(d, st.action), q, c2),
        c2.at == now,
{
    let m = st.log;
    let s2 = Contents {
        active: Some(
            disk::Run {
                header: SegmentHeader { base_offset: m.next, created_at_ns: q.now },
                entries: seq![],
            },
        ),
        ..c.kept
    };
    disk::law_activation_keeps_entries(m, d, c.kept, q.now);
    assert(done(d, st.action) == disk::disk_activated(d, m.next, q.now));
    let events = st.pending->Some_0->Beginning_events;
    lemma_batch_begun(next, done(d, st.action), q, s2, events@, now)
}

/// Writing the batch adds it to what the files hold.
proof fn lemma_writing(
    st: AppendState,
    d: Disk,
    q: Request,
    c: Account,
    next: AppendState,
    now: u64,
) -> (c2: Account)
    requires
        in_step(st, d, q, c),
        st.pending matches Some(phase) && phase is Writing && appending::append_resumed(
            next,
            st.log,
            q.config,
            phase,
            IoEvent::Done,
            now,
        ),
    ensures
        in_step(next, done(d, st.action), q, c2),
        c2.at == c.at,
{
    let m = st.log;
    let a = m.active->Some_0;
    let es = batch(q, c.at);
    let bytes = segment::records_bytes(es);
    let r = c.kept.active->Some_0;
    let s2 = Contents { active: Some(disk::Run { entries: r.entries + es, ..r }), ..c.kept };
    lemma_active_len(m, d, c.kept);
    lemma_written_behind(d, a.base, bytes);
    appending::lemma_no_fault(m, es, 0, es.len() - 1);
    assert(es.take(es.len() as int) =~= es);
    disk::law_append_adds_entries(m, d, c.kept, c.at, q.producer, q.events);
    account(s2, c.at, m, now)
}

/// Once the batch was written, the log takes it in, and may be done.
proof fn lemma_taking_in(
    st: AppendState,
    d: Disk,
    q: Request,
    c: Account,
    next: AppendState,
    now: u64,
) -> (c2: Account)
    requires
        in_step(st, d, q, c),
        st.pending matches Some(phase) && (phase is Locating || phase is Waking || phase is Syncing)
            && appending::append_resumed(
            next,
            st.log,
            q.config,
            phase,
            answer(d, st.action),
            now,
        ),
    ensures
        in_step(next, done(d, st.action), q, c2),
        c2.at == c.at,
{
    let c2 = account(c.kept, c.at, next.log, now);
    assert(next.log.closed.skip(0) =~= next.log.closed);
    assert(c.kept.closed.skip(0) =~= c.kept.closed);
    c2
}

/// Writing the end mark closes the segment, once the rest is done.
proof fn lemma_marking(
    st: AppendState,
    d: Disk,
    q: Request,
    c: Account,
    next: AppendState,
    now: u64,
) -> (c2: Account)
    requires
        in_step(st, d, q, c),
        fits(st.log, done(d, st.action)),
        st.pending matches Some(phase) && phase is Marking && appending::append_resumed(
            next,
            st.log,
            q.config,
            phase,
            IoEvent::Done,
            now,
        ),
    ensures
        in_step(next, done(d, st.action), q, c2),
        c2.at == c.at,
{
    let m = st.log;
    let a = m.active->Some_0;
    let d2 = done(d, st.action);
    let s2 = Contents { closed: c.kept.closed.push(c.kept.active->Some_0), active: None };
    lemma_active_len(m, d, c.kept);
    lemma_written_behind(d, a.base, segment::end_mark());
    assert(d2.data.contains_key(a.base));
    assert(d2.data[a.base].len() == a.next_pos + 4);
    disk::law_roll_keeps_entries(m, d, c.kept);
    assert(watermarked(m, indexed(m, d2)) =~= disk::disk_rolled(d, a.base, a.positions, m.next));
    account(s2, c.at, m, now)
}

/// Closing the segment goes on with the log and its files in step.
proof fn lemma_closing(
    st: AppendState,
    d: Disk,
    q: Request,
    c: Account,
    next: AppendState,
    now: u64,
) -> (c2: Account)
    requires
        in_step(st, d, q, c),
        st.pending matches Some(phase) && (phase is SyncingMark || phase is Indexing
            || phase is Measuring) && appending::append_resumed(
            next,
            st.log,
            q.config,
            phase,
            answer(done(d, st.action), st.action),
            now,
        ),
    ensures
        in_step(next, done(d, st.action), q, c2),
        c2.at == c.at,
{
    c
}

/// Deleting the segments that are not kept begins once the watermark was
/// written, and goes on with the log and its files in step.
proof fn lemma_evicting(
    st: AppendState,
    d: Disk,
    q: Request,
    c: Account,
    next: AppendState,
    now: u64,
) -> (c2: Account)
    requires
        in_step(st, d, q, c),
        st.log.closed.len() <= usize::MAX,
        st.pending matches Some(phase) && (phase is Watermarking || phase is Evicting)
            && appending::append_resumed(next, st.log, q.config, phase, IoEvent::Done, now),
    ensures
        in_step(next, done(d, st.action), q, c2),
        c2.at == c.at,
{
    let m = st.log;
    if st.pending->Some_0 is Watermarking {
        appending::lemma_evictable(m, q.config.retention, now);
        assert(m.closed.skip(0) =~= m.closed);
        assert(c.kept.closed.skip(0) =~= c.kept.closed);
        account(c.kept, c.at, m, now)
    } else {
        disk::law_eviction_drops_oldest(m, d, c.kept);
        assert(c.log.closed.skip(c.gone).skip(1) =~= c.log.closed.skip(c.gone + 1));
        assert(c.whole.closed.skip(c.gone).skip(1) =~= c.whole.closed.skip(c.gone + 1));
        Account {
            kept: Contents { closed: c.kept.closed.skip(1), ..c.kept },
            gone: c.gone + 1,
            ..c
        }
    }
}

/// Every step of an append whose action is done keeps the log and its files in
/// step.
pub proof fn law_append_stays_in_step(
    st: AppendState,
    d: Disk,
    q: Request,
    c: Account,
    next: AppendState,
    now: u64,
) -> (c2: Account)
    requires
        in_step(st, d, q, c),
        fits(st.log, done(d, st.action)),
        st.pending matches Some(phase) && appending::append_resumed(
            next,
            st.log,
            q.config,
            phase,
            answer(done(d, st.action), st.action),
            now,
        ),
    ensures
        in_step(next, done(d, st.action), q, c2),
        c2.at == if st.pending->Some_0 is Beginning {
            now
        } else {
            c.at
        },
{
    match st.pending->Some_0 {
        AppendPhase::Beginning { .. } => lemma_beginning(st, d, q, c, next, now),
        AppendPhase::Writing(_) => lemma_writing(st, d, q, c, next, now),
        AppendPhase::Locating(_)
        | AppendPhase::Waking
        | AppendPhase::Syncing => lemma_taking_in(st, d, q, c, next, now),
        AppendPhase::Marking => lemma_marking(st, d, q, c, next, now),
        AppendPhase::SyncingMark
        | AppendPhase::Indexing
        | AppendPhase::Measuring => lemma_closing(st, d, q, c, next, now),
        AppendPhase::Watermarking | AppendPhase::Evicting { .. } => lemma_evicting(
            st,
            d,
            q,
            c,
            next,
            now,
        ),
        AppendPhase::Undoing => c,
    }
}

/// A batch that could be written only in part is taken back: once the file was
/// cut off, the files and the log are as they were before.
pub proof fn law_failed_write_is_undone(
    st: AppendState,
    d: Disk,
    q: Request,
    c: Account,
    part: Seq<u8>,
    next: AppendState,
    now: u64,
)
    requires
        in_step(st, d, q, c),
        st.pending matches Some(phase) && phase is Writing && appending::append_resumed(
            next,
            st.log,
            q.config,
            phase,
            IoEvent::Failed,
            now,
        ),
    ensures
        next.log == st.log,
        next.pending == Some(AppendPhase::Undoing),
        done(disk::disk_extended(d, st.log.active->Some_0.base, part), next.action) == d,
        disk::stored(next.log, d, c.kept),
        disk::entries(c.kept) == disk::entries(q.contents),
{
    let base = st.log.active->Some_0.base;
    lemma_active_len(st.log, d, c.kept);
    let file = d.data[base];
    assert((file + part).take(file.len() as int) =~= file);
    assert(done(disk::disk_extended(d, base, part), next.action).data =~= d.data);
}

/// What a part of the records of a batch is: some whole records, and the
/// beginning of one more.
proof fn lemma_torn_batch(es: Seq<EntryModel>, k: int) -> (j: int)
    requires
        0 <= k <= segment::records_bytes(es).len(),
    ensures
        0 <= j <= es.len(),
        segment::records_bytes(es.take(j)).len() <= k,
        j < es.len() ==> k < segment::records_bytes(es.take(j + 1)).len() && segment::records_bytes(
            es,
        ).take(k) == segment::records_bytes(es.take(j)) + segment::record_bytes(es[j]).take(
            k - segment::records_bytes(es.take(j)).len(),
        ) && k - segment::records_bytes(es.take(j)).len() < segment::record_bytes(es[j]).len(),
        j == es.len() ==> segment::records_bytes(es).take(k) == segment::records_bytes(es.take(j)),
    decreases es.len(),
{
    let all = segment::records_bytes(es);
    assert(es.take(es.len() as int) =~= es);
    if k == all.len() {
        assert(all.take(k) =~= all);
        es.len() as int
    } else {
        let front = es.drop_last();
        let before = segment::records_bytes(front);
        let last = segment::record_bytes(es.last());
        assert(all == before + last);
        assert(es.take(es.len() - 1) =~= front);
        if k >= before.len() {
            assert(all.take(k) =~= before + last.take(k - before.len()));
            es.len() - 1
        } else {
            let j = lemma_torn_batch(front, k);
            assert(front.take(front.len() as int) =~= front);
            assert(front.take(j) =~= es.take(j));
            assert(front.take(j + 1) =~= es.take(j + 1));
            assert(all.take(k) =~= before.take(k));
            j
        }
    }
}

/// The log that took in the first `j` entries of a batch.
pub open spec fn taken_in(m: LogModel, es: Seq<EntryModel>, now: u64, j: int) -> LogModel {
    let a = m.active->Some_0;
    let whole = es.take(j);
    if j == 0 {
        m
    } else {
        appending::committed(
            m,
            appending::batch_positions(a.next_pos, whole),
            (m.next + j) as u64,
            now,
            (a.next_pos + segment::records_bytes(whole).len()) as u64,
        )
    }
}

/// The log that took in the first entries of a batch is in step with the files
/// that hold their records.
proof fn lemma_taken_in(
    m: LogModel,
    d: Disk,
    s: Contents,
    now: u64,
    producer: Seq<char>,
    events: Seq<OtkEvent>,
    j: int,
) -> (kept: Contents)
    requires
        disk::stored(m, d, s),
        m.active is Some,
        0 <= j <= events.len(),
        ({
            let es = appending::batch_entries(m.next, now, producer, events);
            &&& appending::batch_faults(m, es, 0) is None
            &&& forall|i: int| 0 <= i < es.len() ==> layout::good(#[trigger] es[i])
        }),
    ensures
        ({
            let es = appending::batch_entries(m.next, now, producer, events);
            let a = m.active->Some_0;
            let whole = segment::records_bytes(es.take(j));
            let log = taken_in(m, es, now, j);
            &&& disk::stored(log, disk::disk_extended(d, a.base, whole), kept)
            &&& disk::entries(kept) == disk::entries(s) + es.take(j)
            &&& log.active matches Some(b) && b.base == a.base && b.next_pos == a.next_pos
                + whole.len()
        }),
{
    let es = appending::batch_entries(m.next, now, producer, events);
    let a = m.active->Some_0;
    let whole = segment::records_bytes(es.take(j));
    if j == 0 {
        assert(es.take(0) =~= seq![]);
        assert(d.data[a.base] + whole =~= d.data[a.base]);
        assert(disk::disk_extended(d, a.base, whole).data =~= d.data);
        assert(disk::entries(s) + es.take(0) =~= disk::entries(s));
        s
    } else {
        let part = events.take(j);
        let front = appending::batch_entries(m.next, now, producer, part);
        assert(front =~= es.take(j));
        lemma_front_has_no_fault(m, es, j, 0);
        assert forall|i: int| 0 <= i < front.len() implies layout::good(#[trigger] front[i]) by {
            assert(front[i] == es[i]);
        }
        appending::lemma_no_fault(m, front, 0, j - 1);
        assert(front.take(j) =~= front);
        disk::law_append_adds_entries(m, d, s, now, producer, part);
        let r = s.active->Some_0;
        Contents { active: Some(disk::Run { entries: r.entries + front, ..r }), ..s }
    }
}

/// An append that was cut short, after the first `k` bytes of the batch were
/// written, leaves the log with the records that were written as a whole: opening
/// it finds them behind what there was, and cuts the rest off.
pub proof fn law_torn_append_keeps_whole_records(
    m: LogModel,
    d: Disk,
    s: Contents,
    now: u64,
    producer: Seq<char>,
    events: Seq<OtkEvent>,
    k: int,
    inputs: Seq<SegmentInput>,
    at: u64,
) -> (r: (int, Contents))
    requires
        disk::stored(m, d, s),
        m.active is Some,
        !m.poisoned,
        ({
            let es = appending::batch_entries(m.next, now, producer, events);
            &&& appending::batch_faults(m, es, 0) is None
            &&& forall|i: int| 0 <= i < es.len() ==> layout::good(#[trigger] es[i])
            &&& 0 <= k <= segment::records_bytes(es).len()
            &&& disk::finds(inputs, m, d, segment::records_bytes(es).take(k))
        }),
        forall|i: int|
            0 <= i < m.closed.len() ==> 8 * (#[trigger] m.closed[i]).positions.len()
                <= MAX_INDEX_BYTES,
    ensures
        ({
            let (j, kept) = r;
            let es = appending::batch_entries(m.next, now, producer, events);
            let a = m.active->Some_0;
            let whole = segment::records_bytes(es.take(j));
            let end = opening::open_end(
                opening::open_steps(opening::unopened(), inputs, at),
                d.watermark,
            );
            &&& 0 <= j <= es.len()
            &&& whole.len() <= k
            &&& j < es.len() ==> k < segment::records_bytes(es.take(j + 1)).len()
            &&& end.error is None
            &&& end.log == taken_in(m, es, now, j)
            &&& end.fixes == if whole.len() < k {
                seq![OpenFix::Truncate(a.base, a.next_pos + whole.len())]
            } else {
                seq![]
            }
            &&& disk::stored(end.log, disk::disk_extended(d, a.base, whole), kept)
            &&& disk::entries(kept) == disk::entries(s) + es.take(j)
        }),
{
    let es = appending::batch_entries(m.next, now, producer, events);
    let a = m.active->Some_0;
    let j = lemma_torn_batch(es, k);
    let whole = segment::records_bytes(es.take(j));
    let tail = segment::records_bytes(es).take(k).skip(whole.len() as int);
    let d2 = disk::disk_extended(d, a.base, whole);
    let m2 = taken_in(m, es, now, j);
    if j < es.len() {
        assert(layout::good(es[j]));
        segment::law_torn_record_is_none(es[j], k - whole.len());
        assert(tail =~= segment::record_bytes(es[j]).take(k - whole.len()));
    }
    assert(segment::records_bytes(es).take(k) =~= whole + tail);
    let kept = lemma_taken_in(m, d, s, now, producer, events, j);
    lemma_finds_again(inputs, m, d, s, m2, whole, tail);
    disk::law_reopening_finds_everything(m2, d2, kept, inputs, tail, at);
    (j, kept)
}

/// What is found of the segments is found of the log that took in the records
/// that were written as a whole.
proof fn lemma_finds_again(
    inputs: Seq<SegmentInput>,
    m: LogModel,
    d: Disk,
    s: Contents,
    m2: LogModel,
    whole: Seq<u8>,
    tail: Seq<u8>,
)
    requires
        disk::stored(m, d, s),
        m.active matches Some(a) && (m2.active matches Some(a2) && a2.base == a.base),
        m2.closed == m.closed,
        disk::finds(inputs, m, d, whole + tail),
    ensures
        disk::finds(inputs, m2, disk::disk_extended(d, m.active->Some_0.base, whole), tail),
{
    let a = m.active->Some_0;
    let d2 = disk::disk_extended(d, a.base, whole);
    assert(d.data[a.base] + (whole + tail) =~= d2.data[a.base] + tail);
    assert forall|i: int| 0 <= i < m2.closed.len() implies disk::finds_closed(
        #[trigger] inputs[i],
        m2.closed[i],
        d2,
    ) by {
        assert(disk::finds_closed(inputs[i], m.closed[i], d));
        assert(m.closed[i].last < a.base && m.closed[i].base <= m.closed[i].last);
    }
}

/// The front of a batch without a fault has none.
proof fn lemma_front_has_no_fault(m: LogModel, es: Seq<EntryModel>, j: int, i: int)
    requires
        appending::batch_faults(m, es, i) is None,
        0 <= i <= j <= es.len(),
    ensures
        appending::batch_faults(m, es.take(j), i) is None,
    decreases j - i,
{
    if i < j {
        assert(es.take(j).take(i + 1) =~= es.take(i + 1));
        lemma_front_has_no_fault(m, es, j, i + 1);
    }
}

/// A point of an append: where it stands, when it came there, and the files.
pub struct Stage {
    pub st: AppendState,
    pub now: u64,
    pub disk: Disk,
}

/// What was to be done at stage `i` was done, and the append has gone on.
pub open spec fn goes_on(stages: Seq<Stage>, config: SegmentLogConfig, i: int) -> bool {
    let here = stages[i];
    let there = stages[i + 1];
    &&& there.disk == done(here.disk, here.st.action)
    &&& fits(here.st.log, there.disk)
    &&& here.st.pending matches Some(phase) && appending::append_resumed(
        there.st,
        here.st.log,
        config,
        phase,
        answer(there.disk, here.st.action),
        there.now,
    )
}

/// A whole append, all of whose actions were done.
pub open spec fn carried_out(stages: Seq<Stage>, q: Request, d: Disk) -> bool {
    &&& stages.len() > 0
    &&& stages[0].disk == d
    &&& stages[0].now == q.now
    &&& appending::append_begun(
        stages[0].st,
        q.log,
        q.config,
        q.producer,
        q.events,
        q.now,
    )
    &&& forall|i: int| 0 <= i < stages.len() - 1 ==> #[trigger] goes_on(stages, q.config, i)
    &&& stages.last().st.action is Finish
}

/// When the batch of an append was encoded: at once, or when there was a segment
/// for it.
pub open spec fn batch_time(stages: Seq<Stage>, q: Request) -> u64 {
    if q.log.active is Some || stages.len() == 1 {
        q.now
    } else {
        stages[1].now
    }
}

/// The log and its files are in step at every stage of an append.
proof fn lemma_stage(stages: Seq<Stage>, q: Request, d: Disk, i: int) -> (c: Account)
    requires
        disk::stored(q.log, d, q.contents),
        carried_out(stages, q, d),
        0 <= i < stages.len(),
    ensures
        in_step(stages[i].st, stages[i].disk, q, c),
        i > 0 || stages.len() == 1 ==> c.at == batch_time(stages, q),
        i == 0 ==> c.at == q.now,
        i > 0 ==> !(stages[i].st.pending matches Some(phase) && phase is Beginning),
        q.log.active is Some ==> !(stages[i].st.pending matches Some(phase) && phase is Beginning),
    decreases i,
{
    if i == 0 {
        law_append_begins_in_step(stages[0].st, d, q)
    } else {
        let before = stages[i - 1];
        let c = lemma_stage(stages, q, d, i - 1);
        assert(goes_on(stages, q.config, i - 1));
        law_append_stays_in_step(before.st, before.disk, q, c, stages[i].st, stages[i].now)
    }
}

/// An append whose actions are all done ends with the log and its files in step.
///
/// It is refused exactly where the batch cannot be appended, and then the
/// entries are those that there were. Otherwise they are those that there were
/// and the batch behind them, less the oldest segments that are not kept any
/// more, and the offset of the last entry of the batch is given back.
pub proof fn law_append_is_stored(stages: Seq<Stage>, q: Request, d: Disk) -> (c: Account)
    requires
        disk::stored(q.log, d, q.contents),
        carried_out(stages, q, d),
    ensures
        c.at == batch_time(stages, q),
        disk::stored(stages.last().st.log, stages.last().disk, c.kept),
        match refusal(q, c.at) {
            Some(e) => {
                &&& stages.last().st.action == AppendAction::Finish(AppendOutcome::Refused(e))
                &&& disk::entries(c.kept) == disk::entries(q.contents)
                &&& stages.last().st.log.next == q.log.next
            },
            None => {
                &&& stages.last().st.action == AppendAction::Finish(
                    AppendOutcome::Appended(Offset((q.log.next + q.events.len() - 1) as u64)),
                )
                &&& stages.last().st.log.next == q.log.next + q.events.len()
                &&& !stages.last().st.log.poisoned
                &&& disk::entries(c.whole) == disk::entries(q.contents) + batch(q, c.at)
                &&& 0 <= c.gone <= c.whole.closed.len()
                &&& c.gone == to_go(q, c)
                &&& c.kept == (Contents { closed: c.whole.closed.skip(c.gone), ..c.whole })
                &&& stages.last().st.log == (LogModel {
                    closed: c.log.closed.skip(c.gone),
                    ..c.log
                })
            },
        },
{
    lemma_stage(stages, q, d, stages.len() - 1)
}

/// What is appended is read back: an append whose actions are all done, to a log
/// that keeps everything, takes nothing away, and reading from the first offset
/// of the batch on gives exactly the entries of the batch, with their offsets,
/// the producer's id and the events.
pub proof fn law_appended_entries_read_back(stages: Seq<Stage>, q: Request, d: Disk) -> (c: Account)
    requires
        disk::stored(q.log, d, q.contents),
        carried_out(stages, q, d),
        q.config.retention is Indefinite,
        refusal(q, batch_time(stages, q)) is None,
    ensures
        c.at == batch_time(stages, q),
        disk::stored(stages.last().st.log, stages.last().disk, c.kept),
        disk::entries(c.kept) == disk::entries(q.contents) + batch(q, c.at),
        reading::read_plan(stages.last().st.log, q.log.next, None) matches Ok(slots)
            && slots.len() == q.events.len() && disk::slots_read(
            slots,
            q.log.next as int,
            stages.last().disk,
            batch(q, c.at),
            0,
        ),
{
    let c = law_append_is_stored(stages, q, d);
    let last = stages.last();
    let m = last.st.log;
    let old = disk::entries(q.contents);
    let all = disk::entries(c.kept);
    assert(c.whole.closed.skip(0) =~= c.whole.closed);
    disk::law_entries_are_numbered(q.log, d, q.contents);
    disk::law_entries_are_numbered(m, last.disk, c.kept);
    disk::law_read_gives_what_was_appended(m, last.disk, c.kept, q.log.next, None);
    let first = reading::earliest(m)->Some_0;
    let slots = reading::read_plan(m, q.log.next, None)->Ok_0;
    assert(all[0].offset == first);
    if old.len() > 0 {
        assert(all[0] == old[0]);
    } else {
        assert(all[0] == batch(q, c.at)[0]);
    }
    assert forall|k: int| 0 <= k < slots.len() implies (#[trigger] slots[k]).offset == q.log.next
        + k && disk::slot_reads(slots[k], last.disk, batch(q, c.at)[k]) by {
        assert(all[q.log.next - first + k] == batch(q, c.at)[k]);
    }
    c
}

/// A log that is opened anew after an append is as the append has left it: it
/// has the same entries, and the next append goes on with the same offset.
pub proof fn law_reopening_after_append(
    stages: Seq<Stage>,
    q: Request,
    d: Disk,
    inputs: Seq<SegmentInput>,
    tail: Seq<u8>,
    now: u64,
) -> (c: Account)
    requires
        disk::stored(q.log, d, q.contents),
        carried_out(stages, q, d),
        refusal(q, batch_time(stages, q)) is None,
        disk::finds(inputs, stages.last().st.log, stages.last().disk, tail),
        tail.len() == 0 || segment::parse_record(tail) is Err,
        forall|i: int|
            0 <= i < stages.last().st.log.closed.len() ==> 8 * (
            #[trigger] stages.last().st.log.closed[i]).positions.len() <= MAX_INDEX_BYTES,
    ensures
        ({
            let end = opening::open_end(
                opening::open_steps(opening::unopened(), inputs, now),
                stages.last().disk.watermark,
            );
            &&& end.error is None
            &&& end.log == stages.last().st.log
            &&& end.log.next == q.log.next + q.events.len()
            &&& disk::stored(end.log, stages.last().disk, c.kept)
        }),
        c.at == batch_time(stages, q),
        disk::entries(c.whole) == disk::entries(q.contents) + batch(q, c.at),
        c.gone == to_go(q, c),
        c.kept == (Contents { closed: c.whole.closed.skip(c.gone), ..c.whole }),
{
    let c = law_append_is_stored(stages, q, d);
    let last = stages.last();
    disk::law_reopening_finds_everything(last.st.log, last.disk, c.kept, inputs, tail, now);
    c
}

} // verus!
