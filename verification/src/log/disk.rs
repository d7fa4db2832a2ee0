//! What the files of a segment log hold, and what every step of the log does
//! to them.
//!
//! Nothing here is executed. The laws say that the log and its files stay in
//! step: what was appended is what is read, and what a log that is opened anew
//! finds.

use vstd::prelude::*;

use crate::log::bytes;
use crate::log::entry::{EntryModel, Offset};
use crate::log::error::StorageError;
use crate::log::layout;
use crate::log::segment;
use crate::log::segment::{SegmentHeader, HEADER_LEN, MAX_INDEX_BYTES};
use crate::log::state;
use crate::log::state::appending;
use crate::log::state::opening;
use crate::log::state::opening::{OpenFix, Opening, SegmentInput};
use crate::log::state::reading;
use crate::log::state::reading::ReadSlot;
use crate::log::state::{ActiveModel, ClosedModel, LogModel};
use crate::model::event::OtkEvent;

verus! {

broadcast use bytes::group_le_len;

/// The files of a log: the data files and the index files by base offset, and
/// the watermark.
#[verifier::ext_equal]
pub struct Disk {
    pub data: Map<u64, Seq<u8>>,
    pub index: Map<u64, Seq<u8>>,
    pub watermark: Option<Seq<u8>>,
}

/// The entries of a segment, and its header.
#[verifier::ext_equal]
pub struct Run {
    pub header: SegmentHeader,
    pub entries: Seq<EntryModel>,
}

/// The entries of all segments.
#[verifier::ext_equal]
pub struct Contents {
    pub closed: Seq<Run>,
    pub active: Option<Run>,
}

/// The entries of segments, one behind the other.
pub open spec fn run_entries(runs: Seq<Run>) -> Seq<EntryModel>
    decreases runs.len(),
{
    if runs.len() == 0 {
        seq![]
    } else {
        run_entries(runs.drop_last()) + runs.last().entries
    }
}

/// All entries that are kept, in order.
pub open spec fn entries(s: Contents) -> Seq<EntryModel> {
    run_entries(s.closed) + match s.active {
        Some(r) => r.entries,
        None => seq![],
    }
}

/// A complete segment is what its files say.
pub open spec fn closed_stored(c: ClosedModel, r: Run, d: Disk) -> bool {
    &&& c.base == r.header.base_offset
    &&& layout::good_run(r.entries, c.base)
    &&& r.entries.len() >= 1
    &&& c.last + 1 == c.base + r.entries.len()
    &&& c.positions == layout::positions(r.entries)
    &&& c.last_appended == r.entries.last().appended_at_ns
    &&& d.data.contains_key(c.base)
    &&& d.data[c.base] == layout::data_file(r.header, r.entries, segment::end_mark())
    &&& c.size == d.data[c.base].len()
    &&& d.index.contains_key(c.base)
    &&& d.index[c.base] == segment::index_bytes(c.positions)
}

/// When the last entry was appended; 0 where there is none.
pub open spec fn last_time(es: Seq<EntryModel>) -> u64 {
    if es.len() == 0 {
        0
    } else {
        es.last().appended_at_ns
    }
}

/// The active segment is what its file says.
pub open spec fn active_stored(a: ActiveModel, r: Run, d: Disk) -> bool {
    &&& a.base == r.header.base_offset
    &&& a.created == r.header.created_at_ns
    &&& layout::good_run(r.entries, a.base)
    &&& a.positions == layout::positions(r.entries)
    &&& a.next_pos == layout::position(r.entries, r.entries.len() as int)
    &&& a.size == a.next_pos - HEADER_LEN
    &&& a.last_appended == last_time(r.entries)
    &&& d.data.contains_key(a.base)
    &&& d.data[a.base] == layout::data_file(r.header, r.entries, seq![])
}

/// The offset behind all complete segments: where the active one begins, or
/// would begin.
pub open spec fn open_base(m: LogModel) -> u64 {
    match m.active {
        Some(a) => a.base,
        None => m.next,
    }
}

/// The offset behind the complete segment with number `i`: where the next
/// segment begins, or the offset that comes next.
pub open spec fn following(m: LogModel, i: int) -> u64 {
    if i + 1 < m.closed.len() {
        m.closed[i + 1].base
    } else {
        open_base(m)
    }
}

/// Only complete segments have an index file, or have had one.
pub open spec fn tidy(m: LogModel, d: Disk) -> bool {
    forall|base: u64| #[trigger] d.index.contains_key(base) ==> base < open_base(m)
}

/// The segments of a log are in order and leave no gaps.
pub open spec fn chained(m: LogModel) -> bool {
    &&& forall|i: int, j: int|
        0 <= i < j < m.closed.len() ==> (#[trigger] m.closed[i]).last < (
        #[trigger] m.closed[j]).base
    &&& forall|i: int|
        0 <= i < m.closed.len() ==> (#[trigger] m.closed[i]).base <= m.closed[i].last
    &&& forall|i: int|
        0 <= i < m.closed.len() ==> #[trigger] following(m, i) == m.closed[i].last + 1
    &&& m.active matches Some(a) ==> m.next == a.base + a.positions.len() && (forall|i: int|
        0 <= i < m.closed.len() ==> (#[trigger] m.closed[i]).last < a.base)
}

/// Where the log has no entry in its active segment, the watermark says which
/// offset comes next. A log that has never been written to has none.
pub open spec fn marked(m: LogModel, d: Disk) -> bool {
    (m.active matches Some(a) ==> a.positions.len() == 0) ==> match d.watermark {
        Some(w) => segment::parse_watermark(w) == Some(m.next),
        None => m.next == 0,
    }
}

/// The log is in step with its files, which hold these entries.
pub open spec fn stored(m: LogModel, d: Disk, s: Contents) -> bool {
    &&& m.closed.len() == s.closed.len()
    &&& forall|i: int|
        0 <= i < m.closed.len() ==> closed_stored(#[trigger] m.closed[i], s.closed[i], d)
    &&& match (m.active, s.active) {
        (Some(a), Some(r)) => active_stored(a, r, d),
        (None, None) => true,
        _ => false,
    }
    &&& chained(m)
    &&& marked(m, d)
    &&& tidy(m, d)
}

/// A log that was never written to is in step with no files at all.
pub proof fn law_fresh_log()
    ensures
        stored(
            state::empty_log(),
            Disk { data: Map::empty(), index: Map::empty(), watermark: None },
            Contents { closed: seq![], active: None },
        ),
        entries(Contents { closed: seq![], active: None }) == Seq::<EntryModel>::empty(),
{
}

/// The files after a header was written for a fresh segment.
pub open spec fn disk_activated(d: Disk, base: u64, now: u64) -> Disk {
    Disk {
        data: d.data.insert(
            base,
            segment::header_bytes(SegmentHeader { base_offset: base, created_at_ns: now }),
        ),
        ..d
    }
}

/// Beginning a segment changes no entry.
pub proof fn law_activation_keeps_entries(m: LogModel, d: Disk, s: Contents, now: u64)
    requires
        stored(m, d, s),
        m.active is None,
    ensures
        ({
            let after = Contents {
                active: Some(
                    Run {
                        header: SegmentHeader { base_offset: m.next, created_at_ns: now },
                        entries: seq![],
                    },
                ),
                ..s
            };
            &&& stored(appending::activated(m, now), disk_activated(d, m.next, now), after)
            &&& entries(after) == entries(s)
        }),
{
    let h = SegmentHeader { base_offset: m.next, created_at_ns: now };
    let m2 = appending::activated(m, now);
    let d2 = disk_activated(d, m.next, now);
    let none = Seq::<EntryModel>::empty();
    let a = m2.active->Some_0;
    segment::law_header_reads_back(h, seq![]);
    assert(layout::data_file(h, none, seq![]) =~= segment::header_bytes(h));
    assert(a.positions =~= layout::positions(none));
    assert(none.take(0) =~= none);
    assert forall|i: int| 0 <= i < m2.closed.len() implies closed_stored(
        #[trigger] m2.closed[i],
        s.closed[i],
        d2,
    ) && m2.closed[i].last < m.next by {
        assert(closed_stored(m.closed[i], s.closed[i], d));
        lemma_below_next(m, i);
    }
    assert forall|i: int| 0 <= i < m2.closed.len() implies #[trigger] following(m2, i)
        == m2.closed[i].last + 1 by {
        assert(following(m, i) == following(m2, i));
    }
}

/// A complete segment ends before the offset that comes next.
proof fn lemma_below_next(m: LogModel, i: int)
    requires
        chained(m),
        0 <= i < m.closed.len(),
    ensures
        m.closed[i].last < m.next,
{
    let k = m.closed.len() - 1;
    assert(following(m, k) == m.closed[k].last + 1);
    if i < k {
        assert(m.closed[i].last < m.closed[k].base);
    }
}

/// The files after bytes were written to the end of a data file.
pub open spec fn disk_extended(d: Disk, base: u64, bytes: Seq<u8>) -> Disk {
    Disk { data: d.data.insert(base, d.data[base] + bytes), ..d }
}

/// What is appended comes behind what was there, and nothing else changes.
pub proof fn law_append_adds_entries(
    m: LogModel,
    d: Disk,
    s: Contents,
    now: u64,
    producer: Seq<char>,
    events: Seq<OtkEvent>,
)
    requires
        stored(m, d, s),
        m.active is Some,
        events.len() > 0,
        ({
            let es = appending::batch_entries(m.next, now, producer, events);
            appending::batch_faults(m, es, 0) is None && forall|i: int|
                0 <= i < es.len() ==> layout::good(#[trigger] es[i])
        }),
    ensures
        ({
            let es = appending::batch_entries(m.next, now, producer, events);
            let a = m.active->Some_0;
            let bytes = segment::records_bytes(es);
            let r = s.active->Some_0;
            let after = Contents {
                active: Some(Run { entries: r.entries + es, ..r }),
                ..s
            };
            let log = appending::committed(
                m,
                appending::batch_positions(a.next_pos, es),
                (m.next + es.len()) as u64,
                now,
                (a.next_pos + bytes.len()) as u64,
            );
            &&& stored(log, disk_extended(d, a.base, bytes), after)
            &&& entries(after) == entries(s) + es
        }),
{
    let es = appending::batch_entries(m.next, now, producer, events);
    let a = m.active->Some_0;
    let r = s.active->Some_0;
    let n = es.len() as int;
    let bytes = segment::records_bytes(es);
    let d2 = disk_extended(d, a.base, bytes);
    let m2 = appending::committed(
        m,
        appending::batch_positions(a.next_pos, es),
        (m.next + es.len()) as u64,
        now,
        (a.next_pos + bytes.len()) as u64,
    );
    appending::lemma_no_fault(m, es, 0, n - 1);
    assert(es.take(n) =~= es);
    lemma_active_extended(a, r, d, es);
    assert forall|i: int| 0 <= i < m2.closed.len() implies closed_stored(
        #[trigger] m2.closed[i],
        s.closed[i],
        d2,
    ) by {
        assert(closed_stored(m.closed[i], s.closed[i], d));
    }
    assert forall|i: int| 0 <= i < m2.closed.len() implies #[trigger] following(m2, i)
        == m2.closed[i].last + 1 by {
        assert(following(m, i) == following(m2, i));
    }
    assert((run_entries(s.closed) + r.entries) + es =~= run_entries(s.closed) + (r.entries + es));
}

/// The active segment is in step with its file after records were written.
proof fn lemma_active_extended(a: ActiveModel, r: Run, d: Disk, es: Seq<EntryModel>)
    requires
        active_stored(a, r, d),
        es.len() > 0,
        a.base + a.positions.len() + es.len() <= u64::MAX,
        a.next_pos + segment::records_bytes(es).len() <= u64::MAX,
        forall|i: int|
            0 <= i < es.len() ==> layout::good(#[trigger] es[i]) && es[i].offset == a.base
                + a.positions.len() + i,
    ensures
        ({
            let end = a.next_pos + segment::records_bytes(es).len();
            active_stored(
                ActiveModel {
                    positions: a.positions + appending::batch_positions(a.next_pos, es),
                    next_pos: end as u64,
                    size: (end - HEADER_LEN) as u64,
                    last_appended: es.last().appended_at_ns,
                    ..a
                },
                Run { entries: r.entries + es, ..r },
                disk_extended(d, a.base, segment::records_bytes(es)),
            )
        }),
{
    let bytes = segment::records_bytes(es);
    let all = r.entries + es;
    let ps = a.positions + appending::batch_positions(a.next_pos, es);
    layout::lemma_records_concat(r.entries, es);
    assert(layout::data_file(r.header, r.entries, seq![]) + bytes =~= layout::data_file(
        r.header,
        all,
        seq![],
    ));
    assert(r.entries.take(r.entries.len() as int) =~= r.entries);
    assert(all.take(all.len() as int) =~= all);
    assert forall|i: int| 0 <= i < all.len() implies layout::good(#[trigger] all[i])
        && all[i].offset == a.base + i by {
        if i >= r.entries.len() {
            assert(all[i] == es[i - r.entries.len()]);
        } else {
            assert(all[i] == r.entries[i]);
        }
    }
    assert forall|i: int| 0 <= i < all.len() implies ps[i] == #[trigger] layout::positions(all)[i] by {
        if i < r.entries.len() {
            assert(all.take(i) =~= r.entries.take(i));
            assert(a.positions[i] == layout::positions(r.entries)[i]);
        } else {
            let j = i - r.entries.len();
            assert(all.take(i) =~= r.entries + es.take(j));
            layout::lemma_records_concat(r.entries, es.take(j));
        }
    }
    assert(ps =~= layout::positions(all));
}

/// The files after the active segment was closed: its end mark, its index and
/// the watermark were written.
pub open spec fn disk_rolled(d: Disk, base: u64, positions: Seq<u64>, next: u64) -> Disk {
    Disk {
        data: d.data.insert(base, d.data[base] + segment::end_mark()),
        index: d.index.insert(base, segment::index_bytes(positions)),
        watermark: Some(bytes::le8(next as int)),
    }
}

/// Closing a segment changes no entry.
pub proof fn law_roll_keeps_entries(m: LogModel, d: Disk, s: Contents)
    requires
        stored(m, d, s),
        m.active matches Some(a) && a.positions.len() > 0 && a.next_pos + 4 <= u64::MAX,
    ensures
        ({
            let a = m.active->Some_0;
            let after = Contents { closed: s.closed.push(s.active->Some_0), active: None };
            &&& stored(
                appending::rolled(m, (a.next_pos + 4) as u64),
                disk_rolled(d, a.base, a.positions, m.next),
                after,
            )
            &&& entries(after) == entries(s)
        }),
{
    let a = m.active->Some_0;
    let r = s.active->Some_0;
    let d2 = disk_rolled(d, a.base, a.positions, m.next);
    let m2 = appending::rolled(m, (a.next_pos + 4) as u64);
    let after = Contents { closed: s.closed.push(r), active: None };
    segment::law_watermark_reads_back(m.next);
    segment::law_header_reads_back(r.header, seq![]);
    assert(r.entries.take(r.entries.len() as int) =~= r.entries);
    assert(d.data[a.base] + segment::end_mark() =~= layout::data_file(r.header, r.entries, segment::end_mark()));
    assert forall|i: int| 0 <= i < m2.closed.len() implies closed_stored(
        #[trigger] m2.closed[i],
        after.closed[i],
        d2,
    ) && m2.closed[i].base <= m2.closed[i].last by {
        if i < m.closed.len() {
            assert(closed_stored(m.closed[i], s.closed[i], d));
        }
    }
    assert forall|i: int| 0 <= i < m2.closed.len() implies #[trigger] following(m2, i)
        == m2.closed[i].last + 1 by {
        if i < m.closed.len() {
            assert(following(m, i) == following(m2, i));
        }
    }
    assert(after.closed.drop_last() =~= s.closed);
    assert(entries(after) =~= entries(s));
}

/// The files after those of a complete segment were deleted.
pub open spec fn disk_evicted(d: Disk, base: u64) -> Disk {
    Disk { data: d.data.remove(base), index: d.index.remove(base), ..d }
}

/// Evicting the oldest segment takes its entries away, which are the first
/// ones, and no others.
pub proof fn law_eviction_drops_oldest(m: LogModel, d: Disk, s: Contents)
    requires
        stored(m, d, s),
        m.closed.len() > 0,
    ensures
        ({
            let after = Contents { closed: s.closed.skip(1), ..s };
            &&& stored(
                appending::evicted(m),
                disk_evicted(d, m.closed[0].base),
                after,
            )
            &&& entries(s) == s.closed[0].entries + entries(after)
        }),
{
    let m2 = appending::evicted(m);
    let d2 = disk_evicted(d, m.closed[0].base);
    let after = Contents { closed: s.closed.skip(1), ..s };
    assert forall|i: int| 0 <= i < m2.closed.len() implies closed_stored(
        #[trigger] m2.closed[i],
        after.closed[i],
        d2,
    ) by {
        assert(closed_stored(m.closed[i + 1], s.closed[i + 1], d));
        assert(m.closed[0].last < m.closed[i + 1].base);
    }
    assert forall|i: int| 0 <= i < m2.closed.len() implies #[trigger] following(m2, i)
        == m2.closed[i].last + 1 by {
        assert(following(m, i + 1) == following(m2, i));
    }
    if let Some(a) = m.active {
        assert(m.closed[0].last < a.base);
    }
    lemma_first_run(s.closed);
    assert(entries(s) =~= s.closed[0].entries + entries(after));
}

/// The entries of segments are those of the first and of the others.
pub proof fn lemma_first_run(runs: Seq<Run>)
    requires
        runs.len() > 0,
    ensures
        run_entries(runs) == runs[0].entries + run_entries(runs.skip(1)),
    decreases runs.len(),
{
    if runs.len() == 1 {
        assert(runs.drop_last() =~= seq![]);
        assert(runs.skip(1) =~= seq![]);
        assert(run_entries(runs) =~= runs[0].entries + run_entries(runs.skip(1)));
    } else {
        lemma_first_run(runs.drop_last());
        assert(runs.drop_last().skip(1) =~= runs.skip(1).drop_last());
        assert(run_entries(runs) =~= runs[0].entries + run_entries(runs.skip(1)));
    }
}

/// The offset behind the last complete segment.
pub open spec fn closed_end(m: LogModel) -> int
    recommends
        m.closed.len() > 0,
{
    m.closed.last().last + 1
}

/// The offset behind the last entry of a segment.
pub open spec fn run_end(r: Run) -> int {
    r.header.base_offset + r.entries.len()
}

/// The segment with number `i + 1` begins where the one with number `i` ends.
pub open spec fn meets(runs: Seq<Run>, i: int) -> bool {
    run_end(runs[i]) == runs[i + 1].header.base_offset
}

/// Segments whose entries are numbered without gaps.
pub open spec fn lined_up(runs: Seq<Run>) -> bool {
    &&& forall|i: int| 0 <= i < runs.len() - 1 ==> #[trigger] meets(runs, i)
    &&& forall|i: int, j: int|
        0 <= i < runs.len() && 0 <= j < runs[i].entries.len() ==> (#[trigger] runs[i].entries[j]).offset
            == runs[i].header.base_offset + j
}

/// The complete segments of a log have entries that are numbered without gaps.
pub proof fn lemma_lined_up(m: LogModel, d: Disk, s: Contents)
    requires
        stored(m, d, s),
    ensures
        lined_up(s.closed),
{
    assert forall|i: int| 0 <= i < s.closed.len() - 1 implies #[trigger] meets(s.closed, i) by {
        assert(closed_stored(m.closed[i], s.closed[i], d));
        assert(closed_stored(m.closed[i + 1], s.closed[i + 1], d));
        assert(following(m, i) == m.closed[i].last + 1);
    }
    assert forall|i: int, j: int|
        0 <= i < s.closed.len() && 0 <= j < s.closed[i].entries.len() implies (
    #[trigger] s.closed[i].entries[j]).offset == s.closed[i].header.base_offset + j by {
        assert(closed_stored(m.closed[i], s.closed[i], d));
        assert(layout::good(s.closed[i].entries[j]));
    }
}

/// The entries of segments are numbered without gaps, and the entry with
/// number `j` of segment `i` is found by its offset.
pub proof fn lemma_run_entries(runs: Seq<Run>, i: int, j: int)
    requires
        lined_up(runs),
        0 <= i < runs.len(),
        0 <= j < runs[i].entries.len(),
    ensures
        run_entries(runs).len() == run_end(runs.last()) - runs[0].header.base_offset,
        runs[0].header.base_offset <= runs[i].header.base_offset,
        runs[i].header.base_offset - runs[0].header.base_offset + j < run_entries(runs).len(),
        run_entries(runs)[runs[i].header.base_offset - runs[0].header.base_offset + j]
            == runs[i].entries[j],
    decreases runs.len(),
{
    lemma_run_len(runs);
    if i < runs.len() - 1 {
        let front = runs.drop_last();
        lemma_lined_up_front(runs);
        lemma_run_entries(front, i, j);
    } else if runs.len() > 1 {
        lemma_lined_up_front(runs);
        lemma_run_len(runs.drop_last());
        assert(meets(runs, runs.len() - 2));
    } else {
        assert(runs.drop_last() =~= seq![]);
        assert(run_entries(runs.drop_last()) =~= seq![]);
    }
}

/// Without the last one, segments are still numbered without gaps.
proof fn lemma_lined_up_front(runs: Seq<Run>)
    requires
        lined_up(runs),
        runs.len() > 0,
    ensures
        lined_up(runs.drop_last()),
{
    let front = runs.drop_last();
    assert forall|i: int| 0 <= i < front.len() - 1 implies #[trigger] meets(front, i) by {
        assert(meets(runs, i));
    }
    assert forall|i: int, j: int|
        0 <= i < front.len() && 0 <= j < front[i].entries.len() implies (
    #[trigger] front[i].entries[j]).offset == front[i].header.base_offset + j by {
        assert(runs[i].entries[j].offset == runs[i].header.base_offset + j);
    }
}

/// How many entries segments have.
pub proof fn lemma_run_len(runs: Seq<Run>)
    requires
        lined_up(runs),
        runs.len() > 0,
    ensures
        run_entries(runs).len() == run_end(runs.last()) - runs[0].header.base_offset,
    decreases runs.len(),
{
    let front = runs.drop_last();
    if runs.len() == 1 {
        assert(front =~= seq![]);
        assert(run_entries(front) =~= seq![]);
    } else {
        lemma_lined_up_front(runs);
        lemma_run_len(front);
        assert(meets(runs, runs.len() - 2));
    }
}

/// The entries of segments are numbered without gaps.
proof fn lemma_run_offsets(runs: Seq<Run>)
    requires
        lined_up(runs),
        runs.len() > 0,
    ensures
        forall|i: int|
            0 <= i < run_entries(runs).len() ==> (#[trigger] run_entries(runs)[i]).offset
                == runs[0].header.base_offset + i,
    decreases runs.len(),
{
    let front = runs.drop_last();
    let before = run_entries(front);
    if runs.len() == 1 {
        assert(front =~= seq![]);
        assert(before =~= seq![]);
    } else {
        lemma_lined_up_front(runs);
        lemma_run_offsets(front);
        lemma_run_len(front);
        assert(meets(runs, runs.len() - 2));
    }
    assert forall|i: int| 0 <= i < run_entries(runs).len() implies (
    #[trigger] run_entries(runs)[i]).offset == runs[0].header.base_offset + i by {
        if i < before.len() {
            assert(run_entries(runs)[i] == before[i]);
        } else {
            let j = i - before.len();
            assert(run_entries(runs)[i] == runs[runs.len() - 1].entries[j]);
        }
    }
}

/// The entries that are kept are numbered without gaps from the first one to
/// the one before the offset that comes next.
pub proof fn law_entries_are_numbered(m: LogModel, d: Disk, s: Contents)
    requires
        stored(m, d, s),
    ensures
        match reading::earliest(m) {
            Some(first) => entries(s).len() == m.next - first && entries(s).len() > 0,
            None => entries(s).len() == 0,
        },
        forall|i: int|
            0 <= i < entries(s).len() ==> (#[trigger] entries(s)[i]).offset
                == reading::earliest(m)->Some_0 + i,
{
    let n = m.closed.len() as int;
    let all = entries(s);
    lemma_lined_up(m, d, s);
    if let Some(a) = m.active {
        assert(active_stored(a, s.active->Some_0, d));
        assert(a.positions.len() == s.active->Some_0.entries.len());
    }
    if n > 0 {
        let first = m.closed[0].base;
        assert(closed_stored(m.closed[0], s.closed[0], d));
        assert(closed_stored(m.closed[n - 1], s.closed[n - 1], d));
        lemma_run_len(s.closed);
        lemma_run_offsets(s.closed);
        assert(following(m, n - 1) == m.closed[n - 1].last + 1);
        assert forall|i: int| 0 <= i < all.len() implies (#[trigger] all[i]).offset == first + i by {
            if i < run_entries(s.closed).len() {
                assert(all[i] == run_entries(s.closed)[i]);
            } else {
                let j = i - run_entries(s.closed).len();
                assert(all[i] == s.active->Some_0.entries[j]);
            }
        }
    } else {
        assert(s.closed =~= seq![]);
        assert(all =~= match s.active {
            Some(r) => r.entries,
            None => seq![],
        });
    }
}

/// What is read for slots are these entries, from number `at` on, and they
/// have the offsets from `start` on.
pub open spec fn slots_read(
    slots: Seq<ReadSlot>,
    start: int,
    d: Disk,
    all: Seq<EntryModel>,
    at: int,
) -> bool {
    forall|k: int|
        0 <= k < slots.len() ==> (#[trigger] slots[k]).offset == start + k && slot_reads(
            slots[k],
            d,
            all[at + k],
        )
}

/// What is read for a slot is this entry.
pub open spec fn slot_reads(slot: ReadSlot, d: Disk, e: EntryModel) -> bool {
    d.data.contains_key(slot.base) && reading::slot_entry(
        slot,
        d.data[slot.base].skip(slot.position as int),
    ) == Ok::<EntryModel, StorageError>(e)
}

/// What is read for the slots of a segment are its entries.
proof fn lemma_segment_slots(r: Run, d: Disk, tail: Seq<u8>, start: int, end: int)
    requires
        ({
            let base = r.header.base_offset;
            &&& layout::good_run(r.entries, base)
            &&& d.data.contains_key(base)
            &&& d.data[base] == layout::data_file(r.header, r.entries, tail)
            &&& d.data[base].len() <= u64::MAX
            &&& base <= start
            &&& end <= base + r.entries.len()
        }),
    ensures
        slots_read(
            reading::segment_slots(
                r.header.base_offset,
                layout::positions(r.entries),
                start,
                end,
            ),
            start,
            d,
            r.entries,
            start - r.header.base_offset,
        ),
{
    let base = r.header.base_offset;
    let slots = reading::segment_slots(base, layout::positions(r.entries), start, end);
    assert forall|k: int| 0 <= k < slots.len() implies (#[trigger] slots[k]).offset == start + k
        && slot_reads(slots[k], d, r.entries[start - base + k]) by {
        let j = start - base + k;
        assert(layout::good(r.entries[j]));
        layout::lemma_read_at(r.header, r.entries, tail, j);
        assert(layout::positions(r.entries)[j] == layout::position(r.entries, j));
    }
}

/// What is read for the slots of a complete segment are entries of the log.
proof fn lemma_run_slots(m: LogModel, d: Disk, s: Contents, i: int, start: int, stop: int)
    requires
        stored(m, d, s),
        0 <= i < m.closed.len(),
        m.closed[i].base <= start,
        stop <= m.closed[i].last + 1,
    ensures
        slots_read(
            reading::segment_slots(m.closed[i].base, m.closed[i].positions, start, stop),
            start,
            d,
            run_entries(s.closed),
            start - m.closed[0].base,
        ),
{
    let c = m.closed[i];
    let here = reading::segment_slots(c.base, c.positions, start, stop);
    lemma_lined_up(m, d, s);
    assert(closed_stored(m.closed[0], s.closed[0], d));
    assert(closed_stored(c, s.closed[i], d));
    lemma_segment_slots(s.closed[i], d, segment::end_mark(), start, stop);
    assert forall|k: int| 0 <= k < here.len() implies (#[trigger] here[k]).offset == start + k
        && slot_reads(here[k], d, run_entries(s.closed)[start - m.closed[0].base + k]) by {
        lemma_run_entries(s.closed, i, start - c.base + k);
    }
}

/// What is read for the slots of complete segments are their entries.
proof fn lemma_closed_slots(m: LogModel, d: Disk, s: Contents, i: int, from: u64, to: u64)
    requires
        stored(m, d, s),
        m.closed.len() > 0,
        0 <= i < m.closed.len(),
        m.closed[0].base <= from < to,
    ensures
        ({
            let slots = reading::closed_slots(m.closed, i, from, to);
            let start = reading::max(from as int, m.closed[i].base as int);
            let end = reading::min(to as int, closed_end(m));
            &&& slots.len() == reading::max(0, end - start)
            &&& slots_read(
                slots,
                start,
                d,
                run_entries(s.closed),
                start - m.closed[0].base,
            )
        }),
    decreases m.closed.len() - i,
{
    let n = m.closed.len() as int;
    let c = m.closed[i];
    let all = run_entries(s.closed);
    let first = m.closed[0].base;
    let slots = reading::closed_slots(m.closed, i, from, to);
    let start = reading::max(from as int, c.base as int);
    let end = reading::min(to as int, closed_end(m));
    assert(closed_stored(c, s.closed[i], d));
    assert(closed_stored(m.closed[n - 1], s.closed[n - 1], d));
    if i + 1 < n {
        assert(following(m, i) == m.closed[i + 1].base);
        assert(m.closed[i].last < m.closed[n - 1].base);
        lemma_closed_slots(m, d, s, i + 1, from, to);
    }
    let rest = reading::closed_slots(m.closed, i + 1, from, to);
    if c.last < from {
        if i + 1 == n {
            assert(rest =~= seq![]);
        }
    } else if c.base < to {
        let stop = reading::min(to as int, c.last + 1);
        let here = reading::segment_slots(c.base, c.positions, start, stop);
        lemma_run_slots(m, d, s, i, start, stop);
        assert forall|k: int| 0 <= k < slots.len() implies (#[trigger] slots[k]).offset == start
            + k && slot_reads(slots[k], d, all[start - first + k]) by {
            if k < here.len() {
                assert(slots[k] == here[k]);
            } else {
                assert(slots[k] == rest[k - here.len()]);
            }
        }
    }
}

/// Reading a range gives exactly the entries of the range that are there. It is
/// refused if and only if the range begins with an offset that was given out and
/// is not kept, even if the range is empty.
pub proof fn law_read_gives_what_was_appended(
    m: LogModel,
    d: Disk,
    s: Contents,
    from: u64,
    to: Option<u64>,
)
    requires
        stored(m, d, s),
    ensures
        ({
            let end = reading::min(
                m.next as int,
                match to {
                    Some(to) => to as int,
                    None => m.next as int,
                },
            );
            let kept = reading::earliest(m) matches Some(first) && first <= from;
            match reading::read_plan(m, from, to) {
                Ok(slots) => {
                    &&& from >= m.next || kept
                    &&& slots.len() == reading::max(0, end - from)
                    &&& slots.len() > 0 ==> slots_read(
                        slots,
                        from as int,
                        d,
                        entries(s),
                        from - reading::earliest(m)->Some_0,
                    )
                },
                Err(e) => from < m.next && !kept && e == StorageError::RetentionExpired {
                    requested: Offset(from),
                    earliest_available: match reading::earliest(m) {
                        Some(first) => Some(Offset(first)),
                        None => None,
                    },
                },
            }
        }),
{
    let n = m.closed.len() as int;
    let end = match to {
        Some(to) => to,
        None => u64::MAX,
    };
    let plan = reading::read_plan(m, from, to);
    if n > 0 {
        assert(following(m, n - 1) == m.closed[n - 1].last + 1);
        assert(closed_stored(m.closed[0], s.closed[0], d));
    }
    if from < end && from < m.next {
        if reading::retention_fault(m, from) is None {
            let first = reading::earliest(m)->Some_0;
            let slots = plan->Ok_0;
            let all = entries(s);
            let front = reading::closed_slots(m.closed, 0, from, end);
            let back = reading::active_slots(m.active, from, end);
            lemma_active_slots(m, d, s, from, end);
            lemma_lined_up(m, d, s);
            if n > 0 {
                assert(closed_stored(m.closed[n - 1], s.closed[n - 1], d));
                lemma_closed_slots(m, d, s, 0, from, end);
                lemma_run_len(s.closed);
            } else {
                assert(s.closed =~= seq![]);
            }
            assert(slots == front + back);
            assert forall|k: int| 0 <= k < slots.len() implies (#[trigger] slots[k]).offset == from
                + k && slot_reads(slots[k], d, all[from - first + k]) by {
                if k < front.len() {
                    assert(slots[k] == front[k]);
                    assert(all[from - first + k] == run_entries(s.closed)[from - first + k]);
                } else {
                    assert(slots[k] == back[k - front.len()]);
                }
            }
        }
    }
}

/// What is read for the slots of the active segment are its entries.
proof fn lemma_active_slots(m: LogModel, d: Disk, s: Contents, from: u64, to: u64)
    requires
        stored(m, d, s),
        from < to,
    ensures
        ({
            let slots = reading::active_slots(m.active, from, to);
            match m.active {
                None => slots.len() == 0,
                Some(a) => {
                    let start = reading::max(from as int, a.base as int);
                    let end = reading::min(to as int, m.next as int);
                    &&& slots.len() == reading::max(0, end - start)
                    &&& slots_read(
                        slots,
                        start,
                        d,
                        s.active->Some_0.entries,
                        start - a.base,
                    )
                },
            }
        }),
{
    if let Some(a) = m.active {
        let r = s.active->Some_0;
        assert(active_stored(a, r, d));
        assert(a.positions.len() == r.entries.len());
        if a.base < to && a.base + a.positions.len() > from {
            segment::law_header_reads_back(r.header, seq![]);
            assert(r.entries.take(r.entries.len() as int) =~= r.entries);
            lemma_segment_slots(
                r,
                d,
                seq![],
                reading::max(from as int, a.base as int),
                reading::min(to as int, (a.base + a.positions.len()) as int),
            );
        }
    }
}

/// What is found of a complete segment when a log is opened.
pub open spec fn finds_closed(input: SegmentInput, c: ClosedModel, d: Disk) -> bool {
    input matches SegmentInput::Closed { base, index, head, last, size } && base == c.base
        && index@ == d.index[base] && head@ == d.data[base].take(HEADER_LEN as int) && last@
        == d.data[base].skip(c.positions.last() as int) && size == d.data[base].len()
}

/// What is found of the segments when a log is opened. Behind the records of
/// the active segment there may be something else.
pub open spec fn finds(inputs: Seq<SegmentInput>, m: LogModel, d: Disk, tail: Seq<u8>) -> bool {
    let n = m.closed.len() as int;
    &&& forall|i: int| 0 <= i < n ==> finds_closed(#[trigger] inputs[i], m.closed[i], d)
    &&& match m.active {
        None => inputs.len() == n,
        Some(a) => inputs.len() == n + 1 && (inputs[n] matches SegmentInput::Unindexed {
            base,
            data,
        } && base == a.base && data@ == d.data[base] + tail),
    }
}

/// Opening a log finds it as it was, whatever lies behind the records of its
/// active segment, as long as that is not one more record: an append that was
/// cut short, or the end mark of a segment that has no index yet. That is cut
/// off, and nothing else is done to the files.
pub proof fn law_reopening_finds_everything(
    m: LogModel,
    d: Disk,
    s: Contents,
    inputs: Seq<SegmentInput>,
    tail: Seq<u8>,
    now: u64,
)
    requires
        stored(m, d, s),
        forall|i: int|
            0 <= i < m.closed.len() ==> 8 * (#[trigger] m.closed[i]).positions.len()
                <= MAX_INDEX_BYTES,
        finds(inputs, m, d, tail),
        tail.len() == 0 || segment::parse_record(tail) is Err,
    ensures
        ({
            let end = opening::open_end(
                opening::open_steps(opening::unopened(), inputs, now),
                d.watermark,
            );
            &&& end.error is None
            &&& end.log == LogModel { poisoned: false, ..m }
            &&& end.fixes == match m.active {
                Some(a) if tail.len() > 0 => seq![OpenFix::Truncate(a.base, a.next_pos as int)],
                _ => seq![],
            }
        }),
{
    let n = m.closed.len() as int;
    lemma_opens_closed(m, d, s, inputs, tail, now, n);
    assert(m.closed.take(n) =~= m.closed);
    if n > 0 {
        assert(following(m, n - 1) == m.closed[n - 1].last + 1);
        assert(closed_stored(m.closed[n - 1], s.closed[n - 1], d));
    }
    match m.active {
        None => {
            assert(inputs.take(n) =~= inputs);
        },
        Some(a) => {
            assert(inputs.drop_last() =~= inputs.take(n));
            lemma_opens_active(a, s.active->Some_0, d, opened_closed(m, n), inputs[n], tail, now);
        },
    }
}

/// The opening after the first `i` complete segments.
spec fn opened_closed(m: LogModel, i: int) -> Opening {
    Opening {
        log: LogModel {
            closed: m.closed.take(i),
            active: None,
            next: (if i == 0 {
                0
            } else {
                m.closed[i - 1].last + 1
            }) as u64,
            poisoned: false,
        },
        fixes: seq![],
        error: None,
    }
}

proof fn lemma_opens_closed(
    m: LogModel,
    d: Disk,
    s: Contents,
    inputs: Seq<SegmentInput>,
    tail: Seq<u8>,
    now: u64,
    i: int,
)
    requires
        stored(m, d, s),
        forall|i: int|
            0 <= i < m.closed.len() ==> 8 * (#[trigger] m.closed[i]).positions.len()
                <= MAX_INDEX_BYTES,
        finds(inputs, m, d, tail),
        0 <= i <= m.closed.len(),
    ensures
        opening::open_steps(opening::unopened(), inputs.take(i), now) == opened_closed(m, i),
    decreases i,
{
    if i == 0 {
        assert(m.closed.take(0) =~= seq![]);
    } else {
        let k = i - 1;
        lemma_opens_closed(m, d, s, inputs, tail, now, k);
        assert(inputs.take(i).drop_last() =~= inputs.take(k));
        assert(inputs.take(i).last() == inputs[k]);
        assert(closed_stored(m.closed[k], s.closed[k], d));
        assert(finds_closed(inputs[k], m.closed[k], d));
        lemma_opens_one(m.closed[k], s.closed[k], d, opened_closed(m, k), inputs[k], now);
        assert(m.closed.take(k).push(m.closed[k]) =~= m.closed.take(i));
    }
}

proof fn lemma_opens_one(c: ClosedModel, r: Run, d: Disk, o: Opening, input: SegmentInput, now: u64)
    requires
        closed_stored(c, r, d),
        8 * c.positions.len() <= MAX_INDEX_BYTES,
        finds_closed(input, c, d),
        o.error is None,
    ensures
        opening::open_step(o, input, now) == (Opening {
            log: LogModel {
                closed: o.log.closed.push(c),
                next: (c.last + 1) as u64,
                ..o.log
            },
            ..o
        }),
{
    let file = d.data[c.base];
    let k = r.entries.len() - 1;
    segment::law_index_reads_back(c.positions);
    segment::law_header_reads_back(r.header, seq![]);
    assert(file.take(HEADER_LEN as int) =~= segment::header_bytes(r.header) + seq![]);
    assert(layout::good(r.entries[k]));
    layout::lemma_read_at(r.header, r.entries, segment::end_mark(), k);
    assert(c.positions.last() == layout::position(r.entries, k));
}

proof fn lemma_opens_active(
    a: ActiveModel,
    r: Run,
    d: Disk,
    o: Opening,
    input: SegmentInput,
    tail: Seq<u8>,
    now: u64,
)
    requires
        active_stored(a, r, d),
        o.error is None,
        o.log.active is None,
        tail.len() == 0 || segment::parse_record(tail) is Err,
        input matches SegmentInput::Unindexed { base, data } && base == a.base && data@
            == d.data[base] + tail,
    ensures
        opening::open_step(o, input, now) == (Opening {
            log: LogModel {
                active: Some(a),
                next: (a.base + a.positions.len()) as u64,
                ..o.log
            },
            fixes: if tail.len() > 0 {
                o.fixes.push(OpenFix::Truncate(a.base, a.next_pos as int))
            } else {
                o.fixes
            },
            ..o
        }),
{
    let data = input->Unindexed_data;
    let n = r.entries.len() as int;
    segment::law_header_reads_back(r.header, segment::records_bytes(r.entries) + tail);
    assert(data@.len() == data.len());
    assert(data@ =~= layout::data_file(r.header, r.entries, tail));
    assert(data@ =~= segment::header_bytes(r.header) + (segment::records_bytes(r.entries) + tail));
    layout::law_recovery_is_exact(r.header, r.entries, a.base, tail);
    assert(r.entries.take(n) =~= r.entries);
    if n > 0 {
        assert(layout::good(r.entries[n - 1]));
        layout::lemma_read_at(r.header, r.entries, tail, n - 1);
        assert(a.positions.last() == layout::position(r.entries, n - 1));
    }
}

} // verus!
