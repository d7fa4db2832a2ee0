//! A subscription that is told what the files of a log hold delivers the entries
//! of the log.

use vstd::prelude::*;

use crate::log::bytes;
use crate::log::disk;
use crate::log::disk::{Contents, Disk, Run};
use crate::log::entry::{EntryModel, Offset};
use crate::log::error::{Corruption, StorageError};
use crate::log::layout;
use crate::log::names;
use crate::log::segment;
use crate::log::segment::{HEADER_LEN, MAX_INDEX_BYTES};
use crate::log::state::LogModel;
use crate::log::subscription;
use crate::log::subscription::{
    Cursor, SegmentLogSubscription, SubscriptionAction, SubscriptionEvent, SubscriptionModel,
    SubscriptionPhase, SubscriptionState,
};

verus! {

broadcast use bytes::group_le_len;

/// The segments of a log, the active one last.
pub open spec fn runs(s: Contents) -> Seq<Run> {
    match s.active {
        Some(r) => s.closed.push(r),
        None => s.closed,
    }
}

/// What lies behind the records of a segment.
pub open spec fn tail_of(s: Contents, k: int) -> Seq<u8> {
    if k < s.closed.len() {
        segment::end_mark()
    } else {
        seq![]
    }
}

/// The files of one segment.
pub open spec fn on_disk(d: Disk, s: Contents, k: int) -> bool {
    let r = runs(s)[k];
    let base = r.header.base_offset;
    &&& layout::good_run(r.entries, base)
    &&& d.data.contains_key(base)
    &&& d.data[base] == layout::data_file(r.header, r.entries, tail_of(s, k))
    &&& d.data[base].len() <= u64::MAX
    &&& if k < s.closed.len() {
        &&& r.entries.len() >= 1
        &&& d.index.contains_key(base)
        &&& d.index[base] == segment::index_bytes(layout::positions(r.entries))
    } else {
        !d.index.contains_key(base)
    }
}

/// The log is in step with its files, there are no data files but those of its
/// segments, and the index files are not too large to be read.
pub open spec fn in_order(m: LogModel, d: Disk, s: Contents) -> bool {
    &&& disk::stored(m, d, s)
    &&& forall|base: u64| #[trigger] d.data.contains_key(base) ==> has_segment(s, base)
    &&& forall|k: int|
        0 <= k < s.closed.len() ==> 8 * (#[trigger] s.closed[k]).entries.len() <= MAX_INDEX_BYTES
}

/// The segments of a log in terms of their files.
proof fn lemma_files(m: LogModel, d: Disk, s: Contents)
    requires
        in_order(m, d, s),
    ensures
        disk::lined_up(runs(s)),
        disk::run_entries(runs(s)) == disk::entries(s),
        forall|k: int| 0 <= k < runs(s).len() ==> #[trigger] on_disk(d, s, k),
        runs(s).len() > 0 ==> disk::run_end(runs(s).last()) == m.next,
{
    let rs = runs(s);
    let n = s.closed.len() as int;
    disk::lemma_lined_up(m, d, s);
    assert forall|k: int| 0 <= k < rs.len() implies #[trigger] on_disk(d, s, k) by {
        if k < n {
            assert(disk::closed_stored(m.closed[k], s.closed[k], d));
        } else {
            let a = m.active->Some_0;
            let r = s.active->Some_0;
            assert(disk::active_stored(a, r, d));
            assert(r.entries.take(r.entries.len() as int) =~= r.entries);
            segment::law_header_reads_back(r.header, seq![]);
            assert(!d.index.contains_key(a.base));
        }
    }
    if n > 0 {
        assert(disk::closed_stored(m.closed[n - 1], s.closed[n - 1], d));
        assert(disk::following(m, n - 1) == m.closed[n - 1].last + 1);
    }
    match s.active {
        Some(r) => {
            let a = m.active->Some_0;
            assert(disk::active_stored(a, r, d));
            assert(rs.drop_last() =~= s.closed);
            assert forall|i: int| 0 <= i < rs.len() - 1 implies #[trigger] disk::meets(rs, i) by {
                if i < n - 1 {
                    assert(disk::meets(s.closed, i));
                }
            }
            assert forall|i: int, j: int|
                0 <= i < rs.len() && 0 <= j < rs[i].entries.len() implies (
            #[trigger] rs[i].entries[j]).offset == rs[i].header.base_offset + j by {
                if i < n {
                    assert(s.closed[i].entries[j].offset == s.closed[i].header.base_offset + j);
                } else {
                    assert(layout::good(r.entries[j]));
                }
            }
        },
        None => {
            assert(disk::entries(s) =~= disk::run_entries(s.closed));
        },
    }
}

/// The offset of the first entry that is kept; where none is, the offset that
/// comes next.
pub open spec fn first_kept(m: LogModel, s: Contents) -> u64 {
    if runs(s).len() > 0 {
        runs(s)[0].header.base_offset
    } else {
        m.next
    }
}

/// Whether bytes are what a data file holds at a position: all of it, or at least
/// as much as the record there says it needs.
pub open spec fn is_window(window: Seq<u8>, file: Seq<u8>, pos: int) -> bool {
    &&& 0 <= pos <= file.len()
    &&& window.is_prefix_of(file.skip(pos))
    &&& window == file.skip(pos) || window.len() >= segment::record_span(window)
}

/// Whether names are the names of the data files of a log, with any other names
/// that no data file has.
pub open spec fn are_names(list: Seq<String>, s: Contents) -> bool {
    forall|base: u64| #[trigger] is_named(list, base) <==> has_segment(s, base)
}

/// Whether the name of a data file is among names.
pub open spec fn is_named(list: Seq<String>, base: u64) -> bool {
    exists|i: int| 0 <= i < list.len() && #[trigger] list[i]@ == names::segment_name(base)
}

/// Whether a log has a segment with this base offset.
pub open spec fn has_segment(s: Contents, base: u64) -> bool {
    exists|k: int| 0 <= k < runs(s).len() && #[trigger] runs(s)[k].header.base_offset == base
}

/// Whether a subscription is told the truth about the files.
pub open spec fn is_true(
    d: Disk,
    s: Contents,
    action: SubscriptionAction,
    event: SubscriptionEvent,
) -> bool {
    match action {
        SubscriptionAction::Scan => event matches SubscriptionEvent::Names(list) && are_names(
            list@,
            s,
        ),
        SubscriptionAction::ReadWatermark => match d.watermark {
            Some(w) => event matches SubscriptionEvent::Bytes(b) && b@ == w,
            None => event == SubscriptionEvent::Missing,
        },
        SubscriptionAction::Open { base } => event == if d.data.contains_key(base) {
            SubscriptionEvent::Done
        } else {
            SubscriptionEvent::Missing
        },
        SubscriptionAction::FindIndex { base } => event == if d.index.contains_key(base) {
            SubscriptionEvent::Done
        } else {
            SubscriptionEvent::Missing
        },
        SubscriptionAction::ReadIndex { base } => if d.index.contains_key(base) {
            event matches SubscriptionEvent::Bytes(b) && b@ == d.index[base]
        } else {
            event == SubscriptionEvent::Missing
        },
        SubscriptionAction::Read { base, pos } => d.data.contains_key(base) ==> (event matches
            SubscriptionEvent::Bytes(b) && is_window(b@, d.data[base], pos as int)),
        _ => true,
    }
}

/// A subscription stands at the record with number `j` of the segment with number
/// `k`, at the record that is due or before it. It may stand before it only where
/// it takes the segment to be growing.
pub open spec fn at_record(at: Cursor, next: u64, s: Contents, k: int, j: int) -> bool {
    let r = runs(s)[k];
    &&& 0 <= k < runs(s).len()
    &&& at.base == r.header.base_offset
    &&& 0 <= j <= r.entries.len()
    &&& at.pos == layout::position(r.entries, j)
    &&& at.base + j <= next
    &&& k < s.closed.len() ==> next <= disk::run_end(r)
    &&& k >= s.closed.len() ==> at.active
    &&& !at.active ==> at.base + j == next
}

/// A subscription stands somewhere in the files, on the way to the record that is
/// due.
pub open spec fn well_placed(at: Option<Cursor>, next: u64, s: Contents) -> bool {
    match at {
        Some(at) => is_somewhere(at, next, s),
        None => true,
    }
}

/// A subscription stands at a record of some segment.
pub open spec fn is_somewhere(at: Cursor, next: u64, s: Contents) -> bool {
    exists|k: int, j: int| #[trigger] at_record(at, next, s, k, j)
}

/// The segment with number `k` is the last one that begins at an offset or before
/// it.
pub open spec fn is_last_up_to(s: Contents, k: int, base: u64, next: u64) -> bool {
    &&& 0 <= k < runs(s).len()
    &&& runs(s)[k].header.base_offset == base
    &&& base <= next
    &&& k + 1 < runs(s).len() ==> next < disk::run_end(runs(s)[k])
}

/// What a subscription asks for makes sense with the files as they are.
pub open spec fn on_track(
    sm: SubscriptionModel,
    action: SubscriptionAction,
    next: u64,
    s: Contents,
) -> bool {
    &&& sm.next == next
    &&& !sm.closed
    &&& well_placed(sm.at, next, s)
    &&& match sm.phase {
        Some(SubscriptionPhase::Scanning) => action == SubscriptionAction::Scan,
        Some(SubscriptionPhase::Marking) => action == SubscriptionAction::ReadWatermark && runs(
            s,
        ).len() == 0,
        Some(SubscriptionPhase::Opening { base }) => action == (SubscriptionAction::Open { base })
            && exists|k: int| #[trigger] is_last_up_to(s, k, base, next),
        Some(SubscriptionPhase::Stating { base }) => action == (SubscriptionAction::FindIndex {
            base,
        }) && exists|k: int| #[trigger] is_last_up_to(s, k, base, next),
        Some(SubscriptionPhase::Indexing { base }) => action == (SubscriptionAction::ReadIndex {
            base,
        }) && exists|k: int| #[trigger] is_last_up_to(s, k, base, next) && k < s.closed.len(),
        Some(SubscriptionPhase::Seeking { base, pos, current }) => {
            &&& action == (SubscriptionAction::Read { base, pos })
            &&& s.active is Some
            &&& at_record(
                Cursor { base, pos, active: true },
                next,
                s,
                s.closed.len() as int,
                current - base,
            )
            &&& current < next
        },
        Some(SubscriptionPhase::Reading) => sm.at matches Some(at) && action == (
        SubscriptionAction::Read { base: at.base, pos: at.pos }),
        Some(SubscriptionPhase::OpeningNext) => {
            &&& sm.at is Some
            &&& action == (SubscriptionAction::Open { base: next })
            &&& exists|k: int| #[trigger] ends_at(s, k, next)
        },
        Some(SubscriptionPhase::StatingNext) => {
            &&& sm.at is Some
            &&& action == (SubscriptionAction::FindIndex { base: next })
            &&& exists|k: int| #[trigger] begins_at(s, k, next)
        },
        _ => false,
    }
}

/// A complete segment ends before an offset.
pub open spec fn ends_at(s: Contents, k: int, next: u64) -> bool {
    0 <= k < s.closed.len() && disk::run_end(runs(s)[k]) == next
}

/// A segment begins at an offset.
pub open spec fn begins_at(s: Contents, k: int, next: u64) -> bool {
    0 <= k < runs(s).len() && runs(s)[k].header.base_offset == next
}

/// A subscription has come to the right end: it delivers the entry that is due
/// where that is kept, waits where there is none yet, and says that it is not kept
/// where it is not, and what is the first one that is.
pub open spec fn ends_right(
    sm: SubscriptionModel,
    action: SubscriptionAction,
    next: u64,
    m: LogModel,
    s: Contents,
) -> bool {
    let first = first_kept(m, s);
    if next < first {
        &&& action == SubscriptionAction::Fail(
            StorageError::RetentionExpired {
                requested: Offset(next),
                earliest_available: if runs(s).len() > 0 {
                    Some(Offset(first))
                } else {
                    None
                },
            },
        )
        &&& sm.phase is None
        &&& sm.closed
    } else if next < m.next {
        &&& action matches SubscriptionAction::Deliver(entry) && entry@ == disk::entries(s)[next
            - first]
        &&& sm.next == next + 1
        &&& sm.phase is None
        &&& !sm.closed
        &&& well_placed(sm.at, sm.next, s)
    } else {
        &&& action == SubscriptionAction::Wait
        &&& sm.next == next
        &&& sm.phase is None
        &&& !sm.closed
        &&& well_placed(sm.at, sm.next, s)
    }
}

/// The base offsets in names.
proof fn lemma_bases(list: Seq<String>, base: u64)
    ensures
        names::bases_in(list).contains(base) <==> is_named(list, base),
    decreases list.len(),
{
    if list.len() > 0 {
        let front = list.drop_last();
        let all = names::bases_in(list);
        let before = names::bases_in(front);
        let last = list.last()@;
        lemma_bases(front, base);
        if last == names::segment_name(base) {
            names::lemma_base_in(last, base);
            assert(all[all.len() - 1] == base);
            assert(list[list.len() - 1]@ == names::segment_name(base));
        }
        if all.contains(base) {
            let i = choose|i: int| 0 <= i < all.len() && all[i] == base;
            if i < before.len() {
                assert(before[i] == base);
                let j = choose|j: int|
                    0 <= j < front.len() && #[trigger] front[j]@ == names::segment_name(base);
                assert(list[j]@ == names::segment_name(base));
            } else {
                assert(names::base_in(last) == Some(base));
                assert(list[list.len() - 1]@ == names::segment_name(base));
            }
        }
        if is_named(list, base) {
            let i = choose|i: int|
                0 <= i < list.len() && #[trigger] list[i]@ == names::segment_name(base);
            if i < front.len() {
                assert(front[i]@ == names::segment_name(base));
                let j = choose|j: int| 0 <= j < before.len() && before[j] == base;
                assert(all[j] == base);
            }
        }
    }
}

/// The segments begin one behind the other.
proof fn lemma_order(s: Contents, i: int, k: int)
    requires
        disk::lined_up(runs(s)),
        0 <= i <= k < runs(s).len(),
    ensures
        i < k ==> disk::run_end(runs(s)[i]) <= runs(s)[k].header.base_offset,
        runs(s)[i].header.base_offset <= runs(s)[k].header.base_offset,
    decreases k - i,
{
    if i < k {
        lemma_order(s, i, k - 1);
        assert(disk::meets(runs(s), k - 1));
    }
}

/// The names lead to the segment where the offset that is due would be.
proof fn lemma_scanned(m: LogModel, d: Disk, s: Contents, sm: SubscriptionModel, list: Seq<String>)
    requires
        in_order(m, d, s),
        are_names(list, s),
        !sm.closed,
        well_placed(sm.at, sm.next, s),
    ensures
        ({
            let st = subscription::scanned(sm, names::bases_in(list));
            (on_track(st.model, st.action, sm.next, s) && stage(st.model, s) == 5) || ends_right(st.model, st.action, sm.next, m, s)
        }),
{
    let rs = runs(s);
    let bases = names::bases_in(list);
    let next = sm.next;
    lemma_files(m, d, s);
    subscription::law_scan(bases, next);
    assert forall|base: u64| #[trigger] bases.contains(base) <==> has_segment(s, base) by {
        lemma_bases(list, base);
        assert(is_named(list, base) <==> has_segment(s, base));
    }
    match subscription::largest_up_to(bases, next) {
        Some(base) => {
            let k = choose|k: int| 0 <= k < rs.len() && #[trigger] rs[k].header.base_offset == base;
            if k + 1 < rs.len() && next >= disk::run_end(rs[k]) {
                assert(disk::meets(rs, k));
                assert(on_disk(d, s, k));
                assert(bases.contains(rs[k + 1].header.base_offset));
                assert(k < s.closed.len());
            }
            assert(is_last_up_to(s, k, base, next));
        },
        None => {
            match subscription::smallest(bases) {
                Some(first) => {
                    let k = choose|k: int|
                        0 <= k < rs.len() && #[trigger] rs[k].header.base_offset == first;
                    assert(bases.contains(rs[0].header.base_offset));
                    lemma_order(s, 0, k);
                    assert(rs[0].header.base_offset == first);
                },
                None => {
                    if rs.len() > 0 {
                        assert(bases.contains(rs[0].header.base_offset));
                        assert(false);
                    }
                },
            }
        },
    }
}

/// Without segments, the watermark tells what is not kept any more.
proof fn lemma_marked(
    m: LogModel,
    d: Disk,
    s: Contents,
    sm: SubscriptionModel,
    event: SubscriptionEvent,
    st: SubscriptionState,
)
    requires
        in_order(m, d, s),
        runs(s).len() == 0,
        sm.phase == Some(SubscriptionPhase::Marking),
        !sm.closed,
        well_placed(sm.at, sm.next, s),
        is_true(d, s, SubscriptionAction::ReadWatermark, event),
        subscription::resumed(st, sm, SubscriptionPhase::Marking, event),
    ensures
        ends_right(st.model, st.action, sm.next, m, s),
{
}

/// What is read at a record of a segment, or behind the last one.
proof fn lemma_window(d: Disk, s: Contents, k: int, j: int, window: Seq<u8>)
    requires
        0 <= k < runs(s).len(),
        on_disk(d, s, k),
        0 <= j <= runs(s)[k].entries.len(),
        is_window(
            window,
            d.data[runs(s)[k].header.base_offset],
            layout::position(runs(s)[k].entries, j),
        ),
    ensures
        ({
            let es = runs(s)[k].entries;
            let found = segment::parse_record(window);
            if j < es.len() {
                &&& found matches Ok((e, len)) && e == es[j] && len > 0 && layout::position(es, j) + len
                    == layout::position(es, j + 1)
                &&& layout::position(es, j + 1) <= d.data[runs(s)[k].header.base_offset].len()
                &&& es[j].offset == runs(s)[k].header.base_offset + j
            } else if k < s.closed.len() {
                found == Err::<(EntryModel, int), StorageError>(
                    StorageError::Corrupted(Corruption::Sentinel),
                )
            } else {
                found == Err::<(EntryModel, int), StorageError>(StorageError::UnexpectedEof)
            }
        }),
{
    let r = runs(s)[k];
    let es = r.entries;
    let file = d.data[r.header.base_offset];
    let pos = layout::position(es, j);
    let full = file.skip(pos);
    if window != full {
        let more = full.skip(window.len() as int);
        assert(window + more =~= full);
        segment::law_record_is_self_contained(window, more);
    }
    assert(segment::parse_record(window) == segment::parse_record(full));
    if j < es.len() {
        assert(layout::good(es[j]));
        layout::lemma_read_at(r.header, es, tail_of(s, k), j);
    } else {
        let tail = tail_of(s, k);
        segment::law_header_reads_back(r.header, seq![]);
        assert(es.take(es.len() as int) =~= es);
        assert(full =~= tail);
        if k < s.closed.len() {
            bytes::lemma_le_read_back(seq![], 0, seq![]);
            assert(seq![] + bytes::le4(0) + seq![] =~= tail);
        }
    }
}

/// The entry of a segment among all entries.
proof fn lemma_entry(m: LogModel, d: Disk, s: Contents, k: int, j: int)
    requires
        in_order(m, d, s),
        0 <= k < runs(s).len(),
        0 <= j < runs(s)[k].entries.len(),
    ensures
        ({
            let at = runs(s)[k].header.base_offset + j;
            &&& first_kept(m, s) <= at < m.next
            &&& disk::entries(s)[at - first_kept(m, s)] == runs(s)[k].entries[j]
        }),
{
    lemma_files(m, d, s);
    disk::lemma_run_entries(runs(s), k, j);
    lemma_order(s, k, runs(s).len() - 1);
}

/// A segment in which an offset lies is not one that ends there.
pub open spec fn hands_over(at: Cursor, next: u64, s: Contents) -> bool {
    exists|k: int| #[trigger] ends_at(s, k, next) && runs(s)[k].header.base_offset == at.base
}

/// How far a subscription still is from an end: by the kind of what it asks for ...
pub open spec fn stage(sm: SubscriptionModel, s: Contents) -> int {
    match sm.phase {
        None => 0,
        Some(SubscriptionPhase::Reading) => if sm.at matches Some(at) && hands_over(at, sm.next, s) {
            8
        } else {
            1
        },
        Some(SubscriptionPhase::OpeningNext) => 7,
        Some(SubscriptionPhase::Scanning) => 6,
        Some(SubscriptionPhase::Opening { .. }) => 5,
        Some(SubscriptionPhase::Marking) => 5,
        Some(SubscriptionPhase::Rescanning) => 5,
        Some(SubscriptionPhase::Stating { .. }) => 4,
        Some(SubscriptionPhase::Indexing { .. }) => 3,
        Some(SubscriptionPhase::Seeking { .. }) => 2,
        Some(SubscriptionPhase::StatingNext) => 2,
    }
}

/// ... and by how much of the file lies ahead.
pub open spec fn ahead(sm: SubscriptionModel, d: Disk) -> int {
    match sm.phase {
        Some(SubscriptionPhase::Reading) => match sm.at {
            Some(at) => d.data[at.base].len() - at.pos,
            None => 0,
        },
        Some(SubscriptionPhase::Seeking { base, pos, .. }) => d.data[base].len() - pos,
        _ => 0,
    }
}

/// A subscription has come nearer to an end.
pub open spec fn is_nearer(
    after: SubscriptionModel,
    before: SubscriptionModel,
    d: Disk,
    s: Contents,
) -> bool {
    stage(after, s) < stage(before, s) || (stage(after, s) == stage(before, s) && 0 <= ahead(
        after,
        d,
    ) < ahead(before, d))
}

/// A step goes right: on, and nearer to an end, or to the right end.
pub open spec fn steps_right(
    st: SubscriptionState,
    sm: SubscriptionModel,
    m: LogModel,
    d: Disk,
    s: Contents,
) -> bool {
    (on_track(st.model, st.action, sm.next, s) && is_nearer(st.model, sm, d, s)) || ends_right(
        st.model,
        st.action,
        sm.next,
        m,
        s,
    )
}

/// A segment that an offset lies in does not end there.
proof fn lemma_no_hand_over(d: Disk, s: Contents, at: Cursor, k: int, next: u64)
    requires
        disk::lined_up(runs(s)),
        forall|i: int| 0 <= i < runs(s).len() ==> #[trigger] on_disk(d, s, i),
        0 <= k < runs(s).len(),
        at.base == runs(s)[k].header.base_offset,
        k < s.closed.len() ==> next < disk::run_end(runs(s)[k]),
    ensures
        !hands_over(at, next, s),
{
    if hands_over(at, next, s) {
        let i = choose|i: int|
            #[trigger] ends_at(s, i, next) && runs(s)[i].header.base_offset == at.base;
        assert(on_disk(d, s, i));
        if i < k {
            lemma_order(s, i, k);
        } else if k < i {
            assert(on_disk(d, s, k));
            lemma_order(s, k, i);
        }
    }
}

/// The record where a subscription stands was read.
proof fn lemma_read(
    m: LogModel,
    d: Disk,
    s: Contents,
    sm: SubscriptionModel,
    at: Cursor,
    k: int,
    j: int,
    window: Seq<u8>,
    st: SubscriptionState,
)
    requires
        in_order(m, d, s),
        sm.next < u64::MAX,
        !sm.closed,
        sm.phase == Some(SubscriptionPhase::Reading),
        sm.at == Some(at),
        at_record(at, sm.next, s, k, j),
        is_window(window, d.data[at.base], at.pos as int),
        subscription::was_read(st, sm, at, window),
    ensures
        steps_right(st, sm, m, d, s),
{
    let next = sm.next;
    let r = runs(s)[k];
    let es = r.entries;
    lemma_files(m, d, s);
    assert(on_disk(d, s, k));
    lemma_window(d, s, k, j, window);
    if j < es.len() {
        let there = Cursor { pos: layout::position(es, j + 1) as u64, ..at };
        if at.base + j < next {
            assert(at_record(there, next, s, k, j + 1));
            assert(st.model.at == Some(there));
            if hands_over(at, next, s) {
                assert(hands_over(there, next, s));
            }
            assert(hands_over(there, next, s) == hands_over(at, next, s));
            assert(is_nearer(st.model, sm, d, s));
        } else {
            lemma_entry(m, d, s, k, j);
            assert(at_record(there, (next + 1) as u64, s, k, j + 1));
        }
    } else if k < s.closed.len() {
        assert(ends_at(s, k, next));
        assert(hands_over(at, next, s));
    } else {
        lemma_order(s, 0, k);
    }
}

/// A record on the way was read.
proof fn lemma_sought(
    m: LogModel,
    d: Disk,
    s: Contents,
    sm: SubscriptionModel,
    base: u64,
    pos: u64,
    current: u64,
    window: Seq<u8>,
)
    requires
        in_order(m, d, s),
        !sm.closed,
        well_placed(sm.at, sm.next, s),
        sm.phase == Some(SubscriptionPhase::Seeking { base, pos, current }),
        s.active is Some,
        at_record(
            Cursor { base, pos, active: true },
            sm.next,
            s,
            s.closed.len() as int,
            current - base,
        ),
        current < sm.next,
        is_window(window, d.data[base], pos as int),
    ensures
        steps_right(subscription::sought(sm, base, pos, current, window), sm, m, d, s),
{
    let k = s.closed.len() as int;
    let j = current - base;
    let next = sm.next;
    let es = runs(s)[k].entries;
    let st = subscription::sought(sm, base, pos, current, window);
    lemma_files(m, d, s);
    assert(on_disk(d, s, k));
    lemma_window(d, s, k, j, window);
    let here = Cursor { base, pos, active: true };
    if j < es.len() {
        let there = Cursor { pos: layout::position(es, j + 1) as u64, ..here };
        assert(at_record(there, next, s, k, j + 1));
        lemma_no_hand_over(d, s, there, k, next);
    } else {
        assert(at_record(here, next, s, k, j));
        lemma_no_hand_over(d, s, here, k, next);
    }
}

/// The index was read: it leads to the record that is due.
proof fn lemma_indexed(
    m: LogModel,
    d: Disk,
    s: Contents,
    sm: SubscriptionModel,
    base: u64,
    k: int,
)
    requires
        in_order(m, d, s),
        !sm.closed,
        well_placed(sm.at, sm.next, s),
        sm.phase == Some(SubscriptionPhase::Indexing { base }),
        is_last_up_to(s, k, base, sm.next),
        k < s.closed.len(),
    ensures
        steps_right(subscription::indexed(sm, base, d.index[base]), sm, m, d, s),
{
    let next = sm.next;
    let es = runs(s)[k].entries;
    lemma_files(m, d, s);
    assert(on_disk(d, s, k));
    assert(s.closed[k] == runs(s)[k]);
    segment::law_index_reads_back(layout::positions(es));
    if next - base < es.len() {
        let j = next - base;
        let at = Cursor { base, pos: layout::positions(es)[j], active: false };
        assert(layout::good(es[j]));
        layout::lemma_read_at(runs(s)[k].header, es, tail_of(s, k), j);
        assert(at_record(at, next, s, k, j));
        lemma_no_hand_over(d, s, at, k, next);
    } else {
        lemma_order(s, 0, k);
    }
}

/// Whether there is an index was found out.
proof fn lemma_stated(
    m: LogModel,
    d: Disk,
    s: Contents,
    sm: SubscriptionModel,
    base: u64,
    k: int,
    event: SubscriptionEvent,
    st: SubscriptionState,
)
    requires
        in_order(m, d, s),
        !sm.closed,
        well_placed(sm.at, sm.next, s),
        sm.phase == Some(SubscriptionPhase::Stating { base }),
        is_last_up_to(s, k, base, sm.next),
        is_true(d, s, SubscriptionAction::FindIndex { base }, event),
        subscription::resumed(st, sm, SubscriptionPhase::Stating { base }, event),
    ensures
        steps_right(st, sm, m, d, s),
{
    lemma_files(m, d, s);
    assert(on_disk(d, s, k));
    if k < s.closed.len() {
        assert(is_last_up_to(s, k, base, sm.next));
    } else {
        let es = runs(s)[k].entries;
        let at = Cursor { base, pos: HEADER_LEN, active: true };
        assert(es.take(0) =~= seq![]);
        assert(at_record(at, sm.next, s, k, 0));
        lemma_no_hand_over(d, s, at, k, sm.next);
    }
}

/// Whether the segment that follows has an index was found out.
proof fn lemma_stated_next(
    m: LogModel,
    d: Disk,
    s: Contents,
    sm: SubscriptionModel,
    k: int,
    event: SubscriptionEvent,
    st: SubscriptionState,
)
    requires
        in_order(m, d, s),
        !sm.closed,
        sm.phase == Some(SubscriptionPhase::StatingNext),
        begins_at(s, k, sm.next),
        is_true(d, s, SubscriptionAction::FindIndex { base: sm.next }, event),
        subscription::resumed(st, sm, SubscriptionPhase::StatingNext, event),
    ensures
        steps_right(st, sm, m, d, s),
{
    lemma_files(m, d, s);
    assert(on_disk(d, s, k));
    let es = runs(s)[k].entries;
    let at = Cursor { base: sm.next, pos: HEADER_LEN, active: k >= s.closed.len() };
    assert(es.take(0) =~= seq![]);
    assert(at_record(at, sm.next, s, k, 0));
    lemma_no_hand_over(d, s, at, k, sm.next);
}

/// Whatever a subscription asks for that is on track: told the truth about the
/// files, it stays on track and comes nearer to an end, or comes to the right end.
pub proof fn law_truth_keeps_on_track(
    m: LogModel,
    d: Disk,
    s: Contents,
    sub: &mut SegmentLogSubscription,
    asked: SubscriptionAction,
    event: SubscriptionEvent,
    r: SubscriptionAction,
)
    requires
        in_order(m, d, s),
        old(sub)@.next < u64::MAX,
        old(sub)@.phase is Some,
        on_track(old(sub)@, asked, old(sub)@.next, s),
        is_true(d, s, asked, event),
        call_ensures(SegmentLogSubscription::resume, (sub, event), r),
    ensures
        steps_right(
            SubscriptionState { model: final(sub)@, action: r },
            old(sub)@,
            m,
            d,
            s,
        ),
{
    let sm = old(sub)@;
    let next = sm.next;
    let st = SubscriptionState { model: final(sub)@, action: r };
    lemma_files(m, d, s);
    match sm.phase->Some_0 {
        SubscriptionPhase::Scanning => {
            if let SubscriptionEvent::Names(list) = event {
                lemma_scanned(m, d, s, sm, list@);
            }
        },
        SubscriptionPhase::Rescanning => {},
        SubscriptionPhase::Marking => {
            lemma_marked(m, d, s, sm, event, st);
        },
        SubscriptionPhase::Opening { base } => {
            let k = choose|k: int| #[trigger] is_last_up_to(s, k, base, next);
            assert(on_disk(d, s, k));
        },
        SubscriptionPhase::Stating { base } => {
            let k = choose|k: int| #[trigger] is_last_up_to(s, k, base, next);
            lemma_stated(m, d, s, sm, base, k, event, st);
        },
        SubscriptionPhase::Indexing { base } => {
            let k = choose|k: int| #[trigger] is_last_up_to(s, k, base, next) && k < s.closed.len();
            assert(on_disk(d, s, k));
            lemma_indexed(m, d, s, sm, base, k);
        },
        SubscriptionPhase::Seeking { base, pos, current } => {
            assert(on_disk(d, s, s.closed.len() as int));
            if let SubscriptionEvent::Bytes(window) = event {
                lemma_sought(m, d, s, sm, base, pos, current, window@);
            }
        },
        SubscriptionPhase::Reading => {
            let at = sm.at->Some_0;
            let (k, j) = choose|k: int, j: int| #[trigger] at_record(at, next, s, k, j);
            assert(on_disk(d, s, k));
            if let SubscriptionEvent::Bytes(window) = event {
                lemma_read(m, d, s, sm, at, k, j, window@, st);
            }
        },
        SubscriptionPhase::OpeningNext => {
            if d.data.contains_key(next) {
                let k = choose|k: int|
                    0 <= k < runs(s).len() && #[trigger] runs(s)[k].header.base_offset == next;
                assert(begins_at(s, k, next));
            }
        },
        SubscriptionPhase::StatingNext => {
            let k = choose|k: int| #[trigger] begins_at(s, k, next);
            lemma_stated_next(m, d, s, sm, k, event, st);
        },
    }
}

/// Whether a subscription asks to be told something.
pub open spec fn is_question(action: SubscriptionAction) -> bool {
    match action {
        SubscriptionAction::Scan => true,
        SubscriptionAction::ReadWatermark => true,
        SubscriptionAction::Open { .. } => true,
        SubscriptionAction::FindIndex { .. } => true,
        SubscriptionAction::ReadIndex { .. } => true,
        SubscriptionAction::Read { .. } => true,
        _ => false,
    }
}

/// Whether a call goes on with a subscription: what it asked for last was answered
/// with the truth.
pub open spec fn is_answered(
    sub: &mut SegmentLogSubscription,
    asked: SubscriptionAction,
    event: SubscriptionEvent,
    r: SubscriptionAction,
    d: Disk,
    s: Contents,
) -> bool {
    &&& is_question(asked)
    &&& is_true(d, s, asked, event)
    &&& call_ensures(SegmentLogSubscription::resume, (sub, event), r)
}

/// A subscription after some of the calls of a run.
proof fn lemma_run(
    m: LogModel,
    d: Disk,
    s: Contents,
    calls: Seq<&mut SegmentLogSubscription>,
    events: Seq<SubscriptionEvent>,
    actions: Seq<SubscriptionAction>,
    i: int,
)
    requires
        in_order(m, d, s),
        0 <= i < calls.len(),
        events.len() == calls.len(),
        actions.len() == calls.len(),
        (*calls[0])@.next < u64::MAX,
        !(*calls[0])@.closed,
        well_placed((*calls[0])@.at, (*calls[0])@.next, s),
        call_ensures(SegmentLogSubscription::next_entry, (calls[0],), actions[0]),
        forall|i: int, j: int|
            0 <= i < calls.len() && j == i + 1 && j < calls.len() ==> *final(#[trigger] calls[i])
                == *(#[trigger] calls[j]) && is_answered(
                calls[j],
                actions[i],
                events[j],
                actions[j],
                d,
                s,
            ),
    ensures
        on_track((*final(calls[i]))@, actions[i], (*calls[0])@.next, s) || ends_right(
            (*final(calls[i]))@,
            actions[i],
            (*calls[0])@.next,
            m,
            s,
        ),
    decreases i,
{
    if i > 0 {
        lemma_run(m, d, s, calls, events, actions, i - 1);
        assert(*final(calls[i - 1]) == *calls[i]);
        assert(is_answered(calls[i], actions[i - 1], events[i], actions[i], d, s));
        law_truth_keeps_on_track(m, d, s, calls[i], actions[i - 1], events[i], actions[i]);
    }
}

/// A subscription that is asked for the next entry, and told what the files hold
/// whenever it asks, comes to the right end: it delivers the entry with the offset
/// that is due where the log keeps it, waits where there is none yet, and says that
/// the entry is not kept any more where it is not. Then it stands well again.
///
/// A fresh subscription stands nowhere; any other is somewhere in the files, at the
/// record that is due or before it.
pub proof fn law_subscription_delivers(
    m: LogModel,
    d: Disk,
    s: Contents,
    calls: Seq<&mut SegmentLogSubscription>,
    events: Seq<SubscriptionEvent>,
    actions: Seq<SubscriptionAction>,
)
    requires
        in_order(m, d, s),
        0 < calls.len(),
        events.len() == calls.len(),
        actions.len() == calls.len(),
        (*calls[0])@.next < u64::MAX,
        !(*calls[0])@.closed,
        well_placed((*calls[0])@.at, (*calls[0])@.next, s),
        call_ensures(SegmentLogSubscription::next_entry, (calls[0],), actions[0]),
        forall|i: int, j: int|
            0 <= i < calls.len() && j == i + 1 && j < calls.len() ==> *final(#[trigger] calls[i])
                == *(#[trigger] calls[j]) && is_answered(
                calls[j],
                actions[i],
                events[j],
                actions[j],
                d,
                s,
            ),
        !is_question(actions.last()),
    ensures
        ends_right(
            (*final(calls.last()))@,
            actions.last(),
            (*calls[0])@.next,
            m,
            s,
        ),
{
    lemma_run(m, d, s, calls, events, actions, calls.len() - 1);
}

/// Such a run comes to an end: each answer brings the subscription nearer to it.
pub proof fn law_subscription_comes_to_an_end(
    m: LogModel,
    d: Disk,
    s: Contents,
    calls: Seq<&mut SegmentLogSubscription>,
    events: Seq<SubscriptionEvent>,
    actions: Seq<SubscriptionAction>,
    i: int,
)
    requires
        in_order(m, d, s),
        0 < i < calls.len(),
        events.len() == calls.len(),
        actions.len() == calls.len(),
        (*calls[0])@.next < u64::MAX,
        !(*calls[0])@.closed,
        well_placed((*calls[0])@.at, (*calls[0])@.next, s),
        call_ensures(SegmentLogSubscription::next_entry, (calls[0],), actions[0]),
        forall|i: int, j: int|
            0 <= i < calls.len() && j == i + 1 && j < calls.len() ==> *final(#[trigger] calls[i])
                == *(#[trigger] calls[j]) && is_answered(
                calls[j],
                actions[i],
                events[j],
                actions[j],
                d,
                s,
            ),
    ensures
        !is_question(actions[i]) || is_nearer((*final(calls[i]))@, (*calls[i])@, d, s),
{
    lemma_run(m, d, s, calls, events, actions, i - 1);
    assert(*final(calls[i - 1]) == *calls[i]);
    assert(is_answered(calls[i], actions[i - 1], events[i], actions[i], d, s));
    law_truth_keeps_on_track(m, d, s, calls[i], actions[i - 1], events[i], actions[i]);
}

/// A new subscription waits for the offset that it was made for, and stands nowhere
/// yet.
pub proof fn law_new_subscription(from: u64, sub: SegmentLogSubscription)
    requires
        call_ensures(SegmentLogSubscription::new, (from,), sub),
    ensures
        sub@.next == from,
        sub@.at is None,
        sub@.phase is None,
        !sub@.closed,
{
}

/// The index of a complete segment leads to the record that is due: a subscription
/// that reads it comes to stand there, and reads that record next.
pub proof fn law_index_leads_to_the_record(
    m: LogModel,
    d: Disk,
    s: Contents,
    k: int,
    sub: &mut SegmentLogSubscription,
    index: Vec<u8>,
    r: SubscriptionAction,
)
    requires
        in_order(m, d, s),
        0 <= k < s.closed.len(),
        old(sub)@.phase == Some(
            SubscriptionPhase::Indexing { base: s.closed[k].header.base_offset },
        ),
        s.closed[k].header.base_offset <= old(sub)@.next < s.closed[k].header.base_offset
            + s.closed[k].entries.len(),
        index@ == d.index[s.closed[k].header.base_offset],
        call_ensures(
            SegmentLogSubscription::resume,
            (sub, SubscriptionEvent::Bytes(index)),
            r,
        ),
    ensures
        ({
            let base = s.closed[k].header.base_offset;
            let pos = layout::position(s.closed[k].entries, old(sub)@.next - base);
            &&& final(sub)@.at matches Some(at) && at.base == base && at.pos == pos && !at.active
            &&& r matches SubscriptionAction::Read { base: b, pos: p } && b == base && p == pos
        }),
{
    let es = s.closed[k].entries;
    let j = old(sub)@.next - s.closed[k].header.base_offset;
    lemma_files(m, d, s);
    assert(runs(s)[k] == s.closed[k]);
    assert(on_disk(d, s, k));
    segment::law_index_reads_back(layout::positions(es));
    assert(layout::good(es[j]));
    layout::lemma_read_at(s.closed[k].header, es, tail_of(s, k), j);
}

/// The place of a record does not depend on what comes behind it.
proof fn lemma_position_stays(es: Seq<EntryModel>, more: Seq<EntryModel>, j: int)
    requires
        0 <= j <= es.len(),
    ensures
        layout::position(es + more, j) == layout::position(es, j),
{
    assert((es + more).take(j) =~= es.take(j));
}

/// What is appended to the log leaves every subscription where it stands well.
pub proof fn law_appending_leaves_subscriptions_in_place(
    at: Option<Cursor>,
    next: u64,
    s: Contents,
    r: Run,
    es: Seq<EntryModel>,
)
    requires
        well_placed(at, next, s),
        s.active == Some(r),
    ensures
        well_placed(at, next, Contents { active: Some(Run { entries: r.entries + es, ..r }), ..s }),
{
    let after = Contents { active: Some(Run { entries: r.entries + es, ..r }), ..s };
    if let Some(c) = at {
        let (k, j) = choose|k: int, j: int| #[trigger] at_record(c, next, s, k, j);
        if k == s.closed.len() {
            lemma_position_stays(r.entries, es, j);
        }
        assert(at_record(c, next, after, k, j));
    }
}

/// So does closing the active segment, where the offset that is due is one that the
/// log has or the next one.
pub proof fn law_closing_leaves_subscriptions_in_place(
    at: Option<Cursor>,
    next: u64,
    s: Contents,
    r: Run,
)
    requires
        well_placed(at, next, s),
        s.active == Some(r),
        next <= disk::run_end(r),
    ensures
        well_placed(at, next, Contents { closed: s.closed.push(r), active: None }),
{
    let after = Contents { closed: s.closed.push(r), active: None };
    if let Some(c) = at {
        let (k, j) = choose|k: int, j: int| #[trigger] at_record(c, next, s, k, j);
        assert(runs(after) =~= runs(s));
        assert(at_record(c, next, after, k, j));
    }
}

/// So does deleting the oldest segment, where the subscription does not stand in it.
pub proof fn law_eviction_leaves_subscriptions_in_place(
    at: Option<Cursor>,
    next: u64,
    s: Contents,
)
    requires
        well_placed(at, next, s),
        s.closed.len() > 0,
        at matches Some(c) ==> c.base != s.closed[0].header.base_offset,
    ensures
        well_placed(at, next, Contents { closed: s.closed.skip(1), ..s }),
{
    let after = Contents { closed: s.closed.skip(1), ..s };
    if let Some(c) = at {
        let (k, j) = choose|k: int, j: int| #[trigger] at_record(c, next, s, k, j);
        assert(runs(s)[0] == s.closed[0]);
        assert(runs(after) =~= runs(s).skip(1));
        assert(at_record(c, next, after, k - 1, j));
    }
}

} // verus!
