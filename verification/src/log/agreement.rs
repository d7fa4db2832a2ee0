//! The segment log behaves as the log in memory does.
//!
//! Nothing here is executed. The laws say that two logs of either kind which
//! have taken in the same entries, and keep the same ones of them, give the same
//! answers.

use vstd::prelude::*;

use crate::log::disk;
use crate::log::disk::{Contents, Disk};
use crate::log::entry::Offset;
use crate::log::mem;
use crate::log::mem::MemModel;
use crate::log::progress;
use crate::log::progress::{Account, Request, Stage};
use crate::log::state::reading;
use crate::log::state::LogModel;

verus! {

/// The first offset that a log in memory has not evicted.
pub open spec fn boundary(mm: MemModel) -> int {
    match mm.earliest {
        Some(n) => n as int,
        None => 0,
    }
}

/// Both logs have given out the same offsets, and keep the same entries.
pub open spec fn alike(mm: MemModel, m: LogModel, s: Contents) -> bool {
    &&& mem::mem_wf(mm)
    &&& mm.entries.len() == m.next
    &&& disk::entries(s) == mm.entries.skip(boundary(mm))
}

/// An offset, where there is one.
pub open spec fn as_offset(n: Option<u64>) -> Option<Offset> {
    match n {
        Some(n) => Some(Offset(n)),
        None => None,
    }
}

/// Logs without entries are alike.
pub proof fn law_fresh_logs_are_alike(m: LogModel, d: Disk, s: Contents)
    requires
        disk::stored(m, d, s),
        m.next == 0,
    ensures
        alike(MemModel { entries: seq![], earliest: None }, m, s),
{
    let mm = MemModel { entries: seq![], earliest: None };
    disk::law_entries_are_numbered(m, d, s);
    assert(mm.entries.skip(0) =~= seq![]);
    assert(disk::entries(s) =~= seq![]);
}

/// Logs that are alike have the same first and last offset, and refuse the same
/// subscriptions.
pub proof fn law_logs_have_the_same_offsets(
    mm: MemModel,
    m: LogModel,
    d: Disk,
    s: Contents,
    from: u64,
)
    requires
        disk::stored(m, d, s),
        alike(mm, m, s),
    ensures
        as_offset(reading::earliest(m)) == mem::mem_earliest(mm),
        as_offset(reading::latest(m)) == mem::mem_latest(mm),
        mem::mem_fault(mm, from) == if from >= m.next {
            None
        } else {
            reading::retention_fault(m, from)
        },
{
    disk::law_entries_are_numbered(m, d, s);
    let n = m.closed.len() as int;
    let all = disk::entries(s);
    if all.len() > 0 {
        assert(all[0] == mm.entries[boundary(mm)]);
    }
    if n > 0 {
        assert(disk::following(m, n - 1) == m.closed[n - 1].last + 1);
    }
}

/// Logs that are alike give the same entries for a range, or refuse it for the
/// same reason.
pub proof fn law_logs_read_the_same(
    mm: MemModel,
    m: LogModel,
    d: Disk,
    s: Contents,
    from: u64,
    to: Option<u64>,
)
    requires
        disk::stored(m, d, s),
        alike(mm, m, s),
    ensures
        match reading::read_plan(m, from, to) {
            Ok(slots) => {
                &&& mem::mem_fault(mm, from) is None
                &&& slots.len() == mem::mem_range(mm, from, to).len()
                &&& disk::slots_read(slots, from as int, d, mem::mem_range(mm, from, to), 0)
            },
            Err(e) => mem::mem_fault(mm, from) == Some(e),
        },
{
    law_logs_have_the_same_offsets(mm, m, d, s, from);
    disk::law_entries_are_numbered(m, d, s);
    disk::law_read_gives_what_was_appended(m, d, s, from, to);
    if let Ok(slots) = reading::read_plan(m, from, to) {
        let all = disk::entries(s);
        let range = mem::mem_range(mm, from, to);
        if slots.len() > 0 {
            let first = reading::earliest(m)->Some_0;
            assert(all[0] == mm.entries[boundary(mm)]);
            assert forall|k: int| 0 <= k < slots.len() implies (#[trigger] slots[k]).offset == from
                + k && disk::slot_reads(slots[k], d, range[0 + k]) by {
                assert(range[k] == mm.entries[from + k]);
                assert(all[from - first + k] == mm.entries[from + k]);
            }
        }
    }
}

/// Logs that are alike stay so: a batch that both take in gets the same offsets
/// in both, where the one in memory evicts what the other one does not keep.
pub proof fn law_logs_stay_alike(
    mm: MemModel,
    stages: Seq<Stage>,
    q: Request,
    d: Disk,
) -> (r: (Account, u64))
    requires
        disk::stored(q.log, d, q.contents),
        progress::carried_out(stages, q, d),
        progress::refusal(q, progress::batch_time(stages, q)) is None,
        alike(mm, q.log, q.contents),
        mm.entries.len() + q.events.len() <= usize::MAX,
    ensures
        ({
            let (c, evicted) = r;
            let batch = mem::mem_batch(mm.entries.len() as int, c.at, q.producer, q.events);
            let after = MemModel { entries: mm.entries + batch, earliest: Some(evicted) };
            &&& c.at == progress::batch_time(stages, q)
            &&& disk::stored(stages.last().st.log, stages.last().disk, c.kept)
            &&& boundary(mm) <= evicted
            &&& alike(after, stages.last().st.log, c.kept)
        }),
{
    let c = progress::law_append_is_stored(stages, q, d);
    let m = stages.last().st.log;
    let batch = mem::mem_batch(mm.entries.len() as int, c.at, q.producer, q.events);
    let all = mm.entries + batch;
    let b = boundary(mm);
    assert(batch =~= progress::batch(q, c.at));
    assert(disk::entries(c.whole) =~= all.skip(b));
    let gone = lemma_deleted_runs(c.whole, c.gone);
    assert(all.skip(b).skip(gone) =~= all.skip(b + gone));
    disk::law_entries_are_numbered(q.log, d, q.contents);
    assert forall|i: int| 0 <= i < all.len() implies (#[trigger] all[i]).offset == i by {
        if i >= mm.entries.len() {
            assert(all[i] == batch[i - mm.entries.len()]);
        } else {
            assert(all[i] == mm.entries[i]);
        }
    }
    (c, (b + gone) as u64)
}

/// Without its first `k` segments, a log has all entries but the first ones.
proof fn lemma_deleted_runs(s: Contents, k: int) -> (gone: int)
    requires
        0 <= k <= s.closed.len(),
    ensures
        0 <= gone <= disk::entries(s).len(),
        disk::entries(Contents { closed: s.closed.skip(k), ..s }) == disk::entries(s).skip(gone),
    decreases k,
{
    if k == 0 {
        assert(s.closed.skip(0) =~= s.closed);
        assert(disk::entries(s).skip(0) =~= disk::entries(s));
        0
    } else {
        let rest = Contents { closed: s.closed.skip(1), ..s };
        let first = s.closed[0].entries;
        disk::lemma_first_run(s.closed);
        assert(disk::entries(s) =~= first + disk::entries(rest));
        let gone = lemma_deleted_runs(rest, k - 1);
        assert(rest.closed.skip(k - 1) =~= s.closed.skip(k));
        assert(disk::entries(s).skip(first.len() + gone) =~= disk::entries(rest).skip(gone));
        first.len() + gone
    }
}

} // verus!
