//! What can be read of a log, and what cannot any more.

use vstd::prelude::*;

use crate::log::batches;
use crate::log::disk;
use crate::log::disk::{Contents, Disk};
use crate::log::entry::{EntryModel, LogEntry, Offset};
use crate::log::error::{Misuse, StorageError};
use crate::log::following;
use crate::log::mem;
use crate::log::mem::{MemLog, MemNext, MemSubscription};
use crate::log::segment;
use crate::log::state::reading;
use crate::log::state::reading::ReadSlot;
use crate::log::state::SegmentLog;
use crate::model::event::OtkEvent;

verus! {

/// Why an offset cannot be read that was given out and is not kept: with it, the
/// first offset that is kept, where there is one.
pub open spec fn expired(requested: u64, kept: Seq<EntryModel>) -> StorageError {
    StorageError::RetentionExpired {
        requested: Offset(requested),
        earliest_available: if kept.len() > 0 {
            Some(Offset(kept[0].offset))
        } else {
            None
        },
    }
}

/// Whether an offset was given out and is not kept any more.
pub open spec fn is_gone(offset: u64, next: u64, kept: Seq<EntryModel>) -> bool {
    offset < next && (kept.len() == 0 || offset < kept[0].offset)
}

/// Whether an entry was read.
pub open spec fn is_entry(got: Result<LogEntry, StorageError>, e: EntryModel) -> bool {
    match got {
        Ok(entry) => entry@ == e,
        Err(_) => false,
    }
}

/// The offsets that a segment log tells are those of the first and the last entry
/// that its files hold; it says that all were evicted if and only if it has given
/// out offsets and holds none.
pub proof fn law_segment_log_offsets(
    log: &SegmentLog,
    d: Disk,
    s: Contents,
    first: Option<Offset>,
    last: Option<Offset>,
    next: u64,
    gone: bool,
)
    requires
        disk::stored(log@, d, s),
        call_ensures(SegmentLog::earliest_offset, (log,), first),
        call_ensures(SegmentLog::latest_offset, (log,), last),
        call_ensures(SegmentLog::next_offset, (log,), next),
        call_ensures(SegmentLog::is_fully_evicted, (log,), gone),
    ensures
        ({
            let kept = disk::entries(s);
            &&& first == if kept.len() > 0 {
                Some(Offset(kept[0].offset))
            } else {
                None
            }
            &&& last == if kept.len() > 0 {
                Some(Offset(kept.last().offset))
            } else {
                None
            }
            &&& kept.len() > 0 ==> next == kept.last().offset + 1
            &&& gone <==> kept.len() == 0 && next > 0
        }),
{
    let m = log@;
    disk::law_entries_are_numbered(m, d, s);
    let n = m.closed.len() as int;
    if let Some(a) = m.active {
        assert(disk::active_stored(a, s.active->Some_0, d));
    }
    if n > 0 {
        assert(disk::following(m, n - 1) == m.closed[n - 1].last + 1);
    }
}

/// A subscription to a segment log is refused if and only if the entry that it would
/// begin with is gone.
pub proof fn law_segment_log_subscribe(
    log: &SegmentLog,
    d: Disk,
    s: Contents,
    from: Offset,
    r: Result<(), StorageError>,
)
    requires
        disk::stored(log@, d, s),
        call_ensures(SegmentLog::subscribe, (log, from), r),
    ensures
        r == if is_gone(from.0, log@.next, disk::entries(s)) {
            Err::<(), StorageError>(expired(from.0, disk::entries(s)))
        } else {
            Ok(())
        },
{
    let m = log@;
    disk::law_entries_are_numbered(m, d, s);
    if let Some(a) = m.active {
        assert(disk::active_stored(a, s.active->Some_0, d));
    }
}

/// A range of a segment log is refused if and only if the entry that it would begin
/// with is gone, even if the range is empty. Otherwise it has a place for each entry
/// that it spans, in order, and what is read at a place of the files, is the entry.
pub proof fn law_segment_log_read(
    log: &SegmentLog,
    d: Disk,
    s: Contents,
    from: Offset,
    to: Option<Offset>,
    r: Result<Vec<ReadSlot>, StorageError>,
)
    requires
        disk::stored(log@, d, s),
        call_ensures(SegmentLog::read_range, (log, from, to), r),
    ensures
        ({
            let kept = disk::entries(s);
            let end = match to {
                Some(to) if to.0 < log@.next => to.0,
                _ => log@.next,
            };
            match r {
                Err(e) => is_gone(from.0, log@.next, kept) && e == expired(from.0, kept),
                Ok(slots) => {
                    &&& !is_gone(from.0, log@.next, kept)
                    &&& slots@.len() == if from.0 < end {
                        end - from.0
                    } else {
                        0
                    }
                    &&& forall|k: int, window: &[u8], got: Result<LogEntry, StorageError>|
                        0 <= k < slots@.len() && following::is_window(
                            window@,
                            d.data[slots@[k].base],
                            slots@[k].position as int,
                        ) && #[trigger] call_ensures(
                            reading::read_slot,
                            (slots@[k], window),
                            got,
                        ) ==> is_entry(got, kept[from.0 - kept[0].offset + k])
                },
            }
        }),
{
    let m = log@;
    let kept = disk::entries(s);
    let upto = match to {
        Some(o) => Some(o.0),
        None => None,
    };
    disk::law_entries_are_numbered(m, d, s);
    disk::law_read_gives_what_was_appended(m, d, s, from.0, upto);
    if let Some(a) = m.active {
        assert(disk::active_stored(a, s.active->Some_0, d));
    }
    if let Ok(slots) = r {
        assert forall|k: int, window: &[u8], got: Result<LogEntry, StorageError>|
            0 <= k < slots@.len() && following::is_window(
                window@,
                d.data[slots@[k].base],
                slots@[k].position as int,
            ) && #[trigger] call_ensures(
                reading::read_slot,
                (slots@[k], window),
                got,
            ) implies is_entry(got, kept[from.0 - kept[0].offset + k]) by {
            let slot = slots@[k];
            let full = d.data[slot.base].skip(slot.position as int);
            assert(disk::slot_reads(slot, d, kept[from.0 - kept[0].offset + k]));
            if window@ != full {
                let more = full.skip(window@.len() as int);
                assert(window@ + more =~= full);
                segment::law_record_is_self_contained(window@, more);
            }
            assert(segment::parse_record(window@) == segment::parse_record(full));
        }
    }
}

/// A record that does not have the offset that it is read for is not handed out.
pub proof fn law_wrong_record(slot: ReadSlot, window: &[u8], entry: LogEntry)
    requires
        call_ensures(
            reading::read_slot,
            (slot, window),
            Ok::<LogEntry, StorageError>(entry),
        ),
    ensures
        entry.offset.0 == slot.offset,
{
}

/// The entries of a log in memory that were not evicted.
pub open spec fn kept_in(log: MemLog) -> Seq<EntryModel> {
    log@.entries.skip(
        match log@.earliest {
            Some(n) => n as int,
            None => 0,
        },
    )
}

/// A batch that is appended to a log in memory comes behind the entries that are
/// there: each event under the next offset, with the time and the producer of the
/// batch. Without events, or without a producer, nothing is appended.
pub proof fn law_mem_append(
    log: &mut MemLog,
    producer: &str,
    events: &[OtkEvent],
    now: u64,
    r: Result<Offset, StorageError>,
)
    requires
        call_ensures(MemLog::append, (log, producer, events, now), r),
        old(log).wf(),
        old(log)@.entries.len() + events@.len() <= usize::MAX,
    ensures
        final(log)@.earliest == old(log)@.earliest,
        old(log)@.entries.is_prefix_of(final(log)@.entries),
        if events@.len() == 0 {
            &&& final(log)@ == old(log)@
            &&& r == Err::<Offset, StorageError>(StorageError::InvalidInput(Misuse::NoEvents))
        } else if producer@.len() == 0 {
            &&& final(log)@ == old(log)@
            &&& r == Err::<Offset, StorageError>(StorageError::InvalidInput(Misuse::NoProducerId))
        } else {
            &&& batches::is_batch(
                final(log)@.entries.skip(old(log)@.entries.len() as int),
                old(log)@.entries.len() as u64,
                now,
                producer@,
                events@,
            )
            &&& r matches Ok(last) && last.0 == final(log)@.entries.len() - 1
            &&& r matches Ok(last) && last.0 == final(log)@.entries.last().offset
        },
{
}

/// What a log in memory keeps is what was not evicted: all entries but those below
/// the boundary.
pub proof fn law_mem_evict_below(log: &mut MemLog, boundary: Offset)
    requires
        call_ensures(MemLog::evict_below, (log, boundary), ()),
        old(log).wf(),
    ensures
        final(log)@.entries == old(log)@.entries,
        forall|i: int|
            0 <= i < old(log)@.entries.len() ==> (kept_in(*final(log)).contains(
                #[trigger] old(log)@.entries[i],
            ) <==> i >= boundary.0),
{
    let all = old(log)@.entries;
    let kept = kept_in(*final(log));
    assert forall|i: int| 0 <= i < all.len() implies (kept.contains(#[trigger] all[i]) <==> i
        >= boundary.0) by {
        if i >= boundary.0 {
            assert(kept[i - boundary.0] == all[i]);
        }
        if kept.contains(all[i]) {
            let j = choose|j: int| 0 <= j < kept.len() && kept[j] == all[i];
            assert(kept[j].offset == all[i].offset);
        }
    }
}

/// Evicting everything leaves nothing, and evicts nothing that is appended later.
pub proof fn law_mem_evict_all(log: &mut MemLog)
    requires
        call_ensures(MemLog::evict_all, (log,), ()),
        old(log).wf(),
    ensures
        final(log)@.entries == old(log)@.entries,
        kept_in(*final(log)).len() == 0,
        final(log)@.earliest == Some(old(log)@.entries.len() as u64),
{
}

/// The offsets that a log in memory tells are those of the first and the last entry
/// that it keeps.
pub proof fn law_mem_offsets(log: &MemLog, first: Option<Offset>, last: Option<Offset>)
    requires
        log.wf(),
        call_ensures(MemLog::earliest_offset, (log,), first),
        call_ensures(MemLog::latest_offset, (log,), last),
    ensures
        ({
            let kept = kept_in(*log);
            &&& first == if kept.len() > 0 {
                Some(Offset(kept[0].offset))
            } else {
                None
            }
            &&& last == if kept.len() > 0 {
                Some(Offset(kept.last().offset))
            } else {
                None
            }
        }),
{
}

/// A range of a log in memory is refused if and only if the entry that it would
/// begin with was evicted, even if the range is empty; otherwise it has exactly the
/// entries that it spans, in order. A subscription is refused for the same reason.
pub proof fn law_mem_read(
    log: &MemLog,
    from: Offset,
    to: Option<Offset>,
    r: Result<Vec<LogEntry>, StorageError>,
    sub: Result<MemSubscription, StorageError>,
)
    requires
        log.wf(),
        call_ensures(MemLog::read_range, (log, from, to), r),
        call_ensures(MemLog::subscribe, (log, from), sub),
    ensures
        ({
            let all = log@.entries;
            let kept = kept_in(*log);
            let end = match to {
                Some(to) if to.0 < all.len() => to.0 as int,
                _ => all.len() as int,
            };
            if is_gone(from.0, all.len() as u64, kept) {
                &&& r == Err::<Vec<LogEntry>, StorageError>(expired(from.0, kept))
                &&& sub == Err::<MemSubscription, StorageError>(expired(from.0, kept))
            } else {
                &&& r matches Ok(entries) && entries@.len() == (if from.0 < end {
                    end - from.0
                } else {
                    0
                }) && forall|i: int|
                    0 <= i < entries@.len() ==> (#[trigger] entries@[i])@ == all[from.0 + i]
                &&& sub matches Ok(sub) && !sub@.closed && (from.0 <= usize::MAX ==> sub@.cursor
                    == from.0)
            }
        }),
{
    if let Ok(entries) = r {
        let models = mem::entry_models(entries@);
        let upto = match to {
            Some(o) => Some(o.0),
            None => None,
        };
        let range = mem::mem_range(log@, from.0, upto);
        assert(models == range);
        assert(models.len() == entries@.len());
        assert forall|i: int| 0 <= i < entries@.len() implies (#[trigger] entries@[i])@
            == log@.entries[from.0 + i] by {
            assert(models[i] == entries@[i]@);
            assert(range[i] == log@.entries[from.0 + i]);
        }
    }
}

/// A subscription to a log in memory gives the entry that is due and moves on to the
/// next one; it waits where there is none yet, says so where the entry was evicted,
/// and ends once it was closed.
pub proof fn law_mem_subscription(sub: &mut MemSubscription, log: &MemLog, r: MemNext)
    requires
        log.wf(),
        0 <= old(sub)@.cursor <= u64::MAX,
        call_ensures(MemSubscription::next_entry, (sub, log), r),
    ensures
        final(sub)@.closed == old(sub)@.closed,
        ({
            let due = old(sub)@.cursor;
            let all = log@.entries;
            let kept = kept_in(*log);
            if old(sub)@.closed {
                r is End && final(sub)@.cursor == due
            } else if is_gone(due as u64, all.len() as u64, kept) {
                r == MemNext::Expired(expired(due as u64, kept)) && final(sub)@.cursor == due
            } else if due < all.len() {
                r matches MemNext::Entry(entry) && entry@ == all[due] && final(sub)@.cursor == due
                    + 1
            } else {
                r is Wait && final(sub)@.cursor == due
            }
        }),
{
}

} // verus!
