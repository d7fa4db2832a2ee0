//! A log in memory: how a log behaves, without any files.

use vstd::prelude::*;

use crate::log::entry::{EntryModel, LogEntry, Offset};
use crate::log::error::{Misuse, StorageError};
use crate::model::event::OtkEvent;
use crate::wire::Wire;

verus! {

/// A log in memory, as a model.
#[verifier::ext_equal]
pub struct MemModel {
    /// All entries that were ever appended.
    pub entries: Seq<EntryModel>,
    /// The first offset that is kept, where something was evicted.
    pub earliest: Option<u64>,
}

/// A log in memory.
///
/// Retention is not enforced by itself: it is told what to evict.
#[derive(Debug)]
pub struct MemLog {
    entries: Vec<LogEntry>,
    earliest_retained: Option<u64>,
}

/// The models of entries.
pub open spec fn entry_models(s: Seq<LogEntry>) -> Seq<EntryModel> {
    Seq::new(s.len(), |i: int| s[i]@)
}

impl View for MemLog {
    type V = MemModel;

    closed spec fn view(&self) -> MemModel {
        MemModel { entries: entry_models(self.entries@), earliest: self.earliest_retained }
    }
}

/// Entries are numbered from 0 on, and what is evicted was there.
pub open spec fn mem_wf(m: MemModel) -> bool {
    &&& m.entries.len() <= usize::MAX
    &&& forall|i: int| 0 <= i < m.entries.len() ==> (#[trigger] m.entries[i]).offset == i
    &&& m.earliest matches Some(n) ==> n <= m.entries.len()
}

/// The entries of a batch.
pub open spec fn mem_batch(start: int, now: u64, producer: Seq<char>, events: Seq<OtkEvent>) -> Seq<
    EntryModel,
> {
    Seq::new(
        events.len(),
        |i: int|
            EntryModel {
                offset: (start + i) as u64,
                appended_at_ns: now,
                producer,
                event: events[i].tree(),
            },
    )
}

/// The first offset that is kept and has an entry, where `earliest` is the
/// first one that is not evicted.
pub open spec fn available(m: MemModel, earliest: u64) -> Option<Offset> {
    if earliest < m.entries.len() {
        Some(Offset(earliest))
    } else {
        None
    }
}

/// Why an offset is refused, if it is: it was evicted.
pub open spec fn mem_fault(m: MemModel, from: u64) -> Option<StorageError> {
    match m.earliest {
        Some(earliest) if from < earliest => Some(
            StorageError::RetentionExpired {
                requested: Offset(from),
                earliest_available: available(m, earliest),
            },
        ),
        _ => None,
    }
}

/// The entries from `from` to before `to`, as far as there are any.
pub open spec fn mem_range(m: MemModel, from: u64, to: Option<u64>) -> Seq<EntryModel> {
    let len = m.entries.len() as int;
    let end = match to {
        Some(n) if n < len => n as int,
        _ => len,
    };
    if from < end {
        m.entries.subrange(from as int, end)
    } else {
        seq![]
    }
}

/// The first offset that is kept.
pub open spec fn mem_earliest(m: MemModel) -> Option<Offset> {
    if m.entries.len() == 0 {
        None
    } else {
        match m.earliest {
            Some(n) => available(m, n),
            None => Some(Offset(0)),
        }
    }
}

/// The last offset that is kept.
pub open spec fn mem_latest(m: MemModel) -> Option<Offset> {
    if mem_earliest(m) is None {
        None
    } else {
        Some(Offset((m.entries.len() - 1) as u64))
    }
}

impl MemLog {
    /// Entries are numbered from 0 on, and what is evicted was there.
    pub open spec fn wf(&self) -> bool {
        mem_wf(self@)
    }

    /// A log without entries.
    pub fn new() -> (r: Self)
        ensures
            r.wf(),
            r@ == (MemModel { entries: seq![], earliest: None }),
    {
        let r = MemLog { entries: Vec::new(), earliest_retained: None };
        assert(r@.entries =~= seq![]);
        r
    }

    /// Evicts all entries below `boundary`. A boundary beyond the entries that
    /// are there is drawn back to them: what is appended later is kept.
    pub fn evict_below(&mut self, boundary: Offset)
        requires
            old(self).wf(),
        ensures
            final(self).wf(),
            final(self)@ == (MemModel {
                earliest: Some(
                    if boundary.0 < old(self)@.entries.len() {
                        boundary.0
                    } else {
                        old(self)@.entries.len() as u64
                    },
                ),
                ..old(self)@
            }),
    {
        let next_offset: u64 = self.entries.len() as u64;
        let effective: u64 = if boundary.as_u64() < next_offset {
            boundary.as_u64()
        } else {
            next_offset
        };
        self.earliest_retained = Some(effective);
    }

    /// Evicts all entries.
    pub fn evict_all(&mut self)
        requires
            old(self).wf(),
        ensures
            final(self).wf(),
            final(self)@ == (MemModel {
                earliest: Some(old(self)@.entries.len() as u64),
                ..old(self)@
            }),
    {
        self.earliest_retained = Some(self.entries.len() as u64);
    }

    /// Appends a batch of events; gives the offset of the last one.
    pub fn append(&mut self, producer_id: &str, events: &[OtkEvent], now: u64) -> (r: Result<
        Offset,
        StorageError,
    >)
        requires
            old(self).wf(),
            old(self)@.entries.len() + events@.len() <= usize::MAX,
        ensures
            final(self).wf(),
            if events@.len() == 0 {
                r == Err::<Offset, StorageError>(StorageError::InvalidInput(Misuse::NoEvents))
                    && final(self)@ == old(self)@
            } else if producer_id@.len() == 0 {
                r == Err::<Offset, StorageError>(StorageError::InvalidInput(Misuse::NoProducerId))
                    && final(self)@ == old(self)@
            } else {
                &&& r == Ok::<Offset, StorageError>(
                    Offset((old(self)@.entries.len() + events@.len() - 1) as u64),
                )
                &&& final(self)@ == (MemModel {
                    entries: old(self)@.entries + mem_batch(
                        old(self)@.entries.len() as int,
                        now,
                        producer_id@,
                        events@,
                    ),
                    ..old(self)@
                })
            },
    {
        if events.len() == 0 {
            return Err(StorageError::InvalidInput(Misuse::NoEvents));
        }
        if producer_id.is_empty() {
            return Err(StorageError::InvalidInput(Misuse::NoProducerId));
        }
        let start: usize = self.entries.len();
        let ghost batch = mem_batch(start as int, now, producer_id@, events@);
        let mut i: usize = 0;
        assert(entry_models(self.entries@) =~= old(self)@.entries + batch.take(0));
        while i < events.len()
            invariant
                i <= events@.len(),
                start + events@.len() <= usize::MAX,
                start == old(self)@.entries.len(),
                self.entries@.len() == start + i,
                self@.earliest == old(self)@.earliest,
                self@.entries == old(self)@.entries + batch.take(i as int),
                batch == mem_batch(start as int, now, producer_id@, events@),
            decreases events@.len() - i,
        {
            let ghost before = self.entries@;
            let entry = LogEntry {
                offset: Offset::new((start + i) as u64),
                appended_at_ns: now,
                producer_id: producer_id.to_owned(),
                event: events[i].clone(),
            };
            assert(entry@ =~= batch[i as int]);
            self.entries.push(entry);
            proof {
                assert(entry_models(self.entries@) =~= entry_models(before).push(batch[i as int]));
                assert(batch.take(i + 1) =~= batch.take(i as int).push(batch[i as int]));
            }
            i = i + 1;
        }
        assert(batch.take(i as int) =~= batch);
        Ok(Offset::new((start + i - 1) as u64))
    }

    /// Refuses an offset that was evicted.
    fn check_retained(&self, from: u64) -> (r: Result<(), StorageError>)
        ensures
            r == match mem_fault(self@, from) {
                Some(e) => Err::<(), StorageError>(e),
                None => Ok(()),
            },
    {
        match self.earliest_retained {
            Some(earliest) => if from < earliest {
                Err(
                    StorageError::RetentionExpired {
                        requested: Offset::new(from),
                        earliest_available: earliest_available_offset(
                            earliest,
                            self.entries.len(),
                        ),
                    },
                )
            } else {
                Ok(())
            },
            None => Ok(()),
        }
    }

    /// The entries from `from` to before `to`. Whether `from` is kept is looked
    /// at first, even where the range is empty.
    pub fn read_range(&self, from: Offset, to: Option<Offset>) -> (r: Result<
        Vec<LogEntry>,
        StorageError,
    >)
        ensures
            match r {
                Ok(entries) => mem_fault(self@, from.0) is None && entry_models(entries@)
                    == mem_range(
                    self@,
                    from.0,
                    match to {
                        Some(o) => Some(o.0),
                        None => None,
                    },
                ),
                Err(e) => mem_fault(self@, from.0) == Some(e),
            },
    {
        match self.check_retained(from.as_u64()) {
            Ok(_) => {},
            Err(e) => {
                return Err(e);
            },
        }
        let mut out: Vec<LogEntry> = Vec::new();
        let len: u64 = self.entries.len() as u64;
        let end: u64 = match to {
            Some(o) => if o.as_u64() < len {
                o.as_u64()
            } else {
                len
            },
            None => len,
        };
        let start: u64 = from.as_u64();
        let ghost all = self@.entries;
        assert(entry_models(out@) =~= seq![]);
        if start >= end {
            return Ok(out);
        }
        let mut i: u64 = start;
        assert(entry_models(out@) =~= all.subrange(start as int, i as int));
        while i < end
            invariant
                start <= i <= end <= self.entries@.len(),
                all == entry_models(self.entries@),
                entry_models(out@) == all.subrange(start as int, i as int),
            decreases end - i,
        {
            let ghost before = out@;
            assert(self.entries@.len() == self.entries.len());
            out.push(self.entries[i as usize].clone());
            proof {
                assert(entry_models(out@) =~= entry_models(before).push(all[i as int]));
                assert(all.subrange(start as int, i + 1) =~= all.subrange(
                    start as int,
                    i as int,
                ).push(all[i as int]));
            }
            i = i + 1;
        }
        Ok(out)
    }

    /// The last offset that is kept.
    pub fn latest_offset(&self) -> (r: Option<Offset>)
        ensures
            r == mem_latest(self@),
    {
        match self.earliest_offset() {
            Some(_) => Some(Offset::new(self.entries.len() as u64 - 1)),
            None => None,
        }
    }

    /// The first offset that is kept.
    pub fn earliest_offset(&self) -> (r: Option<Offset>)
        ensures
            r == mem_earliest(self@),
    {
        if self.entries.len() == 0 {
            return None;
        }
        match self.earliest_retained {
            Some(earliest) => earliest_available_offset(earliest, self.entries.len()),
            None => Some(Offset::new(0)),
        }
    }

    /// A subscription from an offset on. Offsets that have not been given out
    /// yet are waited for.
    pub fn subscribe(&self, from: Offset) -> (r: Result<MemSubscription, StorageError>)
        ensures
            match r {
                Ok(sub) => mem_fault(self@, from.0) is None && !sub@.closed && sub@.cursor == (
                if from.0 <= usize::MAX {
                    from.0 as int
                } else {
                    usize::MAX as int
                }),
                Err(e) => mem_fault(self@, from.0) == Some(e),
            },
    {
        match self.check_retained(from.as_u64()) {
            Ok(_) => {},
            Err(e) => {
                return Err(e);
            },
        }
        let cursor: usize = if from.as_u64() <= usize::MAX as u64 {
            from.as_u64() as usize
        } else {
            usize::MAX
        };
        Ok(MemSubscription { cursor, closed: false })
    }
}

impl Default for MemLog {
    /// A log without entries.
    fn default() -> (r: Self)
        ensures
            r.wf(),
            r@ == (MemModel { entries: seq![], earliest: None }),
    {
        MemLog::new()
    }
}

/// The first offset that is kept, where `earliest` is the first one that is not
/// evicted; none where everything was.
fn earliest_available_offset(earliest: u64, entries_len: usize) -> (r: Option<Offset>)
    ensures
        r == (if earliest < entries_len {
            Some(Offset(earliest))
        } else {
            None
        }),
{
    if earliest < entries_len as u64 {
        Some(Offset::new(earliest))
    } else {
        None
    }
}

/// A subscription, as a model.
pub struct MemSubscriptionModel {
    /// The offset that is due.
    pub cursor: int,
    pub closed: bool,
}

/// A subscription to a log in memory.
#[derive(Debug)]
pub struct MemSubscription {
    cursor: usize,
    closed: bool,
}

impl View for MemSubscription {
    type V = MemSubscriptionModel;

    closed spec fn view(&self) -> MemSubscriptionModel {
        MemSubscriptionModel { cursor: self.cursor as int, closed: self.closed }
    }
}

/// What a subscription has.
#[derive(Debug)]
pub enum MemNext {
    /// The entry that is due.
    Entry(LogEntry),
    /// The entry that is due was evicted.
    Expired(StorageError),
    /// There is nothing yet: ask again once something was appended or evicted.
    Wait,
    /// The subscription is closed.
    End,
}

impl MemSubscription {
    /// The entry that is due.
    pub fn next_entry(&mut self, log: &MemLog) -> (r: MemNext)
        ensures
            if old(self)@.closed {
                r is End && final(self)@ == old(self)@
            } else {
                match mem_fault(log@, old(self)@.cursor as u64) {
                    Some(e) => r == MemNext::Expired(e) && final(self)@ == old(self)@,
                    None => if old(self)@.cursor < log@.entries.len() {
                        &&& r matches MemNext::Entry(entry) && entry@
                            == log@.entries[old(self)@.cursor]
                        &&& final(self)@ == (MemSubscriptionModel {
                            cursor: old(self)@.cursor + 1,
                            ..old(self)@
                        })
                    } else {
                        r is Wait && final(self)@ == old(self)@
                    },
                }
            },
    {
        if self.closed {
            return MemNext::End;
        }
        if let Err(e) = log.check_retained(self.cursor as u64) {
            return MemNext::Expired(e);
        }
        if self.cursor < log.entries.len() {
            let entry = log.entries[self.cursor].clone();
            self.cursor = self.cursor + 1;
            return MemNext::Entry(entry);
        }
        MemNext::Wait
    }

    /// Ends the subscription.
    pub fn close(&mut self)
        ensures
            final(self)@ == (MemSubscriptionModel { closed: true, ..old(self)@ }),
    {
        self.closed = true;
    }
}

/// What is appended is read: the batch comes behind what was there, and reading
/// from its first offset on gives the batch, as long as that offset is kept.
pub proof fn law_mem_reads_what_was_appended(
    m: MemModel,
    now: u64,
    producer: Seq<char>,
    events: Seq<OtkEvent>,
)
    requires
        mem_wf(m),
        m.entries.len() + events.len() <= usize::MAX,
    ensures
        ({
            let start = m.entries.len() as int;
            let batch = mem_batch(start, now, producer, events);
            let after = MemModel { entries: m.entries + batch, ..m };
            &&& mem_fault(after, start as u64) is None
            &&& mem_range(after, start as u64, None) == batch
        }),
{
    let start = m.entries.len() as int;
    let batch = mem_batch(start, now, producer, events);
    let after = MemModel { entries: m.entries + batch, ..m };
    assert(mem_range(after, start as u64, None) =~= batch);
}

/// A range gives the entries with its offsets that are kept, and no others.
pub proof fn law_mem_range(m: MemModel, from: u64, to: Option<u64>, i: int)
    requires
        mem_wf(m),
        0 <= i < mem_range(m, from, to).len(),
    ensures
        mem_range(m, from, to)[i].offset == from + i,
        to matches Some(n) ==> from + i < n,
{
    let j = from + i;
    assert(mem_range(m, from, to)[i] == m.entries[j]);
}

} // verus!
