//! Reading from a log.

use vstd::prelude::*;

use crate::log::entry::{EntryModel, LogEntry, Offset};
use crate::log::error::{Corruption, StorageError};
use crate::log::segment;
use crate::log::segment::read_record;
use crate::log::state;
use crate::log::state::{ActiveModel, ClosedModel, LogModel, SegmentLog};

verus! {

/// The first offset that is kept.
pub open spec fn earliest(m: LogModel) -> Option<u64> {
    if m.closed.len() > 0 {
        Some(m.closed[0].base)
    } else {
        match m.active {
            Some(a) if a.positions.len() > 0 => Some(a.base),
            _ => None,
        }
    }
}

/// The last offset that is kept.
pub open spec fn latest(m: LogModel) -> Option<u64> {
    match m.active {
        Some(a) if a.positions.len() > 0 => Some((a.base + a.positions.len() - 1) as u64),
        _ => if m.closed.len() > 0 {
            Some(m.closed.last().last)
        } else {
            None
        },
    }
}

/// There were entries, and none is kept.
pub open spec fn fully_evicted(m: LogModel) -> bool {
    m.closed.len() == 0 && (m.active matches Some(a) ==> a.positions.len() == 0) && m.next > 0
}

/// Why reading from an offset on is refused, if it is.
pub open spec fn retention_fault(m: LogModel, from: u64) -> Option<StorageError> {
    if fully_evicted(m) {
        Some(
            StorageError::RetentionExpired { requested: Offset(from), earliest_available: None },
        )
    } else {
        match earliest(m) {
            Some(first) if from < first => Some(
                StorageError::RetentionExpired {
                    requested: Offset(from),
                    earliest_available: Some(Offset(first)),
                },
            ),
            _ => None,
        }
    }
}

/// A record to be read: its segment, its position there, and its offset.
#[derive(Debug, Clone, Copy, PartialEq, Eq, Structural)]
pub struct ReadSlot {
    pub base: u64,
    pub position: u64,
    pub offset: u64,
}

/// The records with offsets from `start` to before `end` of a segment.
pub open spec fn segment_slots(
    base: u64,
    positions: Seq<u64>,
    start: int,
    end: int,
) -> Seq<ReadSlot> {
    Seq::new(
        (if end > start {
            end - start
        } else {
            0
        }) as nat,
        |k: int|
            ReadSlot {
                base,
                position: positions[start - base + k],
                offset: (start + k) as u64,
            },
    )
}

/// The larger of two numbers.
pub open spec fn max(a: int, b: int) -> int {
    if a >= b {
        a
    } else {
        b
    }
}

/// The smaller of two numbers.
pub open spec fn min(a: int, b: int) -> int {
    if a <= b {
        a
    } else {
        b
    }
}

/// The records with offsets from `from` to before `to` of the complete
/// segments from number `i` on. The first segment that begins at `to` or later
/// ends the search.
pub open spec fn closed_slots(closed: Seq<ClosedModel>, i: int, from: u64, to: u64) -> Seq<ReadSlot>
    decreases closed.len() - i,
{
    if !(0 <= i < closed.len()) {
        seq![]
    } else {
        let c = closed[i];
        if c.last < from {
            closed_slots(closed, i + 1, from, to)
        } else if c.base >= to {
            seq![]
        } else {
            segment_slots(
                c.base,
                c.positions,
                max(from as int, c.base as int),
                min(to as int, c.last + 1),
            ) + closed_slots(closed, i + 1, from, to)
        }
    }
}

/// The records with offsets from `from` to before `to` of the active segment.
pub open spec fn active_slots(active: Option<ActiveModel>, from: u64, to: u64) -> Seq<ReadSlot> {
    match active {
        Some(a) if a.base < to && a.base + a.positions.len() > from => segment_slots(
            a.base,
            a.positions,
            max(from as int, a.base as int),
            min(to as int, (a.base + a.positions.len()) as int),
        ),
        _ => seq![],
    }
}

/// What is to be read for a range of offsets, or why it is refused. A range that
/// begins with an offset that was given out and is not kept any more is refused,
/// even if it is empty.
pub open spec fn read_plan(m: LogModel, from: u64, to: Option<u64>) -> Result<
    Seq<ReadSlot>,
    StorageError,
> {
    let end = match to {
        Some(to) => to,
        None => u64::MAX,
    };
    if from >= m.next {
        Ok(seq![])
    } else {
        match retention_fault(m, from) {
            Some(e) => Err(e),
            None => if end <= from {
                Ok(seq![])
            } else {
                Ok(closed_slots(m.closed, 0, from, end) + active_slots(m.active, from, end))
            },
        }
    }
}

impl SegmentLog {
    /// The first offset that is kept.
    pub fn earliest_offset(&self) -> (r: Option<Offset>)
        ensures
            r == match earliest(self@) {
                Some(n) => Some(Offset(n)),
                None => None,
            },
    {
        if self.closed.len() > 0 {
            assert(self@.closed[0] == self.closed@[0]@);
            return Some(Offset::new(self.closed[0].base_offset));
        }
        match &self.active {
            Some(a) => if a.positions.len() > 0 {
                Some(Offset::new(a.base_offset))
            } else {
                None
            },
            None => None,
        }
    }

    /// The last offset that is kept.
    pub fn latest_offset(&self) -> (r: Option<Offset>)
        requires
            self.wf(),
        ensures
            r == match latest(self@) {
                Some(n) => Some(Offset(n)),
                None => None,
            },
    {
        if let Some(a) = &self.active {
            if a.positions.len() > 0 {
                return Some(Offset::new(a.base_offset + (a.positions.len() as u64 - 1)));
            }
        }
        if self.closed.len() > 0 {
            let i: usize = self.closed.len() - 1;
            assert(self@.closed.last() == self.closed@[i as int]@);
            return Some(Offset::new(self.closed[i].last_offset));
        }
        None
    }

    /// Whether there were entries, and none is kept.
    pub fn is_fully_evicted(&self) -> (r: bool)
        ensures
            r == fully_evicted(self@),
    {
        let active_empty = match &self.active {
            Some(a) => a.positions.len() == 0,
            None => true,
        };
        self.closed.len() == 0 && active_empty && self.next_offset > 0
    }

    /// Refuses to read from an offset on that is not kept any more.
    fn check_retained(&self, from: u64) -> (r: Result<(), StorageError>)
        ensures
            r == match retention_fault(self@, from) {
                Some(e) => Err::<(), StorageError>(e),
                None => Ok(()),
            },
    {
        if self.is_fully_evicted() {
            return Err(
                StorageError::RetentionExpired {
                    requested: Offset::new(from),
                    earliest_available: None,
                },
            );
        }
        match self.earliest_offset() {
            Some(first) => if from < first.as_u64() {
                Err(
                    StorageError::RetentionExpired {
                        requested: Offset::new(from),
                        earliest_available: Some(first),
                    },
                )
            } else {
                Ok(())
            },
            None => Ok(()),
        }
    }

    /// Whether a subscription from an offset on can be had. Offsets that have
    /// not been given out yet are waited for.
    pub fn subscribe(&self, from: Offset) -> (r: Result<(), StorageError>)
        ensures
            r == (if from.0 >= self@.next {
                Ok::<(), StorageError>(())
            } else {
                match retention_fault(self@, from.0) {
                    Some(e) => Err(e),
                    None => Ok(()),
                }
            }),
    {
        if from.as_u64() >= self.next_offset {
            return Ok(());
        }
        self.check_retained(from.as_u64())
    }

    /// What is to be read for the offsets from `from` to before `to`.
    pub fn read_range(&self, from: Offset, to: Option<Offset>) -> (r: Result<
        Vec<ReadSlot>,
        StorageError,
    >)
        requires
            self.wf(),
        ensures
            ({
                let plan = read_plan(
                    self@,
                    from.0,
                    match to {
                        Some(o) => Some(o.0),
                        None => None,
                    },
                );
                match r {
                    Ok(slots) => plan == Ok::<Seq<ReadSlot>, StorageError>(slots@),
                    Err(e) => plan == Err::<Seq<ReadSlot>, StorageError>(e),
                }
            }),
    {
        let start: u64 = from.as_u64();
        let mut slots: Vec<ReadSlot> = Vec::new();
        let end: u64 = match to {
            Some(o) => o.as_u64(),
            None => u64::MAX,
        };
        if start >= self.next_offset {
            assert(slots@ =~= seq![]);
            return Ok(slots);
        }
        match self.check_retained(start) {
            Ok(_) => {},
            Err(e) => {
                return Err(e);
            },
        }
        if end <= start {
            assert(slots@ =~= seq![]);
            return Ok(slots);
        }
        let mut i: usize = 0;
        let ghost all = closed_slots(self@.closed, 0, start, end);
        assert(slots@ + all =~= all);
        while i < self.closed.len()
            invariant
                self.wf(),
                i <= self@.closed.len(),
                all == closed_slots(self@.closed, 0, start, end),
                slots@ + closed_slots(self@.closed, i as int, start, end) == all,
            ensures
                slots@ == all,
            decreases self@.closed.len() - i,
        {
            let segment = &self.closed[i];
            let ghost c = self@.closed[i as int];
            assert(c == segment@ && state::closed_wf(c));
            let ghost before = slots@;
            if segment.last_offset < start {
                i = i + 1;
                continue ;
            }
            if segment.base_offset >= end {
                assert(slots@ + seq![] =~= slots@);
                break ;
            }
            let first: u64 = if start > segment.base_offset {
                start
            } else {
                segment.base_offset
            };
            let stop: u64 = if end < segment.last_offset + 1 {
                end
            } else {
                segment.last_offset + 1
            };
            push_slots(&mut slots, segment.base_offset, &segment.positions, first, stop);
            i = i + 1;
            proof {
                let here = segment_slots(c.base, c.positions, first as int, stop as int);
                let rest = closed_slots(self@.closed, i as int, start, end);
                assert((before + here) + rest =~= before + (here + rest));
                if i == self@.closed.len() {
                    assert(rest =~= seq![]);
                    assert(slots@ + rest =~= slots@);
                }
            }
        }
        if let Some(a) = &self.active {
            let stop_active: u64 = a.base_offset + a.positions.len() as u64;
            if a.base_offset < end && stop_active > start {
                let first: u64 = if start > a.base_offset {
                    start
                } else {
                    a.base_offset
                };
                let stop: u64 = if end < stop_active {
                    end
                } else {
                    stop_active
                };
                push_slots(&mut slots, a.base_offset, &a.positions, first, stop);
            } else {
                assert(slots@ + seq![] =~= slots@);
            }
        } else {
            assert(slots@ + seq![] =~= slots@);
        }
        Ok(slots)
    }
}

/// Adds the records with offsets from `first` to before `stop` of a segment.
fn push_slots(
    slots: &mut Vec<ReadSlot>,
    base: u64,
    positions: &Vec<u64>,
    first: u64,
    stop: u64,
)
    requires
        base <= first,
        stop <= base + positions@.len(),
    ensures
        final(slots)@ == old(slots)@ + segment_slots(
            base,
            positions@,
            first as int,
            stop as int,
        ),
{
    let mut offset: u64 = first;
    let ghost here = segment_slots(base, positions@, first as int, stop as int);
    assert(slots@ =~= old(slots)@ + here.take(0));
    while offset < stop
        invariant
            base <= first <= offset,
            stop <= base + positions@.len(),
            here == segment_slots(base, positions@, first as int, stop as int),
            offset <= stop || offset == first,
            slots@ == old(slots)@ + here.take(offset - first),
        decreases stop - offset,
    {
        assert(positions@.len() == positions.len());
        let position: u64 = positions[(offset - base) as usize];
        let ghost k = (offset - first) as int;
        slots.push(ReadSlot { base, position, offset });
        offset = offset + 1;
        proof {
            assert(here.take(k + 1) =~= here.take(k).push(here[k]));
            assert(slots@ =~= old(slots)@ + here.take(k + 1));
        }
    }
    assert(here.take(offset - first) =~= here);
}

/// The entry that was read for a slot: it must have the slot's offset.
pub open spec fn slot_entry(slot: ReadSlot, window: Seq<u8>) -> Result<EntryModel, StorageError> {
    match segment::parse_record(window) {
        Err(e) => Err(e),
        Ok((entry, _)) => if entry.offset != slot.offset {
            Err(
                StorageError::Corrupted(
                    Corruption::WrongRecord {
                        position: slot.position,
                        expected: slot.offset,
                        found: entry.offset,
                    },
                ),
            )
        } else {
            Ok(entry)
        },
    }
}

/// Takes the entry of a slot out of the bytes at its position.
pub fn read_slot(slot: ReadSlot, window: &[u8]) -> (r: Result<LogEntry, StorageError>)
    ensures
        match r {
            Ok(entry) => slot_entry(slot, window@) == Ok::<EntryModel, StorageError>(entry@),
            Err(e) => slot_entry(slot, window@) == Err::<EntryModel, StorageError>(e),
        },
{
    match read_record(window) {
        Err(e) => Err(e),
        Ok((entry, _)) => if entry.offset.as_u64() != slot.offset {
            Err(
                StorageError::Corrupted(
                    Corruption::WrongRecord {
                        position: slot.position,
                        expected: slot.offset,
                        found: entry.offset.as_u64(),
                    },
                ),
            )
        } else {
            Ok(entry)
        },
    }
}

} // verus!
