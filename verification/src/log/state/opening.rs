//! Opening a log: what its files hold, and what is to be done to them.

use std::collections::VecDeque;

use vstd::prelude::*;

use crate::log::config::SegmentLogConfig;
use crate::log::error::{Corruption, StorageError};
use crate::log::segment;
use crate::log::segment::{
    read_index, read_record, read_watermark, recover_active, SegmentHeader, HEADER_LEN,
};
use crate::log::state;
use crate::log::state::{ActiveModel, ActiveSegment, ClosedModel, ClosedSegment, LogModel, SegmentLog};

verus! {

/// What a segment's files hold, for opening a log.
pub enum SegmentInput {
    /// A segment with an index: the bytes of the index, the first bytes of the
    /// data file, its bytes from the last position in the index on, and its
    /// size.
    Closed { base: u64, index: Vec<u8>, head: Vec<u8>, last: Vec<u8>, size: u64 },
    /// A segment without an index: the bytes of the data file.
    Unindexed { base: u64, data: Vec<u8> },
}

/// What is to be done to the files of a log that is opened.
pub enum OpenAction {
    /// Delete the data file: it holds no records and is not the last one.
    RemoveOrphan { base: u64 },
    /// Cut the data file off at 0 and write this header: it has none.
    ResetHeader { base: u64, header: Vec<u8> },
    /// Cut the data file off: what lies behind is no good.
    Truncate { base: u64, len: u64 },
}

/// What is to be done to the files, as a model.
#[verifier::ext_equal]
pub enum OpenFix {
    RemoveOrphan(u64),
    ResetHeader(u64, Seq<u8>),
    Truncate(u64, int),
}

impl View for OpenAction {
    type V = OpenFix;

    open spec fn view(&self) -> OpenFix {
        match self {
            OpenAction::RemoveOrphan { base } => OpenFix::RemoveOrphan(*base),
            OpenAction::ResetHeader { base, header } => OpenFix::ResetHeader(*base, header@),
            OpenAction::Truncate { base, len } => OpenFix::Truncate(*base, *len as int),
        }
    }
}

/// The models of actions.
pub open spec fn fixes(s: Seq<OpenAction>) -> Seq<OpenFix> {
    Seq::new(s.len(), |i: int| s[i]@)
}

/// How far the opening of a log has come.
#[verifier::ext_equal]
pub struct Opening {
    pub log: LogModel,
    pub fixes: Seq<OpenFix>,
    /// Why it cannot go on.
    pub error: Option<StorageError>,
}

/// The opening has failed.
pub open spec fn failed(o: Opening, e: StorageError) -> Opening {
    Opening { error: Some(e), ..o }
}

/// Takes in a segment with an index.
pub open spec fn open_closed(
    o: Opening,
    base: u64,
    index: Seq<u8>,
    head: Seq<u8>,
    last: Seq<u8>,
    size: u64,
) -> Opening {
    match segment::parse_index(index) {
        Err(e) => failed(o, e),
        Ok(positions) => if positions.len() == 0 {
            o
        } else if base + positions.len() > u64::MAX {
            failed(o, StorageError::Corrupted(Corruption::OffsetOverflow { base }))
        } else {
            let next = (base + positions.len()) as u64;
            match segment::parse_header(head) {
                Err(e) => failed(o, e),
                Ok(h) => if h.base_offset != base {
                    failed(
                        o,
                        StorageError::Corrupted(
                            Corruption::HeaderBase { closed: true, base, found: h.base_offset },
                        ),
                    )
                } else {
                    match segment::parse_record(last) {
                        Err(e) => failed(o, e),
                        Ok((entry, _)) => if entry.offset != next - 1 {
                            failed(
                                o,
                                StorageError::Corrupted(
                                    Corruption::LastOffset {
                                        base,
                                        expected: (next - 1) as u64,
                                        found: entry.offset,
                                    },
                                ),
                            )
                        } else {
                            Opening {
                                log: LogModel {
                                    closed: o.log.closed.push(
                                        ClosedModel {
                                            base,
                                            last: (next - 1) as u64,
                                            last_appended: entry.appended_at_ns,
                                            size,
                                            positions,
                                        },
                                    ),
                                    next,
                                    ..o.log
                                },
                                ..o
                            }
                        },
                    }
                },
            }
        },
    }
}

/// Takes in a segment without an index.
pub open spec fn open_unindexed(o: Opening, base: u64, data: Seq<u8>, now: u64) -> Opening {
    match o.log.active {
        Some(prev) if prev.positions.len() > 0 => failed(
            o,
            StorageError::Corrupted(
                Corruption::UnindexedSegment {
                    base: prev.base,
                    records: prev.positions.len() as u64,
                },
            ),
        ),
        Some(prev) => open_active(
            Opening {
                fixes: o.fixes.push(OpenFix::RemoveOrphan(prev.base)),
                log: LogModel { active: None, ..o.log },
                ..o
            },
            base,
            data,
            now,
        ),
        None => open_active(o, base, data, now),
    }
}

/// Takes in the segment that will be appended to.
pub open spec fn open_active(o: Opening, base: u64, data: Seq<u8>, now: u64) -> Opening {
    if data.len() < HEADER_LEN {
        let h = SegmentHeader { base_offset: base, created_at_ns: now };
        open_recovered(
            Opening {
                fixes: o.fixes.push(OpenFix::ResetHeader(base, segment::header_bytes(h))),
                ..o
            },
            h,
            segment::header_bytes(h),
        )
    } else {
        match segment::parse_header(data) {
            Err(e) => failed(o, e),
            Ok(h) => if h.base_offset != base {
                failed(
                    o,
                    StorageError::Corrupted(
                        Corruption::HeaderBase { closed: false, base, found: h.base_offset },
                    ),
                )
            } else {
                open_recovered(o, h, data)
            },
        }
    }
}

/// Takes in the good records of the segment that will be appended to.
pub open spec fn open_recovered(o: Opening, h: SegmentHeader, data: Seq<u8>) -> Opening {
    match segment::recovered(data, h.base_offset, seq![], HEADER_LEN as int) {
        Err(e) => failed(o, e),
        Ok(found) => {
            let cut = if found.end < data.len() {
                Opening {
                    fixes: o.fixes.push(OpenFix::Truncate(h.base_offset, found.end)),
                    ..o
                }
            } else {
                o
            };
            let last = last_appended(data, found.positions);
            match last {
                Err(e) => failed(cut, e),
                Ok(last_appended) => if h.base_offset + found.positions.len() > u64::MAX {
                    failed(
                        cut,
                        StorageError::Corrupted(
                            Corruption::OffsetOverflow { base: h.base_offset },
                        ),
                    )
                } else {
                    Opening {
                        log: LogModel {
                            active: Some(
                                ActiveModel {
                                    base: h.base_offset,
                                    positions: found.positions,
                                    size: (found.end - HEADER_LEN) as u64,
                                    created: h.created_at_ns,
                                    next_pos: found.end as u64,
                                    last_appended,
                                },
                            ),
                            next: (h.base_offset + found.positions.len()) as u64,
                            ..cut.log
                        },
                        ..cut
                    }
                },
            }
        },
    }
}

/// When the last of the records was appended; 0 where there is none.
pub open spec fn last_appended(data: Seq<u8>, positions: Seq<u64>) -> Result<u64, StorageError> {
    if positions.len() == 0 {
        Ok(0)
    } else {
        match segment::parse_record(data.skip(positions.last() as int)) {
            Err(e) => Err(e),
            Ok((entry, _)) => Ok(entry.appended_at_ns),
        }
    }
}

/// Takes in a segment.
pub open spec fn open_step(o: Opening, input: SegmentInput, now: u64) -> Opening {
    if o.error is Some {
        o
    } else {
        match input {
            SegmentInput::Closed { base, index, head, last, size } => open_closed(
                o,
                base,
                index@,
                head@,
                last@,
                size,
            ),
            SegmentInput::Unindexed { base, data } => open_unindexed(o, base, data@, now),
        }
    }
}

/// Takes in segments, one after the other.
pub open spec fn open_steps(o: Opening, inputs: Seq<SegmentInput>, now: u64) -> Opening
    decreases inputs.len(),
{
    if inputs.len() == 0 {
        o
    } else {
        open_step(open_steps(o, inputs.drop_last(), now), inputs.last(), now)
    }
}

/// An opening that has not begun.
pub open spec fn unopened() -> Opening {
    Opening { log: state::empty_log(), fixes: seq![], error: None }
}

/// A log without any segment goes by the watermark: it may have had some.
pub open spec fn open_end(o: Opening, watermark: Option<Seq<u8>>) -> Opening {
    match watermark {
        Some(w) if o.error is None && o.log.next == 0 && o.log.closed.len() == 0
            && o.log.active is None => match segment::parse_watermark(w) {
            Some(next) => Opening { log: LogModel { next, ..o.log }, ..o },
            None => o,
        },
        _ => o,
    }
}

/// A log that was opened, or why it cannot be, and what is to be done to its
/// files either way.
pub struct Opened {
    pub actions: Vec<OpenAction>,
    pub log: Result<SegmentLog, StorageError>,
}

impl SegmentLog {
    /// Opens a log, given what its files hold, in the order of their base
    /// offsets.
    pub fn open(
        config: SegmentLogConfig,
        inputs: Vec<SegmentInput>,
        watermark: Option<Vec<u8>>,
        now: u64,
    ) -> (r: Opened)
        ensures
            ({
                let end = open_end(
                    open_steps(unopened(), inputs@, now),
                    match watermark {
                        Some(w) => Some(w@),
                        None => None,
                    },
                );
                &&& fixes(r.actions@) == end.fixes
                &&& match r.log {
                    Ok(log) => end.error is None && log@ == end.log && log.wf() && log.settings()
                        == config && log.pending() is None,
                    Err(e) => end.error == Some(e),
                }
            }),
    {
        let mut log = SegmentLog {
            config,
            closed: VecDeque::new(),
            active: None,
            next_offset: 0,
            poisoned: false,
            phase: None,
        };
        let mut actions: Vec<OpenAction> = Vec::new();
        let mut i: usize = 0;
        proof {
            assert(log@.closed =~= seq![]);
            assert(fixes(actions@) =~= seq![]);
            assert(inputs@.take(0) =~= seq![]);
        }
        while i < inputs.len()
            invariant
                i <= inputs@.len(),
                log.wf(),
                log.pending() is None,
                log.settings() == config,
                open_steps(unopened(), inputs@.take(i as int), now) == (Opening {
                    log: log@,
                    fixes: fixes(actions@),
                    error: None,
                }),
            decreases inputs@.len() - i,
        {
            proof {
                let upto = inputs@.take(i + 1);
                assert(upto.drop_last() =~= inputs@.take(i as int));
                assert(upto.last() == inputs@[i as int]);
            }
            let step = match &inputs[i] {
                SegmentInput::Closed { base, index, head, last, size } => log.take_closed(
                    *base,
                    index.as_slice(),
                    head.as_slice(),
                    last.as_slice(),
                    *size,
                ),
                SegmentInput::Unindexed { base, data } => log.take_unindexed(
                    *base,
                    data.as_slice(),
                    now,
                    &mut actions,
                ),
            };
            if let Err(e) = step {
                proof {
                    lemma_open_stays_failed(inputs@, i as int + 1, now);
                }
                return Opened { actions, log: Err(e) };
            }
            i = i + 1;
        }
        assert(inputs@.take(i as int) =~= inputs@);
        if log.next_offset == 0 && log.closed.len() == 0 && log.active.is_none() {
            if let Some(w) = &watermark {
                if let Some(next) = read_watermark(w.as_slice()) {
                    log.next_offset = next;
                }
            }
        }
        Opened { actions, log: Ok(log) }
    }

    /// Takes in a segment with an index.
    fn take_closed(&mut self, base: u64, index: &[u8], head: &[u8], last: &[u8], size: u64) -> (r:
        Result<(), StorageError>)
        requires
            old(self).wf(),
            old(self).pending() is None,
        ensures
            final(self).wf(),
            final(self).pending() is None,
            final(self).settings() == old(self).settings(),
            forall|fs: Seq<OpenFix>|
                #[trigger] open_closed(
                    Opening { log: old(self)@, fixes: fs, error: None },
                    base,
                    index@,
                    head@,
                    last@,
                    size,
                ) == match r {
                    Ok(_) => Opening { log: final(self)@, fixes: fs, error: None },
                    Err(e) => Opening { log: old(self)@, fixes: fs, error: Some(e) },
                },
            r is Err ==> final(self)@ == old(self)@,
    {
        let positions = match read_index(index) {
            Ok(positions) => positions,
            Err(e) => {
                return Err(e);
            },
        };
        if positions.len() == 0 {
            return Ok(());
        }
        let next: u64 = match base.checked_add(positions.len() as u64) {
            Some(next) => next,
            None => {
                return Err(StorageError::Corrupted(Corruption::OffsetOverflow { base }));
            },
        };
        let header = match SegmentHeader::read(head) {
            Ok(header) => header,
            Err(e) => {
                return Err(e);
            },
        };
        if header.base_offset != base {
            return Err(
                StorageError::Corrupted(
                    Corruption::HeaderBase { closed: true, base, found: header.base_offset },
                ),
            );
        }
        let entry = match read_record(last) {
            Ok((entry, _)) => entry,
            Err(e) => {
                return Err(e);
            },
        };
        if entry.offset.as_u64() != next - 1 {
            return Err(
                StorageError::Corrupted(
                    Corruption::LastOffset { base, expected: next - 1, found: entry.offset.as_u64() },
                ),
            );
        }
        let ghost before = self.closed@;
        self.closed.push_back(
            ClosedSegment {
                base_offset: base,
                last_offset: next - 1,
                last_appended_at_ns: entry.appended_at_ns,
                byte_size: size,
                positions,
            },
        );
        self.next_offset = next;
        proof {
            assert(state::closed_models(self.closed@) =~= state::closed_models(before).push(
                self.closed@.last()@,
            ));
        }
        Ok(())
    }

    /// Takes in a segment without an index.
    fn take_unindexed(
        &mut self,
        base: u64,
        data: &[u8],
        now: u64,
        actions: &mut Vec<OpenAction>,
    ) -> (r: Result<(), StorageError>)
        requires
            old(self).wf(),
            old(self).pending() is None,
        ensures
            final(self).wf(),
            final(self).pending() is None,
            final(self).settings() == old(self).settings(),
            ({
                let o = Opening { log: old(self)@, fixes: fixes(old(actions)@), error: None };
                let end = open_unindexed(o, base, data@, now);
                &&& fixes(final(actions)@) == end.fixes
                &&& match r {
                    Ok(_) => end.error is None && final(self)@ == end.log,
                    Err(e) => end.error == Some(e),
                }
            }),
    {
        if let Some(prev) = self.active.take() {
            if prev.positions.len() > 0 {
                return Err(
                    StorageError::Corrupted(
                        Corruption::UnindexedSegment {
                            base: prev.base_offset,
                            records: prev.positions.len() as u64,
                        },
                    ),
                );
            }
            let ghost before = actions@;
            actions.push(OpenAction::RemoveOrphan { base: prev.base_offset });
            assert(fixes(actions@) =~= fixes(before).push(OpenFix::RemoveOrphan(prev@.base)));
        }
        self.take_active(base, data, now, actions)
    }

    /// Takes in the segment that will be appended to.
    fn take_active(
        &mut self,
        base: u64,
        data: &[u8],
        now: u64,
        actions: &mut Vec<OpenAction>,
    ) -> (r: Result<(), StorageError>)
        requires
            old(self).wf(),
            old(self).pending() is None,
            old(self)@.active is None,
        ensures
            final(self).wf(),
            final(self).pending() is None,
            final(self).settings() == old(self).settings(),
            ({
                let o = Opening { log: old(self)@, fixes: fixes(old(actions)@), error: None };
                let end = open_active(o, base, data@, now);
                &&& fixes(final(actions)@) == end.fixes
                &&& match r {
                    Ok(_) => end.error is None && final(self)@ == end.log,
                    Err(e) => end.error == Some(e),
                }
            }),
    {
        if (data.len() as u64) < HEADER_LEN {
            let header = SegmentHeader { base_offset: base, created_at_ns: now };
            let bytes = header.write();
            let ghost before = actions@;
            actions.push(OpenAction::ResetHeader { base, header: header.write() });
            proof {
                assert(fixes(actions@) =~= fixes(before).push(
                    OpenFix::ResetHeader(base, segment::header_bytes(header)),
                ));
            }
            return self.take_recovered(header, bytes.as_slice(), actions);
        }
        match SegmentHeader::read(data) {
            Err(e) => Err(e),
            Ok(header) => if header.base_offset != base {
                Err(
                    StorageError::Corrupted(
                        Corruption::HeaderBase { closed: false, base, found: header.base_offset },
                    ),
                )
            } else {
                self.take_recovered(header, data, actions)
            },
        }
    }

    /// Takes in the good records of the segment that will be appended to.
    fn take_recovered(
        &mut self,
        header: SegmentHeader,
        data: &[u8],
        actions: &mut Vec<OpenAction>,
    ) -> (r: Result<(), StorageError>)
        requires
            old(self).wf(),
            old(self).pending() is None,
            data@.len() >= HEADER_LEN,
        ensures
            final(self).wf(),
            final(self).pending() is None,
            final(self).settings() == old(self).settings(),
            ({
                let o = Opening { log: old(self)@, fixes: fixes(old(actions)@), error: None };
                let end = open_recovered(o, header, data@);
                &&& fixes(final(actions)@) == end.fixes
                &&& match r {
                    Ok(_) => end.error is None && final(self)@ == end.log,
                    Err(e) => end.error == Some(e),
                }
            }),
    {
        let base: u64 = header.base_offset;
        let (positions, end, count) = match recover_active(data, base) {
            Ok(found) => found,
            Err(e) => {
                return Err(e);
            },
        };
        proof {
            assert(data@.len() == data.len());
            segment::lemma_recovered_range(data@, base, seq![], HEADER_LEN as int);
        }
        if end < data.len() as u64 {
            let ghost before = actions@;
            actions.push(OpenAction::Truncate { base, len: end });
            assert(fixes(actions@) =~= fixes(before).push(OpenFix::Truncate(base, end as int)));
        }
        let mut last_appended_at_ns: u64 = 0;
        if positions.len() > 0 {
            let at: usize = positions[positions.len() - 1] as usize;
            let window = vstd::slice::slice_subrange(data, at, data.len());
            assert(window@ =~= data@.skip(positions@.last() as int));
            match read_record(window) {
                Ok((entry, _)) => {
                    last_appended_at_ns = entry.appended_at_ns;
                },
                Err(e) => {
                    return Err(e);
                },
            }
        }
        let next: u64 = match base.checked_add(count) {
            Some(next) => next,
            None => {
                return Err(StorageError::Corrupted(Corruption::OffsetOverflow { base }));
            },
        };
        self.active = Some(
            ActiveSegment {
                base_offset: base,
                positions,
                byte_size: end - HEADER_LEN,
                created_at_ns: header.created_at_ns,
                next_file_pos: end,
                last_appended_at_ns,
            },
        );
        self.next_offset = next;
        Ok(())
    }
}

/// An opening that has failed stays failed.
proof fn lemma_open_stays_failed(inputs: Seq<SegmentInput>, i: int, now: u64)
    requires
        0 <= i <= inputs.len(),
        open_steps(unopened(), inputs.take(i), now).error is Some,
    ensures
        open_steps(unopened(), inputs, now) == open_steps(unopened(), inputs.take(i), now),
    decreases inputs.len() - i,
{
    if i < inputs.len() {
        let upto = inputs.take(i + 1);
        assert(upto.drop_last() =~= inputs.take(i));
        lemma_open_stays_failed(inputs, i + 1, now);
    } else {
        assert(inputs.take(i) =~= inputs);
    }
}

} // verus!
