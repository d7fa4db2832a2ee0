//! The segment log: what it knows of its files.
//!
//! The log does no input or output itself. It is told what its files hold, and
//! says what to write, cut off or delete; each change of its own state is a
//! step of its own, to be taken once the files have been dealt with.

pub mod appending;
pub mod opening;
pub mod reading;

use std::collections::VecDeque;

use vstd::prelude::*;

use crate::log::config::SegmentLogConfig;
use crate::log::state::appending::AppendPhase;

verus! {

/// A segment that is complete.
#[derive(Debug)]
pub struct ClosedSegment {
    /// The offset of the first record.
    pub base_offset: u64,
    /// The offset of the last record.
    pub last_offset: u64,
    /// When the last record was appended.
    pub last_appended_at_ns: u64,
    /// The size of the data file.
    pub byte_size: u64,
    /// Where the records stand in the data file.
    pub positions: Vec<u64>,
}

/// The segment that records are appended to.
#[derive(Debug)]
pub struct ActiveSegment {
    /// The offset of the first record.
    pub base_offset: u64,
    /// Where the records stand in the data file.
    pub positions: Vec<u64>,
    /// How many bytes of records the data file holds.
    pub byte_size: u64,
    /// When the segment was begun.
    pub created_at_ns: u64,
    /// Where the next record goes.
    pub next_file_pos: u64,
    /// When the last record was appended; 0 where there is none.
    pub last_appended_at_ns: u64,
}

/// A complete segment, as a model.
#[verifier::ext_equal]
pub struct ClosedModel {
    pub base: u64,
    pub last: u64,
    pub last_appended: u64,
    pub size: u64,
    pub positions: Seq<u64>,
}

/// The segment that records are appended to, as a model.
#[verifier::ext_equal]
pub struct ActiveModel {
    pub base: u64,
    pub positions: Seq<u64>,
    pub size: u64,
    pub created: u64,
    pub next_pos: u64,
    pub last_appended: u64,
}

/// A log, as a model.
#[verifier::ext_equal]
pub struct LogModel {
    pub closed: Seq<ClosedModel>,
    pub active: Option<ActiveModel>,
    /// The offset that comes next.
    pub next: u64,
    /// Whether the log is out of step with its file.
    pub poisoned: bool,
}

impl View for ClosedSegment {
    type V = ClosedModel;

    open spec fn view(&self) -> ClosedModel {
        ClosedModel {
            base: self.base_offset,
            last: self.last_offset,
            last_appended: self.last_appended_at_ns,
            size: self.byte_size,
            positions: self.positions@,
        }
    }
}

impl View for ActiveSegment {
    type V = ActiveModel;

    open spec fn view(&self) -> ActiveModel {
        ActiveModel {
            base: self.base_offset,
            positions: self.positions@,
            size: self.byte_size,
            created: self.created_at_ns,
            next_pos: self.next_file_pos,
            last_appended: self.last_appended_at_ns,
        }
    }
}

/// The models of complete segments.
pub open spec fn closed_models(s: Seq<ClosedSegment>) -> Seq<ClosedModel> {
    Seq::new(s.len(), |i: int| s[i]@)
}

/// A log of events in segment files.
#[derive(Debug)]
pub struct SegmentLog {
    config: SegmentLogConfig,
    closed: VecDeque<ClosedSegment>,
    active: Option<ActiveSegment>,
    next_offset: u64,
    poisoned: bool,
    phase: Option<AppendPhase>,
}

impl View for SegmentLog {
    type V = LogModel;

    closed spec fn view(&self) -> LogModel {
        LogModel {
            closed: closed_models(self.closed@),
            active: match self.active {
                Some(a) => Some(a@),
                None => None,
            },
            next: self.next_offset,
            poisoned: self.poisoned,
        }
    }
}

/// A complete segment has records, and they are numbered without gaps.
pub open spec fn closed_wf(c: ClosedModel) -> bool {
    c.positions.len() >= 1 && c.last + 1 == c.base + c.positions.len() && c.last < u64::MAX
}

/// The records of the active segment can be numbered.
pub open spec fn active_wf(a: ActiveModel) -> bool {
    a.base + a.positions.len() <= u64::MAX
}

/// Every complete segment has records, numbered without gaps, and those of the
/// active segment can be numbered.
pub open spec fn log_wf(m: LogModel) -> bool {
    &&& forall|i: int| 0 <= i < m.closed.len() ==> closed_wf(#[trigger] m.closed[i])
    &&& m.active matches Some(a) ==> active_wf(a)
}

/// A log without segments.
pub open spec fn empty_log() -> LogModel {
    LogModel { closed: seq![], active: None, next: 0, poisoned: false }
}

impl SegmentLog {
    /// How the log is configured.
    pub closed spec fn settings(&self) -> SegmentLogConfig {
        self.config
    }

    /// The append that is under way.
    pub closed spec fn pending(&self) -> Option<AppendPhase> {
        self.phase
    }

    /// The segments can be numbered, and the append that is under way fits the
    /// log.
    pub open spec fn wf(&self) -> bool {
        log_wf(self@) && (self.pending() matches Some(phase) ==> appending::phase_wf(self@, phase))
    }

    /// How the log is configured.
    pub fn config(&self) -> (r: &SegmentLogConfig)
        ensures
            *r == self.settings(),
    {
        &self.config
    }

    /// How many complete segments there are.
    pub fn closed_len(&self) -> (r: usize)
        ensures
            r == self@.closed.len(),
    {
        self.closed.len()
    }

    /// The offset that comes next.
    pub fn next_offset(&self) -> (r: u64)
        ensures
            r == self@.next,
    {
        self.next_offset
    }
}

} // verus!
