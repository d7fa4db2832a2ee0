//! Offsets, entries, and how long entries are kept.

use vstd::prelude::*;

use crate::codec::Tree;
use crate::model::event::OtkEvent;
use crate::wire::Wire;

verus! {

/// The number of an entry in a log.
#[derive(Debug, Clone, Copy, PartialEq, Eq, PartialOrd, Ord, Hash, Structural)]
pub struct Offset(pub u64);

impl Offset {
    /// The offset with the given number.
    pub fn new(n: u64) -> (r: Self)
        ensures
            r == Offset(n),
    {
        Offset(n)
    }

    /// The number of the offset.
    pub fn as_u64(self) -> (r: u64)
        ensures
            r == self.0,
    {
        self.0
    }
}

/// An event in a log.
#[derive(Debug)]
pub struct LogEntry {
    pub offset: Offset,
    /// When the entry was appended, in nanoseconds since the Unix epoch.
    pub appended_at_ns: u64,
    /// Who produced the event.
    pub producer_id: String,
    pub event: OtkEvent,
}

/// An entry, as a model.
#[verifier::ext_equal]
pub struct EntryModel {
    pub offset: u64,
    pub appended_at_ns: u64,
    pub producer: Seq<char>,
    pub event: Tree,
}

impl View for LogEntry {
    type V = EntryModel;

    open spec fn view(&self) -> EntryModel {
        EntryModel {
            offset: self.offset.0,
            appended_at_ns: self.appended_at_ns,
            producer: self.producer_id@,
            event: self.event.tree(),
        }
    }
}

impl Clone for LogEntry {
    fn clone(&self) -> (r: Self)
        ensures
            r@ == self@,
    {
        LogEntry {
            offset: self.offset,
            appended_at_ns: self.appended_at_ns,
            producer_id: self.producer_id.clone(),
            event: self.event.clone(),
        }
    }
}

/// How long entries are kept.
#[derive(Debug, Clone, Copy, PartialEq, Eq, Structural)]
pub enum RetentionPolicy {
    /// For ever.
    Indefinite,
    /// For so many seconds.
    TimeBased { max_age_secs: u64 },
    /// As long as all of them take no more than so many bytes.
    SizeBased { max_bytes: u64 },
    /// As long as both allow it.
    Hybrid { max_age_secs: u64, max_bytes: u64 },
}

} // verus!
