//! How a segment log is configured.

use vstd::prelude::*;

use crate::log::entry::RetentionPolicy;

verus! {

/// How a segment log is configured.
#[derive(Debug)]
pub struct SegmentLogConfig {
    /// The directory of the log's files.
    pub dir: String,
    /// A segment with this many bytes of records is closed.
    pub max_segment_bytes: u64,
    /// A segment that was begun this many seconds ago is closed.
    pub max_segment_age_secs: u64,
    /// With 0, every batch is forced to the disk before it counts; with any
    /// other number that is left to the operating system.
    pub flush_interval_ms: u64,
    /// How long entries are kept. Sizes count data files, not index files.
    pub retention: RetentionPolicy,
}

impl Default for SegmentLogConfig {
    fn default() -> (r: Self)
        ensures
            r.dir@ == "otk-log"@,
            r.max_segment_bytes == 64 * 1024 * 1024,
            r.max_segment_age_secs == 3600,
            r.flush_interval_ms == 0,
            r.retention == RetentionPolicy::Indefinite,
    {
        Self {
            dir: "otk-log".to_owned(),
            max_segment_bytes: 64 * 1024 * 1024,
            max_segment_age_secs: 3600,
            flush_interval_ms: 0,
            retention: RetentionPolicy::Indefinite,
        }
    }
}

} // verus!
