//! Timebases: the clocks that detections are timed by.

use vstd::prelude::*;
use vstd::string::*;

use crate::model::health::TimebaseStatusEvent;
use crate::model::ids::TimebaseId;
use crate::model::timestamp::SourceAttestation;

verus! {

/// How far a timebase has come.
#[derive(Debug, Clone, Copy, PartialEq, Eq, Structural)]
pub enum TimebaseState {
    Initializing,
    Running,
    Degraded,
    Stopped,
    Failed,
}

/// What a timebase goes by.
#[derive(Debug, Clone, PartialEq, Eq)]
pub enum TimebaseKind {
    Gnss,
    Ptp,
    Ntp,
    Local,
    Other(String),
}

/// How a timebase introduces itself.
#[derive(Debug, Clone)]
pub struct TimebaseMetadataEvent {
    pub timebase_id: TimebaseId,
    pub kind: TimebaseKind,
    /// How far off it says it may be.
    pub declared_uncertainty_ns: Option<u64>,
    /// On whose word this rests.
    pub source_attestation: SourceAttestation,
    /// When it was declared.
    pub declared_at_ns: u64,
}

/// What a timebase tells. The first thing after its start is its metadata.
#[derive(Debug, Clone)]
pub enum TimebaseEvent {
    Status(TimebaseStatusEvent),
    Metadata(TimebaseMetadataEvent),
}

/// What can go wrong with a timebase.
#[derive(Debug)]
pub enum TimebaseError {
    DeviceNotFound(String),
    DeviceDisconnected,
    Configuration(String),
    Io(String),
}

impl TimebaseError {
    /// The sentence for the error.
    pub open spec fn text(&self) -> Seq<char> {
        match self {
            TimebaseError::DeviceNotFound(s) => "device not found: "@ + s@,
            TimebaseError::DeviceDisconnected => "device disconnected"@,
            TimebaseError::Configuration(s) => "configuration error: "@ + s@,
            TimebaseError::Io(s) => "I/O error: "@ + s@,
        }
    }

    /// A sentence that tells a person what is wrong.
    pub fn message(&self) -> (r: String)
        ensures
            r@ == self.text(),
    {
        match self {
            TimebaseError::DeviceNotFound(s) => "device not found: ".to_owned().concat(
                s.as_str(),
            ),
            TimebaseError::DeviceDisconnected => "device disconnected".to_owned(),
            TimebaseError::Configuration(s) => "configuration error: ".to_owned().concat(
                s.as_str(),
            ),
            TimebaseError::Io(s) => "I/O error: ".to_owned().concat(s.as_str()),
        }
    }
}

/// A clock.
///
/// `start` opens the reference. From then on `next_event` gives what there is,
/// the metadata first. `stop` ends it; what is left is still given, until there
/// is nothing more.
pub trait Timebase {
    fn timebase_id(&self) -> &TimebaseId;

    fn state(&self) -> TimebaseState;

    fn start(&mut self) -> Result<(), TimebaseError>;

    fn stop(&mut self) -> Result<(), TimebaseError>;

    fn next_event(&mut self) -> Option<Result<TimebaseEvent, TimebaseError>>;
}

} // verus!
