//! Detector adapters: the sources of detections.

use vstd::prelude::*;
use vstd::string::*;

use crate::model::detection::Detection;
use crate::model::event::OtkEvent;
use crate::model::health::DetectorHealthEvent;
use crate::model::ids::DetectorId;
use crate::model::metadata::AdapterMetadataEvent;

verus! {

/// How far an adapter has come.
#[derive(Debug, Clone, Copy, PartialEq, Eq, Structural)]
pub enum AdapterState {
    Initializing,
    Running,
    Degraded,
    Stopped,
    Failed,
}

/// What an adapter tells. The first thing after its start is its metadata.
#[derive(Debug, Clone)]
pub enum AdapterEvent {
    Detection(Detection),
    Health(DetectorHealthEvent),
    Metadata(AdapterMetadataEvent),
}

/// What can go wrong with an adapter.
#[derive(Debug)]
pub enum AdapterError {
    DeviceNotFound(String),
    DeviceDisconnected,
    Configuration(String),
    Io(String),
}

impl AdapterError {
    /// The sentence for the error.
    pub open spec fn text(&self) -> Seq<char> {
        match self {
            AdapterError::DeviceNotFound(s) => "device not found: "@ + s@,
            AdapterError::DeviceDisconnected => "device disconnected"@,
            AdapterError::Configuration(s) => "configuration error: "@ + s@,
            AdapterError::Io(s) => "I/O error: "@ + s@,
        }
    }

    /// A sentence that tells a person what is wrong.
    pub fn message(&self) -> (r: String)
        ensures
            r@ == self.text(),
    {
        match self {
            AdapterError::DeviceNotFound(s) => "device not found: ".to_owned().concat(s.as_str()),
            AdapterError::DeviceDisconnected => "device disconnected".to_owned(),
            AdapterError::Configuration(s) => "configuration error: ".to_owned().concat(
                s.as_str(),
            ),
            AdapterError::Io(s) => "I/O error: ".to_owned().concat(s.as_str()),
        }
    }
}

/// The event that is published for what an adapter tells.
pub fn adapter_event_to_otk(event: AdapterEvent) -> (r: OtkEvent)
    ensures
        r == match event {
            AdapterEvent::Detection(d) => OtkEvent::Detection(d),
            AdapterEvent::Health(h) => OtkEvent::DetectorHealth(h),
            AdapterEvent::Metadata(m) => OtkEvent::AdapterMetadata(m),
        },
{
    match event {
        AdapterEvent::Detection(d) => OtkEvent::Detection(d),
        AdapterEvent::Health(h) => OtkEvent::DetectorHealth(h),
        AdapterEvent::Metadata(m) => OtkEvent::AdapterMetadata(m),
    }
}

/// A source of detections.
///
/// `start` opens the device. From then on `next_event` gives what there is, the
/// metadata first. `stop` ends it; what is left is still given, until there is
/// nothing more.
pub trait DetectorAdapter {
    fn detector_id(&self) -> &DetectorId;

    fn state(&self) -> AdapterState;

    fn start(&mut self) -> Result<(), AdapterError>;

    fn stop(&mut self) -> Result<(), AdapterError>;

    fn next_event(&mut self) -> Option<Result<AdapterEvent, AdapterError>>;
}

} // verus!
