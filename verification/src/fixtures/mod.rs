//! Canonical inputs: known-good detections, events, envelopes and streams to
//! try an implementation on.

pub mod canon;
pub mod detections;
pub mod envelopes;
pub mod events;
pub mod streams;
