//! What a source of detections, and a clock, have to offer.

pub mod adapter;
pub mod timebase;
