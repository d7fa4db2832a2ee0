//! Frames: how envelopes are set off from one another in a byte stream.

pub mod error;
pub mod serial;
pub mod shape;
pub mod stream;

use vstd::prelude::*;

verus! {

/// The largest payload of a frame where nothing else is configured.
pub const DEFAULT_MAX_FRAME_SIZE: usize = 65_535;

} // verus!
