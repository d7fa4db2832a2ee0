//! The OTK wire protocol: the envelope round every message, the messages of
//! the handshake, and the trace context that an envelope may carry.

pub mod envelope;
pub mod messages;
pub mod traceparent;

use vstd::prelude::*;

verus! {

/// The protocol version that this library speaks.
pub const PROTOCOL_VERSION: u8 = 0;

} // verus!
