//! What can be wrong with a frame.

use vstd::prelude::*;
use vstd::string::*;

use crate::codec::DecodeFault;
use crate::text;

verus! {

/// What can be wrong with a frame.
#[derive(Debug, Clone, Copy, PartialEq, Eq)]
pub enum FrameError {
    /// The payload is larger than the configured maximum.
    OversizeFrame {
        /// How large it is, where that is known.
        len: Option<usize>,
        /// The configured maximum.
        max: usize,
    },
    /// The checksum of a serial frame does not match.
    CorruptFrame,
    /// A serial frame is not valid COBS: the frame boundary was lost.
    LostSync,
    /// The envelope could not be written.
    EncodeFailed,
    /// The frame is whole, but its payload is not an envelope.
    DecodeFailed(DecodeFault),
}

/// The sentence for a frame error.
pub open spec fn frame_error_text(e: FrameError) -> Seq<char> {
    match e {
        FrameError::OversizeFrame { len: Some(len), max } => "frame too large: "@ + text::decimal(
            len as int,
        ) + " bytes exceeds maximum of "@ + text::decimal(max as int),
        FrameError::OversizeFrame { len: None, max } => "frame too large: exceeded maximum of "@
            + text::decimal(max as int) + " bytes before delimiter"@,
        FrameError::CorruptFrame => "corrupt frame: CRC-16/CCITT-FALSE mismatch"@,
        FrameError::LostSync => "lost sync: COBS decoding failed"@,
        FrameError::EncodeFailed => "CBOR encoding of envelope failed"@,
        FrameError::DecodeFailed(e) => "CBOR decoding of envelope failed: "@ + e.text(),
    }
}

impl FrameError {
    /// A sentence that tells a person what is wrong.
    pub fn message(&self) -> (r: String)
        ensures
            r@ == frame_error_text(*self),
    {
        match self {
            FrameError::OversizeFrame { len: Some(len), max } => "frame too large: ".to_owned()
                .concat(text::decimal_string(*len as u64).as_str()).concat(
                " bytes exceeds maximum of ",
            ).concat(text::decimal_string(*max as u64).as_str()),
            FrameError::OversizeFrame { len: None, max } => (
            "frame too large: exceeded maximum of ").to_owned().concat(
                text::decimal_string(*max as u64).as_str(),
            ).concat(" bytes before delimiter"),
            FrameError::CorruptFrame => "corrupt frame: CRC-16/CCITT-FALSE mismatch".to_owned(),
            FrameError::LostSync => "lost sync: COBS decoding failed".to_owned(),
            FrameError::EncodeFailed => "CBOR encoding of envelope failed".to_owned(),
            FrameError::DecodeFailed(e) => "CBOR decoding of envelope failed: ".to_owned().concat(
                e.message().as_str(),
            ),
        }
    }
}

} // verus!
