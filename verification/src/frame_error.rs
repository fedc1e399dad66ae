//! Errors of frame decoding and encoding.
use vstd::prelude::*;

verus! {

/// Why a frame could not be read or written.
#[allow(inconsistent_fields)]
#[derive(Debug, PartialEq, Eq)]
pub enum FrameError {
    /// More bytes are needed before a whole frame is in the buffer.
    Incomplete,
    /// The peer reset the connection.
    ConnectionReset,
    /// The frame is malformed; the text says how.
    BadFrame(String),
    /// The frame length exceeds the maximum.
    TooLongFrame { found: u32, max: u32 },
    /// The frame does not start with the magic code.
    MagicCodeMismatch { found: u8, expected: u8 },
    /// The header length exceeds the maximum.
    TooLongFrameHeader { found: u32, expected: u32 },
    /// The payload checksum does not match the payload.
    PayloadChecksumMismatch { expected: u32, actual: u32 },
}

} // verus!
