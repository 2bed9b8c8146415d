use vstd::prelude::*;

verus! {

/// A malformed answer frame: the envelope itself cannot be trusted.
#[derive(Debug, PartialEq, Eq, Structural, Clone, Copy)]
pub enum FramingError {
    /// The first byte of the frame is not the answer sentinel.
    BadPrefix,
    /// The trailing checksum byte disagrees with the frame contents.
    ChecksumMismatch,
    /// The declared payload length disagrees with the frame length.
    LengthMismatch,
}

/// Any deviation from the documented protocol; every variant aborts the run.
#[derive(Debug)]
pub enum GtError {
    /// The answer frame envelope was malformed.
    Framing(FramingError),
    /// A well-framed answer whose payload disagrees with the documented
    /// shape for the command that was sent.
    UnexpectedAnswer { received: Vec<u8> },
    /// The idle-probe slot did not read as all 0xFF.
    UnknownDeviceState,
    /// A track record whose masked tag byte is not in the documented table.
    UnknownRecordTag(u8),
    /// A well-formed model answer naming a model this workflow does not
    /// drive; only the GT120 family is supported.
    UnsupportedModel,
}

} // verus!
