//! Error taxonomy of the codec.  Every failure is reported to the caller;
//! the library never panics on malformed input data.

use vstd::prelude::*;

verus! {

/// Everything that can go wrong while encoding or decoding an image.
#[derive(Clone, Copy, Debug, PartialEq, Eq, Structural)]
pub enum EhatromError {
    /// The buffer is shorter than the format requires at some point.
    Truncated,
    /// The four-byte header tag is not the expected one.
    InvalidSignature,
    /// The header's format version is zero.
    UnsupportedVersion,
    /// A record's stored CRC-16 disagrees with the recomputed one.
    RecordCrcMismatch,
    /// The whole-image CRC-32 trailer disagrees with the recomputed one.
    ImageCrcMismatch,
    /// A Vendor-Info payload whose declared string lengths do not match it.
    MalformedVendorInfo,
    /// A GPIO-Map payload of the wrong length.
    WrongPayloadLength,
    /// Vendor-Info or GPIO-Map bank 0 is absent from a parsed image.
    MissingMandatoryAtom,
    /// A singleton atom type appears twice.
    DuplicateAtom,
    /// Records out of their fixed wire order, or a wrong ordinal index.
    OutOfOrderAtom,
    /// A fixed-capacity buffer is too small for the serialized image.
    BufferTooSmall,
}

} // verus!
