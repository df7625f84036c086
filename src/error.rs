use vstd::prelude::*;

verus! {

/// Every way in which reading or interpreting a PNG stream can fail.
#[derive(Debug, Clone, Copy, PartialEq, Eq, Structural)]
pub enum InvalidPNGFormat {
    /// The first eight bytes are not the PNG signature, or there are fewer than eight.
    InvalidSignature,
    /// The stream ended in the middle of a chunk, or after some chunks but
    /// before an `IEND` chunk.
    TruncatedStream,
    /// Nothing follows the signature, or the chunk stream reached `IEND`
    /// without an `IHDR` chunk.
    MissingHeaderChunk,
    /// A header decode was asked of a chunk whose type is not `IHDR`.
    NotAHeaderChunk,
    /// A chunk's payload is shorter than its decoder needs.
    TruncatedPayload,
    /// The header gives a width or a height of zero.
    InvalidDimensions,
    /// The header's bit depth is not 1, 2, 4, 8 or 16.
    InvalidBitDepth,
    /// The header's color type is not 0, 2, 3, 4 or 6.
    InvalidColorType,
    /// The header's bit depth is not allowed for its color type.
    IncompatibleBitDepthForColorType,
    /// The header's compression method is not 0.
    UnsupportedCompressionMethod,
    /// The header's filter method is not 0.
    UnsupportedFilterMethod,
    /// The header's interlace method is neither 0 nor 1.
    UnsupportedInterlaceMethod,
    /// Writing a document to its destination failed.
    WriteFailure,
}

} // verus!
