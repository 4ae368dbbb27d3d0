//! The errors of the codec.

use vstd::prelude::*;

verus! {

/// Why an image could not be encoded.
#[derive(Debug, Clone, Copy, PartialEq, Eq, Structural)]
pub enum EncodeError {
    /// The width or the height is zero.
    EmptyImage,
    /// The width or the height does not fit the 16 bits of the frame header, or
    /// the pixel data is not `width * height * 3` bytes.
    InvalidDimensions,
    /// The image has more MCUs than a bit string of this machine has room for.
    TooLarge,
}

/// Why a byte sequence could not be decoded.
#[derive(Debug, Clone, Copy, PartialEq, Eq, Structural)]
pub enum DecodeError {
    /// The bytes ended before a structure was complete.
    TruncatedInput,
    /// A marker was expected and something else was found, or a marker came in
    /// a place where the order of segments does not allow it.
    BadMarker,
    /// The file uses something outside the baseline profile that is supported.
    UnsupportedFeature,
    /// A segment's length is below 2 or does not agree with the segment's body.
    BadLength,
    /// Sixteen bits were read from the scan without matching a codeword.
    HuffmanDecodeFail,
    /// A block's coefficients ran past its 64 places.
    ScanOverflow,
    /// A component names a quantization table that no segment defined.
    QuantizationTableMissing,
    /// A component names a Huffman table that no segment defined.
    HuffmanTableMissing,
}

} // verus!
