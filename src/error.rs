//! The ways in which decoding can fail.
use vstd::prelude::*;

verus! {

/// Every failure of the decoder. All of them are fatal for the datastream
/// being decoded.
#[derive(Debug, Clone, Copy, PartialEq, Eq, Structural)]
pub enum PngError {
    /// The eight leading bytes are not the PNG signature.
    BadSignature,
    /// The source ended in the middle of a record.
    UnexpectedEnd,
    /// A chunk declares a length above 2^31 - 1.
    ChunkTooLong,
    /// A chunk type holds a byte that is not an ASCII letter.
    InvalidChunkKind,
    /// A chunk of a kind that is not allowed where it stands.
    UnexpectedChunk,
    /// A chunk's stored CRC does not match its contents.
    CrcMismatch,
    /// The header chunk is not exactly 13 bytes long.
    BadHeader,
    /// The image has a width or a height of zero.
    EmptyImage,
    /// The color type byte names no color type.
    UnknownColorType,
    /// The bit depth is not allowed for the color type.
    InvalidBitDepth,
    /// The compression method is not 0.
    BadCompressionMethod,
    /// The filter method is not 0.
    BadFilterMethod,
    /// The interlace method is neither 0 nor 1.
    BadInterlaceMethod,
    /// A scanline starts with an unknown filter type.
    BadFilterType,
    /// The palette chunk is malformed or missing for an indexed image.
    BadPalette,
    /// A sample of an indexed image points past the end of the palette.
    BadPaletteIndex,
    /// The compressed image data is malformed or too short.
    Decompression,
    /// The image or one of its rows is too large to be held in memory.
    TooLarge,
}

/// The four classes of failure a caller can tell apart.
#[derive(Debug, Clone, Copy, PartialEq, Eq, Structural)]
pub enum ErrorClass {
    /// Malformed framing: signature, lengths, chunk kinds, truncation.
    Framing,
    /// A checksum mismatch.
    Integrity,
    /// An image profile outside the supported baseline.
    Profile,
    /// The compressed stream could not be inflated.
    Decompression,
}

impl PngError {
    pub open spec fn class_spec(self) -> ErrorClass {
        match self {
            PngError::CrcMismatch => ErrorClass::Integrity,
            PngError::Decompression => ErrorClass::Decompression,
            PngError::UnknownColorType | PngError::InvalidBitDepth | PngError::BadCompressionMethod
            | PngError::BadFilterMethod | PngError::BadInterlaceMethod | PngError::BadFilterType
            | PngError::EmptyImage => ErrorClass::Profile,
            _ => ErrorClass::Framing,
        }
    }

    /// Which class of failure this is.
    pub fn class(&self) -> (r: ErrorClass)
        ensures
            r == self.class_spec(),
    {
        match self {
            PngError::CrcMismatch => ErrorClass::Integrity,
            PngError::Decompression => ErrorClass::Decompression,
            PngError::UnknownColorType | PngError::InvalidBitDepth | PngError::BadCompressionMethod
            | PngError::BadFilterMethod | PngError::BadInterlaceMethod | PngError::BadFilterType
            | PngError::EmptyImage => ErrorClass::Profile,
            _ => ErrorClass::Framing,
        }
    }
}

} // verus!
