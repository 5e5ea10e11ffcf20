//! The error kinds shared by the codecs. Each variant carries the structured
//! values a caller needs to inspect the failure, never pre-formatted text.
use vstd::prelude::*;

verus! {

#[derive(Clone, Copy, Debug, PartialEq, Eq, Structural)]
pub enum Error {
    /// The fixed magic bytes at the start of a buffer are wrong.
    MalformedHeader,
    /// A container index entry points outside the buffer; `max` is the last
    /// valid byte index of the input.
    RecordOutOfBounds { offset: usize, length: usize, max: usize },
    /// A back-reference copy reaches further back than the bytes produced so
    /// far: only `have` bytes exist, the instruction wants distance `want`.
    CopySourceOutOfBounds { have: usize, want: usize },
    /// The decompressed output length disagrees with the declared header length.
    LengthMismatch { got: usize, want: usize },
    /// A read required by the current field or instruction would run past the
    /// end of the input buffer.
    TruncatedInput,
    /// The pixel buffer length does not match the given image dimensions.
    InvalidImageSize { width: usize, height: usize, len: usize },
    /// A raw 24-bit pixel buffer whose length is not a multiple of three.
    InvalidPixelData { len: usize },
    /// A game value that names no known pixel format.
    UnsupportedImageType { value: u32 },
    /// A string-table offset that points outside the buffer.
    OffsetOutOfBounds { offset: usize, max: usize },
}

} // verus!
