//! The error kinds that the library reports.

use vstd::prelude::*;

use crate::format::ImageFormat;

verus! {

/// What is known of the format that an error concerns.
#[derive(Clone, Copy, Debug, PartialEq, Eq, Structural)]
pub enum ImageFormatHint {
    Exact(ImageFormat),
    Unknown,
}

/// Which declared bound would be exceeded.
#[derive(Clone, Copy, Debug, PartialEq, Eq, Structural)]
pub enum LimitErrorKind {
    /// The width or height is above its maximum.
    DimensionError,
    /// The decoded buffer would be larger than the allocation ceiling.
    InsufficientMemory,
}

/// Every failure that a decode-related operation reports.
#[derive(Clone, Copy, Debug, PartialEq, Eq, Structural)]
pub enum ImageError {
    /// Reading from or seeking in the byte source failed. After such a failure
    /// during format guessing the source's position is unreliable.
    Source,
    /// No format was determined, or the format has no decoder.
    Unsupported(ImageFormatHint),
    /// A decoding limit would be exceeded.
    Limits(LimitErrorKind),
    /// The data is malformed for its format.
    Decoding(ImageFormatHint),
}

/// The error of a terminal operation on a reader with no format.
pub open spec fn unknown_format_error() -> ImageError {
    ImageError::Unsupported(ImageFormatHint::Unknown)
}

} // verus!
