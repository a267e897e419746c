//! The reader state machine: a byte source, an optional format and a limits
//! policy, ended by one terminal operation.

use vstd::prelude::*;

use crate::error::{unknown_format_error, ImageError, ImageFormatHint};
use crate::format::{guess_format_from_bytes, guessed_format, ImageFormat};
use crate::limits::{default_limits, Limits};

verus! {

/// The format after a guess from the leading bytes `start`: the guessed one
/// where a signature matched, else the current one.
pub open spec fn format_after_guess(current: Option<ImageFormat>, start: Seq<u8>) -> Option<
    ImageFormat,
> {
    match guessed_format(start) {
        Some(f) => Some(f),
        None => current,
    }
}

/// Guessing twice from the same leading bytes gives the format of the
/// first guess.
pub proof fn lemma_guess_idempotent(current: Option<ImageFormat>, start: Seq<u8>)
    ensures
        format_after_guess(format_after_guess(current, start), start) == format_after_guess(
            current,
            start,
        ),
{
}

/// What a per-format decoder is built from: the source, its format and the
/// limits that it must respect.
pub struct DecoderInput<R> {
    pub source: R,
    pub format: ImageFormat,
    pub limits: Limits,
}

/// A reader of an image from a buffered byte source.
pub struct AsyncReader<R> {
    /// The source. Should be buffered.
    inner: R,
    /// The format, if one has been set or deduced.
    format: Option<ImageFormat>,
    /// Decoding limits.
    limits: Limits,
}

impl<R> AsyncReader<R> {
    /// The source held.
    pub closed spec fn source(&self) -> R {
        self.inner
    }

    /// The format, if determined.
    pub closed spec fn spec_format(&self) -> Option<ImageFormat> {
        self.format
    }

    /// The limits in force.
    pub closed spec fn spec_limits(&self) -> Limits {
        self.limits
    }

    /// A reader with no format and the default limits.
    pub fn new(buffered_reader: R) -> (r: Self)
        ensures
            r.source() == buffered_reader,
            r.spec_format() is None,
            r.spec_limits() == default_limits(),
    {
        AsyncReader { inner: buffered_reader, format: None, limits: Limits::new() }
    }

    /// A reader of a known format, with the default limits.
    pub fn with_format(buffered_reader: R, format: ImageFormat) -> (r: Self)
        ensures
            r.source() == buffered_reader,
            r.spec_format() == Some(format),
            r.spec_limits() == default_limits(),
    {
        AsyncReader { inner: buffered_reader, format: Some(format), limits: Limits::new() }
    }

    /// The format determined so far.
    pub fn format(&self) -> (r: Option<ImageFormat>)
        ensures
            r == self.spec_format(),
    {
        self.format
    }

    /// The limits in force.
    pub fn current_limits(&self) -> (r: Limits)
        ensures
            r == self.spec_limits(),
    {
        self.limits
    }

    /// Sets the format as which the image is read.
    pub fn set_format(&mut self, format: ImageFormat)
        ensures
            final(self).spec_format() == Some(format),
            final(self).source() == old(self).source(),
            final(self).spec_limits() == old(self).spec_limits(),
    {
        self.format = Some(format);
    }

    /// Forgets the format.
    pub fn clear_format(&mut self)
        ensures
            final(self).spec_format() is None,
            final(self).source() == old(self).source(),
            final(self).spec_limits() == old(self).spec_limits(),
    {
        self.format = None;
    }

    /// Disables every decoding limit.
    pub fn no_limits(&mut self)
        ensures
            final(self).spec_limits() == Limits::no_limits_spec(),
            final(self).spec_format() == old(self).spec_format(),
            final(self).source() == old(self).source(),
    {
        self.limits = Limits::no_limits();
    }

    /// Replaces the decoding limits.
    pub fn limits(&mut self, limits: Limits)
        ensures
            final(self).spec_limits() == limits,
            final(self).spec_format() == old(self).spec_format(),
            final(self).source() == old(self).source(),
    {
        self.limits = limits;
    }

    /// Gives the source back without decoding.
    pub fn into_inner(self) -> (r: R)
        ensures
            r == self.source(),
    {
        self.inner
    }

    /// Takes a guess from the first bytes of the source, `start` (at most
    /// sixteen of them, read from the current position, which the caller then
    /// restores). The format is replaced where a signature matched and kept
    /// otherwise.
    pub fn with_guessed_format(self, start: &[u8]) -> (r: Self)
        ensures
            r.spec_format() == format_after_guess(self.spec_format(), start@),
            r.source() == self.source(),
            r.spec_limits() == self.spec_limits(),
    {
        let mut reader = self;
        match guess_format_from_bytes(start) {
            Some(f) => {
                reader.format = Some(f);
            },
            None => {},
        }
        reader
    }

    /// The determined format, or an unsupported-format error with an unknown
    /// hint.
    pub fn require_format(&self) -> (r: Result<ImageFormat, ImageError>)
        ensures
            match self.spec_format() {
                Some(f) => r == Ok::<ImageFormat, ImageError>(f),
                None => r == Err::<ImageFormat, ImageError>(unknown_format_error()),
            },
    {
        match self.format {
            Some(f) => Ok(f),
            None => Err(ImageError::Unsupported(ImageFormatHint::Unknown)),
        }
    }

    /// Ends the reader to read the image dimensions: hands the source, the
    /// format and the limits to the format's decoder. Fails where no format
    /// is determined; the reader is consumed either way.
    pub fn into_dimensions(self) -> (r: Result<DecoderInput<R>, ImageError>)
        ensures
            self.spec_format() is None <==> r is Err,
            r matches Err(e) ==> e == unknown_format_error(),
            r matches Ok(d) ==> self.spec_format() == Some(d.format) && d.source == self.source()
                && d.limits == self.spec_limits(),
    {
        self.into_decoder_input()
    }

    /// Ends the reader to decode the image: hands the source, the format and
    /// the limits to the format's decoder. Fails where no format is
    /// determined; the reader is consumed either way.
    pub fn decode(self) -> (r: Result<DecoderInput<R>, ImageError>)
        ensures
            self.spec_format() is None <==> r is Err,
            r matches Err(e) ==> e == unknown_format_error(),
            r matches Ok(d) ==> self.spec_format() == Some(d.format) && d.source == self.source()
                && d.limits == self.spec_limits(),
    {
        self.into_decoder_input()
    }

    fn into_decoder_input(self) -> (r: Result<DecoderInput<R>, ImageError>)
        ensures
            self.spec_format() is None <==> r is Err,
            r matches Err(e) ==> e == unknown_format_error(),
            r matches Ok(d) ==> self.spec_format() == Some(d.format) && d.source == self.source()
                && d.limits == self.spec_limits(),
    {
        match self.require_format() {
            Ok(format) => Ok(DecoderInput { source: self.inner, format, limits: self.limits }),
            Err(e) => Err(e),
        }
    }
}

} // verus!
