//! Small numeric helpers for decoders.

use vstd::prelude::*;

use crate::limits::lemma_product_above;

verus! {

/// Either of two kinds of byte source.
pub enum ReaderUnion<R, A> {
    Reader(R),
    AsyncRead(A),
}

/// Whether a buffer of `width * height * bytes_per_pixel` bytes is too large
/// to count in 64 bits.
pub fn check_dimension_overflow(width: u32, height: u32, bytes_per_pixel: u8) -> (r: bool)
    ensures
        r == (width * height * bytes_per_pixel > u64::MAX),
{
    if bytes_per_pixel == 0 {
        assert(width * height * 0 == 0);
        return false;
    }
    assert(width as int * height as int <= 0xffff_ffff * 0xffff_ffff) by (nonlinear_arith)
        requires
            width <= 0xffff_ffff,
            height <= 0xffff_ffff,
    ;
    proof {
        lemma_product_above(width * height, bytes_per_pixel as int, u64::MAX as int);
    }
    width as u64 * height as u64 > u64::MAX / bytes_per_pixel as u64
}

/// Returns `a` limited to the closed range `[min, max]`, testing the lower
/// bound first.
pub fn clamp(a: i64, min: i64, max: i64) -> (r: i64)
    ensures
        r == (if a < min { min } else if a > max { max } else { a }),
{
    if a < min {
        min
    } else if a > max {
        max
    } else {
        a
    }
}

} // verus!
