//! Resource bounds that a decoder consults before it allocates.

use vstd::prelude::*;
use vstd::arithmetic::div_mod::lemma_fundamental_div_mod;

use crate::error::{ImageError, LimitErrorKind};

verus! {

/// Allocation ceiling of the default policy: 512 MiB.
pub const DEFAULT_MAX_ALLOC: u64 = 536870912;

/// Bounds on the images that a decoder accepts. `None` disables a bound.
#[derive(Clone, Copy, Debug, PartialEq, Eq, Structural)]
pub struct Limits {
    /// Largest accepted image width.
    pub max_image_width: Option<u32>,
    /// Largest accepted image height.
    pub max_image_height: Option<u32>,
    /// Largest accepted decoded buffer, in bytes.
    pub max_alloc: Option<u64>,
}

/// The default policy: no bound on width or height, 512 MiB of decoded data.
pub open spec fn default_limits() -> Limits {
    Limits { max_image_width: None, max_image_height: None, max_alloc: Some(DEFAULT_MAX_ALLOC) }
}

impl Limits {
    /// The width or height is above its declared maximum.
    pub open spec fn exceeds_dimensions(self, width: u32, height: u32) -> bool {
        (self.max_image_width matches Some(w) && width > w) || (self.max_image_height matches Some(
            h,
        ) && height > h)
    }

    /// A buffer of `width * height * bytes_per_pixel` bytes, computed without
    /// overflow, is above the declared allocation ceiling.
    pub open spec fn exceeds_alloc(self, width: u32, height: u32, bytes_per_pixel: u8) -> bool {
        self.max_alloc matches Some(m) && width * height * bytes_per_pixel > m
    }

    /// The default policy.
    pub fn new() -> (r: Limits)
        ensures
            r == default_limits(),
    {
        Limits { max_image_width: None, max_image_height: None, max_alloc: Some(DEFAULT_MAX_ALLOC) }
    }

    /// The policy without bounds.
    pub open spec fn no_limits_spec() -> Limits {
        Limits { max_image_width: None, max_image_height: None, max_alloc: None }
    }

    /// A policy that disables every bound. Only ever chosen explicitly.
    pub fn no_limits() -> (r: Limits)
        ensures
            r == Limits::no_limits_spec(),
    {
        Limits { max_image_width: None, max_image_height: None, max_alloc: None }
    }

    /// Fails with a dimension error exactly when the width or the height is
    /// above its maximum.
    pub fn check_dimensions(&self, width: u32, height: u32) -> (r: Result<(), ImageError>)
        ensures
            r is Err <==> self.exceeds_dimensions(width, height),
            r matches Err(e) ==> e == ImageError::Limits(LimitErrorKind::DimensionError),
    {
        if let Some(w) = self.max_image_width {
            if width > w {
                return Err(ImageError::Limits(LimitErrorKind::DimensionError));
            }
        }
        if let Some(h) = self.max_image_height {
            if height > h {
                return Err(ImageError::Limits(LimitErrorKind::DimensionError));
            }
        }
        Ok(())
    }

    /// Fails with an out-of-memory error exactly when a buffer of
    /// `width * height * bytes_per_pixel` bytes is above the allocation
    /// ceiling. A buffer of exactly the ceiling is accepted.
    pub fn check_alloc(&self, width: u32, height: u32, bytes_per_pixel: u8) -> (r: Result<(), ImageError>)
        ensures
            r is Err <==> self.exceeds_alloc(width, height, bytes_per_pixel),
            r matches Err(e) ==> e == ImageError::Limits(LimitErrorKind::InsufficientMemory),
    {
        match self.max_alloc {
            None => Ok(()),
            Some(m) => {
                if bytes_per_pixel == 0 {
                    return Ok(());
                }
                assert(width as int * height as int <= 0xffff_ffff * 0xffff_ffff) by (nonlinear_arith)
                    requires
                        width <= 0xffff_ffff,
                        height <= 0xffff_ffff,
                ;
                let area: u64 = width as u64 * height as u64;
                let per_pixel: u64 = bytes_per_pixel as u64;
                let room: u64 = m / per_pixel;
                proof {
                    lemma_product_above(area as int, per_pixel as int, m as int);
                }
                if area > room {
                    Err(ImageError::Limits(LimitErrorKind::InsufficientMemory))
                } else {
                    Ok(())
                }
            },
        }
    }
}

impl Default for Limits {
    fn default() -> (r: Limits)
        ensures
            r == default_limits(),
    {
        Limits::new()
    }
}

/// For a positive `b`, `a * b` exceeds `m` exactly when `a` exceeds `m / b`.
pub proof fn lemma_product_above(a: int, b: int, m: int)
    requires
        a >= 0,
        b > 0,
        m >= 0,
    ensures
        (a * b > m) <==> (a > m / b),
{
    lemma_fundamental_div_mod(m, b);
    let q = m / b;
    let r = m % b;
    if a > q {
        assert(a * b >= (q + 1) * b) by (nonlinear_arith)
            requires
                a >= q + 1,
                b > 0,
        ;
        assert(a * b > m) by (nonlinear_arith)
            requires
                a * b >= (q + 1) * b,
                m == b * q + r,
                r < b,
        ;
    } else {
        assert(a * b <= q * b) by (nonlinear_arith)
            requires
                a <= q,
                b > 0,
        ;
        assert(a * b <= m) by (nonlinear_arith)
            requires
                a * b <= q * b,
                m == b * q + r,
                r >= 0,
        ;
    }
}

} // verus!
