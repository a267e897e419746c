use image_core::error::{ImageError, LimitErrorKind};
use image_core::limits::{Limits, DEFAULT_MAX_ALLOC};
use image_core::utils::{check_dimension_overflow, clamp};

#[test]
fn default_limits_bound_allocation_only() {
    let l = Limits::default();
    assert_eq!(l.max_alloc, Some(DEFAULT_MAX_ALLOC));
    assert_eq!(l.max_image_width, None);
    assert_eq!(l.max_image_height, None);
    assert_eq!(Limits::new(), l);
}

#[test]
fn alloc_check_at_the_ceiling() {
    let l = Limits { max_image_width: None, max_image_height: None, max_alloc: Some(1200) };
    assert_eq!(l.check_alloc(20, 20, 3), Ok(()));
    assert_eq!(l.check_alloc(20, 20, 2), Ok(()));
    assert_eq!(
        l.check_alloc(20, 20, 4),
        Err(ImageError::Limits(LimitErrorKind::InsufficientMemory))
    );
    assert_eq!(
        l.check_alloc(1201, 1, 1),
        Err(ImageError::Limits(LimitErrorKind::InsufficientMemory))
    );
}

#[test]
fn alloc_check_does_not_overflow() {
    let l = Limits::default();
    assert_eq!(
        l.check_alloc(u32::MAX, u32::MAX, 255),
        Err(ImageError::Limits(LimitErrorKind::InsufficientMemory))
    );
    assert_eq!(l.check_alloc(65536, 65536, 0), Ok(()));
    assert_eq!(l.check_alloc(8192, 8192, 8), Ok(()));
    assert_eq!(
        l.check_alloc(8192, 8193, 8),
        Err(ImageError::Limits(LimitErrorKind::InsufficientMemory))
    );
    assert_eq!(Limits::no_limits().check_alloc(u32::MAX, u32::MAX, 255), Ok(()));
}

#[test]
fn dimension_check() {
    let l = Limits { max_image_width: Some(100), max_image_height: Some(50), max_alloc: None };
    assert_eq!(l.check_dimensions(100, 50), Ok(()));
    assert_eq!(
        l.check_dimensions(101, 50),
        Err(ImageError::Limits(LimitErrorKind::DimensionError))
    );
    assert_eq!(
        l.check_dimensions(1, 51),
        Err(ImageError::Limits(LimitErrorKind::DimensionError))
    );
    assert_eq!(Limits::no_limits().check_dimensions(u32::MAX, u32::MAX), Ok(()));
}

#[test]
fn dimension_overflow() {
    assert!(!check_dimension_overflow(u32::MAX, u32::MAX, 1));
    assert!(check_dimension_overflow(u32::MAX, u32::MAX, 2));
    assert!(!check_dimension_overflow(1 << 16, 1 << 16, 255));
    assert!(check_dimension_overflow(1 << 30, 1 << 30, 16));
    assert!(!check_dimension_overflow(1 << 30, 1 << 30, 15));
    assert!(!check_dimension_overflow(u32::MAX, u32::MAX, 0));
}

#[test]
fn clamp_values() {
    assert_eq!(clamp(5, 0, 10), 5);
    assert_eq!(clamp(-3, 0, 10), 0);
    assert_eq!(clamp(12, 0, 10), 10);
    assert_eq!(clamp(0, 0, 0), 0);
}
