use image_core::error::{ImageError, ImageFormatHint};
use image_core::format::ImageFormat;
use image_core::limits::Limits;
use image_core::reader::AsyncReader;

#[test]
fn new_reader_has_no_format() {
    let r = AsyncReader::new(vec![1u8, 2, 3]);
    assert_eq!(r.format(), None);
    assert_eq!(r.current_limits(), Limits::default());
    assert_eq!(r.into_inner(), vec![1u8, 2, 3]);
}

#[test]
fn format_transitions() {
    let mut r = AsyncReader::with_format(0u8, ImageFormat::Gif);
    assert_eq!(r.format(), Some(ImageFormat::Gif));
    r.set_format(ImageFormat::Png);
    assert_eq!(r.format(), Some(ImageFormat::Png));
    r.clear_format();
    assert_eq!(r.format(), None);
    r.no_limits();
    assert_eq!(r.current_limits(), Limits::no_limits());
    let l = Limits { max_image_width: Some(3), max_image_height: None, max_alloc: Some(9) };
    r.limits(l);
    assert_eq!(r.current_limits(), l);
}

#[test]
fn guess_replaces_format_on_match_only() {
    let r = AsyncReader::with_format((), ImageFormat::Tga);
    let r = r.with_guessed_format(b"not an image");
    assert_eq!(r.format(), Some(ImageFormat::Tga));
    let r = r.with_guessed_format(b"\x89PNG\r\n\x1a\n\0\0\0\rIHDR");
    assert_eq!(r.format(), Some(ImageFormat::Png));
}

#[test]
fn guess_twice_gives_same_format() {
    let start: &[u8] = b"GIF89a\x01\0\x01\0";
    let r = AsyncReader::new(()).with_guessed_format(start);
    let first = r.format();
    let r = r.with_guessed_format(start);
    assert_eq!(first, Some(ImageFormat::Gif));
    assert_eq!(r.format(), first);
}

#[test]
fn terminal_operations_without_format_fail() {
    let unknown = ImageError::Unsupported(ImageFormatHint::Unknown);
    assert_eq!(AsyncReader::new(5u8).decode().err(), Some(unknown));
    assert_eq!(AsyncReader::new(5u8).into_dimensions().err(), Some(unknown));
    assert_eq!(AsyncReader::new(5u8).require_format(), Err(unknown));
}

#[test]
fn terminal_operations_hand_over_source() {
    let mut r = AsyncReader::with_format(vec![9u8], ImageFormat::Bmp);
    r.no_limits();
    let d = r.decode().ok().unwrap();
    assert_eq!(d.source, vec![9u8]);
    assert_eq!(d.format, ImageFormat::Bmp);
    assert_eq!(d.limits, Limits::no_limits());
    let d = AsyncReader::with_format(7u8, ImageFormat::Hdr).into_dimensions().ok().unwrap();
    assert_eq!(d.source, 7u8);
    assert_eq!(d.format, ImageFormat::Hdr);
    assert_eq!(d.limits, Limits::default());
}
