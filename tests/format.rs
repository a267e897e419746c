use image_core::format::{format_from_path, guess_format_from_bytes, ImageFormat};

#[test]
fn path_extensions_name_formats() {
    let cases: [(&str, ImageFormat); 21] = [
        ("a.avif", ImageFormat::Avif),
        ("a.jpg", ImageFormat::Jpeg),
        ("a.jpeg", ImageFormat::Jpeg),
        ("a.png", ImageFormat::Png),
        ("a.gif", ImageFormat::Gif),
        ("a.webp", ImageFormat::WebP),
        ("a.tif", ImageFormat::Tiff),
        ("a.tiff", ImageFormat::Tiff),
        ("a.tga", ImageFormat::Tga),
        ("a.dds", ImageFormat::Dds),
        ("a.bmp", ImageFormat::Bmp),
        ("a.ico", ImageFormat::Ico),
        ("a.hdr", ImageFormat::Hdr),
        ("a.exr", ImageFormat::OpenExr),
        ("a.pbm", ImageFormat::Pnm),
        ("a.pam", ImageFormat::Pnm),
        ("a.ppm", ImageFormat::Pnm),
        ("a.pgm", ImageFormat::Pnm),
        ("a.ff", ImageFormat::Farbfeld),
        ("a.farbfeld", ImageFormat::Farbfeld),
        ("a.qoi", ImageFormat::Qoi),
    ];
    for (path, format) in cases.iter() {
        assert_eq!(format_from_path(path), Some(*format), "{}", path);
    }
}

#[test]
fn path_extension_ignores_case() {
    assert_eq!(format_from_path("dir/Photo.JPG"), Some(ImageFormat::Jpeg));
    assert_eq!(format_from_path("x.PnG"), Some(ImageFormat::Png));
}

#[test]
fn path_without_known_extension() {
    assert_eq!(format_from_path("image"), None);
    assert_eq!(format_from_path("image.txt"), None);
    assert_eq!(format_from_path(".png"), None);
    assert_eq!(format_from_path("dir/.png"), None);
    assert_eq!(format_from_path("dir.png/image"), None);
    assert_eq!(format_from_path(""), None);
    assert_eq!(format_from_path("a.png.gz"), None);
}

#[test]
fn path_last_dot_decides() {
    assert_eq!(format_from_path("archive.tar.png"), Some(ImageFormat::Png));
    assert_eq!(format_from_path("../images/a.gif"), Some(ImageFormat::Gif));
}

#[test]
fn signatures_identify_formats() {
    let cases: [(&[u8], ImageFormat); 12] = [
        (b"\x89PNG\r\n\x1a\n\0\0\0\rIHDR", ImageFormat::Png),
        (&[0xff, 0xd8, 0xff, 0xe0, 0, 0x10, b'J', b'F'], ImageFormat::Jpeg),
        (b"GIF89a\x01\0\x01\0", ImageFormat::Gif),
        (b"GIF87a", ImageFormat::Gif),
        (b"RIFF\0\0\0\0WEBPVP8 ", ImageFormat::WebP),
        (b"MM\0*\0\0\0\x08", ImageFormat::Tiff),
        (b"II*\0\x08\0\0\0", ImageFormat::Tiff),
        (b"BM\x36\0\0\0", ImageFormat::Bmp),
        (b"P6\n1 1\n255\n", ImageFormat::Pnm),
        (b"farbfeld\0\0\0\x01", ImageFormat::Farbfeld),
        (b"\0\0\0 ftypavif\0\0\0\0", ImageFormat::Avif),
        (b"qoif\0\0\0\x01", ImageFormat::Qoi),
    ];
    for (bytes, format) in cases.iter() {
        assert_eq!(guess_format_from_bytes(bytes), Some(*format));
    }
    assert_eq!(guess_format_from_bytes(&[0, 0, 1, 0, 1, 0]), Some(ImageFormat::Ico));
    assert_eq!(guess_format_from_bytes(b"#?RADIANCE\n"), Some(ImageFormat::Hdr));
    assert_eq!(guess_format_from_bytes(&[0x76, 0x2f, 0x31, 0x01, 2, 0, 0, 0]), Some(ImageFormat::OpenExr));
    assert_eq!(guess_format_from_bytes(b"DDS \x7c\0\0\0"), Some(ImageFormat::Dds));
}

#[test]
fn short_or_partial_prefixes_are_not_guessed() {
    assert_eq!(guess_format_from_bytes(&[]), None);
    assert_eq!(guess_format_from_bytes(b"B"), None);
    assert_eq!(guess_format_from_bytes(&[0x89]), None);
    assert_eq!(guess_format_from_bytes(b"\x89PNG\r\n\x1a"), None);
    assert_eq!(guess_format_from_bytes(b"GIF8"), None);
    assert_eq!(guess_format_from_bytes(b"P8"), None);
}
