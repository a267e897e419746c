use std::io::{Read, Seek, SeekFrom};
use image_core::format::ImageFormat;
use image_core::sniff::{sniff_begin, sniff_step, SniffAction, SniffEvent, SniffState, SNIFF_LEN};

#[test]
fn sniff_restores_position() {
    let (s, a) = sniff_begin();
    assert_eq!(a, SniffAction::ReportPosition);
    let (s, a) = sniff_step(s, SniffEvent::Position(42));
    assert_eq!(a, SniffAction::ReadUpTo(SNIFF_LEN));
    let (s, a) = sniff_step(s, SniffEvent::Bytes(b"BM\x36\0\0\0".to_vec()));
    assert_eq!(a, SniffAction::SeekTo(42));
    let (s, a) = sniff_step(s, SniffEvent::Seeked(42));
    assert_eq!(s, SniffState::Done { guess: Some(ImageFormat::Bmp) });
    assert_eq!(a, SniffAction::Finish(Some(ImageFormat::Bmp)));
}

#[test]
fn sniff_without_match_finishes_with_none() {
    let (s, _) = sniff_begin();
    let (s, _) = sniff_step(s, SniffEvent::Position(0));
    let (s, _) = sniff_step(s, SniffEvent::Bytes(vec![1, 2, 3]));
    let (s, a) = sniff_step(s, SniffEvent::Seeked(0));
    assert_eq!(s, SniffState::Done { guess: None });
    assert_eq!(a, SniffAction::Finish(None));
}

#[test]
fn sniff_failures_poison() {
    let (s, _) = sniff_begin();
    let (s, _) = sniff_step(s, SniffEvent::Position(7));
    let (s, _) = sniff_step(s, SniffEvent::Bytes(b"qoif".to_vec()));
    let (s2, a) = sniff_step(s, SniffEvent::Seeked(8));
    assert_eq!((s2, a), (SniffState::Poisoned, SniffAction::Abort));
    let (s3, a) = sniff_step(s, SniffEvent::Failed);
    assert_eq!((s3, a), (SniffState::Poisoned, SniffAction::Abort));
    let (s4, a) = sniff_step(SniffState::Reading { at: 0 }, SniffEvent::Bytes(vec![0; 17]));
    assert_eq!((s4, a), (SniffState::Poisoned, SniffAction::Abort));
    let (s5, a) = sniff_step(SniffState::Poisoned, SniffEvent::Position(0));
    assert_eq!((s5, a), (SniffState::Poisoned, SniffAction::Abort));
}

fn sniff_cursor(c: &mut std::io::Cursor<Vec<u8>>) -> Option<ImageFormat> {
    let (mut state, mut action) = sniff_begin();
    loop {
        let event = match action {
            SniffAction::ReportPosition => SniffEvent::Position(c.seek(SeekFrom::Current(0)).unwrap()),
            SniffAction::ReadUpTo(n) => {
                let mut buf = Vec::new();
                c.by_ref().take(n as u64).read_to_end(&mut buf).unwrap();
                SniffEvent::Bytes(buf)
            }
            SniffAction::SeekTo(p) => SniffEvent::Seeked(c.seek(SeekFrom::Start(p)).unwrap()),
            SniffAction::Finish(g) => return g,
            SniffAction::Abort => panic!("source failed"),
        };
        let (s, a) = sniff_step(state, event);
        state = s;
        action = a;
    }
}

#[test]
fn sniff_twice_keeps_stream_position() {
    let mut data = b"xyz".to_vec();
    data.extend_from_slice(b"\x89PNG\r\n\x1a\n\0\0\0\rIHDR\0\0\0\x01");
    let mut c = std::io::Cursor::new(data.clone());
    c.set_position(3);
    let first = sniff_cursor(&mut c);
    assert_eq!(c.position(), 3);
    let second = sniff_cursor(&mut c);
    assert_eq!(c.position(), 3);
    assert_eq!(first, Some(ImageFormat::Png));
    assert_eq!(second, first);
    assert_eq!(c.into_inner(), data);
}
