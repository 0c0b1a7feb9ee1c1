use breezy_cosmic::capture::{
    find_helper, helper_candidates, CaptureError, CapturedFrame, InitAction, PixelFormat,
    ScreenCapture, ShmReader, HEADER_SIZE, MAGIC,
};
use breezy_cosmic::pixels::{push_as_rgba, write_exchanged};

fn region(width: u32, height: u32, stride: u32, format: u32, seq: u32, pixels: &[u8]) -> Vec<u8> {
    let mut r = Vec::new();
    for n in [MAGIC, width, height, stride, format, seq] {
        r.extend_from_slice(&n.to_le_bytes());
    }
    r.extend_from_slice(&0x0102030405060708u64.to_le_bytes());
    assert_eq!(r.len(), HEADER_SIZE);
    r.extend_from_slice(pixels);
    r
}

fn ready(region: &[u8]) -> ScreenCapture {
    let mut c = ScreenCapture::new("eDP-1", 4, 3, "monitor");
    assert_eq!(c.init(0, Some(region), false), InitAction::Ready);
    c
}

fn frame_of(region: &[u8]) -> Result<CapturedFrame, CaptureError> {
    ready(region).capture_frame(region)
}

#[test]
fn the_magic_number_is_written_in_letters() {
    assert_eq!(MAGIC.to_be_bytes(), *b"BCAP");
}

#[test]
fn formats() {
    assert_eq!(PixelFormat::from_code(0), PixelFormat::Xrgb8888);
    assert_eq!(PixelFormat::from_code(1), PixelFormat::Xbgr8888);
    assert_eq!(PixelFormat::from_code(2), PixelFormat::Argb8888);
    assert_eq!(PixelFormat::from_code(3), PixelFormat::Abgr8888);
    assert_eq!(PixelFormat::from_code(77), PixelFormat::Abgr8888);
    for code in 0..4 {
        assert_eq!(PixelFormat::from_code(code).bpp(), 4);
        assert_eq!(PixelFormat::from_code(code).needs_swizzle(), code % 2 == 0);
        assert_eq!(PixelFormat::from_code(code).has_opacity(), code >= 2);
    }
}

#[test]
fn a_capture_begins_detached() {
    let c = ScreenCapture::new("eDP-1", 1920, 1080, "window");
    assert_eq!(c.target_output, "eDP-1");
    assert_eq!((c.width, c.height), (1920, 1080));
    assert_eq!(c.source_type, "window");
    assert!(!c.attached);
    assert_eq!(c.last_seq, 0);
}

#[test]
fn the_header_is_read() {
    let r = region(1, 2, 4, 3, 9, &[1, 2, 3, 4, 5, 6, 7, 8, 99]);
    let reader = ShmReader { mmap: &r };
    assert_eq!(reader.magic(), MAGIC);
    assert_eq!(reader.width(), 1);
    assert_eq!(reader.height(), 2);
    assert_eq!(reader.stride(), 4);
    assert_eq!(reader.format_code(), 3);
    assert_eq!(reader.frame_seq(), 9);
    assert_eq!(reader.timestamp_ns(), 0x0102030405060708);
    assert_eq!(reader.pixel_data(), &[1, 2, 3, 4, 5, 6, 7, 8]);
    assert_eq!(ShmReader { mmap: &r[..31] }.magic(), 0);
    assert_eq!(ShmReader { mmap: &r[..39] }.pixel_data(), &[] as &[u8]);
    let huge = region(u32::MAX, u32::MAX, u32::MAX, 0, 1, &[]);
    assert_eq!(ShmReader { mmap: &huge }.pixel_data(), &[] as &[u8]);
}

#[test]
fn waiting_for_the_helper() {
    const LIMIT: u128 = 120_000_000_000;
    let good = region(1, 1, 4, 0, 1, &[0; 4]);
    let no_frame = region(1, 1, 4, 0, 0, &[0; 4]);
    let mut bad = good.clone();
    bad[0] = 0;
    let mut c = ScreenCapture::new("A", 1, 1, "monitor");
    assert_eq!(c.init(0, None, false), InitAction::Wait { millis: 200 });
    assert_eq!(c.init(LIMIT, None, false), InitAction::Wait { millis: 200 });
    assert_eq!(c.init(5, Some(&no_frame), false), InitAction::Wait { millis: 200 });
    assert_eq!(c.init(5, Some(&bad), false), InitAction::Wait { millis: 200 });
    assert_eq!(c.init(5, Some(&good[..20]), false), InitAction::Wait { millis: 200 });
    assert_eq!(c.init(5, Some(&bad), true), InitAction::FailExitedEarly);
    assert_eq!(c.init(LIMIT + 1, Some(&good), true), InitAction::FailExited);
    assert_eq!(c.init(LIMIT + 1, Some(&good), false), InitAction::FailTimeout);
    assert!(!c.attached);
    assert_eq!(c.init(LIMIT, Some(&good), true), InitAction::Ready);
    assert!(c.attached);
}

#[test]
fn frames_that_cannot_be_had() {
    let r = region(1, 1, 4, 0, 1, &[0; 4]);
    let mut c = ScreenCapture::new("A", 1, 1, "monitor");
    let e = c.capture_frame(&r).unwrap_err();
    assert_eq!(e, CaptureError::NotInitialized);
    assert_eq!(e.message(), "Capture not initialized");
    let mut c = ready(&r);
    let e = c.capture_frame(&r[1..]).unwrap_err();
    assert_eq!(e, CaptureError::InvalidMagic);
    assert_eq!(e.message(), "Capture SHM has invalid magic");
    assert_eq!(c.last_seq, 0);
    let e = c.capture_frame(&region(1, 2, 4, 0, 6, &[0; 7])).unwrap_err();
    assert_eq!(e, CaptureError::EmptyPixels);
    assert_eq!(e.message(), "Capture SHM pixel data is empty");
    assert_eq!(c.last_seq, 6);
}

#[test]
fn blue_and_red_change_places_and_gaps_disappear() {
    let r = region(1, 2, 6, 0, 1, &[1, 2, 3, 4, 90, 91, 5, 6, 7, 8, 92, 93]);
    let f = frame_of(&r).unwrap();
    assert_eq!(f.data, [3, 2, 1, 255, 7, 6, 5, 255]);
    assert_eq!((f.width, f.height, f.stride), (1, 2, 4));
    assert_eq!(f.format, PixelFormat::Abgr8888);
    assert_eq!(f.timestamp_ns, 0x0102030405060708);
    assert_eq!(f.data.len() as u32, f.height * f.stride);
}

#[test]
fn every_format_becomes_rgba_without_gaps() {
    let pixels = [1, 2, 3, 4, 90, 91, 5, 6, 7, 8, 92, 93];
    let expected = [
        (0, [3, 2, 1, 255, 7, 6, 5, 255]),
        (1, [1, 2, 3, 255, 5, 6, 7, 255]),
        (2, [3, 2, 1, 4, 7, 6, 5, 8]),
        (3, [1, 2, 3, 4, 5, 6, 7, 8]),
        (4, [1, 2, 3, 4, 5, 6, 7, 8]),
        (u32::MAX, [1, 2, 3, 4, 5, 6, 7, 8]),
    ];
    for (code, data) in expected {
        let f = frame_of(&region(1, 2, 6, code, 1, &pixels)).unwrap();
        assert_eq!(f.data, data, "format {}", code);
        assert_eq!((f.width, f.height, f.stride), (1, 2, 4));
        assert_eq!(f.format, PixelFormat::Abgr8888);
    }
}

#[test]
fn one_pixel_of_blue_green_red_and_opacity() {
    let f = frame_of(&region(1, 1, 4, 2, 1, &[10, 20, 30, 40])).unwrap();
    assert_eq!(f.data, [30, 20, 10, 40]);
    assert_eq!(f.format, PixelFormat::Abgr8888);
}

#[test]
fn pixels_of_an_unknown_format_keep_their_bytes() {
    let f = frame_of(&region(1, 1, 4, 7, 1, &[10, 20, 30, 40])).unwrap();
    assert_eq!(f.data, [10, 20, 30, 40]);
}

#[test]
fn rows_of_a_frame_stand_at_its_stride() {
    let (w, h, s) = (3usize, 4usize, 17usize);
    let pixels: Vec<u8> = (0..(h * s) as u8).collect();
    let f = frame_of(&region(w as u32, h as u32, s as u32, 3, 1, &pixels)).unwrap();
    assert_eq!(f.data.len(), h * f.stride as usize);
    for y in 0..h {
        for x in 0..w {
            let at = y * f.stride as usize + 4 * x;
            let from = y * s + 4 * x;
            assert_eq!(f.data[at..at + 4], pixels[from..from + 4]);
        }
    }
}

#[test]
fn rows_longer_than_the_stride_end_the_frame() {
    let pixels = [1, 2, 3, 4, 5, 6, 7, 8, 9, 10, 11, 12];
    let f = frame_of(&region(2, 3, 4, 0, 1, &pixels)).unwrap();
    assert_eq!(f.data, [3, 2, 1, 255, 7, 6, 5, 255, 7, 6, 5, 255, 11, 10, 9, 255]);
    let f = frame_of(&region(2, 3, 4, 3, 1, &pixels)).unwrap();
    assert_eq!(f.data, [1, 2, 3, 4, 5, 6, 7, 8, 5, 6, 7, 8, 9, 10, 11, 12]);
}

#[test]
fn a_tight_region_is_converted_as_one_row() {
    let pixels: Vec<u8> = (0..24).collect();
    for (code, swap, opaque) in
        [(0, true, true), (1, false, true), (2, true, false), (3, false, false)]
    {
        let f = frame_of(&region(3, 2, 12, code, 1, &pixels)).unwrap();
        let mut row = Vec::new();
        push_as_rgba(&mut row, &pixels, swap, opaque);
        assert_eq!(f.data, row);
    }
}

#[test]
fn the_same_region_gives_the_same_frame() {
    let r = region(1, 1, 4, 0, 8, &[1, 2, 3, 4]);
    let mut c = ready(&r);
    let a = c.capture_frame(&r).unwrap();
    let b = c.capture_frame(&r).unwrap();
    assert_eq!(a.data, b.data);
    assert_eq!(c.last_seq, 8);
}

#[test]
fn exchanging_red_and_blue_twice_changes_nothing() {
    let pixels = [1u8, 2, 3, 4, 5, 6, 7, 8];
    let mut once = [9u8; 9];
    write_exchanged(&mut once, &pixels, 2);
    assert_eq!(once, [3, 2, 1, 4, 7, 6, 5, 8, 9]);
    let mut twice = [0u8; 8];
    write_exchanged(&mut twice, &once, 2);
    assert_eq!(twice, pixels);
}

#[test]
fn where_the_helper_is() {
    let fixed: [&[u8]; 2] = [
        b"breezy_portal_capture.py",
        b"/home/bluekitty/Documents/Git/breezy-cosmic/breezy_portal_capture.py",
    ];
    assert_eq!(helper_candidates(None), fixed);
    for dir in ["/usr/bin", "/", "", "/opt/x/"] {
        let c = helper_candidates(Some(dir.as_bytes()));
        let beside = std::path::Path::new(dir).join("breezy_portal_capture.py");
        let above = std::path::Path::new(dir).join("../breezy_portal_capture.py");
        assert_eq!(c[0], beside.to_str().unwrap().as_bytes());
        assert_eq!(c[1], above.to_str().unwrap().as_bytes());
        assert_eq!(c[2..], fixed);
        assert_eq!(find_helper(&c, &vec![false, true, true, false]), Some(c[1].clone()));
        assert_eq!(find_helper(&c, &vec![false; 4]), None);
    }
    let c = helper_candidates(Some(b"/\xff"));
    assert_eq!(c[0], b"/\xff/breezy_portal_capture.py");
    assert_eq!(c[1], b"/\xff/../breezy_portal_capture.py");
}
