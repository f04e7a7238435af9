use cooliris::decode::{decode, helper_args, start_decode, Answer, Need, Step};
use cooliris::images::Pixels;
use cooliris::media::Source;
use image::{Rgba, RgbaImage};
use std::io::Cursor;
use std::path::PathBuf;

fn png() -> Vec<u8> {
    let mut out = Cursor::new(Vec::new());
    RgbaImage::from_pixel(2, 3, Rgba([9, 8, 7, 255]))
        .write_to(&mut out, image::ImageFormat::Png)
        .unwrap();
    out.into_inner()
}

fn drawn(len: usize) -> Answer {
    Answer::Drawn(Pixels { rgba: vec![1; len], w: 1, h: 1 })
}

fn failed() -> Answer {
    Answer::Printed { success: false, output: Vec::new() }
}

#[test]
fn every_kind_starts_its_own_way() {
    assert_eq!(start_decode(&Source::File(PathBuf::from("a.SVG"))), Need::Drawing);
    assert_eq!(start_decode(&Source::File(PathBuf::from("a.png"))), Need::Bytes);
    assert_eq!(start_decode(&Source::Video(PathBuf::from("a.mp4"))), Need::Poster(0));
    assert_eq!(start_decode(&Source::Audio(PathBuf::from("a.mp3"))), Need::Cover);
    assert_eq!(start_decode(&Source::Placeholder(20)), Need::Sample(2));
}

#[test]
fn image_files_are_decoded() {
    let s = Source::File(PathBuf::from("a.png"));
    match decode(&s, false, Need::Bytes, Answer::Read(Some(png()))) {
        Step::Done { pixels, badge } => {
            assert_eq!((pixels.w, pixels.h, badge), (2, 3, false));
            assert_eq!(&pixels.rgba[0..4], &[9, 8, 7, 255]);
        }
        Step::Need(n) => panic!("{n:?}"),
    }
    match decode(&s, false, Need::Bytes, Answer::Read(None)) {
        Step::Done { pixels, .. } => assert!(pixels.rgba.is_empty()),
        Step::Need(n) => panic!("{n:?}"),
    }
}

#[test]
fn pictures_of_files_fit_their_target() {
    let mut large = Cursor::new(Vec::new());
    RgbaImage::from_pixel(1000, 3000, Rgba([1, 2, 3, 255]))
        .write_to(&mut large, image::ImageFormat::Png)
        .unwrap();
    let bytes = large.into_inner();
    let s = Source::File(PathBuf::from("a.png"));
    for (full, w, h) in [(false, 171, 512), (true, 683, 2048)] {
        match decode(&s, full, Need::Bytes, Answer::Read(Some(bytes.clone()))) {
            Step::Done { pixels, .. } => {
                assert_eq!((pixels.w, pixels.h), (w, h));
                assert_eq!(pixels.rgba.len(), (w * h * 4) as usize);
            }
            Step::Need(n) => panic!("{n:?}"),
        }
    }
}

#[test]
fn videos_try_three_times_and_fall_back_to_a_tile() {
    let s = Source::Video(PathBuf::from("a.mp4"));
    assert!(matches!(decode(&s, false, Need::Poster(0), failed()), Step::Need(Need::Poster(1))));
    assert!(matches!(decode(&s, false, Need::Poster(1), failed()), Step::Need(Need::Poster(2))));
    match decode(&s, false, Need::Poster(2), failed()) {
        Step::Done { pixels, badge } => {
            assert_eq!((pixels.w, pixels.h, badge), (512, 512, false));
            assert_eq!(&pixels.rgba[0..4], &[20, 22, 28, 255]);
        }
        Step::Need(n) => panic!("{n:?}"),
    }
    let good = || Answer::Printed { success: true, output: png() };
    assert!(matches!(decode(&s, false, Need::Poster(0), good()), Step::Done { badge: true, .. }));
    assert!(matches!(decode(&s, true, Need::Poster(0), good()), Step::Done { badge: false, .. }));
}

#[test]
fn music_falls_back_to_a_note() {
    let s = Source::Audio(PathBuf::from("a.mp3"));
    match decode(&s, true, Need::Cover, failed()) {
        Step::Done { pixels, badge } => {
            assert_eq!((pixels.w, pixels.h, badge), (512, 512, false));
            assert_eq!(&pixels.rgba[0..4], &[26, 24, 34, 255]);
        }
        Step::Need(n) => panic!("{n:?}"),
    }
    let good = Answer::Printed { success: true, output: png() };
    match decode(&s, true, Need::Cover, good) {
        Step::Done { pixels, .. } => assert_eq!((pixels.w, pixels.h), (2, 3)),
        Step::Need(n) => panic!("{n:?}"),
    }
}

#[test]
fn samples_fall_back_to_a_gradient() {
    let s = Source::Placeholder(20);
    assert!(matches!(decode(&s, false, Need::Sample(2), drawn(4)), Step::Done { .. }));
    let empty = Answer::Drawn(Pixels { rgba: Vec::new(), w: 0, h: 0 });
    assert!(matches!(decode(&s, false, Need::Sample(2), empty), Step::Need(Need::Gradient(20))));
    assert!(matches!(decode(&s, false, Need::Gradient(20), drawn(4)), Step::Done { .. }));
    let d = Source::File(PathBuf::from("a.svg"));
    assert!(matches!(decode(&d, true, Need::Drawing, drawn(4)), Step::Done { badge: false, .. }));
}

#[test]
fn helpers_get_the_size_they_are_needed_for() {
    let wall = helper_args(Need::Poster(0), false).unwrap();
    assert_eq!(wall.before[4], "1");
    assert_eq!(wall.after[5], "scale=512:512:force_original_aspect_ratio=decrease");
    let full = helper_args(Need::Cover, true).unwrap();
    assert_eq!(full.after[3], "scale=2048:2048:force_original_aspect_ratio=decrease");
    assert!(helper_args(Need::Bytes, true).is_none());
    assert!(helper_args(Need::Poster(3), true).is_none());
}
