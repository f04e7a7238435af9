use cooliris::images::{
    decode_file, decode_target, failed_decode, fit_image, fit_pixels, printed_image, Pixels,
};
use image::{DynamicImage, Rgba, RgbaImage};
use std::io::Cursor;
use std::path::PathBuf;

fn png(img: &RgbaImage) -> Vec<u8> {
    let mut out = Cursor::new(Vec::new());
    img.write_to(&mut out, image::ImageFormat::Png).unwrap();
    out.into_inner()
}

fn chequered(w: u32, h: u32) -> RgbaImage {
    RgbaImage::from_fn(w, h, |x, y| Rgba([x as u8, y as u8, (x ^ y) as u8, 255]))
}

#[test]
fn small_images_keep_their_pixels() {
    let img = chequered(7, 5);
    let p = decode_file(&png(&img), &PathBuf::from("x.png"), false);
    assert_eq!((p.w, p.h), (7, 5));
    assert_eq!(p.rgba, img.into_raw());
}

#[test]
fn mislabelled_files_are_decoded_by_content() {
    let img = chequered(3, 3);
    let p = decode_file(&png(&img), &PathBuf::from("really_a_png.jpg"), false);
    assert_eq!(p.rgba, img.into_raw());
}

#[test]
fn large_images_fit_their_target() {
    let img = chequered(1024, 256);
    let thumb = decode_file(&png(&img), &PathBuf::from("x.png"), false);
    assert_eq!((thumb.w, thumb.h), (512, 128));
    assert_eq!(thumb.rgba.len(), 512 * 128 * 4);
    let full = decode_file(&png(&img), &PathBuf::from("x.png"), true);
    assert_eq!((full.w, full.h), (1024, 256));
    assert_eq!(decode_target(false), 512);
    assert_eq!(decode_target(true), 2048);
}

#[test]
fn broken_files_have_no_pixels() {
    let p = decode_file(&b"not an image".to_vec(), &PathBuf::from("x.png"), false);
    assert_eq!((p.rgba.len(), p.w, p.h), (0, 0, 0));
    assert_eq!(failed_decode().rgba.len(), 0);
}

#[test]
fn images_scale_with_a_triangle_filter() {
    let img = DynamicImage::ImageRgba8(chequered(40, 20));
    let want = img.resize(10, 10, image::imageops::FilterType::Triangle).to_rgba8();
    let got = fit_image(img, 10);
    assert_eq!((got.w, got.h), (10, 5));
    assert_eq!(got.rgba, want.into_raw());
}

#[test]
fn helper_output_is_read_only_after_success() {
    let img = chequered(4, 2);
    let bytes = png(&img);
    let p = printed_image(true, &bytes).unwrap();
    assert_eq!((p.w, p.h), (4, 2));
    assert_eq!(p.rgba, img.into_raw());
    assert!(printed_image(false, &bytes).is_none());
    assert!(printed_image(true, &Vec::new()).is_none());
    assert!(printed_image(true, &b"garbage".to_vec()).is_none());
}

#[test]
fn pictures_are_scaled_down_and_never_up() {
    let small = Pixels { rgba: chequered(6, 6).into_raw(), w: 6, h: 6 };
    let kept = fit_pixels(small, 8);
    assert_eq!((kept.w, kept.h), (6, 6));
    assert_eq!(kept.rgba, chequered(6, 6).into_raw());
    let cut = fit_pixels(kept, 3);
    assert_eq!((cut.w, cut.h), (3, 3));
    let want = DynamicImage::ImageRgba8(chequered(6, 6))
        .resize(3, 3, image::imageops::FilterType::Triangle)
        .to_rgba8();
    assert_eq!(cut.rgba, want.into_raw());
}
