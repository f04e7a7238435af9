//! Decoding images, and fitting them into their textures.

use crate::paths::path_bytes;
use image::imageops::FilterType;
use image::{DynamicImage, ImageReader, RgbaImage};
use std::io::Cursor;
use std::path::PathBuf;
use vstd::prelude::*;

verus! {

/// Size of a texture layer of the wall.
pub const TILE_PX: u32 = 512;

/// Size of the texture for the open item.
pub const FULL_PX: u32 = 2048;

/// `image::DynamicImage`, a decoded image in its own colour type. Nothing inside it is visible
/// here.
#[verifier::external_type_specification]
#[verifier::external_body]
pub struct ExDynamicImage(DynamicImage);

/// What an image holds: its colour type, its dimensions and its samples.
pub uninterp spec fn image_content(img: DynamicImage) -> Seq<u8>;

/// The content of the image that the bytes of a file decode to; `None` where they decode to none.
pub uninterp spec fn decoded(bytes: Seq<u8>, path: Seq<u8>) -> Option<Seq<u8>>;

/// The content of the image that bytes decode to by themselves; `None` where they decode to none.
pub uninterp spec fn loaded(bytes: Seq<u8>) -> Option<Seq<u8>>;

/// The width of an image.
pub uninterp spec fn width_of(content: Seq<u8>) -> u32;

/// The height of an image.
pub uninterp spec fn height_of(content: Seq<u8>) -> u32;

/// The pixels of an image: four bytes each, row by row.
pub uninterp spec fn rgba_of(content: Seq<u8>) -> Seq<u8>;

/// The content of an image scaled with a triangle filter to fit a width and a height.
pub uninterp spec fn scaled(content: Seq<u8>, w: u32, h: u32) -> Seq<u8>;

/// The content of an image made of pixels.
pub uninterp spec fn rgba_content(w: u32, h: u32, rgba: Seq<u8>) -> Seq<u8>;

/// The content of an optional image.
pub open spec fn image_view(img: Option<DynamicImage>) -> Option<Seq<u8>> {
    match img {
        Some(img) => Some(image_content(img)),
        None => None,
    }
}

/// `image::ImageReader` over the bytes of a file: the format comes from the bytes
/// (`with_guessed_format`) or else from the extension of the path, and `decode` does the rest.
/// The result is a function of bytes and path; the formats are left to the name. A decoded image
/// holds its pixels and nothing behind them.
#[verifier::external_body]
fn read_image(bytes: &Vec<u8>, path: &PathBuf) -> (img: Option<DynamicImage>)
    ensures
        image_view(img) == decoded(bytes@, path_bytes(*path)),
        img matches Some(img) ==> picture_of(image_content(img)).exact(),
{
    let mut reader = ImageReader::new(Cursor::new(bytes));
    if let Ok(format) = image::ImageFormat::from_path(path) {
        reader.set_format(format);
    }
    reader.with_guessed_format().ok()?.decode().ok()
}

/// `image::load_from_memory`. The result is a function of the bytes; the formats are left to the
/// name. A decoded image holds its pixels and nothing behind them.
#[verifier::external_body]
fn load_image(bytes: &Vec<u8>) -> (img: Option<DynamicImage>)
    ensures
        image_view(img) == loaded(bytes@),
        img matches Some(img) ==> picture_of(image_content(img)).exact(),
{
    image::load_from_memory(bytes).ok()
}

/// `DynamicImage::width`.
#[verifier::external_body]
fn image_width(img: &DynamicImage) -> (w: u32)
    ensures
        w == width_of(image_content(*img)),
{
    img.width()
}

/// `DynamicImage::height`.
#[verifier::external_body]
fn image_height(img: &DynamicImage) -> (h: u32)
    ensures
        h == height_of(image_content(*img)),
{
    img.height()
}

/// `DynamicImage::resize` with a triangle filter, of an image that is larger than its bounds: what
/// it makes fits them, fills one of them unless the image is empty, and holds its pixels and
/// nothing behind them. The samples are left to the name. Scaling down takes no more pixels than
/// the image has; scaling up could ask for more than any memory holds.
#[verifier::external_body]
fn scale_image(img: &DynamicImage, w: u32, h: u32) -> (small: DynamicImage)
    requires
        w > 0,
        h > 0,
        width_of(image_content(*img)) > w || height_of(image_content(*img)) > h,
    ensures
        image_content(small) == scaled(image_content(*img), w, h),
        picture_of(image_content(small)).exact(),
        1 <= width_of(image_content(small)) <= w,
        1 <= height_of(image_content(small)) <= h,
        width_of(image_content(*img)) > 0 && height_of(image_content(*img)) > 0 ==> width_of(
            image_content(small),
        ) == w || height_of(image_content(small)) == h,
{
    img.resize(w, h, FilterType::Triangle)
}

/// `DynamicImage::to_rgba8`: at least four bytes for each pixel. How colours convert is left to
/// the name.
#[verifier::external_body]
fn image_rgba(img: &DynamicImage) -> (rgba: Vec<u8>)
    ensures
        rgba@ == rgba_of(image_content(*img)),
        rgba@.len() >= width_of(image_content(*img)) * height_of(image_content(*img)) * 4,
{
    img.to_rgba8().into_raw()
}

/// `RgbaImage::from_raw`, as a `DynamicImage`: there must be four bytes for each pixel. The image
/// has these dimensions and these pixels.
#[verifier::external_body]
fn image_from_rgba(w: u32, h: u32, rgba: Vec<u8>) -> (img: Option<DynamicImage>)
    ensures
        img is Some <==> rgba@.len() >= w * h * 4,
        img matches Some(img) ==> image_content(img) == rgba_content(w, h, rgba@) && width_of(
            image_content(img),
        ) == w && height_of(image_content(img)) == h && rgba_of(image_content(img)) == rgba@,
{
    RgbaImage::from_raw(w, h, rgba).map(DynamicImage::ImageRgba8)
}

/// A decoded picture: four bytes per pixel, row by row. Without pixels where decoding failed.
pub struct Pixels {
    pub rgba: Vec<u8>,
    pub w: u32,
    pub h: u32,
}

/// What a picture shows.
#[verifier::ext_equal]
pub struct Picture {
    pub rgba: Seq<u8>,
    pub w: u32,
    pub h: u32,
}

impl View for Pixels {
    type V = Picture;

    open spec fn view(&self) -> Picture {
        Picture { rgba: self.rgba@, w: self.w, h: self.h }
    }
}

impl Picture {
    /// There are bytes for every pixel.
    pub open spec fn wf(self) -> bool {
        self.rgba.len() >= self.w * self.h * 4
    }

    /// There are bytes for every pixel, and no others.
    pub open spec fn exact(self) -> bool {
        self.rgba.len() == self.w * self.h * 4
    }
}

/// A failed decode.
pub open spec fn no_picture() -> Picture {
    Picture { rgba: seq![], w: 0, h: 0 }
}

/// The picture that an image's content shows.
pub open spec fn picture_of(content: Seq<u8>) -> Picture {
    Picture { rgba: rgba_of(content), w: width_of(content), h: height_of(content) }
}

/// An image that is too large for its target is scaled to fit; a small one is never enlarged.
pub open spec fn fitted(content: Seq<u8>, target: u32) -> Seq<u8> {
    if width_of(content) > target || height_of(content) > target {
        scaled(content, target, target)
    } else {
        content
    }
}

/// Scales an image down to its target, where it is larger.
pub fn fit_image(img: DynamicImage, target: u32) -> (small: Pixels)
    requires
        target > 0,
    ensures
        small@ == picture_of(fitted(image_content(img), target)),
        small@.wf(),
        picture_of(image_content(img)).exact() ==> small@.exact(),
        small.w <= target,
        small.h <= target,
        ({
            let w = width_of(image_content(img));
            let h = height_of(image_content(img));
            &&& w <= target && h <= target ==> small.w == w && small.h == h
            &&& (w > target || h > target) && w > 0 && h > 0 ==> small.w == target || small.h
                == target
        }),
{
    let fit = if image_width(&img) > target || image_height(&img) > target {
        scale_image(&img, target, target)
    } else {
        img
    };
    let rgba = image_rgba(&fit);
    let w: u32 = image_width(&fit);
    let h: u32 = image_height(&fit);
    Pixels { rgba, w, h }
}

/// The size that an item is decoded for.
pub open spec fn target_px(full: bool) -> u32 {
    if full {
        FULL_PX
    } else {
        TILE_PX
    }
}

/// The size that an item is decoded for: the lightbox, or the wall.
pub fn decode_target(full: bool) -> (px: u32)
    ensures
        px == target_px(full),
{
    if full {
        FULL_PX
    } else {
        TILE_PX
    }
}

/// The picture of an image file, fitted to its target.
pub open spec fn file_picture(bytes: Seq<u8>, path: Seq<u8>, full: bool) -> Picture {
    match decoded(bytes, path) {
        Some(content) => picture_of(fitted(content, target_px(full))),
        None => no_picture(),
    }
}

/// No pixels: the decode failed.
pub fn failed_decode() -> (p: Pixels)
    ensures
        p@ == no_picture(),
{
    let p = Pixels { rgba: Vec::new(), w: 0, h: 0 };
    assert(p@ =~= no_picture());
    p
}

/// Decodes an image file by its content, and fits it to its target.
pub fn decode_file(bytes: &Vec<u8>, path: &PathBuf, full: bool) -> (p: Pixels)
    ensures
        p@ == file_picture(bytes@, path_bytes(*path), full),
        p@.exact(),
        p.w <= target_px(full),
        p.h <= target_px(full),
        full ==> p.w <= 2048 && p.h <= 2048,
        !full ==> p.w <= 512 && p.h <= 512,
{
    match read_image(bytes, path) {
        Some(img) => fit_image(img, decode_target(full)),
        None => failed_decode(),
    }
}

/// The picture that a helper program printed; `None` where it failed, printed nothing, or printed
/// no image.
pub open spec fn printed_picture(success: bool, output: Seq<u8>) -> Option<Picture> {
    if !success || output.len() == 0 {
        None
    } else {
        match loaded(output) {
            Some(content) => Some(picture_of(content)),
            None => None,
        }
    }
}

/// What an optional picture shows.
pub open spec fn pixels_view(p: Option<Pixels>) -> Option<Picture> {
    match p {
        Some(p) => Some(p@),
        None => None,
    }
}

/// Reads the picture that a helper program printed.
pub fn printed_image(success: bool, output: &Vec<u8>) -> (p: Option<Pixels>)
    ensures
        pixels_view(p) == printed_picture(success, output@),
        p matches Some(p) ==> p@.exact(),
{
    if !success || output.len() == 0 {
        return None;
    }
    match load_image(output) {
        Some(img) => {
            let rgba = image_rgba(&img);
            let w: u32 = image_width(&img);
            let h: u32 = image_height(&img);
            Some(Pixels { rgba, w, h })
        },
        None => None,
    }
}

/// A picture fitted to a target: scaled where it is larger.
pub open spec fn fitted_picture(p: Picture, target: u32) -> Picture {
    if p.w > target || p.h > target {
        picture_of(scaled(rgba_content(p.w, p.h, p.rgba), target, target))
    } else {
        p
    }
}

/// Scales a picture down to its target, where it is larger.
pub fn fit_pixels(p: Pixels, target: u32) -> (small: Pixels)
    requires
        target > 0,
        p@.wf(),
    ensures
        small@ == fitted_picture(p@, target),
        small@.wf(),
        p@.exact() ==> small@.exact(),
        small.w <= target,
        small.h <= target,
        p.w <= target && p.h <= target ==> small@ == p@,
        (p.w > target || p.h > target) && p.w > 0 && p.h > 0 ==> small.w == target || small.h
            == target,
{
    if p.w > target || p.h > target {
        match image_from_rgba(p.w, p.h, p.rgba) {
            Some(img) => fit_image(img, target),
            None => failed_decode(),
        }
    } else {
        p
    }
}

} // verus!
