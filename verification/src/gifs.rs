//! Animated GIFs: their frames and delays, and the atlas that a wall tile animates from.

use crate::gif_laws::{delays_are_kept, is_shown_for};
use crate::images::{fit_pixels, fitted_picture, Picture, Pixels, TILE_PX};
use image::codecs::gif::GifDecoder;
use image::{AnimationDecoder, Frames};
use std::io::Cursor;
use vstd::prelude::*;

verus! {

/// Size at which frames are decoded before the grid of their atlas is known.
pub const WALL_GIF_PROV: u32 = 128;

/// Frames of an atlas at most: a grid of sixteen by sixteen.
pub const WALL_GIF_FRAMES: usize = 256;

/// Frames of an open GIF at most.
pub const FULL_GIF_FRAMES: usize = 400;

/// The longest that a frame shows, in nanoseconds.
pub const MAX_DELAY: u64 = 4_294_967_295_000_000;

/// `image::Frames`, the frames of an animation that are yet to be read. Nothing inside it is
/// visible here.
#[verifier::external_type_specification]
#[verifier::external_body]
pub struct ExFrames<'a>(Frames<'a>);

/// `image::Frame`, one frame of an animation, which `Frames` yields. Nothing inside it is visible
/// here.
#[verifier::external_type_specification]
#[verifier::external_body]
pub struct ExFrame(image::Frame);

/// `image::ImageError`, which `Frames` yields where a frame cannot be read. Nothing inside it is
/// visible here.
#[verifier::external_type_specification]
#[verifier::external_body]
pub struct ExImageError(image::ImageError);

/// A frame as it is read: how long it shows, as a fraction of a millisecond count, and its
/// picture.
pub struct RawFrame {
    pub numer: u32,
    pub denom: u32,
    pub pixels: Pixels,
}

/// What a frame says: numerator and denominator of its delay, width, height and pixels.
pub open spec fn raw_view(f: RawFrame) -> (u32, u32, u32, u32, Seq<u8>) {
    (f.numer, f.denom, f.pixels.w, f.pixels.h, f.pixels.rgba@)
}

/// The frames that are yet to be read, up to the first that cannot be read.
pub uninterp spec fn frames_left(frames: Frames<'static>) -> Seq<(u32, u32, u32, u32, Seq<u8>)>;

/// The frames of a GIF file, up to the first that cannot be read; `None` where it is no GIF.
pub uninterp spec fn gif_frames(bytes: Seq<u8>) -> Option<Seq<(u32, u32, u32, u32, Seq<u8>)>>;

/// `GifDecoder::new` over the bytes of a file, and `into_frames`. The frames are a function of the
/// bytes; how they are coded is left to the name.
#[verifier::external_body]
fn open_gif(bytes: Vec<u8>) -> (frames: Option<Frames<'static>>)
    ensures
        match frames {
            Some(frames) => gif_frames(bytes@) == Some(frames_left(frames)),
            None => gif_frames(bytes@) is None,
        },
{
    GifDecoder::new(Cursor::new(bytes)).ok().map(|gif| gif.into_frames())
}

/// `Frames::next`: the next frame, where there is one that can be read. A frame has four bytes for
/// each pixel.
#[verifier::external_body]
fn next_frame(frames: &mut Frames<'static>) -> (frame: Option<RawFrame>)
    ensures
        match frame {
            Some(f) => frames_left(*old(frames)).len() > 0 && raw_view(f) == frames_left(
                *old(frames),
            )[0] && frames_left(*final(frames)) == frames_left(*old(frames)).drop_first()
                && f.pixels@.wf(),
            None => frames_left(*old(frames)).len() == 0,
        },
{
    let frame = frames.next()?.ok()?;
    let (numer, denom) = frame.delay().numer_denom_ms();
    let buffer = frame.into_buffer();
    let (w, h) = (buffer.width(), buffer.height());
    Some(RawFrame { numer, denom, pixels: Pixels { rgba: buffer.into_raw(), w, h } })
}

/// One frame of an open GIF, and for how many nanoseconds it shows.
pub struct GifFrame {
    pub pixels: Pixels,
    pub delay: u64,
}

/// How long a frame shows, in nanoseconds. A delay below twenty milliseconds stands for the
/// default of a tenth of a second.
pub open spec fn delay_ns(numer: u32, denom: u32) -> int {
    let d = if denom == 0 {
        1
    } else {
        denom as int
    };
    if numer < 20 * d {
        100_000_000
    } else {
        numer * 1_000_000 / d
    }
}

/// How long a frame shows, in nanoseconds.
pub fn frame_delay(numer: u32, denom: u32) -> (ns: u64)
    ensures
        ns == delay_ns(numer, denom),
        20_000_000 <= ns <= MAX_DELAY,
        is_shown_for(numer, denom, ns as int),
{
    proof {
        delays_are_kept(numer, denom);
    }
    let d: u64 = if denom == 0 {
        1
    } else {
        denom as u64
    };
    if (numer as u64) < 20 * d {
        100_000_000
    } else {
        assert(numer * 1_000_000 / d as int >= 20_000_000) by (nonlinear_arith)
            requires
                numer >= 20 * d,
                d >= 1,
        ;
        assert(numer * 1_000_000 / d as int <= MAX_DELAY) by (nonlinear_arith)
            requires
                d >= 1,
                numer <= 0xffff_ffff,
        ;
        numer as u64 * 1_000_000 / d
    }
}

/// The picture of a frame.
pub open spec fn raw_picture(f: (u32, u32, u32, u32, Seq<u8>)) -> Picture {
    Picture { rgba: f.4, w: f.2, h: f.3 }
}

/// The first frames of a GIF file, at most `max` of them.
pub open spec fn first_frames(bytes: Seq<u8>, max: nat) -> Seq<(u32, u32, u32, u32, Seq<u8>)> {
    match gif_frames(bytes) {
        Some(all) => if all.len() > max {
            all.take(max as int)
        } else {
            all
        },
        None => seq![],
    }
}

/// What a decoded frame says: its picture and its delay.
pub open spec fn frame_view(f: GifFrame) -> (Picture, int) {
    (f.pixels@, f.delay as int)
}

/// What decoded frames say.
pub open spec fn frames_view(frames: Seq<GifFrame>) -> Seq<(Picture, int)> {
    frames.map_values(|f: GifFrame| frame_view(f))
}

/// A frame fitted to a target.
pub open spec fn fitted_frame(f: (u32, u32, u32, u32, Seq<u8>), target: u32) -> (Picture, int) {
    (fitted_picture(raw_picture(f), target), delay_ns(f.0, f.1))
}

/// The first frames of a GIF, fitted to a target.
pub open spec fn gif_pictures(bytes: Seq<u8>, target: u32, max: nat) -> Seq<(Picture, int)> {
    first_frames(bytes, max).map_values(
        |f: (u32, u32, u32, u32, Seq<u8>)| fitted_frame(f, target),
    )
}

/// Every frame shows for a while, has bytes for its pixels, and fits the target.
pub open spec fn usable(frames: Seq<GifFrame>, target: u32) -> bool {
    forall|k: int|
        0 <= k < frames.len() ==> 20_000_000 <= (#[trigger] frames[k]).delay <= MAX_DELAY
            && frames[k].pixels@.wf() && frames[k].pixels.w <= target && frames[k].pixels.h
            <= target
}

/// Decodes the frames of a GIF, at most `max` of them, and fits them to a target. Frames are read
/// and fitted one at a time. Without frames where decoding failed.
pub fn decode_gif(bytes: Vec<u8>, target: u32, max: usize) -> (frames: Vec<GifFrame>)
    requires
        target > 0,
        max > 0,
    ensures
        frames_view(frames@) == gif_pictures(bytes@, target, max as nat),
        frames.len() <= max,
        usable(frames@, target),
{
    let ghost want = gif_pictures(bytes@, target, max as nat);
    let mut out: Vec<GifFrame> = Vec::new();
    assert(frames_view(out@) =~= seq![]);
    let mut left = match open_gif(bytes) {
        Some(left) => left,
        None => {
            assert(frames_view(out@) =~= want);
            return out;
        },
    };
    let ghost all = frames_left(left);
    assert(all.skip(0) =~= all);
    assert(frames_view(out@) =~= want.take(0));
    while out.len() < max
        invariant
            target > 0,
            gif_frames(bytes@) == Some(all),
            want == gif_pictures(bytes@, target, max as nat),
            out.len() <= max,
            out.len() <= all.len(),
            usable(out@, target),
            frames_left(left) == all.skip(out.len() as int),
            frames_view(out@) == want.take(out.len() as int),
        decreases max - out.len(),
    {
        match next_frame(&mut left) {
            Some(raw) => {
                let ghost n = out.len() as int;
                let ghost view = raw_view(raw);
                assert(view == all[n]);
                let delay: u64 = frame_delay(raw.numer, raw.denom);
                let ghost before = frames_view(out@);
                let pixels = fit_pixels(raw.pixels, target);
                let frame = GifFrame { pixels, delay };
                let ghost shown = frame_view(frame);
                out.push(frame);
                proof {
                    assert(frames_view(out@) =~= before.push(shown));
                    assert(first_frames(bytes@, max as nat)[n] == view);
                    assert(raw_picture(view) =~= raw.pixels@);
                    assert(want[n] == shown);
                    assert(frames_view(out@) =~= want.take(n + 1));
                    assert(all.skip(n).drop_first() =~= all.skip(n + 1));
                }
            },
            None => {
                assert(all.len() == out.len());
                assert(want.take(out.len() as int) =~= want);
                return out;
            },
        }
    }
    assert(want.take(out.len() as int) =~= want);
    out
}

/// The column of the pixel that byte `i` of a picture of width `aw` belongs to.
pub open spec fn px_of(i: int, aw: int) -> int {
    i / 4 % aw
}

/// The row of the pixel that byte `i` of a picture of width `aw` belongs to.
pub open spec fn py_of(i: int, aw: int) -> int {
    i / 4 / aw
}

/// Whether byte `i` lies under a picture that is put at column `ox` and row `oy`.
pub open spec fn covers(aw: int, p: Picture, ox: int, oy: int, i: int) -> bool {
    ox <= px_of(i, aw) < ox + p.w && oy <= py_of(i, aw) < oy + p.h
}

/// The byte of the picture that goes to byte `i`.
pub open spec fn source_byte(aw: int, p: Picture, ox: int, oy: int, i: int) -> u8 {
    p.rgba[((py_of(i, aw) - oy) * p.w + (px_of(i, aw) - ox)) * 4 + i % 4]
}

/// A buffer of width `aw` with a picture put at column `ox` and row `oy`.
pub open spec fn blitted(dst: Seq<u8>, aw: int, p: Picture, ox: int, oy: int) -> Seq<u8> {
    Seq::new(
        dst.len(),
        |i: int|
            if covers(aw, p, ox, oy, i) {
                source_byte(aw, p, ox, oy, i)
            } else {
                dst[i]
            },
    )
}

/// Whether a pixel comes before column `x` of row `y`.
spec fn comes_before(aw: int, ox: int, oy: int, i: int, y: int, x: int) -> bool {
    py_of(i, aw) - oy < y || py_of(i, aw) - oy == y && px_of(i, aw) - ox < x
}

/// A buffer with the pixels of a picture before column `x` of row `y`.
spec fn part_blitted(
    dst: Seq<u8>,
    aw: int,
    p: Picture,
    ox: int,
    oy: int,
    y: int,
    x: int,
) -> Seq<u8> {
    Seq::new(
        dst.len(),
        |i: int|
            if covers(aw, p, ox, oy, i) && comes_before(aw, ox, oy, i, y, x) {
                source_byte(aw, p, ox, oy, i)
            } else {
                dst[i]
            },
    )
}

/// The bytes of one pixel, and no others, belong to its column and row.
proof fn lemma_pixel(aw: int, x: int, y: int, i: int)
    requires
        0 <= x < aw,
        0 <= y,
        0 <= i,
    ensures
        px_of(i, aw) == x && py_of(i, aw) == y <==> (y * aw + x) * 4 <= i < (y * aw + x) * 4 + 4,
        0 <= px_of(i, aw) < aw,
        0 <= py_of(i, aw),
{
    let q = i / 4;
    vstd::arithmetic::div_mod::lemma_fundamental_div_mod(q, aw);
    vstd::arithmetic::div_mod::lemma_mod_bound(q, aw);
    vstd::arithmetic::div_mod::lemma_div_pos_is_pos(q, aw);
    assert(aw * (q / aw) == (q / aw) * aw) by (nonlinear_arith);
    if (y * aw + x) * 4 <= i < (y * aw + x) * 4 + 4 {
        assert(q == y * aw + x);
        vstd::arithmetic::div_mod::lemma_fundamental_div_mod_converse(q, aw, y, x);
    }
}

/// The pixels of a row lie within the buffer.
proof fn lemma_in_buffer(aw: int, w: int, h: int, ox: int, oy: int, x: int, y: int)
    requires
        0 <= ox,
        0 <= oy,
        0 <= x < w,
        0 <= y < h,
        ox + w <= aw,
    ensures
        0 <= ((oy + y) * aw + ox + x) * 4,
        ((oy + y) * aw + ox + x) * 4 + 4 <= (oy + h) * aw * 4,
        0 <= (y * w + x) * 4,
        (y * w + x) * 4 + 4 <= w * h * 4,
{
    assert((oy + y) * aw + ox + x + 1 <= (oy + h) * aw) by (nonlinear_arith)
        requires
            0 <= x < w,
            0 <= y < h,
            ox + w <= aw,
            0 <= ox,
            0 <= oy,
    ;
    assert(0 <= (oy + y) * aw) by (nonlinear_arith)
        requires
            0 <= oy,
            0 <= y,
            0 <= aw,
    ;
    assert(y * w + x + 1 <= w * h) by (nonlinear_arith)
        requires
            0 <= x < w,
            0 <= y < h,
    ;
    assert(0 <= y * w) by (nonlinear_arith)
        requires
            0 <= y,
            0 <= w,
    ;
}

/// Copies a picture into a buffer of width `aw`, to column `ox` and row `oy`.
pub fn blit_into(dst: &mut Vec<u8>, aw: u32, img: &Pixels, ox: u32, oy: u32)
    requires
        img@.wf(),
        ox + img.w <= aw,
        (oy + img.h) * aw * 4 <= old(dst).len(),
    ensures
        final(dst)@ == blitted(old(dst)@, aw as int, img@, ox as int, oy as int),
{
    let ghost before = dst@;
    let ghost p = img@;
    let (w, h): (u32, u32) = (img.w, img.h);
    let mut y: u32 = 0;
    assert(dst@ =~= part_blitted(before, aw as int, p, ox as int, oy as int, 0, 0));
    while y < h
        invariant
            p == img@,
            p.wf(),
            w == img.w,
            h == img.h,
            y <= h,
            ox + w <= aw,
            (oy + h) * aw * 4 <= before.len(),
            dst@.len() == before.len(),
            dst@ == part_blitted(before, aw as int, p, ox as int, oy as int, y as int, 0),
        decreases h - y,
    {
        let mut x: u32 = 0;
        while x < w
            invariant
                p == img@,
                p.wf(),
                w == img.w,
                h == img.h,
                y < h,
                x <= w,
                ox + w <= aw,
                (oy + h) * aw * 4 <= before.len(),
                dst@.len() == before.len(),
                dst@ == part_blitted(
                    before,
                    aw as int,
                    p,
                    ox as int,
                    oy as int,
                    y as int,
                    x as int,
                ),
            decreases w - x,
        {
            proof {
                lemma_in_buffer(
                    aw as int,
                    w as int,
                    h as int,
                    ox as int,
                    oy as int,
                    x as int,
                    y as int,
                );
            }
            let ghost old_dst = dst@;
            let len: usize = dst.len();
            assert(oy + y <= (oy + y) * aw) by (nonlinear_arith)
                requires
                    aw >= 1,
                    oy + y >= 0,
            ;
            let row: usize = oy as usize + y as usize;
            let d: usize = (row * aw as usize + ox as usize + x as usize) * 4;
            let s_len: usize = img.rgba.len();
            let s: usize = (y as usize * w as usize + x as usize) * 4;
            dst.set(d, img.rgba[s]);
            dst.set(d + 1, img.rgba[s + 1]);
            dst.set(d + 2, img.rgba[s + 2]);
            dst.set(d + 3, img.rgba[s + 3]);
            proof {
                let next = part_blitted(
                    before,
                    aw as int,
                    p,
                    ox as int,
                    oy as int,
                    y as int,
                    x + 1,
                );
                assert forall|i: int| 0 <= i < dst@.len() implies #[trigger] dst@[i] == next[i] by {
                    lemma_pixel(aw as int, ox + x, oy + y, i);
                    let here = px_of(i, aw as int) == ox + x && py_of(i, aw as int) == oy + y;
                    if here {
                        assert(i % 4 == i - d) by {
                            assert(d % 4 == 0);
                        }
                        assert((py_of(i, aw as int) - oy) * p.w == y * w);
                        assert(source_byte(aw as int, p, ox as int, oy as int, i) == p.rgba[s + (i
                            - d)]);
                    } else {
                        assert(dst@[i] == old_dst[i]);
                    }
                }
                assert(dst@ =~= next);
            }
            x = x + 1;
        }
        proof {
            let next = part_blitted(before, aw as int, p, ox as int, oy as int, y + 1, 0);
            assert forall|i: int| 0 <= i < dst@.len() implies #[trigger] dst@[i] == next[i] by {
                if covers(aw as int, p, ox as int, oy as int, i) {
                    assert(comes_before(aw as int, ox as int, oy as int, i, y as int, w as int)
                        == comes_before(aw as int, ox as int, oy as int, i, y + 1, 0));
                }
            }
            assert(dst@ =~= next);
        }
        y = y + 1;
    }
    assert(dst@ =~= blitted(before, aw as int, p, ox as int, oy as int));
}

/// A GIF packed into one texture layer: a grid of cells with a frame in each.
pub struct GifAtlas {
    pub rgba: Vec<u8>,
    /// Cells per row and per column.
    pub grid: u32,
    /// Size of a cell.
    pub cell: u32,
    /// Size of the first frame in its cell.
    pub fw: u32,
    pub fh: u32,
    /// For how many nanoseconds each frame shows.
    pub delays: Vec<u64>,
    /// The length of the loop, in nanoseconds.
    pub total: u64,
}

/// The smallest grid with room for `count` cells.
pub open spec fn is_grid(count: int, grid: int) -> bool {
    grid >= 1 && count <= grid * grid && (grid - 1) * (grid - 1) < count
}

/// The smallest grid with room for `count` cells.
pub fn grid_for(count: usize) -> (grid: u32)
    requires
        0 < count <= WALL_GIF_FRAMES,
    ensures
        is_grid(count as int, grid as int),
        grid <= 16,
{
    let mut grid: u32 = 1;
    while (grid * grid) as usize != count && ((grid * grid) as usize) < count
        invariant
            0 < count <= 256,
            1 <= grid <= 16,
            (grid - 1) * (grid - 1) < count,
            grid * grid <= 256,
        decreases 16 - grid,
    {
        assert(grid * grid < 256);
        assert(grid < 16) by {
            if grid == 16 {
                assert(grid * grid == 256) by (nonlinear_arith)
                    requires
                        grid == 16,
                ;
            }
        }
        assert((grid + 1) * (grid + 1) <= 256) by (nonlinear_arith)
            requires
                1 <= grid < 16,
        ;
        grid = grid + 1;
    }
    grid
}

/// The size of a cell.
pub open spec fn cell_of(grid: int) -> int {
    512int / grid
}

/// The column at which the cell of frame `k` starts.
pub open spec fn cell_x(k: int, grid: int) -> int {
    k % grid * cell_of(grid)
}

/// The row at which the cell of frame `k` starts.
pub open spec fn cell_y(k: int, grid: int) -> int {
    k / grid * cell_of(grid)
}

/// The atlas with its first `n` frames, each fitted to its cell; nothing else is painted.
pub open spec fn atlas_rgba(pictures: Seq<Picture>, grid: int, n: nat) -> Seq<u8>
    decreases n,
{
    if n == 0 {
        Seq::new(1_048_576, |i: int| 0u8)
    } else {
        blitted(
            atlas_rgba(pictures, grid, (n - 1) as nat),
            512,
            fitted_picture(pictures[n - 1], cell_of(grid) as u32),
            cell_x(n - 1, grid),
            cell_y(n - 1, grid),
        )
    }
}

/// Nanoseconds that the first frames show together.
pub open spec fn sum_delays(delays: Seq<u64>) -> int
    decreases delays.len(),
{
    if delays.len() == 0 {
        0
    } else {
        sum_delays(delays.drop_last()) + delays.last()
    }
}

/// The pictures of frames.
pub open spec fn pictures(frames: Seq<(Picture, int)>) -> Seq<Picture> {
    frames.map_values(|f: (Picture, int)| f.0)
}

/// The delays of frames.
pub open spec fn delays_of(frames: Seq<(Picture, int)>) -> Seq<int> {
    frames.map_values(|f: (Picture, int)| f.1)
}

/// Every frame, fitted to its cell, lies within it, and has bytes for its pixels.
pub open spec fn cells_fit(pictures: Seq<Picture>, grid: int, n: nat) -> bool {
    forall|k: int|
        0 <= k < n ==> {
            let p = fitted_picture(#[trigger] pictures[k], cell_of(grid) as u32);
            p.w <= cell_of(grid) && p.h <= cell_of(grid) && p.wf()
        }
}

/// `a` is the atlas of some frames.
pub open spec fn is_atlas(a: GifAtlas, frames: Seq<(Picture, int)>) -> bool {
    let first = fitted_picture(frames[0].0, cell_of(a.grid as int) as u32);
    &&& is_grid(frames.len() as int, a.grid as int)
    &&& a.cell == cell_of(a.grid as int)
    &&& a.rgba@ == atlas_rgba(pictures(frames), a.grid as int, frames.len())
    &&& a.fw == first.w
    &&& a.fh == first.h
    &&& a.delays@.map_values(|d: u64| d as int) == delays_of(frames)
    &&& a.total == sum_delays(a.delays@)
    &&& cells_fit(pictures(frames), a.grid as int, frames.len())
}

/// A frame's cell lies within the atlas.
proof fn lemma_cell_inside(k: int, grid: int, count: int)
    requires
        0 <= k < count <= 256,
        is_grid(count, grid),
        grid <= 16,
    ensures
        0 <= k % grid < grid,
        0 <= k / grid < grid,
        1 <= cell_of(grid) <= 512,
        0 <= cell_x(k, grid),
        cell_x(k, grid) + cell_of(grid) <= 512,
        0 <= cell_y(k, grid),
        cell_y(k, grid) + cell_of(grid) <= 512,
{
    let c = cell_of(grid);
    vstd::arithmetic::div_mod::lemma_fundamental_div_mod(k, grid);
    vstd::arithmetic::div_mod::lemma_mod_bound(k, grid);
    vstd::arithmetic::div_mod::lemma_div_pos_is_pos(k, grid);
    vstd::arithmetic::div_mod::lemma_fundamental_div_mod(512, grid);
    vstd::arithmetic::div_mod::lemma_mod_bound(512, grid);
    assert(k / grid < grid) by (nonlinear_arith)
        requires
            k == grid * (k / grid) + k % grid,
            0 <= k % grid,
            k < grid * grid,
            grid >= 1,
    ;
    assert(c >= 1 && grid * c <= 512) by (nonlinear_arith)
        requires
            512 == grid * c + 512int % grid,
            0 <= 512int % grid < grid,
            1 <= grid <= 16,
    ;
    assert(c <= 512) by (nonlinear_arith)
        requires
            grid * c <= 512,
            grid >= 1,
            c >= 1,
    ;
    assert(0 <= (k % grid) * c && (k % grid) * c + c <= 512) by (nonlinear_arith)
        requires
            0 <= k % grid < grid,
            grid * c <= 512,
            c >= 1,
    ;
    assert(0 <= (k / grid) * c && (k / grid) * c + c <= 512) by (nonlinear_arith)
        requires
            0 <= k / grid < grid,
            grid * c <= 512,
            c >= 1,
    ;
}

fn zeroed_layer() -> (rgba: Vec<u8>)
    ensures
        rgba@ == Seq::new(1_048_576, |i: int| 0u8),
{
    let mut rgba: Vec<u8> = Vec::new();
    let mut n: usize = 0;
    while n < 1_048_576
        invariant
            n <= 1_048_576,
            rgba@ == Seq::new(n as nat, |i: int| 0u8),
        decreases 1_048_576 - n,
    {
        rgba.push(0);
        n = n + 1;
        assert(rgba@ =~= Seq::new(n as nat, |i: int| 0u8));
    }
    rgba
}

/// Packs frames into an atlas: the grid comes from their count, and each frame is fitted to its
/// cell.
pub fn pack_atlas(frames: Vec<GifFrame>) -> (atlas: GifAtlas)
    requires
        0 < frames.len() <= WALL_GIF_FRAMES,
        usable(frames@, WALL_GIF_PROV),
    ensures
        is_atlas(atlas, frames_view(frames@)),
        atlas.grid <= 16,
        atlas.delays.len() == frames.len(),
        atlas.total > 0,
{
    let count: usize = frames.len();
    let grid: u32 = grid_for(count);
    let cell: u32 = 512 / grid;
    let ghost shown = frames_view(frames@);
    let ghost pics = pictures(shown);
    let mut rgba = zeroed_layer();
    let mut delays: Vec<u64> = Vec::new();
    let mut total: u64 = 0;
    let mut fw: u32 = 0;
    let mut fh: u32 = 0;
    let mut k: u32 = 0;
    assert(cell == cell_of(grid as int));
    for f in iter: frames
        invariant
            iter.seq() == frames@,
            k == iter.index(),
            count == frames@.len(),
            0 < count <= 256,
            usable(frames@, WALL_GIF_PROV),
            shown == frames_view(frames@),
            pics == pictures(shown),
            is_grid(count as int, grid as int),
            1 <= grid <= 16,
            cell == cell_of(grid as int),
            rgba@ == atlas_rgba(pics, grid as int, k as nat),
            rgba@.len() == 1_048_576,
            delays.len() == k,
            forall|n: int| 0 <= n < k ==> #[trigger] delays@[n] == shown[n].1,
            total == sum_delays(delays@),
            total <= k * MAX_DELAY,
            k > 0 ==> total > 0,
            cells_fit(pics, grid as int, k as nat),
            k > 0 ==> fw == fitted_picture(shown[0].0, cell).w,
            k > 0 ==> fh == fitted_picture(shown[0].0, cell).h,
    {
        let ghost at = k as int;
        proof {
            lemma_cell_inside(at, grid as int, count as int);
            assert(f == frames@[at]);
            assert(shown[at] == frame_view(f));
            assert(pics[at] == f.pixels@);
        }
        let delay: u64 = f.delay;
        let img = fit_pixels(f.pixels, cell);
        if k == 0 {
            fw = img.w;
            fh = img.h;
        }
        let ox: u32 = (k % grid) * cell;
        let oy: u32 = (k / grid) * cell;
        assert((oy + img.h) * 512 * 4 <= 1_048_576);
        blit_into(&mut rgba, TILE_PX, &img, ox, oy);
        let ghost before = delays@;
        delays.push(delay);
        assert(delays@.drop_last() =~= before);
        total = total + delay;
        k = k + 1;
    }
    proof {
        assert(delays@.map_values(|d: u64| d as int) =~= delays_of(shown));
    }
    GifAtlas { rgba, grid, cell, fw, fh, delays, total }
}

/// Decodes a GIF and packs its frames for the wall; `None` where it has no frames.
pub fn decode_gif_atlas(bytes: Vec<u8>) -> (atlas: Option<GifAtlas>)
    ensures
        ({
            let frames = gif_pictures(bytes@, 128, 256);
            match atlas {
                Some(a) => frames.len() > 0 && is_atlas(a, frames) && a.total > 0,
                None => frames.len() == 0,
            }
        }),
{
    let frames = decode_gif(bytes, WALL_GIF_PROV, WALL_GIF_FRAMES);
    assert(frames_view(frames@).len() == frames@.len());
    if frames.len() == 0 {
        None
    } else {
        Some(pack_atlas(frames))
    }
}

/// The byte of an atlas at channel `c` of the pixel at column `x` and row `y` of a frame's cell.
pub open spec fn atlas_byte(k: int, grid: int, x: int, y: int, c: int) -> int {
    ((cell_y(k, grid) + y) * 512 + cell_x(k, grid) + x) * 4 + c
}

/// Two cells of a grid do not overlap.
proof fn lemma_cells_apart(j: int, k: int, grid: int, count: int, x: int, y: int)
    requires
        0 <= j < count <= 256,
        0 <= k < count,
        j != k,
        is_grid(count, grid),
        grid <= 16,
        0 <= x < cell_of(grid),
        0 <= y < cell_of(grid),
    ensures
        !(cell_x(j, grid) <= cell_x(k, grid) + x < cell_x(j, grid) + cell_of(grid) && cell_y(
            j,
            grid,
        ) <= cell_y(k, grid) + y < cell_y(j, grid) + cell_of(grid)),
{
    let c = cell_of(grid);
    vstd::arithmetic::div_mod::lemma_fundamental_div_mod(j, grid);
    vstd::arithmetic::div_mod::lemma_fundamental_div_mod(k, grid);
    let (jx, jy, kx, ky) = (j % grid, j / grid, k % grid, k / grid);
    if jx == kx && jy == ky {
        assert(grid * jy == grid * ky);
    } else if jx < kx {
        assert(jx * c + c <= kx * c) by (nonlinear_arith)
            requires
                jx + 1 <= kx,
                c >= 0,
        ;
    } else if jx > kx {
        assert(kx * c + c <= jx * c) by (nonlinear_arith)
            requires
                kx + 1 <= jx,
                c >= 0,
        ;
    } else if jy < ky {
        assert(jy * c + c <= ky * c) by (nonlinear_arith)
            requires
                jy + 1 <= ky,
                c >= 0,
        ;
    } else {
        assert(ky * c + c <= jy * c) by (nonlinear_arith)
            requires
                ky + 1 <= jy,
                c >= 0,
        ;
    }
}

/// Every frame can be read back from its own cell of the atlas, pixel by pixel.
pub proof fn frames_read_back(
    pictures: Seq<Picture>,
    grid: int,
    n: nat,
    k: int,
    x: int,
    y: int,
    c: int,
)
    requires
        0 <= k < n <= pictures.len() <= 256,
        is_grid(pictures.len() as int, grid),
        grid <= 16,
        cells_fit(pictures, grid, n),
        0 <= x < fitted_picture(pictures[k], cell_of(grid) as u32).w,
        0 <= y < fitted_picture(pictures[k], cell_of(grid) as u32).h,
        0 <= c < 4,
    ensures
        ({
            let p = fitted_picture(pictures[k], cell_of(grid) as u32);
            atlas_rgba(pictures, grid, n)[atlas_byte(k, grid, x, y, c)] == p.rgba[(y * p.w + x) * 4
                + c]
        }),
        atlas_rgba(pictures, grid, n).len() == 1_048_576,
    decreases n,
{
    let i = atlas_byte(k, grid, x, y, c);
    let p = fitted_picture(pictures[k], cell_of(grid) as u32);
    let count = pictures.len() as int;
    lemma_cell_inside(k, grid, count);
    lemma_atlas_len(pictures, grid, n);
    lemma_atlas_len(pictures, grid, (n - 1) as nat);
    lemma_pixel(512, cell_x(k, grid) + x, cell_y(k, grid) + y, i);
    assert(0 <= i < 1_048_576);
    assert(i % 4 == c);
    let last = n - 1;
    if k == last {
        assert(covers(512, p, cell_x(k, grid), cell_y(k, grid), i));
        assert(py_of(i, 512) - cell_y(k, grid) == y);
        assert(px_of(i, 512) - cell_x(k, grid) == x);
    } else {
        frames_read_back(pictures, grid, (n - 1) as nat, k, x, y, c);
        lemma_cells_apart(last, k, grid, count, x, y);
        let q = fitted_picture(pictures[last], cell_of(grid) as u32);
        assert(q.w <= cell_of(grid) && q.h <= cell_of(grid));
        assert(!covers(512, q, cell_x(last, grid), cell_y(last, grid), i));
    }
}

proof fn lemma_atlas_len(pictures: Seq<Picture>, grid: int, n: nat)
    ensures
        atlas_rgba(pictures, grid, n).len() == 1_048_576,
    decreases n,
{
    if n > 0 {
        lemma_atlas_len(pictures, grid, (n - 1) as nat);
    }
}

/// Frame `k` is the one to show at a point in time of the loop.
pub open spec fn is_frame_at(delays: Seq<u64>, time: int, k: int) -> bool {
    0 <= k < delays.len() && sum_delays(delays.take(k)) <= time < sum_delays(delays.take(k + 1))
}

/// The frame of a loop to show after `elapsed` nanoseconds.
pub fn frame_at(delays: &Vec<u64>, total: u64, elapsed: u64) -> (k: usize)
    requires
        delays.len() > 0,
        total == sum_delays(delays@),
        total > 0,
    ensures
        is_frame_at(delays@, elapsed as int % total as int, k as int),
{
    let time: u64 = elapsed % total;
    let mut acc: u64 = 0;
    let mut k: usize = 0;
    assert(delays@.take(0) =~= seq![]);
    assert(delays@.take(delays@.len() as int) =~= delays@);
    loop
        invariant
            total == sum_delays(delays@),
            total > 0,
            time == elapsed as int % total as int,
            k < delays.len(),
            acc == sum_delays(delays@.take(k as int)),
            acc <= time,
            delays@.take(delays@.len() as int) == delays@,
        decreases delays.len() - k,
    {
        proof {
            assert(delays@.take(k + 1).drop_last() =~= delays@.take(k as int));
            assert(delays@.take(k + 1).last() == delays@[k as int]);
            lemma_delays_grow(delays@, k + 1);
        }
        acc = acc + delays[k];
        if time < acc {
            return k;
        }
        if k + 1 == delays.len() {
            assert(false);
        }
        k = k + 1;
    }
}

proof fn lemma_delays_grow(delays: Seq<u64>, k: int)
    requires
        0 <= k <= delays.len(),
    ensures
        sum_delays(delays.take(k)) <= sum_delays(delays),
    decreases delays.len() - k,
{
    if k < delays.len() {
        lemma_delays_grow(delays, k + 1);
        assert(delays.take(k + 1).drop_last() =~= delays.take(k));
        assert(delays.take(k + 1).last() == delays[k]);
    } else {
        assert(delays.take(k) =~= delays);
    }
}

/// At every point in time of a loop there is one frame to show.
pub proof fn frame_at_is_unique(delays: Seq<u64>, time: int, j: int, k: int)
    requires
        is_frame_at(delays, time, j),
        is_frame_at(delays, time, k),
    ensures
        j == k,
{
    if j < k {
        assert(delays.take(k).take(j + 1) =~= delays.take(j + 1));
        lemma_delays_grow(delays.take(k), j + 1);
    } else if k < j {
        assert(delays.take(j).take(k + 1) =~= delays.take(k + 1));
        lemma_delays_grow(delays.take(j), k + 1);
    }
}

/// Every frame shows for a while.
pub open spec fn all_positive(delays: Seq<u64>) -> bool {
    forall|k: int| 0 <= k < delays.len() ==> #[trigger] delays[k] > 0
}

/// Where a playing loop stands: frame `cur` has been shown for `t` nanoseconds, as long as that
/// is not more than its delay; else the next frame has been shown for the rest.
pub open spec fn played(delays: Seq<u64>, cur: int, t: int) -> (int, int)
    decreases t,
{
    if t < delays[cur] || delays[cur] <= 0 || delays.len() == 0 {
        (cur, t)
    } else {
        played(delays, (cur + 1) % delays.len() as int, t - delays[cur])
    }
}

/// Moves a playing loop on to where it stands once frame `cur` has been shown for `t`
/// nanoseconds.
pub fn play_on(delays: &Vec<u64>, cur: usize, t: u64) -> (now: (usize, u64))
    requires
        cur < delays.len(),
        all_positive(delays@),
    ensures
        (now.0 as int, now.1 as int) == played(delays@, cur as int, t as int),
        now.0 < delays.len(),
        now.1 < delays[now.0 as int],
{
    let mut cur: usize = cur;
    let mut t: u64 = t;
    let ghost end = played(delays@, cur as int, t as int);
    while t >= delays[cur]
        invariant
            cur < delays.len(),
            all_positive(delays@),
            end == played(delays@, cur as int, t as int),
        decreases t,
    {
        assert(delays@[cur as int] > 0);
        t = t - delays[cur];
        let next: usize = if cur + 1 == delays.len() {
            0
        } else {
            cur + 1
        };
        assert(next as int == (cur + 1) % delays@.len() as int) by {
            if cur + 1 < delays@.len() {
                vstd::arithmetic::div_mod::lemma_small_mod(
                    (cur + 1) as nat,
                    delays@.len() as nat,
                );
            } else {
                vstd::arithmetic::div_mod::lemma_mod_self_0(delays@.len() as int);
            }
        }
        cur = next;
    }
    (cur, t)
}

} // verus!
