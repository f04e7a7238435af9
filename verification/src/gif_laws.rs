//! What animations promise: every frame of the file is shown, for as long as the file says.

use crate::gifs::{
    atlas_rgba, cell_of, cell_x, cell_y, covers, delay_ns, delays_of, first_frames,
    frames_read_back, gif_frames, gif_pictures, is_atlas, is_frame_at, pictures, played, px_of,
    py_of, sum_delays, GifAtlas,
};
use crate::images::{
    decoded, file_picture, fitted_picture, height_of, loaded, picture_of, printed_picture,
    rgba_content, scaled, width_of, Picture,
};
use vstd::prelude::*;

verus! {

/// Whether a frame whose delay is a fraction of a millisecond count shows for `ns` nanoseconds: for
/// that many whole nanoseconds, or for a tenth of a second where it is below twenty milliseconds. A
/// denominator of zero stands for one.
pub open spec fn is_shown_for(numer: u32, denom: u32, ns: int) -> bool {
    let d = if denom >= 1 {
        denom as int
    } else {
        1
    };
    &&& numer >= 20 * d ==> ns * d <= numer * 1_000_000 < (ns + 1) * d
    &&& numer < 20 * d ==> ns == 100_000_000
}

/// A frame shows for its own delay, to the nanosecond, however long that is; below twenty
/// milliseconds it shows for a tenth of a second.
pub proof fn delays_are_kept(numer: u32, denom: u32)
    ensures
        is_shown_for(numer, denom, delay_ns(numer, denom)),
{
    let d = if denom >= 1 {
        denom as int
    } else {
        1
    };
    let a = numer * 1_000_000;
    vstd::arithmetic::div_mod::lemma_fundamental_div_mod(a, d);
    vstd::arithmetic::div_mod::lemma_mod_bound(a, d);
    assert((a / d) * d == d * (a / d)) by (nonlinear_arith);
    assert((a / d + 1) * d == d * (a / d) + d) by (nonlinear_arith);
}

/// A longer delay never gives a shorter showing, among those of twenty milliseconds or more.
pub proof fn longer_delays_show_longer(n1: u32, d1: u32, n2: u32, d2: u32)
    requires
        d1 >= 1,
        d2 >= 1,
        n1 >= 20 * d1,
        n1 * d2 <= n2 * d1,
    ensures
        delay_ns(n1, d1) <= delay_ns(n2, d2),
        n1 * d2 == n2 * d1 ==> delay_ns(n1, d1) == delay_ns(n2, d2),
{
    delays_are_kept(n1, d1);
    delays_are_kept(n2, d2);
    assert(n2 >= 20 * d2) by (nonlinear_arith)
        requires
            d1 >= 1,
            d2 >= 1,
            n1 >= 20 * d1,
            n1 * d2 <= n2 * d1,
    ;
    let x = delay_ns(n1, d1);
    let y = delay_ns(n2, d2);
    assert(x <= y) by (nonlinear_arith)
        requires
            d1 >= 1,
            d2 >= 1,
            n1 * d2 <= n2 * d1,
            x * d1 <= n1 * 1_000_000,
            n2 * 1_000_000 < (y + 1) * d2,
    ;
    if n1 * d2 == n2 * d1 {
        assert(y <= x) by (nonlinear_arith)
            requires
                d1 >= 1,
                d2 >= 1,
                n1 * d2 == n2 * d1,
                y * d2 <= n2 * 1_000_000,
                n1 * 1_000_000 < (x + 1) * d1,
        ;
    }
}

/// Whether `small` is a picture as it is shown within a target: itself where it fits, and scaled
/// down where it does not.
pub open spec fn is_shown_within(small: Picture, p: Picture, target: u32) -> bool {
    &&& p.w <= target && p.h <= target ==> small == p
    &&& p.w > target || p.h > target ==> small == picture_of(
        scaled(rgba_content(p.w, p.h, p.rgba), target, target),
    )
}

/// Every frame of a GIF is decoded, up to the limit, in the order of the file: each shows its own
/// picture, for its own delay. What is no GIF has no frames.
pub proof fn frames_are_those_of_the_file(bytes: Seq<u8>, target: u32, max: nat)
    ensures
        ({
            let frames = gif_pictures(bytes, target, max);
            match gif_frames(bytes) {
                Some(all) => {
                    &&& all.len() <= max ==> frames.len() == all.len()
                    &&& all.len() > max ==> frames.len() == max
                    &&& forall|k: int|
                        #![trigger frames[k]]
                        0 <= k < frames.len() ==> {
                            &&& is_shown_within(
                                frames[k].0,
                                Picture { rgba: all[k].4, w: all[k].2, h: all[k].3 },
                                target,
                            )
                            &&& is_shown_for(all[k].0, all[k].1, frames[k].1)
                        }
                },
                None => frames.len() == 0,
            }
        }),
{
    if let Some(all) = gif_frames(bytes) {
        let frames = gif_pictures(bytes, target, max);
        assert forall|k: int| 0 <= k < frames.len() implies {
            &&& is_shown_within(
                (#[trigger] frames[k]).0,
                Picture { rgba: all[k].4, w: all[k].2, h: all[k].3 },
                target,
            )
            &&& is_shown_for(all[k].0, all[k].1, frames[k].1)
        } by {
            assert(first_frames(bytes, max)[k] == all[k]);
            delays_are_kept(all[k].0, all[k].1);
        }
    }
}

/// The delays of an atlas are those of its frames, one by one, and its loop lasts as long as they
/// do together.
pub proof fn atlases_keep_the_delays(a: GifAtlas, frames: Seq<(Picture, int)>)
    requires
        is_atlas(a, frames),
    ensures
        a.delays@.len() == frames.len(),
        forall|k: int| 0 <= k < frames.len() ==> #[trigger] a.delays@[k] == frames[k].1,
        a.total == sum_delays(a.delays@),
{
    let ds = a.delays@.map_values(|d: u64| d as int);
    assert(ds.len() == delays_of(frames).len());
    assert forall|k: int| 0 <= k < frames.len() implies #[trigger] a.delays@[k] == frames[k].1 by {
        assert(ds[k] == delays_of(frames)[k]);
    }
}

/// Delays add up: each further frame makes the loop longer by its own delay.
pub proof fn delays_add_up(delays: Seq<u64>, next: u64)
    ensures
        sum_delays(Seq::<u64>::empty()) == 0,
        sum_delays(delays.push(next)) == sum_delays(delays) + next,
{
    assert(delays.push(next).drop_last() =~= delays);
}

/// The grid of an atlas is the smallest square with room for its frames, and its cells share the
/// 512 pixels of a layer.
pub proof fn atlas_grids_are_smallest(a: GifAtlas, frames: Seq<(Picture, int)>)
    requires
        is_atlas(a, frames),
    ensures
        a.grid >= 1,
        frames.len() <= a.grid * a.grid,
        forall|g: int| 1 <= g < a.grid ==> #[trigger] (g * g) < frames.len(),
        a.cell * a.grid <= 512 < (a.cell + 1) * a.grid,
{
    let grid = a.grid as int;
    assert forall|g: int| 1 <= g < grid implies #[trigger] (g * g) < frames.len() by {
        assert(g * g <= (grid - 1) * (grid - 1)) by (nonlinear_arith)
            requires
                1 <= g <= grid - 1,
        ;
    }
    vstd::arithmetic::div_mod::lemma_fundamental_div_mod(512, grid);
    vstd::arithmetic::div_mod::lemma_mod_bound(512, grid);
    let c = 512int / grid;
    assert(c * grid == grid * c) by (nonlinear_arith);
    assert((c + 1) * grid == grid * c + grid) by (nonlinear_arith);
}

/// Every frame of an atlas can be read back from its own cell: row by row of the grid, from the
/// left, each cell holds its frame, itself where it fits and else scaled down.
pub proof fn atlases_show_their_frames(
    a: GifAtlas,
    frames: Seq<(Picture, int)>,
    k: int,
    x: int,
    y: int,
    c: int,
)
    requires
        is_atlas(a, frames),
        a.grid <= 16,
        0 <= k < frames.len() <= 256,
        0 <= x < fitted_picture(frames[k].0, a.cell).w,
        0 <= y < fitted_picture(frames[k].0, a.cell).h,
        0 <= c < 4,
    ensures
        ({
            let p = fitted_picture(frames[k].0, a.cell);
            let left = k % a.grid as int * a.cell;
            let top = k / a.grid as int * a.cell;
            &&& is_shown_within(p, frames[k].0, a.cell)
            &&& p.w <= a.cell && p.h <= a.cell
            &&& a.rgba@.len() == 512 * 512 * 4
            &&& a.rgba@[((top + y) * 512 + left + x) * 4 + c] == p.rgba[(y * p.w + x) * 4 + c]
        }),
{
    let all = pictures(frames);
    let grid = a.grid as int;
    assert(all[k] == frames[k].0);
    assert(cell_of(grid) == a.cell);
    assert(cell_of(grid) as u32 == a.cell);
    frames_read_back(all, grid, frames.len(), k, x, y, c);
}

proof fn lemma_blank(all: Seq<Picture>, grid: int, n: nat, i: int)
    requires
        0 <= i < 1_048_576,
        n <= all.len(),
        forall|k: int|
            0 <= k < n ==> !covers(
                512,
                fitted_picture(#[trigger] all[k], cell_of(grid) as u32),
                cell_x(k, grid),
                cell_y(k, grid),
                i,
            ),
    ensures
        atlas_rgba(all, grid, n).len() == 1_048_576,
        atlas_rgba(all, grid, n)[i] == 0,
    decreases n,
{
    if n > 0 {
        lemma_blank(all, grid, (n - 1) as nat, i);
        assert(!covers(
            512,
            fitted_picture(all[n - 1], cell_of(grid) as u32),
            cell_x(n - 1, grid),
            cell_y(n - 1, grid),
            i,
        ));
    }
}

/// Whether the pixel at column `px` and row `py` of an atlas lies under frame `k`.
pub open spec fn lies_under(a: GifAtlas, p: Picture, k: int, px: int, py: int) -> bool {
    let left = k % a.grid as int * a.cell;
    let top = k / a.grid as int * a.cell;
    left <= px < left + p.w && top <= py < top + p.h
}

/// What lies under no frame is left blank.
pub proof fn atlases_are_blank_elsewhere(
    a: GifAtlas,
    frames: Seq<(Picture, int)>,
    px: int,
    py: int,
    c: int,
)
    requires
        is_atlas(a, frames),
        0 <= px < 512,
        0 <= py < 512,
        0 <= c < 4,
        forall|k: int|
            0 <= k < frames.len() ==> !lies_under(
                a,
                fitted_picture((#[trigger] frames[k]).0, a.cell),
                k,
                px,
                py,
            ),
    ensures
        a.rgba@[(py * 512 + px) * 4 + c] == 0,
{
    let all = pictures(frames);
    let grid = a.grid as int;
    let i = (py * 512 + px) * 4 + c;
    assert(i / 4 == py * 512 + px);
    assert(px_of(i, 512) == px && py_of(i, 512) == py);
    assert forall|k: int| 0 <= k < all.len() implies !covers(
        512,
        fitted_picture(#[trigger] all[k], cell_of(grid) as u32),
        cell_x(k, grid),
        cell_y(k, grid),
        i,
    ) by {
        assert(all[k] == frames[k].0);
        assert(cell_of(grid) as u32 == a.cell);
        assert(!lies_under(a, fitted_picture(frames[k].0, a.cell), k, px, py));
    }
    lemma_blank(all, grid, frames.len(), i);
}

/// The frame to show at a point in time of the loop: those before it have been shown in full, and
/// it has not.
pub proof fn frames_take_their_turn(delays: Seq<u64>, time: int, k: int)
    requires
        is_frame_at(delays, time, k),
    ensures
        0 <= k < delays.len(),
        sum_delays(delays.take(k)) <= time,
        time < sum_delays(delays.take(k)) + delays[k],
{
    assert(delays.take(k + 1) =~= delays.take(k).push(delays[k]));
    delays_add_up(delays.take(k), delays[k]);
}

/// Nanoseconds that `n` frames of a loop show together, from frame `cur` on, round and round.
pub open spec fn shown_from(delays: Seq<u64>, cur: int, n: nat) -> int
    decreases n,
{
    if n == 0 {
        0
    } else {
        shown_from(delays, cur, (n - 1) as nat) + delays[(cur + n - 1) % delays.len() as int]
    }
}

proof fn lemma_shown_first(delays: Seq<u64>, cur: int, n: nat)
    requires
        0 <= cur < delays.len(),
    ensures
        shown_from(delays, cur, n + 1) == delays[cur] + shown_from(
            delays,
            (cur + 1) % delays.len() as int,
            n,
        ),
    decreases n,
{
    let len = delays.len() as int;
    if n == 0 {
        vstd::arithmetic::div_mod::lemma_small_mod(cur as nat, delays.len());
        assert(shown_from(delays, cur, 0) == 0);
        assert((cur + 1 - 1) % len == cur);
        assert(shown_from(delays, cur, 1) == delays[cur]) by {
            reveal_with_fuel(shown_from, 2);
        }
    } else {
        lemma_shown_first(delays, cur, (n - 1) as nat);
        let next = (cur + 1) % len;
        assert((next + n - 1) % len == (cur + n) % len) by {
            vstd::arithmetic::div_mod::lemma_add_mod_noop(cur + 1, n - 1, len);
            vstd::arithmetic::div_mod::lemma_add_mod_noop(next, n - 1, len);
            vstd::arithmetic::div_mod::lemma_mod_twice(cur + 1, len);
        }
        assert(shown_from(delays, cur, n + 1) == shown_from(delays, cur, n) + delays[(cur + n)
            % len]);
        assert(shown_from(delays, next, n) == shown_from(delays, next, (n - 1) as nat)
            + delays[(next + n - 1) % len]);
    }
}

/// A playing loop loses no time: where it comes to stand, the frames that it passed, one after the
/// other and round from the last to the first, have been shown in full, and the frame that it
/// shows has been shown for the rest, which is less than its delay.
pub proof fn playing_loses_no_time(delays: Seq<u64>, cur: int, t: int) -> (n: nat)
    requires
        0 <= cur < delays.len(),
        0 <= t,
        forall|k: int| 0 <= k < delays.len() ==> #[trigger] delays[k] > 0,
    ensures
        ({
            let now = played(delays, cur, t);
            &&& now.0 == (cur + n) % delays.len() as int
            &&& t == shown_from(delays, cur, n) + now.1
            &&& 0 <= now.1 < delays[now.0]
        }),
    decreases t,
{
    let len = delays.len() as int;
    if t < delays[cur] {
        vstd::arithmetic::div_mod::lemma_small_mod(cur as nat, delays.len());
        0
    } else {
        let next = (cur + 1) % len;
        vstd::arithmetic::div_mod::lemma_mod_bound(cur + 1, len);
        assert(delays[cur] > 0);
        let n = playing_loses_no_time(delays, next, t - delays[cur]);
        lemma_shown_first(delays, cur, n);
        assert((next + n) % len == (cur + (n + 1)) % len) by {
            vstd::arithmetic::div_mod::lemma_add_mod_noop(cur + 1, n as int, len);
            vstd::arithmetic::div_mod::lemma_add_mod_noop(next, n as int, len);
            vstd::arithmetic::div_mod::lemma_mod_twice(cur + 1, len);
        }
        n + 1
    }
}

/// An image file is decoded for 2048 pixels where it is open and for 512 on the wall: it is shown
/// as it is where it fits, and scaled down where it does not. What cannot be decoded has no pixels.
pub proof fn images_fit_their_texture(bytes: Seq<u8>, path: Seq<u8>, full: bool)
    ensures
        ({
            let side: u32 = if full {
                2048
            } else {
                512
            };
            let shown = file_picture(bytes, path, full);
            match decoded(bytes, path) {
                Some(img) => {
                    &&& width_of(img) <= side && height_of(img) <= side ==> shown == picture_of(img)
                    &&& width_of(img) > side || height_of(img) > side ==> shown == picture_of(
                        scaled(img, side, side),
                    )
                },
                None => shown.rgba.len() == 0 && shown.w == 0 && shown.h == 0,
            }
        }),
{
}

/// What a helper prints is shown only where it ends well and prints an image.
pub proof fn printed_images_are_shown(success: bool, output: Seq<u8>)
    ensures
        match printed_picture(success, output) {
            Some(p) => success && output.len() > 0 && loaded(output) is Some && p == picture_of(
                loaded(output)->0,
            ),
            None => !success || output.len() == 0 || loaded(output) is None,
        },
{
}

} // verus!
