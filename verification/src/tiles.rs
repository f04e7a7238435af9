//! Painted tiles that stand in for missing thumbnails.

use vstd::prelude::*;

verus! {

pub open spec fn abs(a: int) -> int {
    if a >= 0 {
        a
    } else {
        -a
    }
}

/// The play triangle of a video tile: from 40 % to 60 % of the width, and narrowing to the right.
pub open spec fn in_triangle(x: int, y: int) -> bool {
    &&& 40 * 512 < 100 * x < 60 * 512
    &&& abs(y - 256) * 100 < 90 * 512 * 60 / 100 - 90 * x
}

/// The music note of a tile without cover art, in thousandths of a pixel: a round head, a stem,
/// and a flag.
pub open spec fn in_note(x: int, y: int) -> bool {
    let (cx, cy, r) = (215_040int, 317_440int, 51_200int);
    let (dx, dy) = (1000 * x - cx, 1000 * y - cy);
    ||| dx * dx + dy * dy < r * r
    ||| 261_120 <= 1000 * x < 277_504 && 112_640 < 1000 * y < cy
    ||| 261_120 <= 1000 * x < 343_040 && 112_640 < 1000 * y < 163_840
}

/// A colour of three channels; pixels are opaque.
pub open spec fn channel(color: (u8, u8, u8), c: int) -> u8 {
    if c == 0 {
        color.0
    } else if c == 1 {
        color.1
    } else if c == 2 {
        color.2
    } else {
        255
    }
}

/// The pixels of a video tile.
pub open spec fn video_byte(i: int) -> u8 {
    let (x, y) = (i / 4 % 512, i / 4 / 512);
    channel(
        if in_triangle(x, y) {
            (235, 235, 240)
        } else {
            (20, 22, 28)
        },
        i % 4,
    )
}

/// The pixels of a music tile.
pub open spec fn music_byte(i: int) -> u8 {
    let (x, y) = (i / 4 % 512, i / 4 / 512);
    channel(
        if in_note(x, y) {
            (225, 225, 235)
        } else {
            (26, 24, 34)
        },
        i % 4,
    )
}

/// The thumbnail of a video without a poster: a dark tile with a play triangle.
pub fn video_placeholder() -> (rgba: Vec<u8>)
    ensures
        rgba@ == Seq::new(1_048_576, |i: int| video_byte(i)),
{
    let mut rgba: Vec<u8> = Vec::new();
    let mut p: u32 = 0;
    while p < 262_144
        invariant
            p <= 262_144,
            rgba@ == Seq::new((4 * p) as nat, |i: int| video_byte(i)),
        decreases 262_144 - p,
    {
        let x: i32 = (p % 512) as i32;
        let y: i32 = (p / 512) as i32;
        let up: i32 = if y >= 256 {
            y - 256
        } else {
            256 - y
        };
        let inside: bool = 20_480 < 100 * x && 100 * x < 30_720 && up * 100 < 27_648 - 90 * x;
        let (r, g, b): (u8, u8, u8) = if inside {
            (235, 235, 240)
        } else {
            (20, 22, 28)
        };
        rgba.push(r);
        rgba.push(g);
        rgba.push(b);
        rgba.push(255);
        p = p + 1;
        assert(rgba@ =~= Seq::new((4 * p) as nat, |i: int| video_byte(i)));
    }
    rgba
}

/// The thumbnail of music without cover art: a dark tile with a note.
pub fn music_placeholder() -> (rgba: Vec<u8>)
    ensures
        rgba@ == Seq::new(1_048_576, |i: int| music_byte(i)),
{
    let mut rgba: Vec<u8> = Vec::new();
    let mut p: u32 = 0;
    while p < 262_144
        invariant
            p <= 262_144,
            rgba@ == Seq::new((4 * p) as nat, |i: int| music_byte(i)),
        decreases 262_144 - p,
    {
        let x: i64 = (p % 512) as i64 * 1000;
        let y: i64 = (p / 512) as i64 * 1000;
        let dx: i64 = x - 215_040;
        let dy: i64 = y - 317_440;
        assert(0 <= dx * dx <= 300_000_000_000 && 0 <= dy * dy <= 300_000_000_000)
            by (nonlinear_arith)
            requires
                -330_000 <= dx <= 330_000,
                -330_000 <= dy <= 330_000,
        ;
        let head: bool = dx * dx + dy * dy < 2_621_440_000;
        let stem: bool = 261_120 <= x && x < 277_504 && 112_640 < y && y < 317_440;
        let flag: bool = 261_120 <= x && x < 343_040 && 112_640 < y && y < 163_840;
        let (r, g, b): (u8, u8, u8) = if head || stem || flag {
            (225, 225, 235)
        } else {
            (26, 24, 34)
        };
        rgba.push(r);
        rgba.push(g);
        rgba.push(b);
        rgba.push(255);
        p = p + 1;
        assert(rgba@ =~= Seq::new((4 * p) as nat, |i: int| music_byte(i)));
    }
    rgba
}

} // verus!
