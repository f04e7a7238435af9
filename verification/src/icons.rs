//! The icons of the interface, packed into one square texture.

use crate::gifs::{blit_into, blitted, grid_for, is_grid};
use crate::images::{Picture, Pixels};
use vstd::prelude::*;

verus! {

/// Size of an icon's cell.
pub const CELL: u32 = 64;

/// Icons that are drawn per frame at most.
pub const ICON_CAP: usize = 64;

/// The packed icons.
pub struct IconAtlas {
    /// Cells per row and per column.
    pub grid: u32,
    /// Size of the texture.
    pub dim: u32,
    pub rgba: Vec<u8>,
}

/// A drawn icon fills its cell; one that could not be drawn leaves it empty.
pub open spec fn fills_cell(p: Picture) -> bool {
    p.w == CELL && p.h == CELL && p.wf()
}

/// The texture with the first `n` icons; nothing else is painted.
pub open spec fn icon_rgba(cells: Seq<Option<Pixels>>, grid: int, n: nat) -> Seq<u8>
    decreases n,
{
    if n == 0 {
        Seq::new((grid * grid * 16_384) as nat, |i: int| 0u8)
    } else {
        let before = icon_rgba(cells, grid, (n - 1) as nat);
        match cells[n - 1] {
            Some(p) => blitted(
                before,
                grid * 64,
                p@,
                (n - 1) % grid * 64,
                (n - 1) / grid * 64,
            ),
            None => before,
        }
    }
}

fn blank(len: usize) -> (rgba: Vec<u8>)
    ensures
        rgba@ == Seq::new(len as nat, |i: int| 0u8),
{
    let mut rgba: Vec<u8> = Vec::new();
    let mut n: usize = 0;
    while n < len
        invariant
            n <= len,
            rgba@ == Seq::new(n as nat, |i: int| 0u8),
        decreases len - n,
    {
        rgba.push(0);
        n = n + 1;
        assert(rgba@ =~= Seq::new(n as nat, |i: int| 0u8));
    }
    rgba
}

/// An icon's cell lies within the texture.
proof fn lemma_icon_inside(k: int, grid: int, count: int)
    requires
        0 <= k < count,
        is_grid(count, grid),
        grid <= 16,
    ensures
        0 <= k % grid < grid,
        0 <= k / grid < grid,
        k % grid * 64 + 64 <= grid * 64,
        (k / grid * 64 + 64) * (grid * 64) * 4 <= grid * grid * 16_384,
{
    vstd::arithmetic::div_mod::lemma_fundamental_div_mod(k, grid);
    vstd::arithmetic::div_mod::lemma_mod_bound(k, grid);
    vstd::arithmetic::div_mod::lemma_div_pos_is_pos(k, grid);
    assert(k / grid < grid) by (nonlinear_arith)
        requires
            k == grid * (k / grid) + k % grid,
            0 <= k % grid,
            k < grid * grid,
            grid >= 1,
    ;
    let row = k / grid;
    assert((row * 64 + 64) * (grid * 64) * 4 <= grid * grid * 16_384) by (nonlinear_arith)
        requires
            0 <= row < grid,
            grid >= 1,
    ;
}

/// Packs drawn icons into a square grid, each in a cell of its own.
pub fn pack_icons(cells: &Vec<Option<Pixels>>) -> (atlas: IconAtlas)
    requires
        0 < cells.len() <= 256,
        forall|k: int|
            0 <= k < cells@.len() ==> ((#[trigger] cells@[k]) matches Some(p) ==> fills_cell(p@)),
    ensures
        is_grid(cells@.len() as int, atlas.grid as int),
        atlas.dim == atlas.grid * 64,
        atlas.rgba@ == icon_rgba(cells@, atlas.grid as int, cells@.len()),
{
    let grid: u32 = grid_for(cells.len());
    let dim: u32 = grid * CELL;
    assert(grid * grid <= 256) by (nonlinear_arith)
        requires
            1 <= grid <= 16,
    ;
    let mut rgba: Vec<u8> = blank((grid * grid * 16_384) as usize);
    let mut k: usize = 0;
    while k < cells.len()
        invariant
            0 < cells.len() <= 256,
            k <= cells.len(),
            1 <= grid <= 16,
            is_grid(cells@.len() as int, grid as int),
            dim == grid * 64,
            forall|k: int|
                0 <= k < cells@.len() ==> ((#[trigger] cells@[k]) matches Some(p) ==> fills_cell(
                    p@,
                )),
            rgba@ == icon_rgba(cells@, grid as int, k as nat),
            rgba@.len() == grid * grid * 16_384,
        decreases cells.len() - k,
    {
        proof {
            lemma_icon_inside(k as int, grid as int, cells@.len() as int);
        }
        match &cells[k] {
            Some(p) => {
                let ox: u32 = (k as u32 % grid) * CELL;
                let oy: u32 = (k as u32 / grid) * CELL;
                blit_into(&mut rgba, dim, p, ox, oy);
            },
            None => {},
        }
        k = k + 1;
    }
    IconAtlas { grid, dim, rgba }
}

} // verus!
