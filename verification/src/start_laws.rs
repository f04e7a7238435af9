//! What a state promises from its start on: what it asks for, opens first, and leaves behind.

use crate::components::{Filter, SortMode};
use crate::dates::day_number;
use crate::frame::{
    chooses_more, gif_lightbox, gif_target, is_end, rebuilt_flags, FrameEnd, FrameIn, GifStep,
};
use crate::gifs::{covers, px_of, py_of};
use crate::icons::icon_rgba;
use crate::images::Pixels;
use crate::library::Query;
use crate::pool::{focus_asked, focus_loads, PoolView, Tile, Window};
use crate::state::{asked_focus, initial_flags, DragMode, Flags, Lightbox, State};
use crate::text::{all_digits, decimal, digits_value, is_digit, unsigned_text};
use crate::text_laws::{
    blank_text_is_no_date, trimming_drops_what_surrounds, whole_dates_are_read,
};
use crate::video::{cover_after, frame_after, frame_before, scale_text, Attempt};
use vstd::prelude::*;

verus! {

/// At the start everything is shown as it was loaded, animations and reflections are on, and
/// nothing else is open, on, or asked for.
pub proof fn a_fresh_state_shows_everything(now: u64)
    ensures
        ({
            let g = initial_flags(now);
            &&& g.filter_kind == Filter::All && g.sort_mode == SortMode::Default
            &&& g.gif_anim && g.reflections
            &&& !g.show_titles && !g.show_mem && !g.show_info && !g.slideshow && !g.date_created
            &&& g.open_menu is None && g.track_menu is None && g.seek_preview is None
            &&& g.open_request is None && !g.fullscreen_requested && !g.view_dirty
            &&& !g.scanning && g.scan_count == 0
            &&& g.drag_mode == DragMode::Idle && !g.drag_moved && !g.wall_scroll_held
            &&& g.input_dir == 0
            &&& g.slideshow_t == now && g.last_activity == now && g.mem_log == now
        }),
{
}

/// A number that is asked for at the start opens the item of that place, where there is one.
/// Anything else opens nothing.
pub proof fn the_asked_item_opens(text: Seq<char>, total: nat)
    requires
        total <= usize::MAX,
    ensures
        asked_focus(None, total) is None,
        all_digits(text) && digits_value(text) < total ==> asked_focus(Some(text), total) == Some(
            digits_value(text) as usize,
        ),
        all_digits(text) && digits_value(text) >= total ==> asked_focus(Some(text), total) is None,
        text.len() == 0 ==> asked_focus(Some(text), total) is None,
        (exists|k: int| 1 <= k < text.len() && !('0' <= #[trigger] text[k] <= '9')) ==> asked_focus(
            Some(text),
            total,
        ) is None,
{
    if all_digits(text) {
        assert(is_digit(text[0]));
    }
    if exists|k: int| 1 <= k < text.len() && !('0' <= #[trigger] text[k] <= '9') {
        let k = choose|k: int| 1 <= k < text.len() && !('0' <= #[trigger] text[k] <= '9');
        assert(!is_digit(text[k]));
        let rest = text.drop_first();
        assert(rest[k - 1] == text[k]);
        assert(unsigned_text(text, u64::MAX as nat) is None);
    }
}

/// The view is asked for by the settings and the fields as they stand.
pub proof fn queries_ask_for_what_is_set(s: State, q: Query)
    requires
        s.is_query(q),
    ensures
        q.kind == s.flags.filter_kind,
        q.search@ == s.fields@.search,
        q.created == s.flags.date_created,
        q.sort == s.flags.sort_mode,
{
}

/// A date field bounds the view once it holds a whole date, by the day that this names.
pub proof fn whole_dates_bound_the_view(
    s: State,
    q: Query,
    y: Seq<char>,
    m: Seq<char>,
    d: Seq<char>,
)
    requires
        s.is_query(q),
        all_digits(y),
        all_digits(m),
        all_digits(d),
        digits_value(y) <= i64::MAX,
        1 <= digits_value(m) <= 12,
        1 <= digits_value(d) <= 31,
    ensures
        ({
            let text = y + seq!['-'] + m + seq!['-'] + d;
            let day = day_number(
                digits_value(y) as int,
                digits_value(m) as int,
                digits_value(d) as int,
            );
            &&& s.fields@.date_from == text ==> q.from is Some && q.from->0 == day
            &&& s.fields@.date_to == text ==> q.to is Some && q.to->0 == day
        }),
        s.fields@.date_from.len() == 0 ==> q.from is None,
        s.fields@.date_to.len() == 0 ==> q.to is None,
{
    let text = y + seq!['-'] + m + seq!['-'] + d;
    let e = Seq::<char>::empty();
    whole_dates_are_read(y, m, d);
    assert(text[0] == y[0] && is_digit(y[0]));
    assert(text[text.len() - 1] == d[d.len() - 1] && is_digit(d[d.len() - 1]));
    trimming_drops_what_surrounds(e, text, e);
    assert(e + text + e =~= text);
    if s.fields@.date_from.len() == 0 {
        blank_text_is_no_date(s.fields@.date_from);
    }
    if s.fields@.date_to.len() == 0 {
        blank_text_is_no_date(s.fields@.date_to);
    }
}

/// A new view ends a slideshow, and is not asked for again.
pub proof fn new_views_end_a_slideshow(g: Flags)
    ensures
        !rebuilt_flags(g).view_dirty,
        !rebuilt_flags(g).slideshow,
        g == (Flags {
            view_dirty: g.view_dirty,
            slideshow: g.slideshow,
            ..rebuilt_flags(g)
        }),
{
}

/// The open item is asked for as soon as it is not loaded, whatever else is on its way.
pub proof fn the_open_item_is_asked_for(p: PoolView, focus: Option<usize>, total: usize)
    ensures
        ({
            let q = focus_asked(p, focus, total);
            let asks = focus is Some && focus->0 < total && !p.tiles.contains_key(focus->0);
            &&& focus_loads(p, focus, total) == asks
            &&& asks ==> q.tiles.contains_key(focus->0) && q.tiles[focus->0] == Tile::Loading
                && q.inflight == p.inflight + 1 && q.free == p.free
            &&& asks ==> forall|i: usize|
                i != focus->0 ==> (#[trigger] q.tiles.contains_key(i) <==> p.tiles.contains_key(i))
                    && (p.tiles.contains_key(i) ==> q.tiles[i] == p.tiles[i])
            &&& !asks ==> q == p
        }),
{
}

/// An open GIF plays; more animations start on the wall only while they are on, the wall is in
/// view, and it does not move fast.
pub proof fn animations_are_chosen_in_view(s: State, input: FrameIn)
    ensures
        s.lightbox.focus is Some && s.wall.is_gif(s.lightbox.focus->0 as int) ==> gif_target(s)
            == s.lightbox.focus,
        s.lightbox.focus is None || !s.wall.is_gif(s.lightbox.focus->0 as int) ==> gif_target(s)
            is None,
        chooses_more(s, input) <==> s.flags.gif_anim && s.lightbox.focus is None && !input.fast,
{
}

/// The frames of an open GIF take the place of its full picture.
pub proof fn gif_frames_stand_for_the_full_picture(lb: Lightbox, out: GifStep)
    ensures
        out.frame is Some || out.shown@.len() > 0 ==> gif_lightbox(lb, out).full_for == lb.focus,
        out.frame is None && out.shown@.len() == 0 ==> gif_lightbox(lb, out) == lb,
        gif_lightbox(lb, out).focus == lb.focus,
        gif_lightbox(lb, out).full_pending == lb.full_pending,
{
}

/// Memory is handed back at the end of a burst: once, when the last decode has ended.
pub proof fn memory_is_handed_back_after_a_burst(
    before: State,
    after: State,
    window: Window,
    now: u64,
    out: FrameEnd,
)
    requires
        is_end(before, after, window, now, out),
        before.wall.pool@.inflight <= usize::MAX,
    ensures
        out.trim <==> before.wall.prev_inflight > 0 && before.wall.pool@.inflight == 0,
        after.wall.prev_inflight == before.wall.pool@.inflight,
        after.wall.pool == before.wall.pool,
        after.wall.shown == before.wall.shown,
{
}

/// The helper scales a picture to fit a square of the wanted size, and keeps its shape.
pub proof fn pictures_are_scaled_to_the_target(a: Attempt, target: int)
    requires
        0 <= target,
    ensures
        scale_text(target) == "scale="@ + decimal(target as nat) + ":"@ + decimal(target as nat)
            + ":force_original_aspect_ratio=decrease"@,
        cover_after(target).contains(scale_text(target)),
        a.pick ==> frame_after(a, target).contains("thumbnail,"@ + scale_text(target)),
        !a.pick ==> frame_after(a, target).contains(scale_text(target)),
        a.seek is Some ==> frame_before(a)[3] == "-ss"@ && frame_before(a)[4] == decimal(
            a.seek->0 as nat,
        ),
        frame_before(a).last() == "-i"@,
{
    assert(cover_after(target)[3] == scale_text(target));
    assert(frame_after(a, target).contains(frame_after(a, target)[5]));
}

proof fn lemma_icons_apart(j: int, k: int, grid: int, x: int, y: int)
    requires
        0 <= j,
        0 <= k,
        j != k,
        grid >= 1,
        0 <= x < 64,
        0 <= y < 64,
    ensures
        !(j % grid * 64 <= k % grid * 64 + x < j % grid * 64 + 64 && j / grid * 64 <= k / grid * 64
            + y < j / grid * 64 + 64),
{
    vstd::arithmetic::div_mod::lemma_fundamental_div_mod(j, grid);
    vstd::arithmetic::div_mod::lemma_fundamental_div_mod(k, grid);
    if j % grid == k % grid && j / grid == k / grid {
        assert(grid * (j / grid) == grid * (k / grid));
    }
}

proof fn lemma_icon_byte(dim: int, px: int, py: int, c: int)
    requires
        0 <= px < dim,
        0 <= py < dim,
        0 <= c < 4,
    ensures
        ({
            let i = (py * dim + px) * 4 + c;
            0 <= i < dim * dim * 4 && px_of(i, dim) == px && py_of(i, dim) == py && i % 4 == c
        }),
{
    let q = py * dim + px;
    let i = q * 4 + c;
    assert(0 <= q && q + 1 <= dim * dim) by (nonlinear_arith)
        requires
            q == py * dim + px,
            0 <= px < dim,
            0 <= py < dim,
    ;
    assert(i / 4 == q);
    vstd::arithmetic::div_mod::lemma_fundamental_div_mod_converse(q, dim, py, px);
}

/// Every icon can be read back from its own cell of the icon texture, pixel by pixel: row by row of
/// the grid, from the left.
pub proof fn icons_read_back(
    cells: Seq<Option<Pixels>>,
    grid: int,
    n: nat,
    k: int,
    x: int,
    y: int,
    c: int,
)
    requires
        0 <= k < n <= cells.len() <= grid * grid,
        1 <= grid,
        forall|j: int|
            0 <= j < cells.len() ==> ((#[trigger] cells[j]) matches Some(p) ==> p.w == 64 && p.h
                == 64),
        0 <= x < 64,
        0 <= y < 64,
        0 <= c < 4,
    ensures
        icon_rgba(cells, grid, n).len() == grid * grid * 16_384,
        cells[k] matches Some(p) ==> icon_rgba(cells, grid, n)[((k / grid * 64 + y) * (grid * 64)
            + (k % grid * 64 + x)) * 4 + c] == p.rgba@[(y * 64 + x) * 4 + c],
        cells[k] is None ==> icon_rgba(cells, grid, n)[((k / grid * 64 + y) * (grid * 64) + (k
            % grid * 64 + x)) * 4 + c] == 0,
    decreases n,
{
    let dim = grid * 64;
    let (ox, oy) = (k % grid * 64, k / grid * 64);
    vstd::arithmetic::div_mod::lemma_fundamental_div_mod(k, grid);
    vstd::arithmetic::div_mod::lemma_mod_bound(k, grid);
    vstd::arithmetic::div_mod::lemma_div_pos_is_pos(k, grid);
    assert(k / grid < grid) by (nonlinear_arith)
        requires
            k == grid * (k / grid) + k % grid,
            0 <= k % grid,
            k < grid * grid,
            grid >= 1,
    ;
    assert(dim * dim * 4 == grid * grid * 16_384) by (nonlinear_arith)
        requires
            dim == grid * 64,
    ;
    assert(0 <= grid * grid) by (nonlinear_arith)
        requires
            grid >= 1,
    ;
    lemma_icon_byte(dim, ox + x, oy + y, c);
    let i = ((oy + y) * dim + (ox + x)) * 4 + c;
    let last = n - 1;
    lemma_icon_len(cells, grid, n);
    lemma_icon_len(cells, grid, last as nat);
    if k == last {
        if let Some(p) = cells[k] {
            assert(covers(dim, p@, ox, oy, i));
            assert(py_of(i, dim) - oy == y && px_of(i, dim) - ox == x);
        } else {
            lemma_not_yet(cells, grid, last as nat, k, x, y, c);
        }
    } else {
        icons_read_back(cells, grid, last as nat, k, x, y, c);
        lemma_icons_apart(last, k, grid, x, y);
        if let Some(q) = cells[last] {
            assert(!covers(dim, q@, last % grid * 64, last / grid * 64, i));
        }
    }
}

proof fn lemma_icon_len(cells: Seq<Option<Pixels>>, grid: int, n: nat)
    requires
        0 <= grid * grid,
    ensures
        icon_rgba(cells, grid, n).len() == grid * grid * 16_384,
    decreases n,
{
    if n > 0 {
        lemma_icon_len(cells, grid, (n - 1) as nat);
    }
}

/// The cell of an icon is blank before the icon is put there.
proof fn lemma_not_yet(
    cells: Seq<Option<Pixels>>,
    grid: int,
    n: nat,
    k: int,
    x: int,
    y: int,
    c: int,
)
    requires
        n <= k < cells.len() <= grid * grid,
        1 <= grid,
        forall|j: int|
            0 <= j < cells.len() ==> ((#[trigger] cells[j]) matches Some(p) ==> p.w == 64 && p.h
                == 64),
        0 <= x < 64,
        0 <= y < 64,
        0 <= c < 4,
    ensures
        icon_rgba(cells, grid, n)[((k / grid * 64 + y) * (grid * 64) + (k % grid * 64 + x)) * 4 + c]
            == 0,
    decreases n,
{
    let dim = grid * 64;
    let (ox, oy) = (k % grid * 64, k / grid * 64);
    vstd::arithmetic::div_mod::lemma_fundamental_div_mod(k, grid);
    vstd::arithmetic::div_mod::lemma_mod_bound(k, grid);
    vstd::arithmetic::div_mod::lemma_div_pos_is_pos(k, grid);
    assert(k / grid < grid) by (nonlinear_arith)
        requires
            k == grid * (k / grid) + k % grid,
            0 <= k % grid,
            k < grid * grid,
            grid >= 1,
    ;
    assert(dim * dim * 4 == grid * grid * 16_384) by (nonlinear_arith)
        requires
            dim == grid * 64,
    ;
    assert(0 <= grid * grid) by (nonlinear_arith)
        requires
            grid >= 1,
    ;
    lemma_icon_byte(dim, ox + x, oy + y, c);
    lemma_icon_len(cells, grid, n);
    if n > 0 {
        let last = n - 1;
        lemma_icon_len(cells, grid, last as nat);
        lemma_not_yet(cells, grid, last as nat, k, x, y, c);
        lemma_icons_apart(last, k, grid, x, y);
        let i = ((oy + y) * dim + (ox + x)) * 4 + c;
        if let Some(q) = cells[last] {
            assert(!covers(dim, q@, last % grid * 64, last / grid * 64, i));
        }
    }
}

} // verus!
