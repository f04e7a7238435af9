//! Laws of the library as a whole.

use crate::components::{
    anchor, bar_left_table, hit, menu_table, over_ui, pick, Frac, MenuKind, Pointer, Region,
    SortMode, UiAction, UiCtx,
};
use crate::dates::{FileTime, FileTimes};
use crate::edit::{backspace_undoes_typing, typeable, DATE_LEN};
use crate::frame::{
    delivered, delivers, full_asked, is_frame, is_playable, is_streamed, player_step, shows_full,
    slid_flags, slid_focus, slides, took_full, FrameIn, FrameOut, GifMsg, OpenGifView, PlayerStep,
    Stream, WallGifMsg,
};
use crate::input::{
    asked_effects, asked_flags, edited_fields, keyed_effects, keyed_focus, stepped, EditKey, Key,
};
use crate::library::{
    by_created, descending, directed, is_view, kept, kept_ignores_sort, kept_is_ascending,
    name_words, sort_times, Query,
};
use crate::media::{part_rank, path_rank, SourceView};
use crate::order::{
    holds_range, is_rank_order, is_time_order, lex_le, rank_before, time_before,
};
use crate::pointer::{
    is_click, moved_flags, press_meaning, pressed_flags, pressed_focus, released_effects,
    released_flags, released_focus, touched_state, Press,
};
use crate::pool::{
    col_of, cols_for, evictable, focus_asked, focus_loads, in_cols, increasing, load_order, max_int,
    settled_all, Finished, PoolView, KEEP_COLS, MAX_INFLIGHT,
};
use crate::pool_laws::{
    asking_keeps_wf, decoded_tiles, evicting_bounds_layers, evicting_keeps_wf, layers_never_run_out,
    lemma_loaded_keeps, loading_keeps_decoded, loading_keeps_ready, resting_limit,
    settling_all_keeps_wf, settling_never_adds_decodes, windows_are_small,
};
use crate::state::{
    acted_flags, back_effects, typed_fields, Effect, Field, FieldsView, Flags, Lightbox, State,
};
use crate::wall::Wall;
use vstd::prelude::*;

verus! {

/// The settings that a click switches on and off.
pub open spec fn is_switch(a: UiAction) -> bool {
    a is ToggleInfo || a is ToggleGifAnim || a is ToggleReflections || a is ToggleShowTitles
        || a is ToggleMem
}

/// An action that is done twice has changed nothing, and done once it has.
pub open spec fn switches_back(g: Flags, a: UiAction, t1: u64, t2: u64) -> bool {
    acted_flags(acted_flags(g, a, t1), a, t2) == g && acted_flags(g, a, t1) != g
}

proof fn lemma_switch_show_info(g: Flags, t1: u64, t2: u64)
    ensures
        switches_back(g, UiAction::ToggleInfo, t1, t2),
{
    let on = acted_flags(g, UiAction::ToggleInfo, t1);
    assert(on.show_info == !g.show_info);
    assert(acted_flags(on, UiAction::ToggleInfo, t2) == g);
}

proof fn lemma_switch_gif_anim(g: Flags, t1: u64, t2: u64)
    ensures
        switches_back(g, UiAction::ToggleGifAnim, t1, t2),
{
    let on = acted_flags(g, UiAction::ToggleGifAnim, t1);
    assert(on.gif_anim == !g.gif_anim);
    assert(acted_flags(on, UiAction::ToggleGifAnim, t2) == g);
}

proof fn lemma_switch_reflections(g: Flags, t1: u64, t2: u64)
    ensures
        switches_back(g, UiAction::ToggleReflections, t1, t2),
{
    let on = acted_flags(g, UiAction::ToggleReflections, t1);
    assert(on.reflections == !g.reflections);
    assert(acted_flags(on, UiAction::ToggleReflections, t2) == g);
}

proof fn lemma_switch_show_titles(g: Flags, t1: u64, t2: u64)
    ensures
        switches_back(g, UiAction::ToggleShowTitles, t1, t2),
{
    let on = acted_flags(g, UiAction::ToggleShowTitles, t1);
    assert(on.show_titles == !g.show_titles);
    assert(acted_flags(on, UiAction::ToggleShowTitles, t2) == g);
}

proof fn lemma_switch_show_mem(g: Flags, t1: u64, t2: u64)
    ensures
        switches_back(g, UiAction::ToggleMem, t1, t2),
{
    let on = acted_flags(g, UiAction::ToggleMem, t1);
    assert(on.show_mem == !g.show_mem);
    assert(acted_flags(on, UiAction::ToggleMem, t2) == g);
}

/// A switch that is clicked twice is as it was, and nothing else has changed.
pub proof fn switching_twice_changes_nothing(g: Flags, a: UiAction, t1: u64, t2: u64)
    requires
        is_switch(a),
    ensures
        switches_back(g, a, t1, t2),
{
    match a {
        UiAction::ToggleInfo => lemma_switch_show_info(g, t1, t2),
        UiAction::ToggleGifAnim => lemma_switch_gif_anim(g, t1, t2),
        UiAction::ToggleReflections => lemma_switch_reflections(g, t1, t2),
        UiAction::ToggleShowTitles => lemma_switch_show_titles(g, t1, t2),
        _ => lemma_switch_show_mem(g, t1, t2),
    }
}

/// A menu button opens its menu, and closes it again.
pub proof fn menu_button_closes_what_it_opens(g: Flags, m: MenuKind, t1: u64, t2: u64)
    requires
        g.open_menu is None,
    ensures
        acted_flags(g, UiAction::ToggleMenu(m), t1).open_menu == Some(m),
        acted_flags(acted_flags(g, UiAction::ToggleMenu(m), t1), UiAction::ToggleMenu(m), t2) == g,
{
}

/// An open dialog takes every click, wherever the pointer is, so that nothing below it reacts.
pub proof fn dialogs_take_every_click(c: UiCtx, p: Pointer)
    requires
        c.menu matches Some(m) && (m is Open || m is Settings),
    ensures
        hit(c, p) is Some,
        over_ui(c, p),
{
}

/// A click beside an open menu closes it, and does nothing else.
pub proof fn clicks_beside_a_menu_close_it(c: UiCtx, p: Pointer, m: MenuKind)
    requires
        c.menu == Some(m),
        pick(menu_table(m), p.under@) is None,
        !p.under@.contains(anchor(m)),
    ensures
        hit(c, p) == Some(UiAction::CloseMenu),
{
}

/// A row whose region does not lie under the pointer is not picked.
proof fn lemma_not_picked(table: Seq<(Region, UiAction)>, under: Seq<Region>)
    requires
        forall|k: int| 0 <= k < table.len() ==> !under.contains((#[trigger] table[k]).0),
    ensures
        pick(table, under) is None,
    decreases table.len(),
{
    if table.len() > 0 {
        assert(!under.contains(table[0].0));
        assert forall|k: int| 0 <= k < table.drop_first().len() implies !under.contains(
            (#[trigger] table.drop_first()[k]).0,
        ) by {
            assert(table.drop_first()[k] == table[k + 1]);
        }
        lemma_not_picked(table.drop_first(), under);
    }
}

/// The button of an open dropdown closes it.
pub proof fn dropdown_buttons_close_their_dropdown(c: UiCtx, p: Pointer, m: MenuKind)
    requires
        c.menu == Some(m),
        m is Sort || m is Filter || m is Dates,
        !c.focused,
        c.video is None,
        p.under@ == seq![anchor(m)],
    ensures
        hit(c, p) == Some(UiAction::ToggleMenu(m)),
{
    let under = p.under@;
    assert(under[0] == anchor(m));
    assert(under.contains(anchor(m)));
    assert forall|r: Region| under.contains(r) implies r == anchor(m) by {}
    assert forall|k: int| 0 <= k < menu_table(m).len() implies !under.contains(
        (#[trigger] menu_table(m)[k]).0,
    ) by {}
    lemma_not_picked(menu_table(m), under);
    let bar = bar_left_table();
    reveal_with_fuel(pick, 5);
    assert(bar.drop_first()[0] == bar[1]);
    assert(bar.drop_first().drop_first()[0] == bar[2]);
    assert(bar.drop_first().drop_first().drop_first()[0] == bar[3]);
}

/// Controls that are hidden do not react: a click on an open video whose controls are hidden is
/// not a click on the interface.
pub proof fn hidden_controls_do_not_react(c: UiCtx, p: Pointer)
    requires
        c.menu is None,
        c.focused,
        c.video matches Some(v) && !v.visible,
    ensures
        hit(c, p) is None,
{
}

/// The item next to a displayed one is displayed, and no step leads beyond the ends.
pub proof fn steps_stay_displayed(f: usize, dir: int, total: nat)
    requires
        f < total <= usize::MAX,
    ensures
        stepped(Some(f), dir, total) matches Some(g) && g < total,
        f == 0 ==> stepped(Some(f), -1, total) == Some(f),
        f == total - 1 ==> stepped(Some(f), 1, total) == Some(f),
{
}

/// A step back undoes a step, except at the ends.
pub proof fn steps_undo_each_other(f: usize, dir: int, total: nat)
    requires
        f < total <= usize::MAX,
        dir == 1 || dir == -1,
        0 <= f + dir < total,
    ensures
        stepped(stepped(Some(f), dir, total), -dir, total) == Some(f),
{
}

/// Where a slideshow is after `k` moves.
pub open spec fn slid(f: int, k: nat, total: int) -> int
    decreases k,
{
    if k == 0 {
        f
    } else {
        (slid(f, (k - 1) as nat, total) + 1) % total
    }
}

proof fn lemma_slid(f: int, k: nat, total: int)
    requires
        0 <= f < total,
    ensures
        slid(f, k, total) == (f + k) % total,
    decreases k,
{
    if k == 0 {
        vstd::arithmetic::div_mod::lemma_small_mod(f as nat, total as nat);
    } else {
        lemma_slid(f, (k - 1) as nat, total);
        vstd::arithmetic::div_mod::lemma_add_mod_noop(f + k - 1, 1, total);
        vstd::arithmetic::div_mod::lemma_add_mod_noop((f + k - 1) % total, 1, total);
        vstd::arithmetic::div_mod::lemma_mod_twice(f + k - 1, total);
    }
}

/// Within one round a slideshow passes the end at most once.
proof fn lemma_slid_wraps(f: int, k: nat, total: int)
    requires
        0 <= f < total,
        k < total,
    ensures
        slid(f, k, total) == if f + k < total {
            f + k
        } else {
            f + k - total
        },
{
    lemma_slid(f, k, total);
    if f + k < total {
        vstd::arithmetic::div_mod::lemma_small_mod((f + k) as nat, total as nat);
    } else {
        vstd::arithmetic::div_mod::lemma_mod_add_multiples_vanish(f + k - total, total);
        vstd::arithmetic::div_mod::lemma_small_mod((f + k - total) as nat, total as nat);
    }
}

/// A slideshow moves one item on, and from the last one to the first one.
pub proof fn slideshow_moves_on(s: State, now: u64)
    requires
        s.wf(),
        slides(s, now),
    ensures
        slid_focus(s, now) == Some(
            slid(s.lightbox.focus->0 as int, 1, s.wall.shown@.len() as int) as usize,
        ),
        slid_focus(s, now)->0 < s.wall.shown@.len(),
        slid_flags(s, now).slideshow,
        slid_flags(s, now).slideshow_t == now,
{
    reveal_with_fuel(slid, 2);
    vstd::arithmetic::div_mod::lemma_mod_bound(
        s.lightbox.focus->0 + 1,
        s.wall.shown@.len() as int,
    );
}

/// A slideshow shows every item once before it comes back to where it started.
pub proof fn slideshow_shows_everything(f: int, i: int, total: int)
    requires
        0 <= f < total,
        0 <= i < total,
    ensures
        exists|k: nat| k < total && #[trigger] slid(f, k, total) == i,
        forall|j: nat, k: nat|
            j < k < total ==> #[trigger] slid(f, j, total) != #[trigger] slid(f, k, total),
        slid(f, total as nat, total) == f,
{
    assert forall|j: nat, k: nat| j < k < total implies #[trigger] slid(f, j, total)
        != #[trigger] slid(f, k, total) by {
        lemma_slid_wraps(f, j, total);
        lemma_slid_wraps(f, k, total);
    }
    let k: nat = (if i >= f {
        i - f
    } else {
        i - f + total
    }) as nat;
    lemma_slid_wraps(f, k, total);
    lemma_slid(f, total as nat, total);
    vstd::arithmetic::div_mod::lemma_mod_add_multiples_vanish(f, total);
    vstd::arithmetic::div_mod::lemma_small_mod(f as nat, total as nat);
    assert(slid(f, k, total) == i);
}

/// A request is handed out once: after that nothing is asked for, and nothing changes.
pub proof fn requests_are_handed_out_once(g: Flags)
    ensures
        asked_effects(asked_flags(g)) == Seq::<Effect>::empty(),
        asked_flags(asked_flags(g)) == asked_flags(g),
{
    assert(asked_effects(asked_flags(g)) =~= Seq::<Effect>::empty());
}

/// Escape leaves what is open first, then fullscreen, then the program.
pub proof fn escape_leaves_one_thing_at_a_time(s: State, fullscreen: bool)
    ensures
        s.lightbox.focus is Some ==> keyed_effects(s, Key::Escape, true, fullscreen)
            == back_effects(s.lightbox.focus),
        keyed_focus(s, Key::Escape, true) is None,
        s.lightbox.focus is None && fullscreen ==> keyed_effects(s, Key::Escape, true, fullscreen)
            == seq![Effect::LeaveFullscreen],
        s.lightbox.focus is None && !fullscreen ==> keyed_effects(s, Key::Escape, true, fullscreen)
            == seq![Effect::Quit],
{
}

/// A click on a tile opens it: a left press on nothing but the wall, and a release without a drag.
pub proof fn clicking_a_tile_opens_it(s: State, under: Seq<Region>, picked: Option<usize>, now: u64)
    requires
        s.lightbox.focus is None,
        picked is Some,
        press_meaning(s, 0, None, under) is Scroll,
    ensures
        ({
            let pressed = State {
                flags: pressed_flags(touched_state(s, false, now).flags, Press::Scroll, now),
                ..s
            };
            &&& is_click(pressed.flags)
            &&& released_focus(pressed, under, picked) == picked
            &&& released_effects(pressed, under, picked, false) == seq![Effect::ResetLightbox]
        }),
{
}

/// A drag opens nothing: once the pointer has moved far enough, the release is no click.
pub proof fn dragging_opens_nothing(
    s: State,
    under: Seq<Region>,
    picked: Option<usize>,
    seek: Frac,
    now: u64,
)
    requires
        s.flags.drag_mode is Scroll,
    ensures
        ({
            let moved = State { flags: moved_flags(s.flags, seek, true, now), ..s };
            &&& !is_click(moved.flags)
            &&& released_focus(moved, under, picked) == s.lightbox.focus
            &&& released_effects(moved, under, picked, true) == Seq::<Effect>::empty()
        }),
{
}

/// A left press on an open video, away from its controls and the arrows, pauses it and never
/// closes it.
pub proof fn clicking_a_video_pauses_it(
    s: State,
    under: Seq<Region>,
    picked: Option<usize>,
    now: u64,
)
    requires
        s.video_is_open(),
        !under.contains(Region::ArrowPrev),
        !under.contains(Region::ArrowNext),
    ensures
        press_meaning(s, 0, None, under) is TogglePause,
        ({
            let pressed = State { flags: pressed_flags(s.flags, Press::TogglePause, now), ..s };
            &&& pressed_focus(s, Press::TogglePause) == s.lightbox.focus
            &&& released_focus(pressed, under, picked) == s.lightbox.focus
        }),
{
}

/// A release ends every drag: nothing is held afterwards, and an arrow no longer scrolls the wall.
pub proof fn releases_end_drags(g: Flags)
    ensures
        released_flags(g).drag_mode is Idle,
        !released_flags(g).wall_scroll_held,
        g.wall_scroll_held ==> released_flags(g).input_dir == 0,
{
}

/// What was decoded for an earlier displayed part of the library changes nothing that shows: no
/// full picture, no open animation, and no animated tile.
pub proof fn stale_answers_change_nothing(
    lb: Lightbox,
    res: Finished,
    v: OpenGifView,
    msg: GifMsg,
    focus: Option<usize>,
    before: Wall,
    after: Wall,
    wall_msg: WallGifMsg,
    now: u64,
    layer: Option<u32>,
)
    requires
        res.gen != before.generation,
        msg.gen != before.generation,
        wall_msg.gen != before.generation,
        delivers(before, after, wall_msg, now, layer),
    ensures
        !shows_full(lb, res, before.generation),
        took_full(lb, res, before.generation).full_for == lb.full_for,
        delivered(v, msg, before.generation, focus).anim == v.anim,
        layer is None,
        after.gifs@.anims == before.gifs@.anims,
        after.gifs@.cursors == before.gifs@.cursors,
{
}

/// A full picture only ever shows for the open item, and is dropped once nothing is open.
pub proof fn full_pictures_are_of_the_open_item(
    w: Wall,
    gif_anim: bool,
    lb: Lightbox,
    res: Finished,
    gen: u64,
)
    ensures
        shows_full(lb, res, gen) ==> lb.focus == Some(res.index),
        lb.focus is None ==> full_asked(w, gif_anim, lb).full_for is None && full_asked(
            w,
            gif_anim,
            lb,
        ).full_pending is None,
{
}

/// A player only ever starts for the open item, and only where that item has something to play.
pub proof fn players_start_for_the_open_item(s: State)
    requires
        s.wf(),
    ensures
        player_step(s) matches PlayerStep::Start(i) ==> s.lightbox.focus == Some(i) && is_playable(
            s.wall,
            i as int,
        ),
        s.lightbox.focus is None ==> !(player_step(s) is Start),
{
}

/// After every frame enough layers are free for the uploads of the next one.
pub proof fn frames_leave_room(
    s: State,
    inbox: Seq<Finished>,
    scroll_col: i64,
    out: Stream,
    after: PoolView,
    kept: PoolView,
)
    requires
        s.wf(),
        s.streams(inbox, scroll_col, out, after, kept),
        i64::MIN + 16 <= scroll_col <= i64::MAX - 16,
    ensures
        after.ready().len() <= resting_limit(),
{
    let taken = inbox.take(out.outcomes@.len() as int);
    let window = s.window_of(scroll_col);
    let focus = s.lightbox.focus;
    let total = s.wall.shown@.len() as usize;
    let drained = settled_all(s.wall.pool@, taken, s.wall.generation, window, focus);
    settling_all_keeps_wf(
        s.wall.pool@,
        taken,
        s.wall.generation,
        window,
        focus,
    );
    evicting_bounds_layers(drained, kept, window, focus);
    evicting_keeps_wf(drained, kept, window, focus);
    let asked = focus_asked(kept, focus, total);
    if focus_loads(kept, focus, total) {
        asking_keeps_wf(kept, focus->0);
    }
    loading_keeps_ready(
        asked,
        load_order(window, s.center_of(scroll_col)),
        total,
    );
}

/// What is loaded stays bounded, however large the library is: after every frame each decoded tile
/// lies within sixteen columns of the centre, so that there are at most ninety-nine of them, and
/// the open item is loaded or on its way. The decodes in flight stay within the throttle, which
/// only an open item goes past.
pub proof fn frames_keep_what_is_loaded_bounded(
    before: State,
    after: State,
    gif_before: OpenGifView,
    gif_after: OpenGifView,
    input: FrameIn,
    out: FrameOut,
    s1: State,
    s2: State,
    s3: State,
)
    requires
        before.wf(),
        input.wf(),
        is_frame(before, after, gif_before, gif_after, input, out, s1, s2, s3),
    ensures
        ({
            let (p, q) = (before.wall.pool@, after.wall.pool@);
            let center = before.center_of(input.scroll_col);
            let within = max_int(p.inflight as int, MAX_INFLIGHT as int);
            &&& forall|i: usize| #[trigger]
                decoded_tiles(q).contains(i) ==> center - KEEP_COLS <= col_of(i) <= center
                    + KEEP_COLS
            &&& decoded_tiles(q).finite()
            &&& decoded_tiles(q).len() <= 99
            &&& before.lightbox.focus matches Some(f) ==> q.tiles.contains_key(f)
            &&& before.lightbox.focus is None ==> q.inflight <= within
            &&& q.inflight <= within + 1
        }),
{
    let kept = choose|kept: PoolView| #[trigger]
        is_streamed(before, s1, input, out.stream, kept);
    let p = before.wall.pool@;
    let q = after.wall.pool@;
    let taken = input.inbox@.take(out.stream.outcomes@.len() as int);
    let window = before.window_of(input.scroll_col);
    let focus = before.lightbox.focus;
    let gen = before.wall.generation;
    let total = before.wall.shown@.len() as usize;
    let drained = settled_all(p, taken, gen, window, focus);
    assert(q == s1.wall.pool@);
    settling_all_keeps_wf(p, taken, gen, window, focus);
    settling_never_adds_decodes(p, taken, gen, window, focus);
    evicting_keeps_wf(drained, kept, window, focus);
    let wanted = focus_asked(kept, focus, total);
    let order = load_order(window, before.center_of(input.scroll_col));
    loading_keeps_decoded(wanted, order, total);
    lemma_loaded_keeps(wanted, order, total);
    assert(decoded_tiles(wanted) =~= decoded_tiles(kept));
    assert forall|i: usize| #[trigger] decoded_tiles(q).contains(i) implies in_cols(window, i) by {
        assert(decoded_tiles(kept).contains(i));
        assert(kept.tiles.contains_key(i));
        assert(!evictable(drained, i, window, focus));
        if focus == Some(i) {
            assert(col_of(i) < cols_for(total as int));
        }
    }
    windows_are_small(decoded_tiles(q), window);
    match focus {
        Some(f) => {
            assert(wanted.tiles.contains_key(f));
            assert(q.tiles.contains_key(f));
        },
        None => {},
    }
}

/// Uploads never lack a layer, frame after frame.
pub proof fn uploads_never_lack_a_layer(
    s: State,
    inbox: Seq<Finished>,
    scroll_col: i64,
    out: Stream,
    after: PoolView,
    kept: PoolView,
    k: int,
)
    requires
        s.wf(),
        s.wall.pool@.ready().len() <= resting_limit(),
        s.streams(inbox, scroll_col, out, after, kept),
        0 <= k < out.outcomes@.len(),
    ensures
        out.outcomes@[k] !is NoLayer,
{
    layers_never_run_out(
        s.wall.pool@,
        inbox,
        k,
        s.wall.generation,
        s.window_of(scroll_col),
        s.lightbox.focus,
    );
}

/// A relation in which no two places stand before each other.
pub open spec fn one_way(lt: spec_fn(int, int) -> bool) -> bool {
    forall|i: int, j: int| #[trigger] lt(i, j) ==> !lt(j, i)
}

/// An order along a relation that goes one way is the only one: two of them agree at every place.
proof fn lemma_one_order(
    lt: spec_fn(int, int) -> bool,
    n: int,
    p: Seq<usize>,
    q: Seq<usize>,
    at: int,
)
    requires
        one_way(lt),
        0 <= n <= usize::MAX,
        holds_range(p, 0, n),
        holds_range(q, 0, n),
        forall|a: int, b: int|
            0 <= a < b < n ==> lt(#[trigger] p[a] as int, #[trigger] p[b] as int),
        forall|a: int, b: int|
            0 <= a < b < n ==> lt(#[trigger] q[a] as int, #[trigger] q[b] as int),
        0 <= at < n,
    ensures
        p[at] == q[at],
    decreases at,
{
    assert forall|k: int| 0 <= k < at implies p[k] == q[k] by {
        lemma_one_order(lt, n, p, q, k);
    }
    if p[at] != q[at] {
        assert(q.contains((p[at] as int) as usize));
        let j = q.index_of(p[at]);
        assert(j >= at) by {
            if j < at {
                assert(p[j] == q[j]);
                assert(lt(p[j] as int, p[at] as int));
                assert(lt(p[at] as int, p[at] as int));
            }
        }
        assert(p.contains((q[at] as int) as usize));
        let i = p.index_of(q[at]);
        assert(i >= at) by {
            if i < at {
                assert(p[i] == q[i]);
                assert(lt(q[i] as int, q[at] as int));
                assert(lt(q[at] as int, q[at] as int));
            }
        }
        assert(lt(p[at] as int, p[i] as int));
        assert(lt(q[at] as int, q[j] as int));
    }
}

/// The order of words is unique.
proof fn lemma_one_rank_order(words: Seq<Seq<u32>>, p: Seq<usize>, q: Seq<usize>)
    requires
        words.len() <= usize::MAX,
        is_rank_order(words, p),
        is_rank_order(words, q),
    ensures
        p == q,
{
    let lt = |i: int, j: int| rank_before(words, i, j);
    assert(one_way(lt));
    assert forall|k: int| 0 <= k < p.len() implies p[k] == q[k] by {
        assert forall|a: int, b: int| 0 <= a < b < words.len() implies lt(
            #[trigger] p[a] as int,
            #[trigger] p[b] as int,
        ) by {}
        assert forall|a: int, b: int| 0 <= a < b < words.len() implies lt(
            #[trigger] q[a] as int,
            #[trigger] q[b] as int,
        ) by {}
        lemma_one_order(lt, words.len() as int, p, q, k);
    }
    assert(p =~= q);
}

/// The order of times is unique.
proof fn lemma_one_time_order(times: Seq<Option<FileTime>>, p: Seq<usize>, q: Seq<usize>)
    requires
        times.len() <= usize::MAX,
        is_time_order(times, p),
        is_time_order(times, q),
    ensures
        p == q,
{
    let lt = |i: int, j: int| time_before(times, i, j);
    assert(one_way(lt));
    assert forall|k: int| 0 <= k < p.len() implies p[k] == q[k] by {
        assert forall|a: int, b: int| 0 <= a < b < times.len() implies lt(
            #[trigger] p[a] as int,
            #[trigger] p[b] as int,
        ) by {}
        assert forall|a: int, b: int| 0 <= a < b < times.len() implies lt(
            #[trigger] q[a] as int,
            #[trigger] q[b] as int,
        ) by {}
        lemma_one_order(lt, times.len() as int, p, q, k);
    }
    assert(p =~= q);
}

/// A query shows the same of a library every time.
pub proof fn views_are_unique(
    sources: Seq<SourceView>,
    times: Seq<FileTimes>,
    q: Query,
    a: Seq<usize>,
    b: Seq<usize>,
)
    requires
        sources.len() <= usize::MAX,
        is_view(sources, times, q, a),
        is_view(sources, times, q, b),
    ensures
        a == b,
{
    let all = kept(sources, times, q, sources.len());
    kept_is_ascending(sources, times, q, sources.len());
    match q.sort {
        SortMode::Default => {},
        SortMode::NameAsc | SortMode::NameDesc => {
            let words = name_words(sources, all);
            let x = choose|order: Seq<usize>| #[trigger]
                is_rank_order(words, order) && a == directed(all, order, descending(q.sort));
            let y = choose|order: Seq<usize>| #[trigger]
                is_rank_order(words, order) && b == directed(all, order, descending(q.sort));
            lemma_one_rank_order(words, x, y);
        },
        _ => {
            let stamps = sort_times(sources, times, all, by_created(q.sort));
            let x = choose|order: Seq<usize>| #[trigger]
                is_time_order(stamps, order) && a == directed(all, order, descending(q.sort));
            let y = choose|order: Seq<usize>| #[trigger]
                is_time_order(stamps, order) && b == directed(all, order, descending(q.sort));
            lemma_one_time_order(stamps, x, y);
        },
    }
}

/// The sort order that goes the other way; the loaded order has none.
pub open spec fn opposite(sort: SortMode) -> SortMode {
    match sort {
        SortMode::Default => SortMode::Default,
        SortMode::NameAsc => SortMode::NameDesc,
        SortMode::NameDesc => SortMode::NameAsc,
        SortMode::ModifiedNew => SortMode::ModifiedOld,
        SortMode::ModifiedOld => SortMode::ModifiedNew,
        SortMode::CreatedNew => SortMode::CreatedOld,
        SortMode::CreatedOld => SortMode::CreatedNew,
    }
}

/// The opposite sort order shows the same back to front.
pub proof fn opposite_orders_mirror_each_other(
    sources: Seq<SourceView>,
    times: Seq<FileTimes>,
    q: Query,
    r: Query,
    a: Seq<usize>,
    b: Seq<usize>,
)
    requires
        sources.len() <= usize::MAX,
        q.sort !is Default,
        r == (Query { sort: opposite(q.sort), ..q }),
        is_view(sources, times, q, a),
        is_view(sources, times, r, b),
    ensures
        b == a.reverse(),
{
    let all = kept(sources, times, q, sources.len());
    kept_is_ascending(sources, times, q, sources.len());
    kept_ignores_sort(sources, times, q, r, sources.len());
    match q.sort {
        SortMode::NameAsc | SortMode::NameDesc => {
            let words = name_words(sources, all);
            let x = choose|order: Seq<usize>| #[trigger]
                is_rank_order(words, order) && a == directed(all, order, descending(q.sort));
            let y = choose|order: Seq<usize>| #[trigger]
                is_rank_order(words, order) && b == directed(all, order, descending(r.sort));
            lemma_one_rank_order(words, x, y);
            assert(b =~= a.reverse());
        },
        _ => {
            let stamps = sort_times(sources, times, all, by_created(q.sort));
            let x = choose|order: Seq<usize>| #[trigger]
                is_time_order(stamps, order) && a == directed(all, order, descending(q.sort));
            let y = choose|order: Seq<usize>| #[trigger]
                is_time_order(stamps, order) && b == directed(all, order, descending(r.sort));
            lemma_one_time_order(stamps, x, y);
            assert(b =~= a.reverse());
        },
    }
}

/// The default order keeps the order in which the library was loaded, whatever is filtered.
pub proof fn default_order_is_as_loaded(
    sources: Seq<SourceView>,
    times: Seq<FileTimes>,
    q: Query,
    shown: Seq<usize>,
)
    requires
        sources.len() <= usize::MAX,
        q.sort is Default,
        is_view(sources, times, q, shown),
    ensures
        increasing(shown),
{
    kept_is_ascending(sources, times, q, sources.len());
}

proof fn lemma_path_rank_front(parts: Seq<(u8, Seq<u8>)>)
    requires
        parts.len() > 0,
    ensures
        path_rank(parts) == part_rank(parts[0]) + path_rank(parts.drop_first()),
    decreases parts.len(),
{
    if parts.len() == 1 {
        assert(parts.drop_last() =~= seq![]);
        assert(parts.drop_first() =~= seq![]);
        reveal_with_fuel(path_rank, 2);
        assert(path_rank(parts) =~= part_rank(parts[0]) + path_rank(parts.drop_first()));
    } else {
        let front = parts.drop_last();
        lemma_path_rank_front(front);
        assert(front.drop_first() =~= parts.drop_first().drop_last());
        assert(front[0] == parts[0]);
        assert(path_rank(parts) =~= part_rank(parts[0]) + (path_rank(front.drop_first())
            + part_rank(parts.last())));
    }
}

/// Two paths with one word have the same components, so that equal words mean equal paths.
pub proof fn path_words_are_unique(a: Seq<(u8, Seq<u8>)>, b: Seq<(u8, Seq<u8>)>)
    requires
        path_rank(a) == path_rank(b),
    ensures
        a == b,
    decreases a.len(),
{
    if a.len() > 0 {
        lemma_path_rank_front(a);
    }
    if b.len() > 0 {
        lemma_path_rank_front(b);
    }
    let word = path_rank(a);
    if a.len() == 0 || b.len() == 0 {
        assert(a =~= b);
    } else {
        let (x, y) = (part_rank(a[0]), part_rank(b[0]));
        let (la, lb) = (a[0].1.len() as int, b[0].1.len() as int);
        assert(word[0] == x[0] && word[0] == y[0]);
        assert forall|k: int| 0 <= k < la implies #[trigger] word[1 + k] == a[0].1[k] + 1 by {
            assert(word[1 + k] == x[1 + k]);
        }
        assert forall|k: int| 0 <= k < lb implies #[trigger] word[1 + k] == b[0].1[k] + 1 by {
            assert(word[1 + k] == y[1 + k]);
        }
        assert(word[1 + la] == x[1 + la] == 0);
        assert(word[1 + lb] == y[1 + lb] == 0);
        if la < lb {
            assert(word[1 + la] == b[0].1[la] + 1);
        }
        if lb < la {
            assert(word[1 + lb] == a[0].1[lb] + 1);
        }
        assert(la == lb);
        assert forall|k: int| 0 <= k < la implies a[0].1[k] == b[0].1[k] by {
            assert(word[1 + k] == a[0].1[k] + 1);
            assert(word[1 + k] == b[0].1[k] + 1);
        }
        assert(a[0].1 =~= b[0].1);
        assert(x == y);
        assert(path_rank(a.drop_first()) =~= word.skip(x.len() as int));
        assert(path_rank(b.drop_first()) =~= word.skip(y.len() as int));
        path_words_are_unique(a.drop_first(), b.drop_first());
        assert(a =~= seq![a[0]] + a.drop_first());
        assert(b =~= seq![b[0]] + b.drop_first());
    }
}

/// Whether a name comes no later than another one: the first byte in which they differ decides,
/// and a name comes before its continuations.
pub open spec fn name_le(a: Seq<u8>, b: Seq<u8>) -> bool
    decreases a.len(),
{
    if a.len() == 0 {
        true
    } else if b.len() == 0 {
        false
    } else if a[0] != b[0] {
        a[0] < b[0]
    } else {
        name_le(a.drop_first(), b.drop_first())
    }
}

/// Whether a path comes no later than another one: the first component in which they differ
/// decides, by its kind and then by its name, and a folder comes before what is in it.
pub open spec fn parts_le(a: Seq<(u8, Seq<u8>)>, b: Seq<(u8, Seq<u8>)>) -> bool
    decreases a.len(),
{
    if a.len() == 0 {
        true
    } else if b.len() == 0 {
        false
    } else if a[0] != b[0] {
        a[0].0 < b[0].0 || a[0].0 == b[0].0 && name_le(a[0].1, b[0].1)
    } else {
        parts_le(a.drop_first(), b.drop_first())
    }
}

/// A common beginning does not count.
proof fn lemma_lex_prefix(p: Seq<u32>, s: Seq<u32>, t: Seq<u32>)
    ensures
        lex_le(p + s, p + t) == lex_le(s, t),
    decreases p.len(),
{
    if p.len() == 0 {
        assert(p + s =~= s);
        assert(p + t =~= t);
    } else {
        lemma_lex_prefix(p.drop_first(), s, t);
        assert((p + s).drop_first() =~= p.drop_first() + s);
        assert((p + t).drop_first() =~= p.drop_first() + t);
    }
}

/// A name as the word of its component has it: with an end mark below any byte.
spec fn marked(name: Seq<u8>) -> Seq<u32> {
    name.map_values(|b: u8| (b + 1) as u32) + seq![0u32]
}

/// Where two names differ, what follows them does not count.
proof fn lemma_names_decide(a: Seq<u8>, b: Seq<u8>, s: Seq<u32>, t: Seq<u32>)
    requires
        a != b,
    ensures
        lex_le(marked(a) + s, marked(b) + t) == name_le(a, b),
    decreases a.len(),
{
    let (x, y) = (marked(a) + s, marked(b) + t);
    if a.len() == 0 {
        assert(b.len() > 0) by {
            if b.len() == 0 {
                assert(a =~= b);
            }
        }
        assert(x[0] == 0 && y[0] == b[0] + 1);
    } else if b.len() == 0 {
        assert(x[0] == a[0] + 1 && y[0] == 0);
    } else {
        assert(x[0] == a[0] + 1 && y[0] == b[0] + 1);
        if a[0] == b[0] {
            let (c, d) = (a.drop_first(), b.drop_first());
            if c == d {
                assert(a =~= seq![a[0]] + c);
                assert(b =~= seq![b[0]] + d);
            }
            lemma_names_decide(c, d, s, t);
            assert(x.drop_first() =~= marked(c) + s);
            assert(y.drop_first() =~= marked(d) + t);
        }
    }
}

/// To order paths by their words is to order them component by component.
pub proof fn path_words_order_paths(a: Seq<(u8, Seq<u8>)>, b: Seq<(u8, Seq<u8>)>)
    ensures
        lex_le(path_rank(a), path_rank(b)) == parts_le(a, b),
    decreases a.len(),
{
    if a.len() > 0 {
        lemma_path_rank_front(a);
    }
    if b.len() > 0 {
        lemma_path_rank_front(b);
    }
    if a.len() > 0 && b.len() > 0 {
        let (s, t) = (path_rank(a.drop_first()), path_rank(b.drop_first()));
        let (x, y) = (path_rank(a), path_rank(b));
        if a[0] == b[0] {
            path_words_order_paths(a.drop_first(), b.drop_first());
            lemma_lex_prefix(part_rank(a[0]), s, t);
        } else {
            assert(x[0] == a[0].0 && y[0] == b[0].0);
            if a[0].0 == b[0].0 {
                lemma_names_decide(a[0].1, b[0].1, s, t);
                assert(x.drop_first() =~= marked(a[0].1) + s);
                assert(y.drop_first() =~= marked(b[0].1) + t);
            }
        }
    }
}

/// Backspace undoes what one typed character did to the field that takes it.
pub proof fn backspace_undoes_a_typed_character(f: FieldsView, field: Field, c: char)
    requires
        f.target() == Some(field),
        f.caret <= f.text(field).len() < usize::MAX,
        typeable(c, field !is Search),
        field !is Search ==> f.text(field).len() < DATE_LEN,
    ensures
        edited_fields(
            edited_fields(f, EditKey::Other, Some(seq![c])),
            EditKey::Backspace,
            None,
        ) == f,
{
    backspace_undoes_typing(f.text(field), f.caret as int, c, field !is Search);
    let typed = typed_fields(f, seq![c]);
    assert(typed.text(field).remove(f.caret as int) == f.text(field));
    assert(edited_fields(typed, EditKey::Backspace, None) =~= f);
}

} // verus!
