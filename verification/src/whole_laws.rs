//! What holds of whole frames, presses and reports, from what goes in to what comes out.

use crate::action_laws::{
    actions_do_what_they_say, actions_leave_the_fields_in_order, fields_follow, menus_follow,
    settings_follow,
};
use crate::components::{hit, over_ui, Pointer, Region, UiAction, UiCtx};
use crate::frame::{is_frame, is_streamed, FrameIn, FrameOut, OpenGifView, PlayerStep};
use crate::frame_laws::{is_due, paints, the_window_is_painted};
use crate::input::{edited_fields, loaded_from, EditKey, LoadView};
use crate::media::gathered;
use crate::media_laws::{names_media, no_media_is_lost};
use crate::paths::parent_bytes;
use crate::pointer::{down_press, moved_hover};
use crate::pool::{
    empty_pool, focus_asked, jobs_of, load_order, loaded, settled_all, settled_pool, Finished,
    PoolView, Tile, Window,
};
use crate::state::{acted_effects, acted_focus, DragMode, Effect, State};
use crate::status::{frames_of, Outside};
use crate::stream_laws::{
    columns_away, frames_upload_at_most_ten, is_missing, lemma_jobs, lemma_order_is_near,
    nearest_first, nearest_tiles_are_asked_for_first, uploads_among, windows_reach_sixteen_columns,
};
use crate::wall::{Look, WallGif};
use vstd::prelude::*;

verus! {

/// The window of a frame is at most thirty-three columns, and lies within the wall.
proof fn lemma_window(s: State, scroll_col: i64)
    requires
        s.wf(),
        i64::MIN + 16 <= scroll_col <= i64::MAX - 16,
    ensures
        ({
            let w = s.window_of(scroll_col);
            0 <= w.first && w.last - w.first <= 32 && w.last < (s.wall.shown@.len() + 2) / 3
        }),
{
}

/// A whole frame loads what is near and keeps what is open: at most ten thumbnails are uploaded;
/// the tiles that it asks for are of the library, at most sixteen columns from the centre, nearest
/// first, and wait for their decode then; and a tile that near stays unasked for only while
/// thirty-two decodes are in flight. Nothing that is open, chosen or typed changes.
pub proof fn frames_load_what_is_near(
    before: State,
    after: State,
    gif_before: OpenGifView,
    gif_after: OpenGifView,
    input: FrameIn,
    out: FrameOut,
    s1: State,
    s2: State,
    s3: State,
)
    requires
        before.wf(),
        input.wf(),
        is_frame(before, after, gif_before, gif_after, input, out, s1, s2, s3),
    ensures
        ({
            let jobs = out.stream.jobs@;
            let q = after.wall.pool@;
            let total = before.wall.shown@.len();
            let center = match before.lightbox.focus {
                Some(f) => f as int / 3,
                None => input.scroll_col as int,
            };
            &&& uploads_among(out.stream.outcomes@) <= 10
            &&& nearest_first(jobs, center)
            &&& forall|k: int|
                0 <= k < jobs.len() ==> (#[trigger] jobs[k]) < total && columns_away(
                    jobs[k],
                    center,
                ) <= 16 && q.tiles.contains_key(jobs[k]) && q.tiles[jobs[k]] == Tile::Loading
            &&& forall|i: usize|
                i < total && columns_away(i, center) <= 16 ==> #[trigger] q.tiles.contains_key(i)
                    || q.inflight >= 32
            &&& after.wall.all == before.wall.all && after.wall.shown == before.wall.shown
            &&& after.wall.generation == before.wall.generation && after.wall.folder
                == before.wall.folder
            &&& after.lightbox.focus == before.lightbox.focus && after.lightbox.hover
                == before.lightbox.hover
            &&& after.fields == before.fields
            &&& settings_follow(before.flags, after.flags, UiAction::Noop)
            &&& after.flags.open_menu == before.flags.open_menu && after.flags.view_dirty
                == before.flags.view_dirty
        }),
{
    let kept = choose|kept: PoolView| #[trigger]
        is_streamed(before, s1, input, out.stream, kept);
    let total = before.wall.shown@.len() as usize;
    let window = before.window_of(input.scroll_col);
    let center = before.center_of(input.scroll_col);
    let focus = before.lightbox.focus;
    let wanted = focus_asked(kept, focus, total);
    let order = load_order(window, center);
    let jobs = out.stream.jobs@;
    let q = after.wall.pool@;
    lemma_window(before, input.scroll_col);
    frames_upload_at_most_ten(
        before.wall.pool@,
        input.inbox@,
        before.wall.generation,
        window,
        focus,
        out.stream.outcomes@,
    );
    nearest_tiles_are_asked_for_first(wanted, window, center, total, jobs);
    lemma_order_is_near(window, center, 16, total);
    lemma_jobs(wanted, order, total, center);
    lemma_fulls_keep_the_rest(
        before.lightbox,
        input.inbox@.take(out.stream.outcomes@.len() as int),
        before.wall.generation,
    );
    assert(q == loaded(wanted, order, total));
    lemma_asked_wait(wanted, order, total);
    assert forall|k: int| 0 <= k < jobs.len() implies (#[trigger] jobs[k]) < total && columns_away(
        jobs[k],
        center,
    ) <= 16 && q.tiles.contains_key(jobs[k]) && q.tiles[jobs[k]] == Tile::Loading by {
        assert(is_missing(wanted, window, center, total, jobs[k]));
        assert(jobs.contains(jobs[k]));
    }
    assert forall|i: usize| i < total && columns_away(i, center) <= 16 implies (
    #[trigger] q.tiles.contains_key(i)) || q.inflight >= 32 by {
        windows_reach_sixteen_columns(before, input.scroll_col, i as int / 3);
        if !q.tiles.contains_key(i) {
            assert(is_missing(wanted, window, center, total, i));
        }
    }
}

proof fn lemma_asked_wait(p: PoolView, order: Seq<usize>, total: usize)
    ensures
        forall|i: usize| #[trigger]
            jobs_of(p, order, total).contains(i) ==> loaded(p, order, total).tiles.contains_key(i)
                && loaded(p, order, total).tiles[i] == Tile::Loading,
    decreases order.len(),
{
    if order.len() > 0 {
        let rest = order.drop_last();
        lemma_asked_wait(p, rest, total);
        let before = jobs_of(p, rest, total);
        let jobs = jobs_of(p, order, total);
        assert forall|i: usize| #[trigger] jobs.contains(i) implies loaded(
            p,
            order,
            total,
        ).tiles.contains_key(i) && loaded(p, order, total).tiles[i] == Tile::Loading by {
            let k = jobs.index_of(i);
            if k < before.len() {
                assert(before[k] == i);
                assert(before.contains(i));
            }
        }
    }
}

/// A whole frame paints what it leaves: each instance shows a tile of the wall, at most sixteen
/// columns from the centre, as it is loaded and animated at the end of the frame; and each such
/// tile has an instance for each look that it is due.
pub proof fn frames_paint_what_they_leave(
    before: State,
    after: State,
    gif_before: OpenGifView,
    gif_after: OpenGifView,
    input: FrameIn,
    out: FrameOut,
    s1: State,
    s2: State,
    s3: State,
)
    requires
        before.wf(),
        input.wf(),
        is_frame(before, after, gif_before, gif_after, input, out, s1, s2, s3),
    ensures
        ({
            let xs = out.end.instances@;
            let p = after.wall.pool@;
            let total = before.wall.shown@.len();
            let center = match before.lightbox.focus {
                Some(f) => f as int / 3,
                None => input.scroll_col as int,
            };
            let (mirrors, hover) = (after.flags.reflections, after.lightbox.hover);
            &&& forall|k: int|
                0 <= k < xs.len() ==> paints(
                    p,
                    after.wall.gifs@.cursors,
                    mirrors,
                    hover,
                    #[trigger] xs[k],
                ) && xs[k].index < total && columns_away(xs[k].index, center) <= 16
            &&& forall|i: usize, look: Look|
                #![trigger is_due(p, mirrors, hover, i, look)]
                i < total && columns_away(i, center) <= 16 && is_due(p, mirrors, hover, i, look)
                    ==> exists|k: int|
                    0 <= k < xs.len() && (#[trigger] xs[k]).index == i && xs[k].look == look
            &&& out.end.trim <==> before.wall.prev_inflight > 0 && p.inflight == 0
        }),
{
    let total = before.wall.shown@.len() as usize;
    let window = before.window_of(input.scroll_col);
    let center = before.center_of(input.scroll_col);
    let xs = out.end.instances@;
    let p = after.wall.pool@;
    let cursors = after.wall.gifs@.cursors;
    lemma_window(before, input.scroll_col);
    the_window_is_painted(
        p,
        cursors,
        window,
        total,
        after.flags.reflections,
        after.lightbox.hover,
        xs,
    );
    assert forall|k: int| 0 <= k < xs.len() implies columns_away(
        (#[trigger] xs[k]).index,
        center,
    ) <= 16 by {
        windows_reach_sixteen_columns(before, input.scroll_col, xs[k].index as int / 3);
    }
    assert forall|i: usize, look: Look|
        #![trigger is_due(p, after.flags.reflections, after.lightbox.hover, i, look)]
        i < total && columns_away(i, center) <= 16 && is_due(
            p,
            after.flags.reflections,
            after.lightbox.hover,
            i,
            look,
        ) implies exists|k: int|
        0 <= k < xs.len() && (#[trigger] xs[k]).index == i && xs[k].look == look by {
        windows_reach_sixteen_columns(before, input.scroll_col, i as int / 3);
    }
}

/// A whole frame matches the player with the open item: it ends where another item is open than
/// before, and starts only for the open item.
pub proof fn frames_match_the_player(
    before: State,
    after: State,
    gif_before: OpenGifView,
    gif_after: OpenGifView,
    input: FrameIn,
    out: FrameOut,
    s1: State,
    s2: State,
    s3: State,
)
    requires
        before.wf(),
        is_frame(before, after, gif_before, gif_after, input, out, s1, s2, s3),
    ensures
        out.player == PlayerStep::Stop <==> before.lightbox.focus != before.lightbox.video_for,
        out.player matches PlayerStep::Start(i) ==> before.lightbox.focus == Some(i)
            && before.lightbox.video_pending == Some(i),
        after.lightbox.video_for == before.lightbox.focus,
{
    let kept = choose|kept: PoolView| #[trigger]
        is_streamed(before, s1, input, out.stream, kept);
    lemma_fulls_keep_the_rest(
        before.lightbox,
        input.inbox@.take(out.stream.outcomes@.len() as int),
        before.wall.generation,
    );
}

proof fn lemma_fulls_keep_the_rest(
    lb: crate::state::Lightbox,
    inbox: Seq<Finished>,
    gen: u64,
)
    ensures
        ({
            let h = crate::frame::took_fulls(lb, inbox, gen);
            h.focus == lb.focus && h.hover == lb.hover && h.video_for == lb.video_for
                && h.video_pending == lb.video_pending
        }),
    decreases inbox.len(),
{
    if inbox.len() > 0 {
        lemma_fulls_keep_the_rest(lb, inbox.drop_last(), gen);
    }
}

/// What the interface is given is what the state holds.
pub proof fn the_interface_sees_the_state(s: State, out: Outside, c: UiCtx)
    requires
        s.is_ctx(out, c),
    ensures
        c.sort == s.flags.sort_mode && c.filter == s.flags.filter_kind,
        c.menu == s.flags.open_menu && c.slideshow == s.flags.slideshow,
        c.search@ == s.fields@.search && c.search_active == s.fields@.search_active,
        c.date_from@ == s.fields@.date_from && c.date_to@ == s.fields@.date_to,
        c.date_active == s.fields@.date_active && c.caret == s.fields@.caret,
        c.date_created == s.flags.date_created,
        c.gif_anim == s.flags.gif_anim && c.reflections == s.flags.reflections,
        c.show_titles == s.flags.show_titles && c.show_mem == s.flags.show_mem && c.show_info
            == s.flags.show_info,
        c.mem_mb is Some ==> s.flags.show_mem && c.mem_mb == out.mem_mb,
        s.flags.show_mem ==> c.mem_mb == out.mem_mb,
        c.total == s.wall.shown@.len() && c.inflight == s.wall.pool@.inflight,
        c.ready == s.wall.pool@.ready().len(),
        c.focused <==> s.lightbox.focus is Some,
        c.fullscreen == out.fullscreen && c.caret_on == s.caret_shows(out.now),
        c.video is Some <==> out.player is Some && !s.is_starting(out.player),
        c.video matches Some(v) ==> {
            let p = out.player->0;
            &&& v.pos == p.pos && v.dur == p.dur && v.paused == p.paused && v.timed == p.timed
            &&& v.aid == p.aid && v.sid == p.sid && v.hover_time == p.hover_time
            &&& v.visible == s.shows_controls(out.player, out.now)
            &&& v.track_menu == s.flags.track_menu
        },
{
}

/// The pointer is over the interface on the strip along the top, where an open menu takes its
/// click, and on the bar of visible controls; then no tile is hovered, nor while a button is held
/// or an item is open.
pub proof fn tiles_are_hovered_on_the_bare_wall(
    s: State,
    c: UiCtx,
    p: Pointer,
    picked: Option<usize>,
)
    ensures
        over_ui(c, p) <==> p.under@.contains(Region::TopStrip) || c.menu is Some && hit(c, p)
            is Some || c.video is Some && c.video->0.visible && p.under@.contains(
            Region::BelowVideoBar,
        ),
        s.flags.drag_mode == DragMode::Idle && s.lightbox.focus is None && !over_ui(c, p)
            ==> moved_hover(s, c, p, picked) == picked,
        s.flags.drag_mode != DragMode::Idle || s.lightbox.focus is Some || over_ui(c, p)
            ==> moved_hover(s, c, p, picked) is None,
{
}

/// A left press on the interface does what the click there means; the other buttons do not reach
/// the interface.
pub proof fn left_presses_reach_the_interface(
    s: State,
    t: State,
    c: UiCtx,
    button: u8,
    p: Pointer,
    a: UiAction,
    now: u64,
    effects: Seq<Effect>,
)
    requires
        t.pressed_from(s, down_press(s, c, button, p), p.caret, now, effects),
        hit(c, p) == Some(a),
        !(a is VideoSeekFrac),
    ensures
        button == 0 ==> {
            &&& settings_follow(s.flags, t.flags, a)
            &&& menus_follow(s.flags, t.flags, a)
            &&& fields_follow(s.fields@, t.fields@, a, p.caret)
            &&& t.lightbox.focus == acted_focus(s, a)
            &&& effects == acted_effects(s, a)
        },
        button != 0 ==> settings_follow(s.flags, t.flags, UiAction::Noop),
        t.wall == s.wall,
        t.lightbox.hover == s.lightbox.hover,
{
    actions_do_what_they_say(s.flags, a, now);
    actions_leave_the_fields_in_order(s.fields@, a, p.caret);
}

/// A key that edits a field changes nothing but the fields and that a new view may be asked for.
pub proof fn edits_change_the_fields_alone(
    s: State,
    t: State,
    key: EditKey,
    text: Option<Seq<char>>,
    now: u64,
)
    requires
        t.edited_from(s, key, text, now),
    ensures
        t.fields@ == edited_fields(s.fields@, key, text),
        settings_follow(s.flags, t.flags, UiAction::Noop),
        menus_follow(s.flags, t.flags, UiAction::Noop),
        t.lightbox == s.lightbox,
        t.wall == s.wall,
{
}

/// Media that were picked become a library of the folder that the first file is in; without media
/// nothing is loaded.
pub proof fn picked_media_become_a_library(path: Seq<u8>, paths: Seq<Seq<u8>>)
    ensures
        ({
            let sources = gathered(paths);
            let msg = loaded_from(path, sources);
            let some = exists|i: int| 0 <= i < paths.len() && names_media(#[trigger] paths[i]);
            &&& some && parent_bytes(path) is Some ==> msg == LoadView::Library(
                parent_bytes(path)->0,
                sources,
            )
            &&& some && parent_bytes(path) is None ==> msg == LoadView::Library(path, sources)
            &&& !some ==> msg == LoadView::Cancelled
        }),
{
    let at = no_media_is_lost(paths);
    let some = exists|i: int| 0 <= i < paths.len() && names_media(#[trigger] paths[i]);
    if some {
        let i = choose|i: int| 0 <= i < paths.len() && names_media(#[trigger] paths[i]);
        assert(at.contains(i));
    } else if gathered(paths).len() > 0 {
        assert(0 <= at[0] < paths.len());
        assert(names_media(paths[at[0]]));
    }
}

/// Finished decodes settle one after the other, each wanted where its tile is near or open.
pub proof fn decodes_settle_one_after_the_other(
    p: PoolView,
    inbox: Seq<Finished>,
    res: Finished,
    gen: u64,
    window: Window,
    focus: Option<usize>,
)
    ensures
        settled_all(p, Seq::<Finished>::empty(), gen, window, focus) == p,
        settled_all(p, inbox.push(res), gen, window, focus) == settled_pool(
            settled_all(p, inbox, gen, window, focus),
            res,
            gen,
            window.first <= res.index as int / 3 <= window.last || focus == Some(res.index),
        ),
{
    assert(inbox.push(res).drop_last() =~= inbox);
}

/// An empty pool holds no tile, waits for none, and has each of its 128 layers free, once.
pub proof fn empty_pools_have_every_layer_free(l: u32)
    ensures
        forall|i: usize| !#[trigger] empty_pool().tiles.contains_key(i),
        empty_pool().inflight == 0,
        empty_pool().free.len() == 128,
        empty_pool().free.contains(l) <==> l < 128,
        empty_pool().free.no_duplicates(),
{
    if l < 128 {
        assert(empty_pool().free[127 - l] == l);
    }
}

/// The frames of the animations add up, tile by tile.
pub proof fn animation_frames_add_up(anims: Map<usize, WallGif>, keys: Seq<usize>, i: usize)
    ensures
        frames_of(anims, Seq::<usize>::empty()) == 0,
        frames_of(anims, keys.push(i)) == frames_of(anims, keys) + anims[i].delays@.len(),
{
    assert(keys.push(i).drop_last() =~= keys);
}

proof fn lemma_waits_before(p: PoolView, order: Seq<usize>, total: usize, i: usize)
    ensures
        ({
            let q = loaded(p, order, total);
            q.tiles.contains_key(i) && !jobs_of(p, order, total).contains(i)
                ==> p.tiles.contains_key(i) && q.tiles[i] == p.tiles[i]
        }),
    decreases order.len(),
{
    if order.len() > 0 {
        let rest = order.drop_last();
        lemma_waits_before(p, rest, total, i);
        let before = jobs_of(p, rest, total);
        let jobs = jobs_of(p, order, total);
        if before.contains(i) {
            assert(jobs[before.index_of(i)] == i);
        }
        if jobs.len() > before.len() {
            assert(jobs[before.len() as int] == order.last());
        }
    }
}

proof fn lemma_settling_adds_no_wait(
    p: PoolView,
    inbox: Seq<Finished>,
    gen: u64,
    window: Window,
    focus: Option<usize>,
    i: usize,
)
    ensures
        ({
            let q = settled_all(p, inbox, gen, window, focus);
            q.tiles.contains_key(i) && q.tiles[i] == Tile::Loading ==> p.tiles.contains_key(i)
                && p.tiles[i] == Tile::Loading
        }),
    decreases inbox.len(),
{
    if inbox.len() > 0 {
        lemma_settling_adds_no_wait(p, inbox.drop_last(), gen, window, focus, i);
    }
}

/// Every tile that begins to wait in a frame is handed out to be decoded in that frame, and the
/// full picture that is handed out is the open item's, which is on its way then.
pub proof fn frames_hand_out_what_begins_to_wait(
    before: State,
    after: State,
    gif_before: OpenGifView,
    gif_after: OpenGifView,
    input: FrameIn,
    out: FrameOut,
    s1: State,
    s2: State,
    s3: State,
    i: usize,
)
    requires
        before.wf(),
        input.wf(),
        is_frame(before, after, gif_before, gif_after, input, out, s1, s2, s3),
    ensures
        ({
            let (p, q) = (before.wall.pool@, after.wall.pool@);
            let waited = p.tiles.contains_key(i) && p.tiles[i] == Tile::Loading;
            &&& q.tiles.contains_key(i) && q.tiles[i] == Tile::Loading && !waited
                ==> out.stream.jobs@.contains(i) || out.stream.focus_job == Some(i)
            &&& out.stream.focus_job matches Some(f) ==> before.lightbox.focus == Some(f)
                && q.tiles.contains_key(f)
            &&& out.stream.full_job matches Some(f) ==> before.lightbox.focus == Some(f)
                && s1.lightbox.full_pending == Some(f)
        }),
{
    let kept = choose|kept: PoolView| #[trigger]
        is_streamed(before, s1, input, out.stream, kept);
    let total = before.wall.shown@.len() as usize;
    let window = before.window_of(input.scroll_col);
    let focus = before.lightbox.focus;
    let gen = before.wall.generation;
    let taken = input.inbox@.take(out.stream.outcomes@.len() as int);
    let drained = settled_all(before.wall.pool@, taken, gen, window, focus);
    let wanted = focus_asked(kept, focus, total);
    let order = load_order(window, before.center_of(input.scroll_col));
    let q = after.wall.pool@;
    assert(q == loaded(wanted, order, total));
    lemma_fulls_keep_the_rest(before.lightbox, taken, gen);
    lemma_waits_before(wanted, order, total, i);
    lemma_settling_adds_no_wait(before.wall.pool@, taken, gen, window, focus, i);
    crate::pool_laws::settling_all_keeps_wf(before.wall.pool@, taken, gen, window, focus);
    crate::stream_laws::evicting_drops_what_is_far(drained, kept, window, focus);
    if kept.tiles.contains_key(i) {
        assert(kept.tiles[i] == drained.tiles[i]);
    }
    crate::pool_laws::lemma_loaded_keeps(wanted, order, total);
    if let Some(f) = out.stream.focus_job {
        assert(wanted.tiles.contains_key(f));
    }
}

/// A whole frame plays the open GIF and no other: what it shows is the frame that the animation of
/// the open item stands at then, and what it asks for is the open GIF.
pub proof fn frames_play_the_open_gif(
    before: State,
    after: State,
    gif_before: OpenGifView,
    gif_after: OpenGifView,
    input: FrameIn,
    out: FrameOut,
    s1: State,
    s2: State,
    s3: State,
)
    requires
        before.wf(),
        input.wf(),
        is_frame(before, after, gif_before, gif_after, input, out, s1, s2, s3),
    ensures
        out.gif.frame matches Some(k) ==> (gif_after.anim matches Some(g) && before.lightbox.focus
            == Some(g.index) && g.cur == k && g.delays.len() > 1),
        out.gif.decode matches Some(f) ==> before.lightbox.focus == Some(f) && before.wall.is_gif(
            f as int,
        ),
        out.gif.frame is Some ==> after.lightbox.full_for == before.lightbox.focus,
        !before.flags.gif_anim || before.lightbox.focus is Some || input.fast
            ==> out.animation.started@.len() == 0,
        !before.flags.gif_anim && input.wall_gifs@.len() == 0 ==> after.wall.gifs@
            == before.wall.gifs@.retained(after.wall.pool@),
{
    let kept = choose|kept: PoolView| #[trigger]
        is_streamed(before, s1, input, out.stream, kept);
    lemma_fulls_keep_the_rest(
        before.lightbox,
        input.inbox@.take(out.stream.outcomes@.len() as int),
        before.wall.generation,
    );
    let (rest, walls) = choose|rest: crate::wall::Wall, walls: Seq<crate::wall::Wall>| #[trigger]
        crate::frame::animates(
            s2.wall,
            crate::frame::chooses_more(s2, input),
            s2.flags.gif_anim,
            s2.center_of(input.scroll_col),
            input.wall_gifs@,
            input.now,
            out.animation,
            s3.wall,
            rest,
            walls,
        );
    if !before.flags.gif_anim && input.wall_gifs@.len() == 0 {
        assert(walls.last() == walls[0]);
        let r = rest.gifs@;
        assert(r.pending + out.animation.started@ =~= r.pending);
        assert(after.wall.gifs@ == r);
    }
}

} // verus!
