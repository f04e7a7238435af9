//! What a frame promises: what it paints, plays, loads and writes down.

use crate::frame::{
    delivered, delivered_all, delivers, follow_job, followed, full_asked, full_job, full_uploads,
    logged_flags, logs_memory, matched_flags, matched_lightbox, moves, played_msgs, played_on,
    player_step, plays, shows_full, slid_flags, slid_focus, took_full, took_fulls, GifMsg,
    OpenGifView, PlayerStep, WallGifMsg,
};
use crate::gif_laws::{playing_loses_no_time, shown_from};
use crate::gifs::{played, sum_delays};
use crate::library::arranged;
use crate::media::{Kind, SourceView};
use crate::media_laws::{ends_in, lemma_ends_in};
use crate::paths::file_name_text;
use crate::pool::{Finished, PoolView, Tile, Window};
use crate::state::{closed_lightbox, Flags, Lightbox, State};
use crate::stream_laws::columns_away;
use crate::wall::{
    advanced, all_painted, capped, has_look, instance_of, is_near_order, no_gifs, painted,
    waiting_without, window_is_painted_whole, window_tiles, Instance, Look, Wall, WallGifsView,
};
use vstd::prelude::*;

verus! {

/// How far up a look lies: what is painted later covers what was painted before.
pub open spec fn height(look: Look) -> int {
    match look {
        Look::Reflection => 0,
        Look::Skeleton => 1,
        Look::Photo => 2,
        Look::Hovered => 3,
    }
}

/// Whether a tile has a texture layer.
pub open spec fn has_layer(p: PoolView, i: usize) -> bool {
    p.tiles.contains_key(i) && p.tiles[i] is Ready
}

/// Whether an instance paints its tile as it is loaded: a tile with a layer as a photo, or as the
/// hovered one, from that layer and at the frame of its animation; one of the bottom row also as a
/// reflection, where these are on; and one without a layer as a blank.
pub open spec fn paints(
    p: PoolView,
    cursors: Map<usize, usize>,
    reflections: bool,
    hover: Option<usize>,
    x: Instance,
) -> bool {
    let i = x.index;
    let frame = if cursors.contains_key(i) {
        Some(cursors[i])
    } else {
        None
    };
    &&& x.look == Look::Skeleton ==> !has_layer(p, i) && x.layer == 0 && x.frame is None
    &&& x.look != Look::Skeleton ==> has_layer(p, i) && (p.tiles[i] matches Tile::Ready {
        layer,
        ..
    } && x.layer == layer) && x.frame == frame
    &&& x.look == Look::Photo ==> hover != Some(i)
    &&& x.look == Look::Hovered ==> hover == Some(i)
    &&& x.look == Look::Reflection ==> reflections && i as int % 3 == 2
}

/// Whether a tile is due to be painted with a look.
pub open spec fn is_due(
    p: PoolView,
    reflections: bool,
    hover: Option<usize>,
    i: usize,
    look: Look,
) -> bool {
    match look {
        Look::Skeleton => !has_layer(p, i),
        Look::Photo => has_layer(p, i) && hover != Some(i),
        Look::Hovered => has_layer(p, i) && hover == Some(i),
        Look::Reflection => has_layer(p, i) && reflections && i as int % 3 == 2,
    }
}

proof fn lemma_painted(
    p: PoolView,
    cursors: Map<usize, usize>,
    tiles: Seq<usize>,
    look: Look,
    reflections: bool,
    hover: Option<usize>,
)
    requires
        forall|a: int, b: int| 0 <= a < b < tiles.len() ==> tiles[a] < tiles[b],
    ensures
        ({
            let out = painted(p, cursors, tiles, look, reflections, hover);
            &&& forall|k: int|
                0 <= k < out.len() ==> (#[trigger] out[k]).look == look && tiles.contains(
                    out[k].index,
                ) && paints(p, cursors, reflections, hover, out[k])
            &&& forall|a: int, b: int|
                0 <= a < b < out.len() ==> (#[trigger] out[a]).index < (#[trigger] out[b]).index
            &&& forall|i: usize| #[trigger]
                tiles.contains(i) && is_due(p, reflections, hover, i, look) ==> exists|k: int|
                    0 <= k < out.len() && (#[trigger] out[k]).index == i
        }),
    decreases tiles.len(),
{
    let out = painted(p, cursors, tiles, look, reflections, hover);
    if tiles.len() > 0 {
        let rest = tiles.drop_last();
        let last = tiles.last();
        let n = tiles.len() - 1;
        assert forall|a: int, b: int| 0 <= a < b < rest.len() implies rest[a] < rest[b] by {
            assert(rest[a] == tiles[a] && rest[b] == tiles[b]);
        }
        lemma_painted(p, cursors, rest, look, reflections, hover);
        let before = painted(p, cursors, rest, look, reflections, hover);
        assert forall|i: usize| #[trigger] rest.contains(i) implies tiles.contains(i) && i
            < last by {
            let k = rest.index_of(i);
            assert(tiles[k] == i);
            assert(tiles[n] == last);
        }
        assert(tiles[n] == last);
        assert forall|k: int| 0 <= k < out.len() implies (#[trigger] out[k]).look == look
            && tiles.contains(out[k].index) && paints(
            p,
            cursors,
            reflections,
            hover,
            out[k],
        ) by {
            if k < before.len() {
                assert(out[k] == before[k]);
                assert(rest.contains(before[k].index));
            } else {
                assert(out[k] == instance_of(p, cursors, last, look));
            }
        }
        assert forall|a: int, b: int| 0 <= a < b < out.len() implies (#[trigger] out[a]).index < (
        #[trigger] out[b]).index by {
            assert(out[a] == before[a]);
            if b < before.len() {
                assert(out[b] == before[b]);
            } else {
                assert(rest.contains(before[a].index));
            }
        }
        assert forall|i: usize| #[trigger]
            tiles.contains(i) && is_due(p, reflections, hover, i, look) implies exists|k: int|
            0 <= k < out.len() && (#[trigger] out[k]).index == i by {
            let j = tiles.index_of(i);
            if j < n {
                assert(rest[j] == i);
                assert(rest.contains(i));
                let k = choose|k: int| 0 <= k < before.len() && (#[trigger] before[k]).index == i;
                assert(out[k] == before[k]);
            } else {
                assert(i == last);
                assert(has_look(p, last, look, reflections, hover));
                assert(out[before.len() as int].index == i);
            }
        }
    }
}

/// Every tile of the window is painted as it is loaded, and nothing else is: each instance paints
/// a tile of the window, each look that a tile is due has its instance, and what lies lower is
/// painted first, column by column.
pub proof fn the_window_is_painted(
    p: PoolView,
    cursors: Map<usize, usize>,
    window: Window,
    total: usize,
    reflections: bool,
    hover: Option<usize>,
    out: Seq<Instance>,
)
    requires
        0 <= window.first,
        window.last - window.first <= 32,
        window.last < (total + 2) / 3,
        total <= usize::MAX - 2,
        out == capped(
            all_painted(p, cursors, window_tiles(window, total as int), reflections, hover),
        ),
    ensures
        forall|k: int|
            0 <= k < out.len() ==> paints(p, cursors, reflections, hover, #[trigger] out[k])
                && out[k].index < total && window.first <= out[k].index as int / 3 <= window.last,
        forall|i: usize, look: Look|
            #![trigger is_due(p, reflections, hover, i, look)]
            i < total && window.first <= i as int / 3 <= window.last && is_due(
                p,
                reflections,
                hover,
                i,
                look,
            ) ==> exists|k: int|
                0 <= k < out.len() && (#[trigger] out[k]).index == i && out[k].look == look,
        forall|a: int, b: int|
            0 <= a < b < out.len() ==> height((#[trigger] out[a]).look) < height(
                (#[trigger] out[b]).look,
            ) || out[a].look == out[b].look && out[a].index < out[b].index,
{
    let tiles = window_tiles(window, total as int);
    window_is_painted_whole(p, cursors, window, total as int, reflections, hover);
    let r = painted(p, cursors, tiles, Look::Reflection, reflections, hover);
    let s = painted(p, cursors, tiles, Look::Skeleton, reflections, hover);
    let f = painted(p, cursors, tiles, Look::Photo, reflections, hover);
    let h = painted(p, cursors, tiles, Look::Hovered, reflections, hover);
    assert(out == r + s + f + h);
    lemma_painted(p, cursors, tiles, Look::Reflection, reflections, hover);
    lemma_painted(p, cursors, tiles, Look::Skeleton, reflections, hover);
    lemma_painted(p, cursors, tiles, Look::Photo, reflections, hover);
    lemma_painted(p, cursors, tiles, Look::Hovered, reflections, hover);
    assert forall|i: usize| #[trigger] tiles.contains(i) implies i < total && window.first <= i
        as int / 3 <= window.last by {
        let k = tiles.index_of(i);
        assert(tiles[k] == (3 * window.first + k) as usize);
    }
    let (n1, n2, n3) = (r.len() as int, r.len() + s.len(), r.len() + s.len() + f.len());
    assert forall|k: int| 0 <= k < out.len() implies paints(
        p,
        cursors,
        reflections,
        hover,
        #[trigger] out[k],
    ) && tiles.contains(out[k].index) && out[k].look == if k < n1 {
        Look::Reflection
    } else if k < n2 {
        Look::Skeleton
    } else if k < n3 {
        Look::Photo
    } else {
        Look::Hovered
    } by {
        if k < n1 {
            assert(out[k] == r[k]);
        } else if k < n2 {
            assert(out[k] == s[k - n1]);
        } else if k < n3 {
            assert(out[k] == f[k - n2]);
        } else {
            assert(out[k] == h[k - n3]);
        }
    }
    assert forall|i: usize, look: Look|
        #![trigger is_due(p, reflections, hover, i, look)]
        i < total && window.first <= i as int / 3 <= window.last && is_due(
            p,
            reflections,
            hover,
            i,
            look,
        ) implies exists|k: int|
        0 <= k < out.len() && (#[trigger] out[k]).index == i && out[k].look == look by {
        let at = i - 3 * window.first;
        assert(tiles[at] == i);
        assert(tiles.contains(i));
        match look {
            Look::Reflection => {
                let k = choose|k: int| 0 <= k < r.len() && (#[trigger] r[k]).index == i;
                assert(out[k] == r[k]);
            },
            Look::Skeleton => {
                let k = choose|k: int| 0 <= k < s.len() && (#[trigger] s[k]).index == i;
                assert(out[n1 + k] == s[k]);
            },
            Look::Photo => {
                let k = choose|k: int| 0 <= k < f.len() && (#[trigger] f[k]).index == i;
                assert(out[n2 + k] == f[k]);
            },
            Look::Hovered => {
                let k = choose|k: int| 0 <= k < h.len() && (#[trigger] h[k]).index == i;
                assert(out[n3 + k] == h[k]);
            },
        }
    }
    assert forall|a: int, b: int| 0 <= a < b < out.len() implies height((#[trigger] out[a]).look)
        < height((#[trigger] out[b]).look) || out[a].look == out[b].look && out[a].index
        < out[b].index by {
        if b < n1 {
            assert(out[a] == r[a] && out[b] == r[b]);
        } else if n1 <= a && b < n2 {
            assert(out[a] == s[a - n1] && out[b] == s[b - n1]);
        } else if n2 <= a && b < n3 {
            assert(out[a] == f[a - n2] && out[b] == f[b - n2]);
        } else if n3 <= a {
            assert(out[a] == h[a - n3] && out[b] == h[b - n3]);
        }
    }
}

/// A tile whose animation could start: a GIF with a layer that neither plays nor is being decoded.
pub open spec fn could_start(w: Wall, i: usize) -> bool {
    has_layer(w.pool@, i) && w.is_gif(i as int) && !w.gifs@.anims.contains_key(i)
        && !w.gifs@.pending.contains(i)
}

/// The animations nearest to the centre start first: each one that starts could, each comes no
/// further from the centre than the next one and than any that could start and does not, at most
/// three are decoded at once, and one is left out only because three are.
#[verifier::rlimit(60)]
pub proof fn nearest_animations_start_first(w: Wall, center: int, started: Seq<usize>)
    requires
        w.are_starts(center, started),
    ensures
        started.no_duplicates(),
        forall|k: int| 0 <= k < started.len() ==> could_start(w, #[trigger] started[k]),
        forall|a: int, b: int|
            0 <= a < b < started.len() ==> columns_away(#[trigger] started[a], center)
                <= columns_away(#[trigger] started[b], center),
        forall|i: usize|
            #![trigger could_start(w, i)]
            could_start(w, i) && !started.contains(i) ==> w.gifs@.pending.len() + started.len()
                >= 3 && forall|k: int|
                0 <= k < started.len() ==> columns_away(#[trigger] started[k], center)
                    <= columns_away(i, center),
        started.len() == 0 || w.gifs@.pending.len() + started.len() <= 3,
{
    let pending = w.gifs@.pending.len() as int;
    let room: int = if pending < 3 {
        3 - pending
    } else {
        0
    };
    let (tiles, order) = choose|tiles: Seq<usize>, order: Seq<usize>|
        {
            &&& crate::pool::increasing(tiles)
            &&& forall|i: usize| tiles.contains(i) <==> w.is_candidate(i)
            &&& #[trigger] is_near_order(tiles, center, order)
            &&& started == arranged(tiles, order).take(
                crate::pool::min_int(tiles.len() as int, room),
            )
        };
    let n = started.len() as int;
    assert forall|k: int| 0 <= k < order.len() implies w.is_candidate(
        tiles[#[trigger] order[k] as int],
    ) && could_start(w, tiles[order[k] as int]) by {
        assert(tiles.contains(tiles[order[k] as int]));
    }
    assert forall|k: int| 0 <= k < n implies #[trigger] started[k] == tiles[order[k] as int] by {}
    assert forall|a: int, b: int| 0 <= a < b < n implies started[a] != started[b] by {
        assert(order[a] != order[b]);
        assert(0 <= order[a] < tiles.len() && 0 <= order[b] < tiles.len());
    }
    assert forall|i: usize|
        #![trigger could_start(w, i)]
        could_start(w, i) && !started.contains(i) implies w.gifs@.pending.len() + started.len()
        >= 3 && forall|k: int|
        0 <= k < started.len() ==> columns_away(#[trigger] started[k], center) <= columns_away(
            i,
            center,
        ) by {
        assert(w.is_candidate(i));
        assert(tiles.contains(i));
        let at = tiles.index_of(i);
        lemma_increasing_is_short(tiles);
        assert(at <= tiles[at]);
        assert(order.contains(at as usize));
        let j = order.index_of(at as usize);
        assert(tiles[order[j] as int] == i);
        if j < n {
            assert(started[j] == i);
        }
        assert forall|k: int| 0 <= k < started.len() implies columns_away(
            #[trigger] started[k],
            center,
        ) <= columns_away(i, center) by {
            assert(order[k] != order[j]);
            assert(tiles[order[k] as int] == started[k]);
        }
    }
}

proof fn lemma_increasing_is_short(s: Seq<usize>)
    requires
        crate::pool::increasing(s),
    ensures
        forall|k: int| 0 <= k < s.len() ==> k <= #[trigger] s[k],
    decreases s.len(),
{
    if s.len() > 0 {
        let rest = s.drop_last();
        assert forall|i: int, j: int| 0 <= i < j < rest.len() implies rest[i] < rest[j] by {
            assert(s[i] < s[j]);
        }
        lemma_increasing_is_short(rest);
        let n = s.len() - 1;
        assert forall|k: int| 0 <= k < s.len() implies k <= #[trigger] s[k] by {
            if k < n {
                assert(rest[k] == s[k]);
            } else if n > 0 {
                assert(rest[n - 1] == s[n - 1]);
                assert(s[n - 1] < s[n]);
            }
        }
    }
}

/// Animations on the wall move on four times a second: before a quarter of a second has passed
/// nothing moves. Then each one with several frames shows the frame that its clock stands on: those
/// before it in the loop have been shown in full, and it has not.
pub proof fn animations_move_on_four_times_a_second(
    before: WallGifsView,
    after: WallGifsView,
    now: u64,
    i: usize,
)
    requires
        before.wf(),
        advanced(before, after, now),
    ensures
        after.anims == before.anims,
        after.pending == before.pending,
        now < before.tick + 250_000_000 ==> after == before,
        now >= before.tick + 250_000_000 ==> after.tick == now,
        now >= before.tick + 250_000_000 && before.anims.contains_key(i)
            && before.anims[i].delays@.len() > 1 && now >= before.anims[i].start ==> ({
            let g = before.anims[i];
            let time = (now - g.start) % sum_delays(g.delays@);
            let k = after.cursors[i] as int;
            &&& after.cursors.contains_key(i)
            &&& 0 <= k < g.delays@.len()
            &&& sum_delays(g.delays@.take(k)) <= time
            &&& time < sum_delays(g.delays@.take(k)) + g.delays@[k]
        }),
{
    if now >= before.tick + 250_000_000 && before.anims.contains_key(i)
        && before.anims[i].delays@.len() > 1 && now >= before.anims[i].start {
        let g = before.anims[i];
        assert(after.anims.contains_key(i));
        assert(before.anims.dom().contains(i));
        assert(before.cursors.dom().contains(i));
        crate::gif_laws::frames_take_their_turn(
            g.delays@,
            (now - g.start) % g.total as int,
            after.cursors[i] as int,
        );
    }
}

/// The animation of a tile that is dropped ends, and that of any other tile stays.
pub proof fn dropped_tiles_do_not_play(g: WallGifsView, p: PoolView, i: usize)
    requires
        g.wf(),
    ensures
        g.retained(p).anims.contains_key(i) <==> g.anims.contains_key(i) && p.tiles.contains_key(i),
        g.retained(p).anims.contains_key(i) ==> g.retained(p).anims[i] == g.anims[i]
            && g.retained(p).cursors.contains_key(i) && g.retained(p).cursors[i] == g.cursors[i],
        g.retained(p).pending == g.pending,
        g.retained(p).tick == g.tick,
{
    assert(g.anims.dom().contains(i) <==> g.cursors.dom().contains(i));
}

/// A decoded animation of the present view starts on its tile, from its first frame, where that
/// tile still has a layer; it goes to that layer. Any other one is dropped. Either way the tile no
/// longer waits, and no other tile is touched.
pub proof fn decoded_animations_start_on_their_tile(
    before: Wall,
    after: Wall,
    msg: WallGifMsg,
    now: u64,
    layer: Option<u32>,
    i: usize,
)
    requires
        before.wf(),
        delivers(before, after, msg, now, layer),
    ensures
        ({
            let starts = msg.atlas is Some && msg.gen == before.generation && has_layer(
                before.pool@,
                msg.index,
            );
            let (b, a) = (before.gifs@, after.gifs@);
            &&& layer is Some <==> starts
            &&& starts ==> a.anims.contains_key(msg.index) && a.anims[msg.index].start == now
                && a.anims[msg.index].delays@ == msg.atlas->0.delays@ && a.cursors[msg.index] == 0
                && a.anims[msg.index].total == msg.atlas->0.total && a.anims[msg.index].grid
                == msg.atlas->0.grid && a.anims[msg.index].cell == msg.atlas->0.cell
                && a.anims[msg.index].fw == msg.atlas->0.fw && a.anims[msg.index].fh
                == msg.atlas->0.fh
                && (before.pool@.tiles[msg.index] matches Tile::Ready { layer: l, .. } && layer
                == Some(l))
            &&& i != msg.index || !starts ==> (a.anims.contains_key(i) <==> b.anims.contains_key(i))
                && (b.anims.contains_key(i) ==> a.anims[i] == b.anims[i] && a.cursors[i]
                == b.cursors[i])
            &&& a.pending.contains(i) <==> b.pending.contains(i) && i != msg.index
            &&& after.pool == before.pool && after.shown == before.shown && after.all == before.all
        }),
{
    let pending = before.gifs@.pending;
    let left = waiting_without(pending, msg.index);
    if pending.contains(msg.index) {
        let at = pending.index_of(msg.index);
        assert forall|x: usize| left.contains(x) <==> pending.contains(x) && x != msg.index by {
            if left.contains(x) {
                let k = left.index_of(x);
                if k < at {
                    assert(pending[k] == x);
                } else {
                    assert(pending[k + 1] == x);
                }
            }
            if pending.contains(x) && x != msg.index {
                let k = pending.index_of(x);
                if k < at {
                    assert(left[k] == x);
                } else {
                    assert(left[k - 1] == x);
                }
            }
        }
    }
    assert(before.pool@.is_ready(msg.index) <==> has_layer(before.pool@, msg.index));
}

/// A slideshow moves on once its item has been open for four seconds, to the next item and from
/// the last one to the first one, and waits four seconds again. Without an open item it ends.
pub proof fn slideshows_move_on_after_four_seconds(s: State, now: u64)
    requires
        s.wf(),
    ensures
        ({
            let due = s.flags.slideshow && s.lightbox.focus is Some && now >= s.flags.slideshow_t
                + 4_000_000_000;
            let total = s.wall.shown@.len();
            let h = slid_flags(s, now);
            &&& !due ==> slid_focus(s, now) == s.lightbox.focus && h.slideshow_t
                == s.flags.slideshow_t
            &&& due && s.lightbox.focus->0 + 1 < total ==> slid_focus(s, now) == Some(
                (s.lightbox.focus->0 + 1) as usize,
            )
            &&& due && s.lightbox.focus->0 + 1 == total ==> slid_focus(s, now) == Some(0usize)
            &&& due ==> h.slideshow_t == now
            &&& h.slideshow <==> s.flags.slideshow && s.lightbox.focus is Some
        }),
{
    if s.lightbox.focus is Some {
        let total = s.wall.shown@.len() as int;
        let f = s.lightbox.focus->0 + 1;
        if f < total {
            vstd::arithmetic::div_mod::lemma_small_mod(f as nat, total as nat);
        } else {
            vstd::arithmetic::div_mod::lemma_mod_self_0(total);
        }
    }
}

/// Whether an item is a video or music.
pub open spec fn can_play(w: Wall, i: usize) -> bool {
    i < w.shown@.len() && (w.all@[w.shown@[i as int] as int]@ matches SourceView::Media(k, _) && (k
        == Kind::Video || k == Kind::Audio))
}

/// The player follows the open item: as soon as another item is open the player ends, and in the
/// next frame that of a video or of music starts, once. Nothing else ends or starts one.
pub proof fn the_player_follows_the_open_item(s: State, t: State)
    requires
        s.wf(),
        t.wall == s.wall,
        t.lightbox == matched_lightbox(s),
    ensures
        s.lightbox.focus != s.lightbox.video_for ==> {
            &&& player_step(s) == PlayerStep::Stop
            &&& matched_flags(s).track_menu is None
            &&& s.lightbox.focus is Some && can_play(s.wall, s.lightbox.focus->0) ==> player_step(t)
                == PlayerStep::Start(s.lightbox.focus->0)
            &&& !(s.lightbox.focus is Some && can_play(s.wall, s.lightbox.focus->0))
                ==> player_step(t) == PlayerStep::Keep
        },
        s.lightbox.focus == s.lightbox.video_for ==> {
            &&& !(player_step(s) == PlayerStep::Stop)
            &&& (player_step(s) matches PlayerStep::Start(i) ==> s.lightbox.focus == Some(i)
                && can_play(s.wall, i))
            &&& player_step(t) == PlayerStep::Keep
            &&& matched_flags(s) == s.flags
        },
        t.lightbox.focus == s.lightbox.focus,
        t.lightbox.hover == s.lightbox.hover,
        t.lightbox.full_for == s.lightbox.full_for,
        t.lightbox.full_pending == s.lightbox.full_pending,
{
}

/// The full picture of an open item is asked for once: where it is neither there nor on its way.
/// Videos draw their own frames, and an animated GIF is shown by its frames.
pub proof fn full_pictures_are_asked_for_once(w: Wall, gif_anim: bool, lb: Lightbox)
    requires
        lb.focus matches Some(f) ==> f < w.shown@.len(),
    ensures
        ({
            let after = full_asked(w, gif_anim, lb);
            let own_frames = lb.focus is Some && (w.is_kind(lb.focus->0 as int, Kind::Video)
                || gif_anim && w.is_gif(lb.focus->0 as int));
            let asks = lb.focus is Some && !own_frames && lb.full_for != lb.focus && lb.full_pending
                != lb.focus;
            &&& asks ==> full_job(w, gif_anim, lb) == lb.focus && after.full_pending == lb.focus
                && after.full_for == lb.full_for
            &&& !asks ==> full_job(w, gif_anim, lb) is None
            &&& full_job(w, gif_anim, after) is None
            &&& lb.focus is None || own_frames ==> after.full_pending is None && after.full_for
                is None
            &&& after.focus == lb.focus && after.hover == lb.hover && after.video_for
                == lb.video_for && after.video_pending == lb.video_pending
        }),
{
}

/// A full picture that has come shows where it is of the present view, of the open item, and has
/// pixels; either way it is no longer on its way.
pub proof fn full_pictures_show_on_their_item(lb: Lightbox, res: Finished, gen: u64)
    ensures
        ({
            let after = took_full(lb, res, gen);
            let shows = res.gen == gen && lb.focus == Some(res.index) && !res.empty && res.w > 0
                && res.h > 0;
            &&& shows_full(lb, res, gen) == shows
            &&& shows ==> after.full_for == Some(res.index)
            &&& !shows ==> after.full_for == lb.full_for
            &&& after.full_pending != Some(res.index)
            &&& lb.full_pending != Some(res.index) ==> after.full_pending == lb.full_pending
            &&& after.focus == lb.focus && after.hover == lb.hover
        }),
{
}

/// The full pictures that are uploaded are those of the inbox that show, in its order.
pub proof fn shown_full_pictures_are_uploaded(
    lb: Lightbox,
    inbox: Seq<Finished>,
    gen: u64,
    i: usize,
)
    requires
        inbox.len() <= usize::MAX,
    ensures
        full_uploads(lb, inbox, gen).contains(i) <==> i < inbox.len() && inbox[i as int].full
            && inbox[i as int].gen == gen && lb.focus == Some(inbox[i as int].index)
            && !inbox[i as int].empty && inbox[i as int].w > 0 && inbox[i as int].h > 0,
        crate::pool::increasing(full_uploads(lb, inbox, gen)),
        forall|k: int|
            0 <= k < full_uploads(lb, inbox, gen).len() ==> #[trigger] full_uploads(
                lb,
                inbox,
                gen,
            )[k] < inbox.len(),
    decreases inbox.len(),
{
    if inbox.len() > 0 {
        let rest = inbox.drop_last();
        let n = inbox.len() - 1;
        shown_full_pictures_are_uploaded(lb, rest, gen, i);
        let before = full_uploads(lb, rest, gen);
        let out = full_uploads(lb, inbox, gen);
        assert(inbox.last() == inbox[n]);
        if i < n {
            assert(rest[i as int] == inbox[i as int]);
        }
        if before.contains(i) {
            assert(out[before.index_of(i)] == i);
        }
        if out.len() > before.len() {
            assert(out == before.push(n as usize));
            assert(out[before.len() as int] == n);
            if out.contains(i) {
                let k = out.index_of(i);
                if k < before.len() {
                    assert(before[k] == i);
                }
            }
            assert forall|a: int, b: int| 0 <= a < b < out.len() implies out[a] < out[b] by {
                assert(out[a] == before[a]);
                if b < before.len() {
                    assert(out[b] == before[b]);
                }
            }
            assert forall|k: int| 0 <= k < out.len() implies #[trigger] out[k] < inbox.len() by {
                if k < before.len() {
                    assert(out[k] == before[k]);
                }
            }
        }
    }
}

/// The frames of an open GIF are asked for once: where they are neither there nor on their way.
/// Another open item ends the animation.
pub proof fn gif_frames_are_asked_for_once(v: OpenGifView, target: Option<usize>)
    ensures
        ({
            let there = match v.anim {
                Some(g) => Some(g.index),
                None => None,
            };
            let after = followed(v, target);
            let asks = target is Some && there != target && v.pending != target;
            &&& asks ==> follow_job(v, target) == target && after.anim is None && after.pending
                == target
            &&& !asks ==> follow_job(v, target) is None
            &&& target is Some && !asks ==> after == v
            &&& target is None ==> after.anim is None && after.pending is None
            &&& follow_job(after, target) is None
        }),
{
}

/// Decoded frames play from the first one where they are of the present view and of the open item,
/// and there are any; either way they are no longer on their way.
pub proof fn decoded_frames_play_on_their_item(
    v: OpenGifView,
    msg: GifMsg,
    gen: u64,
    focus: Option<usize>,
)
    ensures
        ({
            let after = delivered(v, msg, gen, focus);
            let starts = msg.gen == gen && focus == Some(msg.index) && msg.delays@.len() > 0;
            &&& plays(msg, gen, focus) == starts
            &&& starts ==> (after.anim matches Some(g) && g.index == msg.index && g.delays
                == msg.delays@ && g.cur == 0 && g.t == 0)
            &&& !starts ==> after.anim == v.anim
            &&& after.pending != Some(msg.index)
            &&& v.pending != Some(msg.index) ==> after.pending == v.pending
        }),
{
}

/// An open GIF with several frames plays on without losing time: after `dt` nanoseconds the frames
/// that it passed, round and round, have been shown in full, and the one that shows for the rest.
/// Nothing else moves.
pub proof fn open_gifs_play_on(v: OpenGifView, focus: Option<usize>, dt: u64) -> (n: nat)
    requires
        v.wf(),
        v.anim matches Some(g) ==> g.delays.len() <= usize::MAX,
    ensures
        ({
            let after = played_on(v, focus, dt);
            let playing = v.anim matches Some(g) && focus == Some(g.index) && g.delays.len() > 1;
            &&& moves(v, focus) == playing
            &&& !playing ==> after == v
            &&& playing ==> ({
                let (g, h) = (v.anim->0, after.anim->0);
                &&& after.anim is Some && h.index == g.index && h.delays == g.delays
                &&& after.pending == v.pending
                &&& h.cur == (g.cur + n) % g.delays.len() as int
                &&& g.t + dt == shown_from(g.delays, g.cur as int, n) + h.t
                &&& h.t < g.delays[h.cur as int]
            })
        }),
{
    if moves(v, focus) {
        let g = v.anim->0;
        let n = playing_loses_no_time(g.delays, g.cur as int, g.t + dt);
        let now = played(g.delays, g.cur as int, g.t + dt);
        vstd::arithmetic::div_mod::lemma_mod_bound(g.cur + n, g.delays.len() as int);
        assert(now.1 < g.delays[now.0]);
        assert(now.0 as usize == now.0 && now.1 as u64 == now.1);
        n
    } else {
        0
    }
}

/// The memory log is written every two seconds while it is on.
pub proof fn the_memory_log_is_written_every_two_seconds(g: Flags, now: u64)
    ensures
        logs_memory(g, now) <==> g.show_mem && now >= g.mem_log + 2_000_000_000,
        logs_memory(g, now) ==> logged_flags(g, now).mem_log == now,
        !logs_memory(g, now) ==> logged_flags(g, now) == g,
        logged_flags(g, now) == (Flags { mem_log: logged_flags(g, now).mem_log, ..g }),
{
}

/// Decoded frames, and full pictures, are taken up one after the other; of the messages, those
/// whose frames play are the ones that show.
pub proof fn messages_are_taken_up_one_after_the_other(
    v: OpenGifView,
    msgs: Seq<GifMsg>,
    msg: GifMsg,
    lb: Lightbox,
    inbox: Seq<Finished>,
    res: Finished,
    gen: u64,
    focus: Option<usize>,
)
    ensures
        delivered_all(v, Seq::<GifMsg>::empty(), gen, focus) == v,
        delivered_all(v, msgs.push(msg), gen, focus) == delivered(
            delivered_all(v, msgs, gen, focus),
            msg,
            gen,
            focus,
        ),
        took_fulls(lb, Seq::<Finished>::empty(), gen) == lb,
        res.full ==> took_fulls(lb, inbox.push(res), gen) == took_full(
            took_fulls(lb, inbox, gen),
            res,
            gen,
        ),
        !res.full ==> took_fulls(lb, inbox.push(res), gen) == took_fulls(lb, inbox, gen),
        played_msgs(Seq::<GifMsg>::empty(), gen, focus).len() == 0,
        plays(msg, gen, focus) ==> played_msgs(msgs.push(msg), gen, focus) == played_msgs(
            msgs,
            gen,
            focus,
        ).push(msgs.len() as usize),
        !plays(msg, gen, focus) ==> played_msgs(msgs.push(msg), gen, focus) == played_msgs(
            msgs,
            gen,
            focus,
        ),
{
    assert(msgs.push(msg).drop_last() =~= msgs);
    assert(inbox.push(res).drop_last() =~= inbox);
}

/// What a displayed tile is: the source at its place in the library says whether it is an image, a
/// video or music; a GIF is an image whose file name ends so.
pub proof fn tiles_are_what_their_source_is(w: Wall, i: usize, kind: Kind)
    requires
        i < w.shown@.len(),
    ensures
        ({
            let source = w.all@[w.shown@[i as int] as int]@;
            &&& w.source_at(i as int) == source
            &&& w.is_kind(i as int, kind) <==> (source matches SourceView::Media(k, _) && k == kind)
            &&& w.is_gif(i as int) <==> (source matches SourceView::Media(k, path) && k
                == Kind::Image && (file_name_text(path) matches Some(name) && ends_in(
                name,
                "gif"@,
            )))
        }),
{
    if let SourceView::Media(_, path) = w.source_at(i as int) {
        if let Some(name) = file_name_text(path) {
            reveal_strlit("gif");
            lemma_ends_in(name, "gif"@);
        }
    }
}

/// Without a view nothing is open, loaded for an item, or animated.
pub proof fn nothing_is_open_at_first(tick: u64, i: usize)
    ensures
        ({
            let lb = closed_lightbox();
            &&& lb.focus is None && lb.hover is None && lb.full_for is None && lb.full_pending
                is None && lb.video_for is None && lb.video_pending is None
        }),
        !no_gifs(tick).anims.contains_key(i),
        !no_gifs(tick).cursors.contains_key(i),
        no_gifs(tick).pending.len() == 0,
        no_gifs(tick).tick == tick,
{
}

} // verus!
