//! What streaming promises: which tiles are asked for, in which order, and what stays loaded.

use crate::frame::is_drained;
use crate::pool::{
    asked, col_order, evicted, jobs_of, load_order, loaded, loads, settled, settled_at,
    settled_pool, tiles_along, tiles_in, uploads_of, wanted, Finished, PoolView, Settled, Tile,
    Window,
};
use crate::pool_laws::{
    evicting_keeps_wf, lemma_col_order_has, lemma_tiles_along_has, settling_keeps_wf,
};
use crate::state::State;
use vstd::prelude::*;

verus! {

/// How many columns a tile is away from the column `center`.
pub open spec fn columns_away(i: usize, center: int) -> int {
    if i as int / 3 >= center {
        i as int / 3 - center
    } else {
        center - i as int / 3
    }
}

/// Tile `i` comes before tile `j`: it is nearer to the centre, or as near and further left or up.
pub open spec fn comes_first(i: usize, j: usize, center: int) -> bool {
    columns_away(i, center) < columns_away(j, center) || columns_away(i, center) == columns_away(
        j,
        center,
    ) && i < j
}

/// Each tile comes before those that follow it.
pub open spec fn nearest_first(tiles: Seq<usize>, center: int) -> bool {
    forall|a: int, b: int|
        0 <= a < b < tiles.len() ==> comes_first(#[trigger] tiles[a], #[trigger] tiles[b], center)
}

/// A tile that the window has room for and that is not loaded: it is of the library and of a
/// column of the window, at most sixteen columns from the centre.
pub open spec fn is_missing(
    p: PoolView,
    window: Window,
    center: int,
    total: usize,
    i: usize,
) -> bool {
    &&& i < total
    &&& window.first <= i as int / 3 <= window.last
    &&& columns_away(i, center) <= 16
    &&& !p.tiles.contains_key(i)
}

proof fn lemma_column_tiles(window: Window, col: int, total: usize)
    requires
        0 <= window.first,
        window.last < (total + 2) / 3,
        total <= usize::MAX - 2,
    ensures
        ({
            let s = tiles_in(window, col);
            &&& forall|k: int| 0 <= k < s.len() ==> (#[trigger] s[k]) as int / 3 == col
            &&& forall|a: int, b: int| 0 <= a < b < s.len() ==> s[a] < s[b]
            &&& s.len() > 0 ==> window.first <= col <= window.last
        }),
{
    if window.first <= col <= window.last {
        assert(col * 3 + 2 <= usize::MAX);
    }
}

/// The load order is nearest first, and stays within the window.
pub proof fn lemma_order_is_near(window: Window, center: int, reach: nat, total: usize)
    requires
        0 <= window.first,
        window.last < (total + 2) / 3,
        total <= usize::MAX - 2,
    ensures
        ({
            let s = tiles_along(window, col_order(center, reach));
            &&& nearest_first(s, center)
            &&& forall|k: int|
                0 <= k < s.len() ==> columns_away(#[trigger] s[k], center) <= reach && window.first
                    <= s[k] as int / 3 <= window.last
        }),
    decreases reach,
{
    let cols = col_order(center, reach);
    let s = tiles_along(window, cols);
    if reach == 0 {
        lemma_column_tiles(window, center, total);
        assert(cols.drop_last() =~= seq![]);
        reveal_with_fuel(tiles_along, 2);
        assert(s =~= tiles_in(window, center));
    } else {
        let r = (reach - 1) as nat;
        let inner = col_order(center, r);
        lemma_order_is_near(window, center, r, total);
        lemma_column_tiles(window, center - reach, total);
        lemma_column_tiles(window, center + reach, total);
        let x = tiles_along(window, inner);
        let y = tiles_in(window, center - reach);
        let z = tiles_in(window, center + reach);
        let left = inner.push(center - reach);
        assert(cols.drop_last() =~= left);
        assert(left.drop_last() =~= inner);
        assert(cols.last() == center + reach);
        assert(left.last() == center - reach);
        assert(tiles_along(window, left) == x + y);
        assert(s == tiles_along(window, left) + z);
        assert(s =~= x + y + z);
        assert forall|k: int| 0 <= k < s.len() implies columns_away(#[trigger] s[k], center)
            <= reach && window.first <= s[k] as int / 3 <= window.last by {
            if k < x.len() {
                assert(s[k] == x[k]);
            } else if k < x.len() + y.len() {
                assert(s[k] == y[k - x.len()]);
            } else {
                assert(s[k] == z[k - x.len() - y.len()]);
            }
        }
        assert forall|a: int, b: int| 0 <= a < b < s.len() implies comes_first(
            #[trigger] s[a],
            #[trigger] s[b],
            center,
        ) by {
            if b < x.len() {
                assert(s[a] == x[a] && s[b] == x[b]);
            } else if a < x.len() {
                assert(s[a] == x[a]);
                assert(columns_away(x[a], center) <= r);
                if b < x.len() + y.len() {
                    assert(s[b] == y[b - x.len()]);
                } else {
                    assert(s[b] == z[b - x.len() - y.len()]);
                }
            } else if b < x.len() + y.len() {
                assert(s[a] == y[a - x.len()] && s[b] == y[b - x.len()]);
            } else {
                assert(s[b] == z[b - x.len() - y.len()]);
                if a < x.len() + y.len() {
                    assert(s[a] == y[a - x.len()]);
                } else {
                    assert(s[a] == z[a - x.len() - y.len()]);
                }
            }
        }
    }
}

/// What is asked for along an order: the tiles that are missing, from its start, as far as the
/// throttle lets them.
pub proof fn lemma_jobs(p: PoolView, order: Seq<usize>, total: usize, center: int)
    requires
        nearest_first(order, center),
    ensures
        ({
            let jobs = jobs_of(p, order, total);
            let q = loaded(p, order, total);
            &&& nearest_first(jobs, center)
            &&& q.inflight == p.inflight + jobs.len()
            &&& jobs.len() == 0 || p.inflight + jobs.len() <= 32
            &&& forall|i: usize| #[trigger]
                q.tiles.contains_key(i) <==> p.tiles.contains_key(i) || jobs.contains(i)
            &&& forall|k: int|
                0 <= k < jobs.len() ==> order.contains(#[trigger] jobs[k]) && jobs[k] < total
                    && !p.tiles.contains_key(jobs[k])
            &&& forall|i: usize| #[trigger]
                order.contains(i) && i < total && !p.tiles.contains_key(i) && !jobs.contains(i)
                    ==> p.inflight + jobs.len() >= 32 && forall|b: int|
                    0 <= b < jobs.len() ==> comes_first(#[trigger] jobs[b], i, center)
        }),
    decreases order.len(),
{
    let jobs = jobs_of(p, order, total);
    let q = loaded(p, order, total);
    if order.len() > 0 {
        let rest = order.drop_last();
        let last = order.last();
        let n = order.len() - 1;
        assert forall|a: int, b: int| 0 <= a < b < rest.len() implies comes_first(
            #[trigger] rest[a],
            #[trigger] rest[b],
            center,
        ) by {
            assert(rest[a] == order[a] && rest[b] == order[b]);
        }
        lemma_jobs(p, rest, total, center);
        let before = jobs_of(p, rest, total);
        let r = loaded(p, rest, total);
        assert forall|i: usize| #[trigger] rest.contains(i) implies order.contains(i)
            && comes_first(i, last, center) by {
            let k = rest.index_of(i);
            assert(order[k] == i);
            assert(order[n] == last);
        }
        assert(order[n] == last);
        assert(order.contains(last));
        assert forall|k: int| 0 <= k < before.len() implies comes_first(
            #[trigger] before[k],
            last,
            center,
        ) by {
            assert(rest.contains(before[k]));
        }
        if loads(r, last, total) {
            assert(jobs == before.push(last));
            assert(q == asked(r, last));
            assert forall|i: usize| #[trigger] jobs.contains(i) <==> before.contains(i) || i
                == last by {
                if before.contains(i) {
                    assert(jobs[before.index_of(i)] == i);
                }
                if i == last {
                    assert(jobs[before.len() as int] == i);
                }
            }
            assert(r.tiles.contains_key(last) <==> p.tiles.contains_key(last) || before.contains(
                last,
            ));
            assert forall|k: int| 0 <= k < jobs.len() implies order.contains(#[trigger] jobs[k])
                && jobs[k] < total && !p.tiles.contains_key(jobs[k]) by {
                if k < before.len() {
                    assert(jobs[k] == before[k]);
                    assert(rest.contains(before[k]));
                }
            }
            assert forall|a: int, b: int| 0 <= a < b < jobs.len() implies comes_first(
                #[trigger] jobs[a],
                #[trigger] jobs[b],
                center,
            ) by {
                assert(jobs[a] == before[a]);
                if b < before.len() {
                    assert(jobs[b] == before[b]);
                }
            }
            assert forall|i: usize| #[trigger]
                order.contains(i) && i < total && !p.tiles.contains_key(i) && !jobs.contains(
                    i,
                ) implies p.inflight + jobs.len() >= 32 && forall|b: int|
                0 <= b < jobs.len() ==> comes_first(#[trigger] jobs[b], i, center) by {
                let k = order.index_of(i);
                assert(order[k] == i);
                assert(rest[k] == i);
                assert(rest.contains(i));
                assert(!before.contains(i));
            }
        } else {
            assert forall|k: int| 0 <= k < jobs.len() implies order.contains(#[trigger] jobs[k])
                && jobs[k] < total && !p.tiles.contains_key(jobs[k]) by {
                assert(rest.contains(before[k]));
            }
            assert forall|i: usize| #[trigger]
                order.contains(i) && i < total && !p.tiles.contains_key(i) && !jobs.contains(
                    i,
                ) implies p.inflight + jobs.len() >= 32 && forall|b: int|
                0 <= b < jobs.len() ==> comes_first(#[trigger] jobs[b], i, center) by {
                let k = order.index_of(i);
                assert(order[k] == i);
                if k < n {
                    assert(rest[k] == i);
                    assert(rest.contains(i));
                } else {
                    assert(!r.tiles.contains_key(i));
                }
            }
        }
    }
}

/// The tiles nearest to the centre are asked for first. Of what a frame asks for, each tile is
/// nearer to the centre than the next one, or as near and further left or up; each is missing. No
/// tile is passed over: one that is missing and not asked for comes after all that are, and is
/// left out only because thirty-two decodes are in flight.
pub proof fn nearest_tiles_are_asked_for_first(
    p: PoolView,
    window: Window,
    center: int,
    total: usize,
    jobs: Seq<usize>,
)
    requires
        0 <= window.first,
        window.last < (total + 2) / 3,
        total <= usize::MAX - 2,
        jobs == jobs_of(p, load_order(window, center), total),
    ensures
        nearest_first(jobs, center),
        forall|k: int|
            0 <= k < jobs.len() ==> is_missing(p, window, center, total, #[trigger] jobs[k]),
        forall|i: usize|
            #![trigger is_missing(p, window, center, total, i)]
            is_missing(p, window, center, total, i) && !jobs.contains(i) ==> p.inflight
                + jobs.len() >= 32 && forall|b: int|
                0 <= b < jobs.len() ==> comes_first(#[trigger] jobs[b], i, center),
        jobs.len() == 0 || p.inflight + jobs.len() <= 32,
{
    let order = load_order(window, center);
    lemma_order_is_near(window, center, 16, total);
    lemma_jobs(p, order, total, center);
    assert forall|k: int| 0 <= k < jobs.len() implies is_missing(
        p,
        window,
        center,
        total,
        #[trigger] jobs[k],
    ) by {
        assert(order.contains(jobs[k]));
        assert(order[order.index_of(jobs[k])] == jobs[k]);
    }
    assert forall|i: usize|
        #![trigger is_missing(p, window, center, total, i)]
        is_missing(p, window, center, total, i) && !jobs.contains(i) implies p.inflight
        + jobs.len() >= 32 && forall|b: int|
        0 <= b < jobs.len() ==> comes_first(#[trigger] jobs[b], i, center) by {
        lemma_col_order_has(center, 16, i as int / 3);
        lemma_tiles_along_has(window, col_order(center, 16), i);
        assert(order.contains(i));
    }
}

/// The window of a frame: the columns of the wall that are at most sixteen from its centre, which
/// is the column of the open item, or else where the wall is scrolled to.
pub proof fn windows_reach_sixteen_columns(s: State, scroll_col: i64, col: int)
    requires
        s.wf(),
        i64::MIN + 16 <= scroll_col <= i64::MAX - 16,
    ensures
        ({
            let window = s.window_of(scroll_col);
            let center = match s.lightbox.focus {
                Some(f) => f as int / 3,
                None => scroll_col as int,
            };
            window.first <= col <= window.last <==> 0 <= col < (s.wall.shown@.len() + 2) / 3
                && center - 16 <= col <= center + 16
        }),
{
}

/// Eviction drops what has scrolled away: a tile stays if and only if it lies in the window, is
/// open, or waits for its decode. What stays is as it was, and every layer of what leaves is free
/// again.
pub proof fn evicting_drops_what_is_far(
    p: PoolView,
    q: PoolView,
    window: Window,
    focus: Option<usize>,
)
    requires
        p.wf(),
        evicted(p, q, window, focus),
    ensures
        forall|i: usize| #[trigger]
            q.tiles.contains_key(i) <==> p.tiles.contains_key(i) && (window.first <= i as int / 3
                <= window.last || focus == Some(i) || p.tiles[i] == Tile::Loading),
        forall|i: usize| #[trigger] q.tiles.contains_key(i) ==> q.tiles[i] == p.tiles[i],
        forall|i: usize|
            p.tiles.contains_key(i) && !q.tiles.contains_key(i) ==> (#[trigger] p.tiles[i] matches
                Tile::Ready { layer, .. } ==> q.free.contains(layer) && !p.free.contains(layer)),
        forall|l: u32| p.free.contains(l) ==> #[trigger] q.free.contains(l),
        q.inflight == p.inflight,
{
    evicting_keeps_wf(p, q, window, focus);
    assert forall|i: usize| p.tiles.contains_key(i) && !q.tiles.contains_key(i) implies (
    #[trigger] p.tiles[i] matches Tile::Ready { layer, .. } ==> q.free.contains(layer)
        && !p.free.contains(layer)) by {
        if p.tiles[i] is Ready {
            let l = p.layer_of(i);
            assert(p.is_ready(i));
            if !q.free.contains(l) {
                let j = choose|j: usize| #[trigger] q.is_ready(j) && q.layer_of(j) == l;
                assert(q.tiles.contains_key(j));
                assert(p.is_ready(j));
            }
        }
    }
    assert forall|l: u32| p.free.contains(l) implies #[trigger] q.free.contains(l) by {
        let k = p.free.index_of(l);
        assert(p.free[k] == l);
        if !q.free.contains(l) {
            let j = choose|j: usize| #[trigger] q.is_ready(j) && q.layer_of(j) == l;
            assert(q.tiles.contains_key(j));
            assert(p.is_ready(j));
        }
    }
}

/// A finished thumbnail of the present library that a tile waits for gives that tile a free layer
/// and its size. One without pixels marks the tile as failed; one that is no longer wanted, or
/// finds no layer, drops the tile. Nothing else becomes of any other tile, and one decode less is
/// in flight.
pub proof fn finished_decodes_settle_their_tile(
    p: PoolView,
    res: Finished,
    gen: u64,
    wanted: bool,
)
    requires
        p.wf(),
    ensures
        ({
            let q = settled_pool(p, res, gen, wanted);
            let i = res.index;
            let waits = !res.full && res.gen == gen && p.tiles.contains_key(i) && p.tiles[i]
                == Tile::Loading;
            let broken = res.empty || res.w == 0 || res.h == 0;
            &&& q.inflight == if res.full || p.inflight == 0 {
                p.inflight as int
            } else {
                p.inflight - 1
            }
            &&& forall|j: usize|
                j != i || !waits ==> (#[trigger] q.tiles.contains_key(j)
                    <==> p.tiles.contains_key(j)) && (p.tiles.contains_key(j) ==> q.tiles[j]
                    == p.tiles[j])
            &&& waits && broken ==> q.tiles.contains_key(i) && q.tiles[i] == Tile::Failed
            &&& waits && !broken && wanted && p.free.len() > 0 ==> q.tiles.contains_key(i) && (
            q.tiles[i] matches Tile::Ready { layer, w, h } && w == res.w && h == res.h
                && p.free.contains(layer) && !q.free.contains(layer) && q.free.len() + 1
                == p.free.len() && settled(p, res, gen, wanted) == (Settled::Uploaded { layer }))
            &&& waits && !broken && !(wanted && p.free.len() > 0) ==> !q.tiles.contains_key(i)
            &&& !(waits && !broken && wanted && p.free.len() > 0) ==> q.free == p.free && !(
            settled(p, res, gen, wanted) is Uploaded)
        }),
{
    settling_keeps_wf(p, res, gen, wanted);
    let q = settled_pool(p, res, gen, wanted);
    if settled(p, res, gen, wanted) is Uploaded {
        assert(q.is_ready(res.index));
        assert(p.free[p.free.len() - 1] == p.free.last());
    }
}

/// A decode is wanted for a tile of the window and for the open one.
pub proof fn wanted_is_near_or_open(window: Window, focus: Option<usize>, i: usize)
    ensures
        wanted(window, focus, i) <==> window.first <= i as int / 3 <= window.last || focus == Some(
            i,
        ),
{
}

/// How many of the outcomes are uploads.
pub open spec fn uploads_among(outcomes: Seq<Settled>) -> nat
    decreases outcomes.len(),
{
    if outcomes.len() == 0 {
        0
    } else {
        uploads_among(outcomes.drop_last()) + if outcomes.last() is Uploaded {
            1nat
        } else {
            0nat
        }
    }
}

proof fn lemma_uploads(
    p: PoolView,
    inbox: Seq<Finished>,
    gen: u64,
    window: Window,
    focus: Option<usize>,
    outcomes: Seq<Settled>,
    n: int,
)
    requires
        0 <= n <= outcomes.len() <= inbox.len(),
        forall|k: int|
            0 <= k < outcomes.len() ==> #[trigger] outcomes[k] == settled_at(
                p,
                inbox,
                k,
                gen,
                window,
                focus,
            ),
    ensures
        uploads_of(p, inbox.take(n), gen, window, focus).len() == uploads_among(outcomes.take(n)),
    decreases n,
{
    if n > 0 {
        lemma_uploads(p, inbox, gen, window, focus, outcomes, n - 1);
        let part = inbox.take(n);
        assert(part.drop_last() =~= inbox.take(n - 1));
        assert(part.take(n - 1) =~= inbox.take(n - 1));
        assert(part[n - 1] == inbox[n - 1]);
        assert(outcomes.take(n).drop_last() =~= outcomes.take(n - 1));
        assert(outcomes.take(n).last() == outcomes[n - 1]);
    }
}

/// A frame uploads at most ten thumbnails, and leaves finished decodes for the next frame only
/// where it has uploaded ten.
pub proof fn frames_upload_at_most_ten(
    p: PoolView,
    inbox: Seq<Finished>,
    gen: u64,
    window: Window,
    focus: Option<usize>,
    outcomes: Seq<Settled>,
)
    requires
        is_drained(p, inbox, gen, window, focus, outcomes),
    ensures
        uploads_among(outcomes) <= 10,
        outcomes.len() < inbox.len() ==> uploads_among(outcomes) == 10,
{
    let n = outcomes.len() as int;
    lemma_uploads(p, inbox, gen, window, focus, outcomes, n);
    assert(outcomes.take(n) =~= outcomes);
    if n > 0 {
        lemma_uploads(p, inbox, gen, window, focus, outcomes, n - 1);
        assert(outcomes.take(n - 1) =~= outcomes.drop_last());
        assert(uploads_of(p, inbox.take(n - 1), gen, window, focus).len() < 10);
    }
}

} // verus!
