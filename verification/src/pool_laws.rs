//! What holds of the pool whatever is done to it.

use crate::pool::{
    asked, col_of, col_order, cols_for, empty_pool, evictable, evicted, in_cols, increasing,
    is_window, layers_of, load_order, loaded, loads, max_int, narrow, settled, settled_all,
    settled_at, settled_pool, tiles_along, tiles_in, uploads_of, wanted, Finished, PoolView,
    Settled, Window, KEEP_COLS, MAX_INFLIGHT, MAX_UPLOADS_PER_FRAME, POOL, ROWS,
};
use vstd::prelude::*;

verus! {

/// A pool that starts out empty is well-formed.
pub proof fn empty_pool_is_wf()
    ensures
        empty_pool().wf(),
        empty_pool().ready().len() == 0,
{
    let p = empty_pool();
    assert forall|l: u32| l < POOL implies #[trigger] p.free.contains(l) by {
        assert(p.free[POOL - 1 - l] == l);
    }
    assert(p.loading() =~= Set::<usize>::empty());
    assert(p.ready() =~= Set::<usize>::empty());
}

/// Settling a decode keeps the layers accounted for.
pub proof fn settling_keeps_wf(p: PoolView, res: Finished, gen: u64, wanted: bool)
    requires
        p.wf(),
    ensures
        settled_pool(p, res, gen, wanted).wf(),
{
    let q = settled_pool(p, res, gen, wanted);
    let i0 = res.index;
    match settled(p, res, gen, wanted) {
        Settled::Full => {},
        Settled::Stale | Settled::Unwanted => {
            assert(q.loading() =~= p.loading());
            assert forall|i: usize| q.is_ready(i) == p.is_ready(i) by {}
        },
        Settled::Uploaded { layer } => {
            assert(q.loading() =~= p.loading().remove(i0));
            assert(p.loading().contains(i0));
            assert(p.free[p.free.len() - 1] == layer);
            assert(p.free.contains(layer));
            assert(!q.free.contains(layer));
            assert forall|i: usize| #[trigger] q.is_ready(i) implies q.layer_of(i) < POOL
                && !q.free.contains(q.layer_of(i)) by {
                if i != i0 {
                    assert(p.is_ready(i));
                    if q.free.contains(q.layer_of(i)) {
                        let k = q.free.index_of(q.layer_of(i));
                        assert(p.free[k] == q.layer_of(i));
                    }
                }
            }
            assert forall|i: usize, j: usize|
                #[trigger] q.is_ready(i) && #[trigger] q.is_ready(j) && i != j implies q.layer_of(i)
                != q.layer_of(j) by {
                if i != i0 {
                    assert(p.is_ready(i));
                }
                if j != i0 {
                    assert(p.is_ready(j));
                }
            }
            assert forall|l: u32| l < POOL implies #[trigger] q.free.contains(l) || exists|i: usize|
                #[trigger] q.is_ready(i) && q.layer_of(i) == l by {
                if l == layer {
                    assert(q.is_ready(i0) && q.layer_of(i0) == l);
                } else if p.free.contains(l) {
                    let k = p.free.index_of(l);
                    assert(q.free[k] == l);
                } else {
                    let i = choose|i: usize| #[trigger] p.is_ready(i) && p.layer_of(i) == l;
                    assert(q.is_ready(i) && q.layer_of(i) == l);
                }
            }
        },
        Settled::Failed | Settled::NoLayer | Settled::Gone => {
            assert(q.loading() =~= p.loading().remove(i0));
            assert(p.loading().contains(i0));
            assert forall|i: usize| #[trigger] q.is_ready(i) implies p.is_ready(i) by {}
            assert forall|l: u32| l < POOL implies #[trigger] q.free.contains(l) || exists|i: usize|
                #[trigger] q.is_ready(i) && q.layer_of(i) == l by {
                if !p.free.contains(l) {
                    let i = choose|i: usize| #[trigger] p.is_ready(i) && p.layer_of(i) == l;
                    assert(q.is_ready(i) && q.layer_of(i) == l);
                }
            }
        },
    }
}

/// Asking for a tile that is not resident keeps the layers accounted for.
pub proof fn asking_keeps_wf(p: PoolView, i0: usize)
    requires
        p.wf(),
        !p.tiles.contains_key(i0),
    ensures
        asked(p, i0).wf(),
        asked(p, i0).ready() == p.ready(),
{
    let q = asked(p, i0);
    assert(q.loading() =~= p.loading().insert(i0));
    assert(q.ready() =~= p.ready());
    assert forall|i: usize| #[trigger] q.is_ready(i) implies p.is_ready(i) by {}
    assert forall|l: u32| l < POOL implies #[trigger] q.free.contains(l) || exists|i: usize|
        #[trigger] q.is_ready(i) && q.layer_of(i) == l by {
        if !p.free.contains(l) {
            let i = choose|i: usize| #[trigger] p.is_ready(i) && p.layer_of(i) == l;
            assert(q.is_ready(i) && q.layer_of(i) == l);
        }
    }
}

/// Every layer is free or owned: the layers that tiles own and the free ones add up to the pool.
pub proof fn layers_add_up(p: PoolView)
    requires
        p.wf(),
    ensures
        p.ready().finite(),
        p.ready().len() + p.free.len() == POOL,
{
    let owned = p.ready().map(|i: usize| p.layer_of(i));
    let f = |i: usize| p.layer_of(i);
    assert forall|a: usize, b: usize|
        p.ready().contains(a) && p.ready().contains(b) && #[trigger] f(a) == #[trigger] f(
            b,
        ) implies a == b by {
        assert(p.is_ready(a) && p.is_ready(b));
    }
    vstd::set_lib::lemma_map_size(p.ready(), owned, f);
    let free = p.free.to_set();
    p.free.unique_seq_to_set();
    let all = Seq::new(POOL as nat, |k: int| k as u32);
    assert(all.no_duplicates());
    all.unique_seq_to_set();
    assert forall|l: u32| #[trigger] all.to_set().contains(l) == (owned + free).contains(l) by {
        if l < POOL {
            assert(all[l as int] == l);
            assert(all.contains(l));
            if !p.free.contains(l) {
                let i = choose|i: usize| #[trigger] p.is_ready(i) && p.layer_of(i) == l;
                assert(p.ready().contains(i));
                assert(f(i) == l);
                assert(owned.contains(l));
            }
        } else {
            assert(!free.contains(l));
            assert(!owned.contains(l));
            assert(!all.contains(l));
        }
    }
    assert(all.to_set() =~= owned + free);
    assert(owned.disjoint(free)) by {
        assert forall|l: u32| owned.contains(l) implies !free.contains(l) by {
            let i = choose|i: usize| p.ready().contains(i) && f(i) == l;
            assert(p.is_ready(i));
        }
    }
    vstd::set_lib::lemma_set_disjoint_lens(owned, free);
}

/// The layers of the leaving tiles are those that a leaving tile owns.
proof fn lemma_layers_of(p: PoolView, leaving: Seq<usize>)
    requires
        p.wf(),
        increasing(leaving),
        forall|k: int| 0 <= k < leaving.len() ==> p.tiles.contains_key(#[trigger] leaving[k]),
    ensures
        layers_of(p.tiles, leaving).no_duplicates(),
        forall|l: u32| #[trigger]
            layers_of(p.tiles, leaving).contains(l) <==> exists|k: int|
                0 <= k < leaving.len() && p.is_ready(#[trigger] leaving[k]) && p.layer_of(
                    leaving[k],
                ) == l,
    decreases leaving.len(),
{
    if leaving.len() > 0 {
        let rest = leaving.drop_last();
        let n = leaving.len() - 1;
        let i0 = leaving.last();
        assert forall|k: int| 0 <= k < rest.len() implies p.tiles.contains_key(
            #[trigger] rest[k],
        ) by {
            assert(rest[k] == leaving[k]);
        }
        lemma_layers_of(p, rest);
        let before = layers_of(p.tiles, rest);
        let after = layers_of(p.tiles, leaving);
        if p.is_ready(i0) {
            let l0 = p.layer_of(i0);
            if before.contains(l0) {
                let k = choose|k: int|
                    0 <= k < rest.len() && p.is_ready(#[trigger] rest[k]) && p.layer_of(rest[k])
                        == l0;
                assert(leaving[k] < leaving[n]);
                assert(p.is_ready(leaving[k]) && p.is_ready(leaving[n]));
            }
            assert(after == before.push(l0));
            assert(after[before.len() as int] == l0);
        } else {
            assert(after == before);
        }
        assert forall|l: u32| #[trigger] after.contains(l) <==> exists|k: int|
            0 <= k < leaving.len() && p.is_ready(#[trigger] leaving[k]) && p.layer_of(leaving[k])
                == l by {
            if after.contains(l) {
                if before.contains(l) {
                    let k = choose|k: int|
                        0 <= k < rest.len() && p.is_ready(#[trigger] rest[k]) && p.layer_of(rest[k])
                            == l;
                    assert(leaving[k] == rest[k]);
                } else {
                    let a = after.index_of(l);
                    assert(after[a] == l);
                    if p.is_ready(i0) {
                        if a < before.len() {
                            assert(before[a] == l);
                        }
                        assert(p.is_ready(leaving[n]));
                    }
                }
            }
            if exists|k: int|
                0 <= k < leaving.len() && p.is_ready(#[trigger] leaving[k]) && p.layer_of(
                    leaving[k],
                ) == l {
                let k = choose|k: int|
                    0 <= k < leaving.len() && p.is_ready(#[trigger] leaving[k]) && p.layer_of(
                        leaving[k],
                    ) == l;
                if k < n {
                    assert(rest[k] == leaving[k]);
                    assert(before.contains(l));
                    let a = before.index_of(l);
                    assert(after[a] == l);
                }
            }
        }
    }
}

/// Evicting keeps the layers accounted for, and leaves a layer only with tiles of the window and
/// with the open tile.
pub proof fn evicting_keeps_wf(p: PoolView, q: PoolView, window: Window, focus: Option<usize>)
    requires
        p.wf(),
        evicted(p, q, window, focus),
    ensures
        q.wf(),
        q.inflight == p.inflight,
        forall|i: usize| #[trigger]
            q.tiles.contains_key(i) <==> p.tiles.contains_key(i) && !evictable(p, i, window, focus),
        forall|i: usize| #[trigger] q.tiles.contains_key(i) ==> q.tiles[i] == p.tiles[i],
{
    let leaving = choose|leaving: Seq<usize>|
        {
            &&& #[trigger] increasing(leaving)
            &&& forall|i: usize| leaving.contains(i) <==> evictable(p, i, window, focus)
            &&& q == PoolView {
                tiles: p.tiles.remove_keys(leaving.to_set()),
                free: p.free + layers_of(p.tiles, leaving),
                ..p
            }
        };
    let back = layers_of(p.tiles, leaving);
    assert forall|k: int| 0 <= k < leaving.len() implies p.tiles.contains_key(
        #[trigger] leaving[k],
    ) by {
        assert(leaving.contains(leaving[k]));
    }
    lemma_layers_of(p, leaving);
    assert forall|i: usize| #[trigger] q.tiles.contains_key(i) <==> p.tiles.contains_key(i)
        && !evictable(p, i, window, focus) by {
        assert(leaving.to_set().contains(i) <==> leaving.contains(i));
    }
    assert(q.tiles.dom().subset_of(p.tiles.dom()));
    vstd::set_lib::lemma_len_subset(q.tiles.dom(), p.tiles.dom());
    assert forall|i: usize| #[trigger] q.is_loading(i) == p.is_loading(i) by {
        if p.is_loading(i) {
            assert(!evictable(p, i, window, focus));
        }
    }
    assert(q.loading() =~= p.loading());
    assert forall|i: usize| #[trigger] q.is_ready(i) implies p.is_ready(i) && !evictable(
        p,
        i,
        window,
        focus,
    ) by {
        assert(q.tiles.contains_key(i));
    }
    // No layer is free twice.
    assert forall|a: int, b: int| 0 <= a < b < q.free.len() implies q.free[a] != q.free[b] by {
        if a < p.free.len() && b >= p.free.len() {
            let l = q.free[b];
            assert(back[b - p.free.len()] == l);
            assert(back.contains(l));
            let k = choose|k: int|
                0 <= k < leaving.len() && p.is_ready(#[trigger] leaving[k]) && p.layer_of(
                    leaving[k],
                ) == l;
            assert(p.free[a] == q.free[a]);
            assert(p.free.contains(q.free[a]));
        } else if a >= p.free.len() {
            assert(back[a - p.free.len()] == q.free[a]);
            assert(back[b - p.free.len()] == q.free[b]);
        }
    }
    assert forall|a: int| 0 <= a < q.free.len() implies q.free[a] < POOL by {
        if a >= p.free.len() {
            let l = q.free[a];
            assert(back[a - p.free.len()] == l);
            assert(back.contains(l));
            let k = choose|k: int|
                0 <= k < leaving.len() && p.is_ready(#[trigger] leaving[k]) && p.layer_of(
                    leaving[k],
                ) == l;
            assert(p.is_ready(leaving[k]));
        }
    }
    assert forall|l: u32| #[trigger] q.free.contains(l) <==> p.free.contains(l) || back.contains(
        l,
    ) by {
        if p.free.contains(l) {
            assert(q.free[p.free.index_of(l)] == l);
        }
        if back.contains(l) {
            assert(q.free[p.free.len() + back.index_of(l)] == l);
        }
        if q.free.contains(l) {
            let a = q.free.index_of(l);
            if a < p.free.len() {
                assert(p.free[a] == l);
            } else {
                assert(back[a - p.free.len()] == l);
            }
        }
    }
    assert forall|i: usize| #[trigger] q.is_ready(i) implies q.layer_of(i) < POOL
        && !q.free.contains(q.layer_of(i)) by {
        let l = q.layer_of(i);
        assert(p.is_ready(i));
        if back.contains(l) {
            let k = choose|k: int|
                0 <= k < leaving.len() && p.is_ready(#[trigger] leaving[k]) && p.layer_of(
                    leaving[k],
                ) == l;
            assert(p.is_ready(leaving[k]));
            assert(leaving.contains(leaving[k]));
            assert(leaving[k] != i);
        }
    }
    assert forall|l: u32| l < POOL implies #[trigger] q.free.contains(l) || exists|i: usize|
        #[trigger] q.is_ready(i) && q.layer_of(i) == l by {
        if !p.free.contains(l) {
            let i = choose|i: usize| #[trigger] p.is_ready(i) && p.layer_of(i) == l;
            if evictable(p, i, window, focus) {
                assert(leaving.contains(i));
                let k = leaving.index_of(i);
                assert(p.is_ready(leaving[k]));
                assert(back.contains(l));
            } else {
                assert(q.tiles.contains_key(i));
                assert(q.is_ready(i) && q.layer_of(i) == l);
            }
        }
    }
}

/// Tiles that a narrow window and one open tile can hold.
pub open spec fn resting_limit() -> nat {
    (ROWS * (2 * KEEP_COLS + 1) + 1) as nat
}

/// After an eviction a layer is owned by tiles of the window and by the open tile only, which
/// are few against the pool.
pub proof fn evicting_bounds_layers(p: PoolView, q: PoolView, window: Window, focus: Option<usize>)
    requires
        p.wf(),
        narrow(window),
        evicted(p, q, window, focus),
    ensures
        forall|i: usize| #[trigger] q.is_ready(i) ==> in_cols(window, i) || focus == Some(i),
        q.ready().len() <= resting_limit(),
        resting_limit() + MAX_UPLOADS_PER_FRAME <= POOL,
{
    evicting_keeps_wf(p, q, window, focus);
    assert forall|i: usize| #[trigger] q.is_ready(i) implies in_cols(window, i) || focus == Some(
        i,
    ) by {
        assert(q.tiles.contains_key(i));
    }
    let n = if window.last >= window.first {
        (3 * (window.last - window.first + 1)) as nat
    } else {
        0
    };
    let cells = Seq::new(n, |k: int| (3 * window.first + k) as usize);
    vstd::seq_lib::seq_to_set_is_finite(cells);
    cells.lemma_cardinality_of_set();
    let holders = match focus {
        Some(f) => cells.to_set().insert(f),
        None => cells.to_set(),
    };
    assert forall|i: usize| q.ready().contains(i) implies #[trigger] holders.contains(i) by {
        assert(q.is_ready(i));
        if in_cols(window, i) {
            let k = i - 3 * window.first;
            assert(cells[k] == i);
            assert(cells.contains(i));
        }
    }
    vstd::set_lib::lemma_len_subset(q.ready(), holders);
}

/// A decode of an earlier library changes nothing but the count of decodes in flight.
pub proof fn stale_results_are_dropped(p: PoolView, res: Finished, gen: u64, wanted: bool)
    requires
        res.gen != gen,
    ensures
        settled_pool(p, res, gen, wanted).tiles == p.tiles,
        settled_pool(p, res, gen, wanted).free == p.free,
{
}

/// Settling keeps the layers accounted for, and one upload takes one layer.
pub proof fn settling_all_keeps_wf(
    p: PoolView,
    inbox: Seq<Finished>,
    gen: u64,
    window: Window,
    focus: Option<usize>,
)
    requires
        p.wf(),
    ensures
        settled_all(p, inbox, gen, window, focus).wf(),
        settled_all(p, inbox, gen, window, focus).free.len() + uploads_of(
            p,
            inbox,
            gen,
            window,
            focus,
        ).len() == p.free.len(),
    decreases inbox.len(),
{
    if inbox.len() > 0 {
        let rest = inbox.drop_last();
        settling_all_keeps_wf(p, rest, gen, window, focus);
        let before = settled_all(p, rest, gen, window, focus);
        let res = inbox.last();
        settling_keeps_wf(before, res, gen, wanted(window, focus, res.index));
        assert(inbox.take(inbox.len() - 1) =~= rest);
    }
}

/// The pool is never exhausted: from a pool that an eviction left behind, no decode of the next
/// frame is turned away for want of a layer.
pub proof fn layers_never_run_out(
    p: PoolView,
    inbox: Seq<Finished>,
    k: int,
    gen: u64,
    window: Window,
    focus: Option<usize>,
)
    requires
        p.wf(),
        p.ready().len() <= resting_limit(),
        0 <= k < inbox.len(),
        uploads_of(p, inbox.take(k), gen, window, focus).len() < MAX_UPLOADS_PER_FRAME,
    ensures
        settled_at(p, inbox, k, gen, window, focus) !is NoLayer,
{
    layers_add_up(p);
    settling_all_keeps_wf(p, inbox.take(k), gen, window, focus);
}

/// Asking for tiles takes no layer.
pub proof fn loading_keeps_ready(p: PoolView, order: Seq<usize>, total: usize)
    requires
        p.wf(),
    ensures
        loaded(p, order, total).wf(),
        loaded(p, order, total).ready() == p.ready(),
    decreases order.len(),
{
    if order.len() > 0 {
        let rest = order.drop_last();
        loading_keeps_ready(p, rest, total);
        let q = loaded(p, rest, total);
        if loads(q, order.last(), total) {
            asking_keeps_wf(q, order.last());
        }
    }
}

/// The tiles that were decoded, whether that went well or not.
pub open spec fn decoded_tiles(p: PoolView) -> Set<usize> {
    p.tiles.dom().filter(|i: usize| p.tiles[i] !is Loading)
}

/// Settling a decode does not add to those in flight.
pub proof fn settling_never_adds_decodes(
    p: PoolView,
    inbox: Seq<Finished>,
    gen: u64,
    window: Window,
    focus: Option<usize>,
)
    ensures
        settled_all(p, inbox, gen, window, focus).inflight <= p.inflight,
    decreases inbox.len(),
{
    if inbox.len() > 0 {
        settling_never_adds_decodes(p, inbox.drop_last(), gen, window, focus);
    }
}

/// Asking for tiles adds tiles that wait, and no others; the decodes in flight stay within the
/// throttle, unless they were beyond it before.
pub proof fn loading_keeps_decoded(p: PoolView, order: Seq<usize>, total: usize)
    ensures
        decoded_tiles(loaded(p, order, total)) == decoded_tiles(p),
        p.inflight <= loaded(p, order, total).inflight,
        loaded(p, order, total).inflight <= max_int(p.inflight as int, MAX_INFLIGHT as int),
    decreases order.len(),
{
    if order.len() > 0 {
        let rest = order.drop_last();
        loading_keeps_decoded(p, rest, total);
        let q = loaded(p, rest, total);
        if loads(q, order.last(), total) {
            assert(decoded_tiles(asked(q, order.last())) =~= decoded_tiles(q));
        }
    }
}

/// A set of tiles of a narrow window has no more tiles than three rows of its columns.
pub proof fn windows_are_small(tiles: Set<usize>, window: Window)
    requires
        narrow(window),
        forall|i: usize| #[trigger] tiles.contains(i) ==> in_cols(window, i),
    ensures
        tiles.finite(),
        tiles.len() <= ROWS * (2 * KEEP_COLS + 1),
{
    let n = if window.last >= window.first {
        (3 * (window.last - window.first + 1)) as nat
    } else {
        0
    };
    let cells = Seq::new(n, |k: int| (3 * window.first + k) as usize);
    vstd::seq_lib::seq_to_set_is_finite(cells);
    cells.lemma_cardinality_of_set();
    assert forall|i: usize| tiles.contains(i) implies #[trigger] cells.to_set().contains(i) by {
        let k = i - 3 * window.first;
        assert(cells[k] == i);
    }
    vstd::set_lib::lemma_len_subset(tiles, cells.to_set());
}

/// Asking for tiles only ever adds tiles, and leaves one out only where the throttle is reached.
pub proof fn lemma_loaded_keeps(p: PoolView, order: Seq<usize>, total: usize)
    ensures
        forall|i: usize| #[trigger]
            p.tiles.contains_key(i) ==> loaded(p, order, total).tiles.contains_key(i),
        loaded(p, order, total).inflight >= p.inflight,
        forall|k: int|
            0 <= k < order.len() && #[trigger] order[k] < total ==> loaded(
                p,
                order,
                total,
            ).tiles.contains_key(order[k]) || loaded(p, order, total).inflight >= MAX_INFLIGHT,
    decreases order.len(),
{
    if order.len() > 0 {
        let rest = order.drop_last();
        lemma_loaded_keeps(p, rest, total);
        let q = loaded(p, order, total);
        assert forall|k: int| 0 <= k < order.len() && #[trigger] order[k]
            < total implies q.tiles.contains_key(order[k]) || q.inflight >= MAX_INFLIGHT by {
            if k < rest.len() {
                assert(rest[k] == order[k]);
            }
        }
    }
}

pub proof fn lemma_col_order_has(center: int, reach: nat, col: int)
    requires
        center - reach <= col <= center + reach,
    ensures
        col_order(center, reach).contains(col),
    decreases reach,
{
    let all = col_order(center, reach);
    if reach == 0 {
        assert(all[0] == col);
    } else {
        let inner = col_order(center, (reach - 1) as nat);
        if col == center - reach {
            assert(all[inner.len() as int] == col);
        } else if col == center + reach {
            assert(all[(inner.len() + 1) as int] == col);
        } else {
            lemma_col_order_has(center, (reach - 1) as nat, col);
            assert(all[inner.index_of(col)] == col);
        }
    }
}

pub proof fn lemma_tiles_along_has(window: Window, cols: Seq<int>, i: usize)
    requires
        in_cols(window, i),
        cols.contains(col_of(i)),
    ensures
        tiles_along(window, cols).contains(i),
    decreases cols.len(),
{
    let all = tiles_along(window, cols);
    let rest = tiles_along(window, cols.drop_last());
    let last = tiles_in(window, cols.last());
    if cols.last() == col_of(i) {
        let row = i as int - col_of(i) * 3;
        assert(last[row] == i);
        assert(all[rest.len() + row] == i);
    } else {
        let k = cols.index_of(col_of(i));
        assert(cols.drop_last()[k] == col_of(i));
        lemma_tiles_along_has(window, cols.drop_last(), i);
        assert(all[rest.index_of(i)] == i);
    }
}

/// After the loads of a frame were dispatched, every tile of the window is resident, unless the
/// throttle is reached.
pub proof fn window_fills_up(p: PoolView, window: Window, center: int, total: usize, i: usize)
    requires
        is_window(window, center, cols_for(total as int)),
        in_cols(window, i),
        i < total,
    ensures
        ({
            let q = loaded(p, load_order(window, center), total);
            q.tiles.contains_key(i) || q.inflight >= MAX_INFLIGHT
        }),
{
    let order = load_order(window, center);
    lemma_col_order_has(center, KEEP_COLS as nat, col_of(i));
    lemma_tiles_along_has(window, col_order(center, KEEP_COLS as nat), i);
    lemma_loaded_keeps(p, order, total);
    assert(order[order.index_of(i)] == i);
}

} // verus!
