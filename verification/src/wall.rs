//! The tiles of the wall: which are animated, and how they are painted.

use crate::dates::FileTimes;
use crate::gifs::{frame_at, is_frame_at, sum_delays, GifAtlas};
use crate::library::{arranged, is_view, view_of, view_shows_what_passes, Query};
use crate::media::{has_ext, is_gif, sources_view, Kind, Source, SourceView};
use crate::order::{before, holds_range, stable_order, SortKey};
use crate::pool::{
    col_of, cols_for, empty_pool, increasing, keys_of, min_int, narrow, Pool, PoolView, Tile,
    Window, ROWS,
};
use std::collections::BTreeMap;
use std::path::PathBuf;
use vstd::prelude::*;

verus! {

broadcast use vstd::std_specs::btree::group_btree_axioms;

/// Instances that are painted at most: photos and their reflections.
pub const INSTANCE_CAP: usize = 256;

/// Animations that are decoded at once.
pub const MAX_GIF_DECODES: usize = 3;

/// Nanoseconds between two steps of the animations on the wall.
pub const GIF_TICK_NS: u64 = 250_000_000;

/// An animated tile: the frames are packed into its layer.
pub struct WallGif {
    pub grid: u32,
    pub cell: u32,
    pub fw: u32,
    pub fh: u32,
    pub delays: Vec<u64>,
    pub total: u64,
    /// When the animation started.
    pub start: u64,
}

impl WallGif {
    /// There is a frame to show at every time.
    pub open spec fn wf(self) -> bool {
        self.grid > 0 && self.delays@.len() > 0 && self.total == sum_delays(self.delays@)
            && self.total > 0
    }
}

/// The animated tiles of the wall.
pub struct WallGifs {
    pub anims: BTreeMap<usize, WallGif>,
    /// The frame that each animated tile shows.
    pub cursors: BTreeMap<usize, usize>,
    /// The tiles whose animation is on its way.
    pub pending: Vec<usize>,
    /// When the animations last moved on.
    pub tick: u64,
}

/// The animated tiles of the wall.
#[verifier::ext_equal]
pub struct WallGifsView {
    pub anims: Map<usize, WallGif>,
    pub cursors: Map<usize, usize>,
    pub pending: Seq<usize>,
    pub tick: u64,
}

impl View for WallGifs {
    type V = WallGifsView;

    open spec fn view(&self) -> WallGifsView {
        WallGifsView {
            anims: self.anims@,
            cursors: self.cursors@,
            pending: self.pending@,
            tick: self.tick,
        }
    }
}

impl WallGifsView {
    /// Every animated tile shows one of its frames, and no tile is decoded twice at once.
    pub open spec fn wf(self) -> bool {
        &&& self.anims.dom() == self.cursors.dom()
        &&& forall|i: usize| #[trigger]
            self.anims.contains_key(i) ==> self.anims[i].wf() && self.cursors[i]
                < self.anims[i].delays@.len()
        &&& self.pending.no_duplicates()
    }

    /// Only the animations of resident tiles.
    pub open spec fn retained(self, p: PoolView) -> WallGifsView {
        WallGifsView {
            anims: self.anims.restrict(p.tiles.dom()),
            cursors: self.cursors.restrict(p.tiles.dom()),
            ..self
        }
    }
}

/// No tile is animated.
pub open spec fn no_gifs(tick: u64) -> WallGifsView {
    WallGifsView { anims: Map::empty(), cursors: Map::empty(), pending: seq![], tick }
}

/// How far a time lies behind another one.
pub open spec fn elapsed(now: u64, then: u64) -> int {
    if now >= then {
        now - then
    } else {
        0
    }
}

/// How far a time lies behind another one.
pub fn since(now: u64, then: u64) -> (ns: u64)
    ensures
        ns == elapsed(now, then),
{
    if now >= then {
        now - then
    } else {
        0
    }
}

/// Whether `i` is among the keys from place `k` on.
spec fn in_tail(keys: Seq<usize>, k: int, i: usize) -> bool {
    exists|n: int| k <= n < keys.len() && #[trigger] keys[n] == i
}

impl WallGifs {
    /// No tile is animated.
    pub fn new(tick: u64) -> (gifs: WallGifs)
        ensures
            gifs@ == no_gifs(tick),
            gifs@.wf(),
    {
        let gifs = WallGifs {
            anims: BTreeMap::new(),
            cursors: BTreeMap::new(),
            pending: Vec::new(),
            tick,
        };
        assert(gifs@ =~= no_gifs(tick));
        gifs
    }

    /// Drops the animations of tiles that are no longer resident.
    pub fn retain(&mut self, pool: &Pool)
        requires
            old(self)@.wf(),
        ensures
            final(self)@ == old(self)@.retained(pool@),
            final(self)@.wf(),
    {
        let ghost before = self@;
        let keys = keys_of(&self.anims);
        let mut k: usize = 0;
        assert forall|i: usize| before.anims.contains_key(i) implies #[trigger] in_tail(
            keys@,
            0,
            i,
        ) by {
            assert(keys@.contains(i));
            assert(keys@[keys@.index_of(i)] == i);
        }
        while k < keys.len()
            invariant
                k <= keys.len(),
                before.wf(),
                increasing(keys@),
                forall|i: usize| keys@.contains(i) <==> before.anims.dom().contains(i),
                self@.pending == before.pending,
                self@.tick == before.tick,
                forall|i: usize| #[trigger]
                    self@.anims.dom().contains(i) <==> before.anims.dom().contains(i) && (
                    pool@.tiles.dom().contains(i) || in_tail(keys@, k as int, i)),
                forall|i: usize| #[trigger]
                    self@.cursors.dom().contains(i) <==> before.anims.dom().contains(i) && (
                    pool@.tiles.dom().contains(i) || in_tail(keys@, k as int, i)),
                forall|i: usize| #[trigger]
                    self@.anims.dom().contains(i) ==> self@.anims[i] == before.anims[i]
                        && self@.cursors[i] == before.cursors[i],
            decreases keys.len() - k,
        {
            let i: usize = keys[k];
            let ghost a0 = self@.anims;
            let ghost c0 = self@.cursors;
            if pool.get(i).is_none() {
                self.anims.remove(&i);
                self.cursors.remove(&i);
            }
            proof {
                assert forall|j: usize| #[trigger]
                    in_tail(keys@, k + 1, j) <==> j != i && in_tail(keys@, k as int, j) by {
                    if in_tail(keys@, k as int, j) && j != i {
                        let n = choose|n: int| k <= n < keys@.len() && #[trigger] keys@[n] == j;
                        assert(k + 1 <= n && keys@[n] == j);
                    }
                    if in_tail(keys@, k + 1, j) {
                        let n = choose|n: int| k + 1 <= n < keys@.len() && #[trigger] keys@[n] == j;
                        assert(keys@[k as int] < keys@[n]);
                    }
                }
                assert(in_tail(keys@, k as int, i)) by {
                    assert(keys@[k as int] == i);
                }
                assert forall|j: usize| #[trigger]
                    self@.anims.dom().contains(j) <==> before.anims.dom().contains(j) && (
                    pool@.tiles.dom().contains(j) || in_tail(keys@, k + 1, j)) by {
                    assert(a0.dom().contains(j) == (before.anims.dom().contains(j) && (
                    pool@.tiles.dom().contains(j) || in_tail(keys@, k as int, j))));
                }
                assert forall|j: usize| #[trigger]
                    self@.cursors.dom().contains(j) <==> before.anims.dom().contains(j) && (
                    pool@.tiles.dom().contains(j) || in_tail(keys@, k + 1, j)) by {
                    assert(c0.dom().contains(j) == (before.anims.dom().contains(j) && (
                    pool@.tiles.dom().contains(j) || in_tail(keys@, k as int, j))));
                }
            }
            k = k + 1;
        }
        assert(self@.anims =~= before.anims.restrict(pool@.tiles.dom()));
        assert(self@.cursors =~= before.cursors.restrict(pool@.tiles.dom()));
    }
}

/// The tiles that wait, without `index`.
pub open spec fn waiting_without(pending: Seq<usize>, index: usize) -> Seq<usize> {
    if pending.contains(index) {
        pending.remove(pending.index_of(index))
    } else {
        pending
    }
}

pub(crate) fn copied(delays: &Vec<u64>) -> (copy: Vec<u64>)
    ensures
        copy@ == delays@,
{
    let mut copy: Vec<u64> = Vec::new();
    let mut i: usize = 0;
    while i < delays.len()
        invariant
            i <= delays.len(),
            copy@ == delays@.take(i as int),
        decreases delays.len() - i,
    {
        copy.push(delays[i]);
        i = i + 1;
        assert(copy@ =~= delays@.take(i as int));
    }
    assert(copy@ =~= delays@);
    copy
}

/// Whether an atlas can be animated from.
pub open spec fn playable(a: GifAtlas) -> bool {
    a.grid > 0 && a.delays@.len() > 0 && a.total == sum_delays(a.delays@) && a.total > 0
}

/// The animation of an atlas that starts now.
pub open spec fn is_anim_of(g: WallGif, a: GifAtlas, now: u64) -> bool {
    &&& g.grid == a.grid
    &&& g.cell == a.cell
    &&& g.fw == a.fw
    &&& g.fh == a.fh
    &&& g.delays@ == a.delays@
    &&& g.total == a.total
    &&& g.start == now
}

/// `after` are the animations at their next tick, each one at the frame that is due. Between two
/// ticks nothing moves.
pub open spec fn advanced(before: WallGifsView, after: WallGifsView, now: u64) -> bool {
    &&& after.anims == before.anims
    &&& after.pending == before.pending
    &&& elapsed(now, before.tick) < GIF_TICK_NS ==> after == before
    &&& elapsed(now, before.tick) >= GIF_TICK_NS ==> {
        &&& after.tick == now
        &&& after.cursors.dom() == before.cursors.dom()
        &&& forall|i: usize| #[trigger]
            after.anims.contains_key(i) ==> {
                let g = before.anims[i];
                if g.delays@.len() > 1 {
                    is_frame_at(
                        g.delays@,
                        elapsed(now, g.start) % g.total as int,
                        after.cursors[i] as int,
                    )
                } else {
                    after.cursors[i] == before.cursors[i]
                }
            }
    }
}

impl WallGifs {
    /// Whether a tile waits for its animation.
    pub fn is_pending(&self, index: usize) -> (yes: bool)
        ensures
            yes == self@.pending.contains(index),
    {
        let mut k: usize = 0;
        while k < self.pending.len()
            invariant
                k <= self.pending.len(),
                forall|n: int| 0 <= n < k ==> self.pending@[n] != index,
            decreases self.pending.len() - k,
        {
            if self.pending[k] == index {
                return true;
            }
            k = k + 1;
        }
        false
    }

    /// A decode has ended: the tile no longer waits.
    pub fn end_wait(&mut self, index: usize)
        requires
            old(self)@.wf(),
        ensures
            final(self)@ == (WallGifsView {
                pending: waiting_without(old(self)@.pending, index),
                ..old(self)@
            }),
            final(self)@.wf(),
            !final(self)@.pending.contains(index),
    {
        let ghost before = self@;
        let mut k: usize = 0;
        while k < self.pending.len()
            invariant
                k <= self.pending.len(),
                self@ == before,
                before == old(self)@,
                before.wf(),
                forall|n: int| 0 <= n < k ==> self.pending@[n] != index,
            decreases self.pending.len() - k,
        {
            if self.pending[k] == index {
                self.pending.remove(k);
                proof {
                    assert(before.pending.contains(index));
                    assert(before.pending.index_of(index) == k);
                    assert(self@.pending =~= before.pending.remove(k as int));
                    assert(self@ =~= WallGifsView {
                        pending: waiting_without(before.pending, index),
                        ..before
                    });
                    assert forall|a: int, b: int|
                        0 <= a < b < self@.pending.len() implies self@.pending[a]
                        != self@.pending[b] by {
                        let a2 = if a < k {
                            a
                        } else {
                            a + 1
                        };
                        let b2 = if b < k {
                            b
                        } else {
                            b + 1
                        };
                        assert(before.pending[a2] != before.pending[b2]);
                    }
                    if self@.pending.contains(index) {
                        let n = self@.pending.index_of(index);
                        let n2 = if n < k {
                            n
                        } else {
                            n + 1
                        };
                        assert(before.pending[n2] == index);
                    }
                }
                return;
            }
            k = k + 1;
        }
    }

    /// Animates a tile from its atlas, from now on.
    pub fn animate(&mut self, index: usize, atlas: &GifAtlas, now: u64)
        requires
            old(self)@.wf(),
            playable(*atlas),
        ensures
            exists|g: WallGif| #[trigger]
                is_anim_of(g, *atlas, now) && final(self)@ == (WallGifsView {
                    anims: old(self)@.anims.insert(index, g),
                    cursors: old(self)@.cursors.insert(index, 0),
                    ..old(self)@
                }),
            final(self)@.wf(),
    {
        let ghost before = self@;
        let g = WallGif {
            grid: atlas.grid,
            cell: atlas.cell,
            fw: atlas.fw,
            fh: atlas.fh,
            delays: copied(&atlas.delays),
            total: atlas.total,
            start: now,
        };
        assert(is_anim_of(g, *atlas, now));
        let ghost g_view = g;
        self.anims.insert(index, g);
        self.cursors.insert(index, 0);
        proof {
            assert(self@ =~= WallGifsView {
                anims: before.anims.insert(index, g_view),
                cursors: before.cursors.insert(index, 0),
                ..before
            });
            assert(is_anim_of(g_view, *atlas, now));
            assert(self@.anims.dom() =~= self@.cursors.dom());
        }
    }

    /// Moves every animation on to the frame that is due. Between two ticks nothing moves.
    pub fn advance(&mut self, now: u64)
        requires
            old(self)@.wf(),
        ensures
            final(self)@.wf(),
            advanced(old(self)@, final(self)@, now),
    {
        let ghost before = self@;
        if since(now, self.tick) < GIF_TICK_NS {
            return;
        }
        self.tick = now;
        let keys = keys_of(&self.anims);
        let mut k: usize = 0;
        while k < keys.len()
            invariant
                k <= keys.len(),
                before.wf(),
                increasing(keys@),
                forall|i: usize| keys@.contains(i) <==> before.anims.contains_key(i),
                self@.wf(),
                self@.anims == before.anims,
                self@.pending == before.pending,
                self@.tick == now,
                forall|n: int|
                    0 <= n < k ==> {
                        let i = #[trigger] keys@[n];
                        let g = before.anims[i];
                        if g.delays@.len() > 1 {
                            is_frame_at(
                                g.delays@,
                                elapsed(now, g.start) % g.total as int,
                                self@.cursors[i] as int,
                            )
                        } else {
                            self@.cursors[i] == before.cursors[i]
                        }
                    },
                forall|n: int|
                    k <= n < keys.len() ==> self@.cursors[#[trigger] keys@[n]]
                        == before.cursors[keys@[n]],
            decreases keys.len() - k,
        {
            let i: usize = keys[k];
            let ghost prev = self@;
            assert(keys@.contains(i));
            assert(before.anims.contains_key(i));
            match self.anims.get(&i) {
                Some(g) => {
                    if g.delays.len() > 1 {
                        let cur: usize = frame_at(&g.delays, g.total, since(now, g.start));
                        self.cursors.insert(i, cur);
                    }
                },
                None => {},
            }
            proof {
                assert(self@.cursors.dom() =~= prev.cursors.dom());
                assert forall|n: int| 0 <= n < keys.len() && n != k implies #[trigger] keys@[n]
                    != i by {
                    if n < k {
                        assert(keys@[n] < keys@[k as int]);
                    } else {
                        assert(keys@[k as int] < keys@[n]);
                    }
                }
            }
            k = k + 1;
        }
        proof {
            assert forall|i: usize| #[trigger] self@.anims.contains_key(i) implies {
                let g = before.anims[i];
                if g.delays@.len() > 1 {
                    is_frame_at(
                        g.delays@,
                        elapsed(now, g.start) % g.total as int,
                        self@.cursors[i] as int,
                    )
                } else {
                    self@.cursors[i] == before.cursors[i]
                }
            } by {
                assert(keys@.contains(i));
                assert(keys@[keys@.index_of(i)] == i);
            }
        }
    }
}

/// How far a tile is from the centre, in columns.
pub struct NearKey {
    pub columns: i128,
}

impl SortKey for NearKey {
    open spec fn le(self, other: Self) -> bool {
        self.columns <= other.columns
    }

    proof fn le_is_total(a: Self, b: Self) {
    }

    proof fn le_is_transitive(a: Self, b: Self, c: Self) {
    }

    fn no_later(&self, other: &Self) -> (yes: bool) {
        self.columns <= other.columns
    }
}

/// How far a tile is from the column `center`.
pub open spec fn distance(i: usize, center: int) -> int {
    if col_of(i) >= center {
        col_of(i) - center
    } else {
        center - col_of(i)
    }
}

/// The tiles by distance from the centre, nearest first; equally near ones keep their places.
pub open spec fn is_near_order(tiles: Seq<usize>, center: int, order: Seq<usize>) -> bool {
    &&& holds_range(order, 0, tiles.len() as int)
    &&& forall|a: int, b: int|
        0 <= a < b < order.len() ==> {
            let (i, j) = (#[trigger] order[a] as int, #[trigger] order[b] as int);
            distance(tiles[i], center) < distance(tiles[j], center) || distance(tiles[i], center)
                == distance(tiles[j], center) && i < j
        }
}

/// The library, its displayed part, and what is loaded of it.
pub struct Wall {
    /// The whole library, as loaded.
    pub all: Vec<Source>,
    /// The displayed part: positions in the library.
    pub shown: Vec<usize>,
    /// Counts the displayed parts, so that what was asked for an earlier one is told apart.
    pub generation: u64,
    pub folder: Option<PathBuf>,
    pub pool: Pool,
    pub gifs: WallGifs,
    /// Decodes in flight at the end of the last frame.
    pub prev_inflight: usize,
}

/// As many tiles as columns and rows can be counted for.
pub open spec fn countable_tiles(n: nat) -> bool {
    n <= usize::MAX - 2 && n <= i64::MAX - 2
}

impl Wall {
    /// The displayed tiles are of the library, and what is loaded is of the displayed tiles.
    pub open spec fn wf(self) -> bool {
        &&& countable_tiles(self.all@.len())
        &&& countable_tiles(self.shown@.len())
        &&& forall|k: int|
            0 <= k < self.shown@.len() ==> #[trigger] self.shown@[k] < self.all@.len()
        &&& self.pool@.wf()
        &&& self.pool@.within(self.shown@.len() as usize)
        &&& self.gifs@.wf()
    }

    /// What a displayed tile shows.
    pub open spec fn source_at(self, i: int) -> SourceView {
        self.all@[self.shown@[i] as int]@
    }

    /// The displayed tile is of a kind of media.
    pub open spec fn is_kind(self, i: int, kind: Kind) -> bool {
        0 <= i < self.shown@.len() && (self.source_at(i) matches SourceView::Media(k, _) && k
            == kind)
    }

    /// The displayed tile is a GIF.
    pub open spec fn is_gif(self, i: int) -> bool {
        0 <= i < self.shown@.len() && (self.source_at(i) matches SourceView::Media(k, bytes) && k
            == Kind::Image && has_ext(bytes, "gif"@))
    }

    /// The source of a displayed tile.
    pub fn source(&self, i: usize) -> (s: Option<&Source>)
        requires
            self.wf(),
        ensures
            match s {
                Some(s) => i < self.shown@.len() && s@ == self.source_at(i as int) && *s
                    == self.all@[self.shown@[i as int] as int],
                None => i >= self.shown@.len(),
            },
    {
        if i < self.shown.len() {
            let at: usize = self.shown[i];
            assert(self.shown@[i as int] < self.all@.len());
            Some(&self.all[at])
        } else {
            None
        }
    }

    /// Whether a displayed tile is a video.
    pub fn is_video(&self, i: usize) -> (yes: bool)
        requires
            self.wf(),
        ensures
            yes == self.is_kind(i as int, Kind::Video),
    {
        match self.source(i) {
            Some(Source::Video(_)) => true,
            _ => false,
        }
    }

    /// Whether a displayed tile is music.
    pub fn is_audio(&self, i: usize) -> (yes: bool)
        requires
            self.wf(),
        ensures
            yes == self.is_kind(i as int, Kind::Audio),
    {
        match self.source(i) {
            Some(Source::Audio(_)) => true,
            _ => false,
        }
    }

    /// Whether a displayed tile is a GIF.
    pub fn is_gif_tile(&self, i: usize) -> (yes: bool)
        requires
            self.wf(),
        ensures
            yes == self.is_gif(i as int),
    {
        match self.source(i) {
            Some(Source::File(p)) => is_gif(p),
            _ => false,
        }
    }

    /// A tile whose animation could be decoded: a loaded GIF that is neither animated nor on its
    /// way.
    pub open spec fn is_candidate(self, i: usize) -> bool {
        &&& self.pool@.is_ready(i)
        &&& !self.gifs@.anims.contains_key(i)
        &&& !self.gifs@.pending.contains(i)
        &&& self.is_gif(i as int)
    }

    /// `started` are the next animations to decode: the candidates nearest to the centre, as many
    /// as may be decoded at once.
    pub open spec fn are_starts(self, center: int, started: Seq<usize>) -> bool {
        let pending = self.gifs@.pending.len() as int;
        let room = if pending < MAX_GIF_DECODES {
            MAX_GIF_DECODES - pending
        } else {
            0
        };
        exists|tiles: Seq<usize>, order: Seq<usize>|
            {
                &&& increasing(tiles)
                &&& forall|i: usize| tiles.contains(i) <==> self.is_candidate(i)
                &&& #[trigger] is_near_order(tiles, center, order)
                &&& started == arranged(tiles, order).take(
                    min_int(tiles.len() as int, room),
                )
            }
    }

    fn candidates(&self) -> (tiles: Vec<usize>)
        requires
            self.wf(),
        ensures
            increasing(tiles@),
            forall|i: usize| tiles@.contains(i) <==> self.is_candidate(i),
    {
        let keys = self.pool.indices();
        let mut tiles: Vec<usize> = Vec::new();
        let mut k: usize = 0;
        while k < keys.len()
            invariant
                self.wf(),
                k <= keys.len(),
                increasing(keys@),
                forall|i: usize| keys@.contains(i) <==> self.pool@.tiles.contains_key(i),
                increasing(tiles@),
                forall|n: int|
                    0 <= n < tiles.len() ==> self.is_candidate(#[trigger] tiles@[n]) && (k
                        < keys.len() ==> tiles@[n] < keys@[k as int]),
                forall|n: int|
                    0 <= n < k && self.is_candidate(#[trigger] keys@[n]) ==> tiles@.contains(
                        keys@[n],
                    ),
            decreases keys.len() - k,
        {
            let i: usize = keys[k];
            let ready: bool = match self.pool.get(i) {
                Some(Tile::Ready { .. }) => true,
                _ => false,
            };
            let ghost before = tiles@;
            if ready && !self.gifs.anims.contains_key(&i) && !self.gifs.is_pending(i)
                && self.is_gif_tile(i) {
                tiles.push(i);
                assert(tiles@[before.len() as int] == i);
            }
            proof {
                assert forall|x: usize| before.contains(x) implies tiles@.contains(x) by {
                    assert(tiles@[before.index_of(x)] == x);
                }
                if k + 1 < keys.len() {
                    assert(keys@[k as int] < keys@[k + 1]);
                }
            }
            k = k + 1;
        }
        assert forall|i: usize| tiles@.contains(i) <==> self.is_candidate(i) by {
            if self.is_candidate(i) {
                assert(keys@.contains(i));
                assert(keys@[keys@.index_of(i)] == i);
            }
        }
        tiles
    }

    /// Chooses the next animations to decode, nearest to the centre first.
    pub fn start_gifs(&mut self, center: i64) -> (started: Vec<usize>)
        requires
            old(self).wf(),
        ensures
            old(self).are_starts(center as int, started@),
            final(self).gifs@ == (WallGifsView {
                pending: old(self).gifs@.pending + started@,
                ..old(self).gifs@
            }),
            *final(self) == (Wall { gifs: final(self).gifs, ..*old(self) }),
            final(self).wf(),
    {
        let ghost w = *self;
        let tiles = self.candidates();
        let mut keys: Vec<NearKey> = Vec::new();
        let mut k: usize = 0;
        while k < tiles.len()
            invariant
                k <= tiles.len(),
                keys.len() == k,
                forall|n: int|
                    0 <= n < k ==> (#[trigger] keys@[n]).columns == distance(
                        tiles@[n],
                        center as int,
                    ),
            decreases tiles.len() - k,
        {
            let col: i128 = (tiles[k] / ROWS) as i128;
            let mid: i128 = center as i128;
            keys.push(
                NearKey {
                    columns: if col >= mid {
                        col - mid
                    } else {
                        mid - col
                    },
                },
            );
            k = k + 1;
        }
        let order = stable_order(&keys);
        proof {
            assert forall|a: int, b: int| 0 <= a < b < order@.len() implies {
                let (i, j) = (#[trigger] order@[a] as int, #[trigger] order@[b] as int);
                distance(tiles@[i], center as int) < distance(tiles@[j], center as int)
                    || distance(tiles@[i], center as int) == distance(tiles@[j], center as int) && i
                    < j
            } by {
                assert(before(keys@, order@[a] as int, order@[b] as int));
                assert(keys@[order@[a] as int].columns == distance(
                    tiles@[order@[a] as int],
                    center as int,
                ));
                assert(keys@[order@[b] as int].columns == distance(
                    tiles@[order@[b] as int],
                    center as int,
                ));
            }
            assert(is_near_order(tiles@, center as int, order@));
        }
        let ghost near = arranged(tiles@, order@);
        let mut started: Vec<usize> = Vec::new();
        let mut n: usize = 0;
        assert(self.gifs@.pending =~= w.gifs@.pending + near.take(0));
        while n < order.len() && self.gifs.pending.len() < MAX_GIF_DECODES
            invariant
                w.wf(),
                n <= order.len() == tiles.len(),
                near == arranged(tiles@, order@),
                is_near_order(tiles@, center as int, order@),
                forall|i: usize| tiles@.contains(i) <==> w.is_candidate(i),
                increasing(tiles@),
                started@ == near.take(n as int),
                self.gifs@.pending == w.gifs@.pending + near.take(n as int),
                self.gifs@.pending.no_duplicates(),
                self.gifs@ == (WallGifsView { pending: self.gifs@.pending, ..w.gifs@ }),
                *self == (Wall { gifs: self.gifs, ..w }),
                n > 0 ==> w.gifs@.pending.len() + n <= 3,
            decreases order.len() - n,
        {
            let at: usize = order[n];
            assert(order@[n as int] < tiles@.len());
            let i: usize = tiles[at];
            let ghost prev = self.gifs@.pending;
            proof {
                assert(near[n as int] == i);
                assert(tiles@.contains(i));
                if prev.contains(i) {
                    let q = prev.index_of(i);
                    let held = w.gifs@.pending.len() as int;
                    if q < held {
                        assert(w.gifs@.pending[q] == i);
                        assert(w.gifs@.pending.contains(i));
                        assert(w.is_candidate(i));
                    } else {
                        let c = q - held;
                        assert(near.take(n as int)[c] == i);
                        assert(near[c] == i);
                        let (x, y) = (order@[c] as int, order@[n as int] as int);
                        assert(0 <= order@[c] < tiles@.len());
                        assert(tiles@[x] == tiles@[y]);
                        if x < y {
                            assert(tiles@[x] < tiles@[y]);
                        } else if y < x {
                            assert(tiles@[y] < tiles@[x]);
                        }
                        assert(x == y);
                        assert(distance(tiles@[x], center as int) == distance(
                            tiles@[y],
                            center as int,
                        ));
                    }
                    assert(false);
                }
                assert(!prev.contains(i));
            }
            self.gifs.pending.push(i);
            started.push(i);
            n = n + 1;
            proof {
                assert(started@ =~= near.take(n as int));
                assert(self.gifs@.pending =~= w.gifs@.pending + near.take(n as int));
                assert(self.gifs@.pending =~= prev.push(i));
                assert forall|a: int, b: int|
                    0 <= a < b < self.gifs@.pending.len() implies self.gifs@.pending[a]
                    != self.gifs@.pending[b] by {
                    if b == prev.len() {
                        assert(prev[a] != i) by {
                            assert(prev.contains(prev[a]));
                        }
                    }
                }
            }
        }
        proof {
            let pending = w.gifs@.pending.len() as int;
            let room = if pending < MAX_GIF_DECODES {
                MAX_GIF_DECODES - pending
            } else {
                0
            };
            assert(n == min_int(tiles@.len() as int, room));
            assert(is_near_order(tiles@, center as int, order@));
            assert(w.are_starts(center as int, started@));
        }
        started
    }

    /// What becomes of a decoded animation: its tile no longer waits, and is animated where it is
    /// still loaded for the same displayed part. Returns the layer that the atlas goes to.
    pub fn deliver_gif(
        &mut self,
        index: usize,
        generation: u64,
        atlas: Option<&GifAtlas>,
        now: u64,
    ) -> (layer: Option<u32>)
        requires
            old(self).wf(),
            atlas matches Some(a) ==> playable(*a),
        ensures
            final(self).wf(),
            *final(self) == (Wall { gifs: final(self).gifs, ..*old(self) }),
            layer == (if atlas is Some && generation == old(self).generation
                && old(self).pool@.is_ready(index) {
                Some(old(self).pool@.layer_of(index))
            } else {
                None
            }),
            ({
                let waited = WallGifsView {
                    pending: waiting_without(old(self).gifs@.pending, index),
                    ..old(self).gifs@
                };
                if layer is Some {
                    exists|g: WallGif| #[trigger]
                        is_anim_of(g, *atlas->0, now) && final(self).gifs@ == (WallGifsView {
                            anims: waited.anims.insert(index, g),
                            cursors: waited.cursors.insert(index, 0),
                            ..waited
                        })
                } else {
                    final(self).gifs@ == waited
                }
            }),
    {
        self.gifs.end_wait(index);
        match atlas {
            Some(a) => {
                if generation == self.generation {
                    match self.pool.get(index) {
                        Some(Tile::Ready { layer, .. }) => {
                            self.gifs.animate(index, a, now);
                            return Some(layer);
                        },
                        _ => {},
                    }
                }
            },
            None => {},
        }
        None
    }
}

/// Positions below `n` without repetition are at most `n` many.
proof fn lemma_distinct_len(s: Seq<usize>, n: nat)
    requires
        s.no_duplicates(),
        forall|k: int| 0 <= k < s.len() ==> #[trigger] s[k] < n,
        n <= usize::MAX,
    ensures
        s.len() <= n,
{
    let all = Seq::new(n, |k: int| k as usize);
    vstd::seq_lib::seq_to_set_is_finite(all);
    all.lemma_cardinality_of_set();
    s.unique_seq_to_set();
    assert forall|x: usize| s.to_set().contains(x) implies all.to_set().contains(x) by {
        assert(s[s.index_of(x)] == x);
        assert(all[x as int] == x);
    }
    vstd::set_lib::lemma_len_subset(s.to_set(), all.to_set());
}

impl Wall {
    /// The wall of a library that shows all of it, and has loaded nothing.
    pub fn new(all: Vec<Source>, folder: Option<PathBuf>, now: u64) -> (wall: Wall)
        requires
            countable_tiles(all@.len()),
        ensures
            wall.wf(),
            wall.all == all,
            wall.folder == folder,
            wall.shown@ == Seq::new(all@.len(), |k: int| k as usize),
            wall.generation == 0,
            wall.pool@ == empty_pool(),
            wall.gifs@ == no_gifs(now),
            wall.prev_inflight == 0,
    {
        let mut shown: Vec<usize> = Vec::new();
        let mut k: usize = 0;
        while k < all.len()
            invariant
                k <= all.len(),
                shown@ == Seq::new(k as nat, |k: int| k as usize),
            decreases all.len() - k,
        {
            shown.push(k);
            k = k + 1;
            assert(shown@ =~= Seq::new(k as nat, |k: int| k as usize));
        }
        Wall {
            all,
            shown,
            generation: 0,
            folder,
            pool: Pool::new(),
            gifs: WallGifs::new(now),
            prev_inflight: 0,
        }
    }

    /// Shows what a query shows of the library, and starts loading anew.
    pub fn show(&mut self, times: &Vec<FileTimes>, q: &Query)
        requires
            old(self).wf(),
            old(self).all@.len() == times@.len(),
            old(self).generation < u64::MAX,
        ensures
            final(self).wf(),
            is_view(sources_view(old(self).all@), times@, *q, final(self).shown@),
            final(self).all == old(self).all,
            final(self).folder == old(self).folder,
            final(self).generation == old(self).generation + 1,
            final(self).pool@ == empty_pool(),
            final(self).gifs@ == no_gifs(old(self).gifs@.tick),
            final(self).prev_inflight == old(self).prev_inflight,
    {
        let shown = view_of(&self.all, times, q);
        proof {
            let sources = sources_view(self.all@);
            view_shows_what_passes(sources, times@, *q, shown@);
            assert forall|k: int| 0 <= k < shown@.len() implies #[trigger] shown@[k]
                < self.all@.len() by {
                assert(shown@.contains(shown@[k]));
            }
            lemma_distinct_len(shown@, self.all@.len());
        }
        let tick: u64 = self.gifs.tick;
        self.shown = shown;
        self.generation = self.generation + 1;
        self.pool = Pool::new();
        self.gifs = WallGifs::new(tick);
    }

    /// Columns of the wall.
    pub fn columns(&self) -> (cols: i64)
        requires
            self.wf(),
        ensures
            cols == cols_for(self.shown@.len() as int),
    {
        crate::pool::total_cols(self.shown.len())
    }

    /// The tile at a column and a row, where there is one.
    pub fn tile_at(&self, col: i64, row: i64) -> (i: Option<usize>)
        requires
            self.wf(),
        ensures
            i == (if 0 <= col && 0 <= row < 3 && col * 3 + row < self.shown@.len() {
                Some((col * 3 + row) as usize)
            } else {
                None
            }),
    {
        if col < 0 || row < 0 || row >= 3 {
            return None;
        }
        if col >= self.columns() {
            return None;
        }
        let i: usize = col as usize * ROWS + row as usize;
        if i < self.shown.len() {
            Some(i)
        } else {
            None
        }
    }

    /// Tiles that own a layer.
    pub fn ready_count(&self) -> (n: usize)
        requires
            self.wf(),
        ensures
            n == self.pool@.ready().len(),
    {
        proof {
            crate::pool_laws::layers_add_up(self.pool@);
        }
        128 - self.pool.free_count()
    }
}

/// How a tile is painted.
#[derive(Clone, Copy, PartialEq, Eq, Structural, Debug)]
pub enum Look {
    /// Mirrored below the bottom row.
    Reflection,
    /// Not loaded yet.
    Skeleton,
    Photo,
    /// The tile under the pointer, above its neighbours.
    Hovered,
}

/// One painted tile.
#[derive(Clone, Copy, PartialEq, Eq, Structural, Debug)]
pub struct Instance {
    pub index: usize,
    pub look: Look,
    pub layer: u32,
    /// The frame that an animated tile shows.
    pub frame: Option<usize>,
}

/// Whether a tile is painted with a look.
pub open spec fn has_look(
    p: PoolView,
    i: usize,
    look: Look,
    reflections: bool,
    hover: Option<usize>,
) -> bool {
    match look {
        Look::Reflection => p.is_ready(i) && i as int % 3 == 2 && reflections,
        Look::Skeleton => !p.is_ready(i),
        Look::Photo => p.is_ready(i) && hover != Some(i),
        Look::Hovered => p.is_ready(i) && hover == Some(i),
    }
}

/// A tile as it is painted with a look.
pub open spec fn instance_of(
    p: PoolView,
    cursors: Map<usize, usize>,
    i: usize,
    look: Look,
) -> Instance {
    if look is Skeleton {
        Instance { index: i, look, layer: 0, frame: None }
    } else {
        Instance {
            index: i,
            look,
            layer: p.layer_of(i),
            frame: if cursors.contains_key(i) {
                Some(cursors[i])
            } else {
                None
            },
        }
    }
}

/// The tiles of the window, column by column.
pub open spec fn window_tiles(window: Window, total: int) -> Seq<usize> {
    let from = 3 * window.first;
    let to = min_int(3 * (window.last + 1), total);
    Seq::new(
        (if to > from {
            to - from
        } else {
            0
        }) as nat,
        |k: int| (from + k) as usize,
    )
}

/// The tiles that are painted with a look.
pub open spec fn painted(
    p: PoolView,
    cursors: Map<usize, usize>,
    tiles: Seq<usize>,
    look: Look,
    reflections: bool,
    hover: Option<usize>,
) -> Seq<Instance>
    decreases tiles.len(),
{
    if tiles.len() == 0 {
        seq![]
    } else {
        let rest = painted(p, cursors, tiles.drop_last(), look, reflections, hover);
        if has_look(p, tiles.last(), look, reflections, hover) {
            rest.push(instance_of(p, cursors, tiles.last(), look))
        } else {
            rest
        }
    }
}

/// The painted tiles, back to front: reflections, then what is not loaded, then photos, then the
/// tile under the pointer.
pub open spec fn all_painted(
    p: PoolView,
    cursors: Map<usize, usize>,
    tiles: Seq<usize>,
    reflections: bool,
    hover: Option<usize>,
) -> Seq<Instance> {
    painted(p, cursors, tiles, Look::Reflection, reflections, hover) + painted(
        p,
        cursors,
        tiles,
        Look::Skeleton,
        reflections,
        hover,
    ) + painted(p, cursors, tiles, Look::Photo, reflections, hover) + painted(
        p,
        cursors,
        tiles,
        Look::Hovered,
        reflections,
        hover,
    )
}

/// As many instances as can be painted.
pub open spec fn capped(instances: Seq<Instance>) -> Seq<Instance> {
    instances.take(min_int(instances.len() as int, INSTANCE_CAP as int))
}

proof fn lemma_painted_len(
    p: PoolView,
    cursors: Map<usize, usize>,
    tiles: Seq<usize>,
    reflections: bool,
    hover: Option<usize>,
)
    ensures
        painted(p, cursors, tiles, Look::Reflection, reflections, hover).len() <= tiles.len(),
        painted(p, cursors, tiles, Look::Skeleton, reflections, hover).len() + painted(
            p,
            cursors,
            tiles,
            Look::Photo,
            reflections,
            hover,
        ).len() + painted(p, cursors, tiles, Look::Hovered, reflections, hover).len()
            == tiles.len(),
    decreases tiles.len(),
{
    if tiles.len() > 0 {
        lemma_painted_len(p, cursors, tiles.drop_last(), reflections, hover);
    }
}

/// Every tile of the window is painted, and none is cut off: a window and its reflections are
/// fewer than what can be painted.
pub proof fn window_is_painted_whole(
    p: PoolView,
    cursors: Map<usize, usize>,
    window: Window,
    total: int,
    reflections: bool,
    hover: Option<usize>,
)
    requires
        narrow(window),
    ensures
        ({
            let tiles = window_tiles(window, total);
            let all = all_painted(p, cursors, tiles, reflections, hover);
            capped(all) == all && all.len() >= tiles.len()
        }),
{
    let tiles = window_tiles(window, total);
    lemma_painted_len(p, cursors, tiles, reflections, hover);
    let all = all_painted(p, cursors, tiles, reflections, hover);
    assert(tiles.len() <= 99);
    assert(capped(all) =~= all);
}

impl Wall {
    fn paint(
        &self,
        window: Window,
        look: Look,
        reflections: bool,
        hover: Option<usize>,
        out: &mut Vec<Instance>,
    )
        requires
            self.wf(),
            0 <= window.first,
            window.last < cols_for(self.shown@.len() as int),
        ensures
            final(out)@ == old(out)@ + painted(
                self.pool@,
                self.gifs@.cursors,
                window_tiles(window, self.shown@.len() as int),
                look,
                reflections,
                hover,
            ),
    {
        let ghost before = out@;
        let ghost tiles = window_tiles(window, self.shown@.len() as int);
        let total: usize = self.shown.len();
        if window.last < window.first {
            assert(tiles =~= seq![]);
            assert(out@ =~= before + painted(
                self.pool@,
                self.gifs@.cursors,
                tiles,
                look,
                reflections,
                hover,
            ));
            return;
        }
        let from: usize = window.first as usize * 3;
        let past: usize = (window.last as usize + 1) * 3;
        let to: usize = if past < total {
            past
        } else {
            total
        };
        let mut i: usize = from;
        assert(tiles.take(0) =~= seq![]);
        assert(out@ =~= before + painted(
            self.pool@,
            self.gifs@.cursors,
            tiles.take(0),
            look,
            reflections,
            hover,
        ));
        while i < to
            invariant
                self.wf(),
                from <= i,
                i <= to || from == i,
                to <= total,
                from == 3 * window.first,
                to == min_int(3 * (window.last + 1), total as int),
                total == self.shown@.len(),
                tiles == window_tiles(window, total as int),
                out@ == before + painted(
                    self.pool@,
                    self.gifs@.cursors,
                    tiles.take(i - from),
                    look,
                    reflections,
                    hover,
                ),
            decreases to - i,
        {
            let ghost k = i - from;
            proof {
                assert(tiles.take(k + 1).drop_last() =~= tiles.take(k));
                assert(tiles.take(k + 1).last() == i);
            }
            let frame: Option<usize> = match self.gifs.cursors.get(&i) {
                Some(cur) => Some(*cur),
                None => None,
            };
            let hovered: bool = hover == Some(i);
            match self.pool.get(i) {
                Some(Tile::Ready { layer, .. }) => {
                    let show: bool = match look {
                        Look::Reflection => i % ROWS == 2 && reflections,
                        Look::Skeleton => false,
                        Look::Photo => !hovered,
                        Look::Hovered => hovered,
                    };
                    if show {
                        out.push(Instance { index: i, look, layer, frame });
                    }
                },
                _ => {
                    if look == Look::Skeleton {
                        out.push(Instance { index: i, look, layer: 0, frame: None });
                    }
                },
            }
            proof {
                let next = painted(
                    self.pool@,
                    self.gifs@.cursors,
                    tiles.take(k + 1),
                    look,
                    reflections,
                    hover,
                );
                assert(out@ =~= before + next);
            }
            i = i + 1;
        }
        proof {
            assert(tiles.take(i - from) =~= tiles);
        }
    }

    /// The tiles to paint, back to front.
    pub fn instances(
        &self,
        window: Window,
        reflections: bool,
        hover: Option<usize>,
    ) -> (out: Vec<Instance>)
        requires
            self.wf(),
            0 <= window.first,
            window.last < cols_for(self.shown@.len() as int),
        ensures
            out@ == capped(
                all_painted(
                    self.pool@,
                    self.gifs@.cursors,
                    window_tiles(window, self.shown@.len() as int),
                    reflections,
                    hover,
                ),
            ),
    {
        let mut out: Vec<Instance> = Vec::new();
        self.paint(window, Look::Reflection, reflections, hover, &mut out);
        self.paint(window, Look::Skeleton, reflections, hover, &mut out);
        self.paint(window, Look::Photo, reflections, hover, &mut out);
        self.paint(window, Look::Hovered, reflections, hover, &mut out);
        let ghost all = all_painted(
            self.pool@,
            self.gifs@.cursors,
            window_tiles(window, self.shown@.len() as int),
            reflections,
            hover,
        );
        assert(out@ =~= all);
        out.truncate(INSTANCE_CAP);
        assert(out@ =~= capped(all));
        out
    }
}

} // verus!
