//! Residency: which tiles of the library are loaded, and which texture layer each one owns.
//!
//! A fixed number of texture-array layers is recycled as tiles scroll in and out of a window of
//! columns around the camera. The library may be of any size; what is loaded is not.

use crate::stream_laws::{
    comes_first, is_missing, nearest_first, nearest_tiles_are_asked_for_first,
};
use std::collections::BTreeMap;
use vstd::prelude::*;
use vstd::std_specs::iter::IteratorSpec;

verus! {

broadcast use vstd::std_specs::btree::group_btree_axioms;

/// Rows of the wall. Tiles are laid out column by column.
pub const ROWS: usize = 3;

/// Texture-array layers in the pool.
pub const POOL: u32 = 128;

/// Columns kept resident on each side of the centre column.
pub const KEEP_COLS: i64 = 16;

/// Thumbnail decodes that may be in flight before the window stops asking for more.
pub const MAX_INFLIGHT: usize = 32;

/// Layer uploads per frame.
pub const MAX_UPLOADS_PER_FRAME: usize = 10;

/// Status of a resident tile.
#[derive(Clone, Copy, PartialEq, Eq, Structural, Debug)]
pub enum Tile {
    /// A decode is on its way.
    Loading,
    /// The thumbnail (of `w` by `h` pixels) sits in `layer`.
    Ready { layer: u32, w: u32, h: u32 },
    /// The decode failed.
    Failed,
}

/// A range of columns, both ends included; empty when `last < first`.
#[derive(Clone, Copy, PartialEq, Eq, Structural, Debug)]
pub struct Window {
    pub first: i64,
    pub last: i64,
}

/// A finished decode, without its pixels.
#[derive(Clone, Copy, PartialEq, Eq, Structural, Debug)]
pub struct Finished {
    pub index: usize,
    /// The library generation that the decode was asked for in.
    pub gen: u64,
    pub w: u32,
    pub h: u32,
    /// No pixels came back.
    pub empty: bool,
    /// A full-resolution decode for the lightbox, not a thumbnail.
    pub full: bool,
}

/// What became of a finished decode.
#[derive(Clone, Copy, PartialEq, Eq, Structural, Debug)]
pub enum Settled {
    /// Not a thumbnail: nothing to do here.
    Full,
    /// It belongs to an earlier library.
    Stale,
    /// Nobody waits for it.
    Unwanted,
    /// The tile is marked as failed.
    Failed,
    /// The tile owns `layer` now; its pixels are to be uploaded there.
    Uploaded { layer: u32 },
    /// No layer was free; the tile is asked for again later.
    NoLayer,
    /// The tile scrolled out of the window meanwhile.
    Gone,
}

/// One upload of a frame: the position of the decode in the inbox, and the layer it goes to.
#[derive(Clone, Copy, PartialEq, Eq, Structural, Debug)]
pub struct Upload {
    pub at: usize,
    pub layer: u32,
}

/// The mathematical content of a [`Pool`].
#[verifier::ext_equal]
pub struct PoolView {
    pub tiles: Map<usize, Tile>,
    pub free: Seq<u32>,
    pub inflight: nat,
}

/// The column of a tile.
pub open spec fn col_of(index: usize) -> int {
    index as int / 3
}

pub open spec fn in_cols(window: Window, index: usize) -> bool {
    window.first <= col_of(index) <= window.last
}

pub open spec fn min_int(a: int, b: int) -> int {
    if a <= b {
        a
    } else {
        b
    }
}

pub open spec fn max_int(a: int, b: int) -> int {
    if a >= b {
        a
    } else {
        b
    }
}

/// The columns within `KEEP_COLS` of `center` that the wall has.
pub open spec fn is_window(window: Window, center: int, total_cols: int) -> bool {
    &&& window.first == max_int(center - KEEP_COLS, 0)
    &&& window.last == min_int(center + KEEP_COLS, total_cols - 1)
}

/// A window that is no wider than the streaming window of the wall.
pub open spec fn narrow(window: Window) -> bool {
    &&& 0 <= window.first
    &&& window.last - window.first <= 2 * KEEP_COLS
}

/// Whether a column lies in the window.
pub open spec fn col_kept(window: Window, col: int) -> bool {
    window.first <= col <= window.last
}

/// The columns kept loaded around `center`.
pub fn window_cols(center: i64, total_cols: i64) -> (window: Window)
    requires
        i64::MIN + KEEP_COLS <= center <= i64::MAX - KEEP_COLS,
        0 <= total_cols,
    ensures
        is_window(window, center as int, total_cols as int),
        narrow(window),
        forall|col: int|
            #![trigger col_kept(window, col)]
            col_kept(window, col) <==> 0 <= col < total_cols && center - 16 <= col <= center + 16,
{
    let first: i64 = if center - KEEP_COLS < 0 {
        0
    } else {
        center - KEEP_COLS
    };
    let last: i64 = if center + KEEP_COLS < total_cols - 1 {
        center + KEEP_COLS
    } else {
        total_cols - 1
    };
    Window { first, last }
}

/// Whether a tile's column lies in the window.
pub fn in_window(window: Window, index: usize) -> (inside: bool)
    ensures
        inside == in_cols(window, index),
{
    let col: i64 = (index / ROWS) as i64;
    col >= window.first && col <= window.last
}

/// Columns that hold `total` tiles.
pub open spec fn cols_for(total: int) -> int {
    (total + 2) / 3
}

/// Columns that hold `total` tiles.
pub fn total_cols(total: usize) -> (cols: i64)
    requires
        total <= i64::MAX - 2,
        total <= usize::MAX - 2,
    ensures
        cols == cols_for(total as int),
{
    ((total + (ROWS - 1)) / ROWS) as i64
}

impl PoolView {
    pub open spec fn is_ready(self, i: usize) -> bool {
        self.tiles.contains_key(i) && self.tiles[i] is Ready
    }

    pub open spec fn is_loading(self, i: usize) -> bool {
        self.tiles.contains_key(i) && self.tiles[i] is Loading
    }

    pub open spec fn layer_of(self, i: usize) -> u32 {
        self.tiles[i]->layer
    }

    /// The tiles that own a layer.
    pub open spec fn ready(self) -> Set<usize> {
        self.tiles.dom().filter(|i: usize| self.is_ready(i))
    }

    /// The tiles that wait for a decode.
    pub open spec fn loading(self) -> Set<usize> {
        self.tiles.dom().filter(|i: usize| self.is_loading(i))
    }

    /// Every layer is either free or owned by exactly one tile, and no more decodes are counted
    /// as in flight than there are tiles that wait.
    pub open spec fn wf(self) -> bool {
        &&& self.tiles.dom().finite()
        &&& self.free.no_duplicates()
        &&& forall|k: int| 0 <= k < self.free.len() ==> self.free[k] < POOL
        &&& forall|i: usize|
            #[trigger] self.is_ready(i) ==> self.layer_of(i) < POOL && !self.free.contains(
                self.layer_of(i),
            )
        &&& forall|i: usize, j: usize|
            #[trigger] self.is_ready(i) && #[trigger] self.is_ready(j) && i != j ==> self.layer_of(
                i,
            ) != self.layer_of(j)
        &&& forall|l: u32|
            #![trigger self.free.contains(l)]
            l < POOL ==> self.free.contains(l) || exists|i: usize| #[trigger]
                self.is_ready(i) && self.layer_of(i) == l
        &&& self.inflight <= self.loading().len()
    }

    /// Every resident tile belongs to a library of `total` tiles.
    pub open spec fn within(self, total: usize) -> bool {
        forall|i: usize| #[trigger] self.tiles.contains_key(i) ==> i < total
    }
}

/// An empty pool: no tile is resident and every layer is free.
pub open spec fn empty_pool() -> PoolView {
    PoolView {
        tiles: Map::empty(),
        free: Seq::new(POOL as nat, |k: int| (POOL - 1 - k) as u32),
        inflight: 0,
    }
}

/// What settling one finished decode does to the pool.
pub open spec fn settled_pool(p: PoolView, res: Finished, gen: u64, wanted: bool) -> PoolView {
    let left = PoolView { inflight: (if p.inflight > 0 { p.inflight - 1 } else { 0 }) as nat, ..p };
    match settled(p, res, gen, wanted) {
        Settled::Full => p,
        Settled::Stale | Settled::Unwanted => left,
        Settled::Failed => PoolView { tiles: p.tiles.insert(res.index, Tile::Failed), ..left },
        Settled::Uploaded { layer } => PoolView {
            tiles: p.tiles.insert(res.index, Tile::Ready { layer, w: res.w, h: res.h }),
            free: p.free.drop_last(),
            ..left
        },
        Settled::NoLayer | Settled::Gone => PoolView { tiles: p.tiles.remove(res.index), ..left },
    }
}

/// What becomes of one finished decode.
pub open spec fn settled(p: PoolView, res: Finished, gen: u64, wanted: bool) -> Settled {
    if res.full {
        Settled::Full
    } else if res.gen != gen {
        Settled::Stale
    } else if !p.is_loading(res.index) {
        Settled::Unwanted
    } else if res.empty || res.w == 0 || res.h == 0 {
        Settled::Failed
    } else if !wanted {
        Settled::Gone
    } else if p.free.len() > 0 {
        Settled::Uploaded { layer: p.free.last() }
    } else {
        Settled::NoLayer
    }
}

/// Whether a decode of tile `index` is still of use.
pub open spec fn wanted(window: Window, focus: Option<usize>, index: usize) -> bool {
    in_cols(window, index) || focus == Some(index)
}

/// The pool after the decodes of `inbox`, settled in order.
pub open spec fn settled_all(
    p: PoolView,
    inbox: Seq<Finished>,
    gen: u64,
    window: Window,
    focus: Option<usize>,
) -> PoolView
    decreases inbox.len(),
{
    if inbox.len() == 0 {
        p
    } else {
        let res = inbox.last();
        settled_pool(
            settled_all(p, inbox.drop_last(), gen, window, focus),
            res,
            gen,
            wanted(window, focus, res.index),
        )
    }
}

/// What becomes of the decode at position `k` of `inbox`.
pub open spec fn settled_at(
    p: PoolView,
    inbox: Seq<Finished>,
    k: int,
    gen: u64,
    window: Window,
    focus: Option<usize>,
) -> Settled {
    settled(
        settled_all(p, inbox.take(k), gen, window, focus),
        inbox[k],
        gen,
        wanted(window, focus, inbox[k].index),
    )
}

/// The uploads that settling `inbox` in order asks for.
pub open spec fn uploads_of(
    p: PoolView,
    inbox: Seq<Finished>,
    gen: u64,
    window: Window,
    focus: Option<usize>,
) -> Seq<Upload>
    decreases inbox.len(),
{
    if inbox.len() == 0 {
        seq![]
    } else {
        let before = uploads_of(p, inbox.drop_last(), gen, window, focus);
        match settled_at(p, inbox, inbox.len() - 1, gen, window, focus) {
            Settled::Uploaded { layer } => before.push(
                Upload { at: (inbox.len() - 1) as usize, layer },
            ),
            _ => before,
        }
    }
}

/// A tile that leaves the pool: outside the window, not waiting for a decode, and not open.
pub open spec fn evictable(p: PoolView, i: usize, window: Window, focus: Option<usize>) -> bool {
    &&& p.tiles.contains_key(i)
    &&& !in_cols(window, i)
    &&& p.tiles[i] !is Loading
    &&& focus != Some(i)
}

/// The layers that `leaving` tiles own, in order.
pub open spec fn layers_of(tiles: Map<usize, Tile>, leaving: Seq<usize>) -> Seq<u32>
    decreases leaving.len(),
{
    if leaving.len() == 0 {
        seq![]
    } else {
        let before = layers_of(tiles, leaving.drop_last());
        match tiles[leaving.last()] {
            Tile::Ready { layer, .. } => before.push(layer),
            _ => before,
        }
    }
}

pub open spec fn increasing(s: Seq<usize>) -> bool {
    forall|i: int, j: int| 0 <= i < j < s.len() ==> s[i] < s[j]
}

/// `q` is `p` without its evictable tiles, whose layers are free again: in the order of the
/// tiles, behind the layers that were free before.
pub open spec fn evicted(p: PoolView, q: PoolView, window: Window, focus: Option<usize>) -> bool {
    exists|leaving: Seq<usize>|
        {
            &&& #[trigger] increasing(leaving)
            &&& forall|i: usize| leaving.contains(i) <==> evictable(p, i, window, focus)
            &&& q == PoolView {
                tiles: p.tiles.remove_keys(leaving.to_set()),
                free: p.free + layers_of(p.tiles, leaving),
                ..p
            }
        }
}

/// The columns around `center`, nearest first; of two at one distance the left one comes first.
pub open spec fn col_order(center: int, reach: nat) -> Seq<int>
    decreases reach,
{
    if reach == 0 {
        seq![center]
    } else {
        col_order(center, (reach - 1) as nat) + seq![center - reach, center + reach]
    }
}

/// The tiles of one column, top to bottom, where the window has that column.
pub open spec fn tiles_in(window: Window, col: int) -> Seq<usize> {
    if window.first <= col <= window.last {
        seq![(col * 3) as usize, (col * 3 + 1) as usize, (col * 3 + 2) as usize]
    } else {
        seq![]
    }
}

/// The tiles of the window, in the order of their columns.
pub open spec fn tiles_along(window: Window, cols: Seq<int>) -> Seq<usize>
    decreases cols.len(),
{
    if cols.len() == 0 {
        seq![]
    } else {
        tiles_along(window, cols.drop_last()) + tiles_in(window, cols.last())
    }
}

/// The order in which the tiles of the window are asked for.
pub open spec fn load_order(window: Window, center: int) -> Seq<usize> {
    tiles_along(window, col_order(center, KEEP_COLS as nat))
}

/// Whether tile `i` of a library of `total` is asked for next.
pub open spec fn loads(p: PoolView, i: usize, total: usize) -> bool {
    p.inflight < MAX_INFLIGHT && i < total && !p.tiles.contains_key(i)
}

/// The pool once tile `i` is on its way.
pub open spec fn asked(p: PoolView, i: usize) -> PoolView {
    PoolView { tiles: p.tiles.insert(i, Tile::Loading), inflight: p.inflight + 1, ..p }
}

/// The pool after the tiles of `order` were asked for, as far as the throttle lets them.
pub open spec fn loaded(p: PoolView, order: Seq<usize>, total: usize) -> PoolView
    decreases order.len(),
{
    if order.len() == 0 {
        p
    } else {
        let before = loaded(p, order.drop_last(), total);
        if loads(before, order.last(), total) {
            asked(before, order.last())
        } else {
            before
        }
    }
}

/// The tiles of `order` that are asked for.
pub open spec fn jobs_of(p: PoolView, order: Seq<usize>, total: usize) -> Seq<usize>
    decreases order.len(),
{
    if order.len() == 0 {
        seq![]
    } else {
        let before = jobs_of(p, order.drop_last(), total);
        if loads(loaded(p, order.drop_last(), total), order.last(), total) {
            before.push(order.last())
        } else {
            before
        }
    }
}

/// The open tile is asked for ahead of everything else, and past the throttle.
pub open spec fn focus_loads(p: PoolView, focus: Option<usize>, total: usize) -> bool {
    focus matches Some(f) && f < total && !p.tiles.contains_key(f)
}

pub open spec fn focus_asked(p: PoolView, focus: Option<usize>, total: usize) -> PoolView {
    if focus_loads(p, focus, total) {
        asked(p, focus->0)
    } else {
        p
    }
}

/// The keys of a map, taken in the order of its iterator, increase.
proof fn lemma_increasing_keys<V>(pairs: Seq<(&usize, &V)>)
    requires
        vstd::std_specs::btree::increasing_seq(pairs.map_values(|kv: (&usize, &V)| *kv.0)),
    ensures
        increasing(pairs.map_values(|kv: (&usize, &V)| *kv.0)),
{
    let keys = pairs.map_values(|kv: (&usize, &V)| *kv.0);
    assert forall|i: int, j: int| 0 <= i < j < keys.len() implies keys[i] < keys[j] by {
        assert(vstd::std_specs::cmp::OrdSpec::cmp_spec(&keys[i], &keys[j]) is Less);
    }
}

/// The keys of a map, in increasing order.
pub fn keys_of<V>(map: &BTreeMap<usize, V>) -> (keys: Vec<usize>)
    ensures
        increasing(keys@),
        forall|i: usize| keys@.contains(i) <==> map@.contains_key(i),
{
    let mut keys: Vec<usize> = Vec::new();
    let pairs = map.iter();
    let ghost all = pairs.remaining();
    for kv in iter: pairs
        invariant
            iter.seq() == all,
            keys@ == all.map_values(|kv: (&usize, &V)| *kv.0).take(iter.index()),
    {
        keys.push(*kv.0);
    }
    proof {
        lemma_increasing_keys(all);
        assert(keys@ =~= all.map_values(|kv: (&usize, &V)| *kv.0));
        assert forall|i: usize| keys@.contains(i) <==> map@.contains_key(i) by {
            if keys@.contains(i) {
                let k = keys@.index_of(i);
                assert(map@.contains_key(*all[k].0));
            }
            if map@.contains_key(i) {
                let pair = (&i, &map@[i]);
                assert(all.contains(pair));
                assert(keys@[all.index_of(pair)] == i);
            }
        }
    }
    keys
}

/// Asking for one run of tiles after another is asking for both runs.
pub proof fn lemma_loaded_concat(p: PoolView, a: Seq<usize>, b: Seq<usize>, total: usize)
    ensures
        loaded(loaded(p, a, total), b, total) == loaded(p, a + b, total),
        jobs_of(p, a, total) + jobs_of(loaded(p, a, total), b, total) == jobs_of(p, a + b, total),
    decreases b.len(),
{
    if b.len() == 0 {
        assert(a + b =~= a);
    } else {
        lemma_loaded_concat(p, a, b.drop_last(), total);
        assert((a + b).drop_last() =~= a + b.drop_last());
        assert((a + b).last() == b.last());
    }
}

/// No more tiles are resident than the library has, and fewer while one of them is not.
proof fn lemma_resident_count(p: PoolView, total: usize)
    requires
        p.tiles.dom().finite(),
        p.within(total),
    ensures
        p.tiles.dom().len() <= total,
        p.loading().len() <= p.tiles.dom().len(),
        forall|i: usize|
            i < total && !p.tiles.contains_key(i) ==> p.tiles.dom().len() < total,
{
    let all = Seq::new(total as nat, |k: int| k as usize);
    vstd::seq_lib::seq_to_set_is_finite(all);
    all.lemma_cardinality_of_set();
    all.unique_seq_to_set();
    assert forall|i: usize| p.tiles.dom().contains(i) implies all.to_set().contains(i) by {
        assert(p.tiles.contains_key(i));
        assert(all[i as int] == i);
    }
    vstd::set_lib::lemma_len_subset(p.tiles.dom(), all.to_set());
    vstd::set_lib::lemma_len_subset(p.loading(), p.tiles.dom());
    assert forall|i: usize| i < total && !p.tiles.contains_key(i) implies p.tiles.dom().len()
        < total by {
        assert(all[i as int] == i);
        assert(all.to_set().contains(i));
        vstd::set_lib::lemma_len_subset(p.tiles.dom(), all.to_set().remove(i));
    }
}

/// The resident tiles, the free layers, and the decodes in flight.
pub struct Pool {
    resident: BTreeMap<usize, Tile>,
    free_layers: Vec<u32>,
    inflight: usize,
}

impl View for Pool {
    type V = PoolView;

    closed spec fn view(&self) -> PoolView {
        PoolView {
            tiles: self.resident@,
            free: self.free_layers@,
            inflight: self.inflight as nat,
        }
    }
}

impl Pool {
    /// Nothing resident, every layer free.
    pub fn new() -> (pool: Pool)
        ensures
            pool@ == empty_pool(),
            pool@.wf(),
    {
        let mut free_layers: Vec<u32> = Vec::new();
        let mut next: u32 = POOL;
        while next > 0
            invariant
                next <= POOL,
                free_layers@ == Seq::new((POOL - next) as nat, |k: int| (POOL - 1 - k) as u32),
            decreases next,
        {
            next = next - 1;
            free_layers.push(next);
        }
        let pool = Pool { resident: BTreeMap::new(), free_layers, inflight: 0 };
        proof {
            assert(pool@ =~= empty_pool());
            crate::pool_laws::empty_pool_is_wf();
        }
        pool
    }

    /// The status of a tile, if it is resident.
    pub fn get(&self, index: usize) -> (tile: Option<Tile>)
        ensures
            tile == (if self@.tiles.contains_key(index) {
                Some(self@.tiles[index])
            } else {
                None
            }),
    {
        match self.resident.get(&index) {
            Some(tile) => Some(*tile),
            None => None,
        }
    }

    /// Decodes in flight.
    pub fn inflight(&self) -> (n: usize)
        ensures
            n == self@.inflight,
    {
        self.inflight
    }

    /// Layers that no tile owns.
    pub fn free_count(&self) -> (n: usize)
        ensures
            n == self@.free.len(),
    {
        self.free_layers.len()
    }

    /// Resident tiles, whatever their status.
    pub fn len(&self) -> (n: usize)
        requires
            self@.wf(),
        ensures
            n == self@.tiles.dom().len(),
    {
        self.resident.len()
    }

    /// The resident tiles, in the order of the library.
    pub fn indices(&self) -> (keys: Vec<usize>)
        requires
            self@.wf(),
        ensures
            increasing(keys@),
            forall|i: usize| keys@.contains(i) <==> self@.tiles.contains_key(i),
    {
        keys_of(&self.resident)
    }

    /// Settles one finished decode: the tile gets a layer, is marked as failed, or is dropped.
    pub fn settle(&mut self, res: Finished, gen: u64, wanted: bool) -> (outcome: Settled)
        requires
            old(self)@.wf(),
        ensures
            outcome == settled(old(self)@, res, gen, wanted),
            final(self)@ == settled_pool(old(self)@, res, gen, wanted),
            final(self)@.wf(),
    {
        proof {
            crate::pool_laws::settling_keeps_wf(self@, res, gen, wanted);
        }
        let ghost before = self@;
        if res.full {
            return Settled::Full;
        }
        if self.inflight > 0 {
            self.inflight = self.inflight - 1;
        }
        if res.gen != gen {
            return Settled::Stale;
        }
        let loading: bool = match self.resident.get(&res.index) {
            Some(Tile::Loading) => true,
            _ => false,
        };
        if !loading {
            return Settled::Unwanted;
        }
        if res.empty || res.w == 0 || res.h == 0 {
            self.resident.insert(res.index, Tile::Failed);
            Settled::Failed
        } else if wanted {
            match self.free_layers.pop() {
                Some(layer) => {
                    self.resident.insert(res.index, Tile::Ready { layer, w: res.w, h: res.h });
                    assert(self@ =~= settled_pool(before, res, gen, wanted));
                    Settled::Uploaded { layer }
                },
                None => {
                    self.resident.remove(&res.index);
                    assert(self@ =~= settled_pool(before, res, gen, wanted));
                    Settled::NoLayer
                },
            }
        } else {
            self.resident.remove(&res.index);
            Settled::Gone
        }
    }

    /// Settles the finished decodes of `inbox` in order, until the uploads of one frame are used
    /// up. The outcomes are those of the decodes that were taken; the rest stay queued.
    pub fn drain(
        &mut self,
        inbox: &Vec<Finished>,
        gen: u64,
        window: Window,
        focus: Option<usize>,
    ) -> (outcomes: Vec<Settled>)
        requires
            old(self)@.wf(),
        ensures
            final(self)@.wf(),
            outcomes.len() <= inbox.len(),
            final(self)@ == settled_all(
                old(self)@,
                inbox@.take(outcomes.len() as int),
                gen,
                window,
                focus,
            ),
            forall|k: int|
                0 <= k < outcomes.len() ==> #[trigger] outcomes[k] == settled_at(
                    old(self)@,
                    inbox@,
                    k,
                    gen,
                    window,
                    focus,
                ),
            forall|k: int|
                0 <= k < outcomes.len() ==> uploads_of(
                    old(self)@,
                    #[trigger] inbox@.take(k),
                    gen,
                    window,
                    focus,
                ).len() < MAX_UPLOADS_PER_FRAME,
            outcomes.len() < inbox.len() ==> uploads_of(
                old(self)@,
                inbox@.take(outcomes.len() as int),
                gen,
                window,
                focus,
            ).len() == MAX_UPLOADS_PER_FRAME,
            uploads_of(
                old(self)@,
                inbox@.take(outcomes.len() as int),
                gen,
                window,
                focus,
            ).len() <= MAX_UPLOADS_PER_FRAME,
    {
        let ghost p = self@;
        let mut outcomes: Vec<Settled> = Vec::new();
        let mut uploads: usize = 0;
        let mut at: usize = 0;
        assert(inbox@.take(0) =~= seq![]);
        while at < inbox.len() && uploads < MAX_UPLOADS_PER_FRAME
            invariant
                self@.wf(),
                p == old(self)@,
                at <= inbox.len(),
                uploads <= MAX_UPLOADS_PER_FRAME,
                outcomes.len() == at,
                self@ == settled_all(p, inbox@.take(at as int), gen, window, focus),
                uploads == uploads_of(p, inbox@.take(at as int), gen, window, focus).len(),
                forall|k: int|
                    0 <= k < at ==> #[trigger] outcomes[k] == settled_at(
                        p,
                        inbox@,
                        k,
                        gen,
                        window,
                        focus,
                    ),
                forall|k: int|
                    0 <= k < at ==> uploads_of(
                        p,
                        #[trigger] inbox@.take(k),
                        gen,
                        window,
                        focus,
                    ).len() < MAX_UPLOADS_PER_FRAME,
            decreases inbox.len() - at,
        {
            let res = inbox[at];
            let useful: bool = in_window(window, res.index) || focus == Some(res.index);
            proof {
                assert(inbox@.take(at + 1).drop_last() =~= inbox@.take(at as int));
                assert(inbox@.take(at + 1).last() == inbox@[at as int]);
                assert(inbox@.take(at + 1).take(at as int) =~= inbox@.take(at as int));
            }
            let outcome = self.settle(res, gen, useful);
            match outcome {
                Settled::Uploaded { .. } => {
                    uploads = uploads + 1;
                },
                _ => {},
            }
            outcomes.push(outcome);
            at = at + 1;
        }
        outcomes
    }

    /// Drops the tiles that scrolled away, and frees their layers.
    pub fn evict(&mut self, window: Window, focus: Option<usize>)
        requires
            old(self)@.wf(),
        ensures
            evicted(old(self)@, final(self)@, window, focus),
            final(self)@.wf(),
    {
        let ghost p = self@;
        let keys = self.indices();
        let ghost mut leaving: Seq<usize> = seq![];
        let mut at: usize = 0;
        assert(p.tiles.remove_keys(leaving.to_set()) =~= p.tiles);
        assert(p.free + layers_of(p.tiles, leaving) =~= p.free);
        while at < keys.len()
            invariant
                at <= keys.len(),
                increasing(keys@),
                forall|i: usize| keys@.contains(i) <==> p.tiles.contains_key(i),
                increasing(leaving),
                forall|k: int| #![trigger leaving[k]]
                    0 <= k < leaving.len() ==> exists|j: int|
                        0 <= j < at && keys@[j] == leaving[k],
                forall|j: int|
                    0 <= j < at ==> (leaving.contains(#[trigger] keys@[j]) <==> evictable(
                        p,
                        keys@[j],
                        window,
                        focus,
                    )),
                self@.tiles == p.tiles.remove_keys(leaving.to_set()),
                self@.free == p.free + layers_of(p.tiles, leaving),
                self@.inflight == p.inflight,
            decreases keys.len() - at,
        {
            let i: usize = keys[at];
            let ghost before = leaving;
            proof {
                assert(keys@.contains(i));
                if leaving.contains(i) {
                    let k = leaving.index_of(i);
                    let j = choose|j: int| 0 <= j < at && keys@[j] == leaving[k];
                    assert(keys@[j] < keys@[at as int]);
                }
                assert(!leaving.to_set().contains(i));
                assert(self.resident@.contains_key(i));
            }
            let away: bool = !in_window(window, i) && focus != Some(i);
            let tile = match self.resident.get(&i) {
                Some(tile) => *tile,
                None => Tile::Loading,
            };
            assert(tile == p.tiles[i]);
            let gone: bool = match tile {
                Tile::Loading => false,
                _ => away,
            };
            if gone {
                self.resident.remove(&i);
                match tile {
                    Tile::Ready { layer, .. } => {
                        self.free_layers.push(layer);
                    },
                    _ => {},
                }
                proof {
                    leaving = leaving.push(i);
                    assert(leaving.drop_last() =~= before);
                    assert(leaving.to_set() =~= before.to_set().insert(i)) by {
                        assert forall|x: usize| leaving.contains(x) <==> before.contains(x) || x
                            == i by {
                            if before.contains(x) {
                                assert(leaving[before.index_of(x)] == x);
                            }
                            if x == i {
                                assert(leaving[before.len() as int] == x);
                            }
                        }
                    }
                    assert(p.tiles.remove_keys(leaving.to_set()) =~= p.tiles.remove_keys(
                        before.to_set(),
                    ).remove(i));
                    assert(p.free + layers_of(p.tiles, leaving) =~= self@.free);
                    assert forall|k: int|
                        #![trigger leaving[k]]
                        0 <= k < leaving.len() implies exists|j: int|
                        0 <= j < at + 1 && keys@[j] == leaving[k] by {
                        if k < before.len() {
                            assert(leaving[k] == before[k]);
                        } else {
                            assert(keys@[at as int] == leaving[k]);
                        }
                    }
                    assert(increasing(leaving)) by {
                        assert forall|a: int, b: int| 0 <= a < b < leaving.len() implies leaving[a]
                            < leaving[b] by {
                            if b == before.len() {
                                assert(before[a] == leaving[a]);
                                let j = choose|j: int| 0 <= j < at && keys@[j] == before[a];
                                assert(keys@[j] < keys@[at as int]);
                            }
                        }
                    }
                }
            }
            proof {
                assert forall|j: int| 0 <= j < at + 1 implies (leaving.contains(
                    #[trigger] keys@[j],
                ) <==> evictable(p, keys@[j], window, focus)) by {
                    if j < at {
                        assert(keys@[j] < keys@[at as int]);
                        if leaving.contains(keys@[j]) {
                            let k = leaving.index_of(keys@[j]);
                            if k < before.len() {
                                assert(before[k] == keys@[j]);
                            }
                        }
                        if before.contains(keys@[j]) {
                            assert(leaving[before.index_of(keys@[j])] == keys@[j]);
                        }
                    } else if gone {
                        assert(leaving[before.len() as int] == i);
                    }
                }
            }
            at = at + 1;
        }
        proof {
            assert forall|i: usize| leaving.contains(i) <==> evictable(p, i, window, focus) by {
                if leaving.contains(i) {
                    let k = leaving.index_of(i);
                    let j = choose|j: int| 0 <= j < at && keys@[j] == leaving[k];
                    assert(leaving.contains(keys@[j]));
                }
                if evictable(p, i, window, focus) {
                    assert(keys@.contains(i));
                    assert(keys@[keys@.index_of(i)] == i);
                }
            }
            assert(self@ =~= PoolView {
                tiles: p.tiles.remove_keys(leaving.to_set()),
                free: p.free + layers_of(p.tiles, leaving),
                ..p
            });
            assert(evicted(p, self@, window, focus));
            crate::pool_laws::evicting_keeps_wf(p, self@, window, focus);
        }
    }

    /// Asks for one tile.
    fn ask(&mut self, index: usize, total: usize)
        requires
            old(self)@.wf(),
            old(self)@.within(total),
            index < total,
            !old(self)@.tiles.contains_key(index),
        ensures
            final(self)@ == asked(old(self)@, index),
            final(self)@.wf(),
            final(self)@.within(total),
    {
        proof {
            lemma_resident_count(self@, total);
            crate::pool_laws::asking_keeps_wf(self@, index);
        }
        let ghost before = self@;
        self.resident.insert(index, Tile::Loading);
        self.inflight = self.inflight + 1;
        assert(self@ =~= asked(before, index));
    }

    /// Asks for the open tile, ahead of everything else. Returns whether a decode is due.
    pub fn ask_focus(&mut self, focus: Option<usize>, total: usize) -> (job: Option<usize>)
        requires
            old(self)@.wf(),
            old(self)@.within(total),
        ensures
            final(self)@ == focus_asked(old(self)@, focus, total),
            job == (if focus_loads(old(self)@, focus, total) {
                focus
            } else {
                None
            }),
            final(self)@.wf(),
            final(self)@.within(total),
    {
        match focus {
            Some(f) => {
                if f < total && !self.resident.contains_key(&f) {
                    self.ask(f, total);
                    return Some(f);
                }
            },
            None => {},
        }
        None
    }

    /// Asks for the tiles of one column, as far as the throttle lets them.
    fn ask_column(&mut self, window: Window, col: i64, total: usize, jobs: &mut Vec<usize>)
        requires
            old(self)@.wf(),
            old(self)@.within(total),
            0 <= window.first,
            window.last < cols_for(total as int),
            total <= usize::MAX - 2,
        ensures
            final(self)@ == loaded(old(self)@, tiles_in(window, col as int), total),
            final(jobs)@ == old(jobs)@ + jobs_of(old(self)@, tiles_in(window, col as int), total),
            final(self)@.wf(),
            final(self)@.within(total),
    {
        let ghost p = self@;
        let ghost order = tiles_in(window, col as int);
        let ghost before = jobs@;
        if col < window.first || col > window.last {
            assert(jobs@ =~= before + jobs_of(p, order, total));
            return;
        }
        let mut row: usize = 0;
        assert(order.take(0) =~= seq![]);
        assert(jobs@ =~= before + jobs_of(p, order.take(0), total));
        while row < ROWS
            invariant
                0 <= window.first <= col <= window.last < cols_for(total as int),
                total <= usize::MAX - 2,
                order == tiles_in(window, col as int),
                row <= 3,
                self@.wf(),
                self@.within(total),
                self@ == loaded(p, order.take(row as int), total),
                jobs@ == before + jobs_of(p, order.take(row as int), total),
            decreases 3 - row,
        {
            let index: usize = col as usize * ROWS + row;
            proof {
                assert(order.take(row + 1).drop_last() =~= order.take(row as int));
                assert(order.take(row + 1).last() == index);
            }
            if self.inflight < MAX_INFLIGHT && index < total && !self.resident.contains_key(
                &index,
            ) {
                self.ask(index, total);
                jobs.push(index);
            }
            assert(jobs@ =~= before + jobs_of(p, order.take(row + 1), total));
            row = row + 1;
        }
        assert(order.take(3) =~= order);
    }

    /// Asks for the tiles of the window that are not resident: nearest column first, while the
    /// throttle lets them. Returns the tiles asked for, in that order.
    pub fn dispatch(&mut self, window: Window, center: i64, total: usize) -> (jobs: Vec<usize>)
        requires
            old(self)@.wf(),
            old(self)@.within(total),
            0 <= window.first,
            window.last < cols_for(total as int),
            total <= usize::MAX - 2,
            i64::MIN + KEEP_COLS <= center <= i64::MAX - KEEP_COLS,
        ensures
            final(self)@ == loaded(old(self)@, load_order(window, center as int), total),
            jobs@ == jobs_of(old(self)@, load_order(window, center as int), total),
            final(self)@.wf(),
            final(self)@.within(total),
            nearest_first(jobs@, center as int),
            forall|k: int|
                0 <= k < jobs.len() ==> is_missing(
                    old(self)@,
                    window,
                    center as int,
                    total,
                    #[trigger] jobs@[k],
                ),
            forall|i: usize|
                #![trigger is_missing(old(self)@, window, center as int, total, i)]
                is_missing(old(self)@, window, center as int, total, i) && !jobs@.contains(i)
                    ==> old(self)@.inflight + jobs.len() >= 32 && forall|b: int|
                    0 <= b < jobs.len() ==> comes_first(#[trigger] jobs@[b], i, center as int),
    {
        let ghost p = self@;
        let mut jobs: Vec<usize> = Vec::new();
        self.ask_column(window, center, total, &mut jobs);
        let mut d: i64 = 1;
        proof {
            let first = seq![center as int];
            assert(first.drop_last() =~= seq![]);
            assert(tiles_along(window, seq![]) =~= seq![]);
            reveal_with_fuel(tiles_along, 2);
            assert(tiles_along(window, first) =~= tiles_in(window, center as int));
        }
        while d <= KEEP_COLS
            invariant
                1 <= d <= KEEP_COLS + 1,
                self@.wf(),
                self@.within(total),
                0 <= window.first,
                window.last < cols_for(total as int),
                total <= usize::MAX - 2,
                i64::MIN + KEEP_COLS <= center <= i64::MAX - KEEP_COLS,
                self@ == loaded(
                    p,
                    tiles_along(window, col_order(center as int, (d - 1) as nat)),
                    total,
                ),
                jobs@ == jobs_of(
                    p,
                    tiles_along(window, col_order(center as int, (d - 1) as nat)),
                    total,
                ),
            decreases KEEP_COLS + 1 - d,
        {
            let ghost before = col_order(center as int, (d - 1) as nat);
            let ghost left = before.push(center - d);
            let ghost both = left.push(center + d);
            proof {
                assert(left.drop_last() =~= before);
                assert(both.drop_last() =~= left);
                assert(col_order(center as int, d as nat) =~= both);
                lemma_loaded_concat(
                    p,
                    tiles_along(window, before),
                    tiles_in(window, center - d),
                    total,
                );
                lemma_loaded_concat(
                    p,
                    tiles_along(window, left),
                    tiles_in(window, center + d),
                    total,
                );
            }
            self.ask_column(window, center - d, total, &mut jobs);
            self.ask_column(window, center + d, total, &mut jobs);
            d = d + 1;
        }
        proof {
            nearest_tiles_are_asked_for_first(p, window, center as int, total, jobs@);
        }
        jobs
    }
}

} // verus!
