//! One frame: what is loaded, what plays, and what is painted.

use crate::components::TrackMenu;
use crate::dates::FileTimes;
use crate::gifs::{all_positive, play_on, played, GifAtlas, MAX_DELAY};
use crate::library::{is_view, Query};
use crate::media::{sources_view, Kind, Source, SourceView};
use crate::pool::{
    cols_for, empty_pool, evicted, focus_asked, focus_loads, is_window, jobs_of, load_order,
    loaded, max_int, min_int, settled_all, settled_at, uploads_of, window_cols, Finished, PoolView,
    Settled, Window, KEEP_COLS, MAX_UPLOADS_PER_FRAME,
};
use crate::state::{Effect, Flags, Lightbox, State, MEM_LOG_NS, SLIDE_NS};
use crate::wall::{
    advanced, all_painted, capped, copied, elapsed, is_anim_of, no_gifs, playable, since,
    waiting_without, window_tiles, Instance, Wall, WallGif, WallGifsView,
};
use vstd::prelude::*;

verus! {

/// Nanoseconds that a frame lasts at most, however long ago the last one was.
pub const MAX_STEP_NS: u64 = 50_000_000;

/// How long a frame lasts.
pub fn frame_step(now: u64, last: u64) -> (dt: u64)
    ensures
        dt == min_int(elapsed(now, last), MAX_STEP_NS as int),
{
    let dt: u64 = since(now, last);
    if dt < MAX_STEP_NS {
        dt
    } else {
        MAX_STEP_NS
    }
}

/// The playing animation of an open GIF.
pub struct GifAnim {
    pub index: usize,
    /// How long each frame shows.
    pub delays: Vec<u64>,
    /// The frame that shows, and for how long it has.
    pub cur: usize,
    pub t: u64,
}

/// What a playing animation says.
#[verifier::ext_equal]
pub struct AnimView {
    pub index: usize,
    pub delays: Seq<u64>,
    pub cur: usize,
    pub t: u64,
}

/// The animation of the open item.
pub struct OpenGif {
    pub anim: Option<GifAnim>,
    /// The item whose frames are on their way.
    pub pending: Option<usize>,
}

/// What the animation of the open item says.
#[verifier::ext_equal]
pub struct OpenGifView {
    pub anim: Option<AnimView>,
    pub pending: Option<usize>,
}

impl View for GifAnim {
    type V = AnimView;

    open spec fn view(&self) -> AnimView {
        AnimView { index: self.index, delays: self.delays@, cur: self.cur, t: self.t }
    }
}

impl View for OpenGif {
    type V = OpenGifView;

    open spec fn view(&self) -> OpenGifView {
        OpenGifView {
            anim: match self.anim {
                Some(g) => Some(g@),
                None => None,
            },
            pending: self.pending,
        }
    }
}

/// Every frame shows for a while, but not forever.
pub open spec fn lasting(delays: Seq<u64>) -> bool {
    all_positive(delays) && forall|k: int|
        0 <= k < delays.len() ==> #[trigger] delays[k] <= MAX_DELAY
}

impl OpenGifView {
    /// A frame shows, and every frame shows for a while.
    pub open spec fn wf(self) -> bool {
        self.anim matches Some(g) ==> g.cur < g.delays.len() && lasting(g.delays) && g.t
            < g.delays[g.cur as int]
    }

    /// The item that an animation is there for.
    pub open spec fn holds(self) -> Option<usize> {
        match self.anim {
            Some(g) => Some(g.index),
            None => None,
        }
    }
}

/// The decoded frames of a GIF: how long each one shows.
pub struct GifMsg {
    pub index: usize,
    pub gen: u64,
    pub delays: Vec<u64>,
}

/// Decoded frames that show for a while.
pub open spec fn all_lasting(msgs: Seq<GifMsg>) -> bool {
    forall|k: int| 0 <= k < msgs.len() ==> lasting((#[trigger] msgs[k]).delays@)
}

/// The GIF whose frames are to be decoded once `target` is the open one: they are neither there
/// nor on their way.
pub open spec fn follow_job(v: OpenGifView, target: Option<usize>) -> Option<usize> {
    if v.holds() != target && v.pending != target {
        target
    } else {
        None
    }
}

/// The animation once `target` is the open GIF.
pub open spec fn followed(v: OpenGifView, target: Option<usize>) -> OpenGifView {
    if target is None || follow_job(v, target) is Some {
        OpenGifView { anim: None, pending: target }
    } else {
        v
    }
}

/// Whether the frames of a message play: those of another library, of an item that is no longer
/// open, and failed ones do not.
pub open spec fn plays(msg: GifMsg, gen: u64, focus: Option<usize>) -> bool {
    msg.gen == gen && focus == Some(msg.index) && msg.delays@.len() > 0
}

/// The animation once the frames of a message have come.
pub open spec fn delivered(
    v: OpenGifView,
    msg: GifMsg,
    gen: u64,
    focus: Option<usize>,
) -> OpenGifView {
    OpenGifView {
        anim: if plays(msg, gen, focus) {
            Some(AnimView { index: msg.index, delays: msg.delays@, cur: 0, t: 0 })
        } else {
            v.anim
        },
        pending: if v.pending == Some(msg.index) {
            None
        } else {
            v.pending
        },
    }
}

/// The animation once the frames of all messages have come.
pub open spec fn delivered_all(
    v: OpenGifView,
    msgs: Seq<GifMsg>,
    gen: u64,
    focus: Option<usize>,
) -> OpenGifView
    decreases msgs.len(),
{
    if msgs.len() == 0 {
        v
    } else {
        delivered(delivered_all(v, msgs.drop_last(), gen, focus), msgs.last(), gen, focus)
    }
}

/// The positions of the messages whose frames play.
pub open spec fn played_msgs(msgs: Seq<GifMsg>, gen: u64, focus: Option<usize>) -> Seq<usize>
    decreases msgs.len(),
{
    if msgs.len() == 0 {
        seq![]
    } else {
        let before = played_msgs(msgs.drop_last(), gen, focus);
        if plays(msgs.last(), gen, focus) {
            before.push((msgs.len() - 1) as usize)
        } else {
            before
        }
    }
}

/// Whether the open item is animated: it has more than one frame.
pub open spec fn moves(v: OpenGifView, focus: Option<usize>) -> bool {
    v.anim matches Some(g) && focus == Some(g.index) && g.delays.len() > 1
}

/// The animation after `dt` nanoseconds.
pub open spec fn played_on(v: OpenGifView, focus: Option<usize>, dt: u64) -> OpenGifView {
    if moves(v, focus) {
        let g = v.anim->0;
        let now = played(g.delays, g.cur as int, g.t + dt);
        OpenGifView { anim: Some(AnimView { cur: now.0 as usize, t: now.1 as u64, ..g }), ..v }
    } else {
        v
    }
}

/// What a frame does to the animation of the open item.
pub struct GifStep {
    /// The GIF whose frames are to be decoded.
    pub decode: Option<usize>,
    /// The positions of the messages whose first frame shows.
    pub shown: Vec<usize>,
    /// The frame that shows.
    pub frame: Option<usize>,
}

impl OpenGif {
    /// No animation.
    pub fn new() -> (g: OpenGif)
        ensures
            g@ == (OpenGifView { anim: None, pending: None }),
            g@.wf(),
    {
        OpenGif { anim: None, pending: None }
    }

    /// The open GIF is `target`. Returns it where its frames are to be decoded.
    pub fn follow(&mut self, target: Option<usize>) -> (decode: Option<usize>)
        requires
            old(self)@.wf(),
        ensures
            final(self)@.wf(),
            decode == follow_job(old(self)@, target),
            final(self)@ == followed(old(self)@, target),
    {
        match target {
            Some(i) => {
                let have: bool = match &self.anim {
                    Some(g) => g.index == i,
                    None => false,
                };
                if !have && self.pending != Some(i) {
                    self.anim = None;
                    self.pending = Some(i);
                    return Some(i);
                }
            },
            None => {
                self.anim = None;
                self.pending = None;
            },
        }
        None
    }

    /// Decoded frames have come. Returns whether they play.
    pub fn deliver(&mut self, msg: &GifMsg, gen: u64, focus: Option<usize>) -> (shows: bool)
        requires
            old(self)@.wf(),
            lasting(msg.delays@),
        ensures
            final(self)@.wf(),
            shows == plays(*msg, gen, focus),
            final(self)@ == delivered(old(self)@, *msg, gen, focus),
    {
        if self.pending == Some(msg.index) {
            self.pending = None;
        }
        if msg.gen == gen && focus == Some(msg.index) && msg.delays.len() > 0 {
            self.anim =
            Some(GifAnim { index: msg.index, delays: copied(&msg.delays), cur: 0, t: 0 });
            true
        } else {
            false
        }
    }

    /// Plays on for `dt` nanoseconds. Returns the frame that shows then, where the open item is
    /// animated.
    pub fn play(&mut self, focus: Option<usize>, dt: u64) -> (frame: Option<usize>)
        requires
            old(self)@.wf(),
            dt <= MAX_STEP_NS,
        ensures
            final(self)@.wf(),
            final(self)@ == played_on(old(self)@, focus, dt),
            frame == if moves(old(self)@, focus) {
                Some(final(self)@.anim->0.cur)
            } else {
                None
            },
    {
        let mut anim: Option<GifAnim> = None;
        let mut frame: Option<usize> = None;
        std::mem::swap(&mut anim, &mut self.anim);
        match anim {
            Some(g) => {
                if focus == Some(g.index) && g.delays.len() > 1 {
                    assert(g.delays@[g.cur as int] <= MAX_DELAY);
                    let (cur, t): (usize, u64) = play_on(&g.delays, g.cur, g.t + dt);
                    frame = Some(cur);
                    self.anim = Some(GifAnim { index: g.index, delays: g.delays, cur, t });
                } else {
                    self.anim = Some(g);
                }
            },
            None => {},
        }
        frame
    }

    /// One frame: `target` is the open GIF, `msgs` are the frames that have come.
    pub fn step(
        &mut self,
        target: Option<usize>,
        msgs: &Vec<GifMsg>,
        gen: u64,
        focus: Option<usize>,
        dt: u64,
    ) -> (out: GifStep)
        requires
            old(self)@.wf(),
            all_lasting(msgs@),
            dt <= MAX_STEP_NS,
        ensures
            final(self)@.wf(),
            out.decode == follow_job(old(self)@, target),
            out.shown@ == played_msgs(msgs@, gen, focus),
            ({
                let there = delivered_all(followed(old(self)@, target), msgs@, gen, focus);
                &&& final(self)@ == played_on(there, focus, dt)
                &&& out.frame == if moves(there, focus) {
                    Some(final(self)@.anim->0.cur)
                } else {
                    None
                }
            }),
    {
        let decode: Option<usize> = self.follow(target);
        let ghost v = self@;
        let mut shown: Vec<usize> = Vec::new();
        let mut k: usize = 0;
        assert(msgs@.take(0) =~= seq![]);
        while k < msgs.len()
            invariant
                k <= msgs.len(),
                all_lasting(msgs@),
                self@.wf(),
                self@ == delivered_all(v, msgs@.take(k as int), gen, focus),
                shown@ == played_msgs(msgs@.take(k as int), gen, focus),
            decreases msgs.len() - k,
        {
            proof {
                assert(msgs@.take(k + 1).drop_last() =~= msgs@.take(k as int));
                assert(msgs@.take(k + 1).last() == msgs@[k as int]);
                assert(lasting(msgs@[k as int].delays@));
            }
            if self.deliver(&msgs[k], gen, focus) {
                shown.push(k);
            }
            k = k + 1;
        }
        assert(msgs@.take(msgs@.len() as int) =~= msgs@);
        let frame: Option<usize> = self.play(focus, dt);
        GifStep { decode, shown, frame }
    }
}

/// Whether the lightbox shows a full picture.
pub open spec fn shows_full(lb: Lightbox, res: Finished, gen: u64) -> bool {
    res.gen == gen && lb.focus == Some(res.index) && !res.empty && res.w != 0 && res.h != 0
}

/// The lightbox once a full picture has come.
pub open spec fn took_full(lb: Lightbox, res: Finished, gen: u64) -> Lightbox {
    Lightbox {
        full_pending: if lb.full_pending == Some(res.index) {
            None
        } else {
            lb.full_pending
        },
        full_for: if shows_full(lb, res, gen) {
            Some(res.index)
        } else {
            lb.full_for
        },
        ..lb
    }
}

/// The lightbox once the full pictures of `inbox` have come.
pub open spec fn took_fulls(lb: Lightbox, inbox: Seq<Finished>, gen: u64) -> Lightbox
    decreases inbox.len(),
{
    if inbox.len() == 0 {
        lb
    } else {
        let before = took_fulls(lb, inbox.drop_last(), gen);
        if inbox.last().full {
            took_full(before, inbox.last(), gen)
        } else {
            before
        }
    }
}

/// The positions of the full pictures that show.
pub open spec fn full_uploads(lb: Lightbox, inbox: Seq<Finished>, gen: u64) -> Seq<usize>
    decreases inbox.len(),
{
    if inbox.len() == 0 {
        seq![]
    } else {
        let before = full_uploads(lb, inbox.drop_last(), gen);
        if inbox.last().full && shows_full(lb, inbox.last(), gen) {
            before.push((inbox.len() - 1) as usize)
        } else {
            before
        }
    }
}

impl Lightbox {
    /// Takes a full picture over, if it is still the open item's. Returns whether it shows.
    pub fn apply_full(&mut self, res: Finished, gen: u64) -> (shows: bool)
        ensures
            *final(self) == took_full(*old(self), res, gen),
            shows == shows_full(*old(self), res, gen),
    {
        if self.full_pending == Some(res.index) {
            self.full_pending = None;
        }
        if res.gen != gen || self.focus != Some(res.index) {
            return false;
        }
        if res.empty || res.w == 0 || res.h == 0 {
            return false;
        }
        self.full_for = Some(res.index);
        true
    }

    fn apply_fulls(&mut self, inbox: &Vec<Finished>, count: usize, gen: u64) -> (shown: Vec<usize>)
        requires
            count <= inbox.len(),
        ensures
            *final(self) == took_fulls(*old(self), inbox@.take(count as int), gen),
            shown@ == full_uploads(*old(self), inbox@.take(count as int), gen),
    {
        let ghost lb = *self;
        let mut shown: Vec<usize> = Vec::new();
        let mut k: usize = 0;
        assert(inbox@.take(0) =~= seq![]);
        while k < count
            invariant
                k <= count <= inbox.len(),
                *self == took_fulls(lb, inbox@.take(k as int), gen),
                self.focus == lb.focus,
                shown@ == full_uploads(lb, inbox@.take(k as int), gen),
            decreases count - k,
        {
            proof {
                assert(inbox@.take(k + 1).drop_last() =~= inbox@.take(k as int));
                assert(inbox@.take(k + 1).last() == inbox@[k as int]);
            }
            if inbox[k].full && self.apply_full(inbox[k], gen) {
                shown.push(k);
            }
            k = k + 1;
        }
        shown
    }
}

/// The open item is shown by its full picture. A video draws its own frames, and an animated GIF
/// has frames of its own.
pub open spec fn wants_full(w: Wall, gif_anim: bool, f: int) -> bool {
    match w.source_at(f) {
        SourceView::Media(Kind::Image, _) => !(gif_anim && w.is_gif(f)),
        SourceView::Media(Kind::Video, _) => false,
        SourceView::Media(Kind::Audio, _) => true,
        SourceView::Placeholder(_) => true,
    }
}

/// The item whose full picture is asked for.
pub open spec fn full_job(w: Wall, gif_anim: bool, lb: Lightbox) -> Option<usize> {
    if lb.focus is Some && wants_full(w, gif_anim, lb.focus->0 as int) && lb.full_pending
        != lb.focus && lb.full_for != lb.focus {
        lb.focus
    } else {
        None
    }
}

/// The lightbox once the full picture was asked for. Without an item that wants one there is none.
pub open spec fn full_asked(w: Wall, gif_anim: bool, lb: Lightbox) -> Lightbox {
    if lb.focus is None || !wants_full(w, gif_anim, lb.focus->0 as int) {
        Lightbox { full_pending: None, full_for: None, ..lb }
    } else if full_job(w, gif_anim, lb) is Some {
        Lightbox { full_pending: lb.focus, ..lb }
    } else {
        lb
    }
}

/// What a frame loads.
pub struct Stream {
    /// What became of the finished decodes, as far as they were taken up.
    pub outcomes: Vec<Settled>,
    /// The positions of the full pictures that are to be uploaded.
    pub fulls: Vec<usize>,
    /// The open item, where its thumbnail is to be decoded.
    pub focus_job: Option<usize>,
    /// The open item, where its full picture is to be decoded.
    pub full_job: Option<usize>,
    /// The tiles whose thumbnails are to be decoded.
    pub jobs: Vec<usize>,
}

/// The window of columns around a centre.
pub open spec fn window_at(center: int, cols: int) -> Window {
    Window {
        first: max_int(center - KEEP_COLS, 0) as i64,
        last: min_int(center + KEEP_COLS, cols - 1) as i64,
    }
}

/// The finished decodes are taken up in order, until enough of them were uploaded.
pub open spec fn is_drained(
    p: PoolView,
    inbox: Seq<Finished>,
    gen: u64,
    window: Window,
    focus: Option<usize>,
    outcomes: Seq<Settled>,
) -> bool {
    let n = outcomes.len() as int;
    &&& n <= inbox.len()
    &&& forall|k: int|
        0 <= k < n ==> #[trigger] outcomes[k] == settled_at(p, inbox, k, gen, window, focus)
    &&& forall|k: int|
        0 <= k < n ==> uploads_of(p, #[trigger] inbox.take(k), gen, window, focus).len()
            < MAX_UPLOADS_PER_FRAME
    &&& n < inbox.len() ==> uploads_of(p, inbox.take(n), gen, window, focus).len()
        == MAX_UPLOADS_PER_FRAME
}

proof fn lemma_settled_within(
    p: PoolView,
    inbox: Seq<Finished>,
    gen: u64,
    window: Window,
    focus: Option<usize>,
    total: usize,
)
    requires
        p.within(total),
    ensures
        settled_all(p, inbox, gen, window, focus).within(total),
    decreases inbox.len(),
{
    if inbox.len() > 0 {
        lemma_settled_within(p, inbox.drop_last(), gen, window, focus, total);
        let q = settled_all(p, inbox.drop_last(), gen, window, focus);
        let res = inbox.last();
        let r = settled_all(p, inbox, gen, window, focus);
        assert forall|i: usize| #[trigger] r.tiles.contains_key(i) implies i < total by {
            if i == res.index && r != q {
                assert(q.is_loading(i) || q.tiles.contains_key(i));
            } else {
                assert(q.tiles.contains_key(i));
            }
        }
    }
}

proof fn lemma_evicted_within(
    p: PoolView,
    q: PoolView,
    window: Window,
    focus: Option<usize>,
    total: usize,
)
    requires
        p.wf(),
        p.within(total),
        evicted(p, q, window, focus),
    ensures
        q.within(total),
{
    crate::pool_laws::evicting_keeps_wf(p, q, window, focus);
}

impl State {
    /// The column that the window of the wall is around: that of the open item, or else where the
    /// wall is scrolled to.
    pub open spec fn center_of(self, scroll_col: i64) -> int {
        match self.lightbox.focus {
            Some(f) => f as int / 3,
            None => scroll_col as int,
        }
    }

    /// The column that the window of the wall is around.
    pub fn view_center(&self, scroll_col: i64) -> (center: i64)
        requires
            self.wf(),
        ensures
            center == self.center_of(scroll_col),
    {
        match self.lightbox.focus {
            Some(f) => (f / 3) as i64,
            None => scroll_col,
        }
    }

    /// The window of the wall.
    pub open spec fn window_of(self, scroll_col: i64) -> Window {
        window_at(self.center_of(scroll_col), cols_for(self.wall.shown@.len() as int))
    }

    /// The window of the wall.
    pub fn window(&self, scroll_col: i64) -> (window: Window)
        requires
            self.wf(),
            i64::MIN + KEEP_COLS <= scroll_col <= i64::MAX - KEEP_COLS,
        ensures
            window == self.window_of(scroll_col),
            is_window(
                window,
                self.center_of(scroll_col),
                cols_for(self.wall.shown@.len() as int),
            ),
            0 <= window.first,
            window.last < cols_for(self.wall.shown@.len() as int),
    {
        let center: i64 = self.view_center(scroll_col);
        window_cols(center, self.wall.columns())
    }

    /// What a frame loads, and the pool that it leaves: finished decodes are taken up, what is out
    /// of the window is dropped, the open item is asked for, and then the window, nearest to its
    /// centre first.
    pub open spec fn streams(
        self,
        inbox: Seq<Finished>,
        scroll_col: i64,
        out: Stream,
        after: PoolView,
        kept: PoolView,
    ) -> bool {
        let total = self.wall.shown@.len() as usize;
        let focus = self.lightbox.focus;
        let gen = self.wall.generation;
        let window = self.window_of(scroll_col);
        let taken = inbox.take(out.outcomes@.len() as int);
        let order = load_order(window, self.center_of(scroll_col));
        &&& is_drained(self.wall.pool@, inbox, gen, window, focus, out.outcomes@)
        &&& evicted(
            settled_all(self.wall.pool@, taken, gen, window, focus),
            kept,
            window,
            focus,
        )
        &&& out.focus_job == if focus_loads(kept, focus, total) {
            focus
        } else {
            None
        }
        &&& out.jobs@ == jobs_of(focus_asked(kept, focus, total), order, total)
        &&& after == loaded(focus_asked(kept, focus, total), order, total)
        &&& out.fulls@ == full_uploads(self.lightbox, taken, gen)
        &&& out.full_job == full_job(
            self.wall,
            self.flags.gif_anim,
            took_fulls(self.lightbox, taken, gen),
        )
    }

    fn ask_full(&mut self) -> (job: Option<usize>)
        requires
            old(self).wf(),
        ensures
            final(self).wf(),
            job == full_job(old(self).wall, old(self).flags.gif_anim, old(self).lightbox),
            final(self).lightbox == full_asked(
                old(self).wall,
                old(self).flags.gif_anim,
                old(self).lightbox,
            ),
            final(self).flags == old(self).flags,
            final(self).fields == old(self).fields,
            final(self).wall == old(self).wall,
    {
        match self.lightbox.focus {
            Some(f) => {
                let want: bool = match self.wall.source(f) {
                    Some(Source::File(_)) => !(self.flags.gif_anim && self.wall.is_gif_tile(f)),
                    Some(Source::Video(_)) => false,
                    _ => true,
                };
                if !want {
                    self.lightbox =
                    Lightbox { full_pending: None, full_for: None, ..self.lightbox };
                    None
                } else if self.lightbox.full_pending != Some(f) && self.lightbox.full_for
                    != Some(f) {
                    self.lightbox = Lightbox { full_pending: Some(f), ..self.lightbox };
                    Some(f)
                } else {
                    None
                }
            },
            None => {
                self.lightbox = Lightbox { full_pending: None, full_for: None, ..self.lightbox };
                None
            },
        }
    }

    /// Loads for one frame. `inbox` are the finished decodes, and `scroll_col` is the column that
    /// the wall is scrolled to.
    pub fn stream(&mut self, inbox: &Vec<Finished>, scroll_col: i64) -> (out: Stream)
        requires
            old(self).wf(),
            i64::MIN + KEEP_COLS <= scroll_col <= i64::MAX - KEEP_COLS,
        ensures
            final(self).wf(),
            exists|kept: PoolView| #[trigger]
                old(self).streams(inbox@, scroll_col, out, final(self).wall.pool@, kept),
            final(self).lightbox == full_asked(
                old(self).wall,
                old(self).flags.gif_anim,
                took_fulls(
                    old(self).lightbox,
                    inbox@.take(out.outcomes@.len() as int),
                    old(self).wall.generation,
                ),
            ),
            final(self).flags == old(self).flags,
            final(self).fields == old(self).fields,
            final(self).wall == (Wall { pool: final(self).wall.pool, ..old(self).wall }),
    {
        let ghost s = *self;
        let total: usize = self.wall.shown.len();
        let focus: Option<usize> = self.lightbox.focus;
        let gen: u64 = self.wall.generation;
        let center: i64 = self.view_center(scroll_col);
        let window: Window = self.window(scroll_col);
        let outcomes: Vec<Settled> = self.wall.pool.drain(inbox, gen, window, focus);
        let ghost drained = self.wall.pool@;
        proof {
            lemma_settled_within(
                s.wall.pool@,
                inbox@.take(outcomes@.len() as int),
                gen,
                window,
                focus,
                total,
            );
        }
        let fulls: Vec<usize> = self.lightbox.apply_fulls(inbox, outcomes.len(), gen);
        self.wall.pool.evict(window, focus);
        let ghost kept = self.wall.pool@;
        proof {
            lemma_evicted_within(drained, kept, window, focus, total);
        }
        let focus_job: Option<usize> = self.wall.pool.ask_focus(focus, total);
        proof {
            lemma_focus_stays(s.lightbox, inbox@.take(outcomes@.len() as int), gen);
        }
        let full_job: Option<usize> = self.ask_full();
        let jobs: Vec<usize> = self.wall.pool.dispatch(window, center, total);
        let out = Stream { outcomes, fulls, focus_job, full_job, jobs };
        assert(s.streams(inbox@, scroll_col, out, self.wall.pool@, kept));
        out
    }
}

proof fn lemma_focus_stays(lb: Lightbox, inbox: Seq<Finished>, gen: u64)
    ensures
        took_fulls(lb, inbox, gen).focus == lb.focus,
        took_fulls(lb, inbox, gen).video_for == lb.video_for,
        took_fulls(lb, inbox, gen).video_pending == lb.video_pending,
    decreases inbox.len(),
{
    if inbox.len() > 0 {
        lemma_focus_stays(lb, inbox.drop_last(), gen);
    }
}

/// What becomes of the player.
#[derive(Clone, Copy, PartialEq, Eq, Structural, Debug)]
pub enum PlayerStep {
    Keep,
    /// The player of the item that was open before ends.
    Stop,
    /// A player starts for an item.
    Start(usize),
}

/// The item has something to play.
pub open spec fn is_playable(w: Wall, i: int) -> bool {
    w.is_kind(i, Kind::Video) || w.is_kind(i, Kind::Audio)
}

/// What becomes of the player: it ends as soon as another item is open, and the player of that
/// one starts a frame later.
pub open spec fn player_step(s: State) -> PlayerStep {
    if s.lightbox.focus != s.lightbox.video_for {
        PlayerStep::Stop
    } else {
        match s.lightbox.video_pending {
            Some(i) => if is_playable(s.wall, i as int) {
                PlayerStep::Start(i)
            } else {
                PlayerStep::Keep
            },
            None => PlayerStep::Keep,
        }
    }
}

/// The lightbox after the player was matched with the open item.
pub open spec fn matched_lightbox(s: State) -> Lightbox {
    if s.lightbox.focus != s.lightbox.video_for {
        Lightbox {
            video_for: s.lightbox.focus,
            video_pending: if s.lightbox.focus is Some && is_playable(
                s.wall,
                s.lightbox.focus->0 as int,
            ) {
                s.lightbox.focus
            } else {
                None
            },
            ..s.lightbox
        }
    } else {
        Lightbox { video_pending: None, ..s.lightbox }
    }
}

/// The flags after the player was matched with the open item: a track menu of the item before
/// closes.
pub open spec fn matched_flags(s: State) -> Flags {
    Flags {
        track_menu: if s.lightbox.focus != s.lightbox.video_for {
            None
        } else {
            s.flags.track_menu
        },
        ..s.flags
    }
}

/// The flags after a frame of a slideshow.
pub open spec fn slid_flags(s: State, now: u64) -> Flags {
    Flags {
        slideshow: s.flags.slideshow && s.lightbox.focus is Some,
        slideshow_t: if slides(s, now) {
            now
        } else {
            s.flags.slideshow_t
        },
        ..s.flags
    }
}

/// A slideshow moves on: its item has been open for long enough.
pub open spec fn slides(s: State, now: u64) -> bool {
    s.flags.slideshow && s.lightbox.focus is Some && elapsed(now, s.flags.slideshow_t) >= SLIDE_NS
}

/// The open item after a frame of a slideshow: behind the last one comes the first one.
pub open spec fn slid_focus(s: State, now: u64) -> Option<usize> {
    if slides(s, now) {
        Some(((s.lightbox.focus->0 + 1) % s.wall.shown@.len() as int) as usize)
    } else {
        s.lightbox.focus
    }
}

impl State {
    /// Matches the player with the open item.
    pub fn match_player(&mut self) -> (step: PlayerStep)
        requires
            old(self).wf(),
        ensures
            final(self).wf(),
            step == player_step(*old(self)),
            final(self).flags == matched_flags(*old(self)),
            final(self).lightbox == matched_lightbox(*old(self)),
            final(self).fields == old(self).fields,
            final(self).wall == old(self).wall,
    {
        let focus: Option<usize> = self.lightbox.focus;
        let moved: bool = focus != self.lightbox.video_for;
        let track_menu: Option<TrackMenu> = if moved {
            None
        } else {
            self.flags.track_menu
        };
        self.flags = Flags { track_menu, ..self.flags };
        if moved {
            let video_pending: Option<usize> = match focus {
                Some(f) => if self.wall.is_video(f) || self.wall.is_audio(f) {
                    focus
                } else {
                    None
                },
                None => None,
            };
            self.lightbox = Lightbox { video_for: focus, video_pending, ..self.lightbox };
            return PlayerStep::Stop;
        }
        let pending: Option<usize> = self.lightbox.video_pending;
        self.lightbox = Lightbox { video_pending: None, ..self.lightbox };
        match pending {
            Some(i) => if self.wall.is_video(i) || self.wall.is_audio(i) {
                PlayerStep::Start(i)
            } else {
                PlayerStep::Keep
            },
            None => PlayerStep::Keep,
        }
    }

    /// Moves a slideshow on when its time has come. It ends once nothing is open. Returns what is
    /// left to do.
    pub fn slide(&mut self, now: u64) -> (effects: Vec<Effect>)
        requires
            old(self).wf(),
        ensures
            final(self).wf(),
            final(self).flags == slid_flags(*old(self), now),
            final(self).lightbox == (Lightbox {
                focus: slid_focus(*old(self), now),
                ..old(self).lightbox
            }),
            final(self).fields == old(self).fields,
            final(self).wall == old(self).wall,
            effects@ == if slides(*old(self), now) {
                seq![Effect::ResetLightbox]
            } else {
                seq![]
            },
    {
        let mut effects: Vec<Effect> = Vec::new();
        let moves: bool = self.flags.slideshow && self.is_focused() && since(
            now,
            self.flags.slideshow_t,
        ) >= SLIDE_NS;
        let slideshow: bool = self.flags.slideshow && self.is_focused();
        let slideshow_t: u64 = if moves {
            now
        } else {
            self.flags.slideshow_t
        };
        let focus: Option<usize> = match self.lightbox.focus {
            Some(f) => if moves {
                Some((f + 1) % self.wall.shown.len())
            } else {
                Some(f)
            },
            None => None,
        };
        if moves {
            effects.push(Effect::ResetLightbox);
            assert(effects@ =~= seq![Effect::ResetLightbox]);
        }
        self.flags = Flags { slideshow, slideshow_t, ..self.flags };
        self.lightbox = Lightbox { focus, ..self.lightbox };
        effects
    }
}

/// A decoded animation of a tile.
pub struct WallGifMsg {
    pub index: usize,
    pub gen: u64,
    pub atlas: Option<GifAtlas>,
}

/// `after` is the wall once a decoded animation was taken up, and `layer` is where it goes.
pub open spec fn delivers(
    before: Wall,
    after: Wall,
    msg: WallGifMsg,
    now: u64,
    layer: Option<u32>,
) -> bool {
    let waited = WallGifsView {
        pending: waiting_without(before.gifs@.pending, msg.index),
        ..before.gifs@
    };
    &&& after == (Wall { gifs: after.gifs, ..before })
    &&& layer == if msg.atlas is Some && msg.gen == before.generation && before.pool@.is_ready(
        msg.index,
    ) {
        Some(before.pool@.layer_of(msg.index))
    } else {
        None
    }
    &&& if layer is Some {
        exists|g: WallGif| #[trigger]
            is_anim_of(g, msg.atlas->0, now) && after.gifs@ == (WallGifsView {
                anims: waited.anims.insert(msg.index, g),
                cursors: waited.cursors.insert(msg.index, 0),
                ..waited
            })
    } else {
        after.gifs@ == waited
    }
}

/// The walls between which the animations of `msgs` are taken up, one after the other.
pub open spec fn delivers_all(
    walls: Seq<Wall>,
    msgs: Seq<WallGifMsg>,
    now: u64,
    layers: Seq<Option<u32>>,
) -> bool {
    &&& walls.len() == msgs.len() + 1
    &&& layers.len() == msgs.len()
    &&& forall|k: int|
        0 <= k < msgs.len() ==> delivers(
            #[trigger] walls[k],
            walls[k + 1],
            msgs[k],
            now,
            layers[k],
        )
}

impl Wall {
    /// Takes up the decoded animations. Returns the layer that each one goes to.
    pub fn deliver_gifs(&mut self, msgs: &Vec<WallGifMsg>, now: u64) -> (layers: Vec<Option<u32>>)
        requires
            old(self).wf(),
            forall|k: int|
                0 <= k < msgs@.len() ==> ((#[trigger] msgs@[k]).atlas matches Some(a) ==> playable(
                    a,
                )),
        ensures
            final(self).wf(),
            *final(self) == (Wall { gifs: final(self).gifs, ..*old(self) }),
            exists|walls: Seq<Wall>| #[trigger]
                delivers_all(walls, msgs@, now, layers@) && walls[0] == *old(self)
                    && walls.last() == *final(self),
    {
        let ghost first = *self;
        let ghost mut walls: Seq<Wall> = seq![*self];
        let mut layers: Vec<Option<u32>> = Vec::new();
        let mut k: usize = 0;
        assert(msgs@.take(0) =~= seq![]);
        while k < msgs.len()
            invariant
                k <= msgs.len(),
                self.wf(),
                *self == (Wall { gifs: self.gifs, ..first }),
                delivers_all(walls, msgs@.take(k as int), now, layers@),
                walls[0] == first,
                walls.last() == *self,
                forall|k: int|
                    0 <= k < msgs@.len() ==> ((#[trigger] msgs@[k]).atlas matches Some(a)
                        ==> playable(a)),
            decreases msgs.len() - k,
        {
            let ghost before = *self;
            let ghost walls0 = walls;
            let ghost layers0 = layers@;
            let msg = &msgs[k];
            assert(msgs@[k as int].atlas matches Some(a) ==> playable(a));
            let layer: Option<u32> = match &msg.atlas {
                Some(a) => self.deliver_gif(msg.index, msg.gen, Some(a), now),
                None => self.deliver_gif(msg.index, msg.gen, None, now),
            };
            layers.push(layer);
            k = k + 1;
            proof {
                walls = walls.push(*self);
                assert(delivers(before, *self, msgs@[k - 1], now, layer));
                assert forall|n: int| 0 <= n < k implies delivers(
                    #[trigger] walls[n],
                    walls[n + 1],
                    msgs@.take(k as int)[n],
                    now,
                    layers@[n],
                ) by {
                    if n < k - 1 {
                        assert(walls0[n] == walls[n]);
                        assert(walls0[n + 1] == walls[n + 1]);
                        assert(msgs@.take(k - 1)[n] == msgs@.take(k as int)[n]);
                        assert(layers0[n] == layers@[n]);
                    } else {
                        assert(walls[n] == walls0.last());
                    }
                }
            }
        }
        assert(msgs@.take(msgs@.len() as int) =~= msgs@);
        layers
    }
}

/// The flags at the start of a frame that shows another part of the library: nothing is open, so
/// that a slideshow ends.
pub open spec fn rebuilt_flags(g: Flags) -> Flags {
    Flags { view_dirty: false, slideshow: false, ..g }
}

impl State {
    /// Starts a frame: the displayed part of the library is found anew where the query has
    /// changed, and a slideshow moves on. `times` says of each item of the library when it was
    /// made. Returns what is left to do.
    pub fn begin_frame(
        &mut self,
        times: Option<&Vec<FileTimes>>,
        now: u64,
    ) -> (effects: Vec<Effect>)
        requires
            old(self).wf(),
            old(self).flags.view_dirty ==> old(self).wall.generation < u64::MAX && (
            times matches Some(t) && t@.len() == old(self).wall.all@.len()),
        ensures
            final(self).wf(),
            final(self).fields == old(self).fields,
            old(self).flags.view_dirty ==> {
                &&& effects@ == seq![Effect::ResetWall]
                &&& final(self).flags == rebuilt_flags(old(self).flags)
                &&& final(self).lightbox == (Lightbox {
                    focus: None,
                    video_for: None,
                    video_pending: None,
                    ..old(self).lightbox
                })
                &&& exists|q: Query|
                    #![trigger old(self).is_query(q)]
                    old(self).is_query(q) && is_view(
                        sources_view(old(self).wall.all@),
                        times->0@,
                        q,
                        final(self).wall.shown@,
                    )
                &&& final(self).wall.all == old(self).wall.all
                &&& final(self).wall.folder == old(self).wall.folder
                &&& final(self).wall.generation == old(self).wall.generation + 1
                &&& final(self).wall.pool@ == empty_pool()
                &&& final(self).wall.gifs@ == no_gifs(old(self).wall.gifs@.tick)
                &&& final(self).wall.prev_inflight == old(self).wall.prev_inflight
            },
            !old(self).flags.view_dirty ==> {
                &&& effects@ == if slides(*old(self), now) {
                    seq![Effect::ResetLightbox]
                } else {
                    seq![]
                }
                &&& final(self).flags == slid_flags(*old(self), now)
                &&& final(self).lightbox == (Lightbox {
                    focus: slid_focus(*old(self), now),
                    hover: if slid_focus(*old(self), now) is Some {
                        None
                    } else {
                        old(self).lightbox.hover
                    },
                    ..old(self).lightbox
                })
                &&& final(self).wall == old(self).wall
            },
    {
        if self.flags.view_dirty {
            let flags: Flags = Flags { view_dirty: false, slideshow: false, ..self.flags };
            match times {
                Some(t) => self.rebuild_view(t),
                None => {},
            }
            self.flags = flags;
            let effects: Vec<Effect> = vec![Effect::ResetWall];
            assert(effects@ =~= seq![Effect::ResetWall]);
            return effects;
        }
        let effects: Vec<Effect> = self.slide(now);
        if self.lightbox.focus.is_some() {
            self.lightbox = Lightbox { hover: None, ..self.lightbox };
        }
        effects
    }
}

/// What a frame animates on the wall.
pub struct Animation {
    /// The tiles whose animation is to be decoded.
    pub started: Vec<usize>,
    /// The layer that each decoded animation goes to.
    pub layers: Vec<Option<u32>>,
}

/// What a frame does to the animations on the wall: those of dropped tiles end, the next ones are
/// chosen, decoded ones start, and all move on to the frame that is due.
pub open spec fn animates(
    before: Wall,
    choose_more: bool,
    on: bool,
    center: int,
    msgs: Seq<WallGifMsg>,
    now: u64,
    out: Animation,
    after: Wall,
    kept: Wall,
    walls: Seq<Wall>,
) -> bool {
    &&& kept == (Wall { gifs: kept.gifs, ..before })
    &&& kept.gifs@ == before.gifs@.retained(before.pool@)
    &&& delivers_all(walls, msgs, now, out.layers@)
    &&& walls[0] == (Wall { gifs: walls[0].gifs, ..before })
    &&& walls[0].gifs@ == (WallGifsView {
        pending: kept.gifs@.pending + out.started@,
        ..kept.gifs@
    })
    &&& if choose_more {
        kept.are_starts(center, out.started@)
    } else {
        out.started@.len() == 0
    }
    &&& after == (Wall { gifs: after.gifs, ..before })
    &&& if on {
        advanced(walls.last().gifs@, after.gifs@, now)
    } else {
        after.gifs@ == walls.last().gifs@
    }
}

impl Wall {
    /// Animates the wall for one frame.
    pub fn animate(
        &mut self,
        choose_more: bool,
        on: bool,
        center: i64,
        msgs: &Vec<WallGifMsg>,
        now: u64,
    ) -> (out: Animation)
        requires
            old(self).wf(),
            forall|k: int|
                0 <= k < msgs@.len() ==> ((#[trigger] msgs@[k]).atlas matches Some(a) ==> playable(
                    a,
                )),
        ensures
            final(self).wf(),
            exists|kept: Wall, walls: Seq<Wall>| #[trigger]
                animates(
                    *old(self),
                    choose_more,
                    on,
                    center as int,
                    msgs@,
                    now,
                    out,
                    *final(self),
                    kept,
                    walls,
                ),
    {
        let ghost before = *self;
        self.gifs.retain(&self.pool);
        let ghost kept = *self;
        assert(kept.wf());
        let started: Vec<usize> = if choose_more {
            self.start_gifs(center)
        } else {
            let none: Vec<usize> = Vec::new();
            assert(kept.gifs@.pending + none@ =~= kept.gifs@.pending);
            none
        };
        let ghost chosen = *self;
        let layers: Vec<Option<u32>> = self.deliver_gifs(msgs, now);
        let ghost walls = choose|walls: Seq<Wall>| #[trigger]
            delivers_all(walls, msgs@, now, layers@) && walls[0] == chosen && walls.last() == *self;
        if on {
            self.gifs.advance(now);
        }
        let out = Animation { started, layers };
        assert(animates(
            before,
            choose_more,
            on,
            center as int,
            msgs@,
            now,
            out,
            *self,
            kept,
            walls,
        ));
        out
    }
}

/// What a frame starts from.
pub struct FrameIn {
    pub now: u64,
    /// How long the frame lasts, in nanoseconds.
    pub dt: u64,
    /// The column that the wall is scrolled to.
    pub scroll_col: i64,
    /// The wall moves too fast to start animations.
    pub fast: bool,
    /// The finished decodes.
    pub inbox: Vec<Finished>,
    /// The decoded frames of open GIFs.
    pub gifs: Vec<GifMsg>,
    /// The decoded animations of tiles.
    pub wall_gifs: Vec<WallGifMsg>,
}

impl FrameIn {
    pub open spec fn wf(self) -> bool {
        &&& self.dt <= MAX_STEP_NS
        &&& i64::MIN + KEEP_COLS <= self.scroll_col <= i64::MAX - KEEP_COLS
        &&& all_lasting(self.gifs@)
        &&& forall|k: int|
            0 <= k < self.wall_gifs@.len() ==> ((#[trigger] self.wall_gifs@[k]).atlas matches Some(
                a,
            ) ==> playable(a))
    }
}

/// What a frame leaves to do.
pub struct FrameOut {
    pub stream: Stream,
    pub player: PlayerStep,
    pub gif: GifStep,
    pub animation: Animation,
    pub end: FrameEnd,
}

/// What the end of a frame leaves to do.
pub struct FrameEnd {
    /// The tiles to paint, back to front.
    pub instances: Vec<Instance>,
    /// The last decode of a burst has ended: memory can be handed back.
    pub trim: bool,
    /// A line is due in the memory log.
    pub log_memory: bool,
}

/// The flags after a frame: the memory log is written from time to time.
pub open spec fn logged_flags(g: Flags, now: u64) -> Flags {
    Flags {
        mem_log: if logs_memory(g, now) {
            now
        } else {
            g.mem_log
        },
        ..g
    }
}

/// A line is due in the memory log.
pub open spec fn logs_memory(g: Flags, now: u64) -> bool {
    g.show_mem && elapsed(now, g.mem_log) >= MEM_LOG_NS
}

/// The open GIF.
pub open spec fn gif_target(s: State) -> Option<usize> {
    if s.lightbox.focus is Some && s.wall.is_gif(s.lightbox.focus->0 as int) {
        s.lightbox.focus
    } else {
        None
    }
}

/// More animations are decoded: the wall is in view, and slow enough.
pub open spec fn chooses_more(s: State, input: FrameIn) -> bool {
    s.flags.gif_anim && s.lightbox.focus is None && !input.fast
}

/// `after` is the state once a frame has loaded.
pub open spec fn is_streamed(
    before: State,
    after: State,
    input: FrameIn,
    out: Stream,
    kept: PoolView,
) -> bool {
    &&& before.streams(input.inbox@, input.scroll_col, out, after.wall.pool@, kept)
    &&& after.lightbox == full_asked(
        before.wall,
        before.flags.gif_anim,
        took_fulls(
            before.lightbox,
            input.inbox@.take(out.outcomes@.len() as int),
            before.wall.generation,
        ),
    )
    &&& after.flags == before.flags
    &&& after.fields == before.fields
    &&& after.wall == (Wall { pool: after.wall.pool, ..before.wall })
}

/// `after` is the state once the player was matched with the open item.
pub open spec fn is_matched(before: State, after: State, step: PlayerStep) -> bool {
    &&& step == player_step(before)
    &&& after.flags == matched_flags(before)
    &&& after.lightbox == matched_lightbox(before)
    &&& after.fields == before.fields
    &&& after.wall == before.wall
}

/// `after` is the animation of the open item after a frame.
pub open spec fn is_gif_step(
    before: OpenGifView,
    after: OpenGifView,
    s: State,
    input: FrameIn,
    out: GifStep,
) -> bool {
    let (gen, focus) = (s.wall.generation, s.lightbox.focus);
    let there = delivered_all(followed(before, gif_target(s)), input.gifs@, gen, focus);
    &&& out.decode == follow_job(before, gif_target(s))
    &&& out.shown@ == played_msgs(input.gifs@, gen, focus)
    &&& after == played_on(there, focus, input.dt)
    &&& out.frame == if moves(there, focus) {
        Some(after.anim->0.cur)
    } else {
        None
    }
}

/// The lightbox once frames of the open GIF were shown: they take the place of its full picture.
pub open spec fn gif_lightbox(lb: Lightbox, out: GifStep) -> Lightbox {
    Lightbox {
        full_for: if out.shown@.len() > 0 || out.frame is Some {
            lb.focus
        } else {
            lb.full_for
        },
        ..lb
    }
}

/// `after` is the state at the end of a frame.
pub open spec fn is_end(
    before: State,
    after: State,
    window: Window,
    now: u64,
    out: FrameEnd,
) -> bool {
    let inflight = before.wall.pool@.inflight;
    &&& after.flags == logged_flags(before.flags, now)
    &&& after.fields == before.fields
    &&& after.lightbox == before.lightbox
    &&& after.wall == (Wall { prev_inflight: inflight as usize, ..before.wall })
    &&& out.instances@ == capped(
        all_painted(
            before.wall.pool@,
            before.wall.gifs@.cursors,
            window_tiles(window, before.wall.shown@.len() as int),
            before.flags.reflections,
            before.lightbox.hover,
        ),
    )
    &&& out.trim == (before.wall.prev_inflight > 0 && inflight == 0)
    &&& out.log_memory == logs_memory(before.flags, now)
}

/// `after` is the state once the animations have moved on.
pub open spec fn is_animated(
    before: State,
    after: State,
    input: FrameIn,
    gif: GifStep,
    out: Animation,
) -> bool {
    &&& after.flags == before.flags
    &&& after.fields == before.fields
    &&& after.lightbox == gif_lightbox(before.lightbox, gif)
    &&& exists|kept: Wall, walls: Seq<Wall>| #[trigger]
        animates(
            before.wall,
            chooses_more(before, input),
            before.flags.gif_anim,
            before.center_of(input.scroll_col),
            input.wall_gifs@,
            input.now,
            out,
            after.wall,
            kept,
            walls,
        )
}

/// What a frame does, step by step: `s1` is the state once it has loaded, `s2` the state once the
/// player was matched with the open item, and `s3` the state once the animations have moved on.
pub open spec fn is_frame(
    before: State,
    after: State,
    gif_before: OpenGifView,
    gif_after: OpenGifView,
    input: FrameIn,
    out: FrameOut,
    s1: State,
    s2: State,
    s3: State,
) -> bool {
    &&& exists|kept: PoolView| #[trigger] is_streamed(before, s1, input, out.stream, kept)
    &&& is_matched(s1, s2, out.player)
    &&& is_gif_step(gif_before, gif_after, s2, input, out.gif)
    &&& is_animated(s2, s3, input, out.gif, out.animation)
    &&& is_end(s3, after, before.window_of(input.scroll_col), input.now, out.end)
}

impl State {
    fn open_gif(&self) -> (target: Option<usize>)
        requires
            self.wf(),
        ensures
            target == gif_target(*self),
    {
        match self.lightbox.focus {
            Some(f) => if self.wall.is_gif_tile(f) {
                Some(f)
            } else {
                None
            },
            None => None,
        }
    }

    fn finish(&mut self, window: Window, now: u64) -> (out: FrameEnd)
        requires
            old(self).wf(),
            0 <= window.first,
            window.last < cols_for(old(self).wall.shown@.len() as int),
        ensures
            final(self).wf(),
            is_end(*old(self), *final(self), window, now, out),
    {
        let instances: Vec<Instance> = self.wall.instances(
            window,
            self.flags.reflections,
            self.lightbox.hover,
        );
        let inflight: usize = self.wall.pool.inflight();
        let trim: bool = self.wall.prev_inflight > 0 && inflight == 0;
        self.wall.prev_inflight = inflight;
        let log_memory: bool = self.flags.show_mem && since(now, self.flags.mem_log)
            >= MEM_LOG_NS;
        let mem_log: u64 = if log_memory {
            now
        } else {
            self.flags.mem_log
        };
        self.flags = Flags { mem_log, ..self.flags };
        FrameEnd { instances, trim, log_memory }
    }

    fn animate(&mut self, gif: &GifStep, input: &FrameIn) -> (out: Animation)
        requires
            old(self).wf(),
            input.wf(),
        ensures
            final(self).wf(),
            final(self).wall.shown == old(self).wall.shown,
            is_animated(*old(self), *final(self), *input, *gif, out),
    {
        let ghost s = *self;
        let focus: Option<usize> = self.lightbox.focus;
        let full_for: Option<usize> = if gif.shown.len() > 0 || gif.frame.is_some() {
            focus
        } else {
            self.lightbox.full_for
        };
        self.lightbox = Lightbox { full_for, ..self.lightbox };
        let on: bool = self.flags.gif_anim;
        let more: bool = on && focus.is_none() && !input.fast;
        let center: i64 = self.view_center(input.scroll_col);
        assert(center == s.center_of(input.scroll_col));
        assert(more == chooses_more(s, *input));
        self.wall.animate(more, on, center, &input.wall_gifs, input.now)
    }

    /// One frame: what has come is taken up, what is needed is asked for, the player follows the
    /// open item, animations move on, and the wall is painted.
    pub fn update(&mut self, gif: &mut OpenGif, input: &FrameIn) -> (out: FrameOut)
        requires
            old(self).wf(),
            old(gif)@.wf(),
            input.wf(),
        ensures
            final(self).wf(),
            final(gif)@.wf(),
            exists|s1: State, s2: State, s3: State| #[trigger]
                is_frame(
                    *old(self),
                    *final(self),
                    old(gif)@,
                    final(gif)@,
                    *input,
                    out,
                    s1,
                    s2,
                    s3,
                ),
    {
        let ghost s0 = *self;
        let ghost g0 = gif@;
        let window: Window = self.window(input.scroll_col);
        let stream: Stream = self.stream(&input.inbox, input.scroll_col);
        let ghost s1 = *self;
        let ghost kept = choose|kept: PoolView| #[trigger]
            s0.streams(input.inbox@, input.scroll_col, stream, s1.wall.pool@, kept);
        assert(is_streamed(s0, s1, *input, stream, kept));
        let player: PlayerStep = self.match_player();
        let ghost s2 = *self;
        assert(is_matched(s1, s2, player));
        let focus: Option<usize> = self.lightbox.focus;
        let target: Option<usize> = self.open_gif();
        let step: GifStep = gif.step(target, &input.gifs, self.wall.generation, focus, input.dt);
        assert(is_gif_step(g0, gif@, s2, *input, step));
        let animation: Animation = self.animate(&step, input);
        let ghost s3 = *self;
        let end: FrameEnd = self.finish(window, input.now);
        let out = FrameOut { stream, player, gif: step, animation, end };
        assert(is_frame(s0, *self, g0, gif@, *input, out, s1, s2, s3));
        out
    }
}

} // verus!
