//! What the interface shows of the state.

use crate::components::{InfoCard, SortMode, TrackItem, UiCtx, VideoCtx};
use crate::dates::{chosen_time, file_time, fmt_date, shows_time, FileTimes};
use crate::media::{ext_dot, stem, Kind, Source, SourceView};
use crate::paths::{file_name, file_name_text, full_text, path_bytes, path_text, text_view};
use crate::pool::{cols_for, increasing, keys_of, Tile};
use crate::state::{State, BLINK_NS, BLINK_ON_NS, IDLE_NS};
use crate::system::MemStats;
use crate::text::{
    decimal, from_chars, push_decimal, shorten, shorten_left, shortened, shortened_left, to_chars,
};
use crate::video::Track;
use crate::wall::{elapsed, since, Wall, WallGif};
use std::path::PathBuf;
use vstd::prelude::*;

verus! {

broadcast use vstd::std_specs::btree::group_btree_axioms;

/// Names on the wall at most.
pub const MAX_TITLES: usize = 80;

/// What the player says of the item that it plays. Times are in whole seconds.
pub struct Playing {
    /// It has shown a frame.
    pub has_frame: bool,
    /// The length of the item is known.
    pub timed: bool,
    pub paused: bool,
    pub pos: u64,
    pub dur: u64,
    pub aid: i64,
    pub sid: i64,
    /// The time that the pointer's place on the seek track stands for.
    pub hover_time: u64,
    pub tracks: Vec<Track>,
}

/// What the world outside says of itself.
pub struct Outside {
    /// What plays, if anything.
    pub player: Option<Playing>,
    /// The memory of the program in megabytes, where it is known.
    pub mem_mb: Option<u64>,
    /// When the open file was made.
    pub times: FileTimes,
    pub fullscreen: bool,
    pub now: u64,
}

/// A menu item: its track, what it says, and whether it is selected.
pub open spec fn items_view(items: Seq<TrackItem>) -> Seq<(i64, Seq<char>, bool)> {
    items.map_values(|t: TrackItem| (t.id, t.label@, t.selected))
}

/// The menu items of the audio tracks, or of the subtitle tracks.
pub open spec fn items_of(tracks: Seq<Track>, audio: bool) -> Seq<(i64, Seq<char>, bool)>
    decreases tracks.len(),
{
    if tracks.len() == 0 {
        seq![]
    } else {
        let rest = items_of(tracks.drop_last(), audio);
        let t = tracks.last();
        if t.audio == audio {
            rest.push((t.id, t.label@, t.selected))
        } else {
            rest
        }
    }
}

fn track_items(tracks: &Vec<Track>, audio: bool) -> (items: Vec<TrackItem>)
    ensures
        items_view(items@) == items_of(tracks@, audio),
        items.len() <= tracks.len(),
{
    let mut items: Vec<TrackItem> = Vec::new();
    let mut i: usize = 0;
    assert(tracks@.take(0) =~= seq![]);
    assert(items_view(items@) =~= seq![]);
    while i < tracks.len()
        invariant
            i <= tracks.len(),
            items.len() <= i,
            items_view(items@) == items_of(tracks@.take(i as int), audio),
        decreases tracks.len() - i,
    {
        let ghost before = items_view(items@);
        proof {
            assert(tracks@.take(i + 1).drop_last() =~= tracks@.take(i as int));
            assert(tracks@.take(i + 1).last() == tracks@[i as int]);
        }
        if tracks[i].audio == audio {
            let item = TrackItem {
                id: tracks[i].id,
                label: tracks[i].label.clone(),
                selected: tracks[i].selected,
            };
            let ghost row = (item.id, item.label@, item.selected);
            items.push(item);
            assert(items_view(items@) =~= before.push(row));
        }
        i = i + 1;
    }
    assert(tracks@.take(tracks@.len() as int) =~= tracks@);
    items
}

/// The position of an item in the library, counted from one.
pub open spec fn position_text(i: int, total: int) -> Seq<char> {
    decimal((i + 1) as nat) + " / "@ + decimal(total as nat)
}

/// Which of its dates a file is shown with.
pub open spec fn by_created(date_created: bool, sort: SortMode) -> bool {
    date_created || sort is CreatedNew || sort is CreatedOld
}

/// The name of a date.
pub open spec fn when_text(created: bool) -> Seq<char> {
    if created {
        "Created"@
    } else {
        "Modified"@
    }
}

/// The last line of the info card: the position, and the date where it is known.
pub open spec fn is_meta(
    meta: Seq<char>,
    i: int,
    total: int,
    created: bool,
    times: FileTimes,
) -> bool {
    match chosen_time(times, created) {
        Some(time) => exists|date: Seq<char>| #[trigger]
            shows_time(time, date) && meta == position_text(i, total) + "  \u{b7}  "@ + when_text(
                created,
            ) + " "@ + date,
        None => meta == position_text(i, total),
    }
}

/// The file name of a path, without its extension.
pub open spec fn title_of(path: Seq<u8>) -> Seq<char> {
    match file_name_text(path) {
        Some(name) => stem(name),
        None => seq![],
    }
}

fn title(p: &PathBuf) -> (text: String)
    ensures
        text@ == title_of(path_bytes(*p)),
{
    match file_name(p) {
        Some(name) => {
            let chars = to_chars(name.as_str());
            match ext_dot(&chars) {
                Some(dot) => {
                    assert(chars@.subrange(0, dot as int) =~= chars@.take(dot as int));
                    from_chars(&chars, 0, dot)
                },
                None => name,
            }
        },
        None => {
            let text = String::new();
            assert(text@ =~= seq![]);
            text
        },
    }
}

fn meta(i: usize, total: usize, created: bool, times: FileTimes) -> (text: String)
    requires
        i < total,
    ensures
        is_meta(text@, i as int, total as int, created, times),
{
    let mut text = String::new();
    push_decimal(&mut text, i as u64 + 1);
    assert(text@ =~= decimal((i + 1) as nat));
    text.append(" / ");
    push_decimal(&mut text, total as u64);
    assert(text@ == position_text(i as int, total as int));
    match file_time(times, created) {
        Some(time) => {
            let date = fmt_date(time);
            text.append("  \u{b7}  ");
            text.append(
                if created {
                    "Created"
                } else {
                    "Modified"
                },
            );
            text.append(" ");
            text.append(date.as_str());
            assert(shows_time(time, date@));
        },
        None => {},
    }
    text
}

impl State {
    /// The open item is a video or music that does not show yet: its player has not started, or
    /// has no frame, or (for music) no length and no cover.
    pub open spec fn is_starting(self, player: Option<Playing>) -> bool {
        match self.lightbox.focus {
            Some(f) => {
                let video = self.wall.is_kind(f as int, Kind::Video);
                let audio = self.wall.is_kind(f as int, Kind::Audio);
                (video || audio) && (self.lightbox.video_pending is Some || match player {
                    Some(p) => if video {
                        !p.has_frame
                    } else {
                        !p.timed || self.lightbox.full_for != self.lightbox.focus
                    },
                    None => true,
                })
            },
            None => false,
        }
    }

    /// Whether the open video or music is still starting.
    pub fn media_starting(&self, player: &Option<Playing>) -> (yes: bool)
        requires
            self.wf(),
        ensures
            yes == self.is_starting(*player),
    {
        match self.lightbox.focus {
            Some(f) => {
                let video: bool = self.wall.is_video(f);
                if !video && !self.wall.is_audio(f) {
                    return false;
                }
                if self.lightbox.video_pending.is_some() {
                    return true;
                }
                match player {
                    Some(p) => if video {
                        !p.has_frame
                    } else {
                        !p.timed || self.lightbox.full_for != self.lightbox.focus
                    },
                    None => true,
                }
            },
            None => false,
        }
    }

    /// The controls of what plays show: a track menu is open, it is paused, or the pointer was
    /// used a moment ago.
    pub open spec fn shows_controls(self, player: Option<Playing>, now: u64) -> bool {
        &&& self.lightbox.focus is Some
        &&& player matches Some(p) && (self.flags.track_menu is Some || p.paused || elapsed(
            now,
            self.flags.last_activity,
        ) < IDLE_NS)
    }

    /// Whether the controls of what plays show.
    pub fn video_controls_visible(&self, player: &Option<Playing>, now: u64) -> (yes: bool)
        ensures
            yes == self.shows_controls(*player, now),
    {
        if self.lightbox.focus.is_none() {
            return false;
        }
        match player {
            Some(p) => self.flags.track_menu.is_some() || p.paused || since(
                now,
                self.flags.last_activity,
            ) < IDLE_NS,
            None => false,
        }
    }

    /// Whether the controls of the lightbox show: those of a video hide with its bar.
    pub fn lightbox_controls_visible(&self, player: &Option<Playing>, now: u64) -> (yes: bool)
        requires
            self.wf(),
        ensures
            yes == (!self.video_is_open() || self.shows_controls(*player, now)),
    {
        !self.focused_is_video() || self.video_controls_visible(player, now)
    }

    /// The info card of the open item: its title, its path (of a long one the end), and where and
    /// when it is.
    pub open spec fn is_info(self, times: FileTimes, info: Option<InfoCard>) -> bool {
        let file = self.flags.show_info && self.lightbox.focus is Some && self.wall.source_at(
            self.lightbox.focus->0 as int,
        ) is Media;
        &&& info is Some == file
        &&& info matches Some(card) ==> {
            let f = self.lightbox.focus->0 as int;
            let path = self.wall.source_at(f)->Media_1;
            &&& card.title@ == title_of(path)
            &&& card.path@ == shortened_left(path_text(path), 72)
            &&& is_meta(
                card.meta@,
                f,
                self.wall.shown@.len() as int,
                by_created(self.flags.date_created, self.flags.sort_mode),
                times,
            )
        }
    }

    fn info_card(&self, times: FileTimes) -> (info: Option<InfoCard>)
        requires
            self.wf(),
        ensures
            self.is_info(times, info),
    {
        if !self.flags.show_info {
            return None;
        }
        let f: usize = match self.lightbox.focus {
            Some(f) => f,
            None => {
                return None;
            },
        };
        let p: &PathBuf = match self.wall.source(f) {
            Some(Source::File(p)) => p,
            Some(Source::Video(p)) => p,
            Some(Source::Audio(p)) => p,
            _ => {
                return None;
            },
        };
        let created: bool = self.flags.date_created || match self.flags.sort_mode {
            SortMode::CreatedNew => true,
            SortMode::CreatedOld => true,
            _ => false,
        };
        let whole = full_text(p);
        Some(
            InfoCard {
                title: title(p),
                path: shorten_left(whole.as_str(), 72),
                meta: meta(f, self.wall.shown.len(), created, times),
            },
        )
    }

    /// What the controls bar shows of what plays: nothing while it is starting.
    pub open spec fn is_video_ctx(
        self,
        player: Option<Playing>,
        now: u64,
        video: Option<VideoCtx>,
    ) -> bool {
        &&& video is Some == (player is Some && !self.is_starting(player))
        &&& video matches Some(v) ==> {
            let p = player->0;
            &&& v.pos == p.pos
            &&& v.dur == p.dur
            &&& v.paused == p.paused
            &&& v.aid == p.aid
            &&& v.sid == p.sid
            &&& v.visible == self.shows_controls(player, now)
            &&& v.timed == p.timed
            &&& v.hover_time == p.hover_time
            &&& v.track_menu == self.flags.track_menu
            &&& items_view(v.audio_tracks@) == if self.flags.track_menu is Some {
                items_of(p.tracks@, true)
            } else {
                seq![]
            }
            &&& items_view(v.sub_tracks@) == if self.flags.track_menu is Some {
                items_of(p.tracks@, false)
            } else {
                seq![]
            }
        }
    }

    fn video_ctx(&self, player: &Option<Playing>, now: u64) -> (video: Option<VideoCtx>)
        requires
            self.wf(),
            player matches Some(p) ==> p.tracks.len() < usize::MAX,
        ensures
            self.is_video_ctx(*player, now, video),
            video matches Some(v) ==> v.audio_tracks.len() < usize::MAX && v.sub_tracks.len()
                < usize::MAX,
    {
        if self.media_starting(player) {
            return None;
        }
        let visible: bool = self.video_controls_visible(player, now);
        match player {
            Some(p) => {
                let (audio_tracks, sub_tracks): (Vec<TrackItem>, Vec<TrackItem>) =
                    if self.flags.track_menu.is_some() {
                    (track_items(&p.tracks, true), track_items(&p.tracks, false))
                } else {
                    let none: (Vec<TrackItem>, Vec<TrackItem>) = (Vec::new(), Vec::new());
                    assert(items_view(none.0@) =~= seq![]);
                    assert(items_view(none.1@) =~= seq![]);
                    none
                };
                Some(
                    VideoCtx {
                        pos: p.pos,
                        dur: p.dur,
                        paused: p.paused,
                        aid: p.aid,
                        sid: p.sid,
                        visible,
                        timed: p.timed,
                        hover_time: p.hover_time,
                        track_menu: self.flags.track_menu,
                        audio_tracks,
                        sub_tracks,
                    },
                )
            },
            None => None,
        }
    }

    /// The caret of a text field shows: it blinks, and is solid right after activity.
    pub open spec fn caret_shows(self, now: u64) -> bool {
        elapsed(now, self.flags.last_activity) % (BLINK_NS as int) < BLINK_ON_NS
    }

    /// `c` is what the interface needs for this frame.
    pub open spec fn is_ctx(self, out: Outside, c: UiCtx) -> bool {
        &&& c.sort == self.flags.sort_mode
        &&& c.filter == self.flags.filter_kind
        &&& c.menu == self.flags.open_menu
        &&& c.search@ == self.fields@.search
        &&& c.search_active == self.fields@.search_active
        &&& c.slideshow == self.flags.slideshow
        &&& c.gif_anim == self.flags.gif_anim
        &&& c.reflections == self.flags.reflections
        &&& c.date_created == self.flags.date_created
        &&& c.date_from@ == self.fields@.date_from
        &&& c.date_to@ == self.fields@.date_to
        &&& c.date_active == self.fields@.date_active
        &&& c.caret == self.fields@.caret
        &&& c.show_titles == self.flags.show_titles
        &&& c.show_mem == self.flags.show_mem
        &&& c.mem_mb == if self.flags.show_mem {
            out.mem_mb
        } else {
            None
        }
        &&& c.show_info == self.flags.show_info
        &&& c.total == self.wall.shown@.len()
        &&& c.ready == self.wall.pool@.ready().len()
        &&& c.inflight == self.wall.pool@.inflight
        &&& c.focused == (self.lightbox.focus is Some)
        &&& self.is_info(out.times, c.info)
        &&& self.is_video_ctx(out.player, out.now, c.video)
        &&& c.fullscreen == out.fullscreen
        &&& c.caret_on == self.caret_shows(out.now)
    }

    /// What the interface needs for this frame.
    pub fn ui_ctx(&self, out: &Outside) -> (c: UiCtx)
        requires
            self.wf(),
            out.player matches Some(p) ==> p.tracks.len() < usize::MAX,
        ensures
            self.is_ctx(*out, c),
            crate::widgets::countable(c),
    {
        let idle: u64 = since(out.now, self.flags.last_activity);
        UiCtx {
            sort: self.flags.sort_mode,
            filter: self.flags.filter_kind,
            menu: self.flags.open_menu,
            search: self.fields.search.clone(),
            search_active: self.fields.search_active,
            slideshow: self.flags.slideshow,
            gif_anim: self.flags.gif_anim,
            reflections: self.flags.reflections,
            date_created: self.flags.date_created,
            date_from: self.fields.date_from.clone(),
            date_to: self.fields.date_to.clone(),
            date_active: self.fields.date_active,
            caret: self.fields.caret,
            show_titles: self.flags.show_titles,
            show_mem: self.flags.show_mem,
            mem_mb: if self.flags.show_mem {
                out.mem_mb
            } else {
                None
            },
            show_info: self.flags.show_info,
            total: self.wall.shown.len(),
            ready: self.wall.ready_count(),
            inflight: self.wall.pool.inflight(),
            focused: self.lightbox.focus.is_some(),
            info: self.info_card(out.times),
            video: self.video_ctx(&out.player, out.now),
            fullscreen: out.fullscreen,
            caret_on: idle % BLINK_NS < BLINK_ON_NS,
        }
    }
}

/// The text in the middle of the screen.
pub open spec fn scan_text(count: usize) -> Seq<char> {
    if count > 0 {
        "Scanning folder\u{2026}  "@ + decimal(count as nat) + " found"@
    } else {
        "Scanning folder\u{2026}"@
    }
}

/// The tiles with their names, as far as they have any: at most eighty.
pub open spec fn titles_of(w: Wall, tiles: Seq<usize>) -> Seq<(usize, Seq<char>)>
    decreases tiles.len(),
{
    if tiles.len() == 0 {
        seq![]
    } else {
        let rest = titles_of(w, tiles.drop_last());
        let i = tiles.last();
        if rest.len() < MAX_TITLES && w.pool@.is_ready(i) && name_of(w, i as int) is Some {
            rest.push((i, name_of(w, i as int)->0))
        } else {
            rest
        }
    }
}

/// The name that a tile is labelled with: its file name, cut to 22 characters.
pub open spec fn name_of(w: Wall, i: int) -> Option<Seq<char>> {
    if 0 <= i < w.shown@.len() {
        match w.source_at(i) {
            SourceView::Media(_, path) => match file_name_text(path) {
                Some(name) => Some(shortened(name, 22)),
                None => None,
            },
            SourceView::Placeholder(_) => None,
        }
    } else {
        None
    }
}

/// A tile and its name.
pub struct Title {
    pub index: usize,
    pub name: String,
}

/// What titles say.
pub open spec fn titles_view(titles: Seq<Title>) -> Seq<(usize, Seq<char>)> {
    titles.map_values(|t: Title| (t.index, t.name@))
}

/// What the lightbox shows of the open item.
#[derive(Clone, Copy, PartialEq, Eq, Structural, Debug)]
pub enum LbDraw {
    Nothing,
    /// The full picture.
    Full,
    /// A frame of the animation in a layer.
    Cell { layer: u32, frame: usize },
}

/// Frames of the animations of the tiles `keys`.
pub open spec fn frames_of(anims: Map<usize, WallGif>, keys: Seq<usize>) -> nat
    decreases keys.len(),
{
    if keys.len() == 0 {
        0
    } else {
        frames_of(anims, keys.drop_last()) + anims[keys.last()].delays@.len()
    }
}

/// `keys` are the animated tiles, in their order.
pub open spec fn are_keys(anims: Map<usize, WallGif>, keys: Seq<usize>) -> bool {
    increasing(keys) && forall|i: usize| keys.contains(i) <==> anims.dom().contains(i)
}

impl State {
    /// The text in the middle of the screen: how far a scan is, why a video does not play, or
    /// that the first tiles are loading.
    pub open spec fn status_of(self, can_play: bool) -> Option<Seq<char>> {
        if self.flags.scanning {
            Some(scan_text(self.flags.scan_count))
        } else if self.lightbox.focus is Some {
            if self.video_is_open() && !can_play {
                Some("\u{25b6}  video \u{2014} rebuild with  --features video  to play"@)
            } else {
                None
            }
        } else if self.wall.pool@.inflight > 0 && self.wall.pool@.ready().len() < 6 {
            Some("Loading\u{2026}"@)
        } else {
            None
        }
    }

    /// The text in the middle of the screen. `can_play` says whether there is a player.
    pub fn status_text(&self, can_play: bool) -> (text: Option<String>)
        requires
            self.wf(),
        ensures
            text_view(text) == self.status_of(can_play),
    {
        if self.flags.scanning {
            let mut text = "Scanning folder\u{2026}".to_owned();
            if self.flags.scan_count > 0 {
                text = "Scanning folder\u{2026}  ".to_owned();
                push_decimal(&mut text, self.flags.scan_count as u64);
                text.append(" found");
            }
            Some(text)
        } else if self.is_focused() {
            if self.focused_is_video() && !can_play {
                Some(
                    "\u{25b6}  video \u{2014} rebuild with  --features video  to play".to_owned(),
                )
            } else {
                None
            }
        } else if self.wall.pool.inflight() > 0 && self.wall.ready_count() < 6 {
            Some("Loading\u{2026}".to_owned())
        } else {
            None
        }
    }

    /// The name that a tile is labelled with.
    pub fn tile_name(&self, i: usize) -> (name: Option<String>)
        requires
            self.wf(),
        ensures
            text_view(name) == name_of(self.wall, i as int),
    {
        let p: &PathBuf = match self.wall.source(i) {
            Some(Source::File(p)) => p,
            Some(Source::Video(p)) => p,
            Some(Source::Audio(p)) => p,
            _ => {
                return None;
            },
        };
        match file_name(p) {
            Some(name) => Some(shorten(name.as_str(), 22)),
            None => None,
        }
    }

    /// The name beside the pointer: that of the tile under it, unless names show anyway.
    pub open spec fn hover_label_of(self) -> Option<Seq<char>> {
        if self.lightbox.focus is Some || self.flags.show_titles || self.flags.scanning {
            None
        } else {
            match self.lightbox.hover {
                Some(i) => name_of(self.wall, i as int),
                None => None,
            }
        }
    }

    /// The name beside the pointer.
    pub fn hover_label(&self) -> (name: Option<String>)
        requires
            self.wf(),
        ensures
            text_view(name) == self.hover_label_of(),
    {
        if self.lightbox.focus.is_some() || self.flags.show_titles || self.flags.scanning {
            return None;
        }
        match self.lightbox.hover {
            Some(i) => self.tile_name(i),
            None => None,
        }
    }

    /// Every tile on the wall is labelled with its name.
    pub open spec fn names_tiles(self) -> bool {
        self.flags.show_titles && self.lightbox.focus is None && !self.flags.scanning
            && self.flags.open_menu is None
    }

    /// The names on the wall. `visible` are the tiles on the screen.
    pub fn wall_titles(&self, visible: &Vec<usize>) -> (titles: Vec<Title>)
        requires
            self.wf(),
        ensures
            titles_view(titles@) == if self.names_tiles() {
                titles_of(self.wall, visible@)
            } else {
                seq![]
            },
            titles.len() <= MAX_TITLES,
    {
        let mut titles: Vec<Title> = Vec::new();
        assert(titles_view(titles@) =~= seq![]);
        if !self.flags.show_titles || self.lightbox.focus.is_some() || self.flags.scanning
            || self.flags.open_menu.is_some() {
            return titles;
        }
        let mut k: usize = 0;
        assert(visible@.take(0) =~= seq![]);
        while k < visible.len()
            invariant
                self.wf(),
                k <= visible.len(),
                titles.len() <= MAX_TITLES,
                titles_view(titles@) == titles_of(self.wall, visible@.take(k as int)),
            decreases visible.len() - k,
        {
            let i: usize = visible[k];
            let ghost before = titles_view(titles@);
            proof {
                assert(visible@.take(k + 1).drop_last() =~= visible@.take(k as int));
                assert(visible@.take(k + 1).last() == i);
                assert(before.len() == titles.len());
            }
            let ready: bool = match self.wall.pool.get(i) {
                Some(Tile::Ready { .. }) => true,
                _ => false,
            };
            if ready && titles.len() < MAX_TITLES {
                match self.tile_name(i) {
                    Some(name) => {
                        let ghost row = (i, name@);
                        titles.push(Title { index: i, name });
                        assert(titles_view(titles@) =~= before.push(row));
                    },
                    None => {},
                }
            }
            k = k + 1;
        }
        assert(visible@.take(visible@.len() as int) =~= visible@);
        titles
    }

    /// The wall is wider than one column, so that it scrolls.
    pub fn scrolls(&self) -> (yes: bool)
        requires
            self.wf(),
        ensures
            yes == (self.wall.shown@.len() > 3),
    {
        self.wall.columns() > 1
    }

    /// Which arrows show at the edges of the screen: to the previous and to the next item, or to
    /// both sides of the wall.
    pub fn arrows(&self, player: &Option<Playing>, now: u64) -> (shown: (bool, bool))
        requires
            self.wf(),
        ensures
            shown == match self.lightbox.focus {
                Some(f) => {
                    let visible = !self.video_is_open() || self.shows_controls(*player, now);
                    (visible && f > 0, visible && f + 1 < self.wall.shown@.len())
                },
                None => (self.wall.shown@.len() > 3, self.wall.shown@.len() > 3),
            },
    {
        match self.lightbox.focus {
            Some(f) => {
                let visible: bool = self.lightbox_controls_visible(player, now);
                (visible && f > 0, visible && f + 1 < self.wall.shown.len())
            },
            None => {
                let yes: bool = self.scrolls();
                (yes, yes)
            },
        }
    }

    /// The ticks of the scroll bar, where there is one: one per column, but not too few and not
    /// too many.
    pub fn scrub_ticks(&self) -> (ticks: Option<usize>)
        requires
            self.wf(),
        ensures
            ticks == if self.lightbox.focus is None && self.wall.shown@.len() > 3 {
                let cols = cols_for(self.wall.shown@.len() as int);
                Some(
                    (if cols < 24 {
                        24
                    } else if cols > 96 {
                        96
                    } else {
                        cols
                    }) as usize,
                )
            } else {
                None
            },
    {
        if self.lightbox.focus.is_some() || !self.scrolls() {
            return None;
        }
        let cols: i64 = self.wall.columns();
        Some(
            if cols < 24 {
                24
            } else if cols > 96 {
                96
            } else {
                cols as usize
            },
        )
    }

    /// What the lightbox shows: the full picture once it is there, and until then the current
    /// frame of an animated tile. A video shows its own frames, and music nothing before it
    /// plays.
    pub open spec fn lightbox_shows(self, player: Option<Playing>) -> LbDraw {
        match self.lightbox.focus {
            Some(f) => if self.wall.is_kind(f as int, Kind::Video) || self.wall.is_kind(
                f as int,
                Kind::Audio,
            ) && self.is_starting(player) {
                LbDraw::Nothing
            } else if self.lightbox.full_for == Some(f) {
                LbDraw::Full
            } else if self.wall.gifs@.anims.contains_key(f) && self.wall.pool@.is_ready(f) {
                LbDraw::Cell {
                    layer: self.wall.pool@.layer_of(f),
                    frame: self.wall.gifs@.cursors[f],
                }
            } else {
                LbDraw::Nothing
            },
            None => LbDraw::Nothing,
        }
    }

    /// What the lightbox shows.
    pub fn prepare_lightbox(&self, player: &Option<Playing>) -> (draw: LbDraw)
        requires
            self.wf(),
        ensures
            draw == self.lightbox_shows(*player),
            draw matches LbDraw::Cell { frame, .. } ==> frame
                < self.wall.gifs@.anims[self.lightbox.focus->0].delays@.len(),
    {
        let f: usize = match self.lightbox.focus {
            Some(f) => f,
            None => {
                return LbDraw::Nothing;
            },
        };
        if self.wall.is_video(f) || self.wall.is_audio(f) && self.media_starting(player) {
            return LbDraw::Nothing;
        }
        if self.lightbox.full_for == Some(f) {
            return LbDraw::Full;
        }
        proof {
            assert(self.wall.gifs@.anims.dom().contains(f)
                == self.wall.gifs@.cursors.dom().contains(f));
        }
        match self.wall.gifs.cursors.get(&f) {
            Some(frame) => match self.wall.pool.get(f) {
                Some(Tile::Ready { layer, .. }) => LbDraw::Cell { layer, frame: *frame },
                _ => LbDraw::Nothing,
            },
            None => LbDraw::Nothing,
        }
    }

    /// What the memory log says of the state. `gif_frames` are the frames of the open animation.
    pub fn mem_stats(&self, secs: u64, mb: u64, gif_frames: usize, video: bool) -> (m: MemStats)
        requires
            self.wf(),
        ensures
            m.secs == secs,
            m.mb == mb,
            m.resident == self.wall.pool@.tiles.dom().len(),
            m.ready == self.wall.pool@.ready().len(),
            m.free == self.wall.pool@.free.len(),
            m.pool == 128,
            m.inflight == self.wall.pool@.inflight,
            m.full_for == self.lightbox.full_for,
            m.gif_frames == gif_frames,
            m.video == video,
            exists|keys: Seq<usize>| #[trigger]
                are_keys(self.wall.gifs@.anims, keys) && m.wall_gifs == keys.len()
                    && m.wall_frames == frames_of(self.wall.gifs@.anims, keys),
            m.total == self.wall.shown@.len(),
    {
        let keys = keys_of(&self.wall.gifs.anims);
        let ghost anims = self.wall.gifs@.anims;
        assert(are_keys(anims, keys@));
        let mut wall_frames: u128 = 0;
        let mut k: usize = 0;
        assert(keys@.take(0) =~= seq![]);
        while k < keys.len()
            invariant
                self.wf(),
                k <= keys.len(),
                anims == self.wall.gifs@.anims,
                are_keys(anims, keys@),
                wall_frames <= k * u64::MAX,
                wall_frames == frames_of(anims, keys@.take(k as int)),
            decreases keys.len() - k,
        {
            proof {
                assert(keys@.take(k + 1).drop_last() =~= keys@.take(k as int));
                assert(keys@.contains(keys@[k as int]));
            }
            match self.wall.gifs.anims.get(&keys[k]) {
                Some(g) => {
                    wall_frames = wall_frames + g.delays.len() as u128;
                },
                None => {
                    assert(false);
                },
            }
            k = k + 1;
        }
        assert(keys@.take(keys@.len() as int) =~= keys@);
        MemStats {
            secs,
            mb,
            resident: self.wall.pool.len(),
            ready: self.wall.ready_count(),
            free: self.wall.pool.free_count(),
            pool: 128,
            inflight: self.wall.pool.inflight(),
            full_for: self.lightbox.full_for,
            gif_frames,
            video,
            wall_gifs: keys.len(),
            wall_frames,
            total: self.wall.shown.len(),
        }
    }
}

} // verus!
