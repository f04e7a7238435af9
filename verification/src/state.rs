//! The state of the wall, apart from pixels and geometry: settings, text fields, the open item.

use crate::action_laws::{
    actions_do_what_they_say, actions_leave_the_fields_in_order, fields_follow, menus_follow,
    requests_follow, settings_follow,
};
use crate::components::{Filter, Frac, MenuKind, SortMode, TrackMenu, UiAction};
use crate::dates::{date_fields_fit, day_of_text, parse_ymd_days, FileTimes};
use crate::edit::{clamped, insert_into, is_date_field, remove_at, spliced, taken};
use crate::library::{is_view, Query};
use crate::media::{sources_view, OpenKind, Source};
use crate::pool::empty_pool;
use crate::text::{read_unsigned, to_chars, trimmed, unsigned_text};
use crate::video::Command;
use crate::wall::{countable_tiles, no_gifs, Wall};
use std::path::PathBuf;
use vstd::prelude::*;

verus! {

/// Nanoseconds between two items of a slideshow.
pub const SLIDE_NS: u64 = 4_000_000_000;

/// Nanoseconds without pointer activity after which the video controls hide.
pub const IDLE_NS: u64 = 2_500_000_000;

/// Nanoseconds of one blink of the caret, and for how many of them it shows.
pub const BLINK_NS: u64 = 1_060_000_000;

pub const BLINK_ON_NS: u64 = 530_000_000;

/// Nanoseconds between two lines of the memory log.
pub const MEM_LOG_NS: u64 = 2_000_000_000;

/// What a held pointer does.
#[derive(Clone, Copy, PartialEq, Eq, Structural, Debug)]
pub enum DragMode {
    /// No button is held.
    Idle,
    Scroll,
    Pan,
    Scrub,
    /// Dragging along the seek track.
    VideoSeek,
    /// Dragging the volume slider.
    VideoVol,
}

/// Settings, menus and requests. Times are in nanoseconds since the program started.
#[derive(Clone, Copy, PartialEq, Eq, Structural, Debug)]
pub struct Flags {
    pub sort_mode: SortMode,
    pub filter_kind: Filter,
    pub open_menu: Option<MenuKind>,
    pub track_menu: Option<TrackMenu>,
    /// Filter by the created date, or else by the modified date.
    pub date_created: bool,
    pub show_info: bool,
    pub slideshow: bool,
    /// When the slideshow last moved on.
    pub slideshow_t: u64,
    pub gif_anim: bool,
    pub reflections: bool,
    pub show_titles: bool,
    pub show_mem: bool,
    /// When memory was last logged.
    pub mem_log: u64,
    pub scanning: bool,
    /// Files that the scan has found so far.
    pub scan_count: usize,
    pub open_request: Option<OpenKind>,
    pub fullscreen_requested: bool,
    /// The query changed, so that the displayed part of the library has to be found anew.
    pub view_dirty: bool,
    /// When the pointer or the keyboard was last used.
    pub last_activity: u64,
    pub drag_mode: DragMode,
    /// The held pointer has moved.
    pub drag_moved: bool,
    /// An arrow at the edge of the wall is held down.
    pub wall_scroll_held: bool,
    /// Which way the arrow keys, or a held arrow, scroll the wall: -1, 0 or 1.
    pub input_dir: i8,
    /// Where the knob of the seek track is dragged to.
    pub seek_preview: Option<Frac>,
}

/// The text fields: the query, and the bounds of the date filter.
pub struct Fields {
    pub search: String,
    pub search_active: bool,
    pub date_from: String,
    pub date_to: String,
    /// The date field that the keyboard edits: 0 is none, 1 is From, 2 is To.
    pub date_active: u8,
    pub caret: usize,
}

/// What the text fields hold.
#[verifier::ext_equal]
pub struct FieldsView {
    pub search: Seq<char>,
    pub search_active: bool,
    pub date_from: Seq<char>,
    pub date_to: Seq<char>,
    pub date_active: u8,
    pub caret: usize,
}

impl View for Fields {
    type V = FieldsView;

    open spec fn view(&self) -> FieldsView {
        FieldsView {
            search: self.search@,
            search_active: self.search_active,
            date_from: self.date_from@,
            date_to: self.date_to@,
            date_active: self.date_active,
            caret: self.caret,
        }
    }
}

impl FieldsView {
    /// The date fields hold nothing but digits and dashes.
    pub open spec fn wf(self) -> bool {
        is_date_field(self.date_from) && is_date_field(self.date_to)
    }

    /// A field takes what is typed.
    pub open spec fn active(self) -> bool {
        self.search_active || self.date_active != 0
    }

    /// The field that takes what is typed; the query comes first.
    pub open spec fn target(self) -> Option<Field> {
        if self.search_active {
            Some(Field::Search)
        } else if self.date_active == 1 {
            Some(Field::From)
        } else if self.date_active == 2 {
            Some(Field::To)
        } else {
            None
        }
    }

    pub open spec fn text(self, field: Field) -> Seq<char> {
        match field {
            Field::Search => self.search,
            Field::From => self.date_from,
            Field::To => self.date_to,
        }
    }

    pub open spec fn with_text(self, field: Field, text: Seq<char>) -> FieldsView {
        match field {
            Field::Search => FieldsView { search: text, ..self },
            Field::From => FieldsView { date_from: text, ..self },
            Field::To => FieldsView { date_to: text, ..self },
        }
    }

    /// The characters of the field that takes what is typed.
    pub open spec fn active_len(self) -> nat {
        match self.target() {
            Some(field) => self.text(field).len(),
            None => 0,
        }
    }
}

/// A text field.
#[derive(Clone, Copy, PartialEq, Eq, Structural, Debug)]
pub enum Field {
    Search,
    From,
    To,
}

/// The open item, and what is loaded for it.
#[derive(Clone, Copy, PartialEq, Eq, Structural, Debug)]
pub struct Lightbox {
    /// The open item.
    pub focus: Option<usize>,
    /// The tile under the pointer.
    pub hover: Option<usize>,
    /// The item whose full picture is loaded.
    pub full_for: Option<usize>,
    /// The item whose full picture is on its way.
    pub full_pending: Option<usize>,
    /// The item that the player was last matched with.
    pub video_for: Option<usize>,
    /// The item whose player starts with the next frame.
    pub video_pending: Option<usize>,
}

/// What is left to do after the state has changed.
#[derive(Clone, Copy, PartialEq, Eq, Structural, Debug)]
pub enum Effect {
    /// Show the open item whole and centred.
    ResetLightbox,
    /// Bring a column of the wall to the centre, and stop there.
    Recenter(usize),
    /// Find the displayed part of the library anew.
    Rebuild,
    /// Go to the start of the wall, and end what plays.
    ResetWall,
    /// Write a line to the memory log.
    LogMemory,
    /// Hand a command to the player.
    Player(Command),
    /// Seek the player to a fraction of its item.
    SeekFrac(Frac),
    /// Set the player's volume.
    Volume(Frac),
    /// Scroll the wall to where the pointer is on the scrub band.
    ScrubTo,
    /// Stop scrolling towards a target.
    DropScrollTarget,
    /// Stop the wall.
    StopWall,
    /// Move the open item, or the wall, with the pointer.
    PanLightbox,
    PanWall,
    /// Scroll the wall with the pointer.
    DragWall,
    /// Ask the user for media files.
    PickFiles,
    /// Ask the user for a folder.
    PickFolder,
    /// Ask the user for a manifest.
    PickJson,
    /// Enter or leave fullscreen.
    ToggleFullscreen,
    LeaveFullscreen,
    /// End the program.
    Quit,
}

impl Fields {
    /// Puts typed text into the field that takes it. Returns whether there is one.
    pub fn type_text(&mut self, ch: &str) -> (edited: bool)
        requires
            old(self)@.wf(),
            old(self)@.active_len() + ch@.len() <= usize::MAX,
        ensures
            final(self)@.wf(),
            edited == old(self)@.target() is Some,
            final(self)@ == typed_fields(old(self)@, ch@),
    {
        let ghost before = self@;
        if self.search_active {
            self.caret = insert_into(&mut self.search, self.caret, ch, false);
        } else if self.date_active == 1 {
            self.caret = insert_into(&mut self.date_from, self.caret, ch, true);
        } else if self.date_active == 2 {
            self.caret = insert_into(&mut self.date_to, self.caret, ch, true);
        } else {
            return false;
        }
        assert(self@ =~= typed_fields(before, ch@));
        true
    }
}

/// The fields after a text was typed: what the field takes of it stands at the caret, which moves
/// behind it.
pub open spec fn typed_fields(f: FieldsView, ch: Seq<char>) -> FieldsView {
    match f.target() {
        Some(field) => {
            let s = f.text(field);
            let at = clamped(f.caret as int, s.len() as int);
            let part = taken(ch, s.len(), field !is Search);
            FieldsView {
                caret: (at + part.len()) as usize,
                ..f.with_text(field, spliced(s, at, part))
            }
        },
        None => f,
    }
}

/// The fields after a character was removed, where there was one.
pub open spec fn removed_fields(f: FieldsView, at: int) -> FieldsView {
    match f.target() {
        Some(field) => if 0 <= at < f.text(field).len() {
            f.with_text(field, f.text(field).remove(at))
        } else {
            f
        },
        None => f,
    }
}

/// Whether the field that takes what is typed has a character at `at`.
pub open spec fn has_char(f: FieldsView, at: int) -> bool {
    0 <= at < f.active_len()
}

impl Fields {
    /// Empty fields, none of which takes what is typed.
    pub fn new() -> (fields: Fields)
        ensures
            fields@ == (FieldsView {
                search: seq![],
                search_active: false,
                date_from: seq![],
                date_to: seq![],
                date_active: 0,
                caret: 0,
            }),
            fields@.wf(),
    {
        let fields = Fields {
            search: String::new(),
            search_active: false,
            date_from: String::new(),
            date_to: String::new(),
            date_active: 0,
            caret: 0,
        };
        proof {
            assert(fields@.search =~= seq![]);
            assert(fields@.date_from =~= seq![]);
            assert(fields@.date_to =~= seq![]);
        }
        fields
    }

    /// Removes a character from the field that takes what is typed. Returns whether there was
    /// one.
    pub fn remove_char(&mut self, at: usize) -> (removed: bool)
        requires
            old(self)@.wf(),
        ensures
            final(self)@.wf(),
            removed == has_char(old(self)@, at as int),
            final(self)@ == removed_fields(old(self)@, at as int),
    {
        let ghost before = self@;
        let removed: bool = if self.search_active {
            remove_at(&mut self.search, at)
        } else if self.date_active == 1 {
            remove_at(&mut self.date_from, at)
        } else if self.date_active == 2 {
            remove_at(&mut self.date_to, at)
        } else {
            false
        };
        assert(self@ =~= removed_fields(before, at as int));
        removed
    }

    /// Characters of the field that takes what is typed.
    pub fn active_len(&self) -> (len: usize)
        ensures
            len == self@.active_len(),
    {
        if self.search_active {
            self.search.as_str().unicode_len()
        } else if self.date_active == 1 {
            self.date_from.as_str().unicode_len()
        } else if self.date_active == 2 {
            self.date_to.as_str().unicode_len()
        } else {
            0
        }
    }
}

/// The state of the wall, apart from pixels and geometry.
pub struct State {
    pub flags: Flags,
    pub fields: Fields,
    pub lightbox: Lightbox,
    pub wall: Wall,
}

/// The settings at the start.
pub open spec fn initial_flags(now: u64) -> Flags {
    Flags {
        sort_mode: SortMode::Default,
        filter_kind: Filter::All,
        open_menu: None,
        track_menu: None,
        date_created: false,
        show_info: false,
        slideshow: false,
        slideshow_t: now,
        gif_anim: true,
        reflections: true,
        show_titles: false,
        show_mem: false,
        mem_log: now,
        scanning: false,
        scan_count: 0,
        open_request: None,
        fullscreen_requested: false,
        view_dirty: false,
        last_activity: now,
        drag_mode: DragMode::Idle,
        drag_moved: false,
        wall_scroll_held: false,
        input_dir: 0,
        seek_preview: None,
    }
}

/// Nothing is open.
pub open spec fn closed_lightbox() -> Lightbox {
    Lightbox {
        focus: None,
        hover: None,
        full_for: None,
        full_pending: None,
        video_for: None,
        video_pending: None,
    }
}

/// The item that a text asks to open at the start: its position, where there is such an item.
pub open spec fn asked_focus(text: Option<Seq<char>>, total: nat) -> Option<usize> {
    match text {
        Some(s) => match unsigned_text(s, u64::MAX as nat) {
            Some(n) => if n < total {
                Some(n as usize)
            } else {
                None
            },
            None => None,
        },
        None => None,
    }
}

impl State {
    /// The open item is displayed, a player only ever starts for the item that it was last matched
    /// with, and the parts of the state are in order.
    pub open spec fn wf(self) -> bool {
        &&& self.wall.wf()
        &&& self.fields@.wf()
        &&& self.lightbox.focus matches Some(f) ==> f < self.wall.shown@.len()
        &&& self.lightbox.video_pending is Some ==> self.lightbox.video_pending
            == self.lightbox.video_for
    }

    /// The state of a freshly loaded library. `ask` is the text of a request to open an item.
    pub fn new(
        sources: Vec<Source>,
        folder: Option<PathBuf>,
        ask: Option<&str>,
        now: u64,
    ) -> (state: State)
        requires
            countable_tiles(sources@.len()),
        ensures
            state.wf(),
            state.flags == initial_flags(now),
            state.fields@.search.len() == 0,
            state.fields@.date_from.len() == 0,
            state.fields@.date_to.len() == 0,
            !state.fields@.active(),
            state.fields@.caret == 0,
            state.lightbox == (Lightbox {
                focus: asked_focus(
                    match ask {
                        Some(s) => Some(s@),
                        None => None,
                    },
                    sources@.len(),
                ),
                ..closed_lightbox()
            }),
            state.wall.all == sources,
            state.wall.folder == folder,
            state.wall.shown@ == Seq::new(sources@.len(), |k: int| k as usize),
            state.wall.generation == 0,
            state.wall.pool@ == empty_pool(),
            state.wall.gifs@ == no_gifs(now),
            state.wall.prev_inflight == 0,
    {
        let total: usize = sources.len();
        let focus: Option<usize> = match ask {
            Some(s) => {
                let chars = to_chars(s);
                assert(chars@.subrange(0, chars@.len() as int) =~= chars@);
                match read_unsigned(&chars, 0, chars.len()) {
                    Some(n) => {
                        if n < total as u64 {
                            Some(n as usize)
                        } else {
                            None
                        }
                    },
                    None => None,
                }
            },
            None => None,
        };
        State {
            flags: Flags {
                sort_mode: SortMode::Default,
                filter_kind: Filter::All,
                open_menu: None,
                track_menu: None,
                date_created: false,
                show_info: false,
                slideshow: false,
                slideshow_t: now,
                gif_anim: true,
                reflections: true,
                show_titles: false,
                show_mem: false,
                mem_log: now,
                scanning: false,
                scan_count: 0,
                open_request: None,
                fullscreen_requested: false,
                view_dirty: false,
                last_activity: now,
                drag_mode: DragMode::Idle,
                drag_moved: false,
                wall_scroll_held: false,
                input_dir: 0,
                seek_preview: None,
            },
            fields: Fields::new(),
            lightbox: Lightbox {
                focus,
                hover: None,
                full_for: None,
                full_pending: None,
                video_for: None,
                video_pending: None,
            },
            wall: Wall::new(sources, folder, now),
        }
    }

    /// The bound of the date filter that a field stands for.
    pub open spec fn bound(text: Seq<char>, day: Option<i64>) -> bool {
        match day {
            Some(d) => day_of_text(trimmed(text)) == Some(d as int),
            None => day_of_text(trimmed(text)) is None,
        }
    }

    /// `q` is what the settings and the fields ask for.
    pub open spec fn is_query(self, q: Query) -> bool {
        &&& q.kind == self.flags.filter_kind
        &&& q.search@ == self.fields@.search
        &&& State::bound(self.fields@.date_from, q.from)
        &&& State::bound(self.fields@.date_to, q.to)
        &&& q.created == self.flags.date_created
        &&& q.sort == self.flags.sort_mode
    }

    /// What the settings and the fields ask for. A bound counts once it is a whole date.
    pub fn query(&self) -> (q: Query)
        requires
            self.wf(),
        ensures
            self.is_query(q),
    {
        proof {
            date_fields_fit(self.fields@.date_from);
            date_fields_fit(self.fields@.date_to);
        }
        Query {
            kind: self.flags.filter_kind,
            search: self.fields.search.clone(),
            from: parse_ymd_days(self.fields.date_from.as_str()),
            to: parse_ymd_days(self.fields.date_to.as_str()),
            created: self.flags.date_created,
            sort: self.flags.sort_mode,
        }
    }

    /// Finds the displayed part of the library anew, closes the open item and starts loading
    /// anew. `times` says of each item of the library when it was made.
    pub fn rebuild_view(&mut self, times: &Vec<FileTimes>)
        requires
            old(self).wf(),
            times@.len() == old(self).wall.all@.len(),
            old(self).wall.generation < u64::MAX,
        ensures
            final(self).wf(),
            final(self).flags == old(self).flags,
            final(self).fields == old(self).fields,
            final(self).lightbox == (Lightbox {
                focus: None,
                video_for: None,
                video_pending: None,
                ..old(self).lightbox
            }),
            exists|q: Query|
                #![trigger old(self).is_query(q)]
                old(self).is_query(q) && is_view(
                    sources_view(old(self).wall.all@),
                    times@,
                    q,
                    final(self).wall.shown@,
                ),
            final(self).wall.all == old(self).wall.all,
            final(self).wall.folder == old(self).wall.folder,
            final(self).wall.generation == old(self).wall.generation + 1,
            final(self).wall.pool@ == empty_pool(),
            final(self).wall.gifs@ == no_gifs(old(self).wall.gifs@.tick),
            final(self).wall.prev_inflight == old(self).wall.prev_inflight,
    {
        let q = self.query();
        self.wall.show(times, &q);
        self.lightbox.focus = None;
        self.lightbox.video_for = None;
        self.lightbox.video_pending = None;
        assert(old(self).is_query(q));
    }

    /// Takes over a scanned library, which is displayed as the settings and the fields ask.
    pub fn reload_with(
        &mut self,
        folder: Option<PathBuf>,
        sources: Vec<Source>,
        times: &Vec<FileTimes>,
    )
        requires
            old(self).wf(),
            countable_tiles(sources@.len()),
            times@.len() == sources@.len(),
            old(self).wall.generation < u64::MAX,
        ensures
            final(self).wf(),
            final(self).flags == (Flags { scanning: false, ..old(self).flags }),
            final(self).fields == old(self).fields,
            final(self).lightbox == (Lightbox {
                focus: None,
                video_for: None,
                video_pending: None,
                ..old(self).lightbox
            }),
            exists|q: Query|
                #![trigger old(self).is_query(q)]
                old(self).is_query(q) && is_view(
                    sources_view(sources@),
                    times@,
                    q,
                    final(self).wall.shown@,
                ),
            final(self).wall.all == sources,
            final(self).wall.folder == folder,
            final(self).wall.generation == old(self).wall.generation + 1,
            final(self).wall.pool@ == empty_pool(),
            final(self).wall.gifs@ == no_gifs(old(self).wall.gifs@.tick),
            final(self).wall.prev_inflight == old(self).wall.prev_inflight,
    {
        let q = self.query();
        let ghost before = *self;
        let generation: u64 = self.wall.generation;
        let prev_inflight: usize = self.wall.prev_inflight;
        let mut wall = Wall::new(sources, folder, self.wall.gifs.tick);
        wall.generation = generation;
        wall.prev_inflight = prev_inflight;
        wall.show(times, &q);
        self.wall = wall;
        self.flags.scanning = false;
        self.lightbox.focus = None;
        self.lightbox.video_for = None;
        self.lightbox.video_pending = None;
        assert(before.is_query(q));
    }
}

/// The flags after an action.
pub open spec fn acted_flags(g: Flags, a: UiAction, now: u64) -> Flags {
    match a {
        UiAction::OpenFiles => Flags {
            open_menu: None,
            open_request: Some(OpenKind::Files),
            ..g
        },
        UiAction::OpenFolder => Flags {
            open_menu: None,
            open_request: Some(OpenKind::Folder),
            ..g
        },
        UiAction::OpenJson => Flags {
            open_menu: None,
            open_request: Some(OpenKind::Json),
            ..g
        },
        UiAction::Back | UiAction::Noop => g,
        UiAction::Fullscreen => Flags { fullscreen_requested: true, ..g },
        UiAction::ToggleSlideshow => Flags {
            slideshow: !g.slideshow,
            slideshow_t: now,
            open_menu: None,
            ..g
        },
        UiAction::ToggleInfo => Flags { show_info: !g.show_info, ..g },
        UiAction::ToggleMenu(m) => Flags {
            open_menu: if g.open_menu == Some(m) {
                None
            } else {
                Some(m)
            },
            ..g
        },
        UiAction::CloseMenu => Flags { open_menu: None, ..g },
        UiAction::SetSort(m) => Flags { open_menu: None, sort_mode: m, ..g },
        UiAction::SetFilter(f) => Flags {
            open_menu: None,
            filter_kind: f,
            view_dirty: g.view_dirty || g.filter_kind != f,
            ..g
        },
        UiAction::ToggleGifAnim => Flags { gif_anim: !g.gif_anim, ..g },
        UiAction::ToggleReflections => Flags { reflections: !g.reflections, ..g },
        UiAction::ToggleShowTitles => Flags { show_titles: !g.show_titles, ..g },
        UiAction::ToggleMem => Flags { show_mem: !g.show_mem, ..g },
        UiAction::ActivateSearch => Flags { open_menu: None, ..g },
        UiAction::ClearSearch | UiAction::ClearDates => Flags { view_dirty: true, ..g },
        UiAction::SetDateBy(created) => Flags { date_created: created, view_dirty: true, ..g },
        UiAction::ActivateDate(_) => g,
        UiAction::VideoPause | UiAction::VideoSeekRel(_) | UiAction::VideoSeekFrac(_)
        | UiAction::VideoVolume(_) => g,
        UiAction::ToggleTrackMenu(m) => Flags {
            track_menu: if g.track_menu == Some(m) {
                None
            } else {
                Some(m)
            },
            ..g
        },
        UiAction::SetAudio(_) | UiAction::SetSub(_) => Flags { track_menu: None, ..g },
    }
}

/// The fields after an action. `caret` is where the pointer is in the field under it.
pub open spec fn acted_fields(f: FieldsView, a: UiAction, caret: usize) -> FieldsView {
    match a {
        UiAction::ToggleMenu(_) => FieldsView { search_active: false, date_active: 0, ..f },
        UiAction::CloseMenu => FieldsView { date_active: 0, ..f },
        UiAction::ActivateSearch => FieldsView {
            search_active: true,
            date_active: 0,
            caret: clamped(caret as int, f.search.len() as int) as usize,
            ..f
        },
        UiAction::ClearSearch => FieldsView { search: seq![], ..f },
        UiAction::ActivateDate(which) => FieldsView {
            search_active: false,
            date_active: which,
            caret: clamped(
                caret as int,
                (if which == 1 {
                    f.date_from
                } else {
                    f.date_to
                }).len() as int,
            ) as usize,
            ..f
        },
        UiAction::ClearDates => FieldsView {
            date_from: seq![],
            date_to: seq![],
            date_active: 0,
            ..f
        },
        _ => f,
    }
}

/// A slideshow that starts without an open item opens the first one.
pub open spec fn show_opens(s: State, a: UiAction) -> bool {
    a is ToggleSlideshow && !s.flags.slideshow && s.lightbox.focus is None
        && s.wall.shown@.len() > 0
}

/// The open item after an action.
pub open spec fn acted_focus(s: State, a: UiAction) -> Option<usize> {
    if a is Back {
        None
    } else if show_opens(s, a) {
        Some(0)
    } else {
        s.lightbox.focus
    }
}

/// What is left to do after an action.
pub open spec fn acted_effects(s: State, a: UiAction) -> Seq<Effect> {
    match a {
        UiAction::Back => back_effects(s.lightbox.focus),
        UiAction::ToggleSlideshow => if show_opens(s, a) {
            seq![Effect::ResetLightbox]
        } else {
            seq![]
        },
        UiAction::SetSort(m) => if s.flags.sort_mode != m {
            seq![Effect::Rebuild]
        } else {
            seq![]
        },
        UiAction::ToggleMem => if !s.flags.show_mem {
            seq![Effect::LogMemory]
        } else {
            seq![]
        },
        UiAction::VideoPause => seq![Effect::Player(Command::CyclePause)],
        UiAction::VideoSeekRel(secs) => seq![Effect::Player(Command::Seek(secs))],
        UiAction::VideoSeekFrac(f) => seq![Effect::SeekFrac(f)],
        UiAction::VideoVolume(v) => seq![Effect::Volume(v)],
        UiAction::SetAudio(id) => seq![Effect::Player(Command::SetAudio(id))],
        UiAction::SetSub(id) => seq![Effect::Player(Command::SetSubs(id))],
        _ => seq![],
    }
}

/// Closing an item leaves the wall on its column.
pub open spec fn back_effects(focus: Option<usize>) -> Seq<Effect> {
    match focus {
        Some(f) => seq![Effect::Recenter((f / 3) as usize)],
        None => seq![],
    }
}

impl Flags {
    pub(crate) fn act(self, a: UiAction, now: u64) -> (g: Flags)
        ensures
            g == acted_flags(self, a, now),
    {
        match a {
            UiAction::OpenFiles => Flags {
                open_menu: None,
                open_request: Some(OpenKind::Files),
                ..self
            },
            UiAction::OpenFolder => Flags {
                open_menu: None,
                open_request: Some(OpenKind::Folder),
                ..self
            },
            UiAction::OpenJson => Flags {
                open_menu: None,
                open_request: Some(OpenKind::Json),
                ..self
            },
            UiAction::Fullscreen => Flags { fullscreen_requested: true, ..self },
            UiAction::ToggleSlideshow => Flags {
                slideshow: !self.slideshow,
                slideshow_t: now,
                open_menu: None,
                ..self
            },
            UiAction::ToggleInfo => Flags { show_info: !self.show_info, ..self },
            UiAction::ToggleMenu(m) => {
                let same: bool = self.open_menu == Some(m);
                Flags {
                    open_menu: if same {
                        None
                    } else {
                        Some(m)
                    },
                    ..self
                }
            },
            UiAction::CloseMenu => Flags { open_menu: None, ..self },
            UiAction::ActivateSearch => Flags { open_menu: None, ..self },
            UiAction::SetSort(m) => Flags { open_menu: None, sort_mode: m, ..self },
            UiAction::SetFilter(f) => {
                let dirty: bool = self.view_dirty || self.filter_kind != f;
                Flags { open_menu: None, filter_kind: f, view_dirty: dirty, ..self }
            },
            UiAction::ToggleGifAnim => Flags { gif_anim: !self.gif_anim, ..self },
            UiAction::ToggleReflections => Flags { reflections: !self.reflections, ..self },
            UiAction::ToggleShowTitles => Flags { show_titles: !self.show_titles, ..self },
            UiAction::ToggleMem => Flags { show_mem: !self.show_mem, ..self },
            UiAction::ClearSearch => Flags { view_dirty: true, ..self },
            UiAction::ClearDates => Flags { view_dirty: true, ..self },
            UiAction::SetDateBy(created) => Flags {
                date_created: created,
                view_dirty: true,
                ..self
            },
            UiAction::ToggleTrackMenu(m) => {
                let same: bool = self.track_menu == Some(m);
                Flags {
                    track_menu: if same {
                        None
                    } else {
                        Some(m)
                    },
                    ..self
                }
            },
            UiAction::SetAudio(_) => Flags { track_menu: None, ..self },
            UiAction::SetSub(_) => Flags { track_menu: None, ..self },
            _ => self,
        }
    }
}

impl Fields {
    pub(crate) fn act(&mut self, a: UiAction, caret: usize)
        requires
            old(self)@.wf(),
        ensures
            final(self)@ == acted_fields(old(self)@, a, caret),
            final(self)@.wf(),
    {
        let ghost before = self@;
        match a {
            UiAction::ToggleMenu(_) => {
                self.search_active = false;
                self.date_active = 0;
            },
            UiAction::CloseMenu => {
                self.date_active = 0;
            },
            UiAction::ActivateSearch => {
                self.search_active = true;
                self.date_active = 0;
                let len: usize = self.search.as_str().unicode_len();
                self.caret = if caret < len {
                    caret
                } else {
                    len
                };
            },
            UiAction::ClearSearch => {
                self.search = String::new();
            },
            UiAction::ActivateDate(which) => {
                self.date_active = which;
                self.search_active = false;
                let len: usize = if which == 1 {
                    self.date_from.as_str().unicode_len()
                } else {
                    self.date_to.as_str().unicode_len()
                };
                self.caret = if caret < len {
                    caret
                } else {
                    len
                };
            },
            UiAction::ClearDates => {
                self.date_from = String::new();
                self.date_to = String::new();
                self.date_active = 0;
            },
            _ => {},
        }
        assert(self@ =~= acted_fields(before, a, caret));
    }
}

impl State {
    pub(crate) fn act_focus(&self, a: UiAction) -> (focus: Option<usize>)
        requires
            self.wf(),
        ensures
            focus == acted_focus(*self, a),
            focus matches Some(f) ==> f < self.wall.shown@.len(),
    {
        match a {
            UiAction::Back => None,
            UiAction::ToggleSlideshow => if !self.flags.slideshow && self.lightbox.focus.is_none()
                && self.wall.shown.len() > 0 {
                Some(0)
            } else {
                self.lightbox.focus
            },
            _ => self.lightbox.focus,
        }
    }

    pub(crate) fn act_effects(&self, a: UiAction) -> (effects: Vec<Effect>)
        ensures
            effects@ == acted_effects(*self, a),
    {
        let mut effects: Vec<Effect> = Vec::new();
        match a {
            UiAction::Back => match self.lightbox.focus {
                Some(f) => effects.push(Effect::Recenter(f / 3)),
                None => {},
            },
            UiAction::ToggleSlideshow => {
                if !self.flags.slideshow && self.lightbox.focus.is_none() && self.wall.shown.len()
                    > 0 {
                    effects.push(Effect::ResetLightbox);
                }
            },
            UiAction::SetSort(m) => {
                if self.flags.sort_mode != m {
                    effects.push(Effect::Rebuild);
                }
            },
            UiAction::ToggleMem => {
                if !self.flags.show_mem {
                    effects.push(Effect::LogMemory);
                }
            },
            UiAction::VideoPause => effects.push(Effect::Player(Command::CyclePause)),
            UiAction::VideoSeekRel(secs) => effects.push(Effect::Player(Command::Seek(secs))),
            UiAction::VideoSeekFrac(f) => effects.push(Effect::SeekFrac(f)),
            UiAction::VideoVolume(v) => effects.push(Effect::Volume(v)),
            UiAction::SetAudio(id) => effects.push(Effect::Player(Command::SetAudio(id))),
            UiAction::SetSub(id) => effects.push(Effect::Player(Command::SetSubs(id))),
            _ => {},
        }
        assert(effects@ =~= acted_effects(*self, a));
        effects
    }

    /// Applies what a click on the interface means. `caret` is where the pointer is in the text
    /// field under it. Returns what is left to do.
    pub fn apply_ui_action(
        &mut self,
        a: UiAction,
        caret: usize,
        now: u64,
    ) -> (effects: Vec<Effect>)
        requires
            old(self).wf(),
        ensures
            final(self).wf(),
            final(self).flags == acted_flags(old(self).flags, a, now),
            final(self).fields@ == acted_fields(old(self).fields@, a, caret),
            final(self).lightbox == (Lightbox {
                focus: acted_focus(*old(self), a),
                ..old(self).lightbox
            }),
            final(self).wall == old(self).wall,
            effects@ == acted_effects(*old(self), a),
            settings_follow(old(self).flags, final(self).flags, a),
            menus_follow(old(self).flags, final(self).flags, a),
            requests_follow(old(self).flags, final(self).flags, a, now),
            fields_follow(old(self).fields@, final(self).fields@, a, caret),
    {
        proof {
            actions_do_what_they_say(self.flags, a, now);
            actions_leave_the_fields_in_order(self.fields@, a, caret);
        }
        let effects: Vec<Effect> = self.act_effects(a);
        let focus: Option<usize> = self.act_focus(a);
        self.flags = self.flags.act(a, now);
        self.fields.act(a, caret);
        self.lightbox = Lightbox { focus, ..self.lightbox };
        effects
    }
}

} // verus!
