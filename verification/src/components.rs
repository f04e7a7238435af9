//! The user interface as decisions: what a click means, and which widgets a frame shows.
//!
//! Where a widget sits on the screen is measured elsewhere. A [`Pointer`] says which regions lie
//! under the cursor; [`hit_test`] turns that into a [`UiAction`].

use vstd::prelude::*;

verus! {

/// Library sort order.
#[derive(Clone, Copy, PartialEq, Eq, Structural, Debug)]
pub enum SortMode {
    Default,
    NameAsc,
    NameDesc,
    ModifiedNew,
    ModifiedOld,
    CreatedNew,
    CreatedOld,
}

/// Library type filter.
#[derive(Clone, Copy, PartialEq, Eq, Structural, Debug)]
pub enum Filter {
    All,
    Photos,
    Videos,
    Audio,
}

/// Which top-bar dropdown or dialog is open.
#[derive(Clone, Copy, PartialEq, Eq, Structural, Debug)]
pub enum MenuKind {
    Open,
    Sort,
    Filter,
    Dates,
    Settings,
}

/// Which track menu is open above the video controls.
#[derive(Clone, Copy, PartialEq, Eq, Structural, Debug)]
pub enum TrackMenu {
    Audio,
    Sub,
}

/// A floating-point number that the interface carries and never computes with: its bit pattern.
#[derive(Clone, Copy, PartialEq, Eq, Structural, Debug)]
pub struct Frac {
    pub bits: u32,
}

/// What a click on the interface means.
#[derive(Clone, Copy, PartialEq, Eq, Structural, Debug)]
pub enum UiAction {
    OpenFiles,
    OpenFolder,
    /// Load a manifest of media paths.
    OpenJson,
    /// Close the lightbox.
    Back,
    Fullscreen,
    ToggleSlideshow,
    ToggleInfo,
    ToggleMenu(MenuKind),
    CloseMenu,
    /// The click is consumed and nothing happens.
    Noop,
    SetSort(SortMode),
    SetFilter(Filter),
    ToggleGifAnim,
    ToggleReflections,
    ToggleMem,
    ToggleShowTitles,
    ActivateSearch,
    ClearSearch,
    /// Filter by the created date, or else by the modified date.
    SetDateBy(bool),
    /// Focus a date field: 1 is From, 2 is To.
    ActivateDate(u8),
    ClearDates,
    VideoPause,
    VideoSeekRel(i32),
    VideoSeekFrac(Frac),
    VideoVolume(Frac),
    ToggleTrackMenu(TrackMenu),
    /// Track id; zero and below is off.
    SetAudio(i64),
    SetSub(i64),
}

/// A part of the screen that reacts to the pointer.
#[derive(Clone, Copy, PartialEq, Eq, Structural, Debug)]
pub enum Region {
    /// The strip along the top edge.
    TopStrip,
    BarOpen,
    BarSlideshow,
    BarFullscreen,
    BarSettings,
    BarSort,
    BarFilter,
    BarDates,
    BarSearch,
    /// The clear mark at the right end of the search box.
    SearchClear,
    /// A row of the open dropdown.
    MenuRow(usize),
    SettingsClose,
    SettingsRow(usize),
    SettingsPanel,
    OpenClose,
    OpenFiles,
    OpenFolder,
    OpenJson,
    OpenDrop,
    OpenPanel,
    DatesModified,
    DatesCreated,
    DatesFrom,
    DatesTo,
    DatesClear,
    DatesDone,
    DatesPanel,
    LightboxBack,
    LightboxInfo,
    /// A row of the open track menu; row 0 is "Off".
    TrackRow(usize),
    TrackPanel,
    VideoBar,
    VideoPlay,
    VideoBack,
    VideoForward,
    VideoAudio,
    VideoSubs,
    VideoFullscreen,
    /// The seek track, over the whole height of the bar.
    VideoSeek,
    /// The volume slider, over the whole height of the bar.
    VideoVolume,
    /// Everything at or below the upper edge of the bar, along the seek track.
    VideoSeekHover,
    /// Everything at or below the upper edge of the controls bar.
    BelowVideoBar,
    /// The arrow at the left edge of the screen.
    ArrowPrev,
    /// The arrow at the right edge of the screen.
    ArrowNext,
    /// The band along the bottom edge that scrolls the wall.
    ScrubBand,
    /// The open picture.
    OpenPicture,
}

/// What lies under the pointer.
pub struct Pointer {
    pub under: Vec<Region>,
    /// How far along the seek track the pointer is.
    pub seek: Frac,
    /// The volume that the pointer's place on the slider stands for.
    pub volume: Frac,
    /// How many characters of the text field under the pointer lie before it.
    pub caret: usize,
}

/// An audio or subtitle track, as a menu lists it.
pub struct TrackItem {
    pub id: i64,
    pub label: String,
    pub selected: bool,
}

/// The playing item, as the controls bar shows it. Times are in whole seconds.
pub struct VideoCtx {
    pub pos: u64,
    pub dur: u64,
    pub paused: bool,
    pub aid: i64,
    pub sid: i64,
    pub visible: bool,
    /// The length of the item is known.
    pub timed: bool,
    /// The time that the pointer's place on the seek track stands for.
    pub hover_time: u64,
    pub track_menu: Option<TrackMenu>,
    pub audio_tracks: Vec<TrackItem>,
    pub sub_tracks: Vec<TrackItem>,
}

/// Title, path and position of the open item.
pub struct InfoCard {
    pub title: String,
    pub path: String,
    pub meta: String,
}

/// Everything the interface needs for one frame.
pub struct UiCtx {
    pub sort: SortMode,
    pub filter: Filter,
    pub menu: Option<MenuKind>,
    pub search: String,
    pub search_active: bool,
    pub slideshow: bool,
    pub gif_anim: bool,
    pub reflections: bool,
    pub date_created: bool,
    pub date_from: String,
    pub date_to: String,
    pub date_active: u8,
    pub caret: usize,
    pub show_titles: bool,
    pub show_mem: bool,
    pub mem_mb: Option<u64>,
    pub show_info: bool,
    pub total: usize,
    pub ready: usize,
    pub inflight: usize,
    pub focused: bool,
    pub info: Option<InfoCard>,
    pub video: Option<VideoCtx>,
    pub fullscreen: bool,
    pub caret_on: bool,
}

impl SortMode {
    /// The menu text of a sort order.
    pub open spec fn text(self) -> Seq<char> {
        match self {
            SortMode::Default => "Default (as loaded)"@,
            SortMode::NameAsc => "Name (A \u{2192} Z)"@,
            SortMode::NameDesc => "Name (Z \u{2192} A)"@,
            SortMode::ModifiedNew => "Modified (newest)"@,
            SortMode::ModifiedOld => "Modified (oldest)"@,
            SortMode::CreatedNew => "Created (newest)"@,
            SortMode::CreatedOld => "Created (oldest)"@,
        }
    }

    /// The sort orders, in menu order.
    pub open spec fn listed() -> Seq<SortMode> {
        seq![
            SortMode::Default,
            SortMode::NameAsc,
            SortMode::NameDesc,
            SortMode::ModifiedNew,
            SortMode::ModifiedOld,
            SortMode::CreatedNew,
            SortMode::CreatedOld,
        ]
    }

    /// The menu text of a sort order.
    pub fn label(self) -> (text: &'static str)
        ensures
            text@ == self.text(),
    {
        match self {
            SortMode::Default => "Default (as loaded)",
            SortMode::NameAsc => "Name (A \u{2192} Z)",
            SortMode::NameDesc => "Name (Z \u{2192} A)",
            SortMode::ModifiedNew => "Modified (newest)",
            SortMode::ModifiedOld => "Modified (oldest)",
            SortMode::CreatedNew => "Created (newest)",
            SortMode::CreatedOld => "Created (oldest)",
        }
    }

    /// The sort orders, in menu order.
    pub fn all() -> (modes: Vec<SortMode>)
        ensures
            modes@ == SortMode::listed(),
    {
        vec![
            SortMode::Default,
            SortMode::NameAsc,
            SortMode::NameDesc,
            SortMode::ModifiedNew,
            SortMode::ModifiedOld,
            SortMode::CreatedNew,
            SortMode::CreatedOld,
        ]
    }
}

impl Filter {
    /// The menu text of a filter.
    pub open spec fn text(self) -> Seq<char> {
        match self {
            Filter::All => "All"@,
            Filter::Photos => "Photos"@,
            Filter::Videos => "Videos"@,
            Filter::Audio => "Audio"@,
        }
    }

    /// The filters, in menu order.
    pub open spec fn listed() -> Seq<Filter> {
        seq![Filter::All, Filter::Photos, Filter::Videos, Filter::Audio]
    }

    /// The menu text of a filter.
    pub fn label(self) -> (text: &'static str)
        ensures
            text@ == self.text(),
    {
        match self {
            Filter::All => "All",
            Filter::Photos => "Photos",
            Filter::Videos => "Videos",
            Filter::Audio => "Audio",
        }
    }

    /// The filters, in menu order.
    pub fn all() -> (filters: Vec<Filter>)
        ensures
            filters@ == Filter::listed(),
    {
        vec![Filter::All, Filter::Photos, Filter::Videos, Filter::Audio]
    }
}

/// The first entry of a table whose region lies under the pointer.
pub open spec fn pick(table: Seq<(Region, UiAction)>, under: Seq<Region>) -> Option<UiAction>
    decreases table.len(),
{
    if table.len() == 0 {
        None
    } else if under.contains(table[0].0) {
        Some(table[0].1)
    } else {
        pick(table.drop_first(), under)
    }
}

/// The first entry of a table whose region lies under the pointer, or else `fallback`.
pub open spec fn pick_or(
    table: Seq<(Region, UiAction)>,
    under: Seq<Region>,
    fallback: UiAction,
) -> UiAction {
    match pick(table, under) {
        Some(action) => action,
        None => fallback,
    }
}

pub open spec fn settings_table() -> Seq<(Region, UiAction)> {
    seq![
        (Region::SettingsClose, UiAction::CloseMenu),
        (Region::SettingsRow(0), UiAction::ToggleShowTitles),
        (Region::SettingsRow(1), UiAction::ToggleGifAnim),
        (Region::SettingsRow(2), UiAction::ToggleReflections),
        (Region::SettingsRow(3), UiAction::ToggleMem),
        (Region::SettingsPanel, UiAction::Noop),
    ]
}

/// The drop zone chooses a folder, as its button does.
pub open spec fn open_table() -> Seq<(Region, UiAction)> {
    seq![
        (Region::OpenClose, UiAction::CloseMenu),
        (Region::OpenFiles, UiAction::OpenFiles),
        (Region::OpenFolder, UiAction::OpenFolder),
        (Region::OpenJson, UiAction::OpenJson),
        (Region::OpenDrop, UiAction::OpenFolder),
        (Region::OpenPanel, UiAction::Noop),
    ]
}

pub open spec fn dates_table() -> Seq<(Region, UiAction)> {
    seq![
        (Region::DatesModified, UiAction::SetDateBy(false)),
        (Region::DatesCreated, UiAction::SetDateBy(true)),
        (Region::DatesFrom, UiAction::ActivateDate(1)),
        (Region::DatesTo, UiAction::ActivateDate(2)),
        (Region::DatesClear, UiAction::ClearDates),
        (Region::DatesDone, UiAction::CloseMenu),
        (Region::DatesPanel, UiAction::Noop),
    ]
}

/// One row per sort order.
pub open spec fn sort_table() -> Seq<(Region, UiAction)> {
    Seq::new(
        SortMode::listed().len(),
        |i: int| (Region::MenuRow(i as usize), UiAction::SetSort(SortMode::listed()[i])),
    )
}

/// One row per filter.
pub open spec fn filter_table() -> Seq<(Region, UiAction)> {
    Seq::new(
        Filter::listed().len(),
        |i: int| (Region::MenuRow(i as usize), UiAction::SetFilter(Filter::listed()[i])),
    )
}

/// The button that an open dropdown hangs from.
pub open spec fn anchor(kind: MenuKind) -> Region {
    match kind {
        MenuKind::Open => Region::BarOpen,
        MenuKind::Sort => Region::BarSort,
        MenuKind::Filter => Region::BarFilter,
        MenuKind::Dates => Region::BarDates,
        MenuKind::Settings => Region::BarSettings,
    }
}

/// What the parts of a menu do.
pub open spec fn menu_table(kind: MenuKind) -> Seq<(Region, UiAction)> {
    match kind {
        MenuKind::Settings => settings_table(),
        MenuKind::Open => open_table(),
        MenuKind::Dates => dates_table(),
        MenuKind::Sort => sort_table(),
        MenuKind::Filter => filter_table(),
    }
}

/// What a click means while `kind` is open. A dialog takes every click; a dropdown lets only a
/// click on its own button through.
pub open spec fn menu_hit(kind: MenuKind, under: Seq<Region>) -> Option<UiAction> {
    let table = menu_table(kind);
    let dialog = kind is Settings || kind is Open;
    if pick(table, under) is None && !dialog && under.contains(anchor(kind)) {
        None
    } else {
        Some(pick_or(table, under, UiAction::CloseMenu))
    }
}

/// The controls of a playing item hide while it is idle.
pub open spec fn controls_hidden(c: UiCtx) -> bool {
    c.video matches Some(v) && !v.visible
}

pub open spec fn lightbox_table() -> Seq<(Region, UiAction)> {
    seq![
        (Region::LightboxBack, UiAction::Back),
        (Region::LightboxInfo, UiAction::ToggleInfo),
    ]
}

/// The action that selects track `id` from a menu.
pub open spec fn track_action(tm: TrackMenu, id: i64) -> UiAction {
    match tm {
        TrackMenu::Audio => UiAction::SetAudio(id),
        TrackMenu::Sub => UiAction::SetSub(id),
    }
}

/// The rows of a track menu: "Off", then one row per track, then the panel around them.
pub open spec fn track_table(tm: TrackMenu, tracks: Seq<TrackItem>) -> Seq<(Region, UiAction)> {
    seq![(Region::TrackRow(0), track_action(tm, -1i64))] + Seq::new(
        tracks.len(),
        |i: int| (Region::TrackRow((i + 1) as usize), track_action(tm, tracks[i].id)),
    ) + seq![(Region::TrackPanel, UiAction::Noop)]
}

pub open spec fn video_table(seek: Frac, volume: Frac) -> Seq<(Region, UiAction)> {
    seq![
        (Region::VideoPlay, UiAction::VideoPause),
        (Region::VideoBack, UiAction::VideoSeekRel(-10i32)),
        (Region::VideoForward, UiAction::VideoSeekRel(10)),
        (Region::VideoAudio, UiAction::ToggleTrackMenu(TrackMenu::Audio)),
        (Region::VideoSubs, UiAction::ToggleTrackMenu(TrackMenu::Sub)),
        (Region::VideoFullscreen, UiAction::Fullscreen),
        (Region::VideoSeek, UiAction::VideoSeekFrac(seek)),
        (Region::VideoVolume, UiAction::VideoVolume(volume)),
    ]
}

/// The tracks that a menu lists.
pub open spec fn tracks_of(v: VideoCtx, tm: TrackMenu) -> Seq<TrackItem> {
    match tm {
        TrackMenu::Audio => v.audio_tracks@,
        TrackMenu::Sub => v.sub_tracks@,
    }
}

/// What a click means to visible controls: an open track menu comes first, and a click away from
/// it and from the bar closes it. The bar takes every click on it.
pub open spec fn video_hit(v: VideoCtx, p: Pointer) -> Option<UiAction> {
    let in_menu = match v.track_menu {
        Some(tm) => match pick(track_table(tm, tracks_of(v, tm)), p.under@) {
            Some(action) => Some(action),
            None => if p.under@.contains(Region::VideoBar) {
                None
            } else {
                Some(UiAction::ToggleTrackMenu(tm))
            },
        },
        None => None,
    };
    match in_menu {
        Some(action) => Some(action),
        None => if p.under@.contains(Region::VideoBar) {
            Some(pick_or(video_table(p.seek, p.volume), p.under@, UiAction::CloseMenu))
        } else {
            None
        },
    }
}

pub open spec fn bar_left_table() -> Seq<(Region, UiAction)> {
    seq![
        (Region::BarOpen, UiAction::ToggleMenu(MenuKind::Open)),
        (Region::BarSort, UiAction::ToggleMenu(MenuKind::Sort)),
        (Region::BarFilter, UiAction::ToggleMenu(MenuKind::Filter)),
        (Region::BarDates, UiAction::ToggleMenu(MenuKind::Dates)),
    ]
}

pub open spec fn bar_right_table() -> Seq<(Region, UiAction)> {
    seq![
        (Region::BarSettings, UiAction::ToggleMenu(MenuKind::Settings)),
        (Region::BarSlideshow, UiAction::ToggleSlideshow),
        (Region::BarFullscreen, UiAction::Fullscreen),
    ]
}

/// What a click means to the top bar. In the search box, the clear mark counts only where there
/// is something to clear.
pub open spec fn bar_hit(search: Seq<char>, under: Seq<Region>) -> Option<UiAction> {
    match pick(bar_left_table(), under) {
        Some(action) => Some(action),
        None => if under.contains(Region::BarSearch) {
            Some(
                if search.len() > 0 && under.contains(Region::SearchClear) {
                    UiAction::ClearSearch
                } else {
                    UiAction::ActivateSearch
                },
            )
        } else {
            pick(bar_right_table(), under)
        },
    }
}

/// `a`, or else `b`.
pub open spec fn or_else(a: Option<UiAction>, b: Option<UiAction>) -> Option<UiAction> {
    if a is Some {
        a
    } else {
        b
    }
}

/// What a click means: the open menu decides first, then the lightbox, then the video controls,
/// then the top bar, which an open item hides.
pub open spec fn hit(c: UiCtx, p: Pointer) -> Option<UiAction> {
    let in_menu = match c.menu {
        Some(kind) => menu_hit(kind, p.under@),
        None => None,
    };
    let in_lightbox = if c.focused && !controls_hidden(c) {
        pick(lightbox_table(), p.under@)
    } else {
        None
    };
    let in_video = match c.video {
        Some(v) => if v.visible {
            video_hit(v, p)
        } else {
            None
        },
        None => None,
    };
    let in_bar = if c.focused {
        None
    } else {
        bar_hit(c.search@, p.under@)
    };
    or_else(in_menu, or_else(in_lightbox, or_else(in_video, in_bar)))
}

/// Whether a region lies under the pointer.
pub fn is_under(under: &Vec<Region>, region: Region) -> (yes: bool)
    ensures
        yes == under@.contains(region),
{
    let mut at: usize = 0;
    while at < under.len()
        invariant
            at <= under.len(),
            forall|k: int| 0 <= k < at ==> under@[k] != region,
        decreases under.len() - at,
    {
        if under[at] == region {
            return true;
        }
        at = at + 1;
    }
    false
}

/// The first entry of a table whose region lies under the pointer.
fn first_hit(table: &Vec<(Region, UiAction)>, under: &Vec<Region>) -> (action: Option<UiAction>)
    ensures
        action == pick(table@, under@),
{
    let mut at: usize = 0;
    assert(table@.skip(0) =~= table@);
    while at < table.len()
        invariant
            at <= table.len(),
            pick(table@, under@) == pick(table@.skip(at as int), under@),
        decreases table.len() - at,
    {
        let ghost rest = table@.skip(at as int);
        assert(rest[0] == table@[at as int]);
        assert(rest.drop_first() =~= table@.skip(at + 1));
        if is_under(under, table[at].0) {
            return Some(table[at].1);
        }
        at = at + 1;
    }
    None
}

fn hit_menu(kind: MenuKind, under: &Vec<Region>) -> (action: Option<UiAction>)
    ensures
        action == menu_hit(kind, under@),
{
    let mut dialog: bool = false;
    let mut button: Region = Region::BarDates;
    let mut table: Vec<(Region, UiAction)> = Vec::new();
    match kind {
        MenuKind::Settings => {
            dialog = true;
            table =
            vec![
                (Region::SettingsClose, UiAction::CloseMenu),
                (Region::SettingsRow(0), UiAction::ToggleShowTitles),
                (Region::SettingsRow(1), UiAction::ToggleGifAnim),
                (Region::SettingsRow(2), UiAction::ToggleReflections),
                (Region::SettingsRow(3), UiAction::ToggleMem),
                (Region::SettingsPanel, UiAction::Noop),
            ];
        },
        MenuKind::Open => {
            dialog = true;
            table =
            vec![
                (Region::OpenClose, UiAction::CloseMenu),
                (Region::OpenFiles, UiAction::OpenFiles),
                (Region::OpenFolder, UiAction::OpenFolder),
                (Region::OpenJson, UiAction::OpenJson),
                (Region::OpenDrop, UiAction::OpenFolder),
                (Region::OpenPanel, UiAction::Noop),
            ];
        },
        MenuKind::Dates => {
            table =
            vec![
                (Region::DatesModified, UiAction::SetDateBy(false)),
                (Region::DatesCreated, UiAction::SetDateBy(true)),
                (Region::DatesFrom, UiAction::ActivateDate(1)),
                (Region::DatesTo, UiAction::ActivateDate(2)),
                (Region::DatesClear, UiAction::ClearDates),
                (Region::DatesDone, UiAction::CloseMenu),
                (Region::DatesPanel, UiAction::Noop),
            ];
        },
        MenuKind::Sort => {
            button = Region::BarSort;
            let modes = SortMode::all();
            let mut i: usize = 0;
            while i < modes.len()
                invariant
                    i <= modes.len(),
                    modes@ == SortMode::listed(),
                    table@ == sort_table().take(i as int),
                decreases modes.len() - i,
            {
                table.push((Region::MenuRow(i), UiAction::SetSort(modes[i])));
                i = i + 1;
            }
            assert(table@ =~= sort_table());
        },
        MenuKind::Filter => {
            button = Region::BarFilter;
            let filters = Filter::all();
            let mut i: usize = 0;
            while i < filters.len()
                invariant
                    i <= filters.len(),
                    filters@ == Filter::listed(),
                    table@ == filter_table().take(i as int),
                decreases filters.len() - i,
            {
                table.push((Region::MenuRow(i), UiAction::SetFilter(filters[i])));
                i = i + 1;
            }
            assert(table@ =~= filter_table());
        },
    }
    match first_hit(&table, under) {
        Some(action) => Some(action),
        None => {
            if !dialog && is_under(under, button) {
                None
            } else {
                Some(UiAction::CloseMenu)
            }
        },
    }
}

fn hit_video(v: &VideoCtx, p: &Pointer) -> (action: Option<UiAction>)
    ensures
        action == video_hit(*v, *p),
{
    let on_bar: bool = is_under(&p.under, Region::VideoBar);
    match v.track_menu {
        Some(tm) => {
            let audio: bool = match tm {
                TrackMenu::Audio => true,
                TrackMenu::Sub => false,
            };
            let tracks: &Vec<TrackItem> = if audio {
                &v.audio_tracks
            } else {
                &v.sub_tracks
            };
            let mut table: Vec<(Region, UiAction)> = Vec::new();
            let off: UiAction = if audio {
                UiAction::SetAudio(-1)
            } else {
                UiAction::SetSub(-1)
            };
            table.push((Region::TrackRow(0), off));
            let ghost rows = Seq::new(
                tracks@.len(),
                |i: int| (Region::TrackRow((i + 1) as usize), track_action(tm, tracks@[i].id)),
            );
            let ghost head = seq![(Region::TrackRow(0), track_action(tm, -1i64))];
            let mut i: usize = 0;
            while i < tracks.len()
                invariant
                    i <= tracks.len(),
                    audio == (tm is Audio),
                    rows == Seq::new(
                        tracks@.len(),
                        |i: int|
                            (Region::TrackRow((i + 1) as usize), track_action(tm, tracks@[i].id)),
                    ),
                    table@ == head + rows.take(i as int),
                decreases tracks.len() - i,
            {
                let id: i64 = tracks[i].id;
                let chosen: UiAction = if audio {
                    UiAction::SetAudio(id)
                } else {
                    UiAction::SetSub(id)
                };
                i = i + 1;
                table.push((Region::TrackRow(i), chosen));
                assert(table@ =~= head + rows.take(i as int));
            }
            table.push((Region::TrackPanel, UiAction::Noop));
            assert(table@ =~= track_table(tm, tracks@));
            match first_hit(&table, &p.under) {
                Some(action) => {
                    return Some(action);
                },
                None => {
                    if !on_bar {
                        return Some(UiAction::ToggleTrackMenu(tm));
                    }
                },
            }
        },
        None => {},
    }
    if !on_bar {
        return None;
    }
    let table: Vec<(Region, UiAction)> = vec![
        (Region::VideoPlay, UiAction::VideoPause),
        (Region::VideoBack, UiAction::VideoSeekRel(-10i32)),
        (Region::VideoForward, UiAction::VideoSeekRel(10)),
        (Region::VideoAudio, UiAction::ToggleTrackMenu(TrackMenu::Audio)),
        (Region::VideoSubs, UiAction::ToggleTrackMenu(TrackMenu::Sub)),
        (Region::VideoFullscreen, UiAction::Fullscreen),
        (Region::VideoSeek, UiAction::VideoSeekFrac(p.seek)),
        (Region::VideoVolume, UiAction::VideoVolume(p.volume)),
    ];
    match first_hit(&table, &p.under) {
        Some(action) => Some(action),
        None => Some(UiAction::CloseMenu),
    }
}

fn hit_bar(search: &String, under: &Vec<Region>) -> (action: Option<UiAction>)
    ensures
        action == bar_hit(search@, under@),
{
    let left: Vec<(Region, UiAction)> = vec![
        (Region::BarOpen, UiAction::ToggleMenu(MenuKind::Open)),
        (Region::BarSort, UiAction::ToggleMenu(MenuKind::Sort)),
        (Region::BarFilter, UiAction::ToggleMenu(MenuKind::Filter)),
        (Region::BarDates, UiAction::ToggleMenu(MenuKind::Dates)),
    ];
    match first_hit(&left, under) {
        Some(action) => {
            return Some(action);
        },
        None => {},
    }
    if is_under(under, Region::BarSearch) {
        if search.as_str().unicode_len() > 0 && is_under(under, Region::SearchClear) {
            return Some(UiAction::ClearSearch);
        }
        return Some(UiAction::ActivateSearch);
    }
    let right: Vec<(Region, UiAction)> = vec![
        (Region::BarSettings, UiAction::ToggleMenu(MenuKind::Settings)),
        (Region::BarSlideshow, UiAction::ToggleSlideshow),
        (Region::BarFullscreen, UiAction::Fullscreen),
    ];
    first_hit(&right, under)
}

/// Maps a click to an action; `None` where it is not on the interface.
pub fn hit_test(c: &UiCtx, p: &Pointer) -> (action: Option<UiAction>)
    ensures
        action == hit(*c, *p),
{
    match c.menu {
        Some(kind) => {
            let taken = hit_menu(kind, &p.under);
            if taken.is_some() {
                return taken;
            }
        },
        None => {},
    }
    let hidden: bool = match &c.video {
        Some(v) => !v.visible,
        None => false,
    };
    if c.focused && !hidden {
        let table: Vec<(Region, UiAction)> = vec![
            (Region::LightboxBack, UiAction::Back),
            (Region::LightboxInfo, UiAction::ToggleInfo),
        ];
        let taken = first_hit(&table, &p.under);
        if taken.is_some() {
            return taken;
        }
    }
    match &c.video {
        Some(v) => {
            if v.visible {
                let taken = hit_video(v, p);
                if taken.is_some() {
                    return taken;
                }
            }
        },
        None => {},
    }
    if c.focused {
        None
    } else {
        hit_bar(&c.search, &p.under)
    }
}

/// The pointer is over the interface, so that the wall ignores it.
pub open spec fn over_ui(c: UiCtx, p: Pointer) -> bool {
    ||| p.under@.contains(Region::TopStrip)
    ||| c.menu is Some && hit(c, p) is Some
    ||| c.video matches Some(v) && v.visible && p.under@.contains(Region::BelowVideoBar)
}

/// Whether the pointer is over the interface.
pub fn pointer_over_ui(c: &UiCtx, p: &Pointer) -> (over: bool)
    ensures
        over == over_ui(*c, *p),
{
    if is_under(&p.under, Region::TopStrip) {
        return true;
    }
    if c.menu.is_some() && hit_test(c, p).is_some() {
        return true;
    }
    match &c.video {
        Some(v) => v.visible && is_under(&p.under, Region::BelowVideoBar),
        None => false,
    }
}

} // verus!
