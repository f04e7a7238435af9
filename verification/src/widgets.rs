//! Which widgets a frame shows, in paint order, and what they say.
//!
//! A widget is a [`Part`] of the interface with its text. Where it goes, and in which colours it
//! is painted, follows from the part.

use crate::components::{
    controls_hidden, is_under, Filter, MenuKind, Region, SortMode, TrackItem, TrackMenu, UiCtx,
    VideoCtx,
};
use crate::edit::{caret_str, with_caret};
use crate::text::{decimal, digit, push_decimal, shorten, shortened};
use vstd::prelude::*;

verus! {

/// An icon of the set that comes with the interface.
#[derive(Clone, Copy, PartialEq, Eq, Structural, Debug)]
pub enum Icon {
    Play,
    Pause,
    Back10,
    Fwd10,
    Volume,
    Mute,
    Fullscreen,
    FullscreenExit,
    Prev,
    Next,
    Info,
    Back,
    Cc,
    Audio,
}

/// A part of the interface.
#[derive(Clone, Copy, PartialEq, Eq, Structural, Debug)]
pub enum Part {
    Wordmark,
    WordmarkTail,
    /// A button of the top bar.
    Button { region: Region, on: bool, hovered: bool },
    Divider,
    SearchBox { active: bool },
    SearchHint,
    SearchText,
    SearchClear,
    Count,
    LoadingDot,
    Memory,
    SettingsScrim,
    SettingsPanel,
    SettingsTitle,
    SettingsClose,
    SettingsSwitch { row: usize, on: bool, hovered: bool },
    SettingsDetail { row: usize },
    DatesPanel,
    DatesHeading,
    DatesTabs { created: bool },
    DatesTab { created: bool, on: bool },
    DatesLabel { which: u8 },
    DatesField { which: u8, active: bool },
    DatesHint { which: u8 },
    DatesText { which: u8 },
    DatesClear,
    DatesDone,
    DatesFooter,
    OpenScrim,
    OpenPanel,
    OpenTitle,
    OpenClose { hovered: bool },
    OpenDrop { hovered: bool },
    OpenLine { line: usize },
    OpenButton { region: Region, hovered: bool },
    /// The panel of a dropdown, with its number of rows.
    MenuPanel { kind: MenuKind, rows: usize },
    MenuRow { row: usize, current: bool, hovered: bool },
    /// The panel of the info card, above the video controls or at the bottom edge.
    InfoPanel { three: bool, above_video: bool },
    InfoLine { line: usize, above_video: bool },
    VideoBar,
    VideoIcon { region: Region, icon: Icon, lit: bool, hovered: bool },
    VolumeSlider,
    VideoTime,
    SeekSlider,
    SeekTip,
    TrackPanel { menu: TrackMenu, rows: usize },
    TrackRow { row: usize, selected: bool, hovered: bool },
    LightboxBack { hovered: bool },
    LightboxInfo { on: bool, hovered: bool },
}

/// A part of the interface, with its text.
pub struct Widget {
    pub part: Part,
    pub text: String,
}

impl Icon {
    /// The name of an icon's drawing.
    pub open spec fn text(self) -> Seq<char> {
        match self {
            Icon::Play => "play"@,
            Icon::Pause => "pause"@,
            Icon::Back10 => "back10"@,
            Icon::Fwd10 => "fwd10"@,
            Icon::Volume => "volume"@,
            Icon::Mute => "mute"@,
            Icon::Fullscreen => "fullscreen"@,
            Icon::FullscreenExit => "fullscreen-exit"@,
            Icon::Prev => "prev"@,
            Icon::Next => "next"@,
            Icon::Info => "info"@,
            Icon::Back => "back"@,
            Icon::Cc => "cc"@,
            Icon::Audio => "audio"@,
        }
    }

    /// The name of an icon's drawing.
    pub fn name(self) -> (text: &'static str)
        ensures
            text@ == self.text(),
    {
        match self {
            Icon::Play => "play",
            Icon::Pause => "pause",
            Icon::Back10 => "back10",
            Icon::Fwd10 => "fwd10",
            Icon::Volume => "volume",
            Icon::Mute => "mute",
            Icon::Fullscreen => "fullscreen",
            Icon::FullscreenExit => "fullscreen-exit",
            Icon::Prev => "prev",
            Icon::Next => "next",
            Icon::Info => "info",
            Icon::Back => "back",
            Icon::Cc => "cc",
            Icon::Audio => "audio",
        }
    }

    /// The icons, in the order in which they are drawn into their atlas.
    pub open spec fn listed() -> Seq<Icon> {
        seq![
            Icon::Play,
            Icon::Pause,
            Icon::Back10,
            Icon::Fwd10,
            Icon::Volume,
            Icon::Mute,
            Icon::Fullscreen,
            Icon::FullscreenExit,
            Icon::Prev,
            Icon::Next,
            Icon::Info,
            Icon::Back,
            Icon::Cc,
            Icon::Audio,
        ]
    }

    /// The icons, in the order in which they are drawn into their atlas.
    pub fn all() -> (icons: Vec<Icon>)
        ensures
            icons@ == Icon::listed(),
    {
        vec![
            Icon::Play,
            Icon::Pause,
            Icon::Back10,
            Icon::Fwd10,
            Icon::Volume,
            Icon::Mute,
            Icon::Fullscreen,
            Icon::FullscreenExit,
            Icon::Prev,
            Icon::Next,
            Icon::Info,
            Icon::Back,
            Icon::Cc,
            Icon::Audio,
        ]
    }
}

/// What a list of widgets shows.
pub open spec fn shown(widgets: Seq<Widget>) -> Seq<(Part, Seq<char>)> {
    widgets.map_values(|w: Widget| (w.part, w.text@))
}

/// Appends one widget.
fn put(out: &mut Vec<Widget>, part: Part, text: &str)
    ensures
        shown(final(out)@) == shown(old(out)@).push((part, text@)),
{
    let ghost before = shown(out@);
    out.push(Widget { part, text: text.to_owned() });
    assert(shown(out@) =~= before.push((part, text@)));
}

/// A number below one hundred with two digits.
pub open spec fn two_digits(n: int) -> Seq<char> {
    seq![digit(n / 10), digit(n % 10)]
}

/// A time as "M:SS", or "H:MM:SS" from one hour on.
pub open spec fn time_text(t: int) -> Seq<char> {
    let (h, m, s) = (t / 3600, t % 3600 / 60, t % 60);
    if h > 0 {
        decimal(h as nat) + seq![':'] + two_digits(m) + seq![':'] + two_digits(s)
    } else {
        decimal(m as nat) + seq![':'] + two_digits(s)
    }
}

fn push_two_digits(s: &mut String, n: u64)
    requires
        n < 100,
    ensures
        final(s)@ == old(s)@ + two_digits(n as int),
{
    let ghost before = s@;
    push_decimal(s, n / 10);
    push_decimal(s, n % 10);
    assert(s@ =~= before + two_digits(n as int));
}

/// Whole seconds as "M:SS", or "H:MM:SS" from one hour on.
pub fn fmt_time(t: u64) -> (text: String)
    ensures
        text@ == time_text(t as int),
{
    let mut text = String::new();
    let h: u64 = t / 3600;
    let m: u64 = t % 3600 / 60;
    if h > 0 {
        push_decimal(&mut text, h);
        text.push(':');
        push_two_digits(&mut text, m);
    } else {
        push_decimal(&mut text, m);
    }
    text.push(':');
    push_two_digits(&mut text, t % 60);
    assert(text@ =~= time_text(t as int));
    text
}

pub open spec fn button(under: Seq<Region>, region: Region, on: bool) -> Part {
    Part::Button { region, on, hovered: under.contains(region) }
}

/// A bound of the date filter is set.
pub open spec fn dates_set(c: UiCtx) -> bool {
    c.date_from@.len() > 0 || c.date_to@.len() > 0
}

/// The left end of the top bar.
pub open spec fn bar_left(c: UiCtx, under: Seq<Region>) -> Seq<(Part, Seq<char>)> {
    seq![
        (Part::Wordmark, "Cooliris"@),
        (Part::WordmarkTail, "Next"@),
        (button(under, Region::BarOpen, c.menu == Some(MenuKind::Open)), "Open"@),
        (Part::Divider, ""@),
        (
            button(under, Region::BarSlideshow, c.slideshow),
            if c.slideshow {
                "Stop"@
            } else {
                "Slideshow"@
            },
        ),
        (button(under, Region::BarFullscreen, false), "Fullscreen"@),
    ]
}

/// The right end of the top bar.
pub open spec fn bar_right(c: UiCtx, under: Seq<Region>) -> Seq<(Part, Seq<char>)> {
    seq![
        (button(under, Region::BarSettings, c.menu == Some(MenuKind::Settings)), "Settings"@),
        (button(under, Region::BarSort, c.menu == Some(MenuKind::Sort)), "Sort"@),
        (button(under, Region::BarFilter, c.menu == Some(MenuKind::Filter)), "Filter"@),
        (
            button(under, Region::BarDates, c.menu == Some(MenuKind::Dates) || dates_set(c)),
            if dates_set(c) {
                "Dates \u{2022}"@
            } else {
                "Dates"@
            },
        ),
        (Part::SearchBox { active: c.search_active }, ""@),
    ]
}

/// The text in the search box: a hint while it is empty and idle, else the query with its caret
/// and, where there is something to clear, the clear mark.
pub open spec fn search_texts(c: UiCtx) -> Seq<(Part, Seq<char>)> {
    if c.search@.len() == 0 && !c.search_active {
        seq![(Part::SearchHint, "Search\u{2026}"@)]
    } else {
        let text = (
            Part::SearchText,
            with_caret(c.search@, c.caret as int, c.search_active && c.caret_on),
        );
        if c.search@.len() > 0 {
            seq![text, (Part::SearchClear, "\u{2715}"@)]
        } else {
            seq![text]
        }
    }
}

/// How many of the items are loaded.
pub open spec fn count_text(ready: int, total: int) -> Seq<char> {
    decimal(crate::pool::min_int(ready, total) as nat) + seq!['/'] + decimal(total as nat)
}

/// The readouts beside the buttons: loaded items, whether more are on their way, and memory.
pub open spec fn readouts(c: UiCtx) -> Seq<(Part, Seq<char>)> {
    let count = if c.total > 0 {
        seq![(Part::Count, count_text(c.ready as int, c.total as int))]
    } else {
        seq![]
    };
    let dot = if c.total > 0 && c.inflight > 0 {
        seq![(Part::LoadingDot, ""@)]
    } else {
        seq![]
    };
    let memory = match c.mem_mb {
        Some(mb) => seq![(Part::Memory, decimal(mb as nat) + " MB"@)],
        None => seq![],
    };
    count + dot + memory
}

/// The settings, as the dialog lists them.
pub open spec fn setting(row: int) -> (Seq<char>, Seq<char>) {
    if row == 0 {
        ("Show titles"@, "Show every file's name on the wall."@)
    } else if row == 1 {
        ("Animate GIFs on the wall"@, "Play GIFs on the wall (heavier)."@)
    } else if row == 2 {
        ("Reflections"@, "Mirror the bottom row as a reflection."@)
    } else {
        ("Memory usage"@, "Show and log resident memory (RSS)."@)
    }
}

pub open spec fn setting_on(c: UiCtx, row: int) -> bool {
    if row == 0 {
        c.show_titles
    } else if row == 1 {
        c.gif_anim
    } else if row == 2 {
        c.reflections
    } else {
        c.show_mem
    }
}

/// One row of the settings dialog.
pub open spec fn setting_row(c: UiCtx, under: Seq<Region>, row: int) -> Seq<(Part, Seq<char>)> {
    seq![
        (
            Part::SettingsSwitch {
                row: row as usize,
                on: setting_on(c, row),
                hovered: under.contains(Region::SettingsRow(row as usize)),
            },
            setting(row).0,
        ),
        (Part::SettingsDetail { row: row as usize }, setting(row).1),
    ]
}

pub open spec fn settings_dialog(c: UiCtx, under: Seq<Region>) -> Seq<(Part, Seq<char>)> {
    seq![
        (Part::SettingsScrim, ""@),
        (Part::SettingsPanel, ""@),
        (Part::SettingsTitle, "Settings"@),
        (Part::SettingsClose, "\u{2715}"@),
    ] + setting_row(c, under, 0) + setting_row(c, under, 1) + setting_row(c, under, 2)
        + setting_row(c, under, 3)
}

/// One field of the dates panel: its label, its box, and a hint or its text.
pub open spec fn date_field(
    c: UiCtx,
    which: u8,
    label: Seq<char>,
    value: Seq<char>,
) -> Seq<(Part, Seq<char>)> {
    let active = c.date_active == which;
    seq![
        (Part::DatesLabel { which }, label),
        (Part::DatesField { which, active }, ""@),
        if value.len() == 0 && !active {
            (Part::DatesHint { which }, "YYYY-MM-DD"@)
        } else {
            (Part::DatesText { which }, with_caret(value, c.caret as int, active && c.caret_on))
        },
    ]
}

pub open spec fn dates_panel(c: UiCtx) -> Seq<(Part, Seq<char>)> {
    seq![
        (Part::DatesPanel, ""@),
        (Part::DatesHeading, "Filter by"@),
        (Part::DatesTabs { created: c.date_created }, ""@),
        (Part::DatesTab { created: false, on: !c.date_created }, "Modified"@),
        (Part::DatesTab { created: true, on: c.date_created }, "Created"@),
    ] + date_field(c, 1, "From"@, c.date_from@) + date_field(c, 2, "To"@, c.date_to@) + seq![
        (Part::DatesClear, "Clear dates"@),
        (Part::DatesDone, "Done"@),
        (
            Part::DatesFooter,
            if c.date_created {
                "Filtering by file created date."@
            } else {
                "Filtering by file modified date."@
            },
        ),
    ]
}

pub open spec fn open_button(under: Seq<Region>, region: Region) -> Part {
    Part::OpenButton { region, hovered: under.contains(region) }
}

pub open spec fn open_dialog(under: Seq<Region>) -> Seq<(Part, Seq<char>)> {
    seq![
        (Part::OpenScrim, ""@),
        (Part::OpenPanel, ""@),
        (Part::OpenTitle, "Open media"@),
        (Part::OpenClose { hovered: under.contains(Region::OpenClose) }, "\u{2715}"@),
        (Part::OpenDrop { hovered: under.contains(Region::OpenDrop) }, ""@),
        (Part::OpenLine { line: 0 }, "Drag & drop files or a folder here"@),
        (
            Part::OpenLine { line: 1 },
            "or click to choose a folder \u{00b7} images, videos, audio"@,
        ),
        (open_button(under, Region::OpenFiles), "Choose files\u{2026}"@),
        (open_button(under, Region::OpenFolder), "Choose folder\u{2026}"@),
        (open_button(under, Region::OpenJson), "From JSON\u{2026}"@),
    ]
}

/// One row of a dropdown.
pub open spec fn menu_row(
    under: Seq<Region>,
    row: int,
    current: bool,
    text: Seq<char>,
) -> (Part, Seq<char>) {
    (
        Part::MenuRow {
            row: row as usize,
            current,
            hovered: under.contains(Region::MenuRow(row as usize)),
        },
        text,
    )
}

pub open spec fn sort_menu(c: UiCtx, under: Seq<Region>) -> Seq<(Part, Seq<char>)> {
    seq![(Part::MenuPanel { kind: MenuKind::Sort, rows: 7 }, ""@)] + Seq::new(
        SortMode::listed().len(),
        |i: int|
            menu_row(under, i, SortMode::listed()[i] == c.sort, SortMode::listed()[i].text()),
    )
}

pub open spec fn filter_menu(c: UiCtx, under: Seq<Region>) -> Seq<(Part, Seq<char>)> {
    seq![(Part::MenuPanel { kind: MenuKind::Filter, rows: 4 }, ""@)] + Seq::new(
        Filter::listed().len(),
        |i: int|
            menu_row(under, i, Filter::listed()[i] == c.filter, Filter::listed()[i].text()),
    )
}

/// The open dropdown or dialog.
pub open spec fn open_menu(c: UiCtx, under: Seq<Region>) -> Seq<(Part, Seq<char>)> {
    match c.menu {
        Some(MenuKind::Settings) => settings_dialog(c, under),
        Some(MenuKind::Dates) => dates_panel(c),
        Some(MenuKind::Open) => open_dialog(under),
        Some(MenuKind::Sort) => sort_menu(c, under),
        Some(MenuKind::Filter) => filter_menu(c, under),
        None => seq![],
    }
}

/// The top bar, which an open item hides.
pub open spec fn top_bar(c: UiCtx, under: Seq<Region>) -> Seq<(Part, Seq<char>)> {
    if c.focused {
        seq![]
    } else {
        bar_left(c, under) + bar_right(c, under) + search_texts(c) + readouts(c) + open_menu(
            c,
            under,
        )
    }
}

/// The info card; it hides together with the controls of a playing item.
pub open spec fn info_card(c: UiCtx) -> Seq<(Part, Seq<char>)> {
    match c.info {
        Some(info) => if controls_hidden(c) {
            seq![]
        } else {
            let above_video = c.video is Some;
            let three = info.meta@.len() > 0;
            let two = seq![
                (Part::InfoPanel { three, above_video }, ""@),
                (Part::InfoLine { line: 0, above_video }, info.title@),
                (Part::InfoLine { line: 1, above_video }, info.path@),
            ];
            if three {
                two.push((Part::InfoLine { line: 2, above_video }, info.meta@))
            } else {
                two
            }
        },
        None => seq![],
    }
}

pub open spec fn video_icon(
    under: Seq<Region>,
    region: Region,
    icon: Icon,
    lit: bool,
) -> (Part, Seq<char>) {
    (Part::VideoIcon { region, icon, lit, hovered: under.contains(region) }, ""@)
}

/// The controls of a playing item.
pub open spec fn video_bar(
    v: VideoCtx,
    fullscreen: bool,
    under: Seq<Region>,
) -> Seq<(Part, Seq<char>)> {
    let left = seq![
        (Part::VideoBar, ""@),
        video_icon(
            under,
            Region::VideoPlay,
            if v.paused {
                Icon::Play
            } else {
                Icon::Pause
            },
            true,
        ),
        (Part::VolumeSlider, ""@),
        (Part::VideoTime, time_text(v.pos as int) + " / "@ + time_text(v.dur as int)),
        (Part::SeekSlider, ""@),
    ];
    let tip = if v.timed && under.contains(Region::VideoSeekHover) {
        seq![(Part::SeekTip, time_text(v.hover_time as int))]
    } else {
        seq![]
    };
    let right = seq![
        video_icon(under, Region::VideoBack, Icon::Back10, true),
        video_icon(under, Region::VideoForward, Icon::Fwd10, true),
        video_icon(
            under,
            Region::VideoSubs,
            Icon::Cc,
            v.sid > 0 || v.track_menu == Some(TrackMenu::Sub),
        ),
        video_icon(
            under,
            Region::VideoAudio,
            Icon::Audio,
            v.aid > 0 || v.track_menu == Some(TrackMenu::Audio),
        ),
        video_icon(
            under,
            Region::VideoFullscreen,
            if fullscreen {
                Icon::FullscreenExit
            } else {
                Icon::Fullscreen
            },
            true,
        ),
    ];
    left + tip + right
}

/// The longest label that a track menu shows whole.
pub const TRACK_LABEL: usize = 30;

/// One row of a track menu.
pub open spec fn track_row(
    under: Seq<Region>,
    row: int,
    selected: bool,
    text: Seq<char>,
) -> (Part, Seq<char>) {
    (
        Part::TrackRow {
            row: row as usize,
            selected,
            hovered: under.contains(Region::TrackRow(row as usize)),
        },
        text,
    )
}

/// The open track menu: "Off", then the tracks.
pub open spec fn track_menu(v: VideoCtx, under: Seq<Region>) -> Seq<(Part, Seq<char>)> {
    match v.track_menu {
        Some(tm) => {
            let tracks = crate::components::tracks_of(v, tm);
            let off = match tm {
                TrackMenu::Audio => v.aid <= 0,
                TrackMenu::Sub => v.sid <= 0,
            };
            seq![
                (Part::TrackPanel { menu: tm, rows: (tracks.len() + 1) as usize }, ""@),
                track_row(under, 0, off, "Off"@),
            ] + Seq::new(
                tracks.len(),
                |i: int|
                    track_row(
                        under,
                        i + 1,
                        tracks[i].selected,
                        shortened(tracks[i].label@, TRACK_LABEL as nat),
                    ),
            )
        },
        None => seq![],
    }
}

pub open spec fn video_widgets(c: UiCtx, under: Seq<Region>) -> Seq<(Part, Seq<char>)> {
    match c.video {
        Some(v) => if v.visible {
            video_bar(v, c.fullscreen, under) + track_menu(v, under)
        } else {
            seq![]
        },
        None => seq![],
    }
}

/// The lightbox controls of an open item.
pub open spec fn lightbox_widgets(c: UiCtx, under: Seq<Region>) -> Seq<(Part, Seq<char>)> {
    if c.focused && !controls_hidden(c) {
        seq![
            (
                Part::LightboxBack { hovered: under.contains(Region::LightboxBack) },
                "\u{2190} Back"@,
            ),
            (
                Part::LightboxInfo {
                    on: c.show_info,
                    hovered: under.contains(Region::LightboxInfo),
                },
                ""@,
            ),
        ]
    } else {
        seq![]
    }
}

/// The widgets of a frame, in paint order.
pub open spec fn frame_widgets(c: UiCtx, under: Seq<Region>) -> Seq<(Part, Seq<char>)> {
    top_bar(c, under) + info_card(c) + video_widgets(c, under) + lightbox_widgets(c, under)
}

fn put_button(out: &mut Vec<Widget>, under: &Vec<Region>, region: Region, on: bool, text: &str)
    ensures
        shown(final(out)@) == shown(old(out)@).push((button(under@, region, on), text@)),
{
    put(out, Part::Button { region, on, hovered: is_under(under, region) }, text);
}

fn put_left(out: &mut Vec<Widget>, c: &UiCtx, under: &Vec<Region>)
    ensures
        shown(final(out)@) == shown(old(out)@) + bar_left(*c, under@),
{
    let ghost before = shown(out@);
    put(out, Part::Wordmark, "Cooliris");
    put(out, Part::WordmarkTail, "Next");
    put_button(out, under, Region::BarOpen, c.menu == Some(MenuKind::Open), "Open");
    put(out, Part::Divider, "");
    let show: &str = if c.slideshow {
        "Stop"
    } else {
        "Slideshow"
    };
    put_button(out, under, Region::BarSlideshow, c.slideshow, show);
    put_button(out, under, Region::BarFullscreen, false, "Fullscreen");
    assert(shown(out@) =~= before + bar_left(*c, under@));
}

fn put_right(out: &mut Vec<Widget>, c: &UiCtx, under: &Vec<Region>)
    ensures
        shown(final(out)@) == shown(old(out)@) + bar_right(*c, under@),
{
    let ghost before = shown(out@);
    let dates: bool = c.date_from.as_str().unicode_len() > 0 || c.date_to.as_str().unicode_len()
        > 0;
    put_button(out, under, Region::BarSettings, c.menu == Some(MenuKind::Settings), "Settings");
    put_button(out, under, Region::BarSort, c.menu == Some(MenuKind::Sort), "Sort");
    put_button(out, under, Region::BarFilter, c.menu == Some(MenuKind::Filter), "Filter");
    let text: &str = if dates {
        "Dates \u{2022}"
    } else {
        "Dates"
    };
    put_button(out, under, Region::BarDates, c.menu == Some(MenuKind::Dates) || dates, text);
    put(out, Part::SearchBox { active: c.search_active }, "");
    assert(shown(out@) =~= before + bar_right(*c, under@));
}

fn put_search(out: &mut Vec<Widget>, c: &UiCtx)
    ensures
        shown(final(out)@) == shown(old(out)@) + search_texts(*c),
{
    let ghost before = shown(out@);
    let empty: bool = c.search.as_str().unicode_len() == 0;
    if empty && !c.search_active {
        put(out, Part::SearchHint, "Search\u{2026}");
    } else {
        let text = caret_str(c.search.as_str(), c.caret, c.search_active && c.caret_on);
        put(out, Part::SearchText, text.as_str());
        if !empty {
            put(out, Part::SearchClear, "\u{2715}");
        }
    }
    assert(shown(out@) =~= before + search_texts(*c));
}

fn put_readouts(out: &mut Vec<Widget>, c: &UiCtx)
    ensures
        shown(final(out)@) == shown(old(out)@) + readouts(*c),
{
    let ghost before = shown(out@);
    if c.total > 0 {
        let mut text = String::new();
        push_decimal(
            &mut text,
            (if c.ready <= c.total {
                c.ready
            } else {
                c.total
            }) as u64,
        );
        text.push('/');
        push_decimal(&mut text, c.total as u64);
        assert(text@ =~= count_text(c.ready as int, c.total as int));
        put(out, Part::Count, text.as_str());
        if c.inflight > 0 {
            put(out, Part::LoadingDot, "");
        }
    }
    match c.mem_mb {
        Some(mb) => {
            let mut text = String::new();
            push_decimal(&mut text, mb);
            text.append(" MB");
            assert(text@ =~= decimal(mb as nat) + " MB"@);
            put(out, Part::Memory, text.as_str());
        },
        None => {},
    }
    assert(shown(out@) =~= before + readouts(*c));
}

fn put_setting(
    out: &mut Vec<Widget>,
    under: &Vec<Region>,
    row: usize,
    on: bool,
    label: &str,
    detail: &str,
)
    ensures
        shown(final(out)@) == shown(old(out)@) + seq![
            (
                Part::SettingsSwitch {
                    row,
                    on,
                    hovered: under@.contains(Region::SettingsRow(row)),
                },
                label@,
            ),
            (Part::SettingsDetail { row }, detail@),
        ],
{
    let ghost before = shown(out@);
    put(
        out,
        Part::SettingsSwitch { row, on, hovered: is_under(under, Region::SettingsRow(row)) },
        label,
    );
    put(out, Part::SettingsDetail { row }, detail);
    assert(shown(out@) =~= before.push(
        (
            Part::SettingsSwitch { row, on, hovered: under@.contains(Region::SettingsRow(row)) },
            label@,
        ),
    ).push((Part::SettingsDetail { row }, detail@)));
    assert(shown(out@) =~= before + seq![
        (
            Part::SettingsSwitch { row, on, hovered: under@.contains(Region::SettingsRow(row)) },
            label@,
        ),
        (Part::SettingsDetail { row }, detail@),
    ]);
}

fn put_settings(out: &mut Vec<Widget>, c: &UiCtx, under: &Vec<Region>)
    ensures
        shown(final(out)@) == shown(old(out)@) + settings_dialog(*c, under@),
{
    let ghost before = shown(out@);
    put(out, Part::SettingsScrim, "");
    put(out, Part::SettingsPanel, "");
    put(out, Part::SettingsTitle, "Settings");
    put(out, Part::SettingsClose, "\u{2715}");
    put_setting(
        out,
        under,
        0,
        c.show_titles,
        "Show titles",
        "Show every file's name on the wall.",
    );
    put_setting(
        out,
        under,
        1,
        c.gif_anim,
        "Animate GIFs on the wall",
        "Play GIFs on the wall (heavier).",
    );
    put_setting(
        out,
        under,
        2,
        c.reflections,
        "Reflections",
        "Mirror the bottom row as a reflection.",
    );
    put_setting(
        out,
        under,
        3,
        c.show_mem,
        "Memory usage",
        "Show and log resident memory (RSS).",
    );
    assert(shown(out@) =~= before + settings_dialog(*c, under@));
}

fn put_date_field(out: &mut Vec<Widget>, c: &UiCtx, which: u8, label: &str, value: &String)
    ensures
        shown(final(out)@) == shown(old(out)@) + date_field(*c, which, label@, value@),
{
    let ghost before = shown(out@);
    let active: bool = c.date_active == which;
    put(out, Part::DatesLabel { which }, label);
    put(out, Part::DatesField { which, active }, "");
    if value.as_str().unicode_len() == 0 && !active {
        put(out, Part::DatesHint { which }, "YYYY-MM-DD");
    } else {
        let text = caret_str(value.as_str(), c.caret, active && c.caret_on);
        put(out, Part::DatesText { which }, text.as_str());
    }
    assert(shown(out@) =~= before + date_field(*c, which, label@, value@));
}

fn put_dates(out: &mut Vec<Widget>, c: &UiCtx)
    ensures
        shown(final(out)@) == shown(old(out)@) + dates_panel(*c),
{
    let ghost before = shown(out@);
    put(out, Part::DatesPanel, "");
    put(out, Part::DatesHeading, "Filter by");
    put(out, Part::DatesTabs { created: c.date_created }, "");
    put(out, Part::DatesTab { created: false, on: !c.date_created }, "Modified");
    put(out, Part::DatesTab { created: true, on: c.date_created }, "Created");
    put_date_field(out, c, 1, "From", &c.date_from);
    put_date_field(out, c, 2, "To", &c.date_to);
    put(out, Part::DatesClear, "Clear dates");
    put(out, Part::DatesDone, "Done");
    put(
        out,
        Part::DatesFooter,
        if c.date_created {
            "Filtering by file created date."
        } else {
            "Filtering by file modified date."
        },
    );
    assert(shown(out@) =~= before + dates_panel(*c));
}

fn put_open(out: &mut Vec<Widget>, under: &Vec<Region>)
    ensures
        shown(final(out)@) == shown(old(out)@) + open_dialog(under@),
{
    let ghost before = shown(out@);
    put(out, Part::OpenScrim, "");
    put(out, Part::OpenPanel, "");
    put(out, Part::OpenTitle, "Open media");
    put(out, Part::OpenClose { hovered: is_under(under, Region::OpenClose) }, "\u{2715}");
    put(out, Part::OpenDrop { hovered: is_under(under, Region::OpenDrop) }, "");
    put(out, Part::OpenLine { line: 0 }, "Drag & drop files or a folder here");
    put(
        out,
        Part::OpenLine { line: 1 },
        "or click to choose a folder \u{00b7} images, videos, audio",
    );
    put(
        out,
        Part::OpenButton {
            region: Region::OpenFiles,
            hovered: is_under(under, Region::OpenFiles),
        },
        "Choose files\u{2026}",
    );
    put(
        out,
        Part::OpenButton {
            region: Region::OpenFolder,
            hovered: is_under(under, Region::OpenFolder),
        },
        "Choose folder\u{2026}",
    );
    put(
        out,
        Part::OpenButton { region: Region::OpenJson, hovered: is_under(under, Region::OpenJson) },
        "From JSON\u{2026}",
    );
    assert(shown(out@) =~= before + open_dialog(under@));
}

fn put_menu_row(out: &mut Vec<Widget>, under: &Vec<Region>, row: usize, current: bool, text: &str)
    ensures
        shown(final(out)@) == shown(old(out)@).push(menu_row(under@, row as int, current, text@)),
{
    put(
        out,
        Part::MenuRow { row, current, hovered: is_under(under, Region::MenuRow(row)) },
        text,
    );
}

fn put_sort(out: &mut Vec<Widget>, c: &UiCtx, under: &Vec<Region>)
    ensures
        shown(final(out)@) == shown(old(out)@) + sort_menu(*c, under@),
{
    let ghost before = shown(out@);
    let modes = SortMode::all();
    put(out, Part::MenuPanel { kind: MenuKind::Sort, rows: modes.len() }, "");
    let mut i: usize = 0;
    assert(shown(out@) =~= before + sort_menu(*c, under@).take(1));
    while i < modes.len()
        invariant
            i <= modes.len(),
            modes@ == SortMode::listed(),
            shown(out@) == before + sort_menu(*c, under@).take(i + 1),
        decreases modes.len() - i,
    {
        put_menu_row(out, under, i, modes[i] == c.sort, modes[i].label());
        i = i + 1;
        assert(shown(out@) =~= before + sort_menu(*c, under@).take(i + 1));
    }
    assert(shown(out@) =~= before + sort_menu(*c, under@));
}

fn put_filter(out: &mut Vec<Widget>, c: &UiCtx, under: &Vec<Region>)
    ensures
        shown(final(out)@) == shown(old(out)@) + filter_menu(*c, under@),
{
    let ghost before = shown(out@);
    let filters = Filter::all();
    put(out, Part::MenuPanel { kind: MenuKind::Filter, rows: filters.len() }, "");
    let mut i: usize = 0;
    assert(shown(out@) =~= before + filter_menu(*c, under@).take(1));
    while i < filters.len()
        invariant
            i <= filters.len(),
            filters@ == Filter::listed(),
            shown(out@) == before + filter_menu(*c, under@).take(i + 1),
        decreases filters.len() - i,
    {
        put_menu_row(out, under, i, filters[i] == c.filter, filters[i].label());
        i = i + 1;
        assert(shown(out@) =~= before + filter_menu(*c, under@).take(i + 1));
    }
    assert(shown(out@) =~= before + filter_menu(*c, under@));
}

fn put_top_bar(out: &mut Vec<Widget>, c: &UiCtx, under: &Vec<Region>)
    ensures
        shown(final(out)@) == shown(old(out)@) + top_bar(*c, under@),
{
    let ghost before = shown(out@);
    if !c.focused {
        put_left(out, c, under);
        put_right(out, c, under);
        put_search(out, c);
        put_readouts(out, c);
        match c.menu {
            Some(MenuKind::Settings) => put_settings(out, c, under),
            Some(MenuKind::Dates) => put_dates(out, c),
            Some(MenuKind::Open) => put_open(out, under),
            Some(MenuKind::Sort) => put_sort(out, c, under),
            Some(MenuKind::Filter) => put_filter(out, c, under),
            None => {},
        }
    }
    assert(shown(out@) =~= before + top_bar(*c, under@));
}

fn put_info(out: &mut Vec<Widget>, c: &UiCtx)
    ensures
        shown(final(out)@) == shown(old(out)@) + info_card(*c),
{
    let ghost before = shown(out@);
    let hidden: bool = match &c.video {
        Some(v) => !v.visible,
        None => false,
    };
    match &c.info {
        Some(info) => {
            if !hidden {
                let above_video: bool = c.video.is_some();
                let three: bool = info.meta.as_str().unicode_len() > 0;
                put(out, Part::InfoPanel { three, above_video }, "");
                put(out, Part::InfoLine { line: 0, above_video }, info.title.as_str());
                put(out, Part::InfoLine { line: 1, above_video }, info.path.as_str());
                if three {
                    put(out, Part::InfoLine { line: 2, above_video }, info.meta.as_str());
                }
            }
        },
        None => {},
    }
    assert(shown(out@) =~= before + info_card(*c));
}

fn put_video_icon(
    out: &mut Vec<Widget>,
    under: &Vec<Region>,
    region: Region,
    icon: Icon,
    lit: bool,
)
    ensures
        shown(final(out)@) == shown(old(out)@).push(video_icon(under@, region, icon, lit)),
{
    put(out, Part::VideoIcon { region, icon, lit, hovered: is_under(under, region) }, "");
}

fn put_video_bar(out: &mut Vec<Widget>, v: &VideoCtx, fullscreen: bool, under: &Vec<Region>)
    ensures
        shown(final(out)@) == shown(old(out)@) + video_bar(*v, fullscreen, under@),
{
    let ghost before = shown(out@);
    put(out, Part::VideoBar, "");
    let play: Icon = if v.paused {
        Icon::Play
    } else {
        Icon::Pause
    };
    put_video_icon(out, under, Region::VideoPlay, play, true);
    put(out, Part::VolumeSlider, "");
    let mut time = fmt_time(v.pos);
    time.append(" / ");
    time.append(fmt_time(v.dur).as_str());
    put(out, Part::VideoTime, time.as_str());
    put(out, Part::SeekSlider, "");
    if v.timed && is_under(under, Region::VideoSeekHover) {
        put(out, Part::SeekTip, fmt_time(v.hover_time).as_str());
    }
    put_video_icon(out, under, Region::VideoBack, Icon::Back10, true);
    put_video_icon(out, under, Region::VideoForward, Icon::Fwd10, true);
    let subs: bool = v.sid > 0 || v.track_menu == Some(TrackMenu::Sub);
    let audio: bool = v.aid > 0 || v.track_menu == Some(TrackMenu::Audio);
    put_video_icon(out, under, Region::VideoSubs, Icon::Cc, subs);
    put_video_icon(out, under, Region::VideoAudio, Icon::Audio, audio);
    let full: Icon = if fullscreen {
        Icon::FullscreenExit
    } else {
        Icon::Fullscreen
    };
    put_video_icon(out, under, Region::VideoFullscreen, full, true);
    assert(shown(out@) =~= before + video_bar(*v, fullscreen, under@));
}

fn put_track_row(
    out: &mut Vec<Widget>,
    under: &Vec<Region>,
    row: usize,
    selected: bool,
    text: &str,
)
    ensures
        shown(final(out)@) == shown(old(out)@).push(
            track_row(under@, row as int, selected, text@),
        ),
{
    put(
        out,
        Part::TrackRow { row, selected, hovered: is_under(under, Region::TrackRow(row)) },
        text,
    );
}

fn put_track_menu(out: &mut Vec<Widget>, v: &VideoCtx, under: &Vec<Region>)
    requires
        v.audio_tracks.len() < usize::MAX,
        v.sub_tracks.len() < usize::MAX,
    ensures
        shown(final(out)@) == shown(old(out)@) + track_menu(*v, under@),
{
    let ghost before = shown(out@);
    match v.track_menu {
        Some(menu) => {
            let audio: bool = match menu {
                TrackMenu::Audio => true,
                TrackMenu::Sub => false,
            };
            let tracks: &Vec<TrackItem> = if audio {
                &v.audio_tracks
            } else {
                &v.sub_tracks
            };
            let off: bool = if audio {
                v.aid <= 0
            } else {
                v.sid <= 0
            };
            put(out, Part::TrackPanel { menu, rows: tracks.len() + 1 }, "");
            put_track_row(out, under, 0, off, "Off");
            let ghost all = track_menu(*v, under@);
            let mut i: usize = 0;
            assert(shown(out@) =~= before + all.take(2));
            while i < tracks.len()
                invariant
                    i <= tracks.len(),
                    tracks@ == crate::components::tracks_of(*v, menu),
                    v.track_menu == Some(menu),
                    all == track_menu(*v, under@),
                    shown(out@) == before + all.take(i + 2),
                decreases tracks.len() - i,
            {
                let text = shorten(tracks[i].label.as_str(), TRACK_LABEL);
                put_track_row(out, under, i + 1, tracks[i].selected, text.as_str());
                i = i + 1;
                assert(shown(out@) =~= before + all.take(i + 2));
            }
            assert(all.take(tracks.len() + 2) =~= all);
        },
        None => {},
    }
    assert(shown(out@) =~= before + track_menu(*v, under@));
}

/// The track menus of a frame can be counted.
pub open spec fn countable(c: UiCtx) -> bool {
    c.video matches Some(v) ==> v.audio_tracks.len() < usize::MAX && v.sub_tracks.len()
        < usize::MAX
}

/// The widgets of a frame, in paint order.
#[verifier::rlimit(40)]
pub fn build(c: &UiCtx, under: &Vec<Region>) -> (widgets: Vec<Widget>)
    requires
        countable(*c),
    ensures
        shown(widgets@) == frame_widgets(*c, under@),
{
    let mut widgets: Vec<Widget> = Vec::new();
    assert(shown(widgets@) =~= seq![]);
    let ghost top = top_bar(*c, under@);
    let ghost card = info_card(*c);
    let ghost media = video_widgets(*c, under@);
    put_top_bar(&mut widgets, c, under);
    assert(shown(widgets@) =~= top);
    put_info(&mut widgets, c);
    assert(shown(widgets@) =~= top + card);
    match &c.video {
        Some(v) => {
            if v.visible {
                put_video_bar(&mut widgets, v, c.fullscreen, under);
                put_track_menu(&mut widgets, v, under);
            }
        },
        None => {},
    }
    assert(shown(widgets@) =~= top + card + media);
    let hidden: bool = match &c.video {
        Some(v) => !v.visible,
        None => false,
    };
    if c.focused && !hidden {
        put(
            &mut widgets,
            Part::LightboxBack { hovered: is_under(under, Region::LightboxBack) },
            "\u{2190} Back",
        );
        put(
            &mut widgets,
            Part::LightboxInfo {
                on: c.show_info,
                hovered: is_under(under, Region::LightboxInfo),
            },
            "",
        );
    }
    assert(shown(widgets@) =~= top + card + media + lightbox_widgets(*c, under@));
    widgets
}

} // verus!
