//! What the interface says: each part shows its own setting, and texts read as what they stand for.

use crate::components::{
    controls_hidden, tracks_of, Filter, MenuKind, Region, SortMode, TrackMenu, UiCtx, VideoCtx,
};
use crate::edit::with_caret;
use crate::input::{asked_effects, asked_flags, dropped_folder, loaded_flags, LoadMsg};
use crate::media::OpenKind;
use crate::paths::parent_bytes;
use crate::state::{Effect, Flags};
use crate::text::decimal;
use crate::widgets::{
    bar_left, bar_right, button, count_text, date_field, dates_panel, filter_menu, frame_widgets,
    info_card, lightbox_widgets, menu_row, open_dialog, open_menu, readouts, search_texts,
    setting_row, settings_dialog, sort_menu, time_text, top_bar, track_menu, video_bar,
    video_widgets, Icon, Part,
};
use vstd::prelude::*;
use vstd::seq_lib::lemma_seq_concat_contains_all_elements;

verus! {

/// A time reads as its hours, minutes and seconds: minutes and seconds with two digits behind a
/// colon, and hours only where there are any.
pub proof fn times_read_as_hours_minutes_seconds(h: int, m: int, s: int)
    requires
        0 <= h,
        0 <= m < 60,
        0 <= s < 60,
    ensures
        ({
            let t = time_text(h * 3600 + m * 60 + s);
            let tail = seq![':', ('0' as int + s / 10) as char, ('0' as int + s % 10) as char];
            &&& h == 0 ==> t == decimal(m as nat) + tail
            &&& h > 0 ==> t == decimal(h as nat) + seq![
                ':',
                ('0' as int + m / 10) as char,
                ('0' as int + m % 10) as char,
            ] + tail
        }),
{
    let t = h * 3600 + m * 60 + s;
    assert(t / 3600 == h && t % 3600 / 60 == m && t % 60 == s);
    let tail = seq![':', ('0' as int + s / 10) as char, ('0' as int + s % 10) as char];
    if h == 0 {
        assert(time_text(t) =~= decimal(m as nat) + tail);
    } else {
        assert(time_text(t) =~= decimal(h as nat) + seq![
            ':',
            ('0' as int + m / 10) as char,
            ('0' as int + m % 10) as char,
        ] + tail);
    }
}

/// The count of loaded items never exceeds that of all items.
pub proof fn counts_read_as_loaded_of_all(ready: int, total: int)
    requires
        0 <= ready,
        0 <= total,
    ensures
        ready <= total ==> count_text(ready, total) == decimal(ready as nat) + seq!['/'] + decimal(
            total as nat,
        ),
        ready > total ==> count_text(ready, total) == decimal(total as nat) + seq!['/'] + decimal(
            total as nat,
        ),
{
}

/// The caret stands in a text as a bar, where it is, and not beyond the end.
pub proof fn the_caret_stands_in_the_text(text: Seq<char>, caret: int)
    requires
        0 <= caret,
    ensures
        with_caret(text, caret, false) == text,
        caret <= text.len() ==> with_caret(text, caret, true) == text.take(caret) + seq!['|']
            + text.skip(caret),
        caret > text.len() ==> with_caret(text, caret, true) == text + seq!['|'],
{
    if caret > text.len() {
        assert(with_caret(text, caret, true) =~= text + seq!['|']);
    }
}

/// Whether a frame shows a part with a text.
pub open spec fn says(c: UiCtx, under: Seq<Region>, part: Part, text: Seq<char>) -> bool {
    frame_widgets(c, under).contains((part, text))
}

proof fn lemma_parts(c: UiCtx, under: Seq<Region>, x: (Part, Seq<char>))
    ensures
        frame_widgets(c, under).contains(x) <==> top_bar(c, under).contains(x) || info_card(
            c,
        ).contains(x) || video_widgets(c, under).contains(x) || lightbox_widgets(
            c,
            under,
        ).contains(x),
{
    let (a, b, d, e) = (
        top_bar(c, under),
        info_card(c),
        video_widgets(c, under),
        lightbox_widgets(c, under),
    );
    lemma_seq_concat_contains_all_elements(a + b + d, e, x);
    lemma_seq_concat_contains_all_elements(a + b, d, x);
    lemma_seq_concat_contains_all_elements(a, b, x);
}

proof fn lemma_bar(c: UiCtx, under: Seq<Region>, x: (Part, Seq<char>))
    requires
        !c.focused,
    ensures
        frame_widgets(c, under).contains(x) <== bar_left(c, under).contains(x) || bar_right(
            c,
            under,
        ).contains(x) || search_texts(c).contains(x) || readouts(c).contains(x) || open_menu(
            c,
            under,
        ).contains(x),
{
    lemma_parts(c, under, x);
    let (a, b, d, e, f) = (
        bar_left(c, under),
        bar_right(c, under),
        search_texts(c),
        readouts(c),
        open_menu(c, under),
    );
    lemma_seq_concat_contains_all_elements(a + b + d + e, f, x);
    lemma_seq_concat_contains_all_elements(a + b + d, e, x);
    lemma_seq_concat_contains_all_elements(a + b, d, x);
    lemma_seq_concat_contains_all_elements(a, b, x);
}

/// A button of the top bar, lit and hovered as it is.
pub open spec fn bar_button(under: Seq<Region>, r: Region, lit: bool) -> Part {
    Part::Button { region: r, on: lit, hovered: under.contains(r) }
}

/// On the wall the top bar shows its buttons: that of an open menu is lit, that of a running
/// slideshow stops it, and that of the dates is lit and marked while a bound is set.
pub proof fn the_bar_shows_its_buttons(c: UiCtx, under: Seq<Region>)
    requires
        !c.focused,
    ensures
        ({
            let dated = c.date_from@.len() > 0 || c.date_to@.len() > 0;
            &&& says(
                c,
                under,
                bar_button(under, Region::BarOpen, c.menu == Some(MenuKind::Open)),
                "Open"@,
            )
            &&& says(
                c,
                under,
                bar_button(under, Region::BarSlideshow, c.slideshow),
                if c.slideshow {
                    "Stop"@
                } else {
                    "Slideshow"@
                },
            )
            &&& says(c, under, bar_button(under, Region::BarFullscreen, false), "Fullscreen"@)
            &&& says(
                c,
                under,
                bar_button(under, Region::BarSettings, c.menu == Some(MenuKind::Settings)),
                "Settings"@,
            )
            &&& says(
                c,
                under,
                bar_button(under, Region::BarSort, c.menu == Some(MenuKind::Sort)),
                "Sort"@,
            )
            &&& says(
                c,
                under,
                bar_button(under, Region::BarFilter, c.menu == Some(MenuKind::Filter)),
                "Filter"@,
            )
            &&& says(
                c,
                under,
                bar_button(under, Region::BarDates, c.menu == Some(MenuKind::Dates) || dated),
                if dated {
                    "Dates \u{2022}"@
                } else {
                    "Dates"@
                },
            )
            &&& says(c, under, Part::SearchBox { active: c.search_active }, ""@)
        }),
{
    let l = bar_left(c, under);
    let r = bar_right(c, under);
    assert(l.contains(l[2]) && l.contains(l[4]) && l.contains(l[5]));
    assert(r.contains(r[0]) && r.contains(r[1]) && r.contains(r[2]) && r.contains(r[3])
        && r.contains(r[4]));
    lemma_bar(c, under, l[2]);
    lemma_bar(c, under, l[4]);
    lemma_bar(c, under, l[5]);
    lemma_bar(c, under, r[0]);
    lemma_bar(c, under, r[1]);
    lemma_bar(c, under, r[2]);
    lemma_bar(c, under, r[3]);
    lemma_bar(c, under, r[4]);
}

/// An open item hides the top bar and its menus.
pub proof fn open_items_hide_the_bar(c: UiCtx, under: Seq<Region>, k: int)
    requires
        c.focused,
        0 <= k < frame_widgets(c, under).len(),
    ensures
        ({
            let p = frame_widgets(c, under)[k].0;
            !(p is Button) && !(p is MenuRow) && !(p is SettingsSwitch) && !(p is SearchBox)
                && !(p is OpenButton) && !(p is DatesField)
        }),
{
    let x = frame_widgets(c, under)[k];
    assert(frame_widgets(c, under).contains(x));
    lemma_parts(c, under, x);
    if info_card(c).contains(x) {
        let j = info_card(c).index_of(x);
        assert(info_card(c)[j] == x);
    }
    if lightbox_widgets(c, under).contains(x) {
        let j = lightbox_widgets(c, under).index_of(x);
        assert(lightbox_widgets(c, under)[j] == x);
    }
    if video_widgets(c, under).contains(x) {
        let v = c.video->0;
        lemma_seq_concat_contains_all_elements(
            video_bar(v, c.fullscreen, under),
            track_menu(v, under),
            x,
        );
        if video_bar(v, c.fullscreen, under).contains(x) {
            let j = video_bar(v, c.fullscreen, under).index_of(x);
            assert(video_bar(v, c.fullscreen, under)[j] == x);
        }
        if track_menu(v, under).contains(x) {
            let j = track_menu(v, under).index_of(x);
            assert(track_menu(v, under)[j] == x);
        }
    }
}

/// The search box shows a hint while it is empty and idle; else what is searched for, with the
/// caret while it blinks on in an active box, and a mark that clears it where there is something.
pub proof fn the_search_box_shows_the_search(c: UiCtx, under: Seq<Region>)
    requires
        !c.focused,
    ensures
        ({
            let idle = c.search@.len() == 0 && !c.search_active;
            &&& idle ==> says(c, under, Part::SearchHint, "Search\u{2026}"@)
            &&& !idle && c.search_active && c.caret_on ==> says(
                c,
                under,
                Part::SearchText,
                with_caret(c.search@, c.caret as int, true),
            )
            &&& !idle && !(c.search_active && c.caret_on) ==> says(
                c,
                under,
                Part::SearchText,
                c.search@,
            )
            &&& c.search@.len() > 0 ==> says(c, under, Part::SearchClear, "\u{2715}"@)
        }),
{
    let t = search_texts(c);
    assert(t.contains(t[0]));
    lemma_bar(c, under, t[0]);
    if c.search@.len() > 0 {
        assert(t.contains(t[1]));
        lemma_bar(c, under, t[1]);
    }
}

/// The readouts: how many items are loaded, where there are any; whether more are on their way; and
/// the memory, where it is asked for and known.
pub proof fn the_readouts_tell_what_is_loaded(c: UiCtx, under: Seq<Region>)
    requires
        !c.focused,
    ensures
        c.total > 0 ==> says(c, under, Part::Count, count_text(c.ready as int, c.total as int)),
        c.total > 0 && c.inflight > 0 ==> says(c, under, Part::LoadingDot, ""@),
        c.mem_mb matches Some(mb) ==> says(c, under, Part::Memory, decimal(mb as nat) + " MB"@),
{
    let t = readouts(c);
    if c.total > 0 {
        assert(t[0] == (Part::Count, count_text(c.ready as int, c.total as int)));
        assert(t.contains(t[0]));
        lemma_bar(c, under, t[0]);
        if c.inflight > 0 {
            assert(t[1] == (Part::LoadingDot, ""@));
            assert(t.contains(t[1]));
            lemma_bar(c, under, t[1]);
        }
    }
    if let Some(mb) = c.mem_mb {
        let x = (Part::Memory, decimal(mb as nat) + " MB"@);
        assert(t[t.len() - 1] == x);
        assert(t.contains(x));
        lemma_bar(c, under, x);
    }
}

/// A row of the open dropdown.
pub open spec fn dropdown_row(under: Seq<Region>, row: usize, current: bool) -> Part {
    Part::MenuRow { row, current, hovered: under.contains(Region::MenuRow(row)) }
}

/// The sort menu shows the seven orders by their names, and marks the one in force.
pub proof fn the_sort_menu_marks_the_order_in_force(c: UiCtx, under: Seq<Region>)
    requires
        !c.focused,
        c.menu == Some(MenuKind::Sort),
    ensures
        says(
            c,
            under,
            dropdown_row(under, 0, c.sort == SortMode::Default),
            "Default (as loaded)"@,
        ),
        says(
            c,
            under,
            dropdown_row(under, 1, c.sort == SortMode::NameAsc),
            "Name (A \u{2192} Z)"@,
        ),
        says(
            c,
            under,
            dropdown_row(under, 2, c.sort == SortMode::NameDesc),
            "Name (Z \u{2192} A)"@,
        ),
        says(
            c,
            under,
            dropdown_row(under, 3, c.sort == SortMode::ModifiedNew),
            "Modified (newest)"@,
        ),
        says(
            c,
            under,
            dropdown_row(under, 4, c.sort == SortMode::ModifiedOld),
            "Modified (oldest)"@,
        ),
        says(
            c,
            under,
            dropdown_row(under, 5, c.sort == SortMode::CreatedNew),
            "Created (newest)"@,
        ),
        says(
            c,
            under,
            dropdown_row(under, 6, c.sort == SortMode::CreatedOld),
            "Created (oldest)"@,
        ),
{
    let t = sort_menu(c, under);
    assert forall|i: int| 1 <= i < 8 implies #[trigger] t[i] == menu_row(
        under,
        i - 1,
        SortMode::listed()[i - 1] == c.sort,
        SortMode::listed()[i - 1].text(),
    ) && frame_widgets(c, under).contains(t[i]) by {
        assert(t.contains(t[i]));
        lemma_bar(c, under, t[i]);
    }
    assert(frame_widgets(c, under).contains(t[1]));
    assert(frame_widgets(c, under).contains(t[2]));
    assert(frame_widgets(c, under).contains(t[3]));
    assert(frame_widgets(c, under).contains(t[4]));
    assert(frame_widgets(c, under).contains(t[5]));
    assert(frame_widgets(c, under).contains(t[6]));
    assert(frame_widgets(c, under).contains(t[7]));
}

/// The filter menu shows the four types by their names, and marks the one in force.
pub proof fn the_filter_menu_marks_the_type_in_force(c: UiCtx, under: Seq<Region>)
    requires
        !c.focused,
        c.menu == Some(MenuKind::Filter),
    ensures
        says(c, under, dropdown_row(under, 0, c.filter == Filter::All), "All"@),
        says(c, under, dropdown_row(under, 1, c.filter == Filter::Photos), "Photos"@),
        says(c, under, dropdown_row(under, 2, c.filter == Filter::Videos), "Videos"@),
        says(c, under, dropdown_row(under, 3, c.filter == Filter::Audio), "Audio"@),
{
    let t = filter_menu(c, under);
    assert forall|i: int| 1 <= i < 5 implies #[trigger] t[i] == menu_row(
        under,
        i - 1,
        Filter::listed()[i - 1] == c.filter,
        Filter::listed()[i - 1].text(),
    ) && frame_widgets(c, under).contains(t[i]) by {
        assert(t.contains(t[i]));
        lemma_bar(c, under, t[i]);
    }
    assert(frame_widgets(c, under).contains(t[1]));
    assert(frame_widgets(c, under).contains(t[2]));
    assert(frame_widgets(c, under).contains(t[3]));
    assert(frame_widgets(c, under).contains(t[4]));
}

/// A switch of the settings.
pub open spec fn switch_part(under: Seq<Region>, row: usize, on: bool) -> Part {
    Part::SettingsSwitch { row, on, hovered: under.contains(Region::SettingsRow(row)) }
}

/// The settings show each switch as it stands.
pub proof fn the_settings_show_their_switches(c: UiCtx, under: Seq<Region>)
    requires
        !c.focused,
        c.menu == Some(MenuKind::Settings),
    ensures
        says(c, under, switch_part(under, 0, c.show_titles), "Show titles"@),
        says(c, under, switch_part(under, 1, c.gif_anim), "Animate GIFs on the wall"@),
        says(c, under, switch_part(under, 2, c.reflections), "Reflections"@),
        says(c, under, switch_part(under, 3, c.show_mem), "Memory usage"@),
{
    let t = settings_dialog(c, under);
    assert(t[4] == setting_row(c, under, 0)[0]);
    assert(t[6] == setting_row(c, under, 1)[0]);
    assert(t[8] == setting_row(c, under, 2)[0]);
    assert(t[10] == setting_row(c, under, 3)[0]);
    assert(t.contains(t[4]) && t.contains(t[6]) && t.contains(t[8]) && t.contains(t[10]));
    lemma_bar(c, under, t[4]);
    lemma_bar(c, under, t[6]);
    lemma_bar(c, under, t[8]);
    lemma_bar(c, under, t[10]);
}

/// The date filter marks the date that it goes by, and shows both bounds: a hint while one is empty
/// and idle, and else its text.
pub proof fn the_date_filter_shows_its_bounds(c: UiCtx, under: Seq<Region>)
    requires
        !c.focused,
        c.menu == Some(MenuKind::Dates),
    ensures
        says(c, under, Part::DatesTab { created: false, on: !c.date_created }, "Modified"@),
        says(c, under, Part::DatesTab { created: true, on: c.date_created }, "Created"@),
        says(c, under, Part::DatesField { which: 1, active: c.date_active == 1 }, ""@),
        says(c, under, Part::DatesField { which: 2, active: c.date_active == 2 }, ""@),
        c.date_from@.len() == 0 && c.date_active != 1 ==> says(
            c,
            under,
            Part::DatesHint { which: 1 },
            "YYYY-MM-DD"@,
        ),
        c.date_to@.len() == 0 && c.date_active != 2 ==> says(
            c,
            under,
            Part::DatesHint { which: 2 },
            "YYYY-MM-DD"@,
        ),
        c.date_active != 1 && c.date_from@.len() > 0 ==> says(
            c,
            under,
            Part::DatesText { which: 1 },
            c.date_from@,
        ),
        c.date_active != 2 && c.date_to@.len() > 0 ==> says(
            c,
            under,
            Part::DatesText { which: 2 },
            c.date_to@,
        ),
        c.date_active == 1 ==> says(
            c,
            under,
            Part::DatesText { which: 1 },
            with_caret(c.date_from@, c.caret as int, c.caret_on),
        ),
        c.date_active == 2 ==> says(
            c,
            under,
            Part::DatesText { which: 2 },
            with_caret(c.date_to@, c.caret as int, c.caret_on),
        ),
{
    let t = dates_panel(c);
    let f = date_field(c, 1, "From"@, c.date_from@);
    let g = date_field(c, 2, "To"@, c.date_to@);
    assert(t[6] == f[1] && t[7] == f[2] && t[9] == g[1] && t[10] == g[2]);
    assert(t.contains(t[3]) && t.contains(t[4]) && t.contains(t[6]) && t.contains(t[7])
        && t.contains(t[9]) && t.contains(t[10]));
    lemma_bar(c, under, t[3]);
    lemma_bar(c, under, t[4]);
    lemma_bar(c, under, t[6]);
    lemma_bar(c, under, t[7]);
    lemma_bar(c, under, t[9]);
    lemma_bar(c, under, t[10]);
}

/// An icon of the controls.
pub open spec fn control(under: Seq<Region>, r: Region, icon: Icon, lit: bool) -> Part {
    Part::VideoIcon { region: r, icon, lit, hovered: under.contains(r) }
}

/// The controls of what plays show what a click would do, how far it is, and which tracks are on.
pub proof fn the_controls_show_what_plays(c: UiCtx, v: VideoCtx, under: Seq<Region>)
    requires
        c.video == Some(v),
        v.visible,
    ensures
        says(
            c,
            under,
            control(
                under,
                Region::VideoPlay,
                if v.paused {
                    Icon::Play
                } else {
                    Icon::Pause
                },
                true,
            ),
            ""@,
        ),
        says(
            c,
            under,
            Part::VideoTime,
            time_text(v.pos as int) + " / "@ + time_text(v.dur as int),
        ),
        says(c, under, control(under, Region::VideoBack, Icon::Back10, true), ""@),
        says(c, under, control(under, Region::VideoForward, Icon::Fwd10, true), ""@),
        says(
            c,
            under,
            control(
                under,
                Region::VideoSubs,
                Icon::Cc,
                v.sid > 0 || v.track_menu == Some(TrackMenu::Sub),
            ),
            ""@,
        ),
        says(
            c,
            under,
            control(
                under,
                Region::VideoAudio,
                Icon::Audio,
                v.aid > 0 || v.track_menu == Some(TrackMenu::Audio),
            ),
            ""@,
        ),
        says(
            c,
            under,
            control(
                under,
                Region::VideoFullscreen,
                if c.fullscreen {
                    Icon::FullscreenExit
                } else {
                    Icon::Fullscreen
                },
                true,
            ),
            ""@,
        ),
        v.timed && under.contains(Region::VideoSeekHover) ==> says(
            c,
            under,
            Part::SeekTip,
            time_text(v.hover_time as int),
        ),
{
    let t = video_bar(v, c.fullscreen, under);
    let n = t.len();
    assert forall|k: int| 0 <= k < n implies frame_widgets(c, under).contains(#[trigger] t[k]) by {
        assert(t.contains(t[k]));
        lemma_seq_concat_contains_all_elements(t, track_menu(v, under), t[k]);
        lemma_parts(c, under, t[k]);
    }
    assert(frame_widgets(c, under).contains(t[1]));
    assert(frame_widgets(c, under).contains(t[3]));
    assert(frame_widgets(c, under).contains(t[5]));
    assert(frame_widgets(c, under).contains(t[n - 5]));
    assert(frame_widgets(c, under).contains(t[n - 4]));
    assert(frame_widgets(c, under).contains(t[n - 3]));
    assert(frame_widgets(c, under).contains(t[n - 2]));
    assert(frame_widgets(c, under).contains(t[n - 1]));
}

/// A row of the open track menu.
pub open spec fn menu_track(under: Seq<Region>, row: usize, selected: bool) -> Part {
    Part::TrackRow { row, selected, hovered: under.contains(Region::TrackRow(row)) }
}

/// A track menu shows "Off" first, marked where no track plays, and then each track by its label,
/// marked where it plays; a label of more than thirty characters is cut.
pub proof fn track_menus_mark_what_plays(c: UiCtx, v: VideoCtx, under: Seq<Region>, i: usize)
    requires
        c.video == Some(v),
        v.visible,
        v.track_menu is Some,
        i < usize::MAX,
    ensures
        v.track_menu == Some(TrackMenu::Audio) ==> {
            &&& says(c, under, menu_track(under, 0, v.aid <= 0), "Off"@)
            &&& i < v.audio_tracks@.len() ==> says(
                c,
                under,
                menu_track(under, (i + 1) as usize, v.audio_tracks@[i as int].selected),
                if v.audio_tracks@[i as int].label@.len() <= 30 {
                    v.audio_tracks@[i as int].label@
                } else {
                    v.audio_tracks@[i as int].label@.take(29).push('\u{2026}')
                },
            )
        },
        v.track_menu == Some(TrackMenu::Sub) ==> {
            &&& says(c, under, menu_track(under, 0, v.sid <= 0), "Off"@)
            &&& i < v.sub_tracks@.len() ==> says(
                c,
                under,
                menu_track(under, (i + 1) as usize, v.sub_tracks@[i as int].selected),
                if v.sub_tracks@[i as int].label@.len() <= 30 {
                    v.sub_tracks@[i as int].label@
                } else {
                    v.sub_tracks@[i as int].label@.take(29).push('\u{2026}')
                },
            )
        },
{
    let t = track_menu(v, under);
    let tracks = tracks_of(v, v.track_menu->0);
    assert forall|k: int| 0 <= k < t.len() implies frame_widgets(c, under).contains(
        #[trigger] t[k],
    ) by {
        assert(t.contains(t[k]));
        lemma_seq_concat_contains_all_elements(video_bar(v, c.fullscreen, under), t, t[k]);
        lemma_parts(c, under, t[k]);
    }
    assert(frame_widgets(c, under).contains(t[1]));
    if i < tracks.len() {
        assert(frame_widgets(c, under).contains(t[i + 2]));
        assert(t[i + 2].0 == menu_track(under, (i + 1) as usize, tracks[i as int].selected));
    }
}

/// The info card and the buttons of an open item show unless the controls of what plays are hidden.
pub proof fn open_items_show_their_card(c: UiCtx, under: Seq<Region>)
    ensures
        ({
            let hidden = c.video matches Some(v) && !v.visible;
            let above_video = c.video is Some;
            &&& c.info is Some && !hidden ==> says(
                c,
                under,
                Part::InfoLine { line: 0, above_video },
                c.info->0.title@,
            ) && says(c, under, Part::InfoLine { line: 1, above_video }, c.info->0.path@)
            &&& c.info is Some && !hidden && c.info->0.meta@.len() > 0 ==> says(
                c,
                under,
                Part::InfoLine { line: 2, above_video },
                c.info->0.meta@,
            )
            &&& c.focused && !hidden ==> says(
                c,
                under,
                Part::LightboxBack { hovered: under.contains(Region::LightboxBack) },
                "\u{2190} Back"@,
            ) && says(
                c,
                under,
                Part::LightboxInfo {
                    on: c.show_info,
                    hovered: under.contains(Region::LightboxInfo),
                },
                ""@,
            )
            &&& c.focused && hidden ==> frame_widgets(c, under).len() == 0
        }),
{
    let hidden = c.video matches Some(v) && !v.visible;
    assert(hidden == controls_hidden(c));
    if c.info is Some && !hidden {
        let t = info_card(c);
        assert(t.contains(t[1]) && t.contains(t[2]));
        lemma_parts(c, under, t[1]);
        lemma_parts(c, under, t[2]);
        if c.info->0.meta@.len() > 0 {
            assert(t.contains(t[3]));
            lemma_parts(c, under, t[3]);
        }
    }
    if c.focused && !hidden {
        let t = lightbox_widgets(c, under);
        assert(t.contains(t[0]) && t.contains(t[1]));
        lemma_parts(c, under, t[0]);
        lemma_parts(c, under, t[1]);
    }
}

/// Whether what a part shows is so: buttons, switches, rows and marks stand as the state has them,
/// and what shows only at times shows at such a time.
#[verifier::opaque]
pub open spec fn is_so(c: UiCtx, under: Seq<Region>, part: Part, text: Seq<char>) -> bool {
    let dated = c.date_from@.len() > 0 || c.date_to@.len() > 0;
    let hidden = c.video matches Some(v) && !v.visible;
    match part {
        Part::Button { region, on, hovered } => {
            &&& !c.focused && hovered == under.contains(region)
            &&& on == match region {
                Region::BarOpen => c.menu == Some(MenuKind::Open),
                Region::BarSort => c.menu == Some(MenuKind::Sort),
                Region::BarFilter => c.menu == Some(MenuKind::Filter),
                Region::BarSettings => c.menu == Some(MenuKind::Settings),
                Region::BarDates => c.menu == Some(MenuKind::Dates) || dated,
                Region::BarSlideshow => c.slideshow,
                _ => false,
            }
        },
        Part::SearchHint => c.search@.len() == 0 && !c.search_active,
        Part::SearchClear => c.search@.len() > 0,
        Part::Count => c.total > 0,
        Part::LoadingDot => c.total > 0 && c.inflight > 0,
        Part::Memory => c.mem_mb is Some,
        Part::SettingsSwitch { row, on, hovered } => {
            &&& c.menu == Some(MenuKind::Settings) && row < 4
            &&& hovered == under.contains(Region::SettingsRow(row))
            &&& row == 0 ==> on == c.show_titles
            &&& row == 1 ==> on == c.gif_anim
            &&& row == 2 ==> on == c.reflections
            &&& row == 3 ==> on == c.show_mem
        },
        Part::DatesTab { created, on } => c.menu == Some(MenuKind::Dates) && on == (created
            == c.date_created),
        Part::DatesField { which, active } => c.menu == Some(MenuKind::Dates) && active == (which
            == c.date_active),
        Part::DatesHint { which } => which != c.date_active && (which == 1 ==> c.date_from@.len()
            == 0) && (which == 2 ==> c.date_to@.len() == 0),
        Part::OpenButton { region, hovered } => c.menu == Some(MenuKind::Open) && hovered
            == under.contains(region),
        Part::MenuRow { row, current, hovered } => {
            &&& hovered == under.contains(Region::MenuRow(row))
            &&& c.menu == Some(MenuKind::Sort) || c.menu == Some(MenuKind::Filter)
            &&& c.menu == Some(MenuKind::Sort) ==> row < 7 && (current <==> c.sort == match row {
                0 => SortMode::Default,
                1 => SortMode::NameAsc,
                2 => SortMode::NameDesc,
                3 => SortMode::ModifiedNew,
                4 => SortMode::ModifiedOld,
                5 => SortMode::CreatedNew,
                _ => SortMode::CreatedOld,
            })
            &&& c.menu == Some(MenuKind::Filter) ==> row < 4 && (current <==> c.filter
                == match row {
                0 => Filter::All,
                1 => Filter::Photos,
                2 => Filter::Videos,
                _ => Filter::Audio,
            })
        },
        Part::InfoPanel { above_video, .. } | Part::InfoLine { above_video, .. } => c.info is Some
            && !hidden && above_video == (c.video is Some),
        Part::VideoIcon { region, icon, lit, hovered } => {
            &&& c.video is Some && !hidden && hovered == under.contains(region)
            &&& region == Region::VideoPlay ==> (icon == Icon::Play <==> c.video->0.paused)
            &&& region == Region::VideoFullscreen ==> (icon == Icon::FullscreenExit
                <==> c.fullscreen)
            &&& region == Region::VideoAudio ==> (lit <==> c.video->0.aid > 0
                || c.video->0.track_menu == Some(TrackMenu::Audio))
            &&& region == Region::VideoSubs ==> (lit <==> c.video->0.sid > 0
                || c.video->0.track_menu == Some(TrackMenu::Sub))
        },
        Part::SeekTip => c.video is Some && c.video->0.timed && under.contains(
            Region::VideoSeekHover,
        ) && text == time_text(c.video->0.hover_time as int),
        Part::TrackPanel { menu, .. } => c.video is Some && c.video->0.track_menu == Some(menu),
        Part::TrackRow { row, selected, hovered } => {
            &&& c.video is Some && c.video->0.track_menu is Some && !hidden
            &&& hovered == under.contains(Region::TrackRow(row))
            &&& row == 0 && c.video->0.track_menu == Some(TrackMenu::Audio) ==> (selected
                <==> c.video->0.aid <= 0)
            &&& row == 0 && c.video->0.track_menu == Some(TrackMenu::Sub) ==> (selected
                <==> c.video->0.sid <= 0)
        },
        Part::LightboxBack { hovered } => c.focused && !hidden && hovered == under.contains(
            Region::LightboxBack,
        ),
        Part::LightboxInfo { on, hovered } => c.focused && !hidden && on == c.show_info && hovered
            == under.contains(Region::LightboxInfo),
        _ => true,
    }
}

/// Whatever these parts show is so.
spec fn all_so(c: UiCtx, under: Seq<Region>, t: Seq<(Part, Seq<char>)>) -> bool {
    forall|k: int| 0 <= k < t.len() ==> is_so(c, under, (#[trigger] t[k]).0, t[k].1)
}

proof fn lemma_bar_is_so(c: UiCtx, under: Seq<Region>)
    requires
        !c.focused,
    ensures
        all_so(c, under, bar_left(c, under)),
        all_so(c, under, bar_right(c, under)),
        all_so(c, under, search_texts(c)),
        all_so(c, under, readouts(c)),
{
    reveal(is_so);
}

#[verifier::rlimit(60)]
proof fn lemma_menu_is_so(c: UiCtx, under: Seq<Region>)
    ensures
        all_so(c, under, open_menu(c, under)),
{
    reveal(is_so);
    let t = open_menu(c, under);
    if c.menu == Some(MenuKind::Settings) {
        let (r0, r1, r2, r3) = (
            setting_row(c, under, 0),
            setting_row(c, under, 1),
            setting_row(c, under, 2),
            setting_row(c, under, 3),
        );
        assert forall|k: int| 0 <= k < t.len() implies is_so(
            c,
            under,
            (#[trigger] t[k]).0,
            t[k].1,
        ) by {
            if k >= 10 {
                assert(t[k] == r3[k - 10]);
            } else if k >= 8 {
                assert(t[k] == r2[k - 8]);
            } else if k >= 6 {
                assert(t[k] == r1[k - 6]);
            } else if k >= 4 {
                assert(t[k] == r0[k - 4]);
            }
        }
    } else if c.menu == Some(MenuKind::Dates) {
        let f = date_field(c, 1, "From"@, c.date_from@);
        let g = date_field(c, 2, "To"@, c.date_to@);
        assert forall|k: int| 0 <= k < t.len() implies is_so(
            c,
            under,
            (#[trigger] t[k]).0,
            t[k].1,
        ) by {
            if 5 <= k < 8 {
                assert(t[k] == f[k - 5]);
            } else if 8 <= k < 11 {
                assert(t[k] == g[k - 8]);
            }
        }
    } else if c.menu == Some(MenuKind::Sort) {
        assert forall|k: int| 0 <= k < t.len() implies is_so(
            c,
            under,
            (#[trigger] t[k]).0,
            t[k].1,
        ) by {
            if k >= 1 {
                assert(t[k] == menu_row(
                    under,
                    k - 1,
                    SortMode::listed()[k - 1] == c.sort,
                    SortMode::listed()[k - 1].text(),
                ));
            }
        }
    } else if c.menu == Some(MenuKind::Filter) {
        assert forall|k: int| 0 <= k < t.len() implies is_so(
            c,
            under,
            (#[trigger] t[k]).0,
            t[k].1,
        ) by {
            if k >= 1 {
                assert(t[k] == menu_row(
                    under,
                    k - 1,
                    Filter::listed()[k - 1] == c.filter,
                    Filter::listed()[k - 1].text(),
                ));
            }
        }
    }
}

proof fn lemma_media_is_so(c: UiCtx, under: Seq<Region>)
    requires
        c.video matches Some(v) ==> v.audio_tracks@.len() < usize::MAX && v.sub_tracks@.len()
            < usize::MAX,
    ensures
        all_so(c, under, info_card(c)),
        all_so(c, under, video_widgets(c, under)),
        all_so(c, under, lightbox_widgets(c, under)),
{
    reveal(is_so);
    let b = video_widgets(c, under);
    if let Some(v) = c.video {
        if v.visible {
            let bar = video_bar(v, c.fullscreen, under);
            let menu = track_menu(v, under);
            assert forall|k: int| 0 <= k < b.len() implies is_so(
                c,
                under,
                (#[trigger] b[k]).0,
                b[k].1,
            ) by {
                if k < bar.len() {
                    assert(b[k] == bar[k]);
                } else {
                    let j = k - bar.len();
                    assert(b[k] == menu[j]);
                    if j >= 2 {
                        let tracks = tracks_of(v, v.track_menu->0);
                        assert(menu[j].0 == menu_track(
                            under,
                            (j - 1) as usize,
                            tracks[j - 2].selected,
                        ));
                    }
                }
            }
        }
    }
}

proof fn lemma_one_is_so(
    c: UiCtx,
    under: Seq<Region>,
    t: Seq<(Part, Seq<char>)>,
    x: (Part, Seq<char>),
)
    requires
        all_so(c, under, t),
    ensures
        t.contains(x) ==> is_so(c, under, x.0, x.1),
{
    if t.contains(x) {
        assert(t[t.index_of(x)] == x);
    }
}

proof fn lemma_top_is_so(c: UiCtx, under: Seq<Region>, x: (Part, Seq<char>))
    requires
        top_bar(c, under).contains(x),
    ensures
        is_so(c, under, x.0, x.1),
{
    lemma_bar_is_so(c, under);
    lemma_menu_is_so(c, under);
    let (a, b, d, e, f) = (
        bar_left(c, under),
        bar_right(c, under),
        search_texts(c),
        readouts(c),
        open_menu(c, under),
    );
    lemma_one_is_so(c, under, a, x);
    lemma_one_is_so(c, under, b, x);
    lemma_one_is_so(c, under, d, x);
    lemma_one_is_so(c, under, e, x);
    lemma_one_is_so(c, under, f, x);
    lemma_seq_concat_contains_all_elements(a + b + d + e, f, x);
    lemma_seq_concat_contains_all_elements(a + b + d, e, x);
    lemma_seq_concat_contains_all_elements(a + b, d, x);
    lemma_seq_concat_contains_all_elements(a, b, x);
}

/// Nothing false is shown: whatever part a frame shows stands as the state has it.
pub proof fn nothing_false_is_shown(c: UiCtx, under: Seq<Region>, k: int)
    requires
        0 <= k < frame_widgets(c, under).len(),
        c.video matches Some(v) ==> v.audio_tracks@.len() < usize::MAX && v.sub_tracks@.len()
            < usize::MAX,
    ensures
        is_so(c, under, frame_widgets(c, under)[k].0, frame_widgets(c, under)[k].1),
{
    let x = frame_widgets(c, under)[k];
    assert(frame_widgets(c, under).contains(x));
    lemma_parts(c, under, x);
    lemma_media_is_so(c, under);
    lemma_one_is_so(c, under, info_card(c), x);
    lemma_one_is_so(c, under, video_widgets(c, under), x);
    lemma_one_is_so(c, under, lightbox_widgets(c, under), x);
    if top_bar(c, under).contains(x) {
        lemma_top_is_so(c, under, x);
    }
}

/// The open dialog offers files, a folder and a manifest.
pub proof fn the_open_dialog_offers_its_buttons(c: UiCtx, under: Seq<Region>)
    requires
        !c.focused,
        c.menu == Some(MenuKind::Open),
    ensures
        says(
            c,
            under,
            Part::OpenButton {
                region: Region::OpenFiles,
                hovered: under.contains(Region::OpenFiles),
            },
            "Choose files\u{2026}"@,
        ),
        says(
            c,
            under,
            Part::OpenButton {
                region: Region::OpenFolder,
                hovered: under.contains(Region::OpenFolder),
            },
            "Choose folder\u{2026}"@,
        ),
        says(
            c,
            under,
            Part::OpenButton {
                region: Region::OpenJson,
                hovered: under.contains(Region::OpenJson),
            },
            "From JSON\u{2026}"@,
        ),
{
    let t = open_dialog(under);
    assert(t.contains(t[7]) && t.contains(t[8]) && t.contains(t[9]));
    lemma_bar(c, under, t[7]);
    lemma_bar(c, under, t[8]);
    lemma_bar(c, under, t[9]);
}

/// A request is handed out as what it asks for, the picker before fullscreen, and a picker that
/// opens is a scan that begins.
pub proof fn requests_are_handed_out(g: Flags)
    ensures
        ({
            let e = asked_effects(g);
            let h = asked_flags(g);
            &&& e.contains(Effect::PickFiles) <==> g.open_request == Some(OpenKind::Files)
            &&& e.contains(Effect::PickFolder) <==> g.open_request == Some(OpenKind::Folder)
            &&& e.contains(Effect::PickJson) <==> g.open_request == Some(OpenKind::Json)
            &&& e.contains(Effect::ToggleFullscreen) <==> g.fullscreen_requested
            &&& e.len() == (if g.open_request is Some {
                1int
            } else {
                0
            }) + if g.fullscreen_requested {
                1int
            } else {
                0
            }
            &&& g.open_request is Some && g.fullscreen_requested ==> e[1]
                == Effect::ToggleFullscreen
            &&& g.open_request is Some ==> h.scanning && h.scan_count == 0
            &&& g.open_request is None ==> h.scanning == g.scanning && h.scan_count == g.scan_count
            &&& h.open_request is None && !h.fullscreen_requested
        }),
{
    let e = asked_effects(g);
    if g.open_request is Some {
        assert(e.contains(e[0]));
    }
    if g.fullscreen_requested {
        assert(e.contains(e[e.len() - 1]));
    }
}

/// A report of a scan sets its count; a library and a dismissed picker end it, and nothing else of
/// the settings changes.
pub proof fn reports_end_a_scan(g: Flags, msg: LoadMsg)
    ensures
        ({
            let h = loaded_flags(g, msg);
            &&& msg matches LoadMsg::ScanProgress(n) ==> h == (Flags { scan_count: n, ..g })
            &&& !(msg is ScanProgress) ==> h == (Flags { scanning: false, ..g })
        }),
{
}

/// A dropped folder is opened itself, and of a dropped file the folder that it is in.
pub proof fn dropped_files_open_their_folder(path: Seq<u8>)
    ensures
        dropped_folder(path, true) == Some(path),
        dropped_folder(path, false) == parent_bytes(path),
{
}

} // verus!
