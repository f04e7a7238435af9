//! What clicks and keys promise: each does its own thing, and nothing else.

use crate::components::{
    bar_left_table, bar_right_table, dates_table, filter_table, hit, lightbox_table, open_table,
    pick, settings_table, sort_table, track_table, tracks_of, video_table, Filter, MenuKind,
    Pointer, Region, SortMode, TrackMenu, UiAction, UiCtx, VideoCtx,
};
use crate::edit::{goes_in, spliced, taken, typeable};
use crate::input::{
    edited_fields, edited_flags, edits, keyed_effects, keyed_flags, keyed_focus, EditKey, Key,
};
use crate::media::{Kind, OpenKind};
use crate::pointer::{
    moved_effects, moved_flags, press_meaning, pressed_effects, pressed_fields, pressed_flags,
    pressed_focus, released_effects, released_flags, released_focus, Press,
};
use crate::state::{
    acted_effects, acted_fields, acted_flags, acted_focus, typed_fields, DragMode, Effect,
    FieldsView, Flags, State,
};
use crate::video::Command;
use vstd::prelude::*;

verus! {

/// The settings `h` that an action leaves of the settings `g`: each setting is what the action
/// chooses, where it chooses that setting, and else what it was.
pub open spec fn settings_follow(g: Flags, h: Flags, a: UiAction) -> bool {
    &&& h.filter_kind == match a {
        UiAction::SetFilter(f) => f,
        _ => g.filter_kind,
    }
    &&& h.sort_mode == match a {
        UiAction::SetSort(m) => m,
        _ => g.sort_mode,
    }
    &&& h.date_created == match a {
        UiAction::SetDateBy(created) => created,
        _ => g.date_created,
    }
    &&& h.gif_anim != g.gif_anim <==> a == UiAction::ToggleGifAnim
    &&& h.reflections != g.reflections <==> a == UiAction::ToggleReflections
    &&& h.show_titles != g.show_titles <==> a == UiAction::ToggleShowTitles
    &&& h.show_mem != g.show_mem <==> a == UiAction::ToggleMem
    &&& h.show_info != g.show_info <==> a == UiAction::ToggleInfo
    &&& h.slideshow != g.slideshow <==> a == UiAction::ToggleSlideshow
}

/// The menus that an action leaves open: its own menu opens, or closes where it was open; a choice
/// closes the menu that it was made in.
pub open spec fn menus_follow(g: Flags, h: Flags, a: UiAction) -> bool {
    &&& match a {
        UiAction::ToggleMenu(m) => if g.open_menu == Some(m) {
            h.open_menu is None
        } else {
            h.open_menu == Some(m)
        },
        UiAction::OpenFiles | UiAction::OpenFolder | UiAction::OpenJson
        | UiAction::ToggleSlideshow | UiAction::CloseMenu | UiAction::SetSort(_)
        | UiAction::SetFilter(_) | UiAction::ActivateSearch => h.open_menu is None,
        _ => h.open_menu == g.open_menu,
    }
    &&& match a {
        UiAction::ToggleTrackMenu(m) => if g.track_menu == Some(m) {
            h.track_menu is None
        } else {
            h.track_menu == Some(m)
        },
        UiAction::SetAudio(_) | UiAction::SetSub(_) => h.track_menu is None,
        _ => h.track_menu == g.track_menu,
    }
}

/// The requests that an action leaves: a picker, fullscreen, and a new view where what is asked
/// for has changed.
pub open spec fn requests_follow(g: Flags, h: Flags, a: UiAction, now: u64) -> bool {
    &&& h.open_request == match a {
        UiAction::OpenFiles => Some(OpenKind::Files),
        UiAction::OpenFolder => Some(OpenKind::Folder),
        UiAction::OpenJson => Some(OpenKind::Json),
        _ => g.open_request,
    }
    &&& h.fullscreen_requested == (g.fullscreen_requested || a == UiAction::Fullscreen)
    &&& h.view_dirty <==> g.view_dirty || h.filter_kind != g.filter_kind || a
        == UiAction::ClearSearch || a == UiAction::ClearDates || a is SetDateBy
    &&& h.slideshow_t == if a == UiAction::ToggleSlideshow {
        now
    } else {
        g.slideshow_t
    }
    &&& h.last_activity == g.last_activity
    &&& h.drag_mode == g.drag_mode
    &&& h.drag_moved == g.drag_moved
    &&& h.input_dir == g.input_dir
    &&& h.wall_scroll_held == g.wall_scroll_held
    &&& h.seek_preview == g.seek_preview
    &&& h.scanning == g.scanning
    &&& h.scan_count == g.scan_count
    &&& h.mem_log == g.mem_log
}

#[verifier::rlimit(60)]
proof fn lemma_settings_follow(g: Flags, a: UiAction, now: u64)
    ensures
        settings_follow(g, acted_flags(g, a, now), a),
{
}

#[verifier::rlimit(60)]
proof fn lemma_menus_follow(g: Flags, a: UiAction, now: u64)
    ensures
        menus_follow(g, acted_flags(g, a, now), a),
{
}

#[verifier::rlimit(60)]
proof fn lemma_requests_follow(g: Flags, a: UiAction, now: u64)
    ensures
        requests_follow(g, acted_flags(g, a, now), a, now),
{
}

/// Every action leaves its own setting at the chosen value, its own menu and request as asked for,
/// and everything else alone.
pub proof fn actions_do_what_they_say(g: Flags, a: UiAction, now: u64)
    ensures
        settings_follow(g, acted_flags(g, a, now), a),
        menus_follow(g, acted_flags(g, a, now), a),
        requests_follow(g, acted_flags(g, a, now), a, now),
{
    lemma_settings_follow(g, a, now);
    lemma_menus_follow(g, a, now);
    lemma_requests_follow(g, a, now);
}

/// The text fields that an action leaves: clearing empties, a field that is clicked takes what is
/// typed from then on, alone, and everything else is kept.
pub open spec fn fields_follow(f: FieldsView, h: FieldsView, a: UiAction, caret: usize) -> bool {
    &&& a == UiAction::ClearSearch ==> h.search.len() == 0
    &&& a != UiAction::ClearSearch ==> h.search == f.search
    &&& a == UiAction::ClearDates ==> h.date_from.len() == 0 && h.date_to.len() == 0
    &&& a != UiAction::ClearDates ==> h.date_from == f.date_from && h.date_to == f.date_to
    &&& h.search_active <==> a == UiAction::ActivateSearch || f.search_active && !(a is ToggleMenu)
        && !(a is ActivateDate)
    &&& h.date_active == match a {
        UiAction::ActivateDate(which) => which,
        UiAction::ToggleMenu(_) | UiAction::CloseMenu | UiAction::ActivateSearch
        | UiAction::ClearDates => 0,
        _ => f.date_active,
    }
    &&& match a {
        UiAction::ActivateSearch => h.caret <= caret && h.caret <= f.search.len() && (h.caret
            == caret || h.caret == f.search.len()),
        UiAction::ActivateDate(1) => h.caret <= caret && h.caret <= f.date_from.len() && (h.caret
            == caret || h.caret == f.date_from.len()),
        UiAction::ActivateDate(2) => h.caret <= caret && h.caret <= f.date_to.len() && (h.caret
            == caret || h.caret == f.date_to.len()),
        UiAction::ActivateDate(_) => true,
        _ => h.caret == f.caret,
    }
}

/// Every action leaves the text fields as it says.
pub proof fn actions_leave_the_fields_in_order(f: FieldsView, a: UiAction, caret: usize)
    ensures
        fields_follow(f, acted_fields(f, a, caret), a, caret),
{
}

/// What an action opens and closes: going back closes the open item, a slideshow that starts on
/// the wall opens its first item, and nothing else opens or closes one.
pub proof fn actions_open_and_close(s: State, a: UiAction)
    ensures
        ({
            let starts = a == UiAction::ToggleSlideshow && !s.flags.slideshow
                && s.lightbox.focus is None && s.wall.shown@.len() > 0;
            &&& a == UiAction::Back ==> acted_focus(s, a) is None
            &&& starts ==> acted_focus(s, a) == Some(0usize)
            &&& a != UiAction::Back && !starts ==> acted_focus(s, a) == s.lightbox.focus
        }),
{
}

/// What an action leaves to do, at most one thing: what it asks of the player, the wall put on the
/// column of the item that it closes, the view found anew where the order changes, or a line in
/// the memory log where that is switched on.
pub proof fn actions_reach_the_player(s: State, a: UiAction)
    ensures
        ({
            let e = acted_effects(s, a);
            let starts = a == UiAction::ToggleSlideshow && !s.flags.slideshow
                && s.lightbox.focus is None && s.wall.shown@.len() > 0;
            &&& e.len() <= 1
            &&& a == UiAction::VideoPause ==> e == seq![Effect::Player(Command::CyclePause)]
            &&& a matches UiAction::VideoSeekRel(n) ==> e == seq![
                Effect::Player(Command::Seek(n)),
            ]
            &&& a matches UiAction::SetAudio(id) ==> e == seq![
                Effect::Player(Command::SetAudio(id)),
            ]
            &&& a matches UiAction::SetSub(id) ==> e == seq![Effect::Player(Command::SetSubs(id))]
            &&& e.len() == 1 && e[0] is Player ==> a is VideoPause || a is VideoSeekRel || a
                is SetAudio || a is SetSub
            &&& a matches UiAction::VideoSeekFrac(x) ==> e == seq![Effect::SeekFrac(x)]
            &&& a matches UiAction::VideoVolume(x) ==> e == seq![Effect::Volume(x)]
            &&& e.len() == 1 && e[0] == Effect::Rebuild <==> (a matches UiAction::SetSort(m)
                && m != s.flags.sort_mode)
            &&& e.len() == 1 && e[0] == Effect::LogMemory <==> a == UiAction::ToggleMem
                && !s.flags.show_mem
            &&& e.len() == 1 && e[0] == Effect::ResetLightbox <==> starts
            &&& a == UiAction::Back && s.lightbox.focus is Some ==> e == seq![
                Effect::Recenter((s.lightbox.focus->0 / 3) as usize),
            ]
            &&& a == UiAction::Back && s.lightbox.focus is None ==> e.len() == 0
        }),
{
}

/// What lies behind buttons and rows without being one: strips, panels and the picture.
pub open spec fn is_ground(r: Region) -> bool {
    match r {
        Region::TopStrip | Region::SettingsPanel | Region::OpenPanel | Region::DatesPanel
        | Region::TrackPanel | Region::VideoBar | Region::VideoSeekHover | Region::BelowVideoBar
        | Region::ArrowPrev | Region::ArrowNext | Region::ScrubBand | Region::OpenPicture => true,
        _ => false,
    }
}

/// The pointer is on one button or row, and on no other.
pub open spec fn points_at(under: Seq<Region>, r: Region) -> bool {
    &&& under.contains(r)
    &&& forall|x: Region| #[trigger] under.contains(x) ==> x == r || is_ground(x)
}

proof fn lemma_pick_first(table: Seq<(Region, UiAction)>, under: Seq<Region>, k: int)
    requires
        0 <= k < table.len(),
        under.contains(table[k].0),
        forall|j: int| 0 <= j < k ==> !under.contains((#[trigger] table[j]).0),
    ensures
        pick(table, under) == Some(table[k].1),
    decreases table.len(),
{
    if k > 0 {
        let rest = table.drop_first();
        assert(!under.contains(table[0].0));
        assert forall|j: int| 0 <= j < k - 1 implies !under.contains((#[trigger] rest[j]).0) by {
            assert(rest[j] == table[j + 1]);
        }
        assert(rest[k - 1] == table[k]);
        lemma_pick_first(rest, under, k - 1);
    }
}

proof fn lemma_pick_none(table: Seq<(Region, UiAction)>, under: Seq<Region>)
    requires
        forall|j: int| 0 <= j < table.len() ==> !under.contains((#[trigger] table[j]).0),
    ensures
        pick(table, under) is None,
    decreases table.len(),
{
    if table.len() > 0 {
        let rest = table.drop_first();
        assert(!under.contains(table[0].0));
        assert forall|j: int| 0 <= j < rest.len() implies !under.contains(
            (#[trigger] rest[j]).0,
        ) by {
            assert(rest[j] == table[j + 1]);
        }
        lemma_pick_none(rest, under);
    }
}

proof fn lemma_pick_at(table: Seq<(Region, UiAction)>, under: Seq<Region>, k: int)
    requires
        0 <= k < table.len(),
        points_at(under, table[k].0),
        !is_ground(table[k].0),
        forall|j: int|
            0 <= j < k ==> (#[trigger] table[j]).0 != table[k].0 && !is_ground(table[j].0),
    ensures
        pick(table, under) == Some(table[k].1),
{
    lemma_pick_first(table, under, k);
}

/// No menu is open, nothing plays in sight, and the wall is shown.
pub open spec fn on_the_wall(c: UiCtx) -> bool {
    &&& c.menu is None
    &&& !c.focused
    &&& (c.video matches Some(v) ==> !v.visible)
}

/// Each button of the top bar does its own thing.
pub proof fn bar_buttons_do_their_own_thing(c: UiCtx, p: Pointer, r: Region)
    requires
        on_the_wall(c),
        points_at(p.under@, r),
    ensures
        r == Region::BarOpen ==> hit(c, p) == Some(UiAction::ToggleMenu(MenuKind::Open)),
        r == Region::BarSort ==> hit(c, p) == Some(UiAction::ToggleMenu(MenuKind::Sort)),
        r == Region::BarFilter ==> hit(c, p) == Some(UiAction::ToggleMenu(MenuKind::Filter)),
        r == Region::BarDates ==> hit(c, p) == Some(UiAction::ToggleMenu(MenuKind::Dates)),
        r == Region::BarSettings ==> hit(c, p) == Some(UiAction::ToggleMenu(MenuKind::Settings)),
        r == Region::BarSlideshow ==> hit(c, p) == Some(UiAction::ToggleSlideshow),
        r == Region::BarFullscreen ==> hit(c, p) == Some(UiAction::Fullscreen),
        r == Region::BarSearch ==> hit(c, p) == Some(UiAction::ActivateSearch),
{
    let under = p.under@;
    let left = bar_left_table();
    let right = bar_right_table();
    assert(left[0].0 == Region::BarOpen && left[1].0 == Region::BarSort && left[2].0
        == Region::BarFilter && left[3].0 == Region::BarDates);
    assert(right[0].0 == Region::BarSettings && right[1].0 == Region::BarSlideshow && right[2].0
        == Region::BarFullscreen);
    if r == Region::BarOpen {
        lemma_pick_at(left, under, 0);
    } else if r == Region::BarSort {
        lemma_pick_at(left, under, 1);
    } else if r == Region::BarFilter {
        lemma_pick_at(left, under, 2);
    } else if r == Region::BarDates {
        lemma_pick_at(left, under, 3);
    } else if r == Region::BarSettings {
        lemma_pick_none(left, under);
        lemma_pick_at(right, under, 0);
    } else if r == Region::BarSlideshow {
        lemma_pick_none(left, under);
        lemma_pick_at(right, under, 1);
    } else if r == Region::BarFullscreen {
        lemma_pick_none(left, under);
        lemma_pick_at(right, under, 2);
    } else if r == Region::BarSearch {
        lemma_pick_none(left, under);
    }
}

/// The mark in the search box clears what is searched for, where there is something to clear; the
/// rest of the box, and the mark of an empty one, takes what is typed.
pub proof fn the_clear_mark_clears(c: UiCtx, p: Pointer)
    requires
        on_the_wall(c),
        p.under@.contains(Region::BarSearch),
        p.under@.contains(Region::SearchClear),
        forall|x: Region| #[trigger]
            p.under@.contains(x) ==> x == Region::BarSearch || x == Region::SearchClear
                || is_ground(x),
    ensures
        c.search@.len() > 0 ==> hit(c, p) == Some(UiAction::ClearSearch),
        c.search@.len() == 0 ==> hit(c, p) == Some(UiAction::ActivateSearch),
{
    let left = bar_left_table();
    assert(left[0].0 == Region::BarOpen && left[1].0 == Region::BarSort && left[2].0
        == Region::BarFilter && left[3].0 == Region::BarDates);
    lemma_pick_none(left, p.under@);
}

/// Away from every button the wall has the click.
pub proof fn the_wall_has_the_other_clicks(c: UiCtx, p: Pointer)
    requires
        on_the_wall(c),
        forall|x: Region| #[trigger] p.under@.contains(x) ==> is_ground(x),
    ensures
        hit(c, p) is None,
{
    let left = bar_left_table();
    let right = bar_right_table();
    assert(left[0].0 == Region::BarOpen && left[1].0 == Region::BarSort && left[2].0
        == Region::BarFilter && left[3].0 == Region::BarDates);
    assert(right[0].0 == Region::BarSettings && right[1].0 == Region::BarSlideshow && right[2].0
        == Region::BarFullscreen);
    lemma_pick_none(left, p.under@);
    lemma_pick_none(right, p.under@);
}

/// Each row of the sort menu chooses its own order, and each row of the filter menu its own type.
pub proof fn menu_rows_choose_their_own(c: UiCtx, p: Pointer, i: usize)
    requires
        points_at(p.under@, Region::MenuRow(i)),
    ensures
        c.menu == Some(MenuKind::Sort) ==> {
            &&& i == 0 ==> hit(c, p) == Some(UiAction::SetSort(SortMode::Default))
            &&& i == 1 ==> hit(c, p) == Some(UiAction::SetSort(SortMode::NameAsc))
            &&& i == 2 ==> hit(c, p) == Some(UiAction::SetSort(SortMode::NameDesc))
            &&& i == 3 ==> hit(c, p) == Some(UiAction::SetSort(SortMode::ModifiedNew))
            &&& i == 4 ==> hit(c, p) == Some(UiAction::SetSort(SortMode::ModifiedOld))
            &&& i == 5 ==> hit(c, p) == Some(UiAction::SetSort(SortMode::CreatedNew))
            &&& i == 6 ==> hit(c, p) == Some(UiAction::SetSort(SortMode::CreatedOld))
        },
        c.menu == Some(MenuKind::Filter) ==> {
            &&& i == 0 ==> hit(c, p) == Some(UiAction::SetFilter(Filter::All))
            &&& i == 1 ==> hit(c, p) == Some(UiAction::SetFilter(Filter::Photos))
            &&& i == 2 ==> hit(c, p) == Some(UiAction::SetFilter(Filter::Videos))
            &&& i == 3 ==> hit(c, p) == Some(UiAction::SetFilter(Filter::Audio))
        },
{
    let under = p.under@;
    if c.menu == Some(MenuKind::Sort) && i < 7 {
        let table = sort_table();
        assert(table[i as int] == (
            Region::MenuRow(i),
            UiAction::SetSort(SortMode::listed()[i as int]),
        ));
        lemma_pick_at(table, under, i as int);
    }
    if c.menu == Some(MenuKind::Filter) && i < 4 {
        let table = filter_table();
        assert(table[i as int] == (
            Region::MenuRow(i),
            UiAction::SetFilter(Filter::listed()[i as int]),
        ));
        lemma_pick_at(table, under, i as int);
    }
}

/// Each part of the settings does its own thing, though the panel lies under it too.
pub proof fn settings_rows_switch_their_own(c: UiCtx, p: Pointer, r: Region)
    requires
        c.menu == Some(MenuKind::Settings),
        points_at(p.under@, r),
    ensures
        r == Region::SettingsClose ==> hit(c, p) == Some(UiAction::CloseMenu),
        r == Region::SettingsRow(0) ==> hit(c, p) == Some(UiAction::ToggleShowTitles),
        r == Region::SettingsRow(1) ==> hit(c, p) == Some(UiAction::ToggleGifAnim),
        r == Region::SettingsRow(2) ==> hit(c, p) == Some(UiAction::ToggleReflections),
        r == Region::SettingsRow(3) ==> hit(c, p) == Some(UiAction::ToggleMem),
{
    let under = p.under@;
    let t = settings_table();
    assert(t[0].0 == Region::SettingsClose && t[1].0 == Region::SettingsRow(0) && t[2].0
        == Region::SettingsRow(1) && t[3].0 == Region::SettingsRow(2) && t[4].0
        == Region::SettingsRow(3) && t[5].0 == Region::SettingsPanel);
    if r == Region::SettingsClose {
        lemma_pick_at(t, under, 0);
    } else if r == Region::SettingsRow(0) {
        lemma_pick_at(t, under, 1);
    } else if r == Region::SettingsRow(1) {
        lemma_pick_at(t, under, 2);
    } else if r == Region::SettingsRow(2) {
        lemma_pick_at(t, under, 3);
    } else if r == Region::SettingsRow(3) {
        lemma_pick_at(t, under, 4);
    }
}

/// Each part of the open dialog does its own thing; the drop zone asks for a folder.
pub proof fn open_buttons_ask_for_their_own(c: UiCtx, p: Pointer, r: Region)
    requires
        c.menu == Some(MenuKind::Open),
        points_at(p.under@, r),
    ensures
        r == Region::OpenClose ==> hit(c, p) == Some(UiAction::CloseMenu),
        r == Region::OpenFiles ==> hit(c, p) == Some(UiAction::OpenFiles),
        r == Region::OpenFolder ==> hit(c, p) == Some(UiAction::OpenFolder),
        r == Region::OpenJson ==> hit(c, p) == Some(UiAction::OpenJson),
        r == Region::OpenDrop ==> hit(c, p) == Some(UiAction::OpenFolder),
{
    let under = p.under@;
    let t = open_table();
    assert(t[0].0 == Region::OpenClose && t[1].0 == Region::OpenFiles && t[2].0
        == Region::OpenFolder && t[3].0 == Region::OpenJson && t[4].0 == Region::OpenDrop && t[5].0
        == Region::OpenPanel);
    if r == Region::OpenClose {
        lemma_pick_at(t, under, 0);
    } else if r == Region::OpenFiles {
        lemma_pick_at(t, under, 1);
    } else if r == Region::OpenFolder {
        lemma_pick_at(t, under, 2);
    } else if r == Region::OpenJson {
        lemma_pick_at(t, under, 3);
    } else if r == Region::OpenDrop {
        lemma_pick_at(t, under, 4);
    }
}

/// Each part of the date filter does its own thing.
pub proof fn date_buttons_do_their_own_thing(c: UiCtx, p: Pointer, r: Region)
    requires
        c.menu == Some(MenuKind::Dates),
        points_at(p.under@, r),
    ensures
        r == Region::DatesModified ==> hit(c, p) == Some(UiAction::SetDateBy(false)),
        r == Region::DatesCreated ==> hit(c, p) == Some(UiAction::SetDateBy(true)),
        r == Region::DatesFrom ==> hit(c, p) == Some(UiAction::ActivateDate(1)),
        r == Region::DatesTo ==> hit(c, p) == Some(UiAction::ActivateDate(2)),
        r == Region::DatesClear ==> hit(c, p) == Some(UiAction::ClearDates),
        r == Region::DatesDone ==> hit(c, p) == Some(UiAction::CloseMenu),
{
    let under = p.under@;
    let t = dates_table();
    assert(t[0].0 == Region::DatesModified && t[1].0 == Region::DatesCreated && t[2].0
        == Region::DatesFrom && t[3].0 == Region::DatesTo && t[4].0 == Region::DatesClear && t[5].0
        == Region::DatesDone && t[6].0 == Region::DatesPanel);
    if r == Region::DatesModified {
        lemma_pick_at(t, under, 0);
    } else if r == Region::DatesCreated {
        lemma_pick_at(t, under, 1);
    } else if r == Region::DatesFrom {
        lemma_pick_at(t, under, 2);
    } else if r == Region::DatesTo {
        lemma_pick_at(t, under, 3);
    } else if r == Region::DatesClear {
        lemma_pick_at(t, under, 4);
    } else if r == Region::DatesDone {
        lemma_pick_at(t, under, 5);
    }
}

/// Whether a region belongs to the open menu.
pub open spec fn belongs_to(r: Region, kind: MenuKind) -> bool {
    match kind {
        MenuKind::Open => r is OpenClose || r is OpenFiles || r is OpenFolder || r is OpenJson || r
            is OpenDrop || r is OpenPanel,
        MenuKind::Settings => r is SettingsClose || r is SettingsRow || r is SettingsPanel,
        MenuKind::Dates => r is DatesModified || r is DatesCreated || r is DatesFrom || r is DatesTo
            || r is DatesClear || r is DatesDone || r is DatesPanel,
        MenuKind::Sort | MenuKind::Filter => r is MenuRow,
    }
}

/// A click on the panel of a dialog does nothing, and a click beside an open menu closes it, but
/// for a click on the button of a dropdown, which the bar decides.
pub proof fn menus_take_the_clicks_beside_them(c: UiCtx, p: Pointer, kind: MenuKind)
    requires
        c.menu == Some(kind),
    ensures
        ({
            let outside = forall|x: Region| #[trigger]
                p.under@.contains(x) ==> !belongs_to(x, kind);
            let panel = match kind {
                MenuKind::Open => Some(Region::OpenPanel),
                MenuKind::Settings => Some(Region::SettingsPanel),
                MenuKind::Dates => Some(Region::DatesPanel),
                _ => None,
            };
            let button = match kind {
                MenuKind::Sort => Some(Region::BarSort),
                MenuKind::Filter => Some(Region::BarFilter),
                MenuKind::Dates => Some(Region::BarDates),
                _ => None,
            };
            &&& outside && !(button is Some && p.under@.contains(button->0)) ==> hit(c, p) == Some(
                UiAction::CloseMenu,
            )
            &&& outside && button is Some && on_the_wall(UiCtx { menu: None, ..c }) && points_at(
                p.under@,
                button->0,
            ) ==> hit(c, p) == Some(UiAction::ToggleMenu(kind))
            &&& panel is Some && p.under@.contains(panel->0) && (forall|x: Region| #[trigger]
                p.under@.contains(x) ==> x == panel->0 || !belongs_to(x, kind)) ==> hit(c, p)
                == Some(UiAction::Noop)
        }),
{
    let under = p.under@;
    let t = crate::components::menu_table(kind);
    assert forall|j: int| 0 <= j < t.len() implies belongs_to((#[trigger] t[j]).0, kind) by {}
    let outside = forall|x: Region| #[trigger] under.contains(x) ==> !belongs_to(x, kind);
    if outside {
        lemma_pick_none(t, under);
        let d = UiCtx { menu: None, ..c };
        if on_the_wall(d) {
            if kind is Sort && points_at(under, Region::BarSort) {
                bar_buttons_do_their_own_thing(d, p, Region::BarSort);
            }
            if kind is Filter && points_at(under, Region::BarFilter) {
                bar_buttons_do_their_own_thing(d, p, Region::BarFilter);
            }
            if kind is Dates && points_at(under, Region::BarDates) {
                bar_buttons_do_their_own_thing(d, p, Region::BarDates);
            }
        }
    }
    if kind is Open && under.contains(Region::OpenPanel) && (forall|x: Region| #[trigger]
        under.contains(x) ==> x == Region::OpenPanel || !belongs_to(x, kind)) {
        assert(t[5].0 == Region::OpenPanel);
        lemma_pick_first(t, under, 5);
    }
    if kind is Settings && under.contains(Region::SettingsPanel) && (forall|x: Region| #[trigger]
        under.contains(x) ==> x == Region::SettingsPanel || !belongs_to(x, kind)) {
        assert(t[5].0 == Region::SettingsPanel);
        lemma_pick_first(t, under, 5);
    }
    if kind is Dates && under.contains(Region::DatesPanel) && (forall|x: Region| #[trigger]
        under.contains(x) ==> x == Region::DatesPanel || !belongs_to(x, kind)) {
        assert(t[6].0 == Region::DatesPanel);
        lemma_pick_first(t, under, 6);
    }
}

/// The buttons of an open item: one closes it, one shows what is known of it. While the controls
/// of what plays are hidden, a click reaches nothing of the interface.
pub proof fn lightbox_buttons_do_their_own_thing(c: UiCtx, p: Pointer, r: Region)
    requires
        c.menu is None,
        c.focused,
        points_at(p.under@, r),
    ensures
        ({
            let hidden = c.video matches Some(v) && !v.visible;
            &&& r == Region::LightboxBack && !hidden ==> hit(c, p) == Some(UiAction::Back)
            &&& r == Region::LightboxInfo && !hidden ==> hit(c, p) == Some(UiAction::ToggleInfo)
            &&& hidden ==> hit(c, p) is None
        }),
{
    let t = lightbox_table();
    assert(t[0].0 == Region::LightboxBack && t[1].0 == Region::LightboxInfo);
    if r == Region::LightboxBack {
        lemma_pick_at(t, p.under@, 0);
    } else if r == Region::LightboxInfo {
        lemma_pick_at(t, p.under@, 1);
    }
}

/// Each control of what plays does its own thing: play and pause, ten seconds back and forth, the
/// track menus, fullscreen, the seek track and the volume. The rest of the bar takes the click.
pub proof fn controls_do_their_own_thing(c: UiCtx, p: Pointer, v: VideoCtx, r: Region)
    requires
        c.menu is None,
        c.video == Some(v),
        v.visible,
        v.track_menu is None,
        p.under@.contains(Region::VideoBar),
        points_at(p.under@, r),
    ensures
        r == Region::VideoPlay ==> hit(c, p) == Some(UiAction::VideoPause),
        r == Region::VideoBack ==> hit(c, p) == Some(UiAction::VideoSeekRel(-10i32)),
        r == Region::VideoForward ==> hit(c, p) == Some(UiAction::VideoSeekRel(10)),
        r == Region::VideoAudio ==> hit(c, p) == Some(UiAction::ToggleTrackMenu(TrackMenu::Audio)),
        r == Region::VideoSubs ==> hit(c, p) == Some(UiAction::ToggleTrackMenu(TrackMenu::Sub)),
        r == Region::VideoFullscreen ==> hit(c, p) == Some(UiAction::Fullscreen),
        r == Region::VideoSeek ==> hit(c, p) == Some(UiAction::VideoSeekFrac(p.seek)),
        r == Region::VideoVolume ==> hit(c, p) == Some(UiAction::VideoVolume(p.volume)),
        r == Region::VideoBar ==> hit(c, p) == Some(UiAction::CloseMenu),
{
    let under = p.under@;
    let box_table = lightbox_table();
    assert(box_table[0].0 == Region::LightboxBack && box_table[1].0 == Region::LightboxInfo);
    let t = video_table(p.seek, p.volume);
    assert(t[0].0 == Region::VideoPlay && t[1].0 == Region::VideoBack && t[2].0
        == Region::VideoForward && t[3].0 == Region::VideoAudio && t[4].0 == Region::VideoSubs
        && t[5].0 == Region::VideoFullscreen && t[6].0 == Region::VideoSeek && t[7].0
        == Region::VideoVolume);
    if r != Region::LightboxBack && r != Region::LightboxInfo {
        lemma_pick_none(box_table, under);
    }
    if r == Region::VideoPlay {
        lemma_pick_at(t, under, 0);
    } else if r == Region::VideoBack {
        lemma_pick_at(t, under, 1);
    } else if r == Region::VideoForward {
        lemma_pick_at(t, under, 2);
    } else if r == Region::VideoAudio {
        lemma_pick_at(t, under, 3);
    } else if r == Region::VideoSubs {
        lemma_pick_at(t, under, 4);
    } else if r == Region::VideoFullscreen {
        lemma_pick_at(t, under, 5);
    } else if r == Region::VideoSeek {
        lemma_pick_at(t, under, 6);
    } else if r == Region::VideoVolume {
        lemma_pick_at(t, under, 7);
    } else if r == Region::VideoBar {
        lemma_pick_none(t, under);
    }
}

/// Each row of a track menu chooses its own track; the first one chooses none. A click beside the
/// menu and the bar closes it.
pub proof fn track_rows_choose_their_own(c: UiCtx, p: Pointer, v: VideoCtx, i: usize)
    requires
        c.menu is None,
        c.video == Some(v),
        v.visible,
        i < usize::MAX,
    ensures
        v.track_menu == Some(TrackMenu::Audio) ==> {
            &&& points_at(p.under@, Region::TrackRow(0)) ==> hit(c, p) == Some(
                UiAction::SetAudio(-1i64),
            )
            &&& i < v.audio_tracks@.len() && points_at(p.under@, Region::TrackRow((i + 1) as usize))
                ==> hit(c, p) == Some(UiAction::SetAudio(v.audio_tracks@[i as int].id))
        },
        v.track_menu == Some(TrackMenu::Sub) ==> {
            &&& points_at(p.under@, Region::TrackRow(0)) ==> hit(c, p) == Some(
                UiAction::SetSub(-1i64),
            )
            &&& i < v.sub_tracks@.len() && points_at(p.under@, Region::TrackRow((i + 1) as usize))
                ==> hit(c, p) == Some(UiAction::SetSub(v.sub_tracks@[i as int].id))
        },
        v.track_menu is Some && p.under@.len() == 0 ==> hit(c, p) == Some(
            UiAction::ToggleTrackMenu(v.track_menu->0),
        ),
{
    let under = p.under@;
    let box_table = lightbox_table();
    assert(box_table[0].0 == Region::LightboxBack && box_table[1].0 == Region::LightboxInfo);
    if let Some(tm) = v.track_menu {
        let tracks = tracks_of(v, tm);
        let t = track_table(tm, tracks);
        assert(t[0].0 == Region::TrackRow(0));
        assert forall|k: int| 0 <= k < tracks.len() implies (#[trigger] t[k + 1]).0
            == Region::TrackRow((k + 1) as usize) by {}
        if points_at(under, Region::TrackRow(0)) {
            lemma_pick_none(box_table, under);
            lemma_pick_first(t, under, 0);
        }
        if i < tracks.len() && points_at(under, Region::TrackRow((i + 1) as usize)) {
            lemma_pick_none(box_table, under);
            assert forall|j: int| 0 <= j < i + 1 implies !under.contains((#[trigger] t[j]).0) by {
                if j > 0 {
                    assert(t[(j - 1) + 1].0 == Region::TrackRow(j as usize));
                }
            }
            assert(t[i + 1].0 == Region::TrackRow((i + 1) as usize));
            lemma_pick_first(t, under, i + 1);
        }
        if under.len() == 0 {
            lemma_pick_none(box_table, under);
            lemma_pick_none(t, under);
        }
    }
}

proof fn lemma_filter_from(typed: Seq<char>, date: bool)
    ensures
        ({
            let kept = typed.filter(goes_in(date));
            forall|k: int| 0 <= k < kept.len() ==> typed.contains(#[trigger] kept[k])
        }),
    decreases typed.len(),
{
    reveal(Seq::filter);
    if typed.len() > 0 {
        let rest = typed.drop_last();
        lemma_filter_from(rest, date);
        let kept = typed.filter(goes_in(date));
        let before = rest.filter(goes_in(date));
        assert forall|k: int| 0 <= k < kept.len() implies typed.contains(#[trigger] kept[k]) by {
            if k < before.len() {
                assert(kept[k] == before[k]);
                let j = rest.index_of(before[k]);
                assert(typed[j] == before[k]);
            } else {
                assert(typed[typed.len() - 1] == kept[k]);
            }
        }
    }
}

/// Typed text goes in at the caret, which moves behind it: what stood before the caret stays
/// before it, and what stood behind it stays behind. It goes into the field that takes what is
/// typed and into no other.
pub proof fn typing_goes_in_at_the_caret(f: FieldsView, typed: Seq<char>)
    requires
        f.search_active || f.date_active == 1 || f.date_active == 2,
        f.search.len() + typed.len() <= usize::MAX,
        f.date_from.len() + typed.len() <= usize::MAX,
        f.date_to.len() + typed.len() <= usize::MAX,
    ensures
        ({
            let h = typed_fields(f, typed);
            let (old_text, new_text) = if f.search_active {
                (f.search, h.search)
            } else if f.date_active == 1 {
                (f.date_from, h.date_from)
            } else {
                (f.date_to, h.date_to)
            };
            let at = if f.caret <= old_text.len() {
                f.caret as int
            } else {
                old_text.len() as int
            };
            let n = new_text.len() - old_text.len();
            &&& 0 <= n <= typed.len()
            &&& h.caret == at + n
            &&& new_text.take(at) == old_text.take(at)
            &&& new_text.skip(at + n) == old_text.skip(at)
            &&& forall|k: int|
                0 <= k < n ==> typed.contains(#[trigger] new_text.subrange(at, at + n)[k])
            &&& f.search_active ==> h.date_from == f.date_from && h.date_to == f.date_to
            &&& !f.search_active ==> h.search == f.search
            &&& !f.search_active && f.date_active == 1 ==> h.date_to == f.date_to
            &&& !f.search_active && f.date_active == 2 ==> h.date_from == f.date_from
            &&& h.search_active == f.search_active && h.date_active == f.date_active
        }),
{
    let date = !f.search_active;
    let s = if f.search_active {
        f.search
    } else if f.date_active == 1 {
        f.date_from
    } else {
        f.date_to
    };
    let at = if f.caret <= s.len() {
        f.caret as int
    } else {
        s.len() as int
    };
    let part = taken(typed, s.len(), date);
    let kept = typed.filter(goes_in(date));
    lemma_filter_from(typed, date);
    typed.lemma_filter_len(goes_in(date));
    let new_text = spliced(s, at, part);
    assert(new_text.take(at) =~= s.take(at));
    assert(new_text.skip(at + part.len()) =~= s.skip(at));
    assert(new_text.subrange(at, at + part.len()) =~= part);
    assert forall|k: int| 0 <= k < part.len() implies typed.contains(#[trigger] part[k]) by {
        assert(part[k] == kept[k]);
    }
}

/// A character that can be typed: no control character, and into a date only a digit or a dash.
pub open spec fn can_be_typed(c: char, date: bool) -> bool {
    &&& c as u32 >= 0x20 && !(0x7f <= c as u32 <= 0x9f)
    &&& date ==> '0' <= c <= '9' || c == '-'
}

/// A field takes a character where it can be typed and, for a date, where there are fewer than ten
/// characters; what is typed at once goes in as if it were typed one after the other.
pub proof fn fields_take_one_character_after_the_other(
    a: Seq<char>,
    b: Seq<char>,
    c: char,
    len: nat,
    date: bool,
)
    ensures
        taken(Seq::<char>::empty(), len, date).len() == 0,
        can_be_typed(c, date) && (date ==> len < 10) ==> taken(seq![c], len, date) == seq![c],
        !(can_be_typed(c, date) && (date ==> len < 10)) ==> taken(seq![c], len, date).len() == 0,
        taken(a + b, len, date) == taken(a, len, date) + taken(
            b,
            len + taken(a, len, date).len(),
            date,
        ),
{
    let pred = goes_in(date);
    let e = Seq::<char>::empty();
    reveal(Seq::filter);
    assert(e.filter(pred) =~= e);
    let one = seq![c];
    assert(one.drop_last() =~= e);
    assert(one.last() == c);
    assert(one.filter(pred) =~= if typeable(c, date) {
        one
    } else {
        e
    });
    assert(typeable(c, date) == can_be_typed(c, date));
    assert(one.take(1) =~= one);
    Seq::filter_distributes_over_add(a, b, pred);
    let x = a.filter(pred);
    let y = b.filter(pred);
    assert((a + b).filter(pred) == x + y);
    assert(taken(a + b, len, date) =~= taken(a, len, date) + taken(
        b,
        len + taken(a, len, date).len(),
        date,
    ));
}

/// The text that takes what is typed.
pub open spec fn typed_text(f: FieldsView) -> Seq<char> {
    if f.search_active {
        f.search
    } else if f.date_active == 1 {
        f.date_from
    } else {
        f.date_to
    }
}

/// The keys of a text field: one character before the caret, or behind it, is removed and nothing
/// else; the caret moves by one, or to an end, and never beyond the text; Enter and Escape leave
/// the field.
pub proof fn editing_keys_do_their_own_thing(f: FieldsView, key: EditKey, text: Option<Seq<char>>)
    requires
        f.search_active || f.date_active == 1 || f.date_active == 2,
        f.search.len() < usize::MAX,
        f.date_from.len() < usize::MAX,
        f.date_to.len() < usize::MAX,
        f.caret <= typed_text(f).len(),
    ensures
        ({
            let h = edited_fields(f, key, text);
            let (s, t) = (typed_text(f), typed_text(h));
            let n = s.len() as int;
            &&& key == EditKey::Backspace && f.caret > 0 ==> t == s.take(f.caret - 1) + s.skip(
                f.caret as int,
            ) && h.caret == f.caret - 1
            &&& key == EditKey::Backspace && f.caret == 0 ==> h == f
            &&& key == EditKey::Delete && f.caret < n ==> t == s.take(f.caret as int) + s.skip(
                f.caret + 1,
            ) && h.caret == f.caret
            &&& key == EditKey::Delete && f.caret == n ==> h == f
            &&& key == EditKey::Left ==> t == s && h.caret == if f.caret == 0 {
                0
            } else {
                f.caret - 1
            }
            &&& key == EditKey::Right ==> t == s && h.caret == if f.caret == n {
                n
            } else {
                f.caret + 1
            }
            &&& key == EditKey::Home ==> t == s && h.caret == 0
            &&& key == EditKey::End ==> t == s && h.caret == n
            &&& key == EditKey::Done ==> !h.search_active && h.date_active == 0
            &&& key != EditKey::Done ==> h.search_active == f.search_active && h.date_active
                == f.date_active
            &&& key != EditKey::Other ==> {
                &&& f.search_active || key == EditKey::Done ==> h.date_from == f.date_from
                    && h.date_to == f.date_to
                &&& !f.search_active || key == EditKey::Done ==> h.search == f.search
                &&& !f.search_active && f.date_active == 1 ==> h.date_to == f.date_to
                &&& !f.search_active && f.date_active == 2 ==> h.date_from == f.date_from
            }
        }),
{
    let h = edited_fields(f, key, text);
    let s = typed_text(f);
    if key == EditKey::Backspace && f.caret > 0 {
        assert(s.remove(f.caret - 1) =~= s.take(f.caret - 1) + s.skip(f.caret as int));
    }
    if key == EditKey::Delete && f.caret < s.len() {
        assert(s.remove(f.caret as int) =~= s.take(f.caret as int) + s.skip(f.caret + 1));
    }
}

/// A new view is asked for where a key has changed the text of a field, and typing counts as
/// activity.
pub proof fn edits_ask_for_a_new_view(
    g: Flags,
    f: FieldsView,
    key: EditKey,
    text: Option<Seq<char>>,
    now: u64,
)
    ensures
        ({
            let h = edited_flags(g, f, key, text, now);
            let e = edited_fields(f, key, text);
            let changed = e.search != f.search || e.date_from != f.date_from || e.date_to
                != f.date_to;
            &&& changed ==> h.view_dirty
            &&& g.view_dirty ==> h.view_dirty
            &&& key != EditKey::Other && !changed ==> h.view_dirty == g.view_dirty
            &&& h.last_activity == g.last_activity || h.last_activity == now && key
                == EditKey::Other
            &&& key == EditKey::Other && changed ==> h.last_activity == now
            &&& settings_follow(g, h, UiAction::Noop)
            &&& menus_follow(g, h, UiAction::Noop)
        }),
{
    let e = edited_fields(f, key, text);
    if key == EditKey::Backspace && edits(f, key, text) {
        assert(e.search.len() != f.search.len() || e.date_from.len() != f.date_from.len()
            || e.date_to.len() != f.date_to.len());
    }
    if key == EditKey::Delete && edits(f, key, text) {
        assert(e.search.len() != f.search.len() || e.date_from.len() != f.date_from.len()
            || e.date_to.len() != f.date_to.len());
    }
}

/// The item that lies `dir` further than the open one, as far as there are items.
pub open spec fn is_neighbour(from: usize, to: usize, dir: int, total: nat) -> bool {
    &&& to < total
    &&& 0 <= from + dir < total ==> to == from + dir
    &&& from + dir < 0 ==> to == 0
    &&& from + dir >= total ==> to == total - 1
}

/// What a pressed key opens and closes: left and right open the neighbour of an open picture,
/// Escape closes the open item, and no other key opens or closes one; a released key never does.
pub proof fn keys_open_and_close(s: State, key: Key, pressed: bool)
    requires
        s.wf(),
    ensures
        ({
            let h = keyed_focus(s, key, pressed);
            let video = s.lightbox.focus matches Some(f) && s.wall.is_kind(f as int, Kind::Video);
            &&& !pressed ==> h == s.lightbox.focus
            &&& pressed && key == Key::Escape ==> h is None
            &&& pressed && key == Key::Right && s.lightbox.focus is Some && !video ==> h is Some
                && is_neighbour(s.lightbox.focus->0, h->0, 1, s.wall.shown@.len())
            &&& pressed && key == Key::Left && s.lightbox.focus is Some && !video ==> h is Some
                && is_neighbour(s.lightbox.focus->0, h->0, -1, s.wall.shown@.len())
            &&& key != Key::Escape && (video || s.lightbox.focus is None || !(key == Key::Left
                || key == Key::Right)) ==> h == s.lightbox.focus
        }),
{
}

/// What a key leaves of the settings: an arrow scrolls the wall for as long as it is held, the
/// info key turns the card, the open key begins a scan, and no key changes anything else.
pub proof fn keys_switch_their_own(s: State, key: Key, pressed: bool)
    ensures
        ({
            let h = keyed_flags(s, key, pressed);
            let g = s.flags;
            let scrolls = s.lightbox.focus is None;
            &&& pressed && scrolls && key == Key::Left ==> h.input_dir == -1
            &&& pressed && scrolls && key == Key::Right ==> h.input_dir == 1
            &&& !pressed && scrolls && (key == Key::Left || key == Key::Right) ==> h.input_dir == 0
            &&& !scrolls || !(key == Key::Left || key == Key::Right) ==> h.input_dir == g.input_dir
            &&& h.show_info != g.show_info <==> pressed && key == Key::I
            &&& pressed && key == Key::O ==> h.scanning && h.scan_count == 0
            &&& !(pressed && key == Key::O) ==> h.scanning == g.scanning && h.scan_count
                == g.scan_count
            &&& settings_follow(Flags { show_info: h.show_info, ..g }, h, UiAction::Noop)
            &&& menus_follow(g, h, UiAction::Noop)
            &&& h.view_dirty == g.view_dirty
            &&& h.open_request == g.open_request
            &&& h.fullscreen_requested == g.fullscreen_requested
            &&& h.drag_mode == g.drag_mode
        }),
{
}

/// What a pressed key leaves to do: arrows seek ten seconds in an open video, five percent of
/// volume up and down, space pauses, the track keys go to the next track, the fullscreen key turns
/// fullscreen, and Escape leaves what is open, then fullscreen, then the program.
pub proof fn keys_reach_what_they_are_for(s: State, key: Key, fullscreen: bool)
    ensures
        ({
            let e = keyed_effects(s, key, true, fullscreen);
            let open = s.lightbox.focus is Some;
            let video = s.lightbox.focus matches Some(f) && s.wall.is_kind(f as int, Kind::Video);
            &&& e.len() == if key == Key::I {
                0int
            } else {
                1
            }
            &&& key == Key::Left ==> e[0] == if video {
                Effect::Player(Command::Seek(-10i32))
            } else if open {
                Effect::ResetLightbox
            } else {
                Effect::DropScrollTarget
            }
            &&& key == Key::Right ==> e[0] == if video {
                Effect::Player(Command::Seek(10))
            } else if open {
                Effect::ResetLightbox
            } else {
                Effect::DropScrollTarget
            }
            &&& key == Key::Up ==> e[0] == Effect::Player(Command::AddVolume(5))
            &&& key == Key::Down ==> e[0] == Effect::Player(Command::AddVolume(-5i32))
            &&& key == Key::Space ==> e[0] == Effect::Player(Command::CyclePause)
            &&& key == Key::A ==> e[0] == Effect::Player(Command::CycleAudio)
            &&& key == Key::S ==> e[0] == Effect::Player(Command::CycleSubs)
            &&& key == Key::O ==> e[0] == Effect::PickFolder
            &&& key == Key::F ==> e[0] == Effect::ToggleFullscreen
            &&& key == Key::Escape ==> e[0] == if open {
                Effect::Recenter((s.lightbox.focus->0 / 3) as usize)
            } else if fullscreen {
                Effect::LeaveFullscreen
            } else {
                Effect::Quit
            }
        }),
        keyed_effects(s, key, false, fullscreen).len() == 0,
{
}

/// A left press that the interface does not take: on an arrow it goes to the neighbour of an open
/// item or scrolls the wall, on an open video it pauses it, on the band of a wall that scrolls it
/// scrubs, and elsewhere it grabs the wall. The other buttons grab the wall or the open item.
pub proof fn presses_mean_what_they_hit(s: State, button: u8, under: Seq<Region>)
    ensures
        ({
            let m = press_meaning(s, button, None, under);
            let open = s.lightbox.focus is Some;
            let video = s.lightbox.focus matches Some(f) && s.wall.is_kind(f as int, Kind::Video);
            let prev = under.contains(Region::ArrowPrev);
            let next = under.contains(Region::ArrowNext);
            let wide = s.wall.shown@.len() >= 4;
            &&& button == 0 && prev && open ==> m == Press::Step(-1i8)
            &&& button == 0 && next && !prev && open ==> m == Press::Step(1)
            &&& button == 0 && prev && !open && wide ==> m == Press::Hold(-1i8)
            &&& button == 0 && next && !prev && !open && wide ==> m == Press::Hold(1)
            &&& button == 0 && !prev && !next && video ==> m == Press::TogglePause
            &&& !open && wide && under.contains(Region::ScrubBand) && (button != 0 || !prev
                && !next) ==> m == Press::Scrub
            &&& (button == 1 || button == 2) && (open || !wide || !under.contains(
                Region::ScrubBand,
            )) ==> m == Press::Pan
            &&& button == 0 && !prev && !next && !video && (open || !under.contains(
                Region::ScrubBand,
            )) ==> m == Press::Scroll
        }),
{
}

/// What the interface takes of a press is done as an action; on the seek track it starts a drag.
pub proof fn the_interface_comes_first(s: State, button: u8, a: UiAction, under: Seq<Region>)
    ensures
        match a {
            UiAction::VideoSeekFrac(f) => press_meaning(s, button, Some(a), under) == Press::Seek(
                f,
            ),
            _ => press_meaning(s, button, Some(a), under) == Press::Act(a),
        },
{
}

/// What a press leaves behind: an action is done as such; what is no action closes the open menu
/// and leaves the text fields, and holds what it grabs.
pub proof fn presses_leave_what_they_mean(s: State, press: Press, caret: usize, now: u64)
    requires
        s.wf(),
    ensures
        ({
            let g = s.flags;
            let h = pressed_flags(g, press, now);
            let f = s.fields@;
            let e = pressed_effects(s, press);
            let k = pressed_fields(f, press, caret);
            let open = pressed_focus(s, press);
            &&& press matches Press::Act(a) ==> {
                &&& settings_follow(g, h, a)
                &&& menus_follow(g, h, a)
                &&& fields_follow(f, k, a, caret)
                &&& h.drag_mode == if a is VideoVolume {
                    DragMode::VideoVol
                } else {
                    DragMode::Idle
                }
            }
            &&& !(press is Act) ==> settings_follow(g, h, UiAction::Noop)
            &&& !(press is Act) && !(press is Seek) ==> h.open_menu is None && !k.search_active
                && k.date_active == 0 && k.search == f.search && k.date_from == f.date_from
                && k.date_to == f.date_to
            &&& press matches Press::Seek(x) ==> h.seek_preview == Some(x) && h.drag_mode
                == DragMode::VideoSeek && k == f && h.open_menu == g.open_menu && e.len() == 0
            &&& press matches Press::Hold(dir) ==> h.input_dir == dir && h.wall_scroll_held
                && e == seq![Effect::DropScrollTarget]
            &&& !(press is Hold) ==> h.input_dir == g.input_dir && h.wall_scroll_held
                == g.wall_scroll_held
            &&& press is Scrub ==> h.drag_mode == DragMode::Scrub && e == seq![Effect::ScrubTo]
            &&& press is Pan ==> h.drag_mode == DragMode::Pan && e == seq![
                Effect::DropScrollTarget,
            ]
            &&& press is Scroll ==> h.drag_mode == DragMode::Scroll && e == seq![
                Effect::StopWall,
                Effect::DropScrollTarget,
            ]
            &&& press is TogglePause ==> h.drag_mode == DragMode::Idle && e == seq![
                Effect::Player(Command::CyclePause),
            ]
            &&& press matches Press::Step(dir) ==> e == seq![Effect::ResetLightbox]
                && h.drag_mode == DragMode::Idle && (s.lightbox.focus is Some && -1 <= dir <= 1
                ==> open is Some && is_neighbour(
                s.lightbox.focus->0,
                open->0,
                dir as int,
                s.wall.shown@.len(),
            ))
            &&& !(press is Step) && !(press is Act) ==> open == s.lightbox.focus
        }),
{
    if let Press::Act(a) = press {
        actions_do_what_they_say(s.flags, a, now);
        actions_leave_the_fields_in_order(s.fields@, a, caret);
    }
}

/// What a moved pointer does while it is held: it moves what was grabbed, and the knob of the seek
/// track follows it; nothing else of the settings changes.
pub proof fn drags_move_what_was_grabbed(
    s: State,
    seek: crate::components::Frac,
    volume: crate::components::Frac,
    far: bool,
    now: u64,
)
    ensures
        ({
            let g = s.flags;
            let h = moved_flags(g, seek, far, now);
            let e = moved_effects(s, volume);
            let open = s.lightbox.focus is Some;
            &&& settings_follow(g, h, UiAction::Noop)
            &&& menus_follow(g, h, UiAction::Noop)
            &&& h.last_activity == now
            &&& h.drag_mode == g.drag_mode
            &&& g.drag_mode == DragMode::VideoSeek ==> h.seek_preview == Some(seek)
            &&& g.drag_mode != DragMode::VideoSeek ==> h.seek_preview == g.seek_preview
            &&& h.drag_moved <==> g.drag_moved || g.drag_mode == DragMode::Scroll && far
            &&& g.drag_mode == DragMode::Idle || g.drag_mode == DragMode::VideoSeek ==> e.len() == 0
            &&& g.drag_mode == DragMode::Scrub ==> e == seq![Effect::ScrubTo]
            &&& g.drag_mode == DragMode::VideoVol ==> e == seq![Effect::Volume(volume)]
            &&& g.drag_mode == DragMode::Pan && open ==> e == seq![Effect::PanLightbox]
            &&& g.drag_mode == DragMode::Pan && !open ==> e == seq![Effect::PanWall]
            &&& g.drag_mode == DragMode::Scroll && !open ==> e == seq![Effect::DragWall]
            &&& g.drag_mode == DragMode::Scroll && open ==> e.len() == 0
        }),
{
}

/// What a release does: nothing is held then. A click on a tile opens it, a click beside an open
/// picture closes it and leaves the wall on its column, a click on what plays pauses it, and a drag
/// along the seek track seeks to where it ends.
pub proof fn releases_end_what_was_held(
    s: State,
    under: Seq<Region>,
    picked: Option<usize>,
    playing: bool,
)
    ensures
        ({
            let g = s.flags;
            let h = released_flags(g);
            let e = released_effects(s, under, picked, playing);
            let to = released_focus(s, under, picked);
            let open = s.lightbox.focus is Some;
            let video = s.lightbox.focus matches Some(f) && s.wall.is_kind(f as int, Kind::Video);
            let click = g.drag_mode == DragMode::Scroll && !g.drag_moved;
            let on_media = video || under.contains(Region::OpenPicture);
            &&& settings_follow(g, h, UiAction::Noop)
            &&& menus_follow(g, h, UiAction::Noop)
            &&& h.drag_mode == DragMode::Idle && !h.wall_scroll_held
            &&& g.wall_scroll_held ==> h.input_dir == 0
            &&& !g.wall_scroll_held ==> h.input_dir == g.input_dir
            &&& g.drag_mode == DragMode::VideoSeek ==> h.seek_preview is None
            &&& g.drag_mode != DragMode::VideoSeek ==> h.seek_preview == g.seek_preview
            &&& !click ==> to == s.lightbox.focus
            &&& click && !open ==> to == picked
            &&& click && open && on_media ==> to == s.lightbox.focus
            &&& click && open && !on_media ==> to is None && e == seq![
                Effect::Recenter((s.lightbox.focus->0 / 3) as usize),
            ]
            &&& click && open && on_media && playing ==> e == seq![
                Effect::Player(Command::CyclePause),
            ]
            &&& click && open && on_media && !playing ==> e.len() == 0
            &&& click && !open && picked is Some ==> e == seq![Effect::ResetLightbox]
            &&& click && !open && picked is None ==> e.len() == 0
            &&& g.drag_mode == DragMode::VideoSeek && g.seek_preview is Some ==> e == seq![
                Effect::SeekFrac(g.seek_preview->0),
            ]
            &&& !click && g.drag_mode != DragMode::VideoSeek ==> e.len() == 0
        }),
{
}

} // verus!
