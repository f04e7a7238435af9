use cooliris::components::{Filter, Frac, MenuKind, SortMode, TrackMenu, UiAction};
use cooliris::dates::{FileTime, FileTimes};
use cooliris::media::{OpenKind, Source};
use cooliris::state::{Effect, Fields, State};
use cooliris::video::Command;
use std::path::PathBuf;

fn library(n: usize) -> Vec<Source> {
    (0..n).map(|i| Source::File(PathBuf::from(format!("{i:02}.jpg")))).collect()
}

fn state(n: usize) -> State {
    State::new(library(n), None, None, 1_000)
}

fn unknown(n: usize) -> Vec<FileTimes> {
    vec![FileTimes { modified: None, created: None }; n]
}

#[test]
fn a_new_state_is_closed_and_idle() {
    let s = state(4);
    assert_eq!(s.lightbox.focus, None);
    assert_eq!(s.flags.sort_mode, SortMode::Default);
    assert_eq!(s.flags.filter_kind, Filter::All);
    assert!(s.flags.gif_anim && s.flags.reflections && !s.flags.show_titles);
    assert_eq!(s.wall.shown.len(), 4);
    assert_eq!(s.flags.last_activity, 1_000);
}

#[test]
fn an_item_can_be_asked_for_at_the_start() {
    let open = |ask: &str| State::new(library(4), None, Some(ask), 0).lightbox.focus;
    assert_eq!(open("3"), Some(3));
    assert_eq!(open("4"), None);
    assert_eq!(open("x"), None);
    assert_eq!(open(""), None);
}

#[test]
fn switches_switch_back() {
    for a in [
        UiAction::ToggleInfo,
        UiAction::ToggleGifAnim,
        UiAction::ToggleReflections,
        UiAction::ToggleShowTitles,
        UiAction::ToggleMem,
    ] {
        let mut s = state(2);
        let before = s.flags;
        s.apply_ui_action(a, 0, 5);
        assert_ne!(s.flags, before);
        s.apply_ui_action(a, 0, 6);
        assert_eq!(s.flags, before);
    }
}

#[test]
fn menu_buttons_open_and_close() {
    let mut s = state(2);
    s.fields.search_active = true;
    s.apply_ui_action(UiAction::ToggleMenu(MenuKind::Sort), 0, 0);
    assert_eq!(s.flags.open_menu, Some(MenuKind::Sort));
    assert!(!s.fields.search_active);
    s.apply_ui_action(UiAction::ToggleMenu(MenuKind::Filter), 0, 0);
    assert_eq!(s.flags.open_menu, Some(MenuKind::Filter));
    s.apply_ui_action(UiAction::ToggleMenu(MenuKind::Filter), 0, 0);
    assert_eq!(s.flags.open_menu, None);
}

#[test]
fn pickers_are_asked_for_by_kind() {
    for (a, kind) in [
        (UiAction::OpenFiles, OpenKind::Files),
        (UiAction::OpenFolder, OpenKind::Folder),
        (UiAction::OpenJson, OpenKind::Json),
    ] {
        let mut s = state(1);
        s.flags.open_menu = Some(MenuKind::Open);
        assert!(s.apply_ui_action(a, 0, 0).is_empty());
        assert_eq!(s.flags.open_request, Some(kind));
        assert_eq!(s.flags.open_menu, None);
    }
}

#[test]
fn sorting_and_filtering_ask_for_a_new_view() {
    let mut s = state(2);
    assert!(s.apply_ui_action(UiAction::SetSort(SortMode::Default), 0, 0).is_empty());
    assert_eq!(
        s.apply_ui_action(UiAction::SetSort(SortMode::NameDesc), 0, 0),
        vec![Effect::Rebuild]
    );
    assert_eq!(s.flags.sort_mode, SortMode::NameDesc);
    s.apply_ui_action(UiAction::SetFilter(Filter::All), 0, 0);
    assert!(!s.flags.view_dirty);
    s.apply_ui_action(UiAction::SetFilter(Filter::Videos), 0, 0);
    assert!(s.flags.view_dirty);
}

#[test]
fn slideshows_open_the_first_item() {
    let mut s = state(3);
    assert_eq!(
        s.apply_ui_action(UiAction::ToggleSlideshow, 0, 77),
        vec![Effect::ResetLightbox]
    );
    assert_eq!(s.lightbox.focus, Some(0));
    assert!(s.flags.slideshow);
    assert_eq!(s.flags.slideshow_t, 77);
    s.lightbox.focus = Some(2);
    assert!(s.apply_ui_action(UiAction::ToggleSlideshow, 0, 78).is_empty());
    assert_eq!(s.lightbox.focus, Some(2));
    assert!(!s.flags.slideshow);
    let mut none = state(0);
    assert!(none.apply_ui_action(UiAction::ToggleSlideshow, 0, 1).is_empty());
    assert_eq!(none.lightbox.focus, None);
}

#[test]
fn closing_an_item_leaves_the_wall_on_its_column() {
    let mut s = state(9);
    s.lightbox.focus = Some(7);
    assert_eq!(s.apply_ui_action(UiAction::Back, 0, 0), vec![Effect::Recenter(2)]);
    assert_eq!(s.lightbox.focus, None);
    assert!(s.apply_ui_action(UiAction::Back, 0, 0).is_empty());
}

#[test]
fn video_actions_reach_the_player() {
    let mut s = state(1);
    let f = Frac { bits: 7 };
    assert_eq!(
        s.apply_ui_action(UiAction::VideoPause, 0, 0),
        vec![Effect::Player(Command::CyclePause)]
    );
    assert_eq!(
        s.apply_ui_action(UiAction::VideoSeekRel(-10), 0, 0),
        vec![Effect::Player(Command::Seek(-10))]
    );
    assert_eq!(s.apply_ui_action(UiAction::VideoSeekFrac(f), 0, 0), vec![Effect::SeekFrac(f)]);
    assert_eq!(s.apply_ui_action(UiAction::VideoVolume(f), 0, 0), vec![Effect::Volume(f)]);
    s.apply_ui_action(UiAction::ToggleTrackMenu(TrackMenu::Audio), 0, 0);
    assert_eq!(s.flags.track_menu, Some(TrackMenu::Audio));
    assert_eq!(
        s.apply_ui_action(UiAction::SetAudio(2), 0, 0),
        vec![Effect::Player(Command::SetAudio(2))]
    );
    assert_eq!(s.flags.track_menu, None);
    assert_eq!(
        s.apply_ui_action(UiAction::SetSub(-1), 0, 0),
        vec![Effect::Player(Command::SetSubs(-1))]
    );
}

#[test]
fn memory_is_logged_when_its_readout_appears() {
    let mut s = state(1);
    assert_eq!(s.apply_ui_action(UiAction::ToggleMem, 0, 0), vec![Effect::LogMemory]);
    assert!(s.apply_ui_action(UiAction::ToggleMem, 0, 0).is_empty());
}

#[test]
fn fields_take_the_caret_where_they_are_clicked() {
    let mut s = state(1);
    s.fields.search = "cat".to_string();
    s.apply_ui_action(UiAction::ActivateSearch, 2, 0);
    assert!(s.fields.search_active);
    assert_eq!(s.fields.caret, 2);
    s.apply_ui_action(UiAction::ActivateSearch, 99, 0);
    assert_eq!(s.fields.caret, 3);
    s.fields.date_to = "2024".to_string();
    s.apply_ui_action(UiAction::ActivateDate(2), 9, 0);
    assert_eq!((s.fields.date_active, s.fields.caret, s.fields.search_active), (2, 4, false));
    s.apply_ui_action(UiAction::ClearDates, 0, 0);
    assert_eq!((s.fields.date_active, s.fields.date_to.as_str()), (0, ""));
    assert!(s.flags.view_dirty);
    s.flags.view_dirty = false;
    s.apply_ui_action(UiAction::ClearSearch, 0, 0);
    assert_eq!(s.fields.search, "");
    assert!(s.flags.view_dirty);
    s.apply_ui_action(UiAction::SetDateBy(true), 0, 0);
    assert!(s.flags.date_created);
    s.flags.open_menu = Some(MenuKind::Dates);
    s.fields.date_active = 1;
    s.apply_ui_action(UiAction::CloseMenu, 0, 0);
    assert_eq!((s.flags.open_menu, s.fields.date_active), (None, 0));
}

#[test]
fn views_follow_the_query() {
    let mut s = state(12);
    s.lightbox.focus = Some(3);
    s.lightbox.video_for = Some(3);
    s.lightbox.video_pending = Some(3);
    s.fields.search = "1".to_string();
    s.flags.sort_mode = SortMode::NameDesc;
    s.rebuild_view(&unknown(12));
    assert_eq!(s.wall.shown, vec![11, 10, 1]);
    assert_eq!(s.lightbox.focus, None);
    assert_eq!(s.lightbox.video_for, None);
    assert_eq!(s.lightbox.video_pending, None);
    assert_eq!(s.wall.generation, 1);
    let q = s.query();
    assert_eq!(q.search, "1");
    assert_eq!((q.from, q.to), (None, None));
}

#[test]
fn date_bounds_count_once_they_are_whole() {
    let mut s = state(2);
    s.fields.date_from = "2024-0".to_string();
    assert_eq!(s.query().from, None);
    s.fields.date_from = "1970-01-11".to_string();
    s.fields.date_to = "1970-01-".to_string();
    assert_eq!(s.query().from, Some(10));
    assert_eq!(s.query().to, None);
    let day = |d: i64| FileTimes {
        modified: Some(FileTime { secs: d * 86_400, nanos: 0 }),
        created: None,
    };
    s.rebuild_view(&vec![day(9), day(10)]);
    assert_eq!(s.wall.shown, vec![1]);
}

#[test]
fn a_loaded_library_takes_over() {
    let mut s = state(5);
    s.flags.scanning = true;
    s.lightbox.focus = Some(4);
    let folder = PathBuf::from("new");
    s.reload_with(Some(folder.clone()), library(2), &unknown(2));
    assert_eq!(s.wall.shown, vec![0, 1]);
    assert_eq!(s.wall.folder, Some(folder));
    assert_eq!(s.wall.generation, 1);
    assert!(!s.flags.scanning);
    assert_eq!(s.lightbox.focus, None);
}

#[test]
fn new_fields_are_empty() {
    let f = Fields::new();
    assert_eq!((f.search.as_str(), f.date_from.as_str(), f.date_to.as_str()), ("", "", ""));
    assert_eq!(f.active_len(), 0);
}
