use cooliris::components::{
    Filter, InfoCard, MenuKind, Region, SortMode, TrackItem, TrackMenu, UiCtx, VideoCtx,
};
use cooliris::widgets::{build, fmt_time, Icon, Part, Widget};

fn ctx() -> UiCtx {
    UiCtx {
        sort: SortMode::NameAsc,
        filter: Filter::Videos,
        menu: None,
        search: String::new(),
        search_active: false,
        slideshow: false,
        gif_anim: true,
        reflections: false,
        date_created: false,
        date_from: String::new(),
        date_to: String::new(),
        date_active: 0,
        caret: 0,
        show_titles: false,
        show_mem: false,
        mem_mb: None,
        show_info: false,
        total: 0,
        ready: 0,
        inflight: 0,
        focused: false,
        info: None,
        video: None,
        fullscreen: false,
        caret_on: true,
    }
}

fn playing() -> VideoCtx {
    VideoCtx {
        pos: 65,
        dur: 3_725,
        paused: true,
        aid: 0,
        sid: 2,
        visible: true,
        timed: true,
        hover_time: 600,
        track_menu: None,
        audio_tracks: Vec::new(),
        sub_tracks: vec![TrackItem {
            id: 2,
            label: "A very long subtitle track label indeed".to_string(),
            selected: true,
        }],
    }
}

fn text_of<'a>(widgets: &'a [Widget], part: Part) -> Option<&'a str> {
    widgets.iter().find(|w| w.part == part).map(|w| w.text.as_str())
}

#[test]
fn times_read_as_a_clock() {
    assert_eq!(fmt_time(0), "0:00");
    assert_eq!(fmt_time(65), "1:05");
    assert_eq!(fmt_time(3_599), "59:59");
    assert_eq!(fmt_time(3_600), "1:00:00");
    assert_eq!(fmt_time(36_125), "10:02:05");
}

#[test]
fn the_idle_wall_shows_the_top_bar() {
    let w = build(&ctx(), &vec![Region::BarOpen]);
    assert_eq!(w[0].part, Part::Wordmark);
    assert_eq!(w[0].text, "Cooliris");
    assert_eq!(w[1].text, "Next");
    let open = Part::Button { region: Region::BarOpen, on: false, hovered: true };
    assert_eq!(text_of(&w, open), Some("Open"));
    let show = Part::Button { region: Region::BarSlideshow, on: false, hovered: false };
    assert_eq!(text_of(&w, show), Some("Slideshow"));
    assert_eq!(text_of(&w, Part::SearchHint), Some("Search\u{2026}"));
    assert_eq!(text_of(&w, Part::Count), None);
    assert_eq!(w.len(), 12);
}

#[test]
fn readouts_count_what_is_loaded() {
    let c = UiCtx { total: 40, ready: 7, inflight: 3, mem_mb: Some(210), ..ctx() };
    let w = build(&c, &Vec::new());
    assert_eq!(text_of(&w, Part::Count), Some("7/40"));
    assert_eq!(text_of(&w, Part::LoadingDot), Some(""));
    assert_eq!(text_of(&w, Part::Memory), Some("210 MB"));
    let done = UiCtx { total: 4, ready: 9, ..ctx() };
    let w = build(&done, &Vec::new());
    assert_eq!(text_of(&w, Part::Count), Some("4/4"));
    assert_eq!(text_of(&w, Part::LoadingDot), None);
}

#[test]
fn the_query_shows_with_its_caret() {
    let c = UiCtx { search: "cat".to_string(), search_active: true, caret: 1, ..ctx() };
    let w = build(&c, &Vec::new());
    let shown = text_of(&w, Part::SearchText).unwrap();
    assert_eq!(shown.chars().count(), 4);
    assert!(shown.starts_with('c') && shown.ends_with("at"));
    assert_eq!(text_of(&w, Part::SearchClear), Some("\u{2715}"));
    let off = UiCtx { caret_on: false, ..c };
    assert_eq!(text_of(&build(&off, &Vec::new()), Part::SearchText), Some("cat"));
}

#[test]
fn menus_mark_the_current_choice() {
    let c = UiCtx { menu: Some(MenuKind::Sort), ..ctx() };
    let w = build(&c, &vec![Region::MenuRow(2)]);
    assert!(text_of(&w, Part::MenuPanel { kind: MenuKind::Sort, rows: 7 }).is_some());
    let current = Part::MenuRow { row: 1, current: true, hovered: false };
    assert_eq!(text_of(&w, current), Some("Name (A \u{2192} Z)"));
    let hovered = Part::MenuRow { row: 2, current: false, hovered: true };
    assert_eq!(text_of(&w, hovered), Some("Name (Z \u{2192} A)"));
    let f = UiCtx { menu: Some(MenuKind::Filter), ..ctx() };
    let w = build(&f, &Vec::new());
    let videos = Part::MenuRow { row: 2, current: true, hovered: false };
    assert_eq!(text_of(&w, videos), Some("Videos"));
}

#[test]
fn settings_show_their_switches() {
    let c = UiCtx { menu: Some(MenuKind::Settings), ..ctx() };
    let w = build(&c, &Vec::new());
    let gifs = Part::SettingsSwitch { row: 1, on: true, hovered: false };
    assert_eq!(text_of(&w, gifs), Some("Animate GIFs on the wall"));
    let mirror = Part::SettingsSwitch { row: 2, on: false, hovered: false };
    assert_eq!(text_of(&w, mirror), Some("Reflections"));
    let detail = Part::SettingsDetail { row: 3 };
    assert_eq!(text_of(&w, detail), Some("Show and log resident memory (RSS)."));
}

#[test]
fn dates_mark_their_button_and_fields() {
    let c = UiCtx {
        menu: Some(MenuKind::Dates),
        date_from: "2024-01-01".to_string(),
        date_active: 2,
        ..ctx()
    };
    let w = build(&c, &Vec::new());
    let button = Part::Button { region: Region::BarDates, on: true, hovered: false };
    assert_eq!(text_of(&w, button), Some("Dates \u{2022}"));
    assert_eq!(text_of(&w, Part::DatesText { which: 1 }), Some("2024-01-01"));
    assert_eq!(text_of(&w, Part::DatesField { which: 2, active: true }), Some(""));
    assert_eq!(text_of(&w, Part::DatesFooter), Some("Filtering by file modified date."));
    let idle = UiCtx { menu: Some(MenuKind::Dates), ..ctx() };
    let w = build(&idle, &Vec::new());
    assert_eq!(text_of(&w, Part::DatesHint { which: 2 }), Some("YYYY-MM-DD"));
}

#[test]
fn the_open_dialog_lists_its_ways() {
    let c = UiCtx { menu: Some(MenuKind::Open), ..ctx() };
    let w = build(&c, &vec![Region::OpenJson]);
    let json = Part::OpenButton { region: Region::OpenJson, hovered: true };
    assert_eq!(text_of(&w, json), Some("From JSON\u{2026}"));
    assert_eq!(text_of(&w, Part::OpenTitle), Some("Open media"));
}

#[test]
fn an_open_item_hides_the_bar_and_shows_its_card() {
    let info = InfoCard {
        title: "Beach".to_string(),
        path: "/pics/Beach.jpg".to_string(),
        meta: "1 / 9".to_string(),
    };
    let c = UiCtx { focused: true, show_info: true, info: Some(info), ..ctx() };
    let w = build(&c, &Vec::new());
    assert_eq!(text_of(&w, Part::Wordmark), None);
    assert_eq!(text_of(&w, Part::InfoLine { line: 0, above_video: false }), Some("Beach"));
    assert_eq!(text_of(&w, Part::InfoLine { line: 2, above_video: false }), Some("1 / 9"));
    assert_eq!(text_of(&w, Part::LightboxBack { hovered: false }), Some("\u{2190} Back"));
    assert!(text_of(&w, Part::LightboxInfo { on: true, hovered: false }).is_some());
}

#[test]
fn controls_follow_what_plays() {
    let c = UiCtx { focused: true, video: Some(playing()), ..ctx() };
    let w = build(&c, &vec![Region::VideoSeekHover]);
    assert_eq!(text_of(&w, Part::VideoTime), Some("1:05 / 1:02:05"));
    assert_eq!(text_of(&w, Part::SeekTip), Some("10:00"));
    let play = Part::VideoIcon {
        region: Region::VideoPlay,
        icon: Icon::Play,
        lit: true,
        hovered: false,
    };
    assert!(text_of(&w, play).is_some());
    let subs = Part::VideoIcon {
        region: Region::VideoSubs,
        icon: Icon::Cc,
        lit: true,
        hovered: false,
    };
    assert!(text_of(&w, subs).is_some());
    let hidden = VideoCtx { visible: false, ..playing() };
    let c = UiCtx { focused: true, video: Some(hidden), ..ctx() };
    assert!(build(&c, &Vec::new()).is_empty());
}

#[test]
fn track_menus_shorten_long_labels() {
    let v = VideoCtx { track_menu: Some(TrackMenu::Sub), ..playing() };
    let c = UiCtx { focused: true, video: Some(v), ..ctx() };
    let w = build(&c, &Vec::new());
    assert!(text_of(&w, Part::TrackPanel { menu: TrackMenu::Sub, rows: 2 }).is_some());
    let off = Part::TrackRow { row: 0, selected: false, hovered: false };
    assert_eq!(text_of(&w, off), Some("Off"));
    let long = text_of(&w, Part::TrackRow { row: 1, selected: true, hovered: false }).unwrap();
    assert_eq!(long, "A very long subtitle track la\u{2026}");
}
