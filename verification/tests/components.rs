use cooliris::components::{
    hit_test, pointer_over_ui, Filter, Frac, MenuKind, Pointer, Region, SortMode, TrackItem,
    TrackMenu, UiAction, UiCtx, VideoCtx,
};

fn ctx() -> UiCtx {
    UiCtx {
        sort: SortMode::Default,
        filter: Filter::All,
        menu: None,
        search: String::new(),
        search_active: false,
        slideshow: false,
        gif_anim: true,
        reflections: true,
        date_created: false,
        date_from: String::new(),
        date_to: String::new(),
        date_active: 0,
        caret: 0,
        show_titles: false,
        show_mem: false,
        mem_mb: None,
        show_info: false,
        total: 0,
        ready: 0,
        inflight: 0,
        focused: false,
        info: None,
        video: None,
        fullscreen: false,
        caret_on: true,
    }
}

fn video(visible: bool, track_menu: Option<TrackMenu>) -> VideoCtx {
    VideoCtx {
        pos: 5,
        dur: 60,
        paused: false,
        aid: 1,
        sid: 0,
        visible,
        timed: true,
        hover_time: 30,
        track_menu,
        audio_tracks: vec![
            TrackItem { id: 1, label: "English".to_string(), selected: true },
            TrackItem { id: 7, label: "Japanese".to_string(), selected: false },
        ],
        sub_tracks: Vec::new(),
    }
}

fn on(under: &[Region]) -> Pointer {
    Pointer {
        under: under.to_vec(),
        seek: Frac { bits: 0.25f32.to_bits() },
        volume: Frac { bits: 80f32.to_bits() },
        caret: 0,
    }
}

#[test]
fn the_top_bar_reacts() {
    let c = ctx();
    let bar = [
        (Region::BarOpen, UiAction::ToggleMenu(MenuKind::Open)),
        (Region::BarSort, UiAction::ToggleMenu(MenuKind::Sort)),
        (Region::BarFilter, UiAction::ToggleMenu(MenuKind::Filter)),
        (Region::BarDates, UiAction::ToggleMenu(MenuKind::Dates)),
        (Region::BarSearch, UiAction::ActivateSearch),
        (Region::BarSettings, UiAction::ToggleMenu(MenuKind::Settings)),
        (Region::BarSlideshow, UiAction::ToggleSlideshow),
        (Region::BarFullscreen, UiAction::Fullscreen),
    ];
    for (region, action) in bar {
        assert_eq!(hit_test(&c, &on(&[region])), Some(action));
        assert_eq!(hit_test(&UiCtx { focused: true, ..ctx() }, &on(&[region])), None);
    }
    assert_eq!(hit_test(&c, &on(&[])), None);
}

#[test]
fn the_clear_mark_needs_something_to_clear() {
    let under = [Region::BarSearch, Region::SearchClear];
    assert_eq!(hit_test(&ctx(), &on(&under)), Some(UiAction::ActivateSearch));
    let typed = UiCtx { search: "cat".to_string(), ..ctx() };
    assert_eq!(hit_test(&typed, &on(&under)), Some(UiAction::ClearSearch));
    assert_eq!(hit_test(&typed, &on(&[Region::BarSearch])), Some(UiAction::ActivateSearch));
}

#[test]
fn dialogs_capture_every_click() {
    for m in [MenuKind::Settings, MenuKind::Open] {
        let c = UiCtx { menu: Some(m), ..ctx() };
        for r in [Region::BarOpen, Region::BarSettings, Region::BarSearch, Region::ArrowNext] {
            assert_eq!(hit_test(&c, &on(&[r])), Some(UiAction::CloseMenu));
            assert!(pointer_over_ui(&c, &on(&[r])));
        }
    }
    let settings = UiCtx { menu: Some(MenuKind::Settings), ..ctx() };
    let rows = [
        (Region::SettingsClose, UiAction::CloseMenu),
        (Region::SettingsRow(0), UiAction::ToggleShowTitles),
        (Region::SettingsRow(1), UiAction::ToggleGifAnim),
        (Region::SettingsRow(2), UiAction::ToggleReflections),
        (Region::SettingsRow(3), UiAction::ToggleMem),
    ];
    for (r, a) in rows {
        assert_eq!(hit_test(&settings, &on(&[r, Region::SettingsPanel])), Some(a));
    }
    assert_eq!(hit_test(&settings, &on(&[Region::SettingsPanel])), Some(UiAction::Noop));
    let open = UiCtx { menu: Some(MenuKind::Open), ..ctx() };
    let parts = [
        (Region::OpenClose, UiAction::CloseMenu),
        (Region::OpenFiles, UiAction::OpenFiles),
        (Region::OpenFolder, UiAction::OpenFolder),
        (Region::OpenJson, UiAction::OpenJson),
        (Region::OpenDrop, UiAction::OpenFolder),
        (Region::OpenPanel, UiAction::Noop),
    ];
    for (r, a) in parts {
        assert_eq!(hit_test(&open, &on(&[r])), Some(a));
    }
}

#[test]
fn dropdowns_choose_rows_and_close() {
    let sort = UiCtx { menu: Some(MenuKind::Sort), ..ctx() };
    for (i, m) in SortMode::all().into_iter().enumerate() {
        assert_eq!(hit_test(&sort, &on(&[Region::MenuRow(i)])), Some(UiAction::SetSort(m)));
    }
    let filter = UiCtx { menu: Some(MenuKind::Filter), ..ctx() };
    for (i, f) in Filter::all().into_iter().enumerate() {
        assert_eq!(hit_test(&filter, &on(&[Region::MenuRow(i)])), Some(UiAction::SetFilter(f)));
    }
    assert_eq!(hit_test(&sort, &on(&[Region::BarFilter])), Some(UiAction::CloseMenu));
    assert_eq!(hit_test(&sort, &on(&[])), Some(UiAction::CloseMenu));
    assert_eq!(
        hit_test(&sort, &on(&[Region::BarSort])),
        Some(UiAction::ToggleMenu(MenuKind::Sort))
    );
    let dates = UiCtx { menu: Some(MenuKind::Dates), ..ctx() };
    let parts = [
        (Region::DatesModified, UiAction::SetDateBy(false)),
        (Region::DatesCreated, UiAction::SetDateBy(true)),
        (Region::DatesFrom, UiAction::ActivateDate(1)),
        (Region::DatesTo, UiAction::ActivateDate(2)),
        (Region::DatesClear, UiAction::ClearDates),
        (Region::DatesDone, UiAction::CloseMenu),
        (Region::DatesPanel, UiAction::Noop),
        (Region::BarDates, UiAction::ToggleMenu(MenuKind::Dates)),
    ];
    for (r, a) in parts {
        assert_eq!(hit_test(&dates, &on(&[r])), Some(a));
    }
}

#[test]
fn video_controls_react_while_they_show() {
    let c = UiCtx { focused: true, video: Some(video(true, None)), ..ctx() };
    let parts = [
        (Region::VideoPlay, UiAction::VideoPause),
        (Region::VideoBack, UiAction::VideoSeekRel(-10)),
        (Region::VideoForward, UiAction::VideoSeekRel(10)),
        (Region::VideoAudio, UiAction::ToggleTrackMenu(TrackMenu::Audio)),
        (Region::VideoSubs, UiAction::ToggleTrackMenu(TrackMenu::Sub)),
        (Region::VideoFullscreen, UiAction::Fullscreen),
        (Region::VideoSeek, UiAction::VideoSeekFrac(Frac { bits: 0.25f32.to_bits() })),
        (Region::VideoVolume, UiAction::VideoVolume(Frac { bits: 80f32.to_bits() })),
    ];
    for (r, a) in parts {
        assert_eq!(hit_test(&c, &on(&[Region::VideoBar, r])), Some(a));
    }
    assert_eq!(hit_test(&c, &on(&[Region::VideoBar])), Some(UiAction::CloseMenu));
    assert_eq!(hit_test(&c, &on(&[Region::LightboxBack])), Some(UiAction::Back));
    assert_eq!(hit_test(&c, &on(&[Region::LightboxInfo])), Some(UiAction::ToggleInfo));
    assert!(pointer_over_ui(&c, &on(&[Region::BelowVideoBar])));
    let hidden = UiCtx { focused: true, video: Some(video(false, None)), ..ctx() };
    for (r, _) in parts {
        assert_eq!(hit_test(&hidden, &on(&[Region::VideoBar, r])), None);
    }
    assert_eq!(hit_test(&hidden, &on(&[Region::LightboxBack])), None);
    assert!(!pointer_over_ui(&hidden, &on(&[Region::BelowVideoBar])));
    assert!(pointer_over_ui(&hidden, &on(&[Region::TopStrip])));
}

#[test]
fn track_menus_choose_a_track() {
    let c = UiCtx { focused: true, video: Some(video(true, Some(TrackMenu::Audio))), ..ctx() };
    assert_eq!(hit_test(&c, &on(&[Region::TrackRow(0)])), Some(UiAction::SetAudio(-1)));
    assert_eq!(hit_test(&c, &on(&[Region::TrackRow(2)])), Some(UiAction::SetAudio(7)));
    assert_eq!(hit_test(&c, &on(&[Region::TrackPanel])), Some(UiAction::Noop));
    assert_eq!(
        hit_test(&c, &on(&[])),
        Some(UiAction::ToggleTrackMenu(TrackMenu::Audio))
    );
    assert_eq!(
        hit_test(&c, &on(&[Region::VideoBar, Region::VideoPlay])),
        Some(UiAction::VideoPause)
    );
    let subs = UiCtx { focused: true, video: Some(video(true, Some(TrackMenu::Sub))), ..ctx() };
    assert_eq!(hit_test(&subs, &on(&[Region::TrackRow(0)])), Some(UiAction::SetSub(-1)));
}

#[test]
fn menus_have_labels() {
    let sorts: Vec<&str> = SortMode::all().into_iter().map(|m| m.label()).collect();
    assert_eq!(sorts[0], "Default (as loaded)");
    assert_eq!(sorts[1], "Name (A \u{2192} Z)");
    assert_eq!(sorts[6], "Created (oldest)");
    let filters: Vec<&str> = Filter::all().into_iter().map(|f| f.label()).collect();
    assert_eq!(filters, vec!["All", "Photos", "Videos", "Audio"]);
}
