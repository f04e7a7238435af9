use cooliris::components::{SortMode, TrackMenu};
use cooliris::dates::{FileTime, FileTimes};
use cooliris::gifs::GifAtlas;
use cooliris::media::Source;
use cooliris::pool::{Finished, Window};
use cooliris::state::State;
use cooliris::status::{LbDraw, Outside, Playing};
use cooliris::system::memory_line;
use cooliris::video::Track;
use std::path::PathBuf;

fn state() -> State {
    let all = vec![
        Source::File(PathBuf::from("/pics/a.gif")),
        Source::Video(PathBuf::from("/pics/holiday.in.rome.mp4")),
        Source::Audio(PathBuf::from("/pics/song.mp3")),
        Source::Placeholder(0),
        Source::File(PathBuf::from("/pics/a-name-that-is-much-too-long-for-a-label.jpg")),
    ];
    State::new(all, None, None, 0)
}

fn playing() -> Playing {
    let track = |id: i64, audio: bool| Track {
        id,
        audio,
        label: format!("t{id}"),
        selected: id == 1,
    };
    Playing {
        has_frame: true,
        timed: true,
        paused: false,
        pos: 3,
        dur: 9,
        aid: 1,
        sid: 2,
        hover_time: 4,
        tracks: vec![track(1, true), track(2, false), track(3, true)],
    }
}

fn outside(player: Option<Playing>, now: u64) -> Outside {
    let day = Some(FileTime { secs: 86_400, nanos: 0 });
    Outside {
        player,
        mem_mb: Some(44),
        times: FileTimes { modified: day, created: None },
        fullscreen: true,
        now,
    }
}

fn load(s: &mut State, tiles: &[usize]) {
    let window = Window { first: 0, last: s.wall.columns() - 1 };
    s.wall.pool.dispatch(window, 0, s.wall.shown.len());
    for &i in tiles {
        let res = Finished { index: i, gen: 0, w: 9, h: 9, empty: false, full: false };
        s.wall.pool.settle(res, 0, true);
    }
}

#[test]
fn the_interface_sees_the_state() {
    let mut s = state();
    load(&mut s, &[0, 3]);
    s.fields.search = "q".to_string();
    s.flags.sort_mode = SortMode::NameAsc;
    let c = s.ui_ctx(&outside(None, 0));
    assert_eq!((c.total, c.ready, c.inflight), (5, 2, 3));
    assert_eq!((c.search.as_str(), c.sort, c.fullscreen), ("q", SortMode::NameAsc, true));
    assert_eq!(c.mem_mb, None);
    assert!(c.info.is_none() && c.video.is_none() && !c.focused && c.caret_on);
    s.flags.show_mem = true;
    assert_eq!(s.ui_ctx(&outside(None, 0)).mem_mb, Some(44));
}

#[test]
fn carets_blink() {
    let s = state();
    assert!(s.ui_ctx(&outside(None, 529_999_999)).caret_on);
    assert!(!s.ui_ctx(&outside(None, 530_000_000)).caret_on);
    assert!(!s.ui_ctx(&outside(None, 1_059_999_999)).caret_on);
    assert!(s.ui_ctx(&outside(None, 1_060_000_000)).caret_on);
}

#[test]
fn info_cards_name_the_open_item() {
    let mut s = state();
    s.lightbox.focus = Some(1);
    assert!(s.ui_ctx(&outside(None, 0)).info.is_none());
    s.flags.show_info = true;
    let card = s.ui_ctx(&outside(None, 0)).info.unwrap();
    assert_eq!(card.title, "holiday.in.rome");
    assert_eq!(card.path, "/pics/holiday.in.rome.mp4");
    assert_eq!(card.meta, "2 / 5  \u{b7}  Modified 1/2/1970");
    s.flags.sort_mode = SortMode::CreatedOld;
    let card = s.ui_ctx(&outside(None, 0)).info.unwrap();
    assert_eq!(card.meta, "2 / 5  \u{b7}  Created 1/2/1970");
    let unknown = Outside {
        times: FileTimes { modified: None, created: None },
        ..outside(None, 0)
    };
    assert_eq!(s.ui_ctx(&unknown).info.unwrap().meta, "2 / 5");
    s.lightbox.focus = Some(3);
    assert!(s.ui_ctx(&outside(None, 0)).info.is_none());
}

#[test]
fn controls_wait_for_the_player() {
    let mut s = state();
    s.lightbox.focus = Some(1);
    assert!(s.media_starting(&None));
    assert!(s.media_starting(&Some(Playing { has_frame: false, ..playing() })));
    assert!(!s.media_starting(&Some(playing())));
    s.lightbox.video_for = Some(1);
    s.lightbox.video_pending = Some(1);
    assert!(s.media_starting(&Some(playing())));
    s.lightbox.video_pending = None;
    s.lightbox.focus = Some(2);
    assert!(s.media_starting(&Some(playing())));
    s.lightbox.full_for = Some(2);
    assert!(!s.media_starting(&Some(playing())));
    assert!(s.media_starting(&Some(Playing { timed: false, ..playing() })));
    s.lightbox.focus = Some(0);
    assert!(!s.media_starting(&None));
    s.lightbox.focus = None;
    assert!(!s.media_starting(&None));
}

#[test]
fn controls_hide_when_idle() {
    let mut s = state();
    let player = Some(playing());
    assert!(!s.video_controls_visible(&player, 0));
    s.lightbox.focus = Some(1);
    assert!(s.video_controls_visible(&player, 2_499_999_999));
    assert!(!s.video_controls_visible(&player, 2_500_000_000));
    assert!(!s.lightbox_controls_visible(&player, 2_500_000_000));
    assert!(s.video_controls_visible(&Some(Playing { paused: true, ..playing() }), 9_000_000_000));
    assert!(!s.video_controls_visible(&None, 0));
    s.flags.track_menu = Some(TrackMenu::Sub);
    assert!(s.video_controls_visible(&player, 9_000_000_000));
    s.flags.track_menu = None;
    s.lightbox.focus = Some(0);
    assert!(s.lightbox_controls_visible(&player, 9_000_000_000));
}

#[test]
fn tracks_are_listed_while_their_menu_is_open() {
    let mut s = state();
    s.lightbox.focus = Some(1);
    let v = s.ui_ctx(&outside(Some(playing()), 0)).video.unwrap();
    assert!(v.audio_tracks.is_empty() && v.sub_tracks.is_empty());
    assert_eq!((v.pos, v.dur, v.aid, v.sid, v.visible), (3, 9, 1, 2, true));
    s.flags.track_menu = Some(TrackMenu::Audio);
    let v = s.ui_ctx(&outside(Some(playing()), 0)).video.unwrap();
    let ids: Vec<i64> = v.audio_tracks.iter().map(|t| t.id).collect();
    assert_eq!(ids, vec![1, 3]);
    assert_eq!(v.sub_tracks[0].label, "t2");
    assert!(v.audio_tracks[0].selected && !v.audio_tracks[1].selected);
}

#[test]
fn the_middle_of_the_screen_says_what_goes_on() {
    let mut s = state();
    assert_eq!(s.status_text(true), None);
    s.flags.scanning = true;
    assert_eq!(s.status_text(true).unwrap(), "Scanning folder\u{2026}");
    s.flags.scan_count = 500;
    assert_eq!(s.status_text(true).unwrap(), "Scanning folder\u{2026}  500 found");
    s.flags.scanning = false;
    load(&mut s, &[0]);
    assert_eq!(s.status_text(true).unwrap(), "Loading\u{2026}");
    s.lightbox.focus = Some(1);
    assert_eq!(s.status_text(true), None);
    assert_eq!(
        s.status_text(false).unwrap(),
        "\u{25b6}  video \u{2014} rebuild with  --features video  to play"
    );
    s.lightbox.focus = Some(0);
    assert_eq!(s.status_text(false), None);
}

#[test]
fn tiles_are_named() {
    let mut s = state();
    load(&mut s, &[0, 1, 3, 4]);
    assert_eq!(s.tile_name(0).unwrap(), "a.gif");
    assert_eq!(s.tile_name(3), None);
    assert_eq!(s.tile_name(99), None);
    assert_eq!(s.tile_name(4).unwrap(), "a-name-that-is-much-t\u{2026}");
    s.lightbox.hover = Some(0);
    assert_eq!(s.hover_label().unwrap(), "a.gif");
    assert!(s.wall_titles(&vec![0, 1]).is_empty());
    s.flags.show_titles = true;
    assert_eq!(s.hover_label(), None);
    let titles = s.wall_titles(&vec![0, 1, 2, 3, 4]);
    let shown: Vec<(usize, &str)> = titles.iter().map(|t| (t.index, t.name.as_str())).collect();
    assert_eq!(
        shown,
        vec![(0, "a.gif"), (1, "holiday.in.rome.mp4"), (4, "a-name-that-is-much-t\u{2026}")]
    );
    assert_eq!(s.wall_titles(&vec![0; 200]).len(), 80);
    s.flags.scanning = true;
    assert!(s.wall_titles(&vec![0]).is_empty());
}

#[test]
fn arrows_and_ticks_follow_the_library() {
    let mut s = state();
    assert!(s.scrolls());
    assert_eq!(s.arrows(&None, 0), (true, true));
    assert_eq!(s.scrub_ticks(), Some(24));
    s.lightbox.focus = Some(0);
    assert_eq!(s.arrows(&None, 0), (false, true));
    s.lightbox.focus = Some(4);
    assert_eq!(s.arrows(&None, 0), (true, false));
    assert_eq!(s.scrub_ticks(), None);
    s.lightbox.focus = Some(1);
    assert_eq!(s.arrows(&Some(playing()), 9_000_000_000), (false, false));
    let many = |n: usize| State::new((0..n).map(Source::Placeholder).collect(), None, None, 0);
    assert_eq!(many(120).scrub_ticks(), Some(40));
    assert_eq!(many(3000).scrub_ticks(), Some(96));
    assert_eq!(many(3).scrub_ticks(), None);
    assert_eq!(many(3).arrows(&None, 0), (false, false));
}

#[test]
fn the_lightbox_waits_for_the_full_picture() {
    let mut s = state();
    load(&mut s, &[0, 1]);
    assert_eq!(s.prepare_lightbox(&None), LbDraw::Nothing);
    s.lightbox.focus = Some(0);
    assert_eq!(s.prepare_lightbox(&None), LbDraw::Nothing);
    let atlas = GifAtlas {
        rgba: Vec::new(),
        grid: 1,
        cell: 512,
        fw: 9,
        fh: 9,
        delays: vec![100],
        total: 100,
    };
    s.wall.deliver_gif(0, 0, Some(&atlas), 0);
    assert_eq!(s.prepare_lightbox(&None), LbDraw::Cell { layer: 0, frame: 0 });
    s.lightbox.full_for = Some(0);
    assert_eq!(s.prepare_lightbox(&None), LbDraw::Full);
    s.lightbox.focus = Some(1);
    s.lightbox.full_for = Some(1);
    assert_eq!(s.prepare_lightbox(&Some(playing())), LbDraw::Nothing);
    s.lightbox.focus = Some(2);
    s.lightbox.full_for = Some(2);
    assert_eq!(s.prepare_lightbox(&None), LbDraw::Nothing);
    assert_eq!(s.prepare_lightbox(&Some(playing())), LbDraw::Full);
}

#[test]
fn the_memory_log_counts_what_is_held() {
    let mut s = state();
    load(&mut s, &[0, 4]);
    let atlas = GifAtlas {
        rgba: Vec::new(),
        grid: 2,
        cell: 256,
        fw: 9,
        fh: 9,
        delays: vec![100; 3],
        total: 300,
    };
    s.wall.deliver_gif(0, 0, Some(&atlas), 0);
    s.wall.deliver_gif(4, 0, Some(&atlas), 0);
    let m = s.mem_stats(12, 34, 5, true);
    assert_eq!(
        memory_line(m),
        "12 | RSS 34 MB | resident 5 (ready 2) | free_layers 126/128 | inflight 3 | \
         full_for None gif_frames 5 video true | wall_gifs 2 (6f, 0MB) | total 5\n"
    );
}
