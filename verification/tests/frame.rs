use cooliris::components::TrackMenu;
use cooliris::dates::FileTimes;
use cooliris::frame::{
    frame_step, FrameIn, GifMsg, OpenGif, PlayerStep, WallGifMsg,
};
use cooliris::gifs::GifAtlas;
use cooliris::media::Source;
use cooliris::pool::{Finished, Settled, Tile};
use cooliris::state::{Effect, State};
use cooliris::wall::Look;
use std::path::PathBuf;

const S: u64 = 1_000_000_000;

fn state(n: usize) -> State {
    let all = (0..n)
        .map(|i| {
            let name = |ext: &str| PathBuf::from(format!("{i:03}.{ext}"));
            match i % 4 {
                0 => Source::File(name("jpg")),
                1 => Source::File(name("gif")),
                2 => Source::Video(name("mp4")),
                _ => Source::Audio(name("mp3")),
            }
        })
        .collect();
    State::new(all, None, None, 0)
}

fn idle(now: u64) -> FrameIn {
    FrameIn {
        now,
        dt: 16_000_000,
        scroll_col: 0,
        fast: false,
        inbox: Vec::new(),
        gifs: Vec::new(),
        wall_gifs: Vec::new(),
    }
}

fn done(index: usize, full: bool) -> Finished {
    Finished { index, gen: 0, w: 40, h: 30, empty: false, full }
}

fn atlas(frames: usize) -> GifAtlas {
    GifAtlas {
        rgba: Vec::new(),
        grid: 2,
        cell: 256,
        fw: 9,
        fh: 9,
        delays: vec![S / 10; frames],
        total: S / 10 * frames as u64,
    }
}

#[test]
fn frames_last_fifty_milliseconds_at_most() {
    assert_eq!(frame_step(100, 40), 60);
    assert_eq!(frame_step(S, 0), 50_000_000);
    assert_eq!(frame_step(0, S), 0);
}

#[test]
fn slideshows_move_on_every_four_seconds_and_wrap() {
    let mut s = state(3);
    s.lightbox.focus = Some(1);
    s.lightbox.hover = Some(0);
    s.flags.slideshow = true;
    assert!(s.begin_frame(None, 4 * S - 1).is_empty());
    assert_eq!((s.lightbox.focus, s.lightbox.hover), (Some(1), None));
    assert_eq!(s.begin_frame(None, 4 * S), vec![Effect::ResetLightbox]);
    assert_eq!(s.lightbox.focus, Some(2));
    assert!(s.begin_frame(None, 5 * S).is_empty());
    s.begin_frame(None, 8 * S);
    assert_eq!(s.lightbox.focus, Some(0));
    s.lightbox.focus = None;
    s.begin_frame(None, 9 * S);
    assert!(!s.flags.slideshow);
}

#[test]
fn a_changed_query_is_shown_with_the_next_frame() {
    let mut s = state(12);
    s.lightbox.focus = Some(4);
    s.flags.slideshow = true;
    s.fields.search = "gif".to_string();
    s.flags.view_dirty = true;
    let times = vec![FileTimes { modified: None, created: None }; 12];
    assert_eq!(s.begin_frame(Some(&times), 1), vec![Effect::ResetWall]);
    assert_eq!(s.wall.shown, vec![1, 5, 9]);
    assert_eq!(s.lightbox.focus, None);
    assert!(!s.flags.view_dirty && !s.flags.slideshow);
    assert!(s.begin_frame(None, 2).is_empty());
    assert_eq!(s.wall.generation, 1);
}

#[test]
fn a_frame_asks_for_tiles_and_paints_skeletons() {
    let mut s = state(12);
    let mut gif = OpenGif::new();
    let out = s.update(&mut gif, &idle(1));
    assert_eq!(out.stream.jobs.len(), 12);
    assert_eq!(&out.stream.jobs[0..6], &[0, 1, 2, 3, 4, 5]);
    assert_eq!(out.stream.focus_job, None);
    assert_eq!(out.stream.full_job, None);
    assert_eq!(out.end.instances.len(), 12);
    assert!(out.end.instances.iter().all(|i| i.look == Look::Skeleton));
    assert_eq!(out.player, PlayerStep::Keep);
    assert!(!out.end.trim && !out.end.log_memory);
    let input = FrameIn { inbox: vec![done(0, false), done(5, false)], ..idle(2) };
    let out = s.update(&mut gif, &input);
    assert_eq!(out.stream.outcomes[0], Settled::Uploaded { layer: 0 });
    let looks: Vec<Look> = out.end.instances.iter().map(|i| i.look).collect();
    assert_eq!(looks[0], Look::Reflection);
    assert_eq!(looks.iter().filter(|l| **l == Look::Photo).count(), 2);
}

#[test]
fn memory_is_handed_back_after_a_burst() {
    let mut s = state(2);
    let mut gif = OpenGif::new();
    assert!(!s.update(&mut gif, &idle(1)).end.trim);
    let input = FrameIn { inbox: vec![done(0, false), done(1, false)], ..idle(2) };
    assert!(s.update(&mut gif, &input).end.trim);
    assert!(!s.update(&mut gif, &idle(3)).end.trim);
}

#[test]
fn memory_is_logged_every_two_seconds() {
    let mut s = state(1);
    let mut gif = OpenGif::new();
    assert!(!s.update(&mut gif, &idle(5 * S)).end.log_memory);
    s.flags.show_mem = true;
    assert!(s.update(&mut gif, &idle(5 * S)).end.log_memory);
    assert!(!s.update(&mut gif, &idle(7 * S - 1)).end.log_memory);
    assert!(s.update(&mut gif, &idle(7 * S)).end.log_memory);
}

#[test]
fn an_open_photo_gets_its_full_picture() {
    let mut s = state(200);
    let mut gif = OpenGif::new();
    s.lightbox.focus = Some(160);
    let out = s.update(&mut gif, &idle(1));
    assert_eq!(out.stream.focus_job, Some(160));
    assert_eq!(out.stream.full_job, Some(160));
    assert_eq!(s.lightbox.full_pending, Some(160));
    assert_eq!(s.update(&mut gif, &idle(2)).stream.full_job, None);
    let other = FrameIn { inbox: vec![done(164, true)], ..idle(3) };
    assert!(s.update(&mut gif, &other).stream.fulls.is_empty());
    let stale = Finished { gen: 9, ..done(160, true) };
    let input = FrameIn { inbox: vec![stale, done(160, true)], ..idle(4) };
    let out = s.update(&mut gif, &input);
    assert_eq!(out.stream.outcomes, vec![Settled::Full, Settled::Full]);
    assert_eq!(out.stream.fulls, vec![1]);
    assert_eq!(s.lightbox.full_for, Some(160));
    s.lightbox.focus = None;
    s.update(&mut gif, &idle(5));
    assert_eq!((s.lightbox.full_for, s.lightbox.full_pending), (None, None));
}

#[test]
fn failed_full_pictures_do_not_show() {
    let mut s = state(8);
    let mut gif = OpenGif::new();
    s.lightbox.focus = Some(4);
    s.update(&mut gif, &idle(1));
    let broken = Finished { empty: true, ..done(4, true) };
    let out = s.update(&mut gif, &FrameIn { inbox: vec![broken], ..idle(2) });
    assert!(out.stream.fulls.is_empty());
    assert_eq!(s.lightbox.full_for, None);
}

#[test]
fn the_player_follows_the_open_item() {
    let mut s = state(8);
    let mut gif = OpenGif::new();
    s.lightbox.focus = Some(2);
    s.flags.track_menu = Some(TrackMenu::Audio);
    assert_eq!(s.update(&mut gif, &idle(1)).player, PlayerStep::Stop);
    assert_eq!(s.lightbox.video_pending, Some(2));
    assert_eq!(s.flags.track_menu, None);
    assert_eq!(s.update(&mut gif, &idle(2)).player, PlayerStep::Start(2));
    assert_eq!(s.update(&mut gif, &idle(3)).player, PlayerStep::Keep);
    s.lightbox.focus = Some(3);
    assert_eq!(s.update(&mut gif, &idle(4)).player, PlayerStep::Stop);
    assert_eq!(s.update(&mut gif, &idle(5)).player, PlayerStep::Start(3));
    s.lightbox.focus = Some(4);
    assert_eq!(s.update(&mut gif, &idle(6)).player, PlayerStep::Stop);
    assert_eq!(s.update(&mut gif, &idle(7)).player, PlayerStep::Keep);
    s.lightbox.focus = None;
    assert_eq!(s.update(&mut gif, &idle(8)).player, PlayerStep::Stop);
}

#[test]
fn a_new_view_starts_no_player() {
    let mut s = state(8);
    let mut gif = OpenGif::new();
    s.lightbox.focus = Some(2);
    assert_eq!(s.update(&mut gif, &idle(1)).player, PlayerStep::Stop);
    assert_eq!(s.lightbox.video_pending, Some(2));
    s.flags.view_dirty = true;
    let times = vec![FileTimes { modified: None, created: None }; 8];
    s.begin_frame(Some(&times), 2);
    assert_eq!((s.lightbox.focus, s.lightbox.video_pending), (None, None));
    assert_eq!(s.update(&mut gif, &idle(2)).player, PlayerStep::Keep);
}

#[test]
fn what_is_loaded_stays_around_the_centre() {
    let mut s = state(900);
    let mut gif = OpenGif::new();
    let mut waiting: Vec<usize> = Vec::new();
    for n in 0..400u64 {
        let col = (n / 2) as i64;
        let take = waiting.len().min(8);
        let inbox = waiting.drain(..take).map(|i| done(i, false)).collect();
        let out = s.update(&mut gif, &FrameIn { scroll_col: col, inbox, ..idle(n) });
        waiting.extend(out.stream.jobs);
        assert!(s.wall.pool.inflight() <= 32);
        let mut decoded = 0;
        for i in s.wall.pool.indices() {
            if s.wall.pool.get(i) != Some(Tile::Loading) {
                assert!(((i / 3) as i64 - col).abs() <= 16);
                decoded += 1;
            }
        }
        assert!(decoded <= 99);
    }
    s.lightbox.focus = Some(0);
    s.update(&mut gif, &FrameIn { scroll_col: 199, ..idle(400) });
    assert!(s.wall.pool.get(0).is_some());
}

#[test]
fn an_open_gif_plays() {
    let mut s = state(8);
    let mut gif = OpenGif::new();
    s.lightbox.focus = Some(5);
    let out = s.update(&mut gif, &idle(1));
    assert_eq!(out.gif.decode, Some(5));
    assert_eq!(out.stream.full_job, None);
    assert_eq!(s.update(&mut gif, &idle(2)).gif.decode, None);
    let msg = |gen: u64, n: usize| GifMsg { index: 5, gen, delays: vec![20_000_000; n] };
    let late = FrameIn { gifs: vec![msg(3, 2)], ..idle(3) };
    let out = s.update(&mut gif, &late);
    assert!(out.gif.shown.is_empty() && gif.anim.is_none());
    assert_eq!(s.update(&mut gif, &idle(4)).gif.decode, Some(5));
    let input = FrameIn { gifs: vec![msg(0, 3)], ..idle(5) };
    let out = s.update(&mut gif, &input);
    assert_eq!(out.gif.shown, vec![0]);
    assert_eq!(out.gif.frame, Some(0));
    assert_eq!(s.lightbox.full_for, Some(5));
    assert_eq!(s.update(&mut gif, &idle(6)).gif.frame, Some(1));
    assert_eq!(s.update(&mut gif, &idle(7)).gif.frame, Some(2));
    assert_eq!(s.update(&mut gif, &idle(8)).gif.frame, Some(0));
    s.lightbox.focus = None;
    s.update(&mut gif, &idle(9));
    assert!(gif.anim.is_none() && gif.pending.is_none());
}

#[test]
fn gifs_on_the_wall_are_animated() {
    let mut s = state(8);
    let mut gif = OpenGif::new();
    s.update(&mut gif, &idle(1));
    let input = FrameIn { inbox: vec![done(1, false), done(5, false)], fast: true, ..idle(2) };
    assert!(s.update(&mut gif, &input).animation.started.is_empty());
    let out = s.update(&mut gif, &idle(3));
    assert_eq!(out.animation.started, vec![1, 5]);
    let msgs = vec![
        WallGifMsg { index: 1, gen: 0, atlas: Some(atlas(4)) },
        WallGifMsg { index: 5, gen: 7, atlas: Some(atlas(4)) },
    ];
    let out = s.update(&mut gif, &FrameIn { wall_gifs: msgs, ..idle(4) });
    assert_eq!(out.animation.layers, vec![Some(0), None]);
    let shown = out.end.instances.iter().find(|i| i.index == 1).unwrap();
    assert_eq!(shown.frame, Some(0));
    let out = s.update(&mut gif, &idle(350_000_000));
    let shown = out.end.instances.iter().find(|i| i.index == 1).unwrap();
    assert_eq!(shown.frame, Some(3));
    s.flags.gif_anim = false;
    let out = s.update(&mut gif, &idle(2 * S));
    let shown = out.end.instances.iter().find(|i| i.index == 1).unwrap();
    assert_eq!(shown.frame, Some(3));
}

#[test]
fn an_open_item_moves_the_window() {
    let mut s = state(600);
    assert_eq!(s.view_center(7), 7);
    s.lightbox.focus = Some(301);
    assert_eq!(s.view_center(7), 100);
    let w = s.window(7);
    assert_eq!((w.first, w.last), (84, 116));
}
