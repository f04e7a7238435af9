use cooliris::components::{Frac, MenuKind, Pointer, Region, UiAction};
use cooliris::dates::FileTimes;
use cooliris::media::Source;
use cooliris::pointer::Press;
use cooliris::state::{DragMode, Effect, State};
use cooliris::status::{Outside, Playing};
use cooliris::video::Command;
use std::path::PathBuf;

fn state(n: usize) -> State {
    let all = (0..n)
        .map(|i| {
            let name = PathBuf::from(format!("{i:02}.x"));
            if i % 2 == 0 { Source::File(name) } else { Source::Video(name) }
        })
        .collect();
    State::new(all, None, None, 0)
}

fn outside(now: u64) -> Outside {
    Outside {
        player: None,
        mem_mb: None,
        times: FileTimes { modified: None, created: None },
        fullscreen: false,
        now,
    }
}

fn playing() -> Playing {
    Playing {
        has_frame: true,
        timed: true,
        paused: false,
        pos: 1,
        dur: 10,
        aid: 0,
        sid: 0,
        hover_time: 0,
        tracks: Vec::new(),
    }
}

fn on(under: &[Region]) -> Pointer {
    Pointer {
        under: under.to_vec(),
        seek: Frac { bits: 11 },
        volume: Frac { bits: 22 },
        caret: 1,
    }
}

#[test]
fn a_click_on_a_tile_opens_it() {
    let mut s = state(9);
    let left = s.pointer_down(0, &on(&[]), &outside(5));
    assert_eq!(left, vec![Effect::StopWall, Effect::DropScrollTarget]);
    assert_eq!(s.flags.drag_mode, DragMode::Scroll);
    assert_eq!(s.flags.last_activity, 5);
    assert_eq!(s.pointer_up(&Vec::new(), Some(4), false), vec![Effect::ResetLightbox]);
    assert_eq!(s.lightbox.focus, Some(4));
    assert_eq!(s.flags.drag_mode, DragMode::Idle);
}

#[test]
fn a_drag_opens_nothing() {
    let mut s = state(9);
    s.pointer_down(0, &on(&[]), &outside(1));
    assert_eq!(s.pointer_move(&on(&[]), Some(4), false, &outside(2)), vec![Effect::DragWall]);
    assert!(!s.flags.drag_moved);
    assert_eq!(s.pointer_move(&on(&[]), Some(4), true, &outside(3)), vec![Effect::DragWall]);
    assert!(s.flags.drag_moved);
    assert_eq!(s.lightbox.hover, None);
    assert!(s.pointer_up(&Vec::new(), Some(4), false).is_empty());
    assert_eq!(s.lightbox.focus, None);
}

#[test]
fn the_interface_gets_the_click_first() {
    let mut s = state(9);
    s.pointer_down(0, &on(&[Region::BarSort]), &outside(1));
    assert_eq!(s.flags.open_menu, Some(MenuKind::Sort));
    assert_eq!(s.flags.drag_mode, DragMode::Idle);
    s.pointer_down(2, &on(&[Region::BarSort]), &outside(2));
    assert_eq!(s.flags.open_menu, None);
    assert_eq!(s.flags.drag_mode, DragMode::Pan);
    s.fields.search = "cat".to_string();
    s.pointer_down(0, &on(&[Region::BarSearch]), &outside(3));
    assert_eq!((s.fields.search_active, s.fields.caret), (true, 1));
    s.pointer_down(1, &on(&[]), &outside(4));
    assert!(!s.fields.search_active);
}

#[test]
fn sliders_are_dragged() {
    let mut s = state(9);
    s.lightbox.focus = Some(1);
    s.lightbox.video_for = Some(1);
    let out = Outside { player: Some(playing()), ..outside(1) };
    let seek = [Region::VideoBar, Region::VideoSeek];
    assert!(s.pointer_down(0, &on(&seek), &out).is_empty());
    assert_eq!(s.flags.drag_mode, DragMode::VideoSeek);
    assert_eq!(s.flags.seek_preview, Some(Frac { bits: 11 }));
    let moved = Pointer { seek: Frac { bits: 33 }, ..on(&[]) };
    assert!(s.pointer_move(&moved, None, true, &out).is_empty());
    assert_eq!(s.flags.seek_preview, Some(Frac { bits: 33 }));
    assert_eq!(
        s.pointer_up(&Vec::new(), None, true),
        vec![Effect::SeekFrac(Frac { bits: 33 })]
    );
    assert_eq!(s.flags.seek_preview, None);
    let volume = [Region::VideoBar, Region::VideoVolume];
    assert_eq!(
        s.pointer_down(0, &on(&volume), &out),
        vec![Effect::Volume(Frac { bits: 22 })]
    );
    assert_eq!(s.flags.drag_mode, DragMode::VideoVol);
    assert_eq!(
        s.pointer_move(&on(&[]), None, true, &out),
        vec![Effect::Volume(Frac { bits: 22 })]
    );
    assert!(s.pointer_up(&Vec::new(), None, true).is_empty());
}

#[test]
fn arrows_step_or_scroll() {
    let mut s = state(9);
    assert_eq!(
        s.pointer_down(0, &on(&[Region::ArrowPrev]), &outside(1)),
        vec![Effect::DropScrollTarget]
    );
    assert_eq!((s.flags.input_dir, s.flags.wall_scroll_held), (-1, true));
    s.pointer_up(&Vec::new(), Some(3), false);
    assert_eq!((s.flags.input_dir, s.flags.wall_scroll_held), (0, false));
    assert_eq!(s.lightbox.focus, None);
    s.lightbox.focus = Some(4);
    assert_eq!(
        s.pointer_down(0, &on(&[Region::ArrowNext]), &outside(2)),
        vec![Effect::ResetLightbox]
    );
    assert_eq!(s.lightbox.focus, Some(5));
    let mut short = state(3);
    short.pointer_down(0, &on(&[Region::ArrowNext, Region::ScrubBand]), &outside(3));
    assert_eq!(short.flags.drag_mode, DragMode::Scroll);
}

#[test]
fn a_click_on_an_open_video_pauses_it() {
    let mut s = state(9);
    s.lightbox.focus = Some(1);
    assert_eq!(
        s.pointer_down(0, &on(&[]), &outside(1)),
        vec![Effect::Player(Command::CyclePause)]
    );
    assert!(s.pointer_up(&Vec::new(), None, true).is_empty());
    assert_eq!(s.lightbox.focus, Some(1));
}

#[test]
fn a_click_beside_an_open_photo_closes_it() {
    let mut s = state(9);
    s.lightbox.focus = Some(6);
    s.pointer_down(0, &on(&[Region::OpenPicture]), &outside(1));
    assert!(s.pointer_up(&vec![Region::OpenPicture], None, false).is_empty());
    assert_eq!(s.lightbox.focus, Some(6));
    s.pointer_down(0, &on(&[Region::OpenPicture]), &outside(1));
    assert_eq!(
        s.pointer_up(&vec![Region::OpenPicture], None, true),
        vec![Effect::Player(Command::CyclePause)]
    );
    s.pointer_down(0, &on(&[]), &outside(2));
    assert_eq!(s.pointer_up(&Vec::new(), None, false), vec![Effect::Recenter(2)]);
    assert_eq!(s.lightbox.focus, None);
}

#[test]
fn the_scroll_bar_and_grabs() {
    let mut s = state(9);
    assert_eq!(
        s.pointer_down(0, &on(&[Region::ScrubBand]), &outside(1)),
        vec![Effect::ScrubTo]
    );
    assert_eq!(s.flags.drag_mode, DragMode::Scrub);
    assert_eq!(s.pointer_move(&on(&[]), None, true, &outside(2)), vec![Effect::ScrubTo]);
    s.pointer_up(&Vec::new(), None, false);
    assert_eq!(s.pointer_down(1, &on(&[]), &outside(3)), vec![Effect::DropScrollTarget]);
    assert_eq!(s.pointer_move(&on(&[]), None, true, &outside(4)), vec![Effect::PanWall]);
    s.lightbox.focus = Some(0);
    assert_eq!(s.pointer_move(&on(&[]), None, true, &outside(5)), vec![Effect::PanLightbox]);
    s.flags.drag_mode = DragMode::Scroll;
    assert!(s.pointer_move(&on(&[]), None, true, &outside(6)).is_empty());
}

#[test]
fn tiles_are_hovered_where_nothing_lies_above() {
    let mut s = state(9);
    s.pointer_move(&on(&[]), Some(3), true, &outside(7));
    assert_eq!(s.lightbox.hover, Some(3));
    assert_eq!(s.flags.last_activity, 7);
    s.pointer_move(&on(&[Region::TopStrip]), Some(3), true, &outside(8));
    assert_eq!(s.lightbox.hover, None);
    s.lightbox.focus = Some(0);
    s.pointer_move(&on(&[]), Some(3), true, &outside(9));
    assert_eq!(s.lightbox.hover, None);
}

#[test]
fn presses_mean_one_thing() {
    let mut s = state(9);
    let none: Vec<Region> = Vec::new();
    assert_eq!(s.press_of(0, None, &none), Press::Scroll);
    assert_eq!(s.press_of(1, None, &none), Press::Pan);
    assert_eq!(s.press_of(0, Some(UiAction::Back), &none), Press::Act(UiAction::Back));
    assert_eq!(s.press_of(1, None, &vec![Region::ScrubBand]), Press::Scrub);
    assert_eq!(s.press_of(1, None, &vec![Region::ArrowNext]), Press::Pan);
    s.lightbox.focus = Some(1);
    assert_eq!(s.press_of(0, None, &vec![Region::ScrubBand]), Press::TogglePause);
    assert_eq!(s.press_of(2, None, &none), Press::Pan);
    let left = s.press(Press::Step(-1), 0, 4);
    assert_eq!(left, vec![Effect::ResetLightbox]);
    assert_eq!(s.lightbox.focus, Some(0));
}

#[test]
fn hidden_controls_come_back_with_the_click() {
    let mut s = state(9);
    s.lightbox.focus = Some(1);
    let late = 60_000_000_000u64;
    let out = Outside { player: Some(playing()), ..outside(late) };
    assert!(!s.video_controls_visible(&out.player, late));
    let play = [Region::VideoBar, Region::VideoPlay];
    assert_eq!(
        s.pointer_down(0, &on(&play), &out),
        vec![Effect::Player(Command::CyclePause)]
    );
    assert!(s.video_controls_visible(&out.player, late));
}
