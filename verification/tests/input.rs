use cooliris::components::MenuKind;
use cooliris::dates::FileTimes;
use cooliris::input::{
    picked_files, picked_folder, picked_manifest, EditKey, Key, LoadMsg,
};
use cooliris::media::{OpenKind, Source};
use cooliris::state::{Effect, State};
use cooliris::video::Command;
use std::path::PathBuf;

fn state(n: usize) -> State {
    let all = (0..n)
        .map(|i| {
            let name = PathBuf::from(format!("{i:02}.x"));
            if i % 2 == 0 { Source::File(name) } else { Source::Video(name) }
        })
        .collect();
    State::new(all, None, None, 0)
}

#[test]
fn typing_edits_the_active_field() {
    let mut s = state(1);
    s.input_char("x", 9);
    assert!(!s.flags.view_dirty);
    s.fields.search_active = true;
    assert!(s.input_active());
    s.input_char("c", 9);
    s.input_char("at", 10);
    assert_eq!((s.fields.search.as_str(), s.fields.caret), ("cat", 3));
    assert!(s.take_view_dirty());
    assert!(!s.take_view_dirty());
    assert_eq!(s.flags.last_activity, 10);
    s.caret_left();
    s.backspace();
    assert_eq!((s.fields.search.as_str(), s.fields.caret), ("ct", 1));
    s.delete_forward();
    assert_eq!((s.fields.search.as_str(), s.fields.caret), ("c", 1));
    s.take_view_dirty();
    s.delete_forward();
    assert!(!s.flags.view_dirty);
    s.caret_home();
    s.backspace();
    assert_eq!((s.fields.search.as_str(), s.fields.caret), ("c", 0));
    s.caret_left();
    assert_eq!(s.fields.caret, 0);
    s.caret_right();
    s.caret_right();
    assert_eq!(s.fields.caret, 1);
    s.caret_home();
    s.caret_end();
    assert_eq!(s.fields.caret, 1);
    s.input_done();
    assert!(!s.input_active());
}

#[test]
fn backspace_takes_back_one_character() {
    let mut s = state(1);
    s.fields.date_active = 1;
    s.fields.date_from = "2024-1".to_string();
    s.fields.caret = 4;
    s.edit_key(EditKey::Other, Some("7"), 3);
    assert_eq!((s.fields.date_from.as_str(), s.fields.caret), ("20247-1", 5));
    s.edit_key(EditKey::Backspace, None, 4);
    assert_eq!((s.fields.date_from.as_str(), s.fields.caret), ("2024-1", 4));
    s.edit_key(EditKey::Other, Some("x"), 5);
    assert_eq!(s.fields.date_from, "2024-1");
    s.edit_key(EditKey::Other, None, 6);
    assert_eq!(s.flags.last_activity, 5);
}

#[test]
fn keys_edit_like_their_methods() {
    let mut s = state(1);
    s.fields.search_active = true;
    s.fields.search = "abc".to_string();
    s.edit_key(EditKey::End, None, 0);
    assert_eq!(s.fields.caret, 3);
    s.edit_key(EditKey::Left, None, 0);
    s.edit_key(EditKey::Delete, None, 0);
    assert_eq!(s.fields.search, "ab");
    s.edit_key(EditKey::Home, None, 0);
    s.edit_key(EditKey::Right, None, 0);
    assert_eq!(s.fields.caret, 1);
    s.edit_key(EditKey::Done, None, 0);
    assert!(!s.fields.search_active);
}

#[test]
fn arrows_scroll_the_wall_step_photos_and_seek_videos() {
    let mut s = state(6);
    assert_eq!(s.press_key(Key::Right, true, false), vec![Effect::DropScrollTarget]);
    assert_eq!(s.flags.input_dir, 1);
    assert!(s.press_key(Key::Right, false, false).is_empty());
    assert_eq!(s.flags.input_dir, 0);
    s.press_key(Key::Left, true, false);
    assert_eq!(s.flags.input_dir, -1);
    s.lightbox.focus = Some(2);
    assert_eq!(s.press_key(Key::Right, true, false), vec![Effect::ResetLightbox]);
    assert_eq!(s.lightbox.focus, Some(3));
    assert_eq!(s.flags.input_dir, -1);
    assert_eq!(
        s.press_key(Key::Right, true, false),
        vec![Effect::Player(Command::Seek(10))]
    );
    assert_eq!(
        s.press_key(Key::Left, true, false),
        vec![Effect::Player(Command::Seek(-10))]
    );
    assert_eq!(s.lightbox.focus, Some(3));
    assert!(s.press_key(Key::Left, false, false).is_empty());
    s.lightbox.focus = Some(0);
    s.press_key(Key::Left, true, false);
    assert_eq!(s.lightbox.focus, Some(0));
}

#[test]
fn other_keys_do_one_thing_each() {
    let mut s = state(2);
    let player = |c: Command| vec![Effect::Player(c)];
    assert_eq!(s.press_key(Key::Up, true, false), player(Command::AddVolume(5)));
    assert_eq!(s.press_key(Key::Down, true, false), player(Command::AddVolume(-5)));
    assert_eq!(s.press_key(Key::Space, true, false), player(Command::CyclePause));
    assert_eq!(s.press_key(Key::A, true, false), player(Command::CycleAudio));
    assert_eq!(s.press_key(Key::S, true, false), player(Command::CycleSubs));
    assert_eq!(s.press_key(Key::F, true, false), vec![Effect::ToggleFullscreen]);
    assert!(s.press_key(Key::I, true, false).is_empty());
    assert!(s.flags.show_info);
    s.flags.scan_count = 9;
    assert_eq!(s.press_key(Key::O, true, false), vec![Effect::PickFolder]);
    assert!(s.flags.scanning);
    assert_eq!(s.flags.scan_count, 0);
    for k in [Key::Up, Key::Space, Key::O, Key::I, Key::F, Key::Escape] {
        assert!(s.press_key(k, false, false).is_empty());
    }
    assert!(s.flags.show_info);
}

#[test]
fn escape_leaves_one_thing_after_the_other() {
    let mut s = state(9);
    s.lightbox.focus = Some(8);
    assert_eq!(s.press_key(Key::Escape, true, true), vec![Effect::Recenter(2)]);
    assert_eq!(s.lightbox.focus, None);
    assert_eq!(s.press_key(Key::Escape, true, true), vec![Effect::LeaveFullscreen]);
    assert_eq!(s.press_key(Key::Escape, true, false), vec![Effect::Quit]);
}

#[test]
fn steps_stay_within_the_library() {
    let mut s = state(3);
    assert!(s.navigate(1).is_empty());
    s.lightbox.focus = Some(1);
    assert_eq!(s.navigate(1), vec![Effect::ResetLightbox]);
    assert_eq!(s.lightbox.focus, Some(2));
    s.navigate(1);
    assert_eq!(s.lightbox.focus, Some(2));
    s.navigate(i64::MIN);
    assert_eq!(s.lightbox.focus, Some(0));
    s.navigate(7);
    assert_eq!(s.lightbox.focus, Some(2));
    s.navigate(-1);
    assert_eq!(s.lightbox.focus, Some(1));
    assert!(s.is_focused() && s.focused_is_video());
    assert_eq!(s.back(), vec![Effect::Recenter(0)]);
    assert!(s.back().is_empty());
}

#[test]
fn requests_are_taken_once() {
    let mut s = state(1);
    s.flags.open_request = Some(OpenKind::Json);
    s.flags.fullscreen_requested = true;
    assert_eq!(s.take_requests(), vec![Effect::PickJson, Effect::ToggleFullscreen]);
    assert!(s.flags.scanning);
    assert!(s.take_requests().is_empty());
    s.flags.open_request = Some(OpenKind::Files);
    assert_eq!(s.take_open_request(), Some(OpenKind::Files));
    assert_eq!(s.take_open_request(), None);
    s.flags.fullscreen_requested = true;
    assert!(s.take_fullscreen_request());
    assert!(!s.take_fullscreen_request());
}

#[test]
fn dropped_paths_are_scanned_unless_they_are_loaded() {
    let mut s = State::new(Vec::new(), Some(PathBuf::from("/pics/a")), None, 0);
    s.flags.open_menu = Some(MenuKind::Open);
    s.fields.date_active = 2;
    assert_eq!(s.drop_path(PathBuf::from("/pics/a/x.jpg"), false), None);
    assert_eq!(s.flags.open_menu, None);
    assert_eq!(s.fields.date_active, 0);
    assert!(!s.flags.scanning);
    assert_eq!(s.drop_path(PathBuf::from("/pics//a/."), true), None);
    let other = PathBuf::from("/pics/b");
    assert_eq!(s.drop_path(other.clone(), true), Some(other));
    assert!(s.flags.scanning);
    assert_eq!(s.drop_path(PathBuf::from("/"), false), None);
    assert_eq!(s.current_folder(), Some(&PathBuf::from("/pics/a")));
}

#[test]
fn picked_files_become_a_library() {
    let files = vec![PathBuf::from("/p/b.mp4"), PathBuf::from("/q/a.jpg")];
    match picked_files(Some(files)) {
        LoadMsg::Library(folder, sources) => {
            assert_eq!(folder, PathBuf::from("/p"));
            assert_eq!(sources.len(), 2);
        }
        _ => panic!("no library"),
    }
    assert!(matches!(picked_files(Some(vec![PathBuf::from("a.txt")])), LoadMsg::Cancelled));
    assert!(matches!(picked_files(Some(Vec::new())), LoadMsg::Cancelled));
    assert!(matches!(picked_files(None), LoadMsg::Cancelled));
}

#[test]
fn picked_manifests_and_folders_become_libraries() {
    let listed = vec![PathBuf::from("/l/a.png"), PathBuf::from("/l/b.png")];
    match picked_manifest(&PathBuf::from("/l/list.json"), &listed, &vec![false, true]) {
        LoadMsg::Library(folder, sources) => {
            assert_eq!(folder, PathBuf::from("/l"));
            assert_eq!(sources.len(), 1);
        }
        _ => panic!("no library"),
    }
    let none = picked_manifest(&PathBuf::from("/l/list.json"), &listed, &vec![false, false]);
    assert!(matches!(none, LoadMsg::Cancelled));
    match picked_folder(PathBuf::from("/e"), Vec::new()) {
        LoadMsg::Library(folder, sources) => {
            assert_eq!(folder, PathBuf::from("/e"));
            assert_eq!(sources.len(), 18);
        }
        _ => panic!("no library"),
    }
}

#[test]
fn reports_are_taken_over() {
    let mut s = state(3);
    s.set_scanning(true);
    s.take_load(LoadMsg::ScanProgress(500), &Vec::new());
    assert_eq!((s.flags.scanning, s.flags.scan_count), (true, 500));
    s.take_load(LoadMsg::Cancelled, &Vec::new());
    assert_eq!((s.flags.scanning, s.flags.scan_count), (false, 500));
    s.set_scanning(true);
    assert_eq!(s.flags.scan_count, 0);
    s.set_scan_count(7);
    s.lightbox.video_for = Some(1);
    s.lightbox.video_pending = Some(1);
    s.wall.prev_inflight = 5;
    s.wall.gifs.tick = 9;
    s.wall.gifs.pending = vec![1];
    let lib = LoadMsg::Library(PathBuf::from("d"), vec![Source::Placeholder(0)]);
    s.take_load(lib, &vec![FileTimes { modified: None, created: None }]);
    assert_eq!(s.wall.shown, vec![0]);
    assert_eq!(s.wall.folder, Some(PathBuf::from("d")));
    assert_eq!((s.wall.prev_inflight, s.wall.gifs.tick), (5, 9));
    assert!(s.wall.gifs.pending.is_empty());
    assert_eq!((s.lightbox.video_for, s.lightbox.video_pending), (None, None));
    assert!(!s.flags.scanning);
}

#[test]
fn small_setters() {
    let mut s = state(2);
    s.toggle_info();
    assert!(s.flags.show_info);
    s.flags.open_menu = Some(MenuKind::Dates);
    s.fields.date_active = 1;
    s.close_menu();
    assert_eq!((s.flags.open_menu, s.fields.date_active), (None, 0));
    assert_eq!(s.set_dir(1), vec![Effect::DropScrollTarget]);
    assert!(s.set_dir(0).is_empty());
    assert_eq!(s.flags.input_dir, 0);
}
