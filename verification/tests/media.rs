use cooliris::media::{
    audio_exts, classify, gather_from_files, gather_sources, image_exts, is_gif, is_svg, media_exts,
    scan_step, video_exts, Kind, Source,
};
use std::path::PathBuf;

#[test]
fn extensions_decide_the_kind() {
    assert_eq!(classify(&PathBuf::from("a/b/cat.GIF")), Some(Kind::Image));
    assert_eq!(classify(&PathBuf::from("clip.MKV")), Some(Kind::Video));
    assert_eq!(classify(&PathBuf::from("song.opus")), Some(Kind::Audio));
    assert_eq!(classify(&PathBuf::from("notes.txt")), None);
    assert_eq!(classify(&PathBuf::from(".mp4")), None);
    assert_eq!(classify(&PathBuf::from("mp4")), None);
    assert_eq!(classify(&PathBuf::from("a.mp4/..")), None);
    assert!(is_gif(&PathBuf::from("x.gIf")));
    assert!(!is_gif(&PathBuf::from("x.gif.png")));
    assert!(is_svg(&PathBuf::from("x.svg")));
}

#[test]
fn picked_files_keep_their_order() {
    let files = vec![
        PathBuf::from("z.mp4"),
        PathBuf::from("readme.md"),
        PathBuf::from("a.jpg"),
        PathBuf::from("m.mp3"),
    ];
    let sources = gather_from_files(files);
    assert_eq!(sources.len(), 3);
    assert!(matches!(&sources[0], Source::Video(p) if p == &PathBuf::from("z.mp4")));
    assert!(matches!(&sources[1], Source::File(p) if p == &PathBuf::from("a.jpg")));
    assert!(matches!(&sources[2], Source::Audio(p) if p == &PathBuf::from("m.mp3")));
}

#[test]
fn scanned_folders_are_in_path_order() {
    let found = vec![
        PathBuf::from("d/z.png"),
        PathBuf::from("d/a/q.mp4"),
        PathBuf::from("d/a.txt"),
        PathBuf::from("d/a.mp3"),
    ];
    let sources = gather_sources(Some(found));
    assert_eq!(sources.len(), 3);
    assert!(matches!(&sources[0], Source::Video(p) if p == &PathBuf::from("d/a/q.mp4")));
    assert!(matches!(&sources[1], Source::Audio(p) if p == &PathBuf::from("d/a.mp3")));
    assert!(matches!(&sources[2], Source::File(p) if p == &PathBuf::from("d/z.png")));
}

#[test]
fn samples_stand_in_for_an_empty_library() {
    for found in [None, Some(Vec::new()), Some(vec![PathBuf::from("x.txt")])] {
        let sources = gather_sources(found);
        assert_eq!(sources.len(), 18);
        assert!(matches!(sources[0], Source::Placeholder(0)));
        assert!(matches!(sources[17], Source::Placeholder(17)));
    }
}

#[test]
fn extension_lists_hold_what_is_classified() {
    assert_eq!(media_exts().len(), image_exts().len() + video_exts().len() + audio_exts().len());
    for ext in media_exts() {
        assert!(classify(&PathBuf::from(format!("f.{ext}"))).is_some());
    }
    for ext in image_exts() {
        assert_eq!(classify(&PathBuf::from(format!("f.{ext}"))), Some(Kind::Image));
    }
    for ext in video_exts() {
        assert_eq!(classify(&PathBuf::from(format!("f.{ext}"))), Some(Kind::Video));
    }
    for ext in audio_exts() {
        assert_eq!(classify(&PathBuf::from(format!("f.{ext}"))), Some(Kind::Audio));
    }
}

#[test]
fn scans_report_now_and_then_and_stop() {
    assert!(!scan_step(499).report);
    assert!(scan_step(500).report);
    assert!(!scan_step(501).report);
    assert!(!scan_step(199_999).stop);
    assert!(scan_step(200_000).stop);
}
