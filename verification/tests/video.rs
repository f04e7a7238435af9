use cooliris::video::{
    command_args, cover_thumb, ffmpeg_frame, has_shown, lang_full_name, tracks, video_thumb,
    Attempt, Command, RawTrack,
};

fn raw(kind: &str, id: i64, title: &str, lang: &str, codec: &str) -> RawTrack {
    RawTrack {
        kind: kind.to_string(),
        id,
        selected: id == 1,
        title: title.to_string(),
        lang: lang.to_string(),
        codec: codec.to_string(),
    }
}

#[test]
fn posters_are_tried_three_ways() {
    assert_eq!(video_thumb(0), Some(Attempt { seek: Some(1), pick: false }));
    assert_eq!(video_thumb(1), Some(Attempt { seek: Some(0), pick: false }));
    assert_eq!(video_thumb(2), Some(Attempt { seek: None, pick: true }));
    assert_eq!(video_thumb(3), None);
}

#[test]
fn helper_arguments_are_spelled_out() {
    let first = ffmpeg_frame(Attempt { seek: Some(1), pick: false }, 512);
    assert_eq!(first.before, vec!["-nostdin", "-loglevel", "error", "-ss", "1", "-i"]);
    assert_eq!(
        first.after,
        vec![
            "-frames:v", "1", "-an", "-sn", "-vf",
            "scale=512:512:force_original_aspect_ratio=decrease",
            "-f", "image2pipe", "-vcodec", "png", "pipe:1",
        ]
    );
    let last = ffmpeg_frame(Attempt { seek: None, pick: true }, 2048);
    assert_eq!(last.before, vec!["-nostdin", "-loglevel", "error", "-i"]);
    assert_eq!(
        last.after[5],
        "thumbnail,scale=2048:2048:force_original_aspect_ratio=decrease"
    );
    let cover = cover_thumb(512);
    assert_eq!(cover.before, vec!["-nostdin", "-loglevel", "error", "-i"]);
    assert_eq!(cover.after.len(), 9);
    assert_eq!(cover.after[3], "scale=512:512:force_original_aspect_ratio=decrease");
}

#[test]
fn commands_speak_the_players_language() {
    assert_eq!(command_args(Command::CyclePause), vec!["cycle", "pause"]);
    assert_eq!(command_args(Command::CycleAudio), vec!["cycle", "aid"]);
    assert_eq!(command_args(Command::CycleSubs), vec!["cycle", "sid"]);
    assert_eq!(command_args(Command::Seek(-10)), vec!["seek", "-10"]);
    assert_eq!(command_args(Command::AddVolume(5)), vec!["add", "volume", "5"]);
    assert_eq!(command_args(Command::SetAudio(3)), vec!["set", "aid", "3"]);
    assert_eq!(command_args(Command::SetAudio(-1)), vec!["set", "aid", "no"]);
    assert_eq!(command_args(Command::SetSubs(0)), vec!["set", "sid", "no"]);
}

#[test]
fn languages_have_full_names() {
    assert_eq!(lang_full_name("eng"), "English");
    assert_eq!(lang_full_name("JA"), "Japanese");
    assert_eq!(lang_full_name("fra"), "French");
    assert_eq!(lang_full_name("zho"), "Chinese");
    assert_eq!(lang_full_name("ind"), "Indonesian");
    assert_eq!(lang_full_name("tlh"), "tlh");
    assert_eq!(lang_full_name("EN-us"), "EN-us");
    assert_eq!(lang_full_name(""), "");
}

#[test]
fn tracks_are_labelled() {
    let one = tracks(&vec![
        raw("video", 1, "", "", "h264"),
        raw("audio", 1, "", "eng", "aac"),
        raw("sub", 2, "Signs", "eng", "ass"),
        raw("sub", 3, "", "ger", "ass"),
        raw("sub", 4, "", "", "subrip"),
        raw("sub", 5, "", "", ""),
        raw("sub", 6, "Songs", "", ""),
    ]);
    let labels: Vec<&str> = one.iter().map(|t| t.label.as_str()).collect();
    assert_eq!(
        labels,
        vec!["Original", "Signs (English)", "German", "SUBRIP", "Subtitle 5", "Songs"]
    );
    assert!(one[0].audio && one[0].selected);
    assert!(!one[1].audio && !one[1].selected);
    let two = tracks(&vec![raw("audio", 1, "", "eng", "aac"), raw("audio", 2, "", "", "")]);
    assert_eq!(two[0].label, "English");
    assert_eq!(two[1].label, "Audio 2");
    let named = tracks(&vec![raw("audio", 1, "Director", "", "")]);
    assert_eq!(named[0].label, "Director");
}

#[test]
fn a_frame_has_shown_once_something_is_not_black() {
    assert!(!has_shown(false, &vec![0, 0, 0]));
    assert!(has_shown(false, &vec![0, 0, 1]));
    assert!(has_shown(true, &vec![0]));
    assert!(!has_shown(false, &Vec::new()));
}
