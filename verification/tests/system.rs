use cooliris::system::{memory_line, process_rss_mb, sans_font, MemStats};

#[test]
fn white_space_parts_the_numbers_and_nothing_else_does() {
    let spaces = "\t\n\u{b}\u{c}\r \u{85}\u{a0}\u{1680}\u{2000}\u{2001}\u{2002}\u{2003}\u{2004}\
        \u{2005}\u{2006}\u{2007}\u{2008}\u{2009}\u{200a}\u{2028}\u{2029}\u{202f}\u{205f}\u{3000}";
    let spaces: Vec<char> = spaces.chars().collect();
    assert_eq!(spaces.len(), 25);
    for c in '\0'..=char::MAX {
        let parted = process_rss_mb(&format!("1{c}2560")).is_some();
        assert_eq!(parted, spaces.contains(&c), "{c:?}");
    }
}

#[test]
fn resident_memory_is_the_second_number() {
    assert_eq!(process_rss_mb("12345 2560 99 1 0 7 0\n"), Some(10));
    assert_eq!(process_rss_mb("  1   255\t3"), Some(0));
    assert_eq!(process_rss_mb("0 18446744073709551615"), Some(72_057_594_037_927_935));
    assert_eq!(process_rss_mb("0 18446744073709551616"), None);
    assert_eq!(process_rss_mb("12345"), None);
    assert_eq!(process_rss_mb("12345 x 1"), None);
    assert_eq!(process_rss_mb(""), None);
}

#[test]
fn memory_lines_say_everything() {
    let m = MemStats {
        secs: 1_700_000_000,
        mb: 321,
        resident: 99,
        ready: 90,
        free: 38,
        pool: 128,
        inflight: 4,
        full_for: Some(7),
        gif_frames: 12,
        video: true,
        wall_gifs: 2,
        wall_frames: 24,
        total: 16_000,
    };
    assert_eq!(
        memory_line(m),
        "1700000000 | RSS 321 MB | resident 99 (ready 90) | free_layers 38/128 | inflight 4 | \
         full_for Some(7) gif_frames 12 video true | wall_gifs 2 (24f, 0MB) | total 16000\n"
    );
    let idle = MemStats {
        secs: 0,
        mb: 0,
        resident: 0,
        ready: 0,
        free: 128,
        pool: 128,
        inflight: 0,
        full_for: None,
        gif_frames: 0,
        video: false,
        wall_gifs: 0,
        wall_frames: 0,
        total: 0,
    };
    assert_eq!(
        memory_line(idle),
        "0 | RSS 0 MB | resident 0 (ready 0) | free_layers 128/128 | inflight 0 | \
         full_for None gif_frames 0 video false | wall_gifs 0 (0f, 0MB) | total 0\n"
    );
}

#[test]
fn a_latin_text_font_is_chosen() {
    let pick = |names: &[&str]| {
        let names: Vec<String> = names.iter().map(|n| n.to_string()).collect();
        sans_font(&names)
    };
    assert_eq!(pick(&["Roboto", "Noto Sans", "DejaVu Sans"]), Some(2));
    assert_eq!(pick(&["Noto Sans CJK JP", "Noto Sans Display"]), Some(1));
    assert_eq!(pick(&["Noto Sans Mono", "Comic Sans"]), Some(1));
    assert_eq!(pick(&["Emoji One", "Times"]), Some(1));
    assert_eq!(pick(&["Noto Color Emoji", "Symbola"]), None);
    assert_eq!(pick(&[]), None);
}
