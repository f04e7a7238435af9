//! Videos and music: posters and covers from a helper program, commands for the player, and the
//! tracks of a playing item.

use crate::text::{
    ascii_lowercase, decimal, is_word, push_decimal, push_signed, signed_decimal, to_chars,
    to_decimal, uppercase,
};
use vstd::prelude::*;

verus! {

/// One audio or subtitle track, for the track menus.
pub struct Track {
    pub id: i64,
    /// An audio track, or else a subtitle track.
    pub audio: bool,
    pub label: String,
    pub selected: bool,
}

/// A track as the player lists it.
pub struct RawTrack {
    pub kind: String,
    pub id: i64,
    pub selected: bool,
    pub title: String,
    pub lang: String,
    pub codec: String,
}

/// One attempt at a poster frame.
#[derive(Clone, Copy, PartialEq, Eq, Structural, Debug)]
pub struct Attempt {
    /// Seconds to skip.
    pub seek: Option<u64>,
    /// Let the helper program look for a representative frame.
    pub pick: bool,
}

/// The attempts at a poster frame: one second in, which skips black intros; the very start, for
/// short clips; and then whatever frame is representative.
pub open spec fn attempts() -> Seq<Attempt> {
    seq![
        Attempt { seek: Some(1), pick: false },
        Attempt { seek: Some(0), pick: false },
        Attempt { seek: None, pick: true },
    ]
}

/// The attempt to make after so many have failed; `None` when there are no more.
pub fn video_thumb(failed: usize) -> (next: Option<Attempt>)
    ensures
        next == (if failed < attempts().len() {
            Some(attempts()[failed as int])
        } else {
            None
        }),
{
    if failed == 0 {
        Some(Attempt { seek: Some(1), pick: false })
    } else if failed == 1 {
        Some(Attempt { seek: Some(0), pick: false })
    } else if failed == 2 {
        Some(Attempt { seek: None, pick: true })
    } else {
        None
    }
}

/// Arguments for the helper program, before and after the path of its input.
pub struct HelperArgs {
    pub before: Vec<String>,
    pub after: Vec<String>,
}

/// What a list of arguments says.
pub open spec fn args_view(args: Seq<String>) -> Seq<Seq<char>> {
    args.map_values(|s: String| s@)
}

/// The filter that scales a picture to fit a square.
pub open spec fn scale_text(target: int) -> Seq<char> {
    "scale="@ + decimal(target as nat) + ":"@ + decimal(target as nat)
        + ":force_original_aspect_ratio=decrease"@
}

fn scale_filter(target: u32) -> (s: String)
    ensures
        s@ == scale_text(target as int),
{
    let mut s = "scale=".to_owned();
    push_decimal(&mut s, target as u64);
    s.append(":");
    push_decimal(&mut s, target as u64);
    s.append(":force_original_aspect_ratio=decrease");
    s
}

fn push_arg(args: &mut Vec<String>, arg: &str)
    ensures
        args_view(final(args)@) == args_view(old(args)@).push(arg@),
{
    let ghost before = args_view(args@);
    args.push(arg.to_owned());
    assert(args_view(args@) =~= before.push(arg@));
}

/// The arguments before the input of a poster attempt.
pub open spec fn frame_before(a: Attempt) -> Seq<Seq<char>> {
    let quiet = seq!["-nostdin"@, "-loglevel"@, "error"@];
    match a.seek {
        Some(s) => quiet + seq!["-ss"@, decimal(s as nat), "-i"@],
        None => quiet + seq!["-i"@],
    }
}

/// The arguments behind the input of a poster attempt.
pub open spec fn frame_after(a: Attempt, target: int) -> Seq<Seq<char>> {
    seq![
        "-frames:v"@,
        "1"@,
        "-an"@,
        "-sn"@,
        "-vf"@,
        if a.pick {
            "thumbnail,"@ + scale_text(target)
        } else {
            scale_text(target)
        },
        "-f"@,
        "image2pipe"@,
        "-vcodec"@,
        "png"@,
        "pipe:1"@,
    ]
}

/// The arguments of a poster attempt: one frame, scaled to fit, printed as a PNG.
pub fn ffmpeg_frame(a: Attempt, target: u32) -> (args: HelperArgs)
    ensures
        args_view(args.before@) == frame_before(a),
        args_view(args.after@) == frame_after(a, target as int),
{
    let mut before: Vec<String> = Vec::new();
    push_arg(&mut before, "-nostdin");
    push_arg(&mut before, "-loglevel");
    push_arg(&mut before, "error");
    match a.seek {
        Some(s) => {
            push_arg(&mut before, "-ss");
            push_arg(&mut before, to_decimal(s).as_str());
        },
        None => {},
    }
    push_arg(&mut before, "-i");
    assert(args_view(before@) =~= frame_before(a));
    let scale = scale_filter(target);
    let mut filter = String::new();
    if a.pick {
        filter.append("thumbnail,");
    }
    filter.append(scale.as_str());
    assert(filter@ =~= frame_after(a, target as int)[5]);
    let mut after: Vec<String> = Vec::new();
    push_arg(&mut after, "-frames:v");
    push_arg(&mut after, "1");
    push_arg(&mut after, "-an");
    push_arg(&mut after, "-sn");
    push_arg(&mut after, "-vf");
    push_arg(&mut after, filter.as_str());
    push_arg(&mut after, "-f");
    push_arg(&mut after, "image2pipe");
    push_arg(&mut after, "-vcodec");
    push_arg(&mut after, "png");
    push_arg(&mut after, "pipe:1");
    assert(args_view(after@) =~= frame_after(a, target as int));
    HelperArgs { before, after }
}

/// The arguments before the input of a cover attempt.
pub open spec fn cover_before() -> Seq<Seq<char>> {
    seq!["-nostdin"@, "-loglevel"@, "error"@, "-i"@]
}

/// The arguments behind the input of a cover attempt.
pub open spec fn cover_after(target: int) -> Seq<Seq<char>> {
    seq![
        "-frames:v"@,
        "1"@,
        "-vf"@,
        scale_text(target),
        "-f"@,
        "image2pipe"@,
        "-vcodec"@,
        "png"@,
        "pipe:1"@,
    ]
}

/// The arguments that read the cover art of a music file, scaled to fit, printed as a PNG.
pub fn cover_thumb(target: u32) -> (args: HelperArgs)
    ensures
        args_view(args.before@) == cover_before(),
        args_view(args.after@) == cover_after(target as int),
{
    let mut before: Vec<String> = Vec::new();
    push_arg(&mut before, "-nostdin");
    push_arg(&mut before, "-loglevel");
    push_arg(&mut before, "error");
    push_arg(&mut before, "-i");
    assert(args_view(before@) =~= cover_before());
    let scale = scale_filter(target);
    let mut after: Vec<String> = Vec::new();
    push_arg(&mut after, "-frames:v");
    push_arg(&mut after, "1");
    push_arg(&mut after, "-vf");
    push_arg(&mut after, scale.as_str());
    push_arg(&mut after, "-f");
    push_arg(&mut after, "image2pipe");
    push_arg(&mut after, "-vcodec");
    push_arg(&mut after, "png");
    push_arg(&mut after, "pipe:1");
    assert(args_view(after@) =~= cover_after(target as int));
    HelperArgs { before, after }
}

/// A command for the player.
#[derive(Clone, Copy, PartialEq, Eq, Structural, Debug)]
pub enum Command {
    /// Pause, or play on.
    CyclePause,
    /// The next audio track.
    CycleAudio,
    /// The next subtitle track.
    CycleSubs,
    /// Seek by so many seconds.
    Seek(i32),
    /// Louder or softer.
    AddVolume(i32),
    /// Select an audio track; zero and below is none.
    SetAudio(i64),
    /// Select a subtitle track; zero and below is none.
    SetSubs(i64),
}

/// A track as the player names it.
pub open spec fn track_text(id: int) -> Seq<char> {
    if id > 0 {
        signed_decimal(id)
    } else {
        "no"@
    }
}

/// A command in the player's words.
pub open spec fn command_words(c: Command) -> Seq<Seq<char>> {
    match c {
        Command::CyclePause => seq!["cycle"@, "pause"@],
        Command::CycleAudio => seq!["cycle"@, "aid"@],
        Command::CycleSubs => seq!["cycle"@, "sid"@],
        Command::Seek(s) => seq!["seek"@, signed_decimal(s as int)],
        Command::AddVolume(v) => seq!["add"@, "volume"@, signed_decimal(v as int)],
        Command::SetAudio(id) => seq!["set"@, "aid"@, track_text(id as int)],
        Command::SetSubs(id) => seq!["set"@, "sid"@, track_text(id as int)],
    }
}

fn signed_str(n: i64) -> (s: String)
    ensures
        s@ == signed_decimal(n as int),
{
    let mut s = String::new();
    push_signed(&mut s, n);
    assert(s@ =~= signed_decimal(n as int));
    s
}

fn push_track(args: &mut Vec<String>, id: i64)
    ensures
        args_view(final(args)@) == args_view(old(args)@).push(track_text(id as int)),
{
    if id > 0 {
        push_arg(args, signed_str(id).as_str());
    } else {
        push_arg(args, "no");
    }
}

/// A command in the player's words.
pub fn command_args(c: Command) -> (args: Vec<String>)
    ensures
        args_view(args@) == command_words(c),
{
    let mut args: Vec<String> = Vec::new();
    match c {
        Command::CyclePause => {
            push_arg(&mut args, "cycle");
            push_arg(&mut args, "pause");
        },
        Command::CycleAudio => {
            push_arg(&mut args, "cycle");
            push_arg(&mut args, "aid");
        },
        Command::CycleSubs => {
            push_arg(&mut args, "cycle");
            push_arg(&mut args, "sid");
        },
        Command::Seek(s) => {
            push_arg(&mut args, "seek");
            push_arg(&mut args, signed_str(s as i64).as_str());
        },
        Command::AddVolume(v) => {
            push_arg(&mut args, "add");
            push_arg(&mut args, "volume");
            push_arg(&mut args, signed_str(v as i64).as_str());
        },
        Command::SetAudio(id) => {
            push_arg(&mut args, "set");
            push_arg(&mut args, "aid");
            push_track(&mut args, id);
        },
        Command::SetSubs(id) => {
            push_arg(&mut args, "set");
            push_arg(&mut args, "sid");
            push_track(&mut args, id);
        },
    }
    assert(args_view(args@) =~= command_words(c));
    args
}

/// Language codes and the names they stand for, first part.
pub open spec fn languages_a() -> Seq<(Seq<char>, Seq<char>)> {
    seq![
        ("en"@, "English"@),
        ("eng"@, "English"@),
        ("ja"@, "Japanese"@),
        ("jpn"@, "Japanese"@),
        ("es"@, "Spanish"@),
        ("spa"@, "Spanish"@),
        ("fr"@, "French"@),
        ("fre"@, "French"@),
        ("fra"@, "French"@),
        ("de"@, "German"@),
        ("ger"@, "German"@),
        ("deu"@, "German"@),
        ("it"@, "Italian"@),
        ("ita"@, "Italian"@),
        ("ru"@, "Russian"@),
        ("rus"@, "Russian"@),
        ("zh"@, "Chinese"@),
        ("chi"@, "Chinese"@),
        ("zho"@, "Chinese"@),
        ("ko"@, "Korean"@),
        ("kor"@, "Korean"@),
        ("pt"@, "Portuguese"@),
        ("por"@, "Portuguese"@),
        ("ar"@, "Arabic"@),
        ("ara"@, "Arabic"@),
        ("hi"@, "Hindi"@),
        ("hin"@, "Hindi"@),
        ("nl"@, "Dutch"@),
        ("dut"@, "Dutch"@),
        ("nld"@, "Dutch"@),
        ("pl"@, "Polish"@),
    ]
}

/// Language codes and the names they stand for, second part.
pub open spec fn languages_b() -> Seq<(Seq<char>, Seq<char>)> {
    seq![
        ("pol"@, "Polish"@),
        ("tr"@, "Turkish"@),
        ("tur"@, "Turkish"@),
        ("sv"@, "Swedish"@),
        ("swe"@, "Swedish"@),
        ("no"@, "Norwegian"@),
        ("nor"@, "Norwegian"@),
        ("da"@, "Danish"@),
        ("dan"@, "Danish"@),
        ("fi"@, "Finnish"@),
        ("fin"@, "Finnish"@),
        ("cs"@, "Czech"@),
        ("cze"@, "Czech"@),
        ("ces"@, "Czech"@),
        ("el"@, "Greek"@),
        ("gre"@, "Greek"@),
        ("ell"@, "Greek"@),
        ("he"@, "Hebrew"@),
        ("heb"@, "Hebrew"@),
        ("th"@, "Thai"@),
        ("tha"@, "Thai"@),
        ("vi"@, "Vietnamese"@),
        ("vie"@, "Vietnamese"@),
        ("uk"@, "Ukrainian"@),
        ("ukr"@, "Ukrainian"@),
        ("hu"@, "Hungarian"@),
        ("hun"@, "Hungarian"@),
        ("ro"@, "Romanian"@),
        ("rum"@, "Romanian"@),
        ("ron"@, "Romanian"@),
        ("id"@, "Indonesian"@),
        ("ind"@, "Indonesian"@),
    ]
}

/// The name that a code stands for in a table; `None` where it is not listed.
pub open spec fn name_in(
    table: Seq<(Seq<char>, Seq<char>)>,
    code: Seq<char>,
) -> Option<Seq<char>>
    decreases table.len(),
{
    if table.len() == 0 {
        None
    } else if table[0].0 == code {
        Some(table[0].1)
    } else {
        name_in(table.drop_first(), code)
    }
}

/// The name of a language. Codes that are not listed stand for themselves.
pub open spec fn language_text(code: Seq<char>) -> Seq<char> {
    let word = ascii_lowercase(code);
    match name_in(languages_a(), word) {
        Some(name) => name,
        None => match name_in(languages_b(), word) {
            Some(name) => name,
            None => code,
        },
    }
}

/// What a table of words says.
pub open spec fn table_view(table: Seq<(&'static str, &'static str)>) -> Seq<
    (Seq<char>, Seq<char>),
> {
    table.map_values(|e: (&'static str, &'static str)| (e.0@, e.1@))
}

fn find_name(table: &Vec<(&'static str, &'static str)>, code: &Vec<char>) -> (name: Option<
    &'static str,
>)
    ensures
        match name {
            Some(s) => name_in(table_view(table@), ascii_lowercase(code@)) == Some(s@),
            None => name_in(table_view(table@), ascii_lowercase(code@)) is None,
        },
{
    let ghost all = table_view(table@);
    let ghost word = ascii_lowercase(code@);
    let mut i: usize = 0;
    assert(all.skip(0) =~= all);
    while i < table.len()
        invariant
            i <= table.len(),
            all == table_view(table@),
            word == ascii_lowercase(code@),
            name_in(all, word) == name_in(all.skip(i as int), word),
        decreases table.len() - i,
    {
        proof {
            assert(all.skip(i as int)[0] == all[i as int]);
            assert(all[i as int] == (table@[i as int].0@, table@[i as int].1@));
            assert(all.skip(i as int).drop_first() =~= all.skip(i + 1));
        }
        if is_word(code, table[i].0) {
            return Some(table[i].1);
        }
        i = i + 1;
    }
    None
}

fn table_a() -> (table: Vec<(&'static str, &'static str)>)
    ensures
        table_view(table@) == languages_a(),
{
    let table: Vec<(&'static str, &'static str)> = vec![
        ("en", "English"),
        ("eng", "English"),
        ("ja", "Japanese"),
        ("jpn", "Japanese"),
        ("es", "Spanish"),
        ("spa", "Spanish"),
        ("fr", "French"),
        ("fre", "French"),
        ("fra", "French"),
        ("de", "German"),
        ("ger", "German"),
        ("deu", "German"),
        ("it", "Italian"),
        ("ita", "Italian"),
        ("ru", "Russian"),
        ("rus", "Russian"),
        ("zh", "Chinese"),
        ("chi", "Chinese"),
        ("zho", "Chinese"),
        ("ko", "Korean"),
        ("kor", "Korean"),
        ("pt", "Portuguese"),
        ("por", "Portuguese"),
        ("ar", "Arabic"),
        ("ara", "Arabic"),
        ("hi", "Hindi"),
        ("hin", "Hindi"),
        ("nl", "Dutch"),
        ("dut", "Dutch"),
        ("nld", "Dutch"),
        ("pl", "Polish"),
    ];
    assert(table_view(table@) =~= languages_a());
    table
}

fn table_b() -> (table: Vec<(&'static str, &'static str)>)
    ensures
        table_view(table@) == languages_b(),
{
    let table: Vec<(&'static str, &'static str)> = vec![
        ("pol", "Polish"),
        ("tr", "Turkish"),
        ("tur", "Turkish"),
        ("sv", "Swedish"),
        ("swe", "Swedish"),
        ("no", "Norwegian"),
        ("nor", "Norwegian"),
        ("da", "Danish"),
        ("dan", "Danish"),
        ("fi", "Finnish"),
        ("fin", "Finnish"),
        ("cs", "Czech"),
        ("cze", "Czech"),
        ("ces", "Czech"),
        ("el", "Greek"),
        ("gre", "Greek"),
        ("ell", "Greek"),
        ("he", "Hebrew"),
        ("heb", "Hebrew"),
        ("th", "Thai"),
        ("tha", "Thai"),
        ("vi", "Vietnamese"),
        ("vie", "Vietnamese"),
        ("uk", "Ukrainian"),
        ("ukr", "Ukrainian"),
        ("hu", "Hungarian"),
        ("hun", "Hungarian"),
        ("ro", "Romanian"),
        ("rum", "Romanian"),
        ("ron", "Romanian"),
        ("id", "Indonesian"),
        ("ind", "Indonesian"),
    ];
    assert(table_view(table@) =~= languages_b());
    table
}

/// The full name of a language from its ISO 639 code. Codes that are not listed pass through.
pub fn lang_full_name(code: &str) -> (name: String)
    ensures
        name@ == language_text(code@),
{
    let chars = to_chars(code);
    match find_name(&table_a(), &chars) {
        Some(name) => name.to_owned(),
        None => match find_name(&table_b(), &chars) {
            Some(name) => name.to_owned(),
            None => code.to_owned(),
        },
    }
}

/// Audio and subtitle tracks are listed; everything else the player has is not.
pub open spec fn is_listed(kind: Seq<char>) -> bool {
    kind == "audio"@ || kind == "sub"@
}

/// How many of the tracks are audio tracks.
pub open spec fn audio_count(raw: Seq<RawTrack>) -> nat
    decreases raw.len(),
{
    if raw.len() == 0 {
        0
    } else {
        audio_count(raw.drop_last()) + if raw.last().kind@ == "audio"@ {
            1nat
        } else {
            0nat
        }
    }
}

/// What a track is called: its own title, with its language behind it; else its language; else
/// its codec; else a number. The only audio track, where it has no title, is the original.
pub open spec fn label_text(t: RawTrack, audios: nat) -> Seq<char> {
    let audio = t.kind@ == "audio"@;
    let lang = language_text(t.lang@);
    if audio && t.title@.len() == 0 && audios == 1 {
        "Original"@
    } else if t.title@.len() > 0 && lang.len() > 0 {
        t.title@ + " ("@ + lang + ")"@
    } else if t.title@.len() > 0 {
        t.title@
    } else if lang.len() > 0 {
        lang
    } else if t.codec@.len() > 0 {
        uppercase(t.codec@)
    } else if audio {
        "Audio "@ + signed_decimal(t.id as int)
    } else {
        "Subtitle "@ + signed_decimal(t.id as int)
    }
}

/// What a menu entry says: the track's id, whether it is audio, its label, whether it is selected.
pub open spec fn track_view(t: Track) -> (i64, bool, Seq<char>, bool) {
    (t.id, t.audio, t.label@, t.selected)
}

/// What menu entries say.
pub open spec fn tracks_view(tracks: Seq<Track>) -> Seq<(i64, bool, Seq<char>, bool)> {
    tracks.map_values(|t: Track| track_view(t))
}

/// The menu entries of the listed tracks, in the player's order.
pub open spec fn menu_tracks(
    raw: Seq<RawTrack>,
    audios: nat,
) -> Seq<(i64, bool, Seq<char>, bool)>
    decreases raw.len(),
{
    if raw.len() == 0 {
        seq![]
    } else {
        let rest = menu_tracks(raw.drop_last(), audios);
        let t = raw.last();
        if is_listed(t.kind@) {
            rest.push((t.id, t.kind@ == "audio"@, label_text(t, audios), t.selected))
        } else {
            rest
        }
    }
}

fn is_text(s: &String, word: &str) -> (yes: bool)
    ensures
        yes == (s@ == word@),
{
    let a = to_chars(s.as_str());
    let b = to_chars(word);
    if a.len() != b.len() {
        return false;
    }
    let yes: bool = crate::text::matches_at(&a, &b, 0);
    assert(a@.subrange(0, b@.len() as int) =~= a@);
    yes
}

fn track_label(t: &RawTrack, audio: bool, lone: bool, Ghost(audios): Ghost<nat>) -> (label: String)
    requires
        audio == (t.kind@ == "audio"@),
        lone == (audios == 1),
    ensures
        label@ == label_text(*t, audios),
{
    let lang = lang_full_name(t.lang.as_str());
    let titled: bool = t.title.as_str().unicode_len() > 0;
    let spoken: bool = lang.as_str().unicode_len() > 0;
    if audio && !titled && lone {
        return "Original".to_owned();
    }
    if titled {
        let mut label = t.title.clone();
        if spoken {
            label.append(" (");
            label.append(lang.as_str());
            label.append(")");
        }
        label
    } else if spoken {
        lang
    } else if t.codec.as_str().unicode_len() > 0 {
        t.codec.as_str().to_uppercase()
    } else {
        let mut label = if audio {
            "Audio ".to_owned()
        } else {
            "Subtitle ".to_owned()
        };
        push_signed(&mut label, t.id);
        label
    }
}

/// The tracks of the menus, each with a readable label.
pub fn tracks(raw: &Vec<RawTrack>) -> (out: Vec<Track>)
    ensures
        tracks_view(out@) == menu_tracks(raw@, audio_count(raw@)),
{
    let mut audios: usize = 0;
    let mut i: usize = 0;
    assert(raw@.take(0) =~= seq![]);
    while i < raw.len()
        invariant
            i <= raw.len(),
            audios <= i,
            audios == audio_count(raw@.take(i as int)),
        decreases raw.len() - i,
    {
        proof {
            assert(raw@.take(i + 1).drop_last() =~= raw@.take(i as int));
            assert(raw@.take(i + 1).last() == raw@[i as int]);
        }
        if is_text(&raw[i].kind, "audio") {
            audios = audios + 1;
        }
        i = i + 1;
    }
    assert(raw@.take(raw@.len() as int) =~= raw@);
    let mut out: Vec<Track> = Vec::new();
    let mut k: usize = 0;
    assert(tracks_view(out@) =~= seq![]);
    while k < raw.len()
        invariant
            k <= raw.len(),
            audios == audio_count(raw@),
            tracks_view(out@) == menu_tracks(raw@.take(k as int), audios as nat),
        decreases raw.len() - k,
    {
        proof {
            assert(raw@.take(k + 1).drop_last() =~= raw@.take(k as int));
            assert(raw@.take(k + 1).last() == raw@[k as int]);
        }
        let t: &RawTrack = &raw[k];
        let audio: bool = is_text(&t.kind, "audio");
        if audio || is_text(&t.kind, "sub") {
            let label = track_label(t, audio, audios == 1, Ghost(audios as nat));
            let entry = Track { id: t.id, audio, label, selected: t.selected };
            let ghost before = tracks_view(out@);
            let ghost shown = track_view(entry);
            out.push(entry);
            assert(tracks_view(out@) =~= before.push(shown));
        }
        k = k + 1;
    }
    assert(raw@.take(raw@.len() as int) =~= raw@);
    out
}

/// Whether the player has shown a frame: it had before, or its surface is no longer black.
pub fn has_shown(had: bool, surface: &Vec<u32>) -> (yes: bool)
    ensures
        yes == (had || exists|k: int| 0 <= k < surface@.len() && #[trigger] surface@[k] != 0),
{
    if had {
        return true;
    }
    let mut k: usize = 0;
    while k < surface.len()
        invariant
            k <= surface.len(),
            forall|n: int| 0 <= n < k ==> #[trigger] surface@[n] == 0,
        decreases surface.len() - k,
    {
        if surface[k] != 0 {
            return true;
        }
        k = k + 1;
    }
    false
}

} // verus!
