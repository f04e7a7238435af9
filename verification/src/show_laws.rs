//! What is shown of what plays and loads: controls, names, tracks, and stand-ins for pictures.

use crate::budget::{admits, decode_need, threads, DecodeBudget};
use crate::components::{InfoCard, SortMode};
use crate::dates::{shows_time, FileTime, FileTimes};
use crate::decode::{first_need, music_tile, next_step, video_tile, Answer, Need, StepView};
use crate::images::{file_picture, printed_picture};
use crate::media::{is_ext_dot, Kind, SourceView};
use crate::paths::{file_name_text, path_text};
use crate::state::State;
use crate::status::{
    is_meta, items_of, name_of, position_text, title_of, titles_of, LbDraw, Playing,
};
use crate::system::{
    font_rank, foreign_words, is_sans_choice, latin, of_family, preferred_fonts, resident_pages,
    sans, skip_space, skip_word,
};
use crate::text::{
    all_digits, decimal, digits_value, is_digit, occurs, shortened_left, signed_decimal,
    unsigned_text, uppercase, white_space,
};
use crate::tiles::{music_byte, video_byte};
use crate::video::{
    attempts, audio_count, command_words, label_text, language_text, menu_tracks, Command, RawTrack,
    Track,
};
use crate::view_laws::date_of;
use crate::wall::Wall;
use vstd::prelude::*;

verus! {

/// The controls of what plays show while a track menu is open, while it is paused, and for two and
/// a half seconds after the pointer or the keyboard was used; then they hide.
pub proof fn controls_hide_after_two_and_a_half_seconds(
    s: State,
    player: Option<Playing>,
    now: u64,
)
    ensures
        s.shows_controls(player, now) <==> s.lightbox.focus is Some && player is Some && (
        s.flags.track_menu is Some || player->0.paused || now < s.flags.last_activity
            + 2_500_000_000),
{
}

/// The caret blinks: from the last use on it shows for 530 milliseconds and hides for as long, over
/// and over.
pub proof fn the_caret_blinks(s: State, now: u64, n: nat)
    requires
        now >= s.flags.last_activity,
    ensures
        ({
            let t = now - s.flags.last_activity;
            &&& n * 1_060_000_000 <= t < n * 1_060_000_000 + 530_000_000 ==> s.caret_shows(now)
            &&& n * 1_060_000_000 + 530_000_000 <= t < (n + 1) * 1_060_000_000
                ==> !s.caret_shows(now)
        }),
{
    let t = now - s.flags.last_activity;
    if n * 1_060_000_000 <= t < (n + 1) * 1_060_000_000 {
        vstd::arithmetic::div_mod::lemma_fundamental_div_mod_converse(
            t,
            1_060_000_000,
            n as int,
            t - n * 1_060_000_000,
        );
    }
}

/// An open video starts until its player runs and has shown a frame; music starts until its player
/// runs, knows its length, and its cover is there. Nothing else starts.
pub proof fn media_start_until_they_show(s: State, player: Option<Playing>)
    requires
        s.wf(),
    ensures
        ({
            let video = s.lightbox.focus is Some && s.wall.is_kind(
                s.lightbox.focus->0 as int,
                Kind::Video,
            );
            let music = s.lightbox.focus is Some && s.wall.is_kind(
                s.lightbox.focus->0 as int,
                Kind::Audio,
            );
            let runs = player is Some && s.lightbox.video_pending is None;
            &&& video ==> (s.is_starting(player) <==> !(runs && player->0.has_frame))
            &&& music ==> (s.is_starting(player) <==> !(runs && player->0.timed
                && s.lightbox.full_for == s.lightbox.focus))
            &&& !video && !music ==> !s.is_starting(player)
        }),
{
}

/// What the lightbox draws: a full picture that is there; else the frame that the open item's tile
/// is at, where it is animated. It draws nothing of a video, of music that is starting, or of what
/// is not there.
pub proof fn the_lightbox_draws_what_is_there(s: State, player: Option<Playing>)
    requires
        s.wf(),
    ensures
        ({
            let draw = s.lightbox_shows(player);
            let f = s.lightbox.focus->0;
            let video = s.wall.is_kind(f as int, Kind::Video);
            let music = s.wall.is_kind(f as int, Kind::Audio);
            let held = video || music && s.is_starting(player);
            let cell = s.wall.gifs@.anims.contains_key(f) && s.wall.pool@.tiles.contains_key(f)
                && s.wall.pool@.tiles[f] is Ready;
            &&& s.lightbox.focus is None ==> draw == LbDraw::Nothing
            &&& s.lightbox.focus is Some && held ==> draw == LbDraw::Nothing
            &&& s.lightbox.focus is Some && !held && s.lightbox.full_for == s.lightbox.focus
                ==> draw == LbDraw::Full
            &&& s.lightbox.focus is Some && !held && s.lightbox.full_for != s.lightbox.focus && cell
                ==> (draw matches LbDraw::Cell { layer, frame } && frame == s.wall.gifs@.cursors[f]
                && (s.wall.pool@.tiles[f] matches crate::pool::Tile::Ready { layer: l, .. } && l
                == layer))
            &&& s.lightbox.focus is Some && !held && s.lightbox.full_for != s.lightbox.focus
                && !cell ==> draw == LbDraw::Nothing
        }),
{
}

/// The name that labels a tile is its file name, or the first 21 characters of it and an ellipsis
/// where it is longer than 22. Sample tiles have none.
pub proof fn tiles_are_labelled_with_their_names(w: Wall, i: int)
    requires
        0 <= i < w.shown@.len(),
    ensures
        match w.source_at(i) {
            SourceView::Media(_, path) => match file_name_text(path) {
                Some(name) => name_of(w, i) is Some && (name.len() <= 22 ==> name_of(w, i)->0
                    == name) && (name.len() > 22 ==> name_of(w, i)->0 == name.take(21)
                    + seq!['\u{2026}']),
                None => name_of(w, i) is None,
            },
            SourceView::Placeholder(_) => name_of(w, i) is None,
        },
{
    if let SourceView::Media(_, path) = w.source_at(i) {
        if let Some(name) = file_name_text(path) {
            if name.len() > 22 {
                assert(name.take(21).push('\u{2026}') =~= name.take(21) + seq!['\u{2026}']);
            }
        }
    }
}

/// Whether a tile can be labelled: it is loaded and has a name.
pub open spec fn has_label(w: Wall, i: usize) -> bool {
    w.pool@.tiles.contains_key(i) && w.pool@.tiles[i] is Ready && name_of(w, i as int) is Some
}

/// `out` labels tiles: `at` says where each one stands among the visible ones, in their order.
pub open spec fn labels(
    w: Wall,
    tiles: Seq<usize>,
    out: Seq<(usize, Seq<char>)>,
    at: Seq<int>,
) -> bool {
    &&& at.len() == out.len() <= 80
    &&& forall|a: int, b: int| 0 <= a < b < at.len() ==> #[trigger] at[a] < #[trigger] at[b]
    &&& forall|k: int|
        0 <= k < at.len() ==> 0 <= #[trigger] at[k] < tiles.len() && out[k].0 == tiles[at[k]]
            && has_label(w, out[k].0) && out[k].1 == name_of(w, out[k].0 as int)->0
    &&& out.len() < 80 ==> forall|i: int|
        0 <= i < tiles.len() && has_label(w, #[trigger] tiles[i]) ==> at.contains(i)
    &&& forall|i: int|
        0 <= i < tiles.len() && has_label(w, #[trigger] tiles[i]) && !at.contains(i)
            ==> forall|k: int| 0 <= k < at.len() ==> #[trigger] at[k] < i
}

/// The visible tiles are labelled with their own names, in their order, from the first one on: all
/// of those that are loaded and have a name, but at most eighty.
pub proof fn visible_tiles_are_labelled(w: Wall, tiles: Seq<usize>) -> (at: Seq<int>)
    ensures
        labels(w, tiles, titles_of(w, tiles), at),
    decreases tiles.len(),
{
    if tiles.len() == 0 {
        Seq::<int>::empty()
    } else {
        let rest = tiles.drop_last();
        let n = tiles.len() - 1;
        let before = visible_tiles_are_labelled(w, rest);
        let had = titles_of(w, rest);
        let out = titles_of(w, tiles);
        let last = tiles[n];
        assert(tiles.last() == last);
        assert(w.pool@.is_ready(last) && name_of(w, last as int) is Some <==> has_label(w, last));
        let at = if had.len() < 80 && has_label(w, last) {
            before.push(n)
        } else {
            before
        };
        assert forall|i: int| 0 <= i < n implies rest[i] == #[trigger] tiles[i] by {}
        assert forall|a: int, b: int| 0 <= a < b < at.len() implies #[trigger] at[a]
            < #[trigger] at[b] by {
            assert(at[a] == before[a]);
            if b < before.len() {
                assert(at[b] == before[b]);
            }
        }
        assert forall|k: int| 0 <= k < at.len() implies 0 <= #[trigger] at[k] < tiles.len()
            && out[k].0 == tiles[at[k]] && has_label(w, out[k].0) && out[k].1 == name_of(
            w,
            out[k].0 as int,
        )->0 by {
            if k < before.len() {
                assert(at[k] == before[k]);
                assert(out[k] == had[k]);
                assert(rest[before[k]] == tiles[before[k]]);
            }
        }
        assert forall|i: int|
            0 <= i < tiles.len() && has_label(w, #[trigger] tiles[i]) && !at.contains(
                i,
            ) implies forall|k: int| 0 <= k < at.len() ==> #[trigger] at[k] < i by {
            if i < n {
                assert(rest[i] == tiles[i]);
                if before.contains(i) {
                    assert(at[before.index_of(i)] == i);
                }
                if had.len() < 80 {
                    assert(before.contains(i));
                }
                assert forall|k: int| 0 <= k < at.len() implies #[trigger] at[k] < i by {
                    assert(at[k] == before[k]);
                }
            } else {
                if had.len() < 80 {
                    assert(at[before.len() as int] == n);
                }
                assert forall|k: int| 0 <= k < at.len() implies #[trigger] at[k] < i by {
                    assert(at[k] == before[k]);
                }
            }
        }
        if out.len() < 80 {
            assert forall|i: int|
                0 <= i < tiles.len() && has_label(w, #[trigger] tiles[i]) implies at.contains(
                i,
            ) by {
                if i < n {
                    assert(rest[i] == tiles[i]);
                    assert(at[before.index_of(i)] == i);
                } else {
                    assert(at[before.len() as int] == n);
                }
            }
        }
        at
    }
}

/// The title of an item is its file name up to the last dot, where a character stands before that
/// dot, and else its whole file name.
pub proof fn titles_leave_the_extension_out(path: Seq<u8>, dot: int)
    ensures
        file_name_text(path) matches Some(name) ==> {
            &&& 0 < dot < name.len() && name[dot] == '.' && !name.skip(dot + 1).contains('.')
                ==> title_of(path) == name.take(dot)
            &&& (forall|k: int| 0 < k < name.len() ==> #[trigger] name[k] != '.') ==> title_of(path)
                == name
        },
{
    if let Some(name) = file_name_text(path) {
        if 0 < dot < name.len() && name[dot] == '.' && !name.skip(dot + 1).contains('.') {
            assert forall|k: int| dot < k < name.len() implies #[trigger] name[k] != '.' by {
                assert(name.skip(dot + 1)[k - dot - 1] == name[k]);
            }
            assert(is_ext_dot(name, dot));
            let at = choose|at: int| is_ext_dot(name, at);
            assert(at == dot);
        }
    }
}

/// Whether a line tells an item's place and, behind a word for it, its date, where it has one.
pub open spec fn tells_the_date(
    line: Seq<char>,
    place: Seq<char>,
    word: Seq<char>,
    time: Option<FileTime>,
) -> bool {
    match time {
        Some(t) => exists|date: Seq<char>| #[trigger]
            shows_time(t, date) && line == place + "  \u{b7}  "@ + word + " "@ + date,
        None => line == place,
    }
}

/// The info card shows, where it is switched on, for an open file: its title, its whole path or the
/// last 71 characters of it behind an ellipsis, its place counted from one, and the date that the
/// wall goes by, where there is one.
pub proof fn info_cards_tell_of_the_open_file(s: State, times: FileTimes, info: Option<InfoCard>)
    requires
        s.wf(),
        s.is_info(times, info),
    ensures
        ({
            let f = s.lightbox.focus->0 as int;
            let file = s.flags.show_info && s.lightbox.focus is Some && s.wall.source_at(f)
                is Media;
            &&& info is Some <==> file
            &&& file ==> ({
                let path = s.wall.source_at(f)->Media_1;
                let text = path_text(path);
                let created = s.flags.date_created || s.flags.sort_mode == SortMode::CreatedNew
                    || s.flags.sort_mode == SortMode::CreatedOld;
                let place = decimal((f + 1) as nat) + " / "@ + decimal(s.wall.shown@.len());
                let card = info->0;
                &&& card.title@ == title_of(path)
                &&& text.len() <= 72 ==> card.path@ == text
                &&& text.len() > 72 ==> card.path@ == seq!['\u{2026}'] + text.skip(text.len() - 71)
                &&& tells_the_date(
                    card.meta@,
                    place,
                    if created {
                        "Created"@
                    } else {
                        "Modified"@
                    },
                    date_of(s.wall.source_at(f), times, created),
                )
            })
        }),
{
    let f = s.lightbox.focus->0 as int;
    if s.flags.show_info && s.lightbox.focus is Some && s.wall.source_at(f) is Media {
        let card = info->0;
        let path = s.wall.source_at(f)->Media_1;
        let total = s.wall.shown@.len() as int;
        let created = crate::status::by_created(s.flags.date_created, s.flags.sort_mode);
        let place = decimal((f + 1) as nat) + " / "@ + decimal(s.wall.shown@.len());
        assert(place == position_text(f, total));
        assert(is_meta(card.meta@, f, total, created, times));
        if path_text(path).len() > 72 {
            assert(card.path@ == shortened_left(path_text(path), 72));
        }
        let word = if created {
            "Created"@
        } else {
            "Modified"@
        };
        assert(tells_the_date(
            card.meta@,
            place,
            word,
            date_of(s.wall.source_at(f), times, created),
        ));
    }
}

/// The text in the middle of the screen: a scan tells how many files it has found; else an open
/// item is left alone, unless it is a video that cannot be played; else the wall tells that it is
/// loading while something is on its way and fewer than six tiles are there.
pub proof fn the_status_tells_what_goes_on(s: State, can_play: bool)
    ensures
        ({
            let t = s.status_of(can_play);
            let n = s.flags.scan_count;
            let open = s.lightbox.focus is Some;
            let video = open && s.wall.is_kind(s.lightbox.focus->0 as int, Kind::Video);
            let few = s.wall.pool@.inflight > 0 && s.wall.pool@.ready().len() < 6;
            &&& s.flags.scanning && n > 0 ==> t == Some(
                "Scanning folder\u{2026}  "@ + decimal(n as nat) + " found"@,
            )
            &&& s.flags.scanning && n == 0 ==> t == Some("Scanning folder\u{2026}"@)
            &&& !s.flags.scanning && open ==> (t is Some <==> video && !can_play)
            &&& !s.flags.scanning && !open && few ==> t == Some("Loading\u{2026}"@)
            &&& !s.flags.scanning && !open && !few ==> t is None
        }),
{
}

/// The name beside the pointer is that of the tile under it, on the wall, unless all names show or
/// a scan runs.
pub proof fn the_pointer_shows_the_name_of_its_tile(s: State)
    ensures
        ({
            let silent = s.lightbox.focus is Some || s.flags.show_titles || s.flags.scanning
                || s.lightbox.hover is None;
            &&& silent ==> s.hover_label_of() is None
            &&& !silent ==> s.hover_label_of() == name_of(s.wall, s.lightbox.hover->0 as int)
        }),
        s.names_tiles() <==> s.flags.show_titles && s.lightbox.focus is None && !s.flags.scanning
            && s.flags.open_menu is None,
{
}

/// `out` lists the audio tracks, or the subtitle tracks: `at` says which track each entry is of.
pub open spec fn lists_tracks(
    tracks: Seq<Track>,
    audio: bool,
    out: Seq<(i64, Seq<char>, bool)>,
    at: Seq<int>,
) -> bool {
    &&& at.len() == out.len()
    &&& forall|a: int, b: int| 0 <= a < b < at.len() ==> #[trigger] at[a] < #[trigger] at[b]
    &&& forall|k: int|
        0 <= k < at.len() ==> 0 <= #[trigger] at[k] < tracks.len() && tracks[at[k]].audio == audio
            && out[k].0 == tracks[at[k]].id && out[k].1 == tracks[at[k]].label@ && out[k].2
            == tracks[at[k]].selected
    &&& forall|i: int|
        0 <= i < tracks.len() && (#[trigger] tracks[i]).audio == audio ==> at.contains(i)
}

/// A track menu lists each of its tracks once, in the player's order, and no other track.
pub proof fn track_menus_list_their_tracks(tracks: Seq<Track>, audio: bool) -> (at: Seq<int>)
    ensures
        lists_tracks(tracks, audio, items_of(tracks, audio), at),
    decreases tracks.len(),
{
    if tracks.len() == 0 {
        Seq::<int>::empty()
    } else {
        let rest = tracks.drop_last();
        let n = tracks.len() - 1;
        let before = track_menus_list_their_tracks(rest, audio);
        let had = items_of(rest, audio);
        let out = items_of(tracks, audio);
        assert(tracks.last() == tracks[n]);
        assert forall|i: int| 0 <= i < n implies rest[i] == #[trigger] tracks[i] by {}
        let at = if tracks[n].audio == audio {
            before.push(n)
        } else {
            before
        };
        assert forall|a: int, b: int| 0 <= a < b < at.len() implies #[trigger] at[a]
            < #[trigger] at[b] by {
            assert(at[a] == before[a]);
            if b < before.len() {
                assert(at[b] == before[b]);
            }
        }
        assert forall|k: int| 0 <= k < at.len() implies 0 <= #[trigger] at[k] < tracks.len()
            && tracks[at[k]].audio == audio && out[k].0 == tracks[at[k]].id && out[k].1
            == tracks[at[k]].label@ && out[k].2 == tracks[at[k]].selected by {
            if k < before.len() {
                assert(at[k] == before[k]);
                assert(out[k] == had[k]);
                assert(rest[before[k]] == tracks[before[k]]);
            }
        }
        assert forall|i: int|
            0 <= i < tracks.len() && (#[trigger] tracks[i]).audio == audio implies at.contains(
            i,
        ) by {
            if i < n {
                assert(rest[i].audio == audio);
                assert(at[before.index_of(i)] == i);
            } else {
                assert(at[before.len() as int] == n);
            }
        }
        at
    }
}

/// `out` are the menu entries of the player's audio and subtitle tracks: `at` says which track each
/// one is of.
pub open spec fn names_tracks(
    raw: Seq<RawTrack>,
    audios: nat,
    out: Seq<(i64, bool, Seq<char>, bool)>,
    at: Seq<int>,
) -> bool {
    &&& at.len() == out.len()
    &&& forall|a: int, b: int| 0 <= a < b < at.len() ==> #[trigger] at[a] < #[trigger] at[b]
    &&& forall|k: int|
        0 <= k < at.len() ==> 0 <= #[trigger] at[k] < raw.len() && ({
            let t = raw[at[k]];
            &&& t.kind@ == "audio"@ || t.kind@ == "sub"@
            &&& out[k].0 == t.id
            &&& out[k].1 <==> t.kind@ == "audio"@
            &&& out[k].2 == label_text(t, audios)
            &&& out[k].3 == t.selected
        })
    &&& forall|i: int|
        0 <= i < raw.len() && ((#[trigger] raw[i]).kind@ == "audio"@ || raw[i].kind@ == "sub"@)
            ==> at.contains(i)
}

/// Every audio and subtitle track of the player has its entry, in the player's order, under its own
/// id; nothing else the player has is listed.
pub proof fn every_track_has_its_entry(raw: Seq<RawTrack>, audios: nat) -> (at: Seq<int>)
    ensures
        names_tracks(raw, audios, menu_tracks(raw, audios), at),
    decreases raw.len(),
{
    if raw.len() == 0 {
        Seq::<int>::empty()
    } else {
        let rest = raw.drop_last();
        let n = raw.len() - 1;
        let before = every_track_has_its_entry(rest, audios);
        let had = menu_tracks(rest, audios);
        let out = menu_tracks(raw, audios);
        assert(raw.last() == raw[n]);
        assert forall|i: int| 0 <= i < n implies rest[i] == #[trigger] raw[i] by {}
        let at = if raw[n].kind@ == "audio"@ || raw[n].kind@ == "sub"@ {
            before.push(n)
        } else {
            before
        };
        assert forall|a: int, b: int| 0 <= a < b < at.len() implies #[trigger] at[a]
            < #[trigger] at[b] by {
            assert(at[a] == before[a]);
            if b < before.len() {
                assert(at[b] == before[b]);
            }
        }
        assert forall|k: int| 0 <= k < at.len() implies 0 <= #[trigger] at[k] < raw.len() && ({
            let t = raw[at[k]];
            &&& t.kind@ == "audio"@ || t.kind@ == "sub"@
            &&& out[k].0 == t.id
            &&& out[k].1 <==> t.kind@ == "audio"@
            &&& out[k].2 == label_text(t, audios)
            &&& out[k].3 == t.selected
        }) by {
            if k < before.len() {
                assert(at[k] == before[k]);
                assert(out[k] == had[k]);
                assert(rest[before[k]] == raw[before[k]]);
            }
        }
        assert forall|i: int|
            0 <= i < raw.len() && ((#[trigger] raw[i]).kind@ == "audio"@ || raw[i].kind@
                == "sub"@) implies at.contains(i) by {
            if i < n {
                assert(rest[i].kind@ == raw[i].kind@);
                assert(at[before.index_of(i)] == i);
            } else {
                assert(at[before.len() as int] == n);
            }
        }
        at
    }
}

/// Audio tracks are counted one by one.
pub proof fn audio_tracks_are_counted(raw: Seq<RawTrack>, t: RawTrack)
    ensures
        audio_count(Seq::<RawTrack>::empty()) == 0,
        t.kind@ == "audio"@ ==> audio_count(raw.push(t)) == audio_count(raw) + 1,
        t.kind@ != "audio"@ ==> audio_count(raw.push(t)) == audio_count(raw),
{
    assert(raw.push(t).drop_last() =~= raw);
}

/// What a track is called: its title, with its language in brackets where that is known; without a
/// title, the only audio track is the original, and any other goes by its language, then by its
/// codec in capitals, then by its number.
pub proof fn tracks_are_called_by_what_is_known(t: RawTrack, audios: nat)
    ensures
        ({
            let label = label_text(t, audios);
            let audio = t.kind@ == "audio"@;
            let lang = language_text(t.lang@);
            let untitled = t.title@.len() == 0;
            &&& !untitled && lang.len() > 0 ==> label == t.title@ + " ("@ + lang + ")"@
            &&& !untitled && lang.len() == 0 ==> label == t.title@
            &&& untitled && audio && audios == 1 ==> label == "Original"@
            &&& untitled && !(audio && audios == 1) && lang.len() > 0 ==> label == lang
            &&& untitled && !(audio && audios == 1) && lang.len() == 0 && t.codec@.len() > 0
                ==> label == uppercase(t.codec@)
            &&& untitled && !(audio && audios == 1) && lang.len() == 0 && t.codec@.len() == 0
                ==> label == (if audio {
                "Audio "@
            } else {
                "Subtitle "@
            }) + signed_decimal(t.id as int)
        }),
{
}

/// The player is told in its own words: what to turn, by how much to seek or to change the volume,
/// and which track to play, where zero and below is none.
pub proof fn commands_say_what_they_mean(n: i32, id: i64)
    ensures
        command_words(Command::CyclePause) == seq!["cycle"@, "pause"@],
        command_words(Command::CycleAudio) == seq!["cycle"@, "aid"@],
        command_words(Command::CycleSubs) == seq!["cycle"@, "sid"@],
        n >= 0 ==> command_words(Command::Seek(n)) == seq!["seek"@, decimal(n as nat)],
        n < 0 ==> command_words(Command::Seek(n)) == seq![
            "seek"@,
            seq!['-'] + decimal((-n) as nat),
        ],
        n >= 0 ==> command_words(Command::AddVolume(n)) == seq![
            "add"@,
            "volume"@,
            decimal(n as nat),
        ],
        n < 0 ==> command_words(Command::AddVolume(n)) == seq![
            "add"@,
            "volume"@,
            seq!['-'] + decimal((-n) as nat),
        ],
        id > 0 ==> command_words(Command::SetAudio(id)) == seq!["set"@, "aid"@, decimal(id as nat)],
        id <= 0 ==> command_words(Command::SetAudio(id)) == seq!["set"@, "aid"@, "no"@],
        id > 0 ==> command_words(Command::SetSubs(id)) == seq!["set"@, "sid"@, decimal(id as nat)],
        id <= 0 ==> command_words(Command::SetSubs(id)) == seq!["set"@, "sid"@, "no"@],
{
}

/// What an item is decoded from: a drawing where it is an SVG, else the bytes of its file; the
/// poster of a video, the cover of music, and one of eighteen samples.
pub proof fn items_are_decoded_from_their_own(s: SourceView)
    ensures
        match s {
            SourceView::Media(Kind::Image, path) => {
                let svg = file_name_text(path) matches Some(name) && crate::media_laws::ends_in(
                    name,
                    "svg"@,
                );
                &&& svg ==> first_need(s) == Need::Drawing
                &&& !svg ==> first_need(s) == Need::Bytes
            },
            SourceView::Media(Kind::Video, _) => first_need(s) == Need::Poster(0),
            SourceView::Media(Kind::Audio, _) => first_need(s) == Need::Cover,
            SourceView::Placeholder(i) => first_need(s) matches Need::Sample(k) && k < 18 && (i - k)
                % 18 == 0,
        },
{
    if let SourceView::Media(Kind::Image, path) = s {
        if let Some(name) = file_name_text(path) {
            reveal_strlit("svg");
            crate::media_laws::lemma_ends_in(name, "svg"@);
        }
    }
}

/// What comes of an answer. A poster that was printed is shown, with a badge on the wall; where an
/// attempt fails, the next of three is made, and after the last one the video gets its own tile. A
/// cover is shown where there is one, and else the music tile; a file by its own picture; and a
/// drawn sample as it is, or else as a gradient.
pub proof fn answers_lead_to_a_picture(s: SourceView, full: bool, need: Need, answer: Answer)
    ensures
        need matches Need::Poster(k) ==> (answer matches Answer::Printed { success, output } ==> {
            let printed = printed_picture(success, output@);
            &&& printed is Some ==> next_step(s, full, need, answer) == (StepView::Done {
                picture: printed->0,
                badge: !full,
            })
            &&& printed is None && k <= 1 ==> next_step(s, full, need, answer) == StepView::Need(
                Need::Poster((k + 1) as usize),
            )
            &&& printed is None && k >= 2 ==> next_step(s, full, need, answer) == (StepView::Done {
                picture: video_tile(),
                badge: false,
            })
        }),
        need == Need::Cover ==> (answer matches Answer::Printed { success, output } ==> {
            let printed = printed_picture(success, output@);
            &&& printed is Some ==> next_step(s, full, need, answer) == (StepView::Done {
                picture: printed->0,
                badge: false,
            })
            &&& printed is None ==> next_step(s, full, need, answer) == (StepView::Done {
                picture: music_tile(),
                badge: false,
            })
        }),
        need == Need::Bytes && s is Media ==> (answer matches Answer::Read(bytes) ==> match next_step(
            s,
            full,
            need,
            answer,
        ) {
            StepView::Done { picture, badge } => !badge && (bytes matches Some(b) ==> picture
                == file_picture(b@, s->Media_1, full)) && (bytes is None ==> picture.rgba.len() == 0
                && picture.w == 0 && picture.h == 0),
            StepView::Need(_) => false,
        }),
        need is Sample && s is Placeholder ==> (answer matches Answer::Drawn(p) ==> {
            &&& p@.rgba.len() == 0 ==> next_step(s, full, need, answer) == StepView::Need(
                Need::Gradient(s->Placeholder_0),
            )
            &&& p@.rgba.len() > 0 ==> next_step(s, full, need, answer) == (StepView::Done {
                picture: p@,
                badge: false,
            })
        }),
        need == Need::Drawing || need is Gradient ==> (answer matches Answer::Drawn(p)
            ==> next_step(s, full, need, answer) == (StepView::Done { picture: p@, badge: false })),
{
}

/// A poster is looked for one second in, then at the very start, and then wherever a frame is
/// representative.
pub proof fn posters_are_looked_for_three_times(k: int)
    requires
        0 <= k < attempts().len(),
    ensures
        attempts().len() == 3,
        attempts()[k].seek == if k == 0 {
            Some(1u64)
        } else if k == 1 {
            Some(0u64)
        } else {
            None
        },
        attempts()[k].pick <==> k == 2,
{
}

/// The tile of a video without a poster: opaque and dark, with a light triangle that points to the
/// right. It reaches from two fifths to three fifths of the width, lies evenly about the middle,
/// and narrows from its left edge to its tip.
pub proof fn video_tiles_show_a_triangle(x: int, y: int)
    requires
        0 <= x < 512,
        0 <= y < 512,
    ensures
        ({
            let i = (y * 512 + x) * 4;
            let inside = 2048 < 10 * x < 3072 && 50 * (y - 256) < 13_824 - 45 * x && 50 * (256 - y)
                < 13_824 - 45 * x;
            &&& inside ==> video_byte(i) == 235 && video_byte(i + 1) == 235 && video_byte(i + 2)
                == 240
            &&& !inside ==> video_byte(i) == 20 && video_byte(i + 1) == 22 && video_byte(i + 2)
                == 28
            &&& video_byte(i + 3) == 255
        }),
{
    let i = (y * 512 + x) * 4;
    assert(i / 4 == y * 512 + x);
    assert((i + 1) / 4 == y * 512 + x);
    assert((i + 2) / 4 == y * 512 + x);
    assert((i + 3) / 4 == y * 512 + x);
    assert((y * 512 + x) % 512 == x && (y * 512 + x) / 512 == y);
}

/// The tile of music without a cover: opaque and dark, with a light note: a round head, and a stem
/// and a flag at its right.
pub proof fn music_tiles_show_a_note(x: int, y: int)
    requires
        0 <= x < 512,
        0 <= y < 512,
    ensures
        ({
            let i = (y * 512 + x) * 4;
            let (dx, dy) = (25 * x - 5376, 25 * y - 7936);
            let head = dx * dx + dy * dy < 1280 * 1280;
            let stem = 262 <= x <= 277 && 113 <= y <= 317;
            let flag = 262 <= x <= 343 && 113 <= y <= 163;
            let inside = head || stem || flag;
            &&& inside ==> music_byte(i) == 225 && music_byte(i + 1) == 225 && music_byte(i + 2)
                == 235
            &&& !inside ==> music_byte(i) == 26 && music_byte(i + 1) == 24 && music_byte(i + 2)
                == 34
            &&& music_byte(i + 3) == 255
        }),
{
    let i = (y * 512 + x) * 4;
    assert(i / 4 == y * 512 + x);
    assert((i + 1) / 4 == y * 512 + x);
    assert((i + 2) / 4 == y * 512 + x);
    assert((i + 3) / 4 == y * 512 + x);
    assert((y * 512 + x) % 512 == x && (y * 512 + x) / 512 == y);
    let (dx, dy) = (25 * x - 5376, 25 * y - 7936);
    let (ex, ey) = (1000 * x - 215_040, 1000 * y - 317_440);
    assert(ex * ex + ey * ey == 1600 * (dx * dx + dy * dy)) by (nonlinear_arith)
        requires
            ex == 40 * dx,
            ey == 40 * dy,
    ;
}

/// A decode goes ahead where it fits into what is left of the budget, or where nothing else runs.
pub proof fn decodes_wait_for_room(b: DecodeBudget, bytes: usize)
    ensures
        admits(b, bytes) <==> b.used == 0 || bytes <= b.cap - b.used,
{
}

/// An image is taken to need four bytes for each of its pixels; nothing else needs any.
pub proof fn images_need_four_bytes_a_pixel(s: SourceView, w: u32, h: u32)
    ensures
        (s matches SourceView::Media(k, _) && k == Kind::Image) ==> decode_need(s, Some((w, h)))
            == 4 * (w * h),
        !(s matches SourceView::Media(k, _) && k == Kind::Image) ==> decode_need(s, Some((w, h)))
            == 0 && decode_need(s, None) == 0,
{
    assert(w * h * 4 == 4 * (w * h)) by (nonlinear_arith);
}

/// As many threads as the machine runs at once, within the bounds; four where that is not known.
pub proof fn threads_stay_within_bounds(known: Option<usize>, low: usize, high: usize)
    requires
        low <= 4 <= high,
    ensures
        low <= threads(known, low, high) <= high,
        known matches Some(n) ==> {
            &&& low <= n <= high ==> threads(known, low, high) == n
            &&& n < low ==> threads(known, low, high) == low
            &&& n > high ==> threads(known, low, high) == high
        },
        known is None ==> threads(known, low, high) == 4,
{
}

proof fn lemma_skip_word(s: Seq<char>, i: int, j: int)
    requires
        0 <= i <= j <= s.len(),
        forall|k: int| i <= k < j ==> !white_space(#[trigger] s[k]),
        j < s.len() ==> white_space(s[j]),
    ensures
        skip_word(s, i) == j,
    decreases j - i,
{
    if i < j {
        lemma_skip_word(s, i + 1, j);
    }
}

/// Resident memory is the second number of the kernel's line, whatever follows it.
pub proof fn the_second_number_counts(a: Seq<char>, b: Seq<char>, rest: Seq<char>)
    requires
        all_digits(a),
        all_digits(b),
        digits_value(b) <= u64::MAX,
    ensures
        resident_pages(a + seq![' '] + b + seq![' '] + rest) == Some(digits_value(b)),
{
    let s = a + seq![' '] + b + seq![' '] + rest;
    let (i, j) = (a.len() as int, (a.len() + 1 + b.len()) as int);
    assert forall|k: int| 0 <= k < i implies !white_space(#[trigger] s[k]) by {
        assert(s[k] == a[k]);
        assert(is_digit(a[k]));
    }
    assert forall|k: int| i + 1 <= k < j implies !white_space(#[trigger] s[k]) by {
        assert(s[k] == b[k - i - 1]);
        assert(is_digit(b[k - i - 1]));
    }
    assert(s[i] == ' ' && s[j] == ' ');
    assert(white_space(' '));
    assert(is_digit(a[0]) && is_digit(b[0]));
    assert(s[0] == a[0] && s[i + 1] == b[0]);
    assert(skip_space(s, 0) == 0);
    lemma_skip_word(s, 0, i);
    assert(skip_space(s, i + 1) == i + 1);
    assert(skip_space(s, i) == i + 1);
    lemma_skip_word(s, i + 1, j);
    assert(s.subrange(i + 1, j) =~= b);
    assert(unsigned_text(b, u64::MAX as nat) == Some(digits_value(b)));
}

/// Whether a font can stand for "sans-serif": it is one of the known families, or its name holds no
/// word of a font that is not made for Latin text.
pub open spec fn is_useful(lower: Seq<char>) -> bool {
    latin(lower) || exists|f: int| 0 <= f < 11 && #[trigger] of_family(lower, preferred_fonts()[f])
}

proof fn lemma_rank(lower: Seq<char>, f: int)
    requires
        0 <= f <= 11,
    ensures
        f <= font_rank(lower, f) <= 13,
        font_rank(lower, f) < 11 ==> of_family(lower, preferred_fonts()[font_rank(lower, f)]),
        forall|g: int|
            f <= g < 11 && g < font_rank(lower, f) ==> !#[trigger] of_family(
                lower,
                preferred_fonts()[g],
            ),
        font_rank(lower, f) == 11 ==> sans(lower),
        font_rank(lower, f) == 12 ==> latin(lower) && !sans(lower),
        font_rank(lower, f) == 13 ==> !latin(lower),
    decreases 11 - f,
{
    if f < 11 && !of_family(lower, preferred_fonts()[f]) {
        lemma_rank(lower, f + 1);
    }
}

/// The chosen font: one of an earlier family is never passed over for one of a later family, nor a
/// family for any other font, nor a font without serifs for another one, and a font is chosen
/// wherever one can be used.
pub proof fn the_best_font_is_chosen(names: Seq<Seq<char>>, at: int, k: int, f: int)
    requires
        is_sans_choice(names, at),
        0 <= k < names.len(),
        0 <= f < 11,
    ensures
        is_useful(names[at]),
        of_family(names[k], preferred_fonts()[f]) ==> exists|g: int|
            0 <= g <= f && #[trigger] of_family(names[at], preferred_fonts()[g]),
        sans(names[k]) ==> sans(names[at]) || exists|g: int|
            0 <= g < 11 && #[trigger] of_family(names[at], preferred_fonts()[g]),
{
    lemma_rank(names[at], 0);
    lemma_rank(names[k], 0);
    let r = font_rank(names[at], 0);
    if r < 11 {
        assert(of_family(names[at], preferred_fonts()[r]));
    }
    if of_family(names[k], preferred_fonts()[f]) {
        assert(font_rank(names[k], 0) <= f);
        assert(of_family(names[at], preferred_fonts()[r]));
    }
}

/// A font is for Latin text unless its name holds a word for another script, for symbols, or for
/// fixed widths.
pub proof fn latin_fonts_are_told_by_their_name(lower: Seq<char>)
    ensures
        latin(lower) <==> !occurs(lower, "cjk"@) && !occurs(lower, "japanese"@) && !occurs(
            lower,
            "korean"@,
        ) && !occurs(lower, "chinese"@) && !occurs(lower, "thai"@) && !occurs(lower, "arabic"@)
            && !occurs(lower, "hebrew"@) && !occurs(lower, "devanagari"@) && !occurs(
            lower,
            "emoji"@,
        ) && !occurs(lower, "symbol"@) && !occurs(lower, "math"@) && !occurs(lower, "mono"@),
        sans(lower) <==> occurs(lower, "sans"@) && latin(lower),
{
    let w = foreign_words();
    assert(w[0] == "cjk"@ && w[1] == "japanese"@ && w[2] == "korean"@ && w[3] == "chinese"@ && w[4]
        == "thai"@ && w[5] == "arabic"@ && w[6] == "hebrew"@ && w[7] == "devanagari"@ && w[8]
        == "emoji"@ && w[9] == "symbol"@ && w[10] == "math"@ && w[11] == "mono"@);
}

/// The known families, best first: a font is of one of them where its name is that name, or starts
/// with it and is for Latin text.
pub proof fn families_have_their_place(lower: Seq<char>)
    ensures
        preferred_fonts().len() == 11,
        preferred_fonts()[0] == "dejavu sans"@,
        preferred_fonts()[1] == "liberation sans"@,
        preferred_fonts()[2] == "noto sans"@,
        preferred_fonts()[3] == "carlito"@,
        preferred_fonts()[4] == "arimo"@,
        preferred_fonts()[5] == "arial"@,
        preferred_fonts()[6] == "roboto"@,
        preferred_fonts()[7] == "cantarell"@,
        preferred_fonts()[8] == "ubuntu"@,
        preferred_fonts()[9] == "open sans"@,
        preferred_fonts()[10] == "helvetica"@,
        forall|f: int|
            0 <= f < 11 ==> (#[trigger] of_family(lower, preferred_fonts()[f]) <==> lower
                == preferred_fonts()[f] || lower.len() >= preferred_fonts()[f].len() && lower.take(
                preferred_fonts()[f].len() as int,
            ) == preferred_fonts()[f] && latin(lower)),
{
    assert forall|f: int| 0 <= f < 11 implies (#[trigger] of_family(lower, preferred_fonts()[f])
        <==> lower == preferred_fonts()[f] || lower.len() >= preferred_fonts()[f].len()
        && lower.take(preferred_fonts()[f].len() as int) == preferred_fonts()[f] && latin(
        lower,
    )) by {
        let n = preferred_fonts()[f].len() as int;
        if lower.len() >= n {
            assert(lower.subrange(0, n) =~= lower.take(n));
        }
    }
}

} // verus!
