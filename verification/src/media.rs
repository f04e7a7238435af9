//! What kind of media a path names, and libraries made of paths.

use crate::media_laws::{keeps_media, no_media_is_lost};
use crate::order::RankKey;
use crate::paths::{
    components, file_name, file_name_text, parts_view, path_bytes, path_parts, path_prefix, prefix,
    prefix_view, PathPart, PathPrefix,
};
use crate::text::{ascii_lowercase, is_word, to_chars};
use std::path::PathBuf;
use vstd::prelude::*;

verus! {

/// Sample tiles that stand in for an empty library.
pub const PLACEHOLDERS: usize = 18;

/// The scan reports its progress every so many files.
pub const SCAN_TICK: usize = 500;

/// The scan stops at so many files.
pub const SCAN_LIMIT: usize = 200_000;

/// Where a tile's pixels come from.
#[derive(Clone)]
pub enum Source {
    File(PathBuf),
    Video(PathBuf),
    /// Music: it shows its cover art.
    Audio(PathBuf),
    /// A sample tile.
    Placeholder(usize),
}

/// Which picker the user asked for.
#[derive(Clone, Copy, PartialEq, Eq, Structural, Debug)]
pub enum OpenKind {
    Files,
    Folder,
    /// A manifest of media paths.
    Json,
}

/// What kind of media a path names.
#[derive(Clone, Copy, PartialEq, Eq, Structural, Debug)]
pub enum Kind {
    Image,
    Video,
    Audio,
}

/// What a [`Source`] says: its kind, and the bytes of its path.
pub enum SourceView {
    Media(Kind, Seq<u8>),
    Placeholder(usize),
}

impl View for Source {
    type V = SourceView;

    open spec fn view(&self) -> SourceView {
        match *self {
            Source::File(p) => SourceView::Media(Kind::Image, path_bytes(p)),
            Source::Video(p) => SourceView::Media(Kind::Video, path_bytes(p)),
            Source::Audio(p) => SourceView::Media(Kind::Audio, path_bytes(p)),
            Source::Placeholder(i) => SourceView::Placeholder(i),
        }
    }
}

/// What a list of sources says.
pub open spec fn sources_view(sources: Seq<Source>) -> Seq<SourceView> {
    sources.map_values(|s: Source| s@)
}

/// What a list of paths holds.
pub open spec fn paths_view(paths: Seq<PathBuf>) -> Seq<Seq<u8>> {
    paths.map_values(|p: PathBuf| path_bytes(p))
}

/// The position of the dot that starts a file name's extension: the last dot, unless the name
/// starts with it.
pub open spec fn is_ext_dot(name: Seq<char>, at: int) -> bool {
    0 < at < name.len() && name[at] == '.' && forall|k: int|
        at < k < name.len() ==> #[trigger] name[k] != '.'
}

/// The extension of a file name.
pub open spec fn extension(name: Seq<char>) -> Option<Seq<char>> {
    if exists|at: int| is_ext_dot(name, at) {
        let at = choose|at: int| is_ext_dot(name, at);
        Some(name.skip(at + 1))
    } else {
        None
    }
}

/// The file name without its extension.
pub open spec fn stem(name: Seq<char>) -> Seq<char> {
    if exists|at: int| is_ext_dot(name, at) {
        let at = choose|at: int| is_ext_dot(name, at);
        name.take(at)
    } else {
        name
    }
}

/// Where the dot of a file name's extension stands.
pub fn ext_dot(name: &Vec<char>) -> (dot: Option<usize>)
    ensures
        match dot {
            Some(at) => is_ext_dot(name@, at as int) && extension(name@) == Some(
                name@.skip(at + 1),
            ) && stem(name@) == name@.take(at as int),
            None => extension(name@) is None && stem(name@) == name@,
        },
{
    let mut i: usize = name.len();
    while i > 0
        invariant
            i <= name.len(),
            forall|k: int| i <= k < name.len() ==> #[trigger] name@[k] != '.',
        decreases i,
    {
        i = i - 1;
        if name[i] == '.' {
            if i == 0 {
                assert forall|at: int| !is_ext_dot(name@, at) by {}
                return None;
            }
            proof {
                assert(is_ext_dot(name@, i as int));
                let at = choose|at: int| is_ext_dot(name@, at);
                assert(at == i);
            }
            return Some(i);
        }
    }
    assert forall|at: int| !is_ext_dot(name@, at) by {}
    None
}

/// Extensions of images.
pub open spec fn image_words() -> Seq<Seq<char>> {
    seq!["jpg"@, "jpeg"@, "png"@, "webp"@, "gif"@, "bmp"@, "svg"@]
}

/// Extensions of videos.
pub open spec fn video_words() -> Seq<Seq<char>> {
    seq!["mp4"@, "mkv"@, "webm"@, "mov"@, "avi"@, "m4v"@]
}

/// Extensions of music.
pub open spec fn audio_words() -> Seq<Seq<char>> {
    seq!["mp3"@, "flac"@, "m4a"@, "aac"@, "ogg"@, "opus"@, "wav"@, "wma"@]
}

/// What a list of words says.
pub open spec fn words_view(words: Seq<&'static str>) -> Seq<Seq<char>> {
    words.map_values(|w: &'static str| w@)
}

/// Extensions of images, for the file picker.
pub fn image_exts() -> (words: Vec<&'static str>)
    ensures
        words_view(words@) == image_words(),
{
    let words: Vec<&'static str> = vec!["jpg", "jpeg", "png", "webp", "gif", "bmp", "svg"];
    assert(words_view(words@) =~= image_words());
    words
}

/// Extensions of videos, for the file picker.
pub fn video_exts() -> (words: Vec<&'static str>)
    ensures
        words_view(words@) == video_words(),
{
    let words: Vec<&'static str> = vec!["mp4", "mkv", "webm", "mov", "avi", "m4v"];
    assert(words_view(words@) =~= video_words());
    words
}

/// Extensions of music, for the file picker.
pub fn audio_exts() -> (words: Vec<&'static str>)
    ensures
        words_view(words@) == audio_words(),
{
    let words: Vec<&'static str> = vec!["mp3", "flac", "m4a", "aac", "ogg", "opus", "wav", "wma"];
    assert(words_view(words@) =~= audio_words());
    words
}

/// Extensions of all media, for the file picker.
pub fn media_exts() -> (words: Vec<&'static str>)
    ensures
        words_view(words@) == image_words() + video_words() + audio_words(),
{
    let words: Vec<&'static str> = vec![
        "jpg", "jpeg", "png", "webp", "gif", "bmp", "svg", "mp4", "mkv", "webm", "mov", "avi",
        "m4v", "mp3", "flac", "m4a", "aac", "ogg", "opus", "wav", "wma",
    ];
    assert(words_view(words@) =~= image_words() + video_words() + audio_words());
    words
}

/// The kind of media that an extension stands for, whatever its case.
pub open spec fn kind_of_ext(ext: Seq<char>) -> Option<Kind> {
    let word = ascii_lowercase(ext);
    if video_words().contains(word) {
        Some(Kind::Video)
    } else if audio_words().contains(word) {
        Some(Kind::Audio)
    } else if image_words().contains(word) {
        Some(Kind::Image)
    } else {
        None
    }
}

/// The extension of a path.
pub open spec fn path_ext(bytes: Seq<u8>) -> Option<Seq<char>> {
    match file_name_text(bytes) {
        Some(name) => extension(name),
        None => None,
    }
}

/// The kind of media that a path names.
pub open spec fn kind_of(bytes: Seq<u8>) -> Option<Kind> {
    match path_ext(bytes) {
        Some(ext) => kind_of_ext(ext),
        None => None,
    }
}

/// Whether a path has a given extension, whatever its case.
pub open spec fn has_ext(bytes: Seq<u8>, word: Seq<char>) -> bool {
    path_ext(bytes) matches Some(ext) && ascii_lowercase(ext) == word
}

fn any_word(word: &Vec<char>, words: &Vec<&'static str>) -> (yes: bool)
    ensures
        yes == words_view(words@).contains(ascii_lowercase(word@)),
{
    let ghost all = words_view(words@);
    let mut i: usize = 0;
    while i < words.len()
        invariant
            i <= words.len(),
            all == words_view(words@),
            forall|k: int| 0 <= k < i ==> #[trigger] all[k] != ascii_lowercase(word@),
        decreases words.len() - i,
    {
        assert(all[i as int] == words@[i as int]@);
        if is_word(word, words[i]) {
            return true;
        }
        i = i + 1;
    }
    false
}

/// The extension of a path, as characters.
fn ext_chars(p: &PathBuf) -> (ext: Option<Vec<char>>)
    ensures
        match ext {
            Some(e) => path_ext(path_bytes(*p)) == Some(e@),
            None => path_ext(path_bytes(*p)) is None,
        },
{
    match file_name(p) {
        Some(name) => {
            let chars = to_chars(name.as_str());
            match ext_dot(&chars) {
                Some(dot) => {
                    let n: usize = chars.len();
                    let mut ext: Vec<char> = Vec::new();
                    let mut i: usize = dot + 1;
                    while i < n
                        invariant
                            dot < i <= n == chars.len(),
                            ext@ == chars@.subrange(dot + 1, i as int),
                        decreases n - i,
                    {
                        ext.push(chars[i]);
                        i = i + 1;
                        assert(ext@ =~= chars@.subrange(dot + 1, i as int));
                    }
                    assert(ext@ =~= chars@.skip(dot + 1));
                    Some(ext)
                },
                None => None,
            }
        },
        None => None,
    }
}

/// The kind of media that an extension stands for.
pub fn classify_ext(ext: &Vec<char>) -> (kind: Option<Kind>)
    ensures
        kind == kind_of_ext(ext@),
{
    if any_word(ext, &video_exts()) {
        Some(Kind::Video)
    } else if any_word(ext, &audio_exts()) {
        Some(Kind::Audio)
    } else if any_word(ext, &image_exts()) {
        Some(Kind::Image)
    } else {
        None
    }
}

/// Classifies a path by its extension; `None` where it is not media.
pub fn classify(p: &PathBuf) -> (kind: Option<Kind>)
    ensures
        kind == kind_of(path_bytes(*p)),
{
    match ext_chars(p) {
        Some(ext) => classify_ext(&ext),
        None => None,
    }
}

/// Whether a path names a GIF.
pub fn is_gif(p: &PathBuf) -> (yes: bool)
    ensures
        yes == has_ext(path_bytes(*p), "gif"@),
{
    match ext_chars(p) {
        Some(ext) => is_word(&ext, "gif"),
        None => false,
    }
}

/// Whether a path names an SVG drawing.
pub fn is_svg(p: &PathBuf) -> (yes: bool)
    ensures
        yes == has_ext(path_bytes(*p), "svg"@),
{
    match ext_chars(p) {
        Some(ext) => is_word(&ext, "svg"),
        None => false,
    }
}

/// A path as a source; `None` where it is not media.
pub open spec fn as_source(bytes: Seq<u8>) -> Option<SourceView> {
    match kind_of(bytes) {
        Some(kind) => Some(SourceView::Media(kind, bytes)),
        None => None,
    }
}

/// The media among a list of paths, in its order.
pub open spec fn gathered(paths: Seq<Seq<u8>>) -> Seq<SourceView>
    decreases paths.len(),
{
    if paths.len() == 0 {
        seq![]
    } else {
        let rest = gathered(paths.drop_last());
        match as_source(paths.last()) {
            Some(source) => rest.push(source),
            None => rest,
        }
    }
}

/// Makes a source of a path; `None` where it is not media.
fn to_source(p: PathBuf) -> (source: Option<Source>)
    ensures
        match source {
            Some(s) => as_source(path_bytes(p)) == Some(s@),
            None => as_source(path_bytes(p)) is None,
        },
{
    match classify(&p) {
        Some(Kind::Video) => Some(Source::Video(p)),
        Some(Kind::Audio) => Some(Source::Audio(p)),
        Some(Kind::Image) => Some(Source::File(p)),
        None => None,
    }
}

/// Builds a library from picked files. What is not media is dropped; the order is kept.
pub fn gather_from_files(files: Vec<PathBuf>) -> (sources: Vec<Source>)
    ensures
        sources_view(sources@) == gathered(paths_view(files@)),
        exists|at: Seq<int>| #[trigger]
            keeps_media(paths_view(files@), sources_view(sources@), at),
{
    let ghost all = paths_view(files@);
    let mut sources: Vec<Source> = Vec::new();
    assert(all.take(0) =~= seq![]);
    assert(sources_view(sources@) =~= seq![]);
    for p in iter: files
        invariant
            paths_view(iter.seq()) == all,
            sources_view(sources@) == gathered(all.take(iter.index())),
    {
        let ghost at = iter.index();
        proof {
            assert(all[at] == path_bytes(iter.seq()[at]));
            assert(all.take(at + 1).drop_last() =~= all.take(at));
            assert(all.take(at + 1).last() == all[at]);
        }
        match to_source(p) {
            Some(source) => {
                let ghost before = sources_view(sources@);
                sources.push(source);
                assert(sources_view(sources@) =~= before.push(source@));
            },
            None => {},
        }
    }
    assert(all.take(all.len() as int) =~= all);
    proof {
        let at = no_media_is_lost(all);
    }
    sources
}

/// A component as a word: its kind, its bytes, and an end mark below any byte.
pub open spec fn part_rank(part: (u8, Seq<u8>)) -> Seq<u32> {
    seq![part.0 as u32] + part.1.map_values(|b: u8| (b + 1) as u32) + seq![0u32]
}

/// A path as a word, so that paths order component by component.
pub open spec fn path_rank(parts: Seq<(u8, Seq<u8>)>) -> Seq<u32>
    decreases parts.len(),
{
    if parts.len() == 0 {
        seq![]
    } else {
        path_rank(parts.drop_last()) + part_rank(parts.last())
    }
}

/// The components by which a path is ordered and told apart: where it has a prefix, what the prefix
/// says stands in place of how it is written.
pub open spec fn ordered_parts(
    prefix: Option<(u8, u8, Seq<u8>, Seq<u8>)>,
    parts: Seq<(u8, Seq<u8>)>,
) -> Seq<(u8, Seq<u8>)> {
    match prefix {
        Some((kind, drive, name, share)) => if parts.len() > 0 {
            seq![(kind, seq![drive] + name), (0u8, share)] + parts.drop_first()
        } else {
            parts
        },
        None => parts,
    }
}

/// The word of a path.
pub open spec fn rank_of_path(bytes: Seq<u8>) -> Seq<u32> {
    path_rank(ordered_parts(path_prefix(bytes), path_parts(bytes)))
}

fn push_part(ranks: &mut Vec<u32>, kind: u8, name: &Vec<u8>)
    ensures
        final(ranks)@ == old(ranks)@ + part_rank((kind, name@)),
{
    let ghost before = ranks@;
    ranks.push(kind as u32);
    let ghost tail = name@.map_values(|b: u8| (b + 1) as u32);
    let mut i: usize = 0;
    assert(ranks@ =~= before + seq![kind as u32] + tail.take(0));
    while i < name.len()
        invariant
            i <= name.len(),
            tail == name@.map_values(|b: u8| (b + 1) as u32),
            ranks@ == before + seq![kind as u32] + tail.take(i as int),
        decreases name.len() - i,
    {
        ranks.push(name[i] as u32 + 1);
        i = i + 1;
        assert(ranks@ =~= before + seq![kind as u32] + tail.take(i as int));
    }
    ranks.push(0);
    assert(ranks@ =~= before + part_rank((kind, name@)));
}

/// The key of a path, from what its prefix and its components say.
pub fn key_of_parts(prefix: &Option<PathPrefix>, parts: &Vec<PathPart>) -> (key: RankKey)
    ensures
        key.ranks@ == path_rank(ordered_parts(prefix_view(*prefix), parts_view(parts@))),
{
    let ghost all = parts_view(parts@);
    let ghost ordered = ordered_parts(prefix_view(*prefix), all);
    let mut ranks: Vec<u32> = Vec::new();
    let mut i: usize = 0;
    let ghost mut shift: int = 0;
    assert(ordered.take(0) =~= seq![]);
    assert(ranks@ =~= path_rank(ordered.take(0)));
    match prefix {
        Some(p) => {
            if parts.len() > 0 {
                let mut name: Vec<u8> = vec![p.drive];
                let mut k: usize = 0;
                assert(name@ =~= seq![p.drive] + p.name@.take(0));
                while k < p.name.len()
                    invariant
                        k <= p.name.len(),
                        name@ == seq![p.drive] + p.name@.take(k as int),
                    decreases p.name.len() - k,
                {
                    name.push(p.name[k]);
                    k = k + 1;
                    assert(name@ =~= seq![p.drive] + p.name@.take(k as int));
                }
                assert(name@ =~= seq![p.drive] + p.name@);
                proof {
                    assert(ordered[0] == (p.kind, name@));
                    assert(ordered[1] == (0u8, p.share@));
                    assert(ordered.take(1).drop_last() =~= ordered.take(0));
                    assert(ordered.take(2).drop_last() =~= ordered.take(1));
                    shift = 1;
                }
                push_part(&mut ranks, p.kind, &name);
                assert(ranks@ == path_rank(ordered.take(1)));
                push_part(&mut ranks, 0, &p.share);
                i = 1;
            }
        },
        None => {},
    }
    while i < parts.len()
        invariant
            i <= parts.len(),
            all == parts_view(parts@),
            ordered.len() == all.len() + shift,
            0 <= shift,
            forall|n: int| i <= n < all.len() ==> ordered[n + shift] == #[trigger] all[n],
            ranks@ == path_rank(ordered.take(i + shift)),
        decreases parts.len() - i,
    {
        proof {
            assert(ordered.take(i + 1 + shift).drop_last() =~= ordered.take(i + shift));
            assert(ordered.take(i + 1 + shift).last() == all[i as int]);
            assert(all[i as int] == (parts@[i as int].kind, parts@[i as int].name@));
        }
        push_part(&mut ranks, parts[i].kind, &parts[i].name);
        i = i + 1;
    }
    assert(ordered.take(ordered.len() as int) =~= ordered);
    RankKey { ranks }
}

/// The key by which a path is sorted, and by which paths are told apart.
pub fn path_key(p: &PathBuf) -> (key: RankKey)
    ensures
        key.ranks@ == rank_of_path(path_bytes(*p)),
{
    let parts = components(p);
    let prefix = prefix(p);
    key_of_parts(&prefix, &parts)
}

/// What the scan does after its `n`th file.
#[derive(Clone, Copy, PartialEq, Eq, Structural, Debug)]
pub struct ScanStep {
    /// Report the count.
    pub report: bool,
    /// Stop the scan.
    pub stop: bool,
}

/// What the scan does once it has found `n` files: it reports now and then, and stops at its
/// limit.
pub fn scan_step(n: usize) -> (step: ScanStep)
    ensures
        step.report == (n as int % 500 == 0),
        step.stop == (n >= 200_000),
{
    ScanStep { report: n % SCAN_TICK == 0, stop: n >= SCAN_LIMIT }
}

/// The sample tiles.
pub open spec fn placeholders() -> Seq<SourceView> {
    Seq::new(PLACEHOLDERS as nat, |i: int| SourceView::Placeholder(i as usize))
}

fn sample_tiles() -> (sources: Vec<Source>)
    ensures
        sources_view(sources@) == placeholders(),
{
    let mut sources: Vec<Source> = Vec::new();
    let mut i: usize = 0;
    while i < PLACEHOLDERS
        invariant
            i <= 18,
            sources_view(sources@) == placeholders().take(i as int),
        decreases 18 - i,
    {
        let ghost before = sources_view(sources@);
        let tile = Source::Placeholder(i);
        let ghost tile_view = tile@;
        sources.push(tile);
        assert(sources_view(sources@) =~= before.push(tile_view));
        assert(tile_view == placeholders()[i as int]);
        i = i + 1;
        assert(sources_view(sources@) =~= placeholders().take(i as int));
    }
    assert(sources_view(sources@) =~= placeholders());
    sources
}

/// The words of a list of paths.
pub open spec fn path_words(paths: Seq<Seq<u8>>) -> Seq<Seq<u32>> {
    paths.map_values(|b: Seq<u8>| rank_of_path(b))
}

/// Paths in a given order.
pub open spec fn permuted(paths: Seq<Seq<u8>>, order: Seq<usize>) -> Seq<Seq<u8>> {
    order.map_values(|i: usize| paths[i as int])
}

/// `sources` is the library of the scanned `paths`: the media among them in path order, or the
/// sample tiles where there is none.
pub open spec fn is_library_of(sources: Seq<SourceView>, paths: Seq<Seq<u8>>) -> bool {
    exists|order: Seq<usize>|
        {
            &&& #[trigger] crate::order::is_rank_order(path_words(paths), order)
            &&& sources == if gathered(permuted(paths, order)).len() == 0 {
                placeholders()
            } else {
                gathered(permuted(paths, order))
            }
        }
}

/// Builds the library of a scanned folder. The scan finds files in no particular order, so that
/// they are sorted by path. Without a folder, or without media in it, there are sample tiles.
pub fn gather_sources(found: Option<Vec<PathBuf>>) -> (sources: Vec<Source>)
    ensures
        match found {
            Some(files) => is_library_of(sources_view(sources@), paths_view(files@)),
            None => sources_view(sources@) == placeholders(),
        },
{
    let files = match found {
        Some(files) => files,
        None => {
            return sample_tiles();
        },
    };
    let ghost paths = paths_view(files@);
    let ghost words = path_words(paths);
    let mut keys: Vec<RankKey> = Vec::new();
    let mut i: usize = 0;
    while i < files.len()
        invariant
            i <= files.len(),
            paths == paths_view(files@),
            words == path_words(paths),
            crate::order::ranks_view(keys@) == words.take(i as int),
        decreases files.len() - i,
    {
        let ghost before = crate::order::ranks_view(keys@);
        let key = path_key(&files[i]);
        keys.push(key);
        i = i + 1;
        assert(crate::order::ranks_view(keys@) =~= before.push(key.ranks@));
        assert(crate::order::ranks_view(keys@) =~= words.take(i as int));
    }
    assert(words.take(words.len() as int) =~= words);
    let order = crate::order::rank_order(&keys);
    let mut in_order: Vec<PathBuf> = Vec::new();
    let mut k: usize = 0;
    while k < order.len()
        invariant
            k <= order.len(),
            paths == paths_view(files@),
            crate::order::holds_range(order@, 0, files.len() as int),
            paths_view(in_order@) == permuted(paths, order@).take(k as int),
        decreases order.len() - k,
    {
        let ghost before = paths_view(in_order@);
        let p = files[order[k]].clone();
        in_order.push(p);
        k = k + 1;
        assert(paths_view(in_order@) =~= before.push(path_bytes(p)));
        assert(paths_view(in_order@) =~= permuted(paths, order@).take(k as int));
    }
    assert(paths_view(in_order@) =~= permuted(paths, order@));
    let sources = gather_from_files(in_order);
    if sources.len() == 0 {
        assert(gathered(permuted(paths, order@)).len() == 0) by {
            assert(sources_view(sources@).len() == 0);
        }
        sample_tiles()
    } else {
        assert(sources_view(sources@).len() > 0);
        sources
    }
}

/// No extension stands in two of the lists.
proof fn lemma_lists_are_disjoint(word: Seq<char>)
    ensures
        !(image_words().contains(word) && video_words().contains(word)),
        !(image_words().contains(word) && audio_words().contains(word)),
        !(video_words().contains(word) && audio_words().contains(word)),
{
    reveal_strlit("jpg");
    reveal_strlit("jpeg");
    reveal_strlit("png");
    reveal_strlit("webp");
    reveal_strlit("gif");
    reveal_strlit("bmp");
    reveal_strlit("svg");
    reveal_strlit("mp4");
    reveal_strlit("mkv");
    reveal_strlit("webm");
    reveal_strlit("mov");
    reveal_strlit("avi");
    reveal_strlit("m4v");
    reveal_strlit("mp3");
    reveal_strlit("flac");
    reveal_strlit("m4a");
    reveal_strlit("aac");
    reveal_strlit("ogg");
    reveal_strlit("opus");
    reveal_strlit("wav");
    reveal_strlit("wma");
    assert forall|i: int, j: int|
        0 <= i < image_words().len() && 0 <= j < video_words().len() implies image_words()[i]
        != video_words()[j] by {
        lemma_differ(image_words()[i], video_words()[j]);
    }
    assert forall|i: int, j: int|
        0 <= i < image_words().len() && 0 <= j < audio_words().len() implies image_words()[i]
        != audio_words()[j] by {
        lemma_differ(image_words()[i], audio_words()[j]);
    }
    assert forall|i: int, j: int|
        0 <= i < video_words().len() && 0 <= j < audio_words().len() implies video_words()[i]
        != audio_words()[j] by {
        lemma_differ(video_words()[i], audio_words()[j]);
    }
}

/// Words that differ in length or in one of their first letters are not the same.
proof fn lemma_differ(a: Seq<char>, b: Seq<char>)
    requires
        a.len() != b.len() || a.len() >= 3 && (a[0] != b[0] || a[1] != b[1] || a[2] != b[2]) || (
        a.len() >= 4 && a[3] != b[3]),
    ensures
        a != b,
{
}

/// The lists of the file picker and the classification agree: a path is media if and only if its
/// extension is listed, and each list names exactly one kind.
pub proof fn extension_lists_agree(ext: Seq<char>)
    ensures
        kind_of_ext(ext) is Some <==> (image_words() + video_words() + audio_words()).contains(
            ascii_lowercase(ext),
        ),
        kind_of_ext(ext) == Some(Kind::Image) <==> image_words().contains(ascii_lowercase(ext)),
        kind_of_ext(ext) == Some(Kind::Video) <==> video_words().contains(ascii_lowercase(ext)),
        kind_of_ext(ext) == Some(Kind::Audio) <==> audio_words().contains(ascii_lowercase(ext)),
{
    let word = ascii_lowercase(ext);
    let all = image_words() + video_words() + audio_words();
    lemma_lists_are_disjoint(word);
    if image_words().contains(word) {
        assert(all[image_words().index_of(word)] == word);
    }
    if video_words().contains(word) {
        assert(all[image_words().len() + video_words().index_of(word)] == word);
    }
    if audio_words().contains(word) {
        assert(all[image_words().len() + video_words().len() + audio_words().index_of(word)]
            == word);
    }
    if all.contains(word) {
        let k = all.index_of(word);
        if k < image_words().len() {
            assert(image_words()[k] == word);
        } else if k < image_words().len() + video_words().len() {
            assert(video_words()[k - image_words().len()] == word);
        } else {
            assert(audio_words()[k - image_words().len() - video_words().len()] == word);
        }
    }
}

/// A GIF and a drawing are images.
pub proof fn gifs_and_drawings_are_images(bytes: Seq<u8>)
    ensures
        has_ext(bytes, "gif"@) ==> kind_of(bytes) == Some(Kind::Image),
        has_ext(bytes, "svg"@) ==> kind_of(bytes) == Some(Kind::Image),
{
    match path_ext(bytes) {
        Some(ext) => {
            extension_lists_agree(ext);
            assert(image_words()[4] == "gif"@);
            assert(image_words()[6] == "svg"@);
        },
        None => {},
    }
}

} // verus!
