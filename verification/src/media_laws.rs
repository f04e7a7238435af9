//! What gathering promises: no media is lost, nothing else gets in, and the order is the path's.

use crate::manifest::{entries, existing, folder_of, is_remote, resolved, seen};
use crate::media::{
    as_source, audio_words, extension, extension_lists_agree, gathered, image_words, is_ext_dot,
    is_library_of, kind_of, ordered_parts, part_rank, path_rank, path_words, permuted,
    placeholders, rank_of_path, video_words, Kind, SourceView,
};
use crate::order::{is_rank_order, lex_le};
use crate::paths::{absolute, file_name_text, joined, parent_bytes, path_parts, path_prefix};
use crate::text::{ascii_lower, ascii_lowercase};
use vstd::prelude::*;

verus! {

/// Whether `c` is the letter or digit `w`, in either case. `w` is lower case.
pub open spec fn same_letter(c: char, w: char) -> bool {
    c == w || 'A' <= c <= 'Z' && c as int + 32 == w as int
}

/// Whether a file name ends in a dot and the word, in either case, behind at least one character.
pub open spec fn ends_in(name: Seq<char>, word: Seq<char>) -> bool {
    let at = name.len() - word.len();
    &&& at >= 2
    &&& name[at - 1] == '.'
    &&& forall|k: int| 0 <= k < word.len() ==> same_letter(name[at + k], #[trigger] word[k])
}

/// Whether a path names an image.
pub open spec fn names_image(path: Seq<u8>) -> bool {
    file_name_text(path) matches Some(name) && (ends_in(name, "jpg"@) || ends_in(name, "jpeg"@)
        || ends_in(name, "png"@) || ends_in(name, "webp"@) || ends_in(name, "gif"@) || ends_in(
        name,
        "bmp"@,
    ) || ends_in(name, "svg"@))
}

/// Whether a path names a video.
pub open spec fn names_video(path: Seq<u8>) -> bool {
    file_name_text(path) matches Some(name) && (ends_in(name, "mp4"@) || ends_in(name, "mkv"@)
        || ends_in(name, "webm"@) || ends_in(name, "mov"@) || ends_in(name, "avi"@) || ends_in(
        name,
        "m4v"@,
    ))
}

/// Whether a path names a piece of music.
pub open spec fn names_music(path: Seq<u8>) -> bool {
    file_name_text(path) matches Some(name) && (ends_in(name, "mp3"@) || ends_in(name, "flac"@)
        || ends_in(name, "m4a"@) || ends_in(name, "aac"@) || ends_in(name, "ogg"@) || ends_in(
        name,
        "opus"@,
    ) || ends_in(name, "wav"@) || ends_in(name, "wma"@))
}

/// Whether a path names media of a kind.
pub open spec fn names_kind(path: Seq<u8>, kind: Kind) -> bool {
    match kind {
        Kind::Image => names_image(path),
        Kind::Video => names_video(path),
        Kind::Audio => names_music(path),
    }
}

/// Whether a path names media.
pub open spec fn names_media(path: Seq<u8>) -> bool {
    names_image(path) || names_video(path) || names_music(path)
}

/// Whether a source is a path's media: exactly that path, with the kind that its name says.
pub open spec fn is_media_of(source: SourceView, path: Seq<u8>) -> bool {
    source matches SourceView::Media(kind, bytes) && bytes == path && names_kind(path, kind)
}

proof fn lemma_lower(c: char, w: char)
    ensures
        ascii_lower(c) == w <==> same_letter(c, w) && !('A' <= w <= 'Z'),
{
}

pub proof fn lemma_ends_in(name: Seq<char>, word: Seq<char>)
    requires
        word.len() > 0,
        forall|k: int|
            0 <= k < word.len() ==> #[trigger] word[k] != '.' && !('A' <= word[k] <= 'Z'),
    ensures
        ends_in(name, word) <==> (extension(name) matches Some(e) && ascii_lowercase(e) == word),
{
    if ends_in(name, word) {
        let at = name.len() - word.len();
        assert forall|k: int| at - 1 < k < name.len() implies #[trigger] name[k] != '.' by {
            assert(same_letter(name[at + (k - at)], word[k - at]));
        }
        assert(is_ext_dot(name, at - 1));
        let dot = choose|d: int| is_ext_dot(name, d);
        assert(dot == at - 1);
        let e = name.skip(at);
        assert forall|k: int| 0 <= k < word.len() implies ascii_lowercase(e)[k] == word[k] by {
            lemma_lower(e[k], word[k]);
            assert(same_letter(name[at + k], word[k]));
        }
        assert(ascii_lowercase(e) =~= word);
    }
    if let Some(e) = extension(name) {
        if ascii_lowercase(e) == word {
            let dot = choose|d: int| is_ext_dot(name, d);
            assert(is_ext_dot(name, dot));
            assert(e.len() == word.len());
            let at = name.len() - word.len();
            assert(at == dot + 1);
            assert forall|k: int| 0 <= k < word.len() implies same_letter(
                name[at + k],
                #[trigger] word[k],
            ) by {
                assert(ascii_lowercase(e)[k] == word[k]);
                lemma_lower(e[k], word[k]);
            }
        }
    }
}

proof fn lemma_image_words(w: Seq<char>)
    ensures
        image_words().contains(w) <==> (w == "jpg"@ || w == "jpeg"@ || w == "png"@ || w == "webp"@
            || w == "gif"@ || w == "bmp"@ || w == "svg"@),
{
    let all = image_words();
    assert(all[0] == "jpg"@ && all[1] == "jpeg"@ && all[2] == "png"@ && all[3] == "webp"@ && all[4]
        == "gif"@ && all[5] == "bmp"@ && all[6] == "svg"@);
    if all.contains(w) {
        let k = all.index_of(w);
        assert(all[k] == w);
    }
}

proof fn lemma_video_words(w: Seq<char>)
    ensures
        video_words().contains(w) <==> (w == "mp4"@ || w == "mkv"@ || w == "webm"@ || w == "mov"@
            || w == "avi"@ || w == "m4v"@),
{
    let all = video_words();
    assert(all[0] == "mp4"@ && all[1] == "mkv"@ && all[2] == "webm"@ && all[3] == "mov"@ && all[4]
        == "avi"@ && all[5] == "m4v"@);
    if all.contains(w) {
        let k = all.index_of(w);
        assert(all[k] == w);
    }
}

proof fn lemma_audio_words(w: Seq<char>)
    ensures
        audio_words().contains(w) <==> (w == "mp3"@ || w == "flac"@ || w == "m4a"@ || w == "aac"@
            || w == "ogg"@ || w == "opus"@ || w == "wav"@ || w == "wma"@),
{
    let all = audio_words();
    assert(all[0] == "mp3"@ && all[1] == "flac"@ && all[2] == "m4a"@ && all[3] == "aac"@ && all[4]
        == "ogg"@ && all[5] == "opus"@ && all[6] == "wav"@ && all[7] == "wma"@);
    if all.contains(w) {
        let k = all.index_of(w);
        assert(all[k] == w);
    }
}

proof fn lemma_image_name(name: Seq<char>)
    ensures
        (ends_in(name, "jpg"@) || ends_in(name, "jpeg"@) || ends_in(name, "png"@) || ends_in(
            name,
            "webp"@,
        ) || ends_in(name, "gif"@) || ends_in(name, "bmp"@) || ends_in(name, "svg"@)) <==> (
        extension(name) matches Some(e) && image_words().contains(ascii_lowercase(e))),
{
    reveal_strlit("jpg");
    reveal_strlit("jpeg");
    reveal_strlit("png");
    reveal_strlit("webp");
    reveal_strlit("gif");
    reveal_strlit("bmp");
    reveal_strlit("svg");
    lemma_ends_in(name, "jpg"@);
    lemma_ends_in(name, "jpeg"@);
    lemma_ends_in(name, "png"@);
    lemma_ends_in(name, "webp"@);
    lemma_ends_in(name, "gif"@);
    lemma_ends_in(name, "bmp"@);
    lemma_ends_in(name, "svg"@);
    if let Some(e) = extension(name) {
        lemma_image_words(ascii_lowercase(e));
    }
}

proof fn lemma_video_name(name: Seq<char>)
    ensures
        (ends_in(name, "mp4"@) || ends_in(name, "mkv"@) || ends_in(name, "webm"@) || ends_in(
            name,
            "mov"@,
        ) || ends_in(name, "avi"@) || ends_in(name, "m4v"@)) <==> (extension(name) matches Some(e)
            && video_words().contains(ascii_lowercase(e))),
{
    reveal_strlit("mp4");
    reveal_strlit("mkv");
    reveal_strlit("webm");
    reveal_strlit("mov");
    reveal_strlit("avi");
    reveal_strlit("m4v");
    lemma_ends_in(name, "mp4"@);
    lemma_ends_in(name, "mkv"@);
    lemma_ends_in(name, "webm"@);
    lemma_ends_in(name, "mov"@);
    lemma_ends_in(name, "avi"@);
    lemma_ends_in(name, "m4v"@);
    if let Some(e) = extension(name) {
        lemma_video_words(ascii_lowercase(e));
    }
}

proof fn lemma_music_name(name: Seq<char>)
    ensures
        (ends_in(name, "mp3"@) || ends_in(name, "flac"@) || ends_in(name, "m4a"@) || ends_in(
            name,
            "aac"@,
        ) || ends_in(name, "ogg"@) || ends_in(name, "opus"@) || ends_in(name, "wav"@) || ends_in(
            name,
            "wma"@,
        )) <==> (extension(name) matches Some(e) && audio_words().contains(ascii_lowercase(e))),
{
    reveal_strlit("mp3");
    reveal_strlit("flac");
    reveal_strlit("m4a");
    reveal_strlit("aac");
    reveal_strlit("ogg");
    reveal_strlit("opus");
    reveal_strlit("wav");
    reveal_strlit("wma");
    lemma_ends_in(name, "mp3"@);
    lemma_ends_in(name, "flac"@);
    lemma_ends_in(name, "m4a"@);
    lemma_ends_in(name, "aac"@);
    lemma_ends_in(name, "ogg"@);
    lemma_ends_in(name, "opus"@);
    lemma_ends_in(name, "wav"@);
    lemma_ends_in(name, "wma"@);
    if let Some(e) = extension(name) {
        lemma_audio_words(ascii_lowercase(e));
    }
}

/// A path is an image, a video or music exactly where its file name ends in one of that kind's
/// words, in either case; it becomes a source, under its own path, exactly where it is one of them.
pub proof fn names_say_the_kind(path: Seq<u8>)
    ensures
        kind_of(path) == Some(Kind::Image) <==> names_image(path),
        kind_of(path) == Some(Kind::Video) <==> names_video(path),
        kind_of(path) == Some(Kind::Audio) <==> names_music(path),
        match as_source(path) {
            Some(source) => is_media_of(source, path),
            None => !names_media(path),
        },
{
    if let Some(name) = file_name_text(path) {
        lemma_image_name(name);
        lemma_video_name(name);
        lemma_music_name(name);
        if let Some(e) = extension(name) {
            extension_lists_agree(e);
        }
    }
}

/// `out` is the media among `paths`: `at` says where each source stands in the list, in its order,
/// and every path that names media has its place in it.
pub open spec fn keeps_media(paths: Seq<Seq<u8>>, out: Seq<SourceView>, at: Seq<int>) -> bool {
    &&& at.len() == out.len()
    &&& forall|k: int|
        0 <= k < at.len() ==> 0 <= #[trigger] at[k] < paths.len() && is_media_of(
            out[k],
            paths[at[k]],
        )
    &&& forall|a: int, b: int| 0 <= a < b < at.len() ==> #[trigger] at[a] < #[trigger] at[b]
    &&& forall|i: int|
        0 <= i < paths.len() && names_media(#[trigger] paths[i]) ==> at.contains(i)
}

/// No media is lost, and nothing else gets in: each path that names media gives one source, with
/// exactly that path and its kind, and the sources stand in the order of the list.
pub proof fn no_media_is_lost(paths: Seq<Seq<u8>>) -> (at: Seq<int>)
    ensures
        keeps_media(paths, gathered(paths), at),
        gathered(paths).len() <= paths.len(),
        (forall|i: int| 0 <= i < paths.len() ==> names_media(#[trigger] paths[i])) ==> gathered(
            paths,
        ).len() == paths.len(),
    decreases paths.len(),
{
    if paths.len() == 0 {
        Seq::<int>::empty()
    } else {
        let rest = paths.drop_last();
        let n = paths.len() - 1;
        let before = no_media_is_lost(rest);
        names_say_the_kind(paths[n]);
        assert(paths.last() == paths[n]);
        assert forall|i: int| 0 <= i < n implies rest[i] == #[trigger] paths[i] by {}
        if (forall|i: int| 0 <= i < paths.len() ==> names_media(#[trigger] paths[i])) {
            assert forall|i: int| 0 <= i < rest.len() implies names_media(#[trigger] rest[i]) by {
                assert(names_media(paths[i]));
            }
            assert(names_media(paths[n]));
        }
        let out = gathered(paths);
        let at = if as_source(paths[n]) is Some {
            before.push(n)
        } else {
            before
        };
        assert forall|k: int| 0 <= k < at.len() implies 0 <= #[trigger] at[k] < paths.len()
            && is_media_of(out[k], paths[at[k]]) by {
            if k < before.len() {
                assert(at[k] == before[k]);
                assert(rest[before[k]] == paths[before[k]]);
            }
        }
        assert forall|a: int, b: int| 0 <= a < b < at.len() implies #[trigger] at[a]
            < #[trigger] at[b] by {
            assert(at[a] == before[a]);
            if b < before.len() {
                assert(at[b] == before[b]);
            }
        }
        assert forall|i: int|
            0 <= i < paths.len() && names_media(#[trigger] paths[i]) implies at.contains(i) by {
            if i < n {
                assert(names_media(rest[i]));
                assert(at[before.index_of(i)] == i);
            } else {
                assert(at[before.len() as int] == n);
            }
        }
        at
    }
}

/// Whether the first bytes come before the others, byte by byte; a beginning comes first.
pub open spec fn bytes_before(a: Seq<u8>, b: Seq<u8>) -> bool {
    exists|k: int|
        {
            &&& 0 <= k <= a.len()
            &&& k < b.len()
            &&& #[trigger] a.take(k) == b.take(k)
            &&& k < a.len() ==> a[k] < b[k]
        }
}

/// Whether the first components come no later than the others, one by one; a beginning comes
/// first.
pub open spec fn parts_no_later(a: Seq<(u8, Seq<u8>)>, b: Seq<(u8, Seq<u8>)>) -> bool {
    exists|k: int|
        {
            &&& 0 <= k <= a.len()
            &&& k <= b.len()
            &&& #[trigger] a.take(k) == b.take(k)
            &&& k < a.len() ==> k < b.len() && (a[k].0 < b[k].0 || a[k].0 == b[k].0
                && bytes_before(a[k].1, b[k].1))
        }
}

proof fn lemma_lex_common(c: Seq<u32>, a: Seq<u32>, b: Seq<u32>)
    ensures
        lex_le(c + a, c + b) == lex_le(a, b),
    decreases c.len(),
{
    if c.len() == 0 {
        assert(c + a =~= a);
        assert(c + b =~= b);
    } else {
        lemma_lex_common(c.drop_first(), a, b);
        assert((c + a).drop_first() =~= c.drop_first() + a);
        assert((c + b).drop_first() =~= c.drop_first() + b);
    }
}

/// The bytes of a component, as they stand in a path's word.
spec fn byte_ranks(s: Seq<u8>) -> Seq<u32> {
    s.map_values(|b: u8| (b + 1) as u32) + seq![0u32]
}

proof fn lemma_lex_bytes(x: Seq<u8>, y: Seq<u8>, a: Seq<u32>, b: Seq<u32>)
    requires
        lex_le(byte_ranks(x) + a, byte_ranks(y) + b),
        x != y,
    ensures
        bytes_before(x, y),
    decreases x.len(),
{
    let u = byte_ranks(x) + a;
    let v = byte_ranks(y) + b;
    if x.len() == 0 {
        if y.len() == 0 {
            assert(x =~= y);
        }
        assert(x.take(0) =~= y.take(0));
    } else if y.len() == 0 {
        assert(u[0] == x[0] + 1);
        assert(v[0] == 0);
    } else {
        assert(u[0] == x[0] + 1);
        assert(v[0] == y[0] + 1);
        if x[0] == y[0] {
            let p = x.drop_first();
            let q = y.drop_first();
            assert(u.drop_first() =~= byte_ranks(p) + a);
            assert(v.drop_first() =~= byte_ranks(q) + b);
            if p == q {
                assert(x =~= seq![x[0]] + p);
                assert(y =~= seq![y[0]] + q);
            }
            lemma_lex_bytes(p, q, a, b);
            let k = choose|k: int|
                {
                    &&& 0 <= k <= p.len()
                    &&& k < q.len()
                    &&& #[trigger] p.take(k) == q.take(k)
                    &&& k < p.len() ==> p[k] < q[k]
                };
            assert forall|n: int| 0 <= n < k + 1 implies x[n] == y[n] by {
                if n > 0 {
                    assert(p.take(k)[n - 1] == q.take(k)[n - 1]);
                }
            }
            assert(x.take(k + 1) =~= y.take(k + 1));
        } else {
            assert(x.take(0) =~= y.take(0));
        }
    }
}

proof fn lemma_rank_first(parts: Seq<(u8, Seq<u8>)>)
    requires
        parts.len() > 0,
    ensures
        path_rank(parts) == part_rank(parts[0]) + path_rank(parts.drop_first()),
    decreases parts.len(),
{
    if parts.len() == 1 {
        assert(parts.drop_last() =~= seq![]);
        assert(parts.drop_first() =~= seq![]);
        assert(path_rank(parts.drop_last()) =~= seq![]);
        assert(path_rank(parts.drop_first()) =~= seq![]);
        assert(parts.last() == parts[0]);
        assert(path_rank(parts) =~= part_rank(parts[0]) + path_rank(parts.drop_first()));
    } else {
        lemma_rank_first(parts.drop_last());
        assert(parts.drop_last().drop_first() =~= parts.drop_first().drop_last());
        assert(parts.drop_last()[0] == parts[0]);
        assert(parts.drop_first().last() == parts.last());
        assert(path_rank(parts) =~= part_rank(parts[0]) + path_rank(parts.drop_first()));
    }
}

/// Words of components order as the components do, and are the same only for the same components.
pub proof fn words_order_by_component(a: Seq<(u8, Seq<u8>)>, b: Seq<(u8, Seq<u8>)>)
    ensures
        lex_le(path_rank(a), path_rank(b)) ==> parts_no_later(a, b),
    decreases a.len(),
{
    if lex_le(path_rank(a), path_rank(b)) {
        if a.len() == 0 {
            assert(a.take(0) =~= b.take(0));
        } else {
            lemma_rank_first(a);
            if b.len() == 0 {
                assert(path_rank(a)[0] == a[0].0 as u32);
            } else {
                lemma_rank_first(b);
                let p = a.drop_first();
                let q = b.drop_first();
                if a[0] == b[0] {
                    lemma_lex_common(part_rank(a[0]), path_rank(p), path_rank(q));
                    words_order_by_component(p, q);
                    let k = choose|k: int|
                        {
                            &&& 0 <= k <= p.len()
                            &&& k <= q.len()
                            &&& #[trigger] p.take(k) == q.take(k)
                            &&& k < p.len() ==> k < q.len() && (p[k].0 < q[k].0 || p[k].0 == q[k].0
                                && bytes_before(p[k].1, q[k].1))
                        };
                    assert forall|n: int| 0 <= n < k + 1 implies a[n] == b[n] by {
                        if n > 0 {
                            assert(p.take(k)[n - 1] == q.take(k)[n - 1]);
                        }
                    }
                    assert(a.take(k + 1) =~= b.take(k + 1));
                } else {
                    assert(a.take(0) =~= b.take(0));
                    let u = path_rank(a);
                    let v = path_rank(b);
                    assert(u[0] == a[0].0 as u32);
                    assert(v[0] == b[0].0 as u32);
                    if a[0].0 == b[0].0 {
                        assert(u.drop_first() =~= byte_ranks(a[0].1) + path_rank(p));
                        assert(v.drop_first() =~= byte_ranks(b[0].1) + path_rank(q));
                        lemma_lex_bytes(a[0].1, b[0].1, path_rank(p), path_rank(q));
                    }
                }
            }
        }
    }
}

proof fn lemma_parts_once(a: Seq<(u8, Seq<u8>)>, b: Seq<(u8, Seq<u8>)>)
    requires
        parts_no_later(a, b),
        parts_no_later(b, a),
    ensures
        a == b,
{
    let j = choose|k: int|
        {
            &&& 0 <= k <= a.len()
            &&& k <= b.len()
            &&& #[trigger] a.take(k) == b.take(k)
            &&& k < a.len() ==> k < b.len() && (a[k].0 < b[k].0 || a[k].0 == b[k].0
                && bytes_before(a[k].1, b[k].1))
        };
    let i = choose|k: int|
        {
            &&& 0 <= k <= b.len()
            &&& k <= a.len()
            &&& #[trigger] b.take(k) == a.take(k)
            &&& k < b.len() ==> k < a.len() && (b[k].0 < a[k].0 || b[k].0 == a[k].0
                && bytes_before(b[k].1, a[k].1))
        };
    if i < j {
        assert(a.take(j)[i] == b.take(j)[i]);
        lemma_not_before_itself(a[i].1);
    } else if j < i {
        assert(b.take(i)[j] == a.take(i)[j]);
        lemma_not_before_itself(a[j].1);
    } else if j < a.len() {
        lemma_before_one_way(a[j].1, b[j].1);
    } else {
        assert(a.take(j) =~= a);
        if j < b.len() {
            assert(j < a.len());
        }
        assert(b.take(j) =~= b);
    }
}

proof fn lemma_not_before_itself(x: Seq<u8>)
    ensures
        !bytes_before(x, x),
{
}

proof fn lemma_before_one_way(x: Seq<u8>, y: Seq<u8>)
    ensures
        !(bytes_before(x, y) && bytes_before(y, x)),
{
    if bytes_before(x, y) && bytes_before(y, x) {
        let j = choose|k: int|
            {
                &&& 0 <= k <= x.len()
                &&& k < y.len()
                &&& #[trigger] x.take(k) == y.take(k)
                &&& k < x.len() ==> x[k] < y[k]
            };
        let i = choose|k: int|
            {
                &&& 0 <= k <= y.len()
                &&& k < x.len()
                &&& #[trigger] y.take(k) == x.take(k)
                &&& k < y.len() ==> y[k] < x[k]
            };
        if i < j {
            assert(x.take(j)[i] == y.take(j)[i]);
        } else if j < i {
            assert(y.take(i)[j] == x.take(i)[j]);
        }
    }
}

proof fn lemma_lex_self(a: Seq<u32>)
    ensures
        lex_le(a, a),
    decreases a.len(),
{
    if a.len() > 0 {
        lemma_lex_self(a.drop_first());
    }
}

/// Two paths without a prefix are taken for the same exactly where their components are the same.
pub proof fn same_paths_have_the_same_components(p: Seq<u8>, q: Seq<u8>)
    requires
        path_prefix(p) is None,
        path_prefix(q) is None,
    ensures
        rank_of_path(p) == rank_of_path(q) <==> path_parts(p) == path_parts(q),
{
    if rank_of_path(p) == rank_of_path(q) {
        lemma_lex_self(rank_of_path(p));
        words_order_by_component(path_parts(p), path_parts(q));
        words_order_by_component(path_parts(q), path_parts(p));
        lemma_parts_once(path_parts(p), path_parts(q));
    }
}

/// `sources` is the media among scanned `paths`: `at` says where each one was found. Every path
/// that names media is among them once, and of two sources the first one's path comes no later,
/// component by component.
pub open spec fn is_sorted_library(
    sources: Seq<SourceView>,
    paths: Seq<Seq<u8>>,
    at: Seq<int>,
) -> bool {
    &&& at.len() == sources.len()
    &&& at.no_duplicates()
    &&& forall|k: int|
        0 <= k < at.len() ==> 0 <= #[trigger] at[k] < paths.len() && is_media_of(
            sources[k],
            paths[at[k]],
        )
    &&& forall|i: int|
        0 <= i < paths.len() && names_media(#[trigger] paths[i]) ==> at.contains(i)
    &&& forall|a: int, b: int|
        #![trigger at[a], at[b]]
        0 <= a < b < at.len() && path_prefix(paths[at[a]]) is None && path_prefix(paths[at[b]]) is
            None ==> parts_no_later(path_parts(paths[at[a]]), path_parts(paths[at[b]]))
}

/// The library of a scanned folder holds every media file of it once, in path order. Where no file
/// is media it holds eighteen sample tiles instead.
pub proof fn libraries_hold_all_media(sources: Seq<SourceView>, paths: Seq<Seq<u8>>)
    requires
        is_library_of(sources, paths),
        paths.len() <= usize::MAX,
    ensures
        (exists|i: int| 0 <= i < paths.len() && names_media(#[trigger] paths[i])) ==> exists|
            at: Seq<int>,
        | #[trigger]
            is_sorted_library(sources, paths, at),
        !(exists|i: int| 0 <= i < paths.len() && names_media(#[trigger] paths[i])) ==> {
            &&& sources.len() == 18
            &&& forall|k: int|
                0 <= k < 18 ==> #[trigger] sources[k] == SourceView::Placeholder(k as usize)
        },
{
    let order = choose|order: Seq<usize>|
        {
            &&& #[trigger] is_rank_order(path_words(paths), order)
            &&& sources == if gathered(permuted(paths, order)).len() == 0 {
                placeholders()
            } else {
                gathered(permuted(paths, order))
            }
        };
    let listed = permuted(paths, order);
    let out = gathered(listed);
    let places = no_media_is_lost(listed);
    let at = Seq::new(places.len(), |k: int| order[places[k]] as int);
    assert forall|k: int| 0 <= k < at.len() implies 0 <= #[trigger] at[k] < paths.len()
        && is_media_of(out[k], paths[at[k]]) by {
        assert(0 <= places[k] < listed.len());
        assert(listed[places[k]] == paths[order[places[k]] as int]);
    }
    assert forall|i: int| 0 <= i < paths.len() && names_media(#[trigger] paths[i]) implies
        at.contains(i) by {
        assert(order.contains(i as usize));
        let j = order.index_of(i as usize);
        assert(listed[j] == paths[i]);
        assert(names_media(listed[j]));
        assert(places.contains(j));
        assert(at[places.index_of(j)] == i);
    }
    if exists|i: int| 0 <= i < paths.len() && names_media(#[trigger] paths[i]) {
        let i = choose|i: int| 0 <= i < paths.len() && names_media(#[trigger] paths[i]);
        assert(at.contains(i));
        assert(out.len() > 0);
        assert forall|a: int, b: int| 0 <= a < b < at.len() implies at[a] != at[b] by {
            assert(places[a] < places[b]);
            assert(crate::order::rank_before(
                path_words(paths),
                order[places[a]] as int,
                order[places[b]] as int,
            ));
        }
        assert forall|a: int, b: int|
            #![trigger at[a], at[b]]
            0 <= a < b < at.len() && path_prefix(paths[at[a]]) is None && path_prefix(
                paths[at[b]],
            ) is None implies parts_no_later(
            path_parts(paths[at[a]]),
            path_parts(paths[at[b]]),
        ) by {
            assert(places[a] < places[b]);
            let x = order[places[a]] as int;
            let y = order[places[b]] as int;
            assert(crate::order::rank_before(path_words(paths), x, y));
            words_order_by_component(path_parts(paths[x]), path_parts(paths[y]));
        }
        assert(is_sorted_library(sources, paths, at));
    } else {
        if out.len() > 0 {
            assert(is_media_of(out[0], listed[places[0]]));
            assert(paths[at[0]] == listed[places[0]]);
        }
    }
}

/// Whether a text starts with the address of a web page.
pub open spec fn starts_as_address(s: Seq<char>) -> bool {
    ||| s.len() >= 7 && s.take(7) == seq!['h', 't', 't', 'p', ':', '/', '/']
    ||| s.len() >= 8 && s.take(8) == seq!['h', 't', 't', 'p', 's', ':', '/', '/']
}

/// Web addresses are told apart by how they start.
pub proof fn addresses_start_with_a_scheme(s: Seq<char>)
    ensures
        is_remote(s) <==> starts_as_address(s),
{
    reveal_strlit("http://");
    reveal_strlit("https://");
    assert("http://"@ =~= seq!['h', 't', 't', 'p', ':', '/', '/']);
    assert("https://"@ =~= seq!['h', 't', 't', 'p', 's', ':', '/', '/']);
    if s.len() >= 7 {
        assert(s.subrange(0, 7) =~= s.take(7));
    }
    if s.len() >= 8 {
        assert(s.subrange(0, 8) =~= s.take(8));
    }
}

/// A manifest's entries are the local media paths that its strings stand for, in their order: `at`
/// says which string each entry comes from. An absolute entry stands for itself, another one for
/// the path behind the manifest's folder.
pub open spec fn lists_media(
    base: Seq<u8>,
    strings: Seq<Seq<char>>,
    out: Seq<Seq<u8>>,
    at: Seq<int>,
) -> bool {
    &&& at.len() == out.len()
    &&& forall|a: int, b: int| 0 <= a < b < at.len() ==> #[trigger] at[a] < #[trigger] at[b]
    &&& forall|k: int|
        0 <= k < at.len() ==> 0 <= #[trigger] at[k] < strings.len() && out[k] == located(
            base,
            strings[at[k]],
        ) && !starts_as_address(strings[at[k]]) && names_media(out[k])
    &&& forall|i: int|
        0 <= i < strings.len() && !starts_as_address(#[trigger] strings[i]) && names_media(
            located(base, strings[i]),
        ) ==> at.contains(i)
}

/// Where an entry of a manifest lies.
pub open spec fn located(base: Seq<u8>, entry: Seq<char>) -> Seq<u8> {
    if absolute(vstd::utf8::encode_utf8(entry)) {
        vstd::utf8::encode_utf8(entry)
    } else {
        joined(base, vstd::utf8::encode_utf8(entry))
    }
}

/// A manifest loses no local media, keeps its order, and takes in nothing else.
pub proof fn manifests_keep_their_media(base: Seq<u8>, strings: Seq<Seq<char>>) -> (at: Seq<int>)
    ensures
        lists_media(base, strings, entries(base, strings), at),
    decreases strings.len(),
{
    if strings.len() == 0 {
        Seq::<int>::empty()
    } else {
        let rest = strings.drop_last();
        let n = strings.len() - 1;
        let before = manifests_keep_their_media(base, rest);
        let p = resolved(base, strings[n]);
        names_say_the_kind(p);
        addresses_start_with_a_scheme(strings[n]);
        assert(strings.last() == strings[n]);
        assert forall|i: int| 0 <= i < n implies rest[i] == #[trigger] strings[i] by {}
        let out = entries(base, strings);
        let at = if !is_remote(strings[n]) && kind_of(p) is Some {
            before.push(n)
        } else {
            before
        };
        assert forall|a: int, b: int| 0 <= a < b < at.len() implies #[trigger] at[a]
            < #[trigger] at[b] by {
            assert(at[a] == before[a]);
            if b < before.len() {
                assert(at[b] == before[b]);
            }
        }
        assert forall|k: int| 0 <= k < at.len() implies 0 <= #[trigger] at[k] < strings.len()
            && out[k] == located(base, strings[at[k]]) && !starts_as_address(strings[at[k]])
            && names_media(out[k]) by {
            if k < before.len() {
                assert(at[k] == before[k]);
                assert(rest[before[k]] == strings[before[k]]);
            }
        }
        assert forall|i: int|
            0 <= i < strings.len() && !starts_as_address(#[trigger] strings[i]) && names_media(
                located(base, strings[i]),
            ) implies at.contains(i) by {
            if i < n {
                assert(rest[i] == strings[i]);
                assert(at[before.index_of(i)] == i);
            } else {
                assert(at[before.len() as int] == n);
            }
        }
        at
    }
}

/// Whether no path before it is the same and exists.
pub open spec fn is_first(paths: Seq<Seq<u8>>, on_disk: Seq<bool>, i: int) -> bool {
    forall|j: int|
        0 <= j < i && on_disk[j] ==> rank_of_path(#[trigger] paths[j]) != rank_of_path(paths[i])
}

/// Of the paths that exist, the first of those that are the same is kept, in the order of the
/// list: `at` says where each one stands.
pub open spec fn keeps_first_ones(
    paths: Seq<Seq<u8>>,
    on_disk: Seq<bool>,
    out: Seq<Seq<u8>>,
    at: Seq<int>,
) -> bool {
    &&& at.len() == out.len()
    &&& forall|a: int, b: int| 0 <= a < b < at.len() ==> #[trigger] at[a] < #[trigger] at[b]
    &&& forall|k: int|
        0 <= k < at.len() ==> 0 <= #[trigger] at[k] < paths.len() && out[k] == paths[at[k]]
            && on_disk[at[k]]
    &&& forall|i: int|
        #![trigger is_first(paths, on_disk, i)]
        0 <= i < paths.len() && on_disk[i] ==> (at.contains(i) <==> is_first(paths, on_disk, i))
}

/// Files that are listed twice are kept once, where they stand first.
pub proof fn first_ones_are_kept(paths: Seq<Seq<u8>>, on_disk: Seq<bool>) -> (at: Seq<int>)
    requires
        paths.len() <= on_disk.len(),
    ensures
        keeps_first_ones(paths, on_disk, existing(paths, on_disk), at),
    decreases paths.len(),
{
    if paths.len() == 0 {
        Seq::<int>::empty()
    } else {
        let rest = paths.drop_last();
        let n = paths.len() - 1;
        let before = first_ones_are_kept(rest, on_disk);
        let had = existing(rest, on_disk);
        let out = existing(paths, on_disk);
        assert(paths.last() == paths[n]);
        assert forall|i: int| 0 <= i < n implies rest[i] == #[trigger] paths[i] by {}
        crate::manifest::existing_files_once(rest, on_disk, 0, 0);
        if on_disk[n] {
            if seen(had, paths[n]) {
                let k = choose|k: int|
                    0 <= k < had.len() && rank_of_path(#[trigger] had[k]) == rank_of_path(paths[n]);
                let j = before[k];
                assert(had[k] == rest[j]);
                assert(on_disk[j] && rank_of_path(paths[j]) == rank_of_path(paths[n]));
            } else {
                assert forall|j: int| 0 <= j < n && on_disk[j] implies rank_of_path(
                    #[trigger] paths[j],
                ) != rank_of_path(paths[n]) by {
                    crate::manifest::existing_files_once(rest, on_disk, 0, j);
                    assert(seen(had, rest[j]));
                    let k = choose|k: int|
                        0 <= k < had.len() && rank_of_path(#[trigger] had[k]) == rank_of_path(
                            rest[j],
                        );
                    assert(rank_of_path(had[k]) != rank_of_path(paths[n]));
                }
            }
        }
        let at = if on_disk[n] && !seen(had, paths[n]) {
            before.push(n)
        } else {
            before
        };
        assert forall|a: int, b: int| 0 <= a < b < at.len() implies #[trigger] at[a]
            < #[trigger] at[b] by {
            assert(at[a] == before[a]);
            if b < before.len() {
                assert(at[b] == before[b]);
            }
        }
        assert forall|k: int| 0 <= k < at.len() implies 0 <= #[trigger] at[k] < paths.len()
            && out[k] == paths[at[k]] && on_disk[at[k]] by {
            if k < before.len() {
                assert(at[k] == before[k]);
                assert(rest[before[k]] == paths[before[k]]);
            }
        }
        assert forall|i: int|
            #![trigger is_first(paths, on_disk, i)]
            0 <= i < paths.len() && on_disk[i] implies (at.contains(i) <==> is_first(
            paths,
            on_disk,
            i,
        )) by {
            if i < n {
                assert(rest[i] == paths[i]);
                assert(before.contains(i) <==> is_first(rest, on_disk, i));
                assert(is_first(rest, on_disk, i) <==> is_first(paths, on_disk, i)) by {
                    assert forall|j: int| 0 <= j < n implies rest[j] == #[trigger] paths[j] by {}
                    assert forall|j: int| 0 <= j < n implies #[trigger] rest[j] == paths[j] by {}
                }
                if before.contains(i) {
                    assert(at[before.index_of(i)] == i);
                }
                if at.contains(i) {
                    let k = at.index_of(i);
                    assert(before[k] == i);
                }
            } else {
                if at.contains(n) {
                    let k = at.index_of(n);
                    if k < before.len() {
                        assert(before[k] < rest.len());
                    }
                } else if on_disk[n] && !seen(had, paths[n]) {
                    assert(at[before.len() as int] == n);
                }
            }
        }
        at
    }
}

/// The entries of a manifest start from the folder that it is in.
pub proof fn manifests_start_from_their_folder(path: Seq<u8>)
    ensures
        parent_bytes(path) is Some ==> folder_of(path) == parent_bytes(path)->0,
        parent_bytes(path) is None ==> folder_of(path) == vstd::utf8::encode_utf8(""@),
{
}

/// `out` is the library of a manifest's paths: `at` says which path each source comes from.
pub open spec fn holds_listed_media(
    paths: Seq<Seq<u8>>,
    on_disk: Seq<bool>,
    out: Seq<SourceView>,
    at: Seq<int>,
) -> bool {
    &&& at.len() == out.len()
    &&& forall|a: int, b: int| 0 <= a < b < at.len() ==> #[trigger] at[a] < #[trigger] at[b]
    &&& forall|k: int|
        0 <= k < at.len() ==> 0 <= #[trigger] at[k] < paths.len() && is_media_of(
            out[k],
            paths[at[k]],
        ) && on_disk[at[k]]
    &&& forall|i: int|
        #![trigger is_first(paths, on_disk, i)]
        0 <= i < paths.len() && on_disk[i] && names_media(paths[i]) && is_first(paths, on_disk, i)
            ==> at.contains(i)
}

/// The library of a manifest holds every media file that it lists and that exists, once, in the
/// order of the list, and nothing else.
pub proof fn listed_media_are_loaded_once(paths: Seq<Seq<u8>>, on_disk: Seq<bool>) -> (at: Seq<int>)
    requires
        paths.len() <= on_disk.len(),
    ensures
        holds_listed_media(paths, on_disk, gathered(existing(paths, on_disk)), at),
{
    let files = existing(paths, on_disk);
    let first = first_ones_are_kept(paths, on_disk);
    let media = no_media_is_lost(files);
    let out = gathered(files);
    let at = Seq::new(media.len(), |k: int| first[media[k]]);
    assert forall|k: int| 0 <= k < at.len() implies 0 <= #[trigger] at[k] < paths.len()
        && is_media_of(out[k], paths[at[k]]) && on_disk[at[k]] by {
        assert(0 <= media[k] < files.len());
        assert(0 <= first[media[k]] < paths.len());
        assert(files[media[k]] == paths[first[media[k]]]);
    }
    assert forall|a: int, b: int| 0 <= a < b < at.len() implies #[trigger] at[a]
        < #[trigger] at[b] by {
        assert(media[a] < media[b]);
        assert(0 <= media[a] && media[b] < files.len());
        assert(first[media[a]] < first[media[b]]);
    }
    assert forall|i: int|
        #![trigger is_first(paths, on_disk, i)]
        0 <= i < paths.len() && on_disk[i] && names_media(paths[i]) && is_first(
            paths,
            on_disk,
            i,
        ) implies at.contains(i) by {
        assert(first.contains(i));
        let j = first.index_of(i);
        assert(first[j] == i);
        assert(files[j] == paths[i]);
        assert(names_media(files[j]));
        assert(media.contains(j));
        assert(at[media.index_of(j)] == i);
    }
    at
}

/// Two paths with a prefix are taken for the same exactly where their prefixes say the same and the
/// components behind them are the same, however the prefixes are written.
pub proof fn same_prefixed_paths_say_the_same(p: Seq<u8>, q: Seq<u8>)
    requires
        path_prefix(p) is Some,
        path_prefix(q) is Some,
        path_parts(p).len() > 0,
        path_parts(q).len() > 0,
    ensures
        rank_of_path(p) == rank_of_path(q) <==> path_prefix(p) == path_prefix(q) && path_parts(
            p,
        ).drop_first() == path_parts(q).drop_first(),
{
    let (a, b) = (path_prefix(p)->0, path_prefix(q)->0);
    let x = ordered_parts(path_prefix(p), path_parts(p));
    let y = ordered_parts(path_prefix(q), path_parts(q));
    if rank_of_path(p) == rank_of_path(q) {
        lemma_lex_self(rank_of_path(p));
        words_order_by_component(x, y);
        words_order_by_component(y, x);
        lemma_parts_once(x, y);
        assert(x[0] == y[0] && x[1] == y[1]);
        assert(x[0].1[0] == a.1 && y[0].1[0] == b.1);
        assert(x[0].1.drop_first() =~= a.2);
        assert(y[0].1.drop_first() =~= b.2);
        assert(x.skip(2) =~= path_parts(p).drop_first());
        assert(y.skip(2) =~= path_parts(q).drop_first());
    }
}

} // verus!
