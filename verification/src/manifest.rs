//! Manifests: JSON files that list media paths, in whatever shape.

use crate::media::{
    classify, gather_from_files, gathered, kind_of, path_key, paths_view, rank_of_path,
    sources_view, Source,
};
use crate::order::{same_ranks, RankKey};
use crate::paths::{
    absolute, is_absolute, join, joined, parent, parent_bytes, path_bytes, path_from,
};
use crate::text::{matches_at, stands_at, to_chars};
use serde_json::Value;
use std::path::PathBuf;
use vstd::prelude::*;

verus! {

/// `serde_json::Value`, a JSON tree. Nothing inside it is visible here.
#[verifier::external_type_specification]
#[verifier::external_body]
pub struct ExValue(Value);

/// What a JSON tree holds, as far as it is read here: its strings, in document order. A member of
/// an object stands where its key came first.
pub uninterp spec fn json_strings(v: Value) -> Seq<Seq<char>>;

/// How deep a JSON tree is.
pub uninterp spec fn json_depth(v: Value) -> nat;

/// The strings of a JSON text; `None` where it is not JSON.
pub uninterp spec fn parsed_strings(text: Seq<char>) -> Option<Seq<Seq<char>>>;

/// The topmost node of a JSON tree.
pub enum JsonNode<'a> {
    Text(&'a String),
    /// The items of an array, or the member values of an object.
    List(Vec<&'a Value>),
    /// A number, a truth value, or null.
    Other,
}

/// The strings of a row of trees.
pub open spec fn row_strings(items: Seq<&Value>) -> Seq<Seq<char>>
    decreases items.len(),
{
    if items.len() == 0 {
        seq![]
    } else {
        row_strings(items.drop_last()) + json_strings(*items.last())
    }
}

/// Reads the topmost node of a `serde_json::Value`. A string is a tree of one string; the strings
/// of an array or an object are those of its items, each of which is less deep; nothing else
/// holds strings.
#[verifier::external_body]
fn json_node(v: &Value) -> (node: JsonNode<'_>)
    ensures
        match node {
            JsonNode::Text(s) => json_strings(*v) == seq![s@],
            JsonNode::List(items) => json_strings(*v) == row_strings(items@) && forall|k: int|
                0 <= k < items.len() ==> json_depth(*(#[trigger] items[k])) < json_depth(*v),
            JsonNode::Other => json_strings(*v) == Seq::<Seq<char>>::empty(),
        },
{
    match v {
        Value::String(s) => JsonNode::Text(s),
        Value::Array(items) => JsonNode::List(items.iter().collect()),
        Value::Object(members) => JsonNode::List(members.values().collect()),
        Value::Null => JsonNode::Other,
        Value::Bool(_) => JsonNode::Other,
        Value::Number(_) => JsonNode::Other,
    }
}

/// `serde_json::from_str` into a `serde_json::Value`. Whether a text is JSON, and which strings
/// it holds, is a function of the text; the grammar is left to the name.
#[verifier::external_body]
fn parse_json(text: &str) -> (v: Option<Value>)
    ensures
        match v {
            Some(tree) => parsed_strings(text@) == Some(json_strings(tree)),
            None => parsed_strings(text@) is None,
        },
{
    serde_json::from_str(text).ok()
}

/// What a list of texts says.
pub open spec fn texts_view(texts: Seq<String>) -> Seq<Seq<char>> {
    texts.map_values(|s: String| s@)
}

/// Appends every string of a JSON tree.
pub fn collect_json_strings(v: &Value, out: &mut Vec<String>)
    ensures
        texts_view(final(out)@) == texts_view(old(out)@) + json_strings(*v),
    decreases json_depth(*v),
{
    let ghost before = texts_view(out@);
    match json_node(v) {
        JsonNode::Text(s) => {
            out.push(s.clone());
            assert(texts_view(out@) =~= before + json_strings(*v));
        },
        JsonNode::List(items) => {
            let mut i: usize = 0;
            assert(items@.take(0) =~= seq![]);
            assert(texts_view(out@) =~= before + row_strings(items@.take(0)));
            while i < items.len()
                invariant
                    i <= items.len(),
                    forall|k: int|
                        0 <= k < items.len() ==> json_depth(*(#[trigger] items[k])) < json_depth(
                            *v,
                        ),
                    texts_view(out@) == before + row_strings(items@.take(i as int)),
                decreases items.len() - i,
            {
                proof {
                    assert(items@.take(i + 1).drop_last() =~= items@.take(i as int));
                    assert(items@.take(i + 1).last() == items@[i as int]);
                }
                collect_json_strings(items[i], out);
                assert(texts_view(out@) =~= before + row_strings(items@.take(i + 1)));
                i = i + 1;
            }
            assert(items@.take(items.len() as int) =~= items@);
        },
        JsonNode::Other => {
            assert(texts_view(out@) =~= before + json_strings(*v));
        },
    }
}

/// An address on the web, which is no local file.
pub open spec fn is_remote(s: Seq<char>) -> bool {
    stands_at(s, "http://"@, 0) || stands_at(s, "https://"@, 0)
}

/// The path that an entry of a manifest stands for: relative ones start from the manifest's own
/// folder.
pub open spec fn resolved(base: Seq<u8>, entry: Seq<char>) -> Seq<u8> {
    let raw = vstd::utf8::encode_utf8(entry);
    if absolute(raw) {
        raw
    } else {
        joined(base, raw)
    }
}

/// The media paths among the strings of a manifest.
pub open spec fn entries(base: Seq<u8>, strings: Seq<Seq<char>>) -> Seq<Seq<u8>>
    decreases strings.len(),
{
    if strings.len() == 0 {
        seq![]
    } else {
        let rest = entries(base, strings.drop_last());
        let p = resolved(base, strings.last());
        if !is_remote(strings.last()) && kind_of(p) is Some {
            rest.push(p)
        } else {
            rest
        }
    }
}

/// The folder of a manifest; a path without one has an empty folder.
pub open spec fn folder_of(path: Seq<u8>) -> Seq<u8> {
    match parent_bytes(path) {
        Some(up) => up,
        None => vstd::utf8::encode_utf8(""@),
    }
}

/// The media paths among strings, resolved against the folder `base`.
pub fn media_entries(base: &PathBuf, strings: &Vec<String>) -> (paths: Vec<PathBuf>)
    ensures
        paths_view(paths@) == entries(path_bytes(*base), texts_view(strings@)),
{
    let http = to_chars("http://");
    let https = to_chars("https://");
    let ghost all = texts_view(strings@);
    let mut paths: Vec<PathBuf> = Vec::new();
    let mut i: usize = 0;
    assert(all.take(0) =~= seq![]);
    assert(paths_view(paths@) =~= seq![]);
    while i < strings.len()
        invariant
            i <= strings.len(),
            all == texts_view(strings@),
            http@ == "http://"@,
            https@ == "https://"@,
            paths_view(paths@) == entries(path_bytes(*base), all.take(i as int)),
        decreases strings.len() - i,
    {
        proof {
            assert(all.take(i + 1).drop_last() =~= all.take(i as int));
            assert(all.take(i + 1).last() == all[i as int]);
            assert(all[i as int] == strings@[i as int]@);
        }
        let entry: &String = &strings[i];
        let chars = to_chars(entry.as_str());
        let remote: bool = matches_at(&chars, &http, 0) || matches_at(&chars, &https, 0);
        if !remote {
            let raw = path_from(entry.as_str());
            let p = if is_absolute(&raw) {
                raw
            } else {
                join(base, &raw)
            };
            if classify(&p).is_some() {
                let ghost before = paths_view(paths@);
                paths.push(p);
                assert(paths_view(paths@) =~= before.push(path_bytes(p)));
            }
        }
        i = i + 1;
    }
    assert(all.take(all.len() as int) =~= all);
    paths
}

/// The media paths that a manifest lists; `None` where it is not JSON. Which of them exist is for
/// the file system to say.
pub fn manifest_paths(json_path: &PathBuf, text: &str) -> (paths: Option<Vec<PathBuf>>)
    ensures
        match paths {
            Some(paths) => parsed_strings(text@) matches Some(strings) && paths_view(paths@)
                == entries(folder_of(path_bytes(*json_path)), strings),
            None => parsed_strings(text@) is None,
        },
{
    match parse_json(text) {
        Some(tree) => {
            let base = match parent(json_path) {
                Some(up) => up,
                None => path_from(""),
            };
            let mut strings: Vec<String> = Vec::new();
            assert(texts_view(strings@) =~= seq![]);
            collect_json_strings(&tree, &mut strings);
            assert(texts_view(strings@) =~= json_strings(tree));
            Some(media_entries(&base, &strings))
        },
        None => None,
    }
}

/// Whether one of the paths is the same as `p`, component by component.
pub open spec fn seen(paths: Seq<Seq<u8>>, p: Seq<u8>) -> bool {
    exists|k: int| 0 <= k < paths.len() && rank_of_path(#[trigger] paths[k]) == rank_of_path(p)
}

/// The paths that exist, each once, where it was seen first.
pub open spec fn existing(paths: Seq<Seq<u8>>, exists_on_disk: Seq<bool>) -> Seq<Seq<u8>>
    decreases paths.len(),
{
    if paths.len() == 0 {
        seq![]
    } else {
        let rest = existing(paths.drop_last(), exists_on_disk);
        if exists_on_disk[paths.len() - 1] && !seen(rest, paths.last()) {
            rest.push(paths.last())
        } else {
            rest
        }
    }
}

/// Builds a library from the paths of a manifest, of which `on_disk` says whether they exist.
/// Duplicates are dropped; the order is kept.
pub fn gather_from_json(paths: &Vec<PathBuf>, on_disk: &Vec<bool>) -> (sources: Vec<Source>)
    requires
        paths.len() == on_disk.len(),
    ensures
        sources_view(sources@) == gathered(existing(paths_view(paths@), on_disk@)),
{
    let ghost all = paths_view(paths@);
    let mut files: Vec<PathBuf> = Vec::new();
    let mut keys: Vec<RankKey> = Vec::new();
    let mut i: usize = 0;
    assert(all.take(0) =~= seq![]);
    assert(paths_view(files@) =~= seq![]);
    while i < paths.len()
        invariant
            i <= paths.len() == on_disk.len(),
            all == paths_view(paths@),
            paths_view(files@) == existing(all.take(i as int), on_disk@),
            keys.len() == files.len(),
            forall|k: int|
                0 <= k < keys.len() ==> (#[trigger] keys[k]).ranks@ == rank_of_path(
                    path_bytes(files[k]),
                ),
        decreases paths.len() - i,
    {
        let ghost before = paths_view(files@);
        proof {
            assert(all.take(i + 1).drop_last() =~= all.take(i as int));
            assert(all.take(i + 1).last() == all[i as int]);
            assert(all[i as int] == path_bytes(paths@[i as int]));
        }
        if on_disk[i] {
            let key = path_key(&paths[i]);
            let mut found: bool = false;
            let mut k: usize = 0;
            while k < keys.len() && !found
                invariant
                    k <= keys.len() == files.len(),
                    i < paths.len(),
                    before == paths_view(files@),
                    key.ranks@ == rank_of_path(path_bytes(paths@[i as int])),
                    forall|n: int|
                        0 <= n < keys.len() ==> (#[trigger] keys[n]).ranks@ == rank_of_path(
                            path_bytes(files[n]),
                        ),
                    !found ==> forall|n: int|
                        0 <= n < k ==> rank_of_path(#[trigger] before[n]) != key.ranks@,
                    found ==> seen(before, path_bytes(paths@[i as int])),
                decreases keys.len() - k,
            {
                assert(before[k as int] == path_bytes(files@[k as int]));
                assert(keys[k as int].ranks@ == rank_of_path(path_bytes(files[k as int])));
                if same_ranks(&keys[k].ranks, &key.ranks) {
                    found = true;
                }
                k = k + 1;
            }
            if !found {
                let p = paths[i].clone();
                files.push(p);
                keys.push(key);
                assert(paths_view(files@) =~= before.push(path_bytes(p)));
            }
        }
        i = i + 1;
    }
    assert(all.take(all.len() as int) =~= all);
    gather_from_files(files)
}

/// No two of the files are the same.
pub open spec fn all_differ(files: Seq<Seq<u8>>) -> bool {
    forall|i: int, j: int|
        0 <= i < j < files.len() ==> rank_of_path(#[trigger] files[i]) != rank_of_path(
            #[trigger] files[j],
        )
}

/// `p` is one of the paths, and it exists.
pub open spec fn is_existing(paths: Seq<Seq<u8>>, on_disk: Seq<bool>, p: Seq<u8>) -> bool {
    exists|k: int| 0 <= k < paths.len() && on_disk[k] && #[trigger] paths[k] == p
}

/// A manifest gives each existing file once, and gives every one of them: the files all differ,
/// each is a path that exists, and each path that exists is among them.
pub proof fn existing_files_once(paths: Seq<Seq<u8>>, on_disk: Seq<bool>, i: int, k: int)
    requires
        paths.len() <= on_disk.len(),
    ensures
        all_differ(existing(paths, on_disk)),
        0 <= i < existing(paths, on_disk).len() ==> is_existing(
            paths,
            on_disk,
            existing(paths, on_disk)[i],
        ),
        0 <= k < paths.len() && on_disk[k] ==> seen(existing(paths, on_disk), paths[k]),
    decreases paths.len(),
{
    if paths.len() > 0 {
        let fewer = paths.drop_last();
        existing_files_once(fewer, on_disk, i, k);
        let rest = existing(fewer, on_disk);
        let files = existing(paths, on_disk);
        let n = paths.len() - 1;
        if 0 <= i < files.len() {
            if i < rest.len() {
                let j = choose|j: int|
                    0 <= j < fewer.len() && on_disk[j] && #[trigger] fewer[j] == rest[i];
                assert(paths[j] == files[i]);
            } else {
                assert(paths[n] == files[i]);
            }
        }
        if 0 <= k < paths.len() && on_disk[k] {
            if k < n || seen(rest, paths[n]) {
                assert(seen(rest, paths[k]));
                let j = choose|j: int|
                    0 <= j < rest.len() && rank_of_path(#[trigger] rest[j]) == rank_of_path(
                        paths[k],
                    );
                assert(files[j] == rest[j]);
            } else {
                assert(files[rest.len() as int] == paths[n]);
            }
        }
        assert(all_differ(files)) by {
            assert forall|a: int, b: int| 0 <= a < b < files.len() implies rank_of_path(
                #[trigger] files[a],
            ) != rank_of_path(#[trigger] files[b]) by {
                assert(files[a] == rest[a]);
                if b < rest.len() {
                    assert(files[b] == rest[b]);
                } else {
                    assert(!seen(rest, paths[n]));
                }
            }
        }
    }
}

/// Every entry of a manifest is a local media path that one of its strings stands for, and every
/// such string gives an entry.
pub proof fn entries_are_local_media(base: Seq<u8>, strings: Seq<Seq<char>>)
    ensures
        ({
            let paths = entries(base, strings);
            &&& forall|i: int|
                0 <= i < paths.len() ==> kind_of(#[trigger] paths[i]) is Some && exists|k: int|
                    0 <= k < strings.len() && !is_remote(strings[k]) && paths[i] == resolved(
                        base,
                        #[trigger] strings[k],
                    )
            &&& forall|k: int|
                0 <= k < strings.len() && !is_remote(strings[k]) && kind_of(
                    resolved(base, #[trigger] strings[k]),
                ) is Some ==> paths.contains(resolved(base, strings[k]))
        }),
    decreases strings.len(),
{
    if strings.len() > 0 {
        let fewer = strings.drop_last();
        entries_are_local_media(base, fewer);
        let rest = entries(base, fewer);
        let paths = entries(base, strings);
        let n = strings.len() - 1;
        assert forall|i: int| 0 <= i < paths.len() implies kind_of(#[trigger] paths[i]) is Some
            && exists|k: int|
            0 <= k < strings.len() && !is_remote(strings[k]) && paths[i] == resolved(
                base,
                #[trigger] strings[k],
            ) by {
            if i < rest.len() {
                assert(paths[i] == rest[i]);
                let k = choose|k: int|
                    0 <= k < fewer.len() && !is_remote(fewer[k]) && rest[i] == resolved(
                        base,
                        #[trigger] fewer[k],
                    );
                assert(strings[k] == fewer[k]);
            } else {
                assert(paths[i] == resolved(base, strings[n]));
            }
        }
        assert forall|k: int|
            0 <= k < strings.len() && !is_remote(strings[k]) && kind_of(
                resolved(base, #[trigger] strings[k]),
            ) is Some implies paths.contains(resolved(base, strings[k])) by {
            let p = resolved(base, strings[k]);
            if k < n {
                assert(fewer[k] == strings[k]);
                assert(paths[rest.index_of(p)] == p);
            } else {
                assert(paths[rest.len() as int] == p);
            }
        }
    }
}

} // verus!
