use cooliris::manifest::{collect_json_strings, gather_from_json, manifest_paths};
use cooliris::media::Source;
use std::path::PathBuf;

fn paths(list: &[&str]) -> Vec<PathBuf> {
    list.iter().map(PathBuf::from).collect()
}

#[test]
fn every_string_of_a_tree_is_collected_in_order() {
    let v: serde_json::Value =
        serde_json::from_str(r#"["a", 1, null, {"k": "b", "l": ["c", true]}, "d"]"#).unwrap();
    let mut out = vec![String::from("seed")];
    collect_json_strings(&v, &mut out);
    assert_eq!(out, vec!["seed", "a", "b", "c", "d"]);
}

#[test]
fn media_paths_resolve_against_the_manifest() {
    let json = r#"{ "items": [
        { "path": "one.jpg" },
        "sub/two.mp4",
        "/abs/three.mp3",
        "http://example.org/four.png",
        "https://example.org/five.png",
        "notes.txt"
    ] }"#;
    let found = manifest_paths(&PathBuf::from("/lib/list.json"), json).unwrap();
    assert_eq!(found, paths(&["/lib/one.jpg", "/lib/sub/two.mp4", "/abs/three.mp3"]));
}

#[test]
fn members_come_in_document_order() {
    let json = r#"{ "z": "1.png", "a": { "y": "2.png", "b": "3.png" }, "m": ["4.png"] }"#;
    let found = manifest_paths(&PathBuf::from("/l/list.json"), json).unwrap();
    assert_eq!(found, paths(&["/l/1.png", "/l/2.png", "/l/3.png", "/l/4.png"]));
}

#[test]
fn broken_manifests_list_nothing() {
    assert!(manifest_paths(&PathBuf::from("/lib/list.json"), "{ nope").is_none());
    assert!(manifest_paths(&PathBuf::from("/lib/list.json"), "").is_none());
    assert_eq!(manifest_paths(&PathBuf::from("list.json"), "[\"a.png\"]"), Some(paths(&["a.png"])));
    assert_eq!(manifest_paths(&PathBuf::from("list.json"), "42"), Some(Vec::new()));
}

#[test]
fn missing_files_and_duplicates_are_dropped() {
    let listed = paths(&["/l/a.jpg", "/l/b.mp4", "/l/./a.jpg", "/l/c.mp3", "/l/b.mp4"]);
    let sources = gather_from_json(&listed, &vec![true, false, true, true, true]);
    assert_eq!(sources.len(), 3);
    assert!(matches!(&sources[0], Source::File(p) if p == &PathBuf::from("/l/a.jpg")));
    assert!(matches!(&sources[1], Source::Audio(p) if p == &PathBuf::from("/l/c.mp3")));
    assert!(matches!(&sources[2], Source::Video(p) if p == &PathBuf::from("/l/b.mp4")));
}
