use cooliris::dates::FileTime;
use cooliris::media::{key_of_parts, path_key};
use cooliris::order::{rank_order, reversed, same_ranks, time_order, DateKey, RankKey};
use cooliris::paths::{PathPart, PathPrefix};
use std::path::PathBuf;

fn word(ranks: Vec<u32>) -> RankKey {
    RankKey { ranks }
}

fn day(n: i64) -> DateKey {
    DateKey { time: Some(FileTime { secs: n * 86_400, nanos: 0 }) }
}

#[test]
fn words_order_letter_by_letter_and_keep_ties() {
    let keys = vec![
        word(vec![2]),
        word(vec![1, 5]),
        word(vec![]),
        word(vec![1]),
        word(vec![2]),
        word(vec![1, 4, 9]),
    ];
    let order = rank_order(&keys);
    assert_eq!(order, vec![2, 3, 5, 1, 0, 4]);
    assert_eq!(reversed(&order), vec![4, 0, 1, 5, 3, 2]);
    assert_eq!(rank_order(&keys), order);
}

#[test]
fn unknown_times_come_first() {
    let keys = vec![day(3), DateKey { time: None }, day(1), day(3), day(-1)];
    assert_eq!(time_order(&keys), vec![1, 4, 2, 0, 3]);
}

#[test]
fn paths_order_component_by_component() {
    let texts = ["a/b", "a", "a.b/c", "a/b/c", "a b", "/a", "A"];
    let mut paths: Vec<PathBuf> = texts.iter().map(PathBuf::from).collect();
    let keys: Vec<RankKey> = paths.iter().map(path_key).collect();
    let order = rank_order(&keys);
    let ours: Vec<PathBuf> = order.iter().map(|&i| paths[i].clone()).collect();
    paths.sort();
    assert_eq!(ours, paths);
}

fn prefixed(prefix: Option<(u8, u8, &str, &str)>, parts: &[(u8, &str)]) -> RankKey {
    let prefix = prefix.map(|(kind, drive, name, share)| PathPrefix {
        kind,
        drive,
        name: name.as_bytes().to_vec(),
        share: share.as_bytes().to_vec(),
    });
    let parts = parts.iter().map(|&(kind, name)| PathPart { kind, name: name.into() }).collect();
    key_of_parts(&prefix, &parts)
}

#[test]
fn prefixes_count_by_what_they_say() {
    let lower = prefixed(Some((5, b'C', "", "")), &[(0, "c:"), (6, "\\"), (9, "a.jpg")]);
    let upper = prefixed(Some((5, b'C', "", "")), &[(0, "C:"), (6, "\\"), (9, "a.jpg")]);
    let other = prefixed(Some((5, b'D', "", "")), &[(0, "D:"), (6, "\\"), (9, "a.jpg")]);
    let share = prefixed(Some((4, 0, "srv", "pub")), &[(0, "\\\\srv\\pub"), (6, "\\")]);
    let slash = prefixed(Some((4, 0, "srv", "pub")), &[(0, "//srv/pub"), (6, "\\")]);
    let apart = prefixed(Some((4, 0, "srvp", "ub")), &[(0, "\\\\srvp\\ub"), (6, "\\")]);
    let plain = prefixed(None, &[(9, "a.jpg")]);
    assert!(same_ranks(&lower.ranks, &upper.ranks));
    assert!(same_ranks(&share.ranks, &slash.ranks));
    assert!(!same_ranks(&share.ranks, &apart.ranks));
    assert!(same_ranks(&plain.ranks, &path_key(&PathBuf::from("a.jpg")).ranks));
    assert_eq!(rank_order(&vec![plain, other, upper, apart, share]), vec![4, 3, 2, 1, 0]);
}

#[test]
fn equal_paths_have_equal_words() {
    let a = path_key(&PathBuf::from("pics//holiday/./x.jpg"));
    let b = path_key(&PathBuf::from("pics/holiday/x.jpg"));
    let c = path_key(&PathBuf::from("pics/holidayx.jpg"));
    assert!(same_ranks(&a.ranks, &b.ranks));
    assert!(!same_ranks(&a.ranks, &c.ranks));
}
