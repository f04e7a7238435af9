use cooliris::components::{Filter, SortMode};
use cooliris::dates::{days_from_civil, FileTime, FileTimes};
use cooliris::library::{view_of, Query};
use cooliris::media::Source;
use std::path::PathBuf;

fn query() -> Query {
    Query {
        kind: Filter::All,
        search: String::new(),
        from: None,
        to: None,
        created: false,
        sort: SortMode::Default,
    }
}

fn times(day: i64) -> FileTimes {
    FileTimes { modified: Some(FileTime { secs: day * 86_400, nanos: 0 }), created: None }
}

fn sources() -> Vec<Source> {
    vec![
        Source::File(PathBuf::from("x/Beach.JPG")),
        Source::Video(PathBuf::from("x/apple.mp4")),
        Source::Audio(PathBuf::from("x/cello.mp3")),
        Source::File(PathBuf::from("x/ARCTIC.png")),
        Source::Placeholder(4),
    ]
}

fn stamps() -> Vec<FileTimes> {
    vec![times(30), times(10), times(20), times(10), FileTimes { modified: None, created: None }]
}

fn shown(q: &Query) -> Vec<usize> {
    view_of(&sources(), &stamps(), q)
}

#[test]
fn an_empty_query_shows_everything_as_loaded() {
    assert_eq!(shown(&query()), vec![0, 1, 2, 3, 4]);
}

#[test]
fn kinds_are_filtered_and_samples_pass() {
    assert_eq!(shown(&Query { kind: Filter::Photos, ..query() }), vec![0, 3, 4]);
    assert_eq!(shown(&Query { kind: Filter::Videos, ..query() }), vec![1, 4]);
    assert_eq!(shown(&Query { kind: Filter::Audio, ..query() }), vec![2, 4]);
}

#[test]
fn names_are_searched_whatever_their_case() {
    assert_eq!(shown(&Query { search: "AR".to_string(), ..query() }), vec![3, 4]);
    assert_eq!(shown(&Query { search: "each".to_string(), ..query() }), vec![0, 4]);
    assert_eq!(shown(&Query { search: "x/".to_string(), ..query() }), vec![4]);
    let umlaut = vec![Source::File(PathBuf::from("\u{dc}BER.png"))];
    let q = Query { search: "\u{fc}b".to_string(), ..query() };
    assert_eq!(view_of(&umlaut, &vec![times(1)], &q), vec![0]);
}

#[test]
fn dates_are_bounded_on_both_sides() {
    assert_eq!(shown(&Query { from: Some(20), ..query() }), vec![0, 2, 4]);
    assert_eq!(shown(&Query { to: Some(20), ..query() }), vec![1, 2, 3, 4]);
    assert_eq!(shown(&Query { from: Some(20), to: Some(20), ..query() }), vec![2, 4]);
    let lost = vec![Source::File(PathBuf::from("lost.png"))];
    let unknown = vec![FileTimes { modified: None, created: None }];
    let q = Query { from: Some(days_from_civil(1900, 1, 1)), ..query() };
    assert!(view_of(&lost, &unknown, &q).is_empty());
    assert_eq!(view_of(&lost, &unknown, &query()), vec![0]);
}

#[test]
fn names_sort_both_ways() {
    let up = shown(&Query { sort: SortMode::NameAsc, ..query() });
    assert_eq!(up, vec![4, 1, 3, 0, 2]);
    let mut down = shown(&Query { sort: SortMode::NameDesc, ..query() });
    assert_eq!(down, vec![2, 0, 3, 1, 4]);
    down.reverse();
    assert_eq!(down, up);
}

#[test]
fn dates_sort_both_ways() {
    let old = shown(&Query { sort: SortMode::ModifiedOld, ..query() });
    assert_eq!(old, vec![4, 1, 3, 2, 0]);
    let mut new = shown(&Query { sort: SortMode::ModifiedNew, ..query() });
    assert_eq!(new, vec![0, 2, 3, 1, 4]);
    new.reverse();
    assert_eq!(new, old);
    let created = vec![
        FileTimes {
            modified: Some(FileTime { secs: 5, nanos: 0 }),
            created: Some(FileTime { secs: 9, nanos: 1 }),
        },
        FileTimes { modified: Some(FileTime { secs: 9, nanos: 0 }), created: None },
    ];
    let two = vec![Source::File(PathBuf::from("a.png")), Source::File(PathBuf::from("b.png"))];
    let q = Query { sort: SortMode::CreatedNew, ..query() };
    assert_eq!(view_of(&two, &created, &q), vec![0, 1]);
}

#[test]
fn the_same_query_shows_the_same_again() {
    let q = Query { sort: SortMode::NameAsc, ..query() };
    assert_eq!(shown(&q), shown(&q));
    assert_eq!(shown(&Query { kind: Filter::Photos, ..query() }), vec![0, 3, 4]);
}
