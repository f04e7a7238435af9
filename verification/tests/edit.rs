use cooliris::edit::{caret_str, insert_into, remove_at};

#[test]
fn typed_text_goes_in_at_the_caret() {
    let mut s = String::from("h\u{e9}llo");
    assert_eq!(insert_into(&mut s, 2, "XY", false), 4);
    assert_eq!(s, "h\u{e9}XYllo");
    assert_eq!(insert_into(&mut s, 99, "!", false), 8);
    assert_eq!(s, "h\u{e9}XYllo!");
    assert_eq!(insert_into(&mut s, 0, "\u{8}\n\u{7f}", false), 0);
    assert_eq!(s, "h\u{e9}XYllo!");
}

#[test]
fn date_fields_take_digits_and_dashes_up_to_ten() {
    let mut s = String::new();
    assert_eq!(insert_into(&mut s, 0, "20a24/-01", true), 7);
    assert_eq!(s, "2024-01");
    assert_eq!(insert_into(&mut s, 7, "-1599", true), 10);
    assert_eq!(s, "2024-01-15");
    assert_eq!(insert_into(&mut s, 3, "9", true), 3);
    assert_eq!(s, "2024-01-15");
}

#[test]
fn characters_are_removed_by_position() {
    let mut s = String::from("a\u{1f600}b");
    assert!(remove_at(&mut s, 1));
    assert_eq!(s, "ab");
    assert!(!remove_at(&mut s, 2));
    assert_eq!(s, "ab");
}

#[test]
fn removing_undoes_typing() {
    let mut s = String::from("caf\u{e9}s");
    let caret = insert_into(&mut s, 4, "x", false);
    assert!(remove_at(&mut s, caret - 1));
    assert_eq!(s, "caf\u{e9}s");
}

#[test]
fn the_caret_shows_in_the_active_field() {
    assert_eq!(caret_str("abc", 1, false), "abc");
    let shown = caret_str("abc", 1, true);
    assert_eq!(shown.chars().count(), 4);
    assert!(shown.starts_with('a') && shown.ends_with("bc"));
    assert_eq!(caret_str("abc", 9, true).chars().last(), shown.chars().nth(1));
}
