use cooliris::dates::{
    civil_from_days, days_from_civil, file_days, file_time, fmt_date, parse_ymd_days, FileTime,
    FileTimes,
};

fn at(secs: i64) -> FileTime {
    FileTime { secs, nanos: 0 }
}

#[test]
fn days_are_counted_from_1970() {
    assert_eq!(days_from_civil(1970, 1, 1), 0);
    assert_eq!(days_from_civil(1969, 12, 31), -1);
    assert_eq!(days_from_civil(2000, 2, 29), 11_016);
    assert_eq!(days_from_civil(2000, 3, 1), 11_017);
    assert_eq!(days_from_civil(2024, 12, 31), 20_088);
    assert_eq!(days_from_civil(0, 3, 1), -719_468);
}

#[test]
fn dates_and_days_undo_each_other() {
    for days in (0..60_000).step_by(37) {
        let (y, m, d) = civil_from_days(days);
        assert_eq!(days_from_civil(y, m, d), days);
    }
    assert_eq!(civil_from_days(11_016), (2000, 2, 29));
    assert_eq!(civil_from_days(0), (1970, 1, 1));
}

#[test]
fn months_and_years_add_up() {
    assert_eq!(days_from_civil(2001, 1, 1) - days_from_civil(2000, 1, 1), 366);
    assert_eq!(days_from_civil(1901, 1, 1) - days_from_civil(1900, 1, 1), 365);
    assert_eq!(days_from_civil(2023, 3, 1) - days_from_civil(2023, 2, 1), 28);
    assert!(days_from_civil(2023, 12, 31) < days_from_civil(2024, 1, 1));
}

#[test]
fn times_are_shown_as_month_day_year() {
    assert_eq!(fmt_date(at(0)), "1/1/1970");
    assert_eq!(fmt_date(at(951_782_400)), "2/29/2000");
    assert_eq!(fmt_date(at(1_735_689_599)), "12/31/2024");
    assert_eq!(fmt_date(at(-1)), "\u{2014}");
}

#[test]
fn whole_dates_are_parsed() {
    assert_eq!(parse_ymd_days("1970-01-02"), Some(1));
    assert_eq!(parse_ymd_days("  2000-02-29 "), Some(11_016));
    assert_eq!(parse_ymd_days("2024-1-5"), Some(days_from_civil(2024, 1, 5)));
    assert_eq!(parse_ymd_days("2024-02-31"), Some(days_from_civil(2024, 2, 31)));
    for s in ["", "2024", "2024-01", "2024-13-01", "2024-00-01", "2024-01-32", "2024-01-00",
        "2024-01-01-", "2024-01-01-05", "x-1-1", "2024--1"] {
        assert_eq!(parse_ymd_days(s), None, "{s:?}");
    }
}

#[test]
fn created_dates_fall_back_to_modified_ones() {
    let both = FileTimes { modified: Some(at(86_400)), created: Some(at(10)) };
    let one = FileTimes { modified: Some(at(172_800)), created: None };
    let none = FileTimes { modified: None, created: None };
    assert_eq!(file_time(both, false), Some(at(86_400)));
    assert_eq!(file_time(both, true), Some(at(10)));
    assert_eq!(file_time(one, true), Some(at(172_800)));
    assert_eq!(file_days(both, false), Some(1));
    assert_eq!(file_days(one, true), Some(2));
    assert_eq!(file_days(none, true), None);
    assert_eq!(file_days(FileTimes { modified: Some(at(-5)), created: None }, false), None);
}
