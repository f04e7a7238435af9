//! The civil calendar: days since 1970-01-01, "YYYY-MM-DD" fields, and dates to show.

use crate::text::{
    all_digits, decimal, digits_value, push_decimal, push_signed, read_signed, signed_decimal,
    signed_text, to_chars, trim_bounds, trimmed,
};
use vstd::arithmetic::div_mod::lemma_fundamental_div_mod_converse;
use vstd::prelude::*;

verus! {

/// Leap years of the Gregorian calendar.
pub open spec fn is_leap(y: int) -> bool {
    y % 4 == 0 && (y % 100 != 0 || y % 400 == 0)
}

pub open spec fn days_in_month(y: int, m: int) -> int {
    if m == 2 {
        if is_leap(y) {
            29
        } else {
            28
        }
    } else if m == 4 || m == 6 || m == 9 || m == 11 {
        30
    } else {
        31
    }
}

pub open spec fn days_in_year(y: int) -> int {
    if is_leap(y) {
        366
    } else {
        365
    }
}

/// Days from the start of year 1 to the start of year `y`.
pub open spec fn days_before_year(y: int) -> int {
    365 * (y - 1) + (y - 1) / 4 - (y - 1) / 100 + (y - 1) / 400
}

/// Days from the start of the year to the start of month `m`.
pub open spec fn days_before_month(y: int, m: int) -> int
    decreases m,
{
    if m <= 1 {
        0
    } else {
        days_before_month(y, m - 1) + days_in_month(y, m - 1)
    }
}

/// Days from 1970-01-01 to a date. Days past the end of a month count on into the next one.
pub open spec fn day_number(y: int, m: int, d: int) -> int {
    days_before_year(y) - days_before_year(1970) + days_before_month(y, m) + d - 1
}

/// A date of the calendar.
pub open spec fn is_date(y: int, m: int, d: int) -> bool {
    1 <= m <= 12 && 1 <= d <= days_in_month(y, m)
}

/// The days before a year add up year by year.
pub proof fn years_add_up(y: int)
    ensures
        days_before_year(y + 1) == days_before_year(y) + days_in_year(y),
{
    let q = (y - 1) / 400;
    let r = (y - 1) % 400;
    assert(y - 1 == 400 * q + r);
    assert((y - 1) / 4 == 100 * q + r / 4);
    assert((y - 1) / 100 == 4 * q + r / 100);
    if r < 399 {
        assert(y / 400 == q);
        assert(y / 4 == 100 * q + (r + 1) / 4);
        assert(y / 100 == 4 * q + (r + 1) / 100);
        assert(y % 400 == r + 1);
        assert(y % 4 == (r + 1) % 4);
        assert(y % 100 == (r + 1) % 100);
        lemma_in_era(r);
    } else {
        assert(y == 400 * (q + 1));
        assert(y / 4 == 100 * (q + 1));
        assert(y / 100 == 4 * (q + 1));
    }
}

/// The steps of the calendar within one era of 400 years.
proof fn lemma_in_era(r: int)
    requires
        0 <= r < 399,
    ensures
        (r + 1) / 4 - r / 4 == if (r + 1) % 4 == 0 { 1int } else { 0int },
        (r + 1) / 100 - r / 100 == if (r + 1) % 100 == 0 { 1int } else { 0int },
        (r + 1) % 100 == 0 ==> (r + 1) % 4 == 0,
{
}

/// The months of a year add up to the year.
pub proof fn months_add_up(y: int)
    ensures
        days_before_month(y, 13) == days_in_year(y),
        days_before_month(y, 1) == 0,
        days_before_month(y, 2) == 31,
        days_before_month(y, 3) == 59 + (days_in_year(y) - 365),
        days_before_month(y, 4) == 90 + (days_in_year(y) - 365),
        days_before_month(y, 5) == 120 + (days_in_year(y) - 365),
        days_before_month(y, 6) == 151 + (days_in_year(y) - 365),
        days_before_month(y, 7) == 181 + (days_in_year(y) - 365),
        days_before_month(y, 8) == 212 + (days_in_year(y) - 365),
        days_before_month(y, 9) == 243 + (days_in_year(y) - 365),
        days_before_month(y, 10) == 273 + (days_in_year(y) - 365),
        days_before_month(y, 11) == 304 + (days_in_year(y) - 365),
        days_before_month(y, 12) == 334 + (days_in_year(y) - 365),
{
    reveal_with_fuel(days_before_month, 14);
}

/// A later date has a larger number: the day numbers are in calendar order.
pub proof fn dates_are_in_order(y1: int, m1: int, d1: int, y2: int, m2: int, d2: int)
    requires
        is_date(y1, m1, d1),
        is_date(y2, m2, d2),
        y1 < y2 || y1 == y2 && (m1 < m2 || m1 == m2 && d1 < d2),
    ensures
        day_number(y1, m1, d1) < day_number(y2, m2, d2),
{
    months_add_up(y1);
    months_add_up(y2);
    if y1 < y2 {
        years_add_up(y1);
        lemma_years_grow(y1 + 1, y2);
        assert(days_before_month(y1, m1) + days_in_month(y1, m1) <= days_in_year(y1));
    }
}

proof fn lemma_years_grow(a: int, b: int)
    requires
        a <= b,
    ensures
        days_before_year(a) <= days_before_year(b),
    decreases b - a,
{
    if a < b {
        years_add_up(a);
        lemma_years_grow(a + 1, b);
    }
}

/// Two dates with one number are one date.
pub proof fn dates_are_unique(y1: int, m1: int, d1: int, y2: int, m2: int, d2: int)
    requires
        is_date(y1, m1, d1),
        is_date(y2, m2, d2),
        day_number(y1, m1, d1) == day_number(y2, m2, d2),
    ensures
        y1 == y2,
        m1 == m2,
        d1 == d2,
{
    if y1 < y2 || y1 == y2 && (m1 < m2 || m1 == m2 && d1 < d2) {
        dates_are_in_order(y1, m1, d1, y2, m2, d2);
    } else if y2 < y1 || m2 < m1 || d2 < d1 {
        dates_are_in_order(y2, m2, d2, y1, m1, d1);
    }
}

/// Counting from 0000-03-01, with January and February at the end of the year before, the leap
/// day comes last.
proof fn lemma_march_years(y: int, m: int, d: int)
    requires
        1 <= m <= 12,
    ensures
        ({
            let my = if m <= 2 { y - 1 } else { y };
            let mp = if m > 2 { m - 3 } else { m + 9 };
            day_number(y, m, d) == 365 * my + my / 4 - my / 100 + my / 400 + (153 * mp + 2) / 5 + d
                - 1 - 719468
        }),
{
    months_add_up(y);
    years_add_up(y);
}

/// A date as days since 1970-01-01.
pub fn days_from_civil(y: i64, m: i64, d: i64) -> (days: i64)
    requires
        1 <= m <= 12,
        1 <= d <= 31,
        i64::MIN + 146_097 <= day_number(y as int, m as int, d as int) <= i64::MAX - 719_468,
    ensures
        days == day_number(y as int, m as int, d as int),
{
    proof {
        lemma_march_years(y as int, m as int, d as int);
    }
    let y: i64 = if m <= 2 {
        y - 1
    } else {
        y
    };
    let era: i64 = (if y >= 0 {
        y
    } else {
        y - 399
    }) / 400;
    assert(era == y as int / 400) by {
        if y < 0 {
            assert(y - 399 <= 400 * era <= y);
        }
    }
    let yoe: i64 = y - era * 400;
    assert(0 <= yoe <= 399);
    let mp: i64 = if m > 2 {
        m - 3
    } else {
        m + 9
    };
    let doy: i64 = (153 * mp + 2) / 5 + d - 1;
    let doe: i64 = yoe * 365 + yoe / 4 - yoe / 100 + doy;
    assert(y as int / 4 == era * 100 + yoe as int / 4);
    assert(y as int / 100 == era * 4 + yoe as int / 100);
    era * 146_097 + doe - 719_468
}

/// A point in time: whole seconds since 1970-01-01, rounded down, and nanoseconds on top.
#[derive(Clone, Copy, PartialEq, Eq, Structural, Debug)]
pub struct FileTime {
    pub secs: i64,
    pub nanos: u32,
}

/// What a file system says of a file; `None` where it does not say.
#[derive(Clone, Copy, PartialEq, Eq, Structural, Debug)]
pub struct FileTimes {
    pub modified: Option<FileTime>,
    pub created: Option<FileTime>,
}

/// The date that a file goes by: the modified date, or the created date. Not every file system
/// knows the latter, so that it falls back to the former.
pub open spec fn chosen_time(times: FileTimes, created: bool) -> Option<FileTime> {
    if created && times.created is Some {
        times.created
    } else {
        times.modified
    }
}

/// The date that a file goes by.
pub fn file_time(times: FileTimes, created: bool) -> (time: Option<FileTime>)
    ensures
        time == chosen_time(times, created),
{
    if created && times.created.is_some() {
        times.created
    } else {
        times.modified
    }
}

/// The day of a point in time; times before 1970 have none.
pub open spec fn day_of(time: FileTime) -> Option<int> {
    if time.secs < 0 {
        None
    } else {
        Some(time.secs as int / 86_400)
    }
}

/// The day that a file goes by.
pub open spec fn day_of_file(times: FileTimes, created: bool) -> Option<int> {
    match chosen_time(times, created) {
        Some(time) => day_of(time),
        None => None,
    }
}

/// The day that a file goes by, as days since 1970-01-01.
pub fn file_days(times: FileTimes, created: bool) -> (days: Option<i64>)
    ensures
        match days {
            Some(n) => day_of_file(times, created) == Some(n as int),
            None => day_of_file(times, created) is None,
        },
{
    match file_time(times, created) {
        Some(time) => {
            if time.secs < 0 {
                None
            } else {
                Some(time.secs / 86_400)
            }
        },
        None => None,
    }
}

/// The quotients of a year that is counted by era, century, group of four years, and year.
proof fn lemma_counted_year(era: int, c: int, q: int, a: int)
    requires
        0 <= c <= 3,
        0 <= q <= 24,
        0 <= a <= 3,
    ensures
        ({
            let my = era * 400 + c * 100 + q * 4 + a;
            &&& my / 4 == era * 100 + c * 25 + q
            &&& my / 100 == era * 4 + c
            &&& my / 400 == era
            &&& a == 3 && (q < 24 || c == 3) ==> is_leap(my + 1)
        }),
{
    let my = era * 400 + c * 100 + q * 4 + a;
    lemma_fundamental_div_mod_converse(my, 4, era * 100 + c * 25 + q, a);
    lemma_fundamental_div_mod_converse(my, 100, era * 4 + c, q * 4 + a);
    lemma_fundamental_div_mod_converse(my, 400, era, c * 100 + q * 4 + a);
    if a == 3 && q < 24 {
        lemma_fundamental_div_mod_converse(my + 1, 4, era * 100 + c * 25 + q + 1, 0);
        lemma_fundamental_div_mod_converse(my + 1, 100, era * 4 + c, q * 4 + 4);
    } else if a == 3 && c == 3 {
        lemma_fundamental_div_mod_converse(my + 1, 4, era * 100 + 100, 0);
        lemma_fundamental_div_mod_converse(my + 1, 400, era + 1, 0);
    }
}

/// The month and the day of a day of a year that starts in March. The leap day comes last.
proof fn lemma_march_month(my: int, doy: int)
    requires
        0 <= doy <= 365,
        doy == 365 ==> is_leap(my + 1),
    ensures
        ({
            let mp = (5 * doy + 2) / 153;
            let d = doy - (153 * mp + 2) / 5 + 1;
            let m = if mp < 10 { mp + 3 } else { mp - 9 };
            let y = if m <= 2 { my + 1 } else { my };
            &&& 0 <= mp <= 11
            &&& 0 <= (153 * mp + 2) / 5 <= 337
            &&& is_date(y, m, d)
        }),
{
    let mp = (5 * doy + 2) / 153;
    if mp == 0 {
    } else if mp == 1 {
    } else if mp == 2 {
    } else if mp == 3 {
    } else if mp == 4 {
    } else if mp == 5 {
    } else if mp == 6 {
    } else if mp == 7 {
    } else if mp == 8 {
    } else if mp == 9 {
    } else if mp == 10 {
    } else {
        assert(mp == 11);
    }
}

/// The date of a day on or after 1970-01-01.
pub fn civil_from_days(days: i64) -> (date: (i64, i64, i64))
    requires
        0 <= days <= i64::MAX - 719_468,
    ensures
        is_date(date.0 as int, date.1 as int, date.2 as int),
        day_number(date.0 as int, date.1 as int, date.2 as int) == days,
{
    let z: i64 = days + 719_468;
    let era: i64 = z / 146_097;
    let doe: i64 = z - era * 146_097;
    // Centuries, groups of four years, and years of the era; each starts in March, so that the
    // long one comes last.
    let c: i64 = if doe / 36_524 > 3 {
        3
    } else {
        doe / 36_524
    };
    let in_century: i64 = doe - c * 36_524;
    let q: i64 = if in_century / 1_461 > 24 {
        24
    } else {
        in_century / 1_461
    };
    let in_group: i64 = in_century - q * 1_461;
    let a: i64 = if in_group / 365 > 3 {
        3
    } else {
        in_group / 365
    };
    let doy: i64 = in_group - a * 365;
    let my: i64 = era * 400 + c * 100 + q * 4 + a;
    proof {
        lemma_counted_year(era as int, c as int, q as int, a as int);
        assert(doy == 365 ==> a == 3 && (q < 24 || c == 3));
        lemma_march_month(my as int, doy as int);
    }
    let mp: i64 = (5 * doy + 2) / 153;
    let d: i64 = doy - (153 * mp + 2) / 5 + 1;
    let m: i64 = if mp < 10 {
        mp + 3
    } else {
        mp - 9
    };
    let y: i64 = if m <= 2 {
        my + 1
    } else {
        my
    };
    proof {
        lemma_march_years(y as int, m as int, d as int);
    }
    (y, m, d)
}

/// The text of a date: month, day and year.
pub open spec fn date_text(y: int, m: int, d: int) -> Seq<char> {
    decimal(m as nat) + seq!['/'] + decimal(d as nat) + seq!['/'] + signed_decimal(y)
}

/// The text that stands for a day before 1970.
pub open spec fn no_date() -> Seq<char> {
    seq!['\u{2014}']
}

/// `text` is what is shown for a point in time.
pub open spec fn shows_time(time: FileTime, text: Seq<char>) -> bool {
    match day_of(time) {
        Some(days) => exists|y: int, m: int, d: int| #[trigger]
            is_date(y, m, d) && day_number(y, m, d) == days && text == date_text(y, m, d),
        None => text == no_date(),
    }
}

/// What is shown for a point in time is unique.
pub proof fn shown_time_is_unique(time: FileTime, a: Seq<char>, b: Seq<char>)
    requires
        shows_time(time, a),
        shows_time(time, b),
    ensures
        a == b,
{
    match day_of(time) {
        Some(days) => {
            let (y1, m1, d1) = choose|y: int, m: int, d: int| #[trigger]
                is_date(y, m, d) && day_number(y, m, d) == days && a == date_text(y, m, d);
            let (y2, m2, d2) = choose|y: int, m: int, d: int| #[trigger]
                is_date(y, m, d) && day_number(y, m, d) == days && b == date_text(y, m, d);
            dates_are_unique(y1, m1, d1, y2, m2, d2);
        },
        None => {},
    }
}

/// The text of a point in time: "M/D/YYYY", or a dash before 1970.
pub fn fmt_date(time: FileTime) -> (text: String)
    ensures
        shows_time(time, text@),
{
    let mut text = String::new();
    if time.secs < 0 {
        text.push('\u{2014}');
        assert(text@ =~= no_date());
        return text;
    }
    let (y, m, d) = civil_from_days(time.secs / 86_400);
    push_decimal(&mut text, m as u64);
    text.push('/');
    push_decimal(&mut text, d as u64);
    text.push('/');
    push_signed(&mut text, y);
    proof {
        assert(text@ =~= date_text(y as int, m as int, d as int));
        assert(is_date(y as int, m as int, d as int));
    }
    text
}

/// A text with dashes at `i` and `j` and nowhere else.
pub open spec fn two_dashes(s: Seq<char>, i: int, j: int) -> bool {
    &&& 0 <= i < j < s.len()
    &&& s[i] == '-'
    &&& s[j] == '-'
    &&& forall|k: int| 0 <= k < s.len() && k != i && k != j ==> #[trigger] s[k] != '-'
}

/// The day that the three parts of a date stand for.
pub open spec fn day_of_parts(y: Option<int>, m: Option<int>, d: Option<int>) -> Option<int> {
    match (y, m, d) {
        (Some(y), Some(m), Some(d)) => if 1 <= m <= 12 && 1 <= d <= 31 {
            Some(day_number(y, m, d))
        } else {
            None
        },
        _ => None,
    }
}

/// The year of a date text.
pub open spec fn year_of(s: Seq<char>) -> Option<int> {
    if exists|i: int, j: int| two_dashes(s, i, j) {
        let (i, j) = choose|i: int, j: int| two_dashes(s, i, j);
        signed_text(s.take(i))
    } else {
        None
    }
}

/// The day that a date text stands for: three numbers with dashes between them, a month from 1
/// to 12 and a day from 1 to 31.
pub open spec fn day_of_text(s: Seq<char>) -> Option<int> {
    if exists|i: int, j: int| two_dashes(s, i, j) {
        let (i, j) = choose|i: int, j: int| two_dashes(s, i, j);
        day_of_parts(
            signed_text(s.take(i)),
            signed_text(s.subrange(i + 1, j)),
            signed_text(s.skip(j + 1)),
        )
    } else {
        None
    }
}

/// The year of a text keeps the day count within 64 bits.
pub open spec fn year_fits(s: Seq<char>) -> bool {
    year_of(s) matches Some(y) ==> i64::MIN + 146_200 <= days_before_year(y) <= i64::MAX - 1_439_500
}

proof fn lemma_two_dashes_unique(s: Seq<char>, i: int, j: int)
    requires
        two_dashes(s, i, j),
    ensures
        ({
            let (a, b) = choose|a: int, b: int| two_dashes(s, a, b);
            a == i && b == j
        }),
{
    let (a, b) = choose|a: int, b: int| two_dashes(s, a, b);
    assert(two_dashes(s, a, b));
    assert(s[a] == '-' && s[b] == '-');
}

/// The day that a "YYYY-MM-DD" field stands for, as days since 1970-01-01; `None` unless it is a
/// complete date.
pub fn parse_ymd_days(s: &str) -> (days: Option<i64>)
    requires
        year_fits(trimmed(s@)),
    ensures
        match days {
            Some(n) => day_of_text(trimmed(s@)) == Some(n as int),
            None => day_of_text(trimmed(s@)) is None,
        },
{
    let chars = to_chars(s);
    let (from, to) = trim_bounds(&chars);
    let ghost t = trimmed(s@);
    let mut dashes: usize = 0;
    let mut first: usize = from;
    let mut second: usize = from;
    let mut k: usize = from;
    while k < to
        invariant
            from <= k <= to <= chars.len(),
            t == trimmed(s@),
            t == chars@.subrange(from as int, to as int),
            dashes <= 2,
            dashes >= 1 ==> from <= first < k && t[first - from] == '-',
            dashes >= 2 ==> first < second < k && t[second - from] == '-',
            forall|n: int|
                0 <= n < k - from && (dashes >= 1 ==> n != first - from) && (dashes >= 2 ==> n
                    != second - from) ==> #[trigger] t[n] != '-',
        decreases to - k,
    {
        let ghost at = k - from;
        assert(t[at] == chars@[k as int]);
        if chars[k] == '-' {
            if dashes == 0 {
                first = k;
            } else if dashes == 1 {
                second = k;
            } else {
                assert forall|i: int, j: int| !two_dashes(t, i, j) by {
                    assert(t[first - from] == '-' && t[second - from] == '-' && t[at] == '-');
                }
                return None;
            }
            dashes = dashes + 1;
        }
        k = k + 1;
    }
    if dashes < 2 {
        proof {
            if exists|i: int, j: int| two_dashes(t, i, j) {
                let (i, j) = choose|i: int, j: int| two_dashes(t, i, j);
                assert(t[i] == '-' && t[j] == '-');
            }
        }
        return None;
    }
    let ghost i = first - from;
    let ghost j = second - from;
    proof {
        assert(two_dashes(t, i, j));
        lemma_two_dashes_unique(t, i, j);
        assert(chars@.subrange(from as int, first as int) =~= t.take(i));
        assert(chars@.subrange(first + 1, second as int) =~= t.subrange(i + 1, j));
        assert(chars@.subrange(second + 1, to as int) =~= t.skip(j + 1));
    }
    let year = read_signed(&chars, from, first);
    let month = read_signed(&chars, first + 1, second);
    let day = read_signed(&chars, second + 1, to);
    match (year, month, day) {
        (Some(y), Some(m), Some(d)) => {
            if 1 <= m && m <= 12 && 1 <= d && d <= 31 {
                proof {
                    months_add_up(y as int);
                }
                Some(days_from_civil(y, m, d))
            } else {
                None
            }
        },
        _ => None,
    }
}

/// A number of `n` digits is smaller than ten to the power of `n`.
proof fn lemma_digits_bound(s: Seq<char>)
    requires
        all_digits(s),
        s.len() <= 10,
    ensures
        digits_value(s) < 10_000_000_000,
{
    reveal_with_fuel(digits_value, 11);
    assert forall|k: int| 0 <= k < s.len() implies 48 <= #[trigger] s[k] as int <= 57 by {
        assert(crate::text::is_digit(s[k]));
    }
}

/// Whatever a date field holds, its year fits.
pub proof fn date_fields_fit(s: Seq<char>)
    requires
        crate::edit::is_date_field(s),
    ensures
        year_fits(trimmed(s)),
{
    let t = trimmed(s);
    crate::text::every_text_trims(s);
    if exists|i: int, j: int| two_dashes(t, i, j) {
        let (i, j) = choose|i: int, j: int| two_dashes(t, i, j);
        let y = t.take(i);
        if signed_text(y) is Some {
            if y.len() > 0 && y[0] == '-' {
                assert(t[0] == '-');
            }
            let digits = if y.len() > 0 && y[0] == '+' {
                y.drop_first()
            } else {
                y
            };
            lemma_digits_bound(digits);
        }
    }
}

} // verus!
