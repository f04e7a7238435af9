//! What texts and dates promise: numbers read as they are written, and days count one by one.

use crate::dates::{
    date_text, dates_are_unique, day_number, day_of_text, days_in_month, is_date, months_add_up,
    shows_time, two_dashes, years_add_up, FileTime,
};
use crate::text::{
    all_digits, decimal, decimal_round_trip, digits_value, is_digit, is_trimmed, shortened,
    shortened_left, signed_decimal, signed_text, trimmed, trimmed_is_unique, unsigned_text,
    white_space,
};
use vstd::prelude::*;

verus! {

/// Digits read from the left: each further digit counts ten times what stands before it. A nought
/// in front changes nothing.
pub proof fn digits_read_from_the_left(s: Seq<char>, c: char)
    requires
        '0' <= c <= '9',
    ensures
        digits_value(Seq::<char>::empty()) == 0,
        digits_value(s.push(c)) == digits_value(s) * 10 + (c as int - '0' as int),
        digits_value(seq!['0'] + s) == digits_value(s),
    decreases s.len(),
{
    assert(s.push(c).drop_last() =~= s);
    let z = seq!['0'] + s;
    if s.len() == 0 {
        assert(z.drop_last() =~= s);
        assert(z.last() == '0');
    } else {
        digits_read_from_the_left(s.drop_last(), c);
        assert(z.drop_last() =~= seq!['0'] + s.drop_last());
        assert(z.last() == s.last());
    }
}

/// A written number is digits without a nought in front, unless it is nought, and reads as itself.
pub proof fn numbers_are_written_plainly(n: nat)
    ensures
        decimal(n).len() >= 1,
        forall|k: int| 0 <= k < decimal(n).len() ==> '0' <= #[trigger] decimal(n)[k] <= '9',
        n > 0 ==> decimal(n)[0] != '0',
        n == 0 ==> decimal(n) == seq!['0'],
        digits_value(decimal(n)) == n,
    decreases n,
{
    decimal_round_trip(n);
    assert forall|k: int| 0 <= k < decimal(n).len() implies '0' <= #[trigger] decimal(n)[k]
        <= '9' by {
        assert(is_digit(decimal(n)[k]));
    }
    if n >= 10 {
        numbers_are_written_plainly(n / 10);
        assert(decimal(n)[0] == decimal(n / 10)[0]);
    }
}

/// A negative number is written with a minus sign before it.
pub proof fn negative_numbers_have_a_sign(n: int)
    ensures
        n >= 0 ==> signed_decimal(n) == decimal(n as nat),
        n < 0 ==> signed_decimal(n) == seq!['-'] + decimal((-n) as nat),
{
}

/// White space around a text is dropped, and nothing else.
pub proof fn trimming_drops_what_surrounds(before: Seq<char>, s: Seq<char>, after: Seq<char>)
    requires
        forall|k: int| 0 <= k < before.len() ==> white_space(#[trigger] before[k]),
        forall|k: int| 0 <= k < after.len() ==> white_space(#[trigger] after[k]),
        s.len() > 0 ==> !white_space(s[0]) && !white_space(s[s.len() - 1]),
    ensures
        trimmed(before + s + after) == s,
{
    let t = before + s + after;
    let from = before.len() as int;
    let to = from + s.len();
    assert forall|k: int| 0 <= k < from implies white_space(#[trigger] t[k]) by {
        assert(t[k] == before[k]);
    }
    assert forall|k: int| to <= k < t.len() implies white_space(#[trigger] t[k]) by {
        assert(t[k] == after[k - to]);
    }
    if from < to {
        assert(t[from] == s[0]);
        assert(t[to - 1] == s[s.len() - 1]);
    }
    assert(is_trimmed(t, from, to));
    trimmed_is_unique(t, from, to);
    assert(t.subrange(from, to) =~= s);
}

/// A field that is empty, or holds nothing but white space, is no date.
pub proof fn blank_text_is_no_date(s: Seq<char>)
    requires
        forall|k: int| 0 <= k < s.len() ==> white_space(#[trigger] s[k]),
    ensures
        trimmed(s).len() == 0,
        day_of_text(trimmed(s)) is None,
{
    let e = Seq::<char>::empty();
    trimming_drops_what_surrounds(s, e, e);
    assert(s + e + e =~= s);
}

proof fn lemma_plain(s: Seq<char>)
    requires
        all_digits(s),
        digits_value(s) <= i64::MAX,
    ensures
        signed_text(s) == Some(digits_value(s) as int),
        forall|k: int| 0 <= k < s.len() ==> #[trigger] s[k] != '-',
{
    assert(is_digit(s[0]));
    assert forall|k: int| 0 <= k < s.len() implies #[trigger] s[k] != '-' by {
        assert(is_digit(s[k]));
    }
    assert(unsigned_text(s, i64::MAX as nat) == Some(digits_value(s)));
}

/// A whole date is read as the day that it names: year, month and day in digits, with a dash
/// between them. A month beyond the twelfth, or a day beyond the thirty-first, is no date.
pub proof fn whole_dates_are_read(y: Seq<char>, m: Seq<char>, d: Seq<char>)
    requires
        all_digits(y),
        all_digits(m),
        all_digits(d),
        digits_value(y) <= i64::MAX,
        digits_value(m) <= i64::MAX,
        digits_value(d) <= i64::MAX,
    ensures
        ({
            let text = y + seq!['-'] + m + seq!['-'] + d;
            let (month, day) = (digits_value(m), digits_value(d));
            &&& 1 <= month <= 12 && 1 <= day <= 31 ==> day_of_text(text) == Some(
                day_number(digits_value(y) as int, month as int, day as int),
            )
            &&& !(1 <= month <= 12 && 1 <= day <= 31) ==> day_of_text(text) is None
        }),
{
    let text = y + seq!['-'] + m + seq!['-'] + d;
    let i = y.len() as int;
    let j = i + 1 + m.len();
    lemma_plain(y);
    lemma_plain(m);
    lemma_plain(d);
    assert(text[i] == '-');
    assert(text[j] == '-');
    assert forall|k: int| 0 <= k < text.len() && k != i && k != j implies #[trigger] text[k]
        != '-' by {
        if k < i {
            assert(text[k] == y[k]);
        } else if k < j {
            assert(text[k] == m[k - i - 1]);
        } else {
            assert(text[k] == d[k - j - 1]);
        }
    }
    assert(two_dashes(text, i, j));
    let (a, b) = choose|a: int, b: int| two_dashes(text, a, b);
    assert(two_dashes(text, a, b));
    assert(a == i && b == j) by {
        assert(text[a] == '-' && text[b] == '-');
    }
    assert(text.take(i) =~= y);
    assert(text.subrange(i + 1, j) =~= m);
    assert(text.skip(j + 1) =~= d);
}

/// A text without a dash, with one dash, or with three or more, is no date.
pub proof fn other_texts_are_no_dates(s: Seq<char>)
    requires
        !(exists|i: int, j: int|
            {
                &&& 0 <= i < j < s.len()
                &&& #[trigger] s[i] == '-'
                &&& #[trigger] s[j] == '-'
                &&& forall|k: int| 0 <= k < s.len() && k != i && k != j ==> #[trigger] s[k] != '-'
            }),
    ensures
        day_of_text(s) is None,
{
    if exists|i: int, j: int| two_dashes(s, i, j) {
        let (i, j) = choose|i: int, j: int| two_dashes(s, i, j);
        assert(two_dashes(s, i, j));
        assert(s[i] == '-' && s[j] == '-');
    }
}

/// How many days a month has: February has 28, or 29 in each fourth year but for the full
/// centuries that four hundred does not divide.
pub open spec fn month_length(y: int, m: int) -> int {
    if m == 4 || m == 6 || m == 9 || m == 11 {
        30
    } else if m != 2 {
        31
    } else if y % 400 == 0 || y % 4 == 0 && y % 100 != 0 {
        29
    } else {
        28
    }
}

/// Days count one by one through the months and years, from nought on the first of January 1970.
pub proof fn days_count_one_by_one(y: int, m: int, d: int)
    requires
        1 <= m <= 12,
    ensures
        day_number(1970, 1, 1) == 0,
        day_number(y, m, d + 1) == day_number(y, m, d) + 1,
        m < 12 ==> day_number(y, m + 1, 1) == day_number(y, m, month_length(y, m)) + 1,
        m == 12 ==> day_number(y + 1, 1, 1) == day_number(y, 12, 31) + 1,
        is_date(y, m, d) <==> 1 <= d <= month_length(y, m),
{
    months_add_up(y);
    months_add_up(y + 1);
    years_add_up(y);
    months_add_up(1970);
    assert(days_in_month(y, m) == month_length(y, m));
}

/// What is shown for a point in time is its month, its day and its year, with slashes between
/// them; before 1970 it is a dash.
pub proof fn dates_show_their_day(time: FileTime, text: Seq<char>, y: int, m: int, d: int)
    requires
        shows_time(time, text),
        1 <= m <= 12,
        1 <= d <= month_length(y, m),
        y >= 0,
        day_number(y, m, d) * 86_400 <= time.secs < (day_number(y, m, d) + 1) * 86_400,
    ensures
        time.secs >= 0 ==> text == decimal(m as nat) + seq!['/'] + decimal(d as nat) + seq!['/']
            + decimal(y as nat),
        time.secs < 0 ==> text == seq!['\u{2014}'],
{
    days_count_one_by_one(y, m, d);
    if time.secs >= 0 {
        let days = day_number(y, m, d);
        assert(time.secs as int / 86_400 == days);
        let (y2, m2, d2) = choose|y: int, m: int, d: int| #[trigger]
            is_date(y, m, d) && day_number(y, m, d) == days && text == date_text(y, m, d);
        dates_are_unique(y, m, d, y2, m2, d2);
    }
}

/// A text that fits is shown whole. Else as much of its start as fits is shown, with an ellipsis
/// behind it that counts too.
pub proof fn long_texts_keep_their_start(s: Seq<char>, limit: nat)
    requires
        limit > 0,
    ensures
        s.len() <= limit ==> shortened(s, limit) == s,
        s.len() > limit ==> shortened(s, limit).len() == limit && shortened(s, limit)[limit - 1]
            == '\u{2026}' && forall|k: int|
            0 <= k < limit - 1 ==> #[trigger] shortened(s, limit)[k] == s[k],
{
}

/// A text that fits is shown whole. Else as much of its end as fits is shown, with an ellipsis
/// before it that counts too.
pub proof fn long_paths_keep_their_end(s: Seq<char>, limit: nat)
    requires
        limit > 0,
    ensures
        s.len() <= limit ==> shortened_left(s, limit) == s,
        s.len() > limit ==> shortened_left(s, limit).len() == limit && shortened_left(
            s,
            limit,
        )[0] == '\u{2026}' && forall|k: int|
            1 <= k < limit ==> #[trigger] shortened_left(s, limit)[k] == s[s.len() - limit + k],
{
}

} // verus!
