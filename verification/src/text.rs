//! Text as sequences of characters: numbers, searching, shortening, case.

use vstd::prelude::*;

verus! {

/// `String::push` appends one character.
pub assume_specification[ String::push ](s: &mut String, c: char)
    ensures
        final(s)@ == old(s)@.push(c),
;

/// The lower-case form of a text, as the standard library's Unicode tables give it.
pub uninterp spec fn lowercase(text: Seq<char>) -> Seq<char>;

/// `str::to_lowercase` depends on nothing but the text. Which characters it maps is left to the
/// name.
pub assume_specification[ str::to_lowercase ](s: &str) -> (lower: String)
    ensures
        lower@ == lowercase(s@),
;

/// The upper-case form of a text, as the standard library's Unicode tables give it.
pub uninterp spec fn uppercase(text: Seq<char>) -> Seq<char>;

/// `str::to_uppercase` depends on nothing but the text. Which characters it maps is left to the
/// name.
pub assume_specification[ str::to_uppercase ](s: &str) -> (upper: String)
    ensures
        upper@ == uppercase(s@),
;

/// The characters with the Unicode property White_Space: tab to carriage return, the space, and
/// the other control characters, spaces and separators that the property lists.
pub open spec fn white_space(c: char) -> bool {
    let code = c as u32;
    ||| 0x09 <= code <= 0x0d
    ||| code == 0x20 || code == 0x85 || code == 0xa0 || code == 0x1680
    ||| 0x2000 <= code <= 0x200a
    ||| code == 0x2028 || code == 0x2029 || code == 0x202f || code == 0x205f || code == 0x3000
}

/// `char::is_whitespace` accepts exactly the characters with the Unicode property White_Space.
pub assume_specification[ char::is_whitespace ](c: char) -> (yes: bool)
    ensures
        yes == white_space(c),
;

/// The characters of a text.
pub fn to_chars(s: &str) -> (chars: Vec<char>)
    ensures
        chars@ == s@,
{
    let mut chars: Vec<char> = Vec::new();
    let all = s.chars();
    let ghost text = s@;
    for c in iter: all
        invariant
            iter.seq() == text,
            chars@ == text.take(iter.index()),
    {
        chars.push(c);
    }
    assert(text.take(text.len() as int) =~= text);
    chars
}

/// The text made of characters `from` (included) to `to` (excluded).
pub fn from_chars(chars: &Vec<char>, from: usize, to: usize) -> (s: String)
    requires
        from <= to <= chars.len(),
    ensures
        s@ == chars@.subrange(from as int, to as int),
{
    let mut s = String::new();
    let mut i: usize = from;
    while i < to
        invariant
            from <= i <= to <= chars.len(),
            s@ == chars@.subrange(from as int, i as int),
        decreases to - i,
    {
        s.push(chars[i]);
        assert(chars@.subrange(from as int, i + 1) =~= chars@.subrange(from as int, i as int).push(
            chars@[i as int],
        ));
        i = i + 1;
    }
    s
}

/// The digit that stands for `d`.
pub open spec fn digit(d: int) -> char {
    (48 + d) as char
}

/// A number in decimal notation.
pub open spec fn decimal(n: nat) -> Seq<char>
    decreases n,
{
    if n < 10 {
        seq![digit(n as int)]
    } else {
        decimal(n / 10).push(digit((n % 10) as int))
    }
}

/// A number in decimal notation, with a minus sign where it is negative.
pub open spec fn signed_decimal(n: int) -> Seq<char> {
    if n < 0 {
        seq!['-'] + decimal((-n) as nat)
    } else {
        decimal(n as nat)
    }
}

fn digit_char(d: u64) -> (c: char)
    requires
        d < 10,
    ensures
        c == digit(d as int),
{
    (48 + d as u8) as char
}

/// Appends a wide number in decimal notation.
pub fn push_wide(s: &mut String, n: u128)
    ensures
        final(s)@ == old(s)@ + decimal(n as nat),
    decreases n,
{
    let ghost before = s@;
    if n >= 10 {
        push_wide(s, n / 10);
    }
    s.push(digit_char((n % 10) as u64));
    assert(s@ =~= before + decimal(n as nat));
}

/// Appends a number in decimal notation.
pub fn push_decimal(s: &mut String, n: u64)
    ensures
        final(s)@ == old(s)@ + decimal(n as nat),
{
    push_wide(s, n as u128)
}

/// Appends a signed number in decimal notation.
pub fn push_signed(s: &mut String, n: i64)
    ensures
        final(s)@ == old(s)@ + signed_decimal(n as int),
{
    let ghost before = s@;
    if n >= 0 {
        push_decimal(s, n as u64);
    } else {
        s.push('-');
        let size: u64 = if n == i64::MIN {
            0x8000_0000_0000_0000
        } else {
            (-n) as u64
        };
        push_decimal(s, size);
        assert(s@ =~= before + signed_decimal(n as int));
    }
}

/// A number in decimal notation.
pub fn to_decimal(n: u64) -> (s: String)
    ensures
        s@ == decimal(n as nat),
{
    let mut s = String::new();
    push_decimal(&mut s, n);
    assert(s@ =~= decimal(n as nat));
    s
}

pub open spec fn is_digit(c: char) -> bool {
    '0' <= c <= '9'
}

/// Whether a character is an ASCII digit.
pub fn ascii_digit(c: char) -> (yes: bool)
    ensures
        yes == is_digit(c),
{
    '0' <= c && c <= '9'
}

/// Whether a text is made of digits alone, and of at least one.
pub open spec fn all_digits(s: Seq<char>) -> bool {
    s.len() > 0 && forall|k: int| 0 <= k < s.len() ==> is_digit(#[trigger] s[k])
}

/// The number that a text of digits stands for.
pub open spec fn digits_value(s: Seq<char>) -> nat
    decreases s.len(),
{
    if s.len() == 0 {
        0
    } else {
        (digits_value(s.drop_last()) * 10 + (s.last() as int - 48)) as nat
    }
}

/// Reading digits off a number and putting them together again gives the number.
pub proof fn decimal_round_trip(n: nat)
    ensures
        all_digits(decimal(n)),
        digits_value(decimal(n)) == n,
    decreases n,
{
    reveal_with_fuel(digits_value, 2);
    if n >= 10 {
        decimal_round_trip(n / 10);
        let s = decimal(n);
        assert(s.drop_last() =~= decimal(n / 10));
        assert forall|k: int| 0 <= k < s.len() implies is_digit(#[trigger] s[k]) by {
            if k < s.len() - 1 {
                assert(decimal(n / 10)[k] == s[k]);
            }
        }
    } else {
        assert(decimal(n).drop_last() =~= seq![]);
    }
}

/// An unsigned number: digits, with or without a plus sign before them, no larger than `max`.
pub open spec fn unsigned_text(s: Seq<char>, max: nat) -> Option<nat> {
    let digits = if s.len() > 0 && s[0] == '+' {
        s.drop_first()
    } else {
        s
    };
    if all_digits(digits) && digits_value(digits) <= max {
        Some(digits_value(digits))
    } else {
        None
    }
}

/// A signed 64-bit number: digits, with or without a sign before them.
pub open spec fn signed_text(s: Seq<char>) -> Option<int> {
    if s.len() > 0 && s[0] == '-' {
        let digits = s.drop_first();
        if all_digits(digits) && digits_value(digits) <= 0x8000_0000_0000_0000nat {
            Some(-(digits_value(digits) as int))
        } else {
            None
        }
    } else {
        match unsigned_text(s, i64::MAX as nat) {
            Some(n) => Some(n as int),
            None => None,
        }
    }
}

proof fn lemma_digits_grow(s: Seq<char>, k: int)
    requires
        0 <= k <= s.len(),
        all_digits(s),
    ensures
        digits_value(s.take(k)) <= digits_value(s),
    decreases s.len() - k,
{
    if k < s.len() {
        lemma_digits_grow(s, k + 1);
        assert(s.take(k + 1).drop_last() =~= s.take(k));
        assert(s.take(k + 1).last() == s[k]);
        assert(is_digit(s[k]));
    } else {
        assert(s.take(k) =~= s);
    }
}

/// The number that the characters `from` to `to` stand for, where they are digits and the number
/// is no larger than `max`.
fn read_digits(s: &Vec<char>, from: usize, to: usize, max: u64) -> (n: Option<u64>)
    requires
        from <= to <= s.len(),
    ensures
        ({
            let digits = s@.subrange(from as int, to as int);
            match n {
                Some(v) => all_digits(digits) && digits_value(digits) == v && v <= max,
                None => !(all_digits(digits) && digits_value(digits) <= max),
            }
        }),
{
    let ghost digits = s@.subrange(from as int, to as int);
    if from == to {
        return None;
    }
    let mut i: usize = from;
    let mut v: u64 = 0;
    while i < to
        invariant
            from <= i <= to <= s.len(),
            from < to,
            digits == s@.subrange(from as int, to as int),
            forall|k: int| 0 <= k < i - from ==> is_digit(#[trigger] digits[k]),
            v == digits_value(digits.take(i - from)),
            v <= max,
        decreases to - i,
    {
        let c: char = s[i];
        assert(digits[i - from] == c);
        if !ascii_digit(c) {
            return None;
        }
        let ghost k = i - from;
        proof {
            assert(digits.take(k + 1).drop_last() =~= digits.take(k));
            assert(digits.take(k + 1).last() == c);
            if all_digits(digits) {
                lemma_digits_grow(digits, k + 1);
            }
        }
        let d: u64 = c as u64 - 48;
        if v > (max - d.min(max)) / 10 || d > max {
            assert(v * 10 + d > max);
            return None;
        }
        v = v * 10 + d;
        i = i + 1;
    }
    assert(digits.take(to - from) =~= digits);
    Some(v)
}

/// Reads an unsigned number off the characters `from` to `to`.
pub fn read_unsigned(s: &Vec<char>, from: usize, to: usize) -> (n: Option<u64>)
    requires
        from <= to <= s.len(),
    ensures
        match n {
            Some(v) => unsigned_text(s@.subrange(from as int, to as int), u64::MAX as nat) == Some(
                v as nat,
            ),
            None => unsigned_text(s@.subrange(from as int, to as int), u64::MAX as nat) is None,
        },
{
    let ghost part = s@.subrange(from as int, to as int);
    if from < to && s[from] == '+' {
        assert(part.drop_first() =~= s@.subrange(from + 1, to as int));
        read_digits(s, from + 1, to, u64::MAX)
    } else {
        read_digits(s, from, to, u64::MAX)
    }
}

/// Reads a signed number off the characters `from` to `to`.
pub fn read_signed(s: &Vec<char>, from: usize, to: usize) -> (n: Option<i64>)
    requires
        from <= to <= s.len(),
    ensures
        match n {
            Some(v) => signed_text(s@.subrange(from as int, to as int)) == Some(v as int),
            None => signed_text(s@.subrange(from as int, to as int)) is None,
        },
{
    let ghost part = s@.subrange(from as int, to as int);
    if from < to && s[from] == '-' {
        assert(part.drop_first() =~= s@.subrange(from + 1, to as int));
        match read_digits(s, from + 1, to, 0x8000_0000_0000_0000) {
            Some(v) => {
                if v == 0x8000_0000_0000_0000 {
                    Some(i64::MIN)
                } else {
                    Some(-(v as i64))
                }
            },
            None => None,
        }
    } else {
        let plus: bool = from < to && s[from] == '+';
        let start: usize = if plus {
            from + 1
        } else {
            from
        };
        proof {
            if plus {
                assert(part.drop_first() =~= s@.subrange(from + 1, to as int));
            }
        }
        match read_digits(s, start, to, i64::MAX as u64) {
            Some(v) => Some(v as i64),
            None => None,
        }
    }
}

/// Whether `part` stands in `whole` at position `at`.
pub open spec fn stands_at(whole: Seq<char>, part: Seq<char>, at: int) -> bool {
    0 <= at && at + part.len() <= whole.len() && whole.subrange(at, at + part.len()) == part
}

/// Whether `part` occurs in `whole`.
pub open spec fn occurs(whole: Seq<char>, part: Seq<char>) -> bool {
    exists|at: int| stands_at(whole, part, at)
}

/// Whether `part` stands in `whole` at position `at`.
pub fn matches_at(whole: &Vec<char>, part: &Vec<char>, at: usize) -> (yes: bool)
    requires
        at <= whole.len(),
    ensures
        yes == stands_at(whole@, part@, at as int),
{
    if part.len() > whole.len() - at {
        return false;
    }
    let mut i: usize = 0;
    while i < part.len()
        invariant
            i <= part.len() <= whole.len() - at,
            forall|k: int| 0 <= k < i ==> whole@[at + k] == part@[k],
        decreases part.len() - i,
    {
        if whole[at + i] != part[i] {
            assert(whole@.subrange(at as int, at + part@.len())[i as int] == whole@[at + i]);
            return false;
        }
        i = i + 1;
    }
    assert(whole@.subrange(at as int, at + part@.len()) =~= part@);
    true
}

/// Whether `part` occurs in `whole`.
pub fn contains(whole: &Vec<char>, part: &Vec<char>) -> (yes: bool)
    ensures
        yes == occurs(whole@, part@),
{
    let mut at: usize = 0;
    loop
        invariant
            at <= whole.len(),
            forall|k: int| 0 <= k < at ==> !stands_at(whole@, part@, k),
        decreases whole.len() - at,
    {
        if matches_at(whole, part, at) {
            return true;
        }
        if at == whole.len() {
            assert forall|k: int| !stands_at(whole@, part@, k) by {}
            return false;
        }
        at = at + 1;
    }
}

/// The lower-case form of an ASCII letter; any other character is its own.
pub open spec fn ascii_lower(c: char) -> char {
    if 'A' <= c <= 'Z' {
        (c as int + 32) as char
    } else {
        c
    }
}

/// A text with its ASCII letters in lower case.
pub open spec fn ascii_lowercase(s: Seq<char>) -> Seq<char> {
    s.map_values(|c: char| ascii_lower(c))
}

/// Whether a text is `word`, regardless of the case of its ASCII letters. `word` is lower case.
pub fn is_word(s: &Vec<char>, word: &str) -> (yes: bool)
    ensures
        yes == (ascii_lowercase(s@) == word@),
{
    let letters = to_chars(word);
    if s.len() != letters.len() {
        return false;
    }
    let mut i: usize = 0;
    while i < s.len()
        invariant
            i <= s.len() == letters.len(),
            letters@ == word@,
            forall|k: int| 0 <= k < i ==> ascii_lower(s@[k]) == word@[k],
        decreases s.len() - i,
    {
        let c: char = s[i];
        let lower: char = if 'A' <= c && c <= 'Z' {
            (c as u8 + 32) as char
        } else {
            c
        };
        if lower != letters[i] {
            assert(ascii_lowercase(s@)[i as int] != word@[i as int]);
            return false;
        }
        i = i + 1;
    }
    assert(ascii_lowercase(s@) =~= word@);
    true
}

/// A text of more than `limit` characters is cut to `limit`, the last of which is an ellipsis.
pub open spec fn shortened(s: Seq<char>, limit: nat) -> Seq<char> {
    if s.len() > limit {
        s.take(limit - 1).push('\u{2026}')
    } else {
        s
    }
}

/// Cuts a text to `limit` characters, the last of which is then an ellipsis.
pub fn shorten(s: &str, limit: usize) -> (short: String)
    requires
        limit > 0,
    ensures
        short@ == shortened(s@, limit as nat),
        short@.len() <= limit,
{
    let chars = to_chars(s);
    if chars.len() > limit {
        let mut short = from_chars(&chars, 0, limit - 1);
        assert(chars@.subrange(0, limit - 1) =~= s@.take(limit - 1));
        short.push('\u{2026}');
        short
    } else {
        s.to_owned()
    }
}

/// A text of more than `limit` characters keeps its last ones, behind an ellipsis.
pub open spec fn shortened_left(s: Seq<char>, limit: nat) -> Seq<char> {
    if s.len() > limit {
        seq!['\u{2026}'] + s.skip(s.len() - (limit - 1))
    } else {
        s
    }
}

/// Cuts a text from the left to `limit` characters, the first of which is then an ellipsis.
pub fn shorten_left(s: &str, limit: usize) -> (short: String)
    requires
        limit > 0,
    ensures
        short@ == shortened_left(s@, limit as nat),
        short@.len() <= limit,
{
    let chars = to_chars(s);
    if chars.len() > limit {
        let from: usize = chars.len() - (limit - 1);
        let tail = from_chars(&chars, from, chars.len());
        let mut short = String::new();
        short.push('\u{2026}');
        short.append(tail.as_str());
        assert(short@ =~= shortened_left(s@, limit as nat));
        short
    } else {
        s.to_owned()
    }
}

/// Where a text starts and ends once the white space around it is dropped.
pub open spec fn is_trimmed(s: Seq<char>, from: int, to: int) -> bool {
    &&& 0 <= from <= to <= s.len()
    &&& forall|k: int| 0 <= k < from ==> white_space(#[trigger] s[k])
    &&& forall|k: int| to <= k < s.len() ==> white_space(#[trigger] s[k])
    &&& from < to ==> !white_space(s[from]) && !white_space(s[to - 1])
}

/// A text without the white space around it.
pub open spec fn trimmed(s: Seq<char>) -> Seq<char> {
    let (from, to) = choose|from: int, to: int| is_trimmed(s, from, to);
    s.subrange(from, to)
}

/// Every text can be trimmed.
pub proof fn every_text_trims(s: Seq<char>)
    ensures
        exists|from: int, to: int| is_trimmed(s, from, to),
    decreases s.len(),
{
    if s.len() == 0 {
        assert(is_trimmed(s, 0, 0));
    } else {
        let rest = s.drop_last();
        every_text_trims(rest);
        let (f, t) = choose|f: int, t: int| is_trimmed(rest, f, t);
        let n = s.len() as int;
        assert forall|k: int| 0 <= k < n - 1 implies #[trigger] s[k] == rest[k] by {}
        if white_space(s.last()) {
            assert(is_trimmed(s, f, t));
        } else if f < t {
            assert(is_trimmed(s, f, n));
        } else {
            assert forall|k: int| 0 <= k < n - 1 implies white_space(#[trigger] s[k]) by {
                if k < f {
                    assert(white_space(rest[k]));
                } else {
                    assert(white_space(rest[k]));
                }
            }
            assert(is_trimmed(s, n - 1, n));
        }
    }
}

/// What is left of a text does not depend on how its ends were found.
pub proof fn trimmed_is_unique(s: Seq<char>, from: int, to: int)
    requires
        is_trimmed(s, from, to),
    ensures
        s.subrange(from, to) == trimmed(s),
{
    let (f, t) = choose|f: int, t: int| is_trimmed(s, f, t);
    assert(is_trimmed(s, f, t));
    if from < to {
        if f == t {
            if from < f {
                assert(white_space(s[from]));
            } else {
                assert(white_space(s[from]));
            }
        }
        if f < from {
            assert(white_space(s[f]));
        }
        if from < f {
            assert(white_space(s[from]));
        }
        if t < to {
            assert(white_space(s[to - 1]));
        }
        if to < t {
            assert(white_space(s[t - 1]));
        }
    } else if f < t {
        if f < from {
            assert(white_space(s[f]));
        } else {
            assert(white_space(s[f]));
        }
    }
    assert(s.subrange(from, to) =~= s.subrange(f, t));
}

/// Where a text starts and ends without the white space around it.
pub fn trim_bounds(s: &Vec<char>) -> (ends: (usize, usize))
    ensures
        is_trimmed(s@, ends.0 as int, ends.1 as int),
        s@.subrange(ends.0 as int, ends.1 as int) == trimmed(s@),
{
    let mut from: usize = 0;
    while from < s.len() && s[from].is_whitespace()
        invariant
            from <= s.len(),
            forall|k: int| 0 <= k < from ==> white_space(#[trigger] s@[k]),
        decreases s.len() - from,
    {
        from = from + 1;
    }
    let mut to: usize = s.len();
    while to > from && s[to - 1].is_whitespace()
        invariant
            from <= to <= s.len(),
            forall|k: int| to <= k < s.len() ==> white_space(#[trigger] s@[k]),
        decreases to,
    {
        to = to - 1;
    }
    proof {
        trimmed_is_unique(s@, from as int, to as int);
    }
    (from, to)
}

} // verus!
