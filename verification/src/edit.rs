//! Editing one line of text at a caret. Positions count characters.

use crate::text::{ascii_digit, from_chars, to_chars};
use vstd::prelude::*;

verus! {

/// The most characters that a date field takes.
pub const DATE_LEN: usize = 10;

/// Control characters: Unicode's general category Cc.
pub open spec fn is_control(c: char) -> bool {
    c as u32 <= 0x1f || 0x7f <= c as u32 <= 0x9f
}

/// Whether a typed character goes into a field: no control characters, and into a date field
/// only digits and dashes.
pub open spec fn typeable(c: char, date: bool) -> bool {
    !is_control(c) && (date ==> crate::text::is_digit(c) || c == '-')
}

/// The characters that go into a field.
pub open spec fn goes_in(date: bool) -> spec_fn(char) -> bool {
    |c: char| typeable(c, date)
}

/// What a field of `len` characters takes of the typed text.
pub open spec fn taken(typed: Seq<char>, len: nat, date: bool) -> Seq<char> {
    let kept = typed.filter(goes_in(date));
    if !date {
        kept
    } else if len >= DATE_LEN {
        seq![]
    } else if kept.len() > DATE_LEN - len {
        kept.take(DATE_LEN - len)
    } else {
        kept
    }
}

/// Where a caret stands in a text of `len` characters.
pub open spec fn clamped(caret: int, len: int) -> int {
    if caret <= len {
        caret
    } else {
        len
    }
}

/// `s` with `part` put in at `at`.
pub open spec fn spliced(s: Seq<char>, at: int, part: Seq<char>) -> Seq<char> {
    s.take(at) + part + s.skip(at)
}

/// A date field holds at most ten characters, all of them digits and dashes.
pub open spec fn is_date_field(s: Seq<char>) -> bool {
    &&& s.len() <= DATE_LEN
    &&& forall|k: int| 0 <= k < s.len() ==> crate::text::is_digit(#[trigger] s[k]) || s[k] == '-'
}

proof fn lemma_filter_push(typed: Seq<char>, k: int, date: bool)
    requires
        0 <= k < typed.len(),
    ensures
        typed.take(k + 1).filter(goes_in(date)) == if typeable(typed[k], date) {
            typed.take(k).filter(goes_in(date)).push(typed[k])
        } else {
            typed.take(k).filter(goes_in(date))
        },
{
    reveal(Seq::filter);
    assert(typed.take(k + 1).drop_last() =~= typed.take(k));
    assert(typed.take(k + 1).last() == typed[k]);
}

proof fn lemma_filter_grows(typed: Seq<char>, k: int, date: bool)
    requires
        0 <= k <= typed.len(),
    ensures
        ({
            let part = typed.take(k).filter(goes_in(date));
            let all = typed.filter(goes_in(date));
            part.len() <= all.len() && all.take(part.len() as int) == part
        }),
    decreases typed.len() - k,
{
    let all = typed.filter(goes_in(date));
    let part = typed.take(k).filter(goes_in(date));
    if k < typed.len() {
        lemma_filter_grows(typed, k + 1, date);
        lemma_filter_push(typed, k, date);
        let next = typed.take(k + 1).filter(goes_in(date));
        assert(all.take(part.len() as int) =~= next.take(part.len() as int));
        assert(next.take(part.len() as int) =~= part);
    } else {
        assert(typed.take(k) =~= typed);
        assert(all.take(all.len() as int) =~= all);
    }
}

/// Puts the typed text into a field at the caret. Returns where the caret is then.
pub fn insert_into(s: &mut String, caret: usize, ch: &str, date: bool) -> (moved: usize)
    requires
        old(s)@.len() + ch@.len() <= usize::MAX,
    ensures
        final(s)@ == spliced(
            old(s)@,
            clamped(caret as int, old(s)@.len() as int),
            taken(ch@, old(s)@.len(), date),
        ),
        moved == clamped(caret as int, old(s)@.len() as int) + taken(
            ch@,
            old(s)@.len(),
            date,
        ).len(),
        date && is_date_field(old(s)@) ==> is_date_field(final(s)@),
{
    let field = to_chars(s.as_str());
    let typed = to_chars(ch);
    let ghost before = s@;
    let start: usize = if caret < field.len() {
        caret
    } else {
        field.len()
    };
    let mut room: usize = if !date {
        typed.len()
    } else if field.len() < DATE_LEN {
        DATE_LEN - field.len()
    } else {
        0
    };
    let mut out = from_chars(&field, 0, start);
    let mut count: usize = 0;
    let mut i: usize = 0;
    proof {
        reveal(Seq::filter);
        assert(typed@.take(0) =~= seq![]);
        assert(before.subrange(0, start as int) =~= before.take(start as int));
    }
    let ghost all = typed@.filter(goes_in(date));
    let ghost limit = room as int;
    assert(out@ =~= before.take(start as int) + all.take(0));
    while i < typed.len() && room > 0
        invariant
            typed@ == ch@,
            all == typed@.filter(goes_in(date)),
            i <= typed.len(),
            0 <= start <= before.len(),
            before.len() + typed@.len() <= usize::MAX,
            !date ==> limit == typed@.len(),
            room == limit - count,
            count == typed@.take(i as int).filter(goes_in(date)).len(),
            count <= i,
            count <= all.len(),
            out@ == before.take(start as int) + all.take(count as int),
        decreases typed.len() - i,
    {
        let c: char = typed[i];
        let code: u32 = c as u32;
        let control: bool = code <= 0x1f || (0x7f <= code && code <= 0x9f);
        proof {
            lemma_filter_push(typed@, i as int, date);
            lemma_filter_grows(typed@, i as int, date);
            lemma_filter_grows(typed@, i + 1, date);
        }
        if !control && (!date || ascii_digit(c) || c == '-') {
            out.push(c);
            proof {
                let next = typed@.take(i + 1).filter(goes_in(date));
                assert(next[count as int] == c);
                assert(all.take(count + 1)[count as int] == c);
                assert(out@ =~= before.take(start as int) + all.take(count + 1));
            }
            count = count + 1;
            room = room - 1;
        }
        i = i + 1;
    }
    proof {
        lemma_filter_grows(typed@, i as int, date);
        assert(typed@.take(typed@.len() as int) =~= typed@);
        assert(all.take(all.len() as int) =~= all);
        assert(taken(ch@, before.len(), date) =~= all.take(count as int));
    }
    let tail = from_chars(&field, start, field.len());
    assert(before.subrange(start as int, before.len() as int) =~= before.skip(start as int));
    out.append(tail.as_str());
    proof {
        if date && is_date_field(before) {
            let part = taken(ch@, before.len(), date);
            assert forall|k: int| 0 <= k < out@.len() implies crate::text::is_digit(
                #[trigger] out@[k],
            ) || out@[k] == '-' by {
                if k < start {
                    assert(out@[k] == before[k]);
                } else if k < start + part.len() {
                    assert(out@[k] == all[k - start]);
                    typed@.lemma_filter_pred(goes_in(date), k - start);
                } else {
                    assert(out@[k] == before[k - part.len()]);
                }
            }
        }
    }
    *s = out;
    start + count
}

/// Removes the character at `idx`. Returns whether there was one.
pub fn remove_at(s: &mut String, idx: usize) -> (removed: bool)
    ensures
        removed == (idx < old(s)@.len()),
        final(s)@ == if removed {
            old(s)@.remove(idx as int)
        } else {
            old(s)@
        },
        is_date_field(old(s)@) ==> is_date_field(final(s)@),
{
    let field = to_chars(s.as_str());
    if idx >= field.len() {
        return false;
    }
    let ghost before = s@;
    let mut out = from_chars(&field, 0, idx);
    let tail = from_chars(&field, idx + 1, field.len());
    out.append(tail.as_str());
    assert(out@ =~= before.remove(idx as int));
    proof {
        if is_date_field(before) {
            assert forall|k: int| 0 <= k < out@.len() implies crate::text::is_digit(
                #[trigger] out@[k],
            ) || out@[k] == '-' by {
                if k < idx {
                    assert(out@[k] == before[k]);
                } else {
                    assert(out@[k] == before[k + 1]);
                }
            }
        }
    }
    *s = out;
    true
}

/// The text of a field, with a bar where the caret stands.
pub open spec fn with_caret(text: Seq<char>, caret: int, active: bool) -> Seq<char> {
    if active {
        spliced(text, clamped(caret, text.len() as int), seq!['|'])
    } else {
        text
    }
}

/// The text of a field, with a bar at the caret while the field is active.
pub fn caret_str(text: &str, caret: usize, active: bool) -> (shown: String)
    ensures
        shown@ == with_caret(text@, caret as int, active),
{
    if !active {
        return text.to_owned();
    }
    let chars = to_chars(text);
    let at: usize = if caret < chars.len() {
        caret
    } else {
        chars.len()
    };
    let mut shown = from_chars(&chars, 0, at);
    shown.push('|');
    let tail = from_chars(&chars, at, chars.len());
    shown.append(tail.as_str());
    assert(shown@ =~= with_caret(text@, caret as int, active));
    shown
}

/// Backspace undoes a typed character: removing the character before the moved caret gives the
/// field back.
pub proof fn backspace_undoes_typing(s: Seq<char>, caret: int, c: char, date: bool)
    requires
        0 <= caret,
        typeable(c, date),
        date ==> s.len() < DATE_LEN,
    ensures
        ({
            let at = clamped(caret, s.len() as int);
            let part = taken(seq![c], s.len(), date);
            part == seq![c] && spliced(s, at, part).remove(at + part.len() - 1) == s
        }),
{
    reveal(Seq::filter);
    assert(seq![c].drop_last() =~= seq![]);
    let kept = seq![c].filter(goes_in(date));
    assert(kept =~= seq![c]);
    let at = clamped(caret, s.len() as int);
    assert(spliced(s, at, seq![c]).remove(at) =~= s);
}

/// The caret bar is all that the shown text adds: taking it out gives the field back.
pub proof fn caret_bar_is_all_that_is_added(text: Seq<char>, caret: int)
    requires
        0 <= caret,
    ensures
        with_caret(text, caret, true).remove(clamped(caret, text.len() as int)) == text,
        with_caret(text, caret, false) == text,
{
    assert(with_caret(text, caret, true).remove(clamped(caret, text.len() as int)) =~= text);
}

} // verus!
