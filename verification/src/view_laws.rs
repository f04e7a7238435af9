//! What the wall shows: what passes the filters, in the chosen order.

use crate::components::{Filter, SortMode, UiAction};
use crate::dates::{FileTime, FileTimes};
use crate::library::{
    directed, is_view, kept, kept_is_ascending, name_ranks, name_words, passes, sort_times,
    view_shows_what_passes, Query,
};
use crate::media::{Kind, SourceView};
use crate::order::{is_rank_order, is_time_order, lex_le, rank_before, time_before};
use crate::paths::file_name_text;
use crate::state::{acted_fields, acted_flags, State};
use crate::text::{lowercase, occurs, stands_at};
use vstd::prelude::*;

verus! {

/// The name that a source is sorted by: its whole file name in lower case. Sample tiles, and paths
/// without a file name, have an empty one.
pub open spec fn sorting_name(s: SourceView) -> Seq<char> {
    if s is Placeholder || file_name_text(s->1) is None {
        Seq::<char>::empty()
    } else {
        lowercase(file_name_text(s->1)->0)
    }
}

/// Whether a name comes no later than another one: character by character up to the first that
/// differs, and a beginning before what it begins.
pub open spec fn reads_no_later(a: Seq<char>, b: Seq<char>) -> bool {
    exists|k: int|
        {
            &&& 0 <= k <= a.len()
            &&& k <= b.len()
            &&& #[trigger] a.take(k) == b.take(k)
            &&& k < a.len() ==> k < b.len() && (a[k] as u32) < (b[k] as u32)
        }
}

proof fn lemma_same_char(c: char, d: char)
    requires
        c as u32 == d as u32,
    ensures
        c == d,
{
}

proof fn lemma_lex_reads(a: Seq<char>, b: Seq<char>)
    requires
        lex_le(a.map_values(|c: char| c as u32), b.map_values(|c: char| c as u32)),
    ensures
        reads_no_later(a, b),
    decreases a.len(),
{
    let x = a.map_values(|c: char| c as u32);
    let y = b.map_values(|c: char| c as u32);
    assert(a.take(0) =~= b.take(0));
    if a.len() > 0 {
        assert(b.len() > 0);
        assert(x[0] == a[0] as u32 && y[0] == b[0] as u32);
        if x[0] == y[0] {
            lemma_same_char(a[0], b[0]);
            let p = a.drop_first();
            let q = b.drop_first();
            assert(x.drop_first() =~= p.map_values(|c: char| c as u32));
            assert(y.drop_first() =~= q.map_values(|c: char| c as u32));
            lemma_lex_reads(p, q);
            let k = choose|k: int|
                {
                    &&& 0 <= k <= p.len()
                    &&& k <= q.len()
                    &&& #[trigger] p.take(k) == q.take(k)
                    &&& k < p.len() ==> k < q.len() && (p[k] as u32) < (q[k] as u32)
                };
            assert forall|n: int| 0 <= n < k + 1 implies a[n] == b[n] by {
                if n > 0 {
                    assert(p.take(k)[n - 1] == q.take(k)[n - 1]);
                }
            }
            assert(a.take(k + 1) =~= b.take(k + 1));
        }
    }
}

proof fn lemma_lex_same(a: Seq<u32>)
    ensures
        lex_le(a, a),
    decreases a.len(),
{
    if a.len() > 0 {
        lemma_lex_same(a.drop_first());
    }
}

proof fn lemma_name_ranks(s: SourceView)
    ensures
        name_ranks(s) == sorting_name(s).map_values(|c: char| c as u32),
{
    assert(name_ranks(s) =~= sorting_name(s).map_values(|c: char| c as u32));
}

/// Two positions that the order by name puts behind each other.
proof fn lemma_name_pair(
    sources: Seq<SourceView>,
    kept: Seq<usize>,
    order: Seq<usize>,
    a: int,
    b: int,
)
    requires
        crate::pool::increasing(kept),
        is_rank_order(name_words(sources, kept), order),
        0 <= a < b < order.len(),
    ensures
        ({
            let i = kept[order[a] as int];
            let j = kept[order[b] as int];
            let x = sorting_name(sources[i as int]);
            let y = sorting_name(sources[j as int]);
            reads_no_later(x, y) && (x == y ==> i < j)
        }),
{
    let words = name_words(sources, kept);
    let p = order[a] as int;
    let q = order[b] as int;
    assert(rank_before(words, p, q));
    assert(0 <= p < kept.len() && 0 <= q < kept.len());
    let i = kept[p];
    let j = kept[q];
    lemma_name_ranks(sources[i as int]);
    lemma_name_ranks(sources[j as int]);
    lemma_lex_reads(sorting_name(sources[i as int]), sorting_name(sources[j as int]));
    if sorting_name(sources[i as int]) == sorting_name(sources[j as int]) {
        lemma_lex_same(words[p]);
        assert(p < q);
    }
}

/// Sorted by name, the whole lower-case file name of each shown item comes no later than that of
/// the items after it; equal names keep the order of the library. From Z to A it is the other way
/// round.
pub proof fn names_are_in_order(
    sources: Seq<SourceView>,
    times: Seq<FileTimes>,
    q: Query,
    shown: Seq<usize>,
    a: int,
    b: int,
)
    requires
        sources.len() <= usize::MAX,
        is_view(sources, times, q, shown),
        0 <= a < b < shown.len(),
    ensures
        ({
            let x = sorting_name(sources[shown[a] as int]);
            let y = sorting_name(sources[shown[b] as int]);
            &&& q.sort == SortMode::NameAsc ==> reads_no_later(x, y) && (x == y ==> shown[a]
                < shown[b])
            &&& q.sort == SortMode::NameDesc ==> reads_no_later(y, x) && (x == y ==> shown[a]
                > shown[b])
        }),
{
    let list = kept(sources, times, q, sources.len());
    kept_is_ascending(sources, times, q, sources.len());
    if q.sort is NameAsc {
        let order = choose|order: Seq<usize>| #[trigger]
            is_rank_order(name_words(sources, list), order) && shown == directed(
                list,
                order,
                false,
            );
        lemma_name_pair(sources, list, order, a, b);
        assert(shown[a] == list[order[a] as int]);
        assert(shown[b] == list[order[b] as int]);
    } else if q.sort is NameDesc {
        let order = choose|order: Seq<usize>| #[trigger]
            is_rank_order(name_words(sources, list), order) && shown == directed(list, order, true);
        let n = order.len();
        lemma_name_pair(sources, list, order, n - 1 - b, n - 1 - a);
        assert(shown[a] == list[order.reverse()[a] as int]);
        assert(shown[b] == list[order.reverse()[b] as int]);
    }
}

/// The date that a source goes by: when it was made, where that is asked for and known, and else
/// when it was changed. Sample tiles have none.
pub open spec fn date_of(s: SourceView, times: FileTimes, created: bool) -> Option<FileTime> {
    if s is Placeholder {
        None
    } else if created {
        match times.created {
            Some(t) => Some(t),
            None => times.modified,
        }
    } else {
        times.modified
    }
}

/// Whether a date is no later than another one. What has no date comes before what has one.
pub open spec fn dated_no_later(x: Option<FileTime>, y: Option<FileTime>) -> bool {
    x matches Some(t) ==> (y matches Some(u) && (t.secs < u.secs || (t.secs == u.secs && t.nanos
        <= u.nanos)))
}

proof fn lemma_time_pair(
    sources: Seq<SourceView>,
    times: Seq<FileTimes>,
    kept: Seq<usize>,
    created: bool,
    order: Seq<usize>,
    a: int,
    b: int,
)
    requires
        crate::pool::increasing(kept),
        is_time_order(sort_times(sources, times, kept, created), order),
        0 <= a < b < order.len(),
    ensures
        ({
            let i = kept[order[a] as int];
            let j = kept[order[b] as int];
            let x = date_of(sources[i as int], times[i as int], created);
            let y = date_of(sources[j as int], times[j as int], created);
            dated_no_later(x, y) && (x == y ==> i < j)
        }),
{
    let all = sort_times(sources, times, kept, created);
    let p = order[a] as int;
    let q = order[b] as int;
    assert(time_before(all, p, q));
    assert(0 <= p < kept.len() && 0 <= q < kept.len());
}

/// Sorted by date, the oldest or the newest comes first, to the nanosecond, and equal dates keep
/// the order of the library or reverse it. Sorted by the date of creation, a file without one goes
/// by the date of its last change; what has no date counts as the oldest.
pub proof fn dates_are_in_order(
    sources: Seq<SourceView>,
    times: Seq<FileTimes>,
    q: Query,
    shown: Seq<usize>,
    a: int,
    b: int,
)
    requires
        sources.len() <= usize::MAX,
        is_view(sources, times, q, shown),
        0 <= a < b < shown.len(),
    ensures
        ({
            let (i, j) = (shown[a] as int, shown[b] as int);
            let (changed_a, changed_b) = (
                date_of(sources[i], times[i], false),
                date_of(sources[j], times[j], false),
            );
            let (made_a, made_b) = (
                date_of(sources[i], times[i], true),
                date_of(sources[j], times[j], true),
            );
            &&& q.sort == SortMode::ModifiedOld ==> dated_no_later(changed_a, changed_b) && (
            changed_a == changed_b ==> i < j)
            &&& q.sort == SortMode::ModifiedNew ==> dated_no_later(changed_b, changed_a) && (
            changed_a == changed_b ==> i > j)
            &&& q.sort == SortMode::CreatedOld ==> dated_no_later(made_a, made_b) && (made_a
                == made_b ==> i < j)
            &&& q.sort == SortMode::CreatedNew ==> dated_no_later(made_b, made_a) && (made_a
                == made_b ==> i > j)
        }),
{
    let list = kept(sources, times, q, sources.len());
    kept_is_ascending(sources, times, q, sources.len());
    let created = q.sort is CreatedNew || q.sort is CreatedOld;
    if q.sort is ModifiedOld || q.sort is CreatedOld {
        let order = choose|order: Seq<usize>| #[trigger]
            is_time_order(sort_times(sources, times, list, created), order) && shown == directed(
                list,
                order,
                false,
            );
        lemma_time_pair(sources, times, list, created, order, a, b);
        assert(shown[a] == list[order[a] as int]);
        assert(shown[b] == list[order[b] as int]);
    } else if q.sort is ModifiedNew || q.sort is CreatedNew {
        let order = choose|order: Seq<usize>| #[trigger]
            is_time_order(sort_times(sources, times, list, created), order) && shown == directed(
                list,
                order,
                true,
            );
        let n = order.len();
        lemma_time_pair(sources, times, list, created, order, n - 1 - b, n - 1 - a);
        assert(shown[a] == list[order.reverse()[a] as int]);
        assert(shown[b] == list[order.reverse()[b] as int]);
    }
}

/// Unsorted, the wall keeps the order of the library.
pub proof fn unsorted_keeps_the_library_order(
    sources: Seq<SourceView>,
    times: Seq<FileTimes>,
    q: Query,
    shown: Seq<usize>,
    a: int,
    b: int,
)
    requires
        sources.len() <= usize::MAX,
        is_view(sources, times, q, shown),
        q.sort == SortMode::Default,
        0 <= a < b < shown.len(),
    ensures
        shown[a] < shown[b],
{
    kept_is_ascending(sources, times, q, sources.len());
}

/// Whether a source is of the type that is asked for. Sample tiles are of every type.
pub open spec fn of_type(s: SourceView, f: Filter) -> bool {
    match f {
        Filter::All => true,
        Filter::Photos => !(s matches SourceView::Media(k, _) && k != Kind::Image),
        Filter::Videos => !(s matches SourceView::Media(k, _) && k != Kind::Video),
        Filter::Audio => !(s matches SourceView::Media(k, _) && k != Kind::Audio),
    }
}

/// Whether the characters of `part` stand one after the other somewhere in `whole`.
pub open spec fn holds_text(whole: Seq<char>, part: Seq<char>) -> bool {
    exists|at: int|
        {
            &&& 0 <= at <= whole.len() - part.len()
            &&& #[trigger] whole.skip(at).take(part.len() as int) == part
        }
}

/// Whether a source's file name holds the searched text, in lower case. What has no file name
/// passes.
pub open spec fn of_name(s: SourceView, search: Seq<char>) -> bool {
    (s matches SourceView::Media(_, path) && file_name_text(path) is Some) ==> holds_text(
        lowercase(file_name_text(s->1)->0),
        lowercase(search),
    )
}

/// Whether a source's date lies between two days, both included: no earlier than midnight before
/// the first, and earlier than midnight after the last. Sample tiles pass; without bounds
/// everything does.
pub open spec fn of_days(
    s: SourceView,
    times: FileTimes,
    created: bool,
    from: Option<i64>,
    to: Option<i64>,
) -> bool {
    s is Placeholder || (from is None && to is None) || (date_of(s, times, created) matches Some(t)
        && t.secs >= 0 && (from matches Some(f) ==> f * 86_400 <= t.secs) && (to matches Some(l)
        ==> t.secs < (l + 1) * 86_400))
}

proof fn lemma_holds(whole: Seq<char>, part: Seq<char>)
    ensures
        occurs(whole, part) <==> holds_text(whole, part),
{
    if occurs(whole, part) {
        let at = choose|at: int| stands_at(whole, part, at);
        assert(whole.skip(at).take(part.len() as int) =~= whole.subrange(at, at + part.len()));
    }
    if holds_text(whole, part) {
        let at = choose|at: int|
            {
                &&& 0 <= at <= whole.len() - part.len()
                &&& #[trigger] whole.skip(at).take(part.len() as int) == part
            };
        assert(whole.skip(at).take(part.len() as int) =~= whole.subrange(at, at + part.len()));
        assert(stands_at(whole, part, at));
    }
}

proof fn lemma_passes(s: SourceView, times: FileTimes, q: Query)
    ensures
        passes(s, times, q) <==> of_type(s, q.kind) && of_name(s, q.search@) && of_days(
            s,
            times,
            q.created,
            q.from,
            q.to,
        ),
{
    if let SourceView::Media(_, path) = s {
        if let Some(name) = file_name_text(path) {
            lemma_holds(lowercase(name), lowercase(q.search@));
            if lowercase(q.search@).len() == 0 {
                assert(lowercase(name).skip(0).take(0) =~= lowercase(q.search@));
            }
        }
    }
}

/// The wall shows, each once, exactly the sources of the chosen type whose file name holds the
/// searched text and whose date lies between the chosen days.
pub proof fn the_wall_shows_what_is_asked_for(
    sources: Seq<SourceView>,
    times: Seq<FileTimes>,
    q: Query,
    shown: Seq<usize>,
)
    requires
        sources.len() <= usize::MAX,
        is_view(sources, times, q, shown),
    ensures
        shown.no_duplicates(),
        forall|i: usize| #[trigger]
            shown.contains(i) <==> i < sources.len() && of_type(sources[i as int], q.kind)
                && of_name(sources[i as int], q.search@) && of_days(
                sources[i as int],
                times[i as int],
                q.created,
                q.from,
                q.to,
            ),
{
    view_shows_what_passes(sources, times, q, shown);
    assert forall|i: usize| #[trigger]
        shown.contains(i) <==> i < sources.len() && of_type(sources[i as int], q.kind) && of_name(
            sources[i as int],
            q.search@,
        ) && of_days(sources[i as int], times[i as int], q.created, q.from, q.to) by {
        lemma_passes(sources[i as int], times[i as int], q);
    }
}

/// A chosen type is what the wall then shows: after it is chosen the query asks for it, every item
/// of the view is of that type, and no item of it that passes the other filters is missing.
pub proof fn a_chosen_type_is_shown(
    s: State,
    t: State,
    f: Filter,
    now: u64,
    caret: usize,
    q: Query,
    sources: Seq<SourceView>,
    times: Seq<FileTimes>,
    shown: Seq<usize>,
)
    requires
        sources.len() <= usize::MAX,
        t.flags == acted_flags(s.flags, UiAction::SetFilter(f), now),
        t.fields@ == acted_fields(s.fields@, UiAction::SetFilter(f), caret),
        t.is_query(q),
        is_view(sources, times, q, shown),
    ensures
        q.kind == f,
        q.search@ == s.fields@.search,
        q.sort == s.flags.sort_mode,
        q.created == s.flags.date_created,
        forall|k: int| 0 <= k < shown.len() ==> of_type(sources[#[trigger] shown[k] as int], f),
        forall|i: usize| #[trigger]
            shown.contains(i) <==> i < sources.len() && of_type(sources[i as int], f) && of_name(
                sources[i as int],
                s.fields@.search,
            ) && of_days(sources[i as int], times[i as int], q.created, q.from, q.to),
{
    the_wall_shows_what_is_asked_for(sources, times, q, shown);
    assert forall|k: int| 0 <= k < shown.len() implies of_type(
        sources[#[trigger] shown[k] as int],
        f,
    ) by {
        assert(shown.contains(shown[k]));
    }
}

/// A chosen order is the one that the query then asks for, and nothing else of the query changes.
pub proof fn a_chosen_order_is_asked_for(
    s: State,
    t: State,
    m: SortMode,
    now: u64,
    caret: usize,
    q: Query,
)
    requires
        t.flags == acted_flags(s.flags, UiAction::SetSort(m), now),
        t.fields@ == acted_fields(s.fields@, UiAction::SetSort(m), caret),
        t.is_query(q),
    ensures
        q.sort == m,
        q.kind == s.flags.filter_kind,
        q.search@ == s.fields@.search,
        q.created == s.flags.date_created,
        s.is_query(Query { sort: s.flags.sort_mode, ..q }),
{
}

/// The date that the filter goes by is the chosen one.
pub proof fn a_chosen_date_is_asked_for(
    s: State,
    t: State,
    created: bool,
    now: u64,
    caret: usize,
    q: Query,
)
    requires
        t.flags == acted_flags(s.flags, UiAction::SetDateBy(created), now),
        t.fields@ == acted_fields(s.fields@, UiAction::SetDateBy(created), caret),
        t.is_query(q),
    ensures
        q.created == created,
        t.flags.view_dirty,
        s.is_query(Query { created: s.flags.date_created, ..q }),
{
}

/// Clearing the search leaves none: every name passes then.
pub proof fn a_cleared_search_asks_for_every_name(
    s: State,
    t: State,
    now: u64,
    caret: usize,
    q: Query,
)
    requires
        t.flags == acted_flags(s.flags, UiAction::ClearSearch, now),
        t.fields@ == acted_fields(s.fields@, UiAction::ClearSearch, caret),
        t.is_query(q),
    ensures
        q.search@.len() == 0,
        t.flags.view_dirty,
        q.kind == s.flags.filter_kind,
        q.sort == s.flags.sort_mode,
        q.created == s.flags.date_created,
{
}

/// Clearing the dates leaves no bounds: every date passes then.
pub proof fn cleared_dates_ask_for_every_day(
    s: State,
    t: State,
    now: u64,
    caret: usize,
    q: Query,
)
    requires
        t.flags == acted_flags(s.flags, UiAction::ClearDates, now),
        t.fields@ == acted_fields(s.fields@, UiAction::ClearDates, caret),
        t.is_query(q),
    ensures
        q.from is None,
        q.to is None,
        t.flags.view_dirty,
        t.fields@.date_from.len() == 0,
        t.fields@.date_to.len() == 0,
        t.fields@.date_active == 0,
        q.search@ == s.fields@.search,
        q.kind == s.flags.filter_kind,
        q.sort == s.flags.sort_mode,
{
    crate::text_laws::blank_text_is_no_date(t.fields@.date_from);
    crate::text_laws::blank_text_is_no_date(t.fields@.date_to);
}

} // verus!
