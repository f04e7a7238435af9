//! The displayed part of a library: filtered by kind, name and date, and sorted.

use crate::components::{Filter, SortMode};
use crate::dates::{chosen_time, day_of_file, file_days, file_time, FileTime, FileTimes};
use crate::media::{sources_view, Kind, Source, SourceView};
use crate::order::{
    holds_range, is_rank_order, is_time_order, rank_order, ranks_view, reversed, time_order,
    times_view, DateKey, RankKey,
};
use crate::paths::{file_name, file_name_text, path_bytes};
use crate::text::{contains, lowercase, occurs, to_chars};
use crate::view_laws::{
    names_are_in_order, of_type, reads_no_later, sorting_name, the_wall_shows_what_is_asked_for,
};
use std::path::PathBuf;
use vstd::prelude::*;

verus! {

/// What the wall is asked to show.
pub struct Query {
    pub kind: Filter,
    pub search: String,
    /// The first day that passes.
    pub from: Option<i64>,
    /// The last day that passes.
    pub to: Option<i64>,
    /// Go by the created date, or else by the modified date.
    pub created: bool,
    pub sort: SortMode,
}

/// Whether the type filter lets a source through. Sample tiles always pass.
pub open spec fn kind_passes(s: SourceView, kind: Filter) -> bool {
    match s {
        SourceView::Placeholder(_) => true,
        SourceView::Media(k, _) => kind is All || match k {
            Kind::Image => kind is Photos,
            Kind::Video => kind is Videos,
            Kind::Audio => kind is Audio,
        },
    }
}

/// The lower-case file name of a source.
pub open spec fn lower_name(s: SourceView) -> Option<Seq<char>> {
    match s {
        SourceView::Placeholder(_) => None,
        SourceView::Media(_, bytes) => match file_name_text(bytes) {
            Some(name) => Some(lowercase(name)),
            None => None,
        },
    }
}

/// Whether a source's name holds the query, whatever the case. What has no name passes.
pub open spec fn name_passes(s: SourceView, search: Seq<char>) -> bool {
    lowercase(search).len() == 0 || match lower_name(s) {
        Some(name) => occurs(name, lowercase(search)),
        None => true,
    }
}

/// Whether a source's day lies between the bounds. Without bounds everything passes; with one, a
/// file without a day does not. Sample tiles always pass.
pub open spec fn date_passes(
    s: SourceView,
    times: FileTimes,
    created: bool,
    from: Option<i64>,
    to: Option<i64>,
) -> bool {
    if from is None && to is None {
        true
    } else {
        match s {
            SourceView::Placeholder(_) => true,
            SourceView::Media(_, _) => match day_of_file(times, created) {
                Some(day) => (from matches Some(f) ==> f <= day) && (to matches Some(t) ==> day
                    <= t),
                None => false,
            },
        }
    }
}

pub open spec fn passes(s: SourceView, times: FileTimes, q: Query) -> bool {
    &&& kind_passes(s, q.kind)
    &&& name_passes(s, q.search@)
    &&& date_passes(s, times, q.created, q.from, q.to)
}

/// The positions of the first `n` sources that pass, in library order.
pub open spec fn kept(
    sources: Seq<SourceView>,
    times: Seq<FileTimes>,
    q: Query,
    n: nat,
) -> Seq<usize>
    decreases n,
{
    if n == 0 {
        seq![]
    } else {
        let rest = kept(sources, times, q, (n - 1) as nat);
        if passes(sources[n - 1], times[n - 1], q) {
            rest.push((n - 1) as usize)
        } else {
            rest
        }
    }
}

/// The word by which a source is sorted by name.
pub open spec fn name_ranks(s: SourceView) -> Seq<u32> {
    match lower_name(s) {
        Some(name) => name.map_values(|c: char| c as u32),
        None => seq![],
    }
}

/// The words of the kept sources.
pub open spec fn name_words(sources: Seq<SourceView>, kept: Seq<usize>) -> Seq<Seq<u32>> {
    kept.map_values(|i: usize| name_ranks(sources[i as int]))
}

/// The time by which a source is sorted by date.
pub open spec fn sort_time(s: SourceView, times: FileTimes, created: bool) -> Option<FileTime> {
    match s {
        SourceView::Placeholder(_) => None,
        SourceView::Media(_, _) => chosen_time(times, created),
    }
}

/// The times of the kept sources.
pub open spec fn sort_times(
    sources: Seq<SourceView>,
    times: Seq<FileTimes>,
    kept: Seq<usize>,
    created: bool,
) -> Seq<Option<FileTime>> {
    kept.map_values(|i: usize| sort_time(sources[i as int], times[i as int], created))
}

/// The kept positions in a given order.
pub open spec fn arranged(kept: Seq<usize>, order: Seq<usize>) -> Seq<usize> {
    order.map_values(|i: usize| kept[i as int])
}

/// The kept positions, forwards or backwards.
pub open spec fn directed(kept: Seq<usize>, order: Seq<usize>, backwards: bool) -> Seq<usize> {
    arranged(
        kept,
        if backwards {
            order.reverse()
        } else {
            order
        },
    )
}

/// The sort orders that go by the created date.
pub open spec fn by_created(sort: SortMode) -> bool {
    sort is CreatedNew || sort is CreatedOld
}

/// The sort orders that are the reverse of the ascending one.
pub open spec fn descending(sort: SortMode) -> bool {
    sort is NameDesc || sort is ModifiedNew || sort is CreatedNew
}

/// `shown` is the kept sources in the sort order: as loaded, by name, or by date.
pub open spec fn is_sorted_view(
    sources: Seq<SourceView>,
    times: Seq<FileTimes>,
    kept: Seq<usize>,
    sort: SortMode,
    shown: Seq<usize>,
) -> bool {
    match sort {
        SortMode::Default => shown == kept,
        SortMode::NameAsc | SortMode::NameDesc => exists|order: Seq<usize>| #[trigger]
            is_rank_order(name_words(sources, kept), order) && shown == directed(
                kept,
                order,
                descending(sort),
            ),
        _ => exists|order: Seq<usize>| #[trigger]
            is_time_order(sort_times(sources, times, kept, by_created(sort)), order) && shown
                == directed(kept, order, descending(sort)),
    }
}

/// `shown` is what a query shows of a library.
pub open spec fn is_view(
    sources: Seq<SourceView>,
    times: Seq<FileTimes>,
    q: Query,
    shown: Seq<usize>,
) -> bool {
    is_sorted_view(sources, times, kept(sources, times, q, sources.len()), q.sort, shown)
}

/// The path of a source.
pub fn path_of(s: &Source) -> (p: Option<&PathBuf>)
    ensures
        match p {
            Some(p) => s@ matches SourceView::Media(_, bytes) && bytes == path_bytes(*p),
            None => s@ is Placeholder,
        },
{
    match s {
        Source::File(p) => Some(p),
        Source::Video(p) => Some(p),
        Source::Audio(p) => Some(p),
        Source::Placeholder(_) => None,
    }
}

fn name_of(s: &Source) -> (name: Option<Vec<char>>)
    ensures
        match name {
            Some(chars) => lower_name(s@) == Some(chars@),
            None => lower_name(s@) is None,
        },
{
    match path_of(s) {
        Some(p) => match file_name(p) {
            Some(name) => Some(to_chars(name.as_str().to_lowercase().as_str())),
            None => None,
        },
        None => None,
    }
}

fn kind_ok(s: &Source, kind: Filter) -> (ok: bool)
    ensures
        ok == kind_passes(s@, kind),
{
    match s {
        Source::Placeholder(_) => true,
        Source::File(_) => kind == Filter::All || kind == Filter::Photos,
        Source::Video(_) => kind == Filter::All || kind == Filter::Videos,
        Source::Audio(_) => kind == Filter::All || kind == Filter::Audio,
    }
}

fn date_ok(s: &Source, times: FileTimes, q: &Query) -> (ok: bool)
    ensures
        ok == date_passes(s@, times, q.created, q.from, q.to),
{
    if q.from.is_none() && q.to.is_none() {
        return true;
    }
    if path_of(s).is_none() {
        return true;
    }
    match file_days(times, q.created) {
        Some(day) => {
            let late: bool = match q.from {
                Some(f) => f <= day,
                None => true,
            };
            let early: bool = match q.to {
                Some(t) => day <= t,
                None => true,
            };
            late && early
        },
        None => false,
    }
}

/// The positions of the sources that pass the filters, in library order.
pub fn filter_sources(sources: &Vec<Source>, times: &Vec<FileTimes>, q: &Query) -> (out: Vec<
    usize,
>)
    requires
        sources.len() == times.len(),
    ensures
        out@ == kept(sources_view(sources@), times@, *q, sources@.len()),
{
    let needle = to_chars(q.search.as_str().to_lowercase().as_str());
    let ghost all = sources_view(sources@);
    let mut out: Vec<usize> = Vec::new();
    let mut i: usize = 0;
    while i < sources.len()
        invariant
            i <= sources.len() == times.len(),
            all == sources_view(sources@),
            needle@ == lowercase(q.search@),
            out@ == kept(all, times@, *q, i as nat),
        decreases sources.len() - i,
    {
        let s: &Source = &sources[i];
        assert(all[i as int] == s@);
        let named: bool = needle.len() == 0 || match name_of(s) {
            Some(name) => contains(&name, &needle),
            None => true,
        };
        if kind_ok(s, q.kind) && named && date_ok(s, times[i], q) {
            out.push(i);
        }
        i = i + 1;
    }
    out
}

fn arrange(kept: &Vec<usize>, order: &Vec<usize>) -> (out: Vec<usize>)
    requires
        forall|k: int| 0 <= k < order.len() ==> #[trigger] order[k] < kept.len(),
    ensures
        out@ == arranged(kept@, order@),
{
    let mut out: Vec<usize> = Vec::new();
    let mut i: usize = 0;
    while i < order.len()
        invariant
            i <= order.len(),
            forall|k: int| 0 <= k < order.len() ==> #[trigger] order[k] < kept.len(),
            out@ == arranged(kept@, order@).take(i as int),
        decreases order.len() - i,
    {
        let at: usize = order[i];
        out.push(kept[at]);
        i = i + 1;
        assert(out@ =~= arranged(kept@, order@).take(i as int));
    }
    assert(out@ =~= arranged(kept@, order@));
    out
}

fn direct(kept: &Vec<usize>, order: &Vec<usize>, backwards: bool) -> (out: Vec<usize>)
    requires
        holds_range(order@, 0, kept.len() as int),
    ensures
        out@ == directed(kept@, order@, backwards),
{
    if backwards {
        let back = reversed(order);
        assert forall|k: int| 0 <= k < back.len() implies #[trigger] back[k] < kept.len() by {
            assert(back@[k] == order@[order@.len() - 1 - k]);
        }
        arrange(kept, &back)
    } else {
        assert forall|k: int| 0 <= k < order.len() implies #[trigger] order[k] < kept.len() by {
            assert(order@[k] < kept.len());
        }
        arrange(kept, order)
    }
}

/// Sorts the kept sources. Each name and date is read once.
pub fn sort_sources(
    sources: &Vec<Source>,
    times: &Vec<FileTimes>,
    kept: Vec<usize>,
    sort: SortMode,
) -> (shown: Vec<usize>)
    requires
        sources.len() == times.len(),
        forall|k: int| 0 <= k < kept.len() ==> #[trigger] kept[k] < sources.len(),
    ensures
        is_sorted_view(sources_view(sources@), times@, kept@, sort, shown@),
{
    let ghost all = sources_view(sources@);
    let backwards: bool = sort == SortMode::NameDesc || sort == SortMode::ModifiedNew || sort
        == SortMode::CreatedNew;
    match sort {
        SortMode::Default => kept,
        SortMode::NameAsc | SortMode::NameDesc => {
            let mut keys: Vec<RankKey> = Vec::new();
            let ghost words = name_words(all, kept@);
            let mut i: usize = 0;
            while i < kept.len()
                invariant
                    i <= kept.len(),
                    all == sources_view(sources@),
                    words == name_words(all, kept@),
                    forall|k: int| 0 <= k < kept.len() ==> #[trigger] kept[k] < sources.len(),
                    ranks_view(keys@) == words.take(i as int),
                decreases kept.len() - i,
            {
                let ghost before = ranks_view(keys@);
                let at: usize = kept[i];
                assert(kept@[i as int] < sources.len());
                let mut ranks: Vec<u32> = Vec::new();
                match name_of(&sources[at]) {
                    Some(name) => {
                        let ghost word = name@.map_values(|c: char| c as u32);
                        let mut k: usize = 0;
                        while k < name.len()
                            invariant
                                k <= name.len(),
                                word == name@.map_values(|c: char| c as u32),
                                ranks@ == word.take(k as int),
                            decreases name.len() - k,
                        {
                            ranks.push(name[k] as u32);
                            k = k + 1;
                            assert(ranks@ =~= word.take(k as int));
                        }
                        assert(ranks@ =~= word);
                    },
                    None => {},
                }
                assert(all[at as int] == sources@[at as int]@);
                assert(ranks@ =~= name_ranks(all[at as int]));
                let key = RankKey { ranks };
                keys.push(key);
                i = i + 1;
                assert(ranks_view(keys@) =~= before.push(key.ranks@));
                assert(ranks_view(keys@) =~= words.take(i as int));
            }
            assert(words.take(words.len() as int) =~= words);
            let order = rank_order(&keys);
            let shown = direct(&kept, &order, backwards);
            assert(is_rank_order(name_words(all, kept@), order@));
            assert(is_sorted_view(all, times@, kept@, sort, shown@));
            shown
        },
        _ => {
            let created: bool = sort == SortMode::CreatedNew || sort == SortMode::CreatedOld;
            let mut keys: Vec<DateKey> = Vec::new();
            let ghost stamps = sort_times(all, times@, kept@, created);
            let mut i: usize = 0;
            while i < kept.len()
                invariant
                    i <= kept.len(),
                    sources.len() == times.len(),
                    all == sources_view(sources@),
                    stamps == sort_times(all, times@, kept@, created),
                    forall|k: int| 0 <= k < kept.len() ==> #[trigger] kept[k] < sources.len(),
                    times_view(keys@) == stamps.take(i as int),
                decreases kept.len() - i,
            {
                let ghost before = times_view(keys@);
                let at: usize = kept[i];
                assert(kept@[i as int] < sources.len());
                assert(all[at as int] == sources@[at as int]@);
                let time: Option<FileTime> = match path_of(&sources[at]) {
                    Some(_) => file_time(times[at], created),
                    None => None,
                };
                keys.push(DateKey { time });
                i = i + 1;
                assert(times_view(keys@) =~= before.push(time));
                assert(times_view(keys@) =~= stamps.take(i as int));
            }
            assert(stamps.take(stamps.len() as int) =~= stamps);
            let order = time_order(&keys);
            let shown = direct(&kept, &order, backwards);
            assert(is_time_order(sort_times(all, times@, kept@, by_created(sort)), order@));
            assert(is_sorted_view(all, times@, kept@, sort, shown@));
            shown
        },
    }
}

/// What passes is kept in the order of the library, and is no more than the library.
pub proof fn kept_is_ascending(
    sources: Seq<SourceView>,
    times: Seq<FileTimes>,
    q: Query,
    n: nat,
)
    requires
        n <= sources.len(),
        sources.len() <= usize::MAX,
    ensures
        ({
            let out = kept(sources, times, q, n);
            &&& crate::pool::increasing(out)
            &&& out.len() <= n
            &&& forall|k: int|
                0 <= k < out.len() ==> #[trigger] out[k] < n && passes(
                    sources[out[k] as int],
                    times[out[k] as int],
                    q,
                )
        }),
    decreases n,
{
    if n > 0 {
        kept_is_ascending(sources, times, q, (n - 1) as nat);
    }
}

/// What a query shows of a library: the sources that pass its filters, sorted.
pub fn view_of(sources: &Vec<Source>, times: &Vec<FileTimes>, q: &Query) -> (shown: Vec<usize>)
    requires
        sources.len() == times.len(),
    ensures
        is_view(sources_view(sources@), times@, *q, shown@),
        forall|k: int|
            0 <= k < shown@.len() ==> of_type(
                sources_view(sources@)[#[trigger] shown@[k] as int],
                q.kind,
            ),
        q.sort == SortMode::NameAsc ==> forall|a: int, b: int|
            0 <= a < b < shown@.len() ==> reads_no_later(
                sorting_name(sources_view(sources@)[#[trigger] shown@[a] as int]),
                sorting_name(sources_view(sources@)[#[trigger] shown@[b] as int]),
            ),
{
    let ghost all = sources_view(sources@);
    let out = filter_sources(sources, times, q);
    proof {
        kept_is_ascending(all, times@, *q, sources@.len());
    }
    let shown = sort_sources(sources, times, out, q.sort);
    proof {
        the_wall_shows_what_is_asked_for(all, times@, *q, shown@);
        assert forall|k: int| 0 <= k < shown@.len() implies of_type(
            all[#[trigger] shown@[k] as int],
            q.kind,
        ) by {
            assert(shown@.contains(shown@[k]));
        }
        if q.sort == SortMode::NameAsc {
            assert forall|a: int, b: int| 0 <= a < b < shown@.len() implies reads_no_later(
                sorting_name(all[#[trigger] shown@[a] as int]),
                sorting_name(all[#[trigger] shown@[b] as int]),
            ) by {
                names_are_in_order(all, times@, *q, shown@, a, b);
            }
        }
    }
    shown
}

proof fn lemma_kept_complete(
    sources: Seq<SourceView>,
    times: Seq<FileTimes>,
    q: Query,
    n: nat,
    i: usize,
)
    requires
        n <= sources.len(),
        sources.len() <= usize::MAX,
    ensures
        kept(sources, times, q, n).contains(i) <==> i < n && passes(
            sources[i as int],
            times[i as int],
            q,
        ),
    decreases n,
{
    if n > 0 {
        lemma_kept_complete(sources, times, q, (n - 1) as nat, i);
        let rest = kept(sources, times, q, (n - 1) as nat);
        let out = kept(sources, times, q, n);
        if rest.contains(i) {
            assert(out[rest.index_of(i)] == i);
        }
        if out.contains(i) {
            let k = out.index_of(i);
            if k < rest.len() {
                assert(rest[k] == i);
            }
        }
        if i == n - 1 && passes(sources[n - 1], times[n - 1], q) {
            assert(out[rest.len() as int] == i);
        }
    }
}

/// An order that holds every place once keeps what it arranges.
proof fn lemma_arranged(kept: Seq<usize>, order: Seq<usize>, backwards: bool)
    requires
        kept.len() <= usize::MAX,
        kept.no_duplicates(),
        holds_range(order, 0, kept.len() as int),
        order.no_duplicates(),
    ensures
        directed(kept, order, backwards).no_duplicates(),
        forall|i: usize|
            #[trigger] directed(kept, order, backwards).contains(i) <==> kept.contains(i),
{
    let way = if backwards {
        order.reverse()
    } else {
        order
    };
    let out = directed(kept, order, backwards);
    assert forall|k: int| 0 <= k < way.len() implies 0 <= #[trigger] way[k] < kept.len() by {
        if backwards {
            assert(way[k] == order[order.len() - 1 - k]);
        }
    }
    assert forall|a: int, b: int| 0 <= a < b < out.len() implies out[a] != out[b] by {
        if backwards {
            assert(way[a] == order[order.len() - 1 - a]);
            assert(way[b] == order[order.len() - 1 - b]);
        }
        assert(way[a] != way[b]);
        assert(out[a] == kept[way[a] as int]);
        assert(out[b] == kept[way[b] as int]);
    }
    assert forall|i: usize| #[trigger] out.contains(i) <==> kept.contains(i) by {
        if out.contains(i) {
            let k = out.index_of(i);
            assert(kept[way[k] as int] == i);
        }
        if kept.contains(i) {
            let at = kept.index_of(i);
            assert(order.contains(at as usize));
            let k = order.index_of(at as usize);
            if backwards {
                assert(way[order.len() - 1 - k] == at);
                assert(out[order.len() - 1 - k] == i);
            } else {
                assert(out[k] == i);
            }
        }
    }
}

/// What passes does not depend on how it is sorted.
pub proof fn kept_ignores_sort(
    sources: Seq<SourceView>,
    times: Seq<FileTimes>,
    q: Query,
    r: Query,
    n: nat,
)
    requires
        r == (Query { sort: r.sort, ..q }),
    ensures
        kept(sources, times, q, n) == kept(sources, times, r, n),
    decreases n,
{
    if n > 0 {
        kept_ignores_sort(sources, times, q, r, (n - 1) as nat);
    }
}

/// The wall shows exactly the sources that pass the filters, each once, however it is sorted.
pub proof fn view_shows_what_passes(
    sources: Seq<SourceView>,
    times: Seq<FileTimes>,
    q: Query,
    shown: Seq<usize>,
)
    requires
        sources.len() <= usize::MAX,
        is_view(sources, times, q, shown),
    ensures
        shown.no_duplicates(),
        forall|i: usize| #[trigger]
            shown.contains(i) <==> i < sources.len() && passes(
                sources[i as int],
                times[i as int],
                q,
            ),
{
    let n = sources.len();
    let all = kept(sources, times, q, n);
    kept_is_ascending(sources, times, q, n);
    assert(all.no_duplicates());
    match q.sort {
        SortMode::Default => {},
        SortMode::NameAsc | SortMode::NameDesc => {
            let words = name_words(sources, all);
            let order = choose|order: Seq<usize>| #[trigger]
                is_rank_order(words, order) && shown == directed(all, order, descending(q.sort));
            assert(order.no_duplicates()) by {
                assert forall|a: int, b: int| 0 <= a < b < order.len() implies order[a]
                    != order[b] by {
                    assert(crate::order::rank_before(words, order[a] as int, order[b] as int));
                }
            }
            lemma_arranged(all, order, descending(q.sort));
        },
        _ => {
            let stamps = sort_times(sources, times, all, by_created(q.sort));
            let order = choose|order: Seq<usize>| #[trigger]
                is_time_order(stamps, order) && shown == directed(all, order, descending(q.sort));
            assert(order.no_duplicates()) by {
                assert forall|a: int, b: int| 0 <= a < b < order.len() implies order[a]
                    != order[b] by {
                    assert(crate::order::time_before(stamps, order[a] as int, order[b] as int));
                }
            }
            lemma_arranged(all, order, descending(q.sort));
        },
    }
    assert forall|i: usize| #[trigger] shown.contains(i) <==> i < sources.len() && passes(
        sources[i as int],
        times[i as int],
        q,
    ) by {
        lemma_kept_complete(sources, times, q, n, i);
    }
}

/// Without filters the wall shows the whole library, and as loaded in its own order.
pub proof fn empty_query_shows_all(
    sources: Seq<SourceView>,
    times: Seq<FileTimes>,
    q: Query,
    shown: Seq<usize>,
)
    requires
        sources.len() <= usize::MAX,
        is_view(sources, times, q, shown),
        q.kind is All,
        lowercase(q.search@).len() == 0,
        q.from is None,
        q.to is None,
        q.sort is Default,
    ensures
        shown == Seq::new(sources.len(), |i: int| i as usize),
{
    lemma_all_kept(sources, times, q, sources.len());
    assert(shown =~= Seq::new(sources.len(), |i: int| i as usize));
}

proof fn lemma_all_kept(sources: Seq<SourceView>, times: Seq<FileTimes>, q: Query, n: nat)
    requires
        q.kind is All,
        lowercase(q.search@).len() == 0,
        q.from is None,
        q.to is None,
    ensures
        kept(sources, times, q, n) == Seq::new(n, |i: int| i as usize),
    decreases n,
{
    if n > 0 {
        lemma_all_kept(sources, times, q, (n - 1) as nat);
        assert(kept(sources, times, q, n) =~= Seq::new(n, |i: int| i as usize));
    } else {
        assert(kept(sources, times, q, n) =~= Seq::new(n, |i: int| i as usize));
    }
}

} // verus!
