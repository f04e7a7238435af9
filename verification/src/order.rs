//! A stable sort of positions by key.

use crate::dates::FileTime;
use vstd::prelude::*;

verus! {

/// A key that can be sorted by. Keys may be equal in order without being the same.
pub trait SortKey: Sized {
    /// Whether this key comes no later than another one.
    spec fn le(self, other: Self) -> bool;

    /// Of two keys, one comes no later than the other.
    proof fn le_is_total(a: Self, b: Self)
        ensures
            a.le(b) || b.le(a),
    ;

    /// The order carries over from key to key.
    proof fn le_is_transitive(a: Self, b: Self, c: Self)
        requires
            a.le(b),
            b.le(c),
        ensures
            a.le(c),
    ;

    /// Whether this key comes no later than another one.
    fn no_later(&self, other: &Self) -> (yes: bool)
        ensures
            yes == self.le(*other),
    ;
}

/// Position `i` comes before position `j`: by its key, and among equal keys by position.
pub open spec fn before<K: SortKey>(keys: Seq<K>, i: int, j: int) -> bool {
    keys[i].le(keys[j]) && (keys[j].le(keys[i]) ==> i < j)
}

/// Every position stands before those that follow it.
pub open spec fn sorted<K: SortKey>(keys: Seq<K>, order: Seq<usize>) -> bool {
    forall|a: int, b: int|
        0 <= a < b < order.len() ==> before(keys, #[trigger] order[a] as int, #[trigger] order[b]
            as int)
}

/// Exactly the positions from `lo` (included) to `hi` (excluded), each once.
pub open spec fn holds_range(order: Seq<usize>, lo: int, hi: int) -> bool {
    &&& order.len() == hi - lo
    &&& forall|k: int| 0 <= k < order.len() ==> lo <= #[trigger] order[k] < hi
    &&& forall|i: int| lo <= i < hi ==> order.contains(#[trigger] (i as usize))
}

/// The stable order of the keys: every position once, sorted by key and, among equal keys, by
/// position.
pub open spec fn is_stable_order<K: SortKey>(keys: Seq<K>, order: Seq<usize>) -> bool {
    holds_range(order, 0, keys.len() as int) && sorted(keys, order)
}

proof fn lemma_before_trans<K: SortKey>(keys: Seq<K>, x: int, y: int, z: int)
    requires
        before(keys, x, y),
        before(keys, y, z),
    ensures
        before(keys, x, z),
{
    K::le_is_transitive(keys[x], keys[y], keys[z]);
    if keys[z].le(keys[x]) {
        K::le_is_transitive(keys[z], keys[x], keys[y]);
        K::le_is_transitive(keys[y], keys[z], keys[x]);
    }
}

/// Merges two sorted runs, of the positions from `lo` to `mid` and from `mid` to `hi`.
fn merge<K: SortKey>(
    keys: &Vec<K>,
    a: &Vec<usize>,
    b: &Vec<usize>,
    lo: usize,
    mid: usize,
    hi: usize,
) -> (out: Vec<usize>)
    requires
        lo <= mid <= hi <= keys.len(),
        holds_range(a@, lo as int, mid as int),
        holds_range(b@, mid as int, hi as int),
        sorted(keys@, a@),
        sorted(keys@, b@),
    ensures
        holds_range(out@, lo as int, hi as int),
        sorted(keys@, out@),
{
    let mut out: Vec<usize> = Vec::new();
    let mut i: usize = 0;
    let mut j: usize = 0;
    while i < a.len() || j < b.len()
        invariant
            lo <= mid <= hi <= keys.len(),
            holds_range(a@, lo as int, mid as int),
            holds_range(b@, mid as int, hi as int),
            sorted(keys@, a@),
            sorted(keys@, b@),
            i <= a.len(),
            j <= b.len(),
            out.len() == i + j,
            sorted(keys@, out@),
            forall|k: int| 0 <= k < out.len() ==> lo <= #[trigger] out@[k] < hi,
            forall|k: int| 0 <= k < i ==> out@.contains(#[trigger] a@[k]),
            forall|k: int| 0 <= k < j ==> out@.contains(#[trigger] b@[k]),
            forall|k: int, n: int|
                0 <= k < out.len() && i <= n < a.len() ==> before(
                    keys@,
                    #[trigger] out@[k] as int,
                    #[trigger] a@[n] as int,
                ),
            forall|k: int, n: int|
                0 <= k < out.len() && j <= n < b.len() ==> before(
                    keys@,
                    #[trigger] out@[k] as int,
                    #[trigger] b@[n] as int,
                ),
        decreases a.len() - i + (b.len() - j),
    {
        let from_a: bool = if i == a.len() {
            false
        } else if j == b.len() {
            true
        } else {
            keys[a[i]].no_later(&keys[b[j]])
        };
        let ghost done = out@;
        if from_a {
            out.push(a[i]);
            proof {
                if j < b.len() {
                    assert forall|n: int| j <= n < b.len() implies before(
                        keys@,
                        a@[i as int] as int,
                        #[trigger] b@[n] as int,
                    ) by {
                        assert(before(keys@, a@[i as int] as int, b@[j as int] as int));
                        if n > j {
                            lemma_before_trans(
                                keys@,
                                a@[i as int] as int,
                                b@[j as int] as int,
                                b@[n] as int,
                            );
                        }
                    }
                }
                assert(out@[done.len() as int] == a@[i as int]);
            }
            i = i + 1;
        } else {
            out.push(b[j]);
            proof {
                if i < a.len() {
                    K::le_is_total(keys@[a@[i as int] as int], keys@[b@[j as int] as int]);
                    assert forall|n: int| i <= n < a.len() implies before(
                        keys@,
                        b@[j as int] as int,
                        #[trigger] a@[n] as int,
                    ) by {
                        assert(before(keys@, b@[j as int] as int, a@[i as int] as int));
                        if n > i {
                            lemma_before_trans(
                                keys@,
                                b@[j as int] as int,
                                a@[i as int] as int,
                                a@[n] as int,
                            );
                        }
                    }
                }
                assert(out@[done.len() as int] == b@[j as int]);
            }
            j = j + 1;
        }
        proof {
            assert forall|x: usize| done.contains(x) implies out@.contains(x) by {
                assert(out@[done.index_of(x)] == x);
            }
        }
    }
    proof {
        assert forall|x: int| lo <= x < hi implies out@.contains(#[trigger] (x as usize)) by {
            if x < mid {
                assert(a@.contains(x as usize));
                assert(out@.contains(a@[a@.index_of(x as usize)]));
            } else {
                assert(b@.contains(x as usize));
                assert(out@.contains(b@[b@.index_of(x as usize)]));
            }
        }
    }
    out
}

fn sort_range<K: SortKey>(keys: &Vec<K>, lo: usize, hi: usize) -> (order: Vec<usize>)
    requires
        lo <= hi <= keys.len(),
    ensures
        holds_range(order@, lo as int, hi as int),
        sorted(keys@, order@),
    decreases hi - lo,
{
    let mut order: Vec<usize> = Vec::new();
    if hi - lo == 0 {
        order
    } else if hi - lo == 1 {
        order.push(lo);
        assert(order@[0] == lo);
        order
    } else {
        let mid: usize = lo + (hi - lo) / 2;
        let a = sort_range(keys, lo, mid);
        let b = sort_range(keys, mid, hi);
        merge(keys, &a, &b, lo, mid, hi)
    }
}

/// The stable order of the keys.
pub fn stable_order<K: SortKey>(keys: &Vec<K>) -> (order: Vec<usize>)
    ensures
        is_stable_order(keys@, order@),
{
    sort_range(keys, 0, keys.len())
}

/// There is only one stable order: two of them agree at every place.
pub proof fn stable_order_is_unique<K: SortKey>(
    keys: Seq<K>,
    p: Seq<usize>,
    q: Seq<usize>,
    at: int,
)
    requires
        keys.len() <= usize::MAX,
        is_stable_order(keys, p),
        is_stable_order(keys, q),
        0 <= at < p.len(),
    ensures
        p[at] == q[at],
    decreases at,
{
    assert forall|k: int| 0 <= k < at implies p[k] == q[k] by {
        stable_order_is_unique(keys, p, q, k);
    }
    if p[at] != q[at] {
        // Each of the two must come later in the other order, which cannot both be.
        assert(q.contains((p[at] as int) as usize));
        let j = q.index_of(p[at]);
        assert(j >= at) by {
            if j < at {
                assert(p[j] == q[j]);
                assert(before(keys, p[j] as int, p[at] as int));
            }
        }
        assert(p.contains((q[at] as int) as usize));
        let i = p.index_of(q[at]);
        assert(i >= at) by {
            if i < at {
                assert(p[i] == q[i]);
                assert(before(keys, q[i] as int, q[at] as int));
            }
        }
        assert(before(keys, p[at] as int, p[i] as int));
        assert(before(keys, q[at] as int, q[j] as int));
    }
}

/// Places of an order, back to front.
pub fn reversed(order: &Vec<usize>) -> (back: Vec<usize>)
    ensures
        back@ == order@.reverse(),
{
    let mut back: Vec<usize> = Vec::new();
    let mut i: usize = order.len();
    while i > 0
        invariant
            i <= order.len(),
            back@ == order@.reverse().take(order.len() - i),
        decreases i,
    {
        i = i - 1;
        back.push(order[i]);
        assert(back@ =~= order@.reverse().take(order.len() - i));
    }
    assert(back@ =~= order@.reverse());
    back
}

/// A key that is read rank by rank, like a word letter by letter.
pub struct RankKey {
    pub ranks: Vec<u32>,
}

/// Whether a word of ranks comes no later than another one: the first rank in which they differ
/// decides, and a word comes before its continuations.
pub open spec fn lex_le(a: Seq<u32>, b: Seq<u32>) -> bool
    decreases a.len(),
{
    if a.len() == 0 {
        true
    } else if b.len() == 0 {
        false
    } else if a[0] != b[0] {
        a[0] < b[0]
    } else {
        lex_le(a.drop_first(), b.drop_first())
    }
}

proof fn lemma_lex_total(a: Seq<u32>, b: Seq<u32>)
    ensures
        lex_le(a, b) || lex_le(b, a),
    decreases a.len(),
{
    if a.len() > 0 && b.len() > 0 && a[0] == b[0] {
        lemma_lex_total(a.drop_first(), b.drop_first());
    }
}

proof fn lemma_lex_trans(a: Seq<u32>, b: Seq<u32>, c: Seq<u32>)
    requires
        lex_le(a, b),
        lex_le(b, c),
    ensures
        lex_le(a, c),
    decreases a.len(),
{
    if a.len() > 0 && b.len() > 0 && c.len() > 0 && a[0] == b[0] && b[0] == c[0] {
        lemma_lex_trans(a.drop_first(), b.drop_first(), c.drop_first());
    }
}

/// Words that come no later than each other are the same.
pub proof fn lex_equal_is_same(a: Seq<u32>, b: Seq<u32>)
    requires
        lex_le(a, b),
        lex_le(b, a),
    ensures
        a == b,
    decreases a.len(),
{
    if a.len() == 0 {
        assert(a =~= b);
    } else {
        lex_equal_is_same(a.drop_first(), b.drop_first());
        assert(a =~= seq![a[0]] + a.drop_first());
        assert(b =~= seq![b[0]] + b.drop_first());
    }
}

impl SortKey for RankKey {
    open spec fn le(self, other: Self) -> bool {
        lex_le(self.ranks@, other.ranks@)
    }

    proof fn le_is_total(a: Self, b: Self) {
        lemma_lex_total(a.ranks@, b.ranks@);
    }

    proof fn le_is_transitive(a: Self, b: Self, c: Self) {
        lemma_lex_trans(a.ranks@, b.ranks@, c.ranks@);
    }

    fn no_later(&self, other: &Self) -> (yes: bool) {
        let mut i: usize = 0;
        assert(self.ranks@.skip(0) =~= self.ranks@);
        assert(other.ranks@.skip(0) =~= other.ranks@);
        while i < self.ranks.len() && i < other.ranks.len()
            invariant
                i <= self.ranks.len(),
                i <= other.ranks.len(),
                lex_le(self.ranks@, other.ranks@) == lex_le(
                    self.ranks@.skip(i as int),
                    other.ranks@.skip(i as int),
                ),
            decreases self.ranks.len() - i,
        {
            if self.ranks[i] != other.ranks[i] {
                return self.ranks[i] < other.ranks[i];
            }
            proof {
                assert(self.ranks@.skip(i as int).drop_first() =~= self.ranks@.skip(i + 1));
                assert(other.ranks@.skip(i as int).drop_first() =~= other.ranks@.skip(i + 1));
            }
            i = i + 1;
        }
        i == self.ranks.len()
    }
}

/// A date to sort by. What has no date comes first.
pub struct DateKey {
    pub time: Option<FileTime>,
}

/// Whether a point in time comes no later than another one.
pub open spec fn time_le(a: Option<FileTime>, b: Option<FileTime>) -> bool {
    match (a, b) {
        (None, _) => true,
        (Some(_), None) => false,
        (Some(x), Some(y)) => x.secs < y.secs || x.secs == y.secs && x.nanos <= y.nanos,
    }
}

impl SortKey for DateKey {
    open spec fn le(self, other: Self) -> bool {
        time_le(self.time, other.time)
    }

    proof fn le_is_total(a: Self, b: Self) {
    }

    proof fn le_is_transitive(a: Self, b: Self, c: Self) {
    }

    fn no_later(&self, other: &Self) -> (yes: bool) {
        match (self.time, other.time) {
            (None, _) => true,
            (Some(_), None) => false,
            (Some(x), Some(y)) => x.secs < y.secs || (x.secs == y.secs && x.nanos <= y.nanos),
        }
    }
}

/// Whether word `i` comes before word `j`; equal words keep their places.
pub open spec fn rank_before(ranks: Seq<Seq<u32>>, i: int, j: int) -> bool {
    lex_le(ranks[i], ranks[j]) && (lex_le(ranks[j], ranks[i]) ==> i < j)
}

/// The stable order of words.
pub open spec fn is_rank_order(ranks: Seq<Seq<u32>>, order: Seq<usize>) -> bool {
    &&& holds_range(order, 0, ranks.len() as int)
    &&& forall|a: int, b: int|
        0 <= a < b < order.len() ==> rank_before(
            ranks,
            #[trigger] order[a] as int,
            #[trigger] order[b] as int,
        )
}

/// Whether two words are the same.
pub fn same_ranks(a: &Vec<u32>, b: &Vec<u32>) -> (same: bool)
    ensures
        same == (a@ == b@),
{
    if a.len() != b.len() {
        return false;
    }
    let mut i: usize = 0;
    while i < a.len()
        invariant
            i <= a.len() == b.len(),
            forall|k: int| 0 <= k < i ==> a@[k] == b@[k],
        decreases a.len() - i,
    {
        if a[i] != b[i] {
            return false;
        }
        i = i + 1;
    }
    assert(a@ =~= b@);
    true
}

/// What a list of keys says.
pub open spec fn ranks_view(keys: Seq<RankKey>) -> Seq<Seq<u32>> {
    keys.map_values(|key: RankKey| key.ranks@)
}

/// The stable order of words.
pub fn rank_order(keys: &Vec<RankKey>) -> (order: Vec<usize>)
    ensures
        is_rank_order(ranks_view(keys@), order@),
{
    let order = stable_order(keys);
    proof {
        let ranks = ranks_view(keys@);
        assert forall|a: int, b: int| 0 <= a < b < order@.len() implies rank_before(
            ranks,
            #[trigger] order@[a] as int,
            #[trigger] order@[b] as int,
        ) by {
            assert(before(keys@, order@[a] as int, order@[b] as int));
        }
    }
    order
}

/// Whether time `i` comes before time `j`; equal times keep their places.
pub open spec fn time_before(times: Seq<Option<FileTime>>, i: int, j: int) -> bool {
    time_le(times[i], times[j]) && (time_le(times[j], times[i]) ==> i < j)
}

/// The stable order of times, oldest first.
pub open spec fn is_time_order(times: Seq<Option<FileTime>>, order: Seq<usize>) -> bool {
    &&& holds_range(order, 0, times.len() as int)
    &&& forall|a: int, b: int|
        0 <= a < b < order.len() ==> time_before(
            times,
            #[trigger] order[a] as int,
            #[trigger] order[b] as int,
        )
}

/// What a list of keys says.
pub open spec fn times_view(keys: Seq<DateKey>) -> Seq<Option<FileTime>> {
    keys.map_values(|key: DateKey| key.time)
}

/// The stable order of times, oldest first.
pub fn time_order(keys: &Vec<DateKey>) -> (order: Vec<usize>)
    ensures
        is_time_order(times_view(keys@), order@),
{
    let order = stable_order(keys);
    proof {
        let times = times_view(keys@);
        assert forall|a: int, b: int| 0 <= a < b < order@.len() implies time_before(
            times,
            #[trigger] order@[a] as int,
            #[trigger] order@[b] as int,
        ) by {
            assert(before(keys@, order@[a] as int, order@[b] as int));
        }
    }
    order
}

} // verus!
