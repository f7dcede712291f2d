//! Series of bars: ordering by start time and removal of repeated start times.

use vstd::prelude::*;
use vstd::seq_lib::*;
use crate::kline::Kline;

verus! {

/// No bar starts before a bar that stands in front of it.
pub open spec fn ascending(s: Seq<Kline>) -> bool {
    forall|i: int, j: int| 0 <= i < j < s.len() ==> s[i].start_time <= s[j].start_time
}

/// Every bar starts after all the bars that stand in front of it: the series
/// is in order of time and no start time occurs twice.
pub open spec fn strictly_ascending(s: Seq<Kline>) -> bool {
    forall|i: int, j: int| 0 <= i < j < s.len() ==> s[i].start_time < s[j].start_time
}

/// Some bar of `s` starts at `t`.
pub open spec fn has_time(s: Seq<Kline>, t: u64) -> bool {
    exists|i: int| 0 <= i < s.len() && #[trigger] s[i].start_time == t
}

/// Bar `i` of `s` is the first bar of `s` with its start time.
pub open spec fn is_first_of_its_time(s: Seq<Kline>, i: int) -> bool {
    &&& 0 <= i < s.len()
    &&& forall|j: int| 0 <= j < i ==> #[trigger] s[j].start_time != s[i].start_time
}

/// Where a bar that starts at `t` goes into `s`: behind the last bar that
/// starts no later than `t`, and at the front if there is none.
pub open spec fn place_index(s: Seq<Kline>, t: u64) -> int
    decreases s.len(),
{
    if s.len() == 0 || s.last().start_time <= t {
        s.len() as int
    } else {
        place_index(s.drop_last(), t)
    }
}

/// The bars of `s` in order of start time; bars with the same start time keep
/// the order that they have in `s`.
pub open spec fn sorted_by_time(s: Seq<Kline>) -> Seq<Kline>
    decreases s.len(),
{
    if s.len() == 0 {
        s
    } else {
        let front = sorted_by_time(s.drop_last());
        front.insert(place_index(front, s.last().start_time), s.last())
    }
}

/// `s` without each bar that starts when the bar kept before it starts: of
/// neighbours with one start time the first stays.
pub open spec fn deduplicated(s: Seq<Kline>) -> Seq<Kline>
    decreases s.len(),
{
    if s.len() == 0 {
        s
    } else {
        let front = deduplicated(s.drop_last());
        if front.len() > 0 && front.last().start_time == s.last().start_time {
            front
        } else {
            front.push(s.last())
        }
    }
}

/// The series that the bars of `s` make: in order of start time, and for each
/// start time the bar that comes first in `s`.
pub open spec fn canonical(s: Seq<Kline>) -> Seq<Kline> {
    deduplicated(sorted_by_time(s))
}

/// The place for a bar lies in the series, behind a bar that starts no later
/// and in front of bars that all start later.
pub proof fn lemma_place_index(s: Seq<Kline>, t: u64)
    ensures
        0 <= place_index(s, t) <= s.len(),
        place_index(s, t) > 0 ==> s[place_index(s, t) - 1].start_time <= t,
        forall|j: int| place_index(s, t) <= j < s.len() ==> (#[trigger] s[j]).start_time > t,
    decreases s.len(),
{
    if s.len() == 0 || s.last().start_time <= t {
    } else {
        let head = s.drop_last();
        lemma_place_index(head, t);
        let p = place_index(head, t);
        if p > 0 {
            assert(head[p - 1] == s[p - 1]);
        }
        assert forall|j: int| p <= j < s.len() implies (#[trigger] s[j]).start_time > t by {
            if j < head.len() {
                assert(head[j] == s[j]);
            }
        }
    }
}

/// There is one such place only.
pub proof fn lemma_place_index_unique(s: Seq<Kline>, t: u64, p: int)
    requires
        0 <= p <= s.len(),
        p > 0 ==> s[p - 1].start_time <= t,
        forall|j: int| p <= j < s.len() ==> (#[trigger] s[j]).start_time > t,
    ensures
        p == place_index(s, t),
    decreases s.len(),
{
    if s.len() == 0 || s.last().start_time <= t {
    } else {
        let head = s.drop_last();
        assert(p < s.len());
        if p > 0 {
            assert(head[p - 1] == s[p - 1]);
        }
        assert forall|j: int| p <= j < head.len() implies (#[trigger] head[j]).start_time > t by {
            assert(head[j] == s[j]);
        }
        lemma_place_index_unique(head, t, p);
    }
}

/// Sorting keeps every bar, as often as it occurs, and puts the bars in order.
pub proof fn lemma_sorted_by_time(s: Seq<Kline>)
    ensures
        sorted_by_time(s).len() == s.len(),
        sorted_by_time(s).to_multiset() == s.to_multiset(),
        ascending(sorted_by_time(s)),
    decreases s.len(),
{
    if s.len() == 0 {
    } else {
        let front = sorted_by_time(s.drop_last());
        let k = s.last();
        let p = place_index(front, k.start_time);
        lemma_sorted_by_time(s.drop_last());
        lemma_place_index(front, k.start_time);
        front.insert_ensures(p, k);
        to_multiset_insert(front, p, k);
        to_multiset_build(s.drop_last(), k);
        assert(s.drop_last().push(k) =~= s);
        let r = front.insert(p, k);
        assert forall|i: int, j: int| 0 <= i < j < r.len() implies r[i].start_time
            <= r[j].start_time by {
            if j < p {
                assert(r[i] == front[i] && r[j] == front[j]);
            } else if j == p {
                assert(r[i] == front[i]);
                if p > 0 {
                    assert(i == p - 1 || front[i].start_time <= front[p - 1].start_time);
                }
            } else if i < p {
                assert(r[i] == front[i] && r[j] == front[j - 1]);
            } else if i == p {
                assert(r[j] == front[j - 1]);
            } else {
                assert(r[i] == front[i - 1] && r[j] == front[j - 1]);
            }
        }
    }
}

/// A bar is in the sorted series just when it is in the series.
pub proof fn lemma_sorted_contains(s: Seq<Kline>, k: Kline)
    ensures
        sorted_by_time(s).contains(k) <==> s.contains(k),
{
    lemma_sorted_by_time(s);
    to_multiset_contains(s, k);
    to_multiset_contains(sorted_by_time(s), k);
}

/// Sorting leaves a series that is in order as it is.
pub proof fn lemma_sorted_of_ascending(s: Seq<Kline>)
    requires
        ascending(s),
    ensures
        sorted_by_time(s) == s,
    decreases s.len(),
{
    if s.len() == 0 {
    } else {
        let front = s.drop_last();
        assert(ascending(front)) by {
            assert forall|i: int, j: int| 0 <= i < j < front.len() implies front[i].start_time
                <= front[j].start_time by {
                assert(front[i] == s[i] && front[j] == s[j]);
            }
        }
        lemma_sorted_of_ascending(front);
        if front.len() > 0 {
            assert(front.last() == s[s.len() - 2]);
        }
        assert(place_index(front, s.last().start_time) == front.len());
        assert(front.insert(front.len() as int, s.last()) =~= s);
    }
}

/// Sorting a second time changes nothing.
pub proof fn lemma_sorted_idempotent(s: Seq<Kline>)
    ensures
        sorted_by_time(sorted_by_time(s)) == sorted_by_time(s),
{
    lemma_sorted_by_time(s);
    lemma_sorted_of_ascending(sorted_by_time(s));
}

/// What removing repeated start times does to a series that is in order:
/// the result is strictly in order and no longer than the series; each of its
/// bars is the first bar of the series with its start time; and every start
/// time of the series is still there.
pub proof fn lemma_deduplicated(s: Seq<Kline>)
    requires
        ascending(s),
    ensures
        strictly_ascending(deduplicated(s)),
        deduplicated(s).len() <= s.len(),
        s.len() > 0 ==> deduplicated(s).len() > 0 && deduplicated(s).last().start_time
            == s.last().start_time,
        forall|i: int|
            0 <= i < deduplicated(s).len() ==> exists|j: int|
                is_first_of_its_time(s, j) && s[j] == #[trigger] deduplicated(s)[i],
        forall|j: int| 0 <= j < s.len() ==> has_time(deduplicated(s), #[trigger] s[j].start_time),
    decreases s.len(),
{
    if s.len() == 0 {
    } else {
        let head = s.drop_last();
        let front = deduplicated(head);
        let d = deduplicated(s);
        assert(ascending(head)) by {
            assert forall|i: int, j: int| 0 <= i < j < head.len() implies head[i].start_time
                <= head[j].start_time by {
                assert(head[i] == s[i] && head[j] == s[j]);
            }
        }
        lemma_deduplicated(head);
        let repeated = front.len() > 0 && front.last().start_time == s.last().start_time;
        assert forall|i: int| 0 <= i < d.len() implies exists|j: int|
            is_first_of_its_time(s, j) && s[j] == #[trigger] d[i] by {
            if i < front.len() {
                let j = choose|j: int| is_first_of_its_time(head, j) && head[j] == front[i];
                assert(is_first_of_its_time(s, j)) by {
                    assert forall|l: int| 0 <= l < j implies #[trigger] s[l].start_time
                        != s[j].start_time by {
                        assert(head[l] == s[l]);
                    }
                }
                assert(s[j] == d[i]);
            } else {
                let j = s.len() - 1;
                assert(d[i] == s[j]);
                assert forall|l: int| 0 <= l < j implies #[trigger] s[l].start_time
                    != s[j].start_time by {
                    assert(has_time(front, head[l].start_time));
                    let m = choose|m: int|
                        0 <= m < front.len() && #[trigger] front[m].start_time
                            == head[l].start_time;
                    assert(head.last() == s[s.len() - 2]);
                    assert(m == front.len() - 1 || front[m].start_time < front.last().start_time);
                    assert(s[l].start_time <= head.last().start_time);
                }
                assert(is_first_of_its_time(s, j));
            }
        }
        assert forall|j: int| 0 <= j < s.len() implies has_time(d, #[trigger] s[j].start_time) by {
            if j < head.len() {
                assert(head[j] == s[j]);
                assert(has_time(front, head[j].start_time));
                let m = choose|m: int|
                    0 <= m < front.len() && #[trigger] front[m].start_time == head[j].start_time;
                assert(d[m].start_time == s[j].start_time);
            } else {
                assert(d.last().start_time == s[j].start_time);
                assert(d[d.len() - 1].start_time == s[j].start_time);
            }
        }
        assert forall|i: int, j: int| 0 <= i < j < d.len() implies d[i].start_time
            < d[j].start_time by {
            if j < front.len() {
                assert(d[i] == front[i] && d[j] == front[j]);
            } else {
                assert(d[i] == front[i]);
                assert(head.len() > 0);
                assert(head.last() == s[s.len() - 2]);
                assert(i == front.len() - 1 || front[i].start_time < front.last().start_time);
            }
        }
    }
}

/// Removing repeated start times leaves a series without any as it is.
pub proof fn lemma_deduplicated_of_strict(s: Seq<Kline>)
    requires
        strictly_ascending(s),
    ensures
        deduplicated(s) == s,
    decreases s.len(),
{
    if s.len() == 0 {
    } else {
        let head = s.drop_last();
        assert(strictly_ascending(head)) by {
            assert forall|i: int, j: int| 0 <= i < j < head.len() implies head[i].start_time
                < head[j].start_time by {
                assert(head[i] == s[i] && head[j] == s[j]);
            }
        }
        lemma_deduplicated_of_strict(head);
        if head.len() > 0 {
            assert(head.last() == s[s.len() - 2]);
        }
        assert(head.push(s.last()) =~= s);
    }
}

/// Sorting is stable at the front: the first bar of the sorted series with a
/// start time is the first bar of the series with that start time.
pub proof fn lemma_sorted_keeps_first(s: Seq<Kline>)
    ensures
        forall|i: int| #[trigger]
            is_first_of_its_time(sorted_by_time(s), i) ==> exists|j: int|
                is_first_of_its_time(s, j) && s[j] == sorted_by_time(s)[i],
    decreases s.len(),
{
    let r = sorted_by_time(s);
    if s.len() == 0 {
    } else {
        let head = s.drop_last();
        let front = sorted_by_time(head);
        let k = s.last();
        let p = place_index(front, k.start_time);
        lemma_sorted_keeps_first(head);
        lemma_sorted_by_time(head);
        lemma_place_index(front, k.start_time);
        front.insert_ensures(p, k);
        assert forall|i: int| #[trigger] is_first_of_its_time(r, i) implies exists|j: int|
            is_first_of_its_time(s, j) && s[j] == r[i] by {
            if i == p {
                // The bar that came last: no bar of the sorted front starts when it starts.
                let j = s.len() - 1;
                assert forall|l: int| 0 <= l < j implies #[trigger] s[l].start_time
                    != s[j].start_time by {
                    assert(head[l] == s[l]);
                    lemma_sorted_contains(head, head[l]);
                    assert(head.contains(head[l]));
                    let m = choose|m: int| 0 <= m < front.len() && front[m] == head[l];
                    if m < p {
                        assert(r[m] == front[m]);
                    }
                }
                assert(is_first_of_its_time(s, j));
            } else {
                let m = if i < p {
                    i
                } else {
                    i - 1
                };
                assert(r[i] == front[m]);
                assert(is_first_of_its_time(front, m)) by {
                    assert forall|l: int| 0 <= l < m implies #[trigger] front[l].start_time
                        != front[m].start_time by {
                        if l < p {
                            assert(r[l] == front[l]);
                        } else {
                            assert(r[l + 1] == front[l]);
                        }
                    }
                }
                let j = choose|j: int| is_first_of_its_time(head, j) && head[j] == front[m];
                assert(head[j] == s[j]);
                assert forall|l: int| 0 <= l < j implies #[trigger] s[l].start_time
                    != s[j].start_time by {
                    assert(head[l] == s[l]);
                }
                assert(is_first_of_its_time(s, j));
            }
        }
    }
}

/// The series made of the bars of `s` is strictly in order and no longer
/// than `s`; each of its bars is the first bar of `s` with its start time;
/// and every start time of `s` occurs in it.
pub proof fn lemma_canonical(s: Seq<Kline>)
    ensures
        strictly_ascending(canonical(s)),
        canonical(s).len() <= s.len(),
        forall|i: int|
            0 <= i < canonical(s).len() ==> exists|j: int|
                is_first_of_its_time(s, j) && s[j] == #[trigger] canonical(s)[i],
        forall|j: int| 0 <= j < s.len() ==> has_time(canonical(s), #[trigger] s[j].start_time),
{
    let r = sorted_by_time(s);
    let c = canonical(s);
    lemma_sorted_by_time(s);
    lemma_deduplicated(r);
    lemma_sorted_keeps_first(s);
    assert forall|i: int| 0 <= i < c.len() implies exists|j: int|
        is_first_of_its_time(s, j) && s[j] == #[trigger] c[i] by {
        let m = choose|m: int| is_first_of_its_time(r, m) && r[m] == c[i];
        assert(is_first_of_its_time(r, m));
    }
    assert forall|j: int| 0 <= j < s.len() implies has_time(c, #[trigger] s[j].start_time) by {
        lemma_sorted_contains(s, s[j]);
        assert(s.contains(s[j]));
        let m = choose|m: int| 0 <= m < r.len() && r[m] == s[j];
        assert(has_time(c, r[m].start_time));
    }
}

/// A series that is strictly in order is the series that its bars make.
pub proof fn lemma_canonical_of_strict(s: Seq<Kline>)
    requires
        strictly_ascending(s),
    ensures
        canonical(s) == s,
{
    lemma_sorted_of_ascending(s);
    lemma_deduplicated_of_strict(s);
}

/// Making a series of a series that was made this way changes nothing.
pub proof fn lemma_canonical_idempotent(s: Seq<Kline>)
    ensures
        canonical(canonical(s)) == canonical(s),
{
    lemma_canonical(s);
    lemma_canonical_of_strict(canonical(s));
}

/// Sorts bars by start time; bars with the same start time keep their order.
pub fn sort_by_start_time(klines: Vec<Kline>) -> (sorted: Vec<Kline>)
    ensures
        sorted@ == sorted_by_time(klines@),
        ascending(sorted@),
        sorted@.to_multiset() == klines@.to_multiset(),
{
    let mut sorted: Vec<Kline> = Vec::new();
    for kline in it: klines
        invariant
            it.seq() == klines@,
            sorted@ == sorted_by_time(klines@.take(it.index())),
    {
        let ghost front = sorted@;
        let mut p: usize = sorted.len();
        while p > 0 && sorted[p - 1].start_time > kline.start_time
            invariant
                p <= sorted@.len(),
                sorted@ == front,
                forall|j: int| p <= j < front.len() ==> (#[trigger] front[j]).start_time
                    > kline.start_time,
            decreases p,
        {
            p -= 1;
        }
        proof {
            lemma_place_index_unique(front, kline.start_time, p as int);
            let longer = klines@.take(it.index() + 1);
            assert(longer.drop_last() =~= klines@.take(it.index()));
            assert(longer.last() == kline);
        }
        sorted.insert(p, kline);
    }
    proof {
        assert(klines@.take(klines@.len() as int) =~= klines@);
        lemma_sorted_by_time(klines@);
    }
    sorted
}

/// Drops each bar that starts when the bar kept before it starts.
pub fn dedup_by_start_time(klines: Vec<Kline>) -> (kept: Vec<Kline>)
    ensures
        kept@ == deduplicated(klines@),
{
    let mut kept: Vec<Kline> = Vec::new();
    for kline in it: klines
        invariant
            it.seq() == klines@,
            kept@ == deduplicated(klines@.take(it.index())),
    {
        proof {
            let longer = klines@.take(it.index() + 1);
            assert(longer.drop_last() =~= klines@.take(it.index()));
            assert(longer.last() == kline);
        }
        let n: usize = kept.len();
        if n == 0 || kept[n - 1].start_time != kline.start_time {
            kept.push(kline);
        }
    }
    proof {
        assert(klines@.take(klines@.len() as int) =~= klines@);
    }
    kept
}

/// Makes one series of bars that come in any order and may repeat start
/// times: sorts them by start time and keeps, for each start time, the bar
/// that came first.
pub fn sort_and_dedup(klines: Vec<Kline>) -> (series: Vec<Kline>)
    ensures
        series@ == canonical(klines@),
        strictly_ascending(series@),
        series@.len() <= klines@.len(),
{
    proof {
        lemma_canonical(klines@);
    }
    dedup_by_start_time(sort_by_start_time(klines))
}

} // verus!
