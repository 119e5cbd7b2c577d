//! Counting the days of an interval that satisfy a predicate.

use vstd::prelude::*;

verus! {

/// The number of days `d` with `lo <= d < hi` for which `p(d)` holds.
pub open spec fn count_in(p: spec_fn(int) -> bool, lo: int, hi: int) -> int
    decreases hi - lo,
{
    if hi <= lo {
        0
    } else {
        count_in(p, lo, hi - 1) + if p(hi - 1) { 1int } else { 0int }
    }
}

/// A count is never negative and never more than the interval is long.
pub proof fn lemma_count_bounds(p: spec_fn(int) -> bool, lo: int, hi: int)
    ensures
        0 <= count_in(p, lo, hi),
        lo <= hi ==> count_in(p, lo, hi) <= hi - lo,
        hi <= lo ==> count_in(p, lo, hi) == 0,
    decreases hi - lo,
{
    if hi > lo {
        lemma_count_bounds(p, lo, hi - 1);
    }
}

/// Counts over adjacent intervals add up.
pub proof fn lemma_count_split(p: spec_fn(int) -> bool, lo: int, mid: int, hi: int)
    requires
        lo <= mid <= hi,
    ensures
        count_in(p, lo, hi) == count_in(p, lo, mid) + count_in(p, mid, hi),
    decreases hi - mid,
{
    if hi > mid {
        lemma_count_split(p, lo, mid, hi - 1);
    }
}

/// Taking the first day off an interval.
pub proof fn lemma_count_first(p: spec_fn(int) -> bool, lo: int, hi: int)
    requires
        lo < hi,
    ensures
        count_in(p, lo, hi) == count_in(p, lo + 1, hi) + if p(lo) { 1int } else { 0int },
{
    lemma_count_split(p, lo, lo + 1, hi);
    assert(count_in(p, lo, lo + 1) == count_in(p, lo, lo) + if p(lo) { 1int } else { 0int });
}

/// Where no day of the interval satisfies the predicate, the count is zero, and conversely.
pub proof fn lemma_count_zero(p: spec_fn(int) -> bool, lo: int, hi: int)
    ensures
        count_in(p, lo, hi) == 0 <==> (forall|d: int| lo <= d < hi ==> !#[trigger] p(d)),
    decreases hi - lo,
{
    if hi > lo {
        lemma_count_zero(p, lo, hi - 1);
        lemma_count_bounds(p, lo, hi - 1);
        if count_in(p, lo, hi) == 0 {
            assert forall|d: int| lo <= d < hi implies !#[trigger] p(d) by {
                if d < hi - 1 {
                }
            }
        }
    }
}

/// Two predicates that agree on an interval have the same count there.
pub proof fn lemma_count_agree(p: spec_fn(int) -> bool, q: spec_fn(int) -> bool, lo: int, hi: int)
    requires
        forall|d: int| lo <= d < hi ==> #[trigger] p(d) == q(d),
    ensures
        count_in(p, lo, hi) == count_in(q, lo, hi),
    decreases hi - lo,
{
    if hi > lo {
        lemma_count_agree(p, q, lo, hi - 1);
    }
}

/// Where `r` holds only on days on which `q` holds, the days on which `q` holds and `r`
/// does not are the difference of the two counts.
pub proof fn lemma_count_difference(
    p: spec_fn(int) -> bool,
    q: spec_fn(int) -> bool,
    r: spec_fn(int) -> bool,
    lo: int,
    hi: int,
)
    requires
        forall|d: int| lo <= d < hi ==> #[trigger] p(d) == (q(d) && !r(d)),
        forall|d: int| lo <= d < hi && #[trigger] r(d) ==> q(d),
    ensures
        count_in(p, lo, hi) == count_in(q, lo, hi) - count_in(r, lo, hi),
    decreases hi - lo,
{
    if hi > lo {
        lemma_count_difference(p, q, r, lo, hi - 1);
    }
}

/// Whether `p` says the same of `d` and of the day `period` days later.
pub open spec fn repeats_at(p: spec_fn(int) -> bool, period: int, d: int) -> bool {
    p(d) == p(d + period)
}

/// A predicate that repeats every `period` days has the same count on an interval and on
/// the interval moved by one period.
pub proof fn lemma_count_shift(p: spec_fn(int) -> bool, period: int, lo: int, hi: int)
    requires
        forall|d: int| #[trigger] repeats_at(p, period, d),
    ensures
        count_in(p, lo + period, hi + period) == count_in(p, lo, hi),
    decreases hi - lo,
{
    if hi > lo {
        lemma_count_shift(p, period, lo, hi - 1);
        assert(repeats_at(p, period, hi - 1));
    }
}

} // verus!
