//! The holiday set: a sorted sequence of day ordinals without repeats, searched by bisection.

use crate::counting::count_in;
use crate::weekday::{weekday, weekday_of};
use vstd::prelude::*;

verus! {

/// Each entry is less than every later one.
pub open spec fn strictly_increasing(days: Seq<i32>) -> bool {
    forall|i: int, j: int| 0 <= i < j < days.len() ==> days[i] < days[j]
}

/// The dates that occur in a sequence of ordinals.
pub open spec fn days_set(days: Seq<i32>) -> Set<int> {
    Set::new(|d: int| exists|i: int| 0 <= i < days.len() && #[trigger] days[i] == d)
}

/// The predicate "is a member of `days`".
pub open spec fn member_pred(days: Set<int>) -> spec_fn(int) -> bool {
    |d: int| days.contains(d)
}

/// `position` parts the entries from `from` up to `to` into those less than `x`, before it,
/// and those at least `x`, from it on.
pub open spec fn parts_at(days: Seq<i32>, from: int, to: int, x: int, position: int) -> bool {
    &&& from <= position <= to
    &&& forall|i: int| from <= i < position ==> #[trigger] days[i] < x
    &&& forall|i: int| position <= i < to ==> #[trigger] days[i] >= x
}

/// The number of entries of a sorted sequence that are less than `x`.
pub open spec fn rank_of(days: Seq<i32>, x: int) -> int
    decreases days.len(),
{
    if days.len() == 0 {
        0
    } else if days.last() < x {
        days.len() as int
    } else {
        rank_of(days.drop_last(), x)
    }
}

/// The rank of `x` is where `x` parts a sorted sequence.
pub proof fn lemma_rank_parts(days: Seq<i32>, x: int)
    requires
        strictly_increasing(days),
    ensures
        parts_at(days, 0, days.len() as int, x, rank_of(days, x)),
    decreases days.len(),
{
    if days.len() > 0 {
        let shorter = days.drop_last();
        assert(strictly_increasing(shorter));
        lemma_rank_parts(shorter, x);
        if days.last() < x {
            assert forall|i: int| 0 <= i < days.len() implies #[trigger] days[i] < x by {
                if i < days.len() - 1 {
                    assert(days[i] < days[days.len() - 1]);
                }
            }
        } else {
            let r = rank_of(shorter, x);
            assert forall|i: int| 0 <= i < r implies #[trigger] days[i] < x by {
                assert(shorter[i] < x);
            }
            assert forall|i: int| r <= i < days.len() implies #[trigger] days[i] >= x by {
                if i < days.len() - 1 {
                    assert(shorter[i] >= x);
                }
            }
        }
    }
}

/// A sorted sequence is parted by `x` at one position only.
pub proof fn lemma_parts_is_rank(days: Seq<i32>, x: int, position: int)
    requires
        strictly_increasing(days),
        parts_at(days, 0, days.len() as int, x, position),
    ensures
        position == rank_of(days, x),
{
    lemma_rank_parts(days, x);
    let r = rank_of(days, x);
    if position < r {
        assert(days[position] < x);
        assert(days[position] >= x);
    } else if r < position {
        assert(days[r] < x);
        assert(days[r] >= x);
    }
}

/// `x` occurs in a sorted sequence just where the entry at its rank is `x`, and the rank
/// of `x + 1` is then one more.
pub proof fn lemma_rank_step(days: Seq<i32>, x: int)
    requires
        strictly_increasing(days),
    ensures
        0 <= rank_of(days, x) <= days.len(),
        days_set(days).contains(x) <==> (rank_of(days, x) < days.len() && days[rank_of(days, x)]
            == x),
        rank_of(days, x + 1) == rank_of(days, x) + if days_set(days).contains(x) {
            1int
        } else {
            0int
        },
{
    lemma_rank_parts(days, x);
    let r = rank_of(days, x);
    if days_set(days).contains(x) {
        let i = choose|i: int| 0 <= i < days.len() && #[trigger] days[i] == x;
        if i < r {
            assert(days[i] < x);
        }
        if i > r {
            assert(days[r] >= x);
            assert(days[r] < days[i]);
        }
        assert(i == r);
    }
    if r < days.len() && days[r] == x {
        assert(days_set(days).contains(x));
        assert forall|i: int| 0 <= i < r + 1 implies #[trigger] days[i] < x + 1 by {
            if i < r {
                assert(days[i] < x);
            }
        }
        assert forall|i: int| r + 1 <= i < days.len() implies #[trigger] days[i] >= x + 1 by {
            assert(days[r] < days[i]);
        }
        lemma_parts_is_rank(days, x + 1, r + 1);
    } else {
        assert forall|i: int| 0 <= i < r implies #[trigger] days[i] < x + 1 by {
            assert(days[i] < x);
        }
        assert forall|i: int| r <= i < days.len() implies #[trigger] days[i] >= x + 1 by {
            assert(days[i] >= x);
            if days[i] == x {
                if i > r {
                    assert(days[r] < days[i]);
                }
            }
        }
        lemma_parts_is_rank(days, x + 1, r);
    }
}

/// Ranks grow with the date.
pub proof fn lemma_rank_monotone(days: Seq<i32>, x: int, y: int)
    requires
        strictly_increasing(days),
        x <= y,
    ensures
        0 <= rank_of(days, x) <= rank_of(days, y) <= days.len(),
{
    lemma_rank_parts(days, x);
    lemma_rank_parts(days, y);
    let rx = rank_of(days, x);
    let ry = rank_of(days, y);
    if ry < rx {
        assert(days[ry] < x);
        assert(days[ry] >= y);
    }
}

/// The members of a sorted sequence within `[lo, hi)` number the difference of the two
/// ranks.
pub proof fn lemma_members_between(days: Seq<i32>, lo: int, hi: int)
    requires
        strictly_increasing(days),
        lo <= hi,
    ensures
        count_in(member_pred(days_set(days)), lo, hi) == rank_of(days, hi) - rank_of(days, lo),
    decreases hi - lo,
{
    if lo < hi {
        lemma_members_between(days, lo, hi - 1);
        lemma_rank_step(days, hi - 1);
    }
}

/// Putting a new date in at its rank keeps a sorted sequence sorted and adds just that
/// date to its members.
pub proof fn lemma_insert_at_rank(days: Seq<i32>, x: i32, position: int)
    requires
        strictly_increasing(days),
        parts_at(days, 0, days.len() as int, x as int, position),
        !(position < days.len() && days[position] == x),
    ensures
        strictly_increasing(days.insert(position, x)),
        days_set(days.insert(position, x)) =~= days_set(days).insert(x as int),
{
    let longer = days.insert(position, x);
    assert forall|i: int, j: int| 0 <= i < j < longer.len() implies longer[i] < longer[j] by {
        if j < position {
            assert(days[i] < days[j]);
        } else if j == position {
            assert(days[i] < x);
        } else if i < position {
            assert(days[i] < x);
            assert(days[j - 1] >= x);
            if j - 1 > position {
                assert(days[position] < days[j - 1]);
            }
        } else if i == position {
            assert(days[j - 1] >= x);
            if j - 1 > position {
                assert(days[position] < days[j - 1]);
            }
        } else {
            assert(days[i - 1] < days[j - 1]);
        }
    }
    assert forall|d: int| days_set(longer).contains(d) implies days_set(days).insert(
        x as int,
    ).contains(d) by {
        let i = choose|i: int| 0 <= i < longer.len() && #[trigger] longer[i] == d;
        if i < position {
            assert(days[i] == d);
        } else if i > position {
            assert(days[i - 1] == d);
        }
    }
    assert forall|d: int| days_set(days).insert(x as int).contains(d) implies days_set(
        longer,
    ).contains(d) by {
        if d == x {
            assert(longer[position] == d);
        } else {
            let i = choose|i: int| 0 <= i < days.len() && #[trigger] days[i] == d;
            if i < position {
                assert(longer[i] == d);
            } else {
                assert(longer[i + 1] == d);
            }
        }
    }
}

/// Entries of a sorted sequence lie at least as far apart as their places.
pub proof fn lemma_sorted_gap(days: Seq<i32>, i: int, j: int)
    requires
        strictly_increasing(days),
        0 <= i <= j < days.len(),
    ensures
        days[j] - days[i] >= j - i,
    decreases j - i,
{
    if i < j {
        lemma_sorted_gap(days, i, j - 1);
        assert(days[j - 1] < days[j]);
    }
}

/// A sorted sequence of 32-bit ordinals has at most as many entries as there are ordinals.
pub proof fn lemma_sorted_len(days: Seq<i32>)
    requires
        strictly_increasing(days),
    ensures
        days.len() <= 0x1_0000_0000,
{
    if days.len() > 0 {
        lemma_sorted_gap(days, 0, days.len() - 1);
    }
}

/// A sorted set of day ordinals.
pub struct HolidaySet {
    days: Vec<i32>,
}

impl View for HolidaySet {
    type V = Set<int>;

    /// The dates in the set.
    closed spec fn view(&self) -> Set<int> {
        days_set(self.days@)
    }
}

impl HolidaySet {
    /// The dates of the set in ascending order.
    pub closed spec fn days(&self) -> Seq<i32> {
        self.days@
    }

    /// The dates stand in ascending order, none twice.
    pub closed spec fn wf(&self) -> bool {
        strictly_increasing(self.days@)
    }

    /// What the two views of a set have to do with each other.
    pub proof fn lemma_view(&self)
        requires
            self.wf(),
        ensures
            strictly_increasing(self.days()),
            self@ == days_set(self.days()),
            forall|d: int| #[trigger] self@.contains(d) ==> i32::MIN <= d <= i32::MAX,
    {
    }

    /// The set without dates.
    pub fn empty() -> (set: HolidaySet)
        ensures
            set.wf(),
            set.days() == Seq::<i32>::empty(),
            set@ == Set::<int>::empty(),
    {
        let set = HolidaySet { days: Vec::new() };
        assert(set@ =~= Set::<int>::empty());
        set
    }

    /// The set of those dates of `raw` whose weekday the mask leaves open: a holiday on a
    /// closed weekday is dropped, since that day is no business day anyway.
    pub fn build(raw: &Vec<i32>, weekmask: &[bool; 7]) -> (set: HolidaySet)
        ensures
            set.wf(),
            forall|d: int| #[trigger]
                set@.contains(d) <==> (exists|i: int| 0 <= i < raw.len() && #[trigger] raw[i] == d)
                    && weekmask@[weekday_of(d) - 1],
            set.days().len() <= raw.len(),
    {
        let mut days: Vec<i32> = Vec::new();
        let mut i: usize = 0;
        while i < raw.len()
            invariant
                i <= raw.len(),
                strictly_increasing(days@),
                days.len() <= i,
                forall|d: int| #[trigger]
                    days_set(days@).contains(d) <==> (exists|k: int|
                        0 <= k < i && #[trigger] raw[k] == d) && weekmask@[weekday_of(d) - 1],
            decreases raw.len() - i,
        {
            let x = raw[i];
            let w = weekday(x);
            let ghost before = days@;
            if weekmask[(w - 1) as usize] {
                let position = bisect(&days, 0, days.len(), x as i64);
                if !(position < days.len() && days[position] == x) {
                    proof {
                        lemma_insert_at_rank(before, x, position as int);
                    }
                    days.insert(position, x);
                } else {
                    assert(days_set(before).contains(x as int));
                }
            }
            proof {
                assert forall|d: int| #[trigger]
                    days_set(days@).contains(d) <==> (exists|k: int|
                        0 <= k < i + 1 && #[trigger] raw[k] == d) && weekmask@[weekday_of(d) - 1] by {
                    if days_set(days@).contains(d) {
                        if days_set(before).contains(d) {
                            let k = choose|k: int| 0 <= k < i && #[trigger] raw[k] == d;
                            assert(0 <= k < i + 1 && raw[k] == d);
                        } else {
                            assert(d == x);
                            assert(raw[i as int] == d);
                        }
                    }
                    if (exists|k: int| 0 <= k < i + 1 && #[trigger] raw[k] == d)
                        && weekmask@[weekday_of(d) - 1] {
                        let k = choose|k: int| 0 <= k < i + 1 && #[trigger] raw[k] == d;
                        if k < i {
                            assert(days_set(before).contains(d));
                        }
                    }
                }
            }
            i += 1;
        }
        HolidaySet { days }
    }

    /// The number of dates in the set.
    pub fn len(&self) -> (n: usize)
        ensures
            n == self.days().len(),
    {
        self.days.len()
    }

    /// The date at `index` in ascending order.
    pub fn get(&self, index: usize) -> (day: i32)
        requires
            index < self.days().len(),
        ensures
            day == self.days()[index as int],
    {
        self.days[index]
    }

    /// Where `x` parts the window of the dates from index `from` up to index `to`: the
    /// index of the first date there that is at least `x`, or `to`.
    pub fn lower_bound(&self, from: usize, to: usize, x: i64) -> (position: usize)
        requires
            self.wf(),
            from <= to <= self.days().len(),
        ensures
            parts_at(self.days(), from as int, to as int, x as int, position as int),
    {
        bisect(&self.days, from, to, x)
    }

    /// Whether the date at `index` in ascending order is `x`; no date is at an index from
    /// the number of dates on.
    pub fn is_at(&self, index: usize, x: i64) -> (found: bool)
        ensures
            found == (index < self.days().len() && self.days()[index as int] == x),
    {
        index < self.days.len() && self.days[index] as i64 == x
    }

    /// Whether `x` is in the set.
    pub fn contains(&self, x: i32) -> (found: bool)
        requires
            self.wf(),
        ensures
            found == self@.contains(x as int),
    {
        let position = bisect(&self.days, 0, self.days.len(), x as i64);
        proof {
            lemma_parts_is_rank(self.days@, x as int, position as int);
            lemma_rank_step(self.days@, x as int);
        }
        position < self.days.len() && self.days[position] == x
    }

    /// The number of dates of the set between `start` and `end`, both included, whichever
    /// of the two is the earlier.
    pub fn count_holidays(&self, start: i32, end: i32) -> (count: usize)
        requires
            self.wf(),
        ensures
            start <= end ==> count == count_in(member_pred(self@), start as int, end + 1),
            end < start ==> count == count_in(member_pred(self@), end as int, start + 1),
    {
        let (first, last) = if end >= start {
            (start, end)
        } else {
            (end, start)
        };
        let n = self.days.len();
        let low = bisect(&self.days, 0, n, first as i64);
        let high = bisect(&self.days, 0, n, last as i64 + 1);
        proof {
            lemma_parts_is_rank(self.days@, first as int, low as int);
            lemma_parts_is_rank(self.days@, last + 1, high as int);
            lemma_rank_monotone(self.days@, first as int, last + 1);
            lemma_members_between(self.days@, first as int, last + 1);
        }
        high - low
    }
}

/// Bisection in a window of a sorted vector.
fn bisect(days: &Vec<i32>, from: usize, to: usize, x: i64) -> (position: usize)
    requires
        strictly_increasing(days@),
        from <= to <= days.len(),
    ensures
        parts_at(days@, from as int, to as int, x as int, position as int),
{
    let mut low = from;
    let mut high = to;
    while low < high
        invariant
            from <= low <= high <= to <= days.len(),
            strictly_increasing(days@),
            forall|i: int| from <= i < low ==> #[trigger] days[i] < x,
            forall|i: int| high <= i < to ==> #[trigger] days[i] >= x,
        decreases high - low,
    {
        let mid = low + (high - low) / 2;
        if (days[mid] as i64) < x {
            assert forall|i: int| from <= i < mid + 1 implies #[trigger] days[i] < x by {
                if i < mid {
                    assert(days[i] < days[mid as int]);
                }
            }
            low = mid + 1;
        } else {
            assert forall|i: int| mid <= i < to implies #[trigger] days[i] >= x by {
                if i > mid {
                    assert(days[mid as int] < days[i]);
                }
            }
            high = mid;
        }
    }
    low
}

} // verus!
