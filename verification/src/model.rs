//! The mathematical model of a business calendar: a week mask and a set of holidays.

use crate::counting::{
    count_in, lemma_count_bounds, lemma_count_difference, lemma_count_first, lemma_count_split,
    lemma_count_zero,
};
use crate::weekday::weekday_of;
use vstd::prelude::*;

verus! {

/// What to do with a start date that is not a business day.
#[derive(Clone, Copy, Debug, PartialEq, Eq, Structural)]
pub enum RollPolicy {
    /// Refuse the date.
    Raise,
    /// Take the first business day after it.
    Forward,
    /// Take the last business day before it.
    Backward,
}

/// A week mask and a set of holidays, as mathematical values.
#[verifier::ext_equal]
pub ghost struct CalendarModel {
    /// Entry `w - 1` says whether weekday `w` (Monday = 1) is open for business.
    pub weekmask: Seq<bool>,
    /// The holidays: days that are closed although their weekday is open.
    pub holidays: Set<int>,
}

impl CalendarModel {
    /// The mask has seven entries, and every holiday is a 32-bit ordinal on an open weekday.
    pub open spec fn wf(self) -> bool {
        &&& self.weekmask.len() == 7
        &&& forall|d: int| #[trigger]
            self.holidays.contains(d) ==> i32::MIN <= d <= i32::MAX && self.open_weekday(d)
    }

    /// Whether the weekday of `date` is open.
    pub open spec fn open_weekday(self, date: int) -> bool {
        self.weekmask[weekday_of(date) - 1]
    }

    /// Whether `date` is a business day: its weekday is open and it is no holiday.
    pub open spec fn is_workday(self, date: int) -> bool {
        self.open_weekday(date) && !self.holidays.contains(date)
    }

    /// The predicate "falls on an open weekday".
    pub open spec fn open_weekday_pred(self) -> spec_fn(int) -> bool {
        |d: int| self.open_weekday(d)
    }

    /// The predicate "is a holiday".
    pub open spec fn holiday_pred(self) -> spec_fn(int) -> bool {
        |d: int| self.holidays.contains(d)
    }

    /// The predicate "is a business day".
    pub open spec fn workday_pred(self) -> spec_fn(int) -> bool {
        |d: int| self.is_workday(d)
    }

    /// The number of business days `d` with `lo <= d < hi`.
    pub open spec fn workdays_in(self, lo: int, hi: int) -> int {
        count_in(self.workday_pred(), lo, hi)
    }

    /// The number of days `d` with `lo <= d < hi` whose weekday is open.
    pub open spec fn open_weekdays_in(self, lo: int, hi: int) -> int {
        count_in(self.open_weekday_pred(), lo, hi)
    }

    /// The number of holidays `d` with `lo <= d < hi`.
    pub open spec fn holidays_in(self, lo: int, hi: int) -> int {
        count_in(self.holiday_pred(), lo, hi)
    }

    /// The number of open weekdays in a week.
    pub open spec fn week_length(self) -> int {
        open_count(self.weekmask, 7)
    }

    /// `target` is the `n`-th business day after `start` (before it, for negative `n`);
    /// for `n == 0` it is `start` itself.
    pub open spec fn is_nth_workday_from(self, start: int, n: int, target: int) -> bool {
        if n > 0 {
            &&& start < target
            &&& self.is_workday(target)
            &&& self.workdays_in(start + 1, target + 1) == n
        } else if n < 0 {
            &&& target < start
            &&& self.is_workday(target)
            &&& self.workdays_in(target, start) == -n
        } else {
            target == start
        }
    }

    /// `start` is what `roll` makes of `date`: `date` itself under `Raise`, the first
    /// business day from `date` on under `Forward`, the last one up to `date` under `Backward`.
    pub open spec fn is_roll_of(self, roll: RollPolicy, date: int, start: int) -> bool {
        &&& self.is_workday(start)
        &&& match roll {
            RollPolicy::Raise => start == date,
            RollPolicy::Forward => date <= start && self.workdays_in(date, start) == 0,
            RollPolicy::Backward => start <= date && self.workdays_in(start + 1, date + 1) == 0,
        }
    }

    /// The date that `roll` makes of `date`.
    pub open spec fn roll_start(self, roll: RollPolicy, date: int) -> int {
        choose|start: int| self.is_roll_of(roll, date, start)
    }

    /// The `n`-th business day from `start`.
    pub open spec fn nth_workday_from(self, start: int, n: int) -> int {
        choose|target: int| self.is_nth_workday_from(start, n, target)
    }

    /// Where advancing `date` by `n` business days arrives: nowhere if `date` is no business
    /// day and the policy is `Raise`, else the `n`-th business day from the rolled date.
    pub open spec fn advance_target(self, roll: RollPolicy, date: int, n: int) -> Option<int> {
        if roll == RollPolicy::Raise && !self.is_workday(date) {
            None
        } else {
            Some(self.nth_workday_from(self.roll_start(roll, date), n))
        }
    }

    /// The signed number of business days from `start` to `end`: those in `[start, end)`
    /// where `start <= end`, else minus those in `(end, start]`.
    pub open spec fn workday_count(self, start: int, end: int) -> int {
        if start <= end {
            self.workdays_in(start, end)
        } else {
            -self.workdays_in(end + 1, start + 1)
        }
    }
}

/// The number of open weekdays among the first `upto` entries of a week mask.
pub open spec fn open_count(weekmask: Seq<bool>, upto: int) -> int
    decreases upto,
{
    if upto <= 0 {
        0
    } else {
        open_count(weekmask, upto - 1) + if weekmask[upto - 1] { 1int } else { 0int }
    }
}

/// Any seven days in a row hold each weekday once, so as many open weekdays as the week has.
#[verifier::rlimit(30)]
pub proof fn lemma_week_count(m: CalendarModel, lo: int)
    requires
        m.weekmask.len() == 7,
    ensures
        m.open_weekdays_in(lo, lo + 7) == m.week_length(),
        0 <= m.week_length() <= 7,
{
    reveal_with_fuel(count_in, 8);
    reveal_with_fuel(open_count, 8);
    let p = m.open_weekday_pred();
    let c = (lo - 4) % 7;
    assert(weekday_of(lo) - 1 == c);
    assert(weekday_of(lo + 1) - 1 == (c + 1) % 7);
    assert(weekday_of(lo + 2) - 1 == (c + 2) % 7);
    assert(weekday_of(lo + 3) - 1 == (c + 3) % 7);
    assert(weekday_of(lo + 4) - 1 == (c + 4) % 7);
    assert(weekday_of(lo + 5) - 1 == (c + 5) % 7);
    assert(weekday_of(lo + 6) - 1 == (c + 6) % 7);
    assert(p(lo) == m.weekmask[c]);
    assert(p(lo + 1) == m.weekmask[(c + 1) % 7]);
    assert(p(lo + 2) == m.weekmask[(c + 2) % 7]);
    assert(p(lo + 3) == m.weekmask[(c + 3) % 7]);
    assert(p(lo + 4) == m.weekmask[(c + 4) % 7]);
    assert(p(lo + 5) == m.weekmask[(c + 5) % 7]);
    assert(p(lo + 6) == m.weekmask[(c + 6) % 7]);
}

/// Whole weeks hold a whole number of week lengths of open weekdays.
pub proof fn lemma_weeks_count(m: CalendarModel, lo: int, weeks: int)
    requires
        m.weekmask.len() == 7,
        0 <= weeks,
    ensures
        m.open_weekdays_in(lo, lo + 7 * weeks) == weeks * m.week_length(),
    decreases weeks,
{
    if weeks > 0 {
        lemma_weeks_count(m, lo, weeks - 1);
        lemma_week_count(m, lo + 7 * (weeks - 1));
        lemma_count_split(m.open_weekday_pred(), lo, lo + 7 * (weeks - 1), lo + 7 * weeks);
        assert(weeks * m.week_length() == (weeks - 1) * m.week_length() + m.week_length())
            by (nonlinear_arith);
    } else {
        assert(0 * m.week_length() == 0);
    }
}

/// The business days of an interval are its open weekdays less its holidays.
pub proof fn lemma_workdays_less_holidays(m: CalendarModel, lo: int, hi: int)
    requires
        m.wf(),
    ensures
        m.workdays_in(lo, hi) == m.open_weekdays_in(lo, hi) - m.holidays_in(lo, hi),
{
    let p = m.workday_pred();
    let q = m.open_weekday_pred();
    let r = m.holiday_pred();
    assert forall|d: int| lo <= d < hi implies #[trigger] p(d) == (q(d) && !r(d)) by {}
    assert forall|d: int| lo <= d < hi && #[trigger] r(d) implies q(d) by {
        assert(m.holidays.contains(d));
    }
    lemma_count_difference(p, q, r, lo, hi);
}

/// A calendar with a business day has an open weekday.
pub proof fn lemma_open_weekday_counts(m: CalendarModel, date: int)
    requires
        m.weekmask.len() == 7,
        m.open_weekday(date),
    ensures
        1 <= m.week_length() <= 7,
{
    reveal_with_fuel(open_count, 8);
}

/// The first business day from `lo` on, where a later business day `hi` is known.
proof fn lemma_first_workday_upto(m: CalendarModel, lo: int, hi: int) -> (t: int)
    requires
        lo <= hi,
        m.is_workday(hi),
    ensures
        lo <= t <= hi,
        m.is_workday(t),
        m.workdays_in(lo, t) == 0,
    decreases hi - lo,
{
    if m.is_workday(lo) {
        lo
    } else {
        let t = lemma_first_workday_upto(m, lo + 1, hi);
        lemma_count_first(m.workday_pred(), lo, t);
        t
    }
}

/// The last business day up to `hi`, where an earlier business day `lo` is known.
proof fn lemma_last_workday_downto(m: CalendarModel, lo: int, hi: int) -> (t: int)
    requires
        lo <= hi,
        m.is_workday(lo),
    ensures
        lo <= t <= hi,
        m.is_workday(t),
        m.workdays_in(t + 1, hi + 1) == 0,
    decreases hi - lo,
{
    if m.is_workday(hi) {
        hi
    } else {
        let t = lemma_last_workday_downto(m, lo, hi - 1);
        t
    }
}

/// Some day of any seven in a row has an open weekday, if the week has one.
proof fn lemma_open_weekday_in_week(m: CalendarModel, lo: int) -> (t: int)
    requires
        m.weekmask.len() == 7,
        m.week_length() >= 1,
    ensures
        lo <= t < lo + 7,
        m.open_weekday(t),
{
    lemma_week_count(m, lo);
    lemma_count_zero(m.open_weekday_pred(), lo, lo + 7);
    let p = m.open_weekday_pred();
    let t = choose|d: int| lo <= d < lo + 7 && #[trigger] p(d);
    t
}

/// From any date on there is a first business day, in a calendar whose week has an open
/// weekday.
pub proof fn lemma_first_workday_from(m: CalendarModel, date: int) -> (t: int)
    requires
        m.wf(),
        m.week_length() >= 1,
    ensures
        date <= t,
        m.is_workday(t),
        m.workdays_in(date, t) == 0,
        date <= i32::MAX ==> t <= i32::MAX + 7,
        date > i32::MAX ==> t < date + 7,
{
    let beyond: int = if date > i32::MAX { date } else { i32::MAX + 1 };
    let far = lemma_open_weekday_in_week(m, beyond);
    lemma_first_workday_upto(m, date, far)
}

/// Up to any date there is a last business day, in a calendar whose week has an open
/// weekday.
pub proof fn lemma_last_workday_upto(m: CalendarModel, date: int) -> (t: int)
    requires
        m.wf(),
        m.week_length() >= 1,
    ensures
        t <= date,
        m.is_workday(t),
        m.workdays_in(t + 1, date + 1) == 0,
        date >= i32::MIN ==> t >= i32::MIN - 7,
        date < i32::MIN ==> t > date - 7,
{
    let beyond: int = if date < i32::MIN { date } else { i32::MIN - 1 };
    let far = lemma_open_weekday_in_week(m, beyond - 6);
    lemma_last_workday_downto(m, far, date)
}

/// Every start has an `n`-th business day, in a calendar whose week has an open weekday.
pub proof fn lemma_nth_workday_exists(m: CalendarModel, start: int, n: int) -> (t: int)
    requires
        m.wf(),
        m.week_length() >= 1,
    ensures
        m.is_nth_workday_from(start, n, t),
    decreases
            if n >= 0 {
                n
            } else {
                -n
            },
{
    let p = m.workday_pred();
    if n == 0 {
        start
    } else if n > 0 {
        let before = lemma_nth_workday_exists(m, start, n - 1);
        let t = lemma_first_workday_from(m, before + 1);
        lemma_count_split(p, start + 1, before + 1, t + 1);
        assert(m.workdays_in(before + 1, t + 1) == m.workdays_in(before + 1, t) + 1);
        assert(m.workdays_in(start + 1, start + 1) == 0);
        t
    } else {
        let after = lemma_nth_workday_exists(m, start, n + 1);
        let t = lemma_last_workday_upto(m, after - 1);
        lemma_count_split(p, t, after, start);
        lemma_count_first(p, t, after);
        assert(m.workdays_in(start, start) == 0);
        t
    }
}

/// A start has at most one `n`-th business day.
pub proof fn lemma_nth_workday_unique(m: CalendarModel, start: int, n: int, t1: int, t2: int)
    requires
        m.is_nth_workday_from(start, n, t1),
        m.is_nth_workday_from(start, n, t2),
    ensures
        t1 == t2,
{
    let p = m.workday_pred();
    if n > 0 {
        if t1 < t2 {
            lemma_count_split(p, start + 1, t1 + 1, t2 + 1);
            lemma_count_bounds(p, t1 + 1, t2);
            assert(m.workdays_in(t1 + 1, t2 + 1) == m.workdays_in(t1 + 1, t2) + 1);
        } else if t2 < t1 {
            lemma_count_split(p, start + 1, t2 + 1, t1 + 1);
            lemma_count_bounds(p, t2 + 1, t1);
            assert(m.workdays_in(t2 + 1, t1 + 1) == m.workdays_in(t2 + 1, t1) + 1);
        }
    } else if n < 0 {
        if t1 < t2 {
            lemma_count_split(p, t1, t2, start);
            lemma_count_first(p, t1, t2);
            lemma_count_bounds(p, t1 + 1, t2);
        } else if t2 < t1 {
            lemma_count_split(p, t2, t1, start);
            lemma_count_first(p, t2, t1);
            lemma_count_bounds(p, t2 + 1, t1);
        }
    }
}

/// The `n`-th business day from `start` is `t` where `t` fits its description.
pub proof fn lemma_nth_workday_is(m: CalendarModel, start: int, n: int, t: int)
    requires
        m.is_nth_workday_from(start, n, t),
    ensures
        m.nth_workday_from(start, n) == t,
{
    lemma_nth_workday_unique(m, start, n, t, m.nth_workday_from(start, n));
}

/// A date has at most one rolled start under a policy.
pub proof fn lemma_roll_unique(m: CalendarModel, roll: RollPolicy, date: int, s1: int, s2: int)
    requires
        m.is_roll_of(roll, date, s1),
        m.is_roll_of(roll, date, s2),
    ensures
        s1 == s2,
{
    let p = m.workday_pred();
    match roll {
        RollPolicy::Raise => {},
        RollPolicy::Forward => {
            lemma_count_zero(p, date, s1);
            lemma_count_zero(p, date, s2);
            if s1 < s2 {
                assert(p(s1));
            } else if s2 < s1 {
                assert(p(s2));
            }
        },
        RollPolicy::Backward => {
            lemma_count_zero(p, s1 + 1, date + 1);
            lemma_count_zero(p, s2 + 1, date + 1);
            if s1 < s2 {
                assert(p(s2));
            } else if s2 < s1 {
                assert(p(s1));
            }
        },
    }
}

/// The rolled start of `date` is `start` where `start` fits its description.
pub proof fn lemma_roll_is(m: CalendarModel, roll: RollPolicy, date: int, start: int)
    requires
        m.is_roll_of(roll, date, start),
    ensures
        m.roll_start(roll, date) == start,
{
    lemma_roll_unique(m, roll, date, start, m.roll_start(roll, date));
}

/// A business day is its own rolled start, whatever the policy.
pub proof fn lemma_roll_of_workday(m: CalendarModel, roll: RollPolicy, date: int)
    requires
        m.is_workday(date),
    ensures
        m.is_roll_of(roll, date, date),
        m.roll_start(roll, date) == date,
{
    assert(m.workdays_in(date, date) == 0);
    assert(m.workdays_in(date + 1, date + 1) == 0);
    lemma_roll_is(m, roll, date, date);
}

/// In a calendar whose week has an open weekday, `Forward` and `Backward` find a start for
/// every date.
pub proof fn lemma_roll_exists(m: CalendarModel, roll: RollPolicy, date: int) -> (start: int)
    requires
        m.wf(),
        m.week_length() >= 1,
        roll != RollPolicy::Raise || m.is_workday(date),
    ensures
        m.is_roll_of(roll, date, start),
{
    match roll {
        RollPolicy::Raise => {
            lemma_roll_of_workday(m, roll, date);
            date
        },
        RollPolicy::Forward => lemma_first_workday_from(m, date),
        RollPolicy::Backward => lemma_last_workday_upto(m, date),
    }
}

/// What the target of an advance is: the `n`-th business day from the start that the
/// policy makes of the date. There is none just where the date is no business day and the
/// policy is to raise.
pub proof fn lemma_advance_target(m: CalendarModel, roll: RollPolicy, date: int, n: int)
    requires
        m.wf(),
        roll != RollPolicy::Raise ==> m.week_length() >= 1,
    ensures
        m.advance_target(roll, date, n) is None <==> roll == RollPolicy::Raise && !m.is_workday(
            date,
        ),
        m.advance_target(roll, date, n) matches Some(target) ==> {
            &&& m.is_roll_of(roll, date, m.roll_start(roll, date))
            &&& m.is_nth_workday_from(m.roll_start(roll, date), n, target)
            &&& n != 0 ==> m.is_workday(target)
        },
{
    if !(roll == RollPolicy::Raise && !m.is_workday(date)) {
        if roll == RollPolicy::Raise {
            lemma_open_weekday_counts(m, date);
        }
        let start = lemma_roll_exists(m, roll, date);
        lemma_roll_is(m, roll, date, start);
        let target = lemma_nth_workday_exists(m, start, n);
        lemma_nth_workday_is(m, start, n, target);
    }
}

/// Advancing a business day by no days leaves it where it is.
pub proof fn lemma_advance_by_zero(m: CalendarModel, roll: RollPolicy, date: int)
    requires
        m.is_workday(date),
    ensures
        m.advance_target(roll, date, 0) == Some(date),
{
    lemma_roll_of_workday(m, roll, date);
    lemma_nth_workday_is(m, date, 0, date);
}

/// If `target` is the `n`-th business day from a business day `start`, then `start` is the
/// `-n`-th business day from `target`.
pub proof fn lemma_nth_workday_back(m: CalendarModel, start: int, n: int, target: int)
    requires
        m.is_workday(start),
        m.is_nth_workday_from(start, n, target),
    ensures
        m.is_nth_workday_from(target, -n, start),
{
    let p = m.workday_pred();
    if n > 0 {
        lemma_count_first(p, start, target + 1);
        assert(m.workdays_in(start, target + 1) == m.workdays_in(start, target) + 1);
    } else if n < 0 {
        lemma_count_first(p, target, start + 1);
        assert(m.workdays_in(target, start + 1) == m.workdays_in(target, start) + 1);
    }
}

/// Advancing a business day by `n` business days and the result by `-n` comes back to it,
/// holidays in between or not.
pub proof fn lemma_advance_there_and_back(m: CalendarModel, date: int, n: int)
    requires
        m.wf(),
        m.is_workday(date),
    ensures
        m.advance_target(RollPolicy::Raise, date, n) is Some,
        m.is_workday(m.advance_target(RollPolicy::Raise, date, n).unwrap()),
        m.advance_target(
            RollPolicy::Raise,
            m.advance_target(RollPolicy::Raise, date, n).unwrap(),
            -n,
        ) == Some(date),
{
    lemma_open_weekday_counts(m, date);
    lemma_roll_of_workday(m, RollPolicy::Raise, date);
    let t = lemma_nth_workday_exists(m, date, n);
    lemma_nth_workday_is(m, date, n, t);
    lemma_nth_workday_back(m, date, n, t);
    lemma_nth_workday_is(m, t, -n, date);
    lemma_roll_of_workday(m, RollPolicy::Raise, t);
}

/// Counting from a business day to the `n`-th business day from it gives `n`.
pub proof fn lemma_count_to_nth_workday(m: CalendarModel, start: int, n: int, target: int)
    requires
        m.is_workday(start),
        m.is_nth_workday_from(start, n, target),
    ensures
        m.workday_count(start, target) == n,
{
    let p = m.workday_pred();
    if n > 0 {
        lemma_count_first(p, start, target + 1);
        assert(m.workdays_in(start, target + 1) == m.workdays_in(start, target) + 1);
    } else if n < 0 {
        lemma_count_first(p, target, start + 1);
        assert(m.workdays_in(target, start + 1) == m.workdays_in(target, start) + 1);
    } else {
        assert(m.workdays_in(start, start) == 0);
    }
}

/// Counting from `a` to `b` is minus counting from `b` to `a`, where both are business
/// days or neither is.
pub proof fn lemma_workday_count_antisymmetric(m: CalendarModel, a: int, b: int)
    requires
        m.is_workday(a) == m.is_workday(b),
    ensures
        m.workday_count(a, b) == -m.workday_count(b, a),
{
    let p = m.workday_pred();
    if a < b {
        lemma_count_first(p, a, b + 1);
        assert(m.workdays_in(a, b + 1) == m.workdays_in(a, b) + if p(b) { 1int } else { 0int });
    } else if b < a {
        lemma_count_first(p, b, a + 1);
        assert(m.workdays_in(b, a + 1) == m.workdays_in(b, a) + if p(a) { 1int } else { 0int });
    } else {
        assert(m.workdays_in(a, a) == 0);
    }
}

/// Counting from `a` to `b` and from `b` to `a` differ from each other's negation by one
/// where just one of the two is a business day.
pub proof fn lemma_workday_count_reversed(m: CalendarModel, a: int, b: int)
    requires
        a < b,
    ensures
        m.workday_count(a, b) + m.workday_count(b, a) == (if m.is_workday(a) { 1int } else { 0int })
            - (if m.is_workday(b) { 1int } else { 0int }),
{
    let p = m.workday_pred();
    lemma_count_first(p, a, b + 1);
    assert(m.workdays_in(a, b + 1) == m.workdays_in(a, b) + if p(b) { 1int } else { 0int });
}

/// Among consecutive days whose weekdays are all closed there are at most six, where the
/// week has an open weekday.
pub proof fn lemma_closed_run(m: CalendarModel, from: int, to: int)
    requires
        m.weekmask.len() == 7,
        m.week_length() >= 1,
        forall|d: int| from <= d < to ==> !#[trigger] m.open_weekday(d),
    ensures
        to - from <= 6,
{
    if to - from >= 7 {
        let t = lemma_open_weekday_in_week(m, from);
        assert(m.open_weekday(t));
    }
}

/// The business days after a business day `start` up to the same weekday `weeks` weeks
/// later, in a calendar without holidays in between.
pub proof fn lemma_whole_weeks_ahead(m: CalendarModel, start: int, weeks: int)
    requires
        m.wf(),
        0 <= weeks,
    ensures
        m.workdays_in(start + 1, start + 7 * weeks + 1) == weeks * m.week_length()
            - m.holidays_in(start + 1, start + 7 * weeks + 1),
        m.open_weekday(start + 7 * weeks) == m.open_weekday(start),
{
    lemma_workdays_less_holidays(m, start + 1, start + 7 * weeks + 1);
    lemma_weeks_count(m, start + 1, weeks);
}

/// The business days from the same weekday `weeks` weeks before `start` up to `start`,
/// `start` left out.
pub proof fn lemma_whole_weeks_back(m: CalendarModel, start: int, weeks: int)
    requires
        m.wf(),
        0 <= weeks,
    ensures
        m.workdays_in(start - 7 * weeks, start) == weeks * m.week_length() - m.holidays_in(
            start - 7 * weeks,
            start,
        ),
        m.open_weekday(start - 7 * weeks) == m.open_weekday(start),
{
    lemma_workdays_less_holidays(m, start - 7 * weeks, start);
    lemma_weeks_count(m, start - 7 * weeks, weeks);
}

} // verus!
