//! Counting the business days between two dates.

use crate::calendar::Calendar;
use crate::counting::{count_in, lemma_count_split};
use crate::holidays::{lemma_members_between, lemma_parts_is_rank, lemma_rank_monotone};
use crate::model::{lemma_weeks_count, lemma_workdays_less_holidays, CalendarModel};
use crate::weekday::{lemma_weekday_step, weekday_of, weekday_wide};
use vstd::prelude::*;

verus! {

/// Whether the signed number of business days from `start` to `end` is a 32-bit number.
pub open spec fn count_fits(m: CalendarModel, start: int, end: int) -> bool {
    i32::MIN <= m.workday_count(start, end) <= i32::MAX
}

/// The signed number of business days from `start_date` to `end_date`, as a 64-bit
/// number, which it always fits. For `start_date <= end_date` these are the business days
/// from `start_date` up to the day before `end_date`; else the dates change places, both
/// move one day on, and the count is negated. Whole weeks count a week length each, the
/// holidays of the interval are found by bisection and taken off, and the days left over
/// are stepped through.
pub fn date_diff_wide(start_date: i32, end_date: i32, cal: &Calendar) -> (count: i64)
    requires
        cal.wf(),
    ensures
        count == cal@.workday_count(start_date as int, end_date as int),
        -0x1_0000_0000 <= count <= 0x1_0000_0000,
{
    let ghost m = cal@;
    let ghost q = m.open_weekday_pred();
    let holidays = cal.holidays();
    let ghost days = holidays.days();
    proof {
        cal.lemma_wf();
        holidays.lemma_view();
        crate::holidays::lemma_sorted_len(days);
    }
    let swapped = start_date > end_date;
    let (first, end) = if swapped {
        (end_date as i64 + 1, start_date as i64 + 1)
    } else {
        (start_date as i64, end_date as i64)
    };
    let len = holidays.len();
    let holidays_begin = holidays.lower_bound(0, len, first);
    let holidays_end = holidays.lower_bound(0, len, end);
    let n_weekdays = cal.n_weekdays();
    let mut start_weekday = weekday_wide(first);
    let diff = end - first;
    let whole_weeks = diff / 7;
    proof {
        lemma_parts_is_rank(days, first as int, holidays_begin as int);
        lemma_parts_is_rank(days, end as int, holidays_end as int);
        lemma_rank_monotone(days, first as int, end as int);
        lemma_members_between(days, first as int, end as int);
        lemma_workdays_less_holidays(m, first as int, end as int);
        lemma_weeks_count(m, first as int, whole_weeks as int);
        lemma_count_split(q, first as int, first + 7 * whole_weeks, end as int);
        assert(0 <= whole_weeks * n_weekdays <= whole_weeks * 7) by (nonlinear_arith)
            requires
                0 <= whole_weeks,
                0 <= n_weekdays <= 7,
        ;
        assert(weekday_of(first + 7 * whole_weeks) == weekday_of(first as int));
        assert(count_in(q, first + 7 * whole_weeks, first + 7 * whole_weeks) == 0);
    }
    let mut count: i64 = -((holidays_end - holidays_begin) as i64);
    count += whole_weeks * n_weekdays as i64;
    let mut date = first + whole_weeks * 7;
    let ghost base = count;
    let ghost from = date;
    while date < end
        invariant
            m == cal@,
            q == m.open_weekday_pred(),
            from <= date <= end,
            end - from < 7,
            -0x1_0000_0000 <= from,
            end <= 0x1_0000_0000,
            count == base + count_in(q, from as int, date as int),
            base <= count <= base + (date - from),
            -0x1_0000_0000 <= base <= 0x1_0000_0000,
            start_weekday == weekday_of(date as int),
        decreases end - date,
    {
        proof {
            lemma_weekday_step(date as int);
        }
        if cal.is_open(start_weekday) {
            count += 1;
        }
        date += 1;
        start_weekday += 1;
        if start_weekday > 7 {
            start_weekday = 1;
        }
    }
    proof {
        crate::counting::lemma_count_bounds(m.workday_pred(), first as int, end as int);
    }
    if swapped {
        -count
    } else {
        count
    }
}

/// The signed number of business days from `start_date` to `end_date`: see
/// [`date_diff_wide`].
pub fn date_diff(start_date: i32, end_date: i32, cal: &Calendar) -> (count: i32)
    requires
        cal.wf(),
        count_fits(cal@, start_date as int, end_date as int),
    ensures
        count == cal@.workday_count(start_date as int, end_date as int),
{
    date_diff_wide(start_date, end_date, cal) as i32
}

/// The signed number of business days from `start_date` to `end_date` if it is a 32-bit
/// number, and `None` if it is not.
pub fn checked_date_diff(start_date: i32, end_date: i32, cal: &Calendar) -> (count: Option<i32>)
    requires
        cal.wf(),
    ensures
        count is Some <==> count_fits(cal@, start_date as int, end_date as int),
        count is Some ==> count.unwrap() == cal@.workday_count(start_date as int, end_date as int),
{
    let wide = date_diff_wide(start_date, end_date, cal);
    if wide < i32::MIN as i64 || wide > i32::MAX as i64 {
        None
    } else {
        Some(wide as i32)
    }
}

} // verus!
