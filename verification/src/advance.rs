//! Advancing a date by a number of business days.

use crate::calendar::Calendar;
use crate::counting::{count_in, lemma_count_zero};
use crate::error::Error;
use crate::holidays::{
    lemma_members_between, lemma_parts_is_rank, lemma_rank_step, lemma_sorted_len, rank_of,
    strictly_increasing, HolidaySet,
};
use crate::model::{
    lemma_closed_run, lemma_nth_workday_is, lemma_open_weekday_counts, lemma_roll_is,
    lemma_roll_of_workday, lemma_whole_weeks_ahead, lemma_whole_weeks_back, CalendarModel,
    RollPolicy,
};
use crate::offset_cache::{
    calculate_n_days_without_holidays_fast, calculate_n_days_without_holidays_slow,
    default_weekmask, fast_modulo, lemma_offset_applies, split_weeks,
};
use crate::weekday::{lemma_weekday_step, weekday, weekday_of};
use vstd::prelude::*;

verus! {

/// Whether advancing `date` by `n` business days arrives at a 32-bit ordinal, if anywhere.
pub open spec fn advance_fits(m: CalendarModel, roll: RollPolicy, date: int, n: int) -> bool {
    match m.advance_target(roll, date, n) {
        Some(target) => i32::MIN <= target <= i32::MAX,
        None => true,
    }
}

/// What the calculations below know of a calendar and the sorted dates of its holidays.
spec fn sorted_holidays(m: CalendarModel, set: &HolidaySet) -> bool {
    &&& m.wf()
    &&& set.wf()
    &&& set@ == m.holidays
    &&& strictly_increasing(set.days())
    &&& m.holidays == crate::holidays::days_set(set.days())
    &&& set.days().len() <= 0x1_0000_0000
}

proof fn lemma_sorted_holidays(cal: &Calendar, set: &HolidaySet)
    requires
        cal.wf(),
        set.wf(),
        set@ == cal@.holidays,
    ensures
        sorted_holidays(cal@, set),
{
    cal.lemma_wf();
    set.lemma_view();
    lemma_sorted_len(set.days());
}

/// The roll phase: the start that the policy makes of `date`, with its weekday. A business
/// day is its own start; any other date is refused under `Raise`, and else stepped
/// forward or backward day by day until a business day is reached.
pub fn roll_phase(date: i32, cal: &Calendar, policy: RollPolicy) -> (res: Result<(i64, i32), Error>)
    requires
        cal.wf(),
        policy != RollPolicy::Raise ==> cal@.week_length() >= 1,
    ensures
        match res {
            Ok((start, w)) => {
                &&& cal@.is_roll_of(policy, date as int, start as int)
                &&& cal@.roll_start(policy, date as int) == start
                &&& w == weekday_of(start as int)
                &&& i32::MIN - 7 <= start <= i32::MAX + 7
                &&& policy == RollPolicy::Raise ==> cal@.is_workday(date as int)
            },
            Err(e) => policy == RollPolicy::Raise && !cal@.is_workday(date as int) && e
                == (Error::Calendar { date }),
        },
{
    let ghost m = cal@;
    let ghost p = m.workday_pred();
    let holidays = cal.holidays();
    let ghost days = holidays.days();
    proof {
        lemma_sorted_holidays(cal, holidays);
    }
    let len = holidays.len();
    let mut d: i64 = date as i64;
    let mut w: i32 = weekday(date);
    let at = holidays.lower_bound(0, len, d);
    proof {
        lemma_parts_is_rank(days, d as int, at as int);
        lemma_rank_step(days, d as int);
    }
    let mut open = cal.is_open(w) && !holidays.is_at(at, d);
    if open {
        proof {
            lemma_roll_of_workday(m, policy, date as int);
        }
        return Ok((d, w));
    }
    let ghost mut run: int = 0;
    match policy {
        RollPolicy::Raise => Err(Error::Calendar { date }),
        RollPolicy::Forward => {
            let mut begin = at;
            assert(count_in(p, date as int, date as int) == 0);
            while !open
                invariant
                    sorted_holidays(m, holidays),
                    m == cal@,
                    p == m.workday_pred(),
                    days == holidays.days(),
                    len == days.len(),
                    m.week_length() >= 1,
                    begin == rank_of(days, d as int),
                    begin <= len,
                    open == m.is_workday(d as int),
                    w == weekday_of(d as int),
                    date <= d,
                    count_in(p, date as int, d as int) == 0,
                    0 <= run <= 6,
                    d - run <= i32::MAX + 1,
                    forall|j: int| d - run <= j < d ==> !#[trigger] m.open_weekday(j),
                decreases 7 * (len - begin) + 7 - run,
            {
                proof {
                    lemma_rank_step(days, d as int);
                    lemma_weekday_step(d as int);
                }
                if holidays.is_at(begin, d) {
                    begin += 1;
                    proof {
                        run = 0;
                    }
                } else {
                    proof {
                        run = run + 1;
                        lemma_closed_run(m, d + 1 - run, d + 1);
                    }
                }
                d += 1;
                w = fast_modulo(w, 1);
                proof {
                    lemma_rank_step(days, d as int);
                }
                open = cal.is_open(w) && !holidays.is_at(begin, d);
            }
            proof {
                lemma_roll_is(m, policy, date as int, d as int);
            }
            Ok((d, w))
        },
        RollPolicy::Backward => {
            // the holidays before index `end` are those before `d`
            let mut end = at;
            assert(count_in(p, date + 1, date + 1) == 0);
            while !open
                invariant
                    sorted_holidays(m, holidays),
                    m == cal@,
                    p == m.workday_pred(),
                    days == holidays.days(),
                    len == days.len(),
                    m.week_length() >= 1,
                    end == rank_of(days, d as int),
                    0 <= end <= len,
                    open == m.is_workday(d as int),
                    w == weekday_of(d as int),
                    d <= date,
                    count_in(p, d + 1, date + 1) == 0,
                    0 <= run <= 6,
                    d + run >= i32::MIN - 1,
                    forall|j: int| d < j <= d + run ==> !#[trigger] m.open_weekday(j),
                decreases 7 * rank_of(days, d + 1) + 7 - run,
            {
                proof {
                    lemma_rank_step(days, d as int);
                    lemma_rank_step(days, d - 1);
                    lemma_weekday_step(d as int);
                    crate::counting::lemma_count_first(p, d as int, date + 1);
                    if m.holidays.contains(d as int) {
                        run = 0;
                    } else {
                        run = run + 1;
                        lemma_closed_run(m, d as int, d + run);
                    }
                }
                d -= 1;
                w = fast_modulo(w, -1);
                let is_holiday = end > 0 && holidays.is_at(end - 1, d);
                if is_holiday {
                    end -= 1;
                }
                open = cal.is_open(w) && !is_holiday;
            }
            proof {
                lemma_roll_is(m, policy, date as int, d as int);
            }
            Ok((d, w))
        },
    }
}

/// The offset phase for a positive offset: the holidays not yet passed are those from
/// the start on, and the window of them shrinks from its front.
fn advance_forward(start: i64, day_of_week: i32, offset: i32, cal: &Calendar) -> (date: i64)
    requires
        cal.wf(),
        cal@.is_workday(start as int),
        day_of_week == weekday_of(start as int),
        -0x100_0000_0000 <= start <= 0x100_0000_0000,
        0 < offset,
    ensures
        cal@.is_nth_workday_from(start as int, offset as int, date as int),
        cal@.nth_workday_from(start as int, offset as int) == date,
{
    let ghost m = cal@;
    let ghost p = m.workday_pred();
    let holidays = cal.holidays();
    let ghost days = holidays.days();
    proof {
        lemma_sorted_holidays(cal, holidays);
        lemma_open_weekday_counts(m, start as int);
    }
    let len = holidays.len();
    let n_weekdays = cal.n_weekdays();
    let (weeks, rest) = split_weeks(offset, n_weekdays);
    let mut date: i64 = start + weeks as i64 * 7;
    let mut w = day_of_week;
    let ghost mut run: int = 0;
    proof {
        lemma_rank_step(days, start as int);
        assert(weekday_of(date as int) == weekday_of(start as int));
    }
    let holidays_begin = holidays.lower_bound(0, len, start);
    let holidays_temp = holidays.lower_bound(holidays_begin, len, date + 1);
    proof {
        lemma_parts_is_rank(days, start as int, holidays_begin as int);
        assert forall|i: int| 0 <= i < holidays_temp implies #[trigger] days[i] < date + 1 by {
            if i < holidays_begin {
                assert(days[i] < start);
            }
        }
        lemma_parts_is_rank(days, date + 1, holidays_temp as int);
        lemma_members_between(days, start + 1, date + 1);
        lemma_whole_weeks_ahead(m, start as int, weeks as int);
        lemma_count_zero(m.holiday_pred(), start + 1, date + 1);
        if rest == 0 && holidays_temp == holidays_begin {
            assert(weeks >= 1);
            assert(!(m.holiday_pred())(date as int));
        }
        assert(weeks * n_weekdays >= 0) by (nonlinear_arith)
            requires
                weeks >= 0,
                n_weekdays >= 1,
        ;
    }
    let mut left: i64 = rest as i64 + (holidays_temp - holidays_begin) as i64;
    let mut begin = holidays_temp;
    while left > 0
        invariant
            sorted_holidays(m, holidays),
            m == cal@,
            p == m.workday_pred(),
            days == holidays.days(),
            len == days.len(),
            m.week_length() >= 1,
            begin == rank_of(days, date + 1),
            begin <= len,
            0 <= left,
            0 < offset,
            start <= date,
            count_in(p, start + 1, date + 1) + left == offset,
            left == 0 ==> m.is_workday(date as int) && start < date,
            w == weekday_of(date as int),
            0 <= run <= 6,
            forall|j: int| date - run < j <= date ==> !#[trigger] m.open_weekday(j),
            date - run + 7 * (left + len - begin) <= 0x1000_0000_0000,
        decreases 7 * (left + len - begin) - run,
    {
        proof {
            lemma_weekday_step(date as int);
            lemma_rank_step(days, date + 1);
        }
        date += 1;
        w = fast_modulo(w, 1);
        if cal.is_open(w) {
            if holidays.is_at(begin, date) {
                begin += 1;
            } else {
                left -= 1;
            }
            proof {
                run = 0;
            }
        } else {
            proof {
                run = run + 1;
                lemma_closed_run(m, date + 1 - run, date + 1);
            }
        }
    }
    proof {
        lemma_nth_workday_is(m, start as int, offset as int, date as int);
    }
    date
}

/// The offset phase for an offset that is not positive: the holidays not yet passed are
/// those before the start, and the window of them shrinks from its back.
fn advance_backward(start: i64, day_of_week: i32, offset: i32, cal: &Calendar) -> (date: i64)
    requires
        cal.wf(),
        cal@.is_workday(start as int),
        day_of_week == weekday_of(start as int),
        -0x100_0000_0000 <= start <= 0x100_0000_0000,
        offset <= 0,
    ensures
        cal@.is_nth_workday_from(start as int, offset as int, date as int),
        cal@.nth_workday_from(start as int, offset as int) == date,
{
    let ghost m = cal@;
    let ghost p = m.workday_pred();
    let holidays = cal.holidays();
    let ghost days = holidays.days();
    proof {
        lemma_sorted_holidays(cal, holidays);
        lemma_open_weekday_counts(m, start as int);
    }
    let len = holidays.len();
    let n_weekdays = cal.n_weekdays();
    let (weeks, rest) = split_weeks(offset, n_weekdays);
    let mut date: i64 = start + weeks as i64 * 7;
    let mut w = day_of_week;
    let ghost mut run: int = 0;
    proof {
        lemma_rank_step(days, start as int);
        assert(weekday_of(date as int) == weekday_of(start as int));
    }
    let holidays_end = holidays.lower_bound(0, len, start);
    let holidays_temp = holidays.lower_bound(0, holidays_end, date);
    proof {
        lemma_parts_is_rank(days, start as int, holidays_end as int);
        assert forall|i: int| holidays_temp <= i < len implies #[trigger] days[i] >= date by {
            if i >= holidays_end {
                assert(days[i] >= start);
            }
        }
        lemma_parts_is_rank(days, date as int, holidays_temp as int);
        lemma_members_between(days, date as int, start as int);
        lemma_whole_weeks_back(m, start as int, -weeks);
        lemma_count_zero(m.holiday_pred(), date as int, start as int);
        if offset < 0 && rest == 0 && holidays_temp == holidays_end {
            assert(weeks <= -1);
            assert(!(m.holiday_pred())(date as int));
        }
        assert(weeks * n_weekdays <= 0 && (-weeks) * n_weekdays == -(weeks * n_weekdays))
            by (nonlinear_arith)
            requires
                weeks <= 0,
                n_weekdays >= 1,
        ;
    }
    // the number of business days still to go back
    let mut left: i64 = (holidays_end - holidays_temp) as i64 - rest as i64;
    let mut end = holidays_temp;
    while left > 0
        invariant
            sorted_holidays(m, holidays),
            m == cal@,
            p == m.workday_pred(),
            days == holidays.days(),
            len == days.len(),
            m.week_length() >= 1,
            end == rank_of(days, date as int),
            0 <= end <= len,
            0 <= left,
            offset <= 0,
            date <= start,
            count_in(p, date as int, start as int) + left == -offset,
            left == 0 && offset < 0 ==> m.is_workday(date as int) && date < start,
            offset == 0 ==> date == start && left == 0,
            w == weekday_of(date as int),
            0 <= run <= 6,
            forall|j: int| date <= j < date + run ==> !#[trigger] m.open_weekday(j),
            -0x1000_0000_0000 <= date + run - 7 * (left + end),
        decreases 7 * (left + end) - run,
    {
        proof {
            lemma_weekday_step(date as int);
            lemma_rank_step(days, date - 1);
            crate::counting::lemma_count_first(p, date - 1, start as int);
        }
        date -= 1;
        w = fast_modulo(w, -1);
        if cal.is_open(w) {
            if end > 0 && holidays.is_at(end - 1, date) {
                end -= 1;
            } else {
                left -= 1;
            }
            proof {
                run = 0;
            }
        } else {
            proof {
                run = run + 1;
                lemma_closed_run(m, date as int, date + run);
            }
        }
    }
    proof {
        lemma_nth_workday_is(m, start as int, offset as int, date as int);
    }
    date
}

/// The offset phase: the `offset`-th business day from the business day `start`, whose
/// weekday is `day_of_week`. Whole weeks are jumped seven days each; the holidays jumped
/// over are counted by bisection in the window of the holidays not yet passed, and added
/// to the rest, which is then stepped day by day.
pub fn advance_from_start(start: i64, day_of_week: i32, offset: i32, cal: &Calendar) -> (date: i64)
    requires
        cal.wf(),
        cal@.is_workday(start as int),
        day_of_week == weekday_of(start as int),
        -0x100_0000_0000 <= start <= 0x100_0000_0000,
    ensures
        cal@.is_nth_workday_from(start as int, offset as int, date as int),
        cal@.nth_workday_from(start as int, offset as int) == date,
{
    if offset > 0 {
        advance_forward(start, day_of_week, offset, cal)
    } else {
        advance_backward(start, day_of_week, offset, cal)
    }
}

/// Advancing in the default week without holidays: the weekend rolls to the Monday after
/// or the Friday before in one step, and the offset has a closed form.
fn advance_default(date: i32, offset: i32, cal: &Calendar, roll: RollPolicy) -> (res: Result<
    i64,
    Error,
>)
    requires
        cal.wf(),
        cal@.weekmask == default_weekmask(),
        forall|d: int| !cal@.holidays.contains(d),
    ensures
        advance_outcome(cal@, roll, date, offset, res),
{
    let ghost m = cal@;
    let ghost p = m.workday_pred();
    let w = weekday(date);
    let mut start = date as i64;
    let mut day_of_week = w;
    if w > 5 {
        match roll {
            RollPolicy::Raise => {
                return Err(Error::Calendar { date });
            },
            RollPolicy::Forward => {
                start = date as i64 + (8 - w) as i64;
                day_of_week = 1;
                proof {
                    lemma_weekday_step(date as int);
                    lemma_weekday_step(date + 1);
                    assert(count_in(p, date as int, start as int) == 0) by {
                        reveal_with_fuel(count_in, 3);
                    }
                }
            },
            RollPolicy::Backward => {
                start = date as i64 - (w - 5) as i64;
                day_of_week = 5;
                proof {
                    lemma_weekday_step(date as int);
                    lemma_weekday_step(date - 1);
                    assert(count_in(p, start + 1, date + 1) == 0) by {
                        reveal_with_fuel(count_in, 3);
                    }
                }
            },
        }
        proof {
            lemma_roll_is(m, roll, date as int, start as int);
        }
    } else {
        proof {
            lemma_roll_of_workday(m, roll, date as int);
        }
    }
    let n_days = calculate_n_days_without_holidays_fast(offset, day_of_week);
    proof {
        lemma_offset_applies(m, start as int, offset as int, n_days as int);
        lemma_nth_workday_is(m, start as int, offset as int, start + n_days);
    }
    Ok(start + n_days)
}

/// What advancing returns: the target as the model has it, or the error that names the
/// date where the model has no target.
pub open spec fn advance_outcome(
    m: CalendarModel,
    roll: RollPolicy,
    date: i32,
    offset: i32,
    res: Result<i64, Error>,
) -> bool {
    match res {
        Ok(target) => m.advance_target(roll, date as int, offset as int) == Some(target as int),
        Err(e) => m.advance_target(roll, date as int, offset as int) is None && e == (
        Error::Calendar { date }),
    }
}

/// Advances `date` by `offset` business days and returns the target as a 64-bit ordinal,
/// which it always fits. A week other than the default one without holidays takes its
/// offsets from the cache, the default week without holidays from the closed form, and a
/// calendar with holidays goes the long way.
pub fn advance_wide(date: i32, offset: i32, cal: &Calendar, roll: RollPolicy) -> (res: Result<
    i64,
    Error,
>)
    requires
        cal.wf(),
        roll != RollPolicy::Raise ==> cal@.week_length() >= 1,
    ensures
        advance_outcome(cal@, roll, date, offset, res),
{
    let ghost m = cal@;
    let holidays = cal.holidays();
    proof {
        lemma_sorted_holidays(cal, holidays);
    }
    if holidays.len() == 0 {
        assert forall|d: int| !m.holidays.contains(d) by {
            if m.holidays.contains(d) {
                let i = choose|i: int| 0 <= i < holidays.days().len() && #[trigger] holidays.days()[i] == d;
            }
        }
        match cal.cache() {
            None => advance_default(date, offset, cal, roll),
            Some(cache) => {
                match roll_phase(date, cal, roll) {
                    Err(e) => Err(e),
                    Ok((start, day_of_week)) => {
                        let n_days = calculate_n_days_without_holidays_slow(
                            day_of_week,
                            offset,
                            cache,
                        );
                        proof {
                            lemma_offset_applies(m, start as int, offset as int, n_days as int);
                            lemma_nth_workday_is(m, start as int, offset as int, start + n_days);
                        }
                        Ok(start + n_days)
                    },
                }
            },
        }
    } else {
        match roll_phase(date, cal, roll) {
            Err(e) => Err(e),
            Ok((start, day_of_week)) => Ok(advance_from_start(start, day_of_week, offset, cal)),
        }
    }
}

/// Advances `date` by `offset` business days: rolls `date` to a start as the policy says,
/// and returns the `offset`-th business day from the start (the start itself for 0).
/// Fails with the date if it is no business day and the policy is to raise.
pub fn calculate_advance(date: i32, offset: i32, cal: &Calendar, roll: RollPolicy) -> (res: Result<
    i32,
    Error,
>)
    requires
        cal.wf(),
        roll != RollPolicy::Raise ==> cal@.week_length() >= 1,
        advance_fits(cal@, roll, date as int, offset as int),
    ensures
        match res {
            Ok(target) => cal@.advance_target(roll, date as int, offset as int) == Some(
                target as int,
            ),
            Err(e) => cal@.advance_target(roll, date as int, offset as int) is None && e == (
            Error::Calendar { date }),
        },
{
    match advance_wide(date, offset, cal, roll) {
        Ok(target) => Ok(target as i32),
        Err(e) => Err(e),
    }
}

/// Advances `date` by `offset` business days if the target is a 32-bit ordinal, and
/// returns `None` if it is not.
pub fn checked_advance(date: i32, offset: i32, cal: &Calendar, roll: RollPolicy) -> (res: Option<
    Result<i32, Error>,
>)
    requires
        cal.wf(),
        roll != RollPolicy::Raise ==> cal@.week_length() >= 1,
    ensures
        res is Some <==> advance_fits(cal@, roll, date as int, offset as int),
        match res {
            Some(Ok(target)) => cal@.advance_target(roll, date as int, offset as int) == Some(
                target as int,
            ),
            Some(Err(e)) => cal@.advance_target(roll, date as int, offset as int) is None && e == (
            Error::Calendar { date }),
            None => true,
        },
{
    match advance_wide(date, offset, cal, roll) {
        Ok(target) => {
            if target < i32::MIN as i64 || target > i32::MAX as i64 {
                None
            } else {
                Some(Ok(target as i32))
            }
        },
        Err(e) => Some(Err(e)),
    }
}

} // verus!
