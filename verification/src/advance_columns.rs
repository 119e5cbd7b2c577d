//! Advancing whole columns at once: a single offset for all rows or one for each, and the
//! first failure ending the batch.

use crate::advance::advance_wide;
use crate::calendar::Calendar;
use crate::columns::{
    check_reach, clock_times, day_of, days_of_dates, days_of_stamps, is_zoned,
    lemma_known_zone_has_clock, one_zone, reach_of, stamp_day, zone_is_known, Column, ColumnModel,
    TimeUnit,
};
use crate::error::Error;
use crate::local_datetime::{texts_of, turn_to_clock, turn_to_instant, zone_refusal_words, Ambiguous};
use crate::model::{CalendarModel, RollPolicy};
use crate::policy::{is_policy_name, lemma_policy_names_differ, parse_roll, policy_name};
use crate::time_zone::{stamps_in_reach, zone_reach};
use vstd::prelude::*;

verus! {

/// The offset that goes with row `i`: the only one there is, or the one at `i`.
pub open spec fn offset_for(n: Seq<Option<i32>>, i: int) -> Option<i32> {
    if n.len() == 1 {
        n[0]
    } else {
        n[i]
    }
}

/// Whether the offsets pair with the rows: there is one offset, or one for each row.
pub open spec fn offsets_pair(n: Seq<Option<i32>>, rows: int) -> bool {
    n.len() == 1 || n.len() == rows
}

/// Whether advancing fails on a row: day and offset are there, and the day has no target.
pub open spec fn fails_on(m: CalendarModel, roll: RollPolicy, day: Option<int>, n: Option<i32>) -> bool {
    day is Some && n is Some && m.advance_target(roll, day.unwrap(), n.unwrap() as int) is None
}

/// The target of a row, or nothing where day or offset is missing.
pub open spec fn target_of(m: CalendarModel, roll: RollPolicy, day: Option<int>, n: Option<i32>) -> Option<
    int,
> {
    if day is Some && n is Some {
        m.advance_target(roll, day.unwrap(), n.unwrap() as int)
    } else {
        None
    }
}

/// Row `i` is the first on which advancing fails.
pub open spec fn first_failure(
    m: CalendarModel,
    roll: RollPolicy,
    days: Seq<Option<int>>,
    n: Seq<Option<i32>>,
    i: int,
) -> bool {
    &&& 0 <= i < days.len()
    &&& fails_on(m, roll, days[i], offset_for(n, i))
    &&& forall|j: int| 0 <= j < i ==> !fails_on(m, roll, #[trigger] days[j], offset_for(n, j))
}

/// Advancing fails on no row.
pub open spec fn no_failure(m: CalendarModel, roll: RollPolicy, days: Seq<Option<int>>, n: Seq<Option<i32>>) -> bool {
    forall|j: int| 0 <= j < days.len() ==> !fails_on(m, roll, #[trigger] days[j], offset_for(n, j))
}

/// Whether the target of a date fits the column: it is a 32-bit ordinal.
pub open spec fn date_row_fits(m: CalendarModel, roll: RollPolicy, date: Option<i32>, n: Option<i32>) -> bool {
    date is Some && n is Some ==> {
        &&& roll != RollPolicy::Raise ==> m.week_length() >= 1
        &&& match m.advance_target(roll, date.unwrap() as int, n.unwrap() as int) {
            Some(target) => i32::MIN <= target <= i32::MAX,
            None => true,
        }
    }
}

/// The datetime that a datetime is advanced to: as many days later as its day is
/// advanced, at the same time of day.
pub open spec fn advanced_stamp(stamp: int, unit: TimeUnit, target: int) -> int {
    stamp + (target - day_of(stamp, unit)) * unit.ticks_per_day()
}

/// Whether the target of a datetime fits the column: its day has a 32-bit ordinal and the
/// datetime advanced is within reach of the time zones.
pub open spec fn stamp_row_fits(
    m: CalendarModel,
    roll: RollPolicy,
    unit: TimeUnit,
    stamp: Option<i64>,
    n: Option<i32>,
) -> bool {
    stamp is Some && n is Some ==> {
        &&& roll != RollPolicy::Raise ==> m.week_length() >= 1
        &&& i32::MIN <= day_of(stamp.unwrap() as int, unit) <= i32::MAX
        &&& match m.advance_target(roll, day_of(stamp.unwrap() as int, unit), n.unwrap() as int) {
            Some(target) => -zone_reach(unit) <= advanced_stamp(stamp.unwrap() as int, unit, target)
                <= zone_reach(unit),
            None => true,
        }
    }
}

/// Advancing fails on no row before row `i`.
pub open spec fn no_failure_before(
    m: CalendarModel,
    roll: RollPolicy,
    days: Seq<Option<int>>,
    n: Seq<Option<i32>>,
    i: int,
) -> bool {
    forall|j: int| 0 <= j < i ==> !fails_on(m, roll, #[trigger] days[j], offset_for(n, j))
}

/// Whether every date that advancing comes to can be advanced within the limits of a
/// date: the rows after the first failure are not come to.
pub open spec fn dates_fit(m: CalendarModel, roll: RollPolicy, dates: Seq<Option<i32>>, n: Seq<Option<i32>>) -> bool {
    forall|i: int|
        0 <= i < dates.len() && no_failure_before(m, roll, days_of_dates(dates), n, i)
            ==> date_row_fits(m, roll, #[trigger] dates[i], offset_for(n, i))
}

/// Whether every datetime that advancing comes to can be advanced within the limits of a
/// datetime: the rows after the first failure are not come to.
pub open spec fn stamps_fit(
    m: CalendarModel,
    roll: RollPolicy,
    unit: TimeUnit,
    stamps: Seq<Option<i64>>,
    n: Seq<Option<i32>>,
) -> bool {
    forall|i: int|
        0 <= i < stamps.len() && no_failure_before(m, roll, days_of_stamps(stamps, unit), n, i)
            ==> stamp_row_fits(m, roll, unit, #[trigger] stamps[i], offset_for(n, i))
}

/// The dates advanced: each at its target, and missing where date or offset is missing.
pub open spec fn advanced_dates(
    m: CalendarModel,
    roll: RollPolicy,
    dates: Seq<Option<i32>>,
    n: Seq<Option<i32>>,
) -> Seq<Option<i32>> {
    Seq::new(
        dates.len(),
        |i: int|
            match target_of(m, roll, days_of_dates(dates)[i], offset_for(n, i)) {
                Some(target) => Some(target as i32),
                None => None,
            },
    )
}

/// The datetimes advanced: each as many days on as its day is advanced, and missing
/// where datetime or offset is missing.
pub open spec fn advanced_stamps(
    m: CalendarModel,
    roll: RollPolicy,
    unit: TimeUnit,
    stamps: Seq<Option<i64>>,
    n: Seq<Option<i32>>,
) -> Seq<Option<i64>> {
    Seq::new(
        stamps.len(),
        |i: int|
            match target_of(m, roll, days_of_stamps(stamps, unit)[i], offset_for(n, i)) {
                Some(target) => Some(advanced_stamp(stamps[i].unwrap() as int, unit, target) as i64),
                None => None,
            },
    )
}

/// A single offset goes with every row as the same offset written beside each row does:
/// whatever is said of the rows and the one is said of the rows and the other.
pub proof fn lemma_single_offset_is_each(
    m: CalendarModel,
    roll: RollPolicy,
    dates: Seq<Option<i32>>,
    single: Seq<Option<i32>>,
    each: Seq<Option<i32>>,
)
    requires
        single.len() == 1,
        each.len() == dates.len(),
        forall|i: int| 0 <= i < each.len() ==> each[i] == single[0],
    ensures
        forall|i: int| 0 <= i < dates.len() ==> offset_for(single, i) == offset_for(each, i),
        no_failure(m, roll, days_of_dates(dates), single) <==> no_failure(
            m,
            roll,
            days_of_dates(dates),
            each,
        ),
        forall|i: int|
            first_failure(m, roll, days_of_dates(dates), single, i) <==> first_failure(
                m,
                roll,
                days_of_dates(dates),
                each,
                i,
            ),
        dates_fit(m, roll, dates, single) <==> dates_fit(m, roll, dates, each),
        advanced_dates(m, roll, dates, single) == advanced_dates(m, roll, dates, each),
{
    assert forall|i: int| 0 <= i < dates.len() implies offset_for(single, i) == offset_for(each, i) by {}
    assert(advanced_dates(m, roll, dates, single) =~= advanced_dates(m, roll, dates, each));
}

/// A product is bounded by the product of the bounds of its factors.
proof fn lemma_product_bound(x: int, y: int, x_bound: int, y_bound: int)
    by (nonlinear_arith)
    requires
        -x_bound <= x <= x_bound,
        0 <= y <= y_bound,
    ensures
        -(x_bound * y_bound) <= x * y <= x_bound * y_bound,
{
}

/// A number of days of 65 bits at most, counted in a unit, takes 113 bits at most.
proof fn lemma_days_in_ticks(days: int, unit: TimeUnit)
    requires
        -0x1_0000_0000_0000_0000 <= days <= 0x1_0000_0000_0000_0000,
    ensures
        -0x1_0000_0000_0000_0000_0000_0000_0000 <= days * unit.ticks_per_day()
            <= 0x1_0000_0000_0000_0000_0000_0000_0000,
{
    lemma_product_bound(days, unit.ticks_per_day(), 0x1_0000_0000_0000_0000, 0x1_0000_0000_0000);
    assert(0x1_0000_0000_0000_0000 * 0x1_0000_0000_0000
        == 0x1_0000_0000_0000_0000_0000_0000_0000int);
}

/// A column of dates advanced row by row.
fn advance_dates(dates: &Vec<Option<i32>>, n: &Vec<Option<i32>>, cal: &Calendar, roll: RollPolicy) -> (res: Result<
    Vec<Option<i32>>,
    Error,
>)
    requires
        cal.wf(),
        offsets_pair(n@, dates.len() as int),
        dates_fit(cal@, roll, dates@, n@),
    ensures
        match res {
            Ok(targets) => no_failure(cal@, roll, days_of_dates(dates@), n@) && targets@
                == advanced_dates(cal@, roll, dates@, n@),
            Err(e) => exists|i: int|
                first_failure(cal@, roll, days_of_dates(dates@), n@, i) && e == (Error::Calendar {
                    date: (#[trigger] dates@[i]).unwrap(),
                }),
        },
{
    let ghost m = cal@;
    let ghost days = days_of_dates(dates@);
    let ghost wanted = advanced_dates(m, roll, dates@, n@);
    let mut targets: Vec<Option<i32>> = Vec::with_capacity(dates.len());
    // one offset for all rows, or one for each: settled once, before the rows
    let single = n.len() == 1;
    let mut i: usize = 0;
    while i < dates.len()
        invariant
            cal.wf(),
            m == cal@,
            single == (n.len() == 1),
            days == days_of_dates(dates@),
            wanted == advanced_dates(m, roll, dates@, n@),
            offsets_pair(n@, dates.len() as int),
            dates_fit(m, roll, dates@, n@),
            i <= dates.len(),
            targets.len() == i,
            forall|j: int| 0 <= j < i ==> !fails_on(m, roll, #[trigger] days[j], offset_for(n@, j)),
            forall|j: int| 0 <= j < i ==> #[trigger] targets@[j] == wanted[j],
        decreases dates.len() - i,
    {
        let offset = if single {
            n[0]
        } else {
            n[i]
        };
        let date = dates[i];
        assert(no_failure_before(m, roll, days, n@, i as int));
        assert(date_row_fits(m, roll, dates@[i as int], offset_for(n@, i as int)));
        let target = match (date, offset) {
            (Some(x_date), Some(n_days)) => {
                match advance_wide(x_date, n_days, cal, roll) {
                    Ok(target) => Some(target as i32),
                    Err(e) => {
                        assert(first_failure(m, roll, days, n@, i as int));
                        return Err(e);
                    },
                }
            },
            _ => None,
        };
        targets.push(target);
        i += 1;
    }
    assert(targets@ =~= wanted);
    Ok(targets)
}

/// A column of datetimes advanced row by row: each by as many days as its day is
/// advanced.
fn advance_stamps(
    stamps: &Vec<Option<i64>>,
    unit: TimeUnit,
    n: &Vec<Option<i32>>,
    cal: &Calendar,
    roll: RollPolicy,
) -> (res: Result<Vec<Option<i64>>, Error>)
    requires
        cal.wf(),
        offsets_pair(n@, stamps.len() as int),
        stamps_fit(cal@, roll, unit, stamps@, n@),
    ensures
        match res {
            Ok(targets) => {
                &&& no_failure(cal@, roll, days_of_stamps(stamps@, unit), n@)
                &&& targets@ == advanced_stamps(cal@, roll, unit, stamps@, n@)
                &&& stamps_in_reach(targets@, unit)
            },
            Err(e) => exists|i: int|
                first_failure(cal@, roll, days_of_stamps(stamps@, unit), n@, i) && e == (
                Error::Calendar {
                    date: day_of((#[trigger] stamps@[i]).unwrap() as int, unit) as i32,
                }),
        },
{
    let ghost m = cal@;
    let ghost days = days_of_stamps(stamps@, unit);
    let ghost wanted = advanced_stamps(m, roll, unit, stamps@, n@);
    let multiplier = unit.multiplier();
    let mut targets: Vec<Option<i64>> = Vec::with_capacity(stamps.len());
    let single = n.len() == 1;
    let mut i: usize = 0;
    while i < stamps.len()
        invariant
            cal.wf(),
            m == cal@,
            single == (n.len() == 1),
            days == days_of_stamps(stamps@, unit),
            wanted == advanced_stamps(m, roll, unit, stamps@, n@),
            multiplier == unit.ticks_per_day(),
            offsets_pair(n@, stamps.len() as int),
            stamps_fit(m, roll, unit, stamps@, n@),
            i <= stamps.len(),
            targets.len() == i,
            forall|j: int| 0 <= j < i ==> !fails_on(m, roll, #[trigger] days[j], offset_for(n@, j)),
            forall|j: int| 0 <= j < i ==> #[trigger] targets@[j] == wanted[j],
            stamps_in_reach(targets@, unit),
        decreases stamps.len() - i,
    {
        let offset = if single {
            n[0]
        } else {
            n[i]
        };
        let stamp = stamps[i];
        assert(no_failure_before(m, roll, days, n@, i as int));
        assert(stamp_row_fits(m, roll, unit, stamps@[i as int], offset_for(n@, i as int)));
        let target = match (stamp, offset) {
            (Some(x), Some(n_days)) => {
                let x_date = stamp_day(x, unit) as i32;
                match advance_wide(x_date, n_days, cal, roll) {
                    Ok(target) => {
                        let days_on: i128 = target as i128 - x_date as i128;
                        proof {
                            lemma_days_in_ticks(days_on as int, unit);
                        }
                        Some((x as i128 + days_on * multiplier as i128) as i64)
                    },
                    Err(e) => {
                        assert(first_failure(m, roll, days, n@, i as int));
                        return Err(e);
                    },
                }
            },
            _ => None,
        };
        let ghost before = targets@;
        targets.push(target);
        proof {
            assert forall|j: int|
                0 <= j < targets@.len() && (#[trigger] targets@[j]) is Some implies -zone_reach(unit)
                <= targets@[j].unwrap() <= zone_reach(unit) by {
                if j < i {
                    assert(before[j] == targets@[j]);
                }
            }
        }
        i += 1;
    }
    assert(targets@ =~= wanted);
    Ok(targets)
}

/// What advancing a column asks of it: the offsets are one or as many as the rows, the
/// datetimes are within reach of the time zones, and every row, taken on the clock of its
/// time zone, can be advanced within the limits of its type, under the policy named.
pub open spec fn can_advance(m: CalendarModel, s: ColumnModel, n: Seq<Option<i32>>, roll: Seq<char>) -> bool {
    match s {
        ColumnModel::Date(dates) => {
            &&& offsets_pair(n, dates.len() as int)
            &&& forall|policy: RollPolicy|
                roll == #[trigger] policy_name(policy) ==> dates_fit(m, policy, dates, n)
        },
        ColumnModel::Datetime(unit, zone, stamps) => {
            &&& offsets_pair(n, stamps.len() as int)
            &&& stamps_in_reach(stamps, unit)
            &&& forall|policy: RollPolicy|
                roll == #[trigger] policy_name(policy) && zone_is_known(zone) ==> stamps_fit(
                    m,
                    policy,
                    unit,
                    clock_times(unit, zone, stamps),
                    n,
                )
        },
        ColumnModel::Other(_) => true,
    }
}

/// What advancing a column of dates returns under a policy.
pub open spec fn is_dates_advanced(
    m: CalendarModel,
    roll: RollPolicy,
    dates: Seq<Option<i32>>,
    n: Seq<Option<i32>>,
    res: Result<Column, Error>,
) -> bool {
    match res {
        Ok(out) => no_failure(m, roll, days_of_dates(dates), n) && out@ == ColumnModel::Date(
            advanced_dates(m, roll, dates, n),
        ),
        Err(e) => exists|i: int|
            first_failure(m, roll, days_of_dates(dates), n, i) && e == (Error::Calendar {
                date: (#[trigger] dates[i]).unwrap(),
            }),
    }
}

/// What advancing a column of datetimes returns under a policy: the datetimes are taken
/// on the clock of their time zone, advanced there, and put back into the zone. A zone
/// that the database does not have is refused; else the first failure to advance ends
/// the batch, and else the first time that the clock of the zone shows twice or not at all.
pub open spec fn is_stamps_advanced(
    m: CalendarModel,
    roll: RollPolicy,
    unit: TimeUnit,
    zone: Option<Seq<char>>,
    stamps: Seq<Option<i64>>,
    n: Seq<Option<i32>>,
    res: Result<Column, Error>,
) -> bool {
    if !zone_is_known(zone) {
        res matches Err(Error::TimeZone { message }) && message@ == zone_refusal_words(
            zone.unwrap(),
        )
    } else {
        let clock = clock_times(unit, zone, stamps);
        let days = days_of_stamps(clock, unit);
        let advanced = advanced_stamps(m, roll, unit, clock, n);
        match res {
            Ok(out) => {
                &&& no_failure(m, roll, days, n)
                &&& out@ matches ColumnModel::Datetime(out_unit, out_zone, back)
                &&& out_unit == unit
                &&& out_zone == zone
                &&& is_zoned(unit, zone, advanced, Ok(back))
            },
            Err(Error::Calendar { date }) => exists|i: int|
                first_failure(m, roll, days, n, i) && date == day_of(
                    (#[trigger] clock[i]).unwrap() as int,
                    unit,
                ),
            Err(Error::TimeZone { message }) => no_failure(m, roll, days, n) && is_zoned(
                unit,
                zone,
                advanced,
                Err(message@),
            ),
            Err(_) => false,
        }
    }
}

/// What advancing a column returns: a column of another type is refused, then a roll
/// policy that does not exist; else the column advanced under the policy named.
pub open spec fn is_advance_result(
    m: CalendarModel,
    s: ColumnModel,
    n: Seq<Option<i32>>,
    roll: Seq<char>,
    res: Result<Column, Error>,
) -> bool {
    match s {
        ColumnModel::Other(name) => res matches Err(Error::Type { dtype }) && dtype@ == name,
        _ => if !is_policy_name(roll) {
            res matches Err(Error::Configuration { roll: name }) && name@ == roll
        } else {
            exists|policy: RollPolicy|
                roll == #[trigger] policy_name(policy) && match s {
                    ColumnModel::Date(dates) => is_dates_advanced(m, policy, dates, n, res),
                    ColumnModel::Datetime(unit, zone, stamps) => is_stamps_advanced(
                        m,
                        policy,
                        unit,
                        zone,
                        stamps,
                        n,
                        res,
                    ),
                    ColumnModel::Other(_) => false,
                }
        },
    }
}

/// Advances every row of a column of dates or datetimes by business days: by the one
/// offset of `n` if `n` has a single row, else each row by the offset beside it. A row is
/// missing in the result where it or its offset is missing. Datetimes are advanced on the
/// clock of their time zone and keep their time of day, their unit and their zone. A
/// column of another type is refused, then a roll policy that does not exist; the first
/// row that is no business day under the policy `raise` ends the batch with its date.
pub fn impl_advance_n_days(s: &Column, n: &Vec<Option<i32>>, cal: &Calendar, roll: &str) -> (res: Result<
    Column,
    Error,
>)
    requires
        cal.wf(),
        can_advance(cal@, s@, n@, roll@),
    ensures
        is_advance_result(cal@, s@, n@, roll@, res),
{
    match s {
        Column::Other(name) => Err(Error::Type { dtype: name.clone() }),
        Column::Date(dates) => {
            let policy = match parse_roll(roll) {
                Ok(policy) => policy,
                Err(e) => {
                    return Err(e);
                },
            };
            assert(roll@ == policy_name(policy));
            match advance_dates(dates, n, cal, policy) {
                Ok(targets) => Ok(Column::Date(targets)),
                Err(e) => Err(e),
            }
        },
        Column::Datetime(unit, zone, stamps) => {
            let policy = match parse_roll(roll) {
                Ok(policy) => policy,
                Err(e) => {
                    return Err(e);
                },
            };
            assert(roll@ == policy_name(policy));
            match zone {
                None => match advance_stamps(stamps, *unit, n, cal, policy) {
                    Ok(targets) => Ok(Column::Datetime(*unit, None, targets)),
                    Err(e) => Err(e),
                },
                Some(name) => {
                    let zones = vec![Some(name.clone())];
                    assert(texts_of(zones@) =~= one_zone(name@));
                    let clock = match turn_to_clock(stamps, *unit, &zones) {
                        Ok(clock) => clock,
                        Err(e) => {
                            proof {
                                lemma_known_zone_has_clock(*unit, name@, stamps@, e->TimeZone_message@);
                            }
                            return Err(e);
                        },
                    };
                    let targets = match advance_stamps(&clock, *unit, n, cal, policy) {
                        Ok(targets) => targets,
                        Err(e) => {
                            return Err(e);
                        },
                    };
                    match turn_to_instant(&targets, *unit, &zones, name.as_str(), Ambiguous::Raise) {
                        Ok(back) => Ok(Column::Datetime(*unit, Some(name.clone()), back)),
                        Err(e) => Err(e),
                    }
                },
            }
        },
    }
}

/// Whether a row of dates can be advanced within the limits of its type, and whether
/// advancing fails on it.
fn check_date_row(date: Option<i32>, offset: Option<i32>, cal: &Calendar, roll: RollPolicy) -> (row: (
    bool,
    bool,
))
    requires
        cal.wf(),
    ensures
        row.0 == date_row_fits(cal@, roll, date, offset),
        row.0 ==> row.1 == fails_on(cal@, roll, days_of_dates(seq![date])[0], offset),
{
    match (date, offset) {
        (Some(x_date), Some(n_days)) => {
            if roll != RollPolicy::Raise && cal.n_weekdays() < 1 {
                return (false, false);
            }
            match advance_wide(x_date, n_days, cal, roll) {
                Ok(target) => (i32::MIN as i64 <= target && target <= i32::MAX as i64, false),
                Err(_) => (true, true),
            }
        },
        _ => (true, false),
    }
}

/// Whether a row of datetimes can be advanced within the limits of its type, and
/// whether advancing fails on it.
fn check_stamp_row(
    stamp: Option<i64>,
    unit: TimeUnit,
    offset: Option<i32>,
    cal: &Calendar,
    roll: RollPolicy,
) -> (row: (bool, bool))
    requires
        cal.wf(),
    ensures
        row.0 == stamp_row_fits(cal@, roll, unit, stamp, offset),
        row.0 ==> row.1 == fails_on(cal@, roll, days_of_stamps(seq![stamp], unit)[0], offset),
{
    match (stamp, offset) {
        (Some(x), Some(n_days)) => {
            if roll != RollPolicy::Raise && cal.n_weekdays() < 1 {
                return (false, false);
            }
            let day = stamp_day(x, unit);
            if day < i32::MIN as i64 || day > i32::MAX as i64 {
                return (false, false);
            }
            let multiplier = unit.multiplier();
            match advance_wide(day as i32, n_days, cal, roll) {
                Ok(target) => {
                    let days_on: i128 = target as i128 - day as i128;
                    proof {
                        lemma_days_in_ticks(days_on as int, unit);
                    }
                    let advanced: i128 = x as i128 + days_on * multiplier as i128;
                    let reach = reach_of(unit) as i128;
                    (-reach <= advanced && advanced <= reach, false)
                },
                Err(_) => (true, true),
            }
        },
        _ => (true, false),
    }
}

/// Whether every date that advancing comes to can be advanced within the limits of a
/// date.
fn check_dates(dates: &Vec<Option<i32>>, n: &Vec<Option<i32>>, cal: &Calendar, roll: RollPolicy) -> (ok: bool)
    requires
        cal.wf(),
        offsets_pair(n@, dates.len() as int),
    ensures
        ok == dates_fit(cal@, roll, dates@, n@),
{
    let ghost days = days_of_dates(dates@);
    let single = n.len() == 1;
    let mut i: usize = 0;
    while i < dates.len()
        invariant
            cal.wf(),
            single == (n.len() == 1),
            days == days_of_dates(dates@),
            offsets_pair(n@, dates.len() as int),
            i <= dates.len(),
            no_failure_before(cal@, roll, days, n@, i as int),
            forall|j: int|
                0 <= j < i ==> date_row_fits(cal@, roll, #[trigger] dates@[j], offset_for(n@, j)),
        decreases dates.len() - i,
    {
        let offset = if single {
            n[0]
        } else {
            n[i]
        };
        let (fits, fails) = check_date_row(dates[i], offset, cal, roll);
        assert(days_of_dates(seq![dates@[i as int]])[0] == days[i as int]);
        if !fits {
            assert(!date_row_fits(cal@, roll, dates@[i as int], offset_for(n@, i as int)));
            return false;
        }
        if fails {
            // the rows after the first failure are not come to
            assert forall|k: int|
                0 <= k < dates@.len() && no_failure_before(cal@, roll, days, n@, k) implies date_row_fits(
                cal@,
                roll,
                #[trigger] dates@[k],
                offset_for(n@, k),
            ) by {
                if k > i {
                    assert(fails_on(cal@, roll, days[i as int], offset_for(n@, i as int)));
                }
            }
            return true;
        }
        i += 1;
    }
    true
}

/// Whether every datetime that advancing comes to can be advanced within the limits of a
/// datetime.
fn check_stamps(
    stamps: &Vec<Option<i64>>,
    unit: TimeUnit,
    n: &Vec<Option<i32>>,
    cal: &Calendar,
    roll: RollPolicy,
) -> (ok: bool)
    requires
        cal.wf(),
        offsets_pair(n@, stamps.len() as int),
    ensures
        ok == stamps_fit(cal@, roll, unit, stamps@, n@),
{
    let ghost days = days_of_stamps(stamps@, unit);
    let single = n.len() == 1;
    let mut i: usize = 0;
    while i < stamps.len()
        invariant
            cal.wf(),
            single == (n.len() == 1),
            days == days_of_stamps(stamps@, unit),
            offsets_pair(n@, stamps.len() as int),
            i <= stamps.len(),
            no_failure_before(cal@, roll, days, n@, i as int),
            forall|j: int|
                0 <= j < i ==> stamp_row_fits(
                    cal@,
                    roll,
                    unit,
                    #[trigger] stamps@[j],
                    offset_for(n@, j),
                ),
        decreases stamps.len() - i,
    {
        let offset = if single {
            n[0]
        } else {
            n[i]
        };
        let (fits, fails) = check_stamp_row(stamps[i], unit, offset, cal, roll);
        assert(days_of_stamps(seq![stamps@[i as int]], unit)[0] == days[i as int]);
        if !fits {
            assert(!stamp_row_fits(cal@, roll, unit, stamps@[i as int], offset_for(n@, i as int)));
            return false;
        }
        if fails {
            assert forall|k: int|
                0 <= k < stamps@.len() && no_failure_before(cal@, roll, days, n@, k) implies stamp_row_fits(
                cal@,
                roll,
                unit,
                #[trigger] stamps@[k],
                offset_for(n@, k),
            ) by {
                if k > i {
                    assert(fails_on(cal@, roll, days[i as int], offset_for(n@, i as int)));
                }
            }
            return true;
        }
        i += 1;
    }
    true
}

/// Whether a column can be advanced: what [`impl_advance_n_days`] asks of its arguments.
pub fn check_advance(s: &Column, n: &Vec<Option<i32>>, cal: &Calendar, roll: &str) -> (ok: bool)
    requires
        cal.wf(),
    ensures
        ok == can_advance(cal@, s@, n@, roll@),
{
    let rows = s.len();
    match s {
        Column::Other(_) => true,
        Column::Date(dates) => {
            if !(n.len() == 1 || n.len() == rows) {
                return false;
            }
            match parse_roll(roll) {
                Err(_) => true,
                Ok(policy) => {
                    proof {
                        assert forall|other: RollPolicy| roll@ == #[trigger] policy_name(
                            other,
                        ) implies other == policy by {
                            lemma_policy_names_differ(other, policy);
                        }
                    }
                    check_dates(dates, n, cal, policy)
                },
            }
        },
        Column::Datetime(unit, zone, stamps) => {
            if !(n.len() == 1 || n.len() == rows) {
                return false;
            }
            if !check_reach(stamps, *unit) {
                return false;
            }
            match parse_roll(roll) {
                Err(_) => true,
                Ok(policy) => {
                    proof {
                        assert forall|other: RollPolicy| roll@ == #[trigger] policy_name(
                            other,
                        ) implies other == policy by {
                            lemma_policy_names_differ(other, policy);
                        }
                    }
                    match zone {
                        None => check_stamps(stamps, *unit, n, cal, policy),
                        Some(name) => {
                            let zones = vec![Some(name.clone())];
                            assert(texts_of(zones@) =~= one_zone(name@));
                            match turn_to_clock(stamps, *unit, &zones) {
                                Ok(clock) => check_stamps(&clock, *unit, n, cal, policy),
                                Err(e) => {
                                    proof {
                                        lemma_known_zone_has_clock(
                                            *unit,
                                            name@,
                                            stamps@,
                                            e->TimeZone_message@,
                                        );
                                    }
                                    true
                                },
                            }
                        },
                    }
                },
            }
        },
    }
}

/// Advances a column as [`impl_advance_n_days`] does if the column can be advanced, and
/// returns nothing if it cannot: the offsets do not pair with the rows, or a datetime or a
/// target is out of range.
pub fn try_advance_n_days(s: &Column, n: &Vec<Option<i32>>, cal: &Calendar, roll: &str) -> (res: Option<
    Result<Column, Error>,
>)
    requires
        cal.wf(),
    ensures
        res is Some <==> can_advance(cal@, s@, n@, roll@),
        res is Some ==> is_advance_result(cal@, s@, n@, roll@, res.unwrap()),
{
    if check_advance(s, n, cal, roll) {
        Some(impl_advance_n_days(s, n, cal, roll))
    } else {
        None
    }
}

} // verus!
