//! Telling the business days of a column of dates or datetimes.

use crate::calendar::Calendar;
use crate::columns::{
    check_reach, clock_times, days_fit, days_of_dates, days_of_stamps, lemma_known_zone_has_clock,
    one_zone, stamp_day, zone_is_known, Column, ColumnModel, TimeUnit,
};
use crate::error::Error;
use crate::is_workday::is_workday_date;
use crate::local_datetime::{texts_of, turn_to_clock, zone_refusal_words};
use crate::model::CalendarModel;
use crate::time_zone::stamps_in_reach;
use vstd::prelude::*;

verus! {

/// Whether each day is a business day, or nothing where the day is missing.
pub open spec fn workday_flags(m: CalendarModel, days: Seq<Option<int>>) -> Seq<Option<bool>> {
    Seq::new(
        days.len(),
        |i: int|
            match days[i] {
                Some(day) => Some(m.is_workday(day)),
                None => None,
            },
    )
}

/// What telling the business days of a column asks of it: its datetimes are within reach
/// of the time zones, and their days on the clock of their zone are 32-bit ordinals.
pub open spec fn can_tell_workdays(dates: ColumnModel) -> bool {
    match dates {
        ColumnModel::Datetime(unit, zone, stamps) => {
            &&& stamps_in_reach(stamps, unit)
            &&& zone_is_known(zone) ==> days_fit(days_of_stamps(clock_times(unit, zone, stamps), unit))
        },
        _ => true,
    }
}

/// What telling the business days of a column returns: a flag for each row, for a
/// datetime that of its day on the clock of its time zone; or the type that is refused, or
/// the refusal of the time zones.
pub open spec fn is_workday_result(m: CalendarModel, dates: ColumnModel, res: Result<Vec<Option<bool>>, Error>) -> bool {
    match dates {
        ColumnModel::Other(name) => res matches Err(Error::Type { dtype }) && dtype@ == name,
        ColumnModel::Date(values) => res matches Ok(flags) && flags@ == workday_flags(
            m,
            days_of_dates(values),
        ),
        ColumnModel::Datetime(unit, zone, stamps) => if zone_is_known(zone) {
            res matches Ok(flags) && flags@ == workday_flags(
                m,
                days_of_stamps(clock_times(unit, zone, stamps), unit),
            )
        } else {
            res matches Err(Error::TimeZone { message }) && message@ == zone_refusal_words(
                zone.unwrap(),
            )
        },
    }
}

/// Whether each of the days is a business day.
fn flag_days(dates: &Vec<Option<i32>>, cal: &Calendar) -> (flags: Vec<Option<bool>>)
    requires
        cal.wf(),
    ensures
        flags@ == workday_flags(cal@, days_of_dates(dates@)),
{
    let ghost wanted = workday_flags(cal@, days_of_dates(dates@));
    let mut flags: Vec<Option<bool>> = Vec::with_capacity(dates.len());
    let mut i: usize = 0;
    while i < dates.len()
        invariant
            cal.wf(),
            wanted == workday_flags(cal@, days_of_dates(dates@)),
            i <= dates.len(),
            flags.len() == i,
            forall|j: int| 0 <= j < i ==> #[trigger] flags@[j] == wanted[j],
        decreases dates.len() - i,
    {
        let flag = match dates[i] {
            Some(date) => Some(is_workday_date(date, cal)),
            None => None,
        };
        flags.push(flag);
        i += 1;
    }
    assert(flags@ =~= wanted);
    flags
}

/// Whether each datetime falls on a business day.
fn flag_stamps(stamps: &Vec<Option<i64>>, unit: TimeUnit, cal: &Calendar) -> (flags: Vec<Option<bool>>)
    requires
        cal.wf(),
        days_fit(days_of_stamps(stamps@, unit)),
    ensures
        flags@ == workday_flags(cal@, days_of_stamps(stamps@, unit)),
{
    let ghost days = days_of_stamps(stamps@, unit);
    let ghost wanted = workday_flags(cal@, days);
    let mut flags: Vec<Option<bool>> = Vec::with_capacity(stamps.len());
    let mut i: usize = 0;
    while i < stamps.len()
        invariant
            cal.wf(),
            days == days_of_stamps(stamps@, unit),
            days_fit(days),
            wanted == workday_flags(cal@, days),
            i <= stamps.len(),
            flags.len() == i,
            forall|j: int| 0 <= j < i ==> #[trigger] flags@[j] == wanted[j],
        decreases stamps.len() - i,
    {
        let flag = match stamps[i] {
            Some(stamp) => {
                assert(days[i as int] is Some);
                Some(is_workday_date(stamp_day(stamp, unit) as i32, cal))
            },
            None => None,
        };
        flags.push(flag);
        i += 1;
    }
    assert(flags@ =~= wanted);
    flags
}

/// Whether each row of a column of dates or datetimes is a business day; a datetime is
/// one if its day on the clock of its time zone is. A row is missing in the result where
/// it is missing in the column. A column of another type is refused.
pub fn impl_is_workday(dates: &Column, cal: &Calendar) -> (res: Result<Vec<Option<bool>>, Error>)
    requires
        cal.wf(),
        can_tell_workdays(dates@),
    ensures
        is_workday_result(cal@, dates@, res),
{
    match dates {
        Column::Other(name) => Err(Error::Type { dtype: name.clone() }),
        Column::Date(values) => Ok(flag_days(values, cal)),
        Column::Datetime(unit, zone, stamps) => match zone {
            None => Ok(flag_stamps(stamps, *unit, cal)),
            Some(name) => {
                let zones = vec![Some(name.clone())];
                assert(texts_of(zones@) =~= one_zone(name@));
                match turn_to_clock(stamps, *unit, &zones) {
                    Ok(clock) => Ok(flag_stamps(&clock, *unit, cal)),
                    Err(e) => {
                        proof {
                            lemma_known_zone_has_clock(*unit, name@, stamps@, e->TimeZone_message@);
                        }
                        Err(e)
                    },
                }
            },
        },
    }
}

/// Whether every datetime falls on a day with a 32-bit ordinal.
fn check_days(stamps: &Vec<Option<i64>>, unit: TimeUnit) -> (ok: bool)
    ensures
        ok == days_fit(days_of_stamps(stamps@, unit)),
{
    let ghost days = days_of_stamps(stamps@, unit);
    let mut i: usize = 0;
    while i < stamps.len()
        invariant
            days == days_of_stamps(stamps@, unit),
            i <= stamps.len(),
            forall|j: int|
                0 <= j < i && (#[trigger] days[j]) is Some ==> i32::MIN <= days[j].unwrap()
                    <= i32::MAX,
        decreases stamps.len() - i,
    {
        match stamps[i] {
            Some(stamp) => {
                let day = stamp_day(stamp, unit);
                assert(days[i as int] == Some(day as int));
                if day < i32::MIN as i64 || day > i32::MAX as i64 {
                    return false;
                }
            },
            None => {},
        }
        i += 1;
    }
    true
}

/// Tells the business days of a column as [`impl_is_workday`] does if they can be told,
/// and returns nothing if they cannot: a datetime is out of range.
pub fn try_is_workday(dates: &Column, cal: &Calendar) -> (res: Option<Result<Vec<Option<bool>>, Error>>)
    requires
        cal.wf(),
    ensures
        res is Some <==> can_tell_workdays(dates@),
        res is Some ==> is_workday_result(cal@, dates@, res.unwrap()),
{
    match dates {
        Column::Datetime(unit, zone, stamps) => {
            if !check_reach(stamps, *unit) {
                return None;
            }
            match zone {
                None => {
                    if !check_days(stamps, *unit) {
                        return None;
                    }
                },
                Some(name) => {
                    let zones = vec![Some(name.clone())];
                    assert(texts_of(zones@) =~= one_zone(name@));
                    match turn_to_clock(stamps, *unit, &zones) {
                        Ok(clock) => {
                            if !check_days(&clock, *unit) {
                                return None;
                            }
                        },
                        Err(e) => {
                            proof {
                                lemma_known_zone_has_clock(
                                    *unit,
                                    name@,
                                    stamps@,
                                    e->TimeZone_message@,
                                );
                            }
                        },
                    }
                },
            }
        },
        _ => {},
    }
    Some(impl_is_workday(dates, cal))
}

} // verus!
