//! The parts of dates and datetimes from which their Julian dates are worked out.

use crate::columns::{check_reach, Column, ColumnModel};
use crate::error::Error;
use crate::local_datetime::{nanos_of_stamp, seconds_of_stamp, split_stamp};
use crate::month_delta::{civil_from_ordinal, civil_of, CivilDate};
use crate::time_zone::stamps_in_reach;
use vstd::prelude::*;
use vstd::string::StringExecFns;

verus! {

/// A moment by year, month, day, hour, minute, second and nanosecond.
#[derive(Clone, Copy, Debug, PartialEq, Eq, Structural)]
pub struct MomentParts {
    pub year: i32,
    pub month: u32,
    pub day: u32,
    pub hour: u32,
    pub minute: u32,
    pub second: u32,
    pub nanosecond: u32,
}

/// The parts of the moment that lies `seconds` seconds and `nanos` nanoseconds after the
/// start of 1970, or nothing for a day out of the range of dates.
pub open spec fn parts_of(seconds: int, nanos: int) -> Option<MomentParts> {
    let rest = seconds % 86_400;
    match civil_of(seconds / 86_400) {
        Some(date) => Some(
            MomentParts {
                year: date.year,
                month: date.month,
                day: date.day,
                hour: (rest / 3_600) as u32,
                minute: (rest % 3_600 / 60) as u32,
                second: (rest % 60) as u32,
                nanosecond: nanos as u32,
            },
        ),
        None => None,
    }
}

/// The parts of a moment, or nothing for a day out of the range of dates.
pub fn moment_parts(seconds: i64, nanos: u32) -> (parts: Option<MomentParts>)
    requires
        -8_000_000_000_000 <= seconds <= 8_000_000_000_000,
    ensures
        parts == parts_of(seconds as int, nanos as int),
{
    let mut day = seconds / 86_400;
    let mut rest = seconds % 86_400;
    if rest < 0 {
        day -= 1;
        rest += 86_400;
    }
    match civil_from_ordinal(day as i32) {
        Some(CivilDate { year, month, day }) => Some(
            MomentParts {
                year,
                month,
                day,
                hour: (rest / 3_600) as u32,
                minute: (rest % 3_600 / 60) as u32,
                second: (rest % 60) as u32,
                nanosecond: nanos,
            },
        ),
        None => None,
    }
}

/// The words in which datetimes in a time zone other than UTC are refused.
pub open spec fn zone_words() -> Seq<char> {
    "polars_xdt to_julian currently only works on UTC or naive Datetime type. For now, please cast to UTC Datetime first."@
}

/// Whether a column is one whose Julian dates are worked out: dates, or datetimes
/// without a time zone or in UTC.
pub open spec fn has_julian_dates(s: ColumnModel) -> bool {
    match s {
        ColumnModel::Date(_) => true,
        ColumnModel::Datetime(_, zone, _) => zone is None || zone == Some("UTC"@),
        ColumnModel::Other(_) => false,
    }
}

/// The moment of each row in seconds and nanoseconds, a date being the start of its day.
pub open spec fn julian_moments(s: ColumnModel) -> Seq<Option<(int, int)>> {
    crate::format_localized::moments_of(s)
}

/// What taking the parts of a column asks of it: its rows are within reach of the time
/// zones and fall on days within the range of dates.
pub open spec fn can_take_parts(s: ColumnModel) -> bool {
    has_julian_dates(s) ==> {
        &&& crate::format_localized::rows_in_reach(s)
        &&& forall|i: int|
            0 <= i < julian_moments(s).len() && (#[trigger] julian_moments(s)[i]) is Some
                ==> parts_of(julian_moments(s)[i].unwrap().0, julian_moments(s)[i].unwrap().1)
                is Some
    }
}

/// What taking the parts of a column returns: the parts of each row, nothing where the
/// row is missing; or the refusal of a time zone other than UTC, or of a column that
/// holds neither dates nor datetimes.
pub open spec fn is_parts_result(s: ColumnModel, res: Result<Vec<Option<MomentParts>>, Error>) -> bool {
    match s {
        ColumnModel::Other(name) => res matches Err(Error::Type { dtype }) && dtype@ == name,
        _ => if has_julian_dates(s) {
            &&& res matches Ok(parts)
            &&& parts@.len() == julian_moments(s).len()
            &&& forall|i: int|
                0 <= i < parts@.len() ==> #[trigger] parts@[i] == match julian_moments(s)[i] {
                    Some((seconds, nanos)) => parts_of(seconds, nanos),
                    None => None,
                }
        } else {
            res matches Err(Error::TimeZone { message }) && message@ == zone_words()
        },
    }
}

/// The parts of the rows, or nothing if a row falls on a day out of the range of dates.
fn rows_parts(s: &Column) -> (parts: Option<Vec<Option<MomentParts>>>)
    requires
        has_julian_dates(s@),
        crate::format_localized::rows_in_reach(s@),
    ensures
        parts is Some <==> can_take_parts(s@),
        parts matches Some(taken) ==> is_parts_result(s@, Ok(taken)),
{
    let ghost moments = julian_moments(s@);
    let rows = s.len();
    let mut parts: Vec<Option<MomentParts>> = Vec::with_capacity(rows);
    let mut i: usize = 0;
    while i < rows
        invariant
            has_julian_dates(s@),
            crate::format_localized::rows_in_reach(s@),
            moments == julian_moments(s@),
            rows == moments.len(),
            i <= rows,
            parts.len() == i,
            forall|j: int|
                0 <= j < i && (#[trigger] moments[j]) is Some ==> parts_of(
                    moments[j].unwrap().0,
                    moments[j].unwrap().1,
                ) is Some,
            forall|j: int|
                0 <= j < i ==> #[trigger] parts@[j] == match moments[j] {
                    Some((seconds, nanos)) => parts_of(seconds, nanos),
                    None => None,
                },
        decreases rows - i,
    {
        let row = match row_moment(s, i) {
            Some((seconds, nanos)) => {
                match moment_parts(seconds, nanos) {
                    Some(taken) => Some(taken),
                    None => {
                        assert(moments[i as int] is Some);
                        return None;
                    },
                }
            },
            None => None,
        };
        parts.push(row);
        i += 1;
    }
    Some(parts)
}

/// The moment of a row in seconds and nanoseconds.
fn row_moment(s: &Column, i: usize) -> (moment: Option<(i64, u32)>)
    requires
        i < julian_moments(s@).len(),
        crate::format_localized::rows_in_reach(s@),
    ensures
        match moment {
            Some(parts) => julian_moments(s@)[i as int] == Some((parts.0 as int, parts.1 as int))
                && -8_000_000_000_000 <= parts.0 <= 8_000_000_000_000,
            None => julian_moments(s@)[i as int] is None,
        },
{
    match s {
        Column::Date(dates) => match dates[i] {
            Some(day) => Some((day as i64 * 86_400, 0)),
            None => None,
        },
        Column::Datetime(unit, _, stamps) => match stamps[i] {
            Some(stamp) => Some(split_stamp(stamp, *unit)),
            None => None,
        },
        Column::Other(_) => None,
    }
}

/// Whether a column is one whose Julian dates are worked out.
fn check_julian(s: &Column) -> (ok: bool)
    ensures
        ok == has_julian_dates(s@),
{
    match s {
        Column::Date(_) => true,
        Column::Datetime(_, zone, _) => match zone {
            None => true,
            Some(name) => *name == String::from_str("UTC"),
        },
        Column::Other(_) => false,
    }
}

/// The year, month, day, hour, minute, second and nanosecond of each row of a column of
/// dates or of datetimes without a time zone or in UTC, from which the Julian date of the
/// row is worked out. A row is missing in the result where it is missing in the column.
/// A column of another type is refused, and so are datetimes in another time zone.
pub fn impl_to_julian_parts(s: &Column) -> (res: Result<Vec<Option<MomentParts>>, Error>)
    requires
        can_take_parts(s@),
    ensures
        is_parts_result(s@, res),
{
    match s {
        Column::Other(name) => {
            return Err(Error::Type { dtype: name.clone() });
        },
        _ => {},
    }
    if !check_julian(s) {
        return Err(
            Error::TimeZone {
                message: String::from_str(
                    "polars_xdt to_julian currently only works on UTC or naive Datetime type. For now, please cast to UTC Datetime first.",
                ),
            },
        );
    }
    Ok(rows_parts(s).unwrap())
}

/// Takes the parts of a column as [`impl_to_julian_parts`] does if they can be taken, and
/// returns nothing if they cannot: a row is out of range.
pub fn try_to_julian_parts(s: &Column) -> (res: Option<Result<Vec<Option<MomentParts>>, Error>>)
    ensures
        res is Some <==> can_take_parts(s@),
        res is Some ==> is_parts_result(s@, res.unwrap()),
{
    if check_julian(s) {
        if !crate::format_localized::check_rows(s) {
            return None;
        }
        if rows_parts(s).is_none() {
            return None;
        }
    }
    Some(impl_to_julian_parts(s))
}

} // verus!
