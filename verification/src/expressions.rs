//! The three operations of the calendar as they are asked for: on columns, with the week
//! mask, the holidays and the roll policy given beside them.

use crate::advance_columns::{can_advance, is_advance_result, try_advance_n_days};
use crate::calendar::{calendar_model, Calendar};
use crate::columns::Column;
use crate::count_columns::{can_count, check_workday_count, counts_between, impl_workday_count};
use crate::columns::{is_type_refusal, ColumnModel};
use crate::error::Error;
use crate::workday_columns::{can_tell_workdays, is_workday_result, try_is_workday};
use vstd::prelude::*;

verus! {

/// What the operations of the calendar are told: the holidays in any order, the week mask
/// (entry `w - 1` is `true` where weekday `w`, Monday = 1, is open), and the name of the
/// roll policy, which only advancing looks at.
#[derive(Debug, PartialEq, Eq)]
pub struct BusinessDayKwargs {
    pub holidays: Vec<i32>,
    pub weekmask: [bool; 7],
    pub roll: String,
}

impl BusinessDayKwargs {
    /// The calendar that the holidays and the week mask make.
    pub open spec fn calendar(self) -> crate::model::CalendarModel {
        calendar_model(self.weekmask@, self.holidays@)
    }
}

/// Advances the rows of `s` by the business days of `n`, under the calendar and the roll
/// policy of `kwargs`: see [`crate::advance_columns::impl_advance_n_days`]. There is no
/// answer where the offsets do not pair with the rows or a datetime or a target is out of
/// range.
pub fn advance_n_days(s: &Column, n: &Vec<Option<i32>>, kwargs: &BusinessDayKwargs) -> (res: Option<
    Result<Column, Error>,
>)
    ensures
        res is Some <==> can_advance(kwargs.calendar(), s@, n@, kwargs.roll@),
        res is Some ==> is_advance_result(kwargs.calendar(), s@, n@, kwargs.roll@, res.unwrap()),
{
    let calendar = Calendar::new(kwargs.weekmask, &kwargs.holidays);
    try_advance_n_days(s, n, &calendar, kwargs.roll.as_str())
}

/// What counting between two columns returns: the counts of the rows, or the type that
/// is refused.
pub open spec fn is_count_result(
    m: crate::model::CalendarModel,
    start_dates: ColumnModel,
    end_dates: ColumnModel,
    res: Result<Vec<Option<i32>>, Error>,
) -> bool {
    match res {
        Ok(counts) => {
            &&& start_dates matches ColumnModel::Date(starts)
            &&& end_dates matches ColumnModel::Date(ends)
            &&& counts@ == counts_between(m, starts, ends)
        },
        Err(e) => is_type_refusal(start_dates, end_dates, e),
    }
}

/// Counts the business days from each start to the end beside it, under the calendar of
/// `kwargs`: see [`crate::count_columns::impl_workday_count`]. There is no answer where
/// two columns of dates do not pair up or a count is out of range.
pub fn workday_count(start_dates: &Column, end_dates: &Column, kwargs: &BusinessDayKwargs) -> (res: Option<
    Result<Vec<Option<i32>>, Error>,
>)
    ensures
        res is Some <==> can_count(kwargs.calendar(), start_dates@, end_dates@),
        res is Some ==> is_count_result(kwargs.calendar(), start_dates@, end_dates@, res.unwrap()),
{
    let calendar = Calendar::new(kwargs.weekmask, &kwargs.holidays);
    match (start_dates, end_dates) {
        (Column::Date(starts), Column::Date(ends)) => {
            if !check_workday_count(starts, ends, &calendar) {
                return None;
            }
        },
        _ => {},
    }
    Some(impl_workday_count(start_dates, end_dates, &calendar))
}

/// Tells of each row of `dates` whether it is a business day under the calendar of
/// `kwargs`: see [`crate::workday_columns::impl_is_workday`]. There is no answer where a
/// datetime is out of range.
pub fn is_workday(dates: &Column, kwargs: &BusinessDayKwargs) -> (res: Option<
    Result<Vec<Option<bool>>, Error>,
>)
    ensures
        res is Some <==> can_tell_workdays(dates@),
        res is Some ==> is_workday_result(kwargs.calendar(), dates@, res.unwrap()),
{
    let calendar = Calendar::new(kwargs.weekmask, &kwargs.holidays);
    try_is_workday(dates, &calendar)
}

} // verus!
