//! Whether a date is a business day.

use crate::calendar::Calendar;
use crate::weekday::{weekday, weekday_of};
use vstd::prelude::*;

verus! {

/// Whether `date` is a business day: its weekday is open and it is not among the
/// holidays, which are searched by bisection.
pub fn is_workday_date(date: i32, cal: &Calendar) -> (workday: bool)
    requires
        cal.wf(),
    ensures
        workday == cal@.is_workday(date as int),
        workday == (cal@.weekmask[weekday_of(date as int) - 1] && !cal@.holidays.contains(
            date as int,
        )),
{
    cal.is_open(weekday(date)) && !cal.holidays().contains(date)
}

} // verus!
