//! Counting the business days between two columns of dates.

use crate::calendar::Calendar;
use crate::columns::{is_type_refusal, Column, ColumnModel};
use crate::error::Error;
use crate::model::CalendarModel;
use crate::workday_count::{checked_date_diff, date_diff};
use vstd::prelude::*;

verus! {

/// The number of rows of a count of business days between two columns: that of the
/// starts if there is a single end, else that of the ends if there is a single start,
/// else that of both.
pub open spec fn pair_rows(starts: Seq<Option<i32>>, ends: Seq<Option<i32>>) -> int {
    if ends.len() == 1 {
        starts.len() as int
    } else if starts.len() == 1 {
        ends.len() as int
    } else {
        starts.len() as int
    }
}

/// The start that goes with row `i`.
pub open spec fn pair_start(starts: Seq<Option<i32>>, ends: Seq<Option<i32>>, i: int) -> Option<i32> {
    if ends.len() != 1 && starts.len() == 1 {
        starts[0]
    } else {
        starts[i]
    }
}

/// The end that goes with row `i`.
pub open spec fn pair_end(starts: Seq<Option<i32>>, ends: Seq<Option<i32>>, i: int) -> Option<i32> {
    if ends.len() == 1 {
        ends[0]
    } else {
        ends[i]
    }
}

/// The count of a row, or nothing where start or end is missing.
pub open spec fn count_of(m: CalendarModel, start: Option<i32>, end: Option<i32>) -> Option<int> {
    if start is Some && end is Some {
        Some(m.workday_count(start.unwrap() as int, end.unwrap() as int))
    } else {
        None
    }
}

/// Whether the two columns can be counted between: they pair up, and each count is a
/// 32-bit number.
pub open spec fn counts_fit(m: CalendarModel, starts: Seq<Option<i32>>, ends: Seq<Option<i32>>) -> bool {
    &&& ends.len() == 1 || starts.len() == 1 || starts.len() == ends.len()
    &&& forall|i: int|
        0 <= i < pair_rows(starts, ends) ==> match #[trigger] count_of(
            m,
            pair_start(starts, ends, i),
            pair_end(starts, ends, i),
        ) {
            Some(count) => i32::MIN <= count <= i32::MAX,
            None => true,
        }
}

/// The counts of the rows of two columns of dates.
pub open spec fn counts_between(m: CalendarModel, starts: Seq<Option<i32>>, ends: Seq<Option<i32>>) -> Seq<
    Option<i32>,
> {
    Seq::new(
        pair_rows(starts, ends) as nat,
        |i: int|
            match count_of(m, pair_start(starts, ends, i), pair_end(starts, ends, i)) {
                Some(count) => Some(count as i32),
                None => None,
            },
    )
}

/// What counting between two columns asks of them, if both hold dates.
pub open spec fn can_count(m: CalendarModel, start_dates: ColumnModel, end_dates: ColumnModel) -> bool {
    match (start_dates, end_dates) {
        (ColumnModel::Date(starts), ColumnModel::Date(ends)) => counts_fit(m, starts, ends),
        _ => true,
    }
}

/// The signed number of business days from each start to the end beside it; a single
/// start or a single end goes with every row of the other column. A row is missing in the
/// result where start or end is missing. Only columns of dates are counted between: of
/// any other column, the starts looked at first, the type is refused.
pub fn impl_workday_count(start_dates: &Column, end_dates: &Column, cal: &Calendar) -> (res: Result<
    Vec<Option<i32>>,
    Error,
>)
    requires
        cal.wf(),
        can_count(cal@, start_dates@, end_dates@),
    ensures
        match res {
            Ok(counts) => {
                &&& start_dates@ matches ColumnModel::Date(starts)
                &&& end_dates@ matches ColumnModel::Date(ends)
                &&& counts@ == counts_between(cal@, starts, ends)
            },
            Err(e) => is_type_refusal(start_dates@, end_dates@, e),
        },
{
    let starts = match start_dates {
        Column::Date(starts) => starts,
        _ => {
            return Err(Error::Type { dtype: start_dates.dtype() });
        },
    };
    let ends = match end_dates {
        Column::Date(ends) => ends,
        _ => {
            return Err(Error::Type { dtype: end_dates.dtype() });
        },
    };
    let ghost m = cal@;
    let ghost wanted = counts_between(m, starts@, ends@);
    let single_end = ends.len() == 1;
    let single_start = !single_end && starts.len() == 1;
    let rows = if single_start {
        ends.len()
    } else {
        starts.len()
    };
    let mut counts: Vec<Option<i32>> = Vec::with_capacity(rows);
    let mut i: usize = 0;
    while i < rows
        invariant
            cal.wf(),
            m == cal@,
            wanted == counts_between(m, starts@, ends@),
            counts_fit(m, starts@, ends@),
            single_end == (ends.len() == 1),
            single_start == (ends.len() != 1 && starts.len() == 1),
            rows == pair_rows(starts@, ends@),
            i <= rows,
            counts.len() == i,
            forall|j: int| 0 <= j < i ==> #[trigger] counts@[j] == wanted[j],
        decreases rows - i,
    {
        let start = if single_start {
            starts[0]
        } else {
            starts[i]
        };
        let end = if single_end {
            ends[0]
        } else {
            ends[i]
        };
        assert(count_of(m, pair_start(starts@, ends@, i as int), pair_end(starts@, ends@, i as int))
            == count_of(m, start, end));
        let count = match (start, end) {
            (Some(start_date), Some(end_date)) => Some(date_diff(start_date, end_date, cal)),
            _ => None,
        };
        counts.push(count);
        i += 1;
    }
    assert(counts@ =~= wanted);
    Ok(counts)
}

/// Whether two columns of dates can be counted between: they pair up, and every count is
/// a 32-bit number. [`impl_workday_count`] asks this of two columns of dates.
pub fn check_workday_count(starts: &Vec<Option<i32>>, ends: &Vec<Option<i32>>, cal: &Calendar) -> (ok: bool)
    requires
        cal.wf(),
    ensures
        ok == counts_fit(cal@, starts@, ends@),
{
    let ghost m = cal@;
    if !(ends.len() == 1 || starts.len() == 1 || starts.len() == ends.len()) {
        return false;
    }
    let single_end = ends.len() == 1;
    let single_start = !single_end && starts.len() == 1;
    let rows = if single_start {
        ends.len()
    } else {
        starts.len()
    };
    let mut i: usize = 0;
    while i < rows
        invariant
            cal.wf(),
            m == cal@,
            ends.len() == 1 || starts.len() == 1 || starts.len() == ends.len(),
            single_end == (ends.len() == 1),
            single_start == (ends.len() != 1 && starts.len() == 1),
            rows == pair_rows(starts@, ends@),
            i <= rows,
            forall|j: int|
                0 <= j < i ==> match #[trigger] count_of(
                    m,
                    pair_start(starts@, ends@, j),
                    pair_end(starts@, ends@, j),
                ) {
                    Some(count) => i32::MIN <= count <= i32::MAX,
                    None => true,
                },
        decreases rows - i,
    {
        let start = if single_start {
            starts[0]
        } else {
            starts[i]
        };
        let end = if single_end {
            ends[0]
        } else {
            ends[i]
        };
        let ghost row = count_of(m, pair_start(starts@, ends@, i as int), pair_end(starts@, ends@, i as int));
        assert(row == count_of(m, start, end));
        let fits = match (start, end) {
            (Some(start_date), Some(end_date)) => checked_date_diff(start_date, end_date, cal).is_some(),
            _ => true,
        };
        if !fits {
            return false;
        }
        i += 1;
    }
    true
}

} // verus!
