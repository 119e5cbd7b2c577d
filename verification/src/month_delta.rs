//! Whole months between two dates.

use crate::columns::{is_type_refusal, Column, ColumnModel};
use crate::error::Error;
use vstd::prelude::*;

verus! {

/// A date of the proleptic Gregorian calendar by year, month and day of the month.
#[derive(Clone, Copy, Debug, PartialEq, Eq, Structural)]
pub struct CivilDate {
    pub year: i32,
    pub month: u32,
    pub day: u32,
}

/// Whether a year is a leap year.
pub open spec fn is_leap_year(year: int) -> bool {
    year % 400 == 0 || (year % 4 == 0 && year % 100 != 0)
}

/// The number of days of a month of a year.
pub open spec fn days_in_month(year: int, month: int) -> int {
    if month == 2 {
        if is_leap_year(year) {
            29
        } else {
            28
        }
    } else if month == 4 || month == 6 || month == 9 || month == 11 {
        30
    } else {
        31
    }
}

impl CivilDate {
    /// The month is one of the twelve, the day one of at most 31, and the year one that a
    /// date can have.
    pub open spec fn wf(self) -> bool {
        &&& -262_143 <= self.year <= 262_142
        &&& 1 <= self.month <= 12
        &&& 1 <= self.day <= 31
    }

    /// The months from the start of year 0 to the start of the month of the date.
    pub open spec fn month_index(self) -> int {
        self.year * 12 + self.month - 1
    }

    /// The date `months` months on: in that month, on the same day of the month, or on
    /// the last day of that month if it is too short.
    pub open spec fn add_months(self, months: int) -> CivilDate {
        let index = self.month_index() + months;
        let year = index / 12;
        let month = index % 12 + 1;
        let last = days_in_month(year, month);
        CivilDate {
            year: year as i32,
            month: month as u32,
            day: if self.day > last {
                last as u32
            } else {
                self.day
            },
        }
    }

    /// Whether the date is `other` or before it.
    pub open spec fn spec_le(self, other: CivilDate) -> bool {
        self.year < other.year || (self.year == other.year && (self.month < other.month || (
        self.month == other.month && self.day <= other.day)))
    }

    /// Whether the date is `other` or before it.
    pub fn le(&self, other: &CivilDate) -> (before: bool)
        ensures
            before == self.spec_le(*other),
    {
        self.year < other.year || (self.year == other.year && (self.month < other.month || (
        self.month == other.month && self.day <= other.day)))
    }

    /// The number of whole months from the date to `right`: the `n` with the date `n`
    /// months on at or before `right` and the date `n + 1` months on after it, where
    /// `right` is not before the date; and else the `n` with the date `n` months on at or
    /// after `right` and the date `n - 1` months on before it.
    pub open spec fn is_month_delta(self, right: CivilDate, n: int) -> bool {
        if self.spec_le(right) {
            self.add_months(n).spec_le(right) && !self.add_months(n + 1).spec_le(right)
        } else {
            right.spec_le(self.add_months(n)) && !right.spec_le(self.add_months(n - 1))
        }
    }
}

/// Later months give later dates.
pub proof fn lemma_add_months_increasing(date: CivilDate, a: int, b: int)
    requires
        date.wf(),
        a < b,
        i32::MIN <= (date.month_index() + a) / 12,
        (date.month_index() + b) / 12 <= i32::MAX,
    ensures
        date.add_months(a).spec_le(date.add_months(b)),
        !date.add_months(b).spec_le(date.add_months(a)),
{
}

/// Two dates have one number of whole months between them at most.
pub proof fn lemma_month_delta_unique(left: CivilDate, right: CivilDate, a: int, b: int)
    requires
        left.wf(),
        right.wf(),
        left.is_month_delta(right, a),
        left.is_month_delta(right, b),
        -10_000_000 <= a <= 10_000_000,
        -10_000_000 <= b <= 10_000_000,
    ensures
        a == b,
{
    if a < b {
        if left.spec_le(right) {
            if a + 1 < b {
                lemma_add_months_increasing(left, a + 1, b);
            }
        } else {
            if a < b - 1 {
                lemma_add_months_increasing(left, a, b - 1);
            }
        }
    } else if b < a {
        if left.spec_le(right) {
            if b + 1 < a {
                lemma_add_months_increasing(left, b + 1, a);
            }
        } else {
            if b < a - 1 {
                lemma_add_months_increasing(left, b, a - 1);
            }
        }
    }
}

/// The number of days of a month of a year.
fn last_day_of_month(year: i64, month: i64) -> (last: u32)
    requires
        1 <= month <= 12,
    ensures
        last == days_in_month(year as int, month as int),
{
    let leap_year = year % 400 == 0 || (year % 4 == 0 && year % 100 != 0);
    if month == 2 {
        if leap_year {
            29
        } else {
            28
        }
    } else if month == 4 || month == 6 || month == 9 || month == 11 {
        30
    } else {
        31
    }
}

/// The date `n_months` months after `ts` (before it, for a negative number): the years
/// and months are added, and a day past the end of the month becomes its last day.
pub fn add_month(ts: CivilDate, n_months: i64) -> (date: CivilDate)
    requires
        ts.wf(),
        i32::MIN <= (ts.month_index() + n_months) / 12 <= i32::MAX,
    ensures
        date == ts.add_months(n_months as int),
        1 <= date.month <= 12,
        1 <= date.day <= 31,
{
    let months = n_months;
    let mut year: i64 = ts.year as i64;
    let mut month: i64 = ts.month as i64;
    let mut day = ts.day;
    year += months / 12;
    month += months % 12;
    // the rest of the months moves the year by one at most
    if month > 12 {
        year += 1;
        month -= 12;
    } else if month <= 0 {
        year -= 1;
        month += 12;
    }
    let last = last_day_of_month(year, month);
    if day > last {
        day = last;
    }
    CivilDate { year: year as i32, month: month as u32, day }
}

/// The number of whole months from `left` to `right`, negative if `right` is before
/// `left`: the count starts a year short of the difference of the years and is moved
/// month by month as far as it goes.
pub fn get_m_diff(left: CivilDate, right: CivilDate) -> (n: i32)
    requires
        left.wf(),
        right.wf(),
    ensures
        left.is_month_delta(right, n as int),
{
    let mut n: i32 = 0;
    if left.le(&right) {
        if right.year + 1 > left.year {
            n = (right.year - left.year - 1) * 12;
        }
        while add_month(left, n as i64 + 1).le(&right)
            invariant
                left.wf(),
                right.wf(),
                left.spec_le(right),
                (right.year - left.year - 1) * 12 <= n <= (right.year - left.year + 1) * 12,
                left.add_months(n as int).spec_le(right),
            decreases (right.year - left.year + 1) * 12 - n,
        {
            n += 1;
        }
    } else {
        if left.year + 1 > right.year {
            n = -(left.year - right.year - 1) * 12;
        }
        while right.le(&add_month(left, n as i64 - 1))
            invariant
                left.wf(),
                right.wf(),
                !left.spec_le(right),
                -(left.year - right.year + 1) * 12 <= n <= -(left.year - right.year - 1) * 12,
                right.spec_le(left.add_months(n as int)),
            decreases n + (left.year - right.year + 1) * 12,
        {
            n -= 1;
        }
    }
    n
}

/// The date that chrono has for the day with the given number, day 1 being the first of
/// January of year 1, as year, month and day; nothing for a day out of its range.
pub uninterp spec fn civil_date(days_from_ce: int) -> Option<(i32, u32, u32)>;

/// `chrono::NaiveDate::from_num_days_from_ce_opt`, and `Datelike::year`, `month` and `day`
/// of what it gives: the date of a day by its number. The month is one of the twelve
/// and the day one of at most 31; the years are those from 262144 BCE to 262142 CE.
#[verifier::external_body]
fn date_of_day_number(days_from_ce: i32) -> (date: Option<(i32, u32, u32)>)
    ensures
        date == civil_date(days_from_ce as int),
        date matches Some(d) ==> -262_143 <= d.0 <= 262_142 && 1 <= d.1 <= 12 && 1 <= d.2 <= 31,
{
    match chrono::NaiveDate::from_num_days_from_ce_opt(days_from_ce) {
        Some(date) => Some((
            chrono::Datelike::year(&date),
            chrono::Datelike::month(&date),
            chrono::Datelike::day(&date),
        )),
        None => None,
    }
}

/// The number of the first day of 1970, day 1 being the first of January of year 1.
pub const EPOCH_DAYS_FROM_CE: i32 = 719_163;

/// The date of a day ordinal, or nothing for an ordinal out of the range of dates.
pub open spec fn civil_of(day: int) -> Option<CivilDate> {
    if day + EPOCH_DAYS_FROM_CE > i32::MAX {
        None
    } else {
        match civil_date(day + EPOCH_DAYS_FROM_CE) {
            Some(d) => Some(CivilDate { year: d.0, month: d.1, day: d.2 }),
            None => None,
        }
    }
}

/// The date of a day ordinal, or nothing for an ordinal out of the range of dates.
pub fn civil_from_ordinal(day: i32) -> (date: Option<CivilDate>)
    ensures
        date == civil_of(day as int),
        date matches Some(d) ==> d.wf(),
{
    if day > i32::MAX - EPOCH_DAYS_FROM_CE {
        None
    } else {
        match date_of_day_number(day + EPOCH_DAYS_FROM_CE) {
            Some((year, month, day)) => Some(CivilDate { year, month, day }),
            None => None,
        }
    }
}

/// The number of rows of the months between two columns: that of the shorter.
pub open spec fn month_rows(starts: Seq<Option<i32>>, ends: Seq<Option<i32>>) -> int {
    if starts.len() <= ends.len() {
        starts.len() as int
    } else {
        ends.len() as int
    }
}

/// Whether every date of the first rows of a column is in the range of dates.
pub open spec fn dates_in_range(dates: Seq<Option<i32>>, rows: int) -> bool {
    forall|i: int|
        0 <= i < rows && (#[trigger] dates[i]) is Some ==> civil_of(dates[i].unwrap() as int)
            is Some
}

/// Whether `n` is the number of whole months between the dates of a row, or nothing where
/// a date is missing.
pub open spec fn is_month_delta_of(start: Option<i32>, end: Option<i32>, n: Option<i32>) -> bool {
    if start is Some && end is Some {
        n is Some && civil_of(start.unwrap() as int).unwrap().is_month_delta(
            civil_of(end.unwrap() as int).unwrap(),
            n.unwrap() as int,
        )
    } else {
        n is None
    }
}

/// Whether the months between two columns can be counted: if both hold dates, those of
/// the rows counted are in the range of dates.
pub open spec fn months_ready(start_dates: ColumnModel, end_dates: ColumnModel) -> bool {
    match (start_dates, end_dates) {
        (ColumnModel::Date(starts), ColumnModel::Date(ends)) => {
            &&& dates_in_range(starts, month_rows(starts, ends))
            &&& dates_in_range(ends, month_rows(starts, ends))
        },
        _ => true,
    }
}

/// What counting the months between two columns returns: the months of each row, or the
/// type that is refused.
pub open spec fn is_months_between(
    start_dates: ColumnModel,
    end_dates: ColumnModel,
    res: Result<Vec<Option<i32>>, Error>,
) -> bool {
    match res {
        Ok(months) => {
            &&& start_dates matches ColumnModel::Date(starts)
            &&& end_dates matches ColumnModel::Date(ends)
            &&& months@.len() == month_rows(starts, ends)
            &&& forall|i: int|
                0 <= i < months@.len() ==> is_month_delta_of(
                    starts[i],
                    ends[i],
                    #[trigger] months@[i],
                )
        },
        Err(e) => is_type_refusal(start_dates, end_dates, e),
    }
}

/// The number of whole months from each start to the end beside it, for as many rows as
/// both columns have. A row is missing in the result where start or end is missing. Only
/// columns of dates are taken: of any other column, the starts looked at first, the type
/// is refused.
pub fn impl_month_delta(start_dates: &Column, end_dates: &Column) -> (res: Result<
    Vec<Option<i32>>,
    Error,
>)
    requires
        months_ready(start_dates@, end_dates@),
    ensures
        is_months_between(start_dates@, end_dates@, res),
{
    let starts = match start_dates {
        Column::Date(starts) => starts,
        _ => {
            return Err(Error::Type { dtype: start_dates.dtype() });
        },
    };
    let ends = match end_dates {
        Column::Date(ends) => ends,
        _ => {
            return Err(Error::Type { dtype: end_dates.dtype() });
        },
    };
    let rows = if starts.len() <= ends.len() {
        starts.len()
    } else {
        ends.len()
    };
    let mut months: Vec<Option<i32>> = Vec::with_capacity(rows);
    let mut i: usize = 0;
    while i < rows
        invariant
            rows == month_rows(starts@, ends@),
            dates_in_range(starts@, rows as int),
            dates_in_range(ends@, rows as int),
            i <= rows,
            months.len() == i,
            forall|j: int|
                0 <= j < i ==> is_month_delta_of(starts@[j], ends@[j], #[trigger] months@[j]),
        decreases rows - i,
    {
        let delta = match (starts[i], ends[i]) {
            (Some(start), Some(end)) => {
                let left = civil_from_ordinal(start).unwrap();
                let right = civil_from_ordinal(end).unwrap();
                Some(get_m_diff(left, right))
            },
            _ => None,
        };
        months.push(delta);
        i += 1;
    }
    Ok(months)
}

/// Whether every date of the first rows of a column is in the range of dates.
fn check_dates(dates: &Vec<Option<i32>>, rows: usize) -> (ok: bool)
    requires
        rows <= dates.len(),
    ensures
        ok == dates_in_range(dates@, rows as int),
{
    let mut i: usize = 0;
    while i < rows
        invariant
            i <= rows <= dates.len(),
            dates_in_range(dates@, i as int),
        decreases rows - i,
    {
        match dates[i] {
            Some(day) => {
                if civil_from_ordinal(day).is_none() {
                    return false;
                }
            },
            None => {},
        }
        i += 1;
    }
    true
}

/// The months between two columns as [`impl_month_delta`] counts them, or nothing if a
/// date of the rows counted is out of the range of dates.
pub fn try_month_delta(start_dates: &Column, end_dates: &Column) -> (res: Option<
    Result<Vec<Option<i32>>, Error>,
>)
    ensures
        res is Some <==> months_ready(start_dates@, end_dates@),
        res is Some ==> is_months_between(start_dates@, end_dates@, res.unwrap()),
{
    match (start_dates, end_dates) {
        (Column::Date(starts), Column::Date(ends)) => {
            let rows = if starts.len() <= ends.len() {
                starts.len()
            } else {
                ends.len()
            };
            if !check_dates(starts, rows) || !check_dates(ends, rows) {
                return None;
            }
        },
        _ => {},
    }
    Some(impl_month_delta(start_dates, end_dates))
}

} // verus!
