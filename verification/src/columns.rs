//! Columns of dates and datetimes, each row of which may be missing.

use crate::error::Error;
use crate::local_datetime::{
    first_refusal, is_turned, to_clock, to_instant, turned_row, turned_rows, zone_for,
    zone_refusal_words, Ambiguous,
};
use crate::time_zone::{is_zone, stamps_in_reach, zone_reach, zone_text};
use vstd::prelude::*;
use vstd::string::StringExecFns;

verus! {

/// The unit in which a datetime counts the time since the start of 1970.
#[derive(Clone, Copy, Debug, PartialEq, Eq, Structural)]
pub enum TimeUnit {
    Milliseconds,
    Microseconds,
    Nanoseconds,
}

impl TimeUnit {
    /// The number of units in a day.
    pub open spec fn ticks_per_day(self) -> int {
        match self {
            TimeUnit::Milliseconds => 86_400_000,
            TimeUnit::Microseconds => 86_400_000_000,
            TimeUnit::Nanoseconds => 86_400_000_000_000,
        }
    }

    /// The short name of the unit.
    pub open spec fn name(self) -> Seq<char> {
        match self {
            TimeUnit::Milliseconds => "ms"@,
            TimeUnit::Microseconds => "us"@,
            TimeUnit::Nanoseconds => "ns"@,
        }
    }

    /// The short name of the unit: `ms`, `us` or `ns`.
    pub fn short_name(&self) -> (name: &'static str)
        ensures
            name@ == self.name(),
    {
        match self {
            TimeUnit::Milliseconds => "ms",
            TimeUnit::Microseconds => "us",
            TimeUnit::Nanoseconds => "ns",
        }
    }

    /// The number of units in a day.
    pub fn multiplier(&self) -> (ticks: i64)
        ensures
            ticks == self.ticks_per_day(),
    {
        match self {
            TimeUnit::Milliseconds => 60 * 60 * 24 * 1_000,
            TimeUnit::Microseconds => 60 * 60 * 24 * 1_000_000,
            TimeUnit::Nanoseconds => 60 * 60 * 24 * 1_000_000_000,
        }
    }
}

/// A column of values, each of which may be missing.
#[derive(Debug, PartialEq, Eq)]
pub enum Column {
    /// Day ordinals.
    Date(Vec<Option<i32>>),
    /// Datetimes in a unit, counted from the start of 1970 in UTC, with the name of their
    /// time zone if they have one.
    Datetime(TimeUnit, Option<String>, Vec<Option<i64>>),
    /// Anything else, by the name of its type.
    Other(String),
}

/// A column as a mathematical value.
pub ghost enum ColumnModel {
    Date(Seq<Option<i32>>),
    Datetime(TimeUnit, Option<Seq<char>>, Seq<Option<i64>>),
    Other(Seq<char>),
}

impl View for Column {
    type V = ColumnModel;

    open spec fn view(&self) -> ColumnModel {
        match self {
            Column::Date(dates) => ColumnModel::Date(dates@),
            Column::Datetime(unit, zone, stamps) => ColumnModel::Datetime(
                *unit,
                zone_text(*zone),
                stamps@,
            ),
            Column::Other(name) => ColumnModel::Other(name@),
        }
    }
}

impl ColumnModel {
    /// The number of rows; a column of another type counts as having none.
    pub open spec fn rows(self) -> int {
        match self {
            ColumnModel::Date(dates) => dates.len() as int,
            ColumnModel::Datetime(_, _, stamps) => stamps.len() as int,
            ColumnModel::Other(_) => 0,
        }
    }

    /// The name of the type of the column.
    pub open spec fn dtype_name(self) -> Seq<char> {
        match self {
            ColumnModel::Date(_) => "date"@,
            ColumnModel::Datetime(unit, None, _) => "datetime["@ + unit.name() + "]"@,
            ColumnModel::Datetime(unit, Some(zone), _) => "datetime["@ + unit.name() + ", "@ + zone
                + "]"@,
            ColumnModel::Other(name) => name,
        }
    }
}

impl Column {
    /// The number of rows.
    pub fn len(&self) -> (n: usize)
        ensures
            n == self@.rows(),
    {
        match self {
            Column::Date(dates) => dates.len(),
            Column::Datetime(_, _, stamps) => stamps.len(),
            Column::Other(_) => 0,
        }
    }

    /// The name of the type of the column.
    pub fn dtype(&self) -> (name: String)
        ensures
            name@ == self@.dtype_name(),
    {
        match self {
            Column::Date(_) => String::from_str("date"),
            Column::Datetime(unit, zone, _) => {
                let mut name = String::from_str("datetime[");
                name.append(unit.short_name());
                match zone {
                    Some(zone) => {
                        name.append(", ");
                        name.append(zone.as_str());
                    },
                    None => {},
                }
                name.append("]");
                name
            },
            Column::Other(name) => name.clone(),
        }
    }
}

/// The quotient of `x` by a positive `d`, rounded towards zero.
pub open spec fn quotient_to_zero(x: int, d: int) -> int {
    if x >= 0 {
        x / d
    } else {
        -((-x) / d)
    }
}

/// The day ordinal of a datetime: its count of units divided by the units in a day,
/// rounded towards zero.
pub open spec fn day_of(stamp: int, unit: TimeUnit) -> int {
    quotient_to_zero(stamp, unit.ticks_per_day())
}

/// The day ordinal of each date, or nothing where the date is missing.
pub open spec fn days_of_dates(dates: Seq<Option<i32>>) -> Seq<Option<int>> {
    Seq::new(
        dates.len(),
        |i: int|
            match dates[i] {
                Some(date) => Some(date as int),
                None => None,
            },
    )
}

/// The day ordinal of each datetime, or nothing where the datetime is missing.
pub open spec fn days_of_stamps(stamps: Seq<Option<i64>>, unit: TimeUnit) -> Seq<Option<int>> {
    Seq::new(
        stamps.len(),
        |i: int|
            match stamps[i] {
                Some(stamp) => Some(day_of(stamp as int, unit)),
                None => None,
            },
    )
}

/// Whether every day is a 32-bit ordinal.
pub open spec fn days_fit(days: Seq<Option<int>>) -> bool {
    forall|i: int|
        0 <= i < days.len() && (#[trigger] days[i]) is Some ==> i32::MIN <= days[i].unwrap()
            <= i32::MAX
}

/// The single zone of a column as a column of zones.
pub open spec fn one_zone(zone: Seq<char>) -> Seq<Option<Seq<char>>> {
    seq![Some(zone)]
}

/// Whether the zone of a column, if it has one, is a zone that the database has.
pub open spec fn zone_is_known(zone: Option<Seq<char>>) -> bool {
    zone matches Some(name) ==> is_zone(name)
}

/// The datetimes of a column as the clock of their time zone shows them, which for
/// datetimes without a time zone are the datetimes themselves.
pub open spec fn clock_times(unit: TimeUnit, zone: Option<Seq<char>>, stamps: Seq<Option<i64>>) -> Seq<
    Option<i64>,
> {
    match zone {
        Some(name) => turned_rows(stamps, one_zone(name), to_clock(unit)),
        None => stamps,
    }
}

/// What putting times on the clock of a zone back into the zone comes to: the moments at
/// which the clock shows them, or the words in which the first time that the clock shows
/// twice or not at all is refused.
pub open spec fn is_zoned(
    unit: TimeUnit,
    zone: Option<Seq<char>>,
    clock: Seq<Option<i64>>,
    outcome: Result<Seq<Option<i64>>, Seq<char>>,
) -> bool {
    match zone {
        Some(name) => is_turned(
            clock,
            one_zone(name),
            to_instant(unit, name, Ambiguous::Raise),
            outcome,
        ),
        None => outcome == Ok::<Seq<Option<i64>>, Seq<char>>(clock),
    }
}

/// The day ordinal of a datetime.
pub(crate) fn stamp_day(stamp: i64, unit: TimeUnit) -> (day: i64)
    ensures
        day == day_of(stamp as int, unit),
{
    stamp / unit.multiplier()
}

/// How far from the start of 1970 a datetime may lie for the time zones to be asked.
pub(crate) fn reach_of(unit: TimeUnit) -> (reach: i64)
    ensures
        reach == zone_reach(unit),
{
    match unit {
        TimeUnit::Milliseconds => 8_000_000_000_000_000,
        TimeUnit::Microseconds => 8_000_000_000_000_000_000,
        TimeUnit::Nanoseconds => 9_000_000_000_000_000_000,
    }
}

/// The clock of a zone that the database has shows a time at every moment: taking
/// moments to the clock is refused for an unknown zone only.
pub proof fn lemma_known_zone_has_clock(unit: TimeUnit, zone: Seq<char>, stamps: Seq<Option<i64>>, words: Seq<char>)
    requires
        is_turned(stamps, one_zone(zone), to_clock(unit), Err(words)),
    ensures
        !is_zone(zone),
        words == zone_refusal_words(zone),
{
    if is_zone(zone) {
        let i = choose|i: int| #[trigger]
            first_refusal(stamps, one_zone(zone), to_clock(unit), i, words);
        assert(turned_row(
            stamps[i],
            zone_for(one_zone(zone), i),
            to_clock(unit),
        ) is Ok);
    }
}

/// Whether every datetime lies within reach of the time zones.
pub(crate) fn check_reach(stamps: &Vec<Option<i64>>, unit: TimeUnit) -> (ok: bool)
    ensures
        ok == stamps_in_reach(stamps@, unit),
{
    let reach = reach_of(unit);
    let mut i: usize = 0;
    while i < stamps.len()
        invariant
            reach == zone_reach(unit),
            i <= stamps.len(),
            forall|j: int|
                0 <= j < i && (#[trigger] stamps@[j]) is Some ==> -zone_reach(unit)
                    <= stamps@[j].unwrap() <= zone_reach(unit),
        decreases stamps.len() - i,
    {
        match stamps[i] {
            Some(stamp) => {
                if stamp < -reach || stamp > reach {
                    return false;
                }
            },
            None => {},
        }
        i += 1;
    }
    true
}

/// What a function that takes two columns of dates returns for columns of another type:
/// the type of the first column that does not hold dates is refused.
pub open spec fn is_type_refusal(first: ColumnModel, second: ColumnModel, e: Error) -> bool {
    &&& e matches Error::Type { dtype }
    &&& if first is Date {
        !(second is Date) && dtype@ == second.dtype_name()
    } else {
        dtype@ == first.dtype_name()
    }
}

} // verus!
