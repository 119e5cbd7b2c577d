//! Business-calendar arithmetic on day ordinals (days since 1970-01-01, a Thursday):
//! advancing a date by business days, counting the business days between two dates, and
//! telling whether a date is a business day, under a week mask and a set of holidays.
//!
//! The calendar itself is in [`weekday`], [`holidays`], [`offset_cache`], [`calendar`],
//! [`advance`], [`workday_count`] and [`is_workday`], over the mathematical model in
//! [`model`] and [`counting`]; [`advance_columns`], [`count_columns`] and
//! [`workday_columns`] apply it to whole [`columns`] of dates and datetimes, and
//! [`expressions`] holds the three operations as they are asked for. Beside it stand the months between dates ([`month_delta`]), datetimes on the
//! clocks of time zones ([`time_zone`], [`local_datetime`], [`fields`]), dates in the words
//! of a locale ([`format_localized`]), the parts of moments that Julian dates are worked out
//! from ([`to_julian`]), and the last greater number before each number of a column
//! ([`arg_previous_greater`]).

pub mod advance;
pub mod advance_columns;
pub mod arg_previous_greater;
pub mod calendar;
pub mod columns;
pub mod count_columns;
pub mod counting;
pub mod error;
pub mod expressions;
pub mod fields;
pub mod format_localized;
pub mod holidays;
pub mod is_workday;
pub mod local_datetime;
pub mod model;
pub mod month_delta;
pub mod offset_cache;
pub mod policy;
pub mod time_zone;
pub mod to_julian;
pub mod weekday;
pub mod workday_columns;
pub mod workday_count;

pub use advance::{advance_wide, calculate_advance, checked_advance};
pub use calendar::Calendar;
pub use advance_columns::{check_advance, impl_advance_n_days, try_advance_n_days};
pub use columns::{Column, TimeUnit};
pub use count_columns::{check_workday_count, impl_workday_count};
pub use workday_columns::{impl_is_workday, try_is_workday};
pub use error::Error;
pub use expressions::{advance_n_days, is_workday, workday_count, BusinessDayKwargs};
pub use fields::{
    from_local_datetime_output, to_local_datetime_output, DataType, Field, FromLocalDatetimeKwargs,
};
pub use format_localized::{
    format_localized, impl_format_localized, try_format_localized, FormatLocalizedKwargs,
};
pub use holidays::HolidaySet;
pub use is_workday::is_workday_date;
pub use local_datetime::{
    check_turn, elementwise_from_local_datetime, elementwise_to_local_datetime, parse_ambiguous,
    Ambiguous,
};
pub use time_zone::Instants;
pub use to_julian::{impl_to_julian_parts, try_to_julian_parts, MomentParts};
pub use model::RollPolicy;
pub use month_delta::{add_month, get_m_diff, impl_month_delta, try_month_delta, CivilDate};
pub use offset_cache::OffsetCache;
pub use policy::parse_roll;
pub use weekday::weekday;
pub use workday_count::{checked_date_diff, date_diff, date_diff_wide};
