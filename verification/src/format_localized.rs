//! Dates and datetimes written in the words of a locale.

use crate::columns::{Column, ColumnModel};
use crate::error::Error;
use crate::local_datetime::{nanos_of_stamp, seconds_of_stamp, split_stamp, zone_or_utc};
use crate::time_zone::{is_zone, seconds_in_reach, stamps_in_reach, zone_known};
use std::fmt::Write;
use vstd::prelude::*;
use vstd::string::StringExecFns;

verus! {

/// How to write the rows of a column: the format, with the escapes of `strftime`, and the
/// name of the locale whose words to use.
#[derive(Debug, PartialEq, Eq)]
pub struct FormatLocalizedKwargs {
    pub format: String,
    pub locale: String,
}

/// Whether a locale of the name is known.
pub uninterp spec fn is_locale(locale: Seq<char>) -> bool;

/// A moment written as the clock of a time zone shows it, in a format and in the words of
/// a locale; or nothing for a format that cannot be followed.
pub uninterp spec fn localized_words(
    seconds: int,
    nanos: int,
    zone: Seq<char>,
    format: Seq<char>,
    locale: Seq<char>,
) -> Option<Seq<char>>;

/// `chrono::Locale::try_from`: whether a locale of the name is known.
#[verifier::external_body]
fn locale_known(locale: &str) -> (known: bool)
    ensures
        known == is_locale(locale@),
{
    chrono::Locale::try_from(locale).is_ok()
}

/// `chrono::DateTime::format_localized` of the moment in the zone of the name, written
/// out: the moment in the format and the words of the locale, or nothing where writing
/// it fails, as it does for a format that cannot be followed.
#[verifier::external_body]
fn localized_text(seconds: i64, nanos: u32, zone: &str, format: &str, locale: &str) -> (text: Option<
    String,
>)
    requires
        is_zone(zone@),
        is_locale(locale@),
        seconds_in_reach(seconds as int),
        nanos < 1_000_000_000,
    ensures
        text is Some <==> localized_words(seconds as int, nanos as int, zone@, format@, locale@)
            is Some,
        text matches Some(written) ==> localized_words(
            seconds as int,
            nanos as int,
            zone@,
            format@,
            locale@,
        ) == Some(written@),
{
    let tz = zone.parse::<chrono_tz::Tz>().unwrap();
    let locale = chrono::Locale::try_from(locale).unwrap();
    let moment = chrono::DateTime::from_timestamp(seconds, nanos).unwrap().with_timezone(&tz);
    let mut text = String::new();
    match write!(text, "{}", moment.format_localized(format, locale)) {
        Ok(()) => Some(text),
        Err(_) => None,
    }
}

/// The day ordinals that have a date to write.
pub open spec fn day_in_reach(day: int) -> bool {
    -92_592_592 <= day <= 92_592_592
}

/// The moment of each row of a column in seconds since the start of 1970 and nanoseconds
/// beyond, a date being the start of its day; or nothing where the row is missing.
pub open spec fn moments_of(s: ColumnModel) -> Seq<Option<(int, int)>> {
    match s {
        ColumnModel::Date(dates) => Seq::new(
            dates.len(),
            |i: int|
                match dates[i] {
                    Some(day) => Some((day * 86_400, 0int)),
                    None => None,
                },
        ),
        ColumnModel::Datetime(unit, _, stamps) => Seq::new(
            stamps.len(),
            |i: int|
                match stamps[i] {
                    Some(stamp) => Some(
                        (seconds_of_stamp(stamp as int, unit), nanos_of_stamp(stamp as int, unit)),
                    ),
                    None => None,
                },
        ),
        ColumnModel::Other(_) => Seq::empty(),
    }
}

/// The name of the zone on whose clock the rows of a column are written: that of the
/// column, or UTC for dates and for datetimes without a zone.
pub open spec fn written_zone(s: ColumnModel) -> Seq<char> {
    match s {
        ColumnModel::Datetime(_, zone, _) => zone_or_utc(zone),
        _ => "UTC"@,
    }
}

/// Whether each row of a column is within reach of the time zones.
pub open spec fn rows_in_reach(s: ColumnModel) -> bool {
    match s {
        ColumnModel::Date(dates) => forall|i: int|
            0 <= i < dates.len() && (#[trigger] dates[i]) is Some ==> day_in_reach(
                dates[i].unwrap() as int,
            ),
        ColumnModel::Datetime(unit, _, stamps) => stamps_in_reach(stamps, unit),
        ColumnModel::Other(_) => true,
    }
}

/// Whether each of the first `upto` rows can be written.
pub open spec fn rows_can_be_written(
    moments: Seq<Option<(int, int)>>,
    zone: Seq<char>,
    format: Seq<char>,
    locale: Seq<char>,
    upto: int,
) -> bool {
    forall|i: int|
        0 <= i < upto && (#[trigger] moments[i]) is Some ==> localized_words(
            moments[i].unwrap().0,
            moments[i].unwrap().1,
            zone,
            format,
            locale,
        ) is Some
}

/// What writing a column asks of it, if the locale is known: the column holds dates or
/// datetimes within reach of the time zones, its zone is known, and the format can be
/// followed for every row.
pub open spec fn can_format(s: ColumnModel, format: Seq<char>, locale: Seq<char>) -> bool {
    is_locale(locale) ==> {
        &&& !(s is Other)
        &&& rows_in_reach(s)
        &&& is_zone(written_zone(s))
        &&& rows_can_be_written(
            moments_of(s),
            written_zone(s),
            format,
            locale,
            moments_of(s).len() as int,
        )
    }
}

/// Whether `text` is what row `i` is written as: nothing where the row is missing.
pub open spec fn is_written_row(
    moment: Option<(int, int)>,
    zone: Seq<char>,
    format: Seq<char>,
    locale: Seq<char>,
    text: Option<String>,
) -> bool {
    match moment {
        Some((seconds, nanos)) => text matches Some(written) && localized_words(
            seconds,
            nanos,
            zone,
            format,
            locale,
        ) == Some(written@),
        None => text is None,
    }
}

/// What writing a column returns: a locale that is not known is refused; else each row
/// is written, and missing where it is missing in the column.
pub open spec fn is_formatted(
    s: ColumnModel,
    format: Seq<char>,
    locale: Seq<char>,
    res: Result<Vec<Option<String>>, Error>,
) -> bool {
    if !is_locale(locale) {
        res matches Err(Error::Locale { locale: given }) && given@ == locale
    } else {
        &&& res matches Ok(texts)
        &&& texts@.len() == moments_of(s).len()
        &&& forall|i: int|
            0 <= i < texts@.len() ==> is_written_row(
                moments_of(s)[i],
                written_zone(s),
                format,
                locale,
                #[trigger] texts@[i],
            )
    }
}

/// The moment of a row in seconds and nanoseconds.
fn moment_of_row(s: &Column, i: usize) -> (moment: Option<(i64, u32)>)
    requires
        i < moments_of(s@).len(),
        rows_in_reach(s@),
    ensures
        match moment {
            Some(parts) => moments_of(s@)[i as int] == Some((parts.0 as int, parts.1 as int))
                && seconds_in_reach(parts.0 as int) && parts.1 < 1_000_000_000,
            None => moments_of(s@)[i as int] is None,
        },
{
    match s {
        Column::Date(dates) => match dates[i] {
            Some(day) => Some((day as i64 * 86_400, 0)),
            None => None,
        },
        Column::Datetime(unit, _, stamps) => match stamps[i] {
            Some(stamp) => Some(split_stamp(stamp, *unit)),
            None => None,
        },
        Column::Other(_) => None,
    }
}

/// The rows of a column written, or nothing if the format cannot be followed for a row.
fn write_rows(s: &Column, zone: &str, format: &str, locale: &str) -> (texts: Option<Vec<Option<String>>>)
    requires
        is_locale(locale@),
        is_zone(zone@),
        zone@ == written_zone(s@),
        rows_in_reach(s@),
    ensures
        texts is Some <==> rows_can_be_written(
            moments_of(s@),
            zone@,
            format@,
            locale@,
            moments_of(s@).len() as int,
        ),
        texts matches Some(written) ==> is_formatted(s@, format@, locale@, Ok(written)),
{
    let ghost moments = moments_of(s@);
    let rows = s.len();
    let mut texts: Vec<Option<String>> = Vec::with_capacity(rows);
    let mut i: usize = 0;
    while i < rows
        invariant
            is_locale(locale@),
            is_zone(zone@),
            zone@ == written_zone(s@),
            rows_in_reach(s@),
            moments == moments_of(s@),
            rows == moments.len(),
            i <= rows,
            texts.len() == i,
            rows_can_be_written(moments, zone@, format@, locale@, i as int),
            forall|j: int|
                0 <= j < i ==> is_written_row(moments[j], zone@, format@, locale@, #[trigger] texts@[j]),
        decreases rows - i,
    {
        let text = match moment_of_row(s, i) {
            Some((seconds, nanos)) => {
                match localized_text(seconds, nanos, zone, format, locale) {
                    Some(written) => Some(written),
                    None => {
                        assert(moments[i as int] is Some);
                        return None;
                    },
                }
            },
            None => None,
        };
        texts.push(text);
        i += 1;
    }
    Some(texts)
}

/// The zone on whose clock the rows of a column are written.
fn zone_to_write(s: &Column) -> (zone: &str)
    ensures
        zone@ == written_zone(s@),
{
    match s {
        Column::Datetime(_, Some(name), _) => name.as_str(),
        _ => "UTC",
    }
}

/// Writes each date or datetime of a column in a format and in the words of a locale; a
/// datetime is written as the clock of its time zone shows it. A row is missing in the
/// result where it is missing in the column. A locale that is not known is refused.
pub fn impl_format_localized(s: &Column, format: &str, locale: &str) -> (res: Result<
    Vec<Option<String>>,
    Error,
>)
    requires
        can_format(s@, format@, locale@),
    ensures
        is_formatted(s@, format@, locale@, res),
{
    if !locale_known(locale) {
        return Err(Error::Locale { locale: String::from_str(locale) });
    }
    Ok(write_rows(s, zone_to_write(s), format, locale).unwrap())
}

/// Whether each date has a date to write.
fn check_days(dates: &Vec<Option<i32>>) -> (ok: bool)
    ensures
        ok == (forall|i: int|
            0 <= i < dates@.len() && (#[trigger] dates@[i]) is Some ==> day_in_reach(
                dates@[i].unwrap() as int,
            )),
{
    let mut i: usize = 0;
    while i < dates.len()
        invariant
            i <= dates.len(),
            forall|j: int|
                0 <= j < i && (#[trigger] dates@[j]) is Some ==> day_in_reach(
                    dates@[j].unwrap() as int,
                ),
        decreases dates.len() - i,
    {
        match dates[i] {
            Some(day) => {
                if day < -92_592_592 || day > 92_592_592 {
                    assert(dates@[i as int] == Some(day));
                    return false;
                }
            },
            None => {},
        }
        i += 1;
    }
    true
}

/// Whether each row of a column is within reach of the time zones.
pub(crate) fn check_rows(s: &Column) -> (ok: bool)
    ensures
        ok == rows_in_reach(s@),
{
    match s {
        Column::Date(dates) => check_days(dates),
        Column::Datetime(unit, _, stamps) => crate::columns::check_reach(stamps, *unit),
        Column::Other(_) => true,
    }
}

/// Writes a column as [`impl_format_localized`] does if it can be written, and returns
/// nothing if it cannot: it holds neither dates nor datetimes, a row is out of range, its
/// zone is unknown, or the format cannot be followed.
pub fn try_format_localized(s: &Column, format: &str, locale: &str) -> (res: Option<
    Result<Vec<Option<String>>, Error>,
>)
    ensures
        res is Some <==> can_format(s@, format@, locale@),
        res is Some ==> is_formatted(s@, format@, locale@, res.unwrap()),
{
    if locale_known(locale) {
        match s {
            Column::Other(_) => {
                return None;
            },
            _ => {},
        }
        if !check_rows(s) {
            return None;
        }
        let zone = zone_to_write(s);
        if !zone_known(zone) {
            return None;
        }
        if write_rows(s, zone, format, locale).is_none() {
            return None;
        }
    }
    Some(impl_format_localized(s, format, locale))
}

/// Writes the first of the columns as `kwargs` says, if it can be written: see
/// [`try_format_localized`].
pub fn format_localized(inputs: &[Column], kwargs: FormatLocalizedKwargs) -> (res: Option<
    Result<Vec<Option<String>>, Error>,
>)
    requires
        inputs@.len() >= 1,
    ensures
        res is Some <==> can_format(inputs@[0]@, kwargs.format@, kwargs.locale@),
        res is Some ==> is_formatted(inputs@[0]@, kwargs.format@, kwargs.locale@, res.unwrap()),
{
    let s = &inputs[0];
    try_format_localized(s, kwargs.format.as_str(), kwargs.locale.as_str())
}

} // verus!
