//! What the time zone database knows: which zones there are, what their clocks show at a
//! moment, and at which moments their clocks show a time.

use crate::columns::TimeUnit;
use vstd::prelude::*;

verus! {

/// The text of the name of a time zone, if there is one.
pub open spec fn zone_text(zone: Option<String>) -> Option<Seq<char>> {
    match zone {
        Some(name) => Some(name@),
        None => None,
    }
}

/// How far from the start of 1970 a datetime may lie, in its unit, for the time zones to
/// be asked about it: the dates between the years 262144 BCE and 262142 CE have time
/// zones, and a datetime in nanoseconds moved to another time zone is still one.
pub open spec fn zone_reach(unit: TimeUnit) -> int {
    match unit {
        TimeUnit::Milliseconds => 8_000_000_000_000_000,
        TimeUnit::Microseconds => 8_000_000_000_000_000_000,
        TimeUnit::Nanoseconds => 9_000_000_000_000_000_000,
    }
}

/// Whether every datetime lies within reach of the time zones.
pub open spec fn stamps_in_reach(stamps: Seq<Option<i64>>, unit: TimeUnit) -> bool {
    forall|i: int|
        0 <= i < stamps.len() && (#[trigger] stamps[i]) is Some ==> -zone_reach(unit)
            <= stamps[i].unwrap() <= zone_reach(unit)
}

/// The seconds from the start of 1970 within which the time zones can be asked.
pub open spec fn seconds_in_reach(seconds: int) -> bool {
    -8_000_000_000_000 <= seconds <= 8_000_000_000_000
}

/// The moments at which the clock of a time zone shows a time, each in whole seconds
/// since the start of 1970 in UTC and the nanoseconds beyond.
#[derive(Clone, Copy, Debug, PartialEq, Eq, Structural)]
pub enum Instants {
    /// One moment.
    Single(i64, u32),
    /// Two moments, the earlier one first: the clock was set back in between.
    Ambiguous(i64, u32, i64, u32),
    /// None: the clock was set forward past the time.
    Missing,
}

/// Whether the time zone database has a zone of the name.
pub uninterp spec fn is_zone(zone: Seq<char>) -> bool;

/// What the clock of a time zone shows at a moment given in UTC, both in seconds since
/// the start of 1970 and nanoseconds beyond.
pub uninterp spec fn clock_parts_in(seconds: int, nanos: int, zone: Seq<char>) -> (i64, u32);

/// The moments, in UTC, at which the clock of a time zone shows a time.
pub uninterp spec fn instants_at(seconds: int, nanos: int, zone: Seq<char>) -> Instants;

/// A datetime written as date and time of day.
pub uninterp spec fn moment_words(seconds: int, nanos: int) -> Seq<char>;

/// `str::parse` to a `chrono_tz::Tz`, which is its `from_str`: whether the time zone database has a zone of the name.
#[verifier::external_body]
pub(crate) fn zone_known(zone: &str) -> (known: bool)
    ensures
        known == is_zone(zone@),
{
    zone.parse::<chrono_tz::Tz>().is_ok()
}

/// `chrono::TimeZone::from_utc_datetime` of the zone of the name, and `naive_local` of the
/// result: what the clock of the zone shows at a moment, which is less than a day away
/// from what a clock in UTC shows.
#[verifier::external_body]
pub(crate) fn clock_parts(seconds: i64, nanos: u32, zone: &str) -> (clock: (i64, u32))
    requires
        is_zone(zone@),
        seconds_in_reach(seconds as int),
        nanos < 1_000_000_000,
    ensures
        clock == clock_parts_in(seconds as int, nanos as int, zone@),
        -86_400 < clock.0 - seconds < 86_400,
        clock.1 < 1_000_000_000,
{
    let tz = zone.parse::<chrono_tz::Tz>().unwrap();
    let moment = chrono::DateTime::from_timestamp(seconds, nanos).unwrap().naive_utc();
    let local = chrono::TimeZone::from_utc_datetime(&tz, &moment).naive_local().and_utc();
    (local.timestamp(), local.timestamp_subsec_nanos())
}

/// `chrono::TimeZone::from_local_datetime` of the zone of the name: the moments at which
/// the clock of the zone shows a time, each less than a day away from the moment at which
/// a clock in UTC shows it.
#[verifier::external_body]
pub(crate) fn instants(seconds: i64, nanos: u32, zone: &str) -> (found: Instants)
    requires
        is_zone(zone@),
        seconds_in_reach(seconds as int),
        nanos < 1_000_000_000,
    ensures
        found == instants_at(seconds as int, nanos as int, zone@),
        found matches Instants::Single(s, n) ==> -86_400 < s - seconds < 86_400 && n
            < 1_000_000_000,
        found matches Instants::Ambiguous(s1, n1, s2, n2) ==> -86_400 < s1 - seconds < 86_400
            && n1 < 1_000_000_000 && -86_400 < s2 - seconds < 86_400 && n2 < 1_000_000_000,
{
    let tz = zone.parse::<chrono_tz::Tz>().unwrap();
    let local = chrono::DateTime::from_timestamp(seconds, nanos).unwrap().naive_utc();
    match chrono::TimeZone::from_local_datetime(&tz, &local) {
        chrono::LocalResult::Single(a) => Instants::Single(a.timestamp(), a.timestamp_subsec_nanos()),
        chrono::LocalResult::Ambiguous(a, b) => Instants::Ambiguous(
            a.timestamp(), a.timestamp_subsec_nanos(), b.timestamp(), b.timestamp_subsec_nanos(),
        ),
        chrono::LocalResult::None => Instants::Missing,
    }
}

/// `chrono::DateTime::from_timestamp` and the `Display` of its `naive_utc`: a datetime
/// written as date and time of day.
#[verifier::external_body]
pub(crate) fn moment_text(seconds: i64, nanos: u32) -> (text: String)
    requires
        seconds_in_reach(seconds as int),
        nanos < 1_000_000_000,
    ensures
        text@ == moment_words(seconds as int, nanos as int),
{
    chrono::DateTime::from_timestamp(seconds, nanos).unwrap().naive_utc().to_string()
}

} // verus!
