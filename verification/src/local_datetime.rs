//! Datetimes between UTC and the clocks of time zones, row by row.

use crate::columns::{check_reach, reach_of, Column, ColumnModel, TimeUnit};
use crate::error::Error;
use crate::time_zone::{
    clock_parts, clock_parts_in, instants, instants_at, is_zone, moment_text, moment_words,
    seconds_in_reach, stamps_in_reach, zone_known, zone_reach, zone_text, Instants,
};
use vstd::prelude::*;
use vstd::string::StringExecFns;

verus! {

/// Which of the two moments to take when a clock shows a time twice.
#[derive(Clone, Copy, Debug, PartialEq, Eq, Structural)]
pub enum Ambiguous {
    /// The earlier one.
    Earliest,
    /// The later one.
    Latest,
    /// Neither: the time is refused.
    Raise,
}

impl TimeUnit {
    /// The number of units in a second.
    pub open spec fn ticks_per_second(self) -> int {
        match self {
            TimeUnit::Milliseconds => 1_000,
            TimeUnit::Microseconds => 1_000_000,
            TimeUnit::Nanoseconds => 1_000_000_000,
        }
    }

    /// The number of nanoseconds in a unit.
    pub open spec fn nanos_per_tick(self) -> int {
        match self {
            TimeUnit::Milliseconds => 1_000_000,
            TimeUnit::Microseconds => 1_000,
            TimeUnit::Nanoseconds => 1,
        }
    }

    /// The number of units in a second.
    fn per_second(&self) -> (ticks: i64)
        ensures
            ticks == self.ticks_per_second(),
    {
        match self {
            TimeUnit::Milliseconds => 1_000,
            TimeUnit::Microseconds => 1_000_000,
            TimeUnit::Nanoseconds => 1_000_000_000,
        }
    }

    /// The number of nanoseconds in a unit.
    fn nanos_each(&self) -> (nanos: i64)
        ensures
            nanos == self.nanos_per_tick(),
    {
        match self {
            TimeUnit::Milliseconds => 1_000_000,
            TimeUnit::Microseconds => 1_000,
            TimeUnit::Nanoseconds => 1,
        }
    }
}

/// The whole seconds of a datetime since the start of 1970, rounded down.
pub open spec fn seconds_of_stamp(stamp: int, unit: TimeUnit) -> int {
    stamp / unit.ticks_per_second()
}

/// The nanoseconds of a datetime beyond its whole seconds.
pub open spec fn nanos_of_stamp(stamp: int, unit: TimeUnit) -> int {
    (stamp % unit.ticks_per_second()) * unit.nanos_per_tick()
}

/// The datetime of whole seconds and nanoseconds beyond, in a unit: what of the
/// nanoseconds is less than a unit is dropped.
pub open spec fn stamp_of_parts(seconds: int, nanos: int, unit: TimeUnit) -> int {
    seconds * unit.ticks_per_second() + nanos / unit.nanos_per_tick()
}

/// A datetime in whole seconds and nanoseconds beyond.
pub(crate) fn split_stamp(stamp: i64, unit: TimeUnit) -> (parts: (i64, u32))
    requires
        -zone_reach(unit) <= stamp <= zone_reach(unit),
    ensures
        parts.0 == seconds_of_stamp(stamp as int, unit),
        parts.1 == nanos_of_stamp(stamp as int, unit),
        seconds_in_reach(parts.0 as int),
        parts.1 < 1_000_000_000,
        unit == TimeUnit::Nanoseconds ==> -9_000_000_000 <= parts.0 <= 9_000_000_000,
{
    let per = unit.per_second();
    let mut seconds = stamp / per;
    let mut rest = stamp % per;
    if rest < 0 {
        seconds -= 1;
        rest += per;
    }
    (seconds, (rest * unit.nanos_each()) as u32)
}

/// The datetime of whole seconds and nanoseconds beyond, in a unit.
fn join_stamp(seconds: i64, nanos: u32, unit: TimeUnit) -> (stamp: i64)
    requires
        -8_000_000_100_000 <= seconds <= 8_000_000_100_000,
        unit == TimeUnit::Nanoseconds ==> -9_000_100_000 <= seconds <= 9_000_100_000,
        nanos < 1_000_000_000,
    ensures
        stamp == stamp_of_parts(seconds as int, nanos as int, unit),
{
    seconds * unit.per_second() + nanos as i64 / unit.nanos_each()
}

/// The words in which a time zone that the database does not have is refused.
pub open spec fn zone_refusal_words(zone: Seq<char>) -> Seq<char> {
    "unable to parse time zone: '"@ + zone
        + "'. Please check the Time Zone Database for a list of available time zones"@
}

/// The error that refuses a time zone.
fn zone_refusal(zone: &str) -> (e: Error)
    ensures
        e matches Error::TimeZone { message } && message@ == zone_refusal_words(zone@),
{
    let mut message = String::from_str("unable to parse time zone: '");
    message.append(zone);
    message.append("'. Please check the Time Zone Database for a list of available time zones");
    Error::TimeZone { message }
}

/// What the clock of a time zone shows at a moment given in UTC, in the unit of the
/// moment.
pub open spec fn clock_time_in(stamp: int, unit: TimeUnit, zone: Seq<char>) -> int {
    let parts = clock_parts_in(seconds_of_stamp(stamp, unit), nanos_of_stamp(stamp, unit), zone);
    stamp_of_parts(parts.0 as int, parts.1 as int, unit)
}

/// What the clock of a time zone shows at a moment given in UTC.
fn clock_time(stamp: i64, unit: TimeUnit, zone: &str) -> (clock: i64)
    requires
        is_zone(zone@),
        -zone_reach(unit) <= stamp <= zone_reach(unit),
    ensures
        clock == clock_time_in(stamp as int, unit, zone@),
{
    let (seconds, nanos) = split_stamp(stamp, unit);
    let (clock_seconds, clock_nanos) = clock_parts(seconds, nanos, zone);
    join_stamp(clock_seconds, clock_nanos, unit)
}

/// The name of a way to choose between the two moments of a time that comes twice.
pub open spec fn ambiguous_name(ambiguous: Ambiguous) -> Seq<char> {
    match ambiguous {
        Ambiguous::Earliest => "earliest"@,
        Ambiguous::Latest => "latest"@,
        Ambiguous::Raise => "raise"@,
    }
}

/// Whether some way to choose has the name.
pub open spec fn is_ambiguous_name(name: Seq<char>) -> bool {
    name == "earliest"@ || name == "latest"@ || name == "raise"@
}

/// No two ways to choose share a name.
pub proof fn lemma_ambiguous_names_differ(a: Ambiguous, b: Ambiguous)
    requires
        ambiguous_name(a) == ambiguous_name(b),
    ensures
        a == b,
{
    reveal_strlit("earliest");
    reveal_strlit("latest");
    reveal_strlit("raise");
    assert("earliest"@.len() == 8);
    assert("latest"@.len() == 6);
    assert("raise"@.len() == 5);
}

/// The way to choose that is named: one of `earliest`, `latest` and `raise`. Any other
/// name is refused, and the error holds it.
pub fn parse_ambiguous(name: &str) -> (res: Result<Ambiguous, Error>)
    ensures
        match res {
            Ok(ambiguous) => name@ == ambiguous_name(ambiguous),
            Err(e) => {
                &&& !is_ambiguous_name(name@)
                &&& e matches Error::Ambiguous { name: given }
                &&& given@ == name@
            },
        },
{
    let given = String::from_str(name);
    if given == String::from_str("earliest") {
        Ok(Ambiguous::Earliest)
    } else if given == String::from_str("latest") {
        Ok(Ambiguous::Latest)
    } else if given == String::from_str("raise") {
        Ok(Ambiguous::Raise)
    } else {
        Err(Error::Ambiguous { name: given })
    }
}

/// The words in which a time that comes twice is refused.
pub open spec fn ambiguous_words(seconds: int, nanos: int, to_tz: Seq<char>) -> Seq<char> {
    "datetime '"@ + moment_words(seconds, nanos) + "' is ambiguous in time zone '"@ + to_tz
        + "'. Please use `ambiguous` to tell how it should be localized."@
}

/// The words in which a time that does not come is refused.
pub open spec fn missing_words(seconds: int, nanos: int, to_tz: Seq<char>) -> Seq<char> {
    "datetime '"@ + moment_words(seconds, nanos) + "' is non-existent in time zone '"@ + to_tz
        + "'. Non-existent datetimes are not yet supported"@
}

/// The moment chosen among those at which a clock shows a time, or the words of the
/// refusal: a single moment is taken; of two, the one that `ambiguous` names, if it names
/// one; and no moment is refused.
pub open spec fn chosen_instant(
    found: Instants,
    ambiguous: Ambiguous,
    seconds: int,
    nanos: int,
    to_tz: Seq<char>,
) -> Result<(i64, u32), Seq<char>> {
    match found {
        Instants::Single(s, n) => Ok((s, n)),
        Instants::Ambiguous(s1, n1, s2, n2) => match ambiguous {
            Ambiguous::Earliest => Ok((s1, n1)),
            Ambiguous::Latest => Ok((s2, n2)),
            Ambiguous::Raise => Err(ambiguous_words(seconds, nanos, to_tz)),
        },
        Instants::Missing => Err(missing_words(seconds, nanos, to_tz)),
    }
}

/// Chooses among the moments at which a clock shows the time `seconds` and `nanos`: see
/// [`chosen_instant`]. The refusal names the time and the zone `to_tz`.
pub fn choose_instant(found: Instants, ambiguous: Ambiguous, seconds: i64, nanos: u32, to_tz: &str) -> (res:
    Result<(i64, u32), Error>)
    requires
        seconds_in_reach(seconds as int),
        nanos < 1_000_000_000,
    ensures
        match res {
            Ok(moment) => chosen_instant(found, ambiguous, seconds as int, nanos as int, to_tz@)
                == Ok::<(i64, u32), Seq<char>>(moment),
            Err(e) => e matches Error::TimeZone { message } && chosen_instant(
                found,
                ambiguous,
                seconds as int,
                nanos as int,
                to_tz@,
            ) == Err::<(i64, u32), Seq<char>>(message@),
        },
{
    match found {
        Instants::Single(s, n) => Ok((s, n)),
        Instants::Ambiguous(s1, n1, s2, n2) => match ambiguous {
            Ambiguous::Earliest => Ok((s1, n1)),
            Ambiguous::Latest => Ok((s2, n2)),
            Ambiguous::Raise => {
                let mut message = String::from_str("datetime '");
                message.append(moment_text(seconds, nanos).as_str());
                message.append("' is ambiguous in time zone '");
                message.append(to_tz);
                message.append("'. Please use `ambiguous` to tell how it should be localized.");
                Err(Error::TimeZone { message })
            },
        },
        Instants::Missing => {
            let mut message = String::from_str("datetime '");
            message.append(moment_text(seconds, nanos).as_str());
            message.append("' is non-existent in time zone '");
            message.append(to_tz);
            message.append("'. Non-existent datetimes are not yet supported");
            Err(Error::TimeZone { message })
        },
    }
}

/// The moment in UTC at which the clock of the zone `from_tz` shows a time, in the unit of
/// the time, or the words of the refusal of the time.
pub open spec fn instant_of(
    stamp: int,
    unit: TimeUnit,
    from_tz: Seq<char>,
    to_tz: Seq<char>,
    ambiguous: Ambiguous,
) -> Result<int, Seq<char>> {
    let seconds = seconds_of_stamp(stamp, unit);
    let nanos = nanos_of_stamp(stamp, unit);
    match chosen_instant(instants_at(seconds, nanos, from_tz), ambiguous, seconds, nanos, to_tz) {
        Ok(moment) => Ok(stamp_of_parts(moment.0 as int, moment.1 as int, unit)),
        Err(words) => Err(words),
    }
}

/// The moment in UTC at which the clock of the zone `from_tz` shows the time `stamp`. A
/// time that the clock shows twice is settled as `ambiguous` says, and one that it does
/// not show is refused; the refusals name the zone `to_tz`.
pub fn naive_local_to_naive_utc_in_new_time_zone(
    from_tz: &str,
    to_tz: &str,
    stamp: i64,
    unit: TimeUnit,
    ambiguous: Ambiguous,
) -> (res: Result<i64, Error>)
    requires
        is_zone(from_tz@),
        -zone_reach(unit) <= stamp <= zone_reach(unit),
    ensures
        match res {
            Ok(moment) => instant_of(stamp as int, unit, from_tz@, to_tz@, ambiguous) == Ok::<
                int,
                Seq<char>,
            >(moment as int),
            Err(e) => e matches Error::TimeZone { message } && instant_of(
                stamp as int,
                unit,
                from_tz@,
                to_tz@,
                ambiguous,
            ) == Err::<int, Seq<char>>(message@),
        },
{
    let (seconds, nanos) = split_stamp(stamp, unit);
    let found = instants(seconds, nanos, from_tz);
    match choose_instant(found, ambiguous, seconds, nanos, to_tz) {
        Ok((s, n)) => Ok(join_stamp(s, n, unit)),
        Err(e) => Err(e),
    }
}

/// The moment in UTC at which the clock of a zone shows a time, if the zone is known and
/// the time within reach of the time zones, and nothing if not: see
/// [`naive_local_to_naive_utc_in_new_time_zone`].
pub fn try_naive_local_to_naive_utc(
    from_tz: &str,
    to_tz: &str,
    stamp: i64,
    unit: TimeUnit,
    ambiguous: Ambiguous,
) -> (res: Option<Result<i64, Error>>)
    ensures
        res is Some <==> is_zone(from_tz@) && -zone_reach(unit) <= stamp <= zone_reach(unit),
        res matches Some(Ok(moment)) ==> instant_of(stamp as int, unit, from_tz@, to_tz@, ambiguous)
            == Ok::<int, Seq<char>>(moment as int),
        res matches Some(Err(e)) ==> e matches Error::TimeZone { message } && instant_of(
            stamp as int,
            unit,
            from_tz@,
            to_tz@,
            ambiguous,
        ) == Err::<int, Seq<char>>(message@),
{
    let reach = reach_of(unit);
    if zone_known(from_tz) && -reach <= stamp && stamp <= reach {
        Some(naive_local_to_naive_utc_in_new_time_zone(from_tz, to_tz, stamp, unit, ambiguous))
    } else {
        None
    }
}

/// The texts of the names of a column of time zones.
pub open spec fn texts_of(tz: Seq<Option<String>>) -> Seq<Option<Seq<char>>> {
    Seq::new(tz.len(), |i: int| zone_text(tz[i]))
}

/// The zone that goes with row `i`: the only one there is, or the one at `i`.
pub open spec fn zone_for(zones: Seq<Option<Seq<char>>>, i: int) -> Option<Seq<char>> {
    if zones.len() == 1 {
        zones[0]
    } else {
        zones[i]
    }
}

/// How a datetime is turned into another in a zone: to the other, or to the words of a
/// refusal.
pub type Turn = spec_fn(int, Seq<char>) -> Result<int, Seq<char>>;

/// The function that takes a moment in UTC to what the clock of a zone shows then.
pub open spec fn to_clock(unit: TimeUnit) -> Turn {
    |stamp: int, zone: Seq<char>| Ok::<int, Seq<char>>(clock_time_in(stamp, unit, zone))
}

/// The function that takes a time on the clock of a zone to its moment in UTC.
pub open spec fn to_instant(unit: TimeUnit, to_tz: Seq<char>, ambiguous: Ambiguous) -> Turn {
    |stamp: int, zone: Seq<char>| instant_of(stamp, unit, zone, to_tz, ambiguous)
}

/// What a row becomes: the datetime turned, nothing where datetime or zone is missing, or
/// the words of a refusal, which are those for the zone if it is unknown.
pub open spec fn turned_row(stamp: Option<i64>, zone: Option<Seq<char>>, turn: Turn) -> Result<
    Option<i64>,
    Seq<char>,
> {
    if stamp is Some && zone is Some {
        if !is_zone(zone.unwrap()) {
            Err(zone_refusal_words(zone.unwrap()))
        } else {
            match turn(stamp.unwrap() as int, zone.unwrap()) {
                Ok(turned) => Ok(Some(turned as i64)),
                Err(words) => Err(words),
            }
        }
    } else {
        Ok(None)
    }
}

/// Row `i` is the first that is refused, and in the words given.
pub open spec fn first_refusal(
    stamps: Seq<Option<i64>>,
    zones: Seq<Option<Seq<char>>>,
    turn: Turn,
    i: int,
    words: Seq<char>,
) -> bool {
    &&& 0 <= i < stamps.len()
    &&& turned_row(stamps[i], zone_for(zones, i), turn) == Err::<Option<i64>, Seq<char>>(words)
    &&& forall|j: int| 0 <= j < i ==> (#[trigger] turned_row(stamps[j], zone_for(zones, j), turn)) is Ok
}

/// No row is refused.
pub open spec fn no_refusal(stamps: Seq<Option<i64>>, zones: Seq<Option<Seq<char>>>, turn: Turn) -> bool {
    forall|j: int|
        0 <= j < stamps.len() ==> (#[trigger] turned_row(stamps[j], zone_for(zones, j), turn)) is Ok
}

/// The rows turned, where none is refused.
pub open spec fn turned_rows(stamps: Seq<Option<i64>>, zones: Seq<Option<Seq<char>>>, turn: Turn) -> Seq<
    Option<i64>,
> {
    Seq::new(
        stamps.len(),
        |i: int|
            match turned_row(stamps[i], zone_for(zones, i), turn) {
                Ok(row) => row,
                Err(_) => None,
            },
    )
}

/// What turning the rows of a column comes to: the rows turned, or the words of the first
/// refusal. A single zone that is unknown is refused before any row.
pub open spec fn is_turned(
    stamps: Seq<Option<i64>>,
    zones: Seq<Option<Seq<char>>>,
    turn: Turn,
    outcome: Result<Seq<Option<i64>>, Seq<char>>,
) -> bool {
    let unknown = zones.len() == 1 && zones[0] is Some && !is_zone(zones[0].unwrap());
    match outcome {
        Ok(rows) => !unknown && rows == turned_rows(stamps, zones, turn) && no_refusal(
            stamps,
            zones,
            turn,
        ),
        Err(words) => if unknown {
            words == zone_refusal_words(zones[0].unwrap())
        } else {
            exists|i: int| #[trigger] first_refusal(stamps, zones, turn, i, words)
        },
    }
}

/// What a function that turns rows returns, as the rows or words that it comes to.
pub open spec fn outcome_of(res: Result<Vec<Option<i64>>, Error>) -> Option<Result<Seq<Option<i64>>, Seq<char>>> {
    match res {
        Ok(rows) => Some(Ok(rows@)),
        Err(Error::TimeZone { message }) => Some(Err(message@)),
        Err(_) => None,
    }
}

/// Takes each moment of a column to what the clock of its zone shows then.
pub fn turn_to_clock(stamps: &Vec<Option<i64>>, unit: TimeUnit, tz: &Vec<Option<String>>) -> (res: Result<
    Vec<Option<i64>>,
    Error,
>)
    requires
        tz.len() == 1 || tz.len() == stamps.len(),
        stamps_in_reach(stamps@, unit),
    ensures
        outcome_of(res) matches Some(outcome) && is_turned(
            stamps@,
            texts_of(tz@),
            to_clock(unit),
            outcome,
        ),
{
    let ghost turn = to_clock(unit);
    let ghost zones = texts_of(tz@);
    let ghost wanted = turned_rows(stamps@, zones, turn);
    let single = tz.len() == 1;
    if single {
        match &tz[0] {
            Some(convert_tz) => {
                if !zone_known(convert_tz.as_str()) {
                    return Err(zone_refusal(convert_tz.as_str()));
                }
            },
            None => {},
        }
    }
    let mut rows: Vec<Option<i64>> = Vec::with_capacity(stamps.len());
    let mut i: usize = 0;
    while i < stamps.len()
        invariant
            single == (tz.len() == 1),
            tz.len() == 1 || tz.len() == stamps.len(),
            stamps_in_reach(stamps@, unit),
            turn == to_clock(unit),
            zones == texts_of(tz@),
            wanted == turned_rows(stamps@, zones, turn),
            !(zones.len() == 1 && zones[0] is Some && !is_zone(zones[0].unwrap())),
            i <= stamps.len(),
            rows.len() == i,
            forall|j: int|
                0 <= j < i ==> (#[trigger] turned_row(stamps@[j], zone_for(zones, j), turn)) is Ok,
            forall|j: int| 0 <= j < i ==> #[trigger] rows@[j] == wanted[j],
        decreases stamps.len() - i,
    {
        let zone = if single {
            &tz[0]
        } else {
            &tz[i]
        };
        assert(zone_text(*zone) == zone_for(zones, i as int));
        let row = match (stamps[i], zone) {
            (Some(stamp), Some(convert_tz)) => {
                if !zone_known(convert_tz.as_str()) {
                    let e = zone_refusal(convert_tz.as_str());
                    proof {
                        let words = e->TimeZone_message;
                        assert(first_refusal(stamps@, zones, turn, i as int, words@));
                        let outcome: Result<Seq<Option<i64>>, Seq<char>> = Err(words@);
                        assert(outcome->Err_0 == words@);
                        assert(is_turned(stamps@, zones, turn, outcome));
                    }
                    return Err(e);
                }
                Some(clock_time(stamp, unit, convert_tz.as_str()))
            },
            _ => None,
        };
        assert(turned_row(stamps@[i as int], zone_for(zones, i as int), turn) == Ok::<
            Option<i64>,
            Seq<char>,
        >(row));
        rows.push(row);
        i += 1;
    }
    assert(rows@ =~= wanted);
    Ok(rows)
}

/// Takes each time of a column to the moment at which the clock of its zone shows it.
pub fn turn_to_instant(
    stamps: &Vec<Option<i64>>,
    unit: TimeUnit,
    from_tz: &Vec<Option<String>>,
    out_tz: &str,
    ambiguous: Ambiguous,
) -> (res: Result<Vec<Option<i64>>, Error>)
    requires
        from_tz.len() == 1 || from_tz.len() == stamps.len(),
        stamps_in_reach(stamps@, unit),
    ensures
        outcome_of(res) matches Some(outcome) && is_turned(
            stamps@,
            texts_of(from_tz@),
            to_instant(unit, out_tz@, ambiguous),
            outcome,
        ),
{
    let ghost turn = to_instant(unit, out_tz@, ambiguous);
    let ghost zones = texts_of(from_tz@);
    let ghost wanted = turned_rows(stamps@, zones, turn);
    let single = from_tz.len() == 1;
    if single {
        match &from_tz[0] {
            Some(zone) => {
                if !zone_known(zone.as_str()) {
                    return Err(zone_refusal(zone.as_str()));
                }
            },
            None => {},
        }
    }
    let mut rows: Vec<Option<i64>> = Vec::with_capacity(stamps.len());
    let mut i: usize = 0;
    while i < stamps.len()
        invariant
            single == (from_tz.len() == 1),
            from_tz.len() == 1 || from_tz.len() == stamps.len(),
            stamps_in_reach(stamps@, unit),
            turn == to_instant(unit, out_tz@, ambiguous),
            zones == texts_of(from_tz@),
            wanted == turned_rows(stamps@, zones, turn),
            !(zones.len() == 1 && zones[0] is Some && !is_zone(zones[0].unwrap())),
            i <= stamps.len(),
            rows.len() == i,
            forall|j: int|
                0 <= j < i ==> (#[trigger] turned_row(stamps@[j], zone_for(zones, j), turn)) is Ok,
            forall|j: int| 0 <= j < i ==> #[trigger] rows@[j] == wanted[j],
        decreases stamps.len() - i,
    {
        let zone = if single {
            &from_tz[0]
        } else {
            &from_tz[i]
        };
        assert(zone_text(*zone) == zone_for(zones, i as int));
        let row = match (stamps[i], zone) {
            (Some(stamp), Some(name)) => {
                if !zone_known(name.as_str()) {
                    let e = zone_refusal(name.as_str());
                    proof {
                        let words = e->TimeZone_message;
                        assert(first_refusal(stamps@, zones, turn, i as int, words@));
                        let outcome: Result<Seq<Option<i64>>, Seq<char>> = Err(words@);
                        assert(outcome->Err_0 == words@);
                        assert(is_turned(stamps@, zones, turn, outcome));
                    }
                    return Err(e);
                }
                match naive_local_to_naive_utc_in_new_time_zone(
                    name.as_str(),
                    out_tz,
                    stamp,
                    unit,
                    ambiguous,
                ) {
                    Ok(moment) => Some(moment),
                    Err(e) => {
                        proof {
                            let words = e->TimeZone_message;
                            assert(first_refusal(stamps@, zones, turn, i as int, words@));
                            let outcome: Result<Seq<Option<i64>>, Seq<char>> = Err(words@);
                            assert(outcome->Err_0 == words@);
                            assert(is_turned(stamps@, zones, turn, outcome));
                        }
                        return Err(e);
                    },
                }
            },
            _ => None,
        };
        assert(turned_row(stamps@[i as int], zone_for(zones, i as int), turn) == Ok::<
            Option<i64>,
            Seq<char>,
        >(row));
        rows.push(row);
        i += 1;
    }
    assert(rows@ =~= wanted);
    Ok(rows)
}

/// The name of the zone of a column of datetimes, where no zone counts as UTC.
pub open spec fn zone_or_utc(zone: Option<Seq<char>>) -> Seq<char> {
    match zone {
        Some(name) => name,
        None => "UTC"@,
    }
}

/// What turning a column of datetimes asks of it: the zones are one or as many as the
/// rows, and the datetimes are within reach of the time zones.
pub open spec fn can_turn(datetime: ColumnModel, tz: Seq<Option<String>>) -> bool {
    datetime matches ColumnModel::Datetime(unit, _, stamps) ==> (tz.len() == 1 || tz.len()
        == stamps.len()) && stamps_in_reach(stamps, unit)
}

/// Whether a column of datetimes can be turned: what [`elementwise_to_local_datetime`] and
/// [`elementwise_from_local_datetime`] ask of their arguments.
pub fn check_turn(datetime: &Column, tz: &Vec<Option<String>>) -> (ok: bool)
    ensures
        ok == can_turn(datetime@, tz@),
{
    match datetime {
        Column::Datetime(unit, _, stamps) => (tz.len() == 1 || tz.len() == stamps.len())
            && check_reach(stamps, *unit),
        _ => true,
    }
}

/// What [`elementwise_to_local_datetime`] returns.
pub open spec fn is_local_datetime(datetime: ColumnModel, tz: Seq<Option<String>>, res: Result<Column, Error>) -> bool {
    match datetime {
        ColumnModel::Datetime(unit, zone, stamps) => {
            if !is_zone(zone_or_utc(zone)) {
                res matches Err(Error::TimeZone { message }) && message@ == zone_refusal_words(
                    zone_or_utc(zone),
                )
            } else {
                match res {
                    Ok(out) => out@ matches ColumnModel::Datetime(out_unit, out_zone, rows)
                        && out_unit == unit && out_zone is None && is_turned(
                        stamps,
                        texts_of(tz),
                        to_clock(unit),
                        Ok(rows),
                    ),
                    Err(Error::TimeZone { message }) => is_turned(
                        stamps,
                        texts_of(tz),
                        to_clock(unit),
                        Err(message@),
                    ),
                    Err(_) => false,
                }
            }
        },
        _ => res matches Err(Error::Type { dtype }) && dtype@ == datetime.dtype_name(),
    }
}

/// What the clock of a time zone shows at each datetime of a column: of the single zone
/// of `tz`, or for each row of the zone beside it. A row is missing in the result where
/// datetime or zone is missing. The result has no time zone. The zone of the column is
/// asked about first and a single zone next; then the first row whose zone is unknown
/// ends the batch.
pub fn elementwise_to_local_datetime(datetime: &Column, tz: &Vec<Option<String>>) -> (res: Result<
    Column,
    Error,
>)
    requires
        can_turn(datetime@, tz@),
    ensures
        is_local_datetime(datetime@, tz@, res),
{
    match datetime {
        Column::Datetime(unit, zone, stamps) => {
            let known = match zone {
                Some(name) => {
                    if zone_known(name.as_str()) {
                        None
                    } else {
                        Some(zone_refusal(name.as_str()))
                    }
                },
                None => {
                    if zone_known("UTC") {
                        None
                    } else {
                        Some(zone_refusal("UTC"))
                    }
                },
            };
            match known {
                Some(e) => Err(e),
                None => match turn_to_clock(stamps, *unit, tz) {
                    Ok(rows) => Ok(Column::Datetime(*unit, None, rows)),
                    Err(e) => Err(e),
                },
            }
        },
        _ => Err(Error::Type { dtype: datetime.dtype() }),
    }
}

/// What [`elementwise_from_local_datetime`] returns.
pub open spec fn is_from_local_datetime(
    datetime: ColumnModel,
    from_tz: Seq<Option<String>>,
    out_tz: Seq<char>,
    ambiguous: Seq<char>,
    res: Result<Column, Error>,
) -> bool {
    match datetime {
        ColumnModel::Datetime(unit, _, stamps) => {
            if !is_zone(out_tz) {
                res matches Err(Error::TimeZone { message }) && message@ == zone_refusal_words(
                    out_tz,
                )
            } else if !is_ambiguous_name(ambiguous) {
                res matches Err(Error::Ambiguous { name }) && name@ == ambiguous
            } else {
                exists|way: Ambiguous|
                    ambiguous == #[trigger] ambiguous_name(way) && match res {
                        Ok(out) => out@ matches ColumnModel::Datetime(out_unit, out_zone, rows)
                            && out_unit == unit && out_zone == Some(out_tz) && is_turned(
                            stamps,
                            texts_of(from_tz),
                            to_instant(unit, out_tz, way),
                            Ok(rows),
                        ),
                        Err(Error::TimeZone { message }) => is_turned(
                            stamps,
                            texts_of(from_tz),
                            to_instant(unit, out_tz, way),
                            Err(message@),
                        ),
                        Err(_) => false,
                    }
            }
        },
        _ => res matches Err(Error::Type { dtype }) && dtype@ == datetime.dtype_name(),
    }
}

/// The moments in UTC at which clocks show the times of a column: the clock of the single
/// zone of `from_tz`, or for each row that of the zone beside it. A row is missing in the
/// result where time or zone is missing. The result is in the zone `out_tz`. That zone is
/// asked about first, then the way to settle a time that comes twice, then a single zone;
/// then the first row that is refused ends the batch: its zone is unknown, or its time
/// comes twice and is settled by `raise`, or does not come at all.
pub fn elementwise_from_local_datetime(
    datetime: &Column,
    from_tz: &Vec<Option<String>>,
    out_tz: &str,
    ambiguous: &str,
) -> (res: Result<Column, Error>)
    requires
        can_turn(datetime@, from_tz@),
    ensures
        is_from_local_datetime(datetime@, from_tz@, out_tz@, ambiguous@, res),
{
    match datetime {
        Column::Datetime(unit, _, stamps) => {
            if !zone_known(out_tz) {
                return Err(zone_refusal(out_tz));
            }
            let way = match parse_ambiguous(ambiguous) {
                Ok(way) => way,
                Err(e) => {
                    return Err(e);
                },
            };
            assert(ambiguous@ == ambiguous_name(way));
            match turn_to_instant(stamps, *unit, from_tz, out_tz, way) {
                Ok(rows) => Ok(Column::Datetime(*unit, Some(String::from_str(out_tz)), rows)),
                Err(e) => Err(e),
            }
        },
        _ => Err(Error::Type { dtype: datetime.dtype() }),
    }
}

} // verus!
