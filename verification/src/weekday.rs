//! Weekdays of day ordinals.

use vstd::prelude::*;

verus! {

/// The weekday of a day ordinal, Monday = 1 to Sunday = 7. Day 0 is a Thursday.
pub open spec fn weekday_of(date: int) -> int {
    (date - 4) % 7 + 1
}

/// The weekday of `x`, Monday = 1 to Sunday = 7, for every ordinal, negative ones too.
pub fn weekday(x: i32) -> (w: i32)
    ensures
        w == weekday_of(x as int),
        1 <= w <= 7,
{
    weekday_wide(x as i64)
}

/// The weekday of a 64-bit ordinal.
pub fn weekday_wide(x: i64) -> (w: i32)
    requires
        i64::MIN + 4 <= x,
    ensures
        w == weekday_of(x as int),
        1 <= w <= 7,
{
    let shifted: i64 = x - 4;
    // the first remainder may be negative: add 7 and take it again
    let first: i64 = shifted % 7;
    assert(-7 < first < 7);
    assert((first - shifted) % 7 == 0);
    let second: i64 = (first + 7) % 7;
    (second + 1) as i32
}

/// A date and the date one week later fall on the same weekday.
pub proof fn lemma_weekday_periodic(date: int)
    ensures
        weekday_of(date + 7) == weekday_of(date),
        1 <= weekday_of(date) <= 7,
{
}

/// The weekday after `w`, which wraps from Sunday to Monday.
pub open spec fn next_weekday(w: int) -> int {
    if w >= 7 {
        1
    } else {
        w + 1
    }
}

/// The weekday before `w`, which wraps from Monday to Sunday.
pub open spec fn previous_weekday(w: int) -> int {
    if w <= 1 {
        7
    } else {
        w - 1
    }
}

/// Stepping a date by one day steps its weekday by one.
pub proof fn lemma_weekday_step(date: int)
    ensures
        weekday_of(date + 1) == next_weekday(weekday_of(date)),
        weekday_of(date - 1) == previous_weekday(weekday_of(date)),
{
}

} // verus!
