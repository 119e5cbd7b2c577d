use business_calendar::offset_cache::{
    advance_few_days, calculate_n_days_without_holidays_fast,
    calculate_n_days_without_holidays_slow, count_open, fast_modulo, split_weeks,
};
use business_calendar::{advance_wide, weekday, Calendar, OffsetCache, RollPolicy};

const DEFAULT_WEEK: [bool; 7] = [true, true, true, true, true, false, false];
// closed on Sunday and Monday
const SUN_MON_WEEKEND: [bool; 7] = [false, true, true, true, true, true, false];

// the number of days to the `n`-th open weekday from a start on weekday `w`, one day at a time
fn simulate(w: i32, n: i32, weekmask: &[bool; 7]) -> i64 {
    let mut at = w - 1;
    let mut days = 0i64;
    let mut left = n;
    while left > 0 {
        at = (at + 1) % 7;
        days += 1;
        if weekmask[at as usize] {
            left -= 1;
        }
    }
    while left < 0 {
        at = (at + 6) % 7;
        days -= 1;
        if weekmask[at as usize] {
            left += 1;
        }
    }
    days
}

fn naive_roll_forward(date: i32, weekmask: &[bool; 7]) -> i32 {
    let mut d = date;
    while !weekmask[(weekday(d) - 1) as usize] {
        d += 1;
    }
    d
}

#[test]
fn cache_matches_simulation_for_a_sunday_monday_weekend() {
    let cache = OffsetCache::build(&SUN_MON_WEEKEND);
    let cal = Calendar::new(SUN_MON_WEEKEND, &vec![]);
    // seven starts in a row cover all seven weekdays
    for date in 0..7 {
        let w = weekday(date);
        for n in -10..=10 {
            if SUN_MON_WEEKEND[(w - 1) as usize] {
                let cached = calculate_n_days_without_holidays_slow(w, n, &cache);
                assert_eq!(cached, simulate(w, n, &SUN_MON_WEEKEND), "weekday {w} n {n}");
                assert_eq!(
                    advance_wide(date, n, &cal, RollPolicy::Raise),
                    Ok(date as i64 + cached)
                );
            } else {
                // a closed start is rolled first, and the cache is asked from there
                let start = naive_roll_forward(date, &SUN_MON_WEEKEND);
                let expected = start as i64 + simulate(weekday(start), n, &SUN_MON_WEEKEND);
                assert_eq!(advance_wide(date, n, &cal, RollPolicy::Forward), Ok(expected));
            }
        }
    }
}

#[test]
fn cache_holds_the_offsets_of_a_week_length_either_way() {
    let cache = OffsetCache::build(&SUN_MON_WEEKEND);
    assert_eq!(cache.n_weekdays(), 5);
    // from Saturday (6) one business day on is Tuesday, three days later
    assert_eq!(cache.get(1, 6), Some(3));
    assert_eq!(cache.get(-1, 6), Some(-1));
    assert_eq!(cache.get(0, 6), Some(0));
    assert_eq!(cache.get(5, 2), Some(7));
    assert_eq!(cache.get(-5, 2), Some(-7));
    // from Tuesday (2) one business day back is Saturday, three days earlier
    assert_eq!(cache.get(-1, 2), Some(-3));
    // no entry for more than a week length, nor for a closed weekday
    assert_eq!(cache.get(6, 2), None);
    assert_eq!(cache.get(-6, 2), None);
    assert_eq!(cache.get(1, 1), None);
    assert_eq!(cache.get(1, 7), None);
    assert_eq!(cache.get(100, 2), None);
    assert_eq!(cache.get(i32::MAX, 2), None);
    assert_eq!(cache.get(i32::MIN, 6), None);
}

#[test]
fn cache_of_every_week_matches_simulation() {
    for bits in 1u32..128 {
        let mut weekmask = [false; 7];
        for (i, open) in weekmask.iter_mut().enumerate() {
            *open = bits & (1 << i) != 0;
        }
        let cache = OffsetCache::build(&weekmask);
        let span = count_open(&weekmask);
        assert_eq!(span, bits.count_ones() as i32);
        for w in 1..=7 {
            for n in -span..=span {
                let expected = if weekmask[(w - 1) as usize] {
                    Some(simulate(w, n, &weekmask) as i32)
                } else {
                    None
                };
                assert_eq!(cache.get(n, w), expected);
            }
            if weekmask[(w - 1) as usize] {
                for n in [-30, -8, -1, 0, 1, 6, 7, 15, 29] {
                    assert_eq!(
                        calculate_n_days_without_holidays_slow(w, n, &cache),
                        simulate(w, n, &weekmask)
                    );
                }
            }
        }
    }
}

#[test]
fn advance_few_days_matches_simulation() {
    for w in 1..=7 {
        for n in -10..=10 {
            assert_eq!(
                advance_few_days(w, n, &SUN_MON_WEEKEND) as i64,
                simulate(w, n, &SUN_MON_WEEKEND)
            );
        }
    }
    // from Friday in the default week
    assert_eq!(advance_few_days(5, 1, &DEFAULT_WEEK), 3);
    assert_eq!(advance_few_days(5, -1, &DEFAULT_WEEK), -1);
    assert_eq!(advance_few_days(1, -1, &DEFAULT_WEEK), -3);
    // from a closed start the first open weekday counts as one
    assert_eq!(advance_few_days(6, 1, &DEFAULT_WEEK), 2);
    assert_eq!(advance_few_days(7, -1, &DEFAULT_WEEK), -2);
    assert_eq!(advance_few_days(3, 0, &[false; 7]), 0);
}

#[test]
fn closed_form_matches_simulation() {
    for w in 1..=5 {
        for n in -40..=40 {
            assert_eq!(
                calculate_n_days_without_holidays_fast(n, w),
                simulate(w, n, &DEFAULT_WEEK),
                "weekday {w} n {n}"
            );
        }
    }
}

#[test]
fn closed_form_exact_values() {
    // n + (n + w - 1) / 5 * 2
    assert_eq!(calculate_n_days_without_holidays_fast(1, 5), 3);
    assert_eq!(calculate_n_days_without_holidays_fast(4, 1), 4);
    assert_eq!(calculate_n_days_without_holidays_fast(5, 1), 7);
    assert_eq!(calculate_n_days_without_holidays_fast(12, 4), 18);
    // -(-n + (-n + 5 - w) / 5 * 2)
    assert_eq!(calculate_n_days_without_holidays_fast(-1, 1), -3);
    assert_eq!(calculate_n_days_without_holidays_fast(-4, 5), -4);
    assert_eq!(calculate_n_days_without_holidays_fast(-5, 5), -7);
    assert_eq!(calculate_n_days_without_holidays_fast(0, 3), 0);
    assert_eq!(calculate_n_days_without_holidays_fast(i32::MAX, 5), 3006477107);
    assert_eq!(calculate_n_days_without_holidays_fast(i32::MIN, 1), -3006477108);
}

#[test]
fn the_cache_agrees_with_the_closed_form_on_the_default_week() {
    let cache = OffsetCache::build(&DEFAULT_WEEK);
    for w in 1..=5 {
        for n in -25..=25 {
            assert_eq!(
                calculate_n_days_without_holidays_slow(w, n, &cache),
                calculate_n_days_without_holidays_fast(n, w)
            );
        }
    }
}

#[test]
fn count_open_counts_the_open_weekdays() {
    assert_eq!(count_open(&DEFAULT_WEEK), 5);
    assert_eq!(count_open(&[false; 7]), 0);
    assert_eq!(count_open(&[true; 7]), 7);
    assert_eq!(count_open(&[false, false, true, false, false, false, false]), 1);
}

#[test]
fn fast_modulo_wraps_the_weekday() {
    assert_eq!(fast_modulo(7, 1), 1);
    assert_eq!(fast_modulo(1, -1), 7);
    assert_eq!(fast_modulo(3, 4), 7);
    assert_eq!(fast_modulo(3, 5), 1);
    assert_eq!(fast_modulo(3, -3), 7);
    assert_eq!(fast_modulo(4, 0), 4);
    assert_eq!(fast_modulo(7, 7), 7);
    assert_eq!(fast_modulo(1, -7), 1);
}

#[test]
fn split_weeks_keeps_the_sign() {
    assert_eq!(split_weeks(12, 5), (2, 2));
    assert_eq!(split_weeks(-12, 5), (-2, -2));
    assert_eq!(split_weeks(10, 5), (2, 0));
    assert_eq!(split_weeks(-10, 5), (-2, 0));
    assert_eq!(split_weeks(0, 3), (0, 0));
    assert_eq!(split_weeks(6, 7), (0, 6));
    assert_eq!(split_weeks(-1, 1), (-1, 0));
    assert_eq!(split_weeks(i32::MIN, 1), (i32::MIN, 0));
    assert_eq!(split_weeks(100, 30), (3, 10));
    assert_eq!(split_weeks(-100, i32::MAX), (0, -100));
}

#[test]
fn a_week_with_one_open_day() {
    // open on Wednesday only
    let weekmask = [false, false, true, false, false, false, false];
    let cal = Calendar::new(weekmask, &vec![]);
    // day 6 is a Wednesday
    assert_eq!(advance_wide(6, 3, &cal, RollPolicy::Raise), Ok(27));
    assert_eq!(advance_wide(6, -2, &cal, RollPolicy::Raise), Ok(-8));
    assert_eq!(advance_wide(0, 0, &cal, RollPolicy::Forward), Ok(6));
    assert_eq!(advance_wide(0, 0, &cal, RollPolicy::Backward), Ok(-1));
}
