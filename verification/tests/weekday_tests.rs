use business_calendar::weekday;
use business_calendar::weekday::weekday_wide;

#[test]
fn epoch_is_a_thursday() {
    assert_eq!(weekday(0), 4);
    assert_eq!(weekday(1), 5);
    assert_eq!(weekday(2), 6);
    assert_eq!(weekday(3), 7);
    assert_eq!(weekday(4), 1);
}

#[test]
fn weekday_of_negative_ordinals() {
    assert_eq!(weekday(-1), 3);
    assert_eq!(weekday(-3), 1);
    assert_eq!(weekday(-4), 7);
    assert_eq!(weekday(-7), 4);
    assert_eq!(weekday(-10), 1);
}

#[test]
fn weekday_at_the_ends_of_the_range() {
    // 2147483647 = 7 * 306783378 + 1, so the last ordinal is a Friday
    assert_eq!(weekday(i32::MAX), 5);
    // -2147483648 = 7 * -306783379 + 5, so the first ordinal is a Tuesday
    assert_eq!(weekday(i32::MIN), 2);
}

#[test]
fn weekday_repeats_after_seven_days() {
    for date in -1000..1000 {
        assert_eq!(weekday(date + 7), weekday(date));
        let w = weekday(date);
        assert!((1..=7).contains(&w));
    }
}

#[test]
fn weekday_steps_by_one_each_day() {
    for date in -50..50 {
        let today = weekday(date);
        let tomorrow = weekday(date + 1);
        assert_eq!(tomorrow, if today == 7 { 1 } else { today + 1 });
    }
}

#[test]
fn wide_weekday_agrees_with_weekday() {
    for date in -30..30 {
        assert_eq!(weekday_wide(date as i64), weekday(date));
    }
    assert_eq!(weekday_wide(i32::MAX as i64 + 1), 6);
    assert_eq!(weekday_wide(i32::MIN as i64 - 1), 1);
}

#[test]
fn known_calendar_dates() {
    // 2000-01-01 was a Saturday, 10957 days after the epoch
    assert_eq!(weekday(10957), 6);
    // 2024-02-29 was a Thursday, 19782 days after the epoch
    assert_eq!(weekday(19782), 4);
    // 1969-07-20 was a Sunday, 165 days before the epoch
    assert_eq!(weekday(-165), 7);
}
