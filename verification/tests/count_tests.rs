use business_calendar::{
    checked_date_diff, date_diff, date_diff_wide, is_workday_date, Calendar,
};

const DEFAULT_WEEK: [bool; 7] = [true, true, true, true, true, false, false];
const FRIDAY: i32 = 1;
const SATURDAY: i32 = 2;
const MONDAY: i32 = 4;

fn is_open(date: i64, weekmask: &[bool; 7], holidays: &[i32]) -> bool {
    let w = ((date - 4) % 7 + 7) % 7;
    weekmask[w as usize] && !holidays.iter().any(|h| *h as i64 == date)
}

fn naive_count(start: i32, end: i32, weekmask: &[bool; 7], holidays: &[i32]) -> i64 {
    if start <= end {
        (start as i64..end as i64).filter(|d| is_open(*d, weekmask, holidays)).count() as i64
    } else {
        -((end as i64 + 1..start as i64 + 1).filter(|d| is_open(*d, weekmask, holidays)).count()
            as i64)
    }
}

#[test]
fn monday_to_friday_is_four() {
    let cal = Calendar::new(DEFAULT_WEEK, &vec![]);
    assert_eq!(date_diff(MONDAY, MONDAY + 4, &cal), 4);
}

#[test]
fn count_leaves_the_end_out() {
    let cal = Calendar::new(DEFAULT_WEEK, &vec![]);
    assert_eq!(date_diff(MONDAY, MONDAY, &cal), 0);
    assert_eq!(date_diff(MONDAY, MONDAY + 1, &cal), 1);
    assert_eq!(date_diff(FRIDAY, MONDAY, &cal), 1);
    assert_eq!(date_diff(SATURDAY, MONDAY, &cal), 0);
    assert_eq!(date_diff(MONDAY, MONDAY + 7, &cal), 5);
    assert_eq!(date_diff(MONDAY, MONDAY + 70, &cal), 50);
}

#[test]
fn count_backwards_is_negative() {
    let cal = Calendar::new(DEFAULT_WEEK, &vec![]);
    assert_eq!(date_diff(MONDAY + 4, MONDAY, &cal), -4);
    assert_eq!(date_diff(MONDAY + 7, MONDAY, &cal), -5);
    assert_eq!(date_diff(MONDAY, FRIDAY, &cal), -1);
}

#[test]
fn count_takes_holidays_off() {
    let cal = Calendar::new(DEFAULT_WEEK, &vec![MONDAY + 1, MONDAY + 2, SATURDAY]);
    assert_eq!(date_diff(MONDAY, MONDAY + 4, &cal), 2);
    assert_eq!(date_diff(MONDAY + 4, MONDAY, &cal), -2);
    assert_eq!(date_diff(MONDAY + 1, MONDAY + 2, &cal), 0);
    assert_eq!(date_diff(0, 14, &cal), 8);
}

#[test]
fn count_reversed_is_negated_between_business_days() {
    let holidays = vec![5, 12, 13];
    let cal = Calendar::new(DEFAULT_WEEK, &holidays);
    for a in -20..30 {
        for b in -20..30 {
            if is_workday_date(a, &cal) == is_workday_date(b, &cal) {
                assert_eq!(date_diff(a, b, &cal), -date_diff(b, a, &cal), "a {a} b {b}");
            }
        }
    }
}

#[test]
fn count_reversed_is_off_by_one_where_one_end_is_closed() {
    let cal = Calendar::new(DEFAULT_WEEK, &vec![]);
    // from Friday to Saturday there is the Friday; from Saturday back to Friday nothing
    assert_eq!(date_diff(FRIDAY, SATURDAY, &cal), 1);
    assert_eq!(date_diff(SATURDAY, FRIDAY, &cal), 0);
    for a in -10..10 {
        for b in a + 1..12 {
            let first = is_workday_date(a, &cal) as i32;
            let last = is_workday_date(b, &cal) as i32;
            assert_eq!(date_diff(a, b, &cal) + date_diff(b, a, &cal), first - last);
        }
    }
}

#[test]
fn count_agrees_with_counting_each_day() {
    let holidays = vec![0, 4, 5, 8, 15, 18, 19, 33, -3, -10];
    for weekmask in [DEFAULT_WEEK, [false, true, true, true, true, true, false], [true; 7]] {
        let cal = Calendar::new(weekmask, &holidays);
        for a in -25..40 {
            for b in -25..40 {
                assert_eq!(
                    date_diff_wide(a, b, &cal),
                    naive_count(a, b, &weekmask, &holidays),
                    "a {a} b {b}"
                );
            }
        }
    }
}

#[test]
fn count_under_an_empty_week_is_zero() {
    let cal = Calendar::new([false; 7], &vec![1, 2, 3]);
    assert_eq!(date_diff(-100, 100, &cal), 0);
    assert_eq!(date_diff(100, -100, &cal), 0);
}

#[test]
fn count_over_the_whole_range() {
    let every_day = Calendar::new([true; 7], &vec![]);
    assert_eq!(date_diff_wide(i32::MIN, i32::MAX, &every_day), 4294967295);
    assert_eq!(date_diff_wide(i32::MAX, i32::MIN, &every_day), -4294967295);
    assert_eq!(checked_date_diff(i32::MIN, i32::MAX, &every_day), None);
    assert_eq!(checked_date_diff(0, i32::MAX, &every_day), Some(i32::MAX));
    assert_eq!(checked_date_diff(i32::MAX, 0, &every_day), Some(-i32::MAX));
    let default = Calendar::new(DEFAULT_WEEK, &vec![]);
    // 4294967295 days are 613566756 weeks and three days: Tuesday, Wednesday, Thursday
    assert_eq!(date_diff_wide(i32::MIN, i32::MAX, &default), 613566756 * 5 + 3);
    assert_eq!(checked_date_diff(i32::MIN, i32::MAX, &default), None);
    assert_eq!(checked_date_diff(MONDAY, MONDAY + 4, &default), Some(4));
}

#[test]
fn counting_undoes_advancing() {
    let holidays = vec![4, 8, 15];
    let cal = Calendar::new(DEFAULT_WEEK, &holidays);
    for date in -10..20 {
        if !is_workday_date(date, &cal) {
            continue;
        }
        for n in -9..=9 {
            let there = business_calendar::calculate_advance(
                date,
                n,
                &cal,
                business_calendar::RollPolicy::Raise,
            )
            .unwrap();
            assert_eq!(date_diff(date, there, &cal), n);
        }
    }
}
