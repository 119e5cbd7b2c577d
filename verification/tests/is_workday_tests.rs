use business_calendar::{is_workday_date, weekday, Calendar};

const DEFAULT_WEEK: [bool; 7] = [true, true, true, true, true, false, false];

#[test]
fn saturday_is_no_workday_and_monday_is() {
    let cal = Calendar::new(DEFAULT_WEEK, &vec![]);
    assert!(!is_workday_date(2, &cal));
    assert!(!is_workday_date(3, &cal));
    assert!(is_workday_date(4, &cal));
}

#[test]
fn a_holiday_is_no_workday() {
    let cal = Calendar::new(DEFAULT_WEEK, &vec![4, 19782]);
    assert!(!is_workday_date(4, &cal));
    assert!(is_workday_date(5, &cal));
    assert!(!is_workday_date(19782, &cal));
    assert!(is_workday_date(19783, &cal));
}

#[test]
fn workday_is_open_weekday_and_no_holiday() {
    let holidays = vec![-9, -2, 0, 1, 7, 13, 14, 30];
    for weekmask in [DEFAULT_WEEK, [false, true, true, true, true, true, false], [true; 7], [false; 7]]
    {
        let cal = Calendar::new(weekmask, &holidays);
        for date in -40..40 {
            let expected = weekmask[(weekday(date) - 1) as usize] && !holidays.contains(&date);
            assert_eq!(is_workday_date(date, &cal), expected);
        }
    }
}

#[test]
fn calendar_from_weekend_mask() {
    let weekend = [false, false, false, false, false, true, true];
    let cal = Calendar::from_weekend(weekend, &vec![4]);
    assert_eq!(*cal.weekmask(), DEFAULT_WEEK);
    assert!(cal.is_default_weekend());
    assert_eq!(cal.n_weekdays(), 5);
    assert!(!is_workday_date(4, &cal));
    assert!(is_workday_date(5, &cal));
    assert!(!is_workday_date(2, &cal));
}

#[test]
fn calendar_parts() {
    let cal = Calendar::new([false, true, true, true, true, true, false], &vec![9, 5, 5, 3, 4]);
    // day 3 is a Sunday and day 4 a Monday, both closed in this week
    assert_eq!(cal.holidays().len(), 2);
    assert!(cal.holidays().contains(5));
    assert!(cal.holidays().contains(9));
    assert!(!cal.is_default_weekend());
    assert!(cal.cache().is_some());
    assert_eq!(cal.n_weekdays(), 5);
    assert!(cal.is_open(6));
    assert!(!cal.is_open(1));
    let default = Calendar::new(DEFAULT_WEEK, &vec![]);
    assert!(default.cache().is_none());
}
