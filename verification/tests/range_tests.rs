use business_calendar::{
    check_advance, check_workday_count, try_advance_n_days, try_is_workday, Calendar, Column,
    TimeUnit,
};

const DEFAULT_WEEK: [bool; 7] = [true, true, true, true, true, false, false];

#[test]
fn ordinary_columns_can_be_advanced() {
    let cal = Calendar::new(DEFAULT_WEEK, &vec![4]);
    let column = Column::Date(vec![Some(0), None, Some(2)]);
    assert!(check_advance(&column, &vec![Some(1)], &cal, "raise"));
    assert!(check_advance(&column, &vec![Some(1), None, Some(-3)], &cal, "forward"));
    let stamps = Column::Datetime(TimeUnit::Nanoseconds, None, vec![Some(-5), Some(5)]);
    assert!(check_advance(&stamps, &vec![Some(1)], &cal, "backward"));
}

#[test]
fn offsets_must_pair_with_the_rows() {
    let cal = Calendar::new(DEFAULT_WEEK, &vec![]);
    let column = Column::Date(vec![Some(0), Some(1), Some(4)]);
    assert!(!check_advance(&column, &vec![Some(1), Some(1)], &cal, "raise"));
    assert!(!check_advance(&column, &vec![], &cal, "raise"));
    assert!(check_advance(&Column::Date(vec![]), &vec![], &cal, "raise"));
    // a column of another type is refused whatever the offsets are
    assert!(check_advance(&Column::Other("str".to_string()), &vec![], &cal, "raise"));
}

#[test]
fn a_target_beyond_the_ordinals_cannot_be_had() {
    let cal = Calendar::new(DEFAULT_WEEK, &vec![]);
    let column = Column::Date(vec![Some(0), Some(i32::MAX)]);
    assert!(check_advance(&column, &vec![Some(0)], &cal, "raise"));
    assert!(!check_advance(&column, &vec![Some(1)], &cal, "raise"));
    assert!(check_advance(&column, &vec![Some(1), None], &cal, "raise"));
    // an unknown policy is refused before any row is looked at
    assert!(check_advance(&column, &vec![Some(1)], &cal, "sideways"));
}

#[test]
fn rolling_needs_an_open_weekday() {
    let cal = Calendar::new([false; 7], &vec![]);
    let column = Column::Date(vec![Some(0)]);
    assert!(check_advance(&column, &vec![Some(0)], &cal, "raise"));
    assert!(!check_advance(&column, &vec![Some(0)], &cal, "forward"));
    assert!(!check_advance(&column, &vec![Some(0)], &cal, "backward"));
    assert!(check_advance(&column, &vec![None], &cal, "forward"));
}

#[test]
fn a_datetime_must_be_within_reach_and_stay_there() {
    let cal = Calendar::new(DEFAULT_WEEK, &vec![]);
    let far = Column::Datetime(TimeUnit::Milliseconds, None, vec![Some(i64::MAX)]);
    assert!(!check_advance(&far, &vec![Some(0)], &cal, "forward"));
    assert_eq!(try_advance_n_days(&far, &vec![Some(0)], &cal, "forward"), None);
    assert_eq!(try_is_workday(&far, &cal), None);
    // 8e15 milliseconds after the epoch is as far as the library goes
    let reach = 8_000_000_000_000_000i64;
    let edge = Column::Datetime(TimeUnit::Milliseconds, None, vec![Some(reach), Some(-reach)]);
    assert!(check_advance(&edge, &vec![Some(0)], &cal, "backward"));
    assert!(!check_advance(&edge, &vec![Some(7)], &cal, "backward"));
    assert!(check_advance(&edge, &vec![None, Some(7)], &cal, "backward"));
    assert!(try_is_workday(&edge, &cal).is_some());
    let beyond = Column::Datetime(TimeUnit::Milliseconds, None, vec![Some(reach + 1)]);
    assert!(!check_advance(&beyond, &vec![None], &cal, "raise"));
    let late = Column::Datetime(TimeUnit::Nanoseconds, None, vec![Some(9_000_000_000_000_000_000)]);
    assert!(check_advance(&late, &vec![Some(-1)], &cal, "forward"));
    assert!(!check_advance(&late, &vec![Some(1)], &cal, "forward"));
    assert!(try_is_workday(&Column::Date(vec![Some(i32::MAX)]), &cal).is_some());
    assert!(try_is_workday(&Column::Other("str".to_string()), &cal).is_some());
}

#[test]
fn try_advance_answers_where_the_column_can_be_advanced() {
    let cal = Calendar::new(DEFAULT_WEEK, &vec![]);
    let column = Column::Date(vec![Some(1), Some(i32::MAX)]);
    assert_eq!(
        try_advance_n_days(&column, &vec![Some(1), None], &cal, "raise"),
        Some(Ok(Column::Date(vec![Some(4), None])))
    );
    assert_eq!(try_advance_n_days(&column, &vec![Some(1)], &cal, "raise"), None);
    assert_eq!(try_advance_n_days(&column, &vec![Some(1), Some(1), Some(1)], &cal, "raise"), None);
}

#[test]
fn counts_must_pair_and_fit() {
    let every_day = Calendar::new([true; 7], &vec![]);
    let starts = vec![Some(0), Some(1), None];
    assert!(check_workday_count(&starts, &vec![Some(5)], &every_day));
    assert!(check_workday_count(&vec![Some(5)], &starts, &every_day));
    assert!(check_workday_count(&starts, &vec![None, Some(1), Some(2)], &every_day));
    assert!(!check_workday_count(&starts, &vec![Some(1), Some(2)], &every_day));
    assert!(!check_workday_count(&vec![Some(i32::MIN)], &vec![Some(i32::MAX)], &every_day));
    assert!(check_workday_count(&vec![Some(i32::MIN)], &vec![None], &every_day));
    assert!(check_workday_count(&vec![], &vec![], &every_day));
}

#[test]
fn rows_after_the_first_failure_are_not_asked_about() {
    let cal = Calendar::new(DEFAULT_WEEK, &vec![]);
    // the Saturday ends the batch before the last ordinal is come to
    let column = Column::Date(vec![Some(1), Some(2), Some(i32::MAX)]);
    assert!(check_advance(&column, &vec![Some(1)], &cal, "raise"));
    assert_eq!(
        try_advance_n_days(&column, &vec![Some(1)], &cal, "raise"),
        Some(Err(business_calendar::Error::Calendar { date: 2 }))
    );
    // under another policy nothing ends the batch, and the last row is out of range
    assert!(!check_advance(&column, &vec![Some(1)], &cal, "forward"));
    let column = Column::Date(vec![Some(i32::MAX), Some(2)]);
    assert!(!check_advance(&column, &vec![Some(1)], &cal, "raise"));
}
