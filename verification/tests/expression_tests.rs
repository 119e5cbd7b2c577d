use business_calendar::{
    advance_n_days, is_workday, workday_count, BusinessDayKwargs, Column, Error, TimeUnit,
};

fn kwargs(holidays: &[i32], roll: &str) -> BusinessDayKwargs {
    BusinessDayKwargs {
        holidays: holidays.to_vec(),
        weekmask: [true, true, true, true, true, false, false],
        roll: roll.to_string(),
    }
}

#[test]
fn advancing_with_the_calendar_given_beside() {
    // the holidays come in any order and more than once
    let told = kwargs(&[11, 4, 4, 2], "forward");
    let column = Column::Date(vec![Some(1), Some(2), None, Some(8)]);
    assert_eq!(
        advance_n_days(&column, &vec![Some(1)], &told),
        Some(Ok(Column::Date(vec![Some(5), Some(6), None, Some(12)])))
    );
    assert_eq!(
        advance_n_days(&column, &vec![Some(1)], &kwargs(&[], "raise")),
        Some(Err(Error::Calendar { date: 2 }))
    );
    assert_eq!(
        advance_n_days(&column, &vec![Some(1)], &kwargs(&[], "up")),
        Some(Err(Error::Configuration { roll: "up".to_string() }))
    );
    assert_eq!(advance_n_days(&column, &vec![Some(1), Some(2)], &told), None);
}

#[test]
fn counting_with_the_calendar_given_beside() {
    let told = kwargs(&[5], "raise");
    let starts = Column::Date(vec![Some(4), Some(8)]);
    let ends = Column::Date(vec![Some(8), Some(4)]);
    assert_eq!(workday_count(&starts, &ends, &told), Some(Ok(vec![Some(3), Some(-3)])));
    assert_eq!(workday_count(&starts, &Column::Date(vec![]), &told), None);
    let stamps = Column::Datetime(TimeUnit::Milliseconds, None, vec![]);
    assert_eq!(
        workday_count(&starts, &stamps, &told),
        Some(Err(Error::Type { dtype: "datetime[ms]".to_string() }))
    );
    let every_day = BusinessDayKwargs { holidays: vec![], weekmask: [true; 7], roll: String::new() };
    let first = Column::Date(vec![Some(i32::MIN)]);
    let last = Column::Date(vec![Some(i32::MAX)]);
    assert_eq!(workday_count(&first, &last, &every_day), None);
}

#[test]
fn telling_workdays_with_the_calendar_given_beside() {
    let told = kwargs(&[4], "raise");
    let column = Column::Date(vec![Some(1), Some(2), Some(4), None]);
    assert_eq!(is_workday(&column, &told), Some(Ok(vec![Some(true), Some(false), Some(false), None])));
    let far = Column::Datetime(TimeUnit::Microseconds, None, vec![Some(i64::MAX)]);
    assert_eq!(is_workday(&far, &told), None);
    assert_eq!(
        is_workday(&Column::Other("str".to_string()), &told),
        Some(Err(Error::Type { dtype: "str".to_string() }))
    );
}
