use business_calendar::month_delta::civil_from_ordinal;
use business_calendar::{
    add_month, get_m_diff, impl_month_delta, try_month_delta, CivilDate, Column, Error, TimeUnit,
};

fn date(year: i32, month: u32, day: u32) -> CivilDate {
    CivilDate { year, month, day }
}

#[test]
fn three_months_from_january_to_april() {
    assert_eq!(get_m_diff(date(2023, 1, 1), date(2023, 4, 1)), 3);
    assert_eq!(get_m_diff(date(2023, 4, 1), date(2023, 1, 1)), -3);
}

#[test]
fn a_month_is_whole_on_the_same_day_of_the_month() {
    assert_eq!(get_m_diff(date(2023, 1, 15), date(2023, 2, 14)), 0);
    assert_eq!(get_m_diff(date(2023, 1, 15), date(2023, 2, 15)), 1);
    assert_eq!(get_m_diff(date(2023, 1, 15), date(2023, 2, 16)), 1);
    assert_eq!(get_m_diff(date(2023, 2, 15), date(2023, 1, 16)), 0);
    assert_eq!(get_m_diff(date(2023, 2, 15), date(2023, 1, 15)), -1);
    assert_eq!(get_m_diff(date(2023, 2, 15), date(2023, 1, 14)), -1);
    assert_eq!(get_m_diff(date(2023, 6, 7), date(2023, 6, 7)), 0);
}

#[test]
fn the_end_of_a_short_month_counts_as_the_day() {
    assert_eq!(get_m_diff(date(2023, 1, 31), date(2023, 2, 27)), 0);
    assert_eq!(get_m_diff(date(2023, 1, 31), date(2023, 2, 28)), 1);
    assert_eq!(get_m_diff(date(2024, 1, 31), date(2024, 2, 28)), 0);
    assert_eq!(get_m_diff(date(2024, 1, 31), date(2024, 2, 29)), 1);
    assert_eq!(get_m_diff(date(2023, 3, 31), date(2023, 2, 28)), -1);
}

#[test]
fn months_over_many_years() {
    assert_eq!(get_m_diff(date(1970, 1, 1), date(2024, 2, 29)), 649);
    assert_eq!(get_m_diff(date(2024, 2, 29), date(1970, 1, 1)), -649);
    assert_eq!(get_m_diff(date(2000, 12, 31), date(2001, 1, 1)), 0);
    assert_eq!(get_m_diff(date(2000, 12, 1), date(2001, 1, 1)), 1);
    assert_eq!(get_m_diff(date(-5, 6, 1), date(5, 6, 1)), 120);
    assert_eq!(get_m_diff(date(-262143, 1, 1), date(262142, 12, 31)), 524285 * 12 + 11);
    assert_eq!(get_m_diff(date(262142, 12, 31), date(-262143, 1, 1)), -(524285 * 12 + 11));
}

#[test]
fn adding_months_moves_year_and_month() {
    assert_eq!(add_month(date(2023, 1, 15), 1), date(2023, 2, 15));
    assert_eq!(add_month(date(2023, 1, 15), 12), date(2024, 1, 15));
    assert_eq!(add_month(date(2023, 11, 15), 3), date(2024, 2, 15));
    assert_eq!(add_month(date(2023, 1, 15), -1), date(2022, 12, 15));
    assert_eq!(add_month(date(2023, 3, 15), -15), date(2021, 12, 15));
    assert_eq!(add_month(date(2023, 3, 15), 0), date(2023, 3, 15));
    assert_eq!(add_month(date(0, 1, 1), -1), date(-1, 12, 1));
    assert_eq!(add_month(date(-1, 12, 1), 1), date(0, 1, 1));
}

#[test]
fn adding_months_stops_at_the_end_of_the_month() {
    assert_eq!(add_month(date(2023, 1, 31), 1), date(2023, 2, 28));
    assert_eq!(add_month(date(2024, 1, 31), 1), date(2024, 2, 29));
    assert_eq!(add_month(date(2023, 1, 31), 3), date(2023, 4, 30));
    assert_eq!(add_month(date(2023, 3, 31), -1), date(2023, 2, 28));
    assert_eq!(add_month(date(1900, 1, 31), 1), date(1900, 2, 28));
    assert_eq!(add_month(date(2000, 1, 31), 1), date(2000, 2, 29));
    assert_eq!(add_month(date(2023, 12, 31), 2), date(2024, 2, 29));
}

#[test]
fn dates_of_ordinals() {
    assert_eq!(civil_from_ordinal(0), Some(date(1970, 1, 1)));
    assert_eq!(civil_from_ordinal(-1), Some(date(1969, 12, 31)));
    assert_eq!(civil_from_ordinal(19782), Some(date(2024, 2, 29)));
    assert_eq!(civil_from_ordinal(10957), Some(date(2000, 1, 1)));
    assert_eq!(civil_from_ordinal(i32::MAX), None);
    assert_eq!(civil_from_ordinal(i32::MIN), None);
    assert_eq!(civil_from_ordinal(i32::MAX - 719_163), None);
    assert_eq!(civil_from_ordinal(100_000_000), None);
}

#[test]
fn months_between_columns() {
    // 2023-01-01 is day 19358, 2023-03-01 day 19417, 2023-04-01 day 19448, 2023-06-01 day 19509
    let starts = Column::Date(vec![Some(19358), Some(19417), None, Some(19509)]);
    let ends = Column::Date(vec![Some(19448), Some(19509), Some(0), Some(19358)]);
    assert_eq!(impl_month_delta(&starts, &ends), Ok(vec![Some(3), Some(3), None, Some(-5)]));
    assert_eq!(try_month_delta(&starts, &ends), Some(Ok(vec![Some(3), Some(3), None, Some(-5)])));
}

#[test]
fn months_between_columns_of_unequal_length() {
    let starts = Column::Date(vec![Some(0), Some(31), Some(59)]);
    let ends = Column::Date(vec![Some(31)]);
    assert_eq!(impl_month_delta(&starts, &ends), Ok(vec![Some(1)]));
    assert_eq!(impl_month_delta(&ends, &starts), Ok(vec![Some(-1)]));
    assert_eq!(impl_month_delta(&starts, &Column::Date(vec![])), Ok(vec![]));
}

#[test]
fn months_between_take_dates_only() {
    let dates = Column::Date(vec![Some(0)]);
    let stamps = Column::Datetime(TimeUnit::Milliseconds, None, vec![Some(0)]);
    assert_eq!(
        impl_month_delta(&stamps, &dates),
        Err(Error::Type { dtype: "datetime[ms]".to_string() })
    );
    assert_eq!(
        try_month_delta(&dates, &Column::Other("str".to_string())),
        Some(Err(Error::Type { dtype: "str".to_string() }))
    );
}

#[test]
fn months_between_dates_out_of_range() {
    let starts = Column::Date(vec![Some(0), Some(i32::MAX)]);
    let ends = Column::Date(vec![Some(31), Some(0)]);
    assert_eq!(try_month_delta(&starts, &ends), None);
    assert_eq!(try_month_delta(&ends, &starts), None);
    // a date out of range in a row that is not counted does no harm
    let short = Column::Date(vec![Some(31)]);
    assert_eq!(try_month_delta(&starts, &short), Some(Ok(vec![Some(1)])));
    // nor does a date beside a missing one
    let gaps = Column::Date(vec![None, Some(i32::MIN)]);
    assert_eq!(try_month_delta(&gaps, &starts), None);
}
