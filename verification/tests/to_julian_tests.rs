use business_calendar::to_julian::moment_parts;
use business_calendar::{
    impl_to_julian_parts, try_to_julian_parts, Column, Error, MomentParts, TimeUnit,
};

fn parts(date: (i32, u32, u32), time: (u32, u32, u32), nanosecond: u32) -> MomentParts {
    MomentParts {
        year: date.0,
        month: date.1,
        day: date.2,
        hour: time.0,
        minute: time.1,
        second: time.2,
        nanosecond,
    }
}

#[test]
fn the_parts_of_a_date() {
    let column = Column::Date(vec![Some(0), None, Some(19782), Some(-1)]);
    assert_eq!(
        impl_to_julian_parts(&column),
        Ok(vec![
            Some(parts((1970, 1, 1), (0, 0, 0), 0)),
            None,
            Some(parts((2024, 2, 29), (0, 0, 0), 0)),
            Some(parts((1969, 12, 31), (0, 0, 0), 0)),
        ])
    );
}

#[test]
fn the_parts_of_a_datetime() {
    // 2024-02-29 13:45:07.250 in milliseconds
    let stamp = 19782 * 86_400_000i64 + ((13 * 60 + 45) * 60 + 7) * 1000 + 250;
    let column = Column::Datetime(TimeUnit::Milliseconds, None, vec![Some(stamp), Some(-1)]);
    assert_eq!(
        impl_to_julian_parts(&column),
        Ok(vec![
            Some(parts((2024, 2, 29), (13, 45, 7), 250_000_000)),
            Some(parts((1969, 12, 31), (23, 59, 59), 999_000_000)),
        ])
    );
    let utc = Column::Datetime(TimeUnit::Nanoseconds, Some("UTC".to_string()), vec![Some(1)]);
    assert_eq!(impl_to_julian_parts(&utc), Ok(vec![Some(parts((1970, 1, 1), (0, 0, 0), 1))]));
}

#[test]
fn the_parts_of_a_moment() {
    assert_eq!(moment_parts(86_399, 5), Some(parts((1970, 1, 1), (23, 59, 59), 5)));
    assert_eq!(moment_parts(-86_400, 0), Some(parts((1969, 12, 31), (0, 0, 0), 0)));
    assert_eq!(moment_parts(951_782_400, 0), Some(parts((2000, 2, 29), (0, 0, 0), 0)));
}

#[test]
fn another_time_zone_is_refused() {
    let zoned =
        Column::Datetime(TimeUnit::Milliseconds, Some("Asia/Tokyo".to_string()), vec![Some(0)]);
    assert_eq!(
        impl_to_julian_parts(&zoned),
        Err(Error::TimeZone {
            message: "polars_xdt to_julian currently only works on UTC or naive Datetime type. \
                      For now, please cast to UTC Datetime first."
                .to_string()
        })
    );
    assert_eq!(
        try_to_julian_parts(&Column::Other("str".to_string())),
        Some(Err(Error::Type { dtype: "str".to_string() }))
    );
}

#[test]
fn rows_out_of_range_have_no_parts() {
    assert_eq!(try_to_julian_parts(&Column::Date(vec![Some(i32::MAX)])), None);
    let far = Column::Datetime(TimeUnit::Microseconds, None, vec![Some(i64::MIN)]);
    assert_eq!(try_to_julian_parts(&far), None);
    assert_eq!(
        try_to_julian_parts(&Column::Date(vec![Some(1)])),
        Some(Ok(vec![Some(parts((1970, 1, 2), (0, 0, 0), 0))]))
    );
}
