use business_calendar::local_datetime::{
    choose_instant, naive_local_to_naive_utc_in_new_time_zone, try_naive_local_to_naive_utc,
};
use business_calendar::{
    check_turn, elementwise_from_local_datetime, elementwise_to_local_datetime,
    from_local_datetime_output, parse_ambiguous, to_local_datetime_output, Ambiguous, Column,
    DataType, Error, Field, FromLocalDatetimeKwargs, Instants, TimeUnit,
};

const HOUR_MS: i64 = 3_600_000;
const DAY_MS: i64 = 86_400_000;
// 2024-01-01 is day 19723; noon of it in milliseconds
const NOON: i64 = 19723 * DAY_MS + 12 * HOUR_MS;
// 2023-10-29, the day on which the clocks of Amsterdam go back at 03:00, is day 19659
const BACK: i64 = 19659 * DAY_MS;
// 2024-03-31, the day on which they go forward at 02:00, is day 19813
const FORWARD: i64 = 19813 * DAY_MS;

fn zones(names: &[Option<&str>]) -> Vec<Option<String>> {
    names.iter().map(|z| z.map(str::to_string)).collect()
}

fn stamps(unit: TimeUnit, zone: Option<&str>, values: &[Option<i64>]) -> Column {
    Column::Datetime(unit, zone.map(str::to_string), values.to_vec())
}

#[test]
fn noon_in_utc_is_one_in_amsterdam() {
    let column = stamps(TimeUnit::Milliseconds, None, &[Some(NOON), None, Some(NOON + 1)]);
    assert_eq!(
        elementwise_to_local_datetime(&column, &zones(&[Some("Europe/Amsterdam")])),
        Ok(stamps(
            TimeUnit::Milliseconds,
            None,
            &[Some(NOON + HOUR_MS), None, Some(NOON + HOUR_MS + 1)]
        ))
    );
}

#[test]
fn each_row_in_the_zone_beside_it() {
    let column = stamps(
        TimeUnit::Milliseconds,
        Some("Europe/London"),
        &[Some(NOON), Some(NOON), Some(NOON), None],
    );
    let tz = zones(&[Some("Asia/Kathmandu"), None, Some("America/New_York"), Some("UTC")]);
    assert_eq!(
        elementwise_to_local_datetime(&column, &tz),
        Ok(stamps(
            TimeUnit::Milliseconds,
            None,
            &[Some(NOON + 5 * HOUR_MS + 45 * 60_000), None, Some(NOON - 5 * HOUR_MS), None]
        ))
    );
}

#[test]
fn a_missing_zone_leaves_every_row_missing() {
    let column = stamps(TimeUnit::Milliseconds, None, &[Some(NOON), Some(0)]);
    assert_eq!(
        elementwise_to_local_datetime(&column, &zones(&[None])),
        Ok(stamps(TimeUnit::Milliseconds, None, &[None, None]))
    );
    assert_eq!(
        elementwise_from_local_datetime(&column, &zones(&[None]), "UTC", "raise"),
        Ok(stamps(TimeUnit::Milliseconds, Some("UTC"), &[None, None]))
    );
}

#[test]
fn clocks_in_every_unit_and_before_the_epoch() {
    for (unit, per_ms) in [
        (TimeUnit::Milliseconds, 1),
        (TimeUnit::Microseconds, 1_000),
        (TimeUnit::Nanoseconds, 1_000_000),
    ] {
        // one unit before the epoch, and one unit before noon
        let column = stamps(unit, None, &[Some(-1), Some(NOON * per_ms - 1)]);
        assert_eq!(
            elementwise_to_local_datetime(&column, &zones(&[Some("Europe/Amsterdam")])),
            Ok(stamps(
                unit,
                None,
                &[Some(HOUR_MS * per_ms - 1), Some((NOON + HOUR_MS) * per_ms - 1)]
            ))
        );
        assert_eq!(
            elementwise_from_local_datetime(
                &column,
                &zones(&[Some("Europe/Amsterdam")]),
                "Europe/Amsterdam",
                "raise"
            ),
            Ok(stamps(
                unit,
                Some("Europe/Amsterdam"),
                &[Some(-HOUR_MS * per_ms - 1), Some((NOON - HOUR_MS) * per_ms - 1)]
            ))
        );
    }
}

#[test]
fn an_unknown_zone_is_refused_in_words() {
    let column = stamps(TimeUnit::Milliseconds, None, &[None]);
    // a single zone is asked about even where no row needs it
    match elementwise_to_local_datetime(&column, &zones(&[Some("Mars/Olympus")])) {
        Err(Error::TimeZone { message }) => assert!(message.contains("Mars/Olympus")),
        other => panic!("{other:?}"),
    }
    // the zone of the column too
    let odd = stamps(TimeUnit::Milliseconds, Some("Moon/Base"), &[]);
    match elementwise_to_local_datetime(&odd, &zones(&[Some("UTC")])) {
        Err(Error::TimeZone { message }) => assert!(message.contains("Moon/Base")),
        other => panic!("{other:?}"),
    }
    // row by row, only a row that needs its zone asks about it
    let rows = stamps(TimeUnit::Milliseconds, None, &[None, Some(0), Some(1)]);
    let tz = zones(&[Some("Mars/Olympus"), Some("UTC"), Some("Venus/Clouds")]);
    match elementwise_to_local_datetime(&rows, &tz) {
        Err(Error::TimeZone { message }) => assert!(message.contains("Venus/Clouds")),
        other => panic!("{other:?}"),
    }
    match elementwise_from_local_datetime(&rows, &zones(&[Some("UTC")]), "Mars/Olympus", "raise") {
        Err(Error::TimeZone { message }) => assert!(message.contains("Mars/Olympus")),
        other => panic!("{other:?}"),
    }
}

#[test]
fn one_in_amsterdam_is_noon_in_utc() {
    let column = stamps(TimeUnit::Milliseconds, None, &[Some(NOON + HOUR_MS), None]);
    assert_eq!(
        elementwise_from_local_datetime(
            &column,
            &zones(&[Some("Europe/Amsterdam")]),
            "Asia/Tokyo",
            "raise"
        ),
        Ok(stamps(TimeUnit::Milliseconds, Some("Asia/Tokyo"), &[Some(NOON), None]))
    );
}

#[test]
fn a_time_that_comes_twice_is_settled_as_told() {
    // half past two at night comes twice on the day the clocks go back
    let twice = BACK + 2 * HOUR_MS + 30 * 60_000;
    let column = stamps(TimeUnit::Milliseconds, None, &[Some(twice)]);
    let tz = zones(&[Some("Europe/Amsterdam")]);
    assert_eq!(
        elementwise_from_local_datetime(&column, &tz, "UTC", "earliest"),
        Ok(stamps(TimeUnit::Milliseconds, Some("UTC"), &[Some(twice - 2 * HOUR_MS)]))
    );
    assert_eq!(
        elementwise_from_local_datetime(&column, &tz, "UTC", "latest"),
        Ok(stamps(TimeUnit::Milliseconds, Some("UTC"), &[Some(twice - HOUR_MS)]))
    );
    assert_eq!(
        elementwise_from_local_datetime(&column, &tz, "UTC", "raise"),
        Err(Error::TimeZone {
            message: "datetime '2023-10-29 02:30:00' is ambiguous in time zone 'UTC'. \
                      Please use `ambiguous` to tell how it should be localized."
                .to_string()
        })
    );
}

#[test]
fn a_time_that_does_not_come_is_refused() {
    let skipped = FORWARD + 2 * HOUR_MS + 30 * 60_000;
    let column = stamps(TimeUnit::Milliseconds, None, &[Some(0), Some(skipped), Some(1)]);
    let tz = zones(&[Some("Europe/Amsterdam")]);
    assert_eq!(
        elementwise_from_local_datetime(&column, &tz, "Europe/Paris", "earliest"),
        Err(Error::TimeZone {
            message: "datetime '2024-03-31 02:30:00' is non-existent in time zone \
                      'Europe/Paris'. Non-existent datetimes are not yet supported"
                .to_string()
        })
    );
}

#[test]
fn the_ways_to_settle_a_time_by_name() {
    assert_eq!(parse_ambiguous("earliest"), Ok(Ambiguous::Earliest));
    assert_eq!(parse_ambiguous("latest"), Ok(Ambiguous::Latest));
    assert_eq!(parse_ambiguous("raise"), Ok(Ambiguous::Raise));
    for name in ["", "null", "Raise", "first"] {
        assert_eq!(parse_ambiguous(name), Err(Error::Ambiguous { name: name.to_string() }));
    }
    let column = stamps(TimeUnit::Milliseconds, None, &[Some(0)]);
    let error = elementwise_from_local_datetime(&column, &zones(&[Some("UTC")]), "UTC", "null")
        .unwrap_err();
    assert_eq!(error, Error::Ambiguous { name: "null".to_string() });
    assert_eq!(
        error.message(),
        "Invalid argument null, expected one of: \"earliest\", \"latest\", \"raise\""
    );
}

#[test]
fn choosing_among_moments() {
    let two = Instants::Ambiguous(10, 5, 3610, 5);
    assert_eq!(choose_instant(Instants::Single(7, 1), Ambiguous::Raise, 0, 0, "UTC"), Ok((7, 1)));
    assert_eq!(choose_instant(two, Ambiguous::Earliest, 0, 0, "UTC"), Ok((10, 5)));
    assert_eq!(choose_instant(two, Ambiguous::Latest, 0, 0, "UTC"), Ok((3610, 5)));
    assert_eq!(
        choose_instant(two, Ambiguous::Raise, 86_400, 500_000_000, "Asia/Tokyo"),
        Err(Error::TimeZone {
            message: "datetime '1970-01-02 00:00:00.500' is ambiguous in time zone \
                      'Asia/Tokyo'. Please use `ambiguous` to tell how it should be localized."
                .to_string()
        })
    );
    assert!(choose_instant(Instants::Missing, Ambiguous::Earliest, 0, 0, "UTC").is_err());
}

#[test]
fn one_time_on_one_clock() {
    assert_eq!(
        naive_local_to_naive_utc_in_new_time_zone(
            "America/New_York",
            "UTC",
            NOON,
            TimeUnit::Milliseconds,
            Ambiguous::Raise
        ),
        Ok(NOON + 5 * HOUR_MS)
    );
    assert_eq!(
        try_naive_local_to_naive_utc(
            "America/New_York",
            "UTC",
            NOON,
            TimeUnit::Milliseconds,
            Ambiguous::Raise
        ),
        Some(Ok(NOON + 5 * HOUR_MS))
    );
    // an unknown zone and a time out of reach have no answer
    assert_eq!(
        try_naive_local_to_naive_utc("Nowhere", "UTC", NOON, TimeUnit::Milliseconds, Ambiguous::Raise),
        None
    );
    assert_eq!(
        try_naive_local_to_naive_utc("UTC", "UTC", i64::MAX, TimeUnit::Milliseconds, Ambiguous::Raise),
        None
    );
}

#[test]
fn only_datetimes_have_clocks() {
    let dates = Column::Date(vec![Some(0)]);
    assert_eq!(
        elementwise_to_local_datetime(&dates, &zones(&[Some("UTC")])),
        Err(Error::Type { dtype: "date".to_string() })
    );
    assert_eq!(
        elementwise_from_local_datetime(&dates, &zones(&[Some("UTC")]), "UTC", "raise"),
        Err(Error::Type { dtype: "date".to_string() })
    );
}

#[test]
fn what_can_be_turned() {
    let column = stamps(TimeUnit::Milliseconds, None, &[Some(0), None]);
    assert!(check_turn(&column, &zones(&[None])));
    assert!(check_turn(&column, &zones(&[None, Some("UTC")])));
    assert!(!check_turn(&column, &zones(&[])));
    assert!(!check_turn(&column, &zones(&[None, None, None])));
    let far = stamps(TimeUnit::Microseconds, None, &[Some(i64::MAX)]);
    assert!(!check_turn(&far, &zones(&[None])));
    assert!(check_turn(&Column::Date(vec![]), &zones(&[])));
}

#[test]
fn the_type_of_a_converted_column() {
    let zoned = Field {
        name: "when".to_string(),
        dtype: DataType::Datetime(TimeUnit::Microseconds, Some("Asia/Tokyo".to_string())),
    };
    assert_eq!(
        to_local_datetime_output(&[zoned]),
        Ok(Field {
            name: "when".to_string(),
            dtype: DataType::Datetime(TimeUnit::Microseconds, None)
        })
    );
    let naive = Field {
        name: "when".to_string(),
        dtype: DataType::Datetime(TimeUnit::Nanoseconds, None),
    };
    let kwargs =
        FromLocalDatetimeKwargs { to_tz: "Europe/Rome".to_string(), ambiguous: "raise".to_string() };
    assert_eq!(
        from_local_datetime_output(&[naive], kwargs),
        Ok(Field {
            name: "when".to_string(),
            dtype: DataType::Datetime(TimeUnit::Nanoseconds, Some("Europe/Rome".to_string()))
        })
    );
}

#[test]
fn the_type_of_another_column_is_refused() {
    let dates = Field { name: "day".to_string(), dtype: DataType::Date };
    assert_eq!(to_local_datetime_output(&[dates]), Err(Error::Type { dtype: "date".to_string() }));
    let other = Field { name: "x".to_string(), dtype: DataType::Other("f64".to_string()) };
    let kwargs = FromLocalDatetimeKwargs { to_tz: "UTC".to_string(), ambiguous: "raise".to_string() };
    assert_eq!(
        from_local_datetime_output(&[other], kwargs),
        Err(Error::Type { dtype: "f64".to_string() })
    );
    assert_eq!(
        DataType::Datetime(TimeUnit::Milliseconds, Some("UTC".to_string())).name(),
        "datetime[ms, UTC]"
    );
}
