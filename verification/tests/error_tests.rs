use business_calendar::{calculate_advance, parse_roll, Calendar, Error, RollPolicy};

#[test]
fn calendar_error_names_the_date() {
    let error = Error::Calendar { date: 2 };
    assert_eq!(
        error.message(),
        "date 1970-01-03 is not a business date, cannot advance; set a valid `roll` strategy."
    );
    assert_eq!(error.try_message(), Some(error.message()));
}

#[test]
fn calendar_error_of_an_advance() {
    let cal = Calendar::new([true, true, true, true, true, false, false], &vec![]);
    // 2024-03-02 was a Saturday, 19784 days after the epoch
    let error = calculate_advance(19784, 1, &cal, RollPolicy::Raise).unwrap_err();
    assert_eq!(error, Error::Calendar { date: 19784 });
    assert_eq!(
        error.message(),
        "date 2024-03-02 is not a business date, cannot advance; set a valid `roll` strategy."
    );
}

#[test]
fn calendar_error_before_the_epoch() {
    let error = Error::Calendar { date: -1 };
    assert_eq!(
        error.try_message().unwrap(),
        "date 1969-12-31 is not a business date, cannot advance; set a valid `roll` strategy."
    );
}

#[test]
fn a_date_too_far_away_has_no_wording() {
    assert_eq!(Error::Calendar { date: i32::MAX }.try_message(), None);
    assert_eq!(Error::Calendar { date: i32::MIN }.try_message(), None);
    assert!(Error::Calendar { date: 95_000_000 }.try_message().is_some());
}

#[test]
fn configuration_error_names_the_policy() {
    let error = Error::Configuration { roll: "sideways".to_string() };
    assert_eq!(
        error.message(),
        "`roll` must be one of 'raise', 'forward' or 'backward'; found 'sideways'"
    );
    assert_eq!(error.try_message(), Some(error.message()));
}

#[test]
fn type_error_names_the_type() {
    let error = Error::Type { dtype: "str".to_string() };
    assert_eq!(error.message(), "expected Datetime or Date dtype, got: str");
    assert_eq!(error.try_message(), Some(error.message()));
}

#[test]
fn parse_roll_knows_three_names() {
    assert_eq!(parse_roll("raise"), Ok(RollPolicy::Raise));
    assert_eq!(parse_roll("forward"), Ok(RollPolicy::Forward));
    assert_eq!(parse_roll("backward"), Ok(RollPolicy::Backward));
}

#[test]
fn parse_roll_refuses_other_names() {
    for name in ["", "Raise", "raise ", "forwards", "nearest", "back"] {
        assert_eq!(parse_roll(name), Err(Error::Configuration { roll: name.to_string() }));
    }
}
