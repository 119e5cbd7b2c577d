use business_calendar::arg_previous_greater::arg_previous_greater;

fn numbers(values: &[i128]) -> Vec<Option<i128>> {
    values.iter().map(|v| Some(*v)).collect()
}

fn naive(values: &[Option<i128>]) -> Vec<Option<u32>> {
    (0..values.len())
        .map(|i| {
            let value = values[i]?;
            if values[..i].iter().all(|v| v.is_none()) {
                return None;
            }
            let greater = (0..i).rev().find(|j| matches!(values[*j], Some(v) if v > value));
            Some(greater.unwrap_or(i) as u32)
        })
        .collect()
}

#[test]
fn the_last_greater_row_before_each_row() {
    let values = numbers(&[5, 3, 4, 1, 6, 2]);
    // the first row has no row before it; 6 has no greater row before it and gets its own
    assert_eq!(
        arg_previous_greater(&values),
        vec![None, Some(0), Some(0), Some(2), Some(4), Some(4)]
    );
}

#[test]
fn equal_numbers_are_not_greater() {
    assert_eq!(
        arg_previous_greater(&numbers(&[2, 2, 2, 1, 2])),
        vec![None, Some(1), Some(2), Some(2), Some(4)]
    );
}

#[test]
fn rising_numbers_get_their_own_row() {
    assert_eq!(
        arg_previous_greater(&numbers(&[1, 2, 3, 4])),
        vec![None, Some(1), Some(2), Some(3)]
    );
    assert_eq!(
        arg_previous_greater(&numbers(&[4, 3, 2, 1])),
        vec![None, Some(0), Some(1), Some(2)]
    );
}

#[test]
fn missing_rows_are_passed_over() {
    let values = vec![None, Some(5), None, Some(3), None, None, Some(4), Some(9), None, Some(1)];
    assert_eq!(
        arg_previous_greater(&values),
        vec![None, None, None, Some(1), None, None, Some(1), Some(7), None, Some(7)]
    );
}

#[test]
fn nothing_comes_of_nothing() {
    assert_eq!(arg_previous_greater(&vec![]), vec![]);
    assert_eq!(arg_previous_greater(&vec![None, None]), vec![None, None]);
    assert_eq!(arg_previous_greater(&numbers(&[7])), vec![None]);
}

#[test]
fn numbers_of_any_integer_width() {
    let values = numbers(&[u64::MAX as i128, i64::MIN as i128, 0, u64::MAX as i128, i128::MAX]);
    assert_eq!(
        arg_previous_greater(&values),
        vec![None, Some(0), Some(0), Some(3), Some(4)]
    );
}

#[test]
fn agrees_with_looking_at_every_row_before() {
    // a fixed scramble of small numbers with gaps
    let mut state: u64 = 12345;
    for length in 0..40 {
        let mut values = Vec::new();
        for _ in 0..length {
            state = state.wrapping_mul(6364136223846793005).wrapping_add(1442695040888963407);
            let draw = (state >> 33) % 12;
            values.push(if draw == 0 { None } else { Some(draw as i128 - 6) });
        }
        assert_eq!(arg_previous_greater(&values), naive(&values), "{values:?}");
    }
}
