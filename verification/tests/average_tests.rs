use mcs_binary::average::calculate_average;

// aggregate of an empty collection: no data, never a division by zero
#[test]
fn aggregate_empty_returns_none() {
    let values: Vec<i64> = Vec::new();
    assert_eq!(calculate_average(&values), None);
}

// aggregate of a single value is that value
#[test]
fn aggregate_single_value() {
    let values: Vec<i64> = vec![1_010_000];
    assert_eq!(calculate_average(&values), Some(1_010_000));
}

// mean of 1.0, 2.0, 3.0 (in ten-thousandths) is exactly 2.0
#[test]
fn aggregate_three_values() {
    let values: Vec<i64> = vec![10_000, 20_000, 30_000];
    assert_eq!(calculate_average(&values), Some(20_000));
}

// mean of 100.0, 102.0, 101.0 is exactly 101.0
#[test]
fn aggregate_round_values() {
    let values: Vec<i64> = vec![1_000_000, 1_020_000, 1_010_000];
    assert_eq!(calculate_average(&values), Some(1_010_000));
}

// the quotient is Euclidean: it rounds towards negative infinity
#[test]
fn aggregate_floor_division() {
    assert_eq!(calculate_average(&vec![1, 2]), Some(1));
    assert_eq!(calculate_average(&vec![-3, -4]), Some(-4));
    assert_eq!(calculate_average(&vec![-1, 2]), Some(0));
}

// extremes do not overflow the running sum
#[test]
fn aggregate_extremes() {
    assert_eq!(calculate_average(&vec![i64::MAX, i64::MAX]), Some(i64::MAX));
    assert_eq!(calculate_average(&vec![i64::MIN, i64::MIN]), Some(i64::MIN));
    assert_eq!(calculate_average(&vec![i64::MAX, i64::MIN]), Some(-1));
}
