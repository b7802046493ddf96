use calc_core::combin::{big_factorial, ncr_exact, npr_exact};
use calc_core::errors::{CombKind, EvalError};
use calc_core::grouping::strip_separators;

use num_bigint::BigUint;

#[test]
fn permutation_counts() {
    assert_eq!(npr_exact(5, 2), Ok("20".to_string()));
    assert_eq!(npr_exact(5, 0), Ok("1".to_string()));
    assert_eq!(npr_exact(5, 5), Ok("120".to_string()));
    assert_eq!(npr_exact(0, 0), Ok("1".to_string()));
    assert_eq!(npr_exact(170, 1), Ok("170".to_string()));
}

#[test]
fn combination_counts() {
    assert_eq!(ncr_exact(5, 2), Ok("10".to_string()));
    assert_eq!(ncr_exact(5, 0), Ok("1".to_string()));
    assert_eq!(ncr_exact(5, 5), Ok("1".to_string()));
    assert_eq!(ncr_exact(10, 3), Ok("120".to_string()));
    assert_eq!(ncr_exact(52, 5), Ok("2598960".to_string()));
}

#[test]
fn combination_is_symmetric() {
    assert_eq!(ncr_exact(10, 3), ncr_exact(10, 7));
    assert_eq!(ncr_exact(170, 80), ncr_exact(170, 90));
}

#[test]
fn combinatorial_argument_validation() {
    assert_eq!(
        npr_exact(2, 3),
        Err(EvalError::InvalidCombArgs(CombKind::Perm))
    );
    assert_eq!(
        ncr_exact(2, 3),
        Err(EvalError::InvalidCombArgs(CombKind::Comb))
    );
    assert_eq!(npr_exact(171, 0), Err(EvalError::NTooLarge));
    assert_eq!(ncr_exact(171, 170), Err(EvalError::NTooLarge));
    assert_eq!(npr_exact(170, 170).is_ok(), true);
}

#[test]
fn combination_matches_reference_arithmetic() {
    // C(170, 85) computed independently with exact big integers.
    let mut num = BigUint::from(1u64);
    let mut den = BigUint::from(1u64);
    for i in 0..85u64 {
        num *= 170 - i;
        den *= i + 1;
    }
    let reference = (num / den).to_string();
    assert_eq!(ncr_exact(170, 85), Ok(reference));
}

#[test]
fn small_factorials_group_digits() {
    assert_eq!(big_factorial(0), "1");
    assert_eq!(big_factorial(1), "1");
    assert_eq!(big_factorial(5), "120");
    assert_eq!(big_factorial(13), "6,227,020,800");
}

#[test]
fn oversized_factorials_are_refused() {
    assert_eq!(big_factorial(100001), "Error: Too large (max 100000)");
}

#[test]
fn factorial_crosses_the_floating_range_at_171() {
    let f170: f64 = strip_separators(&big_factorial(170)).parse().unwrap();
    assert!(f170.is_finite());
    let f171: f64 = strip_separators(&big_factorial(171)).parse().unwrap();
    assert_eq!(f171, f64::INFINITY);
}

#[test]
fn big_factorial_matches_reference_arithmetic() {
    let mut reference = BigUint::from(1u64);
    for i in 2..=171u64 {
        reference *= i;
    }
    assert_eq!(
        strip_separators(&big_factorial(171)),
        reference.to_string()
    );
}
