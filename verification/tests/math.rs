use amm_core::error::AmmError;
use amm_core::math::{integer_sqrt, mul_div, Rounding};

#[test]
fn mul_div_rounds_down() {
    assert_eq!(mul_div(100, 9970, 10000, Rounding::Down), Ok(99));
    assert_eq!(mul_div(7, 3, 2, Rounding::Down), Ok(10));
    assert_eq!(mul_div(6, 4, 3, Rounding::Down), Ok(8));
    assert_eq!(mul_div(0, 12345, 7, Rounding::Down), Ok(0));
}

#[test]
fn mul_div_rounds_up() {
    assert_eq!(mul_div(7, 3, 2, Rounding::Up), Ok(11));
    assert_eq!(mul_div(6, 4, 3, Rounding::Up), Ok(8));
    assert_eq!(mul_div(1, 1, 10000, Rounding::Up), Ok(1));
    assert_eq!(mul_div(0, 5, 9, Rounding::Up), Ok(0));
}

#[test]
fn mul_div_up_never_below_down() {
    let cases: [(u64, u64, u128); 4] = [(7, 3, 2), (1, 1, 3), (1000, 4000, 2000), (99, 101, 7)];
    for (a, b, d) in cases {
        let down = mul_div(a, b, d, Rounding::Down).unwrap();
        let up = mul_div(a, b, d, Rounding::Up).unwrap();
        assert!(up >= down);
        assert!(up - down <= 1);
    }
}

#[test]
fn mul_div_division_by_zero() {
    assert_eq!(mul_div(1, 1, 0, Rounding::Down), Err(AmmError::DivisionByZero));
    assert_eq!(mul_div(0, 0, 0, Rounding::Up), Err(AmmError::DivisionByZero));
}

#[test]
fn mul_div_overflow() {
    assert_eq!(mul_div(u64::MAX, u64::MAX, 1, Rounding::Down), Err(AmmError::Overflow));
    assert_eq!(mul_div(u64::MAX, 2, 1, Rounding::Up), Err(AmmError::Overflow));
    // The widest result that still fits.
    assert_eq!(mul_div(u64::MAX, 7, 7, Rounding::Down), Ok(u64::MAX));
}

#[test]
fn integer_sqrt_exact_values() {
    assert_eq!(integer_sqrt(0), 0);
    assert_eq!(integer_sqrt(1), 1);
    assert_eq!(integer_sqrt(3), 1);
    assert_eq!(integer_sqrt(4), 2);
    assert_eq!(integer_sqrt(15), 3);
    assert_eq!(integer_sqrt(16), 4);
    assert_eq!(integer_sqrt(4_000_000), 2000);
    assert_eq!(integer_sqrt(u64::MAX as u128 * u64::MAX as u128), u64::MAX);
    assert_eq!(integer_sqrt(u128::MAX), u64::MAX);
}
