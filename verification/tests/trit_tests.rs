use ternary_conv::{trit_mul, TernaryMatrix};

#[test]
fn test_trit_mul_exhaustive() {
    for a in [-1i8, 0, 1] {
        for b in [-1i8, 0, 1] {
            let r = trit_mul(a, b);
            assert!(r >= -1 && r <= 1);
            let expected = match (a, b) {
                (0, _) | (_, 0) => 0,
                (-1, -1) | (1, 1) => 1,
                (-1, 1) | (1, -1) => -1,
                _ => 0,
            };
            assert_eq!(r, expected, "trit_mul({a}, {b}) = {r}, expected {expected}");
        }
    }
}

#[test]
fn trit_mul_table_rows() {
    assert_eq!(trit_mul(-1, -1), 1);
    assert_eq!(trit_mul(-1, 1), -1);
    assert_eq!(trit_mul(1, -1), -1);
    assert_eq!(trit_mul(1, 1), 1);
    assert_eq!(trit_mul(0, -1), 0);
    assert_eq!(trit_mul(1, 0), 0);
}

#[test]
fn round_to_trit_is_the_sign() {
    assert_eq!(TernaryMatrix::round_to_trit(-5), -1);
    assert_eq!(TernaryMatrix::round_to_trit(-1), -1);
    assert_eq!(TernaryMatrix::round_to_trit(0), 0);
    assert_eq!(TernaryMatrix::round_to_trit(1), 1);
    assert_eq!(TernaryMatrix::round_to_trit(7), 1);
    assert_eq!(TernaryMatrix::round_to_trit(i32::MIN), -1);
    assert_eq!(TernaryMatrix::round_to_trit(i32::MAX), 1);
}
