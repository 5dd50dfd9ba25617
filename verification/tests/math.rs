use kube_cel::math::{
    math_abs, math_bit_and, math_bit_not, math_bit_or, math_bit_shift_left, math_bit_shift_right, math_bit_xor,
    math_sign, IntArg,
};

#[test]
fn test_abs_int() {
    assert_eq!(math_abs(IntArg::Int(-5)).unwrap(), IntArg::Int(5));
    assert_eq!(math_abs(IntArg::Int(5)).unwrap(), IntArg::Int(5));
    assert_eq!(math_abs(IntArg::Int(0)).unwrap(), IntArg::Int(0));
}

#[test]
fn test_sign_int() {
    assert_eq!(math_sign(IntArg::Int(-3)), IntArg::Int(-1));
    assert_eq!(math_sign(IntArg::Int(0)), IntArg::Int(0));
    assert_eq!(math_sign(IntArg::Int(5)), IntArg::Int(1));
}

#[test]
fn test_bit_and() {
    assert_eq!(math_bit_and(3, 5), 1);
}

#[test]
fn test_bit_or() {
    assert_eq!(math_bit_or(3, 5), 7);
}

#[test]
fn test_bit_xor() {
    assert_eq!(math_bit_xor(3, 5), 6);
}

#[test]
fn test_bit_not() {
    assert_eq!(math_bit_not(0), -1);
}

#[test]
fn test_bit_shift_left() {
    assert_eq!(math_bit_shift_left(1, 3).unwrap(), 8);
}

#[test]
fn test_bit_shift_right() {
    assert_eq!(math_bit_shift_right(8, 3).unwrap(), 1);
}

#[test]
fn test_bit_shift_invalid() {
    assert!(math_bit_shift_left(1, -1).is_err());
    assert!(math_bit_shift_left(1, 64).is_err());
    assert!(math_bit_shift_right(1, -1).is_err());
}

// Edge cases of this library.

#[test]
fn abs_of_min_int_overflows() {
    assert_eq!(math_abs(IntArg::Int(i64::MIN)).unwrap_err(), "integer overflow");
}

#[test]
fn uint_abs_and_sign() {
    assert_eq!(math_abs(IntArg::UInt(7)).unwrap(), IntArg::UInt(7));
    assert_eq!(math_sign(IntArg::UInt(0)), IntArg::UInt(0));
    assert_eq!(math_sign(IntArg::UInt(9)), IntArg::UInt(1));
}

#[test]
fn shifts_at_the_edges() {
    assert_eq!(math_bit_shift_left(1, 63).unwrap(), i64::MIN);
    assert_eq!(math_bit_shift_right(-8, 1).unwrap(), -4);
    assert_eq!(math_bit_shift_right(-1, 63).unwrap(), -1);
    assert_eq!(math_bit_shift_left(3, 0).unwrap(), 3);
    assert_eq!(math_bit_shift_right(1, 64).unwrap_err(), "shift amount must be between 0 and 63");
}

#[test]
fn bit_not_is_negation_minus_one() {
    for v in [0i64, 1, -1, 42, i64::MAX, i64::MIN] {
        assert_eq!(math_bit_not(v), v.wrapping_neg().wrapping_sub(1));
    }
}
