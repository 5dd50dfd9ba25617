use kube_cel::quantity::{parse_quantity, parse_quantity_checked, KubeQuantity};

fn q(s: &str) -> KubeQuantity {
    parse_quantity_checked(s).unwrap()
}

fn is_quantity(s: &str) -> bool {
    parse_quantity_checked(s).is_ok()
}

/// The quantity as a float, computed as CEL's `asApproximateFloat` does.
fn approx(q: &KubeQuantity) -> f64 {
    q.mantissa() as f64 * 10f64.powi(q.scale())
}

fn from_int(n: i128) -> KubeQuantity {
    KubeQuantity::from_i128(n)
}

#[test]
fn test_parse_plain_integer() {
    assert!(is_quantity("100"));
    assert_eq!(q("100").as_integer().unwrap(), 100);
}

#[test]
fn test_parse_decimal() {
    assert_eq!(approx(&q("1.5")), 1.5);
}

#[test]
fn test_parse_decimal_si() {
    assert_eq!(q("1k").as_integer().unwrap(), 1000);
    assert_eq!(q("1M").as_integer().unwrap(), 1_000_000);
    assert_eq!(approx(&q("500m")), 0.5);
    assert_eq!(approx(&q("100n")), 1e-7);
}

#[test]
fn test_parse_binary_si() {
    assert_eq!(q("1Ki").as_integer().unwrap(), 1024);
    assert_eq!(q("1Mi").as_integer().unwrap(), 1_048_576);
    assert_eq!(q("1Gi").as_integer().unwrap(), 1_073_741_824);
}

#[test]
fn test_parse_binary_si_decimal() {
    assert_eq!(q("1.5Gi").as_integer().unwrap(), 1_610_612_736);
}

#[test]
fn test_parse_decimal_exponent() {
    assert_eq!(q("1e3").as_integer().unwrap(), 1000);
    assert_eq!(q("5e2").as_integer().unwrap(), 500);
}

#[test]
fn test_parse_negative() {
    assert_eq!(q("-1").as_integer().unwrap(), -1);
    assert_eq!(approx(&q("-500m")), -0.5);
}

#[test]
fn test_is_quantity() {
    assert!(is_quantity("1Gi"));
    assert!(!is_quantity("not-a-quantity"));
    assert!(!is_quantity(""));
}

#[test]
fn test_is_integer() {
    assert!(q("1k").is_integer());
    assert!(!q("1.5").is_integer());
    assert!(!q("500m").is_integer());
}

#[test]
fn test_sign() {
    assert_eq!(q("100").sign(), 1);
    assert_eq!(q("-100").sign(), -1);
    assert_eq!(q("0").sign(), 0);
}

#[test]
fn quantity_test_is_greater_than() {
    assert!(q("1Gi").is_greater_than(&q("500Mi")).unwrap());
    assert!(!q("500Mi").is_greater_than(&q("1Gi")).unwrap());
}

#[test]
fn quantity_test_is_less_than() {
    assert!(q("500m").is_less_than(&q("1")).unwrap());
}

#[test]
fn quantity_test_compare_to() {
    assert_eq!(q("1k").compare(&q("1000")).unwrap(), 0);
    assert_eq!(q("1k").compare(&q("2k")).unwrap(), -1);
    assert_eq!(q("2k").compare(&q("1k")).unwrap(), 1);
}

#[test]
fn test_compare_cross_suffix() {
    assert!(q("1Gi").is_greater_than(&q("1G")).unwrap());
}

#[test]
fn test_add_quantities() {
    assert_eq!(q("1Gi").checked_add(&q("512Mi")).unwrap().as_integer().unwrap(), 1_610_612_736);
}

#[test]
fn test_add_int() {
    assert_eq!(q("1k").checked_add(&from_int(500)).unwrap().as_integer().unwrap(), 1500);
}

#[test]
fn test_sub_quantities() {
    assert_eq!(q("1k").checked_sub(&q("200")).unwrap().as_integer().unwrap(), 800);
}

#[test]
fn test_sub_int() {
    assert_eq!(q("1000").checked_sub(&from_int(1)).unwrap().as_integer().unwrap(), 999);
}

#[test]
fn test_add_results_in_zero() {
    assert_eq!(q("1k").checked_sub(&q("1k")).unwrap().sign(), 0);
}

#[test]
fn test_display() {
    let q = parse_quantity("1.5k").unwrap();
    assert_eq!(q.to_string(), "1500");

    let q = parse_quantity("500m").unwrap();
    assert_eq!(q.to_string(), "0.5");

    let q = parse_quantity("0").unwrap();
    assert_eq!(q.to_string(), "0");
}

#[test]
fn test_quantity_invalid_error() {
    assert!(parse_quantity_checked("").is_err());
    assert!(parse_quantity_checked("not-a-quantity").is_err());
}

#[test]
fn test_unknown_suffix() {
    assert!(!is_quantity("5Z"));
    assert!(parse_quantity_checked("5Z").is_err());
}

#[test]
fn test_as_integer_non_integer() {
    assert!(q("1.5").as_integer().is_err());
    assert!(q("500m").as_integer().is_err());
}

#[test]
fn test_sub_negative_result() {
    assert_eq!(q("100").checked_sub(&q("200")).unwrap().sign(), -1);
    assert_eq!(q("100").checked_sub(&q("200")).unwrap().as_integer().unwrap(), -100);
}

#[test]
fn test_parse_remaining_si_suffixes() {
    assert_eq!(approx(&q("1u")), 1e-6);
    assert_eq!(q("1T").as_integer().unwrap(), 1_000_000_000_000);
    assert_eq!(q("1P").as_integer().unwrap(), 1_000_000_000_000_000);
    assert_eq!(q("1E").as_integer().unwrap(), 1_000_000_000_000_000_000);
}

#[test]
fn test_parse_remaining_binary_si() {
    assert_eq!(q("1Ti").as_integer().unwrap(), 1 << 40);
    assert_eq!(q("1Pi").as_integer().unwrap(), 1 << 50);
}

#[test]
fn quantity_test_equal_comparison() {
    assert!(!q("1k").is_greater_than(&q("1000")).unwrap());
    assert!(!q("1k").is_less_than(&q("1000")).unwrap());
}

#[test]
fn test_display_negative() {
    let q = parse_quantity("-500m").unwrap();
    assert_eq!(q.to_string(), "-0.5");

    let q = parse_quantity("-1500").unwrap();
    assert_eq!(q.to_string(), "-1500");
}

#[test]
fn test_as_integer_integer_via_scale() {
    assert_eq!(q("500m").checked_add(&q("500m")).unwrap().as_integer().unwrap(), 1);
}

#[test]
fn test_cross_suffix_equality() {
    assert_eq!(q("200M").compare(&q("0.2G")).unwrap(), 0);
    assert_eq!(q("2000k").compare(&q("2M")).unwrap(), 0);
}

#[test]
fn test_chained_arithmetic() {
    let r = q("50k").checked_add(&from_int(20)).unwrap().checked_sub(&q("100k")).unwrap();
    assert_eq!(r.as_integer().unwrap(), -49980);
}

#[test]
fn test_chained_arithmetic_negative_sub() {
    let r = q("50k")
        .checked_add(&from_int(20))
        .unwrap()
        .checked_sub(&q("100k"))
        .unwrap()
        .checked_sub(&from_int(-50000))
        .unwrap();
    assert_eq!(r.as_integer().unwrap(), 20);
}

#[test]
fn test_millicores_float() {
    assert_eq!(approx(&q("50703m")), 50.703);
}

#[test]
fn test_quantity_zero_equality() {
    assert_eq!(q("0").compare(&q("0M")).unwrap(), 0);
}

// Laws and edge cases of this library.

#[test]
fn compare_is_antisymmetric_on_examples() {
    let pairs = [("1Gi", "1G"), ("500m", "1"), ("-3", "2k"), ("7", "7000m")];
    for (a, b) in pairs {
        assert_eq!(q(a).compare(&q(b)).unwrap(), -q(b).compare(&q(a)).unwrap());
    }
}

#[test]
fn add_is_commutative_on_examples() {
    let a = q("1.5Gi");
    let b = q("250m");
    assert_eq!(a.checked_add(&b).unwrap().to_string(), b.checked_add(&a).unwrap().to_string());
}

#[test]
fn sub_self_is_zero_on_example() {
    let a = q("12.75Mi");
    assert_eq!(a.checked_sub(&a).unwrap().sign(), 0);
}

#[test]
fn normalisation_strips_trailing_zeros() {
    let a = q("1000");
    assert_eq!((a.mantissa(), a.scale()), (1, 3));
    let b = q("1.50");
    assert_eq!((b.mantissa(), b.scale()), (15, -1));
}

#[test]
fn as_integer_too_large_is_an_error() {
    assert!(q("100E").as_integer().is_err());
}

#[test]
fn error_messages_are_distinct() {
    let empty = parse_quantity_checked("").unwrap_err().message();
    let bad = parse_quantity_checked("abc").unwrap_err().message();
    assert!(!empty.is_empty());
    assert_ne!(empty, bad);
}

#[test]
fn sub_undoes_add() {
    for (a, b) in [("1.5k", "250m"), ("1Gi", "512Mi"), ("-3", "7e3"), ("0", "1n")] {
        let back = q(a).checked_add(&q(b)).unwrap().checked_sub(&q(b)).unwrap();
        assert_eq!((back.mantissa(), back.scale()), (q(a).mantissa(), q(a).scale()), "{a} {b}");
    }
}
