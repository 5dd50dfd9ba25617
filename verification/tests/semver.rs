use kube_cel::semver_funcs::{
    is_semver, normalize, parse_semver, semver_compare_to, semver_is_greater_than, semver_is_less_than, KubeSemver,
};

fn v(s: &str) -> KubeSemver {
    parse_semver(s, false).unwrap()
}

fn lenient(s: &str) -> KubeSemver {
    parse_semver(s, true).unwrap()
}

#[test]
fn test_is_semver() {
    assert!(is_semver("1.2.3", false));
    assert!(is_semver("1.2.3-beta.1+build.1", false));
    assert!(!is_semver("not-a-version", false));
}

#[test]
fn test_is_semver_strict_rejects() {
    for s in ["v1.0.0", "1", "1.1", "01.01.01", " 1.0.0", "1.0.0 "] {
        assert!(!is_semver(s, false), "{s}");
    }
}

#[test]
fn test_major_minor_patch() {
    assert_eq!(v("1.2.3").major(), 1);
    assert_eq!(v("1.2.3").minor(), 2);
    assert_eq!(v("1.2.3").patch(), 3);
}

#[test]
fn test_semver_strict_rejects_v_prefix() {
    assert!(parse_semver("v1.2.3", false).is_err());
}

#[test]
fn test_semver_strict_rejects_partial() {
    assert!(parse_semver("1", false).is_err());
    assert!(parse_semver("1.2", false).is_err());
}

#[test]
fn semver_funcs_test_is_greater_than() {
    assert!(semver_is_greater_than(&v("2.0.0"), &v("1.0.0")));
    assert!(!semver_is_greater_than(&v("1.0.0"), &v("2.0.0")));
}

#[test]
fn semver_funcs_test_is_less_than() {
    assert!(semver_is_less_than(&v("1.0.0"), &v("2.0.0")));
}

#[test]
fn semver_funcs_test_compare_to() {
    assert_eq!(semver_compare_to(&v("1.0.0"), &v("1.0.0")), 0);
    assert_eq!(semver_compare_to(&v("1.0.0"), &v("2.0.0")), -1);
    assert_eq!(semver_compare_to(&v("2.0.0"), &v("1.0.0")), 1);
}

#[test]
fn test_prerelease_ordering() {
    assert!(semver_is_less_than(&v("1.0.0-alpha"), &v("1.0.0")));
    assert!(semver_is_less_than(&v("1.0.0-alpha"), &v("1.0.0-beta")));
}

#[test]
fn test_prerelease_numeric_ordering() {
    assert!(semver_is_less_than(&v("1.0.0-beta.2"), &v("1.0.0-beta.11")));
}

#[test]
fn test_semver_invalid_error() {
    assert!(parse_semver("not-a-version", false).is_err());
}

#[test]
fn test_semver_strict_rejects_capital_v() {
    assert!(parse_semver("V1.2.3", false).is_err());
}

#[test]
fn semver_funcs_test_equal_comparison() {
    assert!(!semver_is_greater_than(&v("1.0.0"), &v("1.0.0")));
    assert!(!semver_is_less_than(&v("1.0.0"), &v("1.0.0")));
}

#[test]
fn test_semver_strict_rejects_partial_with_pre_release() {
    assert!(parse_semver("1.2-alpha", false).is_err());
}

#[test]
fn test_is_semver_empty() {
    assert!(!is_semver("", false));
}

#[test]
fn test_semver_equal_self() {
    assert_eq!(semver_compare_to(&v("1.0.0"), &v("1.0.0")), 0);
}

#[test]
fn test_semver_minor_comparison() {
    assert!(semver_is_greater_than(&v("1.1.0"), &v("1.0.0")));
    assert!(semver_is_less_than(&v("1.0.0"), &v("1.1.0")));
}

#[test]
fn test_semver_patch_comparison() {
    assert!(semver_is_greater_than(&v("1.0.1"), &v("1.0.0")));
}

#[test]
fn test_is_semver_lenient_v_prefix() {
    assert!(is_semver("v1.0.0", true));
}

#[test]
fn test_is_semver_lenient_partial() {
    assert!(is_semver("1", true));
    assert!(is_semver("1.1", true));
}

#[test]
fn test_is_semver_lenient_still_rejects_invalid() {
    assert!(!is_semver("", true));
    assert!(!is_semver("not-a-version", true));
}

#[test]
fn test_is_semver_lenient_spaces_rejected() {
    assert!(!is_semver(" 1.0.0", true));
    assert!(!is_semver("1.0.0 ", true));
}

#[test]
fn test_semver_lenient_v_prefix() {
    assert_eq!(lenient("v1.2.3").major(), 1);
}

#[test]
fn test_semver_lenient_partial() {
    assert_eq!(lenient("1").major(), 1);
    assert_eq!(lenient("1").minor(), 0);
    assert_eq!(lenient("1.2").patch(), 0);
}

#[test]
fn test_semver_lenient_equality() {
    assert!(lenient("v01.01").same_as(&v("1.1.0")));
}

#[test]
fn test_semver_lenient_false_is_strict() {
    assert!(!is_semver("v1.0.0", false));
    assert!(!is_semver("1", false));
}

// Normalisation, and laws on concrete values.

#[test]
fn normalize_pads_strips_and_keeps_prerelease() {
    assert_eq!(normalize("v1"), "1.0.0");
    assert_eq!(normalize("V01.02"), "1.2.0");
    assert_eq!(normalize("1.2-rc.1"), "1.2.0-rc.1");
    assert_eq!(normalize("00.0.000"), "0.0.0");
    assert_eq!(normalize("1.2.3.4"), "1.2.3");
}

#[test]
fn normalize_leaves_non_numeric_versions_alone() {
    assert_eq!(normalize("vx.1"), "x.1");
    assert_eq!(normalize(""), "");
    assert_eq!(normalize("1..2"), "1..2");
}

#[test]
fn semver_compare_is_antisymmetric_on_examples() {
    let pairs = [("1.0.0", "2.0.0"), ("1.0.0-alpha", "1.0.0"), ("1.0.0-beta.2", "1.0.0-beta.11")];
    for (a, b) in pairs {
        assert_eq!(semver_compare_to(&v(a), &v(b)), -semver_compare_to(&v(b), &v(a)));
    }
}

#[test]
fn invalid_semver_error_names_the_input() {
    let e = parse_semver("nope", false).unwrap_err();
    assert!(e.starts_with("invalid semver 'nope': "));
}

#[test]
fn test_integration_semver() {
    assert!(is_semver("1.2.3", false));
    assert_eq!(v("1.2.3").major(), 1);
    assert!(semver_is_greater_than(&v("2.0.0"), &v("1.0.0")));
}
