use kube_cel::named_format::{
    days_in_month, find_timezone, format_named, format_validate, is_leap_year, validate_byte, validate_date,
    validate_datetime, validate_dns1035_label, validate_dns1035_label_prefix, validate_dns1123_label, validate_dns1123_label_prefix,
    validate_dns1123_subdomain, validate_dns1123_subdomain_prefix, validate_label_value, validate_qualified_name,
    validate_time_str, validate_timezone, validate_uri, validate_uuid, FormatKind,
};

fn assert_valid(kind: FormatKind, s: &str) {
    assert!(format_validate(&kind, s).is_none(), "expected valid for {kind:?} {s:?}");
}

fn assert_invalid(kind: FormatKind, s: &str) {
    assert!(format_validate(&kind, s).is_some(), "expected invalid for {kind:?} {s:?}");
}

#[test]
fn test_dns1123_label_valid() {
    for s in ["my-name", "a", "abc123", "a-b"] {
        assert_valid(FormatKind::Dns1123Label, s);
    }
}

#[test]
fn test_dns1123_label_invalid() {
    for s in ["", "-start", "end-", "UPPER", "has.dot"] {
        assert_invalid(FormatKind::Dns1123Label, s);
    }
    assert_invalid(FormatKind::Dns1123Label, &"a".repeat(64));
}

#[test]
fn test_dns1123_label_max_length() {
    assert_valid(FormatKind::Dns1123Label, &"a".repeat(63));
}

#[test]
fn test_dns1035_label_valid() {
    for s in ["my-name", "a", "abc"] {
        assert_valid(FormatKind::Dns1035Label, s);
    }
}

#[test]
fn test_dns1035_label_invalid() {
    for s in ["", "1start", "end-", "UPPER"] {
        assert_invalid(FormatKind::Dns1035Label, s);
    }
}

#[test]
fn test_dns1123_subdomain_valid() {
    for s in ["example.com", "my-app.example.com", "a"] {
        assert_valid(FormatKind::Dns1123Subdomain, s);
    }
}

#[test]
fn test_dns1123_subdomain_invalid() {
    for s in ["", ".leading.dot", "trailing.dot."] {
        assert_invalid(FormatKind::Dns1123Subdomain, s);
    }
    let long = format!("{}.{}", "a".repeat(63), "b".repeat(63 * 3));
    if long.len() > 253 {
        assert_invalid(FormatKind::Dns1123Subdomain, &long);
    }
}

#[test]
fn test_dns1123_label_prefix_valid() {
    for s in ["my-name", "my-name-", "a"] {
        assert_valid(FormatKind::Dns1123LabelPrefix, s);
    }
}

#[test]
fn test_dns1123_label_prefix_invalid() {
    for s in ["", "-start", "UPPER"] {
        assert_invalid(FormatKind::Dns1123LabelPrefix, s);
    }
}

#[test]
fn test_dns1123_subdomain_prefix_valid() {
    for s in ["example.com", "my-app.example-", "a"] {
        assert_valid(FormatKind::Dns1123SubdomainPrefix, s);
    }
}

#[test]
fn test_dns1123_subdomain_prefix_invalid() {
    for s in ["", "bad-.example"] {
        assert_invalid(FormatKind::Dns1123SubdomainPrefix, s);
    }
}

#[test]
fn test_qualified_name_valid() {
    for s in ["my-name", "example.com/my-name", "my.name", "my_name", "A-Za-z0"] {
        assert_valid(FormatKind::QualifiedName, s);
    }
}

#[test]
fn test_qualified_name_invalid() {
    for s in ["", "/name", "prefix/", ".bad/name", "prefix/.bad"] {
        assert_invalid(FormatKind::QualifiedName, s);
    }
}

#[test]
fn test_label_value_valid() {
    for s in ["", "a", "my-value", "my.value", "my_value", "MyValue"] {
        assert_valid(FormatKind::LabelValue, s);
    }
}

#[test]
fn test_label_value_invalid() {
    for s in ["-start", "end-", "has space"] {
        assert_invalid(FormatKind::LabelValue, s);
    }
    assert_invalid(FormatKind::LabelValue, &"a".repeat(64));
}

#[test]
fn test_uri_valid() {
    for s in [
        "https://example.com",
        "http://example.com/path",
        "ftp://files.example.com",
        "urn:isbn:0451450523",
        "mailto:user@example.com",
    ] {
        assert_valid(FormatKind::Uri, s);
    }
}

#[test]
fn test_uri_invalid() {
    for s in ["", "no-scheme", "://missing-scheme"] {
        assert_invalid(FormatKind::Uri, s);
    }
}

#[test]
fn test_uuid_valid() {
    assert_valid(FormatKind::Uuid, "550e8400-e29b-41d4-a716-446655440000");
    assert_valid(FormatKind::Uuid, "550E8400-E29B-41D4-A716-446655440000");
}

#[test]
fn test_uuid_invalid() {
    for s in [
        "",
        "not-a-uuid",
        "550e8400-e29b-41d4-a716",
        "550e8400-e29b-41d4-a716-44665544000g",
    ] {
        assert_invalid(FormatKind::Uuid, s);
    }
}

#[test]
fn test_byte_valid() {
    for s in ["", "aGVsbG8=", "aGVsbG8", "YQ==", "YWI=", "aGVsbG8-", "aGVsbG8_"] {
        assert_valid(FormatKind::Byte, s);
    }
}

#[test]
fn test_byte_invalid() {
    for s in ["not valid!", "abc==="] {
        assert_invalid(FormatKind::Byte, s);
    }
}

#[test]
fn test_date_valid() {
    for s in ["2024-01-15", "2024-02-29", "2024-12-31"] {
        assert_valid(FormatKind::Date, s);
    }
}

#[test]
fn test_date_invalid() {
    for s in ["", "2024-13-01", "2023-02-29", "2024-1-1", "not-a-date"] {
        assert_invalid(FormatKind::Date, s);
    }
}

#[test]
fn test_datetime_valid() {
    for s in [
        "2024-01-15T10:30:00Z",
        "2024-01-15T10:30:00+09:00",
        "2024-01-15T10:30:00-05:00",
        "2024-01-15T10:30:00.123Z",
        "2024-01-15t10:30:00z",
    ] {
        assert_valid(FormatKind::DateTime, s);
    }
}

#[test]
fn test_datetime_invalid() {
    for s in [
        "",
        "2024-01-15",
        "2024-01-15T10:30:00",
        "not-a-datetime",
        "2024-01-15T25:00:00Z",
    ] {
        assert_invalid(FormatKind::DateTime, s);
    }
}

#[test]
fn test_format_named_known() {
    let k = format_named("dns1123Label").unwrap();
    assert_valid(k, "my-name");
    let k = format_named("uuid").unwrap();
    assert_valid(k, "550e8400-e29b-41d4-a716-446655440000");
}

#[test]
fn test_format_named_unknown() {
    assert!(format_named("unknown").is_none());
}

#[test]
fn test_validate_returns_optional() {
    assert!(format_validate(&FormatKind::Dns1123Label, "valid-name").is_none());
    assert!(format_validate(&FormatKind::Dns1123Label, "").is_some());
}

#[test]
fn test_validate_has_value_pattern() {
    assert!(!format_validate(&FormatKind::Dns1123Label, "valid").is_some());
    assert!(!format_validate(&FormatKind::Dns1123Label, "").is_none());
}

#[test]
fn test_validate_error_list_accessible() {
    assert!(format_validate(&FormatKind::Dns1123Label, "").unwrap().len() > 0);
}

// Edge cases of this library.

#[test]
fn every_kind_round_trips_through_its_name() {
    let kinds = [
        FormatKind::Dns1123Label,
        FormatKind::Dns1123Subdomain,
        FormatKind::Dns1035Label,
        FormatKind::Dns1123LabelPrefix,
        FormatKind::Dns1123SubdomainPrefix,
        FormatKind::QualifiedName,
        FormatKind::LabelValue,
        FormatKind::Uri,
        FormatKind::Uuid,
        FormatKind::Byte,
        FormatKind::Date,
        FormatKind::DateTime,
    ];
    for k in kinds {
        assert_eq!(format_named(k.name()), Some(k));
    }
}

#[test]
fn calendar_helpers() {
    assert!(is_leap_year(2024));
    assert!(!is_leap_year(1900));
    assert!(is_leap_year(2000));
    assert_eq!(days_in_month(2023, 2), 28);
    assert_eq!(days_in_month(2024, 2), 29);
    assert_eq!(days_in_month(2024, 4), 30);
    assert_eq!(days_in_month(2024, 12), 31);
}

#[test]
fn time_and_zone_parts() {
    assert_eq!(find_timezone("10:30:00+09:00"), ("10:30:00", "+09:00"));
    assert_eq!(find_timezone("10:30:00Z"), ("10:30:00", "Z"));
    assert!(validate_time_str("23:59:60"));
    assert!(!validate_time_str("24:00:00"));
    assert!(validate_timezone("-05:00"));
    assert!(!validate_timezone("+24:00"));
}

#[test]
fn label_error_messages_are_reported() {
    let errs = validate_dns1123_label("UPPER");
    assert!(!errs.is_empty());
}

#[test]
fn each_validator_agrees_with_its_format() {
    let cases: Vec<(FormatKind, fn(&str) -> Vec<String>, &str, &str)> = vec![
        (FormatKind::Dns1035Label, validate_dns1035_label, "abc-1", "1abc"),
        (FormatKind::Dns1123Subdomain, validate_dns1123_subdomain, "a.b-c", "A.b"),
        (FormatKind::Dns1123LabelPrefix, validate_dns1123_label_prefix, "abc-", "-abc"),
        (FormatKind::Dns1123SubdomainPrefix, validate_dns1123_subdomain_prefix, "a.b-", ".a"),
        (FormatKind::QualifiedName, validate_qualified_name, "example.com/name", "/name"),
        (FormatKind::LabelValue, validate_label_value, "v1.0", "-v"),
        (FormatKind::Uri, validate_uri, "https://example.com", "not a uri"),
        (FormatKind::Uuid, validate_uuid, "550e8400-e29b-41d4-a716-446655440000", "550e8400"),
        (FormatKind::Byte, validate_byte, "aGVsbG8=", "!!!"),
        (FormatKind::Date, validate_date, "2024-02-29", "2023-02-29"),
        (FormatKind::DateTime, validate_datetime, "2024-01-01T00:00:00Z", "2024-01-01"),
    ];
    for (kind, f, good, bad) in cases {
        assert!(f(good).is_empty(), "{good}");
        assert!(!f(bad).is_empty(), "{bad}");
        assert_eq!(Some(f(bad)), format_validate(&kind, bad), "{bad}");
        assert_eq!(None, format_validate(&kind, good), "{good}");
    }
}

#[test]
fn datetime_with_wide_char_in_time_is_invalid() {
    assert_eq!(validate_datetime("2024-01-15T10:30:0éZ"), vec!["must be a valid RFC 3339 date-time".to_string()]);
}

#[test]
fn plus_signs_are_not_digits() {
    assert!(!validate_date("2024-+1-+5").is_empty());
    assert!(!validate_time_str("+1:00:00"));
    assert!(!validate_timezone("++1:00"));
    assert!(validate_timezone("+09:00"));
}

#[test]
fn dns1035_label_prefix_format() {
    assert_eq!(format_named("dns1035LabelPrefix"), Some(FormatKind::Dns1035LabelPrefix));
    assert!(validate_dns1035_label_prefix("abc-").is_empty());
    assert!(validate_dns1035_label_prefix("a").is_empty());
    assert!(!validate_dns1035_label_prefix("1abc").is_empty());
    assert!(!validate_dns1035_label_prefix("").is_empty());
    assert_eq!(format_validate(&FormatKind::Dns1035LabelPrefix, "x-"), None);
}
