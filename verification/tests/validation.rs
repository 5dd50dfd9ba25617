use kube_cel::validation::{effective_path, join_path, join_path_index, ErrorKind, ValidationError};

#[test]
fn display_with_field_path() {
    let err = ValidationError {
        rule: "self >= 0".into(),
        message: "must be non-negative".into(),
        field_path: "spec.replicas".into(),
        reason: None,
        kind: ErrorKind::ValidationFailure,
    };
    assert_eq!(err.to_string(), "spec.replicas: must be non-negative");
}

#[test]
fn display_without_field_path() {
    let err = ValidationError {
        rule: "self >= 0".into(),
        message: "must be non-negative".into(),
        field_path: String::new(),
        reason: None,
        kind: ErrorKind::ValidationFailure,
    };
    assert_eq!(err.to_string(), "must be non-negative");
}

#[test]
fn paths_join_with_dots_and_indices() {
    assert_eq!(join_path("", "spec"), "spec");
    assert_eq!(join_path("spec", "replicas"), "spec.replicas");
    assert_eq!(join_path_index("spec.items", 3), "spec.items[3]");
    assert_eq!(join_path_index("", 0), "[0]");
}

#[test]
fn rule_field_path_extends_the_node_path() {
    assert_eq!(effective_path("spec", Some(".replicas")), "spec.replicas");
    assert_eq!(effective_path("spec", Some("replicas")), "spec.replicas");
    assert_eq!(effective_path("", Some("replicas")), "replicas");
    assert_eq!(effective_path("spec", None), "spec");
}
