use kube_cel::compilation::{compile_rule, compile_schema, compile_schema_validations, CompilationError, CompiledSchema, Rule};
use kube_cel::json::Json;

fn conv(v: serde_json::Value) -> Json {
    match v {
        serde_json::Value::Null => Json::Null,
        serde_json::Value::Bool(b) => Json::Bool(b),
        serde_json::Value::Number(n) => Json::Number(n.to_string()),
        serde_json::Value::String(s) => Json::Str(s),
        serde_json::Value::Array(a) => Json::Array(a.into_iter().map(conv).collect()),
        serde_json::Value::Object(o) => Json::Object(o.into_iter().map(|(k, v)| (k, conv(v))).collect()),
    }
}

fn j(text: &str) -> Json {
    conv(serde_json::from_str(text).unwrap())
}

fn opt_str(j: &Json, key: &str) -> Option<String> {
    match j.get(key) {
        Some(Json::Str(s)) => Some(s.clone()),
        _ => None,
    }
}

/// Reads a rule from its JSON, as the CRD format writes it.
fn decode(raw: &Json) -> Result<Rule, String> {
    let rule = opt_str(raw, "rule").ok_or_else(|| "missing field `rule`".to_string())?;
    Ok(Rule {
        rule,
        message: opt_str(raw, "message"),
        message_expression: opt_str(raw, "messageExpression"),
        reason: opt_str(raw, "reason"),
        field_path: opt_str(raw, "fieldPath"),
        optional_old_self: match raw.get("optionalOldSelf") {
            Some(Json::Bool(b)) => Some(*b),
            _ => None,
        },
    })
}

fn rule(text: &str) -> Rule {
    Rule {
        rule: text.into(),
        message: None,
        message_expression: None,
        reason: None,
        field_path: None,
        optional_old_self: None,
    }
}

fn compile(schema: &str) -> CompiledSchema {
    compile_schema(&j(schema), &decode)
}

fn child<'a>(c: &'a CompiledSchema, key: &str) -> Option<&'a CompiledSchema> {
    c.properties.iter().find(|(k, _)| k == key).map(|(_, v)| v)
}

#[test]
fn compile_simple_rule() {
    let result = compile_rule(&rule("self.replicas >= 0")).unwrap();
    assert!(!result.is_transition_rule);
}

#[test]
fn detect_transition_rule() {
    let result = compile_rule(&rule("self.replicas >= oldSelf.replicas")).unwrap();
    assert!(result.is_transition_rule);
}

#[test]
fn detect_non_transition_rule() {
    let result = compile_rule(&rule("self.replicas > 0")).unwrap();
    assert!(!result.is_transition_rule);
}

#[test]
fn parse_error_on_invalid_cel() {
    let err = compile_rule(&rule("self.replicas >=")).unwrap_err();
    assert!(matches!(err, CompilationError::Parse { .. }));
    let msg = err.message();
    assert!(msg.contains("self.replicas >="));
}

#[test]
fn schema_validations_extracts_and_compiles() {
    let schema = j(r#"{
        "type": "object",
        "x-kubernetes-validations": [
            {"rule": "self.replicas >= 0", "message": "must be non-negative"},
            {"rule": "self.name.size() > 0"}
        ]
    }"#);
    let results = compile_schema_validations(&schema, &decode);
    assert_eq!(results.len(), 2);
    assert!(results[0].is_ok());
    assert!(results[1].is_ok());
}

#[test]
fn schema_validations_no_key() {
    let results = compile_schema_validations(&j(r#"{"type": "object"}"#), &decode);
    assert!(results.is_empty());
}

#[test]
fn schema_validations_empty_array() {
    let results = compile_schema_validations(&j(r#"{"x-kubernetes-validations": []}"#), &decode);
    assert!(results.is_empty());
}

#[test]
fn message_expression_compiled() {
    let mut r = rule("self.x > 0");
    r.message = Some("x must be positive".into());
    r.message_expression = Some("'x is ' + string(self.x)".into());
    let result = compile_rule(&r).unwrap();
    assert!(result.message_program.is_some());
}

#[test]
fn message_expression_invalid_rejected() {
    let mut r = rule("self.x > 0");
    r.message = Some("fallback".into());
    r.message_expression = Some("invalid >=".into());
    assert!(compile_rule(&r).is_err(), "broken messageExpression must surface as a compilation error");
}

#[test]
fn message_expression_none() {
    let result = compile_rule(&rule("self.x > 0")).unwrap();
    assert!(result.message_program.is_none());
}

#[test]
fn compile_schema_tree() {
    let compiled = compile(r#"{
        "type": "object",
        "x-kubernetes-validations": [{"rule": "has(self.spec)"}],
        "properties": {
            "spec": {
                "type": "object",
                "x-kubernetes-validations": [{"rule": "self.replicas >= 0"}],
                "properties": {
                    "replicas": {"type": "integer"}
                }
            }
        }
    }"#);
    assert_eq!(compiled.validations.len(), 1);
    let spec = child(&compiled, "spec").unwrap();
    assert_eq!(spec.validations.len(), 1);
    assert!(child(spec, "replicas").is_some());
}

#[test]
fn compile_schema_with_items() {
    let compiled = compile(r#"{
        "type": "array",
        "items": {
            "type": "object",
            "x-kubernetes-validations": [{"rule": "self.name.size() > 0"}]
        }
    }"#);
    assert!(compiled.items.is_some());
    assert_eq!(compiled.items.as_ref().unwrap().validations.len(), 1);
}

#[test]
fn compile_schema_empty() {
    let compiled = compile(r#"{"type": "object"}"#);
    assert!(compiled.validations.is_empty());
    assert!(compiled.properties.is_empty());
    assert!(compiled.items.is_none());
    assert!(compiled.additional_properties.is_none());
}

#[test]
fn schema_validations_partial_errors() {
    let schema = j(r#"{
        "x-kubernetes-validations": [
            {"rule": "self.x > 0"},
            {"rule": "self.y >="},
            {"rule": "self.z == true"}
        ]
    }"#);
    let results = compile_schema_validations(&schema, &decode);
    assert_eq!(results.len(), 3);
    assert!(results[0].is_ok());
    assert!(results[1].is_err());
    assert!(results[2].is_ok());
}

#[test]
fn compilation_errors_method() {
    let compiled = compile(r#"{
        "x-kubernetes-validations": [
            {"rule": "self.x > 0"},
            {"rule": "self.y >="},
            {"rule": "self.z == true"}
        ]
    }"#);
    let errors = compiled.compilation_errors();
    assert_eq!(errors.len(), 1);
    assert!(matches!(errors[0], CompilationError::Parse { .. }));
    assert!(compiled.has_errors());
}

#[test]
fn compilation_errors_empty_when_all_valid() {
    let compiled = compile(r#"{
        "x-kubernetes-validations": [
            {"rule": "self.x > 0"},
            {"rule": "self.z == true"}
        ]
    }"#);
    assert!(compiled.compilation_errors().is_empty());
    assert!(!compiled.has_errors());
}

// Edge cases of this library.

#[test]
fn too_deep_schema_fails_closed() {
    let mut schema = j(r#"{"type": "object"}"#);
    for _ in 0..70 {
        schema = Json::Object(vec![
            ("type".to_string(), Json::Str("object".into())),
            ("properties".to_string(), Json::Object(vec![("a".to_string(), schema)])),
        ]);
    }
    let compiled = compile_schema(&schema, &decode);
    let mut node = &compiled;
    let mut depth = 0;
    while let Some(c) = child(node, "a") {
        node = c;
        depth += 1;
    }
    assert_eq!(depth, 65);
    assert!(matches!(node.validations[0], Err(CompilationError::SchemaTooDeep { depth: 65 })));
    assert_eq!(
        node.validations[0].as_ref().err().unwrap().message(),
        "schema nesting depth 65 exceeds the maximum of 64"
    );
}

#[test]
fn undecodable_rule_is_an_invalid_rule() {
    let results = compile_schema_validations(&j(r#"{"x-kubernetes-validations": [{"message": "m"}]}"#), &decode);
    match &results[0] {
        Err(e @ CompilationError::InvalidRule(_)) => {
            assert_eq!(e.message(), "invalid rule definition: missing field `rule`");
        }
        other => panic!("unexpected {other:?}"),
    }
}

#[test]
fn schema_keywords_are_read() {
    let compiled = compile(r#"{
        "type": "string", "format": "date-time", "maxLength": 5, "default": "x",
        "x-kubernetes-preserve-unknown-fields": true, "x-kubernetes-embedded-resource": true
    }"#);
    assert_eq!(compiled.format.as_deref(), Some("date-time"));
    assert_eq!(compiled.max_length, Some(5));
    assert!(compiled.preserve_unknown_fields);
    assert!(compiled.embedded_resource);
    assert!(matches!(compiled.default, Some(Json::Str(ref s)) if s == "x"));
}

#[test]
fn programs_keep_the_source_they_were_compiled_from() {
    let mut r = rule("self.x > 0");
    r.message_expression = Some("'x is ' + string(self.x)".into());
    let result = compile_rule(&r).unwrap();
    assert_eq!(result.program.source(), "self.x > 0");
    assert_eq!(result.message_program.as_ref().unwrap().source(), "'x is ' + string(self.x)");
    assert!(!result.is_transition_rule);
    assert!(compile_rule(&rule("self.x > oldSelf.x")).unwrap().is_transition_rule);
}
