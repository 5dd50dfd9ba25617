//! Rules compiled from schema nodes and run with `cel` on JSON values.
use std::collections::HashMap;
use std::sync::Arc;

use cel::extractors::This;
use cel::objects::{Key, Value};
use cel::Context;
use kube_cel::compilation::{compile_schema, CompilationError, CompilationResult, Rule};
use kube_cel::escaping::escape_field_name;
use kube_cel::json::Json;

fn conv(v: serde_json::Value) -> Json {
    match v {
        serde_json::Value::Null => Json::Null,
        serde_json::Value::Bool(b) => Json::Bool(b),
        serde_json::Value::Number(n) => Json::Number(n.to_string()),
        serde_json::Value::String(s) => Json::Str(s),
        serde_json::Value::Array(a) => Json::Array(a.into_iter().map(conv).collect()),
        serde_json::Value::Object(o) => Json::Object(o.into_iter().map(|(k, v)| (k, conv(v))).collect()),
    }
}

fn j(text: &str) -> Json {
    conv(serde_json::from_str(text).unwrap())
}

fn opt_str(j: &Json, key: &str) -> Option<String> {
    match j.get(key) {
        Some(Json::Str(s)) => Some(s.clone()),
        _ => None,
    }
}

fn decode(raw: &Json) -> Result<Rule, String> {
    let rule = opt_str(raw, "rule").ok_or_else(|| "missing field `rule`".to_string())?;
    Ok(Rule {
        rule,
        message: opt_str(raw, "message"),
        message_expression: opt_str(raw, "messageExpression"),
        reason: opt_str(raw, "reason"),
        field_path: opt_str(raw, "fieldPath"),
        optional_old_self: match raw.get("optionalOldSelf") {
            Some(Json::Bool(b)) => Some(*b),
            _ => None,
        },
    })
}

fn cel_value(j: &Json) -> Value {
    match j {
        Json::Null => Value::Null,
        Json::Bool(b) => Value::Bool(*b),
        Json::Number(n) => match n.parse::<i64>() {
            Ok(i) => Value::Int(i),
            Err(_) => Value::Float(n.parse().unwrap()),
        },
        Json::Str(s) => Value::String(Arc::new(s.clone())),
        Json::Array(a) => Value::List(Arc::new(a.iter().map(cel_value).collect())),
        Json::Object(o) => {
            let map: HashMap<Key, Value> = o.iter().map(|(k, v)| (Key::String(Arc::new(escape_field_name(k))), cel_value(v))).collect();
            Value::Map(cel::objects::Map { map: Arc::new(map) })
        }
    }
}

fn context() -> Context<'static> {
    let mut ctx = Context::default();
    ctx.add_function("trim", |This(s): This<Arc<String>>| -> String { kube_cel::strings::trim(&s) });
    ctx.add_function("lowerAscii", |This(s): This<Arc<String>>| -> String { kube_cel::strings::lower_ascii(&s) });
    ctx
}

fn first_rule(schema: &str) -> CompilationResult {
    compile_schema(&j(schema), &decode).validations.into_iter().next().unwrap().unwrap()
}

fn run(cr: &CompilationResult, self_val: &str, old: Option<&str>) -> Value {
    let mut ctx = context();
    ctx.add_variable_from_value("self", cel_value(&j(self_val)));
    if let Some(o) = old {
        ctx.add_variable_from_value("oldSelf", cel_value(&j(o)));
    }
    cr.program.program().execute(&ctx).unwrap()
}

const CRD_SPEC: &str = r#"{"type": "object",
    "properties": {"replicas": {"type": "integer"}, "minReplicas": {"type": "integer"}},
    "x-kubernetes-validations": [{"rule": "self.replicas >= self.minReplicas", "message": "replicas must be >= minReplicas"}]}"#;

const TRANSITION: &str = r#"{"x-kubernetes-validations": [
    {"rule": "self.replicas >= oldSelf.replicas", "message": "cannot scale down", "reason": "FieldValueForbidden"}]}"#;

const WITH_MESSAGES: &str = r#"{"x-kubernetes-validations": [{"rule": "self.x > 0", "message": "x must be positive",
    "messageExpression": "\"x is \" + string(self.x)", "reason": "FieldValueInvalid", "fieldPath": ".spec.x"}]}"#;

const MIXED: &str = r#"{"x-kubernetes-validations": [{"rule": "self.a > 0"}, {"rule": "invalid >="}, {"rule": "self.b == true"}]}"#;

const SPEC_LEVEL: &str = r#"{"type": "object", "properties": {"replicas": {"type": "integer"},
    "template": {"type": "object", "properties": {"name": {"type": "string"}},
        "x-kubernetes-validations": [{"rule": "self.name.size() > 0", "message": "template name required"}]}},
    "x-kubernetes-validations": [{"rule": "self.replicas >= 1", "message": "at least one replica"}]}"#;

const TEMPLATE_LEVEL: &str = r#"{"type": "object", "properties": {"name": {"type": "string"}},
    "x-kubernetes-validations": [{"rule": "self.name.size() > 0", "message": "template name required"}]}"#;

fn check_crd_schema_end_to_end() {
    let c = compile_schema(&j(CRD_SPEC), &decode);
    assert_eq!(c.validations.len(), 1);
    let compiled = c.validations.into_iter().next().unwrap().unwrap();
    assert!(!compiled.is_transition_rule);
    assert_eq!(compiled.rule.message.as_deref(), Some("replicas must be >= minReplicas"));
    assert_eq!(run(&compiled, r#"{"replicas": 5, "minReplicas": 2}"#, None), Value::Bool(true));
}

fn check_compile_and_eval() {
    let cr = first_rule(r#"{"x-kubernetes-validations": [{"rule": "self.name.size() > 0", "message": "name required"}]}"#);
    assert_eq!(run(&cr, r#"{"name": "my-app"}"#, None), Value::Bool(true));
}

fn check_transition_rule() {
    let compiled = first_rule(TRANSITION);
    assert!(compiled.is_transition_rule);
    assert_eq!(compiled.rule.message.as_deref(), Some("cannot scale down"));
    assert_eq!(compiled.rule.reason.as_deref(), Some("FieldValueForbidden"));
    assert_eq!(run(&compiled, r#"{"replicas": 5}"#, Some(r#"{"replicas": 3}"#)), Value::Bool(true));
    assert_eq!(run(&compiled, r#"{"replicas": 1}"#, Some(r#"{"replicas": 3}"#)), Value::Bool(false));
}

fn check_message_and_reason() {
    let compiled = first_rule(WITH_MESSAGES);
    assert_eq!(compiled.rule.message.as_deref(), Some("x must be positive"));
    assert_eq!(compiled.rule.message_expression.as_deref(), Some("\"x is \" + string(self.x)"));
    assert_eq!(compiled.rule.reason.as_deref(), Some("FieldValueInvalid"));
    assert_eq!(compiled.rule.field_path.as_deref(), Some(".spec.x"));
}

fn check_mixed_results() {
    let c = compile_schema(&j(MIXED), &decode);
    assert_eq!(c.validations.len(), 3);
    let cr = c.validations[0].as_ref().unwrap();
    assert_eq!(run(cr, r#"{"a": 5}"#, None), Value::Bool(true));
    assert!(matches!(c.validations[1].as_ref().unwrap_err(), CompilationError::Parse { .. }));
    assert!(c.validations[2].is_ok());
}

fn check_multiple_levels() {
    let spec = compile_schema(&j(SPEC_LEVEL), &decode);
    assert_eq!(spec.validations.len(), 1);
    let spec_cr = spec.validations.into_iter().next().unwrap().unwrap();
    assert_eq!(run(&spec_cr, r#"{"replicas": 3, "template": {"name": "web"}}"#, None), Value::Bool(true));
    let tmpl = compile_schema(&j(TEMPLATE_LEVEL), &decode);
    assert_eq!(tmpl.validations.len(), 1);
    let tmpl_cr = tmpl.validations.into_iter().next().unwrap().unwrap();
    assert_eq!(run(&tmpl_cr, r#"{"name": "web"}"#, None), Value::Bool(true));
    assert_eq!(run(&tmpl_cr, r#"{"name": ""}"#, None), Value::Bool(false));
}

fn check_extension_functions() {
    let cr = first_rule(r#"{"x-kubernetes-validations": [{"rule": "self.name.trim().lowerAscii().size() > 0"}]}"#);
    assert_eq!(run(&cr, r#"{"name": "  Hello  "}"#, None), Value::Bool(true));
}

#[test]
fn compilation_crd_schema_end_to_end() {
    check_crd_schema_end_to_end();
}

#[test]
fn compilation_compile_and_eval_with_json_to_cel() {
    check_compile_and_eval();
}

#[test]
fn compilation_transition_rule_compile_and_eval() {
    check_transition_rule();
}

#[test]
fn compilation_message_and_reason_preserved() {
    check_message_and_reason();
}

#[test]
fn compilation_multiple_rules_mixed_results() {
    check_mixed_results();
}

#[test]
fn compilation_realistic_crd_with_multiple_validation_levels() {
    check_multiple_levels();
}

#[test]
fn compilation_compiled_rule_with_extension_functions() {
    check_extension_functions();
}

#[test]
fn compilation_integration_crd_schema_end_to_end() {
    check_crd_schema_end_to_end();
}

#[test]
fn compilation_integration_compile_and_eval_with_json_to_cel() {
    check_compile_and_eval();
}

#[test]
fn compilation_integration_transition_rule_compile_and_eval() {
    check_transition_rule();
}

#[test]
fn compilation_integration_message_and_reason_preserved() {
    check_message_and_reason();
}

#[test]
fn compilation_integration_multiple_rules_mixed_results() {
    check_mixed_results();
}

#[test]
fn compilation_integration_realistic_crd_with_multiple_validation_levels() {
    check_multiple_levels();
}

#[test]
fn compilation_integration_compiled_rule_with_extension_functions() {
    check_extension_functions();
}
