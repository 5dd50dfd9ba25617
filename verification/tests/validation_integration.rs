//! Whole CRD schemas validated end to end: the library walks the schema and
//! judges each rule's outcome; the rules are run here with `cel`, with field
//! names escaped as the library spells them.
use std::collections::HashMap;
use std::sync::Arc;

use cel::extractors::This;
use cel::objects::{Key, Value};
use kube_cel::compilation::{compile_schema, node_validations, CompilationError, CompilationResult, CompiledSchema, Rule};
use kube_cel::escaping::escape_field_name;
use kube_cel::json::Json;
use kube_cel::validation::{
    binds_null_old_self, binds_root, evaluate_compiled_results, runs, with_embedded_fields, ErrorKind, RootContext,
    RuleOutcome, ValidationError,
};
use kube_cel::walk::{walk_compiled, walk_schema};

fn conv(v: serde_json::Value) -> Json {
    match v {
        serde_json::Value::Null => Json::Null,
        serde_json::Value::Bool(b) => Json::Bool(b),
        serde_json::Value::Number(n) => Json::Number(n.to_string()),
        serde_json::Value::String(s) => Json::Str(s),
        serde_json::Value::Array(a) => Json::Array(a.into_iter().map(conv).collect()),
        serde_json::Value::Object(o) => Json::Object(o.into_iter().map(|(k, v)| (k, conv(v))).collect()),
    }
}

fn j(text: &str) -> Json {
    conv(serde_json::from_str(text).unwrap())
}

fn opt_str(j: &Json, key: &str) -> Option<String> {
    match j.get(key) {
        Some(Json::Str(s)) => Some(s.clone()),
        _ => None,
    }
}

fn decode(raw: &Json) -> Result<Rule, String> {
    let rule = opt_str(raw, "rule").ok_or_else(|| "missing field `rule`".to_string())?;
    Ok(Rule {
        rule,
        message: opt_str(raw, "message"),
        message_expression: opt_str(raw, "messageExpression"),
        reason: opt_str(raw, "reason"),
        field_path: opt_str(raw, "fieldPath"),
        optional_old_self: match raw.get("optionalOldSelf") {
            Some(Json::Bool(b)) => Some(*b),
            _ => None,
        },
    })
}

fn cel_value(j: &Json) -> Value {
    match j {
        Json::Null => Value::Null,
        Json::Bool(b) => Value::Bool(*b),
        Json::Number(n) => match n.parse::<i64>() {
            Ok(i) => Value::Int(i),
            Err(_) => Value::Float(n.parse().unwrap()),
        },
        Json::Str(s) => Value::String(Arc::new(s.clone())),
        Json::Array(a) => Value::List(Arc::new(a.iter().map(cel_value).collect())),
        Json::Object(o) => {
            let map: HashMap<Key, Value> = o.iter().map(|(k, v)| (Key::String(Arc::new(escape_field_name(k))), cel_value(v))).collect();
            Value::Map(cel::objects::Map { map: Arc::new(map) })
        }
    }
}

fn node_value(v: &Json, embedded: bool) -> Value {
    if embedded {
        cel_value(&with_embedded_fields(v))
    } else {
        cel_value(v)
    }
}

fn run_rule(cr: &CompilationResult, node_ctx: &cel::Context<'_>, has_old: bool) -> RuleOutcome {
    let mut null_scope = node_ctx.new_inner_scope();
    let ctx: &cel::Context<'_> = if binds_null_old_self(cr, has_old) {
        null_scope.add_variable_from_value("oldSelf", Value::Null);
        &null_scope
    } else {
        node_ctx
    };
    match cr.program.program().execute(ctx) {
        Ok(Value::Bool(true)) => RuleOutcome::Passed,
        Ok(Value::Bool(false)) => RuleOutcome::Failed(cr.message_program.as_ref().and_then(|p| match p.program().execute(ctx) {
            Ok(Value::String(s)) => Some((*s).clone()),
            _ => None,
        })),
        Ok(_) => RuleOutcome::NotBool,
        Err(e @ cel::ExecutionError::UndeclaredReference(_)) => RuleOutcome::Unsupported(e.to_string()),
        Err(e) => RuleOutcome::Error(e.to_string()),
    }
}

#[allow(clippy::too_many_arguments)]
fn evaluate_node(
    results: &Vec<Result<CompilationResult, CompilationError>>,
    embedded: bool,
    value: &Json,
    old: Option<&Json>,
    path: &str,
    root: bool,
    root_ctx: Option<&RootContext>,
    errors: &mut Vec<ValidationError>,
) {
    let mut base = cel::Context::default();
    base.add_function("trim", |This(s): This<Arc<String>>| -> String { kube_cel::strings::trim(&s) });
    base.add_function("lowerAscii", |This(s): This<Arc<String>>| -> String { kube_cel::strings::lower_ascii(&s) });
    let mut ctx = base.new_inner_scope();
    ctx.add_variable_from_value("self", node_value(value, embedded));
    if let Some(o) = old {
        ctx.add_variable_from_value("oldSelf", node_value(o, embedded));
    }
    if binds_root(path, root) {
        if let Some(rc) = root_ctx {
            ctx.add_variable_from_value("apiVersion", Value::String(Arc::new(rc.api_version.clone())));
            ctx.add_variable_from_value("apiGroup", Value::String(Arc::new(rc.api_group.clone())));
            ctx.add_variable_from_value("kind", Value::String(Arc::new(rc.kind.clone())));
        }
    }
    let has_old = old.is_some();
    let outcomes: Vec<Option<RuleOutcome>> = results
        .iter()
        .map(|r| match r {
            Ok(cr) if runs(cr, has_old) => Some(run_rule(cr, &ctx, has_old)),
            _ => None,
        })
        .collect();
    errors.extend(evaluate_compiled_results(results, has_old, path, &outcomes));
}

fn validate_ctx(schema: &str, obj: &str, old: Option<&str>, root_ctx: Option<&RootContext>) -> Vec<ValidationError> {
    let old = old.map(j);
    validate_values(&j(schema), &j(obj), old.as_ref(), root_ctx)
}

fn validate_values(schema: &Json, obj: &Json, old: Option<&Json>, root_ctx: Option<&RootContext>) -> Vec<ValidationError> {
    let mut visits = Vec::new();
    walk_schema(schema, obj, old, "", true, &mut visits);
    let mut errors = Vec::new();
    for v in &visits {
        let results = node_validations(v.node, v.depth, &decode);
        let embedded = v.node.get("x-kubernetes-embedded-resource").map(|x| x.is_true()).unwrap_or(false);
        evaluate_node(&results, embedded, v.value, v.old, &v.path, v.root, root_ctx, &mut errors);
    }
    errors
}

fn validate(schema: &str, obj: &str, old: Option<&str>) -> Vec<ValidationError> {
    validate_ctx(schema, obj, old, None)
}

fn compiled(schema: &str) -> CompiledSchema {
    compile_schema(&j(schema), &decode)
}

fn validate_compiled_old(c: &CompiledSchema, obj: &str, old: Option<&str>) -> Vec<ValidationError> {
    let old = old.map(j);
    validate_compiled_values(c, &j(obj), old.as_ref())
}

fn validate_compiled_values(c: &CompiledSchema, obj: &Json, old: Option<&Json>) -> Vec<ValidationError> {
    let mut visits = Vec::new();
    walk_compiled(c, obj, old, "", true, &mut visits);
    let mut errors = Vec::new();
    for v in &visits {
        evaluate_node(&v.node.validations, v.node.embedded_resource, v.value, v.old, &v.path, v.root, None, &mut errors);
    }
    errors
}

fn validate_compiled(c: &CompiledSchema, obj: &str) -> Vec<ValidationError> {
    validate_compiled_old(c, obj, None)
}

#[test]
fn plan_usage_example() {
    let schema = r#"{"type": "object", "properties": {"spec": {"type": "object",
        "properties": {
            "replicas": {"type": "integer", "x-kubernetes-validations": [{"rule": "self >= 0", "message": "replicas must be non-negative"}]},
            "minReplicas": {"type": "integer"}},
        "x-kubernetes-validations": [{"rule": "self.minReplicas <= self.replicas"}]}}}"#;
    let errors = validate(schema, r#"{"spec": {"replicas": -1, "minReplicas": 0}}"#, None);
    assert_eq!(errors.len(), 2);
    let spec_err = errors.iter().find(|e| e.field_path == "spec").unwrap();
    assert!(spec_err.message.contains("self.minReplicas <= self.replicas"));
    let rep_err = errors.iter().find(|e| e.field_path == "spec.replicas").unwrap();
    assert_eq!(rep_err.message, "replicas must be non-negative");
}

#[test]
fn full_crd_schema_passing() {
    let schema = r#"{"type": "object", "properties": {"spec": {"type": "object",
        "properties": {"replicas": {"type": "integer", "x-kubernetes-validations": [{"rule": "self >= 0", "message": "replicas must be non-negative"}]}},
        "x-kubernetes-validations": [{"rule": "self.replicas >= 1", "message": "at least one replica"}]}}}"#;
    assert!(validate(schema, r#"{"spec": {"replicas": 3}}"#, None).is_empty());
}

#[test]
fn transition_rule_end_to_end() {
    let schema = r#"{"type": "object", "properties": {"spec": {"type": "object",
        "properties": {"replicas": {"type": "integer"}},
        "x-kubernetes-validations": [{"rule": "self.replicas >= oldSelf.replicas", "message": "cannot scale down", "reason": "FieldValueForbidden"}]}}}"#;
    let old = r#"{"spec": {"replicas": 3}}"#;
    assert!(validate(schema, r#"{"spec": {"replicas": 5}}"#, Some(old)).is_empty());
    let errors2 = validate(schema, r#"{"spec": {"replicas": 1}}"#, Some(old));
    assert_eq!(errors2.len(), 1);
    assert_eq!(errors2[0].message, "cannot scale down");
    assert_eq!(errors2[0].reason.as_deref(), Some("FieldValueForbidden"));
    assert_eq!(errors2[0].field_path, "spec");
    assert!(validate(schema, r#"{"spec": {"replicas": 1}}"#, None).is_empty());
}

#[test]
fn nested_array_items_validation() {
    let schema = r#"{"type": "object", "properties": {"spec": {"type": "object", "properties": {"containers": {"type": "array",
        "items": {"type": "object", "properties": {"name": {"type": "string"}, "image": {"type": "string"}},
            "x-kubernetes-validations": [
                {"rule": "self.name.size() > 0", "message": "container name required"},
                {"rule": "self.image.size() > 0", "message": "container image required"}]}}}}}}"#;
    let obj = r#"{"spec": {"containers": [{"name": "nginx", "image": "nginx:latest"}, {"name": "", "image": "busybox"}, {"name": "sidecar", "image": ""}]}}"#;
    let errors = validate(schema, obj, None);
    assert_eq!(errors.len(), 2);
    let err0 = errors.iter().find(|e| e.field_path == "spec.containers[1]").unwrap();
    assert_eq!(err0.message, "container name required");
    let err1 = errors.iter().find(|e| e.field_path == "spec.containers[2]").unwrap();
    assert_eq!(err1.message, "container image required");
}

#[test]
fn multi_level_validations() {
    let schema = r#"{"type": "object",
        "x-kubernetes-validations": [{"rule": "has(self.spec)", "message": "spec is required"}],
        "properties": {"spec": {"type": "object",
            "x-kubernetes-validations": [{"rule": "self.replicas >= self.minReplicas", "message": "replicas >= minReplicas"}],
            "properties": {
                "replicas": {"type": "integer", "x-kubernetes-validations": [{"rule": "self >= 0", "message": "non-negative replicas"}]},
                "minReplicas": {"type": "integer"}}}}}"#;
    assert!(validate(schema, r#"{"spec": {"replicas": 3, "minReplicas": 1}}"#, None).is_empty());
    let errors = validate(schema, r#"{"spec": {"replicas": -1, "minReplicas": 2}}"#, None);
    assert_eq!(errors.len(), 2);
    assert!(errors.iter().any(|e| e.field_path == "spec"));
    assert!(errors.iter().any(|e| e.field_path == "spec.replicas"));
}

#[test]
fn convenience_function_works() {
    let schema = r#"{"type": "object", "x-kubernetes-validations": [{"rule": "self.x > 0", "message": "x must be positive"}],
        "properties": {"x": {"type": "integer"}}}"#;
    let errors = validate(schema, r#"{"x": -1}"#, None);
    assert_eq!(errors.len(), 1);
    assert_eq!(errors[0].message, "x must be positive");
    assert!(errors[0].field_path.is_empty());
}

#[test]
fn empty_schema_no_errors() {
    assert!(validate(r#"{"type": "object"}"#, r#"{"anything": "goes"}"#, None).is_empty());
}

#[test]
fn extension_functions_in_validation() {
    let schema = r#"{"type": "object", "properties": {"name": {"type": "string",
        "x-kubernetes-validations": [{"rule": "self.trim().lowerAscii().size() > 0", "message": "name must not be blank"}]}}}"#;
    assert!(validate(schema, r#"{"name": "  Hello  "}"#, None).is_empty());
    let errors = validate(schema, r#"{"name": "   "}"#, None);
    assert_eq!(errors.len(), 1);
    assert_eq!(errors[0].message, "name must not be blank");
}

#[test]
fn array_items_with_transition_rule() {
    let schema = r#"{"type": "object", "properties": {"tags": {"type": "array", "items": {"type": "object",
        "properties": {"value": {"type": "integer"}},
        "x-kubernetes-validations": [{"rule": "self.value >= oldSelf.value", "message": "tag value cannot decrease"}]}}}}"#;
    let errors = validate(schema, r#"{"tags": [{"value": 5}, {"value": 2}]}"#, Some(r#"{"tags": [{"value": 3}, {"value": 4}]}"#));
    assert_eq!(errors.len(), 1);
    assert_eq!(errors[0].field_path, "tags[1]");
    assert_eq!(errors[0].message, "tag value cannot decrease");
}

#[test]
fn deeply_nested_objects() {
    let schema = r#"{"type": "object", "properties": {"a": {"type": "object", "properties": {"b": {"type": "object",
        "properties": {"c": {"type": "object", "properties": {"value": {"type": "integer"}},
            "x-kubernetes-validations": [{"rule": "self.value > 0", "message": "deep value must be positive"}]}}}}}}}"#;
    let errors = validate(schema, r#"{"a": {"b": {"c": {"value": -1}}}}"#, None);
    assert_eq!(errors.len(), 1);
    assert_eq!(errors[0].field_path, "a.b.c");
    assert_eq!(errors[0].message, "deep value must be positive");
}

#[test]
fn empty_array_no_item_validation() {
    let schema = r#"{"type": "object", "properties": {"items": {"type": "array", "items": {"type": "integer",
        "x-kubernetes-validations": [{"rule": "self > 0", "message": "must be positive"}]}}}}"#;
    assert!(validate(schema, r#"{"items": []}"#, None).is_empty());
}

#[test]
fn null_field_value() {
    let schema = r#"{"type": "object",
        "x-kubernetes-validations": [{"rule": "self.name == null || self.name.size() > 0", "message": "name must be null or non-empty"}],
        "properties": {"name": {"type": "string"}}}"#;
    assert!(validate(schema, r#"{"name": null}"#, None).is_empty());
}

#[test]
fn cel_exists_macro() {
    let schema = r#"{"type": "object",
        "x-kubernetes-validations": [{"rule": "self.items.exists(x, x > 3)", "message": "need at least one item > 3"}],
        "properties": {"items": {"type": "array", "items": {"type": "integer"}}}}"#;
    assert!(validate(schema, r#"{"items": [1, 2, 5]}"#, None).is_empty());
    let errors = validate(schema, r#"{"items": [1, 2, 3]}"#, None);
    assert_eq!(errors.len(), 1);
    assert_eq!(errors[0].message, "need at least one item > 3");
}

#[test]
fn cel_all_macro() {
    let schema = r#"{"type": "object",
        "x-kubernetes-validations": [{"rule": "self.tags.all(t, t.size() > 0)", "message": "all tags must be non-empty"}],
        "properties": {"tags": {"type": "array", "items": {"type": "string"}}}}"#;
    assert!(validate(schema, r#"{"tags": ["a", "bb", "ccc"]}"#, None).is_empty());
    assert_eq!(validate(schema, r#"{"tags": ["a", "", "c"]}"#, None).len(), 1);
}

#[test]
fn cel_map_and_filter() {
    let schema = r#"{"type": "object",
        "x-kubernetes-validations": [{"rule": "self.nums.filter(n, n > 0).size() >= 2", "message": "need at least 2 positive numbers"}],
        "properties": {"nums": {"type": "array", "items": {"type": "integer"}}}}"#;
    assert!(validate(schema, r#"{"nums": [-1, 2, 3]}"#, None).is_empty());
    assert_eq!(validate(schema, r#"{"nums": [-1, 2, -3]}"#, None).len(), 1);
}

#[test]
fn cel_ternary_expression() {
    let schema = r#"{"type": "object",
        "x-kubernetes-validations": [{"rule": "self.enabled ? self.count > 0 : true", "message": "count required when enabled"}],
        "properties": {"enabled": {"type": "boolean"}, "count": {"type": "integer"}}}"#;
    assert!(validate(schema, r#"{"enabled": true, "count": 5}"#, None).is_empty());
    assert!(validate(schema, r#"{"enabled": false, "count": 0}"#, None).is_empty());
    let errors = validate(schema, r#"{"enabled": true, "count": 0}"#, None);
    assert_eq!(errors.len(), 1);
    assert_eq!(errors[0].message, "count required when enabled");
}

#[test]
fn mixed_transition_and_non_transition_rules() {
    let schema = r#"{"type": "object", "x-kubernetes-validations": [
            {"rule": "self.replicas >= 0", "message": "non-negative"},
            {"rule": "self.replicas >= oldSelf.replicas", "message": "cannot scale down"}],
        "properties": {"replicas": {"type": "integer"}}}"#;
    let errors = validate(schema, r#"{"replicas": -1}"#, None);
    assert_eq!(errors.len(), 1);
    assert_eq!(errors[0].message, "non-negative");
    let errors = validate(schema, r#"{"replicas": -1}"#, Some(r#"{"replicas": 3}"#));
    assert_eq!(errors.len(), 2);
}

#[test]
fn array_length_mismatch_with_old_self() {
    let schema = r#"{"type": "object", "properties": {"items": {"type": "array", "items": {"type": "integer",
        "x-kubernetes-validations": [{"rule": "self >= oldSelf", "message": "cannot decrease"}]}}}}"#;
    let errors = validate(schema, r#"{"items": [5, 3, 10]}"#, Some(r#"{"items": [3, 4]}"#));
    assert_eq!(errors.len(), 1);
    assert_eq!(errors[0].field_path, "items[1]");
}

#[test]
fn realistic_istio_like_crd() {
    let schema = r#"{"type": "object", "properties": {"spec": {"type": "object",
        "x-kubernetes-validations": [{"rule": "size(self.hosts) > 0", "message": "at least one host required"}],
        "properties": {
            "hosts": {"type": "array", "items": {"type": "string"}},
            "http": {"type": "array", "items": {"type": "object",
                "x-kubernetes-validations": [{"rule": "size(self.route) > 0", "message": "at least one route required"}],
                "properties": {"route": {"type": "array", "items": {"type": "object",
                    "properties": {"weight": {"type": "integer"}},
                    "x-kubernetes-validations": [{"rule": "self.weight >= 0 && self.weight <= 100", "message": "weight must be 0-100", "reason": "FieldValueInvalid"}]}}}}}}}}}"#;
    let valid = r#"{"spec": {"hosts": ["example.com"], "http": [{"route": [{"weight": 80}, {"weight": 20}]}]}}"#;
    assert!(validate(schema, valid, None).is_empty());
    let invalid = r#"{"spec": {"hosts": [], "http": [{"route": [{"weight": 150}, {"weight": -10}]}]}}"#;
    let errors = validate(schema, invalid, None);
    assert_eq!(errors.len(), 3);
    assert!(errors.iter().any(|e| e.field_path == "spec"));
    assert!(errors.iter().any(|e| e.field_path == "spec.http[0].route[0]"));
    assert!(errors.iter().any(|e| e.field_path == "spec.http[0].route[1]"));
}

#[test]
fn realistic_cert_manager_like_crd() {
    let schema = r#"{"type": "object", "properties": {"spec": {"type": "object",
        "x-kubernetes-validations": [
            {"rule": "has(self.dnsNames) || has(self.ipAddresses)", "message": "at least one of dnsNames or ipAddresses is required"},
            {"rule": "self.renewBefore < self.duration", "message": "renewBefore must be less than duration"}],
        "properties": {
            "dnsNames": {"type": "array", "items": {"type": "string"}},
            "ipAddresses": {"type": "array", "items": {"type": "string"}},
            "duration": {"type": "integer"},
            "renewBefore": {"type": "integer"}}}}}"#;
    assert!(validate(schema, r#"{"spec": {"dnsNames": ["example.com"], "duration": 90, "renewBefore": 30}}"#, None).is_empty());
    assert_eq!(validate(schema, r#"{"spec": {"duration": 30, "renewBefore": 60}}"#, None).len(), 2);
}

#[test]
fn message_expression_end_to_end() {
    let schema = r#"{"type": "object", "properties": {"spec": {"type": "object",
        "properties": {"replicas": {"type": "integer"}},
        "x-kubernetes-validations": [{"rule": "self.replicas >= 0", "message": "static fallback",
            "messageExpression": "'replicas is ' + string(self.replicas) + ', must be >= 0'"}]}}}"#;
    let errors = validate(schema, r#"{"spec": {"replicas": -3}}"#, None);
    assert_eq!(errors.len(), 1);
    assert_eq!(errors[0].message, "replicas is -3, must be >= 0");
    assert_eq!(errors[0].field_path, "spec");
}

#[test]
fn optional_old_self_create_end_to_end() {
    let schema = r#"{"type": "object", "properties": {"spec": {"type": "object",
        "properties": {"replicas": {"type": "integer"}},
        "x-kubernetes-validations": [{"rule": "oldSelf == null || self.replicas >= oldSelf.replicas",
            "message": "cannot scale down", "optionalOldSelf": true}]}}}"#;
    let obj = r#"{"spec": {"replicas": 1}}"#;
    assert!(validate(schema, obj, None).is_empty());
    let old = r#"{"spec": {"replicas": 5}}"#;
    let errors = validate(schema, obj, Some(old));
    assert_eq!(errors.len(), 1);
    assert_eq!(errors[0].message, "cannot scale down");
    assert_eq!(errors[0].field_path, "spec");
    assert!(validate(schema, r#"{"spec": {"replicas": 10}}"#, Some(old)).is_empty());
}

#[test]
fn compiled_schema_end_to_end() {
    let c = compiled(
        r#"{"type": "object", "properties": {"spec": {"type": "object",
        "x-kubernetes-validations": [{"rule": "self.replicas >= 1", "message": "at least one replica"}],
        "properties": {"replicas": {"type": "integer", "x-kubernetes-validations": [{"rule": "self >= 0", "message": "non-negative"}]}}}}}"#,
    );
    assert!(validate_compiled(&c, r#"{"spec": {"replicas": 3}}"#).is_empty());
    let errors = validate_compiled(&c, r#"{"spec": {"replicas": -1}}"#);
    assert_eq!(errors.len(), 2);
    assert!(errors.iter().any(|e| e.field_path == "spec"));
    assert!(errors.iter().any(|e| e.field_path == "spec.replicas"));
}

#[test]
fn compiled_schema_with_message_expression() {
    let c = compiled(
        r#"{"type": "object", "x-kubernetes-validations": [{"rule": "self.count > 0",
            "messageExpression": "'count is ' + string(self.count) + ' but must be > 0'"}],
        "properties": {"count": {"type": "integer"}}}"#,
    );
    let errors = validate_compiled(&c, r#"{"count": -5}"#);
    assert_eq!(errors.len(), 1);
    assert_eq!(errors[0].message, "count is -5 but must be > 0");
}

#[test]
fn compiled_schema_with_transition_rule() {
    let c = compiled(
        r#"{"type": "object", "x-kubernetes-validations": [{"rule": "self.x >= oldSelf.x", "message": "x cannot decrease"}],
        "properties": {"x": {"type": "integer"}}}"#,
    );
    assert!(validate_compiled(&c, r#"{"x": 1}"#).is_empty());
    let errors = validate_compiled_old(&c, r#"{"x": 1}"#, Some(r#"{"x": 5}"#));
    assert_eq!(errors.len(), 1);
    assert_eq!(errors[0].message, "x cannot decrease");
}

#[test]
fn compiled_schema_matches_schema_validation() {
    let schema = r#"{"type": "object", "properties": {"spec": {"type": "object",
        "x-kubernetes-validations": [{"rule": "self.replicas >= self.minReplicas", "message": "replicas >= min"}],
        "properties": {
            "replicas": {"type": "integer", "x-kubernetes-validations": [{"rule": "self >= 0", "message": "non-negative"}]},
            "minReplicas": {"type": "integer"},
            "containers": {"type": "array", "items": {"type": "object", "properties": {"name": {"type": "string"}},
                "x-kubernetes-validations": [{"rule": "self.name.size() > 0", "message": "name required"}]}}}}}}"#;
    let obj = r#"{"spec": {"replicas": -1, "minReplicas": 2, "containers": [{"name": "ok"}, {"name": ""}]}}"#;
    let mut errors_schema = validate(schema, obj, None);
    let mut errors_compiled = validate_compiled(&compiled(schema), obj);
    assert_eq!(errors_schema.len(), errors_compiled.len());
    errors_schema.sort_by(|a, b| a.field_path.cmp(&b.field_path));
    errors_compiled.sort_by(|a, b| a.field_path.cmp(&b.field_path));
    for (a, b) in errors_schema.iter().zip(errors_compiled.iter()) {
        assert_eq!(a.field_path, b.field_path);
        assert_eq!(a.message, b.message);
        assert_eq!(a.rule, b.rule);
    }
}

#[test]
fn kube_core_rule_json_compatibility() {
    let c = compiled(
        r#"{"x-kubernetes-validations": [
            {"rule": "self.spec.host == self.url.host", "message": "host must match spec.host", "fieldPath": "spec.host", "reason": "FieldValueInvalid"},
            {"rule": "oldSelf.name == self.name", "messageExpression": "'name changed from ' + oldSelf.name + ' to ' + self.name", "reason": "FieldValueForbidden"},
            {"rule": "self.replicas >= 0"}]}"#,
    );
    let results = &c.validations;
    assert_eq!(results.len(), 3);
    let r0 = results[0].as_ref().unwrap();
    assert_eq!(r0.rule.message.as_deref(), Some("host must match spec.host"));
    assert_eq!(r0.rule.field_path.as_deref(), Some("spec.host"));
    assert_eq!(r0.rule.reason.as_deref(), Some("FieldValueInvalid"));
    assert!(!r0.is_transition_rule);
    let r1 = results[1].as_ref().unwrap();
    assert!(r1.rule.message.is_none());
    assert!(r1.rule.message_expression.is_some());
    assert_eq!(r1.rule.reason.as_deref(), Some("FieldValueForbidden"));
    assert!(r1.is_transition_rule);
    let r2 = results[2].as_ref().unwrap();
    assert!(r2.rule.message.is_none());
    assert!(r2.rule.reason.is_none());
    assert!(r2.rule.field_path.is_none());
}

#[test]
fn kube_core_reason_values() {
    let c = compiled(
        r#"{"x-kubernetes-validations": [
            {"rule": "true", "reason": "FieldValueInvalid"},
            {"rule": "true", "reason": "FieldValueForbidden"},
            {"rule": "true", "reason": "FieldValueRequired"},
            {"rule": "true", "reason": "FieldValueDuplicate"}]}"#,
    );
    let results = &c.validations;
    assert_eq!(results.len(), 4);
    assert_eq!(results[0].as_ref().unwrap().rule.reason.as_deref(), Some("FieldValueInvalid"));
    assert_eq!(results[1].as_ref().unwrap().rule.reason.as_deref(), Some("FieldValueForbidden"));
    assert_eq!(results[2].as_ref().unwrap().rule.reason.as_deref(), Some("FieldValueRequired"));
    assert_eq!(results[3].as_ref().unwrap().rule.reason.as_deref(), Some("FieldValueDuplicate"));
}

#[test]
fn reserved_word_field_name() {
    let schema = r#"{"type": "object", "properties": {"namespace": {"type": "string"}},
        "x-kubernetes-validations": [{"rule": "self.__namespace__ == 'default'", "message": "namespace must be default"}]}"#;
    assert!(validate(schema, r#"{"namespace": "default"}"#, None).is_empty());
    let errors = validate(schema, r#"{"namespace": "kube-system"}"#, None);
    assert_eq!(errors.len(), 1);
    assert_eq!(errors[0].message, "namespace must be default");
}

#[test]
fn dash_in_field_name() {
    let schema = r#"{"type": "object", "properties": {"app-name": {"type": "string"}},
        "x-kubernetes-validations": [{"rule": "self.app__dash__name.size() > 0", "message": "app-name must not be empty"}]}"#;
    assert!(validate(schema, r#"{"app-name": "myapp"}"#, None).is_empty());
    let errors = validate(schema, r#"{"app-name": ""}"#, None);
    assert_eq!(errors.len(), 1);
    assert_eq!(errors[0].message, "app-name must not be empty");
}

#[test]
fn dot_in_field_name() {
    let schema = r#"{"type": "object", "properties": {"app.kubernetes.io/name": {"type": "string"}},
        "x-kubernetes-validations": [{"rule": "self.app__dot__kubernetes__dot__io__slash__name == 'nginx'", "message": "annotation must be nginx"}]}"#;
    assert!(validate(schema, r#"{"app.kubernetes.io/name": "nginx"}"#, None).is_empty());
    let errors = validate(schema, r#"{"app.kubernetes.io/name": "apache"}"#, None);
    assert_eq!(errors.len(), 1);
    assert_eq!(errors[0].message, "annotation must be nginx");
}

#[test]
fn underscore_in_field_name() {
    let schema = r#"{"type": "object", "properties": {"my_field": {"type": "integer"}},
        "x-kubernetes-validations": [{"rule": "self.my__field > 0", "message": "my_field must be positive"}]}"#;
    assert!(validate(schema, r#"{"my_field": 5}"#, None).is_empty());
    let errors = validate(schema, r#"{"my_field": -1}"#, None);
    assert_eq!(errors.len(), 1);
    assert_eq!(errors[0].message, "my_field must be positive");
}

#[test]
fn escaped_field_with_compiled_schema() {
    let c = compiled(
        r#"{"type": "object", "properties": {"namespace": {"type": "string"}, "my-value": {"type": "integer"}},
        "x-kubernetes-validations": [
            {"rule": "self.__namespace__.size() > 0", "message": "namespace required"},
            {"rule": "self.my__dash__value >= 0", "message": "my-value must be non-negative"}]}"#,
    );
    assert!(validate_compiled(&c, r#"{"namespace": "default", "my-value": 10}"#).is_empty());
    let errors = validate_compiled(&c, r#"{"namespace": "", "my-value": -1}"#);
    assert_eq!(errors.len(), 2);
    assert!(errors.iter().any(|e| e.message == "namespace required"));
    assert!(errors.iter().any(|e| e.message == "my-value must be non-negative"));
}

/// One rule run against `{"items": [3, 1, 2]}`.
fn run_probe(rule: &str) -> Vec<ValidationError> {
    let schema = format!(
        r#"{{"type": "object", "properties": {{"items": {{"type": "array", "items": {{"type": "integer"}}}}}},
        "x-kubernetes-validations": [{{"rule": {}, "message": "divergence probe"}}]}}"#,
        serde_json::Value::String(rule.to_string())
    );
    validate(&schema, r#"{"items": [3, 1, 2]}"#, None)
}

fn assert_unsupported_macro(feature: &str, rule: &str) {
    let errors = run_probe(rule);
    assert!(
        errors.iter().any(|e| e.kind == ErrorKind::UnsupportedReference),
        "{feature}: expected UnsupportedReference, got {errors:?}"
    );
}

#[test]
fn sort_by_fails_closed() {
    assert_unsupported_macro("sortBy", "self.items.sortBy(x, x) == [1, 2, 3]");
}

#[test]
fn cel_bind_fails_closed() {
    assert_unsupported_macro("cel.bind", "cel.bind(s, self.items.size(), s > 0)");
}

#[test]
fn two_var_comprehension_fails_closed() {
    assert_unsupported_macro("all(i, v, ...)", "self.items.all(i, v, v > 0)");
    assert_unsupported_macro("transformList", "self.items.transformList(i, v, v * 2).size() == 3");
}

#[test]
fn one_arg_comprehension_is_supported() {
    let errors = run_probe("self.items.all(x, x > 0)");
    assert!(errors.is_empty(), "one-arg all() should be supported, got {errors:?}");
}

#[test]
fn runtime_error_is_not_an_unsupported_reference() {
    let errors = run_probe("self.items[0] > 'a'");
    assert!(errors.iter().any(|e| e.kind == ErrorKind::EvaluationError), "got {errors:?}");
    assert!(!errors.iter().any(|e| e.kind == ErrorKind::UnsupportedReference), "got {errors:?}");
}

/// A schema and an object nested `levels` objects deep around a violated
/// integer rule.
fn deep_pair(levels: usize) -> (Json, Json) {
    let mut schema = j(r#"{"type": "integer", "x-kubernetes-validations": [{"rule": "self >= 0", "message": "leaf"}]}"#);
    let mut object = Json::Number("-1".to_string());
    for _ in 0..levels {
        schema = Json::Object(vec![
            ("type".to_string(), Json::Str("object".to_string())),
            ("properties".to_string(), Json::Object(vec![("c".to_string(), schema)])),
        ]);
        object = Json::Object(vec![("c".to_string(), object)]);
    }
    (schema, object)
}

#[test]
fn depth_cap_fails_closed() {
    let (schema, object) = deep_pair(70);
    let errors = validate_values(&schema, &object, None, None);
    assert!(errors.iter().any(|e| e.kind == ErrorKind::SchemaTooDeep), "got {errors:?}");
}

#[test]
fn raw_walk_stops_past_the_depth_cap() {
    let (schema, object) = deep_pair(70);
    let errors = validate_values(&schema, &object, None, None);
    assert_eq!(errors.len(), 1);
    assert_eq!(errors[0].kind, ErrorKind::SchemaTooDeep);
    assert_eq!(errors[0].field_path, vec!["c"; 65].join("."));
    let errors_compiled = validate_compiled_values(&compile_schema(&schema, &decode), &object, None);
    assert_eq!(errors_compiled, errors);
}
