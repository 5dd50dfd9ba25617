use std::collections::HashMap;
use std::sync::Arc;

use cel::objects::{Key, Value};
use kube_cel::json::Json;
use kube_cel::vap::{
    request_to_cel, AdmissionRequest, CompiledVapExpression, VapError, VapEvaluator, VapExpression, VapOutcome,
    VapResult,
};

fn conv(v: serde_json::Value) -> Json {
    match v {
        serde_json::Value::Null => Json::Null,
        serde_json::Value::Bool(b) => Json::Bool(b),
        serde_json::Value::Number(n) => Json::Number(n.to_string()),
        serde_json::Value::String(s) => Json::Str(s),
        serde_json::Value::Array(a) => Json::Array(a.into_iter().map(conv).collect()),
        serde_json::Value::Object(o) => Json::Object(o.into_iter().map(|(k, v)| (k, conv(v))).collect()),
    }
}

fn j(text: &str) -> Json {
    conv(serde_json::from_str(text).unwrap())
}

/// A JSON value as a CEL value.
fn cel_value(j: &Json) -> Value {
    match j {
        Json::Null => Value::Null,
        Json::Bool(b) => Value::Bool(*b),
        Json::Number(n) => match n.parse::<i64>() {
            Ok(i) => Value::Int(i),
            Err(_) => Value::Float(n.parse().unwrap()),
        },
        Json::Str(s) => Value::String(Arc::new(s.clone())),
        Json::Array(a) => Value::List(Arc::new(a.iter().map(cel_value).collect())),
        Json::Object(o) => {
            let map: HashMap<Key, Value> = o.iter().map(|(k, v)| (Key::String(Arc::new(k.clone())), cel_value(v))).collect();
            Value::Map(cel::objects::Map { map: Arc::new(map) })
        }
    }
}

/// Runs each compiled expression with the evaluator's variables bound, and
/// lets the library judge the outcomes.
fn evaluate_compiled(ev: &VapEvaluator, compiled: &Vec<Result<CompiledVapExpression, VapError>>) -> Vec<VapResult> {
    let mut ctx = cel::Context::default();
    for (name, value) in ev.bindings() {
        ctx.add_variable_from_value(name, cel_value(&value));
    }
    let outcomes: Vec<VapOutcome> = compiled
        .iter()
        .map(|c| match c {
            Err(_) => VapOutcome::True,
            Ok(ce) => match ce.program.program().execute(&ctx) {
                Ok(Value::Bool(true)) => VapOutcome::True,
                Ok(Value::Bool(false)) => VapOutcome::False(ce.message_program.as_ref().and_then(|p| match p.program().execute(&ctx) {
                    Ok(Value::String(s)) => Some((*s).clone()),
                    _ => None,
                })),
                Ok(other) => VapOutcome::NotBool(format!("{other:?}")),
                Err(e) => VapOutcome::Error(e.to_string()),
            },
        })
        .collect();
    ev.evaluate_compiled(compiled, &outcomes)
}

fn evaluate(ev: &VapEvaluator, expressions: Vec<VapExpression>) -> Vec<VapResult> {
    let compiled = ev.compile_expressions(&expressions);
    evaluate_compiled(ev, &compiled)
}

fn expr(e: &str, message: Option<&str>, message_expression: Option<&str>) -> VapExpression {
    VapExpression {
        expression: e.into(),
        message: message.map(|m| m.into()),
        message_expression: message_expression.map(|m| m.into()),
    }
}

fn create() -> AdmissionRequest {
    AdmissionRequest { operation: "CREATE".into(), ..Default::default() }
}

#[test]
fn vap_basic_validation_passes() {
    let ev = VapEvaluator::builder()
        .object(j(r#"{"metadata": {"name": "test"}, "spec": {"replicas": 3}}"#))
        .request(create())
        .build();
    let results = evaluate(&ev, vec![expr("object.spec.replicas >= 0", Some("replicas must be non-negative"), None)]);
    assert_eq!(results.len(), 1);
    assert!(results[0].passed);
}

#[test]
fn compile_failure_yields_vap_error_with_cause() {
    let ev = VapEvaluator::builder().build();
    let compiled = ev.compile_expressions(&vec![expr("this is ((( not valid", None, None)]);
    let err = compiled[0].as_ref().unwrap_err();
    assert_eq!(err.expression, "this is ((( not valid");
    assert!(!err.source.is_empty(), "VapError should carry the cel parse error");
    let results = evaluate_compiled(&ev, &compiled);
    assert!(!results[0].passed);
    assert_eq!(results[0].expression, "this is ((( not valid");
}

#[test]
fn vap_validation_fails_with_message() {
    let ev = VapEvaluator::builder().object(j(r#"{"spec": {"replicas": -1}}"#)).request(create()).build();
    let results = evaluate(&ev, vec![expr("object.spec.replicas >= 0", Some("replicas must be non-negative"), None)]);
    assert!(!results[0].passed);
    assert_eq!(results[0].message.as_deref(), Some("replicas must be non-negative"));
}

#[test]
fn vap_request_variables_accessible() {
    let ev = VapEvaluator::builder()
        .object(j(r#"{"spec": {}}"#))
        .request(AdmissionRequest {
            operation: "CREATE".into(),
            username: "admin".into(),
            namespace: "default".into(),
            ..Default::default()
        })
        .build();
    let results = evaluate(
        &ev,
        vec![expr("request.operation == 'CREATE' && request.userInfo.username == 'admin'", None, None)],
    );
    assert!(results[0].passed);
}

#[test]
fn vap_old_object_null_on_create() {
    let ev = VapEvaluator::builder().object(j(r#"{"spec": {}}"#)).request(create()).build();
    let results = evaluate(&ev, vec![expr("oldObject == null", None, None)]);
    assert!(results[0].passed);
}

#[test]
fn vap_params_accessible() {
    let ev = VapEvaluator::builder()
        .object(j(r#"{"spec": {"replicas": 5}}"#))
        .params(j(r#"{"maxReplicas": 10}"#))
        .request(AdmissionRequest::default())
        .build();
    let results = evaluate(&ev, vec![expr("object.spec.replicas <= params.maxReplicas", None, None)]);
    assert!(results[0].passed);
}

#[test]
fn vap_message_expression() {
    let ev = VapEvaluator::builder()
        .object(j(r#"{"spec": {"replicas": -1}}"#))
        .request(AdmissionRequest::default())
        .build();
    let results = evaluate(
        &ev,
        vec![expr("object.spec.replicas >= 0", Some("static fallback"), Some("'replicas is ' + string(object.spec.replicas)"))],
    );
    assert!(!results[0].passed);
    assert_eq!(results[0].message.as_deref(), Some("replicas is -1"));
}

#[test]
fn vap_compiled_expressions_reusable() {
    let ev = VapEvaluator::builder().object(j(r#"{"spec": {"replicas": 3}}"#)).request(create()).build();
    let compiled = ev.compile_expressions(&vec![expr("object.spec.replicas >= 0", Some("bad"), None)]);
    assert!(compiled[0].is_ok());
    let r1 = evaluate_compiled(&ev, &compiled);
    let r2 = evaluate_compiled(&ev, &compiled);
    assert!(r1[0].passed);
    assert!(r2[0].passed);
}

#[test]
fn vap_compiled_error_preserved() {
    let ev = VapEvaluator::builder().object(j("{}")).request(AdmissionRequest::default()).build();
    let compiled = ev.compile_expressions(&vec![expr("invalid >=", None, None)]);
    assert!(compiled[0].is_err());
    let results = evaluate_compiled(&ev, &compiled);
    assert!(!results[0].passed);
    assert!(results[0].message.as_ref().unwrap().contains("failed to compile VAP expression"));
}

#[test]
fn vap_multiple_expressions() {
    let ev = VapEvaluator::builder()
        .object(j(r#"{"spec": {"replicas": -1, "name": ""}}"#))
        .request(AdmissionRequest::default())
        .build();
    let results = evaluate(
        &ev,
        vec![
            expr("object.spec.replicas >= 0", Some("bad replicas"), None),
            expr("object.spec.name.size() > 0", Some("name required"), None),
        ],
    );
    assert_eq!(results.len(), 2);
    assert!(!results[0].passed);
    assert!(!results[1].passed);
}

// What the library decides for each outcome.

#[test]
fn judged_messages() {
    let ev = VapEvaluator::builder().build();
    let compiled = ev.compile_expressions(&vec![expr("1 == 1", None, None), expr("true", Some("m"), None)]);
    let r = ev.evaluate_compiled(&compiled, &vec![VapOutcome::False(None), VapOutcome::False(None)]);
    assert_eq!(r[0].message.as_deref(), Some("validation expression '1 == 1' evaluated to false"));
    assert_eq!(r[1].message.as_deref(), Some("m"));
    let r = ev.evaluate_compiled(&compiled, &vec![VapOutcome::NotBool("Int(1)".into()), VapOutcome::Error("boom".into())]);
    assert_eq!(r[0].message.as_deref(), Some("expression returned non-boolean: Int(1)"));
    assert_eq!(r[1].message.as_deref(), Some("evaluation error: boom"));
    assert!(r.iter().all(|x| !x.passed));
}

#[test]
fn request_variable_shape() {
    let req = AdmissionRequest { operation: "UPDATE".into(), groups: vec!["g".into()], dry_run: true, ..Default::default() };
    let v = request_to_cel(&req);
    assert!(matches!(v.get("operation"), Some(Json::Str(s)) if s == "UPDATE"));
    assert!(matches!(v.get("dryRun"), Some(Json::Bool(true))));
    let groups = v.get("userInfo").unwrap().get("groups").unwrap();
    assert!(matches!(groups, Json::Array(a) if a.len() == 1));
    assert!(v.get("kind").unwrap().get("group").is_some());
}

#[test]
fn unset_params_are_not_bound() {
    let ev = VapEvaluator::builder().object(j("{}")).build();
    let names: Vec<String> = ev.bindings().into_iter().map(|(n, _)| n).collect();
    assert_eq!(names, vec!["object", "oldObject", "request"]);
}

#[test]
fn compiled_expressions_keep_their_sources() {
    let ev = VapEvaluator::builder().build();
    let compiled = ev.compile_expressions(&vec![expr("object.spec.replicas >= 0", Some("m"), Some("'replicas: ' + string(object.spec.replicas)"))]);
    let ce = compiled[0].as_ref().unwrap();
    assert_eq!(ce.program.source(), "object.spec.replicas >= 0");
    assert_eq!(ce.message_program.as_ref().unwrap().source(), "'replicas: ' + string(object.spec.replicas)");
}
