use kube_cel::compilation::{compile_schema, Rule};
use kube_cel::json::Json;
use kube_cel::validation_defaults::{apply_defaults, apply_defaults_compiled};

fn conv(v: serde_json::Value) -> Json {
    match v {
        serde_json::Value::Null => Json::Null,
        serde_json::Value::Bool(b) => Json::Bool(b),
        serde_json::Value::Number(n) => Json::Number(n.to_string()),
        serde_json::Value::String(s) => Json::Str(s),
        serde_json::Value::Array(a) => Json::Array(a.into_iter().map(conv).collect()),
        serde_json::Value::Object(o) => Json::Object(o.into_iter().map(|(k, v)| (k, conv(v))).collect()),
    }
}

fn back(j: &Json) -> serde_json::Value {
    match j {
        Json::Null => serde_json::Value::Null,
        Json::Bool(b) => serde_json::Value::Bool(*b),
        Json::Number(n) => serde_json::from_str(n).unwrap(),
        Json::Str(s) => serde_json::Value::String(s.clone()),
        Json::Array(a) => serde_json::Value::Array(a.iter().map(back).collect()),
        Json::Object(o) => serde_json::Value::Object(o.iter().map(|(k, v)| (k.clone(), back(v))).collect()),
    }
}

fn j(text: &str) -> Json {
    conv(serde_json::from_str(text).unwrap())
}

fn v(text: &str) -> serde_json::Value {
    serde_json::from_str(text).unwrap()
}

fn no_rules(_: &Json) -> Result<Rule, String> {
    Err("no rules here".to_string())
}

/// Both defaulters of the library, which must agree.
fn defaulted(schema: &str, value: &str) -> serde_json::Value {
    let s = j(schema);
    let val = j(value);
    let basic = back(&kube_cel::defaults::apply_defaults(&s, &val));
    let full = back(&apply_defaults(&s, &val));
    let compiled = back(&apply_defaults_compiled(&compile_schema(&s, &no_rules), &val));
    assert_eq!(full, compiled);
    assert_eq!(basic, full);
    full
}

#[test]
fn defaults_apply_defaults_fills_missing_field() {
    let schema = r#"{
        "type": "object",
        "properties": {
            "timeout": {"type": "string", "default": "30s"},
            "name": {"type": "string"}
        }
    }"#;
    assert_eq!(defaulted(schema, r#"{"name": "test"}"#), v(r#"{"name": "test", "timeout": "30s"}"#));
}

#[test]
fn defaults_apply_defaults_does_not_overwrite_existing() {
    let schema = r#"{"type": "object", "properties": {"timeout": {"type": "string", "default": "30s"}}}"#;
    assert_eq!(defaulted(schema, r#"{"timeout": "60s"}"#), v(r#"{"timeout": "60s"}"#));
}

#[test]
fn defaults_apply_defaults_nested_object() {
    let schema = r#"{
        "type": "object",
        "properties": {
            "spec": {
                "type": "object",
                "properties": {"replicas": {"type": "integer", "default": 1}}
            }
        }
    }"#;
    assert_eq!(defaulted(schema, r#"{"spec": {}}"#), v(r#"{"spec": {"replicas": 1}}"#));
}

#[test]
fn defaults_apply_defaults_array_items() {
    let schema = r#"{
        "type": "array",
        "items": {"type": "object", "properties": {"port": {"type": "integer", "default": 80}}}
    }"#;
    assert_eq!(defaulted(schema, r#"[{"port": 443}, {}]"#), v(r#"[{"port": 443}, {"port": 80}]"#));
}

#[test]
fn defaults_apply_defaults_no_schema_properties() {
    assert_eq!(defaulted(r#"{"type": "object"}"#, r#"{"x": 1}"#), v(r#"{"x": 1}"#));
}

#[test]
fn defaults_apply_defaults_non_object_passthrough() {
    let schema = r#"{"type": "string", "default": "hello"}"#;
    assert_eq!(defaulted(schema, r#""world""#), v(r#""world""#));
}

#[test]
fn apply_defaults_walks_additional_properties() {
    let schema = j(r#"{
        "type": "object",
        "additionalProperties": {
            "type": "object",
            "properties": { "x": { "type": "string", "default": "d" } }
        }
    }"#);
    let value = j(r#"{ "a": {}, "b": { "x": "keep" } }"#);
    assert_eq!(back(&apply_defaults(&schema, &value)), v(r#"{ "a": { "x": "d" }, "b": { "x": "keep" } }"#));
}

#[test]
fn apply_defaults_skips_additional_properties_under_preserve_unknown() {
    let schema = j(r#"{
        "type": "object",
        "x-kubernetes-preserve-unknown-fields": true,
        "additionalProperties": {
            "type": "object",
            "properties": { "x": { "type": "string", "default": "d" } }
        }
    }"#);
    let value = j(r#"{ "a": {} }"#);
    assert_eq!(back(&apply_defaults(&schema, &value)), v(r#"{ "a": {} }"#));
}

#[test]
fn apply_defaults_compiled_matches_schema_defaulter() {
    let schema = j(r#"{
        "type": "object",
        "properties": {
            "list": {
                "type": "array",
                "items": {"type": "object", "properties": { "p": { "type": "integer", "default": 80 } }}
            },
            "m": {
                "type": "object",
                "additionalProperties": {"type": "object", "properties": { "x": { "type": "string", "default": "d" } }}
            }
        }
    }"#);
    let value = j(r#"{ "list": [ {} ], "m": { "a": {} } }"#);
    let via_schema = back(&apply_defaults(&schema, &value));
    let compiled = compile_schema(&schema, &no_rules);
    let via_compiled = back(&apply_defaults_compiled(&compiled, &value));
    assert_eq!(via_schema, via_compiled);
    assert_eq!(via_compiled, v(r#"{ "list": [ { "p": 80 } ], "m": { "a": { "x": "d" } } }"#));
}

// Laws on concrete values.

#[test]
fn existing_entries_keep_their_place_and_value() {
    let schema = j(r#"{"type": "object", "properties": {"a": {"default": 1}, "b": {"default": 2}, "c": {"type": "string"}}}"#);
    let value = j(r#"{"c": "x", "b": 7}"#);
    let out = apply_defaults(&schema, &value);
    match (&value, &out) {
        (Json::Object(before), Json::Object(after)) => {
            assert!(after.len() >= before.len());
            for (i, (k, _)) in before.iter().enumerate() {
                assert_eq!(&after[i].0, k);
                assert_eq!(back(&after[i].1), back(&before[i].1));
            }
        }
        _ => panic!("expected objects"),
    }
}

#[test]
fn defaulting_stops_at_the_depth_cap() {
    let mut schema = j(r#"{"type": "object", "properties": {"x": {"default": 1}}}"#);
    let mut value = j("{}");
    let mut shallow_schema = j(r#"{"type": "object", "properties": {"x": {"default": 1}}}"#);
    let mut shallow_value = j("{}");
    for i in 0..70 {
        schema = Json::Object(vec![
            ("type".to_string(), Json::Str("object".into())),
            ("properties".to_string(), Json::Object(vec![("a".to_string(), schema)])),
        ]);
        value = Json::Object(vec![("a".to_string(), value)]);
        if i < 3 {
            shallow_schema = Json::Object(vec![
                ("type".to_string(), Json::Str("object".into())),
                ("properties".to_string(), Json::Object(vec![("a".to_string(), shallow_schema)])),
            ]);
            shallow_value = Json::Object(vec![("a".to_string(), shallow_value)]);
        }
    }
    // Past the cap the deepest object is left as it is.
    let out = apply_defaults(&schema, &value);
    let mut node = &out;
    for _ in 0..70 {
        node = node.get("a").unwrap();
    }
    assert_eq!(back(node), v("{}"));
    // Within the cap the default is filled in.
    let out = back(&apply_defaults(&shallow_schema, &shallow_value));
    assert_eq!(out, v(r#"{"a": {"a": {"a": {"x": 1}}}}"#));
}

/// A schema and a value nested `levels` objects deep; every schema level
/// declares `c` (the next level) and `d` (defaulted to 1).
fn deep_pair(levels: usize) -> (Json, Json) {
    let mut schema = Json::Object(vec![("type".to_string(), Json::Str("object".to_string()))]);
    let mut value = Json::Object(vec![]);
    for _ in 0..levels {
        schema = Json::Object(vec![
            ("type".to_string(), Json::Str("object".to_string())),
            (
                "properties".to_string(),
                Json::Object(vec![
                    ("c".to_string(), schema),
                    ("d".to_string(), Json::Object(vec![("default".to_string(), Json::Number("1".to_string()))])),
                ]),
            ),
        ]);
        value = Json::Object(vec![("c".to_string(), value)]);
    }
    (schema, value)
}

/// The depths (root = 0) at which the object chain holds `d`.
fn defaulted_depths(v: &Json) -> Vec<usize> {
    let mut out = Vec::new();
    let mut cur = v;
    let mut depth = 0;
    while let Json::Object(o) = cur {
        if o.iter().any(|(k, _)| k == "d") {
            out.push(depth);
        }
        match o.iter().find(|(k, _)| k == "c") {
            Some((_, next)) => cur = next,
            None => break,
        }
        depth += 1;
    }
    out
}

#[test]
fn defaults_stop_at_the_depth_cap() {
    let (schema, value) = deep_pair(70);
    let raw = apply_defaults(&schema, &value);
    let compiled = apply_defaults_compiled(&compile_schema(&schema, &no_rules), &value);
    assert_eq!(defaulted_depths(&raw), (0..=64).collect::<Vec<usize>>());
    assert_eq!(defaulted_depths(&compiled), (0..=64).collect::<Vec<usize>>());
}

#[test]
fn inserted_default_is_defaulted_by_its_own_schema() {
    let schema = r#"{
        "type": "object",
        "properties": {
            "spec": {
                "type": "object",
                "default": {},
                "properties": {"replicas": {"type": "integer", "default": 1}}
            }
        }
    }"#;
    assert_eq!(defaulted(schema, r#"{}"#), v(r#"{"spec": {"replicas": 1}}"#));
}

#[test]
fn inserted_default_keeps_what_it_sets() {
    let schema = r#"{
        "type": "object",
        "properties": {
            "spec": {
                "type": "object",
                "default": {"replicas": 3},
                "properties": {
                    "replicas": {"type": "integer", "default": 1},
                    "paused": {"type": "boolean", "default": false}
                }
            }
        }
    }"#;
    assert_eq!(defaulted(schema, r#"{}"#), v(r#"{"spec": {"replicas": 3, "paused": false}}"#));
}
