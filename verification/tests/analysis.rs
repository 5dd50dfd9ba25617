use kube_cel::analysis::{
    analyze_parsed, analyze_rule, check_rule_scope, cost_warnings, estimate_rule_cost, estimate_expr_cost, find_max_items, find_max_length,
    is_string_traversal, valid_variables, AnalysisWarning, CostExpr, ScopeContext, WarningKind,
};
use kube_cel::compilation::{compile_schema, CompiledSchema, Rule};
use kube_cel::json::Json;

fn conv(v: serde_json::Value) -> Json {
    match v {
        serde_json::Value::Null => Json::Null,
        serde_json::Value::Bool(b) => Json::Bool(b),
        serde_json::Value::Number(n) => Json::Number(n.to_string()),
        serde_json::Value::String(s) => Json::Str(s),
        serde_json::Value::Array(a) => Json::Array(a.into_iter().map(conv).collect()),
        serde_json::Value::Object(o) => Json::Object(o.into_iter().map(|(k, v)| (k, conv(v))).collect()),
    }
}

fn no_rules(_: &Json) -> Result<Rule, String> {
    Err("no rules here".to_string())
}

fn compiled(text: &str) -> CompiledSchema {
    compile_schema(&conv(serde_json::from_str(text).unwrap()), &no_rules)
}

fn call(func: &str, target: Option<CostExpr>, args: Vec<CostExpr>) -> CostExpr {
    CostExpr::Call { func: func.into(), target: target.map(Box::new), args }
}

/// `self.items.all(item, item.size() > 0)` as the CEL parser expands it:
/// a comprehension whose step is `__result__ && item.size() > 0`.
fn all_items_nonempty() -> CostExpr {
    let test = call("_>_", None, vec![call("size", Some(CostExpr::Other), vec![]), CostExpr::Other]);
    CostExpr::Comprehension(Box::new(call("_&&_", None, vec![CostExpr::Other, test])))
}

/// `self.x >= 0`.
fn x_at_least_zero() -> CostExpr {
    call("_>=_", None, vec![CostExpr::Select(Box::new(CostExpr::Other)), CostExpr::Other])
}

/// The string cost the cost model uses for a schema.
fn string_cost(schema: &CompiledSchema) -> u64 {
    (find_max_length(schema) as f64 * 0.1) as u64
}

/// Cost warnings of a rule, read from its own syntax tree.
fn rule_cost(rule: &str, schema: &CompiledSchema) -> Vec<AnalysisWarning> {
    estimate_rule_cost(rule, schema, string_cost(schema)).unwrap()
}

/// Scope and cost warnings of a rule.
fn analyze(rule: &str, schema: &CompiledSchema, scope: ScopeContext) -> Vec<AnalysisWarning> {
    analyze_rule(rule, schema, scope, string_cost(schema)).unwrap()
}

/// The variables a rule mentions, as the CEL parser reports them.
fn vars_of(rule: &str) -> Vec<String> {
    let program = cel::Program::compile(rule).unwrap();
    let vars = program.references().variables().into_iter().map(|v| v.to_string()).collect();
    vars
}

#[test]
fn detect_wrong_scope_variable() {
    let warnings = check_rule_scope("request.userInfo.username == 'admin'", ScopeContext::CrdValidation);
    assert_eq!(warnings.len(), 1);
    assert!(warnings[0].message.contains("request"));
    assert_eq!(warnings[0].kind, WarningKind::WrongScope);
}

#[test]
fn self_and_old_self_are_valid() {
    let warnings = check_rule_scope("self.replicas >= oldSelf.replicas", ScopeContext::CrdValidation);
    assert!(warnings.is_empty());
}

#[test]
fn admission_policy_scope_allows_request() {
    let warnings = check_rule_scope("request.userInfo.username == 'admin'", ScopeContext::AdmissionPolicy);
    assert!(warnings.is_empty());
}

#[test]
fn crd_scope_rejects_object_variable() {
    let warnings = check_rule_scope("object.metadata.name == 'test'", ScopeContext::CrdValidation);
    assert_eq!(warnings.len(), 1);
}

#[test]
fn invalid_syntax_returns_empty() {
    let warnings = check_rule_scope("self.x >=", ScopeContext::CrdValidation);
    assert!(warnings.is_empty());
}

#[test]
fn unbounded_list_comprehension_warns() {
    let schema = compiled(r#"{"type": "object", "properties": {"items": {"type": "array", "items": {"type": "string"}}}}"#);
    let warnings = rule_cost("self.items.all(item, item.size() > 0)", &schema);
    assert!(warnings.iter().any(|w| w.kind == WarningKind::CostExceeded || w.kind == WarningKind::MissingBounds));
}

#[test]
fn bounded_list_no_cost_warning() {
    let schema = compiled(
        r#"{"type": "object", "properties": {"items": {"type": "array", "maxItems": 10, "items": {"type": "string", "maxLength": 64}}}}"#,
    );
    let warnings = rule_cost("self.items.all(item, item.size() > 0)", &schema);
    assert!(warnings.iter().all(|w| w.kind != WarningKind::CostExceeded));
}

#[test]
fn simple_comparison_low_cost() {
    let schema = compiled(r#"{"type": "object", "properties": {"x": {"type": "integer"}}}"#);
    let warnings = rule_cost("self.x >= 0", &schema);
    assert!(warnings.is_empty());
}

#[test]
fn analyze_rule_catches_scope_issue() {
    let schema = compiled(r#"{"type": "object", "properties": {"x": {"type": "integer"}}}"#);
    let warnings = analyze("request.name == 'test'", &schema, ScopeContext::CrdValidation);
    assert!(warnings.iter().any(|w| w.kind == WarningKind::WrongScope));
}

#[test]
fn analyze_rule_catches_cost_and_bounds() {
    let schema = compiled(r#"{"type": "object", "properties": {"items": {"type": "array", "items": {"type": "string"}}}}"#);
    let warnings = analyze("self.items.all(item, item.size() > 0)", &schema, ScopeContext::CrdValidation);
    assert!(!warnings.iter().any(|w| w.kind == WarningKind::WrongScope && w.message.contains("'self'")));
    assert!(warnings.iter().any(|w| w.kind == WarningKind::MissingBounds));
}

#[test]
fn analysis_reads_the_rules_own_tree() {
    // The tree read from the rule's text gives what the hand-built shape of
    // the same rule gives.
    let schema = compiled(r#"{"type": "object", "properties": {"items": {"type": "array", "items": {"type": "string"}}}}"#);
    let rule = "self.items.all(item, item.size() > 0)";
    let by_hand = analyze_parsed(
        rule,
        &vars_of(rule),
        &all_items_nonempty(),
        &schema,
        ScopeContext::CrdValidation,
        string_cost(&schema),
    );
    assert_eq!(analyze(rule, &schema, ScopeContext::CrdValidation), by_hand);
    let sc = string_cost(&schema);
    assert_eq!(rule_cost(rule, &schema), cost_warnings(rule, &all_items_nonempty(), &schema, sc));
    let big = compiled(r#"{"type": "object", "properties": {"items": {"type": "array", "maxItems": 2000000, "items": {"type": "string"}}}}"#);
    let over = estimate_rule_cost(rule, &big, 0).unwrap();
    assert_eq!(over.len(), 1);
    assert_eq!(over[0].kind, WarningKind::CostExceeded);
    assert_eq!(
        over[0].message,
        "estimated cost 12000000 exceeds K8s budget 1000000; consider adding maxItems/maxLength to schema bounds"
    );
}

#[test]
fn cost_that_does_not_fit_is_refused() {
    let schema = compiled(
        r#"{"type": "object", "properties": {"items": {"type": "array", "maxItems": 4000000000, "items": {"type": "string"}}}}"#,
    );
    let rule = "self.items.all(a, self.items.all(b, self.items.all(c, true)))";
    assert!(estimate_rule_cost(rule, &schema, 0).is_none());
    assert!(analyze_rule(rule, &schema, ScopeContext::CrdValidation, 0).is_none());
    assert!(estimate_rule_cost("self.items.all(a, true)", &schema, 0).is_some());
}

#[test]
fn rules_that_do_not_compile_get_no_warnings() {
    let schema = compiled(r#"{"type": "object"}"#);
    assert_eq!(analyze_rule("invalid >=", &schema, ScopeContext::CrdValidation, 0), Some(Vec::new()));
    assert_eq!(estimate_rule_cost("invalid >=", &schema, 0), Some(Vec::new()));
    assert!(check_rule_scope("invalid >=", ScopeContext::CrdValidation).is_empty());
}

#[test]
fn missing_bounds_warning() {
    let schema = compiled(r#"{"type": "object", "properties": {"items": {"type": "array", "items": {"type": "string"}}}}"#);
    let warnings = rule_cost("self.items.all(item, item.size() > 0)", &schema);
    assert!(warnings.iter().any(|w| w.kind == WarningKind::MissingBounds));
}

// Exact values of the cost model.

#[test]
fn cost_values() {
    let schema = compiled(r#"{"type": "object", "properties": {"items": {"type": "array", "maxItems": 10, "items": {"type": "string"}}}}"#);
    assert_eq!(find_max_items(&schema), 10);
    assert_eq!(find_max_length(&schema), 1000);
    // step: 1 (&&) + 1 (other) + [1 (>) + (1 (size) + 1 (target)) + 1] = 6; times 10 items.
    assert_eq!(estimate_expr_cost(&all_items_nonempty(), &schema, 100), Some(60));
    assert_eq!(estimate_expr_cost(&x_at_least_zero(), &schema, 100), Some(4));
    let traverse = call("contains", Some(CostExpr::Other), vec![CostExpr::Other]);
    assert_eq!(estimate_expr_cost(&traverse, &schema, 100), Some(103));
    assert_eq!(estimate_expr_cost(&CostExpr::List(vec![]), &schema, 100), Some(1));
}

#[test]
fn over_budget_message() {
    let schema = compiled(r#"{"type": "object", "properties": {"items": {"type": "array", "maxItems": 2000000, "items": {"type": "string"}}}}"#);
    let warnings = cost_warnings("r", &all_items_nonempty(), &schema, 0);
    assert_eq!(warnings.len(), 1);
    assert_eq!(warnings[0].kind, WarningKind::CostExceeded);
    assert_eq!(
        warnings[0].message,
        "estimated cost 12000000 exceeds K8s budget 1000000; consider adding maxItems/maxLength to schema bounds"
    );
}

#[test]
fn scope_variables_and_traversals() {
    assert_eq!(valid_variables(ScopeContext::CrdValidation), vec!["self", "oldSelf", "apiVersion", "apiGroup", "kind"]);
    assert!(valid_variables(ScopeContext::AdmissionPolicy).contains(&"request"));
    assert!(is_string_traversal("lastIndexOf"));
    assert!(!is_string_traversal("size"));
}
