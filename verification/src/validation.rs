//! Validation errors, field paths, and what one rule's outcome reports.
//!
//! A rule runs at a schema node against the value found there; how its
//! outcome (and a failed compilation) becomes a [`ValidationError`] is
//! decided here.
use vstd::prelude::*;
use crate::compilation::{
    CompilationError, CompilationResult, Rule, compilation_error_text, copy_opt,
};
use crate::json::{Json, JsonV, ev, lemma_jv_unfold};
use crate::text::{chars_of, dec_digits, push_decimal, push_str, string_of};

verus! {

/// CRD-level context variables bound at the root schema node
/// (`apiVersion`, `apiGroup`, `kind`).
#[derive(Clone, Debug, Default)]
pub struct RootContext {
    /// CRD API version (e.g., `"apps/v1"`).
    pub api_version: String,
    /// CRD API group (e.g., `"apps"`); empty for core resources.
    pub api_group: String,
    /// CRD kind (e.g., `"Deployment"`).
    pub kind: String,
}

/// The kind of error that occurred during validation.
#[derive(Clone, Copy, Debug, PartialEq, Eq, Structural)]
pub enum ErrorKind {
    /// CEL expression syntax error.
    CompilationFailure,
    /// Malformed rule definition.
    InvalidRule,
    /// Rule evaluated to `false`.
    ValidationFailure,
    /// Rule returned a non-bool value.
    InvalidResult,
    /// Runtime evaluation error.
    EvaluationError,
    /// The schema nests deeper than the compiler follows.
    SchemaTooDeep,
    /// The rule names a variable, function or macro that the evaluator does
    /// not declare (a CEL feature it lacks), so the rule could not be judged.
    UnsupportedReference,
}

/// An error produced when a CEL validation rule fails.
#[derive(Clone, Debug, PartialEq, Eq)]
pub struct ValidationError {
    /// The CEL expression that failed.
    pub rule: String,
    /// Human-readable error message.
    pub message: String,
    /// Path to the field (e.g., `"spec.replicas"`).
    pub field_path: String,
    /// Machine-readable reason (e.g., `"FieldValueInvalid"`).
    pub reason: Option<String>,
    /// Classification of the error.
    pub kind: ErrorKind,
}

/// The content of a [`ValidationError`].
pub struct ErrorView {
    pub rule: Seq<char>,
    pub message: Seq<char>,
    pub field_path: Seq<char>,
    pub reason: Option<Seq<char>>,
    pub kind: ErrorKind,
}

/// The text of an optional string.
pub open spec fn opt_text(o: Option<String>) -> Option<Seq<char>> {
    match o {
        Some(s) => Some(s@),
        None => None,
    }
}

impl View for ValidationError {
    type V = ErrorView;

    open spec fn view(&self) -> ErrorView {
        ErrorView {
            rule: self.rule@,
            message: self.message@,
            field_path: self.field_path@,
            reason: opt_text(self.reason),
            kind: self.kind,
        }
    }
}

/// The contents of a list of errors.
pub open spec fn errs(v: Seq<ValidationError>) -> Seq<ErrorView> {
    v.map_values(|e: ValidationError| e@)
}

/// How an error reads: the message, after `path: ` when there is a path.
pub open spec fn error_text(path: Seq<char>, message: Seq<char>) -> Seq<char> {
    if path.len() == 0 {
        message
    } else {
        path + ": "@ + message
    }
}

impl ValidationError {
    /// The error as text: `"spec.replicas: must be non-negative"`, or the bare
    /// message when the field path is empty.
    pub fn to_string(&self) -> (r: String)
        ensures
            r@ == error_text(self.field_path@, self.message@),
    {
        if self.field_path.as_str().is_empty() {
            return self.message.clone();
        }
        let mut r = self.field_path.clone();
        push_str(&mut r, ": ");
        push_str(&mut r, self.message.as_str());
        r
    }
}

// ---------------------------------------------------------------------------
// Paths
// ---------------------------------------------------------------------------

/// `base.segment`, or `segment` at the root.
pub open spec fn joined(base: Seq<char>, segment: Seq<char>) -> Seq<char> {
    if base.len() == 0 {
        segment
    } else {
        base + "."@ + segment
    }
}

/// `base[index]`.
pub open spec fn indexed(base: Seq<char>, index: nat) -> Seq<char> {
    base + "["@ + dec_digits(index) + "]"@
}

/// Where a failing rule reports: a rule's `fieldPath` starting with `.` is
/// appended to the node's path as is; another is joined with a `.`; without
/// one, the node's path.
pub open spec fn effective(base: Seq<char>, field_path: Option<Seq<char>>) -> Seq<char> {
    match field_path {
        Some(fp) => if fp.len() > 0 && fp[0] == '.' {
            base + fp
        } else {
            joined(base, fp)
        },
        None => base,
    }
}

/// The path of the child `segment` under `base`.
pub fn join_path(base: &str, segment: &str) -> (r: String)
    ensures
        r@ == joined(base@, segment@),
{
    if base.is_empty() {
        return string_of(segment);
    }
    let mut r = string_of(base);
    push_str(&mut r, ".");
    push_str(&mut r, segment);
    r
}

/// The path of the item at `index` under `base`.
pub fn join_path_index(base: &str, index: usize) -> (r: String)
    ensures
        r@ == indexed(base@, index as nat),
{
    let mut r = string_of(base);
    push_str(&mut r, "[");
    push_decimal(&mut r, index as u128);
    push_str(&mut r, "]");
    r
}

/// The path a rule's error is reported at (see [`effective`]).
pub fn effective_path(base_path: &str, rule_field_path: Option<&str>) -> (r: String)
    ensures
        r@ == effective(
            base_path@,
            match rule_field_path {
                Some(f) => Some(f@),
                None => None,
            },
        ),
{
    match rule_field_path {
        Some(fp) => {
            let cs = chars_of(fp);
            if cs.len() > 0 && cs[0] == '.' {
                let mut r = string_of(base_path);
                push_str(&mut r, fp);
                r
            } else {
                join_path(base_path, fp)
            }
        },
        None => string_of(base_path),
    }
}

// ---------------------------------------------------------------------------
// From a rule's outcome to an error
// ---------------------------------------------------------------------------

/// What running a rule's program gave.
#[derive(Debug)]
pub enum RuleOutcome {
    /// The rule evaluated to `true`.
    Passed,
    /// The rule evaluated to `false`; carries the string that the message
    /// expression produced, when it ran and produced one.
    Failed(Option<String>),
    /// The rule evaluated to something other than a boolean.
    NotBool,
    /// Evaluation failed; carries the error text.
    Error(String),
    /// Evaluation failed on a reference the evaluator does not declare;
    /// carries the error text.
    Unsupported(String),
}

/// Whether a compiled rule runs: a transition rule (one that reads
/// `oldSelf`) needs an old value, unless `optionalOldSelf` is true.
pub open spec fn rule_runs(cr: CompilationResult, has_old: bool) -> bool {
    !(cr.is_transition_rule && !has_old && cr.rule.optional_old_self != Some(true))
}

/// Whether the rule runs with `oldSelf` bound to null: no old value and
/// `optionalOldSelf` true.
pub open spec fn null_old_self(cr: CompilationResult, has_old: bool) -> bool {
    !has_old && cr.rule.optional_old_self == Some(true)
}

/// Whether the rule runs (see [`rule_runs`]).
pub fn runs(cr: &CompilationResult, has_old: bool) -> (r: bool)
    ensures
        r == rule_runs(*cr, has_old),
{
    let optional = match cr.rule.optional_old_self {
        Some(b) => b,
        None => false,
    };
    !(cr.is_transition_rule && !has_old && !optional)
}

/// Whether `oldSelf` is bound to null (see [`null_old_self`]).
pub fn binds_null_old_self(cr: &CompilationResult, has_old: bool) -> (r: bool)
    ensures
        r == null_old_self(*cr, has_old),
{
    let optional = match cr.rule.optional_old_self {
        Some(b) => b,
        None => false,
    };
    !has_old && optional
}

/// Whether the root variables (`apiVersion`, `apiGroup`, `kind`) are bound
/// at a stop: at the root path, when the walk carries the root context.
pub fn binds_root(path: &str, root: bool) -> (r: bool)
    ensures
        r == (path@.len() == 0 && root),
{
    path.is_empty() && root
}

/// The message of a failed rule: the message expression's string, else the
/// static message, else `failed rule: <rule>`.
pub open spec fn failure_message(rule: Rule, from_expr: Option<Seq<char>>) -> Seq<char> {
    match from_expr {
        Some(m) => m,
        None => match rule.message {
            Some(m) => m@,
            None => "failed rule: "@ + rule.rule@,
        },
    }
}

/// The error that an outcome of `rule` reports at node path `path`.
pub open spec fn outcome_error(rule: Rule, path: Seq<char>, outcome: RuleOutcome) -> Option<ErrorView> {
    let at = effective(path, opt_text(rule.field_path));
    match outcome {
        RuleOutcome::Passed => None,
        RuleOutcome::Failed(m) => Some(
            ErrorView {
                rule: rule.rule@,
                message: failure_message(rule, opt_text(m)),
                field_path: at,
                reason: opt_text(rule.reason),
                kind: ErrorKind::ValidationFailure,
            },
        ),
        RuleOutcome::NotBool => Some(
            ErrorView {
                rule: rule.rule@,
                message: "rule \""@ + rule.rule@ + "\" did not evaluate to bool"@,
                field_path: at,
                reason: None,
                kind: ErrorKind::InvalidResult,
            },
        ),
        RuleOutcome::Error(e) => Some(
            ErrorView {
                rule: rule.rule@,
                message: "rule evaluation error: "@ + e@,
                field_path: at,
                reason: None,
                kind: ErrorKind::EvaluationError,
            },
        ),
        RuleOutcome::Unsupported(e) => Some(
            ErrorView {
                rule: rule.rule@,
                message: "rule evaluation error: "@ + e@,
                field_path: at,
                reason: None,
                kind: ErrorKind::UnsupportedReference,
            },
        ),
    }
}

/// The error that a rule which did not compile reports at `path`.
pub open spec fn compile_error_view(e: CompilationError, path: Seq<char>) -> ErrorView {
    match e {
        CompilationError::Parse { rule, source } => ErrorView {
            rule: rule@,
            message: "failed to compile rule \""@ + rule@ + "\": "@ + source@,
            field_path: path,
            reason: None,
            kind: ErrorKind::CompilationFailure,
        },
        CompilationError::InvalidRule(m) => ErrorView {
            rule: Seq::empty(),
            message: "invalid rule definition: "@ + m@,
            field_path: path,
            reason: None,
            kind: ErrorKind::InvalidRule,
        },
        CompilationError::SchemaTooDeep { depth } => ErrorView {
            rule: Seq::empty(),
            message: compilation_error_text(e),
            field_path: path,
            reason: None,
            kind: ErrorKind::SchemaTooDeep,
        },
    }
}

/// The message of a failed rule (see [`failure_message`]).
pub fn resolve_message(rule: &Rule, from_expr: &Option<String>) -> (r: String)
    ensures
        r@ == failure_message(*rule, opt_text(*from_expr)),
{
    match from_expr {
        Some(m) => m.clone(),
        None => match &rule.message {
            Some(m) => m.clone(),
            None => {
                let mut r = string_of("failed rule: ");
                push_str(&mut r, rule.rule.as_str());
                r
            },
        },
    }
}

/// The error (if any) that the outcome of a compiled rule reports at node
/// path `path`; `None` also when the rule does not run.
pub fn evaluate_rule(cr: &CompilationResult, has_old: bool, path: &str, outcome: &RuleOutcome) -> (r:
    Option<ValidationError>)
    ensures
        match r {
            Some(e) => rule_runs(*cr, has_old) && outcome_error(cr.rule, path@, *outcome) == Some(e@),
            None => !rule_runs(*cr, has_old) || outcome_error(cr.rule, path@, *outcome) is None,
        },
{
    if !runs(cr, has_old) {
        return None;
    }
    let rule = &cr.rule;
    let at = match &rule.field_path {
        Some(fp) => effective_path(path, Some(fp.as_str())),
        None => effective_path(path, None),
    };
    match outcome {
        RuleOutcome::Passed => None,
        RuleOutcome::Failed(m) => Some(
            ValidationError {
                rule: rule.rule.clone(),
                message: resolve_message(rule, m),
                field_path: at,
                reason: copy_opt(&rule.reason),
                kind: ErrorKind::ValidationFailure,
            },
        ),
        RuleOutcome::NotBool => {
            let mut msg = string_of("rule \"");
            push_str(&mut msg, rule.rule.as_str());
            push_str(&mut msg, "\" did not evaluate to bool");
            Some(
                ValidationError {
                    rule: rule.rule.clone(),
                    message: msg,
                    field_path: at,
                    reason: None,
                    kind: ErrorKind::InvalidResult,
                },
            )
        },
        RuleOutcome::Error(e) => {
            let mut msg = string_of("rule evaluation error: ");
            push_str(&mut msg, e.as_str());
            Some(
                ValidationError {
                    rule: rule.rule.clone(),
                    message: msg,
                    field_path: at,
                    reason: None,
                    kind: ErrorKind::EvaluationError,
                },
            )
        },
        RuleOutcome::Unsupported(e) => {
            let mut msg = string_of("rule evaluation error: ");
            push_str(&mut msg, e.as_str());
            Some(
                ValidationError {
                    rule: rule.rule.clone(),
                    message: msg,
                    field_path: at,
                    reason: None,
                    kind: ErrorKind::UnsupportedReference,
                },
            )
        },
    }
}

/// The error that a rule which did not compile reports at `path`.
pub fn compilation_failure(e: &CompilationError, path: &str) -> (r: ValidationError)
    ensures
        r@ == compile_error_view(*e, path@),
{
    match e {
        CompilationError::Parse { rule, source } => {
            let mut msg = string_of("failed to compile rule \"");
            push_str(&mut msg, rule.as_str());
            push_str(&mut msg, "\": ");
            push_str(&mut msg, source.as_str());
            ValidationError {
                rule: rule.clone(),
                message: msg,
                field_path: string_of(path),
                reason: None,
                kind: ErrorKind::CompilationFailure,
            }
        },
        CompilationError::InvalidRule(m) => {
            let mut msg = string_of("invalid rule definition: ");
            push_str(&mut msg, m.as_str());
            ValidationError {
                rule: String::new(),
                message: msg,
                field_path: string_of(path),
                reason: None,
                kind: ErrorKind::InvalidRule,
            }
        },
        CompilationError::SchemaTooDeep { .. } => ValidationError {
            rule: String::new(),
            message: e.message(),
            field_path: string_of(path),
            reason: None,
            kind: ErrorKind::SchemaTooDeep,
        },
    }
}

/// The errors of one node's rules, the first `n` of them: a compile error
/// for each rule that did not compile, and for each rule that runs, what
/// its outcome reports.
pub open spec fn node_errors(
    results: Seq<Result<CompilationResult, CompilationError>>,
    has_old: bool,
    path: Seq<char>,
    outcomes: Seq<Option<RuleOutcome>>,
    n: nat,
) -> Seq<ErrorView>
    decreases n,
{
    if n == 0 || n > results.len() {
        Seq::empty()
    } else {
        node_errors(results, has_old, path, outcomes, (n - 1) as nat) + match results[n - 1] {
            Ok(cr) => if rule_runs(cr, has_old) {
                match outcomes[n - 1] {
                    Some(o) => match outcome_error(cr.rule, path, o) {
                        Some(e) => seq![e],
                        None => Seq::empty(),
                    },
                    None => Seq::empty(),
                }
            } else {
                Seq::empty()
            },
            Err(e) => seq![compile_error_view(e, path)],
        }
    }
}

/// The errors that one node's rules report at `path`, given the outcome of
/// each rule that runs (`outcomes[i]` for `results[i]`).
pub fn evaluate_compiled_results(
    results: &Vec<Result<CompilationResult, CompilationError>>,
    has_old: bool,
    path: &str,
    outcomes: &Vec<Option<RuleOutcome>>,
) -> (r: Vec<ValidationError>)
    requires
        outcomes@.len() == results@.len(),
    ensures
        errs(r@) == node_errors(results@, has_old, path@, outcomes@, results@.len()),
{
    let mut out: Vec<ValidationError> = Vec::new();
    let mut i: usize = 0;
    while i < results.len()
        invariant
            i <= results@.len(),
            outcomes@.len() == results@.len(),
            errs(out@) == node_errors(results@, has_old, path@, outcomes@, i as nat),
        decreases results@.len() - i,
    {
        let ghost before = out@;
        match &results[i] {
            Ok(cr) => {
                match &outcomes[i] {
                    Some(o) => {
                        match evaluate_rule(cr, has_old, path, o) {
                            Some(e) => {
                                out.push(e);
                            },
                            None => {},
                        }
                    },
                    None => {},
                }
            },
            Err(e) => {
                out.push(compilation_failure(e, path));
            },
        }
        i = i + 1;
        proof {
            assert(errs(out@) =~= node_errors(results@, has_old, path@, outcomes@, i as nat));
        }
    }
    out
}

// ---------------------------------------------------------------------------
// Embedded resources
// ---------------------------------------------------------------------------

/// Whether an object's content has an entry with key `k`.
pub open spec fn has_key(e: Seq<(Seq<char>, JsonV)>, k: Seq<char>) -> bool {
    exists|i: int| 0 <= i < e.len() && (#[trigger] e[i]).0 == k
}

/// `e` with the entry `(k, v)` added at the end when it has no entry `k`.
pub open spec fn add_missing(e: Seq<(Seq<char>, JsonV)>, k: Seq<char>, v: JsonV) -> Seq<(Seq<char>, JsonV)> {
    if has_key(e, k) {
        e
    } else {
        e.push((k, v))
    }
}

/// What a rule sees of an embedded resource: an object gets `apiVersion`
/// and `kind` (empty strings) and `metadata` (an empty object) where it
/// lacks them; any other value is left as it is.
pub open spec fn embedded_view(v: JsonV) -> JsonV {
    match v {
        JsonV::Object(e) => JsonV::Object(
            add_missing(
                add_missing(add_missing(e, "apiVersion"@, JsonV::Str(Seq::empty())), "kind"@, JsonV::Str(Seq::empty())),
                "metadata"@,
                JsonV::Object(Seq::empty()),
            ),
        ),
        _ => v,
    }
}

fn has_key_exec(o: &Vec<(String, Json)>, key: &str) -> (r: bool)
    ensures
        r == has_key(ev(o@), key@),
{
    let mut i: usize = 0;
    while i < o.len()
        invariant
            i <= o@.len(),
            forall|k: int| 0 <= k < i ==> (#[trigger] ev(o@)[k]).0 != key@,
        decreases o@.len() - i,
    {
        if crate::text::str_eq(o[i].0.as_str(), key) {
            assert(ev(o@)[i as int].0 == key@);
            return true;
        }
        i = i + 1;
    }
    false
}

fn push_missing(o: &mut Vec<(String, Json)>, key: &str, v: Json)
    ensures
        ev(final(o)@) == add_missing(ev(old(o)@), key@, v@),
{
    if !has_key_exec(o, key) {
        let ghost before = ev(o@);
        o.push((string_of(key), v));
        proof {
            assert(ev(o@) =~= before.push((key@, v@)));
        }
    }
}

/// The value a rule sees at a node marked `x-kubernetes-embedded-resource`
/// (see [`embedded_view`]).
pub fn with_embedded_fields(v: &Json) -> (r: Json)
    ensures
        r@ == embedded_view(v@),
{
    proof {
        lemma_jv_unfold(*v);
    }
    let c = v.deep_clone();
    proof {
        lemma_jv_unfold(c);
    }
    match c {
        Json::Object(mut o) => {
            let ghost start = ev(o@);
            assert(v@ == JsonV::Object(start));
            let e1 = String::new();
            let e2 = String::new();
            proof {
                assert(e1@ =~= Seq::<char>::empty());
                assert(e2@ =~= Seq::<char>::empty());
            }
            let no_entries: Vec<(String, Json)> = Vec::new();
            proof {
                assert(ev(no_entries@) =~= Seq::empty());
            }
            let empty_obj = Json::Object(no_entries);
            proof {
                lemma_jv_unfold(empty_obj);
            }
            push_missing(&mut o, "apiVersion", Json::Str(e1));
            push_missing(&mut o, "kind", Json::Str(e2));
            push_missing(&mut o, "metadata", empty_obj);
            let r = Json::Object(o);
            proof {
                lemma_jv_unfold(r);
            }
            r
        },
        other => other,
    }
}

} // verus!
