//! Static checks of CEL validation rules: which variables a rule may use,
//! and a coarse cost estimate against the Kubernetes budget.
use vstd::prelude::*;
use crate::cel_bridge::{cel_cost_tree, cel_parse_outcome, cel_variables, compile_program, program_cost_tree, program_variables};
use crate::compilation::CompiledSchema;
use crate::text::{dec_digits, push_decimal, push_str, str_eq, string_of};

verus! {

/// The context in which a CEL rule is evaluated.
#[derive(Clone, Copy, Debug, PartialEq, Eq, Structural)]
pub enum ScopeContext {
    /// CRD `x-kubernetes-validations`: `self`, `oldSelf` and the root variables.
    CrdValidation,
    /// ValidatingAdmissionPolicy: `object`, `oldObject`, `request`, `params`, ...
    AdmissionPolicy,
}

/// The kind of a warning.
#[derive(Clone, Copy, Debug, PartialEq, Eq, Structural)]
pub enum WarningKind {
    /// A variable that the scope does not provide.
    WrongScope,
    /// The estimated cost may exceed the Kubernetes budget.
    CostExceeded,
    /// Schema bounds are missing (the estimate assumes the worst case).
    MissingBounds,
}

/// A warning produced by static analysis.
#[derive(Clone, Debug, PartialEq, Eq)]
pub struct AnalysisWarning {
    pub rule: String,
    pub message: String,
    pub kind: WarningKind,
}

/// The content of a warning.
pub open spec fn warning_view(w: AnalysisWarning) -> (Seq<char>, Seq<char>, WarningKind) {
    (w.rule@, w.message@, w.kind)
}

/// The content of a list of warnings.
pub open spec fn warnings_view(v: Seq<AnalysisWarning>) -> Seq<(Seq<char>, Seq<char>, WarningKind)> {
    v.map_values(|w: AnalysisWarning| warning_view(w))
}

/// The variables available in a scope.
pub open spec fn valid_vars(scope: ScopeContext) -> Seq<Seq<char>> {
    match scope {
        ScopeContext::CrdValidation => seq!["self"@, "oldSelf"@, "apiVersion"@, "apiGroup"@, "kind"@],
        ScopeContext::AdmissionPolicy => seq![
            "self"@,
            "oldSelf"@,
            "object"@,
            "oldObject"@,
            "request"@,
            "params"@,
            "namespaceObject"@,
            "authorizer"@,
            "variables"@,
        ],
    }
}

/// The variables available in a scope, in order.
pub fn valid_variables(scope: ScopeContext) -> (r: Vec<&'static str>)
    ensures
        r@.len() == valid_vars(scope).len(),
        forall|i: int| 0 <= i < r@.len() ==> (#[trigger] r@[i])@ == valid_vars(scope)[i],
{
    match scope {
        ScopeContext::CrdValidation => {
            let r = vec!["self", "oldSelf", "apiVersion", "apiGroup", "kind"];
            r
        },
        ScopeContext::AdmissionPolicy => {
            let r = vec![
                "self",
                "oldSelf",
                "object",
                "oldObject",
                "request",
                "params",
                "namespaceObject",
                "authorizer",
                "variables",
            ];
            r
        },
    }
}

/// The scope's name as its debug form prints it.
pub open spec fn scope_name(scope: ScopeContext) -> Seq<char> {
    match scope {
        ScopeContext::CrdValidation => "CrdValidation"@,
        ScopeContext::AdmissionPolicy => "AdmissionPolicy"@,
    }
}

/// The debug form of the scope's variable list.
pub open spec fn valid_list_text(scope: ScopeContext) -> Seq<char> {
    match scope {
        ScopeContext::CrdValidation => "[\"self\", \"oldSelf\", \"apiVersion\", \"apiGroup\", \"kind\"]"@,
        ScopeContext::AdmissionPolicy => "[\"self\", \"oldSelf\", \"object\", \"oldObject\", \"request\", \"params\", \"namespaceObject\", \"authorizer\", \"variables\"]"@,
    }
}

/// The message for a variable used outside its scope.
pub open spec fn scope_message(var: Seq<char>, scope: ScopeContext) -> Seq<char> {
    "variable '"@ + var + "' is not available in "@ + scope_name(scope) + " context; valid variables: "@
        + valid_list_text(scope)
}

/// The warnings for the first `n` of `vars`: one per variable that the
/// scope does not provide, in order.
pub open spec fn scope_warnings_view(rule: Seq<char>, vars: Seq<Seq<char>>, scope: ScopeContext, n: nat) -> Seq<(Seq<char>, Seq<char>, WarningKind)>
    decreases n,
{
    if n == 0 || n > vars.len() {
        Seq::empty()
    } else {
        scope_warnings_view(rule, vars, scope, (n - 1) as nat) + if valid_vars(scope).contains(vars[n - 1]) {
            Seq::empty()
        } else {
            seq![(rule, scope_message(vars[n - 1], scope), WarningKind::WrongScope)]
        }
    }
}

/// The text of a list of strings.
pub open spec fn texts(v: Seq<String>) -> Seq<Seq<char>> {
    v.map_values(|s: String| s@)
}

fn is_valid_var(var: &str, scope: ScopeContext) -> (r: bool)
    ensures
        r == valid_vars(scope).contains(var@),
{
    let valid = valid_variables(scope);
    let mut i: usize = 0;
    while i < valid.len()
        invariant
            i <= valid@.len(),
            valid@.len() == valid_vars(scope).len(),
            forall|k: int| 0 <= k < valid@.len() ==> (#[trigger] valid@[k])@ == valid_vars(scope)[k],
            forall|k: int| 0 <= k < i ==> valid_vars(scope)[k] != var@,
        decreases valid@.len() - i,
    {
        if str_eq(valid[i], var) {
            proof {
                assert(valid_vars(scope)[i as int] == var@);
            }
            return true;
        }
        i = i + 1;
    }
    false
}

fn scope_message_exec(var: &str, scope: ScopeContext) -> (r: String)
    ensures
        r@ == scope_message(var@, scope),
{
    let mut m = string_of("variable '");
    push_str(&mut m, var);
    push_str(&mut m, "' is not available in ");
    match scope {
        ScopeContext::CrdValidation => {
            push_str(&mut m, "CrdValidation");
            push_str(&mut m, " context; valid variables: ");
            push_str(&mut m, "[\"self\", \"oldSelf\", \"apiVersion\", \"apiGroup\", \"kind\"]");
        },
        ScopeContext::AdmissionPolicy => {
            push_str(&mut m, "AdmissionPolicy");
            push_str(&mut m, " context; valid variables: ");
            push_str(
                &mut m,
                "[\"self\", \"oldSelf\", \"object\", \"oldObject\", \"request\", \"params\", \"namespaceObject\", \"authorizer\", \"variables\"]",
            );
        },
    }
    proof {
        assert(m@ =~= scope_message(var@, scope));
    }
    m
}

/// One warning per variable of `vars` that `scope` does not provide.
pub fn scope_warnings(rule: &str, vars: &Vec<String>, scope: ScopeContext) -> (r: Vec<AnalysisWarning>)
    ensures
        warnings_view(r@) == scope_warnings_view(rule@, texts(vars@), scope, vars@.len()),
{
    let mut out: Vec<AnalysisWarning> = Vec::new();
    let mut i: usize = 0;
    while i < vars.len()
        invariant
            i <= vars@.len(),
            warnings_view(out@) == scope_warnings_view(rule@, texts(vars@), scope, i as nat),
        decreases vars@.len() - i,
    {
        let ghost before = out@;
        let var = vars[i].as_str();
        if !is_valid_var(var, scope) {
            out.push(AnalysisWarning { rule: string_of(rule), message: scope_message_exec(var, scope), kind: WarningKind::WrongScope });
        }
        i = i + 1;
        proof {
            assert(texts(vars@)[i - 1] == vars@[i - 1]@);
            assert(warnings_view(out@) =~= scope_warnings_view(rule@, texts(vars@), scope, i as nat));
        }
    }
    out
}

/// `names` lists the set `vars`, each member once, in some order.
pub open spec fn lists(names: Seq<Seq<char>>, vars: Set<Seq<char>>) -> bool {
    &&& names.no_duplicates()
    &&& forall|v: Seq<char>| vars.contains(v) <==> names.contains(v)
}

/// Distinct names that hold exactly the members of a set list it.
proof fn lemma_texts_list(vars: Seq<String>, set: Set<Seq<char>>)
    requires
        forall|i: int, j: int| 0 <= i < j < vars.len() ==> vars[i]@ != vars[j]@,
        forall|v: Seq<char>| set.contains(v) <==> exists|i: int| 0 <= i < vars.len() && vars[i]@ == v,
    ensures
        lists(texts(vars), set),
{
    let names = texts(vars);
    assert forall|i: int, j: int| 0 <= i < names.len() && 0 <= j < names.len() && i != j implies names[i]
        != names[j] by {
        if i < j {
            assert(vars[i]@ != vars[j]@);
        } else {
            assert(vars[j]@ != vars[i]@);
        }
    }
    assert forall|v: Seq<char>| set.contains(v) <==> names.contains(v) by {
        if set.contains(v) {
            let i = choose|i: int| 0 <= i < vars.len() && vars[i]@ == v;
            assert(names[i] == v);
        }
        if names.contains(v) {
            let i = choose|i: int| 0 <= i < names.len() && names[i] == v;
            assert(vars[i]@ == v);
        }
    }
}

/// Checks a rule for variables that `scope` does not provide: none when the
/// rule does not compile, else one warning per variable that the rule
/// references and `scope` lacks, taking the rule's variables in the order
/// the compiled program lists them.
pub fn check_rule_scope(rule: &str, scope: ScopeContext) -> (r: Vec<AnalysisWarning>)
    ensures
        cel_parse_outcome(rule@) is Some ==> r@.len() == 0,
        cel_parse_outcome(rule@) is None ==> exists|names: Seq<Seq<char>>|
            #[trigger] lists(names, cel_variables(rule@))
                && warnings_view(r@) == scope_warnings_view(rule@, names, scope, names.len()),
{
    match compile_program(rule) {
        Err(_) => Vec::new(),
        Ok(p) => {
            let vars = program_variables(&p);
            let r = scope_warnings(rule, &vars, scope);
            proof {
                lemma_texts_list(vars@, cel_variables(rule@));
            }
            r
        },
    }
}

// ---------------------------------------------------------------------------
// Cost estimation
// ---------------------------------------------------------------------------

/// The shape of a compiled CEL expression, as far as the cost estimate reads it.
#[derive(Debug)]
pub enum CostExpr {
    /// A comprehension (`all`, `exists`, `map`, ...); carries its loop step.
    Comprehension(Box<CostExpr>),
    /// A function call: its name, its target (for a method), its arguments.
    Call { func: String, target: Option<Box<CostExpr>>, args: Vec<CostExpr> },
    /// A field selection; carries its operand.
    Select(Box<CostExpr>),
    /// A list literal; carries its elements.
    List(Vec<CostExpr>),
    /// Anything else (literals, identifiers, ...).
    Other,
}

/// The functions that traverse a string.
pub open spec fn traversal_names() -> Seq<Seq<char>> {
    seq![
        "contains"@,
        "startsWith"@,
        "endsWith"@,
        "matches"@,
        "find"@,
        "findAll"@,
        "replace"@,
        "split"@,
        "indexOf"@,
        "lastIndexOf"@,
    ]
}

/// Whether `func` traverses a string (its cost grows with the string's length).
pub fn is_string_traversal(func: &str) -> (r: bool)
    ensures
        r == traversal_names().contains(func@),
{
    let names = [
        "contains",
        "startsWith",
        "endsWith",
        "matches",
        "find",
        "findAll",
        "replace",
        "split",
        "indexOf",
        "lastIndexOf",
    ];
    let mut i: usize = 0;
    while i < 10
        invariant
            i <= 10,
            names@.len() == 10,
            forall|k: int| 0 <= k < 10 ==> (#[trigger] names@[k])@ == traversal_names()[k],
            forall|k: int| 0 <= k < i ==> traversal_names()[k] != func@,
        decreases 10 - i,
    {
        if str_eq(names[i], func) {
            proof {
                assert(traversal_names()[i as int] == func@);
            }
            return true;
        }
        i = i + 1;
    }
    false
}

/// The larger of `x` and 1.
pub open spec fn at_least_one(x: nat) -> nat {
    if x >= 1 {
        x
    } else {
        1
    }
}

/// The estimated cost of `e`: a comprehension costs the list size times its
/// step (at least 1); a call costs 1 plus its target and arguments, plus the
/// string cost when it traverses a string; a selection costs 1 plus its
/// operand; a list the sum of its elements (at least 1); anything else 1.
pub open spec fn cost_value(e: CostExpr, list_size: nat, string_cost: nat) -> nat
    decreases e, 1nat, 0nat,
{
    match e {
        CostExpr::Comprehension(b) => list_size * at_least_one(cost_value(*b, list_size, string_cost)),
        CostExpr::Call { func, target, args } => 1 + (if traversal_names().contains(func@) {
            string_cost
        } else {
            0
        }) + match target {
            Some(t) => cost_value(*t, list_size, string_cost),
            None => 0,
        } + args_cost(e, list_size, string_cost, args@.len()),
        CostExpr::Select(o) => 1 + cost_value(*o, list_size, string_cost),
        CostExpr::List(v) => at_least_one(args_cost(e, list_size, string_cost, v@.len())),
        CostExpr::Other => 1,
    }
}

/// The sum of the costs of the first `n` arguments of a call, or elements of a list.
pub open spec fn args_cost(e: CostExpr, list_size: nat, string_cost: nat, n: nat) -> nat
    decreases e, 0nat, n,
{
    match e {
        CostExpr::Call { args, .. } => if n == 0 || n > args@.len() {
            0
        } else {
            args_cost(e, list_size, string_cost, (n - 1) as nat) + cost_value(args@[n - 1], list_size, string_cost)
        },
        CostExpr::List(v) => if n == 0 || n > v@.len() {
            0
        } else {
            args_cost(e, list_size, string_cost, (n - 1) as nat) + cost_value(v@[n - 1], list_size, string_cost)
        },
        _ => 0,
    }
}

/// Whether computing the cost of `e` in `u64` arithmetic never overflows:
/// every part fits, and so does the whole.
pub open spec fn cost_fits(e: CostExpr, list_size: nat, string_cost: nat) -> bool
    decreases e, 1nat, 0nat,
{
    &&& cost_value(e, list_size, string_cost) <= u64::MAX
    &&& match e {
        CostExpr::Comprehension(b) => cost_fits(*b, list_size, string_cost),
        CostExpr::Call { target, args, .. } => (match target {
            Some(t) => cost_fits(*t, list_size, string_cost),
            None => true,
        }) && args_fit(e, list_size, string_cost, args@.len()),
        CostExpr::Select(o) => cost_fits(*o, list_size, string_cost),
        CostExpr::List(v) => args_fit(e, list_size, string_cost, v@.len()),
        CostExpr::Other => true,
    }
}

/// Whether the first `n` arguments (or elements) fit, and so does their sum.
pub open spec fn args_fit(e: CostExpr, list_size: nat, string_cost: nat, n: nat) -> bool
    decreases e, 0nat, n,
{
    &&& args_cost(e, list_size, string_cost, n) <= u64::MAX
    &&& match e {
        CostExpr::Call { args, .. } => n == 0 || n > args@.len() || (args_fit(e, list_size, string_cost, (n - 1) as nat)
            && cost_fits(args@[n - 1], list_size, string_cost)),
        CostExpr::List(v) => n == 0 || n > v@.len() || (args_fit(e, list_size, string_cost, (n - 1) as nat)
            && cost_fits(v@[n - 1], list_size, string_cost)),
        _ => true,
    }
}

/// The default list size when no `maxItems` bounds it.
pub open spec fn items_bound(props: Seq<(String, CompiledSchema)>) -> nat
    decreases props.len(),
{
    if props.len() == 0 {
        1000
    } else if props[0].1.items is Some {
        match props[0].1.max_items {
            Some(m) => m as nat,
            None => 1000,
        }
    } else {
        items_bound(props.drop_first())
    }
}

/// The list size that the estimate assumes: the node's `maxItems`, else that
/// of its first array property (1000 without one), else 1000.
pub open spec fn max_items_of(schema: CompiledSchema) -> nat {
    match schema.max_items {
        Some(m) => m as nat,
        None => items_bound(schema.properties@),
    }
}

/// The first `maxLength` among properties (1000 when none has one).
pub open spec fn length_bound(props: Seq<(String, CompiledSchema)>) -> nat
    decreases props.len(),
{
    if props.len() == 0 {
        1000
    } else {
        match props[0].1.max_length {
            Some(m) => m as nat,
            None => length_bound(props.drop_first()),
        }
    }
}

/// The string length that the estimate assumes: the node's `maxLength`,
/// else the first property's, else 1000.
pub open spec fn max_length_of(schema: CompiledSchema) -> nat {
    match schema.max_length {
        Some(m) => m as nat,
        None => length_bound(schema.properties@),
    }
}

/// The list size the estimate assumes (see [`max_items_of`]).
pub fn find_max_items(schema: &CompiledSchema) -> (r: u64)
    ensures
        r == max_items_of(*schema),
{
    if let Some(max) = schema.max_items {
        return max;
    }
    let mut i: usize = 0;
    proof {
        assert(schema.properties@.skip(0) =~= schema.properties@);
    }
    while i < schema.properties.len()
        invariant
            i <= schema.properties@.len(),
            schema.max_items is None,
            items_bound(schema.properties@) == items_bound(schema.properties@.skip(i as int)),
        decreases schema.properties@.len() - i,
    {
        proof {
            assert(schema.properties@.skip(i as int)[0] == schema.properties@[i as int]);
            assert(schema.properties@.skip(i as int).drop_first() =~= schema.properties@.skip(i + 1));
        }
        let prop = &schema.properties[i].1;
        if prop.items.is_some() {
            return match prop.max_items {
                Some(m) => m,
                None => 1000,
            };
        }
        i = i + 1;
    }
    1000
}

/// The string length the estimate assumes (see [`max_length_of`]).
pub fn find_max_length(schema: &CompiledSchema) -> (r: u64)
    ensures
        r == max_length_of(*schema),
{
    if let Some(max) = schema.max_length {
        return max;
    }
    let mut i: usize = 0;
    proof {
        assert(schema.properties@.skip(0) =~= schema.properties@);
    }
    while i < schema.properties.len()
        invariant
            i <= schema.properties@.len(),
            schema.max_length is None,
            length_bound(schema.properties@) == length_bound(schema.properties@.skip(i as int)),
        decreases schema.properties@.len() - i,
    {
        proof {
            assert(schema.properties@.skip(i as int)[0] == schema.properties@[i as int]);
            assert(schema.properties@.skip(i as int).drop_first() =~= schema.properties@.skip(i + 1));
        }
        if let Some(m) = schema.properties[i].1.max_length {
            return m;
        }
        i = i + 1;
    }
    1000
}

/// The estimated cost of `expr` (see [`cost_value`]) with the list size of
/// `schema` and `string_cost` per string traversal; `None` when `u64`
/// arithmetic would overflow on the way.
pub fn estimate_expr_cost(expr: &CostExpr, schema: &CompiledSchema, string_cost: u64) -> (r: Option<u64>)
    ensures
        r is Some <==> cost_fits(*expr, max_items_of(*schema), string_cost as nat),
        r matches Some(c) ==> c == cost_value(*expr, max_items_of(*schema), string_cost as nat),
{
    let ls = find_max_items(schema);
    cost_of(expr, ls, string_cost)
}

fn cost_of(e: &CostExpr, ls: u64, sc: u64) -> (r: Option<u64>)
    ensures
        r is Some <==> cost_fits(*e, ls as nat, sc as nat),
        r matches Some(c) ==> c == cost_value(*e, ls as nat, sc as nat),
    decreases *e, 1nat,
{
    match e {
        CostExpr::Comprehension(b) => {
            let body = cost_of(b, ls, sc);
            match body {
                None => None,
                Some(bc) => {
                    let m: u64 = if bc >= 1 {
                        bc
                    } else {
                        1
                    };
                    ls.checked_mul(m)
                },
            }
        },
        CostExpr::Call { func, target, args } => {
            let tc = match target {
                Some(t) => cost_of(t, ls, sc),
                None => Some(0),
            };
            let ac = sum_costs(e, args, ls, sc);
            match (tc, ac) {
                (Some(tc), Some(ac)) => {
                    let extra: u64 = if is_string_traversal(func.as_str()) {
                        sc
                    } else {
                        0
                    };
                    match 1u64.checked_add(extra) {
                        None => None,
                        Some(x) => match x.checked_add(tc) {
                            None => None,
                            Some(y) => y.checked_add(ac),
                        },
                    }
                },
                _ => None,
            }
        },
        CostExpr::Select(o) => {
            match cost_of(o, ls, sc) {
                None => None,
                Some(c) => 1u64.checked_add(c),
            }
        },
        CostExpr::List(v) => {
            match sum_costs(e, v, ls, sc) {
                None => None,
                Some(c) => Some(
                    if c >= 1 {
                        c
                    } else {
                        1
                    },
                ),
            }
        },
        CostExpr::Other => Some(1),
    }
}

fn sum_costs(e: &CostExpr, items: &Vec<CostExpr>, ls: u64, sc: u64) -> (r: Option<u64>)
    requires
        (e matches CostExpr::Call { args, .. } && args == *items) || (e matches CostExpr::List(v) && v == *items),
    ensures
        r is Some <==> args_fit(*e, ls as nat, sc as nat, items@.len()),
        r matches Some(c) ==> c == args_cost(*e, ls as nat, sc as nat, items@.len()),
    decreases *e, 0nat,
{
    let mut total: u64 = 0;
    let mut i: usize = 0;
    while i < items.len()
        invariant
            i <= items@.len(),
            (e matches CostExpr::Call { args, .. } && args == *items) || (e matches CostExpr::List(v) && v == *items),
            args_fit(*e, ls as nat, sc as nat, i as nat),
            total == args_cost(*e, ls as nat, sc as nat, i as nat),
        decreases items@.len() - i,
    {
        proof {
            if e is Call {
                assert(decreases_to!(*e => e->args));
                assert(decreases_to!(e->args => items[i as int]));
            } else {
                assert(decreases_to!(*e => e->List_0));
                assert(decreases_to!(e->List_0 => items[i as int]));
            }
        }
        match cost_of(&items[i], ls, sc) {
            None => {
                proof {
                    if args_fit(*e, ls as nat, sc as nat, items@.len()) {
                        lemma_args_fit_prefix(*e, ls as nat, sc as nat, (i + 1) as nat, items@.len());
                    }
                }
                return None;
            },
            Some(c) => {
                match total.checked_add(c) {
                    None => {
                        proof {
                            if args_fit(*e, ls as nat, sc as nat, items@.len()) {
                                lemma_args_fit_prefix(*e, ls as nat, sc as nat, (i + 1) as nat, items@.len());
                            }
                        }
                        return None;
                    },
                    Some(t) => {
                        total = t;
                    },
                }
            },
        }
        i = i + 1;
    }
    Some(total)
}

/// When all of the first `m` arguments fit, so do the first `n <= m`.
proof fn lemma_args_fit_prefix(e: CostExpr, ls: nat, sc: nat, n: nat, m: nat)
    requires
        n <= m,
        m <= match e {
            CostExpr::Call { args, .. } => args@.len(),
            CostExpr::List(v) => v@.len(),
            _ => 0,
        },
        args_fit(e, ls, sc, m),
    ensures
        args_fit(e, ls, sc, n),
    decreases m - n,
{
    if n < m {
        lemma_args_fit_prefix(e, ls, sc, n, (m - 1) as nat);
    }
}

/// The Kubernetes cost budget of a rule.
pub const K8S_COST_BUDGET: u64 = 1_000_000;

/// The warning text for a cost over budget.
pub open spec fn cost_message(cost: nat) -> Seq<char> {
    "estimated cost "@ + dec_digits(cost)
        + " exceeds K8s budget 1000000; consider adding maxItems/maxLength to schema bounds"@
}

/// The warning text for an unbounded list.
pub open spec fn missing_bounds_message() -> Seq<char> {
    "list field has no maxItems bound; cost estimate uses worst-case default"@
}

/// Whether some property of the node is a list without `maxItems`.
pub open spec fn has_unbounded_list(schema: CompiledSchema) -> bool {
    exists|j: int|
        0 <= j < schema.properties@.len() && (#[trigger] schema.properties@[j]).1.items is Some
            && schema.properties@[j].1.max_items is None
}

/// The warnings of the bounds check: one when the rule is a comprehension
/// and the node has a list property without `maxItems`.
pub open spec fn bounds_warnings_view(rule: Seq<char>, expr: CostExpr, schema: CompiledSchema) -> Seq<(Seq<char>, Seq<char>, WarningKind)> {
    if expr is Comprehension && has_unbounded_list(schema) {
        seq![(rule, missing_bounds_message(), WarningKind::MissingBounds)]
    } else {
        Seq::empty()
    }
}

/// The warnings of the cost check: one when the estimate exceeds the
/// budget, then those of the bounds check.
pub open spec fn cost_warnings_view(rule: Seq<char>, expr: CostExpr, schema: CompiledSchema, string_cost: nat) -> Seq<(Seq<char>, Seq<char>, WarningKind)> {
    let cost = cost_value(expr, max_items_of(schema), string_cost);
    (if cost > 1_000_000 {
        seq![(rule, cost_message(cost), WarningKind::CostExceeded)]
    } else {
        Seq::empty()
    }) + bounds_warnings_view(rule, expr, schema)
}

/// Appends the bounds warning (see [`bounds_warnings_view`]).
pub fn check_missing_bounds(expr: &CostExpr, schema: &CompiledSchema, rule: &str, warnings: &mut Vec<AnalysisWarning>)
    ensures
        warnings_view(final(warnings)@) == warnings_view(old(warnings)@) + bounds_warnings_view(rule@, *expr, *schema),
{
    let is_comprehension = match expr {
        CostExpr::Comprehension(_) => true,
        _ => false,
    };
    let mut found = false;
    if is_comprehension {
        let mut j: usize = 0;
        while j < schema.properties.len()
            invariant
                j <= schema.properties@.len(),
                found ==> has_unbounded_list(*schema),
                !found ==> forall|k: int| 0 <= k < j ==> !((#[trigger] schema.properties@[k]).1.items is Some
                    && schema.properties@[k].1.max_items is None),
            decreases schema.properties@.len() - j,
        {
            let prop = &schema.properties[j].1;
            if prop.items.is_some() && prop.max_items.is_none() {
                proof {
                    assert(schema.properties@[j as int].1.items is Some);
                }
                found = true;
                j = schema.properties.len();
            } else {
                j = j + 1;
            }
        }
        proof {
            if !found {
                assert(!has_unbounded_list(*schema));
            }
        }
    }
    let ghost before = warnings@;
    if found {
        warnings.push(
            AnalysisWarning {
                rule: string_of(rule),
                message: string_of("list field has no maxItems bound; cost estimate uses worst-case default"),
                kind: WarningKind::MissingBounds,
            },
        );
    }
    proof {
        assert(found == (*expr is Comprehension && has_unbounded_list(*schema)));
        assert(warnings_view(warnings@) =~= warnings_view(before) + bounds_warnings_view(rule@, *expr, *schema));
    }
}

/// The cost warnings of a rule (see [`cost_warnings_view`]), for an
/// expression whose estimate fits `u64` arithmetic.
pub fn cost_warnings(rule: &str, expr: &CostExpr, schema: &CompiledSchema, string_cost: u64) -> (r: Vec<AnalysisWarning>)
    requires
        cost_fits(*expr, max_items_of(*schema), string_cost as nat),
    ensures
        warnings_view(r@) == cost_warnings_view(rule@, *expr, *schema, string_cost as nat),
{
    let mut out: Vec<AnalysisWarning> = Vec::new();
    let cost = match estimate_expr_cost(expr, schema, string_cost) {
        Some(c) => c,
        None => 0,
    };
    if cost > K8S_COST_BUDGET {
        let mut m = string_of("estimated cost ");
        push_decimal(&mut m, cost as u128);
        push_str(&mut m, " exceeds K8s budget 1000000; consider adding maxItems/maxLength to schema bounds");
        out.push(AnalysisWarning { rule: string_of(rule), message: m, kind: WarningKind::CostExceeded });
    }
    let ghost mid = out@;
    proof {
        assert(warnings_view(mid) =~= (if cost > 1_000_000 {
            seq![(rule@, cost_message(cost as nat), WarningKind::CostExceeded)]
        } else {
            Seq::empty()
        }));
    }
    check_missing_bounds(expr, schema, rule, &mut out);
    out
}

/// All warnings for a compiled rule with variables `vars` and expression
/// `expr`: the scope warnings, then the cost warnings.
pub fn analyze_parsed(
    rule: &str,
    vars: &Vec<String>,
    expr: &CostExpr,
    schema: &CompiledSchema,
    scope: ScopeContext,
    string_cost: u64,
) -> (r: Vec<AnalysisWarning>)
    requires
        cost_fits(*expr, max_items_of(*schema), string_cost as nat),
    ensures
        warnings_view(r@) == scope_warnings_view(rule@, texts(vars@), scope, vars@.len())
            + cost_warnings_view(rule@, *expr, *schema, string_cost as nat),
{
    let mut w = scope_warnings(rule, vars, scope);
    let c = cost_warnings(rule, expr, schema, string_cost);
    let ghost a = w@;
    let mut i: usize = 0;
    while i < c.len()
        invariant
            i <= c@.len(),
            warnings_view(w@) == warnings_view(a) + warnings_view(c@).take(i as int),
        decreases c@.len() - i,
    {
        let x = AnalysisWarning { rule: c[i].rule.clone(), message: c[i].message.clone(), kind: c[i].kind };
        let ghost wb = w@;
        proof {
            assert(warning_view(x) == warning_view(c@[i as int]));
        }
        w.push(x);
        i = i + 1;
        proof {
            assert(warnings_view(w@) =~= warnings_view(wb).push(warning_view(x)));
            assert(warnings_view(c@).take(i as int) =~= warnings_view(c@).take(i - 1).push(warnings_view(c@)[i - 1]));
            assert(warnings_view(w@) =~= warnings_view(a) + warnings_view(c@).take(i as int));
        }
    }
    proof {
        assert(warnings_view(c@).take(c@.len() as int) =~= warnings_view(c@));
    }
    w
}

/// Scope and cost warnings for `rule`: none when it does not compile;
/// otherwise one warning per variable that the rule references and `scope`
/// lacks (in the order the compiled program lists them), then the cost
/// warnings of the rule's syntax tree. `None` when the cost estimate of the
/// tree does not fit in a `u64`.
pub fn analyze_rule(rule: &str, schema: &CompiledSchema, scope: ScopeContext, string_cost: u64) -> (r: Option<
    Vec<AnalysisWarning>,
>)
    ensures
        cel_parse_outcome(rule@) is Some ==> r is Some && r->0@.len() == 0,
        cel_parse_outcome(rule@) is None ==> (r is Some <==> cost_fits(
            cel_cost_tree(rule@),
            max_items_of(*schema),
            string_cost as nat,
        )),
        cel_parse_outcome(rule@) is None && r is Some ==> exists|names: Seq<Seq<char>>|
            #[trigger] lists(names, cel_variables(rule@)) && warnings_view(r->0@) == scope_warnings_view(
                rule@,
                names,
                scope,
                names.len(),
            ) + cost_warnings_view(rule@, cel_cost_tree(rule@), *schema, string_cost as nat),
{
    match compile_program(rule) {
        Err(_) => Some(Vec::new()),
        Ok(p) => {
            let tree = program_cost_tree(&p);
            if estimate_expr_cost(&tree, schema, string_cost).is_none() {
                return None;
            }
            let vars = program_variables(&p);
            let r = analyze_parsed(rule, &vars, &tree, schema, scope, string_cost);
            proof {
                lemma_texts_list(vars@, cel_variables(rule@));
            }
            Some(r)
        },
    }
}

/// The cost warnings for `rule`: none when it does not compile, otherwise
/// those of the rule's syntax tree. `None` when the cost estimate of the
/// tree does not fit in a `u64`.
pub fn estimate_rule_cost(rule: &str, schema: &CompiledSchema, string_cost: u64) -> (r: Option<
    Vec<AnalysisWarning>,
>)
    ensures
        cel_parse_outcome(rule@) is Some ==> r is Some && r->0@.len() == 0,
        cel_parse_outcome(rule@) is None ==> (r is Some <==> cost_fits(
            cel_cost_tree(rule@),
            max_items_of(*schema),
            string_cost as nat,
        )),
        cel_parse_outcome(rule@) is None && r is Some ==> warnings_view(r->0@) == cost_warnings_view(
            rule@,
            cel_cost_tree(rule@),
            *schema,
            string_cost as nat,
        ),
{
    match compile_program(rule) {
        Err(_) => Some(Vec::new()),
        Ok(p) => {
            let tree = program_cost_tree(&p);
            if estimate_expr_cost(&tree, schema, string_cost).is_none() {
                return None;
            }
            Some(cost_warnings(rule, &tree, schema, string_cost))
        },
    }
}

} // verus!
