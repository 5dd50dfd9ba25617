//! The errors of a whole walk: at each stop the node's rules report what
//! their outcomes give (see [`node_errors`]), stop after stop.
//!
//! A rule's outcome comes from running its program, which the library does
//! not do; here it is given by a runner, a function of the rule and of the
//! stop (value, old value, path, root flag). Over such a runner, validating
//! with a compiled schema reports exactly what validating with the raw
//! schema it was compiled from reports.
use vstd::prelude::*;
use crate::compilation::{
    CompilationError, CompilationResult, CompiledSchema, Rule, compiled_from, entry_from, rule_compiled, rule_values,
    validations_at, validations_from,
};
use crate::json::Json;
use crate::validation::{ErrorView, RuleOutcome, compile_error_view, node_errors};
use crate::walk::{VisitC, VisitS, law_compiled_walk_agrees, visit_matches, visits_c, visits_match, visits_s};

verus! {

/// The outcome of each rule of `results` at one stop, as the runner `run`
/// gives it; none for a rule that did not compile.
pub open spec fn stop_outcomes(
    results: Seq<Result<CompilationResult, CompilationError>>,
    value: Json,
    old: Option<Json>,
    path: Seq<char>,
    root: bool,
    run: spec_fn(Rule, Json, Option<Json>, Seq<char>, bool) -> RuleOutcome,
) -> Seq<Option<RuleOutcome>> {
    Seq::new(
        results.len(),
        |i: int|
            match results[i] {
                Ok(cr) => Some(run(cr.rule, value, old, path, root)),
                Err(_) => None,
            },
    )
}

/// The errors that the rules `results` report at one stop.
pub open spec fn stop_errors(
    results: Seq<Result<CompilationResult, CompilationError>>,
    value: Json,
    old: Option<Json>,
    path: Seq<char>,
    root: bool,
    run: spec_fn(Rule, Json, Option<Json>, Seq<char>, bool) -> RuleOutcome,
) -> Seq<ErrorView> {
    node_errors(results, old is Some, path, stop_outcomes(results, value, old, path, root, run), results.len())
}

/// The errors of the first `n` stops of a compiled walk, each node with its
/// own compiled rules.
pub open spec fn compiled_walk_errors(
    stops: Seq<VisitC>,
    run: spec_fn(Rule, Json, Option<Json>, Seq<char>, bool) -> RuleOutcome,
    n: nat,
) -> Seq<ErrorView>
    decreases n,
{
    if n == 0 || n > stops.len() {
        Seq::empty()
    } else {
        let v = stops[n - 1];
        compiled_walk_errors(stops, run, (n - 1) as nat) + stop_errors(
            v.node.validations@,
            v.value,
            v.old,
            v.path,
            v.root,
            run,
        )
    }
}

/// The errors of the first `n` stops of a raw walk, the rules of stop `i`
/// being `rules[i]`.
pub open spec fn raw_walk_errors(
    stops: Seq<VisitS>,
    rules: Seq<Seq<Result<CompilationResult, CompilationError>>>,
    run: spec_fn(Rule, Json, Option<Json>, Seq<char>, bool) -> RuleOutcome,
    n: nat,
) -> Seq<ErrorView>
    decreases n,
{
    if n == 0 || n > stops.len() || n > rules.len() {
        Seq::empty()
    } else {
        let v = stops[n - 1];
        raw_walk_errors(stops, rules, run, (n - 1) as nat) + stop_errors(rules[n - 1], v.value, v.old, v.path, v.root, run)
    }
}

/// A rule decoder that gives one result for each rule JSON.
pub open spec fn decoder_deterministic<F: Fn(&Json) -> Result<Rule, String>>(decode: F) -> bool {
    forall|j: &Json, d1: Result<Rule, String>, d2: Result<Rule, String>|
        #[trigger] decode.ensures((j,), d1) && #[trigger] decode.ensures((j,), d2) ==> d1 == d2
}

/// Two compiled rules that report alike: both compiled, with the same rule
/// and the same transition flag, or both failed with the same error text.
pub open spec fn entries_alike(
    a: Result<CompilationResult, CompilationError>,
    b: Result<CompilationResult, CompilationError>,
) -> bool {
    match (a, b) {
        (Ok(x), Ok(y)) => x.rule == y.rule && x.is_transition_rule == y.is_transition_rule,
        (Err(x), Err(y)) => forall|p: Seq<char>| #[trigger] compile_error_view(x, p) == compile_error_view(y, p),
        _ => false,
    }
}

/// Two compilations of one rule JSON, by a deterministic decoder, report alike.
proof fn lemma_entries_alike<F: Fn(&Json) -> Result<Rule, String>>(
    a: Result<CompilationResult, CompilationError>,
    b: Result<CompilationResult, CompilationError>,
    raw: Json,
    decode: F,
)
    requires
        decoder_deterministic(decode),
        entry_from(a, raw, decode),
        entry_from(b, raw, decode),
    ensures
        entries_alike(a, b),
{
    let da = choose|d: Result<Rule, String>|
        #[trigger] decode.ensures((&raw,), d) && match d {
            Err(m) => a matches Err(CompilationError::InvalidRule(m2)) && m2 == m,
            Ok(rule) => rule_compiled(a, rule),
        };
    let db = choose|d: Result<Rule, String>|
        #[trigger] decode.ensures((&raw,), d) && match d {
            Err(m) => b matches Err(CompilationError::InvalidRule(m2)) && m2 == m,
            Ok(rule) => rule_compiled(b, rule),
        };
    assert(da == db);
}

/// Rules compiled twice at one raw node, by a deterministic decoder, report
/// alike one for one.
proof fn lemma_validations_alike<F: Fn(&Json) -> Result<Rule, String>>(
    r1: Seq<Result<CompilationResult, CompilationError>>,
    r2: Seq<Result<CompilationResult, CompilationError>>,
    s: Json,
    depth: nat,
    decode: F,
)
    requires
        decoder_deterministic(decode),
        validations_at(r1, s, depth, decode),
        validations_at(r2, s, depth, decode),
    ensures
        r1.len() == r2.len(),
        forall|i: int| 0 <= i < r1.len() ==> entries_alike(#[trigger] r1[i], r2[i]),
{
    if depth > 64 {
        assert(r1[0] == r2[0]);
    } else {
        let raws = rule_values(s);
        assert forall|i: int| 0 <= i < r1.len() implies entries_alike(#[trigger] r1[i], r2[i]) by {
            lemma_entries_alike(r1[i], r2[i], raws[i], decode);
        }
    }
}

/// Rules that report alike one for one give the same errors at a stop.
proof fn lemma_stop_errors_alike(
    r1: Seq<Result<CompilationResult, CompilationError>>,
    r2: Seq<Result<CompilationResult, CompilationError>>,
    value: Json,
    old: Option<Json>,
    path: Seq<char>,
    root: bool,
    run: spec_fn(Rule, Json, Option<Json>, Seq<char>, bool) -> RuleOutcome,
    n: nat,
)
    requires
        r1.len() == r2.len(),
        n <= r1.len(),
        forall|i: int| 0 <= i < r1.len() ==> entries_alike(#[trigger] r1[i], r2[i]),
    ensures
        node_errors(r1, old is Some, path, stop_outcomes(r1, value, old, path, root, run), n) == node_errors(
            r2,
            old is Some,
            path,
            stop_outcomes(r2, value, old, path, root, run),
            n,
        ),
    decreases n,
{
    if n > 0 {
        lemma_stop_errors_alike(r1, r2, value, old, path, root, run, (n - 1) as nat);
        let i: int = n - 1;
        assert(entries_alike(r1[i], r2[i]));
        match (r1[i], r2[i]) {
            (Err(x), Err(y)) => {
                assert(compile_error_view(x, path) == compile_error_view(y, path));
            },
            _ => {},
        }
    }
}

/// Validating with a compiled schema reports the errors that validating
/// with the raw schema it was compiled from reports, in the same order: for
/// a deterministic rule decoder, with each raw stop's rules compiled where
/// the raw walk meets them, and for any rule runner whose outcome depends on
/// the rule and the stop alone.
pub proof fn law_compiled_errors_agree<F: Fn(&Json) -> Result<Rule, String>>(
    c: CompiledSchema,
    s: Json,
    value: Json,
    old: Option<Json>,
    path: Seq<char>,
    root: bool,
    decode: F,
    rules: Seq<Seq<Result<CompilationResult, CompilationError>>>,
    run: spec_fn(Rule, Json, Option<Json>, Seq<char>, bool) -> RuleOutcome,
)
    requires
        compiled_from(c, s, 0, decode),
        decoder_deterministic(decode),
        rules.len() == visits_s(s, value, old, path, root, 0).len(),
        forall|i: int|
            0 <= i < rules.len() ==> validations_at(
                #[trigger] rules[i],
                visits_s(s, value, old, path, root, 0)[i].node,
                visits_s(s, value, old, path, root, 0)[i].depth,
                decode,
            ),
    ensures
        compiled_walk_errors(visits_c(c, value, old, path, root), run, rules.len()) == raw_walk_errors(
            visits_s(s, value, old, path, root, 0),
            rules,
            run,
            rules.len(),
        ),
{
    let a = visits_c(c, value, old, path, root);
    let b = visits_s(s, value, old, path, root, 0);
    law_compiled_walk_agrees(c, s, value, old, path, root, decode);
    lemma_walk_errors_alike(a, b, rules, run, decode, rules.len());
}

/// Matching stops, with each raw stop's rules compiled where it is met, give
/// the same errors stop after stop.
proof fn lemma_walk_errors_alike<F: Fn(&Json) -> Result<Rule, String>>(
    a: Seq<VisitC>,
    b: Seq<VisitS>,
    rules: Seq<Seq<Result<CompilationResult, CompilationError>>>,
    run: spec_fn(Rule, Json, Option<Json>, Seq<char>, bool) -> RuleOutcome,
    decode: F,
    n: nat,
)
    requires
        visits_match(a, b, decode),
        decoder_deterministic(decode),
        rules.len() == b.len(),
        n <= rules.len(),
        forall|i: int| 0 <= i < rules.len() ==> validations_at(#[trigger] rules[i], b[i].node, b[i].depth, decode),
    ensures
        compiled_walk_errors(a, run, n) == raw_walk_errors(b, rules, run, n),
    decreases n,
{
    if n > 0 {
        lemma_walk_errors_alike(a, b, rules, run, decode, (n - 1) as nat);
        let i: int = n - 1;
        assert(visit_matches(a[i], b[i], decode));
        let x = a[i];
        let y = b[i];
        lemma_compiled_rules_at(x.node, y.node, y.depth, decode);
        assert(validations_at(rules[i], y.node, y.depth, decode));
        lemma_validations_alike(x.node.validations@, rules[i], y.node, y.depth, decode);
        lemma_stop_errors_alike(
            x.node.validations@,
            rules[i],
            x.value,
            x.old,
            x.path,
            x.root,
            run,
            rules[i].len(),
        );
    }
}

/// A compiled node holds the rules of the raw node it was compiled from, at
/// the depth where it was compiled.
proof fn lemma_compiled_rules_at<F: Fn(&Json) -> Result<Rule, String>>(
    c: CompiledSchema,
    s: Json,
    depth: nat,
    decode: F,
)
    requires
        compiled_from(c, s, depth, decode),
    ensures
        validations_at(c.validations@, s, depth, decode),
{
    if depth <= 64 {
        assert(validations_from(c.validations@, rule_values(s), decode));
    }
}

/// The errors of the first `m` stops are a prefix of those of the first `n`.
proof fn lemma_walk_errors_prefix(
    stops: Seq<VisitC>,
    run: spec_fn(Rule, Json, Option<Json>, Seq<char>, bool) -> RuleOutcome,
    m: nat,
    n: nat,
)
    requires
        m <= n <= stops.len(),
    ensures
        compiled_walk_errors(stops, run, m).len() <= compiled_walk_errors(stops, run, n).len(),
        compiled_walk_errors(stops, run, n).subrange(0, compiled_walk_errors(stops, run, m).len() as int)
            == compiled_walk_errors(stops, run, m),
    decreases n,
{
    if m < n {
        lemma_walk_errors_prefix(stops, run, m, (n - 1) as nat);
        let a = compiled_walk_errors(stops, run, m);
        let b = compiled_walk_errors(stops, run, (n - 1) as nat);
        let c = compiled_walk_errors(stops, run, n);
        assert(c.subrange(0, a.len() as int) =~= b.subrange(0, a.len() as int));
    } else {
        let c = compiled_walk_errors(stops, run, n);
        assert(c.subrange(0, c.len() as int) =~= c);
    }
}

/// A node reports before anything beneath it: the errors of a walk over a
/// compiled schema begin with the errors of the root node's own rules.
pub proof fn law_node_reports_first(
    c: CompiledSchema,
    value: Json,
    old: Option<Json>,
    path: Seq<char>,
    root: bool,
    run: spec_fn(Rule, Json, Option<Json>, Seq<char>, bool) -> RuleOutcome,
)
    ensures
        ({
            let stops = visits_c(c, value, old, path, root);
            let own = stop_errors(c.validations@, value, old, path, root, run);
            &&& own.len() <= compiled_walk_errors(stops, run, stops.len()).len()
            &&& compiled_walk_errors(stops, run, stops.len()).subrange(0, own.len() as int) == own
        }),
{
    let stops = visits_c(c, value, old, path, root);
    assert(stops[0] == VisitC { node: c, value, old, path, root });
    assert(stops.len() >= 1);
    let first = compiled_walk_errors(stops, run, 1);
    assert(compiled_walk_errors(stops, run, 0) =~= Seq::<ErrorView>::empty());
    assert(first =~= stop_errors(c.validations@, value, old, path, root, run));
    lemma_walk_errors_prefix(stops, run, 1, stops.len());
}

} // verus!
