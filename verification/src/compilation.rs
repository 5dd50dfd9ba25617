//! Compiling the `x-kubernetes-validations` rules of a schema tree.
//!
//! A rule comes out of its JSON through a decoder that the caller supplies
//! (the same deserialisation for every rule); its CEL source is then
//! compiled. The compiled tree keeps, per node, what the validators and the
//! defaulting pass read.
use vstd::prelude::*;
use crate::cel_bridge::{SourceProgram, cel_parse_outcome, cel_variables, compile_program, program_references};
use crate::json::{
    Json, JsonV, jarray, jget, jobject, jtrue, ju64, jv, lemma_jget_decreases,
    lemma_member_array_decreases, lemma_member_object_decreases,
};
use crate::text::{push_decimal, push_str, string_of};

verus! {

/// A single CRD `x-kubernetes-validations` rule.
#[derive(Debug)]
pub struct Rule {
    /// The CEL expression to evaluate.
    pub rule: String,
    /// Static error message returned when validation fails.
    pub message: Option<String>,
    /// CEL expression that produces a dynamic error message.
    pub message_expression: Option<String>,
    /// Machine-readable reason for the failure (e.g. `"FieldValueForbidden"`).
    pub reason: Option<String>,
    /// Path to the field that caused the failure.
    pub field_path: Option<String>,
    /// Whether `oldSelf` is optional: when `true`, a transition rule also
    /// runs without an old value (with `oldSelf` null).
    pub optional_old_self: Option<bool>,
}

/// A copy of an optional string.
pub fn copy_opt(o: &Option<String>) -> (r: Option<String>)
    ensures
        r == *o,
{
    match o {
        Some(s) => Some(s.clone()),
        None => None,
    }
}

impl Rule {
    /// A copy of the rule.
    pub fn duplicate(&self) -> (r: Rule)
        ensures
            r == *self,
    {
        Rule {
            rule: self.rule.clone(),
            message: copy_opt(&self.message),
            message_expression: copy_opt(&self.message_expression),
            reason: copy_opt(&self.reason),
            field_path: copy_opt(&self.field_path),
            optional_old_self: self.optional_old_self,
        }
    }
}

/// A rule whose CEL source compiled.
#[derive(Debug)]
pub struct CompilationResult {
    /// The compiled CEL program, with the source it was compiled from.
    pub program: SourceProgram,
    /// The rule that was compiled.
    pub rule: Rule,
    /// Whether the rule references `oldSelf` (a transition rule).
    pub is_transition_rule: bool,
    /// The compiled `messageExpression`, when there is one.
    pub message_program: Option<SourceProgram>,
}

/// Why a rule could not be compiled.
#[derive(Debug)]
pub enum CompilationError {
    /// The CEL expression failed to parse; carries the expression and the
    /// parser's error text.
    Parse { rule: String, source: String },
    /// The rule's JSON is not a rule; carries the decoder's error text.
    InvalidRule(String),
    /// The schema nests deeper than [`MAX_SCHEMA_DEPTH`]; carries the depth.
    SchemaTooDeep { depth: usize },
}

/// The deepest schema node that is compiled.
pub const MAX_SCHEMA_DEPTH: usize = 64;

/// The message of a compilation error.
pub open spec fn compilation_error_text(e: CompilationError) -> Seq<char> {
    match e {
        CompilationError::Parse { rule, source } => "failed to compile CEL rule \""@ + rule@ + "\": "@
            + source@,
        CompilationError::InvalidRule(m) => "invalid rule definition: "@ + m@,
        CompilationError::SchemaTooDeep { depth } => "schema nesting depth "@ + crate::text::dec_digits(
            depth as nat,
        ) + " exceeds the maximum of 64"@,
    }
}

impl CompilationError {
    /// The error as text.
    pub fn message(&self) -> (r: String)
        ensures
            r@ == compilation_error_text(*self),
    {
        match self {
            CompilationError::Parse { rule, source } => {
                let mut r = string_of("failed to compile CEL rule \"");
                push_str(&mut r, rule.as_str());
                push_str(&mut r, "\": ");
                push_str(&mut r, source.as_str());
                r
            },
            CompilationError::InvalidRule(m) => {
                let mut r = string_of("invalid rule definition: ");
                push_str(&mut r, m.as_str());
                r
            },
            CompilationError::SchemaTooDeep { depth } => {
                let mut r = string_of("schema nesting depth ");
                push_decimal(&mut r, *depth as u128);
                push_str(&mut r, " exceeds the maximum of 64");
                r
            },
        }
    }
}

/// Whether the message expression of `rule`, if any, parses.
pub open spec fn message_parses(rule: Rule) -> bool {
    match rule.message_expression {
        Some(me) => cel_parse_outcome(me@) is None,
        None => true,
    }
}

/// `r` is what compiling `rule` gives: a result exactly when its source and
/// its message expression (if any) parse, carrying the rule, the program
/// compiled from the rule's source and, exactly when there is a message
/// expression, the program compiled from it; otherwise the parse error of
/// the source, or else of the message expression.
pub open spec fn rule_compiled(r: Result<CompilationResult, CompilationError>, rule: Rule) -> bool {
    match r {
        Ok(cr) => {
            &&& cel_parse_outcome(rule.rule@) is None
            &&& message_parses(rule)
            &&& cr.rule == rule
            &&& cr.program@ == rule.rule@
            &&& cr.is_transition_rule == cel_variables(rule.rule@).contains("oldSelf"@)
            &&& (cr.message_program is Some <==> rule.message_expression is Some)
            &&& (cr.message_program matches Some(p) ==> rule.message_expression matches Some(me) && p@ == me@)
        },
        Err(e) => match (cel_parse_outcome(rule.rule@), e) {
            (Some(t), CompilationError::Parse { rule: r2, source }) => r2@ == rule.rule@ && source@ == t,
            (None, CompilationError::Parse { rule: r2, source }) => match rule.message_expression {
                Some(me) => cel_parse_outcome(me@) == Some(source@) && r2@ == me@,
                None => false,
            },
            _ => false,
        },
    }
}

/// Compiles a rule and, when it has one, its message expression; a message
/// expression that does not compile fails the rule, as the API server
/// refuses such a rule.
pub fn compile_rule(rule: &Rule) -> (r: Result<CompilationResult, CompilationError>)
    ensures
        rule_compiled(r, *rule),
{
    let program = match compile_program(rule.rule.as_str()) {
        Ok(p) => p,
        Err(e) => return Err(CompilationError::Parse { rule: rule.rule.clone(), source: e }),
    };
    let is_transition_rule = program_references(&program, "oldSelf");
    let message_program = match &rule.message_expression {
        Some(me) => match compile_program(me.as_str()) {
            Ok(p) => Some(p),
            Err(e) => return Err(CompilationError::Parse { rule: me.clone(), source: e }),
        },
        None => None,
    };
    Ok(
        CompilationResult {
            program,
            rule: rule.duplicate(),
            is_transition_rule,
            message_program,
        },
    )
}

/// The rule JSON values of a schema node (none when the key is absent or
/// not an array).
pub open spec fn rule_values(s: Json) -> Seq<Json> {
    match jarray(jget(s, "x-kubernetes-validations"@)) {
        Some(v) => v,
        None => Seq::empty(),
    }
}

/// `e` is what the rule JSON `raw` gives: the decoder's error as an invalid
/// rule, or the compiled rule.
pub open spec fn entry_from<F: Fn(&Json) -> Result<Rule, String>>(
    e: Result<CompilationResult, CompilationError>,
    raw: Json,
    decode: F,
) -> bool {
    exists|d: Result<Rule, String>|
        #[trigger] decode.ensures((&raw,), d) && match d {
            Err(m) => e matches Err(CompilationError::InvalidRule(m2)) && m2 == m,
            Ok(rule) => rule_compiled(e, rule),
        }
}

/// The compiled rules of a node, one per rule JSON, in order.
pub open spec fn validations_from<F: Fn(&Json) -> Result<Rule, String>>(
    vs: Seq<Result<CompilationResult, CompilationError>>,
    raws: Seq<Json>,
    decode: F,
) -> bool {
    &&& vs.len() == raws.len()
    &&& forall|i: int| 0 <= i < vs.len() ==> entry_from(#[trigger] vs[i], raws[i], decode)
}

/// Decodes and compiles the rules of one schema node. Each rule is handled
/// on its own: one that fails does not stop the others.
pub fn compile_schema_validations<F: Fn(&Json) -> Result<Rule, String>>(
    schema: &Json,
    decode: &F,
) -> (r: Vec<Result<CompilationResult, CompilationError>>)
    requires
        forall|j: &Json| decode.requires((j,)),
    ensures
        validations_from(r@, rule_values(*schema), *decode),
{
    let mut out: Vec<Result<CompilationResult, CompilationError>> = Vec::new();
    let raws = match schema.get("x-kubernetes-validations") {
        Some(Json::Array(v)) => v,
        _ => {
            return out;
        },
    };
    let mut i: usize = 0;
    while i < raws.len()
        invariant
            i <= raws@.len(),
            raws@ == rule_values(*schema),
            forall|j: &Json| decode.requires((j,)),
            out@.len() == i,
            forall|k: int| 0 <= k < i ==> entry_from(#[trigger] out@[k], raws@[k], *decode),
        decreases raws@.len() - i,
    {
        let d = decode(&raws[i]);
        let e = match d {
            Err(m) => Err(CompilationError::InvalidRule(m)),
            Ok(rule) => compile_rule(&rule),
        };
        proof {
            assert(decode.ensures((&raws@[i as int],), d));
        }
        out.push(e);
        i = i + 1;
    }
    out
}

/// A compiled schema tree: the compiled rules of a node, and its children.
#[derive(Debug)]
pub struct CompiledSchema {
    /// Compiled validation rules at this node.
    pub validations: Vec<Result<CompilationResult, CompilationError>>,
    /// Compiled child property schemas, in schema order.
    pub properties: Vec<(String, CompiledSchema)>,
    /// Compiled array items schema.
    pub items: Option<Box<CompiledSchema>>,
    /// Compiled `additionalProperties` schema.
    pub additional_properties: Option<Box<CompiledSchema>>,
    /// The schema's `format`, when it is a string.
    pub format: Option<String>,
    /// Compiled `allOf` branches.
    pub all_of: Vec<CompiledSchema>,
    /// Compiled `oneOf` branches.
    pub one_of: Vec<CompiledSchema>,
    /// Compiled `anyOf` branches.
    pub any_of: Vec<CompiledSchema>,
    /// `maxLength` (for cost estimation).
    pub max_length: Option<u64>,
    /// `maxItems` (for cost estimation).
    pub max_items: Option<u64>,
    /// `maxProperties` (for cost estimation).
    pub max_properties: Option<u64>,
    /// `x-kubernetes-preserve-unknown-fields: true`.
    pub preserve_unknown_fields: bool,
    /// `x-kubernetes-embedded-resource: true`.
    pub embedded_resource: bool,
    /// The node's `default` value.
    pub default: Option<Json>,
}

/// The errors among compiled rules, in order.
pub open spec fn errors_of(vs: Seq<Result<CompilationResult, CompilationError>>) -> Seq<CompilationError>
    decreases vs.len(),
{
    if vs.len() == 0 {
        Seq::empty()
    } else {
        let rest = errors_of(vs.drop_last());
        match vs.last() {
            Err(e) => rest.push(e),
            Ok(_) => rest,
        }
    }
}

impl CompiledSchema {
    /// The rules of this node that failed to compile, in order.
    pub fn compilation_errors(&self) -> (r: Vec<&CompilationError>)
        ensures
            r@.len() == errors_of(self.validations@).len(),
            forall|i: int| 0 <= i < r@.len() ==> *r@[i] == errors_of(self.validations@)[i],
    {
        let mut r: Vec<&CompilationError> = Vec::new();
        let mut i: usize = 0;
        while i < self.validations.len()
            invariant
                i <= self.validations@.len(),
                r@.len() == errors_of(self.validations@.take(i as int)).len(),
                forall|k: int| 0 <= k < r@.len() ==> *r@[k] == errors_of(self.validations@.take(i as int))[k],
            decreases self.validations@.len() - i,
        {
            proof {
                assert(self.validations@.take(i + 1).drop_last() =~= self.validations@.take(i as int));
            }
            match &self.validations[i] {
                Err(e) => r.push(e),
                Ok(_) => {},
            }
            i = i + 1;
        }
        proof {
            assert(self.validations@.take(self.validations@.len() as int) =~= self.validations@);
        }
        r
    }

    /// Whether any rule of this node failed to compile.
    pub fn has_errors(&self) -> (b: bool)
        ensures
            b <==> exists|i: int| 0 <= i < self.validations@.len() && self.validations@[i] is Err,
    {
        let mut i: usize = 0;
        while i < self.validations.len()
            invariant
                i <= self.validations@.len(),
                forall|k: int| 0 <= k < i ==> self.validations@[k] is Ok,
            decreases self.validations@.len() - i,
        {
            if self.validations[i].is_err() {
                return true;
            }
            i = i + 1;
        }
        false
    }
}

/// An optional `u64` read as an optional number.
pub open spec fn opt_nat(o: Option<u64>) -> Option<nat> {
    match o {
        Some(n) => Some(n as nat),
        None => None,
    }
}

/// The content of an optional JSON value.
pub open spec fn opt_jv(o: Option<Json>) -> Option<JsonV> {
    match o {
        Some(j) => Some(jv(j)),
        None => None,
    }
}

/// The `format` string of a schema node.
pub open spec fn format_of(s: Json) -> Option<Seq<char>> {
    match jget(s, "format"@) {
        Some(Json::Str(t)) => Some(t@),
        _ => None,
    }
}

/// A subschema list keyed by `key` (none when absent or not an array).
pub open spec fn branch_values(s: Json, key: Seq<char>) -> Seq<Json> {
    match jarray(jget(s, key)) {
        Some(v) => v,
        None => Seq::empty(),
    }
}

/// `vs` are the rules of raw schema node `s` met at nesting depth `depth`:
/// past [`MAX_SCHEMA_DEPTH`] the single `SchemaTooDeep` marker, otherwise
/// the node's own compiled rules.
pub open spec fn validations_at<F: Fn(&Json) -> Result<Rule, String>>(
    vs: Seq<Result<CompilationResult, CompilationError>>,
    s: Json,
    depth: nat,
    decode: F,
) -> bool {
    if depth > 64 {
        vs.len() == 1 && (vs[0] matches Err(CompilationError::SchemaTooDeep { depth: d }) && d == depth)
    } else {
        validations_from(vs, rule_values(s), decode)
    }
}

/// The rules of a raw schema node met at nesting depth `depth` (see
/// [`validations_at`]).
pub fn node_validations<F: Fn(&Json) -> Result<Rule, String>>(
    schema: &Json,
    depth: usize,
    decode: &F,
) -> (r: Vec<Result<CompilationResult, CompilationError>>)
    requires
        forall|j: &Json| decode.requires((j,)),
    ensures
        validations_at(r@, *schema, depth as nat, *decode),
{
    if depth > MAX_SCHEMA_DEPTH {
        vec![Err(CompilationError::SchemaTooDeep { depth })]
    } else {
        compile_schema_validations(schema, decode)
    }
}

/// The `properties` entries of a schema node (none when not an object).
pub open spec fn property_values(s: Json) -> Seq<(String, Json)> {
    match jobject(jget(s, "properties"@)) {
        Some(e) => e,
        None => Seq::empty(),
    }
}

/// The `additionalProperties` schema, when it is an object.
pub open spec fn additional_value(s: Json) -> Option<Json> {
    match jget(s, "additionalProperties"@) {
        Some(Json::Object(e)) => Some(Json::Object(e)),
        _ => None,
    }
}

/// `c` is the compilation of schema node `s` found at nesting depth `depth`.
pub open spec fn compiled_from<F: Fn(&Json) -> Result<Rule, String>>(
    c: CompiledSchema,
    s: Json,
    depth: nat,
    decode: F,
) -> bool
    decreases s,
{
    if depth > 64 {
        &&& c.validations@.len() == 1
        &&& c.validations@[0] matches Err(CompilationError::SchemaTooDeep { depth: d }) && d == depth
        &&& c.properties@.len() == 0
        &&& c.items is None
        &&& c.additional_properties is None
        &&& c.format is None
        &&& c.all_of@.len() == 0
        &&& c.one_of@.len() == 0
        &&& c.any_of@.len() == 0
        &&& c.max_length is None
        &&& c.max_items is None
        &&& c.max_properties is None
        &&& !c.preserve_unknown_fields
        &&& !c.embedded_resource
        &&& opt_jv(c.default) == opt_jv(jget(s, "default"@))
    } else {
        proof {
            lemma_jget_decreases(s, "items"@);
            lemma_jget_decreases(s, "additionalProperties"@);
            lemma_member_object_decreases(s, "properties"@);
            lemma_member_array_decreases(s, "allOf"@);
            lemma_member_array_decreases(s, "oneOf"@);
            lemma_member_array_decreases(s, "anyOf"@);
        }
        let props = property_values(s);
        let all_of = branch_values(s, "allOf"@);
        let one_of = branch_values(s, "oneOf"@);
        let any_of = branch_values(s, "anyOf"@);
        &&& validations_from(c.validations@, rule_values(s), decode)
        &&& c.properties@.len() == props.len()
        &&& forall|i: int|
            0 <= i < props.len() ==> #[trigger] c.properties@[i].0 == props[i].0 && compiled_from(
                c.properties@[i].1,
                props[i].1,
                depth + 1,
                decode,
            )
        &&& match jget(s, "items"@) {
            Some(x) => c.items matches Some(b) && compiled_from(*b, x, depth + 1, decode),
            None => c.items is None,
        }
        &&& match additional_value(s) {
            Some(x) => c.additional_properties matches Some(b) && compiled_from(*b, x, depth + 1, decode),
            None => c.additional_properties is None,
        }
        &&& opt_text(c.format) == format_of(s)
        &&& c.all_of@.len() == all_of.len()
        &&& forall|i: int| 0 <= i < all_of.len() ==> compiled_from(#[trigger] c.all_of@[i], all_of[i], depth + 1, decode)
        &&& c.one_of@.len() == one_of.len()
        &&& forall|i: int| 0 <= i < one_of.len() ==> compiled_from(#[trigger] c.one_of@[i], one_of[i], depth + 1, decode)
        &&& c.any_of@.len() == any_of.len()
        &&& forall|i: int| 0 <= i < any_of.len() ==> compiled_from(#[trigger] c.any_of@[i], any_of[i], depth + 1, decode)
        &&& opt_nat(c.max_length) == ju64(jget(s, "maxLength"@))
        &&& opt_nat(c.max_items) == ju64(jget(s, "maxItems"@))
        &&& opt_nat(c.max_properties) == ju64(jget(s, "maxProperties"@))
        &&& c.preserve_unknown_fields == jtrue(jget(s, "x-kubernetes-preserve-unknown-fields"@))
        &&& c.embedded_resource == jtrue(jget(s, "x-kubernetes-embedded-resource"@))
        &&& opt_jv(c.default) == opt_jv(jget(s, "default"@))
    }
}

/// The text of an optional string.
pub open spec fn opt_text(o: Option<String>) -> Option<Seq<char>> {
    match o {
        Some(t) => Some(t@),
        None => None,
    }
}

fn compile_schema_array<F: Fn(&Json) -> Result<Rule, String>>(
    schema: &Json,
    key: &str,
    depth: usize,
    decode: &F,
) -> (r: Vec<CompiledSchema>)
    requires
        depth <= 65,
        forall|j: &Json| decode.requires((j,)),
    ensures
        r@.len() == branch_values(*schema, key@).len(),
        forall|i: int|
            0 <= i < r@.len() ==> compiled_from(#[trigger] r@[i], branch_values(*schema, key@)[i], depth as nat, *decode),
    decreases *schema, 0nat,
{
    let mut out: Vec<CompiledSchema> = Vec::new();
    let arr = match schema.get(key) {
        Some(Json::Array(v)) => v,
        _ => {
            return out;
        },
    };
    proof {
        lemma_member_array_decreases(*schema, key@);
    }
    let mut i: usize = 0;
    while i < arr.len()
        invariant
            i <= arr@.len(),
            arr@ == branch_values(*schema, key@),
            depth <= 65,
            forall|j: &Json| decode.requires((j,)),
            forall|k: int| 0 <= k < arr@.len() ==> decreases_to!(*schema => #[trigger] arr@[k]),
            out@.len() == i,
            forall|k: int| 0 <= k < i ==> compiled_from(#[trigger] out@[k], arr@[k], depth as nat, *decode),
        decreases arr@.len() - i,
    {
        proof {
            assert(decreases_to!(*schema => arr@[i as int]));
        }
        let c = compile_schema_inner(&arr[i], depth, decode);
        out.push(c);
        i = i + 1;
    }
    out
}

/// Compiles every rule of a schema tree, so that it can be reused across
/// validations.
pub fn compile_schema<F: Fn(&Json) -> Result<Rule, String>>(schema: &Json, decode: &F) -> (r:
    CompiledSchema)
    requires
        forall|j: &Json| decode.requires((j,)),
    ensures
        compiled_from(r, *schema, 0, *decode),
{
    compile_schema_inner(schema, 0, decode)
}

/// Compiles the schema node `schema` found at nesting depth `depth`. Past
/// [`MAX_SCHEMA_DEPTH`] the node carries a `SchemaTooDeep` error instead of
/// its rules (keeping only its `default`, which its parent fills in), so a
/// too-deep schema is reported rather than silently cut.
pub fn compile_schema_inner<F: Fn(&Json) -> Result<Rule, String>>(
    schema: &Json,
    depth: usize,
    decode: &F,
) -> (r: CompiledSchema)
    requires
        forall|j: &Json| decode.requires((j,)),
    ensures
        compiled_from(r, *schema, depth as nat, *decode),
    decreases *schema, 1nat,
{
    if depth > MAX_SCHEMA_DEPTH {
        let default = match schema.get("default") {
            Some(x) => Some(x.deep_clone()),
            None => None,
        };
        return CompiledSchema {
            validations: vec![Err(CompilationError::SchemaTooDeep { depth })],
            properties: Vec::new(),
            items: None,
            additional_properties: None,
            format: None,
            all_of: Vec::new(),
            one_of: Vec::new(),
            any_of: Vec::new(),
            max_length: None,
            max_items: None,
            max_properties: None,
            preserve_unknown_fields: false,
            embedded_resource: false,
            default,
        };
    }
    proof {
        lemma_jget_decreases(*schema, "items"@);
        lemma_jget_decreases(*schema, "additionalProperties"@);
        lemma_member_object_decreases(*schema, "properties"@);
    }
    let validations = compile_schema_validations(schema, decode);
    let mut properties: Vec<(String, CompiledSchema)> = Vec::new();
    match schema.get("properties") {
        Some(Json::Object(props)) => {
            let mut i: usize = 0;
            while i < props.len()
                invariant
                    i <= props@.len(),
                    props@ == property_values(*schema),
                    depth <= 64,
                    forall|j: &Json| decode.requires((j,)),
                    forall|k: int| 0 <= k < props@.len() ==> decreases_to!(*schema => (#[trigger] props@[k]).1),
                    properties@.len() == i,
                    forall|k: int|
                        0 <= k < i ==> #[trigger] properties@[k].0 == props@[k].0 && compiled_from(
                            properties@[k].1,
                            props@[k].1,
                            (depth + 1) as nat,
                            *decode,
                        ),
                decreases props@.len() - i,
            {
                proof {
                    assert(decreases_to!(*schema => props@[i as int].1));
                }
                let c = compile_schema_inner(&props[i].1, depth + 1, decode);
                properties.push((props[i].0.clone(), c));
                i = i + 1;
            }
        },
        _ => {},
    }
    let items = match schema.get("items") {
        Some(x) => Some(Box::new(compile_schema_inner(x, depth + 1, decode))),
        None => None,
    };
    let additional_properties = match schema.get("additionalProperties") {
        Some(x) => {
            if x.is_object() {
                Some(Box::new(compile_schema_inner(x, depth + 1, decode)))
            } else {
                None
            }
        },
        None => None,
    };
    let format = match schema.get("format") {
        Some(Json::Str(t)) => Some(t.clone()),
        _ => None,
    };
    let all_of = compile_schema_array(schema, "allOf", depth + 1, decode);
    let one_of = compile_schema_array(schema, "oneOf", depth + 1, decode);
    let any_of = compile_schema_array(schema, "anyOf", depth + 1, decode);
    let max_length = match schema.get("maxLength") {
        Some(x) => x.as_u64(),
        None => None,
    };
    let max_items = match schema.get("maxItems") {
        Some(x) => x.as_u64(),
        None => None,
    };
    let max_properties = match schema.get("maxProperties") {
        Some(x) => x.as_u64(),
        None => None,
    };
    let preserve_unknown_fields = match schema.get("x-kubernetes-preserve-unknown-fields") {
        Some(x) => x.is_true(),
        None => false,
    };
    let embedded_resource = match schema.get("x-kubernetes-embedded-resource") {
        Some(x) => x.is_true(),
        None => false,
    };
    let default = match schema.get("default") {
        Some(x) => Some(x.deep_clone()),
        None => None,
    };
    let r = CompiledSchema {
        validations,
        properties,
        items,
        additional_properties,
        format,
        all_of,
        one_of,
        any_of,
        max_length,
        max_items,
        max_properties,
        preserve_unknown_fields,
        embedded_resource,
        default,
    };
    proof {
        let s = *schema;
        let props = property_values(s);
        assert(validations_from(r.validations@, rule_values(s), *decode));
        assert(r.properties@.len() == props.len());
        assert(match jget(s, "items"@) {
            Some(x) => r.items matches Some(b) && compiled_from(*b, x, (depth + 1) as nat, *decode),
            None => r.items is None,
        });
        assert(match additional_value(s) {
            Some(x) => r.additional_properties matches Some(b) && compiled_from(*b, x, (depth + 1) as nat, *decode),
            None => r.additional_properties is None,
        });
        assert(opt_text(r.format) == format_of(s));
        assert(opt_nat(r.max_length) == ju64(jget(s, "maxLength"@)));
        assert(r.preserve_unknown_fields == jtrue(jget(s, "x-kubernetes-preserve-unknown-fields"@)));
        assert(opt_jv(r.default) == opt_jv(jget(s, "default"@)));
    }
    r
}

} // verus!
