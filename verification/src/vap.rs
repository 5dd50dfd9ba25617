//! ValidatingAdmissionPolicy expressions: the request data they see, the
//! variables they are given, and what each outcome reports.
use vstd::prelude::*;
use crate::cel_bridge::{SourceProgram, cel_parse_outcome, compile_program};
use crate::compilation::{copy_opt, opt_text};
use crate::json::{Json, JsonV, jv, lemma_jv_unfold, member};
use crate::text::{push_str, string_of};

verus! {

/// Group/Version/Kind identifier.
#[derive(Clone, Debug, PartialEq, Eq, Hash)]
pub struct GroupVersionKind {
    /// API group (e.g., `"apps"`); empty for the core group.
    pub group: String,
    /// API version (e.g., `"v1"`).
    pub version: String,
    /// Resource kind (e.g., `"Deployment"`).
    pub kind: String,
}

/// Group/Version/Resource identifier.
#[derive(Clone, Debug, PartialEq, Eq, Hash)]
pub struct GroupVersionResource {
    /// API group (e.g., `"apps"`); empty for the core group.
    pub group: String,
    /// API version (e.g., `"v1"`).
    pub version: String,
    /// Resource name (e.g., `"deployments"`).
    pub resource: String,
}

/// The request context of an admission (the `request` variable).
#[derive(Clone, Debug, PartialEq, Eq)]
pub struct AdmissionRequest {
    /// `"CREATE"`, `"UPDATE"`, `"DELETE"` or `"CONNECT"`.
    pub operation: String,
    /// The requesting user's name.
    pub username: String,
    /// The requesting user's UID.
    pub uid: String,
    /// The requesting user's groups.
    pub groups: Vec<String>,
    /// The name of the resource being admitted.
    pub name: String,
    /// The namespace of the resource being admitted.
    pub namespace: String,
    /// Whether the request is a dry run.
    pub dry_run: bool,
    /// The kind of the object being admitted.
    pub kind: GroupVersionKind,
    /// The resource being admitted.
    pub resource: GroupVersionResource,
}

impl Default for GroupVersionKind {
    fn default() -> (r: Self)
        ensures
            r.group@.len() == 0 && r.version@.len() == 0 && r.kind@.len() == 0,
    {
        GroupVersionKind { group: String::new(), version: String::new(), kind: String::new() }
    }
}

impl Default for GroupVersionResource {
    fn default() -> (r: Self)
        ensures
            r.group@.len() == 0 && r.version@.len() == 0 && r.resource@.len() == 0,
    {
        GroupVersionResource { group: String::new(), version: String::new(), resource: String::new() }
    }
}

/// A request with every string empty, no groups, and not a dry run.
pub open spec fn empty_request(r: AdmissionRequest) -> bool {
    &&& r.operation@.len() == 0
    &&& r.username@.len() == 0
    &&& r.uid@.len() == 0
    &&& r.groups@.len() == 0
    &&& r.name@.len() == 0
    &&& r.namespace@.len() == 0
    &&& !r.dry_run
    &&& r.kind.group@.len() == 0 && r.kind.version@.len() == 0 && r.kind.kind@.len() == 0
    &&& r.resource.group@.len() == 0 && r.resource.version@.len() == 0 && r.resource.resource@.len() == 0
}

impl Default for AdmissionRequest {
    /// Every string empty, no groups, not a dry run.
    fn default() -> (r: Self)
        ensures
            empty_request(r),
    {
        AdmissionRequest {
            operation: String::new(),
            username: String::new(),
            uid: String::new(),
            groups: Vec::new(),
            name: String::new(),
            namespace: String::new(),
            dry_run: false,
            kind: GroupVersionKind::default(),
            resource: GroupVersionResource::default(),
        }
    }
}

/// One CEL validation expression of a policy.
#[derive(Clone, Debug, PartialEq, Eq)]
pub struct VapExpression {
    /// The CEL expression; it must evaluate to a boolean.
    pub expression: String,
    /// Static message when the expression is `false`.
    pub message: Option<String>,
    /// CEL expression producing the message; preferred when it yields a string.
    pub message_expression: Option<String>,
}

/// The result of evaluating one [`VapExpression`].
#[derive(Clone, Debug, PartialEq, Eq)]
pub struct VapResult {
    /// The expression.
    pub expression: String,
    /// Whether it evaluated to `true` (admission allowed).
    pub passed: bool,
    /// The message when it did not pass.
    pub message: Option<String>,
}

/// An expression that failed to compile.
#[derive(Debug)]
pub struct VapError {
    /// The expression.
    pub expression: String,
    /// The parser's error text.
    pub source: String,
}

/// `failed to compile VAP expression "<expression>": <source>`.
pub open spec fn vap_error_text(expression: Seq<char>, source: Seq<char>) -> Seq<char> {
    "failed to compile VAP expression \""@ + expression + "\": "@ + source
}

impl VapError {
    /// The error as text.
    pub fn message(&self) -> (r: String)
        ensures
            r@ == vap_error_text(self.expression@, self.source@),
    {
        let mut r = string_of("failed to compile VAP expression \"");
        push_str(&mut r, self.expression.as_str());
        push_str(&mut r, "\": ");
        push_str(&mut r, self.source.as_str());
        r
    }
}

/// An expression compiled for repeated evaluation.
#[derive(Debug)]
pub struct CompiledVapExpression {
    /// The compiled expression, with its source.
    pub program: SourceProgram,
    /// Its source.
    pub expression: String,
    /// The static message.
    pub message: Option<String>,
    /// The compiled message expression, when there is one and it compiles.
    pub message_program: Option<SourceProgram>,
}

// ---------------------------------------------------------------------------
// The `request` variable
// ---------------------------------------------------------------------------

/// A JSON string value.
pub open spec fn jstr(s: Seq<char>) -> JsonV {
    JsonV::Str(s)
}

/// The content of the `request` variable for `req`.
pub open spec fn request_view(req: AdmissionRequest) -> JsonV {
    JsonV::Object(
        seq![
            ("operation"@, jstr(req.operation@)),
            ("name"@, jstr(req.name@)),
            ("namespace"@, jstr(req.namespace@)),
            ("dryRun"@, JsonV::Bool(req.dry_run)),
            ("kind"@, JsonV::Object(seq![
                ("group"@, jstr(req.kind.group@)),
                ("version"@, jstr(req.kind.version@)),
                ("kind"@, jstr(req.kind.kind@)),
            ])),
            ("resource"@, JsonV::Object(seq![
                ("group"@, jstr(req.resource.group@)),
                ("version"@, jstr(req.resource.version@)),
                ("resource"@, jstr(req.resource.resource@)),
            ])),
            ("userInfo"@, JsonV::Object(seq![
                ("username"@, jstr(req.username@)),
                ("uid"@, jstr(req.uid@)),
                ("groups"@, JsonV::Array(req.groups@.map_values(|g: String| jstr(g@)))),
            ])),
        ],
    )
}

/// Each member of the `request` variable is the same-named field of the
/// admission request: `operation`, `name`, `namespace`, `dryRun`, the three
/// parts of `kind` and of `resource`, and the user's name, UID and groups.
pub proof fn law_request_fields(req: AdmissionRequest)
    ensures
        member(request_view(req), "operation"@) == Some(JsonV::Str(req.operation@)),
        member(request_view(req), "name"@) == Some(JsonV::Str(req.name@)),
        member(request_view(req), "namespace"@) == Some(JsonV::Str(req.namespace@)),
        member(request_view(req), "dryRun"@) == Some(JsonV::Bool(req.dry_run)),
        member(request_view(req), "kind"@) matches Some(k) && member(k, "group"@) == Some(JsonV::Str(req.kind.group@))
            && member(k, "version"@) == Some(JsonV::Str(req.kind.version@))
            && member(k, "kind"@) == Some(JsonV::Str(req.kind.kind@)),
        member(request_view(req), "resource"@) matches Some(k) && member(k, "group"@) == Some(JsonV::Str(req.resource.group@))
            && member(k, "version"@) == Some(JsonV::Str(req.resource.version@))
            && member(k, "resource"@) == Some(JsonV::Str(req.resource.resource@)),
        member(request_view(req), "userInfo"@) matches Some(u) && member(u, "username"@) == Some(JsonV::Str(req.username@))
            && member(u, "uid"@) == Some(JsonV::Str(req.uid@))
            && member(u, "groups"@) == Some(JsonV::Array(req.groups@.map_values(|g: String| JsonV::Str(g@)))),
{
    reveal_strlit("operation");
    reveal_strlit("name");
    reveal_strlit("namespace");
    reveal_strlit("dryRun");
    reveal_strlit("kind");
    reveal_strlit("resource");
    reveal_strlit("userInfo");
    reveal_strlit("group");
    reveal_strlit("version");
    reveal_strlit("username");
    reveal_strlit("uid");
    reveal_strlit("groups");
    reveal_with_fuel(crate::json::entry_get, 8);
    assert("operation"@.len() == 9 && "name"@.len() == 4 && "namespace"@.len() == 9 && "dryRun"@.len() == 6);
    assert("kind"@.len() == 4 && "resource"@.len() == 8 && "userInfo"@.len() == 8 && "group"@.len() == 5);
    assert("version"@.len() == 7 && "uid"@.len() == 3 && "username"@.len() == 8 && "groups"@.len() == 6);
    assert("operation"@[0] == 'o' && "namespace"@[0] == 'n' && "name"@[0] == 'n' && "kind"@[0] == 'k');
    assert("resource"@[0] == 'r' && "userInfo"@[0] == 'u');
    assert("operation"@ != "name"@ && "operation"@ != "namespace"@ && "name"@ != "namespace"@);
    assert("dryRun"@ != "operation"@ && "dryRun"@ != "name"@ && "dryRun"@ != "namespace"@);
    assert("kind"@ != "operation"@ && "kind"@ != "name"@ && "kind"@ != "namespace"@ && "kind"@ != "dryRun"@);
    assert("resource"@ != "operation"@ && "resource"@ != "name"@ && "resource"@ != "namespace"@
        && "resource"@ != "dryRun"@ && "resource"@ != "kind"@);
    assert("userInfo"@ != "operation"@ && "userInfo"@ != "name"@ && "userInfo"@ != "namespace"@
        && "userInfo"@ != "dryRun"@ && "userInfo"@ != "kind"@ && "userInfo"@ != "resource"@);
    assert("version"@ != "group"@ && "kind"@ != "group"@ && "kind"@ != "version"@ && "resource"@ != "group"@
        && "resource"@ != "version"@);
    assert("uid"@ != "username"@ && "groups"@ != "username"@ && "groups"@ != "uid"@);
    assert(req.groups@.map_values(|g: String| jstr(g@)) =~= req.groups@.map_values(|g: String| JsonV::Str(g@)));
}

fn str_entry(key: &str, value: &String) -> (r: (String, Json))
    ensures
        r.0@ == key@,
        jv(r.1) == jstr(value@),
{
    (string_of(key), Json::Str(value.clone()))
}

fn object3(a: (String, Json), b: (String, Json), c: (String, Json)) -> (r: Json)
    ensures
        jv(r) == JsonV::Object(seq![(a.0@, jv(a.1)), (b.0@, jv(b.1)), (c.0@, jv(c.1))]),
{
    let mut v: Vec<(String, Json)> = Vec::new();
    v.push(a);
    v.push(b);
    v.push(c);
    let r = Json::Object(v);
    proof {
        lemma_jv_unfold(r);
        assert(jv(r)->Object_0 =~= seq![(a.0@, jv(a.1)), (b.0@, jv(b.1)), (c.0@, jv(c.1))]);
    }
    r
}

/// The `request` variable for `req`: operation, name, namespace, dry run,
/// kind, resource and user info.
pub fn request_to_cel(req: &AdmissionRequest) -> (r: Json)
    ensures
        jv(r) == request_view(*req),
        member(jv(r), "operation"@) == Some(JsonV::Str(req.operation@)),
        member(jv(r), "name"@) == Some(JsonV::Str(req.name@)),
        member(jv(r), "namespace"@) == Some(JsonV::Str(req.namespace@)),
        member(jv(r), "dryRun"@) == Some(JsonV::Bool(req.dry_run)),
        member(jv(r), "kind"@) matches Some(k) && member(k, "group"@) == Some(JsonV::Str(req.kind.group@))
            && member(k, "version"@) == Some(JsonV::Str(req.kind.version@))
            && member(k, "kind"@) == Some(JsonV::Str(req.kind.kind@)),
        member(jv(r), "resource"@) matches Some(k) && member(k, "group"@) == Some(JsonV::Str(req.resource.group@))
            && member(k, "version"@) == Some(JsonV::Str(req.resource.version@))
            && member(k, "resource"@) == Some(JsonV::Str(req.resource.resource@)),
        member(jv(r), "userInfo"@) matches Some(u) && member(u, "username"@) == Some(JsonV::Str(req.username@))
            && member(u, "uid"@) == Some(JsonV::Str(req.uid@))
            && member(u, "groups"@) == Some(JsonV::Array(req.groups@.map_values(|g: String| JsonV::Str(g@)))),
{
    proof {
        law_request_fields(*req);
    }
    let mut groups: Vec<Json> = Vec::new();
    let mut i: usize = 0;
    while i < req.groups.len()
        invariant
            i <= req.groups@.len(),
            groups@.len() == i,
            forall|k: int| 0 <= k < i ==> jv(#[trigger] groups@[k]) == jstr(req.groups@[k]@),
        decreases req.groups@.len() - i,
    {
        groups.push(Json::Str(req.groups[i].clone()));
        i = i + 1;
    }
    let groups_json = Json::Array(groups);
    proof {
        lemma_jv_unfold(groups_json);
        assert(jv(groups_json)->Array_0 =~= req.groups@.map_values(|g: String| jstr(g@)));
    }
    let kind = object3(
        str_entry("group", &req.kind.group),
        str_entry("version", &req.kind.version),
        str_entry("kind", &req.kind.kind),
    );
    let resource = object3(
        str_entry("group", &req.resource.group),
        str_entry("version", &req.resource.version),
        str_entry("resource", &req.resource.resource),
    );
    let user_info = object3(
        str_entry("username", &req.username),
        str_entry("uid", &req.uid),
        (string_of("groups"), groups_json),
    );
    let mut map: Vec<(String, Json)> = Vec::new();
    map.push(str_entry("operation", &req.operation));
    map.push(str_entry("name", &req.name));
    map.push(str_entry("namespace", &req.namespace));
    map.push((string_of("dryRun"), Json::Bool(req.dry_run)));
    map.push((string_of("kind"), kind));
    map.push((string_of("resource"), resource));
    map.push((string_of("userInfo"), user_info));
    let r = Json::Object(map);
    proof {
        lemma_jv_unfold(r);
        assert(jv(r)->Object_0 =~= request_view(*req)->Object_0);
    }
    r
}

// ---------------------------------------------------------------------------
// The evaluator's variables
// ---------------------------------------------------------------------------

/// The data a policy's expressions are evaluated against.
#[derive(Debug)]
pub struct VapEvaluator {
    /// The object being admitted.
    pub object: Json,
    /// Its previous version, if any.
    pub old_object: Option<Json>,
    /// The admission request.
    pub request: AdmissionRequest,
    /// The policy parameters, if any.
    pub params: Option<Json>,
    /// The namespace object, if any.
    pub namespace_object: Option<Json>,
}

/// Builder for [`VapEvaluator`].
#[derive(Debug)]
pub struct VapEvaluatorBuilder {
    /// The object being admitted, once set.
    pub object: Option<Json>,
    /// Its previous version, once set.
    pub old_object: Option<Json>,
    /// The admission request.
    pub request: AdmissionRequest,
    /// The policy parameters, once set.
    pub params: Option<Json>,
    /// The namespace object, once set.
    pub namespace_object: Option<Json>,
}

impl VapEvaluatorBuilder {
    /// Sets the object being admitted (`object`).
    pub fn object(self, obj: Json) -> (r: Self)
        ensures
            r.object == Some(obj),
            r.old_object == self.old_object,
            r.request == self.request,
            r.params == self.params,
            r.namespace_object == self.namespace_object,
    {
        VapEvaluatorBuilder { object: Some(obj), ..self }
    }

    /// Sets the previous version of the object (`oldObject`).
    pub fn old_object(self, obj: Json) -> (r: Self)
        ensures
            r.object == self.object,
            r.old_object == Some(obj),
            r.request == self.request,
            r.params == self.params,
            r.namespace_object == self.namespace_object,
    {
        VapEvaluatorBuilder { old_object: Some(obj), ..self }
    }

    /// Sets the admission request (`request`).
    pub fn request(self, req: AdmissionRequest) -> (r: Self)
        ensures
            r.object == self.object,
            r.old_object == self.old_object,
            r.request == req,
            r.params == self.params,
            r.namespace_object == self.namespace_object,
    {
        VapEvaluatorBuilder { request: req, ..self }
    }

    /// Sets the policy parameters (`params`).
    pub fn params(self, p: Json) -> (r: Self)
        ensures
            r.object == self.object,
            r.old_object == self.old_object,
            r.request == self.request,
            r.params == Some(p),
            r.namespace_object == self.namespace_object,
    {
        VapEvaluatorBuilder { params: Some(p), ..self }
    }

    /// Sets the namespace object (`namespaceObject`).
    pub fn namespace_object(self, ns: Json) -> (r: Self)
        ensures
            r.object == self.object,
            r.old_object == self.old_object,
            r.request == self.request,
            r.params == self.params,
            r.namespace_object == Some(ns),
    {
        VapEvaluatorBuilder { namespace_object: Some(ns), ..self }
    }

    /// The evaluator; without an object, `object` is null.
    pub fn build(self) -> (r: VapEvaluator)
        ensures
            r.object == match self.object {
                Some(o) => o,
                None => Json::Null,
            },
            r.old_object == self.old_object,
            r.request == self.request,
            r.params == self.params,
            r.namespace_object == self.namespace_object,
    {
        VapEvaluator {
            object: match self.object {
                Some(o) => o,
                None => Json::Null,
            },
            old_object: self.old_object,
            request: self.request,
            params: self.params,
            namespace_object: self.namespace_object,
        }
    }
}

/// The variables an evaluator binds, in order: `object`, `oldObject` (null
/// when absent), `request`, then `params` and `namespaceObject` only when
/// given.
pub open spec fn bindings_view(e: VapEvaluator) -> Seq<(Seq<char>, JsonV)> {
    seq![
        ("object"@, jv(e.object)),
        ("oldObject"@, match e.old_object {
            Some(o) => jv(o),
            None => JsonV::Null,
        }),
        ("request"@, request_view(e.request)),
    ] + match e.params {
        Some(p) => seq![("params"@, jv(p))],
        None => Seq::empty(),
    } + match e.namespace_object {
        Some(n) => seq![("namespaceObject"@, jv(n))],
        None => Seq::empty(),
    }
}

impl VapEvaluator {
    /// A builder with no object, no old object, an empty request, and no
    /// parameters or namespace object.
    pub fn builder() -> (r: VapEvaluatorBuilder)
        ensures
            r.object is None,
            r.old_object is None,
            r.params is None,
            r.namespace_object is None,
            empty_request(r.request),
    {
        VapEvaluatorBuilder {
            object: None,
            old_object: None,
            request: AdmissionRequest::default(),
            params: None,
            namespace_object: None,
        }
    }

    /// The variables to bind for evaluation (see [`bindings_view`]).
    pub fn bindings(&self) -> (r: Vec<(String, Json)>)
        ensures
            r@.map_values(|b: (String, Json)| (b.0@, jv(b.1))) == bindings_view(*self),
    {
        let mut v: Vec<(String, Json)> = Vec::new();
        v.push((string_of("object"), self.object.deep_clone()));
        let old = match &self.old_object {
            Some(o) => o.deep_clone(),
            None => Json::Null,
        };
        v.push((string_of("oldObject"), old));
        v.push((string_of("request"), request_to_cel(&self.request)));
        match &self.params {
            Some(p) => {
                v.push((string_of("params"), p.deep_clone()));
            },
            None => {},
        }
        match &self.namespace_object {
            Some(n) => {
                v.push((string_of("namespaceObject"), n.deep_clone()));
            },
            None => {},
        }
        proof {
            assert(v@.map_values(|b: (String, Json)| (b.0@, jv(b.1))) =~= bindings_view(*self));
        }
        v
    }
}

// ---------------------------------------------------------------------------
// Compiling and judging expressions
// ---------------------------------------------------------------------------

/// `r` is what compiling `e` gives: the compiled expression exactly when it
/// parses, with the program compiled from its source (and the program
/// compiled from the message expression exactly when there is one and it
/// parses), otherwise the parse error.
pub open spec fn vap_compiled(r: Result<CompiledVapExpression, VapError>, e: VapExpression) -> bool {
    match r {
        Ok(c) => {
            &&& cel_parse_outcome(e.expression@) is None
            &&& c.expression == e.expression
            &&& c.program@ == e.expression@
            &&& c.message == e.message
            &&& (c.message_program matches Some(p) ==> e.message_expression matches Some(me) && p@ == me@)
            &&& (c.message_program is Some <==> (e.message_expression matches Some(me) && cel_parse_outcome(me@) is None))
        },
        Err(err) => cel_parse_outcome(e.expression@) == Some(err.source@) && err.expression == e.expression,
    }
}

/// What running a compiled expression gave.
#[derive(Debug)]
pub enum VapOutcome {
    /// It evaluated to `true`.
    True,
    /// It evaluated to `false`; carries the message expression's string,
    /// when it ran and gave one.
    False(Option<String>),
    /// It evaluated to a non-boolean; carries that value's debug text.
    NotBool(String),
    /// Evaluation failed; carries the error text.
    Error(String),
}

/// The result an entry reports: `(expression, passed, message)`.
pub open spec fn vap_result_view(
    entry: Result<CompiledVapExpression, VapError>,
    outcome: VapOutcome,
) -> (Seq<char>, bool, Option<Seq<char>>) {
    match entry {
        Ok(c) => match outcome {
            VapOutcome::True => (c.expression@, true, None),
            VapOutcome::False(m) => (c.expression@, false, Some(match m {
                Some(s) => s@,
                None => match c.message {
                    Some(s) => s@,
                    None => "validation expression '"@ + c.expression@ + "' evaluated to false"@,
                },
            })),
            VapOutcome::NotBool(t) => (c.expression@, false, Some("expression returned non-boolean: "@ + t@)),
            VapOutcome::Error(t) => (c.expression@, false, Some("evaluation error: "@ + t@)),
        },
        Err(e) => (e.expression@, false, Some(vap_error_text(e.expression@, e.source@))),
    }
}

/// The content of a result.
pub open spec fn result_view(r: VapResult) -> (Seq<char>, bool, Option<Seq<char>>) {
    (r.expression@, r.passed, opt_text(r.message))
}

impl VapEvaluator {
    /// Compiles each expression (and its message expression, which is
    /// dropped when it does not compile); one entry per expression.
    pub fn compile_expressions(&self, expressions: &Vec<VapExpression>) -> (r: Vec<Result<CompiledVapExpression, VapError>>)
        ensures
            r@.len() == expressions@.len(),
            forall|i: int| 0 <= i < r@.len() ==> vap_compiled(#[trigger] r@[i], expressions@[i]),
    {
        let mut out: Vec<Result<CompiledVapExpression, VapError>> = Vec::new();
        let mut i: usize = 0;
        while i < expressions.len()
            invariant
                i <= expressions@.len(),
                out@.len() == i,
                forall|k: int| 0 <= k < i ==> vap_compiled(#[trigger] out@[k], expressions@[k]),
            decreases expressions@.len() - i,
        {
            let e = &expressions[i];
            let entry = match compile_program(e.expression.as_str()) {
                Err(src) => Err(VapError { expression: e.expression.clone(), source: src }),
                Ok(program) => {
                    let message_program = match &e.message_expression {
                        Some(me) => match compile_program(me.as_str()) {
                            Ok(p) => Some(p),
                            Err(_) => None,
                        },
                        None => None,
                    };
                    Ok(
                        CompiledVapExpression {
                            program,
                            expression: e.expression.clone(),
                            message: copy_opt(&e.message),
                            message_program,
                        },
                    )
                },
            };
            out.push(entry);
            i = i + 1;
        }
        out
    }

    /// The result that one compiled entry reports for its outcome (see
    /// [`vap_result_view`]); a compile error fails with its message.
    pub fn judge(entry: &Result<CompiledVapExpression, VapError>, outcome: &VapOutcome) -> (r: VapResult)
        ensures
            result_view(r) == vap_result_view(*entry, *outcome),
    {
        match entry {
            Ok(c) => match outcome {
                VapOutcome::True => VapResult { expression: c.expression.clone(), passed: true, message: None },
                VapOutcome::False(m) => {
                    let msg = match m {
                        Some(s) => s.clone(),
                        None => match &c.message {
                            Some(s) => s.clone(),
                            None => {
                                let mut t = string_of("validation expression '");
                                push_str(&mut t, c.expression.as_str());
                                push_str(&mut t, "' evaluated to false");
                                t
                            },
                        },
                    };
                    VapResult { expression: c.expression.clone(), passed: false, message: Some(msg) }
                },
                VapOutcome::NotBool(t) => {
                    let mut msg = string_of("expression returned non-boolean: ");
                    push_str(&mut msg, t.as_str());
                    VapResult { expression: c.expression.clone(), passed: false, message: Some(msg) }
                },
                VapOutcome::Error(t) => {
                    let mut msg = string_of("evaluation error: ");
                    push_str(&mut msg, t.as_str());
                    VapResult { expression: c.expression.clone(), passed: false, message: Some(msg) }
                },
            },
            Err(e) => VapResult { expression: e.expression.clone(), passed: false, message: Some(e.message()) },
        }
    }

    /// The results of compiled entries given the outcome of each
    /// (`outcomes[i]` for `compiled[i]`; ignored for compile errors).
    pub fn evaluate_compiled(
        &self,
        compiled: &Vec<Result<CompiledVapExpression, VapError>>,
        outcomes: &Vec<VapOutcome>,
    ) -> (r: Vec<VapResult>)
        requires
            outcomes@.len() == compiled@.len(),
        ensures
            r@.len() == compiled@.len(),
            forall|i: int| 0 <= i < r@.len() ==> result_view(#[trigger] r@[i]) == vap_result_view(compiled@[i], outcomes@[i]),
    {
        let mut out: Vec<VapResult> = Vec::new();
        let mut i: usize = 0;
        while i < compiled.len()
            invariant
                i <= compiled@.len(),
                outcomes@.len() == compiled@.len(),
                out@.len() == i,
                forall|k: int| 0 <= k < i ==> result_view(#[trigger] out@[k]) == vap_result_view(compiled@[k], outcomes@[k]),
            decreases compiled@.len() - i,
        {
            out.push(VapEvaluator::judge(&compiled[i], &outcomes[i]));
            i = i + 1;
        }
        out
    }
}

} // verus!
