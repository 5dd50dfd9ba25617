//! Filling in schema `default`s before validation.
//!
//! At an object node every declared property that the object lacks and
//! whose schema has a `default` is added with that default, itself
//! defaulted by the property's schema one level deeper, and every
//! existing child is defaulted in turn, a declared property with its own
//! schema and any other key with `additionalProperties` (unless unknown
//! fields are preserved). Array items are defaulted with `items`. The walk
//! stops at the depth the compiler stops at, leaving deeper values as they
//! are. `allOf`/`oneOf`/`anyOf` are not entered.
use vstd::prelude::*;
use crate::compilation::{
    CompilationError, CompiledSchema, MAX_SCHEMA_DEPTH, Rule, additional_value, compiled_from, opt_jv, property_values,
};
use crate::walk::{VisitS, visits_s};
use crate::json::{Json, JsonV, av, entries_get, ev, jentry, jget, jtrue, jv, lemma_jv_unfold};

verus! {

/// Whether `obj` has an entry with key `k`.
pub open spec fn has_entry(obj: Seq<(String, Json)>, k: Seq<char>) -> bool {
    exists|i: int| 0 <= i < obj.len() && (#[trigger] obj[i]).0@ == k
}

/// The schema that defaults the child `k` of an object: its declared
/// property schema, else the additional-properties schema.
pub open spec fn child_schema(props: Seq<(String, Json)>, add: Option<Json>, k: Seq<char>) -> Option<Json> {
    match jentry(props, k) {
        Some(ps) => Some(ps),
        None => add,
    }
}

/// The additional-properties schema that a raw node defaults map values with.
pub open spec fn raw_additional(s: Json) -> Option<Json> {
    if jtrue(jget(s, "x-kubernetes-preserve-unknown-fields"@)) {
        None
    } else {
        additional_value(s)
    }
}

/// The defaults of the first `n` declared properties that `obj` (at depth
/// `depth`) lacks, each defaulted in turn by its property's schema.
pub open spec fn missing_defaults(props: Seq<(String, Json)>, obj: Seq<(String, Json)>, n: nat, depth: nat) -> Seq<
    (Seq<char>, JsonV),
>
    decreases 65 - depth, 0nat, n,
{
    if n == 0 || n > props.len() || depth > 64 {
        Seq::empty()
    } else {
        missing_defaults(props, obj, (n - 1) as nat, depth) + if !has_entry(obj, props[n - 1].0@) {
            match jget(props[n - 1].1, "default"@) {
                Some(d) => seq![(props[n - 1].0@, defaulted(props[n - 1].1, d, depth + 1))],
                None => Seq::empty(),
            }
        } else {
            Seq::empty()
        }
    }
}

/// `v` with the defaults of raw schema `s` filled in, at nesting depth `depth`.
pub open spec fn defaulted(s: Json, v: Json, depth: nat) -> JsonV
    decreases 65 - depth, 1nat, 0nat,
{
    if depth > 64 {
        jv(v)
    } else {
        match v {
            Json::Object(obj) => {
                let props = property_values(s);
                let add = raw_additional(s);
                if props.len() == 0 && add is None {
                    jv(v)
                } else {
                    JsonV::Object(
                        Seq::new(
                            obj@.len(),
                            |i: int|
                                if 0 <= i < obj@.len() {
                                    (
                                        obj@[i].0@,
                                        match child_schema(props, add, obj@[i].0@) {
                                            Some(cs) => defaulted(cs, obj@[i].1, depth + 1),
                                            None => jv(obj@[i].1),
                                        },
                                    )
                                } else {
                                    (Seq::empty(), JsonV::Null)
                                },
                        ) + missing_defaults(props, obj@, props.len(), depth),
                    )
                }
            },
            Json::Array(arr) => match jget(s, "items"@) {
                Some(is) => JsonV::Array(
                    Seq::new(
                        arr@.len(),
                        |i: int|
                            if 0 <= i < arr@.len() {
                                defaulted(is, arr@[i], depth + 1)
                            } else {
                                JsonV::Null
                            },
                    ),
                ),
                None => jv(v),
            },
            _ => jv(v),
        }
    }
}

/// What the child entry `e` of an object becomes.
pub open spec fn child_defaulted(props: Seq<(String, Json)>, add: Option<Json>, e: (String, Json), depth: nat) -> JsonV {
    match child_schema(props, add, e.0@) {
        Some(cs) => defaulted(cs, e.1, depth + 1),
        None => jv(e.1),
    }
}

/// Whether `obj` has an entry with key `key`.
pub fn has_entry_exec(obj: &Vec<(String, Json)>, key: &str) -> (r: bool)
    ensures
        r == has_entry(obj@, key@),
{
    let mut i: usize = 0;
    while i < obj.len()
        invariant
            i <= obj@.len(),
            forall|k: int| 0 <= k < i ==> (#[trigger] obj@[k]).0@ != key@,
        decreases obj@.len() - i,
    {
        if crate::text::str_eq(obj[i].0.as_str(), key) {
            return true;
        }
        i = i + 1;
    }
    false
}

/// `value` with the defaults of `schema` filled in (see [`defaulted`]).
pub fn apply_defaults(schema: &Json, value: &Json) -> (r: Json)
    ensures
        r@ == defaulted(*schema, *value, 0),
{
    apply_defaults_inner(schema, value, 0)
}

/// `value`, found at nesting depth `depth`, with the defaults of `schema`
/// filled in.
pub fn apply_defaults_inner(schema: &Json, value: &Json, depth: usize) -> (r: Json)
    ensures
        r@ == defaulted(*schema, *value, depth as nat),
    decreases 65 - depth,
{
    if depth > MAX_SCHEMA_DEPTH {
        return value.deep_clone();
    }
    match value {
        Json::Object(obj) => {
            let empty: Vec<(String, Json)> = Vec::new();
            let props: &Vec<(String, Json)> = match schema.get("properties") {
                Some(Json::Object(p)) => p,
                _ => &empty,
            };
            let preserve = match schema.get("x-kubernetes-preserve-unknown-fields") {
                Some(x) => x.is_true(),
                None => false,
            };
            let add: Option<&Json> = if preserve {
                None
            } else {
                match schema.get("additionalProperties") {
                    Some(a) => if a.is_object() {
                        Some(a)
                    } else {
                        None
                    },
                    None => None,
                }
            };
            let ghost ga: Option<Json> = match add {
                Some(a) => Some(*a),
                None => None,
            };
            proof {
                assert(props@ == property_values(*schema));
                assert(ga == raw_additional(*schema));
            }
            if props.len() == 0 && add.is_none() {
                return value.deep_clone();
            }
            let mut out: Vec<(String, Json)> = Vec::new();
            let mut i: usize = 0;
            while i < obj.len()
                invariant
                    i <= obj@.len(),
                    depth <= 64,
                    *value == Json::Object(*obj),
                    props@ == property_values(*schema),
                    ga == raw_additional(*schema),
                    ga == match add {
                        Some(a) => Some(*a),
                        None => None,
                    },
                    ev_len(out@) == i,
                    forall|k: int| 0 <= k < i ==> #[trigger] entry_view(out@[k]) == (obj@[k].0@, child_defaulted(props@, ga, obj@[k], depth as nat)),
                decreases obj@.len() - i,
            {
                let key = obj[i].0.as_str();
                let ps = entries_get(props, key);
                let cs: Option<&Json> = match ps {
                    Some(x) => Some(x),
                    None => add,
                };
                proof {
                    assert(decreases_to!(*value => value->Object_0));
                    assert(decreases_to!(value->Object_0 => obj[i as int]));
                    assert(decreases_to!(obj[i as int] => obj[i as int].1));
                }
                let d = match cs {
                    Some(c) => apply_defaults_inner(c, &obj[i].1, depth + 1),
                    None => obj[i].1.deep_clone(),
                };
                out.push((obj[i].0.clone(), d));
                i = i + 1;
            }
            let ghost n_obj = out@.len();
            let mut j: usize = 0;
            while j < props.len()
                invariant
                    j <= props@.len(),
                    *value == Json::Object(*obj),
                    props@ == property_values(*schema),
                    depth <= 64,
                    out@.len() == n_obj + missing_defaults(props@, obj@, j as nat, depth as nat).len(),
                    n_obj == obj@.len(),
                    forall|k: int| 0 <= k < n_obj ==> #[trigger] entry_view(out@[k]) == (obj@[k].0@, child_defaulted(props@, ga, obj@[k], depth as nat)),
                    forall|k: int| n_obj <= k < out@.len() ==> entry_view(#[trigger] out@[k]) == missing_defaults(props@, obj@, j as nat, depth as nat)[k - n_obj],
                decreases props@.len() - j,
            {
                let ghost before = out@;
                let key = props[j].0.as_str();
                if !has_entry_exec(obj, key) {
                    match props[j].1.get("default") {
                        Some(d) => {
                            let dd = apply_defaults_inner(&props[j].1, d, depth + 1);
                            out.push((props[j].0.clone(), dd));
                        },
                        None => {},
                    }
                }
                j = j + 1;
                proof {
                    let m = missing_defaults(props@, obj@, j as nat, depth as nat);
                    assert forall|k: int| n_obj <= k < out@.len() implies entry_view(#[trigger] out@[k]) == m[k - n_obj] by {
                        if k < before.len() {
                            assert(out@[k] == before[k]);
                        }
                    }
                }
            }
            let r = Json::Object(out);
            proof {
                lemma_jv_unfold(r);
                let m = missing_defaults(props@, obj@, props@.len(), depth as nat);
                assert forall|k: int| 0 <= k < out@.len() implies #[trigger] ev(out@)[k] == entry_view(out@[k]) by {}
                assert(jv(r)->Object_0 =~= Seq::new(
                    obj@.len(),
                    |i: int|
                        if 0 <= i < obj@.len() {
                            (obj@[i].0@, child_defaulted(props@, ga, obj@[i], depth as nat))
                        } else {
                            (Seq::empty(), JsonV::Null)
                        },
                ) + m);
                assert(jv(r)->Object_0 =~= defaulted(*schema, *value, depth as nat)->Object_0);
            }
            r
        },
        Json::Array(arr) => {
            match schema.get("items") {
                Some(is) => {
                    let mut out: Vec<Json> = Vec::new();
                    let mut i: usize = 0;
                    while i < arr.len()
                        invariant
                            i <= arr@.len(),
                            depth <= 64,
                            *value == Json::Array(*arr),
                            jget(*schema, "items"@) == Some(*is),
                            out@.len() == i,
                            forall|k: int| 0 <= k < i ==> jv(#[trigger] out@[k]) == defaulted(*is, arr@[k], (depth + 1) as nat),
                        decreases arr@.len() - i,
                    {
                        proof {
                            assert(decreases_to!(*value => value->Array_0));
                            assert(decreases_to!(value->Array_0 => arr[i as int]));
                        }
                        let d = apply_defaults_inner(is, &arr[i], depth + 1);
                        out.push(d);
                        i = i + 1;
                    }
                    let r = Json::Array(out);
                    proof {
                        lemma_jv_unfold(r);
                        assert(jv(r)->Array_0 =~= Seq::new(
                            arr@.len(),
                            |i: int|
                                if 0 <= i < arr@.len() {
                                    defaulted(*is, arr@[i], (depth + 1) as nat)
                                } else {
                                    JsonV::Null
                                },
                        ));
                        assert(jv(r)->Array_0 =~= defaulted(*schema, *value, depth as nat)->Array_0);
                    }
                    r
                },
                None => value.deep_clone(),
            }
        },
        _ => value.deep_clone(),
    }
}

/// The content of an entry.
pub open spec fn entry_view(e: (String, Json)) -> (Seq<char>, JsonV) {
    (e.0@, jv(e.1))
}

/// The length of a list of entries.
pub open spec fn ev_len(e: Seq<(String, Json)>) -> nat {
    e.len()
}

// ---------------------------------------------------------------------------
// The same over a compiled schema
// ---------------------------------------------------------------------------

/// The compiled property schema of key `k`, if declared.
pub open spec fn centry(props: Seq<(String, CompiledSchema)>, k: Seq<char>) -> Option<CompiledSchema>
    decreases props.len(),
{
    if props.len() == 0 {
        None
    } else if props[0].0@ == k {
        Some(props[0].1)
    } else {
        centry(props.drop_first(), k)
    }
}

/// The compiled property schema of key `key`, if declared.
pub fn centries_get<'a>(props: &'a Vec<(String, CompiledSchema)>, key: &str) -> (r: Option<&'a CompiledSchema>)
    ensures
        match r {
            Some(c) => centry(props@, key@) == Some(*c),
            None => centry(props@, key@) is None,
        },
{
    let mut i: usize = 0;
    proof {
        assert(props@.skip(0) =~= props@);
    }
    while i < props.len()
        invariant
            i <= props@.len(),
            centry(props@, key@) == centry(props@.skip(i as int), key@),
        decreases props@.len() - i,
    {
        proof {
            assert(props@.skip(i as int)[0] == props@[i as int]);
            assert(props@.skip(i as int).drop_first() =~= props@.skip(i + 1));
        }
        if crate::text::str_eq(props[i].0.as_str(), key) {
            return Some(&props[i].1);
        }
        i = i + 1;
    }
    None
}

/// The schema that defaults the child `k` of an object at compiled node `c`.
pub open spec fn compiled_child(c: CompiledSchema, k: Seq<char>) -> Option<CompiledSchema> {
    match centry(c.properties@, k) {
        Some(ps) => Some(ps),
        None => if c.preserve_unknown_fields {
            None
        } else {
            match c.additional_properties {
                Some(b) => Some(*b),
                None => None,
            }
        },
    }
}

/// The defaults of the first `n` declared properties that `obj` (at depth
/// `depth`) lacks, each defaulted in turn by its property's compiled node.
pub open spec fn compiled_missing(
    props: Seq<(String, CompiledSchema)>,
    obj: Seq<(String, Json)>,
    n: nat,
    depth: nat,
) -> Seq<(Seq<char>, JsonV)>
    decreases 65 - depth, 0nat, n,
{
    if n == 0 || n > props.len() || depth > 64 {
        Seq::empty()
    } else {
        compiled_missing(props, obj, (n - 1) as nat, depth) + if !has_entry(obj, props[n - 1].0@) {
            match props[n - 1].1.default {
                Some(d) => seq![(props[n - 1].0@, defaulted_c(props[n - 1].1, d, depth + 1))],
                None => Seq::empty(),
            }
        } else {
            Seq::empty()
        }
    }
}

/// Whether compiled node `c` defaults anything inside an object.
pub open spec fn compiled_defaults_objects(c: CompiledSchema) -> bool {
    c.properties@.len() > 0 || (!c.preserve_unknown_fields && c.additional_properties is Some)
}

/// `v` with the defaults of compiled node `c` filled in, at nesting depth `depth`.
pub open spec fn defaulted_c(c: CompiledSchema, v: Json, depth: nat) -> JsonV
    decreases 65 - depth, 1nat, 0nat,
{
    if depth > 64 {
        jv(v)
    } else {
        match v {
            Json::Object(obj) => if !compiled_defaults_objects(c) {
                jv(v)
            } else {
                JsonV::Object(
                    Seq::new(
                        obj@.len(),
                        |i: int|
                            if 0 <= i < obj@.len() {
                                (
                                    obj@[i].0@,
                                    match compiled_child(c, obj@[i].0@) {
                                        Some(cs) => defaulted_c(cs, obj@[i].1, depth + 1),
                                        None => jv(obj@[i].1),
                                    },
                                )
                            } else {
                                (Seq::empty(), JsonV::Null)
                            },
                    ) + compiled_missing(c.properties@, obj@, c.properties@.len(), depth),
                )
            },
            Json::Array(arr) => match c.items {
                Some(is) => JsonV::Array(
                    Seq::new(
                        arr@.len(),
                        |i: int|
                            if 0 <= i < arr@.len() {
                                defaulted_c(*is, arr@[i], depth + 1)
                            } else {
                                JsonV::Null
                            },
                    ),
                ),
                None => jv(v),
            },
            _ => jv(v),
        }
    }
}

/// What the child entry `e` of an object becomes under compiled node `c`.
pub open spec fn compiled_child_defaulted(c: CompiledSchema, e: (String, Json), depth: nat) -> JsonV {
    match compiled_child(c, e.0@) {
        Some(cs) => defaulted_c(cs, e.1, depth + 1),
        None => jv(e.1),
    }
}

/// `value` with the defaults of compiled schema `compiled` filled in.
pub fn apply_defaults_compiled(compiled: &CompiledSchema, value: &Json) -> (r: Json)
    ensures
        r@ == defaulted_c(*compiled, *value, 0),
{
    apply_defaults_compiled_inner(compiled, value, 0)
}

/// `value`, found at nesting depth `depth`, with the defaults of compiled
/// node `compiled` filled in.
pub fn apply_defaults_compiled_inner(compiled: &CompiledSchema, value: &Json, depth: usize) -> (r: Json)
    ensures
        r@ == defaulted_c(*compiled, *value, depth as nat),
    decreases 65 - depth,
{
    if depth > MAX_SCHEMA_DEPTH {
        return value.deep_clone();
    }
    match value {
        Json::Object(obj) => {
            let add: Option<&CompiledSchema> = if compiled.preserve_unknown_fields {
                None
            } else {
                match &compiled.additional_properties {
                    Some(b) => Some(&**b),
                    None => None,
                }
            };
            if compiled.properties.len() == 0 && add.is_none() {
                return value.deep_clone();
            }
            let mut out: Vec<(String, Json)> = Vec::new();
            let mut i: usize = 0;
            while i < obj.len()
                invariant
                    i <= obj@.len(),
                    depth <= 64,
                    *value == Json::Object(*obj),
                    compiled_defaults_objects(*compiled),
                    match add {
                        Some(a) => !compiled.preserve_unknown_fields && compiled.additional_properties == Some(Box::new(*a)),
                        None => compiled.preserve_unknown_fields || compiled.additional_properties is None,
                    },
                    out@.len() == i,
                    forall|k: int| 0 <= k < i ==> #[trigger] entry_view(out@[k]) == (obj@[k].0@, compiled_child_defaulted(*compiled, obj@[k], depth as nat)),
                decreases obj@.len() - i,
            {
                let key = obj[i].0.as_str();
                let ps = centries_get(&compiled.properties, key);
                let cs: Option<&CompiledSchema> = match ps {
                    Some(x) => Some(x),
                    None => add,
                };
                proof {
                    assert(decreases_to!(*value => value->Object_0));
                    assert(decreases_to!(value->Object_0 => obj[i as int]));
                    assert(decreases_to!(obj[i as int] => obj[i as int].1));
                }
                let d = match cs {
                    Some(c) => apply_defaults_compiled_inner(c, &obj[i].1, depth + 1),
                    None => obj[i].1.deep_clone(),
                };
                out.push((obj[i].0.clone(), d));
                i = i + 1;
            }
            let ghost n_obj = out@.len();
            let props = &compiled.properties;
            let mut j: usize = 0;
            while j < props.len()
                invariant
                    j <= props@.len(),
                    *value == Json::Object(*obj),
                    props@ == compiled.properties@,
                    depth <= 64,
                    out@.len() == n_obj + compiled_missing(props@, obj@, j as nat, depth as nat).len(),
                    n_obj == obj@.len(),
                    forall|k: int| 0 <= k < n_obj ==> #[trigger] entry_view(out@[k]) == (obj@[k].0@, compiled_child_defaulted(*compiled, obj@[k], depth as nat)),
                    forall|k: int| n_obj <= k < out@.len() ==> entry_view(#[trigger] out@[k]) == compiled_missing(props@, obj@, j as nat, depth as nat)[k - n_obj],
                decreases props@.len() - j,
            {
                let ghost before = out@;
                let key = props[j].0.as_str();
                if !has_entry_exec(obj, key) {
                    match &props[j].1.default {
                        Some(d) => {
                            let dd = apply_defaults_compiled_inner(&props[j].1, d, depth + 1);
                            out.push((props[j].0.clone(), dd));
                        },
                        None => {},
                    }
                }
                j = j + 1;
                proof {
                    let m = compiled_missing(props@, obj@, j as nat, depth as nat);
                    assert forall|k: int| n_obj <= k < out@.len() implies entry_view(#[trigger] out@[k]) == m[k - n_obj] by {
                        if k < before.len() {
                            assert(out@[k] == before[k]);
                        }
                    }
                }
            }
            let r = Json::Object(out);
            proof {
                lemma_jv_unfold(r);
                assert forall|k: int| 0 <= k < out@.len() implies #[trigger] ev(out@)[k] == entry_view(out@[k]) by {}
                assert(jv(r)->Object_0 =~= defaulted_c(*compiled, *value, depth as nat)->Object_0);
            }
            r
        },
        Json::Array(arr) => {
            match &compiled.items {
                Some(is) => {
                    let mut out: Vec<Json> = Vec::new();
                    let mut i: usize = 0;
                    while i < arr.len()
                        invariant
                            i <= arr@.len(),
                            depth <= 64,
                            *value == Json::Array(*arr),
                            compiled.items == Some(*is),
                            out@.len() == i,
                            forall|k: int| 0 <= k < i ==> jv(#[trigger] out@[k]) == defaulted_c(**is, arr@[k], (depth + 1) as nat),
                        decreases arr@.len() - i,
                    {
                        proof {
                            assert(decreases_to!(*value => value->Array_0));
                            assert(decreases_to!(value->Array_0 => arr[i as int]));
                        }
                        let d = apply_defaults_compiled_inner(is, &arr[i], depth + 1);
                        out.push(d);
                        i = i + 1;
                    }
                    let r = Json::Array(out);
                    proof {
                        lemma_jv_unfold(r);
                        assert(jv(r)->Array_0 =~= defaulted_c(*compiled, *value, depth as nat)->Array_0);
                    }
                    r
                },
                None => value.deep_clone(),
            }
        },
        _ => value.deep_clone(),
    }
}

/// A value that is neither an object nor an array.
pub open spec fn scalar(v: Json) -> bool {
    !(v is Object) && !(v is Array)
}

/// Defaulting keeps what an object has: the result is an object that
/// holds at least as many entries, each key of the object stays at its
/// place, and a scalar value under it stays as it was.
pub proof fn law_defaults_keep_existing(schema: Json, value: Json, depth: nat, i: int)
    requires
        value is Object,
        0 <= i < value->Object_0@.len(),
    ensures
        defaulted(schema, value, depth) is Object,
        defaulted(schema, value, depth)->Object_0.len() >= value->Object_0@.len(),
        defaulted(schema, value, depth)->Object_0[i].0 == value->Object_0@[i].0@,
        scalar(value->Object_0@[i].1) ==> defaulted(schema, value, depth)->Object_0[i].1 == jv(value->Object_0@[i].1),
{
    let obj = value->Object_0;
    lemma_jv_unfold(value);
    let e = obj@[i];
    if scalar(e.1) {
        assert forall|cs: Json| #[trigger] defaulted(cs, e.1, depth + 1) == jv(e.1) by {}
    }
    let props = property_values(schema);
    let add = raw_additional(schema);
    if depth <= 64 && !(props.len() == 0 && add is None) {
        let first = Seq::new(
            obj@.len(),
            |k: int|
                if 0 <= k < obj@.len() {
                    (
                        obj@[k].0@,
                        match child_schema(props, add, obj@[k].0@) {
                            Some(cs) => defaulted(cs, obj@[k].1, depth + 1),
                            None => jv(obj@[k].1),
                        },
                    )
                } else {
                    (Seq::empty(), JsonV::Null)
                },
        );
        let out = first + missing_defaults(props, obj@, props.len(), depth);
        assert(defaulted(schema, value, depth)->Object_0 == out);
        assert(out[i] == first[i]);
    }
}

/// Compiled properties that match raw properties one for one.
pub open spec fn props_match<F: Fn(&Json) -> Result<Rule, String>>(
    cp: Seq<(String, CompiledSchema)>,
    sp: Seq<(String, Json)>,
    depth: nat,
    decode: F,
) -> bool {
    &&& cp.len() == sp.len()
    &&& forall|i: int|
        0 <= i < sp.len() ==> #[trigger] cp[i].0 == sp[i].0 && compiled_from(cp[i].1, sp[i].1, depth, decode)
}

/// Looking a key up in matching property lists finds matching schemas.
proof fn lemma_child_lookup<F: Fn(&Json) -> Result<Rule, String>>(
    cp: Seq<(String, CompiledSchema)>,
    sp: Seq<(String, Json)>,
    k: Seq<char>,
    depth: nat,
    decode: F,
)
    requires
        props_match(cp, sp, depth, decode),
    ensures
        match (centry(cp, k), jentry(sp, k)) {
            (Some(c), Some(s)) => compiled_from(c, s, depth, decode),
            (None, None) => true,
            _ => false,
        },
    decreases sp.len(),
{
    if sp.len() > 0 {
        assert(cp[0].0 == sp[0].0);
        if sp[0].0@ != k {
            let cp2 = cp.drop_first();
            let sp2 = sp.drop_first();
            assert forall|i: int| 0 <= i < sp2.len() implies #[trigger] cp2[i].0 == sp2[i].0 && compiled_from(
                cp2[i].1,
                sp2[i].1,
                depth,
                decode,
            ) by {
                assert(cp2[i] == cp[i + 1]);
                assert(sp2[i] == sp[i + 1]);
                assert(cp[i + 1].0 == sp[i + 1].0);
            }
            lemma_child_lookup(cp2, sp2, k, depth, decode);
        }
    }
}

/// Objects with the same contents have entries under the same keys.
proof fn lemma_has_entry_ev(o1: Seq<(String, Json)>, o2: Seq<(String, Json)>, k: Seq<char>)
    requires
        ev(o1) == ev(o2),
    ensures
        has_entry(o1, k) == has_entry(o2, k),
{
    assert(o1.len() == ev(o1).len() && o2.len() == ev(o2).len());
    if has_entry(o1, k) {
        let i = choose|i: int| 0 <= i < o1.len() && (#[trigger] o1[i]).0@ == k;
        assert(ev(o1)[i] == ev(o2)[i]);
        assert(o2[i].0@ == k);
    }
    if has_entry(o2, k) {
        let i = choose|i: int| 0 <= i < o2.len() && (#[trigger] o2[i]).0@ == k;
        assert(ev(o1)[i] == ev(o2)[i]);
        assert(o1[i].0@ == k);
    }
}

/// Matching property lists give the same missing defaults, for objects with
/// the same contents.
proof fn lemma_missing_match<F: Fn(&Json) -> Result<Rule, String>>(
    cp: Seq<(String, CompiledSchema)>,
    sp: Seq<(String, Json)>,
    o1: Seq<(String, Json)>,
    o2: Seq<(String, Json)>,
    n: nat,
    depth: nat,
    decode: F,
)
    requires
        props_match(cp, sp, depth + 1, decode),
        n <= sp.len(),
        ev(o1) == ev(o2),
        depth <= 64,
    ensures
        compiled_missing(cp, o1, n, depth) == missing_defaults(sp, o2, n, depth),
    decreases 65 - depth, 0nat, n,
{
    if n > 0 {
        lemma_missing_match(cp, sp, o1, o2, (n - 1) as nat, depth, decode);
        let i: int = n - 1;
        assert(props_match(cp, sp, depth + 1, decode));
        assert(0 <= i < sp.len());
        assert(cp[i].0 == sp[i].0);
        assert(compiled_from(cp[i].1, sp[i].1, depth + 1, decode));
        assert(opt_jv(cp[i].1.default) == opt_jv(jget(sp[i].1, "default"@)));
        lemma_has_entry_ev(o1, o2, sp[i].0@);
        match (cp[i].1.default, jget(sp[i].1, "default"@)) {
            (Some(dc), Some(ds)) => {
                lemma_agree(cp[i].1, sp[i].1, dc, ds, depth + 1, decode);
            },
            _ => {},
        }
    }
}

/// The compiled and the raw defaulter agree on values with the same
/// contents.
proof fn lemma_agree<F: Fn(&Json) -> Result<Rule, String>>(
    c: CompiledSchema,
    s: Json,
    v1: Json,
    v2: Json,
    depth: nat,
    decode: F,
)
    requires
        compiled_from(c, s, depth, decode),
        jv(v1) == jv(v2),
    ensures
        defaulted_c(c, v1, depth) == defaulted(s, v2, depth),
    decreases 65 - depth, 1nat, 0nat,
{
    if depth <= 64 {
        lemma_jv_unfold(v1);
        lemma_jv_unfold(v2);
        let props = property_values(s);
        let add = raw_additional(s);
        assert(props_match(c.properties@, props, depth + 1, decode));
        match v1 {
            Json::Object(o1) => {
                let o2 = v2->Object_0;
                assert(ev(o1@) == ev(o2@));
                assert(o1@.len() == ev(o1@).len() && o2@.len() == ev(o2@).len());
                assert(compiled_defaults_objects(c) == !(props.len() == 0 && add is None));
                if compiled_defaults_objects(c) {
                    let a = Seq::new(
                        o1@.len(),
                        |i: int|
                            if 0 <= i < o1@.len() {
                                (
                                    o1@[i].0@,
                                    match compiled_child(c, o1@[i].0@) {
                                        Some(cs) => defaulted_c(cs, o1@[i].1, depth + 1),
                                        None => jv(o1@[i].1),
                                    },
                                )
                            } else {
                                (Seq::empty(), JsonV::Null)
                            },
                    );
                    let b = Seq::new(
                        o2@.len(),
                        |i: int|
                            if 0 <= i < o2@.len() {
                                (
                                    o2@[i].0@,
                                    match child_schema(props, add, o2@[i].0@) {
                                        Some(cs) => defaulted(cs, o2@[i].1, depth + 1),
                                        None => jv(o2@[i].1),
                                    },
                                )
                            } else {
                                (Seq::empty(), JsonV::Null)
                            },
                    );
                    assert forall|i: int| 0 <= i < o1@.len() implies a[i] == b[i] by {
                        assert(ev(o1@)[i] == ev(o2@)[i]);
                        let k = o1@[i].0@;
                        assert(o2@[i].0@ == k);
                        assert(jv(o1@[i].1) == jv(o2@[i].1));
                        lemma_child_lookup(c.properties@, props, k, depth + 1, decode);
                        match (compiled_child(c, k), child_schema(props, add, k)) {
                            (Some(cs), Some(ss)) => {
                                lemma_agree(cs, ss, o1@[i].1, o2@[i].1, depth + 1, decode);
                            },
                            _ => {},
                        }
                    }
                    assert(a =~= b);
                    lemma_missing_match(c.properties@, props, o1@, o2@, props.len(), depth, decode);
                    let cm = compiled_missing(c.properties@, o1@, c.properties@.len(), depth);
                    let dc = defaulted_c(c, v1, depth);
                    assert(dc is Object);
                    assert(dc->Object_0.len() == o1@.len() + cm.len());
                    assert forall|j: int| 0 <= j < dc->Object_0.len() implies dc->Object_0[j] == (a + cm)[j] by {}
                    assert(dc->Object_0 =~= a + cm);
                    let md = missing_defaults(props, o2@, props.len(), depth);
                    let dr = defaulted(s, v2, depth);
                    assert(dr is Object);
                    assert(dr->Object_0.len() == o2@.len() + md.len());
                    assert forall|j: int| 0 <= j < dr->Object_0.len() implies dr->Object_0[j] == (b + md)[j] by {}
                    assert(dr->Object_0 =~= b + md);
                }
            },
            Json::Array(a1) => {
                let a2 = v2->Array_0;
                assert(av(a1@) == av(a2@));
                assert(a1@.len() == av(a1@).len() && a2@.len() == av(a2@).len());
                match (c.items, jget(s, "items"@)) {
                    (Some(ci), Some(si)) => {
                        let a = Seq::new(
                            a1@.len(),
                            |i: int|
                                if 0 <= i < a1@.len() {
                                    defaulted_c(*ci, a1@[i], depth + 1)
                                } else {
                                    JsonV::Null
                                },
                        );
                        let b = Seq::new(
                            a2@.len(),
                            |i: int|
                                if 0 <= i < a2@.len() {
                                    defaulted(si, a2@[i], depth + 1)
                                } else {
                                    JsonV::Null
                                },
                        );
                        assert forall|i: int| 0 <= i < a1@.len() implies a[i] == b[i] by {
                            assert(av(a1@)[i] == av(a2@)[i]);
                            lemma_agree(*ci, si, a1@[i], a2@[i], depth + 1, decode);
                        }
                        assert(a =~= b);
                        let dc = defaulted_c(c, v1, depth);
                        let dr = defaulted(s, v2, depth);
                        assert(dc is Array && dr is Array);
                        assert(dc->Array_0.len() == a1@.len() && dr->Array_0.len() == a2@.len());
                        assert forall|j: int| 0 <= j < a1@.len() implies dc->Array_0[j] == a[j] && dr->Array_0[j] == b[j] by {}
                        assert(dc->Array_0 =~= a);
                        assert(dr->Array_0 =~= b);
                    },
                    _ => {},
                }
            },
            _ => {},
        }
    }
}

/// The defaulter of a compiled schema gives what the defaulter of the raw
/// schema it was compiled from gives, for every value.
pub proof fn law_compiled_defaults_agree<F: Fn(&Json) -> Result<Rule, String>>(
    c: CompiledSchema,
    s: Json,
    v: Json,
    depth: nat,
    decode: F,
)
    requires
        compiled_from(c, s, depth, decode),
    ensures
        defaulted_c(c, v, depth) == defaulted(s, v, depth),
{
    lemma_agree(c, s, v, v, depth, decode);
}

/// Defaulting and validation share one depth cap: past it defaulting leaves
/// a value as it is (raw or compiled schema alike), the raw walk stops at the
/// node alone, and the node compiled there carries only the `SchemaTooDeep`
/// marker, so validation fails closed where defaulting stopped.
pub proof fn law_depth_cap_shared<F: Fn(&Json) -> Result<Rule, String>>(
    c: CompiledSchema,
    s: Json,
    v: Json,
    old: Option<Json>,
    path: Seq<char>,
    root: bool,
    depth: nat,
    decode: F,
)
    requires
        depth > 64,
        compiled_from(c, s, depth, decode),
    ensures
        defaulted(s, v, depth) == jv(v),
        defaulted_c(c, v, depth) == jv(v),
        visits_s(s, v, old, path, root, depth) == seq![VisitS { node: s, value: v, old, path, root, depth }],
        c.validations@.len() == 1,
        c.validations@[0] matches Err(CompilationError::SchemaTooDeep { depth: d }) && d == depth,
{
}

} // verus!
