//! Which schema nodes meet which values: the order in which a validator
//! visits (schema node, value, old value, path) when it walks an object
//! along its schema.
//!
//! At each node the walk visits the node itself, then each declared
//! property present in the value, then each array item, then (unless unknown
//! fields are preserved) each undeclared key under `additionalProperties`,
//! and finally the `allOf`, `oneOf` and `anyOf` branches with the same value.
//! Only the root, and branches taken at the root, carry the root context.
//! A raw schema node nested deeper than the compiler follows is visited
//! alone, without its children, as the compiled node there has none.
use vstd::prelude::*;
use crate::compilation::{
    CompiledSchema, MAX_SCHEMA_DEPTH, Rule, additional_value, branch_values, compiled_from, property_values,
};
use crate::json::{
    Json, jarray, jget, jtrue, lemma_jget_decreases, lemma_member_array_decreases,
    lemma_member_object_decreases,
};
use crate::validation::{indexed, join_path, join_path_index, joined};

verus! {

/// The member `key` of the old value, if any.
pub open spec fn old_member(old: Option<Json>, key: Seq<char>) -> Option<Json> {
    match old {
        Some(o) => jget(o, key),
        None => None,
    }
}

/// The item `i` of the old value, when it is an array long enough.
pub open spec fn old_item(old: Option<Json>, i: int) -> Option<Json> {
    match old {
        Some(Json::Array(a)) => if 0 <= i < a@.len() {
            Some(a@[i])
        } else {
            None
        },
        _ => None,
    }
}

/// Whether the compiled node declares property `key`.
pub open spec fn declares(c: CompiledSchema, key: Seq<char>) -> bool {
    exists|j: int| 0 <= j < c.properties@.len() && (#[trigger] c.properties@[j]).0@ == key
}

/// Whether the raw schema node declares property `key`.
pub open spec fn declares_raw(s: Json, key: Seq<char>) -> bool {
    exists|j: int|
        0 <= j < property_values(s).len() && (#[trigger] property_values(s)[j]).0@ == key
}

/// One stop of a walk over a compiled schema.
pub struct VisitC {
    pub node: CompiledSchema,
    pub value: Json,
    pub old: Option<Json>,
    pub path: Seq<char>,
    pub root: bool,
}

/// One stop of a walk over a raw schema, with the nesting depth of its node.
pub struct VisitS {
    pub node: Json,
    pub value: Json,
    pub old: Option<Json>,
    pub path: Seq<char>,
    pub root: bool,
    pub depth: nat,
}

/// The number of items of an array value (0 for other values).
pub open spec fn array_len(v: Json) -> nat {
    match v {
        Json::Array(a) => a@.len(),
        _ => 0,
    }
}

/// The number of entries of an object value (0 for other values).
pub open spec fn object_len(v: Json) -> nat {
    match v {
        Json::Object(e) => e@.len(),
        _ => 0,
    }
}

/// The branches of a compiled node: `allOf` (0), `oneOf` (1), `anyOf` (2).
pub open spec fn branches(c: CompiledSchema, which: nat) -> Seq<CompiledSchema> {
    if which == 0 {
        c.all_of@
    } else if which == 1 {
        c.one_of@
    } else {
        c.any_of@
    }
}

/// The stops of a walk over compiled node `c` with `value` at `path`.
pub open spec fn visits_c(c: CompiledSchema, value: Json, old: Option<Json>, path: Seq<char>, root: bool) -> Seq<VisitC>
    decreases c, 1nat, 0nat,
{
    seq![VisitC { node: c, value, old, path, root }]
        + prop_visits_c(c, value, old, path, c.properties@.len())
        + item_visits_c(c, value, old, path, array_len(value))
        + extra_visits_c(c, value, old, path, object_len(value))
        + branch_visits_c(c, 0, value, old, path, root, c.all_of@.len())
        + branch_visits_c(c, 1, value, old, path, root, c.one_of@.len())
        + branch_visits_c(c, 2, value, old, path, root, c.any_of@.len())
}

/// The stops under the first `n` declared properties that the value has.
pub open spec fn prop_visits_c(c: CompiledSchema, value: Json, old: Option<Json>, path: Seq<char>, n: nat) -> Seq<VisitC>
    decreases c, 0nat, n,
{
    if n == 0 || n > c.properties@.len() {
        Seq::empty()
    } else {
        let k = c.properties@[n - 1].0@;
        prop_visits_c(c, value, old, path, (n - 1) as nat) + match jget(value, k) {
            Some(cv) => visits_c(c.properties@[n - 1].1, cv, old_member(old, k), joined(path, k), false),
            None => Seq::empty(),
        }
    }
}

/// The stops under the first `n` items of an array value.
pub open spec fn item_visits_c(c: CompiledSchema, value: Json, old: Option<Json>, path: Seq<char>, n: nat) -> Seq<VisitC>
    decreases c, 0nat, n,
{
    match (c.items, value) {
        (Some(ic), Json::Array(arr)) => if n == 0 || n > arr@.len() {
            Seq::empty()
        } else {
            item_visits_c(c, value, old, path, (n - 1) as nat) + visits_c(
                *ic,
                arr@[n - 1],
                old_item(old, n - 1),
                indexed(path, (n - 1) as nat),
                false,
            )
        },
        _ => Seq::empty(),
    }
}

/// The stops under the first `n` entries of an object value that the node
/// does not declare, through `additionalProperties`.
pub open spec fn extra_visits_c(c: CompiledSchema, value: Json, old: Option<Json>, path: Seq<char>, n: nat) -> Seq<VisitC>
    decreases c, 0nat, n,
{
    match (c.additional_properties, value) {
        (Some(ac), Json::Object(obj)) => if c.preserve_unknown_fields || n == 0 || n > obj@.len() {
            Seq::empty()
        } else {
            let k = obj@[n - 1].0@;
            extra_visits_c(c, value, old, path, (n - 1) as nat) + if declares(c, k) {
                Seq::empty()
            } else {
                visits_c(*ac, obj@[n - 1].1, old_member(old, k), joined(path, k), false)
            }
        },
        _ => Seq::empty(),
    }
}

/// The stops under the first `n` branches of one kind, each with the same value.
pub open spec fn branch_visits_c(
    c: CompiledSchema,
    which: nat,
    value: Json,
    old: Option<Json>,
    path: Seq<char>,
    root: bool,
    n: nat,
) -> Seq<VisitC>
    decreases c, 0nat, n,
{
    if n == 0 || n > branches(c, which).len() {
        Seq::empty()
    } else {
        branch_visits_c(c, which, value, old, path, root, (n - 1) as nat) + visits_c(
            branches(c, which)[n - 1],
            value,
            old,
            path,
            root,
        )
    }
}

/// One stop of a walk over a compiled schema: the node, the value and old
/// value found there, the path, and whether the root context applies.
pub struct Visit<'a> {
    pub node: &'a CompiledSchema,
    pub value: &'a Json,
    pub old: Option<&'a Json>,
    pub path: String,
    pub root: bool,
}

/// The value behind an optional reference.
pub open spec fn deref_opt<'a>(o: Option<&'a Json>) -> Option<Json> {
    match o {
        Some(x) => Some(*x),
        None => None,
    }
}

/// The content of a stop.
pub open spec fn vc<'a>(v: Visit<'a>) -> VisitC {
    VisitC { node: *v.node, value: *v.value, old: deref_opt(v.old), path: v.path@, root: v.root }
}

/// The content of a list of stops.
pub open spec fn vcs<'a>(s: Seq<Visit<'a>>) -> Seq<VisitC> {
    s.map_values(|v: Visit<'a>| vc(v))
}

fn push_visit<'a>(out: &mut Vec<Visit<'a>>, v: Visit<'a>)
    ensures
        vcs(final(out)@) == vcs(old(out)@).push(vc(v)),
{
    let ghost before = out@;
    out.push(v);
    proof {
        assert(vcs(out@) =~= vcs(before).push(vc(v)));
    }
}

/// The member `key` of the old value, if any.
pub fn old_member_of<'a>(old: Option<&'a Json>, key: &str) -> (r: Option<&'a Json>)
    ensures
        deref_opt(r) == old_member(deref_opt(old), key@),
{
    match old {
        Some(o) => o.get(key),
        None => None,
    }
}

/// The item `i` of the old value, when it is an array long enough.
pub fn old_item_of<'a>(old: Option<&'a Json>, i: usize) -> (r: Option<&'a Json>)
    ensures
        deref_opt(r) == old_item(deref_opt(old), i as int),
{
    match old {
        Some(Json::Array(a)) => {
            if i < a.len() {
                Some(&a[i])
            } else {
                None
            }
        },
        _ => None,
    }
}

/// Whether `c` declares property `key`.
pub fn declares_key(c: &CompiledSchema, key: &str) -> (r: bool)
    ensures
        r == declares(*c, key@),
{
    let mut j: usize = 0;
    while j < c.properties.len()
        invariant
            j <= c.properties@.len(),
            forall|k: int| 0 <= k < j ==> (#[trigger] c.properties@[k]).0@ != key@,
        decreases c.properties@.len() - j,
    {
        if crate::text::str_eq(c.properties[j].0.as_str(), key) {
            return true;
        }
        j = j + 1;
    }
    false
}

fn walk_props<'a>(
    c: &'a CompiledSchema,
    value: &'a Json,
    old_value: Option<&'a Json>,
    path: &str,
    out: &mut Vec<Visit<'a>>,
)
    ensures
        vcs(final(out)@) == vcs(old(out)@) + prop_visits_c(*c, *value, deref_opt(old_value), path@, c.properties@.len()),
    decreases *c, 0nat,
{
    let ghost s1 = vcs(out@);
    let ghost o = deref_opt(old_value);
    let mut i: usize = 0;
    while i < c.properties.len()
        invariant
            i <= c.properties@.len(),
            vcs(out@) == s1 + prop_visits_c(*c, *value, o, path@, i as nat),
            o == deref_opt(old_value),
        decreases c.properties@.len() - i,
    {
        let name = c.properties[i].0.as_str();
        match value.get(name) {
            Some(cv) => {
                let child_old = old_member_of(old_value, name);
                let child_path = join_path(path, name);
                proof {
                    assert(decreases_to!(*c => c.properties@[i as int].1));
                }
                walk_compiled(&c.properties[i].1, cv, child_old, child_path.as_str(), false, out);
            },
            None => {},
        }
        i = i + 1;
    }
}

fn walk_items<'a>(
    c: &'a CompiledSchema,
    value: &'a Json,
    old_value: Option<&'a Json>,
    path: &str,
    out: &mut Vec<Visit<'a>>,
)
    ensures
        vcs(final(out)@) == vcs(old(out)@) + item_visits_c(*c, *value, deref_opt(old_value), path@, array_len(*value)),
    decreases *c, 0nat,
{
    let ghost s2 = vcs(out@);
    let ghost o = deref_opt(old_value);
    match (&c.items, value) {
        (Some(ic), Json::Array(arr)) => {
            let mut i: usize = 0;
            while i < arr.len()
                invariant
                    i <= arr@.len(),
                    c.items == Some(*ic),
                    *value == Json::Array(*arr),
                    vcs(out@) == s2 + item_visits_c(*c, *value, o, path@, i as nat),
                    o == deref_opt(old_value),
                decreases arr@.len() - i,
            {
                let item_old = old_item_of(old_value, i);
                let item_path = join_path_index(path, i);
                walk_compiled(ic, &arr[i], item_old, item_path.as_str(), false, out);
                i = i + 1;
            }
        },
        _ => {},
    }
}

fn walk_extra<'a>(
    c: &'a CompiledSchema,
    value: &'a Json,
    old_value: Option<&'a Json>,
    path: &str,
    out: &mut Vec<Visit<'a>>,
)
    ensures
        vcs(final(out)@) == vcs(old(out)@) + extra_visits_c(*c, *value, deref_opt(old_value), path@, object_len(*value)),
    decreases *c, 0nat,
{
    let ghost s3 = vcs(out@);
    let ghost o = deref_opt(old_value);
    if c.preserve_unknown_fields {
        return;
    }
    match (&c.additional_properties, value) {
        (Some(ac), Json::Object(obj)) => {
            let mut i: usize = 0;
            while i < obj.len()
                invariant
                    i <= obj@.len(),
                    c.additional_properties == Some(*ac),
                    !c.preserve_unknown_fields,
                    *value == Json::Object(*obj),
                    vcs(out@) == s3 + extra_visits_c(*c, *value, o, path@, i as nat),
                    o == deref_opt(old_value),
                decreases obj@.len() - i,
            {
                let key = obj[i].0.as_str();
                if !declares_key(c, key) {
                    let child_old = old_member_of(old_value, key);
                    let child_path = join_path(path, key);
                    walk_compiled(ac, &obj[i].1, child_old, child_path.as_str(), false, out);
                }
                i = i + 1;
            }
        },
        _ => {},
    }
}

fn walk_branches<'a>(
    c: &'a CompiledSchema,
    which: u8,
    value: &'a Json,
    old_value: Option<&'a Json>,
    path: &str,
    root: bool,
    out: &mut Vec<Visit<'a>>,
)
    requires
        which <= 2,
    ensures
        vcs(final(out)@) == vcs(old(out)@) + branch_visits_c(
            *c,
            which as nat,
            *value,
            deref_opt(old_value),
            path@,
            root,
            branches(*c, which as nat).len(),
        ),
    decreases *c, 0nat,
{
    let ghost s4 = vcs(out@);
    let ghost o = deref_opt(old_value);
    let list = if which == 0 {
        &c.all_of
    } else if which == 1 {
        &c.one_of
    } else {
        &c.any_of
    };
    let mut i: usize = 0;
    while i < list.len()
        invariant
            i <= list@.len(),
            list@ == branches(*c, which as nat),
            which <= 2,
            vcs(out@) == s4 + branch_visits_c(*c, which as nat, *value, o, path@, root, i as nat),
            o == deref_opt(old_value),
        decreases list@.len() - i,
    {
        proof {
            if which == 0 {
                assert(decreases_to!(*c => c.all_of@[i as int]));
            } else if which == 1 {
                assert(decreases_to!(*c => c.one_of@[i as int]));
            } else {
                assert(decreases_to!(*c => c.any_of@[i as int]));
            }
        }
        walk_compiled(&list[i], value, old_value, path, root, out);
        i = i + 1;
    }
}

/// Appends to `out` the stops of a walk over compiled node `c` with `value`
/// (and the old value, if any) at `path`.
pub fn walk_compiled<'a>(
    c: &'a CompiledSchema,
    value: &'a Json,
    old_value: Option<&'a Json>,
    path: &str,
    root: bool,
    out: &mut Vec<Visit<'a>>,
)
    ensures
        vcs(final(out)@) == vcs(old(out)@) + visits_c(*c, *value, deref_opt(old_value), path@, root),
    decreases *c, 1nat,
{
    let ghost start = vcs(out@);
    let ghost o = deref_opt(old_value);
    let ghost me = VisitC { node: *c, value: *value, old: o, path: path@, root };
    push_visit(out, Visit { node: c, value, old: old_value, path: crate::text::string_of(path), root });
    let ghost a0 = vcs(out@);
    walk_props(c, value, old_value, path, out);
    let ghost a1 = vcs(out@);
    walk_items(c, value, old_value, path, out);
    let ghost a2 = vcs(out@);
    walk_extra(c, value, old_value, path, out);
    let ghost a3 = vcs(out@);
    walk_branches(c, 0, value, old_value, path, root, out);
    let ghost a4 = vcs(out@);
    walk_branches(c, 1, value, old_value, path, root, out);
    let ghost a5 = vcs(out@);
    walk_branches(c, 2, value, old_value, path, root, out);
    proof {
        lemma_visits_c_unfold(*c, *value, o, path@, root);
        let p = prop_visits_c(*c, *value, o, path@, c.properties@.len());
        let it = item_visits_c(*c, *value, o, path@, array_len(*value));
        let ex = extra_visits_c(*c, *value, o, path@, object_len(*value));
        let b0 = branch_visits_c(*c, 0, *value, o, path@, root, c.all_of@.len());
        let b1 = branch_visits_c(*c, 1, *value, o, path@, root, c.one_of@.len());
        let b2 = branch_visits_c(*c, 2, *value, o, path@, root, c.any_of@.len());
        assert(a0 == start.push(me));
        assert(a1 == a0 + p);
        assert(a2 == a1 + it);
        assert(a3 == a2 + ex);
        assert(a4 == a3 + b0);
        assert(a5 == a4 + b1);
        assert(vcs(out@) == a5 + b2);
        assert(vcs(out@) =~= start + (seq![me] + p + it + ex + b0 + b1 + b2));
    }
}

/// How `visits_c` unfolds.
proof fn lemma_visits_c_unfold(c: CompiledSchema, value: Json, old: Option<Json>, path: Seq<char>, root: bool)
    ensures
        visits_c(c, value, old, path, root) == seq![VisitC { node: c, value, old, path, root }]
            + prop_visits_c(c, value, old, path, c.properties@.len()) + item_visits_c(c, value, old, path, array_len(value))
            + extra_visits_c(c, value, old, path, object_len(value)) + branch_visits_c(c, 0, value, old, path, root, c.all_of@.len())
            + branch_visits_c(c, 1, value, old, path, root, c.one_of@.len()) + branch_visits_c(c, 2, value, old, path, root, c.any_of@.len()),
{
}

// ---------------------------------------------------------------------------
// Walking a raw schema
// ---------------------------------------------------------------------------

/// The raw branch list `allOf` (0), `oneOf` (1) or `anyOf` (2) of a schema node.
pub open spec fn raw_branches(s: Json, which: nat) -> Seq<Json> {
    if which == 0 {
        branch_values(s, "allOf"@)
    } else if which == 1 {
        branch_values(s, "oneOf"@)
    } else {
        branch_values(s, "anyOf"@)
    }
}

/// The stops of a walk over raw schema node `s`, found at nesting depth
/// `depth`, with `value` at `path`. Past the depth the compiler keeps, the
/// walk stops at the node itself.
pub open spec fn visits_s(s: Json, value: Json, old: Option<Json>, path: Seq<char>, root: bool, depth: nat) -> Seq<VisitS>
    decreases s, 1nat, 0nat,
{
    if depth > 64 {
        seq![VisitS { node: s, value, old, path, root, depth }]
    } else {
        seq![VisitS { node: s, value, old, path, root, depth }]
            + prop_visits_s(s, value, old, path, depth, property_values(s).len())
            + item_visits_s(s, value, old, path, depth, array_len(value))
            + extra_visits_s(s, value, old, path, depth, object_len(value))
            + branch_visits_s(s, 0, value, old, path, root, depth, raw_branches(s, 0).len())
            + branch_visits_s(s, 1, value, old, path, root, depth, raw_branches(s, 1).len())
            + branch_visits_s(s, 2, value, old, path, root, depth, raw_branches(s, 2).len())
    }
}

/// The stops under the first `n` declared properties that the value has.
pub open spec fn prop_visits_s(s: Json, value: Json, old: Option<Json>, path: Seq<char>, depth: nat, n: nat) -> Seq<VisitS>
    decreases s, 0nat, n,
{
    let props = property_values(s);
    if n == 0 || n > props.len() {
        Seq::empty()
    } else {
        proof {
            lemma_member_object_decreases(s, "properties"@);
            assert(decreases_to!(s => props[n - 1].1));
        }
        let k = props[n - 1].0@;
        prop_visits_s(s, value, old, path, depth, (n - 1) as nat) + match jget(value, k) {
            Some(cv) => visits_s(props[n - 1].1, cv, old_member(old, k), joined(path, k), false, depth + 1),
            None => Seq::empty(),
        }
    }
}

/// The stops under the first `n` items of an array value.
pub open spec fn item_visits_s(s: Json, value: Json, old: Option<Json>, path: Seq<char>, depth: nat, n: nat) -> Seq<VisitS>
    decreases s, 0nat, n,
{
    match (jget(s, "items"@), value) {
        (Some(is), Json::Array(arr)) => if n == 0 || n > arr@.len() {
            Seq::empty()
        } else {
            proof {
                lemma_jget_decreases(s, "items"@);
            }
            item_visits_s(s, value, old, path, depth, (n - 1) as nat) + visits_s(
                is,
                arr@[n - 1],
                old_item(old, n - 1),
                indexed(path, (n - 1) as nat),
                false,
                depth + 1,
            )
        },
        _ => Seq::empty(),
    }
}

/// The stops under the first `n` undeclared entries of an object value,
/// through `additionalProperties`.
pub open spec fn extra_visits_s(s: Json, value: Json, old: Option<Json>, path: Seq<char>, depth: nat, n: nat) -> Seq<VisitS>
    decreases s, 0nat, n,
{
    match (additional_value(s), value) {
        (Some(a), Json::Object(obj)) => if jtrue(jget(s, "x-kubernetes-preserve-unknown-fields"@)) || n == 0
            || n > obj@.len() {
            Seq::empty()
        } else {
            proof {
                lemma_jget_decreases(s, "additionalProperties"@);
            }
            let k = obj@[n - 1].0@;
            extra_visits_s(s, value, old, path, depth, (n - 1) as nat) + if declares_raw(s, k) {
                Seq::empty()
            } else {
                visits_s(a, obj@[n - 1].1, old_member(old, k), joined(path, k), false, depth + 1)
            }
        },
        _ => Seq::empty(),
    }
}

/// The stops under the first `n` branches of one kind, each with the same value.
pub open spec fn branch_visits_s(
    s: Json,
    which: nat,
    value: Json,
    old: Option<Json>,
    path: Seq<char>,
    root: bool,
    depth: nat,
    n: nat,
) -> Seq<VisitS>
    decreases s, 0nat, n,
{
    if n == 0 || n > raw_branches(s, which).len() {
        Seq::empty()
    } else {
        proof {
            lemma_member_array_decreases(s, "allOf"@);
            lemma_member_array_decreases(s, "oneOf"@);
            lemma_member_array_decreases(s, "anyOf"@);
            assert(decreases_to!(s => raw_branches(s, which)[n - 1]));
        }
        branch_visits_s(s, which, value, old, path, root, depth, (n - 1) as nat) + visits_s(
            raw_branches(s, which)[n - 1],
            value,
            old,
            path,
            root,
            depth + 1,
        )
    }
}

/// One stop of a walk over a raw schema.
pub struct RawVisit<'a> {
    pub node: &'a Json,
    pub value: &'a Json,
    pub old: Option<&'a Json>,
    pub path: String,
    pub root: bool,
    pub depth: usize,
}

/// The content of a stop.
pub open spec fn vr<'a>(v: RawVisit<'a>) -> VisitS {
    VisitS { node: *v.node, value: *v.value, old: deref_opt(v.old), path: v.path@, root: v.root, depth: v.depth as nat }
}

/// The content of a list of stops.
pub open spec fn vrs<'a>(s: Seq<RawVisit<'a>>) -> Seq<VisitS> {
    s.map_values(|v: RawVisit<'a>| vr(v))
}

fn push_raw_visit<'a>(out: &mut Vec<RawVisit<'a>>, v: RawVisit<'a>)
    ensures
        vrs(final(out)@) == vrs(old(out)@).push(vr(v)),
{
    let ghost before = out@;
    out.push(v);
    proof {
        assert(vrs(out@) =~= vrs(before).push(vr(v)));
    }
}

/// Whether raw schema node `schema` declares property `key`.
pub fn declares_key_raw(schema: &Json, key: &str) -> (r: bool)
    ensures
        r == declares_raw(*schema, key@),
{
    match schema.get("properties") {
        Some(Json::Object(props)) => {
            let mut j: usize = 0;
            while j < props.len()
                invariant
                    j <= props@.len(),
                    props@ == property_values(*schema),
                    forall|k: int| 0 <= k < j ==> (#[trigger] props@[k]).0@ != key@,
                decreases props@.len() - j,
            {
                if crate::text::str_eq(props[j].0.as_str(), key) {
                    return true;
                }
                j = j + 1;
            }
            false
        },
        _ => false,
    }
}

fn walk_raw_props<'a>(
    schema: &'a Json,
    value: &'a Json,
    old_value: Option<&'a Json>,
    path: &str,
    depth: usize,
    out: &mut Vec<RawVisit<'a>>,
)
    requires
        depth <= 64,
    ensures
        vrs(final(out)@) == vrs(old(out)@) + prop_visits_s(*schema, *value, deref_opt(old_value), path@, depth as nat, property_values(*schema).len()),
    decreases *schema, 0nat,
{
    let ghost s1 = vrs(out@);
    let ghost o = deref_opt(old_value);
    proof {
        lemma_member_object_decreases(*schema, "properties"@);
    }
    match schema.get("properties") {
        Some(Json::Object(props)) => {
            let mut i: usize = 0;
            while i < props.len()
                invariant
                    i <= props@.len(),
                    props@ == property_values(*schema),
                    forall|k: int| 0 <= k < props@.len() ==> decreases_to!(*schema => (#[trigger] props@[k]).1),
                    vrs(out@) == s1 + prop_visits_s(*schema, *value, o, path@, depth as nat, i as nat),
                    o == deref_opt(old_value),
                    depth <= 64,
                decreases props@.len() - i,
            {
                let name = props[i].0.as_str();
                match value.get(name) {
                    Some(cv) => {
                        let child_old = old_member_of(old_value, name);
                        let child_path = join_path(path, name);
                        proof {
                            assert(decreases_to!(*schema => props@[i as int].1));
                        }
                        walk_schema_at(&props[i].1, cv, child_old, child_path.as_str(), false, depth + 1, out);
                    },
                    None => {},
                }
                i = i + 1;
            }
        },
        _ => {},
    }
}

fn walk_raw_items<'a>(
    schema: &'a Json,
    value: &'a Json,
    old_value: Option<&'a Json>,
    path: &str,
    depth: usize,
    out: &mut Vec<RawVisit<'a>>,
)
    requires
        depth <= 64,
    ensures
        vrs(final(out)@) == vrs(old(out)@) + item_visits_s(*schema, *value, deref_opt(old_value), path@, depth as nat, array_len(*value)),
    decreases *schema, 0nat,
{
    let ghost s2 = vrs(out@);
    let ghost o = deref_opt(old_value);
    proof {
        lemma_jget_decreases(*schema, "items"@);
    }
    match (schema.get("items"), value) {
        (Some(is), Json::Array(arr)) => {
            let mut i: usize = 0;
            while i < arr.len()
                invariant
                    i <= arr@.len(),
                    jget(*schema, "items"@) == Some(*is),
                    decreases_to!(*schema => *is),
                    *value == Json::Array(*arr),
                    vrs(out@) == s2 + item_visits_s(*schema, *value, o, path@, depth as nat, i as nat),
                    o == deref_opt(old_value),
                    depth <= 64,
                decreases arr@.len() - i,
            {
                let item_old = old_item_of(old_value, i);
                let item_path = join_path_index(path, i);
                walk_schema_at(is, &arr[i], item_old, item_path.as_str(), false, depth + 1, out);
                i = i + 1;
            }
        },
        _ => {},
    }
}

fn walk_raw_extra<'a>(
    schema: &'a Json,
    value: &'a Json,
    old_value: Option<&'a Json>,
    path: &str,
    depth: usize,
    out: &mut Vec<RawVisit<'a>>,
)
    requires
        depth <= 64,
    ensures
        vrs(final(out)@) == vrs(old(out)@) + extra_visits_s(*schema, *value, deref_opt(old_value), path@, depth as nat, object_len(*value)),
    decreases *schema, 0nat,
{
    let ghost s3 = vrs(out@);
    let ghost o = deref_opt(old_value);
    let preserve = match schema.get("x-kubernetes-preserve-unknown-fields") {
        Some(x) => x.is_true(),
        None => false,
    };
    if preserve {
        return;
    }
    proof {
        lemma_jget_decreases(*schema, "additionalProperties"@);
    }
    match (schema.get("additionalProperties"), value) {
        (Some(a), Json::Object(obj)) => {
            if !a.is_object() {
                return;
            }
            let mut i: usize = 0;
            while i < obj.len()
                invariant
                    i <= obj@.len(),
                    additional_value(*schema) == Some(*a),
                    decreases_to!(*schema => *a),
                    !jtrue(jget(*schema, "x-kubernetes-preserve-unknown-fields"@)),
                    *value == Json::Object(*obj),
                    vrs(out@) == s3 + extra_visits_s(*schema, *value, o, path@, depth as nat, i as nat),
                    o == deref_opt(old_value),
                    depth <= 64,
                decreases obj@.len() - i,
            {
                let key = obj[i].0.as_str();
                if !declares_key_raw(schema, key) {
                    let child_old = old_member_of(old_value, key);
                    let child_path = join_path(path, key);
                    walk_schema_at(a, &obj[i].1, child_old, child_path.as_str(), false, depth + 1, out);
                }
                i = i + 1;
            }
        },
        _ => {},
    }
}

fn walk_raw_branches<'a>(
    schema: &'a Json,
    which: u8,
    value: &'a Json,
    old_value: Option<&'a Json>,
    path: &str,
    root: bool,
    depth: usize,
    out: &mut Vec<RawVisit<'a>>,
)
    requires
        which <= 2,
        depth <= 64,
    ensures
        vrs(final(out)@) == vrs(old(out)@) + branch_visits_s(
            *schema,
            which as nat,
            *value,
            deref_opt(old_value),
            path@,
            root,
            depth as nat,
            raw_branches(*schema, which as nat).len(),
        ),
    decreases *schema, 0nat,
{
    let ghost s4 = vrs(out@);
    let ghost o = deref_opt(old_value);
    let key = if which == 0 {
        "allOf"
    } else if which == 1 {
        "oneOf"
    } else {
        "anyOf"
    };
    proof {
        lemma_member_array_decreases(*schema, "allOf"@);
        lemma_member_array_decreases(*schema, "oneOf"@);
        lemma_member_array_decreases(*schema, "anyOf"@);
    }
    match schema.get(key) {
        Some(Json::Array(list)) => {
            proof {
                lemma_member_array_decreases(*schema, key@);
                assert(jarray(jget(*schema, key@)) == Some(list@));
                assert forall|k: int| 0 <= k < list@.len() implies decreases_to!(*schema => #[trigger] list@[k]) by {
                    let v = jarray(jget(*schema, key@)).unwrap();
                    assert(v[k] == list@[k]);
                }
            }
            let mut i: usize = 0;
            while i < list.len()
                invariant
                    i <= list@.len(),
                    list@ == raw_branches(*schema, which as nat),
                    forall|k: int| 0 <= k < list@.len() ==> decreases_to!(*schema => #[trigger] list@[k]),
                    which <= 2,
                    vrs(out@) == s4 + branch_visits_s(*schema, which as nat, *value, o, path@, root, depth as nat, i as nat),
                    o == deref_opt(old_value),
                    depth <= 64,
                decreases list@.len() - i,
            {
                proof {
                    assert(decreases_to!(*schema => list@[i as int]));
                }
                walk_schema_at(&list[i], value, old_value, path, root, depth + 1, out);
                i = i + 1;
            }
        },
        _ => {},
    }
}

/// Appends to `out` the stops of a walk over raw schema node `schema`, found
/// at nesting depth `depth`, with `value` (and the old value, if any) at
/// `path`.
#[verifier::rlimit(80)]
#[verifier::spinoff_prover]
pub fn walk_schema_at<'a>(
    schema: &'a Json,
    value: &'a Json,
    old_value: Option<&'a Json>,
    path: &str,
    root: bool,
    depth: usize,
    out: &mut Vec<RawVisit<'a>>,
)
    ensures
        vrs(final(out)@) == vrs(old(out)@) + visits_s(*schema, *value, deref_opt(old_value), path@, root, depth as nat),
    decreases *schema, 1nat,
{
    let ghost start = vrs(out@);
    let ghost o = deref_opt(old_value);
    let ghost me = VisitS { node: *schema, value: *value, old: o, path: path@, root, depth: depth as nat };
    push_raw_visit(
        out,
        RawVisit { node: schema, value, old: old_value, path: crate::text::string_of(path), root, depth },
    );
    if depth > MAX_SCHEMA_DEPTH {
        proof {
            assert(visits_s(*schema, *value, o, path@, root, depth as nat) == seq![me]);
            assert(vrs(out@) =~= start + seq![me]);
        }
        return;
    }
    let ghost a0 = vrs(out@);
    walk_raw_props(schema, value, old_value, path, depth, out);
    let ghost a1 = vrs(out@);
    walk_raw_items(schema, value, old_value, path, depth, out);
    let ghost a2 = vrs(out@);
    walk_raw_extra(schema, value, old_value, path, depth, out);
    let ghost a3 = vrs(out@);
    walk_raw_branches(schema, 0, value, old_value, path, root, depth, out);
    let ghost a4 = vrs(out@);
    walk_raw_branches(schema, 1, value, old_value, path, root, depth, out);
    let ghost a5 = vrs(out@);
    walk_raw_branches(schema, 2, value, old_value, path, root, depth, out);
    assert(vrs(out@) =~= start + visits_s(*schema, *value, o, path@, root, depth as nat)) by {
        let d = depth as nat;
        lemma_visits_s_unfold(*schema, *value, o, path@, root, d);
        let s = *schema;
        let p = prop_visits_s(s, *value, o, path@, d, property_values(s).len());
        let it = item_visits_s(s, *value, o, path@, d, array_len(*value));
        let ex = extra_visits_s(s, *value, o, path@, d, object_len(*value));
        let b0 = branch_visits_s(s, 0, *value, o, path@, root, d, raw_branches(s, 0).len());
        let b1 = branch_visits_s(s, 1, *value, o, path@, root, d, raw_branches(s, 1).len());
        let b2 = branch_visits_s(s, 2, *value, o, path@, root, d, raw_branches(s, 2).len());
        assert(a0 == start.push(me));
        assert(a1 == a0 + p);
        assert(a2 == a1 + it);
        assert(a3 == a2 + ex);
        assert(a4 == a3 + b0);
        assert(a5 == a4 + b1);
        assert(vrs(out@) == a5 + b2);
        assert(vrs(out@) =~= start + (seq![me] + p + it + ex + b0 + b1 + b2));
    }
}

/// Appends to `out` the stops of a walk over raw schema `schema`, taken as
/// the root of the nesting, with `value` (and the old value, if any) at
/// `path`.
pub fn walk_schema<'a>(
    schema: &'a Json,
    value: &'a Json,
    old_value: Option<&'a Json>,
    path: &str,
    root: bool,
    out: &mut Vec<RawVisit<'a>>,
)
    ensures
        vrs(final(out)@) == vrs(old(out)@) + visits_s(*schema, *value, deref_opt(old_value), path@, root, 0),
{
    walk_schema_at(schema, value, old_value, path, root, 0, out);
}

/// How `visits_s` unfolds within the depth the compiler keeps.
proof fn lemma_visits_s_unfold(s: Json, value: Json, old: Option<Json>, path: Seq<char>, root: bool, depth: nat)
    requires
        depth <= 64,
    ensures
        visits_s(s, value, old, path, root, depth) == seq![VisitS { node: s, value, old, path, root, depth }]
            + prop_visits_s(s, value, old, path, depth, property_values(s).len())
            + item_visits_s(s, value, old, path, depth, array_len(value))
            + extra_visits_s(s, value, old, path, depth, object_len(value))
            + branch_visits_s(s, 0, value, old, path, root, depth, raw_branches(s, 0).len())
            + branch_visits_s(s, 1, value, old, path, root, depth, raw_branches(s, 1).len())
            + branch_visits_s(s, 2, value, old, path, root, depth, raw_branches(s, 2).len()),
{
}

// ---------------------------------------------------------------------------
// The two walks agree
// ---------------------------------------------------------------------------

/// A stop of the compiled walk that matches a stop of the raw walk: the same
/// value, old value, path and root flag, at a node compiled from the raw node
/// at the depth where the raw walk met it.
pub open spec fn visit_matches<F: Fn(&Json) -> Result<Rule, String>>(a: VisitC, b: VisitS, decode: F) -> bool {
    &&& a.value == b.value
    &&& a.old == b.old
    &&& a.path == b.path
    &&& a.root == b.root
    &&& compiled_from(a.node, b.node, b.depth, decode)
}

/// Two lists of stops that match one for one.
pub open spec fn visits_match<F: Fn(&Json) -> Result<Rule, String>>(
    a: Seq<VisitC>,
    b: Seq<VisitS>,
    decode: F,
) -> bool {
    &&& a.len() == b.len()
    &&& forall|i: int| 0 <= i < a.len() ==> #[trigger] visit_matches(a[i], b[i], decode)
}

proof fn lemma_match_concat<F: Fn(&Json) -> Result<Rule, String>>(
    a1: Seq<VisitC>,
    b1: Seq<VisitS>,
    a2: Seq<VisitC>,
    b2: Seq<VisitS>,
    decode: F,
)
    requires
        visits_match(a1, b1, decode),
        visits_match(a2, b2, decode),
    ensures
        visits_match(a1 + a2, b1 + b2, decode),
{
    assert forall|i: int| 0 <= i < (a1 + a2).len() implies #[trigger] visit_matches(
        (a1 + a2)[i],
        (b1 + b2)[i],
        decode,
    ) by {
        if i < a1.len() {
            assert(visit_matches(a1[i], b1[i], decode));
        } else {
            assert(visit_matches(a2[i - a1.len()], b2[i - a1.len()], decode));
        }
    }
}

proof fn lemma_empty_match<F: Fn(&Json) -> Result<Rule, String>>(decode: F)
    ensures
        visits_match(Seq::<VisitC>::empty(), Seq::<VisitS>::empty(), decode),
{
}

proof fn lemma_visits_agree<F: Fn(&Json) -> Result<Rule, String>>(
    c: CompiledSchema,
    s: Json,
    value: Json,
    old: Option<Json>,
    path: Seq<char>,
    root: bool,
    depth: nat,
    decode: F,
)
    requires
        compiled_from(c, s, depth, decode),
    ensures
        visits_match(visits_c(c, value, old, path, root), visits_s(s, value, old, path, root, depth), decode),
    decreases s, 1nat, 0nat,
{
    lemma_visits_c_unfold(c, value, old, path, root);
    let hc = seq![VisitC { node: c, value, old, path, root }];
    let hs = seq![VisitS { node: s, value, old, path, root, depth }];
    assert(visit_matches(hc[0], hs[0], decode));
    assert(visits_match(hc, hs, decode));
    let pc = prop_visits_c(c, value, old, path, c.properties@.len());
    let ic = item_visits_c(c, value, old, path, array_len(value));
    let ec = extra_visits_c(c, value, old, path, object_len(value));
    let b0c = branch_visits_c(c, 0, value, old, path, root, c.all_of@.len());
    let b1c = branch_visits_c(c, 1, value, old, path, root, c.one_of@.len());
    let b2c = branch_visits_c(c, 2, value, old, path, root, c.any_of@.len());
    if depth > 64 {
        assert(pc =~= Seq::<VisitC>::empty());
        assert(ic =~= Seq::<VisitC>::empty());
        assert(ec =~= Seq::<VisitC>::empty());
        assert(b0c =~= Seq::<VisitC>::empty());
        assert(b1c =~= Seq::<VisitC>::empty());
        assert(b2c =~= Seq::<VisitC>::empty());
        assert(visits_c(c, value, old, path, root) =~= hc);
    } else {
        lemma_visits_s_unfold(s, value, old, path, root, depth);
        lemma_props_agree(c, s, value, old, path, depth, property_values(s).len(), decode);
        lemma_items_agree(c, s, value, old, path, depth, array_len(value), decode);
        lemma_extra_agree(c, s, value, old, path, depth, object_len(value), decode);
        lemma_branches_agree(c, s, 0, value, old, path, root, depth, raw_branches(s, 0).len(), decode);
        lemma_branches_agree(c, s, 1, value, old, path, root, depth, raw_branches(s, 1).len(), decode);
        lemma_branches_agree(c, s, 2, value, old, path, root, depth, raw_branches(s, 2).len(), decode);
        let ps = prop_visits_s(s, value, old, path, depth, property_values(s).len());
        let is = item_visits_s(s, value, old, path, depth, array_len(value));
        let es = extra_visits_s(s, value, old, path, depth, object_len(value));
        let b0s = branch_visits_s(s, 0, value, old, path, root, depth, raw_branches(s, 0).len());
        let b1s = branch_visits_s(s, 1, value, old, path, root, depth, raw_branches(s, 1).len());
        let b2s = branch_visits_s(s, 2, value, old, path, root, depth, raw_branches(s, 2).len());
        lemma_match_concat(hc, hs, pc, ps, decode);
        lemma_match_concat(hc + pc, hs + ps, ic, is, decode);
        lemma_match_concat(hc + pc + ic, hs + ps + is, ec, es, decode);
        lemma_match_concat(hc + pc + ic + ec, hs + ps + is + es, b0c, b0s, decode);
        lemma_match_concat(hc + pc + ic + ec + b0c, hs + ps + is + es + b0s, b1c, b1s, decode);
        lemma_match_concat(hc + pc + ic + ec + b0c + b1c, hs + ps + is + es + b0s + b1s, b2c, b2s, decode);
    }
}

proof fn lemma_props_agree<F: Fn(&Json) -> Result<Rule, String>>(
    c: CompiledSchema,
    s: Json,
    value: Json,
    old: Option<Json>,
    path: Seq<char>,
    depth: nat,
    n: nat,
    decode: F,
)
    requires
        compiled_from(c, s, depth, decode),
        depth <= 64,
        n <= property_values(s).len(),
    ensures
        visits_match(prop_visits_c(c, value, old, path, n), prop_visits_s(s, value, old, path, depth, n), decode),
    decreases s, 0nat, n,
{
    let props = property_values(s);
    if n == 0 {
        lemma_empty_match(decode);
    } else {
        lemma_props_agree(c, s, value, old, path, depth, (n - 1) as nat, decode);
        let i: int = n - 1;
        lemma_member_object_decreases(s, "properties"@);
        assert(decreases_to!(s => props[i].1));
        assert(c.properties@[i].0 == props[i].0);
        let k = props[i].0@;
        match jget(value, k) {
            Some(cv) => {
                lemma_visits_agree(
                    c.properties@[i].1,
                    props[i].1,
                    cv,
                    old_member(old, k),
                    joined(path, k),
                    false,
                    depth + 1,
                    decode,
                );
                lemma_match_concat(
                    prop_visits_c(c, value, old, path, (n - 1) as nat),
                    prop_visits_s(s, value, old, path, depth, (n - 1) as nat),
                    visits_c(c.properties@[i].1, cv, old_member(old, k), joined(path, k), false),
                    visits_s(props[i].1, cv, old_member(old, k), joined(path, k), false, depth + 1),
                    decode,
                );
            },
            None => {
                lemma_empty_match(decode);
                lemma_match_concat(
                    prop_visits_c(c, value, old, path, (n - 1) as nat),
                    prop_visits_s(s, value, old, path, depth, (n - 1) as nat),
                    Seq::empty(),
                    Seq::empty(),
                    decode,
                );
            },
        }
    }
}

proof fn lemma_items_agree<F: Fn(&Json) -> Result<Rule, String>>(
    c: CompiledSchema,
    s: Json,
    value: Json,
    old: Option<Json>,
    path: Seq<char>,
    depth: nat,
    n: nat,
    decode: F,
)
    requires
        compiled_from(c, s, depth, decode),
        depth <= 64,
        n <= array_len(value),
    ensures
        visits_match(item_visits_c(c, value, old, path, n), item_visits_s(s, value, old, path, depth, n), decode),
    decreases s, 0nat, n,
{
    lemma_empty_match(decode);
    match (jget(s, "items"@), value) {
        (Some(x), Json::Array(arr)) => {
            let b = c.items.unwrap();
            if n > 0 {
                lemma_items_agree(c, s, value, old, path, depth, (n - 1) as nat, decode);
                lemma_jget_decreases(s, "items"@);
                lemma_visits_agree(
                    *b,
                    x,
                    arr@[n - 1],
                    old_item(old, n - 1),
                    indexed(path, (n - 1) as nat),
                    false,
                    depth + 1,
                    decode,
                );
                lemma_match_concat(
                    item_visits_c(c, value, old, path, (n - 1) as nat),
                    item_visits_s(s, value, old, path, depth, (n - 1) as nat),
                    visits_c(*b, arr@[n - 1], old_item(old, n - 1), indexed(path, (n - 1) as nat), false),
                    visits_s(x, arr@[n - 1], old_item(old, n - 1), indexed(path, (n - 1) as nat), false, depth + 1),
                    decode,
                );
            }
        },
        _ => {},
    }
}

proof fn lemma_declares_agree<F: Fn(&Json) -> Result<Rule, String>>(
    c: CompiledSchema,
    s: Json,
    depth: nat,
    k: Seq<char>,
    decode: F,
)
    requires
        compiled_from(c, s, depth, decode),
        depth <= 64,
    ensures
        declares(c, k) == declares_raw(s, k),
{
    let props = property_values(s);
    if declares(c, k) {
        let j = choose|j: int| 0 <= j < c.properties@.len() && (#[trigger] c.properties@[j]).0@ == k;
        assert(c.properties@[j].0 == props[j].0);
        assert(props[j].0@ == k);
    }
    if declares_raw(s, k) {
        let j = choose|j: int| 0 <= j < props.len() && (#[trigger] property_values(s)[j]).0@ == k;
        assert(c.properties@[j].0 == props[j].0);
        assert(c.properties@[j].0@ == k);
    }
}

proof fn lemma_extra_agree<F: Fn(&Json) -> Result<Rule, String>>(
    c: CompiledSchema,
    s: Json,
    value: Json,
    old: Option<Json>,
    path: Seq<char>,
    depth: nat,
    n: nat,
    decode: F,
)
    requires
        compiled_from(c, s, depth, decode),
        depth <= 64,
        n <= object_len(value),
    ensures
        visits_match(extra_visits_c(c, value, old, path, n), extra_visits_s(s, value, old, path, depth, n), decode),
    decreases s, 0nat, n,
{
    lemma_empty_match(decode);
    match (additional_value(s), value) {
        (Some(x), Json::Object(obj)) => {
            let b = c.additional_properties.unwrap();
            if !c.preserve_unknown_fields && n > 0 {
                lemma_extra_agree(c, s, value, old, path, depth, (n - 1) as nat, decode);
                let k = obj@[n - 1].0@;
                lemma_declares_agree(c, s, depth, k, decode);
                if !declares(c, k) {
                    lemma_jget_decreases(s, "additionalProperties"@);
                    lemma_visits_agree(*b, x, obj@[n - 1].1, old_member(old, k), joined(path, k), false, depth + 1, decode);
                    lemma_match_concat(
                        extra_visits_c(c, value, old, path, (n - 1) as nat),
                        extra_visits_s(s, value, old, path, depth, (n - 1) as nat),
                        visits_c(*b, obj@[n - 1].1, old_member(old, k), joined(path, k), false),
                        visits_s(x, obj@[n - 1].1, old_member(old, k), joined(path, k), false, depth + 1),
                        decode,
                    );
                } else {
                    lemma_match_concat(
                        extra_visits_c(c, value, old, path, (n - 1) as nat),
                        extra_visits_s(s, value, old, path, depth, (n - 1) as nat),
                        Seq::empty(),
                        Seq::empty(),
                        decode,
                    );
                }
            }
        },
        _ => {},
    }
}

proof fn lemma_branches_agree<F: Fn(&Json) -> Result<Rule, String>>(
    c: CompiledSchema,
    s: Json,
    which: nat,
    value: Json,
    old: Option<Json>,
    path: Seq<char>,
    root: bool,
    depth: nat,
    n: nat,
    decode: F,
)
    requires
        compiled_from(c, s, depth, decode),
        depth <= 64,
        which <= 2,
        n <= raw_branches(s, which).len(),
    ensures
        visits_match(
            branch_visits_c(c, which, value, old, path, root, n),
            branch_visits_s(s, which, value, old, path, root, depth, n),
            decode,
        ),
    decreases s, 0nat, n,
{
    lemma_empty_match(decode);
    if n > 0 {
        lemma_branches_agree(c, s, which, value, old, path, root, depth, (n - 1) as nat, decode);
        let i: int = n - 1;
        let bc = branches(c, which)[i];
        let bs = raw_branches(s, which)[i];
        lemma_member_array_decreases(s, "allOf"@);
        lemma_member_array_decreases(s, "oneOf"@);
        lemma_member_array_decreases(s, "anyOf"@);
        if which == 0 {
            assert(compiled_from(c.all_of@[i], bs, depth + 1, decode));
        } else if which == 1 {
            assert(compiled_from(c.one_of@[i], bs, depth + 1, decode));
        } else {
            assert(compiled_from(c.any_of@[i], bs, depth + 1, decode));
        }
        assert(decreases_to!(s => bs));
        lemma_visits_agree(bc, bs, value, old, path, root, depth + 1, decode);
        lemma_match_concat(
            branch_visits_c(c, which, value, old, path, root, (n - 1) as nat),
            branch_visits_s(s, which, value, old, path, root, depth, (n - 1) as nat),
            visits_c(bc, value, old, path, root),
            visits_s(bs, value, old, path, root, depth + 1),
            decode,
        );
    }
}

/// Walking a compiled schema stops at the same values, old values, paths and
/// root flags, in the same order, as walking the raw schema it was compiled
/// from, each time at a node compiled from the raw node met there.
pub proof fn law_compiled_walk_agrees<F: Fn(&Json) -> Result<Rule, String>>(
    c: CompiledSchema,
    s: Json,
    value: Json,
    old: Option<Json>,
    path: Seq<char>,
    root: bool,
    decode: F,
)
    requires
        compiled_from(c, s, 0, decode),
    ensures
        visits_match(visits_c(c, value, old, path, root), visits_s(s, value, old, path, root, 0), decode),
{
    lemma_visits_agree(c, s, value, old, path, root, 0, decode);
}

} // verus!
