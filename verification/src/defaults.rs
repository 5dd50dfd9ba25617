//! Filling in schema `default`s, through declared properties and array
//! items only (no `additionalProperties`, no depth limit). A default that is
//! filled in is itself defaulted by its property's schema.
use vstd::prelude::*;
use crate::json::{
    Json, JsonV, entries_get, ev, jentry, jget, jobject, jv, lemma_jentry_in, lemma_jget_decreases,
    lemma_jv_unfold, lemma_member_object_decreases,
};
use crate::validation_defaults::{entry_view, has_entry, has_entry_exec};

verus! {

/// A declared property schema is smaller than the schema that declares it.
pub proof fn lemma_declared_decreases(s: Json, k: Seq<char>)
    ensures
        jobject(jget(s, "properties"@)) matches Some(props) ==> (jentry(props, k) matches Some(ps)
            ==> decreases_to!(s => ps)),
{
    lemma_member_object_decreases(s, "properties"@);
    if let Some(props) = jobject(jget(s, "properties"@)) {
        lemma_jentry_in(props, k);
        if let Some(ps) = jentry(props, k) {
            let i = choose|i: int| 0 <= i < props.len() && #[trigger] props[i] == (props[i].0, ps);
            assert(decreases_to!(s => props[i].1));
        }
    }
}

/// What the child entry `e` of an object becomes under schema `s`: defaulted
/// by its declared property schema, else kept.
pub open spec fn basic_child(s: Json, e: (String, Json)) -> JsonV
    decreases s, 0nat, 0nat,
{
    proof {
        lemma_declared_decreases(s, e.0@);
    }
    match jobject(jget(s, "properties"@)) {
        Some(props) => match jentry(props, e.0@) {
            Some(ps) => basic_defaulted(ps, e.1),
            None => jv(e.1),
        },
        None => jv(e.1),
    }
}

/// What an array item `x` becomes under schema `s`.
pub open spec fn basic_item(s: Json, x: Json) -> JsonV
    decreases s, 0nat, 0nat,
{
    proof {
        lemma_jget_decreases(s, "items"@);
    }
    match jget(s, "items"@) {
        Some(is) => basic_defaulted(is, x),
        None => jv(x),
    }
}

/// The defaults of the first `n` declared properties of `s` that `obj`
/// lacks, each defaulted in turn by its property's schema.
pub open spec fn basic_missing(s: Json, obj: Seq<(String, Json)>, n: nat) -> Seq<(Seq<char>, JsonV)>
    decreases s, 0nat, n,
{
    proof {
        lemma_member_object_decreases(s, "properties"@);
    }
    match jobject(jget(s, "properties"@)) {
        Some(props) => if n == 0 || n > props.len() {
            Seq::empty()
        } else {
            basic_missing(s, obj, (n - 1) as nat) + if !has_entry(obj, props[n - 1].0@) {
                match jget(props[n - 1].1, "default"@) {
                    Some(d) => seq![(props[n - 1].0@, basic_defaulted(props[n - 1].1, d))],
                    None => Seq::empty(),
                }
            } else {
                Seq::empty()
            }
        },
        None => Seq::empty(),
    }
}

/// `v` with the defaults of schema `s` filled in: an object gets the
/// defaults of the declared properties it lacks (each defaulted by its own
/// schema), and its declared children are defaulted; array items are
/// defaulted with `items`.
pub open spec fn basic_defaulted(s: Json, v: Json) -> JsonV
    decreases s, 1nat, 0nat,
{
    match v {
        Json::Object(obj) => match jobject(jget(s, "properties"@)) {
            Some(props) => JsonV::Object(
                Seq::new(
                    obj@.len(),
                    |i: int|
                        if 0 <= i < obj@.len() {
                            (obj@[i].0@, basic_child(s, obj@[i]))
                        } else {
                            (Seq::empty(), JsonV::Null)
                        },
                ) + basic_missing(s, obj@, props.len()),
            ),
            None => jv(v),
        },
        Json::Array(arr) => match jget(s, "items"@) {
            Some(is) => JsonV::Array(
                Seq::new(
                    arr@.len(),
                    |i: int|
                        if 0 <= i < arr@.len() {
                            basic_item(s, arr@[i])
                        } else {
                            JsonV::Null
                        },
                ),
            ),
            None => jv(v),
        },
        _ => jv(v),
    }
}

/// `value` with the defaults of `schema` filled in (see [`basic_defaulted`]).
pub fn apply_defaults(schema: &Json, value: &Json) -> (r: Json)
    ensures
        r@ == basic_defaulted(*schema, *value),
    decreases *schema,
{
    match value {
        Json::Object(obj) => {
            let props = match schema.get("properties") {
                Some(Json::Object(p)) => p,
                _ => {
                    return value.deep_clone();
                },
            };
            proof {
                lemma_member_object_decreases(*schema, "properties"@);
            }
            let mut out: Vec<(String, Json)> = Vec::new();
            let mut i: usize = 0;
            while i < obj.len()
                invariant
                    i <= obj@.len(),
                    *value == Json::Object(*obj),
                    jobject(jget(*schema, "properties"@)) == Some(props@),
                    out@.len() == i,
                    forall|k: int| 0 <= k < i ==> #[trigger] entry_view(out@[k]) == (obj@[k].0@, basic_child(*schema, obj@[k])),
                decreases obj@.len() - i,
            {
                let key = obj[i].0.as_str();
                proof {
                    lemma_declared_decreases(*schema, key@);
                }
                let d = match entries_get(props, key) {
                    Some(ps) => apply_defaults(ps, &obj[i].1),
                    None => obj[i].1.deep_clone(),
                };
                out.push((obj[i].0.clone(), d));
                i = i + 1;
            }
            let ghost n_obj = out@.len();
            let mut j: usize = 0;
            while j < props.len()
                invariant
                    j <= props@.len(),
                    *value == Json::Object(*obj),
                    jobject(jget(*schema, "properties"@)) == Some(props@),
                    forall|k: int| 0 <= k < props@.len() ==> decreases_to!(*schema => (#[trigger] props@[k]).1),
                    out@.len() == n_obj + basic_missing(*schema, obj@, j as nat).len(),
                    n_obj == obj@.len(),
                    forall|k: int| 0 <= k < n_obj ==> #[trigger] entry_view(out@[k]) == (obj@[k].0@, basic_child(*schema, obj@[k])),
                    forall|k: int| n_obj <= k < out@.len() ==> entry_view(#[trigger] out@[k]) == basic_missing(*schema, obj@, j as nat)[k - n_obj],
                decreases props@.len() - j,
            {
                let ghost before = out@;
                let key = props[j].0.as_str();
                if !has_entry_exec(obj, key) {
                    match props[j].1.get("default") {
                        Some(d) => {
                            proof {
                                assert(decreases_to!(*schema => props@[j as int].1));
                            }
                            let dd = apply_defaults(&props[j].1, d);
                            out.push((props[j].0.clone(), dd));
                        },
                        None => {},
                    }
                }
                j = j + 1;
                proof {
                    let m = basic_missing(*schema, obj@, j as nat);
                    assert forall|k: int| n_obj <= k < out@.len() implies entry_view(#[trigger] out@[k]) == m[k - n_obj] by {
                        if k < before.len() {
                            assert(out@[k] == before[k]);
                        }
                    }
                }
            }
            let r = Json::Object(out);
            proof {
                lemma_jv_unfold(r);
                assert forall|k: int| 0 <= k < out@.len() implies #[trigger] ev(out@)[k] == entry_view(out@[k]) by {}
                assert(jv(r)->Object_0 =~= basic_defaulted(*schema, *value)->Object_0);
            }
            r
        },
        Json::Array(arr) => {
            match schema.get("items") {
                Some(is) => {
                    proof {
                        lemma_jget_decreases(*schema, "items"@);
                    }
                    let mut out: Vec<Json> = Vec::new();
                    let mut i: usize = 0;
                    while i < arr.len()
                        invariant
                            i <= arr@.len(),
                            *value == Json::Array(*arr),
                            jget(*schema, "items"@) == Some(*is),
                            decreases_to!(*schema => *is),
                            out@.len() == i,
                            forall|k: int| 0 <= k < i ==> jv(#[trigger] out@[k]) == basic_item(*schema, arr@[k]),
                        decreases arr@.len() - i,
                    {
                        let d = apply_defaults(is, &arr[i]);
                        out.push(d);
                        i = i + 1;
                    }
                    let r = Json::Array(out);
                    proof {
                        lemma_jv_unfold(r);
                        assert(jv(r)->Array_0 =~= basic_defaulted(*schema, *value)->Array_0);
                    }
                    r
                },
                None => value.deep_clone(),
            }
        },
        _ => value.deep_clone(),
    }
}

} // verus!
