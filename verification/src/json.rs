//! JSON documents (schemas, objects, defaults) as the library reads them.
//!
//! An object is its list of entries; keys are unique. Numbers are kept as
//! their JSON text, since nothing here computes with them.
use vstd::prelude::*;
use crate::text::{all_digits, digits_value, str_eq};

verus! {

/// A JSON value.
#[derive(Debug)]
pub enum Json {
    Null,
    Bool(bool),
    /// A number, as its JSON text (`"3"`, `"-1"`, `"2.5"`).
    Number(String),
    Str(String),
    Array(Vec<Json>),
    /// The entries of an object, each key once.
    Object(Vec<(String, Json)>),
}

/// The mathematical content of a [`Json`] value.
pub enum JsonV {
    Null,
    Bool(bool),
    Number(Seq<char>),
    Str(Seq<char>),
    Array(Seq<JsonV>),
    Object(Seq<(Seq<char>, JsonV)>),
}

/// The content of `j`.
pub open spec fn jv(j: Json) -> JsonV
    decreases j,
{
    match j {
        Json::Null => JsonV::Null,
        Json::Bool(b) => JsonV::Bool(b),
        Json::Number(t) => JsonV::Number(t@),
        Json::Str(t) => JsonV::Str(t@),
        Json::Array(v) => JsonV::Array(
            Seq::new(
                v.len() as nat,
                |i: int|
                    if 0 <= i < v.len() {
                        jv(v[i])
                    } else {
                        JsonV::Null
                    },
            ),
        ),
        Json::Object(e) => JsonV::Object(
            Seq::new(
                e.len() as nat,
                |i: int|
                    if 0 <= i < e.len() {
                        (e[i].0@, jv(e[i].1))
                    } else {
                        (Seq::empty(), JsonV::Null)
                    },
            ),
        ),
    }
}

impl View for Json {
    type V = JsonV;

    open spec fn view(&self) -> JsonV {
        jv(*self)
    }
}

/// The content of a list of entries.
pub open spec fn ev(e: Seq<(String, Json)>) -> Seq<(Seq<char>, JsonV)> {
    e.map_values(|p: (String, Json)| (p.0@, jv(p.1)))
}

/// The content of a list of values.
pub open spec fn av(v: Seq<Json>) -> Seq<JsonV> {
    v.map_values(|x: Json| jv(x))
}

/// How the content of arrays and objects unfolds.
pub proof fn lemma_jv_unfold(j: Json)
    ensures
        j matches Json::Array(v) ==> jv(j) == JsonV::Array(av(v@)),
        j matches Json::Object(e) ==> jv(j) == JsonV::Object(ev(e@)),
{
    match j {
        Json::Array(v) => {
            assert(jv(j)->Array_0 =~= av(v@));
        },
        Json::Object(e) => {
            assert(jv(j)->Object_0 =~= ev(e@));
        },
        _ => {},
    }
}

/// The value of the first entry with key `key`.
pub open spec fn entry_get(entries: Seq<(Seq<char>, JsonV)>, key: Seq<char>) -> Option<JsonV>
    decreases entries.len(),
{
    if entries.len() == 0 {
        None
    } else if entries[0].0 == key {
        Some(entries[0].1)
    } else {
        entry_get(entries.drop_first(), key)
    }
}

/// Whether `entries` has an entry with key `key`.
pub open spec fn has_key(entries: Seq<(Seq<char>, JsonV)>, key: Seq<char>) -> bool {
    exists|i: int| 0 <= i < entries.len() && (#[trigger] entries[i]).0 == key
}

/// The member `key` of an object; nothing for other values.
pub open spec fn member(j: JsonV, key: Seq<char>) -> Option<JsonV> {
    match j {
        JsonV::Object(e) => entry_get(e, key),
        _ => None,
    }
}

/// What `as_u64` reads: a number written with digits only that fits a `u64`.
pub open spec fn u64_of(j: JsonV) -> Option<nat> {
    match j {
        JsonV::Number(t) => if t.len() > 0 && all_digits(t) && digits_value(t) <= u64::MAX {
            Some(digits_value(t))
        } else {
            None
        },
        _ => None,
    }
}

/// `entry_get` finds the first entry whose key matches.
pub proof fn lemma_entry_get(entries: Seq<(Seq<char>, JsonV)>, key: Seq<char>)
    ensures
        entry_get(entries, key) is Some <==> has_key(entries, key),
    decreases entries.len(),
{
    if entries.len() > 0 && entries[0].0 != key {
        let rest = entries.drop_first();
        lemma_entry_get(rest, key);
        if has_key(entries, key) {
            let i = choose|i: int| 0 <= i < entries.len() && (#[trigger] entries[i]).0 == key;
            assert(rest[i - 1] == entries[i]);
        }
        if has_key(rest, key) {
            let i = choose|i: int| 0 <= i < rest.len() && (#[trigger] rest[i]).0 == key;
            assert(entries[i + 1] == rest[i]);
        }
    } else if entries.len() > 0 {
        assert(entries[0].0 == key);
    }
}

/// The first entry of `entries` with key `key`, as a value.
pub open spec fn jentry(entries: Seq<(String, Json)>, key: Seq<char>) -> Option<Json>
    decreases entries.len(),
{
    if entries.len() == 0 {
        None
    } else if entries[0].0@ == key {
        Some(entries[0].1)
    } else {
        jentry(entries.drop_first(), key)
    }
}

/// The member `key` of an object value.
pub open spec fn jget(j: Json, key: Seq<char>) -> Option<Json> {
    match j {
        Json::Object(e) => jentry(e@, key),
        _ => None,
    }
}

/// The entries of `j` when it is an object.
pub open spec fn jobject(j: Option<Json>) -> Option<Seq<(String, Json)>> {
    match j {
        Some(Json::Object(e)) => Some(e@),
        _ => None,
    }
}

/// The items of `j` when it is an array.
pub open spec fn jarray(j: Option<Json>) -> Option<Seq<Json>> {
    match j {
        Some(Json::Array(v)) => Some(v@),
        _ => None,
    }
}

/// `j` is the value `true`.
pub open spec fn jtrue(j: Option<Json>) -> bool {
    j matches Some(Json::Bool(b)) && b
}

/// What `as_u64` reads from `j`.
pub open spec fn ju64(j: Option<Json>) -> Option<nat> {
    match j {
        Some(x) => u64_of(jv(x)),
        None => None,
    }
}

/// The entry lookups at the two levels agree.
pub proof fn lemma_jentry_view(entries: Seq<(String, Json)>, key: Seq<char>)
    ensures
        match jentry(entries, key) {
            Some(v) => entry_get(ev(entries), key) == Some(jv(v)),
            None => entry_get(ev(entries), key) is None,
        },
    decreases entries.len(),
{
    if entries.len() > 0 {
        assert(ev(entries).drop_first() =~= ev(entries.drop_first()));
        lemma_jentry_view(entries.drop_first(), key);
    }
}

/// What `jentry` finds is the value of one of the entries.
pub proof fn lemma_jentry_in(entries: Seq<(String, Json)>, key: Seq<char>)
    ensures
        jentry(entries, key) matches Some(v) ==> exists|k: int|
            0 <= k < entries.len() && #[trigger] entries[k] == (entries[k].0, v),
    decreases entries.len(),
{
    if entries.len() > 0 {
        if entries[0].0@ == key {
            assert(entries[0] == (entries[0].0, entries[0].1));
        } else {
            let rest = entries.drop_first();
            lemma_jentry_in(rest, key);
            if let Some(v) = jentry(rest, key) {
                let k = choose|k: int| 0 <= k < rest.len() && #[trigger] rest[k] == (rest[k].0, v);
                assert(entries[k + 1] == rest[k]);
            }
        }
    }
}

/// A member of an object is smaller than the object.
pub proof fn lemma_jget_decreases(s: Json, key: Seq<char>)
    ensures
        jget(s, key) matches Some(x) ==> decreases_to!(s => x),
{
    if let Json::Object(e) = s {
        lemma_jentry_in(e@, key);
        if let Some(x) = jget(s, key) {
            let k = choose|k: int| 0 <= k < e@.len() && #[trigger] e@[k] == (e@[k].0, x);
            assert(decreases_to!(s => s->Object_0));
            assert(decreases_to!(s->Object_0 => e[k]));
            assert(decreases_to!(e[k] => e[k].1));
        }
    }
}

/// The entries of an object member are smaller than the object.
pub proof fn lemma_member_object_decreases(s: Json, key: Seq<char>)
    ensures
        jobject(jget(s, key)) matches Some(e) ==> forall|i: int|
            0 <= i < e.len() ==> decreases_to!(s => (#[trigger] e[i]).1),
{
    lemma_jget_decreases(s, key);
    if let Some(Json::Object(e)) = jget(s, key) {
        let x = jget(s, key).unwrap();
        assert forall|i: int| 0 <= i < e@.len() implies decreases_to!(s => (#[trigger] e@[i]).1) by {
            assert(decreases_to!(x => x->Object_0));
            assert(decreases_to!(x->Object_0 => e[i]));
            assert(decreases_to!(e[i] => e[i].1));
        }
    }
}

/// The items of an array member are smaller than the object.
pub proof fn lemma_member_array_decreases(s: Json, key: Seq<char>)
    ensures
        jarray(jget(s, key)) matches Some(v) ==> forall|i: int|
            0 <= i < v.len() ==> decreases_to!(s => #[trigger] v[i]),
{
    lemma_jget_decreases(s, key);
    if let Some(Json::Array(v)) = jget(s, key) {
        let x = jget(s, key).unwrap();
        assert forall|i: int| 0 <= i < v@.len() implies decreases_to!(s => #[trigger] v@[i]) by {
            assert(decreases_to!(x => x->Array_0));
            assert(decreases_to!(x->Array_0 => v[i]));
        }
    }
}

/// The value of the first entry of `entries` with key `key`.
pub fn entries_get<'a>(entries: &'a Vec<(String, Json)>, key: &str) -> (r: Option<&'a Json>)
    ensures
        match r {
            Some(v) => jentry(entries@, key@) == Some(*v),
            None => jentry(entries@, key@) is None,
        },
{
    let mut i: usize = 0;
    proof {
        assert(entries@.skip(0) =~= entries@);
    }
    while i < entries.len()
        invariant
            i <= entries@.len(),
            jentry(entries@, key@) == jentry(entries@.skip(i as int), key@),
        decreases entries@.len() - i,
    {
        proof {
            assert(entries@.skip(i as int)[0] == entries@[i as int]);
            assert(entries@.skip(i as int).drop_first() =~= entries@.skip(i + 1));
        }
        if str_eq(entries[i].0.as_str(), key) {
            return Some(&entries[i].1);
        }
        i = i + 1;
    }
    None
}

impl Json {
    /// The member `key` of an object.
    pub fn get(&self, key: &str) -> (r: Option<&Json>)
        ensures
            match r {
                Some(v) => jget(*self, key@) == Some(*v),
                None => jget(*self, key@) is None,
            },
    {
        match self {
            Json::Object(e) => entries_get(e, key),
            _ => None,
        }
    }

    /// The number as a `u64`, when it is a non-negative integer that fits.
    pub fn as_u64(&self) -> (r: Option<u64>)
        ensures
            match r {
                Some(n) => u64_of(self@) == Some(n as nat),
                None => u64_of(self@) is None,
            },
    {
        match self {
            Json::Number(t) => {
                let cs = crate::text::chars_of(t.as_str());
                if cs.len() == 0 || cs[0] == '+' {
                    proof {
                        if cs@.len() > 0 {
                            assert(!crate::text::is_digit(cs@[0]));
                        }
                    }
                    return None;
                }
                let r = crate::text::parse_int_range(&cs, 0, cs.len(), 0, 0xffff_ffff_ffff_ffffi128, false);
                proof {
                    assert(cs@.subrange(0, cs@.len() as int) =~= cs@);
                }
                match r {
                    Some(v) => Some(v as u64),
                    None => None,
                }
            },
            _ => None,
        }
    }

    /// Whether the value is `true`.
    pub fn is_true(&self) -> (r: bool)
        ensures
            r == (self@ == JsonV::Bool(true)),
    {
        match self {
            Json::Bool(b) => *b,
            _ => false,
        }
    }

    /// Whether the value is an object.
    pub fn is_object(&self) -> (r: bool)
        ensures
            r == (self@ is Object),
    {
        match self {
            Json::Object(_) => true,
            _ => false,
        }
    }

    /// A copy of the value.
    pub fn deep_clone(&self) -> (r: Json)
        ensures
            r@ == self@,
    {
        clone_json(self)
    }
}

fn clone_json(j: &Json) -> (r: Json)
    ensures
        r@ == j@,
    decreases j,
{
    proof {
        lemma_jv_unfold(*j);
    }
    match j {
        Json::Null => Json::Null,
        Json::Bool(b) => Json::Bool(*b),
        Json::Number(t) => Json::Number(t.clone()),
        Json::Str(t) => Json::Str(t.clone()),
        Json::Array(v) => {
            let mut out: Vec<Json> = Vec::new();
            let mut i: usize = 0;
            while i < v.len()
                invariant
                    i <= v@.len(),
                    av(out@) == av(v@).take(i as int),
                    *j == Json::Array(*v),
                decreases v@.len() - i,
            {
                proof {
                    assert(decreases_to!(*j => j->Array_0));
                    assert(decreases_to!(j->Array_0 => v[i as int]));
                }
                let c = clone_json(&v[i]);
                let ghost before = out@;
                let ghost ci = i;
                out.push(c);
                i = i + 1;
                proof {
                    assert(jv(c) == jv(v@[ci as int]));
                    assert(av(out@) =~= av(before).push(jv(c)));
                    assert(av(v@).take(i as int) =~= av(v@).take(ci as int).push(jv(v@[ci as int])));
                }
            }
            let r = Json::Array(out);
            proof {
                lemma_jv_unfold(r);
                assert(av(v@).take(v@.len() as int) =~= av(v@));
            }
            r
        },
        Json::Object(e) => {
            let mut out: Vec<(String, Json)> = Vec::new();
            let mut i: usize = 0;
            while i < e.len()
                invariant
                    i <= e@.len(),
                    ev(out@) == ev(e@).take(i as int),
                    *j == Json::Object(*e),
                decreases e@.len() - i,
            {
                proof {
                    assert(decreases_to!(*j => j->Object_0));
                    assert(decreases_to!(j->Object_0 => e[i as int]));
                    assert(decreases_to!(e[i as int] => e[i as int].1));
                }
                let k = e[i].0.clone();
                let c = clone_json(&e[i].1);
                let ghost before = out@;
                let ghost ci = i;
                out.push((k, c));
                i = i + 1;
                proof {
                    assert(jv(c) == jv(e@[ci as int].1));
                    assert(ev(out@) =~= ev(before).push((k@, jv(c))));
                    assert(ev(e@).take(i as int) =~= ev(e@).take(ci as int).push((e@[ci as int].0@, jv(e@[ci as int].1))));
                }
            }
            let r = Json::Object(out);
            proof {
                lemma_jv_unfold(r);
                assert(ev(e@).take(e@.len() as int) =~= ev(e@));
            }
            r
        },
    }
}

} // verus!
