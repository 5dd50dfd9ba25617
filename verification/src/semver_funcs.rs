//! Semantic versions: lenient normalisation, parsing and comparison.
//!
//! Parsing and ordering are those of the `semver` crate; what this module
//! decides is how a version string is normalised in lenient mode and how a
//! comparison is reported.
use vstd::prelude::*;
use crate::text::{
    all_digits, chars_of, decimal_value, is_digit, is_digit_char, leading, lemma_leading, push_char,
    push_str, string_from_chars, string_from_range, string_of, sub_vec,
};

verus! {

#[verifier::external_type_specification]
#[verifier::external_body]
pub struct ExVersion(semver::Version);

#[verifier::external_type_specification]
#[verifier::external_body]
pub struct ExSemverError(semver::Error);

/// A parsed semantic version: the `semver` crate's value, with its parts
/// held as plain values.
#[derive(Debug)]
pub struct KubeSemver {
    version: semver::Version,
    major: u64,
    minor: u64,
    patch: u64,
    pre: String,
    build: String,
}

/// The parts of a version: major, minor, patch, pre-release, build metadata.
pub type SemverParts = (u64, u64, u64, Seq<char>, Seq<char>);

impl View for KubeSemver {
    type V = SemverParts;

    closed spec fn view(&self) -> SemverParts {
        (self.major, self.minor, self.patch, self.pre@, self.build@)
    }
}

/// What `semver::Version::parse` gives for `text`: the parts of the version,
/// or `None` where it reports an error.
pub uninterp spec fn semver_parse(text: Seq<char>) -> Option<SemverParts>;

/// The sign of `semver::Version::cmp` on two versions with these parts.
pub uninterp spec fn semver_order(a: SemverParts, b: SemverParts) -> int;

/// Parses `s` with `semver::Version::parse`.
///
/// The contract claims that the call succeeds exactly where
/// [`semver_parse`] has a value, and that the version it returns has those
/// parts.
#[verifier::external_body]
fn parse_version(s: &str) -> (r: Result<KubeSemver, semver::Error>)
    ensures
        match r {
            Ok(v) => semver_parse(s@) == Some(v@),
            Err(_) => semver_parse(s@) is None,
        },
{
    match semver::Version::parse(s) {
        Ok(v) => Ok(
            KubeSemver {
                major: v.major,
                minor: v.minor,
                patch: v.patch,
                pre: v.pre.as_str().to_string(),
                build: v.build.as_str().to_string(),
                version: v,
            },
        ),
        Err(e) => Err(e),
    }
}

/// The message of a `semver::Error` (its `Display`); nothing is claimed of it.
#[verifier::external_body]
fn semver_error_message(e: &semver::Error) -> String {
    e.to_string()
}

/// Compares two versions with `semver::Version::cmp`.
///
/// The contract claims the sign [`semver_order`] names, and what the
/// derived `Ord` of `semver::Version` shows: it is antisymmetric, versions
/// with the same parts are equal, and versions whose major, minor and patch
/// numbers differ are ordered by the first of them that differs.
#[verifier::external_body]
fn version_order(a: &KubeSemver, b: &KubeSemver) -> (r: i8)
    ensures
        r == semver_order(a@, b@),
        -r == semver_order(b@, a@),
        -1 <= r <= 1,
        a@ == b@ ==> r == 0,
        a@.0 != b@.0 ==> (r < 0 <==> a@.0 < b@.0) && r != 0,
        a@.0 == b@.0 && a@.1 != b@.1 ==> (r < 0 <==> a@.1 < b@.1) && r != 0,
        a@.0 == b@.0 && a@.1 == b@.1 && a@.2 != b@.2 ==> (r < 0 <==> a@.2 < b@.2) && r != 0,
{
    match a.version.cmp(&b.version) {
        std::cmp::Ordering::Less => -1,
        std::cmp::Ordering::Equal => 0,
        std::cmp::Ordering::Greater => 1,
    }
}

/// `s` without one leading `v` or `V`.
pub open spec fn strip_v(s: Seq<char>) -> Seq<char> {
    if s.len() > 0 && (s[0] == 'v' || s[0] == 'V') {
        s.drop_first()
    } else {
        s
    }
}

/// The index of the first `c` in `s`, or its length.
pub open spec fn char_pos(s: Seq<char>, c: char) -> nat
    decreases s.len(),
{
    if s.len() == 0 || s[0] == c {
        0
    } else {
        1 + char_pos(s.drop_first(), c)
    }
}

/// `char_pos` is the index of the first `c`.
proof fn lemma_char_pos(s: Seq<char>, c: char, i: int)
    requires
        0 <= i <= s.len(),
        forall|j: int| 0 <= j < i ==> #[trigger] s[j] != c,
        i == s.len() || s[i] == c,
    ensures
        char_pos(s, c) == i,
    decreases i,
{
    if i > 0 {
        assert forall|j: int| 0 <= j < i - 1 implies #[trigger] s.drop_first()[j] != c by {
            assert(s.drop_first()[j] == s[j + 1]);
        }
        if i < s.len() {
            assert(s.drop_first()[i - 1] == s[i]);
        }
        lemma_char_pos(s.drop_first(), c, i - 1);
    }
}

/// The pieces of `s` between dots (`str::split('.')`).
pub open spec fn dot_parts(s: Seq<char>) -> Seq<Seq<char>>
    decreases s.len(),
{
    let p = char_pos(s, '.');
    if p >= s.len() {
        seq![s]
    } else {
        seq![s.take(p as int)] + dot_parts(s.skip((p + 1) as int))
    }
}

/// A version component: one or more ASCII digits.
pub open spec fn numeric_part(c: Seq<char>) -> bool {
    c.len() > 0 && all_digits(c)
}

/// `c` without leading zeros, or `0` if nothing else is left.
pub open spec fn strip_zeros(c: Seq<char>) -> Seq<char> {
    let z = leading(c, |x: char| x == '0');
    if z >= c.len() {
        seq!['0']
    } else {
        c.skip(z as int)
    }
}

/// Component `i` without leading zeros, or `0` where there is none.
pub open spec fn part_or_zero(parts: Seq<Seq<char>>, i: int) -> Seq<char> {
    if i < parts.len() {
        strip_zeros(parts[i])
    } else {
        seq!['0']
    }
}

/// What lenient parsing makes of `s` before parsing it: a leading `v` or
/// `V` dropped; then, where every dot-separated component before the first
/// `-` is numeric, `major.minor.patch` from the first three components
/// without leading zeros (missing ones are `0`), followed by the rest from
/// the first `-`. Otherwise the string is left as it is.
pub open spec fn normalize_spec(s: Seq<char>) -> Seq<char> {
    let t = strip_v(s);
    let d = char_pos(t, '-');
    let parts = dot_parts(t.take(d as int));
    if exists|i: int| 0 <= i < parts.len() && !numeric_part(#[trigger] parts[i]) {
        t
    } else {
        let core = part_or_zero(parts, 0) + seq!['.'] + part_or_zero(parts, 1) + seq!['.'] + part_or_zero(parts, 2);
        if d < t.len() {
            core + seq!['-'] + t.skip((d + 1) as int)
        } else {
            core
        }
    }
}

/// A component of an all-numeric core, without its leading zeros, holds no `-`.
proof fn lemma_part_no_dash(parts: Seq<Seq<char>>, k: int)
    requires
        0 <= k,
        forall|i: int| 0 <= i < parts.len() ==> numeric_part(#[trigger] parts[i]),
    ensures
        forall|i: int| 0 <= i < part_or_zero(parts, k).len() ==> #[trigger] part_or_zero(parts, k)[i] != '-',
{
    if k < parts.len() {
        let q = parts[k];
        assert(numeric_part(q));
        let r = strip_zeros(q);
        assert(part_or_zero(parts, k) == r);
        let z = leading(q, |x: char| x == '0');
        assert(r == seq!['0'] || (z < q.len() && r == q.skip(z as int)));
        assert forall|i: int| 0 <= i < r.len() implies #[trigger] r[i] != '-' by {
            if r != seq!['0'] {
                assert(r[i] == q[i + z]);
                assert(is_digit(q[i + z]));
            }
        }
    }
}

/// A number written in digits with no leading zero (a lone `0` aside).
pub open spec fn canonical_number(a: Seq<char>) -> bool {
    &&& a.len() > 0
    &&& forall|i: int| 0 <= i < a.len() ==> is_digit(#[trigger] a[i])
    &&& (a[0] == '0' ==> a.len() == 1)
}

proof fn lemma_leading_props(s: Seq<char>, p: spec_fn(char) -> bool)
    ensures
        leading(s, p) <= s.len(),
        forall|j: int| 0 <= j < leading(s, p) ==> #[trigger] p(s[j]),
        leading(s, p) < s.len() ==> !p(s[leading(s, p) as int]),
    decreases s.len(),
{
    if s.len() > 0 && p(s[0]) {
        lemma_leading_props(s.drop_first(), p);
        assert forall|j: int| 0 <= j < leading(s, p) implies #[trigger] p(s[j]) by {
            if j > 0 {
                assert(s[j] == s.drop_first()[j - 1]);
            }
        }
        if leading(s, p) < s.len() {
            assert(s[leading(s, p) as int] == s.drop_first()[leading(s, p) - 1]);
        }
    }
}

/// A leading zero does not change a number's value.
proof fn lemma_value_drop_zero(r: Seq<char>)
    ensures
        decimal_value(seq!['0'] + r) == decimal_value(r),
    decreases r.len(),
{
    if r.len() == 0 {
        assert((seq!['0'] + r).drop_last() =~= Seq::<char>::empty());
        assert(decimal_value(Seq::<char>::empty()) == 0);
        assert((seq!['0'] + r).last() == '0');
    } else {
        lemma_value_drop_zero(r.drop_last());
        assert((seq!['0'] + r).drop_last() =~= seq!['0'] + r.drop_last());
        assert((seq!['0'] + r).last() == r.last());
    }
}

/// Dropping `z` leading zeros does not change a number's value.
proof fn lemma_value_skip_zeros(q: Seq<char>, z: int)
    requires
        0 <= z <= q.len(),
        forall|j: int| 0 <= j < z ==> #[trigger] q[j] == '0',
    ensures
        decimal_value(q) == decimal_value(q.skip(z)),
    decreases z,
{
    if z > 0 {
        let r = q.skip(1);
        assert(q =~= seq!['0'] + r);
        lemma_value_drop_zero(r);
        assert forall|j: int| 0 <= j < z - 1 implies #[trigger] r[j] == '0' by {
            assert(r[j] == q[j + 1]);
        }
        lemma_value_skip_zeros(r, z - 1);
        assert(r.skip(z - 1) =~= q.skip(z));
    } else {
        assert(q.skip(0) =~= q);
    }
}

/// A string of zeros has the value 0.
proof fn lemma_value_zeros(q: Seq<char>)
    requires
        forall|j: int| 0 <= j < q.len() ==> #[trigger] q[j] == '0',
    ensures
        decimal_value(q) == 0,
    decreases q.len(),
{
    if q.len() > 0 {
        assert forall|j: int| 0 <= j < q.drop_last().len() implies #[trigger] q.drop_last()[j] == '0' by {
            assert(q.drop_last()[j] == q[j]);
        }
        lemma_value_zeros(q.drop_last());
        assert(q.last() == q[q.len() - 1]);
    }
}

/// A numeric component without its leading zeros is a number in canonical
/// form with the component's value.
proof fn lemma_strip_zeros_value(q: Seq<char>)
    requires
        numeric_part(q),
    ensures
        canonical_number(strip_zeros(q)),
        decimal_value(strip_zeros(q)) == decimal_value(q),
{
    let z = leading(q, |x: char| x == '0');
    lemma_leading_props(q, |x: char| x == '0');
    assert forall|j: int| 0 <= j < z implies #[trigger] q[j] == '0' by {
        assert((|x: char| x == '0')(q[j]));
    }
    if z >= q.len() {
        lemma_value_zeros(q);
        assert(strip_zeros(q) == seq!['0']);
        assert(seq!['0'].drop_last() =~= Seq::<char>::empty());
        assert(decimal_value(Seq::<char>::empty()) == 0);
        assert(decimal_value(seq!['0']) == 0);
    } else {
        let r = q.skip(z as int);
        assert(strip_zeros(q) == r);
        lemma_value_skip_zeros(q, z as int);
        assert(r[0] == q[z as int]);
        assert forall|i: int| 0 <= i < r.len() implies is_digit(#[trigger] r[i]) by {
            assert(r[i] == q[i + z]);
        }
    }
}

/// Component `k` of the normalised core: the `k`-th component in canonical
/// form with the same value, or `0` where there is none.
proof fn lemma_part_or_zero_value(parts: Seq<Seq<char>>, k: int)
    requires
        0 <= k,
        forall|i: int| 0 <= i < parts.len() ==> numeric_part(#[trigger] parts[i]),
    ensures
        canonical_number(part_or_zero(parts, k)),
        k < parts.len() ==> decimal_value(part_or_zero(parts, k)) == decimal_value(parts[k]),
        k >= parts.len() ==> part_or_zero(parts, k) == seq!['0'],
{
    if k < parts.len() {
        lemma_strip_zeros_value(parts[k]);
    }
}

/// Lenient normalisation of a numeric version `c` (its dot-separated
/// components all digits), with or without a pre-release `p`: the result is
/// `major.minor.patch`, each a number in canonical form whose value is that
/// of the matching component (`0` where `c` has fewer than three), then the
/// pre-release unchanged.
pub proof fn law_lenient_core_values(c: Seq<char>, p: Seq<char>, pre: bool)
    requires
        c.len() > 0,
        is_digit(c[0]),
        forall|i: int| 0 <= i < c.len() ==> c[i] != '-',
        forall|i: int| 0 <= i < dot_parts(c).len() ==> numeric_part(#[trigger] dot_parts(c)[i]),
    ensures
        exists|a: Seq<char>, b: Seq<char>, e: Seq<char>|
            #![trigger canonical_number(a), canonical_number(b), canonical_number(e)]
            {
                &&& normalize_spec(if pre {
                    c + seq!['-'] + p
                } else {
                    c
                }) == a + seq!['.'] + b + seq!['.'] + e + (if pre {
                    seq!['-'] + p
                } else {
                    Seq::empty()
                })
                &&& canonical_number(a) && canonical_number(b) && canonical_number(e)
                &&& decimal_value(a) == decimal_value(dot_parts(c)[0])
                &&& (dot_parts(c).len() > 1 ==> decimal_value(b) == decimal_value(dot_parts(c)[1]))
                &&& (dot_parts(c).len() <= 1 ==> b == seq!['0'])
                &&& (dot_parts(c).len() > 2 ==> decimal_value(e) == decimal_value(dot_parts(c)[2]))
                &&& (dot_parts(c).len() <= 2 ==> e == seq!['0'])
            },
{
    let s = if pre {
        c + seq!['-'] + p
    } else {
        c
    };
    let t = strip_v(s);
    assert(s[0] == c[0]);
    assert(t == s);
    assert forall|j: int| 0 <= j < c.len() implies #[trigger] t[j] != '-' by {
        assert(t[j] == c[j]);
    }
    if pre {
        assert(t[c.len() as int] == '-');
    }
    lemma_char_pos(t, '-', c.len() as int);
    let d = char_pos(t, '-');
    assert(t.take(d as int) =~= c);
    let parts = dot_parts(c);
    lemma_dot_parts_nonempty(c);
    lemma_part_or_zero_value(parts, 0);
    lemma_part_or_zero_value(parts, 1);
    lemma_part_or_zero_value(parts, 2);
    let a = part_or_zero(parts, 0);
    let b = part_or_zero(parts, 1);
    let e = part_or_zero(parts, 2);
    if pre {
        assert(t.skip((d + 1) as int) =~= p);
        assert(normalize_spec(s) == a + seq!['.'] + b + seq!['.'] + e + seq!['-'] + p);
        assert(normalize_spec(s) =~= a + seq!['.'] + b + seq!['.'] + e + (seq!['-'] + p));
    } else {
        assert(normalize_spec(s) =~= a + seq!['.'] + b + seq!['.'] + e + Seq::<char>::empty());
    }
}

/// Splitting at dots gives at least one piece.
proof fn lemma_dot_parts_nonempty(s: Seq<char>)
    ensures
        dot_parts(s).len() >= 1,
    decreases s.len(),
{
    let p = char_pos(s, '.');
    if p < s.len() {
        lemma_dot_parts_nonempty(s.skip((p + 1) as int));
    }
}

/// Lenient normalisation keeps the pre-release: for a version text whose
/// first `-` follows `c`, the result is some text without a `-` (the
/// normalised core, or the text before the `-` when it is not numeric),
/// then `-`, then exactly what followed the first `-`, however many
/// components the core has.
pub proof fn law_lenient_keeps_prerelease(c: Seq<char>, p: Seq<char>)
    requires
        forall|i: int| 0 <= i < c.len() ==> c[i] != '-',
    ensures
        exists|x: Seq<char>|
            (forall|i: int| 0 <= i < x.len() ==> x[i] != '-') && #[trigger] normalize_spec(c + seq!['-'] + p) == x
                + seq!['-'] + p,
{
    let s = c + seq!['-'] + p;
    let t = strip_v(s);
    let c2 = if c.len() > 0 && (c[0] == 'v' || c[0] == 'V') {
        c.drop_first()
    } else {
        c
    };
    if c.len() > 0 && (c[0] == 'v' || c[0] == 'V') {
        assert(t =~= c2 + seq!['-'] + p);
    } else {
        assert(t =~= c2 + seq!['-'] + p);
    }
    assert forall|j: int| 0 <= j < c2.len() implies #[trigger] t[j] != '-' by {
        if c.len() > 0 && (c[0] == 'v' || c[0] == 'V') {
            assert(c2[j] == c[j + 1]);
        }
        assert(t[j] == c2[j]);
    }
    assert(t[c2.len() as int] == '-');
    lemma_char_pos(t, '-', c2.len() as int);
    let d = char_pos(t, '-');
    assert(t.take(d as int) =~= c2);
    assert(t.skip((d + 1) as int) =~= p);
    let parts = dot_parts(t.take(d as int));
    if exists|i: int| 0 <= i < parts.len() && !numeric_part(#[trigger] parts[i]) {
        assert(normalize_spec(s) =~= c2 + seq!['-'] + p);
        assert forall|i: int| 0 <= i < c2.len() implies c2[i] != '-' by {
            assert(t[i] == c2[i]);
        }
    } else {
        let core = part_or_zero(parts, 0) + seq!['.'] + part_or_zero(parts, 1) + seq!['.'] + part_or_zero(parts, 2);
        lemma_part_no_dash(parts, 0);
        lemma_part_no_dash(parts, 1);
        lemma_part_no_dash(parts, 2);
        let a = part_or_zero(parts, 0);
        let b = part_or_zero(parts, 1);
        let e = part_or_zero(parts, 2);
        assert forall|i: int| 0 <= i < core.len() implies core[i] != '-' by {
            if i < a.len() {
                assert(core[i] == a[i]);
            } else if i == a.len() {
            } else if i < a.len() + 1 + b.len() {
                assert(core[i] == b[i - a.len() - 1]);
            } else if i == a.len() + 1 + b.len() {
            } else {
                assert(core[i] == e[i - a.len() - 2 - b.len()]);
            }
        }
        assert(normalize_spec(s) == core + seq!['-'] + p);
    }
}

/// The texts of the ranges `r` of `t`.
pub open spec fn range_texts(t: Seq<char>, r: Seq<(usize, usize)>) -> Seq<Seq<char>> {
    r.map_values(|x: (usize, usize)| t.subrange(x.0 as int, x.1 as int))
}

/// Every range of `r` is ordered and ends by `n`.
pub open spec fn ranges_within(r: Seq<(usize, usize)>, n: nat) -> bool {
    forall|j: int| 0 <= j < r.len() ==> #[trigger] r[j].0 <= r[j].1 && r[j].1 <= n
}

/// The index of the first `c` in `v[from..to]`, relative to `from`.
fn pos_of(v: &Vec<char>, from: usize, to: usize, c: char) -> (k: usize)
    requires
        from <= to <= v@.len(),
    ensures
        k == char_pos(v@.subrange(from as int, to as int), c),
        k <= to - from,
{
    let ghost s = v@.subrange(from as int, to as int);
    let mut i: usize = from;
    while i < to && v[i] != c
        invariant
            from <= i <= to <= v@.len(),
            s == v@.subrange(from as int, to as int),
            forall|j: int| 0 <= j < i - from ==> #[trigger] s[j] != c,
        decreases to - i,
    {
        i = i + 1;
    }
    proof {
        lemma_char_pos(s, c, (i - from) as int);
    }
    i - from
}

/// The ranges of the dot-separated components of `t[0..d]`.
fn dot_ranges(t: &Vec<char>, d: usize) -> (r: Vec<(usize, usize)>)
    requires
        d <= t@.len(),
    ensures
        range_texts(t@, r@) == dot_parts(t@.take(d as int)),
        ranges_within(r@, d as nat),
{
    let mut r: Vec<(usize, usize)> = Vec::new();
    let mut pos: usize = 0;
    let mut done = false;
    proof {
        assert(t@.take(d as int) =~= t@.subrange(0, d as int));
    }
    while !done
        invariant
            d <= t@.len(),
            pos <= d,
            ranges_within(r@, d as nat),
            !done ==> dot_parts(t@.take(d as int)) == range_texts(t@, r@) + dot_parts(t@.subrange(pos as int, d as int)),
            done ==> dot_parts(t@.take(d as int)) == range_texts(t@, r@),
        decreases d - pos + (if done { 0int } else { 1int }),
    {
        let p = pos_of(t, pos, d, '.');
        let ghost sub = t@.subrange(pos as int, d as int);
        let ghost before = range_texts(t@, r@);
        proof {
            assert(p == char_pos(sub, '.'));
        }
        if pos + p >= d {
            r.push((pos, d));
            proof {
                assert(dot_parts(sub) == seq![sub]);
                assert(range_texts(t@, r@) =~= before + seq![sub]);
            }
            done = true;
        } else {
            r.push((pos, pos + p));
            proof {
                assert(sub.take(p as int) =~= t@.subrange(pos as int, (pos + p) as int));
                assert(sub.skip(p + 1) =~= t@.subrange((pos + p + 1) as int, d as int));
                assert(dot_parts(sub) == seq![sub.take(p as int)] + dot_parts(sub.skip(p + 1)));
                assert(range_texts(t@, r@) =~= before + seq![sub.take(p as int)]);
            }
            pos = pos + p + 1;
        }
    }
    r
}

/// Whether `t[from..to]` is one or more ASCII digits.
fn numeric_range(t: &Vec<char>, from: usize, to: usize) -> (b: bool)
    requires
        from <= to <= t@.len(),
    ensures
        b == numeric_part(t@.subrange(from as int, to as int)),
{
    let ghost s = t@.subrange(from as int, to as int);
    if from == to {
        return false;
    }
    let mut i: usize = from;
    while i < to
        invariant
            from <= i <= to <= t@.len(),
            s == t@.subrange(from as int, to as int),
            forall|j: int| 0 <= j < i - from ==> is_digit(#[trigger] s[j]),
        decreases to - i,
    {
        if !is_digit_char(t[i]) {
            assert(!is_digit(s[i - from]));
            return false;
        }
        i = i + 1;
    }
    true
}

/// Appends [`strip_zeros`] of `t[from..to]`.
fn push_stripped(out: &mut String, t: &Vec<char>, from: usize, to: usize)
    requires
        from <= to <= t@.len(),
    ensures
        final(out)@ == old(out)@ + strip_zeros(t@.subrange(from as int, to as int)),
{
    let ghost s = t@.subrange(from as int, to as int);
    let mut i: usize = from;
    while i < to && t[i] == '0'
        invariant
            from <= i <= to <= t@.len(),
            s == t@.subrange(from as int, to as int),
            forall|j: int| 0 <= j < i - from ==> #[trigger] s[j] == '0',
        decreases to - i,
    {
        i = i + 1;
    }
    proof {
        let p = |x: char| x == '0';
        assert forall|j: int| 0 <= j < i - from implies #[trigger] p(s[j]) by {}
        lemma_leading(s, p, (i - from) as int);
    }
    if i >= to {
        push_char(out, '0');
    } else {
        let rest = string_from_range(t, i, to);
        push_str(out, rest.as_str());
        proof {
            assert(s.skip((i - from) as int) =~= t@.subrange(i as int, to as int));
        }
    }
}

/// Normalises a version string for lenient parsing (see [`normalize_spec`]):
/// `v1` becomes `1.0.0`, `01.02` becomes `1.2.0`, `1.2-rc.1` becomes
/// `1.2.0-rc.1`.
pub fn normalize(s: &str) -> (r: String)
    ensures
        r@ == normalize_spec(s@),
        forall|j: int|
            0 <= j < s@.len() && #[trigger] s@[j] == '-' && (forall|i: int| 0 <= i < j ==> s@[i] != '-') ==> exists|
                x: Seq<char>,
            |
                (forall|i: int| 0 <= i < x.len() ==> x[i] != '-') && r@ == x + seq!['-'] + s@.skip(j + 1),
{
    let r = normalized_text(s);
    proof {
        assert forall|j: int|
            0 <= j < s@.len() && #[trigger] s@[j] == '-' && (forall|i: int| 0 <= i < j ==> s@[i] != '-') implies exists|
                x: Seq<char>,
            |
                (forall|i: int| 0 <= i < x.len() ==> x[i] != '-') && r@ == x + seq!['-'] + s@.skip(
                    j + 1,
                ) by {
            let c = s@.take(j);
            let p = s@.skip(j + 1);
            assert(s@ =~= c + seq!['-'] + p);
            assert forall|i: int| 0 <= i < c.len() implies c[i] != '-' by {
                assert(c[i] == s@[i]);
            }
            law_lenient_keeps_prerelease(c, p);
        }
    }
    r
}

/// The text [`normalize_spec`] describes.
fn normalized_text(s: &str) -> (r: String)
    ensures
        r@ == normalize_spec(s@),
{
    let v = chars_of(s);
    let start: usize = if v.len() > 0 && (v[0] == 'v' || v[0] == 'V') {
        1
    } else {
        0
    };
    let t = sub_vec(&v, start, v.len());
    proof {
        assert(t@ =~= strip_v(s@));
    }
    let d = pos_of(&t, 0, t.len(), '-');
    proof {
        assert(t@.subrange(0, t@.len() as int) =~= t@);
        assert(d == char_pos(t@, '-'));
    }
    let ranges = dot_ranges(&t, d);
    let ghost parts = dot_parts(t@.take(d as int));
    let mut ok = true;
    let mut i: usize = 0;
    while i < ranges.len()
        invariant
            i <= ranges@.len(),
            range_texts(t@, ranges@) == parts,
            ranges_within(ranges@, d as nat),
            d <= t@.len(),
            ok <==> forall|j: int| 0 <= j < i ==> numeric_part(#[trigger] parts[j]),
        decreases ranges@.len() - i,
    {
        let (a, b) = ranges[i];
        let n = numeric_range(&t, a, b);
        proof {
            assert(parts[i as int] == t@.subrange(a as int, b as int));
        }
        ok = ok && n;
        i = i + 1;
    }
    if !ok {
        let r = string_from_chars(&t);
        proof {
            let j = choose|j: int| 0 <= j < parts.len() && !numeric_part(#[trigger] parts[j]);
            assert(0 <= j < parts.len() && !numeric_part(parts[j]));
        }
        return r;
    }
    let mut out = String::new();
    let (a0, b0) = ranges[0];
    push_stripped(&mut out, &t, a0, b0);
    push_char(&mut out, '.');
    if ranges.len() >= 2 {
        let (a1, b1) = ranges[1];
        push_stripped(&mut out, &t, a1, b1);
    } else {
        push_char(&mut out, '0');
    }
    push_char(&mut out, '.');
    if ranges.len() >= 3 {
        let (a2, b2) = ranges[2];
        push_stripped(&mut out, &t, a2, b2);
    } else {
        push_char(&mut out, '0');
    }
    let ghost core = out@;
    proof {
        assert(core =~= part_or_zero(parts, 0) + seq!['.'] + part_or_zero(parts, 1) + seq!['.'] + part_or_zero(parts, 2));
        assert(!exists|j: int| 0 <= j < parts.len() && !numeric_part(#[trigger] parts[j]));
    }
    if d < t.len() {
        push_char(&mut out, '-');
        let rest = string_from_range(&t, d + 1, t.len());
        push_str(&mut out, rest.as_str());
        proof {
            assert(t@.subrange((d + 1) as int, t@.len() as int) =~= t@.skip(d + 1));
            assert(out@ =~= core + seq!['-'] + t@.skip(d + 1));
        }
    }
    out
}

/// The text parsed for `s`: `s` itself, or its normalised form in lenient mode.
pub open spec fn parse_input(s: Seq<char>, lenient: bool) -> Seq<char> {
    if lenient {
        normalize_spec(s)
    } else {
        s
    }
}

/// Parses `s` strictly, or after [`normalize`] in lenient mode.
pub fn do_parse(s: &str, lenient: bool) -> (r: Result<KubeSemver, semver::Error>)
    ensures
        match r {
            Ok(v) => semver_parse(parse_input(s@, lenient)) == Some(v@),
            Err(_) => semver_parse(parse_input(s@, lenient)) is None,
        },
{
    if lenient {
        let n = normalize(s);
        parse_version(n.as_str())
    } else {
        parse_version(s)
    }
}

/// The start of the error for a string that is no version.
pub open spec fn semver_error_prefix(s: Seq<char>) -> Seq<char> {
    "invalid semver '"@ + s + "': "@
}

/// `semver(<string>[, <bool>])`: the version, or an error that names `s`
/// and carries the `semver` crate's message.
pub fn parse_semver(s: &str, lenient: bool) -> (r: Result<KubeSemver, String>)
    ensures
        match r {
            Ok(v) => semver_parse(parse_input(s@, lenient)) == Some(v@),
            Err(e) => semver_parse(parse_input(s@, lenient)) is None && e@.len() >= semver_error_prefix(s@).len()
                && e@.subrange(0, semver_error_prefix(s@).len() as int) == semver_error_prefix(s@),
        },
{
    match do_parse(s, lenient) {
        Ok(v) => Ok(v),
        Err(e) => {
            let mut m = string_of("invalid semver '");
            push_str(&mut m, s);
            push_str(&mut m, "': ");
            let ghost prefix = m@;
            let detail = semver_error_message(&e);
            push_str(&mut m, detail.as_str());
            proof {
                assert(prefix =~= semver_error_prefix(s@));
                assert(m@.subrange(0, prefix.len() as int) =~= prefix);
            }
            Err(m)
        },
    }
}

/// `isSemver(<string>[, <bool>])`.
pub fn is_semver(s: &str, lenient: bool) -> (b: bool)
    ensures
        b == semver_parse(parse_input(s@, lenient)) is Some,
{
    match do_parse(s, lenient) {
        Ok(_) => true,
        Err(_) => false,
    }
}

impl KubeSemver {
    /// The major number, as CEL's `int`.
    pub fn major(&self) -> (r: i64)
        ensures
            r == self@.0 as i64,
    {
        self.major as i64
    }

    /// The minor number, as CEL's `int`.
    pub fn minor(&self) -> (r: i64)
        ensures
            r == self@.1 as i64,
    {
        self.minor as i64
    }

    /// The patch number, as CEL's `int`.
    pub fn patch(&self) -> (r: i64)
        ensures
            r == self@.2 as i64,
    {
        self.patch as i64
    }

    /// Whether two versions have the same parts (`==` on versions).
    pub fn same_as(&self, other: &KubeSemver) -> (b: bool)
        ensures
            b <==> self@ == other@,
    {
        self.major == other.major && self.minor == other.minor && self.patch == other.patch
            && crate::text::str_eq(self.pre.as_str(), other.pre.as_str())
            && crate::text::str_eq(self.build.as_str(), other.build.as_str())
    }
}

/// `<Semver>.compareTo(<Semver>)`: -1, 0 or 1.
pub fn semver_compare_to(a: &KubeSemver, b: &KubeSemver) -> (r: i64)
    ensures
        r == semver_order(a@, b@),
        r == -semver_order(b@, a@),
        a@ == b@ ==> r == 0,
        a@.0 != b@.0 ==> r == (if a@.0 < b@.0 { -1int } else { 1int }),
        a@.0 == b@.0 && a@.1 != b@.1 ==> r == (if a@.1 < b@.1 { -1int } else { 1int }),
        a@.0 == b@.0 && a@.1 == b@.1 && a@.2 != b@.2 ==> r == (if a@.2 < b@.2 { -1int } else { 1int }),
{
    version_order(a, b) as i64
}

/// `<Semver>.isGreaterThan(<Semver>)`.
pub fn semver_is_greater_than(a: &KubeSemver, b: &KubeSemver) -> (r: bool)
    ensures
        r == (semver_order(a@, b@) > 0),
        r == (semver_order(b@, a@) < 0),
{
    version_order(a, b) > 0
}

/// `<Semver>.isLessThan(<Semver>)`.
pub fn semver_is_less_than(a: &KubeSemver, b: &KubeSemver) -> (r: bool)
    ensures
        r == (semver_order(a@, b@) < 0),
        r == (semver_order(b@, a@) > 0),
{
    version_order(a, b) < 0
}

} // verus!
