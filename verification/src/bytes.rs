//! Byte-level helpers over the UTF-8 encoding of strings.
//!
//! The format validators look at a string through its UTF-8 bytes, the way
//! `str::len`, byte slicing and ASCII tests do.
use vstd::prelude::*;

verus! {

/// ASCII lowercase letter.
pub open spec fn lower(b: u8) -> bool {
    97 <= b <= 122
}

/// ASCII uppercase letter.
pub open spec fn upper(b: u8) -> bool {
    65 <= b <= 90
}

/// ASCII digit.
pub open spec fn digit(b: u8) -> bool {
    48 <= b <= 57
}

/// ASCII letter.
pub open spec fn alpha(b: u8) -> bool {
    lower(b) || upper(b)
}

/// ASCII letter or digit.
pub open spec fn alnum(b: u8) -> bool {
    alpha(b) || digit(b)
}

/// ASCII hexadecimal digit.
pub open spec fn hex(b: u8) -> bool {
    digit(b) || (97 <= b <= 102) || (65 <= b <= 70)
}

/// The byte classes the validators test whole strings against.
#[derive(Clone, Copy, PartialEq, Eq, Debug)]
pub enum ByteClass {
    /// Lowercase letters, digits, `-`.
    Dns,
    /// Letters, digits, `-`, `_`, `.`.
    Qualified,
    /// Letters, digits, `+`, `-`, `.`.
    Scheme,
    /// Letters, digits, `+`, `/`, `-`, `_`.
    Base64,
    /// Hexadecimal digits.
    Hex,
    /// Decimal digits.
    Digit,
}

/// Membership of a byte in a class.
pub open spec fn in_class(c: ByteClass, b: u8) -> bool {
    match c {
        ByteClass::Dns => lower(b) || digit(b) || b == 45,
        ByteClass::Qualified => alnum(b) || b == 45 || b == 95 || b == 46,
        ByteClass::Scheme => alnum(b) || b == 43 || b == 45 || b == 46,
        ByteClass::Base64 => alnum(b) || b == 43 || b == 47 || b == 45 || b == 95,
        ByteClass::Hex => hex(b),
        ByteClass::Digit => digit(b),
    }
}

/// Every byte of `s` is in class `c`.
pub open spec fn all_in(s: Seq<u8>, c: ByteClass) -> bool {
    forall|i: int| 0 <= i < s.len() ==> in_class(c, #[trigger] s[i])
}

/// Exec form of [`in_class`].
pub fn byte_in_class(c: ByteClass, b: u8) -> (r: bool)
    ensures
        r == in_class(c, b),
{
    let lo = 97 <= b && b <= 122;
    let up = 65 <= b && b <= 90;
    let dg = 48 <= b && b <= 57;
    match c {
        ByteClass::Dns => lo || dg || b == 45,
        ByteClass::Qualified => lo || up || dg || b == 45 || b == 95 || b == 46,
        ByteClass::Scheme => lo || up || dg || b == 43 || b == 45 || b == 46,
        ByteClass::Base64 => lo || up || dg || b == 43 || b == 47 || b == 45 || b == 95,
        ByteClass::Hex => dg || (97 <= b && b <= 102) || (65 <= b && b <= 70),
        ByteClass::Digit => dg,
    }
}

/// Whether every byte of `b[from..to]` is in class `c`.
pub fn range_all_in(b: &[u8], from: usize, to: usize, c: ByteClass) -> (r: bool)
    requires
        from <= to <= b@.len(),
    ensures
        r == all_in(b@.subrange(from as int, to as int), c),
{
    let mut i: usize = from;
    while i < to
        invariant
            from <= i <= to <= b@.len(),
            forall|j: int| from <= j < i ==> in_class(c, #[trigger] b@[j]),
        decreases to - i,
    {
        if !byte_in_class(c, b[i]) {
            proof {
                assert(b@.subrange(from as int, to as int)[i - from] == b@[i as int]);
            }
            return false;
        }
        i = i + 1;
    }
    proof {
        let s = b@.subrange(from as int, to as int);
        assert forall|j: int| 0 <= j < s.len() implies in_class(c, #[trigger] s[j]) by {
            assert(s[j] == b@[from + j]);
        }
    }
    true
}

/// The index of the first `c` in `s`, or `s.len()` when there is none.
pub open spec fn byte_pos(s: Seq<u8>, c: u8) -> nat
    decreases s.len(),
{
    if s.len() == 0 {
        0
    } else if s[0] == c {
        0
    } else {
        1 + byte_pos(s.drop_first(), c)
    }
}

/// `byte_pos` is the first occurrence.
pub proof fn lemma_byte_pos(s: Seq<u8>, c: u8, i: int)
    requires
        0 <= i <= s.len(),
        forall|j: int| 0 <= j < i ==> #[trigger] s[j] != c,
        i == s.len() || s[i] == c,
    ensures
        byte_pos(s, c) == i,
    decreases i,
{
    if i > 0 {
        let t = s.drop_first();
        assert forall|j: int| 0 <= j < i - 1 implies #[trigger] t[j] != c by {
            assert(t[j] == s[j + 1]);
        }
        if i < s.len() {
            assert(t[i - 1] == s[i]);
        }
        assert(s[0] != c);
        lemma_byte_pos(t, c, i - 1);
    }
}

/// The index of the first `c` in `b[from..to]`, relative to `from`.
pub fn find_byte(b: &[u8], from: usize, to: usize, c: u8) -> (k: usize)
    requires
        from <= to <= b@.len(),
    ensures
        k == byte_pos(b@.subrange(from as int, to as int), c),
        k <= to - from,
{
    let mut i: usize = from;
    while i < to && b[i] != c
        invariant
            from <= i <= to <= b@.len(),
            forall|j: int| from <= j < i ==> #[trigger] b@[j] != c,
        decreases to - i,
    {
        i = i + 1;
    }
    proof {
        let s = b@.subrange(from as int, to as int);
        assert forall|j: int| 0 <= j < i - from implies #[trigger] s[j] != c by {
            assert(s[j] == b@[from + j]);
        }
        if i < to {
            assert(s[i - from] == b@[i as int]);
        }
        lemma_byte_pos(s, c, (i - from) as int);
    }
    i - from
}

/// The index of the last `c` in `s`, if any.
pub open spec fn last_byte_pos(s: Seq<u8>, c: u8) -> Option<nat>
    decreases s.len(),
{
    if s.len() == 0 {
        None
    } else if s.last() == c {
        Some((s.len() - 1) as nat)
    } else {
        last_byte_pos(s.drop_last(), c)
    }
}

/// The index of the last `c` in `b`, if any.
pub fn rfind_byte(b: &[u8], c: u8) -> (r: Option<usize>)
    ensures
        r matches Some(k) ==> last_byte_pos(b@, c) == Some(k as nat),
        r is None ==> last_byte_pos(b@, c) is None,
{
    let mut i: usize = b.len();
    proof {
        assert(b@.take(i as int) =~= b@);
    }
    while i > 0 && b[i - 1] != c
        invariant
            i <= b@.len(),
            last_byte_pos(b@, c) == last_byte_pos(b@.take(i as int), c),
        decreases i,
    {
        proof {
            assert(b@.take(i as int).drop_last() =~= b@.take(i - 1));
        }
        i = i - 1;
    }
    if i == 0 {
        proof {
            assert(b@.take(0) =~= Seq::<u8>::empty());
        }
        None
    } else {
        Some(i - 1)
    }
}

/// Splitting on a separator byte, as `str::split` with a one-byte ASCII
/// pattern does: always at least one (possibly empty) piece.
pub open spec fn split_bytes(s: Seq<u8>, c: u8) -> Seq<Seq<u8>>
    decreases s.len(),
{
    let k = byte_pos(s, c);
    if k >= s.len() {
        seq![s]
    } else {
        seq![s.take(k as int)] + split_bytes(s.skip((k + 1) as int), c)
    }
}

/// The pieces that index ranges denote.
pub open spec fn pieces(b: Seq<u8>, r: Seq<(usize, usize)>) -> Seq<Seq<u8>> {
    r.map_values(|p: (usize, usize)| b.subrange(p.0 as int, p.1 as int))
}

/// The ranges of the pieces of `b` split on `c`.
pub fn split_ranges(b: &[u8], c: u8) -> (r: Vec<(usize, usize)>)
    ensures
        pieces(b@, r@) == split_bytes(b@, c),
        forall|i: int| 0 <= i < r@.len() ==> (#[trigger] r@[i]).0 <= r@[i].1 <= b@.len(),
{
    let n = b.len();
    let mut r: Vec<(usize, usize)> = Vec::new();
    let mut start: usize = 0;
    proof {
        assert(pieces(b@, r@) =~= Seq::<Seq<u8>>::empty());
        assert(b@.skip(0) =~= b@);
        assert(pieces(b@, r@) + split_bytes(b@.skip(0), c) =~= split_bytes(b@, c));
    }
    loop
        invariant
            start <= n == b@.len(),
            pieces(b@, r@) + split_bytes(b@.skip(start as int), c) == split_bytes(b@, c),
            forall|i: int| 0 <= i < r@.len() ==> (#[trigger] r@[i]).0 <= r@[i].1 <= b@.len(),
        decreases n - start,
    {
        let k = find_byte(b, start, n, c);
        let ghost rest = b@.skip(start as int);
        proof {
            assert(b@.subrange(start as int, n as int) =~= rest);
        }
        if k == n - start {
            let ghost old_r = r@;
            r.push((start, n));
            proof {
                assert(pieces(b@, r@) =~= pieces(b@, old_r).push(rest));
                assert(split_bytes(rest, c) == seq![rest]);
                assert(b@.skip(n as int) =~= Seq::<u8>::empty());
                assert(pieces(b@, r@) =~= split_bytes(b@, c));
            }
            return r;
        }
        let ghost old_r = r@;
        r.push((start, start + k));
        proof {
            assert(rest.take(k as int) =~= b@.subrange(start as int, start + k));
            assert(rest.skip(k + 1) =~= b@.skip(start + k + 1));
            assert(pieces(b@, r@) =~= pieces(b@, old_r).push(rest.take(k as int)));
            assert(split_bytes(rest, c) == seq![rest.take(k as int)] + split_bytes(rest.skip(k + 1), c));
            assert(pieces(b@, r@) + split_bytes(b@.skip(start + k + 1), c) =~= pieces(b@, old_r)
                + split_bytes(rest, c));
        }
        start = start + k + 1;
    }
}

/// The value of a field of one or more ASCII digits (no sign), when it is
/// at most `u32::MAX`.
pub open spec fn parse_u32_bytes(s: Seq<u8>) -> Option<nat> {
    if s.len() == 0 || !all_in(s, ByteClass::Digit) || digits_value_b(s) > u32::MAX {
        None
    } else {
        Some(digits_value_b(s))
    }
}

/// The value of a string of ASCII digits.
pub open spec fn digits_value_b(d: Seq<u8>) -> nat
    decreases d.len(),
{
    if d.len() == 0 {
        0
    } else {
        digits_value_b(d.drop_last()) * 10 + (d.last() - 48) as nat
    }
}

/// Parses `b[from..to]` as a `u32` (see [`parse_u32_bytes`]).
pub fn parse_u32_range(b: &[u8], from: usize, to: usize) -> (r: Option<u32>)
    requires
        from <= to <= b@.len(),
    ensures
        r matches Some(x) ==> parse_u32_bytes(b@.subrange(from as int, to as int)) == Some(x as nat),
        r is None ==> parse_u32_bytes(b@.subrange(from as int, to as int)) is None,
{
    let ghost s = b@.subrange(from as int, to as int);
    let start: usize = from;
    let ghost body = b@.subrange(start as int, to as int);
    if start == to || !range_all_in(b, start, to, ByteClass::Digit) {
        return None;
    }
    let mut v: u64 = 0;
    let mut i: usize = start;
    while i < to
        invariant
            start <= i <= to <= b@.len(),
            body == b@.subrange(start as int, to as int),
            s == b@.subrange(from as int, to as int),
            body == s,
            body.len() > 0,
            all_in(body, ByteClass::Digit),
            v == digits_value_b(b@.subrange(start as int, i as int)),
            v <= u32::MAX,
        decreases to - i,
    {
        let c = b[i];
        proof {
            assert(body[i - start] == c);
            assert(in_class(ByteClass::Digit, c));
            assert(b@.subrange(start as int, i + 1).drop_last() =~= b@.subrange(start as int, i as int));
            assert(b@.subrange(start as int, i + 1) =~= body.take(i + 1 - start));
        }
        let nv: u64 = v * 10 + (c - 48) as u64;
        proof {
            let t = b@.subrange(start as int, i + 1);
            assert(t.last() == c);
            assert(digits_value_b(t) == digits_value_b(t.drop_last()) * 10 + (t.last() - 48) as nat);
        }
        if nv > 0xffff_ffffu64 {
            proof {
                lemma_digits_value_b_grows(body, i + 1 - start);
                assert(body.take(body.len() as int) =~= body);
            }
            return None;
        }
        v = nv;
        i = i + 1;
    }
    proof {
        assert(b@.subrange(start as int, to as int) =~= body);
    }
    Some(v as u32)
}

/// The value of a digit string is at least that of any of its prefixes.
pub proof fn lemma_digits_value_b_grows(s: Seq<u8>, k: int)
    requires
        0 <= k <= s.len(),
        all_in(s, ByteClass::Digit),
    ensures
        digits_value_b(s) >= digits_value_b(s.take(k)),
    decreases s.len() - k,
{
    if k < s.len() {
        lemma_digits_value_b_grows(s, k + 1);
        let t = s.take(k + 1);
        assert(t.drop_last() =~= s.take(k));
        assert(in_class(ByteClass::Digit, s[k]));
        assert(t.last() == s[k]);
        assert(digits_value_b(t) == digits_value_b(s.take(k)) * 10 + (s[k] - 48) as nat);
    } else {
        assert(s.take(k) =~= s);
    }
}

/// The index of the first byte equal to `c1` or `c2`, or `s.len()`.
pub open spec fn pos2(s: Seq<u8>, c1: u8, c2: u8) -> nat
    decreases s.len(),
{
    if s.len() == 0 {
        0
    } else if s[0] == c1 || s[0] == c2 {
        0
    } else {
        1 + pos2(s.drop_first(), c1, c2)
    }
}

/// The index of the first `c1` or `c2` in `b`.
pub fn find2(b: &[u8], c1: u8, c2: u8) -> (k: usize)
    ensures
        k == pos2(b@, c1, c2),
        k <= b@.len(),
{
    let mut i: usize = 0;
    proof {
        assert(b@.skip(0) =~= b@);
    }
    while i < b.len() && b[i] != c1 && b[i] != c2
        invariant
            i <= b@.len(),
            pos2(b@, c1, c2) == i + pos2(b@.skip(i as int), c1, c2),
        decreases b@.len() - i,
    {
        proof {
            assert(b@.skip(i as int)[0] == b@[i as int]);
            assert(b@.skip(i as int).drop_first() =~= b@.skip(i + 1));
        }
        i = i + 1;
    }
    proof {
        if i == b@.len() {
            assert(b@.skip(i as int).len() == 0);
        } else {
            assert(b@.skip(i as int)[0] == b@[i as int]);
        }
    }
    i
}

/// The index of the last byte equal to `c1` or `c2`, if any.
pub open spec fn last_pos2(s: Seq<u8>, c1: u8, c2: u8) -> Option<nat>
    decreases s.len(),
{
    if s.len() == 0 {
        None
    } else if s.last() == c1 || s.last() == c2 {
        Some((s.len() - 1) as nat)
    } else {
        last_pos2(s.drop_last(), c1, c2)
    }
}

/// The index of the last byte equal to `c1` or `c2` at index `min` or later, if any.
pub open spec fn last_pos2_from(s: Seq<u8>, c1: u8, c2: u8, min: nat) -> Option<nat>
    decreases s.len(),
{
    if s.len() == 0 {
        None
    } else if s.len() - 1 >= min && (s.last() == c1 || s.last() == c2) {
        Some((s.len() - 1) as nat)
    } else {
        last_pos2_from(s.drop_last(), c1, c2, min)
    }
}

/// Exec form of [`last_pos2_from`].
pub fn rfind2_from(b: &[u8], c1: u8, c2: u8, min: usize) -> (r: Option<usize>)
    ensures
        r matches Some(k) ==> last_pos2_from(b@, c1, c2, min as nat) == Some(k as nat) && k < b@.len(),
        r is None ==> last_pos2_from(b@, c1, c2, min as nat) is None,
{
    let mut i: usize = b.len();
    proof {
        assert(b@.take(i as int) =~= b@);
    }
    while i > 0 && !(i - 1 >= min && (b[i - 1] == c1 || b[i - 1] == c2))
        invariant
            i <= b@.len(),
            last_pos2_from(b@, c1, c2, min as nat) == last_pos2_from(b@.take(i as int), c1, c2, min as nat),
        decreases i,
    {
        proof {
            assert(b@.take(i as int).drop_last() =~= b@.take(i - 1));
        }
        i = i - 1;
    }
    if i == 0 {
        proof {
            assert(b@.take(0) =~= Seq::<u8>::empty());
        }
        None
    } else {
        Some(i - 1)
    }
}

/// Exec form of [`last_pos2`].
pub fn rfind2(b: &[u8], c1: u8, c2: u8) -> (r: Option<usize>)
    ensures
        r matches Some(k) ==> last_pos2(b@, c1, c2) == Some(k as nat) && k < b@.len(),
        r is None ==> last_pos2(b@, c1, c2) is None,
{
    let mut i: usize = b.len();
    proof {
        assert(b@.take(i as int) =~= b@);
    }
    while i > 0 && b[i - 1] != c1 && b[i - 1] != c2
        invariant
            i <= b@.len(),
            last_pos2(b@, c1, c2) == last_pos2(b@.take(i as int), c1, c2),
        decreases i,
    {
        proof {
            assert(b@.take(i as int).drop_last() =~= b@.take(i - 1));
        }
        i = i - 1;
    }
    if i == 0 {
        proof {
            assert(b@.take(0) =~= Seq::<u8>::empty());
        }
        None
    } else {
        Some(i - 1)
    }
}

/// The number of trailing bytes of `s` equal to `c`.
pub open spec fn trailing_count(s: Seq<u8>, c: u8) -> nat
    decreases s.len(),
{
    if s.len() > 0 && s.last() == c {
        1 + trailing_count(s.drop_last(), c)
    } else {
        0
    }
}

/// Exec form of [`trailing_count`].
pub fn count_trailing(b: &[u8], c: u8) -> (k: usize)
    ensures
        k == trailing_count(b@, c),
        k <= b@.len(),
{
    let mut i: usize = b.len();
    proof {
        assert(b@.take(i as int) =~= b@);
    }
    while i > 0 && b[i - 1] == c
        invariant
            i <= b@.len(),
            trailing_count(b@, c) == (b@.len() - i) + trailing_count(b@.take(i as int), c),
        decreases i,
    {
        proof {
            assert(b@.take(i as int).drop_last() =~= b@.take(i - 1));
        }
        i = i - 1;
    }
    b.len() - i
}

/// What `last_pos2` finds is a `c1` or a `c2` inside `s`.
pub proof fn lemma_last_pos2(s: Seq<u8>, c1: u8, c2: u8)
    ensures
        last_pos2(s, c1, c2) matches Some(p) ==> p < s.len() && (s[p as int] == c1 || s[p as int]
            == c2),
    decreases s.len(),
{
    if s.len() > 0 && s.last() != c1 && s.last() != c2 {
        lemma_last_pos2(s.drop_last(), c1, c2);
    }
}

/// What `last_pos2_from` finds is a `c1` or a `c2` inside `s`, at `min` or later.
pub proof fn lemma_last_pos2_from(s: Seq<u8>, c1: u8, c2: u8, min: nat)
    ensures
        last_pos2_from(s, c1, c2, min) matches Some(p) ==> min <= p < s.len() && (s[p as int]
            == c1 || s[p as int] == c2),
    decreases s.len(),
{
    if s.len() > 0 && !(s.len() - 1 >= min && (s.last() == c1 || s.last() == c2)) {
        lemma_last_pos2_from(s.drop_last(), c1, c2, min);
    }
}

/// What `pos2` finds, when inside `s`, is a `c1` or a `c2`, and none comes before it.
pub proof fn lemma_pos2(s: Seq<u8>, c1: u8, c2: u8)
    ensures
        pos2(s, c1, c2) <= s.len(),
        pos2(s, c1, c2) < s.len() ==> s[pos2(s, c1, c2) as int] == c1 || s[pos2(s, c1, c2) as int]
            == c2,
        forall|j: int| 0 <= j < pos2(s, c1, c2) ==> #[trigger] s[j] != c1 && s[j] != c2,
    decreases s.len(),
{
    if s.len() > 0 && s[0] != c1 && s[0] != c2 {
        lemma_pos2(s.drop_first(), c1, c2);
        assert forall|j: int| 0 <= j < pos2(s, c1, c2) implies #[trigger] s[j] != c1 && s[j] != c2 by {
            if j > 0 {
                assert(s[j] == s.drop_first()[j - 1]);
            }
        }
    }
}

} // verus!
