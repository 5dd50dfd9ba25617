//! Character-sequence helpers shared by the string-producing functions.
use vstd::prelude::*;
use vstd::std_specs::iter::IteratorSpec;

verus! {

/// The decimal digit character for `d` (`0 <= d < 10`).
pub open spec fn digit_char(d: int) -> char {
    if d == 0 {
        '0'
    } else if d == 1 {
        '1'
    } else if d == 2 {
        '2'
    } else if d == 3 {
        '3'
    } else if d == 4 {
        '4'
    } else if d == 5 {
        '5'
    } else if d == 6 {
        '6'
    } else if d == 7 {
        '7'
    } else if d == 8 {
        '8'
    } else {
        '9'
    }
}

/// The decimal representation of `n`, most significant digit first, no leading zeros.
pub open spec fn dec_digits(n: nat) -> Seq<char>
    decreases n,
{
    if n < 10 {
        seq![digit_char(n as int)]
    } else {
        dec_digits(n / 10).push(digit_char((n % 10) as int))
    }
}

/// The decimal representation of an integer, with a leading `-` when negative.
pub open spec fn int_text(n: int) -> Seq<char> {
    if n < 0 {
        seq!['-'] + dec_digits((-n) as nat)
    } else {
        dec_digits(n as nat)
    }
}

/// `n` copies of the character `c`.
pub open spec fn repeat_char(c: char, n: nat) -> Seq<char> {
    Seq::new(n, |i: int| c)
}

/// ASCII decimal digit test.
pub open spec fn is_digit(c: char) -> bool {
    '0' <= c <= '9'
}

/// The value of a string of decimal digit characters, read left to right
/// (`0` for the empty string).
pub open spec fn decimal_value(s: Seq<char>) -> int
    decreases s.len(),
{
    if s.len() == 0 {
        0
    } else {
        10 * decimal_value(s.drop_last()) + (s.last() as int - '0' as int)
    }
}

/// The integer a decimal text denotes: an optional leading `-`, then digits.
pub open spec fn signed_decimal_value(s: Seq<char>) -> int {
    if s.len() > 0 && s[0] == '-' {
        -decimal_value(s.drop_first())
    } else {
        decimal_value(s)
    }
}

/// `s` is a decimal text: an optional leading `-`, then one or more digits,
/// with no leading zero (a lone `0` aside).
pub open spec fn is_decimal_text(s: Seq<char>) -> bool {
    let body = if s.len() > 0 && s[0] == '-' {
        s.drop_first()
    } else {
        s
    };
    &&& body.len() > 0
    &&& forall|i: int| 0 <= i < body.len() ==> is_digit(#[trigger] body[i])
    &&& (body[0] == '0' ==> body.len() == 1)
}

/// The digit character of `d` has code `'0' + d`.
proof fn lemma_digit_char_code(d: int)
    requires
        0 <= d < 10,
    ensures
        digit_char(d) as int - '0' as int == d,
        is_digit(digit_char(d)),
{
    if d == 0 {
    } else if d == 1 {
    } else if d == 2 {
    } else if d == 3 {
    } else if d == 4 {
    } else if d == 5 {
    } else if d == 6 {
    } else if d == 7 {
    } else if d == 8 {
    } else {
    }
}

/// The digits of `n` are digits, and read back as `n`.
pub proof fn lemma_dec_digits_value(n: nat)
    ensures
        dec_digits(n).len() > 0,
        forall|i: int| 0 <= i < dec_digits(n).len() ==> is_digit(#[trigger] dec_digits(n)[i]),
        decimal_value(dec_digits(n)) == n,
        dec_digits(n)[0] == '0' ==> n == 0 && dec_digits(n).len() == 1,
    decreases n,
{
    lemma_digit_char_code((n % 10) as int);
    if n >= 10 {
        lemma_dec_digits_value(n / 10);
        let d = dec_digits(n);
        assert(d.last() == digit_char((n % 10) as int));
        assert(d[0] == dec_digits(n / 10)[0]);
        assert(d.drop_last() =~= dec_digits(n / 10));
        assert forall|i: int| 0 <= i < d.len() implies is_digit(#[trigger] d[i]) by {
            if i < d.len() - 1 {
                assert(d[i] == dec_digits(n / 10)[i]);
            }
        }
    } else {
        assert(dec_digits(n).drop_last() =~= Seq::<char>::empty());
        assert(decimal_value(Seq::<char>::empty()) == 0);
        assert(n % 10 == n);
    }
}

/// The decimal text of an integer is a decimal text that reads back as the
/// integer, with a leading `-` exactly when it is negative.
pub proof fn law_int_text_reads_back(n: int)
    ensures
        is_decimal_text(int_text(n)),
        signed_decimal_value(int_text(n)) == n,
        (int_text(n)[0] == '-') <==> n < 0,
{
    if n < 0 {
        lemma_dec_digits_value((-n) as nat);
        let t = int_text(n);
        assert(t.drop_first() =~= dec_digits((-n) as nat));
    } else {
        lemma_dec_digits_value(n as nat);
        let d = dec_digits(n as nat);
        assert(is_digit(d[0]));
    }
}

/// The number of bytes `c` occupies in UTF-8.
pub open spec fn char_width(c: char) -> nat {
    if (c as u32) < 0x80 {
        1
    } else if (c as u32) < 0x800 {
        2
    } else if (c as u32) < 0x10000 {
        3
    } else {
        4
    }
}

/// The number of bytes `s` occupies in UTF-8 (what `str::len` reports).
pub open spec fn utf8_len(s: Seq<char>) -> nat
    decreases s.len(),
{
    if s.len() == 0 {
        0
    } else {
        char_width(s[0]) + utf8_len(s.drop_first())
    }
}

/// Byte length is additive over concatenation.
pub proof fn lemma_utf8_len_concat(a: Seq<char>, b: Seq<char>)
    ensures
        utf8_len(a + b) == utf8_len(a) + utf8_len(b),
    decreases a.len(),
{
    if a.len() > 0 {
        assert((a + b).drop_first() =~= a.drop_first() + b);
        lemma_utf8_len_concat(a.drop_first(), b);
    } else {
        assert(a + b =~= b);
    }
}

/// A sequence is at least as long in bytes as in characters.
pub proof fn lemma_utf8_len_ge(a: Seq<char>)
    ensures
        utf8_len(a) >= a.len(),
    decreases a.len(),
{
    if a.len() > 0 {
        lemma_utf8_len_ge(a.drop_first());
    }
}

/// `utf8_len` agrees with the length of vstd's UTF-8 encoding.
pub proof fn lemma_utf8_len_encoding(s: Seq<char>)
    ensures
        utf8_len(s) == vstd::utf8::encode_utf8(s).len(),
    decreases s.len(),
{
    if s.len() > 0 {
        lemma_utf8_len_encoding(s.drop_first());
        let c = s[0];
        vstd::utf8::char_is_scalar(c);
    }
}

/// Appends one character to a `String`.
///
/// Calls `String::push`; the contract claims the result is the old contents
/// followed by `c`.
#[verifier::external_body]
pub(crate) fn push_char(s: &mut String, c: char)
    ensures
        final(s)@ == old(s)@.push(c),
{
    s.push(c);
}

/// Appends a string slice to a `String`.
pub(crate) fn push_str(s: &mut String, t: &str)
    ensures
        final(s)@ == old(s)@ + t@,
{
    s.append(t);
}

/// A new `String` holding the characters of `t`.
pub(crate) fn string_of(t: &str) -> (r: String)
    ensures
        r@ == t@,
{
    let mut r = String::new();
    push_str(&mut r, t);
    proof {
        assert(r@ =~= t@);
    }
    r
}

/// The characters of `s`, in order.
pub fn chars_of(s: &str) -> (v: Vec<char>)
    ensures
        v@ == s@,
{
    broadcast use vstd::string::group_string_axioms;

    let mut v: Vec<char> = Vec::new();
    let mut iter = s.chars();
    loop
        invariant
            v@ + iter.remaining() == s@,
        ensures
            v@ == s@,
        decreases s@.len() - v@.len(),
    {
        let ghost before = iter.remaining();
        match iter.next() {
            Some(c) => {
                v.push(c);
                proof {
                    assert(v@ + iter.remaining() =~= s@) by {
                        assert(before =~= seq![c] + before.drop_first());
                    }
                }
            },
            None => {
                proof {
                    assert(v@ =~= s@);
                }
                break ;
            },
        }
    }
    v
}

/// Whether `a` and `b` hold the same characters.
pub fn str_eq(a: &str, b: &str) -> (r: bool)
    ensures
        r == (a@ == b@),
{
    let x = chars_of(a);
    let y = chars_of(b);
    if x.len() != y.len() {
        return false;
    }
    let mut i: usize = 0;
    while i < x.len()
        invariant
            x@ == a@,
            y@ == b@,
            x@.len() == y@.len(),
            i <= x@.len(),
            forall|j: int| 0 <= j < i ==> x@[j] == y@[j],
        decreases x@.len() - i,
    {
        if x[i] != y[i] {
            return false;
        }
        i = i + 1;
    }
    proof {
        assert(x@ =~= y@);
    }
    true
}

/// A `String` holding the characters of `v[from..to]`.
pub fn string_from_range(v: &Vec<char>, from: usize, to: usize) -> (r: String)
    requires
        from <= to <= v@.len(),
    ensures
        r@ == v@.subrange(from as int, to as int),
{
    let mut r = String::new();
    let mut i: usize = from;
    while i < to
        invariant
            from <= i <= to <= v@.len(),
            r@ == v@.subrange(from as int, i as int),
        decreases to - i,
    {
        push_char(&mut r, v[i]);
        i = i + 1;
        proof {
            assert(r@ =~= v@.subrange(from as int, i as int));
        }
    }
    r
}

/// A `String` holding all the characters of `v`.
pub fn string_from_chars(v: &Vec<char>) -> (r: String)
    ensures
        r@ == v@,
{
    let r = string_from_range(v, 0, v.len());
    proof {
        assert(v@.subrange(0, v@.len() as int) =~= v@);
    }
    r
}

/// The digit character for `d`.
pub fn digit_to_char(d: u8) -> (c: char)
    requires
        d < 10,
    ensures
        c == digit_char(d as int),
{
    match d {
        0 => '0',
        1 => '1',
        2 => '2',
        3 => '3',
        4 => '4',
        5 => '5',
        6 => '6',
        7 => '7',
        8 => '8',
        _ => '9',
    }
}

/// Appends the decimal digits of `n` to `out`.
pub fn push_decimal(out: &mut String, n: u128)
    ensures
        final(out)@ == old(out)@ + dec_digits(n as nat),
{
    let mut rev: Vec<char> = Vec::new();
    let ghost mut acc: Seq<char> = Seq::empty();
    let mut m: u128 = n;
    loop
        invariant_except_break
            dec_digits(n as nat) == dec_digits(m as nat) + acc,
        invariant
            rev@.len() == acc.len(),
            forall|i: int| 0 <= i < rev@.len() ==> rev@[i] == acc[acc.len() - 1 - i],
        ensures
            dec_digits(n as nat) == acc,
        decreases m,
    {
        if m < 10 {
            let c = digit_to_char(m as u8);
            rev.push(c);
            proof {
                let old_acc = acc;
                acc = seq![c] + old_acc;
                assert forall|i: int| 0 <= i < rev@.len() implies rev@[i] == acc[acc.len() - 1 - i] by {
                    if i < rev@.len() - 1 {
                        assert(acc[acc.len() - 1 - i] == old_acc[old_acc.len() - 1 - i]);
                    }
                }
            }
            break;
        }
        let d: u8 = (m % 10) as u8;
        let c = digit_to_char(d);
        rev.push(c);
        proof {
            let old_acc = acc;
            acc = seq![c] + old_acc;
            assert(dec_digits(m as nat) == dec_digits((m / 10) as nat).push(c));
            assert(dec_digits((m / 10) as nat).push(c) + old_acc =~= dec_digits((m / 10) as nat)
                + acc);
            assert forall|i: int| 0 <= i < rev@.len() implies rev@[i] == acc[acc.len() - 1 - i] by {
                if i < rev@.len() - 1 {
                    assert(acc[acc.len() - 1 - i] == old_acc[old_acc.len() - 1 - i]);
                }
            }
        }
        m = m / 10;
    }
    let len: usize = rev.len();
    let mut k: usize = len;
    let ghost start = out@;
    while k > 0
        invariant
            k <= len == rev@.len() == acc.len(),
            forall|i: int| 0 <= i < rev@.len() ==> rev@[i] == acc[acc.len() - 1 - i],
            out@ == start + acc.subrange(0, (len - k) as int),
        decreases k,
    {
        k = k - 1;
        push_char(out, rev[k]);
        proof {
            assert(acc.subrange(0, (len - k) as int) =~= acc.subrange(0, (len - k - 1) as int).push(
                acc[(len - k - 1) as int],
            ));
        }
    }
    proof {
        assert(acc.subrange(0, len as int) =~= acc);
    }
}

/// Appends the decimal text of a signed integer to `out`.
pub fn push_signed_decimal(out: &mut String, n: i128)
    ensures
        final(out)@ == old(out)@ + int_text(n as int),
{
    if n < 0 {
        push_char(out, '-');
        let mag: u128 = if n == i128::MIN {
            0x8000_0000_0000_0000_0000_0000_0000_0000u128
        } else {
            (-n) as u128
        };
        push_decimal(out, mag);
        proof {
            assert(old(out)@.push('-') + dec_digits(mag as nat) =~= old(out)@ + (seq!['-']
                + dec_digits((-n) as nat)));
        }
    } else {
        push_decimal(out, n as u128);
    }
}

/// The decimal text of an unsigned integer.
pub fn u64_text(n: u64) -> (r: String)
    ensures
        r@ == dec_digits(n as nat),
{
    let mut r = String::new();
    push_decimal(&mut r, n as u128);
    proof {
        assert(r@ =~= dec_digits(n as nat));
    }
    r
}

} // verus!

verus! {

/// Unicode `White_Space` (what `char::is_whitespace` tests).
pub open spec fn is_ws(c: char) -> bool {
    let u: u32 = c as u32;
    ||| 0x09 <= u <= 0x0D
    ||| u == 0x20
    ||| u == 0x85
    ||| u == 0xA0
    ||| u == 0x1680
    ||| 0x2000 <= u <= 0x200A
    ||| u == 0x2028
    ||| u == 0x2029
    ||| u == 0x202F
    ||| u == 0x205F
    ||| u == 0x3000
}

/// Exec form of [`is_ws`].
pub fn is_ws_char(c: char) -> (b: bool)
    ensures
        b == is_ws(c),
{
    let u: u32 = c as u32;
    (0x09 <= u && u <= 0x0D) || u == 0x20 || u == 0x85 || u == 0xA0 || u == 0x1680 || (0x2000
        <= u && u <= 0x200A) || u == 0x2028 || u == 0x2029 || u == 0x202F || u == 0x205F || u
        == 0x3000
}

/// The number of leading characters of `s` that satisfy `p`.
pub open spec fn leading(s: Seq<char>, p: spec_fn(char) -> bool) -> nat
    decreases s.len(),
{
    if s.len() > 0 && p(s[0]) {
        1 + leading(s.drop_first(), p)
    } else {
        0
    }
}

/// The number of trailing characters of `s` that satisfy `p`.
pub open spec fn trailing(s: Seq<char>, p: spec_fn(char) -> bool) -> nat
    decreases s.len(),
{
    if s.len() > 0 && p(s.last()) {
        1 + trailing(s.drop_last(), p)
    } else {
        0
    }
}

/// `leading` is the index of the first character that fails `p`.
pub proof fn lemma_leading(s: Seq<char>, p: spec_fn(char) -> bool, i: int)
    requires
        0 <= i <= s.len(),
        forall|j: int| 0 <= j < i ==> #[trigger] p(s[j]),
        i == s.len() || !p(s[i]),
    ensures
        leading(s, p) == i,
    decreases i,
{
    if i > 0 {
        assert forall|j: int| 0 <= j < i - 1 implies #[trigger] p(s.drop_first()[j]) by {
            assert(s.drop_first()[j] == s[j + 1]);
        }
        if i < s.len() {
            assert(s.drop_first()[i - 1] == s[i]);
        }
        lemma_leading(s.drop_first(), p, i - 1);
    }
}

/// `trailing` counts from the end up to the last character that fails `p`.
pub proof fn lemma_trailing(s: Seq<char>, p: spec_fn(char) -> bool, i: int)
    requires
        0 <= i <= s.len(),
        forall|j: int| s.len() - i <= j < s.len() ==> #[trigger] p(s[j]),
        i == s.len() || !p(s[s.len() - 1 - i]),
    ensures
        trailing(s, p) == i,
    decreases i,
{
    if i > 0 {
        let t = s.drop_last();
        assert forall|j: int| t.len() - (i - 1) <= j < t.len() implies #[trigger] p(t[j]) by {
            assert(t[j] == s[j]);
        }
        if i < s.len() {
            assert(t[t.len() - 1 - (i - 1)] == s[s.len() - 1 - i]);
        }
        lemma_trailing(t, p, i - 1);
    }
}

/// What `str::trim` keeps of `s`.
pub open spec fn trim_seq(s: Seq<char>) -> Seq<char> {
    let a = leading(s, |c: char| is_ws(c));
    let rest = s.skip(a as int);
    rest.take(rest.len() - trailing(rest, |c: char| is_ws(c)))
}

/// The bounds `[a, b)` of the trimmed part of `v`.
pub fn trim_bounds(v: &Vec<char>) -> (r: (usize, usize))
    ensures
        r.0 <= r.1 <= v@.len(),
        v@.subrange(r.0 as int, r.1 as int) == trim_seq(v@),
{
    let n: usize = v.len();
    let mut a: usize = 0;
    while a < n && is_ws_char(v[a])
        invariant
            a <= n == v@.len(),
            forall|j: int| 0 <= j < a ==> is_ws(#[trigger] v@[j]),
        decreases n - a,
    {
        a = a + 1;
    }
    proof {
        lemma_leading(v@, |c: char| is_ws(c), a as int);
    }
    let mut b: usize = n;
    while b > a && is_ws_char(v[b - 1])
        invariant
            a <= b <= n == v@.len(),
            forall|j: int| b <= j < n ==> is_ws(#[trigger] v@[j]),
        decreases b - a,
    {
        b = b - 1;
    }
    proof {
        let rest = v@.skip(a as int);
        let k = (n - b) as int;
        assert forall|j: int| rest.len() - k <= j < rest.len() implies is_ws(#[trigger] rest[j]) by {
            assert(rest[j] == v@[j + a]);
        }
        if k < rest.len() {
            assert(rest[rest.len() - 1 - k] == v@[b - 1]);
        }
        lemma_trailing(rest, |c: char| is_ws(c), k);
        assert(v@.subrange(a as int, b as int) =~= rest.take(rest.len() - k));
    }
    (a, b)
}

} // verus!

verus! {

/// A copy of `v[from..to]`.
pub fn sub_vec(v: &Vec<char>, from: usize, to: usize) -> (r: Vec<char>)
    requires
        from <= to <= v@.len(),
    ensures
        r@ == v@.subrange(from as int, to as int),
{
    let mut r: Vec<char> = Vec::new();
    let mut i: usize = from;
    while i < to
        invariant
            from <= i <= to <= v@.len(),
            r@ == v@.subrange(from as int, i as int),
        decreases to - i,
    {
        r.push(v[i]);
        i = i + 1;
        proof {
            assert(r@ =~= v@.subrange(from as int, i as int));
        }
    }
    r
}

/// The index of the first `c` in `v[from..to]`, relative to `from` (or the range length).
pub fn find_char(v: &Vec<char>, from: usize, to: usize, c: char) -> (k: usize)
    requires
        from <= to <= v@.len(),
    ensures
        k == leading(v@.subrange(from as int, to as int), |x: char| x != c),
        k <= to - from,
{
    let mut i: usize = from;
    while i < to && v[i] != c
        invariant
            from <= i <= to <= v@.len(),
            forall|j: int| from <= j < i ==> #[trigger] v@[j] != c,
        decreases to - i,
    {
        i = i + 1;
    }
    proof {
        let s = v@.subrange(from as int, to as int);
        let p = |x: char| x != c;
        assert forall|j: int| 0 <= j < i - from implies #[trigger] p(s[j]) by {
            assert(s[j] == v@[from + j]);
        }
        lemma_leading(s, |x: char| x != c, (i - from) as int);
    }
    i - from
}

} // verus!

verus! {

/// The numeric value of an ASCII digit character.
pub open spec fn digit_val(c: char) -> nat {
    ((c as u32) - ('0' as u32)) as nat
}

/// The value of a string of decimal digits (most significant first).
pub open spec fn digits_value(d: Seq<char>) -> nat
    decreases d.len(),
{
    if d.len() == 0 {
        0
    } else {
        digits_value(d.drop_last()) * 10 + digit_val(d.last())
    }
}

/// Every character of `s` is an ASCII digit.
pub open spec fn all_digits(s: Seq<char>) -> bool {
    forall|i: int| 0 <= i < s.len() ==> is_digit(#[trigger] s[i])
}

/// What `str::parse` gives for an integer type with range `[lo, hi]`:
/// an optional `+` (or `-` when the type is signed), then one or more ASCII
/// digits, with the value inside the range.
pub open spec fn parse_int(t: Seq<char>, lo: int, hi: int, signed: bool) -> Option<int> {
    if t.len() == 0 {
        None
    } else {
        let neg = signed && t[0] == '-';
        let body = if t[0] == '+' || neg {
            t.drop_first()
        } else {
            t
        };
        if body.len() == 0 || !all_digits(body) {
            None
        } else {
            let v = if neg {
                -digits_value(body)
            } else {
                digits_value(body) as int
            };
            if lo <= v <= hi {
                Some(v)
            } else {
                None
            }
        }
    }
}

/// Exec form of [`is_digit`].
pub fn is_digit_char(c: char) -> (b: bool)
    ensures
        b == is_digit(c),
{
    '0' <= c && c <= '9'
}

/// Parses `v[from..to]` as an integer in `[lo, hi]` (see [`parse_int`]).
pub fn parse_int_range(v: &Vec<char>, from: usize, to: usize, lo: i128, hi: i128, signed: bool) -> (r:
    Option<i128>)
    requires
        from <= to <= v@.len(),
        lo <= 0 <= hi,
        !signed ==> lo == 0,
    ensures
        r matches Some(x) ==> parse_int(v@.subrange(from as int, to as int), lo as int, hi as int, signed) == Some(x as int),
        r is None ==> parse_int(v@.subrange(from as int, to as int), lo as int, hi as int, signed) is None,
{
    let ghost t = v@.subrange(from as int, to as int);
    if from == to {
        return None;
    }
    let first = v[from];
    let neg = signed && first == '-';
    let start: usize = if first == '+' || neg {
        from + 1
    } else {
        from
    };
    let ghost body = v@.subrange(start as int, to as int);
    proof {
        if first == '+' || neg {
            assert(body =~= t.drop_first());
        } else {
            assert(body =~= t);
        }
    }
    if start == to {
        return None;
    }
    let bound: u128 = if neg {
        if lo == i128::MIN {
            0x8000_0000_0000_0000_0000_0000_0000_0000u128
        } else {
            (-lo) as u128
        }
    } else {
        hi as u128
    };
    let mut mag: u128 = 0;
    let mut over = false;
    let mut i: usize = start;
    while i < to
        invariant
            from <= start <= i <= to <= v@.len(),
            body == v@.subrange(start as int, to as int),
            t == v@.subrange(from as int, to as int),
            t.len() > 0,
            t[0] == first,
            neg == (signed && first == '-'),
            body == (if first == '+' || neg { t.drop_first() } else { t }),
            neg ==> bound == -lo,
            !neg ==> bound == hi,
            forall|j: int| start <= j < i ==> is_digit(#[trigger] v@[j]),
            !over ==> mag == digits_value(v@.subrange(start as int, i as int)) && mag <= bound,
            over ==> digits_value(v@.subrange(start as int, i as int)) > bound,
        decreases to - i,
    {
        let c = v[i];
        if !is_digit_char(c) {
            proof {
                assert(body[i - start] == c);
                assert(!is_digit(body[i - start]));
                assert(!all_digits(body));
                assert(t[0] == first);
            }
            return None;
        }
        let d: u128 = (c as u32 - '0' as u32) as u128;
        let ghost prev = v@.subrange(start as int, i as int);
        proof {
            assert(v@.subrange(start as int, i + 1).drop_last() =~= prev);
            assert(v@.subrange(start as int, i + 1).last() == c);
        }
        if !over {
            match mag.checked_mul(10) {
                None => {
                    over = true;
                },
                Some(x) => match x.checked_add(d) {
                    None => {
                        over = true;
                    },
                    Some(y) => {
                        if y > bound {
                            over = true;
                        } else {
                            mag = y;
                        }
                    },
                },
            }
        }
        i = i + 1;
    }
    proof {
        assert(v@.subrange(start as int, to as int) == body);
        assert(all_digits(body)) by {
            assert forall|j: int| 0 <= j < body.len() implies is_digit(#[trigger] body[j]) by {
                assert(body[j] == v@[start + j]);
            }
        }
    }
    if over {
        return None;
    }
    if neg {
        if mag == 0x8000_0000_0000_0000_0000_0000_0000_0000u128 {
            Some(i128::MIN)
        } else {
            Some(-(mag as i128))
        }
    } else {
        Some(mag as i128)
    }
}

} // verus!

verus! {

/// `a` followed by `b`.
pub fn vec_concat(a: &Vec<char>, b: &Vec<char>) -> (r: Vec<char>)
    ensures
        r@ == a@ + b@,
{
    let mut r: Vec<char> = Vec::new();
    let mut i: usize = 0;
    while i < a.len()
        invariant
            i <= a@.len(),
            r@ == a@.take(i as int),
        decreases a@.len() - i,
    {
        r.push(a[i]);
        i = i + 1;
        proof {
            assert(r@ =~= a@.take(i as int));
        }
    }
    let mut j: usize = 0;
    while j < b.len()
        invariant
            j <= b@.len(),
            r@ == a@ + b@.take(j as int),
        decreases b@.len() - j,
    {
        r.push(b[j]);
        j = j + 1;
        proof {
            assert(r@ =~= a@ + b@.take(j as int));
        }
    }
    proof {
        assert(a@.take(a@.len() as int) =~= a@);
        assert(b@.take(b@.len() as int) =~= b@);
    }
    r
}

} // verus!
