//! The CEL string extension functions (`charAt`, `indexOf`, `replace`,
//! `split`, `substring`, `trim`, `join`, `reverse`, `strings.quote`, ...).
//!
//! Strings are sequences of characters; indices count characters.
use vstd::prelude::*;
use crate::text::{
    chars_of, dec_digits, int_text, push_char, push_decimal, push_signed_decimal, push_str,
    string_from_chars, string_from_range, string_of, trim_bounds, trim_seq,
};

verus! {

/// Whether `sub` occurs in `s` at position `p`.
pub open spec fn occurs_at(s: Seq<char>, sub: Seq<char>, p: int) -> bool {
    0 <= p && p + sub.len() <= s.len() && s.subrange(p, p + sub.len()) == sub
}

/// The first position at or after `from` where `sub` occurs in `s`.
pub open spec fn first_occurrence(s: Seq<char>, sub: Seq<char>, from: nat) -> Option<nat>
    decreases s.len() + 1 - from,
{
    if from + sub.len() > s.len() {
        None
    } else if occurs_at(s, sub, from as int) {
        Some(from)
    } else {
        first_occurrence(s, sub, from + 1)
    }
}

/// The last position `p < k` with `p + sub.len() <= end` where `sub` occurs.
pub open spec fn last_occurrence(s: Seq<char>, sub: Seq<char>, end: nat, k: nat) -> Option<nat>
    decreases k,
{
    if k == 0 {
        None
    } else if (k - 1) + sub.len() <= end && occurs_at(s, sub, k - 1) {
        Some((k - 1) as nat)
    } else {
        last_occurrence(s, sub, end, (k - 1) as nat)
    }
}

/// An `i64` argument clamped below at 0.
pub open spec fn non_negative(n: int) -> nat {
    if n < 0 {
        0
    } else {
        n as nat
    }
}

/// `indexOf`: the first occurrence of `sub` at or after `offset`, `-1` when
/// there is none; an empty `sub` is found at `offset` itself.
pub open spec fn index_of_spec(s: Seq<char>, sub: Seq<char>, offset: nat) -> int {
    if sub.len() == 0 {
        offset as int
    } else {
        match first_occurrence(s, sub, offset) {
            Some(p) => p as int,
            None => -1,
        }
    }
}

/// `lastIndexOf`: the last occurrence of `sub` that ends by `end`, `-1` when
/// there is none; an empty `sub` is found at `end`.
pub open spec fn last_index_of_spec(s: Seq<char>, sub: Seq<char>, end: nat) -> int {
    if sub.len() == 0 {
        end as int
    } else {
        match last_occurrence(s, sub, end, end) {
            Some(p) => p as int,
            None => -1,
        }
    }
}

/// `charAt`'s error text.
pub open spec fn char_at_error(idx: int, len: nat) -> Seq<char> {
    "index "@ + int_text(idx) + " out of range for string of length "@ + dec_digits(len)
}

/// `<string>.charAt(<int>)`: the character at `idx`, or an error when `idx`
/// is out of range.
pub fn char_at(s: &str, idx: i64) -> (r: Result<String, String>)
    ensures
        0 <= idx < s@.len() ==> (r matches Ok(c) && c@ == seq![s@[idx as int]]),
        !(0 <= idx < s@.len()) ==> (r matches Err(e) && e@ == char_at_error(idx as int, s@.len())),
{
    let chars = chars_of(s);
    if idx < 0 || idx as u64 >= chars.len() as u64 {
        let mut e = string_of("index ");
        push_signed_decimal(&mut e, idx as i128);
        push_str(&mut e, " out of range for string of length ");
        push_decimal(&mut e, chars.len() as u128);
        return Err(e);
    }
    let mut out = String::new();
    push_char(&mut out, chars[idx as usize]);
    proof {
        assert(out@ =~= seq![s@[idx as int]]);
    }
    Ok(out)
}

fn occurs_at_exec(v: &Vec<char>, sub: &Vec<char>, p: usize, end: usize) -> (r: bool)
    requires
        end <= v@.len(),
    ensures
        r == (p + sub@.len() <= end && occurs_at(v@, sub@, p as int)),
{
    if p > end || sub.len() > end - p {
        return false;
    }
    let mut k: usize = 0;
    while k < sub.len()
        invariant
            p + sub@.len() <= end <= v@.len(),
            k <= sub@.len(),
            forall|j: int| 0 <= j < k ==> v@[p + j] == sub@[j],
        decreases sub@.len() - k,
    {
        if v[p + k] != sub[k] {
            proof {
                assert(v@.subrange(p as int, p + sub@.len())[k as int] != sub@[k as int]);
            }
            return false;
        }
        k = k + 1;
    }
    proof {
        assert(v@.subrange(p as int, p + sub@.len()) =~= sub@);
    }
    true
}

/// `<string>.indexOf(<string>[, <int>])` (see [`index_of_spec`]); a negative
/// offset counts as 0.
pub fn string_index_of(s: &str, search: &str, offset: Option<i64>) -> (r: i64)
    requires
        s@.len() <= i64::MAX,
    ensures
        r as int == index_of_spec(
            s@,
            search@,
            match offset {
                Some(n) => non_negative(n as int),
                None => 0,
            },
        ),
{
    let start: u64 = match offset {
        Some(n) => if n < 0 {
            0
        } else {
            n as u64
        },
        None => 0,
    };
    let chars = chars_of(s);
    let sub = chars_of(search);
    if sub.len() == 0 {
        return start as i64;
    }
    if start >= chars.len() as u64 {
        proof {
            assert(start + sub@.len() > chars@.len());
        }
        return -1;
    }
    let mut i: usize = start as usize;
    while i < chars.len()
        invariant
            start <= i <= chars@.len(),
            chars@ == s@,
            sub@ == search@,
            sub@.len() > 0,
            first_occurrence(s@, search@, start as nat) == first_occurrence(s@, search@, i as nat),
            s@.len() <= i64::MAX,
            start as nat == match offset {
                Some(n) => non_negative(n as int),
                None => 0,
            },
        decreases chars@.len() - i,
    {
        if occurs_at_exec(&chars, &sub, i, chars.len()) {
            proof {
                assert(first_occurrence(s@, search@, i as nat) == Some(i as nat));
            }
            return i as i64;
        }
        proof {
            if i + sub@.len() > chars@.len() {
                assert(first_occurrence(s@, search@, i as nat) is None);
                assert(first_occurrence(s@, search@, (i + 1) as nat) is None) by {
                    lemma_first_occurrence_none(s@, search@, (i + 1) as nat);
                }
            }
        }
        i = i + 1;
    }
    -1
}

/// Past the end, nothing occurs.
proof fn lemma_first_occurrence_none(s: Seq<char>, sub: Seq<char>, from: nat)
    requires
        from + sub.len() > s.len(),
    ensures
        first_occurrence(s, sub, from) is None,
{
}

/// `<string>.lastIndexOf(<string>[, <int>])` (see [`last_index_of_spec`]);
/// the end is the given one clamped to `[0, len]`, else the length.
pub fn string_last_index_of(s: &str, search: &str, end_arg: Option<i64>) -> (r: i64)
    requires
        s@.len() <= i64::MAX,
    ensures
        r as int == last_index_of_spec(
            s@,
            search@,
            match end_arg {
                Some(n) => if non_negative(n as int) < s@.len() {
                    non_negative(n as int)
                } else {
                    s@.len()
                },
                None => s@.len(),
            },
        ),
{
    let chars = chars_of(s);
    let sub = chars_of(search);
    let end: usize = match end_arg {
        Some(n) => if n < 0 {
            0
        } else if (n as u64) < chars.len() as u64 {
            n as usize
        } else {
            chars.len()
        },
        None => chars.len(),
    };
    if sub.len() == 0 {
        return end as i64;
    }
    let mut k: usize = end;
    while k > 0
        invariant
            k <= end <= chars@.len(),
            chars@ == s@,
            sub@ == search@,
            last_occurrence(s@, search@, end as nat, end as nat) == last_occurrence(s@, search@, end as nat, k as nat),
            s@.len() <= i64::MAX,
            sub@.len() > 0,
            end as nat == match end_arg {
                Some(n) => if non_negative(n as int) < s@.len() {
                    non_negative(n as int)
                } else {
                    s@.len()
                },
                None => s@.len(),
            },
        decreases k,
    {
        if occurs_at_exec(&chars, &sub, k - 1, end) {
            proof {
                assert(last_occurrence(s@, search@, end as nat, k as nat) == Some((k - 1) as nat));
            }
            return (k - 1) as i64;
        }
        k = k - 1;
    }
    -1
}

/// ASCII lowercase of a character.
pub open spec fn lower_char(c: char) -> char {
    if 'A' <= c <= 'Z' {
        ((c as u32) + 32) as char
    } else {
        c
    }
}

/// ASCII uppercase of a character.
pub open spec fn upper_char(c: char) -> char {
    if 'a' <= c <= 'z' {
        ((c as u32) - 32) as char
    } else {
        c
    }
}

fn map_ascii(s: &str, upper: bool) -> (r: String)
    ensures
        r@ == s@.map_values(|c: char| if upper { upper_char(c) } else { lower_char(c) }),
{
    let chars = chars_of(s);
    let mut out: Vec<char> = Vec::new();
    let mut i: usize = 0;
    while i < chars.len()
        invariant
            i <= chars@.len(),
            chars@ == s@,
            out@ == s@.take(i as int).map_values(|c: char| if upper { upper_char(c) } else { lower_char(c) }),
        decreases chars@.len() - i,
    {
        let c = chars[i];
        let m: char = if upper {
            if 'a' <= c && c <= 'z' {
                ((c as u32) - 32) as u8 as char
            } else {
                c
            }
        } else {
            if 'A' <= c && c <= 'Z' {
                ((c as u32) + 32) as u8 as char
            } else {
                c
            }
        };
        proof {
            assert(m == (if upper { upper_char(c) } else { lower_char(c) }));
        }
        out.push(m);
        i = i + 1;
        proof {
            assert(out@ =~= s@.take(i as int).map_values(|c: char| if upper { upper_char(c) } else { lower_char(c) }));
        }
    }
    proof {
        assert(s@.take(s@.len() as int) =~= s@);
    }
    string_from_chars(&out)
}

/// `<string>.lowerAscii()`: ASCII letters lowered, other characters kept.
pub fn lower_ascii(s: &str) -> (r: String)
    ensures
        r@ == s@.map_values(|c: char| lower_char(c)),
{
    let r = map_ascii(s, false);
    proof {
        assert(r@ =~= s@.map_values(|c: char| lower_char(c)));
    }
    r
}

/// `<string>.upperAscii()`: ASCII letters raised, other characters kept.
pub fn upper_ascii(s: &str) -> (r: String)
    ensures
        r@ == s@.map_values(|c: char| upper_char(c)),
{
    let r = map_ascii(s, true);
    proof {
        assert(r@ =~= s@.map_values(|c: char| upper_char(c)));
    }
    r
}

/// `<string>.trim()`: leading and trailing Unicode whitespace removed.
pub fn trim(s: &str) -> (r: String)
    ensures
        r@ == trim_seq(s@),
{
    let chars = chars_of(s);
    let (a, b) = trim_bounds(&chars);
    string_from_range(&chars, a, b)
}

/// `<string>.reverse()`: the characters in reverse order.
pub fn string_reverse(s: &str) -> (r: String)
    ensures
        r@ == s@.reverse(),
{
    let chars = chars_of(s);
    let mut out: Vec<char> = Vec::new();
    let mut i: usize = chars.len();
    while i > 0
        invariant
            i <= chars@.len(),
            chars@ == s@,
            out@ == s@.skip(i as int).reverse(),
        decreases i,
    {
        i = i - 1;
        out.push(chars[i]);
        proof {
            assert(out@ =~= s@.skip(i as int).reverse());
        }
    }
    proof {
        assert(s@.skip(0) =~= s@);
    }
    string_from_chars(&out)
}

/// The escaped form of one character in a quoted string.
pub open spec fn quote_char(c: char) -> Seq<char> {
    if c == '\\' {
        seq!['\\', '\\']
    } else if c == '"' {
        seq!['\\', '"']
    } else if c == '\n' {
        seq!['\\', 'n']
    } else if c == '\r' {
        seq!['\\', 'r']
    } else if c == '\t' {
        seq!['\\', 't']
    } else {
        seq![c]
    }
}

/// The escaped characters of `s`.
pub open spec fn quoted_body(s: Seq<char>) -> Seq<char>
    decreases s.len(),
{
    if s.len() == 0 {
        Seq::empty()
    } else {
        quoted_body(s.drop_last()) + quote_char(s.last())
    }
}

/// The character an escape `\c` stands for.
pub open spec fn unescaped(c: char) -> char {
    if c == 'n' {
        '\n'
    } else if c == 'r' {
        '\r'
    } else if c == 't' {
        '\t'
    } else {
        c
    }
}

/// Reads an escaped text back, left to right: `\` and the next character
/// stand for one character (`\n`, `\r`, `\t` for the control characters,
/// otherwise the character itself); any other character stands for itself.
pub open spec fn unquote(b: Seq<char>) -> Seq<char>
    decreases b.len(),
{
    if b.len() == 0 {
        Seq::empty()
    } else if b[0] == '\\' && b.len() >= 2 {
        seq![unescaped(b[1])] + unquote(b.skip(2))
    } else {
        seq![b[0]] + unquote(b.skip(1))
    }
}

/// Read left to right, every `\` starts a pair, and no `"`, newline,
/// carriage return or tab stands alone: the text can sit between double
/// quotes as one string literal on one line.
pub open spec fn well_escaped(b: Seq<char>) -> bool
    decreases b.len(),
{
    if b.len() == 0 {
        true
    } else if b[0] == '\\' {
        b.len() >= 2 && well_escaped(b.skip(2))
    } else {
        b[0] != '"' && b[0] != '\n' && b[0] != '\r' && b[0] != '\t' && well_escaped(b.skip(1))
    }
}

proof fn lemma_quoted_body_concat(a: Seq<char>, b: Seq<char>)
    ensures
        quoted_body(a + b) == quoted_body(a) + quoted_body(b),
    decreases b.len(),
{
    if b.len() == 0 {
        assert(a + b =~= a);
        assert(quoted_body(a) + quoted_body(b) =~= quoted_body(a));
    } else {
        lemma_quoted_body_concat(a, b.drop_last());
        assert((a + b).drop_last() =~= a + b.drop_last());
        assert((a + b).last() == b.last());
        assert(quoted_body(a) + quoted_body(b) =~= quoted_body(a) + quoted_body(b.drop_last()) + quote_char(b.last()));
    }
}

proof fn lemma_unquote_one(c: char, rest: Seq<char>)
    ensures
        unquote(quote_char(c) + rest) == seq![c] + unquote(rest),
        well_escaped(quote_char(c) + rest) == well_escaped(rest),
{
    let b = quote_char(c) + rest;
    if quote_char(c).len() == 2 {
        assert(b[0] == '\\');
        assert(b[1] == quote_char(c)[1]);
        assert(b.skip(2) =~= rest);
    } else {
        assert(b[0] == c);
        assert(b.skip(1) =~= rest);
    }
}

/// Quoting can be undone: reading the body of `strings.quote(s)` back gives
/// `s`, and the body is a well-formed escaped text (each `"` of `s` appears
/// as `\"`, each `\` as `\\`), so it closes no string early.
pub proof fn law_quote_round_trips(s: Seq<char>)
    ensures
        unquote(quoted_body(s)) == s,
        well_escaped(quoted_body(s)),
    decreases s.len(),
{
    if s.len() == 0 {
        assert(unquote(quoted_body(s)) =~= s);
    } else {
        let rest = s.drop_first();
        law_quote_round_trips(rest);
        assert(s =~= seq![s[0]] + rest);
        lemma_quoted_body_concat(seq![s[0]], rest);
        assert(seq![s[0]].drop_last() =~= Seq::<char>::empty());
        assert(quoted_body(Seq::<char>::empty()) =~= Seq::<char>::empty());
        assert(quoted_body(seq![s[0]]) =~= quote_char(s[0]));
        lemma_unquote_one(s[0], quoted_body(rest));
        assert(unquote(quoted_body(s)) =~= s);
    }
}

/// `strings.quote(<string>)`: the string in double quotes, with backslash,
/// double quote, newline, carriage return and tab escaped.
pub fn strings_quote(s: &str) -> (r: String)
    ensures
        r@ == seq!['"'] + quoted_body(s@) + seq!['"'],
        r@.len() >= 2 && r@[0] == '"' && r@.last() == '"',
        unquote(r@.subrange(1, r@.len() - 1)) == s@,
        well_escaped(r@.subrange(1, r@.len() - 1)),
{
    proof {
        law_quote_round_trips(s@);
    }
    let chars = chars_of(s);
    let mut out = String::new();
    push_char(&mut out, '"');
    let mut i: usize = 0;
    while i < chars.len()
        invariant
            i <= chars@.len(),
            chars@ == s@,
            out@ == seq!['"'] + quoted_body(s@.take(i as int)),
        decreases chars@.len() - i,
    {
        let c = chars[i];
        if c == '\\' || c == '"' {
            push_char(&mut out, '\\');
            push_char(&mut out, c);
        } else if c == '\n' {
            push_char(&mut out, '\\');
            push_char(&mut out, 'n');
        } else if c == '\r' {
            push_char(&mut out, '\\');
            push_char(&mut out, 'r');
        } else if c == '\t' {
            push_char(&mut out, '\\');
            push_char(&mut out, 't');
        } else {
            push_char(&mut out, c);
        }
        proof {
            assert(s@.take(i + 1).drop_last() =~= s@.take(i as int));
            assert(s@.take(i + 1).last() == c);
        }
        i = i + 1;
        proof {
            assert(out@ =~= seq!['"'] + quoted_body(s@.take(i as int)));
        }
    }
    push_char(&mut out, '"');
    proof {
        assert(s@.take(s@.len() as int) =~= s@);
        assert(out@.subrange(1, out@.len() - 1) =~= quoted_body(s@));
    }
    out
}

/// `substring`'s error for a bad start.
pub open spec fn start_error(start: int, len: nat) -> Seq<char> {
    "start index "@ + int_text(start) + " out of range for string of length "@ + dec_digits(len)
}

/// `substring`'s error for a bad end.
pub open spec fn end_error(end: int) -> Seq<char> {
    "end index "@ + int_text(end) + " out of range"@
}

/// `<string>.substring(<int>[, <int>])`: the characters from `start` up to
/// `end` (the end of the string when absent); an error when `start` is
/// outside `[0, len]` or `end` outside `[start, len]`.
pub fn substring(s: &str, start: i64, end: Option<i64>) -> (r: Result<String, String>)
    ensures
        (start < 0 || start > s@.len()) ==> (r matches Err(e) && e@ == start_error(start as int, s@.len())),
        0 <= start <= s@.len() ==> match end {
            Some(n) => if n < start || n > s@.len() {
                r matches Err(e) && e@ == end_error(n as int)
            } else {
                r matches Ok(t) && t@ == s@.subrange(start as int, n as int)
            },
            None => r matches Ok(t) && t@ == s@.subrange(start as int, s@.len() as int),
        },
{
    let chars = chars_of(s);
    let len = chars.len();
    if start < 0 || start as u64 > len as u64 {
        let mut e = string_of("start index ");
        push_signed_decimal(&mut e, start as i128);
        push_str(&mut e, " out of range for string of length ");
        push_decimal(&mut e, len as u128);
        return Err(e);
    }
    let stop: usize = match end {
        Some(n) => {
            if n < start || n as u64 > len as u64 {
                let mut e = string_of("end index ");
                push_signed_decimal(&mut e, n as i128);
                push_str(&mut e, " out of range");
                return Err(e);
            }
            n as usize
        },
        None => len,
    };
    Ok(string_from_range(&chars, start as usize, stop))
}

/// `a` and `b` joined by `sep` when both are present.
pub open spec fn join_spec(parts: Seq<Seq<char>>, sep: Seq<char>) -> Seq<char>
    decreases parts.len(),
{
    if parts.len() == 0 {
        Seq::empty()
    } else if parts.len() == 1 {
        parts[0]
    } else {
        join_spec(parts.drop_last(), sep) + sep + parts.last()
    }
}

/// The text of each part.
pub open spec fn part_texts(parts: Seq<String>) -> Seq<Seq<char>> {
    parts.map_values(|p: String| p@)
}

/// `<list<string>>.join([<string>])`: the parts with `sep` between them.
pub fn join(parts: &Vec<String>, sep: &str) -> (r: String)
    ensures
        r@ == join_spec(part_texts(parts@), sep@),
{
    let mut out = String::new();
    let mut i: usize = 0;
    while i < parts.len()
        invariant
            i <= parts@.len(),
            out@ == join_spec(part_texts(parts@.take(i as int)), sep@),
        decreases parts@.len() - i,
    {
        if i > 0 {
            push_str(&mut out, sep);
        }
        push_str(&mut out, parts[i].as_str());
        proof {
            let t = part_texts(parts@.take(i + 1));
            assert(t.drop_last() =~= part_texts(parts@.take(i as int)));
            assert(t.last() == parts@[i as int]@);
            if i == 0 {
                assert(part_texts(parts@.take(0)) =~= Seq::<Seq<char>>::empty());
            }
        }
        i = i + 1;
    }
    proof {
        assert(parts@.take(parts@.len() as int) =~= parts@);
    }
    out
}

/// One fewer remaining replacement (none left stays none left).
pub open spec fn dec_limit(limit: Option<nat>) -> Option<nat> {
    match limit {
        Some(n) => Some((n - 1) as nat),
        None => None,
    }
}

/// `s` with its leftmost non-overlapping occurrences of a non-empty `from`
/// replaced by `to`, at most `limit` of them (all when `None`).
pub open spec fn replace_nonempty(s: Seq<char>, from: Seq<char>, to: Seq<char>, limit: Option<nat>) -> Seq<char>
    decreases s.len(),
{
    if limit == Some(0nat) || from.len() == 0 {
        s
    } else if s.len() >= from.len() && s.take(from.len() as int) == from {
        to + replace_nonempty(s.skip(from.len() as int), from, to, dec_limit(limit))
    } else if s.len() == 0 {
        s
    } else {
        seq![s[0]] + replace_nonempty(s.skip(1), from, to, limit)
    }
}

/// `s` with `to` inserted at each character boundary (an empty pattern
/// matches before every character and at the end), at most `limit` times.
pub open spec fn replace_empty(s: Seq<char>, to: Seq<char>, limit: Option<nat>) -> Seq<char>
    decreases s.len(),
{
    if limit == Some(0nat) {
        s
    } else if s.len() == 0 {
        to
    } else {
        to + seq![s[0]] + replace_empty(s.skip(1), to, dec_limit(limit))
    }
}

/// What `str::replace` (no limit) and `str::replacen` give.
pub open spec fn replace_spec(s: Seq<char>, from: Seq<char>, to: Seq<char>, limit: Option<nat>) -> Seq<char> {
    if from.len() == 0 {
        replace_empty(s, to, limit)
    } else {
        replace_nonempty(s, from, to, limit)
    }
}

fn starts_at(v: &Vec<char>, i: usize, pat: &Vec<char>) -> (r: bool)
    requires
        i <= v@.len(),
    ensures
        r == (v@.skip(i as int).len() >= pat@.len() && v@.skip(i as int).take(pat@.len() as int) == pat@),
{
    let r = occurs_at_exec(v, pat, i, v.len());
    proof {
        let t = v@.skip(i as int);
        if r {
            assert(t.take(pat@.len() as int) =~= v@.subrange(i as int, i + pat@.len()));
        } else if t.len() >= pat@.len() {
            assert(t.take(pat@.len() as int) =~= v@.subrange(i as int, i + pat@.len()));
        }
    }
    r
}

/// `<string>.replace(<from>, <to>[, <int>])`: `str::replace`, or
/// `str::replacen` with the count clamped at 0 when one is given.
pub fn string_replace(s: &str, from: &str, to: &str, count: Option<i64>) -> (r: String)
    ensures
        r@ == replace_spec(
            s@,
            from@,
            to@,
            match count {
                Some(n) => Some(non_negative(n as int)),
                None => None,
            },
        ),
{
    let v = chars_of(s);
    let pat = chars_of(from);
    let mut remaining: Option<u64> = match count {
        Some(n) => Some(
            if n < 0 {
                0
            } else {
                n as u64
            },
        ),
        None => None,
    };
    let ghost lim0: Option<nat> = match count {
        Some(n) => Some(non_negative(n as int)),
        None => None,
    };
    let mut out = String::new();
    let mut i: usize = 0;
    proof {
        assert(v@.skip(0) =~= v@);
        assert((match remaining {
            Some(n) => Some(n as nat),
            None => None,
        }) == lim0);
        assert(out@ + replace_empty(v@, to@, lim0) =~= replace_empty(v@, to@, lim0));
        assert(out@ + replace_nonempty(v@, from@, to@, lim0) =~= replace_nonempty(v@, from@, to@, lim0));
    }
    if pat.len() == 0 {
        while i < v.len() && remaining != Some(0u64)
            invariant
                i <= v@.len(),
                v@ == s@,
                out@ + replace_empty(v@.skip(i as int), to@, match remaining {
                    Some(n) => Some(n as nat),
                    None => None,
                }) == replace_empty(s@, to@, lim0),
            decreases v@.len() - i,
        {
            proof {
                assert(v@.skip(i as int).skip(1) =~= v@.skip(i + 1));
                assert(v@.skip(i as int)[0] == v@[i as int]);
            }
            push_str(&mut out, to);
            push_char(&mut out, v[i]);
            remaining = match remaining {
                Some(n) => Some(n - 1),
                None => None,
            };
            i = i + 1;
        }
        if remaining != Some(0u64) {
            push_str(&mut out, to);
        }
        let rest = string_from_range(&v, i, v.len());
        push_str(&mut out, rest.as_str());
        proof {
            assert(v@.subrange(i as int, v@.len() as int) =~= v@.skip(i as int));
            if remaining != Some(0u64) {
                assert(v@.skip(i as int).len() == 0);
                assert(v@.skip(i as int) =~= Seq::<char>::empty());
            }
            assert(out@ =~= replace_empty(s@, to@, lim0));
        }
        return out;
    }
    while i < v.len() && remaining != Some(0u64)
        invariant
            i <= v@.len(),
            v@ == s@,
            pat@ == from@,
            pat@.len() > 0,
            out@ + replace_nonempty(v@.skip(i as int), from@, to@, match remaining {
                Some(n) => Some(n as nat),
                None => None,
            }) == replace_nonempty(s@, from@, to@, lim0),
        decreases v@.len() - i,
    {
        if starts_at(&v, i, &pat) {
            proof {
                assert(v@.skip(i as int).skip(pat@.len() as int) =~= v@.skip(i + pat@.len()));
            }
            push_str(&mut out, to);
            remaining = match remaining {
                Some(n) => Some(n - 1),
                None => None,
            };
            i = i + pat.len();
        } else {
            proof {
                assert(v@.skip(i as int).skip(1) =~= v@.skip(i + 1));
                assert(v@.skip(i as int)[0] == v@[i as int]);
            }
            push_char(&mut out, v[i]);
            i = i + 1;
        }
    }
    let rest = string_from_range(&v, i, v.len());
    push_str(&mut out, rest.as_str());
    proof {
        assert(v@.subrange(i as int, v@.len() as int) =~= v@.skip(i as int));
        if remaining != Some(0u64) {
            assert(v@.skip(i as int) =~= Seq::<char>::empty());
        }
        assert(out@ =~= replace_nonempty(s@, from@, to@, lim0));
    }
    out
}

/// What `first_occurrence` finds occurs there, at or after `from`.
pub proof fn lemma_first_occurrence(s: Seq<char>, sub: Seq<char>, from: nat)
    ensures
        first_occurrence(s, sub, from) matches Some(p) ==> from <= p && occurs_at(s, sub, p as int),
    decreases s.len() + 1 - from,
{
    if from + sub.len() <= s.len() && !occurs_at(s, sub, from as int) {
        lemma_first_occurrence(s, sub, from + 1);
    }
}

/// The pieces of `s` from position `i` on, split at the leftmost
/// non-overlapping occurrences of a non-empty `sep`, at most `limit` pieces
/// (the last one holding the rest).
pub open spec fn split_from(s: Seq<char>, sep: Seq<char>, i: nat, limit: Option<nat>) -> Seq<Seq<char>>
    decreases s.len() + 1 - i,
{
    if (limit matches Some(k) && k <= 1) || sep.len() == 0 || i > s.len() {
        seq![s.skip(i as int)]
    } else {
        match first_occurrence(s, sep, i) {
            None => seq![s.skip(i as int)],
            Some(p) => {
                proof {
                    lemma_first_occurrence(s, sep, i);
                }
                seq![s.subrange(i as int, p as int)] + split_from(s, sep, p + sep.len(), dec_limit(limit))
            },
        }
    }
}

/// The pieces of `s` from position `p` on when the separator is empty:
/// one character each, the last holding the rest.
pub open spec fn split_chars_from(s: Seq<char>, p: nat, limit: Option<nat>) -> Seq<Seq<char>>
    decreases s.len() + 1 - p,
{
    if (limit matches Some(k) && k <= 1) || p >= s.len() {
        seq![s.skip(p as int)]
    } else {
        seq![s.subrange(p as int, p + 1 as int)] + split_chars_from(s, p + 1, dec_limit(limit))
    }
}

/// What `str::split` (no limit) and `str::splitn` give: with an empty
/// separator, an empty first piece and then one piece per character, the
/// last piece being empty (or the rest, when the limit is reached).
pub open spec fn split_spec(s: Seq<char>, sep: Seq<char>, limit: Option<nat>) -> Seq<Seq<char>> {
    if sep.len() == 0 {
        if limit matches Some(k) && k <= 1 {
            seq![s]
        } else {
            seq![Seq::empty()] + split_chars_from(s, 0, dec_limit(limit))
        }
    } else {
        split_from(s, sep, 0, limit)
    }
}

fn find_from(v: &Vec<char>, pat: &Vec<char>, from: usize) -> (r: Option<usize>)
    requires
        from <= v@.len(),
        pat@.len() > 0,
    ensures
        match r {
            Some(p) => first_occurrence(v@, pat@, from as nat) == Some(p as nat),
            None => first_occurrence(v@, pat@, from as nat) is None,
        },
{
    let mut i: usize = from;
    while i < v.len()
        invariant
            from <= i <= v@.len(),
            first_occurrence(v@, pat@, from as nat) == first_occurrence(v@, pat@, i as nat),
        decreases v@.len() - i,
    {
        if occurs_at_exec(v, pat, i, v.len()) {
            return Some(i);
        }
        proof {
            if i + pat@.len() > v@.len() {
                lemma_first_occurrence_none(v@, pat@, (i + 1) as nat);
            }
        }
        i = i + 1;
    }
    None
}

/// The text of each piece.
pub open spec fn piece_texts(v: Seq<String>) -> Seq<Seq<char>> {
    v.map_values(|p: String| p@)
}

/// A count as a number.
pub open spec fn opt_u64(r: Option<u64>) -> Option<nat> {
    match r {
        Some(n) => Some(n as nat),
        None => None,
    }
}

fn push_piece(out: &mut Vec<String>, v: &Vec<char>, a: usize, b: usize)
    requires
        a <= b <= v@.len(),
    ensures
        piece_texts(final(out)@) == piece_texts(old(out)@).push(v@.subrange(a as int, b as int)),
{
    let ghost before = out@;
    out.push(string_from_range(v, a, b));
    proof {
        assert(piece_texts(out@) =~= piece_texts(before).push(v@.subrange(a as int, b as int)));
    }
}

fn split_chars(v: &Vec<char>, limit: Option<u64>) -> (r: Vec<String>)
    ensures
        piece_texts(r@) == split_spec(v@, Seq::empty(), opt_u64(limit)),
{
    let mut out: Vec<String> = Vec::new();
    let at_most_one = match limit {
        Some(k) => k <= 1,
        None => false,
    };
    if at_most_one {
        push_piece(&mut out, v, 0, v.len());
        proof {
            assert(v@.subrange(0, v@.len() as int) =~= v@);
        }
        return out;
    }
    push_piece(&mut out, v, 0, 0);
    let mut remaining: Option<u64> = match limit {
        Some(k) => Some(k - 1),
        None => None,
    };
    proof {
        assert(opt_u64(remaining) == dec_limit(opt_u64(limit)));
        assert(v@.subrange(0, 0) =~= Seq::<char>::empty());
        assert(piece_texts(out@) =~= seq![Seq::<char>::empty()]);
    }
    let mut p: usize = 0;
    loop
        invariant
            p <= v@.len(),
            piece_texts(out@) + split_chars_from(v@, p as nat, opt_u64(remaining)) == split_spec(v@, Seq::empty(), opt_u64(limit)),
        decreases v@.len() - p,
    {
        let done = match remaining {
            Some(k) => k <= 1,
            None => false,
        };
        if done || p >= v.len() {
            push_piece(&mut out, v, p, v.len());
            proof {
                assert(v@.subrange(p as int, v@.len() as int) =~= v@.skip(p as int));
                assert(piece_texts(out@) =~= split_spec(v@, Seq::empty(), opt_u64(limit)));
            }
            return out;
        }
        let ghost old_remaining = remaining;
        push_piece(&mut out, v, p, p + 1);
        remaining = match remaining {
            Some(k) => Some(k - 1),
            None => None,
        };
        proof {
            assert(opt_u64(remaining) == dec_limit(opt_u64(old_remaining)));
            assert(split_chars_from(v@, p as nat, opt_u64(old_remaining)) == seq![v@.subrange(p as int, p + 1 as int)]
                + split_chars_from(v@, (p + 1) as nat, opt_u64(remaining)));
        }
        p = p + 1;
    }
}

fn split_on(v: &Vec<char>, pat: &Vec<char>, limit: Option<u64>) -> (r: Vec<String>)
    requires
        pat@.len() > 0,
    ensures
        piece_texts(r@) == split_spec(v@, pat@, opt_u64(limit)),
{
    let mut out: Vec<String> = Vec::new();
    let mut remaining = limit;
    let mut i: usize = 0;
    proof {
        assert(piece_texts(out@) + split_from(v@, pat@, 0, opt_u64(limit)) =~= split_spec(v@, pat@, opt_u64(limit)));
    }
    loop
        invariant
            i <= v@.len(),
            pat@.len() > 0,
            piece_texts(out@) + split_from(v@, pat@, i as nat, opt_u64(remaining)) == split_spec(v@, pat@, opt_u64(limit)),
        decreases v@.len() - i,
    {
        let done = match remaining {
            Some(k) => k <= 1,
            None => false,
        };
        if done {
            push_piece(&mut out, v, i, v.len());
            proof {
                assert(v@.subrange(i as int, v@.len() as int) =~= v@.skip(i as int));
                assert(piece_texts(out@) =~= split_spec(v@, pat@, opt_u64(limit)));
            }
            return out;
        }
        match find_from(v, pat, i) {
            None => {
                push_piece(&mut out, v, i, v.len());
                proof {
                    assert(v@.subrange(i as int, v@.len() as int) =~= v@.skip(i as int));
                    assert(piece_texts(out@) =~= split_spec(v@, pat@, opt_u64(limit)));
                }
                return out;
            },
            Some(p) => {
                proof {
                    lemma_first_occurrence(v@, pat@, i as nat);
                    assert(occurs_at(v@, pat@, p as int));
                    assert(p + pat@.len() <= v@.len());
                }
                let ghost old_remaining = remaining;
                push_piece(&mut out, v, i, p);
                remaining = match remaining {
                    Some(k) => Some(k - 1),
                    None => None,
                };
                proof {
                    assert(opt_u64(remaining) == dec_limit(opt_u64(old_remaining)));
                    assert(split_from(v@, pat@, i as nat, opt_u64(old_remaining)) == seq![v@.subrange(i as int, p as int)]
                        + split_from(v@, pat@, (p + pat@.len()) as nat, opt_u64(remaining)));
                }
                let vl = v.len();
                proof {
                    assert(p + pat@.len() <= vl);
                }
                i = p + pat.len();
            },
        }
    }
}

/// `<string>.split(<sep>[, <int>])`: `str::split`, or `str::splitn` with the
/// count clamped at 1 when one is given.
pub fn string_split(s: &str, sep: &str, count: Option<i64>) -> (r: Vec<String>)
    ensures
        piece_texts(r@) == split_spec(
            s@,
            sep@,
            match count {
                Some(n) => Some(if n < 1 {
                    1nat
                } else {
                    n as nat
                }),
                None => None,
            },
        ),
{
    let v = chars_of(s);
    let pat = chars_of(sep);
    let limit: Option<u64> = match count {
        Some(n) => Some(
            if n < 1 {
                1
            } else {
                n as u64
            },
        ),
        None => None,
    };
    if pat.len() == 0 {
        proof {
            assert(pat@ =~= Seq::<char>::empty());
        }
        split_chars(&v, limit)
    } else {
        split_on(&v, &pat, limit)
    }
}

} // verus!
