//! The printf-style `format()` string function.
//!
//! The format string is read here verb by verb and every argument is
//! rendered here, except a floating-point rendering (`%f`, `%e`), which is
//! left as a placeholder for the caller: the result is a list of pieces.
use vstd::prelude::*;
use crate::text::{
    chars_of, dec_digits, digit_char, int_text, is_decimal_text, law_int_text_reads_back, push_char,
    push_decimal, push_signed_decimal, push_str, signed_decimal_value, string_of,
};

verus! {

/// The type of a CEL value, as its debug form names it.
#[derive(Clone, Copy, Debug, PartialEq, Eq, Structural)]
pub enum ArgKind {
    List,
    Dict,
    Function,
    Int,
    UInt,
    Float,
    String,
    Bytes,
    Bool,
    Duration,
    Timestamp,
    Opaque,
    Null,
}

/// The debug name of a value type.
pub open spec fn kind_text(k: ArgKind) -> Seq<char> {
    match k {
        ArgKind::List => "List"@,
        ArgKind::Dict => "Map"@,
        ArgKind::Function => "Function"@,
        ArgKind::Int => "Int"@,
        ArgKind::UInt => "UInt"@,
        ArgKind::Float => "Float"@,
        ArgKind::String => "String"@,
        ArgKind::Bytes => "Bytes"@,
        ArgKind::Bool => "Bool"@,
        ArgKind::Duration => "Duration"@,
        ArgKind::Timestamp => "Timestamp"@,
        ArgKind::Opaque => "Opaque"@,
        ArgKind::Null => "Null"@,
    }
}

fn kind_name(k: ArgKind) -> (r: &'static str)
    ensures
        r@ == kind_text(k),
{
    match k {
        ArgKind::List => "List",
        ArgKind::Dict => "Map",
        ArgKind::Function => "Function",
        ArgKind::Int => "Int",
        ArgKind::UInt => "UInt",
        ArgKind::Float => "Float",
        ArgKind::String => "String",
        ArgKind::Bytes => "Bytes",
        ArgKind::Bool => "Bool",
        ArgKind::Duration => "Duration",
        ArgKind::Timestamp => "Timestamp",
        ArgKind::Opaque => "Opaque",
        ArgKind::Null => "Null",
    }
}

/// A map key of a formatted value.
#[derive(Debug)]
pub enum FmtKey {
    Int(i64),
    Uint(u64),
    Bool(bool),
    Str(String),
}

/// What formatting reads of an argument.
#[derive(Debug)]
pub enum FmtValue {
    Str(String),
    Int(i64),
    UInt(u64),
    Bool(bool),
    Null,
    /// Bytes, with the value's debug text (what `%s` prints for them).
    Bytes(Vec<u8>, String),
    List(Vec<FmtValue>),
    Dict(Vec<(FmtKey, FmtValue)>),
    /// A float, with the text `%s` prints for it.
    Float(String),
    /// Any other value: its type and its debug text.
    Other(ArgKind, String),
}

/// The type of an argument.
pub open spec fn arg_kind(v: FmtValue) -> ArgKind {
    match v {
        FmtValue::Str(_) => ArgKind::String,
        FmtValue::Int(_) => ArgKind::Int,
        FmtValue::UInt(_) => ArgKind::UInt,
        FmtValue::Bool(_) => ArgKind::Bool,
        FmtValue::Null => ArgKind::Null,
        FmtValue::Bytes(..) => ArgKind::Bytes,
        FmtValue::List(_) => ArgKind::List,
        FmtValue::Dict(_) => ArgKind::Dict,
        FmtValue::Float(_) => ArgKind::Float,
        FmtValue::Other(k, _) => k,
    }
}

/// `true` or `false`.
pub open spec fn bool_text(b: bool) -> Seq<char> {
    if b {
        "true"@
    } else {
        "false"@
    }
}

/// How `%s` prints a map key.
pub open spec fn key_text(k: FmtKey) -> Seq<char> {
    match k {
        FmtKey::Str(s) => seq!['"'] + s@ + seq!['"'],
        FmtKey::Int(n) => int_text(n as int),
        FmtKey::Uint(n) => dec_digits(n as nat),
        FmtKey::Bool(b) => bool_text(b),
    }
}

/// How `%s` prints a value.
pub open spec fn s_text(v: FmtValue) -> Seq<char>
    decreases v, 1nat, 0nat,
{
    match v {
        FmtValue::Str(s) => s@,
        FmtValue::Int(n) => int_text(n as int),
        FmtValue::UInt(n) => dec_digits(n as nat),
        FmtValue::Float(t) => t@,
        FmtValue::Bool(b) => bool_text(b),
        FmtValue::Null => "null"@,
        FmtValue::List(items) => seq!['['] + list_text(v, items@.len()) + seq![']'],
        FmtValue::Dict(entries) => seq!['{'] + map_text(v, entries@.len()) + seq!['}'],
        FmtValue::Bytes(_, d) => d@,
        FmtValue::Other(_, d) => d@,
    }
}

/// How `%s` prints a value nested in a list or map: strings quoted.
pub open spec fn quoted_text(v: FmtValue) -> Seq<char>
    decreases v, 1nat, 1nat,
{
    match v {
        FmtValue::Str(s) => seq!['"'] + s@ + seq!['"'],
        _ => s_text(v),
    }
}

/// The first `n` items of a list value, separated by `, `.
pub open spec fn list_text(v: FmtValue, n: nat) -> Seq<char>
    decreases v, 0nat, n,
{
    match v {
        FmtValue::List(items) => if n == 0 || n > items@.len() {
            Seq::empty()
        } else if n == 1 {
            quoted_text(items@[0])
        } else {
            list_text(v, (n - 1) as nat) + ", "@ + quoted_text(items@[n - 1])
        },
        _ => Seq::empty(),
    }
}

/// The first `n` entries of a map value, `key: value`, separated by `, `.
pub open spec fn map_text(v: FmtValue, n: nat) -> Seq<char>
    decreases v, 0nat, n,
{
    match v {
        FmtValue::Dict(entries) => if n == 0 || n > entries@.len() {
            Seq::empty()
        } else if n == 1 {
            key_text(entries@[0].0) + ": "@ + quoted_text(entries@[0].1)
        } else {
            map_text(v, (n - 1) as nat) + ", "@ + key_text(entries@[n - 1].0) + ": "@ + quoted_text(entries@[n - 1].1)
        },
        _ => Seq::empty(),
    }
}

/// The digit character for `d` in bases up to 16.
pub open spec fn radix_char(d: nat, upper: bool) -> char {
    if d < 10 {
        digit_char(d as int)
    } else if upper {
        (('A' as u32) + (d - 10)) as char
    } else {
        (('a' as u32) + (d - 10)) as char
    }
}

/// The digits of `n` in base `base` (2 to 16), most significant first.
pub open spec fn radix_digits(n: nat, base: nat, upper: bool) -> Seq<char>
    decreases n,
{
    if base < 2 || n < base {
        seq![radix_char(n, upper)]
    } else {
        proof {
            assert(n / base < n) by (nonlinear_arith)
                requires
                    base >= 2,
                    n >= base,
            ;
        }
        radix_digits(n / base, base, upper).push(radix_char(n % base, upper))
    }
}

/// The bits of an `i64` as Rust's radix formatting prints a negative one
/// (two's complement).
pub open spec fn twos(n: int) -> nat {
    if n < 0 {
        (n + 0x1_0000_0000_0000_0000) as nat
    } else {
        n as nat
    }
}

fn radix_char_exec(d: u64, upper: bool) -> (c: char)
    requires
        d < 16,
    ensures
        c == radix_char(d as nat, upper),
{
    if d < 10 {
        crate::text::digit_to_char(d as u8)
    } else if upper {
        (65 + (d - 10)) as u8 as char
    } else {
        (97 + (d - 10)) as u8 as char
    }
}

/// Appends the digits of `n` in base `base`.
pub fn push_radix(out: &mut String, n: u64, base: u64, upper: bool)
    requires
        2 <= base <= 16,
    ensures
        final(out)@ == old(out)@ + radix_digits(n as nat, base as nat, upper),
{
    let mut rev: Vec<char> = Vec::new();
    let ghost mut acc: Seq<char> = Seq::empty();
    let mut m: u64 = n;
    loop
        invariant_except_break
            radix_digits(n as nat, base as nat, upper) == radix_digits(m as nat, base as nat, upper) + acc,
        invariant
            2 <= base <= 16,
            rev@ == acc.reverse(),
        ensures
            radix_digits(n as nat, base as nat, upper) == acc,
        decreases m,
    {
        if m < base {
            let c = radix_char_exec(m, upper);
            rev.push(c);
            proof {
                let old_acc = acc;
                acc = seq![c] + old_acc;
                assert(acc.reverse() =~= old_acc.reverse().push(c));
            }
            break;
        }
        let c = radix_char_exec(m % base, upper);
        rev.push(c);
        proof {
            let old_acc = acc;
            acc = seq![c] + old_acc;
            assert(radix_digits(m as nat, base as nat, upper) == radix_digits((m / base) as nat, base as nat, upper).push(c));
            assert(radix_digits((m / base) as nat, base as nat, upper).push(c) + old_acc =~= radix_digits(
                (m / base) as nat,
                base as nat,
                upper,
            ) + acc);
            assert(acc.reverse() =~= old_acc.reverse().push(c));
        }
        m = m / base;
    }
    let ghost start = out@;
    let mut j: usize = rev.len();
    while j > 0
        invariant
            j <= rev@.len(),
            rev@ == acc.reverse(),
            out@ == start + acc.subrange(0, (acc.len() - j) as int),
        decreases j,
    {
        j = j - 1;
        push_char(out, rev[j]);
        proof {
            assert(rev@[j as int] == acc[acc.len() - 1 - j]);
            assert(acc.subrange(0, (acc.len() - j) as int) =~= acc.subrange(0, (acc.len() - j - 1) as int).push(
                acc[acc.len() - 1 - j],
            ));
        }
    }
    proof {
        assert(acc.subrange(0, acc.len() as int) =~= acc);
    }
}

/// Two hex digits per byte (`{:02x}` / `{:02X}`).
pub open spec fn hex_bytes(b: Seq<u8>, upper: bool) -> Seq<char>
    decreases b.len(),
{
    if b.len() == 0 {
        Seq::empty()
    } else {
        hex_bytes(b.drop_last(), upper) + seq![radix_char((b.last() / 16) as nat, upper), radix_char((b.last() % 16) as nat, upper)]
    }
}

/// Appends two hex digits per byte of `b`.
pub fn push_hex_bytes(out: &mut String, b: &[u8], upper: bool)
    ensures
        final(out)@ == old(out)@ + hex_bytes(b@, upper),
{
    let ghost start = out@;
    let mut i: usize = 0;
    while i < b.len()
        invariant
            i <= b@.len(),
            out@ == start + hex_bytes(b@.take(i as int), upper),
        decreases b@.len() - i,
    {
        let x = b[i];
        push_char(out, radix_char_exec((x / 16) as u64, upper));
        push_char(out, radix_char_exec((x % 16) as u64, upper));
        proof {
            assert(b@.take(i + 1).drop_last() =~= b@.take(i as int));
            assert(b@.take(i + 1).last() == x);
        }
        i = i + 1;
        proof {
            assert(out@ =~= start + hex_bytes(b@.take(i as int), upper));
        }
    }
    proof {
        assert(b@.take(b@.len() as int) =~= b@);
    }
}

fn push_bool(out: &mut String, b: bool)
    ensures
        final(out)@ == old(out)@ + bool_text(b),
{
    if b {
        push_str(out, "true");
    } else {
        push_str(out, "false");
    }
}

fn push_key(out: &mut String, k: &FmtKey)
    ensures
        final(out)@ == old(out)@ + key_text(*k),
{
    match k {
        FmtKey::Str(s) => {
            push_char(out, '"');
            push_str(out, s.as_str());
            push_char(out, '"');
        },
        FmtKey::Int(n) => push_signed_decimal(out, *n as i128),
        FmtKey::Uint(n) => push_decimal(out, *n as u128),
        FmtKey::Bool(b) => push_bool(out, *b),
    }
}

/// Appends how `%s` prints `v` (see [`s_text`]).
pub fn format_s(v: &FmtValue, out: &mut String)
    ensures
        final(out)@ == old(out)@ + s_text(*v),
    decreases *v, 1nat, 0nat,
{
    let ghost start = out@;
    match v {
        FmtValue::Str(s) => push_str(out, s.as_str()),
        FmtValue::Int(n) => push_signed_decimal(out, *n as i128),
        FmtValue::UInt(n) => push_decimal(out, *n as u128),
        FmtValue::Float(t) => push_str(out, t.as_str()),
        FmtValue::Bool(b) => push_bool(out, *b),
        FmtValue::Null => push_str(out, "null"),
        FmtValue::List(items) => {
            push_char(out, '[');
            let mut i: usize = 0;
            while i < items.len()
                invariant
                    i <= items@.len(),
                    *v == FmtValue::List(*items),
                    out@ == start + seq!['['] + list_text(*v, i as nat),
                decreases items@.len() - i,
            {
                if i > 0 {
                    push_str(out, ", ");
                }
                proof {
                    assert(decreases_to!(*v => v->List_0));
                    assert(decreases_to!(v->List_0 => items[i as int]));
                }
                format_s_quoted(&items[i], out);
                i = i + 1;
                proof {
                    assert(out@ =~= start + seq!['['] + list_text(*v, i as nat));
                }
            }
            push_char(out, ']');
        },
        FmtValue::Dict(entries) => {
            push_char(out, '{');
            let mut i: usize = 0;
            while i < entries.len()
                invariant
                    i <= entries@.len(),
                    *v == FmtValue::Dict(*entries),
                    out@ == start + seq!['{'] + map_text(*v, i as nat),
                decreases entries@.len() - i,
            {
                if i > 0 {
                    push_str(out, ", ");
                }
                push_key(out, &entries[i].0);
                push_str(out, ": ");
                proof {
                    assert(decreases_to!(*v => v->Dict_0));
                    assert(decreases_to!(v->Dict_0 => entries[i as int]));
                    assert(decreases_to!(entries[i as int] => entries[i as int].1));
                }
                format_s_quoted(&entries[i].1, out);
                i = i + 1;
                proof {
                    assert(out@ =~= start + seq!['{'] + map_text(*v, i as nat));
                }
            }
            push_char(out, '}');
        },
        FmtValue::Bytes(_, d) => push_str(out, d.as_str()),
        FmtValue::Other(_, d) => push_str(out, d.as_str()),
    }
    proof {
        assert(out@ =~= start + s_text(*v));
    }
}

/// Appends how `%s` prints `v` nested in a list or map (see [`quoted_text`]).
pub fn format_s_quoted(v: &FmtValue, out: &mut String)
    ensures
        final(out)@ == old(out)@ + quoted_text(*v),
    decreases *v, 1nat, 1nat,
{
    match v {
        FmtValue::Str(s) => {
            push_char(out, '"');
            push_str(out, s.as_str());
            push_char(out, '"');
        },
        _ => format_s(v, out),
    }
}

// ---------------------------------------------------------------------------
// Reading the format string
// ---------------------------------------------------------------------------

/// A piece of the formatted result.
#[derive(Debug)]
pub enum Piece {
    /// Finished text.
    Text(String),
    /// Argument `arg` printed as a float: `%e` when `exponent`, else `%f`,
    /// with `precision` decimals.
    Float { arg: usize, exponent: bool, precision: usize },
}

/// The content of a piece.
pub enum PieceV {
    Text(Seq<char>),
    Float(nat, bool, nat),
}

/// The content of a piece.
pub open spec fn piece_view(p: Piece) -> PieceV {
    match p {
        Piece::Text(t) => PieceV::Text(t@),
        Piece::Float { arg, exponent, precision } => PieceV::Float(arg as nat, exponent, precision as nat),
    }
}

/// The content of a list of pieces.
pub open spec fn pieces_view(v: Seq<Piece>) -> Seq<PieceV> {
    v.map_values(|p: Piece| piece_view(p))
}

/// The type error of a verb.
pub open spec fn type_error(requirement: Seq<char>, arg: FmtValue) -> Seq<char> {
    requirement + ", got "@ + kind_text(arg_kind(arg))
}

/// How verb `verb` (with optional precision) renders argument number `k`.
pub open spec fn render(verb: char, precision: Option<nat>, k: nat, arg: FmtValue) -> Result<PieceV, Seq<char>> {
    if verb == 's' {
        Ok(PieceV::Text(s_text(arg)))
    } else if verb == 'd' {
        match arg {
            FmtValue::Int(n) => Ok(PieceV::Text(int_text(n as int))),
            FmtValue::UInt(n) => Ok(PieceV::Text(dec_digits(n as nat))),
            _ => Err(type_error("%d requires int or uint"@, arg)),
        }
    } else if verb == 'f' || verb == 'e' {
        match arg {
            FmtValue::Float(_) | FmtValue::Int(_) | FmtValue::UInt(_) => Ok(PieceV::Float(k, verb == 'e', match precision {
                Some(p) => p,
                None => 6,
            })),
            _ => Err(type_error(seq!['%', verb] + " requires float, int, or uint"@, arg)),
        }
    } else if verb == 'b' {
        match arg {
            FmtValue::Int(n) => Ok(PieceV::Text(radix_digits(twos(n as int), 2, false))),
            FmtValue::UInt(n) => Ok(PieceV::Text(radix_digits(n as nat, 2, false))),
            FmtValue::Bool(b) => Ok(PieceV::Text(if b { seq!['1'] } else { seq!['0'] })),
            _ => Err(type_error("%b requires int, uint, or bool"@, arg)),
        }
    } else if verb == 'o' {
        match arg {
            FmtValue::Int(n) => Ok(PieceV::Text(radix_digits(twos(n as int), 8, false))),
            FmtValue::UInt(n) => Ok(PieceV::Text(radix_digits(n as nat, 8, false))),
            _ => Err(type_error("%o requires int or uint"@, arg)),
        }
    } else if verb == 'x' || verb == 'X' {
        let upper = verb == 'X';
        match arg {
            FmtValue::Int(n) => Ok(PieceV::Text(radix_digits(twos(n as int), 16, upper))),
            FmtValue::UInt(n) => Ok(PieceV::Text(radix_digits(n as nat, 16, upper))),
            FmtValue::Str(s) => Ok(PieceV::Text(hex_bytes(vstd::utf8::encode_utf8(s@), upper))),
            FmtValue::Bytes(b, _) => Ok(PieceV::Text(hex_bytes(b@, upper))),
            _ => Err(type_error("%x requires int, uint, string, or bytes"@, arg)),
        }
    } else {
        Err("unknown format verb '%"@ + seq![verb] + "'"@)
    }
}

/// The error for too few arguments.
pub open spec fn args_error(k: nat, n: nat) -> Seq<char> {
    "not enough arguments: format requires at least "@ + dec_digits(k + 1) + " but got "@ + dec_digits(n)
}

/// Verb `verb` applied to argument number `k`, continuing at `next`.
pub open spec fn with_arg(verb: char, precision: Option<nat>, k: nat, args: Seq<FmtValue>, next: nat) -> Result<(PieceV, nat), Seq<char>> {
    if k >= args.len() {
        Err(args_error(k, args.len()))
    } else {
        match render(verb, precision, k, args[k as int]) {
            Ok(p) => Ok((p, next)),
            Err(e) => Err(e),
        }
    }
}

/// The number of ASCII digits in `f` starting at `j`.
pub open spec fn digit_run(f: Seq<char>, j: nat) -> nat
    decreases f.len() - j,
{
    if j < f.len() && crate::text::is_digit(f[j as int]) {
        1 + digit_run(f, j + 1)
    } else {
        0
    }
}

/// The verb at `%` position `i` (not `%%`), with its precision: the piece
/// it renders and where reading continues.
pub open spec fn verb_step(f: Seq<char>, i: nat, k: nat, args: Seq<FmtValue>) -> Result<(PieceV, nat), Seq<char>> {
    if f[(i + 1) as int] == '.' {
        let d = digit_run(f, i + 2);
        match crate::text::parse_int(f.subrange((i + 2) as int, (i + 2 + d) as int), 0, usize::MAX as int, false) {
            None => Err("invalid precision in format string"@),
            Some(p) => if i + 2 + d >= f.len() {
                Err("format string ends after precision"@)
            } else {
                with_arg(f[(i + 2 + d) as int], Some(p as nat), k, args, i + 3 + d)
            },
        }
    } else {
        with_arg(f[(i + 1) as int], None, k, args, i + 2)
    }
}

/// The pieces done so far, with the pending text closed off.
pub open spec fn flush(done: Seq<PieceV>, text: Seq<char>) -> Seq<PieceV> {
    if text.len() == 0 {
        done
    } else {
        done.push(PieceV::Text(text))
    }
}

/// The result of formatting `f` from position `i`, with `k` arguments used,
/// the pieces `done` finished and `text` written since the last of them:
/// adjacent text is kept in one piece. The first error met, if any.
pub open spec fn plan_from(
    f: Seq<char>,
    i: nat,
    k: nat,
    args: Seq<FmtValue>,
    done: Seq<PieceV>,
    text: Seq<char>,
) -> Result<Seq<PieceV>, Seq<char>>
    decreases f.len() + 1 - i,
{
    if i >= f.len() {
        Ok(flush(done, text))
    } else if f[i as int] != '%' {
        plan_from(f, i + 1, k, args, done, text.push(f[i as int]))
    } else if i + 1 >= f.len() {
        Err("format string ends with '%'"@)
    } else if f[(i + 1) as int] == '%' {
        plan_from(f, i + 2, k, args, done, text.push('%'))
    } else {
        match verb_step(f, i, k, args) {
            Err(e) => Err(e),
            Ok((p, j)) => if j <= i {
                Err(Seq::empty())
            } else {
                match p {
                    PieceV::Text(t) => plan_from(f, j, k + 1, args, done, text + t),
                    PieceV::Float(..) => plan_from(f, j, k + 1, args, flush(done, text).push(p), Seq::empty()),
                }
            },
        }
    }
}

/// The result of formatting `f` with `args`.
pub open spec fn format_plan(f: Seq<char>, args: Seq<FmtValue>) -> Result<Seq<PieceV>, Seq<char>> {
    plan_from(f, 0, 0, args, Seq::empty(), Seq::empty())
}

/// A precision as a natural number.
pub open spec fn prec_view(p: Option<usize>) -> Option<nat> {
    match p {
        Some(n) => Some(n as nat),
        None => None,
    }
}

fn arg_kind_of(v: &FmtValue) -> (k: ArgKind)
    ensures
        k == arg_kind(*v),
{
    match v {
        FmtValue::Str(_) => ArgKind::String,
        FmtValue::Int(_) => ArgKind::Int,
        FmtValue::UInt(_) => ArgKind::UInt,
        FmtValue::Bool(_) => ArgKind::Bool,
        FmtValue::Null => ArgKind::Null,
        FmtValue::Bytes(..) => ArgKind::Bytes,
        FmtValue::List(_) => ArgKind::List,
        FmtValue::Dict(_) => ArgKind::Dict,
        FmtValue::Float(_) => ArgKind::Float,
        FmtValue::Other(k, _) => *k,
    }
}

fn type_error_exec(requirement: &str, arg: &FmtValue) -> (e: String)
    ensures
        e@ == type_error(requirement@, *arg),
{
    let mut e = string_of(requirement);
    push_str(&mut e, ", got ");
    push_str(&mut e, kind_name(arg_kind_of(arg)));
    e
}

fn radix_text(n: u64, base: u64, upper: bool) -> (t: String)
    requires
        2 <= base <= 16,
    ensures
        t@ == radix_digits(n as nat, base as nat, upper),
{
    let mut t = String::new();
    push_radix(&mut t, n, base, upper);
    proof {
        assert(t@ =~= radix_digits(n as nat, base as nat, upper));
    }
    t
}

fn twos_exec(n: i64) -> (r: u64)
    ensures
        r as nat == twos(n as int),
{
    if n < 0 {
        ((n as i128) + 0x1_0000_0000_0000_0000i128) as u64
    } else {
        n as u64
    }
}

/// `%d` prints an integer argument as a decimal text that reads back as the
/// argument: with a leading `-` exactly when it is negative.
pub proof fn law_d_reads_back(precision: Option<nat>, k: nat, arg: FmtValue)
    ensures
        arg is Int ==> (render('d', precision, k, arg) matches Ok(PieceV::Text(t)) && is_decimal_text(t)
            && signed_decimal_value(t) == arg->Int_0 && (t[0] == '-' <==> arg->Int_0 < 0)),
        arg is UInt ==> (render('d', precision, k, arg) matches Ok(PieceV::Text(t)) && is_decimal_text(t)
            && signed_decimal_value(t) == arg->UInt_0 && t[0] != '-'),
{
    match arg {
        FmtValue::Int(n) => {
            law_int_text_reads_back(n as int);
        },
        FmtValue::UInt(n) => {
            law_int_text_reads_back(n as int);
            assert(int_text(n as int) == dec_digits(n as nat));
        },
        _ => {},
    }
}

/// How verb `verb` renders argument number `k` (see [`render`]).
pub fn render_arg(verb: char, precision: Option<usize>, k: usize, arg: &FmtValue) -> (r: Result<Piece, String>)
    ensures
        match r {
            Ok(p) => render(verb, prec_view(precision), k as nat, *arg) == Ok::<PieceV, Seq<char>>(piece_view(p)),
            Err(e) => render(verb, prec_view(precision), k as nat, *arg) == Err::<PieceV, Seq<char>>(e@),
        },
        verb == 'd' && arg is Int ==> (r matches Ok(Piece::Text(t)) && is_decimal_text(t@)
            && signed_decimal_value(t@) == arg->Int_0),
        verb == 'd' && arg is UInt ==> (r matches Ok(Piece::Text(t)) && is_decimal_text(t@)
            && signed_decimal_value(t@) == arg->UInt_0),
{
    proof {
        law_d_reads_back(prec_view(precision), k as nat, *arg);
    }
    if verb == 's' {
        let mut t = String::new();
        format_s(arg, &mut t);
        proof {
            assert(t@ =~= s_text(*arg));
        }
        Ok(Piece::Text(t))
    } else if verb == 'd' {
        match arg {
            FmtValue::Int(n) => {
                let mut t = String::new();
                push_signed_decimal(&mut t, *n as i128);
                proof {
                    assert(t@ =~= int_text(*n as int));
                }
                Ok(Piece::Text(t))
            },
            FmtValue::UInt(n) => Ok(Piece::Text(crate::text::u64_text(*n))),
            _ => Err(type_error_exec("%d requires int or uint", arg)),
        }
    } else if verb == 'f' || verb == 'e' {
        match arg {
            FmtValue::Float(_) | FmtValue::Int(_) | FmtValue::UInt(_) => {
                let p: usize = match precision {
                    Some(p) => p,
                    None => 6,
                };
                Ok(Piece::Float { arg: k, exponent: verb == 'e', precision: p })
            },
            _ => {
                let mut e = String::new();
                push_char(&mut e, '%');
                push_char(&mut e, verb);
                push_str(&mut e, " requires float, int, or uint");
                push_str(&mut e, ", got ");
                push_str(&mut e, kind_name(arg_kind_of(arg)));
                proof {
                    assert(e@ =~= type_error(seq!['%', verb] + " requires float, int, or uint"@, *arg));
                }
                Err(e)
            },
        }
    } else if verb == 'b' {
        match arg {
            FmtValue::Int(n) => Ok(Piece::Text(radix_text(twos_exec(*n), 2, false))),
            FmtValue::UInt(n) => Ok(Piece::Text(radix_text(*n, 2, false))),
            FmtValue::Bool(b) => {
                let mut t = String::new();
                if *b {
                    push_char(&mut t, '1');
                } else {
                    push_char(&mut t, '0');
                }
                proof {
                    assert(t@ =~= if *b { seq!['1'] } else { seq!['0'] });
                }
                Ok(Piece::Text(t))
            },
            _ => Err(type_error_exec("%b requires int, uint, or bool", arg)),
        }
    } else if verb == 'o' {
        match arg {
            FmtValue::Int(n) => Ok(Piece::Text(radix_text(twos_exec(*n), 8, false))),
            FmtValue::UInt(n) => Ok(Piece::Text(radix_text(*n, 8, false))),
            _ => Err(type_error_exec("%o requires int or uint", arg)),
        }
    } else if verb == 'x' || verb == 'X' {
        let upper = verb == 'X';
        match arg {
            FmtValue::Int(n) => Ok(Piece::Text(radix_text(twos_exec(*n), 16, upper))),
            FmtValue::UInt(n) => Ok(Piece::Text(radix_text(*n, 16, upper))),
            FmtValue::Str(s) => {
                let mut t = String::new();
                push_hex_bytes(&mut t, s.as_str().as_bytes(), upper);
                proof {
                    assert(t@ =~= hex_bytes(vstd::utf8::encode_utf8(s@), upper));
                }
                Ok(Piece::Text(t))
            },
            FmtValue::Bytes(b, _) => {
                let mut t = String::new();
                push_hex_bytes(&mut t, b.as_slice(), upper);
                proof {
                    assert(t@ =~= hex_bytes(b@, upper));
                }
                Ok(Piece::Text(t))
            },
            _ => Err(type_error_exec("%x requires int, uint, string, or bytes", arg)),
        }
    } else {
        let mut e = string_of("unknown format verb '%");
        push_char(&mut e, verb);
        push_char(&mut e, '\'');
        proof {
            assert(e@ =~= "unknown format verb '%"@ + seq![verb] + "'"@) by {
                reveal_strlit("'");
            }
        }
        Err(e)
    }
}

fn args_error_exec(k: usize, n: usize) -> (e: String)
    ensures
        e@ == args_error(k as nat, n as nat),
{
    let mut e = string_of("not enough arguments: format requires at least ");
    push_decimal(&mut e, (k as u128) + 1);
    push_str(&mut e, " but got ");
    push_decimal(&mut e, n as u128);
    e
}

/// Formats `fmt` with `args` as the `format()` string function does. Text
/// comes out finished; a `%f` or `%e` verb comes out as a float piece for
/// the caller to render.
pub fn format_string(fmt: &str, args: &Vec<FmtValue>) -> (r: Result<Vec<Piece>, String>)
    ensures
        match r {
            Ok(ps) => format_plan(fmt@, args@) == Ok::<Seq<PieceV>, Seq<char>>(pieces_view(ps@)),
            Err(e) => format_plan(fmt@, args@) == Err::<Seq<PieceV>, Seq<char>>(e@),
        },
{
    let f = chars_of(fmt);
    let mut pieces: Vec<Piece> = Vec::new();
    let mut text = String::new();
    let mut i: usize = 0;
    let mut k: usize = 0;
    proof {
        assert(pieces_view(pieces@) =~= Seq::empty());
        assert(text@ =~= Seq::<char>::empty());
    }
    while i < f.len()
        invariant
            f@ == fmt@,
            i <= f@.len(),
            k <= i,
            format_plan(fmt@, args@) == plan_from(f@, i as nat, k as nat, args@, pieces_view(pieces@), text@),
        decreases f@.len() - i,
    {
        let c = f[i];
        if c != '%' {
            push_char(&mut text, c);
            i = i + 1;
        } else if i + 1 >= f.len() {
            let e = string_of("format string ends with '%'");
            return Err(e);
        } else if f[i + 1] == '%' {
            push_char(&mut text, '%');
            i = i + 2;
        } else {
            let step = verb_at(&f, i, k, args);
            match step {
                Err(e) => {
                    return Err(e);
                },
                Ok((p, j)) => {
                    match p {
                        Piece::Text(t) => {
                            push_str(&mut text, t.as_str());
                        },
                        Piece::Float { arg, exponent, precision } => {
                            let ghost before = pieces_view(pieces@);
                            if !text.as_str().is_empty() {
                                let ghost tv = text@;
                                pieces.push(Piece::Text(text));
                                proof {
                                    assert(pieces_view(pieces@) =~= before.push(PieceV::Text(tv)));
                                }
                            }
                            let ghost mid = pieces_view(pieces@);
                            pieces.push(Piece::Float { arg, exponent, precision });
                            proof {
                                assert(pieces_view(pieces@) =~= mid.push(
                                    PieceV::Float(arg as nat, exponent, precision as nat),
                                ));
                            }
                            text = String::new();
                        },
                    }
                    i = j;
                    k = k + 1;
                },
            }
        }
    }
    if !text.as_str().is_empty() {
        let ghost before = pieces_view(pieces@);
        let ghost tv = text@;
        pieces.push(Piece::Text(text));
        proof {
            assert(pieces_view(pieces@) =~= before.push(PieceV::Text(tv)));
        }
    }
    Ok(pieces)
}

/// One verb at `%` position `i`: its piece and where reading continues.
fn verb_at(f: &Vec<char>, i: usize, k: usize, args: &Vec<FmtValue>) -> (r: Result<(Piece, usize), String>)
    requires
        i + 1 < f@.len(),
        f@[i as int] == '%',
        f@[i + 1] != '%',
        k <= i,
    ensures
        match r {
            Ok((p, j)) => i < j <= f@.len() && verb_step(f@, i as nat, k as nat, args@) == Ok::<
                (PieceV, nat),
                Seq<char>,
            >((piece_view(p), j as nat)),
            Err(e) => verb_step(f@, i as nat, k as nat, args@) == Err::<(PieceV, nat), Seq<char>>(e@),
        },
{
    assert(i + 2 <= f.len());
    let (precision, verb, j): (Option<usize>, char, usize) = if f[i + 1] == '.' {
        let mut e: usize = i + 2;
        while e < f.len() && crate::text::is_digit_char(f[e])
            invariant
                i + 2 <= e <= f@.len(),
                digit_run(f@, (i + 2) as nat) == (e - (i + 2)) + digit_run(f@, e as nat),
            decreases f@.len() - e,
        {
            e = e + 1;
        }
        let parsed = crate::text::parse_int_range(f, i + 2, e, 0, usize::MAX as i128, false);
        match parsed {
            None => {
                return Err(string_of("invalid precision in format string"));
            },
            Some(p) => {
                if e >= f.len() {
                    return Err(string_of("format string ends after precision"));
                }
                (Some(p as usize), f[e], e + 1)
            },
        }
    } else {
        (None, f[i + 1], i + 2)
    };
    if k >= args.len() {
        return Err(args_error_exec(k, args.len()));
    }
    match render_arg(verb, precision, k, &args[k]) {
        Ok(p) => Ok((p, j)),
        Err(e) => Err(e),
    }
}

} // verus!
