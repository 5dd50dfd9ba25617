//! How an object's field names are written as CEL identifiers: a CEL
//! reserved word `w` as `__w__`; otherwise `_`, `.`, `-` and `/` spelled
//! out as `__`, `__dot__`, `__dash__` and `__slash__`.
use vstd::prelude::*;
use crate::text::{chars_of, push_char, push_str, str_eq};

verus! {

/// The words that CEL reserves and a field name cannot be written as.
pub open spec fn is_reserved(s: Seq<char>) -> bool {
    ||| s == "true"@
    ||| s == "false"@
    ||| s == "null"@
    ||| s == "in"@
    ||| s == "as"@
    ||| s == "break"@
    ||| s == "const"@
    ||| s == "continue"@
    ||| s == "else"@
    ||| s == "for"@
    ||| s == "function"@
    ||| s == "if"@
    ||| s == "import"@
    ||| s == "let"@
    ||| s == "loop"@
    ||| s == "package"@
    ||| s == "namespace"@
    ||| s == "return"@
    ||| s == "var"@
    ||| s == "void"@
    ||| s == "while"@
}

/// How one character of a field name is written.
pub open spec fn field_char(c: char) -> Seq<char> {
    if c == '_' {
        "__"@
    } else if c == '.' {
        "__dot__"@
    } else if c == '-' {
        "__dash__"@
    } else if c == '/' {
        "__slash__"@
    } else {
        seq![c]
    }
}

/// The first `n` characters of `s`, each written as `field_char` says.
pub open spec fn field_chars(s: Seq<char>, n: nat) -> Seq<char>
    decreases n,
{
    if n == 0 || n > s.len() {
        Seq::empty()
    } else {
        field_chars(s, (n - 1) as nat) + field_char(s[n - 1])
    }
}

/// The CEL spelling of field name `s`.
pub open spec fn escaped_name(s: Seq<char>) -> Seq<char> {
    if is_reserved(s) {
        "__"@ + s + "__"@
    } else {
        field_chars(s, s.len())
    }
}

/// Whether `name` is a CEL reserved word.
pub fn is_reserved_word(name: &str) -> (r: bool)
    ensures
        r == is_reserved(name@),
{
    str_eq(name, "true") || str_eq(name, "false") || str_eq(name, "null") || str_eq(name, "in")
        || str_eq(name, "as") || str_eq(name, "break") || str_eq(name, "const") || str_eq(name, "continue")
        || str_eq(name, "else") || str_eq(name, "for") || str_eq(name, "function") || str_eq(name, "if")
        || str_eq(name, "import") || str_eq(name, "let") || str_eq(name, "loop") || str_eq(name, "package")
        || str_eq(name, "namespace") || str_eq(name, "return") || str_eq(name, "var") || str_eq(name, "void")
        || str_eq(name, "while")
}

/// The CEL spelling of the field name `name`.
pub fn escape_field_name(name: &str) -> (r: String)
    ensures
        r@ == escaped_name(name@),
{
    let mut r = String::new();
    if is_reserved_word(name) {
        push_str(&mut r, "__");
        push_str(&mut r, name);
        push_str(&mut r, "__");
        proof {
            assert(r@ =~= escaped_name(name@));
        }
        return r;
    }
    let v = chars_of(name);
    let mut i: usize = 0;
    proof {
        assert(r@ =~= field_chars(name@, 0));
    }
    while i < v.len()
        invariant
            v@ == name@,
            i <= v@.len(),
            r@ == field_chars(name@, i as nat),
        decreases v@.len() - i,
    {
        let c = v[i];
        let ghost before = r@;
        if c == '_' {
            push_str(&mut r, "__");
        } else if c == '.' {
            push_str(&mut r, "__dot__");
        } else if c == '-' {
            push_str(&mut r, "__dash__");
        } else if c == '/' {
            push_str(&mut r, "__slash__");
        } else {
            push_char(&mut r, c);
        }
        i = i + 1;
        proof {
            assert(r@ =~= before + field_char(name@[i - 1]));
            assert(r@ =~= field_chars(name@, i as nat));
        }
    }
    r
}

} // verus!
