//! JSON Patch key escaping (RFC 6901).
use vstd::prelude::*;
use crate::text::{chars_of, push_char};

verus! {

/// How one character of a key is escaped: `~` as `~0`, `/` as `~1`.
pub open spec fn escape_char(c: char) -> Seq<char> {
    if c == '~' {
        seq!['~', '0']
    } else if c == '/' {
        seq!['~', '1']
    } else {
        seq![c]
    }
}

/// The escaped form of the first `n` characters of `s`.
pub open spec fn escaped(s: Seq<char>, n: nat) -> Seq<char>
    decreases n,
{
    if n == 0 || n > s.len() {
        Seq::empty()
    } else {
        escaped(s, (n - 1) as nat) + escape_char(s[n - 1])
    }
}

/// `jsonpatch.escapeKey(<string>)`: every `~` written `~0` and every `/`
/// written `~1`, so that `~1` in the input becomes `~01`.
pub fn escape_key(s: &str) -> (r: String)
    ensures
        r@ == escaped(s@, s@.len()),
{
    let v = chars_of(s);
    let mut r = String::new();
    let mut i: usize = 0;
    proof {
        assert(r@ =~= escaped(s@, 0));
    }
    while i < v.len()
        invariant
            v@ == s@,
            i <= v@.len(),
            r@ == escaped(s@, i as nat),
        decreases v@.len() - i,
    {
        let c = v[i];
        if c == '~' {
            push_char(&mut r, '~');
            push_char(&mut r, '0');
        } else if c == '/' {
            push_char(&mut r, '~');
            push_char(&mut r, '1');
        } else {
            push_char(&mut r, c);
        }
        i = i + 1;
        proof {
            assert(r@ =~= escaped(s@, i as nat));
        }
    }
    r
}

} // verus!
