//! The text of a CEL duration (`1h2m3.5s`, `1.234567ms`, `250ns`), as Go's
//! `time.Duration.String()` writes it: every significant fractional digit
//! is kept.
use vstd::prelude::*;
use crate::text::{dec_digits, digit_char, digit_to_char, push_decimal, push_str, string_from_chars};

verus! {

/// The last `w` decimal digits of `n`, zero-padded.
pub open spec fn padded(n: nat, w: nat) -> Seq<char>
    decreases w,
{
    if w == 0 {
        Seq::empty()
    } else {
        padded(n / 10, (w - 1) as nat).push(digit_char((n % 10) as int))
    }
}

/// `s` without its trailing `c`s.
pub open spec fn strip_end(s: Seq<char>, c: char) -> Seq<char>
    decreases s.len(),
{
    if s.len() > 0 && s.last() == c {
        strip_end(s.drop_last(), c)
    } else {
        s
    }
}

/// `y / 10^w` (with `unit == 10^w`) written with `w` decimals, then its
/// trailing zeros and then the point removed.
pub open spec fn fraction_text(y: nat, unit: nat, w: nat) -> Seq<char> {
    strip_end(strip_end(dec_digits(y / unit) + seq!['.'] + padded(y % unit, w), '0'), '.')
}

/// The text of a duration of `u > 0` nanoseconds.
pub open spec fn magnitude_text(u: nat) -> Seq<char> {
    if u >= 1_000_000_000 {
        let hours = u / 3_600_000_000_000;
        let mins = (u % 3_600_000_000_000) / 60_000_000_000;
        let secs = (u % 60_000_000_000) / 1_000_000_000;
        let frac = u % 1_000_000_000;
        (if hours > 0 {
            dec_digits(hours) + seq!['h']
        } else {
            Seq::empty()
        }) + (if hours > 0 || mins > 0 {
            dec_digits(mins) + seq!['m']
        } else {
            Seq::empty()
        }) + (if frac > 0 {
            dec_digits(secs) + seq!['.'] + strip_end(padded(frac, 9), '0') + seq!['s']
        } else {
            dec_digits(secs) + seq!['s']
        })
    } else if u >= 1_000_000 {
        fraction_text(u, 1_000_000, 6) + "ms"@
    } else if u >= 1000 {
        fraction_text(u, 1000, 3) + "µs"@
    } else {
        dec_digits(u) + "ns"@
    }
}

/// The text of a duration of `n` nanoseconds.
pub open spec fn duration_text(n: int) -> Seq<char> {
    if n == 0 {
        "0s"@
    } else if n < 0 {
        seq!['-'] + magnitude_text((-n) as nat)
    } else {
        magnitude_text(n as nat)
    }
}

fn push_padded(out: &mut Vec<char>, n: u64, w: u64)
    requires
        w <= 20,
    ensures
        final(out)@ == old(out)@ + padded(n as nat, w as nat),
{
    let mut digits: Vec<char> = Vec::new();
    let mut m: u64 = n;
    let mut i: u64 = 0;
    let ghost mut acc: Seq<char> = Seq::empty();
    while i < w
        invariant
            i <= w,
            padded(n as nat, w as nat) == padded(m as nat, (w - i) as nat) + acc,
            digits@ == acc.reverse(),
        decreases w - i,
    {
        let c = digit_to_char((m % 10) as u8);
        proof {
            let old_acc = acc;
            acc = seq![c] + old_acc;
            assert(padded(m as nat, (w - i) as nat) == padded((m / 10) as nat, (w - i - 1) as nat).push(c));
            assert(padded((m / 10) as nat, (w - i - 1) as nat).push(c) + old_acc =~= padded(
                (m / 10) as nat,
                (w - i - 1) as nat,
            ) + acc);
            assert(acc.reverse() =~= old_acc.reverse().push(c));
        }
        digits.push(c);
        m = m / 10;
        i = i + 1;
    }
    let ghost start = out@;
    let mut j: usize = digits.len();
    while j > 0
        invariant
            j <= digits@.len(),
            digits@ == acc.reverse(),
            out@ == start + acc.subrange(0, (acc.len() - j) as int),
        decreases j,
    {
        j = j - 1;
        out.push(digits[j]);
        proof {
            assert(digits@[j as int] == acc[acc.len() - 1 - j]);
            assert(acc.subrange(0, (acc.len() - j) as int) =~= acc.subrange(0, (acc.len() - j - 1) as int).push(
                acc[acc.len() - 1 - j],
            ));
        }
    }
    proof {
        assert(acc.subrange(0, acc.len() as int) =~= acc);
        assert(padded(m as nat, 0) =~= Seq::<char>::empty());
        assert(padded(n as nat, w as nat) =~= acc);
    }
}

fn strip_end_vec(v: &mut Vec<char>, c: char)
    ensures
        final(v)@ == strip_end(old(v)@, c),
{
    while v.len() > 0 && v[v.len() - 1] == c
        invariant
            strip_end(v@, c) == strip_end(old(v)@, c),
        decreases v@.len(),
    {
        let ghost before = v@;
        v.pop();
        proof {
            assert(v@ =~= before.drop_last());
        }
    }
}

fn push_digits_vec(out: &mut Vec<char>, n: u64)
    ensures
        final(out)@ == old(out)@ + dec_digits(n as nat),
{
    let mut s = String::new();
    push_decimal(&mut s, n as u128);
    let cs = crate::text::chars_of(s.as_str());
    let ghost start = out@;
    let mut i: usize = 0;
    while i < cs.len()
        invariant
            i <= cs@.len(),
            cs@ == dec_digits(n as nat),
            out@ == start + cs@.subrange(0, i as int),
        decreases cs@.len() - i,
    {
        out.push(cs[i]);
        i = i + 1;
        proof {
            assert(cs@.subrange(0, i as int) =~= cs@.subrange(0, i - 1).push(cs@[i - 1]));
        }
    }
    proof {
        assert(cs@.subrange(0, cs@.len() as int) =~= cs@);
    }
}

fn fraction(y: u64, unit: u64, w: u64) -> (r: Vec<char>)
    requires
        (unit == 1000 && w == 3) || (unit == 1_000_000 && w == 6),
    ensures
        r@ == fraction_text(y as nat, unit as nat, w as nat),
{
    let mut v: Vec<char> = Vec::new();
    push_digits_vec(&mut v, y / unit);
    v.push('.');
    push_padded(&mut v, y % unit, w);
    proof {
        assert(v@ =~= dec_digits((y / unit) as nat) + seq!['.'] + padded((y % unit) as nat, w as nat));
    }
    strip_end_vec(&mut v, '0');
    strip_end_vec(&mut v, '.');
    v
}

fn append(out: &mut Vec<char>, f: &Vec<char>)
    ensures
        final(out)@ == old(out)@ + f@,
{
    let mut k: usize = 0;
    let ghost start = out@;
    while k < f.len()
        invariant
            k <= f@.len(),
            out@ == start + f@.subrange(0, k as int),
        decreases f@.len() - k,
    {
        out.push(f[k]);
        k = k + 1;
        proof {
            assert(f@.subrange(0, k as int) =~= f@.subrange(0, k - 1).push(f@[k - 1]));
        }
    }
    proof {
        assert(f@.subrange(0, f@.len() as int) =~= f@);
    }
}

fn long_text(u: u64) -> (r: Vec<char>)
    requires
        u >= 1_000_000_000,
    ensures
        r@ == magnitude_text(u as nat),
{
    let mut out: Vec<char> = Vec::new();
    let hours = u / 3_600_000_000_000;
    let mins = (u % 3_600_000_000_000) / 60_000_000_000;
    let secs = (u % 60_000_000_000) / 1_000_000_000;
    let frac = u % 1_000_000_000;
    if hours > 0 {
        push_digits_vec(&mut out, hours);
        out.push('h');
    }
    if hours > 0 || mins > 0 {
        push_digits_vec(&mut out, mins);
        out.push('m');
    }
    push_digits_vec(&mut out, secs);
    if frac > 0 {
        out.push('.');
        let mut f: Vec<char> = Vec::new();
        push_padded(&mut f, frac, 9);
        strip_end_vec(&mut f, '0');
        append(&mut out, &f);
    }
    out.push('s');
    proof {
        assert(out@ =~= magnitude_text(u as nat));
    }
    out
}

fn short_text(u: u64) -> (r: String)
    requires
        0 < u < 1_000_000_000,
    ensures
        r@ == magnitude_text(u as nat),
{
    let mut res = String::new();
    if u >= 1_000_000 {
        let t = fraction(u, 1_000_000, 6);
        let ts = string_from_chars(&t);
        push_str(&mut res, ts.as_str());
        push_str(&mut res, "ms");
    } else if u >= 1000 {
        let t = fraction(u, 1000, 3);
        let ts = string_from_chars(&t);
        push_str(&mut res, ts.as_str());
        push_str(&mut res, "µs");
    } else {
        push_decimal(&mut res, u as u128);
        push_str(&mut res, "ns");
    }
    proof {
        assert(res@ =~= magnitude_text(u as nat));
    }
    res
}

/// The text of a duration of `total_nanos` nanoseconds (`"1h0m0s"`,
/// `"1.5s"`, `"2ms"`, `"0s"`).
pub fn format_cel_duration(total_nanos: i64) -> (r: String)
    ensures
        r@ == duration_text(total_nanos as int),
{
    if total_nanos == 0 {
        return crate::text::string_of("0s");
    }
    let neg = total_nanos < 0;
    let u: u64 = if neg {
        if total_nanos == i64::MIN {
            0x8000_0000_0000_0000u64
        } else {
            (-total_nanos) as u64
        }
    } else {
        total_nanos as u64
    };
    let body = if u >= 1_000_000_000 {
        let v = long_text(u);
        string_from_chars(&v)
    } else {
        short_text(u)
    };
    let mut out = String::new();
    if neg {
        crate::text::push_char(&mut out, '-');
    }
    push_str(&mut out, body.as_str());
    proof {
        assert(out@ =~= duration_text(total_nanos as int));
    }
    out
}

} // verus!
