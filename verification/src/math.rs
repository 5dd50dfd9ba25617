//! The integer part of the `math` extension: absolute value, sign and the
//! bitwise functions.
use vstd::prelude::*;
use crate::text::string_of;

verus! {

/// An integer argument of `math.abs` and `math.sign`.
#[derive(Clone, Copy, Debug, PartialEq, Eq, Structural)]
pub enum IntArg {
    Int(i64),
    UInt(u64),
}

/// `|n|`.
pub open spec fn abs_int(n: int) -> int {
    if n < 0 {
        -n
    } else {
        n
    }
}

/// `-1`, `0` or `1` by the sign of `n`.
pub open spec fn sign_int(n: int) -> int {
    if n < 0 {
        -1
    } else if n == 0 {
        0
    } else {
        1
    }
}

/// `math.abs(<int|uint>)`: the absolute value; an error where it does not
/// fit an `int` (`i64::MIN`).
pub fn math_abs(arg: IntArg) -> (r: Result<IntArg, String>)
    ensures
        match arg {
            IntArg::Int(n) => match r {
                Ok(v) => n != i64::MIN && v == IntArg::Int(abs_int(n as int) as i64),
                Err(e) => n == i64::MIN && e@ == "integer overflow"@,
            },
            IntArg::UInt(n) => r == Ok::<IntArg, String>(IntArg::UInt(n)),
        },
{
    match arg {
        IntArg::Int(n) => {
            if n == i64::MIN {
                Err(string_of("integer overflow"))
            } else if n < 0 {
                Ok(IntArg::Int(-n))
            } else {
                Ok(IntArg::Int(n))
            }
        },
        IntArg::UInt(n) => Ok(IntArg::UInt(n)),
    }
}

/// `math.sign(<int|uint>)`: `-1`, `0` or `1` (`0` or `1` for `uint`).
pub fn math_sign(arg: IntArg) -> (r: IntArg)
    ensures
        match arg {
            IntArg::Int(n) => r == IntArg::Int(sign_int(n as int) as i64),
            IntArg::UInt(n) => r == IntArg::UInt(sign_int(n as int) as u64),
        },
{
    match arg {
        IntArg::Int(n) => IntArg::Int(
            if n < 0 {
                -1
            } else if n == 0 {
                0
            } else {
                1
            },
        ),
        IntArg::UInt(n) => IntArg::UInt(
            if n == 0 {
                0
            } else {
                1
            },
        ),
    }
}

/// `math.bitAnd(int, int)`.
pub fn math_bit_and(a: i64, b: i64) -> (r: i64)
    ensures
        r == a & b,
{
    a & b
}

/// `math.bitOr(int, int)`.
pub fn math_bit_or(a: i64, b: i64) -> (r: i64)
    ensures
        r == a | b,
{
    a | b
}

/// `math.bitXor(int, int)`.
pub fn math_bit_xor(a: i64, b: i64) -> (r: i64)
    ensures
        r == a ^ b,
{
    a ^ b
}

/// `math.bitNot(int)`: `-v - 1`.
pub fn math_bit_not(v: i64) -> (r: i64)
    ensures
        r == !v,
        r == -v - 1,
{
    assert(!v == -v - 1) by (bit_vector);
    !v
}

/// A shift amount outside `0..=63`.
pub open spec fn bad_shift(shift: i64) -> bool {
    shift < 0 || shift > 63
}

/// The error for such a shift.
pub open spec fn shift_error() -> Seq<char> {
    "shift amount must be between 0 and 63"@
}

/// `math.bitShiftLeft(int, int)`: the bits of `v` moved up by `shift`
/// places (those moved past the top are lost); an error for a shift
/// outside `0..=63`.
pub fn math_bit_shift_left(v: i64, shift: i64) -> (r: Result<i64, String>)
    ensures
        match r {
            Ok(x) => !bad_shift(shift) && x == v << (shift as u32),
            Err(e) => bad_shift(shift) && e@ == shift_error(),
        },
{
    if shift < 0 || shift > 63 {
        return Err(string_of("shift amount must be between 0 and 63"));
    }
    let s: u32 = shift as u32;
    Ok(v << s)
}

/// `math.bitShiftRight(int, int)`: `v` shifted down by `shift` places,
/// keeping its sign (rounding toward negative infinity); an error for a
/// shift outside `0..=63`.
pub fn math_bit_shift_right(v: i64, shift: i64) -> (r: Result<i64, String>)
    ensures
        match r {
            Ok(x) => !bad_shift(shift) && x == v >> (shift as u32),
            Err(e) => bad_shift(shift) && e@ == shift_error(),
        },
{
    if shift < 0 || shift > 63 {
        return Err(string_of("shift amount must be between 0 and 63"));
    }
    let s: u32 = shift as u32;
    Ok(v >> s)
}

} // verus!
