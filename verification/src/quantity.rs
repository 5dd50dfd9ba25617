//! Kubernetes resource quantities ("1.5Gi", "500m", "100n").
//!
//! A quantity is stored as `mantissa * 10^scale` with no trailing decimal
//! zeros in the mantissa, so that arithmetic and comparison are exact.
use vstd::prelude::*;
use crate::text::{
    dec_digits, find_char, int_text, is_digit, leading, parse_int,
    parse_int_range, push_char, push_decimal, push_signed_decimal, repeat_char, string_from_range,
    sub_vec, trim_bounds, trim_seq, chars_of, vec_concat,
};

verus! {

/// `10^n`.
pub open spec fn pow10(n: nat) -> int
    decreases n,
{
    if n == 0 {
        1
    } else {
        10 * pow10((n - 1) as nat)
    }
}

/// `10^n` is positive and grows with `n`.
pub proof fn lemma_pow10_mono(a: nat, b: nat)
    requires
        a <= b,
    ensures
        1 <= pow10(a) <= pow10(b),
    decreases b,
{
    if b > a {
        lemma_pow10_mono(a, (b - 1) as nat);
    } else {
        lemma_pow10_pos(a);
    }
}

/// `10^n >= 1`.
pub proof fn lemma_pow10_pos(n: nat)
    ensures
        pow10(n) >= 1,
    decreases n,
{
    if n > 0 {
        lemma_pow10_pos((n - 1) as nat);
    }
}

/// `10^(a+b) == 10^a * 10^b`.
pub proof fn lemma_pow10_add(a: nat, b: nat)
    ensures
        pow10(a + b) == pow10(a) * pow10(b),
    decreases b,
{
    if b > 0 {
        lemma_pow10_add(a, (b - 1) as nat);
        assert(pow10(a + b) == 10 * pow10((a + b - 1) as nat));
        assert(pow10(a) * pow10(b) == pow10(a) * (10 * pow10((b - 1) as nat)));
        assert(pow10(a) * (10 * pow10((b - 1) as nat)) == 10 * (pow10(a) * pow10((b - 1) as nat)))
            by (nonlinear_arith);
    }
}

/// Whether `x` fits in an `i128`.
pub open spec fn in_i128(x: int) -> bool {
    i128::MIN <= x <= i128::MAX
}

/// Whether `x` fits in an `i32`.
pub open spec fn in_i32(x: int) -> bool {
    i32::MIN <= x <= i32::MAX
}

/// `|x|`.
pub open spec fn abs(x: int) -> int {
    if x < 0 {
        -x
    } else {
        x
    }
}

pub proof fn lemma_div10_smaller(m: int)
    requires
        m != 0,
        m % 10 == 0,
    ensures
        abs(m / 10) < abs(m),
        abs(m / 10) + 9 <= abs(m),
        m / 10 != 0,
        (m < 0) == (m / 10 < 0),
        m == (m / 10) * 10,
{
    assert(m == (m / 10) * 10 + m % 10) by (nonlinear_arith);
}

/// The normal form of `m * 10^s`: trailing decimal zeros of `m` moved into the
/// scale, and zero always stored with scale 0.
pub open spec fn norm(m: int, s: int) -> (int, int)
    decreases abs(m),
{
    if m == 0 {
        (0, 0)
    } else if m % 10 == 0 {
        proof {
            lemma_div10_smaller(m);
        }
        norm(m / 10, s + 1)
    } else {
        (m, s)
    }
}

/// A mantissa/scale pair in normal form.
pub open spec fn is_normal(m: int, s: int) -> bool {
    &&& (m == 0 ==> s == 0)
    &&& (m != 0 ==> m % 10 != 0)
}

/// `norm` gives a normal pair of equal value.
pub proof fn lemma_norm(m: int, s: int)
    ensures
        is_normal(norm(m, s).0, norm(m, s).1),
        m == 0 || norm(m, s).1 >= s,
        m != 0 ==> norm(m, s).0 * pow10((norm(m, s).1 - s) as nat) == m,
        (m < 0) == (norm(m, s).0 < 0),
        (m == 0) == (norm(m, s).0 == 0),
    decreases abs(m),
{
    if m != 0 && m % 10 == 0 {
        lemma_div10_smaller(m);
        lemma_norm(m / 10, s + 1);
        let (a, b) = norm(m / 10, s + 1);
        let k = (b - (s + 1)) as nat;
        assert(pow10((b - s) as nat) == 10 * pow10(k));
        assert(a * (10 * pow10(k)) == (a * pow10(k)) * 10) by (nonlinear_arith);
    }
}

/// Euclidean division by a positive divisor, through the magnitude.
pub proof fn lemma_div_abs(m: int, p: int)
    requires
        p > 0,
    ensures
        (m % p == 0) == (abs(m) % p == 0),
        m % p == 0 ==> m / p == (if m < 0 {
            -(abs(m) / p)
        } else {
            abs(m) / p
        }),
{
    if m < 0 {
        let a = -m;
        vstd::arithmetic::div_mod::lemma_fundamental_div_mod(a, p);
        let q = a / p;
        let r = a % p;
        assert(0 <= r < p) by {
            vstd::arithmetic::div_mod::lemma_mod_pos_bound(a, p);
        }
        if r == 0 {
            assert(m == (-q) * p + 0) by (nonlinear_arith)
                requires
                    a == p * q + r,
                    r == 0,
                    m == -a,
            ;
            vstd::arithmetic::div_mod::lemma_fundamental_div_mod_converse(m, p, -q, 0);
        } else {
            assert(m == (-q - 1) * p + (p - r)) by (nonlinear_arith)
                requires
                    a == p * q + r,
                    m == -a,
            ;
            vstd::arithmetic::div_mod::lemma_fundamental_div_mod_converse(m, p, -q - 1, p - r);
        }
    }
}

/// The magnitude of an `i128` as a `u128`.
pub fn magnitude(m: i128) -> (r: u128)
    ensures
        r == abs(m as int),
{
    if m < 0 {
        if m == i128::MIN {
            0x8000_0000_0000_0000_0000_0000_0000_0000u128
        } else {
            (-m) as u128
        }
    } else {
        m as u128
    }
}

/// Why a quantity operation failed.
///
/// `ArithmeticOverflow` marks the inputs on which fixed-width integer
/// arithmetic overflows; the CEL functions abort on it.
#[derive(Debug, Clone)]
pub enum QuantityError {
    /// The (trimmed) input is empty.
    Empty,
    /// No numeric part; carries the trimmed input.
    NoNumericValue(String),
    /// The exponent after `e`/`E` is not an `i32`; carries the numeric part.
    InvalidExponent(String),
    /// The digits do not form an `i128`; carries the decimal part.
    InvalidNumber(String),
    /// The suffix is not one of the SI suffixes; carries the suffix.
    UnknownSuffix(String),
    /// A binary-suffix multiplication overflowed; carries the trimmed input.
    Overflow(String),
    /// The quantity does not fit an `i64`.
    TooLargeForInteger,
    /// The quantity has a fractional part.
    NotAnInteger,
    /// Fixed-width arithmetic overflowed.
    ArithmeticOverflow,
}

/// The mathematical content of a [`QuantityError`].
pub enum QErr {
    Empty,
    NoNumericValue(Seq<char>),
    InvalidExponent(Seq<char>),
    InvalidNumber(Seq<char>),
    UnknownSuffix(Seq<char>),
    Overflow(Seq<char>),
    TooLargeForInteger,
    NotAnInteger,
    ArithmeticOverflow,
}

impl View for QuantityError {
    type V = QErr;

    open spec fn view(&self) -> QErr {
        match self {
            QuantityError::Empty => QErr::Empty,
            QuantityError::NoNumericValue(s) => QErr::NoNumericValue(s@),
            QuantityError::InvalidExponent(s) => QErr::InvalidExponent(s@),
            QuantityError::InvalidNumber(s) => QErr::InvalidNumber(s@),
            QuantityError::UnknownSuffix(s) => QErr::UnknownSuffix(s@),
            QuantityError::Overflow(s) => QErr::Overflow(s@),
            QuantityError::TooLargeForInteger => QErr::TooLargeForInteger,
            QuantityError::NotAnInteger => QErr::NotAnInteger,
            QuantityError::ArithmeticOverflow => QErr::ArithmeticOverflow,
        }
    }
}

/// A Kubernetes resource quantity, `mantissa * 10^scale` in normal form.
#[derive(Debug, Clone, Copy)]
pub struct KubeQuantity {
    mantissa: i128,
    scale: i32,
}

impl View for KubeQuantity {
    type V = (int, int);

    /// The `(mantissa, scale)` pair.
    closed spec fn view(&self) -> (int, int) {
        (self.mantissa as int, self.scale as int)
    }
}

impl KubeQuantity {
    #[verifier::type_invariant]
    spec fn inv(self) -> bool {
        is_normal(self.mantissa as int, self.scale as int)
    }

    /// Builds the normal form of `m * 10^s`; fails when the normal scale
    /// exceeds `i32::MAX`.
    pub fn try_new(m: i128, s: i32) -> (r: Result<KubeQuantity, QuantityError>)
        ensures
            r is Ok <==> norm(m as int, s as int).1 <= i32::MAX,
            r matches Ok(q) ==> q@ == norm(m as int, s as int),
            r matches Err(e) ==> e@ == QErr::ArithmeticOverflow,
    {
        if m == 0 {
            return Ok(KubeQuantity { mantissa: 0, scale: 0 });
        }
        let mut mm: i128 = m;
        let mut sc: i128 = s as i128;
        while mm % 10 == 0
            invariant
                mm != 0,
                norm(m as int, s as int) == norm(mm as int, sc as int),
                (sc - s) * 9 + abs(mm as int) <= abs(m as int),
                sc >= s,
            decreases abs(mm as int),
        {
            proof {
                lemma_div10_smaller(mm as int);
            }
            mm = mm / 10;
            sc = sc + 1;
        }
        if sc > i32::MAX as i128 {
            return Err(QuantityError::ArithmeticOverflow);
        }
        Ok(KubeQuantity { mantissa: mm, scale: sc as i32 })
    }

    /// A whole number as a quantity.
    pub fn from_i128(n: i128) -> (q: KubeQuantity)
        ensures
            q@ == norm(n as int, 0),
    {
        proof {
            lemma_norm(n as int, 0);
            if n != 0 {
                let (a, b) = norm(n as int, 0);
                if b > 38 {
                    lemma_pow10_mono(39, b as nat);
                    reveal_with_fuel(pow10, 40);
                    assert(abs(a) >= 1);
                    assert(abs(a * pow10(b as nat)) >= pow10(b as nat)) by (nonlinear_arith)
                        requires abs(a) >= 1, pow10(b as nat) >= 1;
                }
            }
        }
        match KubeQuantity::try_new(n, 0) {
            Ok(q) => q,
            Err(_) => KubeQuantity { mantissa: 0, scale: 0 },
        }
    }

    /// The normal form of `mantissa * 10^scale`: trailing zeros of the
    /// mantissa moved into the scale, and zero with scale 0.
    pub fn simplify(mantissa: i128, scale: i32) -> (r: (i128, i32))
        requires
            norm(mantissa as int, scale as int).1 <= i32::MAX,
        ensures
            (r.0 as int, r.1 as int) == norm(mantissa as int, scale as int),
    {
        match KubeQuantity::try_new(mantissa, scale) {
            Ok(q) => (q.mantissa, q.scale),
            Err(_) => (mantissa, scale),
        }
    }

    /// The quantity `mantissa * 10^scale`.
    pub fn new(mantissa: i128, scale: i32) -> (q: KubeQuantity)
        requires
            norm(mantissa as int, scale as int).1 <= i32::MAX,
        ensures
            q@ == norm(mantissa as int, scale as int),
    {
        let (m, s) = KubeQuantity::simplify(mantissa, scale);
        proof {
            lemma_norm(mantissa as int, scale as int);
        }
        KubeQuantity { mantissa: m, scale: s }
    }

    /// The mantissa of the normal form.
    pub fn mantissa(&self) -> (r: i128)
        ensures
            r == self@.0,
    {
        self.mantissa
    }

    /// The scale (power of ten) of the normal form.
    pub fn scale(&self) -> (r: i32)
        ensures
            r == self@.1,
    {
        self.scale
    }
}

/// `10^n` when it fits an `i128` (what `10i128.checked_pow(n)` returns).
pub fn pow10_checked(n: u64) -> (r: Option<i128>)
    ensures
        r matches Some(p) ==> p == pow10(n as nat),
        r is None <==> pow10(n as nat) > i128::MAX,
{
    let mut p: i128 = 1;
    let mut i: u64 = 0;
    while i < n
        invariant
            i <= n,
            p == pow10(i as nat),
            p <= i128::MAX,
        decreases n - i,
    {
        proof {
            lemma_pow10_pos(i as nat);
        }
        if p > i128::MAX / 10 {
            proof {
                lemma_pow10_mono((i + 1) as nat, n as nat);
                assert(pow10((i + 1) as nat) == 10 * p);
            }
            return None;
        }
        p = p * 10;
        i = i + 1;
    }
    Some(p)
}

/// The mantissa `m` rescaled from scale `from` down to `to`, as
/// `m * 10^(from - to)`; `None` when the power or the product overflows `i128`.
pub open spec fn rescale(m: int, from: int, to: int) -> Option<int> {
    let d = from - to;
    if d <= 0 {
        Some(m)
    } else if pow10(d as nat) <= i128::MAX && in_i128(m * pow10(d as nat)) {
        Some(m * pow10(d as nat))
    } else {
        None
    }
}

/// `mantissa * 10^(from_scale - to_scale)`, the mantissa of the same value
/// at the lower scale `to_scale` (unchanged when `to_scale` is not lower).
pub fn scale_mantissa(mantissa: i128, from_scale: i32, to_scale: i32) -> (r: i128)
    requires
        in_i32(from_scale - to_scale),
        rescale(mantissa as int, from_scale as int, to_scale as int) is Some,
    ensures
        rescale(mantissa as int, from_scale as int, to_scale as int) == Some(r as int),
{
    match rescale_mantissa(mantissa, from_scale, to_scale) {
        Some(x) => x,
        None => mantissa,
    }
}

/// The mantissas of `a` and `b` at the smaller of their two scales.
pub fn normalize_pair(a: &KubeQuantity, b: &KubeQuantity) -> (r: (i128, i128))
    requires
        rescale(a@.0, a@.1, min_scale(a@.1, b@.1)) is Some,
        rescale(b@.0, b@.1, min_scale(a@.1, b@.1)) is Some,
    ensures
        rescale(a@.0, a@.1, min_scale(a@.1, b@.1)) == Some(r.0 as int),
        rescale(b@.0, b@.1, min_scale(a@.1, b@.1)) == Some(r.1 as int),
{
    let ms = if a.scale() <= b.scale() {
        a.scale()
    } else {
        b.scale()
    };
    let x = match rescale_mantissa(a.mantissa(), a.scale(), ms) {
        Some(x) => x,
        None => 0,
    };
    let y = match rescale_mantissa(b.mantissa(), b.scale(), ms) {
        Some(y) => y,
        None => 0,
    };
    (x, y)
}

/// Checked form of [`scale_mantissa`].
fn rescale_mantissa(m: i128, from: i32, to: i32) -> (r: Option<i128>)
    ensures
        r matches Some(x) ==> rescale(m as int, from as int, to as int) == Some(x as int),
        r is None ==> rescale(m as int, from as int, to as int) is None,
{
    let d: i64 = from as i64 - to as i64;
    if d <= 0 {
        return Some(m);
    }
    match pow10_checked(d as u64) {
        None => None,
        Some(p) => m.checked_mul(p),
    }
}

/// `-1`, `0` or `1` by the sign of `x`.
pub open spec fn sign_of(x: int) -> int {
    if x < 0 {
        -1
    } else if x == 0 {
        0
    } else {
        1
    }
}

/// The smaller of two scales.
pub open spec fn min_scale(a: int, b: int) -> int {
    if a <= b {
        a
    } else {
        b
    }
}

/// Comparison of `a` and `b` after rescaling both to the smaller scale:
/// `Some(-1 | 0 | 1)`, or `None` when rescaling overflows.
pub open spec fn qorder(a: (int, int), b: (int, int)) -> Option<int> {
    let ms = min_scale(a.1, b.1);
    match (rescale(a.0, a.1, ms), rescale(b.0, b.1, ms)) {
        (Some(x), Some(y)) => Some(sign_of(x - y)),
        _ => None,
    }
}

/// Sum (`neg == false`) or difference (`neg == true`) of `a` and `b` in
/// normal form, or `None` when the fixed-width arithmetic overflows.
pub open spec fn qarith(a: (int, int), b: (int, int), neg: bool) -> Option<(int, int)> {
    let ms = min_scale(a.1, b.1);
    match (rescale(a.0, a.1, ms), rescale(b.0, b.1, ms)) {
        (Some(x), Some(y)) => {
            let r = if neg {
                x - y
            } else {
                x + y
            };
            if in_i128(r) && norm(r, ms).1 <= i32::MAX {
                Some(norm(r, ms))
            } else {
                None
            }
        },
        _ => None,
    }
}

/// What `is_integer` reports for a normal pair.
pub open spec fn qis_integer(q: (int, int)) -> Result<bool, QErr> {
    if q.1 >= 0 {
        Ok(true)
    } else if q.1 == i32::MIN {
        Err(QErr::ArithmeticOverflow)
    } else if pow10((-q.1) as nat) > i128::MAX {
        Ok(false)
    } else {
        Ok(q.0 % pow10((-q.1) as nat) == 0)
    }
}

/// Whether `x` fits in an `i64`.
pub open spec fn in_i64(x: int) -> bool {
    i64::MIN <= x <= i64::MAX
}

/// What `as_integer` reports for a normal pair.
pub open spec fn qas_integer(q: (int, int)) -> Result<int, QErr> {
    if q.1 >= 0 {
        let p = pow10(q.1 as nat);
        if p > i128::MAX || !in_i128(q.0 * p) || !in_i64(q.0 * p) {
            Err(QErr::TooLargeForInteger)
        } else {
            Ok(q.0 * p)
        }
    } else if q.1 == i32::MIN {
        Err(QErr::ArithmeticOverflow)
    } else {
        let p = pow10((-q.1) as nat);
        if p > i128::MAX {
            Err(QErr::TooLargeForInteger)
        } else if q.0 % p != 0 {
            Err(QErr::NotAnInteger)
        } else if !in_i64(q.0 / p) {
            Err(QErr::TooLargeForInteger)
        } else {
            Ok(q.0 / p)
        }
    }
}

/// The decimal text of `m * 10^s`.
pub open spec fn quantity_text(m: int, s: int) -> Seq<char> {
    if s >= 0 {
        int_text(m) + repeat_char('0', s as nat)
    } else {
        let k = -s;
        let sign = if m < 0 {
            seq!['-']
        } else {
            Seq::<char>::empty()
        };
        let d = dec_digits(abs(m) as nat);
        if d.len() <= k {
            sign + seq!['0', '.'] + repeat_char('0', (k - d.len()) as nat) + d
        } else {
            sign + d.take(d.len() - k) + seq!['.'] + d.skip(d.len() - k)
        }
    }
}

impl KubeQuantity {
    /// `-1`, `0` or `1` by the sign of the quantity.
    pub fn sign(&self) -> (r: i64)
        ensures
            r == sign_of(self@.0),
    {
        if self.mantissa < 0 {
            -1
        } else if self.mantissa == 0 {
            0
        } else {
            1
        }
    }

    /// Three-way comparison by value: `-1`, `0` or `1`.
    ///
    /// Both mantissas are rescaled to the smaller scale first; when that
    /// overflows an `i128` the result is `ArithmeticOverflow`.
    pub fn compare(&self, other: &KubeQuantity) -> (r: Result<i64, QuantityError>)
        ensures
            r matches Ok(c) ==> qorder(self@, other@) == Some(c as int),
            r matches Err(e) ==> qorder(self@, other@) is None && e@ == QErr::ArithmeticOverflow,
    {
        let ms = if self.scale <= other.scale {
            self.scale
        } else {
            other.scale
        };
        let x = rescale_mantissa(self.mantissa, self.scale, ms);
        let y = rescale_mantissa(other.mantissa, other.scale, ms);
        match (x, y) {
            (Some(x), Some(y)) => {
                if x < y {
                    Ok(-1)
                } else if x == y {
                    Ok(0)
                } else {
                    Ok(1)
                }
            },
            _ => Err(QuantityError::ArithmeticOverflow),
        }
    }

    /// `self > other`.
    pub fn is_greater_than(&self, other: &KubeQuantity) -> (r: Result<bool, QuantityError>)
        ensures
            r matches Ok(b) ==> qorder(self@, other@) matches Some(c) && b == (c == 1),
            r matches Err(e) ==> qorder(self@, other@) is None && e@ == QErr::ArithmeticOverflow,
    {
        match self.compare(other) {
            Ok(c) => Ok(c == 1),
            Err(e) => Err(e),
        }
    }

    /// `self < other`.
    pub fn is_less_than(&self, other: &KubeQuantity) -> (r: Result<bool, QuantityError>)
        ensures
            r matches Ok(b) ==> qorder(self@, other@) matches Some(c) && b == (c == -1),
            r matches Err(e) ==> qorder(self@, other@) is None && e@ == QErr::ArithmeticOverflow,
    {
        match self.compare(other) {
            Ok(c) => Ok(c == -1),
            Err(e) => Err(e),
        }
    }

    fn arith(&self, other: &KubeQuantity, neg: bool) -> (r: Result<KubeQuantity, QuantityError>)
        ensures
            r matches Ok(q) ==> qarith(self@, other@, neg) == Some(q@),
            r matches Err(e) ==> qarith(self@, other@, neg) is None && e@ == QErr::ArithmeticOverflow,
    {
        let ms = if self.scale <= other.scale {
            self.scale
        } else {
            other.scale
        };
        let x = rescale_mantissa(self.mantissa, self.scale, ms);
        let y = rescale_mantissa(other.mantissa, other.scale, ms);
        match (x, y) {
            (Some(x), Some(y)) => {
                let r = if neg {
                    x.checked_sub(y)
                } else {
                    x.checked_add(y)
                };
                match r {
                    Some(r) => KubeQuantity::try_new(r, ms),
                    None => Err(QuantityError::ArithmeticOverflow),
                }
            },
            _ => Err(QuantityError::ArithmeticOverflow),
        }
    }

    /// `self + other`, exactly.
    pub fn add(&self, other: &KubeQuantity) -> (r: KubeQuantity)
        requires
            qarith(self@, other@, false) is Some,
        ensures
            qarith(self@, other@, false) == Some(r@),
    {
        match self.arith(other, false) {
            Ok(q) => q,
            Err(_) => *self,
        }
    }

    /// `self - other`, exactly.
    pub fn sub(&self, other: &KubeQuantity) -> (r: KubeQuantity)
        requires
            qarith(self@, other@, true) is Some,
        ensures
            qarith(self@, other@, true) == Some(r@),
    {
        match self.arith(other, true) {
            Ok(q) => q,
            Err(_) => *self,
        }
    }

    /// `self + other`, or `ArithmeticOverflow` when fixed-width arithmetic
    /// cannot hold it.
    pub fn checked_add(&self, other: &KubeQuantity) -> (r: Result<KubeQuantity, QuantityError>)
        ensures
            r matches Ok(q) ==> qarith(self@, other@, false) == Some(q@),
            r matches Err(e) ==> qarith(self@, other@, false) is None && e@ == QErr::ArithmeticOverflow,
    {
        self.arith(other, false)
    }

    /// `self - other`, or `ArithmeticOverflow` when fixed-width arithmetic
    /// cannot hold it.
    pub fn checked_sub(&self, other: &KubeQuantity) -> (r: Result<KubeQuantity, QuantityError>)
        ensures
            r matches Ok(q) ==> qarith(self@, other@, true) == Some(q@),
            r matches Err(e) ==> qarith(self@, other@, true) is None && e@ == QErr::ArithmeticOverflow,
    {
        self.arith(other, true)
    }

    /// Whether the quantity is a whole number.
    pub fn is_integer(&self) -> (r: bool)
        requires
            self@.1 != i32::MIN,
        ensures
            qis_integer(self@) == Ok::<bool, QErr>(r),
    {
        if self.scale >= 0 {
            return true;
        }
        proof {
            lemma_pow10_pos((-self.scale) as nat);
        }
        match pow10_checked((-self.scale) as u64) {
            Some(d) => {
                proof {
                    lemma_div_abs(self.mantissa as int, d as int);
                }
                magnitude(self.mantissa) % (d as u128) == 0
            },
            None => false,
        }
    }

    /// The quantity as an `i64`.
    pub fn as_integer(&self) -> (r: Result<i64, QuantityError>)
        requires
            self@.1 != i32::MIN,
        ensures
            r matches Ok(v) ==> qas_integer(self@) == Ok::<int, QErr>(v as int),
            r matches Err(e) ==> qas_integer(self@) == Err::<int, QErr>(e@),
    {
        if self.scale >= 0 {
            let p = match pow10_checked(self.scale as u64) {
                Some(p) => p,
                None => return Err(QuantityError::TooLargeForInteger),
            };
            let v = match self.mantissa.checked_mul(p) {
                Some(v) => v,
                None => return Err(QuantityError::TooLargeForInteger),
            };
            if v < i64::MIN as i128 || v > i64::MAX as i128 {
                return Err(QuantityError::TooLargeForInteger);
            }
            Ok(v as i64)
        } else {
            proof {
                lemma_pow10_pos((-self.scale) as nat);
            }
            let p = match pow10_checked((-self.scale) as u64) {
                Some(p) => p,
                None => return Err(QuantityError::TooLargeForInteger),
            };
            let mag = magnitude(self.mantissa);
            proof {
                lemma_div_abs(self.mantissa as int, p as int);
            }
            if mag % (p as u128) != 0 {
                return Err(QuantityError::NotAnInteger);
            }
            let q: u128 = mag / (p as u128);
            if q > 0x8000_0000_0000_0000u128 {
                return Err(QuantityError::TooLargeForInteger);
            }
            let v: i128 = if self.mantissa < 0 {
                -(q as i128)
            } else {
                q as i128
            };
            if v < i64::MIN as i128 || v > i64::MAX as i128 {
                return Err(QuantityError::TooLargeForInteger);
            }
            Ok(v as i64)
        }
    }
}

/// Characters that may appear in the numeric part of a quantity.
pub open spec fn is_num_char(c: char) -> bool {
    is_digit(c) || c == '.' || c == '-' || c == '+'
}

/// Characters that may follow `e` in a decimal exponent.
pub open spec fn is_exp_char(c: char) -> bool {
    is_digit(c) || c == '+' || c == '-'
}

/// Every character of `s` may follow `e` in an exponent.
pub open spec fn all_exp_chars(s: Seq<char>) -> bool {
    forall|i: int| 0 <= i < s.len() ==> is_exp_char(#[trigger] s[i])
}

/// A decimal number without exponent: `(mantissa, decimal shift)`.
pub open spec fn decimal_spec(d: Seq<char>) -> Result<(int, int), QErr> {
    let k = leading(d, |x: char| x != '.');
    if k < d.len() {
        match parse_int(d.take(k as int) + d.skip((k + 1) as int), i128::MIN as int, i128::MAX as int, true) {
            Some(m) => Ok((m, -(d.len() - k - 1))),
            None => Err(QErr::InvalidNumber(d)),
        }
    } else {
        match parse_int(d, i128::MIN as int, i128::MAX as int, true) {
            Some(m) => Ok((m, 0)),
            None => Err(QErr::InvalidNumber(d)),
        }
    }
}

/// A decimal number with optional `e`/`E` exponent: `(mantissa, shift)`.
pub open spec fn number_spec(p: Seq<char>) -> Result<(int, int), QErr> {
    let e = leading(p, |x: char| x != 'e' && x != 'E');
    if e < p.len() {
        match decimal_spec(p.take(e as int)) {
            Err(x) => Err(x),
            Ok((m, sh)) => match parse_int(p.skip((e + 1) as int), i32::MIN as int, i32::MAX as int, true) {
                None => Err(QErr::InvalidExponent(p)),
                Some(x) => if in_i32(sh + x) {
                    Ok((m, sh + x))
                } else {
                    Err(QErr::ArithmeticOverflow)
                },
            },
        }
    } else {
        decimal_spec(p)
    }
}

/// The SI suffixes: `(decimal scale, multiplier)`.
pub open spec fn suffix_info(x: Seq<char>) -> Option<(int, int)> {
    if x.len() == 0 {
        Some((0, 1))
    } else if x.len() == 1 {
        let c = x[0];
        if c == 'n' {
            Some((-9, 1))
        } else if c == 'u' {
            Some((-6, 1))
        } else if c == 'm' {
            Some((-3, 1))
        } else if c == 'k' {
            Some((3, 1))
        } else if c == 'M' {
            Some((6, 1))
        } else if c == 'G' {
            Some((9, 1))
        } else if c == 'T' {
            Some((12, 1))
        } else if c == 'P' {
            Some((15, 1))
        } else if c == 'E' {
            Some((18, 1))
        } else {
            None
        }
    } else if x.len() == 2 && x[1] == 'i' {
        let c = x[0];
        if c == 'K' {
            Some((0, 1024))
        } else if c == 'M' {
            Some((0, 1048576))
        } else if c == 'G' {
            Some((0, 1073741824))
        } else if c == 'T' {
            Some((0, 1099511627776))
        } else if c == 'P' {
            Some((0, 1125899906842624))
        } else if c == 'E' {
            Some((0, 1152921504606846976))
        } else {
            None
        }
    } else {
        None
    }
}

/// Whether the part after the number is a decimal exponent (`e3`, `E-2`)
/// rather than a suffix.
pub open spec fn is_exponent_tail(rest: Seq<char>) -> bool {
    rest.len() > 1 && (rest[0] == 'e' || rest[0] == 'E') && !(rest[0] == 'E' && rest[1] == 'i')
        && all_exp_chars(rest.skip(1))
}

/// The quantity that `s` denotes, as a normal `(mantissa, scale)` pair.
pub open spec fn parse_quantity_spec(s: Seq<char>) -> Result<(int, int), QErr> {
    let t = trim_seq(s);
    if t.len() == 0 {
        Err(QErr::Empty)
    } else {
        let ne = leading(t, |c: char| is_num_char(c));
        let rest = t.skip(ne as int);
        let expo = is_exponent_tail(rest);
        let np = if expo {
            t
        } else {
            t.take(ne as int)
        };
        let sfx = if expo {
            Seq::<char>::empty()
        } else {
            rest
        };
        if np.len() == 0 {
            Err(QErr::NoNumericValue(t))
        } else {
            match number_spec(np) {
                Err(x) => Err(x),
                Ok((m, sh)) => match suffix_info(sfx) {
                    None => Err(QErr::UnknownSuffix(sfx)),
                    Some((sc, mult)) => if !in_i128(m * mult) {
                        Err(QErr::Overflow(t))
                    } else if !in_i32(sh + sc) || norm(m * mult, sh + sc).1 > i32::MAX {
                        Err(QErr::ArithmeticOverflow)
                    } else {
                        Ok(norm(m * mult, sh + sc))
                    },
                },
            }
        }
    }
}

fn parse_decimal_at(t: &Vec<char>, from: usize, to: usize) -> (r: Result<(i128, i32), QuantityError>)
    requires
        from <= to <= t@.len(),
        to - from <= i32::MAX,
    ensures
        match (r, decimal_spec(t@.subrange(from as int, to as int))) {
            (Ok((m, sh)), Ok((sm, ssh))) => m as int == sm && sh as int == ssh,
            (Err(e), Err(se)) => e@ == se,
            _ => false,
        },
{
    let ghost d = t@.subrange(from as int, to as int);
    let k = find_char(t, from, to, '.');
    if k < to - from {
        let a = sub_vec(t, from, from + k);
        let b = sub_vec(t, from + k + 1, to);
        let c = vec_concat(&a, &b);
        proof {
            assert(a@ =~= d.take(k as int));
            assert(b@ =~= d.skip(k + 1));
        }
        match parse_int_range(&c, 0, c.len(), i128::MIN, i128::MAX, true) {
            Some(m) => {
                proof {
                    assert(c@.subrange(0, c@.len() as int) =~= c@);
                }
                let places: i32 = (to - from - k - 1) as i32;
                Ok((m, -places))
            },
            None => {
                proof {
                    assert(c@.subrange(0, c@.len() as int) =~= c@);
                }
                Err(QuantityError::InvalidNumber(string_from_range(t, from, to)))
            },
        }
    } else {
        match parse_int_range(t, from, to, i128::MIN, i128::MAX, true) {
            Some(m) => Ok((m, 0)),
            None => Err(QuantityError::InvalidNumber(string_from_range(t, from, to))),
        }
    }
}

fn find_exponent_mark(t: &Vec<char>, from: usize, to: usize) -> (k: usize)
    requires
        from <= to <= t@.len(),
    ensures
        k == leading(t@.subrange(from as int, to as int), |x: char| x != 'e' && x != 'E'),
        k <= to - from,
{
    let mut i: usize = from;
    while i < to && t[i] != 'e' && t[i] != 'E'
        invariant
            from <= i <= to <= t@.len(),
            forall|j: int| from <= j < i ==> #[trigger] t@[j] != 'e' && t@[j] != 'E',
        decreases to - i,
    {
        i = i + 1;
    }
    proof {
        let s = t@.subrange(from as int, to as int);
        let p = |x: char| x != 'e' && x != 'E';
        assert forall|j: int| 0 <= j < i - from implies #[trigger] p(s[j]) by {
            assert(s[j] == t@[from + j]);
        }
        crate::text::lemma_leading(s, p, (i - from) as int);
    }
    i - from
}

fn parse_number_at(t: &Vec<char>, from: usize, to: usize) -> (r: Result<(i128, i32), QuantityError>)
    requires
        from <= to <= t@.len(),
        to - from <= i32::MAX,
    ensures
        match (r, number_spec(t@.subrange(from as int, to as int))) {
            (Ok((m, sh)), Ok((sm, ssh))) => m as int == sm && sh as int == ssh,
            (Err(e), Err(se)) => e@ == se,
            _ => false,
        },
{
    let ghost p = t@.subrange(from as int, to as int);
    let e = find_exponent_mark(t, from, to);
    if e < to - from {
        proof {
            assert(t@.subrange(from as int, from + e) =~= p.take(e as int));
            assert(t@.subrange(from + e + 1, to as int) =~= p.skip(e + 1));
        }
        let (m, sh) = match parse_decimal_at(t, from, from + e) {
            Ok(x) => x,
            Err(err) => return Err(err),
        };
        match parse_int_range(t, from + e + 1, to, i32::MIN as i128, i32::MAX as i128, true) {
            None => Err(QuantityError::InvalidExponent(string_from_range(t, from, to))),
            Some(x) => {
                let total: i128 = sh as i128 + x;
                if total < i32::MIN as i128 || total > i32::MAX as i128 {
                    Err(QuantityError::ArithmeticOverflow)
                } else {
                    Ok((m, total as i32))
                }
            },
        }
    } else {
        parse_decimal_at(t, from, to)
    }
}

fn parse_suffix_at(t: &Vec<char>, from: usize, to: usize) -> (r: Option<(i32, i128)>)
    requires
        from <= to <= t@.len(),
    ensures
        match (r, suffix_info(t@.subrange(from as int, to as int))) {
            (Some((a, b)), Some((sa, sb))) => a as int == sa && b as int == sb,
            (None, None) => true,
            _ => false,
        },
{
    let n = to - from;
    if n == 0 {
        return Some((0, 1));
    }
    let c = t[from];
    if n == 1 {
        if c == 'n' {
            Some((-9, 1))
        } else if c == 'u' {
            Some((-6, 1))
        } else if c == 'm' {
            Some((-3, 1))
        } else if c == 'k' {
            Some((3, 1))
        } else if c == 'M' {
            Some((6, 1))
        } else if c == 'G' {
            Some((9, 1))
        } else if c == 'T' {
            Some((12, 1))
        } else if c == 'P' {
            Some((15, 1))
        } else if c == 'E' {
            Some((18, 1))
        } else {
            None
        }
    } else if n == 2 && t[from + 1] == 'i' {
        if c == 'K' {
            Some((0, 1024))
        } else if c == 'M' {
            Some((0, 1048576))
        } else if c == 'G' {
            Some((0, 1073741824))
        } else if c == 'T' {
            Some((0, 1099511627776))
        } else if c == 'P' {
            Some((0, 1125899906842624))
        } else if c == 'E' {
            Some((0, 1152921504606846976))
        } else {
            None
        }
    } else {
        None
    }
}

/// Parses a decimal number without exponent: `"1.5"` is `(15, -1)`,
/// `"100"` is `(100, 0)`.
pub fn parse_decimal(s: &str) -> (r: Result<(i128, i32), QuantityError>)
    requires
        s@.len() <= i32::MAX,
    ensures
        match (r, decimal_spec(s@)) {
            (Ok((m, sh)), Ok((sm, ssh))) => m as int == sm && sh as int == ssh,
            (Err(e), Err(se)) => e@ == se,
            _ => false,
        },
{
    let t = chars_of(s);
    proof {
        assert(t@.subrange(0, t@.len() as int) =~= t@);
    }
    parse_decimal_at(&t, 0, t.len())
}

/// Parses a number with an optional exponent: `"1e3"` is `(1, 3)`,
/// `"1.5"` is `(15, -1)`.
pub fn parse_number(s: &str) -> (r: Result<(i128, i32), QuantityError>)
    requires
        s@.len() <= i32::MAX,
        number_spec(s@) != Err::<(int, int), QErr>(QErr::ArithmeticOverflow),
    ensures
        match (r, number_spec(s@)) {
            (Ok((m, sh)), Ok((sm, ssh))) => m as int == sm && sh as int == ssh,
            (Err(e), Err(se)) => e@ == se,
            _ => false,
        },
{
    let t = chars_of(s);
    proof {
        assert(t@.subrange(0, t@.len() as int) =~= t@);
    }
    parse_number_at(&t, 0, t.len())
}

/// The scale offset of an SI suffix, with the multiplier of a binary suffix
/// (`"k"` is `(3, None)`, `"Ki"` is `(0, Some(1024))`).
pub fn parse_suffix(suffix: &str) -> (r: Result<(i32, Option<i128>), QuantityError>)
    ensures
        match (r, suffix_info(suffix@)) {
            (Ok((sc, mult)), Some((ssc, smult))) => sc as int == ssc && (mult matches Some(x) ==> x
                as int == smult && smult != 1) && (mult is None ==> smult == 1),
            (Err(e), None) => e@ == QErr::UnknownSuffix(suffix@),
            _ => false,
        },
{
    let t = chars_of(suffix);
    proof {
        assert(t@.subrange(0, t@.len() as int) =~= t@);
    }
    match parse_suffix_at(&t, 0, t.len()) {
        Some((sc, mult)) => {
            if mult == 1 {
                Ok((sc, None))
            } else {
                Ok((sc, Some(mult)))
            }
        },
        None => Err(QuantityError::UnknownSuffix(crate::text::string_of(suffix))),
    }
}

/// Parses a Kubernetes quantity (`"100"`, `"1.5Gi"`, `"500m"`, `"1e3"`).
///
/// Leading and trailing Unicode whitespace is ignored. The result is exactly
/// [`parse_quantity_spec`]: which error comes for which input, and the normal
/// form of the value otherwise.
pub fn parse_quantity(s: &str) -> (r: Result<KubeQuantity, QuantityError>)
    requires
        s@.len() <= i32::MAX,
        parse_quantity_spec(s@) != Err::<(int, int), QErr>(QErr::ArithmeticOverflow),
    ensures
        r matches Ok(q) ==> parse_quantity_spec(s@) == Ok::<(int, int), QErr>(q@),
        r matches Err(e) ==> parse_quantity_spec(s@) == Err::<(int, int), QErr>(e@),
{
    parse_quantity_checked(s)
}

/// [`parse_quantity`] on every input: `ArithmeticOverflow` where the scale
/// arithmetic leaves `i32`.
pub fn parse_quantity_checked(s: &str) -> (r: Result<KubeQuantity, QuantityError>)
    requires
        s@.len() <= i32::MAX,
    ensures
        r matches Ok(q) ==> parse_quantity_spec(s@) == Ok::<(int, int), QErr>(q@),
        r matches Err(e) ==> parse_quantity_spec(s@) == Err::<(int, int), QErr>(e@),
{
    let v = chars_of(s);
    let (a, b) = trim_bounds(&v);
    let t = sub_vec(&v, a, b);
    let ghost ts = trim_seq(s@);
    proof {
        assert(t@ == ts);
    }
    let n = t.len();
    if n == 0 {
        return Err(QuantityError::Empty);
    }
    let mut ne: usize = 0;
    while ne < n && (crate::text::is_digit_char(t[ne]) || t[ne] == '.' || t[ne] == '-' || t[ne]
        == '+')
        invariant
            ne <= n == t@.len(),
            forall|j: int| 0 <= j < ne ==> is_num_char(#[trigger] t@[j]),
        decreases n - ne,
    {
        ne = ne + 1;
    }
    proof {
        crate::text::lemma_leading(t@, |c: char| is_num_char(c), ne as int);
    }
    let ghost rest = t@.skip(ne as int);
    let mut expo = false;
    if n - ne > 1 && (t[ne] == 'e' || t[ne] == 'E') && !(t[ne] == 'E' && t[ne + 1] == 'i') {
        let mut j: usize = ne + 1;
        while j < n && (crate::text::is_digit_char(t[j]) || t[j] == '+' || t[j] == '-')
            invariant
                ne + 1 <= j <= n == t@.len(),
                forall|q: int| ne + 1 <= q < j ==> is_exp_char(#[trigger] t@[q]),
            decreases n - j,
        {
            j = j + 1;
        }
        expo = j == n;
        proof {
            let r1 = rest.skip(1);
            if expo {
                assert forall|q: int| 0 <= q < r1.len() implies is_exp_char(#[trigger] r1[q]) by {
                    assert(r1[q] == t@[ne + 1 + q]);
                }
            } else {
                assert(r1[j - ne - 1] == t@[j as int]);
            }
        }
    }
    proof {
        assert(expo == is_exponent_tail(rest));
    }
    let (np_end, sfx_from, sfx_to): (usize, usize, usize) = if expo {
        (n, n, n)
    } else {
        (ne, ne, n)
    };
    proof {
        if expo {
            assert(t@.subrange(0, n as int) =~= t@);
            assert(t@.subrange(n as int, n as int) =~= Seq::<char>::empty());
        } else {
            assert(t@.subrange(0, ne as int) =~= t@.take(ne as int));
            assert(t@.subrange(ne as int, n as int) =~= rest);
        }
    }
    if np_end == 0 {
        proof {
            assert(t@.subrange(0, n as int) =~= t@);
        }
        return Err(QuantityError::NoNumericValue(string_from_range(&t, 0, n)));
    }
    let (m, sh) = match parse_number_at(&t, 0, np_end) {
        Ok(x) => x,
        Err(e) => return Err(e),
    };
    let (sc, mult) = match parse_suffix_at(&t, sfx_from, sfx_to) {
        Some(x) => x,
        None => return Err(QuantityError::UnknownSuffix(string_from_range(&t, sfx_from, sfx_to))),
    };
    let mm = match m.checked_mul(mult) {
        Some(x) => x,
        None => {
            proof {
                assert(t@.subrange(0, n as int) =~= t@);
            }
            return Err(QuantityError::Overflow(string_from_range(&t, 0, n)));
        },
    };
    let total: i64 = sh as i64 + sc as i64;
    if total < i32::MIN as i64 || total > i32::MAX as i64 {
        return Err(QuantityError::ArithmeticOverflow);
    }
    KubeQuantity::try_new(mm, total as i32)
}

impl KubeQuantity {
    /// The decimal text of the quantity (`"1500"`, `"0.5"`, `"-0.5"`).
    pub fn to_string(&self) -> (r: String)
        ensures
            r@ == quantity_text(self@.0, self@.1),
    {
        let mut out = String::new();
        if self.scale >= 0 {
            push_signed_decimal(&mut out, self.mantissa);
            let mut i: i32 = 0;
            while i < self.scale
                invariant
                    0 <= i <= self.scale,
                    out@ == int_text(self.mantissa as int) + repeat_char('0', i as nat),
                decreases self.scale - i,
            {
                push_char(&mut out, '0');
                i = i + 1;
                proof {
                    assert(out@ =~= int_text(self.mantissa as int) + repeat_char('0', i as nat));
                }
            }
            proof {
                assert(out@ =~= quantity_text(self@.0, self@.1));
            }
            return out;
        }
        let k: u64 = (-(self.scale as i64)) as u64;
        let ghost sign: Seq<char> = if self.mantissa < 0 {
            seq!['-']
        } else {
            Seq::<char>::empty()
        };
        if self.mantissa < 0 {
            push_char(&mut out, '-');
        }
        proof {
            assert(out@ =~= sign);
        }
        let mut ds = String::new();
        push_decimal(&mut ds, magnitude(self.mantissa));
        let d = chars_of(ds.as_str());
        let ghost dd = dec_digits(abs(self.mantissa as int) as nat);
        proof {
            assert(d@ =~= dd);
        }
        let dl = d.len();
        if (dl as u64) <= k {
            push_char(&mut out, '0');
            push_char(&mut out, '.');
            let zeros: u64 = k - dl as u64;
            let mut i: u64 = 0;
            while i < zeros
                invariant
                    i <= zeros,
                    out@ == sign + seq!['0', '.'] + repeat_char('0', i as nat),
                decreases zeros - i,
            {
                push_char(&mut out, '0');
                i = i + 1;
                proof {
                    assert(out@ =~= sign + seq!['0', '.'] + repeat_char('0', i as nat));
                }
            }
            let tail = string_from_range(&d, 0, dl);
            crate::text::push_str(&mut out, tail.as_str());
            proof {
                assert(d@.subrange(0, dl as int) =~= dd);
                assert(out@ =~= quantity_text(self@.0, self@.1));
            }
        } else {
            let split: usize = dl - k as usize;
            let head = string_from_range(&d, 0, split);
            crate::text::push_str(&mut out, head.as_str());
            push_char(&mut out, '.');
            let tail = string_from_range(&d, split, dl);
            crate::text::push_str(&mut out, tail.as_str());
            proof {
                assert(d@.subrange(0, split as int) =~= dd.take(split as int));
                assert(d@.subrange(split as int, dl as int) =~= dd.skip(split as int));
                assert(out@ =~= quantity_text(self@.0, self@.1));
            }
        }
        out
    }
}

/// The message text of a quantity error.
pub open spec fn qerr_text(e: QErr) -> Seq<char> {
    match e {
        QErr::Empty => "empty quantity string"@,
        QErr::NoNumericValue(t) => "no numeric value in '"@ + t + "'"@,
        QErr::InvalidExponent(t) => "invalid exponent in '"@ + t + "'"@,
        QErr::InvalidNumber(t) => "invalid number: '"@ + t + "'"@,
        QErr::UnknownSuffix(t) => "unknown quantity suffix: '"@ + t + "'"@,
        QErr::Overflow(t) => "quantity overflow: '"@ + t + "'"@,
        QErr::TooLargeForInteger => "quantity too large for integer"@,
        QErr::NotAnInteger => "quantity is not an integer"@,
        QErr::ArithmeticOverflow => "arithmetic overflow"@,
    }
}

fn quoted(prefix: &str, body: &String) -> (r: String)
    ensures
        r@ == prefix@ + body@ + "'"@,
{
    let mut r = crate::text::string_of(prefix);
    crate::text::push_str(&mut r, body.as_str());
    crate::text::push_str(&mut r, "'");
    r
}

impl QuantityError {
    /// The human-readable message.
    pub fn message(&self) -> (r: String)
        ensures
            r@ == qerr_text(self@),
    {
        match self {
            QuantityError::Empty => crate::text::string_of("empty quantity string"),
            QuantityError::NoNumericValue(t) => quoted("no numeric value in '", t),
            QuantityError::InvalidExponent(t) => quoted("invalid exponent in '", t),
            QuantityError::InvalidNumber(t) => quoted("invalid number: '", t),
            QuantityError::UnknownSuffix(t) => quoted("unknown quantity suffix: '", t),
            QuantityError::Overflow(t) => quoted("quantity overflow: '", t),
            QuantityError::TooLargeForInteger => crate::text::string_of(
                "quantity too large for integer",
            ),
            QuantityError::NotAnInteger => crate::text::string_of("quantity is not an integer"),
            QuantityError::ArithmeticOverflow => crate::text::string_of("arithmetic overflow"),
        }
    }
}

/// Comparison is antisymmetric: swapping the operands negates the result,
/// and both directions overflow together.
pub proof fn law_compare_antisymmetric(a: (int, int), b: (int, int))
    ensures
        qorder(a, b) is None <==> qorder(b, a) is None,
        qorder(a, b) matches Some(c) ==> qorder(b, a) == Some(-c),
{
}

/// Two quantities in normal form compare equal exactly when they are the
/// same quantity (so `1k`, `1000` and `1e3` are one value).
pub proof fn law_compare_equal_iff_same(a: (int, int), b: (int, int))
    requires
        is_normal(a.0, a.1),
        is_normal(b.0, b.1),
        qorder(a, b) is Some,
    ensures
        qorder(a, b) == Some(0int) <==> a == b,
{
    if qorder(a, b) == Some(0int) {
        if a.1 < b.1 {
            lemma_normal_equal_value(a, b);
        } else if b.1 < a.1 {
            lemma_normal_equal_value(b, a);
        }
    }
}

proof fn lemma_normal_equal_value(a: (int, int), b: (int, int))
    requires
        a.1 < b.1,
        rescale(b.0, b.1, a.1) == Some(a.0),
    ensures
        !(is_normal(a.0, a.1) && is_normal(b.0, b.1)),
{
    let k = (b.1 - a.1) as nat;
    let p = pow10(k);
    assert(p == 10 * pow10((k - 1) as nat));
    let q = b.0 * pow10((k - 1) as nat);
    assert(a.0 == 10 * q) by (nonlinear_arith)
        requires
            a.0 == b.0 * p,
            p == 10 * pow10((k - 1) as nat),
            q == b.0 * pow10((k - 1) as nat),
    ;
    assert(a.0 % 10 == 0) by (nonlinear_arith)
        requires
            a.0 == 10 * q,
    ;
    if a.0 == 0 {
        lemma_pow10_pos(k);
        assert(b.0 == 0) by (nonlinear_arith)
            requires
                0 == b.0 * p,
                p >= 1,
        ;
    }
}

/// Comparing equal is an equivalence: every quantity compares equal to
/// itself, and (in normal form) equal compares are symmetric and transitive.
pub proof fn law_compare_equal_is_equivalence(a: (int, int), b: (int, int), c: (int, int))
    requires
        is_normal(a.0, a.1),
        is_normal(b.0, b.1),
        is_normal(c.0, c.1),
    ensures
        qorder(a, a) == Some(0int),
        qorder(a, b) == Some(0int) ==> qorder(b, a) == Some(0int),
        qorder(a, b) == Some(0int) && qorder(b, c) == Some(0int) ==> qorder(a, c) == Some(0int),
{
    law_compare_antisymmetric(a, b);
    if qorder(a, b) == Some(0int) && qorder(b, c) == Some(0int) {
        law_compare_equal_iff_same(a, b);
        law_compare_equal_iff_same(b, c);
    }
}

/// Addition does not depend on the order of the operands.
pub proof fn law_add_commutative(a: (int, int), b: (int, int))
    ensures
        qarith(a, b, false) == qarith(b, a, false),
{
    assert(min_scale(a.1, b.1) == min_scale(b.1, a.1));
}

/// A quantity minus itself is zero (when the rescaling does not overflow).
pub proof fn law_sub_self_is_zero(a: (int, int))
    requires
        in_i32(a.1),
        in_i128(a.0),
    ensures
        qarith(a, a, true) == Some((0int, 0int)),
{
}

/// `sign` agrees with comparing against zero.
pub proof fn law_sign_is_compare_with_zero(a: (int, int))
    requires
        is_normal(a.0, a.1),
        in_i32(a.1),
        in_i128(a.0),
    ensures
        qorder(a, (0, 0)) == Some(sign_of(a.0)) || qorder(a, (0, 0)) is None,
{
    let ms = min_scale(a.1, 0);
    if let (Some(x), Some(y)) = (rescale(a.0, a.1, ms), rescale(0, 0, ms)) {
        let d = a.1 - ms;
        if d > 0 {
            lemma_pow10_pos(d as nat);
            assert((a.0 < 0) == (a.0 * pow10(d as nat) < 0)) by (nonlinear_arith)
                requires
                    pow10(d as nat) >= 1,
            ;
            assert((a.0 == 0) == (a.0 * pow10(d as nat) == 0)) by (nonlinear_arith)
                requires
                    pow10(d as nat) >= 1,
            ;
        }
        let d0 = 0 - ms;
        if d0 > 0 {
            assert(0 * pow10(d0 as nat) == 0);
        }
    }
}

/// The value of the pair `q` counted in units of `10^base` (for `base` at
/// most its scale).
pub open spec fn units(q: (int, int), base: int) -> int {
    q.0 * pow10((q.1 - base) as nat)
}

proof fn lemma_pow10_split(m: int, s: int, mid: int, base: int)
    requires
        base <= mid <= s,
    ensures
        m * pow10((s - mid) as nat) * pow10((mid - base) as nat) == m * pow10((s - base) as nat),
{
    lemma_pow10_add((s - mid) as nat, (mid - base) as nat);
    assert(((s - mid) as nat + (mid - base) as nat) as nat == (s - base) as nat);
    let p1 = pow10((s - mid) as nat);
    let p2 = pow10((mid - base) as nat);
    assert(m * p1 * p2 == m * (p1 * p2)) by (nonlinear_arith);
}

proof fn lemma_rescale_units(m: int, from: int, to: int)
    requires
        to <= from,
        rescale(m, from, to) is Some,
    ensures
        rescale(m, from, to) == Some(m * pow10((from - to) as nat)),
{
    if from - to <= 0 {
        assert(pow10(0) == 1);
        assert(m * 1 == m);
    }
}

/// Two normal pairs worth the same number of units are the same pair.
proof fn lemma_normal_unique(p: (int, int), q: (int, int), base: int)
    requires
        is_normal(p.0, p.1),
        is_normal(q.0, q.1),
        base <= p.1,
        base <= q.1,
        units(p, base) == units(q, base),
    ensures
        p == q,
    decreases (if p.1 > q.1 {
        1int
    } else {
        0int
    }),
{
    if p.1 > q.1 {
        lemma_normal_unique(q, p, base);
    } else {
        let k = (q.1 - p.1) as nat;
        let pb = pow10((p.1 - base) as nat);
        lemma_pow10_pos((p.1 - base) as nat);
        lemma_pow10_split(q.0, q.1, p.1, base);
        let qk = q.0 * pow10(k);
        assert(qk * pb == p.0 * pb);
        assert(qk == p.0) by (nonlinear_arith)
            requires
                qk * pb == p.0 * pb,
                pb >= 1,
        ;
        if k > 0 {
            assert(pow10(k) == 10 * pow10((k - 1) as nat));
            let r = q.0 * pow10((k - 1) as nat);
            assert(p.0 == 10 * r) by (nonlinear_arith)
                requires
                    p.0 == q.0 * pow10(k),
                    pow10(k) == 10 * pow10((k - 1) as nat),
                    r == q.0 * pow10((k - 1) as nat),
            ;
            assert(p.0 % 10 == 0) by (nonlinear_arith)
                requires
                    p.0 == 10 * r,
            ;
            lemma_pow10_pos(k);
            assert(q.0 == 0) by (nonlinear_arith)
                requires
                    0 == q.0 * pow10(k),
                    pow10(k) >= 1,
            ;
        } else {
            assert(pow10(0) == 1);
        }
    }
}

/// `norm(m, s)` counted in units of `10^base`, for `base` at most `s`.
proof fn lemma_norm_units(m: int, s: int, base: int)
    requires
        base <= s,
        m != 0,
    ensures
        norm(m, s).1 >= base,
        units(norm(m, s), base) == m * pow10((s - base) as nat),
{
    lemma_norm(m, s);
    let n = norm(m, s);
    lemma_pow10_split(n.0, n.1, s, base);
}

/// Subtracting what was added gives back the quantity one started from,
/// whenever neither step overflows.
pub proof fn law_sub_undoes_add(a: (int, int), b: (int, int))
    requires
        is_normal(a.0, a.1),
        qarith(a, b, false) is Some,
        qarith(qarith(a, b, false).unwrap(), b, true) is Some,
    ensures
        qarith(qarith(a, b, false).unwrap(), b, true) == Some(a),
{
    let c = qarith(a, b, false).unwrap();
    let d = qarith(c, b, true).unwrap();
    let ms = min_scale(a.1, b.1);
    let ms2 = min_scale(c.1, b.1);
    let base = min_scale(ms, ms2);
    lemma_rescale_units(a.0, a.1, ms);
    lemma_rescale_units(b.0, b.1, ms);
    lemma_rescale_units(c.0, c.1, ms2);
    lemma_rescale_units(b.0, b.1, ms2);
    let x = a.0 * pow10((a.1 - ms) as nat);
    let y = b.0 * pow10((b.1 - ms) as nat);
    let x2 = c.0 * pow10((c.1 - ms2) as nat);
    let y2 = b.0 * pow10((b.1 - ms2) as nat);
    assert(c == norm(x + y, ms));
    assert(d == norm(x2 - y2, ms2));
    let pm = pow10((ms - base) as nat);
    let pm2 = pow10((ms2 - base) as nat);
    // a and b in units of 10^base
    lemma_pow10_split(a.0, a.1, ms, base);
    lemma_pow10_split(b.0, b.1, ms, base);
    lemma_pow10_split(c.0, c.1, ms2, base);
    lemma_pow10_split(b.0, b.1, ms2, base);
    assert(x * pm == units(a, base));
    assert(y * pm == units(b, base));
    assert(x2 * pm2 == units(c, base));
    assert(y2 * pm2 == units(b, base));
    // c is worth a + b
    if x + y != 0 {
        lemma_norm_units(x + y, ms, base);
        assert((x + y) * pm == x * pm + y * pm) by (nonlinear_arith);
        assert(units(c, base) == units(a, base) + units(b, base));
    } else {
        assert(c == (0int, 0int));
        assert(x * pm + y * pm == (x + y) * pm) by (nonlinear_arith);
        let pc = pow10((c.1 - base) as nat);
        assert(units(c, base) == c.0 * pc);
        assert(c.0 * pc == 0) by (nonlinear_arith)
            requires
                c.0 == 0,
        ;
        assert(units(a, base) + units(b, base) == 0);
    }
    // d is worth c - b
    assert((x2 - y2) * pm2 == x2 * pm2 - y2 * pm2) by (nonlinear_arith);
    assert((x2 - y2) * pm2 == units(a, base));
    lemma_pow10_pos((ms2 - base) as nat);
    if x2 - y2 != 0 {
        lemma_norm_units(x2 - y2, ms2, base);
        assert(units(d, base) == units(a, base));
        lemma_norm(x2 - y2, ms2);
        lemma_normal_unique(a, d, base);
    } else {
        assert(d == (0int, 0int));
        assert(units(a, base) == 0);
        lemma_pow10_pos((a.1 - base) as nat);
        assert(a.0 == 0) by (nonlinear_arith)
            requires
                a.0 * pow10((a.1 - base) as nat) == 0,
                pow10((a.1 - base) as nat) >= 1,
        ;
    }
}

} // verus!
