//! Fixed-point decimal numbers.
//!
//! A [`Dec`] holds the two plain values that a `rust_decimal::Decimal` is made of:
//! a signed mantissa below 2^96 in magnitude and a scale of at most 28 decimal
//! places. Its numeric value is `mantissa / 10^scale`. Every arithmetic operation
//! is carried out by `rust_decimal` itself; the contracts below say what its source
//! guarantees of the result.
use rust_decimal::Decimal;
use vstd::prelude::*;

verus! {

/// Largest number of decimal places a value may carry.
pub const MAX_SCALE: u32 = 28;

/// 10 to the power `n`.
pub open spec fn pow10(n: nat) -> nat
    decreases n,
{
    if n == 0 {
        1
    } else {
        10 * pow10((n - 1) as nat)
    }
}

/// 2^96: every mantissa is strictly smaller than this in magnitude.
pub open spec fn mantissa_limit() -> int {
    0x1_0000_0000_0000_0000_0000_0000int
}

/// A (mantissa, scale) pair that denotes a decimal.
pub open spec fn dec_wf(v: (int, nat)) -> bool {
    &&& v.1 <= 28
    &&& -mantissa_limit() < v.0 < mantissa_limit()
}

/// The value of a (mantissa, scale) pair in units of 10^-28.
///
/// Every decimal is an integer multiple of 10^-28, so two decimals are equal in
/// value exactly when these integers are equal, and ordered as they are.
pub open spec fn dec_value(v: (int, nat)) -> int {
    v.0 * pow10((28 - v.1) as nat)
}

/// The value `v` (in units of 10^-28) can be written with at most `scale`
/// decimal places and a mantissa below 2^96.
pub open spec fn fits_at_scale(v: int, scale: nat) -> bool {
    &&& scale <= 28
    &&& v % (pow10((28 - scale) as nat) as int) == 0
    &&& -mantissa_limit() * pow10((28 - scale) as nat) < v < mantissa_limit() * pow10(
        (28 - scale) as nat,
    )
}

/// `d` is a non-zero divisor of `n` (both in units of 10^-28): `n / d` is an integer.
pub open spec fn divides_value(d: int, n: int) -> bool {
    d != 0 && n % d == 0
}

/// The exact quotient `n / d` of two values (both in units of 10^-28) is itself a
/// decimal: some `q` with `q * d == n * 10^28` fits at some scale.
pub open spec fn quotient_fits(n: int, d: int) -> bool {
    &&& d != 0
    &&& exists|q: int, s: nat| #[trigger] fits_at_scale(q, s) && q * d == n * pow10(28)
}

/// The result of `rust_decimal`'s `checked_add`.
pub uninterp spec fn decimal_checked_add(a: (int, nat), b: (int, nat)) -> Option<(int, nat)>;

/// The result of `rust_decimal`'s `checked_sub`.
pub uninterp spec fn decimal_checked_sub(a: (int, nat), b: (int, nat)) -> Option<(int, nat)>;

/// The result of `rust_decimal`'s `checked_mul`.
pub uninterp spec fn decimal_checked_mul(a: (int, nat), b: (int, nat)) -> Option<(int, nat)>;

/// The result of `rust_decimal`'s `checked_div`.
pub uninterp spec fn decimal_checked_div(a: (int, nat), b: (int, nat)) -> Option<(int, nat)>;

/// The result of `rust_decimal`'s `checked_rem`.
pub uninterp spec fn decimal_checked_rem(a: (int, nat), b: (int, nat)) -> Option<(int, nat)>;

/// The result of `rust_decimal`'s `sqrt`.
pub uninterp spec fn decimal_sqrt(a: (int, nat)) -> Option<(int, nat)>;

/// A decimal number: `mantissa / 10^scale`.
#[derive(Clone, Copy, Debug)]
pub struct Dec {
    m: i128,
    s: u32,
}

impl View for Dec {
    type V = (int, nat);

    closed spec fn view(&self) -> (int, nat) {
        (self.m as int, self.s as nat)
    }
}

/// The value of an optional decimal, when there is one.
pub open spec fn opt_view(o: Option<Dec>) -> Option<(int, nat)> {
    match o {
        Some(d) => Some(d@),
        None => None,
    }
}

impl Dec {
    #[verifier::type_invariant]
    closed spec fn inv(self) -> bool {
        dec_wf((self.m as int, self.s as nat))
    }

    /// The numeric value in units of 10^-28.
    pub open spec fn val(self) -> int {
        dec_value(self@)
    }

    /// Every decimal has a well-formed (mantissa, scale) pair.
    pub fn lemma_wf(&self)
        ensures
            dec_wf(self@),
    {
        proof {
            use_type_invariant(self);
        }
    }

    /// `mantissa / 10^scale`. Panics in `rust_decimal` (hence required here) when the
    /// scale exceeds 28.
    pub fn new(num: i64, scale: u32) -> (r: Dec)
        requires
            scale <= 28,
        ensures
            r@ == (num as int, scale as nat),
    {
        Dec { m: num as i128, s: scale }
    }

    /// The decimal with the given parts, or `None` when they are out of range.
    pub fn from_parts(mantissa: i128, scale: u32) -> (r: Option<Dec>)
        ensures
            r is Some <==> dec_wf((mantissa as int, scale as nat)),
            r matches Some(d) ==> d@ == (mantissa as int, scale as nat),
    {
        if scale <= 28 && -0xFFFF_FFFF_FFFF_FFFF_FFFF_FFFFi128 <= mantissa && mantissa
            <= 0xFFFF_FFFF_FFFF_FFFF_FFFF_FFFFi128 {
            Some(Dec { m: mantissa, s: scale })
        } else {
            None
        }
    }

    pub fn mantissa(&self) -> (r: i128)
        ensures
            r == self@.0,
    {
        self.m
    }

    pub fn scale(&self) -> (r: u32)
        ensures
            r == self@.1,
    {
        self.s
    }

    /// The decimal 0 (mantissa 0, scale 0).
    pub closed spec fn spec_zero() -> Dec {
        Dec { m: 0, s: 0 }
    }

    pub proof fn lemma_spec_zero()
        ensures
            Dec::spec_zero()@ == (0int, 0nat),
            Dec::spec_zero().val() == 0,
    {
    }

    /// The largest decimal, 2^96 - 1.
    pub closed spec fn spec_max_value() -> Dec {
        Dec { m: 0xFFFF_FFFF_FFFF_FFFF_FFFF_FFFFi128, s: 0 }
    }

    pub fn zero() -> (r: Dec)
        ensures
            r@ == (0int, 0nat),
            r.val() == 0,
            r == Dec::spec_zero(),
    {
        Dec { m: 0, s: 0 }
    }

    pub fn one() -> (r: Dec)
        ensures
            r@ == (1int, 0nat),
    {
        Dec { m: 1, s: 0 }
    }

    /// The largest decimal, 2^96 - 1.
    pub fn max_value() -> (r: Dec)
        ensures
            r@ == (mantissa_limit() - 1, 0nat),
            r == Dec::spec_max_value(),
    {
        Dec { m: 0xFFFF_FFFF_FFFF_FFFF_FFFF_FFFFi128, s: 0 }
    }

    pub fn from_u64(n: u64) -> (r: Dec)
        ensures
            r@ == (n as int, 0nat),
    {
        Dec { m: n as i128, s: 0 }
    }

    pub fn from_u32(n: u32) -> (r: Dec)
        ensures
            r@ == (n as int, 0nat),
    {
        Dec { m: n as i128, s: 0 }
    }

    pub fn from_i64(n: i64) -> (r: Dec)
        ensures
            r@ == (n as int, 0nat),
    {
        Dec { m: n as i128, s: 0 }
    }

    pub fn is_zero(&self) -> (r: bool)
        ensures
            r == (self.val() == 0),
    {
        proof {
            use_type_invariant(self);
            lemma_pow10_pos((28 - self.s) as nat);
            vstd::arithmetic::mul::lemma_mul_nonzero(self.m as int, pow10((28 - self.s) as nat) as int);
        }
        self.m == 0
    }

    /// The negation (`-x`), which only flips the sign.
    pub fn neg(&self) -> (r: Dec)
        ensures
            r@ == (-self@.0, self@.1),
            r.val() == -self.val(),
    {
        proof {
            use_type_invariant(self);
            vstd::arithmetic::mul::lemma_mul_unary_negation(self.m as int, pow10((28 - self.s) as nat) as int);
        }
        Dec { m: -self.m, s: self.s }
    }

    /// The absolute value, which only clears the sign.
    pub fn abs(&self) -> (r: Dec)
        ensures
            r@ == (if self@.0 < 0 { (-self@.0, self@.1) } else { self@ }),
            r.val() == if self.val() < 0 { -self.val() } else { self.val() },
    {
        proof {
            use_type_invariant(self);
            lemma_pow10_pos((28 - self.s) as nat);
            vstd::arithmetic::mul::lemma_mul_unary_negation(self.m as int, pow10((28 - self.s) as nat) as int);
            if self.m < 0 {
                vstd::arithmetic::mul::lemma_mul_strictly_positive(-self.m as int, pow10((28 - self.s) as nat) as int);
            } else {
                vstd::arithmetic::mul::lemma_mul_nonnegative(self.m as int, pow10((28 - self.s) as nat) as int);
            }
        }
        if self.m < 0 {
            Dec { m: -self.m, s: self.s }
        } else {
            Dec { m: self.m, s: self.s }
        }
    }

    /// `self < other`, comparing numeric values.
    pub fn lt(&self, other: &Dec) -> (r: bool)
        ensures
            r == (self.val() < other.val()),
    {
        decimal_lt(*self, *other)
    }

    /// `self <= other`, comparing numeric values.
    pub fn le(&self, other: &Dec) -> (r: bool)
        ensures
            r == (self.val() <= other.val()),
    {
        !decimal_lt(*other, *self)
    }

    /// `self > other`, comparing numeric values.
    pub fn gt(&self, other: &Dec) -> (r: bool)
        ensures
            r == (self.val() > other.val()),
    {
        decimal_lt(*other, *self)
    }

    /// `self >= other`, comparing numeric values.
    pub fn ge(&self, other: &Dec) -> (r: bool)
        ensures
            r == (self.val() >= other.val()),
    {
        !decimal_lt(*self, *other)
    }

    /// `self == other`, comparing numeric values (`1.0 == 1.00`).
    pub fn eq_val(&self, other: &Dec) -> (r: bool)
        ensures
            r == (self.val() == other.val()),
    {
        decimal_eq(*self, *other)
    }

    /// The smaller of two values; `self` when they are equal (as `Ord::min`).
    pub open spec fn spec_min(self, other: Dec) -> Dec {
        if other.val() < self.val() {
            other
        } else {
            self
        }
    }

    /// The larger of two values; `other` when they are equal (as `Ord::max`).
    pub open spec fn spec_max(self, other: Dec) -> Dec {
        if other.val() < self.val() {
            self
        } else {
            other
        }
    }

    /// The larger of two values; `other` when they are equal (as `Ord::max`).
    pub fn max(self, other: Dec) -> (r: Dec)
        ensures
            r == self.spec_max(other),
    {
        if other.lt(&self) {
            self
        } else {
            other
        }
    }

    /// The smaller of two values; `self` when they are equal (as `Ord::min`).
    pub fn min(self, other: Dec) -> (r: Dec)
        ensures
            r == self.spec_min(other),
    {
        if other.lt(&self) {
            other
        } else {
            self
        }
    }

    /// `self` limited to `[lo, hi]` (as `Ord::clamp`, which panics when `lo > hi`).
    pub fn clamp(self, lo: Dec, hi: Dec) -> (r: Dec)
        requires
            lo.val() <= hi.val(),
        ensures
            r == (if self.val() < lo.val() {
                lo
            } else if self.val() > hi.val() {
                hi
            } else {
                self
            }),
    {
        if self.lt(&lo) {
            lo
        } else if self.gt(&hi) {
            hi
        } else {
            self
        }
    }

    /// `self + other`, or `None` on overflow.
    pub fn checked_add(&self, other: &Dec) -> (r: Option<Dec>)
        ensures
            opt_view(r) == decimal_checked_add(self@, other@),
            fits_at_scale(self.val() + other.val(), max_nat(self@.1, other@.1)) ==> (r is Some
                && r.unwrap().val() == self.val() + other.val()),
            r matches Some(x) ==> x@.1 <= max_nat(self@.1, other@.1),
    {
        decimal_add(*self, *other)
    }

    /// `self - other`, or `None` on overflow.
    pub fn checked_sub(&self, other: &Dec) -> (r: Option<Dec>)
        ensures
            opt_view(r) == decimal_checked_sub(self@, other@),
            fits_at_scale(self.val() - other.val(), max_nat(self@.1, other@.1)) ==> (r is Some
                && r.unwrap().val() == self.val() - other.val()),
            r matches Some(x) ==> x@.1 <= max_nat(self@.1, other@.1),
    {
        decimal_sub(*self, *other)
    }

    /// `self * other`, or `None` on overflow.
    pub fn checked_mul(&self, other: &Dec) -> (r: Option<Dec>)
        ensures
            opt_view(r) == decimal_checked_mul(self@, other@),
            (self@.1 + other@.1 <= 28 && self@.0 * other@.0 != 0 && -mantissa_limit() < self@.0 * other@.0
                < mantissa_limit()) ==> (r is Some && r.unwrap()@ == (self@.0 * other@.0, (self@.1 + other@.1) as nat)),
            (self.val() == 0 || other.val() == 0) ==> (r is Some && r.unwrap().val() == 0),
    {
        decimal_mul(*self, *other)
    }

    /// `self / other`, or `None` on division by zero or overflow.
    pub fn checked_div(&self, other: &Dec) -> (r: Option<Dec>)
        ensures
            opt_view(r) == decimal_checked_div(self@, other@),
            other.val() == 0 ==> r is None,
            (other.val() != 0 && self.val() == 0) ==> (r is Some && r.unwrap().val() == 0),
            (other.val() >= pow10(28) || other.val() <= -pow10(28)) ==> r is Some,
            quotient_fits(self.val(), other.val()) ==> (r is Some && r.unwrap().val() * other.val() == self.val()
                * pow10(28)),
    {
        decimal_div(*self, *other)
    }

    /// `self % other`, or `None` on division by zero or overflow.
    pub fn checked_rem(&self, other: &Dec) -> (r: Option<Dec>)
        ensures
            opt_view(r) == decimal_checked_rem(self@, other@),
            other.val() == 0 ==> r is None,
            (other.val() != 0 && self@.1 >= other@.1) ==> r is Some,
            r matches Some(x) ==> (x.val() == 0 <==> divides_value(other.val(), self.val())),
    {
        decimal_rem(*self, *other)
    }

    /// The square root, or `None` for a negative value.
    pub fn sqrt(&self) -> (r: Option<Dec>)
        ensures
            opt_view(r) == decimal_sqrt(self@),
            self.val() < 0 ==> r is None,
    {
        decimal_sqrt_of(*self)
    }
}

pub open spec fn max_nat(a: nat, b: nat) -> nat {
    if a < b {
        b
    } else {
        a
    }
}

/// A whole number below 2^96 is a decimal of scale 0.
pub proof fn lemma_whole_fits(a: int)
    requires
        0 <= a < mantissa_limit(),
    ensures
        fits_at_scale(a * pow10(28), 0),
        dec_value((a, 0nat)) == a * pow10(28),
{
    lemma_pow10_pos(28);
    let p = pow10(28) as int;
    vstd::arithmetic::div_mod::lemma_mod_multiples_basic(a, p);
    assert(a * p < mantissa_limit() * p) by (nonlinear_arith)
        requires
            a < mantissa_limit(),
            p > 0,
    ;
    assert(-mantissa_limit() * p < a * p) by (nonlinear_arith)
        requires
            0 <= a,
            p > 0,
    ;
}

/// The product of two decimals, as the mantissas multiplied at the summed scale, is
/// worth the product of their values.
pub proof fn lemma_product_value(x: (int, nat), q: (int, nat))
    requires
        x.1 + q.1 <= 28,
    ensures
        dec_value((x.0 * q.0, (x.1 + q.1) as nat)) * pow10(28) == dec_value(x) * dec_value(q),
{
    let a = (28 - x.1) as nat;
    let b = (28 - q.1) as nat;
    let c = (28 - x.1 - q.1) as nat;
    lemma_pow10_add(a, b);
    lemma_pow10_add(c, 28);
    assert(a + b == c + 28);
    let pa = pow10(a) as int;
    let pb = pow10(b) as int;
    let pc = pow10(c) as int;
    let p = pow10(28) as int;
    assert((x.0 * q.0) * pc * p == (x.0 * pa) * (q.0 * pb)) by (nonlinear_arith)
        requires
            pa * pb == pc * p,
    ;
}

/// A decimal of at most `s` places whose value times `|k|` stays below 2^96 units of
/// 10^-s has a mantissa whose product with `k` stays below 2^96.
pub proof fn lemma_mantissa_product_bound(x: (int, nat), s: nat, k: int)
    requires
        x.1 <= s <= 28,
        -mantissa_limit() * pow10((28 - s) as nat) < dec_value(x) * k < mantissa_limit() * pow10((28 - s) as nat),
    ensures
        -mantissa_limit() < x.0 * k < mantissa_limit(),
{
    let d = pow10((28 - s) as nat) as int;
    let e = pow10((s - x.1) as nat) as int;
    lemma_pow10_add((28 - s) as nat, (s - x.1) as nat);
    assert(((28 - s) + (s - x.1)) as nat == (28 - x.1) as nat);
    lemma_pow10_pos((28 - s) as nat);
    lemma_pow10_pos((s - x.1) as nat);
    let l = mantissa_limit();
    let y = x.0 * k;
    assert(dec_value(x) * k == (y * e) * d) by (nonlinear_arith)
        requires
            dec_value(x) == x.0 * pow10((28 - x.1) as nat),
            pow10((28 - x.1) as nat) == d * e,
            y == x.0 * k,
    ;
    assert(-l < y < l) by (nonlinear_arith)
        requires
            -l * d < (y * e) * d < l * d,
            d > 0,
            e >= 1,
            l > 0,
    ;
}

/// One (10^28 units) is well below the 2^96 units a decimal of 28 places can hold.
pub proof fn lemma_unit_value()
    ensures
        pow10(28) == 10_000_000_000_000_000_000_000_000_000int,
        pow10(0) == 1,
        7 * pow10(28) < mantissa_limit(),
{
    reveal_with_fuel(pow10, 29);
    assert(pow10(28) == 10_000_000_000_000_000_000_000_000_000int);
}

/// `10^(a + b) == 10^a * 10^b`.
pub proof fn lemma_pow10_add(a: nat, b: nat)
    ensures
        pow10(a + b) == pow10(a) * pow10(b),
    decreases a,
{
    if a > 0 {
        lemma_pow10_add((a - 1) as nat, b);
        let x = pow10((a - 1) as nat) as int;
        let y = pow10(b) as int;
        assert(((a + b) - 1) as nat == ((a - 1) as nat + b) as nat);
        assert(pow10(a + b) == 10 * pow10(((a - 1) as nat + b) as nat));
        assert(pow10(a) == 10 * x);
        assert(10 * (x * y) == (10 * x) * y) by (nonlinear_arith);
    } else {
        assert(pow10(a) == 1);
    }
}

/// Powers of ten grow with the exponent.
pub proof fn lemma_pow10_mono(a: nat, b: nat)
    requires
        a <= b,
    ensures
        pow10(a) <= pow10(b),
{
    lemma_pow10_add(a, (b - a) as nat);
    lemma_pow10_pos(a);
    lemma_pow10_pos((b - a) as nat);
    assert(pow10(a) * 1 <= pow10(a) * pow10((b - a) as nat)) by (nonlinear_arith)
        requires
            pow10((b - a) as nat) >= 1,
            pow10(a) > 0,
    ;
}

/// A decimal of at most `s` places is a whole multiple of `10^(28 - s)` units.
pub proof fn lemma_value_multiple(v: (int, nat), s: nat)
    requires
        v.1 <= s <= 28,
    ensures
        dec_value(v) % (pow10((28 - s) as nat) as int) == 0,
{
    let d = pow10((28 - s) as nat) as int;
    let e = pow10((s - v.1) as nat) as int;
    lemma_pow10_add((28 - s) as nat, (s - v.1) as nat);
    assert(((28 - s) + (s - v.1)) as nat == (28 - v.1) as nat);
    lemma_pow10_pos((28 - s) as nat);
    assert(dec_value(v) == (v.0 * e) * d) by (nonlinear_arith)
        requires
            dec_value(v) == v.0 * pow10((28 - v.1) as nat),
            pow10((28 - v.1) as nat) == d * e,
    ;
    vstd::arithmetic::div_mod::lemma_mod_multiples_basic(v.0 * e, d);
}

/// The sum or difference `x` of two decimals of at most `s` places fits at the larger of
/// their scales when it stays below `2^96` units of `10^-s`.
pub proof fn lemma_combination_fits(a: (int, nat), b: (int, nat), s: nat, x: int)
    requires
        a.1 <= s <= 28,
        b.1 <= s,
        x == dec_value(a) + dec_value(b) || x == dec_value(a) - dec_value(b),
        -mantissa_limit() * pow10((28 - s) as nat) < x < mantissa_limit() * pow10((28 - s) as nat),
    ensures
        fits_at_scale(x, max_nat(a.1, b.1)),
{
    let m = max_nat(a.1, b.1);
    lemma_value_multiple(a, m);
    lemma_value_multiple(b, m);
    let d = pow10((28 - m) as nat) as int;
    lemma_pow10_pos((28 - m) as nat);
    vstd::arithmetic::div_mod::lemma_fundamental_div_mod(dec_value(a), d);
    vstd::arithmetic::div_mod::lemma_fundamental_div_mod(dec_value(b), d);
    let qa = dec_value(a) / d;
    let qb = dec_value(b) / d;
    if x == dec_value(a) + dec_value(b) {
        assert(x == (qa + qb) * d) by (nonlinear_arith)
            requires
                dec_value(a) == d * qa,
                dec_value(b) == d * qb,
                x == dec_value(a) + dec_value(b),
        ;
        vstd::arithmetic::div_mod::lemma_mod_multiples_basic(qa + qb, d);
    } else {
        assert(x == (qa - qb) * d) by (nonlinear_arith)
            requires
                dec_value(a) == d * qa,
                dec_value(b) == d * qb,
                x == dec_value(a) - dec_value(b),
        ;
        vstd::arithmetic::div_mod::lemma_mod_multiples_basic(qa - qb, d);
    }
    lemma_pow10_mono((28 - s) as nat, (28 - m) as nat);
    let l = mantissa_limit();
    let ps = pow10((28 - s) as nat) as int;
    let pm = pow10((28 - m) as nat) as int;
    assert(l * ps <= l * pm) by (nonlinear_arith)
        requires
            ps <= pm,
            l > 0,
    ;
    assert(-l * ps == -(l * ps)) by (nonlinear_arith);
    assert(-l * pm == -(l * pm)) by (nonlinear_arith);
    assert(x % d == 0);
    assert(-l * pm < x < l * pm);
}

pub proof fn lemma_pow10_pos(n: nat)
    ensures
        pow10(n) > 0,
    decreases n,
{
    if n > 0 {
        lemma_pow10_pos((n - 1) as nat);
    }
}

/// `<Decimal as PartialOrd>::lt`: documented to compare numeric values.
#[verifier::external_body]
fn decimal_lt(a: Dec, b: Dec) -> (r: bool)
    ensures
        r == (a.val() < b.val()),
{
    Decimal::from_i128_with_scale(a.m, a.s) < Decimal::from_i128_with_scale(b.m, b.s)
}

/// `<Decimal as PartialEq>::eq`: equal numeric values (`1.0 == 1.00`).
#[verifier::external_body]
fn decimal_eq(a: Dec, b: Dec) -> (r: bool)
    ensures
        r == (a.val() == b.val()),
{
    Decimal::from_i128_with_scale(a.m, a.s) == Decimal::from_i128_with_scale(b.m, b.s)
}

/// `Decimal::checked_add`. The source computes the exact sum at the larger of the two
/// scales in a wide buffer and only rounds when that sum needs more than 96 bits, so the
/// result is exact whenever the exact sum fits at that scale. A zero operand gives the
/// other operand back, and rounding only lowers the scale, so the result never has
/// more decimal places than the operands. What it rounds to otherwise is left to the
/// name.
#[verifier::external_body]
fn decimal_add(a: Dec, b: Dec) -> (r: Option<Dec>)
    ensures
        opt_view(r) == decimal_checked_add(a@, b@),
        fits_at_scale(a.val() + b.val(), max_nat(a@.1, b@.1)) ==> (r is Some && r.unwrap().val()
            == a.val() + b.val()),
        r matches Some(x) ==> x@.1 <= max_nat(a@.1, b@.1),
{
    match Decimal::from_i128_with_scale(a.m, a.s).checked_add(Decimal::from_i128_with_scale(b.m, b.s)) {
        Some(d) => Some(Dec { m: d.mantissa(), s: d.scale() }),
        None => None,
    }
}

/// `Decimal::checked_sub`; exact under the same condition as the sum, and likewise
/// never with more decimal places than the operands.
#[verifier::external_body]
fn decimal_sub(a: Dec, b: Dec) -> (r: Option<Dec>)
    ensures
        opt_view(r) == decimal_checked_sub(a@, b@),
        fits_at_scale(a.val() - b.val(), max_nat(a@.1, b@.1)) ==> (r is Some && r.unwrap().val()
            == a.val() - b.val()),
        r matches Some(x) ==> x@.1 <= max_nat(a@.1, b@.1),
{
    match Decimal::from_i128_with_scale(a.m, a.s).checked_sub(Decimal::from_i128_with_scale(b.m, b.s)) {
        Some(d) => Some(Dec { m: d.mantissa(), s: d.scale() }),
        None => None,
    }
}

/// `Decimal::checked_mul`. The source returns zero when either factor is zero, and
/// otherwise forms the exact product of the mantissas at the summed scale, which it
/// keeps unchanged when that fits (scale at most 28, mantissa below 2^96).
#[verifier::external_body]
fn decimal_mul(a: Dec, b: Dec) -> (r: Option<Dec>)
    ensures
        opt_view(r) == decimal_checked_mul(a@, b@),
        (a@.1 + b@.1 <= 28 && a@.0 * b@.0 != 0 && -mantissa_limit() < a@.0 * b@.0 < mantissa_limit()) ==> (r is Some
            && r.unwrap()@ == (a@.0 * b@.0, (a@.1 + b@.1) as nat)),
        (a.val() == 0 || b.val() == 0) ==> (r is Some && r.unwrap().val() == 0),
{
    match Decimal::from_i128_with_scale(a.m, a.s).checked_mul(Decimal::from_i128_with_scale(b.m, b.s)) {
        Some(d) => Some(Dec { m: d.mantissa(), s: d.scale() }),
        None => None,
    }
}

/// `Decimal::checked_div`: `None` for a zero divisor; a zero dividend gives zero. The
/// source reports an overflow only when the integer part of the quotient needs more
/// than 96 bits, which a divisor of magnitude at least 1 rules out. It scales the
/// quotient up while a remainder is left and it can (up to 28 places and 96 bits),
/// and rounds only when a remainder is still left then; so when the exact quotient is
/// a decimal it is returned exactly. The rounding of other quotients is left to the
/// name.
#[verifier::external_body]
fn decimal_div(a: Dec, b: Dec) -> (r: Option<Dec>)
    ensures
        opt_view(r) == decimal_checked_div(a@, b@),
        b.val() == 0 ==> r is None,
        (b.val() != 0 && a.val() == 0) ==> (r is Some && r.unwrap().val() == 0),
        (b.val() >= pow10(28) || b.val() <= -pow10(28)) ==> r is Some,
        quotient_fits(a.val(), b.val()) ==> (r is Some && r.unwrap().val() * b.val() == a.val() * pow10(28)),
{
    match Decimal::from_i128_with_scale(a.m, a.s).checked_div(Decimal::from_i128_with_scale(b.m, b.s)) {
        Some(d) => Some(Dec { m: d.mantissa(), s: d.scale() }),
        None => None,
    }
}

/// `Decimal::checked_rem`: `None` for a zero divisor; the source only reports an
/// overflow when the dividend has fewer decimal places than the divisor and must be
/// rescaled. The remainder is computed exactly, so it is zero exactly when the divisor
/// divides the dividend.
#[verifier::external_body]
fn decimal_rem(a: Dec, b: Dec) -> (r: Option<Dec>)
    ensures
        opt_view(r) == decimal_checked_rem(a@, b@),
        b.val() == 0 ==> r is None,
        (b.val() != 0 && a@.1 >= b@.1) ==> r is Some,
        r matches Some(x) ==> (x.val() == 0 <==> divides_value(b.val(), a.val())),
{
    match Decimal::from_i128_with_scale(a.m, a.s).checked_rem(Decimal::from_i128_with_scale(b.m, b.s)) {
        Some(d) => Some(Dec { m: d.mantissa(), s: d.scale() }),
        None => None,
    }
}

/// `MathematicalOps::sqrt`: `None` for a negative input; the digits are left to the name.
/// The source iterates Newton's method and panics (an `assert!`) if it has not settled
/// after 1000 steps; it shows no bound on the inputs for which that happens, so the
/// contract does not exclude them.
#[verifier::external_body]
fn decimal_sqrt_of(a: Dec) -> (r: Option<Dec>)
    ensures
        opt_view(r) == decimal_sqrt(a@),
        a.val() < 0 ==> r is None,
{
    match rust_decimal::MathematicalOps::sqrt(&Decimal::from_i128_with_scale(a.m, a.s)) {
        Some(d) => Some(Dec { m: d.mantissa(), s: d.scale() }),
        None => None,
    }
}

} // verus!
