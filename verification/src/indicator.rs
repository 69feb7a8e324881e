//! Technical indicators over price series. Each returns `None` where the series is too
//! short for it, and also where a decimal operation overflows.
use crate::decimal::{dec_value, decimal_checked_add, decimal_checked_div, decimal_checked_mul, decimal_checked_sub, opt_view, Dec};
use crate::margin::{opt_add, opt_div, opt_mul, opt_sub, DecView};
use crate::series::{series_at, Series};
use vstd::prelude::*;

verus! {

/// Sum from zero of the newest `k` values (newest first).
pub open spec fn newest_sum(s: Seq<Dec>, k: int) -> Option<DecView>
    decreases k,
{
    if k <= 0 {
        Some((0int, 0nat))
    } else {
        opt_add(newest_sum(s, k - 1), Some(s[s.len() - k]@))
    }
}

/// The simple moving average of the newest `length` values.
pub open spec fn ma_spec(s: Seq<Dec>, length: int) -> Option<DecView> {
    if length == 0 || s.len() < length {
        None
    } else {
        opt_div(newest_sum(s, length), Some((length, 0nat)))
    }
}

/// The decimal of an integer count (scale 0).
fn count_dec(n: usize) -> (r: Dec)
    ensures
        r@ == (n as int, 0nat),
{
    Dec::from_u64(n as u64)
}

/// Simple moving average of the newest `length` values: their sum divided by `length`.
pub fn ma(series: &Series, length: usize) -> (r: Option<Dec>)
    ensures
        opt_view(r) == ma_spec(series.inner@, length as int),
{
    if length == 0 || series.len() < length {
        return None;
    }
    let s = &series.inner;
    let n = s.len();
    let mut sum = Dec::zero();
    let mut k: usize = 0;
    while k < length
        invariant
            n == s@.len(),
            s@ == series.inner@,
            length != 0,
            length <= n,
            k <= length,
            Some(sum@) == newest_sum(s@, k as int),
        decreases length - k,
    {
        sum = match sum.checked_add(&s[n - 1 - k]) {
            Some(x) => x,
            None => {
                proof {
                    lemma_newest_sum_none(s@, k + 1, length as int);
                }
                return None;
            },
        };
        k = k + 1;
    }
    sum.checked_div(&count_dec(length))
}

pub proof fn lemma_newest_sum_none(s: Seq<Dec>, j: int, k: int)
    requires
        0 <= j <= k,
        newest_sum(s, j) is None,
    ensures
        newest_sum(s, k) is None,
    decreases k - j,
{
    if j < k {
        lemma_newest_sum_none(s, j + 1, k);
    }
}

/// The largest of the newest `k` values, newest first; a later (older) equal value
/// wins, as `Iterator::max_by`.
pub open spec fn newest_max(s: Seq<Dec>, k: int) -> Dec
    decreases k,
{
    if k <= 1 {
        s[s.len() - 1]
    } else {
        let m = newest_max(s, k - 1);
        let x = s[s.len() - k];
        if x.val() >= m.val() {
            x
        } else {
            m
        }
    }
}

/// The smallest of the newest `k` values, newest first; an earlier (newer) equal value
/// stays, as `Iterator::min_by`.
pub open spec fn newest_min(s: Seq<Dec>, k: int) -> Dec
    decreases k,
{
    if k <= 1 {
        s[s.len() - 1]
    } else {
        let m = newest_min(s, k - 1);
        let x = s[s.len() - k];
        if x.val() < m.val() {
            x
        } else {
            m
        }
    }
}

/// The highest of the newest `length` values.
pub fn highest(series: &Series, length: usize) -> (r: Option<Dec>)
    ensures
        r == (if length == 0 || series.inner@.len() < length {
            None
        } else {
            Some(newest_max(series.inner@, length as int))
        }),
{
    if length == 0 || series.len() < length {
        return None;
    }
    let s = &series.inner;
    let n = s.len();
    let mut m = s[n - 1];
    let mut k: usize = 1;
    while k < length
        invariant
            n == s@.len(),
            1 <= k <= length <= n,
            m == newest_max(s@, k as int),
        decreases length - k,
    {
        let x = s[n - 1 - k];
        if x.ge(&m) {
            m = x;
        }
        k = k + 1;
    }
    Some(m)
}

/// The lowest of the newest `length` values.
pub fn lowest(series: &Series, length: usize) -> (r: Option<Dec>)
    ensures
        r == (if length == 0 || series.inner@.len() < length {
            None
        } else {
            Some(newest_min(series.inner@, length as int))
        }),
{
    if length == 0 || series.len() < length {
        return None;
    }
    let s = &series.inner;
    let n = s.len();
    let mut m = s[n - 1];
    let mut k: usize = 1;
    while k < length
        invariant
            n == s@.len(),
            1 <= k <= length <= n,
            m == newest_min(s@, k as int),
        decreases length - k,
    {
        let x = s[n - 1 - k];
        if x.lt(&m) {
            m = x;
        }
        k = k + 1;
    }
    Some(m)
}

/// `fast` crosses above `slow` on the current bar: above it now, at or below it on the
/// bar before.
pub fn cross_over(fast: &Series, slow: &Series) -> (r: bool)
    ensures
        r == (fast.inner@.len() >= 2 && slow.inner@.len() >= 2 && series_at(fast.inner@, 0).val() > series_at(
            slow.inner@,
            0,
        ).val() && series_at(fast.inner@, 1).val() <= series_at(slow.inner@, 1).val()),
{
    if fast.len() < 2 || slow.len() < 2 {
        return false;
    }
    fast.get(0).gt(&slow.get(0)) && fast.get(1).le(&slow.get(1))
}

/// `fast` crosses below `slow` on the current bar: below it now, at or above it on the
/// bar before.
pub fn cross_under(fast: &Series, slow: &Series) -> (r: bool)
    ensures
        r == (fast.inner@.len() >= 2 && slow.inner@.len() >= 2 && series_at(fast.inner@, 0).val() < series_at(
            slow.inner@,
            0,
        ).val() && series_at(fast.inner@, 1).val() >= series_at(slow.inner@, 1).val()),
{
    if fast.len() < 2 || slow.len() < 2 {
        return false;
    }
    fast.get(0).lt(&slow.get(0)) && fast.get(1).ge(&slow.get(1))
}

/// A decimal literal `mantissa / 10^scale`.
pub open spec fn lit(mantissa: int, scale: nat) -> Option<DecView> {
    Some((mantissa, scale))
}

/// Classic pivot points of the current bar: `pp = (h + l + c) / 3`,
/// `r1 = 2pp - l`, `r2 = pp + (h - l)`, `r3 = h + 2(pp - l)`, `s1 = 2pp - h`,
/// `s2 = pp - (h - l)`, `s3 = l - 2(h - pp)`.
pub open spec fn pivot_spec(h: DecView, l: DecView, c: DecView) -> Seq<Option<DecView>> {
    let range = decimal_checked_sub(h, l);
    let pp = opt_div(opt_add(decimal_checked_add(h, l), Some(c)), lit(3, 0));
    seq![
        pp,
        opt_sub(opt_mul(lit(2, 0), pp), Some(l)),
        opt_add(pp, range),
        opt_add(Some(h), opt_mul(lit(2, 0), opt_sub(pp, Some(l)))),
        opt_sub(opt_mul(lit(2, 0), pp), Some(h)),
        opt_sub(pp, range),
        opt_sub(Some(l), opt_mul(lit(2, 0), opt_sub(Some(h), pp))),
    ]
}

/// Fibonacci pivot points: `pp = (h + l + c) / 3` and `pp ± 0.382, 0.618, 1` times
/// the range `h - l`.
pub open spec fn fib_pivot_spec(h: DecView, l: DecView, c: DecView) -> Seq<Option<DecView>> {
    let range = decimal_checked_sub(h, l);
    let pp = opt_div(opt_add(decimal_checked_add(h, l), Some(c)), lit(3, 0));
    seq![
        pp,
        opt_add(pp, opt_mul(lit(382, 3), range)),
        opt_add(pp, opt_mul(lit(618, 3), range)),
        opt_add(pp, range),
        opt_sub(pp, opt_mul(lit(382, 3), range)),
        opt_sub(pp, opt_mul(lit(618, 3), range)),
        opt_sub(pp, range),
    ]
}

/// Camarilla pivot points: `pp = (h + l + c) / 3` and `c ± 1.1 (h - l) / 12, 6, 4, 2`.
pub open spec fn camarilla_spec(h: DecView, l: DecView, c: DecView) -> Seq<Option<DecView>> {
    let range = decimal_checked_sub(h, l);
    let pp = opt_div(opt_add(decimal_checked_add(h, l), Some(c)), lit(3, 0));
    let factor = opt_mul(range, lit(11, 1));
    seq![
        pp,
        opt_add(Some(c), opt_div(factor, lit(12, 0))),
        opt_add(Some(c), opt_div(factor, lit(6, 0))),
        opt_add(Some(c), opt_div(factor, lit(4, 0))),
        opt_add(Some(c), opt_div(factor, lit(2, 0))),
        opt_sub(Some(c), opt_div(factor, lit(12, 0))),
        opt_sub(Some(c), opt_div(factor, lit(6, 0))),
        opt_sub(Some(c), opt_div(factor, lit(4, 0))),
        opt_sub(Some(c), opt_div(factor, lit(2, 0))),
    ]
}

/// Woodie pivot points: `pp = (h + l + 2c) / 4`, `r1 = 2pp - l`, `r2 = pp + (h - l)`,
/// `s1 = 2pp - h`, `s2 = pp - (h - l)`.
pub open spec fn woodie_spec(h: DecView, l: DecView, c: DecView) -> Seq<Option<DecView>> {
    let range = decimal_checked_sub(h, l);
    let pp = opt_div(opt_add(decimal_checked_add(h, l), opt_mul(lit(2, 0), Some(c))), lit(4, 0));
    seq![
        pp,
        opt_sub(opt_mul(lit(2, 0), pp), Some(l)),
        opt_add(pp, range),
        opt_sub(opt_mul(lit(2, 0), pp), Some(h)),
        opt_sub(pp, range),
    ]
}

/// The values of an indicator made of several lines: all `None` when a series is
/// empty, else each line's value (`None` where its arithmetic overflows).
pub open spec fn lines(r: Seq<Option<Dec>>, ok: bool, spec: Seq<Option<DecView>>) -> bool {
    &&& r.len() == spec.len()
    &&& forall|i: int| 0 <= i < r.len() ==> opt_view(#[trigger] r[i]) == (if ok { spec[i] } else { None })
}

fn dec_lit(mantissa: i64, scale: u32) -> (r: Dec)
    requires
        scale <= 28,
    ensures
        r@ == (mantissa as int, scale as nat),
{
    Dec::new(mantissa, scale)
}

fn plus(a: Option<Dec>, b: Option<Dec>) -> (r: Option<Dec>)
    ensures
        opt_view(r) == opt_add(opt_view(a), opt_view(b)),
        a matches Some(x) ==> (b matches Some(y) ==> (crate::decimal::fits_at_scale(x.val() + y.val(),
            crate::decimal::max_nat(x@.1, y@.1)) ==> (r matches Some(z) && z.val() == x.val() + y.val()))),
{
    match (a, b) {
        (Some(x), Some(y)) => x.checked_add(&y),
        _ => None,
    }
}

fn minus(a: Option<Dec>, b: Option<Dec>) -> (r: Option<Dec>)
    ensures
        opt_view(r) == opt_sub(opt_view(a), opt_view(b)),
{
    match (a, b) {
        (Some(x), Some(y)) => x.checked_sub(&y),
        _ => None,
    }
}

fn times(a: Option<Dec>, b: Option<Dec>) -> (r: Option<Dec>)
    ensures
        opt_view(r) == opt_mul(opt_view(a), opt_view(b)),
        a matches Some(x) ==> (b is Some && x.val() == 0 ==> (r matches Some(z) && z.val() == 0)),
        r matches Some(z) ==> z@.1 <= 28,
{
    match (a, b) {
        (Some(x), Some(y)) => {
            let z = x.checked_mul(&y);
            match z {
                Some(v) => {
                    v.lemma_wf();
                    Some(v)
                },
                None => None,
            }
        },
        _ => None,
    }
}

fn over(a: Option<Dec>, b: Option<Dec>) -> (r: Option<Dec>)
    ensures
        opt_view(r) == opt_div(opt_view(a), opt_view(b)),
        a matches Some(x) ==> (b matches Some(y) ==> (x.val() == 0 && y.val() != 0 ==> (r matches Some(z) && z.val()
            == 0))),
{
    match (a, b) {
        (Some(x), Some(y)) => x.checked_div(&y),
        _ => None,
    }
}

/// Classic pivot points of the current bar (see `pivot_spec`): `pp, r1, r2, r3, s1,
/// s2, s3`.
pub fn pivot_point(high: &Series, low: &Series, close: &Series) -> (r: (
    Option<Dec>,
    Option<Dec>,
    Option<Dec>,
    Option<Dec>,
    Option<Dec>,
    Option<Dec>,
    Option<Dec>,
))
    ensures
        lines(seq![r.0, r.1, r.2, r.3, r.4, r.5, r.6], high.inner@.len() >= 1 && low.inner@.len() >= 1
            && close.inner@.len() >= 1, pivot_spec(series_at(high.inner@, 0)@, series_at(low.inner@, 0)@, series_at(
            close.inner@,
            0,
        )@)),
{
    if high.len() < 1 || low.len() < 1 || close.len() < 1 {
        return (None, None, None, None, None, None, None);
    }
    let h = Some(high.get(0));
    let l = Some(low.get(0));
    let c = Some(close.get(0));
    let two = Some(dec_lit(2, 0));
    let range = minus(h, l);
    let pp = over(plus(plus(h, l), c), Some(dec_lit(3, 0)));
    let r1 = minus(times(two, pp), l);
    let r2 = plus(pp, range);
    let r3 = plus(h, times(two, minus(pp, l)));
    let s1 = minus(times(two, pp), h);
    let s2 = minus(pp, range);
    let s3 = minus(l, times(two, minus(h, pp)));
    (pp, r1, r2, r3, s1, s2, s3)
}

/// Fibonacci pivot points of the current bar (see `fib_pivot_spec`).
pub fn fib_pivot_point(high: &Series, low: &Series, close: &Series) -> (r: (
    Option<Dec>,
    Option<Dec>,
    Option<Dec>,
    Option<Dec>,
    Option<Dec>,
    Option<Dec>,
    Option<Dec>,
))
    ensures
        lines(seq![r.0, r.1, r.2, r.3, r.4, r.5, r.6], high.inner@.len() >= 1 && low.inner@.len() >= 1
            && close.inner@.len() >= 1, fib_pivot_spec(series_at(high.inner@, 0)@, series_at(low.inner@, 0)@, series_at(
            close.inner@,
            0,
        )@)),
{
    if high.len() < 1 || low.len() < 1 || close.len() < 1 {
        return (None, None, None, None, None, None, None);
    }
    let h = Some(high.get(0));
    let l = Some(low.get(0));
    let c = Some(close.get(0));
    let range = minus(h, l);
    let pp = over(plus(plus(h, l), c), Some(dec_lit(3, 0)));
    let a = Some(dec_lit(382, 3));
    let b = Some(dec_lit(618, 3));
    (pp, plus(pp, times(a, range)), plus(pp, times(b, range)), plus(pp, range), minus(pp, times(a, range)), minus(pp, times(b, range)), minus(pp, range))
}

/// Camarilla pivot points of the current bar (see `camarilla_spec`): `pp, r1..r4,
/// s1..s4`.
pub fn camarilla_pivot_point(high: &Series, low: &Series, close: &Series) -> (r: (
    Option<Dec>,
    Option<Dec>,
    Option<Dec>,
    Option<Dec>,
    Option<Dec>,
    Option<Dec>,
    Option<Dec>,
    Option<Dec>,
    Option<Dec>,
))
    ensures
        lines(seq![r.0, r.1, r.2, r.3, r.4, r.5, r.6, r.7, r.8], high.inner@.len() >= 1 && low.inner@.len() >= 1
            && close.inner@.len() >= 1, camarilla_spec(series_at(high.inner@, 0)@, series_at(low.inner@, 0)@, series_at(
            close.inner@,
            0,
        )@)),
{
    if high.len() < 1 || low.len() < 1 || close.len() < 1 {
        return (None, None, None, None, None, None, None, None, None);
    }
    let h = Some(high.get(0));
    let l = Some(low.get(0));
    let c = Some(close.get(0));
    let range = minus(h, l);
    let pp = over(plus(plus(h, l), c), Some(dec_lit(3, 0)));
    let factor = times(range, Some(dec_lit(11, 1)));
    let d12 = over(factor, Some(dec_lit(12, 0)));
    let d6 = over(factor, Some(dec_lit(6, 0)));
    let d4 = over(factor, Some(dec_lit(4, 0)));
    let d2 = over(factor, Some(dec_lit(2, 0)));
    (pp, plus(c, d12), plus(c, d6), plus(c, d4), plus(c, d2), minus(c, d12), minus(c, d6), minus(c, d4), minus(c, d2))
}

/// Woodie pivot points of the current bar (see `woodie_spec`): `pp, r1, r2, s1, s2`.
pub fn woodie_pivot_point(high: &Series, low: &Series, close: &Series) -> (r: (
    Option<Dec>,
    Option<Dec>,
    Option<Dec>,
    Option<Dec>,
    Option<Dec>,
))
    ensures
        lines(seq![r.0, r.1, r.2, r.3, r.4], high.inner@.len() >= 1 && low.inner@.len() >= 1
            && close.inner@.len() >= 1, woodie_spec(series_at(high.inner@, 0)@, series_at(low.inner@, 0)@, series_at(
            close.inner@,
            0,
        )@)),
{
    if high.len() < 1 || low.len() < 1 || close.len() < 1 {
        return (None, None, None, None, None);
    }
    let h = Some(high.get(0));
    let l = Some(low.get(0));
    let c = Some(close.get(0));
    let two = Some(dec_lit(2, 0));
    let range = minus(h, l);
    let pp = over(plus(plus(h, l), times(two, c)), Some(dec_lit(4, 0)));
    (pp, minus(times(two, pp), l), plus(pp, range), minus(times(two, pp), h), minus(pp, range))
}

/// The larger of two values; the second on a tie (`Ord::max`).
pub open spec fn max_view(a: DecView, b: DecView) -> DecView {
    if dec_value(b) < dec_value(a) {
        a
    } else {
        b
    }
}

/// The absolute value of a decimal.
pub open spec fn abs_of(v: DecView) -> DecView {
    if v.0 < 0 {
        (-v.0, v.1)
    } else {
        v
    }
}

/// The true range of a bar: the largest of `h - l`, `|h - pc|` and `|l - pc|`, where
/// `pc` is the previous close.
pub open spec fn true_range(h: DecView, l: DecView, pc: DecView) -> Option<DecView> {
    match (decimal_checked_sub(h, l), decimal_checked_sub(h, pc), decimal_checked_sub(l, pc)) {
        (Some(a), Some(b), Some(c)) => Some(max_view(max_view(a, abs_of(b)), abs_of(c))),
        _ => None,
    }
}

/// Sum from zero of the true ranges of the newest `k` bars.
pub open spec fn true_range_sum(high: Seq<Dec>, low: Seq<Dec>, close: Seq<Dec>, k: int) -> Option<DecView>
    decreases k,
{
    if k <= 0 {
        Some((0int, 0nat))
    } else {
        opt_add(
            true_range_sum(high, low, close, k - 1),
            true_range(series_at(high, k - 1)@, series_at(low, k - 1)@, series_at(close, k)@),
        )
    }
}

/// Average true range over the newest `length` bars.
pub open spec fn atr_spec(high: Seq<Dec>, low: Seq<Dec>, close: Seq<Dec>, length: int) -> Option<DecView> {
    if length == 0 || high.len() < length + 1 || low.len() < length + 1 || close.len() < length + 1 {
        None
    } else {
        opt_div(true_range_sum(high, low, close, length), Some((length, 0nat)))
    }
}

/// Average true range over the newest `length` bars (see `atr_spec`).
pub fn atr(high: &Series, low: &Series, close: &Series, length: usize) -> (r: Option<Dec>)
    ensures
        opt_view(r) == atr_spec(high.inner@, low.inner@, close.inner@, length as int),
{
    if length == 0 || high.len() <= length || low.len() <= length || close.len() <= length {
        return None;
    }
    let mut sum = Some(Dec::zero());
    let mut i: usize = 0;
    while i < length
        invariant
            i <= length,
            length < high.inner@.len() && length < low.inner@.len() && length < close.inner@.len(),
            opt_view(sum) == true_range_sum(high.inner@, low.inner@, close.inner@, i as int),
        decreases length - i,
    {
        let h = high.get(i);
        let l = low.get(i);
        let pc = close.get(i + 1);
        let tr = match (h.checked_sub(&l), h.checked_sub(&pc), l.checked_sub(&pc)) {
            (Some(a), Some(b), Some(c)) => Some(a.max(b.abs()).max(c.abs())),
            _ => None,
        };
        sum = plus(sum, tr);
        i = i + 1;
    }
    over(sum, Some(count_dec(length)))
}

/// The typical price `(h + l + c) / 3` of the bar `k` back.
pub open spec fn typical(high: Seq<Dec>, low: Seq<Dec>, close: Seq<Dec>, k: int) -> Option<DecView> {
    opt_div(
        opt_add(decimal_checked_add(series_at(high, k)@, series_at(low, k)@), Some(series_at(close, k)@)),
        lit(3, 0),
    )
}

/// Sum from zero of the typical prices of the newest `k` bars.
pub open spec fn typical_sum(high: Seq<Dec>, low: Seq<Dec>, close: Seq<Dec>, k: int) -> Option<DecView>
    decreases k,
{
    if k <= 0 {
        Some((0int, 0nat))
    } else {
        opt_add(typical_sum(high, low, close, k - 1), typical(high, low, close, k - 1))
    }
}

/// Sum from zero of the absolute deviations of the newest `k` typical prices from `m`.
pub open spec fn deviation_sum(high: Seq<Dec>, low: Seq<Dec>, close: Seq<Dec>, k: int, m: DecView) -> Option<DecView>
    decreases k,
{
    if k <= 0 {
        Some((0int, 0nat))
    } else {
        opt_add(
            deviation_sum(high, low, close, k - 1, m),
            match opt_sub(typical(high, low, close, k - 1), Some(m)) {
                Some(d) => Some(abs_of(d)),
                None => None,
            },
        )
    }
}

/// Commodity channel index over the newest `length` bars: the deviation of the current
/// typical price from their mean, over 0.015 times their mean absolute deviation (zero
/// when that deviation is zero).
pub open spec fn cci_spec(high: Seq<Dec>, low: Seq<Dec>, close: Seq<Dec>, length: int) -> Option<DecView> {
    if length == 0 || high.len() < length || low.len() < length || close.len() < length {
        None
    } else {
        match opt_div(typical_sum(high, low, close, length), Some((length, 0nat))) {
            None => None,
            Some(sma) => match opt_div(deviation_sum(high, low, close, length, sma), Some((length, 0nat))) {
                None => None,
                Some(md) => if dec_value(md) == 0 {
                    Some((0int, 0nat))
                } else {
                    opt_div(opt_sub(typical(high, low, close, 0), Some(sma)), opt_mul(lit(15, 3), Some(md)))
                },
            },
        }
    }
}

/// The typical price of the bar `k` back.
fn typical_price(high: &Series, low: &Series, close: &Series, k: usize) -> (r: Option<Dec>)
    ensures
        opt_view(r) == typical(high.inner@, low.inner@, close.inner@, k as int),
{
    over(plus(plus(Some(high.get(k)), Some(low.get(k))), Some(close.get(k))), Some(dec_lit(3, 0)))
}

/// Commodity channel index over the newest `length` bars (see `cci_spec`).
pub fn cci(high: &Series, low: &Series, close: &Series, length: usize) -> (r: Option<Dec>)
    ensures
        opt_view(r) == cci_spec(high.inner@, low.inner@, close.inner@, length as int),
{
    if length == 0 || high.len() < length || low.len() < length || close.len() < length {
        return None;
    }
    let mut sum = Some(Dec::zero());
    let mut i: usize = 0;
    while i < length
        invariant
            i <= length,
            opt_view(sum) == typical_sum(high.inner@, low.inner@, close.inner@, i as int),
        decreases length - i,
    {
        sum = plus(sum, typical_price(high, low, close, i));
        i = i + 1;
    }
    let sma = over(sum, Some(count_dec(length)))?;
    let mut dev = Some(Dec::zero());
    let mut i: usize = 0;
    while i < length
        invariant
            i <= length,
            opt_view(dev) == deviation_sum(high.inner@, low.inner@, close.inner@, i as int, sma@),
        decreases length - i,
    {
        let d = minus(typical_price(high, low, close, i), Some(sma));
        let a = match d {
            Some(x) => Some(x.abs()),
            None => None,
        };
        dev = plus(dev, a);
        i = i + 1;
    }
    let md = over(dev, Some(count_dec(length)))?;
    if md.is_zero() {
        return Some(Dec::zero());
    }
    over(minus(typical_price(high, low, close, 0), Some(sma)), times(Some(dec_lit(15, 3)), Some(md)))
}

/// Sum from zero of the squared deviations of the newest `k` values from `m`.
pub open spec fn square_sum(s: Seq<Dec>, k: int, m: DecView) -> Option<DecView>
    decreases k,
{
    if k <= 0 {
        Some((0int, 0nat))
    } else {
        let d = decimal_checked_sub(s[s.len() - k]@, m);
        opt_add(square_sum(s, k - 1, m), opt_mul(d, d))
    }
}

/// Bollinger bands over the newest `length` values: the moving average, and the average
/// plus and minus `multiplier` standard deviations (the square root of the mean squared
/// deviation).
pub open spec fn bollinger_spec(s: Seq<Dec>, length: int, multiplier: DecView) -> Seq<Option<DecView>> {
    match ma_spec(s, length) {
        None => seq![None, None, None],
        Some(mid) => match opt_div(square_sum(s, length, mid), Some((length, 0nat))) {
            None => seq![None, None, None],
            Some(v) => match crate::decimal::decimal_sqrt(v) {
                None => seq![None, None, None],
                Some(sd) => seq![
                    Some(mid),
                    opt_add(Some(mid), decimal_checked_mul(multiplier, sd)),
                    opt_sub(Some(mid), decimal_checked_mul(multiplier, sd)),
                ],
            },
        },
    }
}

/// Bollinger bands `(middle, upper, lower)` over the newest `length` values (see
/// `bollinger_spec`).
pub fn bollinger(series: &Series, length: usize, multiplier: Dec) -> (r: (Option<Dec>, Option<Dec>, Option<Dec>))
    ensures
        lines(seq![r.0, r.1, r.2], true, bollinger_spec(series.inner@, length as int, multiplier@)),
{
    let middle = match ma(series, length) {
        Some(m) => m,
        None => {
            return (None, None, None);
        },
    };
    let s = &series.inner;
    let n = s.len();
    let mut sum = Some(Dec::zero());
    let mut k: usize = 0;
    while k < length
        invariant
            n == s@.len(),
            s@ == series.inner@,
            length <= n,
            k <= length,
            opt_view(sum) == square_sum(s@, k as int, middle@),
        decreases length - k,
    {
        let d = minus(Some(s[n - 1 - k]), Some(middle));
        sum = plus(sum, times(d, d));
        k = k + 1;
    }
    let variance = match over(sum, Some(count_dec(length))) {
        Some(v) => v,
        None => {
            return (None, None, None);
        },
    };
    let sd = match variance.sqrt() {
        Some(x) => x,
        None => {
            return (None, None, None);
        },
    };
    let spread = times(Some(multiplier), Some(sd));
    (Some(middle), plus(Some(middle), spread), minus(Some(middle), spread))
}

/// The running state of an exponential moving average: the number of prices seen
/// (saturating), their sum while warming up, and the current average.
pub type EmaState = (int, DecView, Option<DecView>);

/// One price into an exponential moving average of `length` with weight `mult`: while
/// fewer than `length` prices have been seen they are summed; the `length`-th gives
/// their mean; after that the average moves to `price * mult + ema * (1 - mult)`.
pub open spec fn ema_step(st: EmaState, price: DecView, length: int, mult: DecView) -> Option<EmaState> {
    let count = if st.0 >= usize::MAX { st.0 } else { st.0 + 1 };
    if count <= length {
        match decimal_checked_add(st.1, price) {
            None => None,
            Some(sum) => if count < length {
                Some((count, sum, st.2))
            } else {
                match decimal_checked_div(sum, (length, 0nat)) {
                    Some(e) => Some((count, sum, Some(e))),
                    None => None,
                }
            },
        }
    } else {
        match st.2 {
            Some(c) => match opt_add(decimal_checked_mul(price, mult), opt_mul(Some(c), decimal_checked_sub((1int, 0nat), mult))) {
                Some(e) => Some((count, st.1, Some(e))),
                None => None,
            },
            None => match decimal_checked_div(st.1, (length, 0nat)) {
                Some(e) => Some((count, st.1, Some(e))),
                None => None,
            },
        }
    }
}

/// The average of the state: none while warming up.
pub open spec fn ema_value(st: EmaState, length: int) -> Option<DecView> {
    if st.0 != usize::MAX && st.0 < length {
        None
    } else {
        st.2
    }
}

/// The weight of the newest price: `2 / (length + 1)`.
pub open spec fn ema_multiplier(length: int) -> Option<DecView> {
    opt_div(Some((2int, 0nat)), decimal_checked_add((length, 0nat), (1int, 0nat)))
}

/// An exponential moving average fed one price at a time.
#[derive(Debug)]
pub struct EMACache {
    pub length: usize,
    pub multiplier: Dec,
    pub current_ema: Option<Dec>,
    pub count: usize,
    pub sum: Dec,
}

/// Decimal arithmetic overflowed.
#[derive(Clone, Copy, Debug, PartialEq, Eq, Structural)]
pub enum ArithmeticError {
    Overflow,
}

impl EMACache {
    /// The state of the average.
    pub open spec fn state(&self) -> EmaState {
        (self.count as int, self.sum@, opt_view(self.current_ema))
    }

    /// The weight `2 / (length + 1)` of a new price.
    fn weight(length: usize) -> (r: Dec)
        ensures
            Some(r@) == ema_multiplier(length as int),
    {
        let one = Dec::one();
        let n = count_dec(length);
        proof {
            crate::decimal::lemma_whole_fits(length as int);
            crate::decimal::lemma_whole_fits(1);
            crate::decimal::lemma_whole_fits(length + 1);
            assert(n.val() + one.val() == (length + 1) * crate::decimal::pow10(28)) by (nonlinear_arith)
                requires
                    n.val() == length * crate::decimal::pow10(28),
                    one.val() == 1 * crate::decimal::pow10(28),
            ;
        }
        let d = n.checked_add(&one).unwrap();
        proof {
            crate::decimal::lemma_pow10_pos(28);
            assert(d.val() == (length + 1) * crate::decimal::pow10(28));
            assert(d.val() >= crate::decimal::pow10(28)) by (nonlinear_arith)
                requires
                    d.val() == (length + 1) * crate::decimal::pow10(28),
                    crate::decimal::pow10(28) > 0,
            ;
        }
        Dec::new(2, 0).checked_div(&d).unwrap()
    }

    /// An average of `length` prices that has seen none yet.
    pub fn new(length: usize) -> (r: EMACache)
        ensures
            r.length == length,
            Some(r.multiplier@) == ema_multiplier(length as int),
            r.state() == ((0int, (0int, 0nat), None::<DecView>)),
    {
        EMACache { length, multiplier: Self::weight(length), current_ema: None, count: 0, sum: Dec::zero() }
    }

    /// An average of `length` prices that continues from the average `ema`.
    pub fn with_ema(length: usize, ema: Dec) -> (r: EMACache)
        ensures
            r.length == length,
            Some(r.multiplier@) == ema_multiplier(length as int),
            r.state() == ((usize::MAX as int, (0int, 0nat), Some(ema@))),
    {
        EMACache { length, multiplier: Self::weight(length), current_ema: Some(ema), count: usize::MAX, sum: Dec::zero() }
    }

    /// Feeds a price (see `ema_step`) and returns the average once warmed up. On
    /// overflow nothing changes.
    pub fn update(&mut self, price: Dec) -> (r: Result<Option<Dec>, ArithmeticError>)
        ensures
            final(self).length == old(self).length,
            final(self).multiplier == old(self).multiplier,
            r is Err <==> ema_step(old(self).state(), price@, old(self).length as int, old(self).multiplier@) is None,
            r is Err ==> *final(self) == *old(self),
            r is Ok ==> Some(final(self).state()) == ema_step(old(self).state(), price@, old(self).length as int,
                old(self).multiplier@),
            r matches Ok(v) ==> opt_view(v) == (if final(self).count < final(self).length {
                None
            } else {
                final(self).state().2
            }),
    {
        let count = if self.count == usize::MAX {
            self.count
        } else {
            self.count + 1
        };
        if count <= self.length {
            let sum = match self.sum.checked_add(&price) {
                Some(x) => x,
                None => {
                    return Err(ArithmeticError::Overflow);
                },
            };
            if count < self.length {
                self.count = count;
                self.sum = sum;
                return Ok(None);
            }
            let e = match sum.checked_div(&count_dec(self.length)) {
                Some(x) => x,
                None => {
                    return Err(ArithmeticError::Overflow);
                },
            };
            self.count = count;
            self.sum = sum;
            self.current_ema = Some(e);
            return Ok(Some(e));
        }
        let e = match self.current_ema {
            Some(c) => plus(times(Some(price), Some(self.multiplier)), times(Some(c), minus(Some(Dec::one()), Some(self.multiplier)))),
            None => self.sum.checked_div(&count_dec(self.length)),
        };
        match e {
            Some(x) => {
                self.count = count;
                self.current_ema = Some(x);
                Ok(Some(x))
            },
            None => Err(ArithmeticError::Overflow),
        }
    }

    /// The average, once warmed up.
    pub fn value(&self) -> (r: Option<Dec>)
        ensures
            opt_view(r) == ema_value(self.state(), self.length as int),
    {
        if self.count != usize::MAX && self.count < self.length {
            None
        } else {
            self.current_ema
        }
    }

    /// Forgets every price seen.
    pub fn reset(&mut self)
        ensures
            final(self).length == old(self).length,
            final(self).multiplier == old(self).multiplier,
            final(self).state() == ((0int, (0int, 0nat), None::<DecView>)),
    {
        self.count = 0;
        self.sum = Dec::zero();
        self.current_ema = None;
    }
}

/// The state after feeding the first `n` stored values (oldest first).
pub open spec fn ema_run(prices: Seq<Dec>, n: int, length: int, mult: DecView) -> Option<EmaState>
    decreases n,
{
    if n <= 0 {
        Some((0int, (0int, 0nat), None))
    } else {
        match ema_run(prices, n - 1, length, mult) {
            Some(st) => ema_step(st, prices[n - 1]@, length, mult),
            None => None,
        }
    }
}

/// Exponential moving average of `length` over the whole series.
pub open spec fn ema_spec(s: Seq<Dec>, length: int) -> Option<DecView> {
    if length == 0 || s.len() < length {
        None
    } else {
        match ema_run(s, s.len() as int, length, ema_multiplier(length).unwrap()) {
            Some(st) => ema_value(st, length),
            None => None,
        }
    }
}

pub proof fn lemma_ema_run_none(prices: Seq<Dec>, j: int, n: int, length: int, mult: DecView)
    requires
        0 <= j <= n,
        ema_run(prices, j, length, mult) is None,
    ensures
        ema_run(prices, n, length, mult) is None,
    decreases n - j,
{
    if j < n {
        lemma_ema_run_none(prices, j + 1, n, length, mult);
    }
}

/// Exponential moving average of `length` over the series, oldest value first: the
/// mean of the first `length` values, then moved by each later one.
pub fn ema(series: &Series, length: usize) -> (r: Option<Dec>)
    ensures
        opt_view(r) == ema_spec(series.inner@, length as int),
{
    if length == 0 || series.len() < length {
        return None;
    }
    let mut cache = EMACache::new(length);
    let mut i: usize = 0;
    while i < series.len()
        invariant
            i <= series.inner@.len(),
            cache.length == length,
            Some(cache.multiplier@) == ema_multiplier(length as int),
            Some(cache.state()) == ema_run(series.inner@, i as int, length as int, cache.multiplier@),
        decreases series.inner@.len() - i,
    {
        match cache.update(series.inner[i]) {
            Ok(_) => {},
            Err(_) => {
                proof {
                    lemma_ema_run_none(series.inner@, i + 1, series.inner@.len() as int, length as int, cache.multiplier@);
                }
                return None;
            },
        }
        i = i + 1;
    }
    cache.value()
}

/// The running state of a relative strength index: the number of price changes seen
/// (saturating), the last price, the sums of gains and losses while warming up, and
/// the average gain and loss.
pub type RsiState = (int, Option<DecView>, DecView, DecView, DecView, DecView);

/// One price into a relative strength index of `length`: the change from the last
/// price counts as a gain or a loss; the first `length` changes are summed and then
/// averaged, and later ones move the averages Wilder-style,
/// `(avg * (length - 1) + x) / length`.
pub open spec fn rsi_step(st: RsiState, price: DecView, length: int) -> Option<RsiState> {
    if length == 0 {
        Some(st)
    } else {
        match st.1 {
            None => Some((st.0, Some(price), st.2, st.3, st.4, st.5)),
            Some(last) => match decimal_checked_sub(price, last) {
                None => None,
                Some(delta) => {
                    let gain = if dec_value(delta) > 0 { delta } else { (0int, 0nat) };
                    let loss = if dec_value(delta) < 0 { (-delta.0, delta.1) } else { (0int, 0nat) };
                    let count = if st.0 >= usize::MAX { st.0 } else { st.0 + 1 };
                    if count <= length {
                        match (decimal_checked_add(st.2, gain), decimal_checked_add(st.3, loss)) {
                            (Some(g), Some(l)) => if count < length {
                                Some((count, Some(price), g, l, st.4, st.5))
                            } else {
                                match (decimal_checked_div(g, (length, 0nat)), decimal_checked_div(l, (length, 0nat))) {
                                    (Some(ag), Some(al)) => Some((count, Some(price), g, l, ag, al)),
                                    _ => None,
                                }
                            },
                            _ => None,
                        }
                    } else {
                        let w = decimal_checked_sub((length, 0nat), (1int, 0nat));
                        match (
                            opt_div(opt_add(opt_mul(Some(st.4), w), Some(gain)), Some((length, 0nat))),
                            opt_div(opt_add(opt_mul(Some(st.5), w), Some(loss)), Some((length, 0nat))),
                        ) {
                            (Some(ag), Some(al)) => Some((count, Some(price), st.2, st.3, ag, al)),
                            _ => None,
                        }
                    }
                },
            },
        }
    }
}

/// The index of the state: none while warming up; 50 without movement, 100 without
/// losses, else `100 - 100 / (1 + avg gain / avg loss)`.
pub open spec fn rsi_value(st: RsiState, length: int) -> Option<DecView> {
    if st.0 < length {
        None
    } else if dec_value(st.5) == 0 {
        if dec_value(st.4) == 0 {
            Some((50int, 0nat))
        } else {
            Some((100int, 0nat))
        }
    } else {
        opt_sub(
            Some((100int, 0nat)),
            opt_div(Some((100int, 0nat)), opt_add(Some((1int, 0nat)), decimal_checked_div(st.4, st.5))),
        )
    }
}

/// The gain side and the loss side of the index never mix: two prices that both do
/// not rise from the last price leave the same sum of gains and the same average gain,
/// and two that both do not fall leave the same sum of losses and the same average
/// loss, whatever else they do, while warming up and after.
pub proof fn lemma_rsi_gain_loss_separate(st: RsiState, p1: DecView, p2: DecView, length: int)
    requires
        0 < length,
        st.0 < usize::MAX,
        st.1 is Some,
        rsi_step(st, p1, length) is Some,
        rsi_step(st, p2, length) is Some,
    ensures
        ({
            let last = st.1.unwrap();
            let d1 = decimal_checked_sub(p1, last).unwrap();
            let d2 = decimal_checked_sub(p2, last).unwrap();
            let s1 = rsi_step(st, p1, length).unwrap();
            let s2 = rsi_step(st, p2, length).unwrap();
            &&& dec_value(d1) <= 0 && dec_value(d2) <= 0 ==> s1.2 == s2.2 && s1.4 == s2.4
            &&& dec_value(d1) >= 0 && dec_value(d2) >= 0 ==> s1.3 == s2.3 && s1.5 == s2.5
        }),
{
}

/// Once warmed up, an index without losses reads 100, and one without gains or losses
/// reads 50.
pub proof fn lemma_rsi_extremes(st: RsiState, length: int)
    requires
        st.0 >= length,
        dec_value(st.5) == 0,
    ensures
        dec_value(st.4) != 0 ==> rsi_value(st, length) == Some((100int, 0nat)),
        dec_value(st.4) == 0 ==> rsi_value(st, length) == Some((50int, 0nat)),
{
}

/// A relative strength index fed one price at a time.
#[derive(Debug)]
pub struct RSICache {
    pub length: usize,
    pub count: usize,
    pub last_price: Option<Dec>,
    pub sum_gain: Dec,
    pub sum_loss: Dec,
    pub avg_gain: Dec,
    pub avg_loss: Dec,
}

impl RSICache {
    /// The state of the index.
    pub open spec fn state(&self) -> RsiState {
        (self.count as int, opt_view(self.last_price), self.sum_gain@, self.sum_loss@, self.avg_gain@, self.avg_loss@)
    }

    /// An index of `length` that has seen no price yet.
    pub fn new(length: usize) -> (r: RSICache)
        ensures
            r.length == length,
            r.state() == ((0int, None::<DecView>, (0int, 0nat), (0int, 0nat), (0int, 0nat), (0int, 0nat))),
    {
        RSICache {
            length,
            count: 0,
            last_price: None,
            sum_gain: Dec::zero(),
            sum_loss: Dec::zero(),
            avg_gain: Dec::zero(),
            avg_loss: Dec::zero(),
        }
    }

    /// Feeds a price (see `rsi_step`) and returns the index once warmed up. On overflow
    /// nothing changes.
    pub fn update(&mut self, price: Dec) -> (r: Result<Option<Dec>, ArithmeticError>)
        ensures
            final(self).length == old(self).length,
            r is Err <==> rsi_step(old(self).state(), price@, old(self).length as int) is None,
            r is Err ==> *final(self) == *old(self),
            r is Ok ==> Some(final(self).state()) == rsi_step(old(self).state(), price@, old(self).length as int),
            r matches Ok(v) ==> opt_view(v) == (if old(self).length == 0 || old(self).last_price is None {
                None
            } else {
                rsi_value(final(self).state(), final(self).length as int)
            }),
            old(self).last_price matches Some(l) ==> (r is Ok && 0 < old(self).length <= old(self).count < usize::MAX
                && old(self).avg_loss.val() == 0 && crate::decimal::fits_at_scale(price.val() - l.val(),
                crate::decimal::max_nat(price@.1, l@.1)) && price.val() >= l.val() ==> final(self).avg_loss.val() == 0),
    {
        if self.length == 0 {
            return Ok(None);
        }
        let last = match self.last_price {
            None => {
                self.last_price = Some(price);
                return Ok(None);
            },
            Some(l) => l,
        };
        let delta = match price.checked_sub(&last) {
            Some(d) => d,
            None => {
                return Err(ArithmeticError::Overflow);
            },
        };
        let zero = Dec::zero();
        let gain = if delta.gt(&zero) {
            delta
        } else {
            Dec::zero()
        };
        let loss = if delta.lt(&zero) {
            delta.neg()
        } else {
            Dec::zero()
        };
        let count = if self.count == usize::MAX {
            self.count
        } else {
            self.count + 1
        };
        let n = count_dec(self.length);
        if count <= self.length {
            let (g, l) = match (self.sum_gain.checked_add(&gain), self.sum_loss.checked_add(&loss)) {
                (Some(g), Some(l)) => (g, l),
                _ => {
                    return Err(ArithmeticError::Overflow);
                },
            };
            if count < self.length {
                self.count = count;
                self.last_price = Some(price);
                self.sum_gain = g;
                self.sum_loss = l;
                return Ok(None);
            }
            let (ag, al) = match (g.checked_div(&n), l.checked_div(&n)) {
                (Some(a), Some(b)) => (a, b),
                _ => {
                    return Err(ArithmeticError::Overflow);
                },
            };
            self.count = count;
            self.last_price = Some(price);
            self.sum_gain = g;
            self.sum_loss = l;
            self.avg_gain = ag;
            self.avg_loss = al;
            return Ok(self.value());
        }
        let w = minus(Some(n), Some(Dec::one()));
        loss.lemma_wf();
        proof {
            crate::decimal::lemma_pow10_pos(28);
            vstd::arithmetic::mul::lemma_mul_strictly_positive(self.length as int, crate::decimal::pow10(28) as int);
            assert(n.val() != 0);
            if self.avg_loss.val() == 0 && delta.val() >= 0 {
                assert(loss.val() == 0);
                assert forall|x: Dec| x.val() == 0 && #[trigger] x@.1 <= 28 implies crate::decimal::fits_at_scale(
                    x.val() + loss.val(),
                    crate::decimal::max_nat(x@.1, loss@.1),
                ) by {
                    let m = crate::decimal::max_nat(x@.1, loss@.1);
                    let pm = crate::decimal::pow10((28 - m) as nat) as int;
                    crate::decimal::lemma_pow10_pos((28 - m) as nat);
                    let lim = crate::decimal::mantissa_limit();
                    assert(lim * pm > 0) by (nonlinear_arith)
                        requires
                            lim > 0,
                            pm > 0,
                    ;
                    assert(-lim * pm == -(lim * pm)) by (nonlinear_arith);
                }
            }
        }
        let ag = over(plus(times(Some(self.avg_gain), w), Some(gain)), Some(n));
        let al = over(plus(times(Some(self.avg_loss), w), Some(loss)), Some(n));
        match (ag, al) {
            (Some(a), Some(b)) => {
                self.count = count;
                self.last_price = Some(price);
                self.avg_gain = a;
                self.avg_loss = b;
                Ok(self.value())
            },
            _ => Err(ArithmeticError::Overflow),
        }
    }

    /// The index, once warmed up (see `rsi_value`).
    pub fn value(&self) -> (r: Option<Dec>)
        ensures
            opt_view(r) == rsi_value(self.state(), self.length as int),
    {
        if self.count < self.length {
            return None;
        }
        if self.avg_loss.is_zero() {
            return if self.avg_gain.is_zero() {
                Some(dec_lit(50, 0))
            } else {
                Some(dec_lit(100, 0))
            };
        }
        let hundred = Some(dec_lit(100, 0));
        let rs = over(Some(self.avg_gain), Some(self.avg_loss));
        minus(hundred, over(hundred, plus(Some(Dec::one()), rs)))
    }
}

/// The state after feeding the first `n` stored values (oldest first).
pub open spec fn rsi_run(prices: Seq<Dec>, n: int, length: int) -> Option<RsiState>
    decreases n,
{
    if n <= 0 {
        Some((0int, None, (0int, 0nat), (0int, 0nat), (0int, 0nat), (0int, 0nat)))
    } else {
        match rsi_run(prices, n - 1, length) {
            Some(st) => rsi_step(st, prices[n - 1]@, length),
            None => None,
        }
    }
}

/// Relative strength index of `length` over the whole series.
pub open spec fn rsi_spec(s: Seq<Dec>, length: int) -> Option<DecView> {
    if length == 0 || s.len() < length + 1 {
        None
    } else {
        match rsi_run(s, s.len() as int, length) {
            Some(st) => rsi_value(st, length),
            None => None,
        }
    }
}

pub proof fn lemma_rsi_run_none(prices: Seq<Dec>, j: int, n: int, length: int)
    requires
        0 <= j <= n,
        rsi_run(prices, j, length) is None,
    ensures
        rsi_run(prices, n, length) is None,
    decreases n - j,
{
    if j < n {
        lemma_rsi_run_none(prices, j + 1, n, length);
    }
}

/// Relative strength index of `length` over the series, oldest value first (see
/// `rsi_step`).
pub fn rsi(series: &Series, length: usize) -> (r: Option<Dec>)
    ensures
        opt_view(r) == rsi_spec(series.inner@, length as int),
{
    if length == 0 || series.len() <= length {
        return None;
    }
    let mut cache = RSICache::new(length);
    let mut i: usize = 0;
    while i < series.len()
        invariant
            i <= series.inner@.len(),
            cache.length == length,
            Some(cache.state()) == rsi_run(series.inner@, i as int, length as int),
        decreases series.inner@.len() - i,
    {
        match cache.update(series.inner[i]) {
            Ok(_) => {},
            Err(_) => {
                proof {
                    lemma_rsi_run_none(series.inner@, i + 1, series.inner@.len() as int, length as int);
                }
                return None;
            },
        }
        i = i + 1;
    }
    cache.value()
}

/// What `EMACache::update` returns in the state it leads to: the average once warmed up.
pub open spec fn ema_out(st: EmaState, length: int) -> Option<DecView> {
    if st.0 < length {
        None
    } else {
        st.2
    }
}

/// One price into MACD: the fast and slow averages take it, and when both give a value
/// their difference feeds the signal average.
pub open spec fn macd_step(
    st: (EmaState, EmaState, EmaState),
    price: DecView,
    lens: (int, int, int),
    mults: (DecView, DecView, DecView),
) -> Option<(EmaState, EmaState, EmaState)> {
    match (ema_step(st.0, price, lens.0, mults.0), ema_step(st.1, price, lens.1, mults.1)) {
        (Some(f), Some(s)) => match (ema_out(f, lens.0), ema_out(s, lens.1)) {
            (Some(fv), Some(sv)) => match decimal_checked_sub(fv, sv) {
                Some(d) => match ema_step(st.2, d, lens.2, mults.2) {
                    Some(g) => Some((f, s, g)),
                    None => None,
                },
                None => None,
            },
            _ => Some((f, s, st.2)),
        },
        _ => None,
    }
}

/// The MACD states after the first `n` stored values (oldest first).
pub open spec fn macd_run(prices: Seq<Dec>, n: int, lens: (int, int, int), mults: (DecView, DecView, DecView)) -> Option<
    (EmaState, EmaState, EmaState),
>
    decreases n,
{
    if n <= 0 {
        Some(((0int, (0int, 0nat), None), (0int, (0int, 0nat), None), (0int, (0int, 0nat), None)))
    } else {
        match macd_run(prices, n - 1, lens, mults) {
            Some(st) => macd_step(st, prices[n - 1]@, lens, mults),
            None => None,
        }
    }
}

/// MACD over the whole series: the fast minus the slow average, the signal average of
/// that difference, and the histogram (MACD minus signal); all `None` until each has a
/// value, and for lengths that are zero or a fast length not below the slow one.
pub open spec fn macd_spec(s: Seq<Dec>, fast: int, slow: int, signal: int) -> Seq<Option<DecView>> {
    if fast == 0 || slow == 0 || signal == 0 || fast >= slow {
        seq![None, None, None]
    } else {
        let mults = (ema_multiplier(fast).unwrap(), ema_multiplier(slow).unwrap(), ema_multiplier(signal).unwrap());
        match macd_run(s, s.len() as int, (fast, slow, signal), mults) {
            None => seq![None, None, None],
            Some(st) => match (ema_value(st.0, fast), ema_value(st.1, slow), ema_value(st.2, signal)) {
                (Some(f), Some(sl), Some(g)) => {
                    let m = decimal_checked_sub(f, sl);
                    seq![m, Some(g), opt_sub(m, Some(g))]
                },
                _ => seq![None, None, None],
            },
        }
    }
}

pub proof fn lemma_macd_run_none(prices: Seq<Dec>, j: int, n: int, lens: (int, int, int), mults: (DecView, DecView, DecView))
    requires
        0 <= j <= n,
        macd_run(prices, j, lens, mults) is None,
    ensures
        macd_run(prices, n, lens, mults) is None,
    decreases n - j,
{
    if j < n {
        lemma_macd_run_none(prices, j + 1, n, lens, mults);
    }
}

/// MACD `(macd, signal, histogram)` over the series (see `macd_spec`).
pub fn macd(series: &Series, fast_length: usize, slow_length: usize, signal_length: usize) -> (r: (
    Option<Dec>,
    Option<Dec>,
    Option<Dec>,
))
    ensures
        lines(seq![r.0, r.1, r.2], true, macd_spec(series.inner@, fast_length as int, slow_length as int, signal_length as int)),
{
    if fast_length == 0 || slow_length == 0 || signal_length == 0 || fast_length >= slow_length {
        return (None, None, None);
    }
    let mut fast = EMACache::new(fast_length);
    let mut slow = EMACache::new(slow_length);
    let mut signal = EMACache::new(signal_length);
    let ghost lens = (fast_length as int, slow_length as int, signal_length as int);
    let ghost mults = (fast.multiplier@, slow.multiplier@, signal.multiplier@);
    let mut i: usize = 0;
    while i < series.len()
        invariant
            i <= series.inner@.len(),
            lens == (fast_length as int, slow_length as int, signal_length as int),
            fast.length == fast_length && slow.length == slow_length && signal.length == signal_length,
            mults == (fast.multiplier@, slow.multiplier@, signal.multiplier@),
            Some(fast.multiplier@) == ema_multiplier(fast_length as int),
            Some(slow.multiplier@) == ema_multiplier(slow_length as int),
            Some(signal.multiplier@) == ema_multiplier(signal_length as int),
            Some((fast.state(), slow.state(), signal.state())) == macd_run(series.inner@, i as int, lens, mults),
        decreases series.inner@.len() - i,
    {
        let price = series.inner[i];
        let f = fast.update(price);
        let s = slow.update(price);
        match (f, s) {
            (Ok(fv), Ok(sv)) => {
                match (fv, sv) {
                    (Some(a), Some(b)) => {
                        let ok = match a.checked_sub(&b) {
                            Some(d) => match signal.update(d) {
                                Ok(_) => true,
                                Err(_) => false,
                            },
                            None => false,
                        };
                        if !ok {
                            proof {
                                lemma_macd_run_none(series.inner@, i + 1, series.inner@.len() as int, lens, mults);
                            }
                            return (None, None, None);
                        }
                    },
                    _ => {},
                }
            },
            _ => {
                proof {
                    lemma_macd_run_none(series.inner@, i + 1, series.inner@.len() as int, lens, mults);
                }
                return (None, None, None);
            },
        }
        i = i + 1;
    }
    match (fast.value(), slow.value(), signal.value()) {
        (Some(f), Some(s), Some(g)) => {
            let m = f.checked_sub(&s);
            let h = match m {
                Some(x) => x.checked_sub(&g),
                None => None,
            };
            (m, Some(g), h)
        },
        _ => (None, None, None),
    }
}

/// Every value from `from` to `to` bars back (excluded) lies strictly below `m`
/// (`above` false) or strictly above it (`above` true).
pub open spec fn all_beyond(s: Seq<Dec>, from: int, to: int, m: Dec, above: bool) -> bool {
    forall|k: int| from <= k < to ==> if above {
        (#[trigger] series_at(s, k)).val() > m.val()
    } else {
        series_at(s, k).val() < m.val()
    }
}

/// The smallest of the values `from` to `to` bars back (excluded), newest first; the
/// first one on ties (`Iterator::min`).
pub open spec fn min_between(s: Seq<Dec>, from: int, to: int) -> Dec
    decreases to - from,
{
    if to - from <= 1 {
        series_at(s, from)
    } else {
        let m = min_between(s, from, to - 1);
        let x = series_at(s, to - 1);
        if x.val() < m.val() {
            x
        } else {
            m
        }
    }
}

/// The largest of the values `from` to `to` bars back (excluded), newest first; the
/// last one on ties (`Iterator::max`).
pub open spec fn max_between(s: Seq<Dec>, from: int, to: int) -> Dec
    decreases to - from,
{
    if to - from <= 1 {
        series_at(s, from)
    } else {
        let m = max_between(s, from, to - 1);
        let x = series_at(s, to - 1);
        if x.val() >= m.val() {
            x
        } else {
            m
        }
    }
}

/// Whether all values from `from` to `to` bars back lie beyond `m`, and their extreme
/// (the smallest for `above` false, the largest for `above` true).
fn scan(series: &Series, from: usize, to: usize, m: Dec, above: bool) -> (r: (bool, Dec))
    requires
        from < to,
    ensures
        r.0 == all_beyond(series.inner@, from as int, to as int, m, above),
        !above ==> r.1 == min_between(series.inner@, from as int, to as int),
        above ==> r.1 == max_between(series.inner@, from as int, to as int),
{
    let mut ok = true;
    let mut ext = series.get(from);
    let mut k: usize = from;
    while k < to
        invariant
            from <= k <= to,
            ok == all_beyond(series.inner@, from as int, k as int, m, above),
            k > from ==> (!above ==> ext == min_between(series.inner@, from as int, k as int)),
            k > from ==> (above ==> ext == max_between(series.inner@, from as int, k as int)),
            k == from ==> ext == series_at(series.inner@, from as int),
        decreases to - k,
    {
        let x = series.get(k);
        let beyond = if above {
            x.gt(&m)
        } else {
            x.lt(&m)
        };
        ok = ok && beyond;
        if k > from {
            if above {
                if x.ge(&ext) {
                    ext = x;
                }
            } else {
                if x.lt(&ext) {
                    ext = x;
                }
            }
        }
        k = k + 1;
    }
    (ok, ext)
}

/// A swing extreme at the bar `left` back: strictly below (`above` false) or above
/// (`above` true) every value of the `right` older and the `left` newer bars; its value
/// with the extreme of each side (the smallest for a high, the largest for a low).
pub open spec fn swing_spec(s: Seq<Dec>, left: int, right: int, above: bool) -> Option<(Dec, Dec, Dec)> {
    if left == 0 || right == 0 || s.len() < left + right + 1 {
        None
    } else {
        let mid = series_at(s, left);
        if all_beyond(s, left + 1, left + 1 + right, mid, above) && all_beyond(s, 0, left, mid, above) {
            if above {
                Some((mid, max_between(s, left + 1, left + 1 + right), max_between(s, 0, left)))
            } else {
                Some((mid, min_between(s, left + 1, left + 1 + right), min_between(s, 0, left)))
            }
        } else {
            None
        }
    }
}

/// A swing high at the bar `left` back: it is strictly higher than the `right` bars
/// before it and the `left` bars after it. Returns its value and the lowest value on
/// each side (the older side first).
pub fn swing_high(series: &Series, left: usize, right: usize) -> (r: Option<(Dec, Dec, Dec)>)
    ensures
        r == swing_spec(series.inner@, left as int, right as int, false),
{
    if left == 0 || right == 0 || series.len() < 1 || series.len() - 1 < left || series.len() - 1 - left < right {
        return None;
    }
    let mid = series.get(left);
    let (older, older_min) = scan(series, left + 1, left + 1 + right, mid, false);
    let (newer, newer_min) = scan(series, 0, left, mid, false);
    if older && newer {
        Some((mid, older_min, newer_min))
    } else {
        None
    }
}

/// A swing low at the bar `left` back: it is strictly lower than the `right` bars
/// before it and the `left` bars after it. Returns its value and the highest value on
/// each side (the older side first).
pub fn swing_low(series: &Series, left: usize, right: usize) -> (r: Option<(Dec, Dec, Dec)>)
    ensures
        r == swing_spec(series.inner@, left as int, right as int, true),
{
    if left == 0 || right == 0 || series.len() < 1 || series.len() - 1 < left || series.len() - 1 - left < right {
        return None;
    }
    let mid = series.get(left);
    let (older, older_max) = scan(series, left + 1, left + 1 + right, mid, true);
    let (newer, newer_max) = scan(series, 0, left, mid, true);
    if older && newer {
        Some((mid, older_max, newer_max))
    } else {
        None
    }
}

} // verus!
