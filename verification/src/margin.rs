//! Margin, liquidation price and tick alignment.
use crate::decimal::{decimal_checked_add, decimal_checked_div, decimal_checked_mul, decimal_checked_rem, decimal_checked_sub, divides_value, opt_view, Dec};
use crate::order::Side;
use vstd::prelude::*;

verus! {

/// A decimal value as a (mantissa, scale) pair.
pub type DecView = (int, nat);

/// `a + b` when both exist and the sum does not overflow.
pub open spec fn opt_add(a: Option<DecView>, b: Option<DecView>) -> Option<DecView> {
    match (a, b) {
        (Some(x), Some(y)) => decimal_checked_add(x, y),
        _ => None,
    }
}

/// `a - b` when both exist and the difference does not overflow.
pub open spec fn opt_sub(a: Option<DecView>, b: Option<DecView>) -> Option<DecView> {
    match (a, b) {
        (Some(x), Some(y)) => decimal_checked_sub(x, y),
        _ => None,
    }
}

/// `a * b` when both exist and the product does not overflow.
pub open spec fn opt_mul(a: Option<DecView>, b: Option<DecView>) -> Option<DecView> {
    match (a, b) {
        (Some(x), Some(y)) => decimal_checked_mul(x, y),
        _ => None,
    }
}

/// `a / b` when both exist, `b` is not zero and the quotient does not overflow.
pub open spec fn opt_div(a: Option<DecView>, b: Option<DecView>) -> Option<DecView> {
    match (a, b) {
        (Some(x), Some(y)) => decimal_checked_div(x, y),
        _ => None,
    }
}

/// The integer `n` as a decimal of scale 0.
pub open spec fn int_dec(n: int) -> DecView {
    (n, 0nat)
}

/// Initial margin of a position: `price * quantity / leverage`.
pub open spec fn initial_margin_spec(price: DecView, quantity: DecView, leverage: u32) -> Option<
    DecView,
> {
    opt_div(decimal_checked_mul(price, quantity), Some(int_dec(leverage as int)))
}

/// Liquidation price of an isolated position with `margin` deposited:
/// for a long, `price * (1 - 1/leverage + maintenance) - (margin - initial margin) / quantity`;
/// for a short, `price * (1 + 1/leverage - maintenance) + (margin - initial margin) / quantity`.
pub open spec fn liquidation_price_spec(
    leverage: u32,
    maintenance: DecView,
    side: Side,
    price: DecView,
    quantity: DecView,
    margin: DecView,
) -> Option<DecView> {
    let rate = decimal_checked_div(int_dec(1), int_dec(leverage as int));
    let append = opt_sub(Some(margin), initial_margin_spec(price, quantity, leverage));
    let per_unit = opt_div(append, Some(quantity));
    if side == Side::Buy {
        opt_sub(
            opt_mul(Some(price), opt_add(opt_sub(Some(int_dec(1)), rate), Some(maintenance))),
            per_unit,
        )
    } else {
        opt_add(
            opt_mul(Some(price), opt_sub(opt_add(Some(int_dec(1)), rate), Some(maintenance))),
            per_unit,
        )
    }
}

/// The liquidation price moves against the position's side: a short is liquidated
/// above its entry, at `price * (1 + 1/leverage - maintenance)` plus its extra margin
/// per unit, a long below it, at `price * (1 - 1/leverage + maintenance)` minus it. So
/// the short's price factor adds the initial margin rate to one and takes the
/// maintenance rate off, and the long's does the opposite.
pub proof fn lemma_liquidation_price_sides(
    leverage: u32,
    maintenance: DecView,
    price: DecView,
    quantity: DecView,
    margin: DecView,
)
    ensures
        ({
            let rate = decimal_checked_div(int_dec(1), int_dec(leverage as int));
            let extra = opt_div(opt_sub(Some(margin), initial_margin_spec(price, quantity, leverage)), Some(quantity));
            let above = opt_sub(opt_add(Some(int_dec(1)), rate), Some(maintenance));
            let below = opt_add(opt_sub(Some(int_dec(1)), rate), Some(maintenance));
            &&& liquidation_price_spec(leverage, maintenance, Side::Sell, price, quantity, margin) == opt_add(
                opt_mul(Some(price), above),
                extra,
            )
            &&& liquidation_price_spec(leverage, maintenance, Side::Buy, price, quantity, margin) == opt_sub(
                opt_mul(Some(price), below),
                extra,
            )
        }),
{
}

/// `price * quantity / leverage`, or `None` where the decimal arithmetic fails
/// (zero leverage, overflow).
pub fn checked_calc_initial_margin(price: Dec, quantity: Dec, leverage: u32) -> (r: Option<Dec>)
    ensures
        opt_view(r) == initial_margin_spec(price@, quantity@, leverage),
{
    let notional = price.checked_mul(&quantity)?;
    notional.checked_div(&Dec::from_u32(leverage))
}

/// Initial margin required for a position: `price * quantity / leverage`.
pub fn calc_initial_margin(price: Dec, quantity: Dec, leverage: u32) -> (r: Dec)
    requires
        initial_margin_spec(price@, quantity@, leverage) is Some,
    ensures
        r@ == initial_margin_spec(price@, quantity@, leverage).unwrap(),
{
    checked_calc_initial_margin(price, quantity, leverage).unwrap()
}

/// The liquidation price, or `None` where the decimal arithmetic fails.
pub fn checked_calc_liquidation_price(
    leverage: u32,
    maintenance: Dec,
    side: Side,
    price: Dec,
    quantity: Dec,
    margin: Dec,
) -> (r: Option<Dec>)
    ensures
        opt_view(r) == liquidation_price_spec(leverage, maintenance@, side, price@, quantity@, margin@),
        r is Some && liquidation_factor_exact(leverage, maintenance) ==> exists|f: DecView| #[trigger] crate::decimal::dec_value(f)
            == liquidation_factor_value(leverage, maintenance, side) && opt_view(r) == (if side == Side::Buy {
            opt_sub(decimal_checked_mul(price@, f), liquidation_extra(leverage, price@, quantity@, margin@))
        } else {
            opt_add(decimal_checked_mul(price@, f), liquidation_extra(leverage, price@, quantity@, margin@))
        }),
{
    let rate = Dec::one().checked_div(&Dec::from_u32(leverage));
    let initial = checked_calc_initial_margin(price, quantity, leverage);
    let append = match initial {
        Some(i) => margin.checked_sub(&i),
        None => None,
    };
    let per_unit = match append {
        Some(a) => a.checked_div(&quantity),
        None => None,
    };
    let rate = rate?;
    let per_unit = per_unit?;
    let one = Dec::one();
    rate.lemma_wf();
    maintenance.lemma_wf();
    proof {
        crate::decimal::lemma_unit_value();
        if liquidation_factor_exact(leverage, maintenance) {
            lemma_unit_rate(leverage, rate);
        }
    }
    proof {
        if liquidation_factor_exact(leverage, maintenance) {
            let p = crate::decimal::pow10(28) as int;
            crate::decimal::lemma_combination_fits(one@, rate@, 28, one.val() - rate.val());
            crate::decimal::lemma_combination_fits(one@, rate@, 28, one.val() + rate.val());
            assert forall|f1: Dec| (f1.val() == p - rate.val() || f1.val() == p + rate.val()) && #[trigger] f1@.1 <= 28
                implies crate::decimal::fits_at_scale(f1.val() + maintenance.val(), crate::decimal::max_nat(
                f1@.1,
                maintenance@.1,
            )) && crate::decimal::fits_at_scale(f1.val() - maintenance.val(), crate::decimal::max_nat(
                f1@.1,
                maintenance@.1,
            )) by {
                crate::decimal::lemma_combination_fits(f1@, maintenance@, 28, f1.val() + maintenance.val());
                crate::decimal::lemma_combination_fits(f1@, maintenance@, 28, f1.val() - maintenance.val());
            }
        }
    }
    if side == Side::Buy {
        let factor = Dec::one().checked_sub(&rate)?.checked_add(&maintenance)?;
        price.checked_mul(&factor)?.checked_sub(&per_unit)
    } else {
        let factor = Dec::one().checked_add(&rate)?.checked_sub(&maintenance)?;
        price.checked_mul(&factor)?.checked_add(&per_unit)
    }
}

/// `1 / leverage` is a decimal (the leverage divides a power of ten) and the
/// maintenance rate lies between 0 and 1: the price factor of the liquidation price is
/// then computed without rounding.
pub open spec fn liquidation_factor_exact(leverage: u32, maintenance: Dec) -> bool {
    &&& crate::decimal::quotient_fits(crate::decimal::pow10(28) as int, leverage * crate::decimal::pow10(28))
    &&& 0 <= maintenance.val() <= crate::decimal::pow10(28)
}

/// The price factor of the liquidation price, in units of 10^-28: `1 - 1/leverage +
/// maintenance` for a long (liquidated below its entry), `1 + 1/leverage - maintenance`
/// for a short (liquidated above it).
pub open spec fn liquidation_factor_value(leverage: u32, maintenance: Dec, side: Side) -> int {
    let one = crate::decimal::pow10(28) as int;
    let rate = one / (leverage as int);
    if side == Side::Buy {
        one - rate + maintenance.val()
    } else {
        one + rate - maintenance.val()
    }
}

/// The liquidation price lies on the losing side of the entry price: while the
/// maintenance rate is below the initial margin rate `1/leverage`, a short's price
/// factor is above one (liquidated when the price rises) and a long's below one
/// (liquidated when it falls).
pub proof fn lemma_liquidation_factor_side(leverage: u32, maintenance: Dec)
    requires
        leverage > 0,
        maintenance.val() < (crate::decimal::pow10(28) as int) / (leverage as int),
    ensures
        liquidation_factor_value(leverage, maintenance, Side::Sell) > crate::decimal::pow10(28),
        liquidation_factor_value(leverage, maintenance, Side::Buy) < crate::decimal::pow10(28),
{
}

/// The margin deposited beyond the initial margin, per unit of quantity.
pub open spec fn liquidation_extra(leverage: u32, price: DecView, quantity: DecView, margin: DecView) -> Option<DecView> {
    opt_div(opt_sub(Some(margin), initial_margin_spec(price, quantity, leverage)), Some(quantity))
}

/// When `1 / leverage` is a decimal, the rate computed is exactly it.
proof fn lemma_unit_rate(leverage: u32, rate: Dec)
    requires
        crate::decimal::quotient_fits(crate::decimal::pow10(28) as int, leverage * crate::decimal::pow10(28)),
        rate.val() * (leverage * crate::decimal::pow10(28)) == crate::decimal::pow10(28) * crate::decimal::pow10(28),
    ensures
        leverage > 0,
        rate.val() == (crate::decimal::pow10(28) as int) / (leverage as int),
        0 <= rate.val() <= crate::decimal::pow10(28),
{
    let p = crate::decimal::pow10(28) as int;
    crate::decimal::lemma_pow10_pos(28);
    let l = leverage as int;
    assert(l != 0);
    assert(rate.val() * l == p) by (nonlinear_arith)
        requires
            rate.val() * (l * p) == p * p,
            p > 0,
    ;
    vstd::arithmetic::div_mod::lemma_fundamental_div_mod_converse_div(p, l, rate.val(), 0);
    assert(0 <= rate.val() <= p) by (nonlinear_arith)
        requires
            rate.val() * l == p,
            l >= 1,
            p > 0,
    ;
}

/// The price at which an isolated position is liquidated, given its leverage, the
/// maintenance margin rate, its side, entry price, quantity and deposited margin.
pub fn calc_liquidation_price(
    leverage: u32,
    maintenance: Dec,
    side: Side,
    price: Dec,
    quantity: Dec,
    margin: Dec,
) -> (r: Dec)
    requires
        liquidation_price_spec(leverage, maintenance@, side, price@, quantity@, margin@) is Some,
    ensures
        r@ == liquidation_price_spec(leverage, maintenance@, side, price@, quantity@, margin@).unwrap(),
{
    checked_calc_liquidation_price(leverage, maintenance, side, price, quantity, margin).unwrap()
}

/// `value` is a whole multiple of `tick_size`; `None` where the remainder computation
/// overflows.
pub fn checked_is_tick_aligned(value: Dec, tick_size: Dec) -> (r: Option<bool>)
    ensures
        tick_size.val() == 0 ==> r == Some(false),
        tick_size.val() != 0 ==> (r is Some <==> decimal_checked_rem(value@, tick_size@) is Some),
        r matches Some(b) ==> (b <==> divides_value(tick_size.val(), value.val())),
{
    if tick_size.is_zero() {
        return Some(false);
    }
    match value.checked_rem(&tick_size) {
        Some(_) => Some(is_tick_aligned(value, tick_size)),
        None => None,
    }
}

/// `value` is a whole multiple of `tick_size` (never for a zero tick size).
pub fn is_tick_aligned(value: Dec, tick_size: Dec) -> (r: bool)
    requires
        tick_size.val() == 0 || decimal_checked_rem(value@, tick_size@) is Some,
    ensures
        r == divides_value(tick_size.val(), value.val()),
{
    if tick_size.is_zero() {
        return false;
    }
    match value.checked_rem(&tick_size) {
        Some(rem) => rem.is_zero(),
        None => false,
    }
}

} // verus!
